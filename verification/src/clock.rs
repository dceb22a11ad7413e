//! Identifiers made unique by the clock and a per-process counter.

use vstd::prelude::*;

use crate::text::{chars_of, push_char, push_str};

verus! {

/// Nanoseconds since the Unix epoch, as the system clock tells them (0 before the epoch).
#[verifier::external_body]
pub fn unix_nanos() -> u128 {
    std::time::SystemTime::now().duration_since(std::time::UNIX_EPOCH).map(|d| d.as_nanos()).unwrap_or(0)
}

/// A lower-case hexadecimal digit.
pub open spec fn hex_digit(d: nat) -> char {
    if d < 10 {
        (48 + d) as char
    } else {
        (87 + d) as char
    }
}

/// The lower-case hexadecimal digits of `n` (`{:x}`), most significant first.
pub open spec fn hex_of(n: nat) -> Seq<char>
    decreases n,
{
    if n < 16 {
        seq![hex_digit(n)]
    } else {
        hex_of(n / 16).push(hex_digit(n % 16))
    }
}

/// `{:0w$x}`: the hexadecimal digits of `n`, left-padded with zeros to `w` characters.
pub open spec fn hex_padded(n: nat, w: nat) -> Seq<char> {
    let h = hex_of(n);
    if h.len() >= w {
        h
    } else {
        Seq::new((w - h.len()) as nat, |i: int| '0') + h
    }
}

fn hex_digit_exec(d: u128) -> (c: char)
    requires
        d < 16,
    ensures
        c == hex_digit(d as nat),
{
    if d == 0 { '0' } else if d == 1 { '1' } else if d == 2 { '2' } else if d == 3 { '3' }
    else if d == 4 { '4' } else if d == 5 { '5' } else if d == 6 { '6' } else if d == 7 { '7' }
    else if d == 8 { '8' } else if d == 9 { '9' } else if d == 10 { 'a' } else if d == 11 { 'b' }
    else if d == 12 { 'c' } else if d == 13 { 'd' } else if d == 14 { 'e' } else { 'f' }
}

/// Appends `{:x}` of `n` to `out`.
pub fn push_hex(out: &mut String, n: u128)
    ensures
        final(out)@ == old(out)@ + hex_of(n as nat),
    decreases n,
{
    if n < 16 {
        push_char(out, hex_digit_exec(n));
    } else {
        push_hex(out, n / 16);
        push_char(out, hex_digit_exec(n % 16));
        proof {
            assert(hex_of(n as nat) == hex_of((n / 16) as nat).push(hex_digit((n % 16) as nat)));
        }
    }
}

/// Appends `{:016x}` of `n` to `out`.
pub fn push_hex16(out: &mut String, n: u128)
    ensures
        final(out)@ == old(out)@ + hex_padded(n as nat, 16),
{
    let mut h = String::new();
    push_hex(&mut h, n);
    let hv = chars_of(h.as_str());
    let len = hv.len();
    proof {
        assert(h@ =~= hex_of(n as nat));
    }
    let ghost start = out@;
    let mut pad: usize = 0;
    if len < 16 {
        while pad < 16 - len
            invariant
                len < 16,
                pad <= 16 - len,
                out@ == start + Seq::new(pad as nat, |i: int| '0'),
            decreases 16 - len - pad,
        {
            push_char(out, '0');
            proof {
                assert(out@ =~= start + Seq::new((pad + 1) as nat, |i: int| '0'));
            }
            pad = pad + 1;
        }
    }
    let ghost padded = out@;
    push_str(out, h.as_str());
    proof {
        if len < 16 {
            assert(out@ =~= start + (Seq::new((16 - len) as nat, |i: int| '0') + hex_of(n as nat)));
        } else {
            assert(out@ =~= start + hex_of(n as nat));
        }
    }
}

/// A placeholder token: `{now:016x}{count:016x}`.
pub open spec fn token_spec(now: nat, count: nat) -> Seq<char> {
    hex_padded(now, 16) + hex_padded(count, 16)
}

/// Hands out tokens unique within a process: the clock, then a counter.
pub struct TokenCounter {
    pub next: u64,
}

impl TokenCounter {
    /// The next token (its clock part is whatever the clock reads), advancing the counter.
    pub fn next_token(&mut self) -> (r: String)
        ensures
            exists|now: nat| r@ == token_spec(now, old(self).next as nat),
            final(self).next == (if old(self).next == u64::MAX {
                0
            } else {
                old(self).next + 1
            }),
    {
        let now = unix_nanos();
        let count = self.next;
        self.next = if count == u64::MAX {
            0
        } else {
            count + 1
        };
        let mut out = String::new();
        push_hex16(&mut out, now);
        push_hex16(&mut out, count as u128);
        proof {
            assert(out@ =~= token_spec(now as nat, count as nat));
        }
        out
    }
}

/// An import session id: `{prefix}-{now:x}{count:x}`.
pub open spec fn session_id_spec(prefix: Seq<char>, now: nat, count: nat) -> Seq<char> {
    prefix + seq!['-'] + hex_of(now) + hex_of(count)
}

/// A session id for `prefix`, advancing the counter.
pub fn session_id(prefix: &str, counter: &mut u64) -> (r: String)
    ensures
        exists|now: nat| r@ == session_id_spec(prefix@, now, *old(counter) as nat),
        *final(counter) == (if *old(counter) == u64::MAX {
            0
        } else {
            *old(counter) + 1
        }),
{
    let now = unix_nanos();
    let count = *counter;
    *counter = if count == u64::MAX {
        0
    } else {
        count + 1
    };
    let mut out = prefix.to_owned();
    push_char(&mut out, '-');
    push_hex(&mut out, now);
    push_hex(&mut out, count as u128);
    proof {
        assert(out@ =~= session_id_spec(prefix@, now as nat, count as nat));
    }
    out
}

} // verus!
