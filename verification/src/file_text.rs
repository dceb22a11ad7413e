//! The text of a file imported through the connector: its bytes read as UTF-8, as UTF-8 after a
//! byte-order mark, as UTF-16 (little-endian unless a big-endian byte-order mark says
//! otherwise), or else byte by byte.

use vstd::prelude::*;

use crate::add_import::opt_string;

verus! {

/// What `std::str::from_utf8` decodes `bytes` to, when they are UTF-8.
pub uninterp spec fn utf8_decoded(bytes: Seq<u8>) -> Option<Seq<char>>;

/// Calls `std::str::from_utf8`: the text when the bytes are UTF-8.
#[verifier::external_body]
fn decode_utf8(bytes: &[u8]) -> (r: Option<String>)
    ensures
        opt_string(r) == utf8_decoded(bytes@),
{
    std::str::from_utf8(bytes).ok().map(|t| t.to_string())
}

/// What `String::from_utf16` decodes `units` to, when they are UTF-16.
pub uninterp spec fn utf16_decoded(units: Seq<u16>) -> Option<Seq<char>>;

/// Calls `String::from_utf16`: the text when the units are UTF-16.
#[verifier::external_body]
fn decode_utf16_units(units: &[u16]) -> (r: Option<String>)
    ensures
        opt_string(r) == utf16_decoded(units@),
{
    String::from_utf16(units).ok()
}

/// The UTF-8 byte-order mark.
pub open spec fn utf8_bom() -> Seq<u8> {
    seq![0xEFu8, 0xBBu8, 0xBFu8]
}

/// `b` starts with `p`.
pub open spec fn bytes_start_with(b: Seq<u8>, p: Seq<u8>) -> bool {
    p.len() <= b.len() && b.subrange(0, p.len() as int) == p
}

/// The 16-bit units of `b`, two bytes each, big-endian when `big` is set.
pub open spec fn utf16_units(b: Seq<u8>, big: bool) -> Seq<u16> {
    Seq::new(b.len() / 2, |i: int| if big {
        (b[2 * i] as int * 256 + b[2 * i + 1] as int) as u16
    } else {
        (b[2 * i + 1] as int * 256 + b[2 * i] as int) as u16
    })
}

/// The text of UTF-16 bytes: none for an odd length; a byte-order mark `FF FE` or `FE FF`
/// sets the byte order and is left out; without one the bytes are little-endian.
pub open spec fn utf16_text(b: Seq<u8>) -> Option<Seq<char>> {
    if b.len() % 2 != 0 {
        None
    } else if bytes_start_with(b, seq![0xFFu8, 0xFEu8]) {
        utf16_decoded(utf16_units(b.subrange(2, b.len() as int), false))
    } else if bytes_start_with(b, seq![0xFEu8, 0xFFu8]) {
        utf16_decoded(utf16_units(b.subrange(2, b.len() as int), true))
    } else {
        utf16_decoded(utf16_units(b, false))
    }
}

/// Each byte as the character of the same number.
pub open spec fn latin1_text(b: Seq<u8>) -> Seq<char> {
    b.map_values(|x: u8| x as char)
}

/// The text of a file's bytes: UTF-8, else UTF-8 after a byte-order mark, else UTF-16, else
/// byte by byte.
pub open spec fn file_text_spec(b: Seq<u8>) -> Seq<char> {
    match utf8_decoded(b) {
        Some(t) => t,
        None => match (if bytes_start_with(b, utf8_bom()) {
            utf8_decoded(b.subrange(3, b.len() as int))
        } else {
            None
        }) {
            Some(t) => t,
            None => match utf16_text(b) {
                Some(t) => t,
                None => latin1_text(b),
            },
        },
    }
}

fn starts_with_bytes(b: &[u8], x: u8, y: u8) -> (r: bool)
    ensures
        r == bytes_start_with(b@, seq![x, y]),
{
    let r = b.len() >= 2 && b[0] == x && b[1] == y;
    proof {
        if b@.len() >= 2 {
            assert(r == (b@.subrange(0, 2) =~= seq![x, y]));
        }
    }
    r
}

fn units_of(b: &[u8], from: usize, big: bool) -> (r: Vec<u16>)
    requires
        from <= b@.len(),
        (b@.len() - from) % 2 == 0,
    ensures
        r@ == utf16_units(b@.subrange(from as int, b@.len() as int), big),
{
    let ghost body = b@.subrange(from as int, b@.len() as int);
    let n = (b.len() - from) / 2;
    assert(n == body.len() / 2);
    let mut out: Vec<u16> = Vec::new();
    let mut i: usize = 0;
    while i < n
        invariant
            n == (b@.len() - from) / 2,
            from <= b@.len(),
            (b@.len() - from) % 2 == 0,
            i <= n,
            body == b@.subrange(from as int, b@.len() as int),
            out@ == utf16_units(body, big).subrange(0, i as int),
        decreases n - i,
    {
        let ghost blen = b@.len();
        assert(blen == b.len());
        assert(2 * i + 1 < b@.len() - from) by (nonlinear_arith)
            requires
                i < n,
                n == (b@.len() - from) / 2,
                from <= b@.len(),
        ;
        assert(from + 2 * i + 1 < b.len());
        let j: usize = from + 2 * i;
        let hi = b[j];
        let lo = b[j + 1];
        let u: u16 = if big {
            (hi as u16) * 256 + (lo as u16)
        } else {
            (lo as u16) * 256 + (hi as u16)
        };
        proof {
            assert(body[2 * i as int] == hi);
            assert(body[2 * i as int + 1] == lo);
            assert(u == utf16_units(body, big)[i as int]);
        }
        out.push(u);
        proof {
            assert(out@ =~= utf16_units(body, big).subrange(0, i + 1));
        }
        i = i + 1;
    }
    proof {
        assert(utf16_units(body, big).subrange(0, n as int) =~= utf16_units(body, big));
    }
    out
}

fn utf16_text_exec(b: &[u8]) -> (r: Option<String>)
    ensures
        opt_string(r) == utf16_text(b@),
{
    if b.len() % 2 != 0 {
        return None;
    }
    let units = if starts_with_bytes(b, 0xFF, 0xFE) {
        units_of(b, 2, false)
    } else if starts_with_bytes(b, 0xFE, 0xFF) {
        units_of(b, 2, true)
    } else {
        let u = units_of(b, 0, false);
        proof {
            assert(b@.subrange(0, b@.len() as int) =~= b@);
        }
        u
    };
    decode_utf16_units(units.as_slice())
}

fn latin1_exec(b: &[u8]) -> (r: String)
    ensures
        r@ == latin1_text(b@),
{
    let mut out = String::new();
    let mut i: usize = 0;
    while i < b.len()
        invariant
            i <= b@.len(),
            out@ == latin1_text(b@).subrange(0, i as int),
        decreases b.len() - i,
    {
        let c = b[i] as char;
        crate::text::push_char(&mut out, c);
        proof {
            assert(out@ =~= latin1_text(b@).subrange(0, i + 1));
        }
        i = i + 1;
    }
    proof {
        assert(latin1_text(b@).subrange(0, b@.len() as int) =~= latin1_text(b@));
    }
    out
}

/// The text of a file's bytes.
pub fn file_text(b: &[u8]) -> (r: String)
    ensures
        r@ == file_text_spec(b@),
{
    if let Some(t) = decode_utf8(b) {
        return t;
    }
    if b.len() >= 3 && b[0] == 0xEF && b[1] == 0xBB && b[2] == 0xBF {
        proof {
            assert(b@.subrange(0, 3) =~= utf8_bom());
        }
        if let Some(t) = decode_utf8(vstd::slice::slice_subrange(b, 3, b.len())) {
            return t;
        }
    } else {
        proof {
            if bytes_start_with(b@, utf8_bom()) {
                assert(b@.subrange(0, 3)[0] == 0xEFu8);
                assert(b@.subrange(0, 3)[1] == 0xBBu8);
                assert(b@.subrange(0, 3)[2] == 0xBFu8);
            }
        }
    }
    match utf16_text_exec(b) {
        Some(t) => t,
        None => latin1_exec(b),
    }
}

} // verus!
