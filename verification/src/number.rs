//! Integers from JSON number texts: the integer part of a number written with a sign,
//! digits, a fraction and an exponent, saturated to the range of the integer type, as a
//! conversion of the number to that type truncates and saturates.

use vstd::prelude::*;

use crate::text::{all_digits, all_digits_exec, digit_value, digits_value, is_digit};

verus! {

/// How many ASCII digits `s` starts with.
pub open spec fn leading_digits(s: Seq<char>) -> nat
    decreases s.len(),
{
    if s.len() > 0 && is_digit(s[0]) {
        1 + leading_digits(s.drop_first())
    } else {
        0
    }
}

/// The parts of a number text.
pub struct NumParts {
    pub neg: bool,
    pub int_digits: Seq<char>,
    pub frac: Seq<char>,
    pub exp_neg: bool,
    pub exp: Seq<char>,
}

/// The exponent part of a number text after its mantissa, when well formed: nothing, or
/// `e`/`E`, an optional sign and one or more digits.
pub open spec fn exp_parts(r: Seq<char>) -> Option<(bool, Seq<char>)> {
    if r.len() == 0 {
        Some((false, Seq::empty()))
    } else if r[0] == 'e' || r[0] == 'E' {
        let c = r.drop_first();
        let eneg = c.len() > 0 && c[0] == '-';
        let esig = c.len() > 0 && (c[0] == '-' || c[0] == '+');
        let d = if esig {
            c.drop_first()
        } else {
            c
        };
        if d.len() > 0 && all_digits(d) {
            Some((eneg, d))
        } else {
            None
        }
    } else {
        None
    }
}

/// The parts of a number text: an optional `-`, one or more digits, optionally `.` and one
/// or more digits, optionally an exponent.
pub open spec fn num_parts(t: Seq<char>) -> Option<NumParts> {
    let neg = t.len() > 0 && t[0] == '-';
    let a = if neg {
        t.drop_first()
    } else {
        t
    };
    let n1 = leading_digits(a);
    if n1 == 0 {
        None
    } else {
        let ip = a.subrange(0, n1 as int);
        let r1 = a.subrange(n1 as int, a.len() as int);
        if r1.len() > 0 && r1[0] == '.' {
            let b = r1.drop_first();
            let n2 = leading_digits(b);
            if n2 == 0 {
                None
            } else {
                match exp_parts(b.subrange(n2 as int, b.len() as int)) {
                    Some((en, ed)) => Some(NumParts { neg, int_digits: ip, frac: b.subrange(0, n2 as int), exp_neg: en, exp: ed }),
                    None => None,
                }
            }
        } else {
            match exp_parts(r1) {
                Some((en, ed)) => Some(NumParts { neg, int_digits: ip, frac: Seq::empty(), exp_neg: en, exp: ed }),
                None => None,
            }
        }
    }
}

/// Ten to the power `k`.
pub open spec fn pow10(k: nat) -> nat
    decreases k,
{
    if k == 0 {
        1
    } else {
        10 * pow10((k - 1) as nat)
    }
}

/// The magnitude of a number's integer part: its digits scaled by its exponent, the digits
/// that fall behind the point dropped.
pub open spec fn int_part(p: NumParts) -> int {
    let d = p.int_digits + p.frac;
    let e = if p.exp_neg {
        -digits_value(p.exp)
    } else {
        digits_value(p.exp)
    };
    let scale = e - p.frac.len();
    if scale >= 0 {
        digits_value(d) * pow10(scale as nat)
    } else if -scale >= d.len() {
        0
    } else {
        digits_value(d.subrange(0, d.len() + scale))
    }
}

/// A number text as an `i64`: its integer part, saturated to the range of `i64`; nothing for
/// a text that is not a number.
pub open spec fn number_as_i64(t: Seq<char>) -> Option<i64> {
    match num_parts(t) {
        None => None,
        Some(p) => {
            let m = int_part(p);
            if p.neg {
                if m >= 0x8000_0000_0000_0000 {
                    Some(i64::MIN)
                } else {
                    Some((-m) as i64)
                }
            } else if m > i64::MAX {
                Some(i64::MAX)
            } else {
                Some(m as i64)
            }
        },
    }
}

/// A number text as a `u64`: its integer part, saturated to the range of `u64`; nothing for
/// a negative number other than zero, or a text that is not a number.
pub open spec fn number_as_u64(t: Seq<char>) -> Option<u64> {
    match num_parts(t) {
        None => None,
        Some(p) => if p.neg && digits_value(p.int_digits + p.frac) != 0 {
            None
        } else if int_part(p) > u64::MAX {
            Some(u64::MAX)
        } else {
            Some(int_part(p) as u64)
        },
    }
}

/// The cap on integer parts while computing them: one more than `u64::MAX`.
pub open spec fn cap() -> int {
    0x1_0000_0000_0000_0000
}

proof fn lemma_leading_digits(s: Seq<char>)
    ensures
        leading_digits(s) <= s.len(),
        forall|i: int| 0 <= i < leading_digits(s) ==> is_digit(#[trigger] s[i]),
        leading_digits(s) < s.len() ==> !is_digit(s[leading_digits(s) as int]),
    decreases s.len(),
{
    if s.len() > 0 && is_digit(s[0]) {
        lemma_leading_digits(s.drop_first());
        assert forall|i: int| 0 <= i < leading_digits(s) implies is_digit(#[trigger] s[i]) by {
            if i > 0 {
                assert(s[i] == s.drop_first()[i - 1]);
            }
        }
    }
}

fn count_digits(v: &Vec<char>, lo: usize) -> (n: usize)
    requires
        lo <= v@.len(),
    ensures
        n == leading_digits(v@.subrange(lo as int, v@.len() as int)),
        lo + n <= v@.len(),
{
    let ghost s = v@.subrange(lo as int, v@.len() as int);
    proof {
        lemma_leading_digits(s);
    }
    let mut i = lo;
    while i < v.len() && crate::number::is_digit_exec(v[i])
        invariant
            lo <= i <= v@.len(),
            s == v@.subrange(lo as int, v@.len() as int),
            forall|k: int| 0 <= k < i - lo ==> is_digit(#[trigger] s[k]),
            leading_digits(s) <= s.len(),
            forall|k: int| 0 <= k < leading_digits(s) ==> is_digit(#[trigger] s[k]),
            leading_digits(s) < s.len() ==> !is_digit(s[leading_digits(s) as int]),
            i - lo <= leading_digits(s),
        decreases v.len() - i,
    {
        proof {
            assert(s[i - lo] == v@[i as int]);
            if i - lo == leading_digits(s) {
                assert(!is_digit(s[i - lo]));
            }
        }
        i = i + 1;
    }
    proof {
        if i < v.len() {
            assert(s[i - lo] == v@[i as int]);
        }
    }
    i - lo
}

/// Whether `c` is an ASCII digit.
pub fn is_digit_exec(c: char) -> (b: bool)
    ensures
        b == is_digit(c),
{
    '0' <= c && c <= '9'
}

/// `min(digits_value(v[lo..hi]), c)`.
fn capped_value(v: &Vec<char>, lo: usize, hi: usize, c: u128) -> (r: u128)
    requires
        lo <= hi <= v@.len(),
        all_digits(v@.subrange(lo as int, hi as int)),
        c <= 0x1_0000_0000_0000_0000_0000_0000_0000,
    ensures
        r as int == if digits_value(v@.subrange(lo as int, hi as int)) < c {
            digits_value(v@.subrange(lo as int, hi as int))
        } else {
            c as int
        },
{
    let ghost d = v@.subrange(lo as int, hi as int);
    let mut acc: u128 = 0;
    let mut i = lo;
    proof {
        assert(d.subrange(0, 0) =~= Seq::<char>::empty());
    }
    while i < hi
        invariant
            lo <= i <= hi <= v@.len(),
            d == v@.subrange(lo as int, hi as int),
            all_digits(d),
            acc as int == if digits_value(d.subrange(0, i - lo)) < c {
                digits_value(d.subrange(0, i - lo))
            } else {
                c as int
            },
            acc <= c,
            c <= 0x1_0000_0000_0000_0000_0000_0000_0000,
        decreases hi - i,
    {
        proof {
            assert(d[i - lo] == v@[i as int]);
            assert(is_digit(d[i - lo]));
            assert(d.subrange(0, i - lo + 1).drop_last() =~= d.subrange(0, i - lo));
            assert(d.subrange(0, i - lo + 1).last() == v@[i as int]);
            assert(all_digits(d.subrange(0, i - lo))) by {
                assert forall|k: int| 0 <= k < d.subrange(0, i - lo).len() implies is_digit(#[trigger] d.subrange(0, i - lo)[k]) by {
                    assert(d.subrange(0, i - lo)[k] == d[k]);
                }
            }
            crate::text::lemma_digits_value_nonneg(d.subrange(0, i - lo));
        }
        let dv = digit_value(v[i]) as u128;
        let next = acc * 10 + dv;
        acc = if next < c {
            next
        } else {
            c
        };
        i = i + 1;
    }
    proof {
        assert(d.subrange(0, hi - lo) =~= d);
    }
    acc
}

proof fn lemma_pow10_big(n: int, s: nat)
    requires
        n >= 1,
        s >= 20,
    ensures
        n * pow10(s) >= cap(),
    decreases s,
{
    if s == 20 {
        reveal_with_fuel(pow10, 21);
        assert(pow10(20) == 100_000_000_000_000_000_000nat);
        assert(n * pow10(s) >= pow10(s)) by (nonlinear_arith)
            requires n >= 1, pow10(s) >= 0;
    } else {
        lemma_pow10_big(n, (s - 1) as nat);
        assert(pow10(s) == 10 * pow10((s - 1) as nat));
        assert(n * pow10(s) == 10 * (n * pow10((s - 1) as nat))) by (nonlinear_arith)
            requires pow10(s) == 10 * pow10((s - 1) as nat);
    }
}

proof fn lemma_pow10_nonneg(s: nat)
    ensures
        pow10(s) >= 1,
    decreases s,
{
    if s > 0 {
        lemma_pow10_nonneg((s - 1) as nat);
    }
}

/// Where the parts of a number text lie in its characters.
struct NumSpans {
    neg: bool,
    int_lo: usize,
    int_hi: usize,
    frac_lo: usize,
    frac_hi: usize,
    exp_neg: bool,
    exp_lo: usize,
    exp_hi: usize,
}

spec fn spans_ok(v: Seq<char>, s: NumSpans) -> bool {
    &&& s.int_lo <= s.int_hi <= v.len()
    &&& s.frac_lo <= s.frac_hi <= v.len()
    &&& s.exp_lo <= s.exp_hi <= v.len()
    &&& s.int_hi <= s.frac_lo
}

spec fn spans_parts(v: Seq<char>, s: NumSpans) -> NumParts {
    NumParts {
        neg: s.neg,
        int_digits: v.subrange(s.int_lo as int, s.int_hi as int),
        frac: v.subrange(s.frac_lo as int, s.frac_hi as int),
        exp_neg: s.exp_neg,
        exp: v.subrange(s.exp_lo as int, s.exp_hi as int),
    }
}

#[verifier::rlimit(40)]
fn split_number(v: &Vec<char>) -> (r: Option<NumSpans>)
    ensures
        match num_parts(v@) {
            None => r is None,
            Some(p) => r matches Some(s) && spans_ok(v@, s) && spans_parts(v@, s) == p
                && all_digits(p.int_digits) && all_digits(p.frac),
        },
{
    let n = v.len();
    let neg = n > 0 && v[0] == '-';
    let a0: usize = if neg { 1 } else { 0 };
    let ghost a = if neg {
        v@.drop_first()
    } else {
        v@
    };
    proof {
        assert(a =~= v@.subrange(a0 as int, n as int));
    }
    let n1 = count_digits(v, a0);
    if n1 == 0 {
        return None;
    }
    let p = a0 + n1;
    let ghost r1 = a.subrange(n1 as int, a.len() as int);
    proof {
        lemma_leading_digits(a);
        assert forall|k: int| 0 <= k < n1 implies is_digit(#[trigger] v@.subrange(a0 as int, p as int)[k]) by {
            assert(v@.subrange(a0 as int, p as int)[k] == a[k]);
        }
        assert(a.subrange(0, n1 as int) =~= v@.subrange(a0 as int, p as int));
        assert(r1 =~= v@.subrange(p as int, n as int));
    }
    let has_frac = p < n && v[p] == '.';
    let mut fs: usize = p;
    let mut fe: usize = p;
    if has_frac {
        let b = p + 1;
        let n2 = count_digits(v, b);
        proof {
            assert(r1[0] == v@[p as int]);
            assert(r1.drop_first() =~= v@.subrange(b as int, n as int));
        }
        if n2 == 0 {
            return None;
        }
        fs = b;
        fe = b + n2;
        proof {
            let bb = r1.drop_first();
            lemma_leading_digits(bb);
            assert forall|k: int| 0 <= k < n2 implies is_digit(#[trigger] v@.subrange(fs as int, fe as int)[k]) by {
                assert(v@.subrange(fs as int, fe as int)[k] == bb[k]);
            }
            assert(bb.subrange(0, n2 as int) =~= v@.subrange(fs as int, fe as int));
            assert(bb.subrange(n2 as int, bb.len() as int) =~= v@.subrange(fe as int, n as int));
        }
    } else {
        proof {
            if p < n {
                assert(r1[0] == v@[p as int]);
            }
            assert(v@.subrange(fs as int, fe as int) =~= Seq::<char>::empty());
        }
    }
    let ghost rest = v@.subrange(fe as int, n as int);
    let q = fe;
    if q == n {
        proof {
            assert(rest.len() == 0);
            assert(v@.subrange(n as int, n as int) =~= Seq::<char>::empty());
        }
        return Some(NumSpans { neg, int_lo: a0, int_hi: p, frac_lo: fs, frac_hi: fe, exp_neg: false, exp_lo: n, exp_hi: n });
    }
    proof {
        assert(rest[0] == v@[q as int]);
    }
    if !(v[q] == 'e' || v[q] == 'E') {
        return None;
    }
    let c = q + 1;
    let eneg = c < n && v[c] == '-';
    let esig = c < n && (v[c] == '-' || v[c] == '+');
    let ds: usize = if esig { c + 1 } else { c };
    proof {
        let cc = rest.drop_first();
        assert(cc =~= v@.subrange(c as int, n as int));
        if c < n {
            assert(cc[0] == v@[c as int]);
        }
        if esig {
            assert(cc.drop_first() =~= v@.subrange(ds as int, n as int));
        }
    }
    if !(ds < n && all_digits_exec(v, ds, n)) {
        return None;
    }
    Some(NumSpans { neg, int_lo: a0, int_hi: p, frac_lo: fs, frac_hi: fe, exp_neg: eneg, exp_lo: ds, exp_hi: n })
}

/// `min(d * 10^scale, cap())` for `0 <= scale < 20`.
fn scale_up(full: u128, scale: i128, Ghost(x): Ghost<int>) -> (r: u128)
    requires
        0 <= scale < 20,
        x >= 1,
        full as int == if x < cap() {
            x
        } else {
            cap()
        },
    ensures
        r as int == if x * pow10(scale as nat) < cap() {
            x * pow10(scale as nat)
        } else {
            cap()
        },
{
    let mut acc = full;
    let mut j: i128 = 0;
    proof {
        assert(pow10(0) == 1);
        assert(x * pow10(0) == x);
    }
    while j < scale
        invariant
            0 <= j <= scale < 20,
            x >= 1,
            acc as int == if x * pow10(j as nat) < cap() {
                x * pow10(j as nat)
            } else {
                cap()
            },
        decreases scale - j,
    {
        proof {
            assert(pow10((j + 1) as nat) == 10 * pow10(j as nat));
            assert(x * pow10((j + 1) as nat) == 10 * (x * pow10(j as nat))) by (nonlinear_arith)
                requires pow10((j + 1) as nat) == 10 * pow10(j as nat);
            lemma_pow10_nonneg(j as nat);
            assert(x * pow10(j as nat) >= 0) by (nonlinear_arith)
                requires x >= 1, pow10(j as nat) >= 1;
        }
        let next = acc * 10;
        acc = if next < 0x1_0000_0000_0000_0000 {
            next
        } else {
            0x1_0000_0000_0000_0000
        };
        j = j + 1;
    }
    acc
}

/// `min(int_part(p), cap())`, from the digits `d` of `p` (integer part then fraction), their
/// capped value `full`, and the exponent's capped value `expc`.
#[verifier::spinoff_prover]
#[verifier::rlimit(60)]
fn magnitude(d: &Vec<char>, full: u128, exp_neg: bool, expc: u128, f: usize, Ghost(p): Ghost<NumParts>) -> (mag: u128)
    requires
        all_digits(d@),
        d@ == p.int_digits + p.frac,
        f == p.frac.len(),
        exp_neg == p.exp_neg,
        digits_value(p.exp) >= 0,
        expc as int == if digits_value(p.exp) < 0x1_0000_0000_0000_0000_0000_0000 {
            digits_value(p.exp)
        } else {
            0x1_0000_0000_0000_0000_0000_0000
        },
        digits_value(d@) >= 0,
        full as int == if digits_value(d@) < cap() {
            digits_value(d@)
        } else {
            cap()
        },
    ensures
        mag as int == if int_part(p) < cap() {
            int_part(p)
        } else {
            cap()
        },
{
    let dl = d.len();
    let fi: i128 = f as i128;
    let scale: i128 = if exp_neg { -(expc as i128) - fi } else { expc as i128 - fi };
    let ghost ed = p.exp;
    let ghost e_exact = if exp_neg {
        -digits_value(ed)
    } else {
        digits_value(ed)
    };
    let ghost scale_exact = e_exact - p.frac.len();
    proof {
        assert(d@.len() == dl);
        assert(d@.subrange(0, d@.len() as int) =~= d@);
    }
    if scale >= 0 {
        if full == 0 {
            proof {
                if digits_value(ed) < 0x1_0000_0000_0000_0000_0000_0000 {
                    assert(scale == scale_exact);
                } else {
                    assert(!exp_neg);
                    assert(scale_exact >= 0);
                }
                assert(digits_value(d@) == 0);
                assert(int_part(p) == 0 * pow10(scale_exact as nat));
            }
            0
        } else if scale >= 20 {
            proof {
                if digits_value(ed) < 0x1_0000_0000_0000_0000_0000_0000 {
                    assert(scale == scale_exact);
                    lemma_pow10_big(digits_value(d@), scale as nat);
                } else {
                    assert(!exp_neg);
                    assert(scale_exact >= 20);
                    lemma_pow10_big(digits_value(d@), scale_exact as nat);
                }
            }
            0x1_0000_0000_0000_0000
        } else {
            proof {
                assert(digits_value(ed) < 0x1_0000_0000_0000_0000_0000_0000);
                assert(scale == scale_exact);
            }
            scale_up(full, scale, Ghost(digits_value(d@)))
        }
    } else {
        let k: i128 = -scale;
        proof {
            if digits_value(ed) < 0x1_0000_0000_0000_0000_0000_0000 {
                assert(scale == scale_exact);
            } else {
                assert(exp_neg);
                assert(-scale_exact >= d@.len());
                assert(k >= dl as i128);
            }
        }
        if k >= dl as i128 {
            0
        } else {
            let keep: usize = (dl as i128 - k) as usize;
            capped_value(d, 0, keep, 0x1_0000_0000_0000_0000)
        }
    }
}

/// The sign of a number text, whether its digits are all zero, and its integer part capped
/// at `cap()`; nothing for a text that is not a number.
#[verifier::rlimit(40)]
fn integer_part(t: &str) -> (r: Option<(bool, bool, u128)>)
    ensures
        match num_parts(t@) {
            None => r is None,
            Some(p) => r matches Some((neg, zero, m)) && neg == p.neg
                && zero == (digits_value(p.int_digits + p.frac) == 0)
                && m as int == if int_part(p) < cap() {
                    int_part(p)
                } else {
                    cap()
                },
        },
{
    let v = crate::text::chars_of(t);
    let sp = match split_number(&v) {
        None => return None,
        Some(sp) => sp,
    };
    let ghost parts = spans_parts(v@, sp);
    proof {
        assert(all_digits(parts.int_digits));
    }
    let mut d: Vec<char> = Vec::new();
    let mut i = sp.int_lo;
    while i < sp.int_hi
        invariant
            sp.int_lo <= i <= sp.int_hi <= v@.len(),
            d@ == v@.subrange(sp.int_lo as int, i as int),
        decreases sp.int_hi - i,
    {
        d.push(v[i]);
        proof {
            assert(d@ =~= v@.subrange(sp.int_lo as int, i + 1));
        }
        i = i + 1;
    }
    let ghost d0 = d@;
    let mut i = sp.frac_lo;
    proof {
        assert(d@ =~= d0 + v@.subrange(sp.frac_lo as int, i as int));
    }
    while i < sp.frac_hi
        invariant
            sp.frac_lo <= i <= sp.frac_hi <= v@.len(),
            d@ == d0 + v@.subrange(sp.frac_lo as int, i as int),
        decreases sp.frac_hi - i,
    {
        d.push(v[i]);
        proof {
            assert(d@ =~= d0 + v@.subrange(sp.frac_lo as int, i + 1));
        }
        i = i + 1;
    }
    proof {
        assert(d@ =~= parts.int_digits + parts.frac);
        assert(all_digits(parts.frac));
        assert(all_digits(d@)) by {
            assert forall|k: int| 0 <= k < d@.len() implies is_digit(#[trigger] d@[k]) by {
                if k < parts.int_digits.len() {
                    assert(d@[k] == parts.int_digits[k]);
                } else {
                    assert(d@[k] == parts.frac[k - parts.int_digits.len()]);
                }
            }
        }
        assert(d@.subrange(0, d@.len() as int) =~= d@);
        assert(v@.subrange(sp.exp_lo as int, sp.exp_hi as int) == parts.exp);
    }
    let dl = d.len();
    let full = capped_value(&d, 0, dl, 0x1_0000_0000_0000_0000);
    let zero = full == 0;
    proof {
        crate::text::lemma_digits_value_nonneg(d@);
    }
    let expc: u128 = if sp.exp_lo < sp.exp_hi {
        capped_value(&v, sp.exp_lo, sp.exp_hi, 0x1_0000_0000_0000_0000_0000_0000)
    } else {
        0
    };
    proof {
        if sp.exp_lo < sp.exp_hi {
            assert(all_digits(parts.exp)) by {
                assert(num_parts(v@) == Some(parts));
            }
            crate::text::lemma_digits_value_nonneg(parts.exp);
        } else {
            assert(parts.exp.len() == 0);
        }
    }
    let mag = magnitude(&d, full, sp.exp_neg, expc, sp.frac_hi - sp.frac_lo, Ghost(parts));
    proof {
        assert(num_parts(t@) == Some(parts));
    }
    Some((sp.neg, zero, mag))
}

/// The integer part of a number text as an `i64`, saturated (`as i64` on the number).
pub fn number_text_i64(t: &str) -> (r: Option<i64>)
    ensures
        r == number_as_i64(t@),
{
    match integer_part(t) {
        None => None,
        Some((neg, _zero, m)) => if neg {
            if m >= 0x8000_0000_0000_0000 {
                Some(i64::MIN)
            } else {
                Some(-(m as i64))
            }
        } else if m > 0x7fff_ffff_ffff_ffff {
            Some(i64::MAX)
        } else {
            Some(m as i64)
        },
    }
}

/// The integer part of a non-negative number text as a `u64`, saturated (`as u64` on the
/// number); nothing for a negative number other than zero.
pub fn number_text_u64(t: &str) -> (r: Option<u64>)
    ensures
        r == number_as_u64(t@),
{
    match integer_part(t) {
        None => None,
        Some((neg, zero, m)) => if neg && !zero {
            None
        } else if m > 0xffff_ffff_ffff_ffff {
            Some(u64::MAX)
        } else {
            Some(m as u64)
        },
    }
}

} // verus!
