//! Character-level text model shared by the whole library.
//!
//! Strings are modelled by their `Seq<char>` view; the spec functions here say
//! what trimming, prefix tests and case-insensitive ASCII checks mean on that view.

use vstd::prelude::*;

verus! {

/// `char::is_whitespace`: the Unicode `White_Space` property.
pub open spec fn is_ws(c: char) -> bool {
    ||| ('\u{9}' <= c && c <= '\u{d}')
    ||| c == ' '
    ||| c == '\u{85}'
    ||| c == '\u{a0}'
    ||| c == '\u{1680}'
    ||| ('\u{2000}' <= c && c <= '\u{200a}')
    ||| c == '\u{2028}'
    ||| c == '\u{2029}'
    ||| c == '\u{202f}'
    ||| c == '\u{205f}'
    ||| c == '\u{3000}'
}

/// Executable `char::is_whitespace`.
pub fn char_is_ws(c: char) -> (b: bool)
    ensures
        b == is_ws(c),
{
    ('\u{9}' <= c && c <= '\u{d}') || c == ' ' || c == '\u{85}' || c == '\u{a0}' || c
        == '\u{1680}' || ('\u{2000}' <= c && c <= '\u{200a}') || c == '\u{2028}' || c
        == '\u{2029}' || c == '\u{202f}' || c == '\u{205f}' || c == '\u{3000}'
}

/// The sequence with leading whitespace removed (`str::trim_start`).
pub open spec fn trim_start(s: Seq<char>) -> Seq<char>
    decreases s.len(),
{
    if s.len() > 0 && is_ws(s[0]) {
        trim_start(s.drop_first())
    } else {
        s
    }
}

/// The sequence with trailing whitespace removed (`str::trim_end`).
pub open spec fn trim_end(s: Seq<char>) -> Seq<char>
    decreases s.len(),
{
    if s.len() > 0 && is_ws(s.last()) {
        trim_end(s.drop_last())
    } else {
        s
    }
}

/// `str::trim`.
pub open spec fn trim(s: Seq<char>) -> Seq<char> {
    trim_end(trim_start(s))
}

/// The characters of `s`, in order.
pub fn chars_of(s: &str) -> (v: Vec<char>)
    ensures
        v@ == s@,
{
    let mut v: Vec<char> = Vec::new();
    for c in it: s.chars()
        invariant
            v@ == it.seq().take(it.index() as int),
            it.seq() == s@,
    {
        v.push(c);
    }
    v
}


/// Appends one character to `s` (`String::push`).
#[verifier::external_body]
pub fn push_char(s: &mut String, c: char)
    ensures
        final(s)@ == old(s)@.push(c),
{
    s.push(c);
}

/// Appends every character of `t` to `s`.
pub fn push_str(s: &mut String, t: &str)
    ensures
        final(s)@ == old(s)@ + t@,
{
    let v = chars_of(t);
    let ghost start = s@;
    let mut i: usize = 0;
    while i < v.len()
        invariant
            i <= v@.len(),
            v@ == t@,
            s@ == start + v@.subrange(0, i as int),
        decreases v.len() - i,
    {
        push_char(s, v[i]);
        assert(v@.subrange(0, i + 1) =~= v@.subrange(0, i as int).push(v@[i as int]));
        i = i + 1;
    }
    assert(v@.subrange(0, v@.len() as int) =~= v@);
}

/// The string made of `v[lo..hi]`.
pub fn string_from_range(v: &Vec<char>, lo: usize, hi: usize) -> (s: String)
    requires
        lo <= hi <= v@.len(),
    ensures
        s@ == v@.subrange(lo as int, hi as int),
{
    let mut s = String::new();
    let mut i: usize = lo;
    while i < hi
        invariant
            lo <= i <= hi <= v@.len(),
            s@ == v@.subrange(lo as int, i as int),
        decreases hi - i,
    {
        push_char(&mut s, v[i]);
        assert(v@.subrange(lo as int, i + 1) =~= v@.subrange(lo as int, i as int).push(v@[i as int]));
        i = i + 1;
    }
    s
}

/// The string made of all of `v`.
pub fn string_from_chars(v: &Vec<char>) -> (s: String)
    ensures
        s@ == v@,
{
    let s = string_from_range(v, 0, v.len());
    assert(v@.subrange(0, v@.len() as int) =~= v@);
    s
}

/// Stepping the start of a trimmed window over leading whitespace.
proof fn lemma_trim_start_step(v: Seq<char>, i: int)
    requires
        0 <= i < v.len(),
        is_ws(v[i]),
    ensures
        trim_start(v.subrange(i, v.len() as int)) == trim_start(v.subrange(i + 1, v.len() as int)),
{
    assert(v.subrange(i, v.len() as int).drop_first() =~= v.subrange(i + 1, v.len() as int));
}

/// Stepping the end of a window over trailing whitespace.
proof fn lemma_trim_end_step(v: Seq<char>, lo: int, j: int)
    requires
        0 <= lo < j <= v.len(),
        is_ws(v[j - 1]),
    ensures
        trim_end(v.subrange(lo, j)) == trim_end(v.subrange(lo, j - 1)),
{
    assert(v.subrange(lo, j).drop_last() =~= v.subrange(lo, j - 1));
}

/// Index of the first character of `v[lo..]` that is not whitespace.
pub fn skip_ws_forward(v: &Vec<char>, lo: usize) -> (i: usize)
    requires
        lo <= v@.len(),
    ensures
        lo <= i <= v@.len(),
        trim_start(v@.subrange(lo as int, v@.len() as int)) == v@.subrange(i as int, v@.len() as int),
{
    let mut i = lo;
    while i < v.len() && char_is_ws(v[i])
        invariant
            lo <= i <= v@.len(),
            trim_start(v@.subrange(lo as int, v@.len() as int)) == trim_start(
                v@.subrange(i as int, v@.len() as int),
            ),
        decreases v.len() - i,
    {
        proof {
            lemma_trim_start_step(v@, i as int);
        }
        i = i + 1;
    }
    i
}

/// End index of `trim_end(v[lo..hi])`.
pub fn skip_ws_backward(v: &Vec<char>, lo: usize, hi: usize) -> (j: usize)
    requires
        lo <= hi <= v@.len(),
    ensures
        lo <= j <= hi,
        trim_end(v@.subrange(lo as int, hi as int)) == v@.subrange(lo as int, j as int),
{
    let mut j = hi;
    while j > lo && char_is_ws(v[j - 1])
        invariant
            lo <= j <= hi <= v@.len(),
            trim_end(v@.subrange(lo as int, hi as int)) == trim_end(v@.subrange(lo as int, j as int)),
        decreases j,
    {
        proof {
            lemma_trim_end_step(v@, lo as int, j as int);
        }
        j = j - 1;
    }
    j
}

/// Bounds of `trim(v)` inside `v`.
pub fn trim_bounds(v: &Vec<char>) -> (r: (usize, usize))
    ensures
        r.0 <= r.1 <= v@.len(),
        trim(v@) == v@.subrange(r.0 as int, r.1 as int),
{
    let a = skip_ws_forward(v, 0);
    assert(v@.subrange(0, v@.len() as int) =~= v@);
    let b = skip_ws_backward(v, a, v.len());
    (a, b)
}

/// `str::trim`, as an owned string.
pub fn trim_str(s: &str) -> (r: String)
    ensures
        r@ == trim(s@),
{
    let v = chars_of(s);
    let (a, b) = trim_bounds(&v);
    string_from_range(&v, a, b)
}


/// `p` is a prefix of `s`.
pub open spec fn starts_with(s: Seq<char>, p: Seq<char>) -> bool {
    p.len() <= s.len() && s.subrange(0, p.len() as int) == p
}

/// `p` is a suffix of `s`.
pub open spec fn ends_with(s: Seq<char>, p: Seq<char>) -> bool {
    p.len() <= s.len() && s.subrange(s.len() - p.len(), s.len() as int) == p
}

/// `p` occurs in `s` starting at index `i`.
pub open spec fn occurs_at(s: Seq<char>, p: Seq<char>, i: int) -> bool {
    0 <= i && i + p.len() <= s.len() && s.subrange(i, i + p.len()) == p
}

/// `p` occurs somewhere in `s` (`str::contains`).
pub open spec fn contains(s: Seq<char>, p: Seq<char>) -> bool {
    exists|i: int| occurs_at(s, p, i)
}

/// Whether `p` occurs in `v` at index `i`.
pub fn occurs_at_exec(v: &Vec<char>, p: &Vec<char>, i: usize) -> (b: bool)
    ensures
        b == occurs_at(v@, p@, i as int),
{
    if i > v.len() || p.len() > v.len() - i {
        return false;
    }
    let n = v.len();
    let mut k: usize = 0;
    while k < p.len()
        invariant
            n == v@.len(),
            i + p@.len() <= v@.len(),
            k <= p@.len(),
            forall|m: int| 0 <= m < k ==> v@[i + m] == p@[m],
        decreases p.len() - k,
    {
        if v[i + k] != p[k] {
            assert(v@.subrange(i as int, i + p@.len())[k as int] != p@[k as int]);
            return false;
        }
        k = k + 1;
    }
    assert(v@.subrange(i as int, i + p@.len()) =~= p@);
    true
}

/// `p` is a prefix of `v`.
pub fn starts_with_exec(v: &Vec<char>, p: &Vec<char>) -> (b: bool)
    ensures
        b == starts_with(v@, p@),
{
    occurs_at_exec(v, p, 0)
}

/// `p` is a suffix of `v`.
pub fn ends_with_exec(v: &Vec<char>, p: &Vec<char>) -> (b: bool)
    ensures
        b == ends_with(v@, p@),
{
    if p.len() > v.len() {
        return false;
    }
    occurs_at_exec(v, p, v.len() - p.len())
}

/// `a` and `b` hold the same characters.
pub fn chars_eq(a: &Vec<char>, b: &Vec<char>) -> (r: bool)
    ensures
        r == (a@ == b@),
{
    if a.len() != b.len() {
        return false;
    }
    let r = occurs_at_exec(a, b, 0);
    assert(a@.subrange(0, a@.len() as int) =~= a@);
    r
}

/// `a` and `b` are the same string.
pub fn str_eq(a: &str, b: &str) -> (r: bool)
    ensures
        r == (a@ == b@),
{
    let va = chars_of(a);
    let vb = chars_of(b);
    chars_eq(&va, &vb)
}

/// First index at or after `from` where `p` occurs in `v`, if any.
pub fn find_from(v: &Vec<char>, p: &Vec<char>, from: usize) -> (r: Option<usize>)
    ensures
        match r {
            Some(i) => from <= i && occurs_at(v@, p@, i as int) && forall|j: int|
                from <= j < i ==> !occurs_at(v@, p@, j),
            None => forall|j: int| from <= j ==> !occurs_at(v@, p@, j),
        },
{
    if from > v.len() {
        return None;
    }
    let mut i = from;
    while i < v.len()
        invariant
            from <= i <= v@.len(),
            forall|j: int| from <= j < i ==> !occurs_at(v@, p@, j),
        decreases v.len() - i,
    {
        if occurs_at_exec(v, p, i) {
            return Some(i);
        }
        i = i + 1;
    }
    if occurs_at_exec(v, p, i) {
        return Some(i);
    }
    None
}

/// Whether `p` occurs in `v` (`str::contains`).
pub fn contains_exec(v: &Vec<char>, p: &Vec<char>) -> (b: bool)
    ensures
        b == contains(v@, p@),
{
    match find_from(v, p, 0) {
        Some(i) => true,
        None => {
            assert forall|j: int| !occurs_at(v@, p@, j) by {
                if j >= 0 {
                    assert(!occurs_at(v@, p@, j));
                }
            }
            false
        },
    }
}

/// The characters of a string literal or any other `&str`, by value.
pub fn lit(s: &str) -> (v: Vec<char>)
    ensures
        v@ == s@,
{
    chars_of(s)
}


/// A copy of `v[lo..hi]`.
pub fn sub_chars(v: &Vec<char>, lo: usize, hi: usize) -> (r: Vec<char>)
    requires
        lo <= hi <= v@.len(),
    ensures
        r@ == v@.subrange(lo as int, hi as int),
{
    let mut r: Vec<char> = Vec::new();
    let mut i = lo;
    while i < hi
        invariant
            lo <= i <= hi <= v@.len(),
            r@ == v@.subrange(lo as int, i as int),
        decreases hi - i,
    {
        r.push(v[i]);
        assert(v@.subrange(lo as int, i + 1) =~= v@.subrange(lo as int, i as int).push(v@[i as int]));
        i = i + 1;
    }
    r
}

/// `a` followed by `b`.
pub fn concat_chars(a: &Vec<char>, b: &Vec<char>) -> (r: Vec<char>)
    ensures
        r@ == a@ + b@,
{
    let mut r = sub_chars(a, 0, a.len());
    assert(a@.subrange(0, a@.len() as int) =~= a@);
    let mut i: usize = 0;
    while i < b.len()
        invariant
            i <= b@.len(),
            r@ == a@ + b@.subrange(0, i as int),
        decreases b.len() - i,
    {
        r.push(b[i]);
        assert(b@.subrange(0, i + 1) =~= b@.subrange(0, i as int).push(b@[i as int]));
        i = i + 1;
    }
    assert(b@.subrange(0, b@.len() as int) =~= b@);
    r
}


/// What `str::to_lowercase` returns for a string with these characters.
pub uninterp spec fn lowercase(s: Seq<char>) -> Seq<char>;

/// What `str::to_uppercase` returns for a string with these characters.
pub uninterp spec fn uppercase(s: Seq<char>) -> Seq<char>;

/// Calls `str::to_lowercase` (full Unicode lowercase mapping); its result is named,
/// not spelled out, since it is a function of the characters alone.
#[verifier::external_body]
pub fn to_lowercase(s: &str) -> (r: String)
    ensures
        r@ == lowercase(s@),
{
    s.to_lowercase()
}

/// Calls `str::to_uppercase` (full Unicode uppercase mapping); named like `to_lowercase`.
#[verifier::external_body]
pub fn to_uppercase(s: &str) -> (r: String)
    ensures
        r@ == uppercase(s@),
{
    s.to_uppercase()
}

/// ASCII decimal digit.
pub open spec fn is_digit(c: char) -> bool {
    '0' <= c && c <= '9'
}

/// Every character is an ASCII digit.
pub open spec fn all_digits(s: Seq<char>) -> bool {
    forall|i: int| 0 <= i < s.len() ==> is_digit(#[trigger] s[i])
}

/// Whether every character of `v[lo..hi]` is an ASCII digit.
pub fn all_digits_exec(v: &Vec<char>, lo: usize, hi: usize) -> (b: bool)
    requires
        lo <= hi <= v@.len(),
    ensures
        b == all_digits(v@.subrange(lo as int, hi as int)),
{
    let mut i = lo;
    while i < hi
        invariant
            lo <= i <= hi <= v@.len(),
            forall|k: int| lo <= k < i ==> is_digit(#[trigger] v@[k]),
        decreases hi - i,
    {
        if !('0' <= v[i] && v[i] <= '9') {
            assert(!is_digit(v@.subrange(lo as int, hi as int)[i - lo]));
            return false;
        }
        i = i + 1;
    }
    assert forall|k: int| 0 <= k < hi - lo implies is_digit(#[trigger] v@.subrange(lo as int, hi as int)[k]) by {
        assert(v@.subrange(lo as int, hi as int)[k] == v@[lo + k]);
    }
    true
}

/// `s` with every trailing character that is in `set` removed (`str::trim_end_matches`).
pub open spec fn trim_end_chars(s: Seq<char>, set: Seq<char>) -> Seq<char>
    decreases s.len(),
{
    if s.len() > 0 && set.contains(s.last()) {
        trim_end_chars(s.drop_last(), set)
    } else {
        s
    }
}

/// End index of `trim_end_chars(v[lo..hi], set)`.
pub fn trim_end_chars_exec(v: &Vec<char>, lo: usize, hi: usize, set: &Vec<char>) -> (j: usize)
    requires
        lo <= hi <= v@.len(),
    ensures
        lo <= j <= hi,
        trim_end_chars(v@.subrange(lo as int, hi as int), set@) == v@.subrange(lo as int, j as int),
{
    let mut j = hi;
    while j > lo && vec_contains_char(set, v[j - 1])
        invariant
            lo <= j <= hi <= v@.len(),
            trim_end_chars(v@.subrange(lo as int, hi as int), set@) == trim_end_chars(
                v@.subrange(lo as int, j as int),
                set@,
            ),
        decreases j,
    {
        assert(v@.subrange(lo as int, j as int).drop_last() =~= v@.subrange(lo as int, j - 1));
        j = j - 1;
    }
    j
}

/// Whether `c` occurs in `v`.
pub fn vec_contains_char(v: &Vec<char>, c: char) -> (b: bool)
    ensures
        b == v@.contains(c),
{
    let mut i: usize = 0;
    while i < v.len()
        invariant
            i <= v@.len(),
            forall|k: int| 0 <= k < i ==> v@[k] != c,
        decreases v.len() - i,
    {
        if v[i] == c {
            assert(v@[i as int] == c);
            return true;
        }
        i = i + 1;
    }
    false
}


/// Lexicographic order on character codes (`Ord for str`: UTF-8 byte order and code
/// point order agree).
pub open spec fn seq_lt(a: Seq<char>, b: Seq<char>) -> bool
    decreases a.len(),
{
    if a.len() == 0 {
        b.len() > 0
    } else if b.len() == 0 {
        false
    } else if a[0] < b[0] {
        true
    } else if a[0] > b[0] {
        false
    } else {
        seq_lt(a.drop_first(), b.drop_first())
    }
}

/// No string sorts before itself.
pub proof fn lemma_seq_lt_irreflexive(a: Seq<char>)
    ensures
        !seq_lt(a, a),
    decreases a.len(),
{
    if a.len() > 0 {
        lemma_seq_lt_irreflexive(a.drop_first());
    }
}

/// The order is transitive.
pub proof fn lemma_seq_lt_transitive(a: Seq<char>, b: Seq<char>, c: Seq<char>)
    requires
        seq_lt(a, b),
        seq_lt(b, c),
    ensures
        seq_lt(a, c),
    decreases a.len(),
{
    if a.len() > 0 && b.len() > 0 && c.len() > 0 && a[0] == b[0] && b[0] == c[0] {
        lemma_seq_lt_transitive(a.drop_first(), b.drop_first(), c.drop_first());
    }
}

/// Any two strings are equal or one sorts before the other.
pub proof fn lemma_seq_lt_total(a: Seq<char>, b: Seq<char>)
    ensures
        seq_lt(a, b) || seq_lt(b, a) || a == b,
    decreases a.len(),
{
    if a.len() > 0 && b.len() > 0 && a[0] == b[0] {
        lemma_seq_lt_total(a.drop_first(), b.drop_first());
        if a.drop_first() == b.drop_first() {
            assert(a =~= seq![a[0]] + a.drop_first());
            assert(b =~= seq![b[0]] + b.drop_first());
        }
    } else if a.len() == 0 && b.len() == 0 {
        assert(a =~= b);
    }
}

/// The order is asymmetric.
pub proof fn lemma_seq_lt_asymmetric(a: Seq<char>, b: Seq<char>)
    requires
        seq_lt(a, b),
    ensures
        !seq_lt(b, a),
        a != b,
    decreases a.len(),
{
    if a.len() > 0 && b.len() > 0 && a[0] == b[0] {
        lemma_seq_lt_asymmetric(a.drop_first(), b.drop_first());
    }
    if a == b {
        lemma_seq_lt_irreflexive(a);
    }
}

/// Whether `a` sorts strictly before `b`.
pub fn str_lt(a: &str, b: &str) -> (r: bool)
    ensures
        r == seq_lt(a@, b@),
{
    let va = chars_of(a);
    let vb = chars_of(b);
    let mut i: usize = 0;
    assert(va@.subrange(0, va@.len() as int) =~= va@);
    assert(vb@.subrange(0, vb@.len() as int) =~= vb@);
    while i < va.len() && i < vb.len() && va[i] == vb[i]
        invariant
            i <= va@.len(),
            i <= vb@.len(),
            seq_lt(va@, vb@) == seq_lt(va@.subrange(i as int, va@.len() as int), vb@.subrange(i as int, vb@.len() as int)),
        decreases va.len() - i,
    {
        proof {
            let sa = va@.subrange(i as int, va@.len() as int);
            let sb = vb@.subrange(i as int, vb@.len() as int);
            assert(sa.drop_first() =~= va@.subrange(i + 1, va@.len() as int));
            assert(sb.drop_first() =~= vb@.subrange(i + 1, vb@.len() as int));
            assert(sa[0] == sb[0]);
        }
        i = i + 1;
    }
    proof {
        let sa = va@.subrange(i as int, va@.len() as int);
        let sb = vb@.subrange(i as int, vb@.len() as int);
        if i < va@.len() && i < vb@.len() {
            assert(sa[0] == va@[i as int]);
            assert(sb[0] == vb@[i as int]);
        }
    }
    if i == va.len() {
        i < vb.len()
    } else if i == vb.len() {
        false
    } else {
        va[i] < vb[i]
    }
}


/// The views of a list of strings.
pub open spec fn strings_view(v: Seq<String>) -> Seq<Seq<char>> {
    v.map_values(|s: String| s@)
}

/// Whether `s` is one of `v`.
pub fn strings_contains(v: &Vec<String>, s: &str) -> (r: bool)
    ensures
        r == strings_view(v@).contains(s@),
{
    let mut i: usize = 0;
    while i < v.len()
        invariant
            i <= v@.len(),
            forall|k: int| 0 <= k < i ==> v@[k]@ != s@,
        decreases v.len() - i,
    {
        if str_eq(v[i].as_str(), s) {
            assert(strings_view(v@)[i as int] == s@);
            return true;
        }
        i = i + 1;
    }
    assert forall|k: int| 0 <= k < strings_view(v@).len() implies strings_view(v@)[k] != s@ by {
        assert(strings_view(v@)[k] == v@[k]@);
    }
    false
}


/// The value of a run of ASCII digits.
pub open spec fn digits_value(s: Seq<char>) -> int
    decreases s.len(),
{
    if s.len() == 0 {
        0
    } else {
        digits_value(s.drop_last()) * 10 + (s.last() as int - '0' as int)
    }
}

/// What `str::parse::<i64>` accepts: an optional `+` or `-`, then one or more ASCII
/// digits, with the value in range.
pub open spec fn parse_i64_spec(s: Seq<char>) -> Option<i64> {
    let neg = s.len() > 0 && s[0] == '-';
    let signed = s.len() > 0 && (s[0] == '-' || s[0] == '+');
    let d = if signed {
        s.drop_first()
    } else {
        s
    };
    if d.len() == 0 || !all_digits(d) {
        None
    } else {
        let v = if neg {
            -digits_value(d)
        } else {
            digits_value(d)
        };
        if i64::MIN <= v <= i64::MAX {
            Some(v as i64)
        } else {
            None
        }
    }
}

/// A run of digits has a non-negative value.
pub proof fn lemma_digits_value_nonneg(s: Seq<char>)
    requires
        all_digits(s),
    ensures
        digits_value(s) >= 0,
    decreases s.len(),
{
    if s.len() > 0 {
        assert(all_digits(s.drop_last())) by {
            assert forall|i: int| 0 <= i < s.drop_last().len() implies is_digit(#[trigger] s.drop_last()[i]) by {
                assert(s.drop_last()[i] == s[i]);
            }
        }
        lemma_digits_value_nonneg(s.drop_last());
        assert(is_digit(s[s.len() - 1]));
    }
}

/// A longer prefix of a run of digits has a value at least as large.
pub proof fn lemma_digits_value_grows(s: Seq<char>, i: int, j: int)
    requires
        0 <= i <= j <= s.len(),
        all_digits(s),
    ensures
        digits_value(s.subrange(0, i)) <= digits_value(s.subrange(0, j)),
    decreases j - i,
{
    if i < j {
        lemma_digits_value_grows(s, i, j - 1);
        let p = s.subrange(0, j);
        assert(p.drop_last() =~= s.subrange(0, j - 1));
        assert(all_digits(s.subrange(0, j - 1))) by {
            assert forall|k: int| 0 <= k < j - 1 implies is_digit(#[trigger] s.subrange(0, j - 1)[k]) by {
                assert(s.subrange(0, j - 1)[k] == s[k]);
            }
        }
        lemma_digits_value_nonneg(s.subrange(0, j - 1));
        assert(is_digit(s[j - 1]));
        assert(p.last() == s[j - 1]);
    }
}

/// Parses a decimal `i64` the way `str::parse::<i64>` does.
pub fn parse_i64(s: &str) -> (r: Option<i64>)
    ensures
        r == parse_i64_spec(s@),
{
    let v = chars_of(s);
    let n = v.len();
    let neg = n > 0 && v[0] == '-';
    let signed = n > 0 && (v[0] == '-' || v[0] == '+');
    let start: usize = if signed { 1 } else { 0 };
    let ghost d = if signed {
        s@.drop_first()
    } else {
        s@
    };
    proof {
        assert(d =~= v@.subrange(start as int, n as int));
    }
    if start == n || !all_digits_exec(&v, start, n) {
        return None;
    }
    // magnitude, saturating just above the largest allowed value
    let bound: u64 = 9223372036854775808;
    let mut mag: u64 = 0;
    let mut i = start;
    let mut over = false;
    while i < n
        invariant
            start <= i <= n,
            n == v@.len(),
            d == v@.subrange(start as int, n as int),
            all_digits(d),
            !over ==> mag as int == digits_value(d.subrange(0, i - start)),
            over ==> digits_value(d.subrange(0, i - start)) > bound as int,
            mag <= bound,
            bound == 9223372036854775808u64,
        decreases n - i,
    {
        proof {
            assert(d[i - start] == v@[i as int]);
            assert(is_digit(d[i - start]));
        }
        let digit = digit_value(v[i]);
        proof {
            assert(d.subrange(0, i - start + 1).drop_last() =~= d.subrange(0, i - start));
            assert(d.subrange(0, i - start + 1).last() == v@[i as int]);
            lemma_digits_value_grows(d, i - start, i - start + 1);
        }
        if !over {
            if mag > (bound - digit) / 10 {
                over = true;
                proof {
                    assert(mag * 10 + digit > bound) by (nonlinear_arith)
                        requires mag > (bound - digit) / 10, digit <= 9, bound >= digit;
                }
            } else {
                proof {
                    assert(mag * 10 + digit <= bound) by (nonlinear_arith)
                        requires mag <= (bound - digit) / 10, digit <= 9, bound >= digit;
                }
                mag = mag * 10 + digit;
            }
        }
        i = i + 1;
    }
    proof {
        assert(d.subrange(0, n - start) =~= d);
    }
    if over {
        return None;
    }
    if neg {
        if mag == bound {
            Some(i64::MIN)
        } else {
            Some(-(mag as i64))
        }
    } else if mag == bound {
        None
    } else {
        Some(mag as i64)
    }
}

/// The decimal digits of a natural number, most significant first (`0` is `"0"`).
pub open spec fn nat_decimal(n: nat) -> Seq<char>
    decreases n,
{
    if n < 10 {
        seq![(('0' as u32) + n) as char]
    } else {
        nat_decimal(n / 10).push((('0' as u32) + (n % 10)) as char)
    }
}

/// `i64::to_string`: a `-` for negative values, then the digits of the magnitude.
pub open spec fn int_decimal(n: int) -> Seq<char> {
    if n < 0 {
        seq!['-'] + nat_decimal((-n) as nat)
    } else {
        nat_decimal(n as nat)
    }
}

/// The value of an ASCII digit.
pub fn digit_value(c: char) -> (d: u64)
    requires
        is_digit(c),
    ensures
        d as int == c as int - '0' as int,
        d < 10,
{
    if c == '0' { 0 } else if c == '1' { 1 } else if c == '2' { 2 } else if c == '3' { 3 }
    else if c == '4' { 4 } else if c == '5' { 5 } else if c == '6' { 6 } else if c == '7' { 7 }
    else if c == '8' { 8 } else { 9 }
}

fn digit_char(d: u64) -> (c: char)
    requires
        d < 10,
    ensures
        c == (('0' as u32) + d) as char,
{
    if d == 0 { '0' } else if d == 1 { '1' } else if d == 2 { '2' } else if d == 3 { '3' }
    else if d == 4 { '4' } else if d == 5 { '5' } else if d == 6 { '6' } else if d == 7 { '7' }
    else if d == 8 { '8' } else { '9' }
}

/// The decimal digits of `n`.
pub fn u64_decimal(n: u64) -> (r: Vec<char>)
    ensures
        r@ == nat_decimal(n as nat),
    decreases n,
{
    if n < 10 {
        let mut r: Vec<char> = Vec::new();
        r.push(digit_char(n));
        proof {
            assert(r@ =~= nat_decimal(n as nat));
        }
        r
    } else {
        let mut r = u64_decimal(n / 10);
        r.push(digit_char(n % 10));
        r
    }
}

/// The decimal digits of `n`.
pub fn u128_decimal(n: u128) -> (r: Vec<char>)
    ensures
        r@ == nat_decimal(n as nat),
    decreases n,
{
    if n < 10 {
        let mut r: Vec<char> = Vec::new();
        r.push(digit_char(n as u64));
        proof {
            assert(r@ =~= nat_decimal(n as nat));
        }
        r
    } else {
        let mut r = u128_decimal(n / 10);
        r.push(digit_char((n % 10) as u64));
        r
    }
}

/// `i64::to_string`.
pub fn i64_to_string(n: i64) -> (r: String)
    ensures
        r@ == int_decimal(n as int),
{
    let mag: u64 = if n < 0 {
        if n == i64::MIN {
            9223372036854775808
        } else {
            (-n) as u64
        }
    } else {
        n as u64
    };
    let digits = u64_decimal(mag);
    let mut s = String::new();
    if n < 0 {
        push_char(&mut s, '-');
    }
    let d = string_from_chars(&digits);
    push_str(&mut s, d.as_str());
    proof {
        if n < 0 {
            assert(s@ =~= seq!['-'] + nat_decimal((-n) as nat));
        } else {
            assert(s@ =~= nat_decimal(n as nat));
        }
    }
    s
}


/// `a` followed by `b`, as a new string.
pub fn concat_str(a: &str, b: &str) -> (r: String)
    ensures
        r@ == a@ + b@,
{
    let mut r = a.to_owned();
    push_str(&mut r, b);
    r
}

/// `a`, `b` and `c` in sequence, as a new string.
pub fn concat3(a: &str, b: &str, c: &str) -> (r: String)
    ensures
        r@ == a@ + b@ + c@,
{
    let mut r = a.to_owned();
    push_str(&mut r, b);
    push_str(&mut r, c);
    r
}


/// The pieces of `s` between occurrences of `c` (`str::split(c)`): one more piece than
/// there are occurrences; pieces may be empty.
pub open spec fn split_char_spec(s: Seq<char>, c: char) -> Seq<Seq<char>>
    decreases s.len(),
{
    if s.len() == 0 {
        seq![Seq::empty()]
    } else {
        let p = split_char_spec(s.drop_last(), c);
        if s.last() == c {
            p.push(Seq::empty())
        } else {
            p.update(p.len() - 1, p.last().push(s.last()))
        }
    }
}

/// `str::split` yields at least one piece.
pub proof fn lemma_split_char_len(s: Seq<char>, c: char)
    ensures
        split_char_spec(s, c).len() >= 1,
    decreases s.len(),
{
    if s.len() > 0 {
        lemma_split_char_len(s.drop_last(), c);
    }
}

/// `str::split(c)`, collected.
pub fn split_char(s: &str, c: char) -> (r: Vec<String>)
    ensures
        strings_view(r@) == split_char_spec(s@, c),
{
    let v = chars_of(s);
    let mut pieces: Vec<String> = Vec::new();
    let mut cur = String::new();
    let mut i: usize = 0;
    proof {
        assert(v@.subrange(0, 0) =~= Seq::<char>::empty());
        assert(strings_view(pieces@).push(cur@) =~= split_char_spec(v@.subrange(0, 0), c));
    }
    while i < v.len()
        invariant
            i <= v@.len(),
            v@ == s@,
            strings_view(pieces@).push(cur@) == split_char_spec(v@.subrange(0, i as int), c),
        decreases v.len() - i,
    {
        proof {
            assert(v@.subrange(0, i + 1).drop_last() =~= v@.subrange(0, i as int));
            assert(v@.subrange(0, i + 1).last() == v@[i as int]);
        }
        if v[i] == c {
            let ghost before = pieces@;
            let done = cur;
            pieces.push(done);
            cur = String::new();
            proof {
                assert(strings_view(pieces@) =~= strings_view(before).push(done@));
                assert(strings_view(pieces@).push(cur@) =~= strings_view(before).push(done@).push(Seq::empty()));
            }
        } else {
            let ghost old_cur = cur@;
            push_char(&mut cur, v[i]);
            proof {
                let p = strings_view(pieces@).push(old_cur);
                assert(strings_view(pieces@).push(cur@) =~= p.update(p.len() - 1, p.last().push(v@[i as int])));
            }
        }
        i = i + 1;
    }
    proof {
        assert(v@.subrange(0, v@.len() as int) =~= v@);
    }
    let ghost before = pieces@;
    pieces.push(cur);
    proof {
        assert(strings_view(pieces@) =~= strings_view(before).push(cur@));
    }
    pieces
}

/// `parts` joined by `sep`.
pub open spec fn join_spec(parts: Seq<Seq<char>>, sep: Seq<char>) -> Seq<char>
    decreases parts.len(),
{
    if parts.len() == 0 {
        Seq::empty()
    } else if parts.len() == 1 {
        parts[0]
    } else {
        join_spec(parts.drop_last(), sep) + sep + parts.last()
    }
}

/// `parts.join(sep)`.
pub fn join_strings(parts: &Vec<String>, sep: &str) -> (r: String)
    ensures
        r@ == join_spec(strings_view(parts@), sep@),
{
    let ghost pv = strings_view(parts@);
    let mut out = String::new();
    let mut i: usize = 0;
    while i < parts.len()
        invariant
            i <= parts@.len(),
            pv == strings_view(parts@),
            out@ == join_spec(pv.subrange(0, i as int), sep@),
        decreases parts.len() - i,
    {
        proof {
            assert(pv.subrange(0, i + 1).drop_last() =~= pv.subrange(0, i as int));
            assert(pv.subrange(0, i + 1).last() == parts@[i as int]@);
        }
        if i > 0 {
            push_str(&mut out, sep);
        }
        push_str(&mut out, parts[i].as_str());
        proof {
            if i == 0 {
                assert(out@ =~= pv.subrange(0, 1)[0]);
            }
        }
        i = i + 1;
    }
    proof {
        assert(pv.subrange(0, pv.len() as int) =~= pv);
    }
    out
}


/// The first index where `p` occurs in `s`, if any (`str::find`).
pub open spec fn first_occ(s: Seq<char>, p: Seq<char>) -> Option<int> {
    if exists|i: int| occurs_at(s, p, i) {
        Some(choose|i: int| occurs_at(s, p, i) && forall|j: int| 0 <= j < i ==> !occurs_at(s, p, j))
    } else {
        None
    }
}

/// `str::find` on character indices.
pub fn find_first(v: &Vec<char>, p: &Vec<char>) -> (r: Option<usize>)
    ensures
        match r {
            Some(i) => first_occ(v@, p@) == Some(i as int) && occurs_at(v@, p@, i as int),
            None => first_occ(v@, p@) is None,
        },
{
    match find_from(v, p, 0) {
        Some(i) => {
            proof {
                let c = choose|c: int| occurs_at(v@, p@, c) && forall|j: int| 0 <= j < c ==> !occurs_at(v@, p@, j);
                assert(occurs_at(v@, p@, i as int));
                assert(c == i) by {
                    if c < i {
                        assert(c >= 0);
                    }
                    if c > i {
                        assert(!occurs_at(v@, p@, i as int));
                    }
                }
            }
            Some(i)
        },
        None => {
            proof {
                assert forall|j: int| !occurs_at(v@, p@, j) by {
                    if j >= 0 {
                        assert(!occurs_at(v@, p@, j));
                    }
                }
            }
            None
        },
    }
}

/// Index of the first character of `s` that is in `set`, or `s.len()`.
pub open spec fn first_in_set(s: Seq<char>, set: Seq<char>) -> int
    decreases s.len(),
{
    if s.len() == 0 {
        0
    } else if set.contains(s[0]) {
        0
    } else {
        1 + first_in_set(s.drop_first(), set)
    }
}

/// Index of the first character of `v[lo..]` in `set`, relative to `lo`, or the rest's length.
pub fn first_in_set_exec(v: &Vec<char>, lo: usize, set: &Vec<char>) -> (r: usize)
    requires
        lo <= v@.len(),
    ensures
        r as int == first_in_set(v@.subrange(lo as int, v@.len() as int), set@),
        lo + r <= v@.len(),
{
    let mut i = lo;
    proof {
        assert(v@.subrange(lo as int, v@.len() as int) =~= v@.subrange(lo as int, v@.len() as int));
    }
    while i < v.len() && !vec_contains_char(set, v[i])
        invariant
            lo <= i <= v@.len(),
            first_in_set(v@.subrange(lo as int, v@.len() as int), set@) == (i - lo) + first_in_set(
                v@.subrange(i as int, v@.len() as int),
                set@,
            ),
        decreases v.len() - i,
    {
        proof {
            let r = v@.subrange(i as int, v@.len() as int);
            assert(r.drop_first() =~= v@.subrange(i + 1, v@.len() as int));
            assert(r[0] == v@[i as int]);
        }
        i = i + 1;
    }
    proof {
        let r = v@.subrange(i as int, v@.len() as int);
        if i < v@.len() {
            assert(r[0] == v@[i as int]);
        }
    }
    i - lo
}


/// What `str::parse` accepts for an unsigned type whose largest value is `max`: an
/// optional `+`, then one or more ASCII digits, with the value at most `max`.
pub open spec fn parse_unsigned_spec(s: Seq<char>, max: int) -> Option<int> {
    let d = if s.len() > 0 && s[0] == '+' {
        s.drop_first()
    } else {
        s
    };
    if d.len() == 0 || !all_digits(d) || digits_value(d) > max {
        None
    } else {
        Some(digits_value(d))
    }
}

/// Parses a decimal unsigned number no larger than `max`, as `str::parse` does for an
/// unsigned type with that maximum.
pub fn parse_unsigned(s: &str, max: u64) -> (r: Option<u64>)
    requires
        max >= 9,
    ensures
        match parse_unsigned_spec(s@, max as int) {
            Some(v) => r == Some(v as u64) && 0 <= v <= max,
            None => r is None,
        },
{
    let v = chars_of(s);
    let n = v.len();
    let start: usize = if n > 0 && v[0] == '+' { 1 } else { 0 };
    let ghost d = if s@.len() > 0 && s@[0] == '+' {
        s@.drop_first()
    } else {
        s@
    };
    proof {
        assert(d =~= v@.subrange(start as int, n as int));
    }
    if start == n || !all_digits_exec(&v, start, n) {
        return None;
    }
    let mut mag: u64 = 0;
    let mut i = start;
    let mut over = false;
    while i < n
        invariant
            start <= i <= n,
            n == v@.len(),
            d == v@.subrange(start as int, n as int),
            all_digits(d),
            max >= 9,
            !over ==> mag as int == digits_value(d.subrange(0, i - start)),
            over ==> digits_value(d.subrange(0, i - start)) > max as int,
            mag <= max,
        decreases n - i,
    {
        proof {
            assert(d[i - start] == v@[i as int]);
            assert(is_digit(d[i - start]));
        }
        let digit = digit_value(v[i]);
        proof {
            assert(d.subrange(0, i - start + 1).drop_last() =~= d.subrange(0, i - start));
            assert(d.subrange(0, i - start + 1).last() == v@[i as int]);
            lemma_digits_value_grows(d, i - start, i - start + 1);
        }
        if !over {
            if mag > (max - digit) / 10 {
                over = true;
                proof {
                    assert(mag * 10 + digit > max) by (nonlinear_arith)
                        requires mag > (max - digit) / 10, digit <= 9, max >= digit;
                }
            } else {
                proof {
                    assert(mag * 10 + digit <= max) by (nonlinear_arith)
                        requires mag <= (max - digit) / 10, digit <= 9, max >= digit;
                }
                mag = mag * 10 + digit;
            }
        }
        i = i + 1;
    }
    proof {
        assert(d.subrange(0, n - start) =~= d);
        lemma_digits_value_nonneg(d);
    }
    if over {
        None
    } else {
        Some(mag)
    }
}

/// ASCII lower-casing: `A`..`Z` become `a`..`z`, everything else stays.
pub open spec fn ascii_lower_char(c: char) -> char {
    if 'A' <= c <= 'Z' {
        ((c as u32) + 32) as char
    } else {
        c
    }
}

/// `str::to_ascii_lowercase`.
pub open spec fn ascii_lowercase(s: Seq<char>) -> Seq<char> {
    s.map_values(|c: char| ascii_lower_char(c))
}

/// Lower-cases the ASCII letters of `s`.
pub fn to_ascii_lowercase(s: &str) -> (r: String)
    ensures
        r@ == ascii_lowercase(s@),
{
    let v = chars_of(s);
    let mut out = String::new();
    let mut i: usize = 0;
    while i < v.len()
        invariant
            i <= v@.len(),
            v@ == s@,
            out@ == ascii_lowercase(s@.subrange(0, i as int)),
        decreases v.len() - i,
    {
        let c = v[i];
        let l = if 'A' <= c && c <= 'Z' {
            let code: u8 = (c as u8) + 32;
            code as char
        } else {
            c
        };
        push_char(&mut out, l);
        proof {
            assert(ascii_lowercase(s@.subrange(0, i + 1)) =~= ascii_lowercase(s@.subrange(0, i as int)).push(
                ascii_lower_char(c),
            ));
        }
        i = i + 1;
    }
    proof {
        assert(s@.subrange(0, v@.len() as int) =~= s@);
    }
    out
}


/// Whether `s` has no characters.
pub fn str_is_empty(s: &str) -> (b: bool)
    ensures
        b == (s@.len() == 0),
{
    let v = chars_of(s);
    v.len() == 0
}

} // verus!
