//! Attachment sources: PDF checks, URL de-duplication keys, and `file://` URIs.

use vstd::prelude::*;

use crate::error::DomainError;
use crate::text::{
    chars_of, concat_str, first_in_set, first_in_set_exec, find_first, first_occ, lit, lowercase,
    push_char, push_str, string_from_range, to_lowercase, trim, trim_str,
};

verus! {

/// Whether `content` starts with the PDF signature `%PDF-`.
pub open spec fn is_pdf_bytes(content: Seq<u8>) -> bool {
    content.len() >= 5 && content[0] == 37 && content[1] == 80 && content[2] == 68 && content[3] == 70
        && content[4] == 45
}

/// Accepts `content` only if it starts with `%PDF-`.
pub fn ensure_pdf_bytes(content: &[u8], source: &str) -> (r: Result<(), DomainError>)
    ensures
        match r {
            Ok(()) => is_pdf_bytes(content@),
            Err(e) => !is_pdf_bytes(content@) && e.0@ == "Attachment source is not a PDF: "@ + source@,
        },
{
    if content.len() >= 5 && content[0] == 37 && content[1] == 80 && content[2] == 68 && content[3] == 70
        && content[4] == 45 {
        Ok(())
    } else {
        Err(DomainError::from_string(concat_str("Attachment source is not a PDF: ", source)))
    }
}

/// The de-duplication key of a URL: trimmed, fragment dropped; for `scheme://rest`, the
/// scheme and authority lower-cased and an empty path (or bare query) given a `/`.
pub open spec fn normalize_url_spec(url: Seq<char>) -> Seq<char> {
    let t = trim(url);
    let nf = match first_occ(t, seq!['#']) {
        Some(i) => t.subrange(0, i),
        None => t,
    };
    match first_occ(nf, "://"@) {
        None => nf,
        Some(i) => normalize_url_spec_tail(nf, i),
    }
}

/// The key of `scheme://rest`, given the position `i` of the `://` in `nv`.
fn url_key_with_scheme(nv: &Vec<char>, i: usize) -> (r: String)
    requires
        i + 3 <= nv@.len(),
    ensures
        r@ == normalize_url_spec_tail(nv@, i as int),
{
    let n = nv.len();
    assert(i + 3 <= n);
    let scheme = string_from_range(nv, 0, i);
    let set = lit("/?");
    proof {
        reveal_strlit("/?");
        assert(set@ =~= seq!['/', '?']);
    }
    let end = first_in_set_exec(nv, i + 3, &set);
    let authority_raw = string_from_range(nv, i + 3, i + 3 + end);
    let authority = to_lowercase(authority_raw.as_str());
    let tail_raw = string_from_range(nv, i + 3 + end, nv.len());
    let tv2 = chars_of(tail_raw.as_str());
    let ghost rest = nv@.subrange(i + 3, nv@.len() as int);
    proof {
        assert(rest.subrange(0, end as int) =~= nv@.subrange(i + 3, i + 3 + end));
        assert(rest.subrange(end as int, rest.len() as int) =~= nv@.subrange(
            i + 3 + end,
            nv@.len() as int,
        ));
    }
    let mut out = to_lowercase(scheme.as_str());
    push_str(&mut out, "://");
    push_str(&mut out, authority.as_str());
    if tv2.len() == 0 || tv2[0] == '?' {
        push_char(&mut out, '/');
    }
    push_str(&mut out, tail_raw.as_str());
    proof {
        reveal_strlit("://");
        if tv2@.len() == 0 || tv2@[0] == '?' {
            assert(out@ =~= lowercase(scheme@) + "://"@ + authority@ + (seq!['/'] + tail_raw@));
        }
    }
    out
}

/// The de-duplication key of a fragment-free URL `nf` whose first `://` sits at `i`.
pub open spec fn normalize_url_spec_tail(nf: Seq<char>, i: int) -> Seq<char> {
    let scheme = nf.subrange(0, i);
    let rest = nf.subrange(i + 3, nf.len() as int);
    let end = first_in_set(rest, seq!['/', '?']);
    let authority = lowercase(rest.subrange(0, end));
    let tail = rest.subrange(end, rest.len() as int);
    let tail = if tail.len() == 0 || tail[0] == '?' {
        seq!['/'] + tail
    } else {
        tail
    };
    lowercase(scheme) + "://"@ + authority + tail
}

/// The key under which two attachment URLs count as the same.
pub fn normalize_url_for_dedupe(url: &str) -> (r: String)
    ensures
        r@ == normalize_url_spec(url@),
{
    let t = trim_str(url);
    let tv = chars_of(t.as_str());
    let hash = lit("#");
    proof {
        reveal_strlit("#");
        assert(hash@ =~= seq!['#']);
    }
    let nf_end = match find_first(&tv, &hash) {
        Some(i) => i,
        None => tv.len(),
    };
    let nf = string_from_range(&tv, 0, nf_end);
    proof {
        if first_occ(tv@, seq!['#']) is None {
            assert(tv@.subrange(0, tv@.len() as int) =~= tv@);
        }
    }
    let nv = chars_of(nf.as_str());
    let sep = lit("://");
    proof {
        reveal_strlit("://");
    }
    match find_first(&nv, &sep) {
        None => nf,
        Some(i) => {
            proof {
                assert(sep@.len() == 3);
            }
            url_key_with_scheme(&nv, i)
        },
    }
}

/// Upper-case hex digit of a value below 16.
pub open spec fn hex_upper(n: u8) -> char {
    if n < 10 {
        (48 + n) as char
    } else {
        (55 + n) as char
    }
}

/// Bytes kept unescaped: ASCII letters, digits, `-`, `_`, `.`, `~`, `/`, and `:` when
/// `colon` is set.
pub open spec fn keeps_byte(b: u8, colon: bool) -> bool {
    (65 <= b <= 90) || (97 <= b <= 122) || (48 <= b <= 57) || b == 45 || b == 95 || b == 46 || b == 126
        || b == 47 || (colon && b == 58)
}

/// Percent-encoding of bytes: kept bytes as themselves, others as `%XX` (upper-case hex).
pub open spec fn quote_bytes(bs: Seq<u8>, colon: bool) -> Seq<char>
    decreases bs.len(),
{
    if bs.len() == 0 {
        Seq::empty()
    } else {
        quote_bytes(bs.drop_last(), colon) + if keeps_byte(bs.last(), colon) {
            seq![bs.last() as char]
        } else {
            seq!['%', hex_upper(bs.last() / 16), hex_upper(bs.last() % 16)]
        }
    }
}

fn hex_upper_exec(n: u8) -> (c: char)
    requires
        n < 16,
    ensures
        c == hex_upper(n),
{
    if n == 0 { '0' } else if n == 1 { '1' } else if n == 2 { '2' } else if n == 3 { '3' }
    else if n == 4 { '4' } else if n == 5 { '5' } else if n == 6 { '6' } else if n == 7 { '7' }
    else if n == 8 { '8' } else if n == 9 { '9' } else if n == 10 { 'A' } else if n == 11 { 'B' }
    else if n == 12 { 'C' } else if n == 13 { 'D' } else if n == 14 { 'E' } else { 'F' }
}

/// Percent-encodes the UTF-8 bytes of `s`.
pub fn quote_str(s: &str, colon: bool) -> (r: String)
    ensures
        r@ == quote_bytes(vstd::utf8::encode_utf8(s@), colon),
{
    let bytes = s.as_bytes();
    let ghost b = bytes@;
    let mut out = String::new();
    let mut i: usize = 0;
    while i < bytes.len()
        invariant
            i <= b.len(),
            b == bytes@,
            out@ == quote_bytes(b.subrange(0, i as int), colon),
        decreases bytes.len() - i,
    {
        let byte = bytes[i];
        proof {
            assert(b.subrange(0, i + 1).drop_last() =~= b.subrange(0, i as int));
            assert(b.subrange(0, i + 1).last() == byte);
        }
        if (65 <= byte && byte <= 90) || (97 <= byte && byte <= 122) || (48 <= byte && byte <= 57)
            || byte == 45 || byte == 95 || byte == 46 || byte == 126 || byte == 47 || (colon && byte == 58) {
            push_char(&mut out, byte as char);
        } else {
            let ghost before = out@;
            push_char(&mut out, '%');
            push_char(&mut out, hex_upper_exec(byte / 16));
            push_char(&mut out, hex_upper_exec(byte % 16));
            proof {
                assert(out@ =~= before + seq!['%', hex_upper(byte / 16), hex_upper(byte % 16)]);
            }
        }
        i = i + 1;
    }
    proof {
        assert(b.subrange(0, b.len() as int) =~= b);
    }
    out
}

/// The `file://` URI of a path: backslashes read as `/`, bytes percent-encoded (keeping
/// `:`), and `file://` or `file:///` in front depending on a leading `/`.
pub open spec fn file_uri_spec(path: Seq<char>) -> Seq<char> {
    let text = path.map_values(|c: char| if c == '\\' { '/' } else { c });
    let enc = quote_bytes(vstd::utf8::encode_utf8(text), true);
    if enc.len() > 0 && enc[0] == '/' {
        "file://"@ + enc
    } else {
        "file:///"@ + enc
    }
}

/// The `file://` URI of a local path.
pub fn file_uri(path: &str) -> (r: String)
    ensures
        r@ == file_uri_spec(path@),
{
    let v = chars_of(path);
    let mut text = String::new();
    let mut i: usize = 0;
    while i < v.len()
        invariant
            i <= v@.len(),
            v@ == path@,
            text@ == path@.subrange(0, i as int).map_values(|c: char| if c == '\\' { '/' } else { c }),
        decreases v.len() - i,
    {
        let c = if v[i] == '\\' { '/' } else { v[i] };
        push_char(&mut text, c);
        proof {
            assert(path@.subrange(0, i + 1).map_values(|c: char| if c == '\\' { '/' } else { c }) =~= path@.subrange(0, i as int).map_values(|c: char| if c == '\\' { '/' } else { c }).push(c));
        }
        i = i + 1;
    }
    proof {
        assert(path@.subrange(0, v@.len() as int) =~= path@);
    }
    let enc = quote_str(text.as_str(), true);
    let ev = chars_of(enc.as_str());
    if ev.len() > 0 && ev[0] == '/' {
        concat_str("file://", enc.as_str())
    } else {
        concat_str("file:///", enc.as_str())
    }
}

} // verus!
