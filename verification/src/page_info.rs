//! What an add command reads from a fetched web page (its title and the DOI it shows), and how
//! a DOI is written into a Crossref URL.

use vstd::prelude::*;

use crate::add_import::opt_string;
use crate::import_core::take_chars;
use crate::pattern::{regex_capture_result, regex_matches_result, regex_replace_all_result};
use crate::text::trim;

verus! {

/// The page-title pattern: the text inside the first `<title>` element, across lines.
pub open spec fn title_pattern() -> Seq<char> {
    "(?is)<title[^>]*>(.*?)</title>"@
}

/// The DOI pattern of a page's text.
pub open spec fn html_doi_pattern() -> Seq<char> {
    "10\\.\\d{4,9}/[A-Za-z0-9./_;()-]+"@
}

/// A page's title: the first `<title>` text with whitespace runs collapsed to one space,
/// trimmed and cut to 300 characters; none when that is empty.
pub open spec fn page_title_spec(body: Seq<char>) -> Option<Seq<char>> {
    match regex_capture_result(title_pattern(), body, 1) {
        Some(Some(t)) => {
            let collapsed = match regex_replace_all_result("\\s+"@, t, " "@) {
                Some(c) => c,
                None => t,
            };
            let title = take_chars(trim(collapsed), 300);
            if title.len() > 0 {
                Some(title)
            } else {
                None
            }
        },
        _ => None,
    }
}

/// The DOI a page shows: its first DOI-like text, normalised.
pub open spec fn page_doi_spec(body: Seq<char>) -> Option<Seq<char>> {
    match regex_matches_result(html_doi_pattern(), body) {
        Some(ms) => if ms.len() > 0 {
            Some(crate::import_normalization::normalize_doi_spec(Some(ms[0])))
        } else {
            None
        },
        None => None,
    }
}

/// A page's title and the DOI it shows.
pub fn page_title_and_doi(body: &str) -> (r: (Option<String>, Option<String>))
    ensures
        opt_string(r.0) == page_title_spec(body@),
        opt_string(r.1) == page_doi_spec(body@),
{
    let title = match crate::pattern::regex_capture("(?is)<title[^>]*>(.*?)</title>", body, 1) {
        Some(Some(t)) => {
            let collapsed = match crate::pattern::regex_replace_all("\\s+", t.as_str(), " ") {
                Some(c) => c,
                None => t,
            };
            let v = crate::text::chars_of(crate::text::trim_str(collapsed.as_str()).as_str());
            let n: usize = if 300 < v.len() {
                300
            } else {
                v.len()
            };
            let cut = crate::text::string_from_range(&v, 0, n);
            proof {
                if n == v@.len() {
                    assert(v@.subrange(0, n as int) =~= v@);
                }
            }
            if n > 0 {
                Some(cut)
            } else {
                None
            }
        },
        _ => None,
    };
    let doi = match crate::pattern::regex_matches("10\\.\\d{4,9}/[A-Za-z0-9./_;()-]+", body) {
        Some(ms) => {
            proof {
                assert(crate::text::strings_view(ms@).len() == ms@.len());
            }
            if ms.len() > 0 {
                Some(crate::import_normalization::normalize_doi(Some(ms[0].as_str())))
            } else {
                None
            }
        },
        None => None,
    };
    (title, doi)
}

/// Whether a byte is written as itself in a URL path (`A-Z a-z 0-9 - _ . ~ /`).
pub open spec fn url_safe(b: u8) -> bool {
    (0x41 <= b <= 0x5A) || (0x61 <= b <= 0x7A) || (0x30 <= b <= 0x39) || b == 0x2D || b == 0x5F || b == 0x2E || b == 0x7E
        || b == 0x2F
}

/// An upper-case hex digit.
pub open spec fn hex_digit(n: u8) -> char {
    if n < 10 {
        ((0x30 + n) as u8) as char
    } else {
        ((0x41 + n - 10) as u8) as char
    }
}

/// The percent-encoding of bytes: safe bytes as themselves, others as `%` and two upper-case
/// hex digits.
pub open spec fn percent_encoded(bytes: Seq<u8>) -> Seq<char>
    decreases bytes.len(),
{
    if bytes.len() == 0 {
        Seq::empty()
    } else {
        let b = bytes.last();
        percent_encoded(bytes.drop_last()) + if url_safe(b) {
            seq![b as char]
        } else {
            seq!['%', hex_digit(b / 16), hex_digit(b % 16)]
        }
    }
}

fn hex_digit_exec(n: u8) -> (c: char)
    requires
        n < 16,
    ensures
        c == hex_digit(n),
{
    if n < 10 {
        (0x30 + n) as char
    } else {
        (0x41 + n - 10) as char
    }
}

/// Percent-encodes bytes for a URL path.
pub fn percent_encode_bytes(bytes: &[u8]) -> (r: String)
    ensures
        r@ == percent_encoded(bytes@),
{
    let mut out = String::new();
    let mut i: usize = 0;
    while i < bytes.len()
        invariant
            i <= bytes@.len(),
            out@ == percent_encoded(bytes@.subrange(0, i as int)),
        decreases bytes.len() - i,
    {
        let b = bytes[i];
        proof {
            assert(bytes@.subrange(0, i + 1).drop_last() =~= bytes@.subrange(0, i as int));
        }
        if (0x41 <= b && b <= 0x5A) || (0x61 <= b && b <= 0x7A) || (0x30 <= b && b <= 0x39) || b == 0x2D || b == 0x5F
            || b == 0x2E || b == 0x7E || b == 0x2F {
            crate::text::push_char(&mut out, b as char);
        } else {
            crate::text::push_char(&mut out, '%');
            crate::text::push_char(&mut out, hex_digit_exec(b / 16));
            crate::text::push_char(&mut out, hex_digit_exec(b % 16));
        }
        proof {
            assert(out@ =~= percent_encoded(bytes@.subrange(0, i + 1)));
        }
        i = i + 1;
    }
    proof {
        assert(bytes@.subrange(0, bytes@.len() as int) =~= bytes@);
    }
    out
}

} // verus!
