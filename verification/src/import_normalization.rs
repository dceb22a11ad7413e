//! Normalization of imported identifiers and BibTeX payloads.

use vstd::prelude::*;

use crate::pattern::{
    regex_matches, regex_matches_result, regex_replace_first, regex_replace_first_result,
    regex_split, regex_split_result,
};
use crate::text::{
    chars_of, concat_str, lit, string_from_range, strings_view, trim, trim_bounds, trim_end_chars,
    trim_end_chars_exec, trim_str,
};

verus! {

/// Resolver-URL prefix of a DOI, any case.
pub open spec fn doi_url_pattern() -> Seq<char> {
    "(?i)^https?://(dx\\.)?doi\\.org/"@
}

/// `doi:` label of a DOI, any case, with the whitespace after it.
pub open spec fn doi_label_pattern() -> Seq<char> {
    "(?i)^doi:\\s*"@
}

/// Start of a BibTeX entry: `@type{` at the start of a line, after optional whitespace.
pub open spec fn bibtex_entry_pattern() -> Seq<char> {
    "(?m)^\\s*@\\w+\\s*\\{"@
}

/// The first replacement of `pattern` by nothing in `t`, or `t` if the pattern fails to
/// compile.
pub open spec fn strip_first(pattern: Seq<char>, t: Seq<char>) -> Seq<char> {
    match regex_replace_first_result(pattern, t, Seq::empty()) {
        Some(x) => x,
        None => t,
    }
}

/// Whether `c` matches the lower-case pattern character `l` under the regex crate's
/// case-insensitive matching (simple case folding: an ASCII letter matches its upper case,
/// and `s` also matches the long s `ſ`).
pub open spec fn ci_char(c: char, l: char) -> bool {
    ||| c == l
    ||| ('a' <= l && l <= 'z' && c as int == l as int - 32)
    ||| (l == 's' && c == '\u{17f}')
}

/// Whether `t` starts with `p`, matched case-insensitively.
pub open spec fn ci_prefix(t: Seq<char>, p: Seq<char>) -> bool {
    t.len() >= p.len() && forall|i: int| 0 <= i < p.len() ==> ci_char(#[trigger] t[i], p[i])
}

/// The length of the resolver URL `http(s)://(dx.)doi.org/` (any case) that `t` starts
/// with, or 0 when it starts with none.
pub open spec fn resolver_prefix_len(t: Seq<char>) -> int {
    let scheme: int = if ci_prefix(t, "https://"@) {
        8
    } else if ci_prefix(t, "http://"@) {
        7
    } else {
        -1
    };
    if scheme < 0 {
        0
    } else if ci_prefix(t.skip(scheme), "dx.doi.org/"@) {
        scheme + 11
    } else if ci_prefix(t.skip(scheme), "doi.org/"@) {
        scheme + 8
    } else {
        0
    }
}

/// `t` without the resolver URL it starts with (what replacing the first match of
/// `doi_url_pattern` by nothing gives).
pub open spec fn doi_url_stripped(t: Seq<char>) -> Seq<char> {
    t.skip(resolver_prefix_len(t))
}

/// `t` without the `doi:` label (any case) it starts with and the whitespace after it (what
/// replacing the first match of `doi_label_pattern` by nothing gives).
pub open spec fn doi_label_stripped(t: Seq<char>) -> Seq<char> {
    if ci_prefix(t, "doi:"@) {
        crate::text::trim_start(t.skip(4))
    } else {
        t
    }
}

/// The normalized DOI: trimmed, without a resolver URL or `doi:` label, trimmed again,
/// without trailing spaces, `.`, `)`, `,` and `;`.
pub open spec fn normalize_doi_spec(doi: Option<Seq<char>>) -> Seq<char> {
    let text = trim(
        match doi {
            Some(d) => d,
            None => Seq::empty(),
        },
    );
    let text = doi_label_stripped(doi_url_stripped(text));
    trim_end_chars(trim(text), seq![' ', '.', ')', ',', ';'])
}

fn strip_first_exec(pattern: &str, t: String) -> (r: String)
    ensures
        r@ == strip_first(pattern@, t@),
        pattern@ == doi_url_pattern() ==> r@ == doi_url_stripped(t@),
        pattern@ == doi_label_pattern() ==> r@ == doi_label_stripped(t@),
{
    proof {
        reveal_strlit("");
        assert(""@ =~= Seq::<char>::empty());
    }
    match regex_replace_first(pattern, t.as_str(), "") {
        Some(x) => x,
        None => t,
    }
}

/// Normalizes an optional DOI (missing reads as empty).
pub fn normalize_doi(doi: Option<&str>) -> (r: String)
    ensures
        r@ == normalize_doi_spec(
            match doi {
                Some(d) => Some(d@),
                None => None,
            },
        ),
{
    let raw = match doi {
        Some(d) => d,
        None => "",
    };
    proof {
        reveal_strlit("");
        assert(""@ =~= Seq::<char>::empty());
    }
    let p1 = "(?i)^https?://(dx\\.)?doi\\.org/";
    let p2 = "(?i)^doi:\\s*";
    assert(p1@ == doi_url_pattern());
    assert(p2@ == doi_label_pattern());
    let text = trim_str(raw);
    let text = strip_first_exec(p1, text);
    let text = strip_first_exec(p2, text);
    let v = chars_of(text.as_str());
    let (a, b) = trim_bounds(&v);
    let set = lit(" .),;");
    proof {
        reveal_strlit(" .),;");
        assert(set@ =~= seq![' ', '.', ')', ',', ';']);
    }
    let end = trim_end_chars_exec(&v, a, b, &set);
    string_from_range(&v, a, end)
}

/// The number of BibTeX entry starts in `content` (0 if the pattern fails to compile).
pub open spec fn count_bibtex_spec(content: Seq<char>) -> nat {
    match regex_matches_result(bibtex_entry_pattern(), content) {
        Some(ms) => ms.len(),
        None => 0,
    }
}

/// Counts the BibTeX entries in `content`.
pub fn count_bibtex_entries(content: &str) -> (n: usize)
    ensures
        n as nat == count_bibtex_spec(content@),
{
    match regex_matches("(?m)^\\s*@\\w+\\s*\\{", content) {
        Some(ms) => ms.len(),
        None => 0,
    }
}

/// The text of entry `i`: its start match and the text up to the next start.
pub open spec fn entry_text(ms: Seq<Seq<char>>, ps: Seq<Seq<char>>, i: int) -> Seq<char> {
    ms[i] + if i + 1 < ps.len() {
        ps[i + 1]
    } else {
        Seq::empty()
    }
}

/// The trimmed, non-empty entries among the first `n` entry texts.
pub open spec fn entries_upto(ms: Seq<Seq<char>>, ps: Seq<Seq<char>>, n: int) -> Seq<Seq<char>>
    decreases n,
{
    if n <= 0 {
        Seq::empty()
    } else {
        let e = trim(entry_text(ms, ps, n - 1));
        entries_upto(ms, ps, n - 1) + if e.len() > 0 {
            seq![e]
        } else {
            Seq::empty()
        }
    }
}

/// `content` split at every entry start (each entry from its `@type{` to the next),
/// entries trimmed and empty ones dropped; without any entry start, the trimmed whole
/// (if non-empty).
pub open spec fn split_bibtex_spec(content: Seq<char>) -> Seq<Seq<char>> {
    let ms = match regex_matches_result(bibtex_entry_pattern(), content) {
        Some(x) => x,
        None => Seq::empty(),
    };
    let ps = match regex_split_result(bibtex_entry_pattern(), content) {
        Some(x) => x,
        None => Seq::empty(),
    };
    if ms.len() == 0 {
        if trim(content).len() == 0 {
            Seq::empty()
        } else {
            seq![trim(content)]
        }
    } else {
        entries_upto(ms, ps, ms.len() as int)
    }
}

/// Splits BibTeX `content` into its entries.
pub fn split_bibtex_entries(content: &str) -> (r: Vec<String>)
    ensures
        strings_view(r@) == split_bibtex_spec(content@),
        count_bibtex_spec(content@) > 0 ==> r@.len() == count_bibtex_spec(content@),
        count_bibtex_spec(content@) == 0 ==> r@.len() == (if trim(content@).len() == 0 {
            0int
        } else {
            1int
        }),
{
    let pattern = "(?m)^\\s*@\\w+\\s*\\{";
    let found = regex_matches(pattern, content);
    proof {
        assert(pattern@ == bibtex_entry_pattern());
        if found is Some {
            let v = found->Some_0;
            assert forall|i: int| 0 <= i < strings_view(v@).len() implies (#[trigger] strings_view(v@)[i]).contains('@') by {
                assert(strings_view(v@)[i] == v@[i]@);
            }
        }
        crate::bibtex_laws::law_split_matches_count(content@);
    }
    let ms = match found {
        Some(x) => x,
        None => Vec::new(),
    };
    let ps = match regex_split(pattern, content) {
        Some(x) => x,
        None => Vec::new(),
    };
    let ghost msv = strings_view(ms@);
    let ghost psv = strings_view(ps@);
    proof {
        assert(pattern@ == bibtex_entry_pattern());
        assert(msv =~= match regex_matches_result(bibtex_entry_pattern(), content@) {
            Some(x) => x,
            None => Seq::empty(),
        });
        assert(psv =~= match regex_split_result(bibtex_entry_pattern(), content@) {
            Some(x) => x,
            None => Seq::empty(),
        });
    }
    let mut out: Vec<String> = Vec::new();
    if ms.len() == 0 {
        let stripped = trim_str(content);
        if stripped.as_str().unicode_len() != 0 {
            out.push(stripped);
            proof {
                assert(strings_view(out@) =~= seq![trim(content@)]);
            }
        } else {
            proof {
                assert(strings_view(out@) =~= Seq::<Seq<char>>::empty());
            }
        }
        return out;
    }
    let mut i: usize = 0;
    while i < ms.len()
        invariant
            i <= ms@.len(),
            msv == strings_view(ms@),
            psv == strings_view(ps@),
            strings_view(out@) == entries_upto(msv, psv, i as int),
        decreases ms.len() - i,
    {
        let mut text = ms[i].clone();
        if i + 1 < ps.len() {
            crate::text::push_str(&mut text, ps[i + 1].as_str());
        }
        proof {
            assert(msv[i as int] == ms@[i as int]@);
            if i + 1 < ps@.len() {
                assert(psv[i + 1] == ps@[i + 1]@);
            } else {
                assert(text@ =~= msv[i as int] + Seq::<char>::empty());
            }
        }
        let e = trim_str(text.as_str());
        if e.as_str().unicode_len() != 0 {
            let ghost before = out@;
            out.push(e);
            proof {
                assert(strings_view(out@) =~= strings_view(before).push(e@));
            }
        }
        i = i + 1;
    }
    out
}

/// An attachment to create for an imported item.
#[derive(Debug, Clone, PartialEq, Eq)]
pub struct AttachmentDescriptor {
    pub source_type: String,
    pub source: String,
    pub title: String,
    pub delay_ms: i64,
    pub timeout: i64,
}

} // verus!
