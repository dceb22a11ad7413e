//! Citation and placeholder inspection of Word documents.

use vstd::prelude::*;

use crate::pattern::{regex_is_match, regex_is_match_result, regex_matches, regex_matches_result};
use crate::text::{
    chars_of, contains, contains_exec, lit, split_char, split_char_spec, strings_contains,
    strings_view, to_uppercase, trim, trim_str, uppercase,
};
use crate::xml::{
    elem_refs_view, find_all_in, get_attr_spec, normalize_space, normalize_space_spec, text_in,
    XElem, XmlElement,
};

verus! {

/// An upper-case Zotero item key: exactly eight ASCII capitals or digits.
pub open spec fn zotero_key_pattern() -> Seq<char> {
    "^[A-Z0-9]{8}$"@
}

/// The keys and the invalid parts among the first `n` comma-separated parts: each part is
/// trimmed and upper-cased; empty ones are skipped; a key is kept upper-cased, an invalid
/// part is reported trimmed as written.
pub open spec fn placeholder_keys_upto(parts: Seq<Seq<char>>, n: int) -> (Seq<Seq<char>>, Seq<Seq<char>>)
    decreases n,
{
    if n <= 0 {
        (Seq::empty(), Seq::empty())
    } else {
        let (k, inv) = placeholder_keys_upto(parts, n - 1);
        let cand = uppercase(trim(parts[n - 1]));
        if cand.len() == 0 {
            (k, inv)
        } else if regex_is_match_result(zotero_key_pattern(), cand) == Some(true) {
            (k.push(cand), inv)
        } else {
            (k, inv.push(trim(parts[n - 1])))
        }
    }
}

/// Splits the inside of a `{{zotero:...}}` placeholder into valid keys and invalid parts.
pub fn parse_placeholder_keys(raw_keys: &str) -> (r: (Vec<String>, Vec<String>))
    ensures
        (strings_view(r.0@), strings_view(r.1@)) == placeholder_keys_upto(
            split_char_spec(raw_keys@, ','),
            split_char_spec(raw_keys@, ',').len() as int,
        ),
{
    let parts = split_char(raw_keys, ',');
    let ghost pv = strings_view(parts@);
    let mut keys: Vec<String> = Vec::new();
    let mut invalid: Vec<String> = Vec::new();
    let mut i: usize = 0;
    while i < parts.len()
        invariant
            i <= parts@.len(),
            pv == strings_view(parts@),
            (strings_view(keys@), strings_view(invalid@)) == placeholder_keys_upto(pv, i as int),
        decreases parts.len() - i,
    {
        proof {
            assert(pv[i as int] == parts@[i as int]@);
        }
        let trimmed = trim_str(parts[i].as_str());
        let candidate = to_uppercase(trimmed.as_str());
        if candidate.as_str().unicode_len() != 0 {
            let is_key = match regex_is_match("^[A-Z0-9]{8}$", candidate.as_str()) {
                Some(b) => b,
                None => false,
            };
            if is_key {
                let ghost before = keys@;
                keys.push(candidate);
                proof {
                    assert(strings_view(keys@) =~= strings_view(before).push(candidate@));
                }
            } else {
                let ghost before = invalid@;
                invalid.push(trimmed);
                proof {
                    assert(strings_view(invalid@) =~= strings_view(before).push(trimmed@));
                }
            }
        }
        i = i + 1;
    }
    (keys, invalid)
}

/// The citation system a field instruction belongs to, by markers in its upper-cased text.
pub open spec fn classify_instruction_spec(instruction: Seq<char>) -> Seq<char> {
    let up = uppercase(instruction);
    if contains(up, "ADDIN ZOTERO"@) || contains(up, "ZOTERO_ITEM"@) || contains(up, "ZOTERO_BIBL"@) {
        "zotero"@
    } else if contains(up, "ADDIN EN.CITE"@) || contains(up, "ADDIN EN.REFLIST"@) {
        "endnote"@
    } else if contains(up, "MENDELEY"@) {
        "mendeley"@
    } else if contains(up, "CSL_CITATION"@) || contains(up, "CSL_BIBLIOGRAPHY"@) {
        "csl"@
    } else if contains(up, "ADDIN"@) {
        "unknown-addin"@
    } else {
        "word-field"@
    }
}

/// Classifies a Word field instruction by the citation manager that wrote it.
pub fn classify_instruction(instruction: &str) -> (r: &'static str)
    ensures
        r@ == classify_instruction_spec(instruction@),
{
    let upper = to_uppercase(instruction);
    let up = chars_of(upper.as_str());
    if contains_exec(&up, &lit("ADDIN ZOTERO")) || contains_exec(&up, &lit("ZOTERO_ITEM"))
        || contains_exec(&up, &lit("ZOTERO_BIBL")) {
        "zotero"
    } else if contains_exec(&up, &lit("ADDIN EN.CITE")) || contains_exec(&up, &lit("ADDIN EN.REFLIST")) {
        "endnote"
    } else if contains_exec(&up, &lit("MENDELEY")) {
        "mendeley"
    } else if contains_exec(&up, &lit("CSL_CITATION")) || contains_exec(&up, &lit("CSL_BIBLIOGRAPHY")) {
        "csl"
    } else if contains_exec(&up, &lit("ADDIN")) {
        "unknown-addin"
    } else {
        "word-field"
    }
}

/// Notes for a placeholder inspection.
pub open spec fn placeholder_notes_spec(has_placeholders: bool, has_invalid: bool) -> Seq<Seq<char>> {
    let first = if has_placeholders {
        "Zotero placeholders are present; validate them before converting or finalizing the DOCX."@
    } else {
        "No Zotero placeholders were detected. AI-authored DOCX citation insertion should use {{zotero:ITEMKEY}} placeholders."@
    };
    if has_invalid {
        seq![first, "Some Zotero placeholders are malformed and should be fixed before document conversion."@]
    } else {
        seq![first]
    }
}

/// The advice notes of a placeholder inspection.
pub fn build_placeholder_notes(has_placeholders: bool, has_invalid: bool) -> (r: Vec<String>)
    ensures
        strings_view(r@) == placeholder_notes_spec(has_placeholders, has_invalid),
{
    let mut notes: Vec<String> = Vec::new();
    if has_placeholders {
        notes.push("Zotero placeholders are present; validate them before converting or finalizing the DOCX.".to_owned());
    } else {
        notes.push("No Zotero placeholders were detected. AI-authored DOCX citation insertion should use {{zotero:ITEMKEY}} placeholders.".to_owned());
    }
    if has_invalid {
        notes.push("Some Zotero placeholders are malformed and should be fixed before document conversion.".to_owned());
    }
    proof {
        assert(strings_view(notes@) =~= placeholder_notes_spec(has_placeholders, has_invalid));
    }
    notes
}

/// The values of `v` in order of first occurrence, each once.
pub open spec fn unique_in_order(v: Seq<Seq<char>>) -> Seq<Seq<char>>
    decreases v.len(),
{
    if v.len() == 0 {
        v
    } else {
        let u = unique_in_order(v.drop_last());
        if u.contains(v.last()) {
            u
        } else {
            u.push(v.last())
        }
    }
}

/// Author-year citations such as `(Smith, 2020; Doe et al., 2019a)`.
pub open spec fn author_year_pattern() -> Seq<char> {
    "\\([A-Z][A-Za-z'’.-]+(?:\\s+(?:&|and)\\s+[A-Z][A-Za-z'’.-]+|\\s+et\\s+al\\.)?,\\s+\\d{4}[a-z]?(?:;\\s*[A-Z][A-Za-z'’.-]+(?:\\s+(?:&|and)\\s+[A-Z][A-Za-z'’.-]+|\\s+et\\s+al\\.)?,\\s+\\d{4}[a-z]?)*\\)"@
}

/// Numeric citations such as `[1]`, `[2, 5-7]`.
pub open spec fn numeric_citation_pattern() -> Seq<char> {
    "\\[(?:\\d+(?:\\s*[-,]\\s*\\d+)*)\\]"@
}

/// The distinct static-citation-looking texts: author-year matches, then numeric ones.
pub open spec fn static_citation_spec(text: Seq<char>) -> Seq<Seq<char>> {
    let a = match regex_matches_result(author_year_pattern(), text) {
        Some(x) => x,
        None => Seq::empty(),
    };
    let b = match regex_matches_result(numeric_citation_pattern(), text) {
        Some(x) => x,
        None => Seq::empty(),
    };
    unique_in_order(a + b)
}

/// Appends to `out` the strings of `add` that are not in it yet.
fn append_unique(out: &mut Vec<String>, add: Vec<String>)
    ensures
        strings_view(final(out)@) == unique_from(strings_view(old(out)@), strings_view(add@)),
{
    let ghost av = strings_view(add@);
    let ghost start = strings_view(out@);
    let mut i: usize = 0;
    while i < add.len()
        invariant
            i <= add@.len(),
            av == strings_view(add@),
            strings_view(out@) == unique_from(start, av.subrange(0, i as int)),
        decreases add.len() - i,
    {
        proof {
            assert(av.subrange(0, i + 1).drop_last() =~= av.subrange(0, i as int));
            assert(av.subrange(0, i + 1).last() == add@[i as int]@);
        }
        if !strings_contains(out, add[i].as_str()) {
            let ghost before = out@;
            out.push(add[i].clone());
            proof {
                assert(strings_view(out@) =~= strings_view(before).push(add@[i as int]@));
            }
        }
        i = i + 1;
    }
    proof {
        assert(av.subrange(0, av.len() as int) =~= av);
    }
}

/// `start` extended by the values of `v` not yet present, in order.
pub open spec fn unique_from(start: Seq<Seq<char>>, v: Seq<Seq<char>>) -> Seq<Seq<char>>
    decreases v.len(),
{
    if v.len() == 0 {
        start
    } else {
        let u = unique_from(start, v.drop_last());
        if u.contains(v.last()) {
            u
        } else {
            u.push(v.last())
        }
    }
}

pub proof fn lemma_unique_from_empty(v: Seq<Seq<char>>)
    ensures
        unique_from(Seq::empty(), v) == unique_in_order(v),
    decreases v.len(),
{
    if v.len() > 0 {
        lemma_unique_from_empty(v.drop_last());
    }
}

proof fn lemma_unique_from_concat(a: Seq<Seq<char>>, b: Seq<Seq<char>>)
    ensures
        unique_from(unique_from(Seq::empty(), a), b) == unique_from(Seq::empty(), a + b),
    decreases b.len(),
{
    if b.len() == 0 {
        assert(a + b =~= a);
    } else {
        lemma_unique_from_concat(a, b.drop_last());
        assert((a + b).drop_last() =~= a + b.drop_last());
        assert((a + b).last() == b.last());
    }
}

/// The distinct author-year and numeric citation texts found in `text`.
pub fn static_citation_matches(text: &str) -> (r: Vec<String>)
    ensures
        strings_view(r@) == static_citation_spec(text@),
{
    let p1 = "\\([A-Z][A-Za-z'’.-]+(?:\\s+(?:&|and)\\s+[A-Z][A-Za-z'’.-]+|\\s+et\\s+al\\.)?,\\s+\\d{4}[a-z]?(?:;\\s*[A-Z][A-Za-z'’.-]+(?:\\s+(?:&|and)\\s+[A-Z][A-Za-z'’.-]+|\\s+et\\s+al\\.)?,\\s+\\d{4}[a-z]?)*\\)";
    let p2 = "\\[(?:\\d+(?:\\s*[-,]\\s*\\d+)*)\\]";
    assert(p1@ == author_year_pattern());
    assert(p2@ == numeric_citation_pattern());
    let a = match regex_matches(p1, text) {
        Some(x) => x,
        None => Vec::new(),
    };
    let b = match regex_matches(p2, text) {
        Some(x) => x,
        None => Vec::new(),
    };
    let ghost av = strings_view(a@);
    let ghost bv = strings_view(b@);
    let mut out: Vec<String> = Vec::new();
    proof {
        assert(strings_view(out@) =~= Seq::<Seq<char>>::empty());
    }
    append_unique(&mut out, a);
    append_unique(&mut out, b);
    proof {
        lemma_unique_from_concat(av, bv);
        lemma_unique_from_empty(av + bv);
    }
    out
}


/// The normalized, non-empty texts of the first `n` elements.
pub open spec fn element_texts(es: Seq<XElem>, n: int) -> Seq<Seq<char>>
    decreases n,
{
    if n <= 0 {
        Seq::empty()
    } else {
        let t = normalize_space_spec(text_in(es[n - 1]));
        element_texts(es, n - 1) + if t.len() > 0 {
            seq![t]
        } else {
            Seq::empty()
        }
    }
}

/// An attribute named `first`, else one named `second`.
pub open spec fn attr_either(e: XElem, first: Seq<char>, second: Seq<char>) -> Option<Seq<char>> {
    match get_attr_spec(e.attrs, first) {
        Some(v) => Some(v),
        None => get_attr_spec(e.attrs, second),
    }
}

/// The normalized, non-empty `w:instr`/`instr` attributes of the first `n` elements.
pub open spec fn instr_attrs(es: Seq<XElem>, n: int) -> Seq<Seq<char>>
    decreases n,
{
    if n <= 0 {
        Seq::empty()
    } else {
        instr_attrs(es, n - 1) + match attr_either(es[n - 1], "w:instr"@, "instr"@) {
            Some(v) => if normalize_space_spec(v).len() > 0 {
                seq![normalize_space_spec(v)]
            } else {
                Seq::empty()
            },
            None => Seq::empty(),
        }
    }
}

/// The field instructions of a document: the text of every `w:instrText`, then the
/// `instr` attribute of every `w:fldSimple`, each whitespace-normalized, empty ones dropped.
pub open spec fn field_instructions_spec(root: XElem) -> Seq<Seq<char>> {
    let a = find_all_in(root, "w:instrText"@);
    let b = find_all_in(root, "w:fldSimple"@);
    element_texts(a, a.len() as int) + instr_attrs(b, b.len() as int)
}

fn attr_either_exec<'a>(e: &'a XmlElement, first: &str, second: &str) -> (r: Option<&'a str>)
    ensures
        match r {
            Some(v) => attr_either(e@, first@, second@) == Some(v@),
            None => attr_either(e@, first@, second@) is None,
        },
{
    match e.get_attr(first) {
        Some(v) => Some(v),
        None => e.get_attr(second),
    }
}

/// The citation field instructions of a document.
pub fn field_instructions(root: &XmlElement) -> (r: Vec<String>)
    ensures
        strings_view(r@) == field_instructions_spec(root@),
{
    let a = root.find_all("w:instrText");
    let ghost av = elem_refs_view(a@);
    let mut out: Vec<String> = Vec::new();
    let mut i: usize = 0;
    while i < a.len()
        invariant
            i <= a@.len(),
            av == elem_refs_view(a@),
            strings_view(out@) == element_texts(av, i as int),
        decreases a.len() - i,
    {
        proof {
            assert(av[i as int] == a@[i as int]@);
        }
        let t = normalize_space(a[i].iter_text().as_str());
        if t.as_str().unicode_len() != 0 {
            let ghost before = out@;
            out.push(t);
            proof {
                assert(strings_view(out@) =~= strings_view(before).push(t@));
            }
        }
        i = i + 1;
    }
    let b = root.find_all("w:fldSimple");
    let ghost bv = elem_refs_view(b@);
    let ghost mid = strings_view(out@);
    let mut j: usize = 0;
    proof {
        assert(mid + instr_attrs(bv, 0) =~= mid);
    }
    while j < b.len()
        invariant
            j <= b@.len(),
            bv == elem_refs_view(b@),
            strings_view(out@) == mid + instr_attrs(bv, j as int),
        decreases b.len() - j,
    {
        proof {
            assert(bv[j as int] == b@[j as int]@);
        }
        match attr_either_exec(b[j], "w:instr", "instr") {
            Some(v) => {
                let t = normalize_space(v);
                if t.as_str().unicode_len() != 0 {
                    let ghost before = out@;
                    out.push(t);
                    proof {
                        assert(strings_view(out@) =~= strings_view(before).push(t@));
                        assert(mid + instr_attrs(bv, j + 1) =~= mid + instr_attrs(bv, j as int) + seq![t@]);
                    }
                } else {
                    proof {
                        assert(mid + instr_attrs(bv, j + 1) =~= mid + instr_attrs(bv, j as int));
                    }
                }
            },
            None => {
                proof {
                    assert(mid + instr_attrs(bv, j + 1) =~= mid + instr_attrs(bv, j as int));
                }
            },
        }
        j = j + 1;
    }
    out
}

/// Bookmark names Zotero writes for its citations.
pub open spec fn bookmark_pattern() -> Seq<char> {
    "^ZOTERO_BREF_(.+)$"@
}

/// The names (`w:name`, else `name`, else empty) of the first `n` bookmarks that look like
/// Zotero citation bookmarks.
pub open spec fn bookmark_candidates(es: Seq<XElem>, n: int) -> Seq<Seq<char>>
    decreases n,
{
    if n <= 0 {
        Seq::empty()
    } else {
        let name = match attr_either(es[n - 1], "w:name"@, "name"@) {
            Some(v) => v,
            None => Seq::empty(),
        };
        bookmark_candidates(es, n - 1) + if regex_is_match_result(bookmark_pattern(), name) == Some(true) {
            seq![name]
        } else {
            Seq::empty()
        }
    }
}

/// The distinct Zotero citation bookmark names of a document, in document order.
pub open spec fn bookmark_names_spec(root: XElem) -> Seq<Seq<char>> {
    let es = find_all_in(root, "w:bookmarkStart"@);
    unique_in_order(bookmark_candidates(es, es.len() as int))
}

/// The distinct Zotero citation bookmark names of a document.
pub fn zotero_bookmark_names(root: &XmlElement) -> (r: Vec<String>)
    ensures
        strings_view(r@) == bookmark_names_spec(root@),
{
    let es = root.find_all("w:bookmarkStart");
    let ghost ev = elem_refs_view(es@);
    let mut names: Vec<String> = Vec::new();
    let mut i: usize = 0;
    proof {
        assert(strings_view(names@) =~= unique_in_order(bookmark_candidates(ev, 0)));
    }
    while i < es.len()
        invariant
            i <= es@.len(),
            ev == elem_refs_view(es@),
            strings_view(names@) == unique_in_order(bookmark_candidates(ev, i as int)),
        decreases es.len() - i,
    {
        proof {
            assert(ev[i as int] == es@[i as int]@);
        }
        let name: &str = match attr_either_exec(es[i], "w:name", "name") {
            Some(v) => v,
            None => "",
        };
        proof {
            reveal_strlit("");
            assert(""@ =~= Seq::<char>::empty());
        }
        let is_zotero = match regex_is_match("^ZOTERO_BREF_(.+)$", name) {
            Some(b) => b,
            None => false,
        };
        if is_zotero && !strings_contains(&names, name) {
            let ghost before = names@;
            names.push(name.to_owned());
            proof {
                assert(strings_view(names@) =~= strings_view(before).push(name@));
                assert(bookmark_candidates(ev, i + 1) =~= bookmark_candidates(ev, i as int).push(name@));
                assert(bookmark_candidates(ev, i + 1).drop_last() =~= bookmark_candidates(ev, i as int));
            }
        } else if is_zotero {
            proof {
                assert(bookmark_candidates(ev, i + 1) =~= bookmark_candidates(ev, i as int).push(name@));
                assert(bookmark_candidates(ev, i + 1).drop_last() =~= bookmark_candidates(ev, i as int));
            }
        } else {
            proof {
                assert(bookmark_candidates(ev, i + 1) =~= bookmark_candidates(ev, i as int));
            }
        }
        i = i + 1;
    }
    names
}

} // verus!
