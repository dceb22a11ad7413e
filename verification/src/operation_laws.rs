//! What some operations promise whatever their input: the order of a duplicate group, how
//! citations combine, how a field instruction and a file are classified, and what a `doi:`
//! label does to a DOI.

use vstd::prelude::*;

use crate::import_normalization::{ci_char, ci_prefix, doi_label_stripped, doi_url_stripped, normalize_doi_spec, resolver_prefix_len};
use crate::cli::DuplicatesBy;
use crate::db::Item;
use crate::hygiene::{
    duplicate_groups_spec, group_of, insert_group, insert_member, key_members, member_after, qualifying_groups, sort_groups,
    sort_members, GroupView, MemberView,
};
use crate::static_render::{cleaned_citations, combined_citation_spec, is_parenthesized, paren_inner};
use crate::text::{is_ws, join_spec, trim, trim_end, trim_start};

verus! {

/// Trailing whitespace is removed from the end only: text before a part that holds a
/// non-whitespace character is kept.
proof fn lemma_trim_end_append(p: Seq<char>, q: Seq<char>, j: int)
    requires
        0 <= j < q.len(),
        !is_ws(q[j]),
    ensures
        trim_end(p + q) == p + trim_end(q),
        trim_end(q).len() > j,
        trim_end(q).len() <= q.len(),
        forall|i: int| 0 <= i < trim_end(q).len() ==> #[trigger] trim_end(q)[i] == q[i],
    decreases q.len(),
{
    if q.len() > 0 && is_ws(q.last()) {
        assert(j < q.len() - 1);
        assert((p + q).drop_last() =~= p + q.drop_last());
        assert(q.drop_last()[j] == q[j]);
        lemma_trim_end_append(p, q.drop_last(), j);
        assert((p + q).last() == q.last());
        assert forall|i: int| 0 <= i < trim_end(q).len() implies #[trigger] trim_end(q)[i] == q[i] by {
            assert(q.drop_last()[i] == q[i]);
        }
    }
}

/// Leading whitespace before a part that starts with a non-whitespace character is removed.
proof fn lemma_trim_start_ws(ws: Seq<char>, q: Seq<char>)
    requires
        forall|i: int| 0 <= i < ws.len() ==> is_ws(#[trigger] ws[i]),
        q.len() > 0,
        !is_ws(q[0]),
    ensures
        trim_start(ws + q) == q,
    decreases ws.len(),
{
    if ws.len() == 0 {
        assert(ws + q =~= q);
    } else {
        assert((ws + q).drop_first() =~= ws.drop_first() + q);
        assert(ws[0] == (ws + q)[0]);
        lemma_trim_start_ws(ws.drop_first(), q);
    }
}

/// A `doi:` label, in any case and with any whitespace after it, in front of a DOI (`10.`
/// and the rest) changes nothing: the text normalizes to the DOI's own normalized form.
pub proof fn law_doi_label_is_dropped(label: Seq<char>, ws: Seq<char>, doi: Seq<char>)
    requires
        label.len() == 4,
        label[0] == 'd' || label[0] == 'D',
        label[1] == 'o' || label[1] == 'O',
        label[2] == 'i' || label[2] == 'I',
        label[3] == ':',
        forall|i: int| 0 <= i < ws.len() ==> is_ws(#[trigger] ws[i]),
        doi.len() >= 3,
        doi[0] == '1',
        doi[1] == '0',
        doi[2] == '.',
    ensures
        normalize_doi_spec(Some(label + ws + doi)) == normalize_doi_spec(Some(doi)),
{
    reveal_strlit("https://");
    reveal_strlit("http://");
    reveal_strlit("doi:");
    let t = label + ws + doi;
    let te = trim_end(doi);
    lemma_trim_end_append(label + ws, doi, 0);
    assert(trim_start(t) == t);
    assert(trim(t) == label + ws + te);
    let tt = label + ws + te;
    assert(te[0] == '1');
    // the resolver URL does not match text starting with the label
    assert(!ci_char(tt[0], 'h'));
    assert(!ci_prefix(tt, "https://"@));
    assert(!ci_prefix(tt, "http://"@));
    assert(resolver_prefix_len(tt) == 0);
    assert(doi_url_stripped(tt) =~= tt);
    // the label is removed with the whitespace after it
    assert forall|i: int| 0 <= i < 4 implies ci_char(#[trigger] tt[i], "doi:"@[i]) by {
        assert(tt[i] == label[i]);
    }
    assert(ci_prefix(tt, "doi:"@));
    assert(tt.skip(4) =~= ws + te);
    lemma_trim_start_ws(ws, te);
    assert(doi_label_stripped(tt) == te);
    // the DOI alone: nothing to strip
    assert(trim_start(doi) == doi);
    assert(trim(doi) == te);
    assert(!ci_char(te[0], 'h'));
    assert(!ci_prefix(te, "https://"@));
    assert(!ci_prefix(te, "http://"@));
    assert(resolver_prefix_len(te) == 0);
    assert(doi_url_stripped(te) =~= te);
    assert(!ci_char(te[0], 'd'));
    assert(!ci_prefix(te, "doi:"@));
    assert(doi_label_stripped(te) == te);
}

/// A file whose extension is `enw` or `refer`, in any case, is sent to the connector as an
/// EndNote/Refer export.
pub proof fn law_endnote_files_are_refer(path: Seq<char>, ext: Seq<char>)
    requires
        crate::add_file::extension_result(path) == Some(ext),
        crate::text::lowercase(ext) == "enw"@ || crate::text::lowercase(ext) == "refer"@,
    ensures
        crate::import_core::content_type_spec(path) == "application/x-endnote-refer"@,
{
    reveal_strlit("enw");
    reveal_strlit("refer");
    reveal_strlit("bib");
    reveal_strlit("bibtex");
    reveal_strlit("ris");
    let e = crate::text::lowercase(ext);
    assert(e != "bib"@ && e != "bibtex"@ && e != "ris"@) by {
        if e == "enw"@ {
            assert(e[0] != "bib"@[0]);
            assert(e.len() != "bibtex"@.len());
            assert(e[0] != "ris"@[0]);
        } else {
            assert(e.len() != "bib"@.len());
            assert(e.len() != "bibtex"@.len());
            assert(e.len() != "ris"@.len());
        }
    }
}

/// A field instruction whose upper-cased text names a CSL citation or bibliography, and no
/// Zotero, EndNote or Mendeley marker, is classified as written by a CSL processor; and only
/// such an instruction is.
pub proof fn law_csl_fields_are_csl(instruction: Seq<char>)
    ensures
        crate::docx_inspect::classify_instruction_spec(instruction) == "csl"@ <==> {
            let up = crate::text::uppercase(instruction);
            &&& crate::text::contains(up, "CSL_CITATION"@) || crate::text::contains(up, "CSL_BIBLIOGRAPHY"@)
            &&& !crate::text::contains(up, "ADDIN ZOTERO"@)
            &&& !crate::text::contains(up, "ZOTERO_ITEM"@)
            &&& !crate::text::contains(up, "ZOTERO_BIBL"@)
            &&& !crate::text::contains(up, "ADDIN EN.CITE"@)
            &&& !crate::text::contains(up, "ADDIN EN.REFLIST"@)
            &&& !crate::text::contains(up, "MENDELEY"@)
        },
{
    reveal_strlit("csl");
    reveal_strlit("zotero");
    reveal_strlit("endnote");
    reveal_strlit("mendeley");
    reveal_strlit("unknown-addin");
    reveal_strlit("word-field");
    assert("csl"@ != "zotero"@ && "csl"@ != "endnote"@ && "csl"@ != "mendeley"@ && "csl"@ != "unknown-addin"@
        && "csl"@ != "word-field"@) by {
        assert("csl"@.len() != "zotero"@.len());
        assert("csl"@.len() != "endnote"@.len());
        assert("csl"@.len() != "mendeley"@.len());
        assert("csl"@.len() != "unknown-addin"@.len());
        assert("csl"@.len() != "word-field"@.len());
    }
}

/// Citations after the first `n` do not change the cleaned first `n`.
proof fn lemma_cleaned_push(cs: Seq<Seq<char>>, c: Seq<char>, n: int)
    requires
        0 <= n <= cs.len(),
    ensures
        cleaned_citations(cs.push(c), n) == cleaned_citations(cs, n),
    decreases n,
{
    if n > 0 {
        lemma_cleaned_push(cs, c, n - 1);
        assert(cs.push(c)[n - 1] == cs[n - 1]);
    }
}

/// Each cleaned citation is the trimmed text of a non-blank citation.
proof fn lemma_cleaned_from(cs: Seq<Seq<char>>, n: int)
    requires
        0 <= n <= cs.len(),
    ensures
        forall|k: int| 0 <= k < cleaned_citations(cs, n).len() ==> exists|i: int| 0 <= i < n && trim(cs[i]).len() > 0
            && #[trigger] cleaned_citations(cs, n)[k] == trim(cs[i]),
    decreases n,
{
    if n > 0 {
        lemma_cleaned_from(cs, n - 1);
        let prev = cleaned_citations(cs, n - 1);
        assert forall|k: int| 0 <= k < cleaned_citations(cs, n).len() implies exists|i: int| 0 <= i < n && trim(cs[i]).len()
            > 0 && #[trigger] cleaned_citations(cs, n)[k] == trim(cs[i]) by {
            if k < prev.len() {
                assert(cleaned_citations(cs, n)[k] == prev[k]);
            } else {
                assert(cleaned_citations(cs, n)[k] == trim(cs[n - 1]));
            }
        }
    }
}

/// Every non-blank citation is among the cleaned ones; two of them make at least two.
proof fn lemma_cleaned_has(cs: Seq<Seq<char>>, n: int, i: int)
    requires
        0 <= i < n <= cs.len(),
        trim(cs[i]).len() > 0,
    ensures
        cleaned_citations(cs, n).contains(trim(cs[i])),
        cleaned_citations(cs, n).len() >= cleaned_citations(cs, i).len() + 1,
    decreases n,
{
    if n - 1 == i {
        assert(cleaned_citations(cs, n)[cleaned_citations(cs, i).len() as int] == trim(cs[i]));
    } else {
        lemma_cleaned_has(cs, n - 1, i);
        let k = choose|k: int| 0 <= k < cleaned_citations(cs, n - 1).len() && #[trigger] cleaned_citations(cs, n - 1)[k] == trim(cs[i]);
        assert(cleaned_citations(cs, n)[k] == trim(cs[i]));
    }
}

/// Joining one more part adds the separator and the part.
proof fn lemma_join_push(parts: Seq<Seq<char>>, x: Seq<char>, sep: Seq<char>)
    requires
        parts.len() >= 1,
    ensures
        join_spec(parts.push(x), sep) == join_spec(parts, sep) + sep + x,
{
    assert(parts.push(x).drop_last() =~= parts);
}

/// Two non-blank citations combine into their trimmed texts joined by `; `, inside one
/// pair of parentheses when both are parenthesized.
pub proof fn law_two_citations_combine(a: Seq<char>, b: Seq<char>)
    requires
        trim(a).len() > 0,
        trim(b).len() > 0,
    ensures
        combined_citation_spec(seq![a, b]) == if is_parenthesized(trim(a)) && is_parenthesized(trim(b)) {
            seq!['('] + paren_inner(trim(a)) + "; "@ + paren_inner(trim(b)) + seq![')']
        } else {
            trim(a) + "; "@ + trim(b)
        },
{
    let cs = seq![a, b];
    assert(cleaned_citations(cs, 0) == Seq::<Seq<char>>::empty());
    assert(cleaned_citations(cs, 1) =~= seq![trim(a)]);
    assert(cleaned_citations(cs, 2) =~= seq![trim(a), trim(b)]);
    let cl = seq![trim(a), trim(b)];
    assert(cl.drop_last() =~= seq![trim(a)]);
    let inner = cl.map_values(|c: Seq<char>| paren_inner(c));
    assert(inner.drop_last() =~= seq![paren_inner(trim(a))]);
    lemma_join_push(seq![trim(a)], trim(b), "; "@);
    assert(seq![trim(a)].push(trim(b)) =~= cl);
    assert(join_spec(seq![trim(a)], "; "@) == trim(a));
    assert(join_spec(cl, "; "@) == trim(a) + "; "@ + trim(b));
    lemma_join_push(seq![paren_inner(trim(a))], paren_inner(trim(b)), "; "@);
    assert(seq![paren_inner(trim(a))].push(paren_inner(trim(b))) =~= inner);
    assert(join_spec(seq![paren_inner(trim(a))], "; "@) == paren_inner(trim(a)));
    assert(join_spec(inner, "; "@) == paren_inner(trim(a)) + "; "@ + paren_inner(trim(b)));
    if is_parenthesized(trim(a)) && is_parenthesized(trim(b)) {
        assert forall|k: int| 0 <= k < cl.len() implies is_parenthesized(#[trigger] cl[k]) by {}
        assert(combined_citation_spec(cs) == seq!['('] + join_spec(inner, "; "@) + seq![')']);
        assert(seq!['('] + join_spec(inner, "; "@) + seq![')'] =~= seq!['('] + paren_inner(trim(a)) + "; "@ + paren_inner(
            trim(b)) + seq![')']);
    } else {
        assert(!is_parenthesized(cl[0]) || !is_parenthesized(cl[1]));
        assert(combined_citation_spec(cs) == join_spec(cl, "; "@));
    }
}

/// Appending a non-blank citation to citations of which one is not parenthesized appends
/// `; ` and its trimmed text to their combination.
pub proof fn law_citation_appends_plain(cs: Seq<Seq<char>>, c: Seq<char>, i: int)
    requires
        0 <= i < cs.len(),
        trim(cs[i]).len() > 0,
        !is_parenthesized(trim(cs[i])),
        trim(c).len() > 0,
    ensures
        combined_citation_spec(cs.push(c)) == combined_citation_spec(cs) + "; "@ + trim(c),
{
    let n = cs.len() as int;
    let cl = cleaned_citations(cs, n);
    lemma_cleaned_has(cs, n, i);
    lemma_cleaned_push(cs, c, n);
    let cs2 = cs.push(c);
    assert(cs2[n] == c);
    assert(cleaned_citations(cs2, n + 1) =~= cl.push(trim(c)));
    let k = choose|k: int| 0 <= k < cl.len() && #[trigger] cl[k] == trim(cs[i]);
    assert(!is_parenthesized(cl[k]));
    assert(cl.push(trim(c))[k] == cl[k]);
    lemma_join_push(cl, trim(c), "; "@);
    if cl.len() == 1 {
        assert(join_spec(cl, "; "@) == cl[0]);
    }
}

/// Appending a parenthesized citation to two or more citations that are all parenthesized
/// puts `; ` and its inside before the closing parenthesis of their combination.
pub proof fn law_citation_appends_parenthesized(cs: Seq<Seq<char>>, c: Seq<char>, i: int, j: int)
    requires
        0 <= i < j < cs.len(),
        trim(cs[i]).len() > 0,
        trim(cs[j]).len() > 0,
        forall|k: int| 0 <= k < cs.len() && trim(cs[k]).len() > 0 ==> is_parenthesized(#[trigger] trim(cs[k])),
        is_parenthesized(trim(c)),
    ensures
        ({
            let before = combined_citation_spec(cs);
            combined_citation_spec(cs.push(c)) == before.subrange(0, before.len() - 1) + "; "@ + paren_inner(trim(c)) + seq![')']
        }),
{
    let n = cs.len() as int;
    let cl = cleaned_citations(cs, n);
    lemma_cleaned_has(cs, n, j);
    lemma_cleaned_has(cs, j, i);
    lemma_cleaned_from(cs, n);
    lemma_cleaned_push(cs, c, n);
    let cs2 = cs.push(c);
    assert(cs2[n] == c);
    let cl2 = cl.push(trim(c));
    assert(cleaned_citations(cs2, n + 1) =~= cl2);
    assert(cl.len() >= 2);
    assert forall|k: int| 0 <= k < cl.len() implies is_parenthesized(#[trigger] cl[k]) by {
        let m = choose|m: int| 0 <= m < n && trim(cs[m]).len() > 0 && cl[k] == #[trigger] trim(cs[m]);
    }
    assert forall|k: int| 0 <= k < cl2.len() implies is_parenthesized(#[trigger] cl2[k]) by {
        if k < cl.len() {
            assert(cl2[k] == cl[k]);
        }
    }
    let f = |x: Seq<char>| paren_inner(x);
    let inner = cl.map_values(f);
    assert(cl2.map_values(f) =~= inner.push(paren_inner(trim(c))));
    lemma_join_push(inner, paren_inner(trim(c)), "; "@);
    let before = combined_citation_spec(cs);
    assert(before == seq!['('] + join_spec(inner, "; "@) + seq![')']);
    assert(before.subrange(0, before.len() - 1) =~= seq!['('] + join_spec(inner, "; "@));
}

/// Members with a PDF all come before members without one.
pub open spec fn pdfs_first(m: Seq<MemberView>) -> bool {
    forall|i: int, j: int| 0 <= i < j < m.len() && #[trigger] m[j].has_pdf ==> #[trigger] m[i].has_pdf
}

/// Inserting a member keeps the members it had and adds it, and keeps those with a PDF
/// first.
proof fn lemma_insert_member(s: Seq<MemberView>, x: MemberView)
    requires
        pdfs_first(s),
    ensures
        insert_member(s, x).len() == s.len() + 1,
        forall|k: int| 0 <= k < insert_member(s, x).len() ==> #[trigger] insert_member(s, x)[k] == x || s.contains(
            insert_member(s, x)[k]),
        pdfs_first(insert_member(s, x)),
    decreases s.len(),
{
    let r = insert_member(s, x);
    if s.len() == 0 {
        assert(r =~= seq![x]);
    } else if member_after(s.last(), x) {
        let sd = s.drop_last();
        assert forall|i: int, j: int| 0 <= i < j < sd.len() && #[trigger] sd[j].has_pdf implies #[trigger] sd[i].has_pdf by {
            assert(sd[i] == s[i] && sd[j] == s[j]);
        }
        lemma_insert_member(sd, x);
        let q = insert_member(sd, x);
        assert(r == q.push(s.last()));
        assert forall|k: int| 0 <= k < r.len() implies #[trigger] r[k] == x || s.contains(r[k]) by {
            if k < q.len() {
                assert(r[k] == q[k]);
                if q[k] != x {
                    let m = choose|m: int| 0 <= m < sd.len() && sd[m] == q[k];
                    assert(s[m] == sd[m]);
                }
            } else {
                assert(r[k] == s[s.len() - 1]);
            }
        }
        assert forall|i: int, j: int| 0 <= i < j < r.len() && #[trigger] r[j].has_pdf implies #[trigger] r[i].has_pdf by {
            if j == r.len() - 1 {
                // the last member has a PDF, so does `x`, and so does every member before it
                assert(x.has_pdf);
                assert(r[i] == q[i]);
                if q[i] != x {
                    let m = choose|m: int| 0 <= m < sd.len() && sd[m] == q[i];
                    assert(s[m] == sd[m]);
                    assert(s[s.len() - 1].has_pdf);
                    assert(m < s.len() - 1);
                }
            } else {
                assert(r[i] == q[i] && r[j] == q[j]);
            }
        }
    } else {
        assert(r == s.push(x));
        assert forall|k: int| 0 <= k < r.len() implies #[trigger] r[k] == x || s.contains(r[k]) by {
            if k < s.len() {
                assert(r[k] == s[k]);
            }
        }
        assert forall|i: int, j: int| 0 <= i < j < r.len() && #[trigger] r[j].has_pdf implies #[trigger] r[i].has_pdf by {
            if j == r.len() - 1 {
                assert(r[j] == x);
                assert(s[s.len() - 1].has_pdf);
                assert(r[i] == s[i]);
                if i < s.len() - 1 {
                    assert(s[i].has_pdf);
                }
            } else {
                assert(r[i] == s[i] && r[j] == s[j]);
            }
        }
    }
}

/// Sorting members keeps their number and puts those with a PDF first.
proof fn lemma_sort_members(s: Seq<MemberView>)
    ensures
        sort_members(s).len() == s.len(),
        pdfs_first(sort_members(s)),
    decreases s.len(),
{
    if s.len() > 0 {
        lemma_sort_members(s.drop_last());
        lemma_insert_member(sort_members(s.drop_last()), s.last());
    }
}

/// A reported group: its members with a PDF come first, and the member suggested for
/// keeping has a PDF whenever one of the members has.
pub open spec fn pdf_group(g: GroupView) -> bool {
    &&& pdfs_first(g.items)
    &&& (exists|i: int| 0 <= i < g.items.len() && #[trigger] g.items[i].has_pdf) ==> exists|i: int|
        0 <= i < g.items.len() && #[trigger] g.items[i].has_pdf && g.items[i].key == g.keep_suggestion
}

proof fn lemma_group_of(items: Seq<Item>, by: DuplicatesBy, k: Seq<char>)
    requires
        key_members(items, by, k).len() >= 2,
    ensures
        pdf_group(group_of(items, by, k)),
{
    lemma_sort_members(key_members(items, by, k));
    let g = group_of(items, by, k);
    if exists|i: int| 0 <= i < g.items.len() && #[trigger] g.items[i].has_pdf {
        let i = choose|i: int| 0 <= i < g.items.len() && #[trigger] g.items[i].has_pdf;
        if i > 0 {
            assert(g.items[0].has_pdf);
        }
        assert(g.items[0].has_pdf && g.items[0].key == g.keep_suggestion);
    }
}

proof fn lemma_qualifying(items: Seq<Item>, by: DuplicatesBy, keys: Seq<Seq<char>>)
    ensures
        forall|i: int| 0 <= i < qualifying_groups(items, by, keys).len() ==> pdf_group(
            #[trigger] qualifying_groups(items, by, keys)[i]),
    decreases keys.len(),
{
    if keys.len() > 0 {
        lemma_qualifying(items, by, keys.drop_last());
        if key_members(items, by, keys.last()).len() >= 2 {
            lemma_group_of(items, by, keys.last());
            let g = qualifying_groups(items, by, keys.drop_last());
            assert forall|i: int| 0 <= i < qualifying_groups(items, by, keys).len() implies pdf_group(
                #[trigger] qualifying_groups(items, by, keys)[i]) by {
                if i < g.len() {
                    assert(qualifying_groups(items, by, keys)[i] == g[i]);
                }
            }
        }
    }
}

proof fn lemma_insert_group(s: Seq<GroupView>, x: GroupView)
    requires
        forall|i: int| 0 <= i < s.len() ==> pdf_group(#[trigger] s[i]),
        pdf_group(x),
    ensures
        forall|i: int| 0 <= i < insert_group(s, x).len() ==> pdf_group(#[trigger] insert_group(s, x)[i]),
    decreases s.len(),
{
    if s.len() > 0 {
        let r = insert_group(s, x);
        if crate::hygiene::group_after(s.last(), x) {
            let sd = s.drop_last();
            assert forall|i: int| 0 <= i < sd.len() implies pdf_group(#[trigger] sd[i]) by {
                assert(sd[i] == s[i]);
            }
            lemma_insert_group(sd, x);
            let q = insert_group(sd, x);
            assert forall|i: int| 0 <= i < r.len() implies pdf_group(#[trigger] r[i]) by {
                if i < q.len() {
                    assert(r[i] == q[i]);
                } else {
                    assert(r[i] == s[s.len() - 1]);
                }
            }
        } else {
            assert forall|i: int| 0 <= i < r.len() implies pdf_group(#[trigger] r[i]) by {
                if i < s.len() {
                    assert(r[i] == s[i]);
                }
            }
        }
    }
}

proof fn lemma_sort_groups(s: Seq<GroupView>)
    requires
        forall|i: int| 0 <= i < s.len() ==> pdf_group(#[trigger] s[i]),
    ensures
        forall|i: int| 0 <= i < sort_groups(s).len() ==> pdf_group(#[trigger] sort_groups(s)[i]),
    decreases s.len(),
{
    if s.len() > 0 {
        let sd = s.drop_last();
        assert forall|i: int| 0 <= i < sd.len() implies pdf_group(#[trigger] sd[i]) by {
            assert(sd[i] == s[i]);
        }
        lemma_sort_groups(sd);
        lemma_insert_group(sort_groups(sd), s.last());
    }
}

/// In every group of duplicates reported, every member with a PDF comes before every
/// member without one, and the member suggested for keeping has a PDF whenever one of the
/// group's members has.
pub proof fn law_duplicates_prefer_pdfs(items: Seq<Item>, by: DuplicatesBy, limit: nat)
    ensures
        forall|g: int| 0 <= g < duplicate_groups_spec(items, by, limit).len() ==> {
            let group = #[trigger] duplicate_groups_spec(items, by, limit)[g];
            &&& forall|i: int, j: int| 0 <= i < j < group.items.len() && group.items[j].has_pdf ==> group.items[i].has_pdf
            &&& (exists|i: int| 0 <= i < group.items.len() && group.items[i].has_pdf) ==> exists|i: int|
                0 <= i < group.items.len() && group.items[i].has_pdf && group.items[i].key == group.keep_suggestion
        },
{
    let keys = crate::hygiene::first_seen_keys(items, by);
    let q = qualifying_groups(items, by, keys);
    lemma_qualifying(items, by, keys);
    let cap: nat = if limit == 0 {
        1
    } else {
        limit
    };
    let kept = if q.len() <= cap {
        q
    } else {
        q.subrange(0, cap as int)
    };
    assert forall|i: int| 0 <= i < kept.len() implies pdf_group(#[trigger] kept[i]) by {
        assert(kept[i] == q[i]);
    }
    lemma_sort_groups(kept);
    let r = duplicate_groups_spec(items, by, limit);
    assert(r == sort_groups(kept));
    assert forall|g: int| 0 <= g < r.len() implies {
        let group = #[trigger] r[g];
        &&& forall|i: int, j: int| 0 <= i < j < group.items.len() && group.items[j].has_pdf ==> group.items[i].has_pdf
        &&& (exists|i: int| 0 <= i < group.items.len() && group.items[i].has_pdf) ==> exists|i: int|
            0 <= i < group.items.len() && group.items[i].has_pdf && group.items[i].key == group.keep_suggestion
    } by {
        assert(pdf_group(r[g]));
        let group = r[g];
        assert forall|i: int, j: int| 0 <= i < j < group.items.len() && group.items[j].has_pdf implies group.items[i].has_pdf by {
            assert(group.items[j].has_pdf);
        }
    }
}

} // verus!
