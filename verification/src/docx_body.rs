//! Adding a bibliography to a document's body: after an existing references heading, or
//! under a new `References` heading placed before the section properties.

use vstd::prelude::*;

use crate::docx_render::{entries_of, BibliographyEntry};
use crate::error::DomainError;
use crate::text::{concat_str, lowercase, str_eq, string_from_range, to_lowercase, trim, trim_str, chars_of};
use crate::xml::{
    create_hyperlink_node, create_paragraph_with_text, hyperlink_spec, lemma_nodes_view, node_view,
    nodes_view, run_spec, tag_matches, text_in, XElem, XNode, XmlElement, XmlNode,
};

verus! {

/// Paragraph texts (trimmed, lower-cased) that head a references section.
pub open spec fn is_heading_text(t: Seq<char>) -> bool {
    t == "references"@ || t == "bibliography"@ || t == "works cited"@ || t == "参考文献"@ || t == "參考文獻"@
}

/// A paragraph that heads a references section.
pub open spec fn is_heading(n: XNode) -> bool {
    n matches XNode::Element(e) && tag_matches(e.name, "w:p"@) && is_heading_text(lowercase(trim(text_in(e))))
}

/// The section-properties element.
pub open spec fn is_sect(n: XNode) -> bool {
    n matches XNode::Element(e) && tag_matches(e.name, "w:sectPr"@)
}

/// The position of the first references heading among `s`.
pub open spec fn heading_at(s: Seq<XNode>) -> Option<int> {
    if exists|i: int| 0 <= i < s.len() && is_heading(#[trigger] s[i]) {
        Some(choose|i: int| 0 <= i < s.len() && is_heading(s[i]) && forall|j: int| 0 <= j < i ==> !is_heading(#[trigger] s[j]))
    } else {
        None
    }
}

/// The position of the first section-properties element among `s`.
pub open spec fn sect_at(s: Seq<XNode>) -> Option<int> {
    if exists|i: int| 0 <= i < s.len() && is_sect(#[trigger] s[i]) {
        Some(choose|i: int| 0 <= i < s.len() && is_sect(s[i]) && forall|j: int| 0 <= j < i ==> !is_sect(#[trigger] s[j]))
    } else {
        None
    }
}

/// A plain paragraph with `text`.
pub open spec fn paragraph_spec(text: Seq<char>) -> XElem {
    XElem { name: seq!['w', ':', 'p'], attrs: Seq::empty(), children: seq![XNode::Element(run_spec(None, text))] }
}

/// Where the bibliography goes: after the heading; else before the section properties;
/// else at the end.
pub open spec fn bib_split(s: Seq<XNode>) -> int {
    match heading_at(s) {
        Some(i) => i + 1,
        None => match sect_at(s) {
            Some(p) => p,
            None => s.len() as int,
        },
    }
}

/// The body's children with `paras` added after the references heading, or after a new
/// `References` heading when there is none.
pub open spec fn with_bibliography(s: Seq<XNode>, paras: Seq<XNode>) -> Seq<XNode> {
    let k = bib_split(s);
    s.subrange(0, k) + (if heading_at(s) is None {
        seq![XNode::Element(paragraph_spec("References"@))]
    } else {
        Seq::empty()
    }) + paras + s.subrange(k, s.len() as int)
}

/// The tree with the first `w:body` (in document order) given the bibliography, and
/// whether that body already had a heading; nothing when there is no body.
pub open spec fn edit_first_body(e: XElem, paras: Seq<XNode>) -> Option<(XElem, bool)>
    decreases e, 0int,
{
    if tag_matches(e.name, "w:body"@) {
        Some((XElem { children: with_bibliography(e.children, paras), ..e }, heading_at(e.children) is Some))
    } else {
        match edit_first_body_nodes(e.children, paras) {
            Some((cs, h)) => Some((XElem { children: cs, ..e }, h)),
            None => None,
        }
    }
}

/// The nodes with the first body among them given the bibliography.
pub open spec fn edit_first_body_nodes(s: Seq<XNode>, paras: Seq<XNode>) -> Option<(Seq<XNode>, bool)>
    decreases s, 1int,
{
    if s.len() == 0 {
        None
    } else {
        match edit_first_body_nodes(s.drop_last(), paras) {
            Some((p, h)) => Some((p.push(s.last()), h)),
            None => match s.last() {
                XNode::Element(c) => match edit_first_body(c, paras) {
                    Some((c2, h)) => Some((s.drop_last().push(XNode::Element(c2)), h)),
                    None => None,
                },
                _ => None,
            },
        }
    }
}

/// View of paragraphs as nodes.
pub open spec fn paras_view(v: Seq<XmlElement>) -> Seq<XNode> {
    v.map_values(|p: XmlElement| XNode::Element(p@))
}

fn is_heading_exec(n: &XmlNode) -> (b: bool)
    ensures
        b == is_heading(node_view(*n)),
{
    match n {
        XmlNode::Element(el) => {
            if !el.matches_tag("w:p") {
                return false;
            }
            let t = el.iter_text();
            let tt = trim_str(t.as_str());
            let low = to_lowercase(tt.as_str());
            let s = low.as_str();
            str_eq(s, "references") || str_eq(s, "bibliography") || str_eq(s, "works cited") || str_eq(s, "参考文献")
                || str_eq(s, "參考文獻")
        },
        _ => false,
    }
}

fn is_sect_exec(n: &XmlNode) -> (b: bool)
    ensures
        b == is_sect(node_view(*n)),
{
    match n {
        XmlNode::Element(el) => el.matches_tag("w:sectPr"),
        _ => false,
    }
}

fn heading_position(children: &Vec<XmlNode>) -> (r: Option<usize>)
    ensures
        match r {
            Some(i) => heading_at(nodes_view(children@)) == Some(i as int) && i < children@.len(),
            None => heading_at(nodes_view(children@)) is None,
        },
{
    let ghost cv = nodes_view(children@);
    proof {
        lemma_nodes_view(children@);
    }
    let mut i: usize = 0;
    while i < children.len()
        invariant
            i <= children@.len(),
            cv == nodes_view(children@),
            cv.len() == children@.len(),
            forall|k: int| 0 <= k < children@.len() ==> #[trigger] cv[k] == node_view(children@[k]),
            forall|j: int| 0 <= j < i ==> !is_heading(#[trigger] cv[j]),
        decreases children.len() - i,
    {
        if is_heading_exec(&children[i]) {
            proof {
                let c = choose|c: int| 0 <= c < cv.len() && is_heading(cv[c]) && forall|j: int| 0 <= j < c ==> !is_heading(#[trigger] cv[j]);
                assert(is_heading(cv[i as int]));
                assert(c == i) by {
                    if c < i {
                        assert(!is_heading(cv[c]));
                    }
                    if c > i {
                        assert(!is_heading(cv[i as int]));
                    }
                }
            }
            return Some(i);
        }
        i = i + 1;
    }
    None
}

fn sect_position(children: &Vec<XmlNode>) -> (r: Option<usize>)
    ensures
        match r {
            Some(i) => sect_at(nodes_view(children@)) == Some(i as int) && i < children@.len(),
            None => sect_at(nodes_view(children@)) is None,
        },
{
    let ghost cv = nodes_view(children@);
    proof {
        lemma_nodes_view(children@);
    }
    let mut i: usize = 0;
    while i < children.len()
        invariant
            i <= children@.len(),
            cv == nodes_view(children@),
            cv.len() == children@.len(),
            forall|k: int| 0 <= k < children@.len() ==> #[trigger] cv[k] == node_view(children@[k]),
            forall|j: int| 0 <= j < i ==> !is_sect(#[trigger] cv[j]),
        decreases children.len() - i,
    {
        if is_sect_exec(&children[i]) {
            proof {
                let c = choose|c: int| 0 <= c < cv.len() && is_sect(cv[c]) && forall|j: int| 0 <= j < c ==> !is_sect(#[trigger] cv[j]);
                assert(is_sect(cv[i as int]));
                assert(c == i) by {
                    if c < i {
                        assert(!is_sect(cv[c]));
                    }
                    if c > i {
                        assert(!is_sect(cv[i as int]));
                    }
                }
            }
            return Some(i);
        }
        i = i + 1;
    }
    None
}

proof fn lemma_nodes_view_push(s: Seq<XmlNode>, n: XmlNode)
    ensures
        nodes_view(s.push(n)) == nodes_view(s).push(node_view(n)),
{
    assert(s.push(n).drop_last() =~= s);
}

/// Moves the first `k` nodes of `src` to the end of `out`.
fn move_nodes(src: &mut Vec<XmlNode>, out: &mut Vec<XmlNode>, k: usize)
    requires
        k <= old(src)@.len(),
    ensures
        final(src)@ == old(src)@.subrange(k as int, old(src)@.len() as int),
        nodes_view(final(out)@) == nodes_view(old(out)@) + nodes_view(old(src)@.subrange(0, k as int)),
{
    let ghost s0 = src@;
    let ghost o0 = out@;
    let mut i: usize = 0;
    while i < k
        invariant
            i <= k,
            k <= s0.len(),
            src@ == s0.subrange(i as int, s0.len() as int),
            nodes_view(out@) == nodes_view(o0) + nodes_view(s0.subrange(0, i as int)),
        decreases k - i,
    {
        proof {
            assert(src@[0] == s0[i as int]);
        }
        let n = src.remove(0);
        let ghost before = out@;
        out.push(n);
        proof {
            lemma_nodes_view_push(before, n);
            lemma_nodes_view_push(s0.subrange(0, i as int), n);
            assert(s0.subrange(0, i + 1) =~= s0.subrange(0, i as int).push(n));
            assert(src@ =~= s0.subrange(i + 1, s0.len() as int));
        }
        i = i + 1;
    }
}

fn bib_position(children: &Vec<XmlNode>) -> (r: (usize, bool))
    ensures
        r.0 as int == bib_split(nodes_view(children@)),
        r.0 <= children@.len(),
        r.1 == (heading_at(nodes_view(children@)) is Some),
{
    let len = children.len();
    proof {
        lemma_nodes_view(children@);
    }
    match heading_position(children) {
        Some(i) => {
            assert(i < len);
            (i + 1, true)
        },
        None => match sect_position(children) {
            Some(p) => (p, false),
            None => (len, false),
        },
    }
}

#[verifier::rlimit(40)]
fn add_bibliography(children: Vec<XmlNode>, paras: &Vec<XmlElement>) -> (r: (Vec<XmlNode>, bool))
    ensures
        nodes_view(r.0@) == with_bibliography(nodes_view(children@), paras_view(paras@)),
        r.1 == (heading_at(nodes_view(children@)) is Some),
{
    let ghost cv = nodes_view(children@);
    proof {
        lemma_nodes_view(children@);
    }
    let (k, has_heading) = bib_position(&children);
    let mut src = children;
    let ghost s0 = src@;
    let mut out: Vec<XmlNode> = Vec::new();
    proof {
        assert(nodes_view(out@) =~= Seq::<XNode>::empty());
    }
    move_nodes(&mut src, &mut out, k);
    proof {
        assert(nodes_view(s0.subrange(0, k as int)) =~= cv.subrange(0, k as int)) by {
            lemma_nodes_view(s0.subrange(0, k as int));
        }
    }
    let ghost mid = nodes_view(out@);
    if !has_heading {
        let h = create_paragraph_with_text("References");
        let ghost hn = XmlNode::Element(h);
        let ghost before = out@;
        out.push(XmlNode::Element(h));
        proof {
            lemma_nodes_view_push(before, hn);
        }
    }
    let ghost with_heading = nodes_view(out@);
    let mut j: usize = 0;
    while j < paras.len()
        invariant
            j <= paras@.len(),
            nodes_view(out@) == with_heading + paras_view(paras@).subrange(0, j as int),
        decreases paras.len() - j,
    {
        let c = paras[j].deep_clone();
        let ghost cn = XmlNode::Element(c);
        let ghost before = out@;
        out.push(XmlNode::Element(c));
        proof {
            lemma_nodes_view_push(before, cn);
            assert(paras_view(paras@).subrange(0, j + 1) =~= paras_view(paras@).subrange(0, j as int).push(XNode::Element(paras@[j as int]@)));
        }
        j = j + 1;
    }
    let ghost with_paras = nodes_view(out@);
    let rest_len = src.len();
    let ghost rest = src@;
    move_nodes(&mut src, &mut out, rest_len);
    proof {
        assert(paras_view(paras@).subrange(0, paras@.len() as int) =~= paras_view(paras@));
        assert(rest.subrange(0, rest.len() as int) =~= rest);
        assert(nodes_view(rest) =~= cv.subrange(k as int, cv.len() as int)) by {
            lemma_nodes_view(rest);
        }
        reveal_strlit("References");
        let hd: Seq<XNode> = if heading_at(cv) is None {
            seq![XNode::Element(paragraph_spec("References"@))]
        } else {
            Seq::empty()
        };
        assert(mid == cv.subrange(0, k as int));
        assert(with_heading =~= mid + hd);
        assert(with_paras =~= mid + hd + paras_view(paras@));
        assert(nodes_view(out@) =~= with_paras + cv.subrange(k as int, cv.len() as int));
        assert(nodes_view(out@) =~= with_bibliography(cv, paras_view(paras@)));
    }
    (out, has_heading)
}

fn edit_first_body_exec(e: XmlElement, paras: &Vec<XmlElement>) -> (r: (XmlElement, Option<bool>))
    ensures
        match edit_first_body(e@, paras_view(paras@)) {
            Some((x, h)) => r.0@ == x && r.1 == Some(h),
            None => r.0@ == e@ && r.1 is None,
        },
    decreases e, 0int,
{
    let ghost ev = e;
    let is_body = e.matches_tag("w:body");
    let XmlElement { name, attributes, children } = e;
    if is_body {
        let (kids, h) = add_bibliography(children, paras);
        return (XmlElement { name, attributes, children: kids }, Some(h));
    }
    assert(decreases_to!(ev => children));
    let (kids, found) = edit_first_body_children(children, paras);
    (XmlElement { name, attributes, children: kids }, found)
}

#[verifier::loop_isolation(false)]
fn edit_first_body_children(children: Vec<XmlNode>, paras: &Vec<XmlElement>) -> (r: (Vec<XmlNode>, Option<bool>))
    ensures
        match edit_first_body_nodes(nodes_view(children@), paras_view(paras@)) {
            Some((x, h)) => nodes_view(r.0@) == x && r.1 == Some(h),
            None => nodes_view(r.0@) == nodes_view(children@) && r.1 is None,
        },
    decreases children, 1int,
{
    let ghost orig = children;
    let ghost cv = nodes_view(children@);
    let ghost pv = paras_view(paras@);
    proof {
        lemma_nodes_view(children@);
    }
    let mut rest = children;
    let n = rest.len();
    let mut out: Vec<XmlNode> = Vec::new();
    let mut found: Option<bool> = None;
    let mut i: usize = 0;
    proof {
        assert(nodes_view(out@) =~= Seq::<XNode>::empty());
        assert(cv.subrange(0, 0) =~= Seq::<XNode>::empty());
        assert(rest@ =~= orig@.subrange(0, n as int));
    }
    while i < n
        invariant
            n == orig@.len(),
            i <= n,
            rest@ == orig@.subrange(i as int, n as int),
            match edit_first_body_nodes(cv.subrange(0, i as int), pv) {
                Some((x, h)) => nodes_view(out@) == x && found == Some(h),
                None => nodes_view(out@) == cv.subrange(0, i as int) && found is None,
            },
        decreases n - i,
    {
        proof {
            assert(cv.subrange(0, i + 1).drop_last() =~= cv.subrange(0, i as int));
            assert(cv.subrange(0, i + 1).last() == cv[i as int]);
            assert(rest@[0] == orig@[i as int]);
        }
        let node = rest.remove(0);
        let ghost nd = orig@[i as int];
        proof {
            assert(rest@ =~= orig@.subrange(i + 1, n as int));
        }
        let ghost before = out@;
        if found.is_some() {
            out.push(node);
            proof {
                lemma_nodes_view_push(before, nd);
            }
        } else {
            match node {
                XmlNode::Element(c) => {
                    assert(decreases_to!(orig => orig@));
                    assert(decreases_to!(orig@ => orig@[i as int]));
                    assert(nd == XmlNode::Element(c));
                    assert(decreases_to!(nd => c));
                    let (c2, f) = edit_first_body_exec(c, paras);
                    let ghost cn = XmlNode::Element(c2);
                    out.push(XmlNode::Element(c2));
                    found = f;
                    proof {
                        lemma_nodes_view_push(before, cn);
                    }
                },
                other => {
                    out.push(other);
                    proof {
                        lemma_nodes_view_push(before, nd);
                    }
                },
            }
        }
        i = i + 1;
    }
    proof {
        assert(cv.subrange(0, n as int) =~= cv);
    }
    (out, found)
}

/// The paragraphs of a static bibliography, one per entry.
pub open spec fn static_paras(entries: Seq<(Seq<char>, Seq<char>)>) -> Seq<XNode> {
    entries.map_values(|e: (Seq<char>, Seq<char>)| XNode::Element(paragraph_spec(e.1)))
}

/// Adds the bibliography entries as plain paragraphs to the first `w:body`: after an
/// existing references heading, else under a new `References` heading placed before the
/// section properties (or at the end). Nothing happens without entries; a document
/// without a body is an error and stays as it was.
pub fn insert_static_bibliography(root: &mut XmlElement, entries: &Vec<BibliographyEntry>) -> (r: Result<(), DomainError>)
    ensures
        entries@.len() == 0 ==> r is Ok && final(root)@ == old(root)@,
        entries@.len() != 0 ==> match edit_first_body(old(root)@, static_paras(entries_of(entries@))) {
            Some((x, _)) => r is Ok && final(root)@ == x,
            None => (r matches Err(e) && e.0@ == "DOCX document.xml has no w:body element."@) && final(root)@ == old(root)@,
        },
{
    if entries.len() == 0 {
        return Ok(());
    }
    let mut paras: Vec<XmlElement> = Vec::new();
    let mut i: usize = 0;
    while i < entries.len()
        invariant
            i <= entries@.len(),
            paras_view(paras@) == static_paras(entries_of(entries@)).subrange(0, i as int),
        decreases entries.len() - i,
    {
        let p = create_paragraph_with_text(entries[i].bibliography.as_str());
        let ghost before = paras@;
        let ghost pn = XNode::Element(p@);
        paras.push(p);
        proof {
            assert(pn == XNode::Element(paragraph_spec(entries@[i as int].bibliography@)));
            assert(static_paras(entries_of(entries@))[i as int] == pn);
            assert(paras_view(paras@) =~= paras_view(before).push(pn));
            assert(paras_view(paras@) =~= static_paras(entries_of(entries@)).subrange(0, i + 1));
        }
        i = i + 1;
    }
    proof {
        assert(static_paras(entries_of(entries@)).subrange(0, entries@.len() as int) =~= static_paras(entries_of(entries@)));
    }
    let mut taken = XmlElement::new("");
    std::mem::swap(&mut taken, root);
    let (edited, found) = edit_first_body_exec(taken, &paras);
    *root = edited;
    match found {
        Some(_) => Ok(()),
        None => Err(DomainError::new("DOCX document.xml has no w:body element.")),
    }
}

/// Where a bibliography placeholder went, and its ids.
#[derive(Debug)]
pub struct BibliographyPlaceholder {
    pub placeholder_id: String,
    pub relationship_id: String,
    pub placement: String,
}

/// The paragraph holding the bibliography placeholder link.
pub open spec fn placeholder_para(rel_id: Seq<char>, placeholder_id: Seq<char>) -> XElem {
    XElem { name: seq!['w', ':', 'p'], attrs: Seq::empty(), children: seq![XNode::Element(hyperlink_spec(rel_id, placeholder_id))] }
}

/// Adds a bibliography placeholder paragraph (a link `rIdZoteroCliBib` + the first sixteen
/// characters of `token` to `ZOTERO_CLI_BIBLIOGRAPHY_` + `token`) to the first `w:body`,
/// placed as a static bibliography would be.
pub fn insert_bibliography_placeholder(root: &mut XmlElement, token: &str) -> (r: Result<BibliographyPlaceholder, DomainError>)
    requires
        token@.len() >= 16,
    ensures
        ({
            let pid = "ZOTERO_CLI_BIBLIOGRAPHY_"@ + token@;
            let rid = "rIdZoteroCliBib"@ + token@.subrange(0, 16);
            match edit_first_body(old(root)@, seq![XNode::Element(placeholder_para(rid, pid))]) {
                Some((x, h)) => r matches Ok(b) && final(root)@ == x && b.placeholder_id@ == pid && b.relationship_id@ == rid
                    && b.placement@ == if h {
                    "after-existing-heading"@
                } else {
                    "appended-heading"@
                },
                None => (r matches Err(e) && e.0@ == "DOCX document.xml has no w:body element."@) && final(root)@ == old(root)@,
            }
        }),
{
    let placeholder_id = concat_str("ZOTERO_CLI_BIBLIOGRAPHY_", token);
    let tv = chars_of(token);
    let head = string_from_range(&tv, 0, 16);
    let relationship_id = concat_str("rIdZoteroCliBib", head.as_str());
    let mut p = XmlElement::new("w:p");
    p.add_element(create_hyperlink_node(relationship_id.as_str(), placeholder_id.as_str()));
    proof {
        reveal_strlit("w:p");
        assert(p@ =~= placeholder_para(relationship_id@, placeholder_id@));
    }
    let mut paras: Vec<XmlElement> = Vec::new();
    paras.push(p);
    proof {
        assert(paras_view(paras@) =~= seq![XNode::Element(placeholder_para(relationship_id@, placeholder_id@))]);
    }
    let mut taken = XmlElement::new("");
    std::mem::swap(&mut taken, root);
    let (edited, found) = edit_first_body_exec(taken, &paras);
    *root = edited;
    match found {
        Some(h) => {
            let placement = if h {
                "after-existing-heading".to_owned()
            } else {
                "appended-heading".to_owned()
            };
            Ok(BibliographyPlaceholder { placeholder_id, relationship_id, placement })
        },
        None => Err(DomainError::new("DOCX document.xml has no w:body element.")),
    }
}

} // verus!
