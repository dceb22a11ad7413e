//! Static rendering of `{{zotero:KEY}}` placeholders in a document tree: each placeholder
//! becomes its rendered citation text, and a bibliography can follow.

use vstd::prelude::*;

use crate::docx_inspect::{parse_placeholder_keys, placeholder_keys_upto};
use crate::error::DomainError;
use crate::pattern::{
    regex_capture, regex_capture_result, regex_is_match, regex_is_match_result, regex_matches,
    regex_matches_result, regex_split, regex_split_result,
};
use crate::static_render::{combined_citation, combined_citation_spec, RenderedItem};
use crate::select::{keep_marked, mask_filter};
use crate::text::{chars_of, char_is_ws, concat_str, is_ws, push_str, split_char_spec, str_eq, strings_view};
use crate::xml::{
    elem_refs_view, find_all_in, find_first_in, lemma_nodes_view, node_view, nodes_view, run_spec,
    set_attr_spec, tag_matches, text_in, create_run_with_text, XElem, XNode, XmlElement, XmlNode,
};

verus! {

/// The placeholder pattern: `{{ zotero : KEYS }}`, any case, capturing the keys.
pub open spec fn placeholder_pattern() -> Seq<char> {
    "(?i)\\{\\{\\s*zotero\\s*:\\s*([^}]*)\\s*\\}\\}"@
}

/// A rendered placeholder: its text as written, its keys, and the citation it became.
#[derive(Debug)]
pub struct RenderedPlaceholder {
    pub raw: String,
    pub keys: Vec<String>,
    pub citation: String,
}

/// The value of a rendered placeholder.
pub type PlaceholderV = (Seq<char>, Seq<Seq<char>>, Seq<char>);

/// View of rendered placeholders.
pub open spec fn placeholders_view(s: Seq<RenderedPlaceholder>) -> Seq<PlaceholderV> {
    s.map_values(|p: RenderedPlaceholder| (p.raw@, strings_view(p.keys@), p.citation@))
}

/// View of rendered items by key: (key, citation, bibliography).
pub open spec fn items_view(s: Seq<(String, RenderedItem)>) -> Seq<(Seq<char>, Seq<char>, Seq<char>)> {
    s.map_values(|e: (String, RenderedItem)| (e.0@, e.1.citation@, e.1.bibliography@))
}

/// The rendered citation of `key` (the first entry with that key), empty when absent.
#[verifier::opaque]
pub open spec fn citation_of(items: Seq<(Seq<char>, Seq<char>, Seq<char>)>, key: Seq<char>) -> Seq<char> {
    if exists|i: int| 0 <= i < items.len() && #[trigger] items[i].0 == key {
        items[choose|i: int| 0 <= i < items.len() && items[i].0 == key && forall|j: int| 0 <= j < i ==> #[trigger] items[j].0 != key].1
    } else {
        Seq::empty()
    }
}

/// The keys text of a placeholder: its first capture group, empty when absent.
pub open spec fn keys_text(raw: Seq<char>) -> Seq<char> {
    match regex_capture_result(placeholder_pattern(), raw, 1) {
        Some(Some(g)) => g,
        _ => Seq::empty(),
    }
}

/// The keys and invalid parts of a placeholder as written.
pub open spec fn raw_keys(raw: Seq<char>) -> (Seq<Seq<char>>, Seq<Seq<char>>) {
    placeholder_keys_upto(split_char_spec(keys_text(raw), ','), split_char_spec(keys_text(raw), ',').len() as int)
}

/// One placeholder rendered: its citation (the combined citations of its keys), or the error
/// for a placeholder with an invalid part or no key.
#[verifier::opaque]
pub open spec fn render_one(raw: Seq<char>, items: Seq<(Seq<char>, Seq<char>, Seq<char>)>) -> Result<PlaceholderV, Seq<char>> {
    let (keys, invalid) = raw_keys(raw);
    if invalid.len() > 0 || keys.len() == 0 {
        Err("Invalid Zotero placeholder: "@ + raw)
    } else {
        Ok((raw, keys, combined_citation_spec(keys.map_values(|k: Seq<char>| citation_of(items, k)))))
    }
}

/// The placeholders `ms` rendered in order; the first invalid one is the error.
pub open spec fn render_all(ms: Seq<Seq<char>>, items: Seq<(Seq<char>, Seq<char>, Seq<char>)>) -> Result<Seq<PlaceholderV>, Seq<char>>
    decreases ms.len(),
{
    if ms.len() == 0 {
        Ok(Seq::empty())
    } else {
        match render_all(ms.drop_last(), items) {
            Err(m) => Err(m),
            Ok(ps) => match render_one(ms.last(), items) {
                Err(m) => Err(m),
                Ok(p) => Ok(ps.push(p)),
            },
        }
    }
}

/// The `k`th piece between matches (empty past the end).
pub open spec fn piece_at(pieces: Seq<Seq<char>>, k: int) -> Seq<char> {
    if 0 <= k < pieces.len() {
        pieces[k]
    } else {
        Seq::empty()
    }
}

/// The text between the matches with the first `k` matches replaced by their citations.
pub open spec fn interleave(pieces: Seq<Seq<char>>, ps: Seq<PlaceholderV>, k: int) -> Seq<char>
    decreases k,
{
    if k <= 0 {
        piece_at(pieces, 0)
    } else {
        interleave(pieces, ps, k - 1) + ps[k - 1].2 + piece_at(pieces, k)
    }
}

/// A text with every placeholder replaced by its citation, and the rendered placeholders;
/// or the error for the first invalid placeholder.
pub open spec fn expand_text_spec(text: Seq<char>, items: Seq<(Seq<char>, Seq<char>, Seq<char>)>) -> Result<(Seq<char>, Seq<PlaceholderV>), Seq<char>> {
    let ms = match regex_matches_result(placeholder_pattern(), text) {
        Some(ms) => ms,
        None => Seq::empty(),
    };
    let pieces = match regex_split_result(placeholder_pattern(), text) {
        Some(ps) => ps,
        None => seq![text],
    };
    match render_all(ms, items) {
        Err(m) => Err(m),
        Ok(ps) => Ok((interleave(pieces, ps, ps.len() as int), ps)),
    }
}

/// Whether `text` holds a placeholder.
pub open spec fn has_placeholder(text: Seq<char>) -> bool {
    regex_is_match_result(placeholder_pattern(), text) == Some(true)
}

pub fn placeholder_pattern_exec() -> (p: &'static str)
    ensures
        p@ == placeholder_pattern(),
{
    "(?i)\\{\\{\\s*zotero\\s*:\\s*([^}]*)\\s*\\}\\}"
}

proof fn lemma_citation_of_at(items: Seq<(Seq<char>, Seq<char>, Seq<char>)>, i: int, key: Seq<char>)
    requires
        0 <= i < items.len(),
        items[i].0 == key,
        forall|j: int| 0 <= j < i ==> #[trigger] items[j].0 != key,
    ensures
        citation_of(items, key) == items[i].1,
{
    reveal(citation_of);
    let c = choose|c: int| 0 <= c < items.len() && items[c].0 == key && forall|j: int| 0 <= j < c ==> #[trigger] items[j].0 != key;
    assert(c == i) by {
        if c < i {
            assert(items[c].0 != key);
        }
        if c > i {
            assert(items[i].0 != key);
        }
    }
}

proof fn lemma_citation_of_none(items: Seq<(Seq<char>, Seq<char>, Seq<char>)>, key: Seq<char>)
    requires
        forall|j: int| 0 <= j < items.len() ==> #[trigger] items[j].0 != key,
    ensures
        citation_of(items, key) == Seq::<char>::empty(),
{
    reveal(citation_of);
}

fn citation_lookup(items: &Vec<(String, RenderedItem)>, key: &str) -> (r: String)
    ensures
        r@ == citation_of(items_view(items@), key@),
{
    let ghost iv = items_view(items@);
    let mut i: usize = 0;
    while i < items.len()
        invariant
            i <= items@.len(),
            iv == items_view(items@),
            iv.len() == items@.len(),
            forall|j: int| 0 <= j < i ==> #[trigger] iv[j].0 != key@,
        decreases items.len() - i,
    {
        if str_eq(items[i].0.as_str(), key) {
            proof {
                assert(iv[i as int].0 == key@);
                lemma_citation_of_at(iv, i as int, key@);
            }
            return items[i].1.citation.clone();
        }
        i = i + 1;
    }
    proof {
        lemma_citation_of_none(iv, key@);
    }
    String::new()
}

proof fn lemma_interleave_push(pieces: Seq<Seq<char>>, ps: Seq<PlaceholderV>, x: PlaceholderV, k: int)
    requires
        k <= ps.len(),
    ensures
        interleave(pieces, ps.push(x), k) == interleave(pieces, ps, k),
    decreases k,
{
    if k > 0 {
        lemma_interleave_push(pieces, ps, x, k - 1);
        assert(ps.push(x)[k - 1] == ps[k - 1]);
    }
}

fn render_placeholder(raw: &str, items: &Vec<(String, RenderedItem)>) -> (r: Result<RenderedPlaceholder, DomainError>)
    ensures
        match render_one(raw@, items_view(items@)) {
            Ok(p) => r matches Ok(x) && (x.raw@, strings_view(x.keys@), x.citation@) == p,
            Err(m) => r matches Err(e) && e.0@ == m,
        },
{
    proof {
        reveal(render_one);
    }
    let group = match regex_capture(placeholder_pattern_exec(), raw, 1) {
        Some(Some(g)) => g,
        _ => String::new(),
    };
    let (keys, invalid) = parse_placeholder_keys(group.as_str());
    if invalid.len() > 0 || keys.len() == 0 {
        return Err(DomainError::from_string(concat_str("Invalid Zotero placeholder: ", raw)));
    }
    let mut citations: Vec<String> = Vec::new();
    let mut i: usize = 0;
    while i < keys.len()
        invariant
            i <= keys@.len(),
            strings_view(citations@) == strings_view(keys@).subrange(0, i as int).map_values(|k: Seq<char>| citation_of(items_view(items@), k)),
        decreases keys.len() - i,
    {
        let c = citation_lookup(items, keys[i].as_str());
        let ghost before = citations@;
        citations.push(c);
        proof {
            assert(strings_view(citations@) =~= strings_view(before).push(c@));
            assert(strings_view(keys@).subrange(0, i + 1).map_values(|k: Seq<char>| citation_of(items_view(items@), k)) =~= strings_view(keys@).subrange(0, i as int).map_values(|k: Seq<char>| citation_of(items_view(items@), k)).push(citation_of(items_view(items@), keys@[i as int]@)));
        }
        i = i + 1;
    }
    proof {
        assert(strings_view(keys@).subrange(0, keys@.len() as int) =~= strings_view(keys@));
    }
    let citation = combined_citation(&citations);
    Ok(RenderedPlaceholder { raw: raw.to_owned(), keys, citation })
}

/// Replaces every placeholder of `text` by its citation, collecting the rendered placeholders.
pub fn expand_text(text: &str, items: &Vec<(String, RenderedItem)>) -> (r: Result<(String, Vec<RenderedPlaceholder>), DomainError>)
    ensures
        match expand_text_spec(text@, items_view(items@)) {
            Ok((t, ps)) => r matches Ok(x) && x.0@ == t && placeholders_view(x.1@) == ps,
            Err(m) => r matches Err(e) && e.0@ == m,
        },
{
    let ms = match regex_matches(placeholder_pattern_exec(), text) {
        Some(ms) => ms,
        None => Vec::new(),
    };
    let pieces = match regex_split(placeholder_pattern_exec(), text) {
        Some(ps) => ps,
        None => {
            let mut v: Vec<String> = Vec::new();
            v.push(text.to_owned());
            proof {
                assert(strings_view(v@) =~= seq![text@]);
            }
            v
        },
    };
    let ghost msv = strings_view(ms@);
    let ghost pv = strings_view(pieces@);
    proof {
        if regex_matches_result(placeholder_pattern(), text@) is None {
            assert(msv =~= Seq::<Seq<char>>::empty());
        }
        assert(msv == match regex_matches_result(placeholder_pattern(), text@) {
            Some(ms) => ms,
            None => Seq::<Seq<char>>::empty(),
        });
        assert(pv == match regex_split_result(placeholder_pattern(), text@) {
            Some(ps) => ps,
            None => seq![text@],
        });
    }
    let mut out: Vec<RenderedPlaceholder> = Vec::new();
    let mut new_text = if pieces.len() > 0 {
        pieces[0].clone()
    } else {
        String::new()
    };
    proof {
        assert(placeholders_view(out@) =~= Seq::<PlaceholderV>::empty());
    }
    let mut i: usize = 0;
    while i < ms.len()
        invariant
            i <= ms@.len(),
            msv == strings_view(ms@),
            pv == strings_view(pieces@),
            msv == match regex_matches_result(placeholder_pattern(), text@) {
                Some(ms) => ms,
                None => Seq::<Seq<char>>::empty(),
            },
            pv == match regex_split_result(placeholder_pattern(), text@) {
                Some(ps) => ps,
                None => seq![text@],
            },
            render_all(msv.subrange(0, i as int), items_view(items@)) == Ok::<Seq<PlaceholderV>, Seq<char>>(placeholders_view(out@)),
            placeholders_view(out@).len() == i,
            new_text@ == interleave(pv, placeholders_view(out@), i as int),
        decreases ms.len() - i,
    {
        proof {
            assert(msv.subrange(0, i + 1).drop_last() =~= msv.subrange(0, i as int));
            assert(msv.subrange(0, i + 1).last() == ms@[i as int]@);
        }
        let p = match render_placeholder(ms[i].as_str(), items) {
            Ok(p) => p,
            Err(e) => {
                proof {
                    let pre = msv.subrange(0, i + 1);
                    assert(pre.drop_last() =~= msv.subrange(0, i as int));
                    assert(pre.last() == ms@[i as int]@);
                    assert(render_one(ms@[i as int]@, items_view(items@)) == Err::<PlaceholderV, Seq<char>>(e.0@));
                    assert(render_all(pre, items_view(items@)) == Err::<Seq<PlaceholderV>, Seq<char>>(e.0@));
                    lemma_render_all_err_extends(msv, items_view(items@), i + 1);
                    assert(msv.subrange(0, msv.len() as int) =~= msv);
                }
                return Err(e);
            },
        };
        push_str(&mut new_text, p.citation.as_str());
        if i + 1 < pieces.len() {
            push_str(&mut new_text, pieces[i + 1].as_str());
        }
        let ghost before = out@;
        let ghost pview = (p.raw@, strings_view(p.keys@), p.citation@);
        out.push(p);
        proof {
            assert(placeholders_view(out@) =~= placeholders_view(before).push(pview));
            lemma_interleave_push(pv, placeholders_view(before), pview, i as int);
            assert(new_text@ =~= interleave(pv, placeholders_view(out@), i + 1));
        }
        i = i + 1;
    }
    proof {
        assert(msv.subrange(0, msv.len() as int) =~= msv);
    }
    Ok((new_text, out))
}

proof fn lemma_render_all_err_extends(ms: Seq<Seq<char>>, items: Seq<(Seq<char>, Seq<char>, Seq<char>)>, k: int)
    requires
        0 <= k <= ms.len(),
        render_all(ms.subrange(0, k), items) is Err,
    ensures
        render_all(ms, items) == render_all(ms.subrange(0, k), items),
    decreases ms.len() - k,
{
    if k < ms.len() {
        assert(ms.subrange(0, k + 1).drop_last() =~= ms.subrange(0, k));
        lemma_render_all_err_extends(ms, items, k + 1);
    } else {
        assert(ms.subrange(0, k) =~= ms);
    }
}


/// The texts of `es`, concatenated.
pub open spec fn concat_texts(es: Seq<XElem>) -> Seq<char>
    decreases es.len(),
{
    if es.len() == 0 {
        Seq::empty()
    } else {
        concat_texts(es.drop_last()) + text_in(es.last())
    }
}

/// Whether the text of some element of `es` holds a placeholder.
pub open spec fn any_has_placeholder(es: Seq<XElem>) -> bool {
    exists|i: int| 0 <= i < es.len() && has_placeholder(text_in(#[trigger] es[i]))
}

/// Whether a node is a paragraph-properties element.
pub open spec fn is_ppr(n: XNode) -> bool {
    n matches XNode::Element(e) && tag_matches(e.name, "w:pPr"@)
}

/// Text starts or ends with whitespace.
pub open spec fn edge_ws(t: Seq<char>) -> bool {
    t.len() > 0 && (is_ws(t[0]) || is_ws(t.last()))
}

/// The tree rooted at `e` with its placeholders rendered, and the rendered placeholders in
/// document order; or the error for the first invalid placeholder. A `w:t` holding a
/// placeholder gets the rendered text as its only child (preserving edge whitespace); a
/// paragraph whose placeholder is split across runs keeps its properties and gets one run
/// (formatted like its first run) with the rendered text; every other element is rendered
/// child by child.
pub open spec fn replace_elem(e: XElem, items: Seq<(Seq<char>, Seq<char>, Seq<char>)>) -> Result<(XElem, Seq<PlaceholderV>), Seq<char>>
    decreases e, 0int,
{
    if tag_matches(e.name, "w:t"@) && has_placeholder(text_in(e)) {
        match expand_text_spec(text_in(e), items) {
            Err(m) => Err(m),
            Ok((t, ps)) => Ok((
                XElem {
                    name: e.name,
                    attrs: if edge_ws(t) {
                        set_attr_spec(e.attrs, "xml:space"@, "preserve"@)
                    } else {
                        e.attrs
                    },
                    children: seq![XNode::Text(t)],
                },
                ps,
            )),
        }
    } else if tag_matches(e.name, "w:p"@) && !any_has_placeholder(find_all_in(e, "w:t"@))
        && has_placeholder(concat_texts(find_all_in(e, "w:t"@))) {
        match expand_text_spec(concat_texts(find_all_in(e, "w:t"@)), items) {
            Err(m) => Err(m),
            Ok((t, ps)) => Ok((
                XElem {
                    name: e.name,
                    attrs: e.attrs,
                    children: e.children.filter(|n: XNode| is_ppr(n)).push(
                        XNode::Element(run_spec(find_first_in(e, "w:r"@), t)),
                    ),
                },
                ps,
            )),
        }
    } else {
        match replace_nodes(e.children, items) {
            Err(m) => Err(m),
            Ok((cs, ps)) => Ok((XElem { name: e.name, attrs: e.attrs, children: cs }, ps)),
        }
    }
}

/// The nodes `s` with placeholders rendered, in order.
pub open spec fn replace_nodes(s: Seq<XNode>, items: Seq<(Seq<char>, Seq<char>, Seq<char>)>) -> Result<(Seq<XNode>, Seq<PlaceholderV>), Seq<char>>
    decreases s, 1int,
{
    if s.len() == 0 {
        Ok((Seq::empty(), Seq::empty()))
    } else {
        match replace_nodes(s.drop_last(), items) {
            Err(m) => Err(m),
            Ok((ns, ps)) => match s.last() {
                XNode::Element(c) => match replace_elem(c, items) {
                    Err(m) => Err(m),
                    Ok((c2, ps2)) => Ok((ns.push(XNode::Element(c2)), ps + ps2)),
                },
                other => Ok((ns.push(other), ps)),
            },
        }
    }
}

pub fn placeholder_in(text: &str) -> (b: bool)
    ensures
        b == has_placeholder(text@),
{
    match regex_is_match(placeholder_pattern_exec(), text) {
        Some(true) => true,
        _ => false,
    }
}

fn edge_ws_exec(t: &str) -> (b: bool)
    ensures
        b == edge_ws(t@),
{
    let v = chars_of(t);
    v.len() > 0 && (char_is_ws(v[0]) || char_is_ws(v[v.len() - 1]))
}



proof fn lemma_placeholders_view_append(a: Seq<RenderedPlaceholder>, b: Seq<RenderedPlaceholder>)
    ensures
        placeholders_view(a + b) == placeholders_view(a) + placeholders_view(b),
{
    assert(placeholders_view(a + b) =~= placeholders_view(a) + placeholders_view(b));
}

fn render_text_element(e: XmlElement, items: &Vec<(String, RenderedItem)>, text: &str) -> (r: Result<(XmlElement, Vec<RenderedPlaceholder>), DomainError>)
    requires
        tag_matches(e@.name, "w:t"@),
        text@ == text_in(e@),
        has_placeholder(text_in(e@)),
    ensures
        match replace_elem(e@, items_view(items@)) {
            Ok((x, ps)) => r matches Ok(v) && v.0@ == x && placeholders_view(v.1@) == ps,
            Err(m) => r matches Err(err) && err.0@ == m,
        },
{
    let (t, ps) = match expand_text(text, items) {
        Ok(x) => x,
        Err(err) => return Err(err),
    };
    let ghost e0 = e@;
    let mut e = e;
    let ghost tv = t@;
    let ws = edge_ws_exec(t.as_str());
    let mut kids: Vec<XmlNode> = Vec::new();
    kids.push(XmlNode::Text(t));
    e.children = kids;
    proof {
        reveal_with_fuel(nodes_view, 2);
        assert(nodes_view(e.children@) =~= seq![XNode::Text(tv)]);
    }
    if ws {
        e.set_attr("xml:space", "preserve");
    }
    proof {
        assert(e@.name == e0.name);
    }
    Ok((e, ps))
}

fn concat_element_texts(ts: &Vec<&XmlElement>) -> (r: (String, bool))
    ensures
        r.0@ == concat_texts(elem_refs_view(ts@)),
        r.1 == any_has_placeholder(elem_refs_view(ts@)),
{
    let ghost ev = elem_refs_view(ts@);
    let mut out = String::new();
    let mut any = false;
    let mut i: usize = 0;
    while i < ts.len()
        invariant
            i <= ts@.len(),
            ev == elem_refs_view(ts@),
            ev.len() == ts@.len(),
            out@ == concat_texts(ev.subrange(0, i as int)),
            any == exists|j: int| 0 <= j < i && has_placeholder(text_in(#[trigger] ev[j])),
        decreases ts.len() - i,
    {
        let t = ts[i].iter_text();
        let hit = placeholder_in(t.as_str());
        proof {
            assert(ev[i as int] == ts@[i as int]@);
            assert(ev.subrange(0, i + 1).drop_last() =~= ev.subrange(0, i as int));
            assert(ev.subrange(0, i + 1).last() == ev[i as int]);
            if hit {
                assert(has_placeholder(text_in(ev[i as int])));
            }
        }
        push_str(&mut out, t.as_str());
        any = any || hit;
        i = i + 1;
    }
    proof {
        assert(ev.subrange(0, ev.len() as int) =~= ev);
    }
    (out, any)
}

fn keep_paragraph_properties(children: Vec<XmlNode>) -> (r: Vec<XmlNode>)
    ensures
        nodes_view(r@) == nodes_view(children@).filter(|n: XNode| is_ppr(n)),
{
    proof {
        lemma_nodes_view(children@);
    }
    let mut keep: Vec<bool> = Vec::new();
    let mut i: usize = 0;
    while i < children.len()
        invariant
            i <= children@.len(),
            keep@.len() == i,
            nodes_view(children@).len() == children@.len(),
            forall|k: int| 0 <= k < children@.len() ==> #[trigger] nodes_view(children@)[k] == node_view(children@[k]),
            forall|j: int| 0 <= j < i ==> keep@[j] == is_ppr(#[trigger] nodes_view(children@)[j]),
        decreases children.len() - i,
    {
        let k = match &children[i] {
            XmlNode::Element(el) => el.matches_tag("w:pPr"),
            _ => false,
        };
        keep.push(k);
        i = i + 1;
    }
    let ghost all = children@;
    let kept = keep_marked(children, &keep);
    proof {
        lemma_nodes_mask(all, keep@);
        crate::select::lemma_mask_filter(nodes_view(all), keep@, |n: XNode| is_ppr(n));
    }
    kept
}

pub proof fn lemma_nodes_view_push(s: Seq<XmlNode>, n: XmlNode)
    ensures
        nodes_view(s.push(n)) == nodes_view(s).push(node_view(n)),
{
    assert(s.push(n).drop_last() =~= s);
}

proof fn lemma_nodes_mask(s: Seq<XmlNode>, m: Seq<bool>)
    requires
        m.len() >= s.len(),
    ensures
        nodes_view(mask_filter(s, m)) == mask_filter(nodes_view(s), m),
    decreases s.len(),
{
    if s.len() > 0 {
        lemma_nodes_mask(s.drop_last(), m);
        lemma_nodes_view(s);
        assert(nodes_view(s).drop_last() =~= nodes_view(s.drop_last()));
        if m[s.len() - 1] {
            lemma_nodes_view_push(mask_filter(s.drop_last(), m), s.last());
        }
    } else {
        assert(nodes_view(s) =~= Seq::<XNode>::empty());
    }
}

fn render_split_paragraph(e: XmlElement, items: &Vec<(String, RenderedItem)>, text: &str) -> (r: Result<(XmlElement, Vec<RenderedPlaceholder>), DomainError>)
    requires
        tag_matches(e@.name, "w:p"@),
        text@ == concat_texts(find_all_in(e@, "w:t"@)),
        !(tag_matches(e@.name, "w:t"@) && has_placeholder(text_in(e@))),
        !any_has_placeholder(find_all_in(e@, "w:t"@)),
        has_placeholder(concat_texts(find_all_in(e@, "w:t"@))),
    ensures
        match replace_elem(e@, items_view(items@)) {
            Ok((x, ps)) => r matches Ok(v) && v.0@ == x && placeholders_view(v.1@) == ps,
            Err(m) => r matches Err(err) && err.0@ == m,
        },
{
    let (t, ps) = match expand_text(text, items) {
        Ok(x) => x,
        Err(err) => return Err(err),
    };
    let template = match e.find_first("w:r") {
        Some(r) => Some(r.deep_clone()),
        None => None,
    };
    let run = match &template {
        Some(r) => create_run_with_text(Some(r), t.as_str()),
        None => create_run_with_text(None, t.as_str()),
    };
    let ghost e0 = e@;
    let XmlElement { name, attributes, children } = e;
    let kept = keep_paragraph_properties(children);
    let mut out = XmlElement { name, attributes, children: kept };
    out.add_element(run);
    proof {
        assert(out@.children =~= e0.children.filter(|n: XNode| is_ppr(n)).push(XNode::Element(run_spec(find_first_in(e0, "w:r"@), t@))));
    }
    Ok((out, ps))
}

/// Renders the placeholders of the tree rooted at `e`.
fn replace_owned(e: XmlElement, items: &Vec<(String, RenderedItem)>) -> (r: Result<(XmlElement, Vec<RenderedPlaceholder>), DomainError>)
    ensures
        match replace_elem(e@, items_view(items@)) {
            Ok((x, ps)) => r matches Ok(v) && v.0@ == x && placeholders_view(v.1@) == ps,
            Err(m) => r matches Err(err) && err.0@ == m,
        },
    decreases e, 0int,
{
    if e.matches_tag("w:t") {
        let text = e.iter_text();
        if placeholder_in(text.as_str()) {
            return render_text_element(e, items, text.as_str());
        }
    }
    if e.matches_tag("w:p") {
        let ts = e.find_all("w:t");
        let (p_text, individual) = concat_element_texts(&ts);
        if !individual && placeholder_in(p_text.as_str()) {
            return render_split_paragraph(e, items, p_text.as_str());
        }
    }
    let ghost e0 = e@;
    let ghost ev = e;
    let XmlElement { name, attributes, children } = e;
    assert(decreases_to!(ev => children));
    let (kids, ps) = match replace_children(children, items) {
        Ok(x) => x,
        Err(err) => return Err(err),
    };
    Ok((XmlElement { name, attributes, children: kids }, ps))
}

/// Renders the placeholders of the nodes `children`, in order.
#[verifier::loop_isolation(false)]
fn replace_children(children: Vec<XmlNode>, items: &Vec<(String, RenderedItem)>) -> (r: Result<(Vec<XmlNode>, Vec<RenderedPlaceholder>), DomainError>)
    ensures
        match replace_nodes(nodes_view(children@), items_view(items@)) {
            Ok((ns, ps)) => r matches Ok(v) && nodes_view(v.0@) == ns && placeholders_view(v.1@) == ps,
            Err(m) => r matches Err(err) && err.0@ == m,
        },
    decreases children, 1int,
{
    let ghost orig = children;
    let ghost cv = nodes_view(children@);
    proof {
        lemma_nodes_view(children@);
    }
    let mut rest = children;
    let mut out: Vec<XmlNode> = Vec::new();
    let mut ps: Vec<RenderedPlaceholder> = Vec::new();
    let n = rest.len();
    let mut i: usize = 0;
    proof {
        assert(nodes_view(out@) =~= Seq::<XNode>::empty());
        assert(placeholders_view(ps@) =~= Seq::<PlaceholderV>::empty());
        assert(cv.subrange(0, 0) =~= Seq::<XNode>::empty());
        assert(rest@ =~= orig@.subrange(0, n as int));
    }
    while i < n
        invariant
            n == orig@.len(),
            i <= n,
            cv == nodes_view(orig@),
            cv.len() == orig@.len(),
            forall|k: int| 0 <= k < orig@.len() ==> #[trigger] cv[k] == node_view(orig@[k]),
            rest@ == orig@.subrange(i as int, n as int),
            replace_nodes(cv.subrange(0, i as int), items_view(items@)) == Ok::<(Seq<XNode>, Seq<PlaceholderV>), Seq<char>>((nodes_view(out@), placeholders_view(ps@))),
        decreases n - i,
    {
        proof {
            assert(cv.subrange(0, i + 1).drop_last() =~= cv.subrange(0, i as int));
            assert(cv.subrange(0, i + 1).last() == cv[i as int]);
            assert(rest@[0] == orig@[i as int]);
        }
        let node = rest.remove(0);
        let ghost nd = orig@[i as int];
        proof {
            assert(rest@ =~= orig@.subrange(i + 1, n as int));
            assert(node == nd);
        }
        match node {
            XmlNode::Element(c) => {
                assert(decreases_to!(orig => orig@));
                assert(decreases_to!(orig@ => orig@[i as int]));
                assert(nd == XmlNode::Element(c));
                assert(decreases_to!(nd => c));
                let (c2, mut ps2) = match replace_owned(c, items) {
                    Ok(x) => x,
                    Err(err) => {
                        proof {
                            assert(replace_nodes(cv.subrange(0, i + 1), items_view(items@)) == Err::<(Seq<XNode>, Seq<PlaceholderV>), Seq<char>>(err.0@));
                            lemma_replace_nodes_err_extends(cv, items_view(items@), i + 1);
                            assert(cv.subrange(0, cv.len() as int) =~= cv);
                        }
                        return Err(err);
                    },
                };
                let ghost before = out@;
                let ghost ps_before = ps@;
                let ghost ps2v = ps2@;
                let ghost cn = XmlNode::Element(c2);
                out.push(XmlNode::Element(c2));
                ps.append(&mut ps2);
                proof {
                    lemma_nodes_view_push(before, cn);
                    lemma_placeholders_view_append(ps_before, ps2v);
                }
            },
            other => {
                let ghost before = out@;
                let ghost on = other;
                out.push(other);
                proof {
                    lemma_nodes_view_push(before, on);
                }
            },
        }
        i = i + 1;
    }
    proof {
        assert(cv.subrange(0, n as int) =~= cv);
    }
    Ok((out, ps))
}

proof fn lemma_replace_nodes_err_extends(s: Seq<XNode>, items: Seq<(Seq<char>, Seq<char>, Seq<char>)>, k: int)
    requires
        0 <= k <= s.len(),
        replace_nodes(s.subrange(0, k), items) is Err,
    ensures
        replace_nodes(s, items) == replace_nodes(s.subrange(0, k), items),
    decreases s.len() - k,
{
    if k < s.len() {
        assert(s.subrange(0, k + 1).drop_last() =~= s.subrange(0, k));
        lemma_replace_nodes_err_extends(s, items, k + 1);
    } else {
        assert(s.subrange(0, k) =~= s);
    }
}

/// Replaces the `{{zotero:...}}` placeholders of a document tree by the rendered citations
/// of their keys (`rendered_items` by item key), appending each rendered placeholder to
/// `rendered_placeholders` in document order. A placeholder with an invalid part or no key
/// is an error, and the tree is then left in an unspecified state.
pub fn replace_placeholders_in_element(
    elem: &mut XmlElement,
    rendered_items: &Vec<(String, RenderedItem)>,
    rendered_placeholders: &mut Vec<RenderedPlaceholder>,
) -> (r: Result<(), DomainError>)
    ensures
        match replace_elem(old(elem)@, items_view(rendered_items@)) {
            Ok((x, ps)) => r is Ok && final(elem)@ == x && placeholders_view(final(rendered_placeholders)@)
                == placeholders_view(old(rendered_placeholders)@) + ps,
            Err(m) => r matches Err(err) && err.0@ == m,
        },
{
    let mut taken = XmlElement::new("");
    std::mem::swap(&mut taken, elem);
    match replace_owned(taken, rendered_items) {
        Ok((x, mut ps)) => {
            *elem = x;
            let ghost before = rendered_placeholders@;
            let ghost psv = ps@;
            rendered_placeholders.append(&mut ps);
            proof {
                lemma_placeholders_view_append(before, psv);
            }
            Ok(())
        },
        Err(err) => Err(err),
    }
}


/// A bibliography entry: an item key and its rendered bibliography text.
#[derive(Debug)]
pub struct BibliographyEntry {
    pub key: String,
    pub bibliography: String,
}

/// The keys of the rendered placeholders `ps`, concatenated in order.
pub open spec fn all_keys(ps: Seq<PlaceholderV>) -> Seq<Seq<char>>
    decreases ps.len(),
{
    if ps.len() == 0 {
        Seq::empty()
    } else {
        all_keys(ps.drop_last()) + ps.last().1
    }
}

/// The first-seen keys that have a rendered item with a non-empty bibliography, as
/// (key, bibliography), in order.
pub open spec fn bibliography_of(keys: Seq<Seq<char>>, items: Seq<(Seq<char>, Seq<char>, Seq<char>)>) -> Seq<(Seq<char>, Seq<char>)>
    decreases keys.len(),
{
    if keys.len() == 0 {
        Seq::empty()
    } else {
        let prefix = bibliography_of(keys.drop_last(), items);
        let k = keys.last();
        match bibliography_text(items, k) {
            Some(b) => if b.len() != 0 {
                prefix.push((k, b))
            } else {
                prefix
            },
            None => prefix,
        }
    }
}

/// The rendered bibliography of `key` (the first entry with that key), if any.
#[verifier::opaque]
pub open spec fn bibliography_text(items: Seq<(Seq<char>, Seq<char>, Seq<char>)>, key: Seq<char>) -> Option<Seq<char>> {
    if exists|i: int| 0 <= i < items.len() && #[trigger] items[i].0 == key {
        Some(items[choose|i: int| 0 <= i < items.len() && items[i].0 == key && forall|j: int| 0 <= j < i ==> #[trigger] items[j].0 != key].2)
    } else {
        None
    }
}

/// View of bibliography entries.
pub open spec fn entries_of(v: Seq<BibliographyEntry>) -> Seq<(Seq<char>, Seq<char>)> {
    v.map_values(|e: BibliographyEntry| (e.key@, e.bibliography@))
}

proof fn lemma_bibliography_text_at(items: Seq<(Seq<char>, Seq<char>, Seq<char>)>, i: int, key: Seq<char>)
    requires
        0 <= i < items.len(),
        items[i].0 == key,
        forall|j: int| 0 <= j < i ==> #[trigger] items[j].0 != key,
    ensures
        bibliography_text(items, key) == Some(items[i].2),
{
    reveal(bibliography_text);
    let c = choose|c: int| 0 <= c < items.len() && items[c].0 == key && forall|j: int| 0 <= j < c ==> #[trigger] items[j].0 != key;
    assert(c == i) by {
        if c < i {
            assert(items[c].0 != key);
        }
        if c > i {
            assert(items[i].0 != key);
        }
    }
}

proof fn lemma_bibliography_text_none(items: Seq<(Seq<char>, Seq<char>, Seq<char>)>, key: Seq<char>)
    requires
        forall|j: int| 0 <= j < items.len() ==> #[trigger] items[j].0 != key,
    ensures
        bibliography_text(items, key) is None,
{
    reveal(bibliography_text);
}

fn bibliography_lookup(items: &Vec<(String, RenderedItem)>, key: &str) -> (r: Option<String>)
    ensures
        match bibliography_text(items_view(items@), key@) {
            Some(b) => r matches Some(x) && x@ == b,
            None => r is None,
        },
{
    let ghost iv = items_view(items@);
    let mut i: usize = 0;
    while i < items.len()
        invariant
            i <= items@.len(),
            iv == items_view(items@),
            iv.len() == items@.len(),
            forall|j: int| 0 <= j < i ==> #[trigger] iv[j].0 != key@,
        decreases items.len() - i,
    {
        if str_eq(items[i].0.as_str(), key) {
            proof {
                assert(iv[i as int].0 == key@);
                lemma_bibliography_text_at(iv, i as int, key@);
            }
            return Some(items[i].1.bibliography.clone());
        }
        i = i + 1;
    }
    proof {
        lemma_bibliography_text_none(iv, key@);
    }
    None
}

fn cited_keys(rendered_placeholders: &Vec<RenderedPlaceholder>) -> (keys: Vec<String>)
    ensures
        strings_view(keys@) == crate::docx_inspect::unique_in_order(all_keys(placeholders_view(rendered_placeholders@))),
{
    let ghost pv = placeholders_view(rendered_placeholders@);
    let mut keys: Vec<String> = Vec::new();
    let mut i: usize = 0;
    proof {
        assert(strings_view(keys@) =~= Seq::<Seq<char>>::empty());
    }
    while i < rendered_placeholders.len()
        invariant
            i <= rendered_placeholders@.len(),
            pv == placeholders_view(rendered_placeholders@),
            strings_view(keys@) == crate::docx_inspect::unique_from(Seq::empty(), all_keys(pv.subrange(0, i as int))),
        decreases rendered_placeholders.len() - i,
    {
        let ks = &rendered_placeholders[i].keys;
        let mut j: usize = 0;
        let ghost base = all_keys(pv.subrange(0, i as int));
        proof {
            assert(pv.subrange(0, i + 1).drop_last() =~= pv.subrange(0, i as int));
            assert(pv[i as int].1 == strings_view(ks@));
            assert(base + strings_view(ks@).subrange(0, 0) =~= base);
        }
        while j < ks.len()
            invariant
                j <= ks@.len(),
                strings_view(keys@) == crate::docx_inspect::unique_from(Seq::empty(), base + strings_view(ks@).subrange(0, j as int)),
            decreases ks.len() - j,
        {
            proof {
                let ext = base + strings_view(ks@).subrange(0, j + 1);
                assert(ext.drop_last() =~= base + strings_view(ks@).subrange(0, j as int));
                assert(ext.last() == ks@[j as int]@);
            }
            if !crate::text::strings_contains(&keys, ks[j].as_str()) {
                let ghost before = keys@;
                keys.push(ks[j].clone());
                proof {
                    assert(strings_view(keys@) =~= strings_view(before).push(ks@[j as int]@));
                }
            }
            j = j + 1;
        }
        proof {
            assert(strings_view(ks@).subrange(0, ks@.len() as int) =~= strings_view(ks@));
            assert(all_keys(pv.subrange(0, i + 1)) == base + strings_view(ks@));
        }
        i = i + 1;
    }
    proof {
        assert(pv.subrange(0, pv.len() as int) =~= pv);
        crate::docx_inspect::lemma_unique_from_empty(all_keys(pv));
    }
    keys
}

pub fn build_bibliography_entries(rendered_items: &Vec<(String, RenderedItem)>, rendered_placeholders: &Vec<RenderedPlaceholder>) -> (r: Vec<BibliographyEntry>)
    ensures
        entries_of(r@) == bibliography_of(
            crate::docx_inspect::unique_in_order(all_keys(placeholders_view(rendered_placeholders@))),
            items_view(rendered_items@),
        ),
{
    let keys = cited_keys(rendered_placeholders);
    let ghost kv = strings_view(keys@);
    let mut out: Vec<BibliographyEntry> = Vec::new();
    let mut k: usize = 0;
    proof {
        assert(entries_of(out@) =~= Seq::<(Seq<char>, Seq<char>)>::empty());
    }
    while k < keys.len()
        invariant
            k <= keys@.len(),
            kv == strings_view(keys@),
            entries_of(out@) == bibliography_of(kv.subrange(0, k as int), items_view(rendered_items@)),
        decreases keys.len() - k,
    {
        proof {
            assert(kv.subrange(0, k + 1).drop_last() =~= kv.subrange(0, k as int));
            assert(kv.subrange(0, k + 1).last() == keys@[k as int]@);
        }
        match bibliography_lookup(rendered_items, keys[k].as_str()) {
            Some(b) => {
                if !crate::text::str_is_empty(b.as_str()) {
                    let ghost before = out@;
                    let e = BibliographyEntry { key: keys[k].clone(), bibliography: b };
                    let ghost ev = (e.key@, e.bibliography@);
                    out.push(e);
                    proof {
                        assert(entries_of(out@) =~= entries_of(before).push(ev));
                    }
                }
            },
            None => {},
        }
        k = k + 1;
    }
    proof {
        assert(kv.subrange(0, kv.len() as int) =~= kv);
    }
    out
}

} // verus!
