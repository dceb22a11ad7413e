//! In-memory XML element trees for OOXML (`word/document.xml`) documents.
//!
//! An element is viewed as an [`XElem`]: its name, its attributes in order and its
//! children in order, every string taken by its `Seq<char>` view.

use vstd::prelude::*;

use crate::text::{
    chars_eq, chars_of, char_is_ws, concat_chars, ends_with, ends_with_exec, is_ws, lit, push_str,
    push_char, starts_with, starts_with_exec, str_eq, string_from_range, sub_chars, trim,
    trim_bounds,
};

verus! {

/// An XML element: tag name, attributes in document order, and child nodes.
#[derive(Debug)]
pub struct XmlElement {
    pub name: String,
    pub attributes: Vec<(String, String)>,
    pub children: Vec<XmlNode>,
}

/// A child of an element.
#[derive(Debug)]
pub enum XmlNode {
    Element(XmlElement),
    Text(String),
    Comment(String),
    CData(String),
}

/// The mathematical value of an element.
#[verifier::ext_equal]
pub struct XElem {
    pub name: Seq<char>,
    pub attrs: Seq<(Seq<char>, Seq<char>)>,
    pub children: Seq<XNode>,
}

/// The mathematical value of a child node.
#[verifier::ext_equal]
pub enum XNode {
    Element(XElem),
    Text(Seq<char>),
    Comment(Seq<char>),
    CData(Seq<char>),
}

/// View of an attribute list.
pub open spec fn attrs_view(a: Seq<(String, String)>) -> Seq<(Seq<char>, Seq<char>)> {
    a.map_values(|p: (String, String)| (p.0@, p.1@))
}

/// View of an element.
pub open spec fn elem_view(e: XmlElement) -> XElem
    decreases e, 0int,
{
    XElem { name: e.name@, attrs: attrs_view(e.attributes@), children: nodes_view(e.children@) }
}

/// View of a sequence of nodes.
pub open spec fn nodes_view(s: Seq<XmlNode>) -> Seq<XNode>
    decreases s, 1int,
{
    if s.len() == 0 {
        Seq::empty()
    } else {
        nodes_view(s.drop_last()).push(node_view(s.last()))
    }
}

/// View of a node.
pub open spec fn node_view(n: XmlNode) -> XNode
    decreases n, 2int,
{
    match n {
        XmlNode::Element(e) => XNode::Element(elem_view(e)),
        XmlNode::Text(t) => XNode::Text(t@),
        XmlNode::Comment(t) => XNode::Comment(t@),
        XmlNode::CData(t) => XNode::CData(t@),
    }
}

impl View for XmlElement {
    type V = XElem;

    open spec fn view(&self) -> XElem {
        elem_view(*self)
    }
}

/// Viewing a pushed attribute list.
pub proof fn lemma_attrs_view_push(a: Seq<(String, String)>, p: (String, String))
    ensures
        attrs_view(a.push(p)) == attrs_view(a).push((p.0@, p.1@)),
{
    assert(attrs_view(a.push(p)) =~= attrs_view(a).push((p.0@, p.1@)));
}

/// Viewing concatenated node lists.
pub proof fn lemma_nodes_view_append(a: Seq<XmlNode>, b: Seq<XmlNode>)
    ensures
        nodes_view(a + b) == nodes_view(a) + nodes_view(b),
{
    lemma_nodes_view(a + b);
    lemma_nodes_view(a);
    lemma_nodes_view(b);
    assert(nodes_view(a + b) =~= nodes_view(a) + nodes_view(b));
}

/// `nodes_view` is pointwise.
pub proof fn lemma_nodes_view(s: Seq<XmlNode>)
    ensures
        nodes_view(s).len() == s.len(),
        forall|i: int| 0 <= i < s.len() ==> #[trigger] nodes_view(s)[i] == node_view(s[i]),
    decreases s.len(),
{
    if s.len() > 0 {
        lemma_nodes_view(s.drop_last());
    }
}


/// `name` is `local` itself, or ends in `:` followed by `local`.
pub open spec fn local_match(name: Seq<char>, local: Seq<char>) -> bool {
    name == local || ends_with(name, seq![':'] + local)
}

/// An element named `name` answers to the tag `tag`: the same name, or, for a
/// `w:`/`r:` prefixed tag, the same local name under any (or no) prefix.
pub open spec fn tag_matches(name: Seq<char>, tag: Seq<char>) -> bool {
    ||| name == tag
    ||| starts_with(tag, seq!['w', ':']) && local_match(name, tag.subrange(2, tag.len() as int))
    ||| starts_with(tag, seq!['r', ':']) && local_match(name, tag.subrange(2, tag.len() as int))
}

/// All elements of the tree rooted at `e` that answer to `tag`, in document order.
pub open spec fn find_all_in(e: XElem, tag: Seq<char>) -> Seq<XElem>
    decreases e, 0int,
{
    (if tag_matches(e.name, tag) {
        seq![e]
    } else {
        Seq::empty()
    }) + find_all_nodes(e.children, tag)
}

/// All elements answering to `tag` inside the nodes `s`, in document order.
pub open spec fn find_all_nodes(s: Seq<XNode>, tag: Seq<char>) -> Seq<XElem>
    decreases s, 1int,
{
    if s.len() == 0 {
        Seq::empty()
    } else {
        find_all_nodes(s.drop_last(), tag) + match s.last() {
            XNode::Element(c) => find_all_in(c, tag),
            _ => Seq::empty(),
        }
    }
}

/// The first element of the tree rooted at `e`, in document order, that answers to `tag`.
pub open spec fn find_first_in(e: XElem, tag: Seq<char>) -> Option<XElem>
    decreases e, 0int,
{
    if tag_matches(e.name, tag) {
        Some(e)
    } else {
        find_first_nodes(e.children, tag)
    }
}

/// The first element answering to `tag` inside the nodes `s`.
pub open spec fn find_first_nodes(s: Seq<XNode>, tag: Seq<char>) -> Option<XElem>
    decreases s, 1int,
{
    if s.len() == 0 {
        None
    } else {
        match find_first_nodes(s.drop_last(), tag) {
            Some(f) => Some(f),
            None => match s.last() {
                XNode::Element(c) => find_first_in(c, tag),
                _ => None,
            },
        }
    }
}

/// The concatenated text and CDATA content of the tree rooted at `e`, comments left out.
pub open spec fn text_in(e: XElem) -> Seq<char>
    decreases e, 0int,
{
    text_nodes(e.children)
}

/// The concatenated text of the nodes `s`.
pub open spec fn text_nodes(s: Seq<XNode>) -> Seq<char>
    decreases s, 1int,
{
    if s.len() == 0 {
        Seq::empty()
    } else {
        text_nodes(s.drop_last()) + match s.last() {
            XNode::Element(c) => text_in(c),
            XNode::Text(t) => t,
            XNode::CData(t) => t,
            XNode::Comment(_) => Seq::empty(),
        }
    }
}

impl XmlElement {
    /// An element with no attributes and no children.
    pub fn new(name: &str) -> (e: XmlElement)
        ensures
            e@ == (XElem { name: name@, attrs: Seq::empty(), children: Seq::empty() }),
    {
        let e = XmlElement { name: name.to_owned(), attributes: Vec::new(), children: Vec::new() };
        proof {
            assert(attrs_view(e.attributes@) =~= Seq::empty());
        }
        e
    }

    /// An element with the given attributes and no children.
    pub fn with_attributes(name: &str, attrs: Vec<(String, String)>) -> (e: XmlElement)
        ensures
            e@ == (XElem { name: name@, attrs: attrs_view(attrs@), children: Seq::empty() }),
    {
        XmlElement { name: name.to_owned(), attributes: attrs, children: Vec::new() }
    }

    /// Appends a child node.
    pub fn add_child(&mut self, node: XmlNode)
        ensures
            final(self)@ == (XElem { children: old(self)@.children.push(node_view(node)), ..old(self)@ }),
    {
        let ghost old_children = self.children@;
        self.children.push(node);
        proof {
            assert(self.children@.drop_last() =~= old_children);
        }
    }

    /// Appends a child element.
    pub fn add_element(&mut self, element: XmlElement)
        ensures
            final(self)@ == (XElem {
                children: old(self)@.children.push(XNode::Element(element@)),
                ..old(self)@
            }),
    {
        self.add_child(XmlNode::Element(element));
    }

    /// Appends a text child.
    pub fn add_text(&mut self, text: &str)
        ensures
            final(self)@ == (XElem { children: old(self)@.children.push(XNode::Text(text@)), ..old(self)@ }),
    {
        self.add_child(XmlNode::Text(text.to_owned()));
    }

    /// Appends the text content of this element's subtree to `out`.
    pub fn collect_text(&self, out: &mut String)
        ensures
            final(out)@ == old(out)@ + text_in(self@),
        decreases self,
    {
        let ghost start = out@;
        let ghost cv = nodes_view(self.children@);
        proof {
            lemma_nodes_view(self.children@);
        }
        let mut i: usize = 0;
        while i < self.children.len()
            invariant
                i <= self.children@.len(),
                cv == nodes_view(self.children@),
                cv.len() == self.children@.len(),
                forall|k: int| 0 <= k < self.children@.len() ==> #[trigger] cv[k] == node_view(self.children@[k]),
                out@ == start + text_nodes(cv.subrange(0, i as int)),
            decreases self.children.len() - i,
        {
            let ghost before = out@;
            match &self.children[i] {
                XmlNode::Element(el) => {
                    assert(decreases_to!(self => self.children));
                    el.collect_text(out);
                },
                XmlNode::Text(t) => push_str(out, t.as_str()),
                XmlNode::CData(t) => push_str(out, t.as_str()),
                XmlNode::Comment(_) => {},
            }
            proof {
                assert(cv.subrange(0, i + 1).drop_last() =~= cv.subrange(0, i as int));
            }
            i = i + 1;
        }
        proof {
            assert(cv.subrange(0, cv.len() as int) =~= cv);
        }
    }

    /// The text content of this element's subtree.
    pub fn iter_text(&self) -> (t: String)
        ensures
            t@ == text_in(self@),
    {
        let mut out = String::new();
        self.collect_text(&mut out);
        out
    }
}


/// The views of a list of element references.
pub open spec fn elem_refs_view(s: Seq<&XmlElement>) -> Seq<XElem> {
    s.map_values(|r: &XmlElement| r@)
}

/// Whether `name` is `local` or ends in `:` + `local`.
fn local_match_exec(name: &Vec<char>, local: &Vec<char>) -> (b: bool)
    ensures
        b == local_match(name@, local@),
{
    if chars_eq(name, local) {
        return true;
    }
    let colon = lit(":");
    proof {
        reveal_strlit(":");
    }
    let suffix = concat_chars(&colon, local);
    assert(suffix@ =~= seq![':'] + local@);
    ends_with_exec(name, &suffix)
}

impl XmlElement {
    /// Whether this element answers to `tag` (exact name, or local name after a `w:`/`r:` prefix).
    pub fn matches_tag(&self, tag: &str) -> (b: bool)
        ensures
            b == tag_matches(self@.name, tag@),
    {
        let name = chars_of(self.name.as_str());
        let t = chars_of(tag);
        if chars_eq(&name, &t) {
            return true;
        }
        let w = lit("w:");
        let r = lit("r:");
        proof {
            reveal_strlit("w:");
            reveal_strlit("r:");
            assert(w@ =~= seq!['w', ':']);
            assert(r@ =~= seq!['r', ':']);
        }
        if starts_with_exec(&t, &w) {
            let local = sub_chars(&t, 2, t.len());
            if local_match_exec(&name, &local) {
                return true;
            }
        }
        if starts_with_exec(&t, &r) {
            let local = sub_chars(&t, 2, t.len());
            if local_match_exec(&name, &local) {
                return true;
            }
        }
        false
    }

    /// Appends every element of this subtree that answers to `tag`, in document order.
    pub fn collect_find_all<'a>(&'a self, tag: &str, results: &mut Vec<&'a XmlElement>)
        ensures
            elem_refs_view(final(results)@) == elem_refs_view(old(results)@) + find_all_in(self@, tag@),
        decreases self,
    {
        let ghost start = elem_refs_view(results@);
        if self.matches_tag(tag) {
            results.push(self);
            proof {
                assert(elem_refs_view(results@) =~= start + seq![self@]);
            }
        }
        let ghost mid = elem_refs_view(results@);
        proof {
            assert(mid =~= start + (if tag_matches(self@.name, tag@) {
                seq![self@]
            } else {
                Seq::empty()
            }));
        }
        let ghost cv = nodes_view(self.children@);
        proof {
            lemma_nodes_view(self.children@);
        }
        let mut i: usize = 0;
        while i < self.children.len()
            invariant
                i <= self.children@.len(),
                cv == nodes_view(self.children@),
                cv.len() == self.children@.len(),
                forall|k: int| 0 <= k < self.children@.len() ==> #[trigger] cv[k] == node_view(self.children@[k]),
                elem_refs_view(results@) == mid + find_all_nodes(cv.subrange(0, i as int), tag@),
            decreases self.children.len() - i,
        {
            match &self.children[i] {
                XmlNode::Element(el) => {
                    assert(decreases_to!(self => self.children));
                    el.collect_find_all(tag, results);
                },
                _ => {},
            }
            proof {
                assert(cv.subrange(0, i + 1).drop_last() =~= cv.subrange(0, i as int));
                assert(mid + find_all_nodes(cv.subrange(0, i + 1), tag@) =~= mid + find_all_nodes(cv.subrange(0, i as int), tag@) + match cv[i as int] {
                    XNode::Element(c) => find_all_in(c, tag@),
                    _ => Seq::empty(),
                });
            }
            i = i + 1;
        }
        proof {
            assert(cv.subrange(0, cv.len() as int) =~= cv);
            assert(mid + find_all_nodes(cv, tag@) =~= start + find_all_in(self@, tag@));
        }
    }

    /// Every element of this subtree that answers to `tag`, in document order.
    pub fn find_all<'a>(&'a self, tag: &str) -> (r: Vec<&'a XmlElement>)
        ensures
            elem_refs_view(r@) == find_all_in(self@, tag@),
    {
        let mut results: Vec<&'a XmlElement> = Vec::new();
        proof {
            assert(elem_refs_view(results@) =~= Seq::empty());
        }
        self.collect_find_all(tag, &mut results);
        proof {
            assert(Seq::<XElem>::empty() + find_all_in(self@, tag@) =~= find_all_in(self@, tag@));
        }
        results
    }

    /// The first element of this subtree, in document order, that answers to `tag`.
    pub fn find_first<'a>(&'a self, tag: &str) -> (r: Option<&'a XmlElement>)
        ensures
            match r {
                Some(x) => find_first_in(self@, tag@) == Some(x@),
                None => find_first_in(self@, tag@) is None,
            },
        decreases self,
    {
        if self.matches_tag(tag) {
            return Some(self);
        }
        let ghost cv = nodes_view(self.children@);
        proof {
            lemma_nodes_view(self.children@);
        }
        let mut i: usize = 0;
        while i < self.children.len()
            invariant
                i <= self.children@.len(),
                cv == nodes_view(self.children@),
                cv.len() == self.children@.len(),
                forall|k: int| 0 <= k < self.children@.len() ==> #[trigger] cv[k] == node_view(self.children@[k]),
                find_first_nodes(cv.subrange(0, i as int), tag@) is None,
                !tag_matches(self@.name, tag@),
            decreases self.children.len() - i,
        {
            proof {
                assert(cv.subrange(0, i + 1).drop_last() =~= cv.subrange(0, i as int));
            }
            match &self.children[i] {
                XmlNode::Element(el) => {
                    assert(decreases_to!(self => self.children));
                    match el.find_first(tag) {
                        Some(found) => {
                            proof {
                                let pre = cv.subrange(0, i + 1);
                                assert(pre.last() == cv[i as int]);
                                assert(find_first_nodes(pre, tag@) == Some(found@));
                                lemma_find_first_prefix(cv, i as int + 1, tag@);
                                assert(self@.children == cv);
                                assert(find_first_nodes(cv, tag@) == Some(found@));
                                assert(!tag_matches(self@.name, tag@));
                                assert(find_first_in(self@, tag@) == find_first_nodes(self@.children, tag@));
                            }
                            return Some(found);
                        },
                        None => {},
                    }
                },
                _ => {},
            }
            i = i + 1;
        }
        proof {
            assert(cv.subrange(0, cv.len() as int) =~= cv);
        }
        None
    }
}

/// A match found in a prefix of the children is the first match of all of them.
proof fn lemma_find_first_prefix(s: Seq<XNode>, n: int, tag: Seq<char>)
    requires
        0 <= n <= s.len(),
        find_first_nodes(s.subrange(0, n), tag) is Some,
    ensures
        find_first_nodes(s, tag) == find_first_nodes(s.subrange(0, n), tag),
    decreases s.len() - n,
{
    if n < s.len() {
        assert(s.subrange(0, n + 1).drop_last() =~= s.subrange(0, n));
        lemma_find_first_prefix(s, n + 1, tag);
    } else {
        assert(s.subrange(0, n) =~= s);
    }
}


/// The value of the first attribute whose key is `name`, or ends in `:` + `name`.
pub open spec fn get_attr_spec(a: Seq<(Seq<char>, Seq<char>)>, name: Seq<char>) -> Option<Seq<char>>
    decreases a.len(),
{
    if a.len() == 0 {
        None
    } else {
        match get_attr_spec(a.drop_last(), name) {
            Some(v) => Some(v),
            None => if local_match(a.last().0, name) {
                Some(a.last().1)
            } else {
                None
            },
        }
    }
}

/// Index of the first attribute whose key is exactly `name`, or -1.
pub open spec fn key_index(a: Seq<(Seq<char>, Seq<char>)>, name: Seq<char>) -> int
    decreases a.len(),
{
    if a.len() == 0 {
        -1
    } else {
        let r = key_index(a.drop_last(), name);
        if r >= 0 {
            r
        } else if a.last().0 == name {
            a.len() - 1
        } else {
            -1
        }
    }
}

/// `a` after `set_attr(name, value)`: the first attribute keyed exactly `name` gets the new
/// value in place; without one, the pair is appended.
pub open spec fn set_attr_spec(a: Seq<(Seq<char>, Seq<char>)>, name: Seq<char>, value: Seq<char>) -> Seq<(Seq<char>, Seq<char>)> {
    let i = key_index(a, name);
    if i >= 0 {
        a.update(i, (name, value))
    } else {
        a.push((name, value))
    }
}

/// `a` without every attribute keyed exactly `name`, order kept.
pub open spec fn remove_attr_spec(a: Seq<(Seq<char>, Seq<char>)>, name: Seq<char>) -> Seq<(Seq<char>, Seq<char>)>
    decreases a.len(),
{
    if a.len() == 0 {
        a
    } else {
        remove_attr_spec(a.drop_last(), name) + if a.last().0 == name {
            Seq::empty()
        } else {
            seq![a.last()]
        }
    }
}

proof fn lemma_key_index_range(a: Seq<(Seq<char>, Seq<char>)>, name: Seq<char>)
    ensures
        -1 <= key_index(a, name) < a.len(),
        key_index(a, name) >= 0 ==> a[key_index(a, name)].0 == name,
    decreases a.len(),
{
    if a.len() > 0 {
        lemma_key_index_range(a.drop_last(), name);
    }
}

impl XmlElement {
    /// The value of the first attribute named `name` or `<prefix>:name`.
    pub fn get_attr(&self, name: &str) -> (r: Option<&str>)
        ensures
            match r {
                Some(v) => get_attr_spec(self@.attrs, name@) == Some(v@),
                None => get_attr_spec(self@.attrs, name@) is None,
            },
    {
        let ghost av = attrs_view(self.attributes@);
        let n = chars_of(name);
        let mut i: usize = 0;
        while i < self.attributes.len()
            invariant
                i <= self.attributes@.len(),
                n@ == name@,
                av == attrs_view(self.attributes@),
                get_attr_spec(av.subrange(0, i as int), name@) is None,
            decreases self.attributes.len() - i,
        {
            let k = chars_of(self.attributes[i].0.as_str());
            proof {
                assert(av.subrange(0, i + 1).drop_last() =~= av.subrange(0, i as int));
            }
            if local_match_exec(&k, &n) {
                proof {
                    lemma_get_attr_prefix(av, i + 1, name@);
                    assert(av.subrange(0, i + 1).last() == av[i as int]);
                }
                return Some(self.attributes[i].1.as_str());
            }
            i = i + 1;
        }
        proof {
            assert(av.subrange(0, av.len() as int) =~= av);
        }
        None
    }

    /// Sets attribute `name` to `value`, replacing the first exact match in place or appending.
    pub fn set_attr(&mut self, name: &str, value: &str)
        ensures
            final(self)@ == (XElem { attrs: set_attr_spec(old(self)@.attrs, name@, value@), ..old(self)@ }),
    {
        let ghost av = attrs_view(self.attributes@);
        let mut i: usize = 0;
        while i < self.attributes.len()
            invariant
                i <= self.attributes@.len(),
                av == attrs_view(self.attributes@),
                av == old(self)@.attrs,
                *self == *old(self),
                key_index(av.subrange(0, i as int), name@) == -1,
            decreases self.attributes.len() - i,
        {
            proof {
                assert(av.subrange(0, i + 1).drop_last() =~= av.subrange(0, i as int));
            }
            if str_eq(self.attributes[i].0.as_str(), name) {
                proof {
                    assert(av.subrange(0, i + 1).last() == av[i as int]);
                    lemma_key_index_prefix(av, i + 1, name@);
                }
                self.attributes.set(i, (name.to_owned(), value.to_owned()));
                proof {
                    assert(attrs_view(self.attributes@) =~= av.update(i as int, (name@, value@)));
                    assert(key_index(av, name@) == i);
                    assert(self@.attrs == set_attr_spec(av, name@, value@));
                }
                return;
            }
            i = i + 1;
        }
        proof {
            assert(av.subrange(0, av.len() as int) =~= av);
        }
        self.attributes.push((name.to_owned(), value.to_owned()));
        proof {
            assert(attrs_view(self.attributes@) =~= av.push((name@, value@)));
            assert(key_index(av, name@) == -1);
            assert(self@.attrs == set_attr_spec(av, name@, value@));
        }
    }

    /// Removes every attribute keyed exactly `name`.
    pub fn remove_attr(&mut self, name: &str)
        ensures
            final(self)@ == (XElem { attrs: remove_attr_spec(old(self)@.attrs, name@), ..old(self)@ }),
    {
        let ghost av = attrs_view(self.attributes@);
        let mut kept: Vec<(String, String)> = Vec::new();
        let mut i: usize = 0;
        while i < self.attributes.len()
            invariant
                i <= self.attributes@.len(),
                av == attrs_view(self.attributes@),
                attrs_view(kept@) == remove_attr_spec(av.subrange(0, i as int), name@),
            decreases self.attributes.len() - i,
        {
            proof {
                assert(av.subrange(0, i + 1).drop_last() =~= av.subrange(0, i as int));
                assert(av.subrange(0, i + 1).last() == av[i as int]);
            }
            if !str_eq(self.attributes[i].0.as_str(), name) {
                let k = self.attributes[i].0.clone();
                let v = self.attributes[i].1.clone();
                let ghost before = kept@;
                kept.push((k, v));
                proof {
                    assert(attrs_view(kept@) =~= attrs_view(before) + seq![av[i as int]]);
                }
            } else {
                proof {
                    assert(remove_attr_spec(av.subrange(0, i + 1), name@) =~= remove_attr_spec(av.subrange(0, i as int), name@));
                }
            }
            i = i + 1;
        }
        proof {
            assert(av.subrange(0, av.len() as int) =~= av);
        }
        self.attributes = kept;
    }
}

proof fn lemma_get_attr_prefix(a: Seq<(Seq<char>, Seq<char>)>, n: int, name: Seq<char>)
    requires
        0 <= n <= a.len(),
        get_attr_spec(a.subrange(0, n), name) is Some,
    ensures
        get_attr_spec(a, name) == get_attr_spec(a.subrange(0, n), name),
    decreases a.len() - n,
{
    if n < a.len() {
        assert(a.subrange(0, n + 1).drop_last() =~= a.subrange(0, n));
        lemma_get_attr_prefix(a, n + 1, name);
    } else {
        assert(a.subrange(0, n) =~= a);
    }
}

proof fn lemma_key_index_prefix(a: Seq<(Seq<char>, Seq<char>)>, n: int, name: Seq<char>)
    requires
        0 <= n <= a.len(),
        key_index(a.subrange(0, n), name) >= 0,
    ensures
        key_index(a, name) == key_index(a.subrange(0, n), name),
    decreases a.len() - n,
{
    if n < a.len() {
        assert(a.subrange(0, n + 1).drop_last() =~= a.subrange(0, n));
        lemma_key_index_prefix(a, n + 1, name);
    } else {
        assert(a.subrange(0, n) =~= a);
    }
}


/// `s` with leading whitespace dropped and every later run of whitespace replaced by
/// a single space (a trailing run still leaves one space).
pub open spec fn squash_ws(s: Seq<char>) -> Seq<char>
    decreases s.len(),
{
    if s.len() == 0 {
        Seq::empty()
    } else {
        let prev = squash_ws(s.drop_last());
        let c = s.last();
        if !is_ws(c) {
            prev.push(c)
        } else if prev.len() == 0 || (s.len() >= 2 && is_ws(s[s.len() - 2])) {
            prev
        } else {
            prev.push(' ')
        }
    }
}

/// `normalize_space`: whitespace runs become one space, and the ends are trimmed.
pub open spec fn normalize_space_spec(s: Seq<char>) -> Seq<char> {
    trim(squash_ws(s))
}

/// `truncate`: at most `max_len` characters, the last replaced by `…` when cut.
pub open spec fn truncate_spec(s: Seq<char>, max_len: nat) -> Seq<char> {
    if s.len() <= max_len {
        s
    } else {
        s.subrange(0, max_len - 1).push('\u{2026}')
    }
}

/// Replaces every run of whitespace with one space and trims both ends.
pub fn normalize_space(text: &str) -> (r: String)
    ensures
        r@ == normalize_space_spec(text@),
{
    let v = chars_of(text);
    let mut out: Vec<char> = Vec::new();
    let mut in_whitespace = false;
    let mut i: usize = 0;
    while i < v.len()
        invariant
            i <= v@.len(),
            out@ == squash_ws(v@.subrange(0, i as int)),
            in_whitespace == (i > 0 && is_ws(v@[i - 1])),
        decreases v.len() - i,
    {
        let c = v[i];
        proof {
            let pre = v@.subrange(0, i + 1);
            assert(pre.drop_last() =~= v@.subrange(0, i as int));
            assert(pre.last() == c);
            if i >= 1 {
                assert(pre[pre.len() - 2] == v@[i - 1]);
            }
        }
        if char_is_ws(c) {
            if !in_whitespace && out.len() != 0 {
                out.push(' ');
            }
            in_whitespace = true;
        } else {
            out.push(c);
            in_whitespace = false;
        }
        i = i + 1;
    }
    proof {
        assert(v@.subrange(0, v@.len() as int) =~= v@);
    }
    let (a, b) = trim_bounds(&out);
    string_from_range(&out, a, b)
}

/// Cuts `text` to `max_len` characters, ending a cut text with `…`.
pub fn truncate(text: &str, max_len: usize) -> (r: String)
    requires
        max_len > 0 || text@.len() == 0,
    ensures
        r@ == truncate_spec(text@, max_len as nat),
{
    let v = chars_of(text);
    if v.len() <= max_len {
        text.to_owned()
    } else {
        let mut r = string_from_range(&v, 0, max_len - 1);
        push_char(&mut r, '\u{2026}');
        r
    }
}

/// The visible text of a document: the text of every `w:t` element, joined by spaces,
/// then whitespace-normalized.
pub open spec fn visible_text_spec(root: XElem) -> Seq<char> {
    normalize_space_spec(join_texts(find_all_in(root, seq!['w', ':', 't'])))
}

/// The texts of `es`, separated by single spaces.
pub open spec fn join_texts(es: Seq<XElem>) -> Seq<char>
    decreases es.len(),
{
    if es.len() == 0 {
        Seq::empty()
    } else if es.len() == 1 {
        text_in(es[0])
    } else {
        join_texts(es.drop_last()) + seq![' '] + text_in(es.last())
    }
}

/// Normalized visible text of a document root (`w:t` runs joined by spaces).
pub fn visible_text(root: &XmlElement) -> (r: String)
    ensures
        r@ == visible_text_spec(root@),
{
    let tag = "w:t";
    proof {
        reveal_strlit("w:t");
        assert(tag@ =~= seq!['w', ':', 't']);
    }
    let nodes = root.find_all(tag);
    let ghost es = elem_refs_view(nodes@);
    let mut joined = String::new();
    let mut i: usize = 0;
    while i < nodes.len()
        invariant
            i <= nodes@.len(),
            es == elem_refs_view(nodes@),
            es.len() == nodes@.len(),
            joined@ == join_texts(es.subrange(0, i as int)),
        decreases nodes.len() - i,
    {
        proof {
            assert(es.subrange(0, i + 1).drop_last() =~= es.subrange(0, i as int));
            assert(es[i as int] == nodes@[i as int]@);
        }
        if i > 0 {
            push_char(&mut joined, ' ');
        }
        let t = nodes[i].iter_text();
        push_str(&mut joined, t.as_str());
        i = i + 1;
    }
    proof {
        assert(es.subrange(0, es.len() as int) =~= es);
    }
    normalize_space(joined.as_str())
}


impl XmlElement {
    /// A copy of the whole subtree.
    pub fn deep_clone(&self) -> (r: XmlElement)
        ensures
            r@ == self@,
        decreases self,
    {
        let mut attributes: Vec<(String, String)> = Vec::new();
        let mut i: usize = 0;
        while i < self.attributes.len()
            invariant
                i <= self.attributes@.len(),
                attrs_view(attributes@) == attrs_view(self.attributes@).subrange(0, i as int),
            decreases self.attributes.len() - i,
        {
            let k = self.attributes[i].0.clone();
            let v = self.attributes[i].1.clone();
            let ghost before = attributes@;
            attributes.push((k, v));
            proof {
                lemma_attrs_view_push(before, (k, v));
                assert(attrs_view(attributes@) =~= attrs_view(self.attributes@).subrange(0, i + 1));
            }
            i = i + 1;
        }
        let ghost cv = nodes_view(self.children@);
        proof {
            lemma_nodes_view(self.children@);
            assert(attrs_view(self.attributes@).subrange(0, self.attributes@.len() as int) =~= attrs_view(self.attributes@));
        }
        let mut children: Vec<XmlNode> = Vec::new();
        let mut j: usize = 0;
        while j < self.children.len()
            invariant
                j <= self.children@.len(),
                cv == nodes_view(self.children@),
                cv.len() == self.children@.len(),
                forall|k: int| 0 <= k < self.children@.len() ==> #[trigger] cv[k] == node_view(self.children@[k]),
                nodes_view(children@) == cv.subrange(0, j as int),
            decreases self.children.len() - j,
        {
            let ghost before = children@;
            let node = match &self.children[j] {
                XmlNode::Element(el) => {
                    assert(decreases_to!(self => self.children));
                    let c = el.deep_clone();
                    assert(node_view(XmlNode::Element(c)) == cv[j as int]);
                    XmlNode::Element(c)
                },
                XmlNode::Text(t) => {
                    let c = t.clone();
                    assert(node_view(XmlNode::Text(c)) == cv[j as int]);
                    XmlNode::Text(c)
                },
                XmlNode::Comment(t) => {
                    let c = t.clone();
                    assert(node_view(XmlNode::Comment(c)) == cv[j as int]);
                    XmlNode::Comment(c)
                },
                XmlNode::CData(t) => {
                    let c = t.clone();
                    assert(node_view(XmlNode::CData(c)) == cv[j as int]);
                    XmlNode::CData(c)
                },
            };
            assert(node_view(node) == cv[j as int]);
            children.push(node);
            proof {
                assert(children@.drop_last() =~= before);
                assert(nodes_view(children@) =~= cv.subrange(0, j + 1));
            }
            j = j + 1;
        }
        proof {
            assert(cv.subrange(0, cv.len() as int) =~= cv);
        }
        XmlElement { name: self.name.clone(), attributes, children }
    }
}

/// The `<w:t>` element for `text`: `xml:space="preserve"` when the text starts or ends
/// with whitespace, then the text itself as the only child.
pub open spec fn w_t_spec(text: Seq<char>) -> XElem {
    XElem {
        name: seq!['w', ':', 't'],
        attrs: if text.len() > 0 && (is_ws(text[0]) || is_ws(text.last())) {
            seq![(seq!['x', 'm', 'l', ':', 's', 'p', 'a', 'c', 'e'], seq!['p', 'r', 'e', 's', 'e', 'r', 'v', 'e'])]
        } else {
            Seq::empty()
        },
        children: seq![XNode::Text(text)],
    }
}

/// Creates a `<w:t>` element holding `text`, preserving its edge whitespace.
pub fn create_w_t(text: &str) -> (e: XmlElement)
    ensures
        e@ == w_t_spec(text@),
{
    let name = "w:t";
    let key = "xml:space";
    let val = "preserve";
    proof {
        reveal_strlit("w:t");
        reveal_strlit("xml:space");
        reveal_strlit("preserve");
        assert(key@ =~= seq!['x', 'm', 'l', ':', 's', 'p', 'a', 'c', 'e']);
        assert(val@ =~= seq!['p', 'r', 'e', 's', 'e', 'r', 'v', 'e']);
        assert(name@ =~= seq!['w', ':', 't']);
    }
    let mut elem = XmlElement::new(name);
    let v = chars_of(text);
    if v.len() > 0 && (char_is_ws(v[0]) || char_is_ws(v[v.len() - 1])) {
        elem.set_attr(key, val);
        proof {
            assert(set_attr_spec(Seq::empty(), key@, val@) =~= seq![(key@, val@)]);
        }
    }
    elem.add_text(text);
    proof {
        assert(elem@.name =~= w_t_spec(text@).name);
        assert(elem@.attrs =~= w_t_spec(text@).attrs);
        assert(elem@.children =~= w_t_spec(text@).children);
    }
    elem
}

/// The `<w:r>` run for `text`: a copy of the template's first `w:rPr` (if any), then `w:t`.
pub open spec fn run_spec(template: Option<XElem>, text: Seq<char>) -> XElem {
    let rpr: Seq<XNode> = match template {
        Some(t) => match find_first_in(t, seq!['w', ':', 'r', 'P', 'r']) {
            Some(r) => seq![XNode::Element(r)],
            None => Seq::empty(),
        },
        None => Seq::empty(),
    };
    XElem {
        name: seq!['w', ':', 'r'],
        attrs: Seq::empty(),
        children: rpr.push(XNode::Element(w_t_spec(text))),
    }
}

/// Creates a `<w:r>` run holding `text`, copying run formatting from `template_run`.
pub fn create_run_with_text(template_run: Option<&XmlElement>, text: &str) -> (e: XmlElement)
    ensures
        e@ == run_spec(
            match template_run {
                Some(t) => Some(t@),
                None => None,
            },
            text@,
        ),
{
    let rpr_tag = "w:rPr";
    proof {
        reveal_strlit("w:r");
        reveal_strlit("w:rPr");
        assert(rpr_tag@ =~= seq!['w', ':', 'r', 'P', 'r']);
    }
    let mut run = XmlElement::new("w:r");
    let ghost tv: Option<XElem> = match template_run {
        Some(t) => Some(t@),
        None => None,
    };
    if let Some(tmpl) = template_run {
        if let Some(r_pr) = tmpl.find_first(rpr_tag) {
            run.add_element(r_pr.deep_clone());
        }
    }
    run.add_element(create_w_t(text));
    proof {
        let spec = run_spec(tv, text@);
        assert(run@.name =~= spec.name);
        assert(run@.attrs =~= spec.attrs);
        assert(run@.children =~= spec.children);
    }
    run
}

/// Creates a `<w:p>` paragraph holding one plain run with `text`.
pub fn create_paragraph_with_text(text: &str) -> (e: XmlElement)
    ensures
        e@ == (XElem {
            name: seq!['w', ':', 'p'],
            attrs: Seq::empty(),
            children: seq![XNode::Element(run_spec(None, text@))],
        }),
{
    proof {
        reveal_strlit("w:p");
    }
    let mut p = XmlElement::new("w:p");
    p.add_element(create_run_with_text(None, text));
    proof {
        assert(p@.name =~= seq!['w', ':', 'p']);
        assert(p@.children =~= seq![XNode::Element(run_spec(None, text@))]);
    }
    p
}

/// The `<w:hyperlink r:id=...>` element for `rel_id` and `text`, styled `Hyperlink`.
pub open spec fn hyperlink_spec(rel_id: Seq<char>, text: Seq<char>) -> XElem {
    let r_style = XElem {
        name: seq!['w', ':', 'r', 'S', 't', 'y', 'l', 'e'],
        attrs: seq![(seq!['w', ':', 'v', 'a', 'l'], seq!['H', 'y', 'p', 'e', 'r', 'l', 'i', 'n', 'k'])],
        children: Seq::empty(),
    };
    let r_pr = XElem { name: seq!['w', ':', 'r', 'P', 'r'], attrs: Seq::empty(), children: seq![XNode::Element(r_style)] };
    let run = XElem {
        name: seq!['w', ':', 'r'],
        attrs: Seq::empty(),
        children: seq![XNode::Element(r_pr), XNode::Element(w_t_spec(text))],
    };
    XElem {
        name: seq!['w', ':', 'h', 'y', 'p', 'e', 'r', 'l', 'i', 'n', 'k'],
        attrs: seq![(seq!['r', ':', 'i', 'd'], rel_id)],
        children: seq![XNode::Element(run)],
    }
}

/// Creates a `<w:hyperlink>` to relationship `rel_id` showing `text`.
pub fn create_hyperlink_node(rel_id: &str, text: &str) -> (e: XmlElement)
    ensures
        e@ == hyperlink_spec(rel_id@, text@),
{
    let n_h = "w:hyperlink";
    let n_id = "r:id";
    let n_r = "w:r";
    let n_rpr = "w:rPr";
    let n_style = "w:rStyle";
    let n_val = "w:val";
    let v_h = "Hyperlink";
    proof {
        reveal_strlit("w:hyperlink");
        reveal_strlit("r:id");
        reveal_strlit("w:r");
        reveal_strlit("w:rPr");
        reveal_strlit("w:rStyle");
        reveal_strlit("w:val");
        reveal_strlit("Hyperlink");
        assert(n_h@ =~= seq!['w', ':', 'h', 'y', 'p', 'e', 'r', 'l', 'i', 'n', 'k']);
        assert(n_id@ =~= seq!['r', ':', 'i', 'd']);
        assert(n_r@ =~= seq!['w', ':', 'r']);
        assert(n_rpr@ =~= seq!['w', ':', 'r', 'P', 'r']);
        assert(n_style@ =~= seq!['w', ':', 'r', 'S', 't', 'y', 'l', 'e']);
        assert(n_val@ =~= seq!['w', ':', 'v', 'a', 'l']);
        assert(v_h@ =~= seq!['H', 'y', 'p', 'e', 'r', 'l', 'i', 'n', 'k']);
    }
    let mut hyperlink = XmlElement::new(n_h);
    hyperlink.set_attr(n_id, rel_id);
    proof {
        assert(set_attr_spec(Seq::empty(), n_id@, rel_id@) =~= seq![(n_id@, rel_id@)]);
    }
    let mut run = XmlElement::new(n_r);
    let mut r_pr = XmlElement::new(n_rpr);
    let mut r_style = XmlElement::new(n_style);
    r_style.set_attr(n_val, v_h);
    proof {
        assert(set_attr_spec(Seq::empty(), n_val@, v_h@) =~= seq![(n_val@, v_h@)]);
    }
    r_pr.add_element(r_style);
    run.add_element(r_pr);
    run.add_element(create_w_t(text));
    proof {
        let r_style_v = XElem {
            name: seq!['w', ':', 'r', 'S', 't', 'y', 'l', 'e'],
            attrs: seq![(seq!['w', ':', 'v', 'a', 'l'], seq!['H', 'y', 'p', 'e', 'r', 'l', 'i', 'n', 'k'])],
            children: Seq::empty(),
        };
        let r_pr_v = XElem { name: seq!['w', ':', 'r', 'P', 'r'], attrs: Seq::empty(), children: seq![XNode::Element(r_style_v)] };
        let run_v = XElem {
            name: seq!['w', ':', 'r'],
            attrs: Seq::empty(),
            children: seq![XNode::Element(r_pr_v), XNode::Element(w_t_spec(text@))],
        };
        assert(run@.children =~= run_v.children);
        assert(run@ =~= run_v);
    }
    hyperlink.add_element(run);
    proof {
        let spec = hyperlink_spec(rel_id@, text@);
        assert(hyperlink@.attrs =~= spec.attrs);
        assert(hyperlink@.name =~= spec.name);
        assert(hyperlink@.children =~= spec.children);
    }
    hyperlink
}

/// The position of the first child holding (or being) an element that answers to `tag`.
pub open spec fn first_match_child(s: Seq<XNode>, tag: Seq<char>) -> Option<int>
    decreases s.len(),
{
    if s.len() == 0 {
        None
    } else {
        match first_match_child(s.drop_last(), tag) {
            Some(i) => Some(i),
            None => match s.last() {
                XNode::Element(c) => if find_first_in(c, tag) is Some {
                    Some(s.len() - 1)
                } else {
                    None
                },
                _ => None,
            },
        }
    }
}

/// `e` with its first element answering to `tag` replaced by `new`.
pub open spec fn replace_first_in(e: XElem, tag: Seq<char>, new: XElem) -> XElem
    decreases e,
{
    if tag_matches(e.name, tag) {
        new
    } else {
        match first_match_child(e.children, tag) {
            Some(i) => if 0 <= i < e.children.len() && e.children[i] is Element {
                XElem { children: e.children.update(i, XNode::Element(replace_first_in(e.children[i]->Element_0, tag, new))), ..e }
            } else {
                e
            },
            None => e,
        }
    }
}

impl XmlElement {
    /// The first element answering to `tag` (this one, else the first found depth-first
    /// among the children), to change in place.
    pub fn find_first_mut<'a>(&'a mut self, tag: &str) -> (r: Option<&'a mut XmlElement>)
        ensures
            find_first_in(old(self)@, tag@) is None ==> r is None,
            find_first_in(old(self)@, tag@) is None ==> final(self)@ == old(self)@,
            find_first_in(old(self)@, tag@) is Some ==> r is Some,
            find_first_in(old(self)@, tag@) is Some ==> (*r->0)@ == find_first_in(old(self)@, tag@)->0,
            find_first_in(old(self)@, tag@) is Some ==> final(self)@ == replace_first_in(old(self)@, tag@, (*final(r->0))@),
        decreases *old(self), 1int,
    {
        if self.matches_tag(tag) {
            return Some(self);
        }
        let ghost cv = nodes_view(self.children@);
        proof {
            lemma_nodes_view(self.children@);
        }
        let mut i: usize = 0;
        let mut found: Option<usize> = None;
        while i < self.children.len() && found.is_none()
            invariant
                *self == *old(self),
                i <= self.children@.len(),
                cv == nodes_view(self.children@),
                cv.len() == self.children@.len(),
                forall|k: int| 0 <= k < self.children@.len() ==> #[trigger] cv[k] == node_view(self.children@[k]),
                found is None ==> first_match_child(cv.subrange(0, i as int), tag@) is None,
                found matches Some(j) ==> j < cv.len() && first_match_child(cv, tag@) == Some(j as int),
            decreases self.children.len() - i,
        {
            proof {
                assert(cv.subrange(0, i + 1).drop_last() =~= cv.subrange(0, i as int));
            }
            match &self.children[i] {
                XmlNode::Element(el) => {
                    if el.find_first(tag).is_some() {
                        proof {
                            lemma_first_match_prefix(cv, i as int + 1, tag@);
                        }
                        found = Some(i);
                    }
                },
                _ => {},
            }
            i = i + 1;
        }
        proof {
            lemma_first_match_agrees(cv, tag@);
            assert(self@.children == cv);
        }
        match found {
            None => {
                proof {
                    assert(cv.subrange(0, i as int) =~= cv);
                    assert(find_first_in(self@, tag@) == find_first_nodes(self@.children, tag@));
                }
                None
            },
            Some(j) => {
                proof {
                    assert(cv[j as int] is Element);
                    assert(decreases_to!(*old(self) => old(self).children));
                    lemma_find_mut_step(*self, tag@, j as int);
                }
                child_find_first_mut(&mut self.children, j, tag)
            },
        }
    }
}

/// The first element answering to `tag` inside the child at `j`, which holds one.
fn child_find_first_mut<'a>(children: &'a mut Vec<XmlNode>, j: usize, tag: &str) -> (r: Option<&'a mut XmlElement>)
    requires
        j < old(children)@.len(),
        old(children)@[j as int] is Element,
        find_first_in(old(children)@[j as int]->Element_0@, tag@) is Some,
    ensures
        r is Some,
        (*r->0)@ == find_first_in(old(children)@[j as int]->Element_0@, tag@)->0,
        final(children)@.len() == old(children)@.len(),
        final(children)@[j as int] is Element,
        final(children)@ == old(children)@.update(j as int, final(children)@[j as int]),
        (final(children)@[j as int]->Element_0)@ == replace_first_in(old(children)@[j as int]->Element_0@, tag@, (*final(r->0))@),
    decreases *old(children), 0int,
{
    match &mut children[j] {
        XmlNode::Element(el) => {
            assert(decreases_to!(*old(children) => old(children)@[j as int]));
            el.find_first_mut(tag)
        },
        _ => None,
    }
}

/// An element whose first matching child was changed in place reads as the tree with its
/// first match replaced.
proof fn lemma_find_mut_step(old_e: XmlElement, tag: Seq<char>, j: int)
    requires
        !tag_matches(old_e@.name, tag),
        first_match_child(old_e@.children, tag) == Some(j),
        0 <= j < old_e.children@.len(),
        old_e.children@[j] is Element,
    ensures
        forall|new_e: XmlElement, x: XElem|
            #![trigger elem_view(new_e), replace_first_in(old_e@, tag, x)]
            (new_e.name == old_e.name && new_e.attributes == old_e.attributes && new_e.children@
                == old_e.children@.update(j, new_e.children@[j]) && new_e.children@[j] is Element
                && new_e.children@[j]->Element_0@ == replace_first_in(old_e.children@[j]->Element_0@, tag, x))
                ==> elem_view(new_e) == replace_first_in(old_e@, tag, x),
{
    lemma_nodes_view(old_e.children@);
    lemma_replace_first_step(old_e@, tag, j);
    lemma_nodes_view_update(old_e.children@, j);
    assert forall|new_e: XmlElement, x: XElem|
        (new_e.name == old_e.name && new_e.attributes == old_e.attributes && new_e.children@
            == old_e.children@.update(j, new_e.children@[j]) && new_e.children@[j] is Element
            && new_e.children@[j]->Element_0@ == replace_first_in(old_e.children@[j]->Element_0@, tag, x))
        implies elem_view(new_e) == replace_first_in(old_e@, tag, x) by {
        let n = new_e.children@[j];
        assert(nodes_view(new_e.children@) == nodes_view(old_e.children@).update(j, node_view(n)));
        assert(old_e@.children[j] == node_view(old_e.children@[j]));
        assert(elem_view(new_e).children =~= replace_first_in(old_e@, tag, x).children);
    }
}

/// Replacing the first match of a tree whose own name does not answer replaces it inside the
/// first matching child.
proof fn lemma_replace_first_step(e: XElem, tag: Seq<char>, j: int)
    requires
        !tag_matches(e.name, tag),
        first_match_child(e.children, tag) == Some(j),
        0 <= j < e.children.len(),
        e.children[j] is Element,
    ensures
        forall|x: XElem| #[trigger] replace_first_in(e, tag, x) == (XElem {
            children: e.children.update(j, XNode::Element(replace_first_in(e.children[j]->Element_0, tag, x))),
            ..e
        }),
{
}

/// Viewing nodes after one of them is replaced.
proof fn lemma_nodes_view_update(s: Seq<XmlNode>, j: int)
    requires
        0 <= j < s.len(),
    ensures
        forall|n: XmlNode| #[trigger] nodes_view(s.update(j, n)) == nodes_view(s).update(j, node_view(n)),
{
    assert forall|n: XmlNode| #[trigger] nodes_view(s.update(j, n)) == nodes_view(s).update(j, node_view(n)) by {
        lemma_nodes_view(s.update(j, n));
        lemma_nodes_view(s);
        assert(nodes_view(s.update(j, n)) =~= nodes_view(s).update(j, node_view(n)));
    }
}

/// The first matching child gives the first matching element of the children.
proof fn lemma_first_match_agrees(s: Seq<XNode>, tag: Seq<char>)
    ensures
        first_match_child(s, tag) is None <==> find_first_nodes(s, tag) is None,
        first_match_child(s, tag) matches Some(j) ==> 0 <= j < s.len() && s[j] is Element && find_first_nodes(s, tag)
            == find_first_in(s[j]->Element_0, tag),
    decreases s.len(),
{
    if s.len() > 0 {
        lemma_first_match_agrees(s.drop_last(), tag);
        match first_match_child(s.drop_last(), tag) {
            Some(j) => {
                assert(s.drop_last()[j] == s[j]);
            },
            None => {},
        }
    }
}

/// A child found in a prefix of the children is the first of all of them.
proof fn lemma_first_match_prefix(s: Seq<XNode>, n: int, tag: Seq<char>)
    requires
        0 <= n <= s.len(),
        first_match_child(s.subrange(0, n), tag) is Some,
    ensures
        first_match_child(s, tag) == first_match_child(s.subrange(0, n), tag),
    decreases s.len() - n,
{
    if n < s.len() {
        assert(s.subrange(0, n + 1).drop_last() =~= s.subrange(0, n));
        lemma_first_match_prefix(s, n + 1, tag);
    } else {
        assert(s.subrange(0, n) =~= s);
    }
}

} // verus!
