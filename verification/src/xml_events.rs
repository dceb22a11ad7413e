//! A document tree read from, and written as, a stream of XML events: the reader's events
//! (tags with their attributes, text, CDATA, comments) build the tree, and a tree gives back
//! the events that write it.

use vstd::prelude::*;

use crate::error::DomainError;
use crate::static_render::{decode_html_entities, html_entities_decoded};
use crate::xml::{attrs_view, lemma_nodes_view, node_view, nodes_view, XElem, XNode, XmlElement, XmlNode};

verus! {

/// An XML event: a start tag, an empty-element tag, an end tag (each with its name and, for
/// the first two, its attributes as written), text as written, CDATA, or a comment.
#[derive(Debug)]
pub enum XmlEvent {
    Start(String, Vec<(String, String)>),
    Empty(String, Vec<(String, String)>),
    End(String),
    Text(String),
    CData(String),
    Comment(String),
}

/// The value of an event.
pub enum XEvent {
    Start(Seq<char>, Seq<(Seq<char>, Seq<char>)>),
    Empty(Seq<char>, Seq<(Seq<char>, Seq<char>)>),
    End(Seq<char>),
    Text(Seq<char>),
    CData(Seq<char>),
    Comment(Seq<char>),
}

/// View of an event.
pub open spec fn event_view(e: XmlEvent) -> XEvent {
    match e {
        XmlEvent::Start(n, a) => XEvent::Start(n@, attrs_view(a@)),
        XmlEvent::Empty(n, a) => XEvent::Empty(n@, attrs_view(a@)),
        XmlEvent::End(n) => XEvent::End(n@),
        XmlEvent::Text(t) => XEvent::Text(t@),
        XmlEvent::CData(t) => XEvent::CData(t@),
        XmlEvent::Comment(t) => XEvent::Comment(t@),
    }
}

/// View of events.
pub open spec fn events_view(s: Seq<XmlEvent>) -> Seq<XEvent> {
    s.map_values(|e: XmlEvent| event_view(e))
}

/// The open elements and the finished root while reading.
pub struct ReadState {
    pub stack: Seq<XElem>,
    pub root: Option<XElem>,
}

/// `stack` with `n` added as the last child of its innermost element.
pub open spec fn add_to_top(stack: Seq<XElem>, n: XNode) -> Seq<XElem> {
    let top = stack.last();
    stack.drop_last().push(XElem { children: top.children.push(n), ..top })
}

/// One event read: a start tag opens an element; an empty tag adds one to the innermost open
/// element (or is the root when nothing is open and there is no root yet); an end tag closes
/// the innermost element, adding it to its parent or making it the root; text (entities
/// decoded), CDATA and comments go into the innermost open element; outside every element
/// they are dropped.
pub open spec fn read_step(st: ReadState, ev: XEvent) -> ReadState {
    match ev {
        XEvent::Start(n, a) => ReadState { stack: st.stack.push(XElem { name: n, attrs: a, children: Seq::empty() }), root: st.root },
        XEvent::Empty(n, a) => {
            let e = XElem { name: n, attrs: a, children: Seq::empty() };
            if st.stack.len() > 0 {
                ReadState { stack: add_to_top(st.stack, XNode::Element(e)), root: st.root }
            } else if st.root is None {
                ReadState { stack: st.stack, root: Some(e) }
            } else {
                st
            }
        },
        XEvent::End(_) => if st.stack.len() > 0 {
            let e = st.stack.last();
            let rest = st.stack.drop_last();
            if rest.len() > 0 {
                ReadState { stack: add_to_top(rest, XNode::Element(e)), root: st.root }
            } else {
                ReadState { stack: rest, root: Some(e) }
            }
        } else {
            st
        },
        XEvent::Text(t) => if st.stack.len() > 0 {
            ReadState { stack: add_to_top(st.stack, XNode::Text(html_entities_decoded(t))), root: st.root }
        } else {
            st
        },
        XEvent::CData(t) => if st.stack.len() > 0 {
            ReadState { stack: add_to_top(st.stack, XNode::CData(t)), root: st.root }
        } else {
            st
        },
        XEvent::Comment(t) => if st.stack.len() > 0 {
            ReadState { stack: add_to_top(st.stack, XNode::Comment(t)), root: st.root }
        } else {
            st
        },
    }
}

/// The state after reading `evs` from the start.
pub open spec fn read_events(evs: Seq<XEvent>) -> ReadState
    decreases evs.len(),
{
    if evs.len() == 0 {
        ReadState { stack: Seq::empty(), root: None }
    } else {
        read_step(read_events(evs.drop_last()), evs.last())
    }
}

/// The tree the events build, or the error for a document without a root.
pub open spec fn tree_of(evs: Seq<XEvent>) -> Result<XElem, Seq<char>> {
    match read_events(evs).root {
        Some(r) => Ok(r),
        None => Err("Empty or invalid XML document"@),
    }
}

/// View of the open elements.
pub open spec fn elems_view(s: Seq<XmlElement>) -> Seq<XElem> {
    s.map_values(|e: XmlElement| e@)
}

fn add_node_to_top(stack: &mut Vec<XmlElement>, n: XmlNode)
    requires
        old(stack)@.len() > 0,
    ensures
        elems_view(final(stack)@) == add_to_top(elems_view(old(stack)@), node_view(n)),
{
    let ghost before = stack@;
    let mut top = stack.pop().unwrap();
    let ghost t0 = top@;
    top.add_child(n);
    stack.push(top);
    proof {
        assert(before.drop_last() =~= stack@.drop_last());
        assert(elems_view(stack@) =~= add_to_top(elems_view(before), node_view(n)));
    }
}

fn copy_attrs(a: &Vec<(String, String)>) -> (r: Vec<(String, String)>)
    ensures
        attrs_view(r@) == attrs_view(a@),
{
    let mut out: Vec<(String, String)> = Vec::new();
    let mut i: usize = 0;
    while i < a.len()
        invariant
            i <= a@.len(),
            attrs_view(out@) == attrs_view(a@).subrange(0, i as int),
        decreases a.len() - i,
    {
        let p = (a[i].0.clone(), a[i].1.clone());
        let ghost before = out@;
        out.push(p);
        proof {
            crate::xml::lemma_attrs_view_push(before, p);
            assert(attrs_view(out@) =~= attrs_view(a@).subrange(0, i + 1));
        }
        i = i + 1;
    }
    proof {
        assert(attrs_view(a@).subrange(0, a@.len() as int) =~= attrs_view(a@));
    }
    out
}

/// Builds the document tree from the reader's events.
#[verifier::rlimit(40)]
pub fn build_tree(events: &Vec<XmlEvent>) -> (r: Result<XmlElement, DomainError>)
    ensures
        match tree_of(events_view(events@)) {
            Ok(t) => r matches Ok(x) && x@ == t,
            Err(m) => r matches Err(e) && e.0@ == m,
        },
{
    let ghost evs = events_view(events@);
    let mut stack: Vec<XmlElement> = Vec::new();
    let mut root: Option<XmlElement> = None;
    proof {
        assert(elems_view(stack@) =~= Seq::<XElem>::empty());
        assert(evs.subrange(0, 0) =~= Seq::<XEvent>::empty());
    }
    let mut i: usize = 0;
    while i < events.len()
        invariant
            i <= events@.len(),
            evs == events_view(events@),
            read_events(evs.subrange(0, i as int)) == (ReadState {
                stack: elems_view(stack@),
                root: match root {
                    Some(x) => Some(x@),
                    None => None,
                },
            }),
        decreases events.len() - i,
    {
        proof {
            assert(evs.subrange(0, i + 1).drop_last() =~= evs.subrange(0, i as int));
            assert(evs.subrange(0, i + 1).last() == event_view(events@[i as int]));
        }
        match &events[i] {
            XmlEvent::Start(n, a) => {
                let e = XmlElement::with_attributes(n.as_str(), copy_attrs(a));
                let ghost before = stack@;
                stack.push(e);
                proof {
                    assert(elems_view(stack@) =~= elems_view(before).push(e@));
                }
            },
            XmlEvent::Empty(n, a) => {
                let e = XmlElement::with_attributes(n.as_str(), copy_attrs(a));
                if stack.len() > 0 {
                    add_node_to_top(&mut stack, XmlNode::Element(e));
                } else if root.is_none() {
                    root = Some(e);
                }
            },
            XmlEvent::End(_) => {
                if stack.len() > 0 {
                    let ghost before = stack@;
                    let e = stack.pop().unwrap();
                    proof {
                        assert(elems_view(stack@) =~= elems_view(before).drop_last());
                    }
                    if stack.len() > 0 {
                        add_node_to_top(&mut stack, XmlNode::Element(e));
                    } else {
                        root = Some(e);
                    }
                }
            },
            XmlEvent::Text(t) => {
                if stack.len() > 0 {
                    let d = decode_html_entities(t.as_str());
                    add_node_to_top(&mut stack, XmlNode::Text(d));
                }
            },
            XmlEvent::CData(t) => {
                if stack.len() > 0 {
                    add_node_to_top(&mut stack, XmlNode::CData(t.clone()));
                }
            },
            XmlEvent::Comment(t) => {
                if stack.len() > 0 {
                    add_node_to_top(&mut stack, XmlNode::Comment(t.clone()));
                }
            },
        }
        i = i + 1;
    }
    proof {
        assert(evs.subrange(0, evs.len() as int) =~= evs);
    }
    match root {
        Some(x) => Ok(x),
        None => Err(DomainError::new("Empty or invalid XML document")),
    }
}

/// The events that write an element: an empty-element tag when it has no children, else its
/// start tag, the events of its children in order, and its end tag.
pub open spec fn elem_events(e: XElem) -> Seq<XEvent>
    decreases e, 0int,
{
    if e.children.len() == 0 {
        seq![XEvent::Empty(e.name, e.attrs)]
    } else {
        seq![XEvent::Start(e.name, e.attrs)] + nodes_events(e.children) + seq![XEvent::End(e.name)]
    }
}

/// The events that write nodes, one after another.
pub open spec fn nodes_events(s: Seq<XNode>) -> Seq<XEvent>
    decreases s, 1int,
{
    if s.len() == 0 {
        Seq::empty()
    } else {
        nodes_events(s.drop_last()) + match s.last() {
            XNode::Element(c) => elem_events(c),
            XNode::Text(t) => seq![XEvent::Text(t)],
            XNode::CData(t) => seq![XEvent::CData(t)],
            XNode::Comment(t) => seq![XEvent::Comment(t)],
        }
    }
}

fn push_event(out: &mut Vec<XmlEvent>, e: XmlEvent)
    ensures
        events_view(final(out)@) == events_view(old(out)@).push(event_view(e)),
{
    out.push(e);
    proof {
        assert(events_view(out@) =~= events_view(old(out)@).push(event_view(e)));
    }
}

/// Appends the events that write `elem` to `out`.
pub fn push_element_events(elem: &XmlElement, out: &mut Vec<XmlEvent>)
    ensures
        events_view(final(out)@) == events_view(old(out)@) + elem_events(elem@),
    decreases elem,
{
    let ghost start = events_view(out@);
    let ghost cv = nodes_view(elem.children@);
    proof {
        lemma_nodes_view(elem.children@);
    }
    if elem.children.len() == 0 {
        push_event(out, XmlEvent::Empty(elem.name.clone(), copy_attrs(&elem.attributes)));
        proof {
            assert(events_view(out@) =~= start + elem_events(elem@));
        }
        return;
    }
    push_event(out, XmlEvent::Start(elem.name.clone(), copy_attrs(&elem.attributes)));
    let ghost mid = events_view(out@);
    proof {
        assert(cv.subrange(0, 0) =~= Seq::<XNode>::empty());
        assert(mid =~= start + seq![XEvent::Start(elem@.name, elem@.attrs)] + nodes_events(cv.subrange(0, 0)));
    }
    let mut i: usize = 0;
    while i < elem.children.len()
        invariant
            i <= elem.children@.len(),
            cv == nodes_view(elem.children@),
            cv.len() == elem.children@.len(),
            forall|k: int| 0 <= k < elem.children@.len() ==> #[trigger] cv[k] == node_view(elem.children@[k]),
            events_view(out@) == start + seq![XEvent::Start(elem@.name, elem@.attrs)] + nodes_events(cv.subrange(0, i as int)),
        decreases elem.children.len() - i,
    {
        let ghost before = events_view(out@);
        match &elem.children[i] {
            XmlNode::Element(c) => {
                assert(decreases_to!(elem => elem.children));
                push_element_events(c, out);
            },
            XmlNode::Text(t) => push_event(out, XmlEvent::Text(t.clone())),
            XmlNode::CData(t) => push_event(out, XmlEvent::CData(t.clone())),
            XmlNode::Comment(t) => push_event(out, XmlEvent::Comment(t.clone())),
        }
        proof {
            assert(cv.subrange(0, i + 1).drop_last() =~= cv.subrange(0, i as int));
            assert(cv.subrange(0, i + 1).last() == cv[i as int]);
            assert(events_view(out@) =~= start + seq![XEvent::Start(elem@.name, elem@.attrs)] + nodes_events(cv.subrange(0, i + 1)));
        }
        i = i + 1;
    }
    push_event(out, XmlEvent::End(elem.name.clone()));
    proof {
        assert(cv.subrange(0, cv.len() as int) =~= cv);
        assert(events_view(out@) =~= start + elem_events(elem@));
    }
}

/// The events that write a document tree, in order.
pub fn element_events(root: &XmlElement) -> (r: Vec<XmlEvent>)
    ensures
        events_view(r@) == elem_events(root@),
{
    let mut out: Vec<XmlEvent> = Vec::new();
    proof {
        assert(events_view(out@) =~= Seq::<XEvent>::empty());
    }
    push_element_events(root, &mut out);
    proof {
        assert(Seq::<XEvent>::empty() + elem_events(root@) =~= elem_events(root@));
    }
    out
}

} // verus!
