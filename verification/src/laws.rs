//! What holds of the library as a whole: properties that relate its operations, proved over
//! the same specifications their contracts use.

use vstd::prelude::*;

use crate::add_import::payload_base;
use crate::commands::{difference_spec, union_spec};
use crate::doctor::{all_ready, js_ok, needs_eval, next_steps, DoctorFacts};
use crate::docx_render::{concat_texts, has_placeholder, replace_elem, replace_nodes};
use crate::docx_working::{para_nodes, work_elem, work_nodes};
use crate::json::{insert_spec, keys_ascending, lemma_insert, member, JsonV};
use crate::text::{all_digits, digits_value, int_decimal, is_digit, nat_decimal, parse_i64_spec};
use crate::static_render::html_entities_decoded;
use crate::xml::{find_all_in, tag_matches, text_in, XElem, XNode};
use crate::xml_events::{add_to_top, elem_events, nodes_events, read_events, read_step, tree_of, ReadState, XEvent};

verus! {

/// Adding tags (or keys) to a list keeps every entry it had and adds every new one, and
/// nothing else.
pub proof fn law_union_contains(list: Seq<Seq<char>>, add: Seq<Seq<char>>, x: Seq<char>)
    ensures
        union_spec(list, add).contains(x) <==> (list.contains(x) || add.contains(x)),
    decreases add.len(),
{
    if add.len() > 0 {
        law_union_contains(list, add.drop_last(), x);
        let prefix = union_spec(list, add.drop_last());
        assert(add.contains(x) <==> (add.drop_last().contains(x) || add.last() == x)) by {
            if add.contains(x) {
                let i = choose|i: int| 0 <= i < add.len() && add[i] == x;
                if i < add.len() - 1 {
                    assert(add.drop_last()[i] == x);
                }
            }
            if add.drop_last().contains(x) {
                let i = choose|i: int| 0 <= i < add.drop_last().len() && add.drop_last()[i] == x;
                assert(add[i] == x);
            }
            if add.last() == x {
                assert(add[add.len() - 1] == x);
            }
        }
        if !prefix.contains(add.last()) {
            assert(prefix.push(add.last()).contains(x) <==> (prefix.contains(x) || add.last() == x)) by {
                if prefix.push(add.last()).contains(x) {
                    let i = choose|i: int| 0 <= i < prefix.push(add.last()).len() && prefix.push(add.last())[i] == x;
                    if i < prefix.len() {
                        assert(prefix[i] == x);
                    }
                }
                if prefix.contains(x) {
                    let i = choose|i: int| 0 <= i < prefix.len() && prefix[i] == x;
                    assert(prefix.push(add.last())[i] == x);
                }
                if add.last() == x {
                    assert(prefix.push(add.last())[prefix.len() as int] == x);
                }
            }
        }
    }
}

/// Adding entries that are all there already changes nothing.
pub proof fn law_union_of_present(list: Seq<Seq<char>>, add: Seq<Seq<char>>)
    requires
        forall|i: int| 0 <= i < add.len() ==> list.contains(#[trigger] add[i]),
    ensures
        union_spec(list, add) == list,
    decreases add.len(),
{
    if add.len() > 0 {
        assert forall|i: int| 0 <= i < add.drop_last().len() implies list.contains(#[trigger] add.drop_last()[i]) by {
            assert(add.drop_last()[i] == add[i]);
        }
        law_union_of_present(list, add.drop_last());
        assert(list.contains(add[add.len() - 1]));
    }
}

/// Adding the same entries twice is adding them once.
pub proof fn law_union_idempotent(list: Seq<Seq<char>>, add: Seq<Seq<char>>)
    ensures
        union_spec(union_spec(list, add), add) == union_spec(list, add),
{
    assert forall|i: int| 0 <= i < add.len() implies union_spec(list, add).contains(#[trigger] add[i]) by {
        law_union_contains(list, add, add[i]);
        assert(add.contains(add[i]));
    }
    law_union_of_present(union_spec(list, add), add);
}

/// Removing entries keeps exactly the entries of the list that are not removed.
pub proof fn law_difference_contains(list: Seq<Seq<char>>, remove: Seq<Seq<char>>, x: Seq<char>)
    ensures
        difference_spec(list, remove).contains(x) <==> (list.contains(x) && !remove.contains(x)),
{
    let pred = |y: Seq<char>| !remove.contains(y);
    assert(difference_spec(list, remove) == list.filter(pred));
    if list.contains(x) && !remove.contains(x) {
        let i = choose|i: int| 0 <= i < list.len() && list[i] == x;
        list.lemma_filter_contains(pred, i);
    }
    if difference_spec(list, remove).contains(x) {
        list.lemma_filter_contains_rev(pred, x);
        let j = choose|j: int| 0 <= j < list.filter(pred).len() && list.filter(pred)[j] == x;
        list.lemma_filter_pred(pred, j);
    }
}

proof fn lemma_nat_decimal(n: nat)
    ensures
        all_digits(nat_decimal(n)),
        nat_decimal(n).len() > 0,
        digits_value(nat_decimal(n)) == n,
        is_digit(nat_decimal(n)[0]),
    decreases n,
{
    if n >= 10 {
        lemma_nat_decimal(n / 10);
        let s = nat_decimal(n);
        let p = nat_decimal(n / 10);
        assert(s == p.push((('0' as u32) + (n % 10)) as char));
        assert(s.drop_last() == p);
        assert forall|i: int| 0 <= i < s.len() implies is_digit(#[trigger] s[i]) by {
            if i < p.len() {
                assert(s[i] == p[i]);
            }
        }
        assert(s[0] == p[0]);
        let d = n % 10;
        let c = (('0' as u32) + d) as char;
        assert(c as int == 48 + d);
        assert(s.last() == c);
        assert(digits_value(s) == digits_value(p) * 10 + (c as int - '0' as int));
        assert(n == (n / 10) * 10 + n % 10) by (nonlinear_arith);
    } else {
        let s = nat_decimal(n);
        let c = (('0' as u32) + n) as char;
        assert(c as int == 48 + n);
        assert(s == seq![c]);
        assert(s.drop_last() =~= Seq::<char>::empty());
        assert(digits_value(s) == digits_value(s.drop_last()) * 10 + (c as int - '0' as int));
    }
}

/// Writing a whole number in decimal and reading it back gives the number.
pub proof fn law_decimal_roundtrip(n: i64)
    ensures
        parse_i64_spec(int_decimal(n as int)) == Some(n),
{
    if n < 0 {
        let m = (-(n as int)) as nat;
        lemma_nat_decimal(m);
        let s = int_decimal(n as int);
        assert(s == seq!['-'] + nat_decimal(m));
        assert(s.drop_first() =~= nat_decimal(m));
    } else {
        lemma_nat_decimal(n as nat);
    }
}

/// Every add or import payload carries its action, outcome and status (and its code and
/// error when it has them).
pub proof fn law_payload_members(action: Seq<char>, ok: bool, status: Seq<char>, code: Option<Seq<char>>, error: Option<Seq<char>>)
    ensures
        keys_ascending(payload_base(action, ok, status, code, error)),
        member(payload_base(action, ok, status, code, error), "action"@) == Some(JsonV::Str(action)),
        member(payload_base(action, ok, status, code, error), "ok"@) == Some(JsonV::Bool(ok)),
        member(payload_base(action, ok, status, code, error), "status"@) == Some(JsonV::Str(status)),
        code is Some ==> member(payload_base(action, ok, status, code, error), "code"@) == Some(JsonV::Str(code->Some_0)),
        error is Some ==> member(payload_base(action, ok, status, code, error), "error"@) == Some(JsonV::Str(error->Some_0)),
{
    reveal_strlit("action");
    reveal_strlit("ok");
    reveal_strlit("status");
    reveal_strlit("code");
    reveal_strlit("error");
    let e = Seq::<(Seq<char>, JsonV)>::empty();
    assert(keys_ascending(e));
    lemma_insert(e, "action"@, JsonV::Str(action));
    let m1 = insert_spec(e, "action"@, JsonV::Str(action));
    lemma_insert(m1, "ok"@, JsonV::Bool(ok));
    let m2 = insert_spec(m1, "ok"@, JsonV::Bool(ok));
    lemma_insert(m2, "status"@, JsonV::Str(status));
    let m3 = insert_spec(m2, "status"@, JsonV::Str(status));
    assert(member(m3, "action"@) == Some(JsonV::Str(action)));
    assert(member(m3, "ok"@) == Some(JsonV::Bool(ok)));
    let m4 = match code {
        Some(c) => insert_spec(m3, "code"@, JsonV::Str(c)),
        None => m3,
    };
    if let Some(c) = code {
        lemma_insert(m3, "code"@, JsonV::Str(c));
    }
    assert(member(m4, "action"@) == Some(JsonV::Str(action)));
    assert(member(m4, "ok"@) == Some(JsonV::Bool(ok)));
    assert(member(m4, "status"@) == Some(JsonV::Str(status)));
    if let Some(er) = error {
        lemma_insert(m4, "error"@, JsonV::Str(er));
    }
}

/// The doctor never ends without advice, and an install it calls ready can always write.
pub proof fn law_doctor_ready_writes(f: DoctorFacts, eval: Option<crate::bridge::BridgeResponse>)
    ensures
        next_steps(f, js_ok(f, eval)).len() > 0,
        all_ready(f, js_ok(f, eval)) ==> (needs_eval(f.probe) && js_ok(f, eval)),
{
}


/// A tree with nothing to render statically: no `w:t` holds a placeholder, nor do the texts
/// of any paragraph together.
pub open spec fn static_clean(e: XElem) -> bool
    decreases e, 0int,
{
    &&& !(tag_matches(e.name, "w:t"@) && has_placeholder(text_in(e)))
    &&& !(tag_matches(e.name, "w:p"@) && has_placeholder(concat_texts(find_all_in(e, "w:t"@))))
    &&& static_clean_nodes(e.children)
}

/// Nodes with nothing to render statically.
pub open spec fn static_clean_nodes(s: Seq<XNode>) -> bool
    decreases s, 1int,
{
    if s.len() == 0 {
        true
    } else {
        static_clean_nodes(s.drop_last()) && match s.last() {
            XNode::Element(c) => static_clean(c),
            _ => true,
        }
    }
}

/// Rendering a document without placeholders leaves it as it was and renders nothing.
pub proof fn law_static_render_without_placeholders(e: XElem, items: Seq<(Seq<char>, Seq<char>, Seq<char>)>)
    requires
        static_clean(e),
    ensures
        replace_elem(e, items) == Ok::<(XElem, Seq<crate::docx_render::PlaceholderV>), Seq<char>>((e, Seq::empty())),
    decreases e, 0int,
{
    law_static_render_nodes_without_placeholders(e.children, items);
}

/// Rendering nodes without placeholders leaves them as they were.
pub proof fn law_static_render_nodes_without_placeholders(s: Seq<XNode>, items: Seq<(Seq<char>, Seq<char>, Seq<char>)>)
    requires
        static_clean_nodes(s),
    ensures
        replace_nodes(s, items) == Ok::<(Seq<XNode>, Seq<crate::docx_render::PlaceholderV>), Seq<char>>((s, Seq::empty())),
    decreases s, 1int,
{
    if s.len() > 0 {
        law_static_render_nodes_without_placeholders(s.drop_last(), items);
        match s.last() {
            XNode::Element(c) => {
                law_static_render_without_placeholders(c, items);
            },
            _ => {},
        }
        assert(s.drop_last().push(s.last()) =~= s);
        assert(Seq::<crate::docx_render::PlaceholderV>::empty() + Seq::<crate::docx_render::PlaceholderV>::empty() =~= Seq::<
            crate::docx_render::PlaceholderV,
        >::empty());
    } else {
        assert(s =~= Seq::<XNode>::empty());
    }
}

/// Whether a node is a run holding a placeholder.
pub open spec fn placeholder_run(n: XNode) -> bool {
    n matches XNode::Element(r) && tag_matches(r.name, "w:r"@) && has_placeholder(text_in(r))
}

/// A tree with nothing to link: no paragraph has a run holding a placeholder.
pub open spec fn working_clean(e: XElem) -> bool
    decreases e, 0int,
{
    &&& (tag_matches(e.name, "w:p"@) ==> forall|i: int| 0 <= i < e.children.len() ==> !placeholder_run(#[trigger] e.children[i]))
    &&& working_clean_nodes(e.children)
}

/// Nodes with nothing to link.
pub open spec fn working_clean_nodes(s: Seq<XNode>) -> bool
    decreases s, 1int,
{
    if s.len() == 0 {
        true
    } else {
        working_clean_nodes(s.drop_last()) && match s.last() {
            XNode::Element(c) => working_clean(c),
            _ => true,
        }
    }
}

proof fn lemma_para_without_runs(s: Seq<XNode>, ts: Seq<Seq<char>>, items: Seq<(Seq<char>, JsonV)>)
    requires
        forall|i: int| 0 <= i < s.len() ==> !placeholder_run(#[trigger] s[i]),
    ensures
        para_nodes(s, ts, items) == Ok::<(Seq<XNode>, Seq<JsonV>, nat, bool), Seq<char>>((s, Seq::empty(), 0, false)),
    decreases s.len(),
{
    if s.len() > 0 {
        assert forall|i: int| 0 <= i < s.drop_last().len() implies !placeholder_run(#[trigger] s.drop_last()[i]) by {
            assert(s.drop_last()[i] == s[i]);
        }
        lemma_para_without_runs(s.drop_last(), ts, items);
        assert(!placeholder_run(s[s.len() - 1]));
        assert(s.drop_last().push(s.last()) =~= s);
    } else {
        assert(s =~= Seq::<XNode>::empty());
    }
}

/// Converting a document without placeholders leaves it as it was, records nothing, and
/// takes no token.
pub proof fn law_working_without_placeholders(e: XElem, ts: Seq<Seq<char>>, items: Seq<(Seq<char>, JsonV)>)
    requires
        working_clean(e),
    ensures
        work_elem(e, ts, items) == Ok::<(XElem, Seq<JsonV>, nat), Seq<char>>((e, Seq::empty(), 0)),
    decreases e, 0int,
{
    if tag_matches(e.name, "w:p"@) {
        lemma_para_without_runs(e.children, ts, items);
    }
    law_working_nodes_without_placeholders(e.children, ts, items);
}

/// Converting nodes without placeholders leaves them as they were.
pub proof fn law_working_nodes_without_placeholders(s: Seq<XNode>, ts: Seq<Seq<char>>, items: Seq<(Seq<char>, JsonV)>)
    requires
        working_clean_nodes(s),
    ensures
        work_nodes(s, ts, items) == Ok::<(Seq<XNode>, Seq<JsonV>, nat), Seq<char>>((s, Seq::empty(), 0)),
    decreases s, 1int,
{
    if s.len() > 0 {
        law_working_nodes_without_placeholders(s.drop_last(), ts, items);
        match s.last() {
            XNode::Element(c) => {
                law_working_without_placeholders(c, ts.subrange(0, ts.len() as int), items);
                assert(ts.subrange(0, ts.len() as int) =~= ts);
            },
            _ => {},
        }
        assert(s.drop_last().push(s.last()) =~= s);
        assert(Seq::<JsonV>::empty() + Seq::<JsonV>::empty() =~= Seq::<JsonV>::empty());
    } else {
        assert(s =~= Seq::<XNode>::empty());
    }
}

/// Every text node of the tree reads back as itself (no entity in it to decode).
pub open spec fn plain_texts(e: XElem) -> bool
    decreases e, 0int,
{
    plain_texts_nodes(e.children)
}

/// Every text node among `s` and below reads back as itself.
pub open spec fn plain_texts_nodes(s: Seq<XNode>) -> bool
    decreases s, 1int,
{
    if s.len() == 0 {
        true
    } else {
        plain_texts_nodes(s.drop_last()) && match s.last() {
            XNode::Element(c) => plain_texts(c),
            XNode::Text(t) => html_entities_decoded(t) == t,
            _ => true,
        }
    }
}

/// Reading `evs` from the state `st`.
pub open spec fn read_from(st: ReadState, evs: Seq<XEvent>) -> ReadState
    decreases evs.len(),
{
    if evs.len() == 0 {
        st
    } else {
        read_step(read_from(st, evs.drop_last()), evs.last())
    }
}

proof fn lemma_read_from_start(evs: Seq<XEvent>)
    ensures
        read_events(evs) == read_from(ReadState { stack: Seq::empty(), root: None }, evs),
    decreases evs.len(),
{
    if evs.len() > 0 {
        lemma_read_from_start(evs.drop_last());
    }
}

proof fn lemma_read_from_append(st: ReadState, a: Seq<XEvent>, b: Seq<XEvent>)
    ensures
        read_from(st, a + b) == read_from(read_from(st, a), b),
    decreases b.len(),
{
    if b.len() == 0 {
        assert(a + b =~= a);
    } else {
        assert((a + b).drop_last() =~= a + b.drop_last());
        lemma_read_from_append(st, a, b.drop_last());
    }
}

/// Reading the events of nodes inside an open element adds them to it as its last children.
proof fn lemma_read_nodes(s: Seq<XElem>, x: XElem, root: Option<XElem>, cs: Seq<XNode>)
    requires
        plain_texts_nodes(cs),
    ensures
        read_from(ReadState { stack: s.push(x), root }, nodes_events(cs))
            == (ReadState { stack: s.push(XElem { children: x.children + cs, ..x }), root }),
    decreases cs, 1int,
{
    let st = ReadState { stack: s.push(x), root };
    if cs.len() == 0 {
        assert(nodes_events(cs) =~= Seq::<XEvent>::empty());
        assert(x.children + cs =~= x.children);
        assert(XElem { children: x.children + cs, ..x } =~= x);
    } else {
        let init = cs.drop_last();
        lemma_read_nodes(s, x, root, init);
        let x1 = XElem { children: x.children + init, ..x };
        let mid = ReadState { stack: s.push(x1), root };
        let last_evs = match cs.last() {
            XNode::Element(c) => elem_events(c),
            XNode::Text(t) => seq![XEvent::Text(t)],
            XNode::CData(t) => seq![XEvent::CData(t)],
            XNode::Comment(t) => seq![XEvent::Comment(t)],
        };
        assert(nodes_events(cs) == nodes_events(init) + last_evs);
        lemma_read_from_append(st, nodes_events(init), last_evs);
        assert(x.children + cs =~= (x1.children).push(cs.last()));
        match cs.last() {
            XNode::Element(c) => {
                lemma_read_elem(s.push(x1), root, c);
                assert(add_to_top(s.push(x1), XNode::Element(c)) =~= s.push(XElem { children: x1.children.push(cs.last()), ..x1 }));
            },
            _ => {
                assert(last_evs.drop_last() =~= Seq::<XEvent>::empty());
                assert(read_from(mid, last_evs.drop_last()) == mid);
                assert(add_to_top(s.push(x1), cs.last()) =~= s.push(XElem { children: x1.children.push(cs.last()), ..x1 }));
            },
        }
    }
}

/// Reading the events of an element inside an open element adds it as its last child; with
/// nothing open and no root yet, it becomes the root.
proof fn lemma_read_elem(s: Seq<XElem>, root: Option<XElem>, c: XElem)
    requires
        plain_texts(c),
        s.len() > 0 || root is None,
    ensures
        read_from(ReadState { stack: s, root }, elem_events(c)) == (if s.len() > 0 {
            ReadState { stack: add_to_top(s, XNode::Element(c)), root }
        } else {
            ReadState { stack: s, root: Some(c) }
        }),
    decreases c, 0int,
{
    let st = ReadState { stack: s, root };
    if c.children.len() == 0 {
        assert(c.children =~= Seq::<XNode>::empty());
        let e = XElem { name: c.name, attrs: c.attrs, children: Seq::empty() };
        assert(e =~= c);
        assert(elem_events(c).drop_last() =~= Seq::<XEvent>::empty());
        assert(read_from(st, elem_events(c).drop_last()) == st);
        assert(elem_events(c).last() == XEvent::Empty(c.name, c.attrs));
    } else {
        let x = XElem { name: c.name, attrs: c.attrs, children: Seq::empty() };
        let head = seq![XEvent::Start(c.name, c.attrs)];
        let body = nodes_events(c.children);
        let tail = seq![XEvent::End(c.name)];
        assert(elem_events(c) == head + body + tail);
        lemma_read_from_append(st, head + body, tail);
        lemma_read_from_append(st, head, body);
        assert(head.drop_last() =~= Seq::<XEvent>::empty());
        assert(tail.drop_last() =~= Seq::<XEvent>::empty());
        let st1 = ReadState { stack: s.push(x), root };
        assert(read_from(st, head.drop_last()) == st);
        assert(head.last() == XEvent::Start(c.name, c.attrs));
        assert(read_from(st, head) == st1);
        lemma_read_nodes(s, x, root, c.children);
        assert(x.children + c.children =~= c.children);
        assert(XElem { children: x.children + c.children, ..x } =~= c);
        let st2 = ReadState { stack: s.push(c), root };
        assert(read_from(st, head + body) == st2);
        assert(read_from(st2, tail.drop_last()) == st2);
        assert(tail.last() == XEvent::End(c.name));
        assert(s.push(c).drop_last() =~= s);
        assert(s.push(c).last() == c);
    }
}

/// Reading back the events that write a tree gives the tree again, where no text in it holds
/// an entity to decode.
pub proof fn law_events_roundtrip(e: XElem)
    requires
        plain_texts(e),
    ensures
        tree_of(elem_events(e)) == Ok::<XElem, Seq<char>>(e),
{
    lemma_read_from_start(elem_events(e));
    lemma_read_elem(Seq::empty(), None, e);
}

proof fn lemma_missing_none(keys: Seq<Seq<char>>, outs: Seq<Result<crate::db::Item, String>>, n: int)
    requires
        0 <= n <= outs.len(),
    ensures
        (crate::docx_validate::missing_keys(keys, outs, n).len() == 0) <==> (forall|i: int| 0 <= i < n ==> #[trigger] outs[i] is Ok),
    decreases n,
{
    if n > 0 {
        lemma_missing_none(keys, outs, n - 1);
        if !(outs[n - 1] is Ok) {
            assert(crate::docx_validate::missing_keys(keys, outs, n).len() > 0);
        }
    }
}

/// Validating placeholders reports `ok` exactly when no placeholder is malformed and every
/// key was found.
pub proof fn law_validation_ok(report: JsonV, outs: Seq<Result<crate::db::Item, String>>)
    requires
        crate::json::keys_ascending(crate::docx_validate::report_members(report)),
        outs.len() == crate::docx_validate::keys_to_check(report).len(),
    ensures
        crate::json::get_spec(crate::docx_validate::validation_spec(report, outs), "ok"@)
            == Some(JsonV::Bool(crate::docx_validate::invalid_count(report) == 0 && forall|i: int| 0 <= i < outs.len() ==> #[trigger] outs[i] is Ok)),
{
    let keys = crate::docx_validate::keys_to_check(report);
    let n = keys.len() as int;
    lemma_missing_none(keys, outs, n);
    let items = crate::docx_validate::found_summaries(outs, n);
    let missing = crate::docx_validate::missing_keys(keys, outs, n);
    let ok = crate::docx_validate::invalid_count(report) == 0 && missing.len() == 0;
    let notes = crate::docx_validate::report_strings(report, "notes"@) + (if missing.len() > 0 {
        seq!["Some Zotero placeholder keys do not resolve to local Zotero items."@]
    } else {
        Seq::empty()
    }) + (if ok {
        seq!["All Zotero placeholders resolve to real local Zotero items."@]
    } else {
        Seq::empty()
    });
    let m0 = crate::docx_validate::report_members(report);
    let m1 = insert_spec(m0, "notes"@, crate::docx_report::str_array(notes));
    lemma_insert(m0, "notes"@, crate::docx_report::str_array(notes));
    let m2 = insert_spec(m1, "ok"@, JsonV::Bool(ok));
    lemma_insert(m1, "ok"@, JsonV::Bool(ok));
    let m3 = insert_spec(m2, "valid_count"@, JsonV::Number(nat_decimal(items.len())));
    lemma_insert(m2, "valid_count"@, JsonV::Number(nat_decimal(items.len())));
    let m4 = insert_spec(m3, "missing_count"@, JsonV::Number(nat_decimal(missing.len())));
    lemma_insert(m3, "missing_count"@, JsonV::Number(nat_decimal(missing.len())));
    let m5 = insert_spec(m4, "items"@, JsonV::Array(items));
    lemma_insert(m4, "items"@, JsonV::Array(items));
    let m6 = insert_spec(m5, "missing_keys"@, crate::docx_report::str_array(missing));
    lemma_insert(m5, "missing_keys"@, crate::docx_report::str_array(missing));
    let m7 = insert_spec(m6, "errors"@, JsonV::Object(crate::docx_validate::lookup_errors(keys, outs, n)));
    lemma_insert(m6, "errors"@, JsonV::Object(crate::docx_validate::lookup_errors(keys, outs, n)));
    assert("ok"@ != "valid_count"@ && "ok"@ != "missing_count"@ && "ok"@ != "items"@ && "ok"@ != "missing_keys"@
        && "ok"@ != "errors"@) by {
        reveal_strlit("ok");
        reveal_strlit("valid_count");
        reveal_strlit("missing_count");
        reveal_strlit("items");
        reveal_strlit("missing_keys");
        reveal_strlit("errors");
    }
    assert(member(m7, "ok"@) == Some(JsonV::Bool(ok)));
}

} // verus!
