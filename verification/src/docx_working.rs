//! The working document: each `{{zotero:...}}` placeholder in a run becomes a link to a
//! unique placeholder id, recorded with the items it cites.

use vstd::prelude::*;

use crate::clock::{hex_padded, token_spec, TokenCounter};
use crate::docx_inspect::parse_placeholder_keys;
use crate::docx_render::{has_placeholder, lemma_nodes_view_push, piece_at, placeholder_in, placeholder_pattern, placeholder_pattern_exec, raw_keys};
use crate::error::DomainError;
use crate::json::{entries_view, jsons_view, member, member_get, Json, JsonV};
use crate::pattern::{regex_capture, regex_matches, regex_matches_result, regex_split, regex_split_result};
use crate::text::{chars_of, concat_str, str_is_empty, int_decimal, i64_to_string, parse_i64_spec, string_from_range, strings_view};
use crate::xml::{
    create_hyperlink_node, create_run_with_text, hyperlink_spec, lemma_nodes_view, node_view, nodes_view, run_spec,
    tag_matches, text_in, XElem, XNode, XmlElement, XmlNode,
};

verus! {

/// The placeholder id of a token.
pub open spec fn placeholder_id(token: Seq<char>) -> Seq<char> {
    "ZOTERO_CLI_PLACEHOLDER_"@ + token
}

/// The relationship id of a token: its first sixteen characters after `rIdZoteroCli`.
pub open spec fn relationship_id(token: Seq<char>) -> Seq<char> {
    "rIdZoteroCli"@ + token.subrange(0, 16)
}

/// An integer member of an item payload, or `default` when it is absent or not an `i64`.
pub open spec fn int_member(item: JsonV, key: Seq<char>, default: i64) -> i64 {
    match crate::json::get_spec(item, key) {
        Some(JsonV::Number(t)) => match parse_i64_spec(t) {
            Some(v) => v,
            None => default,
        },
        _ => default,
    }
}

/// A string member of an item payload, or empty.
pub open spec fn str_member(item: JsonV, key: Seq<char>) -> Seq<char> {
    match crate::json::get_spec(item, key) {
        Some(JsonV::Str(s)) => s,
        _ => Seq::empty(),
    }
}

/// The first key without an item payload.
pub open spec fn first_missing(keys: Seq<Seq<char>>, items: Seq<(Seq<char>, JsonV)>) -> Option<Seq<char>>
    decreases keys.len(),
{
    if keys.len() == 0 {
        None
    } else if member(items, keys[0]) is None {
        Some(keys[0])
    } else {
        first_missing(keys.drop_first(), items)
    }
}

/// The members of a cited item's entry: `itemID`, `key`, `libraryID`, `title`.
pub open spec fn item_entries(k: Seq<char>, item: JsonV) -> Seq<(Seq<char>, JsonV)> {
    seq![
        ("itemID"@, JsonV::Number(int_decimal(int_member(item, "itemID"@, 0) as int))),
        ("key"@, JsonV::Str(k)),
        ("libraryID"@, JsonV::Number(int_decimal(int_member(item, "libraryID"@, 1) as int))),
        ("title"@, JsonV::Str(str_member(item, "title"@))),
    ]
}

/// `{"itemID", "key", "libraryID", "title"}` of a cited item.
pub open spec fn item_json(k: Seq<char>, item: JsonV) -> JsonV {
    JsonV::Object(item_entries(k, item))
}

/// `{"id": itemID}` of a cited item.
pub open spec fn citation_item_json(item: JsonV) -> JsonV {
    JsonV::Object(seq![("id"@, JsonV::Number(int_decimal(int_member(item, "itemID"@, 0) as int)))])
}

/// The CSL citation schema URL.
pub open spec fn csl_schema() -> Seq<char> {
    "https://github.com/citation-style-language/schema/raw/master/csl-citation.json"@
}

/// The item payload of `k` (null when absent).
pub open spec fn item_of(items: Seq<(Seq<char>, JsonV)>, k: Seq<char>) -> JsonV {
    match member(items, k) {
        Some(v) => v,
        None => JsonV::Null,
    }
}

/// The members of a placeholder's citation: `citationItems`, `properties`, `schema`.
pub open spec fn citation_entries(keys: Seq<Seq<char>>, items: Seq<(Seq<char>, JsonV)>) -> Seq<(Seq<char>, JsonV)> {
    seq![
        ("citationItems"@, JsonV::Array(keys.map_values(|k: Seq<char>| citation_item_json(item_of(items, k))))),
        ("properties"@, JsonV::Object(seq![("noteIndex"@, JsonV::Number("0"@))])),
        ("schema"@, JsonV::Str(csl_schema())),
    ]
}

/// The members of a placeholder record: `citation`, `items`, `keys`, `placeholder_id`,
/// `relationship_id`.
pub open spec fn record_entries(keys: Seq<Seq<char>>, items: Seq<(Seq<char>, JsonV)>, token: Seq<char>) -> Seq<(Seq<char>, JsonV)> {
    seq![
        ("citation"@, JsonV::Object(citation_entries(keys, items))),
        ("items"@, JsonV::Array(keys.map_values(|k: Seq<char>| item_json(k, item_of(items, k))))),
        ("keys"@, JsonV::Array(keys.map_values(|k: Seq<char>| JsonV::Str(k)))),
        ("placeholder_id"@, JsonV::Str(placeholder_id(token))),
        ("relationship_id"@, JsonV::Str(relationship_id(token))),
    ]
}

/// The record of one placeholder.
pub open spec fn placeholder_record(keys: Seq<Seq<char>>, items: Seq<(Seq<char>, JsonV)>, token: Seq<char>) -> JsonV {
    JsonV::Object(record_entries(keys, items, token))
}

/// The record of the placeholder `raw` under `token`, or the error for an invalid
/// placeholder or an unresolved key.
pub open spec fn placeholder_entry(raw: Seq<char>, token: Seq<char>, items: Seq<(Seq<char>, JsonV)>) -> Result<JsonV, Seq<char>> {
    let (keys, invalid) = raw_keys(raw);
    if invalid.len() > 0 || keys.len() == 0 {
        Err("Invalid Zotero placeholder: "@ + raw)
    } else {
        match first_missing(keys, items) {
            Some(k) => Err("Zotero item key was not resolved: "@ + k),
            None => Ok(placeholder_record(keys, items, token)),
        }
    }
}

/// A run with `text` formatted like `run`, when `text` is not empty.
pub open spec fn opt_run(run: XElem, text: Seq<char>) -> Seq<XNode> {
    if text.len() > 0 {
        seq![XNode::Element(run_spec(Some(run), text))]
    } else {
        Seq::empty()
    }
}

/// A run split at its first `k` placeholders: the text runs between them and a link per
/// placeholder, with the placeholder records.
pub open spec fn run_nodes(
    run: XElem,
    pieces: Seq<Seq<char>>,
    ms: Seq<Seq<char>>,
    ts: Seq<Seq<char>>,
    items: Seq<(Seq<char>, JsonV)>,
    k: int,
) -> Result<(Seq<XNode>, Seq<JsonV>), Seq<char>>
    decreases k,
{
    if k <= 0 {
        Ok((opt_run(run, piece_at(pieces, 0)), Seq::empty()))
    } else {
        match run_nodes(run, pieces, ms, ts, items, k - 1) {
            Err(m) => Err(m),
            Ok((ns, es)) => match placeholder_entry(ms[k - 1], ts[k - 1], items) {
                Err(m) => Err(m),
                Ok(e) => Ok((
                    ns + seq![XNode::Element(hyperlink_spec(relationship_id(ts[k - 1]), placeholder_id(ts[k - 1])))]
                        + opt_run(run, piece_at(pieces, k)),
                    es.push(e),
                )),
            },
        }
    }
}

/// The placeholders in a run's text.
pub open spec fn run_matches(text: Seq<char>) -> Seq<Seq<char>> {
    match regex_matches_result(placeholder_pattern(), text) {
        Some(ms) => ms,
        None => Seq::empty(),
    }
}

/// The texts between a run's placeholders.
pub open spec fn run_pieces(text: Seq<char>) -> Seq<Seq<char>> {
    match regex_split_result(placeholder_pattern(), text) {
        Some(ps) => ps,
        None => seq![text],
    }
}

/// Whether a node is a run holding a placeholder.
pub open spec fn is_placeholder_run(n: XNode) -> bool {
    n matches XNode::Element(r) && tag_matches(r.name, "w:r"@) && has_placeholder(text_in(r))
}

/// A paragraph's children with each placeholder run split, the records, and the tokens
/// used (taken from the front of `ts`); whether any run was split.
pub open spec fn para_nodes(s: Seq<XNode>, ts: Seq<Seq<char>>, items: Seq<(Seq<char>, JsonV)>) -> Result<(Seq<XNode>, Seq<JsonV>, nat, bool), Seq<char>>
    decreases s.len(),
{
    if s.len() == 0 {
        Ok((Seq::empty(), Seq::empty(), 0, false))
    } else {
        match para_nodes(s.drop_last(), ts, items) {
            Err(m) => Err(m),
            Ok((ns, es, used, modified)) => match s.last() {
                XNode::Element(r) => if tag_matches(r.name, "w:r"@) && has_placeholder(text_in(r)) {
                    let t = text_in(r);
                    let n = run_matches(t).len();
                    match run_nodes(r, run_pieces(t), run_matches(t), ts.subrange(used as int, ts.len() as int), items, n as int) {
                        Err(m) => Err(m),
                        Ok((rn, re)) => Ok((ns + rn, es + re, used + n, true)),
                    }
                } else {
                    Ok((ns.push(s.last()), es, used, modified))
                },
                _ => Ok((ns.push(s.last()), es, used, modified)),
            },
        }
    }
}

/// The tree rooted at `e` with placeholder runs replaced by links, the placeholder records
/// in document order, and the number of tokens used from the front of `ts`; or the first
/// error. A paragraph with a placeholder run is rewritten run by run; any other element is
/// handled child by child.
pub open spec fn work_elem(e: XElem, ts: Seq<Seq<char>>, items: Seq<(Seq<char>, JsonV)>) -> Result<(XElem, Seq<JsonV>, nat), Seq<char>>
    decreases e, 0int,
{
    let para = if tag_matches(e.name, "w:p"@) {
        para_nodes(e.children, ts, items)
    } else {
        Ok((Seq::empty(), Seq::empty(), 0, false))
    };
    match para {
        Err(m) => Err(m),
        Ok((ns, es, used, modified)) => if modified {
            Ok((XElem { children: ns, ..e }, es, used))
        } else {
            match work_nodes(e.children, ts, items) {
                Err(m) => Err(m),
                Ok((cs, es2, used2)) => Ok((XElem { children: cs, ..e }, es2, used2)),
            }
        },
    }
}

/// The nodes handled in order, threading the tokens.
pub open spec fn work_nodes(s: Seq<XNode>, ts: Seq<Seq<char>>, items: Seq<(Seq<char>, JsonV)>) -> Result<(Seq<XNode>, Seq<JsonV>, nat), Seq<char>>
    decreases s, 1int,
{
    if s.len() == 0 {
        Ok((Seq::empty(), Seq::empty(), 0))
    } else {
        match work_nodes(s.drop_last(), ts, items) {
            Err(m) => Err(m),
            Ok((ns, es, used)) => match s.last() {
                XNode::Element(c) => match work_elem(c, ts.subrange(used as int, ts.len() as int), items) {
                    Err(m) => Err(m),
                    Ok((c2, es2, used2)) => Ok((ns.push(XNode::Element(c2)), es + es2, used + used2)),
                },
                other => Ok((ns.push(other), es, used)),
            },
        }
    }
}


proof fn lemma_hex_padded_len(n: nat, w: nat)
    ensures
        hex_padded(n, w).len() >= w,
{
}

fn item_int(item: &Json, key: &str, default: i64) -> (r: i64)
    ensures
        r == int_member(item@, key@, default),
{
    match item.get(key) {
        Some(j) => match j {
            Json::Number(_) => match j.as_i64() {
                Some(v) => v,
                None => default,
            },
            _ => default,
        },
        None => default,
    }
}

fn item_str(item: &Json, key: &str) -> (r: String)
    ensures
        r@ == str_member(item@, key@),
{
    match item.get(key) {
        Some(Json::Str(s)) => s.clone(),
        _ => String::new(),
    }
}

fn obj2(k1: &str, v1: Json) -> (r: Json)
    ensures
        r@ == JsonV::Object(seq![(k1@, v1@)]),
{
    let mut m: Vec<(String, Json)> = Vec::new();
    m.push((k1.to_owned(), v1));
    proof {
        reveal_with_fuel(entries_view, 2);
        assert(entries_view(m@) =~= seq![(k1@, v1@)]);
    }
    Json::Object(m)
}

fn first_missing_exec(keys: &Vec<String>, items: &Vec<(String, Json)>) -> (r: Option<String>)
    ensures
        match first_missing(strings_view(keys@), entries_view(items@)) {
            Some(k) => r matches Some(x) && x@ == k,
            None => r is None,
        },
{
    let ghost kv = strings_view(keys@);
    let mut i: usize = 0;
    proof {
        assert(kv.subrange(0, kv.len() as int) =~= kv);
    }
    while i < keys.len()
        invariant
            i <= keys@.len(),
            kv == strings_view(keys@),
            first_missing(kv, entries_view(items@)) == first_missing(kv.subrange(i as int, kv.len() as int), entries_view(items@)),
        decreases keys.len() - i,
    {
        proof {
            let rest = kv.subrange(i as int, kv.len() as int);
            assert(rest.drop_first() =~= kv.subrange(i + 1, kv.len() as int));
            assert(rest[0] == keys@[i as int]@);
        }
        if member_get(items, keys[i].as_str()).is_none() {
            return Some(keys[i].clone());
        }
        i = i + 1;
    }
    None
}

fn placeholder_record_exec(keys: &Vec<String>, items: &Vec<(String, Json)>, token: &str) -> (r: Json)
    requires
        token@.len() >= 16,
    ensures
        r@ == placeholder_record(strings_view(keys@), entries_view(items@), token@),
{
    let ghost kv = strings_view(keys@);
    let ghost iv = entries_view(items@);
    let mut citation_items: Vec<Json> = Vec::new();
    let mut item_list: Vec<Json> = Vec::new();
    let mut key_list: Vec<Json> = Vec::new();
    let mut i: usize = 0;
    while i < keys.len()
        invariant
            i <= keys@.len(),
            kv == strings_view(keys@),
            iv == entries_view(items@),
            jsons_view(citation_items@) == kv.subrange(0, i as int).map_values(|k: Seq<char>| citation_item_json(item_of(iv, k))),
            jsons_view(item_list@) == kv.subrange(0, i as int).map_values(|k: Seq<char>| item_json(k, item_of(iv, k))),
            jsons_view(key_list@) == kv.subrange(0, i as int).map_values(|k: Seq<char>| JsonV::Str(k)),
        decreases keys.len() - i,
    {
        let k = keys[i].as_str();
        let null = Json::Null;
        let item = match member_get(items, k) {
            Some(it) => it,
            None => &null,
        };
        proof {
            assert(item@ == item_of(iv, k@));
        }
        let id = item_int(item, "itemID", 0);
        let lib = item_int(item, "libraryID", 1);
        let title = item_str(item, "title");
        let ci = obj2("id", Json::Number(i64_to_string(id)));
        let mut m: Vec<(String, Json)> = Vec::new();
        m.push(("itemID".to_owned(), Json::Number(i64_to_string(id))));
        m.push(("key".to_owned(), Json::Str(k.to_owned())));
        m.push(("libraryID".to_owned(), Json::Number(i64_to_string(lib))));
        m.push(("title".to_owned(), Json::Str(title)));
        proof {
            reveal_with_fuel(entries_view, 5);
            assert(entries_view(m@) =~= item_entries(k@, item@));
        }
        let it = Json::Object(m);
        let ghost b1 = citation_items@;
        let ghost b2 = item_list@;
        let ghost b3 = key_list@;
        let ks = Json::Str(k.to_owned());
        citation_items.push(ci);
        item_list.push(it);
        key_list.push(ks);
        proof {
            crate::json::lemma_jsons_view_push(b1, ci);
            crate::json::lemma_jsons_view_push(b2, it);
            crate::json::lemma_jsons_view_push(b3, ks);
            assert(kv.subrange(0, i + 1) =~= kv.subrange(0, i as int).push(k@));
            assert(jsons_view(citation_items@) =~= kv.subrange(0, i + 1).map_values(|k: Seq<char>| citation_item_json(item_of(iv, k))));
            assert(jsons_view(item_list@) =~= kv.subrange(0, i + 1).map_values(|k: Seq<char>| item_json(k, item_of(iv, k))));
            assert(jsons_view(key_list@) =~= kv.subrange(0, i + 1).map_values(|k: Seq<char>| JsonV::Str(k)));
        }
        i = i + 1;
    }
    proof {
        assert(kv.subrange(0, kv.len() as int) =~= kv);
    }
    let props = obj2("noteIndex", Json::Number("0".to_owned()));
    let mut c: Vec<(String, Json)> = Vec::new();
    c.push(("citationItems".to_owned(), Json::Array(citation_items)));
    c.push(("properties".to_owned(), props));
    c.push(("schema".to_owned(), Json::Str("https://github.com/citation-style-language/schema/raw/master/csl-citation.json".to_owned())));
    proof {
        reveal_with_fuel(entries_view, 4);
        assert(entries_view(c@) =~= citation_entries(kv, iv));
    }
    let citation = Json::Object(c);
    let tv = chars_of(token);
    let head = string_from_range(&tv, 0, 16);
    let mut m: Vec<(String, Json)> = Vec::new();
    m.push(("citation".to_owned(), citation));
    m.push(("items".to_owned(), Json::Array(item_list)));
    m.push(("keys".to_owned(), Json::Array(key_list)));
    m.push(("placeholder_id".to_owned(), Json::Str(concat_str("ZOTERO_CLI_PLACEHOLDER_", token))));
    m.push(("relationship_id".to_owned(), Json::Str(concat_str("rIdZoteroCli", head.as_str()))));
    proof {
        reveal_with_fuel(entries_view, 6);
        assert(entries_view(m@) =~= record_entries(kv, iv, token@));
    }
    Json::Object(m)
}

fn placeholder_entry_exec(raw: &str, token: &str, items: &Vec<(String, Json)>) -> (r: Result<Json, DomainError>)
    requires
        token@.len() >= 16,
    ensures
        match placeholder_entry(raw@, token@, entries_view(items@)) {
            Ok(e) => r matches Ok(x) && x@ == e,
            Err(m) => r matches Err(err) && err.0@ == m,
        },
{
    let group = match regex_capture(placeholder_pattern_exec(), raw, 1) {
        Some(Some(g)) => g,
        _ => String::new(),
    };
    let (keys, invalid) = parse_placeholder_keys(group.as_str());
    if invalid.len() > 0 || keys.len() == 0 {
        return Err(DomainError::from_string(concat_str("Invalid Zotero placeholder: ", raw)));
    }
    match first_missing_exec(&keys, items) {
        Some(k) => Err(DomainError::from_string(concat_str("Zotero item key was not resolved: ", k.as_str()))),
        None => Ok(placeholder_record_exec(&keys, items, token)),
    }
}


/// The token count `i` steps after `start`, wrapping at 2^64.
pub open spec fn count_at(start: u64, i: int) -> nat {
    ((start + i) % 0x1_0000_0000_0000_0000) as nat
}

/// Whether `t` is a token for the count `c` (its clock part is whatever the clock read).
pub open spec fn is_token(t: Seq<char>, c: nat) -> bool {
    exists|now: nat| t == token_spec(now, c)
}

/// Whether `ts` are the tokens a counter at `start` hands out, in order.
pub open spec fn issued(ts: Seq<Seq<char>>, start: u64) -> bool {
    forall|i: int| 0 <= i < ts.len() ==> #[trigger] is_token(ts[i], count_at(start, i))
}

/// Whether `new` is `old` with more strings after it.
pub open spec fn extends(old: Seq<String>, new: Seq<String>) -> bool {
    old.len() <= new.len() && new.subrange(0, old.len() as int) == old
}

/// The strings of `new` after those of `old`.
pub open spec fn fresh(old: Seq<String>, new: Seq<String>) -> Seq<Seq<char>> {
    strings_view(new.subrange(old.len() as int, new.len() as int))
}

pub proof fn lemma_count_step(start: u64, i: int, next: u64)
    requires
        i >= 0,
        next as nat == count_at(start, i),
    ensures
        count_at(start, i + 1) == (if next == u64::MAX { 0 } else { next + 1 }),
{
    let m: int = 0x1_0000_0000_0000_0000;
    vstd::arithmetic::div_mod::lemma_add_mod_noop(start + i, 1, m);
    assert(1int % m == 1);
    if next == u64::MAX {
        assert((next + 1) % m == 0) by {
            vstd::arithmetic::div_mod::lemma_mod_self_0(m);
        }
    } else {
        vstd::arithmetic::div_mod::lemma_small_mod((next + 1) as nat, m as nat);
    }
}

pub proof fn lemma_issued_append(a: Seq<Seq<char>>, b: Seq<Seq<char>>, start: u64)
    requires
        issued(a, start),
        issued(b, count_at(start, a.len() as int) as u64),
    ensures
        issued(a + b, start),
{
    let m: int = 0x1_0000_0000_0000_0000;
    assert forall|i: int| 0 <= i < (a + b).len() implies #[trigger] is_token((a + b)[i], count_at(start, i)) by {
        if i >= a.len() {
            let j = i - a.len();
            assert(is_token(b[j], count_at(count_at(start, a.len() as int) as u64, j)));
            vstd::arithmetic::div_mod::lemma_add_mod_noop_right(j, start + a.len(), m);
            assert(count_at(count_at(start, a.len() as int) as u64, j) == count_at(start, i));
        }
    }
}

pub proof fn lemma_token_len(t: Seq<char>, c: nat)
    requires
        is_token(t, c),
    ensures
        t.len() >= 32,
{
    let now = choose|now: nat| t == token_spec(now, c);
    lemma_hex_padded_len(now, 16);
    lemma_hex_padded_len(c, 16);
}

proof fn lemma_run_ext(
    run: XElem,
    pieces: Seq<Seq<char>>,
    ms: Seq<Seq<char>>,
    ts: Seq<Seq<char>>,
    ts2: Seq<Seq<char>>,
    items: Seq<(Seq<char>, JsonV)>,
    k: int,
)
    requires
        0 <= k <= ts.len(),
        k <= ts2.len(),
        ts.subrange(0, k) == ts2.subrange(0, k),
    ensures
        run_nodes(run, pieces, ms, ts2, items, k) == run_nodes(run, pieces, ms, ts, items, k),
    decreases k,
{
    if k > 0 {
        assert(ts.subrange(0, k - 1) =~= ts2.subrange(0, k - 1)) by {
            assert forall|j: int| 0 <= j < k - 1 implies #[trigger] ts.subrange(0, k - 1)[j] == ts2.subrange(0, k - 1)[j] by {
                assert(ts.subrange(0, k)[j] == ts2.subrange(0, k)[j]);
            }
        }
        lemma_run_ext(run, pieces, ms, ts, ts2, items, k - 1);
        assert(ts.subrange(0, k)[k - 1] == ts2.subrange(0, k)[k - 1]);
    }
}

proof fn lemma_run_err_extends(
    run: XElem,
    pieces: Seq<Seq<char>>,
    ms: Seq<Seq<char>>,
    ts: Seq<Seq<char>>,
    items: Seq<(Seq<char>, JsonV)>,
    k: int,
    n: int,
)
    requires
        0 <= k <= n,
        run_nodes(run, pieces, ms, ts, items, k) is Err,
    ensures
        run_nodes(run, pieces, ms, ts, items, n) == run_nodes(run, pieces, ms, ts, items, k),
    decreases n - k,
{
    if k < n {
        lemma_run_err_extends(run, pieces, ms, ts, items, k, n - 1);
    }
}


/// Takes the next token from `counter`, recording it in `used`.
fn take_token(counter: &mut TokenCounter, used: &mut Vec<String>) -> (t: String)
    requires
        old(counter).next as nat == count_at(old(counter).next, 0),
    ensures
        final(used)@ == old(used)@.push(t),
        is_token(t@, old(counter).next as nat),
        t@.len() >= 32,
        final(counter).next == (if old(counter).next == u64::MAX {
            0
        } else {
            old(counter).next + 1
        }),
{
    let t = counter.next_token();
    proof {
        lemma_token_len(t@, old(counter).next as nat);
    }
    used.push(t.clone());
    t
}

proof fn lemma_fresh_push(u0: Seq<String>, u: Seq<String>, t: String)
    requires
        extends(u0, u),
    ensures
        extends(u0, u.push(t)),
        fresh(u0, u.push(t)) == fresh(u0, u).push(t@),
{
    assert(u.push(t).subrange(0, u0.len() as int) =~= u.subrange(0, u0.len() as int));
    assert(u.push(t).subrange(u0.len() as int, u.len() + 1int) =~= u.subrange(u0.len() as int, u.len() as int).push(t));
    assert(fresh(u0, u.push(t)) =~= fresh(u0, u).push(t@));
}

proof fn lemma_take_step(u0: Seq<String>, u: Seq<String>, t: String, c0: u64, i: int)
    requires
        extends(u0, u),
        fresh(u0, u).len() == i,
        issued(fresh(u0, u), c0),
        is_token(t@, count_at(c0, i)),
    ensures
        extends(u0, u.push(t)),
        fresh(u0, u.push(t)) == fresh(u0, u).push(t@),
        fresh(u0, u.push(t)).len() == i + 1,
        issued(fresh(u0, u.push(t)), c0),
        fresh(u0, u).subrange(0, i) == fresh(u0, u.push(t)).subrange(0, i),
{
    lemma_fresh_push(u0, u, t);
    let ts = fresh(u0, u.push(t));
    assert forall|j: int| 0 <= j < ts.len() implies #[trigger] is_token(ts[j], count_at(c0, j)) by {
        if j < i {
            assert(ts[j] == fresh(u0, u)[j]);
        }
    }
    assert(fresh(u0, u).subrange(0, i) =~= ts.subrange(0, i));
}

pub proof fn lemma_count_zero(c: u64)
    ensures
        c as nat == count_at(c, 0),
{
    vstd::arithmetic::div_mod::lemma_small_mod(c as nat, 0x1_0000_0000_0000_0000nat);
}

/// Splits a run at its placeholders: a link per placeholder and a run, formatted like
/// `run`, for each non-empty text between them; with the placeholder records.
fn split_run(
    run: &XmlElement,
    text: &str,
    items: &Vec<(String, Json)>,
    counter: &mut TokenCounter,
    used: &mut Vec<String>,
) -> (r: Result<(Vec<XmlNode>, Vec<Json>), DomainError>)
    requires
        text@ == text_in(run@),
    ensures
        extends(old(used)@, final(used)@),
        issued(fresh(old(used)@, final(used)@), old(counter).next),
        final(counter).next as nat == count_at(old(counter).next, fresh(old(used)@, final(used)@).len() as int),
        match r {
            Ok((ns, es)) => fresh(old(used)@, final(used)@).len() == run_matches(text@).len()
                && run_nodes(run@, run_pieces(text@), run_matches(text@), fresh(old(used)@, final(used)@), entries_view(items@), run_matches(text@).len() as int)
                    == Ok::<(Seq<XNode>, Seq<JsonV>), Seq<char>>((nodes_view(ns@), jsons_view(es@))),
            Err(e) => run_nodes(run@, run_pieces(text@), run_matches(text@), fresh(old(used)@, final(used)@), entries_view(items@), run_matches(text@).len() as int)
                == Err::<(Seq<XNode>, Seq<JsonV>), Seq<char>>(e.0@),
        },
{
    let ms = match regex_matches(placeholder_pattern_exec(), text) {
        Some(ms) => ms,
        None => Vec::new(),
    };
    let pieces = match regex_split(placeholder_pattern_exec(), text) {
        Some(ps) => ps,
        None => {
            let mut v: Vec<String> = Vec::new();
            v.push(text.to_owned());
            proof {
                assert(strings_view(v@) =~= seq![text@]);
            }
            v
        },
    };
    let ghost msv = strings_view(ms@);
    let ghost pv = strings_view(pieces@);
    let ghost iv = entries_view(items@);
    proof {
        if regex_matches_result(placeholder_pattern(), text@) is None {
            assert(msv =~= Seq::<Seq<char>>::empty());
        }
        assert(msv == run_matches(text@));
        assert(pv == run_pieces(text@));
    }
    let ghost u0 = used@;
    let ghost c0 = counter.next;
    let mut out: Vec<XmlNode> = Vec::new();
    if pieces.len() > 0 && !str_is_empty(pieces[0].as_str()) {
        out.push(XmlNode::Element(create_run_with_text(Some(run), pieces[0].as_str())));
    }
    let mut es: Vec<Json> = Vec::new();
    proof {
        reveal_with_fuel(nodes_view, 2);
        assert(nodes_view(out@) =~= opt_run(run@, piece_at(pv, 0)));
        assert(jsons_view(es@) =~= Seq::<JsonV>::empty());
        assert(used@.subrange(0, u0.len() as int) =~= u0);
        assert(fresh(u0, used@) =~= Seq::<Seq<char>>::empty());
        lemma_count_zero(c0);
    }
    let mut i: usize = 0;
    while i < ms.len()
        invariant
            i <= ms@.len(),
            msv == strings_view(ms@),
            pv == strings_view(pieces@),
            msv == run_matches(text@),
            pv == run_pieces(text@),
            iv == entries_view(items@),
            u0 == old(used)@,
            c0 == old(counter).next,
            extends(u0, used@),
            fresh(u0, used@).len() == i,
            issued(fresh(u0, used@), c0),
            counter.next as nat == count_at(c0, i as int),
            run_nodes(run@, pv, msv, fresh(u0, used@), iv, i as int) == Ok::<(Seq<XNode>, Seq<JsonV>), Seq<char>>((nodes_view(out@), jsons_view(es@))),
        decreases ms.len() - i,
    {
        let ghost ub = used@;
        let ghost cb = counter.next;
        proof {
            lemma_count_zero(cb);
        }
        let token = take_token(counter, used);
        proof {
            lemma_take_step(u0, ub, token, c0, i as int);
            lemma_count_step(c0, i as int, cb);
            lemma_run_ext(run@, pv, msv, fresh(u0, ub), fresh(u0, used@), iv, i as int);
            assert(msv[i as int] == ms@[i as int]@);
        }
        let e = match placeholder_entry_exec(ms[i].as_str(), token.as_str(), items) {
            Ok(e) => e,
            Err(err) => {
                proof {
                    lemma_run_err_extends(run@, pv, msv, fresh(u0, used@), iv, i + 1, msv.len() as int);
                }
                return Err(err);
            },
        };
        let tv = chars_of(token.as_str());
        let head = string_from_range(&tv, 0, 16);
        let rel = concat_str("rIdZoteroCli", head.as_str());
        let pid = concat_str("ZOTERO_CLI_PLACEHOLDER_", token.as_str());
        let ghost out_before = out@;
        let ghost es_before = es@;
        let link = XmlNode::Element(create_hyperlink_node(rel.as_str(), pid.as_str()));
        out.push(link);
        proof {
            crate::docx_render::lemma_nodes_view_push(out_before, link);
        }
        if i + 1 < pieces.len() && !str_is_empty(pieces[i + 1].as_str()) {
            let ghost mid = out@;
            let rn = XmlNode::Element(create_run_with_text(Some(run), pieces[i + 1].as_str()));
            out.push(rn);
            proof {
                crate::docx_render::lemma_nodes_view_push(mid, rn);
            }
        }
        let ghost ej = e;
        es.push(e);
        proof {
            crate::json::lemma_jsons_view_push(es_before, ej);
            assert(nodes_view(out@) =~= nodes_view(out_before) + seq![XNode::Element(hyperlink_spec(relationship_id(token@), placeholder_id(token@)))]
                + opt_run(run@, piece_at(pv, i + 1)));
        }
        i = i + 1;
    }
    Ok((out, es))
}


proof fn lemma_subrange_agree(ts: Seq<Seq<char>>, ts2: Seq<Seq<char>>, u: int, a: int, b: int)
    requires
        0 <= a <= b <= u,
        u <= ts.len(),
        u <= ts2.len(),
        ts.subrange(0, u) == ts2.subrange(0, u),
    ensures
        ts.subrange(a, ts.len() as int).subrange(0, b - a) == ts2.subrange(a, ts2.len() as int).subrange(0, b - a),
        ts.subrange(0, a) == ts2.subrange(0, a),
{
    assert forall|j: int| 0 <= j < b - a implies #[trigger] ts.subrange(a, ts.len() as int).subrange(0, b - a)[j]
        == ts2.subrange(a, ts2.len() as int).subrange(0, b - a)[j] by {
        assert(ts.subrange(0, u)[a + j] == ts2.subrange(0, u)[a + j]);
    }
    assert forall|j: int| 0 <= j < a implies #[trigger] ts.subrange(0, a)[j] == ts2.subrange(0, a)[j] by {
        assert(ts.subrange(0, u)[j] == ts2.subrange(0, u)[j]);
    }
    assert(ts.subrange(a, ts.len() as int).subrange(0, b - a) =~= ts2.subrange(a, ts2.len() as int).subrange(0, b - a));
    assert(ts.subrange(0, a) =~= ts2.subrange(0, a));
}

proof fn lemma_para_ext(s: Seq<XNode>, ts: Seq<Seq<char>>, ts2: Seq<Seq<char>>, items: Seq<(Seq<char>, JsonV)>)
    requires
        para_nodes(s, ts, items) is Ok,
        para_nodes(s, ts, items)->Ok_0.2 <= ts.len(),
        para_nodes(s, ts, items)->Ok_0.2 <= ts2.len(),
        ts.subrange(0, para_nodes(s, ts, items)->Ok_0.2 as int) == ts2.subrange(0, para_nodes(s, ts, items)->Ok_0.2 as int),
    ensures
        para_nodes(s, ts2, items) == para_nodes(s, ts, items),
    decreases s.len(),
{
    if s.len() > 0 {
        let u = para_nodes(s, ts, items)->Ok_0.2;
        let (ns, es, used, modified) = para_nodes(s.drop_last(), ts, items)->Ok_0;
        lemma_subrange_agree(ts, ts2, u as int, used as int, u as int);
        lemma_para_ext(s.drop_last(), ts, ts2, items);
        match s.last() {
            XNode::Element(r) => if tag_matches(r.name, "w:r"@) && has_placeholder(text_in(r)) {
                let t = text_in(r);
                let n = run_matches(t).len();
                lemma_run_ext(r, run_pieces(t), run_matches(t), ts.subrange(used as int, ts.len() as int),
                    ts2.subrange(used as int, ts2.len() as int), items, n as int);
            },
            _ => {},
        }
    }
}

proof fn lemma_para_unmodified(s: Seq<XNode>, ts: Seq<Seq<char>>, items: Seq<(Seq<char>, JsonV)>)
    requires
        para_nodes(s, ts, items) is Ok,
        !para_nodes(s, ts, items)->Ok_0.3,
    ensures
        para_nodes(s, ts, items)->Ok_0.2 == 0,
    decreases s.len(),
{
    if s.len() > 0 {
        lemma_para_unmodified(s.drop_last(), ts, items);
    }
}

proof fn lemma_para_err_extends(s: Seq<XNode>, ts: Seq<Seq<char>>, items: Seq<(Seq<char>, JsonV)>, k: int)
    requires
        0 <= k <= s.len(),
        para_nodes(s.subrange(0, k), ts, items) is Err,
    ensures
        para_nodes(s, ts, items) == para_nodes(s.subrange(0, k), ts, items),
    decreases s.len() - k,
{
    if k < s.len() {
        assert(s.subrange(0, k + 1).drop_last() =~= s.subrange(0, k));
        lemma_para_err_extends(s, ts, items, k + 1);
    } else {
        assert(s.subrange(0, k) =~= s);
    }
}

pub proof fn lemma_work_elem_ext(e: XElem, ts: Seq<Seq<char>>, ts2: Seq<Seq<char>>, items: Seq<(Seq<char>, JsonV)>)
    requires
        work_elem(e, ts, items) is Ok,
        work_elem(e, ts, items)->Ok_0.2 <= ts.len(),
        work_elem(e, ts, items)->Ok_0.2 <= ts2.len(),
        ts.subrange(0, work_elem(e, ts, items)->Ok_0.2 as int) == ts2.subrange(0, work_elem(e, ts, items)->Ok_0.2 as int),
    ensures
        work_elem(e, ts2, items) == work_elem(e, ts, items),
    decreases e, 0int,
{
    let u = work_elem(e, ts, items)->Ok_0.2;
    if tag_matches(e.name, "w:p"@) {
        let (ns, es, used, modified) = para_nodes(e.children, ts, items)->Ok_0;
        if !modified {
            lemma_para_unmodified(e.children, ts, items);
        }
        lemma_subrange_agree(ts, ts2, u as int, used as int, used as int);
        lemma_para_ext(e.children, ts, ts2, items);
        if !modified {
            lemma_work_nodes_ext(e.children, ts, ts2, items);
        }
    } else {
        lemma_work_nodes_ext(e.children, ts, ts2, items);
    }
}

pub proof fn lemma_work_nodes_ext(s: Seq<XNode>, ts: Seq<Seq<char>>, ts2: Seq<Seq<char>>, items: Seq<(Seq<char>, JsonV)>)
    requires
        work_nodes(s, ts, items) is Ok,
        work_nodes(s, ts, items)->Ok_0.2 <= ts.len(),
        work_nodes(s, ts, items)->Ok_0.2 <= ts2.len(),
        ts.subrange(0, work_nodes(s, ts, items)->Ok_0.2 as int) == ts2.subrange(0, work_nodes(s, ts, items)->Ok_0.2 as int),
    ensures
        work_nodes(s, ts2, items) == work_nodes(s, ts, items),
    decreases s, 1int,
{
    if s.len() > 0 {
        let u = work_nodes(s, ts, items)->Ok_0.2;
        let (ns, es, used) = work_nodes(s.drop_last(), ts, items)->Ok_0;
        lemma_subrange_agree(ts, ts2, u as int, used as int, used as int);
        lemma_work_nodes_ext(s.drop_last(), ts, ts2, items);
        match s.last() {
            XNode::Element(c) => {
                let a = ts.subrange(used as int, ts.len() as int);
                let b = ts2.subrange(used as int, ts2.len() as int);
                let u2 = work_elem(c, a, items)->Ok_0.2;
                lemma_subrange_agree(ts, ts2, u as int, used as int, u as int);
                assert(a.subrange(0, u2 as int) == b.subrange(0, u2 as int));
                lemma_work_elem_ext(c, a, b, items);
            },
            _ => {},
        }
    }
}

proof fn lemma_work_nodes_err_extends(s: Seq<XNode>, ts: Seq<Seq<char>>, items: Seq<(Seq<char>, JsonV)>, k: int)
    requires
        0 <= k <= s.len(),
        work_nodes(s.subrange(0, k), ts, items) is Err,
    ensures
        work_nodes(s, ts, items) == work_nodes(s.subrange(0, k), ts, items),
    decreases s.len() - k,
{
    if k < s.len() {
        assert(s.subrange(0, k + 1).drop_last() =~= s.subrange(0, k));
        lemma_work_nodes_err_extends(s, ts, items, k + 1);
    } else {
        assert(s.subrange(0, k) =~= s);
    }
}


proof fn lemma_compose(u0: Seq<String>, mid: Seq<String>, after: Seq<String>, c0: u64, cmid: u64, cafter: u64)
    requires
        extends(u0, mid),
        extends(mid, after),
        issued(fresh(u0, mid), c0),
        cmid as nat == count_at(c0, fresh(u0, mid).len() as int),
        issued(fresh(mid, after), cmid),
        cafter as nat == count_at(cmid, fresh(mid, after).len() as int),
    ensures
        extends(u0, after),
        fresh(u0, after) == fresh(u0, mid) + fresh(mid, after),
        issued(fresh(u0, after), c0),
        cafter as nat == count_at(c0, fresh(u0, after).len() as int),
{
    assert(after.subrange(0, u0.len() as int) =~= mid.subrange(0, u0.len() as int));
    assert(after.subrange(u0.len() as int, after.len() as int) =~= mid.subrange(u0.len() as int, mid.len() as int)
        + after.subrange(mid.len() as int, after.len() as int));
    assert(fresh(u0, after) =~= fresh(u0, mid) + fresh(mid, after));
    lemma_issued_append(fresh(u0, mid), fresh(mid, after), c0);
    let m: int = 0x1_0000_0000_0000_0000;
    vstd::arithmetic::div_mod::lemma_add_mod_noop_right(fresh(mid, after).len() as int, c0 + fresh(u0, mid).len(), m);
}

proof fn lemma_unchanged(u0: Seq<String>, c0: u64)
    ensures
        extends(u0, u0),
        fresh(u0, u0) == Seq::<Seq<char>>::empty(),
        issued(fresh(u0, u0), c0),
        c0 as nat == count_at(c0, 0),
{
    assert(u0.subrange(0, u0.len() as int) =~= u0);
    assert(fresh(u0, u0) =~= Seq::<Seq<char>>::empty());
    lemma_count_zero(c0);
}

fn clone_node(n: &XmlNode) -> (r: XmlNode)
    ensures
        node_view(r) == node_view(*n),
{
    match n {
        XmlNode::Element(el) => XmlNode::Element(el.deep_clone()),
        XmlNode::Text(t) => XmlNode::Text(t.clone()),
        XmlNode::Comment(t) => XmlNode::Comment(t.clone()),
        XmlNode::CData(t) => XmlNode::CData(t.clone()),
    }
}

/// A paragraph's children with each placeholder run split into links and runs; the records;
/// whether any run was split.
fn para_children(
    children: &Vec<XmlNode>,
    items: &Vec<(String, Json)>,
    counter: &mut TokenCounter,
    used: &mut Vec<String>,
) -> (r: Result<(Vec<XmlNode>, Vec<Json>, bool), DomainError>)
    ensures
        extends(old(used)@, final(used)@),
        issued(fresh(old(used)@, final(used)@), old(counter).next),
        final(counter).next as nat == count_at(old(counter).next, fresh(old(used)@, final(used)@).len() as int),
        match r {
            Ok((ns, es, m)) => para_nodes(nodes_view(children@), fresh(old(used)@, final(used)@), entries_view(items@))
                == Ok::<(Seq<XNode>, Seq<JsonV>, nat, bool), Seq<char>>((nodes_view(ns@), jsons_view(es@), fresh(old(used)@, final(used)@).len(), m)),
            Err(e) => para_nodes(nodes_view(children@), fresh(old(used)@, final(used)@), entries_view(items@))
                == Err::<(Seq<XNode>, Seq<JsonV>, nat, bool), Seq<char>>(e.0@),
        },
{
    let ghost cv = nodes_view(children@);
    let ghost iv = entries_view(items@);
    let ghost u0 = used@;
    let ghost c0 = counter.next;
    proof {
        lemma_nodes_view(children@);
        lemma_unchanged(u0, c0);
        assert(cv.subrange(0, 0) =~= Seq::<XNode>::empty());
        assert(nodes_view(Seq::<XmlNode>::empty()) =~= Seq::<XNode>::empty());
        assert(jsons_view(Seq::<Json>::empty()) =~= Seq::<JsonV>::empty());
    }
    let mut out: Vec<XmlNode> = Vec::new();
    let mut es: Vec<Json> = Vec::new();
    let mut modified = false;
    let mut i: usize = 0;
    while i < children.len()
        invariant
            i <= children@.len(),
            cv == nodes_view(children@),
            cv.len() == children@.len(),
            forall|k: int| 0 <= k < children@.len() ==> #[trigger] cv[k] == node_view(children@[k]),
            iv == entries_view(items@),
            u0 == old(used)@,
            c0 == old(counter).next,
            extends(u0, used@),
            issued(fresh(u0, used@), c0),
            counter.next as nat == count_at(c0, fresh(u0, used@).len() as int),
            para_nodes(cv.subrange(0, i as int), fresh(u0, used@), iv)
                == Ok::<(Seq<XNode>, Seq<JsonV>, nat, bool), Seq<char>>((nodes_view(out@), jsons_view(es@), fresh(u0, used@).len(), modified)),
        decreases children.len() - i,
    {
        proof {
            assert(cv.subrange(0, i + 1).drop_last() =~= cv.subrange(0, i as int));
            assert(cv.subrange(0, i + 1).last() == cv[i as int]);
        }
        let mut split = false;
        if let XmlNode::Element(run) = &children[i] {
            if run.matches_tag("w:r") {
                let text = run.iter_text();
                if placeholder_in(text.as_str()) {
                    split = true;
                    let ghost mid = used@;
                    let ghost cmid = counter.next;
                    let ghost t_before = fresh(u0, mid);
                    let res = split_run(run, text.as_str(), items, counter, used);
                    proof {
                        lemma_compose(u0, mid, used@, c0, cmid, counter.next);
                        let ts = fresh(u0, used@);
                        assert(ts.subrange(0, t_before.len() as int) =~= t_before);
                        assert(t_before.subrange(0, t_before.len() as int) =~= t_before);
                        assert(ts.subrange(t_before.len() as int, ts.len() as int) =~= fresh(mid, used@));
                        lemma_para_ext(cv.subrange(0, i as int), t_before, ts, iv);
                    }
                    match res {
                        Ok((mut rn, mut re)) => {
                            let ghost ob = out@;
                            let ghost eb = es@;
                            let ghost rnv = rn@;
                            let ghost rev = re@;
                            out.append(&mut rn);
                            es.append(&mut re);
                            modified = true;
                            proof {
                                crate::xml::lemma_nodes_view_append(ob, rnv);
                                crate::json::lemma_jsons_view_append(eb, rev);
                            }
                        },
                        Err(err) => {
                            proof {
                                lemma_para_err_extends(cv, fresh(u0, used@), iv, i + 1);
                                assert(cv.subrange(0, cv.len() as int) =~= cv);
                            }
                            return Err(err);
                        },
                    }
                }
            }
        }
        if !split {
            let ghost ob = out@;
            let c = clone_node(&children[i]);
            out.push(c);
            proof {
                crate::docx_render::lemma_nodes_view_push(ob, c);
            }
        }
        i = i + 1;
    }
    proof {
        assert(cv.subrange(0, cv.len() as int) =~= cv);
    }
    Ok((out, es, modified))
}


proof fn lemma_fresh_empty(u0: Seq<String>, u: Seq<String>)
    requires
        extends(u0, u),
        fresh(u0, u).len() == 0,
    ensures
        u == u0,
{
    assert(u =~= u.subrange(0, u0.len() as int));
}

/// The tree rooted at `e` with its placeholder runs replaced by links, and the records.
fn work_owned(
    e: XmlElement,
    items: &Vec<(String, Json)>,
    counter: &mut TokenCounter,
    used: &mut Vec<String>,
) -> (r: Result<(XmlElement, Vec<Json>), DomainError>)
    ensures
        extends(old(used)@, final(used)@),
        issued(fresh(old(used)@, final(used)@), old(counter).next),
        final(counter).next as nat == count_at(old(counter).next, fresh(old(used)@, final(used)@).len() as int),
        match r {
            Ok((x, es)) => work_elem(e@, fresh(old(used)@, final(used)@), entries_view(items@))
                == Ok::<(XElem, Seq<JsonV>, nat), Seq<char>>((x@, jsons_view(es@), fresh(old(used)@, final(used)@).len())),
            Err(err) => work_elem(e@, fresh(old(used)@, final(used)@), entries_view(items@))
                == Err::<(XElem, Seq<JsonV>, nat), Seq<char>>(err.0@),
        },
    decreases e, 0int,
{
    let ghost u0 = used@;
    let ghost c0 = counter.next;
    let ghost e0 = e@;
    if e.matches_tag("w:p") {
        match para_children(&e.children, items, counter, used) {
            Err(err) => return Err(err),
            Ok((ns, es, modified)) => {
                if modified {
                    let XmlElement { name, attributes, children: _ } = e;
                    return Ok((XmlElement { name, attributes, children: ns }, es));
                }
                proof {
                    lemma_para_unmodified(nodes_view(e.children@), fresh(u0, used@), entries_view(items@));
                    lemma_fresh_empty(u0, used@);
                    lemma_unchanged(u0, c0);
                }
            },
        }
    }
    let ghost ev = e;
    let ghost is_p = tag_matches(e0.name, "w:p"@);
    assert(is_p ==> para_nodes(e0.children, Seq::<Seq<char>>::empty(), entries_view(items@)) matches Ok((_, _, _, false)));
    let XmlElement { name, attributes, children } = e;
    assert(decreases_to!(ev => children));
    let res = work_children(children, items, counter, used);
    proof {
        if is_p {
            let z = Seq::<Seq<char>>::empty();
            assert(z.subrange(0, 0) =~= fresh(u0, used@).subrange(0, 0));
            lemma_para_ext(e0.children, z, fresh(u0, used@), entries_view(items@));
        }
    }
    let (kids, es) = match res {
        Ok(x) => x,
        Err(err) => return Err(err),
    };
    Ok((XmlElement { name, attributes, children: kids }, es))
}

/// The nodes `children` handled in order.
#[verifier::loop_isolation(false)]
fn work_children(
    children: Vec<XmlNode>,
    items: &Vec<(String, Json)>,
    counter: &mut TokenCounter,
    used: &mut Vec<String>,
) -> (r: Result<(Vec<XmlNode>, Vec<Json>), DomainError>)
    ensures
        extends(old(used)@, final(used)@),
        issued(fresh(old(used)@, final(used)@), old(counter).next),
        final(counter).next as nat == count_at(old(counter).next, fresh(old(used)@, final(used)@).len() as int),
        match r {
            Ok((ns, es)) => work_nodes(nodes_view(children@), fresh(old(used)@, final(used)@), entries_view(items@))
                == Ok::<(Seq<XNode>, Seq<JsonV>, nat), Seq<char>>((nodes_view(ns@), jsons_view(es@), fresh(old(used)@, final(used)@).len())),
            Err(err) => work_nodes(nodes_view(children@), fresh(old(used)@, final(used)@), entries_view(items@))
                == Err::<(Seq<XNode>, Seq<JsonV>, nat), Seq<char>>(err.0@),
        },
    decreases children, 1int,
{
    let ghost orig = children;
    let ghost cv = nodes_view(children@);
    let ghost iv = entries_view(items@);
    let ghost u0 = used@;
    let ghost c0 = counter.next;
    proof {
        lemma_nodes_view(children@);
        lemma_unchanged(u0, c0);
        assert(cv.subrange(0, 0) =~= Seq::<XNode>::empty());
        assert(nodes_view(Seq::<XmlNode>::empty()) =~= Seq::<XNode>::empty());
        assert(jsons_view(Seq::<Json>::empty()) =~= Seq::<JsonV>::empty());
    }
    let mut rest = children;
    let mut out: Vec<XmlNode> = Vec::new();
    let mut es: Vec<Json> = Vec::new();
    let n = rest.len();
    let mut i: usize = 0;
    proof {
        assert(rest@ =~= orig@.subrange(0, n as int));
    }
    while i < n
        invariant
            n == orig@.len(),
            i <= n,
            cv == nodes_view(orig@),
            cv.len() == orig@.len(),
            forall|k: int| 0 <= k < orig@.len() ==> #[trigger] cv[k] == node_view(orig@[k]),
            rest@ == orig@.subrange(i as int, n as int),
            iv == entries_view(items@),
            u0 == old(used)@,
            c0 == old(counter).next,
            extends(u0, used@),
            issued(fresh(u0, used@), c0),
            counter.next as nat == count_at(c0, fresh(u0, used@).len() as int),
            work_nodes(cv.subrange(0, i as int), fresh(u0, used@), iv)
                == Ok::<(Seq<XNode>, Seq<JsonV>, nat), Seq<char>>((nodes_view(out@), jsons_view(es@), fresh(u0, used@).len())),
        decreases n - i,
    {
        proof {
            assert(cv.subrange(0, i + 1).drop_last() =~= cv.subrange(0, i as int));
            assert(cv.subrange(0, i + 1).last() == cv[i as int]);
            assert(rest@[0] == orig@[i as int]);
        }
        let node = rest.remove(0);
        let ghost nd = orig@[i as int];
        proof {
            assert(rest@ =~= orig@.subrange(i + 1, n as int));
            assert(node == nd);
        }
        match node {
            XmlNode::Element(c) => {
                assert(decreases_to!(orig => orig@));
                assert(decreases_to!(orig@ => orig@[i as int]));
                assert(nd == XmlNode::Element(c));
                assert(decreases_to!(nd => c));
                let ghost mid = used@;
                let ghost cmid = counter.next;
                let ghost t_before = fresh(u0, mid);
                let res = work_owned(c, items, counter, used);
                proof {
                    lemma_compose(u0, mid, used@, c0, cmid, counter.next);
                    let ts = fresh(u0, used@);
                    assert(ts.subrange(0, t_before.len() as int) =~= t_before);
                    assert(t_before.subrange(0, t_before.len() as int) =~= t_before);
                    assert(ts.subrange(t_before.len() as int, ts.len() as int) =~= fresh(mid, used@));
                    lemma_work_nodes_ext(cv.subrange(0, i as int), t_before, ts, iv);
                }
                match res {
                    Ok((c2, mut es2)) => {
                        let ghost ob = out@;
                        let ghost eb = es@;
                        let ghost e2v = es2@;
                        let ghost cn = XmlNode::Element(c2);
                        out.push(XmlNode::Element(c2));
                        es.append(&mut es2);
                        proof {
                            lemma_nodes_view_push(ob, cn);
                            crate::json::lemma_jsons_view_append(eb, e2v);
                        }
                    },
                    Err(err) => {
                        proof {
                            lemma_work_nodes_err_extends(cv, fresh(u0, used@), iv, i + 1);
                            assert(cv.subrange(0, cv.len() as int) =~= cv);
                        }
                        return Err(err);
                    },
                }
            },
            other => {
                let ghost ob = out@;
                let ghost on = other;
                out.push(other);
                proof {
                    lemma_nodes_view_push(ob, on);
                }
            },
        }
        i = i + 1;
    }
    proof {
        assert(cv.subrange(0, n as int) =~= cv);
    }
    Ok((out, es))
}


/// What a placeholder replacement leaves after it, taking the tokens `ts`: the tree rooted at
/// `before` rewritten to `after`, with the records `es`; or the error `err`.
pub open spec fn replaced(
    before: XElem,
    ts: Seq<Seq<char>>,
    items: Seq<(Seq<char>, JsonV)>,
    outcome: Result<(XElem, Seq<JsonV>), Seq<char>>,
) -> bool {
    match outcome {
        Ok((after, es)) => work_elem(before, ts, items) == Ok::<(XElem, Seq<JsonV>, nat), Seq<char>>((after, es, ts.len())),
        Err(m) => work_elem(before, ts, items) == Err::<(XElem, Seq<JsonV>, nat), Seq<char>>(m),
    }
}

/// Replaces each `{{zotero:...}}` placeholder in a run of the tree rooted at `elem` by a
/// note-citation link, appending the placeholder records to `placeholders` in document
/// order. `items` are the item payloads by key (the first entry of a key counts), and each
/// placeholder takes the next token of `counter`. A placeholder with an invalid part or no
/// key, or a key without an item, is an error, and the tree is then left in an unspecified
/// state.
pub fn replace_in_element(
    elem: &mut XmlElement,
    items: &Vec<(String, Json)>,
    placeholders: &mut Vec<Json>,
    counter: &mut TokenCounter,
) -> (r: Result<(), DomainError>)
    ensures
        exists|ts: Seq<Seq<char>>|
            #[trigger] issued(ts, old(counter).next)
            && final(counter).next as nat == count_at(old(counter).next, ts.len() as int)
            && match r {
                Ok(_) => final(placeholders)@.len() >= old(placeholders)@.len()
                    && final(placeholders)@.subrange(0, old(placeholders)@.len() as int) == old(placeholders)@
                    && replaced(old(elem)@, ts, entries_view(items@), Ok((final(elem)@,
                        jsons_view(final(placeholders)@.subrange(old(placeholders)@.len() as int, final(placeholders)@.len() as int))))),
                Err(e) => replaced(old(elem)@, ts, entries_view(items@), Err(e.0@)),
            },
{
    let mut taken = XmlElement::new("");
    std::mem::swap(&mut taken, elem);
    let ghost e0 = taken@;
    let mut used: Vec<String> = Vec::new();
    let res = work_owned(taken, items, counter, &mut used);
    let ghost ts = fresh(Seq::<String>::empty(), used@);
    match res {
        Ok((x, mut es)) => {
            *elem = x;
            let ghost before = placeholders@;
            let ghost esv = es@;
            placeholders.append(&mut es);
            proof {
                assert(placeholders@.subrange(0, before.len() as int) =~= before);
                assert(placeholders@.subrange(before.len() as int, placeholders@.len() as int) =~= esv);
                assert(issued(ts, old(counter).next));
            }
            Ok(())
        },
        Err(err) => {
            proof {
                assert(issued(ts, old(counter).next));
            }
            Err(err)
        },
    }
}

/// The tree rooted at `root` with its placeholders replaced by note-citation links (see
/// `replace_in_element`), and the placeholder records in document order.
pub fn replace_placeholders_with_note_links(
    root: &mut XmlElement,
    items: &Vec<(String, Json)>,
    counter: &mut TokenCounter,
) -> (r: Result<Vec<Json>, DomainError>)
    ensures
        exists|ts: Seq<Seq<char>>|
            #[trigger] issued(ts, old(counter).next)
            && final(counter).next as nat == count_at(old(counter).next, ts.len() as int)
            && match r {
                Ok(ps) => replaced(old(root)@, ts, entries_view(items@), Ok((final(root)@, jsons_view(ps@)))),
                Err(e) => replaced(old(root)@, ts, entries_view(items@), Err(e.0@)),
            },
{
    let mut placeholders: Vec<Json> = Vec::new();
    let r = replace_in_element(root, items, &mut placeholders, counter);
    match r {
        Ok(()) => {
            proof {
                assert(placeholders@.subrange(0, placeholders@.len() as int) =~= placeholders@);
            }
            Ok(placeholders)
        },
        Err(e) => Err(e),
    }
}

} // verus!
