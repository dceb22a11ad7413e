//! Reading a JSON import: a Crossref work, connector items, CSL-JSON items, or plain objects,
//! each turned into the items the connector saves.

use vstd::prelude::*;

use crate::csl::{
    connector_member, csl_item_to_connector, is_truthy, looks_like_csl_item, looks_like_csl_spec, truthy,
};
use crate::error::DomainError;
use crate::json::{
    entries_view, get_spec, insert_spec, jsons_view, keys_ascending, member, member_get, obj_insert, opt_view, push_member, Json, JsonV,
};
use crate::text::{chars_of, concat_str, nat_decimal, string_from_chars, u64_decimal};

verus! {

/// A connector item made from the CSL item `item` as the `index`th: its members are those
/// `connector_member` gives, in ascending key order.
pub open spec fn connector_of(out: JsonV, item: Seq<(Seq<char>, JsonV)>, index: nat) -> bool {
    out matches JsonV::Object(es) && keys_ascending(es) && forall|k: Seq<char>| #[trigger] member(es, k) == connector_member(item, index, k)
}

/// A member, or null.
pub open spec fn or_null(v: Option<JsonV>) -> JsonV {
    match v {
        Some(x) => x,
        None => JsonV::Null,
    }
}

/// A Crossref title: the first of a list, or the value itself; empty when absent.
pub open spec fn crossref_title(v: Option<JsonV>) -> JsonV {
    match v {
        Some(JsonV::Array(a)) => if a.len() > 0 {
            a[0]
        } else {
            JsonV::Str(Seq::empty())
        },
        Some(other) => other,
        None => JsonV::Str(Seq::empty()),
    }
}

/// A container title: the first of a list, the first character of a text (as Python indexes
/// it), or the value itself; null when absent or empty.
pub open spec fn first_or_index(v: Option<JsonV>) -> JsonV {
    match v {
        Some(JsonV::Array(a)) => if a.len() > 0 {
            a[0]
        } else {
            JsonV::Null
        },
        Some(JsonV::Str(t)) => if t.len() > 0 {
            JsonV::Str(seq![t[0]])
        } else {
            JsonV::Null
        },
        Some(other) => other,
        None => JsonV::Null,
    }
}

/// A string member, or empty.
pub open spec fn str_or_empty(v: Option<JsonV>) -> Seq<char> {
    match v {
        Some(JsonV::Str(s)) => s,
        _ => Seq::empty(),
    }
}

/// The CSL authors of a Crossref work: the family and given names of each author object.
pub open spec fn crossref_authors(v: Option<JsonV>) -> Seq<JsonV>
    decreases (match v {
        Some(JsonV::Array(a)) => a.len(),
        _ => 0,
    }),
{
    match v {
        Some(JsonV::Array(a)) => if a.len() == 0 {
            Seq::empty()
        } else {
            let rest = crossref_authors(Some(JsonV::Array(a.drop_last())));
            match a.last() {
                JsonV::Object(o) => rest.push(JsonV::Object(seq![
                    ("family"@, JsonV::Str(str_or_empty(member(o, "family"@)))),
                    ("given"@, JsonV::Str(str_or_empty(member(o, "given"@)))),
                ])),
                _ => rest,
            }
        },
        _ => Seq::empty(),
    }
}

/// The issued date of a Crossref work: its `issued` when truthy, else the first date parts of
/// `published-print` (none when absent).
pub open spec fn crossref_issued(msg: Seq<(Seq<char>, JsonV)>) -> JsonV {
    if truthy(member(msg, "issued"@)) {
        member(msg, "issued"@)->Some_0
    } else {
        let parts = match member(msg, "published-print"@) {
            Some(JsonV::Object(p)) => match member(p, "date-parts"@) {
                Some(JsonV::Array(dp)) => if dp.len() > 0 {
                    dp[0]
                } else {
                    JsonV::Array(Seq::empty())
                },
                _ => JsonV::Array(Seq::empty()),
            },
            _ => JsonV::Array(Seq::empty()),
        };
        JsonV::Object(seq![("date-parts"@, JsonV::Array(seq![parts]))])
    }
}

/// The CSL item of a Crossref work.
pub open spec fn crossref_csl(msg: Seq<(Seq<char>, JsonV)>) -> Seq<(Seq<char>, JsonV)> {
    seq![
        ("DOI"@, or_null(member(msg, "DOI"@))),
        ("URL"@, or_null(member(msg, "URL"@))),
        ("author"@, JsonV::Array(crossref_authors(member(msg, "author"@)))),
        ("container-title"@, first_or_index(member(msg, "container-title"@))),
        ("issue"@, or_null(member(msg, "issue"@))),
        ("issued"@, crossref_issued(msg)),
        ("page"@, or_null(member(msg, "page"@))),
        ("title"@, crossref_title(member(msg, "title"@))),
        ("type"@, JsonV::Str("article-journal"@)),
        ("volume"@, or_null(member(msg, "volume"@))),
    ]
}

fn get_or_null(m: &Vec<(String, Json)>, key: &str) -> (r: Json)
    ensures
        r@ == or_null(member(entries_view(m@), key@)),
{
    match member_get(m, key) {
        Some(x) => x.deep_clone(),
        None => Json::Null,
    }
}

fn str_member_or_empty(m: &Vec<(String, Json)>, key: &str) -> (r: String)
    ensures
        r@ == str_or_empty(member(entries_view(m@), key@)),
{
    match member_get(m, key) {
        Some(Json::Str(s)) => s.clone(),
        _ => String::new(),
    }
}

fn authors_exec(v: Option<&Json>) -> (r: Vec<Json>)
    ensures
        jsons_view(r@) == crossref_authors(opt_view(v)),
{
    let mut out: Vec<Json> = Vec::new();
    proof {
        assert(jsons_view(out@) =~= Seq::<JsonV>::empty());
    }
    let a = match v {
        Some(Json::Array(a)) => a,
        _ => return out,
    };
    let ghost av = jsons_view(a@);
    proof {
        crate::json::lemma_jsons_view(a@);
        assert(av.subrange(0, 0) =~= Seq::<JsonV>::empty());
    }
    let mut i: usize = 0;
    while i < a.len()
        invariant
            i <= a@.len(),
            av == jsons_view(a@),
            av.len() == a@.len(),
            forall|k: int| 0 <= k < a@.len() ==> #[trigger] av[k] == a@[k]@,
            jsons_view(out@) == crossref_authors(Some(JsonV::Array(av.subrange(0, i as int)))),
        decreases a.len() - i,
    {
        proof {
            assert(av.subrange(0, i + 1).drop_last() =~= av.subrange(0, i as int));
            assert(av.subrange(0, i + 1).last() == a@[i as int]@);
        }
        match &a[i] {
            Json::Object(o) => {
                let mut m: Vec<(String, Json)> = Vec::new();
                proof {
                    assert(entries_view(m@) =~= Seq::<(Seq<char>, JsonV)>::empty());
                }
                push_member(&mut m, "family", Json::Str(str_member_or_empty(o, "family")));
                push_member(&mut m, "given", Json::Str(str_member_or_empty(o, "given")));
                let j = Json::Object(m);
                let ghost before = out@;
                out.push(j);
                proof {
                    crate::json::lemma_jsons_view_push(before, j);
                    let sub = av.subrange(0, i + 1);
                    assert(sub.last() == JsonV::Object(entries_view(o@)));
                    assert(entries_view(m@) =~= seq![
                        ("family"@, JsonV::Str(str_or_empty(member(entries_view(o@), "family"@)))),
                        ("given"@, JsonV::Str(str_or_empty(member(entries_view(o@), "given"@)))),
                    ]);
                    assert(jsons_view(out@) == crossref_authors(Some(JsonV::Array(sub))));
                }
            },
            _ => {
                proof {
                    let sub = av.subrange(0, i + 1);
                    assert(!(sub.last() is Object));
                    assert(jsons_view(out@) == crossref_authors(Some(JsonV::Array(sub))));
                }
            },
        }
        i = i + 1;
    }
    proof {
        assert(av.subrange(0, av.len() as int) =~= av);
    }
    out
}

fn issued_exec(msg: &Vec<(String, Json)>) -> (r: Json)
    ensures
        r@ == crossref_issued(entries_view(msg@)),
{
    let issued = member_get(msg, "issued");
    if is_truthy(issued) {
        return match issued {
            Some(x) => x.deep_clone(),
            None => Json::Null,
        };
    }
    let parts = match member_get(msg, "published-print") {
        Some(Json::Object(p)) => match member_get(p, "date-parts") {
            Some(Json::Array(dp)) => {
                proof {
                    crate::json::lemma_jsons_view(dp@);
                }
                if dp.len() > 0 {
                    dp[0].deep_clone()
                } else {
                    Json::Array(Vec::new())
                }
            },
            _ => Json::Array(Vec::new()),
        },
        _ => Json::Array(Vec::new()),
    };
    proof {
        assert(jsons_view(Seq::<Json>::empty()) =~= Seq::<JsonV>::empty());
    }
    let mut inner: Vec<Json> = Vec::new();
    let ghost pv = parts@;
    inner.push(parts);
    proof {
        reveal_with_fuel(jsons_view, 2);
        assert(jsons_view(inner@) =~= seq![pv]);
    }
    let mut m: Vec<(String, Json)> = Vec::new();
    proof {
        assert(entries_view(m@) =~= Seq::<(Seq<char>, JsonV)>::empty());
    }
    push_member(&mut m, "date-parts", Json::Array(inner));
    Json::Object(m)
}

fn title_exec(v: Option<&Json>) -> (r: Json)
    ensures
        r@ == crossref_title(opt_view(v)),
{
    match v {
        Some(Json::Array(a)) => {
            proof {
                crate::json::lemma_jsons_view(a@);
            }
            if a.len() > 0 {
                a[0].deep_clone()
            } else {
                Json::Str(String::new())
            }
        },
        Some(other) => other.deep_clone(),
        None => Json::Str(String::new()),
    }
}

fn first_or_index_exec(v: Option<&Json>) -> (r: Json)
    ensures
        r@ == first_or_index(opt_view(v)),
{
    match v {
        Some(Json::Array(a)) => {
            proof {
                crate::json::lemma_jsons_view(a@);
            }
            if a.len() > 0 {
                a[0].deep_clone()
            } else {
                Json::Null
            }
        },
        Some(Json::Str(t)) => {
            let cs = chars_of(t.as_str());
            if cs.len() > 0 {
                let mut one: Vec<char> = Vec::new();
                one.push(cs[0]);
                proof {
                    assert(one@ =~= seq![t@[0]]);
                }
                Json::Str(string_from_chars(&one))
            } else {
                Json::Null
            }
        },
        Some(other) => other.deep_clone(),
        None => Json::Null,
    }
}

/// The connector item of a Crossref work.
pub fn crossref_work_to_item(msg: &Vec<(String, Json)>) -> (r: Vec<(String, Json)>)
    ensures
        connector_of(JsonV::Object(entries_view(r@)), crossref_csl(entries_view(msg@)), 1),
{
    let mut csl: Vec<(String, Json)> = Vec::new();
    proof {
        assert(entries_view(csl@) =~= Seq::<(Seq<char>, JsonV)>::empty());
    }
    push_member(&mut csl, "DOI", get_or_null(msg, "DOI"));
    push_member(&mut csl, "URL", get_or_null(msg, "URL"));
    push_member(&mut csl, "author", Json::Array(authors_exec(member_get(msg, "author"))));
    push_member(&mut csl, "container-title", first_or_index_exec(member_get(msg, "container-title")));
    push_member(&mut csl, "issue", get_or_null(msg, "issue"));
    push_member(&mut csl, "issued", issued_exec(msg));
    push_member(&mut csl, "page", get_or_null(msg, "page"));
    push_member(&mut csl, "title", title_exec(member_get(msg, "title")));
    push_member(&mut csl, "type", Json::Str("article-journal".to_owned()));
    push_member(&mut csl, "volume", get_or_null(msg, "volume"));
    proof {
        assert(entries_view(csl@) =~= crossref_csl(entries_view(msg@)));
    }
    csl_item_to_connector(&csl, 1)
}


/// The Crossref work of a payload, when it is one: an object whose `message` is an object
/// with a truthy `DOI` or `title`.
pub open spec fn crossref_message(payload: JsonV) -> Option<Seq<(Seq<char>, JsonV)>> {
    match get_spec(payload, "message"@) {
        Some(JsonV::Object(msg)) => if truthy(member(msg, "DOI"@)) || truthy(member(msg, "title"@)) {
            Some(msg)
        } else {
            None
        },
        _ => None,
    }
}

/// The message for a JSON object that is not an import.
pub open spec fn not_an_import_message() -> Seq<char> {
    "JSON import expects an array, {items:[...]}, CSL object, or Crossref work"@
}

/// The items of a JSON import: the array itself, an object's `items`, or the object alone
/// when it is an item.
pub open spec fn raw_items(payload: JsonV) -> Result<Seq<JsonV>, Seq<char>> {
    match payload {
        JsonV::Array(a) => Ok(a),
        JsonV::Object(o) => match member(o, "items"@) {
            Some(JsonV::Array(a)) => Ok(a),
            _ => if looks_like_csl_spec(payload) || truthy(member(o, "itemType"@)) {
                Ok(seq![payload])
            } else {
                Err(not_an_import_message())
            },
        },
        _ => Err("JSON import expects an array of objects"@),
    }
}

/// How the items read: connector items (0), CSL-JSON (1), or plain objects (2); decided by
/// the first item.
pub open spec fn import_mode(items: Seq<JsonV>) -> nat {
    let first = match items[0] {
        JsonV::Object(o) => o,
        _ => Seq::empty(),
    };
    if truthy(member(first, "itemType"@)) {
        0
    } else if looks_like_csl_spec(items[0]) || member(first, "type"@) is Some {
        1
    } else {
        2
    }
}

/// The name of an import mode.
pub open spec fn mode_name(mode: nat) -> Seq<char> {
    if mode == 0 {
        "connector"@
    } else if mode == 1 {
        "csl-json"@
    } else {
        "connector-fallback"@
    }
}

/// The generated id of the `index`th item.
pub open spec fn generated_id(index: nat) -> Seq<char> {
    "cli-anything-zotero-"@ + nat_decimal(index)
}

/// `o` with `key` set to `value` when it has no such member.
pub open spec fn with_default(o: Seq<(Seq<char>, JsonV)>, key: Seq<char>, value: JsonV) -> Seq<(Seq<char>, JsonV)> {
    if member(o, key) is Some {
        o
    } else {
        insert_spec(o, key, value)
    }
}

/// The connector item of the `index`th raw item in a mode.
pub open spec fn mode_item(mode: nat, item: JsonV, index: nat, out: JsonV) -> bool {
    match item {
        JsonV::Object(o) => if mode == 0 {
            out == JsonV::Object(with_default(o, "id"@, JsonV::Str(generated_id(index))))
        } else if mode == 1 {
            connector_of(out, o, index)
        } else {
            out == JsonV::Object(with_default(with_default(o, "itemType"@, JsonV::Str("journalArticle"@)), "id"@, JsonV::Str(generated_id(index))))
        },
        _ => false,
    }
}

/// The message for a raw item that is not an object.
pub open spec fn not_object_message(index: nat) -> Seq<char> {
    "JSON import item "@ + nat_decimal(index) + " is not an object"@
}

/// What reading the raw `items` gives: the items in `out` under `format`, or the error for
/// the first item that is not an object.
pub open spec fn items_outcome(items: Seq<JsonV>, r: Result<(Seq<JsonV>, Seq<char>), Seq<char>>) -> bool {
    match r {
        Ok((out, format)) => (forall|i: int| 0 <= i < items.len() ==> #[trigger] items[i] is Object) && out.len() == items.len()
            && format == mode_name(import_mode(items))
            && forall|i: int| 0 <= i < items.len() ==> mode_item(import_mode(items), #[trigger] items[i], (i + 1) as nat, out[i]),
        Err(m) => exists|i: int|
            0 <= i < items.len() && !(#[trigger] items[i] is Object) && (forall|j: int| 0 <= j < i ==> items[j] is Object) && m
                == not_object_message((i + 1) as nat),
    }
}

fn set_default(m: &mut Vec<(String, Json)>, key: &str, value: Json)
    ensures
        entries_view(final(m)@) == with_default(entries_view(old(m)@), key@, value@),
{
    if member_get(m, key).is_none() {
        obj_insert(m, key.to_owned(), value);
    }
}

fn generated_id_exec(index: usize) -> (r: String)
    ensures
        r@ == generated_id(index as nat),
{
    let digits = u64_decimal(index as u64);
    concat_str("cli-anything-zotero-", string_from_chars(&digits).as_str())
}

fn not_object_error(index: usize) -> (r: DomainError)
    ensures
        r.0@ == not_object_message(index as nat),
{
    let digits = u64_decimal(index as u64);
    let a = concat_str("JSON import item ", string_from_chars(&digits).as_str());
    DomainError::from_string(concat_str(a.as_str(), " is not an object"))
}

fn import_mode_exec(items: &Vec<Json>) -> (r: u8)
    requires
        items@.len() > 0,
    ensures
        r as nat == import_mode(jsons_view(items@)),
{
    proof {
        crate::json::lemma_jsons_view(items@);
    }
    let empty: Vec<(String, Json)> = Vec::new();
    proof {
        assert(entries_view(empty@) =~= Seq::<(Seq<char>, JsonV)>::empty());
    }
    let first = match &items[0] {
        Json::Object(o) => o,
        _ => &empty,
    };
    if is_truthy(member_get(first, "itemType")) {
        0
    } else if looks_like_csl_item(&items[0]) || member_get(first, "type").is_some() {
        1
    } else {
        2
    }
}

fn mode_name_exec(mode: u8) -> (r: String)
    ensures
        r@ == mode_name(mode as nat),
{
    if mode == 0 {
        "connector".to_owned()
    } else if mode == 1 {
        "csl-json".to_owned()
    } else {
        "connector-fallback".to_owned()
    }
}

/// Reads raw import items.
#[verifier::rlimit(40)]
fn read_items(items: &Vec<Json>) -> (r: Result<(Vec<Json>, String), DomainError>)
    requires
        items@.len() > 0,
    ensures
        items_outcome(jsons_view(items@), match r {
            Ok((v, f)) => Ok((jsons_view(v@), f@)),
            Err(e) => Err(e.0@),
        }),
{
    let ghost iv = jsons_view(items@);
    proof {
        crate::json::lemma_jsons_view(items@);
    }
    let mode = import_mode_exec(items);
    let mut out: Vec<Json> = Vec::new();
    proof {
        assert(jsons_view(out@) =~= Seq::<JsonV>::empty());
    }
    let mut i: usize = 0;
    while i < items.len()
        invariant
            i <= items@.len(),
            iv == jsons_view(items@),
            iv.len() == items@.len(),
            iv.len() > 0,
            forall|k: int| 0 <= k < items@.len() ==> #[trigger] iv[k] == items@[k]@,
            mode as nat == import_mode(iv),
            jsons_view(out@).len() == i,
            forall|j: int| 0 <= j < i ==> #[trigger] iv[j] is Object,
            forall|j: int| 0 <= j < i ==> mode_item(import_mode(iv), #[trigger] iv[j], (j + 1) as nat, jsons_view(out@)[j]),
        decreases items.len() - i,
    {
        let o = match &items[i] {
            Json::Object(o) => o,
            _ => {
                proof {
                    assert(!(iv[i as int] is Object));
                }
                return Err(not_object_error(i + 1));
            },
        };
        let next = if mode == 1 {
            Json::Object(csl_item_to_connector(o, i + 1))
        } else {
            let mut copied = crate::json::clone_members(o);
            if mode == 2 {
                set_default(&mut copied, "itemType", Json::Str("journalArticle".to_owned()));
            }
            set_default(&mut copied, "id", Json::Str(generated_id_exec(i + 1)));
            Json::Object(copied)
        };
        proof {
            assert(iv[i as int] == JsonV::Object(entries_view(o@)));
            assert(mode_item(import_mode(iv), iv[i as int], (i + 1) as nat, next@));
        }
        let ghost before = out@;
        out.push(next);
        proof {
            crate::json::lemma_jsons_view_push(before, next);
        }
        i = i + 1;
    }
    Ok((out, mode_name_exec(mode)))
}

/// Reads a JSON import payload: a Crossref work (one item), an array, an object's `items`, or
/// a single item; the connector items and how they read.
pub fn normalize_import_json_payload(payload: &Json) -> (r: Result<(Vec<Json>, String), DomainError>)
    ensures
        match crossref_message(payload@) {
            Some(msg) => r matches Ok((v, f)) && f@ == "crossref"@ && v@.len() == 1
                && connector_of(v@[0]@, crossref_csl(msg), 1),
            None => match raw_items(payload@) {
                Err(m) => r matches Err(e) && e.0@ == m,
                Ok(items) => if items.len() == 0 {
                    r matches Ok((v, f)) && v@.len() == 0 && f@ == "empty"@
                } else {
                    items_outcome(items, match r {
                        Ok((v, f)) => Ok((jsons_view(v@), f@)),
                        Err(e) => Err(e.0@),
                    })
                },
            },
        },
{
    if let Some(Json::Object(msg)) = payload.get("message") {
        if is_truthy(member_get(msg, "DOI")) || is_truthy(member_get(msg, "title")) {
            let item = Json::Object(crossref_work_to_item(msg));
            let mut v: Vec<Json> = Vec::new();
            v.push(item);
            return Ok((v, "crossref".to_owned()));
        }
    }
    let wrapped: Vec<Json>;
    let items: &Vec<Json> = match payload {
        Json::Array(a) => a,
        Json::Object(o) => match member_get(o, "items") {
            Some(Json::Array(a)) => a,
            _ => {
                if looks_like_csl_item(payload) || is_truthy(member_get(o, "itemType")) {
                    let mut w: Vec<Json> = Vec::new();
                    let c = payload.deep_clone();
                    w.push(c);
                    proof {
                        reveal_with_fuel(jsons_view, 2);
                        assert(jsons_view(w@) =~= seq![payload@]);
                    }
                    wrapped = w;
                    &wrapped
                } else {
                    return Err(DomainError::new("JSON import expects an array, {items:[...]}, CSL object, or Crossref work"));
                }
            },
        },
        _ => return Err(DomainError::new("JSON import expects an array of objects")),
    };
    proof {
        crate::json::lemma_jsons_view(items@);
    }
    if items.len() == 0 {
        return Ok((Vec::new(), "empty".to_owned()));
    }
    read_items(items)
}

} // verus!
