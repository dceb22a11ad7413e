//! Command results: exit codes, transport envelopes, write read-backs and membership
//! arrays, all over JSON payloads.

use vstd::prelude::*;

use crate::error::DomainError;
use crate::json::{
    entries_view, get_spec, json_equal, jsons_view, lemma_entries_view, lemma_jsons_view,
    lemma_jsons_view_push, member, member_get, opt_view, Json, JsonV,
};
use crate::text::{concat_str, i64_to_string, int_decimal, str_eq, strings_contains, strings_view};

verus! {

/// Exit code of a result payload: 1 when `ok` is `false` or `status` is one of
/// `partial_success`, `error`, `failed`, `timeout`; 0 otherwise.
pub open spec fn exit_code_spec(payload: JsonV) -> i32 {
    if get_spec(payload, "ok"@) == Some(JsonV::Bool(false)) {
        1
    } else {
        let status = match get_spec(payload, "status"@) {
            Some(JsonV::Str(s)) => s,
            _ => Seq::empty(),
        };
        if status == "partial_success"@ || status == "error"@ || status == "failed"@ || status
            == "timeout"@ {
            1
        } else {
            0
        }
    }
}

/// The process exit code for a result payload.
pub fn exit_code_for(payload: &Json) -> (code: i32)
    ensures
        code == exit_code_spec(payload@),
{
    match payload.get("ok") {
        Some(Json::Bool(false)) => return 1,
        _ => {},
    }
    let status = match payload.get("status") {
        Some(Json::Str(s)) => s.as_str(),
        _ => "",
    };
    proof {
        reveal_strlit("");
        assert(""@ =~= Seq::<char>::empty());
    }
    if str_eq(status, "partial_success") || str_eq(status, "error") || str_eq(status, "failed")
        || str_eq(status, "timeout") {
        1
    } else {
        0
    }
}

/// The payload reported for a success that carried no data.
pub open spec fn empty_result_spec() -> JsonV {
    JsonV::Object(
        seq![
            ("code"@, JsonV::Str("EMPTY_RESULT"@)),
            ("data"@, JsonV::Null),
            ("error"@, JsonV::Str("JS bridge returned empty success (data is null)"@)),
            ("ok"@, JsonV::Bool(false)),
        ],
    )
}

/// `{"ok": false, "data": null, "error": ..., "code": "EMPTY_RESULT"}`.
pub fn empty_result_payload() -> (r: Json)
    ensures
        r@ == empty_result_spec(),
{
    let mut m: Vec<(String, Json)> = Vec::new();
    m.push(("code".to_owned(), Json::Str("EMPTY_RESULT".to_owned())));
    m.push(("data".to_owned(), Json::Null));
    m.push(("error".to_owned(), Json::Str("JS bridge returned empty success (data is null)".to_owned())));
    m.push(("ok".to_owned(), Json::Bool(false)));
    proof {
        reveal_with_fuel(entries_view, 5);
        assert(entries_view(m@) =~= seq![
            ("code"@, JsonV::Str("EMPTY_RESULT"@)),
            ("data"@, JsonV::Null),
            ("error"@, JsonV::Str("JS bridge returned empty success (data is null)"@)),
            ("ok"@, JsonV::Bool(false)),
        ]);
    }
    Json::Object(m)
}

/// What unwrapping a transport envelope gives: a failed transport as it is (exit 1); a
/// success's `data`, where a missing or null `data` is an error when data is required and a
/// data object with `ok: false` is a failure (exit 1).
pub open spec fn unwrap_spec(result: JsonV, require_data: bool) -> (JsonV, i32) {
    if get_spec(result, "ok"@) != Some(JsonV::Bool(true)) {
        (result, 1)
    } else {
        match get_spec(result, "data"@) {
            None => if require_data {
                (empty_result_spec(), 1)
            } else {
                (result, 0)
            },
            Some(JsonV::Null) => if require_data {
                (empty_result_spec(), 1)
            } else {
                (JsonV::Null, 0)
            },
            Some(d) => if d is Object && get_spec(d, "ok"@) == Some(JsonV::Bool(false)) {
                (d, 1)
            } else {
                (d, 0)
            },
        }
    }
}

/// Unwraps an `{ok, data, error}` transport envelope into the payload to show and its exit
/// code.
pub fn unwrap_transport_envelope(result: Json, require_data: bool) -> (r: (Json, i32))
    ensures
        (r.0@, r.1) == unwrap_spec(result@, require_data),
{
    let ok_true = match result.get("ok") {
        Some(Json::Bool(true)) => true,
        _ => false,
    };
    if !ok_true {
        return (result, 1);
    }
    let data = match result.get("data") {
        Some(d) => Some(d.deep_clone()),
        None => None,
    };
    match data {
        None => if require_data {
            (empty_result_payload(), 1)
        } else {
            (result, 0)
        },
        Some(Json::Null) => if require_data {
            (empty_result_payload(), 1)
        } else {
            (Json::Null, 0)
        },
        Some(d) => {
            let failed = match &d {
                Json::Object(_) => match d.get("ok") {
                    Some(Json::Bool(false)) => true,
                    _ => false,
                },
                _ => false,
            };
            if failed {
                (d, 1)
            } else {
                (d, 0)
            }
        },
    }
}

/// Whether a live read-back reports the object absent (`"found": false`).
pub fn is_live_object_absent(raw: &Json) -> (b: bool)
    ensures
        b == (get_spec(raw@, "found"@) == Some(JsonV::Bool(false))),
{
    match raw.get("found") {
        Some(Json::Bool(false)) => true,
        _ => false,
    }
}

/// The canonical view of an object after a write.
#[derive(Debug)]
pub struct CanonicalWriteView {
    pub key: String,
    pub library_id: i64,
    pub item_type: String,
    pub data: Vec<(String, Json)>,
}

/// A requested field that reads back differently.
#[derive(Debug)]
pub struct FieldMismatch {
    pub field: String,
    pub requested: Json,
    pub observed: Option<Json>,
}

fn clone_members(m: &Vec<(String, Json)>) -> (r: Vec<(String, Json)>)
    ensures
        entries_view(r@) == entries_view(m@),
{
    let original = Json::Object(Vec::new());
    proof {
        lemma_entries_view(m@);
    }
    let mut out: Vec<(String, Json)> = Vec::new();
    let mut i: usize = 0;
    while i < m.len()
        invariant
            i <= m@.len(),
            entries_view(m@).len() == m@.len(),
            forall|k: int| 0 <= k < m@.len() ==> #[trigger] entries_view(m@)[k] == (m@[k].0@, m@[k].1@),
            entries_view(out@) == entries_view(m@).subrange(0, i as int),
        decreases m.len() - i,
    {
        let k = m[i].0.clone();
        let v = m[i].1.deep_clone();
        let ghost before = out@;
        out.push((k, v));
        proof {
            crate::json::lemma_entries_view_push(before, (k, v));
            assert(entries_view(out@) =~= entries_view(m@).subrange(0, i + 1));
        }
        i = i + 1;
    }
    proof {
        assert(entries_view(m@).subrange(0, m@.len() as int) =~= entries_view(m@));
    }
    out
}

/// What a live read-back gives: the object's key, library id, data and item type, or the
/// error for an absent object or a missing field.
pub open spec fn parse_live_spec(raw: JsonV, what: Seq<char>) -> Result<(Seq<char>, i64, Seq<(Seq<char>, JsonV)>), Seq<char>> {
    if get_spec(raw, "found"@) == Some(JsonV::Bool(false)) {
        Err(what + " was not found via the live Zotero-runtime readback"@)
    } else {
        match get_spec(raw, "key"@) {
            Some(JsonV::Str(key)) => match get_spec(raw, "libraryID"@) {
                Some(JsonV::Number(t)) if crate::text::parse_i64_spec(t) is Some => match get_spec(raw, "data"@) {
                    Some(JsonV::Object(data)) => Ok((key, crate::text::parse_i64_spec(t).unwrap(), data)),
                    _ => Err("live readback response missing `data`"@),
                },
                _ => Err("live readback response missing `libraryID`"@),
            },
            _ => Err("live readback response missing `key`"@),
        }
    }
}

/// Normalizes a live read-back response into the canonical write view.
pub fn parse_live_object(raw: &Json, what: &str) -> (r: Result<CanonicalWriteView, DomainError>)
    ensures
        match parse_live_spec(raw@, what@) {
            Ok((key, library_id, data)) => r matches Ok(v) && v.key@ == key && v.library_id == library_id
                && entries_view(v.data@) == data && v.item_type@ == match member(data, "itemType"@) {
                Some(JsonV::Str(t)) => t,
                _ => Seq::<char>::empty(),
            },
            Err(m) => r matches Err(e) && e.0@ == m,
        },
{
    if is_live_object_absent(raw) {
        return Err(DomainError::from_string(concat_str(what, " was not found via the live Zotero-runtime readback")));
    }
    let key = match raw.get("key") {
        Some(Json::Str(k)) => k.clone(),
        _ => return Err(DomainError::new("live readback response missing `key`")),
    };
    let library_id = match raw.get("libraryID") {
        Some(j) => match j.as_i64() {
            Some(id) => id,
            None => return Err(DomainError::new("live readback response missing `libraryID`")),
        },
        None => return Err(DomainError::new("live readback response missing `libraryID`")),
    };
    let data = match raw.get("data") {
        Some(Json::Object(m)) => clone_members(m),
        _ => return Err(DomainError::new("live readback response missing `data`")),
    };
    let item_type = match member_get(&data, "itemType") {
        Some(Json::Str(t)) => t.clone(),
        _ => String::new(),
    };
    Ok(CanonicalWriteView { key, library_id, item_type, data })
}

/// The fields of `requested` (in order) whose value reads back differently in `observed`,
/// as (field, requested, observed).
pub open spec fn mismatches_spec(requested: Seq<(Seq<char>, JsonV)>, observed: Seq<(Seq<char>, JsonV)>) -> Seq<
    (Seq<char>, JsonV, Option<JsonV>),
>
    decreases requested.len(),
{
    if requested.len() == 0 {
        Seq::empty()
    } else {
        let prefix = mismatches_spec(requested.drop_last(), observed);
        let (f, v) = requested.last();
        let o = member(observed, f);
        if o != Some(v) {
            prefix.push((f, v, o))
        } else {
            prefix
        }
    }
}

/// View of mismatches.
pub open spec fn mismatch_view(m: Seq<FieldMismatch>) -> Seq<(Seq<char>, JsonV, Option<JsonV>)> {
    m.map_values(|x: FieldMismatch| (x.field@, x.requested@, match x.observed {
        Some(o) => Some(o@),
        None => None,
    }))
}

/// The requested fields that did not read back as requested.
pub fn diff_requested_fields(requested: &Vec<(String, Json)>, observed: &Vec<(String, Json)>) -> (r: Vec<FieldMismatch>)
    ensures
        mismatch_view(r@) == mismatches_spec(entries_view(requested@), entries_view(observed@)),
{
    proof {
        lemma_entries_view(requested@);
    }
    let ghost rv = entries_view(requested@);
    let mut out: Vec<FieldMismatch> = Vec::new();
    let mut i: usize = 0;
    while i < requested.len()
        invariant
            i <= requested@.len(),
            rv == entries_view(requested@),
            rv.len() == requested@.len(),
            forall|k: int| 0 <= k < requested@.len() ==> #[trigger] rv[k] == (requested@[k].0@, requested@[k].1@),
            mismatch_view(out@) == mismatches_spec(rv.subrange(0, i as int), entries_view(observed@)),
        decreases requested.len() - i,
    {
        proof {
            assert(rv.subrange(0, i + 1).drop_last() =~= rv.subrange(0, i as int));
            assert(rv.subrange(0, i + 1).last() == rv[i as int]);
        }
        let field = &requested[i].0;
        let want = &requested[i].1;
        let observed_value = member_get(observed, field.as_str());
        let same = match observed_value {
            Some(o) => json_equal(o, want),
            None => false,
        };
        if !same {
            let m = FieldMismatch {
                field: field.clone(),
                requested: want.deep_clone(),
                observed: match observed_value {
                    Some(o) => Some(o.deep_clone()),
                    None => None,
                },
            };
            let ghost before = out@;
            out.push(m);
            proof {
                assert(mismatch_view(out@) =~= mismatch_view(before).push((field@, want@, opt_view(observed_value))));
            }
        }
        i = i + 1;
    }
    proof {
        assert(rv.subrange(0, rv.len() as int) =~= rv);
    }
    out
}

/// The string values of the array member `field` (none when it is absent or not an array).
pub open spec fn string_array_spec(data: Seq<(Seq<char>, JsonV)>, field: Seq<char>) -> Seq<Seq<char>> {
    match member(data, field) {
        Some(JsonV::Array(xs)) => strings_of(xs),
        _ => Seq::empty(),
    }
}

/// The texts of the string values in `xs`, in order.
pub open spec fn strings_of(xs: Seq<JsonV>) -> Seq<Seq<char>>
    decreases xs.len(),
{
    if xs.len() == 0 {
        Seq::empty()
    } else {
        match xs.last() {
            JsonV::Str(s) => strings_of(xs.drop_last()).push(s),
            _ => strings_of(xs.drop_last()),
        }
    }
}

/// Reads an array member of strings (e.g. `collections`) as plain strings.
pub fn extract_string_array(data: &Vec<(String, Json)>, field: &str) -> (r: Vec<String>)
    ensures
        strings_view(r@) == string_array_spec(entries_view(data@), field@),
{
    let xs = match member_get(data, field) {
        Some(Json::Array(xs)) => xs,
        _ => return Vec::new(),
    };
    proof {
        lemma_jsons_view(xs@);
    }
    let ghost xv = jsons_view(xs@);
    let mut out: Vec<String> = Vec::new();
    let mut i: usize = 0;
    while i < xs.len()
        invariant
            i <= xs@.len(),
            xv == jsons_view(xs@),
            xv.len() == xs@.len(),
            forall|k: int| 0 <= k < xs@.len() ==> #[trigger] xv[k] == xs@[k]@,
            strings_view(out@) == strings_of(xv.subrange(0, i as int)),
        decreases xs.len() - i,
    {
        proof {
            assert(xv.subrange(0, i + 1).drop_last() =~= xv.subrange(0, i as int));
            assert(xv.subrange(0, i + 1).last() == xs@[i as int]@);
        }
        match &xs[i] {
            Json::Str(s) => {
                let ghost before = out@;
                out.push(s.clone());
                proof {
                    assert(strings_view(out@) =~= strings_view(before).push(s@));
                }
            },
            _ => {},
        }
        i = i + 1;
    }
    proof {
        assert(xv.subrange(0, xv.len() as int) =~= xv);
    }
    out
}

/// The tag name of a tag entry (`""` when it has no string `tag`).
pub open spec fn tag_name(v: JsonV) -> Seq<char> {
    match get_spec(v, "tag"@) {
        Some(JsonV::Str(s)) => s,
        _ => Seq::empty(),
    }
}

/// Whether some entry of `xs` is tagged exactly `name`.
pub open spec fn has_tag(xs: Seq<JsonV>, name: Seq<char>) -> bool {
    exists|i: int| 0 <= i < xs.len() && get_spec(#[trigger] xs[i], "tag"@) == Some(JsonV::Str(name))
}

/// `{"tag": name}`.
pub open spec fn tag_object(name: Seq<char>) -> JsonV {
    JsonV::Object(seq![("tag"@, JsonV::Str(name))])
}

/// The entries of `xs` whose tag name is not in `remove` (all when `remove` is empty).
pub open spec fn tags_kept(xs: Seq<JsonV>, remove: Seq<Seq<char>>) -> Seq<JsonV> {
    if remove.len() == 0 {
        xs
    } else {
        xs.filter(|v: JsonV| !remove.contains(tag_name(v)))
    }
}

/// `xs` followed by a bare tag for each of `add` not yet tagged, in order.
pub open spec fn tags_added(xs: Seq<JsonV>, add: Seq<Seq<char>>) -> Seq<JsonV>
    decreases add.len(),
{
    if add.len() == 0 {
        xs
    } else {
        let prefix = tags_added(xs, add.drop_last());
        if has_tag(prefix, add.last()) {
            prefix
        } else {
            prefix.push(tag_object(add.last()))
        }
    }
}

/// The full replacement tag array: the current entries (kept whole) minus the removed names,
/// then a bare tag for each added name not yet present.
pub open spec fn tag_array_spec(current: JsonV, add: Seq<Seq<char>>, remove: Seq<Seq<char>>) -> Seq<JsonV> {
    let xs = match current {
        JsonV::Array(xs) => xs,
        _ => Seq::empty(),
    };
    tags_added(tags_kept(xs, remove), add)
}

fn tag_name_exec(v: &Json) -> (r: &str)
    ensures
        r@ == tag_name(v@),
{
    match v.get("tag") {
        Some(Json::Str(s)) => s.as_str(),
        _ => {
            proof {
                reveal_strlit("");
                assert(""@ =~= Seq::<char>::empty());
            }
            ""
        },
    }
}

fn has_tag_exec(xs: &Vec<Json>, name: &str) -> (b: bool)
    ensures
        b == has_tag(jsons_view(xs@), name@),
{
    proof {
        lemma_jsons_view(xs@);
    }
    let mut i: usize = 0;
    while i < xs.len()
        invariant
            i <= xs@.len(),
            jsons_view(xs@).len() == xs@.len(),
            forall|k: int| 0 <= k < xs@.len() ==> #[trigger] jsons_view(xs@)[k] == xs@[k]@,
            forall|k: int| 0 <= k < i ==> get_spec(#[trigger] jsons_view(xs@)[k], "tag"@) != Some(JsonV::Str(name@)),
        decreases xs.len() - i,
    {
        let hit = match xs[i].get("tag") {
            Some(Json::Str(s)) => str_eq(s.as_str(), name),
            _ => false,
        };
        if hit {
            proof {
                assert(get_spec(jsons_view(xs@)[i as int], "tag"@) == Some(JsonV::Str(name@)));
            }
            return true;
        }
        i = i + 1;
    }
    false
}

/// Computes the full replacement `tags` array for adding and removing tag names.
pub fn compute_tag_array(current: &Json, add: &Vec<String>, remove: &Vec<String>) -> (r: Vec<Json>)
    ensures
        jsons_view(r@) == tag_array_spec(current@, strings_view(add@), strings_view(remove@)),
{
    let mut result: Vec<Json> = match current {
        Json::Array(xs) => {
            let c = current.deep_clone();
            match c {
                Json::Array(v) => v,
                _ => Vec::new(),
            }
        },
        _ => Vec::new(),
    };
    proof {
        if !(current@ is Array) {
            assert(jsons_view(result@) =~= Seq::<JsonV>::empty());
        }
    }
    let ghost xs = jsons_view(result@);
    if remove.len() > 0 {
        proof {
            lemma_jsons_view(result@);
        }
        let mut kept: Vec<Json> = Vec::new();
        let mut taken = result;
        let ghost all = taken@;
        let mut i: usize = 0;
        let n = taken.len();
        while i < n
            invariant
                n == all.len(),
                i <= n,
                xs == jsons_view(all),
                jsons_view(all).len() == all.len(),
                forall|k: int| 0 <= k < all.len() ==> #[trigger] jsons_view(all)[k] == all[k]@,
                taken@ == all.subrange(i as int, n as int),
                jsons_view(kept@) == xs.subrange(0, i as int).filter(|v: JsonV| !strings_view(remove@).contains(tag_name(v))),
            decreases n - i,
        {
            proof {
                reveal(Seq::filter);
                assert(xs.subrange(0, i + 1).drop_last() =~= xs.subrange(0, i as int));
                assert(xs.subrange(0, i + 1).last() == all[i as int]@);
                assert(taken@[0] == all[i as int]);
            }
            let entry = taken.remove(0);
            let name = tag_name_exec(&entry);
            if !strings_contains(remove, name) {
                let ghost before = kept@;
                kept.push(entry);
                proof {
                    lemma_jsons_view_push(before, entry);
                }
            }
            proof {
                assert(taken@ =~= all.subrange(i + 1, n as int));
            }
            i = i + 1;
        }
        proof {
            assert(xs.subrange(0, xs.len() as int) =~= xs);
        }
        result = kept;
    }
    let ghost base = jsons_view(result@);
    let mut j: usize = 0;
    while j < add.len()
        invariant
            j <= add@.len(),
            jsons_view(result@) == tags_added(base, strings_view(add@).subrange(0, j as int)),
        decreases add.len() - j,
    {
        proof {
            assert(strings_view(add@).subrange(0, j + 1).drop_last() =~= strings_view(add@).subrange(0, j as int));
            assert(strings_view(add@).subrange(0, j + 1).last() == add@[j as int]@);
        }
        if !has_tag_exec(&result, add[j].as_str()) {
            let mut m: Vec<(String, Json)> = Vec::new();
            m.push(("tag".to_owned(), Json::Str(add[j].clone())));
            let t = Json::Object(m);
            proof {
                reveal_with_fuel(entries_view, 2);
                assert(entries_view(m@) =~= seq![("tag"@, JsonV::Str(add@[j as int]@))]);
            }
            let ghost before = result@;
            result.push(t);
            proof {
                lemma_jsons_view_push(before, t);
            }
        }
        j = j + 1;
    }
    proof {
        assert(strings_view(add@).subrange(0, add@.len() as int) =~= strings_view(add@));
    }
    result
}

/// An observed value as shown: the value, or `null` when the field is absent.
pub open spec fn observed_or_null(o: Option<JsonV>) -> JsonV {
    match o {
        Some(v) => v,
        None => JsonV::Null,
    }
}

/// The members of one `field_mismatches` entry: `field`, `observed`, `requested`.
pub open spec fn mismatch_entries(m: (Seq<char>, JsonV, Option<JsonV>)) -> Seq<(Seq<char>, JsonV)> {
    seq![("field"@, JsonV::Str(m.0)), ("observed"@, observed_or_null(m.2)), ("requested"@, m.1)]
}

/// The `field_mismatches` entry of one mismatch.
pub open spec fn mismatch_json(m: (Seq<char>, JsonV, Option<JsonV>)) -> JsonV {
    JsonV::Object(mismatch_entries(m))
}

/// The applied-write payload: `outcome`, `key`, `library_id`, `item_type` and `data`, and
/// `field_mismatches` when some field read back differently; never a `version` key.
pub open spec fn write_result_spec(
    key: Seq<char>,
    library_id: i64,
    item_type: Seq<char>,
    data: Seq<(Seq<char>, JsonV)>,
    mismatches: Seq<(Seq<char>, JsonV, Option<JsonV>)>,
) -> JsonV {
    let base = seq![("data"@, JsonV::Object(data))];
    let with_mismatches = if mismatches.len() == 0 {
        base
    } else {
        base.push(("field_mismatches"@, JsonV::Array(mismatches.map_values(|m: (Seq<char>, JsonV, Option<JsonV>)| mismatch_json(m)))))
    };
    JsonV::Object(
        with_mismatches + seq![
            ("item_type"@, JsonV::Str(item_type)),
            ("key"@, JsonV::Str(key)),
            ("library_id"@, JsonV::Number(int_decimal(library_id as int))),
            ("outcome"@, JsonV::Str("applied"@)),
        ],
    )
}

/// Renders an applied write.
pub fn render_write_result(view: &CanonicalWriteView, mismatches: &Vec<FieldMismatch>) -> (r: Json)
    ensures
        r@ == write_result_spec(view.key@, view.library_id, view.item_type@, entries_view(view.data@), mismatch_view(mismatches@)),
{
    let mut m: Vec<(String, Json)> = Vec::new();
    let data = clone_members(&view.data);
    let ghost dv = entries_view(data@);
    m.push(("data".to_owned(), Json::Object(data)));
    proof {
        reveal_with_fuel(entries_view, 2);
        assert(entries_view(m@) =~= seq![("data"@, JsonV::Object(dv))]);
    }
    if mismatches.len() > 0 {
        let mut items: Vec<Json> = Vec::new();
        let mut i: usize = 0;
        let ghost mv = mismatch_view(mismatches@);
        while i < mismatches.len()
            invariant
                i <= mismatches@.len(),
                mv == mismatch_view(mismatches@),
                jsons_view(items@) == mv.subrange(0, i as int).map_values(|x: (Seq<char>, JsonV, Option<JsonV>)| mismatch_json(x)),
            decreases mismatches.len() - i,
        {
            let x = &mismatches[i];
            let mut o: Vec<(String, Json)> = Vec::new();
            o.push(("field".to_owned(), Json::Str(x.field.clone())));
            let observed = match &x.observed {
                Some(v) => v.deep_clone(),
                None => Json::Null,
            };
            o.push(("observed".to_owned(), observed));
            o.push(("requested".to_owned(), x.requested.deep_clone()));
            let e = Json::Object(o);
            proof {
                reveal_with_fuel(entries_view, 4);
                let t = mv[i as int];
                assert(t == (x.field@, x.requested@, match x.observed {
                    Some(v) => Some(v@),
                    None => None,
                }));
                assert(observed@ == observed_or_null(t.2));
                assert(entries_view(o@) =~= mismatch_entries(t));
            }
            let ghost before = items@;
            items.push(e);
            proof {
                lemma_jsons_view_push(before, e);
                assert(jsons_view(items@) =~= mv.subrange(0, i + 1).map_values(|x: (Seq<char>, JsonV, Option<JsonV>)| mismatch_json(x)));
            }
            i = i + 1;
        }
        proof {
            assert(mv.subrange(0, mv.len() as int) =~= mv);
        }
        let ghost before = m@;
        let arr = Json::Array(items);
        let entry = ("field_mismatches".to_owned(), arr);
        m.push(entry);
        proof {
            crate::json::lemma_entries_view_push(before, entry);
        }
    }
    let ghost mid = m@;
    m.push(("item_type".to_owned(), Json::Str(view.item_type.clone())));
    m.push(("key".to_owned(), Json::Str(view.key.clone())));
    m.push(("library_id".to_owned(), Json::Number(i64_to_string(view.library_id))));
    m.push(("outcome".to_owned(), Json::Str("applied".to_owned())));
    proof {
        lemma_entries_view(m@);
        lemma_entries_view(mid);
        assert(entries_view(m@) =~= entries_view(mid) + seq![
            ("item_type"@, JsonV::Str(view.item_type@)),
            ("key"@, JsonV::Str(view.key@)),
            ("library_id"@, JsonV::Number(int_decimal(view.library_id as int))),
            ("outcome"@, JsonV::Str("applied"@)),
        ]);
    }
    Json::Object(m)
}

} // verus!
