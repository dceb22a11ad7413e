//! Attachment plans for imported items: attachment descriptors read from inline
//! `attachments` arrays or from a manifest, checked and normalized.

use vstd::prelude::*;

use crate::csl::{is_truthy, py_string, truthy, value_to_python_string};
use crate::error::DomainError;
use crate::json::{entries_view, jsons_view, member, opt_view, push_member, Json, JsonV};
use crate::number::{number_as_i64, number_as_u64, number_text_i64, number_text_u64};
use crate::text::{
    concat_str, nat_decimal, parse_i64, parse_i64_spec, parse_unsigned, parse_unsigned_spec,
    push_str, str_is_empty, string_from_chars, trim, trim_str, u64_decimal,
};

verus! {

/// An integer setting of an attachment as given: a number's integer part, a string's
/// trimmed integer text, a boolean as 0 or 1; nothing for anything else.
pub open spec fn setting_value(v: JsonV) -> Option<i64> {
    match v {
        JsonV::Number(t) => number_as_i64(t),
        JsonV::Str(s) => parse_i64_spec(trim(s)),
        JsonV::Bool(b) => Some(if b {
            1i64
        } else {
            0i64
        }),
        _ => None,
    }
}

/// How a lower bound is stated in an error.
pub open spec fn comparator(minimum: i64) -> Seq<char> {
    if minimum == 0 {
        "greater than or equal to"@
    } else {
        "at least "@ + crate::text::int_decimal(minimum as int)
    }
}

/// An integer setting of an attachment (the default when absent), which must be at least
/// `minimum`.
pub open spec fn setting_spec(value: Option<JsonV>, name: Seq<char>, default: i64, minimum: i64) -> Result<i64, Seq<char>> {
    let parsed = match value {
        Some(x) => setting_value(x),
        None => Some(default),
    };
    match parsed {
        None => Err("Attachment `"@ + name + "` must be an integer"@),
        Some(n) => if n < minimum {
            Err("Attachment `"@ + name + "` must be "@ + comparator(minimum))
        } else {
            Ok(n)
        },
    }
}

/// Reads an integer setting of an attachment.
pub fn normalize_attachment_int(value: Option<&Json>, name: &str, default: i64, minimum: i64) -> (r: Result<i64, DomainError>)
    ensures
        match setting_spec(opt_view(value), name@, default, minimum) {
            Ok(n) => r == Ok::<i64, DomainError>(n),
            Err(m) => r matches Err(e) && e.0@ == m,
        },
{
    let parsed: Option<i64> = match value {
        None => Some(default),
        Some(Json::Number(t)) => number_text_i64(t.as_str()),
        Some(Json::Str(s)) => {
            let t = trim_str(s.as_str());
            parse_i64(t.as_str())
        },
        Some(Json::Bool(b)) => Some(if *b {
            1
        } else {
            0
        }),
        Some(_) => None,
    };
    let n = match parsed {
        None => {
            let mut m = concat_str("Attachment `", name);
            push_str(&mut m, "` must be an integer");
            return Err(DomainError::from_string(m));
        },
        Some(n) => n,
    };
    if n < minimum {
        let mut m = concat_str("Attachment `", name);
        push_str(&mut m, "` must be ");
        if minimum == 0 {
            push_str(&mut m, "greater than or equal to");
        } else {
            push_str(&mut m, "at least ");
            let d = crate::text::i64_to_string(minimum);
            push_str(&mut m, d.as_str());
        }
        proof {
            reveal_strlit("at least ");
        }
        return Err(DomainError::from_string(m));
    }
    Ok(n)
}

/// Whether a descriptor gives a source under `key`: present, not null, not the empty string.
pub open spec fn gives(raw: Seq<(Seq<char>, JsonV)>, key: Seq<char>) -> bool {
    match member(raw, key) {
        Some(v) => v != JsonV::Null && v != JsonV::Str(Seq::empty()),
        None => false,
    }
}

/// An attachment's title: its `title` shown as text when truthy, trimmed; `PDF` when that
/// leaves nothing.
pub open spec fn title_spec(raw: Seq<(Seq<char>, JsonV)>) -> Seq<char> {
    let t = match member(raw, "title"@) {
        Some(v) => if truthy(Some(v)) {
            py_string(v)
        } else {
            "PDF"@
        },
        None => "PDF"@,
    };
    if trim(t).len() == 0 {
        "PDF"@
    } else {
        trim(t)
    }
}

/// A normalized descriptor: source type (`file` or `url`), source, title, delay in
/// milliseconds, timeout in seconds.
pub type DescriptorV = (Seq<char>, Seq<char>, Seq<char>, i64, i64);

/// An attachment descriptor checked and normalized: an object with exactly one of `path` and
/// `url`, a non-empty source, and valid delay (at least 0) and timeout (at least 1).
pub open spec fn descriptor_spec(raw: JsonV, label: Seq<char>, default_delay: i64, default_timeout: i64) -> Result<DescriptorV, Seq<char>> {
    match raw {
        JsonV::Object(o) => {
            let has_path = gives(o, "path"@);
            let has_url = gives(o, "url"@);
            if has_path == has_url {
                Err(label + " must include exactly one of `path` or `url`"@)
            } else {
                match setting_spec(member(o, "delay_ms"@), "delay_ms"@, default_delay, 0) {
                    Err(m) => Err(m),
                    Ok(delay) => match setting_spec(member(o, "timeout"@), "timeout"@, default_timeout, 1) {
                        Err(m) => Err(m),
                        Ok(timeout) => {
                            let key = if has_path {
                                "path"@
                            } else {
                                "url"@
                            };
                            let source = match member(o, key) {
                                Some(v) => trim(py_string(v)),
                                None => Seq::empty(),
                            };
                            if source.len() == 0 {
                                Err(label + " "@ + key + " must not be empty"@)
                            } else {
                                Ok((if has_path {
                                    "file"@
                                } else {
                                    "url"@
                                }, source, title_spec(o), delay, timeout))
                            }
                        },
                    },
                }
            }
        },
        _ => Err(label + " must be an object"@),
    }
}

/// A descriptor as a plan entry: its fields by name, in key order.
pub open spec fn descriptor_json(d: DescriptorV) -> JsonV {
    JsonV::Object(seq![
        ("delay_ms"@, JsonV::Number(crate::text::int_decimal(d.3 as int))),
        ("source"@, JsonV::Str(d.1)),
        ("source_type"@, JsonV::Str(d.0)),
        ("timeout"@, JsonV::Number(crate::text::int_decimal(d.4 as int))),
        ("title"@, JsonV::Str(d.2)),
    ])
}

fn gives_exec(o: &Vec<(String, Json)>, key: &str) -> (b: bool)
    ensures
        b == gives(entries_view(o@), key@),
{
    match crate::json::member_get(o, key) {
        Some(Json::Null) => false,
        Some(Json::Str(s)) => {
            let e = str_is_empty(s.as_str());
            proof {
                if e {
                    assert(s@ =~= Seq::<char>::empty());
                }
            }
            !e
        },
        Some(_) => true,
        None => false,
    }
}

fn title_exec(o: &Vec<(String, Json)>) -> (r: String)
    ensures
        r@ == title_spec(entries_view(o@)),
{
    let t = match crate::json::member_get(o, "title") {
        Some(v) => if is_truthy(Some(v)) {
            value_to_python_string(v)
        } else {
            "PDF".to_owned()
        },
        None => "PDF".to_owned(),
    };
    let tt = trim_str(t.as_str());
    if str_is_empty(tt.as_str()) {
        "PDF".to_owned()
    } else {
        tt
    }
}

/// Checks and normalizes an attachment descriptor; `label` names it in errors (for instance
/// `JSON import item 2 attachment 1`).
pub fn normalize_attachment_descriptor(raw: &Json, label: &str, default_delay_ms: i64, default_timeout: i64) -> (r: Result<crate::import_normalization::AttachmentDescriptor, DomainError>)
    ensures
        match descriptor_spec(raw@, label@, default_delay_ms, default_timeout) {
            Ok(d) => r matches Ok(x) && (x.source_type@, x.source@, x.title@, x.delay_ms, x.timeout) == d,
            Err(m) => r matches Err(e) && e.0@ == m,
        },
{
    let o = match raw {
        Json::Object(o) => o,
        _ => return Err(DomainError::from_string(concat_str(label, " must be an object"))),
    };
    let has_path = gives_exec(o, "path");
    let has_url = gives_exec(o, "url");
    if has_path == has_url {
        return Err(DomainError::from_string(concat_str(label, " must include exactly one of `path` or `url`")));
    }
    let delay_ms = match normalize_attachment_int(crate::json::member_get(o, "delay_ms"), "delay_ms", default_delay_ms, 0) {
        Ok(n) => n,
        Err(e) => return Err(e),
    };
    let timeout = match normalize_attachment_int(crate::json::member_get(o, "timeout"), "timeout", default_timeout, 1) {
        Ok(n) => n,
        Err(e) => return Err(e),
    };
    let key: &str = if has_path {
        "path"
    } else {
        "url"
    };
    let source = match crate::json::member_get(o, key) {
        Some(v) => {
            let t = value_to_python_string(v);
            trim_str(t.as_str())
        },
        None => String::new(),
    };
    if str_is_empty(source.as_str()) {
        let mut m = crate::text::concat3(label, " ", key);
        push_str(&mut m, " must not be empty");
        return Err(DomainError::from_string(m));
    }
    let source_type = if has_path {
        "file".to_owned()
    } else {
        "url".to_owned()
    };
    Ok(crate::import_normalization::AttachmentDescriptor { source_type, source, title: title_exec(o), delay_ms, timeout })
}

/// A descriptor as a plan entry.
pub fn descriptor_to_json(d: &crate::import_normalization::AttachmentDescriptor) -> (r: Json)
    ensures
        r@ == descriptor_json((d.source_type@, d.source@, d.title@, d.delay_ms, d.timeout)),
{
    let mut m: Vec<(String, Json)> = Vec::new();
    push_member(&mut m, "delay_ms", Json::Number(crate::text::i64_to_string(d.delay_ms)));
    push_member(&mut m, "source", Json::Str(d.source.clone()));
    push_member(&mut m, "source_type", Json::Str(d.source_type.clone()));
    push_member(&mut m, "timeout", Json::Number(crate::text::i64_to_string(d.timeout)));
    push_member(&mut m, "title", Json::Str(d.title.clone()));
    proof {
        assert(entries_view(m@) =~= match descriptor_json((d.source_type@, d.source@, d.title@, d.delay_ms, d.timeout)) {
            JsonV::Object(es) => es,
            _ => Seq::empty(),
        });
    }
    Json::Object(m)
}

/// `prefix` followed by the 1-based number of position `k`.
pub open spec fn numbered(prefix: Seq<char>, k: int) -> Seq<char> {
    prefix + nat_decimal((k + 1) as nat)
}

fn numbered_exec(prefix: &str, k: usize) -> (r: String)
    requires
        k < usize::MAX,
    ensures
        r@ == numbered(prefix@, k as int),
{
    let d = string_from_chars(&u64_decimal((k + 1) as u64));
    concat_str(prefix, d.as_str())
}

/// The first `n` descriptors of an attachments array, normalized, or the first error;
/// `label` names the item or entry they belong to.
pub open spec fn descriptors_spec(xs: Seq<JsonV>, label: Seq<char>, n: int, dd: i64, dt: i64) -> Result<Seq<JsonV>, Seq<char>>
    decreases n,
{
    if n <= 0 {
        Ok(Seq::empty())
    } else {
        match descriptors_spec(xs, label, n - 1, dd, dt) {
            Err(m) => Err(m),
            Ok(ds) => match descriptor_spec(xs[n - 1], label + " "@ + numbered("attachment "@, n - 1), dd, dt) {
                Err(m) => Err(m),
                Ok(d) => Ok(ds.push(descriptor_json(d))),
            },
        }
    }
}

proof fn lemma_descriptors_err(xs: Seq<JsonV>, label: Seq<char>, j: int, n: int, dd: i64, dt: i64)
    requires
        0 <= j <= n,
        descriptors_spec(xs, label, j, dd, dt) is Err,
    ensures
        descriptors_spec(xs, label, n, dd, dt) == descriptors_spec(xs, label, j, dd, dt),
    decreases n - j,
{
    if j < n {
        lemma_descriptors_err(xs, label, j, n - 1, dd, dt);
    }
}

fn descriptors_exec(xs: &Vec<Json>, label: &str, dd: i64, dt: i64) -> (r: Result<Vec<Json>, DomainError>)
    ensures
        match descriptors_spec(jsons_view(xs@), label@, xs@.len() as int, dd, dt) {
            Ok(ds) => r matches Ok(v) && jsons_view(v@) == ds,
            Err(m) => r matches Err(e) && e.0@ == m,
        },
{
    let ghost xv = jsons_view(xs@);
    proof {
        crate::json::lemma_jsons_view(xs@);
    }
    let mut out: Vec<Json> = Vec::new();
    let mut j: usize = 0;
    proof {
        assert(jsons_view(out@) =~= Seq::<JsonV>::empty());
    }
    while j < xs.len()
        invariant
            j <= xs@.len(),
            xv == jsons_view(xs@),
            xv.len() == xs@.len(),
            forall|k: int| 0 <= k < xs@.len() ==> #[trigger] xv[k] == crate::json::json_view(xs@[k]),
            descriptors_spec(xv, label@, j as int, dd, dt) == Ok::<Seq<JsonV>, Seq<char>>(jsons_view(out@)),
        decreases xs.len() - j,
    {
        let al = numbered_exec("attachment ", j);
        let full = crate::text::concat3(label, " ", al.as_str());
        proof {
            assert(xv[j as int] == xs@[j as int]@);
            assert(full@ == label@ + " "@ + numbered("attachment "@, j as int));
        }
        match normalize_attachment_descriptor(&xs[j], full.as_str(), dd, dt) {
            Err(e) => {
                proof {
                    lemma_descriptors_err(xv, label@, j + 1, xs@.len() as int, dd, dt);
                }
                return Err(e);
            },
            Ok(d) => {
                let x = descriptor_to_json(&d);
                let ghost xg = x;
                let ghost before = out@;
                out.push(x);
                proof {
                    assert(out@ =~= before + seq![xg]);
                    crate::json::lemma_jsons_view_append(before, seq![xg]);
                    crate::json::lemma_jsons_view(seq![xg]);
                    let dv = (d.source_type@, d.source@, d.title@, d.delay_ms, d.timeout);
                    assert(descriptor_spec(xv[j as int], full@, dd, dt) == Ok::<DescriptorV, Seq<char>>(dv));
                    assert(jsons_view(out@) == jsons_view(before).push(descriptor_json(dv)));
                }
            },
        }
        j = j + 1;
    }
    Ok(out)
}

/// Members without those named `k`.
pub open spec fn without_key(es: Seq<(Seq<char>, JsonV)>, k: Seq<char>) -> Seq<(Seq<char>, JsonV)>
    decreases es.len(),
{
    if es.len() == 0 {
        Seq::empty()
    } else {
        without_key(es.drop_last(), k) + if es.last().0 == k {
            Seq::empty()
        } else {
            seq![es.last()]
        }
    }
}

/// The label of an imported item by position.
pub open spec fn item_label(i: int) -> Seq<char> {
    numbered("JSON import item "@, i)
}

/// A plan: the position of the item the attachments belong to, and the attachments.
pub open spec fn plan_json(ds: Seq<JsonV>, index: nat) -> JsonV {
    JsonV::Object(seq![("attachments"@, JsonV::Array(ds)), ("index"@, JsonV::Number(nat_decimal(index)))])
}

/// One item's step: the item without its `attachments` added to `st`, and its plan added to
/// `ps` when its attachments are not null or empty; or the error for an item that is not an
/// object, attachments that are not an array, or a bad descriptor.
pub open spec fn plan_step(item: JsonV, i: int, dd: i64, dt: i64, st: Seq<JsonV>, ps: Seq<JsonV>) -> Result<(Seq<JsonV>, Seq<JsonV>), Seq<char>> {
    match item {
        JsonV::Object(o) => {
            let raw = match member(o, "attachments"@) {
                Some(v) => v,
                None => JsonV::Array(Seq::empty()),
            };
            let copied = JsonV::Object(without_key(o, "attachments"@));
            match raw {
                JsonV::Null => Ok((st.push(copied), ps)),
                JsonV::Array(xs) => if xs.len() == 0 {
                    Ok((st.push(copied), ps))
                } else {
                    match descriptors_spec(xs, item_label(i), xs.len() as int, dd, dt) {
                        Err(m) => Err(m),
                        Ok(ds) => Ok((st.push(copied), ps.push(plan_json(ds, i as nat)))),
                    }
                },
                _ => Err(item_label(i) + " attachments must be an array"@),
            }
        },
        _ => Err(item_label(i) + " is not an object"@),
    }
}

/// The first `n` items with their `attachments` taken out, and the plan of each item whose
/// attachments are not null or empty; or the first error.
pub open spec fn inline_plans_spec(items: Seq<JsonV>, n: int, dd: i64, dt: i64) -> Result<(Seq<JsonV>, Seq<JsonV>), Seq<char>>
    decreases n,
{
    if n <= 0 {
        Ok((Seq::empty(), Seq::empty()))
    } else {
        match inline_plans_spec(items, n - 1, dd, dt) {
            Err(m) => Err(m),
            Ok((st, ps)) => plan_step(items[n - 1], n - 1, dd, dt, st, ps),
        }
    }
}

proof fn lemma_plans_err(items: Seq<JsonV>, j: int, n: int, dd: i64, dt: i64)
    requires
        0 <= j <= n,
        inline_plans_spec(items, j, dd, dt) is Err,
    ensures
        inline_plans_spec(items, n, dd, dt) == inline_plans_spec(items, j, dd, dt),
    decreases n - j,
{
    if j < n {
        lemma_plans_err(items, j, n - 1, dd, dt);
    }
}

fn without_key_exec(o: &Vec<(String, Json)>, k: &str) -> (r: Vec<(String, Json)>)
    ensures
        entries_view(r@) == without_key(entries_view(o@), k@),
{
    let ghost ov = entries_view(o@);
    proof {
        crate::json::lemma_entries_view(o@);
        assert(ov.subrange(0, 0) =~= Seq::<(Seq<char>, JsonV)>::empty());
    }
    let mut out: Vec<(String, Json)> = Vec::new();
    let mut i: usize = 0;
    proof {
        assert(entries_view(out@) =~= Seq::<(Seq<char>, JsonV)>::empty());
    }
    while i < o.len()
        invariant
            i <= o@.len(),
            ov == entries_view(o@),
            ov.len() == o@.len(),
            forall|j: int| 0 <= j < o@.len() ==> #[trigger] ov[j] == (o@[j].0@, crate::json::json_view(o@[j].1)),
            entries_view(out@) == without_key(ov.subrange(0, i as int), k@),
        decreases o.len() - i,
    {
        proof {
            assert(ov.subrange(0, i + 1).drop_last() =~= ov.subrange(0, i as int));
            assert(ov.subrange(0, i + 1).last() == ov[i as int]);
        }
        if !crate::text::str_eq(o[i].0.as_str(), k) {
            push_member(&mut out, o[i].0.as_str(), o[i].1.deep_clone());
        }
        i = i + 1;
    }
    proof {
        assert(ov.subrange(0, ov.len() as int) =~= ov);
    }
    out
}

#[verifier::rlimit(40)]
fn plan_item(item: &Json, i: usize, dd: i64, dt: i64, stripped: &mut Vec<Json>, plans: &mut Vec<Json>) -> (r: Result<(), DomainError>)
    requires
        i < usize::MAX,
    ensures
        match plan_step(item@, i as int, dd, dt, jsons_view(old(stripped)@), jsons_view(old(plans)@)) {
            Ok((st, ps)) => r is Ok && jsons_view(final(stripped)@) == st && jsons_view(final(plans)@) == ps,
            Err(m) => r matches Err(e) && e.0@ == m,
        },
{
    let label = numbered_exec("JSON import item ", i);
    let o = match item {
        Json::Object(o) => o,
        _ => return Err(DomainError::from_string(concat_str(label.as_str(), " is not an object"))),
    };
    let copied = Json::Object(without_key_exec(o, "attachments"));
    let ghost cg = copied;
    let ghost sb = stripped@;
    let ghost pb = plans@;
    let raw = crate::json::member_get(o, "attachments");
    match raw {
        None => {},
        Some(Json::Null) => {},
        Some(Json::Array(xs)) => {
            proof {
                crate::json::lemma_jsons_view(xs@);
            }
            if xs.len() > 0 {
                let ds = match descriptors_exec(xs, label.as_str(), dd, dt) {
                    Ok(ds) => ds,
                    Err(e) => return Err(e),
                };
                let ghost dsv = jsons_view(ds@);
                let mut pm: Vec<(String, Json)> = Vec::new();
                push_member(&mut pm, "attachments", Json::Array(ds));
                push_member(&mut pm, "index", crate::json::json_count(i));
                proof {
                    assert(entries_view(pm@) =~= seq![("attachments"@, JsonV::Array(dsv)), ("index"@, JsonV::Number(nat_decimal(i as nat)))]);
                }
                let plan = Json::Object(pm);
                let ghost pg = plan;
                plans.push(plan);
                proof {
                    assert(plans@ =~= pb + seq![pg]);
                    crate::json::lemma_jsons_view_append(pb, seq![pg]);
                    crate::json::lemma_jsons_view(seq![pg]);
                }
            } else {
                proof {
                    assert(jsons_view(xs@) =~= Seq::<JsonV>::empty());
                }
            }
        },
        Some(_) => {
            return Err(DomainError::from_string(concat_str(label.as_str(), " attachments must be an array")));
        },
    }
    stripped.push(copied);
    proof {
        assert(stripped@ =~= sb + seq![cg]);
        crate::json::lemma_jsons_view_append(sb, seq![cg]);
        crate::json::lemma_jsons_view(seq![cg]);
    }
    Ok(())
}

/// Takes the inline `attachments` out of imported items: the items without them, and a plan
/// for each item that had some.
pub fn extract_inline_attachment_plans(items: &Vec<Json>, default_delay_ms: i64, default_timeout: i64) -> (r: Result<(Vec<Json>, Vec<Json>), DomainError>)
    ensures
        match inline_plans_spec(jsons_view(items@), items@.len() as int, default_delay_ms, default_timeout) {
            Ok((st, ps)) => r matches Ok((a, b)) && jsons_view(a@) == st && jsons_view(b@) == ps,
            Err(m) => r matches Err(e) && e.0@ == m,
        },
{
    let ghost iv = jsons_view(items@);
    proof {
        crate::json::lemma_jsons_view(items@);
    }
    let mut stripped: Vec<Json> = Vec::new();
    let mut plans: Vec<Json> = Vec::new();
    let mut i: usize = 0;
    proof {
        assert(jsons_view(stripped@) =~= Seq::<JsonV>::empty());
        assert(jsons_view(plans@) =~= Seq::<JsonV>::empty());
    }
    while i < items.len()
        invariant
            i <= items@.len(),
            iv == jsons_view(items@),
            iv.len() == items@.len(),
            forall|k: int| 0 <= k < items@.len() ==> #[trigger] iv[k] == crate::json::json_view(items@[k]),
            inline_plans_spec(iv, i as int, default_delay_ms, default_timeout)
                == Ok::<(Seq<JsonV>, Seq<JsonV>), Seq<char>>((jsons_view(stripped@), jsons_view(plans@))),
        decreases items.len() - i,
    {
        proof {
            assert(iv[i as int] == items@[i as int]@);
        }
        match plan_item(&items[i], i, default_delay_ms, default_timeout, &mut stripped, &mut plans) {
            Ok(()) => {},
            Err(e) => {
                proof {
                    lemma_plans_err(iv, i + 1, items@.len() as int, default_delay_ms, default_timeout);
                }
                return Err(e);
            },
        }
        i = i + 1;
    }
    Ok((stripped, plans))
}

/// The label of a manifest entry by position.
pub open spec fn entry_label(k: int) -> Seq<char> {
    numbered("manifest entry "@, k)
}

/// The import position a manifest entry names: a number's integer part when not negative, a
/// string's trimmed unsigned integer text, a boolean as 0 or 1; else the error.
pub open spec fn manifest_index_spec(v: JsonV, k: int) -> Result<u64, Seq<char>> {
    let parsed: Option<u64> = match v {
        JsonV::Number(t) => number_as_u64(t),
        JsonV::Str(s) => match parse_unsigned_spec(trim(s), u64::MAX as int) {
            Some(x) => Some(x as u64),
            None => None,
        },
        JsonV::Bool(b) => Some(if b {
            1u64
        } else {
            0u64
        }),
        _ => None,
    };
    match parsed {
        Some(x) => Ok(x),
        None => Err(entry_label(k) + " index must be an integer greater than or equal to 0"@),
    }
}

/// Reads the import position of manifest entry `k`.
pub fn normalize_manifest_index(value: &Json, k: usize) -> (r: Result<u64, DomainError>)
    requires
        k < usize::MAX,
    ensures
        match manifest_index_spec(value@, k as int) {
            Ok(x) => r == Ok::<u64, DomainError>(x),
            Err(m) => r matches Err(e) && e.0@ == m,
        },
{
    let parsed: Option<u64> = match value {
        Json::Number(t) => number_text_u64(t.as_str()),
        Json::Str(s) => {
            let t = trim_str(s.as_str());
            parse_unsigned(t.as_str(), u64::MAX)
        },
        Json::Bool(b) => Some(if *b {
            1
        } else {
            0
        }),
        _ => None,
    };
    match parsed {
        Some(x) => Ok(x),
        None => {
            let l = numbered_exec("manifest entry ", k);
            Err(DomainError::from_string(concat_str(l.as_str(), " index must be an integer greater than or equal to 0")))
        },
    }
}

/// One manifest entry read, given the import positions of the entries before it: its plan
/// (attachments, expected title when given, import position) and its position; or the error.
#[verifier::opaque]
pub open spec fn manifest_step(entry: JsonV, k: int, seen: Seq<u64>, dd: i64, dt: i64) -> Result<(JsonV, u64), Seq<char>> {
    let label = entry_label(k);
    match entry {
        JsonV::Object(o) => match member(o, "index"@) {
            None => Err(label + " is missing required `index`"@),
            Some(iv) => match manifest_index_spec(iv, k) {
                Err(m) => Err(m),
                Ok(index) => if seen.contains(index) {
                    Err(label + " reuses import index "@ + nat_decimal(index as nat))
                } else {
                    match member(o, "attachments"@) {
                        Some(JsonV::Array(xs)) => match descriptors_spec(xs, label, xs.len() as int, dd, dt) {
                            Err(m) => Err(m),
                            Ok(ds) => {
                                let head = seq![("attachments"@, JsonV::Array(ds))];
                                let tail = seq![("index"@, JsonV::Number(nat_decimal(index as nat)))];
                                match member(o, "expected_title"@) {
                                    Some(JsonV::Str(t)) => Ok((JsonV::Object(head + seq![("expected_title"@, JsonV::Str(t))] + tail), index)),
                                    Some(JsonV::Null) => Ok((JsonV::Object(head + tail), index)),
                                    None => Ok((JsonV::Object(head + tail), index)),
                                    Some(_) => Err(label + " expected_title must be a string"@),
                                }
                            },
                        },
                        _ => Err(label + " attachments must be an array"@),
                    }
                },
            },
        },
        _ => Err(label + " must be an object"@),
    }
}

/// The plans of the first `n` manifest entries and their import positions, or the first
/// error.
pub open spec fn manifest_entries(es: Seq<JsonV>, n: int, dd: i64, dt: i64) -> Result<(Seq<JsonV>, Seq<u64>), Seq<char>>
    decreases n,
{
    if n <= 0 {
        Ok((Seq::empty(), Seq::empty()))
    } else {
        match manifest_entries(es, n - 1, dd, dt) {
            Err(m) => Err(m),
            Ok((plans, seen)) => match manifest_step(es[n - 1], n - 1, seen, dd, dt) {
                Err(m) => Err(m),
                Ok((p, index)) => Ok((plans.push(p), seen.push(index))),
            },
        }
    }
}

/// The plans of an attachment manifest: an array of entries, each naming an import position
/// (used once) and its attachments.
pub open spec fn manifest_spec(raw: JsonV, dd: i64, dt: i64) -> Result<Seq<JsonV>, Seq<char>> {
    match raw {
        JsonV::Array(es) => match manifest_entries(es, es.len() as int, dd, dt) {
            Ok((plans, _)) => Ok(plans),
            Err(m) => Err(m),
        },
        _ => Err("Attachment manifest expects an array of {index, attachments} objects"@),
    }
}

proof fn lemma_manifest_err(es: Seq<JsonV>, j: int, n: int, dd: i64, dt: i64)
    requires
        0 <= j <= n,
        manifest_entries(es, j, dd, dt) is Err,
    ensures
        manifest_entries(es, n, dd, dt) == manifest_entries(es, j, dd, dt),
    decreases n - j,
{
    if j < n {
        lemma_manifest_err(es, j, n - 1, dd, dt);
    }
}

fn contains_u64(v: &Vec<u64>, x: u64) -> (b: bool)
    ensures
        b == v@.contains(x),
{
    let mut i: usize = 0;
    while i < v.len()
        invariant
            i <= v@.len(),
            forall|j: int| 0 <= j < i ==> v@[j] != x,
        decreases v.len() - i,
    {
        if v[i] == x {
            proof {
                assert(v@[i as int] == x);
            }
            return true;
        }
        i = i + 1;
    }
    false
}

#[verifier::rlimit(40)]
fn manifest_entry(entry: &Json, k: usize, seen: &Vec<u64>, dd: i64, dt: i64) -> (r: Result<(Json, u64), DomainError>)
    requires
        k < usize::MAX,
    ensures
        match manifest_step(entry@, k as int, seen@, dd, dt) {
            Ok((p, index)) => r matches Ok((x, i)) && x@ == p && i == index,
            Err(m) => r matches Err(e) && e.0@ == m,
        },
{
    proof {
        reveal(manifest_step);
    }
    let label = numbered_exec("manifest entry ", k);
    let o = match entry {
        Json::Object(o) => o,
        _ => return Err(DomainError::from_string(concat_str(label.as_str(), " must be an object"))),
    };
    let iv = match crate::json::member_get(o, "index") {
        Some(v) => v,
        None => return Err(DomainError::from_string(concat_str(label.as_str(), " is missing required `index`"))),
    };
    let index = match normalize_manifest_index(iv, k) {
        Ok(x) => x,
        Err(e) => return Err(e),
    };
    if contains_u64(seen, index) {
        let mut m = concat_str(label.as_str(), " reuses import index ");
        let d = string_from_chars(&u64_decimal(index));
        push_str(&mut m, d.as_str());
        return Err(DomainError::from_string(m));
    }
    let xs = match crate::json::member_get(o, "attachments") {
        Some(Json::Array(xs)) => xs,
        _ => return Err(DomainError::from_string(concat_str(label.as_str(), " attachments must be an array"))),
    };
    proof {
        crate::json::lemma_jsons_view(xs@);
    }
    let ds = match descriptors_exec(xs, label.as_str(), dd, dt) {
        Ok(ds) => ds,
        Err(e) => return Err(e),
    };
    let ghost dsv = jsons_view(ds@);
    let mut m: Vec<(String, Json)> = Vec::new();
    push_member(&mut m, "attachments", Json::Array(ds));
    match crate::json::member_get(o, "expected_title") {
        Some(Json::Str(t)) => push_member(&mut m, "expected_title", Json::Str(t.clone())),
        Some(Json::Null) => {},
        None => {},
        Some(_) => return Err(DomainError::from_string(concat_str(label.as_str(), " expected_title must be a string"))),
    }
    push_member(&mut m, "index", Json::Number(string_from_chars(&u64_decimal(index))));
    let ghost head = seq![("attachments"@, JsonV::Array(dsv))];
    let ghost tail = seq![("index"@, JsonV::Number(nat_decimal(index as nat)))];
    proof {
        match member(entries_view(o@), "expected_title"@) {
            Some(JsonV::Str(t)) => {
                assert(entries_view(m@) =~= head + seq![("expected_title"@, JsonV::Str(t))] + tail);
            },
            _ => {
                assert(entries_view(m@) =~= head + tail);
            },
        }
    }
    Ok((Json::Object(m), index))
}

/// Reads the plans of an attachment manifest (already parsed as JSON).
#[verifier::rlimit(40)]
pub fn read_attachment_manifest(raw: &Json, default_delay_ms: i64, default_timeout: i64) -> (r: Result<Vec<Json>, DomainError>)
    ensures
        match manifest_spec(raw@, default_delay_ms, default_timeout) {
            Ok(ps) => r matches Ok(v) && jsons_view(v@) == ps,
            Err(m) => r matches Err(e) && e.0@ == m,
        },
{
    let es = match raw {
        Json::Array(es) => es,
        _ => return Err(DomainError::new("Attachment manifest expects an array of {index, attachments} objects")),
    };
    let ghost ev = jsons_view(es@);
    proof {
        crate::json::lemma_jsons_view(es@);
    }
    let mut plans: Vec<Json> = Vec::new();
    let mut seen: Vec<u64> = Vec::new();
    let mut k: usize = 0;
    proof {
        assert(jsons_view(plans@) =~= Seq::<JsonV>::empty());
    }
    while k < es.len()
        invariant
            k <= es@.len(),
            raw@ == JsonV::Array(ev),
            ev == jsons_view(es@),
            ev.len() == es@.len(),
            forall|j: int| 0 <= j < es@.len() ==> #[trigger] ev[j] == crate::json::json_view(es@[j]),
            manifest_entries(ev, k as int, default_delay_ms, default_timeout)
                == Ok::<(Seq<JsonV>, Seq<u64>), Seq<char>>((jsons_view(plans@), seen@)),
        decreases es.len() - k,
    {
        proof {
            assert(ev[k as int] == es@[k as int]@);
        }
        let ghost old_plans = jsons_view(plans@);
        let ghost old_seen = seen@;
        match manifest_entry(&es[k], k, &seen, default_delay_ms, default_timeout) {
            Ok((p, index)) => {
                let ghost pg = p;
                let ghost pb = plans@;
                plans.push(p);
                seen.push(index);
                proof {
                    assert(plans@ =~= pb + seq![pg]);
                    crate::json::lemma_jsons_view_append(pb, seq![pg]);
                    crate::json::lemma_jsons_view(seq![pg]);
                    assert(manifest_step(ev[k as int], k as int, old_seen, default_delay_ms, default_timeout)
                        == Ok::<(JsonV, u64), Seq<char>>((pg@, index)));
                    assert(manifest_entries(ev, k + 1, default_delay_ms, default_timeout)
                        == Ok::<(Seq<JsonV>, Seq<u64>), Seq<char>>((old_plans.push(pg@), old_seen.push(index))));
                    assert(jsons_view(plans@) =~= old_plans.push(pg@));
                    assert(seen@ =~= old_seen.push(index));
                }
            },
            Err(e) => {
                proof {
                    match manifest_step(ev[k as int], k as int, old_seen, default_delay_ms, default_timeout) {
                        Err(m) => {
                            assert(manifest_entries(ev, k + 1, default_delay_ms, default_timeout) == Err::<(Seq<JsonV>, Seq<u64>), Seq<char>>(m));
                            lemma_manifest_err(ev, k + 1, es@.len() as int, default_delay_ms, default_timeout);
                            assert(raw@ == JsonV::Array(ev));
                            assert(manifest_spec(raw@, default_delay_ms, default_timeout) == Err::<Seq<JsonV>, Seq<char>>(m));
                        },
                        Ok(_) => {},
                    }
                }
                return Err(e);
            },
        }
        k = k + 1;
    }
    Ok(plans)
}

} // verus!
