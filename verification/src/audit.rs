//! The audit log of write operations: which payloads are audited, the record kept of each
//! (a timestamp, the action, and selected fields, large values summarized), and the reading
//! back of the log's last lines.

use vstd::prelude::*;

use crate::json::{entries_view, insert_spec, json_text, member, obj_insert, push_member, Json, JsonV};
use crate::text::{nat_decimal, push_char, push_str, starts_with, str_eq, string_from_chars};

verus! {

/// Zeros before the digits of `n` up to `width` characters, after the sign of a negative
/// number (as `{:0w}` formats an integer).
pub open spec fn zero_pad(n: int, width: nat) -> Seq<char> {
    let digits = nat_decimal((if n < 0 {
        -n
    } else {
        n
    }) as nat);
    let sign: Seq<char> = if n < 0 {
        seq!['-']
    } else {
        Seq::empty()
    };
    let used = sign.len() + digits.len();
    let zeros = if used < width {
        Seq::new((width - used) as nat, |i: int| '0')
    } else {
        Seq::empty()
    };
    sign + zeros + digits
}

/// The civil date (year, month, day) of a count of days since 1970-01-01.
pub open spec fn civil_from_days(days: int) -> (int, int, int) {
    let z = days + 719_468;
    let era = (if z >= 0 {
        z
    } else {
        z - 146_096
    }) / 146_097;
    let doe = z - era * 146_097;
    let yoe = (doe - doe / 1460 + doe / 36524 - doe / 146_096) / 365;
    let y = yoe + era * 400;
    let doy = doe - (365 * yoe + yoe / 4 - yoe / 100);
    let mp = (5 * doy + 2) / 153;
    let d = doy - (153 * mp + 2) / 5 + 1;
    let m = if mp < 10 {
        mp + 3
    } else {
        mp - 9
    };
    (if m <= 2 {
        y + 1
    } else {
        y
    }, m, d)
}

/// The UTC timestamp of a count of seconds since the Unix epoch, as
/// `YYYY-MM-DDTHH:MM:SSZ`.
pub open spec fn iso_timestamp(secs: nat) -> Seq<char> {
    let (y, m, d) = civil_from_days((secs / 86_400) as int);
    let rem = secs % 86_400;
    zero_pad(y, 4) + seq!['-'] + zero_pad(m, 2) + seq!['-'] + zero_pad(d, 2) + seq!['T']
        + zero_pad((rem / 3600) as int, 2) + seq![':'] + zero_pad(((rem % 3600) / 60) as int, 2) + seq![':']
        + zero_pad((rem % 60) as int, 2) + seq!['Z']
}

fn push_padded(out: &mut String, n: i64, width: usize)
    ensures
        final(out)@ == old(out)@ + zero_pad(n as int, width as nat),
{
    let mag: u64 = if n < 0 {
        if n == i64::MIN {
            9_223_372_036_854_775_808
        } else {
            (-n) as u64
        }
    } else {
        n as u64
    };
    let digits = crate::text::u64_decimal(mag);
    let sign_len: usize = if n < 0 { 1 } else { 0 };
    if n < 0 {
        push_char(out, '-');
    }
    let ghost mid = out@;
    let zeros: usize = if width > sign_len && width - sign_len > digits.len() {
        width - sign_len - digits.len()
    } else {
        0
    };
    if zeros > 0 {
        let mut k: usize = 0;
        while k < zeros
            invariant
                k <= zeros,
                out@ == mid + Seq::new(k as nat, |i: int| '0'),
            decreases zeros - k,
        {
            push_char(out, '0');
            proof {
                assert(out@ =~= mid + Seq::new((k + 1) as nat, |i: int| '0'));
            }
            k = k + 1;
        }
    }
    let ghost before_digits = out@;
    let ds = string_from_chars(&digits);
    push_str(out, ds.as_str());
    proof {
        let sign: Seq<char> = if n < 0 {
            seq!['-']
        } else {
            Seq::empty()
        };
        assert(mag as nat == (if n < 0 {
            -(n as int)
        } else {
            n as int
        }) as nat);
        if sign.len() + digits@.len() < width {
            assert(out@ =~= old(out)@ + (sign + Seq::new(zeros as nat, |i: int| '0') + digits@));
        } else {
            assert(out@ =~= old(out)@ + (sign + Seq::<char>::empty() + digits@));
        }
    }
}

/// The civil date of a count of days since 1970-01-01.
#[verifier::rlimit(40)]
fn civil_exec(days: i64) -> (r: (i64, i64, i64))
    requires
        0 <= days <= 300_000_000_000_000,
    ensures
        (r.0 as int, r.1 as int, r.2 as int) == civil_from_days(days as int),
{
    let z: i64 = days + 719_468;
    let era: i64 = z / 146_097;
    assert(0 <= era <= 3_000_000_000);
    assert(era * 146_097 <= z) by (nonlinear_arith)
        requires era == z / 146_097, z >= 0;
    let doe: i64 = z - era * 146_097;
    assert(0 <= doe < 146_097) by (nonlinear_arith)
        requires era == z / 146_097, z >= 0, doe == z - era * 146_097;
    let yoe: i64 = (doe - doe / 1460 + doe / 36524 - doe / 146_096) / 365;
    assert(0 <= yoe <= 400);
    let y0: i64 = yoe + era * 400;
    let doy: i64 = doe - (365 * yoe + yoe / 4 - yoe / 100);
    assert(-200_000 <= doy <= 200_000);
    let mp: i64 = (5 * doy + 2) / 153;
    let d: i64 = doy - (153 * mp + 2) / 5 + 1;
    let m: i64 = if mp < 10 {
        mp + 3
    } else {
        mp - 9
    };
    let y: i64 = if m <= 2 {
        y0 + 1
    } else {
        y0
    };
    (y, m, d)
}

/// The UTC timestamp of `secs` seconds since the Unix epoch.
pub fn iso8601_from_secs(secs: u64) -> (r: String)
    ensures
        r@ == iso_timestamp(secs as nat),
{
    let days: i64 = (secs / 86_400) as i64;
    let rem: u64 = secs % 86_400;
    let (y, m, d) = civil_exec(days);
    let mut out = String::new();
    push_padded(&mut out, y, 4);
    push_char(&mut out, '-');
    push_padded(&mut out, m, 2);
    push_char(&mut out, '-');
    push_padded(&mut out, d, 2);
    push_char(&mut out, 'T');
    push_padded(&mut out, (rem / 3600) as i64, 2);
    push_char(&mut out, ':');
    push_padded(&mut out, ((rem % 3600) / 60) as i64, 2);
    push_char(&mut out, ':');
    push_padded(&mut out, (rem % 60) as i64, 2);
    push_char(&mut out, 'Z');
    proof {
        assert(out@ =~= iso_timestamp(secs as nat));
    }
    out
}

/// The current UTC timestamp: the timestamp of the clock's seconds since the epoch.
pub fn now_iso8601() -> (r: String)
    ensures
        exists|secs: nat| r@ == iso_timestamp(secs),
{
    let nanos = crate::clock::unix_nanos();
    let secs128 = nanos / 1_000_000_000;
    let secs: u64 = if secs128 > 0xffff_ffff_ffff_ffff {
        0xffff_ffff_ffff_ffff
    } else {
        secs128 as u64
    };
    iso8601_from_secs(secs)
}

/// Keys whose values an audit record never holds.
pub open spec fn skipped_key(k: Seq<char>) -> bool {
    k == "import_result"@ || k == "convert"@ || k == "doctor"@ || k == "attempts"@ || k == "items"@ || k == "details"@
}

/// How a value is recorded: scalars as they are; an array or object as it is when its
/// compact JSON takes at most 2000 bytes, else as a note of its kind and size.
pub open spec fn recorded_value(v: JsonV) -> JsonV {
    match v {
        JsonV::Array(_) | JsonV::Object(_) => {
            let n = vstd::utf8::encode_utf8(json_text(v)).len();
            if n <= 2000 {
                v
            } else {
                JsonV::Object(seq![
                    ("_truncated"@, JsonV::Bool(true)),
                    ("size"@, JsonV::Number(nat_decimal(n))),
                    ("type"@, JsonV::Str(if v is Array {
                        "list"@
                    } else {
                        "dict"@
                    })),
                ])
            }
        },
        _ => v,
    }
}

/// The members of an audit record after the first `n` fields: the timestamp and the action,
/// then each field that is not null and not skipped, recorded.
pub open spec fn entry_members(ts: Seq<char>, action: Seq<char>, fields: Seq<(Seq<char>, JsonV)>, n: int) -> Seq<(Seq<char>, JsonV)>
    decreases n,
{
    if n <= 0 {
        insert_spec(insert_spec(Seq::empty(), "ts"@, JsonV::Str(ts)), "action"@, JsonV::Str(action))
    } else {
        let prev = entry_members(ts, action, fields, n - 1);
        let (k, v) = fields[n - 1];
        if v == JsonV::Null || skipped_key(k) {
            prev
        } else {
            insert_spec(prev, k, recorded_value(v))
        }
    }
}

fn recorded_exec(v: &Json) -> (r: Json)
    ensures
        r@ == recorded_value(v@),
{
    match v {
        Json::Array(_) | Json::Object(_) => {
            let text = crate::json::to_json_string(v);
            let n = text.as_str().as_bytes().len();
            if n <= 2000 {
                v.deep_clone()
            } else {
                let mut m: Vec<(String, Json)> = Vec::new();
                push_member(&mut m, "_truncated", Json::Bool(true));
                push_member(&mut m, "size", crate::json::json_count(n));
                let kind = match v {
                    Json::Array(_) => "list",
                    _ => "dict",
                };
                push_member(&mut m, "type", Json::Str(kind.to_owned()));
                proof {
                    assert(entries_view(m@) =~= match recorded_value(v@) {
                        JsonV::Object(es) => es,
                        _ => Seq::empty(),
                    });
                }
                Json::Object(m)
            }
        },
        _ => v.deep_clone(),
    }
}

fn is_skipped(k: &str) -> (b: bool)
    ensures
        b == skipped_key(k@),
{
    str_eq(k, "import_result") || str_eq(k, "convert") || str_eq(k, "doctor") || str_eq(k, "attempts")
        || str_eq(k, "items") || str_eq(k, "details")
}

/// The audit record of an action with its fields, stamped `ts`.
pub fn audit_entry(ts: &str, action: &str, fields: &Vec<(String, Json)>) -> (r: Json)
    ensures
        r@ == JsonV::Object(entry_members(ts@, action@, entries_view(fields@), fields@.len() as int)),
{
    let ghost fv = entries_view(fields@);
    proof {
        crate::json::lemma_entries_view(fields@);
    }
    let mut m: Vec<(String, Json)> = Vec::new();
    proof {
        assert(entries_view(m@) =~= Seq::<(Seq<char>, JsonV)>::empty());
    }
    obj_insert(&mut m, "ts".to_owned(), Json::Str(ts.to_owned()));
    obj_insert(&mut m, "action".to_owned(), Json::Str(action.to_owned()));
    let mut i: usize = 0;
    while i < fields.len()
        invariant
            i <= fields@.len(),
            fv == entries_view(fields@),
            fv.len() == fields@.len(),
            forall|k: int| 0 <= k < fields@.len() ==> #[trigger] fv[k] == (fields@[k].0@, crate::json::json_view(fields@[k].1)),
            entries_view(m@) == entry_members(ts@, action@, fv, i as int),
        decreases fields.len() - i,
    {
        let k = fields[i].0.as_str();
        let v = &fields[i].1;
        let is_null = match v {
            Json::Null => true,
            _ => false,
        };
        if !is_null && !is_skipped(k) {
            obj_insert(&mut m, k.to_owned(), recorded_exec(v));
        }
        i = i + 1;
    }
    Json::Object(m)
}

/// What a payload's `keep` is recorded as: the `key` of an object, anything else as it is.
pub open spec fn keep_value(v: Option<JsonV>) -> JsonV {
    match v {
        Some(JsonV::Object(m)) => match member(m, "key"@) {
            Some(k) => k,
            None => JsonV::Null,
        },
        Some(o) => o,
        None => JsonV::Null,
    }
}

/// A member of a payload, or null.
pub open spec fn member_or_null(o: Seq<(Seq<char>, JsonV)>, key: Seq<char>) -> JsonV {
    match member(o, key) {
        Some(v) => v,
        None => JsonV::Null,
    }
}

/// The fields of a payload that its audit record may keep, in order.
pub open spec fn payload_fields(o: Seq<(Seq<char>, JsonV)>) -> Seq<(Seq<char>, JsonV)> {
    seq![
        ("ok"@, member_or_null(o, "ok"@)),
        ("status"@, member_or_null(o, "status"@)),
        ("code"@, member_or_null(o, "code"@)),
        ("key"@, member_or_null(o, "key"@)),
        ("keep"@, keep_value(member(o, "keep"@))),
        ("DOI"@, member_or_null(o, "DOI"@)),
        ("path"@, match member(o, "path"@) {
            Some(p) => p,
            None => member_or_null(o, "output"@),
        }),
        ("source"@, member_or_null(o, "source"@)),
        ("mode_used"@, member_or_null(o, "mode_used"@)),
        ("dry_run"@, member_or_null(o, "dry_run"@)),
        ("error"@, member_or_null(o, "error"@)),
        ("collection"@, member_or_null(o, "collection"@)),
        ("url"@, member_or_null(o, "url"@)),
        ("arxiv_id"@, member_or_null(o, "arxiv_id"@)),
        ("succeeded"@, member_or_null(o, "succeeded"@)),
        ("failed"@, member_or_null(o, "failed"@)),
        ("found"@, member_or_null(o, "found"@)),
        ("checked"@, member_or_null(o, "checked"@)),
    ]
}

/// Read-only reports that are audited only when they are dry runs.
pub open spec fn readish(action: Seq<char>) -> bool {
    action == "app_doctor"@ || action == "item_duplicates"@ || action == "item_merge_preview"@ || action == "collection_stats"@
}

/// The audit record of a payload stamped `ts`: none for a payload that is not an object, has
/// no non-empty `action`, or is a read-only report other than a dry run.
pub open spec fn audit_record_spec(ts: Seq<char>, payload: JsonV) -> Option<JsonV> {
    match payload {
        JsonV::Object(o) => match member(o, "action"@) {
            Some(JsonV::Str(action)) => if action.len() == 0 {
                None
            } else if readish(action) && member(o, "status"@) != Some(JsonV::Str("dry_run"@)) {
                None
            } else {
                Some(JsonV::Object(entry_members(ts, action, payload_fields(o), 18)))
            },
            _ => None,
        },
        _ => None,
    }
}

fn member_or_null_exec(o: &Vec<(String, Json)>, key: &str) -> (r: Json)
    ensures
        r@ == member_or_null(entries_view(o@), key@),
{
    match crate::json::member_get(o, key) {
        Some(v) => v.deep_clone(),
        None => Json::Null,
    }
}

#[verifier::rlimit(40)]
fn payload_fields_exec(o: &Vec<(String, Json)>) -> (f: Vec<(String, Json)>)
    ensures
        entries_view(f@) == payload_fields(entries_view(o@)),
{
    let keep = match crate::json::member_get(o, "keep") {
        Some(Json::Object(m)) => match crate::json::member_get(m, "key") {
            Some(k) => k.deep_clone(),
            None => Json::Null,
        },
        Some(other) => other.deep_clone(),
        None => Json::Null,
    };
    let path = match crate::json::member_get(o, "path") {
        Some(p) => p.deep_clone(),
        None => member_or_null_exec(o, "output"),
    };
    let mut f: Vec<(String, Json)> = Vec::new();
    push_member(&mut f, "ok", member_or_null_exec(o, "ok"));
    push_member(&mut f, "status", member_or_null_exec(o, "status"));
    push_member(&mut f, "code", member_or_null_exec(o, "code"));
    push_member(&mut f, "key", member_or_null_exec(o, "key"));
    push_member(&mut f, "keep", keep);
    push_member(&mut f, "DOI", member_or_null_exec(o, "DOI"));
    push_member(&mut f, "path", path);
    push_member(&mut f, "source", member_or_null_exec(o, "source"));
    push_member(&mut f, "mode_used", member_or_null_exec(o, "mode_used"));
    push_member(&mut f, "dry_run", member_or_null_exec(o, "dry_run"));
    push_member(&mut f, "error", member_or_null_exec(o, "error"));
    push_member(&mut f, "collection", member_or_null_exec(o, "collection"));
    push_member(&mut f, "url", member_or_null_exec(o, "url"));
    push_member(&mut f, "arxiv_id", member_or_null_exec(o, "arxiv_id"));
    push_member(&mut f, "succeeded", member_or_null_exec(o, "succeeded"));
    push_member(&mut f, "failed", member_or_null_exec(o, "failed"));
    push_member(&mut f, "found", member_or_null_exec(o, "found"));
    push_member(&mut f, "checked", member_or_null_exec(o, "checked"));
    proof {
        assert(entries_view(f@) =~= payload_fields(entries_view(o@)));
    }
    f
}

/// The audit record of a payload stamped `ts`.
#[verifier::rlimit(40)]
pub fn audit_record(ts: &str, payload: &Json) -> (r: Option<Json>)
    ensures
        match audit_record_spec(ts@, payload@) {
            Some(v) => r matches Some(x) && x@ == v,
            None => r is None,
        },
{
    let o = match payload {
        Json::Object(o) => o,
        _ => return None,
    };
    let action = match crate::json::member_get(o, "action") {
        Some(Json::Str(a)) => a.as_str(),
        _ => return None,
    };
    if crate::text::str_is_empty(action) {
        return None;
    }
    let ro = str_eq(action, "app_doctor") || str_eq(action, "item_duplicates") || str_eq(action, "item_merge_preview")
        || str_eq(action, "collection_stats");
    let dry = match crate::json::member_get(o, "status") {
        Some(Json::Str(st)) => str_eq(st.as_str(), "dry_run"),
        _ => false,
    };
    proof {
        reveal_strlit("dry_run");
        assert(dry == (member(entries_view(o@), "status"@) == Some(JsonV::Str("dry_run"@))));
    }
    if ro && !dry {
        return None;
    }
    let f = payload_fields_exec(o);
    proof {
        crate::json::lemma_entries_view(f@);
        assert(f@.len() == 18);
    }
    Some(audit_entry(ts, action, &f))
}

/// The audit record of a payload, stamped now (the program appends it to the log).
pub fn log_payload(payload: &Json) -> (r: Option<Json>)
    ensures
        match r {
            Some(x) => exists|secs: nat| audit_record_spec(iso_timestamp(secs), payload@) == Some(x@),
            None => forall|secs: nat| #[trigger] audit_record_spec(iso_timestamp(secs), payload@) is None,
        },
{
    let ts = now_iso8601();
    let r = audit_record(ts.as_str(), payload);
    proof {
        let secs = choose|secs: nat| ts@ == iso_timestamp(secs);
        match &r {
            Some(x) => {
                assert(audit_record_spec(iso_timestamp(secs), payload@) == Some(x@));
            },
            None => {
                assert forall|s2: nat| #[trigger] audit_record_spec(iso_timestamp(s2), payload@) is None by {
                    assert(audit_record_spec(iso_timestamp(secs), payload@) is None);
                }
            },
        }
    }
    r
}

/// Whether a payload is one the program audits: an object whose non-empty `action` names a
/// write (adding, importing, attaching, finding or fetching PDFs, merging, collection
/// fetches, document edits).
pub open spec fn audited_spec(payload: JsonV) -> bool {
    match payload {
        JsonV::Object(o) => match member(o, "action"@) {
            Some(JsonV::Str(a)) => a.len() > 0 && (starts_with(a, "add_"@) || starts_with(a, "import_"@)
                || starts_with(a, "item_attach"@) || starts_with(a, "item_find_pdf"@) || starts_with(a, "item_fetch_pdf"@)
                || starts_with(a, "item_merge"@) || starts_with(a, "collection_fetch"@) || starts_with(a, "docx_cite"@)
                || starts_with(a, "docx_"@) || a == "item_merge"@ || a == "item_attach"@ || a == "item_fetch_pdf"@
                || a == "item_find_pdf"@ || a == "collection_fetch_pdfs"@ || a == "docx_cite"@),
            _ => false,
        },
        _ => false,
    }
}

fn has_prefix(a: &str, p: &str) -> (b: bool)
    ensures
        b == starts_with(a@, p@),
{
    let av = crate::text::chars_of(a);
    let pv = crate::text::chars_of(p);
    crate::text::starts_with_exec(&av, &pv)
}

/// Whether the program audits a payload.
pub fn is_audited(payload: &Json) -> (b: bool)
    ensures
        b == audited_spec(payload@),
{
    let o = match payload {
        Json::Object(o) => o,
        _ => return false,
    };
    let a = match crate::json::member_get(o, "action") {
        Some(Json::Str(a)) => a.as_str(),
        _ => return false,
    };
    !crate::text::str_is_empty(a) && (has_prefix(a, "add_") || has_prefix(a, "import_") || has_prefix(a, "item_attach")
        || has_prefix(a, "item_find_pdf") || has_prefix(a, "item_fetch_pdf") || has_prefix(a, "item_merge")
        || has_prefix(a, "collection_fetch") || has_prefix(a, "docx_cite") || has_prefix(a, "docx_")
        || str_eq(a, "item_merge") || str_eq(a, "item_attach") || str_eq(a, "item_fetch_pdf") || str_eq(a, "item_find_pdf")
        || str_eq(a, "collection_fetch_pdfs") || str_eq(a, "docx_cite"))
}

/// Where the audit log lives, before `~` is expanded: the setting (`ZOTERO_CLI_AUDIT_DIR`)
/// trimmed, when it is given and not blank; else the default directory.
pub open spec fn audit_dir_spec(setting: Option<Seq<char>>) -> Seq<char> {
    match setting {
        Some(v) => if crate::text::trim(v).len() > 0 {
            crate::text::trim(v)
        } else {
            "~/.local/share/cli-anything-zotero"@
        },
        None => "~/.local/share/cli-anything-zotero"@,
    }
}

/// Where the audit log lives, before `~` is expanded (see `audit_dir_spec`).
pub fn audit_dir_setting(setting: Option<&str>) -> (r: String)
    ensures
        r@ == audit_dir_spec(crate::add_import::opt_str(setting)),
{
    match setting {
        Some(v) => {
            let t = crate::text::trim_str(v);
            if !crate::text::str_is_empty(t.as_str()) {
                t
            } else {
                "~/.local/share/cli-anything-zotero".to_owned()
            }
        },
        None => "~/.local/share/cli-anything-zotero".to_owned(),
    }
}

} // verus!
