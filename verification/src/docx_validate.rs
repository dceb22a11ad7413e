//! Validation of a document's placeholders against the items of the local library: each
//! distinct key is looked up, and the placeholder report gains the items found, the keys
//! missing, and whether everything resolves.

use vstd::prelude::*;

use crate::analysis::field_value;
use crate::db::Item;
use crate::docx_report::str_array;
use crate::json::{entries_view, get_spec, insert_spec, jsons_view, obj_insert, push_member, Json, JsonV};
use crate::pattern::{regex_matches, regex_matches_result};
use crate::text::{int_decimal, nat_decimal, str_is_empty, strings_view};

verus! {

/// The pattern of a year: four digits.
pub open spec fn year_pattern() -> Seq<char> {
    "\\d{4}"@
}

/// The date an item is summarized by: its `date` field when that is a string, else its date
/// column, else nothing.
pub open spec fn summary_date(item: Item) -> Seq<char> {
    match field_value(item.fields@, "date"@) {
        Some(JsonV::Str(s)) => s,
        _ => match item.date {
            Some(d) => d@,
            None => Seq::empty(),
        },
    }
}

/// The first four-digit run in a date.
pub open spec fn year_of(date: Seq<char>) -> Option<Seq<char>> {
    match regex_matches_result(year_pattern(), date) {
        Some(ms) => if ms.len() > 0 {
            Some(ms[0])
        } else {
            None
        },
        None => None,
    }
}

/// A string field by its first name when present, else by its second.
pub open spec fn str_field_either(item: Item, first: Seq<char>, second: Seq<char>) -> Option<Seq<char>> {
    match match field_value(item.fields@, first) {
        Some(v) => Some(v),
        None => field_value(item.fields@, second),
    } {
        Some(JsonV::Str(s)) => Some(s),
        _ => None,
    }
}

/// A string or null.
pub open spec fn opt_str_json(o: Option<Seq<char>>) -> JsonV {
    match o {
        Some(s) => JsonV::Str(s),
        None => JsonV::Null,
    }
}

/// The summary of a found item: ids, key, type, title (the title column, else the `title`
/// field), the year of its date, its DOI (fields, else the DOI column when not empty) and
/// PMID.
pub open spec fn item_summary_spec(item: Item) -> JsonV {
    let title = if item.title@.len() > 0 {
        item.title@
    } else {
        match field_value(item.fields@, "title"@) {
            Some(JsonV::Str(s)) => s,
            _ => Seq::empty(),
        }
    };
    let doi = match str_field_either(item, "DOI"@, "doi"@) {
        Some(d) => Some(d),
        None => if item.doi@.len() > 0 {
            Some(item.doi@)
        } else {
            None
        },
    };
    JsonV::Object(seq![
        ("doi"@, opt_str_json(doi)),
        ("itemID"@, JsonV::Number(int_decimal(item.item_id as int))),
        ("key"@, JsonV::Str(item.key@)),
        ("libraryID"@, JsonV::Number(int_decimal(item.library_id as int))),
        ("pmid"@, opt_str_json(str_field_either(item, "PMID"@, "pmid"@))),
        ("title"@, JsonV::Str(title)),
        ("typeName"@, JsonV::Str(item.type_label@)),
        ("year"@, opt_str_json(year_of(summary_date(item)))),
    ])
}

fn field_of<'a>(fields: &'a Vec<(String, Json)>, first: &str, second: &str) -> (r: Option<String>)
    ensures
        match r {
            Some(s) => match match crate::json::member(entries_view(fields@), first@) {
                Some(v) => Some(v),
                None => crate::json::member(entries_view(fields@), second@),
            } {
                Some(JsonV::Str(x)) => x == s@,
                _ => false,
            },
            None => !(match match crate::json::member(entries_view(fields@), first@) {
                Some(v) => Some(v),
                None => crate::json::member(entries_view(fields@), second@),
            } {
                Some(JsonV::Str(_)) => true,
                _ => false,
            }),
        },
{
    let v = match crate::json::member_get(fields, first) {
        Some(v) => Some(v),
        None => crate::json::member_get(fields, second),
    };
    match v {
        Some(Json::Str(s)) => Some(s.clone()),
        _ => None,
    }
}

fn opt_str_exec(o: Option<String>) -> (r: Json)
    ensures
        r@ == opt_str_json(match o {
            Some(s) => Some(s@),
            None => None,
        }),
{
    match o {
        Some(s) => Json::Str(s),
        None => Json::Null,
    }
}

/// The summary of an item found for a placeholder key.
pub fn item_summary(item: &Item) -> (r: Json)
    ensures
        r@ == item_summary_spec(*item),
{
    let fields = crate::analysis::fields_object(&item.fields);
    let date: String = match crate::json::member_get(&fields, "date") {
        Some(Json::Str(s)) => s.clone(),
        _ => match &item.date {
            Some(d) => d.clone(),
            None => String::new(),
        },
    };
    let year: Option<String> = match regex_matches("\\d{4}", date.as_str()) {
        Some(ms) => if ms.len() > 0 {
            Some(ms[0].clone())
        } else {
            None
        },
        None => None,
    };
    let title: String = if !str_is_empty(item.title.as_str()) {
        item.title.clone()
    } else {
        match crate::json::member_get(&fields, "title") {
            Some(Json::Str(s)) => s.clone(),
            _ => String::new(),
        }
    };
    let doi: Option<String> = match field_of(&fields, "DOI", "doi") {
        Some(d) => Some(d),
        None => if !str_is_empty(item.doi.as_str()) {
            Some(item.doi.clone())
        } else {
            None
        },
    };
    let pmid = field_of(&fields, "PMID", "pmid");
    let mut m: Vec<(String, Json)> = Vec::new();
    push_member(&mut m, "doi", opt_str_exec(doi));
    push_member(&mut m, "itemID", Json::Number(crate::text::i64_to_string(item.item_id)));
    push_member(&mut m, "key", Json::Str(item.key.clone()));
    push_member(&mut m, "libraryID", Json::Number(crate::text::i64_to_string(item.library_id)));
    push_member(&mut m, "pmid", opt_str_exec(pmid));
    push_member(&mut m, "title", Json::Str(title));
    push_member(&mut m, "typeName", Json::Str(item.type_label.clone()));
    push_member(&mut m, "year", opt_str_exec(year));
    proof {
        assert(entries_view(m@) =~= match item_summary_spec(*item) {
            JsonV::Object(es) => es,
            _ => Seq::empty(),
        });
    }
    Json::Object(m)
}

/// The strings among JSON values, in order.
pub open spec fn str_elems(xs: Seq<JsonV>) -> Seq<Seq<char>>
    decreases xs.len(),
{
    if xs.len() == 0 {
        Seq::empty()
    } else {
        str_elems(xs.drop_last()) + match xs.last() {
            JsonV::Str(s) => seq![s],
            _ => Seq::empty(),
        }
    }
}

/// The strings of a report's array member (none when it is not an array).
pub open spec fn report_strings(report: JsonV, key: Seq<char>) -> Seq<Seq<char>> {
    match get_spec(report, key) {
        Some(JsonV::Array(xs)) => str_elems(xs),
        _ => Seq::empty(),
    }
}

/// The keys a placeholder report asks to look up: its distinct keys.
pub open spec fn keys_to_check(report: JsonV) -> Seq<Seq<char>> {
    report_strings(report, "unique_keys"@)
}

/// How many malformed placeholders a report holds.
pub open spec fn invalid_count(report: JsonV) -> nat {
    match get_spec(report, "invalid_placeholders"@) {
        Some(JsonV::Array(xs)) => xs.len(),
        _ => 0,
    }
}

/// The summaries of the first `n` keys that were found.
pub open spec fn found_summaries(outs: Seq<Result<Item, String>>, n: int) -> Seq<JsonV>
    decreases n,
{
    if n <= 0 {
        Seq::empty()
    } else {
        found_summaries(outs, n - 1) + match outs[n - 1] {
            Ok(item) => seq![item_summary_spec(item)],
            Err(_) => Seq::empty(),
        }
    }
}

/// The first `n` keys that were not found.
pub open spec fn missing_keys(keys: Seq<Seq<char>>, outs: Seq<Result<Item, String>>, n: int) -> Seq<Seq<char>>
    decreases n,
{
    if n <= 0 {
        Seq::empty()
    } else {
        missing_keys(keys, outs, n - 1) + match outs[n - 1] {
            Ok(_) => Seq::empty(),
            Err(_) => seq![keys[n - 1]],
        }
    }
}

/// The lookup error of each of the first `n` keys not found, by key.
pub open spec fn lookup_errors(keys: Seq<Seq<char>>, outs: Seq<Result<Item, String>>, n: int) -> Seq<(Seq<char>, JsonV)>
    decreases n,
{
    if n <= 0 {
        Seq::empty()
    } else {
        match outs[n - 1] {
            Ok(_) => lookup_errors(keys, outs, n - 1),
            Err(e) => insert_spec(lookup_errors(keys, outs, n - 1), keys[n - 1], JsonV::Str(e@)),
        }
    }
}

/// The members of a report (none when it is not an object).
pub open spec fn report_members(report: JsonV) -> Seq<(Seq<char>, JsonV)> {
    match report {
        JsonV::Object(es) => es,
        _ => Seq::empty(),
    }
}

/// The validation report: the placeholder report with its notes extended, whether all is
/// well (no malformed placeholder and no missing key), the counts, the summaries of the
/// items found, the keys missing and each lookup error.
pub open spec fn validation_spec(report: JsonV, outs: Seq<Result<Item, String>>) -> JsonV {
    let keys = keys_to_check(report);
    let n = keys.len() as int;
    let items = found_summaries(outs, n);
    let missing = missing_keys(keys, outs, n);
    let ok = invalid_count(report) == 0 && missing.len() == 0;
    let notes = report_strings(report, "notes"@) + (if missing.len() > 0 {
        seq!["Some Zotero placeholder keys do not resolve to local Zotero items."@]
    } else {
        Seq::empty()
    }) + (if ok {
        seq!["All Zotero placeholders resolve to real local Zotero items."@]
    } else {
        Seq::empty()
    });
    let m1 = insert_spec(report_members(report), "notes"@, str_array(notes));
    let m2 = insert_spec(m1, "ok"@, JsonV::Bool(ok));
    let m3 = insert_spec(m2, "valid_count"@, JsonV::Number(nat_decimal(items.len())));
    let m4 = insert_spec(m3, "missing_count"@, JsonV::Number(nat_decimal(missing.len())));
    let m5 = insert_spec(m4, "items"@, JsonV::Array(items));
    let m6 = insert_spec(m5, "missing_keys"@, str_array(missing));
    JsonV::Object(insert_spec(m6, "errors"@, JsonV::Object(lookup_errors(keys, outs, n))))
}

fn report_strings_exec(report: &Json, key: &str) -> (r: Vec<String>)
    ensures
        strings_view(r@) == report_strings(report@, key@),
{
    let mut out: Vec<String> = Vec::new();
    match report.get(key) {
        Some(Json::Array(xs)) => {
            let ghost xv = jsons_view(xs@);
            proof {
                crate::json::lemma_jsons_view(xs@);
                assert(xv.subrange(0, 0) =~= Seq::<JsonV>::empty());
                assert(strings_view(out@) =~= Seq::<Seq<char>>::empty());
            }
            let mut i: usize = 0;
            while i < xs.len()
                invariant
                    i <= xs@.len(),
                    xv == jsons_view(xs@),
                    xv.len() == xs@.len(),
                    forall|k: int| 0 <= k < xs@.len() ==> #[trigger] xv[k] == crate::json::json_view(xs@[k]),
                    strings_view(out@) == str_elems(xv.subrange(0, i as int)),
                decreases xs.len() - i,
            {
                proof {
                    assert(xv.subrange(0, i + 1).drop_last() =~= xv.subrange(0, i as int));
                    assert(xv.subrange(0, i + 1).last() == xv[i as int]);
                }
                let ghost before = out@;
                match &xs[i] {
                    Json::Str(s) => {
                        out.push(s.clone());
                        proof {
                            assert(strings_view(out@) =~= strings_view(before).push(s@));
                        }
                    },
                    _ => {},
                }
                i = i + 1;
            }
            proof {
                assert(xv.subrange(0, xv.len() as int) =~= xv);
            }
        },
        _ => {
            proof {
                assert(strings_view(out@) =~= Seq::<Seq<char>>::empty());
            }
        },
    }
    out
}

/// The keys to look up for a placeholder report, in order.
pub fn validation_keys(report: &Json) -> (r: Vec<String>)
    ensures
        strings_view(r@) == keys_to_check(report@),
{
    report_strings_exec(report, "unique_keys")
}

/// The validation report, from a placeholder report and the outcome of looking up each of
/// its keys (those of `validation_keys`, in that order): the item found, or the error.
#[verifier::rlimit(40)]
pub fn validation_report(report: Json, outcomes: Vec<Result<Item, String>>) -> (r: Json)
    requires
        outcomes@.len() == keys_to_check(report@).len(),
    ensures
        r@ == validation_spec(report@, outcomes@),
{
    let keys = validation_keys(&report);
    let ghost kv = strings_view(keys@);
    let invalid: usize = match report.get("invalid_placeholders") {
        Some(Json::Array(xs)) => {
            proof {
                crate::json::lemma_jsons_view(xs@);
            }
            xs.len()
        },
        _ => 0,
    };
    assert(invalid == invalid_count(report@));
    let mut items: Vec<Json> = Vec::new();
    let mut missing: Vec<String> = Vec::new();
    let mut errors: Vec<(String, Json)> = Vec::new();
    proof {
        assert(jsons_view(items@) =~= Seq::<JsonV>::empty());
        assert(strings_view(missing@) =~= Seq::<Seq<char>>::empty());
        assert(entries_view(errors@) =~= Seq::<(Seq<char>, JsonV)>::empty());
    }
    let mut i: usize = 0;
    while i < outcomes.len()
        invariant
            i <= outcomes@.len(),
            outcomes@.len() == kv.len(),
            kv == strings_view(keys@),
            jsons_view(items@) == found_summaries(outcomes@, i as int),
            strings_view(missing@) == missing_keys(kv, outcomes@, i as int),
            entries_view(errors@) == lookup_errors(kv, outcomes@, i as int),
        decreases outcomes.len() - i,
    {
        match &outcomes[i] {
            Ok(item) => {
                let x = item_summary(item);
                let ghost xg = x;
                let ghost before = items@;
                items.push(x);
                proof {
                    assert(items@ =~= before + seq![xg]);
                    crate::json::lemma_jsons_view_append(before, seq![xg]);
                    crate::json::lemma_jsons_view(seq![xg]);
                    assert(jsons_view(items@) =~= found_summaries(outcomes@, i + 1));
                    assert(missing_keys(kv, outcomes@, i + 1) =~= missing_keys(kv, outcomes@, i as int));
                }
            },
            Err(e) => {
                let ghost before = missing@;
                missing.push(keys[i].clone());
                obj_insert(&mut errors, keys[i].clone(), Json::Str(e.clone()));
                proof {
                    assert(strings_view(missing@) =~= strings_view(before).push(kv[i as int]));
                    assert(found_summaries(outcomes@, i + 1) =~= found_summaries(outcomes@, i as int));
                    assert(strings_view(missing@) =~= missing_keys(kv, outcomes@, i + 1));
                }
            },
        }
        i = i + 1;
    }
    let ok = invalid == 0 && missing.len() == 0;
    let mut notes = report_strings_exec(&report, "notes");
    let ghost n0 = strings_view(notes@);
    if missing.len() > 0 {
        notes.push("Some Zotero placeholder keys do not resolve to local Zotero items.".to_owned());
    }
    let ghost n1 = strings_view(notes@);
    if ok {
        notes.push("All Zotero placeholders resolve to real local Zotero items.".to_owned());
    }
    proof {
        assert(n1 =~= n0 + (if missing@.len() > 0 {
            seq!["Some Zotero placeholder keys do not resolve to local Zotero items."@]
        } else {
            Seq::empty()
        }));
        assert(strings_view(notes@) =~= n1 + (if ok {
            seq!["All Zotero placeholders resolve to real local Zotero items."@]
        } else {
            Seq::empty()
        }));
    }
    let mut m: Vec<(String, Json)> = match report {
        Json::Object(es) => es,
        _ => Vec::new(),
    };
    proof {
        assert(entries_view(m@) == report_members(report@)) by {
            if !(report@ is Object) {
                assert(entries_view(m@) =~= Seq::<(Seq<char>, JsonV)>::empty());
            }
        }
    }
    obj_insert(&mut m, "notes".to_owned(), crate::docx_report::strings_json(&notes));
    obj_insert(&mut m, "ok".to_owned(), Json::Bool(ok));
    obj_insert(&mut m, "valid_count".to_owned(), crate::json::json_count(items.len()));
    obj_insert(&mut m, "missing_count".to_owned(), crate::json::json_count(missing.len()));
    proof {
        crate::json::lemma_jsons_view(items@);
    }
    obj_insert(&mut m, "items".to_owned(), Json::Array(items));
    obj_insert(&mut m, "missing_keys".to_owned(), crate::docx_report::strings_json(&missing));
    obj_insert(&mut m, "errors".to_owned(), Json::Object(errors));
    Json::Object(m)
}

} // verus!
