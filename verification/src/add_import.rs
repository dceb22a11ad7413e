//! Adding items by DOI, arXiv id, URL or file: the payloads every path answers with, the
//! normalisation of its options, and the reading of the bridge's answers.

use vstd::prelude::*;

use crate::bridge::BridgeResponse;
use crate::error::DomainError;
use crate::json::{entries_view, get_spec, insert_spec, jsons_view, member, obj_insert, Json, JsonV};
use crate::credentials::{debug_quoted, debug_quoted_result};
use crate::csl::{py_string, value_to_python_string};
use crate::text::{
    chars_of, concat_str, contains, find_first, first_occ, lowercase, lit, push_char, push_str, starts_with,
    starts_with_exec, str_eq, str_is_empty, string_from_range, strings_view, to_lowercase, trim, trim_str,
};

verus! {

/// The members every add or import payload starts with: `action`, `ok`, `status`, then
/// `code` and `error` when given.
pub open spec fn payload_base(
    action: Seq<char>,
    ok: bool,
    status: Seq<char>,
    code: Option<Seq<char>>,
    error: Option<Seq<char>>,
) -> Seq<(Seq<char>, JsonV)> {
    let m0 = insert_spec(
        insert_spec(insert_spec(Seq::empty(), "action"@, JsonV::Str(action)), "ok"@, JsonV::Bool(ok)),
        "status"@,
        JsonV::Str(status),
    );
    let m1 = match code {
        Some(c) => insert_spec(m0, "code"@, JsonV::Str(c)),
        None => m0,
    };
    match error {
        Some(e) => insert_spec(m1, "error"@, JsonV::Str(e)),
        None => m1,
    }
}

/// `m` with the `extra` members inserted in order (a later one replaces an earlier one).
pub open spec fn with_extras(m: Seq<(Seq<char>, JsonV)>, extra: Seq<(Seq<char>, JsonV)>) -> Seq<(Seq<char>, JsonV)>
    decreases extra.len(),
{
    if extra.len() == 0 {
        m
    } else {
        insert_spec(with_extras(m, extra.drop_last()), extra.last().0, extra.last().1)
    }
}

/// An add or import payload.
#[verifier::opaque]
pub open spec fn payload_spec(
    action: Seq<char>,
    ok: bool,
    status: Seq<char>,
    code: Option<Seq<char>>,
    error: Option<Seq<char>>,
    extra: Seq<(Seq<char>, JsonV)>,
) -> JsonV {
    JsonV::Object(with_extras(payload_base(action, ok, status, code, error), extra))
}

/// View of an optional string.
pub open spec fn opt_str(o: Option<&str>) -> Option<Seq<char>> {
    match o {
        Some(s) => Some(s@),
        None => None,
    }
}

/// The payload of an add or import: `action`, `ok`, `status`, `code` and `error` when given,
/// then the `extra` members in order.
pub fn result_payload(
    action: &str,
    ok: bool,
    status: &str,
    code: Option<&str>,
    error: Option<&str>,
    extra: Vec<(String, Json)>,
) -> (r: Json)
    ensures
        r@ == payload_spec(action@, ok, status@, opt_str(code), opt_str(error), entries_view(extra@)),
{
    let mut m: Vec<(String, Json)> = Vec::new();
    proof {
        assert(entries_view(m@) =~= Seq::<(Seq<char>, JsonV)>::empty());
    }
    obj_insert(&mut m, "action".to_owned(), Json::Str(action.to_owned()));
    obj_insert(&mut m, "ok".to_owned(), Json::Bool(ok));
    obj_insert(&mut m, "status".to_owned(), Json::Str(status.to_owned()));
    if let Some(c) = code {
        obj_insert(&mut m, "code".to_owned(), Json::Str(c.to_owned()));
    }
    if let Some(e) = error {
        obj_insert(&mut m, "error".to_owned(), Json::Str(e.to_owned()));
    }
    let ghost base = entries_view(m@);
    let ghost xv = entries_view(extra@);
    proof {
        crate::json::lemma_entries_view(extra@);
        assert(xv.subrange(0, 0) =~= Seq::<(Seq<char>, JsonV)>::empty());
    }
    let mut rest = extra;
    let mut i: usize = 0;
    let n = rest.len();
    let ghost orig = rest@;
    proof {
        assert(rest@ =~= orig.subrange(0, n as int));
    }
    while i < n
        invariant
            n == orig.len(),
            i <= n,
            xv == entries_view(orig),
            xv.len() == orig.len(),
            forall|k: int| 0 <= k < orig.len() ==> #[trigger] xv[k] == (orig[k].0@, orig[k].1@),
            rest@ == orig.subrange(i as int, n as int),
            entries_view(m@) == with_extras(base, xv.subrange(0, i as int)),
        decreases n - i,
    {
        proof {
            assert(xv.subrange(0, i + 1).drop_last() =~= xv.subrange(0, i as int));
            assert(rest@[0] == orig[i as int]);
        }
        let (k, v) = rest.remove(0);
        proof {
            assert(rest@ =~= orig.subrange(i + 1, n as int));
        }
        obj_insert(&mut m, k, v);
        i = i + 1;
    }
    proof {
        assert(xv.subrange(0, n as int) =~= xv);
        reveal(payload_spec);
    }
    Json::Object(m)
}


/// The if-exists policy as written: blank means `file`; trimmed and lower-cased.
pub open spec fn if_exists_text(value: Seq<char>) -> Seq<char> {
    lowercase(trim(if trim(value).len() == 0 {
        "file"@
    } else {
        value
    }))
}

/// The if-exists policy (`file`, `skip` or `duplicate`), or why it is refused.
pub open spec fn if_exists_spec(value: Seq<char>) -> Result<Seq<char>, Seq<char>> {
    let t = if_exists_text(value);
    if t == "file"@ || t == "skip"@ || t == "duplicate"@ {
        Ok(t)
    } else {
        Err("Unsupported if-exists policy: "@ + debug_quoted_result(value) + " (use file|skip|duplicate)"@)
    }
}

/// Normalises an if-exists policy.
pub fn normalize_if_exists(value: &str) -> (r: Result<String, String>)
    ensures
        match if_exists_spec(value@) {
            Ok(t) => r matches Ok(x) && x@ == t,
            Err(m) => r matches Err(x) && x@ == m,
        },
{
    let trimmed = trim_str(value);
    let chosen = if str_is_empty(trimmed.as_str()) {
        trim_str("file")
    } else {
        trimmed
    };
    proof {
        if trim(value@).len() != 0 {
            assert(chosen@ == trim(value@));
        }
    }
    let text = to_lowercase(chosen.as_str());
    if str_eq(text.as_str(), "file") || str_eq(text.as_str(), "skip") || str_eq(text.as_str(), "duplicate") {
        Ok(text)
    } else {
        let q = debug_quoted(value);
        let head = concat_str("Unsupported if-exists policy: ", q.as_str());
        Err(concat_str(head.as_str(), " (use file|skip|duplicate)"))
    }
}

/// The tags trimmed, without the blank ones.
pub open spec fn clean_tags(tags: Seq<Seq<char>>) -> Seq<Seq<char>>
    decreases tags.len(),
{
    if tags.len() == 0 {
        Seq::empty()
    } else {
        let acc = clean_tags(tags.drop_last());
        let t = trim(tags.last());
        if t.len() > 0 {
            acc.push(t)
        } else {
            acc
        }
    }
}

/// Trims the tags and drops the blank ones.
pub fn normalize_tags(tags: &Vec<String>) -> (r: Vec<String>)
    ensures
        strings_view(r@) == clean_tags(strings_view(tags@)),
{
    let ghost tv = strings_view(tags@);
    let mut out: Vec<String> = Vec::new();
    let mut i: usize = 0;
    proof {
        assert(strings_view(out@) =~= clean_tags(tv.subrange(0, 0)));
    }
    while i < tags.len()
        invariant
            i <= tags@.len(),
            tv == strings_view(tags@),
            strings_view(out@) == clean_tags(tv.subrange(0, i as int)),
        decreases tags.len() - i,
    {
        proof {
            assert(tv.subrange(0, i + 1).drop_last() =~= tv.subrange(0, i as int));
            assert(tv.subrange(0, i + 1).last() == tags@[i as int]@);
        }
        let t = trim_str(tags[i].as_str());
        if !str_is_empty(t.as_str()) {
            let ghost before = out@;
            out.push(t);
            proof {
                assert(strings_view(out@) =~= strings_view(before).push(t@));
            }
        }
        i = i + 1;
    }
    proof {
        assert(tv.subrange(0, tv.len() as int) =~= tv);
    }
    out
}

/// The key in a legacy bridge answer: the trimmed text between `(key:` and the next `)`, when
/// not blank.
pub open spec fn legacy_key_spec(text: Seq<char>) -> Option<Seq<char>> {
    match first_occ(text, "(key:"@) {
        None => None,
        Some(i) => {
            let tail = text.subrange(i + 5, text.len() as int);
            match first_occ(tail, seq![')']) {
                None => None,
                Some(j) => {
                    let k = trim(tail.subrange(0, j));
                    if k.len() > 0 {
                        Some(k)
                    } else {
                        None
                    }
                },
            }
        },
    }
}

/// Reads the key out of a legacy bridge answer such as `OK: imported (key: ABCD1234)`.
#[verifier::rlimit(30)]
pub fn legacy_key(text: &str) -> (r: Option<String>)
    ensures
        match legacy_key_spec(text@) {
            Some(k) => r matches Some(x) && x@ == k,
            None => r is None,
        },
{
    let v = chars_of(text);
    let marker = lit("(key:");
    proof {
        reveal_strlit("(key:");
    }
    let vlen = v.len();
    let found = find_first(&v, &marker);
    let start = match found {
        Some(i) => {
            assert(marker@ == "(key:"@);
            assert(marker@.len() == 5);
            assert(crate::text::occurs_at(v@, marker@, i as int));
            assert(i + 5 <= vlen);
            i + 5
        },
        None => return None,
    };
    let tail = string_from_range(&v, start, v.len());
    assert(tail@ == text@.subrange(start as int, text@.len() as int));
    let tv = chars_of(tail.as_str());
    let mut close: Vec<char> = Vec::new();
    close.push(')');
    proof {
        assert(close@ =~= seq![')']);
    }
    let end = match find_first(&tv, &close) {
        Some(j) => j,
        None => return None,
    };
    let inner = string_from_range(&tv, 0, end);
    let key = trim_str(inner.as_str());
    if str_is_empty(key.as_str()) {
        None
    } else {
        Some(key)
    }
}

/// The Python type name of a JSON value, as the bridge's callers report it.
pub open spec fn json_type_label(v: JsonV) -> Seq<char> {
    match v {
        JsonV::Null => "NoneType"@,
        JsonV::Bool(_) => "bool"@,
        JsonV::Number(_) => "int"@,
        JsonV::Str(_) => "str"@,
        JsonV::Array(_) => "list"@,
        JsonV::Object(_) => "dict"@,
    }
}

/// The Python type name of a JSON value.
pub fn json_type_name(v: &Json) -> (r: &'static str)
    ensures
        r@ == json_type_label(v@),
{
    match v {
        Json::Null => "NoneType",
        Json::Bool(_) => "bool",
        Json::Number(_) => "int",
        Json::Str(_) => "str",
        Json::Array(_) => "list",
        Json::Object(_) => "dict",
    }
}

/// A member of a payload, or null.
pub open spec fn member_or_null(v: JsonV, key: Seq<char>) -> JsonV {
    match get_spec(v, key) {
        Some(x) => x,
        None => JsonV::Null,
    }
}

/// A member of a payload (a copy), or null.
pub fn get_or_null(v: &Json, key: &str) -> (r: Json)
    ensures
        r@ == member_or_null(v@, key@),
{
    match v.get(key) {
        Some(x) => x.deep_clone(),
        None => Json::Null,
    }
}

/// The record of one import attempt: its step and the answer's `ok`, `code`, `error`, `key`.
pub open spec fn attempt_spec(step: Seq<char>, app: JsonV) -> JsonV {
    JsonV::Object(seq![
        ("code"@, member_or_null(app, "code"@)),
        ("error"@, member_or_null(app, "error"@)),
        ("key"@, member_or_null(app, "key"@)),
        ("ok"@, member_or_null(app, "ok"@)),
        ("step"@, JsonV::Str(step)),
    ])
}

/// Records one import attempt.
pub fn attempt(step: &str, app: &Json) -> (r: Json)
    ensures
        r@ == attempt_spec(step@, app@),
{
    let mut m: Vec<(String, Json)> = Vec::new();
    m.push(("code".to_owned(), get_or_null(app, "code")));
    m.push(("error".to_owned(), get_or_null(app, "error")));
    m.push(("key".to_owned(), get_or_null(app, "key")));
    m.push(("ok".to_owned(), get_or_null(app, "ok")));
    m.push(("step".to_owned(), Json::Str(step.to_owned())));
    proof {
        reveal_with_fuel(entries_view, 6);
        assert(entries_view(m@) =~= attempt_spec(step@, app@)->Object_0);
    }
    Json::Object(m)
}

/// A BibTeX body, trimmed, or the error when it is blank or has no `@`.
pub open spec fn bibtex_spec(body: Seq<char>, error: Seq<char>) -> Result<Seq<char>, Seq<char>> {
    let t = trim(body);
    if t.len() == 0 || !contains(t, seq!['@']) {
        Err(error)
    } else {
        Ok(t)
    }
}

/// Checks that a fetched body is BibTeX.
pub fn require_bibtex(body: String, error: &str) -> (r: Result<String, DomainError>)
    ensures
        match bibtex_spec(body@, error@) {
            Ok(t) => r matches Ok(x) && x@ == t,
            Err(m) => r matches Err(e) && e.0@ == m,
        },
{
    let t = trim_str(body.as_str());
    let tv = chars_of(t.as_str());
    let mut at: Vec<char> = Vec::new();
    at.push('@');
    proof {
        assert(at@ =~= seq!['@']);
    }
    if tv.len() == 0 || !crate::text::contains_exec(&tv, &at) {
        return Err(DomainError::new(error));
    }
    Ok(t)
}


/// An optional string as JSON: the string, or null.
pub open spec fn str_or_null(o: Option<Seq<char>>) -> JsonV {
    match o {
        Some(s) => JsonV::Str(s),
        None => JsonV::Null,
    }
}

/// View of an optional owned string.
pub open spec fn opt_string(o: Option<String>) -> Option<Seq<char>> {
    match o {
        Some(s) => Some(s@),
        None => None,
    }
}

/// What the bridge's answer to an import says, as an import payload (`import_bridge`):
/// a transport failure is `BRIDGE_ERROR`; no data is `EMPTY_RESULT`; an object with `ok` is
/// the payload itself, another object a success wrapping it as `result`; a legacy text answer
/// is `IMPORTED` (`OK:`, `FOUND:`), `LEGACY_ERROR` (`ERROR:`, `NOT_FOUND`, `TIMEOUT`) or
/// `UNEXPECTED_RESULT`, as is data of any other type.
pub open spec fn import_answer_spec(
    ok: bool,
    data: Option<JsonV>,
    error: Option<Seq<char>>,
    error_name: Option<Seq<char>>,
    error_stack: Option<Seq<char>>,
) -> JsonV {
    if !ok {
        payload_spec("import_bridge"@, false, "error"@, Some("BRIDGE_ERROR"@), Some(match error {
            Some(e) => e,
            None => "JS bridge transport failed"@,
        }), seq![("error_name"@, str_or_null(error_name)), ("error_stack"@, str_or_null(error_stack))])
    } else {
        match data {
            None => payload_spec("import_bridge"@, false, "error"@, Some("EMPTY_RESULT"@),
                Some("JS bridge returned empty success (data is null) - import did not complete"@), Seq::empty()),
            Some(JsonV::Null) => payload_spec("import_bridge"@, false, "error"@, Some("EMPTY_RESULT"@),
                Some("JS bridge returned empty success (data is null) - import did not complete"@), Seq::empty()),
            Some(JsonV::Object(m)) => if member(m, "ok"@) is Some {
                JsonV::Object(m)
            } else {
                payload_spec("import_bridge"@, true, "success"@, None, None, seq![("result"@, JsonV::Object(m))])
            },
            Some(JsonV::Str(text)) => legacy_answer_spec(text),
            Some(other) => payload_spec("import_bridge"@, false, "error"@, Some("UNEXPECTED_RESULT"@),
                Some("Unexpected bridge data type: "@ + json_type_label(other)), Seq::empty()),
        }
    }
}

fn opt_str_json(o: &Option<String>) -> (r: Json)
    ensures
        r@ == str_or_null(opt_string(*o)),
{
    match o {
        Some(s) => Json::Str(s.clone()),
        None => Json::Null,
    }
}

fn two(k1: &str, v1: Json, k2: &str, v2: Json) -> (r: Vec<(String, Json)>)
    ensures
        entries_view(r@) == seq![(k1@, v1@), (k2@, v2@)],
{
    let mut m: Vec<(String, Json)> = Vec::new();
    m.push((k1.to_owned(), v1));
    m.push((k2.to_owned(), v2));
    proof {
        reveal_with_fuel(entries_view, 3);
        assert(entries_view(m@) =~= seq![(k1@, v1@), (k2@, v2@)]);
    }
    m
}

fn one(k1: &str, v1: Json) -> (r: Vec<(String, Json)>)
    ensures
        entries_view(r@) == seq![(k1@, v1@)],
{
    let mut m: Vec<(String, Json)> = Vec::new();
    m.push((k1.to_owned(), v1));
    proof {
        reveal_with_fuel(entries_view, 2);
        assert(entries_view(m@) =~= seq![(k1@, v1@)]);
    }
    m
}

fn none() -> (r: Vec<(String, Json)>)
    ensures
        entries_view(r@) == Seq::<(Seq<char>, JsonV)>::empty(),
{
    let m: Vec<(String, Json)> = Vec::new();
    proof {
        assert(entries_view(m@) =~= Seq::<(Seq<char>, JsonV)>::empty());
    }
    m
}

fn starts_with_str(t: &str, p: &str) -> (b: bool)
    ensures
        b == starts_with(t@, p@),
{
    let tv = chars_of(t);
    let pv = chars_of(p);
    starts_with_exec(&tv, &pv)
}

/// The import payload of a legacy text answer.
pub open spec fn legacy_answer_spec(text: Seq<char>) -> JsonV {
    let t = trim(text);
    if starts_with(t, "OK:"@) || starts_with(t, "FOUND:"@) {
        payload_spec("import_bridge"@, true, "success"@, Some("IMPORTED"@), None,
            seq![("message"@, JsonV::Str(t)), ("key"@, str_or_null(legacy_key_spec(t)))])
    } else if starts_with(t, "ERROR:"@) || starts_with(t, "NOT_FOUND"@) || starts_with(t, "TIMEOUT"@) {
        payload_spec("import_bridge"@, false, "error"@, Some("LEGACY_ERROR"@), Some(t), Seq::empty())
    } else {
        payload_spec("import_bridge"@, false, "error"@, Some("UNEXPECTED_RESULT"@), Some(t), Seq::empty())
    }
}

#[verifier::rlimit(50)]
fn legacy_answer(text: &str) -> (r: Json)
    ensures
        r@ == legacy_answer_spec(text@),
{
    let t = trim_str(text);
    if starts_with_str(t.as_str(), "OK:") || starts_with_str(t.as_str(), "FOUND:") {
        let key = match legacy_key(t.as_str()) {
            Some(k) => Json::Str(k),
            None => Json::Null,
        };
        result_payload("import_bridge", true, "success", Some("IMPORTED"), None,
            two("message", Json::Str(t.clone()), "key", key))
    } else if starts_with_str(t.as_str(), "ERROR:") || starts_with_str(t.as_str(), "NOT_FOUND")
        || starts_with_str(t.as_str(), "TIMEOUT") {
        result_payload("import_bridge", false, "error", Some("LEGACY_ERROR"), Some(t.as_str()), none())
    } else {
        result_payload("import_bridge", false, "error", Some("UNEXPECTED_RESULT"), Some(t.as_str()), none())
    }
}

/// Reads the bridge's answer to an import as an import payload.
pub fn application_import_payload(transport: &BridgeResponse) -> (r: Json)
    ensures
        r@ == import_answer_spec(transport.ok, crate::bridge::opt_json(transport.data), opt_string(transport.error),
            opt_string(transport.error_name), opt_string(transport.error_stack)),
{
    if !transport.ok {
        let msg = match &transport.error {
            Some(e) => e.clone(),
            None => "JS bridge transport failed".to_owned(),
        };
        let extra = two("error_name", opt_str_json(&transport.error_name), "error_stack", opt_str_json(&transport.error_stack));
        return result_payload("import_bridge", false, "error", Some("BRIDGE_ERROR"), Some(msg.as_str()), extra);
    }
    match &transport.data {
        None => result_payload("import_bridge", false, "error", Some("EMPTY_RESULT"),
            Some("JS bridge returned empty success (data is null) - import did not complete"), none()),
        Some(Json::Null) => result_payload("import_bridge", false, "error", Some("EMPTY_RESULT"),
            Some("JS bridge returned empty success (data is null) - import did not complete"), none()),
        Some(Json::Object(m)) => {
            let copy = Json::Object(crate::json::clone_members(m));
            if crate::json::member_get(m, "ok").is_some() {
                copy
            } else {
                result_payload("import_bridge", true, "success", None, None, one("result", copy))
            }
        },
        Some(Json::Str(text)) => legacy_answer(text.as_str()),
        Some(other) => {
            let msg = concat_str("Unexpected bridge data type: ", json_type_name(other));
            result_payload("import_bridge", false, "error", Some("UNEXPECTED_RESULT"), Some(msg.as_str()), none())
        },
    }
}


/// The Zotero bridge as the add commands use it; implemented over the JS bridge by the
/// program, and by doubles in tests.
pub trait AddImportBridge {
    /// Items of the library with this DOI.
    fn find_items_by_doi(&mut self, library_id: u32, doi: &str, limit: i64) -> BridgeResponse;

    /// Imports a DOI with Zotero's translators.
    fn import_from_doi(&mut self, library_id: u32, doi: &str, collection_key: Option<&str>, tags: Option<&Vec<String>>) -> BridgeResponse;

    /// Imports a PubMed id with Zotero's translators.
    fn import_from_pmid(&mut self, library_id: u32, pmid: &str, collection_key: Option<&str>, tags: Option<&Vec<String>>) -> BridgeResponse;

    /// Files an item in a collection.
    fn add_to_collection(&mut self, library_id: u32, item_key: &str, collection_key: &str) -> Result<(), DomainError>;

    /// Adds tags to an item.
    fn manage_tags(&mut self, library_id: u32, item_key: &str, add_tags: &Vec<String>) -> Result<(), DomainError>;

    /// Attaches a PDF file to an item.
    fn attach_pdf(&mut self, library_id: u32, item_key: &str, path: &str) -> BridgeResponse;

    /// Imports a PDF file as a standalone attachment.
    fn standalone_pdf_import(&mut self, library_id: u32, file_path: &str, title: &str, collection_key: Option<&str>, tags: &Vec<String>) -> BridgeResponse;
}

/// The web services the add commands read; implemented over HTTP by the program.
pub trait AddImportFetcher {
    /// Crossref's BibTeX for a DOI.
    fn fetch_crossref_bibtex(&mut self, doi: &str, timeout_secs: u64) -> Result<String, DomainError>;

    /// arXiv's BibTeX for an arXiv id.
    fn fetch_arxiv_bibtex(&mut self, arxiv_id: &str, timeout_secs: u64) -> Result<String, DomainError>;

    /// A web page's title and DOI, if it shows them, and its final URL.
    fn fetch_html_title_and_doi(&mut self, url: &str, timeout_secs: u64) -> Result<(Option<String>, Option<String>, String), DomainError>;
}

/// The tags argument of a translator request, as plain values.
pub open spec fn opt_tags(t: Option<&Vec<String>>) -> Option<Seq<Seq<char>>> {
    match t {
        Some(v) => Some(strings_view(v@)),
        None => None,
    }
}

/// One request made of the bridge, with its answer.
pub enum BridgeCall {
    FindItemsByDoi { library_id: u32, doi: Seq<char>, limit: i64, answer: BridgeResponse },
    ImportFromDoi {
        library_id: u32,
        doi: Seq<char>,
        collection: Option<Seq<char>>,
        tags: Option<Seq<Seq<char>>>,
        answer: BridgeResponse,
    },
    ImportFromPmid {
        library_id: u32,
        pmid: Seq<char>,
        collection: Option<Seq<char>>,
        tags: Option<Seq<Seq<char>>>,
        answer: BridgeResponse,
    },
    AddToCollection { library_id: u32, item_key: Seq<char>, collection: Seq<char>, answer: Result<(), Seq<char>> },
    ManageTags { library_id: u32, item_key: Seq<char>, tags: Seq<Seq<char>>, answer: Result<(), Seq<char>> },
    AttachPdf { library_id: u32, item_key: Seq<char>, path: Seq<char>, answer: BridgeResponse },
    StandalonePdfImport {
        library_id: u32,
        path: Seq<char>,
        title: Seq<char>,
        collection: Option<Seq<char>>,
        tags: Seq<Seq<char>>,
        answer: BridgeResponse,
    },
}

/// A bridge client with the record of the requests made through it (each with its answer).
pub struct LoggedBridge<B> {
    pub inner: B,
    pub log: Ghost<Seq<BridgeCall>>,
}

impl<B: AddImportBridge> LoggedBridge<B> {
    /// A client with nothing recorded yet.
    pub fn new(inner: B) -> (r: LoggedBridge<B>)
        ensures
            r.log@ == Seq::<BridgeCall>::empty(),
    {
        LoggedBridge { inner, log: Ghost(Seq::empty()) }
    }

    /// Looks up items by DOI, recording the request.
    pub fn find_items_by_doi(&mut self, library_id: u32, doi: &str, limit: i64) -> (r: BridgeResponse)
        ensures
            final(self).log@ == old(self).log@.push(BridgeCall::FindItemsByDoi { library_id, doi: doi@, limit, answer: r }),
    {
        let r = self.inner.find_items_by_doi(library_id, doi, limit);
        proof {
            self.log@ = self.log@.push(BridgeCall::FindItemsByDoi { library_id, doi: doi@, limit, answer: r });
        }
        r
    }

    /// Imports a DOI with the translators, recording the request.
    pub fn import_from_doi(&mut self, library_id: u32, doi: &str, collection_key: Option<&str>, tags: Option<&Vec<String>>) -> (r:
        BridgeResponse)
        ensures
            final(self).log@ == old(self).log@.push(BridgeCall::ImportFromDoi {
                library_id,
                doi: doi@,
                collection: opt_str(collection_key),
                tags: opt_tags(tags),
                answer: r,
            }),
    {
        let r = self.inner.import_from_doi(library_id, doi, collection_key, tags);
        proof {
            self.log@ = self.log@.push(BridgeCall::ImportFromDoi {
                library_id,
                doi: doi@,
                collection: opt_str(collection_key),
                tags: opt_tags(tags),
                answer: r,
            });
        }
        r
    }

    /// Imports a PubMed id with the translators, recording the request.
    pub fn import_from_pmid(&mut self, library_id: u32, pmid: &str, collection_key: Option<&str>, tags: Option<&Vec<String>>) -> (r:
        BridgeResponse)
        ensures
            final(self).log@ == old(self).log@.push(BridgeCall::ImportFromPmid {
                library_id,
                pmid: pmid@,
                collection: opt_str(collection_key),
                tags: opt_tags(tags),
                answer: r,
            }),
    {
        let r = self.inner.import_from_pmid(library_id, pmid, collection_key, tags);
        proof {
            self.log@ = self.log@.push(BridgeCall::ImportFromPmid {
                library_id,
                pmid: pmid@,
                collection: opt_str(collection_key),
                tags: opt_tags(tags),
                answer: r,
            });
        }
        r
    }

    /// Files an item in a collection, recording the request.
    pub fn add_to_collection(&mut self, library_id: u32, item_key: &str, collection_key: &str) -> (r: Result<(), DomainError>)
        ensures
            final(self).log@ == old(self).log@.push(BridgeCall::AddToCollection {
                library_id,
                item_key: item_key@,
                collection: collection_key@,
                answer: crate::import_target::done_answer(r),
            }),
    {
        let r = self.inner.add_to_collection(library_id, item_key, collection_key);
        proof {
            self.log@ = self.log@.push(BridgeCall::AddToCollection {
                library_id,
                item_key: item_key@,
                collection: collection_key@,
                answer: crate::import_target::done_answer(r),
            });
        }
        r
    }

    /// Adds tags to an item, recording the request.
    pub fn manage_tags(&mut self, library_id: u32, item_key: &str, add_tags: &Vec<String>) -> (r: Result<(), DomainError>)
        ensures
            final(self).log@ == old(self).log@.push(BridgeCall::ManageTags {
                library_id,
                item_key: item_key@,
                tags: strings_view(add_tags@),
                answer: crate::import_target::done_answer(r),
            }),
    {
        let r = self.inner.manage_tags(library_id, item_key, add_tags);
        proof {
            self.log@ = self.log@.push(BridgeCall::ManageTags {
                library_id,
                item_key: item_key@,
                tags: strings_view(add_tags@),
                answer: crate::import_target::done_answer(r),
            });
        }
        r
    }

    /// Attaches a PDF to an item, recording the request.
    pub fn attach_pdf(&mut self, library_id: u32, item_key: &str, path: &str) -> (r: BridgeResponse)
        ensures
            final(self).log@ == old(self).log@.push(BridgeCall::AttachPdf { library_id, item_key: item_key@, path: path@, answer: r }),
    {
        let r = self.inner.attach_pdf(library_id, item_key, path);
        proof {
            self.log@ = self.log@.push(BridgeCall::AttachPdf { library_id, item_key: item_key@, path: path@, answer: r });
        }
        r
    }

    /// Imports a PDF as a standalone attachment, recording the request.
    pub fn standalone_pdf_import(&mut self, library_id: u32, file_path: &str, title: &str, collection_key: Option<&str>, tags: &Vec<
        String,
    >) -> (r: BridgeResponse)
        ensures
            final(self).log@ == old(self).log@.push(BridgeCall::StandalonePdfImport {
                library_id,
                path: file_path@,
                title: title@,
                collection: opt_str(collection_key),
                tags: strings_view(tags@),
                answer: r,
            }),
    {
        let r = self.inner.standalone_pdf_import(library_id, file_path, title, collection_key, tags);
        proof {
            self.log@ = self.log@.push(BridgeCall::StandalonePdfImport {
                library_id,
                path: file_path@,
                title: title@,
                collection: opt_str(collection_key),
                tags: strings_view(tags@),
                answer: r,
            });
        }
        r
    }
}

/// A fetched page: its title and DOI, if it shows them, and its final URL.
pub type PageAnswer = Result<(Option<Seq<char>>, Option<Seq<char>>, Seq<char>), Seq<char>>;

/// What fetching a web page answered, as plain values.
pub open spec fn page_answer_view(fetched: Result<(Option<String>, Option<String>, String), DomainError>) -> PageAnswer {
    match fetched {
        Ok((t, d, f)) => Ok((opt_string(t), opt_string(d), f@)),
        Err(e) => Err(e.0@),
    }
}

/// Fetched text, as plain values.
pub open spec fn text_answer(r: Result<String, DomainError>) -> Result<Seq<char>, Seq<char>> {
    match r {
        Ok(t) => Ok(t@),
        Err(e) => Err(e.0@),
    }
}

/// One request made of the web services, with its answer.
pub enum FetchCall {
    CrossrefBibtex { doi: Seq<char>, timeout: u64, answer: Result<Seq<char>, Seq<char>> },
    ArxivBibtex { arxiv_id: Seq<char>, timeout: u64, answer: Result<Seq<char>, Seq<char>> },
    Page { url: Seq<char>, timeout: u64, answer: PageAnswer },
}

/// A web-service client with the record of the requests made through it.
pub struct LoggedFetcher<F> {
    pub inner: F,
    pub log: Ghost<Seq<FetchCall>>,
}

impl<F: AddImportFetcher> LoggedFetcher<F> {
    /// A client with nothing recorded yet.
    pub fn new(inner: F) -> (r: LoggedFetcher<F>)
        ensures
            r.log@ == Seq::<FetchCall>::empty(),
    {
        LoggedFetcher { inner, log: Ghost(Seq::empty()) }
    }

    /// Fetches Crossref's BibTeX for a DOI, recording the request.
    pub fn fetch_crossref_bibtex(&mut self, doi: &str, timeout_secs: u64) -> (r: Result<String, DomainError>)
        ensures
            final(self).log@ == old(self).log@.push(FetchCall::CrossrefBibtex { doi: doi@, timeout: timeout_secs, answer: text_answer(r) }),
    {
        let r = self.inner.fetch_crossref_bibtex(doi, timeout_secs);
        proof {
            self.log@ = self.log@.push(FetchCall::CrossrefBibtex { doi: doi@, timeout: timeout_secs, answer: text_answer(r) });
        }
        r
    }

    /// Fetches arXiv's BibTeX for an id, recording the request.
    pub fn fetch_arxiv_bibtex(&mut self, arxiv_id: &str, timeout_secs: u64) -> (r: Result<String, DomainError>)
        ensures
            final(self).log@ == old(self).log@.push(FetchCall::ArxivBibtex { arxiv_id: arxiv_id@, timeout: timeout_secs, answer: text_answer(r) }),
    {
        let r = self.inner.fetch_arxiv_bibtex(arxiv_id, timeout_secs);
        proof {
            self.log@ = self.log@.push(FetchCall::ArxivBibtex { arxiv_id: arxiv_id@, timeout: timeout_secs, answer: text_answer(r) });
        }
        r
    }

    /// Fetches a web page's title and DOI, recording the request.
    pub fn fetch_html_title_and_doi(&mut self, url: &str, timeout_secs: u64) -> (r: Result<(Option<String>, Option<String>, String), DomainError>)
        ensures
            final(self).log@ == old(self).log@.push(FetchCall::Page { url: url@, timeout: timeout_secs, answer: page_answer_view(r) }),
    {
        let r = self.inner.fetch_html_title_and_doi(url, timeout_secs);
        proof {
            self.log@ = self.log@.push(FetchCall::Page { url: url@, timeout: timeout_secs, answer: page_answer_view(r) });
        }
        r
    }
}

/// How an add command files what it adds.
pub struct AddImportOptions {
    pub collection_key: Option<String>,
    pub tags: Vec<String>,
    /// The session's current collection.
    pub session_collection: Option<String>,
    pub if_exists: String,
    pub dedupe: bool,
    pub prefer_translator: bool,
    pub fetch_pdf: bool,
    pub pdf_sources: Option<String>,
    pub library_id: i64,
    pub connector_timeout_secs: u64,
}

impl Default for AddImportOptions {
    fn default() -> (r: Self)
        ensures
            r.collection_key is None,
            r.tags@.len() == 0,
            r.session_collection is None,
            r.if_exists@ == "file"@,
            r.dedupe,
            r.prefer_translator,
            !r.fetch_pdf,
            r.pdf_sources is None,
            r.library_id == 1,
            r.connector_timeout_secs == 120,
    {
        AddImportOptions {
            collection_key: None,
            tags: Vec::new(),
            session_collection: None,
            if_exists: "file".to_owned(),
            dedupe: true,
            prefer_translator: true,
            fetch_pdf: false,
            pdf_sources: None,
            library_id: 1,
            connector_timeout_secs: 120,
        }
    }
}

/// The DOI pattern.
pub open spec fn doi_pattern() -> Seq<char> {
    "(?i)10\\.\\d{4,9}/[^\\s\"'<>]+"@
}

/// Whether a normalised DOI looks like a DOI.
pub open spec fn doi_ok(normalized: Seq<char>) -> bool {
    normalized.len() > 0 && crate::pattern::regex_is_match_result(doi_pattern(), normalized) == Some(true)
}

/// The checks before a DOI import: the if-exists policy, then the DOI; the normalised DOI and
/// policy, or the payload refusing them.
pub open spec fn doi_preflight(doi: Seq<char>, if_exists: Seq<char>) -> Result<(Seq<char>, Seq<char>), JsonV> {
    match if_exists_spec(if_exists) {
        Err(m) => Err(payload_spec("import_doi"@, false, "error"@, Some("INVALID_IF_EXISTS"@), Some(m), seq![("DOI"@, JsonV::Str(doi))])),
        Ok(policy) => {
            let normalized = crate::import_normalization::normalize_doi_spec(Some(doi));
            if doi_ok(normalized) {
                Ok((normalized, policy))
            } else {
                Err(payload_spec("import_doi"@, false, "error"@, Some("INVALID_DOI"@),
                    Some("Invalid DOI: "@ + debug_quoted_result(doi)), seq![("DOI"@, JsonV::Str(doi))]))
            }
        },
    }
}

/// The items a DOI lookup found, when it found any.
pub open spec fn found_items(ok: bool, data: Option<JsonV>) -> Option<Seq<JsonV>> {
    if ok {
        match data {
            Some(JsonV::Array(items)) => if items.len() > 0 {
                Some(items)
            } else {
                None
            },
            _ => None,
        }
    } else {
        None
    }
}

/// The items a DOI lookup found.
pub fn existing_items(transport: &BridgeResponse) -> (r: Option<Vec<Json>>)
    ensures
        match found_items(transport.ok, crate::bridge::opt_json(transport.data)) {
            Some(items) => r matches Some(v) && jsons_view(v@) == items,
            None => r is None,
        },
{
    if !transport.ok {
        return None;
    }
    match &transport.data {
        Some(Json::Array(items)) => {
            proof {
                crate::json::lemma_jsons_view(items@);
            }
            if items.len() > 0 {
                Some(crate::json::clone_jsons(items))
            } else {
                None
            }
        },
        _ => None,
    }
}

/// The payload for a DOI already in the library.
pub open spec fn already_exists_spec(normalized: Seq<char>, item: JsonV, policy: Seq<char>, modified: bool, count: nat, attempts: Seq<JsonV>) -> JsonV {
    payload_spec("import_doi"@, true, "already_exists"@, Some("ALREADY_EXISTS"@), None, seq![
        ("DOI"@, JsonV::Str(normalized)),
        ("key"@, member_or_null(item, "key"@)),
        ("title"@, member_or_null(item, "title"@)),
        ("source"@, JsonV::Str("library-dedupe"@)),
        ("if_exists"@, JsonV::Str(policy)),
        ("modified"@, JsonV::Bool(modified)),
        ("existing_count"@, JsonV::Number(crate::text::nat_decimal(count))),
        ("attempts"@, JsonV::Array(attempts)),
    ])
}

fn members8(
    k1: &str, v1: Json, k2: &str, v2: Json, k3: &str, v3: Json, k4: &str, v4: Json,
    k5: &str, v5: Json, k6: &str, v6: Json, k7: &str, v7: Json, k8: &str, v8: Json,
) -> (r: Vec<(String, Json)>)
    ensures
        entries_view(r@) == seq![(k1@, v1@), (k2@, v2@), (k3@, v3@), (k4@, v4@), (k5@, v5@), (k6@, v6@), (k7@, v7@), (k8@, v8@)],
{
    let mut m: Vec<(String, Json)> = Vec::new();
    m.push((k1.to_owned(), v1));
    m.push((k2.to_owned(), v2));
    m.push((k3.to_owned(), v3));
    m.push((k4.to_owned(), v4));
    m.push((k5.to_owned(), v5));
    m.push((k6.to_owned(), v6));
    m.push((k7.to_owned(), v7));
    m.push((k8.to_owned(), v8));
    proof {
        reveal_with_fuel(entries_view, 9);
        assert(entries_view(m@) =~= seq![(k1@, v1@), (k2@, v2@), (k3@, v3@), (k4@, v4@), (k5@, v5@), (k6@, v6@), (k7@, v7@), (k8@, v8@)]);
    }
    m
}

/// The payload for a DOI already in the library.
pub fn already_exists_payload(normalized: &str, item: &Json, policy: &str, modified: bool, count: usize, attempts: Vec<Json>) -> (r: Json)
    ensures
        r@ == already_exists_spec(normalized@, item@, policy@, modified, count as nat, jsons_view(attempts@)),
{
    let extra = members8(
        "DOI", Json::Str(normalized.to_owned()),
        "key", get_or_null(item, "key"),
        "title", get_or_null(item, "title"),
        "source", Json::Str("library-dedupe".to_owned()),
        "if_exists", Json::Str(policy.to_owned()),
        "modified", Json::Bool(modified),
        "existing_count", crate::json::json_count(count),
        "attempts", Json::Array(attempts),
    );
    result_payload("import_doi", true, "already_exists", Some("ALREADY_EXISTS"), None, extra)
}

/// Whether the translator imported the DOI: its answer is `ok` and names a key or no error.
pub open spec fn translator_ok(app: JsonV) -> bool {
    get_spec(app, "ok"@) == Some(JsonV::Bool(true)) && (get_spec(app, "key"@) is Some || get_spec(app, "error"@) is None)
}

/// A string member, or `default`.
pub open spec fn str_or(v: JsonV, key: Seq<char>, default: Seq<char>) -> Seq<char> {
    match get_spec(v, key) {
        Some(JsonV::Str(s)) => s,
        _ => default,
    }
}

/// The payload for a DOI the translator imported.
pub open spec fn translator_payload_spec(normalized: Seq<char>, app: JsonV, policy: Seq<char>, attempts: Seq<JsonV>) -> JsonV {
    payload_spec("import_doi"@, true, "success"@, Some(str_or(app, "code"@, "IMPORTED"@)), None, seq![
        ("DOI"@, JsonV::Str(normalized)),
        ("key"@, member_or_null(app, "key"@)),
        ("title"@, member_or_null(app, "title"@)),
        ("source"@, match get_spec(app, "source"@) {
            Some(x) => x,
            None => JsonV::Str("zotero-translator"@),
        }),
        ("message"@, member_or_null(app, "message"@)),
        ("if_exists"@, JsonV::Str(policy)),
        ("attempts"@, JsonV::Array(attempts)),
    ])
}

/// The payload for a DOI the translator imported.
pub fn translator_payload(normalized: &str, app: &Json, policy: &str, attempts: Vec<Json>) -> (r: Json)
    ensures
        r@ == translator_payload_spec(normalized@, app@, policy@, jsons_view(attempts@)),
{
    let code = match app.get("code") {
        Some(Json::Str(c)) => c.clone(),
        _ => "IMPORTED".to_owned(),
    };
    let source = match app.get("source") {
        Some(x) => x.deep_clone(),
        None => Json::Str("zotero-translator".to_owned()),
    };
    let mut m: Vec<(String, Json)> = Vec::new();
    m.push(("DOI".to_owned(), Json::Str(normalized.to_owned())));
    m.push(("key".to_owned(), get_or_null(app, "key")));
    m.push(("title".to_owned(), get_or_null(app, "title")));
    m.push(("source".to_owned(), source));
    m.push(("message".to_owned(), get_or_null(app, "message")));
    m.push(("if_exists".to_owned(), Json::Str(policy.to_owned())));
    m.push(("attempts".to_owned(), Json::Array(attempts)));
    proof {
        reveal_with_fuel(entries_view, 8);
        assert(entries_view(m@) =~= seq![
            ("DOI"@, JsonV::Str(normalized@)),
            ("key"@, member_or_null(app@, "key"@)),
            ("title"@, member_or_null(app@, "title"@)),
            ("source"@, match get_spec(app@, "source"@) {
                Some(x) => x,
                None => JsonV::Str("zotero-translator"@),
            }),
            ("message"@, member_or_null(app@, "message"@)),
            ("if_exists"@, JsonV::Str(policy@)),
            ("attempts"@, JsonV::Array(jsons_view(attempts@))),
        ]);
    }
    result_payload("import_doi", true, "success", Some(code.as_str()), None, m)
}

/// Why the translator did not import the DOI: its `error`, else its `code`, as text; else
/// `translator failed`.
pub open spec fn translator_failure_spec(app: JsonV) -> Seq<char> {
    match get_spec(app, "error"@) {
        Some(e) => py_string(e),
        None => match get_spec(app, "code"@) {
            Some(c) => py_string(c),
            None => "translator failed"@,
        },
    }
}

/// Why the translator did not import the DOI.
pub fn translator_failure(app: &Json) -> (r: String)
    ensures
        r@ == translator_failure_spec(app@),
{
    match app.get("error") {
        Some(e) => value_to_python_string(e),
        None => match app.get("code") {
            Some(c) => value_to_python_string(c),
            None => "translator failed".to_owned(),
        },
    }
}


/// The first imported item, or an empty object.
pub open spec fn first_item(imported: Seq<JsonV>) -> JsonV {
    if imported.len() > 0 {
        imported[0]
    } else {
        JsonV::Object(Seq::empty())
    }
}

/// Tags as a JSON array.
pub open spec fn tags_json(tags: Seq<Seq<char>>) -> JsonV {
    JsonV::Array(tags.map_values(|t: Seq<char>| JsonV::Str(t)))
}

/// The record of a successful Crossref import attempt.
pub open spec fn crossref_attempt_spec(key: JsonV) -> JsonV {
    JsonV::Object(seq![("key"@, key), ("ok"@, JsonV::Bool(true)), ("step"@, JsonV::Str("crossref-bibtex"@))])
}

/// The record of a failed Crossref import attempt.
pub open spec fn crossref_failed_attempt_spec(error: Seq<char>) -> JsonV {
    JsonV::Object(seq![("error"@, JsonV::Str(error)), ("ok"@, JsonV::Bool(false)), ("step"@, JsonV::Str("crossref-bibtex"@))])
}

/// The payload for a DOI imported from Crossref's BibTeX.
pub open spec fn crossref_payload_spec(
    doi: Seq<char>,
    imported: Seq<JsonV>,
    target: JsonV,
    tags: Seq<Seq<char>>,
    translator_error: Option<Seq<char>>,
    policy: Seq<char>,
    attempts: Seq<JsonV>,
) -> JsonV {
    payload_spec("import_doi"@, true, "success"@, Some("IMPORTED"@), None, seq![
        ("DOI"@, JsonV::Str(doi)),
        ("key"@, member_or_null(first_item(imported), "key"@)),
        ("title"@, member_or_null(first_item(imported), "title"@)),
        ("source"@, JsonV::Str("crossref-bibtex"@)),
        ("items"@, JsonV::Array(imported)),
        ("target"@, target),
        ("tags"@, tags_json(tags)),
        ("translator_error"@, str_or_null(translator_error)),
        ("if_exists"@, JsonV::Str(policy)),
        ("attempts"@, JsonV::Array(attempts)),
    ])
}

/// The payload for a DOI that no path imported.
pub open spec fn import_failed_spec(normalized: Seq<char>, error: Seq<char>, translator_error: Option<Seq<char>>, policy: Seq<char>, attempts: Seq<JsonV>) -> JsonV {
    payload_spec("import_doi"@, false, "error"@, Some("IMPORT_FAILED"@), Some(error), seq![
        ("DOI"@, JsonV::Str(normalized)),
        ("translator_error"@, str_or_null(translator_error)),
        ("if_exists"@, JsonV::Str(policy)),
        ("attempts"@, JsonV::Array(attempts)),
    ])
}

/// The tags as a JSON array.
pub fn tags_array(tags: &Vec<String>) -> (r: Json)
    ensures
        r@ == tags_json(strings_view(tags@)),
{
    let ghost tv = strings_view(tags@);
    let mut out: Vec<Json> = Vec::new();
    let mut i: usize = 0;
    proof {
        assert(jsons_view(out@) =~= tv.subrange(0, 0).map_values(|t: Seq<char>| JsonV::Str(t)));
    }
    while i < tags.len()
        invariant
            i <= tags@.len(),
            tv == strings_view(tags@),
            jsons_view(out@) == tv.subrange(0, i as int).map_values(|t: Seq<char>| JsonV::Str(t)),
        decreases tags.len() - i,
    {
        let j = Json::Str(tags[i].clone());
        let ghost before = out@;
        out.push(j);
        proof {
            crate::json::lemma_jsons_view_push(before, j);
            assert(jsons_view(out@) =~= tv.subrange(0, i + 1).map_values(|t: Seq<char>| JsonV::Str(t)));
        }
        i = i + 1;
    }
    proof {
        assert(tv.subrange(0, tv.len() as int) =~= tv);
    }
    Json::Array(out)
}

fn members3(k1: &str, v1: Json, k2: &str, v2: Json, k3: &str, v3: Json) -> (r: Vec<(String, Json)>)
    ensures
        entries_view(r@) == seq![(k1@, v1@), (k2@, v2@), (k3@, v3@)],
{
    let mut m: Vec<(String, Json)> = Vec::new();
    m.push((k1.to_owned(), v1));
    m.push((k2.to_owned(), v2));
    m.push((k3.to_owned(), v3));
    proof {
        reveal_with_fuel(entries_view, 4);
        assert(entries_view(m@) =~= seq![(k1@, v1@), (k2@, v2@), (k3@, v3@)]);
    }
    m
}

fn members4(k1: &str, v1: Json, k2: &str, v2: Json, k3: &str, v3: Json, k4: &str, v4: Json) -> (r: Vec<(String, Json)>)
    ensures
        entries_view(r@) == seq![(k1@, v1@), (k2@, v2@), (k3@, v3@), (k4@, v4@)],
{
    let mut m: Vec<(String, Json)> = Vec::new();
    m.push((k1.to_owned(), v1));
    m.push((k2.to_owned(), v2));
    m.push((k3.to_owned(), v3));
    m.push((k4.to_owned(), v4));
    proof {
        reveal_with_fuel(entries_view, 5);
        assert(entries_view(m@) =~= seq![(k1@, v1@), (k2@, v2@), (k3@, v3@), (k4@, v4@)]);
    }
    m
}

fn opt_string_json(o: Option<String>) -> (r: Json)
    ensures
        r@ == str_or_null(opt_string(o)),
{
    match o {
        Some(s) => Json::Str(s),
        None => Json::Null,
    }
}

/// The payload for a DOI imported from Crossref's BibTeX.
#[verifier::rlimit(60)]
pub fn crossref_payload(
    doi: &str,
    imported: Vec<Json>,
    target: Json,
    tags: &Vec<String>,
    translator_error: Option<String>,
    policy: &str,
    attempts: Vec<Json>,
) -> (r: Json)
    ensures
        r@ == crossref_payload_spec(doi@, jsons_view(imported@), target@, strings_view(tags@), opt_string(translator_error),
            policy@, jsons_view(attempts@)),
{
    proof {
        crate::json::lemma_jsons_view(imported@);
    }
    let (key, title) = if imported.len() > 0 {
        (get_or_null(&imported[0], "key"), get_or_null(&imported[0], "title"))
    } else {
        (Json::Null, Json::Null)
    };
    let mut m: Vec<(String, Json)> = Vec::new();
    m.push(("DOI".to_owned(), Json::Str(doi.to_owned())));
    m.push(("key".to_owned(), key));
    m.push(("title".to_owned(), title));
    m.push(("source".to_owned(), Json::Str("crossref-bibtex".to_owned())));
    m.push(("items".to_owned(), Json::Array(imported)));
    m.push(("target".to_owned(), target));
    m.push(("tags".to_owned(), tags_array(tags)));
    m.push(("translator_error".to_owned(), opt_string_json(translator_error)));
    m.push(("if_exists".to_owned(), Json::Str(policy.to_owned())));
    m.push(("attempts".to_owned(), Json::Array(attempts)));
    proof {
        reveal_with_fuel(entries_view, 11);
        assert(entries_view(m@) =~= seq![
            ("DOI"@, JsonV::Str(doi@)),
            ("key"@, member_or_null(first_item(jsons_view(imported@)), "key"@)),
            ("title"@, member_or_null(first_item(jsons_view(imported@)), "title"@)),
            ("source"@, JsonV::Str("crossref-bibtex"@)),
            ("items"@, JsonV::Array(jsons_view(imported@))),
            ("target"@, target@),
            ("tags"@, tags_json(strings_view(tags@))),
            ("translator_error"@, str_or_null(opt_string(translator_error))),
            ("if_exists"@, JsonV::Str(policy@)),
            ("attempts"@, JsonV::Array(jsons_view(attempts@))),
        ]);
    }
    result_payload("import_doi", true, "success", Some("IMPORTED"), None, m)
}

/// The payload for a DOI that no path imported.
pub fn import_failed_payload(normalized: &str, error: &str, translator_error: Option<String>, policy: &str, attempts: Vec<Json>) -> (r: Json)
    ensures
        r@ == import_failed_spec(normalized@, error@, opt_string(translator_error), policy@, jsons_view(attempts@)),
{
    let extra = members4(
        "DOI", Json::Str(normalized.to_owned()),
        "translator_error", opt_string_json(translator_error),
        "if_exists", Json::Str(policy.to_owned()),
        "attempts", Json::Array(attempts),
    );
    result_payload("import_doi", false, "error", Some("IMPORT_FAILED"), Some(error), extra)
}

/// The message when the connector is not available.
pub open spec fn connector_missing(message: Seq<char>) -> Seq<char> {
    "Zotero connector is not available: "@ + message
}

/// Refuses to import when the connector is not available.
pub fn require_connector(runtime: &crate::import_target::ImportRuntime) -> (r: Result<(), DomainError>)
    ensures
        r is Ok <==> runtime.connector_available,
        r matches Err(e) ==> e.0@ == connector_missing(runtime.connector_message@),
{
    if runtime.connector_available {
        Ok(())
    } else {
        Err(DomainError::from_string(concat_str("Zotero connector is not available: ", runtime.connector_message.as_str())))
    }
}

/// A string member of a target, or empty.
pub open spec fn tree_view_of(target: JsonV) -> Seq<char> {
    str_or(target, "treeViewID"@, Seq::empty())
}

pub(crate) fn tree_view_exec(target: &Json) -> (r: String)
    ensures
        r@ == tree_view_of(target@),
{
    match target.get("treeViewID") {
        Some(Json::Str(t)) => t.clone(),
        _ => String::new(),
    }
}

/// The connector requests of a Crossref import once its BibTeX is fetched, and where it ends:
/// the BibTeX imported in session `sid`; then (unless the import failed) the target resolved
/// (Zotero asked for its selected collection only when `decided` is `None`); then (unless that
/// failed) the session filed under the target's tree view with `tags`. The end is the first
/// failure, or the items imported and the target.
pub open spec fn crossref_connector_run(
    port: u16,
    timeout: u64,
    tags: Seq<Seq<char>>,
    decided: Option<Result<JsonV, Seq<char>>>,
    bibtex: Seq<char>,
    sid: Seq<char>,
    imported: Result<Seq<JsonV>, Seq<char>>,
    selected: Result<JsonV, Seq<char>>,
    updated: Result<JsonV, Seq<char>>,
) -> (Seq<crate::import_target::ConnectorCall>, Result<(Seq<JsonV>, JsonV), Seq<char>>) {
    let imp = crate::import_target::ConnectorCall::ImportText {
        port,
        content: bibtex,
        session_id: sid,
        content_type: "text/x-bibtex"@,
        timeout,
        answer: imported,
    };
    match imported {
        Err(m) => (seq![imp], Err(m)),
        Ok(items) => {
            let (asked, target) = match decided {
                Some(d) => (Seq::<crate::import_target::ConnectorCall>::empty(), d),
                None => (
                    seq![crate::import_target::ConnectorCall::SelectedCollection { port, timeout: 5, answer: selected }],
                    crate::import_target::target_from_selection(selected),
                ),
            };
            match target {
                Err(m) => (seq![imp] + asked, Err(m)),
                Ok(t) => (seq![imp] + asked + seq![crate::import_target::ConnectorCall::UpdateSession {
                    port,
                    session_id: sid,
                    target: tree_view_of(t),
                    tags,
                    timeout,
                    answer: updated,
                }], match updated {
                    Err(m) => Err(m),
                    Ok(_) => Ok((items, t)),
                }),
            }
        },
    }
}

/// The requests of a Crossref import of `doi` and where it ends: nothing asked and the
/// connector's absence when it is not available; else Crossref asked for the DOI's BibTeX
/// (30 seconds), and on its answer the connector run above.
pub open spec fn crossref_run(
    available: bool,
    message: Seq<char>,
    doi: Seq<char>,
    port: u16,
    timeout: u64,
    tags: Seq<Seq<char>>,
    decided: Option<Result<JsonV, Seq<char>>>,
    fetched: Result<Seq<char>, Seq<char>>,
    sid: Seq<char>,
    imported: Result<Seq<JsonV>, Seq<char>>,
    selected: Result<JsonV, Seq<char>>,
    updated: Result<JsonV, Seq<char>>,
) -> (Seq<FetchCall>, Seq<crate::import_target::ConnectorCall>, Result<(Seq<JsonV>, JsonV), Seq<char>>) {
    if !available {
        (Seq::empty(), Seq::empty(), Err(connector_missing(message)))
    } else {
        let f = seq![FetchCall::CrossrefBibtex { doi, timeout: 30, answer: fetched }];
        match fetched {
            Err(m) => (f, Seq::empty(), Err(m)),
            Ok(b) => {
                let (c, o) = crossref_connector_run(port, timeout, tags, decided, b, sid, imported, selected, updated);
                (f, c, o)
            },
        }
    }
}

/// Where an import lands for the add options (see `decided_target`).
pub open spec fn add_target_decision(
    available: bool,
    options: AddImportOptions,
    lookups: crate::import_target::TargetLookups,
) -> Option<Result<JsonV, Seq<char>>> {
    crate::import_target::decided_target(available, opt_string(options.collection_key), opt_string(options.session_collection),
        crate::import_target::lookup_view(lookups.collection), crate::import_target::default_view(lookups.default_library))
}

/// Imports a DOI from Crossref's BibTeX through the connector, filing it under the resolved
/// target with `tags`; records the attempt in `attempts` when it succeeds.
pub fn import_crossref_bibtex<C: crate::import_target::ConnectorImportClient, F: AddImportFetcher>(
    runtime: &mut crate::import_target::ImportRuntime,
    connector: &mut crate::import_target::LoggedConnector<C>,
    fetcher: &mut LoggedFetcher<F>,
    doi: &str,
    tags: &Vec<String>,
    options: &AddImportOptions,
    policy: &str,
    translator_error: Option<String>,
    attempts: &mut Vec<Json>,
    lookups: &crate::import_target::TargetLookups,
) -> (r: Result<Json, DomainError>)
    ensures
        !old(runtime).connector_available ==> (r matches Err(e) && e.0@ == connector_missing(old(runtime).connector_message@)),
        match r {
            Ok(p) => exists|imported: Seq<JsonV>, target: JsonV|
                jsons_view(final(attempts)@) == jsons_view(old(attempts)@).push(crossref_attempt_spec(member_or_null(first_item(imported), "key"@)))
                && #[trigger] crossref_payload_spec(doi@, imported, target, strings_view(tags@), opt_string(translator_error), policy@,
                    jsons_view(final(attempts)@)) == p@,
            Err(_) => final(attempts)@ == old(attempts)@,
        },
        final(runtime).connector_available == old(runtime).connector_available,
        final(runtime).connector_message == old(runtime).connector_message,
        final(runtime).port == old(runtime).port,
        exists|fetched: Result<Seq<char>, Seq<char>>, sid: Seq<char>, imported: Result<Seq<JsonV>, Seq<char>>, selected: Result<JsonV, Seq<char>>,
            updated: Result<JsonV, Seq<char>>|
            {
                let run = #[trigger] crossref_run(old(runtime).connector_available, old(runtime).connector_message@, doi@,
                    old(runtime).port, options.connector_timeout_secs, strings_view(tags@),
                    add_target_decision(old(runtime).connector_available, *options, *lookups), fetched, sid, imported, selected, updated);
                &&& final(fetcher).log@ == old(fetcher).log@ + run.0
                &&& final(connector).log@ == old(connector).log@ + run.1
                &&& match run.2 {
                    Ok((items, target)) => r matches Ok(p) && jsons_view(final(attempts)@) == jsons_view(old(attempts)@).push(
                        crossref_attempt_spec(member_or_null(first_item(items), "key"@))) && p@ == crossref_payload_spec(doi@, items, target,
                        strings_view(tags@), opt_string(translator_error), policy@, jsons_view(final(attempts)@)),
                    Err(m) => r matches Err(e) && e.0@ == m,
                }
            },
{
    let ghost avail = runtime.connector_available;
    let ghost msg = runtime.connector_message@;
    let ghost port = runtime.port;
    let ghost decided = add_target_decision(runtime.connector_available, *options, *lookups);
    let ghost f0 = fetcher.log@;
    let ghost c0 = connector.log@;
    let ghost tv0 = strings_view(tags@);
    let ghost dummy_text = Err::<Seq<char>, Seq<char>>(Seq::empty());
    let ghost dummy_items = Err::<Seq<JsonV>, Seq<char>>(Seq::empty());
    let ghost dummy_json = Err::<JsonV, Seq<char>>(Seq::empty());
    if let Err(e) = require_connector(runtime) {
        proof {
            let run = crossref_run(avail, msg, doi@, port, options.connector_timeout_secs, tv0, decided, dummy_text, Seq::empty(),
                dummy_items, dummy_json, dummy_json);
            assert(f0 + run.0 =~= f0);
            assert(c0 + run.1 =~= c0);
        }
        return Err(e);
    }
    let fetched = fetcher.fetch_crossref_bibtex(doi, 30);
    let ghost fa = text_answer(fetched);
    let bibtex = match fetched {
        Ok(b) => b,
        Err(e) => {
            proof {
                let run = crossref_run(avail, msg, doi@, port, options.connector_timeout_secs, tv0, decided, fa, Seq::empty(),
                    dummy_items, dummy_json, dummy_json);
                assert(c0 + run.1 =~= c0);
                assert(fetcher.log@ =~= f0 + run.0);
                assert(run.2 == Err::<(Seq<JsonV>, JsonV), Seq<char>>(e.0@));
            }
            return Err(e);
        },
    };
    let sid = crate::clock::session_id("import-doi-crossref", &mut runtime.session_counter);
    let ghost c1 = connector.log@;
    let imported_r = connector.import_text(runtime.port, bibtex.as_str(), sid.as_str(), "text/x-bibtex", options.connector_timeout_secs);
    let ghost ia = crate::import_target::items_answer(imported_r);
    proof {
        reveal_strlit("text/x-bibtex");
    }
    let imported = match imported_r {
        Ok(v) => v,
        Err(e) => {
            proof {
                let run = crossref_run(avail, msg, doi@, port, options.connector_timeout_secs, tv0, decided, fa, sid@, ia, dummy_json,
                    dummy_json);
                assert(connector.log@ =~= c0 + run.1);
                assert(fetcher.log@ =~= f0 + run.0);
                assert(run.2 == Err::<(Seq<JsonV>, JsonV), Seq<char>>(e.0@));
            }
            return Err(e);
        },
    };
    let session_collection = match &options.session_collection {
        Some(c) => Some(c.as_str()),
        None => None,
    };
    let collection_key = match &options.collection_key {
        Some(c) => Some(c.as_str()),
        None => None,
    };
    let ghost c2 = connector.log@;
    let target_r = crate::import_target::resolve_target(runtime, collection_key, session_collection, lookups, connector);
    let ghost sel: Result<JsonV, Seq<char>> = if decided is None {
        choose|answer: Result<JsonV, Seq<char>>|
            connector.log@ == c2.push(crate::import_target::ConnectorCall::SelectedCollection { port, timeout: 5, answer })
            && crate::import_target::json_answer(target_r) == #[trigger] crate::import_target::target_from_selection(answer)
    } else {
        dummy_json
    };
    proof {
        assert(opt_str(collection_key) == opt_string(options.collection_key));
        assert(opt_str(session_collection) == opt_string(options.session_collection));
    }
    let target = match target_r {
        Ok(t) => t,
        Err(e) => {
            proof {
                let run = crossref_run(avail, msg, doi@, port, options.connector_timeout_secs, tv0, decided, fa, sid@, ia, sel,
                    dummy_json);
                assert(connector.log@ =~= c0 + run.1);
                assert(fetcher.log@ =~= f0 + run.0);
                assert(run.2 == Err::<(Seq<JsonV>, JsonV), Seq<char>>(e.0@));
            }
            return Err(e);
        },
    };
    let ghost tg = target@;
    let ghost c3 = connector.log@;
    let tv = tree_view_exec(&target);
    let updated = connector.update_session(runtime.port, sid.as_str(), tv.as_str(), tags, options.connector_timeout_secs);
    let ghost ua = crate::import_target::json_answer(updated);
    if let Err(e) = updated {
        proof {
            let run = crossref_run(avail, msg, doi@, port, options.connector_timeout_secs, tv0, decided, fa, sid@, ia, sel, ua);
            assert(connector.log@ =~= c0 + run.1);
            assert(fetcher.log@ =~= f0 + run.0);
            assert(run.2 == Err::<(Seq<JsonV>, JsonV), Seq<char>>(e.0@));
        }
        return Err(e);
    }
    proof {
        crate::json::lemma_jsons_view(imported@);
    }
    let key = if imported.len() > 0 {
        get_or_null(&imported[0], "key")
    } else {
        Json::Null
    };
    let rec = Json::Object(members3("key", key, "ok", Json::Bool(true), "step", Json::Str("crossref-bibtex".to_owned())));
    let ghost before = attempts@;
    attempts.push(rec);
    proof {
        crate::json::lemma_jsons_view_push(before, rec);
    }
    let copy = crate::json::clone_jsons(attempts);
    let ghost iv = jsons_view(imported@);
    let p = crossref_payload(doi, imported, target, tags, translator_error, policy, copy);
    proof {
        assert(crossref_payload_spec(doi@, iv, tg, strings_view(tags@), opt_string(translator_error), policy@,
            jsons_view(attempts@)) == p@);
        let run = crossref_run(avail, msg, doi@, port, options.connector_timeout_secs, tv0, decided, fa, sid@, ia, sel, ua);
        assert(connector.log@ =~= c0 + run.1);
        assert(fetcher.log@ =~= f0 + run.0);
        assert(run.2 == Ok::<(Seq<JsonV>, JsonV), Seq<char>>((iv, tg)));
    }
    Ok(p)
}


/// The DOI pattern, for matching.
pub fn doi_pattern_exec() -> (p: &'static str)
    ensures
        p@ == doi_pattern(),
{
    "(?i)10\\.\\d{4,9}/[^\\s\"'<>]+"
}

/// The checks before a DOI import.
pub fn check_doi_import(doi: &str, if_exists: &str) -> (r: Result<(String, String), Json>)
    ensures
        match doi_preflight(doi@, if_exists@) {
            Ok((n, p)) => r matches Ok(x) && x.0@ == n && x.1@ == p,
            Err(payload) => r matches Err(x) && x@ == payload,
        },
{
    let policy = match normalize_if_exists(if_exists) {
        Ok(p) => p,
        Err(err) => {
            return Err(result_payload("import_doi", false, "error", Some("INVALID_IF_EXISTS"), Some(err.as_str()),
                one("DOI", Json::Str(doi.to_owned()))));
        },
    };
    let normalized = crate::import_normalization::normalize_doi(Some(doi));
    let matched = if str_is_empty(normalized.as_str()) {
        false
    } else {
        crate::pattern::regex_is_match(doi_pattern_exec(), normalized.as_str()) == Some(true)
    };
    if !matched {
        let msg = concat_str("Invalid DOI: ", debug_quoted(doi).as_str());
        return Err(result_payload("import_doi", false, "error", Some("INVALID_DOI"), Some(msg.as_str()),
            one("DOI", Json::Str(doi.to_owned()))));
    }
    Ok((normalized, policy))
}

/// What a DOI import answers once its checks pass, given what the clients answered: `found`,
/// the library's items with the DOI (looked up unless duplicates are wanted); `modified`,
/// whether filing or tagging the first of them succeeded; `app`, the translator's answer (asked
/// when the translator is preferred and nothing was found); `crossref`, the items Crossref's
/// BibTeX imported and the target they were filed under, or the error that stopped it.
/// An item found answers first; then the translator, when it succeeded; then Crossref; else
/// the failure of both.
pub open spec fn doi_import_spec(
    normalized: Seq<char>,
    policy: Seq<char>,
    tags: Seq<Seq<char>>,
    prefer_translator: bool,
    found: Option<Seq<JsonV>>,
    modified: bool,
    app: JsonV,
    crossref: Result<(Seq<JsonV>, JsonV), Seq<char>>,
) -> JsonV {
    if policy != "duplicate"@ && found is Some && found->0.len() > 0 {
        already_exists_spec(normalized, found->0[0], policy, modified, found->0.len(), Seq::empty())
    } else {
        let tried: Seq<JsonV> = if prefer_translator {
            seq![attempt_spec("zotero-translator"@, app)]
        } else {
            Seq::empty()
        };
        if prefer_translator && translator_ok(app) {
            translator_payload_spec(normalized, app, policy, tried)
        } else {
            let te = if prefer_translator {
                Some(translator_failure_spec(app))
            } else {
                None
            };
            match crossref {
                Ok((imported, target)) => crossref_payload_spec(normalized, imported, target, tags, te, policy,
                    tried.push(crossref_attempt_spec(member_or_null(first_item(imported), "key"@)))),
                Err(e) => import_failed_spec(normalized, e, te, policy, tried.push(crossref_failed_attempt_spec(e))),
            }
        }
    }
}

/// What a DOI import may answer: the refusal of a bad policy or DOI; else the answer
/// `doi_import_spec` gives for some answers of the clients, where nothing was looked up under
/// the `duplicate` policy, only the `file` policy modifies a found item, and Crossref fails
/// with the connector's absence when the connector is not available.
pub open spec fn doi_import_result(
    doi: Seq<char>,
    if_exists: Seq<char>,
    tags: Seq<Seq<char>>,
    prefer_translator: bool,
    connector_available: bool,
    connector_message: Seq<char>,
    r: JsonV,
) -> bool {
    match doi_preflight(doi, if_exists) {
        Err(payload) => r == payload,
        Ok((normalized, policy)) => exists|found: Option<Seq<JsonV>>, modified: bool, app: JsonV, crossref: Result<(Seq<JsonV>, JsonV), Seq<char>>|
            r == #[trigger] doi_import_spec(normalized, policy, tags, prefer_translator, found, modified, app, crossref)
            && (policy == "duplicate"@ ==> found is None)
            && (modified ==> policy == "file"@)
            && (!connector_available ==> crossref == Err::<(Seq<JsonV>, JsonV), Seq<char>>(connector_missing(connector_message))),
    }
}

/// The library id a bridge request names, as `bridge_library_id` computes it.
pub open spec fn bridge_library_spec(library_id: i64) -> u32 {
    if library_id < 0 {
        0
    } else {
        library_id as u32
    }
}

/// The translator's answer as the import reads it.
pub open spec fn translator_answer(t: BridgeResponse) -> JsonV {
    import_answer_spec(t.ok, crate::bridge::opt_json(t.data), opt_string(t.error), opt_string(t.error_name),
        opt_string(t.error_stack))
}

/// The key of an item found, when it has a string key.
pub open spec fn found_key(item: JsonV) -> Option<Seq<char>> {
    match get_spec(item, "key"@) {
        Some(JsonV::Str(k)) => Some(k),
        _ => None,
    }
}

/// The bridge side of a DOI import once its checks pass, from the bridge's answers: the items
/// looked up (unless duplicates are wanted) and, when found, the first one filed in the
/// collection and tagged under the `file` policy; otherwise the translator asked (when
/// preferred). Gives the requests made, the items found, whether filing or tagging took, the
/// translator's answer, and whether Crossref comes next.
pub open spec fn doi_bridge_run(
    normalized: Seq<char>,
    policy: Seq<char>,
    library_id: u32,
    collection: Option<Seq<char>>,
    tags: Seq<Seq<char>>,
    prefer_translator: bool,
    looked_up: BridgeResponse,
    filed: Result<(), Seq<char>>,
    tagged: Result<(), Seq<char>>,
    translated: BridgeResponse,
) -> (Seq<BridgeCall>, Option<Seq<JsonV>>, bool, JsonV, bool) {
    let dedupe = policy != "duplicate"@;
    let lookup: Seq<BridgeCall> = if dedupe {
        seq![BridgeCall::FindItemsByDoi { library_id, doi: normalized, limit: 20, answer: looked_up }]
    } else {
        Seq::empty()
    };
    let found = if dedupe {
        found_items(looked_up.ok, crate::bridge::opt_json(looked_up.data))
    } else {
        None
    };
    if found is Some && found->0.len() > 0 {
        let key = found_key(found->0[0]);
        if policy == "file"@ && key is Some {
            let k = key->0;
            let file_calls: Seq<BridgeCall> = match collection {
                Some(c) => seq![BridgeCall::AddToCollection { library_id, item_key: k, collection: c, answer: filed }],
                None => Seq::empty(),
            };
            let tag_calls: Seq<BridgeCall> = if tags.len() > 0 {
                seq![BridgeCall::ManageTags { library_id, item_key: k, tags, answer: tagged }]
            } else {
                Seq::empty()
            };
            let modified = (collection is Some && filed is Ok) || (tags.len() > 0 && tagged is Ok);
            (lookup + file_calls + tag_calls, found, modified, JsonV::Null, false)
        } else {
            (lookup, found, false, JsonV::Null, false)
        }
    } else if prefer_translator {
        let app = translator_answer(translated);
        let ask = BridgeCall::ImportFromDoi {
            library_id,
            doi: normalized,
            collection,
            tags: if tags.len() > 0 {
                Some(tags)
            } else {
                None
            },
            answer: translated,
        };
        (lookup.push(ask), found, false, app, !translator_ok(app))
    } else {
        (lookup, found, false, JsonV::Null, true)
    }
}

/// A DOI import with its requests: the refusal with nothing asked; else, for the clients'
/// answers, the bridge requests of `doi_bridge_run`, the Crossref requests of `crossref_run`
/// when Crossref comes next (none otherwise), and the answer `doi_import_spec` gives.
pub open spec fn doi_import_logged(
    doi: Seq<char>,
    options: AddImportOptions,
    available: bool,
    message: Seq<char>,
    port: u16,
    lookups: crate::import_target::TargetLookups,
    bridge_calls: Seq<BridgeCall>,
    fetch_calls: Seq<FetchCall>,
    connector_calls: Seq<crate::import_target::ConnectorCall>,
    r: JsonV,
) -> bool {
    match doi_preflight(doi, options.if_exists@) {
        Err(payload) => r == payload && bridge_calls.len() == 0 && fetch_calls.len() == 0 && connector_calls.len() == 0,
        Ok((normalized, policy)) => exists|looked_up: BridgeResponse, filed: Result<(), Seq<char>>, tagged: Result<(), Seq<char>>,
            translated: BridgeResponse, fetched: Result<Seq<char>, Seq<char>>, sid: Seq<char>, imported: Result<Seq<JsonV>, Seq<char>>,
            selected: Result<JsonV, Seq<char>>, updated: Result<JsonV, Seq<char>>|
            {
                let tags = clean_tags(strings_view(options.tags@));
                let b = #[trigger] doi_bridge_run(normalized, policy, bridge_library_spec(options.library_id), opt_string(
                    options.collection_key), clean_tags(strings_view(options.tags@)), options.prefer_translator, looked_up, filed, tagged,
                    translated);
                let c = #[trigger] crossref_run(available, message, normalized, port, options.connector_timeout_secs, clean_tags(
                    strings_view(options.tags@)), add_target_decision(available, options, lookups), fetched, sid, imported, selected,
                    updated);
                &&& bridge_calls == b.0
                &&& fetch_calls == (if b.4 {
                    c.0
                } else {
                    Seq::empty()
                })
                &&& connector_calls == (if b.4 {
                    c.1
                } else {
                    Seq::empty()
                })
                &&& r == doi_import_spec(normalized, policy, tags, options.prefer_translator, b.1, b.2, b.3, c.2)
            },
    }
}

/// Imports a DOI: refuses a bad if-exists policy or DOI; unless duplicates are wanted, answers
/// with an item of the library that has the DOI (filing it in the collection and tagging it
/// under the `file` policy); else tries Zotero's translators, then Crossref's BibTeX through
/// the connector.
#[verifier::rlimit(60)]
pub fn import_doi_with_clients<B: AddImportBridge, C: crate::import_target::ConnectorImportClient, F: AddImportFetcher>(
    runtime: &mut crate::import_target::ImportRuntime,
    bridge: &mut LoggedBridge<B>,
    connector: &mut crate::import_target::LoggedConnector<C>,
    fetcher: &mut LoggedFetcher<F>,
    doi: &str,
    options: &AddImportOptions,
    lookups: &crate::import_target::TargetLookups,
) -> (r: Json)
    ensures
        doi_import_result(doi@, options.if_exists@, clean_tags(strings_view(options.tags@)), options.prefer_translator,
            old(runtime).connector_available, old(runtime).connector_message@, r@),
        final(bridge).log@.len() >= old(bridge).log@.len(),
        final(fetcher).log@.len() >= old(fetcher).log@.len(),
        final(connector).log@.len() >= old(connector).log@.len(),
        final(bridge).log@.subrange(0, old(bridge).log@.len() as int) == old(bridge).log@,
        final(fetcher).log@.subrange(0, old(fetcher).log@.len() as int) == old(fetcher).log@,
        final(connector).log@.subrange(0, old(connector).log@.len() as int) == old(connector).log@,
        doi_import_logged(doi@, *options, old(runtime).connector_available, old(runtime).connector_message@, old(runtime).port,
            *lookups, final(bridge).log@.subrange(old(bridge).log@.len() as int, final(bridge).log@.len() as int),
            final(fetcher).log@.subrange(old(fetcher).log@.len() as int, final(fetcher).log@.len() as int),
            final(connector).log@.subrange(old(connector).log@.len() as int, final(connector).log@.len() as int), r@),
        final(runtime).connector_available == old(runtime).connector_available,
        final(runtime).connector_message == old(runtime).connector_message,
        final(runtime).port == old(runtime).port,
{
    let ghost b0 = bridge.log@;
    let ghost f0 = fetcher.log@;
    let ghost c0 = connector.log@;
    let ghost avail = runtime.connector_available;
    let ghost msg = runtime.connector_message@;
    let ghost port = runtime.port;
    let ghost decided = add_target_decision(runtime.connector_available, *options, *lookups);
    let ghost no_answer = BridgeResponse { ok: false, data: None, error: None, error_name: None, error_stack: None, error_raw: None };
    let ghost no_text = Err::<Seq<char>, Seq<char>>(Seq::empty());
    let ghost no_items = Err::<Seq<JsonV>, Seq<char>>(Seq::empty());
    let ghost no_json = Err::<JsonV, Seq<char>>(Seq::empty());
    let (normalized, policy) = match check_doi_import(doi, options.if_exists.as_str()) {
        Ok(x) => x,
        Err(payload) => {
            proof {
                lemma_log_split(b0, Seq::<BridgeCall>::empty());
                lemma_log_split(f0, Seq::<FetchCall>::empty());
                lemma_log_split(c0, Seq::<crate::import_target::ConnectorCall>::empty());
                assert(b0 + Seq::<BridgeCall>::empty() =~= b0);
                assert(f0 + Seq::<FetchCall>::empty() =~= f0);
                assert(c0 + Seq::<crate::import_target::ConnectorCall>::empty() =~= c0);
            }
            return payload;
        },
    };
    let ghost tagv = clean_tags(strings_view(options.tags@));
    let ghost no_crossref = Err::<(Seq<JsonV>, JsonV), Seq<char>>(connector_missing(runtime.connector_message@));
    let dedupe = !str_eq(policy.as_str(), "duplicate");
    let library_id = bridge_library_id(options.library_id);
    let tags = normalize_tags(&options.tags);
    let ghost libv = bridge_library_spec(options.library_id);
    let ghost collv = opt_string(options.collection_key);
    let mut attempts: Vec<Json> = Vec::new();
    let mut found: Option<Vec<Json>> = None;
    let ghost mut looked = no_answer;
    if dedupe {
        let existing = bridge.find_items_by_doi(library_id, normalized.as_str(), 20);
        proof {
            looked = existing;
        }
        found = existing_items(&existing);
    }
    let ghost b1 = bridge.log@;
    let ghost foundv: Option<Seq<JsonV>> = if found is Some {
        Some(jsons_view(found->0@))
    } else {
        None
    };
    proof {
        assert(foundv == (if policy@ != "duplicate"@ {
            found_items(looked.ok, crate::bridge::opt_json(looked.data))
        } else {
            None
        }));
    }
    if let Some(items) = &found {
        proof {
            crate::json::lemma_jsons_view(items@);
        }
        if items.len() > 0 {
            let item = &items[0];
            let mut modified = false;
            let ghost mut filed = Ok::<(), Seq<char>>(());
            let ghost mut tagged = Ok::<(), Seq<char>>(());
            if str_eq(policy.as_str(), "file") {
                if let Some(Json::Str(key)) = item.get("key") {
                    if let Some(collection) = &options.collection_key {
                        let fr = bridge.add_to_collection(library_id, key.as_str(), collection.as_str());
                        proof {
                            filed = crate::import_target::done_answer(fr);
                        }
                        if fr.is_ok() {
                            modified = true;
                        }
                    }
                    if tags.len() > 0 {
                        let tr = bridge.manage_tags(library_id, key.as_str(), &tags);
                        proof {
                            tagged = crate::import_target::done_answer(tr);
                        }
                        if tr.is_ok() {
                            modified = true;
                        }
                    }
                }
            }
            proof {
                assert(jsons_view(attempts@) =~= Seq::<JsonV>::empty());
            }
            let r = already_exists_payload(normalized.as_str(), item, policy.as_str(), modified, items.len(), attempts);
            proof {
                let bb = doi_bridge_run(normalized@, policy@, libv, collv, tagv, options.prefer_translator, looked, filed, tagged,
                    no_answer);
                let cc = crossref_run(avail, msg, normalized@, port, options.connector_timeout_secs, tagv, decided, no_text,
                    Seq::empty(), no_items, no_json, no_json);
                assert(bridge.log@ =~= b0 + bb.0);
                assert(bb.1 == foundv);
                assert(bb.2 == modified);
                assert(!bb.4);
                assert(r@ == already_exists_spec(normalized@, items@[0]@, policy@, modified, items@.len() as nat, Seq::empty()));
                assert(r@ == doi_import_spec(normalized@, policy@, tagv, options.prefer_translator, bb.1, bb.2, bb.3, cc.2));
                lemma_log_split(b0, bb.0);
                lemma_log_split(f0, Seq::<FetchCall>::empty());
                lemma_log_split(c0, Seq::<crate::import_target::ConnectorCall>::empty());
                assert(f0 + Seq::<FetchCall>::empty() =~= f0);
                assert(c0 + Seq::<crate::import_target::ConnectorCall>::empty() =~= c0);
            }
            return r;
        }
    }
    proof {
        assert(!(policy@ != "duplicate"@ && foundv is Some && foundv->0.len() > 0));
    }
    let mut translator_error: Option<String> = None;
    let mut app = Json::Null;
    let ghost mut translated = no_answer;
    if options.prefer_translator {
        let collection_key = match &options.collection_key {
            Some(c) => Some(c.as_str()),
            None => None,
        };
        let tag_arg = tag_argument(&tags);
        let transport = bridge.import_from_doi(library_id, normalized.as_str(), collection_key, tag_arg);
        proof {
            translated = transport;
            assert(opt_str(collection_key) == collv);
        }
        app = application_import_payload(&transport);
        let rec = attempt("zotero-translator", &app);
        proof {
            crate::json::lemma_jsons_view_push(attempts@, rec);
            assert(jsons_view(attempts@) =~= Seq::<JsonV>::empty());
        }
        attempts.push(rec);
        let ok = match app.get("ok") {
            Some(Json::Bool(b)) => *b,
            _ => false,
        };
        if ok && (app.get("key").is_some() || app.get("error").is_none()) {
            let ghost av = jsons_view(attempts@);
            let r = translator_payload(normalized.as_str(), &app, policy.as_str(), attempts);
            proof {
                let bb = doi_bridge_run(normalized@, policy@, libv, collv, tagv, options.prefer_translator, looked, Ok(()), Ok(()),
                    translated);
                let cc = crossref_run(avail, msg, normalized@, port, options.connector_timeout_secs, tagv, decided, no_text,
                    Seq::empty(), no_items, no_json, no_json);
                assert(translator_ok(app@));
                assert(av =~= seq![attempt_spec("zotero-translator"@, app@)]);
                assert(r@ == translator_payload_spec(normalized@, app@, policy@, av));
                assert(bridge.log@ =~= b0 + bb.0);
                assert(!bb.4);
                assert(r@ == doi_import_spec(normalized@, policy@, tagv, options.prefer_translator, bb.1, bb.2, bb.3, cc.2));
                lemma_log_split(b0, bb.0);
                lemma_log_split(f0, Seq::<FetchCall>::empty());
                lemma_log_split(c0, Seq::<crate::import_target::ConnectorCall>::empty());
                assert(f0 + Seq::<FetchCall>::empty() =~= f0);
                assert(c0 + Seq::<crate::import_target::ConnectorCall>::empty() =~= c0);
            }
            return r;
        }
        proof {
            assert(!translator_ok(app@));
        }
        translator_error = Some(translator_failure(&app));
    } else {
        proof {
            assert(jsons_view(attempts@) =~= Seq::<JsonV>::empty());
        }
    }
    let ghost appv = app@;
    let ghost tried = jsons_view(attempts@);
    let ghost bb = doi_bridge_run(normalized@, policy@, libv, collv, tagv, options.prefer_translator, looked, Ok(()), Ok(()),
        translated);
    proof {
        assert(tried =~= (if options.prefer_translator {
            seq![attempt_spec("zotero-translator"@, appv)]
        } else {
            Seq::<JsonV>::empty()
        }));
        assert(bridge.log@ =~= b0 + bb.0);
        assert(bb.4);
        assert(bb.3 == appv || !options.prefer_translator);
        lemma_log_split(b0, bb.0);
    }
    let te_copy = match &translator_error {
        Some(t) => Some(t.clone()),
        None => None,
    };
    let ghost tev = opt_string(translator_error);
    let ghost fb = fetcher.log@;
    let ghost cb = connector.log@;
    let outcome = import_crossref_bibtex(runtime, connector, fetcher, normalized.as_str(), &tags, options, policy.as_str(),
        translator_error, &mut attempts, lookups);
    let ghost (fw, sw, iw, selw, uw) = choose|fetched: Result<Seq<char>, Seq<char>>, sid: Seq<char>, imported: Result<Seq<JsonV>, Seq<char>>,
        selected: Result<JsonV, Seq<char>>, updated: Result<JsonV, Seq<char>>|
        {
            let run = #[trigger] crossref_run(avail, msg, normalized@, port, options.connector_timeout_secs, strings_view(tags@), decided,
                fetched, sid, imported, selected, updated);
            &&& fetcher.log@ == fb + run.0
            &&& connector.log@ == cb + run.1
            &&& match run.2 {
                Ok((items, target)) => outcome matches Ok(p) && jsons_view(attempts@) == tried.push(
                    crossref_attempt_spec(member_or_null(first_item(items), "key"@))) && p@ == crossref_payload_spec(normalized@, items, target,
                    strings_view(tags@), tev, policy@, jsons_view(attempts@)),
                Err(m) => outcome matches Err(e) && e.0@ == m,
            }
        };
    let ghost cc = crossref_run(avail, msg, normalized@, port, options.connector_timeout_secs, tagv, decided, fw, sw, iw, selw, uw);
    proof {
        assert(strings_view(tags@) == tagv);
        lemma_log_split(f0, cc.0);
        lemma_log_split(c0, cc.1);
        assert(bridge.log@ == b0 + bb.0);
    }
    match outcome {
        Ok(p) => {
            proof {
                assert(p@ == doi_import_spec(normalized@, policy@, tagv, options.prefer_translator, bb.1, bb.2, bb.3, cc.2));
            }
            p
        },
        Err(err) => {
            let rec = Json::Object(members3("error", Json::Str(err.0.clone()), "ok", Json::Bool(false), "step",
                Json::Str("crossref-bibtex".to_owned())));
            proof {
                crate::json::lemma_jsons_view_push(attempts@, rec);
                assert(rec@ == crossref_failed_attempt_spec(err.0@));
            }
            attempts.push(rec);
            let ghost av = jsons_view(attempts@);
            let r = import_failed_payload(normalized.as_str(), err.0.as_str(), te_copy, policy.as_str(), attempts);
            proof {
                assert(r@ == import_failed_spec(normalized@, err.0@, opt_string(te_copy), policy@, av));
                assert(opt_string(te_copy) == tev);
                assert(av == tried.push(crossref_failed_attempt_spec(err.0@)));
                assert(r@ == doi_import_spec(normalized@, policy@, tagv, options.prefer_translator, bb.1, bb.2, bb.3, cc.2));
            }
            r
        },
    }
}

/// Splitting a log that grew by `d` gives back what it was and what was added.
pub proof fn lemma_log_split<T>(a: Seq<T>, d: Seq<T>)
    ensures
        (a + d).subrange(0, a.len() as int) == a,
        (a + d).subrange(a.len() as int, (a + d).len() as int) == d,
{
    assert((a + d).subrange(0, a.len() as int) =~= a);
    assert((a + d).subrange(a.len() as int, (a + d).len() as int) =~= d);
}

/// Whether a record `after` continues `before`: it starts with all of `before`.
pub open spec fn log_extends<T>(before: Seq<T>, after: Seq<T>) -> bool {
    before.len() <= after.len() && after.subrange(0, before.len() as int) == before
}

/// A record continues itself.
pub proof fn lemma_extends_refl<T>(a: Seq<T>)
    ensures
        log_extends(a, a),
{
    assert(a.subrange(0, a.len() as int) =~= a);
}

/// A record with one more request continues the record before it.
pub proof fn lemma_extends_push<T>(a: Seq<T>, x: T)
    ensures
        log_extends(a, a.push(x)),
{
    assert(a.push(x).subrange(0, a.len() as int) =~= a);
}

/// Continuing a record is transitive.
pub proof fn lemma_extends_trans<T>(a: Seq<T>, b: Seq<T>, c: Seq<T>)
    requires
        log_extends(a, b),
        log_extends(b, c),
    ensures
        log_extends(a, c),
{
    assert(c.subrange(0, a.len() as int) =~= b.subrange(0, a.len() as int));
}

/// What two calls added to a record, one after the other, is what the first added followed
/// by what the second added.
pub proof fn lemma_log_concat<T>(a: Seq<T>, b: Seq<T>, c: Seq<T>)
    requires
        log_extends(a, b),
        log_extends(b, c),
    ensures
        c.subrange(a.len() as int, c.len() as int) == b.subrange(a.len() as int, b.len() as int) + c.subrange(b.len() as int,
            c.len() as int),
{
    assert(c.subrange(a.len() as int, c.len() as int) =~= b.subrange(a.len() as int, b.len() as int) + c.subrange(
        b.len() as int, c.len() as int));
}

/// The tags a translator request names: none when there are none.
pub fn tag_argument(tags: &Vec<String>) -> (r: Option<&Vec<String>>)
    ensures
        tags@.len() == 0 ==> r is None,
        tags@.len() > 0 ==> r == Some(tags),
{
    if tags.len() > 0 {
        Some(tags)
    } else {
        None
    }
}

/// The library id a bridge request names: `library_id`, or 0 when it is negative (its low 32
/// bits, as `max(0) as u32` gives).
pub fn bridge_library_id(library_id: i64) -> (r: u32)
    ensures
        library_id < 0 ==> r == 0,
        library_id >= 0 ==> r == library_id as u32,
{
    if library_id < 0 {
        0
    } else {
        #[verifier::truncate]
        (library_id as u32)
    }
}


/// Three members, in order.
pub fn members3_pub(k1: &str, v1: Json, k2: &str, v2: Json, k3: &str, v3: Json) -> (r: Vec<(String, Json)>)
    ensures
        entries_view(r@) == seq![(k1@, v1@), (k2@, v2@), (k3@, v3@)],
{
    members3(k1, v1, k2, v2, k3, v3)
}

/// `v` with `key` set to `value` when it is an object; other values are left alone.
pub open spec fn object_insert_spec(v: JsonV, key: Seq<char>, value: JsonV) -> JsonV {
    match v {
        JsonV::Object(es) => JsonV::Object(insert_spec(es, key, value)),
        other => other,
    }
}

/// Sets a member of an object payload.
pub fn object_insert(v: &mut Json, key: &str, value: Json)
    ensures
        final(v)@ == object_insert_spec(old(v)@, key@, value@),
{
    match v {
        Json::Object(es) => {
            obj_insert(es, key.to_owned(), value);
        },
        _ => {},
    }
}

} // verus!
