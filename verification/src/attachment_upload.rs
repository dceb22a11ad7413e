//! Uploading the attachments of imported items: each plan names an imported item by
//! position; each of its attachments is read (a local file) or downloaded (a URL), skipped
//! when the same file, URL or content was already attached to that item, and saved through
//! the connector otherwise.

use sha2::Digest;
use vstd::prelude::*;

use crate::csl::{is_truthy, py_string, truthy, value_to_python_string};
use crate::json::{entries_view, get_spec, jsons_view, member, opt_view, push_member, Json, JsonV};
use crate::text::{concat_str, push_str, str_eq, strings_contains, strings_view};

verus! {

/// Sends an attachment to the connector; implemented by the HTTP connector client and by test
/// doubles.
pub trait AttachmentConnector {
    /// Saves `content` as an attachment of the item `parent_item_id` of session `session_id`.
    fn save_attachment(
        &mut self,
        port: u16,
        session_id: &str,
        parent_item_id: &str,
        title: &str,
        url: &str,
        content: &[u8],
        timeout_secs: u64,
    ) -> Result<Json, String>;
}

/// Downloads a remote PDF; implemented by the HTTP client and by test doubles.
pub trait RemotePdfFetcher {
    /// The bytes of the PDF at `url`, after waiting `delay_ms`, giving up after `timeout`
    /// seconds.
    fn fetch_remote_pdf(&mut self, url: &str, delay_ms: i64, timeout: i64) -> Result<Vec<u8>, String>;
}

/// Reads local PDFs for attachment: the file system seen by the caller.
pub trait LocalPdfSource {
    /// The key a local path is recognized by: the canonical path, or the path as given when
    /// it has none.
    fn path_key(&mut self, path: &str) -> String;

    /// The bytes of the PDF at `path`, its `file://` URI and its canonical path.
    fn read_local_pdf(&mut self, path: &str) -> Result<(Vec<u8>, String, String), String>;
}

/// The SHA-256 of `content` in lower-case hex.
pub uninterp spec fn sha256_hex_result(content: Seq<u8>) -> Seq<char>;

/// Calls `sha2::Sha256::digest` and formats the digest in lower-case hex; the result is named
/// by `sha256_hex_result`.
#[verifier::external_body]
fn sha256_hex(content: &[u8]) -> (r: String)
    ensures
        r@ == sha256_hex_result(content@),
{
    format!("{:x}", sha2::Sha256::digest(content))
}

/// A normalized attachment descriptor read back from a plan: source type, source, title,
/// delay and timeout.
pub type PlanDescriptor = (Seq<char>, Seq<char>, Seq<char>, i64, i64);

/// An `i64` member, when it is an integer.
pub open spec fn int_member(o: Seq<(Seq<char>, JsonV)>, key: Seq<char>) -> Option<i64> {
    match member(o, key) {
        Some(JsonV::Number(t)) => crate::text::parse_i64_spec(t),
        _ => None,
    }
}

/// A string member.
pub open spec fn str_member(o: Seq<(Seq<char>, JsonV)>, key: Seq<char>) -> Option<Seq<char>> {
    match member(o, key) {
        Some(JsonV::Str(s)) => Some(s),
        _ => None,
    }
}

/// A plan's descriptor: an object with string `source_type`, `source` and `title`, and
/// integer `delay_ms` (0 otherwise) and `timeout` (30 otherwise).
pub open spec fn descriptor_of(raw: JsonV) -> Option<PlanDescriptor> {
    match raw {
        JsonV::Object(o) => match (str_member(o, "source_type"@), str_member(o, "source"@), str_member(o, "title"@)) {
            (Some(t), Some(s), Some(ti)) => Some((t, s, ti,
                match int_member(o, "delay_ms"@) {
                    Some(n) => n,
                    None => 0,
                },
                match int_member(o, "timeout"@) {
                    Some(n) => n,
                    None => 30,
                })),
            _ => None,
        },
        _ => None,
    }
}

/// A descriptor in the library's form.
#[derive(Debug)]
pub struct UploadDescriptor {
    pub source_type: String,
    pub source: String,
    pub title: String,
    pub delay_ms: i64,
    pub timeout: i64,
}

/// View of a descriptor.
pub open spec fn upload_descriptor_view(d: UploadDescriptor) -> PlanDescriptor {
    (d.source_type@, d.source@, d.title@, d.delay_ms, d.timeout)
}

fn str_member_exec(o: &Vec<(String, Json)>, key: &str) -> (r: Option<String>)
    ensures
        match r {
            Some(s) => str_member(entries_view(o@), key@) == Some(s@),
            None => str_member(entries_view(o@), key@) is None,
        },
{
    match crate::json::member_get(o, key) {
        Some(Json::Str(s)) => Some(s.clone()),
        _ => None,
    }
}

fn int_member_exec(o: &Vec<(String, Json)>, key: &str) -> (r: Option<i64>)
    ensures
        r == int_member(entries_view(o@), key@),
{
    match crate::json::member_get(o, key) {
        Some(v) => match v {
            Json::Number(t) => crate::text::parse_i64(t.as_str()),
            _ => None,
        },
        None => None,
    }
}

/// Reads a descriptor back from a plan.
pub fn descriptor_from_value(raw: &Json) -> (r: Option<UploadDescriptor>)
    ensures
        match descriptor_of(raw@) {
            Some(d) => r matches Some(x) && upload_descriptor_view(x) == d,
            None => r is None,
        },
{
    let o = match raw {
        Json::Object(o) => o,
        _ => return None,
    };
    let source_type = match str_member_exec(o, "source_type") {
        Some(s) => s,
        None => return None,
    };
    let source = match str_member_exec(o, "source") {
        Some(s) => s,
        None => return None,
    };
    let title = match str_member_exec(o, "title") {
        Some(s) => s,
        None => return None,
    };
    let delay_ms = match int_member_exec(o, "delay_ms") {
        Some(n) => n,
        None => 0,
    };
    let timeout = match int_member_exec(o, "timeout") {
        Some(n) => n,
        None => 30,
    };
    Some(UploadDescriptor { source_type, source, title, delay_ms, timeout })
}

/// The result of one attachment: the item's position, its connector id, the descriptor's
/// source type, source and title (null without a descriptor), the status, and the error
/// when there is one; members in key order.
pub open spec fn attachment_result_spec(item_index: nat, parent: Option<Seq<char>>, d: Option<PlanDescriptor>, status: Seq<char>, error: Option<Seq<char>>) -> JsonV {
    let head = match error {
        Some(e) => seq![("error"@, JsonV::Str(e))],
        None => Seq::empty(),
    };
    JsonV::Object(head + seq![
        ("item_index"@, JsonV::Number(crate::text::nat_decimal(item_index))),
        ("parent_connector_id"@, match parent {
            Some(p) => JsonV::Str(p),
            None => JsonV::Null,
        }),
        ("source"@, match d {
            Some(x) => JsonV::Str(x.1),
            None => JsonV::Null,
        }),
        ("source_type"@, match d {
            Some(x) => JsonV::Str(x.0),
            None => JsonV::Null,
        }),
        ("status"@, JsonV::Str(status)),
        ("title"@, match d {
            Some(x) => JsonV::Str(x.2),
            None => JsonV::Null,
        }),
    ])
}

fn opt_str_json(o: Option<&str>) -> (r: Json)
    ensures
        r@ == match o {
            Some(s) => JsonV::Str(s@),
            None => JsonV::Null,
        },
{
    match o {
        Some(s) => Json::Str(s.to_owned()),
        None => Json::Null,
    }
}

/// The result of one attachment.
pub fn attachment_result(item_index: usize, parent: Option<&str>, d: &Option<UploadDescriptor>, status: &str, error: Option<&str>) -> (r: Json)
    ensures
        r@ == attachment_result_spec(
            item_index as nat,
            match parent {
                Some(p) => Some(p@),
                None => None,
            },
            match d {
                Some(x) => Some(upload_descriptor_view(*x)),
                None => None,
            },
            status@,
            match error {
                Some(e) => Some(e@),
                None => None,
            },
        ),
{
    let mut m: Vec<(String, Json)> = Vec::new();
    match error {
        Some(e) => push_member(&mut m, "error", Json::Str(e.to_owned())),
        None => {},
    }
    let ghost head = entries_view(m@);
    push_member(&mut m, "item_index", crate::json::json_count(item_index));
    push_member(&mut m, "parent_connector_id", opt_str_json(parent));
    let (source, source_type, title): (Option<&str>, Option<&str>, Option<&str>) = match d {
        Some(x) => (Some(x.source.as_str()), Some(x.source_type.as_str()), Some(x.title.as_str())),
        None => (None, None, None),
    };
    push_member(&mut m, "source", opt_str_json(source));
    push_member(&mut m, "source_type", opt_str_json(source_type));
    push_member(&mut m, "status", Json::Str(status.to_owned()));
    push_member(&mut m, "title", opt_str_json(title));
    proof {
        assert(entries_view(m@) =~= match attachment_result_spec(
            item_index as nat,
            match parent {
                Some(p) => Some(p@),
                None => None,
            },
            match d {
                Some(x) => Some(upload_descriptor_view(*x)),
                None => None,
            },
            status@,
            match error {
                Some(e) => Some(e@),
                None => None,
            },
        ) {
            JsonV::Object(es) => es,
            _ => Seq::empty(),
        });
    }
    Json::Object(m)
}

/// How many results have the given status.
pub open spec fn count_status(rs: Seq<JsonV>, status: Seq<char>) -> nat
    decreases rs.len(),
{
    if rs.len() == 0 {
        0
    } else {
        count_status(rs.drop_last(), status) + if str_member_of(rs.last(), "status"@) == Some(status) {
            1nat
        } else {
            0nat
        }
    }
}

/// A string member of a value, when it is an object.
pub open spec fn str_member_of(v: JsonV, key: Seq<char>) -> Option<Seq<char>> {
    match get_spec(v, key) {
        Some(JsonV::Str(s)) => Some(s),
        _ => None,
    }
}

/// The summary of attachment results: how many were created, failed, planned (all), and
/// skipped as duplicates.
pub open spec fn summary_spec(rs: Seq<JsonV>) -> JsonV {
    JsonV::Object(seq![
        ("created_count"@, JsonV::Number(crate::text::nat_decimal(count_status(rs, "created"@)))),
        ("failed_count"@, JsonV::Number(crate::text::nat_decimal(count_status(rs, "failed"@)))),
        ("planned_count"@, JsonV::Number(crate::text::nat_decimal(rs.len()))),
        ("skipped_count"@, JsonV::Number(crate::text::nat_decimal(count_status(rs, "skipped_duplicate"@)))),
    ])
}

/// How many results have the given status.
pub fn count_status_exec(rs: &Vec<Json>, status: &str) -> (n: usize)
    ensures
        n == count_status(jsons_view(rs@), status@),
{
    let ghost rv = jsons_view(rs@);
    proof {
        crate::json::lemma_jsons_view(rs@);
        assert(rv.subrange(0, 0) =~= Seq::<JsonV>::empty());
    }
    let mut n: usize = 0;
    let mut i: usize = 0;
    while i < rs.len()
        invariant
            i <= rs@.len(),
            rv == jsons_view(rs@),
            rv.len() == rs@.len(),
            forall|k: int| 0 <= k < rs@.len() ==> #[trigger] rv[k] == crate::json::json_view(rs@[k]),
            n == count_status(rv.subrange(0, i as int), status@),
            n <= i,
        decreases rs.len() - i,
    {
        proof {
            assert(rv.subrange(0, i + 1).drop_last() =~= rv.subrange(0, i as int));
            assert(rv.subrange(0, i + 1).last() == rv[i as int]);
        }
        let hit = match rs[i].get("status") {
            Some(Json::Str(s)) => str_eq(s.as_str(), status),
            _ => false,
        };
        if hit {
            n = n + 1;
        }
        i = i + 1;
    }
    proof {
        assert(rv.subrange(0, rv.len() as int) =~= rv);
    }
    n
}

/// The summary of attachment results.
pub fn attachment_summary(results: &Vec<Json>) -> (r: Json)
    ensures
        r@ == summary_spec(jsons_view(results@)),
{
    proof {
        crate::json::lemma_jsons_view(results@);
    }
    let mut m: Vec<(String, Json)> = Vec::new();
    push_member(&mut m, "created_count", crate::json::json_count(count_status_exec(results, "created")));
    push_member(&mut m, "failed_count", crate::json::json_count(count_status_exec(results, "failed")));
    push_member(&mut m, "planned_count", crate::json::json_count(results.len()));
    push_member(&mut m, "skipped_count", crate::json::json_count(count_status_exec(results, "skipped_duplicate")));
    proof {
        assert(entries_view(m@) =~= match summary_spec(jsons_view(results@)) {
            JsonV::Object(es) => es,
            _ => Seq::empty(),
        });
    }
    Json::Object(m)
}

/// The title of an imported item: the first truthy of `title`, `bookTitle` and
/// `publicationTitle`, shown as text; empty when none is.
pub open spec fn item_title_spec(item: JsonV) -> Seq<char> {
    if truthy(get_spec(item, "title"@)) {
        py_string(get_spec(item, "title"@).unwrap())
    } else if truthy(get_spec(item, "bookTitle"@)) {
        py_string(get_spec(item, "bookTitle"@).unwrap())
    } else if truthy(get_spec(item, "publicationTitle"@)) {
        py_string(get_spec(item, "publicationTitle"@).unwrap())
    } else {
        Seq::empty()
    }
}

/// The title of an imported item.
pub fn item_title(item: &Json) -> (r: String)
    ensures
        r@ == item_title_spec(item@),
{
    let t = item.get("title");
    if is_truthy(t) {
        return value_to_python_string(t.unwrap());
    }
    let b = item.get("bookTitle");
    if is_truthy(b) {
        return value_to_python_string(b.unwrap());
    }
    let p = item.get("publicationTitle");
    if is_truthy(p) {
        return value_to_python_string(p.unwrap());
    }
    String::new()
}

/// What has been attached to one imported item so far: local paths, URL keys and content
/// hashes.
#[derive(Debug)]
pub struct ParentDedupe {
    pub paths: Vec<String>,
    pub urls: Vec<String>,
    pub hashes: Vec<String>,
}

/// The value of a de-duplication record.
pub open spec fn dedupe_view(d: ParentDedupe) -> (Seq<Seq<char>>, Seq<Seq<char>>, Seq<Seq<char>>) {
    (strings_view(d.paths@), strings_view(d.urls@), strings_view(d.hashes@))
}

fn push_string(v: &mut Vec<String>, s: String)
    ensures
        strings_view(final(v)@) == strings_view(old(v)@).push(s@),
{
    let ghost sv = s@;
    v.push(s);
    proof {
        assert(strings_view(v@) =~= strings_view(old(v)@).push(sv));
    }
}

/// Uploads one attachment of the item `parent_id`: a file already attached by path, a URL
/// already attached, or content already attached is skipped; otherwise the content is read
/// or downloaded and saved, and recorded.
#[verifier::rlimit(40)]
pub fn upload_descriptor<C: AttachmentConnector, F: RemotePdfFetcher, L: LocalPdfSource>(
    port: u16,
    session_id: &str,
    parent_id: &str,
    d: &UploadDescriptor,
    connector: &mut C,
    fetcher: &mut F,
    local: &mut L,
    state: &mut ParentDedupe,
) -> (r: Result<&'static str, String>)
    ensures
        match r {
            Ok(s) => s@ == "created"@ || s@ == "skipped_duplicate"@,
            Err(_) => true,
        },
        !(r matches Ok(s) && s@ == "created"@) ==> dedupe_view(*final(state)) == dedupe_view(*old(state)),
        (r matches Ok(s) && s@ == "created"@) ==> {
            let (p0, u0, h0) = dedupe_view(*old(state));
            let (p1, u1, h1) = dedupe_view(*final(state));
            &&& h1.len() == h0.len() + 1 && h1.drop_last() == h0 && !h0.contains(h1.last())
            &&& if d.source_type@ == "file"@ {
                p1.len() == p0.len() + 1 && p1.drop_last() == p0 && u1 == u0
            } else {
                u1 == u0.push(crate::import_attachments::normalize_url_spec(d.source@)) && p1 == p0
            }
        },
        d.source_type@ != "file"@ && strings_view(old(state).urls@).contains(crate::import_attachments::normalize_url_spec(d.source@))
            ==> (r matches Ok(s) && s@ == "skipped_duplicate"@),
{
    proof {
        reveal_strlit("created");
        reveal_strlit("skipped_duplicate");
        reveal_strlit("file");
        assert("skipped_duplicate"@ != "created"@) by {
            assert("skipped_duplicate"@.len() != "created"@.len());
        }
    }
    let is_file = str_eq(d.source_type.as_str(), "file");
    let content: Vec<u8>;
    let metadata_url: String;
    let mut path_rec: Option<String> = None;
    let mut url_rec: Option<String> = None;
    if is_file {
        let path_key = local.path_key(d.source.as_str());
        if strings_contains(&state.paths, path_key.as_str()) {
            return Ok("skipped_duplicate");
        }
        match local.read_local_pdf(d.source.as_str()) {
            Ok((c, uri, resolved)) => {
                content = c;
                metadata_url = uri;
                path_rec = Some(resolved);
            },
            Err(e) => return Err(e),
        }
    } else {
        let url_key = crate::import_attachments::normalize_url_for_dedupe(d.source.as_str());
        if strings_contains(&state.urls, url_key.as_str()) {
            return Ok("skipped_duplicate");
        }
        match fetcher.fetch_remote_pdf(d.source.as_str(), d.delay_ms, d.timeout) {
            Ok(c) => {
                content = c;
                metadata_url = d.source.clone();
                url_rec = Some(url_key);
            },
            Err(e) => return Err(e),
        }
    }
    let hash = sha256_hex(content.as_slice());
    if strings_contains(&state.hashes, hash.as_str()) {
        return Ok("skipped_duplicate");
    }
    let timeout_secs: u64 = if d.timeout >= 1 {
        d.timeout as u64
    } else {
        1
    };
    match connector.save_attachment(port, session_id, parent_id, d.title.as_str(), metadata_url.as_str(), content.as_slice(), timeout_secs) {
        Ok(_) => {},
        Err(e) => return Err(e),
    }
    match path_rec {
        Some(p) => push_string(&mut state.paths, p),
        None => {},
    }
    match url_rec {
        Some(u) => push_string(&mut state.urls, u),
        None => {},
    }
    let ghost h0 = strings_view(state.hashes@);
    push_string(&mut state.hashes, hash);
    proof {
        assert(strings_view(state.hashes@).drop_last() =~= h0);
    }
    Ok("created")
}

/// The position a plan names: its `index` when a non-negative integer, else 0.
pub open spec fn plan_index(plan: JsonV) -> u64 {
    match get_spec(plan, "index"@) {
        Some(JsonV::Number(t)) => match crate::text::parse_unsigned_spec(t, u64::MAX as int) {
            Some(x) => x as u64,
            None => 0,
        },
        _ => 0,
    }
}

/// A plan's attachments (none when they are not an array).
pub open spec fn plan_attachments(plan: JsonV) -> Seq<JsonV> {
    match get_spec(plan, "attachments"@) {
        Some(JsonV::Array(xs)) => xs,
        _ => Seq::empty(),
    }
}

/// The connector id of an imported item, shown as text, when it is truthy.
pub open spec fn parent_id_of(item: JsonV) -> Option<Seq<char>> {
    if truthy(get_spec(item, "id"@)) {
        Some(py_string(get_spec(item, "id"@).unwrap()))
    } else {
        None
    }
}

/// Why a plan's attachments cannot be uploaded: no item at its position; a title that is not
/// the expected one; an item without a connector id.
pub open spec fn preflight_spec(item: Option<JsonV>, expected: Option<Seq<char>>, index: nat) -> Option<Seq<char>> {
    let at = crate::text::nat_decimal(index);
    match item {
        None => Some("Import returned no item at index "@ + at),
        Some(it) => {
            let mismatch = match expected {
                Some(e) => item_title_spec(it) != e,
                None => false,
            };
            if mismatch {
                Some("Imported item title mismatch at index "@ + at + ": expected "@
                    + crate::credentials::debug_quoted_result(expected.unwrap()) + ", got "@
                    + crate::credentials::debug_quoted_result(item_title_spec(it)))
            } else if parent_id_of(it) is None {
                Some("Imported item at index "@ + at + " did not include a connector id"@)
            } else {
                None
            }
        },
    }
}

fn parent_id_exec(item: &Json) -> (r: Option<String>)
    ensures
        match r {
            Some(s) => parent_id_of(item@) == Some(s@),
            None => parent_id_of(item@) is None,
        },
{
    let id = item.get("id");
    if is_truthy(id) {
        Some(value_to_python_string(id.unwrap()))
    } else {
        None
    }
}

fn preflight(item: Option<&Json>, expected: Option<&str>, index: usize) -> (r: Option<String>)
    ensures
        match r {
            Some(e) => preflight_spec(opt_view(item), match expected {
                Some(x) => Some(x@),
                None => None,
            }, index as nat) == Some(e@),
            None => preflight_spec(opt_view(item), match expected {
                Some(x) => Some(x@),
                None => None,
            }, index as nat) is None,
        },
{
    let at = crate::text::string_from_chars(&crate::text::u64_decimal(index as u64));
    match item {
        None => Some(concat_str("Import returned no item at index ", at.as_str())),
        Some(it) => {
            let actual = item_title(it);
            match expected {
                Some(e) => if !str_eq(actual.as_str(), e) {
                    let mut m = concat_str("Imported item title mismatch at index ", at.as_str());
                    push_str(&mut m, ": expected ");
                    push_str(&mut m, crate::credentials::debug_quoted(e).as_str());
                    push_str(&mut m, ", got ");
                    push_str(&mut m, crate::credentials::debug_quoted(actual.as_str()).as_str());
                    return Some(m);
                },
                None => {},
            }
            match parent_id_exec(it) {
                None => {
                    let mut m = concat_str("Imported item at index ", at.as_str());
                    push_str(&mut m, " did not include a connector id");
                    Some(m)
                },
                Some(_) => None,
            }
        },
    }
}

/// The first position in `d` whose key is `parent`, if any.
pub open spec fn first_dedupe_index(d: Seq<(String, ParentDedupe)>, parent: Seq<char>) -> Option<int>
    decreases d.len(),
{
    if d.len() == 0 {
        None
    } else if d[0].0@ == parent {
        Some(0)
    } else {
        match first_dedupe_index(d.drop_first(), parent) {
            Some(k) => Some(k + 1),
            None => None,
        }
    }
}

proof fn lemma_first_dedupe_index(d: Seq<(String, ParentDedupe)>, parent: Seq<char>, k: int)
    requires
        0 <= k < d.len(),
        d[k].0@ == parent,
        forall|j: int| 0 <= j < k ==> #[trigger] d[j].0@ != parent,
    ensures
        first_dedupe_index(d, parent) == Some(k),
    decreases k,
{
    if k > 0 {
        assert forall|j: int| 0 <= j < k - 1 implies #[trigger] d.drop_first()[j].0@ != parent by {
            assert(d.drop_first()[j] == d[j + 1]);
        }
        lemma_first_dedupe_index(d.drop_first(), parent, k - 1);
        assert(d[0].0@ != parent);
    }
}

proof fn lemma_first_dedupe_index_none(d: Seq<(String, ParentDedupe)>, parent: Seq<char>)
    requires
        forall|j: int| 0 <= j < d.len() ==> #[trigger] d[j].0@ != parent,
    ensures
        first_dedupe_index(d, parent) is None,
    decreases d.len(),
{
    if d.len() > 0 {
        assert(d[0].0@ != parent);
        assert forall|j: int| 0 <= j < d.len() - 1 implies #[trigger] d.drop_first()[j].0@ != parent by {
            assert(d.drop_first()[j] == d[j + 1]);
        }
        lemma_first_dedupe_index_none(d.drop_first(), parent);
    }
}

fn dedupe_index(dedupe: &Vec<(String, ParentDedupe)>, parent: &str) -> (r: Option<usize>)
    ensures
        match r {
            Some(k) => k < dedupe@.len() && dedupe@[k as int].0@ == parent@
                && first_dedupe_index(dedupe@, parent@) == Some(k as int),
            None => first_dedupe_index(dedupe@, parent@) is None,
        },
{
    let mut i: usize = 0;
    while i < dedupe.len()
        invariant
            i <= dedupe@.len(),
            forall|j: int| 0 <= j < i ==> #[trigger] dedupe@[j].0@ != parent@,
        decreases dedupe.len() - i,
    {
        if str_eq(dedupe[i].0.as_str(), parent) {
            proof {
                lemma_first_dedupe_index(dedupe@, parent@, i as int);
            }
            return Some(i);
        }
        i = i + 1;
    }
    proof {
        assert(i == dedupe@.len());
        let ghost d = dedupe@;
        let ghost p = parent@;
        lemma_first_dedupe_index_none(d, p);
    }
    None
}

/// Takes out the record kept for `parent`: the first entry under that key leaves the list and
/// its record is returned; with no such entry the list stays and an empty record comes back.
fn take_dedupe(dedupe: &mut Vec<(String, ParentDedupe)>, parent: &str) -> (r: ParentDedupe)
    ensures
        match first_dedupe_index(old(dedupe)@, parent@) {
            Some(k) => dedupe_view(r) == dedupe_view(old(dedupe)@[k].1) && final(dedupe)@
                == old(dedupe)@.remove(k),
            None => dedupe_view(r) == (Seq::<Seq<char>>::empty(), Seq::<Seq<char>>::empty(), Seq::<
                Seq<char>,
            >::empty()) && final(dedupe)@ == old(dedupe)@,
        },
{
    match dedupe_index(dedupe, parent) {
        Some(k) => {
            let (_, st) = dedupe.remove(k);
            st
        },
        None => {
            let st = ParentDedupe { paths: Vec::new(), urls: Vec::new(), hashes: Vec::new() };
            proof {
                assert(strings_view(st.paths@) =~= Seq::<Seq<char>>::empty());
                assert(strings_view(st.urls@) =~= Seq::<Seq<char>>::empty());
                assert(strings_view(st.hashes@) =~= Seq::<Seq<char>>::empty());
            }
            st
        },
    }
}

/// Uploads the attachments of one plan, adding one result per attachment to `results`: all
/// failed with the preflight error when the plan's item cannot take attachments; else each
/// created, skipped as a duplicate, or failed with its error (a descriptor that cannot be
/// read back fails as malformed).
#[verifier::rlimit(40)]
pub fn upload_plan<C: AttachmentConnector, F: RemotePdfFetcher, L: LocalPdfSource>(
    port: u16,
    session_id: &str,
    items: &Vec<Json>,
    plan: &Json,
    connector: &mut C,
    fetcher: &mut F,
    local: &mut L,
    dedupe: &mut Vec<(String, ParentDedupe)>,
    results: &mut Vec<Json>,
)
    ensures
        jsons_view(final(results)@).len() == jsons_view(old(results)@).len() + plan_attachments(plan@).len(),
        jsons_view(final(results)@).subrange(0, jsons_view(old(results)@).len() as int) == jsons_view(old(results)@),
        ({
            let index = plan_index(plan@) as usize;
            let item = if (index as int) < items@.len() {
                Some(items@[index as int]@)
            } else {
                None
            };
            let expected = match get_spec(plan@, "expected_title"@) {
                Some(JsonV::Str(e)) => Some(e),
                _ => None,
            };
            match preflight_spec(item, expected, index as nat) {
                Some(err) => jsons_view(final(results)@) == jsons_view(old(results)@) + plan_attachments(plan@).map_values(
                    |raw: JsonV| attachment_result_spec(index as nat, match item {
                        Some(it) => parent_id_of(it),
                        None => None,
                    }, descriptor_of(raw), "failed"@, Some(err))),
                None => true,
            }
        }),
{
    let ghost r0 = jsons_view(results@);
    proof {
        crate::json::lemma_jsons_view(results@);
    }
    let index_u64: u64 = match plan.get("index") {
        Some(Json::Number(t)) => match crate::text::parse_unsigned(t.as_str(), u64::MAX) {
            Some(x) => x,
            None => 0,
        },
        _ => 0,
    };
    let item_index: usize = index_u64 as usize;
    let empty: Vec<Json> = Vec::new();
    let attachments: &Vec<Json> = match plan.get("attachments") {
        Some(Json::Array(xs)) => xs,
        _ => &empty,
    };
    let ghost av = jsons_view(attachments@);
    proof {
        crate::json::lemma_jsons_view(attachments@);
        if !(get_spec(plan@, "attachments"@) matches Some(JsonV::Array(_))) {
            assert(av =~= Seq::<JsonV>::empty());
        }
        assert(av == plan_attachments(plan@));
    }
    let item: Option<&Json> = if item_index < items.len() {
        Some(&items[item_index])
    } else {
        None
    };
    let expected: Option<&str> = match plan.get("expected_title") {
        Some(Json::Str(e)) => Some(e.as_str()),
        _ => None,
    };
    let parent: Option<String> = match item {
        Some(it) => parent_id_exec(it),
        None => None,
    };
    let pre = preflight(item, expected, item_index);
    let mut i: usize = 0;
    match pre {
        Some(err) => {
            while i < attachments.len()
                invariant
                    i <= attachments@.len(),
                    av == jsons_view(attachments@),
                    av.len() == attachments@.len(),
                    forall|k: int| 0 <= k < attachments@.len() ==> #[trigger] av[k] == crate::json::json_view(attachments@[k]),
                    jsons_view(results@) == r0 + av.subrange(0, i as int).map_values(
                        |raw: JsonV| attachment_result_spec(item_index as nat, match parent {
                            Some(p) => Some(p@),
                            None => None,
                        }, descriptor_of(raw), "failed"@, Some(err@))),
                decreases attachments.len() - i,
            {
                let d = descriptor_from_value(&attachments[i]);
                let x = attachment_result(item_index, match &parent {
                    Some(p) => Some(p.as_str()),
                    None => None,
                }, &d, "failed", Some(err.as_str()));
                let ghost xg = x;
                let ghost before = results@;
                results.push(x);
                proof {
                    assert(results@ =~= before + seq![xg]);
                    crate::json::lemma_jsons_view_append(before, seq![xg]);
                    crate::json::lemma_jsons_view(seq![xg]);
                    assert(av[i as int] == attachments@[i as int]@);
                    assert(av.subrange(0, i + 1).map_values(
                        |raw: JsonV| attachment_result_spec(item_index as nat, match parent {
                            Some(p) => Some(p@),
                            None => None,
                        }, descriptor_of(raw), "failed"@, Some(err@))) =~= av.subrange(0, i as int).map_values(
                        |raw: JsonV| attachment_result_spec(item_index as nat, match parent {
                            Some(p) => Some(p@),
                            None => None,
                        }, descriptor_of(raw), "failed"@, Some(err@))).push(xg@));
                }
                i = i + 1;
            }
            proof {
                assert(av.subrange(0, av.len() as int) =~= av);
            }
        },
        None => {
            let parent_id: String = match parent {
                Some(p) => p,
                None => String::new(),
            };
            while i < attachments.len()
                invariant
                    i <= attachments@.len(),
                    jsons_view(results@).len() == r0.len() + i,
                    jsons_view(results@).subrange(0, r0.len() as int) == r0,
                decreases attachments.len() - i,
            {
                let d = descriptor_from_value(&attachments[i]);
                let x = match &d {
                    None => attachment_result(item_index, Some(parent_id.as_str()), &d, "failed", Some("Attachment descriptor is malformed")),
                    Some(desc) => {
                        let mut st = take_dedupe(dedupe, parent_id.as_str());
                        let outcome = upload_descriptor(port, session_id, parent_id.as_str(), desc, connector, fetcher, local, &mut st);
                        dedupe.push((parent_id.clone(), st));
                        match outcome {
                            Ok(status) => attachment_result(item_index, Some(parent_id.as_str()), &d, status, None),
                            Err(e) => attachment_result(item_index, Some(parent_id.as_str()), &d, "failed", Some(e.as_str())),
                        }
                    },
                };
                let ghost xg = x;
                let ghost before = results@;
                results.push(x);
                proof {
                    assert(results@ =~= before + seq![xg]);
                    crate::json::lemma_jsons_view_append(before, seq![xg]);
                    crate::json::lemma_jsons_view(seq![xg]);
                    assert(jsons_view(results@).subrange(0, r0.len() as int) =~= jsons_view(before).subrange(0, r0.len() as int));
                }
                i = i + 1;
            }
        },
    }
}

/// Uploads the attachments of every plan for the items of one connector session: the
/// summary of the results, and the results.
pub fn perform_attachment_upload<C: AttachmentConnector, F: RemotePdfFetcher, L: LocalPdfSource>(
    port: u16,
    session_id: &str,
    items: &Vec<Json>,
    plans: &Vec<Json>,
    connector: &mut C,
    fetcher: &mut F,
    local: &mut L,
) -> (r: (Json, Vec<Json>))
    ensures
        r.0@ == summary_spec(jsons_view(r.1@)),
{
    let mut results: Vec<Json> = Vec::new();
    let mut dedupe: Vec<(String, ParentDedupe)> = Vec::new();
    let mut i: usize = 0;
    while i < plans.len()
        invariant
            i <= plans@.len(),
        decreases plans.len() - i,
    {
        upload_plan(port, session_id, items, &plans[i], connector, fetcher, local, &mut dedupe, &mut results);
        i = i + 1;
    }
    (attachment_summary(&results), results)
}

/// How many results failed.
pub fn count_failed(results: &Vec<Json>) -> (n: usize)
    ensures
        n == count_status(jsons_view(results@), "failed"@),
{
    count_status_exec(results, "failed")
}

} // verus!
