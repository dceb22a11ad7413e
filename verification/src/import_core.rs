//! Importing files and JSON through the Zotero connector: the content goes to a connector
//! session, the session's items are filed under the import target with the given tags, and
//! the planned attachments are uploaded for them.

use vstd::prelude::*;

use crate::add_import::{
    clean_tags, connector_missing, normalize_tags, opt_string, require_connector, tags_array, tags_json,
};
use crate::attachment_plans::{extract_inline_attachment_plans, manifest_spec, read_attachment_manifest};
use crate::attachment_upload::{
    count_status, perform_attachment_upload, summary_spec, AttachmentConnector, LocalPdfSource,
    RemotePdfFetcher,
};
use crate::csl::{is_truthy, truthy};
use crate::error::DomainError;
use crate::import_target::{
    decided_target, default_view, lookup_view, resolve_target, ConnectorImportClient, ImportRuntime, LoggedConnector,
    TargetLookups,
};
use crate::json::{entries_view, get_spec, jsons_view, push_member, Json, JsonV};
use crate::text::{concat_str, lowercase, nat_decimal, strings_view};

verus! {

/// The connector content type of a file, by its extension (any case).
pub open spec fn content_type_spec(path: Seq<char>) -> Seq<char> {
    let ext = lowercase(match crate::add_file::extension_result(path) {
        Some(e) => e,
        None => Seq::empty(),
    });
    if ext == "bib"@ || ext == "bibtex"@ {
        "text/x-bibtex"@
    } else if ext == "ris"@ {
        "application/x-research-info-systems"@
    } else if ext == "enw"@ || ext == "refer"@ {
        "application/x-endnote-refer"@
    } else if ext == "xml"@ || ext == "mods"@ {
        "text/xml"@
    } else if ext == "csv"@ {
        "text/csv"@
    } else {
        "text/plain"@
    }
}

/// The connector content type of a file.
pub fn content_type_for_path(path: &str) -> (r: &'static str)
    ensures
        r@ == content_type_spec(path@),
{
    let raw: String = match crate::add_file::path_extension(path) {
        Some(e) => e,
        None => String::new(),
    };
    let ext = crate::text::to_lowercase(raw.as_str());
    proof {
        assert(raw@ == match crate::add_file::extension_result(path@) {
            Some(x) => x,
            None => Seq::<char>::empty(),
        });
    }
    let e = ext.as_str();
    if crate::text::str_eq(e, "bib") || crate::text::str_eq(e, "bibtex") {
        "text/x-bibtex"
    } else if crate::text::str_eq(e, "ris") {
        "application/x-research-info-systems"
    } else if crate::text::str_eq(e, "enw") || crate::text::str_eq(e, "refer") {
        "application/x-endnote-refer"
    } else if crate::text::str_eq(e, "xml") || crate::text::str_eq(e, "mods") {
        "text/xml"
    } else if crate::text::str_eq(e, "csv") {
        "text/csv"
    } else {
        "text/plain"
    }
}

/// The first truthy of an item's `title`, `bookTitle` and `publicationTitle`, or null.
pub open spec fn project_title(item: JsonV) -> JsonV {
    if truthy(get_spec(item, "title"@)) {
        get_spec(item, "title"@).unwrap()
    } else if truthy(get_spec(item, "bookTitle"@)) {
        get_spec(item, "bookTitle"@).unwrap()
    } else if truthy(get_spec(item, "publicationTitle"@)) {
        get_spec(item, "publicationTitle"@).unwrap()
    } else {
        JsonV::Null
    }
}

/// A member, or null.
pub open spec fn or_null(v: Option<JsonV>) -> JsonV {
    match v {
        Some(x) => x,
        None => JsonV::Null,
    }
}

/// An imported item as the report shows it: its id, type and title.
pub open spec fn project_item_spec(item: JsonV) -> JsonV {
    JsonV::Object(seq![
        ("id"@, or_null(get_spec(item, "id"@))),
        ("itemType"@, or_null(get_spec(item, "itemType"@))),
        ("title"@, project_title(item)),
    ])
}

fn or_null_exec(v: Option<&Json>) -> (r: Json)
    ensures
        r@ == or_null(crate::json::opt_view(v)),
{
    match v {
        Some(x) => x.deep_clone(),
        None => Json::Null,
    }
}

/// An imported item as the report shows it.
pub fn project_item(item: &Json) -> (r: Json)
    ensures
        r@ == project_item_spec(item@),
{
    let t = item.get("title");
    let b = item.get("bookTitle");
    let p = item.get("publicationTitle");
    let title = if is_truthy(t) {
        or_null_exec(t)
    } else if is_truthy(b) {
        or_null_exec(b)
    } else if is_truthy(p) {
        or_null_exec(p)
    } else {
        Json::Null
    };
    let mut m: Vec<(String, Json)> = Vec::new();
    push_member(&mut m, "id", or_null_exec(item.get("id")));
    push_member(&mut m, "itemType", or_null_exec(item.get("itemType")));
    push_member(&mut m, "title", title);
    proof {
        assert(entries_view(m@) =~= match project_item_spec(item@) {
            JsonV::Object(es) => es,
            _ => Seq::empty(),
        });
    }
    Json::Object(m)
}

/// How an import runs: where it lands, its tags, the attachment defaults, the connector
/// timeout, and whether a BibTeX file goes entry by entry.
#[derive(Debug)]
pub struct ImportOptions {
    pub collection_ref: Option<String>,
    pub tags: Vec<String>,
    pub session_collection: Option<String>,
    pub attachment_delay_ms: i64,
    pub attachment_timeout: i64,
    pub connector_timeout_secs: u64,
    pub split_bib: bool,
}

/// `success`, or `partial_success` when an attachment failed.
pub open spec fn upload_status(results: Seq<JsonV>) -> Seq<char> {
    if count_status(results, "failed"@) > 0 {
        "partial_success"@
    } else {
        "success"@
    }
}

/// How many entries a file holds: its BibTeX entries, or one for any other kind of file.
pub open spec fn entry_count_spec(path: Seq<char>, content: Seq<char>) -> nat {
    if content_type_spec(path) == "text/x-bibtex"@ {
        crate::import_normalization::count_bibtex_spec(content)
    } else {
        1
    }
}

/// The report of a file import.
pub open spec fn file_payload_spec(
    path: Seq<char>,
    sid: Seq<char>,
    target: JsonV,
    tags: Seq<Seq<char>>,
    items: Seq<JsonV>,
    results: Seq<JsonV>,
    timeout: nat,
    entry_count: nat,
) -> JsonV {
    JsonV::Object(seq![
        ("action"@, JsonV::Str("import_file"@)),
        ("attachment_results"@, JsonV::Array(results)),
        ("attachment_summary"@, summary_spec(results)),
        ("connector_timeout"@, JsonV::Number(nat_decimal(timeout))),
        ("entry_count"@, JsonV::Number(nat_decimal(entry_count))),
        ("imported_count"@, JsonV::Number(nat_decimal(items.len()))),
        ("items"@, JsonV::Array(items)),
        ("path"@, JsonV::Str(path)),
        ("sessionID"@, JsonV::Str(sid)),
        ("status"@, JsonV::Str(upload_status(results))),
        ("tags"@, tags_json(tags)),
        ("target"@, target),
    ])
}

/// The tree-view reference of a target (empty when it has none).
fn tree_view_exec(target: &Json) -> (r: String)
    ensures
        r@ == crate::add_import::tree_view_of(target@),
{
    match target.get("treeViewID") {
        Some(Json::Str(s)) => s.clone(),
        _ => String::new(),
    }
}

fn u64_json(n: u64) -> (r: Json)
    ensures
        r@ == JsonV::Number(nat_decimal(n as nat)),
{
    Json::Number(crate::text::string_from_chars(&crate::text::u64_decimal(n)))
}

fn str_json(s: &str) -> (r: Json)
    ensures
        r@ == JsonV::Str(s@),
{
    Json::Str(s.to_owned())
}

/// A manifest as plain values (absent, its read error, or its JSON).
pub open spec fn manifest_answer(m: Option<Result<Json, DomainError>>) -> Option<Result<JsonV, Seq<char>>> {
    match m {
        None => None,
        Some(r) => Some(crate::import_target::json_answer(r)),
    }
}

/// The answers a file import works from (a name to quantify over them by).
pub open spec fn file_answers(
    sid: Seq<char>,
    imported: Result<Seq<JsonV>, Seq<char>>,
    selected: Result<JsonV, Seq<char>>,
    updated: Result<JsonV, Seq<char>>,
    results: Seq<JsonV>,
) -> bool {
    true
}

/// The connector requests of a file import and its answer: nothing asked when the connector
/// is missing, the content could not be read, or the manifest could not be read or is
/// malformed (each with its error); a BibTeX file of several entries, when asked to split,
/// goes entry by entry (`split_import_logged`); else the whole content imported in session
/// `sid` with the file's content type, then the session filed, and (when both succeed) the
/// report for the target.
pub open spec fn file_import_logged(
    path: Seq<char>,
    content: Result<Seq<char>, Seq<char>>,
    manifest: Option<Result<JsonV, Seq<char>>>,
    options: ImportOptions,
    available: bool,
    message: Seq<char>,
    port: u16,
    lookups: TargetLookups,
    calls: Seq<crate::import_target::ConnectorCall>,
    r: Result<JsonV, Seq<char>>,
) -> bool {
    let tags = clean_tags(strings_view(options.tags@));
    let timeout = options.connector_timeout_secs;
    let plans: Result<Seq<JsonV>, Seq<char>> = match manifest {
        None => Ok(Seq::empty()),
        Some(Err(m)) => Err(m),
        Some(Ok(raw)) => manifest_spec(raw, options.attachment_delay_ms, options.attachment_timeout),
    };
    if !available {
        calls.len() == 0 && r == Err::<JsonV, Seq<char>>(connector_missing(message))
    } else {
        match content {
            Err(m) => calls.len() == 0 && r == Err::<JsonV, Seq<char>>(m),
            Ok(text) => match plans {
                Err(m) => calls.len() == 0 && r == Err::<JsonV, Seq<char>>(m),
                Ok(ps) => if options.split_bib && content_type_spec(path) == "text/x-bibtex"@
                    && crate::import_normalization::count_bibtex_spec(text) > 1 {
                    split_import_logged(path, text, options, ps.len() > 0, port, import_target_decision(available, options, lookups),
                        calls, r)
                } else {
                    exists|sid: Seq<char>, imported: Result<Seq<JsonV>, Seq<char>>, selected: Result<JsonV, Seq<char>>,
                        updated: Result<JsonV, Seq<char>>, results: Seq<JsonV>|
                        #[trigger] file_answers(sid, imported, selected, updated, results) && {
                            let imp = crate::import_target::ConnectorCall::ImportText {
                                port,
                                content: text,
                                session_id: sid,
                                content_type: content_type_spec(path),
                                timeout,
                                answer: imported,
                            };
                            match imported {
                                Err(m) => calls == seq![imp] && r == Err::<JsonV, Seq<char>>(m),
                                Ok(items) => {
                                    let filing = session_filing_run(port, timeout, tags, import_target_decision(available, options,
                                        lookups), sid, selected, updated);
                                    calls == seq![imp] + filing.0 && match filing.1 {
                                        Err(m) => r == Err::<JsonV, Seq<char>>(m),
                                        Ok(t) => r == Ok::<JsonV, Seq<char>>(file_payload_spec(path, sid, t, tags, items, results,
                                            timeout as nat, entry_count_spec(path, text))),
                                    }
                                },
                            }
                        }
                },
            },
        }
    }
}

/// Imports a file's content through the connector (entry by entry for a BibTeX file of
/// several entries when asked): refused without the connector; the content's read error, or
/// the manifest's, when there is one; else the connector's error or the import's report.
#[verifier::rlimit(60)]
pub fn import_file_with_clients<C: ConnectorImportClient, A: AttachmentConnector, F: RemotePdfFetcher, L: LocalPdfSource>(
    runtime: &mut ImportRuntime,
    path: &str,
    content: Result<String, DomainError>,
    manifest: Option<Result<Json, DomainError>>,
    options: &ImportOptions,
    lookups: &TargetLookups,
    client: &mut LoggedConnector<C>,
    attachment_client: &mut A,
    fetcher: &mut F,
    local: &mut L,
) -> (r: Result<Json, DomainError>)
    ensures
        !old(runtime).connector_available ==> (r matches Err(e) && e.0@ == connector_missing(old(runtime).connector_message@)),
        old(runtime).connector_available ==> (content matches Err(ce) ==> r == Err::<Json, DomainError>(ce)),
        old(runtime).connector_available && content is Ok ==> match manifest {
            Some(Err(me)) => r == Err::<Json, DomainError>(me),
            Some(Ok(raw)) => match manifest_spec(raw@, options.attachment_delay_ms, options.attachment_timeout) {
                Err(m) => r matches Err(e) && e.0@ == m,
                Ok(_) => true,
            },
            None => true,
        },
        match r {
            Ok(x) => !(options.split_bib && content_type_spec(path@) == "text/x-bibtex"@
                && crate::import_normalization::count_bibtex_spec(content->Ok_0@) > 1) ==> exists|sid: Seq<char>, target: JsonV, items: Seq<JsonV>, results: Seq<JsonV>|
                x@ == #[trigger] file_payload_spec(path@, sid, target, clean_tags(strings_view(options.tags@)), items, results,
                    options.connector_timeout_secs as nat, entry_count_spec(path@, content->Ok_0@)),
            Err(_) => true,
        },
        final(client).log@.len() >= old(client).log@.len(),
        final(client).log@.subrange(0, old(client).log@.len() as int) == old(client).log@,
        file_import_logged(path@, crate::add_import::text_answer(content), manifest_answer(manifest), *options,
            old(runtime).connector_available, old(runtime).connector_message@, old(runtime).port, *lookups, final(client).log@.subrange(
            old(client).log@.len() as int, final(client).log@.len() as int), crate::import_target::json_answer(r)),
        final(runtime).connector_available == old(runtime).connector_available,
        final(runtime).connector_message == old(runtime).connector_message,
        final(runtime).port == old(runtime).port,
{
    let ghost c0 = client.log@;
    let ghost port = runtime.port;
    let ghost decided = import_target_decision(runtime.connector_available, *options, *lookups);
    let ghost tagv = clean_tags(strings_view(options.tags@));
    let ghost dummy_json = Err::<JsonV, Seq<char>>(Seq::empty());
    proof {
        crate::add_import::lemma_log_split(c0, Seq::<crate::import_target::ConnectorCall>::empty());
        assert(c0 + Seq::<crate::import_target::ConnectorCall>::empty() =~= c0);
    }
    match require_connector(runtime) {
        Ok(()) => {},
        Err(e) => return Err(e),
    }
    let text = match content {
        Ok(t) => t,
        Err(e) => return Err(e),
    };
    let content_type = content_type_for_path(path);
    let plans: Vec<Json> = match manifest {
        None => Vec::new(),
        Some(Err(e)) => return Err(e),
        Some(Ok(raw)) => match read_attachment_manifest(&raw, options.attachment_delay_ms, options.attachment_timeout) {
            Ok(p) => p,
            Err(e) => return Err(e),
        },
    };
    let is_bib = crate::text::str_eq(content_type, "text/x-bibtex");
    let entry_count: usize = if is_bib {
        crate::import_normalization::count_bibtex_entries(text.as_str())
    } else {
        1
    };
    if options.split_bib && is_bib && entry_count > 1 {
        return import_split_bibtex(runtime, path, text.as_str(), &plans, options, lookups, client, attachment_client, fetcher, local);
    }
    let sid = crate::clock::session_id("import-file", &mut runtime.session_counter);
    let imported = client.import_text(runtime.port, text.as_str(), sid.as_str(), content_type, options.connector_timeout_secs);
    let ghost ia = crate::import_target::items_answer(imported);
    let ghost imp_call = crate::import_target::ConnectorCall::ImportText {
        port,
        content: text@,
        session_id: sid@,
        content_type: content_type_spec(path@),
        timeout: options.connector_timeout_secs,
        answer: ia,
    };
    let items = match imported {
        Ok(v) => v,
        Err(e) => {
            proof {
                assert(client.log@ =~= c0 + seq![imp_call]);
                crate::add_import::lemma_log_split(c0, seq![imp_call]);
                assert(file_answers(sid@, ia, dummy_json, dummy_json, Seq::empty()));
            }
            return Err(e);
        },
    };
    let ghost c1 = client.log@;
    let target_r = resolve_target(runtime, crate::add_file::as_opt_str(&options.collection_ref),
        crate::add_file::as_opt_str(&options.session_collection), lookups, client);
    let ghost sel: Result<JsonV, Seq<char>> = if decided is None {
        choose|answer: Result<JsonV, Seq<char>>|
            client.log@ == c1.push(crate::import_target::ConnectorCall::SelectedCollection { port, timeout: 5, answer })
            && crate::import_target::json_answer(target_r) == #[trigger] crate::import_target::target_from_selection(answer)
    } else {
        dummy_json
    };
    let target = match target_r {
        Ok(t) => t,
        Err(e) => {
            proof {
                let filing = session_filing_run(port, options.connector_timeout_secs, tagv, decided, sid@, sel, dummy_json);
                assert(client.log@ =~= c0 + (seq![imp_call] + filing.0));
                crate::add_import::lemma_log_split(c0, seq![imp_call] + filing.0);
                assert(filing.1 == Err::<JsonV, Seq<char>>(e.0@));
                assert(file_answers(sid@, ia, sel, dummy_json, Seq::empty()));
            }
            return Err(e);
        },
    };
    let tags = normalize_tags(&options.tags);
    let tv = tree_view_exec(&target);
    let ghost tg0 = target@;
    let updated = client.update_session(runtime.port, sid.as_str(), tv.as_str(), &tags, options.connector_timeout_secs);
    let ghost uv = crate::import_target::json_answer(updated);
    let ghost filing = session_filing_run(port, options.connector_timeout_secs, tagv, decided, sid@, sel, uv);
    proof {
        assert(client.log@ =~= c0 + (seq![imp_call] + filing.0));
        crate::add_import::lemma_log_split(c0, seq![imp_call] + filing.0);
    }
    match updated {
        Ok(_) => {},
        Err(e) => {
            proof {
                assert(filing.1 == Err::<JsonV, Seq<char>>(e.0@));
                assert(file_answers(sid@, ia, sel, uv, Seq::empty()));
            }
            return Err(e);
        },
    }
    proof {
        assert(filing.1 == Ok::<JsonV, Seq<char>>(tg0));
    }
    let (summary, results) = perform_attachment_upload(runtime.port, sid.as_str(), &items, &plans, attachment_client, fetcher, local);
    let failed = crate::attachment_upload::count_failed(&results);
    proof {
        crate::json::lemma_jsons_view(items@);
        crate::json::lemma_jsons_view(results@);
    }
    let ghost iv = jsons_view(items@);
    let ghost rv = jsons_view(results@);
    let ghost tg = target@;
    let n_items = items.len();
    let mut m: Vec<(String, Json)> = Vec::new();
    push_member(&mut m, "action", str_json("import_file"));
    push_member(&mut m, "attachment_results", Json::Array(results));
    push_member(&mut m, "attachment_summary", summary);
    push_member(&mut m, "connector_timeout", u64_json(options.connector_timeout_secs));
    push_member(&mut m, "entry_count", crate::json::json_count(entry_count));
    push_member(&mut m, "imported_count", crate::json::json_count(n_items));
    push_member(&mut m, "items", Json::Array(items));
    push_member(&mut m, "path", str_json(path));
    push_member(&mut m, "sessionID", str_json(sid.as_str()));
    push_member(&mut m, "status", str_json(if failed > 0 {
        "partial_success"
    } else {
        "success"
    }));
    push_member(&mut m, "tags", tags_array(&tags));
    push_member(&mut m, "target", target);
    let ghost pv = file_payload_spec(path@, sid@, tg, clean_tags(strings_view(options.tags@)), iv, rv,
        options.connector_timeout_secs as nat, entry_count as nat);
    proof {
        assert(entries_view(m@) =~= match pv {
            JsonV::Object(es) => es,
            _ => Seq::empty(),
        });
    }
    let x = Json::Object(m);
    proof {
        assert(x@ == pv);
        assert(entry_count as nat == entry_count_spec(path@, text@));
        assert(x@ == file_payload_spec(path@, sid@, tg, clean_tags(strings_view(options.tags@)), iv, rv,
            options.connector_timeout_secs as nat, entry_count_spec(path@, text@)));
        assert(ia == Ok::<Seq<JsonV>, Seq<char>>(iv));
        assert(file_answers(sid@, ia, sel, uv, rv));
    }
    Ok(x)
}

/// The first `n` characters of `s` (all when it is shorter).
pub open spec fn take_chars(s: Seq<char>, n: int) -> Seq<char> {
    if n < s.len() {
        s.subrange(0, n)
    } else {
        s
    }
}

/// The record of an entry that could not be imported: a preview of its text, the error and
/// its position.
pub open spec fn failure_spec(index: nat, error: Seq<char>, entry: Seq<char>) -> JsonV {
    JsonV::Object(seq![
        ("entry_preview"@, JsonV::Str(take_chars(entry, 120))),
        ("error"@, JsonV::Str(error)),
        ("index"@, JsonV::Number(nat_decimal(index))),
    ])
}

/// `success` without failures; `error` when nothing was imported; else `partial_success`.
pub open spec fn split_status(imported: nat, failed: nat) -> Seq<char> {
    if failed == 0 {
        "success"@
    } else if imported == 0 {
        "error"@
    } else {
        "partial_success"@
    }
}

/// The report of a BibTeX file imported entry by entry.
pub open spec fn split_payload_spec(
    path: Seq<char>,
    target: JsonV,
    tags: Seq<Seq<char>>,
    items: Seq<JsonV>,
    failures: Seq<JsonV>,
    results: Seq<JsonV>,
    timeout: nat,
    entry_count: nat,
) -> JsonV {
    JsonV::Object(seq![
        ("action"@, JsonV::Str("import_file"@)),
        ("attachment_results"@, JsonV::Array(results)),
        ("attachment_summary"@, summary_spec(results)),
        ("connector_timeout"@, JsonV::Number(nat_decimal(timeout))),
        ("entry_count"@, JsonV::Number(nat_decimal(entry_count))),
        ("failed_count"@, JsonV::Number(nat_decimal(failures.len()))),
        ("failures"@, JsonV::Array(failures)),
        ("imported_count"@, JsonV::Number(nat_decimal(items.len()))),
        ("items"@, JsonV::Array(items)),
        ("path"@, JsonV::Str(path)),
        ("split_bib"@, JsonV::Bool(true)),
        ("status"@, JsonV::Str(split_status(items.len(), failures.len()))),
        ("tags"@, tags_json(tags)),
        ("target"@, target),
    ])
}

fn preview(entry: &str) -> (r: String)
    ensures
        r@ == take_chars(entry@, 120),
{
    let v = crate::text::chars_of(entry);
    let n: usize = if 120 < v.len() {
        120
    } else {
        v.len()
    };
    let r = crate::text::string_from_range(&v, 0, n);
    proof {
        if n == v@.len() {
            assert(v@.subrange(0, n as int) =~= v@);
        }
    }
    r
}

fn push_all(out: &mut Vec<Json>, add: Vec<Json>)
    ensures
        jsons_view(final(out)@) == jsons_view(old(out)@) + jsons_view(add@),
{
    let ghost a0 = out@;
    let mut add = add;
    let ghost av = add@;
    out.append(&mut add);
    proof {
        assert(out@ =~= a0 + av);
        crate::json::lemma_jsons_view_append(a0, av);
    }
}

fn failure_json(index: usize, error: &str, entry: &str) -> (r: Json)
    ensures
        r@ == failure_spec(index as nat, error@, entry@),
{
    let mut m: Vec<(String, Json)> = Vec::new();
    push_member(&mut m, "entry_preview", Json::Str(preview(entry)));
    push_member(&mut m, "error", str_json(error));
    push_member(&mut m, "index", crate::json::json_count(index));
    proof {
        assert(entries_view(m@) =~= match failure_spec(index as nat, error@, entry@) {
            JsonV::Object(es) => es,
            _ => Seq::empty(),
        });
    }
    Json::Object(m)
}

/// The connector requests for one entry of a split import: the entry's text imported in its
/// session, then (when that succeeded) the session filed under the target's tree view.
pub open spec fn split_entry_calls(
    port: u16,
    timeout: u64,
    tree_view: Seq<char>,
    tags: Seq<Seq<char>>,
    entry: Seq<char>,
    sid: Seq<char>,
    imported: Result<Seq<JsonV>, Seq<char>>,
    updated: Result<JsonV, Seq<char>>,
) -> Seq<crate::import_target::ConnectorCall> {
    let imp = crate::import_target::ConnectorCall::ImportText {
        port,
        content: entry,
        session_id: sid,
        content_type: "text/x-bibtex"@,
        timeout,
        answer: imported,
    };
    match imported {
        Err(_) => seq![imp],
        Ok(_) => seq![imp, crate::import_target::ConnectorCall::UpdateSession {
            port,
            session_id: sid,
            target: tree_view,
            tags,
            timeout,
            answer: updated,
        }],
    }
}

/// What one entry ends in: the items imported, or the first error.
pub open spec fn split_entry_outcome(imported: Result<Seq<JsonV>, Seq<char>>, updated: Result<JsonV, Seq<char>>) -> Result<
    Seq<JsonV>,
    Seq<char>,
> {
    match imported {
        Err(m) => Err(m),
        Ok(items) => match updated {
            Err(m) => Err(m),
            Ok(_) => Ok(items),
        },
    }
}

/// The entries of a split import, one after the other (each with its session and answers):
/// the requests made, the items imported, and the failure record of each entry that failed.
pub open spec fn split_run(
    port: u16,
    timeout: u64,
    tree_view: Seq<char>,
    tags: Seq<Seq<char>>,
    entries: Seq<Seq<char>>,
    sids: Seq<Seq<char>>,
    imported: Seq<Result<Seq<JsonV>, Seq<char>>>,
    updated: Seq<Result<JsonV, Seq<char>>>,
) -> (Seq<crate::import_target::ConnectorCall>, Seq<JsonV>, Seq<JsonV>)
    decreases entries.len(),
{
    if entries.len() == 0 {
        (Seq::empty(), Seq::empty(), Seq::empty())
    } else {
        let i = entries.len() - 1;
        let prev = split_run(port, timeout, tree_view, tags, entries.drop_last(), sids.drop_last(), imported.drop_last(),
            updated.drop_last());
        let calls = prev.0 + split_entry_calls(port, timeout, tree_view, tags, entries[i], sids[i], imported[i], updated[i]);
        match split_entry_outcome(imported[i], updated[i]) {
            Ok(items) => (calls, prev.1 + items, prev.2),
            Err(m) => (calls, prev.1, prev.2.push(failure_spec(i as nat, m, entries[i]))),
        }
    }
}

/// The answers a split import works from (a name to quantify over them by).
pub open spec fn split_answers(
    selected: Result<JsonV, Seq<char>>,
    sids: Seq<Seq<char>>,
    imported: Seq<Result<Seq<JsonV>, Seq<char>>>,
    updated: Seq<Result<JsonV, Seq<char>>>,
    results: Seq<JsonV>,
) -> bool {
    true
}

/// The connector requests of a split import and its answer: the target resolved (Zotero asked
/// for its selected collection only when `decided` is `None`), its error if it has one; else
/// each entry of `content` in turn, and the report of the items imported and the entries that
/// failed (attachment results only when there are plans and a single entry).
pub open spec fn split_import_logged(
    path: Seq<char>,
    content: Seq<char>,
    options: ImportOptions,
    with_plans: bool,
    port: u16,
    decided: Option<Result<JsonV, Seq<char>>>,
    calls: Seq<crate::import_target::ConnectorCall>,
    r: Result<JsonV, Seq<char>>,
) -> bool {
    let entries = crate::import_normalization::split_bibtex_spec(content);
    let tags = clean_tags(strings_view(options.tags@));
    let timeout = options.connector_timeout_secs;
    exists|selected: Result<JsonV, Seq<char>>, sids: Seq<Seq<char>>, imported: Seq<Result<Seq<JsonV>, Seq<char>>>,
        updated: Seq<Result<JsonV, Seq<char>>>, results: Seq<JsonV>|
        #[trigger] split_answers(selected, sids, imported, updated, results) && {
            let (asked, target) = match decided {
                Some(d) => (Seq::<crate::import_target::ConnectorCall>::empty(), d),
                None => (
                    seq![crate::import_target::ConnectorCall::SelectedCollection { port, timeout: 5, answer: selected }],
                    crate::import_target::target_from_selection(selected),
                ),
            };
            match target {
                Err(m) => calls == asked && r == Err::<JsonV, Seq<char>>(m),
                Ok(t) => sids.len() == entries.len() && imported.len() == entries.len() && updated.len() == entries.len() && ((
                !with_plans || entries.len() != 1) ==> results.len() == 0) && {
                    let run = split_run(port, timeout, crate::add_import::tree_view_of(t), tags, entries, sids, imported, updated);
                    calls == asked + run.0 && r == Ok::<JsonV, Seq<char>>(split_payload_spec(path, t, tags, run.1, run.2, results,
                        timeout as nat, entries.len()))
                },
            }
        }
}

/// Imports a BibTeX file entry by entry, each in a session of its own filed under the same
/// target: the report of the items imported and the entries that failed (attachments are
/// uploaded only when the file holds a single entry).
#[verifier::rlimit(80)]
#[verifier::spinoff_prover]
pub fn import_split_bibtex<C: ConnectorImportClient, A: AttachmentConnector, F: RemotePdfFetcher, L: LocalPdfSource>(
    runtime: &mut ImportRuntime,
    path: &str,
    content: &str,
    plans: &Vec<Json>,
    options: &ImportOptions,
    lookups: &TargetLookups,
    client: &mut LoggedConnector<C>,
    attachment_client: &mut A,
    fetcher: &mut F,
    local: &mut L,
) -> (r: Result<Json, DomainError>)
    ensures
        match import_target_decision(old(runtime).connector_available, *options, *lookups) {
            Some(Ok(t)) => r matches Ok(x) && exists|items: Seq<JsonV>, failures: Seq<JsonV>, results: Seq<JsonV>|
                x@ == #[trigger] split_payload_spec(path@, t, clean_tags(strings_view(options.tags@)), items, failures, results,
                    options.connector_timeout_secs as nat, crate::import_normalization::split_bibtex_spec(content@).len()),
            Some(Err(m)) => r matches Err(e) && e.0@ == m,
            None => true,
        },
        final(client).log@.len() >= old(client).log@.len(),
        final(client).log@.subrange(0, old(client).log@.len() as int) == old(client).log@,
        split_import_logged(path@, content@, *options, plans@.len() > 0, old(runtime).port, import_target_decision(
            old(runtime).connector_available, *options, *lookups), final(client).log@.subrange(old(client).log@.len() as int,
            final(client).log@.len() as int), crate::import_target::json_answer(r)),
        final(runtime).connector_available == old(runtime).connector_available,
        final(runtime).connector_message == old(runtime).connector_message,
        final(runtime).port == old(runtime).port,
{
    let ghost c0 = client.log@;
    let ghost port = runtime.port;
    let ghost decided = import_target_decision(runtime.connector_available, *options, *lookups);
    let ghost tagv = clean_tags(strings_view(options.tags@));
    let ghost timeout = options.connector_timeout_secs;
    let ghost dummy_json = Err::<JsonV, Seq<char>>(Seq::empty());
    let entries = crate::import_normalization::split_bibtex_entries(content);
    let ghost ev = strings_view(entries@);
    let target_r = resolve_target(runtime, crate::add_file::as_opt_str(&options.collection_ref),
        crate::add_file::as_opt_str(&options.session_collection), lookups, client);
    let ghost sel: Result<JsonV, Seq<char>> = if decided is None {
        choose|answer: Result<JsonV, Seq<char>>|
            client.log@ == c0.push(crate::import_target::ConnectorCall::SelectedCollection { port, timeout: 5, answer })
            && crate::import_target::json_answer(target_r) == #[trigger] crate::import_target::target_from_selection(answer)
    } else {
        dummy_json
    };
    let ghost asked: Seq<crate::import_target::ConnectorCall> = match decided {
        Some(_) => Seq::empty(),
        None => seq![crate::import_target::ConnectorCall::SelectedCollection { port, timeout: 5, answer: sel }],
    };
    proof {
        assert(client.log@ =~= c0 + asked);
        crate::add_import::lemma_log_split(c0, asked);
        assert(split_answers(sel, Seq::empty(), Seq::empty(), Seq::empty(), Seq::empty()));
    }
    let target = match target_r {
        Ok(t) => t,
        Err(e) => return Err(e),
    };
    let tags = normalize_tags(&options.tags);
    let tv = tree_view_exec(&target);
    let ghost tvv = tv@;
    let mut all_items: Vec<Json> = Vec::new();
    let mut failures: Vec<Json> = Vec::new();
    let mut results: Vec<Json> = Vec::new();
    let ghost mut sids: Seq<Seq<char>> = Seq::empty();
    let ghost mut imported: Seq<Result<Seq<JsonV>, Seq<char>>> = Seq::empty();
    let ghost mut updated: Seq<Result<JsonV, Seq<char>>> = Seq::empty();
    let mut index: usize = 0;
    proof {
        assert(ev.subrange(0, 0) =~= Seq::<Seq<char>>::empty());
        assert(all_items@ =~= Seq::<Json>::empty());
        assert(failures@ =~= Seq::<Json>::empty());
    }
    while index < entries.len()
        invariant
            index <= entries@.len(),
            ev == strings_view(entries@),
            ev == crate::import_normalization::split_bibtex_spec(content@),
            sids.len() == index,
            imported.len() == index,
            updated.len() == index,
            runtime.port == port,
            client.log@ == c0 + asked + split_run(port, timeout, tvv, tagv, ev.subrange(0, index as int), sids, imported, updated).0,
            jsons_view(all_items@) == split_run(port, timeout, tvv, tagv, ev.subrange(0, index as int), sids, imported, updated).1,
            jsons_view(failures@) == split_run(port, timeout, tvv, tagv, ev.subrange(0, index as int), sids, imported, updated).2,
            (plans@.len() == 0 || entries@.len() != 1) ==> results@.len() == 0,
            tvv == tv@,
            strings_view(tags@) == tagv,
            timeout == options.connector_timeout_secs,
            runtime.connector_available == old(runtime).connector_available,
            runtime.connector_message == old(runtime).connector_message,
        decreases entries.len() - index,
    {
        let ghost log0 = client.log@;
        let ghost prev = split_run(port, timeout, tvv, tagv, ev.subrange(0, index as int), sids, imported, updated);
        let digits = crate::text::string_from_chars(&crate::text::u64_decimal(index as u64));
        let prefix = concat_str("import-file-part-", digits.as_str());
        let sid = crate::clock::session_id(prefix.as_str(), &mut runtime.session_counter);
        let entry = entries[index].as_str();
        let imp = client.import_text(runtime.port, entry, sid.as_str(), "text/x-bibtex", options.connector_timeout_secs);
        let ghost ia = crate::import_target::items_answer(imp);
        let ghost mut ua = dummy_json;
        let outcome: Result<Vec<Json>, DomainError> = match imp {
            Err(e) => Err(e),
            Ok(items) => {
                let up = client.update_session(runtime.port, sid.as_str(), tv.as_str(), &tags, options.connector_timeout_secs);
                proof {
                    ua = crate::import_target::json_answer(up);
                }
                match up {
                    Err(e) => Err(e),
                    Ok(_) => {
                        if plans.len() > 0 && entries.len() == 1 {
                            let (_, more) = perform_attachment_upload(runtime.port, sid.as_str(), &items, plans, attachment_client, fetcher, local);
                            push_all(&mut results, more);
                        }
                        Ok(items)
                    },
                }
            },
        };
        proof {
            reveal_strlit("text/x-bibtex");
            let step = split_entry_calls(port, timeout, tvv, tagv, ev[index as int], sid@, ia, ua);
            assert(entries@[index as int]@ == ev[index as int]);
            assert(client.log@ =~= log0 + step);
            let ns = sids.push(sid@);
            let ni = imported.push(ia);
            let nu = updated.push(ua);
            let ne = ev.subrange(0, index + 1);
            assert(ne.drop_last() =~= ev.subrange(0, index as int));
            assert(ns.drop_last() =~= sids);
            assert(ni.drop_last() =~= imported);
            assert(nu.drop_last() =~= updated);
            assert(ne[index as int] == ev[index as int]);
            sids = ns;
            imported = ni;
            updated = nu;
            assert(client.log@ =~= c0 + asked + split_run(port, timeout, tvv, tagv, ne, sids, imported, updated).0);
        }
        match outcome {
            Ok(items) => {
                proof {
                    assert(split_entry_outcome(ia, ua) == Ok::<Seq<JsonV>, Seq<char>>(jsons_view(items@)));
                }
                push_all(&mut all_items, items);
            },
            Err(e) => {
                proof {
                    assert(split_entry_outcome(ia, ua) == Err::<Seq<JsonV>, Seq<char>>(e.0@));
                }
                let f = failure_json(index, e.0.as_str(), entry);
                let ghost fg = f;
                let ghost fb = failures@;
                failures.push(f);
                proof {
                    assert(failures@ =~= fb + seq![fg]);
                    crate::json::lemma_jsons_view_append(fb, seq![fg]);
                    crate::json::lemma_jsons_view(seq![fg]);
                    assert(jsons_view(seq![fg]) =~= seq![fg@]);
                    assert(fg@ == failure_spec(index as nat, e.0@, ev[index as int]));
                }
            },
        }
        index = index + 1;
    }
    let summary = crate::attachment_upload::attachment_summary(&results);
    proof {
        crate::json::lemma_jsons_view(all_items@);
        crate::json::lemma_jsons_view(failures@);
        crate::json::lemma_jsons_view(results@);
        assert(ev.subrange(0, entries@.len() as int) =~= ev);
    }
    let ghost iv = jsons_view(all_items@);
    let ghost fv = jsons_view(failures@);
    let ghost rv = jsons_view(results@);
    let ghost tg = target@;
    let n_items = all_items.len();
    let n_failed = failures.len();
    let status: &str = if n_failed == 0 {
        "success"
    } else if n_items == 0 {
        "error"
    } else {
        "partial_success"
    };
    let mut m: Vec<(String, Json)> = Vec::new();
    push_member(&mut m, "action", str_json("import_file"));
    push_member(&mut m, "attachment_results", Json::Array(results));
    push_member(&mut m, "attachment_summary", summary);
    push_member(&mut m, "connector_timeout", u64_json(options.connector_timeout_secs));
    push_member(&mut m, "entry_count", crate::json::json_count(entries.len()));
    push_member(&mut m, "failed_count", crate::json::json_count(n_failed));
    push_member(&mut m, "failures", Json::Array(failures));
    push_member(&mut m, "imported_count", crate::json::json_count(n_items));
    push_member(&mut m, "items", Json::Array(all_items));
    push_member(&mut m, "path", str_json(path));
    push_member(&mut m, "split_bib", Json::Bool(true));
    push_member(&mut m, "status", str_json(status));
    push_member(&mut m, "tags", tags_array(&tags));
    push_member(&mut m, "target", target);
    let ghost pv = split_payload_spec(path@, tg, tagv, iv, fv, rv, options.connector_timeout_secs as nat,
        crate::import_normalization::split_bibtex_spec(content@).len());
    proof {
        assert(entries_view(m@) =~= match pv {
            JsonV::Object(es) => es,
            _ => Seq::empty(),
        });
    }
    let x = Json::Object(m);
    proof {
        assert(x@ == pv);
        assert(split_answers(sel, sids, imported, updated, rv));
        let run = split_run(port, timeout, tvv, tagv, ev, sids, imported, updated);
        assert(client.log@ =~= c0 + (asked + run.0));
        crate::add_import::lemma_log_split(c0, asked + run.0);
    }
    Ok(x)
}

/// The report of a JSON import: the items submitted (each as id, type and title) and how
/// they read.
pub open spec fn json_payload_spec(
    path: Seq<char>,
    sid: Seq<char>,
    target: JsonV,
    tags: Seq<Seq<char>>,
    items: Seq<JsonV>,
    format: Seq<char>,
    results: Seq<JsonV>,
) -> JsonV {
    JsonV::Object(seq![
        ("action"@, JsonV::Str("import_json"@)),
        ("attachment_results"@, JsonV::Array(results)),
        ("attachment_summary"@, summary_spec(results)),
        ("format"@, JsonV::Str(format)),
        ("items"@, JsonV::Array(items.map_values(|i: JsonV| project_item_spec(i)))),
        ("path"@, JsonV::Str(path)),
        ("sessionID"@, JsonV::Str(sid)),
        ("status"@, JsonV::Str(upload_status(results))),
        ("submitted_count"@, JsonV::Number(nat_decimal(items.len()))),
        ("tags"@, tags_json(tags)),
        ("target"@, target),
    ])
}

fn project_items(items: &Vec<Json>) -> (r: Vec<Json>)
    ensures
        jsons_view(r@) == jsons_view(items@).map_values(|i: JsonV| project_item_spec(i)),
{
    let ghost iv = jsons_view(items@);
    proof {
        crate::json::lemma_jsons_view(items@);
    }
    let mut out: Vec<Json> = Vec::new();
    let mut i: usize = 0;
    proof {
        assert(jsons_view(out@) =~= iv.subrange(0, 0).map_values(|i: JsonV| project_item_spec(i)));
    }
    while i < items.len()
        invariant
            i <= items@.len(),
            iv == jsons_view(items@),
            iv.len() == items@.len(),
            forall|k: int| 0 <= k < items@.len() ==> #[trigger] iv[k] == crate::json::json_view(items@[k]),
            jsons_view(out@) == iv.subrange(0, i as int).map_values(|i: JsonV| project_item_spec(i)),
        decreases items.len() - i,
    {
        let x = project_item(&items[i]);
        let ghost xg = x;
        let ghost before = out@;
        out.push(x);
        proof {
            assert(out@ =~= before + seq![xg]);
            crate::json::lemma_jsons_view_append(before, seq![xg]);
            crate::json::lemma_jsons_view(seq![xg]);
            assert(iv[i as int] == items@[i as int]@);
            assert(jsons_view(out@) =~= iv.subrange(0, i + 1).map_values(|i: JsonV| project_item_spec(i)));
        }
        i = i + 1;
    }
    proof {
        assert(iv.subrange(0, iv.len() as int) =~= iv);
    }
    out
}

/// A normalization's outcome as plain values.
pub open spec fn norm_view(r: Result<(Vec<Json>, String), DomainError>) -> Result<(Seq<JsonV>, Seq<char>), Seq<char>> {
    match r {
        Ok((v, f)) => Ok((jsons_view(v@), f@)),
        Err(e) => Err(e.0@),
    }
}

/// What normalizing an import's JSON gives (see `normalize_import_json_payload`): the Crossref
/// work as one connector item; the error of a payload that holds no items; no items; or the
/// items in the payload's mode, each an object, or the error at the first that is not.
pub open spec fn json_normalization(payload: JsonV, r: Result<(Seq<JsonV>, Seq<char>), Seq<char>>) -> bool {
    match crate::import_json::crossref_message(payload) {
        Some(msg) => r matches Ok((v, f)) && f == "crossref"@ && v.len() == 1 && crate::import_json::connector_of(v[0],
            crate::import_json::crossref_csl(msg), 1),
        None => match crate::import_json::raw_items(payload) {
            Err(m) => r == Err::<(Seq<JsonV>, Seq<char>), Seq<char>>(m),
            Ok(items) => if items.len() == 0 {
                r matches Ok((v, f)) && v.len() == 0 && f == "empty"@
            } else {
                crate::import_json::items_outcome(items, r)
            },
        },
    }
}

/// The connector requests of filing a session and where they end: the target resolved (Zotero
/// asked for its selected collection only when `decided` is `None`), then the session filed
/// under the target's tree view with `tags`; the first failure, or the target.
pub open spec fn session_filing_run(
    port: u16,
    timeout: u64,
    tags: Seq<Seq<char>>,
    decided: Option<Result<JsonV, Seq<char>>>,
    sid: Seq<char>,
    selected: Result<JsonV, Seq<char>>,
    updated: Result<JsonV, Seq<char>>,
) -> (Seq<crate::import_target::ConnectorCall>, Result<JsonV, Seq<char>>) {
    let (asked, target) = match decided {
        Some(d) => (Seq::<crate::import_target::ConnectorCall>::empty(), d),
        None => (
            seq![crate::import_target::ConnectorCall::SelectedCollection { port, timeout: 5, answer: selected }],
            crate::import_target::target_from_selection(selected),
        ),
    };
    match target {
        Err(m) => (asked, Err(m)),
        Ok(t) => (asked.push(crate::import_target::ConnectorCall::UpdateSession {
            port,
            session_id: sid,
            target: crate::add_import::tree_view_of(t),
            tags,
            timeout,
            answer: updated,
        }), match updated {
            Err(m) => Err(m),
            Ok(_) => Ok(t),
        }),
    }
}

/// Where an import of the given options lands (see `decided_target`).
pub open spec fn import_target_decision(available: bool, options: ImportOptions, lookups: TargetLookups) -> Option<
    Result<JsonV, Seq<char>>,
> {
    decided_target(available, crate::add_import::opt_string(options.collection_ref), crate::add_import::opt_string(
        options.session_collection), lookup_view(lookups.collection), default_view(lookups.default_library))
}

/// The answers a JSON import works from (a name to quantify over them by).
pub open spec fn json_answers(
    sid: Seq<char>,
    saved: Result<(), Seq<char>>,
    selected: Result<JsonV, Seq<char>>,
    updated: Result<JsonV, Seq<char>>,
    results: Seq<JsonV>,
) -> bool {
    true
}

/// The connector requests of a JSON import and its answer: nothing asked when the connector
/// is missing, the content could not be read, the payload does not normalize, or its inline
/// attachments are malformed (each with its error); else the items saved in session `sid`,
/// then the session filed, and (when both succeed) the report for the target.
pub open spec fn json_import_logged(
    path: Seq<char>,
    raw: Result<JsonV, Seq<char>>,
    options: ImportOptions,
    available: bool,
    message: Seq<char>,
    port: u16,
    lookups: TargetLookups,
    calls: Seq<crate::import_target::ConnectorCall>,
    r: Result<JsonV, Seq<char>>,
) -> bool {
    if !available {
        calls.len() == 0 && r == Err::<JsonV, Seq<char>>(connector_missing(message))
    } else {
        match raw {
            Err(m) => calls.len() == 0 && r == Err::<JsonV, Seq<char>>(m),
            Ok(p) => exists|norm: Result<(Seq<JsonV>, Seq<char>), Seq<char>>|
                #[trigger] json_normalization(p, norm) && match norm {
                    Err(m) => calls.len() == 0 && r == Err::<JsonV, Seq<char>>(m),
                    Ok((with, format)) => match crate::attachment_plans::inline_plans_spec(with, with.len() as int,
                        options.attachment_delay_ms, options.attachment_timeout) {
                        Err(m) => calls.len() == 0 && r == Err::<JsonV, Seq<char>>(m),
                        Ok((items, plans)) => exists|sid: Seq<char>, saved: Result<(), Seq<char>>, selected: Result<JsonV, Seq<char>>,
                            updated: Result<JsonV, Seq<char>>, results: Seq<JsonV>|
                            #[trigger] json_answers(sid, saved, selected, updated, results) && {
                                let save = crate::import_target::ConnectorCall::SaveItems {
                                    port,
                                    items,
                                    session_id: sid,
                                    timeout: options.connector_timeout_secs,
                                    answer: saved,
                                };
                                let filing = session_filing_run(port, options.connector_timeout_secs, clean_tags(
                                    strings_view(options.tags@)), import_target_decision(available, options, lookups), sid, selected,
                                    updated);
                                match saved {
                                    Err(m) => calls == seq![save] && r == Err::<JsonV, Seq<char>>(m),
                                    Ok(_) => calls == seq![save] + filing.0 && match filing.1 {
                                        Err(m) => r == Err::<JsonV, Seq<char>>(m),
                                        Ok(t) => r == Ok::<JsonV, Seq<char>>(json_payload_spec(path, sid, t, clean_tags(
                                            strings_view(options.tags@)), items, format, results)),
                                    },
                                }
                            },
                    },
                },
        }
    }
}

/// Imports a JSON file's items (already parsed) through the connector: refused without the
/// connector; the parse error; the payload's and the attachments' errors; else the
/// connector's error or the import's report.
#[verifier::rlimit(60)]
pub fn import_json_with_clients<C: ConnectorImportClient, A: AttachmentConnector, F: RemotePdfFetcher, L: LocalPdfSource>(
    runtime: &mut ImportRuntime,
    path: &str,
    raw: Result<Json, DomainError>,
    options: &ImportOptions,
    lookups: &TargetLookups,
    client: &mut LoggedConnector<C>,
    attachment_client: &mut A,
    fetcher: &mut F,
    local: &mut L,
) -> (r: Result<Json, DomainError>)
    ensures
        !old(runtime).connector_available ==> (r matches Err(e) && e.0@ == connector_missing(old(runtime).connector_message@)),
        old(runtime).connector_available ==> (raw matches Err(re) ==> r == Err::<Json, DomainError>(re)),
        match r {
            Ok(x) => exists|sid: Seq<char>, target: JsonV, items: Seq<JsonV>, format: Seq<char>, results: Seq<JsonV>|
                x@ == #[trigger] json_payload_spec(path@, sid, target, clean_tags(strings_view(options.tags@)), items, format, results),
            Err(_) => true,
        },
        final(client).log@.len() >= old(client).log@.len(),
        final(client).log@.subrange(0, old(client).log@.len() as int) == old(client).log@,
        json_import_logged(path@, crate::import_target::json_answer(raw), *options, old(runtime).connector_available,
            old(runtime).connector_message@, old(runtime).port, *lookups, final(client).log@.subrange(old(client).log@.len() as int,
            final(client).log@.len() as int), crate::import_target::json_answer(r)),
        final(runtime).connector_available == old(runtime).connector_available,
        final(runtime).connector_message == old(runtime).connector_message,
        final(runtime).port == old(runtime).port,
{
    let ghost c0 = client.log@;
    let ghost avail = runtime.connector_available;
    let ghost port = runtime.port;
    let ghost decided = import_target_decision(runtime.connector_available, *options, *lookups);
    let ghost tagv = clean_tags(strings_view(options.tags@));
    proof {
        crate::add_import::lemma_log_split(c0, Seq::<crate::import_target::ConnectorCall>::empty());
        assert(c0 + Seq::<crate::import_target::ConnectorCall>::empty() =~= c0);
    }
    match require_connector(runtime) {
        Ok(()) => {},
        Err(e) => return Err(e),
    }
    let payload = match raw {
        Ok(v) => v,
        Err(e) => return Err(e),
    };
    let normalized = crate::import_json::normalize_import_json_payload(&payload);
    let ghost norm = norm_view(normalized);
    proof {
        if normalized is Ok {
            crate::json::lemma_jsons_view(normalized->Ok_0.0@);
        }
        assert(json_normalization(payload@, norm));
    }
    let (with_attachments, format) = match normalized {
        Ok(x) => x,
        Err(e) => return Err(e),
    };
    let (items, inline_plans) = match extract_inline_attachment_plans(&with_attachments, options.attachment_delay_ms, options.attachment_timeout) {
        Ok(x) => x,
        Err(e) => return Err(e),
    };
    let sid = crate::clock::session_id("import-json", &mut runtime.session_counter);
    let ghost iv0 = jsons_view(items@);
    let ghost dummy_json = Err::<JsonV, Seq<char>>(Seq::empty());
    let saved = client.save_items(runtime.port, &items, sid.as_str(), options.connector_timeout_secs);
    let ghost sv = crate::import_target::done_answer(saved);
    let ghost save_call = crate::import_target::ConnectorCall::SaveItems {
        port,
        items: iv0,
        session_id: sid@,
        timeout: options.connector_timeout_secs,
        answer: sv,
    };
    match saved {
        Ok(()) => {},
        Err(e) => {
            proof {
                let filing = session_filing_run(port, options.connector_timeout_secs, tagv, decided, sid@, dummy_json, dummy_json);
                assert(client.log@ =~= c0 + seq![save_call]);
                crate::add_import::lemma_log_split(c0, seq![save_call]);
                assert(json_answers(sid@, sv, dummy_json, dummy_json, Seq::empty()));
            }
            return Err(e);
        },
    }
    let ghost c1 = client.log@;
    let target_r = resolve_target(runtime, crate::add_file::as_opt_str(&options.collection_ref),
        crate::add_file::as_opt_str(&options.session_collection), lookups, client);
    let ghost sel: Result<JsonV, Seq<char>> = if decided is None {
        choose|answer: Result<JsonV, Seq<char>>|
            client.log@ == c1.push(crate::import_target::ConnectorCall::SelectedCollection { port, timeout: 5, answer })
            && crate::import_target::json_answer(target_r) == #[trigger] crate::import_target::target_from_selection(answer)
    } else {
        dummy_json
    };
    let target = match target_r {
        Ok(t) => t,
        Err(e) => {
            proof {
                let filing = session_filing_run(port, options.connector_timeout_secs, tagv, decided, sid@, sel, dummy_json);
                assert(client.log@ =~= c0 + (seq![save_call] + filing.0));
                crate::add_import::lemma_log_split(c0, seq![save_call] + filing.0);
                assert(filing.1 == Err::<JsonV, Seq<char>>(e.0@));
                assert(json_answers(sid@, sv, sel, dummy_json, Seq::empty()));
            }
            return Err(e);
        },
    };
    let tags = normalize_tags(&options.tags);
    let tv = tree_view_exec(&target);
    let ghost tg0 = target@;
    let updated = client.update_session(runtime.port, sid.as_str(), tv.as_str(), &tags, options.connector_timeout_secs);
    let ghost uv = crate::import_target::json_answer(updated);
    let ghost filing = session_filing_run(port, options.connector_timeout_secs, tagv, decided, sid@, sel, uv);
    proof {
        assert(client.log@ =~= c0 + (seq![save_call] + filing.0));
        crate::add_import::lemma_log_split(c0, seq![save_call] + filing.0);
    }
    match updated {
        Ok(_) => {},
        Err(e) => {
            proof {
                assert(filing.1 == Err::<JsonV, Seq<char>>(e.0@));
                assert(json_answers(sid@, sv, sel, uv, Seq::empty()));
            }
            return Err(e);
        },
    }
    proof {
        assert(filing.1 == Ok::<JsonV, Seq<char>>(tg0));
    }
    let (summary, results) = perform_attachment_upload(runtime.port, sid.as_str(), &items, &inline_plans, attachment_client, fetcher, local);
    let failed = crate::attachment_upload::count_failed(&results);
    proof {
        crate::json::lemma_jsons_view(items@);
        crate::json::lemma_jsons_view(results@);
    }
    let ghost iv = jsons_view(items@);
    let ghost rv = jsons_view(results@);
    let ghost tg = target@;
    let projected = project_items(&items);
    proof {
        crate::json::lemma_jsons_view(projected@);
    }
    let mut m: Vec<(String, Json)> = Vec::new();
    push_member(&mut m, "action", str_json("import_json"));
    push_member(&mut m, "attachment_results", Json::Array(results));
    push_member(&mut m, "attachment_summary", summary);
    push_member(&mut m, "format", str_json(format.as_str()));
    push_member(&mut m, "items", Json::Array(projected));
    push_member(&mut m, "path", str_json(path));
    push_member(&mut m, "sessionID", str_json(sid.as_str()));
    push_member(&mut m, "status", str_json(if failed > 0 {
        "partial_success"
    } else {
        "success"
    }));
    push_member(&mut m, "submitted_count", crate::json::json_count(items.len()));
    push_member(&mut m, "tags", tags_array(&tags));
    push_member(&mut m, "target", target);
    let ghost pv = json_payload_spec(path@, sid@, tg, clean_tags(strings_view(options.tags@)), iv, format@, rv);
    proof {
        assert(entries_view(m@) =~= match pv {
            JsonV::Object(es) => es,
            _ => Seq::empty(),
        });
    }
    let x = Json::Object(m);
    proof {
        assert(x@ == pv);
        assert(iv == iv0);
        assert(crate::import_target::json_answer(Ok::<Json, DomainError>(x)) == Ok::<JsonV, Seq<char>>(json_payload_spec(path@, sid@,
            tg, tagv, iv0, format@, rv)));
        assert(json_answers(sid@, sv, sel, uv, rv));
    }
    Ok(x)
}

} // verus!
