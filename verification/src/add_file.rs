//! Adding a file, a PDF, a web page, an arXiv paper or a URL: which path an input takes, and
//! the payloads each path answers with.

use vstd::prelude::*;

use crate::add_import::{
    clean_tags, get_or_null, import_doi_with_clients, member_or_null, opt_str, opt_string, payload_spec, result_payload,
    str_or_null, log_extends, AddImportBridge, AddImportFetcher, AddImportOptions, LoggedBridge, LoggedFetcher,
};
use crate::bridge::{opt_json, BridgeResponse};
use crate::error::DomainError;
use crate::import_target::{ConnectorImportClient, ImportRuntime, LoggedConnector, TargetLookups};
use crate::json::{entries_view, get_spec, jsons_view, Json, JsonV};
use crate::credentials::{debug_quoted, debug_quoted_result};
use crate::text::{chars_of, concat_str, lowercase, push_char, str_eq, str_is_empty, strings_view, to_lowercase, trim, trim_str};

verus! {

/// What `Path::file_stem` gives for a path, as text (`None` also when it is not valid text).
pub uninterp spec fn file_stem_result(path: Seq<char>) -> Option<Seq<char>>;

/// What `Path::extension` gives for a path, as text.
pub uninterp spec fn extension_result(path: Seq<char>) -> Option<Seq<char>>;

/// Calls `std::path::Path::file_stem` and `OsStr::to_str`.
#[verifier::external_body]
pub fn path_file_stem(path: &str) -> (r: Option<String>)
    ensures
        opt_string(r) == file_stem_result(path@),
{
    std::path::Path::new(path).file_stem().and_then(|s| s.to_str()).map(|s| s.to_string())
}

/// Calls `std::path::Path::extension` and `OsStr::to_str`.
#[verifier::external_body]
pub fn path_extension(path: &str) -> (r: Option<String>)
    ensures
        opt_string(r) == extension_result(path@),
{
    std::path::Path::new(path).extension().and_then(|s| s.to_str()).map(|s| s.to_string())
}

/// `s` with each `_` replaced by `/`.
pub open spec fn underscores_to_slashes(s: Seq<char>) -> Seq<char> {
    s.map_values(|c: char| if c == '_' { '/' } else { c })
}

fn underscores_to_slashes_exec(s: &str) -> (r: String)
    ensures
        r@ == underscores_to_slashes(s@),
{
    let v = chars_of(s);
    let mut out = String::new();
    let mut i: usize = 0;
    while i < v.len()
        invariant
            i <= v@.len(),
            v@ == s@,
            out@ == underscores_to_slashes(s@).subrange(0, i as int),
        decreases v.len() - i,
    {
        let c = if v[i] == '_' { '/' } else { v[i] };
        push_char(&mut out, c);
        proof {
            assert(out@ =~= underscores_to_slashes(s@).subrange(0, i + 1));
        }
        i = i + 1;
    }
    proof {
        assert(underscores_to_slashes(s@).subrange(0, v@.len() as int) =~= underscores_to_slashes(s@));
    }
    out
}

/// The DOI-in-text pattern of file names and URLs.
pub open spec fn doi_text_pattern() -> Seq<char> {
    "10\\.\\d{4,9}/[^\\s]+"@
}

/// The DOI a text shows: its first DOI-like part, normalised.
pub open spec fn doi_in_text(text: Seq<char>) -> Option<Seq<char>> {
    match crate::pattern::regex_matches_result(doi_text_pattern(), text) {
        Some(ms) => if ms.len() > 0 {
            Some(crate::import_normalization::normalize_doi_spec(Some(ms[0])))
        } else {
            None
        },
        None => None,
    }
}

/// The DOI a text shows.
pub fn find_doi_in_text(text: &str) -> (r: Option<String>)
    ensures
        opt_string(r) == doi_in_text(text@),
{
    match crate::pattern::regex_matches("10\\.\\d{4,9}/[^\\s]+", text) {
        Some(ms) => {
            proof {
                assert(strings_view(ms@).len() == ms@.len());
            }
            if ms.len() > 0 {
                Some(crate::import_normalization::normalize_doi(Some(ms[0].as_str())))
            } else {
                None
            }
        },
        None => None,
    }
}

/// The DOI a PDF's file name shows (underscores read as slashes), when it is a DOI.
pub open spec fn pdf_name_doi(source: Seq<char>) -> Option<Seq<char>> {
    let stem = match file_stem_result(source) {
        Some(s) => s,
        None => Seq::empty(),
    };
    match doi_in_text(underscores_to_slashes(stem)) {
        Some(d) => if crate::pattern::regex_is_match_result(crate::add_import::doi_pattern(), d) == Some(true) {
            Some(d)
        } else {
            None
        },
        None => None,
    }
}

/// The members of the payload for a PDF whose DOI was imported.
pub open spec fn pdf_attached_members(source: Seq<char>, doi: Seq<char>, key: Seq<char>, imported: JsonV,
    attach_data: Option<JsonV>) -> Seq<(Seq<char>, JsonV)> {
    seq![
        ("path"@, JsonV::Str(source)),
        ("kind"@, JsonV::Str("pdf"@)),
        ("DOI"@, JsonV::Str(doi)),
        ("key"@, JsonV::Str(key)),
        ("title"@, member_or_null(imported, "title"@)),
        ("import_result"@, imported),
        ("attach_result"@, match attach_data {
            Some(d) => d,
            None => JsonV::Null,
        }),
    ]
}

/// The payload for a PDF whose DOI was imported, with the PDF attached or not.
pub open spec fn pdf_attached_spec(source: Seq<char>, doi: Seq<char>, key: Seq<char>, imported: JsonV, attach_ok: bool,
    attach_error: Option<Seq<char>>, attach_data: Option<JsonV>) -> JsonV {
    if attach_ok {
        payload_spec("add_file"@, true, "success"@, Some("IMPORTED_WITH_PDF"@), attach_error,
            pdf_attached_members(source, doi, key, imported, attach_data))
    } else {
        payload_spec("add_file"@, true, "partial_success"@, Some("IMPORTED_ATTACH_FAILED"@), attach_error,
            pdf_attached_members(source, doi, key, imported, attach_data))
    }
}

/// The payload for a PDF imported as a standalone attachment.
pub open spec fn standalone_spec(source: Seq<char>, data: JsonV, title: Seq<char>) -> JsonV {
    payload_spec("add_file"@, true, "success"@, Some("ATTACHED_STANDALONE"@), None, seq![
        ("path"@, JsonV::Str(source)),
        ("kind"@, JsonV::Str("pdf"@)),
        ("key"@, member_or_null(data, "key"@)),
        ("title"@, match get_spec(data, "title"@) {
            Some(t) => t,
            None => JsonV::Str(title),
        }),
        ("source"@, JsonV::Str("attachment-import"@)),
    ])
}

/// The payload for a PDF that could not be imported.
pub open spec fn pdf_failed_spec(source: Seq<char>, error: Option<Seq<char>>) -> JsonV {
    payload_spec("add_file"@, false, "error"@, Some("PDF_IMPORT_FAILED"@), error, seq![("path"@, JsonV::Str(source))])
}

/// What a standalone import answered: its data and whether it succeeded.
pub open spec fn standalone_ok(ok: bool, data: Option<JsonV>) -> bool {
    ok && get_spec(match data {
        Some(d) => d,
        None => JsonV::Null,
    }, "ok"@) == Some(JsonV::Bool(true))
}

/// Why a standalone import failed: the transport's error, else the data's `error` text.
pub open spec fn standalone_error(error: Option<Seq<char>>, data: Option<JsonV>) -> Option<Seq<char>> {
    match error {
        Some(e) => Some(e),
        None => match get_spec(match data {
            Some(d) => d,
            None => JsonV::Null,
        }, "error"@) {
            Some(JsonV::Str(e)) => Some(e),
            _ => None,
        },
    }
}

fn seven(k1: &str, v1: Json, k2: &str, v2: Json, k3: &str, v3: Json, k4: &str, v4: Json, k5: &str, v5: Json,
    k6: &str, v6: Json, k7: &str, v7: Json) -> (r: Vec<(String, Json)>)
    ensures
        entries_view(r@) == seq![(k1@, v1@), (k2@, v2@), (k3@, v3@), (k4@, v4@), (k5@, v5@), (k6@, v6@), (k7@, v7@)],
{
    let mut m: Vec<(String, Json)> = Vec::new();
    m.push((k1.to_owned(), v1));
    m.push((k2.to_owned(), v2));
    m.push((k3.to_owned(), v3));
    m.push((k4.to_owned(), v4));
    m.push((k5.to_owned(), v5));
    m.push((k6.to_owned(), v6));
    m.push((k7.to_owned(), v7));
    proof {
        reveal_with_fuel(entries_view, 8);
        assert(entries_view(m@) =~= seq![(k1@, v1@), (k2@, v2@), (k3@, v3@), (k4@, v4@), (k5@, v5@), (k6@, v6@), (k7@, v7@)]);
    }
    m
}

fn five(k1: &str, v1: Json, k2: &str, v2: Json, k3: &str, v3: Json, k4: &str, v4: Json, k5: &str, v5: Json) -> (r: Vec<(String, Json)>)
    ensures
        entries_view(r@) == seq![(k1@, v1@), (k2@, v2@), (k3@, v3@), (k4@, v4@), (k5@, v5@)],
{
    let mut m: Vec<(String, Json)> = Vec::new();
    m.push((k1.to_owned(), v1));
    m.push((k2.to_owned(), v2));
    m.push((k3.to_owned(), v3));
    m.push((k4.to_owned(), v4));
    m.push((k5.to_owned(), v5));
    proof {
        reveal_with_fuel(entries_view, 6);
        assert(entries_view(m@) =~= seq![(k1@, v1@), (k2@, v2@), (k3@, v3@), (k4@, v4@), (k5@, v5@)]);
    }
    m
}

fn one(k1: &str, v1: Json) -> (r: Vec<(String, Json)>)
    ensures
        entries_view(r@) == seq![(k1@, v1@)],
{
    let mut m: Vec<(String, Json)> = Vec::new();
    m.push((k1.to_owned(), v1));
    proof {
        reveal_with_fuel(entries_view, 2);
        assert(entries_view(m@) =~= seq![(k1@, v1@)]);
    }
    m
}

fn opt_clone(o: &Option<String>) -> (r: Option<String>)
    ensures
        opt_string(r) == opt_string(*o),
{
    match o {
        Some(s) => Some(s.clone()),
        None => None,
    }
}

/// The payload for a PDF whose DOI was imported.
pub fn pdf_attached_payload(source: &str, doi: &str, key: &str, imported: Json, attach: &BridgeResponse) -> (r: Json)
    ensures
        r@ == pdf_attached_spec(source@, doi@, key@, imported@, attach.ok, opt_string(attach.error), opt_json(attach.data)),
{
    let data = match &attach.data {
        Some(d) => d.deep_clone(),
        None => Json::Null,
    };
    assert(data@ == match opt_json(attach.data) {
        Some(d) => d,
        None => JsonV::Null,
    });
    let title = get_or_null(&imported, "title");
    let ghost iv = imported@;
    let extra = seven(
        "path", Json::Str(source.to_owned()),
        "kind", Json::Str("pdf".to_owned()),
        "DOI", Json::Str(doi.to_owned()),
        "key", Json::Str(key.to_owned()),
        "title", title,
        "import_result", imported,
        "attach_result", data,
    );
    let err = opt_clone(&attach.error);
    let e = match &err {
        Some(x) => Some(x.as_str()),
        None => None,
    };
    proof {
        assert(opt_str(e) == opt_string(attach.error));
        assert(entries_view(extra@) =~= pdf_attached_members(source@, doi@, key@, iv, opt_json(attach.data)));
    }
    if attach.ok {
        result_payload("add_file", true, "success", Some("IMPORTED_WITH_PDF"), e, extra)
    } else {
        result_payload("add_file", true, "partial_success", Some("IMPORTED_ATTACH_FAILED"), e, extra)
    }
}

/// The payload of a standalone PDF import: a success when the bridge says so, else the
/// failure.
pub fn standalone_payload(source: &str, title: &str, transport: &BridgeResponse) -> (r: Json)
    ensures
        r@ == if standalone_ok(transport.ok, opt_json(transport.data)) {
            standalone_spec(source@, match opt_json(transport.data) {
                Some(d) => d,
                None => JsonV::Null,
            }, title@)
        } else {
            pdf_failed_spec(source@, standalone_error(opt_string(transport.error), opt_json(transport.data)))
        },
{
    let data = match &transport.data {
        Some(d) => d.deep_clone(),
        None => Json::Null,
    };
    let ghost dv = match opt_json(transport.data) {
        Some(d) => d,
        None => JsonV::Null,
    };
    assert(data@ == dv);
    let data_ok = match data.get("ok") {
        Some(Json::Bool(b)) => *b,
        _ => false,
    };
    assert(data_ok == (get_spec(dv, "ok"@) == Some(JsonV::Bool(true))));
    if transport.ok && data_ok {
        let t = match data.get("title") {
            Some(x) => x.deep_clone(),
            None => Json::Str(title.to_owned()),
        };
        assert(t@ == match get_spec(dv, "title"@) {
            Some(x) => x,
            None => JsonV::Str(title@),
        });
        let extra = five(
            "path", Json::Str(source.to_owned()),
            "kind", Json::Str("pdf".to_owned()),
            "key", get_or_null(&data, "key"),
            "title", t,
            "source", Json::Str("attachment-import".to_owned()),
        );
        assert(entries_view(extra@) == seq![
            ("path"@, JsonV::Str(source@)),
            ("kind"@, JsonV::Str("pdf"@)),
            ("key"@, member_or_null(dv, "key"@)),
            ("title"@, match get_spec(dv, "title"@) {
                Some(t) => t,
                None => JsonV::Str(title@),
            }),
            ("source"@, JsonV::Str("attachment-import"@)),
        ]);
        let r = result_payload("add_file", true, "success", Some("ATTACHED_STANDALONE"), None, extra);
        proof {
            assert(standalone_ok(transport.ok, opt_json(transport.data)));
            assert(r@ == standalone_spec(source@, dv, title@));
        }
        return r;
    }
    let err: Option<String> = match &transport.error {
        Some(e) => Some(e.clone()),
        None => match data.get("error") {
            Some(Json::Str(e)) => Some(e.clone()),
            _ => None,
        },
    };
    let e = match &err {
        Some(x) => Some(x.as_str()),
        None => None,
    };
    result_payload("add_file", false, "error", Some("PDF_IMPORT_FAILED"), e, one("path", Json::Str(source.to_owned())))
}

/// The title a standalone PDF import gives: the file stem (empty without one).
pub open spec fn pdf_title(source: Seq<char>) -> Seq<char> {
    match file_stem_result(source) {
        Some(s) => s,
        None => Seq::empty(),
    }
}

/// The payload of a standalone PDF import that answered `t`.
pub open spec fn standalone_outcome(source: Seq<char>, t: BridgeResponse) -> JsonV {
    if standalone_ok(t.ok, opt_json(t.data)) {
        standalone_spec(source, match opt_json(t.data) {
            Some(d) => d,
            None => JsonV::Null,
        }, pdf_title(source))
    } else {
        pdf_failed_spec(source, standalone_error(opt_string(t.error), opt_json(t.data)))
    }
}

/// What adding a PDF answers, given the DOI import of the DOI its name shows (`imported`),
/// the bridge's answer to attaching the PDF (`attach`) and to a standalone import
/// (`standalone`): the attached payload when the name shows a DOI whose import succeeded with
/// a key, else the standalone import's payload.
pub open spec fn pdf_add_spec(source: Seq<char>, imported: JsonV, attach: BridgeResponse, standalone: BridgeResponse) -> JsonV {
    match pdf_name_doi(source) {
        Some(d) => if is_true(imported, "ok"@) && opt_str_of(imported, "key"@) is Some {
            pdf_attached_spec(source, d, opt_str_of(imported, "key"@)->0, imported, attach.ok, opt_string(attach.error),
                opt_json(attach.data))
        } else {
            standalone_outcome(source, standalone)
        },
        None => standalone_outcome(source, standalone),
    }
}

/// A DOI import under the add options, in a runtime with the given connector state.
pub open spec fn doi_import_by(doi: Seq<char>, options: AddImportOptions, available: bool, message: Seq<char>, r: JsonV) -> bool {
    crate::add_import::doi_import_result(doi, options.if_exists@, clean_tags(strings_view(options.tags@)),
        options.prefer_translator, available, message, r)
}

/// What adding a PDF may answer: `pdf_add_spec` for some answers of the clients, where the DOI
/// import (when the name shows a DOI) answers as a DOI import does.
pub open spec fn pdf_add_result(source: Seq<char>, options: AddImportOptions, available: bool, message: Seq<char>, r: JsonV) -> bool {
    exists|imported: JsonV, attach: BridgeResponse, standalone: BridgeResponse|
        r == #[trigger] pdf_add_spec(source, imported, attach, standalone)
        && (pdf_name_doi(source) matches Some(d) ==> doi_import_by(d, options, available, message, imported))
}

/// The answers a PDF is added from (a name to quantify over them by).
pub open spec fn pdf_answers(
    doi_bridge: Seq<crate::add_import::BridgeCall>,
    doi_fetch: Seq<crate::add_import::FetchCall>,
    doi_connector: Seq<crate::import_target::ConnectorCall>,
    imported: JsonV,
    attach: BridgeResponse,
    standalone: BridgeResponse,
) -> bool {
    true
}

/// Adding a PDF with its requests: when the file name shows a DOI, its DOI import (with that
/// import's requests); then, when the import succeeded with a key, the PDF (`source`) attached
/// to that key; otherwise the resolved file imported as a standalone attachment titled by its
/// stem, into the collection with the cleaned tags.
pub open spec fn pdf_add_logged(
    source: Seq<char>,
    resolved: Seq<char>,
    options: AddImportOptions,
    available: bool,
    message: Seq<char>,
    port: u16,
    lookups: TargetLookups,
    bridge_calls: Seq<crate::add_import::BridgeCall>,
    fetch_calls: Seq<crate::add_import::FetchCall>,
    connector_calls: Seq<crate::import_target::ConnectorCall>,
    r: JsonV,
) -> bool {
    exists|doi_bridge: Seq<crate::add_import::BridgeCall>, doi_fetch: Seq<crate::add_import::FetchCall>, doi_connector: Seq<
        crate::import_target::ConnectorCall,
    >, imported: JsonV, attach: BridgeResponse, standalone: BridgeResponse|
        #[trigger] pdf_answers(doi_bridge, doi_fetch, doi_connector, imported, attach, standalone) && {
            let lib = crate::add_import::bridge_library_spec(options.library_id);
            let alone = crate::add_import::BridgeCall::StandalonePdfImport {
                library_id: lib,
                path: resolved,
                title: pdf_title(source),
                collection: opt_string(options.collection_key),
                tags: clean_tags(strings_view(options.tags@)),
                answer: standalone,
            };
            match pdf_name_doi(source) {
                None => bridge_calls == seq![alone] && fetch_calls.len() == 0 && connector_calls.len() == 0 && r == standalone_outcome(
                    source,
                    standalone,
                ),
                Some(d) => {
                    &&& crate::add_import::doi_import_logged(d, options, available, message, port, lookups, doi_bridge, doi_fetch,
                        doi_connector, imported)
                    &&& fetch_calls == doi_fetch
                    &&& connector_calls == doi_connector
                    &&& if is_true(imported, "ok"@) && opt_str_of(imported, "key"@) is Some {
                        let k = opt_str_of(imported, "key"@)->0;
                        bridge_calls == doi_bridge.push(crate::add_import::BridgeCall::AttachPdf {
                            library_id: lib,
                            item_key: k,
                            path: source,
                            answer: attach,
                        }) && r == pdf_attached_spec(source, d, k, imported, attach.ok, opt_string(attach.error), opt_json(attach.data))
                    } else {
                        bridge_calls == doi_bridge.push(alone) && r == standalone_outcome(source, standalone)
                    }
                },
            }
        }
}

/// Adds a PDF: when its file name shows a DOI that imports, attaches the PDF to the imported
/// item; else imports it (from its resolved path `resolved`) as a standalone attachment,
/// titled by its file stem.
#[verifier::rlimit(80)]
#[verifier::spinoff_prover]
pub fn add_pdf_file<B: AddImportBridge, C: ConnectorImportClient, F: AddImportFetcher>(
    runtime: &mut ImportRuntime,
    bridge: &mut LoggedBridge<B>,
    connector: &mut LoggedConnector<C>,
    fetcher: &mut LoggedFetcher<F>,
    source: &str,
    resolved: &str,
    options: &AddImportOptions,
    lookups: &TargetLookups,
) -> (r: Json)
    ensures
        pdf_add_result(source@, *options, old(runtime).connector_available, old(runtime).connector_message@, r@),
        final(bridge).log@.len() >= old(bridge).log@.len(),
        final(fetcher).log@.len() >= old(fetcher).log@.len(),
        final(connector).log@.len() >= old(connector).log@.len(),
        final(bridge).log@.subrange(0, old(bridge).log@.len() as int) == old(bridge).log@,
        final(fetcher).log@.subrange(0, old(fetcher).log@.len() as int) == old(fetcher).log@,
        final(connector).log@.subrange(0, old(connector).log@.len() as int) == old(connector).log@,
        pdf_add_logged(source@, resolved@, *options, old(runtime).connector_available, old(runtime).connector_message@,
            old(runtime).port, *lookups, final(bridge).log@.subrange(old(bridge).log@.len() as int, final(bridge).log@.len() as int),
            final(fetcher).log@.subrange(old(fetcher).log@.len() as int, final(fetcher).log@.len() as int),
            final(connector).log@.subrange(old(connector).log@.len() as int, final(connector).log@.len() as int), r@),
        final(runtime).connector_available == old(runtime).connector_available,
        final(runtime).connector_message == old(runtime).connector_message,
        final(runtime).port == old(runtime).port,
{
    let ghost avail = runtime.connector_available;
    let ghost msg = runtime.connector_message@;
    let stem = match path_file_stem(source) {
        Some(s) => s,
        None => String::new(),
    };
    let slashed = underscores_to_slashes_exec(stem.as_str());
    let library_id = crate::add_import::bridge_library_id(options.library_id);
    let ghost mut imported_v = JsonV::Null;
    let ghost b0 = bridge.log@;
    let ghost f0 = fetcher.log@;
    let ghost c0 = connector.log@;
    let ghost port = runtime.port;
    let ghost no_answer = BridgeResponse { ok: false, data: None, error: None, error_name: None, error_stack: None, error_raw: None };
    let ghost mut db = Seq::<crate::add_import::BridgeCall>::empty();
    let ghost mut df = Seq::<crate::add_import::FetchCall>::empty();
    let ghost mut dc = Seq::<crate::import_target::ConnectorCall>::empty();
    proof {
        assert(b0 + db =~= b0);
    }
    if let Some(doi) = find_doi_in_text(slashed.as_str()) {
        if crate::pattern::regex_is_match(crate::add_import::doi_pattern_exec(), doi.as_str()) == Some(true) {
            let imported = import_doi_with_clients(runtime, bridge, connector, fetcher, doi.as_str(), options, lookups);
            proof {
                imported_v = imported@;
                assert(pdf_name_doi(source@) == Some(doi@));
                db = bridge.log@.subrange(b0.len() as int, bridge.log@.len() as int);
                df = fetcher.log@.subrange(f0.len() as int, fetcher.log@.len() as int);
                dc = connector.log@.subrange(c0.len() as int, connector.log@.len() as int);
                assert(bridge.log@ =~= b0 + db);
                assert(fetcher.log@ =~= f0 + df);
                assert(connector.log@ =~= c0 + dc);
            }
            let ok = match imported.get("ok") {
                Some(Json::Bool(b)) => *b,
                _ => false,
            };
            if ok {
                let key = match imported.get("key") {
                    Some(Json::Str(k)) => Some(k.clone()),
                    _ => None,
                };
                if let Some(k) = key {
                    let attach = bridge.attach_pdf(library_id, k.as_str(), source);
                    let r = pdf_attached_payload(source, doi.as_str(), k.as_str(), imported, &attach);
                    proof {
                        assert(r@ == pdf_add_spec(source@, imported_v, attach, attach));
                        assert(pdf_answers(db, df, dc, imported_v, attach, no_answer));
                        let att = crate::add_import::BridgeCall::AttachPdf {
                            library_id: crate::add_import::bridge_library_spec(options.library_id),
                            item_key: k@,
                            path: source@,
                            answer: attach,
                        };
                        assert(bridge.log@ =~= b0 + db.push(att));
                        crate::add_import::lemma_log_split(b0, db.push(att));
                        assert(opt_str_of(imported_v, "key"@) == Some(k@));
                        crate::add_import::lemma_log_split(f0, df);
                        crate::add_import::lemma_log_split(c0, dc);
                    }
                    return r;
                }
            }
        } else {
            proof {
                assert(pdf_name_doi(source@) is None);
            }
        }
    } else {
        proof {
            assert(pdf_name_doi(source@) is None);
        }
    }
    let tags = crate::add_import::normalize_tags(&options.tags);
    let collection_key = as_opt_str(&options.collection_key);
    let transport = bridge.standalone_pdf_import(library_id, resolved, stem.as_str(), collection_key, &tags);
    let r = standalone_payload(source, stem.as_str(), &transport);
    proof {
        assert(stem@ == pdf_title(source@));
        assert(r@ == standalone_outcome(source@, transport));
        assert(r@ == pdf_add_spec(source@, imported_v, transport, transport));
        assert(pdf_answers(db, df, dc, imported_v, no_answer, transport));
        let alone = crate::add_import::BridgeCall::StandalonePdfImport {
            library_id: crate::add_import::bridge_library_spec(options.library_id),
            path: resolved@,
            title: pdf_title(source@),
            collection: opt_string(options.collection_key),
            tags: clean_tags(strings_view(options.tags@)),
            answer: transport,
        };
        assert(bridge.log@ =~= b0 + db.push(alone));
        assert(fetcher.log@ =~= f0 + df);
        assert(connector.log@ =~= c0 + dc);
        crate::add_import::lemma_log_split(b0, db.push(alone));
        crate::add_import::lemma_log_split(f0, df);
        crate::add_import::lemma_log_split(c0, dc);
    }
    r
}


/// What `str::replace` returns: every non-overlapping occurrence of `from`, found left to
/// right, replaced by `to`; an empty `from` matches at every character boundary, so `to`
/// goes before each character and at the end.
pub open spec fn str_replace_result(s: Seq<char>, from: Seq<char>, to: Seq<char>) -> Seq<char>
    decreases s.len(),
{
    if from.len() == 0 {
        if s.len() == 0 {
            to
        } else {
            to + seq![s[0]] + str_replace_result(s.drop_first(), from, to)
        }
    } else if s.len() < from.len() {
        s
    } else if s.subrange(0, from.len() as int) == from {
        to + str_replace_result(s.subrange(from.len() as int, s.len() as int), from, to)
    } else {
        seq![s[0]] + str_replace_result(s.drop_first(), from, to)
    }
}

/// Calls `str::replace` (every non-overlapping occurrence of `from`, left to right).
#[verifier::external_body]
pub fn str_replace(s: &str, from: &str, to: &str) -> (r: String)
    ensures
        r@ == str_replace_result(s@, from@, to@),
{
    s.replace(from, to)
}

/// The arXiv-id pattern: an optional `arXiv:`, the id, an optional version.
pub open spec fn arxiv_id_pattern() -> Seq<char> {
    "(?i)^(?:arXiv:)?(\\d{4}\\.\\d{4,5})(?:v\\d+)?$"@
}

/// A bare arXiv id anywhere.
pub open spec fn bare_arxiv_pattern() -> Seq<char> {
    "(\\d{4}\\.\\d{4,5})"@
}

/// An arXiv URL's prefix.
pub open spec fn arxiv_url_pattern() -> Seq<char> {
    "(?i)^https?://(www\\.)?arxiv\\.org/(abs|pdf)/"@
}

/// The arXiv id of a text: trimmed, without an arXiv URL prefix and `.pdf`; the whole id when
/// it is one, else the first bare id in it.
pub open spec fn arxiv_id_spec(value: Seq<char>) -> Result<Seq<char>, Seq<char>> {
    let t = crate::import_normalization::strip_first(arxiv_url_pattern(), trim(value));
    let t = str_replace_result(t, ".pdf"@, Seq::empty());
    match crate::pattern::regex_capture_result(arxiv_id_pattern(), t, 1) {
        Some(Some(id)) => Ok(id),
        _ => match crate::pattern::regex_matches_result(bare_arxiv_pattern(), t) {
            Some(ms) => if ms.len() > 0 {
                Ok(ms[0])
            } else {
                Err("Invalid arXiv id: "@ + debug_quoted_result(value))
            },
            None => Err("Invalid arXiv id: "@ + debug_quoted_result(value)),
        },
    }
}

/// Normalises an arXiv id or URL.
pub fn normalize_arxiv_id(value: &str) -> (r: Result<String, DomainError>)
    ensures
        match arxiv_id_spec(value@) {
            Ok(id) => r matches Ok(x) && x@ == id,
            Err(m) => r matches Err(e) && e.0@ == m,
        },
{
    let t0 = trim_str(value);
    let t1 = match crate::pattern::regex_replace_first("(?i)^https?://(www\\.)?arxiv\\.org/(abs|pdf)/", t0.as_str(), "") {
        Some(x) => x,
        None => t0,
    };
    proof {
        reveal_strlit("");
        assert(""@ =~= Seq::<char>::empty());
    }
    let t = str_replace(t1.as_str(), ".pdf", "");
    match crate::pattern::regex_capture("(?i)^(?:arXiv:)?(\\d{4}\\.\\d{4,5})(?:v\\d+)?$", t.as_str(), 1) {
        Some(Some(id)) => return Ok(id),
        _ => {},
    }
    match crate::pattern::regex_matches("(\\d{4}\\.\\d{4,5})", t.as_str()) {
        Some(ms) => {
            proof {
                assert(strings_view(ms@).len() == ms@.len());
            }
            if ms.len() > 0 {
                return Ok(ms[0].clone());
            }
        },
        None => {},
    }
    let q = debug_quoted(value);
    Err(DomainError::from_string(concat_str("Invalid arXiv id: ", q.as_str())))
}

/// The lower-cased extension of a path (empty without one).
pub open spec fn file_suffix(path: Seq<char>) -> Seq<char> {
    lowercase(match extension_result(path) {
        Some(e) => e,
        None => Seq::empty(),
    })
}

/// What adding an existing file does next: import it as JSON, import it through the
/// connector, add it as a PDF, or answer that its type is not supported.
pub enum AddFileStep {
    ImportJson,
    ImportFile,
    AddPdf,
    Unsupported,
}

/// Which step a file's suffix calls for.
pub open spec fn add_file_step_spec(suffix: Seq<char>) -> AddFileStep {
    if suffix == "json"@ {
        AddFileStep::ImportJson
    } else if suffix == "bib"@ || suffix == "bibtex"@ || suffix == "ris"@ || suffix == "enw"@ || suffix == "csv"@ {
        AddFileStep::ImportFile
    } else if suffix == "pdf"@ {
        AddFileStep::AddPdf
    } else {
        AddFileStep::Unsupported
    }
}

/// The lower-cased suffix of a file and the step it calls for.
pub fn add_file_step(source: &str) -> (r: (AddFileStep, String))
    ensures
        r.1@ == file_suffix(source@),
        r.0 == add_file_step_spec(r.1@),
{
    let ext = match path_extension(source) {
        Some(e) => e,
        None => String::new(),
    };
    let suffix = to_lowercase(ext.as_str());
    let step = if str_eq(suffix.as_str(), "json") {
        AddFileStep::ImportJson
    } else if str_eq(suffix.as_str(), "bib") || str_eq(suffix.as_str(), "bibtex") || str_eq(suffix.as_str(), "ris")
        || str_eq(suffix.as_str(), "enw") || str_eq(suffix.as_str(), "csv") {
        AddFileStep::ImportFile
    } else if str_eq(suffix.as_str(), "pdf") {
        AddFileStep::AddPdf
    } else {
        AddFileStep::Unsupported
    };
    (step, suffix)
}

/// A string member, or `default`.
pub open spec fn str_member_or(v: JsonV, key: Seq<char>, default: Seq<char>) -> Seq<char> {
    match get_spec(v, key) {
        Some(JsonV::Str(s)) => s,
        _ => default,
    }
}

/// The members reporting an imported file.
pub open spec fn file_import_members(source: Seq<char>, kind: Seq<char>, imported: JsonV, count_key: Seq<char>) -> Seq<(Seq<char>, JsonV)> {
    seq![
        ("path"@, JsonV::Str(source)),
        ("kind"@, JsonV::Str(kind)),
        ("import_result"@, imported),
        ("imported_count"@, member_or_null(imported, count_key)),
    ]
}

/// The payload of adding a file through an import: for JSON it succeeds unless the import's
/// status is `error`; for other files when the status is `success` or `partial_success`; a
/// failed import is `IMPORT_FAILED`.
pub open spec fn file_import_spec(source: Seq<char>, suffix: Seq<char>, json: bool, imported: Result<JsonV, Seq<char>>) -> JsonV {
    match imported {
        Err(m) => payload_spec("add_file"@, false, "error"@, Some("IMPORT_FAILED"@), Some(m), Seq::empty()),
        Ok(v) => {
            let status = str_member_or(v, "status"@, "success"@);
            if json {
                payload_spec("add_file"@, get_spec(v, "status"@) != Some(JsonV::Str("error"@)), status, Some("IMPORTED"@), None,
                    file_import_members(source, "json"@, v, "submitted_count"@))
            } else {
                payload_spec("add_file"@, status == "success"@ || status == "partial_success"@, status, Some("IMPORTED"@), None,
                    file_import_members(source, suffix, v, "imported_count"@))
            }
        },
    }
}

/// The payload of adding a file through an import.
pub fn file_import_payload(source: &str, suffix: &str, json: bool, imported: Result<Json, DomainError>) -> (r: Json)
    ensures
        r@ == file_import_spec(source@, suffix@, json, match imported {
            Ok(v) => Ok(v@),
            Err(e) => Err(e.0@),
        }),
{
    match imported {
        Err(e) => {
            let m: Vec<(String, Json)> = Vec::new();
            proof {
                assert(entries_view(m@) =~= Seq::<(Seq<char>, JsonV)>::empty());
            }
            result_payload("add_file", false, "error", Some("IMPORT_FAILED"), Some(e.0.as_str()), m)
        },
        Ok(v) => {
            let status = match v.get("status") {
                Some(Json::Str(st)) => st.clone(),
                _ => "success".to_owned(),
            };
            let is_error = match v.get("status") {
                Some(Json::Str(st)) => str_eq(st.as_str(), "error"),
                _ => false,
            };
            let count_key = if json { "submitted_count" } else { "imported_count" };
            let count = get_or_null(&v, count_key);
            let kind = if json { "json".to_owned() } else { suffix.to_owned() };
            let ok = if json {
                !is_error
            } else {
                str_eq(status.as_str(), "success") || str_eq(status.as_str(), "partial_success")
            };
            let ghost vv = v@;
            let mut m: Vec<(String, Json)> = Vec::new();
            m.push(("path".to_owned(), Json::Str(source.to_owned())));
            m.push(("kind".to_owned(), Json::Str(kind)));
            m.push(("import_result".to_owned(), v));
            m.push(("imported_count".to_owned(), count));
            proof {
                reveal_with_fuel(entries_view, 5);
                assert(entries_view(m@) =~= file_import_members(source@, if json { "json"@ } else { suffix@ }, vv,
                    if json { "submitted_count"@ } else { "imported_count"@ }));
                assert(is_error == (get_spec(vv, "status"@) == Some(JsonV::Str("error"@))));
            }
            result_payload("add_file", ok, status.as_str(), Some("IMPORTED"), None, m)
        },
    }
}

/// The payload for a file of a type that cannot be added.
pub open spec fn unsupported_spec(source: Seq<char>, suffix: Seq<char>) -> JsonV {
    payload_spec("add_file"@, false, "error"@, Some("UNSUPPORTED_FILE"@), Some("Unsupported file type: ."@ + suffix),
        seq![("path"@, JsonV::Str(source))])
}

/// The payload for a file of a type that cannot be added.
pub fn unsupported_payload(source: &str, suffix: &str) -> (r: Json)
    ensures
        r@ == unsupported_spec(source@, suffix@),
{
    let msg = concat_str("Unsupported file type: .", suffix);
    result_payload("add_file", false, "error", Some("UNSUPPORTED_FILE"), Some(msg.as_str()), one("path", Json::Str(source.to_owned())))
}


/// A boolean member is `true`.
pub open spec fn is_true(v: JsonV, key: Seq<char>) -> bool {
    get_spec(v, key) == Some(JsonV::Bool(true))
}

fn is_true_exec(v: &Json, key: &str) -> (b: bool)
    ensures
        b == is_true(v@, key@),
{
    match v.get(key) {
        Some(Json::Bool(b)) => *b,
        _ => false,
    }
}

fn opt_str_member(v: &Json, key: &str) -> (r: Option<String>)
    ensures
        opt_string(r) == match get_spec(v@, key@) {
            Some(JsonV::Str(s)) => Some(s),
            _ => None,
        },
{
    match v.get(key) {
        Some(Json::Str(s)) => Some(s.clone()),
        _ => None,
    }
}

/// An optional string borrowed.
pub fn as_opt_str(o: &Option<String>) -> (r: Option<&str>)
    ensures
        opt_str(r) == opt_string(*o),
{
    match o {
        Some(s) => Some(s.as_str()),
        None => None,
    }
}

/// The members of an `add_doi` payload wrapping a DOI import.
pub open spec fn wrapped_doi_members(imported: JsonV, doi: Seq<char>) -> Seq<(Seq<char>, JsonV)> {
    seq![
        ("DOI"@, match get_spec(imported, "DOI"@) {
            Some(d) => d,
            None => JsonV::Str(crate::import_normalization::normalize_doi_spec(Some(doi))),
        }),
        ("key"@, member_or_null(imported, "key"@)),
        ("title"@, member_or_null(imported, "title"@)),
        ("source"@, member_or_null(imported, "source"@)),
        ("import_result"@, imported),
    ]
}

/// A string member, when it is a string.
pub open spec fn opt_str_of(v: JsonV, key: Seq<char>) -> Option<Seq<char>> {
    match get_spec(v, key) {
        Some(JsonV::Str(s)) => Some(s),
        _ => None,
    }
}

/// The `add_doi` payload of a DOI import: its outcome, status (`success` or `error` when it
/// has none), code and error, and what it imported.
pub open spec fn wrapped_doi_spec(imported: JsonV, doi: Seq<char>) -> JsonV {
    payload_spec("add_doi"@, is_true(imported, "ok"@), str_member_or(imported, "status"@, if is_true(imported, "ok"@) {
        "success"@
    } else {
        "error"@
    }), opt_str_of(imported, "code"@), opt_str_of(imported, "error"@), wrapped_doi_members(imported, doi))
}

/// The `add_doi` payload of a DOI import.
pub fn wrap_doi_payload(imported: Json, doi: &str) -> (r: Json)
    ensures
        r@ == wrapped_doi_spec(imported@, doi@),
{
    let ok = is_true_exec(&imported, "ok");
    let status = match imported.get("status") {
        Some(Json::Str(st)) => st.clone(),
        _ => if ok {
            "success".to_owned()
        } else {
            "error".to_owned()
        },
    };
    let code = opt_str_member(&imported, "code");
    let error = opt_str_member(&imported, "error");
    let doi_value = match imported.get("DOI") {
        Some(d) => d.deep_clone(),
        None => Json::Str(crate::import_normalization::normalize_doi(Some(doi))),
    };
    let ghost iv = imported@;
    let extra = five(
        "DOI", doi_value,
        "key", get_or_null(&imported, "key"),
        "title", get_or_null(&imported, "title"),
        "source", get_or_null(&imported, "source"),
        "import_result", imported,
    );
    proof {
        assert(entries_view(extra@) =~= wrapped_doi_members(iv, doi@));
    }
    result_payload("add_doi", ok, status.as_str(), as_opt_str(&code), as_opt_str(&error), extra)
}

/// What a DOI import answered as `add_doi` may be: the `add_doi` payload of a DOI import.
pub open spec fn wrapped_doi_result(doi: Seq<char>, options: AddImportOptions, available: bool, message: Seq<char>, r: JsonV) -> bool {
    exists|imported: JsonV| r == #[trigger] wrapped_doi_spec(imported, doi) && doi_import_by(doi, options, available, message, imported)
}

/// Imports a DOI and answers as `add_doi`.
pub fn import_wrapped_add_doi<B: AddImportBridge, C: ConnectorImportClient, F: AddImportFetcher>(
    runtime: &mut ImportRuntime,
    bridge: &mut LoggedBridge<B>,
    connector: &mut LoggedConnector<C>,
    fetcher: &mut LoggedFetcher<F>,
    doi: &str,
    options: &AddImportOptions,
    lookups: &TargetLookups,
) -> (r: Json)
    ensures
        wrapped_doi_result(doi@, *options, old(runtime).connector_available, old(runtime).connector_message@, r@),
        final(runtime).connector_available == old(runtime).connector_available,
        final(runtime).connector_message == old(runtime).connector_message,
        log_extends(old(fetcher).log@, final(fetcher).log@),
        log_extends(old(bridge).log@, final(bridge).log@),
        log_extends(old(connector).log@, final(connector).log@),
        exists|imported: JsonV|
            r@ == #[trigger] wrapped_doi_spec(imported, doi@) && crate::add_import::doi_import_logged(doi@, *options,
                old(runtime).connector_available, old(runtime).connector_message@, old(runtime).port, *lookups,
                final(bridge).log@.subrange(old(bridge).log@.len() as int, final(bridge).log@.len() as int),
                final(fetcher).log@.subrange(old(fetcher).log@.len() as int, final(fetcher).log@.len() as int),
                final(connector).log@.subrange(old(connector).log@.len() as int, final(connector).log@.len() as int), imported),
        final(runtime).port == old(runtime).port,
{
    let imported = import_doi_with_clients(runtime, bridge, connector, fetcher, doi, options, lookups);
    let ghost iv = imported@;
    let r = wrap_doi_payload(imported, doi);
    proof {
        assert(r@ == wrapped_doi_spec(iv, doi@));
    }
    r
}

/// Imports a PubMed id with Zotero's translators, classifying the bridge's answer.
pub fn import_pmid<B: AddImportBridge>(bridge: &mut LoggedBridge<B>, pmid: &str, collection_key: Option<&str>, tags: &Vec<String>, library_id: i64) -> (r: Json)
    ensures
        exists|t: BridgeResponse| r@ == crate::bridge::classify_spec(t, true).0,
        exists|t: BridgeResponse|
            #![trigger crate::bridge::classify_spec(t, true)]
            final(bridge).log@ == old(bridge).log@.push(crate::add_import::BridgeCall::ImportFromPmid {
                library_id: crate::add_import::bridge_library_spec(library_id),
                pmid: pmid@,
                collection: opt_str(collection_key),
                tags: if tags@.len() == 0 {
                    None
                } else {
                    Some(strings_view(tags@))
                },
                answer: t,
            }) && r@ == crate::bridge::classify_spec(t, true).0,
{
    let lib = crate::add_import::bridge_library_id(library_id);
    let tag_arg = crate::add_import::tag_argument(tags);
    let transport = bridge.import_from_pmid(lib, pmid, collection_key, tag_arg);
    let (payload, _) = crate::bridge::classify_bridge_payload_with_options(&transport, true);
    proof {
        assert(crate::bridge::classify_spec(transport, true).0 == payload@);
    }
    payload
}

/// The payload of a failed URL import.
pub open spec fn url_failed_spec(url: Seq<char>, error: Seq<char>) -> JsonV {
    payload_spec("add_url"@, false, "error"@, Some("IMPORT_FAILED"@), Some(error), seq![("url"@, JsonV::Str(url))])
}

fn url_failed(url: &str, error: &str) -> (r: Json)
    ensures
        r@ == url_failed_spec(url@, error@),
{
    result_payload("add_url", false, "error", Some("IMPORT_FAILED"), Some(error), one("url", Json::Str(url.to_owned())))
}

/// The connector item for a web page.
pub open spec fn webpage_item_spec(title: Seq<char>, url: Seq<char>) -> JsonV {
    JsonV::Object(seq![
        ("accessDate"@, JsonV::Str(Seq::empty())),
        ("id"@, JsonV::Str("cli-anything-url-1"@)),
        ("itemType"@, JsonV::Str("webpage"@)),
        ("title"@, JsonV::Str(title)),
        ("url"@, JsonV::Str(url)),
    ])
}

/// The connector item for a web page.
pub fn webpage_item(title: &str, url: &str) -> (r: Json)
    ensures
        r@ == webpage_item_spec(title@, url@),
{
    let m = five(
        "accessDate", Json::Str(String::new()),
        "id", Json::Str("cli-anything-url-1".to_owned()),
        "itemType", Json::Str("webpage".to_owned()),
        "title", Json::Str(title.to_owned()),
        "url", Json::Str(url.to_owned()),
    );
    proof {
        assert(entries_view(m@) =~= webpage_item_spec(title@, url@)->Object_0);
    }
    Json::Object(m)
}

/// The members of the payload of an imported web page.
pub open spec fn webpage_members(url: Seq<char>, title: Seq<char>, final_url: Seq<char>, target: JsonV) -> Seq<(Seq<char>, JsonV)> {
    seq![
        ("url"@, JsonV::Str(url)),
        ("url_kind"@, JsonV::Str("webpage"@)),
        ("title"@, JsonV::Str(title)),
        ("source"@, JsonV::Str("connector-webpage"@)),
        ("final_url"@, JsonV::Str(final_url)),
        ("target"@, target),
    ]
}

/// The payload of an imported web page.
pub open spec fn webpage_spec(url: Seq<char>, title: Seq<char>, final_url: Seq<char>, target: JsonV) -> JsonV {
    payload_spec("add_url"@, true, "success"@, Some("IMPORTED"@), None, webpage_members(url, title, final_url, target))
}

fn webpage_payload(url: &str, title: &str, final_url: &str, target: Json) -> (r: Json)
    ensures
        r@ == webpage_spec(url@, title@, final_url@, target@),
{
    let ghost tv = target@;
    let mut m: Vec<(String, Json)> = Vec::new();
    m.push(("url".to_owned(), Json::Str(url.to_owned())));
    m.push(("url_kind".to_owned(), Json::Str("webpage".to_owned())));
    m.push(("title".to_owned(), Json::Str(title.to_owned())));
    m.push(("source".to_owned(), Json::Str("connector-webpage".to_owned())));
    m.push(("final_url".to_owned(), Json::Str(final_url.to_owned())));
    m.push(("target".to_owned(), target));
    proof {
        reveal_with_fuel(entries_view, 7);
        assert(entries_view(m@) =~= webpage_members(url@, title@, final_url@, tv));
    }
    result_payload("add_url", true, "success", Some("IMPORTED"), None, m)
}

/// What fetching a web page answered: its title and DOI, if it shows them, and its final URL.
pub type PageAnswer = Result<(Option<Seq<char>>, Option<Seq<char>>, Seq<char>), Seq<char>>;

/// The payload of adding a web page, given the page fetched (`fetched`; a page that could not
/// be fetched is titled by its URL), and what saving its item, resolving the target and
/// filing the session answered: the first failure, else the imported web page.
pub open spec fn webpage_outcome(
    text: Seq<char>,
    fetched: PageAnswer,
    saved: Result<(), Seq<char>>,
    target: Result<JsonV, Seq<char>>,
    updated: Result<(), Seq<char>>,
) -> JsonV {
    let (title, final_url) = match fetched {
        Ok((t, _, f)) => (match t {
            Some(x) => x,
            None => text,
        }, f),
        Err(_) => (text, text),
    };
    match saved {
        Err(m) => url_failed_spec(text, m),
        Ok(_) => match target {
            Err(m) => url_failed_spec(text, m),
            Ok(tg) => match updated {
                Err(m) => url_failed_spec(text, m),
                Ok(_) => webpage_spec(text, title, final_url, tg),
            },
        },
    }
}

/// An answer relabelled as `add_url` for `url`, of kind `kind`.
pub open spec fn as_url_answer(p: JsonV, url: Seq<char>, kind: Seq<char>) -> JsonV {
    crate::add_import::object_insert_spec(crate::add_import::object_insert_spec(crate::add_import::object_insert_spec(p,
        "action"@, JsonV::Str("add_url"@)), "url"@, JsonV::Str(url)), "url_kind"@, JsonV::Str(kind))
}

/// What adding a URL may answer (`depth` bounds how often a page's DOI is followed): an empty
/// URL is refused; an arXiv link or id is added as an arXiv paper, a DOI link or DOI as a DOI,
/// each relabelled as `add_url`; anything else as a web page.
pub open spec fn url_add_result(url: Seq<char>, options: AddImportOptions, available: bool, message: Seq<char>, depth: nat, r: JsonV) -> bool
    decreases depth, 1int,
{
    let text = trim(url);
    let lower = lowercase(text);
    if text.len() == 0 {
        r == payload_spec("add_url"@, false, "error"@, Some("INVALID_URL"@), Some("empty url"@), Seq::empty())
    } else if (crate::text::contains(lower, "arxiv.org"@) || crate::pattern::regex_is_match_result(bare_arxiv_pattern(), text)
        == Some(true)) && arxiv_id_spec(text) is Ok {
        exists|p: JsonV| r == #[trigger] as_url_answer(p, text, "arxiv"@) && arxiv_add_result(arxiv_id_spec(text)->Ok_0, options,
            available, message, p)
    } else if crate::text::contains(lower, "doi.org"@) || crate::pattern::regex_is_match_result(doi_text_pattern(), text) == Some(
        true) {
        let doi = match doi_in_text(text) {
            Some(d) => d,
            None => crate::import_normalization::normalize_doi_spec(Some(text)),
        };
        exists|p: JsonV| r == #[trigger] as_url_answer(p, text, "doi"@) && wrapped_doi_result(doi, options, available, message, p)
    } else {
        webpage_result(text, options, available, message, depth, r)
    }
}

/// What adding a web page may answer: the connector's absence as a URL failure; else, for
/// what the page and the connector answered, the URL's own answer for the DOI the page shows
/// (while `depth` allows), or `webpage_outcome`.
pub open spec fn webpage_result(text: Seq<char>, options: AddImportOptions, available: bool, message: Seq<char>, depth: nat, r: JsonV) -> bool
    decreases depth, 0int,
{
    if !available {
        r == url_failed_spec(text, crate::add_import::connector_missing(message))
    } else {
        exists|fetched: PageAnswer, saved: Result<(), Seq<char>>, target: Result<JsonV, Seq<char>>, updated: Result<(), Seq<char>>|
            #[trigger] webpage_answers(fetched, saved, target, updated) && if depth > 0 && page_doi(fetched) is Some {
                url_add_result("https://doi.org/"@ + page_doi(fetched)->0, options, available, message, (depth - 1) as nat, r)
            } else {
                r == webpage_outcome(text, fetched, saved, target, updated)
            }
    }
}

/// What fetching a web page answered, as plain values.
pub open spec fn page_answer_view(fetched: &Result<(Option<String>, Option<String>, String), DomainError>) -> PageAnswer {
    match fetched {
        Ok((t, d, f)) => Ok((opt_string(*t), opt_string(*d), f@)),
        Err(e) => Err(e.0@),
    }
}

/// The DOI a fetched page shows.
pub open spec fn page_doi(fetched: PageAnswer) -> Option<Seq<char>> {
    match fetched {
        Ok((_, d, _)) => d,
        Err(_) => None,
    }
}

/// The answers a web page import works from (a name to quantify over them by).
pub open spec fn webpage_answers(
    fetched: PageAnswer,
    saved: Result<(), Seq<char>>,
    target: Result<JsonV, Seq<char>>,
    updated: Result<(), Seq<char>>,
) -> bool {
    true
}

/// The title and final URL a web page is saved with: as the page says, else its URL.
pub open spec fn page_title_and_url(text: Seq<char>, fetched: PageAnswer) -> (Seq<char>, Seq<char>) {
    match fetched {
        Ok((t, _, f)) => (match t {
            Some(x) => x,
            None => text,
        }, f),
        Err(_) => (text, text),
    }
}

/// The answers a web page is added from, with its session (a name to quantify over them by).
pub open spec fn webpage_log_answers(
    fetched: PageAnswer,
    sid: Seq<char>,
    saved: Result<(), Seq<char>>,
    selected: Result<JsonV, Seq<char>>,
    updated: Result<JsonV, Seq<char>>,
) -> bool {
    true
}

/// The DOI a DOI link or text names: the DOI found in it, else the text normalized as a DOI.
pub open spec fn url_doi(text: Seq<char>) -> Seq<char> {
    match doi_in_text(text) {
        Some(d) => d,
        None => crate::import_normalization::normalize_doi_spec(Some(text)),
    }
}

/// The requests of adding a URL and its answer (`depth` bounds how often a page's DOI is
/// followed): nothing asked for an empty URL; an arXiv link or id is added as an arXiv paper
/// and a DOI link or DOI as a DOI (each with the requests of that add, its answer relabelled);
/// anything else as a web page (`webpage_logged`).
pub open spec fn url_add_logged(
    url: Seq<char>,
    options: AddImportOptions,
    available: bool,
    message: Seq<char>,
    port: u16,
    lookups: TargetLookups,
    depth: nat,
    bridge_calls: Seq<crate::add_import::BridgeCall>,
    fetch_calls: Seq<crate::add_import::FetchCall>,
    connector_calls: Seq<crate::import_target::ConnectorCall>,
    r: JsonV,
) -> bool
    decreases depth, 1int,
{
    let text = trim(url);
    let lower = lowercase(text);
    if text.len() == 0 {
        bridge_calls.len() == 0 && fetch_calls.len() == 0 && connector_calls.len() == 0
    } else if (crate::text::contains(lower, "arxiv.org"@) || crate::pattern::regex_is_match_result(bare_arxiv_pattern(), text)
        == Some(true)) && arxiv_id_spec(text) is Ok {
        exists|p: JsonV|
            r == #[trigger] as_url_answer(p, text, "arxiv"@) && arxiv_add_logged(arxiv_id_spec(text)->Ok_0, options, available,
                message, port, lookups, bridge_calls, fetch_calls, connector_calls, p)
    } else if crate::text::contains(lower, "doi.org"@) || crate::pattern::regex_is_match_result(doi_text_pattern(), text) == Some(
        true) {
        exists|imported: JsonV|
            r == #[trigger] as_url_answer(wrapped_doi_spec(imported, url_doi(text)), text, "doi"@)
                && crate::add_import::doi_import_logged(url_doi(text), options, available, message, port, lookups, bridge_calls,
                fetch_calls, connector_calls, imported)
    } else {
        webpage_logged(text, options, available, message, port, lookups, depth, bridge_calls, fetch_calls, connector_calls, r)
    }
}

/// The requests of adding a web page and its answer: nothing asked without the connector;
/// else the page `text` fetched with a 20-second timeout. When it shows a DOI and `depth`
/// allows, the add of that DOI's URL follows (`url_add_logged`, one level less). Otherwise
/// the web page's item, titled as the page says (else by its URL), is saved in session `sid`,
/// then the session is filed under the target, and the first failure, or the imported page,
/// is the answer.
pub open spec fn webpage_logged(
    text: Seq<char>,
    options: AddImportOptions,
    available: bool,
    message: Seq<char>,
    port: u16,
    lookups: TargetLookups,
    depth: nat,
    bridge_calls: Seq<crate::add_import::BridgeCall>,
    fetch_calls: Seq<crate::add_import::FetchCall>,
    connector_calls: Seq<crate::import_target::ConnectorCall>,
    r: JsonV,
) -> bool
    decreases depth, 0int,
{
    if !available {
        &&& bridge_calls.len() == 0
        &&& fetch_calls.len() == 0
        &&& connector_calls.len() == 0
        &&& r == url_failed_spec(text, crate::add_import::connector_missing(message))
    } else {
        exists|fetched: PageAnswer, sid: Seq<char>, saved: Result<(), Seq<char>>, selected: Result<JsonV, Seq<char>>,
            updated: Result<JsonV, Seq<char>>|
            #[trigger] webpage_log_answers(fetched, sid, saved, selected, updated) && {
                let page = crate::add_import::FetchCall::Page { url: text, timeout: 20, answer: fetched };
                if depth > 0 && page_doi(fetched) is Some {
                    fetch_calls.len() >= 1 && fetch_calls[0] == page && url_add_logged("https://doi.org/"@ + page_doi(fetched)->0,
                        options, available, message, port, lookups, (depth - 1) as nat, bridge_calls, fetch_calls.drop_first(),
                        connector_calls, r)
                } else {
                    let (title, final_url) = page_title_and_url(text, fetched);
                    let timeout = options.connector_timeout_secs;
                    let save = crate::import_target::ConnectorCall::SaveItems {
                        port,
                        items: seq![webpage_item_spec(title, text)],
                        session_id: sid,
                        timeout,
                        answer: saved,
                    };
                    let filing = crate::import_core::session_filing_run(port, timeout, clean_tags(strings_view(options.tags@)),
                        crate::add_import::add_target_decision(available, options, lookups), sid, selected, updated);
                    &&& bridge_calls.len() == 0
                    &&& fetch_calls == seq![page]
                    &&& match saved {
                        Err(m) => connector_calls == seq![save] && r == url_failed_spec(text, m),
                        Ok(_) => connector_calls == seq![save] + filing.0 && r == match filing.1 {
                            Err(m) => url_failed_spec(text, m),
                            Ok(t) => webpage_spec(text, title, final_url, t),
                        },
                    }
                }
            }
    }
}

/// Adds a web page through the connector, titled as the page says (else by its URL); a page
/// that shows a DOI is added by that DOI instead.
fn add_webpage_url<B: AddImportBridge, C: ConnectorImportClient, F: AddImportFetcher>(
    runtime: &mut ImportRuntime,
    bridge: &mut LoggedBridge<B>,
    connector: &mut LoggedConnector<C>,
    fetcher: &mut LoggedFetcher<F>,
    text: &str,
    options: &AddImportOptions,
    lookups: &TargetLookups,
    depth: u8,
) -> (r: Json)
    ensures
        webpage_result(text@, *options, old(runtime).connector_available, old(runtime).connector_message@, depth as nat, r@),
        final(runtime).connector_available == old(runtime).connector_available,
        final(runtime).connector_message == old(runtime).connector_message,
        log_extends(old(bridge).log@, final(bridge).log@),
        log_extends(old(fetcher).log@, final(fetcher).log@),
        log_extends(old(connector).log@, final(connector).log@),
        webpage_logged(text@, *options, old(runtime).connector_available, old(runtime).connector_message@, old(runtime).port,
            *lookups, depth as nat, final(bridge).log@.subrange(old(bridge).log@.len() as int, final(bridge).log@.len() as int),
            final(fetcher).log@.subrange(old(fetcher).log@.len() as int, final(fetcher).log@.len() as int),
            final(connector).log@.subrange(old(connector).log@.len() as int, final(connector).log@.len() as int), r@),
        final(runtime).port == old(runtime).port,
    decreases depth, 0int,
{
    let ghost b0 = bridge.log@;
    let ghost f0 = fetcher.log@;
    let ghost c0 = connector.log@;
    let ghost port = runtime.port;
    let ghost avail = runtime.connector_available;
    let ghost decided = crate::add_import::add_target_decision(runtime.connector_available, *options, *lookups);
    let ghost tagv = clean_tags(strings_view(options.tags@));
    let ghost dummy_json = Err::<JsonV, Seq<char>>(Seq::empty());
    proof {
        crate::add_import::lemma_extends_refl(b0);
        crate::add_import::lemma_extends_refl(f0);
        crate::add_import::lemma_extends_refl(c0);
        crate::add_import::lemma_log_split(b0, Seq::<crate::add_import::BridgeCall>::empty());
        assert(b0 + Seq::<crate::add_import::BridgeCall>::empty() =~= b0);
        crate::add_import::lemma_log_split(f0, Seq::<crate::add_import::FetchCall>::empty());
        assert(f0 + Seq::<crate::add_import::FetchCall>::empty() =~= f0);
        crate::add_import::lemma_log_split(c0, Seq::<crate::import_target::ConnectorCall>::empty());
        assert(c0 + Seq::<crate::import_target::ConnectorCall>::empty() =~= c0);
    }
    if let Err(e) = crate::add_import::require_connector(runtime) {
        return url_failed(text, e.0.as_str());
    }
    let mut title = text.to_owned();
    let mut final_url = text.to_owned();
    let fetched = fetcher.fetch_html_title_and_doi(text, 20);
    let ghost fv: PageAnswer = page_answer_view(&fetched);
    let ghost page = crate::add_import::FetchCall::Page { url: text@, timeout: 20, answer: fv };
    let ghost f1 = fetcher.log@;
    proof {
        assert(f1 == f0.push(page));
        crate::add_import::lemma_extends_push(f0, page);
        assert(f1 =~= f0 + seq![page]);
        crate::add_import::lemma_log_split(f0, seq![page]);
    }
    let ghost ok_saved = Ok::<(), Seq<char>>(());
    let ghost no_target = Err::<JsonV, Seq<char>>(Seq::empty());
    if let Ok((found_title, found_doi, found_final)) = fetched {
        final_url = found_final;
        if let Some(t) = found_title {
            title = t;
        }
        if let Some(doi) = found_doi {
            if depth > 0 {
                let u = concat_str("https://doi.org/", doi.as_str());
                let r = add_url_inner(runtime, bridge, connector, fetcher, u.as_str(), options, lookups, depth - 1);
                proof {
                    assert(webpage_answers(fv, ok_saved, no_target, ok_saved));
                    crate::add_import::lemma_extends_trans(f0, f1, fetcher.log@);
                    crate::add_import::lemma_log_concat(f0, f1, fetcher.log@);
                    let fl = fetcher.log@;
                    let whole = fl.subrange(f0.len() as int, fl.len() as int);
                    let inner = fl.subrange(f1.len() as int, fl.len() as int);
                    assert(f1.subrange(f0.len() as int, f1.len() as int) =~= seq![page]);
                    assert(whole == seq![page] + inner);
                    assert(whole.drop_first() =~= inner);
                    assert(whole[0] == page);
                    assert(u@ == "https://doi.org/"@ + page_doi(fv)->0);
                    assert(webpage_log_answers(fv, Seq::empty(), ok_saved, dummy_json, dummy_json));
                }
                return r;
            }
        }
    }
    proof {
        assert(!(depth > 0 && page_doi(fv) is Some));
        assert(title@ == page_title_and_url(text@, fv).0);
        assert(final_url@ == page_title_and_url(text@, fv).1);
    }
    let item = webpage_item(title.as_str(), text);
    let ghost itv = item@;
    let mut items: Vec<Json> = Vec::new();
    items.push(item);
    proof {
        crate::json::lemma_jsons_view(items@);
        assert(crate::json::jsons_view(items@) =~= seq![itv]);
    }
    let sid = crate::clock::session_id("add-url", &mut runtime.session_counter);
    let saved = connector.save_items(runtime.port, &items, sid.as_str(), options.connector_timeout_secs);
    let ghost sv = crate::import_target::done_answer(saved);
    let ghost save_call = crate::import_target::ConnectorCall::SaveItems {
        port,
        items: seq![itv],
        session_id: sid@,
        timeout: options.connector_timeout_secs,
        answer: sv,
    };
    let ghost c1 = connector.log@;
    proof {
        assert(c1 == c0.push(save_call));
        crate::add_import::lemma_extends_push(c0, save_call);
        assert(c1 =~= c0 + seq![save_call]);
        crate::add_import::lemma_log_split(c0, seq![save_call]);
    }
    if let Err(e) = saved {
        let r = url_failed(text, e.0.as_str());
        proof {
            assert(r@ == webpage_outcome(text@, fv, Err(e.0@), no_target, ok_saved));
            assert(webpage_answers(fv, Err(e.0@), no_target, ok_saved));
            assert(webpage_log_answers(fv, sid@, sv, dummy_json, dummy_json));
        }
        return r;
    }
    let collection_key = as_opt_str(&options.collection_key);
    let session_collection = as_opt_str(&options.session_collection);
    let target_r = crate::import_target::resolve_target(runtime, collection_key, session_collection, lookups, connector);
    let ghost sel: Result<JsonV, Seq<char>> = if decided is None {
        choose|answer: Result<JsonV, Seq<char>>|
            connector.log@ == c1.push(crate::import_target::ConnectorCall::SelectedCollection { port, timeout: 5, answer })
            && crate::import_target::json_answer(target_r) == #[trigger] crate::import_target::target_from_selection(answer)
    } else {
        dummy_json
    };
    let target = match target_r {
        Ok(t) => t,
        Err(e) => {
            let r = url_failed(text, e.0.as_str());
            proof {
                let filing = crate::import_core::session_filing_run(port, options.connector_timeout_secs, tagv, decided, sid@, sel,
                    dummy_json);
                assert(connector.log@ =~= c0 + (seq![save_call] + filing.0));
                crate::add_import::lemma_log_split(c0, seq![save_call] + filing.0);
                assert(filing.1 == Err::<JsonV, Seq<char>>(e.0@));
                assert(r@ == webpage_outcome(text@, fv, ok_saved, Err(e.0@), ok_saved));
                assert(webpage_answers(fv, ok_saved, Err(e.0@), ok_saved));
                assert(webpage_log_answers(fv, sid@, sv, sel, dummy_json));
            }
            return r;
        },
    };
    let ghost tg = target@;
    let tags = crate::add_import::normalize_tags(&options.tags);
    let tv = crate::add_import::tree_view_exec(&target);
    let updated = connector.update_session(runtime.port, sid.as_str(), tv.as_str(), &tags, options.connector_timeout_secs);
    let ghost uv = crate::import_target::json_answer(updated);
    let ghost filing = crate::import_core::session_filing_run(port, options.connector_timeout_secs, tagv, decided, sid@, sel, uv);
    proof {
        assert(connector.log@ =~= c0 + (seq![save_call] + filing.0));
        crate::add_import::lemma_log_split(c0, seq![save_call] + filing.0);
    }
    if let Err(e) = updated {
        let r = url_failed(text, e.0.as_str());
        proof {
            assert(filing.1 == Err::<JsonV, Seq<char>>(e.0@));
            assert(r@ == webpage_outcome(text@, fv, ok_saved, Ok(tg), Err(e.0@)));
            assert(webpage_answers(fv, ok_saved, Ok(tg), Err(e.0@)));
            assert(webpage_log_answers(fv, sid@, sv, sel, uv));
        }
        return r;
    }
    let r = webpage_payload(text, title.as_str(), final_url.as_str(), target);
    proof {
        assert(filing.1 == Ok::<JsonV, Seq<char>>(tg));
        assert(r@ == webpage_outcome(text@, fv, ok_saved, Ok(tg), ok_saved));
        assert(webpage_answers(fv, ok_saved, Ok(tg), ok_saved));
        assert(webpage_log_answers(fv, sid@, sv, sel, uv));
    }
    r
}

/// The members of an `add_arxiv` payload.
pub open spec fn arxiv_members(imported: JsonV, doi: Seq<char>, aid: Seq<char>) -> Seq<(Seq<char>, JsonV)> {
    seq![
        ("key"@, member_or_null(imported, "key"@)),
        ("title"@, member_or_null(imported, "title"@)),
        ("DOI"@, match get_spec(imported, "DOI"@) {
            Some(d) => d,
            None => JsonV::Str(doi),
        }),
        ("arxiv_id"@, JsonV::Str(aid)),
        ("source"@, member_or_null(imported, "source"@)),
        ("import_result"@, imported),
    ]
}

/// The `add_arxiv` payload of an import.
pub open spec fn arxiv_spec(imported: JsonV, doi: Seq<char>, aid: Seq<char>) -> JsonV {
    payload_spec("add_arxiv"@, is_true(imported, "ok"@), str_member_or(imported, "status"@, "success"@),
        Some(str_member_or(imported, "code"@, "IMPORTED"@)), opt_str_of(imported, "error"@), arxiv_members(imported, doi, aid))
}

fn arxiv_payload(imported: Json, doi: &str, aid: &str) -> (r: Json)
    ensures
        r@ == arxiv_spec(imported@, doi@, aid@),
{
    let ok = is_true_exec(&imported, "ok");
    let status = match imported.get("status") {
        Some(Json::Str(st)) => st.clone(),
        _ => "success".to_owned(),
    };
    let code = match imported.get("code") {
        Some(Json::Str(c)) => c.clone(),
        _ => "IMPORTED".to_owned(),
    };
    let error = opt_str_member(&imported, "error");
    let doi_value = match imported.get("DOI") {
        Some(d) => d.deep_clone(),
        None => Json::Str(doi.to_owned()),
    };
    let ghost iv = imported@;
    let mut m: Vec<(String, Json)> = Vec::new();
    m.push(("key".to_owned(), get_or_null(&imported, "key")));
    m.push(("title".to_owned(), get_or_null(&imported, "title")));
    m.push(("DOI".to_owned(), doi_value));
    m.push(("arxiv_id".to_owned(), Json::Str(aid.to_owned())));
    m.push(("source".to_owned(), get_or_null(&imported, "source")));
    m.push(("import_result".to_owned(), imported));
    proof {
        reveal_with_fuel(entries_view, 7);
        assert(entries_view(m@) =~= arxiv_members(iv, doi@, aid@));
    }
    result_payload("add_arxiv", ok, status.as_str(), Some(code.as_str()), as_opt_str(&error), m)
}

/// The payload of an import from arXiv's BibTeX.
pub open spec fn arxiv_bibtex_spec(imported: Seq<JsonV>, doi: Seq<char>) -> JsonV {
    payload_spec("import_doi"@, true, "success"@, Some("IMPORTED"@), None, seq![
        ("key"@, member_or_null(crate::add_import::first_item(imported), "key"@)),
        ("title"@, member_or_null(crate::add_import::first_item(imported), "title"@)),
        ("DOI"@, JsonV::Str(doi)),
        ("source"@, JsonV::Str("arxiv-bibtex"@)),
        ("items"@, JsonV::Array(imported)),
    ])
}

/// The answers an arXiv BibTeX import works from (a name to quantify over them by).
pub open spec fn arxiv_bibtex_answers(
    fetched: Result<Seq<char>, Seq<char>>,
    sid: Seq<char>,
    imported: Result<Seq<JsonV>, Seq<char>>,
    selected: Result<JsonV, Seq<char>>,
    updated: Result<JsonV, Seq<char>>,
) -> bool {
    true
}

/// The requests of importing an arXiv paper from arXiv's BibTeX and its outcome: nothing asked
/// without the connector; else arXiv's BibTeX for `aid` fetched (30-second timeout), then that
/// BibTeX imported through the connector in session `sid`, then the session filed under the
/// target; the first failure, or the payload of the items imported.
pub open spec fn arxiv_bibtex_logged(
    aid: Seq<char>,
    doi: Seq<char>,
    options: AddImportOptions,
    available: bool,
    message: Seq<char>,
    port: u16,
    lookups: TargetLookups,
    fetch_calls: Seq<crate::add_import::FetchCall>,
    connector_calls: Seq<crate::import_target::ConnectorCall>,
    r: Result<JsonV, Seq<char>>,
) -> bool {
    if !available {
        fetch_calls.len() == 0 && connector_calls.len() == 0 && r == Err::<JsonV, Seq<char>>(
            crate::add_import::connector_missing(message),
        )
    } else {
        exists|fetched: Result<Seq<char>, Seq<char>>, sid: Seq<char>, imported: Result<Seq<JsonV>, Seq<char>>, selected: Result<
            JsonV,
            Seq<char>,
        >, updated: Result<JsonV, Seq<char>>|
            #[trigger] arxiv_bibtex_answers(fetched, sid, imported, selected, updated) && {
                let timeout = options.connector_timeout_secs;
                let fetch = crate::add_import::FetchCall::ArxivBibtex { arxiv_id: aid, timeout: 30, answer: fetched };
                &&& fetch_calls == seq![fetch]
                &&& match fetched {
                    Err(m) => connector_calls.len() == 0 && r == Err::<JsonV, Seq<char>>(m),
                    Ok(bib) => {
                        let imp = crate::import_target::ConnectorCall::ImportText {
                            port,
                            content: bib,
                            session_id: sid,
                            content_type: "text/x-bibtex"@,
                            timeout,
                            answer: imported,
                        };
                        match imported {
                            Err(m) => connector_calls == seq![imp] && r == Err::<JsonV, Seq<char>>(m),
                            Ok(items) => {
                                let filing = crate::import_core::session_filing_run(port, timeout, clean_tags(strings_view(
                                    options.tags@)), crate::add_import::add_target_decision(available, options, lookups), sid,
                                    selected, updated);
                                connector_calls == seq![imp] + filing.0 && match filing.1 {
                                    Err(m) => r == Err::<JsonV, Seq<char>>(m),
                                    Ok(_) => r == Ok::<JsonV, Seq<char>>(arxiv_bibtex_spec(items, doi)),
                                }
                            },
                        }
                    },
                }
            }
    }
}

/// Imports an arXiv paper from arXiv's BibTeX through the connector.
#[verifier::rlimit(60)]
fn import_arxiv_bibtex<C: ConnectorImportClient, F: AddImportFetcher>(
    runtime: &mut ImportRuntime,
    connector: &mut LoggedConnector<C>,
    fetcher: &mut LoggedFetcher<F>,
    aid: &str,
    doi: &str,
    options: &AddImportOptions,
    lookups: &TargetLookups,
) -> (r: Result<Json, DomainError>)
    ensures
        r matches Ok(p) ==> exists|imported: Seq<JsonV>| p@ == arxiv_bibtex_spec(imported, doi@),
        !old(runtime).connector_available ==> (r matches Err(e) && e.0@ == crate::add_import::connector_missing(
            old(runtime).connector_message@)),
        crate::import_target::decided_target(old(runtime).connector_available, crate::add_import::opt_string(
            options.collection_key), crate::add_import::opt_string(options.session_collection),
            crate::import_target::lookup_view(lookups.collection), crate::import_target::default_view(
            lookups.default_library)) matches Some(Err(_)) ==> r is Err,
        final(runtime).connector_available == old(runtime).connector_available,
        final(runtime).connector_message == old(runtime).connector_message,
        final(runtime).port == old(runtime).port,
        r matches Ok(p) ==> exists|imported: Seq<JsonV>| p@ == #[trigger] arxiv_bibtex_spec(imported, doi@),
        log_extends(old(fetcher).log@, final(fetcher).log@),
        log_extends(old(connector).log@, final(connector).log@),
        arxiv_bibtex_logged(aid@, doi@, *options, old(runtime).connector_available, old(runtime).connector_message@,
            old(runtime).port, *lookups, final(fetcher).log@.subrange(old(fetcher).log@.len() as int, final(fetcher).log@.len() as int),
            final(connector).log@.subrange(old(connector).log@.len() as int, final(connector).log@.len() as int),
            crate::import_target::json_answer(r)),
{
    let ghost c0 = connector.log@;
    let ghost f0 = fetcher.log@;
    let ghost port = runtime.port;
    let ghost decided = crate::add_import::add_target_decision(runtime.connector_available, *options, *lookups);
    let ghost tagv = clean_tags(strings_view(options.tags@));
    let ghost dummy_json = Err::<JsonV, Seq<char>>(Seq::empty());
    proof {
        crate::add_import::lemma_extends_refl(f0);
        crate::add_import::lemma_extends_refl(c0);
        crate::add_import::lemma_log_split(f0, Seq::<crate::add_import::FetchCall>::empty());
        assert(f0 + Seq::<crate::add_import::FetchCall>::empty() =~= f0);
        crate::add_import::lemma_log_split(c0, Seq::<crate::import_target::ConnectorCall>::empty());
        assert(c0 + Seq::<crate::import_target::ConnectorCall>::empty() =~= c0);
    }
    if let Err(e) = crate::add_import::require_connector(runtime) {
        return Err(e);
    }
    let fetched_bib = fetcher.fetch_arxiv_bibtex(aid, 30);
    let ghost fa = crate::add_import::text_answer(fetched_bib);
    let ghost fetch = crate::add_import::FetchCall::ArxivBibtex { arxiv_id: aid@, timeout: 30, answer: fa };
    proof {
        crate::add_import::lemma_extends_push(f0, fetch);
        assert(fetcher.log@ =~= f0 + seq![fetch]);
        crate::add_import::lemma_log_split(f0, seq![fetch]);
    }
    let bibtex = match fetched_bib {
        Ok(b) => b,
        Err(e) => {
            proof {
                assert(arxiv_bibtex_answers(fa, Seq::empty(), not_asked_items(), dummy_json, dummy_json));
            }
            return Err(e);
        },
    };
    let sid = crate::clock::session_id("add-arxiv", &mut runtime.session_counter);
    let imported_r = connector.import_text(runtime.port, bibtex.as_str(), sid.as_str(), "text/x-bibtex", options.connector_timeout_secs);
    let ghost ia = crate::import_target::items_answer(imported_r);
    let ghost imp = crate::import_target::ConnectorCall::ImportText {
        port,
        content: bibtex@,
        session_id: sid@,
        content_type: "text/x-bibtex"@,
        timeout: options.connector_timeout_secs,
        answer: ia,
    };
    let ghost c1 = connector.log@;
    proof {
        reveal_strlit("text/x-bibtex");
        crate::add_import::lemma_extends_push(c0, imp);
        assert(c1 =~= c0 + seq![imp]);
        crate::add_import::lemma_log_split(c0, seq![imp]);
    }
    let imported = match imported_r {
        Ok(v) => v,
        Err(e) => {
            proof {
                assert(arxiv_bibtex_answers(fa, sid@, ia, dummy_json, dummy_json));
            }
            return Err(e);
        },
    };
    let target_r = crate::import_target::resolve_target(runtime, as_opt_str(&options.collection_key),
        as_opt_str(&options.session_collection), lookups, connector);
    let ghost sel: Result<JsonV, Seq<char>> = if decided is None {
        choose|answer: Result<JsonV, Seq<char>>|
            connector.log@ == c1.push(crate::import_target::ConnectorCall::SelectedCollection { port, timeout: 5, answer })
            && crate::import_target::json_answer(target_r) == #[trigger] crate::import_target::target_from_selection(answer)
    } else {
        dummy_json
    };
    let ghost c2 = connector.log@;
    proof {
        if decided is None {
            crate::add_import::lemma_extends_push(c1, c2.last());
            assert(c2 == c1.push(c2.last()));
        } else {
            crate::add_import::lemma_extends_refl(c1);
        }
        crate::add_import::lemma_extends_trans(c0, c1, c2);
    }
    let target = match target_r {
        Ok(t) => t,
        Err(e) => {
            proof {
                let filing = crate::import_core::session_filing_run(port, options.connector_timeout_secs, tagv, decided, sid@,
                    sel, dummy_json);
                assert(connector.log@ =~= c0 + (seq![imp] + filing.0));
                crate::add_import::lemma_log_split(c0, seq![imp] + filing.0);
                assert(filing.1 == Err::<JsonV, Seq<char>>(e.0@));
                assert(arxiv_bibtex_answers(fa, sid@, ia, sel, dummy_json));
            }
            return Err(e);
        },
    };
    let ghost tg = target@;
    let tags = crate::add_import::normalize_tags(&options.tags);
    let tv = crate::add_import::tree_view_exec(&target);
    let updated = connector.update_session(runtime.port, sid.as_str(), tv.as_str(), &tags, options.connector_timeout_secs);
    let ghost uv = crate::import_target::json_answer(updated);
    let ghost filing = crate::import_core::session_filing_run(port, options.connector_timeout_secs, tagv, decided, sid@, sel, uv);
    proof {
        crate::add_import::lemma_extends_push(c2, connector.log@.last());
        assert(connector.log@ == c2.push(connector.log@.last()));
        crate::add_import::lemma_extends_trans(c0, c2, connector.log@);
        assert(connector.log@ =~= c0 + (seq![imp] + filing.0));
        crate::add_import::lemma_log_split(c0, seq![imp] + filing.0);
    }
    if let Err(e) = updated {
        proof {
            assert(filing.1 == Err::<JsonV, Seq<char>>(e.0@));
            assert(arxiv_bibtex_answers(fa, sid@, ia, sel, uv));
        }
        return Err(e);
    }
    proof {
        crate::json::lemma_jsons_view(imported@);
        assert(filing.1 == Ok::<JsonV, Seq<char>>(tg));
    }
    let (key, title) = if imported.len() > 0 {
        (get_or_null(&imported[0], "key"), get_or_null(&imported[0], "title"))
    } else {
        (Json::Null, Json::Null)
    };
    let ghost iv = jsons_view(imported@);
    let extra = five(
        "key", key,
        "title", title,
        "DOI", Json::Str(doi.to_owned()),
        "source", Json::Str("arxiv-bibtex".to_owned()),
        "items", Json::Array(imported),
    );
    let p = result_payload("import_doi", true, "success", Some("IMPORTED"), None, extra);
    proof {
        assert(p@ == arxiv_bibtex_spec(iv, doi@));
        assert(ia == Ok::<Seq<JsonV>, Seq<char>>(iv));
        assert(arxiv_bibtex_answers(fa, sid@, ia, sel, uv));
    }
    Ok(p)
}

/// The answer standing for an import that was not asked for.
spec fn not_asked_items() -> Result<Seq<JsonV>, Seq<char>> {
    Err(Seq::empty())
}

/// The payload of an arXiv paper that no path imported.
pub open spec fn arxiv_failed_spec(aid: Seq<char>, doi: Seq<char>, error: Seq<char>, imported: JsonV) -> JsonV {
    payload_spec("add_arxiv"@, false, "error"@, Some("IMPORT_FAILED"@), Some(error), seq![
        ("arxiv_id"@, JsonV::Str(aid)),
        ("DOI"@, JsonV::Str(doi)),
        ("import_result"@, imported),
    ])
}

/// Whether `a` holds the options `b` holds, but for the translator preference `prefer`.
pub open spec fn options_but_translator(a: AddImportOptions, b: AddImportOptions, prefer: bool) -> bool {
    &&& opt_string(a.collection_key) == opt_string(b.collection_key)
    &&& strings_view(a.tags@) == strings_view(b.tags@)
    &&& opt_string(a.session_collection) == opt_string(b.session_collection)
    &&& a.if_exists@ == b.if_exists@
    &&& a.dedupe == b.dedupe
    &&& a.prefer_translator == prefer
    &&& a.fetch_pdf == b.fetch_pdf
    &&& opt_string(a.pdf_sources) == opt_string(b.pdf_sources)
    &&& a.library_id == b.library_id
    &&& a.connector_timeout_secs == b.connector_timeout_secs
}

fn options_copy(o: &AddImportOptions, prefer_translator: bool) -> (r: AddImportOptions)
    ensures
        r.if_exists@ == o.if_exists@,
        strings_view(r.tags@) == strings_view(o.tags@),
        r.prefer_translator == prefer_translator,
        options_but_translator(r, *o, prefer_translator),
{
    let mut tags: Vec<String> = Vec::new();
    let mut i: usize = 0;
    while i < o.tags.len()
        invariant
            i <= o.tags@.len(),
            strings_view(tags@) == strings_view(o.tags@).subrange(0, i as int),
        decreases o.tags.len() - i,
    {
        let ghost before = tags@;
        let t = o.tags[i].clone();
        tags.push(t);
        proof {
            assert(tags@ =~= before.push(t));
            assert(t@ == o.tags@[i as int]@);
            assert(strings_view(before).len() == i);
            assert forall|k: int| 0 <= k < i + 1 implies #[trigger] strings_view(tags@)[k] == strings_view(o.tags@).subrange(0, i + 1)[k] by {
                if k < i {
                    assert(strings_view(tags@)[k] == tags@[k]@);
                    assert(tags@[k] == before[k]);
                    assert(strings_view(before)[k] == before[k]@);
                }
            }
            assert(strings_view(tags@) =~= strings_view(o.tags@).subrange(0, i + 1));
        }
        i = i + 1;
    }
    proof {
        assert(strings_view(o.tags@).subrange(0, o.tags@.len() as int) =~= strings_view(o.tags@));
    }
    AddImportOptions {
        collection_key: opt_clone(&o.collection_key),
        tags,
        session_collection: opt_clone(&o.session_collection),
        if_exists: o.if_exists.clone(),
        dedupe: o.dedupe,
        prefer_translator,
        fetch_pdf: o.fetch_pdf,
        pdf_sources: opt_clone(&o.pdf_sources),
        library_id: o.library_id,
        connector_timeout_secs: o.connector_timeout_secs,
    }
}

/// The DOI under which arXiv registers a paper.
pub open spec fn arxiv_doi_spec(aid: Seq<char>) -> Seq<char> {
    "10.48550/arXiv."@ + aid
}

/// The DOI under which arXiv registers a paper.
pub fn arxiv_doi(aid: &str) -> (r: String)
    ensures
        r@ == arxiv_doi_spec(aid@),
{
    concat_str("10.48550/arXiv.", aid)
}

/// What adding an arXiv paper answers, given the DOI import of its arXiv DOI (`imported`) and
/// the import from arXiv's BibTeX (`bibtex`, tried when the DOI import did not succeed).
pub open spec fn arxiv_add_spec(aid: Seq<char>, imported: JsonV, bibtex: Result<JsonV, Seq<char>>) -> JsonV {
    if is_true(imported, "ok"@) {
        arxiv_spec(imported, arxiv_doi_spec(aid), aid)
    } else {
        match bibtex {
            Ok(v) => arxiv_spec(v, arxiv_doi_spec(aid), aid),
            Err(e) => arxiv_failed_spec(aid, arxiv_doi_spec(aid), e, imported),
        }
    }
}

/// What adding an arXiv paper with a valid id may answer: `arxiv_add_spec` for a DOI import of
/// its arXiv DOI (translator preferred) and some BibTeX import, which fails with the
/// connector's absence when the connector is not available and otherwise gives the arXiv
/// BibTeX payload of some items.
pub open spec fn arxiv_add_result(aid: Seq<char>, options: AddImportOptions, available: bool, message: Seq<char>, r: JsonV) -> bool {
    exists|imported: JsonV, bibtex: Result<JsonV, Seq<char>>|
        r == #[trigger] arxiv_add_spec(aid, imported, bibtex)
        && crate::add_import::doi_import_result(arxiv_doi_spec(aid), options.if_exists@, clean_tags(strings_view(options.tags@)),
            true, available, message, imported)
        && (!available ==> bibtex == Err::<JsonV, Seq<char>>(crate::add_import::connector_missing(message)))
        && (bibtex matches Ok(v) ==> exists|items: Seq<JsonV>| v == #[trigger] arxiv_bibtex_spec(items, arxiv_doi_spec(aid)))
}

/// The answers an arXiv paper is added from (a name to quantify over them by).
pub open spec fn arxiv_add_answers(
    doi_options: AddImportOptions,
    doi_bridge: Seq<crate::add_import::BridgeCall>,
    doi_fetch: Seq<crate::add_import::FetchCall>,
    doi_connector: Seq<crate::import_target::ConnectorCall>,
    imported: JsonV,
    bib_fetch: Seq<crate::add_import::FetchCall>,
    bib_connector: Seq<crate::import_target::ConnectorCall>,
    bibtex: Result<JsonV, Seq<char>>,
) -> bool {
    true
}

/// The requests of adding an arXiv paper with a valid id and its answer: the DOI import of its
/// arXiv DOI under the same options with the translator preferred (with that import's
/// requests); when that import did not succeed, the import from arXiv's BibTeX follows (with
/// its requests); the answer is `arxiv_add_spec` of the two.
pub open spec fn arxiv_add_logged(
    aid: Seq<char>,
    options: AddImportOptions,
    available: bool,
    message: Seq<char>,
    port: u16,
    lookups: TargetLookups,
    bridge_calls: Seq<crate::add_import::BridgeCall>,
    fetch_calls: Seq<crate::add_import::FetchCall>,
    connector_calls: Seq<crate::import_target::ConnectorCall>,
    r: JsonV,
) -> bool {
    exists|doi_options: AddImportOptions, doi_bridge: Seq<crate::add_import::BridgeCall>, doi_fetch: Seq<
        crate::add_import::FetchCall,
    >, doi_connector: Seq<crate::import_target::ConnectorCall>, imported: JsonV, bib_fetch: Seq<crate::add_import::FetchCall>,
        bib_connector: Seq<crate::import_target::ConnectorCall>, bibtex: Result<JsonV, Seq<char>>|
        #[trigger] arxiv_add_answers(doi_options, doi_bridge, doi_fetch, doi_connector, imported, bib_fetch, bib_connector, bibtex)
            && {
            let doi = arxiv_doi_spec(aid);
            &&& options_but_translator(doi_options, options, true)
            &&& crate::add_import::doi_import_logged(doi, doi_options, available, message, port, lookups, doi_bridge, doi_fetch,
                doi_connector, imported)
            &&& bridge_calls == doi_bridge
            &&& r == arxiv_add_spec(aid, imported, bibtex)
            &&& if is_true(imported, "ok"@) {
                fetch_calls == doi_fetch && connector_calls == doi_connector
            } else {
                &&& arxiv_bibtex_logged(aid, doi, options, available, message, port, lookups, bib_fetch, bib_connector, bibtex)
                &&& fetch_calls == doi_fetch + bib_fetch
                &&& connector_calls == doi_connector + bib_connector
            }
        }
}

/// Adds an arXiv paper: by its DOI (`10.48550/arXiv.` and the id) with Zotero's translators
/// preferred, else from arXiv's BibTeX.
#[verifier::rlimit(60)]
pub fn add_arxiv_with_clients<B: AddImportBridge, C: ConnectorImportClient, F: AddImportFetcher>(
    runtime: &mut ImportRuntime,
    bridge: &mut LoggedBridge<B>,
    connector: &mut LoggedConnector<C>,
    fetcher: &mut LoggedFetcher<F>,
    arxiv_id: &str,
    options: &AddImportOptions,
    lookups: &TargetLookups,
) -> (r: Json)
    ensures
        match arxiv_id_spec(arxiv_id@) {
            Err(m) => r@ == payload_spec("add_arxiv"@, false, "error"@, Some("INVALID_ARXIV"@), Some(m), Seq::empty()),
            Ok(aid) => arxiv_add_result(aid, *options, old(runtime).connector_available, old(runtime).connector_message@, r@),
        },
        final(runtime).connector_available == old(runtime).connector_available,
        final(runtime).connector_message == old(runtime).connector_message,
        log_extends(old(fetcher).log@, final(fetcher).log@),
        log_extends(old(bridge).log@, final(bridge).log@),
        log_extends(old(connector).log@, final(connector).log@),
        arxiv_id_spec(arxiv_id@) is Err ==> final(bridge).log@ == old(bridge).log@ && final(fetcher).log@ == old(fetcher).log@
            && final(connector).log@ == old(connector).log@,
        arxiv_id_spec(arxiv_id@) matches Ok(aid) ==> arxiv_add_logged(aid, *options, old(runtime).connector_available,
            old(runtime).connector_message@, old(runtime).port, *lookups, final(bridge).log@.subrange(old(bridge).log@.len() as int,
            final(bridge).log@.len() as int), final(fetcher).log@.subrange(old(fetcher).log@.len() as int,
            final(fetcher).log@.len() as int), final(connector).log@.subrange(old(connector).log@.len() as int,
            final(connector).log@.len() as int), r@),
        final(runtime).port == old(runtime).port,
{
    let ghost f0 = fetcher.log@;
    let ghost c0 = connector.log@;
    let ghost b0 = bridge.log@;
    let ghost port = runtime.port;
    proof {
        crate::add_import::lemma_extends_refl(f0);
        crate::add_import::lemma_extends_refl(c0);
        crate::add_import::lemma_extends_refl(bridge.log@);
    }
    let aid = match normalize_arxiv_id(arxiv_id) {
        Ok(a) => a,
        Err(e) => {
            let m: Vec<(String, Json)> = Vec::new();
            proof {
                assert(entries_view(m@) =~= Seq::<(Seq<char>, JsonV)>::empty());
            }
            return result_payload("add_arxiv", false, "error", Some("INVALID_ARXIV"), Some(e.0.as_str()), m);
        },
    };
    let ghost avail = runtime.connector_available;
    let ghost msg = runtime.connector_message@;
    let doi = arxiv_doi(aid.as_str());
    let doi_options = options_copy(options, true);
    let mut imported = import_doi_with_clients(runtime, bridge, connector, fetcher, doi.as_str(), &doi_options, lookups);
    let ghost first = imported@;
    let ghost no_bibtex = Err::<JsonV, Seq<char>>(crate::add_import::connector_missing(msg));
    let ghost b1 = bridge.log@;
    let ghost f1 = fetcher.log@;
    let ghost c1 = connector.log@;
    let ghost db = b1.subrange(b0.len() as int, b1.len() as int);
    let ghost df = f1.subrange(f0.len() as int, f1.len() as int);
    let ghost dc = c1.subrange(c0.len() as int, c1.len() as int);
    let ghost empty_fetch = Seq::<crate::add_import::FetchCall>::empty();
    let ghost empty_conn = Seq::<crate::import_target::ConnectorCall>::empty();
    proof {
        assert(doi@ == arxiv_doi_spec(aid@));
    }
    if !is_true_exec(&imported, "ok") {
        let bib = import_arxiv_bibtex(runtime, connector, fetcher, aid.as_str(), doi.as_str(), options, lookups);
        let ghost bv = crate::import_target::json_answer(bib);
        let ghost bf = fetcher.log@.subrange(f1.len() as int, fetcher.log@.len() as int);
        let ghost bc = connector.log@.subrange(c1.len() as int, connector.log@.len() as int);
        proof {
            crate::add_import::lemma_extends_trans(f0, f1, fetcher.log@);
            crate::add_import::lemma_extends_trans(c0, c1, connector.log@);
            crate::add_import::lemma_log_concat(f0, f1, fetcher.log@);
            crate::add_import::lemma_log_concat(c0, c1, connector.log@);
            assert(arxiv_add_answers(doi_options, db, df, dc, first, bf, bc, bv));
        }
        match bib {
            Ok(v) => {
                proof {
                    assert(arxiv_add_spec(aid@, first, Ok(v@)) == arxiv_spec(v@, doi@, aid@));
                }
                let ghost vv = v@;
                let r = arxiv_payload(v, doi.as_str(), aid.as_str());
                proof {
                    assert(r@ == arxiv_add_spec(aid@, first, Ok(vv)));
                    assert(bv == Ok::<JsonV, Seq<char>>(vv));
                }
                return r;
            },
            Err(e) => {
                let ghost iv = imported@;
                let extra = crate::add_import::members3_pub("arxiv_id", Json::Str(aid.clone()), "DOI", Json::Str(doi.clone()),
                    "import_result", imported);
                let r = result_payload("add_arxiv", false, "error", Some("IMPORT_FAILED"), Some(e.0.as_str()), extra);
                proof {
                    assert(r@ == arxiv_failed_spec(aid@, doi@, e.0@, iv));
                    assert(r@ == arxiv_add_spec(aid@, first, Err(e.0@)));
                    assert(bv == Err::<JsonV, Seq<char>>(e.0@));
                }
                return r;
            },
        }
    }
    let ghost iv = imported@;
    let r = arxiv_payload(imported, doi.as_str(), aid.as_str());
    proof {
        assert(r@ == arxiv_spec(iv, doi@, aid@));
        assert(r@ == arxiv_add_spec(aid@, first, no_bibtex));
        assert(arxiv_add_answers(doi_options, db, df, dc, first, empty_fetch, empty_conn, no_bibtex));
    }
    r
}

/// Adds what a URL names: an arXiv paper, a DOI, or else the web page itself.
pub fn add_url_with_clients<B: AddImportBridge, C: ConnectorImportClient, F: AddImportFetcher>(
    runtime: &mut ImportRuntime,
    bridge: &mut LoggedBridge<B>,
    connector: &mut LoggedConnector<C>,
    fetcher: &mut LoggedFetcher<F>,
    url: &str,
    options: &AddImportOptions,
    lookups: &TargetLookups,
) -> (r: Json)
    ensures
        url_add_result(url@, *options, old(runtime).connector_available, old(runtime).connector_message@, 1, r@),
        log_extends(old(fetcher).log@, final(fetcher).log@),
        log_extends(old(bridge).log@, final(bridge).log@),
        log_extends(old(connector).log@, final(connector).log@),
        url_add_logged(url@, *options, old(runtime).connector_available, old(runtime).connector_message@, old(runtime).port,
            *lookups, 1, final(bridge).log@.subrange(old(bridge).log@.len() as int, final(bridge).log@.len() as int),
            final(fetcher).log@.subrange(old(fetcher).log@.len() as int, final(fetcher).log@.len() as int),
            final(connector).log@.subrange(old(connector).log@.len() as int, final(connector).log@.len() as int), r@),
{
    add_url_inner(runtime, bridge, connector, fetcher, url, options, lookups, 1)
}

#[verifier::rlimit(60)]
fn add_url_inner<B: AddImportBridge, C: ConnectorImportClient, F: AddImportFetcher>(
    runtime: &mut ImportRuntime,
    bridge: &mut LoggedBridge<B>,
    connector: &mut LoggedConnector<C>,
    fetcher: &mut LoggedFetcher<F>,
    url: &str,
    options: &AddImportOptions,
    lookups: &TargetLookups,
    depth: u8,
) -> (r: Json)
    ensures
        url_add_result(url@, *options, old(runtime).connector_available, old(runtime).connector_message@, depth as nat, r@),
        final(runtime).connector_available == old(runtime).connector_available,
        final(runtime).connector_message == old(runtime).connector_message,
        log_extends(old(fetcher).log@, final(fetcher).log@),
        log_extends(old(bridge).log@, final(bridge).log@),
        log_extends(old(connector).log@, final(connector).log@),
        url_add_logged(url@, *options, old(runtime).connector_available, old(runtime).connector_message@, old(runtime).port,
            *lookups, depth as nat, final(bridge).log@.subrange(old(bridge).log@.len() as int, final(bridge).log@.len() as int),
            final(fetcher).log@.subrange(old(fetcher).log@.len() as int, final(fetcher).log@.len() as int),
            final(connector).log@.subrange(old(connector).log@.len() as int, final(connector).log@.len() as int), r@),
        final(runtime).port == old(runtime).port,
    decreases depth, 1int,
{
    proof {
        crate::add_import::lemma_extends_refl(fetcher.log@);
        crate::add_import::lemma_extends_refl(bridge.log@);
        crate::add_import::lemma_extends_refl(connector.log@);
        crate::add_import::lemma_log_split(bridge.log@, Seq::<crate::add_import::BridgeCall>::empty());
        assert(bridge.log@ + Seq::<crate::add_import::BridgeCall>::empty() =~= bridge.log@);
        crate::add_import::lemma_log_split(fetcher.log@, Seq::<crate::add_import::FetchCall>::empty());
        assert(fetcher.log@ + Seq::<crate::add_import::FetchCall>::empty() =~= fetcher.log@);
        crate::add_import::lemma_log_split(connector.log@, Seq::<crate::import_target::ConnectorCall>::empty());
        assert(connector.log@ + Seq::<crate::import_target::ConnectorCall>::empty() =~= connector.log@);
    }
    let text = trim_str(url);
    if str_is_empty(text.as_str()) {
        let m: Vec<(String, Json)> = Vec::new();
        proof {
            assert(entries_view(m@) =~= Seq::<(Seq<char>, JsonV)>::empty());
        }
        return result_payload("add_url", false, "error", Some("INVALID_URL"), Some("empty url"), m);
    }
    let lower = to_lowercase(text.as_str());
    let lv = chars_of(lower.as_str());
    let arxiv_host = crate::text::contains_exec(&lv, &crate::text::lit("arxiv.org"));
    let bare = crate::pattern::regex_is_match("(\\d{4}\\.\\d{4,5})", text.as_str()) == Some(true);
    if (arxiv_host || bare) && normalize_arxiv_id(text.as_str()).is_ok() {
        let mut payload = add_arxiv_with_clients(runtime, bridge, connector, fetcher, text.as_str(), options, lookups);
        let ghost p0 = payload@;
        crate::add_import::object_insert(&mut payload, "action", Json::Str("add_url".to_owned()));
        crate::add_import::object_insert(&mut payload, "url", Json::Str(text.clone()));
        crate::add_import::object_insert(&mut payload, "url_kind", Json::Str("arxiv".to_owned()));
        proof {
            assert(payload@ == as_url_answer(p0, text@, "arxiv"@));
        }
        return payload;
    }
    let doi_host = crate::text::contains_exec(&lv, &crate::text::lit("doi.org"));
    let doi_like = crate::pattern::regex_is_match("10\\.\\d{4,9}/[^\\s]+", text.as_str()) == Some(true);
    if doi_host || doi_like {
        let doi = match find_doi_in_text(text.as_str()) {
            Some(d) => d,
            None => crate::import_normalization::normalize_doi(Some(text.as_str())),
        };
        let ghost avail = runtime.connector_available;
        let ghost msg = runtime.connector_message@;
        let ghost port = runtime.port;
        let ghost b0 = bridge.log@;
        let ghost f0 = fetcher.log@;
        let ghost c0 = connector.log@;
        let mut payload = import_wrapped_add_doi(runtime, bridge, connector, fetcher, doi.as_str(), options, lookups);
        let ghost p0 = payload@;
        let ghost imp = choose|imported: JsonV|
            p0 == #[trigger] wrapped_doi_spec(imported, doi@) && crate::add_import::doi_import_logged(doi@, *options, avail, msg,
                port, *lookups, bridge.log@.subrange(b0.len() as int, bridge.log@.len() as int), fetcher.log@.subrange(
                f0.len() as int, fetcher.log@.len() as int), connector.log@.subrange(c0.len() as int, connector.log@.len() as int),
                imported);
        crate::add_import::object_insert(&mut payload, "action", Json::Str("add_url".to_owned()));
        crate::add_import::object_insert(&mut payload, "url", Json::Str(text.clone()));
        crate::add_import::object_insert(&mut payload, "url_kind", Json::Str("doi".to_owned()));
        proof {
            assert(payload@ == as_url_answer(p0, text@, "doi"@));
            assert(doi@ == url_doi(text@));
            assert(payload@ == as_url_answer(wrapped_doi_spec(imp, url_doi(text@)), text@, "doi"@));
        }
        return payload;
    }
    add_webpage_url(runtime, bridge, connector, fetcher, text.as_str(), options, lookups, depth)
}

/// The import options of adding a file: the collection, tags and session of the add
/// options, with the import defaults (no manifest, no delay, 30-second timeouts, whole files).
pub fn file_import_options(options: &AddImportOptions) -> (r: crate::import_core::ImportOptions)
    ensures
        opt_string(r.collection_ref) == opt_string(options.collection_key),
        strings_view(r.tags@) == strings_view(options.tags@),
        opt_string(r.session_collection) == opt_string(options.session_collection),
        r.attachment_delay_ms == 0,
        r.attachment_timeout == 30,
        r.connector_timeout_secs == 30,
        !r.split_bib,
{
    let mut tags: Vec<String> = Vec::new();
    let mut i: usize = 0;
    while i < options.tags.len()
        invariant
            i <= options.tags@.len(),
            strings_view(tags@) == strings_view(options.tags@).subrange(0, i as int),
        decreases options.tags.len() - i,
    {
        let ghost before = tags@;
        let t = options.tags[i].clone();
        let ghost tv = t@;
        tags.push(t);
        proof {
            assert(strings_view(tags@) =~= strings_view(before).push(tv));
            assert(tv == options.tags@[i as int]@);
            assert(strings_view(tags@) =~= strings_view(options.tags@).subrange(0, i + 1));
        }
        i = i + 1;
    }
    proof {
        assert(strings_view(options.tags@).subrange(0, options.tags@.len() as int) =~= strings_view(options.tags@));
    }
    crate::import_core::ImportOptions {
        collection_ref: opt_clone(&options.collection_key),
        tags,
        session_collection: opt_clone(&options.session_collection),
        attachment_delay_ms: 0,
        attachment_timeout: 30,
        connector_timeout_secs: 30,
        split_bib: false,
    }
}

/// What adding an existing file was given to work on: its JSON (for a `.json` file), its
/// text (for a file the connector imports), or nothing.
pub enum FileContent {
    Json(Result<Json, DomainError>),
    Text(Result<String, DomainError>),
    Nothing,
}

/// Whether the content given fits the step: JSON for a JSON import, text for a file import.
pub open spec fn content_fits(step: AddFileStep, content: FileContent) -> bool {
    match step {
        AddFileStep::ImportJson => content is Json,
        AddFileStep::ImportFile => content is Text,
        _ => true,
    }
}

/// What importing an existing file may answer: the connector's absence when it is not
/// available; else the content's own error when it could not be read; else, when it
/// succeeds, the import report (of a JSON file or of a file the connector reads, with the
/// 30-second connector timeout) for some session, target, items and attachment results.
pub open spec fn file_import_answer(
    source: Seq<char>,
    options: AddImportOptions,
    available: bool,
    message: Seq<char>,
    content: FileContent,
    json: bool,
    imported: Result<JsonV, Seq<char>>,
) -> bool {
    let tags = clean_tags(strings_view(options.tags@));
    &&& !available ==> imported == Err::<JsonV, Seq<char>>(crate::add_import::connector_missing(message))
    &&& available ==> match content {
        FileContent::Json(Err(e)) => imported == Err::<JsonV, Seq<char>>(e.0@),
        FileContent::Text(Err(e)) => imported == Err::<JsonV, Seq<char>>(e.0@),
        _ => true,
    }
    &&& imported matches Ok(x) ==> if json {
        exists|sid: Seq<char>, target: JsonV, items: Seq<JsonV>, format: Seq<char>, results: Seq<JsonV>|
            x == #[trigger] crate::import_core::json_payload_spec(source, sid, target, tags, items, format, results)
    } else {
        content matches FileContent::Text(Ok(t)) && exists|sid: Seq<char>, target: JsonV, items: Seq<JsonV>, results: Seq<JsonV>|
            x == #[trigger] crate::import_core::file_payload_spec(source, sid, target, tags, items, results, 30,
                crate::import_core::entry_count_spec(source, t@))
    }
}

/// Whether `io` holds the import options a file import runs with under the add options: their
/// collection, tags and session collection; no attachment delay; 30-second attachment and
/// connector timeouts; a BibTeX file imported whole.
pub open spec fn runs_with(io: crate::import_core::ImportOptions, options: AddImportOptions) -> bool {
    &&& opt_string(io.collection_ref) == opt_string(options.collection_key)
    &&& strings_view(io.tags@) == strings_view(options.tags@)
    &&& opt_string(io.session_collection) == opt_string(options.session_collection)
    &&& io.attachment_delay_ms == 0
    &&& io.attachment_timeout == 30
    &&& io.connector_timeout_secs == 30
    &&& !io.split_bib
}

/// Adds an existing file by its type: a JSON file or a file the connector reads is imported
/// (its report wrapped as `IMPORTED`, a failure as `IMPORT_FAILED`); a PDF is added as a PDF;
/// anything else is answered as unsupported.
#[verifier::rlimit(40)]
pub fn add_file_existing<B: AddImportBridge, C: ConnectorImportClient, F: AddImportFetcher,
    A: crate::attachment_upload::AttachmentConnector, R: crate::attachment_upload::RemotePdfFetcher,
    L: crate::attachment_upload::LocalPdfSource>(
    runtime: &mut ImportRuntime,
    bridge: &mut LoggedBridge<B>,
    connector: &mut LoggedConnector<C>,
    fetcher: &mut LoggedFetcher<F>,
    attachment_client: &mut A,
    pdf_fetcher: &mut R,
    local: &mut L,
    source: &str,
    resolved: &str,
    content: FileContent,
    options: &AddImportOptions,
    lookups: &TargetLookups,
) -> (r: Json)
    requires
        content_fits(add_file_step_spec(file_suffix(source@)), content),
    ensures
        add_file_step_spec(file_suffix(source@)) is Unsupported ==> r@ == unsupported_spec(source@, file_suffix(source@)),
        add_file_step_spec(file_suffix(source@)) is ImportJson ==> exists|imported: Result<JsonV, Seq<char>>|
            r@ == #[trigger] file_import_spec(source@, file_suffix(source@), true, imported)
            && file_import_answer(source@, *options, old(runtime).connector_available, old(runtime).connector_message@, content,
                true, imported),
        add_file_step_spec(file_suffix(source@)) is ImportFile ==> exists|imported: Result<JsonV, Seq<char>>|
            r@ == #[trigger] file_import_spec(source@, file_suffix(source@), false, imported)
            && file_import_answer(source@, *options, old(runtime).connector_available, old(runtime).connector_message@, content,
                false, imported),
        add_file_step_spec(file_suffix(source@)) is AddPdf ==> pdf_add_result(source@, *options,
            old(runtime).connector_available, old(runtime).connector_message@, r@),
        final(bridge).log@.len() >= old(bridge).log@.len(),
        final(fetcher).log@.len() >= old(fetcher).log@.len(),
        final(connector).log@.len() >= old(connector).log@.len(),
        final(bridge).log@.subrange(0, old(bridge).log@.len() as int) == old(bridge).log@,
        final(fetcher).log@.subrange(0, old(fetcher).log@.len() as int) == old(fetcher).log@,
        final(connector).log@.subrange(0, old(connector).log@.len() as int) == old(connector).log@,
        !(add_file_step_spec(file_suffix(source@)) is AddPdf) ==> final(bridge).log@ == old(bridge).log@ && final(fetcher).log@
            == old(fetcher).log@,
        add_file_step_spec(file_suffix(source@)) is Unsupported ==> final(connector).log@ == old(connector).log@,
        add_file_step_spec(file_suffix(source@)) is ImportJson ==> exists|imported: Result<JsonV, Seq<char>>,
            io: crate::import_core::ImportOptions|
            #![trigger file_import_spec(source@, file_suffix(source@), true, imported), runs_with(io, *options)]
            r@ == file_import_spec(source@, file_suffix(source@), true, imported) && runs_with(io, *options)
            && crate::import_core::json_import_logged(source@, crate::import_target::json_answer(content->Json_0), io,
                old(runtime).connector_available, old(runtime).connector_message@, old(runtime).port, *lookups,
                final(connector).log@.subrange(old(connector).log@.len() as int, final(connector).log@.len() as int), imported),
        add_file_step_spec(file_suffix(source@)) is ImportFile ==> exists|imported: Result<JsonV, Seq<char>>,
            io: crate::import_core::ImportOptions|
            #![trigger file_import_spec(source@, file_suffix(source@), false, imported), runs_with(io, *options)]
            r@ == file_import_spec(source@, file_suffix(source@), false, imported) && runs_with(io, *options)
            && crate::import_core::file_import_logged(source@, crate::add_import::text_answer(content->Text_0), None, io,
                old(runtime).connector_available, old(runtime).connector_message@, old(runtime).port, *lookups,
                final(connector).log@.subrange(old(connector).log@.len() as int, final(connector).log@.len() as int), imported),
        add_file_step_spec(file_suffix(source@)) is AddPdf ==> pdf_add_logged(source@, resolved@, *options,
            old(runtime).connector_available, old(runtime).connector_message@, old(runtime).port, *lookups,
            final(bridge).log@.subrange(old(bridge).log@.len() as int, final(bridge).log@.len() as int),
            final(fetcher).log@.subrange(old(fetcher).log@.len() as int, final(fetcher).log@.len() as int),
            final(connector).log@.subrange(old(connector).log@.len() as int, final(connector).log@.len() as int), r@),
{
    let ghost b0 = bridge.log@;
    let ghost f0 = fetcher.log@;
    let ghost c0 = connector.log@;
    proof {
        crate::add_import::lemma_log_split(b0, Seq::<crate::add_import::BridgeCall>::empty());
        assert(b0 + Seq::<crate::add_import::BridgeCall>::empty() =~= b0);
        crate::add_import::lemma_log_split(f0, Seq::<crate::add_import::FetchCall>::empty());
        assert(f0 + Seq::<crate::add_import::FetchCall>::empty() =~= f0);
        crate::add_import::lemma_log_split(c0, Seq::<crate::import_target::ConnectorCall>::empty());
        assert(c0 + Seq::<crate::import_target::ConnectorCall>::empty() =~= c0);
    }
    let (step, suffix) = add_file_step(source);
    match step {
        AddFileStep::ImportJson => {
            let raw = match content {
                FileContent::Json(j) => j,
                _ => Err(DomainError::new("")),
            };
            let io = file_import_options(options);
            let imported = crate::import_core::import_json_with_clients(runtime, source, raw, &io, lookups, connector,
                attachment_client, pdf_fetcher, local);
            let ghost iv = match &imported {
                Ok(v) => Ok(v@),
                Err(e) => Err(e.0@),
            };
            let r = file_import_payload(source, suffix.as_str(), true, imported);
            proof {
                assert(r@ == file_import_spec(source@, file_suffix(source@), true, iv));
                assert(runs_with(io, *options));
            }
            r
        },
        AddFileStep::ImportFile => {
            let text = match content {
                FileContent::Text(t) => t,
                _ => Err(DomainError::new("")),
            };
            let io = file_import_options(options);
            let imported = crate::import_core::import_file_with_clients(runtime, source, text, None, &io, lookups, connector,
                attachment_client, pdf_fetcher, local);
            let ghost iv = match &imported {
                Ok(v) => Ok(v@),
                Err(e) => Err(e.0@),
            };
            let r = file_import_payload(source, suffix.as_str(), false, imported);
            proof {
                assert(r@ == file_import_spec(source@, file_suffix(source@), false, iv));
                assert(runs_with(io, *options));
            }
            r
        },
        AddFileStep::AddPdf => add_pdf_file(runtime, bridge, connector, fetcher, source, resolved, options, lookups),
        AddFileStep::Unsupported => unsupported_payload(source, suffix.as_str()),
    }
}

} // verus!
