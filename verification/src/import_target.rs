//! Where an import lands: a tree-view reference, a collection from the local database, the
//! collection selected in Zotero, or the user library; and the connector the imports go
//! through.

use vstd::prelude::*;

use crate::csl::{py_string, value_to_python_string};
use crate::db::Collection;
use crate::error::DomainError;
use crate::json::{entries_view, get_spec, Json, JsonV};
use crate::text::{chars_of, concat_str, i64_to_string, int_decimal, is_digit, str_is_empty, trim, trim_str};

verus! {

/// The Zotero connector as the imports use it; implemented over HTTP by the program, and by
/// doubles in tests.
pub trait ConnectorImportClient {
    /// Imports `content` (of `content_type`) in connector session `session_id`; the saved items.
    fn import_text(&mut self, port: u16, content: &str, session_id: &str, content_type: &str, timeout_secs: u64) -> Result<Vec<Json>, DomainError>;

    /// Saves `items` in connector session `session_id`.
    fn save_items(&mut self, port: u16, items: &Vec<Json>, session_id: &str, timeout_secs: u64) -> Result<(), DomainError>;

    /// Files the session's items under `target` with `tags`.
    fn update_session(&mut self, port: u16, session_id: &str, target: &str, tags: &Vec<String>, timeout_secs: u64) -> Result<Json, DomainError>;

    /// The collection (or library) selected in Zotero.
    fn get_selected_collection(&mut self, port: u16, timeout_secs: u64) -> Result<Json, DomainError>;
}

/// One request made of the connector, with its answer.
pub enum ConnectorCall {
    ImportText {
        port: u16,
        content: Seq<char>,
        session_id: Seq<char>,
        content_type: Seq<char>,
        timeout: u64,
        answer: Result<Seq<JsonV>, Seq<char>>,
    },
    SaveItems { port: u16, items: Seq<JsonV>, session_id: Seq<char>, timeout: u64, answer: Result<(), Seq<char>> },
    UpdateSession {
        port: u16,
        session_id: Seq<char>,
        target: Seq<char>,
        tags: Seq<Seq<char>>,
        timeout: u64,
        answer: Result<JsonV, Seq<char>>,
    },
    SelectedCollection { port: u16, timeout: u64, answer: Result<JsonV, Seq<char>> },
}

/// An answer carrying a value, as plain values.
pub open spec fn json_answer(r: Result<Json, DomainError>) -> Result<JsonV, Seq<char>> {
    match r {
        Ok(v) => Ok(v@),
        Err(e) => Err(e.0@),
    }
}

/// An answer without a value, as plain values.
pub open spec fn done_answer(r: Result<(), DomainError>) -> Result<(), Seq<char>> {
    match r {
        Ok(()) => Ok(()),
        Err(e) => Err(e.0@),
    }
}

/// Saved items, as plain values.
pub open spec fn items_answer(r: Result<Vec<Json>, DomainError>) -> Result<Seq<JsonV>, Seq<char>> {
    match r {
        Ok(v) => Ok(crate::json::jsons_view(v@)),
        Err(e) => Err(e.0@),
    }
}

/// A connector client with the record of the requests made through it (each with its answer).
pub struct LoggedConnector<C> {
    pub inner: C,
    pub log: Ghost<Seq<ConnectorCall>>,
}

impl<C: ConnectorImportClient> LoggedConnector<C> {
    /// A client with nothing recorded yet.
    pub fn new(inner: C) -> (r: LoggedConnector<C>)
        ensures
            r.log@ == Seq::<ConnectorCall>::empty(),
    {
        LoggedConnector { inner, log: Ghost(Seq::empty()) }
    }

    /// Imports `content` through the connector, recording the request.
    pub fn import_text(&mut self, port: u16, content: &str, session_id: &str, content_type: &str, timeout_secs: u64) -> (r:
        Result<Vec<Json>, DomainError>)
        ensures
            final(self).log@ == old(self).log@.push(ConnectorCall::ImportText {
                port,
                content: content@,
                session_id: session_id@,
                content_type: content_type@,
                timeout: timeout_secs,
                answer: items_answer(r),
            }),
    {
        let r = self.inner.import_text(port, content, session_id, content_type, timeout_secs);
        proof {
            self.log@ = self.log@.push(ConnectorCall::ImportText {
                port,
                content: content@,
                session_id: session_id@,
                content_type: content_type@,
                timeout: timeout_secs,
                answer: items_answer(r),
            });
        }
        r
    }

    /// Saves items through the connector, recording the request.
    pub fn save_items(&mut self, port: u16, items: &Vec<Json>, session_id: &str, timeout_secs: u64) -> (r: Result<(), DomainError>)
        ensures
            final(self).log@ == old(self).log@.push(ConnectorCall::SaveItems {
                port,
                items: crate::json::jsons_view(items@),
                session_id: session_id@,
                timeout: timeout_secs,
                answer: done_answer(r),
            }),
    {
        let r = self.inner.save_items(port, items, session_id, timeout_secs);
        proof {
            self.log@ = self.log@.push(ConnectorCall::SaveItems {
                port,
                items: crate::json::jsons_view(items@),
                session_id: session_id@,
                timeout: timeout_secs,
                answer: done_answer(r),
            });
        }
        r
    }

    /// Files a session through the connector, recording the request.
    pub fn update_session(&mut self, port: u16, session_id: &str, target: &str, tags: &Vec<String>, timeout_secs: u64) -> (r:
        Result<Json, DomainError>)
        ensures
            final(self).log@ == old(self).log@.push(ConnectorCall::UpdateSession {
                port,
                session_id: session_id@,
                target: target@,
                tags: crate::text::strings_view(tags@),
                timeout: timeout_secs,
                answer: json_answer(r),
            }),
    {
        let r = self.inner.update_session(port, session_id, target, tags, timeout_secs);
        proof {
            self.log@ = self.log@.push(ConnectorCall::UpdateSession {
                port,
                session_id: session_id@,
                target: target@,
                tags: crate::text::strings_view(tags@),
                timeout: timeout_secs,
                answer: json_answer(r),
            });
        }
        r
    }

    /// Asks the connector for the selected collection, recording the request.
    pub fn get_selected_collection(&mut self, port: u16, timeout_secs: u64) -> (r: Result<Json, DomainError>)
        ensures
            final(self).log@ == old(self).log@.push(ConnectorCall::SelectedCollection {
                port,
                timeout: timeout_secs,
                answer: json_answer(r),
            }),
    {
        let r = self.inner.get_selected_collection(port, timeout_secs);
        proof {
            self.log@ = self.log@.push(ConnectorCall::SelectedCollection { port, timeout: timeout_secs, answer: json_answer(r) });
        }
        r
    }
}

/// The state the imports run in.
pub struct ImportRuntime {
    /// Whether the connector answered.
    pub connector_available: bool,
    /// What the connector check said.
    pub connector_message: String,
    /// The connector's port.
    pub port: u16,
    /// The count behind the next connector session id.
    pub session_counter: u64,
}

/// What the local database answered for resolving an import target.
pub struct TargetLookups {
    /// The collection named by the explicit reference or, without one, by the session's
    /// current collection (looked up in the session's library); `None` when it does not exist.
    pub collection: Result<Option<Collection>, DomainError>,
    /// The user library's tree-view reference (`L` and its id).
    pub default_library: Result<String, DomainError>,
}

/// `Lnnn` or `Cnnn`: a library or collection tree-view reference.
pub open spec fn tree_view_ref(v: Seq<char>) -> bool {
    v.len() >= 2 && (v[0] == 'L' || v[0] == 'C') && forall|i: int| 1 <= i < v.len() ==> is_digit(#[trigger] v[i])
}

/// Whether a reference is a tree-view reference.
pub fn is_tree_view_ref(value: &str) -> (b: bool)
    ensures
        b == tree_view_ref(value@),
{
    let v = chars_of(value);
    if v.len() < 2 || !(v[0] == 'L' || v[0] == 'C') {
        return false;
    }
    let mut i: usize = 1;
    while i < v.len()
        invariant
            1 <= i <= v@.len(),
            v@ == value@,
            v@.len() >= 2,
            v@[0] == 'L' || v@[0] == 'C',
            forall|j: int| 1 <= j < i ==> is_digit(#[trigger] v@[j]),
        decreases v.len() - i,
    {
        if !('0' <= v[i] && v[i] <= '9') {
            return false;
        }
        i = i + 1;
    }
    true
}

/// The target of a tree-view reference.
pub open spec fn ref_target(value: Seq<char>, source: Seq<char>) -> JsonV {
    JsonV::Object(seq![
        ("kind"@, JsonV::Str(if value.len() > 0 && value[0] == 'L' { "library"@ } else { "collection"@ })),
        ("source"@, JsonV::Str(source)),
        ("treeViewID"@, JsonV::Str(value)),
    ])
}

/// The target of a tree-view reference.
pub fn library_or_collection_target(value: &str, source: &str) -> (r: Json)
    ensures
        r@ == ref_target(value@, source@),
{
    let v = chars_of(value);
    let kind = if v.len() > 0 && v[0] == 'L' { "library" } else { "collection" };
    let mut m: Vec<(String, Json)> = Vec::new();
    m.push(("kind".to_owned(), Json::Str(kind.to_owned())));
    m.push(("source".to_owned(), Json::Str(source.to_owned())));
    m.push(("treeViewID".to_owned(), Json::Str(value.to_owned())));
    proof {
        reveal_with_fuel(entries_view, 4);
        assert(entries_view(m@) =~= ref_target(value@, source@)->Object_0);
    }
    Json::Object(m)
}

/// The target of a collection from the local database.
pub open spec fn collection_target_spec(c: Collection, source: Seq<char>) -> JsonV {
    JsonV::Object(seq![
        ("collectionID"@, JsonV::Number(int_decimal(c.collection_id as int))),
        ("collectionKey"@, JsonV::Str(c.key@)),
        ("collectionName"@, JsonV::Str(c.collection_name@)),
        ("kind"@, JsonV::Str("collection"@)),
        ("libraryID"@, JsonV::Number(int_decimal(c.library_id as int))),
        ("source"@, JsonV::Str(source)),
        ("treeViewID"@, JsonV::Str("C"@ + int_decimal(c.collection_id as int))),
    ])
}

/// The target of a collection from the local database.
pub fn collection_target(c: &Collection, source: &str) -> (r: Json)
    ensures
        r@ == collection_target_spec(*c, source@),
{
    let id = i64_to_string(c.collection_id);
    let mut m: Vec<(String, Json)> = Vec::new();
    m.push(("collectionID".to_owned(), Json::Number(id.clone())));
    m.push(("collectionKey".to_owned(), Json::Str(c.key.clone())));
    m.push(("collectionName".to_owned(), Json::Str(c.collection_name.clone())));
    m.push(("kind".to_owned(), Json::Str("collection".to_owned())));
    m.push(("libraryID".to_owned(), Json::Number(i64_to_string(c.library_id))));
    m.push(("source".to_owned(), Json::Str(source.to_owned())));
    m.push(("treeViewID".to_owned(), Json::Str(concat_str("C", id.as_str()))));
    proof {
        reveal_with_fuel(entries_view, 8);
        assert(entries_view(m@) =~= collection_target_spec(*c, source@)->Object_0);
    }
    Json::Object(m)
}

/// A member, or null.
pub open spec fn member_or_null(v: JsonV, key: Seq<char>) -> JsonV {
    match get_spec(v, key) {
        Some(x) => x,
        None => JsonV::Null,
    }
}

/// The target of the selection Zotero reports: its collection when it has a non-null `id`,
/// else its library; a selection without either is an error.
pub open spec fn selected_target_spec(sel: JsonV) -> Result<JsonV, Seq<char>> {
    match get_spec(sel, "id"@) {
        Some(id) => if id != JsonV::Null {
            Ok(JsonV::Object(seq![
                ("collectionID"@, id),
                ("collectionName"@, member_or_null(sel, "name"@)),
                ("kind"@, JsonV::Str("collection"@)),
                ("libraryID"@, member_or_null(sel, "libraryID"@)),
                ("libraryName"@, member_or_null(sel, "libraryName"@)),
                ("source"@, JsonV::Str("selected"@)),
                ("treeViewID"@, JsonV::Str("C"@ + py_string(id))),
            ]))
        } else {
            library_selection(sel)
        },
        None => library_selection(sel),
    }
}

/// The target of a selected library.
pub open spec fn library_selection(sel: JsonV) -> Result<JsonV, Seq<char>> {
    match get_spec(sel, "libraryID"@) {
        Some(lib) => Ok(JsonV::Object(seq![
            ("kind"@, JsonV::Str("library"@)),
            ("libraryID"@, lib),
            ("libraryName"@, member_or_null(sel, "libraryName"@)),
            ("source"@, JsonV::Str("selected"@)),
            ("treeViewID"@, JsonV::Str("L"@ + py_string(lib))),
        ])),
        None => Err("Selected collection response is missing libraryID"@),
    }
}

fn get_or_null(v: &Json, key: &str) -> (r: Json)
    ensures
        r@ == member_or_null(v@, key@),
{
    match v.get(key) {
        Some(x) => x.deep_clone(),
        None => Json::Null,
    }
}

/// The target of the selection Zotero reports.
pub fn selected_target(sel: &Json) -> (r: Result<Json, DomainError>)
    ensures
        match selected_target_spec(sel@) {
            Ok(t) => r matches Ok(x) && x@ == t,
            Err(m) => r matches Err(e) && e.0@ == m,
        },
{
    if let Some(id) = sel.get("id") {
        if !id.is_null() {
            let tv = concat_str("C", value_to_python_string(id).as_str());
            let mut m: Vec<(String, Json)> = Vec::new();
            m.push(("collectionID".to_owned(), id.deep_clone()));
            m.push(("collectionName".to_owned(), get_or_null(sel, "name")));
            m.push(("kind".to_owned(), Json::Str("collection".to_owned())));
            m.push(("libraryID".to_owned(), get_or_null(sel, "libraryID")));
            m.push(("libraryName".to_owned(), get_or_null(sel, "libraryName")));
            m.push(("source".to_owned(), Json::Str("selected".to_owned())));
            m.push(("treeViewID".to_owned(), Json::Str(tv)));
            proof {
                reveal_with_fuel(entries_view, 8);
                assert(entries_view(m@) =~= selected_target_spec(sel@)->Ok_0->Object_0);
            }
            return Ok(Json::Object(m));
        }
    }
    match sel.get("libraryID") {
        Some(lib) => {
            let tv = concat_str("L", value_to_python_string(lib).as_str());
            let mut m: Vec<(String, Json)> = Vec::new();
            m.push(("kind".to_owned(), Json::Str("library".to_owned())));
            m.push(("libraryID".to_owned(), lib.deep_clone()));
            m.push(("libraryName".to_owned(), get_or_null(sel, "libraryName")));
            m.push(("source".to_owned(), Json::Str("selected".to_owned())));
            m.push(("treeViewID".to_owned(), Json::Str(tv)));
            proof {
                reveal_with_fuel(entries_view, 6);
                assert(entries_view(m@) =~= library_selection(sel@)->Ok_0->Object_0);
            }
            Ok(Json::Object(m))
        },
        None => Err(DomainError::new("Selected collection response is missing libraryID")),
    }
}


/// A reference, when it is not blank.
pub open spec fn nonblank(o: Option<Seq<char>>) -> Option<Seq<char>> {
    match o {
        Some(v) => if trim(v).len() > 0 {
            Some(v)
        } else {
            None
        },
        None => None,
    }
}

/// View of a database answer.
pub open spec fn lookup_view(r: Result<Option<Collection>, DomainError>) -> Result<Option<Collection>, Seq<char>> {
    match r {
        Ok(c) => Ok(c),
        Err(e) => Err(e.0@),
    }
}

/// View of the default library answer.
pub open spec fn default_view(r: Result<String, DomainError>) -> Result<Seq<char>, Seq<char>> {
    match r {
        Ok(t) => Ok(t@),
        Err(e) => Err(e.0@),
    }
}

/// The target of the user library.
pub open spec fn user_library_target(t: Seq<char>) -> JsonV {
    JsonV::Object(seq![
        ("kind"@, JsonV::Str("library"@)),
        ("source"@, JsonV::Str("user_library"@)),
        ("treeViewID"@, JsonV::Str(t)),
    ])
}

/// The import target as decided without asking Zotero, in order: the explicit reference (a
/// tree-view reference as written, else the collection it names, which must exist); the
/// session's current collection (as written, or the collection it names when that exists);
/// the user library when the connector is not available. `None` when Zotero is asked for its
/// selected collection.
pub open spec fn decided_target(
    connector_available: bool,
    collection_ref: Option<Seq<char>>,
    session_collection: Option<Seq<char>>,
    collection: Result<Option<Collection>, Seq<char>>,
    default_library: Result<Seq<char>, Seq<char>>,
) -> Option<Result<JsonV, Seq<char>>> {
    match nonblank(collection_ref) {
        Some(cref) => Some(
            if tree_view_ref(cref) {
                Ok(ref_target(cref, "explicit"@))
            } else {
                match collection {
                    Err(m) => Err(m),
                    Ok(None) => Err("Collection not found: "@ + cref),
                    Ok(Some(c)) => Ok(collection_target_spec(c, "explicit"@)),
                }
            },
        ),
        None => {
            let from_session: Option<Result<JsonV, Seq<char>>> = match nonblank(session_collection) {
                Some(cur) => if tree_view_ref(cur) {
                    Some(Ok(ref_target(cur, "session"@)))
                } else {
                    match collection {
                        Err(m) => Some(Err(m)),
                        Ok(Some(c)) => Some(Ok(collection_target_spec(c, "session"@))),
                        Ok(None) => None,
                    }
                },
                None => None,
            };
            match from_session {
                Some(x) => Some(x),
                None => if connector_available {
                    None
                } else {
                    Some(
                        match default_library {
                            Err(m) => Err(m),
                            Ok(t) => Ok(user_library_target(t)),
                        },
                    )
                },
            }
        },
    }
}

fn nonblank_exec<'a>(o: Option<&'a str>) -> (r: Option<&'a str>)
    ensures
        crate::add_import::opt_str(r) == nonblank(crate::add_import::opt_str(o)),
{
    match o {
        Some(v) => {
            let t = trim_str(v);
            if str_is_empty(t.as_str()) {
                None
            } else {
                Some(v)
            }
        },
        None => None,
    }
}

fn lookup_error(e: &DomainError) -> (r: DomainError)
    ensures
        r.0@ == e.0@,
{
    DomainError(e.0.clone())
}

/// The target Zotero's answer about its selected collection gives.
pub open spec fn target_from_selection(answer: Result<JsonV, Seq<char>>) -> Result<JsonV, Seq<char>> {
    match answer {
        Err(m) => Err(m),
        Ok(sel) => selected_target_spec(sel),
    }
}

/// Resolves where an import lands (see `decided_target`); when nothing decides it, asks
/// Zotero for its selected collection.
pub fn resolve_target<C: ConnectorImportClient>(
    runtime: &ImportRuntime,
    collection_ref: Option<&str>,
    session_collection: Option<&str>,
    lookups: &TargetLookups,
    client: &mut LoggedConnector<C>,
) -> (r: Result<Json, DomainError>)
    ensures
        match decided_target(runtime.connector_available, crate::add_import::opt_str(collection_ref),
            crate::add_import::opt_str(session_collection), lookup_view(lookups.collection), default_view(lookups.default_library)) {
            Some(Ok(t)) => r matches Ok(x) && x@ == t,
            Some(Err(m)) => r matches Err(e) && e.0@ == m,
            None => r matches Ok(x) ==> exists|sel: JsonV| selected_target_spec(sel) == Ok::<JsonV, Seq<char>>(x@),
        },
        ({
            let decided = decided_target(runtime.connector_available, crate::add_import::opt_str(collection_ref),
                crate::add_import::opt_str(session_collection), lookup_view(lookups.collection), default_view(lookups.default_library));
            match decided {
                Some(d) => final(client).log@ == old(client).log@ && json_answer(r) == d,
                None => exists|answer: Result<JsonV, Seq<char>>|
                    final(client).log@ == old(client).log@.push(ConnectorCall::SelectedCollection { port: runtime.port, timeout: 5, answer })
                    && json_answer(r) == #[trigger] target_from_selection(answer),
            }
        }),
{
    if let Some(cref) = nonblank_exec(collection_ref) {
        if is_tree_view_ref(cref) {
            return Ok(library_or_collection_target(cref, "explicit"));
        }
        return match &lookups.collection {
            Err(e) => Err(lookup_error(e)),
            Ok(None) => Err(DomainError::from_string(concat_str("Collection not found: ", cref))),
            Ok(Some(c)) => Ok(collection_target(c, "explicit")),
        };
    }
    if let Some(cur) = nonblank_exec(session_collection) {
        if is_tree_view_ref(cur) {
            return Ok(library_or_collection_target(cur, "session"));
        }
        match &lookups.collection {
            Err(e) => return Err(lookup_error(e)),
            Ok(Some(c)) => return Ok(collection_target(c, "session")),
            Ok(None) => {},
        }
    }
    if runtime.connector_available {
        let asked = client.get_selected_collection(runtime.port, 5);
        let ghost ans = json_answer(asked);
        let selected = match asked {
            Ok(s) => s,
            Err(e) => {
                proof {
                    assert(json_answer(Err::<Json, DomainError>(e)) == target_from_selection(ans));
                }
                return Err(e);
            },
        };
        let r = selected_target(&selected);
        proof {
            if r is Ok {
                assert(selected_target_spec(selected@) == Ok::<JsonV, Seq<char>>(r->Ok_0@));
            }
            assert(json_answer(r) == target_from_selection(ans));
        }
        return r;
    }
    match &lookups.default_library {
        Err(e) => Err(lookup_error(e)),
        Ok(t) => {
            let mut m: Vec<(String, Json)> = Vec::new();
            m.push(("kind".to_owned(), Json::Str("library".to_owned())));
            m.push(("source".to_owned(), Json::Str("user_library".to_owned())));
            m.push(("treeViewID".to_owned(), Json::Str(t.clone())));
            proof {
                reveal_with_fuel(entries_view, 4);
                assert(entries_view(m@) =~= user_library_target(t@)->Object_0);
            }
            Ok(Json::Object(m))
        },
    }
}

} // verus!
