//! Library, collection and saved-search resolution over rows read from the database.
//!
//! The rows are read by the caller; these functions decide which row a reference names,
//! which library is current, and what error a user sees.

use vstd::prelude::*;

use crate::db::{
    ambiguous_message, ambiguous_message_exec, build_collection_tree, collection_forest,
    collections_view, default_library_id, default_library_spec, is_numeric_ref,
    is_numeric_ref_spec, library_ref_spec, node_list_view, normalize_library_ref,
    opt_string_view, resolve_attachment_real_path, resolve_attachment_spec, resolve_saved_search,
    saved_search_choice, Collection, CollectionNode, Item, Library, SavedSearch,
};
use crate::error::DomainError;
use crate::select::{keep_marked, lemma_mask_filter, mask_filter};
use crate::text::{
    concat_str, i64_to_string, int_decimal, parse_i64, parse_i64_spec, str_eq, trim, trim_str,
};

verus! {

/// The end of Python's `items[:limit]` on a list of `len` items.
pub open spec fn py_slice_end(len: int, limit: int) -> int {
    if limit < 0 {
        if len + limit > 0 {
            len + limit
        } else {
            0
        }
    } else if limit < len {
        limit
    } else {
        len
    }
}

/// Truncates `items` as Python's `items[:limit]` does: a negative limit drops the last
/// `|limit|` items (all of them when it exceeds the length).
pub fn python_slice_to_limit<T>(items: &mut Vec<T>, limit: i64)
    ensures
        final(items)@ == old(items)@.subrange(0, py_slice_end(old(items)@.len() as int, limit as int)),
{
    let len = items.len() as i128;
    let lim = limit as i128;
    let end: i128 = if lim < 0 {
        if len + lim > 0 {
            len + lim
        } else {
            0
        }
    } else if lim < len {
        lim
    } else {
        len
    };
    items.truncate(end as usize);
}

/// The position of the first library with id `id`.
pub open spec fn library_position(libs: Seq<Library>, id: i64) -> Option<int> {
    if exists|i: int| 0 <= i < libs.len() && #[trigger] libs[i].library_id == id {
        Some(
            choose|i: int|
                0 <= i < libs.len() && libs[i].library_id == id && forall|j: int|
                    0 <= j < i ==> #[trigger] libs[j].library_id != id,
        )
    } else {
        None
    }
}

fn library_index(libraries: &Vec<Library>, id: i64) -> (r: Option<usize>)
    ensures
        match r {
            Some(i) => library_position(libraries@, id) == Some(i as int) && i < libraries@.len()
                && libraries@[i as int].library_id == id,
            None => library_position(libraries@, id) is None,
        },
{
    let mut i: usize = 0;
    while i < libraries.len()
        invariant
            i <= libraries@.len(),
            forall|j: int| 0 <= j < i ==> #[trigger] libraries@[j].library_id != id,
        decreases libraries.len() - i,
    {
        if libraries[i].library_id == id {
            proof {
                let libs = libraries@;
                let c = choose|c: int|
                    0 <= c < libs.len() && libs[c].library_id == id && forall|j: int|
                        0 <= j < c ==> #[trigger] libs[j].library_id != id;
                assert(libs[i as int].library_id == id);
                assert(c == i) by {
                    if c < i {
                        assert(libs[c].library_id != id);
                    }
                    if c > i {
                        assert(libs[i as int].library_id != id);
                    }
                }
            }
            return Some(i);
        }
        i = i + 1;
    }
    None
}

/// What `resolve_library_id` gives: no reference, no library; a reference names a library
/// by id, and a library that is not there is an error.
pub open spec fn library_id_choice(libs: Seq<Library>, library_ref: Option<Seq<char>>) -> Result<
    Option<i64>,
    Seq<char>,
> {
    match library_ref {
        None => Ok(None),
        Some(r) => match library_ref_spec(r) {
            Err(m) => Err(m),
            Ok(id) => if library_position(libs, id) is Some {
                Ok(Some(id))
            } else {
                Err("Library not found: "@ + r)
            },
        },
    }
}

/// Optional string slice by view.
pub open spec fn opt_str_view(o: Option<&str>) -> Option<Seq<char>> {
    match o {
        Some(s) => Some(s@),
        None => None,
    }
}

/// Resolves an optional library reference to the id of an existing library.
pub fn resolve_library_id(libraries: &Vec<Library>, library_ref: Option<&str>) -> (r: Result<
    Option<i64>,
    DomainError,
>)
    ensures
        match library_id_choice(libraries@, opt_str_view(library_ref)) {
            Ok(v) => r == Ok::<Option<i64>, DomainError>(v),
            Err(m) => r matches Err(e) && e.0@ == m,
        },
{
    let library_ref = match library_ref {
        None => return Ok(None),
        Some(r) => r,
    };
    let id = match normalize_library_ref(library_ref) {
        Ok(id) => id,
        Err(e) => return Err(e),
    };
    match library_index(libraries, id) {
        Some(_) => Ok(Some(id)),
        None => Err(DomainError::from_string(concat_str("Library not found: ", library_ref))),
    }
}

/// The current library: the session's library when it names one, else the database's
/// default library.
pub open spec fn default_library_choice(libs: Seq<Library>, session_library: Option<Seq<char>>) -> Result<
    i64,
    Seq<char>,
> {
    match library_id_choice(libs, session_library) {
        Err(m) => Err(m),
        Ok(Some(id)) => Ok(id),
        Ok(None) => match default_library_spec(libs) {
            Some(id) => Ok(id),
            None => Err("No Zotero libraries found in the local database"@),
        },
    }
}

/// The library that commands act on when none is named.
pub fn default_library(libraries: &Vec<Library>, session_library: Option<&str>) -> (r: Result<
    i64,
    DomainError,
>)
    ensures
        match default_library_choice(libraries@, opt_str_view(session_library)) {
            Ok(id) => r == Ok::<i64, DomainError>(id),
            Err(m) => r matches Err(e) && e.0@ == m,
        },
{
    match resolve_library_id(libraries, session_library) {
        Err(e) => Err(e),
        Ok(Some(id)) => Ok(id),
        Ok(None) => match default_library_id(libraries) {
            Some(id) => Ok(id),
            None => Err(DomainError::new("No Zotero libraries found in the local database")),
        },
    }
}

/// The Local API path prefix of a library: `/api/users/0` for the user library,
/// `/api/groups/<id>` for a group library.
pub open spec fn local_api_scope_spec(libs: Seq<Library>, library_id: i64) -> Result<Seq<char>, Seq<char>> {
    match library_ref_spec(int_decimal(library_id as int)) {
        Err(m) => Err(m),
        Ok(id) => match library_position(libs, id) {
            None => Err("Library not found: "@ + int_decimal(library_id as int)),
            Some(i) => {
                let kind = libs[i].kind@;
                if kind == "user"@ {
                    Ok("/api/users/0"@)
                } else if kind == "group"@ {
                    Ok("/api/groups/"@ + int_decimal(libs[i].library_id as int))
                } else {
                    Err("Unsupported library type for Zotero Local API: "@ + kind)
                }
            },
        },
    }
}

/// The Zotero Local API scope of the library with id `library_id`.
pub fn local_api_scope(libraries: &Vec<Library>, library_id: i64) -> (r: Result<String, DomainError>)
    ensures
        match local_api_scope_spec(libraries@, library_id) {
            Ok(s) => r matches Ok(t) && t@ == s,
            Err(m) => r matches Err(e) && e.0@ == m,
        },
{
    let text = i64_to_string(library_id);
    let id = match normalize_library_ref(text.as_str()) {
        Ok(id) => id,
        Err(e) => return Err(e),
    };
    let i = match library_index(libraries, id) {
        Some(i) => i,
        None => return Err(DomainError::from_string(concat_str("Library not found: ", text.as_str()))),
    };
    let kind = libraries[i].kind.as_str();
    if str_eq(kind, "user") {
        Ok("/api/users/0".to_owned())
    } else if str_eq(kind, "group") {
        let id_text = i64_to_string(libraries[i].library_id);
        Ok(concat_str("/api/groups/", id_text.as_str()))
    } else {
        Err(DomainError::from_string(concat_str("Unsupported library type for Zotero Local API: ", kind)))
    }
}

/// The collections of library `id`, in their order.
pub open spec fn collections_in(cs: Seq<Collection>, id: i64) -> Seq<Collection> {
    cs.filter(|c: Collection| c.library_id == id)
}

fn collections_of_library(collections: Vec<Collection>, id: i64) -> (r: Vec<Collection>)
    ensures
        r@ == collections_in(collections@, id),
{
    let mut keep: Vec<bool> = Vec::new();
    let mut i: usize = 0;
    while i < collections.len()
        invariant
            i <= collections@.len(),
            keep@.len() == i,
            forall|j: int| 0 <= j < i ==> keep@[j] == ((#[trigger] collections@[j]).library_id == id),
        decreases collections.len() - i,
    {
        keep.push(collections[i].library_id == id);
        i = i + 1;
    }
    proof {
        lemma_mask_filter(collections@, keep@, |c: Collection| c.library_id == id);
    }
    keep_marked(collections, &keep)
}

/// The collections of the current library, given every collection row in name order.
pub fn list_collections(collections: Vec<Collection>, libraries: &Vec<Library>, session_library: Option<&str>) -> (r: Result<
    Vec<Collection>,
    DomainError,
>)
    ensures
        match default_library_choice(libraries@, opt_str_view(session_library)) {
            Ok(id) => r matches Ok(v) && v@ == collections_in(collections@, id),
            Err(m) => r matches Err(e) && e.0@ == m,
        },
{
    let id = match default_library(libraries, session_library) {
        Ok(id) => id,
        Err(e) => return Err(e),
    };
    Ok(collections_of_library(collections, id))
}

/// The collection tree of the current library.
pub fn collection_tree(collections: Vec<Collection>, libraries: &Vec<Library>, session_library: Option<&str>) -> (r: Result<
    Vec<CollectionNode>,
    DomainError,
>)
    ensures
        match default_library_choice(libraries@, opt_str_view(session_library)) {
            Ok(id) => r matches Ok(v) && node_list_view(v@) == collection_forest(
                collections_view(collections_in(collections@, id)),
                collections_in(collections@, id).len() as nat,
            ),
            Err(m) => r matches Err(e) && e.0@ == m,
        },
{
    match list_collections(collections, libraries, session_library) {
        Ok(list) => Ok(build_collection_tree(&list)),
        Err(e) => Err(e),
    }
}

/// Indices of the collections keyed `key` in library scope `library_id`, in order.
pub open spec fn collection_key_matches(cs: Seq<Collection>, key: Seq<char>, library_id: Option<i64>) -> Seq<int>
    decreases cs.len(),
{
    if cs.len() == 0 {
        Seq::empty()
    } else {
        let c = cs.last();
        collection_key_matches(cs.drop_last(), key, library_id) + if c.key@ == key && (
        library_id is None || library_id == Some(c.library_id)) {
            seq![cs.len() - 1]
        } else {
            Seq::empty()
        }
    }
}

/// How a collection reference resolves among the rows of the collections table (in
/// library, then collection id order): a numeric reference by collection id; otherwise by
/// key within the library scope, where several matches without a scope are ambiguous.
pub open spec fn collection_choice(cs: Seq<Collection>, collection_ref: Seq<char>, library_id: Option<i64>) -> Result<
    Option<int>,
    Seq<char>,
> {
    if is_numeric_ref_spec(collection_ref) {
        let id = parse_i64_spec(trim(collection_ref)).unwrap();
        if exists|i: int| 0 <= i < cs.len() && #[trigger] cs[i].collection_id == id {
            Ok(
                Some(
                    choose|i: int|
                        0 <= i < cs.len() && cs[i].collection_id == id && forall|j: int|
                            0 <= j < i ==> #[trigger] cs[j].collection_id != id,
                ),
            )
        } else {
            Ok(None)
        }
    } else {
        let m = collection_key_matches(cs, collection_ref, library_id);
        if m.len() == 0 {
            Ok(None)
        } else if m.len() > 1 && library_id is None {
            Err(ambiguous_message("collection"@, collection_ref, m.map_values(|i: int| cs[i].library_id)))
        } else {
            Ok(Some(m[0]))
        }
    }
}

fn collection_by_id(v: &Vec<Collection>, id: i64) -> (r: Option<usize>)
    ensures
        match r {
            Some(i) => i < v@.len() && v@[i as int].collection_id == id && forall|j: int|
                0 <= j < i ==> #[trigger] v@[j].collection_id != id,
            None => forall|j: int| 0 <= j < v@.len() ==> #[trigger] v@[j].collection_id != id,
        },
{
    let mut i: usize = 0;
    while i < v.len()
        invariant
            i <= v@.len(),
            forall|j: int| 0 <= j < i ==> #[trigger] v@[j].collection_id != id,
        decreases v.len() - i,
    {
        if v[i].collection_id == id {
            return Some(i);
        }
        i = i + 1;
    }
    None
}

/// Resolves a collection reference (id or key) among the collection rows, moving the
/// chosen row out.
pub fn resolve_collection(collections: Vec<Collection>, collection_ref: &str, library_id: Option<i64>) -> (r: Result<
    Option<Collection>,
    DomainError,
>)
    ensures
        match collection_choice(collections@, collection_ref@, library_id) {
            Ok(Some(i)) => r matches Ok(Some(c)) && c == collections@[i],
            Ok(None) => r matches Ok(None),
            Err(msg) => r matches Err(e) && e.0@ == msg,
        },
{
    let mut v = collections;
    let ghost all = v@;
    if is_numeric_ref(collection_ref) {
        let t = trim_str(collection_ref);
        let id = match parse_i64(t.as_str()) {
            Some(id) => id,
            None => return Ok(None),
        };
        return match collection_by_id(&v, id) {
            Some(i) => {
                proof {
                    let c = choose|c: int|
                        0 <= c < all.len() && all[c].collection_id == id && forall|j: int|
                            0 <= j < c ==> #[trigger] all[j].collection_id != id;
                    assert(all[i as int].collection_id == id);
                    assert(c == i) by {
                        if c < i {
                            assert(all[c].collection_id != id);
                        }
                        if c > i {
                            assert(all[i as int].collection_id != id);
                        }
                    }
                }
                Ok(Some(v.remove(i)))
            },
            None => Ok(None),
        };
    }
    let mut matches: Vec<usize> = Vec::new();
    let mut libs: Vec<i64> = Vec::new();
    let mut i: usize = 0;
    while i < v.len()
        invariant
            i <= v@.len(),
            v@ == all,
            all == collections@,
            matches@.len() == libs@.len(),
            matches@.map_values(|m: usize| m as int) == collection_key_matches(
                all.subrange(0, i as int),
                collection_ref@,
                library_id,
            ),
            forall|k: int|
                0 <= k < matches@.len() ==> 0 <= #[trigger] matches@[k] < i && libs@[k]
                    == all[matches@[k] as int].library_id,
        decreases v.len() - i,
    {
        proof {
            assert(all.subrange(0, i + 1).drop_last() =~= all.subrange(0, i as int));
        }
        let in_scope = match library_id {
            None => true,
            Some(l) => v[i].library_id == l,
        };
        if str_eq(v[i].key.as_str(), collection_ref) && in_scope {
            let ghost before = matches@;
            matches.push(i);
            libs.push(v[i].library_id);
            proof {
                assert(matches@.map_values(|m: usize| m as int) =~= before.map_values(
                    |m: usize| m as int,
                ).push(i as int));
            }
        }
        i = i + 1;
    }
    proof {
        assert(all.subrange(0, all.len() as int) =~= all);
        let m = collection_key_matches(all, collection_ref@, library_id);
        assert(libs@ =~= m.map_values(|i: int| all[i].library_id)) by {
            assert forall|k: int| 0 <= k < libs@.len() implies libs@[k] == m.map_values(
                |i: int| all[i].library_id,
            )[k] by {
                assert(m[k] == matches@.map_values(|x: usize| x as int)[k]);
            }
        }
    }
    if matches.len() == 0 {
        return Ok(None);
    }
    if matches.len() > 1 && library_id.is_none() {
        return Err(DomainError::from_string(ambiguous_message_exec("collection", collection_ref, &libs)));
    }
    proof {
        assert(matches@.map_values(|x: usize| x as int)[0] == matches@[0] as int);
    }
    Ok(Some(v.remove(matches[0])))
}

/// The reference a command acts on: the one given, else the session's.
pub open spec fn ref_or_session(given: Option<Seq<char>>, session: Option<Seq<char>>) -> Option<Seq<char>> {
    match given {
        Some(r) => Some(r),
        None => session,
    }
}

/// What `get_collection` gives: the collection the reference (or the session's) names in
/// the session's library scope, or the error a user sees.
pub open spec fn get_collection_spec(
    cs: Seq<Collection>,
    libs: Seq<Library>,
    collection_ref: Option<Seq<char>>,
    session_collection: Option<Seq<char>>,
    session_library: Option<Seq<char>>,
) -> Result<Collection, Seq<char>> {
    match ref_or_session(collection_ref, session_collection) {
        None => Err("Collection reference required or set it in session first"@),
        Some(r) => match library_id_choice(libs, session_library) {
            Err(m) => Err(m),
            Ok(lib) => match collection_choice(cs, r, lib) {
                Err(m) => Err(m),
                Ok(None) => Err("Collection not found: "@ + r),
                Ok(Some(i)) => Ok(cs[i]),
            },
        },
    }
}

/// The collection reference `get_collection` resolves: the one given, else the session's
/// current collection; with neither, the error a user sees. Callers run this before reading
/// any collection, so that a missing reference leaves the database unread.
pub fn required_collection_ref<'a>(collection_ref: Option<&'a str>, session_collection: Option<&'a str>) -> (r:
    Result<&'a str, DomainError>)
    ensures
        match ref_or_session(opt_str_view(collection_ref), opt_str_view(session_collection)) {
            Some(x) => r matches Ok(s) && s@ == x,
            None => r matches Err(e) && e.0@ == "Collection reference required or set it in session first"@,
        },
{
    match collection_ref {
        Some(r) => Ok(r),
        None => match session_collection {
            Some(r) => Ok(r),
            None => Err(DomainError::new("Collection reference required or set it in session first")),
        },
    }
}

/// The collection named by `collection_ref`, or by the session's current collection.
pub fn get_collection(
    collections: Vec<Collection>,
    libraries: &Vec<Library>,
    collection_ref: Option<&str>,
    session_collection: Option<&str>,
    session_library: Option<&str>,
) -> (r: Result<Collection, DomainError>)
    ensures
        match get_collection_spec(
            collections@,
            libraries@,
            opt_str_view(collection_ref),
            opt_str_view(session_collection),
            opt_str_view(session_library),
        ) {
            Ok(c) => r == Ok::<Collection, DomainError>(c),
            Err(m) => r matches Err(e) && e.0@ == m,
        },
{
    let resolved = match required_collection_ref(collection_ref, session_collection) {
        Ok(r) => r,
        Err(e) => return Err(e),
    };
    let library_id = match resolve_library_id(libraries, session_library) {
        Ok(l) => l,
        Err(e) => return Err(e),
    };
    match resolve_collection(collections, resolved, library_id) {
        Err(e) => Err(e),
        Ok(Some(c)) => Ok(c),
        Ok(None) => Err(DomainError::from_string(concat_str("Collection not found: ", resolved))),
    }
}

/// The saved searches in library scope `library_id` (all when unscoped), in order.
pub open spec fn searches_in(ss: Seq<SavedSearch>, library_id: Option<i64>) -> Seq<SavedSearch> {
    ss.filter(|s: SavedSearch| search_in_scope(s, library_id))
}

/// Whether a saved search lies in library scope `library_id` (every one does when unscoped).
pub open spec fn search_in_scope(s: SavedSearch, library_id: Option<i64>) -> bool {
    match library_id {
        None => true,
        Some(l) => s.library_id == l,
    }
}

fn searches_in_scope(searches: Vec<SavedSearch>, library_id: Option<i64>) -> (r: Vec<SavedSearch>)
    ensures
        r@ == searches_in(searches@, library_id),
{
    let mut keep: Vec<bool> = Vec::new();
    let mut i: usize = 0;
    while i < searches.len()
        invariant
            i <= searches@.len(),
            keep@.len() == i,
            forall|j: int| 0 <= j < i ==> keep@[j] == search_in_scope(#[trigger] searches@[j], library_id),
        decreases searches.len() - i,
    {
        let k = match library_id {
            None => true,
            Some(l) => searches[i].library_id == l,
        };
        keep.push(k);
        i = i + 1;
    }
    proof {
        lemma_mask_filter(
            searches@,
            keep@,
            |s: SavedSearch| search_in_scope(s, library_id),
        );
    }
    keep_marked(searches, &keep)
}

/// The saved searches of the current library, given every saved search in name order.
pub fn list_searches(searches: Vec<SavedSearch>, libraries: &Vec<Library>, session_library: Option<&str>) -> (r: Result<
    Vec<SavedSearch>,
    DomainError,
>)
    ensures
        match default_library_choice(libraries@, opt_str_view(session_library)) {
            Ok(id) => r matches Ok(v) && v@ == searches_in(searches@, Some(id)),
            Err(m) => r matches Err(e) && e.0@ == m,
        },
{
    let id = match default_library(libraries, session_library) {
        Ok(id) => id,
        Err(e) => return Err(e),
    };
    Ok(searches_in_scope(searches, Some(id)))
}

/// What `get_search` gives: the saved search the reference names in the session's library
/// scope, or the error a user sees.
pub open spec fn get_search_spec(
    ss: Seq<SavedSearch>,
    libs: Seq<Library>,
    search_ref: Option<Seq<char>>,
    session_library: Option<Seq<char>>,
) -> Result<SavedSearch, Seq<char>> {
    match search_ref {
        None => Err("Search reference required"@),
        Some(r) => match library_id_choice(libs, session_library) {
            Err(m) => Err(m),
            Ok(lib) => {
                let scoped = searches_in(ss, lib);
                match saved_search_choice(scoped, r, lib) {
                    Err(m) => Err(m),
                    Ok(None) => Err("Saved search not found: "@ + r),
                    Ok(Some(i)) => Ok(scoped[i]),
                }
            },
        },
    }
}

/// The saved search named by `search_ref`, given every saved search in name order.
pub fn get_search(
    searches: Vec<SavedSearch>,
    libraries: &Vec<Library>,
    search_ref: Option<&str>,
    session_library: Option<&str>,
) -> (r: Result<SavedSearch, DomainError>)
    ensures
        match get_search_spec(searches@, libraries@, opt_str_view(search_ref), opt_str_view(session_library)) {
            Ok(s) => r == Ok::<SavedSearch, DomainError>(s),
            Err(m) => r matches Err(e) && e.0@ == m,
        },
{
    let search_ref = match search_ref {
        Some(r) => r,
        None => return Err(DomainError::new("Search reference required")),
    };
    let library_id = match resolve_library_id(libraries, session_library) {
        Ok(l) => l,
        Err(e) => return Err(e),
    };
    let scoped = searches_in_scope(searches, library_id);
    match resolve_saved_search(scoped, search_ref, library_id) {
        Err(e) => Err(e),
        Ok(Some(s)) => Ok(s),
        Ok(None) => Err(DomainError::from_string(concat_str("Saved search not found: ", search_ref))),
    }
}

/// The attachment file of an item.
#[derive(Debug, Clone)]
pub struct ItemFile {
    pub item_id: i64,
    pub key: String,
    pub title: String,
    pub content_type: Option<String>,
    pub path: Option<String>,
    pub resolved_path: Option<String>,
    pub exists: bool,
}

/// The record whose file `item_file` describes: the item itself when it is an attachment,
/// else its first attachment.
pub open spec fn item_file_target(item: Item, attachments: Seq<Item>) -> Option<Item> {
    if item.type_label@ != "attachment"@ {
        if attachments.len() > 0 {
            Some(attachments[0])
        } else {
            None
        }
    } else {
        Some(item)
    }
}

/// Describes the file of `item` (or of its first attachment, `attachments` being its
/// attachments in order), with its path resolved under `data_dir`. `exists` is `false`
/// here; the caller sets it after looking for `resolved_path` on disk.
pub fn item_file(item: Item, attachments: Vec<Item>, data_dir: &str) -> (r: Result<ItemFile, DomainError>)
    ensures
        match item_file_target(item, attachments@) {
            None => r matches Err(e) && e.0@ == "No attachment file found for item: "@ + item.key@,
            Some(t) => r matches Ok(f) && f.item_id == t.item_id && f.key@ == t.key@ && f.title@
                == t.title@ && f.content_type == t.content_type && f.path == t.attachment_path
                && opt_string_view(f.resolved_path) == resolve_attachment_spec(
                opt_string_view(t.attachment_path),
                t.key@,
                data_dir@,
            ) && !f.exists,
        },
{
    let mut attachments = attachments;
    let target = if !str_eq(item.type_label.as_str(), "attachment") {
        if attachments.len() == 0 {
            return Err(DomainError::from_string(concat_str("No attachment file found for item: ", item.key.as_str())));
        }
        attachments.remove(0)
    } else {
        item
    };
    let resolved_path = match &target.attachment_path {
        Some(p) => resolve_attachment_real_path(Some(p.as_str()), target.key.as_str(), data_dir),
        None => resolve_attachment_real_path(None, target.key.as_str(), data_dir),
    };
    Ok(ItemFile {
        item_id: target.item_id,
        key: target.key,
        title: target.title,
        content_type: target.content_type,
        path: target.attachment_path,
        resolved_path,
        exists: false,
    })
}

} // verus!
