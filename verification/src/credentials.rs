//! Local API write credentials: where one comes from, and how the per-server store changes.
//!
//! The store file is read, parsed and written by the caller; this module decides what the
//! store holds after each operation, and never shows a key in full.

use vstd::prelude::*;

use crate::text::{nat_decimal, push_str, str_eq, string_from_chars, trim, trim_str, u64_decimal, chars_of};

verus! {

/// The schema version of the credential store this library understands.
pub const SCHEMA_VERSION: u32 = 1;

/// A Local API write credential.
#[derive(Clone)]
pub struct LocalApiCredential {
    pub app_name: String,
    pub key: String,
    pub remember: bool,
    pub issued_at: String,
}

/// Where a resolved credential came from, or that none was found.
#[derive(Debug, Clone, Copy, PartialEq, Eq)]
pub enum CredentialSource {
    Environment,
    Store,
    NotFound,
}

/// What `format!("{:?}", s)` gives for a string: the quoted, escaped text.
pub uninterp spec fn debug_quoted_result(s: Seq<char>) -> Seq<char>;

/// Calls `<str as Debug>::fmt` through `format!`.
#[verifier::external_body]
pub(crate) fn debug_quoted(s: &str) -> (r: String)
    ensures
        r@ == debug_quoted_result(s@),
{
    format!("{:?}", s)
}

/// The redacted placeholder shown in place of a key of `n` bytes.
pub open spec fn redacted_key(n: nat) -> Seq<char> {
    "<redacted, "@ + nat_decimal(n) + " bytes>"@
}

/// The debug text of a credential: every field as `Debug` shows it, except the key, which
/// is replaced by its length in bytes.
pub open spec fn credential_debug_spec(c: LocalApiCredential) -> Seq<char> {
    "LocalApiCredential { app_name: "@ + debug_quoted_result(c.app_name@) + ", key: "@
        + debug_quoted_result(redacted_key(vstd::utf8::encode_utf8(c.key@).len()))
        + ", remember: "@ + (if c.remember {
        "true"@
    } else {
        "false"@
    }) + ", issued_at: "@ + debug_quoted_result(c.issued_at@) + " }"@
}

impl LocalApiCredential {
    /// The debug text of this credential, which never contains the key itself.
    pub fn redacted_debug(&self) -> (r: String)
        ensures
            r@ == credential_debug_spec(*self),
    {
        let n = self.key.as_str().as_bytes().len();
        let digits = u64_decimal(n as u64);
        let count = string_from_chars(&digits);
        let mut placeholder = "<redacted, ".to_owned();
        push_str(&mut placeholder, count.as_str());
        push_str(&mut placeholder, " bytes>");
        let mut out = "LocalApiCredential { app_name: ".to_owned();
        let app = debug_quoted(self.app_name.as_str());
        push_str(&mut out, app.as_str());
        push_str(&mut out, ", key: ");
        let key = debug_quoted(placeholder.as_str());
        push_str(&mut out, key.as_str());
        push_str(&mut out, ", remember: ");
        if self.remember {
            push_str(&mut out, "true");
        } else {
            push_str(&mut out, "false");
        }
        push_str(&mut out, ", issued_at: ");
        let issued = debug_quoted(self.issued_at.as_str());
        push_str(&mut out, issued.as_str());
        push_str(&mut out, " }");
        proof {
            reveal_strlit("<redacted, ");
            reveal_strlit("LocalApiCredential { app_name: ");
            assert(placeholder@ == redacted_key(vstd::utf8::encode_utf8(self.key@).len()));
        }
        out
    }
}

/// The credential store: per `Zotero-Server-ID`, one credential.
pub struct CredentialFile {
    pub version: u32,
    pub credentials: Vec<(String, LocalApiCredential)>,
}

/// The credential stored under `server_id` (the first entry with that id).
pub open spec fn stored_under(entries: Seq<(String, LocalApiCredential)>, server_id: Seq<char>) -> Option<
    LocalApiCredential,
>
    decreases entries.len(),
{
    if entries.len() == 0 {
        None
    } else if entries[0].0@ == server_id {
        Some(entries[0].1)
    } else {
        stored_under(entries.drop_first(), server_id)
    }
}

/// The state of the store file on disk, as the caller found it.
pub enum CredentialFileState {
    /// No file yet (or an empty one).
    Missing,
    /// A file of the supported schema, parsed.
    Loaded(CredentialFile),
}

/// The error for a store file of another schema version.
pub open spec fn unsupported_version_message(path: Seq<char>, version: u32) -> Seq<char> {
    "credential store at "@ + path + " has unsupported schema version "@ + nat_decimal(version as nat)
        + " (this build understands version 1) and will not be overwritten"@
}

/// Accepts a parsed store file only when its schema version is the supported one.
pub fn check_schema(file: CredentialFile, path: &str) -> (r: Result<CredentialFileState, String>)
    ensures
        file.version == 1 ==> (r matches Ok(CredentialFileState::Loaded(f)) && f == file),
        file.version != 1 ==> (r matches Err(m) && m@ == unsupported_version_message(path@, file.version)),
{
    if file.version == SCHEMA_VERSION {
        return Ok(CredentialFileState::Loaded(file));
    }
    let mut m = "credential store at ".to_owned();
    push_str(&mut m, path);
    push_str(&mut m, " has unsupported schema version ");
    let digits = u64_decimal(file.version as u64);
    let v = string_from_chars(&digits);
    push_str(&mut m, v.as_str());
    push_str(&mut m, " (this build understands version 1) and will not be overwritten");
    proof {
        reveal_strlit("credential store at ");
    }
    Err(m)
}

/// The error for a store file that is not a valid store.
pub open spec fn malformed_message(path: Seq<char>, error: Seq<char>) -> Seq<char> {
    "credential store at "@ + path + " is malformed and will not be overwritten: "@ + error
}

/// The state of the store read at `path`: no file, or a file that is blank once trimmed, is
/// `Missing`; otherwise its parse (`parsed`, made only of a file with content) decides: a
/// parse error fails closed with the malformed-store message, a parsed file goes through
/// `check_schema`.
pub fn credential_file_state(path: &str, raw: Option<&str>, parsed: Result<CredentialFile, String>) -> (r: Result<
    CredentialFileState,
    String,
>)
    ensures
        (raw is None || crate::text::trim(raw->0@).len() == 0) ==> r matches Ok(CredentialFileState::Missing),
        (raw is Some && crate::text::trim(raw->0@).len() > 0) ==> match parsed {
            Err(e) => r matches Err(m) && m@ == malformed_message(path@, e@),
            Ok(f) => if f.version == 1 {
                r matches Ok(CredentialFileState::Loaded(g)) && g == f
            } else {
                r matches Err(m) && m@ == unsupported_version_message(path@, f.version)
            },
        },
{
    let blank = match raw {
        None => true,
        Some(t) => crate::text::str_is_empty(crate::text::trim_str(t).as_str()),
    };
    if blank {
        return Ok(CredentialFileState::Missing);
    }
    match parsed {
        Err(e) => {
            let mut m = "credential store at ".to_owned();
            push_str(&mut m, path);
            push_str(&mut m, " is malformed and will not be overwritten: ");
            push_str(&mut m, e.as_str());
            proof {
                reveal_strlit("credential store at ");
            }
            Err(m)
        },
        Ok(f) => check_schema(f, path),
    }
}

fn entry_index(entries: &Vec<(String, LocalApiCredential)>, server_id: &str) -> (r: Option<usize>)
    ensures
        match r {
            Some(i) => i < entries@.len() && entries@[i as int].0@ == server_id@ && forall|j: int|
                0 <= j < i ==> #[trigger] entries@[j].0@ != server_id@,
            None => forall|j: int| 0 <= j < entries@.len() ==> #[trigger] entries@[j].0@ != server_id@,
        },
{
    let mut i: usize = 0;
    while i < entries.len()
        invariant
            i <= entries@.len(),
            forall|j: int| 0 <= j < i ==> #[trigger] entries@[j].0@ != server_id@,
        decreases entries.len() - i,
    {
        if str_eq(entries[i].0.as_str(), server_id) {
            return Some(i);
        }
        i = i + 1;
    }
    None
}

proof fn lemma_stored_under_absent(entries: Seq<(String, LocalApiCredential)>, k: Seq<char>)
    requires
        forall|j: int| 0 <= j < entries.len() ==> #[trigger] entries[j].0@ != k,
    ensures
        stored_under(entries, k) is None,
    decreases entries.len(),
{
    if entries.len() > 0 {
        assert(entries[0].0@ != k);
        assert forall|j: int| 0 <= j < entries.drop_first().len() implies #[trigger] entries.drop_first()[j].0@ != k by {
            assert(entries.drop_first()[j] == entries[j + 1]);
        }
        lemma_stored_under_absent(entries.drop_first(), k);
    }
}

proof fn lemma_stored_under_at(entries: Seq<(String, LocalApiCredential)>, i: int, k: Seq<char>)
    requires
        0 <= i < entries.len(),
        entries[i].0@ == k,
        forall|j: int| 0 <= j < i ==> #[trigger] entries[j].0@ != k,
    ensures
        stored_under(entries, k) == Some(entries[i].1),
    decreases i,
{
    if i > 0 {
        assert forall|j: int| 0 <= j < i - 1 implies #[trigger] entries.drop_first()[j].0@ != k by {
            assert(entries.drop_first()[j] == entries[j + 1]);
        }
        assert(entries.drop_first()[i - 1] == entries[i]);
        lemma_stored_under_at(entries.drop_first(), i - 1, k);
    }
}

proof fn lemma_stored_under_update(
    entries: Seq<(String, LocalApiCredential)>,
    i: int,
    e: (String, LocalApiCredential),
    k: Seq<char>,
)
    requires
        0 <= i < entries.len(),
        entries[i].0@ == e.0@,
        forall|j: int| 0 <= j < i ==> #[trigger] entries[j].0@ != e.0@,
    ensures
        stored_under(entries.update(i, e), k) == if k == e.0@ {
            Some(e.1)
        } else {
            stored_under(entries, k)
        },
    decreases i,
{
    if i == 0 {
        assert(entries.update(i, e).drop_first() =~= entries.drop_first());
    } else {
        assert(entries.update(i, e).drop_first() =~= entries.drop_first().update(i - 1, e));
        assert forall|j: int| 0 <= j < i - 1 implies #[trigger] entries.drop_first()[j].0@ != e.0@ by {
            assert(entries.drop_first()[j] == entries[j + 1]);
        }
        assert(entries[0].0@ != e.0@);
        lemma_stored_under_update(entries.drop_first(), i - 1, e, k);
    }
}

proof fn lemma_stored_under_push(entries: Seq<(String, LocalApiCredential)>, e: (String, LocalApiCredential), k: Seq<char>)
    requires
        stored_under(entries, e.0@) is None,
    ensures
        stored_under(entries.push(e), k) == if k == e.0@ {
            Some(e.1)
        } else {
            stored_under(entries, k)
        },
    decreases entries.len(),
{
    if entries.len() == 0 {
        assert(entries.push(e).drop_first() =~= Seq::<(String, LocalApiCredential)>::empty());
        assert(entries.push(e)[0] == e);
        assert(stored_under(entries.push(e).drop_first(), k) is None);
        assert(stored_under(entries, k) is None);
    } else {
        assert(entries.push(e).drop_first() =~= entries.drop_first().push(e));
        assert(entries.push(e)[0] == entries[0]);
        assert(entries[0].0@ != e.0@);
        lemma_stored_under_push(entries.drop_first(), e, k);
    }
}

proof fn lemma_stored_under_remove(entries: Seq<(String, LocalApiCredential)>, i: int, k: Seq<char>)
    requires
        0 <= i < entries.len(),
        forall|j: int| 0 <= j < i ==> #[trigger] entries[j].0@ != entries[i].0@,
        forall|j: int| i < j < entries.len() ==> #[trigger] entries[j].0@ != entries[i].0@,
    ensures
        stored_under(entries.remove(i), k) == if k == entries[i].0@ {
            None
        } else {
            stored_under(entries, k)
        },
    decreases i,
{
    if i == 0 {
        assert(entries.remove(0) =~= entries.drop_first());
        if k == entries[0].0@ {
            assert forall|j: int| 0 <= j < entries.drop_first().len() implies #[trigger] entries.drop_first()[j].0@ != k by {
                assert(entries.drop_first()[j] == entries[j + 1]);
            }
            lemma_stored_under_absent(entries.drop_first(), k);
        }
    } else {
        let d = entries.drop_first();
        assert(entries.remove(i).drop_first() =~= d.remove(i - 1));
        assert(entries.remove(i)[0] == entries[0]);
        assert(d[i - 1] == entries[i]);
        assert forall|j: int| 0 <= j < i - 1 implies #[trigger] d[j].0@ != d[i - 1].0@ by {
            assert(d[j] == entries[j + 1]);
        }
        assert forall|j: int| i - 1 < j < d.len() implies #[trigger] d[j].0@ != d[i - 1].0@ by {
            assert(d[j] == entries[j + 1]);
        }
        lemma_stored_under_remove(d, i - 1, k);
    }
}

/// Keys are distinct: no two entries share a server id.
pub open spec fn distinct_ids(entries: Seq<(String, LocalApiCredential)>) -> bool {
    forall|a: int, b: int| 0 <= a < b < entries.len() ==> #[trigger] entries[a].0@ != #[trigger] entries[b].0@
}

/// The store after saving `credential` for `server_id`: a new store of the supported version
/// when there was none, otherwise the loaded one with that server's entry set and every other
/// entry untouched. The caller writes it back.
pub fn store_credential(state: CredentialFileState, server_id: &str, credential: LocalApiCredential) -> (r: CredentialFile)
    requires
        state matches CredentialFileState::Loaded(f) ==> distinct_ids(f.credentials@),
    ensures
        distinct_ids(r.credentials@),
        r.version == match state {
            CredentialFileState::Missing => 1u32,
            CredentialFileState::Loaded(f) => f.version,
        },
        forall|k: Seq<char>|
            #[trigger] stored_under(r.credentials@, k) == if k == server_id@ {
                Some(credential)
            } else {
                match state {
                    CredentialFileState::Missing => None,
                    CredentialFileState::Loaded(f) => stored_under(f.credentials@, k),
                }
            },
{
    let ghost st = state;
    let mut file = match state {
        CredentialFileState::Missing => CredentialFile { version: SCHEMA_VERSION, credentials: Vec::new() },
        CredentialFileState::Loaded(f) => f,
    };
    let ghost old_entries = file.credentials@;
    proof {
        if st is Missing {
            assert(old_entries =~= Seq::<(String, LocalApiCredential)>::empty());
        }
        assert forall|k: Seq<char>| #[trigger] stored_under(old_entries, k) == match st {
            CredentialFileState::Missing => None,
            CredentialFileState::Loaded(f) => stored_under(f.credentials@, k),
        } by {}
    }
    let e = (server_id.to_owned(), credential);
    match entry_index(&file.credentials, server_id) {
        Some(i) => {
            file.credentials.set(i, e);
            proof {
                assert forall|k: Seq<char>| #[trigger] stored_under(file.credentials@, k) == if k == server_id@ {
                    Some(credential)
                } else {
                    stored_under(old_entries, k)
                } by {
                    lemma_stored_under_update(old_entries, i as int, e, k);
                }
                assert forall|a: int, b: int| 0 <= a < b < file.credentials@.len() implies #[trigger] file.credentials@[a].0@ != #[trigger] file.credentials@[b].0@ by {
                    assert(old_entries[a].0@ != old_entries[b].0@);
                }
            }
        },
        None => {
            proof {
                lemma_stored_under_absent(old_entries, server_id@);
            }
            file.credentials.push(e);
            proof {
                assert forall|k: Seq<char>| #[trigger] stored_under(file.credentials@, k) == if k == server_id@ {
                    Some(credential)
                } else {
                    stored_under(old_entries, k)
                } by {
                    lemma_stored_under_push(old_entries, e, k);
                }
                assert forall|a: int, b: int| 0 <= a < b < file.credentials@.len() implies #[trigger] file.credentials@[a].0@ != #[trigger] file.credentials@[b].0@ by {
                    if b < old_entries.len() {
                        assert(old_entries[a].0@ != old_entries[b].0@);
                    } else {
                        assert(old_entries[a].0@ != server_id@);
                    }
                }
            }
        },
    }
    file
}

/// The store after dropping the entry of `server_id`: `None` when nothing needs writing
/// (no store, or no entry for that server), else the loaded store without that entry and
/// with every other entry untouched.
pub fn invalidate_stored(state: CredentialFileState, server_id: &str) -> (r: Option<CredentialFile>)
    requires
        state matches CredentialFileState::Loaded(f) ==> distinct_ids(f.credentials@),
    ensures
        match state {
            CredentialFileState::Missing => r is None,
            CredentialFileState::Loaded(f) => match r {
                None => stored_under(f.credentials@, server_id@) is None,
                Some(n) => stored_under(f.credentials@, server_id@) is Some && n.version == f.version
                    && distinct_ids(n.credentials@) && forall|k: Seq<char>|
                    #[trigger] stored_under(n.credentials@, k) == if k == server_id@ {
                        None
                    } else {
                        stored_under(f.credentials@, k)
                    },
            },
        },
{
    let mut file = match state {
        CredentialFileState::Missing => return None,
        CredentialFileState::Loaded(f) => f,
    };
    let ghost old_entries = file.credentials@;
    match entry_index(&file.credentials, server_id) {
        None => {
            proof {
                lemma_stored_under_absent(old_entries, server_id@);
            }
            None
        },
        Some(i) => {
            proof {
                lemma_stored_under_at(old_entries, i as int, server_id@);
                assert forall|j: int| i < j < old_entries.len() implies #[trigger] old_entries[j].0@ != old_entries[i as int].0@ by {
                    assert(old_entries[i as int].0@ != old_entries[j].0@);
                }
            }
            let _removed = file.credentials.remove(i);
            proof {
                assert forall|k: Seq<char>| #[trigger] stored_under(file.credentials@, k) == if k == server_id@ {
                    None
                } else {
                    stored_under(old_entries, k)
                } by {
                    lemma_stored_under_remove(old_entries, i as int, k);
                }
                assert forall|a: int, b: int| 0 <= a < b < file.credentials@.len() implies #[trigger] file.credentials@[a].0@ != #[trigger] file.credentials@[b].0@ by {
                    let a0 = if a < i { a } else { a + 1 };
                    let b0 = if b < i { b } else { b + 1 };
                    assert(file.credentials@[a] == old_entries[a0]);
                    assert(file.credentials@[b] == old_entries[b0]);
                    assert(old_entries[a0].0@ != old_entries[b0].0@);
                }
            }
            Some(file)
        },
    }
}

/// Which credential to use: a non-blank `ZOTERO_LOCAL_API_KEY` value (trimmed) first, then
/// the store's entry for `server_id`, else none. A store that could not be read counts as
/// none here.
pub open spec fn resolve_spec(env_value: Option<Seq<char>>, stored: Option<LocalApiCredential>) -> CredentialSource {
    if env_value is Some && trim(env_value.unwrap()).len() != 0 {
        CredentialSource::Environment
    } else if stored is Some {
        CredentialSource::Store
    } else {
        CredentialSource::NotFound
    }
}

/// Resolves the credential for `server_id`, given the key variable's value (if set) and
/// the store as read (`None` when it could not be read or parsed).
pub fn resolve_credential(env_value: Option<&str>, state: Option<CredentialFileState>, server_id: &str) -> (r: (
    Option<LocalApiCredential>,
    CredentialSource,
))
    ensures
        ({
            let env = match env_value {
                Some(v) => Some(v@),
                None => None,
            };
            let stored = match state {
                Some(CredentialFileState::Loaded(f)) => stored_under(f.credentials@, server_id@),
                _ => None,
            };
            &&& r.1 == resolve_spec(env, stored)
            &&& r.1 == CredentialSource::Environment ==> (r.0 matches Some(c) && c.key@ == trim(
                env.unwrap(),
            ) && c.app_name@ == "zotero-rust-cli"@ && c.remember && c.issued_at@.len() == 0)
            &&& r.1 == CredentialSource::Store ==> r.0 == stored
            &&& r.1 == CredentialSource::NotFound ==> r.0 is None
        }),
{
    if let Some(v) = env_value {
        let t = trim_str(v);
        let tv = chars_of(t.as_str());
        if tv.len() != 0 {
            let c = LocalApiCredential {
                app_name: "zotero-rust-cli".to_owned(),
                key: t,
                remember: true,
                issued_at: String::new(),
            };
            return (Some(c), CredentialSource::Environment);
        }
    }
    match state {
        Some(CredentialFileState::Loaded(file)) => {
            let ghost entries = file.credentials@;
            let mut creds = file.credentials;
            match entry_index(&creds, server_id) {
                Some(i) => {
                    proof {
                        lemma_stored_under_at(entries, i as int, server_id@);
                    }
                    let (_, c) = creds.remove(i);
                    (Some(c), CredentialSource::Store)
                },
                None => {
                    proof {
                        lemma_stored_under_absent(entries, server_id@);
                    }
                    (None, CredentialSource::NotFound)
                },
            }
        },
        _ => (None, CredentialSource::NotFound),
    }
}

} // verus!
