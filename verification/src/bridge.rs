//! The CLI Bridge plugin's HTTP endpoint: its address and the ownership handshake.

use vstd::prelude::*;

use crate::error::DomainError;
use crate::json::{
    entries_view, get_spec, json_text, quoted, to_json_string, write_quoted, Json, JsonV,
};
use crate::results::{empty_result_payload, empty_result_spec};
use crate::text::{
    chars_of, nat_decimal, parse_unsigned, parse_unsigned_spec, push_str, str_eq, str_is_empty,
    string_from_chars, trim, trim_str, u64_decimal,
};

verus! {

/// Zotero's local HTTP port when none is configured.
pub const DEFAULT_PORT: u16 = 23119;

/// The `fork` an owned Bridge plugin reports.
pub open spec fn owned_fork() -> Seq<char> {
    "zotero-rust-cli"@
}

/// The `id` an owned Bridge plugin reports.
pub open spec fn owned_id() -> Seq<char> {
    "cli-bridge@cli-anything-rust.dev"@
}

/// What a Bridge probe found.
#[derive(Clone, Copy, Debug, PartialEq, Eq)]
pub enum BridgeProbe {
    /// Our plugin answered the handshake.
    Owned,
    /// Something answered on the Bridge path, but not our plugin.
    Foreign,
    /// Nothing answered.
    Unreachable,
}

/// Ownership marker returned by the Bridge plugin's ping.
#[derive(Debug, Clone)]
pub struct OwnershipMarker {
    pub fork: String,
    pub id: String,
    pub version: String,
    pub ownership: String,
}

impl OwnershipMarker {
    /// Whether the marker names our fork and plugin id.
    pub fn is_owned(&self) -> (b: bool)
        ensures
            b == (self.fork@ == owned_fork() && self.id@ == owned_id()),
    {
        proof {
            reveal_strlit("zotero-rust-cli");
            reveal_strlit("cli-bridge@cli-anything-rust.dev");
        }
        str_eq(self.fork.as_str(), "zotero-rust-cli") && str_eq(self.id.as_str(), "cli-bridge@cli-anything-rust.dev")
    }
}

/// The Bridge endpoint is active only when the ping answered `200` with a body that
/// parsed as an ownership marker naming our fork and plugin id.
pub fn bridge_endpoint_active(status: u16, marker: Option<&OwnershipMarker>) -> (b: bool)
    ensures
        b == (status == 200 && match marker {
            Some(m) => m.fork@ == owned_fork() && m.id@ == owned_id(),
            None => false,
        }),
{
    if status != 200 {
        return false;
    }
    match marker {
        Some(m) => m.is_owned(),
        None => false,
    }
}

/// The port to use given the value of `ZOTERO_HTTP_PORT`: the trimmed value when it
/// parses as a `u16`, else the default.
pub open spec fn default_port_spec(env_value: Option<Seq<char>>) -> u16 {
    match env_value {
        Some(v) => match parse_unsigned_spec(trim(v), 65535) {
            Some(p) => p as u16,
            None => 23119,
        },
        None => 23119,
    }
}

/// The Bridge port from the `ZOTERO_HTTP_PORT` value (if set).
pub fn default_port(env_value: Option<&str>) -> (p: u16)
    ensures
        p == default_port_spec(match env_value {
            Some(v) => Some(v@),
            None => None,
        }),
{
    match env_value {
        None => DEFAULT_PORT,
        Some(v) => {
            let t = trim_str(v);
            match parse_unsigned(t.as_str(), 65535) {
                Some(p) => {
                    p as u16
                },
                None => DEFAULT_PORT,
            }
        },
    }
}

/// Client of the `/cli-bridge/eval` endpoint on one port.
#[derive(Debug, Clone)]
pub struct JSBridgeClient {
    pub port: u16,
}

impl JSBridgeClient {
    /// A client for `port`.
    pub fn new(port: u16) -> (c: JSBridgeClient)
        ensures
            c.port == port,
    {
        JSBridgeClient { port }
    }

    /// `http://127.0.0.1:<port>/cli-bridge/eval`.
    pub fn bridge_url(&self) -> (u: String)
        ensures
            u@ == "http://127.0.0.1:"@ + nat_decimal(self.port as nat) + "/cli-bridge/eval"@,
    {
        let digits = u64_decimal(self.port as u64);
        let port_text = string_from_chars(&digits);
        let mut u = "http://127.0.0.1:".to_owned();
        push_str(&mut u, port_text.as_str());
        push_str(&mut u, "/cli-bridge/eval");
        proof {
            reveal_strlit("http://127.0.0.1:");
            reveal_strlit("/cli-bridge/eval");
        }
        u
    }
}


/// The `{ok, data, error, ...}` envelope of a Bridge call.
#[derive(Debug)]
pub struct BridgeResponse {
    pub ok: bool,
    pub data: Option<Json>,
    pub error: Option<String>,
    pub error_name: Option<String>,
    pub error_stack: Option<String>,
    pub error_raw: Option<String>,
}

/// View of an optional value.
pub open spec fn opt_json(o: Option<Json>) -> Option<JsonV> {
    match o {
        Some(j) => Some(j@),
        None => None,
    }
}

/// View of an optional string.
pub open spec fn opt_text(o: Option<String>) -> Option<Seq<char>> {
    match o {
        Some(s) => Some(s@),
        None => None,
    }
}

impl BridgeResponse {
    /// A successful call carrying `data`.
    pub fn success(data: Json) -> (r: BridgeResponse)
        ensures
            r.ok && opt_json(r.data) == Some(data@) && r.error is None && r.error_name is None
                && r.error_stack is None && r.error_raw is None,
    {
        BridgeResponse { ok: true, data: Some(data), error: None, error_name: None, error_stack: None, error_raw: None }
    }

    /// A failed call with message `error`.
    pub fn failure(error: String) -> (r: BridgeResponse)
        ensures
            !r.ok && r.data is None && opt_text(r.error) == Some(error@) && r.error_name is None
                && r.error_stack is None && r.error_raw is None,
    {
        BridgeResponse { ok: false, data: None, error: Some(error), error_name: None, error_stack: None, error_raw: None }
    }

    /// Whether the call succeeded.
    pub fn is_ok(&self) -> (b: bool)
        ensures
            b == self.ok,
    {
        self.ok
    }

    /// The data of a successful call: a failed call's error (or `Bridge call failed`), a
    /// data object reporting `ok: false` with a string `error` as that error, and no data as
    /// `Bridge call returned no data`.
    pub fn require_data(&self) -> (r: Result<&Json, DomainError>)
        ensures
            !self.ok ==> (r matches Err(e) && e.0@ == match opt_text(self.error) {
                Some(m) => m,
                None => "Bridge call failed"@,
            }),
            self.ok && self.data is None ==> (r matches Err(e) && e.0@ == "Bridge call returned no data"@),
            self.ok && self.data is Some ==> ({
                let d = self.data.unwrap()@;
                if get_spec(d, "ok"@) == Some(JsonV::Bool(false)) && get_spec(d, "error"@) is Some
                    && get_spec(d, "error"@).unwrap() is Str {
                    r matches Err(e) && JsonV::Str(e.0@) == get_spec(d, "error"@).unwrap()
                } else {
                    r matches Ok(j) && j@ == d
                }
            }),
    {
        if !self.ok {
            return match &self.error {
                Some(m) => Err(DomainError::new(m.as_str())),
                None => Err(DomainError::new("Bridge call failed")),
            };
        }
        match &self.data {
            Some(data) => {
                let failed = match data.get("ok") {
                    Some(Json::Bool(false)) => true,
                    _ => false,
                };
                if failed {
                    match data.get("error") {
                        Some(Json::Str(err)) => return Err(DomainError::new(err.as_str())),
                        _ => {},
                    }
                }
                Ok(data)
            },
            None => Err(DomainError::new("Bridge call returned no data")),
        }
    }
}

/// The JSON form of an envelope: `ok`, and each optional field that is present.
pub open spec fn transport_json(t: BridgeResponse) -> JsonV {
    let m = Seq::<(Seq<char>, JsonV)>::empty();
    let m = match opt_json(t.data) {
        Some(d) => m.push(("data"@, d)),
        None => m,
    };
    let m = match opt_text(t.error) {
        Some(e) => m.push(("error"@, JsonV::Str(e))),
        None => m,
    };
    let m = match opt_text(t.error_name) {
        Some(e) => m.push(("error_name"@, JsonV::Str(e))),
        None => m,
    };
    let m = match opt_text(t.error_raw) {
        Some(e) => m.push(("error_raw"@, JsonV::Str(e))),
        None => m,
    };
    let m = match opt_text(t.error_stack) {
        Some(e) => m.push(("error_stack"@, JsonV::Str(e))),
        None => m,
    };
    JsonV::Object(m.push(("ok"@, JsonV::Bool(t.ok))))
}

/// The payload shown for a failed call: `ok: false`, `data: null`, `error` (or `null`) and
/// whichever of `error_name`, `error_raw`, `error_stack` are present.
pub open spec fn failure_payload(t: BridgeResponse) -> JsonV {
    let m = seq![("data"@, JsonV::Null), ("error"@, match opt_text(t.error) {
        Some(e) => JsonV::Str(e),
        None => JsonV::Null,
    })];
    let m = match opt_text(t.error_name) {
        Some(e) => m.push(("error_name"@, JsonV::Str(e))),
        None => m,
    };
    let m = match opt_text(t.error_raw) {
        Some(e) => m.push(("error_raw"@, JsonV::Str(e))),
        None => m,
    };
    let m = match opt_text(t.error_stack) {
        Some(e) => m.push(("error_stack"@, JsonV::Str(e))),
        None => m,
    };
    JsonV::Object(m.push(("ok"@, JsonV::Bool(false))))
}

/// How a Bridge envelope becomes a command payload and whether it counts as success.
pub open spec fn classify_spec(t: BridgeResponse, require_data: bool) -> (JsonV, bool) {
    if !t.ok {
        (failure_payload(t), false)
    } else {
        match opt_json(t.data) {
            Some(JsonV::Null) if require_data => (empty_result_spec(), false),
            Some(d) => if d is Object && get_spec(d, "ok"@) == Some(JsonV::Bool(false)) {
                (d, false)
            } else {
                (d, true)
            },
            None => if require_data {
                (empty_result_spec(), false)
            } else {
                (transport_json(t), true)
            },
        }
    }
}

fn push_opt_text(m: &mut Vec<(String, Json)>, key: &str, value: &Option<String>)
    ensures
        entries_view(final(m)@) == match opt_text(*value) {
            Some(e) => entries_view(old(m)@).push((key@, JsonV::Str(e))),
            None => entries_view(old(m)@),
        },
{
    match value {
        Some(e) => {
            let ghost before = m@;
            let entry = (key.to_owned(), Json::Str(e.clone()));
            m.push(entry);
            proof {
                crate::json::lemma_entries_view_push(before, entry);
            }
        },
        None => {},
    }
}

/// Turns a Bridge envelope into the payload a command shows, and whether it succeeded.
pub fn classify_bridge_payload_with_options(transport: &BridgeResponse, require_data: bool) -> (r: (Json, bool))
    ensures
        (r.0@, r.1) == classify_spec(*transport, require_data),
{
    if !transport.ok {
        let mut m: Vec<(String, Json)> = Vec::new();
        m.push(("data".to_owned(), Json::Null));
        let error = match &transport.error {
            Some(e) => Json::Str(e.clone()),
            None => Json::Null,
        };
        m.push(("error".to_owned(), error));
        proof {
            reveal_with_fuel(entries_view, 3);
            assert(entries_view(m@) =~= seq![("data"@, JsonV::Null), ("error"@, match opt_text(transport.error) {
                Some(e) => JsonV::Str(e),
                None => JsonV::Null,
            })]);
        }
        push_opt_text(&mut m, "error_name", &transport.error_name);
        push_opt_text(&mut m, "error_raw", &transport.error_raw);
        push_opt_text(&mut m, "error_stack", &transport.error_stack);
        let ghost before = m@;
        let entry = ("ok".to_owned(), Json::Bool(false));
        m.push(entry);
        proof {
            crate::json::lemma_entries_view_push(before, entry);
        }
        return (Json::Object(m), false);
    }
    match &transport.data {
        Some(Json::Null) if require_data => (empty_result_payload(), false),
        Some(d) => {
            let failed = match d {
                Json::Object(_) => match d.get("ok") {
                    Some(Json::Bool(false)) => true,
                    _ => false,
                },
                _ => false,
            };
            (d.deep_clone(), !failed)
        },
        None => if require_data {
            (empty_result_payload(), false)
        } else {
            let mut m: Vec<(String, Json)> = Vec::new();
            proof {
                assert(entries_view(m@) =~= Seq::<(Seq<char>, JsonV)>::empty());
            }
            push_opt_text(&mut m, "error", &transport.error);
            push_opt_text(&mut m, "error_name", &transport.error_name);
            push_opt_text(&mut m, "error_raw", &transport.error_raw);
            push_opt_text(&mut m, "error_stack", &transport.error_stack);
            let ghost before = m@;
            let entry = ("ok".to_owned(), Json::Bool(transport.ok));
            m.push(entry);
            proof {
                crate::json::lemma_entries_view_push(before, entry);
            }
            (Json::Object(m), true)
        },
    }
}

/// [`classify_bridge_payload_with_options`] without requiring data.
pub fn classify_bridge_payload(transport: &BridgeResponse) -> (r: (Json, bool))
    ensures
        (r.0@, r.1) == classify_spec(*transport, false),
{
    classify_bridge_payload_with_options(transport, false)
}

/// The message of a Bridge or plugin error payload: a non-blank string trimmed; for an
/// object, the first non-blank of `error`, `message`, `raw`, `name` (a non-string, non-null
/// one as compact JSON), else the object's JSON unless it is `{}`; any other value as
/// JSON; `unknown bridge error` when nothing is left.
pub open spec fn bridge_error_spec(err: JsonV) -> Seq<char> {
    match err {
        JsonV::Null => "unknown bridge error"@,
        JsonV::Str(s) => if trim(s).len() == 0 {
            "unknown bridge error"@
        } else {
            trim(s)
        },
        JsonV::Object(o) => match first_error_field(o, seq!["error"@, "message"@, "raw"@, "name"@]) {
            Some(m) => m,
            None => if json_text(err).len() != 0 && json_text(err) != "{}"@ {
                json_text(err)
            } else {
                "unknown bridge error"@
            },
        },
        _ => json_text(err),
    }
}

/// The first usable message among the members `keys` of `o`, in order.
pub open spec fn first_error_field(o: Seq<(Seq<char>, JsonV)>, keys: Seq<Seq<char>>) -> Option<Seq<char>>
    decreases keys.len(),
{
    if keys.len() == 0 {
        None
    } else {
        let here = match crate::json::member(o, keys[0]) {
            Some(JsonV::Str(s)) => if trim(s).len() != 0 {
                Some(trim(s))
            } else {
                None
            },
            Some(JsonV::Null) => None,
            Some(v) => if trim(json_text(v)).len() != 0 {
                Some(trim(json_text(v)))
            } else {
                None
            },
            None => None,
        };
        match here {
            Some(m) => Some(m),
            None => first_error_field(o, keys.drop_first()),
        }
    }
}

fn error_field(o: &Vec<(String, Json)>, key: &str) -> (r: Option<String>)
    ensures
        opt_text(r) == match crate::json::member(entries_view(o@), key@) {
            Some(JsonV::Str(s)) => if trim(s).len() != 0 {
                Some(trim(s))
            } else {
                None
            },
            Some(JsonV::Null) => None,
            Some(v) => if trim(json_text(v)).len() != 0 {
                Some(trim(json_text(v)))
            } else {
                None
            },
            None => None,
        },
{
    match crate::json::member_get(o, key) {
        Some(Json::Str(s)) => {
            let t = trim_str(s.as_str());
            if str_is_empty(t.as_str()) {
                None
            } else {
                Some(t)
            }
        },
        Some(Json::Null) => None,
        Some(v) => {
            let text = to_json_string(v);
            let t = trim_str(text.as_str());
            if str_is_empty(t.as_str()) {
                None
            } else {
                Some(t)
            }
        },
        None => None,
    }
}

/// Normalizes a Bridge or plugin error payload into a non-empty message.
pub fn format_bridge_error(err: &Json) -> (r: String)
    ensures
        r@ == bridge_error_spec(err@),
{
    match err {
        Json::Null => "unknown bridge error".to_owned(),
        Json::Str(s) => {
            let t = trim_str(s.as_str());
            if str_is_empty(t.as_str()) {
                "unknown bridge error".to_owned()
            } else {
                t
            }
        },
        Json::Object(o) => {
            let ghost ov = entries_view(o@);
            let ghost keys = seq!["error"@, "message"@, "raw"@, "name"@];
            proof {
                assert(keys.drop_first() =~= seq!["message"@, "raw"@, "name"@]);
                assert(keys.drop_first().drop_first() =~= seq!["raw"@, "name"@]);
                assert(keys.drop_first().drop_first().drop_first() =~= seq!["name"@]);
                assert(keys.drop_first().drop_first().drop_first().drop_first() =~= Seq::<Seq<char>>::empty());
                reveal_with_fuel(first_error_field, 5);
            }
            match error_field(o, "error") {
                Some(m) => return m,
                None => {},
            }
            match error_field(o, "message") {
                Some(m) => return m,
                None => {},
            }
            match error_field(o, "raw") {
                Some(m) => return m,
                None => {},
            }
            match error_field(o, "name") {
                Some(m) => return m,
                None => {},
            }
            let dumped = to_json_string(err);
            proof {
                reveal_strlit("{}");
            }
            if !str_is_empty(dumped.as_str()) && !str_eq(dumped.as_str(), "{}") {
                dumped
            } else {
                "unknown bridge error".to_owned()
            }
        },
        _ => to_json_string(err),
    }
}

/// The script that binds `params` to the constant `P` through `JSON.parse` of a string
/// literal, then runs `template`: parameters never reach the code as anything but data.
pub open spec fn render_spec(template: Seq<char>, params: JsonV) -> Seq<char> {
    "const P = JSON.parse("@ + quoted(json_text(params)) + ");\n"@ + template
}

/// Renders a Bridge script from a template and its parameters.
pub fn render(template: &str, params: &Json) -> (r: String)
    ensures
        r@ == render_spec(template@, params@),
{
    let json_str = to_json_string(params);
    let mut out = "const P = JSON.parse(".to_owned();
    write_quoted(json_str.as_str(), &mut out);
    push_str(&mut out, ");\n");
    push_str(&mut out, template);
    out
}

} // verus!
