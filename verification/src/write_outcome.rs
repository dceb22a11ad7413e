//! What a Bridge write answered: the outcome of a write script that reports a prefixed status
//! line, read at the write-operation boundary.

use vstd::prelude::*;

use crate::bridge::{opt_json, opt_text, BridgeResponse};
use crate::credentials::{debug_quoted, debug_quoted_result};
use crate::json::{get_spec, json_text, to_json_string, Json, JsonV};
use crate::text::{chars_of, concat_str, push_str, starts_with, starts_with_exec};

verus! {

/// The outcome of a write: applied to the item with the given key, or failed with a detail.
pub enum WriteOutcome {
    Applied { affected_key: String },
    TransportError { detail: String },
}

/// The value of a write outcome.
pub enum WriteOutcomeV {
    Applied(Seq<char>),
    TransportError(Seq<char>),
}

/// View of a write outcome.
pub open spec fn outcome_view(o: WriteOutcome) -> WriteOutcomeV {
    match o {
        WriteOutcome::Applied { affected_key } => WriteOutcomeV::Applied(affected_key@),
        WriteOutcome::TransportError { detail } => WriteOutcomeV::TransportError(detail@),
    }
}

/// What `BridgeResponse::require_data` gives: the data of a successful call, or the error of a
/// failed call (`Bridge call failed` without one), of data reporting `ok: false` with a string
/// `error`, or of a call without data.
pub open spec fn required_data(t: BridgeResponse) -> Result<JsonV, Seq<char>> {
    if !t.ok {
        Err(match opt_text(t.error) {
            Some(m) => m,
            None => "Bridge call failed"@,
        })
    } else {
        match opt_json(t.data) {
            None => Err("Bridge call returned no data"@),
            Some(d) => match (get_spec(d, "ok"@), get_spec(d, "error"@)) {
                (Some(JsonV::Bool(false)), Some(JsonV::Str(e))) => Err(e),
                _ => Ok(d),
            },
        }
    }
}

/// The outcome of a write script that answers `<success_prefix>...` or `ERROR: ...`: applied
/// to `affected_key` on the success prefix; the script's own line on `ERROR:`; the call's
/// error when it failed; any other answer (a non-string reads as empty) as unrecognized.
pub open spec fn text_outcome_spec(t: BridgeResponse, success_prefix: Seq<char>, affected_key: Seq<char>) -> WriteOutcomeV {
    match required_data(t) {
        Err(m) => WriteOutcomeV::TransportError(m),
        Ok(d) => {
            let text = match d {
                JsonV::Str(s) => s,
                _ => Seq::empty(),
            };
            if starts_with(text, success_prefix) {
                WriteOutcomeV::Applied(affected_key)
            } else if starts_with(text, "ERROR:"@) {
                WriteOutcomeV::TransportError(text)
            } else {
                WriteOutcomeV::TransportError("bridge returned an unrecognized response (expected a \""@ + success_prefix
                    + "\" or \"ERROR:\" prefix): "@ + debug_quoted_result(text))
            }
        },
    }
}

/// The outcome of a write script that answers with a prefixed status line.
pub fn map_text_outcome(resp: &BridgeResponse, success_prefix: &str, affected_key: &str) -> (r: WriteOutcome)
    ensures
        outcome_view(r) == text_outcome_spec(*resp, success_prefix@, affected_key@),
{
    let data = match resp.require_data() {
        Ok(d) => d,
        Err(e) => return WriteOutcome::TransportError { detail: e.0 },
    };
    let text: String = match data {
        Json::Str(s) => s.clone(),
        _ => String::new(),
    };
    let tv = chars_of(text.as_str());
    if starts_with_exec(&tv, &chars_of(success_prefix)) {
        WriteOutcome::Applied { affected_key: affected_key.to_owned() }
    } else if starts_with_exec(&tv, &chars_of("ERROR:")) {
        WriteOutcome::TransportError { detail: text }
    } else {
        let mut detail = concat_str("bridge returned an unrecognized response (expected a \"", success_prefix);
        push_str(&mut detail, "\" or \"ERROR:\" prefix): ");
        push_str(&mut detail, debug_quoted(text.as_str()).as_str());
        WriteOutcome::TransportError { detail }
    }
}

/// What serde_json's `Debug` impl shows of the value that a JSON text parses to
/// (`serde_json::from_str::<Value>`), or the parse error's message.
pub uninterp spec fn json_value_debug_result(text: Seq<char>) -> Result<Seq<char>, Seq<char>>;

/// Parses a JSON text with `serde_json::from_str` and shows the value with its `Debug` impl
/// (`{:?}`), as the original shows the bridge's data in an error detail; the parse error's
/// message when the text does not parse.
#[verifier::external_body]
fn json_value_debug(text: &str) -> (r: Result<String, String>)
    ensures
        match json_value_debug_result(text@) {
            Ok(t) => r matches Ok(x) && x@ == t,
            Err(m) => r matches Err(e) && e@ == m,
        },
{
    match serde_json::from_str::<serde_json::Value>(text) {
        Ok(v) => Ok(format!("{v:?}")),
        Err(e) => Err(e.to_string()),
    }
}

/// How an error detail shows the bridge's data: serde_json's `Debug` view of it, or (should
/// its own text not parse) that text.
pub open spec fn shown_data(d: JsonV) -> Seq<char> {
    match json_value_debug_result(json_text(d)) {
        Ok(t) => t,
        Err(_) => json_text(d),
    }
}

/// A non-empty string member of a JSON object.
pub open spec fn nonempty_str_member(d: JsonV, name: Seq<char>) -> Option<Seq<char>> {
    match get_spec(d, name) {
        Some(JsonV::Str(k)) => if k.len() > 0 {
            Some(k)
        } else {
            None
        },
        _ => None,
    }
}

/// A string member of a JSON object.
pub open spec fn str_member(d: JsonV, name: Seq<char>) -> Option<Seq<char>> {
    match get_spec(d, name) {
        Some(JsonV::Str(e)) => Some(e),
        _ => None,
    }
}

/// The outcome of a write script that answers with an object (`{"key": ...}` on success,
/// `{"error": ...}` on failure): applied to a non-empty string `key` when there is no string
/// `error`; that error when there is no such key; the call's error when it failed; a
/// response with both, or with neither, as ambiguous or unrecognized, showing the data.
pub open spec fn object_outcome_spec(t: BridgeResponse) -> WriteOutcomeV {
    match required_data(t) {
        Err(m) => WriteOutcomeV::TransportError(m),
        Ok(d) => match (nonempty_str_member(d, "key"@), str_member(d, "error"@)) {
            (Some(k), None) => WriteOutcomeV::Applied(k),
            (None, Some(e)) => WriteOutcomeV::TransportError(e),
            (Some(_), Some(_)) => WriteOutcomeV::TransportError(
                "bridge returned both \"key\" and \"error\" (ambiguous/malformed): "@ + shown_data(d),
            ),
            (None, None) => WriteOutcomeV::TransportError(
                "bridge returned an unrecognized response (expected a non-empty \"key\" or \"error\"): "@ + shown_data(d),
            ),
        },
    }
}

fn show_data(d: &Json) -> (r: String)
    ensures
        r@ == shown_data(d@),
{
    let text = to_json_string(d);
    match json_value_debug(text.as_str()) {
        Ok(t) => t,
        Err(_) => text,
    }
}

/// The outcome of a write script that answers with an object (see `object_outcome_spec`).
pub fn map_object_outcome(resp: &BridgeResponse) -> (r: WriteOutcome)
    ensures
        outcome_view(r) == object_outcome_spec(*resp),
{
    let data = match resp.require_data() {
        Ok(d) => d,
        Err(e) => return WriteOutcome::TransportError { detail: e.0 },
    };
    let key: Option<String> = match data.get("key") {
        Some(Json::Str(k)) => if crate::text::str_is_empty(k.as_str()) {
            None
        } else {
            Some(k.clone())
        },
        _ => None,
    };
    let error: Option<String> = match data.get("error") {
        Some(Json::Str(e)) => Some(e.clone()),
        _ => None,
    };
    match (key, error) {
        (Some(k), None) => WriteOutcome::Applied { affected_key: k },
        (None, Some(e)) => WriteOutcome::TransportError { detail: e },
        (Some(_), Some(_)) => WriteOutcome::TransportError {
            detail: concat_str("bridge returned both \"key\" and \"error\" (ambiguous/malformed): ", show_data(data).as_str()),
        },
        (None, None) => WriteOutcome::TransportError {
            detail: concat_str(
                "bridge returned an unrecognized response (expected a non-empty \"key\" or \"error\"): ",
                show_data(data).as_str(),
            ),
        },
    }
}

} // verus!
