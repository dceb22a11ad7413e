//! The decisions that bring a live Zotero backend up: when to use what is running, when to
//! refuse, when to launch, and what a failed launch reports.
//!
//! Probing, spawning and waiting are done by the caller; it hands each decision the facts
//! it observed.

use vstd::prelude::*;

use crate::bridge::BridgeProbe;
use crate::error::DomainError;
use crate::text::{
    ascii_lowercase, chars_of, nat_decimal, parse_unsigned, parse_unsigned_spec, push_str, str_eq,
    string_from_chars, to_ascii_lowercase, trim, trim_str, u64_decimal,
};

verus! {

/// Name of the variable that suppresses every automatic launch.
pub open spec fn no_autolaunch_env() -> Seq<char> {
    "ZOTERO_CLI_NO_AUTOLAUNCH"@
}

/// Seconds to wait for a launched Zotero when no timeout is configured.
pub const DEFAULT_LAUNCH_TIMEOUT_SECS: u64 = 60;

/// The capability a command needs.
#[derive(Debug, Clone, Copy, PartialEq, Eq)]
pub enum Backend {
    /// `GET /connector/ping` answers 200.
    Connector,
    /// `GET /api/` answers 200.
    LocalApi,
    /// The Local API is reachable and a write credential exists for this instance.
    LocalApiWrite,
    /// The Bridge eval endpoint answers and passes the ownership handshake.
    Bridge,
    /// At least one approved write backend (authorized Local API, or owned Bridge).
    Write,
}

/// The capabilities observed by probing a running Zotero.
#[derive(Debug, Clone, Copy)]
pub struct Availability {
    pub connector: bool,
    pub local_api: bool,
    pub local_api_writes: bool,
    pub bridge: bool,
}

/// The user-facing name of a capability.
pub open spec fn label_spec(b: Backend) -> Seq<char> {
    match b {
        Backend::Connector => "Zotero connector"@,
        Backend::LocalApi => "Zotero Local API"@,
        Backend::LocalApiWrite => "authorized Zotero Local API write access"@,
        Backend::Bridge => "CLI Bridge eval endpoint"@,
        Backend::Write => "a Zotero write backend (authorized Local API, or the CLI Bridge)"@,
    }
}

/// What to do to obtain a capability that did not come up.
pub open spec fn remediation_spec(b: Backend) -> Seq<char> {
    match b {
        Backend::Connector => "Check that Zotero finished starting, then retry."@,
        Backend::LocalApi => "Enable it: zotero-cli app enable-local-api --launch (or Zotero Settings -> Advanced -> allow other applications on this computer to communicate with Zotero)."@,
        Backend::LocalApiWrite => "Authorize write access once, with the Zotero consent dialog: zotero-cli app authorize-local-api."@,
        Backend::Bridge => "Install the CLI Bridge and restart Zotero: zotero-cli app install-plugin, then verify with: zotero-cli app doctor."@,
        Backend::Write => "Set up one write backend: zotero-cli app authorize-local-api, or zotero-cli app install-plugin followed by a Zotero restart. Diagnose with: zotero-cli app doctor."@,
    }
}

impl Backend {
    /// The user-facing name of this capability.
    pub fn label(self) -> (s: &'static str)
        ensures
            s@ == label_spec(self),
    {
        match self {
            Backend::Connector => "Zotero connector",
            Backend::LocalApi => "Zotero Local API",
            Backend::LocalApiWrite => "authorized Zotero Local API write access",
            Backend::Bridge => "CLI Bridge eval endpoint",
            Backend::Write => "a Zotero write backend (authorized Local API, or the CLI Bridge)",
        }
    }

    /// Whether this capability is usable, given what probing found.
    pub fn available(self, a: &Availability) -> (b: bool)
        ensures
            b == match self {
                Backend::Connector => a.connector,
                Backend::LocalApi => a.local_api,
                Backend::LocalApiWrite => a.local_api_writes,
                Backend::Bridge => a.bridge,
                Backend::Write => a.local_api_writes || a.bridge,
            },
    {
        match self {
            Backend::Connector => a.connector,
            Backend::LocalApi => a.local_api,
            Backend::LocalApiWrite => a.local_api_writes,
            Backend::Bridge => a.bridge,
            Backend::Write => a.local_api_writes || a.bridge,
        }
    }
}

/// What to do to obtain `backend` when it did not come up.
pub fn remediation(backend: Backend) -> (s: &'static str)
    ensures
        s@ == remediation_spec(backend),
{
    match backend {
        Backend::Connector => "Check that Zotero finished starting, then retry.",
        Backend::LocalApi => "Enable it: zotero-cli app enable-local-api --launch (or Zotero Settings -> Advanced -> allow other applications on this computer to communicate with Zotero).",
        Backend::LocalApiWrite => "Authorize write access once, with the Zotero consent dialog: zotero-cli app authorize-local-api.",
        Backend::Bridge => "Install the CLI Bridge and restart Zotero: zotero-cli app install-plugin, then verify with: zotero-cli app doctor.",
        Backend::Write => "Set up one write backend: zotero-cli app authorize-local-api, or zotero-cli app install-plugin followed by a Zotero restart. Diagnose with: zotero-cli app doctor.",
    }
}

/// A flag variable is on when its trimmed, ASCII-lower-cased value is non-empty and neither
/// `0` nor `false`; an unset variable is off.
pub open spec fn flag_enabled_spec(value: Option<Seq<char>>) -> bool {
    match value {
        None => false,
        Some(v) => {
            let t = ascii_lowercase(trim(v));
            t.len() != 0 && t != "0"@ && t != "false"@
        },
    }
}

/// Whether a flag variable with this value (if set) is on.
pub fn env_flag_enabled(value: Option<&str>) -> (b: bool)
    ensures
        b == flag_enabled_spec(match value {
            Some(v) => Some(v@),
            None => None,
        }),
{
    match value {
        None => false,
        Some(v) => {
            let t = trim_str(v);
            let low = to_ascii_lowercase(t.as_str());
            let lv = chars_of(low.as_str());
            lv.len() != 0 && !str_eq(low.as_str(), "0") && !str_eq(low.as_str(), "false")
        },
    }
}

/// The launch timeout in seconds: the trimmed value of the timeout variable when it parses
/// as a `u64`, else sixty.
pub open spec fn launch_timeout_spec(value: Option<Seq<char>>) -> u64 {
    match value {
        None => 60,
        Some(v) => match parse_unsigned_spec(trim(v), u64::MAX as int) {
            Some(n) => n as u64,
            None => 60,
        },
    }
}

/// The launch timeout in seconds, given the timeout variable's value (if set).
pub fn launch_timeout(value: Option<&str>) -> (secs: u64)
    ensures
        secs == launch_timeout_spec(match value {
            Some(v) => Some(v@),
            None => None,
        }),
{
    match value {
        None => DEFAULT_LAUNCH_TIMEOUT_SECS,
        Some(v) => {
            let t = trim_str(v);
            match parse_unsigned(t.as_str(), u64::MAX) {
                Some(n) => n,
                None => DEFAULT_LAUNCH_TIMEOUT_SECS,
            }
        },
    }
}

/// The next step towards a usable backend.
#[derive(Debug, Clone, Copy, PartialEq, Eq)]
pub enum EnsureStep {
    /// Go on with the running Zotero as it is.
    UseRunning,
    /// Launch Zotero, then wait for the backend.
    Launch,
}

/// The message when a backend is missing, Zotero is closed, and launching is disabled.
pub open spec fn autolaunch_disabled_message(backend: Backend) -> Seq<char> {
    label_spec(backend)
        + " is unavailable and Zotero does not appear to be running. Automatic launch is disabled ("@
        + no_autolaunch_env() + " is set); start Zotero yourself, or run: zotero-cli app launch"@
}

/// Decides how to obtain `backend`: use what is running when the backend is available, or
/// when Zotero answers on its HTTP port (a second process would not help); otherwise launch,
/// unless automatic launch is disabled.
pub fn ensure_backend(backend: Backend, available: bool, http_responding: bool, no_autolaunch: bool) -> (r: Result<
    EnsureStep,
    DomainError,
>)
    ensures
        available || http_responding ==> r == Ok::<EnsureStep, DomainError>(EnsureStep::UseRunning),
        !available && !http_responding && !no_autolaunch ==> r == Ok::<EnsureStep, DomainError>(
            EnsureStep::Launch,
        ),
        !available && !http_responding && no_autolaunch ==> (r matches Err(e) && e.0@
            == autolaunch_disabled_message(backend)),
{
    if available || http_responding {
        return Ok(EnsureStep::UseRunning);
    }
    if no_autolaunch {
        let mut msg = backend.label().to_owned();
        push_str(
            &mut msg,
            " is unavailable and Zotero does not appear to be running. Automatic launch is disabled (",
        );
        push_str(&mut msg, "ZOTERO_CLI_NO_AUTOLAUNCH");
        push_str(&mut msg, " is set); start Zotero yourself, or run: zotero-cli app launch");
        proof {
            reveal_strlit("ZOTERO_CLI_NO_AUTOLAUNCH");
        }
        return Err(DomainError::from_string(msg));
    }
    Ok(EnsureStep::Launch)
}

/// The message when a launched Zotero did not bring `backend` up in time.
pub open spec fn launch_timeout_message(backend: Backend, secs: u64) -> Seq<char> {
    "Zotero was launched but "@ + label_spec(backend) + " did not become ready within "@ + nat_decimal(
        secs as nat,
    ) + "s. "@ + remediation_spec(backend)
}

/// After a launch: success when the backend became ready, else the timeout error.
pub fn after_launch(backend: Backend, ready: bool, timeout_secs: u64) -> (r: Result<(), DomainError>)
    ensures
        ready ==> r is Ok,
        !ready ==> (r matches Err(e) && e.0@ == launch_timeout_message(backend, timeout_secs)),
{
    if ready {
        return Ok(());
    }
    let mut msg = "Zotero was launched but ".to_owned();
    push_str(&mut msg, backend.label());
    push_str(&mut msg, " did not become ready within ");
    let digits = u64_decimal(timeout_secs);
    let secs_text = string_from_chars(&digits);
    push_str(&mut msg, secs_text.as_str());
    push_str(&mut msg, "s. ");
    push_str(&mut msg, remediation(backend));
    proof {
        reveal_strlit("Zotero was launched but ");
    }
    Err(DomainError::from_string(msg))
}

/// Whether a Bridge-only command must go through [`ensure_backend`]: only when nothing
/// answered the Bridge probe (an owned or a foreign answer means Zotero is up).
pub fn ensure_bridge(probe: BridgeProbe) -> (launch_path: bool)
    ensures
        launch_path == (probe == BridgeProbe::Unreachable),
{
    match probe {
        BridgeProbe::Owned | BridgeProbe::Foreign => false,
        BridgeProbe::Unreachable => true,
    }
}

} // verus!
