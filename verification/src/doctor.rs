//! The health report of `app doctor`: which surfaces answer, which state the Bridge plugin is
//! in, what to do next, and whether reads and writes can go ahead.

use vstd::prelude::*;

use crate::add_import::{opt_string, str_or_null};
use crate::bridge::{opt_json, BridgeProbe, BridgeResponse};
use crate::json::{entries_view, get_spec, jsons_view, Json, JsonV};
use crate::text::{concat_str, nat_decimal, str_eq, str_is_empty, strings_view};

verus! {

/// What the program found out before diagnosing.
pub struct DoctorFacts {
    /// This program's version.
    pub package_version: String,
    /// Zotero's version as detected (empty or `unknown` when not known).
    pub zotero_version: String,
    pub executable: Option<String>,
    pub data_dir: String,
    pub profile_dir: Option<String>,
    pub connector_available: bool,
    pub connector_message: String,
    pub local_api_available: bool,
    pub local_api_message: String,
    /// Whether the Local API is enabled in Zotero's settings.
    pub local_api_configured: bool,
    /// Whether an authorized Local API can take writes.
    pub local_api_writes_available: bool,
    /// Whether anything answers Zotero's HTTP port.
    pub zotero_http_responding: bool,
    /// The Bridge port of this process.
    pub port: u16,
    /// Where the plugin's XPI belongs in the profile.
    pub xpi_path: Option<String>,
    /// Where the bundled XPI was staged, when it was.
    pub staged_xpi: Option<String>,
    /// Whether the plugin's XPI is in the profile.
    pub installed: bool,
    pub installed_version: Option<String>,
    pub bundled_version: Option<String>,
    /// Whether the local database's path is empty.
    pub sqlite_path_empty: bool,
    /// What the Bridge endpoint answered to the ownership probe.
    pub probe: BridgeProbe,
}

/// Whether the doctor asks the Bridge to evaluate its test script: only when our plugin owns
/// the endpoint.
pub open spec fn needs_eval(probe: BridgeProbe) -> bool {
    probe == BridgeProbe::Owned
}

/// Whether the doctor asks the Bridge to evaluate its test script.
pub fn doctor_needs_eval(probe: &BridgeProbe) -> (b: bool)
    ensures
        b == needs_eval(*probe),
{
    match probe {
        BridgeProbe::Owned => true,
        _ => false,
    }
}

/// The script the doctor evaluates through the Bridge.
pub fn doctor_eval_script() -> (r: &'static str) {
    "return {ok: true, value: 'cli-bridge-ok', version: Zotero.version};"
}

/// Whether the evaluation round-tripped: the transport succeeded and the data's `value` is
/// `cli-bridge-ok`.
pub open spec fn eval_ok(eval: Option<BridgeResponse>) -> bool {
    match eval {
        Some(t) => t.ok && match opt_json(t.data) {
            Some(d) => get_spec(d, "value"@) == Some(JsonV::Str("cli-bridge-ok"@)),
            None => false,
        },
        None => false,
    }
}

/// Whether an update of the plugin is available.
pub open spec fn update_available(f: DoctorFacts) -> bool {
    f.installed_version is Some && f.bundled_version is Some && opt_string(f.installed_version) != opt_string(f.bundled_version)
}

/// Which state the plugin and Bridge are in.
pub open spec fn bridge_state(f: DoctorFacts, js_ok: bool) -> Seq<char> {
    if !f.installed {
        if f.staged_xpi is Some {
            "staged_not_installed"@
        } else {
            "not_installed"@
        }
    } else if !f.zotero_http_responding {
        "installed_zotero_closed"@
    } else if f.probe != BridgeProbe::Owned {
        if f.probe == BridgeProbe::Foreign {
            "ownership_invalid"@
        } else {
            "installed_not_loaded"@
        }
    } else if js_ok {
        "healthy"@
    } else {
        "eval_failing"@
    }
}

/// Zotero's version, when it is known.
pub open spec fn known_version(v: Seq<char>) -> Option<Seq<char>> {
    if v.len() == 0 || v == "unknown"@ {
        None
    } else {
        Some(v)
    }
}

/// The advice on Zotero and its connector.
pub open spec fn running_steps(f: DoctorFacts) -> Seq<Seq<char>> {
    if !f.zotero_http_responding {
        seq!["Zotero is not running. Commands that need a live backend start it automatically; to start it yourself run: zotero-cli app launch."@]
    } else if !f.connector_available {
        seq!["Zotero is running but its connector is not answering ("@ + f.connector_message@ + "). Restart Zotero, then re-run: zotero-cli app doctor."@]
    } else {
        Seq::empty()
    }
}

/// The advice on the Local API.
pub open spec fn local_api_steps(f: DoctorFacts) -> Seq<Seq<char>> {
    if f.local_api_available {
        Seq::empty()
    } else if f.local_api_configured {
        if f.zotero_http_responding {
            seq!["The Local API is enabled in Zotero's settings but the running Zotero is not serving it. Restart Zotero, then check Settings \u{2192} Advanced \u{2192} \"Allow other applications on this computer to communicate with Zotero\"."@]
        } else {
            seq!["The Local API is already enabled in Zotero's settings; it is unavailable only because Zotero is not running."@]
        }
    } else {
        seq!["Enable the Local API in Zotero: Settings \u{2192} Advanced \u{2192} \"Allow other applications on this computer to communicate with Zotero\"."@]
    }
}

/// The advice on the plugin and Bridge.
pub open spec fn plugin_steps(f: DoctorFacts, js_ok: bool) -> Seq<Seq<char>> {
    if !f.installed {
        match f.staged_xpi {
            Some(p) => seq!["CLI Bridge is staged but not installed yet. In Zotero: Tools \u{2192} Plugins \u{2192} gear icon \u{2192} Install Add-on From File\u{2026} \u{2192} select "@
                + p@ + " \u{2192} restart Zotero."@],
            None => seq!["CLI Bridge is not installed. Some live operations (raw JS, sync, cross-library search while Zotero is running) require it. Run: zotero-cli app install-plugin"@],
        }
    } else if update_available(f) {
        seq!["Upgrade CLI Bridge "@ + opt_string(f.installed_version)->Some_0 + " \u{2192} "@ + opt_string(f.bundled_version)->Some_0
            + ": zotero-cli app install-plugin, then restart Zotero."@]
    } else if f.probe != BridgeProbe::Owned {
        let state = bridge_state(f, js_ok);
        if state == "installed_zotero_closed"@ {
            seq!["CLI Bridge is installed but Zotero is not running. Start Zotero, or run: zotero-cli app launch."@]
        } else if state == "ownership_invalid"@ {
            seq!["Something is serving /cli-bridge/eval but it is not this CLI's Bridge plugin. Reinstall it: zotero-cli app install-plugin, then restart Zotero."@]
        } else {
            seq!["Restart Zotero so /cli-bridge/eval is registered."@]
        }
    } else if !js_ok {
        seq!["Bridge endpoint is up but eval failed; reinstall plugin and restart Zotero."@]
    } else {
        Seq::empty()
    }
}

/// What to do next; a healthy install is told so.
pub open spec fn next_steps(f: DoctorFacts, js_ok: bool) -> Seq<Seq<char>> {
    let steps = running_steps(f) + local_api_steps(f) + plugin_steps(f, js_ok);
    if steps.len() == 0 {
        seq!["CLI Bridge and local surfaces look healthy."@]
    } else {
        steps
    }
}

/// Whether every surface is ready.
pub open spec fn all_ready(f: DoctorFacts, js_ok: bool) -> bool {
    known_version(f.zotero_version@) is Some && f.connector_available && f.local_api_available
        && (f.installed && !update_available(f)) && (f.probe == BridgeProbe::Owned && js_ok)
}


/// The evaluation's data, when the endpoint is ours and it answered with some.
pub open spec fn eval_data(f: DoctorFacts, eval: Option<BridgeResponse>) -> Option<JsonV> {
    if needs_eval(f.probe) {
        match eval {
            Some(t) => opt_json(t.data),
            None => None,
        }
    } else {
        None
    }
}

/// The evaluation's error, when the endpoint is ours.
pub open spec fn eval_error(f: DoctorFacts, eval: Option<BridgeResponse>) -> Option<Seq<char>> {
    if needs_eval(f.probe) {
        match eval {
            Some(t) => opt_string(t.error),
            None => None,
        }
    } else {
        None
    }
}

/// Whether the evaluation round-tripped on our endpoint.
pub open spec fn js_ok(f: DoctorFacts, eval: Option<BridgeResponse>) -> bool {
    needs_eval(f.probe) && eval_ok(eval)
}

/// The Zotero version the evaluation reported.
pub open spec fn js_version(data: Option<JsonV>) -> JsonV {
    match data {
        Some(d) => match get_spec(d, "version"@) {
            Some(JsonV::Str(v)) => JsonV::Str(v),
            _ => JsonV::Null,
        },
        None => JsonV::Null,
    }
}

/// The Bridge check.
pub open spec fn bridge_check(f: DoctorFacts, eval: Option<BridgeResponse>) -> JsonV {
    let active = needs_eval(f.probe);
    let ok = js_ok(f, eval);
    JsonV::Object(seq![
        ("endpoint_active"@, JsonV::Bool(active)),
        ("js_error"@, str_or_null(eval_error(f, eval))),
        ("js_ok"@, JsonV::Bool(ok)),
        ("js_result"@, match eval_data(f, eval) {
            Some(d) => d,
            None => JsonV::Null,
        }),
        ("ok"@, JsonV::Bool(active && ok)),
        ("port"@, JsonV::Number(nat_decimal(f.port as nat))),
        ("staged_xpi_path"@, str_or_null(opt_string(f.staged_xpi))),
        ("state"@, JsonV::Str(bridge_state(f, ok))),
        ("zotero_js_version"@, js_version(eval_data(f, eval))),
    ])
}

/// The checks of every surface.
pub open spec fn checks_spec(f: DoctorFacts, eval: Option<BridgeResponse>) -> JsonV {
    JsonV::Object(seq![
        ("bridge"@, bridge_check(f, eval)),
        ("connector"@, JsonV::Object(seq![("message"@, JsonV::Str(f.connector_message@)), ("ok"@, JsonV::Bool(f.connector_available))])),
        ("local_api"@, JsonV::Object(seq![
            ("configured"@, JsonV::Bool(f.local_api_configured)),
            ("message"@, JsonV::Str(f.local_api_message@)),
            ("ok"@, JsonV::Bool(f.local_api_available)),
        ])),
        ("package"@, JsonV::Object(seq![("ok"@, JsonV::Bool(true)), ("version"@, JsonV::Str(f.package_version@))])),
        ("plugin"@, JsonV::Object(seq![
            ("bundled_version"@, str_or_null(opt_string(f.bundled_version))),
            ("installed_version"@, str_or_null(opt_string(f.installed_version))),
            ("ok"@, JsonV::Bool(f.installed && !update_available(f))),
            ("update_available"@, JsonV::Bool(update_available(f))),
            ("xpi_installed"@, JsonV::Bool(f.installed)),
            ("xpi_path"@, str_or_null(opt_string(f.xpi_path))),
        ])),
        ("zotero_app"@, JsonV::Object(seq![
            ("data_dir"@, JsonV::Str(f.data_dir@)),
            ("executable"@, str_or_null(opt_string(f.executable))),
            ("ok"@, JsonV::Bool(known_version(f.zotero_version@) is Some)),
            ("profile_dir"@, str_or_null(opt_string(f.profile_dir))),
            ("version"@, str_or_null(known_version(f.zotero_version@))),
        ])),
    ])
}

/// The report of `app doctor`.
pub open spec fn doctor_report(f: DoctorFacts, eval: Option<BridgeResponse>) -> JsonV {
    let ok = js_ok(f, eval);
    let ready = all_ready(f, ok);
    let bridge_ready = needs_eval(f.probe) && ok;
    JsonV::Object(seq![
        ("action"@, JsonV::Str("app_doctor"@)),
        ("checks"@, checks_spec(f, eval)),
        ("code"@, JsonV::Str(if ready { "READY"@ } else { "DEGRADED"@ })),
        ("next_steps"@, JsonV::Array(next_steps(f, ok).map_values(|s: Seq<char>| JsonV::Str(s)))),
        ("ok"@, JsonV::Bool(ready)),
        ("read_ready"@, JsonV::Bool(known_version(f.zotero_version@) is Some && !f.sqlite_path_empty)),
        ("ready"@, JsonV::Bool(ready)),
        ("status"@, JsonV::Str(if ready { "ready"@ } else { "degraded"@ })),
        ("summary"@, JsonV::Str(if ready {
            "All systems ready for agent read/write."@
        } else {
            "Some surfaces are unavailable; see checks and next_steps."@
        })),
        ("write_backends"@, JsonV::Object(seq![("bridge"@, JsonV::Bool(bridge_ready)), ("local_api"@, JsonV::Bool(f.local_api_writes_available))])),
        ("write_ready"@, JsonV::Bool(bridge_ready || f.local_api_writes_available)),
    ])
}

fn opt_json_str(o: &Option<String>) -> (r: Json)
    ensures
        r@ == str_or_null(opt_string(*o)),
{
    match o {
        Some(s) => Json::Str(s.clone()),
        None => Json::Null,
    }
}

fn obj(m: Vec<(String, Json)>) -> (r: Json)
    ensures
        r@ == JsonV::Object(entries_view(m@)),
{
    Json::Object(m)
}

fn update_available_exec(f: &DoctorFacts) -> (b: bool)
    ensures
        b == update_available(*f),
{
    match (&f.installed_version, &f.bundled_version) {
        (Some(a), Some(b)) => !str_eq(a.as_str(), b.as_str()),
        _ => false,
    }
}

fn known_version_exec(v: &String) -> (r: Option<String>)
    ensures
        opt_string(r) == known_version(v@),
{
    if str_is_empty(v.as_str()) || str_eq(v.as_str(), "unknown") {
        None
    } else {
        Some(v.clone())
    }
}

fn bridge_state_exec(f: &DoctorFacts, ok: bool) -> (r: &'static str)
    ensures
        r@ == bridge_state(*f, ok),
{
    if !f.installed {
        if f.staged_xpi.is_some() {
            "staged_not_installed"
        } else {
            "not_installed"
        }
    } else if !f.zotero_http_responding {
        "installed_zotero_closed"
    } else if !doctor_needs_eval(&f.probe) {
        match f.probe {
            BridgeProbe::Foreign => "ownership_invalid",
            _ => "installed_not_loaded",
        }
    } else if ok {
        "healthy"
    } else {
        "eval_failing"
    }
}

fn eval_ok_exec(eval: &Option<BridgeResponse>) -> (b: bool)
    ensures
        b == eval_ok(*eval),
{
    match eval {
        Some(t) => t.ok && match &t.data {
            Some(d) => match d.get("value") {
                Some(Json::Str(v)) => str_eq(v.as_str(), "cli-bridge-ok"),
                _ => false,
            },
            None => false,
        },
        None => false,
    }
}

#[verifier::rlimit(60)]
fn bridge_check_exec(f: &DoctorFacts, eval: &Option<BridgeResponse>) -> (r: Json)
    ensures
        r@ == bridge_check(*f, *eval),
{
    let active = doctor_needs_eval(&f.probe);
    let ok = active && eval_ok_exec(eval);
    let (js_error, js_result, version) = if active {
        match eval {
            Some(t) => {
                let data = match &t.data {
                    Some(d) => d.deep_clone(),
                    None => Json::Null,
                };
                let version = match &t.data {
                    Some(d) => match d.get("version") {
                        Some(Json::Str(v)) => Json::Str(v.clone()),
                        _ => Json::Null,
                    },
                    None => Json::Null,
                };
                (opt_json_str(&t.error), data, version)
            },
            None => (Json::Null, Json::Null, Json::Null),
        }
    } else {
        (Json::Null, Json::Null, Json::Null)
    };
    let mut m: Vec<(String, Json)> = Vec::new();
    m.push(("endpoint_active".to_owned(), Json::Bool(active)));
    m.push(("js_error".to_owned(), js_error));
    m.push(("js_ok".to_owned(), Json::Bool(ok)));
    m.push(("js_result".to_owned(), js_result));
    m.push(("ok".to_owned(), Json::Bool(active && ok)));
    m.push(("port".to_owned(), crate::json::json_count(f.port as usize)));
    m.push(("staged_xpi_path".to_owned(), opt_json_str(&f.staged_xpi)));
    m.push(("state".to_owned(), Json::Str(bridge_state_exec(f, ok).to_owned())));
    m.push(("zotero_js_version".to_owned(), version));
    proof {
        reveal_with_fuel(entries_view, 10);
        assert(entries_view(m@) =~= bridge_check(*f, *eval)->Object_0);
    }
    obj(m)
}

#[verifier::rlimit(60)]
fn checks_exec(f: &DoctorFacts, eval: &Option<BridgeResponse>) -> (r: Json)
    ensures
        r@ == checks_spec(*f, *eval),
{
    let mut connector: Vec<(String, Json)> = Vec::new();
    connector.push(("message".to_owned(), Json::Str(f.connector_message.clone())));
    connector.push(("ok".to_owned(), Json::Bool(f.connector_available)));
    let mut local: Vec<(String, Json)> = Vec::new();
    local.push(("configured".to_owned(), Json::Bool(f.local_api_configured)));
    local.push(("message".to_owned(), Json::Str(f.local_api_message.clone())));
    local.push(("ok".to_owned(), Json::Bool(f.local_api_available)));
    let mut package: Vec<(String, Json)> = Vec::new();
    package.push(("ok".to_owned(), Json::Bool(true)));
    package.push(("version".to_owned(), Json::Str(f.package_version.clone())));
    let update = update_available_exec(f);
    let mut plugin: Vec<(String, Json)> = Vec::new();
    plugin.push(("bundled_version".to_owned(), opt_json_str(&f.bundled_version)));
    plugin.push(("installed_version".to_owned(), opt_json_str(&f.installed_version)));
    plugin.push(("ok".to_owned(), Json::Bool(f.installed && !update)));
    plugin.push(("update_available".to_owned(), Json::Bool(update)));
    plugin.push(("xpi_installed".to_owned(), Json::Bool(f.installed)));
    plugin.push(("xpi_path".to_owned(), opt_json_str(&f.xpi_path)));
    let known = known_version_exec(&f.zotero_version);
    let mut app: Vec<(String, Json)> = Vec::new();
    app.push(("data_dir".to_owned(), Json::Str(f.data_dir.clone())));
    app.push(("executable".to_owned(), opt_json_str(&f.executable)));
    app.push(("ok".to_owned(), Json::Bool(known.is_some())));
    app.push(("profile_dir".to_owned(), opt_json_str(&f.profile_dir)));
    app.push(("version".to_owned(), opt_json_str(&known)));
    proof {
        reveal_with_fuel(entries_view, 7);
        assert(entries_view(connector@) =~= seq![("message"@, JsonV::Str(f.connector_message@)), ("ok"@, JsonV::Bool(f.connector_available))]);
        assert(entries_view(local@) =~= seq![
            ("configured"@, JsonV::Bool(f.local_api_configured)),
            ("message"@, JsonV::Str(f.local_api_message@)),
            ("ok"@, JsonV::Bool(f.local_api_available)),
        ]);
        assert(entries_view(package@) =~= seq![("ok"@, JsonV::Bool(true)), ("version"@, JsonV::Str(f.package_version@))]);
        assert(entries_view(plugin@) =~= seq![
            ("bundled_version"@, str_or_null(opt_string(f.bundled_version))),
            ("installed_version"@, str_or_null(opt_string(f.installed_version))),
            ("ok"@, JsonV::Bool(f.installed && !update_available(*f))),
            ("update_available"@, JsonV::Bool(update_available(*f))),
            ("xpi_installed"@, JsonV::Bool(f.installed)),
            ("xpi_path"@, str_or_null(opt_string(f.xpi_path))),
        ]);
        assert(entries_view(app@) =~= seq![
            ("data_dir"@, JsonV::Str(f.data_dir@)),
            ("executable"@, str_or_null(opt_string(f.executable))),
            ("ok"@, JsonV::Bool(known_version(f.zotero_version@) is Some)),
            ("profile_dir"@, str_or_null(opt_string(f.profile_dir))),
            ("version"@, str_or_null(known_version(f.zotero_version@))),
        ]);
    }
    let mut m: Vec<(String, Json)> = Vec::new();
    m.push(("bridge".to_owned(), bridge_check_exec(f, eval)));
    m.push(("connector".to_owned(), obj(connector)));
    m.push(("local_api".to_owned(), obj(local)));
    m.push(("package".to_owned(), obj(package)));
    m.push(("plugin".to_owned(), obj(plugin)));
    m.push(("zotero_app".to_owned(), obj(app)));
    proof {
        reveal_with_fuel(entries_view, 7);
        assert(entries_view(m@) =~= checks_spec(*f, *eval)->Object_0);
    }
    obj(m)
}


fn push_step(steps: &mut Vec<String>, s: String)
    ensures
        strings_view(final(steps)@) == strings_view(old(steps)@).push(s@),
{
    let ghost before = steps@;
    steps.push(s);
    proof {
        assert(strings_view(steps@) =~= strings_view(before).push(s@));
    }
}

#[verifier::rlimit(60)]
fn next_steps_exec(f: &DoctorFacts, ok: bool) -> (r: Vec<String>)
    ensures
        strings_view(r@) == next_steps(*f, ok),
{
    let mut steps: Vec<String> = Vec::new();
    proof {
        assert(strings_view(steps@) =~= Seq::<Seq<char>>::empty());
    }
    if !f.zotero_http_responding {
        push_step(&mut steps, "Zotero is not running. Commands that need a live backend start it automatically; to start it yourself run: zotero-cli app launch.".to_owned());
    } else if !f.connector_available {
        let a = concat_str("Zotero is running but its connector is not answering (", f.connector_message.as_str());
        push_step(&mut steps, concat_str(a.as_str(), "). Restart Zotero, then re-run: zotero-cli app doctor."));
    }
    let ghost s1 = strings_view(steps@);
    proof {
        assert(s1 =~= running_steps(*f));
    }
    if !f.local_api_available {
        if f.local_api_configured {
            if f.zotero_http_responding {
                push_step(&mut steps, "The Local API is enabled in Zotero's settings but the running Zotero is not serving it. Restart Zotero, then check Settings \u{2192} Advanced \u{2192} \"Allow other applications on this computer to communicate with Zotero\".".to_owned());
            } else {
                push_step(&mut steps, "The Local API is already enabled in Zotero's settings; it is unavailable only because Zotero is not running.".to_owned());
            }
        } else {
            push_step(&mut steps, "Enable the Local API in Zotero: Settings \u{2192} Advanced \u{2192} \"Allow other applications on this computer to communicate with Zotero\".".to_owned());
        }
    }
    let ghost s2 = strings_view(steps@);
    proof {
        assert(s2 =~= s1 + local_api_steps(*f));
    }
    let update = update_available_exec(f);
    if !f.installed {
        match &f.staged_xpi {
            Some(p) => {
                let a = concat_str("CLI Bridge is staged but not installed yet. In Zotero: Tools \u{2192} Plugins \u{2192} gear icon \u{2192} Install Add-on From File\u{2026} \u{2192} select ", p.as_str());
                push_step(&mut steps, concat_str(a.as_str(), " \u{2192} restart Zotero."));
            },
            None => {
                push_step(&mut steps, "CLI Bridge is not installed. Some live operations (raw JS, sync, cross-library search while Zotero is running) require it. Run: zotero-cli app install-plugin".to_owned());
            },
        }
    } else if update {
        let inst = match &f.installed_version {
            Some(v) => v.clone(),
            None => String::new(),
        };
        let bund = match &f.bundled_version {
            Some(v) => v.clone(),
            None => String::new(),
        };
        let a = concat_str("Upgrade CLI Bridge ", inst.as_str());
        let b = concat_str(a.as_str(), " \u{2192} ");
        let c = concat_str(b.as_str(), bund.as_str());
        push_step(&mut steps, concat_str(c.as_str(), ": zotero-cli app install-plugin, then restart Zotero."));
    } else if !doctor_needs_eval(&f.probe) {
        let state = bridge_state_exec(f, ok);
        if str_eq(state, "installed_zotero_closed") {
            push_step(&mut steps, "CLI Bridge is installed but Zotero is not running. Start Zotero, or run: zotero-cli app launch.".to_owned());
        } else if str_eq(state, "ownership_invalid") {
            push_step(&mut steps, "Something is serving /cli-bridge/eval but it is not this CLI's Bridge plugin. Reinstall it: zotero-cli app install-plugin, then restart Zotero.".to_owned());
        } else {
            push_step(&mut steps, "Restart Zotero so /cli-bridge/eval is registered.".to_owned());
        }
    } else if !ok {
        push_step(&mut steps, "Bridge endpoint is up but eval failed; reinstall plugin and restart Zotero.".to_owned());
    }
    proof {
        assert(strings_view(steps@) =~= s2 + plugin_steps(*f, ok));
    }
    if steps.len() == 0 {
        let mut healthy: Vec<String> = Vec::new();
        push_step(&mut healthy, "CLI Bridge and local surfaces look healthy.".to_owned());
        proof {
            assert(strings_view(healthy@) =~= seq!["CLI Bridge and local surfaces look healthy."@]);
        }
        return healthy;
    }
    steps
}

/// Diagnoses the install from what the program found out, and from the Bridge's evaluation
/// of the test script (asked for only when `doctor_needs_eval` says so).
#[verifier::rlimit(60)]
pub fn run_doctor(facts: &DoctorFacts, eval: &Option<BridgeResponse>) -> (r: Json)
    ensures
        r@ == doctor_report(*facts, *eval),
{
    let active = doctor_needs_eval(&facts.probe);
    let ok = active && eval_ok_exec(eval);
    let checks = checks_exec(facts, eval);
    let update = update_available_exec(facts);
    let known = known_version_exec(&facts.zotero_version).is_some();
    let ready = known && facts.connector_available && facts.local_api_available && (facts.installed && !update) && (active && ok);
    let bridge_ready = active && ok;
    let steps = next_steps_exec(facts, ok);
    let mut arr: Vec<Json> = Vec::new();
    let mut i: usize = 0;
    let ghost sv = strings_view(steps@);
    proof {
        assert(jsons_view(arr@) =~= sv.subrange(0, 0).map_values(|s: Seq<char>| JsonV::Str(s)));
    }
    while i < steps.len()
        invariant
            i <= steps@.len(),
            sv == strings_view(steps@),
            jsons_view(arr@) == sv.subrange(0, i as int).map_values(|s: Seq<char>| JsonV::Str(s)),
        decreases steps.len() - i,
    {
        let j = Json::Str(steps[i].clone());
        let ghost before = arr@;
        arr.push(j);
        proof {
            crate::json::lemma_jsons_view_push(before, j);
            assert(jsons_view(arr@) =~= sv.subrange(0, i + 1).map_values(|s: Seq<char>| JsonV::Str(s)));
        }
        i = i + 1;
    }
    proof {
        assert(sv.subrange(0, sv.len() as int) =~= sv);
    }
    let mut backends: Vec<(String, Json)> = Vec::new();
    backends.push(("bridge".to_owned(), Json::Bool(bridge_ready)));
    backends.push(("local_api".to_owned(), Json::Bool(facts.local_api_writes_available)));
    proof {
        reveal_with_fuel(entries_view, 3);
        assert(entries_view(backends@) =~= seq![("bridge"@, JsonV::Bool(bridge_ready)), ("local_api"@, JsonV::Bool(facts.local_api_writes_available))]);
    }
    let mut m: Vec<(String, Json)> = Vec::new();
    m.push(("action".to_owned(), Json::Str("app_doctor".to_owned())));
    m.push(("checks".to_owned(), checks));
    m.push(("code".to_owned(), Json::Str(if ready { "READY".to_owned() } else { "DEGRADED".to_owned() })));
    m.push(("next_steps".to_owned(), Json::Array(arr)));
    m.push(("ok".to_owned(), Json::Bool(ready)));
    m.push(("read_ready".to_owned(), Json::Bool(known && !facts.sqlite_path_empty)));
    m.push(("ready".to_owned(), Json::Bool(ready)));
    m.push(("status".to_owned(), Json::Str(if ready { "ready".to_owned() } else { "degraded".to_owned() })));
    m.push(("summary".to_owned(), Json::Str(if ready {
        "All systems ready for agent read/write.".to_owned()
    } else {
        "Some surfaces are unavailable; see checks and next_steps.".to_owned()
    })));
    m.push(("write_backends".to_owned(), obj(backends)));
    m.push(("write_ready".to_owned(), Json::Bool(bridge_ready || facts.local_api_writes_available)));
    proof {
        reveal_with_fuel(entries_view, 12);
        assert(entries_view(m@) =~= doctor_report(*facts, *eval)->Object_0);
    }
    obj(m)
}

/// The warning about the plugin: a version other than the bundled one, or no plugin.
pub open spec fn plugin_warning_spec(installed: Option<Seq<char>>, bundled: Option<Seq<char>>, plugin_installed: bool) -> Option<JsonV> {
    if installed is Some && bundled is Some && installed != bundled {
        Some(JsonV::Object(seq![
            ("bundled_version"@, JsonV::Str(bundled->Some_0)),
            ("installed_version"@, JsonV::Str(installed->Some_0)),
            ("message"@, JsonV::Str("CLI Bridge plugin "@ + installed->Some_0 + " != bundled "@ + bundled->Some_0
                + ". Run: zotero-cli app install-plugin, then restart Zotero."@)),
            ("warning"@, JsonV::Str("plugin_version_mismatch"@)),
        ]))
    } else if !plugin_installed {
        Some(JsonV::Object(seq![
            ("bundled_version"@, str_or_null(bundled)),
            ("installed_version"@, JsonV::Null),
            ("message"@, JsonV::Str("CLI Bridge plugin not installed. Run: zotero-cli app install-plugin"@)),
            ("warning"@, JsonV::Str("plugin_missing"@)),
        ]))
    } else {
        None
    }
}

/// The warning about the plugin, if any.
pub fn plugin_version_warning(installed: Option<&str>, bundled: Option<&str>, plugin_installed: bool) -> (r: Option<Json>)
    ensures
        crate::docx_convert::opt_json(r) == plugin_warning_spec(crate::add_import::opt_str(installed), crate::add_import::opt_str(bundled), plugin_installed),
{
    if let (Some(inst), Some(bund)) = (installed, bundled) {
        if !str_eq(inst, bund) {
            let a = concat_str("CLI Bridge plugin ", inst);
            let b = concat_str(a.as_str(), " != bundled ");
            let c = concat_str(b.as_str(), bund);
            let msg = concat_str(c.as_str(), ". Run: zotero-cli app install-plugin, then restart Zotero.");
            let mut m: Vec<(String, Json)> = Vec::new();
            m.push(("bundled_version".to_owned(), Json::Str(bund.to_owned())));
            m.push(("installed_version".to_owned(), Json::Str(inst.to_owned())));
            m.push(("message".to_owned(), Json::Str(msg)));
            m.push(("warning".to_owned(), Json::Str("plugin_version_mismatch".to_owned())));
            proof {
                reveal_with_fuel(entries_view, 5);
                assert(entries_view(m@) =~= plugin_warning_spec(Some(inst@), Some(bund@), plugin_installed)->Some_0->Object_0);
            }
            return Some(obj(m));
        }
    }
    if !plugin_installed {
        let b = match bundled {
            Some(x) => Json::Str(x.to_owned()),
            None => Json::Null,
        };
        let mut m: Vec<(String, Json)> = Vec::new();
        m.push(("bundled_version".to_owned(), b));
        m.push(("installed_version".to_owned(), Json::Null));
        m.push(("message".to_owned(), Json::Str("CLI Bridge plugin not installed. Run: zotero-cli app install-plugin".to_owned())));
        m.push(("warning".to_owned(), Json::Str("plugin_missing".to_owned())));
        proof {
            reveal_with_fuel(entries_view, 5);
            assert(entries_view(m@) =~= plugin_warning_spec(crate::add_import::opt_str(installed), crate::add_import::opt_str(bundled), plugin_installed)->Some_0->Object_0);
        }
        return Some(obj(m));
    }
    None
}

} // verus!
