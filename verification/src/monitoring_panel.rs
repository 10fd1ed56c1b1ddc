//! What the monitoring page shows and decides: device filters and counts, the
//! requests it sends, and the messages after an action.
use vstd::prelude::*;

use crate::dns_checks::get_in;
use crate::json::{as_bool, as_str, as_u64, get, get_array, get_str, push_field, Json, JsonValue};
use crate::monitoring_inventory::{in_state, DEFAULT_SIGNOZ_URL};
use crate::text::{
    chars_of, contains, decimal, has_substring, owned, push_all, push_decimal, to_lowercase, trim,
    trimmed, unicode_lower,
};

verus! {


// ---------------------------------------------------------------------------
// Filtering devices
// ---------------------------------------------------------------------------
/// A text member of a device, or `default` when absent.
pub open spec fn member_or(d: Json, key: Seq<char>, default: Seq<char>) -> Seq<char> {
    match get_str(d, key) {
        Some(s) => s,
        None => default,
    }
}

/// A filter as it is applied: trimmed and lower-cased.
pub open spec fn query_of(text: Seq<char>) -> Seq<char> {
    unicode_lower(trim(text))
}

/// A device passes the filters when the search text occurs in its id, name or
/// address, and the type, site and state filters occur in its kind, site and
/// state (a blank filter passes everything); all compared in lower case.
pub open spec fn device_matches_spec(
    d: Json,
    search: Seq<char>,
    kind: Seq<char>,
    site: Seq<char>,
    state: Seq<char>,
) -> bool {
    let q = query_of(search);
    let kq = query_of(kind);
    let sq = query_of(site);
    let stq = query_of(state);
    &&& (q.len() == 0 || contains(unicode_lower(member_or(d, "id"@, Seq::empty())), q) || contains(
        unicode_lower(member_or(d, "name"@, Seq::empty())),
        q,
    ) || contains(unicode_lower(member_or(d, "address"@, Seq::empty())), q))
    &&& (kq.len() == 0 || contains(unicode_lower(member_or(d, "kind"@, "device"@)), kq))
    &&& (sq.len() == 0 || contains(unicode_lower(member_or(d, "site"@, "home"@)), sq))
    &&& (stq.len() == 0 || contains(unicode_lower(member_or(d, "state"@, "disabled"@)), stq))
}

/// The devices that pass the filters, in order.
pub open spec fn filtered_spec(
    ds: Seq<Json>,
    search: Seq<char>,
    kind: Seq<char>,
    site: Seq<char>,
    state: Seq<char>,
) -> Seq<Json>
    decreases ds.len(),
{
    if ds.len() == 0 {
        ds
    } else {
        let r = filtered_spec(ds.drop_last(), search, kind, site, state);
        if device_matches_spec(ds.last(), search, kind, site, state) {
            r.push(ds.last())
        } else {
            r
        }
    }
}

fn member_lower(d: &JsonValue, key: &str, default: &str) -> (r: Vec<char>)
    ensures
        r@ == unicode_lower(member_or(d@, key@, default@)),
{
    let l = match d.get_str(key) {
        Some(s) => to_lowercase(s.as_str()),
        None => to_lowercase(default),
    };
    chars_of(l.as_str())
}

fn query(text: &str) -> (r: Vec<char>)
    ensures
        r@ == query_of(text@),
{
    let t = trimmed(text);
    let l = to_lowercase(t.as_str());
    chars_of(l.as_str())
}

/// The device passes the filters (see `device_matches_spec`).
pub fn device_matches(d: &JsonValue, search: &str, kind: &str, site: &str, state: &str) -> (r: bool)
    ensures
        r == device_matches_spec(d@, search@, kind@, site@, state@),
{
    proof {
        reveal_strlit("");
        assert(""@ == Seq::<char>::empty());
    }
    let q = query(search);
    let kq = query(kind);
    let sq = query(site);
    let stq = query(state);
    let text_ok = q.len() == 0 || has_substring(&member_lower(d, "id", ""), &q) || has_substring(
        &member_lower(d, "name", ""),
        &q,
    ) || has_substring(&member_lower(d, "address", ""), &q);
    let kind_ok = kq.len() == 0 || has_substring(&member_lower(d, "kind", "device"), &kq);
    let site_ok = sq.len() == 0 || has_substring(&member_lower(d, "site", "home"), &sq);
    let state_ok = stq.len() == 0 || has_substring(&member_lower(d, "state", "disabled"), &stq);
    text_ok && kind_ok && site_ok && state_ok
}

/// The devices that pass the filters, copied (see `filtered_spec`).
pub fn filter_devices(devices: &Vec<JsonValue>, search: &str, kind: &str, site: &str, state: &str) -> (r:
    Vec<JsonValue>)
    ensures
        JsonValue::Array(r)@->Array_0 == filtered_spec(
            JsonValue::Array(*devices)@->Array_0,
            search@,
            kind@,
            site@,
            state@,
        ),
{
    let ghost dv = JsonValue::Array(*devices)@->Array_0;
    let mut out: Vec<JsonValue> = Vec::new();
    let mut i: usize = 0;
    assert(JsonValue::Array(out)@->Array_0 =~= filtered_spec(dv.take(0), search@, kind@, site@, state@));
    while i < devices.len()
        invariant
            i <= devices.len(),
            dv == JsonValue::Array(*devices)@->Array_0,
            JsonValue::Array(out)@->Array_0 == filtered_spec(dv.take(i as int), search@, kind@, site@, state@),
        decreases devices.len() - i,
    {
        assert(dv[i as int] == devices@[i as int]@);
        assert(dv.take(i + 1).drop_last() =~= dv.take(i as int));
        if device_matches(&devices[i], search, kind, site, state) {
            let ghost before = JsonValue::Array(out)@->Array_0;
            let d = devices[i].duplicate();
            out.push(d);
            assert(JsonValue::Array(out)@->Array_0 =~= before.push(dv[i as int]));
        }
        i += 1;
    }
    assert(dv.take(devices.len() as int) =~= dv);
    out
}

// ---------------------------------------------------------------------------
// Counts
// ---------------------------------------------------------------------------
/// The devices listed by a monitoring view.
pub open spec fn view_devices(view: Option<Json>) -> Seq<Json> {
    match get_in(get_in(view, "inventory"@), "devices"@) {
        Some(v) => match v {
            Json::Array(items) => items,
            _ => Seq::empty(),
        },
        None => Seq::empty(),
    }
}

pub open spec fn opt_json(o: Option<&JsonValue>) -> Option<Json> {
    match o {
        Some(v) => Some(v@),
        None => None,
    }
}

/// The devices of a monitoring view, copied (none when it has no list).
pub fn devices_of_view(view: Option<&JsonValue>) -> (r: Vec<JsonValue>)
    ensures
        JsonValue::Array(r)@->Array_0 == view_devices(opt_json(view)),
{
    let items = match view {
        Some(v) => match v.get("inventory") {
            Some(inv) => match inv.get("devices") {
                Some(d) => match d.duplicate() {
                    JsonValue::Array(items) => Some(items),
                    _ => None,
                },
                None => None,
            },
            None => None,
        },
        None => None,
    };
    match items {
        Some(v) => v,
        None => {
            let r: Vec<JsonValue> = Vec::new();
            assert(JsonValue::Array(r)@->Array_0 =~= Seq::<Json>::empty());
            r
        },
    }
}

/// The devices per state, and how many manual probes found a device down.
pub struct DeviceCounts {
    pub enabled: usize,
    pub maintenance: usize,
    pub disabled: usize,
    pub down: usize,
}

/// Probes that did not find their device reachable.
pub open spec fn down_count_spec(probes: Seq<Json>) -> nat
    decreases probes.len(),
{
    if probes.len() == 0 {
        0
    } else {
        down_count_spec(probes.drop_last()) + if get(probes.last(), "reachable"@) matches Some(
            v,
        ) && as_bool(v) == Some(true) {
            0nat
        } else {
            1nat
        }
    }
}

fn count_state(devices: &Vec<JsonValue>, state: &str) -> (n: usize)
    ensures
        n == in_state(JsonValue::Array(*devices)@->Array_0, state@).len(),
        n <= devices.len(),
{
    let ghost dv = JsonValue::Array(*devices)@->Array_0;
    let mut n: usize = 0;
    let mut i: usize = 0;
    assert(dv.take(0) =~= Seq::<Json>::empty());
    while i < devices.len()
        invariant
            i <= devices.len(),
            n <= i,
            dv == JsonValue::Array(*devices)@->Array_0,
            n == in_state(dv.take(i as int), state@).len(),
        decreases devices.len() - i,
    {
        assert(dv[i as int] == devices@[i as int]@);
        assert(dv.take(i + 1).drop_last() =~= dv.take(i as int));
        let hit = match devices[i].get_str("state") {
            Some(s) => crate::text::str_eq(s.as_str(), state),
            None => false,
        };
        if hit {
            n += 1;
        }
        i += 1;
    }
    assert(dv.take(devices.len() as int) =~= dv);
    n
}

/// Devices per state (the disabled ones are all others, never below zero) and
/// the number of probes that found their device down.
pub fn device_counts(devices: &Vec<JsonValue>, probes: &Vec<JsonValue>) -> (r: DeviceCounts)
    ensures
        r.enabled == in_state(JsonValue::Array(*devices)@->Array_0, "enabled"@).len(),
        r.maintenance == in_state(JsonValue::Array(*devices)@->Array_0, "maintenance"@).len(),
        r.disabled == if devices.len() >= r.enabled + r.maintenance {
            devices.len() - r.enabled - r.maintenance
        } else {
            0
        },
        r.down == down_count_spec(JsonValue::Array(*probes)@->Array_0),
{
    let enabled = count_state(devices, "enabled");
    let maintenance = count_state(devices, "maintenance");
    let rest = devices.len() - enabled;
    let disabled = if rest >= maintenance {
        rest - maintenance
    } else {
        0
    };
    let ghost pv = JsonValue::Array(*probes)@->Array_0;
    let mut down: usize = 0;
    let mut i: usize = 0;
    assert(pv.take(0) =~= Seq::<Json>::empty());
    while i < probes.len()
        invariant
            i <= probes.len(),
            down <= i,
            pv == JsonValue::Array(*probes)@->Array_0,
            down == down_count_spec(pv.take(i as int)),
        decreases probes.len() - i,
    {
        assert(pv[i as int] == probes@[i as int]@);
        assert(pv.take(i + 1).drop_last() =~= pv.take(i as int));
        let reachable = match probes[i].get("reachable") {
            Some(v) => v.as_bool() == Some(true),
            None => false,
        };
        if !reachable {
            down += 1;
        }
        i += 1;
    }
    assert(pv.take(probes.len() as int) =~= pv);
    DeviceCounts { enabled, maintenance, disabled, down }
}

// ---------------------------------------------------------------------------
// Requests and messages
// ---------------------------------------------------------------------------
/// The body that registers a device typed into the form: fields trimmed,
/// always enabled; refused when the name, address or type is blank.
pub open spec fn add_device_spec(name: Seq<char>, address: Seq<char>, kind: Seq<char>, site: Seq<char>) -> Result<
    Json,
    Seq<char>,
> {
    if trim(name).len() == 0 || trim(address).len() == 0 || trim(kind).len() == 0 {
        Err("Name, IP/hostname and type are required."@)
    } else {
        Ok(
            Json::Object(
                seq![
                    ("name"@, Json::Str(trim(name))),
                    ("address"@, Json::Str(trim(address))),
                    ("kind"@, Json::Str(trim(kind))),
                    ("site"@, Json::Str(trim(site))),
                    ("state"@, Json::Str("enabled"@)),
                ],
            ),
        )
    }
}

pub open spec fn body_view(r: Result<JsonValue, String>) -> Result<Json, Seq<char>> {
    match r {
        Ok(v) => Ok(v@),
        Err(e) => Err(e@),
    }
}

/// The registration request of the add-device form (see `add_device_spec`).
pub fn add_device_request(name: &str, address: &str, kind: &str, site: &str) -> (r: Result<
    JsonValue,
    String,
>)
    ensures
        body_view(r) == add_device_spec(name@, address@, kind@, site@),
{
    let n = trimmed(name);
    let a = trimmed(address);
    let k = trimmed(kind);
    let s = trimmed(site);
    if n.as_str().is_empty() || a.as_str().is_empty() || k.as_str().is_empty() {
        return Err(owned("Name, IP/hostname and type are required."));
    }
    let ghost (nv, av, kv, sv) = (n@, a@, k@, s@);
    let mut f: Vec<(String, JsonValue)> = Vec::new();
    assert(JsonValue::Object(f)@->Object_0 =~= Seq::<(Seq<char>, Json)>::empty());
    push_field(&mut f, "name", JsonValue::Str(n));
    push_field(&mut f, "address", JsonValue::Str(a));
    push_field(&mut f, "kind", JsonValue::Str(k));
    push_field(&mut f, "site", JsonValue::Str(s));
    push_field(&mut f, "state", JsonValue::text("enabled"));
    let r = JsonValue::Object(f);
    assert(r@->Object_0 =~= add_device_spec(name@, address@, kind@, site@)->Ok_0->Object_0);
    Ok(r)
}

/// The body that moves a listed device to `state`: its own fields, with the
/// kind and site defaults of a new device.
pub open spec fn state_change_spec(device: Json, state: Seq<char>) -> Json {
    Json::Object(
        seq![
            ("name"@, Json::Str(member_or(device, "name"@, Seq::empty()))),
            ("address"@, Json::Str(member_or(device, "address"@, Seq::empty()))),
            ("kind"@, Json::Str(member_or(device, "kind"@, "device"@))),
            ("site"@, Json::Str(member_or(device, "site"@, "home"@))),
            ("state"@, Json::Str(state)),
        ],
    )
}

fn member_text(d: &JsonValue, key: &str, default: &str) -> (r: String)
    ensures
        r@ == member_or(d@, key@, default@),
{
    match d.get_str(key) {
        Some(s) => s.clone(),
        None => owned(default),
    }
}

pub fn state_change_request(device: &JsonValue, state: &str) -> (r: JsonValue)
    ensures
        r@ == state_change_spec(device@, state@),
{
    let n = member_text(device, "name", "");
    let a = member_text(device, "address", "");
    let k = member_text(device, "kind", "device");
    let si = member_text(device, "site", "home");
    let ghost (nv, av, kv, sv) = (n@, a@, k@, si@);
    assert(nv == member_or(device@, "name"@, ""@));
    assert(""@ == Seq::<char>::empty()) by {
        reveal_strlit("");
    }
    let mut f: Vec<(String, JsonValue)> = Vec::new();
    assert(JsonValue::Object(f)@->Object_0 =~= Seq::<(Seq<char>, Json)>::empty());
    push_field(&mut f, "name", JsonValue::Str(n));
    push_field(&mut f, "address", JsonValue::Str(a));
    push_field(&mut f, "kind", JsonValue::Str(k));
    push_field(&mut f, "site", JsonValue::Str(si));
    push_field(&mut f, "state", JsonValue::text(state));
    let r = JsonValue::Object(f);
    assert(r@->Object_0 =~= state_change_spec(device@, state@)->Object_0);
    r
}

/// A text two members deep in a response.
pub open spec fn nested_text(v: Json, outer: Seq<char>, inner: Seq<char>) -> Option<Seq<char>> {
    match get_in(get(v, outer), inner) {
        Some(x) => as_str(x),
        None => None,
    }
}

fn nested(v: &JsonValue, outer: &str, inner: &str) -> (r: Option<String>)
    ensures
        match r {
            Some(s) => nested_text(v@, outer@, inner@) == Some(s@),
            None => nested_text(v@, outer@, inner@) is None,
        },
{
    match v.get(outer) {
        Some(o) => match o.get(inner) {
            Some(x) => match x.as_str() {
                Some(s) => Some(s.clone()),
                None => None,
            },
            None => None,
        },
        None => None,
    }
}

pub open spec fn outcome_view(r: Result<String, String>) -> Result<Seq<char>, Seq<char>> {
    match r {
        Ok(s) => Ok(s@),
        Err(e) => Err(e@),
    }
}

/// The message after moving a device to `state`: a failed SigNoz maintenance
/// sync is reported as an error even though the state changed.
pub open spec fn state_change_message_spec(state: Seq<char>, response: Result<Json, Seq<char>>) -> Result<
    Seq<char>,
    Seq<char>,
> {
    match response {
        Err(e) => Err(e),
        Ok(v) => match nested_text(v, "signoz_maintenance"@, "downtime_error"@) {
            Some(err) => Err(
                "Device monitoring set to "@ + state + ", but SigNoz maintenance sync failed: "@ + err,
            ),
            None => Ok("Device monitoring set to "@ + state + "."@),
        },
    }
}

pub fn state_change_message(state: &str, response: Result<JsonValue, String>) -> (r: Result<
    String,
    String,
>)
    ensures
        outcome_view(r) == state_change_message_spec(state@, body_view(response)),
{
    match response {
        Err(e) => Err(e),
        Ok(v) => match nested(&v, "signoz_maintenance", "downtime_error") {
            Some(err) => {
                let mut m = owned("Device monitoring set to ");
                push_all(&mut m, state);
                push_all(&mut m, ", but SigNoz maintenance sync failed: ");
                push_all(&mut m, err.as_str());
                Err(m)
            },
            None => {
                let mut m = owned("Device monitoring set to ");
                push_all(&mut m, state);
                push_all(&mut m, ".");
                Ok(m)
            },
        },
    }
}

/// The message after registering a device: a failed reconcile is reported as
/// an error even though the device was saved.
pub open spec fn device_saved_message_spec(response: Result<Json, Seq<char>>) -> Result<Seq<char>, Seq<char>> {
    match response {
        Err(e) => Err(e),
        Ok(v) => match nested_text(v, "reconcile"@, "error"@) {
            Some(err) => Err("Device saved, but probe reconciliation failed: "@ + err),
            None => Ok("Device saved and monitoring reconciled."@),
        },
    }
}

pub fn device_saved_message(response: Result<JsonValue, String>) -> (r: Result<String, String>)
    ensures
        outcome_view(r) == device_saved_message_spec(body_view(response)),
{
    match response {
        Err(e) => Err(e),
        Ok(v) => match nested(&v, "reconcile", "error") {
            Some(err) => {
                let mut m = owned("Device saved, but probe reconciliation failed: ");
                push_all(&mut m, err.as_str());
                Err(m)
            },
            None => Ok(owned("Device saved and monitoring reconciled.")),
        },
    }
}

/// How a device state is shown: CSS class, icon and label; anything unknown
/// is shown as disabled.
pub fn state_badge(state: &str) -> (r: (&'static str, &'static str, &'static str))
    ensures
        state@ == "enabled"@ ==> r.0@ == "enabled"@ && r.1@ == "fa fa-circle"@ && r.2@ == "Monitored"@,
        state@ == "maintenance"@ ==> r.0@ == "maintenance"@ && r.1@ == "fa fa-wrench"@ && r.2@
            == "Maintenance"@,
        state@ != "enabled"@ && state@ != "maintenance"@ ==> r.0@ == "disabled"@ && r.1@
            == "fa fa-pause-circle"@ && r.2@ == "Disabled"@,
{
    proof {
        reveal_strlit("enabled");
        reveal_strlit("maintenance");
        assert("enabled"@.len() != "maintenance"@.len());
    }
    if str_eq_lit(state, "enabled") {
        ("enabled", "fa fa-circle", "Monitored")
    } else if str_eq_lit(state, "maintenance") {
        ("maintenance", "fa fa-wrench", "Maintenance")
    } else {
        ("disabled", "fa fa-pause-circle", "Disabled")
    }
}

fn str_eq_lit(a: &str, b: &str) -> (r: bool)
    ensures
        r == (a@ == b@),
{
    crate::text::str_eq(a, b)
}

/// The collector line of the header.
pub open spec fn collector_line_spec(active: bool, enabled: nat) -> Seq<char> {
    "Collector: "@ + (if active {
        "Running"@
    } else {
        "Stopped"@
    }) + " · "@ + decimal(enabled) + " devices"@
}

pub fn collector_line(active: bool, enabled: usize) -> (r: String)
    ensures
        r@ == collector_line_spec(active, enabled as nat),
{
    let mut s = owned("Collector: ");
    if active {
        push_all(&mut s, "Running");
    } else {
        push_all(&mut s, "Stopped");
    }
    push_all(&mut s, " · ");
    push_decimal(&mut s, enabled as u64);
    push_all(&mut s, " devices");
    s
}

/// What the list shows instead of rows: a hint when there are no devices, or
/// when none passes the filters.
pub fn list_notice(total: usize, shown: usize) -> (r: Option<&'static str>)
    ensures
        total == 0 ==> (r matches Some(t) && t@ == "No devices yet. Use Add device to create the first target."@),
        total > 0 && shown == 0 ==> (r matches Some(t) && t@ == "No devices match the current filters."@),
        total > 0 && shown > 0 ==> r is None,
{
    if total == 0 {
        Some("No devices yet. Use Add device to create the first target.")
    } else if shown == 0 {
        Some("No devices match the current filters.")
    } else {
        None
    }
}

/// How the last manual probe of a device is shown.
pub fn probe_label(reachable: Option<bool>) -> (r: &'static str)
    ensures
        r@ == match reachable {
            Some(true) => "Reachable now"@,
            Some(false) => "Unreachable now"@,
            None => "Not tested"@,
        },
{
    match reachable {
        Some(true) => "Reachable now",
        Some(false) => "Unreachable now",
        None => "Not tested",
    }
}

/// A flag of the probe engine of a monitoring view (false when absent).
pub open spec fn engine_flag_spec(view: Option<Json>, key: Seq<char>) -> bool {
    match get_in(get_in(view, "probe_engine"@), key) {
        Some(v) => as_bool(v) == Some(true),
        None => false,
    }
}

pub fn engine_flag(view: Option<&JsonValue>, key: &str) -> (r: bool)
    ensures
        r == engine_flag_spec(opt_json(view), key@),
{
    match view {
        Some(v) => match v.get("probe_engine") {
            Some(e) => match e.get(key) {
                Some(b) => b.as_bool() == Some(true),
                None => false,
            },
            None => false,
        },
        None => false,
    }
}

/// What the SigNoz panel shows from a status summary: whether it is connected,
/// its URL (the default one when unknown), the rule count, and whether
/// credentials are configured.
pub struct SignozPanel {
    pub connected: bool,
    pub url: String,
    pub rule_count: Option<u64>,
    pub configured: bool,
}

pub open spec fn summary_flag(status: Option<Json>, key: Seq<char>) -> bool {
    match get_in(status, key) {
        Some(v) => as_bool(v) == Some(true),
        None => false,
    }
}

pub open spec fn summary_url(status: Option<Json>) -> Seq<char> {
    match get_in(status, "url"@) {
        Some(v) => match as_str(v) {
            Some(s) => s,
            None => DEFAULT_SIGNOZ_URL@,
        },
        None => DEFAULT_SIGNOZ_URL@,
    }
}

pub open spec fn summary_rules(status: Option<Json>) -> Option<u64> {
    match get_in(status, "rule_count"@) {
        Some(v) => as_u64(v),
        None => None,
    }
}

pub fn signoz_panel(status: Option<&JsonValue>) -> (r: SignozPanel)
    ensures
        r.connected == summary_flag(opt_json(status), "connected"@),
        r.url@ == summary_url(opt_json(status)),
        r.rule_count == summary_rules(opt_json(status)),
        r.configured == summary_flag(opt_json(status), "configured"@),
{
    match status {
        Some(v) => {
            let connected = match v.get("connected") {
                Some(b) => b.as_bool() == Some(true),
                None => false,
            };
            let configured = match v.get("configured") {
                Some(b) => b.as_bool() == Some(true),
                None => false,
            };
            let url = match v.get("url") {
                Some(u) => match u.as_str() {
                    Some(s) => s.clone(),
                    None => owned(DEFAULT_SIGNOZ_URL),
                },
                None => owned(DEFAULT_SIGNOZ_URL),
            };
            let rule_count = match v.get("rule_count") {
                Some(n) => n.as_u64(),
                None => None,
            };
            SignozPanel { connected, url, rule_count, configured }
        },
        None => SignozPanel {
            connected: false,
            url: owned(DEFAULT_SIGNOZ_URL),
            rule_count: None,
            configured: false,
        },
    }
}

} // verus!
