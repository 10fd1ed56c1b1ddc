//! The ICMP probe collector: YAML quoting, the collector configuration
//! generated from the enabled devices, and the reports of a reconcile run.
use vstd::prelude::*;

use crate::device_fields::MonitoringError;
use crate::json::{assign, get, get_array, get_str, push_field, Json, JsonNumber, JsonValue, Number};
use crate::monitoring_inventory::{
    devices_in_state, enabled_devices, enabled_of, in_state, DEFAULT_OTLP_ENDPOINT,
};
use crate::onboarding::{lossy_text, utf8_lossy};
use crate::text::{chars_of, contains, copy_string, occurs_at, owned, push_all, trim, trimmed};

verus! {

pub const BLACKBOX_ENDPOINT: &'static str = "127.0.0.1:9115";

// ---------------------------------------------------------------------------
// YAML single-quoted scalars
// ---------------------------------------------------------------------------
/// The text a character stands for inside a single-quoted YAML scalar.
pub open spec fn quote_piece(c: char) -> Seq<char> {
    if c == '\'' {
        seq!['\'', '\'']
    } else {
        seq![c]
    }
}

/// `s` with every `'` doubled.
pub open spec fn yaml_escape(s: Seq<char>) -> Seq<char>
    decreases s.len(),
{
    if s.len() == 0 {
        Seq::empty()
    } else {
        quote_piece(s[0]) + yaml_escape(s.drop_first())
    }
}

/// `s` as a single-quoted YAML scalar.
pub open spec fn yaml_quoted(s: Seq<char>) -> Seq<char> {
    seq!['\''] + yaml_escape(s) + seq!['\'']
}

/// Reads the body of a single-quoted YAML scalar: `''` stands for `'`.
pub open spec fn yaml_unescape(e: Seq<char>) -> Seq<char>
    decreases e.len(),
{
    if e.len() == 0 {
        Seq::empty()
    } else if e.len() >= 2 && e[0] == '\'' && e[1] == '\'' {
        seq!['\''] + yaml_unescape(e.skip(2))
    } else {
        seq![e[0]] + yaml_unescape(e.skip(1))
    }
}

/// The value a single-quoted YAML scalar denotes (its quotes stripped, `''` read as `'`).
pub open spec fn yaml_unquoted(q: Seq<char>) -> Seq<char> {
    yaml_unescape(q.subrange(1, q.len() - 1))
}

proof fn lemma_yaml_escape_push(s: Seq<char>, c: char)
    ensures
        yaml_escape(s.push(c)) == yaml_escape(s) + quote_piece(c),
    decreases s.len(),
{
    if s.len() == 0 {
        assert(s.push(c).drop_first() =~= Seq::<char>::empty());
        assert(yaml_escape(s.push(c).drop_first()) == Seq::<char>::empty());
        assert(yaml_escape(s) == Seq::<char>::empty());
        assert(yaml_escape(s.push(c)) =~= quote_piece(c));
    } else {
        assert(s.push(c).drop_first() =~= s.drop_first().push(c));
        lemma_yaml_escape_push(s.drop_first(), c);
        assert(yaml_escape(s.push(c)) =~= yaml_escape(s) + quote_piece(c));
    }
}

/// Quoting is reversible: reading a quoted scalar gives back exactly the text
/// that was quoted, whatever quotes it holds.
pub proof fn lemma_yaml_quote_round_trip(s: Seq<char>)
    ensures
        yaml_unescape(yaml_escape(s)) == s,
        yaml_unquoted(yaml_quoted(s)) == s,
    decreases s.len(),
{
    if s.len() > 0 {
        lemma_yaml_quote_round_trip(s.drop_first());
        let e = yaml_escape(s);
        let rest = yaml_escape(s.drop_first());
        if s[0] == '\'' {
            assert(e.skip(2) =~= rest);
        } else {
            assert(e.skip(1) =~= rest);
        }
        assert(s =~= seq![s[0]] + s.drop_first());
    }
    assert(yaml_quoted(s).subrange(1, yaml_quoted(s).len() - 1) =~= yaml_escape(s));
}

/// Appends `value` as a single-quoted YAML scalar.
pub fn push_yaml_quoted(out: &mut String, value: &str)
    ensures
        final(out)@ == old(out)@ + yaml_quoted(value@),
{
    let v = chars_of(value);
    let ghost start = out@;
    out.push('\'');
    let mut i: usize = 0;
    assert(v@.take(0) =~= Seq::<char>::empty());
    while i < v.len()
        invariant
            i <= v.len(),
            v@ == value@,
            out@ == start + seq!['\''] + yaml_escape(v@.take(i as int)),
        decreases v.len() - i,
    {
        let c = v[i];
        proof {
            lemma_yaml_escape_push(v@.take(i as int), c);
            assert(v@.take(i + 1) =~= v@.take(i as int).push(c));
        }
        if c == '\'' {
            out.push('\'');
            out.push('\'');
            assert(out@ =~= start + seq!['\''] + yaml_escape(v@.take(i + 1)));
        } else {
            out.push(c);
            assert(out@ =~= start + seq!['\''] + yaml_escape(v@.take(i + 1)));
        }
        i += 1;
    }
    assert(v@.take(v.len() as int) =~= v@);
    out.push('\'');
    assert(out@ =~= start + yaml_quoted(value@));
}

/// `value` as a single-quoted YAML scalar: wrapped in `'`, with every `'` doubled.
pub fn yaml_quote(value: &str) -> (r: String)
    ensures
        r@ == yaml_quoted(value@),
{
    let mut r = String::new();
    push_yaml_quoted(&mut r, value);
    r
}

// ---------------------------------------------------------------------------
// Device labels
// ---------------------------------------------------------------------------
/// The text of `o`, or `default` when there is none.
pub open spec fn text_or(o: Option<Seq<char>>, default: Seq<char>) -> Seq<char> {
    match o {
        Some(t) => t,
        None => default,
    }
}

/// Why a device record cannot be turned into a probe target.
pub open spec fn device_error(d: Json) -> Option<MonitoringError> {
    if get_str(d, "id"@) is None {
        Some(MonitoringError::DeviceMissingId)
    } else if get_str(d, "name"@) is None {
        Some(MonitoringError::DeviceMissingName)
    } else if get_str(d, "address"@) is None {
        Some(MonitoringError::DeviceMissingAddress)
    } else {
        None
    }
}

/// The refusal of the first device, in order, that cannot be a probe target.
pub open spec fn first_device_error(ds: Seq<Json>) -> Option<MonitoringError>
    decreases ds.len(),
{
    if ds.len() == 0 {
        None
    } else {
        match first_device_error(ds.drop_last()) {
            Some(e) => Some(e),
            None => device_error(ds.last()),
        }
    }
}

pub open spec fn label_id(d: Json) -> Seq<char> {
    text_or(get_str(d, "id"@), Seq::empty())
}

pub open spec fn label_name(d: Json) -> Seq<char> {
    text_or(get_str(d, "name"@), Seq::empty())
}

pub open spec fn label_address(d: Json) -> Seq<char> {
    text_or(get_str(d, "address"@), Seq::empty())
}

pub open spec fn label_kind(d: Json) -> Seq<char> {
    text_or(get_str(d, "kind"@), "device"@)
}

pub open spec fn label_site(d: Json) -> Seq<char> {
    text_or(get_str(d, "site"@), "home"@)
}

proof fn lemma_first_error_extends(ds: Seq<Json>, k: int)
    requires
        0 <= k <= ds.len(),
        first_device_error(ds.take(k)) is Some,
    ensures
        first_device_error(ds) == first_device_error(ds.take(k)),
    decreases ds.len(),
{
    if k < ds.len() {
        assert(ds.drop_last().take(k) =~= ds.take(k));
        lemma_first_error_extends(ds.drop_last(), k);
    } else {
        assert(ds.take(k) =~= ds);
    }
}

/// The labels of a device that can be a probe target.
pub struct DeviceLabels {
    pub id: String,
    pub name: String,
    pub address: String,
    pub kind: String,
    pub site: String,
}

/// The labels of `d`, or the refusal when it lacks an id, a name or an address.
pub fn device_labels(d: &JsonValue) -> (r: Result<DeviceLabels, MonitoringError>)
    ensures
        match r {
            Ok(l) => {
                &&& device_error(d@) is None
                &&& l.id@ == label_id(d@)
                &&& l.name@ == label_name(d@)
                &&& l.address@ == label_address(d@)
                &&& l.kind@ == label_kind(d@)
                &&& l.site@ == label_site(d@)
            },
            Err(e) => device_error(d@) == Some(e),
        },
{
    let id = match d.get_str("id") {
        Some(s) => copy_string(s),
        None => return Err(MonitoringError::DeviceMissingId),
    };
    let name = match d.get_str("name") {
        Some(s) => copy_string(s),
        None => return Err(MonitoringError::DeviceMissingName),
    };
    let address = match d.get_str("address") {
        Some(s) => copy_string(s),
        None => return Err(MonitoringError::DeviceMissingAddress),
    };
    let kind = match d.get_str("kind") {
        Some(s) => copy_string(s),
        None => owned("device"),
    };
    let site = match d.get_str("site") {
        Some(s) => copy_string(s),
        None => owned("home"),
    };
    Ok(DeviceLabels { id, name, address, kind, site })
}

/// Concatenation of `f` over `ds`, in order.
pub open spec fn concat_map(ds: Seq<Json>, f: spec_fn(Json) -> Seq<char>) -> Seq<char>
    decreases ds.len(),
{
    if ds.len() == 0 {
        Seq::empty()
    } else {
        concat_map(ds.drop_last(), f) + f(ds.last())
    }
}

// ---------------------------------------------------------------------------
// Probe settings
// ---------------------------------------------------------------------------
/// `inventory.pointer("/probe/<key>").and_then(Value::as_str)`.
pub open spec fn probe_setting(inventory: Json, key: Seq<char>) -> Option<Seq<char>> {
    match get(inventory, "probe"@) {
        Some(p) => get_str(p, key),
        None => None,
    }
}

/// The scrape interval (`30s` when unset).
pub open spec fn probe_interval(inventory: Json) -> Seq<char> {
    text_or(probe_setting(inventory, "collection_interval"@), "30s"@)
}

/// The OTLP endpoint metrics go to (the default endpoint when unset).
pub open spec fn probe_endpoint(inventory: Json) -> Seq<char> {
    text_or(probe_setting(inventory, "otlp_endpoint"@), DEFAULT_OTLP_ENDPOINT@)
}

fn probe_setting_or(inventory: &JsonValue, key: &str, default: &str) -> (r: String)
    ensures
        r@ == text_or(probe_setting(inventory@, key@), default@),
{
    match inventory.get("probe") {
        Some(p) => match p.get_str(key) {
            Some(s) => copy_string(s),
            None => owned(default),
        },
        None => owned(default),
    }
}

// ---------------------------------------------------------------------------
// Blackbox-exporter configuration
// ---------------------------------------------------------------------------
/// The scrape target of a device with the given labels.
pub open spec fn target_labels_text(
    id: Seq<char>,
    name: Seq<char>,
    address: Seq<char>,
    kind: Seq<char>,
    site: Seq<char>,
) -> Seq<char> {
    "            - targets: ["@ + yaml_quoted(address)
        + "]\n              labels:\n                nexus_device_id: "@ + yaml_quoted(id)
        + "\n                nexus_device_name: "@ + yaml_quoted(name)
        + "\n                nexus_resource_type: "@ + yaml_quoted(kind)
        + "\n                nexus_site: "@ + yaml_quoted(site)
        + "\n                nexus_monitoring_profile: 'icmp'\n"@
}

/// The scrape target of one device.
pub open spec fn target_text(d: Json) -> Seq<char> {
    target_labels_text(label_id(d), label_name(d), label_address(d), label_kind(d), label_site(d))
}

pub open spec fn target_fn() -> spec_fn(Json) -> Seq<char> {
    |d: Json| target_text(d)
}

pub open spec fn config_head() -> Seq<char> {
    "receivers:\n  prometheus/nexus_icmp:\n    config:\n      scrape_configs:\n        - job_name: 'nexus_icmp'\n          scrape_interval: "@
}

pub open spec fn config_after_interval() -> Seq<char> {
    "\n          metrics_path: /probe\n          params:\n            module: ['icmp']\n          static_configs:\n"@
}

pub open spec fn config_after_targets() -> Seq<char> {
    "          relabel_configs:\n            - source_labels: [__address__]\n              target_label: __param_target\n            - source_labels: [__param_target]\n              target_label: instance\n            - target_label: __address__\n              replacement: '"@
}

pub open spec fn config_after_blackbox() -> Seq<char> {
    "'\n\nprocessors:\n  batch: {}\n\nexporters:\n  otlp:\n    endpoint: "@
}

pub open spec fn config_tail() -> Seq<char> {
    "\n    tls:\n      insecure: true\n\nservice:\n  pipelines:\n    metrics/nexus_icmp:\n      receivers: [prometheus/nexus_icmp]\n      processors: [batch]\n      exporters: [otlp]\n"@
}

/// The whole collector configuration.
pub open spec fn blackbox_config_text(interval: Seq<char>, endpoint: Seq<char>, targets: Seq<char>) -> Seq<
    char,
> {
    config_head() + interval + config_after_interval() + targets + config_after_targets()
        + BLACKBOX_ENDPOINT@ + config_after_blackbox() + yaml_quoted(endpoint) + config_tail()
}

/// The collector configuration of an inventory: one scrape target per enabled
/// device, all scraped through the local blackbox exporter.
pub open spec fn collector_config_result(inventory: Json) -> Result<Seq<char>, MonitoringError> {
    let ds = enabled_of(inventory);
    if ds.len() == 0 {
        Err(MonitoringError::NoEnabledDevices)
    } else {
        match first_device_error(ds) {
            Some(e) => Err(e),
            None => Ok(
                blackbox_config_text(
                    probe_interval(inventory),
                    probe_endpoint(inventory),
                    concat_map(ds, target_fn()),
                ),
            ),
        }
    }
}

pub open spec fn text_result(r: Result<String, MonitoringError>) -> Result<Seq<char>, MonitoringError> {
    match r {
        Ok(s) => Ok(s@),
        Err(e) => Err(e),
    }
}

fn push_target(out: &mut String, l: &DeviceLabels)
    ensures
        final(out)@ == old(out)@ + target_labels_text(l.id@, l.name@, l.address@, l.kind@, l.site@),
{
    push_all(out, "            - targets: [");
    push_yaml_quoted(out, l.address.as_str());
    push_all(out, "]\n              labels:\n                nexus_device_id: ");
    push_yaml_quoted(out, l.id.as_str());
    push_all(out, "\n                nexus_device_name: ");
    push_yaml_quoted(out, l.name.as_str());
    push_all(out, "\n                nexus_resource_type: ");
    push_yaml_quoted(out, l.kind.as_str());
    push_all(out, "\n                nexus_site: ");
    push_yaml_quoted(out, l.site.as_str());
    push_all(out, "\n                nexus_monitoring_profile: 'icmp'\n");
}

/// The scrape targets of `devices`, or the refusal of the first device that
/// cannot be one.
fn targets_text(devices: &Vec<JsonValue>) -> (r: Result<String, MonitoringError>)
    ensures
        match r {
            Ok(t) => first_device_error(JsonValue::Array(*devices)@->Array_0) is None && t@
                == concat_map(JsonValue::Array(*devices)@->Array_0, target_fn()),
            Err(e) => first_device_error(JsonValue::Array(*devices)@->Array_0) == Some(e),
        },
{
    let ghost dv = JsonValue::Array(*devices)@->Array_0;
    let mut targets = String::new();
    let mut i: usize = 0;
    assert(dv.take(0) =~= Seq::<Json>::empty());
    assert(targets@ =~= concat_map(dv.take(0), target_fn()));
    while i < devices.len()
        invariant
            i <= devices.len(),
            dv == JsonValue::Array(*devices)@->Array_0,
            dv.len() == devices.len(),
            first_device_error(dv.take(i as int)) is None,
            targets@ == concat_map(dv.take(i as int), target_fn()),
        decreases devices.len() - i,
    {
        assert(dv[i as int] == devices@[i as int]@);
        assert(dv.take(i + 1).drop_last() =~= dv.take(i as int));
        assert(dv.take(i + 1).last() == dv[i as int]);
        match device_labels(&devices[i]) {
            Ok(l) => {
                let ghost before = targets@;
                push_target(&mut targets, &l);
                assert(targets@ =~= before + target_fn()(dv[i as int]));
            },
            Err(e) => {
                proof {
                    lemma_first_error_extends(dv, i + 1);
                }
                return Err(e);
            },
        }
        i += 1;
    }
    assert(dv.take(devices.len() as int) =~= dv);
    Ok(targets)
}

/// The collector configuration for the enabled devices of `inventory` (see
/// `collector_config_result`); refused when no device is enabled or an enabled
/// device lacks an id, a name or an address.
pub fn collector_config(inventory: &JsonValue) -> (r: Result<String, MonitoringError>)
    ensures
        text_result(r) == collector_config_result(inventory@),
{
    let devices = enabled_devices(inventory);
    if devices.len() == 0 {
        return Err(MonitoringError::NoEnabledDevices);
    }
    let interval = probe_setting_or(inventory, "collection_interval", "30s");
    let endpoint = probe_setting_or(inventory, "otlp_endpoint", DEFAULT_OTLP_ENDPOINT);
    let targets = match targets_text(&devices) {
        Ok(t) => t,
        Err(e) => return Err(e),
    };
    let mut out = String::new();
    push_all(&mut out, "receivers:\n  prometheus/nexus_icmp:\n    config:\n      scrape_configs:\n        - job_name: 'nexus_icmp'\n          scrape_interval: ");
    push_all(&mut out, interval.as_str());
    push_all(&mut out, "\n          metrics_path: /probe\n          params:\n            module: ['icmp']\n          static_configs:\n");
    push_all(&mut out, targets.as_str());
    push_all(&mut out, "          relabel_configs:\n            - source_labels: [__address__]\n              target_label: __param_target\n            - source_labels: [__param_target]\n              target_label: instance\n            - target_label: __address__\n              replacement: '");
    push_all(&mut out, BLACKBOX_ENDPOINT);
    push_all(&mut out, "'\n\nprocessors:\n  batch: {}\n\nexporters:\n  otlp:\n    endpoint: ");
    push_yaml_quoted(&mut out, endpoint.as_str());
    push_all(&mut out, "\n    tls:\n      insecure: true\n\nservice:\n  pipelines:\n    metrics/nexus_icmp:\n      receivers: [prometheus/nexus_icmp]\n      processors: [batch]\n      exporters: [otlp]\n");
    Ok(out)
}

// ---------------------------------------------------------------------------
// Per-device icmpcheck configuration
// ---------------------------------------------------------------------------
/// The icmpcheck receiver of a device.
pub open spec fn receiver_labels_text(id: Seq<char>, address: Seq<char>, interval: Seq<char>) -> Seq<
    char,
> {
    "  icmpcheck/"@ + id + ":\n    collection_interval: "@ + interval
        + "\n    targets:\n      - host: "@ + yaml_quoted(address)
        + "\n        ping_count: 3\n        ping_interval: 1s\n        ping_timeout: 5s\n"@
}

/// The resource and batch processors of a device.
pub open spec fn processor_labels_text(
    id: Seq<char>,
    name: Seq<char>,
    kind: Seq<char>,
    site: Seq<char>,
) -> Seq<char> {
    "  resource/"@ + id
        + ":\n    attributes:\n      - key: nexus.device.id\n        value: "@ + yaml_quoted(id)
        + "\n        action: upsert\n      - key: nexus.device.name\n        value: "@ + yaml_quoted(name)
        + "\n        action: upsert\n      - key: nexus.resource.type\n        value: "@ + yaml_quoted(kind)
        + "\n        action: upsert\n      - key: nexus.site\n        value: "@ + yaml_quoted(site)
        + "\n        action: upsert\n      - key: nexus.monitoring.profile\n        value: 'icmp'\n        action: upsert\n  batch/"@
        + id + ": {}\n"@
}

/// The metrics pipeline of a device.
pub open spec fn pipeline_labels_text(id: Seq<char>) -> Seq<char> {
    "    metrics/"@ + id + ":\n      receivers: [icmpcheck/"@ + id + "]\n      processors: [resource/"@ + id
        + ", batch/"@ + id + "]\n      exporters: [otlp]\n"@
}

pub open spec fn receiver_fn(interval: Seq<char>) -> spec_fn(Json) -> Seq<char> {
    |d: Json| receiver_labels_text(label_id(d), label_address(d), interval)
}

pub open spec fn processor_fn() -> spec_fn(Json) -> Seq<char> {
    |d: Json| processor_labels_text(label_id(d), label_name(d), label_kind(d), label_site(d))
}

pub open spec fn pipeline_fn() -> spec_fn(Json) -> Seq<char> {
    |d: Json| pipeline_labels_text(label_id(d))
}

/// The configuration with one isolated icmpcheck pipeline per device.
pub open spec fn per_device_config_text(
    receivers: Seq<char>,
    processors: Seq<char>,
    pipelines: Seq<char>,
    endpoint: Seq<char>,
) -> Seq<char> {
    "receivers:\n"@ + receivers + "\n"@ + "processors:\n"@ + processors
        + "\nexporters:\n  otlp:\n    endpoint: "@ + yaml_quoted(endpoint)
        + "\n    tls:\n      insecure: true\n\nservice:\n  pipelines:\n"@ + pipelines
}

/// The per-device icmpcheck configuration of an inventory: for each enabled
/// device its own receiver, processors and pipeline.
pub open spec fn per_device_config_result(inventory: Json) -> Result<Seq<char>, MonitoringError> {
    let ds = enabled_of(inventory);
    if ds.len() == 0 {
        Err(MonitoringError::NoEnabledDevices)
    } else {
        match first_device_error(ds) {
            Some(e) => Err(e),
            None => Ok(
                per_device_config_text(
                    concat_map(ds, receiver_fn(probe_interval(inventory))),
                    concat_map(ds, processor_fn()),
                    concat_map(ds, pipeline_fn()),
                    probe_endpoint(inventory),
                ),
            ),
        }
    }
}

fn push_receiver(out: &mut String, l: &DeviceLabels, interval: &str)
    ensures
        final(out)@ == old(out)@ + receiver_labels_text(l.id@, l.address@, interval@),
{
    push_all(out, "  icmpcheck/");
    push_all(out, l.id.as_str());
    push_all(out, ":\n    collection_interval: ");
    push_all(out, interval);
    push_all(out, "\n    targets:\n      - host: ");
    push_yaml_quoted(out, l.address.as_str());
    push_all(out, "\n        ping_count: 3\n        ping_interval: 1s\n        ping_timeout: 5s\n");
}

fn push_processor(out: &mut String, l: &DeviceLabels)
    ensures
        final(out)@ == old(out)@ + processor_labels_text(l.id@, l.name@, l.kind@, l.site@),
{
    push_all(out, "  resource/");
    push_all(out, l.id.as_str());
    push_all(out, ":\n    attributes:\n      - key: nexus.device.id\n        value: ");
    push_yaml_quoted(out, l.id.as_str());
    push_all(out, "\n        action: upsert\n      - key: nexus.device.name\n        value: ");
    push_yaml_quoted(out, l.name.as_str());
    push_all(out, "\n        action: upsert\n      - key: nexus.resource.type\n        value: ");
    push_yaml_quoted(out, l.kind.as_str());
    push_all(out, "\n        action: upsert\n      - key: nexus.site\n        value: ");
    push_yaml_quoted(out, l.site.as_str());
    push_all(out, "\n        action: upsert\n      - key: nexus.monitoring.profile\n        value: 'icmp'\n        action: upsert\n  batch/");
    push_all(out, l.id.as_str());
    push_all(out, ": {}\n");
}

fn push_pipeline(out: &mut String, l: &DeviceLabels)
    ensures
        final(out)@ == old(out)@ + pipeline_labels_text(l.id@),
{
    push_all(out, "    metrics/");
    push_all(out, l.id.as_str());
    push_all(out, ":\n      receivers: [icmpcheck/");
    push_all(out, l.id.as_str());
    push_all(out, "]\n      processors: [resource/");
    push_all(out, l.id.as_str());
    push_all(out, ", batch/");
    push_all(out, l.id.as_str());
    push_all(out, "]\n      exporters: [otlp]\n");
}

/// The three per-device sections (receivers, processors, pipelines) of `devices`.
fn per_device_sections(devices: &Vec<JsonValue>, interval: &str) -> (r: Result<
    (String, String, String),
    MonitoringError,
>)
    ensures
        match r {
            Ok((rs, ps, pls)) => {
                &&& first_device_error(JsonValue::Array(*devices)@->Array_0) is None
                &&& rs@ == concat_map(JsonValue::Array(*devices)@->Array_0, receiver_fn(interval@))
                &&& ps@ == concat_map(JsonValue::Array(*devices)@->Array_0, processor_fn())
                &&& pls@ == concat_map(JsonValue::Array(*devices)@->Array_0, pipeline_fn())
            },
            Err(e) => first_device_error(JsonValue::Array(*devices)@->Array_0) == Some(e),
        },
{
    let ghost dv = JsonValue::Array(*devices)@->Array_0;
    let mut rs = String::new();
    let mut ps = String::new();
    let mut pls = String::new();
    let mut i: usize = 0;
    assert(dv.take(0) =~= Seq::<Json>::empty());
    assert(rs@ =~= concat_map(dv.take(0), receiver_fn(interval@)));
    assert(ps@ =~= concat_map(dv.take(0), processor_fn()));
    assert(pls@ =~= concat_map(dv.take(0), pipeline_fn()));
    while i < devices.len()
        invariant
            i <= devices.len(),
            dv == JsonValue::Array(*devices)@->Array_0,
            dv.len() == devices.len(),
            first_device_error(dv.take(i as int)) is None,
            rs@ == concat_map(dv.take(i as int), receiver_fn(interval@)),
            ps@ == concat_map(dv.take(i as int), processor_fn()),
            pls@ == concat_map(dv.take(i as int), pipeline_fn()),
        decreases devices.len() - i,
    {
        assert(dv[i as int] == devices@[i as int]@);
        assert(dv.take(i + 1).drop_last() =~= dv.take(i as int));
        assert(dv.take(i + 1).last() == dv[i as int]);
        match device_labels(&devices[i]) {
            Ok(l) => {
                let ghost (r0, p0, q0) = (rs@, ps@, pls@);
                push_receiver(&mut rs, &l, interval);
                push_processor(&mut ps, &l);
                push_pipeline(&mut pls, &l);
                assert(rs@ =~= r0 + receiver_fn(interval@)(dv[i as int]));
                assert(ps@ =~= p0 + processor_fn()(dv[i as int]));
                assert(pls@ =~= q0 + pipeline_fn()(dv[i as int]));
            },
            Err(e) => {
                proof {
                    lemma_first_error_extends(dv, i + 1);
                }
                return Err(e);
            },
        }
        i += 1;
    }
    assert(dv.take(devices.len() as int) =~= dv);
    Ok((rs, ps, pls))
}

/// The per-device icmpcheck configuration of `inventory` (see
/// `per_device_config_result`).
pub fn per_device_collector_config(inventory: &JsonValue) -> (r: Result<String, MonitoringError>)
    ensures
        text_result(r) == per_device_config_result(inventory@),
{
    let devices = enabled_devices(inventory);
    if devices.len() == 0 {
        return Err(MonitoringError::NoEnabledDevices);
    }
    let interval = probe_setting_or(inventory, "collection_interval", "30s");
    let endpoint = probe_setting_or(inventory, "otlp_endpoint", DEFAULT_OTLP_ENDPOINT);
    let (receivers, processors, pipelines) = match per_device_sections(&devices, interval.as_str()) {
        Ok(t) => t,
        Err(e) => return Err(e),
    };
    let mut out = String::new();
    push_all(&mut out, "receivers:\n");
    push_all(&mut out, receivers.as_str());
    push_all(&mut out, "\n");
    push_all(&mut out, "processors:\n");
    push_all(&mut out, processors.as_str());
    push_all(&mut out, "\nexporters:\n  otlp:\n    endpoint: ");
    push_yaml_quoted(&mut out, endpoint.as_str());
    push_all(&mut out, "\n    tls:\n      insecure: true\n\nservice:\n  pipelines:\n");
    push_all(&mut out, pipelines.as_str());
    Ok(out)
}

// ---------------------------------------------------------------------------
// Reports
// ---------------------------------------------------------------------------
pub const COLLECTOR_SERVICE: &'static str = "nexus-icmp-collector.service";

/// Number of devices of the inventory in state `state`.
pub open spec fn state_count(inventory: Json, state: Seq<char>) -> nat {
    match get_array(inventory, "devices"@) {
        Some(ds) => in_state(ds, state).len(),
        None => 0,
    }
}

pub open spec fn count_json(n: nat) -> Json {
    Json::Num(Number::PosInt(n as u64))
}

/// What a reconcile run reports: how many targets are probed, whether the
/// collector service runs (it is disabled when there is nothing to probe),
/// and where its configuration lives.
pub open spec fn reconcile_report_spec(active_targets: nat, config_path: Seq<char>) -> Json {
    Json::Object(
        seq![
            ("active_targets"@, count_json(active_targets)),
            ("service"@, Json::Str(if active_targets == 0 { "disabled"@ } else { "active"@ })),
            ("config"@, Json::Str(config_path)),
        ],
    )
}

/// The report of a reconcile run (see `reconcile_report_spec`).
pub fn reconcile_report(active_targets: usize, config_path: &str) -> (r: JsonValue)
    ensures
        r@ == reconcile_report_spec(active_targets as nat, config_path@),
{
    let mut f: Vec<(String, JsonValue)> = Vec::new();
    assert(JsonValue::Object(f)@->Object_0 =~= Seq::<(Seq<char>, Json)>::empty());
    push_field(&mut f, "active_targets", JsonValue::Number(JsonNumber::PosInt(active_targets as u64)));
    if active_targets == 0 {
        push_field(&mut f, "service", JsonValue::text("disabled"));
    } else {
        push_field(&mut f, "service", JsonValue::text("active"));
    }
    push_field(&mut f, "config", JsonValue::text(config_path));
    let r = JsonValue::Object(f);
    assert(r@->Object_0 =~= reconcile_report_spec(active_targets as nat, config_path@)->Object_0);
    r
}

/// The installation and service state of the probe engine.
pub open spec fn collector_status_spec(
    collector_installed: bool,
    blackbox_installed: bool,
    blackbox_active: bool,
    service_active: bool,
) -> Json {
    Json::Object(
        seq![
            ("collector_installed"@, Json::Bool(collector_installed)),
            ("blackbox_installed"@, Json::Bool(blackbox_installed)),
            ("blackbox_active"@, Json::Bool(blackbox_active)),
            ("service_active"@, Json::Bool(service_active)),
            ("service"@, Json::Str(COLLECTOR_SERVICE@)),
        ],
    )
}

/// The probe-engine status object (see `collector_status_spec`).
pub fn collector_status(
    collector_installed: bool,
    blackbox_installed: bool,
    blackbox_active: bool,
    service_active: bool,
) -> (r: JsonValue)
    ensures
        r@ == collector_status_spec(collector_installed, blackbox_installed, blackbox_active, service_active),
{
    let mut f: Vec<(String, JsonValue)> = Vec::new();
    assert(JsonValue::Object(f)@->Object_0 =~= Seq::<(Seq<char>, Json)>::empty());
    push_field(&mut f, "collector_installed", JsonValue::Bool(collector_installed));
    push_field(&mut f, "blackbox_installed", JsonValue::Bool(blackbox_installed));
    push_field(&mut f, "blackbox_active", JsonValue::Bool(blackbox_active));
    push_field(&mut f, "service_active", JsonValue::Bool(service_active));
    push_field(&mut f, "service", JsonValue::text(COLLECTOR_SERVICE));
    let r = JsonValue::Object(f);
    assert(r@->Object_0 =~= collector_status_spec(
        collector_installed,
        blackbox_installed,
        blackbox_active,
        service_active,
    )->Object_0);
    r
}

/// The monitoring view: the inventory, and the probe-engine status completed
/// with the number of enabled and of maintenance devices (when it is an object).
pub open spec fn monitoring_view_spec(inventory: Json, engine: Json) -> Json {
    let counted = match engine {
        Json::Object(_) => assign(
            assign(engine, "active_targets"@, count_json(state_count(inventory, "enabled"@))),
            "maintenance_targets"@,
            count_json(state_count(inventory, "maintenance"@)),
        ),
        _ => engine,
    };
    Json::Object(seq![("inventory"@, inventory), ("probe_engine"@, counted)])
}

/// The monitoring view of `inventory` with the probe-engine status `engine`
/// (see `monitoring_view_spec`).
pub fn monitoring_view(inventory: JsonValue, engine: JsonValue) -> (r: JsonValue)
    ensures
        r@ == monitoring_view_spec(inventory@, engine@),
{
    let on = devices_in_state(&inventory, "enabled");
    let paused = devices_in_state(&inventory, "maintenance");
    let enabled = on.len();
    let maintenance = paused.len();
    assert(JsonValue::Array(on)@->Array_0.len() == enabled);
    assert(JsonValue::Array(paused)@->Array_0.len() == maintenance);
    assert(state_count(inventory@, "enabled"@) == enabled);
    assert(state_count(inventory@, "maintenance"@) == maintenance);
    let ghost engine0 = engine@;
    let mut engine = engine;
    if engine.is_object() {
        engine.assign("active_targets", JsonValue::Number(JsonNumber::PosInt(enabled as u64)));
        engine.assign("maintenance_targets", JsonValue::Number(JsonNumber::PosInt(maintenance as u64)));
    }
    let mut f: Vec<(String, JsonValue)> = Vec::new();
    assert(JsonValue::Object(f)@->Object_0 =~= Seq::<(Seq<char>, Json)>::empty());
    let ghost iv = inventory@;
    let ghost ev = engine@;
    assert(ev == monitoring_view_spec(iv, engine0)->Object_0[1].1);
    push_field(&mut f, "inventory", inventory);
    push_field(&mut f, "probe_engine", engine);
    let r = JsonValue::Object(f);
    assert(r@->Object_0 =~= seq![("inventory"@, iv), ("probe_engine"@, ev)]);
    r
}

/// Why a command that had to succeed did not: its standard error, or its
/// standard output when that is blank, each trimmed.
pub open spec fn command_failure_text(program: Seq<char>, stdout: Seq<u8>, stderr: Seq<u8>) -> Seq<char> {
    let e = trim(utf8_lossy(stderr));
    program + " failed: "@ + if e.len() > 0 { e } else { trim(utf8_lossy(stdout)) }
}

/// The message of a failed command (see `command_failure_text`).
pub fn command_failure_message(program: &str, stdout: &[u8], stderr: &[u8]) -> (r: String)
    ensures
        r@ == command_failure_text(program@, stdout@, stderr@),
{
    let e = trimmed(lossy_text(stderr).as_str());
    let mut r = owned(program);
    push_all(&mut r, " failed: ");
    if !e.as_str().is_empty() {
        push_all(&mut r, e.as_str());
    } else {
        let o = trimmed(lossy_text(stdout).as_str());
        push_all(&mut r, o.as_str());
    }
    r
}

/// Only enabled devices are probed: every device the collector configuration
/// is built from is enabled, and every enabled device of the inventory is among
/// them; without any, no configuration is produced.
pub proof fn lemma_only_enabled_devices_are_probed(inventory: Json)
    ensures
        forall|i: int|
            0 <= i < enabled_of(inventory).len() ==> get_str(#[trigger] enabled_of(inventory)[i], "state"@)
                == Some("enabled"@),
        get_array(inventory, "devices"@) matches Some(ds) ==> forall|j: int|
            0 <= j < ds.len() && get_str(#[trigger] ds[j], "state"@) == Some("enabled"@)
                ==> enabled_of(inventory).contains(ds[j]),
        enabled_of(inventory).len() == 0 ==> collector_config_result(inventory) == Err::<
            Seq<char>,
            MonitoringError,
        >(MonitoringError::NoEnabledDevices),
{
    match get_array(inventory, "devices"@) {
        Some(ds) => {
            crate::monitoring_inventory::lemma_in_state_members(ds, "enabled"@);
        },
        None => {},
    }
}

proof fn lemma_contains_concat(a: Seq<char>, b: Seq<char>, n: Seq<char>)
    ensures
        contains(a, n) ==> contains(a + b, n),
        contains(b, n) ==> contains(a + b, n),
{
    if contains(a, n) {
        let k = choose|k: int| occurs_at(a, n, k);
        assert((a + b).subrange(k, k + n.len()) =~= a.subrange(k, k + n.len()));
        assert(occurs_at(a + b, n, k));
    }
    if contains(b, n) {
        let k = choose|k: int| occurs_at(b, n, k);
        assert((a + b).subrange(a.len() + k, a.len() + k + n.len()) =~= b.subrange(k, k + n.len()));
        assert(occurs_at(a + b, n, a.len() + k));
    }
}

/// Each device's piece occurs in the concatenation of all pieces.
proof fn lemma_piece_in_concat(ds: Seq<Json>, f: spec_fn(Json) -> Seq<char>, i: int)
    requires
        0 <= i < ds.len(),
    ensures
        contains(concat_map(ds, f), f(ds[i])),
    decreases ds.len(),
{
    let n = f(ds[i]);
    if i == ds.len() - 1 {
        assert(occurs_at(f(ds[i]), n, 0)) by {
            assert(n.subrange(0, n.len() as int) =~= n);
        }
        lemma_contains_concat(concat_map(ds.drop_last(), f), f(ds.last()), n);
    } else {
        lemma_piece_in_concat(ds.drop_last(), f, i);
        assert(ds.drop_last()[i] == ds[i]);
        lemma_contains_concat(concat_map(ds.drop_last(), f), f(ds.last()), n);
    }
}

/// Every enabled device is probed: the per-device configuration has a
/// receiver and a pipeline of its own for each enabled device of the
/// inventory, named by its id, and the blackbox configuration lists each
/// enabled device as a scrape target.
pub proof fn lemma_enabled_devices_are_configured(inventory: Json, j: int)
    requires
        get_array(inventory, "devices"@) matches Some(ds) && 0 <= j < ds.len() && get_str(
            ds[j],
            "state"@,
        ) == Some("enabled"@),
    ensures
        ({
            let d = get_array(inventory, "devices"@)->0[j];
            &&& per_device_config_result(inventory) matches Ok(text) ==> contains(
                text,
                receiver_labels_text(label_id(d), label_address(d), probe_interval(inventory)),
            ) && contains(text, pipeline_labels_text(label_id(d)))
            &&& collector_config_result(inventory) matches Ok(text) ==> contains(text, target_text(d))
        }),
{
    let ds = get_array(inventory, "devices"@)->0;
    let d = ds[j];
    let es = enabled_of(inventory);
    crate::monitoring_inventory::lemma_in_state_members(ds, "enabled"@);
    assert(es.contains(d));
    let i = choose|i: int| 0 <= i < es.len() && es[i] == d;
    if es.len() > 0 && first_device_error(es) is None {
        let interval = probe_interval(inventory);
        let endpoint = probe_endpoint(inventory);
        let rs = concat_map(es, receiver_fn(interval));
        let ps = concat_map(es, processor_fn());
        let pl = concat_map(es, pipeline_fn());
        let rn = receiver_labels_text(label_id(d), label_address(d), interval);
        let pn = pipeline_labels_text(label_id(d));
        lemma_piece_in_concat(es, receiver_fn(interval), i);
        lemma_piece_in_concat(es, pipeline_fn(), i);
        assert(receiver_fn(interval)(es[i]) == rn);
        assert(pipeline_fn()(es[i]) == pn);
        let a1 = "receivers:\n"@ + rs;
        lemma_contains_concat("receivers:\n"@, rs, rn);
        let a2 = a1 + "\n"@;
        lemma_contains_concat(a1, "\n"@, rn);
        let a3 = a2 + "processors:\n"@;
        lemma_contains_concat(a2, "processors:\n"@, rn);
        let a4 = a3 + ps;
        lemma_contains_concat(a3, ps, rn);
        let tail = "\nexporters:\n  otlp:\n    endpoint: "@;
        let a5 = a4 + tail;
        lemma_contains_concat(a4, tail, rn);
        let a6 = a5 + yaml_quoted(endpoint);
        lemma_contains_concat(a5, yaml_quoted(endpoint), rn);
        let tail2 = "\n    tls:\n      insecure: true\n\nservice:\n  pipelines:\n"@;
        let a7 = a6 + tail2;
        lemma_contains_concat(a6, tail2, rn);
        lemma_contains_concat(a7, pl, rn);
        lemma_contains_concat(a7, pl, pn);
        assert(per_device_config_text(rs, ps, pl, endpoint) == a7 + pl);

        let tn = target_text(d);
        let ts = concat_map(es, target_fn());
        lemma_piece_in_concat(es, target_fn(), i);
        assert(target_fn()(es[i]) == tn);
        let b1 = config_head() + interval;
        let b2 = b1 + config_after_interval();
        let b3 = b2 + ts;
        lemma_contains_concat(b2, ts, tn);
        let b4 = b3 + config_after_targets();
        lemma_contains_concat(b3, config_after_targets(), tn);
        let b5 = b4 + BLACKBOX_ENDPOINT@;
        lemma_contains_concat(b4, BLACKBOX_ENDPOINT@, tn);
        let b6 = b5 + config_after_blackbox();
        lemma_contains_concat(b5, config_after_blackbox(), tn);
        let b7 = b6 + yaml_quoted(endpoint);
        lemma_contains_concat(b6, yaml_quoted(endpoint), tn);
        lemma_contains_concat(b7, config_tail(), tn);
        assert(blackbox_config_text(interval, endpoint, ts) == b7 + config_tail());
    }
}

proof fn lemma_contains_trans(a: Seq<char>, b: Seq<char>, c: Seq<char>)
    requires
        contains(a, b),
        contains(b, c),
    ensures
        contains(a, c),
{
    let i = choose|i: int| occurs_at(a, b, i);
    let k = choose|k: int| occurs_at(b, c, k);
    assert(a.subrange(i + k, i + k + c.len()) =~= b.subrange(k, k + c.len()));
    assert(occurs_at(a, c, i + k));
}

/// A target's text holds its id label line.
proof fn lemma_target_holds_id(
    id: Seq<char>,
    name: Seq<char>,
    address: Seq<char>,
    kind: Seq<char>,
    site: Seq<char>,
)
    ensures
        contains(target_labels_text(id, name, address, kind, site), "nexus_device_id: "@ + yaml_quoted(id) + "\n"@),
{
    let k = "nexus_device_id: "@;
    let b = "]\n              labels:\n                nexus_device_id: "@;
    let b0 = "]\n              labels:\n                "@;
    let c = "\n                nexus_device_name: "@;
    let c1 = "                nexus_device_name: "@;
    reveal_strlit("nexus_device_id: ");
    reveal_strlit("]\n              labels:\n                nexus_device_id: ");
    reveal_strlit("]\n              labels:\n                ");
    reveal_strlit("\n                nexus_device_name: ");
    reveal_strlit("                nexus_device_name: ");
    reveal_strlit("\n");
    assert(b =~= b0 + k);
    assert(c =~= "\n"@ + c1);
    let tt = target_labels_text(id, name, address, kind, site);
    let x = "            - targets: ["@ + yaml_quoted(address) + b0;
    let piece = k + yaml_quoted(id) + "\n"@;
    let y = c1 + yaml_quoted(name) + "\n                nexus_resource_type: "@ + yaml_quoted(kind)
        + "\n                nexus_site: "@ + yaml_quoted(site)
        + "\n                nexus_monitoring_profile: 'icmp'\n"@;
    assert(tt =~= x + piece + y);
    assert(tt.subrange(x.len() as int, (x.len() + piece.len()) as int) =~= piece);
    assert(occurs_at(tt, piece, x.len() as int));
}

/// A scrape target is labelled with its device's id: for every enabled
/// device with id `id`, the collector configuration holds the line
/// `nexus_device_id: <id>` (YAML-quoted), whatever the device is named, so
/// alerts and maintenance scoped to that label select exactly this device.
pub proof fn lemma_targets_carry_device_id(inventory: Json, j: int, id: Seq<char>)
    requires
        get_array(inventory, "devices"@) matches Some(ds) && 0 <= j < ds.len() && get_str(
            ds[j],
            "state"@,
        ) == Some("enabled"@) && get_str(ds[j], "id"@) == Some(id),
    ensures
        collector_config_result(inventory) matches Ok(text) ==> contains(
            text,
            "nexus_device_id: "@ + yaml_quoted(id) + "\n"@,
        ),
{
    let d = get_array(inventory, "devices"@)->0[j];
    lemma_enabled_devices_are_configured(inventory, j);
    if collector_config_result(inventory) is Ok {
        assert(label_id(d) == id);
        lemma_target_holds_id(id, label_name(d), label_address(d), label_kind(d), label_site(d));
        let text = collector_config_result(inventory)->Ok_0;
        lemma_contains_trans(text, target_text(d), "nexus_device_id: "@ + yaml_quoted(id) + "\n"@);
    }
}
} // verus!
