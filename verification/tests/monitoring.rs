use nexus::collector::{
    collector_config, collector_status, command_failure_message, device_labels, monitoring_view,
    per_device_collector_config, push_yaml_quoted, reconcile_report, yaml_quote, BLACKBOX_ENDPOINT,
    COLLECTOR_SERVICE,
};
use nexus::device_fields::{
    address_candidate, normalize_address, normalize_name, normalize_simple_label, normalize_slug,
    normalize_state, MonitoringError,
};
use nexus::json::{JsonNumber, JsonValue};
use nexus::maintenance::{
    change_response, device_text, maintenance_plan, probe_address, registration_response,
    settle_maintenance, validate_device, MaintenanceAction,
};
use nexus::monitoring_inventory::{
    default_inventory, delete_device_entry, device_record, devices_in_state, enabled_devices,
    find_device, inventory_or_default, upsert_device_entry, DEFAULT_OTLP_ENDPOINT,
    DEFAULT_SIGNOZ_URL,
};

fn s(t: &str) -> JsonValue {
    JsonValue::Str(t.to_string())
}

fn obj(fields: Vec<(&str, JsonValue)>) -> JsonValue {
    JsonValue::Object(fields.into_iter().map(|(k, v)| (k.to_string(), v)).collect())
}

fn device(id: &str, name: &str, address: &str, kind: &str, state: &str) -> JsonValue {
    obj(vec![
        ("id", s(id)),
        ("name", s(name)),
        ("address", s(address)),
        ("kind", s(kind)),
        ("site", s("home")),
        ("profile", s("icmp")),
        ("state", s(state)),
    ])
}

fn sample_inventory() -> JsonValue {
    obj(vec![
        (
            "probe",
            obj(vec![
                ("otlp_endpoint", s("192.168.0.47:4317")),
                ("collection_interval", s("30s")),
            ]),
        ),
        (
            "devices",
            JsonValue::Array(vec![
                device("switch-01", "Switch 01", "192.168.0.5", "switch", "enabled"),
                device("tv-01", "TV 01", "192.168.0.6", "tv", "maintenance"),
            ]),
        ),
    ])
}

fn address(input: &str, is_ip: bool) -> Result<String, MonitoringError> {
    normalize_address(address_candidate(input), is_ip)
}

fn ids_of(devices: &[JsonValue]) -> Vec<String> {
    devices
        .iter()
        .map(|d| d.get_str("id").cloned().unwrap_or_default())
        .collect()
}

#[test]
fn monitoring_address_validation_accepts_ip_and_hostname_and_rejects_shell_input() {
    assert_eq!(address("192.168.0.10", true).unwrap(), "192.168.0.10");
    assert_eq!(address("switch-01.internal.", false).unwrap(), "switch-01.internal");
    assert!(address("192.168.0.1;id", false).is_err());
    assert!(address("-bad.internal", false).is_err());
}

#[test]
fn store_address_validation_accepts_ip_and_hostname_and_rejects_shell_input() {
    assert_eq!(address("192.168.0.10", true).unwrap(), "192.168.0.10");
    assert_eq!(address("switch-01.internal.", false).unwrap(), "switch-01.internal");
    assert!(address("192.168.0.1;id", false).is_err());
    assert!(address("-bad.internal", false).is_err());
}

#[test]
fn monitoring_state_validation_is_closed() {
    assert_eq!(normalize_state("maintenance").unwrap(), "maintenance");
    assert!(normalize_state("paused").is_err());
}

#[test]
fn store_state_validation_is_closed() {
    assert_eq!(normalize_state("maintenance").unwrap(), "maintenance");
    assert!(normalize_state("paused").is_err());
}

#[test]
fn generated_config_has_one_isolated_pipeline_per_enabled_device() {
    let inventory = sample_inventory();
    let config = per_device_collector_config(&inventory).unwrap();
    assert!(config.contains("icmpcheck/switch-01"));
    assert!(config.contains("metrics/switch-01"));
    assert!(config.contains("nexus.device.name"));
    assert!(!config.contains("icmpcheck/tv-01"));
}

#[test]
fn generated_config_uses_prometheus_blackbox_for_enabled_devices() {
    let inventory = sample_inventory();
    let config = collector_config(&inventory).unwrap();
    assert!(config.contains("prometheus/nexus_icmp"));
    assert!(config.contains("module: ['icmp']"));
    assert!(config.contains("192.168.0.5"));
    assert!(config.contains("nexus_device_name"));
    assert!(config.contains(BLACKBOX_ENDPOINT));
    assert!(!config.contains("192.168.0.6"));
    assert!(!config.contains("icmpcheck/"));
}

#[test]
fn state_normalisation_trims_and_lowercases() {
    assert_eq!(normalize_state("  Enabled ").unwrap(), "enabled");
    assert_eq!(normalize_state("DISABLED").unwrap(), "disabled");
    assert_eq!(
        normalize_state("").unwrap_err().message(),
        "state must be enabled, maintenance or disabled"
    );
}

#[test]
fn address_validation_limits_labels() {
    assert_eq!(address("  Switch-01.Internal ", false).unwrap(), "switch-01.internal");
    assert_eq!(
        address("a..b", false).unwrap_err().message(),
        "invalid device IP address or hostname"
    );
    assert!(address("", false).is_err());
    assert!(address(&"a".repeat(64), false).is_err());
    assert!(address(&"a".repeat(63), false).is_ok());
    assert!(address("host-", false).is_err());
}

#[test]
fn device_names_are_trimmed_and_bounded() {
    assert_eq!(normalize_name("  Switch 01 ").unwrap(), "Switch 01");
    assert_eq!(
        normalize_name("   ").unwrap_err().message(),
        "device name must contain between 1 and 80 characters"
    );
    assert!(normalize_name(&"x".repeat(81)).is_err());
    assert!(normalize_name(&"x".repeat(80)).is_ok());
    assert_eq!(
        normalize_name("bad\u{7}name").unwrap_err().message(),
        "device name contains invalid control characters"
    );
}

#[test]
fn device_ids_are_derived_slugs() {
    assert_eq!(normalize_slug("  Switch 01 ").unwrap(), "switch-01");
    assert_eq!(normalize_slug("TV -- Living room!").unwrap(), "tv-living-room");
    assert_eq!(
        normalize_slug("!!!").unwrap_err().message(),
        "device name cannot be converted to a valid device id"
    );
}

#[test]
fn simple_labels_are_lowercase_and_plain() {
    assert_eq!(normalize_simple_label(" Switch ", "device kind").unwrap(), "switch");
    assert_eq!(normalize_simple_label("edge_01-a", "site").unwrap(), "edge_01-a");
    assert_eq!(
        normalize_simple_label("a b", "device kind").unwrap_err().message(),
        "device kind contains invalid characters"
    );
    assert_eq!(
        normalize_simple_label("", "site").unwrap_err().message(),
        "site must contain between 1 and 64 characters"
    );
}

#[test]
fn yaml_quotes_double_single_quotes() {
    assert_eq!(yaml_quote("it's"), "'it''s'");
    assert_eq!(yaml_quote(""), "''");
    let mut out = "x: ".to_string();
    push_yaml_quoted(&mut out, "a'b");
    assert_eq!(out, "x: 'a''b'");
}

#[test]
fn device_labels_default_kind_and_site() {
    let d = obj(vec![("id", s("a")), ("name", s("A")), ("address", s("10.0.0.1"))]);
    let l = device_labels(&d).unwrap();
    assert_eq!(l.kind, "device");
    assert_eq!(l.site, "home");
    let missing = obj(vec![("id", s("a")), ("name", s("A"))]);
    assert_eq!(
        device_labels(&missing).err().unwrap().message(),
        "monitoring device is missing address"
    );
}

#[test]
fn collector_config_needs_an_enabled_device() {
    let mut inventory = default_inventory();
    assert_eq!(
        collector_config(&inventory).unwrap_err().message(),
        "no enabled devices"
    );
    assert!(per_device_collector_config(&inventory).is_err());
    let broken = obj(vec![("id", s("x")), ("state", s("enabled")), ("address", s("10.0.0.9"))]);
    upsert_device_entry(&mut inventory, "x", broken).unwrap();
    assert_eq!(
        collector_config(&inventory).unwrap_err().message(),
        "monitoring device is missing name"
    );
}

#[test]
fn collector_config_quotes_labels_and_uses_defaults() {
    let inventory = obj(vec![(
        "devices",
        JsonValue::Array(vec![device("o-1", "O'Brien", "10.0.0.2", "nas", "enabled")]),
    )]);
    let config = collector_config(&inventory).unwrap();
    assert!(config.contains("nexus_device_name: 'O''Brien'"));
    assert!(config.contains("scrape_interval: 30s"));
    assert!(config.contains(&format!("endpoint: '{}'", DEFAULT_OTLP_ENDPOINT)));
}

#[test]
fn default_monitoring_inventory_is_empty() {
    let inventory = default_inventory();
    assert_eq!(inventory.get("devices"), Some(&JsonValue::Array(vec![])));
    assert_eq!(
        inventory.get("signoz").and_then(|v| v.get_str("url")).map(|u| u.as_str()),
        Some(DEFAULT_SIGNOZ_URL)
    );
    assert_eq!(inventory.get("version"), Some(&JsonValue::Number(JsonNumber::PosInt(1))));
    assert_eq!(inventory_or_default(None), default_inventory());
    let stored = obj(vec![("devices", JsonValue::Array(vec![]))]);
    assert_eq!(inventory_or_default(Some(stored.duplicate())), stored);
}

#[test]
fn device_records_carry_profile_and_downtime() {
    let r = device_record(
        "a".into(),
        "A".into(),
        "10.0.0.1".into(),
        "switch".into(),
        "home".into(),
        "maintenance".into(),
        Some("dt-1".into()),
    );
    assert_eq!(r.get_str("profile").map(|x| x.as_str()), Some("icmp"));
    assert_eq!(r.get_str("signoz_downtime_id").map(|x| x.as_str()), Some("dt-1"));
    let plain = device_record(
        "a".into(),
        "A".into(),
        "10.0.0.1".into(),
        "switch".into(),
        "home".into(),
        "enabled".into(),
        None,
    );
    assert!(plain.get("signoz_downtime_id").is_none());
}

#[test]
fn upsert_replaces_by_id_and_orders_by_name() {
    let mut inventory = default_inventory();
    upsert_device_entry(&mut inventory, "b", device("b", "Bravo", "10.0.0.2", "nas", "enabled")).unwrap();
    upsert_device_entry(&mut inventory, "a", device("a", "Alpha", "10.0.0.1", "nas", "enabled")).unwrap();
    upsert_device_entry(&mut inventory, "b", device("b", "Bravo", "10.0.0.3", "nas", "disabled")).unwrap();
    let devices = inventory.get("devices").and_then(|d| d.as_array()).unwrap();
    assert_eq!(ids_of(devices), vec!["a".to_string(), "b".to_string()]);
    assert_eq!(devices[1].get_str("address").map(|x| x.as_str()), Some("10.0.0.3"));
    let found = find_device(&inventory, "b").unwrap();
    assert_eq!(found.get_str("state").map(|x| x.as_str()), Some("disabled"));
    assert!(find_device(&inventory, "zzz").is_none());
}

#[test]
fn upsert_and_delete_need_a_devices_array() {
    let mut inventory = obj(vec![("version", JsonValue::Number(JsonNumber::PosInt(1)))]);
    let before = inventory.duplicate();
    assert_eq!(
        upsert_device_entry(&mut inventory, "a", device("a", "A", "10.0.0.1", "nas", "enabled"))
            .unwrap_err()
            .message(),
        "monitoring inventory is missing a devices array"
    );
    assert_eq!(inventory, before);
    assert!(delete_device_entry(&mut inventory, "a").is_err());
}

#[test]
fn delete_removes_the_device_or_reports_it_missing() {
    let mut inventory = sample_inventory();
    delete_device_entry(&mut inventory, "tv-01").unwrap();
    let devices = inventory.get("devices").and_then(|d| d.as_array()).unwrap();
    assert_eq!(ids_of(devices), vec!["switch-01".to_string()]);
    let before = inventory.duplicate();
    assert_eq!(
        delete_device_entry(&mut inventory, "tv-01").unwrap_err().message(),
        "monitoring device 'tv-01' was not found"
    );
    assert_eq!(inventory, before);
}

#[test]
fn devices_are_selected_by_state() {
    let inventory = sample_inventory();
    assert_eq!(ids_of(&enabled_devices(&inventory)), vec!["switch-01".to_string()]);
    assert_eq!(
        ids_of(&devices_in_state(&inventory, "maintenance")),
        vec!["tv-01".to_string()]
    );
    assert!(devices_in_state(&inventory, "disabled").is_empty());
    assert!(enabled_devices(&JsonValue::Null).is_empty());
}

#[test]
fn reconcile_report_and_collector_status_shapes() {
    let r = reconcile_report(0, "/etc/nexus.yaml");
    assert_eq!(r.get_str("service").map(|x| x.as_str()), Some("disabled"));
    assert_eq!(r.get("active_targets").and_then(|v| v.as_u64()), Some(0));
    let r = reconcile_report(2, "/etc/nexus.yaml");
    assert_eq!(r.get_str("service").map(|x| x.as_str()), Some("active"));
    assert_eq!(r.get_str("config").map(|x| x.as_str()), Some("/etc/nexus.yaml"));
    let st = collector_status(true, false, true, false);
    assert_eq!(st.get_bool("collector_installed"), Some(true));
    assert_eq!(st.get_bool("blackbox_installed"), Some(false));
    assert_eq!(st.get_bool("blackbox_active"), Some(true));
    assert_eq!(st.get_bool("service_active"), Some(false));
    assert_eq!(st.get_str("service").map(|x| x.as_str()), Some(COLLECTOR_SERVICE));
}

#[test]
fn monitoring_view_joins_inventory_and_engine() {
    let view = monitoring_view(sample_inventory(), obj(vec![("service_active", JsonValue::Bool(true))]));
    assert_eq!(view.get("inventory"), Some(&sample_inventory()));
    let engine = view.get("probe_engine").unwrap();
    assert_eq!(engine.get_bool("service_active"), Some(true));
    assert_eq!(engine.get("active_targets").and_then(|v| v.as_u64()), Some(1));
    assert_eq!(engine.get("maintenance_targets").and_then(|v| v.as_u64()), Some(1));
    let plain = monitoring_view(JsonValue::Null, JsonValue::Bool(false));
    assert_eq!(plain.get("probe_engine"), Some(&JsonValue::Bool(false)));
}

#[test]
fn command_failures_prefer_stderr() {
    assert_eq!(
        command_failure_message("/usr/bin/x", b" out \n", b" boom \n"),
        "/usr/bin/x failed: boom"
    );
    assert_eq!(
        command_failure_message("/usr/bin/x", b" out \n", b"  "),
        "/usr/bin/x failed: out"
    );
}

#[test]
fn registration_fields_are_checked_in_order() {
    let ok = validate_device(" Switch 01 ", address_candidate("10.0.0.1"), true, "Switch", None, None)
        .unwrap();
    assert_eq!(ok.id, "switch-01");
    assert_eq!(ok.name, "Switch 01");
    assert_eq!(ok.kind, "switch");
    assert_eq!(ok.site, "home");
    assert_eq!(ok.state, "enabled");
    let e = validate_device("", address_candidate("bad;"), false, "a b", None, None).err().unwrap();
    assert_eq!(e.message(), "device name must contain between 1 and 80 characters");
    let e = validate_device("A", address_candidate("bad;"), false, "a b", None, None).err().unwrap();
    assert_eq!(e.message(), "invalid device IP address or hostname");
    let e = validate_device("A", address_candidate("h"), false, "a b", None, None).err().unwrap();
    assert_eq!(e.message(), "device kind contains invalid characters");
    let e = validate_device("A", address_candidate("h"), false, "k", None, Some("paused".into()))
        .err()
        .unwrap();
    assert_eq!(e.message(), "state must be enabled, maintenance or disabled");
}

#[test]
fn entering_maintenance_opens_a_window_and_leaving_closes_it() {
    let plan = maintenance_plan("maintenance", Some("enabled".into()), None);
    assert!(matches!(plan.action, MaintenanceAction::CreateDowntime));
    let settled = settle_maintenance(plan, Ok("dt-9".into()));
    assert_eq!(settled.downtime_id.as_deref(), Some("dt-9"));

    let plan = maintenance_plan("enabled", Some("maintenance".into()), Some("dt-9".into()));
    assert!(matches!(&plan.action, MaintenanceAction::DeleteDowntime(id) if id == "dt-9"));
    assert_eq!(plan.downtime_id, None);
    let settled = settle_maintenance(plan, Ok(String::new()));
    assert_eq!(settled.downtime_id, None);

    let plan = maintenance_plan("enabled", Some("maintenance".into()), Some("dt-9".into()));
    let settled = settle_maintenance(plan, Err("unreachable".into()));
    assert_eq!(settled.downtime_id.as_deref(), Some("dt-9"));
    assert!(settled.report.is_some());

    let plan = maintenance_plan("maintenance", Some("maintenance".into()), Some("dt-3".into()));
    assert!(matches!(plan.action, MaintenanceAction::Keep));
    let settled = settle_maintenance(plan, Err("ignored".into()));
    assert_eq!(settled.downtime_id.as_deref(), Some("dt-3"));
}

#[test]
fn stored_device_fields_are_read_back() {
    let inventory = sample_inventory();
    assert_eq!(device_text(&inventory, "tv-01", "state").as_deref(), Some("maintenance"));
    assert_eq!(device_text(&inventory, "nope", "state"), None);
    assert_eq!(probe_address(&inventory, "switch-01").unwrap(), "192.168.0.5");
    assert!(probe_address(&inventory, "nope").is_err());
}

#[test]
fn answers_report_reconcile_errors() {
    let r = registration_response("a".into(), JsonValue::Null, Err("failed".into()), None);
    assert_eq!(r.get_str("device_id").map(|x| x.as_str()), Some("a"));
    assert_eq!(
        r.get("reconcile").and_then(|v| v.get_str("error")).map(|x| x.as_str()),
        Some("failed")
    );
    assert_eq!(r.get("signoz_maintenance"), Some(&JsonValue::Null));
    let c = change_response("deleted", "a".into(), JsonValue::Null, Ok(obj(vec![("ok", JsonValue::Bool(true))])));
    assert_eq!(c.get_str("deleted").map(|x| x.as_str()), Some("a"));
    assert_eq!(c.get("reconcile").and_then(|v| v.get_bool("ok")), Some(true));
}

#[test]
fn registration_leaves_one_device_per_id() {
    let mut inventory = sample_inventory();
    upsert_device_entry(&mut inventory, "tv-01", device("tv-01", "A TV", "192.168.0.9", "tv", "enabled")).unwrap();
    upsert_device_entry(&mut inventory, "tv-01", device("tv-01", "A TV", "192.168.0.10", "tv", "disabled")).unwrap();
    let devices = inventory.get("devices").and_then(|d| d.as_array()).unwrap();
    assert_eq!(ids_of(devices), vec!["tv-01".to_string(), "switch-01".to_string()]);
    assert_eq!(devices.iter().filter(|d| d.get_str("id").map(|x| x.as_str()) == Some("tv-01")).count(), 1);
    assert_eq!(devices[0].get_str("address").map(|x| x.as_str()), Some("192.168.0.10"));
}
