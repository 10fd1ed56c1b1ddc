use nexus::domain_panel::{
    action_failure, check_adopted, check_ok, configured_count, decision_note, decision_required,
    default_text, existing_mode, existing_record_labels, failed_validation, managed_count,
    migration_message, onboarding_request, panel_check, reconcile_message, response_healthy,
    result_healthy, row_action, row_status, setup_message, validate_label, RowAction,
};
use nexus::guest_actions::{
    attention_text, classic_buttons, dashboard_totals, guest_call, guest_menu, guest_summary,
    guest_task_url, issues_text, load_guests, primary_action, GuestAction, GuestCall, GuestKind,
    RemoteGuests, ResourceCounts,
};
use nexus::guest_list::{
    failed_remotes_text, free_text_match, guest_groups, guest_matches, guest_selection, term_matches,
    FilterTerm, GuestRow,
};
use nexus::json::{JsonNumber, JsonValue};
use nexus::monitoring_panel::{
    add_device_request, collector_line, device_counts, device_matches, device_saved_message,
    devices_of_view, engine_flag, filter_devices, list_notice, probe_label, signoz_panel,
    state_badge, state_change_message, state_change_request,
};
use nexus::monitoring_inventory::DEFAULT_SIGNOZ_URL;
use nexus::navigation::{engine_label, navigation, route_view, task_base_url, NavSection};
use nexus::storage_tiers::{
    split_storage, status_class, tier_labels, tier_totals, PbsDatastore, PveStorage,
    RemoteStorage, StorageEntry, StorageResource,
};

fn s(t: &str) -> JsonValue {
    JsonValue::Str(t.to_string())
}

fn b(v: bool) -> JsonValue {
    JsonValue::Bool(v)
}

fn obj(fields: Vec<(&str, JsonValue)>) -> JsonValue {
    JsonValue::Object(fields.into_iter().map(|(k, v)| (k.to_string(), v)).collect())
}

fn text<'a>(v: &'a JsonValue, key: &str) -> Option<&'a str> {
    v.get_str(key).map(|x| x.as_str())
}

fn result_with(checks: Vec<(&str, bool)>, extra: Vec<(&str, JsonValue)>) -> JsonValue {
    let checks = obj(checks.into_iter().map(|(k, ok)| (k, obj(vec![("ok", b(ok))]))).collect());
    let mut fields = vec![("checks", checks)];
    fields.extend(extra);
    obj(fields)
}

fn counts() -> ResourceCounts {
    ResourceCounts {
        remotes: 3,
        failed_remotes: 1,
        pve_online: 2,
        pve_offline: 1,
        pve_unknown: 0,
        qemu_running: 4,
        qemu_stopped: 2,
        qemu_template: 1,
        qemu_unknown: 0,
        lxc_running: 3,
        lxc_stopped: 1,
        lxc_template: 0,
        lxc_unknown: 0,
        pbs_online: 1,
        pbs_offline: 0,
        pbs_unknown: 1,
        datastores_online: 2,
        datastores_maintenance: Some(1),
        datastores_high_usage: Some(2),
        datastores_unknown: None,
    }
}

fn device(id: &str, name: &str, kind: &str, state: &str) -> JsonValue {
    obj(vec![
        ("id", s(id)),
        ("name", s(name)),
        ("address", s("10.0.0.1")),
        ("kind", s(kind)),
        ("state", s(state)),
    ])
}

fn keys(sections: &[NavSection]) -> Vec<String> {
    sections.iter().map(|s| s.item.key.clone()).collect()
}

fn pve(node: &str, storage: &str, shared: bool, status: &str, disk: u64, maxdisk: u64) -> StorageResource {
    StorageResource::Pve(PveStorage {
        node: node.into(),
        storage: storage.into(),
        shared,
        status: status.into(),
        disk,
        maxdisk,
    })
}

fn names(entries: &[StorageEntry]) -> Vec<String> {
    entries.iter().map(|e| format!("{}/{}", e.remote, e.name)).collect()
}

// ---------------------------------------------------------------------------
// Domains page
// ---------------------------------------------------------------------------

#[test]
fn panel_checks_are_listed_in_display_order() {
    assert_eq!(panel_check(0), ("mail_a", "A"));
    assert_eq!(panel_check(4), ("dmarc", "DMARC"));
    assert_eq!(panel_check(8), ("webmail_tls", "Webmail TLS"));
}

#[test]
fn domain_rows_summarise_the_validation() {
    assert_eq!(row_status(None), "Not checked");
    assert_eq!(row_action(None), RowAction::Validate);
    let healthy = result_with(vec![("mx", true)], vec![("healthy", b(true))]);
    assert_eq!(row_status(Some(&healthy)), "Active · Healthy");
    assert_eq!(row_action(Some(&healthy)), RowAction::Validate);
    assert!(result_healthy(Some(&healthy)));
    let existing = result_with(
        vec![],
        vec![("healthy", b(true)), ("configuration_mode", s("existing"))],
    );
    assert!(existing_mode(Some(&existing)));
    assert_eq!(row_status(Some(&existing)), "Active · Healthy · Existing policy");
    let deciding = result_with(vec![], vec![("decision_required", b(true))]);
    assert!(decision_required(Some(&deciding)));
    assert_eq!(row_status(Some(&deciding)), "Existing configuration · Decision required");
    assert_eq!(row_action(Some(&deciding)), RowAction::Decide);
    let partial = result_with(vec![("mx", true), ("spf", false), ("dkim", true), ("other", true)], vec![]);
    assert_eq!(configured_count(Some(&partial)), 2);
    assert_eq!(row_status(Some(&partial)), "Incomplete · 2/9 configured");
    assert_eq!(row_action(Some(&partial)), RowAction::Fix);
    assert_eq!(check_ok(Some(&partial), "spf"), Some(false));
    assert_eq!(check_ok(Some(&partial), "dmarc"), None);
    assert_eq!(check_ok(None, "mx"), None);
}

#[test]
fn adopted_checks_and_existing_records_are_reported() {
    let r = obj(vec![
        ("checks", obj(vec![("mx", obj(vec![("adopted", b(true))]))])),
        (
            "existing_configuration",
            obj(vec![("records", obj(vec![("spf", b(true)), ("mx", b(true)), ("dkim", b(true))]))]),
        ),
    ]);
    assert!(check_adopted(Some(&r), "mx"));
    assert!(!check_adopted(Some(&r), "spf"));
    assert_eq!(existing_record_labels(Some(&r)), "DKIM, MX, SPF");
    assert_eq!(existing_record_labels(None), "");
    assert_eq!(
        decision_note("DKIM, MX"),
        "Found existing configuration: DKIM, MX. Keep it, or migrate to the Nexus standard."
    );
    assert_eq!(
        decision_note(""),
        "Found existing configuration. Keep it, or migrate to the Nexus standard."
    );
}

#[test]
fn domain_action_messages() {
    assert_eq!(validate_label(true, true), "Checking…");
    assert_eq!(validate_label(false, true), "Revalidate");
    assert_eq!(validate_label(false, false), "Validate");
    let ok = obj(vec![("validation", obj(vec![("healthy", b(true))]))]);
    assert!(response_healthy(&ok));
    assert!(!response_healthy(&obj(vec![])));
    assert_eq!(reconcile_message(true), "Configuration reconciled and validated successfully.");
    assert_eq!(
        migration_message(false),
        "Migration completed, but live validation still needs attention."
    );
    assert_eq!(setup_message(true), "Setup completed and validated.");
    assert_eq!(action_failure("boom"), "Action stopped safely: boom");
    let f = failed_validation("down".into());
    assert_eq!(f.get_bool("healthy"), Some(false));
    assert_eq!(text(&f, "error"), Some("down"));
}

#[test]
fn onboarding_requests_normalise_the_input() {
    let r = onboarding_request("  Example.COM ", " admin ", true).unwrap();
    assert_eq!(text(&r, "domain"), Some("example.com"));
    assert_eq!(text(&r, "hestia_user"), Some("admin"));
    assert_eq!(r.get_bool("replace_existing"), Some(true));
    assert_eq!(onboarding_request("   ", "admin", false).unwrap_err(), "Enter a domain first.");
}

#[test]
fn inventory_defaults_and_counts() {
    let inv = obj(vec![
        ("defaults", obj(vec![("hestia_user", s("admin")), ("port", JsonValue::Number(JsonNumber::PosInt(1)))])),
        ("domains", JsonValue::Array(vec![obj(vec![]), obj(vec![])])),
    ]);
    assert_eq!(default_text(&inv, "hestia_user"), "admin");
    assert_eq!(default_text(&inv, "port"), "—");
    assert_eq!(default_text(&inv, "missing"), "—");
    assert_eq!(managed_count(&inv), 2);
    assert_eq!(managed_count(&JsonValue::Null), 0);
}

// ---------------------------------------------------------------------------
// Monitoring page
// ---------------------------------------------------------------------------

#[test]
fn device_filters_match_in_lower_case() {
    let d = device("switch-01", "Core Switch", "switch", "enabled");
    assert!(device_matches(&d, "", "", "", ""));
    assert!(device_matches(&d, " CORE ", "", "", ""));
    assert!(device_matches(&d, "10.0.0", "Swi", "home", "enab"));
    assert!(!device_matches(&d, "router", "", "", ""));
    assert!(!device_matches(&d, "", "", "office", ""));
    assert!(!device_matches(&d, "", "", "", "maintenance"));
    let devices = vec![d.duplicate(), device("tv-01", "TV", "tv", "maintenance")];
    let shown = filter_devices(&devices, "", "", "", "maint");
    assert_eq!(shown.len(), 1);
    assert_eq!(text(&shown[0], "id"), Some("tv-01"));
}

#[test]
fn device_counts_per_state_and_probe() {
    let devices = vec![
        device("a", "A", "k", "enabled"),
        device("b", "B", "k", "maintenance"),
        device("c", "C", "k", "disabled"),
        device("d", "D", "k", "enabled"),
    ];
    let probes = vec![
        obj(vec![("reachable", b(true))]),
        obj(vec![("reachable", b(false))]),
        obj(vec![]),
    ];
    let c = device_counts(&devices, &probes);
    assert_eq!((c.enabled, c.maintenance, c.disabled, c.down), (2, 1, 1, 2));
    let view = obj(vec![("inventory", obj(vec![("devices", JsonValue::Array(devices))]))]);
    assert_eq!(devices_of_view(Some(&view)).len(), 4);
    assert!(devices_of_view(None).is_empty());
}

#[test]
fn add_device_form_requests() {
    let r = add_device_request(" Switch ", " 10.0.0.1 ", " switch ", " home ").unwrap();
    assert_eq!(text(&r, "name"), Some("Switch"));
    assert_eq!(text(&r, "address"), Some("10.0.0.1"));
    assert_eq!(text(&r, "site"), Some("home"));
    assert_eq!(text(&r, "state"), Some("enabled"));
    assert_eq!(
        add_device_request("x", " ", "k", "home").unwrap_err(),
        "Name, IP/hostname and type are required."
    );
}

#[test]
fn state_changes_keep_the_device_fields() {
    let d = obj(vec![("name", s("TV")), ("address", s("10.0.0.6"))]);
    let r = state_change_request(&d, "maintenance");
    assert_eq!(text(&r, "kind"), Some("device"));
    assert_eq!(text(&r, "site"), Some("home"));
    assert_eq!(text(&r, "state"), Some("maintenance"));
    assert_eq!(
        state_change_message("maintenance", Ok(obj(vec![]))).unwrap(),
        "Device monitoring set to maintenance."
    );
    let failed = obj(vec![("signoz_maintenance", obj(vec![("downtime_error", s("offline"))]))]);
    assert_eq!(
        state_change_message("maintenance", Ok(failed)).unwrap_err(),
        "Device monitoring set to maintenance, but SigNoz maintenance sync failed: offline"
    );
    assert_eq!(state_change_message("x", Err("e".into())).unwrap_err(), "e");
    assert_eq!(
        device_saved_message(Ok(obj(vec![]))).unwrap(),
        "Device saved and monitoring reconciled."
    );
    let failed = obj(vec![("reconcile", obj(vec![("error", s("boom"))]))]);
    assert_eq!(
        device_saved_message(Ok(failed)).unwrap_err(),
        "Device saved, but probe reconciliation failed: boom"
    );
}

#[test]
fn monitoring_labels() {
    assert_eq!(state_badge("enabled"), ("enabled", "fa fa-circle", "Monitored"));
    assert_eq!(state_badge("maintenance"), ("maintenance", "fa fa-wrench", "Maintenance"));
    assert_eq!(state_badge("weird"), ("disabled", "fa fa-pause-circle", "Disabled"));
    assert_eq!(collector_line(true, 3), "Collector: Running · 3 devices");
    assert_eq!(collector_line(false, 0), "Collector: Stopped · 0 devices");
    assert_eq!(list_notice(0, 0), Some("No devices yet. Use Add device to create the first target."));
    assert_eq!(list_notice(2, 0), Some("No devices match the current filters."));
    assert_eq!(list_notice(2, 1), None);
    assert_eq!(probe_label(Some(true)), "Reachable now");
    assert_eq!(probe_label(Some(false)), "Unreachable now");
    assert_eq!(probe_label(None), "Not tested");
    let view = obj(vec![("probe_engine", obj(vec![("service_active", b(true))]))]);
    assert!(engine_flag(Some(&view), "service_active"));
    assert!(!engine_flag(Some(&view), "blackbox_active"));
    assert!(!engine_flag(None, "service_active"));
}

#[test]
fn signoz_panel_reads_the_status_summary() {
    let st = obj(vec![
        ("connected", b(true)),
        ("configured", b(true)),
        ("url", s("http://s")),
        ("rule_count", JsonValue::Number(JsonNumber::PosInt(4))),
    ]);
    let p = signoz_panel(Some(&st));
    assert!(p.connected && p.configured);
    assert_eq!(p.url, "http://s");
    assert_eq!(p.rule_count, Some(4));
    let p = signoz_panel(None);
    assert!(!p.connected && !p.configured);
    assert_eq!(p.url, DEFAULT_SIGNOZ_URL);
    assert_eq!(p.rule_count, None);
}

// ---------------------------------------------------------------------------
// Navigation
// ---------------------------------------------------------------------------

#[test]
fn routes_name_saved_views() {
    assert_eq!(route_view("view-ops"), Some("ops".to_string()));
    assert_eq!(route_view("view-a-b"), Some("a-b".to_string()));
    assert_eq!(route_view("remote-pve"), None);
    assert_eq!(route_view("view"), None);
    assert_eq!(route_view("views-x"), None);
}

#[test]
fn navigation_lists_remotes_views_and_settings() {
    let pve = vec!["pve1".to_string(), "pve2".to_string()];
    let menu = navigation(&pve, &vec![], false, &vec!["ops".to_string()], &Some("adhoc".to_string()), false);
    assert_eq!(
        keys(&menu),
        vec!["dashboard", "guests", "infrastructure", "networking", "ceph", "views", "settings"]
    );
    let infra = &menu[2];
    assert_eq!(infra.item.icon, "fa fa-server");
    let infra_keys: Vec<&str> = infra.children.iter().map(|c| c.key.as_str()).collect();
    assert_eq!(infra_keys, vec!["remotes", "remote-pve1", "remote-pve2"]);
    let view_keys: Vec<&str> = menu[5].children.iter().map(|c| c.key.as_str()).collect();
    assert_eq!(view_keys, vec!["view-ops", "view-adhoc"]);
    assert!(!menu[6].children.iter().any(|c| c.key == "notes"));

    let menu = navigation(&pve, &vec!["pbs1".to_string()], true, &vec!["ops".to_string()], &Some("ops".to_string()), true);
    assert_eq!(menu[2].item.icon, "fa fa-refresh fa-spin");
    assert_eq!(menu[3].item.key, "backups");
    assert_eq!(menu[3].children[0].key, "remote-pbs1");
    assert_eq!(menu[6].children.len(), 1);
    assert!(menu[7].children.iter().any(|c| c.key == "notes"));
}

#[test]
fn top_bar_labels() {
    assert_eq!(engine_label(Some(("1.0".into(), "3".into()))), "PDM 1.0.3");
    assert_eq!(engine_label(None), "PDM engine");
    assert_eq!(task_base_url(Some(("pve".into(), "r1".into()))), "/pve/remotes/r1/tasks");
    assert_eq!(task_base_url(None), "/nodes/localhost/tasks");
}

// ---------------------------------------------------------------------------
// Guests and dashboard
// ---------------------------------------------------------------------------

#[test]
fn guest_actions_fit_the_guest() {
    assert_eq!(primary_action(true, true, "running", true), None);
    assert_eq!(primary_action(false, true, "paused", true), Some(GuestAction::Resume));
    assert_eq!(primary_action(false, false, "paused", true), Some(GuestAction::Shutdown));
    assert_eq!(primary_action(false, true, "stopped", false), Some(GuestAction::Start));
    let m = guest_menu(false, true, "running", true);
    assert!(!m.shutdown_disabled && m.power_disabled && !m.migrate_disabled);
    assert_eq!(m.power, GuestAction::Start);
    let m = guest_menu(true, true, "suspended", false);
    assert_eq!(m.power, GuestAction::Resume);
    assert!(m.power_disabled && m.shutdown_disabled && m.migrate_disabled);
    let c = classic_buttons(false, true, "prelaunch", true);
    assert_eq!(c.power, Some((GuestAction::Resume, false)));
    assert_eq!(c.shutdown_disabled, Some(false));
    assert!(c.migrate);
    let c = classic_buttons(true, false, "stopped", false);
    assert_eq!(c.power, None);
    assert_eq!(c.shutdown_disabled, None);
    assert!(!c.migrate);
}

#[test]
fn guest_calls_and_task_urls() {
    assert_eq!(guest_call(GuestKind::Qemu, GuestAction::Resume), Some(GuestCall::QemuResume));
    assert_eq!(guest_call(GuestKind::Lxc, GuestAction::Shutdown), Some(GuestCall::LxcShutdown));
    assert_eq!(guest_call(GuestKind::Lxc, GuestAction::Resume), None);
    assert_eq!(guest_task_url("r1"), "/pve/remotes/r1/tasks");
}

#[test]
fn dashboard_totals_and_lines() {
    let t = dashboard_totals(&counts());
    assert_eq!(t.pve_nodes, 3);
    assert_eq!(t.qemu, 7);
    assert_eq!(t.lxc, 4);
    assert_eq!(t.pbs_nodes, 2);
    assert_eq!(t.datastores, 3);
    assert_eq!(t.attention, 1 + 1 + 0 + 0 + 1 + 1 + 2);
    assert_eq!(t.pve_issues, 1);
    assert_eq!(t.pbs_issues, 1);
    assert_eq!(t.datastore_issues, 1);
    assert_eq!(t.datastore_warnings, 3);
    assert_eq!(t.remotes_available, 2);
    assert_eq!(issues_text(0), "No issues");
    assert_eq!(issues_text(3), "3 issues");
    assert_eq!(attention_text(6, 1), "1 failed remotes · 5 infrastructure issues");
    assert_eq!(attention_text(0, 2), "2 failed remotes · 0 infrastructure issues");
    let g = guest_summary(&counts());
    assert_eq!((g.vms, g.containers, g.total, g.running, g.stopped), (7, 4, 11, 7, 3));
    assert_eq!(g.running_percent, 63);
}

#[test]
fn guests_are_loaded_by_position() {
    let remotes = vec![
        RemoteGuests { failed: false, is_guest: vec![true, false, true] },
        RemoteGuests { failed: true, is_guest: vec![] },
        RemoteGuests { failed: false, is_guest: vec![false, true] },
    ];
    let (guests, failed) = load_guests(&remotes);
    assert_eq!(guests, vec![(0, 0), (0, 2), (2, 1)]);
    assert_eq!(failed, vec![1]);
}

// ---------------------------------------------------------------------------
// Storage page
// ---------------------------------------------------------------------------

#[test]
fn shared_storage_is_shown_once_and_rows_are_ordered() {
    let remotes = vec![
        RemoteStorage {
            remote: "b".into(),
            error: None,
            resources: vec![
                pve("n2", "local", false, "available", 1, 10),
                pve("n1", "ceph", true, "unknown", 5, 100),
                pve("n2", "ceph", true, "available", 7, 90),
                pve("n1", "local", false, "available", 2, 10),
                StorageResource::Other,
            ],
        },
        RemoteStorage {
            remote: "a".into(),
            error: Some("offline".into()),
            resources: vec![StorageResource::Pbs(PbsDatastore {
                name: "store1".into(),
                backing_device: None,
                backend_type: None,
                in_maintenance: true,
                disk: 3,
                maxdisk: 30,
            })],
        },
    ];
    let (pve_rows, pbs_rows, errors) = split_storage(&remotes);
    assert_eq!(names(&pve_rows), vec!["b/local", "b/local", "b/ceph"]);
    let ceph = &pve_rows[2];
    assert_eq!(ceph.location, "Shared cluster storage");
    assert_eq!(ceph.kind, "Shared");
    assert_eq!((ceph.used, ceph.total), (7, 100));
    assert_eq!(ceph.status, "available");
    assert_eq!(pve_rows[0].location, "n1");
    assert_eq!(pbs_rows.len(), 1);
    assert_eq!(pbs_rows[0].status, "maintenance");
    assert_eq!(pbs_rows[0].location, "PBS datastore");
    assert_eq!(pbs_rows[0].kind, "Datastore");
    assert_eq!(errors, vec!["a: offline".to_string()]);

    let totals = tier_totals(&pve_rows);
    assert_eq!((totals.total, totals.used, totals.free), (120, 10, 110));
    assert_eq!(tier_labels(true), ("Configured capacity", "Reported used", "Reported free"));
    assert_eq!(tier_labels(false), ("Capacity", "Used", "Free"));
    assert_eq!(status_class(" Online "), "ok");
    assert_eq!(status_class("degraded"), "warning");
}

fn row(remote: &str, name: &str, vmid: u32, tags: &[&str]) -> GuestRow {
    GuestRow {
        remote: remote.into(),
        name: name.into(),
        vmid,
        status: "running".into(),
        type_text: "qemu".into(),
        node: "pve1".into(),
        tags: tags.iter().map(|t| t.to_string()).collect(),
    }
}

fn term(category: Option<&str>, value: &str) -> FilterTerm {
    FilterTerm { category: category.map(|c| c.to_string()), value: value.to_string() }
}

#[test]
fn guest_filters_narrow_by_every_term() {
    let g = row("Lab", "Web-01", 105, &["Prod", "edge"]);
    assert!(guest_matches(&g, &vec![]));
    assert!(free_text_match(&g, "web"));
    assert!(free_text_match(&g, "10"));
    assert!(free_text_match(&g, "prod"));
    assert!(!free_text_match(&g, "db"));
    assert!(term_matches(&g, &term(Some("tag"), "edg")));
    assert!(!term_matches(&g, &term(Some("tag"), "web")));
    assert!(term_matches(&g, &term(Some("remote"), "lab")));
    assert!(term_matches(&g, &term(Some("node"), "pve")));
    assert!(term_matches(&g, &term(Some("status"), "run")));
    assert!(term_matches(&g, &term(Some("type"), "qemu")));
    assert!(term_matches(&g, &term(Some("unknown"), "web")));
    assert!(guest_matches(&g, &vec![term(None, "web"), term(Some("tag"), "prod")]));
    assert!(!guest_matches(&g, &vec![term(None, "web"), term(Some("remote"), "other")]));
    assert_eq!(
        failed_remotes_text(&vec!["a".to_string(), "b".to_string()]),
        "Could not query some remotes: a, b"
    );
}

#[test]
fn tree_groups_guests_by_remote_and_vmid() {
    let rows = vec![
        row("b", "x", 200, &[]),
        row("a", "y", 300, &[]),
        row("b", "z", 100, &[]),
        row("b", "w", 200, &[]),
        row("a", "v", 101, &[]),
    ];
    let groups = guest_groups(&rows);
    let shape: Vec<(&str, Vec<usize>)> = groups.iter().map(|(r, m)| (r.as_str(), m.clone())).collect();
    assert_eq!(shape, vec![("a", vec![4, 1]), ("b", vec![2, 0, 3])]);
    assert!(guest_groups(&vec![]).is_empty());
}

#[test]
fn guest_drawer_shows_type_id_and_uptime() {
    let g = row("lab", "web", 105, &["prod"]);
    let s = guest_selection(&g, GuestKind::Qemu, 0, "3h 2m".into(), None);
    assert_eq!((s.name.as_str(), s.id.as_str(), s.guest_type.as_str()), ("web", "105", "Virtual Machine"));
    assert_eq!(s.uptime, "-");
    assert_eq!(s.tags, vec!["prod".to_string()]);
    let s = guest_selection(&g, GuestKind::Lxc, 10920, "3h 2m".into(), Some("https://pve/".into()));
    assert_eq!(s.guest_type, "Linux Container");
    assert_eq!(s.uptime, "3h 2m");
    assert_eq!(s.pve_url.as_deref(), Some("https://pve/"));
    assert_eq!((s.status.as_str(), s.remote.as_str(), s.node.as_str()), ("running", "lab", "pve1"));
}
