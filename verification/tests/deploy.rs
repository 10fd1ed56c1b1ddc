use nexus::deploy::{
    content_path, create_path, lxc_params, qemu_params, validate_common, DeployError,
};
use nexus::deploy_form::{
    form_request, form_targets, next_id_request, parse_unsigned, DeployForm, StorageTarget,
};
use nexus::deployments::{
    combine_tasks, json_display, selected_or_first, task_from_value, Shown, MAX_TASKS,
};
use nexus::discovery::{discover_targets, InfraResource, RemoteResources};
use nexus::json::{JsonNumber, JsonValue};

fn s(t: &str) -> JsonValue {
    JsonValue::Str(t.to_string())
}

fn obj(fields: Vec<(&str, JsonValue)>) -> JsonValue {
    JsonValue::Object(fields.into_iter().map(|(k, v)| (k.to_string(), v)).collect())
}

fn shown_text(s: Shown) -> Option<String> {
    match s {
        Shown::Text(t) => Some(t),
        Shown::Json => None,
    }
}

fn form(workload: &str) -> DeployForm {
    DeployForm {
        workload: workload.to_string(),
        vmid: "101".to_string(),
        name: "web".to_string(),
        cores: "2".to_string(),
        memory: "2048".to_string(),
        disk: "32".to_string(),
        bridge: "vmbr0".to_string(),
        source: String::new(),
        password: String::new(),
        start: true,
    }
}

fn task(kind: &str, id: JsonValue) -> JsonValue {
    obj(vec![
        ("type", s(kind)),
        ("node", s("pve1")),
        ("id", id),
        ("upid", s("UPID:x")),
    ])
}

#[test]
fn common_checks_come_in_order() {
    assert_eq!(validate_common(0, 0, 0, "", ""), Err(DeployError::NoCores));
    assert_eq!(validate_common(1, 63, 0, "", ""), Err(DeployError::TooLittleMemory));
    assert_eq!(validate_common(1, 64, 0, "", ""), Err(DeployError::NoDisk));
    assert_eq!(validate_common(1, 64, 1, "  ", ""), Err(DeployError::MissingStorage));
    assert_eq!(validate_common(1, 64, 1, "local", " "), Err(DeployError::MissingBridge));
    assert_eq!(validate_common(1, 64, 1, "local", "vmbr0"), Ok(()));
    assert_eq!(DeployError::TooLittleMemory.message(), "memory must be at least 64 MiB");
}

#[test]
fn qemu_parameters_use_virtio() {
    let p = qemu_params(
        100,
        Some("  ".into()),
        2,
        2048,
        " local-lvm ",
        32,
        " vmbr0 ",
        Some(" local:iso/debian.iso ".into()),
        true,
    )
    .unwrap();
    assert_eq!(p.vmid, 100);
    assert_eq!(p.name, None);
    assert_eq!(p.scsihw, "virtio-scsi-pci");
    assert_eq!(p.scsi0, "local-lvm:32");
    assert_eq!(p.net0, "virtio,bridge=vmbr0");
    assert_eq!(p.ide2.as_deref(), Some("local:iso/debian.iso,media=cdrom"));
    assert!(p.start);
    let p = qemu_params(100, Some("vm".into()), 1, 64, "s", 1, "b", None, false).unwrap();
    assert_eq!(p.name.as_deref(), Some("vm"));
    assert_eq!(p.ide2, None);
    assert!(matches!(
        qemu_params(100, None, 1, 32, "s", 1, "b", None, false),
        Err(DeployError::TooLittleMemory)
    ));
}

#[test]
fn lxc_parameters_are_unprivileged_with_dhcp() {
    let p = lxc_params(
        200,
        " ct1 ",
        " local:vztmpl/debian.tar.zst ",
        1,
        512,
        "local",
        8,
        "vmbr1",
        Some(String::new()),
        false,
    )
    .unwrap();
    assert_eq!(p.hostname, "ct1");
    assert_eq!(p.ostemplate, "local:vztmpl/debian.tar.zst");
    assert_eq!(p.rootfs, "local:8");
    assert_eq!(p.net0, "name=eth0,bridge=vmbr1,ip=dhcp");
    assert!(p.unprivileged);
    assert_eq!(p.password, None);
    let p = lxc_params(200, "h", "t", 1, 512, "local", 8, "vmbr1", Some("pw".into()), true).unwrap();
    assert_eq!(p.password.as_deref(), Some("pw"));
    assert_eq!(
        lxc_params(200, " ", "t", 1, 512, "local", 8, "vmbr1", None, true).err(),
        Some(DeployError::MissingHostname)
    );
    assert_eq!(
        lxc_params(200, "h", "", 1, 512, "local", 8, "vmbr1", None, true).err(),
        Some(DeployError::MissingTemplate)
    );
    assert_eq!(
        lxc_params(200, "", "", 0, 512, "local", 8, "vmbr1", None, true).err(),
        Some(DeployError::NoCores)
    );
}

#[test]
fn api_paths() {
    assert_eq!(create_path("pve1", "qemu"), "/api2/extjs/nodes/pve1/qemu");
    assert_eq!(content_path("pve1", "local"), "/api2/extjs/nodes/pve1/storage/local/content");
}

#[test]
fn unsigned_numbers_read_like_str_parse() {
    assert_eq!(parse_unsigned("42", u64::MAX), Some(42));
    assert_eq!(parse_unsigned("+7", u64::MAX), Some(7));
    assert_eq!(parse_unsigned("007", u64::MAX), Some(7));
    assert_eq!(parse_unsigned("", u64::MAX), None);
    assert_eq!(parse_unsigned("+", u64::MAX), None);
    assert_eq!(parse_unsigned(" 1", u64::MAX), None);
    assert_eq!(parse_unsigned("-1", u64::MAX), None);
    assert_eq!(parse_unsigned("4294967295", 0xffff_ffff), Some(4294967295));
    assert_eq!(parse_unsigned("4294967296", 0xffff_ffff), None);
    assert_eq!(parse_unsigned("18446744073709551615", u64::MAX), Some(u64::MAX));
    assert_eq!(parse_unsigned("18446744073709551616", u64::MAX), None);
    for t in ["0", "12", "+3", "x", "99999999999999999999"] {
        assert_eq!(parse_unsigned(t, u64::MAX), t.parse::<u64>().ok());
    }
}

#[test]
fn form_requests_for_both_workloads() {
    let (url, payload) = form_request(&form("qemu"), "pve", "n1", "local").unwrap();
    assert_eq!(url, "/pve/remotes/pve/deploy/qemu");
    assert_eq!(payload.get("vmid"), Some(&JsonValue::Number(JsonNumber::PosInt(101))));
    assert_eq!(payload.get("iso"), Some(&JsonValue::Null));
    assert_eq!(payload.get_str("name").map(|x| x.as_str()), Some("web"));
    assert_eq!(payload.get_bool("start"), Some(true));

    let mut f = form("lxc");
    assert_eq!(
        form_request(&f, "pve", "n1", "local").unwrap_err(),
        "An LXC OS template volume is required."
    );
    f.source = "local:vztmpl/a.tar".into();
    f.password = "pw".into();
    let (url, payload) = form_request(&f, "pve", "n1", "local").unwrap();
    assert_eq!(url, "/pve/remotes/pve/deploy/lxc");
    assert_eq!(payload.get_str("hostname").map(|x| x.as_str()), Some("web"));
    assert_eq!(payload.get_str("password").map(|x| x.as_str()), Some("pw"));
    assert_eq!(payload.get("disk-gb"), Some(&JsonValue::Number(JsonNumber::PosInt(32))));
}

#[test]
fn form_refusals_come_in_order() {
    let mut f = form("qemu");
    f.vmid = "4294967296".into();
    f.cores = "x".into();
    assert_eq!(form_request(&f, "", "", "").unwrap_err(), "VMID must be a number.");
    f.vmid = "100".into();
    assert_eq!(form_request(&f, "", "", "").unwrap_err(), "Cores must be a number.");
    f.cores = "1".into();
    f.memory = "".into();
    assert_eq!(form_request(&f, "", "", "").unwrap_err(), "Memory must be a number.");
    f.memory = "64".into();
    f.disk = "-1".into();
    assert_eq!(form_request(&f, "", "", "").unwrap_err(), "Disk size must be a number.");
    f.disk = "1".into();
    assert_eq!(
        form_request(&f, "pve", "", "local").unwrap_err(),
        "Remote, node and storage are required."
    );
    f.name = "  ".into();
    assert_eq!(
        form_request(&f, "pve", "n", "local").unwrap_err(),
        "Virtual machine name is required."
    );
    f.workload = "lxc".into();
    assert_eq!(
        form_request(&f, "pve", "n", "local").unwrap_err(),
        "Container hostname is required."
    );
}

#[test]
fn form_targets_fall_back_to_the_first_candidates() {
    let targets = vec![
        ("a".to_string(), "a1".to_string()),
        ("b".to_string(), "b1".to_string()),
        ("b".to_string(), "b2".to_string()),
    ];
    let storages = vec![
        StorageTarget { remote: "b".into(), node: "b1".into(), storage: "local-b1".into(), shared: false },
        StorageTarget { remote: "b".into(), node: "b2".into(), storage: "local-b2".into(), shared: false },
        StorageTarget { remote: "a".into(), node: "x".into(), storage: "ceph".into(), shared: true },
    ];
    assert_eq!(
        form_targets("", "", "", &targets, &storages),
        ("a".to_string(), "a1".to_string(), "ceph".to_string())
    );
    assert_eq!(
        form_targets("b", "b2", "", &targets, &storages),
        ("b".to_string(), "b2".to_string(), "local-b2".to_string())
    );
    assert_eq!(
        form_targets("c", "", "", &targets, &storages),
        ("c".to_string(), String::new(), String::new())
    );
    assert_eq!(
        form_targets("", "", "", &vec![], &vec![]),
        (String::new(), String::new(), String::new())
    );
}

#[test]
fn next_id_needs_a_remote() {
    assert_eq!(next_id_request("").unwrap_err(), "Select a PVE remote first.");
    assert_eq!(next_id_request("pve").unwrap(), "/pve/remotes/pve/cluster-nextid");
}

#[test]
fn json_values_are_shown_as_text() {
    assert_eq!(shown_text(json_display(None)).as_deref(), Some("—"));
    assert_eq!(shown_text(json_display(Some(&JsonValue::Null))).as_deref(), Some("—"));
    assert_eq!(shown_text(json_display(Some(&s("x")))).as_deref(), Some("x"));
    assert_eq!(
        shown_text(json_display(Some(&JsonValue::Number(JsonNumber::PosInt(105))))).as_deref(),
        Some("105")
    );
    assert_eq!(
        shown_text(json_display(Some(&JsonValue::Number(JsonNumber::NegInt(-3))))).as_deref(),
        Some("-3")
    );
    assert_eq!(
        shown_text(json_display(Some(&JsonValue::Number(JsonNumber::Float("1.5".into()))))).as_deref(),
        Some("1.5")
    );
    assert_eq!(shown_text(json_display(Some(&JsonValue::Bool(true)))).as_deref(), Some("true"));
    assert!(shown_text(json_display(Some(&JsonValue::Array(vec![])))).is_none());
}

#[test]
fn only_guest_creation_tasks_are_deployments() {
    let t = task_from_value("pve", &task("qmcreate", JsonValue::Number(JsonNumber::PosInt(100)))).unwrap();
    assert_eq!(t.remote, "pve");
    assert_eq!(t.node, "pve1");
    assert_eq!(t.kind, "qmcreate");
    assert_eq!(shown_text(t.id).as_deref(), Some("100"));
    assert_eq!(t.status, "Running");
    assert_eq!(t.upid, "UPID:x");
    assert!(task_from_value("pve", &task("vzdump", s("1"))).is_none());
    assert!(task_from_value("pve", &obj(vec![])).is_none());
    for kind in ["vzcreate", "qmclone", "vzclone"] {
        assert!(task_from_value("pve", &task(kind, s("1"))).is_some());
    }
}

#[test]
fn task_lists_are_combined_and_capped() {
    let many: Vec<JsonValue> = (0..40).map(|i| task("qmcreate", JsonValue::Number(JsonNumber::PosInt(i)))).collect();
    let results = vec![
        ("a".to_string(), Ok(many)),
        ("b".to_string(), Err("offline".to_string())),
    ];
    let tasks = combine_tasks(&results).unwrap();
    assert_eq!(tasks.len(), MAX_TASKS);
    assert_eq!(shown_text(tasks.into_iter().last().unwrap().id).as_deref(), Some("29"));
    let failures = vec![
        ("a".to_string(), Err("down".to_string())),
        ("b".to_string(), Ok(vec![task("vzdump", s("1"))])),
        ("c".to_string(), Err("timeout".to_string())),
    ];
    assert_eq!(combine_tasks(&failures).err().unwrap(), "a: down · c: timeout");
    let none: Vec<(String, Result<Vec<JsonValue>, String>)> = vec![];
    assert!(combine_tasks(&none).unwrap().is_empty());
}

#[test]
fn selection_defaults_to_the_first_value() {
    let values = vec!["x".to_string(), "y".to_string()];
    assert_eq!(selected_or_first("y", &values), "y");
    assert_eq!(selected_or_first("", &values), "x");
    assert_eq!(selected_or_first("", &vec![]), "");
}

fn node(n: &str) -> InfraResource {
    InfraResource::PveNode { node: n.to_string() }
}

fn storage(n: &str, s: &str, status: &str, shared: bool) -> InfraResource {
    InfraResource::PveStorage {
        node: n.to_string(),
        storage: s.to_string(),
        status: status.to_string(),
        shared,
    }
}

#[test]
fn deployment_targets_are_listed_once_in_order() {
    let remotes = vec![
        RemoteResources {
            remote: "pve-b".into(),
            resources: vec![
                node("n2"),
                node("n1"),
                storage("n1", "local", "Available", false),
                storage("n1", "local", "available", true),
                storage("n1", "backup", "unknown", false),
                InfraResource::Other,
            ],
        },
        RemoteResources {
            remote: "pve-a".into(),
            resources: vec![node("n9"), node("n9"), storage("n9", "ceph", "available", true)],
        },
    ];
    let (targets, storages) = discover_targets(&remotes);
    let pairs: Vec<(&str, &str)> = targets.iter().map(|(r, n)| (r.as_str(), n.as_str())).collect();
    assert_eq!(pairs, vec![("pve-a", "n9"), ("pve-b", "n1"), ("pve-b", "n2")]);
    let listed: Vec<(String, String, String, bool)> = storages
        .iter()
        .map(|s| (s.remote.clone(), s.node.clone(), s.storage.clone(), s.shared))
        .collect();
    assert_eq!(
        listed,
        vec![
            ("pve-a".to_string(), "n9".to_string(), "ceph".to_string(), true),
            ("pve-b".to_string(), "n1".to_string(), "local".to_string(), false),
        ]
    );
    let (t, s) = discover_targets(&vec![]);
    assert!(t.is_empty() && s.is_empty());
}
