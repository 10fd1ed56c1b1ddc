use nexus::dns_checks::{
    adopted_dns_snapshots, canonical_dns_lines, mx_points_only_to, record_fingerprint,
    txt_prefix_count,
};
use nexus::domain_inventory::{
    default_inventory, find_domain_entry, persist_adopted_domain, persist_mail_domain,
    upsert_mail_domain,
};
use nexus::domain_names::{
    normalize_domain, normalize_domain_leniently, validate_hestia_user, DomainError,
};
use nexus::domain_policy::{
    apply_existing_policy, classify_validation, judge_domain, validation_outcome,
};
use nexus::domain_probe::{
    dig_value, openssl_arguments, probes_from_outputs, validation_result, DomainProbes, ProbeOutputs,
};
use nexus::json::{JsonNumber, JsonValue};
use nexus::onboarding::{
    audit_line, command_text, helper_exit_code_is_retryable, helper_failure_detail,
    next_helper_step, onboarding_action, onboarding_user, HelperRun, HelperStep,
};

fn s(t: &str) -> JsonValue {
    JsonValue::Str(t.to_string())
}

fn obj(fields: Vec<(&str, JsonValue)>) -> JsonValue {
    JsonValue::Object(fields.into_iter().map(|(k, v)| (k.to_string(), v)).collect())
}

fn flag_at(v: &JsonValue, path: &[&str]) -> Option<bool> {
    let mut cur = v;
    for key in path {
        cur = cur.get(key)?;
    }
    cur.as_bool()
}

fn text_at<'a>(v: &'a JsonValue, path: &[&str]) -> Option<&'a str> {
    let mut cur = v;
    for key in path {
        cur = cur.get(key)?;
    }
    cur.as_str().map(|x| x.as_str())
}

#[test]
fn domain_and_hestia_user_validation_rejects_shell_like_input() {
    assert_eq!(normalize_domain("Example.COM.").unwrap(), "example.com");
    assert!(normalize_domain("example.com;id").is_err());
    assert!(normalize_domain("-bad.example").is_err());
    assert!(normalize_domain("localhost").is_err());
    assert!(validate_hestia_user("admin").is_ok());
    assert!(validate_hestia_user("ops-user_1").is_ok());
    assert!(validate_hestia_user("admin';id").is_err());
    assert!(validate_hestia_user(" bad").is_err());
}

#[test]
fn retry_policy_keeps_configuration_conflicts_fail_closed() {
    assert!(helper_exit_code_is_retryable(Some(1)));
    assert!(helper_exit_code_is_retryable(None));
    assert!(!helper_exit_code_is_retryable(Some(3)));
    assert!(!helper_exit_code_is_retryable(Some(5)));
    assert!(!helper_exit_code_is_retryable(Some(42)));
    assert!(!helper_exit_code_is_retryable(Some(43)));
}

#[test]
fn domains_bootstrap_inventory_enforces_mail_policy() {
    let inventory = default_inventory();
    assert_eq!(flag_at(&inventory, &["policy", "forbid_mail_proxy"]), Some(true));
    assert_eq!(flag_at(&inventory, &["policy", "forbid_webmail_ddns"]), Some(true));
}

#[test]
fn domains_bootstrap_inventory_contains_current_managed_domains() {
    let inventory = default_inventory();
    let domains = inventory.get("domains").unwrap().as_array().unwrap();
    assert!(domains.iter().any(|d| text_at(d, &["name"]) == Some("mundoleo.co")));
    assert!(domains.iter().any(|d| text_at(d, &["name"]) == Some("kinpilot.app")));
}

#[test]
fn domains_spf_duplicate_detection_requires_exactly_one_record() {
    let one = obj(vec![("value", s("\"v=spf1 a mx ~all\"\n\"google-site-verification=x\""))]);
    let two = obj(vec![("value", s("\"v=spf1 a mx ~all\"\n\"V=SPF1 ip4:192.0.2.1 ~all\""))]);
    let two_lower = obj(vec![("value", s("\"v=spf1 a mx ~all\"\n\"v=spf1 ip4:192.0.2.1 ~all\""))]);
    assert_eq!(txt_prefix_count(&one, "v=spf1"), 1);
    assert_eq!(txt_prefix_count(&two, "v=spf1"), 2);
    assert_eq!(txt_prefix_count(&two_lower, "v=spf1"), 2);
}

#[test]
fn mx_validation_requires_one_exact_target() {
    let good = obj(vec![("value", s("10 mail.example.com."))]);
    let wrong = obj(vec![("value", s("10 mail.example.com.evil.invalid."))]);
    let duplicate = obj(vec![("value", s("10 mail.example.com.\n20 mail.example.com."))]);
    assert!(mx_points_only_to(&good, "mail.example.com"));
    assert!(!mx_points_only_to(&wrong, "mail.example.com"));
    assert!(!mx_points_only_to(&duplicate, "mail.example.com"));
}

fn first_domain_mut(inventory: &mut JsonValue) -> &mut JsonValue {
    match inventory {
        JsonValue::Object(fields) => match &mut fields[0].1 {
            JsonValue::Array(items) => &mut items[0],
            _ => panic!("domains is not an array"),
        },
        _ => panic!("inventory is not an object"),
    }
}

#[test]
fn onboarding_inventory_upsert_is_idempotent_and_clears_adoption() {
    let mut inventory = obj(vec![("domains", JsonValue::Array(vec![]))]);
    assert!(upsert_mail_domain(&mut inventory, "example.com").unwrap());
    {
        let entry = first_domain_mut(&mut inventory);
        entry.assign("configuration_mode", s("existing"));
        entry.assign("adopted_checks", obj(vec![("mx", s("10 external.example."))]));
    }
    assert!(!upsert_mail_domain(&mut inventory, "example.com").unwrap());
    let domains = inventory.get("domains").unwrap().as_array().unwrap();
    assert_eq!(domains.len(), 1);
    assert_eq!(text_at(&domains[0], &["name"]), Some("example.com"));
    assert_eq!(flag_at(&domains[0], &["mail"]), Some(true));
    assert_eq!(flag_at(&domains[0], &["webmail"]), Some(true));
    assert_eq!(flag_at(&domains[0], &["ddns"]), Some(true));
    assert_eq!(flag_at(&domains[0], &["tunnel"]), Some(true));
    assert_eq!(text_at(&domains[0], &["configuration_mode"]), Some("nexus"));
    assert!(domains[0].get("adopted_checks").is_none());
}

#[test]
fn adopted_dns_fingerprint_is_order_independent_and_prefix_scoped() {
    let validation = obj(vec![(
        "checks",
        obj(vec![
            ("mx", obj(vec![("detail", obj(vec![("value", s("20 b.example.\n10 a.example."))]))])),
            (
                "spf",
                obj(vec![(
                    "detail",
                    obj(vec![(
                        "value",
                        s("\"google-site-verification=x\"\n\"v=spf1 include:_spf.example ~all\""),
                    )]),
                )]),
            ),
            ("dkim", obj(vec![("detail", obj(vec![("value", s("\"v=DKIM1; p=abc\""))]))])),
            ("dmarc", obj(vec![("detail", obj(vec![("value", s("\"v=DMARC1; p=none\""))]))])),
        ]),
    )]);
    assert_eq!(
        record_fingerprint(&validation, "mx").as_deref(),
        Some("10 a.example.\n20 b.example.")
    );
    assert_eq!(
        record_fingerprint(&validation, "spf").as_deref(),
        Some("\"v=spf1 include:_spf.example ~all\"")
    );
}

fn check(ok: bool, value: Option<&str>) -> JsonValue {
    let mut fields = vec![("ok", JsonValue::Bool(ok))];
    if let Some(v) = value {
        fields.push(("detail", obj(vec![("value", s(v))])));
    }
    obj(fields)
}

fn nonstandard_result() -> JsonValue {
    obj(vec![
        ("healthy", JsonValue::Bool(false)),
        (
            "checks",
            obj(vec![
                ("mail_a", check(true, None)),
                ("mx", check(false, Some("10 external.example."))),
                ("spf", check(true, Some("\"v=spf1 ~all\""))),
                ("dkim", check(true, Some("\"v=DKIM1; p=abc\""))),
                ("dmarc", check(false, Some("\"v=DMARC1; p=reject\"\n\"v=DMARC1; p=none\""))),
                ("smtp_submission", check(true, None)),
                ("imap_tls", check(true, None)),
                ("webmail_tunnel_dns", check(true, None)),
                ("webmail_tls", check(true, None)),
            ]),
        ),
    ])
}

#[test]
fn existing_policy_can_adopt_nonstandard_records_without_masking_changes() {
    let result = nonstandard_result();
    let snapshots = adopted_dns_snapshots(&result);
    let entry = obj(vec![("configuration_mode", s("existing")), ("adopted_checks", snapshots)]);
    let adopted = apply_existing_policy(result, &entry);
    assert_eq!(flag_at(&adopted, &["healthy"]), Some(true));
    assert_eq!(flag_at(&adopted, &["checks", "mx", "adopted"]), Some(true));
    assert_eq!(flag_at(&adopted, &["checks", "dmarc", "adopted"]), Some(true));
    assert_eq!(flag_at(&adopted, &["decision_required"]), Some(false));
}

#[test]
fn changed_adopted_record_requires_a_decision() {
    let result = nonstandard_result();
    let entry = obj(vec![
        ("configuration_mode", s("existing")),
        ("adopted_checks", obj(vec![("mx", s("10 other.example."))])),
    ]);
    let judged = apply_existing_policy(result, &entry);
    assert_eq!(flag_at(&judged, &["decision_required"]), Some(true));
    assert_eq!(flag_at(&judged, &["checks", "mx", "ok"]), Some(false));
    assert_eq!(flag_at(&judged, &["existing_configuration", "changed"]), Some(true));
}

#[test]
fn canonical_lines_ignore_order_blank_lines_and_padding() {
    let a = vec!["20 b.example.".to_string(), "".to_string(), " 10 a.example. ".to_string()];
    let b = vec!["10 a.example.".to_string(), "20 b.example.".to_string()];
    assert_eq!(canonical_dns_lines(&a), "10 a.example.\n20 b.example.");
    assert_eq!(canonical_dns_lines(&a), canonical_dns_lines(&b));
}

#[test]
fn onboarding_twice_leaves_the_inventory_unchanged() {
    let once = persist_mail_domain(None, "new.example").unwrap();
    let mut twice = once.duplicate();
    assert!(!upsert_mail_domain(&mut twice, "new.example").unwrap());
    assert_eq!(once, twice);
    let entry = find_domain_entry(&once, "new.example").unwrap();
    assert_eq!(text_at(entry, &["configuration_mode"]), Some("nexus"));
}

#[test]
fn adopting_requires_a_listed_domain() {
    let adopted = persist_adopted_domain(None, "kinpilot.app", obj(vec![("mx", s("10 x."))])).unwrap();
    let entry = find_domain_entry(&adopted, "kinpilot.app").unwrap();
    assert_eq!(text_at(entry, &["configuration_mode"]), Some("existing"));
    assert_eq!(text_at(entry, &["adopted_checks", "mx"]), Some("10 x."));
    let missing = persist_adopted_domain(None, "unknown.example", obj(vec![]));
    assert_eq!(missing.unwrap_err(), DomainError::DomainNotInInventory);
    let mut broken = obj(vec![]);
    assert_eq!(upsert_mail_domain(&mut broken, "x.example"), Err(DomainError::MissingDomainsArray));
}

#[test]
fn lenient_domain_normalisation_only_rejects_slashes_spaces_and_empty() {
    assert_eq!(normalize_domain_leniently(" Example.COM.. ").unwrap(), "example.com");
    assert_eq!(normalize_domain_leniently("localhost").unwrap(), "localhost");
    assert!(normalize_domain_leniently("a/b").is_err());
    assert!(normalize_domain_leniently("a b").is_err());
    assert!(normalize_domain_leniently(" ... ").is_err());
}

#[test]
fn helper_runs_are_retried_only_while_attempts_remain() {
    let failed = |code: Option<i32>| HelperRun::Exited {
        success: false,
        code,
        stdout: Vec::new(),
        stderr: b" busy \n".to_vec(),
    };
    match next_helper_step(1, failed(Some(1))) {
        HelperStep::Retry { audit, last_failure } => {
            assert_eq!(last_failure, "busy");
            assert_eq!(audit.as_deref(), Some("attempt 1/3 failed; retrying: busy"));
        }
        other => panic!("unexpected step {other:?}"),
    }
    match next_helper_step(3, failed(Some(1))) {
        HelperStep::Fail { audit, message } => {
            assert_eq!(audit, "failed: busy");
            assert_eq!(message, "domain onboarding failed: busy");
        }
        other => panic!("unexpected step {other:?}"),
    }
    match next_helper_step(1, failed(Some(42))) {
        HelperStep::Fail { .. } => {}
        other => panic!("unexpected step {other:?}"),
    }
    match next_helper_step(2, HelperRun::TimedOut) {
        HelperStep::Retry { audit, last_failure } => {
            assert!(audit.is_none());
            assert_eq!(last_failure, "helper timed out on attempt 2/3");
        }
        other => panic!("unexpected step {other:?}"),
    }
    match next_helper_step(
        2,
        HelperRun::Exited { success: true, code: Some(0), stdout: b" {} ".to_vec(), stderr: vec![] },
    ) {
        HelperStep::Succeeded { output, audit } => {
            assert_eq!(output, "{}");
            assert_eq!(audit.as_deref(), Some("recovered on attempt 2/3"));
        }
        other => panic!("unexpected step {other:?}"),
    }
}

#[test]
fn helper_failures_are_described_from_their_output() {
    assert_eq!(helper_failure_detail(b"out", b" err ", Some(2)), "err");
    assert_eq!(helper_failure_detail(b" out ", b"", Some(2)), "out");
    assert_eq!(
        helper_failure_detail(b"", b"", Some(7)),
        "helper exited with code 7 without diagnostic output"
    );
    assert_eq!(
        helper_failure_detail(b"", b"", None),
        "helper terminated without diagnostic output"
    );
    assert_eq!(command_text("dig", false, b"x", b" boom "), Err("dig failed: boom".to_string()));
    assert_eq!(command_text("dig", true, b" 1.2.3.4 ", b""), Ok("1.2.3.4".to_string()));
    assert_eq!(command_text("dig", true, b"", b" note "), Ok("note".to_string()));
}

#[test]
fn onboarding_choices_follow_the_request() {
    assert_eq!(onboarding_action(Some(true)), "migrate");
    assert_eq!(onboarding_action(None), "onboard");
    assert_eq!(onboarding_user(None).unwrap(), "admin");
    assert!(onboarding_user(Some("bad user".to_string())).is_err());
    assert_eq!(
        audit_line(1700000000, "validate", "example.com", "a\nb\tc"),
        "1700000000\taction=validate\tdomain=example.com\toutcome=a b c\n"
    );
}

fn ok_probe() -> JsonValue {
    obj(vec![("ok", JsonValue::Bool(true))])
}

#[test]
fn validation_result_combines_the_probes() {
    let probes = DomainProbes {
        mail_a: ok_probe(),
        webmail_dns: ok_probe(),
        mx: obj(vec![("ok", JsonValue::Bool(true)), ("value", s("10 mail.example.com."))]),
        spf: obj(vec![("value", s("\"v=spf1 mx ~all\""))]),
        dkim_txt: obj(vec![("value", s("\"v=DKIM1; p=abc\""))]),
        dmarc_txt: obj(vec![("value", s("\"v=DMARC1; p=none\""))]),
        smtp: ok_probe(),
        imap: ok_probe(),
        webmail_tls: ok_probe(),
    };
    let result = validation_result("example.com", probes);
    assert_eq!(flag_at(&result, &["healthy"]), Some(true));
    assert_eq!(flag_at(&result, &["checks", "mx", "ok"]), Some(true));
    assert_eq!(
        result.get("checks").unwrap().get("spf").unwrap().get("count"),
        Some(&JsonValue::Number(JsonNumber::PosInt(1)))
    );
    assert_eq!(validation_outcome(&result), "healthy");
    let classified = classify_validation(result, None);
    assert_eq!(flag_at(&classified, &["decision_required"]), Some(false));
}

#[test]
fn probe_outputs_are_recorded() {
    let found = dig_value(Ok("1.2.3.4".to_string()));
    assert_eq!(flag_at(&found, &["ok"]), Some(true));
    assert_eq!(text_at(&found, &["value"]), Some("1.2.3.4"));
    let missing = dig_value(Ok(String::new()));
    assert_eq!(text_at(&missing, &["error"]), Some("record not found"));
    let args = openssl_arguments("mail.example.com", 587, Some("smtp"));
    assert_eq!(
        args,
        vec![
            "s_client",
            "-connect",
            "mail.example.com:587",
            "-servername",
            "mail.example.com",
            "-verify_return_error",
            "-brief",
            "-starttls",
            "smtp"
        ]
    );
}

fn degraded_probes() -> DomainProbes {
    DomainProbes {
        mail_a: ok_probe(),
        webmail_dns: ok_probe(),
        mx: obj(vec![("ok", JsonValue::Bool(true)), ("value", s("10 external.example."))]),
        spf: obj(vec![("value", s("\"v=spf1 ~all\""))]),
        dkim_txt: obj(vec![("value", s("\"v=DKIM1; p=abc\""))]),
        dmarc_txt: obj(vec![("value", s("\"v=DMARC1; p=none\""))]),
        smtp: ok_probe(),
        imap: ok_probe(),
        webmail_tls: ok_probe(),
    }
}

#[test]
fn judging_a_domain_follows_its_inventory_entry() {
    let unmanaged = judge_domain("example.com", degraded_probes(), &default_inventory());
    assert_eq!(text_at(&unmanaged, &["configuration_mode"]), Some("nexus"));
    assert_eq!(flag_at(&unmanaged, &["decision_required"]), Some(true));
    assert_eq!(flag_at(&unmanaged, &["existing_configuration", "detected"]), Some(true));

    let raw = validation_result("example.com", degraded_probes());
    let adopted = nexus::dns_checks::adopted_dns_snapshots(&raw);
    let listed = persist_mail_domain(None, "example.com").unwrap();
    let inventory = persist_adopted_domain(Some(listed), "example.com", adopted).unwrap();
    let judged = judge_domain("example.com", degraded_probes(), &inventory);
    assert_eq!(text_at(&judged, &["configuration_mode"]), Some("existing"));
    assert_eq!(flag_at(&judged, &["decision_required"]), Some(false));
    assert_eq!(flag_at(&judged, &["checks", "mx", "adopted"]), Some(true));
    assert_eq!(flag_at(&judged, &["healthy"]), Some(true));
    assert_eq!(validation_outcome(&judged), "healthy");
}

#[test]
fn normalised_domains_normalise_to_themselves() {
    for input in ["  Example.COM. ", "mail.Example.org..", "a-b.example.net"] {
        let once = normalize_domain(input).unwrap();
        assert_eq!(normalize_domain(&once).unwrap(), once);
    }
}

#[test]
fn probe_outputs_become_probe_records() {
    let outputs = ProbeOutputs {
        mail_a: Ok("203.0.113.5".to_string()),
        webmail_a: Ok(String::new()),
        mx: Ok("10 mail.example.com.".to_string()),
        spf: Ok("\"v=spf1 mx ~all\"".to_string()),
        dkim: Err("dig timed out".to_string()),
        dmarc: Ok("\"v=DMARC1; p=none\"".to_string()),
        smtp: Ok("Protocol version: TLSv1.3".to_string()),
        imap: Err("openssl failed: refused".to_string()),
        webmail_tls: Ok("ok".to_string()),
    };
    let p = probes_from_outputs("example.com", outputs);
    assert_eq!(flag_at(&p.mail_a, &["ok"]), Some(true));
    assert_eq!(text_at(&p.webmail_dns, &["error"]), Some("record not found"));
    assert_eq!(text_at(&p.dkim_txt, &["error"]), Some("dig timed out"));
    assert_eq!(text_at(&p.smtp, &["endpoint"]), Some("mail.example.com:587"));
    assert_eq!(text_at(&p.imap, &["endpoint"]), Some("mail.example.com:993"));
    assert_eq!(flag_at(&p.imap, &["ok"]), Some(false));
    assert_eq!(text_at(&p.webmail_tls, &["endpoint"]), Some("webmail.example.com:443"));
    let judged = judge_domain("example.com", p, &default_inventory());
    assert_eq!(flag_at(&judged, &["healthy"]), Some(false));
}
