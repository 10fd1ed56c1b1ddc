use nexus::json::{JsonNumber, JsonValue};
use nexus::signoz::{
    connected_status, count_collection, device_scope, downtime_path, downtime_request,
    extract_downtime_id, failed_status, maintenance_downtime_payload, maintenance_window_end,
    normalize_optional_text, parse_alert_ids, response_body, rules_status, signoz_target,
    signoz_target_from, unconfigured_status, validate_downtime_id, SignozError, UrlParts,
    DOWNTIME_PATH, MAINTENANCE_WINDOW_SECONDS, RULES_PATH,
};

fn s(t: &str) -> JsonValue {
    JsonValue::Str(t.to_string())
}

fn obj(fields: Vec<(&str, JsonValue)>) -> JsonValue {
    JsonValue::Object(fields.into_iter().map(|(k, v)| (k.to_string(), v)).collect())
}

fn n(v: u64) -> JsonValue {
    JsonValue::Number(JsonNumber::PosInt(v))
}

fn text<'a>(v: &'a JsonValue, key: &str) -> Option<&'a str> {
    v.get_str(key).map(|x| x.as_str())
}

#[test]
fn alert_ids_are_trimmed_and_empty_values_removed() {
    assert_eq!(
        parse_alert_ids(Some("rule-a, rule-b,,".to_string())),
        vec!["rule-a".to_string(), "rule-b".to_string()]
    );
}

#[test]
fn collection_count_supports_current_and_wrapped_shapes() {
    assert_eq!(
        count_collection(&JsonValue::Array(vec![n(1), n(2)]), &["data"]),
        Some(2)
    );
    assert_eq!(
        count_collection(
            &obj(vec![("data", JsonValue::Array(vec![n(1), n(2), n(3)]))]),
            &["data"]
        ),
        Some(3)
    );
    assert_eq!(
        count_collection(&obj(vec![("rules", JsonValue::Array(vec![]))]), &["rules"]),
        Some(0)
    );
    assert_eq!(
        count_collection(&obj(vec![("data", obj(vec![]))]), &["data"]),
        None
    );
}

#[test]
fn device_scope_matches_the_confirmed_signoz_label() {
    assert_eq!(
        device_scope("zigbee-slzb-06m"),
        "nexus_device_id=\"zigbee-slzb-06m\""
    );
}

#[test]
fn downtime_id_extraction_supports_current_and_wrapped_shapes() {
    assert_eq!(extract_downtime_id(&obj(vec![("id", s("dt-1"))])).unwrap(), "dt-1");
    assert_eq!(
        extract_downtime_id(&obj(vec![("data", obj(vec![("id", s("dt-2"))]))])).unwrap(),
        "dt-2"
    );
    assert_eq!(
        extract_downtime_id(&obj(vec![(
            "data",
            obj(vec![("downtimeSchedule", obj(vec![("id", n(42))]))])
        )]))
        .unwrap(),
        "42"
    );
    assert!(extract_downtime_id(&obj(vec![("status", s("ok"))])).is_err());
}

#[test]
fn downtime_ids_are_found_in_order_of_the_known_places() {
    let both = obj(vec![
        ("id", n(7)),
        ("data", obj(vec![("id", s("dt-2"))])),
    ]);
    assert_eq!(extract_downtime_id(&both).unwrap(), "7");
    let top = obj(vec![("downtimeSchedule", obj(vec![("id", s("dt-4"))]))]);
    assert_eq!(extract_downtime_id(&top).unwrap(), "dt-4");
    assert_eq!(
        extract_downtime_id(&JsonValue::Null).unwrap_err().message(),
        "SigNoz did not return a recognizable downtime id"
    );
}

#[test]
fn collection_counts_try_each_member_in_turn() {
    let v = obj(vec![
        ("data", s("x")),
        ("downtimeSchedules", JsonValue::Array(vec![n(1)])),
    ]);
    assert_eq!(
        count_collection(&v, &["data", "downtime_schedules", "downtimeSchedules"]),
        Some(1)
    );
    assert_eq!(count_collection(&JsonValue::Null, &["data"]), None);
}

#[test]
fn signoz_target_reads_the_base_url() {
    let t = signoz_target("http://192.168.0.47:8080", RULES_PATH).unwrap();
    assert_eq!(t.host, "192.168.0.47");
    assert_eq!(t.port, 8080);
    assert_eq!(t.uri, "/api/v2/rules");
    let t = signoz_target("http://signoz.internal/base/", DOWNTIME_PATH).unwrap();
    assert_eq!(t.host, "signoz.internal");
    assert_eq!(t.port, 80);
    assert_eq!(t.uri, "/base/api/v1/downtime_schedules");
    assert_eq!(
        signoz_target("https://signoz.internal", RULES_PATH).err().unwrap().message(),
        "Nexus SigNoz integration currently requires an internal http URL"
    );
    assert_eq!(
        signoz_target("not a url", RULES_PATH).err().unwrap().message(),
        "invalid NEXUS_SIGNOZ_URL"
    );
}

#[test]
fn signoz_target_from_parts() {
    let parts = UrlParts {
        scheme: "http".into(),
        host: Some("h".into()),
        port: None,
        path: "/x//".into(),
    };
    let t = signoz_target_from(Some(parts), "/api").unwrap();
    assert_eq!(t.port, 80);
    assert_eq!(t.uri, "/x/api");
    let no_host = UrlParts {
        scheme: "http".into(),
        host: None,
        port: Some(1),
        path: "/".into(),
    };
    assert!(matches!(
        signoz_target_from(Some(no_host), "/api"),
        Err(SignozError::MissingHost)
    ));
    assert!(matches!(
        signoz_target_from(None, "/api"),
        Err(SignozError::InvalidUrl)
    ));
}

#[test]
fn downtime_paths_name_the_window() {
    assert_eq!(downtime_path("dt-1"), "/api/v1/downtime_schedules/dt-1");
}

#[test]
fn responses_are_sorted_by_status_and_body() {
    assert!(matches!(response_body(200, "200 OK".into(), vec![]), Ok(None)));
    assert_eq!(
        response_body(201, "201 Created".into(), b"{}".to_vec()).unwrap(),
        Some(b"{}".to_vec())
    );
    let e = response_body(500, "500 Internal Server Error".into(), b"boom".to_vec()).unwrap_err();
    assert_eq!(e.message(), "SigNoz API returned 500 Internal Server Error: boom");
    assert!(response_body(199, "199".into(), vec![]).is_err());
    assert!(response_body(300, "300".into(), vec![]).is_err());
}

#[test]
fn optional_texts_are_trimmed_or_dropped() {
    assert_eq!(normalize_optional_text(Some("  ".into())), None);
    assert_eq!(normalize_optional_text(Some(" a ".into())), Some("a".to_string()));
    assert_eq!(normalize_optional_text(None), None);
    assert!(parse_alert_ids(None).is_empty());
}

#[test]
fn downtime_requests_need_every_field() {
    let e = downtime_request("n", " ", "s", "e", None, None, None).unwrap_err();
    assert_eq!(e.message(), "name, timezone, start_time and end_time are required");
    let long = "x".repeat(161);
    assert!(matches!(
        downtime_request(&long, "UTC", "s", "e", None, None, None),
        Err(SignozError::DowntimeInputTooLong)
    ));
    let r = downtime_request(
        " Patch ",
        "UTC",
        "2024-01-01T00:00:00Z",
        "2024-01-02T00:00:00Z",
        Some(" weekly ".into()),
        None,
        Some("a, ,b".into()),
    )
    .unwrap();
    assert_eq!(text(&r, "name"), Some("Patch"));
    assert_eq!(text(&r, "description"), Some("weekly"));
    assert_eq!(text(&r, "scope"), Some(""));
    assert_eq!(r.get("alertIds"), Some(&JsonValue::Array(vec![s("a"), s("b")])));
    let schedule = r.get("schedule").unwrap();
    assert_eq!(text(schedule, "timezone"), Some("UTC"));
    assert_eq!(text(schedule, "startTime"), Some("2024-01-01T00:00:00Z"));
    assert_eq!(text(schedule, "endTime"), Some("2024-01-02T00:00:00Z"));
}

#[test]
fn downtime_ids_are_plain() {
    assert_eq!(validate_downtime_id(" dt-1 ").unwrap(), "dt-1");
    assert_eq!(
        validate_downtime_id("dt/1").unwrap_err().message(),
        "invalid SigNoz planned-maintenance id"
    );
    assert!(validate_downtime_id("").is_err());
    assert!(validate_downtime_id(&"a".repeat(129)).is_err());
    assert!(validate_downtime_id(&"a".repeat(128)).is_ok());
}

#[test]
fn maintenance_windows_last_ten_years() {
    assert_eq!(MAINTENANCE_WINDOW_SECONDS, 315_360_000);
    assert_eq!(maintenance_window_end(1_700_000_000), 2_015_360_000);
    let p = maintenance_downtime_payload("tv-01", "TV 01", "a".into(), "b".into());
    assert_eq!(text(&p, "name"), Some("Nexus maintenance: TV 01"));
    assert_eq!(
        text(&p, "description"),
        Some("Automatically created by Nexus while device 'tv-01' is in Maintenance.")
    );
    assert_eq!(text(&p, "scope"), Some("nexus_device_id=\"tv-01\""));
    assert_eq!(p.get("alertIds"), Some(&JsonValue::Array(vec![])));
    assert_eq!(text(p.get("schedule").unwrap(), "timezone"), Some("UTC"));
}

#[test]
fn status_summaries() {
    let u = unconfigured_status("http://h".into());
    assert_eq!(u.get_bool("configured"), Some(false));
    assert_eq!(text(&u, "error"), Some("NEXUS_SIGNOZ_API_KEY is not configured"));
    let f = failed_status("http://h".into(), "down".into());
    assert_eq!(f.get_bool("configured"), Some(true));
    assert_eq!(f.get_bool("connected"), Some(false));
    assert_eq!(text(&f, "rules_api"), Some(RULES_PATH));
    assert_eq!(text(&f, "error"), Some("down"));
    let rules = obj(vec![("data", JsonValue::Array(vec![n(1), n(2)]))]);
    let c = connected_status("http://h".into(), &rules, Err("no downtimes".into()));
    assert_eq!(c.get_bool("connected"), Some(true));
    assert_eq!(c.get("rule_count").and_then(|v| v.as_u64()), Some(2));
    assert_eq!(c.get("downtime_count"), Some(&JsonValue::Null));
    assert_eq!(c.get_bool("downtime_api_connected"), Some(false));
    assert_eq!(text(&c, "downtime_error"), Some("no downtimes"));
    let c = connected_status(
        "http://h".into(),
        &JsonValue::Array(vec![]),
        Ok(obj(vec![("downtimeSchedules", JsonValue::Array(vec![n(1)]))])),
    );
    assert_eq!(c.get("rule_count").and_then(|v| v.as_u64()), Some(0));
    assert_eq!(c.get("downtime_count").and_then(|v| v.as_u64()), Some(1));
    assert_eq!(c.get("downtime_error"), Some(&JsonValue::Null));
    let r = rules_status("http://h".into(), Err("x".into()));
    assert_eq!(r.get_bool("connected"), Some(false));
    assert_eq!(text(&r, "error"), Some("x"));
    assert!(r.get("rules_api").is_none());
    let r = rules_status("http://h".into(), Ok(obj(vec![("rules", JsonValue::Array(vec![n(1)]))])));
    assert_eq!(r.get_bool("connected"), Some(true));
    assert_eq!(r.get("rule_count").and_then(|v| v.as_u64()), Some(1));
}
