//! What the domains page shows and decides for each domain: check states,
//! the row summary, which action is offered, and the messages after an action.
use vstd::prelude::*;

use crate::dns_checks::get_in;
use crate::json::{as_bool, as_str, get, get_array, push_field, Json, JsonValue};
use crate::sorting::{count_where, sort_by, sort_strings, text_key};
use crate::split::{join, join_with, views};
use crate::text::{
    ascii_lowercase, ascii_uppercase, decimal, lower, owned, push_all, push_decimal, str_eq, trim,
    trimmed, upper,
};

verus! {

// ---------------------------------------------------------------------------
// Reading a validation result
// ---------------------------------------------------------------------------
/// The checks shown for a domain, with their labels, in display order.
pub open spec fn panel_checks() -> Seq<(Seq<char>, Seq<char>)> {
    seq![
        ("mail_a"@, "A"@),
        ("mx"@, "MX"@),
        ("spf"@, "SPF"@),
        ("dkim"@, "DKIM"@),
        ("dmarc"@, "DMARC"@),
        ("smtp_submission"@, "SMTP"@),
        ("imap_tls"@, "IMAP"@),
        ("webmail_tunnel_dns"@, "Webmail DNS"@),
        ("webmail_tls"@, "Webmail TLS"@),
    ]
}

/// The shown check at position `i`: its key and its label.
pub fn panel_check(i: usize) -> (r: (&'static str, &'static str))
    requires
        i < 9,
    ensures
        r.0@ == panel_checks()[i as int].0,
        r.1@ == panel_checks()[i as int].1,
{
    if i == 0 {
        ("mail_a", "A")
    } else if i == 1 {
        ("mx", "MX")
    } else if i == 2 {
        ("spf", "SPF")
    } else if i == 3 {
        ("dkim", "DKIM")
    } else if i == 4 {
        ("dmarc", "DMARC")
    } else if i == 5 {
        ("smtp_submission", "SMTP")
    } else if i == 6 {
        ("imap_tls", "IMAP")
    } else if i == 7 {
        ("webmail_tunnel_dns", "Webmail DNS")
    } else {
        ("webmail_tls", "Webmail TLS")
    }
}

pub open spec fn opt_json(o: Option<&JsonValue>) -> Option<Json> {
    match o {
        Some(v) => Some(v@),
        None => None,
    }
}

/// A member of a check of the result, read as a flag.
pub open spec fn check_flag(result: Option<Json>, key: Seq<char>, member: Seq<char>) -> Option<bool> {
    match get_in(get_in(get_in(result, "checks"@), key), member) {
        Some(v) => as_bool(v),
        None => None,
    }
}

fn check_member(result: Option<&JsonValue>, key: &str, member: &str) -> (r: Option<bool>)
    ensures
        r == check_flag(opt_json(result), key@, member@),
{
    let v = result?;
    let checks = v.get("checks")?;
    let check = checks.get(key)?;
    let m = check.get(member)?;
    m.as_bool()
}

/// Whether check `key` passed: unknown when the result does not say.
pub fn check_ok(result: Option<&JsonValue>, key: &str) -> (r: Option<bool>)
    ensures
        r == check_flag(opt_json(result), key@, "ok"@),
{
    check_member(result, key, "ok")
}

/// Check `key` keeps an adopted existing configuration.
pub fn check_adopted(result: Option<&JsonValue>, key: &str) -> (r: bool)
    ensures
        r == (check_flag(opt_json(result), key@, "adopted"@) == Some(true)),
{
    check_member(result, key, "adopted") == Some(true)
}

/// A top-level flag of the result (false when absent).
pub open spec fn result_flag(result: Option<Json>, key: Seq<char>) -> bool {
    match get_in(result, key) {
        Some(v) => as_bool(v) == Some(true),
        None => false,
    }
}

fn flag(result: Option<&JsonValue>, key: &str) -> (r: bool)
    ensures
        r == result_flag(opt_json(result), key@),
{
    match result {
        Some(v) => match v.get(key) {
            Some(b) => b.as_bool() == Some(true),
            None => false,
        },
        None => false,
    }
}

pub fn result_healthy(result: Option<&JsonValue>) -> (r: bool)
    ensures
        r == result_flag(opt_json(result), "healthy"@),
{
    flag(result, "healthy")
}

pub fn decision_required(result: Option<&JsonValue>) -> (r: bool)
    ensures
        r == result_flag(opt_json(result), "decision_required"@),
{
    flag(result, "decision_required")
}

/// The result was judged under the `existing` policy.
pub open spec fn existing_mode_spec(result: Option<Json>) -> bool {
    match get_in(result, "configuration_mode"@) {
        Some(v) => as_str(v) == Some("existing"@),
        None => false,
    }
}

pub fn existing_mode(result: Option<&JsonValue>) -> (r: bool)
    ensures
        r == existing_mode_spec(opt_json(result)),
{
    match result {
        Some(v) => match v.get("configuration_mode") {
            Some(m) => match m.as_str() {
                Some(s) => str_eq(s.as_str(), "existing"),
                None => false,
            },
            None => false,
        },
        None => false,
    }
}

/// How many of the shown checks passed.
pub open spec fn configured_count_spec(result: Option<Json>) -> nat {
    count_where(
        panel_checks(),
        |c: (Seq<char>, Seq<char>)| check_flag(result, c.0, "ok"@) == Some(true),
    )
}

pub fn configured_count(result: Option<&JsonValue>) -> (r: usize)
    ensures
        r == configured_count_spec(opt_json(result)),
{
    let ghost p = |c: (Seq<char>, Seq<char>)| check_flag(opt_json(result), c.0, "ok"@) == Some(true);
    let mut n: usize = 0;
    let mut i: usize = 0;
    assert(panel_checks().take(0) =~= Seq::<(Seq<char>, Seq<char>)>::empty());
    while i < 9
        invariant
            i <= 9,
            n <= i,
            p == (|c: (Seq<char>, Seq<char>)| check_flag(opt_json(result), c.0, "ok"@) == Some(true)),
            n == count_where(panel_checks().take(i as int), p),
        decreases 9 - i,
    {
        let (key, _) = panel_check(i);
        assert(panel_checks().take(i + 1).drop_last() =~= panel_checks().take(i as int));
        assert(panel_checks().take(i + 1).last() == panel_checks()[i as int]);
        if check_ok(result, key) == Some(true) {
            n += 1;
        }
        i += 1;
    }
    assert(panel_checks().take(9) =~= panel_checks());
    n
}

/// The names of the existing records found, upper-cased, sorted and comma-separated.
pub open spec fn existing_labels_spec(result: Option<Json>) -> Seq<char> {
    match get_in(get_in(result, "existing_configuration"@), "records"@) {
        Some(Json::Object(fields)) => join(
            sort_by(fields.map_values(|f: (Seq<char>, Json)| upper(f.0)), text_key()),
            ", "@,
        ),
        _ => Seq::empty(),
    }
}

pub fn existing_record_labels(result: Option<&JsonValue>) -> (r: String)
    ensures
        r@ == existing_labels_spec(opt_json(result)),
{
    let records = match result {
        Some(v) => match v.get("existing_configuration") {
            Some(e) => e.get("records"),
            None => None,
        },
        None => None,
    };
    let fields = match records {
        Some(JsonValue::Object(fields)) => fields,
        _ => return String::new(),
    };
    let ghost fv = JsonValue::Object(*fields)@->Object_0;
    let ghost want = fv.map_values(|f: (Seq<char>, Json)| upper(f.0));
    let mut labels: Vec<String> = Vec::new();
    let mut i: usize = 0;
    while i < fields.len()
        invariant
            i <= fields.len(),
            fv == JsonValue::Object(*fields)@->Object_0,
            fv.len() == fields.len(),
            want == fv.map_values(|f: (Seq<char>, Json)| upper(f.0)),
            views(labels@) == want.take(i as int),
        decreases fields.len() - i,
    {
        assert(fv[i as int].0 == fields@[i as int].0@);
        let u = ascii_uppercase(fields[i].0.as_str());
        let ghost before = views(labels@);
        labels.push(u);
        assert(views(labels@) =~= before.push(want[i as int]));
        assert(want.take(i + 1) =~= want.take(i as int).push(want[i as int]));
        i += 1;
    }
    assert(want.take(fields.len() as int) =~= want);
    let sorted = sort_strings(labels);
    join_with(&sorted, ", ")
}

// ---------------------------------------------------------------------------
// The row of a domain
// ---------------------------------------------------------------------------
/// The state line under a domain's name.
pub open spec fn row_status_spec(result: Option<Json>) -> Seq<char> {
    if result is None {
        "Not checked"@
    } else if result_flag(result, "healthy"@) && existing_mode_spec(result) {
        "Active · Healthy · Existing policy"@
    } else if result_flag(result, "healthy"@) {
        "Active · Healthy"@
    } else if result_flag(result, "decision_required"@) {
        "Existing configuration · Decision required"@
    } else {
        "Incomplete · "@ + decimal(configured_count_spec(result)) + "/9 configured"@
    }
}

pub fn row_status(result: Option<&JsonValue>) -> (r: String)
    ensures
        r@ == row_status_spec(opt_json(result)),
{
    if result.is_none() {
        return owned("Not checked");
    }
    let healthy = result_healthy(result);
    if healthy && existing_mode(result) {
        owned("Active · Healthy · Existing policy")
    } else if healthy {
        owned("Active · Healthy")
    } else if decision_required(result) {
        owned("Existing configuration · Decision required")
    } else {
        let n = configured_count(result);
        let mut s = owned("Incomplete · ");
        push_decimal(&mut s, n as u64);
        push_all(&mut s, "/9 configured");
        s
    }
}

/// The note shown when a decision is required.
pub open spec fn decision_note_spec(labels: Seq<char>) -> Seq<char> {
    "Found existing configuration"@ + (if labels.len() == 0 {
        Seq::empty()
    } else {
        ": "@ + labels
    }) + ". Keep it, or migrate to the Nexus standard."@
}

pub fn decision_note(labels: &str) -> (r: String)
    ensures
        r@ == decision_note_spec(labels@),
{
    let mut s = owned("Found existing configuration");
    if !labels.is_empty() {
        push_all(&mut s, ": ");
        push_all(&mut s, labels);
    }
    push_all(&mut s, ". Keep it, or migrate to the Nexus standard.");
    s
}

/// What a domain row offers.
#[derive(Debug, Clone, Copy, PartialEq, Eq, Structural)]
pub enum RowAction {
    /// Keep the existing configuration, or migrate to the Nexus standard.
    Decide,
    /// Reconcile a domain whose checks fail.
    Fix,
    /// Validate (or revalidate) the domain.
    Validate,
}

/// A pending decision comes first; a checked but unhealthy domain is fixed;
/// anything else is validated.
pub open spec fn row_action_spec(result: Option<Json>) -> RowAction {
    if result_flag(result, "decision_required"@) {
        RowAction::Decide
    } else if result is Some && !result_flag(result, "healthy"@) {
        RowAction::Fix
    } else {
        RowAction::Validate
    }
}

pub fn row_action(result: Option<&JsonValue>) -> (r: RowAction)
    ensures
        r == row_action_spec(opt_json(result)),
{
    if decision_required(result) {
        RowAction::Decide
    } else if result.is_some() && !result_healthy(result) {
        RowAction::Fix
    } else {
        RowAction::Validate
    }
}

/// The label of the validate button.
pub fn validate_label(validating: bool, healthy: bool) -> (r: &'static str)
    ensures
        r@ == (if validating {
            "Checking…"@
        } else if healthy {
            "Revalidate"@
        } else {
            "Validate"@
        }),
{
    if validating {
        "Checking…"
    } else if healthy {
        "Revalidate"
    } else {
        "Validate"
    }
}

// ---------------------------------------------------------------------------
// Actions
// ---------------------------------------------------------------------------
/// The validation a domain action answered with, judged healthy.
pub open spec fn response_healthy_spec(response: Json) -> bool {
    match get_in(get(response, "validation"@), "healthy"@) {
        Some(v) => as_bool(v) == Some(true),
        None => false,
    }
}

pub fn response_healthy(response: &JsonValue) -> (r: bool)
    ensures
        r == response_healthy_spec(response@),
{
    match response.get("validation") {
        Some(v) => match v.get("healthy") {
            Some(h) => h.as_bool() == Some(true),
            None => false,
        },
        None => false,
    }
}

/// The message after reconciling a domain.
pub open spec fn reconcile_message_spec(healthy: bool) -> Seq<char> {
    if healthy {
        "Configuration reconciled and validated successfully."@
    } else {
        "Reconciliation completed, but one or more live checks still need attention."@
    }
}

pub fn reconcile_message(healthy: bool) -> (r: &'static str)
    ensures
        r@ == reconcile_message_spec(healthy),
{
    if healthy {
        "Configuration reconciled and validated successfully."
    } else {
        "Reconciliation completed, but one or more live checks still need attention."
    }
}

/// The message after migrating a domain to the Nexus standard.
pub open spec fn migration_message_spec(healthy: bool) -> Seq<char> {
    if healthy {
        "Migrated to the Nexus Hestia standard and validated successfully."@
    } else {
        "Migration completed, but live validation still needs attention."@
    }
}

pub fn migration_message(healthy: bool) -> (r: &'static str)
    ensures
        r@ == migration_message_spec(healthy),
{
    if healthy {
        "Migrated to the Nexus Hestia standard and validated successfully."
    } else {
        "Migration completed, but live validation still needs attention."
    }
}

/// The headline after completing a domain's setup.
pub fn setup_message(healthy: bool) -> (r: &'static str)
    ensures
        r@ == (if healthy {
            "Setup completed and validated."@
        } else {
            "Setup completed, but live validation still needs attention."@
        }),
{
    if healthy {
        "Setup completed and validated."
    } else {
        "Setup completed, but live validation still needs attention."
    }
}

/// How a failed action is reported.
pub fn action_failure(text: &str) -> (r: String)
    ensures
        r@ == "Action stopped safely: "@ + text@,
{
    let mut s = owned("Action stopped safely: ");
    push_all(&mut s, text);
    s
}

/// What a failed validation request is recorded as.
pub open spec fn failed_validation_spec(error: Seq<char>) -> Json {
    Json::Object(seq![("healthy"@, Json::Bool(false)), ("error"@, Json::Str(error))])
}

pub fn failed_validation(error: String) -> (r: JsonValue)
    ensures
        r@ == failed_validation_spec(error@),
{
    let ghost e = error@;
    let mut f: Vec<(String, JsonValue)> = Vec::new();
    assert(JsonValue::Object(f)@->Object_0 =~= Seq::<(Seq<char>, Json)>::empty());
    push_field(&mut f, "healthy", JsonValue::Bool(false));
    push_field(&mut f, "error", JsonValue::Str(error));
    let r = JsonValue::Object(f);
    assert(r@->Object_0 =~= failed_validation_spec(e)->Object_0);
    r
}

/// The body of an onboarding request.
pub open spec fn onboard_body_spec(domain: Seq<char>, user: Seq<char>, replace_existing: bool) -> Json {
    Json::Object(
        seq![
            ("domain"@, Json::Str(domain)),
            ("hestia_user"@, Json::Str(user)),
            ("replace_existing"@, Json::Bool(replace_existing)),
        ],
    )
}

/// The onboarding request for the typed-in domain and owner: the domain
/// trimmed and lower-cased, the owner trimmed; refused when no domain was typed.
pub open spec fn onboarding_request_spec(domain: Seq<char>, user: Seq<char>, replace_existing: bool) -> Result<
    Json,
    Seq<char>,
> {
    let d = lower(trim(domain));
    if d.len() == 0 {
        Err("Enter a domain first."@)
    } else {
        Ok(onboard_body_spec(d, trim(user), replace_existing))
    }
}

pub open spec fn request_view(r: Result<JsonValue, String>) -> Result<Json, Seq<char>> {
    match r {
        Ok(v) => Ok(v@),
        Err(e) => Err(e@),
    }
}

pub fn onboarding_request(domain: &str, user: &str, replace_existing: bool) -> (r: Result<
    JsonValue,
    String,
>)
    ensures
        request_view(r) == onboarding_request_spec(domain@, user@, replace_existing),
{
    let t = trimmed(domain);
    let d = ascii_lowercase(t.as_str());
    if d.as_str().is_empty() {
        return Err(owned("Enter a domain first."));
    }
    let u = trimmed(user);
    let ghost (dv, uv) = (d@, u@);
    let mut f: Vec<(String, JsonValue)> = Vec::new();
    assert(JsonValue::Object(f)@->Object_0 =~= Seq::<(Seq<char>, Json)>::empty());
    push_field(&mut f, "domain", JsonValue::Str(d));
    push_field(&mut f, "hestia_user", JsonValue::Str(u));
    push_field(&mut f, "replace_existing", JsonValue::Bool(replace_existing));
    let r = JsonValue::Object(f);
    assert(r@->Object_0 =~= onboard_body_spec(dv, uv, replace_existing)->Object_0);
    Ok(r)
}

/// A text setting of the inventory defaults, or a dash when unset.
pub open spec fn default_text_spec(inventory: Json, key: Seq<char>) -> Seq<char> {
    match get_in(get(inventory, "defaults"@), key) {
        Some(v) => match as_str(v) {
            Some(s) => s,
            None => "—"@,
        },
        None => "—"@,
    }
}

pub fn default_text(inventory: &JsonValue, key: &str) -> (r: String)
    ensures
        r@ == default_text_spec(inventory@, key@),
{
    match inventory.get("defaults") {
        Some(d) => match d.get(key) {
            Some(v) => match v.as_str() {
                Some(s) => s.clone(),
                None => owned("—"),
            },
            None => owned("—"),
        },
        None => owned("—"),
    }
}

/// Number of managed domains in the inventory.
pub open spec fn managed_count_spec(inventory: Json) -> nat {
    match get_array(inventory, "domains"@) {
        Some(ds) => ds.len(),
        None => 0,
    }
}

pub fn managed_count(inventory: &JsonValue) -> (r: usize)
    ensures
        r == managed_count_spec(inventory@),
{
    match inventory.get("domains") {
        Some(d) => match d.as_array() {
            Some(items) => {
                assert(JsonValue::Array(*items)@->Array_0.len() == items.len());
                items.len()
            },
            None => 0,
        },
        None => 0,
    }
}

/// A domain is shown as active and healthy only when its validation says
/// `healthy`; a checked domain that is neither healthy nor awaiting a
/// decision is shown as incomplete, with its count of configured checks, and
/// is offered the fix.
pub proof fn lemma_healthy_only_when_validated(result: Option<Json>)
    ensures
        (row_status_spec(result) == "Active · Healthy"@ || row_status_spec(result)
            == "Active · Healthy · Existing policy"@) ==> result_flag(result, "healthy"@),
        result is Some && !result_flag(result, "healthy"@) && !result_flag(result, "decision_required"@)
            ==> row_status_spec(result) == "Incomplete · "@ + decimal(configured_count_spec(result))
            + "/9 configured"@ && row_action_spec(result) == RowAction::Fix,
{
    reveal_strlit("Active · Healthy");
    reveal_strlit("Active · Healthy · Existing policy");
    reveal_strlit("Not checked");
    reveal_strlit("Existing configuration · Decision required");
    reveal_strlit("Incomplete · ");
    if !result_flag(result, "healthy"@) {
        let s = row_status_spec(result);
        if result is None {
            assert(s[0] == 'N');
        } else if result_flag(result, "decision_required"@) {
            assert(s[0] == 'E');
        } else {
            let rest = decimal(configured_count_spec(result)) + "/9 configured"@;
            assert(s == "Incomplete · "@ + rest);
            assert(s[0] == 'I');
        }
        assert("Active · Healthy"@[0] == 'A');
        assert("Active · Healthy · Existing policy"@[0] == 'A');
    }
}

} // verus!
