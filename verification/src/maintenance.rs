//! Registering, removing and probing devices: the validation of a request, the
//! planned-maintenance window that follows a device into and out of the
//! `maintenance` state, and the answers the operations give.
use vstd::prelude::*;

use crate::device_fields::{
    address_result, label_result, label_view, monitoring_error_text, name_result, normalize_address,
    normalize_name, normalize_simple_label, normalize_slug, normalize_state, result_view,
    slug_result, state_result, MonitoringError,
};
use crate::json::{get_array, get_str, push_field, Json, JsonValue};
use crate::monitoring_inventory::device_index;
use crate::monitoring_inventory::find_device;
use crate::signoz::opt_text;
use crate::text::{copy_string, str_eq};

verus! {

// ---------------------------------------------------------------------------
// A registration request
// ---------------------------------------------------------------------------
/// The normalised fields of a device to register.
pub struct DeviceFields {
    pub id: String,
    pub name: String,
    pub address: String,
    pub kind: String,
    pub site: String,
    pub state: String,
}

pub open spec fn text_result(r: Result<Seq<char>, MonitoringError>) -> Result<Seq<char>, Seq<char>> {
    match r {
        Ok(s) => Ok(s),
        Err(e) => Err(monitoring_error_text(e)),
    }
}

pub open spec fn or_default(o: Option<Seq<char>>, default: Seq<char>) -> Seq<char> {
    match o {
        Some(s) => s,
        None => default,
    }
}

/// The fields of a registration, checked in this order: name, address, kind,
/// site (`home` when absent), state (`enabled` when absent), then the id
/// derived from the name. The first refusal is the answer.
pub open spec fn device_request_spec(
    name: Seq<char>,
    address_candidate: Seq<char>,
    address_is_ip: bool,
    kind: Seq<char>,
    site: Option<Seq<char>>,
    state: Option<Seq<char>>,
) -> Result<(Seq<char>, Seq<char>, Seq<char>, Seq<char>, Seq<char>, Seq<char>), Seq<char>> {
    match text_result(name_result(name)) {
        Err(e) => Err(e),
        Ok(n) => match text_result(address_result(address_candidate, address_is_ip)) {
            Err(e) => Err(e),
            Ok(a) => match label_result(kind, "device kind"@) {
                Err(e) => Err(e),
                Ok(k) => match label_result(or_default(site, "home"@), "site"@) {
                    Err(e) => Err(e),
                    Ok(si) => match text_result(state_result(or_default(state, "enabled"@))) {
                        Err(e) => Err(e),
                        Ok(st) => match text_result(slug_result(n)) {
                            Err(e) => Err(e),
                            Ok(id) => Ok((id, n, a, k, si, st)),
                        },
                    },
                },
            },
        },
    }
}

pub open spec fn fields_view(r: Result<DeviceFields, MonitoringError>) -> Result<
    (Seq<char>, Seq<char>, Seq<char>, Seq<char>, Seq<char>, Seq<char>),
    Seq<char>,
> {
    match r {
        Ok(f) => Ok((f.id@, f.name@, f.address@, f.kind@, f.site@, f.state@)),
        Err(e) => Err(monitoring_error_text(e)),
    }
}

/// Validates and normalises a registration (see `device_request_spec`). The
/// address is given as its candidate text (`address_candidate`) together with
/// whether that text parses as an IP address.
pub fn validate_device(
    name: &str,
    address_candidate: String,
    address_is_ip: bool,
    kind: &str,
    site: Option<String>,
    state: Option<String>,
) -> (r: Result<DeviceFields, MonitoringError>)
    ensures
        fields_view(r) == device_request_spec(
            name@,
            address_candidate@,
            address_is_ip,
            kind@,
            opt_text(site),
            opt_text(state),
        ),
{
    let name = match normalize_name(name) {
        Ok(n) => n,
        Err(e) => return Err(e),
    };
    let address = match normalize_address(address_candidate, address_is_ip) {
        Ok(a) => a,
        Err(e) => return Err(e),
    };
    let kind = match normalize_simple_label(kind, "device kind") {
        Ok(k) => k,
        Err(e) => return Err(e),
    };
    let site = match &site {
        Some(s) => normalize_simple_label(s.as_str(), "site"),
        None => normalize_simple_label("home", "site"),
    };
    let site = match site {
        Ok(s) => s,
        Err(e) => return Err(e),
    };
    let state = match &state {
        Some(s) => normalize_state(s.as_str()),
        None => normalize_state("enabled"),
    };
    let state = match state {
        Ok(s) => s,
        Err(e) => return Err(e),
    };
    let id = match normalize_slug(name.as_str()) {
        Ok(i) => i,
        Err(e) => return Err(e),
    };
    Ok(DeviceFields { id, name, address, kind, site, state })
}

// ---------------------------------------------------------------------------
// Planned maintenance follows the device state
// ---------------------------------------------------------------------------
/// What registering a device asks of SigNoz.
pub enum MaintenanceAction {
    /// Nothing.
    Keep,
    /// Open a maintenance window for the device.
    CreateDowntime,
    /// Remove the window with this id.
    DeleteDowntime(String),
}

/// The action, and the downtime id to store unless the action changes it.
pub struct MaintenancePlan {
    pub action: MaintenanceAction,
    pub downtime_id: Option<String>,
}

/// The device goes into maintenance now.
pub open spec fn entering(state: Seq<char>, previous: Option<Seq<char>>) -> bool {
    state == "maintenance"@ && previous != Some("maintenance"@)
}

/// The device leaves maintenance now.
pub open spec fn leaving(state: Seq<char>, previous: Option<Seq<char>>) -> bool {
    previous == Some("maintenance"@) && state != "maintenance"@
}

/// The spec-level shape of a `MaintenanceAction`.
pub enum Step {
    Keep,
    Create,
    Delete(Seq<char>),
}

pub open spec fn step_of(a: MaintenanceAction) -> Step {
    match a {
        MaintenanceAction::Keep => Step::Keep,
        MaintenanceAction::CreateDowntime => Step::Create,
        MaintenanceAction::DeleteDowntime(d) => Step::Delete(d@),
    }
}

/// Entering maintenance opens a window; leaving it removes the stored window,
/// if there is one; any other change asks nothing.
pub open spec fn planned_step(
    state: Seq<char>,
    previous_state: Option<Seq<char>>,
    previous_downtime: Option<Seq<char>>,
) -> Step {
    if entering(state, previous_state) {
        Step::Create
    } else if leaving(state, previous_state) {
        match previous_downtime {
            Some(d) => Step::Delete(d),
            None => Step::Keep,
        }
    } else {
        Step::Keep
    }
}

/// Leaving maintenance forgets the stored window; otherwise it is kept.
pub open spec fn planned_downtime(
    state: Seq<char>,
    previous_state: Option<Seq<char>>,
    previous_downtime: Option<Seq<char>>,
) -> Option<Seq<char>> {
    if leaving(state, previous_state) {
        None
    } else {
        previous_downtime
    }
}

/// Plans the SigNoz side of registering a device in state `state` whose
/// stored record had `previous_state` and `previous_downtime_id`.
pub fn maintenance_plan(
    state: &str,
    previous_state: Option<String>,
    previous_downtime_id: Option<String>,
) -> (r: MaintenancePlan)
    ensures
        step_of(r.action) == planned_step(
            state@,
            opt_text(previous_state),
            opt_text(previous_downtime_id),
        ),
        opt_text(r.downtime_id) == planned_downtime(
            state@,
            opt_text(previous_state),
            opt_text(previous_downtime_id),
        ),
{
    let now_maintenance = str_eq(state, "maintenance");
    let was_maintenance = match &previous_state {
        Some(p) => str_eq(p.as_str(), "maintenance"),
        None => false,
    };
    proof {
        reveal_strlit("maintenance");
    }
    let entering = now_maintenance && !was_maintenance;
    let leaving = was_maintenance && !now_maintenance;
    if entering {
        MaintenancePlan { action: MaintenanceAction::CreateDowntime, downtime_id: previous_downtime_id }
    } else if leaving {
        match previous_downtime_id {
            Some(d) => MaintenancePlan {
                action: MaintenanceAction::DeleteDowntime(d),
                downtime_id: None,
            },
            None => MaintenancePlan { action: MaintenanceAction::Keep, downtime_id: None },
        }
    } else {
        MaintenancePlan { action: MaintenanceAction::Keep, downtime_id: previous_downtime_id }
    }
}

/// The downtime id to store once the action ran with `outcome` (the created
/// id, or the error): a created window is recorded; a window whose removal
/// failed stays recorded, so that it is never orphaned.
pub open spec fn settled_downtime(
    step: Step,
    planned: Option<Seq<char>>,
    outcome: Result<Seq<char>, Seq<char>>,
) -> Option<Seq<char>> {
    match step {
        Step::Create => match outcome {
            Ok(id) => Some(id),
            Err(_) => planned,
        },
        Step::Delete(old) => match outcome {
            Ok(_) => planned,
            Err(_) => Some(old),
        },
        Step::Keep => planned,
    }
}

/// What registering reports of the SigNoz side.
pub open spec fn settled_report(step: Step, outcome: Result<Seq<char>, Seq<char>>) -> Option<Json> {
    match step {
        Step::Create => match outcome {
            Ok(id) => Some(Json::Object(seq![("downtime_created"@, Json::Str(id))])),
            Err(e) => Some(Json::Object(seq![("downtime_error"@, Json::Str(e))])),
        },
        Step::Delete(old) => match outcome {
            Ok(_) => Some(Json::Object(seq![("downtime_deleted"@, Json::Str(old))])),
            Err(e) => Some(Json::Object(seq![("downtime_error"@, Json::Str(e))])),
        },
        Step::Keep => None,
    }
}

/// The downtime id to store and the report.
pub struct MaintenanceSettled {
    pub downtime_id: Option<String>,
    pub report: Option<JsonValue>,
}

pub open spec fn outcome_view(o: Result<String, String>) -> Result<Seq<char>, Seq<char>> {
    match o {
        Ok(s) => Ok(s@),
        Err(e) => Err(e@),
    }
}

pub open spec fn report_view(r: Option<JsonValue>) -> Option<Json> {
    match r {
        Some(v) => Some(v@),
        None => None,
    }
}

fn single_field(key: &str, value: String) -> (r: JsonValue)
    ensures
        r@ == Json::Object(seq![(key@, Json::Str(value@))]),
{
    let ghost v = value@;
    let mut f: Vec<(String, JsonValue)> = Vec::new();
    assert(JsonValue::Object(f)@->Object_0 =~= Seq::<(Seq<char>, Json)>::empty());
    push_field(&mut f, key, JsonValue::Str(value));
    let r = JsonValue::Object(f);
    assert(r@->Object_0 =~= seq![(key@, Json::Str(v))]);
    r
}

/// Settles a plan once its action ran with `outcome`: for a new window its id
/// or the error, for a removal anything on success or the error (see
/// `settled_downtime` and `settled_report`). A `Keep` plan ignores `outcome`.
pub fn settle_maintenance(plan: MaintenancePlan, outcome: Result<String, String>) -> (r:
    MaintenanceSettled)
    ensures
        opt_text(r.downtime_id) == settled_downtime(
            step_of(plan.action),
            opt_text(plan.downtime_id),
            outcome_view(outcome),
        ),
        report_view(r.report) == settled_report(step_of(plan.action), outcome_view(outcome)),
{
    match plan.action {
        MaintenanceAction::CreateDowntime => match outcome {
            Ok(id) => {
                let stored = copy_string(&id);
                MaintenanceSettled {
                    downtime_id: Some(stored),
                    report: Some(single_field("downtime_created", id)),
                }
            },
            Err(e) => MaintenanceSettled {
                downtime_id: plan.downtime_id,
                report: Some(single_field("downtime_error", e)),
            },
        },
        MaintenanceAction::DeleteDowntime(old) => match outcome {
            Ok(_) => MaintenanceSettled {
                downtime_id: plan.downtime_id,
                report: Some(single_field("downtime_deleted", old)),
            },
            Err(e) => MaintenanceSettled {
                downtime_id: Some(old),
                report: Some(single_field("downtime_error", e)),
            },
        },
        MaintenanceAction::Keep => MaintenanceSettled { downtime_id: plan.downtime_id, report: None },
    }
}

/// A device is never both entering and leaving maintenance; a window is only
/// opened on entering and only removed on leaving; after leaving, the device
/// keeps tracking a window exactly when its removal failed, so no window is
/// left behind untracked; after entering, a created window is tracked.
pub proof fn lemma_maintenance_windows_are_tracked(
    state: Seq<char>,
    previous_state: Option<Seq<char>>,
    previous_downtime: Option<Seq<char>>,
    outcome: Result<Seq<char>, Seq<char>>,
)
    ensures
        !(entering(state, previous_state) && leaving(state, previous_state)),
        planned_step(state, previous_state, previous_downtime) is Create <==> entering(
            state,
            previous_state,
        ),
        planned_step(state, previous_state, previous_downtime) is Delete ==> leaving(
            state,
            previous_state,
        ),
        leaving(state, previous_state) && previous_downtime is Some ==> (settled_downtime(
            planned_step(state, previous_state, previous_downtime),
            planned_downtime(state, previous_state, previous_downtime),
            outcome,
        ) == if outcome is Ok {
            None
        } else {
            previous_downtime
        }),
        entering(state, previous_state) && outcome is Ok ==> settled_downtime(
            planned_step(state, previous_state, previous_downtime),
            planned_downtime(state, previous_state, previous_downtime),
            outcome,
        ) == Some(outcome->Ok_0),
        !entering(state, previous_state) && !leaving(state, previous_state) ==> settled_downtime(
            planned_step(state, previous_state, previous_downtime),
            planned_downtime(state, previous_state, previous_downtime),
            outcome,
        ) == previous_downtime,
{
}

// ---------------------------------------------------------------------------
// What the device in the inventory says
// ---------------------------------------------------------------------------
/// The stored record of device `id`, if any.
pub open spec fn stored_device(inventory: Json, id: Seq<char>) -> Option<Json> {
    match get_array(inventory, "devices"@) {
        Some(ds) => if device_index(ds, id) < ds.len() {
            Some(ds[device_index(ds, id)])
        } else {
            None
        },
        None => None,
    }
}

/// A text member of the stored record of device `id`.
pub open spec fn stored_text(inventory: Json, id: Seq<char>, key: Seq<char>) -> Option<Seq<char>> {
    match stored_device(inventory, id) {
        Some(d) => get_str(d, key),
        None => None,
    }
}

/// A text member (`state`, `address`, `signoz_downtime_id`, ...) of the stored
/// record of device `id` (see `stored_text`).
pub fn device_text(inventory: &JsonValue, id: &str, key: &str) -> (r: Option<String>)
    ensures
        opt_text(r) == stored_text(inventory@, id@, key@),
{
    match find_device(inventory, id) {
        Some(d) => match d.get_str(key) {
            Some(s) => Some(copy_string(s)),
            None => None,
        },
        None => None,
    }
}

/// The address to probe for device `id`: refused when the device is unknown
/// or has no address.
pub open spec fn probe_address_spec(inventory: Json, id: Seq<char>) -> Result<Seq<char>, Seq<char>> {
    match stored_device(inventory, id) {
        None => Err(monitoring_error_text(MonitoringError::UnknownDevice)),
        Some(d) => match get_str(d, "address"@) {
            Some(a) => Ok(a),
            None => Err(monitoring_error_text(MonitoringError::DeviceMissingAddress)),
        },
    }
}

/// The address to probe for device `id` (see `probe_address_spec`).
pub fn probe_address(inventory: &JsonValue, id: &str) -> (r: Result<String, MonitoringError>)
    ensures
        text_result(result_view(r)) == probe_address_spec(inventory@, id@),
{
    match find_device(inventory, id) {
        Some(d) => match d.get_str("address") {
            Some(a) => Ok(copy_string(a)),
            None => Err(MonitoringError::DeviceMissingAddress),
        },
        None => Err(MonitoringError::UnknownDevice),
    }
}

// ---------------------------------------------------------------------------
// Answers
// ---------------------------------------------------------------------------
/// A reconcile outcome as it is reported: its report, or `{"error": ..}`.
pub open spec fn reconcile_value(r: Result<Json, Seq<char>>) -> Json {
    match r {
        Ok(v) => v,
        Err(e) => Json::Object(seq![("error"@, Json::Str(e))]),
    }
}

pub open spec fn result_json(r: Result<JsonValue, String>) -> Result<Json, Seq<char>> {
    match r {
        Ok(v) => Ok(v@),
        Err(e) => Err(e@),
    }
}

fn reconcile_json(r: Result<JsonValue, String>) -> (v: JsonValue)
    ensures
        v@ == reconcile_value(result_json(r)),
{
    match r {
        Ok(v) => v,
        Err(e) => single_field("error", e),
    }
}

/// The answer to a registration.
pub open spec fn registration_answer(
    id: Seq<char>,
    view: Json,
    reconcile: Result<Json, Seq<char>>,
    maintenance: Option<Json>,
) -> Json {
    Json::Object(
        seq![
            ("device_id"@, Json::Str(id)),
            ("inventory"@, view),
            ("reconcile"@, reconcile_value(reconcile)),
            (
                "signoz_maintenance"@,
                match maintenance {
                    Some(m) => m,
                    None => Json::Null,
                },
            ),
        ],
    )
}

/// The answer to a registration (see `registration_answer`).
pub fn registration_response(
    id: String,
    view: JsonValue,
    reconcile: Result<JsonValue, String>,
    maintenance: Option<JsonValue>,
) -> (r: JsonValue)
    ensures
        r@ == registration_answer(id@, view@, result_json(reconcile), report_view(maintenance)),
{
    let ghost want = registration_answer(id@, view@, result_json(reconcile), report_view(maintenance));
    let mut f: Vec<(String, JsonValue)> = Vec::new();
    assert(JsonValue::Object(f)@->Object_0 =~= Seq::<(Seq<char>, Json)>::empty());
    push_field(&mut f, "device_id", JsonValue::Str(id));
    push_field(&mut f, "inventory", view);
    push_field(&mut f, "reconcile", reconcile_json(reconcile));
    let m = match maintenance {
        Some(m) => m,
        None => JsonValue::Null,
    };
    push_field(&mut f, "signoz_maintenance", m);
    let r = JsonValue::Object(f);
    assert(r@->Object_0 =~= want->Object_0);
    r
}

/// The answer to a change that names the device under `key` (`deleted` for a
/// removal, `device_id` for a registration without a SigNoz report).
pub open spec fn change_answer(key: Seq<char>, id: Seq<char>, view: Json, reconcile: Result<Json, Seq<char>>) -> Json {
    Json::Object(
        seq![
            (key, Json::Str(id)),
            ("inventory"@, view),
            ("reconcile"@, reconcile_value(reconcile)),
        ],
    )
}

/// The answer to a change (see `change_answer`).
pub fn change_response(key: &str, id: String, view: JsonValue, reconcile: Result<JsonValue, String>) -> (r:
    JsonValue)
    ensures
        r@ == change_answer(key@, id@, view@, result_json(reconcile)),
{
    let ghost want = change_answer(key@, id@, view@, result_json(reconcile));
    let mut f: Vec<(String, JsonValue)> = Vec::new();
    assert(JsonValue::Object(f)@->Object_0 =~= Seq::<(Seq<char>, Json)>::empty());
    push_field(&mut f, key, JsonValue::Str(id));
    push_field(&mut f, "inventory", view);
    push_field(&mut f, "reconcile", reconcile_json(reconcile));
    let r = JsonValue::Object(f);
    assert(r@->Object_0 =~= want->Object_0);
    r
}

/// A failed reconcile never hides the change: the answer to a registration or
/// a deletion still carries the saved inventory, and reports the reconcile
/// error in place of the reconcile report.
pub proof fn lemma_reconcile_failure_is_reported(
    key: Seq<char>,
    id: Seq<char>,
    view: Json,
    error: Seq<char>,
    maintenance: Option<Json>,
)
    requires
        key != "inventory"@ && key != "reconcile"@,
    ensures
        crate::json::get(registration_answer(id, view, Err(error), maintenance), "inventory"@) == Some(view),
        crate::json::get(registration_answer(id, view, Err(error), maintenance), "reconcile"@) == Some(
            Json::Object(seq![("error"@, Json::Str(error))]),
        ),
        crate::json::get(change_answer(key, id, view, Err(error)), "inventory"@) == Some(view),
        crate::json::get(change_answer(key, id, view, Err(error)), "reconcile"@) == Some(
            Json::Object(seq![("error"@, Json::Str(error))]),
        ),
{
    reveal_strlit("device_id");
    reveal_strlit("inventory");
    reveal_strlit("reconcile");
    assert("device_id"@[0] != "inventory"@[0] && "device_id"@[0] != "reconcile"@[0]);
    assert("inventory"@[0] != "reconcile"@[0]);
    let r = registration_answer(id, view, Err(error), maintenance)->Object_0;
    crate::json::lemma_field_index_at(r, "inventory"@, 1);
    crate::json::lemma_field_index_at(r, "reconcile"@, 2);
    let c = change_answer(key, id, view, Err(error))->Object_0;
    crate::json::lemma_field_index_at(c, "inventory"@, 1);
    crate::json::lemma_field_index_at(c, "reconcile"@, 2);
}

} // verus!
