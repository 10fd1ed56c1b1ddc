//! The adoption policy for existing DNS/mail configuration and the final
//! classification of a domain validation result.
use vstd::prelude::*;

use crate::dns_checks::{
    adopted_dns_snapshots, all_required_checks_healthy, all_required_healthy,
    existing_configuration_detected, existing_detected, fingerprint, record_fingerprint,
    snapshot_field, snapshot_fields,
};
use crate::json::{
    as_array, assign, assignable, field, get, get_str, lemma_assign_get, lemma_assign_get_other,
    push_field, set_field, Json, JsonValue,
};
use crate::domain_inventory::{find_domain_entry, find_entry};
use crate::domain_names::DomainError;
use crate::domain_probe::{probes_assignable, validation_json, validation_result, DomainProbes};
use crate::text::str_eq;

verus! {

/// A check after the adoption policy judged it: `ok` tells whether the live
/// records still match the adopted ones.
pub open spec fn marked_check(check: Json, matches: bool) -> Json {
    assign(
        assign(assign(check, "ok"@, Json::Bool(matches)), "adopted"@, Json::Bool(true)),
        "policy"@,
        Json::Str("existing"@),
    )
}

/// The validation result with check `key` marked, when the result has that check.
pub open spec fn mark_check(result: Json, key: Seq<char>, matches: bool) -> Json {
    match get(result, "checks"@) {
        Some(Json::Object(cf)) => match field(cf, key) {
            Some(check) => assign(
                result,
                "checks"@,
                Json::Object(set_field(cf, key, marked_check(check, matches))),
            ),
            None => result,
        },
        _ => result,
    }
}

/// One adopted record judged against the live one; the flag records whether
/// any adopted record changed.
pub open spec fn adopt_step(state: (Json, bool), adopted: (Seq<char>, Json)) -> (Json, bool) {
    match adopted.1 {
        Json::Str(expected) => {
            let m = fingerprint(state.0, adopted.0) == Some(expected);
            (mark_check(state.0, adopted.0, m), state.1 || !m)
        },
        _ => state,
    }
}

/// All adopted records judged in order.
pub open spec fn adopt_all(result: Json, adopted: Seq<(Seq<char>, Json)>) -> (Json, bool)
    decreases adopted.len(),
{
    if adopted.len() == 0 {
        (result, false)
    } else {
        adopt_step(adopt_all(result, adopted.drop_last()), adopted.last())
    }
}

/// The `adopted_checks` object of an inventory entry, as fields.
pub open spec fn adopted_checks_of(entry: Json) -> Seq<(Seq<char>, Json)> {
    match get(entry, "adopted_checks"@) {
        Some(Json::Object(fields)) => fields,
        _ => Seq::empty(),
    }
}

pub open spec fn changed_message(changed: bool) -> Seq<char> {
    if changed {
        "The adopted configuration changed. Keep the new live configuration or migrate to the Nexus standard."@
    } else {
        "Existing configuration is adopted and monitored without being replaced."@
    }
}

/// A validation result judged under the `existing` policy of an inventory entry.
pub open spec fn existing_policy(result: Json, entry: Json) -> Json {
    let (r1, changed) = adopt_all(result, adopted_checks_of(entry));
    let r2 = assign(r1, "healthy"@, Json::Bool(all_required_healthy(r1)));
    let r3 = assign(r2, "configuration_mode"@, Json::Str("existing"@));
    let r4 = assign(r3, "decision_required"@, Json::Bool(changed));
    assign(
        r4,
        "existing_configuration"@,
        Json::Object(
            seq![
                ("detected"@, Json::Bool(true)),
                ("changed"@, Json::Bool(changed)),
                ("records"@, Json::Object(snapshot_fields(r4))),
                ("message"@, Json::Str(changed_message(changed))),
            ],
        ),
    )
}

/// Check `key` of the result, if present, can take new fields.
pub open spec fn check_assignable(result: Json, key: Seq<char>) -> bool {
    match get(result, "checks"@) {
        Some(Json::Object(cf)) => match field(cf, key) {
            Some(c) => assignable(c),
            None => true,
        },
        _ => true,
    }
}

/// The inputs on which the policy can be applied: the result and every check
/// that an adopted record names can take new fields.
pub open spec fn policy_applicable(result: Json, entry: Json) -> bool {
    &&& assignable(result)
    &&& forall|i: int|
        0 <= i < adopted_checks_of(entry).len() ==> check_assignable(
            result,
            #[trigger] adopted_checks_of(entry)[i].0,
        )
}

// ---------------------------------------------------------------------------
// Lemmas
// ---------------------------------------------------------------------------
pub proof fn lemma_set_field_get(cf: Seq<(Seq<char>, Json)>, key: Seq<char>, v: Json, other: Seq<char>)
    ensures
        field(set_field(cf, key, v), key) == Some(v),
        other != key ==> field(set_field(cf, key, v), other) == field(cf, other),
{
    lemma_assign_get(Json::Object(cf), key, v);
    if other != key {
        lemma_assign_get_other(Json::Object(cf), key, v, other);
    }
}

/// Marking a check keeps the result and every check that could take new fields able to.
pub proof fn lemma_mark_check_keeps(result: Json, key: Seq<char>, m: bool, other: Seq<char>)
    requires
        assignable(result),
        check_assignable(result, key),
        check_assignable(result, other),
    ensures
        assignable(mark_check(result, key, m)),
        check_assignable(mark_check(result, key, m), other),
{
    match get(result, "checks"@) {
        Some(Json::Object(cf)) => match field(cf, key) {
            Some(check) => {
                let nc = Json::Object(set_field(cf, key, marked_check(check, m)));
                lemma_assign_get(result, "checks"@, nc);
                lemma_set_field_get(cf, key, marked_check(check, m), other);
            },
            None => {},
        },
        _ => {},
    }
}

/// The fingerprint of any check is unaffected by marking a check.
pub proof fn lemma_mark_check_fingerprint(result: Json, key: Seq<char>, m: bool, other: Seq<char>)
    requires
        assignable(result),
        check_assignable(result, key),
    ensures
        fingerprint(mark_check(result, key, m), other) == fingerprint(result, other),
{
    match get(result, "checks"@) {
        Some(Json::Object(cf)) => match field(cf, key) {
            Some(check) => {
                let mc = marked_check(check, m);
                let nc = Json::Object(set_field(cf, key, mc));
                lemma_assign_get(result, "checks"@, nc);
                lemma_set_field_get(cf, key, mc, other);
                if other == key {
                    reveal_strlit("detail");
                    reveal_strlit("ok");
                    reveal_strlit("adopted");
                    reveal_strlit("policy");
                    assert("detail"@.len() == 6 && "ok"@.len() == 2 && "adopted"@.len() == 7);
                    assert("detail"@ != "policy"@) by {
                        assert("detail"@[0] != "policy"@[0]);
                    }
                    let c1 = assign(check, "ok"@, Json::Bool(m));
                    let c2 = assign(c1, "adopted"@, Json::Bool(true));
                    lemma_assign_get_other(check, "ok"@, Json::Bool(m), "detail"@);
                    lemma_assign_get_other(c1, "adopted"@, Json::Bool(true), "detail"@);
                    lemma_assign_get_other(c2, "policy"@, Json::Str("existing"@), "detail"@);
                }
            },
            None => {},
        },
        _ => {},
    }
}

// ---------------------------------------------------------------------------
// Executable policy
// ---------------------------------------------------------------------------
/// Marks check `key` of the result (see `mark_check`).
fn mark_check_exec(result: &mut JsonValue, key: &str, matches: bool)
    requires
        assignable(old(result)@),
        check_assignable(old(result)@, key@),
    ensures
        final(result)@ == mark_check(old(result)@, key@, matches),
{
    let new_checks: Option<JsonValue> = match result.get("checks") {
        Some(checks) => {
            if checks.is_object() {
                match checks.get(key) {
                    Some(check) => {
                        let mut c = check.duplicate();
                        c.assign("ok", JsonValue::Bool(matches));
                        c.assign("adopted", JsonValue::Bool(true));
                        c.assign("policy", JsonValue::text("existing"));
                        let mut nc = checks.duplicate();
                        nc.assign(key, c);
                        Some(nc)
                    },
                    None => None,
                }
            } else {
                None
            }
        },
        None => None,
    };
    match new_checks {
        Some(nc) => {
            result.assign("checks", nc);
        },
        None => {},
    }
}

/// Judges a validation result under the `existing` policy of its inventory
/// entry: each adopted record is compared with the live one, the result is
/// healthy when every required check passes, and a decision is required
/// exactly when an adopted record changed.
pub fn apply_existing_policy(result: JsonValue, domain_entry: &JsonValue) -> (r: JsonValue)
    requires
        policy_applicable(result@, domain_entry@),
    ensures
        r@ == existing_policy(result@, domain_entry@),
{
    let ghost orig = result@;
    let ghost adopted = adopted_checks_of(domain_entry@);
    let mut result = result;
    let mut changed = false;
    match domain_entry.get("adopted_checks") {
        Some(JsonValue::Object(fields)) => {
            let ghost fv = JsonValue::Object(*fields)@->Object_0;
            assert(fv == adopted);
            let mut i: usize = 0;
            assert(adopted.take(0) =~= Seq::<(Seq<char>, Json)>::empty());
            while i < fields.len()
                invariant
                    i <= fields.len(),
                    fv == JsonValue::Object(*fields)@->Object_0,
                    fv == adopted,
                    (result@, changed) == adopt_all(orig, adopted.take(i as int)),
                    assignable(result@),
                    forall|k: int|
                        0 <= k < adopted.len() ==> check_assignable(
                            result@,
                            #[trigger] adopted[k].0,
                        ),
                decreases fields.len() - i,
            {
                assert(adopted.take(i + 1).drop_last() =~= adopted.take(i as int));
                assert(fv[i as int] == (fields@[i as int].0@, fields@[i as int].1@));
                let key = fields[i].0.as_str();
                match &fields[i].1 {
                    JsonValue::Str(expected) => {
                        let current = record_fingerprint(&result, key);
                        let matches = match current {
                            Some(c) => str_eq(c.as_str(), expected.as_str()),
                            None => false,
                        };
                        let ghost before = result@;
                        proof {
                            assert(check_assignable(before, adopted[i as int].0));
                            assert forall|k: int| 0 <= k < adopted.len() implies check_assignable(
                                mark_check(before, key@, matches),
                                #[trigger] adopted[k].0,
                            ) by {
                                lemma_mark_check_keeps(before, key@, matches, adopted[k].0);
                            }
                            lemma_mark_check_keeps(before, key@, matches, key@);
                        }
                        mark_check_exec(&mut result, key, matches);
                        changed = changed || !matches;
                    },
                    _ => {},
                }
                i += 1;
            }
            assert(adopted.take(fields.len() as int) =~= adopted);
        },
        _ => {
            assert(adopted =~= Seq::<(Seq<char>, Json)>::empty());
        },
    }
    let healthy = all_required_checks_healthy(&result);
    result.assign("healthy", JsonValue::Bool(healthy));
    result.assign("configuration_mode", JsonValue::text("existing"));
    result.assign("decision_required", JsonValue::Bool(changed));
    let records = adopted_dns_snapshots(&result);
    let message = if changed {
        JsonValue::text(
            "The adopted configuration changed. Keep the new live configuration or migrate to the Nexus standard.",
        )
    } else {
        JsonValue::text("Existing configuration is adopted and monitored without being replaced.")
    };
    let mut fields: Vec<(String, JsonValue)> = Vec::new();
    assert(JsonValue::Object(fields)@->Object_0 =~= Seq::<(Seq<char>, Json)>::empty());
    push_field(&mut fields, "detected", JsonValue::Bool(true));
    push_field(&mut fields, "changed", JsonValue::Bool(changed));
    push_field(&mut fields, "records", records);
    push_field(&mut fields, "message", message);
    let existing = JsonValue::Object(fields);
    assert(existing@->Object_0 =~= seq![
        ("detected"@, Json::Bool(true)),
        ("changed"@, Json::Bool(changed)),
        ("records"@, Json::Object(snapshot_fields(result@))),
        ("message"@, Json::Str(changed_message(changed))),
    ]);
    result.assign("existing_configuration", existing);
    result
}

// ---------------------------------------------------------------------------
// Laws
// ---------------------------------------------------------------------------
/// A record of `adopted` that no longer matches the live one.
pub open spec fn drifted(result: Json, adopted: Seq<(Seq<char>, Json)>, i: int) -> bool {
    adopted[i].1 matches Json::Str(e) && fingerprint(result, adopted[i].0) != Some(e)
}

/// Judging adopted records flags a change exactly when one of them no longer
/// matches the live records, and leaves every fingerprint as it was.
pub proof fn lemma_adopt_all_flags_drift(result: Json, adopted: Seq<(Seq<char>, Json)>)
    requires
        assignable(result),
        forall|i: int| 0 <= i < adopted.len() ==> check_assignable(result, #[trigger] adopted[i].0),
    ensures
        adopt_all(result, adopted).1 <==> exists|i: int|
            0 <= i < adopted.len() && #[trigger] drifted(result, adopted, i),
        forall|k: Seq<char>| #[trigger] fingerprint(adopt_all(result, adopted).0, k) == fingerprint(result, k),
        assignable(adopt_all(result, adopted).0),
        forall|k: Seq<char>|
            check_assignable(result, k) ==> #[trigger] check_assignable(adopt_all(result, adopted).0, k),
    decreases adopted.len(),
{
    if adopted.len() > 0 {
        let front = adopted.drop_last();
        assert forall|i: int| 0 <= i < front.len() implies check_assignable(result, #[trigger] front[i].0) by {
            assert(front[i] == adopted[i]);
        }
        lemma_adopt_all_flags_drift(result, front);
        let (s0, c0) = adopt_all(result, front);
        let last = adopted.last();
        assert(check_assignable(result, adopted[adopted.len() - 1].0));
        match last.1 {
            Json::Str(expected) => {
                let m = fingerprint(s0, last.0) == Some(expected);
                assert forall|k: Seq<char>| #[trigger] fingerprint(mark_check(s0, last.0, m), k) == fingerprint(result, k) by {
                    lemma_mark_check_fingerprint(s0, last.0, m, k);
                }
                assert forall|k: Seq<char>| check_assignable(result, k) implies #[trigger] check_assignable(
                    mark_check(s0, last.0, m),
                    k,
                ) by {
                    lemma_mark_check_keeps(s0, last.0, m, k);
                }
                lemma_mark_check_keeps(s0, last.0, m, last.0);
            },
            _ => {},
        }
        let full = adopt_all(result, adopted);
        if full.1 {
            if c0 {
                let i = choose|i: int| 0 <= i < front.len() && #[trigger] drifted(result, front, i);
                assert(front[i] == adopted[i]);
                assert(drifted(result, adopted, i));
            } else {
                assert(drifted(result, adopted, adopted.len() - 1));
            }
        }
        if exists|i: int| 0 <= i < adopted.len() && #[trigger] drifted(result, adopted, i) {
            let i = choose|i: int| 0 <= i < adopted.len() && #[trigger] drifted(result, adopted, i);
            if i < adopted.len() - 1 {
                assert(front[i] == adopted[i]);
                assert(drifted(result, front, i));
            }
        }
    }
}

proof fn lemma_snapshot_fields_match(result: Json)
    ensures
        forall|i: int|
            0 <= i < snapshot_fields(result).len() ==> !#[trigger] drifted(result, snapshot_fields(result), i),
{
    let a = snapshot_field(result, "mx"@);
    let b = snapshot_field(result, "spf"@);
    let c = snapshot_field(result, "dkim"@);
    let d = snapshot_field(result, "dmarc"@);
    let all = snapshot_fields(result);
    assert forall|i: int| 0 <= i < all.len() implies !#[trigger] drifted(result, all, i) by {
        if i < a.len() {
            assert(all[i] == a[i]);
        } else if i < a.len() + b.len() {
            assert(all[i] == b[i - a.len()]);
        } else if i < a.len() + b.len() + c.len() {
            assert(all[i] == c[i - a.len() - b.len()]);
        } else {
            assert(all[i] == d[i - a.len() - b.len() - c.len()]);
        }
    }
}

proof fn lemma_decision_flag(result: Json, entry: Json)
    requires
        assignable(result),
    ensures
        get(existing_policy(result, entry), "decision_required"@) == Some(
            Json::Bool(adopt_all(result, adopted_checks_of(entry)).1),
        ),
{
    let (r1, changed) = adopt_all(result, adopted_checks_of(entry));
    let r2 = assign(r1, "healthy"@, Json::Bool(all_required_healthy(r1)));
    let r3 = assign(r2, "configuration_mode"@, Json::Str("existing"@));
    let r4 = assign(r3, "decision_required"@, Json::Bool(changed));
    lemma_assign_get(r3, "decision_required"@, Json::Bool(changed));
    reveal_strlit("decision_required");
    reveal_strlit("existing_configuration");
    assert("decision_required"@[0] != "existing_configuration"@[0]);
    let ec = Json::Object(
        seq![
            ("detected"@, Json::Bool(true)),
            ("changed"@, Json::Bool(changed)),
            ("records"@, Json::Object(snapshot_fields(r4))),
            ("message"@, Json::Str(changed_message(changed))),
        ],
    );
    lemma_assign_get_other(r4, "existing_configuration"@, ec, "decision_required"@);
}

/// Adopting the records a validation saw and judging that same validation
/// under the existing policy finds nothing changed: no decision is required.
pub proof fn lemma_adopting_current_records_requires_no_decision(result: Json, entry: Json)
    requires
        adopted_checks_of(entry) == snapshot_fields(result),
        policy_applicable(result, entry),
    ensures
        !adopt_all(result, adopted_checks_of(entry)).1,
        get(existing_policy(result, entry), "decision_required"@) == Some(Json::Bool(false)),
{
    lemma_adopt_all_flags_drift(result, adopted_checks_of(entry));
    lemma_snapshot_fields_match(result);
    lemma_decision_flag(result, entry);
}

/// A change is never masked: when any adopted record no longer matches the
/// live records, the existing policy requires a decision.
pub proof fn lemma_drift_requires_decision(result: Json, entry: Json, i: int)
    requires
        policy_applicable(result, entry),
        0 <= i < adopted_checks_of(entry).len(),
        drifted(result, adopted_checks_of(entry), i),
    ensures
        get(existing_policy(result, entry), "decision_required"@) == Some(Json::Bool(true)),
{
    lemma_adopt_all_flags_drift(result, adopted_checks_of(entry));
    lemma_decision_flag(result, entry);
}

} // verus!

verus! {

pub open spec fn detected_message() -> Seq<char> {
    "Existing DNS/mail configuration was detected. Choose whether to keep it or migrate to the Nexus Hestia standard."@
}

/// The entry keeps its existing configuration.
pub open spec fn is_existing_entry(entry: Option<Json>) -> bool {
    match entry {
        Some(e) => crate::json::get_str(e, "configuration_mode"@) == Some("existing"@),
        None => false,
    }
}

/// A raw validation result classified against the domain's inventory entry:
/// judged under the `existing` policy when the entry keeps its configuration,
/// otherwise marked `nexus`, with a decision required exactly when unmanaged
/// live records were detected.
pub open spec fn classified(result: Json, entry: Option<Json>) -> Json {
    if is_existing_entry(entry) {
        existing_policy(result, entry->0)
    } else {
        let d = existing_detected(result, entry);
        let r1 = assign(result, "configuration_mode"@, Json::Str("nexus"@));
        let r2 = assign(r1, "decision_required"@, Json::Bool(d));
        if d {
            assign(
                r2,
                "existing_configuration"@,
                Json::Object(
                    seq![
                        ("detected"@, Json::Bool(true)),
                        ("changed"@, Json::Bool(false)),
                        ("records"@, Json::Object(snapshot_fields(r2))),
                        ("message"@, Json::Str(detected_message())),
                    ],
                ),
            )
        } else {
            r2
        }
    }
}

/// The inputs `classify_validation` accepts: the result can take new fields,
/// and so can the checks an `existing` entry's adopted records name.
pub open spec fn classifiable(result: Json, entry: Option<Json>) -> bool {
    &&& assignable(result)
    &&& is_existing_entry(entry) ==> policy_applicable(result, entry->0)
}

/// Classifies a raw validation result against the domain's inventory entry
/// (see `classified`).
pub fn classify_validation(result: JsonValue, domain_entry: Option<&JsonValue>) -> (r: JsonValue)
    requires
        classifiable(result@, opt_view(domain_entry)),
    ensures
        r@ == classified(result@, opt_view(domain_entry)),
{
    let existing = match domain_entry {
        Some(e) => match e.get_str("configuration_mode") {
            Some(m) => str_eq(m.as_str(), "existing"),
            None => false,
        },
        None => false,
    };
    if existing {
        match domain_entry {
            Some(e) => {
                return apply_existing_policy(result, e);
            },
            None => {
                return result;
            },
        }
    }
    let decision_required = existing_configuration_detected(&result, domain_entry);
    let mut result = result;
    result.assign("configuration_mode", JsonValue::text("nexus"));
    result.assign("decision_required", JsonValue::Bool(decision_required));
    if decision_required {
        let records = adopted_dns_snapshots(&result);
        let mut fields: Vec<(String, JsonValue)> = Vec::new();
        assert(JsonValue::Object(fields)@->Object_0 =~= Seq::<(Seq<char>, Json)>::empty());
        push_field(&mut fields, "detected", JsonValue::Bool(true));
        push_field(&mut fields, "changed", JsonValue::Bool(false));
        push_field(&mut fields, "records", records);
        push_field(
            &mut fields,
            "message",
            JsonValue::text(
                "Existing DNS/mail configuration was detected. Choose whether to keep it or migrate to the Nexus Hestia standard.",
            ),
        );
        let ghost fv = JsonValue::Object(fields)@->Object_0;
        assert(fv =~= seq![
            ("detected"@, Json::Bool(true)),
            ("changed"@, Json::Bool(false)),
            ("records"@, Json::Object(snapshot_fields(result@))),
            ("message"@, Json::Str(detected_message())),
        ]);
        result.assign("existing_configuration", JsonValue::Object(fields));
    }
    result
}

pub open spec fn opt_view(o: Option<&JsonValue>) -> Option<Json> {
    match o {
        Some(v) => Some(v@),
        None => None,
    }
}

/// The audit outcome of a validation: a required decision first, then health.
pub open spec fn outcome_of(result: Json) -> Seq<char> {
    if crate::json::get_bool(result, "decision_required"@) == Some(true) {
        "decision-required"@
    } else if crate::json::get_bool(result, "healthy"@) == Some(true) {
        "healthy"@
    } else {
        "degraded"@
    }
}

/// The audit outcome of a validation (see `outcome_of`).
pub fn validation_outcome(result: &JsonValue) -> (r: &'static str)
    ensures
        r@ == outcome_of(result@),
{
    if result.get_bool("decision_required") == Some(true) {
        "decision-required"
    } else if result.get_bool("healthy") == Some(true) {
        "healthy"
    } else {
        "degraded"
    }
}

/// A validation result built from such probes can be classified against any
/// inventory entry.
proof fn lemma_validation_classifiable(domain: Seq<char>, p: DomainProbes, entry: Option<Json>)
    requires
        probes_assignable(p),
    ensures
        classifiable(validation_json(domain, p), entry),
{
    let result = validation_json(domain, p);
    let cf = get(result, "checks"@)->0->Object_0;
    assert(get(result, "checks"@) == Some(Json::Object(cf))) by {
        reveal_strlit("domain");
        reveal_strlit("healthy");
        reveal_strlit("checks");
        assert("domain"@ != "checks"@ && "healthy"@ != "checks"@) by {
            assert("domain"@[0] != "checks"@[0]);
            assert("healthy"@[0] != "checks"@[0]);
        }
        crate::json::lemma_field_index_at(result->Object_0, "checks"@, 2);
    }
    assert forall|j: int| 0 <= j < cf.len() implies assignable(#[trigger] cf[j].1) by {}
    assert forall|key: Seq<char>| check_assignable(result, key) by {
        crate::json::lemma_field_index_bounds(cf, key);
    }
}

/// The validation of `domain` from its probe outcomes (see `validation_json`),
/// classified against the domain's entry in `inventory` (see `classified`).
pub fn judge_domain(domain: &str, probes: DomainProbes, inventory: &JsonValue) -> (r: JsonValue)
    requires
        probes_assignable(probes),
    ensures
        r@ == classified(validation_json(domain@, probes), find_entry(inventory@, domain@)),
{
    let ghost pv = probes;
    let result = validation_result(domain, probes);
    let entry = find_domain_entry(inventory, domain);
    proof {
        lemma_validation_classifiable(domain@, pv, opt_view(entry));
    }
    classify_validation(result, entry)
}

/// The adopted record fingerprints of a live validation, refused when there
/// is nothing to adopt.
pub fn adoption_snapshot(raw: &JsonValue) -> (r: Result<JsonValue, DomainError>)
    ensures
        snapshot_fields(raw@).len() == 0 ==> (r matches Err(e) && e == DomainError::NothingToAdopt),
        snapshot_fields(raw@).len() > 0 ==> (r matches Ok(v) && v@ == Json::Object(
            snapshot_fields(raw@),
        )),
{
    let snapshots = adopted_dns_snapshots(raw);
    let empty = match &snapshots {
        JsonValue::Object(f) => f.len() == 0,
        _ => true,
    };
    if empty {
        Err(DomainError::NothingToAdopt)
    } else {
        Ok(snapshots)
    }
}

/// Live mail records are never passed over: outside the existing policy, when
/// the MX, SPF, DKIM or DMARC lookup holds a record and either the inventory
/// entry does not mark the domain as mail-managed or that check failed,
/// classification reports the existing configuration as detected and requires
/// a decision.
pub proof fn lemma_unmanaged_records_require_decision(result: Json, entry: Option<Json>, key: Seq<char>)
    requires
        !is_existing_entry(entry),
        key == "mx"@ || key == "spf"@ || key == "dkim"@ || key == "dmarc"@,
        fingerprint(result, key) is Some,
        (entry matches Some(e) && crate::json::get_bool(e, "mail"@) != Some(true)) || !crate::dns_checks::check_ok(
            result,
            key,
        ),
    ensures
        existing_detected(result, entry),
        get(classified(result, entry), "decision_required"@) == Some(Json::Bool(true)),
        get(classified(result, entry), "existing_configuration"@) matches Some(ec) && get(
            ec,
            "detected"@,
        ) == Some(Json::Bool(true)),
{
    let ks = crate::dns_checks::adoptable_keys();
    let i: int = if key == "mx"@ {
        0
    } else if key == "spf"@ {
        1
    } else if key == "dkim"@ {
        2
    } else {
        3
    };
    assert(ks[i] == key);
    assert(fingerprint(result, ks[i]) is Some);
    assert(existing_detected(result, entry));
    let r1 = assign(result, "configuration_mode"@, Json::Str("nexus"@));
    let r2 = assign(r1, "decision_required"@, Json::Bool(true));
    let ec = Json::Object(
        seq![
            ("detected"@, Json::Bool(true)),
            ("changed"@, Json::Bool(false)),
            ("records"@, Json::Object(snapshot_fields(r2))),
            ("message"@, Json::Str(detected_message())),
        ],
    );
    lemma_assign_get(r1, "decision_required"@, Json::Bool(true));
    reveal_strlit("decision_required");
    reveal_strlit("existing_configuration");
    assert("decision_required"@[0] != "existing_configuration"@[0]);
    lemma_assign_get_other(r2, "existing_configuration"@, ec, "decision_required"@);
    lemma_assign_get(r2, "existing_configuration"@, ec);
    crate::json::lemma_field_index_at(ec->Object_0, "detected"@, 0);
}

} // verus!
