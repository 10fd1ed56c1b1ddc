//! The monitoring inventory: its bootstrap content, device records, and the
//! updates that registering and deleting devices make to it.
use vstd::prelude::*;

use crate::device_fields::MonitoringError;
use crate::json::{
    assign, get, get_array, get_str, push_field, Json, JsonNumber, JsonValue, Number,
};
use crate::sorting::{
    count_where, insert_by, lemma_count_where_permutation, lemma_count_where_single,
    lemma_insert_by_at, lemma_sort_by_sorted, sort_by, sorted_by,
};
use crate::text::{chars_of, copy_string, lex_le, lex_less_eq, owned, str_eq};

verus! {

pub const DEFAULT_SIGNOZ_URL: &'static str = "http://192.168.0.47:8080";

pub const DEFAULT_OTLP_ENDPOINT: &'static str = "192.168.0.47:4317";

/// The monitoring inventory in force while none has been written.
pub open spec fn bootstrap_monitoring() -> Json {
    Json::Object(
        seq![
            ("version"@, Json::Num(Number::PosInt(1))),
            ("signoz"@, Json::Object(seq![("url"@, Json::Str(DEFAULT_SIGNOZ_URL@))])),
            (
                "probe"@,
                Json::Object(
                    seq![
                        ("otlp_endpoint"@, Json::Str(DEFAULT_OTLP_ENDPOINT@)),
                        ("collection_interval"@, Json::Str("30s"@)),
                    ],
                ),
            ),
            ("devices"@, Json::Array(Seq::empty())),
        ],
    )
}

/// The bootstrap monitoring inventory (see `bootstrap_monitoring`).
pub fn default_inventory() -> (r: JsonValue)
    ensures
        r@ == bootstrap_monitoring(),
{
    let mut s: Vec<(String, JsonValue)> = Vec::new();
    assert(JsonValue::Object(s)@->Object_0 =~= Seq::<(Seq<char>, Json)>::empty());
    push_field(&mut s, "url", JsonValue::text(DEFAULT_SIGNOZ_URL));
    let signoz = JsonValue::Object(s);
    let mut p: Vec<(String, JsonValue)> = Vec::new();
    assert(JsonValue::Object(p)@->Object_0 =~= Seq::<(Seq<char>, Json)>::empty());
    push_field(&mut p, "otlp_endpoint", JsonValue::text(DEFAULT_OTLP_ENDPOINT));
    push_field(&mut p, "collection_interval", JsonValue::text("30s"));
    let probe = JsonValue::Object(p);
    let mut top: Vec<(String, JsonValue)> = Vec::new();
    assert(JsonValue::Object(top)@->Object_0 =~= Seq::<(Seq<char>, Json)>::empty());
    push_field(&mut top, "version", JsonValue::Number(JsonNumber::PosInt(1)));
    push_field(&mut top, "signoz", signoz);
    push_field(&mut top, "probe", probe);
    push_field(&mut top, "devices", JsonValue::empty_array());
    let r = JsonValue::Object(top);
    let ghost want = bootstrap_monitoring();
    assert(signoz@->Object_0 =~= want->Object_0[1].1->Object_0);
    assert(probe@->Object_0 =~= want->Object_0[2].1->Object_0);
    assert(r@->Object_0 =~= want->Object_0);
    r
}

/// The monitoring inventory in force: the stored one, or the bootstrap one.
pub fn inventory_or_default(stored: Option<JsonValue>) -> (r: JsonValue)
    ensures
        r@ == match stored {
            Some(v) => v@,
            None => bootstrap_monitoring(),
        },
{
    match stored {
        Some(v) => v,
        None => default_inventory(),
    }
}

/// The record of a device: identity, address, kind, site, the ICMP profile,
/// state, and the SigNoz maintenance window tracked for it, if any.
pub open spec fn device_record_spec(
    id: Seq<char>,
    name: Seq<char>,
    address: Seq<char>,
    kind: Seq<char>,
    site: Seq<char>,
    state: Seq<char>,
    downtime_id: Option<Seq<char>>,
) -> Json {
    let base = seq![
        ("id"@, Json::Str(id)),
        ("name"@, Json::Str(name)),
        ("address"@, Json::Str(address)),
        ("kind"@, Json::Str(kind)),
        ("site"@, Json::Str(site)),
        ("profile"@, Json::Str("icmp"@)),
        ("state"@, Json::Str(state)),
    ];
    match downtime_id {
        Some(d) => Json::Object(base.push(("signoz_downtime_id"@, Json::Str(d)))),
        None => Json::Object(base),
    }
}

/// A device record (see `device_record_spec`).
pub fn device_record(
    id: String,
    name: String,
    address: String,
    kind: String,
    site: String,
    state: String,
    downtime_id: Option<String>,
) -> (r: JsonValue)
    ensures
        r@ == device_record_spec(
            id@,
            name@,
            address@,
            kind@,
            site@,
            state@,
            match downtime_id {
                Some(d) => Some(d@),
                None => None,
            },
        ),
{
    let ghost dv = match &downtime_id {
        Some(d) => Some(d@),
        None => None,
    };
    let ghost want = device_record_spec(id@, name@, address@, kind@, site@, state@, dv);
    let mut f: Vec<(String, JsonValue)> = Vec::new();
    assert(JsonValue::Object(f)@->Object_0 =~= Seq::<(Seq<char>, Json)>::empty());
    push_field(&mut f, "id", JsonValue::Str(id));
    push_field(&mut f, "name", JsonValue::Str(name));
    push_field(&mut f, "address", JsonValue::Str(address));
    push_field(&mut f, "kind", JsonValue::Str(kind));
    push_field(&mut f, "site", JsonValue::Str(site));
    push_field(&mut f, "profile", JsonValue::text("icmp"));
    push_field(&mut f, "state", JsonValue::Str(state));
    match downtime_id {
        Some(d) => {
            push_field(&mut f, "signoz_downtime_id", JsonValue::Str(d));
        },
        None => {},
    }
    let r = JsonValue::Object(f);
    assert(r@->Object_0 =~= want->Object_0);
    r
}

/// The device is the one with id `id`.
pub open spec fn device_has_id(d: Json, id: Seq<char>) -> bool {
    get_str(d, "id"@) == Some(id)
}

/// Position of the first device with id `id` (the length when there is none).
pub open spec fn device_index(devices: Seq<Json>, id: Seq<char>) -> int
    decreases devices.len(),
{
    if devices.len() == 0 {
        0
    } else if device_has_id(devices[0], id) {
        0
    } else {
        1 + device_index(devices.drop_first(), id)
    }
}

proof fn lemma_device_index_at(devices: Seq<Json>, id: Seq<char>, i: int)
    requires
        0 <= i <= devices.len(),
        i < devices.len() ==> device_has_id(devices[i], id),
        forall|j: int| 0 <= j < i ==> !device_has_id(#[trigger] devices[j], id),
    ensures
        device_index(devices, id) == i,
    decreases devices.len(),
{
    if devices.len() > 0 && i > 0 {
        assert forall|j: int| 0 <= j < i - 1 implies !device_has_id(
            #[trigger] devices.drop_first()[j],
            id,
        ) by {
            assert(devices.drop_first()[j] == devices[j + 1]);
        }
        lemma_device_index_at(devices.drop_first(), id, i - 1);
    }
}

/// The name devices are ordered by (empty when missing).
pub open spec fn name_key() -> spec_fn(Json) -> Seq<char> {
    |d: Json|
        match get_str(d, "name"@) {
            Some(n) => n,
            None => Seq::empty(),
        }
}

/// The devices after registering `entry` under `id`: an existing device with
/// that id is replaced, otherwise the entry is appended; then the list is
/// stably ordered by name.
pub open spec fn devices_after_upsert(devices: Seq<Json>, id: Seq<char>, entry: Json) -> Seq<Json> {
    let i = device_index(devices, id);
    let placed = if 0 <= i < devices.len() {
        devices.update(i, entry)
    } else {
        devices.push(entry)
    };
    sort_by(placed, name_key())
}

pub open spec fn upsert_device_result(inventory: Json, id: Seq<char>, entry: Json) -> Result<
    Json,
    MonitoringError,
> {
    match get_array(inventory, "devices"@) {
        None => Err(MonitoringError::MissingDevicesArray),
        Some(ds) => Ok(assign(inventory, "devices"@, Json::Array(devices_after_upsert(ds, id, entry)))),
    }
}

/// The devices other than `id`, in order.
pub open spec fn without_device(devices: Seq<Json>, id: Seq<char>) -> Seq<Json>
    decreases devices.len(),
{
    if devices.len() == 0 {
        devices
    } else {
        let r = without_device(devices.drop_last(), id);
        if device_has_id(devices.last(), id) {
            r
        } else {
            r.push(devices.last())
        }
    }
}

pub open spec fn delete_device_result(inventory: Json, id: Seq<char>) -> Result<Json, MonitoringError> {
    match get_array(inventory, "devices"@) {
        None => Err(MonitoringError::MissingDevicesArray),
        Some(ds) => {
            let kept = without_device(ds, id);
            if kept.len() == ds.len() {
                Err(MonitoringError::DeviceNotFound(id_string(id)))
            } else {
                Ok(assign(inventory, "devices"@, Json::Array(kept)))
            }
        },
    }
}

/// Some string whose text is `id` (the payload of a `DeviceNotFound` refusal).
pub open spec fn id_string(id: Seq<char>) -> String {
    choose|s: String| s@ == id
}

pub open spec fn error_view(e: MonitoringError) -> Seq<char> {
    crate::device_fields::monitoring_error_text(e)
}

/// Devices whose state is `state`, in order.
pub open spec fn in_state(devices: Seq<Json>, state: Seq<char>) -> Seq<Json>
    decreases devices.len(),
{
    if devices.len() == 0 {
        devices
    } else {
        let r = in_state(devices.drop_last(), state);
        if get_str(devices.last(), "state"@) == Some(state) {
            r.push(devices.last())
        } else {
            r
        }
    }
}

/// The enabled devices of an inventory (none when it has no device list).
pub open spec fn enabled_of(inventory: Json) -> Seq<Json> {
    match get_array(inventory, "devices"@) {
        Some(ds) => in_state(ds, "enabled"@),
        None => Seq::empty(),
    }
}

/// The devices of the inventory, copied.
fn devices_of(inventory: &JsonValue) -> (r: Option<Vec<JsonValue>>)
    ensures
        match r {
            Some(v) => get_array(inventory@, "devices"@) == Some(JsonValue::Array(v)@->Array_0),
            None => get_array(inventory@, "devices"@) is None,
        },
{
    let devices = match inventory.get("devices") {
        Some(d) => d,
        None => return None,
    };
    if devices.as_array().is_none() {
        return None;
    }
    match devices.duplicate() {
        JsonValue::Array(v) => Some(v),
        _ => None,
    }
}

fn device_position(devices: &Vec<JsonValue>, id: &str) -> (r: usize)
    ensures
        r == device_index(JsonValue::Array(*devices)@->Array_0, id@),
{
    let ghost dv = JsonValue::Array(*devices)@->Array_0;
    let mut i: usize = 0;
    while i < devices.len()
        invariant
            i <= devices.len(),
            dv == JsonValue::Array(*devices)@->Array_0,
            forall|j: int| 0 <= j < i ==> !device_has_id(#[trigger] dv[j], id@),
        decreases devices.len() - i,
    {
        assert(dv[i as int] == devices@[i as int]@);
        let hit = match devices[i].get_str("id") {
            Some(n) => str_eq(n.as_str(), id),
            None => false,
        };
        if hit {
            proof {
                lemma_device_index_at(dv, id@, i as int);
            }
            return i;
        }
        i += 1;
    }
    proof {
        lemma_device_index_at(dv, id@, i as int);
    }
    i
}

/// The device with id `id`, if the inventory lists one.
pub fn find_device<'a>(inventory: &'a JsonValue, id: &str) -> (r: Option<&'a JsonValue>)
    ensures
        match r {
            Some(d) => get_array(inventory@, "devices"@) matches Some(ds) && device_index(ds, id@)
                < ds.len() && d@ == ds[device_index(ds, id@)],
            None => match get_array(inventory@, "devices"@) {
                Some(ds) => device_index(ds, id@) >= ds.len(),
                None => true,
            },
        },
{
    let devices = inventory.get("devices")?;
    let items = devices.as_array()?;
    let i = device_position(items, id);
    assert(JsonValue::Array(*items)@->Array_0.len() == items@.len());
    if i < items.len() {
        Some(&items[i])
    } else {
        None
    }
}

fn name_of(d: &JsonValue) -> (r: Vec<char>)
    ensures
        r@ == (name_key())(d@),
{
    match d.get_str("name") {
        Some(n) => chars_of(n.as_str()),
        None => Vec::new(),
    }
}

/// Stable sort of devices by name.
fn sort_devices_by_name(devices: Vec<JsonValue>) -> (r: Vec<JsonValue>)
    ensures
        JsonValue::Array(r)@->Array_0 == sort_by(JsonValue::Array(devices)@->Array_0, name_key()),
{
    let ghost input = JsonValue::Array(devices)@->Array_0;
    let ghost key = name_key();
    let mut rest = devices;
    let mut out: Vec<JsonValue> = Vec::new();
    let mut k: usize = 0;
    assert(JsonValue::Array(out)@->Array_0 =~= sort_by(input.take(0), key));
    assert(JsonValue::Array(rest)@->Array_0 =~= input.skip(0));
    assert(input.len() == rest.len());
    while rest.len() > 0
        invariant
            k + rest.len() == input.len(),
            input.len() <= usize::MAX,
            key == name_key(),
            JsonValue::Array(rest)@->Array_0 == input.skip(k as int),
            JsonValue::Array(out)@->Array_0 == sort_by(input.take(k as int), key),
        decreases rest.len(),
    {
        let ghost rv = JsonValue::Array(rest)@->Array_0;
        let x = rest.remove(0);
        assert(x@ == rv[0]);
        assert(JsonValue::Array(rest)@->Array_0 =~= rv.drop_first());
        let xk = name_of(&x);
        let ghost before = JsonValue::Array(out)@->Array_0;
        let mut pos = out.len();
        let mut found = false;
        while pos > 0 && !found
            invariant
                pos <= out.len(),
                before == JsonValue::Array(out)@->Array_0,
                xk@ == key(x@),
                key == name_key(),
                found ==> pos > 0 && lex_le(key(before[pos - 1]), xk@),
                forall|j: int| pos <= j < before.len() ==> !lex_le(#[trigger] key(before[j]), xk@),
            decreases pos + if found { 0int } else { 1int },
        {
            assert(before[pos - 1] == out@[pos - 1]@);
            let pk = name_of(&out[pos - 1]);
            if lex_less_eq(&pk, &xk) {
                found = true;
            } else {
                pos -= 1;
            }
        }
        proof {
            if pos > 0 {
                assert(before[pos - 1] == out@[pos - 1]@);
            }
            lemma_insert_by_at(before, x@, key, pos as int);
            assert(input[k as int] == x@);
            assert(input.take(k + 1).drop_last() =~= input.take(k as int));
        }
        let ghost xv = x@;
        out.insert(pos, x);
        assert(JsonValue::Array(out)@->Array_0 =~= before.take(pos as int).push(xv) + before.skip(
            pos as int,
        ));
        k += 1;
        assert(input.skip(k - 1).drop_first() =~= input.skip(k as int));
    }
    assert(input.take(k as int) =~= input);
    out
}

/// Registers a device record under `id` (see `devices_after_upsert`).
pub fn upsert_device_entry(inventory: &mut JsonValue, id: &str, entry: JsonValue) -> (r: Result<
    (),
    MonitoringError,
>)
    ensures
        match upsert_device_result(old(inventory)@, id@, entry@) {
            Ok(inv) => r is Ok && final(inventory)@ == inv,
            Err(_) => r is Err && final(inventory)@ == old(inventory)@,
        },
{
    let ghost ev = entry@;
    let mut devices = match devices_of(inventory) {
        Some(v) => v,
        None => return Err(MonitoringError::MissingDevicesArray),
    };
    let ghost dv = JsonValue::Array(devices)@->Array_0;
    let i = device_position(&devices, id);
    assert(dv.len() == devices@.len());
    if i < devices.len() {
        devices.set(i, entry);
        assert(JsonValue::Array(devices)@->Array_0 =~= dv.update(i as int, ev));
    } else {
        devices.push(entry);
        assert(JsonValue::Array(devices)@->Array_0 =~= dv.push(ev));
    }
    let sorted = sort_devices_by_name(devices);
    inventory.assign("devices", JsonValue::Array(sorted));
    Ok(())
}

/// Removes the device `id`, refused when the inventory does not list it.
pub fn delete_device_entry(inventory: &mut JsonValue, id: &str) -> (r: Result<(), MonitoringError>)
    ensures
        match delete_device_result(old(inventory)@, id@) {
            Ok(inv) => r is Ok && final(inventory)@ == inv,
            Err(e) => r matches Err(x) && error_view(x) == error_view(e) && final(inventory)@ == old(
                inventory,
            )@,
        },
{
    let devices = match devices_of(inventory) {
        Some(v) => v,
        None => return Err(MonitoringError::MissingDevicesArray),
    };
    let ghost dv = JsonValue::Array(devices)@->Array_0;
    let mut kept: Vec<JsonValue> = Vec::new();
    let mut i: usize = 0;
    assert(JsonValue::Array(kept)@->Array_0 =~= without_device(dv.take(0), id@));
    while i < devices.len()
        invariant
            i <= devices.len(),
            dv == JsonValue::Array(devices)@->Array_0,
            JsonValue::Array(kept)@->Array_0 == without_device(dv.take(i as int), id@),
        decreases devices.len() - i,
    {
        assert(dv[i as int] == devices@[i as int]@);
        assert(dv.take(i + 1).drop_last() =~= dv.take(i as int));
        let hit = match devices[i].get_str("id") {
            Some(n) => str_eq(n.as_str(), id),
            None => false,
        };
        if !hit {
            let ghost before = JsonValue::Array(kept)@->Array_0;
            let d = devices[i].duplicate();
            kept.push(d);
            assert(JsonValue::Array(kept)@->Array_0 =~= before.push(dv[i as int]));
        }
        i += 1;
    }
    assert(dv.take(devices.len() as int) =~= dv);
    assert(JsonValue::Array(kept)@->Array_0.len() == kept@.len());
    if kept.len() == devices.len() {
        let e = MonitoringError::DeviceNotFound(owned(id));
        return Err(e);
    }
    inventory.assign("devices", JsonValue::Array(kept));
    Ok(())
}

/// The devices of the inventory in state `state`, copied.
pub fn devices_in_state(inventory: &JsonValue, state: &str) -> (r: Vec<JsonValue>)
    ensures
        JsonValue::Array(r)@->Array_0 == match get_array(inventory@, "devices"@) {
            Some(ds) => in_state(ds, state@),
            None => Seq::empty(),
        },
{
    let devices = match devices_of(inventory) {
        Some(v) => v,
        None => {
            let r: Vec<JsonValue> = Vec::new();
            assert(JsonValue::Array(r)@->Array_0 =~= Seq::<Json>::empty());
            return r;
        },
    };
    let ghost dv = JsonValue::Array(devices)@->Array_0;
    let mut out: Vec<JsonValue> = Vec::new();
    let mut i: usize = 0;
    assert(JsonValue::Array(out)@->Array_0 =~= in_state(dv.take(0), state@));
    while i < devices.len()
        invariant
            i <= devices.len(),
            dv == JsonValue::Array(devices)@->Array_0,
            JsonValue::Array(out)@->Array_0 == in_state(dv.take(i as int), state@),
        decreases devices.len() - i,
    {
        assert(dv[i as int] == devices@[i as int]@);
        assert(dv.take(i + 1).drop_last() =~= dv.take(i as int));
        let hit = match devices[i].get_str("state") {
            Some(s) => str_eq(s.as_str(), state),
            None => false,
        };
        if hit {
            let ghost before = JsonValue::Array(out)@->Array_0;
            let d = devices[i].duplicate();
            out.push(d);
            assert(JsonValue::Array(out)@->Array_0 =~= before.push(dv[i as int]));
        }
        i += 1;
    }
    assert(dv.take(devices.len() as int) =~= dv);
    out
}

/// The enabled devices, the ones the probe pipeline watches.
pub fn enabled_devices(inventory: &JsonValue) -> (r: Vec<JsonValue>)
    ensures
        JsonValue::Array(r)@->Array_0 == enabled_of(inventory@),
{
    devices_in_state(inventory, "enabled")
}

// ---------------------------------------------------------------------------
// Laws
// ---------------------------------------------------------------------------
/// The devices in a state are exactly the listed devices in that state: each
/// selected device is listed and has the state, and each listed device with
/// the state is selected.
pub proof fn lemma_in_state_members(ds: Seq<Json>, state: Seq<char>)
    ensures
        forall|i: int|
            0 <= i < in_state(ds, state).len() ==> get_str(#[trigger] in_state(ds, state)[i], "state"@)
                == Some(state) && ds.contains(in_state(ds, state)[i]),
        forall|j: int|
            0 <= j < ds.len() && get_str(#[trigger] ds[j], "state"@) == Some(state) ==> in_state(
                ds,
                state,
            ).contains(ds[j]),
    decreases ds.len(),
{
    if ds.len() > 0 {
        let front = ds.drop_last();
        lemma_in_state_members(front, state);
        let r = in_state(front, state);
        let full = in_state(ds, state);
        assert forall|i: int| 0 <= i < full.len() implies get_str(#[trigger] full[i], "state"@)
            == Some(state) && ds.contains(full[i]) by {
            if i < r.len() {
                assert(full[i] == r[i]);
                let k = choose|k: int| 0 <= k < front.len() && front[k] == r[i];
                assert(ds[k] == front[k]);
            } else {
                assert(full[i] == ds.last());
                assert(ds[ds.len() - 1] == ds.last());
            }
        }
        assert forall|j: int| 0 <= j < ds.len() && get_str(#[trigger] ds[j], "state"@) == Some(state)
            implies full.contains(ds[j]) by {
            if j < ds.len() - 1 {
                assert(front[j] == ds[j]);
                let k = choose|k: int| 0 <= k < r.len() && r[k] == front[j];
                assert(full[k] == r[k]);
            } else {
                assert(full[full.len() - 1] == ds.last());
            }
        }
    }
}

/// Removing a device leaves no device with its id, and keeps every other device.
pub proof fn lemma_without_device_members(ds: Seq<Json>, id: Seq<char>)
    ensures
        forall|i: int|
            0 <= i < without_device(ds, id).len() ==> !device_has_id(
                #[trigger] without_device(ds, id)[i],
                id,
            ),
        forall|j: int|
            0 <= j < ds.len() && !device_has_id(#[trigger] ds[j], id) ==> without_device(
                ds,
                id,
            ).contains(ds[j]),
        without_device(ds, id).len() <= ds.len(),
        (exists|j: int| 0 <= j < ds.len() && device_has_id(#[trigger] ds[j], id)) ==> without_device(
            ds,
            id,
        ).len() < ds.len(),
    decreases ds.len(),
{
    if ds.len() > 0 {
        let front = ds.drop_last();
        lemma_without_device_members(front, id);
        let r = without_device(front, id);
        let full = without_device(ds, id);
        assert forall|i: int| 0 <= i < full.len() implies !device_has_id(#[trigger] full[i], id) by {
            if i < r.len() {
                assert(full[i] == r[i]);
            }
        }
        assert forall|j: int| 0 <= j < ds.len() && !device_has_id(#[trigger] ds[j], id) implies full.contains(
            ds[j],
        ) by {
            if j < ds.len() - 1 {
                assert(front[j] == ds[j]);
                let k = choose|k: int| 0 <= k < r.len() && r[k] == front[j];
                assert(full[k] == r[k]);
            } else {
                assert(full[full.len() - 1] == ds.last());
            }
        }
        if exists|j: int| 0 <= j < ds.len() && device_has_id(#[trigger] ds[j], id) {
            let j = choose|j: int| 0 <= j < ds.len() && device_has_id(#[trigger] ds[j], id);
            if j < ds.len() - 1 {
                assert(front[j] == ds[j]);
            }
        }
    }
}

proof fn lemma_multiset_contains<A>(a: Seq<A>, b: Seq<A>, x: A)
    requires
        a.to_multiset() == b.to_multiset(),
        a.contains(x),
    ensures
        b.contains(x),
{
    broadcast use vstd::multiset::group_multiset_axioms;

    a.to_multiset_ensures();
    b.to_multiset_ensures();
    assert(a.to_multiset().count(x) > 0);
    assert(b.to_multiset().count(x) > 0);
}

/// Registering a device lists its record, keeps every device with another id,
/// and keeps the list ordered by name.
pub proof fn lemma_registration_lists_device(devices: Seq<Json>, id: Seq<char>, entry: Json)
    ensures
        devices_after_upsert(devices, id, entry).contains(entry),
        sorted_by(devices_after_upsert(devices, id, entry), name_key()),
        forall|j: int|
            0 <= j < devices.len() && !device_has_id(#[trigger] devices[j], id)
                ==> devices_after_upsert(devices, id, entry).contains(devices[j]),
{
    let i = device_index(devices, id);
    lemma_device_index_bounds(devices, id);
    let placed = if 0 <= i < devices.len() {
        devices.update(i, entry)
    } else {
        devices.push(entry)
    };
    lemma_sort_by_sorted(placed, name_key());
    let sorted = sort_by(placed, name_key());
    if 0 <= i < devices.len() {
        assert(placed[i] == entry);
    } else {
        assert(placed[devices.len() as int] == entry);
    }
    lemma_multiset_contains(placed, sorted, entry);
    assert forall|j: int| 0 <= j < devices.len() && !device_has_id(#[trigger] devices[j], id)
        implies sorted.contains(devices[j]) by {
        assert(j != i);
        assert(placed[j] == devices[j]);
        lemma_multiset_contains(placed, sorted, devices[j]);
    }
}

proof fn lemma_device_index_bounds(devices: Seq<Json>, id: Seq<char>)
    ensures
        0 <= device_index(devices, id) <= devices.len(),
        device_index(devices, id) < devices.len() ==> device_has_id(
            devices[device_index(devices, id)],
            id,
        ),
    decreases devices.len(),
{
    if devices.len() > 0 && !device_has_id(devices[0], id) {
        lemma_device_index_bounds(devices.drop_first(), id);
    }
}

/// Registering then deleting a device: the deletion is accepted and no device
/// with that id remains.
pub proof fn lemma_delete_after_registration(inventory: Json, id: Seq<char>, entry: Json)
    requires
        device_has_id(entry, id),
        upsert_device_result(inventory, id, entry) is Ok,
    ensures
        delete_device_result(upsert_device_result(inventory, id, entry)->Ok_0, id) matches Ok(after)
            && get_array(after, "devices"@) matches Some(ds) && forall|k: int|
            0 <= k < ds.len() ==> !device_has_id(#[trigger] ds[k], id),
{
    let ds = get_array(inventory, "devices"@)->Some_0;
    let inv1 = upsert_device_result(inventory, id, entry)->Ok_0;
    let ds1 = devices_after_upsert(ds, id, entry);
    crate::json::lemma_assign_get(inventory, "devices"@, Json::Array(ds1));
    assert(get_array(inv1, "devices"@) == Some(ds1));
    lemma_registration_lists_device(ds, id, entry);
    let k = choose|k: int| 0 <= k < ds1.len() && ds1[k] == entry;
    assert(device_has_id(ds1[k], id));
    lemma_without_device_members(ds1, id);
    let kept = without_device(ds1, id);
    crate::json::lemma_assign_get(inv1, "devices"@, Json::Array(kept));
}

/// Devices before the first one with `id` do not have it.
proof fn lemma_device_index_first(devices: Seq<Json>, id: Seq<char>)
    ensures
        forall|j: int| 0 <= j < device_index(devices, id) && j < devices.len() ==> !device_has_id(
            #[trigger] devices[j],
            id,
        ),
    decreases devices.len(),
{
    if devices.len() > 0 && !device_has_id(devices[0], id) {
        let t = devices.drop_first();
        lemma_device_index_first(t, id);
        assert forall|j: int| 0 <= j < device_index(devices, id) && j < devices.len() implies !device_has_id(
            #[trigger] devices[j],
            id,
        ) by {
            if j > 0 {
                assert(devices[j] == t[j - 1]);
            }
        }
    }
}

/// The device has the id.
pub open spec fn has_id(id: Seq<char>) -> spec_fn(Json) -> bool {
    |d: Json| device_has_id(d, id)
}

/// Ids are unique: no two listed devices share `id`.
pub open spec fn id_unique(devices: Seq<Json>, id: Seq<char>) -> bool {
    forall|a: int, b: int|
        0 <= a < devices.len() && 0 <= b < devices.len() && device_has_id(#[trigger] devices[a], id)
            && device_has_id(#[trigger] devices[b], id) ==> a == b
}

/// Registering a device under its own id, in a list where that id occurs at
/// most once, leaves exactly one device with the id: the new record, which
/// replaces the old one if there was one.
pub proof fn lemma_registration_keeps_one_device(devices: Seq<Json>, id: Seq<char>, entry: Json)
    requires
        device_has_id(entry, id),
        id_unique(devices, id),
    ensures
        count_where(devices_after_upsert(devices, id, entry), has_id(id)) == 1,
        forall|k: int|
            0 <= k < devices_after_upsert(devices, id, entry).len() && device_has_id(
                #[trigger] devices_after_upsert(devices, id, entry)[k],
                id,
            ) ==> devices_after_upsert(devices, id, entry)[k] == entry,
        devices_after_upsert(devices, id, entry).len() == if exists|j: int|
            0 <= j < devices.len() && device_has_id(#[trigger] devices[j], id) {
            devices.len()
        } else {
            devices.len() + 1
        },
{
    let i = device_index(devices, id);
    lemma_device_index_bounds(devices, id);
    lemma_device_index_first(devices, id);
    let placed = if 0 <= i < devices.len() {
        devices.update(i, entry)
    } else {
        devices.push(entry)
    };
    let pos = if 0 <= i < devices.len() { i } else { devices.len() as int };
    assert(placed[pos] == entry);
    assert forall|j: int| 0 <= j < placed.len() && j != pos implies !has_id(id)(#[trigger] placed[j]) by {
        assert(placed[j] == devices[j]);
        if 0 <= i < devices.len() {
            if device_has_id(devices[j], id) {
                assert(device_has_id(devices[i], id));
            }
        }
    }
    lemma_count_where_single(placed, has_id(id), pos);
    lemma_sort_by_sorted(placed, name_key());
    let sorted = sort_by(placed, name_key());
    lemma_count_where_permutation(placed, sorted, has_id(id));
    assert forall|k: int| 0 <= k < sorted.len() && device_has_id(#[trigger] sorted[k], id) implies sorted[k]
        == entry by {
        assert(sorted.contains(sorted[k]));
        lemma_multiset_contains(sorted, placed, sorted[k]);
        let m = choose|m: int| 0 <= m < placed.len() && placed[m] == sorted[k];
        if m != pos {
            assert(!has_id(id)(placed[m]));
        }
    }
    sorted.to_multiset_ensures();
    placed.to_multiset_ensures();
    if exists|j: int| 0 <= j < devices.len() && device_has_id(#[trigger] devices[j], id) {
        let j = choose|j: int| 0 <= j < devices.len() && device_has_id(#[trigger] devices[j], id);
        assert(0 <= i < devices.len());
    }
}

/// Registration on a stored inventory whose device ids are unique: it is
/// accepted, and the stored list then holds exactly one device with the id,
/// the new record (see `lemma_registration_keeps_one_device`).
pub proof fn lemma_registered_inventory_has_one_device(inventory: Json, id: Seq<char>, entry: Json)
    requires
        device_has_id(entry, id),
        get_array(inventory, "devices"@) matches Some(ds) && id_unique(ds, id),
    ensures
        upsert_device_result(inventory, id, entry) matches Ok(after) && get_array(after, "devices"@)
            == Some(devices_after_upsert(get_array(inventory, "devices"@)->0, id, entry)),
        count_where(devices_after_upsert(get_array(inventory, "devices"@)->0, id, entry), has_id(id))
            == 1,
{
    let ds = get_array(inventory, "devices"@)->0;
    let ds1 = devices_after_upsert(ds, id, entry);
    crate::json::lemma_assign_get(inventory, "devices"@, Json::Array(ds1));
    lemma_registration_keeps_one_device(ds, id, entry);
}

} // verus!
