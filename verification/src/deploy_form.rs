//! The deployment form of the infrastructure page: reading its numbers, the
//! checks before submitting, the request it sends, and which remote, node
//! and storage it targets.
use vstd::prelude::*;

use crate::json::{push_field, Json, JsonNumber, JsonValue, Number};
use crate::split::views;
use crate::text::{chars_of, owned, push_all, str_eq, trim, trimmed};

verus! {

// ---------------------------------------------------------------------------
// Unsigned decimal numbers, as `str::parse` reads them
// ---------------------------------------------------------------------------
pub open spec fn is_digit(c: char) -> bool {
    '0' <= c && c <= '9'
}

/// The value of a string of decimal digits.
pub open spec fn digits_value(d: Seq<char>) -> nat
    decreases d.len(),
{
    if d.len() == 0 {
        0
    } else {
        digits_value(d.drop_last()) * 10 + ((d.last() as u32 - '0' as u32) as nat)
    }
}

/// The text after an optional leading `+`.
pub open spec fn unsigned_digits(s: Seq<char>) -> Seq<char> {
    if s.len() > 0 && s[0] == '+' {
        s.skip(1)
    } else {
        s
    }
}

pub open spec fn all_digits(d: Seq<char>) -> bool {
    forall|i: int| 0 <= i < d.len() ==> is_digit(#[trigger] d[i])
}

/// What `str::parse` gives for an unsigned integer type with largest value
/// `max`: an optional `+`, then at least one decimal digit and nothing else,
/// of a value that fits.
pub open spec fn parsed_unsigned(s: Seq<char>, max: nat) -> Option<nat> {
    let d = unsigned_digits(s);
    if d.len() == 0 || !all_digits(d) {
        None
    } else if digits_value(d) <= max {
        Some(digits_value(d))
    } else {
        None
    }
}

proof fn lemma_digits_value_grows(d: Seq<char>, k: int)
    requires
        0 <= k <= d.len(),
        forall|i: int| 0 <= i < d.len() ==> is_digit(#[trigger] d[i]),
    ensures
        digits_value(d.take(k)) <= digits_value(d),
    decreases d.len(),
{
    if k < d.len() {
        let front = d.drop_last();
        assert(front.take(k) =~= d.take(k));
        assert forall|i: int| 0 <= i < front.len() implies is_digit(#[trigger] front[i]) by {
            assert(front[i] == d[i]);
        }
        lemma_digits_value_grows(front, k);
    } else {
        assert(d.take(k) =~= d);
    }
}

/// Reads an unsigned number no larger than `max` (see `parsed_unsigned`).
pub fn parse_unsigned(s: &str, max: u64) -> (r: Option<u64>)
    ensures
        match r {
            Some(n) => parsed_unsigned(s@, max as nat) == Some(n as nat),
            None => parsed_unsigned(s@, max as nat) is None,
        },
{
    let v = chars_of(s);
    let start: usize = if v.len() > 0 && v[0] == '+' {
        1
    } else {
        0
    };
    let ghost d = unsigned_digits(s@);
    assert(d =~= v@.skip(start as int));
    if start >= v.len() {
        return None;
    }
    let mut i: usize = start;
    while i < v.len()
        invariant
            start <= i <= v.len(),
            v@ == s@,
            d == v@.skip(start as int),
            d == unsigned_digits(s@),
            d.len() == v.len() - start,
            forall|j: int| 0 <= j < i - start ==> is_digit(#[trigger] d[j]),
        decreases v.len() - i,
    {
        if !('0' <= v[i] && v[i] <= '9') {
            assert(d[i - start] == v@[i as int]);
            assert(!is_digit(d[i - start]));
            return None;
        }
        i += 1;
    }
    let mut value: u64 = 0;
    let mut k: usize = start;
    assert(d.take(0) =~= Seq::<char>::empty());
    while k < v.len()
        invariant
            start <= k <= v.len(),
            v@ == s@,
            d == v@.skip(start as int),
            d == unsigned_digits(s@),
            d.len() == v.len() - start,
            forall|j: int| 0 <= j < d.len() ==> is_digit(#[trigger] d[j]),
            value == digits_value(d.take(k - start)),
            value <= max,
        decreases v.len() - k,
    {
        assert(d[k - start] == v@[k as int]);
        assert(is_digit(d[k - start]));
        let digit = (v[k] as u32 - '0' as u32) as u64;
        assert(d.take(k + 1 - start).drop_last() =~= d.take(k - start));
        assert(d.take(k + 1 - start).last() == v@[k as int]);
        if digit > max || value > (max - digit) / 10 {
            proof {
                assert(digits_value(d.take(k + 1 - start)) == value * 10 + digit);
                if digit <= max {
                    assert(value * 10 + digit > max) by (nonlinear_arith)
                        requires
                            value > (max - digit) / 10,
                            digit <= max,
                    ;
                }
                lemma_digits_value_grows(d, k + 1 - start);
            }
            return None;
        }
        proof {
            assert(value * 10 + digit <= max) by (nonlinear_arith)
                requires
                    value <= (max - digit) / 10,
                    digit <= max,
            ;
        }
        value = value * 10 + digit;
        k += 1;
    }
    assert(d.take(d.len() as int) =~= d);
    Some(value)
}

// ---------------------------------------------------------------------------
// The request
// ---------------------------------------------------------------------------
/// The fields of the deployment form, as typed.
pub struct DeployForm {
    /// `lxc` for a container, anything else for a virtual machine.
    pub workload: String,
    pub vmid: String,
    pub name: String,
    pub cores: String,
    pub memory: String,
    pub disk: String,
    pub bridge: String,
    /// The OS template of a container, or the installation ISO of a VM.
    pub source: String,
    pub password: String,
    pub start: bool,
}

pub open spec fn num(n: nat) -> Json {
    Json::Num(Number::PosInt(n as u64))
}

pub open spec fn text_or_null(t: Seq<char>) -> Json {
    if t.len() == 0 {
        Json::Null
    } else {
        Json::Str(t)
    }
}

/// What submitting the form sends, or why it is refused: the four numbers
/// must read as numbers (VMID, cores, memory, disk, checked in this order),
/// remote, node and storage must be chosen, the name must not be blank, and a
/// container needs an OS template. The request goes to the remote's
/// deployment endpoint for the workload.
pub open spec fn form_request_spec(f: DeployForm, remote: Seq<char>, node: Seq<char>, storage: Seq<char>) -> Result<
    (Seq<char>, Json),
    Seq<char>,
> {
    let lxc = f.workload@ == "lxc"@;
    match (
        parsed_unsigned(f.vmid@, u32::MAX as nat),
        parsed_unsigned(f.cores@, u64::MAX as nat),
        parsed_unsigned(f.memory@, u64::MAX as nat),
        parsed_unsigned(f.disk@, u64::MAX as nat),
    ) {
        (None, _, _, _) => Err("VMID must be a number."@),
        (Some(_), None, _, _) => Err("Cores must be a number."@),
        (Some(_), Some(_), None, _) => Err("Memory must be a number."@),
        (Some(_), Some(_), Some(_), None) => Err("Disk size must be a number."@),
        (Some(vmid), Some(cores), Some(memory), Some(disk)) => if remote.len() == 0 || node.len() == 0
            || storage.len() == 0 {
            Err("Remote, node and storage are required."@)
        } else if trim(f.name@).len() == 0 {
            Err(
                if lxc {
                    "Container hostname is required."@
                } else {
                    "Virtual machine name is required."@
                },
            )
        } else if lxc && trim(f.source@).len() == 0 {
            Err("An LXC OS template volume is required."@)
        } else if lxc {
            Ok(
                (
                    "/pve/remotes/"@ + remote + "/deploy/lxc"@,
                    Json::Object(
                        seq![
                            ("node"@, Json::Str(node)),
                            ("vmid"@, num(vmid)),
                            ("hostname"@, Json::Str(f.name@)),
                            ("ostemplate"@, Json::Str(f.source@)),
                            ("cores"@, num(cores)),
                            ("memory"@, num(memory)),
                            ("storage"@, Json::Str(storage)),
                            ("disk-gb"@, num(disk)),
                            ("bridge"@, Json::Str(f.bridge@)),
                            ("password"@, text_or_null(f.password@)),
                            ("start"@, Json::Bool(f.start)),
                        ],
                    ),
                ),
            )
        } else {
            Ok(
                (
                    "/pve/remotes/"@ + remote + "/deploy/qemu"@,
                    Json::Object(
                        seq![
                            ("node"@, Json::Str(node)),
                            ("vmid"@, num(vmid)),
                            ("name"@, Json::Str(f.name@)),
                            ("cores"@, num(cores)),
                            ("memory"@, num(memory)),
                            ("storage"@, Json::Str(storage)),
                            ("disk-gb"@, num(disk)),
                            ("bridge"@, Json::Str(f.bridge@)),
                            ("iso"@, text_or_null(f.source@)),
                            ("start"@, Json::Bool(f.start)),
                        ],
                    ),
                ),
            )
        }
    }
}

pub open spec fn request_view(r: Result<(String, JsonValue), String>) -> Result<(Seq<char>, Json), Seq<char>> {
    match r {
        Ok((u, p)) => Ok((u@, p@)),
        Err(e) => Err(e@),
    }
}

fn text_or_null_value(t: &String) -> (r: JsonValue)
    ensures
        r@ == text_or_null(t@),
{
    if t.as_str().is_empty() {
        JsonValue::Null
    } else {
        JsonValue::Str(t.clone())
    }
}

fn number(n: u64) -> (r: JsonValue)
    ensures
        r@ == num(n as nat),
{
    JsonValue::Number(JsonNumber::PosInt(n))
}

/// What submitting the form sends to the chosen remote, node and storage, or
/// why it is refused (see `form_request_spec`).
pub fn form_request(f: &DeployForm, remote: &str, node: &str, storage: &str) -> (r: Result<
    (String, JsonValue),
    String,
>)
    ensures
        request_view(r) == form_request_spec(*f, remote@, node@, storage@),
{
    let vmid = match parse_unsigned(f.vmid.as_str(), 0xffff_ffff) {
        Some(n) => n,
        None => return Err(owned("VMID must be a number.")),
    };
    let cores = match parse_unsigned(f.cores.as_str(), u64::MAX) {
        Some(n) => n,
        None => return Err(owned("Cores must be a number.")),
    };
    let memory = match parse_unsigned(f.memory.as_str(), u64::MAX) {
        Some(n) => n,
        None => return Err(owned("Memory must be a number.")),
    };
    let disk = match parse_unsigned(f.disk.as_str(), u64::MAX) {
        Some(n) => n,
        None => return Err(owned("Disk size must be a number.")),
    };
    if remote.is_empty() || node.is_empty() || storage.is_empty() {
        return Err(owned("Remote, node and storage are required."));
    }
    let lxc = str_eq(f.workload.as_str(), "lxc");
    if trimmed(f.name.as_str()).as_str().is_empty() {
        if lxc {
            return Err(owned("Container hostname is required."));
        } else {
            return Err(owned("Virtual machine name is required."));
        }
    }
    if lxc && trimmed(f.source.as_str()).as_str().is_empty() {
        return Err(owned("An LXC OS template volume is required."));
    }
    let mut url = owned("/pve/remotes/");
    push_all(&mut url, remote);
    let mut p: Vec<(String, JsonValue)> = Vec::new();
    assert(JsonValue::Object(p)@->Object_0 =~= Seq::<(Seq<char>, Json)>::empty());
    push_field(&mut p, "node", JsonValue::text(node));
    push_field(&mut p, "vmid", number(vmid));
    if lxc {
        push_all(&mut url, "/deploy/lxc");
        push_field(&mut p, "hostname", JsonValue::Str(f.name.clone()));
        push_field(&mut p, "ostemplate", JsonValue::Str(f.source.clone()));
    } else {
        push_all(&mut url, "/deploy/qemu");
        push_field(&mut p, "name", JsonValue::Str(f.name.clone()));
    }
    push_field(&mut p, "cores", number(cores));
    push_field(&mut p, "memory", number(memory));
    push_field(&mut p, "storage", JsonValue::text(storage));
    push_field(&mut p, "disk-gb", number(disk));
    push_field(&mut p, "bridge", JsonValue::Str(f.bridge.clone()));
    if lxc {
        push_field(&mut p, "password", text_or_null_value(&f.password));
    } else {
        push_field(&mut p, "iso", text_or_null_value(&f.source));
    }
    push_field(&mut p, "start", JsonValue::Bool(f.start));
    let payload = JsonValue::Object(p);
    let ghost want = form_request_spec(*f, remote@, node@, storage@);
    assert(want is Ok);
    assert(payload@->Object_0 =~= want->Ok_0.1->Object_0);
    assert(url@ =~= want->Ok_0.0);
    Ok((url, payload))
}

// ---------------------------------------------------------------------------
// Targets
// ---------------------------------------------------------------------------
/// A storage a guest can be placed on.
pub struct StorageTarget {
    pub remote: String,
    pub node: String,
    pub storage: String,
    pub shared: bool,
}

/// The chosen value, or the first candidate when nothing is chosen.
pub open spec fn chosen(selected: Seq<char>, first: Option<Seq<char>>) -> Seq<char> {
    if selected.len() > 0 {
        selected
    } else {
        match first {
            Some(f) => f,
            None => Seq::empty(),
        }
    }
}

/// The first node of `remote` among the (remote, node) targets.
pub open spec fn first_node(targets: Seq<(String, String)>, remote: Seq<char>) -> Option<Seq<char>>
    decreases targets.len(),
{
    if targets.len() == 0 {
        None
    } else if targets[0].0@ == remote {
        Some(targets[0].1@)
    } else {
        first_node(targets.drop_first(), remote)
    }
}

/// The first storage usable on `node` of `remote`: shared, or on that node.
pub open spec fn first_storage(storages: Seq<StorageTarget>, remote: Seq<char>, node: Seq<char>) -> Option<
    Seq<char>,
>
    decreases storages.len(),
{
    if storages.len() == 0 {
        None
    } else if storages[0].remote@ == remote && (storages[0].shared || storages[0].node@ == node) {
        Some(storages[0].storage@)
    } else {
        first_storage(storages.drop_first(), remote, node)
    }
}

/// What the form targets: the chosen remote (or the first one), the chosen
/// node (or the first of that remote), the chosen storage (or the first one
/// usable on that node).
pub fn form_targets(
    remote: &str,
    node: &str,
    storage: &str,
    targets: &Vec<(String, String)>,
    storages: &Vec<StorageTarget>,
) -> (r: (String, String, String))
    ensures
        r.0@ == chosen(remote@, if targets.len() > 0 { Some(targets@[0].0@) } else { None }),
        r.1@ == chosen(node@, first_node(targets@, r.0@)),
        r.2@ == chosen(storage@, first_storage(storages@, r.0@, r.1@)),
{
    let r = if !remote.is_empty() {
        owned(remote)
    } else if targets.len() > 0 {
        targets[0].0.clone()
    } else {
        String::new()
    };
    let mut first: Option<String> = None;
    let mut i: usize = 0;
    assert(targets@.skip(0) =~= targets@);
    while i < targets.len()
        invariant
            i <= targets.len(),
            first is None ==> first_node(targets@, r@) == first_node(targets@.skip(i as int), r@),
            first matches Some(f) ==> first_node(targets@, r@) == Some(f@),
        decreases targets.len() - i,
    {
        assert(targets@.skip(i as int).drop_first() =~= targets@.skip(i + 1));
        if first.is_none() && str_eq(targets[i].0.as_str(), r.as_str()) {
            first = Some(targets[i].1.clone());
        }
        i += 1;
    }
    let n = if !node.is_empty() {
        owned(node)
    } else {
        match first {
            Some(f) => f,
            None => String::new(),
        }
    };
    let mut first_s: Option<String> = None;
    let mut j: usize = 0;
    assert(storages@.skip(0) =~= storages@);
    while j < storages.len()
        invariant
            j <= storages.len(),
            first_s is None ==> first_storage(storages@, r@, n@) == first_storage(
                storages@.skip(j as int),
                r@,
                n@,
            ),
            first_s matches Some(f) ==> first_storage(storages@, r@, n@) == Some(f@),
        decreases storages.len() - j,
    {
        assert(storages@.skip(j as int).drop_first() =~= storages@.skip(j + 1));
        let s = &storages[j];
        if first_s.is_none() && str_eq(s.remote.as_str(), r.as_str()) && (s.shared || str_eq(
            s.node.as_str(),
            n.as_str(),
        )) {
            first_s = Some(s.storage.clone());
        }
        j += 1;
    }
    let st = if !storage.is_empty() {
        owned(storage)
    } else {
        match first_s {
            Some(f) => f,
            None => String::new(),
        }
    };
    (r, n, st)
}

/// Where the next free VMID of the chosen remote is asked for; refused
/// without a remote.
pub fn next_id_request(remote: &str) -> (r: Result<String, String>)
    ensures
        remote@.len() == 0 ==> (r matches Err(e) && e@ == "Select a PVE remote first."@),
        remote@.len() > 0 ==> (r matches Ok(u) && u@ == "/pve/remotes/"@ + remote@ + "/cluster-nextid"@),
{
    if remote.is_empty() {
        return Err(owned("Select a PVE remote first."));
    }
    let mut u = owned("/pve/remotes/");
    push_all(&mut u, remote);
    push_all(&mut u, "/cluster-nextid");
    Ok(u)
}

} // verus!
