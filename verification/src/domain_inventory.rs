//! The domains-hosting inventory: its bootstrap content, lookup of a domain's
//! entry, and the updates that onboarding and adoption make to it.
use vstd::prelude::*;

use crate::domain_names::DomainError;
use crate::json::{
    as_array, assign, assignable, field, get, get_array, get_str, lemma_assign_get,
    lemma_assign_get_other, lemma_field_index_at, lemma_field_index_bounds,
    lemma_assign_same, lemma_remove_field_absent, lemma_remove_field_noop,
    lemma_remove_field_other, push_field, remove_field, set_field, field_index, Json,
    JsonNumber, JsonValue, Number,
};
use crate::text::str_eq;

verus! {

// ---------------------------------------------------------------------------
// Bootstrap inventory
// ---------------------------------------------------------------------------
/// A bootstrap domain entry.
pub open spec fn seed_entry(name: Seq<char>, mail: bool, webmail: bool, ddns: bool, tunnel: bool) -> Json {
    Json::Object(
        seq![
            ("name"@, Json::Str(name)),
            ("mail"@, Json::Bool(mail)),
            ("webmail"@, Json::Bool(webmail)),
            ("ddns"@, Json::Bool(ddns)),
            ("tunnel"@, Json::Bool(tunnel)),
        ],
    )
}

/// The hosting defaults of the bootstrap inventory.
pub open spec fn bootstrap_defaults() -> Json {
    Json::Object(
        seq![
            ("hestia_host"@, Json::Str("192.168.0.29"@)),
            ("hestia_user"@, Json::Str("admin"@)),
            ("relay_hostname"@, Json::Str("smtp.dreamteclabs.com"@)),
            ("relay_ipv4"@, Json::Str("23.254.215.34"@)),
            ("webmail_origin_http"@, Json::Str("http://192.168.0.29:80"@)),
            ("webmail_origin_https"@, Json::Str("https://192.168.0.29:443"@)),
            ("webmail_no_tls_verify"@, Json::Bool(true)),
            ("dmarc_policy"@, Json::Str("p=none"@)),
        ],
    )
}

/// The known estate the bootstrap inventory lists.
pub open spec fn bootstrap_domains() -> Seq<Json> {
    seq![
        seed_entry("dreamteclabs.com"@, true, true, true, true),
        seed_entry("kinpilot.app"@, true, true, true, true),
        seed_entry("savipilot.com"@, true, true, true, true),
        seed_entry("domuspilot.com"@, true, true, true, true),
        seed_entry("mundoleo.co"@, true, true, true, true),
        seed_entry("dreamtec.com.br"@, true, true, true, false),
        seed_entry("claudiokaist.com"@, false, false, true, false),
    ]
}

/// The ownership policy of the bootstrap inventory.
pub open spec fn bootstrap_policy() -> Json {
    Json::Object(
        seq![
            ("mail_hostnames_dns_only"@, Json::Bool(true)),
            ("smtp_hostnames_dns_only"@, Json::Bool(true)),
            ("webmail_hostnames_tunnel_managed"@, Json::Bool(true)),
            ("forbid_webmail_ddns"@, Json::Bool(true)),
            ("forbid_mail_proxy"@, Json::Bool(true)),
        ],
    )
}

/// The inventory in force while no inventory has been written.
pub open spec fn bootstrap_inventory() -> Json {
    Json::Object(
        seq![
            ("version"@, Json::Num(Number::PosInt(1))),
            ("defaults"@, bootstrap_defaults()),
            ("domains"@, Json::Array(bootstrap_domains())),
            ("policy"@, bootstrap_policy()),
        ],
    )
}

fn seed(name: &str, mail: bool, webmail: bool, ddns: bool, tunnel: bool) -> (r: JsonValue)
    ensures
        r@ == seed_entry(name@, mail, webmail, ddns, tunnel),
{
    let mut f: Vec<(String, JsonValue)> = Vec::new();
    assert(JsonValue::Object(f)@->Object_0 =~= Seq::<(Seq<char>, Json)>::empty());
    push_field(&mut f, "name", JsonValue::text(name));
    push_field(&mut f, "mail", JsonValue::Bool(mail));
    push_field(&mut f, "webmail", JsonValue::Bool(webmail));
    push_field(&mut f, "ddns", JsonValue::Bool(ddns));
    push_field(&mut f, "tunnel", JsonValue::Bool(tunnel));
    let r = JsonValue::Object(f);
    assert(r@->Object_0 =~= seed_entry(name@, mail, webmail, ddns, tunnel)->Object_0);
    r
}

fn push_item(items: &mut Vec<JsonValue>, v: JsonValue)
    ensures
        JsonValue::Array(*final(items))@->Array_0 == JsonValue::Array(*old(items))@->Array_0.push(v@),
{
    let ghost before = JsonValue::Array(*items)@->Array_0;
    let ghost vv = v@;
    items.push(v);
    let ghost after = JsonValue::Array(*items)@->Array_0;
    assert(after.len() == before.len() + 1);
    assert(after[before.len() as int] == vv);
    assert forall|i: int| 0 <= i < before.len() implies after[i] == before[i] by {}
    assert(after =~= before.push(vv));
}

/// The bootstrap inventory (see `bootstrap_inventory`).
pub fn default_inventory() -> (r: JsonValue)
    ensures
        r@ == bootstrap_inventory(),
{
    let mut d: Vec<(String, JsonValue)> = Vec::new();
    assert(JsonValue::Object(d)@->Object_0 =~= Seq::<(Seq<char>, Json)>::empty());
    push_field(&mut d, "hestia_host", JsonValue::text("192.168.0.29"));
    push_field(&mut d, "hestia_user", JsonValue::text("admin"));
    push_field(&mut d, "relay_hostname", JsonValue::text("smtp.dreamteclabs.com"));
    push_field(&mut d, "relay_ipv4", JsonValue::text("23.254.215.34"));
    push_field(&mut d, "webmail_origin_http", JsonValue::text("http://192.168.0.29:80"));
    push_field(&mut d, "webmail_origin_https", JsonValue::text("https://192.168.0.29:443"));
    push_field(&mut d, "webmail_no_tls_verify", JsonValue::Bool(true));
    push_field(&mut d, "dmarc_policy", JsonValue::text("p=none"));
    let defaults = JsonValue::Object(d);
    assert(defaults@->Object_0 =~= bootstrap_defaults()->Object_0);

    let mut domains: Vec<JsonValue> = Vec::new();
    assert(JsonValue::Array(domains)@->Array_0 =~= Seq::<Json>::empty());
    push_item(&mut domains, seed("dreamteclabs.com", true, true, true, true));
    push_item(&mut domains, seed("kinpilot.app", true, true, true, true));
    push_item(&mut domains, seed("savipilot.com", true, true, true, true));
    push_item(&mut domains, seed("domuspilot.com", true, true, true, true));
    push_item(&mut domains, seed("mundoleo.co", true, true, true, true));
    push_item(&mut domains, seed("dreamtec.com.br", true, true, true, false));
    push_item(&mut domains, seed("claudiokaist.com", false, false, true, false));
    let domains = JsonValue::Array(domains);
    assert(domains@->Array_0 =~= bootstrap_domains());

    let mut p: Vec<(String, JsonValue)> = Vec::new();
    assert(JsonValue::Object(p)@->Object_0 =~= Seq::<(Seq<char>, Json)>::empty());
    push_field(&mut p, "mail_hostnames_dns_only", JsonValue::Bool(true));
    push_field(&mut p, "smtp_hostnames_dns_only", JsonValue::Bool(true));
    push_field(&mut p, "webmail_hostnames_tunnel_managed", JsonValue::Bool(true));
    push_field(&mut p, "forbid_webmail_ddns", JsonValue::Bool(true));
    push_field(&mut p, "forbid_mail_proxy", JsonValue::Bool(true));
    let policy = JsonValue::Object(p);
    assert(policy@->Object_0 =~= bootstrap_policy()->Object_0);

    let mut top: Vec<(String, JsonValue)> = Vec::new();
    assert(JsonValue::Object(top)@->Object_0 =~= Seq::<(Seq<char>, Json)>::empty());
    push_field(&mut top, "version", JsonValue::Number(JsonNumber::PosInt(1)));
    push_field(&mut top, "defaults", defaults);
    push_field(&mut top, "domains", domains);
    push_field(&mut top, "policy", policy);
    let r = JsonValue::Object(top);
    assert(r@->Object_0 =~= bootstrap_inventory()->Object_0);
    r
}

/// The inventory in force: the stored one, or the bootstrap inventory when
/// none has been stored.
pub fn inventory_or_default(stored: Option<JsonValue>) -> (r: JsonValue)
    ensures
        r@ == match stored {
            Some(v) => v@,
            None => bootstrap_inventory(),
        },
{
    match stored {
        Some(v) => v,
        None => default_inventory(),
    }
}

// ---------------------------------------------------------------------------
// Entry lookup
// ---------------------------------------------------------------------------
/// The entry describes `domain`.
pub open spec fn entry_named(e: Json, domain: Seq<char>) -> bool {
    get_str(e, "name"@) == Some(domain)
}

/// Position of the first entry for `domain` (the length when there is none).
pub open spec fn entry_index(entries: Seq<Json>, domain: Seq<char>) -> int
    decreases entries.len(),
{
    if entries.len() == 0 {
        0
    } else if entry_named(entries[0], domain) {
        0
    } else {
        1 + entry_index(entries.drop_first(), domain)
    }
}

/// The inventory's first entry for `domain`.
pub open spec fn find_entry(inventory: Json, domain: Seq<char>) -> Option<Json> {
    match get_array(inventory, "domains"@) {
        Some(entries) => {
            let i = entry_index(entries, domain);
            if 0 <= i < entries.len() {
                Some(entries[i])
            } else {
                None
            }
        },
        None => None,
    }
}

pub proof fn lemma_entry_index_bounds(entries: Seq<Json>, domain: Seq<char>)
    ensures
        0 <= entry_index(entries, domain) <= entries.len(),
        entry_index(entries, domain) < entries.len() ==> entry_named(
            entries[entry_index(entries, domain)],
            domain,
        ),
        forall|j: int|
            0 <= j < entry_index(entries, domain) ==> !entry_named(#[trigger] entries[j], domain),
    decreases entries.len(),
{
    if entries.len() > 0 && !entry_named(entries[0], domain) {
        lemma_entry_index_bounds(entries.drop_first(), domain);
        assert forall|j: int| 0 <= j < entry_index(entries, domain) implies !entry_named(
            #[trigger] entries[j],
            domain,
        ) by {
            if j > 0 {
                assert(entries[j] == entries.drop_first()[j - 1]);
            }
        }
    }
}

pub proof fn lemma_entry_index_at(entries: Seq<Json>, domain: Seq<char>, i: int)
    requires
        0 <= i <= entries.len(),
        i < entries.len() ==> entry_named(entries[i], domain),
        forall|j: int| 0 <= j < i ==> !entry_named(#[trigger] entries[j], domain),
    ensures
        entry_index(entries, domain) == i,
    decreases entries.len(),
{
    if entries.len() > 0 && i > 0 {
        assert forall|j: int| 0 <= j < i - 1 implies !entry_named(
            #[trigger] entries.drop_first()[j],
            domain,
        ) by {
            assert(entries.drop_first()[j] == entries[j + 1]);
        }
        lemma_entry_index_at(entries.drop_first(), domain, i - 1);
    }
}

/// Position of the first entry named `domain` in `entries`.
fn entry_position(entries: &Vec<JsonValue>, domain: &str) -> (r: usize)
    ensures
        r == entry_index(JsonValue::Array(*entries)@->Array_0, domain@),
{
    let ghost ev = JsonValue::Array(*entries)@->Array_0;
    let mut i: usize = 0;
    while i < entries.len()
        invariant
            i <= entries.len(),
            ev == JsonValue::Array(*entries)@->Array_0,
            forall|j: int| 0 <= j < i ==> !entry_named(#[trigger] ev[j], domain@),
        decreases entries.len() - i,
    {
        assert(ev[i as int] == entries@[i as int]@);
        let named = match entries[i].get_str("name") {
            Some(n) => str_eq(n.as_str(), domain),
            None => false,
        };
        if named {
            proof {
                lemma_entry_index_at(ev, domain@, i as int);
            }
            return i;
        }
        i += 1;
    }
    proof {
        lemma_entry_index_at(ev, domain@, i as int);
    }
    i
}

/// The inventory's first entry for `domain` (see `find_entry`).
pub fn find_domain_entry<'a>(inventory: &'a JsonValue, domain: &str) -> (r: Option<&'a JsonValue>)
    ensures
        match r {
            Some(e) => find_entry(inventory@, domain@) == Some(e@),
            None => find_entry(inventory@, domain@) is None,
        },
{
    let domains = inventory.get("domains")?;
    let entries = domains.as_array()?;
    let i = entry_position(entries, domain);
    if i < entries.len() {
        Some(&entries[i])
    } else {
        None
    }
}

// ---------------------------------------------------------------------------
// Onboarding and adoption updates
// ---------------------------------------------------------------------------
/// An existing entry after onboarding: mail, webmail, DDNS and tunnel managed,
/// `nexus` configuration mode, no adopted records.
pub open spec fn managed_entry(e: Json) -> Json {
    let e1 = assign(
        assign(
            assign(
                assign(assign(e, "mail"@, Json::Bool(true)), "webmail"@, Json::Bool(true)),
                "ddns"@,
                Json::Bool(true),
            ),
            "tunnel"@,
            Json::Bool(true),
        ),
        "configuration_mode"@,
        Json::Str("nexus"@),
    );
    match e1 {
        Json::Object(f) => Json::Object(remove_field(f, "adopted_checks"@)),
        _ => e1,
    }
}

/// The entry onboarding adds for a domain the inventory does not list.
pub open spec fn new_entry(domain: Seq<char>) -> Json {
    Json::Object(
        seq![
            ("name"@, Json::Str(domain)),
            ("mail"@, Json::Bool(true)),
            ("webmail"@, Json::Bool(true)),
            ("ddns"@, Json::Bool(true)),
            ("tunnel"@, Json::Bool(true)),
            ("configuration_mode"@, Json::Str("nexus"@)),
        ],
    )
}

/// Inventory after onboarding `domain`, and whether the entry is new.
pub open spec fn upsert_result(inventory: Json, domain: Seq<char>) -> Result<(Json, bool), DomainError> {
    match get_array(inventory, "domains"@) {
        None => Err(DomainError::MissingDomainsArray),
        Some(entries) => {
            let i = entry_index(entries, domain);
            if 0 <= i < entries.len() {
                Ok(
                    (
                        assign(
                            inventory,
                            "domains"@,
                            Json::Array(entries.update(i, managed_entry(entries[i]))),
                        ),
                        false,
                    ),
                )
            } else {
                Ok((assign(inventory, "domains"@, Json::Array(entries.push(new_entry(domain)))), true))
            }
        },
    }
}

/// Inventory after adopting the live records of `domain`.
pub open spec fn adopt_result(inventory: Json, domain: Seq<char>, adopted: Json) -> Result<
    Json,
    DomainError,
> {
    match get_array(inventory, "domains"@) {
        None => Err(DomainError::DomainNotInInventory),
        Some(entries) => {
            let i = entry_index(entries, domain);
            if 0 <= i < entries.len() {
                Ok(
                    assign(
                        inventory,
                        "domains"@,
                        Json::Array(
                            entries.update(
                                i,
                                assign(
                                    assign(
                                        entries[i],
                                        "configuration_mode"@,
                                        Json::Str("existing"@),
                                    ),
                                    "adopted_checks"@,
                                    adopted,
                                ),
                            ),
                        ),
                    ),
                )
            } else {
                Err(DomainError::DomainNotInInventory)
            }
        },
    }
}

/// A named entry is an object.
proof fn lemma_named_is_object(e: Json, domain: Seq<char>)
    requires
        entry_named(e, domain),
    ensures
        e is Object,
{
}

/// The domain entries of the inventory, copied.
fn entries_of(inventory: &JsonValue) -> (r: Option<Vec<JsonValue>>)
    ensures
        match r {
            Some(v) => get_array(inventory@, "domains"@) == Some(JsonValue::Array(v)@->Array_0),
            None => get_array(inventory@, "domains"@) is None,
        },
{
    let domains = match inventory.get("domains") {
        Some(d) => d,
        None => return None,
    };
    if domains.as_array().is_none() {
        return None;
    }
    match domains.duplicate() {
        JsonValue::Array(v) => Some(v),
        _ => None,
    }
}

fn set_item(items: &mut Vec<JsonValue>, i: usize, v: JsonValue)
    requires
        i < old(items).len(),
    ensures
        JsonValue::Array(*final(items))@->Array_0 == JsonValue::Array(*old(items))@->Array_0.update(
            i as int,
            v@,
        ),
{
    let ghost before = JsonValue::Array(*items)@->Array_0;
    let ghost vv = v@;
    items.set(i, v);
    let ghost after = JsonValue::Array(*items)@->Array_0;
    assert(after =~= before.update(i as int, vv));
}

/// Records the onboarding of `domain`: an existing entry becomes fully managed
/// by Nexus (adopted records dropped), a missing one is appended. `Ok(true)`
/// tells that the entry is new.
pub fn upsert_mail_domain(inventory: &mut JsonValue, domain: &str) -> (r: Result<bool, DomainError>)
    ensures
        match upsert_result(old(inventory)@, domain@) {
            Ok((inv, created)) => r == Ok::<bool, DomainError>(created) && final(inventory)@ == inv,
            Err(e) => r == Err::<bool, DomainError>(e) && final(inventory)@ == old(inventory)@,
        },
{
    let ghost old_inv = inventory@;
    let mut entries = match entries_of(inventory) {
        Some(v) => v,
        None => return Err(DomainError::MissingDomainsArray),
    };
    let ghost ev = JsonValue::Array(entries)@->Array_0;
    let i = entry_position(&entries, domain);
    proof {
        lemma_entry_index_bounds(ev, domain@);
    }
    let created = if i < entries.len() {
        let mut e = entries[i].duplicate();
        assert(e@ == ev[i as int]);
        proof {
            lemma_named_is_object(e@, domain@);
        }
        e.assign("mail", JsonValue::Bool(true));
        e.assign("webmail", JsonValue::Bool(true));
        e.assign("ddns", JsonValue::Bool(true));
        e.assign("tunnel", JsonValue::Bool(true));
        e.assign("configuration_mode", JsonValue::text("nexus"));
        e.remove_key("adopted_checks");
        set_item(&mut entries, i, e);
        false
    } else {
        let mut f: Vec<(String, JsonValue)> = Vec::new();
        assert(JsonValue::Object(f)@->Object_0 =~= Seq::<(Seq<char>, Json)>::empty());
        push_field(&mut f, "name", JsonValue::text(domain));
        push_field(&mut f, "mail", JsonValue::Bool(true));
        push_field(&mut f, "webmail", JsonValue::Bool(true));
        push_field(&mut f, "ddns", JsonValue::Bool(true));
        push_field(&mut f, "tunnel", JsonValue::Bool(true));
        push_field(&mut f, "configuration_mode", JsonValue::text("nexus"));
        let entry = JsonValue::Object(f);
        assert(entry@->Object_0 =~= new_entry(domain@)->Object_0);
        push_item(&mut entries, entry);
        true
    };
    inventory.assign("domains", JsonValue::Array(entries));
    Ok(created)
}

/// Marks `domain`'s entry as keeping its existing configuration, with the
/// fingerprints of the adopted records.
pub fn adopt_domain_entry(inventory: &mut JsonValue, domain: &str, adopted_checks: JsonValue) -> (r:
    Result<(), DomainError>)
    ensures
        match adopt_result(old(inventory)@, domain@, adopted_checks@) {
            Ok(inv) => r is Ok && final(inventory)@ == inv,
            Err(e) => r == Err::<(), DomainError>(e) && final(inventory)@ == old(inventory)@,
        },
{
    let mut entries = match entries_of(inventory) {
        Some(v) => v,
        None => return Err(DomainError::DomainNotInInventory),
    };
    let ghost ev = JsonValue::Array(entries)@->Array_0;
    let i = entry_position(&entries, domain);
    proof {
        lemma_entry_index_bounds(ev, domain@);
    }
    if i >= entries.len() {
        return Err(DomainError::DomainNotInInventory);
    }
    let mut e = entries[i].duplicate();
    assert(e@ == ev[i as int]);
    e.assign("configuration_mode", JsonValue::text("existing"));
    e.assign("adopted_checks", adopted_checks);
    set_item(&mut entries, i, e);
    inventory.assign("domains", JsonValue::Array(entries));
    Ok(())
}

/// The inventory to write after onboarding `domain`, starting from the stored
/// inventory (or the bootstrap one when none is stored).
pub fn persist_mail_domain(stored: Option<JsonValue>, domain: &str) -> (r: Result<
    JsonValue,
    DomainError,
>)
    ensures
        ({
            let inv = match stored {
                Some(v) => v@,
                None => bootstrap_inventory(),
            };
            match upsert_result(inv, domain@) {
                Ok((after, _)) => r matches Ok(w) && w@ == after,
                Err(e) => r matches Err(x) && x == e,
            }
        }),
{
    let mut inventory = inventory_or_default(stored);
    match upsert_mail_domain(&mut inventory, domain) {
        Ok(_) => Ok(inventory),
        Err(e) => Err(e),
    }
}

/// The inventory to write after adopting the existing configuration of `domain`.
pub fn persist_adopted_domain(stored: Option<JsonValue>, domain: &str, adopted_checks: JsonValue) -> (r:
    Result<JsonValue, DomainError>)
    ensures
        ({
            let inv = match stored {
                Some(v) => v@,
                None => bootstrap_inventory(),
            };
            match adopt_result(inv, domain@, adopted_checks@) {
                Ok(after) => r matches Ok(w) && w@ == after,
                Err(e) => r matches Err(x) && x == e,
            }
        }),
{
    let mut inventory = inventory_or_default(stored);
    match adopt_domain_entry(&mut inventory, domain, adopted_checks) {
        Ok(()) => Ok(inventory),
        Err(e) => Err(e),
    }
}

// ---------------------------------------------------------------------------
// Laws
// ---------------------------------------------------------------------------
proof fn lemma_entry_keys_distinct()
    ensures
        "mail"@ != "webmail"@,
        "mail"@ != "ddns"@,
        "mail"@ != "tunnel"@,
        "mail"@ != "configuration_mode"@,
        "mail"@ != "adopted_checks"@,
        "mail"@ != "name"@,
        "webmail"@ != "ddns"@,
        "webmail"@ != "tunnel"@,
        "webmail"@ != "configuration_mode"@,
        "webmail"@ != "adopted_checks"@,
        "webmail"@ != "name"@,
        "ddns"@ != "tunnel"@,
        "ddns"@ != "configuration_mode"@,
        "ddns"@ != "adopted_checks"@,
        "ddns"@ != "name"@,
        "tunnel"@ != "configuration_mode"@,
        "tunnel"@ != "adopted_checks"@,
        "tunnel"@ != "name"@,
        "configuration_mode"@ != "adopted_checks"@,
        "configuration_mode"@ != "name"@,
        "adopted_checks"@ != "name"@,
{
    reveal_strlit("mail");
    reveal_strlit("webmail");
    reveal_strlit("ddns");
    reveal_strlit("tunnel");
    reveal_strlit("configuration_mode");
    reveal_strlit("adopted_checks");
    reveal_strlit("name");
    assert("mail"@[0] == 'm' && "webmail"@[0] == 'w' && "ddns"@[0] == 'd' && "tunnel"@[0] == 't'
        && "configuration_mode"@[0] == 'c' && "adopted_checks"@[0] == 'a' && "name"@[0] == 'n');
}

/// What an entry managed by Nexus reads: mail, webmail, DDNS and tunnel on,
/// `nexus` mode, no adopted records, and its name unchanged.
pub proof fn lemma_managed_entry_reads(e: Json)
    requires
        e is Object,
    ensures
        managed_entry(e) is Object,
        get(managed_entry(e), "mail"@) == Some(Json::Bool(true)),
        get(managed_entry(e), "webmail"@) == Some(Json::Bool(true)),
        get(managed_entry(e), "ddns"@) == Some(Json::Bool(true)),
        get(managed_entry(e), "tunnel"@) == Some(Json::Bool(true)),
        get(managed_entry(e), "configuration_mode"@) == Some(Json::Str("nexus"@)),
        get(managed_entry(e), "adopted_checks"@) is None,
        get(managed_entry(e), "name"@) == get(e, "name"@),
{
    lemma_entry_keys_distinct();
    let t = Json::Bool(true);
    let e1 = assign(e, "mail"@, t);
    let e2 = assign(e1, "webmail"@, t);
    let e3 = assign(e2, "ddns"@, t);
    let e4 = assign(e3, "tunnel"@, t);
    let e5 = assign(e4, "configuration_mode"@, Json::Str("nexus"@));
    lemma_assign_get(e, "mail"@, t);
    lemma_assign_get(e1, "webmail"@, t);
    lemma_assign_get(e2, "ddns"@, t);
    lemma_assign_get(e3, "tunnel"@, t);
    lemma_assign_get(e4, "configuration_mode"@, Json::Str("nexus"@));
    lemma_assign_get_other(e1, "webmail"@, t, "mail"@);
    lemma_assign_get_other(e2, "ddns"@, t, "mail"@);
    lemma_assign_get_other(e2, "ddns"@, t, "webmail"@);
    lemma_assign_get_other(e3, "tunnel"@, t, "mail"@);
    lemma_assign_get_other(e3, "tunnel"@, t, "webmail"@);
    lemma_assign_get_other(e3, "tunnel"@, t, "ddns"@);
    lemma_assign_get_other(e4, "configuration_mode"@, Json::Str("nexus"@), "mail"@);
    lemma_assign_get_other(e4, "configuration_mode"@, Json::Str("nexus"@), "webmail"@);
    lemma_assign_get_other(e4, "configuration_mode"@, Json::Str("nexus"@), "ddns"@);
    lemma_assign_get_other(e4, "configuration_mode"@, Json::Str("nexus"@), "tunnel"@);
    lemma_assign_get_other(e, "mail"@, t, "name"@);
    lemma_assign_get_other(e1, "webmail"@, t, "name"@);
    lemma_assign_get_other(e2, "ddns"@, t, "name"@);
    lemma_assign_get_other(e3, "tunnel"@, t, "name"@);
    lemma_assign_get_other(e4, "configuration_mode"@, Json::Str("nexus"@), "name"@);
    let f5 = e5->Object_0;
    let ac = "adopted_checks"@;
    lemma_remove_field_other(f5, ac, "mail"@);
    lemma_remove_field_other(f5, ac, "webmail"@);
    lemma_remove_field_other(f5, ac, "ddns"@);
    lemma_remove_field_other(f5, ac, "tunnel"@);
    lemma_remove_field_other(f5, ac, "configuration_mode"@);
    lemma_remove_field_other(f5, ac, "name"@);
    lemma_remove_field_absent(f5, ac);
}

/// Managing an entry twice is managing it once.
pub proof fn lemma_managed_entry_idempotent(e: Json)
    requires
        e is Object,
    ensures
        managed_entry(managed_entry(e)) == managed_entry(e),
{
    lemma_managed_entry_reads(e);
    let m = managed_entry(e);
    let t = Json::Bool(true);
    lemma_assign_same(m, "mail"@, t);
    lemma_assign_same(m, "webmail"@, t);
    lemma_assign_same(m, "ddns"@, t);
    lemma_assign_same(m, "tunnel"@, t);
    lemma_assign_same(m, "configuration_mode"@, Json::Str("nexus"@));
    let e5 = assign(
        assign(
            assign(assign(assign(e, "mail"@, t), "webmail"@, t), "ddns"@, t),
            "tunnel"@,
            t,
        ),
        "configuration_mode"@,
        Json::Str("nexus"@),
    );
    lemma_remove_field_absent(e5->Object_0, "adopted_checks"@);
    lemma_remove_field_noop(m->Object_0, "adopted_checks"@);
}

/// A new entry is already fully managed.
pub proof fn lemma_new_entry_managed(domain: Seq<char>)
    ensures
        managed_entry(new_entry(domain)) == new_entry(domain),
        get_str(new_entry(domain), "name"@) == Some(domain),
{
    lemma_entry_keys_distinct();
    let n = new_entry(domain);
    let f = n->Object_0;
    let t = Json::Bool(true);
    lemma_field_index_at(f, "name"@, 0);
    lemma_field_index_at(f, "mail"@, 1);
    lemma_field_index_at(f, "webmail"@, 2);
    lemma_field_index_at(f, "ddns"@, 3);
    lemma_field_index_at(f, "tunnel"@, 4);
    lemma_field_index_at(f, "configuration_mode"@, 5);
    lemma_assign_same(n, "mail"@, t);
    lemma_assign_same(n, "webmail"@, t);
    lemma_assign_same(n, "ddns"@, t);
    lemma_assign_same(n, "tunnel"@, t);
    lemma_assign_same(n, "configuration_mode"@, Json::Str("nexus"@));
    lemma_remove_field_noop(f, "adopted_checks"@);
}

/// Onboarding a domain twice is onboarding it once: the second run finds the
/// entry, reports it as not new, and leaves the inventory unchanged. The entry
/// is named after the domain, fully managed by Nexus, and keeps no adopted
/// records.
pub proof fn lemma_onboarding_is_idempotent(inventory: Json, domain: Seq<char>)
    requires
        upsert_result(inventory, domain) is Ok,
    ensures
        ({
            let after = upsert_result(inventory, domain)->Ok_0.0;
            &&& upsert_result(after, domain) == Ok::<(Json, bool), DomainError>((after, false))
            &&& find_entry(after, domain) matches Some(e) && get_str(e, "name"@) == Some(domain)
                && get(e, "mail"@) == Some(Json::Bool(true)) && get(e, "webmail"@) == Some(
                Json::Bool(true),
            ) && get(e, "ddns"@) == Some(Json::Bool(true)) && get(e, "tunnel"@) == Some(
                Json::Bool(true),
            ) && get(e, "configuration_mode"@) == Some(Json::Str("nexus"@)) && get(
                e,
                "adopted_checks"@,
            ) is None
        }),
{
    let entries = get_array(inventory, "domains"@)->Some_0;
    lemma_entry_index_bounds(entries, domain);
    let i = entry_index(entries, domain);
    let (after, created) = upsert_result(inventory, domain)->Ok_0;
    let (placed, x, at) = if 0 <= i < entries.len() {
        lemma_named_is_object(entries[i], domain);
        lemma_managed_entry_reads(entries[i]);
        lemma_managed_entry_idempotent(entries[i]);
        let x = managed_entry(entries[i]);
        (entries.update(i, x), x, i)
    } else {
        lemma_new_entry_managed(domain);
        lemma_managed_entry_reads(new_entry(domain));
        let x = new_entry(domain);
        (entries.push(x), x, entries.len() as int)
    };
    assert(after == assign(inventory, "domains"@, Json::Array(placed)));
    lemma_assign_get(inventory, "domains"@, Json::Array(placed));
    assert(get_array(after, "domains"@) == Some(placed));
    assert(placed[at] == x);
    assert forall|j: int| 0 <= j < at implies !entry_named(#[trigger] placed[j], domain) by {
        assert(placed[j] == entries[j]);
    }
    lemma_entry_index_at(placed, domain, at);
    assert(managed_entry(x) == x);
    assert(placed.update(at, managed_entry(placed[at])) =~= placed);
    lemma_assign_same(after, "domains"@, Json::Array(placed));
}

} // verus!
