//! The storage page: PVE storages and PBS datastores of all remotes, with a
//! storage shared across a cluster shown once, ordered by remote and name.
use vstd::prelude::*;

use crate::sorting::{insert_by, lemma_insert_by_at, sort_by};
use crate::text::{
    ascii_lowercase, chars_of, copy_string, lex_le, lex_less_eq, lower, owned, push_all, str_eq,
    trim, trimmed,
};

verus! {

/// A PVE storage as a remote reports it.
pub struct PveStorage {
    pub node: String,
    pub storage: String,
    pub shared: bool,
    pub status: String,
    pub disk: u64,
    pub maxdisk: u64,
}

/// A PBS datastore as a remote reports it.
pub struct PbsDatastore {
    pub name: String,
    pub backing_device: Option<String>,
    pub backend_type: Option<String>,
    pub in_maintenance: bool,
    pub disk: u64,
    pub maxdisk: u64,
}

/// The resources of a remote that matter for storage.
pub enum StorageResource {
    Pve(PveStorage),
    Pbs(PbsDatastore),
    Other,
}

/// What one remote reported.
pub struct RemoteStorage {
    pub remote: String,
    pub error: Option<String>,
    pub resources: Vec<StorageResource>,
}

/// A row of the storage page.
pub struct StorageEntry {
    pub remote: String,
    pub name: String,
    pub location: String,
    pub kind: String,
    pub status: String,
    pub used: u64,
    pub total: u64,
}

/// The content of a row.
pub struct Row {
    pub remote: Seq<char>,
    pub name: Seq<char>,
    pub location: Seq<char>,
    pub kind: Seq<char>,
    pub status: Seq<char>,
    pub used: u64,
    pub total: u64,
}

pub open spec fn row_of(e: StorageEntry) -> Row {
    Row {
        remote: e.remote@,
        name: e.name@,
        location: e.location@,
        kind: e.kind@,
        status: e.status@,
        used: e.used,
        total: e.total,
    }
}

/// Rows keyed by their place, in the order they were first seen.
pub open spec fn table_view(t: Seq<(String, StorageEntry)>) -> Seq<(Seq<char>, Row)> {
    t.map_values(|p: (String, StorageEntry)| (p.0@, row_of(p.1)))
}

pub open spec fn rows_view(t: Seq<StorageEntry>) -> Seq<Row> {
    t.map_values(|e: StorageEntry| row_of(e))
}

// ---------------------------------------------------------------------------
// Keyed tables
// ---------------------------------------------------------------------------
/// Position of the row with key `k` (the length when there is none).
pub open spec fn key_index(t: Seq<(Seq<char>, Row)>, k: Seq<char>) -> int
    decreases t.len(),
{
    if t.len() == 0 {
        0
    } else if t[0].0 == k {
        0
    } else {
        1 + key_index(t.drop_first(), k)
    }
}

/// The table with the row under `k` replaced, or the row added.
pub open spec fn put(t: Seq<(Seq<char>, Row)>, k: Seq<char>, row: Row) -> Seq<(Seq<char>, Row)> {
    let i = key_index(t, k);
    if 0 <= i < t.len() {
        t.update(i, (k, row))
    } else {
        t.push((k, row))
    }
}

/// The status counts as available.
pub open spec fn available(status: Seq<char>) -> bool {
    let s = lower(trim(status));
    s == "available"@ || s == "online"@
}

/// A shared storage seen again from another node: the larger usage and size
/// are kept, and the new status replaces the old one unless only the old one
/// counts as available.
pub open spec fn merged(row: Row, used: u64, total: u64, status: Seq<char>) -> Row {
    Row {
        used: if row.used >= used {
            row.used
        } else {
            used
        },
        total: if row.total >= total {
            row.total
        } else {
            total
        },
        status: if available(status) || !available(row.status) {
            status
        } else {
            row.status
        },
        ..row
    }
}

/// The tables being built: PVE storages, PBS datastores, remote errors.
pub struct Tables {
    pub pve: Seq<(Seq<char>, Row)>,
    pub pbs: Seq<(Seq<char>, Row)>,
    pub errors: Seq<Seq<char>>,
}

pub open spec fn pve_key(remote: Seq<char>, s: PveStorage) -> Seq<char> {
    if s.shared {
        remote + "/shared/"@ + s.storage@
    } else {
        remote + "/"@ + s.node@ + "/"@ + s.storage@
    }
}

pub open spec fn pbs_key(remote: Seq<char>, d: PbsDatastore) -> Seq<char> {
    remote + "/"@ + d.name@
}

pub open spec fn opt_text(o: Option<String>, default: Seq<char>) -> Seq<char> {
    match o {
        Some(s) => s@,
        None => default,
    }
}

/// The row a datastore is shown as.
pub open spec fn pbs_row(remote: Seq<char>, d: PbsDatastore) -> Row {
    Row {
        remote,
        name: d.name@,
        location: opt_text(d.backing_device, "PBS datastore"@),
        kind: opt_text(d.backend_type, "Datastore"@),
        status: if d.in_maintenance {
            "maintenance"@
        } else {
            "online"@
        },
        used: d.disk,
        total: d.maxdisk,
    }
}

/// The row a storage is shown as when first seen.
pub open spec fn pve_row(remote: Seq<char>, s: PveStorage) -> Row {
    Row {
        remote,
        name: s.storage@,
        location: if s.shared {
            "Shared cluster storage"@
        } else {
            s.node@
        },
        kind: if s.shared {
            "Shared"@
        } else {
            "Local"@
        },
        status: s.status@,
        used: s.disk,
        total: s.maxdisk,
    }
}

/// One resource of `remote` taken into the tables: a shared storage seen
/// before is merged, any other storage or datastore replaces the row under
/// its key.
pub open spec fn take_resource(t: Tables, remote: Seq<char>, r: StorageResource) -> Tables {
    match r {
        StorageResource::Pve(s) => {
            let k = pve_key(remote, s);
            let i = key_index(t.pve, k);
            if s.shared && 0 <= i < t.pve.len() {
                Tables { pve: t.pve.update(i, (k, merged(t.pve[i].1, s.disk, s.maxdisk, s.status@))), ..t }
            } else {
                Tables { pve: put(t.pve, k, pve_row(remote, s)), ..t }
            }
        },
        StorageResource::Pbs(d) => Tables { pbs: put(t.pbs, pbs_key(remote, d), pbs_row(remote, d)), ..t },
        StorageResource::Other => t,
    }
}

pub open spec fn take_resources(t: Tables, remote: Seq<char>, rs: Seq<StorageResource>) -> Tables
    decreases rs.len(),
{
    if rs.len() == 0 {
        t
    } else {
        take_resource(take_resources(t, remote, rs.drop_last()), remote, rs.last())
    }
}

/// One remote taken into the tables: its error first, then its resources.
pub open spec fn take_remote(t: Tables, r: RemoteStorage) -> Tables {
    let t1 = match r.error {
        Some(e) => Tables { errors: t.errors.push(r.remote@ + ": "@ + e@), ..t },
        None => t,
    };
    take_resources(t1, r.remote@, r.resources@)
}

pub open spec fn take_remotes(rs: Seq<RemoteStorage>) -> Tables
    decreases rs.len(),
{
    if rs.len() == 0 {
        Tables { pve: Seq::empty(), pbs: Seq::empty(), errors: Seq::empty() }
    } else {
        take_remote(take_remotes(rs.drop_last()), rs.last())
    }
}

pub open spec fn by_key() -> spec_fn((Seq<char>, Row)) -> Seq<char> {
    |p: (Seq<char>, Row)| p.0
}

/// The rows of a table ordered by key.
pub open spec fn ordered_rows(t: Seq<(Seq<char>, Row)>) -> Seq<Row> {
    sort_by(t, by_key()).map_values(|p: (Seq<char>, Row)| p.1)
}

// ---------------------------------------------------------------------------
// Executable tables
// ---------------------------------------------------------------------------
fn key_position(t: &Vec<(String, StorageEntry)>, k: &str) -> (r: usize)
    ensures
        r == key_index(table_view(t@), k@),
        r <= t.len(),
        r < t.len() ==> table_view(t@)[r as int].0 == k@,
{
    let ghost tv = table_view(t@);
    let mut i: usize = 0;
    while i < t.len()
        invariant
            i <= t.len(),
            tv == table_view(t@),
            forall|j: int| 0 <= j < i ==> (#[trigger] tv[j]).0 != k@,
        decreases t.len() - i,
    {
        if str_eq(t[i].0.as_str(), k) {
            proof {
                lemma_key_index_at(tv, k@, i as int);
            }
            return i;
        }
        i += 1;
    }
    proof {
        lemma_key_index_at(tv, k@, i as int);
    }
    i
}

proof fn lemma_key_index_at(t: Seq<(Seq<char>, Row)>, k: Seq<char>, i: int)
    requires
        0 <= i <= t.len(),
        i < t.len() ==> t[i].0 == k,
        forall|j: int| 0 <= j < i ==> (#[trigger] t[j]).0 != k,
    ensures
        key_index(t, k) == i,
    decreases t.len(),
{
    if t.len() > 0 && i > 0 {
        assert forall|j: int| 0 <= j < i - 1 implies (#[trigger] t.drop_first()[j]).0 != k by {
            assert(t.drop_first()[j] == t[j + 1]);
        }
        lemma_key_index_at(t.drop_first(), k, i - 1);
    }
}

fn put_row(t: &mut Vec<(String, StorageEntry)>, k: String, e: StorageEntry)
    ensures
        table_view(final(t)@) == put(table_view(old(t)@), k@, row_of(e)),
{
    let ghost before = table_view(t@);
    let ghost (kv, ev) = (k@, row_of(e));
    let i = key_position(t, k.as_str());
    if i < t.len() {
        t.set(i, (k, e));
        assert(table_view(t@) =~= before.update(i as int, (kv, ev)));
    } else {
        t.push((k, e));
        assert(table_view(t@) =~= before.push((kv, ev)));
    }
}

fn is_available(status: &str) -> (r: bool)
    ensures
        r == available(status@),
{
    let t = trimmed(status);
    let s = ascii_lowercase(t.as_str());
    str_eq(s.as_str(), "available") || str_eq(s.as_str(), "online")
}

fn merge_entry(e: &mut StorageEntry, used: u64, total: u64, status: &String)
    ensures
        row_of(*final(e)) == merged(row_of(*old(e)), used, total, status@),
{
    if used > e.used {
        e.used = used;
    }
    if total > e.total {
        e.total = total;
    }
    if is_available(status.as_str()) || !is_available(e.status.as_str()) {
        e.status = copy_string(status);
    }
}

fn join3(a: &str, b: &str, c: &str) -> (r: String)
    ensures
        r@ == a@ + b@ + c@,
{
    let mut s = owned(a);
    push_all(&mut s, b);
    push_all(&mut s, c);
    s
}

fn opt_string(o: &Option<String>, default: &str) -> (r: String)
    ensures
        r@ == opt_text(*o, default@),
{
    match o {
        Some(s) => copy_string(s),
        None => owned(default),
    }
}

fn take_one(pve: &mut Vec<(String, StorageEntry)>, pbs: &mut Vec<(String, StorageEntry)>, remote: &String, r: &StorageResource)
    ensures
        ({
            let t0 = Tables { pve: table_view(old(pve)@), pbs: table_view(old(pbs)@), errors: Seq::empty() };
            let t1 = take_resource(t0, remote@, *r);
            table_view(final(pve)@) == t1.pve && table_view(final(pbs)@) == t1.pbs
        }),
{
    match r {
        StorageResource::Pve(s) => {
            let k = if s.shared {
                join3(remote.as_str(), "/shared/", s.storage.as_str())
            } else {
                let mut k = join3(remote.as_str(), "/", s.node.as_str());
                push_all(&mut k, "/");
                push_all(&mut k, s.storage.as_str());
                k
            };
            assert(k@ =~= pve_key(remote@, *s));
            let i = key_position(pve, k.as_str());
            if s.shared && i < pve.len() {
                let ghost before = table_view(pve@);
                let (key, mut entry) = pve.remove(i);
                assert(before[i as int] == (key@, row_of(entry)));
                merge_entry(&mut entry, s.disk, s.maxdisk, &s.status);
                let ghost item = (key@, row_of(entry));
                pve.insert(i, (key, entry));
                assert(table_view(pve@) =~= before.update(i as int, item));
            } else {
                let entry = StorageEntry {
                    remote: copy_string(remote),
                    name: copy_string(&s.storage),
                    location: if s.shared {
                        owned("Shared cluster storage")
                    } else {
                        copy_string(&s.node)
                    },
                    kind: if s.shared {
                        owned("Shared")
                    } else {
                        owned("Local")
                    },
                    status: copy_string(&s.status),
                    used: s.disk,
                    total: s.maxdisk,
                };
                put_row(pve, k, entry);
            }
        },
        StorageResource::Pbs(d) => {
            let k = join3(remote.as_str(), "/", d.name.as_str());
            let entry = StorageEntry {
                remote: copy_string(remote),
                name: copy_string(&d.name),
                location: opt_string(&d.backing_device, "PBS datastore"),
                kind: opt_string(&d.backend_type, "Datastore"),
                status: if d.in_maintenance {
                    owned("maintenance")
                } else {
                    owned("online")
                },
                used: d.disk,
                total: d.maxdisk,
            };
            put_row(pbs, k, entry);
        },
        StorageResource::Other => {},
    }
}

proof fn lemma_take_resources_ignores_errors(t: Tables, e: Seq<Seq<char>>, remote: Seq<char>, rs: Seq<StorageResource>)
    ensures
        take_resources(t, remote, rs).errors == t.errors,
        take_resources((Tables { errors: e, ..t }), remote, rs) == (Tables {
            errors: e,
            ..take_resources(t, remote, rs)
        }),
    decreases rs.len(),
{
    if rs.len() > 0 {
        lemma_take_resources_ignores_errors(t, e, remote, rs.drop_last());
    }
}

/// Sorts keyed rows by key, stably.
fn sort_rows(t: Vec<(String, StorageEntry)>) -> (r: Vec<(String, StorageEntry)>)
    ensures
        table_view(r@) == sort_by(table_view(t@), by_key()),
{
    let ghost tv = table_view(t@);
    let ghost key = by_key();
    let mut out: Vec<(String, StorageEntry)> = Vec::new();
    let mut rest = t;
    let mut n: usize = 0;
    assert(table_view(out@) =~= sort_by(tv.take(0), key));
    assert(table_view(rest@) =~= tv.skip(0));
    let count = rest.len();
    assert(tv.len() == count);
    while rest.len() > 0
        invariant
            n + rest.len() == tv.len(),
            tv.len() <= usize::MAX,
            key == by_key(),
            table_view(rest@) == tv.skip(n as int),
            table_view(out@) == sort_by(tv.take(n as int), key),
        decreases rest.len(),
    {
        let ghost rv = table_view(rest@);
        let x = rest.remove(0);
        assert(table_view(rest@) =~= rv.drop_first());
        let ghost xv = (x.0@, row_of(x.1));
        assert(xv == rv[0]);
        let xk = chars_of(x.0.as_str());
        let ghost before = table_view(out@);
        let mut pos = out.len();
        let mut found = false;
        while pos > 0 && !found
            invariant
                pos <= out.len(),
                before == table_view(out@),
                xk@ == key(xv),
                key == by_key(),
                found ==> pos > 0 && lex_le(key(before[pos - 1]), xk@),
                forall|j: int| pos <= j < before.len() ==> !lex_le(#[trigger] key(before[j]), xk@),
            decreases pos + if found { 0int } else { 1int },
        {
            let pk = chars_of(out[pos - 1].0.as_str());
            assert(pk@ == key(before[pos - 1]));
            if lex_less_eq(&pk, &xk) {
                found = true;
            } else {
                pos -= 1;
            }
        }
        proof {
            lemma_insert_by_at(before, xv, key, pos as int);
            assert(tv[n as int] == xv);
            assert(tv.take(n + 1).drop_last() =~= tv.take(n as int));
        }
        out.insert(pos, x);
        assert(table_view(out@) =~= before.take(pos as int).push(xv) + before.skip(pos as int));
        n += 1;
        assert(tv.skip(n - 1).drop_first() =~= tv.skip(n as int));
    }
    assert(tv.take(n as int) =~= tv);
    out
}

fn values_of(t: Vec<(String, StorageEntry)>) -> (r: Vec<StorageEntry>)
    ensures
        rows_view(r@) == table_view(t@).map_values(|p: (Seq<char>, Row)| p.1),
{
    let ghost tv = table_view(t@);
    let mut out: Vec<StorageEntry> = Vec::new();
    let mut rest = t;
    let mut n: usize = 0;
    let ghost want = tv.map_values(|p: (Seq<char>, Row)| p.1);
    assert(table_view(rest@) =~= tv.skip(0));
    let count = rest.len();
    assert(tv.len() == count);
    while rest.len() > 0
        invariant
            n + rest.len() == tv.len(),
            tv.len() <= usize::MAX,
            want == tv.map_values(|p: (Seq<char>, Row)| p.1),
            table_view(rest@) == tv.skip(n as int),
            rows_view(out@) == want.take(n as int),
        decreases rest.len(),
    {
        let ghost rv = table_view(rest@);
        let x = rest.remove(0);
        assert(table_view(rest@) =~= rv.drop_first());
        assert(rv[0] == (x.0@, row_of(x.1)));
        assert(tv[n as int] == rv[0]);
        let e = x.1;
        assert(row_of(e) == want[n as int]);
        let ghost before = rows_view(out@);
        out.push(e);
        assert(rows_view(out@) =~= before.push(want[n as int]));
        assert(want.take(n + 1) =~= want.take(n as int).push(want[n as int]));
        n += 1;
        assert(tv.skip(n - 1).drop_first() =~= tv.skip(n as int));
    }
    assert(want.take(n as int) =~= want);
    out
}

/// The storage page of all remotes: PVE storages (shared ones once per
/// remote) and PBS datastores, each ordered by their key, and the error of
/// each remote that could not be queried, in order (see `take_remotes`).
pub fn split_storage(remotes: &Vec<RemoteStorage>) -> (r: (Vec<StorageEntry>, Vec<StorageEntry>, Vec<String>))
    ensures
        rows_view(r.0@) == ordered_rows(take_remotes(remotes@).pve),
        rows_view(r.1@) == ordered_rows(take_remotes(remotes@).pbs),
        crate::split::views(r.2@) == take_remotes(remotes@).errors,
{
    let mut pve: Vec<(String, StorageEntry)> = Vec::new();
    let mut pbs: Vec<(String, StorageEntry)> = Vec::new();
    let mut errors: Vec<String> = Vec::new();
    let mut i: usize = 0;
    assert(remotes@.take(0) =~= Seq::<RemoteStorage>::empty());
    assert(table_view(pve@) =~= Seq::<(Seq<char>, Row)>::empty());
    assert(table_view(pbs@) =~= Seq::<(Seq<char>, Row)>::empty());
    assert(crate::split::views(errors@) =~= Seq::<Seq<char>>::empty());
    while i < remotes.len()
        invariant
            i <= remotes.len(),
            ({
                let t = take_remotes(remotes@.take(i as int));
                table_view(pve@) == t.pve && table_view(pbs@) == t.pbs && crate::split::views(errors@)
                    == t.errors
            }),
        decreases remotes.len() - i,
    {
        let remote = &remotes[i];
        assert(remotes@.take(i + 1).drop_last() =~= remotes@.take(i as int));
        assert(remotes@.take(i + 1).last() == remotes@[i as int]);
        let ghost t0 = take_remotes(remotes@.take(i as int));
        let ghost t1 = match &remote.error {
            Some(e) => Tables { errors: t0.errors.push(remote.remote@ + ": "@ + e@), ..t0 },
            None => t0,
        };
        match &remote.error {
            Some(e) => {
                let ghost before = crate::split::views(errors@);
                let m = join3(remote.remote.as_str(), ": ", e.as_str());
                errors.push(m);
                assert(crate::split::views(errors@) =~= before.push(remote.remote@ + ": "@ + e@));
            },
            None => {},
        }
        let rs = &remote.resources;
        let mut j: usize = 0;
        assert(rs@.take(0) =~= Seq::<StorageResource>::empty());
        while j < rs.len()
            invariant
                j <= rs.len(),
                ({
                    let t = take_resources(t1, remote.remote@, rs@.take(j as int));
                    table_view(pve@) == t.pve && table_view(pbs@) == t.pbs
                }),
            decreases rs.len() - j,
        {
            let ghost tj = take_resources(t1, remote.remote@, rs@.take(j as int));
            assert(rs@.take(j + 1).drop_last() =~= rs@.take(j as int));
            assert(rs@.take(j + 1).last() == rs@[j as int]);
            take_one(&mut pve, &mut pbs, &remote.remote, &rs[j]);
            proof {
                let z = Tables { pve: tj.pve, pbs: tj.pbs, errors: Seq::empty() };
                assert(tj == Tables { errors: tj.errors, ..z });
            }
            j += 1;
        }
        proof {
            assert(rs@.take(rs.len() as int) =~= rs@);
            lemma_take_resources_ignores_errors(t1, t1.errors, remote.remote@, rs@);
        }
        i += 1;
    }
    assert(remotes@.take(remotes.len() as int) =~= remotes@);
    let pve_sorted = sort_rows(pve);
    let pbs_sorted = sort_rows(pbs);
    (values_of(pve_sorted), values_of(pbs_sorted), errors)
}

// ---------------------------------------------------------------------------
// Tier summaries
// ---------------------------------------------------------------------------
pub open spec fn total_of(rows: Seq<Row>) -> int
    decreases rows.len(),
{
    if rows.len() == 0 {
        0
    } else {
        total_of(rows.drop_last()) + rows.last().total
    }
}

pub open spec fn used_of(rows: Seq<Row>) -> int
    decreases rows.len(),
{
    if rows.len() == 0 {
        0
    } else {
        used_of(rows.drop_last()) + rows.last().used
    }
}

proof fn lemma_sums_monotone(rows: Seq<Row>, k: int)
    requires
        0 <= k <= rows.len(),
    ensures
        total_of(rows.take(k)) <= total_of(rows),
        used_of(rows.take(k)) <= used_of(rows),
        0 <= total_of(rows.take(k)),
        0 <= used_of(rows.take(k)),
    decreases rows.len(),
{
    if k < rows.len() {
        assert(rows.drop_last().take(k) =~= rows.take(k));
        lemma_sums_monotone(rows.drop_last(), k);
    } else {
        assert(rows.take(k) =~= rows);
        if rows.len() > 0 {
            lemma_sums_monotone(rows.drop_last(), k - 1);
            assert(rows.drop_last().take(k - 1) =~= rows.drop_last());
        }
    }
}

/// The capacity of a tier: total and used space, and the free space (never
/// below zero).
pub struct TierTotals {
    pub total: u64,
    pub used: u64,
    pub free: u64,
}

/// The capacity of a tier (see `TierTotals`); the sums fit in `u64`.
pub fn tier_totals(entries: &Vec<StorageEntry>) -> (r: TierTotals)
    requires
        total_of(rows_view(entries@)) <= u64::MAX,
        used_of(rows_view(entries@)) <= u64::MAX,
    ensures
        r.total == total_of(rows_view(entries@)),
        r.used == used_of(rows_view(entries@)),
        r.free == if r.total >= r.used {
            r.total - r.used
        } else {
            0
        },
{
    let ghost rv = rows_view(entries@);
    let mut total: u64 = 0;
    let mut used: u64 = 0;
    let mut i: usize = 0;
    assert(rv.take(0) =~= Seq::<Row>::empty());
    while i < entries.len()
        invariant
            i <= entries.len(),
            rv == rows_view(entries@),
            total_of(rv) <= u64::MAX,
            used_of(rv) <= u64::MAX,
            total == total_of(rv.take(i as int)),
            used == used_of(rv.take(i as int)),
        decreases entries.len() - i,
    {
        assert(rv.take(i + 1).drop_last() =~= rv.take(i as int));
        assert(rv.take(i + 1).last() == row_of(entries@[i as int]));
        proof {
            lemma_sums_monotone(rv, i + 1);
        }
        total = total + entries[i].total;
        used = used + entries[i].used;
        i += 1;
    }
    assert(rv.take(entries.len() as int) =~= rv);
    let free = if total >= used {
        total - used
    } else {
        0
    };
    TierTotals { total, used, free }
}

/// The labels of a tier summary: PVE capacity is configured and reported,
/// since storages may share physical backing; other tiers are plain.
pub fn tier_labels(is_pve: bool) -> (r: (&'static str, &'static str, &'static str))
    ensures
        is_pve ==> r.0@ == "Configured capacity"@ && r.1@ == "Reported used"@ && r.2@ == "Reported free"@,
        !is_pve ==> r.0@ == "Capacity"@ && r.1@ == "Used"@ && r.2@ == "Free"@,
{
    if is_pve {
        ("Configured capacity", "Reported used", "Reported free")
    } else {
        ("Capacity", "Used", "Free")
    }
}

/// A row's status is shown as fine when it counts as available.
pub fn status_class(status: &str) -> (r: &'static str)
    ensures
        r@ == (if available(status@) {
            "ok"@
        } else {
            "warning"@
        }),
{
    if is_available(status) {
        "ok"
    } else {
        "warning"
    }
}

// ---------------------------------------------------------------------------
// Every datastore keeps its row
// ---------------------------------------------------------------------------
proof fn lemma_key_index_bounds(t: Seq<(Seq<char>, Row)>, k: Seq<char>)
    ensures
        0 <= key_index(t, k) <= t.len(),
        key_index(t, k) < t.len() ==> t[key_index(t, k)].0 == k,
    decreases t.len(),
{
    if t.len() > 0 && t[0].0 != k {
        lemma_key_index_bounds(t.drop_first(), k);
    }
}

/// `<remote>/<name>` names one pair when remote names hold no `/`.
proof fn lemma_slash_key_injective(r1: Seq<char>, n1: Seq<char>, r2: Seq<char>, n2: Seq<char>)
    requires
        !r1.contains('/'),
        !r2.contains('/'),
        r1 + "/"@ + n1 == r2 + "/"@ + n2,
    ensures
        r1 == r2,
        n1 == n2,
{
    reveal_strlit("/");
    let a = r1 + "/"@ + n1;
    if r1.len() < r2.len() {
        assert(a[r1.len() as int] == '/');
        assert(a[r1.len() as int] == r2[r1.len() as int]);
        assert(r2.contains('/'));
    } else if r2.len() < r1.len() {
        assert(a[r2.len() as int] == '/');
        assert(a[r2.len() as int] == r1[r2.len() as int]);
        assert(r1.contains('/'));
    } else {
        assert(r1 =~= a.subrange(0, r1.len() as int));
        assert(r2 =~= a.subrange(0, r1.len() as int));
        assert(n1 =~= a.subrange((r1.len() + 1) as int, a.len() as int));
        assert(n2 =~= a.subrange((r1.len() + 1) as int, a.len() as int));
    }
}

/// The table holds the row of datastore `name` of remote `remote`, under its key.
pub open spec fn holds_pbs_row(t: Seq<(Seq<char>, Row)>, remote: Seq<char>, name: Seq<char>) -> bool {
    exists|i: int|
        0 <= i < t.len() && (#[trigger] t[i]).0 == remote + "/"@ + name && t[i].1.remote == remote && t[i].1.name
            == name
}

/// Putting a row under another pair's key, or a row of the same pair, keeps that pair's row.
proof fn lemma_put_keeps_pbs_row(t: Seq<(Seq<char>, Row)>, k: Seq<char>, row: Row, remote: Seq<char>, name: Seq<char>)
    requires
        holds_pbs_row(t, remote, name),
        k == remote + "/"@ + name ==> row.remote == remote && row.name == name,
    ensures
        holds_pbs_row(put(t, k, row), remote, name),
{
    let m = choose|i: int|
        0 <= i < t.len() && (#[trigger] t[i]).0 == remote + "/"@ + name && t[i].1.remote == remote && t[i].1.name
            == name;
    lemma_key_index_bounds(t, k);
    let i = key_index(t, k);
    let u = put(t, k, row);
    if 0 <= i < t.len() {
        if i == m {
            assert(u[m] == (k, row));
        } else {
            assert(u[m] == t[m]);
        }
    } else {
        assert(u[m] == t[m]);
    }
}

/// Putting a pair's row makes the table hold it.
proof fn lemma_put_holds_pbs_row(t: Seq<(Seq<char>, Row)>, row: Row)
    ensures
        holds_pbs_row(put(t, row.remote + "/"@ + row.name, row), row.remote, row.name),
{
    let k = row.remote + "/"@ + row.name;
    lemma_key_index_bounds(t, k);
    let i = key_index(t, k);
    let u = put(t, k, row);
    if 0 <= i < t.len() {
        assert(u[i] == (k, row));
    } else {
        assert(u[t.len() as int] == (k, row));
    }
}

proof fn lemma_take_resource_keeps_pbs_row(t: Tables, remote: Seq<char>, r: StorageResource, rr: Seq<char>, name: Seq<char>)
    requires
        !remote.contains('/'),
        !rr.contains('/'),
        holds_pbs_row(t.pbs, rr, name),
    ensures
        holds_pbs_row(take_resource(t, remote, r).pbs, rr, name),
{
    match r {
        StorageResource::Pbs(d) => {
            let k = pbs_key(remote, d);
            if k == rr + "/"@ + name {
                lemma_slash_key_injective(remote, d.name@, rr, name);
            }
            lemma_put_keeps_pbs_row(t.pbs, k, pbs_row(remote, d), rr, name);
        },
        _ => {},
    }
}

proof fn lemma_take_resources_keeps_pbs_row(
    t: Tables,
    remote: Seq<char>,
    rs: Seq<StorageResource>,
    rr: Seq<char>,
    name: Seq<char>,
)
    requires
        !remote.contains('/'),
        !rr.contains('/'),
        holds_pbs_row(t.pbs, rr, name),
    ensures
        holds_pbs_row(take_resources(t, remote, rs).pbs, rr, name),
    decreases rs.len(),
{
    if rs.len() > 0 {
        lemma_take_resources_keeps_pbs_row(t, remote, rs.drop_last(), rr, name);
        lemma_take_resource_keeps_pbs_row(take_resources(t, remote, rs.drop_last()), remote, rs.last(), rr, name);
    }
}

proof fn lemma_take_resources_holds_pbs_row(t: Tables, remote: Seq<char>, rs: Seq<StorageResource>, j: int)
    requires
        !remote.contains('/'),
        0 <= j < rs.len(),
        rs[j] is Pbs,
    ensures
        holds_pbs_row(take_resources(t, remote, rs).pbs, remote, rs[j]->Pbs_0.name@),
    decreases rs.len(),
{
    let d = rs[j]->Pbs_0;
    if j == rs.len() - 1 {
        let before = take_resources(t, remote, rs.drop_last());
        assert(pbs_key(remote, d) == pbs_row(remote, d).remote + "/"@ + pbs_row(remote, d).name);
        lemma_put_holds_pbs_row(before.pbs, pbs_row(remote, d));
    } else {
        assert(rs.drop_last()[j] == rs[j]);
        lemma_take_resources_holds_pbs_row(t, remote, rs.drop_last(), j);
        lemma_take_resource_keeps_pbs_row(
            take_resources(t, remote, rs.drop_last()),
            remote,
            rs.last(),
            remote,
            d.name@,
        );
    }
}

proof fn lemma_take_remote_keeps_pbs_row(t: Tables, r: RemoteStorage, rr: Seq<char>, name: Seq<char>)
    requires
        !r.remote@.contains('/'),
        !rr.contains('/'),
        holds_pbs_row(t.pbs, rr, name),
    ensures
        holds_pbs_row(take_remote(t, r).pbs, rr, name),
{
    let t1 = match r.error {
        Some(e) => Tables { errors: t.errors.push(r.remote@ + ": "@ + e@), ..t },
        None => t,
    };
    lemma_take_resources_keeps_pbs_row(t1, r.remote@, r.resources@, rr, name);
}

proof fn lemma_take_remotes_holds_pbs_row(remotes: Seq<RemoteStorage>, k: int, j: int)
    requires
        forall|m: int| 0 <= m < remotes.len() ==> !(#[trigger] remotes[m]).remote@.contains('/'),
        0 <= k < remotes.len(),
        0 <= j < remotes[k].resources@.len(),
        remotes[k].resources@[j] is Pbs,
    ensures
        holds_pbs_row(
            take_remotes(remotes).pbs,
            remotes[k].remote@,
            remotes[k].resources@[j]->Pbs_0.name@,
        ),
    decreases remotes.len(),
{
    let rr = remotes[k].remote@;
    let name = remotes[k].resources@[j]->Pbs_0.name@;
    let before = take_remotes(remotes.drop_last());
    let r = remotes.last();
    assert(!r.remote@.contains('/'));
    if k == remotes.len() - 1 {
        let t1 = match r.error {
            Some(e) => Tables { errors: before.errors.push(r.remote@ + ": "@ + e@), ..before },
            None => before,
        };
        lemma_take_resources_holds_pbs_row(t1, r.remote@, r.resources@, j);
    } else {
        assert(remotes.drop_last()[k] == remotes[k]);
        assert forall|m: int| 0 <= m < remotes.drop_last().len() implies !(
        #[trigger] remotes.drop_last()[m]).remote@.contains('/') by {
            assert(remotes.drop_last()[m] == remotes[m]);
        }
        lemma_take_remotes_holds_pbs_row(remotes.drop_last(), k, j);
        lemma_take_remote_keeps_pbs_row(before, r, rr, name);
    }
}

/// Every datastore keeps its own row: as long as remote names hold no `/`
/// (remote ids cannot), each PBS datastore that any remote reports is shown
/// in a row of that remote with that datastore's name, so datastores of the
/// same name on different remotes never replace one another.
pub proof fn lemma_every_datastore_has_its_row(remotes: Seq<RemoteStorage>, k: int, j: int)
    requires
        forall|m: int| 0 <= m < remotes.len() ==> !(#[trigger] remotes[m]).remote@.contains('/'),
        0 <= k < remotes.len(),
        0 <= j < remotes[k].resources@.len(),
        remotes[k].resources@[j] is Pbs,
    ensures
        exists|i: int|
            0 <= i < take_remotes(remotes).pbs.len() && (#[trigger] take_remotes(remotes).pbs[i]).1.remote
                == remotes[k].remote@ && take_remotes(remotes).pbs[i].1.name
                == remotes[k].resources@[j]->Pbs_0.name@,
{
    lemma_take_remotes_holds_pbs_row(remotes, k, j);
}
} // verus!
