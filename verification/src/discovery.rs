//! Where guests can be deployed: every PVE node of every remote once, and
//! every available storage once per remote, node and storage name, both in
//! ascending order, the way ordered sets and maps of these keys list them.
use vstd::prelude::*;

use crate::deploy_form::StorageTarget;
use crate::sorting::{lemma_lex_le_antisym, lemma_lex_le_total, lemma_lex_le_trans};
use crate::text::{chars_of, eq_ignore_case, equal_ignore_case, lex_le, lex_less_eq, str_eq};

verus! {

/// A resource of a remote, as far as deployment targets go.
pub enum InfraResource {
    PveNode { node: String },
    PveStorage { node: String, storage: String, status: String, shared: bool },
    Other,
}

/// The resources one remote reported.
pub struct RemoteResources {
    pub remote: String,
    pub resources: Vec<InfraResource>,
}

// ---------------------------------------------------------------------------
// Orders
// ---------------------------------------------------------------------------
/// Strictly before in code-point order.
pub open spec fn lex_lt(a: Seq<char>, b: Seq<char>) -> bool {
    lex_le(a, b) && a != b
}

/// The order of `(remote, node)` pairs: by remote, then by node.
pub open spec fn pair_lt(a: (Seq<char>, Seq<char>), b: (Seq<char>, Seq<char>)) -> bool {
    lex_lt(a.0, b.0) || (a.0 == b.0 && lex_lt(a.1, b.1))
}

/// The order of storage keys: by remote, then node, then storage name.
pub open spec fn key_lt(a: (Seq<char>, Seq<char>, Seq<char>), b: (Seq<char>, Seq<char>, Seq<char>)) -> bool {
    pair_lt((a.0, a.1), (b.0, b.1)) || (a.0 == b.0 && a.1 == b.1 && lex_lt(a.2, b.2))
}

pub(crate) proof fn lemma_lex_lt_trans(a: Seq<char>, b: Seq<char>, c: Seq<char>)
    requires
        lex_lt(a, b),
        lex_lt(b, c),
    ensures
        lex_lt(a, c),
{
    lemma_lex_le_trans(a, b, c);
    if a == c {
        lemma_lex_le_antisym(a, b);
    }
}

pub(crate) proof fn lemma_lex_lt_total(a: Seq<char>, b: Seq<char>)
    ensures
        a == b || lex_lt(a, b) || lex_lt(b, a),
{
    lemma_lex_le_total(a, b);
}

proof fn lemma_lex_lt_asym(a: Seq<char>, b: Seq<char>)
    requires
        lex_lt(a, b),
    ensures
        !lex_le(b, a),
{
    if lex_le(b, a) {
        lemma_lex_le_antisym(a, b);
    }
}

proof fn lemma_pair_lt_trans(a: (Seq<char>, Seq<char>), b: (Seq<char>, Seq<char>), c: (Seq<char>, Seq<char>))
    requires
        pair_lt(a, b),
        pair_lt(b, c),
    ensures
        pair_lt(a, c),
{
    if lex_lt(a.0, b.0) && lex_lt(b.0, c.0) {
        lemma_lex_lt_trans(a.0, b.0, c.0);
    }
    if a.0 == b.0 && b.0 == c.0 {
        lemma_lex_lt_trans(a.1, b.1, c.1);
    }
}

proof fn lemma_pair_lt_total(a: (Seq<char>, Seq<char>), b: (Seq<char>, Seq<char>))
    ensures
        a == b || pair_lt(a, b) || pair_lt(b, a),
{
    lemma_lex_lt_total(a.0, b.0);
    lemma_lex_lt_total(a.1, b.1);
}

proof fn lemma_pair_lt_irrefl(a: (Seq<char>, Seq<char>))
    ensures
        !pair_lt(a, a),
{
}

proof fn lemma_key_lt_trans(
    a: (Seq<char>, Seq<char>, Seq<char>),
    b: (Seq<char>, Seq<char>, Seq<char>),
    c: (Seq<char>, Seq<char>, Seq<char>),
)
    requires
        key_lt(a, b),
        key_lt(b, c),
    ensures
        key_lt(a, c),
{
    let (pa, pb, pc) = ((a.0, a.1), (b.0, b.1), (c.0, c.1));
    if pair_lt(pa, pb) && pair_lt(pb, pc) {
        lemma_pair_lt_trans(pa, pb, pc);
    }
    if pa == pb && pb == pc {
        lemma_lex_lt_trans(a.2, b.2, c.2);
    }
}

proof fn lemma_key_lt_total(a: (Seq<char>, Seq<char>, Seq<char>), b: (Seq<char>, Seq<char>, Seq<char>))
    ensures
        a == b || key_lt(a, b) || key_lt(b, a),
{
    lemma_pair_lt_total((a.0, a.1), (b.0, b.1));
    lemma_lex_lt_total(a.2, b.2);
}

pub(crate) fn text_lt(a: &String, b: &String) -> (r: bool)
    ensures
        r == lex_lt(a@, b@),
{
    let av = chars_of(a.as_str());
    let bv = chars_of(b.as_str());
    lex_less_eq(&av, &bv) && !str_eq(a.as_str(), b.as_str())
}

// ---------------------------------------------------------------------------
// Ordered sets of node pairs
// ---------------------------------------------------------------------------
pub open spec fn pair_views(v: Seq<(String, String)>) -> Seq<(Seq<char>, Seq<char>)> {
    v.map_values(|p: (String, String)| (p.0@, p.1@))
}

/// Strictly ascending: ordered and without repetition.
pub open spec fn ascending_pairs(s: Seq<(Seq<char>, Seq<char>)>) -> bool {
    forall|i: int, j: int| 0 <= i < j < s.len() ==> pair_lt(#[trigger] s[i], #[trigger] s[j])
}

/// Adds `(remote, node)` to the ordered set `out`.
fn insert_pair(out: &mut Vec<(String, String)>, remote: &String, node: &String)
    requires
        ascending_pairs(pair_views(old(out)@)),
    ensures
        ascending_pairs(pair_views(final(out)@)),
        forall|p: (Seq<char>, Seq<char>)|
            #[trigger] pair_views(final(out)@).contains(p) <==> (pair_views(old(out)@).contains(p)
                || p == (remote@, node@)),
{
    let ghost x = (remote@, node@);
    let ghost s = pair_views(out@);
    let mut i: usize = 0;
    while i < out.len() && (text_lt(&out[i].0, remote) || (str_eq(out[i].0.as_str(), remote.as_str())
        && text_lt(&out[i].1, node)))
        invariant
            i <= out.len(),
            s == pair_views(out@),
            s.len() == out.len(),
            x == (remote@, node@),
            forall|j: int| 0 <= j < i ==> pair_lt(#[trigger] s[j], x),
        decreases out.len() - i,
    {
        assert(s[i as int] == (out@[i as int].0@, out@[i as int].1@));
        i += 1;
    }
    if i < out.len() && str_eq(out[i].0.as_str(), remote.as_str()) && str_eq(
        out[i].1.as_str(),
        node.as_str(),
    ) {
        assert(s[i as int] == x);
        assert forall|p: (Seq<char>, Seq<char>)|
            #[trigger] pair_views(out@).contains(p) <==> (s.contains(p) || p == x) by {
            if p == x {
                assert(s[i as int] == p);
            }
        }
        return;
    }
    proof {
        if i < s.len() {
            assert(s[i as int] == (out@[i as int].0@, out@[i as int].1@));
            lemma_pair_lt_total(s[i as int], x);
            assert(pair_lt(x, s[i as int]));
        }
    }
    out.insert(i, (remote.clone(), node.clone()));
    let ghost t = pair_views(out@);
    assert(t =~= s.insert(i as int, x));
    assert forall|a: int, b: int| 0 <= a < b < t.len() implies pair_lt(#[trigger] t[a], #[trigger] t[b]) by {
        if b < i {
        } else if a < i && b == i {
        } else if a < i && b > i {
            assert(pair_lt(s[a], x));
            assert(pair_lt(x, s[i as int]));
            lemma_pair_lt_trans(s[a], x, s[i as int]);
            if b - 1 > i {
                lemma_pair_lt_trans(s[a], s[i as int], s[b - 1]);
            }
        } else if a == i {
            if b - 1 > i {
                lemma_pair_lt_trans(x, s[i as int], s[b - 1]);
            }
        } else {
        }
    }
    assert forall|p: (Seq<char>, Seq<char>)| #[trigger] t.contains(p) <==> (s.contains(p) || p == x) by {
        if t.contains(p) {
            let k = choose|k: int| 0 <= k < t.len() && t[k] == p;
            if k < i {
                assert(s[k] == p);
            } else if k > i {
                assert(s[k - 1] == p);
            }
        }
        if s.contains(p) {
            let k = choose|k: int| 0 <= k < s.len() && s[k] == p;
            if k < i {
                assert(t[k] == p);
            } else {
                assert(t[k + 1] == p);
            }
        }
        if p == x {
            assert(t[i as int] == p);
        }
    }
}

// ---------------------------------------------------------------------------
// Ordered maps of storages
// ---------------------------------------------------------------------------
/// A storage as offered: remote, node, storage name, and whether it is shared.
pub open spec fn target_view(s: StorageTarget) -> (Seq<char>, Seq<char>, Seq<char>, bool) {
    (s.remote@, s.node@, s.storage@, s.shared)
}

pub open spec fn target_views(v: Seq<StorageTarget>) -> Seq<(Seq<char>, Seq<char>, Seq<char>, bool)> {
    v.map_values(|s: StorageTarget| target_view(s))
}

/// The key a storage is listed under.
pub open spec fn item_key(i: (Seq<char>, Seq<char>, Seq<char>, bool)) -> (Seq<char>, Seq<char>, Seq<char>) {
    (i.0, i.1, i.2)
}

/// Strictly ascending by key: ordered and one storage per key.
pub open spec fn ascending_keys(s: Seq<(Seq<char>, Seq<char>, Seq<char>, bool)>) -> bool {
    forall|i: int, j: int|
        0 <= i < j < s.len() ==> key_lt(item_key(#[trigger] s[i]), item_key(#[trigger] s[j]))
}

/// The first item of `items` with key `k`, if any.
pub open spec fn first_with(
    items: Seq<(Seq<char>, Seq<char>, Seq<char>, bool)>,
    k: (Seq<char>, Seq<char>, Seq<char>),
) -> Option<(Seq<char>, Seq<char>, Seq<char>, bool)>
    decreases items.len(),
{
    if items.len() == 0 {
        None
    } else {
        match first_with(items.drop_last(), k) {
            Some(x) => Some(x),
            None => if item_key(items.last()) == k {
                Some(items.last())
            } else {
                None
            },
        }
    }
}

/// `out` lists, in key order, exactly the first item of `seen` under each key.
pub open spec fn lists_first_items(
    out: Seq<(Seq<char>, Seq<char>, Seq<char>, bool)>,
    seen: Seq<(Seq<char>, Seq<char>, Seq<char>, bool)>,
) -> bool {
    &&& ascending_keys(out)
    &&& forall|k: (Seq<char>, Seq<char>, Seq<char>)|
        (exists|i: int| 0 <= i < out.len() && #[trigger] item_key(out[i]) == k) <==> (
        #[trigger] first_with(seen, k)) is Some
    &&& forall|i: int| 0 <= i < out.len() ==> first_with(seen, item_key(#[trigger] out[i])) == Some(out[i])
}

proof fn lemma_first_with_push(
    seen: Seq<(Seq<char>, Seq<char>, Seq<char>, bool)>,
    y: (Seq<char>, Seq<char>, Seq<char>, bool),
    k: (Seq<char>, Seq<char>, Seq<char>),
)
    ensures
        first_with(seen.push(y), k) == match first_with(seen, k) {
            Some(x) => Some(x),
            None => if item_key(y) == k {
                Some(y)
            } else {
                None
            },
        },
{
    assert(seen.push(y).drop_last() =~= seen);
}

/// Adds storage `y` to `out` unless a storage with its key is listed already.
fn insert_storage(
    out: &mut Vec<StorageTarget>,
    y: StorageTarget,
    Ghost(seen): Ghost<Seq<(Seq<char>, Seq<char>, Seq<char>, bool)>>,
)
    requires
        lists_first_items(target_views(old(out)@), seen),
    ensures
        lists_first_items(target_views(final(out)@), seen.push(target_view(y))),
{
    let ghost yv = target_view(y);
    let ghost k = item_key(yv);
    let ghost s = target_views(out@);
    let mut i: usize = 0;
    while i < out.len() && (text_lt(&out[i].remote, &y.remote) || (str_eq(
        out[i].remote.as_str(),
        y.remote.as_str(),
    ) && (text_lt(&out[i].node, &y.node) || (str_eq(out[i].node.as_str(), y.node.as_str())
        && text_lt(&out[i].storage, &y.storage)))))
        invariant
            i <= out.len(),
            s == target_views(out@),
            s.len() == out.len(),
            yv == target_view(y),
            k == item_key(yv),
            forall|j: int| 0 <= j < i ==> key_lt(item_key(#[trigger] s[j]), k),
        decreases out.len() - i,
    {
        assert(s[i as int] == target_view(out@[i as int]));
        i += 1;
    }
    proof {
        assert forall|kk: (Seq<char>, Seq<char>, Seq<char>)| #[trigger]
            first_with(seen.push(yv), kk) == match first_with(seen, kk) {
                Some(x) => Some(x),
                None => if item_key(yv) == kk {
                    Some(yv)
                } else {
                    None
                },
            } by {
            lemma_first_with_push(seen, yv, kk);
        }
    }
    if i < out.len() && str_eq(out[i].remote.as_str(), y.remote.as_str()) && str_eq(
        out[i].node.as_str(),
        y.node.as_str(),
    ) && str_eq(out[i].storage.as_str(), y.storage.as_str()) {
        assert(s[i as int] == target_view(out@[i as int]));
        assert(item_key(s[i as int]) == k);
        assert(first_with(seen, k) is Some);
        return;
    }
    proof {
        if i < s.len() {
            assert(s[i as int] == target_view(out@[i as int]));
            lemma_key_lt_total(item_key(s[i as int]), k);
            assert(key_lt(k, item_key(s[i as int])));
        }
        assert forall|j: int| 0 <= j < s.len() implies item_key(#[trigger] s[j]) != k by {
            if j < i {
            } else if j == i {
            } else {
                lemma_key_lt_trans(k, item_key(s[i as int]), item_key(s[j]));
            }
        }
        assert(first_with(seen, k) is None);
    }
    out.insert(i, y);
    let ghost t = target_views(out@);
    assert(t =~= s.insert(i as int, yv));
    assert forall|a: int, b: int| 0 <= a < b < t.len() implies key_lt(
        item_key(#[trigger] t[a]),
        item_key(#[trigger] t[b]),
    ) by {
        if b < i {
        } else if a < i && b == i {
        } else if a < i && b > i {
            lemma_key_lt_trans(item_key(s[a]), k, item_key(s[i as int]));
            if b - 1 > i {
                lemma_key_lt_trans(item_key(s[a]), item_key(s[i as int]), item_key(s[b - 1]));
            }
        } else if a == i {
            if b - 1 > i {
                lemma_key_lt_trans(k, item_key(s[i as int]), item_key(s[b - 1]));
            }
        } else {
        }
    }
    assert forall|kk: (Seq<char>, Seq<char>, Seq<char>)|
        (exists|j: int| 0 <= j < t.len() && #[trigger] item_key(t[j]) == kk) <==> (
        #[trigger] first_with(seen.push(yv), kk)) is Some by {
        if exists|j: int| 0 <= j < t.len() && #[trigger] item_key(t[j]) == kk {
            let j = choose|j: int| 0 <= j < t.len() && #[trigger] item_key(t[j]) == kk;
            if j < i {
                assert(item_key(s[j]) == kk);
            } else if j > i {
                assert(item_key(s[j - 1]) == kk);
            }
        }
        if first_with(seen.push(yv), kk) is Some {
            if first_with(seen, kk) is Some {
                let j = choose|j: int| 0 <= j < s.len() && #[trigger] item_key(s[j]) == kk;
                if j < i {
                    assert(item_key(t[j]) == kk);
                } else {
                    assert(item_key(t[j + 1]) == kk);
                }
            } else {
                assert(item_key(t[i as int]) == kk);
            }
        }
    }
    assert forall|j: int| 0 <= j < t.len() implies first_with(seen.push(yv), item_key(#[trigger] t[j]))
        == Some(t[j]) by {
        if j < i {
            assert(t[j] == s[j]);
            assert(first_with(seen, item_key(s[j])) == Some(s[j]));
        } else if j > i {
            assert(t[j] == s[j - 1]);
            assert(first_with(seen, item_key(s[j - 1])) == Some(s[j - 1]));
        }
    }
}

// ---------------------------------------------------------------------------
// Discovery
// ---------------------------------------------------------------------------
/// The `(remote, node)` pair of each node among `rs`, in order.
pub open spec fn nodes_of(remote: Seq<char>, rs: Seq<InfraResource>) -> Seq<(Seq<char>, Seq<char>)>
    decreases rs.len(),
{
    if rs.len() == 0 {
        Seq::empty()
    } else {
        nodes_of(remote, rs.drop_last()) + match rs.last() {
            InfraResource::PveNode { node } => seq![(remote, node@)],
            _ => Seq::empty(),
        }
    }
}

/// The nodes of all remotes, in the order reported.
pub open spec fn all_nodes(remotes: Seq<RemoteResources>) -> Seq<(Seq<char>, Seq<char>)>
    decreases remotes.len(),
{
    if remotes.len() == 0 {
        Seq::empty()
    } else {
        all_nodes(remotes.drop_last()) + nodes_of(remotes.last().remote@, remotes.last().resources@)
    }
}

/// A storage can take guests when its status is `available` in any ASCII case.
pub open spec fn storage_available(status: Seq<char>) -> bool {
    eq_ignore_case(status, "available"@)
}

/// The available storages among `rs`, in order.
pub open spec fn storages_of(remote: Seq<char>, rs: Seq<InfraResource>) -> Seq<
    (Seq<char>, Seq<char>, Seq<char>, bool),
>
    decreases rs.len(),
{
    if rs.len() == 0 {
        Seq::empty()
    } else {
        storages_of(remote, rs.drop_last()) + match rs.last() {
            InfraResource::PveStorage { node, storage, status, shared } => if storage_available(
                status@,
            ) {
                seq![(remote, node@, storage@, shared)]
            } else {
                Seq::empty()
            },
            _ => Seq::empty(),
        }
    }
}

/// The available storages of all remotes, in the order reported.
pub open spec fn all_storages(remotes: Seq<RemoteResources>) -> Seq<(Seq<char>, Seq<char>, Seq<char>, bool)>
    decreases remotes.len(),
{
    if remotes.len() == 0 {
        Seq::empty()
    } else {
        all_storages(remotes.drop_last()) + storages_of(
            remotes.last().remote@,
            remotes.last().resources@,
        )
    }
}

fn is_available(status: &String) -> (r: bool)
    ensures
        r == storage_available(status@),
{
    let s = chars_of(status.as_str());
    let a = chars_of("available");
    equal_ignore_case(&s, &a)
}

/// The deployment targets of all remotes: every node once, in `(remote, node)`
/// order, and, in `(remote, node, storage)` order, the first available storage
/// reported under each such key.
pub fn discover_targets(remotes: &Vec<RemoteResources>) -> (r: (Vec<(String, String)>, Vec<StorageTarget>))
    ensures
        ascending_pairs(pair_views(r.0@)),
        forall|p: (Seq<char>, Seq<char>)|
            #[trigger] pair_views(r.0@).contains(p) <==> all_nodes(remotes@).contains(p),
        lists_first_items(target_views(r.1@), all_storages(remotes@)),
{
    let mut targets: Vec<(String, String)> = Vec::new();
    let mut storages: Vec<StorageTarget> = Vec::new();
    assert(pair_views(targets@) =~= Seq::<(Seq<char>, Seq<char>)>::empty());
    assert(target_views(storages@) =~= Seq::<(Seq<char>, Seq<char>, Seq<char>, bool)>::empty());
    let mut k: usize = 0;
    while k < remotes.len()
        invariant
            k <= remotes.len(),
            ascending_pairs(pair_views(targets@)),
            forall|p: (Seq<char>, Seq<char>)|
                #[trigger] pair_views(targets@).contains(p) <==> all_nodes(remotes@.take(k as int)).contains(p),
            lists_first_items(target_views(storages@), all_storages(remotes@.take(k as int))),
        decreases remotes.len() - k,
    {
        let remote = &remotes[k].remote;
        let resources = &remotes[k].resources;
        let ghost nodes_before = all_nodes(remotes@.take(k as int));
        let ghost storages_before = all_storages(remotes@.take(k as int));
        assert(resources@.take(0) =~= Seq::<InfraResource>::empty());
        assert(nodes_before + nodes_of(remote@, resources@.take(0)) =~= nodes_before);
        assert(storages_before + storages_of(remote@, resources@.take(0)) =~= storages_before);
        let mut j: usize = 0;
        while j < resources.len()
            invariant
                j <= resources.len(),
                resources == &remotes@[k as int].resources,
                remote == &remotes@[k as int].remote,
                ascending_pairs(pair_views(targets@)),
                forall|p: (Seq<char>, Seq<char>)|
                    #[trigger] pair_views(targets@).contains(p) <==> (nodes_before + nodes_of(
                        remote@,
                        resources@.take(j as int),
                    )).contains(p),
                lists_first_items(
                    target_views(storages@),
                    storages_before + storages_of(remote@, resources@.take(j as int)),
                ),
            decreases resources.len() - j,
        {
            let ghost seen_nodes = nodes_before + nodes_of(remote@, resources@.take(j as int));
            let ghost seen_storages = storages_before + storages_of(remote@, resources@.take(j as int));
            assert(resources@.take(j + 1).drop_last() =~= resources@.take(j as int));
            assert(resources@.take(j + 1).last() == resources@[j as int]);
            match &resources[j] {
                InfraResource::PveNode { node } => {
                    let ghost before = pair_views(targets@);
                    insert_pair(&mut targets, remote, node);
                    assert(nodes_of(remote@, resources@.take(j + 1)) =~= nodes_of(
                        remote@,
                        resources@.take(j as int),
                    ).push((remote@, node@)));
                    assert(nodes_before + nodes_of(remote@, resources@.take(j + 1)) =~= seen_nodes.push(
                        (remote@, node@),
                    ));
                    assert(storages_of(remote@, resources@.take(j + 1)) =~= storages_of(
                        remote@,
                        resources@.take(j as int),
                    ));
                    assert forall|p: (Seq<char>, Seq<char>)| #[trigger]
                        pair_views(targets@).contains(p) <==> seen_nodes.push((remote@, node@)).contains(p) by {
                        if p == (remote@, node@) {
                            assert(seen_nodes.push((remote@, node@))[seen_nodes.len() as int] == p);
                        }
                        if seen_nodes.push((remote@, node@)).contains(p) && p != (remote@, node@) {
                            let w = choose|w: int|
                                0 <= w < seen_nodes.len() + 1 && seen_nodes.push((remote@, node@))[w] == p;
                            assert(seen_nodes[w] == p);
                        }
                        if seen_nodes.contains(p) {
                            let w = choose|w: int| 0 <= w < seen_nodes.len() && seen_nodes[w] == p;
                            assert(seen_nodes.push((remote@, node@))[w] == p);
                        }
                    }
                },
                InfraResource::PveStorage { node, storage, status, shared } => {
                    assert(nodes_of(remote@, resources@.take(j + 1)) =~= nodes_of(
                        remote@,
                        resources@.take(j as int),
                    ));
                    if is_available(status) {
                        let y = StorageTarget {
                            remote: remote.clone(),
                            node: node.clone(),
                            storage: storage.clone(),
                            shared: *shared,
                        };
                        assert(target_view(y) == (remote@, node@, storage@, *shared));
                        insert_storage(&mut storages, y, Ghost(seen_storages));
                        assert(storages_before + storages_of(remote@, resources@.take(j + 1))
                            =~= seen_storages.push((remote@, node@, storage@, *shared)));
                    } else {
                        assert(storages_of(remote@, resources@.take(j + 1)) =~= storages_of(
                            remote@,
                            resources@.take(j as int),
                        ));
                    }
                },
                InfraResource::Other => {
                    assert(nodes_of(remote@, resources@.take(j + 1)) =~= nodes_of(
                        remote@,
                        resources@.take(j as int),
                    ));
                    assert(storages_of(remote@, resources@.take(j + 1)) =~= storages_of(
                        remote@,
                        resources@.take(j as int),
                    ));
                },
            }
            j += 1;
        }
        assert(resources@.take(resources.len() as int) =~= resources@);
        assert(remotes@.take(k + 1).drop_last() =~= remotes@.take(k as int));
        assert(remotes@.take(k + 1).last() == remotes@[k as int]);
        k += 1;
    }
    assert(remotes@.take(remotes.len() as int) =~= remotes@);
    (targets, storages)
}

} // verus!
