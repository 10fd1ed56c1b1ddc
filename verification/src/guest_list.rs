//! The cross-remote guest list: which guests a filter keeps, and the
//! remote-by-remote grouping of the tree view.
use vstd::prelude::*;

use crate::discovery::{lemma_lex_lt_total, lemma_lex_lt_trans, lex_lt, text_lt};
use crate::guest_actions::GuestKind;
use crate::split::{join, join_with, views};
use crate::text::{
    chars_of, contains, copy_string, decimal, has_substring, owned, push_all, str_eq, to_lowercase,
    u64_text, unicode_lower,
};

verus! {

/// One guest row, with the values the list shows: the remote it lives on, its
/// name, VMID, status, type (as displayed), node and tags.
pub struct GuestRow {
    pub remote: String,
    pub name: String,
    pub vmid: u32,
    pub status: String,
    pub type_text: String,
    pub node: String,
    pub tags: Vec<String>,
}

/// One term of a filter: an optional `field:` qualifier and the text sought.
pub struct FilterTerm {
    pub category: Option<String>,
    pub value: String,
}

// ---------------------------------------------------------------------------
// Filtering
// ---------------------------------------------------------------------------
/// `text` occurs in the lower-cased `s`.
pub open spec fn lowered_has(s: Seq<char>, text: Seq<char>) -> bool {
    contains(unicode_lower(s), text)
}

/// Some tag holds `text` once lower-cased.
pub open spec fn tag_has(tags: Seq<String>, text: Seq<char>) -> bool {
    exists|i: int| 0 <= i < tags.len() && lowered_has(#[trigger] tags[i]@, text)
}

/// A bare term matches when it occurs in the remote, name, VMID, status,
/// type, node or a tag of the guest (all but the VMID and type lower-cased).
pub open spec fn free_text_spec(g: GuestRow, text: Seq<char>) -> bool {
    ||| lowered_has(g.remote@, text)
    ||| lowered_has(g.name@, text)
    ||| contains(decimal(g.vmid as nat), text)
    ||| lowered_has(g.status@, text)
    ||| contains(g.type_text@, text)
    ||| lowered_has(g.node@, text)
    ||| tag_has(g.tags@, text)
}

/// A qualified term matches in its own field only; an unknown qualifier is
/// treated as a bare term.
pub open spec fn term_spec(g: GuestRow, category: Option<Seq<char>>, value: Seq<char>) -> bool {
    if category == Some("tag"@) {
        tag_has(g.tags@, value)
    } else if category == Some("remote"@) {
        lowered_has(g.remote@, value)
    } else if category == Some("node"@) {
        lowered_has(g.node@, value)
    } else if category == Some("status"@) {
        lowered_has(g.status@, value)
    } else if category == Some("type"@) {
        lowered_has(g.type_text@, value)
    } else {
        free_text_spec(g, value)
    }
}

pub open spec fn opt_text(o: Option<String>) -> Option<Seq<char>> {
    match o {
        Some(s) => Some(s@),
        None => None,
    }
}

fn lowered_contains(s: &String, text: &Vec<char>) -> (r: bool)
    ensures
        r == lowered_has(s@, text@),
{
    let l = to_lowercase(s.as_str());
    has_substring(&chars_of(l.as_str()), text)
}

fn any_tag(tags: &Vec<String>, text: &Vec<char>) -> (r: bool)
    ensures
        r == tag_has(tags@, text@),
{
    let mut i: usize = 0;
    while i < tags.len()
        invariant
            i <= tags.len(),
            forall|j: int| 0 <= j < i ==> !lowered_has(#[trigger] tags@[j]@, text@),
        decreases tags.len() - i,
    {
        if lowered_contains(&tags[i], text) {
            return true;
        }
        i += 1;
    }
    false
}

/// The guest shows `text` somewhere (see `free_text_spec`).
pub fn free_text_match(g: &GuestRow, text: &str) -> (r: bool)
    ensures
        r == free_text_spec(*g, text@),
{
    let t = chars_of(text);
    lowered_contains(&g.remote, &t) || lowered_contains(&g.name, &t) || has_substring(
        &chars_of(u64_text(g.vmid as u64).as_str()),
        &t,
    ) || lowered_contains(&g.status, &t) || has_substring(&chars_of(g.type_text.as_str()), &t)
        || lowered_contains(&g.node, &t) || any_tag(&g.tags, &t)
}

fn category_is(category: &Option<String>, name: &str) -> (r: bool)
    ensures
        r == (opt_text(*category) == Some(name@)),
{
    match category {
        Some(c) => str_eq(c.as_str(), name),
        None => false,
    }
}

/// The guest matches one filter term (see `term_spec`).
pub fn term_matches(g: &GuestRow, term: &FilterTerm) -> (r: bool)
    ensures
        r == term_spec(*g, opt_text(term.category), term.value@),
{
    let v = chars_of(term.value.as_str());
    if category_is(&term.category, "tag") {
        any_tag(&g.tags, &v)
    } else if category_is(&term.category, "remote") {
        lowered_contains(&g.remote, &v)
    } else if category_is(&term.category, "node") {
        lowered_contains(&g.node, &v)
    } else if category_is(&term.category, "status") {
        lowered_contains(&g.status, &v)
    } else if category_is(&term.category, "type") {
        lowered_contains(&g.type_text, &v)
    } else {
        free_text_match(g, term.value.as_str())
    }
}

/// The guest matches every term of the filter; terms narrow the list, so a
/// filter without terms keeps every guest.
pub fn guest_matches(g: &GuestRow, terms: &Vec<FilterTerm>) -> (r: bool)
    ensures
        r == forall|i: int|
            0 <= i < terms.len() ==> term_spec(
                *g,
                opt_text(#[trigger] terms@[i].category),
                terms@[i].value@,
            ),
{
    let mut i: usize = 0;
    while i < terms.len()
        invariant
            i <= terms.len(),
            forall|j: int|
                0 <= j < i ==> term_spec(*g, opt_text(#[trigger] terms@[j].category), terms@[j].value@),
        decreases terms.len() - i,
    {
        if !term_matches(g, &terms[i]) {
            return false;
        }
        i += 1;
    }
    true
}

/// The warning over the list when some remotes could not be queried.
pub fn failed_remotes_text(failed: &Vec<String>) -> (r: String)
    ensures
        r@ == "Could not query some remotes: "@ + join(views(failed@), ", "@),
{
    let mut s = owned("Could not query some remotes: ");
    let j = join_with(failed, ", ");
    push_all(&mut s, j.as_str());
    s
}

// ---------------------------------------------------------------------------
// The tree view
// ---------------------------------------------------------------------------
/// Row `a` comes before row `b` within a remote: by VMID, then in list order.
pub open spec fn row_before(rows: Seq<GuestRow>, a: int, b: int) -> bool {
    rows[a].vmid < rows[b].vmid || (rows[a].vmid == rows[b].vmid && a < b)
}

/// `members` are exactly the rows of `remote` among the first `n`, each once,
/// by VMID and then in list order.
pub open spec fn group_members(rows: Seq<GuestRow>, n: int, remote: Seq<char>, members: Seq<usize>) -> bool {
    &&& forall|k: int| 0 <= k < members.len() ==> #[trigger] members[k] < n && rows[members[k] as int].remote@ == remote
    &&& forall|a: int, b: int|
        0 <= a < b < members.len() ==> row_before(rows, #[trigger] members[a] as int, #[trigger] members[b] as int)
    &&& forall|i: int| 0 <= i < n && rows[i].remote@ == remote ==> #[trigger] members.contains(i as usize)
}

/// The groups of the first `n` rows: one per remote, by remote name, each
/// with its rows (see `group_members`).
pub open spec fn groups_of(rows: Seq<GuestRow>, n: int, groups: Seq<(String, Vec<usize>)>) -> bool {
    &&& forall|a: int, b: int| 0 <= a < b < groups.len() ==> lex_lt(#[trigger] groups[a].0@, #[trigger] groups[b].0@)
    &&& forall|g: int| 0 <= g < groups.len() ==> group_members(rows, n, #[trigger] groups[g].0@, groups[g].1@)
    &&& forall|g: int| 0 <= g < groups.len() ==> (#[trigger] groups[g].1@).len() > 0
    &&& forall|i: int| 0 <= i < n ==> has_group(groups, #[trigger] rows[i].remote@)
}

/// Some group is that of `remote`.
pub open spec fn has_group(groups: Seq<(String, Vec<usize>)>, remote: Seq<char>) -> bool {
    exists|g: int| 0 <= g < groups.len() && #[trigger] groups[g].0@ == remote
}

/// Adds row `i` (after every member) to the members of its remote.
fn add_member(members: &mut Vec<usize>, rows: &Vec<GuestRow>, i: usize)
    requires
        i < rows.len(),
        group_members(rows@, i as int, rows@[i as int].remote@, old(members)@),
    ensures
        group_members(rows@, i + 1, rows@[i as int].remote@, final(members)@),
        final(members)@.len() == old(members)@.len() + 1,
{
    let ghost m = members@;
    let ghost remote = rows@[i as int].remote@;
    let v = rows[i].vmid;
    let mut q: usize = 0;
    while q < members.len() && rows[members[q]].vmid <= v
        invariant
            q <= members.len(),
            m == members@,
            group_members(rows@, i as int, remote, m),
            i < rows.len(),
            v == rows@[i as int].vmid,
            forall|k: int| 0 <= k < q ==> rows@[#[trigger] m[k] as int].vmid <= v,
        decreases members.len() - q,
    {
        q += 1;
    }
    members.insert(q, i);
    let ghost t = members@;
    assert(t =~= m.insert(q as int, i));
    assert forall|k: int| 0 <= k < t.len() implies #[trigger] t[k] < i + 1 && rows@[t[k] as int].remote@ == remote by {
        if k < q {
            assert(t[k] == m[k]);
        } else if k > q {
            assert(t[k] == m[k - 1]);
        }
    }
    assert forall|a: int, b: int| 0 <= a < b < t.len() implies row_before(rows@, #[trigger] t[a] as int, #[trigger] t[b] as int) by {
        if b < q {
            assert(t[a] == m[a] && t[b] == m[b]);
        } else if a < q && b == q {
            assert(t[a] == m[a]);
        } else if a < q && b > q {
            assert(t[a] == m[a] && t[b] == m[b - 1]);
        } else if a == q {
            assert(t[b] == m[b - 1]);
            assert(rows@[m[q as int] as int].vmid > v);
            if b - 1 > q {
                assert(row_before(rows@, m[q as int] as int, m[b - 1] as int));
            }
        } else {
            assert(t[a] == m[a - 1] && t[b] == m[b - 1]);
        }
    }
    assert forall|j: int| 0 <= j < i + 1 && rows@[j].remote@ == remote implies #[trigger] t.contains(j as usize) by {
        if j == i {
            assert(t[q as int] == i);
        } else {
            assert(m.contains(j as usize));
            let k = choose|k: int| 0 <= k < m.len() && m[k] == j as usize;
            if k < q {
                assert(t[k] == j as usize);
            } else {
                assert(t[k + 1] == j as usize);
            }
        }
    }
}

/// The tree view of the list: one group per remote in order of the remote's
/// name, each listing the positions of its guests by VMID (rows with equal
/// VMIDs in list order).
pub fn guest_groups(rows: &Vec<GuestRow>) -> (r: Vec<(String, Vec<usize>)>)
    ensures
        groups_of(rows@, rows.len() as int, r@),
{
    let mut groups: Vec<(String, Vec<usize>)> = Vec::new();
    let mut i: usize = 0;
    while i < rows.len()
        invariant
            i <= rows.len(),
            groups_of(rows@, i as int, groups@),
        decreases rows.len() - i,
    {
        let remote = &rows[i].remote;
        let ghost gs = groups@;
        let mut p: usize = 0;
        while p < groups.len() && text_lt(&groups[p].0, remote)
            invariant
                p <= groups.len(),
                gs == groups@,
                remote == &rows@[i as int].remote,
                forall|k: int| 0 <= k < p ==> lex_lt(#[trigger] gs[k].0@, remote@),
            decreases groups.len() - p,
        {
            p += 1;
        }
        proof {
            assert forall|k: int| p < k < gs.len() implies lex_lt(remote@, #[trigger] gs[k].0@) by {
                if p < gs.len() {
                    lemma_lex_lt_total(gs[p as int].0@, remote@);
                    if gs[p as int].0@ != remote@ {
                        lemma_lex_lt_trans(remote@, gs[p as int].0@, gs[k].0@);
                    }
                }
            }
        }
        if p < groups.len() && str_eq(groups[p].0.as_str(), remote.as_str()) {
            let (name, mut members) = groups.remove(p);
            proof {
                assert(group_members(rows@, i as int, remote@, members@)) by {
                    assert(gs[p as int].1@ == members@);
                    assert forall|j: int| 0 <= j < i && rows@[j].remote@ == remote@ implies #[trigger] members@.contains(j as usize) by {
                        assert(group_members(rows@, i as int, gs[p as int].0@, gs[p as int].1@));
                    }
                }
            }
            add_member(&mut members, rows, i);
            groups.insert(p, (name, members));
            let ghost t = groups@;
            assert forall|g: int| 0 <= g < t.len() && g != p implies t[g] == gs[g] by {
            }
            assert forall|g: int| 0 <= g < t.len() implies group_members(rows@, i + 1, #[trigger] t[g].0@, t[g].1@) by {
                if g != p {
                    assert(t[g] == gs[g]);
                    assert(group_members(rows@, i as int, gs[g].0@, gs[g].1@));
                    assert(gs[g].0@ != remote@) by {
                        if g < p {
                        } else {
                            assert(lex_lt(remote@, gs[g].0@));
                        }
                    }
                }
            }
            assert forall|j: int| 0 <= j < i + 1 implies has_group(t, #[trigger] rows@[j].remote@) by {
                if j == i {
                    assert(t[p as int].0@ == rows@[j].remote@);
                } else {
                    let g = choose|g: int| 0 <= g < gs.len() && #[trigger] gs[g].0@ == rows@[j].remote@;
                    assert(t[g].0@ == gs[g].0@);
                }
            }
            assert forall|g: int| 0 <= g < t.len() implies (#[trigger] t[g].1@).len() > 0 by {
                if g != p {
                    assert(t[g] == gs[g]);
                }
            }
        } else {
            let mut members: Vec<usize> = Vec::new();
            members.push(i);
            proof {
                if p < gs.len() {
                    assert(gs[p as int].0@ != remote@);
                    lemma_lex_lt_total(gs[p as int].0@, remote@);
                }
                assert(group_members(rows@, i + 1, remote@, members@)) by {
                    assert(members@[0] == i);
                    assert forall|j: int| 0 <= j < i + 1 && rows@[j].remote@ == remote@ implies #[trigger] members@.contains(j as usize) by {
                        if j < i {
                            let g = choose|g: int| 0 <= g < gs.len() && #[trigger] gs[g].0@ == rows@[j].remote@;
                            if g < p {
                                assert(lex_lt(gs[g].0@, remote@));
                            } else if g > p {
                                assert(lex_lt(remote@, gs[g].0@));
                            }
                            assert(false);
                        } else {
                            assert(members@[0] == j as usize);
                        }
                    }
                }
            }
            groups.insert(p, (remote.clone(), members));
            let ghost t = groups@;
            assert(t =~= gs.insert(p as int, t[p as int]));
            assert forall|a: int, b: int| 0 <= a < b < t.len() implies lex_lt(#[trigger] t[a].0@, #[trigger] t[b].0@) by {
                if b < p {
                } else if a < p && b == p {
                } else if a < p && b > p {
                    lemma_lex_lt_trans(t[a].0@, remote@, t[b].0@);
                } else if a == p {
                } else {
                }
            }
            assert forall|g: int| 0 <= g < t.len() implies group_members(rows@, i + 1, #[trigger] t[g].0@, t[g].1@) by {
                if g != p {
                    let h = if g < p { g } else { g - 1 };
                    assert(t[g] == gs[h]);
                    assert(group_members(rows@, i as int, gs[h].0@, gs[h].1@));
                    assert(gs[h].0@ != remote@);
                }
            }
            assert forall|j: int| 0 <= j < i + 1 implies has_group(t, #[trigger] rows@[j].remote@) by {
                if j == i {
                    assert(t[p as int].0@ == rows@[j].remote@);
                } else {
                    let g = choose|g: int| 0 <= g < gs.len() && #[trigger] gs[g].0@ == rows@[j].remote@;
                    if g < p {
                        assert(t[g] == gs[g]);
                    } else {
                        assert(t[g + 1] == gs[g]);
                    }
                }
            }
            assert forall|g: int| 0 <= g < t.len() implies (#[trigger] t[g].1@).len() > 0 by {
                if g < p {
                    assert(t[g] == gs[g]);
                } else if g > p {
                    assert(t[g] == gs[g - 1]);
                }
            }
        }
        i += 1;
    }
    groups
}

// ---------------------------------------------------------------------------
// The details drawer
// ---------------------------------------------------------------------------
/// What the details drawer shows of a selected guest, besides its CPU and
/// memory figures.
pub struct GuestSelection {
    pub name: String,
    pub id: String,
    pub guest_type: String,
    pub status: String,
    pub remote: String,
    pub node: String,
    pub tags: Vec<String>,
    pub uptime: String,
    pub pve_url: Option<String>,
}

/// How a guest type is named in the drawer.
pub open spec fn kind_label(kind: GuestKind) -> Seq<char> {
    match kind {
        GuestKind::Qemu => "Virtual Machine"@,
        GuestKind::Lxc => "Linux Container"@,
    }
}

fn copy_strings(v: &Vec<String>) -> (r: Vec<String>)
    ensures
        views(r@) == views(v@),
{
    let mut out: Vec<String> = Vec::new();
    let mut i: usize = 0;
    while i < v.len()
        invariant
            i <= v.len(),
            views(out@) == views(v@).take(i as int),
        decreases v.len() - i,
    {
        let ghost before = views(out@);
        out.push(copy_string(&v[i]));
        assert(views(out@) =~= before.push(v@[i as int]@));
        assert(views(v@).take(i + 1) =~= views(v@).take(i as int).push(v@[i as int]@));
        i += 1;
    }
    assert(views(v@).take(v.len() as int) =~= views(v@));
    out
}

/// The drawer of guest `g` of type `kind`: its name, VMID, type, status,
/// remote, node and tags; a dash for the uptime of a guest that is not up
/// (`uptime` seconds), `uptime_text` otherwise; and the link into the remote's
/// web interface, if any.
pub fn guest_selection(
    g: &GuestRow,
    kind: GuestKind,
    uptime: u64,
    uptime_text: String,
    pve_url: Option<String>,
) -> (r: GuestSelection)
    ensures
        r.name@ == g.name@,
        r.id@ == decimal(g.vmid as nat),
        r.guest_type@ == kind_label(kind),
        r.status@ == g.status@,
        r.remote@ == g.remote@,
        r.node@ == g.node@,
        views(r.tags@) == views(g.tags@),
        r.uptime@ == (if uptime == 0 {
            "-"@
        } else {
            uptime_text@
        }),
        opt_text(r.pve_url) == opt_text(pve_url),
{
    let guest_type = match kind {
        GuestKind::Qemu => owned("Virtual Machine"),
        GuestKind::Lxc => owned("Linux Container"),
    };
    let uptime_shown = if uptime == 0 {
        owned("-")
    } else {
        uptime_text
    };
    GuestSelection {
        name: copy_string(&g.name),
        id: u64_text(g.vmid as u64),
        guest_type,
        status: copy_string(&g.status),
        remote: copy_string(&g.remote),
        node: copy_string(&g.node),
        tags: copy_strings(&g.tags),
        uptime: uptime_shown,
        pve_url,
    }
}

/// A bare term searches every visible column: a term without a qualifier,
/// or with one that names no column, keeps a guest whenever it occurs in the
/// guest's remote, name, VMID, status, type, node or one of its tags (in lower
/// case, but for the VMID and the type as shown).
pub proof fn lemma_bare_terms_search_every_column(g: GuestRow, category: Option<Seq<char>>, t: Seq<char>)
    requires
        category != Some("tag"@) && category != Some("remote"@) && category != Some("node"@)
            && category != Some("status"@) && category != Some("type"@),
    ensures
        lowered_has(g.remote@, t) ==> term_spec(g, category, t),
        lowered_has(g.name@, t) ==> term_spec(g, category, t),
        contains(decimal(g.vmid as nat), t) ==> term_spec(g, category, t),
        lowered_has(g.status@, t) ==> term_spec(g, category, t),
        contains(g.type_text@, t) ==> term_spec(g, category, t),
        lowered_has(g.node@, t) ==> term_spec(g, category, t),
        forall|i: int|
            0 <= i < g.tags@.len() && lowered_has(#[trigger] g.tags@[i]@, t) ==> term_spec(g, category, t),
{
    assert forall|i: int| 0 <= i < g.tags@.len() && lowered_has(#[trigger] g.tags@[i]@, t) implies term_spec(
        g,
        category,
        t,
    ) by {
        assert(tag_has(g.tags@, t));
    }
}

} // verus!
