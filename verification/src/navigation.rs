//! The navigation of the console: which menu sections and entries exist for
//! the configured remotes, saved views and privileges, and what the top bar
//! shows.
use vstd::prelude::*;

use crate::split::views;
use crate::text::{chars_of, owned, push_all, str_eq, string_of_range};

verus! {

/// A menu entry: its key, its label and its icon.
pub struct NavItem {
    pub key: String,
    pub label: String,
    pub icon: String,
}

/// A top-level menu entry with its sub-entries.
pub struct NavSection {
    pub item: NavItem,
    pub children: Vec<NavItem>,
}

pub type ItemView = (Seq<char>, Seq<char>, Seq<char>);

pub open spec fn item_view(i: NavItem) -> ItemView {
    (i.key@, i.label@, i.icon@)
}

pub open spec fn items_view(v: Seq<NavItem>) -> Seq<ItemView> {
    v.map_values(|i: NavItem| item_view(i))
}

pub open spec fn sections_view(v: Seq<NavSection>) -> Seq<(ItemView, Seq<ItemView>)> {
    v.map_values(|s: NavSection| (item_view(s.item), items_view(s.children@)))
}

pub open spec fn leaf(key: Seq<char>, label: Seq<char>, icon: Seq<char>) -> (ItemView, Seq<ItemView>) {
    ((key, label, icon), Seq::empty())
}

/// The saved view a route names: the part after `view-`, when the route's
/// first `-` ends exactly `view`.
pub open spec fn route_view_spec(path: Seq<char>) -> Option<Seq<char>> {
    if exists|i: int| 0 <= i < path.len() && path[i] == '-' {
        let i = choose|i: int|
            0 <= i < path.len() && path[i] == '-' && forall|j: int| 0 <= j < i ==> path[j] != '-';
        if path.take(i) == "view"@ {
            Some(path.skip(i + 1))
        } else {
            None
        }
    } else {
        None
    }
}

pub open spec fn opt_view(o: Option<String>) -> Option<Seq<char>> {
    match o {
        Some(s) => Some(s@),
        None => None,
    }
}

/// The saved view a route names (see `route_view_spec`).
pub fn route_view(path: &str) -> (r: Option<String>)
    ensures
        opt_view(r) == route_view_spec(path@),
{
    let v = chars_of(path);
    let mut i: usize = 0;
    while i < v.len()
        invariant
            i <= v.len(),
            v@ == path@,
            forall|j: int| 0 <= j < i ==> v@[j] != '-',
        decreases v.len() - i,
    {
        if v[i] == '-' {
            let head = string_of_range(&v, 0, i);
            proof {
                let k = choose|k: int|
                    0 <= k < path@.len() && path@[k] == '-' && forall|j: int| 0 <= j < k ==> path@[j] != '-';
                if k < i {
                    assert(v@[k] != '-');
                }
                if k > i {
                    assert(path@[i as int] != '-');
                }
                assert(v@.subrange(0, i as int) =~= path@.take(i as int));
            }
            if str_eq(head.as_str(), "view") {
                let tail = string_of_range(&v, i + 1, v.len());
                assert(v@.subrange(i + 1, v.len() as int) =~= path@.skip(i + 1));
                return Some(tail);
            }
            return None;
        }
        i += 1;
    }
    None
}

/// The saved views listed: the configured ones in order, then the routed one
/// when it is not among them.
pub open spec fn listed_views(configured: Seq<Seq<char>>, routed: Option<Seq<char>>) -> Seq<Seq<char>> {
    match routed {
        Some(v) => if configured.contains(v) {
            configured
        } else {
            configured.push(v)
        },
        None => configured,
    }
}

pub open spec fn remote_item(id: Seq<char>, icon: Seq<char>) -> ItemView {
    ("remote-"@ + id, id, icon)
}

pub open spec fn view_item(name: Seq<char>) -> ItemView {
    ("view-"@ + name, name, "fa fa-plus-square-o"@)
}

/// The settings entries; notes only with the audit privilege.
pub open spec fn settings_items(can_audit: bool) -> Seq<ItemView> {
    seq![
        ("configuration"@, "System"@, "fa fa-sliders"@),
        ("access"@, "Access Control"@, "fa fa-key"@),
        ("certificates"@, "Certificates"@, "fa fa-certificate"@),
        ("subscription"@, "Subscription"@, "fa fa-support"@),
        ("subscription-registry"@, "Subscription Registry"@, "fa fa-id-card"@),
    ] + (if can_audit {
        seq![("notes"@, "Notes"@, "fa fa-sticky-note-o"@)]
    } else {
        Seq::empty()
    }) + seq![
        ("administration"@, "Administration"@, "fa fa-wrench"@),
        ("shell"@, "Shell"@, "fa fa-terminal"@),
    ]
}

/// The whole menu: dashboard, inventory, infrastructure with every PVE
/// remote, backups with every PBS remote (only when there is one),
/// networking, storage, saved views and settings.
pub open spec fn navigation_spec(
    pve: Seq<Seq<char>>,
    pbs: Seq<Seq<char>>,
    remotes_loading: bool,
    configured_views: Seq<Seq<char>>,
    route: Option<Seq<char>>,
    can_audit: bool,
) -> Seq<(ItemView, Seq<ItemView>)> {
    seq![
        leaf("dashboard"@, "Dashboard"@, "fa fa-th-large"@),
        leaf("guests"@, "Inventory"@, "fa fa-cubes"@),
        (
            (
                "infrastructure"@,
                "Infrastructure"@,
                if remotes_loading {
                    "fa fa-refresh fa-spin"@
                } else {
                    "fa fa-server"@
                },
            ),
            seq![("remotes"@, "All remotes"@, "fa fa-server"@)] + pve.map_values(
                |id: Seq<char>| remote_item(id, "fa fa-server"@),
            ),
        ),
    ] + (if pbs.len() > 0 {
        seq![
            (
                ("backups"@, "Backups"@, "fa fa-database"@),
                pbs.map_values(|id: Seq<char>| remote_item(id, "fa fa-database"@)),
            ),
        ]
    } else {
        Seq::empty()
    }) + seq![
        (
            ("networking"@, "Networking"@, "fa fa-sitemap"@),
            seq![("sdn"@, "SDN"@, "fa fa-sitemap"@), ("evpn"@, "EVPN"@, "fa fa-share-alt"@)],
        ),
        leaf("ceph"@, "Storage"@, "fa fa-database"@),
        (
            ("views"@, "Views"@, "fa fa-columns"@),
            listed_views(configured_views, route).map_values(|n: Seq<char>| view_item(n)),
        ),
        (("settings"@, "Settings"@, "fa fa-cog"@), settings_items(can_audit)),
    ]
}

fn item(key: &str, label: &str, icon: &str) -> (r: NavItem)
    ensures
        item_view(r) == (key@, label@, icon@),
{
    NavItem { key: owned(key), label: owned(label), icon: owned(icon) }
}

fn section(key: &str, label: &str, icon: &str, children: Vec<NavItem>) -> (r: NavSection)
    ensures
        item_view(r.item) == (key@, label@, icon@),
        r.children@ == children@,
{
    NavSection { item: item(key, label, icon), children }
}

fn leaf_section(key: &str, label: &str, icon: &str) -> (r: NavSection)
    ensures
        item_view(r.item) == (key@, label@, icon@),
        items_view(r.children@) == Seq::<ItemView>::empty(),
{
    let children: Vec<NavItem> = Vec::new();
    assert(items_view(children@) =~= Seq::<ItemView>::empty());
    NavSection { item: item(key, label, icon), children }
}

fn prefixed(prefix: &str, name: &String) -> (r: String)
    ensures
        r@ == prefix@ + name@,
{
    let mut s = owned(prefix);
    push_all(&mut s, name.as_str());
    s
}

fn remote_items(ids: &Vec<String>, icon: &str) -> (r: Vec<NavItem>)
    ensures
        items_view(r@) == views(ids@).map_values(|id: Seq<char>| remote_item(id, icon@)),
{
    let ghost want = views(ids@).map_values(|id: Seq<char>| remote_item(id, icon@));
    let mut out: Vec<NavItem> = Vec::new();
    let mut i: usize = 0;
    while i < ids.len()
        invariant
            i <= ids.len(),
            want == views(ids@).map_values(|id: Seq<char>| remote_item(id, icon@)),
            items_view(out@) == want.take(i as int),
        decreases ids.len() - i,
    {
        let ghost before = items_view(out@);
        let it = NavItem {
            key: prefixed("remote-", &ids[i]),
            label: ids[i].clone(),
            icon: owned(icon),
        };
        out.push(it);
        assert(items_view(out@) =~= before.push(want[i as int]));
        assert(want.take(i + 1) =~= want.take(i as int).push(want[i as int]));
        i += 1;
    }
    assert(want.take(ids.len() as int) =~= want);
    out
}

fn contains_name(names: &Vec<String>, name: &String) -> (r: bool)
    ensures
        r == views(names@).contains(name@),
{
    let mut i: usize = 0;
    while i < names.len()
        invariant
            i <= names.len(),
            forall|j: int| 0 <= j < i ==> names@[j]@ != name@,
        decreases names.len() - i,
    {
        if str_eq(names[i].as_str(), name.as_str()) {
            assert(views(names@)[i as int] == name@);
            return true;
        }
        i += 1;
    }
    proof {
        if views(names@).contains(name@) {
            let k = choose|k: int| 0 <= k < views(names@).len() && views(names@)[k] == name@;
            assert(names@[k]@ == name@);
        }
    }
    false
}

fn view_items(configured: &Vec<String>, route: &Option<String>) -> (r: Vec<NavItem>)
    ensures
        items_view(r@) == listed_views(views(configured@), opt_view(*route)).map_values(
            |n: Seq<char>| view_item(n),
        ),
{
    let ghost listed = listed_views(views(configured@), opt_view(*route));
    let ghost want = listed.map_values(|n: Seq<char>| view_item(n));
    let mut names: Vec<String> = Vec::new();
    let mut i: usize = 0;
    while i < configured.len()
        invariant
            i <= configured.len(),
            views(names@) == views(configured@).take(i as int),
        decreases configured.len() - i,
    {
        let ghost before = views(names@);
        names.push(configured[i].clone());
        assert(views(names@) =~= before.push(views(configured@)[i as int]));
        assert(views(configured@).take(i + 1) =~= views(configured@).take(i as int).push(
            views(configured@)[i as int],
        ));
        i += 1;
    }
    assert(views(configured@).take(configured.len() as int) =~= views(configured@));
    match route {
        Some(v) => {
            if !contains_name(&names, v) {
                let ghost before = views(names@);
                names.push(v.clone());
                assert(views(names@) =~= before.push(v@));
            }
        },
        None => {},
    }
    assert(views(names@) == listed);
    let mut out: Vec<NavItem> = Vec::new();
    let mut j: usize = 0;
    while j < names.len()
        invariant
            j <= names.len(),
            views(names@) == listed,
            want == listed.map_values(|n: Seq<char>| view_item(n)),
            items_view(out@) == want.take(j as int),
        decreases names.len() - j,
    {
        let ghost before = items_view(out@);
        let it = NavItem {
            key: prefixed("view-", &names[j]),
            label: names[j].clone(),
            icon: owned("fa fa-plus-square-o"),
        };
        assert(names@[j as int]@ == listed[j as int]);
        out.push(it);
        assert(items_view(out@) =~= before.push(want[j as int]));
        assert(want.take(j + 1) =~= want.take(j as int).push(want[j as int]));
        j += 1;
    }
    assert(want.take(names.len() as int) =~= want);
    out
}

fn push_section(out: &mut Vec<NavSection>, s: NavSection)
    ensures
        sections_view(final(out)@) == sections_view(old(out)@).push(
            (item_view(s.item), items_view(s.children@)),
        ),
{
    let ghost before = sections_view(out@);
    let ghost sv = (item_view(s.item), items_view(s.children@));
    out.push(s);
    assert(sections_view(out@) =~= before.push(sv));
}

fn push_item(out: &mut Vec<NavItem>, key: &str, label: &str, icon: &str)
    ensures
        items_view(final(out)@) == items_view(old(out)@).push((key@, label@, icon@)),
{
    let ghost before = items_view(out@);
    out.push(item(key, label, icon));
    assert(items_view(out@) =~= before.push((key@, label@, icon@)));
}

/// The console menu (see `navigation_spec`); `route` is the saved view the
/// current route names, if any (see `route_view`).
pub fn navigation(
    pve: &Vec<String>,
    pbs: &Vec<String>,
    remotes_loading: bool,
    configured_views: &Vec<String>,
    route: &Option<String>,
    can_audit: bool,
) -> (r: Vec<NavSection>)
    ensures
        sections_view(r@) == navigation_spec(
            views(pve@),
            views(pbs@),
            remotes_loading,
            views(configured_views@),
            opt_view(*route),
            can_audit,
        ),
{
    let mut out: Vec<NavSection> = Vec::new();
    assert(sections_view(out@) =~= Seq::<(ItemView, Seq<ItemView>)>::empty());
    push_section(&mut out, leaf_section("dashboard", "Dashboard", "fa fa-th-large"));
    push_section(&mut out, leaf_section("guests", "Inventory", "fa fa-cubes"));
    let mut infra: Vec<NavItem> = Vec::new();
    assert(items_view(infra@) =~= Seq::<ItemView>::empty());
    push_item(&mut infra, "remotes", "All remotes", "fa fa-server");
    let pve_items = remote_items(pve, "fa fa-server");
    let ghost before_infra = items_view(infra@);
    let mut rest = pve_items;
    infra.append(&mut rest);
    assert(items_view(infra@) =~= before_infra + views(pve@).map_values(
        |id: Seq<char>| remote_item(id, "fa fa-server"@),
    ));
    let icon = if remotes_loading {
        "fa fa-refresh fa-spin"
    } else {
        "fa fa-server"
    };
    push_section(&mut out, section("infrastructure", "Infrastructure", icon, infra));
    if pbs.len() > 0 {
        let pbs_items = remote_items(pbs, "fa fa-database");
        push_section(&mut out, section("backups", "Backups", "fa fa-database", pbs_items));
    }
    let mut net: Vec<NavItem> = Vec::new();
    assert(items_view(net@) =~= Seq::<ItemView>::empty());
    push_item(&mut net, "sdn", "SDN", "fa fa-sitemap");
    push_item(&mut net, "evpn", "EVPN", "fa fa-share-alt");
    push_section(&mut out, section("networking", "Networking", "fa fa-sitemap", net));
    push_section(&mut out, leaf_section("ceph", "Storage", "fa fa-database"));
    let vitems = view_items(configured_views, route);
    push_section(&mut out, section("views", "Views", "fa fa-columns", vitems));
    let mut settings: Vec<NavItem> = Vec::new();
    assert(items_view(settings@) =~= Seq::<ItemView>::empty());
    push_item(&mut settings, "configuration", "System", "fa fa-sliders");
    push_item(&mut settings, "access", "Access Control", "fa fa-key");
    push_item(&mut settings, "certificates", "Certificates", "fa fa-certificate");
    push_item(&mut settings, "subscription", "Subscription", "fa fa-support");
    push_item(&mut settings, "subscription-registry", "Subscription Registry", "fa fa-id-card");
    if can_audit {
        push_item(&mut settings, "notes", "Notes", "fa fa-sticky-note-o");
    }
    push_item(&mut settings, "administration", "Administration", "fa fa-wrench");
    push_item(&mut settings, "shell", "Shell", "fa fa-terminal");
    assert(items_view(settings@) =~= settings_items(can_audit));
    push_section(&mut out, section("settings", "Settings", "fa fa-cog", settings));
    proof {
        let got = sections_view(out@);
        let want = navigation_spec(
            views(pve@),
            views(pbs@),
            remotes_loading,
            views(configured_views@),
            opt_view(*route),
            can_audit,
        );
        assert(got.len() == want.len());
        assert forall|k: int| 0 <= k < got.len() implies got[k] =~~= want[k] by {}
        assert(got =~~= want);
    }
    out
}

/// The engine line of the top bar.
pub open spec fn engine_label_spec(version: Option<(Seq<char>, Seq<char>)>) -> Seq<char> {
    match version {
        Some((v, r)) => "PDM "@ + v + "."@ + r,
        None => "PDM engine"@,
    }
}

pub open spec fn pair_view(o: Option<(String, String)>) -> Option<(Seq<char>, Seq<char>)> {
    match o {
        Some((a, b)) => Some((a@, b@)),
        None => None,
    }
}

/// The engine line from the reported version and release, if known.
pub fn engine_label(version: Option<(String, String)>) -> (r: String)
    ensures
        r@ == engine_label_spec(pair_view(version)),
{
    match version {
        Some((v, rel)) => {
            let mut s = owned("PDM ");
            push_all(&mut s, v.as_str());
            push_all(&mut s, ".");
            push_all(&mut s, rel.as_str());
            s
        },
        None => owned("PDM engine"),
    }
}

/// Where the task list of a task lives: on its remote when the task id names
/// one (type and remote), locally otherwise.
pub open spec fn task_base_url_spec(remote: Option<(Seq<char>, Seq<char>)>) -> Seq<char> {
    match remote {
        Some((ty, name)) => "/"@ + ty + "/remotes/"@ + name + "/tasks"@,
        None => "/nodes/localhost/tasks"@,
    }
}

pub fn task_base_url(remote: Option<(String, String)>) -> (r: String)
    ensures
        r@ == task_base_url_spec(pair_view(remote)),
{
    match remote {
        Some((ty, name)) => {
            let mut s = owned("/");
            push_all(&mut s, ty.as_str());
            push_all(&mut s, "/remotes/");
            push_all(&mut s, name.as_str());
            push_all(&mut s, "/tasks");
            s
        },
        None => owned("/nodes/localhost/tasks"),
    }
}

} // verus!
