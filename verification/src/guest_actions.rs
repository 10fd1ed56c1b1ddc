//! Which guest actions the guest list offers and enables, and the tallies of
//! the dashboard.
use vstd::prelude::*;

use crate::text::{decimal, owned, push_all, push_decimal, str_eq};

verus! {

/// A power action on a guest.
#[derive(Debug, Clone, Copy, PartialEq, Eq, Structural)]
pub enum GuestAction {
    Start,
    Shutdown,
    Resume,
}

/// A QEMU guest in one of these states can be resumed.
pub open spec fn resumable(is_qemu: bool, status: Seq<char>) -> bool {
    is_qemu && (status == "paused"@ || status == "prelaunch"@ || status == "suspended"@)
}

fn is_resumable(is_qemu: bool, status: &str) -> (r: bool)
    ensures
        r == resumable(is_qemu, status@),
{
    is_qemu && (str_eq(status, "paused") || str_eq(status, "prelaunch") || str_eq(status, "suspended"))
}

/// The prominent action of a guest row: none for a template; resume a
/// resumable guest, shut down a live one, start any other.
pub open spec fn primary_action_spec(template: bool, is_qemu: bool, status: Seq<char>, live: bool) -> Option<
    GuestAction,
> {
    if template {
        None
    } else if resumable(is_qemu, status) {
        Some(GuestAction::Resume)
    } else if live {
        Some(GuestAction::Shutdown)
    } else {
        Some(GuestAction::Start)
    }
}

pub fn primary_action(template: bool, is_qemu: bool, status: &str, live: bool) -> (r: Option<
    GuestAction,
>)
    ensures
        r == primary_action_spec(template, is_qemu, status@, live),
{
    if template {
        None
    } else if is_resumable(is_qemu, status) {
        Some(GuestAction::Resume)
    } else if live {
        Some(GuestAction::Shutdown)
    } else {
        Some(GuestAction::Start)
    }
}

/// The entries of a guest row's menu that can be disabled.
pub struct GuestMenu {
    pub migrate_disabled: bool,
    pub shutdown_disabled: bool,
    /// Resume for a resumable guest, Start otherwise.
    pub power: GuestAction,
    pub power_disabled: bool,
}

/// A template cannot be migrated, shut down or started; a guest that is not
/// live cannot be shut down; a live guest cannot be started (but a resumable
/// one can be resumed).
pub open spec fn menu_spec(m: GuestMenu, template: bool, is_qemu: bool, status: Seq<char>, live: bool) -> bool {
    &&& m.migrate_disabled == template
    &&& m.shutdown_disabled == (template || !live)
    &&& if resumable(is_qemu, status) {
        m.power == GuestAction::Resume && m.power_disabled == template
    } else {
        m.power == GuestAction::Start && m.power_disabled == (template || live)
    }
}

pub fn guest_menu(template: bool, is_qemu: bool, status: &str, live: bool) -> (r: GuestMenu)
    ensures
        menu_spec(r, template, is_qemu, status@, live),
{
    let resume = is_resumable(is_qemu, status);
    GuestMenu {
        migrate_disabled: template,
        shutdown_disabled: template || !live,
        power: if resume {
            GuestAction::Resume
        } else {
            GuestAction::Start
        },
        power_disabled: if resume {
            template
        } else {
            template || live
        },
    }
}

/// The buttons of the classic guest row; `None` where a button is not shown.
pub struct ClassicButtons {
    /// Shown unless a template; disabled when the guest is not live.
    pub shutdown_disabled: Option<bool>,
    /// Shown unless a template: resume or start, and whether it is disabled.
    pub power: Option<(GuestAction, bool)>,
    /// Migration is offered unless a template.
    pub migrate: bool,
}

pub open spec fn classic_spec(b: ClassicButtons, template: bool, is_qemu: bool, status: Seq<char>, live: bool) -> bool {
    let resume = resumable(is_qemu, status);
    &&& b.shutdown_disabled == if template {
        None
    } else {
        Some(!live)
    }
    &&& b.power == if template {
        None
    } else if resume {
        Some((GuestAction::Resume, false))
    } else {
        Some((GuestAction::Start, live))
    }
    &&& b.migrate == !template
}

pub fn classic_buttons(template: bool, is_qemu: bool, status: &str, live: bool) -> (r: ClassicButtons)
    ensures
        classic_spec(r, template, is_qemu, status@, live),
{
    let resume = is_resumable(is_qemu, status);
    ClassicButtons {
        shutdown_disabled: if template {
            None
        } else {
            Some(!live)
        },
        power: if template {
            None
        } else if resume {
            Some((GuestAction::Resume, false))
        } else {
            Some((GuestAction::Start, live))
        },
        migrate: !template,
    }
}

/// Power actions are never offered to a template, and a live guest is never
/// offered a start: an action that is offered and enabled fits the guest.
pub proof fn lemma_offered_actions_fit(template: bool, is_qemu: bool, status: Seq<char>, live: bool, m: GuestMenu)
    requires
        menu_spec(m, template, is_qemu, status, live),
    ensures
        template ==> primary_action_spec(template, is_qemu, status, live) is None && m.shutdown_disabled
            && m.power_disabled && m.migrate_disabled,
        primary_action_spec(template, is_qemu, status, live) == Some(GuestAction::Start) ==> !live,
        primary_action_spec(template, is_qemu, status, live) == Some(GuestAction::Shutdown) ==> live,
        !m.shutdown_disabled ==> live,
        (m.power == GuestAction::Start && !m.power_disabled) ==> !live,
{
}

// ---------------------------------------------------------------------------
// Dashboard tallies
// ---------------------------------------------------------------------------
/// The counts the dashboard is built from.
pub struct ResourceCounts {
    pub remotes: u64,
    pub failed_remotes: u64,
    pub pve_online: u64,
    pub pve_offline: u64,
    pub pve_unknown: u64,
    pub qemu_running: u64,
    pub qemu_stopped: u64,
    pub qemu_template: u64,
    pub qemu_unknown: u64,
    pub lxc_running: u64,
    pub lxc_stopped: u64,
    pub lxc_template: u64,
    pub lxc_unknown: u64,
    pub pbs_online: u64,
    pub pbs_offline: u64,
    pub pbs_unknown: u64,
    pub datastores_online: u64,
    pub datastores_maintenance: Option<u64>,
    pub datastores_high_usage: Option<u64>,
    pub datastores_unknown: Option<u64>,
}

pub open spec fn or_zero(o: Option<u64>) -> int {
    match o {
        Some(n) => n as int,
        None => 0,
    }
}

/// The dashboard totals.
pub struct DashboardTotals {
    pub pve_nodes: u64,
    pub qemu: u64,
    pub lxc: u64,
    pub pbs_nodes: u64,
    pub datastores: u64,
    /// Everything that needs attention: failed remotes, nodes offline or
    /// unknown, datastores in maintenance, highly used or unknown.
    pub attention: u64,
    pub pve_issues: u64,
    pub pbs_issues: u64,
    pub datastore_issues: u64,
    pub datastore_warnings: u64,
    pub remotes_available: u64,
}

pub open spec fn attention_spec(c: ResourceCounts) -> int {
    c.failed_remotes + c.pve_offline + c.pve_unknown + c.pbs_offline + c.pbs_unknown + or_zero(
        c.datastores_maintenance,
    ) + or_zero(c.datastores_high_usage) + or_zero(c.datastores_unknown)
}

/// The totals fit: no sum the dashboard shows exceeds `u64`.
pub open spec fn counts_fit(c: ResourceCounts) -> bool {
    &&& c.pve_online + c.pve_offline + c.pve_unknown <= u64::MAX
    &&& c.qemu_running + c.qemu_stopped + c.qemu_template + c.qemu_unknown <= u64::MAX
    &&& c.lxc_running + c.lxc_stopped + c.lxc_template + c.lxc_unknown <= u64::MAX
    &&& c.pbs_online + c.pbs_offline + c.pbs_unknown <= u64::MAX
    &&& c.datastores_online + or_zero(c.datastores_maintenance) + or_zero(c.datastores_unknown)
        <= u64::MAX
    &&& attention_spec(c) <= u64::MAX
}

pub open spec fn totals_spec(t: DashboardTotals, c: ResourceCounts) -> bool {
    &&& t.pve_nodes == c.pve_online + c.pve_offline + c.pve_unknown
    &&& t.qemu == c.qemu_running + c.qemu_stopped + c.qemu_template + c.qemu_unknown
    &&& t.lxc == c.lxc_running + c.lxc_stopped + c.lxc_template + c.lxc_unknown
    &&& t.pbs_nodes == c.pbs_online + c.pbs_offline + c.pbs_unknown
    &&& t.datastores == c.datastores_online + or_zero(c.datastores_maintenance) + or_zero(
        c.datastores_unknown,
    )
    &&& t.attention == attention_spec(c)
    &&& t.pve_issues == c.pve_offline + c.pve_unknown
    &&& t.pbs_issues == c.pbs_offline + c.pbs_unknown
    &&& t.datastore_issues == or_zero(c.datastores_maintenance) + or_zero(c.datastores_unknown)
    &&& t.datastore_warnings == or_zero(c.datastores_maintenance) + or_zero(c.datastores_high_usage)
        + or_zero(c.datastores_unknown)
    &&& t.remotes_available == if c.remotes >= c.failed_remotes {
        c.remotes - c.failed_remotes
    } else {
        0
    }
}

fn zero_if_none(o: Option<u64>) -> (r: u64)
    ensures
        r == or_zero(o),
{
    match o {
        Some(n) => n,
        None => 0,
    }
}

/// The dashboard totals of the resource counts (see `totals_spec`).
pub fn dashboard_totals(c: &ResourceCounts) -> (r: DashboardTotals)
    requires
        counts_fit(*c),
    ensures
        totals_spec(r, *c),
{
    let maint = zero_if_none(c.datastores_maintenance);
    let high = zero_if_none(c.datastores_high_usage);
    let unknown = zero_if_none(c.datastores_unknown);
    DashboardTotals {
        pve_nodes: c.pve_online + c.pve_offline + c.pve_unknown,
        qemu: c.qemu_running + c.qemu_stopped + c.qemu_template + c.qemu_unknown,
        lxc: c.lxc_running + c.lxc_stopped + c.lxc_template + c.lxc_unknown,
        pbs_nodes: c.pbs_online + c.pbs_offline + c.pbs_unknown,
        datastores: c.datastores_online + maint + unknown,
        attention: c.failed_remotes + c.pve_offline + c.pve_unknown + c.pbs_offline + c.pbs_unknown
            + maint + high + unknown,
        pve_issues: c.pve_offline + c.pve_unknown,
        pbs_issues: c.pbs_offline + c.pbs_unknown,
        datastore_issues: maint + unknown,
        datastore_warnings: maint + high + unknown,
        remotes_available: if c.remotes >= c.failed_remotes {
            c.remotes - c.failed_remotes
        } else {
            0
        },
    }
}

/// The issue line of a health row.
pub open spec fn issues_text_spec(issues: u64) -> Seq<char> {
    if issues == 0 {
        "No issues"@
    } else {
        decimal(issues as nat) + " issues"@
    }
}

pub fn issues_text(issues: u64) -> (r: String)
    ensures
        r@ == issues_text_spec(issues),
{
    if issues == 0 {
        owned("No issues")
    } else {
        let mut s = String::new();
        push_decimal(&mut s, issues);
        push_all(&mut s, " issues");
        s
    }
}

/// The line of the attention card: failed remotes, and the other issues.
pub open spec fn attention_text_spec(attention: u64, failed_remotes: u64) -> Seq<char> {
    decimal(failed_remotes as nat) + " failed remotes · "@ + decimal(
        (if attention >= failed_remotes {
            attention - failed_remotes
        } else {
            0
        }) as nat,
    ) + " infrastructure issues"@
}

pub fn attention_text(attention: u64, failed_remotes: u64) -> (r: String)
    ensures
        r@ == attention_text_spec(attention, failed_remotes),
{
    let mut s = String::new();
    push_decimal(&mut s, failed_remotes);
    push_all(&mut s, " failed remotes · ");
    let other = if attention >= failed_remotes {
        attention - failed_remotes
    } else {
        0
    };
    push_decimal(&mut s, other);
    push_all(&mut s, " infrastructure issues");
    s
}

/// The guest summary of the inventory page.
pub struct GuestSummary {
    pub vms: u64,
    pub containers: u64,
    pub total: u64,
    pub running: u64,
    pub stopped: u64,
    /// Running guests in whole percent of all guests (0 without guests).
    pub running_percent: u64,
}

pub open spec fn summary_fits(c: ResourceCounts) -> bool {
    &&& c.qemu_running + c.qemu_stopped + c.qemu_template + c.qemu_unknown + c.lxc_running
        + c.lxc_stopped + c.lxc_template + c.lxc_unknown <= u64::MAX
    &&& (c.qemu_running + c.lxc_running) * 100 <= u64::MAX
    &&& c.qemu_stopped + c.lxc_stopped <= u64::MAX
}

pub fn guest_summary(c: &ResourceCounts) -> (r: GuestSummary)
    requires
        summary_fits(*c),
    ensures
        r.vms == c.qemu_running + c.qemu_stopped + c.qemu_template + c.qemu_unknown,
        r.containers == c.lxc_running + c.lxc_stopped + c.lxc_template + c.lxc_unknown,
        r.total == r.vms + r.containers,
        r.running == c.qemu_running + c.lxc_running,
        r.stopped == c.qemu_stopped + c.lxc_stopped,
        r.running_percent == if r.total == 0 {
            0
        } else {
            (r.running * 100) / (r.total as int)
        },
{
    let vms = c.qemu_running + c.qemu_stopped + c.qemu_template + c.qemu_unknown;
    let containers = c.lxc_running + c.lxc_stopped + c.lxc_template + c.lxc_unknown;
    let total = vms + containers;
    let running = c.qemu_running + c.lxc_running;
    let stopped = c.qemu_stopped + c.lxc_stopped;
    let running_percent = if total == 0 {
        0
    } else {
        running * 100 / total
    };
    GuestSummary { vms, containers, total, running, stopped, running_percent }
}

// ---------------------------------------------------------------------------
// Running an action
// ---------------------------------------------------------------------------
/// The two kinds of guest.
#[derive(Debug, Clone, Copy, PartialEq, Eq, Structural)]
pub enum GuestKind {
    Qemu,
    Lxc,
}

/// The remote API call that carries out an action.
#[derive(Debug, Clone, Copy, PartialEq, Eq, Structural)]
pub enum GuestCall {
    QemuStart,
    QemuShutdown,
    QemuResume,
    LxcStart,
    LxcShutdown,
}

/// The call for an action on a guest kind; containers cannot be resumed, so
/// that action calls nothing.
pub open spec fn guest_call_spec(kind: GuestKind, action: GuestAction) -> Option<GuestCall> {
    match (kind, action) {
        (GuestKind::Qemu, GuestAction::Start) => Some(GuestCall::QemuStart),
        (GuestKind::Qemu, GuestAction::Shutdown) => Some(GuestCall::QemuShutdown),
        (GuestKind::Qemu, GuestAction::Resume) => Some(GuestCall::QemuResume),
        (GuestKind::Lxc, GuestAction::Start) => Some(GuestCall::LxcStart),
        (GuestKind::Lxc, GuestAction::Shutdown) => Some(GuestCall::LxcShutdown),
        (GuestKind::Lxc, GuestAction::Resume) => None,
    }
}

pub fn guest_call(kind: GuestKind, action: GuestAction) -> (r: Option<GuestCall>)
    ensures
        r == guest_call_spec(kind, action),
{
    match (kind, action) {
        (GuestKind::Qemu, GuestAction::Start) => Some(GuestCall::QemuStart),
        (GuestKind::Qemu, GuestAction::Shutdown) => Some(GuestCall::QemuShutdown),
        (GuestKind::Qemu, GuestAction::Resume) => Some(GuestCall::QemuResume),
        (GuestKind::Lxc, GuestAction::Start) => Some(GuestCall::LxcStart),
        (GuestKind::Lxc, GuestAction::Shutdown) => Some(GuestCall::LxcShutdown),
        (GuestKind::Lxc, GuestAction::Resume) => None,
    }
}

/// The task list a started guest action is followed on: that of the remote
/// the task runs on.
pub fn guest_task_url(remote: &str) -> (r: String)
    ensures
        r@ == "/pve/remotes/"@ + remote@ + "/tasks"@,
{
    let mut s = owned("/pve/remotes/");
    push_all(&mut s, remote);
    push_all(&mut s, "/tasks");
    s
}

// ---------------------------------------------------------------------------
// Loading the guest list
// ---------------------------------------------------------------------------
/// What a remote reported: whether it failed, and which of its resources are
/// guests.
pub struct RemoteGuests {
    pub failed: bool,
    pub is_guest: Vec<bool>,
}

/// The guests of all remotes as (remote, resource) positions, in order.
pub open spec fn guest_positions_spec(remotes: Seq<RemoteGuests>) -> Seq<(usize, usize)>
    decreases remotes.len(),
{
    if remotes.len() == 0 {
        Seq::empty()
    } else {
        let k = (remotes.len() - 1) as usize;
        guest_positions_spec(remotes.drop_last()) + guests_of(k, remotes.last().is_guest@)
    }
}

/// The guest positions of remote `k`.
pub open spec fn guests_of(k: usize, is_guest: Seq<bool>) -> Seq<(usize, usize)>
    decreases is_guest.len(),
{
    if is_guest.len() == 0 {
        Seq::empty()
    } else {
        let j = (is_guest.len() - 1) as usize;
        guests_of(k, is_guest.drop_last()) + if is_guest.last() {
            seq![(k, j)]
        } else {
            Seq::empty()
        }
    }
}

/// The positions of the remotes that failed, in order.
pub open spec fn failed_spec(remotes: Seq<RemoteGuests>) -> Seq<usize>
    decreases remotes.len(),
{
    if remotes.len() == 0 {
        Seq::empty()
    } else {
        let k = (remotes.len() - 1) as usize;
        failed_spec(remotes.drop_last()) + if remotes.last().failed {
            seq![k]
        } else {
            Seq::empty()
        }
    }
}

/// The guests of a load, by position, and the remotes that failed.
pub fn load_guests(remotes: &Vec<RemoteGuests>) -> (r: (Vec<(usize, usize)>, Vec<usize>))
    ensures
        r.0@ == guest_positions_spec(remotes@),
        r.1@ == failed_spec(remotes@),
{
    let mut guests: Vec<(usize, usize)> = Vec::new();
    let mut failed: Vec<usize> = Vec::new();
    let mut k: usize = 0;
    assert(remotes@.take(0) =~= Seq::<RemoteGuests>::empty());
    while k < remotes.len()
        invariant
            k <= remotes.len(),
            guests@ == guest_positions_spec(remotes@.take(k as int)),
            failed@ == failed_spec(remotes@.take(k as int)),
        decreases remotes.len() - k,
    {
        assert(remotes@.take(k + 1).drop_last() =~= remotes@.take(k as int));
        assert(remotes@.take(k + 1).last() == remotes@[k as int]);
        if remotes[k].failed {
            failed.push(k);
        }
        let flags = &remotes[k].is_guest;
        let ghost before = guests@;
        let mut j: usize = 0;
        assert(flags@.take(0) =~= Seq::<bool>::empty());
        assert(guests@ =~= before + guests_of(k, flags@.take(0)));
        while j < flags.len()
            invariant
                j <= flags.len(),
                guests@ == before + guests_of(k, flags@.take(j as int)),
            decreases flags.len() - j,
        {
            assert(flags@.take(j + 1).drop_last() =~= flags@.take(j as int));
            assert(flags@.take(j + 1).last() == flags@[j as int]);
            if flags[j] {
                guests.push((k, j));
            }
            assert(guests@ =~= before + guests_of(k, flags@.take(j + 1)));
            j += 1;
        }
        assert(flags@.take(flags.len() as int) =~= flags@);
        k += 1;
        assert(failed@ =~= failed_spec(remotes@.take(k as int)));
    }
    assert(remotes@.take(remotes.len() as int) =~= remotes@);
    (guests, failed)
}

} // verus!
