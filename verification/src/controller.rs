//! The runlevel controller: what a change of runlevel stops and starts, and
//! what becomes of an entry when its process is spawned, exits and is
//! cleaned up.
//!
//! The controller decides; it neither forks nor signals. A transition yields
//! directives that the main loop carries out in order, and the main loop
//! reports back what came of them.

use vstd::prelude::*;
use crate::action::InitAction;
use crate::child::{Child, ChildView, NO_PROCESS};
use crate::failsafe::{respawn_decision, respawn_entry, respawn_update, RespawnDecision};
use crate::flags::{lemma_named_bits_distinct, lemma_with, ChildFlags};
use crate::runlevel::{
    is_demand_level, is_terminal_level, is_valid_runlevel, normalize_runlevel, spec_is_demand_level,
    spec_is_terminal_level, spec_is_valid_runlevel, spec_normalize_runlevel,
};
use crate::state::{same_globals, InitState};
use crate::table::{
    first_with_pid, has_pid, ids_unique, status_of, with_status, ProcessTable, Status,
};

verus! {

/// The pid that stands for a process that could not be spawned.
pub const FAILED_PID: i32 = -1;

/// The exit status of a process that could not be spawned: exit code 1.
pub const SPAWN_FAILED_STATUS: i32 = 256;

/// What the main loop is to do for a transition.
#[derive(Clone, Copy, Debug, PartialEq, Eq, Structural)]
pub enum Directive {
    /// Send the terminate signal to the process `pid`, and the kill signal
    /// if it is still there after `grace` seconds.
    Terminate { pid: i32, grace: u64 },
    /// Spawn the entry at `slot` of the table.
    Spawn { slot: usize },
    /// Spawn the entry at `slot` and wait until its process has exited
    /// before anything else is done.
    SpawnAndWait { slot: usize },
}

/// Why a transition was refused.
#[derive(Clone, Copy, Debug, PartialEq, Eq, Structural)]
pub enum TransitionError {
    /// The target names no runlevel.
    InvalidTarget,
    /// The target is the current runlevel and no reload is pending.
    NoChange,
}

/// The power action at the end of a terminal level.
#[derive(Clone, Copy, Debug, PartialEq, Eq, Structural)]
pub enum PowerAction {
    Halt,
    Reboot,
}

/// Whether the runlevel stops the processes of entries with this action.
pub open spec fn in_stop_class(action: InitAction) -> bool {
    action == InitAction::Respawn || action == InitAction::Wait || action == InitAction::Once
        || action == InitAction::Boot || action == InitAction::BootWait
}

/// Whether the controller waits for the process of an entry with this
/// action.
pub open spec fn blocks(action: InitAction) -> bool {
    action == InitAction::Wait || action == InitAction::BootWait || action == InitAction::SysInit
}

/// Whether an entry with this action is spawned once and not again.
pub open spec fn runs_once(action: InitAction) -> bool {
    action == InitAction::Once || action == InitAction::Boot || action == InitAction::BootWait
        || action == InitAction::SysInit
}

/// Whether the failsafe watches the respawns of entries with this action.
pub open spec fn uses_failsafe(action: InitAction) -> bool {
    action == InitAction::Respawn || action == InitAction::OnDemand
}

/// Whether the stop pass for `level` ends the process of `e`: the entry is
/// running, and either the level is terminal, or the entry is of the stop
/// class and does not run in `level`.
pub open spec fn must_stop(e: ChildView, level: char, terminal: bool) -> bool {
    e.is_running() && (terminal || (in_stop_class(e.action) && !e.runs_at(level)))
}

/// The directives of the stop pass, in table order.
pub open spec fn stop_directives(
    table: Seq<ChildView>,
    level: char,
    terminal: bool,
    grace: u64,
) -> Seq<
    Directive,
>
    decreases table.len(),
{
    if table.len() == 0 {
        Seq::<Directive>::empty()
    } else if must_stop(table.last(), level, terminal) {
        stop_directives(table.drop_last(), level, terminal, grace).push(
            Directive::Terminate { pid: table.last().pid, grace },
        )
    } else {
        stop_directives(table.drop_last(), level, terminal, grace)
    }
}

/// Whether the entry has no process, neither running nor waiting to be
/// cleaned up.
pub open spec fn idle(e: ChildView) -> bool {
    e.pid == NO_PROCESS && !e.is_running() && !e.is_zombie()
}

/// The entry after a demand for `level`: an on-demand entry that runs in an
/// on-demand level gets the demand flag.
pub open spec fn demanded(e: ChildView, level: char) -> ChildView {
    if spec_is_demand_level(level) && e.action == InitAction::OnDemand && e.runs_at(level) {
        e.with_flags(e.flags.with(ChildFlags::DEMAND))
    } else {
        e
    }
}

/// Whether the start pass for `level` looks at `e` at all: the entry runs
/// in `level`, has no process, was named by the last reload, and its action
/// lets it start. Entries that run once start only if they were never
/// spawned; on-demand entries only with the demand flag; `off` and the
/// entries that answer signals never.
pub open spec fn wants_start(e: ChildView, level: char) -> bool {
    &&& e.runs_at(level)
    &&& idle(e)
    &&& !e.flags.has(ChildFlags::KILLME)
    &&& if runs_once(e.action) {
        !e.flags.has(ChildFlags::XECUTED)
    } else if e.action == InitAction::OnDemand {
        e.flags.has(ChildFlags::DEMAND)
    } else {
        e.action == InitAction::Wait || e.action == InitAction::Respawn
    }
}

/// The entry after the start pass: demanded if the level demands it, and
/// with its respawn accounted for if the failsafe watches it.
pub open spec fn started(e: ChildView, level: char, now: u64) -> ChildView {
    let d = demanded(e, level);
    if wants_start(d, level) && uses_failsafe(d.action) {
        respawn_entry(d, now)
    } else {
        d
    }
}

/// What the start pass directs for the entry `e` at `slot`, if anything: an
/// entry that wants to start is spawned, unless the failsafe refuses it.
pub open spec fn start_choice(e: ChildView, level: char, now: u64, slot: int) -> Option<
    Directive,
> {
    let d = demanded(e, level);
    if !wants_start(d, level) {
        None
    } else if uses_failsafe(d.action) {
        if respawn_decision(d, now) == RespawnDecision::Spawn {
            Some(Directive::Spawn { slot: slot as usize })
        } else {
            None
        }
    } else if blocks(d.action) {
        Some(Directive::SpawnAndWait { slot: slot as usize })
    } else {
        Some(Directive::Spawn { slot: slot as usize })
    }
}

/// The table after the start pass.
pub open spec fn start_table(table: Seq<ChildView>, level: char, now: u64) -> Seq<ChildView> {
    Seq::new(table.len(), |i: int| started(table[i], level, now))
}

/// The directives of the start pass, in table order.
pub open spec fn start_directives(table: Seq<ChildView>, level: char, now: u64) -> Seq<Directive>
    decreases table.len(),
{
    if table.len() == 0 {
        Seq::<Directive>::empty()
    } else {
        match start_choice(table.last(), level, now, table.len() - 1) {
            Some(d) => start_directives(table.drop_last(), level, now).push(d),
            None => start_directives(table.drop_last(), level, now),
        }
    }
}

/// Whether a transition to `level` changes nothing: the level is the
/// current one, no reload is pending, and the level is no demand.
pub open spec fn is_no_change(current: char, reload: bool, level: char) -> bool {
    level == current && !reload && !spec_is_demand_level(level)
}

/// The table after a transition to `level`: what the start pass makes of
/// it. The stop pass changes no entry, and a terminal level has no start
/// pass.
pub open spec fn transition_table(table: Seq<ChildView>, level: char, now: u64) -> Seq<ChildView> {
    if spec_is_terminal_level(level) {
        table
    } else {
        start_table(table, level, now)
    }
}

/// The directives of a transition to `level`: those of the stop pass,
/// unless the level is a demand, then those of the start pass, unless the
/// level is terminal.
pub open spec fn transition_directives(
    table: Seq<ChildView>,
    level: char,
    now: u64,
    grace: u64,
) -> Seq<
    Directive,
> {
    if spec_is_demand_level(level) {
        start_directives(table, level, now)
    } else if spec_is_terminal_level(level) {
        stop_directives(table, level, true, grace)
    } else {
        stop_directives(table, level, false, grace) + start_directives(table, level, now)
    }
}

/// Whether the process of `e` is to end because the last reload did not
/// name the entry.
pub open spec fn must_retire(e: ChildView) -> bool {
    e.is_running() && e.flags.has(ChildFlags::KILLME)
}

/// The directives that end the processes of the entries that the last
/// reload did not name, in table order.
pub open spec fn retire_directives(table: Seq<ChildView>, grace: u64) -> Seq<Directive>
    decreases table.len(),
{
    if table.len() == 0 {
        Seq::<Directive>::empty()
    } else if must_retire(table.last()) {
        retire_directives(table.drop_last(), grace).push(
            Directive::Terminate { pid: table.last().pid, grace },
        )
    } else {
        retire_directives(table.drop_last(), grace)
    }
}

/// Whether the stop pass ends the process of `child`.
fn needs_stop(child: &Child, level: char, terminal: bool) -> (res: bool)
    ensures
        res == must_stop(child@, level, terminal),
{
    if !child.is_running() {
        return false;
    }
    if terminal {
        return true;
    }
    let in_class = match child.action {
        InitAction::Respawn => true,
        InitAction::Wait => true,
        InitAction::Once => true,
        InitAction::Boot => true,
        InitAction::BootWait => true,
        _ => false,
    };
    in_class && !child.should_run_at_level(level)
}

/// The status of `child`.
fn status(child: &Child) -> (res: Status)
    ensures
        res == status_of(child@),
{
    Status {
        flags: child.flags,
        exstat: child.exstat,
        pid: child.pid,
        tm: child.tm,
        count: child.count,
    }
}

/// The stop pass: directs the termination of every entry whose process is
/// to end. The table stays as it is.
pub fn stop_pass(table: &ProcessTable, level: char, terminal: bool, grace: u64) -> (res: Vec<
    Directive,
>)
    ensures
        res@ == stop_directives(table@, level, terminal, grace),
{
    let mut out: Vec<Directive> = Vec::new();
    let n = table.len();
    let mut i: usize = 0;
    while i < n
        invariant
            i <= n,
            n == table@.len(),
            out@ == stop_directives(table@.take(i as int), level, terminal, grace),
        decreases n - i,
    {
        proof {
            assert(table@.take(i + 1).drop_last() =~= table@.take(i as int));
            assert(table@.take(i + 1).last() == table@[i as int]);
        }
        match table.get(i) {
            Some(child) => {
                if needs_stop(child, level, terminal) {
                    out.push(Directive::Terminate { pid: child.pid, grace });
                }
            },
            None => {},
        }
        i += 1;
    }
    assert(table@.take(i as int) =~= table@);
    out
}

/// Directs the termination of every running entry that the last reload did
/// not name.
pub fn retire_pass(table: &ProcessTable, grace: u64) -> (res: Vec<Directive>)
    ensures
        res@ == retire_directives(table@, grace),
{
    let mut out: Vec<Directive> = Vec::new();
    let n = table.len();
    let mut i: usize = 0;
    while i < n
        invariant
            i <= n,
            n == table@.len(),
            out@ == retire_directives(table@.take(i as int), grace),
        decreases n - i,
    {
        proof {
            assert(table@.take(i + 1).drop_last() =~= table@.take(i as int));
            assert(table@.take(i + 1).last() == table@[i as int]);
        }
        match table.get(i) {
            Some(child) => {
                if child.is_running() && child.flags.contains(ChildFlags::KILLME) {
                    out.push(Directive::Terminate { pid: child.pid, grace });
                }
            },
            None => {},
        }
        i += 1;
    }
    assert(table@.take(i as int) =~= table@);
    out
}

/// What the start pass makes of one entry: its new status, if it changes,
/// and the directive for it, if there is one.
fn start_entry(child: &Child, level: char, now: u64, slot: usize) -> (res: (
    Option<Status>,
    Option<Directive>,
))
    ensures
        res.1 == start_choice(child@, level, now, slot as int),
        match res.0 {
            Some(next) => with_status(child@, next) == started(child@, level, now),
            None => child@ == started(child@, level, now),
        },
{
    let ghost e = child@;
    let runs = child.should_run_at_level(level);
    let mut flags = child.flags;
    let mut changed = false;
    if is_demand_level(level) && child.action == InitAction::OnDemand && runs {
        flags.insert(ChildFlags::DEMAND);
        changed = true;
    }
    let ghost d = demanded(e, level);
    assert(d == e.with_flags(flags));
    proof {
        lemma_with(e.flags, ChildFlags::DEMAND, ChildFlags::RUNNING);
        lemma_with(e.flags, ChildFlags::DEMAND, ChildFlags::ZOMBIE);
        lemma_with(e.flags, ChildFlags::DEMAND, ChildFlags::XECUTED);
        lemma_with(e.flags, ChildFlags::DEMAND, ChildFlags::KILLME);
        lemma_named_bits_distinct(ChildFlags::DEMAND, ChildFlags::KILLME);
        lemma_named_bits_distinct(ChildFlags::DEMAND, ChildFlags::RUNNING);
        lemma_named_bits_distinct(ChildFlags::DEMAND, ChildFlags::ZOMBIE);
        lemma_named_bits_distinct(ChildFlags::DEMAND, ChildFlags::XECUTED);
    }
    let is_idle = child.pid == NO_PROCESS && !flags.contains(ChildFlags::RUNNING)
        && !flags.contains(ChildFlags::ZOMBIE) && !flags.contains(ChildFlags::KILLME);
    let once = match child.action {
        InitAction::Once => true,
        InitAction::Boot => true,
        InitAction::BootWait => true,
        InitAction::SysInit => true,
        _ => false,
    };
    let allowed = if once {
        !flags.contains(ChildFlags::XECUTED)
    } else {
        match child.action {
            InitAction::OnDemand => flags.contains(ChildFlags::DEMAND),
            InitAction::Wait => true,
            InitAction::Respawn => true,
            _ => false,
        }
    };
    let wants = runs && is_idle && allowed;
    assert(wants == wants_start(d, level));
    let unchanged: Option<Status> = if changed {
        Some(
            Status {
                flags,
                exstat: child.exstat,
                pid: child.pid,
                tm: child.tm,
                count: child.count,
            },
        )
    } else {
        None
    };
    if !wants {
        return (unchanged, None);
    }
    let watched = match child.action {
        InitAction::Respawn => true,
        InitAction::OnDemand => true,
        _ => false,
    };
    if watched {
        let (new_flags, tm, count, decision) = respawn_update(flags, child.tm, child.count, now);
        assert(respawn_entry(d, now) == (ChildView { flags: new_flags, tm, count, ..d }));
        let next = Status { flags: new_flags, exstat: child.exstat, pid: child.pid, tm, count };
        let directive = match decision {
            RespawnDecision::Spawn => Some(Directive::Spawn { slot }),
            _ => None,
        };
        return (Some(next), directive);
    }
    let waits = match child.action {
        InitAction::Wait => true,
        InitAction::BootWait => true,
        InitAction::SysInit => true,
        _ => false,
    };
    if waits {
        (unchanged, Some(Directive::SpawnAndWait { slot }))
    } else {
        (unchanged, Some(Directive::Spawn { slot }))
    }
}

/// The start pass: goes through the table in order, accounts for the
/// respawns that the failsafe watches, and directs what is to be spawned.
pub fn start_pass(table: &mut ProcessTable, level: char, now: u64) -> (res: Vec<Directive>)
    ensures
        final(table)@ == start_table(old(table)@, level, now),
        res@ == start_directives(old(table)@, level, now),
        ids_unique(final(table)@),
{
    let ghost start = table@;
    let mut out: Vec<Directive> = Vec::new();
    let n = table.len();
    let mut i: usize = 0;
    while i < n
        invariant
            i <= n,
            n == start.len(),
            table@.len() == n,
            ids_unique(table@),
            forall|k: int|
                0 <= k < n ==> #[trigger] table@[k] == if k < i {
                    started(start[k], level, now)
                } else {
                    start[k]
                },
            out@ == start_directives(start.take(i as int), level, now),
        decreases n - i,
    {
        let mut update: Option<Status> = None;
        match table.get(i) {
            Some(child) => {
                let (next, directive) = start_entry(child, level, now, i);
                update = next;
                match directive {
                    Some(d) => {
                        out.push(d);
                    },
                    None => {},
                }
            },
            None => {},
        }
        proof {
            assert(start.take(i + 1).drop_last() =~= start.take(i as int));
            assert(start.take(i + 1).last() == start[i as int]);
        }
        match update {
            Some(next) => {
                table.set_status(i, next);
            },
            None => {},
        }
        i += 1;
    }
    assert(start.take(i as int) =~= start);
    assert(table@ =~= start_table(start, level, now));
    out
}

/// Changes the runlevel to `target`.
///
/// A target that names no runlevel is refused, and so is the current
/// runlevel while no reload is pending; the state then stays as it is. Else
/// the previous runlevel becomes the current one and the target, in upper
/// case, the new current one; the on-demand levels leave both alone. The
/// stop pass directs the end of every running entry of the stop class that
/// does not run in the new level, and of every running entry if the level
/// is terminal. The start pass follows, in table order, unless the level is
/// terminal.
pub fn transition(state: &mut InitState, target: char, now: u64) -> (res: Result<
    Vec<Directive>,
    TransitionError,
>)
    ensures
        match res {
            Ok(directives) => {
                let level = spec_normalize_runlevel(target);
                &&& spec_is_valid_runlevel(target)
                &&& !is_no_change(old(state).curlevel, old(state).reload, level)
                &&& directives@ == transition_directives(
                    old(state).family@,
                    level,
                    now,
                    old(state).sleep_time,
                )
                &&& final(state).family@ == transition_table(old(state).family@, level, now)
                &&& final(state).curlevel == if spec_is_demand_level(level) {
                    old(state).curlevel
                } else {
                    level
                }
                &&& final(state).prevlevel == if spec_is_demand_level(level) {
                    old(state).prevlevel
                } else {
                    old(state).curlevel
                }
                &&& same_globals(
                    *old(state),
                    InitState {
                        curlevel: old(state).curlevel,
                        prevlevel: old(state).prevlevel,
                        ..*final(state)
                    },
                )
            },
            Err(TransitionError::InvalidTarget) => !spec_is_valid_runlevel(target) && *final(state)
                == *old(state),
            Err(TransitionError::NoChange) => spec_is_valid_runlevel(target) && is_no_change(
                old(state).curlevel,
                old(state).reload,
                spec_normalize_runlevel(target),
            ) && *final(state) == *old(state),
        },
        ids_unique(final(state).family@),
{
    if !is_valid_runlevel(target) {
        let _ = state.family.len();
        return Err(TransitionError::InvalidTarget);
    }
    let level = normalize_runlevel(target);
    let demand = is_demand_level(level);
    if level == state.curlevel && !state.reload && !demand {
        let _ = state.family.len();
        return Err(TransitionError::NoChange);
    }
    if demand {
        let directives = start_pass(&mut state.family, level, now);
        return Ok(directives);
    }
    state.prevlevel = state.curlevel;
    state.curlevel = level;
    if is_terminal_level(level) {
        let directives = stop_pass(&state.family, level, true, state.sleep_time);
        let _ = state.family.len();
        return Ok(directives);
    }
    let mut directives = stop_pass(&state.family, level, false, state.sleep_time);
    let mut starts = start_pass(&mut state.family, level, now);
    directives.append(&mut starts);
    Ok(directives)
}

/// Whether the entry answers the event of the class `class`: it has that
/// action, has no process, and was named by the last reload.
pub open spec fn answers(e: ChildView, class: InitAction) -> bool {
    e.action == class && idle(e) && !e.flags.has(ChildFlags::KILLME)
}

/// The directives that run an action class: the entries that answer are
/// spawned in table order.
pub open spec fn class_directives(table: Seq<ChildView>, class: InitAction) -> Seq<Directive>
    decreases table.len(),
{
    if table.len() == 0 {
        Seq::<Directive>::empty()
    } else if answers(table.last(), class) {
        class_directives(table.drop_last(), class).push(
            Directive::Spawn { slot: (table.len() - 1) as usize },
        )
    } else {
        class_directives(table.drop_last(), class)
    }
}

/// Runs an action class, such as the entries for the three-finger salute or
/// for the keyboard request: directs the spawning of every entry of the
/// class that has no process.
pub fn class_pass(table: &ProcessTable, class: InitAction) -> (res: Vec<Directive>)
    ensures
        res@ == class_directives(table@, class),
{
    let mut out: Vec<Directive> = Vec::new();
    let n = table.len();
    let mut i: usize = 0;
    while i < n
        invariant
            i <= n,
            n == table@.len(),
            out@ == class_directives(table@.take(i as int), class),
        decreases n - i,
    {
        proof {
            assert(table@.take(i + 1).drop_last() =~= table@.take(i as int));
            assert(table@.take(i + 1).last() == table@[i as int]);
        }
        match table.get(i) {
            Some(child) => {
                if child.action == class && child.pid == NO_PROCESS && !child.is_running()
                    && !child.flags.contains(ChildFlags::ZOMBIE) && !child.flags.contains(
                    ChildFlags::KILLME,
                ) {
                    out.push(Directive::Spawn { slot: i });
                }
            },
            None => {},
        }
        i += 1;
    }
    assert(table@.take(i as int) =~= table@);
    out
}

/// Whether pid and flags of an entry agree: the entry has a pid exactly
/// while its process is running or waits to be cleaned up, it is not both at
/// once, and while it is running the pid is that of a process.
pub open spec fn settled(e: ChildView) -> bool {
    &&& (e.pid != NO_PROCESS) == (e.is_running() || e.is_zombie())
    &&& !(e.is_running() && e.is_zombie())
    &&& e.is_running() ==> e.pid > 0
}

/// The entry after its process was spawned with the pid `pid`: running,
/// spawned once or more, and waited for if its action blocks.
pub open spec fn spawned(e: ChildView, pid: i32) -> ChildView {
    let flags = e.flags.with(ChildFlags::RUNNING).with(ChildFlags::XECUTED);
    ChildView {
        pid,
        flags: if blocks(e.action) {
            flags.with(ChildFlags::WAITING)
        } else {
            flags
        },
        ..e
    }
}

/// The entry after its process could not be spawned: dead at once, with
/// the pid and the exit status that stand for the failure.
pub open spec fn spawn_failed(e: ChildView) -> ChildView {
    ChildView {
        pid: FAILED_PID,
        exstat: SPAWN_FAILED_STATUS,
        flags: e.flags.with(ChildFlags::XECUTED).with(ChildFlags::ZOMBIE),
        ..e
    }
}

/// The entry after its process exited with `status`.
pub open spec fn exited(e: ChildView, status: i32) -> ChildView {
    ChildView {
        exstat: status,
        flags: e.flags.without(ChildFlags::RUNNING).with(ChildFlags::ZOMBIE),
        ..e
    }
}

/// The flags that go when a dead process is cleaned up.
pub open spec fn cleanup_mask() -> u32 {
    ChildFlags::RUNNING | ChildFlags::ZOMBIE | ChildFlags::WAITING
}

/// The entry after its dead process was cleaned up: without a pid, and
/// without the marks of a process. The kill mark of a reload stays.
pub open spec fn collected(e: ChildView) -> ChildView {
    if e.is_zombie() {
        ChildView { pid: NO_PROCESS, flags: e.flags.without(cleanup_mask()), ..e }
    } else {
        e
    }
}

/// Whether `k` is the first running entry of `table` with the pid `pid`.
pub open spec fn first_running_with_pid(table: Seq<ChildView>, pid: i32, k: int) -> bool {
    &&& 0 <= k < table.len()
    &&& table[k].pid == pid && table[k].is_running()
    &&& forall|j: int| 0 <= j < k ==> !(#[trigger] table[j].pid == pid && table[j].is_running())
}

/// Whether no entry of `table` runs a process.
pub open spec fn drained(table: Seq<ChildView>) -> bool {
    forall|i: int| 0 <= i < table.len() ==> !(#[trigger] table[i]).is_running()
}

/// Notes that the entry at `slot` was spawned with the pid `pid`. Says
/// whether it was noted: the slot has to hold an entry without a process,
/// and `pid` has to be the pid of a process that no entry of the table
/// holds, so that no process ever belongs to two entries.
pub fn record_spawn(table: &mut ProcessTable, slot: usize, pid: i32) -> (res: bool)
    ensures
        res == (slot < old(table)@.len() && pid > 0 && idle(old(table)@[slot as int]) && !has_pid(
            old(table)@,
            pid,
        )),
        res ==> final(table)@ == old(table)@.update(
            slot as int,
            spawned(old(table)@[slot as int], pid),
        ),
        !res ==> final(table)@ == old(table)@,
        ids_unique(final(table)@),
{
    let _ = table.len();
    if pid <= 0 {
        return false;
    }
    match table.lookup_by_pid(pid) {
        Some(holder) => {
            assert(has_pid(table@, pid)) by {
                let k = choose|k: int|
                    #![trigger first_with_pid(table@, pid, k)]
                    first_with_pid(table@, pid, k) && holder@ == table@[k];
                assert(table@[k].pid == pid);
            }
            return false;
        },
        None => {},
    }
    let mut update: Option<Status> = None;
    match table.get(slot) {
        Some(child) => {
            if child.pid == NO_PROCESS && !child.flags.contains(ChildFlags::RUNNING)
                && !child.flags.contains(ChildFlags::ZOMBIE) {
                let mut next = status(child);
                next.pid = pid;
                next.flags.insert(ChildFlags::RUNNING);
                next.flags.insert(ChildFlags::XECUTED);
                let waits = match child.action {
                    InitAction::Wait => true,
                    InitAction::BootWait => true,
                    InitAction::SysInit => true,
                    _ => false,
                };
                if waits {
                    next.flags.insert(ChildFlags::WAITING);
                }
                assert(with_status(child@, next) == spawned(child@, pid));
                update = Some(next);
            }
        },
        None => {},
    }
    match update {
        Some(next) => {
            table.set_status(slot, next);
            true
        },
        None => false,
    }
}

/// Notes that the entry at `slot` could not be spawned: the entry counts as
/// dead at once, with a failing exit status. Says whether it was noted: the
/// slot has to hold an entry without a process.
pub fn record_spawn_failure(table: &mut ProcessTable, slot: usize) -> (res: bool)
    ensures
        res == (slot < old(table)@.len() && idle(old(table)@[slot as int])),
        res ==> final(table)@ == old(table)@.update(
            slot as int,
            spawn_failed(old(table)@[slot as int]),
        ),
        !res ==> final(table)@ == old(table)@,
        ids_unique(final(table)@),
{
    let _ = table.len();
    let mut update: Option<Status> = None;
    match table.get(slot) {
        Some(child) => {
            if child.pid == NO_PROCESS && !child.flags.contains(ChildFlags::RUNNING)
                && !child.flags.contains(ChildFlags::ZOMBIE) {
                let mut next = status(child);
                next.pid = FAILED_PID;
                next.exstat = SPAWN_FAILED_STATUS;
                next.flags.insert(ChildFlags::XECUTED);
                next.flags.insert(ChildFlags::ZOMBIE);
                assert(with_status(child@, next) == spawn_failed(child@));
                update = Some(next);
            }
        },
        None => {},
    }
    match update {
        Some(next) => {
            table.set_status(slot, next);
            true
        },
        None => false,
    }
}

/// Notes that the process `pid` exited with `status`: the first running
/// entry with that pid becomes a zombie. A pid that no running entry has
/// changes nothing; the result says whether an entry was found.
pub fn record_exit(table: &mut ProcessTable, pid: i32, status: i32) -> (res: bool)
    ensures
        res ==> exists|k: int|
            #![trigger first_running_with_pid(old(table)@, pid, k)]
            first_running_with_pid(old(table)@, pid, k) && final(table)@ == old(table)@.update(
                k,
                exited(old(table)@[k], status),
            ),
        !res ==> final(table)@ == old(table)@ && forall|k: int|
            0 <= k < old(table)@.len() ==> !(#[trigger] old(table)@[k].pid == pid && old(
                table,
            )@[k].is_running()),
        ids_unique(final(table)@),
{
    let ghost start = table@;
    let n = table.len();
    let mut i: usize = 0;
    while i < n
        invariant
            i <= n,
            n == start.len(),
            start == old(table)@,
            table@ == start,
            ids_unique(table@),
            forall|j: int| 0 <= j < i ==> !(#[trigger] start[j].pid == pid && start[j].is_running()),
        decreases n - i,
    {
        let mut update: Option<Status> = None;
        match table.get(i) {
            Some(child) => {
                if child.pid == pid && child.flags.contains(ChildFlags::RUNNING) {
                    let mut next = self::status(child);
                    next.exstat = status;
                    next.flags.remove(ChildFlags::RUNNING);
                    next.flags.insert(ChildFlags::ZOMBIE);
                    assert(with_status(child@, next) == exited(child@, status));
                    update = Some(next);
                }
            },
            None => {},
        }
        match update {
            Some(next) => {
                assert(first_running_with_pid(start, pid, i as int));
                assert(with_status(start[i as int], next) == exited(start[i as int], status));
                table.set_status(i, next);
                assert(table@ == start.update(i as int, exited(start[i as int], status)));
                return true;
            },
            None => {},
        }
        i += 1;
    }
    false
}

/// Cleans up every dead process: a zombie entry loses its pid and the
/// marks of a process, and may be started again.
pub fn collect_zombies(table: &mut ProcessTable)
    ensures
        final(table)@ == Seq::new(old(table)@.len(), |i: int| collected(old(table)@[i])),
        ids_unique(final(table)@),
{
    let ghost start = table@;
    let n = table.len();
    let mut i: usize = 0;
    while i < n
        invariant
            i <= n,
            n == start.len(),
            table@.len() == n,
            ids_unique(table@),
            forall|k: int|
                0 <= k < n ==> #[trigger] table@[k] == if k < i {
                    collected(start[k])
                } else {
                    start[k]
                },
        decreases n - i,
    {
        let mut update: Option<Status> = None;
        match table.get(i) {
            Some(child) => {
                if child.flags.contains(ChildFlags::ZOMBIE) {
                    let mut next = status(child);
                    next.pid = NO_PROCESS;
                    next.flags.remove(
                        ChildFlags::RUNNING | ChildFlags::ZOMBIE | ChildFlags::WAITING,
                    );
                    assert(with_status(child@, next) == collected(child@));
                    update = Some(next);
                }
            },
            None => {},
        }
        match update {
            Some(next) => {
                table.set_status(i, next);
            },
            None => {},
        }
        i += 1;
    }
    assert(table@ =~= Seq::new(start.len(), |i: int| collected(start[i])));
}

/// The power action that is due: halt in level `0` and reboot in level `6`,
/// and only once no entry runs a process any more.
pub open spec fn spec_power_action(level: char, table: Seq<ChildView>) -> Option<PowerAction> {
    if !drained(table) {
        None
    } else if level == '0' {
        Some(PowerAction::Halt)
    } else if level == '6' {
        Some(PowerAction::Reboot)
    } else {
        None
    }
}

/// The power action that is due, if any. None is due while an entry still
/// runs a process.
pub fn power_action(state: &InitState) -> (res: Option<PowerAction>)
    ensures
        res == spec_power_action(state.curlevel, state.family@),
        res is Some ==> drained(state.family@) && spec_is_terminal_level(state.curlevel),
{
    let action = if state.curlevel == '0' {
        PowerAction::Halt
    } else if state.curlevel == '6' {
        PowerAction::Reboot
    } else {
        return None;
    };
    let n = state.family.len();
    let mut i: usize = 0;
    while i < n
        invariant
            i <= n,
            n == state.family@.len(),
            forall|k: int| 0 <= k < i ==> !(#[trigger] state.family@[k]).is_running(),
        decreases n - i,
    {
        match state.family.get(i) {
            Some(child) => {
                if child.is_running() {
                    return None;
                }
            },
            None => {},
        }
        i += 1;
    }
    Some(action)
}

} // verus!
