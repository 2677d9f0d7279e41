//! What holds of every transition and of every entry that goes through one.

use vstd::prelude::*;
use crate::child::ChildView;
use crate::controller::{
    cleanup_mask, collected, demanded, drained, exited, first_running_with_pid, idle, must_retire,
    must_stop, retire_directives, settled, spawn_failed, spawned, spec_power_action, start_choice,
    start_directives, started, stop_directives, transition_directives, transition_table, Directive,
};
use crate::failsafe::{failsafe_consistent, lemma_respawn_entry};
use crate::flags::{lemma_named_bits_distinct, lemma_with, lemma_without, ChildFlags};
use crate::runlevel::{spec_is_demand_level, spec_is_terminal_level};
use crate::table::{
    first_with_pid, has_pid, ids_unique, lemma_reload_keeps_one_process_per_id, live_pids_unique,
    spec_diff_reload,
};

verus! {

/// The stop pass directs the termination of exactly the entries whose
/// process is to end.
pub proof fn lemma_stop_directives(
    table: Seq<ChildView>,
    level: char,
    terminal: bool,
    grace: u64,
    d: Directive,
)
    ensures
        stop_directives(table, level, terminal, grace).contains(d) <==> exists|i: int|
            0 <= i < table.len() && #[trigger] must_stop(table[i], level, terminal) && d == (
            Directive::Terminate { pid: table[i].pid, grace }),
    decreases table.len(),
{
    let all = stop_directives(table, level, terminal, grace);
    if table.len() > 0 {
        let head = table.drop_last();
        let before = stop_directives(head, level, terminal, grace);
        lemma_stop_directives(head, level, terminal, grace, d);
        let last = table.len() - 1;
        let hit = must_stop(table[last], level, terminal);
        let own = Directive::Terminate { pid: table[last].pid, grace };
        if all.contains(d) {
            let k = choose|k: int| 0 <= k < all.len() && all[k] == d;
            if hit && k == before.len() {
                assert(must_stop(table[last], level, terminal) && d == own);
            } else {
                assert(before[k] == d);
                let i = choose|i: int|
                    0 <= i < head.len() && #[trigger] must_stop(head[i], level, terminal) && d == (
                    Directive::Terminate { pid: head[i].pid, grace });
                assert(must_stop(table[i], level, terminal));
            }
        }
        if exists|i: int|
            0 <= i < table.len() && #[trigger] must_stop(table[i], level, terminal) && d == (
            Directive::Terminate { pid: table[i].pid, grace }) {
            let i = choose|i: int|
                0 <= i < table.len() && #[trigger] must_stop(table[i], level, terminal) && d == (
                Directive::Terminate { pid: table[i].pid, grace });
            if i == last {
                assert(all[before.len() as int] == d);
            } else {
                assert(must_stop(head[i], level, terminal));
                let k = choose|k: int| 0 <= k < before.len() && before[k] == d;
                assert(all[k] == d);
            }
        }
    }
}

/// The start pass directs the spawning of exactly the entries that it
/// chooses to start, each under its own slot.
pub proof fn lemma_start_directives(table: Seq<ChildView>, level: char, now: u64, d: Directive)
    ensures
        start_directives(table, level, now).contains(d) <==> exists|i: int|
            0 <= i < table.len() && #[trigger] start_choice(table[i], level, now, i) == Some(d),
    decreases table.len(),
{
    let all = start_directives(table, level, now);
    if table.len() > 0 {
        let head = table.drop_last();
        let before = start_directives(head, level, now);
        lemma_start_directives(head, level, now, d);
        let last = table.len() - 1;
        let own = start_choice(table[last], level, now, last);
        if all.contains(d) {
            let k = choose|k: int| 0 <= k < all.len() && all[k] == d;
            if own is Some && k == before.len() {
                assert(start_choice(table[last], level, now, last) == Some(d));
            } else {
                assert(before[k] == d);
                let i = choose|i: int|
                    0 <= i < head.len() && #[trigger] start_choice(head[i], level, now, i) == Some(
                        d,
                    );
                assert(start_choice(table[i], level, now, i) == Some(d));
            }
        }
        if exists|i: int|
            0 <= i < table.len() && #[trigger] start_choice(table[i], level, now, i) == Some(d) {
            let i = choose|i: int|
                0 <= i < table.len() && #[trigger] start_choice(table[i], level, now, i) == Some(d);
            if i == last {
                assert(all[before.len() as int] == d);
            } else {
                assert(start_choice(head[i], level, now, i) == Some(d));
                let k = choose|k: int| 0 <= k < before.len() && before[k] == d;
                assert(all[k] == d);
            }
        }
    }
}

/// The start pass touches nothing of an entry but the demand flag and what
/// the failsafe keeps.
pub proof fn lemma_started(e: ChildView, level: char, now: u64)
    ensures
        started(e, level, now).id == e.id,
        started(e, level, now).pid == e.pid,
        started(e, level, now).is_running() == e.is_running(),
        started(e, level, now).is_zombie() == e.is_zombie(),
        started(e, level, now).flags.has(ChildFlags::KILLME) == e.flags.has(ChildFlags::KILLME),
        settled(e) ==> settled(started(e, level, now)),
        failsafe_consistent(e) ==> failsafe_consistent(started(e, level, now)),
{
    let d = demanded(e, level);
    lemma_with(e.flags, ChildFlags::DEMAND, ChildFlags::RUNNING);
    lemma_with(e.flags, ChildFlags::DEMAND, ChildFlags::ZOMBIE);
    lemma_with(e.flags, ChildFlags::DEMAND, ChildFlags::FAILING);
    lemma_with(e.flags, ChildFlags::DEMAND, ChildFlags::KILLME);
    lemma_named_bits_distinct(ChildFlags::DEMAND, ChildFlags::RUNNING);
    lemma_named_bits_distinct(ChildFlags::DEMAND, ChildFlags::ZOMBIE);
    lemma_named_bits_distinct(ChildFlags::DEMAND, ChildFlags::FAILING);
    lemma_named_bits_distinct(ChildFlags::DEMAND, ChildFlags::KILLME);
    lemma_respawn_entry(d, now, ChildFlags::RUNNING);
    lemma_respawn_entry(d, now, ChildFlags::ZOMBIE);
    lemma_respawn_entry(d, now, ChildFlags::KILLME);
}

/// A transition between two ordinary runlevels stops and starts what the
/// new level asks for, and leaves every entry in a settled state.
///
/// Of the entry at `i`: if it is running, of the stop class, and does not
/// run in the new level, its termination is directed. If the start pass
/// chooses to start it, its spawning is directed under its slot; an entry
/// that runs in the level, has no process and is to be respawned or waited
/// for is so chosen unless the failsafe refuses it. Nothing else is
/// directed. The entry keeps its id and its pid, and pid, flags and respawn
/// count agree afterwards if they did before.
pub proof fn lemma_transition_starts_and_stops(
    table: Seq<ChildView>,
    level: char,
    now: u64,
    grace: u64,
    i: int,
    d: Directive,
)
    requires
        !spec_is_demand_level(level),
        !spec_is_terminal_level(level),
        0 <= i < table.len(),
    ensures
        transition_table(table, level, now).len() == table.len(),
        transition_table(table, level, now)[i].id == table[i].id,
        transition_table(table, level, now)[i].pid == table[i].pid,
        must_stop(table[i], level, false) ==> transition_directives(
            table,
            level,
            now,
            grace,
        ).contains(Directive::Terminate { pid: table[i].pid, grace }),
        start_choice(table[i], level, now, i) matches Some(s) ==> transition_directives(
            table,
            level,
            now,
            grace,
        ).contains(s),
        transition_directives(table, level, now, grace).contains(d) ==> exists|k: int|
            #![trigger table[k]]
            0 <= k < table.len() && ((must_stop(table[k], level, false) && d == (
            Directive::Terminate { pid: table[k].pid, grace })) || start_choice(table[k], level, now, k)
                == Some(d)),
        settled(table[i]) ==> settled(transition_table(table, level, now)[i]),
        failsafe_consistent(table[i]) ==> failsafe_consistent(
            transition_table(table, level, now)[i],
        ),
{
    let stops = stop_directives(table, level, false, grace);
    let starts = start_directives(table, level, now);
    let all = transition_directives(table, level, now, grace);
    lemma_started(table[i], level, now);
    assert(all == stops + starts);
    if must_stop(table[i], level, false) {
        let t = Directive::Terminate { pid: table[i].pid, grace };
        lemma_stop_directives(table, level, false, grace, t);
        let k = choose|k: int| 0 <= k < stops.len() && stops[k] == t;
        assert(all[k] == t);
    }
    match start_choice(table[i], level, now, i) {
        Some(s) => {
            lemma_start_directives(table, level, now, s);
            let k = choose|k: int| 0 <= k < starts.len() && starts[k] == s;
            assert(all[stops.len() + k] == s);
        },
        None => {},
    }
    if all.contains(d) {
        let k = choose|k: int| 0 <= k < all.len() && all[k] == d;
        if k < stops.len() {
            assert(stops[k] == d);
            lemma_stop_directives(table, level, false, grace, d);
            let w = choose|w: int|
                0 <= w < table.len() && #[trigger] must_stop(table[w], level, false) && d == (
                Directive::Terminate { pid: table[w].pid, grace });
            assert(0 <= w < table.len() && must_stop(table[w], level, false));
        } else {
            assert(starts[k - stops.len()] == d);
            lemma_start_directives(table, level, now, d);
            let w = choose|w: int|
                0 <= w < table.len() && #[trigger] start_choice(table[w], level, now, w) == Some(d);
            assert(0 <= w < table.len() && start_choice(table[w], level, now, w) == Some(d));
        }
    }
}

/// An entry that runs in the new level, has no process, is to be respawned
/// and has not used up its respawns is started by the transition.
pub proof fn lemma_respawn_entry_is_started(
    table: Seq<ChildView>,
    level: char,
    now: u64,
    grace: u64,
    i: int,
)
    requires
        !spec_is_demand_level(level),
        !spec_is_terminal_level(level),
        0 <= i < table.len(),
        table[i].action == crate::action::InitAction::Respawn,
        table[i].runs_at(level),
        idle(table[i]),
        !table[i].flags.has(ChildFlags::KILLME),
        crate::failsafe::respawn_decision(table[i], now) == crate::failsafe::RespawnDecision::Spawn,
    ensures
        transition_directives(table, level, now, grace).contains(Directive::Spawn { slot: i as usize }),
{
    assert(start_choice(table[i], level, now, i) == Some(Directive::Spawn { slot: i as usize }));
    lemma_transition_starts_and_stops(
        table,
        level,
        now,
        grace,
        i,
        Directive::Spawn { slot: i as usize },
    );
}

/// A transition to the halt or the reboot level directs the termination of
/// every running entry and starts nothing, and the power action is not due
/// before every entry has stopped running: it is due exactly when the
/// table is drained.
pub proof fn lemma_terminal_transition_drains(
    table: Seq<ChildView>,
    level: char,
    now: u64,
    grace: u64,
    i: int,
    d: Directive,
)
    requires
        spec_is_terminal_level(level),
        0 <= i < table.len(),
    ensures
        transition_table(table, level, now) == table,
        table[i].is_running() ==> transition_directives(table, level, now, grace).contains(
            Directive::Terminate { pid: table[i].pid, grace },
        ),
        transition_directives(table, level, now, grace).contains(d) ==> d is Terminate,
        table[i].is_running() ==> spec_power_action(level, table) is None,
        spec_power_action(level, table) is Some <==> drained(table),
{
    if table[i].is_running() {
        assert(must_stop(table[i], level, true));
        lemma_stop_directives(
            table,
            level,
            true,
            grace,
            Directive::Terminate { pid: table[i].pid, grace },
        );
        assert(!drained(table));
    }
    lemma_stop_directives(table, level, true, grace, d);
}

/// The entries that the last reload did not name are told to end, and no
/// others: the termination of a process is directed exactly if its entry
/// is running and carries the kill mark.
pub proof fn lemma_retire_directives(table: Seq<ChildView>, grace: u64, d: Directive)
    ensures
        retire_directives(table, grace).contains(d) <==> exists|i: int|
            0 <= i < table.len() && #[trigger] must_retire(table[i]) && d == (
            Directive::Terminate { pid: table[i].pid, grace }),
    decreases table.len(),
{
    let all = retire_directives(table, grace);
    if table.len() > 0 {
        let head = table.drop_last();
        let before = retire_directives(head, grace);
        lemma_retire_directives(head, grace, d);
        let last = table.len() - 1;
        let hit = must_retire(table[last]);
        let own = Directive::Terminate { pid: table[last].pid, grace };
        if all.contains(d) {
            let k = choose|k: int| 0 <= k < all.len() && all[k] == d;
            if hit && k == before.len() {
                assert(must_retire(table[last]) && d == own);
            } else {
                assert(before[k] == d);
                let i = choose|i: int|
                    0 <= i < head.len() && #[trigger] must_retire(head[i]) && d == (
                    Directive::Terminate { pid: head[i].pid, grace });
                assert(must_retire(table[i]));
            }
        }
        if exists|i: int|
            0 <= i < table.len() && #[trigger] must_retire(table[i]) && d == (
            Directive::Terminate { pid: table[i].pid, grace }) {
            let i = choose|i: int|
                0 <= i < table.len() && #[trigger] must_retire(table[i]) && d == (
                Directive::Terminate { pid: table[i].pid, grace });
            if i == last {
                assert(all[before.len() as int] == d);
            } else {
                assert(must_retire(head[i]));
                let k = choose|k: int| 0 <= k < before.len() && before[k] == d;
                assert(all[k] == d);
            }
        }
    }
}

/// Spawning, failing to spawn, exiting and cleaning up each leave pid and
/// flags of an entry in agreement.
pub proof fn lemma_events_settle(e: ChildView, pid: i32, status: i32)
    requires
        settled(e),
    ensures
        idle(e) && pid > 0 ==> settled(spawned(e, pid)) && spawned(e, pid).is_running(),
        idle(e) ==> settled(spawn_failed(e)) && spawn_failed(e).is_zombie(),
        e.is_running() ==> settled(exited(e, status)) && exited(e, status).is_zombie(),
        settled(collected(e)),
        !collected(e).is_zombie(),
        e.is_zombie() ==> idle(collected(e)),
{
    let r = e.flags.with(ChildFlags::RUNNING);
    let x = r.with(ChildFlags::XECUTED);
    lemma_with(e.flags, ChildFlags::RUNNING, ChildFlags::RUNNING);
    lemma_with(e.flags, ChildFlags::RUNNING, ChildFlags::ZOMBIE);
    lemma_with(r, ChildFlags::XECUTED, ChildFlags::RUNNING);
    lemma_with(r, ChildFlags::XECUTED, ChildFlags::ZOMBIE);
    lemma_with(x, ChildFlags::WAITING, ChildFlags::RUNNING);
    lemma_with(x, ChildFlags::WAITING, ChildFlags::ZOMBIE);
    lemma_named_bits_distinct(ChildFlags::RUNNING, ChildFlags::RUNNING);
    lemma_named_bits_distinct(ChildFlags::RUNNING, ChildFlags::ZOMBIE);
    lemma_named_bits_distinct(ChildFlags::XECUTED, ChildFlags::RUNNING);
    lemma_named_bits_distinct(ChildFlags::XECUTED, ChildFlags::ZOMBIE);
    lemma_named_bits_distinct(ChildFlags::WAITING, ChildFlags::RUNNING);
    lemma_named_bits_distinct(ChildFlags::WAITING, ChildFlags::ZOMBIE);
    lemma_named_bits_distinct(ChildFlags::ZOMBIE, ChildFlags::RUNNING);
    lemma_named_bits_distinct(ChildFlags::ZOMBIE, ChildFlags::ZOMBIE);
    let fx = e.flags.with(ChildFlags::XECUTED);
    lemma_with(e.flags, ChildFlags::XECUTED, ChildFlags::RUNNING);
    lemma_with(e.flags, ChildFlags::XECUTED, ChildFlags::ZOMBIE);
    lemma_with(fx, ChildFlags::ZOMBIE, ChildFlags::RUNNING);
    lemma_with(fx, ChildFlags::ZOMBIE, ChildFlags::ZOMBIE);
    let nr = e.flags.without(ChildFlags::RUNNING);
    lemma_without(e.flags, ChildFlags::RUNNING, ChildFlags::RUNNING);
    lemma_without(e.flags, ChildFlags::RUNNING, ChildFlags::ZOMBIE);
    lemma_with(nr, ChildFlags::ZOMBIE, ChildFlags::RUNNING);
    lemma_with(nr, ChildFlags::ZOMBIE, ChildFlags::ZOMBIE);
    lemma_without(e.flags, cleanup_mask(), ChildFlags::RUNNING);
    lemma_without(e.flags, cleanup_mask(), ChildFlags::ZOMBIE);
    assert(cleanup_mask() & ChildFlags::RUNNING == ChildFlags::RUNNING && cleanup_mask()
        & ChildFlags::ZOMBIE == ChildFlags::ZOMBIE) by {
        assert((2u32 | 64u32 | 32u32) & 2u32 == 2u32 && (2u32 | 64u32 | 32u32) & 64u32 == 64u32)
            by (bit_vector);
    }
}

/// A table whose entries keep their pids or lose them, and whose new
/// entries have no process, holds no process twice if it did not before.
pub proof fn lemma_pids_stay_unique(before: Seq<ChildView>, after: Seq<ChildView>)
    requires
        live_pids_unique(before),
        before.len() <= after.len(),
        forall|i: int|
            0 <= i < before.len() ==> (#[trigger] after[i]).pid == before[i].pid || after[i].pid
                <= 0,
        forall|i: int| before.len() <= i < after.len() ==> (#[trigger] after[i]).pid <= 0,
    ensures
        live_pids_unique(after),
{
    assert forall|i: int, j: int|
        0 <= i < after.len() && 0 <= j < after.len() && i != j && after[i].pid > 0 implies after[i].pid
        != after[j].pid by {
        assert(i < before.len());
        assert(after[i].pid == before[i].pid);
        if j < before.len() {
            assert(after[j].pid == before[j].pid || after[j].pid <= 0);
            assert(before[i].pid != before[j].pid);
        } else {
            assert(after[j].pid <= 0);
        }
    }
}

/// No process ever belongs to two entries: whatever the supervisor does to
/// a table in which every process has one entry, every process has one
/// entry afterwards. This holds of a transition, of a recorded exit, of a
/// failed spawn, of the cleaning up, of a removal, of a reload, and of a
/// recorded spawn, which is refused where the pid is taken.
pub proof fn lemma_processes_stay_apart(
    table: Seq<ChildView>,
    k: int,
    pid: i32,
    status: i32,
    level: char,
    now: u64,
    defs: Seq<ChildView>,
)
    requires
        live_pids_unique(table),
        0 <= k < table.len(),
    ensures
        live_pids_unique(transition_table(table, level, now)),
        live_pids_unique(table.update(k, exited(table[k], status))),
        live_pids_unique(table.update(k, spawn_failed(table[k]))),
        live_pids_unique(Seq::new(table.len(), |i: int| collected(table[i]))),
        live_pids_unique(table.remove(k)),
        ids_unique(table) ==> live_pids_unique(spec_diff_reload(table, defs)),
        pid > 0 && !has_pid(table, pid) ==> live_pids_unique(
            table.update(k, spawned(table[k], pid)),
        ),
{
    let moved = transition_table(table, level, now);
    assert forall|i: int| 0 <= i < table.len() implies (#[trigger] moved[i]).pid
        == table[i].pid by {
        lemma_started(table[i], level, now);
    }
    lemma_pids_stay_unique(table, moved);
    lemma_pids_stay_unique(table, table.update(k, exited(table[k], status)));
    lemma_pids_stay_unique(table, table.update(k, spawn_failed(table[k])));
    lemma_pids_stay_unique(table, Seq::new(table.len(), |i: int| collected(table[i])));
    let less = table.remove(k);
    assert forall|i: int, j: int|
        0 <= i < less.len() && 0 <= j < less.len() && i != j && less[i].pid > 0 implies less[i].pid
        != less[j].pid by {
        let i0 = if i < k { i } else { i + 1 };
        let j0 = if j < k { j } else { j + 1 };
        assert(less[i] == table[i0] && less[j] == table[j0]);
        assert(table[i0].pid != table[j0].pid);
    }
    if ids_unique(table) {
        lemma_reload_keeps_one_process_per_id(table, defs);
        lemma_pids_stay_unique(table, spec_diff_reload(table, defs));
    }
    if pid > 0 && !has_pid(table, pid) {
        let more = table.update(k, spawned(table[k], pid));
        assert forall|i: int, j: int|
            0 <= i < more.len() && 0 <= j < more.len() && i != j && more[i].pid > 0 implies more[i].pid
            != more[j].pid by {
            if i == k {
                assert(table[j].pid != pid);
            } else if j == k {
                assert(table[i].pid != pid);
            } else {
                assert(table[i].pid != table[j].pid);
            }
        }
    }
}

/// An entry that a transition stops is no longer running once the exit of
/// its process is recorded.
///
/// The entry is running, of the stop class, and does not run in the new
/// level. The transition directs the termination of its process. When that
/// process has exited, the exit is recorded on this entry and no other,
/// because no other entry holds the pid; the entry is then a zombie and no
/// longer running.
pub proof fn lemma_stopped_entry_ends(
    table: Seq<ChildView>,
    level: char,
    now: u64,
    grace: u64,
    i: int,
    status: i32,
)
    requires
        !spec_is_demand_level(level),
        !spec_is_terminal_level(level),
        0 <= i < table.len(),
        live_pids_unique(table),
        settled(table[i]),
        must_stop(table[i], level, false),
    ensures
        transition_directives(table, level, now, grace).contains(
            Directive::Terminate { pid: table[i].pid, grace },
        ),
        first_running_with_pid(transition_table(table, level, now), table[i].pid, i),
        !exited(transition_table(table, level, now)[i], status).is_running(),
        exited(transition_table(table, level, now)[i], status).is_zombie(),
        settled(exited(transition_table(table, level, now)[i], status)),
{
    let after = transition_table(table, level, now);
    lemma_transition_starts_and_stops(
        table,
        level,
        now,
        grace,
        i,
        Directive::Terminate { pid: table[i].pid, grace },
    );
    lemma_started(table[i], level, now);
    assert forall|j: int| 0 <= j < i implies !(#[trigger] after[j].pid == table[i].pid
        && after[j].is_running()) by {
        lemma_started(table[j], level, now);
        assert(table[i].pid != table[j].pid);
    }
    lemma_events_settle(after[i], 1, status);
}

/// Once a process is reaped and its entry removed, no entry holds its pid
/// any more.
pub proof fn lemma_reaped_pid_is_gone(table: Seq<ChildView>, pid: i32, k: int)
    requires
        live_pids_unique(table),
        pid > 0,
        first_with_pid(table, pid, k),
    ensures
        !has_pid(table.remove(k), pid),
        live_pids_unique(table.remove(k)),
{
    let less = table.remove(k);
    if has_pid(less, pid) {
        let i = choose|i: int| 0 <= i < less.len() && #[trigger] less[i].pid == pid;
        let i0 = if i < k { i } else { i + 1 };
        assert(less[i] == table[i0]);
        assert(table[k].pid != table[i0].pid);
    }
    lemma_processes_stay_apart(table, k, pid, 0, '0', 0, Seq::<ChildView>::empty());
}

} // verus!
