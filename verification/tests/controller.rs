use rye_init::controller::{
    class_pass, collect_zombies, power_action, record_exit, record_spawn, record_spawn_failure, retire_pass,
};
use rye_init::{
    transition, Child, ChildFlags, Directive, InitAction, InitState, PowerAction,
    TransitionError,
};

fn entry(line: &str) -> Child {
    Child::parse_inittab_line(line, 1000).unwrap()
}

fn running(line: &str, pid: i32) -> Child {
    let mut child = entry(line);
    child.pid = pid;
    child.flags.insert(ChildFlags::RUNNING);
    child.flags.insert(ChildFlags::XECUTED);
    child
}

fn state_at(level: char, entries: Vec<Child>) -> InitState {
    let mut state = InitState::new();
    state.curlevel = level;
    for child in entries {
        state.family.append(child).unwrap();
    }
    state
}

#[test]
fn invalid_targets_are_refused() {
    let mut state = state_at('2', vec![entry("a:3:once:/bin/a")]);
    assert_eq!(transition(&mut state, '7', 1000), Err(TransitionError::InvalidTarget));
    assert_eq!(transition(&mut state, 'x', 1000), Err(TransitionError::InvalidTarget));
    assert_eq!(state.curlevel, '2');
    assert_eq!(state.prevlevel, 'N');
}

#[test]
fn the_current_level_is_no_change_unless_a_reload_is_pending() {
    let mut state = state_at('2', vec![entry("a:2:once:/bin/a")]);
    assert_eq!(transition(&mut state, '2', 1000), Err(TransitionError::NoChange));
    assert_eq!(state.prevlevel, 'N');
    state.reload = true;
    assert_eq!(transition(&mut state, '2', 1000), Ok(vec![Directive::Spawn { slot: 0 }]));
    assert_eq!(state.curlevel, '2');
    assert_eq!(state.prevlevel, '2');
}

#[test]
fn lower_case_targets_are_taken_in_upper_case() {
    let mut state = state_at('2', vec![]);
    assert_eq!(transition(&mut state, 's', 1000), Ok(vec![]));
    assert_eq!(state.curlevel, 'S');
    assert_eq!(state.prevlevel, '2');
    assert_eq!(transition(&mut state, 'S', 1000), Err(TransitionError::NoChange));
}

#[test]
fn from_two_to_three_stops_and_starts_what_the_level_asks() {
    let mut state = state_at(
        '2',
        vec![
            running("stop:2:respawn:/bin/stop", 10),
            running("keep:23:respawn:/bin/keep", 11),
            entry("new:3:respawn:/bin/new"),
            entry("wait:3:wait:/bin/wait"),
            entry("once:3:once:/bin/once"),
            entry("off:3:off:/bin/off"),
            entry("other:4:respawn:/bin/other"),
            running("kb:2:kbrequest:/bin/kb", 12),
        ],
    );
    let directives = transition(&mut state, '3', 1000).unwrap();
    assert_eq!(
        directives,
        vec![
            Directive::Terminate { pid: 10, grace: 3 },
            Directive::Spawn { slot: 2 },
            Directive::SpawnAndWait { slot: 3 },
            Directive::Spawn { slot: 4 },
        ]
    );
    assert_eq!(state.curlevel, '3');
    assert_eq!(state.prevlevel, '2');
    // Nobody lost or gained a process by the decision alone.
    assert_eq!(state.family.get(0).unwrap().pid, 10);
    assert!(state.family.get(0).unwrap().is_running());
    assert_eq!(state.family.get(1).unwrap().pid, 11);
    assert_eq!(state.family.get(2).unwrap().pid, 0);
    assert!(!state.family.get(2).unwrap().is_running());
    // The respawn of the new entry was counted.
    assert_eq!(state.family.get(2).unwrap().count, 1);
    assert_eq!(state.family.get(3).unwrap().count, 0);
}

#[test]
fn spawned_exited_and_collected() {
    let mut state = state_at('2', vec![entry("w:3:wait:/bin/w"), entry("r:3:respawn:/bin/r")]);
    let directives = transition(&mut state, '3', 1000).unwrap();
    assert_eq!(
        directives,
        vec![Directive::SpawnAndWait { slot: 0 }, Directive::Spawn { slot: 1 }]
    );
    assert!(record_spawn(&mut state.family, 0, 100));
    assert!(record_spawn(&mut state.family, 1, 101));
    let w = state.family.get(0).unwrap();
    assert_eq!(w.pid, 100);
    assert_eq!(
        w.flags.bits(),
        ChildFlags::RUNNING | ChildFlags::XECUTED | ChildFlags::WAITING
    );
    let r = state.family.get(1).unwrap();
    assert_eq!(r.pid, 101);
    assert_eq!(r.flags.bits(), ChildFlags::RUNNING | ChildFlags::XECUTED);

    // A second spawn of a running entry is not noted, nor one without a pid.
    assert!(!record_spawn(&mut state.family, 0, 200));
    assert!(!record_spawn(&mut state.family, 5, 200));
    assert_eq!(state.family.get(0).unwrap().pid, 100);

    assert!(record_exit(&mut state.family, 100, 256));
    let w = state.family.get(0).unwrap();
    assert_eq!(w.pid, 100);
    assert_eq!(w.exstat, 256);
    assert!(!w.is_running());
    assert!(w.flags.contains(ChildFlags::ZOMBIE));

    // An unknown pid, and one that has exited already, change nothing.
    assert!(!record_exit(&mut state.family, 999, 0));
    assert!(!record_exit(&mut state.family, 100, 0));
    assert_eq!(state.family.get(0).unwrap().exstat, 256);

    collect_zombies(&mut state.family);
    let w = state.family.get(0).unwrap();
    assert_eq!(w.pid, 0);
    assert_eq!(w.flags.bits(), ChildFlags::XECUTED);
    assert_eq!(w.exstat, 256);
    assert_eq!(state.family.get(1).unwrap().pid, 101);
}

#[test]
fn a_pid_of_zero_or_less_is_no_spawn() {
    let mut state = state_at('2', vec![entry("r:2:respawn:/bin/r")]);
    assert!(!record_spawn(&mut state.family, 0, 0));
    assert!(!record_spawn(&mut state.family, 0, -1));
    assert_eq!(state.family.get(0).unwrap().pid, 0);
}

#[test]
fn a_failed_spawn_leaves_a_zombie_with_a_failing_status() {
    let mut state = state_at('2', vec![entry("r:2:respawn:/bin/missing")]);
    assert!(record_spawn_failure(&mut state.family, 0));
    let r = state.family.get(0).unwrap();
    assert_eq!(r.pid, -1);
    assert_eq!(r.exstat, 256);
    assert_eq!(r.flags.bits(), ChildFlags::XECUTED | ChildFlags::ZOMBIE);
    assert!(!record_spawn_failure(&mut state.family, 0));
    assert!(!record_spawn_failure(&mut state.family, 3));
    collect_zombies(&mut state.family);
    assert_eq!(state.family.get(0).unwrap().pid, 0);
}

#[test]
fn entries_that_run_once_are_not_started_twice() {
    let mut state = state_at('2', vec![entry("o:23:once:/bin/o"), entry("b:23:boot:/bin/b")]);
    state.reload = true;
    assert_eq!(
        transition(&mut state, '2', 1000).unwrap(),
        vec![Directive::Spawn { slot: 0 }, Directive::Spawn { slot: 1 }]
    );
    record_spawn(&mut state.family, 0, 50);
    record_spawn(&mut state.family, 1, 51);
    record_exit(&mut state.family, 50, 0);
    record_exit(&mut state.family, 51, 0);
    collect_zombies(&mut state.family);
    assert_eq!(transition(&mut state, '3', 1001).unwrap(), vec![]);
}

#[test]
fn a_failing_entry_is_skipped_until_it_has_cooled_down() {
    let mut getty = entry("co:2345:respawn:/sbin/agetty tty1");
    getty.flags.insert(ChildFlags::FAILING);
    getty.count = 11;
    getty.tm = 1000;
    let mut state = state_at('2', vec![getty]);
    assert_eq!(transition(&mut state, '3', 1299).unwrap(), vec![]);
    assert!(state.family.get(0).unwrap().is_failing());
    assert_eq!(
        transition(&mut state, '4', 1300).unwrap(),
        vec![Directive::Spawn { slot: 0 }]
    );
    assert!(!state.family.get(0).unwrap().is_failing());
    assert_eq!(state.family.get(0).unwrap().count, 1);
}

#[test]
fn the_agetty_entry_is_spawned_in_level_two_and_disabled_when_it_loops() {
    let getty = Child::parse_inittab_line("co:2345:respawn:/sbin/agetty tty1", 1000).unwrap();
    let mut state = state_at('S', vec![getty]);
    assert_eq!(
        transition(&mut state, '2', 1000).unwrap(),
        vec![Directive::Spawn { slot: 0 }]
    );
    let mut pid = 100;
    let mut spawns = 1;
    let mut now = 1000;
    state.reload = true;
    for _ in 0..12 {
        assert!(record_spawn(&mut state.family, 0, pid) || state.family.get(0).unwrap().is_failing());
        if state.family.get(0).unwrap().is_running() {
            assert!(record_exit(&mut state.family, pid, 256));
            collect_zombies(&mut state.family);
        }
        now += 5;
        pid += 1;
        let directives = transition(&mut state, '2', now).unwrap();
        if directives == vec![Directive::Spawn { slot: 0 }] {
            spawns += 1;
        } else {
            assert!(directives.is_empty());
        }
    }
    assert!(state.family.get(0).unwrap().is_failing());
    assert!(spawns < 13);
    assert_eq!(spawns, 10);
    let disabled_at = state.family.get(0).unwrap().tm;
    assert_eq!(transition(&mut state, '2', disabled_at + 299).unwrap(), vec![]);
    assert_eq!(
        transition(&mut state, '2', disabled_at + 300).unwrap(),
        vec![Directive::Spawn { slot: 0 }]
    );
}

#[test]
fn demand_levels_start_on_demand_entries_and_leave_the_level() {
    let mut state = state_at(
        '2',
        vec![
            entry("d:a:ondemand:/bin/d"),
            entry("e:b:ondemand:/bin/e"),
            running("r:2:respawn:/bin/r", 7),
        ],
    );
    let directives = transition(&mut state, 'a', 1000).unwrap();
    assert_eq!(directives, vec![]);
    // The runlevel field of the entry names the level in lower case; the
    // demand is for the level in upper case.
    assert_eq!(state.curlevel, '2');
    let mut state = state_at(
        '2',
        vec![entry("d:A:ondemand:/bin/d"), running("r:2:respawn:/bin/r", 7)],
    );
    let directives = transition(&mut state, 'a', 1000).unwrap();
    assert_eq!(directives, vec![Directive::Spawn { slot: 0 }]);
    assert_eq!(state.curlevel, '2');
    assert_eq!(state.prevlevel, 'N');
    assert!(state.family.get(0).unwrap().flags.contains(ChildFlags::DEMAND));
    assert!(state.family.get(1).unwrap().is_running());
}

#[test]
fn halt_and_reboot_stop_everything_and_start_nothing() {
    for (level, action) in [('0', PowerAction::Halt), ('6', PowerAction::Reboot)] {
        let mut state = state_at(
            '3',
            vec![
                running("a:0123456:respawn:/bin/a", 10),
                entry("rc:06:wait:/etc/rc"),
                running("kb:3:kbrequest:/bin/kb", 11),
            ],
        );
        assert_eq!(power_action(&state), None);
        let directives = transition(&mut state, level, 1000).unwrap();
        assert_eq!(
            directives,
            vec![Directive::Terminate { pid: 10, grace: 3 }, Directive::Terminate { pid: 11, grace: 3 }]
        );
        assert_eq!(state.curlevel, level);
        // Not before the last process is gone.
        assert_eq!(power_action(&state), None);
        assert!(record_exit(&mut state.family, 10, 0));
        assert_eq!(power_action(&state), None);
        assert!(record_exit(&mut state.family, 11, 0));
        assert_eq!(power_action(&state), Some(action));
        collect_zombies(&mut state.family);
        assert_eq!(power_action(&state), Some(action));
    }
}

#[test]
fn no_power_action_outside_the_terminal_levels() {
    let state = state_at('3', vec![]);
    assert_eq!(power_action(&state), None);
    let state = state_at('0', vec![]);
    assert_eq!(power_action(&state), Some(PowerAction::Halt));
}

#[test]
fn entries_that_a_reload_dropped_are_told_to_end_and_not_started() {
    let mut state = state_at(
        '2',
        vec![running("gone:2:respawn:/bin/gone", 30), entry("idle:2:respawn:/bin/idle")],
    );
    state.family.diff_reload(&vec![]);
    assert_eq!(retire_pass(&state.family, state.sleep_time), vec![Directive::Terminate { pid: 30, grace: 3 }]);
    state.reload = true;
    assert_eq!(transition(&mut state, '2', 1000).unwrap(), vec![]);
    assert!(record_exit(&mut state.family, 30, 0));
    collect_zombies(&mut state.family);
    assert_eq!(state.family.remove_retired(), 2);
    assert_eq!(state.family.len(), 0);
}

#[test]
fn an_action_class_spawns_its_idle_entries() {
    let mut state = state_at(
        '2',
        vec![
            entry("ca::ctrlaltdel:/sbin/shutdown -r now"),
            entry("kb::kbrequest:/bin/kb"),
            running("c2::ctrlaltdel:/bin/busy", 9),
            entry("c3:S:ctrlaltdel:/bin/other"),
        ],
    );
    assert_eq!(
        class_pass(&state.family, InitAction::CtrlAltDel),
        vec![Directive::Spawn { slot: 0 }, Directive::Spawn { slot: 3 }]
    );
    assert_eq!(
        class_pass(&state.family, InitAction::KbRequest),
        vec![Directive::Spawn { slot: 1 }]
    );
    assert_eq!(class_pass(&state.family, InitAction::PowerFail), vec![]);
    state.family.diff_reload(&vec![]);
    assert_eq!(class_pass(&state.family, InitAction::CtrlAltDel), vec![]);
}

#[test]
fn the_grace_period_is_the_sleep_time_of_the_state() {
    let mut state = state_at('2', vec![running("a:2:respawn:/bin/a", 10)]);
    state.sleep_time = 17;
    assert_eq!(
        transition(&mut state, '3', 1000).unwrap(),
        vec![Directive::Terminate { pid: 10, grace: 17 }]
    );
}

#[test]
fn a_pid_that_is_taken_is_no_spawn() {
    let mut state = state_at('2', vec![entry("a:2:respawn:/bin/a"), entry("b:2:respawn:/bin/b")]);
    assert!(record_spawn(&mut state.family, 0, 40));
    assert!(!record_spawn(&mut state.family, 1, 40));
    assert_eq!(state.family.get(1).unwrap().pid, 0);
    assert!(!state.family.get(1).unwrap().is_running());
    // A zombie still holds its pid until it is cleaned up.
    assert!(record_exit(&mut state.family, 40, 0));
    assert!(!record_spawn(&mut state.family, 1, 40));
    collect_zombies(&mut state.family);
    assert!(record_spawn(&mut state.family, 1, 40));
    assert_eq!(state.family.get(1).unwrap().pid, 40);
}

#[test]
fn a_stopped_entry_is_no_longer_running_once_its_exit_is_recorded() {
    let mut state = state_at(
        '2',
        vec![running("stop:2:respawn:/bin/stop", 10), running("keep:23:respawn:/bin/keep", 11)],
    );
    let directives = transition(&mut state, '3', 1000).unwrap();
    assert_eq!(directives, vec![Directive::Terminate { pid: 10, grace: 3 }]);
    assert!(record_exit(&mut state.family, 10, 15));
    let stopped = state.family.get(0).unwrap();
    assert!(!stopped.is_running());
    assert!(stopped.flags.contains(ChildFlags::ZOMBIE));
    assert_eq!(stopped.exstat, 15);
    assert!(state.family.get(1).unwrap().is_running());
}

#[test]
fn a_reaped_pid_is_found_no_more() {
    let mut state = state_at(
        '3',
        vec![running("a:3:respawn:/bin/a", 10), running("b:3:respawn:/bin/b", 11)],
    );
    transition(&mut state, '6', 1000).unwrap();
    for pid in [10, 11] {
        assert!(state.remove_child_by_pid(pid).is_some());
        assert!(state.find_child_by_pid(pid).is_none());
    }
    assert_eq!(state.family.len(), 0);
    assert_eq!(power_action(&state), Some(PowerAction::Reboot));
}
