use rye_init::state::emergency_shell_due;
use rye_init::{Child, ChildFlags, ExtraEnv, InitAction, InitState, ProcessTable};

fn entry(line: &str) -> Child {
    Child::parse_inittab_line(line, 100).unwrap()
}

fn ids(table: &ProcessTable) -> Vec<String> {
    let mut out = Vec::new();
    let mut i = 0;
    while let Some(child) = table.get(i) {
        out.push(child.id.clone());
        i += 1;
    }
    out
}

#[test]
fn fresh_state_is_single_user_with_an_empty_table() {
    let state = InitState::new();
    assert_eq!(state.family.len(), 0);
    assert!(state.new_family.is_empty());
    assert!(state.wrote_wtmp_reboot);
    assert!(state.wrote_utmp_reboot);
    assert!(state.wrote_wtmp_rlevel);
    assert!(state.wrote_utmp_rlevel);
    assert_eq!(state.curlevel, 'S');
    assert_eq!(state.prevlevel, 'N');
    assert_eq!(state.dfl_level, '0');
    assert!(!state.emerg_shell);
    assert_eq!(state.sleep_time, 3);
    assert!(state.console_dev.is_none());
    assert_eq!(state.pipe_fd, -1);
    assert!(!state.did_boot);
    assert!(!state.reload);
    assert_eq!(state.myname, "/sbin/init");
    assert_eq!(state.oops_error, 0);
}

#[test]
fn extra_environment_starts_empty() {
    let env = ExtraEnv::new();
    assert_eq!(env.vars.len(), 16);
    assert!(env.vars.iter().all(|v| v.is_none()));
}

#[test]
fn new_entries_go_to_the_front() {
    let mut state = InitState::new();
    assert!(state.add_child(entry("a:2:once:/bin/a")).is_ok());
    assert!(state.add_child(entry("b:2:once:/bin/b")).is_ok());
    assert!(state.add_child(entry("c:2:once:/bin/c")).is_ok());
    assert_eq!(ids(&state.family), vec!["c", "b", "a"]);
}

#[test]
fn an_id_that_is_taken_is_refused() {
    let mut state = InitState::new();
    assert!(state.add_child(entry("a:2:once:/bin/a")).is_ok());
    let back = state.add_child(entry("a:3:respawn:/bin/other")).unwrap_err();
    assert_eq!(back.id, "a");
    assert_eq!(back.process, "/bin/other");
    assert_eq!(state.family.len(), 1);
    assert_eq!(state.find_child_by_id("a").unwrap().process, "/bin/a");
}

#[test]
fn entries_are_found_by_id_and_by_pid() {
    let mut state = InitState::new();
    let mut a = entry("a:2:once:/bin/a");
    a.pid = 41;
    let mut b = entry("b:2:once:/bin/b");
    b.pid = 42;
    state.add_child(a).unwrap();
    state.add_child(b).unwrap();
    assert_eq!(state.find_child_by_id("a").unwrap().pid, 41);
    assert_eq!(state.find_child_by_id("b").unwrap().pid, 42);
    assert!(state.find_child_by_id("c").is_none());
    assert!(state.find_child_by_id("").is_none());
    assert_eq!(state.find_child_by_pid(41).unwrap().id, "a");
    assert_eq!(state.find_child_by_pid(42).unwrap().id, "b");
    assert!(state.find_child_by_pid(43).is_none());
}

#[test]
fn lookup_by_pid_takes_the_first_in_table_order() {
    let mut state = InitState::new();
    state.add_child(entry("a:2:once:/bin/a")).unwrap();
    state.add_child(entry("b:2:once:/bin/b")).unwrap();
    // Both have no process; the one in front is found.
    assert_eq!(state.find_child_by_pid(0).unwrap().id, "b");
}

#[test]
fn removal_by_pid_takes_the_entry_out() {
    let mut state = InitState::new();
    let mut a = entry("a:2:once:/bin/a");
    a.pid = 41;
    let mut b = entry("b:2:once:/bin/b");
    b.pid = 42;
    let mut c = entry("c:2:once:/bin/c");
    c.pid = 43;
    state.add_child(a).unwrap();
    state.add_child(b).unwrap();
    state.add_child(c).unwrap();
    let gone = state.remove_child_by_pid(42).unwrap();
    assert_eq!(gone.id, "b");
    assert_eq!(ids(&state.family), vec!["c", "a"]);
    assert!(state.find_child_by_pid(42).is_none());
}

#[test]
fn removal_of_an_unknown_pid_changes_nothing() {
    let mut state = InitState::new();
    let mut a = entry("a:2:once:/bin/a");
    a.pid = 41;
    state.add_child(a).unwrap();
    assert!(state.remove_child_by_pid(999).is_none());
    assert_eq!(ids(&state.family), vec!["a"]);
    assert_eq!(state.find_child_by_id("a").unwrap().pid, 41);
}

#[test]
fn append_puts_entries_at_the_end() {
    let mut table = ProcessTable::new();
    table.append(entry("a:2:once:/bin/a")).unwrap();
    table.append(entry("b:2:once:/bin/b")).unwrap();
    assert!(table.append(entry("a:2:once:/bin/c")).is_err());
    assert_eq!(ids(&table), vec!["a", "b"]);
    assert!(table.get(2).is_none());
}

#[test]
fn reload_stages_marks_and_appends() {
    let mut table = ProcessTable::new();
    let mut keep = entry("keep:2:respawn:/bin/old");
    keep.pid = 10;
    keep.flags.insert(ChildFlags::RUNNING);
    let mut drop = entry("drop:2:respawn:/bin/gone");
    drop.pid = 11;
    drop.flags.insert(ChildFlags::RUNNING);
    table.append(keep).unwrap();
    table.append(drop).unwrap();

    let defs = vec![entry("keep:23:respawn:/bin/new"), entry("new:3:once:/bin/fresh")];
    table.diff_reload(&defs);

    assert_eq!(ids(&table), vec!["keep", "drop", "new"]);
    let keep = table.lookup_by_id("keep").unwrap();
    assert_eq!(keep.pid, 10);
    assert_eq!(keep.process, "/bin/old");
    assert!(!keep.flags.contains(ChildFlags::KILLME));
    let shadow = keep.shadow.as_ref().unwrap();
    assert_eq!(shadow.rlevel, "23");
    assert_eq!(shadow.process, "/bin/new");
    assert_eq!(shadow.action, InitAction::Respawn);

    let drop = table.lookup_by_id("drop").unwrap();
    assert_eq!(drop.pid, 11);
    assert!(drop.flags.contains(ChildFlags::KILLME));
    assert!(drop.flags.contains(ChildFlags::RUNNING));
    assert!(drop.shadow.is_none());

    let new = table.lookup_by_id("new").unwrap();
    assert_eq!(new.pid, 0);
    assert_eq!(new.flags, ChildFlags::empty());
    assert_eq!(new.process, "/bin/fresh");
    assert_eq!(new.tm, 100);
    assert!(new.shadow.is_none());
}

#[test]
fn reloads_never_give_an_id_two_entries() {
    let mut table = ProcessTable::new();
    let mut co = entry("co:2345:respawn:/sbin/agetty tty1");
    co.pid = 77;
    co.flags.insert(ChildFlags::RUNNING);
    table.append(co).unwrap();
    for round in 0..5 {
        let defs = vec![
            entry("co:2345:respawn:/sbin/agetty tty1"),
            entry("co:2345:respawn:/sbin/agetty tty2"),
            entry(&format!("x{}:3:once:/bin/x", round)),
            entry("co:2:respawn:/sbin/agetty tty3"),
        ];
        table.diff_reload(&defs);
        let all = ids(&table);
        let mut sorted = all.clone();
        sorted.sort();
        sorted.dedup();
        assert_eq!(sorted.len(), all.len());
        assert_eq!(all.iter().filter(|id| id.as_str() == "co").count(), 1);
        assert_eq!(table.lookup_by_id("co").unwrap().pid, 77);
    }
    // The last definition of a repeated id is the one that is staged.
    let co = table.lookup_by_id("co").unwrap();
    assert_eq!(co.shadow.as_ref().unwrap().process, "/sbin/agetty tty3");
}

#[test]
fn a_new_id_named_twice_is_added_once_with_the_second_as_shadow() {
    let mut table = ProcessTable::new();
    let defs = vec![entry("n:2:once:/bin/first"), entry("n:3:wait:/bin/second")];
    table.diff_reload(&defs);
    assert_eq!(ids(&table), vec!["n"]);
    let n = table.lookup_by_id("n").unwrap();
    assert_eq!(n.process, "/bin/first");
    assert_eq!(n.shadow.as_ref().unwrap().process, "/bin/second");
}

#[test]
fn a_later_reload_takes_the_kill_mark_back() {
    let mut table = ProcessTable::new();
    table.append(entry("a:2:respawn:/bin/a")).unwrap();
    table.diff_reload(&vec![]);
    assert!(table.lookup_by_id("a").unwrap().flags.contains(ChildFlags::KILLME));
    table.diff_reload(&vec![entry("a:2:respawn:/bin/a2")]);
    assert!(!table.lookup_by_id("a").unwrap().flags.contains(ChildFlags::KILLME));
}

#[test]
fn promotion_waits_for_processes_that_run_to_completion() {
    let mut table = ProcessTable::new();
    let mut wait = entry("w:2:wait:/bin/w-old");
    wait.pid = 5;
    wait.flags.insert(ChildFlags::RUNNING);
    let mut respawn = entry("r:2:respawn:/bin/r-old");
    respawn.pid = 6;
    respawn.flags.insert(ChildFlags::RUNNING);
    let idle_once = entry("o:2:once:/bin/o-old");
    table.append(wait).unwrap();
    table.append(respawn).unwrap();
    table.append(idle_once).unwrap();
    table.diff_reload(&vec![
        entry("w:3:wait:/bin/w-new"),
        entry("r:3:respawn:/bin/r-new"),
        entry("o:3:boot:/bin/o-new"),
    ]);
    table.promote_shadows();

    let w = table.lookup_by_id("w").unwrap();
    assert_eq!(w.process, "/bin/w-old");
    assert_eq!(w.rlevel, "2");
    assert!(w.shadow.is_some());

    let r = table.lookup_by_id("r").unwrap();
    assert_eq!(r.process, "/bin/r-new");
    assert_eq!(r.rlevel, "3");
    assert_eq!(r.pid, 6);
    assert!(r.shadow.is_none());

    let o = table.lookup_by_id("o").unwrap();
    assert_eq!(o.process, "/bin/o-new");
    assert_eq!(o.action, InitAction::Boot);
    assert!(o.shadow.is_none());
}

#[test]
fn retired_entries_leave_once_they_have_no_process() {
    let mut table = ProcessTable::new();
    let mut busy = entry("busy:2:respawn:/bin/busy");
    busy.pid = 9;
    busy.flags.insert(ChildFlags::RUNNING);
    table.append(entry("idle:2:once:/bin/idle")).unwrap();
    table.append(busy).unwrap();
    table.append(entry("stay:2:once:/bin/stay")).unwrap();
    table.diff_reload(&vec![entry("stay:2:once:/bin/stay")]);
    let removed = table.remove_retired();
    assert_eq!(removed, 1);
    assert_eq!(ids(&table), vec!["busy", "stay"]);
}

#[test]
fn emergency_shell_goes_in_like_any_entry() {
    let mut state = InitState::new();
    state.add_child(entry("a:2:once:/bin/a")).unwrap();
    assert!(state.enter_emergency(50));
    assert!(state.emerg_shell);
    assert_eq!(ids(&state.family), vec!["~~", "a"]);
    let shell = state.find_child_by_id("~~").unwrap();
    assert_eq!(shell.process, "/sbin/sulogin");
    assert_eq!(shell.tm, 50);
    // A second one finds the reserved id taken.
    assert!(!state.enter_emergency(51));
    assert_eq!(state.family.len(), 2);
}

#[test]
fn emergency_shell_is_due_on_any_of_three_grounds() {
    assert!(!emergency_shell_due(true, false, false));
    assert!(emergency_shell_due(false, false, false));
    assert!(emergency_shell_due(true, true, false));
    assert!(emergency_shell_due(true, false, true));
}
