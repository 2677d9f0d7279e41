use rye_init::failsafe::respawn_update;
use rye_init::{
    check_respawn, Child, ChildFlags, RespawnDecision, MAXSPAWN, SLEEPTIME, TESTTIME,
};

fn getty(now: u64) -> Child {
    Child::parse_inittab_line("co:2345:respawn:/sbin/agetty tty1", now).unwrap()
}

#[test]
fn failsafe_constants() {
    assert_eq!(MAXSPAWN, 10);
    assert_eq!(TESTTIME, 120);
    assert_eq!(SLEEPTIME, 300);
}

#[test]
fn eleventh_respawn_in_the_window_disables_the_entry() {
    let mut child = getty(1000);
    for n in 1..=10u32 {
        let decision = check_respawn(&mut child, 1000 + n as u64);
        assert_eq!(decision, RespawnDecision::Spawn);
        assert_eq!(child.count, n);
        assert!(!child.is_failing());
        assert_eq!(child.tm, 1000);
    }
    let decision = check_respawn(&mut child, 1011);
    assert_eq!(decision, RespawnDecision::Disabled { retry_at: 1311 });
    assert!(child.is_failing());
    assert_eq!(child.count, 11);
    assert_eq!(child.tm, 1011);
}

#[test]
fn disabled_entry_stays_so_for_three_hundred_seconds() {
    let mut child = getty(1000);
    for n in 1..=11 {
        check_respawn(&mut child, 1000 + n);
    }
    assert!(child.is_failing());
    for later in [1011, 1012, 1100, 1310] {
        let decision = check_respawn(&mut child, later);
        assert_eq!(decision, RespawnDecision::Suppressed { retry_at: 1311 });
        assert!(child.is_failing());
        assert_eq!(child.count, 11);
        assert_eq!(child.tm, 1011);
    }
    let decision = check_respawn(&mut child, 1311);
    assert_eq!(decision, RespawnDecision::Spawn);
    assert!(!child.is_failing());
    assert_eq!(child.count, 1);
    assert_eq!(child.tm, 1311);
}

#[test]
fn twelve_restarts_in_a_minute_stop_before_the_thirteenth_spawn() {
    // The entry as the inittab defines it, spawned on the way to runlevel 2
    // and then restarted every five seconds.
    let mut child = getty(5000);
    let mut spawns = 0;
    for n in 0..13u64 {
        match check_respawn(&mut child, 5000 + 5 * n) {
            RespawnDecision::Spawn => spawns += 1,
            _ => {},
        }
    }
    assert!(child.is_failing());
    assert_eq!(spawns, 10);
    // Nothing is spawned before the cooldown is over.
    let disabled_at = child.tm;
    assert_eq!(
        check_respawn(&mut child, disabled_at + 299),
        RespawnDecision::Suppressed { retry_at: disabled_at + 300 }
    );
    assert_eq!(check_respawn(&mut child, disabled_at + 300), RespawnDecision::Spawn);
}

#[test]
fn a_respawn_after_the_window_starts_a_new_count() {
    let mut child = getty(1000);
    for n in 1..=9 {
        check_respawn(&mut child, 1000 + n);
    }
    assert_eq!(child.count, 9);
    assert_eq!(check_respawn(&mut child, 1119), RespawnDecision::Spawn);
    assert_eq!(child.count, 10);
    assert_eq!(check_respawn(&mut child, 1120), RespawnDecision::Spawn);
    assert_eq!(child.count, 1);
    assert_eq!(child.tm, 1120);
}

#[test]
fn a_clock_that_went_back_counts_as_inside_the_window() {
    let mut child = getty(1000);
    assert_eq!(check_respawn(&mut child, 500), RespawnDecision::Spawn);
    assert_eq!(child.count, 1);
    assert_eq!(child.tm, 1000);
}

#[test]
fn respawn_count_does_not_wrap() {
    let (flags, tm, count, decision) =
        respawn_update(ChildFlags::empty(), 10, u32::MAX, 11);
    assert_eq!(count, u32::MAX);
    assert_eq!(tm, 11);
    assert!(flags.contains(ChildFlags::FAILING));
    assert_eq!(decision, RespawnDecision::Disabled { retry_at: 311 });
}

#[test]
fn retry_time_stops_at_the_end_of_time() {
    let (_, _, _, decision) = respawn_update(ChildFlags::empty(), u64::MAX, 10, u64::MAX);
    assert_eq!(decision, RespawnDecision::Disabled { retry_at: u64::MAX });
}

#[test]
fn count_follows_the_respawns_up_to_the_eleventh() {
    let mut child = getty(1000);
    for n in 1..=15u32 {
        let decision = check_respawn(&mut child, 1000 + n as u64);
        assert_eq!(child.count, n.min(11));
        assert_eq!(child.is_failing(), n > 10);
        match n {
            1..=10 => assert_eq!(decision, RespawnDecision::Spawn),
            11 => assert_eq!(decision, RespawnDecision::Disabled { retry_at: 1311 }),
            _ => assert_eq!(decision, RespawnDecision::Suppressed { retry_at: 1311 }),
        }
    }
}
