use rye_init::child::{emergency_shell_at, poweroff_child_at, split_inittab_line};
use rye_init::{
    create_emergency_shell, create_poweroff_child, is_power_action, is_valid_runlevel,
    normalize_runlevel, Child, ChildFlags, InitAction, LogLevel,
};

#[test]
fn agetty_line_defines_a_respawn_entry() {
    let child = Child::from_inittab_line("co:2345:respawn:/sbin/agetty tty1").unwrap();
    assert_eq!(child.id, "co");
    assert_eq!(child.rlevel, "2345");
    assert_eq!(child.action, InitAction::Respawn);
    assert_eq!(child.process, "/sbin/agetty tty1");
    assert_eq!(child.pid, 0);
    assert_eq!(child.exstat, 0);
    assert_eq!(child.count, 0);
    assert_eq!(child.flags, ChildFlags::empty());
    assert!(child.shadow.is_none());
    assert!(child.should_run_at_level('2'));
    assert!(child.should_run_at_level('3'));
    assert!(child.should_run_at_level('4'));
    assert!(child.should_run_at_level('5'));
    assert!(!child.should_run_at_level('1'));
    assert!(!child.should_run_at_level('S'));
}

#[test]
fn parsed_line_carries_the_given_time() {
    let child = Child::parse_inittab_line("l3:3:wait:/etc/rc 3", 1234).unwrap();
    assert_eq!(child.tm, 1234);
    assert_eq!(child.action, InitAction::Wait);
}

#[test]
fn line_needs_exactly_four_fields() {
    assert!(Child::parse_inittab_line("", 0).is_none());
    assert!(Child::parse_inittab_line("co", 0).is_none());
    assert!(Child::parse_inittab_line("co:2345:respawn", 0).is_none());
    assert!(Child::parse_inittab_line("co:2345:respawn:/bin/sh:extra", 0).is_none());
    assert!(Child::parse_inittab_line(":::", 0).is_none());
}

#[test]
fn empty_id_runlevels_and_command_are_fields_too() {
    let child = Child::parse_inittab_line("::once:", 7).unwrap();
    assert_eq!(child.id, "");
    assert_eq!(child.rlevel, "");
    assert_eq!(child.process, "");
    assert_eq!(child.action, InitAction::Once);
}

#[test]
fn fields_are_held_to_their_limits() {
    assert!(Child::parse_inittab_line("12345678:2:once:/bin/true", 0).is_some());
    assert!(Child::parse_inittab_line("123456789:2:once:/bin/true", 0).is_none());
    assert!(Child::parse_inittab_line("a:0123456789AB:once:/bin/true", 0).is_some());
    assert!(Child::parse_inittab_line("a:0123456789ABC:once:/bin/true", 0).is_none());
    let fits = format!("a:2:once:{}", "x".repeat(512));
    let too_long = format!("a:2:once:{}", "x".repeat(513));
    assert!(Child::parse_inittab_line(&fits, 0).is_some());
    assert!(Child::parse_inittab_line(&too_long, 0).is_none());
}

#[test]
fn limits_count_bytes_not_characters() {
    // Four two-byte characters fill the eight bytes of an id.
    assert!(Child::parse_inittab_line("éééé:2:once:/bin/true", 0).is_some());
    assert!(Child::parse_inittab_line("ééééa:2:once:/bin/true", 0).is_none());
}

#[test]
fn unknown_action_defines_nothing() {
    assert!(Child::parse_inittab_line("co:2345:restart:/sbin/agetty", 0).is_none());
    assert!(Child::parse_inittab_line("co:2345::/sbin/agetty", 0).is_none());
}

#[test]
fn action_keywords_are_read_in_any_case() {
    assert_eq!(InitAction::from_str("respawn"), Some(InitAction::Respawn));
    assert_eq!(InitAction::from_str("RESPAWN"), Some(InitAction::Respawn));
    assert_eq!(InitAction::from_str("BootWait"), Some(InitAction::BootWait));
    assert_eq!(InitAction::from_str("wait"), Some(InitAction::Wait));
    assert_eq!(InitAction::from_str("once"), Some(InitAction::Once));
    assert_eq!(InitAction::from_str("boot"), Some(InitAction::Boot));
    assert_eq!(InitAction::from_str("powerfail"), Some(InitAction::PowerFail));
    assert_eq!(InitAction::from_str("powerwait"), Some(InitAction::PowerWait));
    assert_eq!(InitAction::from_str("powerokwait"), Some(InitAction::PowerOkWait));
    assert_eq!(InitAction::from_str("ctrlaltdel"), Some(InitAction::CtrlAltDel));
    assert_eq!(InitAction::from_str("off"), Some(InitAction::Off));
    assert_eq!(InitAction::from_str("ondemand"), Some(InitAction::OnDemand));
    assert_eq!(InitAction::from_str("initdefault"), Some(InitAction::InitDefault));
    assert_eq!(InitAction::from_str("sysinit"), Some(InitAction::SysInit));
    assert_eq!(InitAction::from_str("powerfailnow"), Some(InitAction::PowerFailNow));
    assert_eq!(InitAction::from_str("kbrequest"), Some(InitAction::KbRequest));
    assert_eq!(InitAction::from_str(""), None);
    assert_eq!(InitAction::from_str("respawn "), None);
}

#[test]
fn exact_keywords_are_lower_case_only() {
    assert_eq!(InitAction::from_keyword("respawn"), Some(InitAction::Respawn));
    assert_eq!(InitAction::from_keyword("Respawn"), None);
    assert_eq!(InitAction::from_keyword("kbrequest"), Some(InitAction::KbRequest));
}

#[test]
fn every_action_has_its_keyword_and_number() {
    let all = [
        InitAction::Respawn,
        InitAction::Wait,
        InitAction::Once,
        InitAction::Boot,
        InitAction::BootWait,
        InitAction::PowerFail,
        InitAction::PowerWait,
        InitAction::PowerOkWait,
        InitAction::CtrlAltDel,
        InitAction::Off,
        InitAction::OnDemand,
        InitAction::InitDefault,
        InitAction::SysInit,
        InitAction::PowerFailNow,
        InitAction::KbRequest,
    ];
    let mut number = 1;
    for action in all {
        assert_eq!(action.code(), number);
        assert_eq!(InitAction::from_keyword(action.keyword()), Some(action));
        number += 1;
    }
    assert_eq!(LogLevel::Console.code(), 1);
    assert_eq!(LogLevel::Syslog.code(), 2);
    assert_eq!(LogLevel::Verbose.code(), 3);
}

#[test]
fn power_actions_are_the_four_power_events_and_ctrlaltdel() {
    assert!(is_power_action(InitAction::PowerWait));
    assert!(is_power_action(InitAction::PowerFail));
    assert!(is_power_action(InitAction::PowerOkWait));
    assert!(is_power_action(InitAction::PowerFailNow));
    assert!(is_power_action(InitAction::CtrlAltDel));
    assert!(!is_power_action(InitAction::Respawn));
    assert!(!is_power_action(InitAction::KbRequest));
    assert!(!is_power_action(InitAction::Off));
}

#[test]
fn runlevels_are_validated_and_normalised() {
    for c in ['0', '1', '2', '3', '4', '5', '6', 'S', 's', 'A', 'B', 'C', 'a', 'b', 'c'] {
        assert!(is_valid_runlevel(c));
    }
    for c in ['7', '9', 'D', 'd', 'N', 'x', ' ', '\n'] {
        assert!(!is_valid_runlevel(c));
    }
    assert_eq!(normalize_runlevel('s'), 'S');
    assert_eq!(normalize_runlevel('a'), 'A');
    assert_eq!(normalize_runlevel('b'), 'B');
    assert_eq!(normalize_runlevel('c'), 'C');
    assert_eq!(normalize_runlevel('S'), 'S');
    assert_eq!(normalize_runlevel('3'), '3');
    assert_eq!(normalize_runlevel('x'), 'x');
}

#[test]
fn new_entry_is_blank_and_runs_once() {
    let child = Child::new();
    assert_eq!(child.id, "");
    assert_eq!(child.rlevel, "");
    assert_eq!(child.process, "");
    assert_eq!(child.action, InitAction::Once);
    assert_eq!(child.pid, 0);
    assert_eq!(child.flags, ChildFlags::empty());
    let stamped = Child::with_time(99);
    assert_eq!(stamped.tm, 99);
}

#[test]
fn flag_marks_on_an_entry() {
    let mut child = Child::with_time(0);
    assert!(!child.is_running());
    assert!(!child.is_failing());
    child.mark_running();
    assert!(child.is_running());
    assert_eq!(child.flags.bits(), 2);
    child.mark_executed();
    assert_eq!(child.flags.bits(), 2 | 128);
    child.mark_zombie();
    assert!(!child.is_running());
    assert_eq!(child.flags.bits(), 64 | 128);
    child.flags.insert(ChildFlags::FAILING);
    assert!(child.is_failing());
}

#[test]
fn flag_sets_behave_like_bit_sets() {
    let mut flags = ChildFlags::empty();
    assert!(flags.is_empty());
    assert_eq!(ChildFlags::RUNNING, 2);
    assert_eq!(ChildFlags::KILLME, 4);
    assert_eq!(ChildFlags::DEMAND, 8);
    assert_eq!(ChildFlags::FAILING, 16);
    assert_eq!(ChildFlags::WAITING, 32);
    assert_eq!(ChildFlags::ZOMBIE, 64);
    assert_eq!(ChildFlags::XECUTED, 128);
    flags.insert(ChildFlags::RUNNING);
    flags.insert(ChildFlags::WAITING);
    assert!(flags.contains(ChildFlags::RUNNING));
    assert!(flags.contains(ChildFlags::RUNNING | ChildFlags::WAITING));
    assert!(!flags.contains(ChildFlags::RUNNING | ChildFlags::ZOMBIE));
    flags.remove(ChildFlags::RUNNING);
    assert_eq!(flags.bits(), 32);
    assert_eq!(ChildFlags::from_bits_retain(1).bits(), 1);
}

#[test]
fn emergency_shell_is_a_waiting_single_user_entry() {
    let shell = emergency_shell_at(5);
    assert_eq!(shell.id, "~~");
    assert_eq!(shell.rlevel, "S");
    assert_eq!(shell.action, InitAction::Once);
    assert_eq!(shell.process, "/sbin/sulogin");
    assert_eq!(shell.flags.bits(), ChildFlags::WAITING);
    assert_eq!(shell.pid, 0);
    assert_eq!(shell.tm, 5);
    let now = create_emergency_shell();
    assert_eq!(now.id, "~~");
    assert_eq!(now.process, "/sbin/sulogin");
}

#[test]
fn poweroff_entry_shuts_the_machine_down() {
    let off = poweroff_child_at(5);
    assert_eq!(off.id, "~~");
    assert_eq!(off.rlevel, "S");
    assert_eq!(off.action, InitAction::Once);
    assert_eq!(off.process, "/sbin/shutdown -hP now");
    assert_eq!(off.flags, ChildFlags::empty());
    let now = create_poweroff_child();
    assert_eq!(now.process, "/sbin/shutdown -hP now");
}

#[test]
fn a_line_is_cut_at_its_three_colons() {
    let fields = split_inittab_line("co:2345:Respawn:/sbin/agetty -L tty1").unwrap();
    assert_eq!(fields.id, "co");
    assert_eq!(fields.rlevel, "2345");
    assert_eq!(fields.action, "Respawn");
    assert_eq!(fields.process, "/sbin/agetty -L tty1");
    assert!(split_inittab_line("co:2345:respawn").is_none());
    assert!(split_inittab_line("a:b:c:d:e").is_none());
    // Cutting does not ask whether the action is known.
    let odd = split_inittab_line("x:y:nonsense:z").unwrap();
    assert_eq!(odd.action, "nonsense");
    let child = Child::from_fields(odd, InitAction::Off, 3);
    assert_eq!(child.id, "x");
    assert_eq!(child.rlevel, "y");
    assert_eq!(child.process, "z");
    assert_eq!(child.action, InitAction::Off);
    assert_eq!(child.tm, 3);
}

#[test]
fn the_action_field_has_its_own_limit() {
    let fits = format!("a:2:{}:/bin/true", "x".repeat(33));
    let too_long = format!("a:2:{}:/bin/true", "x".repeat(34));
    assert!(split_inittab_line(&fits).is_some());
    assert!(split_inittab_line(&too_long).is_none());
}
