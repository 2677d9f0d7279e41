use rye_init::signals::{accept_request, target_level, Request};
use rye_init::{
    clear_got_cont, clear_got_signals, got_cont, got_signals, set_got_cont, set_got_signals,
    Dispatch, Signal, SignalFlags,
};

#[test]
fn continue_flag_is_set_read_and_cleared() {
    let mut flags = SignalFlags::new();
    assert!(!got_cont(&flags));
    set_got_cont(&mut flags);
    assert!(got_cont(&flags));
    assert!(!got_signals(&flags));
    clear_got_cont(&mut flags);
    assert!(!got_cont(&flags));
}

#[test]
fn signal_flag_is_set_read_and_cleared() {
    let mut flags = SignalFlags::new();
    assert!(!got_signals(&flags));
    set_got_signals(&mut flags);
    assert!(got_signals(&flags));
    assert!(!got_cont(&flags));
    clear_got_signals(&mut flags);
    assert!(!got_signals(&flags));
}

#[test]
fn each_signal_sets_its_own_flag() {
    let cases = [
        (Signal::Child, Dispatch::DrainReaps),
        (Signal::Hangup, Dispatch::Reload),
        (Signal::Interrupt, Dispatch::CtrlAltDel),
        (Signal::WindowChange, Dispatch::KbRequest),
        (Signal::Continue, Dispatch::Resume),
        (Signal::HaltRequest, Dispatch::Halt),
        (Signal::RebootRequest, Dispatch::Reboot),
    ];
    for (signal, action) in cases {
        let mut flags = SignalFlags::new();
        flags.record(signal);
        assert!(got_signals(&flags));
        assert_eq!(flags.poll(), vec![action]);
        assert_eq!(flags, SignalFlags::new());
    }
}

#[test]
fn terminal_signals_are_ignored() {
    let mut flags = SignalFlags::new();
    flags.record(Signal::TerminalStop);
    flags.record(Signal::TerminalInput);
    assert_eq!(flags, SignalFlags::new());
    assert!(flags.poll().is_empty());
}

#[test]
fn poll_dispatches_in_a_fixed_order_and_only_once() {
    let mut flags = SignalFlags::new();
    flags.record(Signal::RebootRequest);
    flags.record(Signal::HaltRequest);
    flags.record(Signal::WindowChange);
    flags.record(Signal::Interrupt);
    flags.record(Signal::Hangup);
    flags.record(Signal::Child);
    flags.record(Signal::Child);
    flags.record(Signal::Continue);
    assert_eq!(
        flags.poll(),
        vec![
            Dispatch::Resume,
            Dispatch::DrainReaps,
            Dispatch::Reload,
            Dispatch::CtrlAltDel,
            Dispatch::KbRequest,
            Dispatch::Halt,
            Dispatch::Reboot,
        ]
    );
    assert!(flags.poll().is_empty());
    assert!(!got_signals(&flags));
    assert!(!got_cont(&flags));
}

#[test]
fn requests_from_the_control_channel() {
    let mut flags = SignalFlags::new();
    assert_eq!(accept_request(&mut flags, Request::Runlevel('3')), Some('3'));
    assert_eq!(accept_request(&mut flags, Request::Runlevel('s')), Some('S'));
    assert_eq!(accept_request(&mut flags, Request::Runlevel('b')), Some('B'));
    assert_eq!(accept_request(&mut flags, Request::Runlevel('7')), None);
    assert_eq!(accept_request(&mut flags, Request::Runlevel('x')), None);
    assert_eq!(flags, SignalFlags::new());
    assert_eq!(accept_request(&mut flags, Request::Halt), None);
    assert_eq!(accept_request(&mut flags, Request::CtrlAltDel), None);
    assert_eq!(accept_request(&mut flags, Request::KbRequest), None);
    assert_eq!(
        flags.poll(),
        vec![Dispatch::CtrlAltDel, Dispatch::KbRequest, Dispatch::Halt]
    );
    assert_eq!(accept_request(&mut flags, Request::Reboot), None);
    assert_eq!(flags.poll(), vec![Dispatch::Reboot]);
    assert_eq!(target_level(Dispatch::Halt), Some('0'));
    assert_eq!(target_level(Dispatch::Reboot), Some('6'));
    assert_eq!(target_level(Dispatch::Reload), None);
    assert_eq!(target_level(Dispatch::DrainReaps), None);
}
