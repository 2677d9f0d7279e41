//! Signal routing: what a delivered signal leaves behind for the main loop,
//! and what the main loop makes of it.
//!
//! The handlers themselves run outside this library and touch nothing but
//! their own flag. This module holds the copy of the flags that the main loop
//! owns.

use vstd::prelude::*;

verus! {

/// A signal or request that reaches the supervisor.
#[derive(Clone, Copy, Debug, PartialEq, Eq, Structural)]
pub enum Signal {
    /// SIGCHLD: a child has changed state.
    Child,
    /// SIGHUP: the inittab is to be read again.
    Hangup,
    /// SIGINT: the three-finger salute.
    Interrupt,
    /// SIGWINCH: the keyboard request.
    WindowChange,
    /// SIGCONT: the supervisor was stopped and goes on.
    Continue,
    /// SIGTSTP: ignored.
    TerminalStop,
    /// SIGTTIN: ignored.
    TerminalInput,
    /// A request to halt.
    HaltRequest,
    /// A request to reboot.
    RebootRequest,
}

/// What the main loop does for a pending flag.
#[derive(Clone, Copy, Debug, PartialEq, Eq, Structural)]
pub enum Dispatch {
    /// Go on after a stop; nothing else woke the loop.
    Resume,
    /// Collect every child that has exited.
    DrainReaps,
    /// Read the inittab again and bring the table in line.
    Reload,
    /// Run the entries of the `ctrlaltdel` class.
    CtrlAltDel,
    /// Run the entries of the `kbrequest` class.
    KbRequest,
    /// Go to the halt level.
    Halt,
    /// Go to the reboot level.
    Reboot,
}

/// The pending flags, one for each thing the main loop may have to do.
#[derive(Clone, Copy, Debug, PartialEq, Eq, Structural)]
pub struct SignalFlags {
    /// The supervisor was continued after a stop.
    pub got_cont: bool,
    /// Some signal has come since the flag was cleared last.
    pub got_signals: bool,
    /// Children wait to be reaped.
    pub reap: bool,
    /// The inittab is to be read again.
    pub reload: bool,
    /// The three-finger salute was given.
    pub ctrlaltdel: bool,
    /// The keyboard request was made.
    pub kbrequest: bool,
    /// A halt was asked for.
    pub halt: bool,
    /// A reboot was asked for.
    pub reboot: bool,
}

/// No flag set.
pub open spec fn no_flags() -> SignalFlags {
    SignalFlags {
        got_cont: false,
        got_signals: false,
        reap: false,
        reload: false,
        ctrlaltdel: false,
        kbrequest: false,
        halt: false,
        reboot: false,
    }
}

/// The flags after `signal` was delivered: the flag of the signal is set, and
/// with it the flag that says that a signal has come. The two terminal
/// signals leave everything as it is.
pub open spec fn delivered(flags: SignalFlags, signal: Signal) -> SignalFlags {
    match signal {
        Signal::Child => SignalFlags { reap: true, got_signals: true, ..flags },
        Signal::Hangup => SignalFlags { reload: true, got_signals: true, ..flags },
        Signal::Interrupt => SignalFlags { ctrlaltdel: true, got_signals: true, ..flags },
        Signal::WindowChange => SignalFlags { kbrequest: true, got_signals: true, ..flags },
        Signal::Continue => SignalFlags { got_cont: true, got_signals: true, ..flags },
        Signal::HaltRequest => SignalFlags { halt: true, got_signals: true, ..flags },
        Signal::RebootRequest => SignalFlags { reboot: true, got_signals: true, ..flags },
        Signal::TerminalStop => flags,
        Signal::TerminalInput => flags,
    }
}

/// `actions` with `action` at its end if `pending`, and as it is if not.
pub open spec fn then_when(actions: Seq<Dispatch>, pending: bool, action: Dispatch) -> Seq<
    Dispatch,
> {
    if pending {
        actions.push(action)
    } else {
        actions
    }
}

/// What the main loop has to do before it looks at requests for a runlevel:
/// go on after a stop, reap, reload.
pub open spec fn pending_upkeep(flags: SignalFlags) -> Seq<Dispatch> {
    then_when(
        then_when(
            then_when(Seq::<Dispatch>::empty(), flags.got_cont, Dispatch::Resume),
            flags.reap,
            Dispatch::DrainReaps,
        ),
        flags.reload,
        Dispatch::Reload,
    )
}

/// What the main loop has to do for the keyboard: the three-finger salute
/// and the keyboard request, after the upkeep.
pub open spec fn pending_keys(flags: SignalFlags) -> Seq<Dispatch> {
    then_when(
        then_when(pending_upkeep(flags), flags.ctrlaltdel, Dispatch::CtrlAltDel),
        flags.kbrequest,
        Dispatch::KbRequest,
    )
}

/// What the main loop has to do for `flags`, in the order in which it does
/// it: reaps come before anything that changes the runlevel, and halt and
/// reboot come last.
pub open spec fn pending_actions(flags: SignalFlags) -> Seq<Dispatch> {
    then_when(then_when(pending_keys(flags), flags.halt, Dispatch::Halt), flags.reboot, Dispatch::Reboot)
}

/// Whether the flag that `action` answers is set.
pub open spec fn is_pending(flags: SignalFlags, action: Dispatch) -> bool {
    match action {
        Dispatch::Resume => flags.got_cont,
        Dispatch::DrainReaps => flags.reap,
        Dispatch::Reload => flags.reload,
        Dispatch::CtrlAltDel => flags.ctrlaltdel,
        Dispatch::KbRequest => flags.kbrequest,
        Dispatch::Halt => flags.halt,
        Dispatch::Reboot => flags.reboot,
    }
}

/// What `then_when` holds: what was there, and the action if it is pending.
pub proof fn lemma_then_when(actions: Seq<Dispatch>, pending: bool, action: Dispatch, x: Dispatch)
    ensures
        then_when(actions, pending, action).contains(x) <==> actions.contains(x) || (pending && x
            == action),
{
    let after = then_when(actions, pending, action);
    if actions.contains(x) {
        let i = choose|i: int| 0 <= i < actions.len() && actions[i] == x;
        assert(after[i] == x);
    }
    if pending && x == action {
        assert(after[actions.len() as int] == x);
    }
    if after.contains(x) {
        let i = choose|i: int| 0 <= i < after.len() && after[i] == x;
        if i < actions.len() {
            assert(actions[i] == x);
        }
    }
}

/// An action is dispatched exactly if its flag is set.
pub proof fn lemma_dispatched_iff_pending(flags: SignalFlags, action: Dispatch)
    ensures
        pending_actions(flags).contains(action) <==> is_pending(flags, action),
{
    let e = Seq::<Dispatch>::empty();
    let s1 = then_when(e, flags.got_cont, Dispatch::Resume);
    let s2 = then_when(s1, flags.reap, Dispatch::DrainReaps);
    let s3 = then_when(s2, flags.reload, Dispatch::Reload);
    let s4 = then_when(s3, flags.ctrlaltdel, Dispatch::CtrlAltDel);
    let s5 = then_when(s4, flags.kbrequest, Dispatch::KbRequest);
    let s6 = then_when(s5, flags.halt, Dispatch::Halt);
    assert(!e.contains(action));
    lemma_then_when(e, flags.got_cont, Dispatch::Resume, action);
    lemma_then_when(s1, flags.reap, Dispatch::DrainReaps, action);
    lemma_then_when(s2, flags.reload, Dispatch::Reload, action);
    lemma_then_when(s3, flags.ctrlaltdel, Dispatch::CtrlAltDel, action);
    lemma_then_when(s4, flags.kbrequest, Dispatch::KbRequest, action);
    lemma_then_when(s5, flags.halt, Dispatch::Halt, action);
    lemma_then_when(s6, flags.reboot, Dispatch::Reboot, action);
}

/// Notes that the supervisor was continued after a stop.
pub fn set_got_cont(flags: &mut SignalFlags)
    ensures
        *final(flags) == (SignalFlags { got_cont: true, ..*old(flags) }),
{
    flags.got_cont = true;
}

/// Whether the supervisor was continued after a stop.
pub fn got_cont(flags: &SignalFlags) -> (res: bool)
    ensures
        res == flags.got_cont,
{
    flags.got_cont
}

/// Forgets that the supervisor was continued.
pub fn clear_got_cont(flags: &mut SignalFlags)
    ensures
        *final(flags) == (SignalFlags { got_cont: false, ..*old(flags) }),
{
    flags.got_cont = false;
}

/// Notes that a signal has come.
pub fn set_got_signals(flags: &mut SignalFlags)
    ensures
        *final(flags) == (SignalFlags { got_signals: true, ..*old(flags) }),
{
    flags.got_signals = true;
}

/// Whether a signal has come since the flag was cleared last.
pub fn got_signals(flags: &SignalFlags) -> (res: bool)
    ensures
        res == flags.got_signals,
{
    flags.got_signals
}

/// Forgets that a signal has come.
pub fn clear_got_signals(flags: &mut SignalFlags)
    ensures
        *final(flags) == (SignalFlags { got_signals: false, ..*old(flags) }),
{
    flags.got_signals = false;
}

impl SignalFlags {
    /// No flag set.
    pub fn new() -> (res: Self)
        ensures
            res == no_flags(),
    {
        SignalFlags {
            got_cont: false,
            got_signals: false,
            reap: false,
            reload: false,
            ctrlaltdel: false,
            kbrequest: false,
            halt: false,
            reboot: false,
        }
    }

    /// Records the delivery of `signal`.
    pub fn record(&mut self, signal: Signal)
        ensures
            *final(self) == delivered(*old(self), signal),
    {
        match signal {
            Signal::Child => {
                self.reap = true;
                self.got_signals = true;
            },
            Signal::Hangup => {
                self.reload = true;
                self.got_signals = true;
            },
            Signal::Interrupt => {
                self.ctrlaltdel = true;
                self.got_signals = true;
            },
            Signal::WindowChange => {
                self.kbrequest = true;
                self.got_signals = true;
            },
            Signal::Continue => {
                self.got_cont = true;
                self.got_signals = true;
            },
            Signal::HaltRequest => {
                self.halt = true;
                self.got_signals = true;
            },
            Signal::RebootRequest => {
                self.reboot = true;
                self.got_signals = true;
            },
            Signal::TerminalStop => {},
            Signal::TerminalInput => {},
        }
    }

    /// Takes every pending flag and says what the main loop has to do for
    /// them, in order. Every flag is clear afterwards, so that nothing is
    /// dispatched twice.
    pub fn poll(&mut self) -> (res: Vec<Dispatch>)
        ensures
            res@ == pending_actions(*old(self)),
            *final(self) == no_flags(),
    {
        let mut out: Vec<Dispatch> = Vec::new();
        if self.got_cont {
            out.push(Dispatch::Resume);
        }
        if self.reap {
            out.push(Dispatch::DrainReaps);
        }
        if self.reload {
            out.push(Dispatch::Reload);
        }
        assert(out@ == pending_upkeep(*self));
        if self.ctrlaltdel {
            out.push(Dispatch::CtrlAltDel);
        }
        if self.kbrequest {
            out.push(Dispatch::KbRequest);
        }
        assert(out@ == pending_keys(*self));
        if self.halt {
            out.push(Dispatch::Halt);
        }
        if self.reboot {
            out.push(Dispatch::Reboot);
        }
        assert(out@ == pending_actions(*self));
        self.got_cont = false;
        self.got_signals = false;
        self.reap = false;
        self.reload = false;
        self.ctrlaltdel = false;
        self.kbrequest = false;
        self.halt = false;
        self.reboot = false;
        out
    }
}

/// Nothing is pending once the flags were polled: a second poll dispatches
/// nothing.
pub proof fn lemma_polled_flags_are_clear()
    ensures
        pending_actions(no_flags()) == Seq::<Dispatch>::empty(),
{
}

/// The action that answers `signal`, if the signal is not ignored.
pub open spec fn action_for(signal: Signal) -> Option<Dispatch> {
    match signal {
        Signal::Child => Some(Dispatch::DrainReaps),
        Signal::Hangup => Some(Dispatch::Reload),
        Signal::Interrupt => Some(Dispatch::CtrlAltDel),
        Signal::WindowChange => Some(Dispatch::KbRequest),
        Signal::Continue => Some(Dispatch::Resume),
        Signal::HaltRequest => Some(Dispatch::Halt),
        Signal::RebootRequest => Some(Dispatch::Reboot),
        Signal::TerminalStop => None,
        Signal::TerminalInput => None,
    }
}

/// A signal that came while nothing was pending is answered by its own
/// action and by nothing else; an ignored signal by nothing at all.
pub proof fn lemma_one_signal_one_action(signal: Signal)
    ensures
        pending_actions(delivered(no_flags(), signal)) == match action_for(signal) {
            Some(action) => seq![action],
            None => Seq::<Dispatch>::empty(),
        },
{
    let got = pending_actions(delivered(no_flags(), signal));
    match action_for(signal) {
        Some(action) => {
            assert(got =~= seq![action]);
        },
        None => {
            assert(got =~= Seq::<Dispatch>::empty());
        },
    }
}

/// A delivered signal stays pending until the next poll, whatever signal
/// follows it, and a delivery takes no pending action away.
pub proof fn lemma_delivery_is_kept(flags: SignalFlags, first: Signal, second: Signal, other: Dispatch)
    ensures
        action_for(first) matches Some(action) ==> pending_actions(
            delivered(delivered(flags, first), second),
        ).contains(action),
        pending_actions(flags).contains(other) ==> pending_actions(delivered(flags, first)).contains(
            other,
        ),
{
    lemma_dispatched_iff_pending(flags, other);
    lemma_dispatched_iff_pending(delivered(flags, first), other);
    match action_for(first) {
        Some(action) => {
            lemma_dispatched_iff_pending(delivered(delivered(flags, first), second), action);
        },
        None => {},
    }
}

/// A directive that comes over the control channel.
#[derive(Clone, Copy, Debug, PartialEq, Eq, Structural)]
pub enum Request {
    /// Change to the runlevel that the character names.
    Runlevel(char),
    /// Halt the machine.
    Halt,
    /// Reboot the machine.
    Reboot,
    /// Act as if the three-finger salute was given.
    CtrlAltDel,
    /// Act as if the keyboard request was made.
    KbRequest,
}

/// The signal that does what the request asks for, for the requests that
/// name no runlevel.
pub open spec fn request_signal(request: Request) -> Option<Signal> {
    match request {
        Request::Runlevel(_) => None,
        Request::Halt => Some(Signal::HaltRequest),
        Request::Reboot => Some(Signal::RebootRequest),
        Request::CtrlAltDel => Some(Signal::Interrupt),
        Request::KbRequest => Some(Signal::WindowChange),
    }
}

/// The runlevel that the request asks for, in upper case, if it names a
/// valid one.
pub open spec fn request_level(request: Request) -> Option<char> {
    match request {
        Request::Runlevel(c) => if crate::runlevel::spec_is_valid_runlevel(c) {
            Some(crate::runlevel::spec_normalize_runlevel(c))
        } else {
            None
        },
        _ => None,
    }
}

/// Takes a directive from the control channel. A request for halt, reboot,
/// the three-finger salute or the keyboard action becomes pending like the
/// signal that asks for the same. A request for a runlevel yields the level
/// to change to, if the character names one; a character that names none
/// is refused, and nothing changes.
pub fn accept_request(flags: &mut SignalFlags, request: Request) -> (res: Option<char>)
    ensures
        res == request_level(request),
        *final(flags) == match request_signal(request) {
            Some(signal) => delivered(*old(flags), signal),
            None => *old(flags),
        },
{
    match request {
        Request::Runlevel(c) => {
            if crate::runlevel::is_valid_runlevel(c) {
                Some(crate::runlevel::normalize_runlevel(c))
            } else {
                None
            }
        },
        Request::Halt => {
            flags.record(Signal::HaltRequest);
            None
        },
        Request::Reboot => {
            flags.record(Signal::RebootRequest);
            None
        },
        Request::CtrlAltDel => {
            flags.record(Signal::Interrupt);
            None
        },
        Request::KbRequest => {
            flags.record(Signal::WindowChange);
            None
        },
    }
}

/// The runlevel that the main loop changes to for `action`: `0` for a halt
/// and `6` for a reboot.
pub open spec fn spec_target_level(action: Dispatch) -> Option<char> {
    match action {
        Dispatch::Halt => Some('0'),
        Dispatch::Reboot => Some('6'),
        _ => None,
    }
}

/// The runlevel that the main loop changes to for `action`, if it changes
/// the runlevel at all.
pub fn target_level(action: Dispatch) -> (res: Option<char>)
    ensures
        res == spec_target_level(action),
{
    match action {
        Dispatch::Halt => Some('0'),
        Dispatch::Reboot => Some('6'),
        _ => None,
    }
}

} // verus!
