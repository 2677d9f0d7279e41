//! The state of the supervisor: the process table and the global settings.

use vstd::prelude::*;
use crate::child::{emergency_shell_at, emergency_shell_view, reserved_id, Child, ChildView};
use crate::table::{first_with_pid, has_id, has_pid, ids_unique, ProcessTable};

verus! {

/// Whether the runlevel may change while a process is waited for.
pub const CHANGE_WAIT: bool = false;

/// The pid of the first process.
pub const INITPID: i32 = 1;

/// Descriptor of the control channel.
pub const PIPE_FD: i32 = 10;

/// Descriptor that carries the state across a re-exec.
pub const STATE_PIPE: i32 = 11;

/// Seconds between the terminate signal and the kill signal, by default.
pub const WAIT_BETWEEN_SIGNALS: u64 = 3;

/// Shortest idle sleep, in milliseconds.
pub const MINI_SLEEP: u64 = 10;

/// Sleep before a failed allocation is tried again, in milliseconds.
pub const SHORT_SLEEP: u64 = 5000;

/// Longest idle sleep, in milliseconds.
pub const LONG_SLEEP: u64 = 30000;

/// Number of extra environment variables that children inherit.
pub const NR_EXTRA_ENV: usize = 16;

/// The program that a re-exec starts.
pub const INIT_PROGRAM: &'static str = "/sbin/init";

/// Version that the state stream announces.
pub const VERSION: &'static str = "0.1.0";

/// Search path that every child inherits.
pub const PATH_DEFAULT: &'static str = "/sbin:/usr/sbin:/bin:/usr/bin";

/// Signature that marks the descriptor of a re-exec.
pub const SIGNATURE: &'static str = "12567362";

/// Extra environment variables for the children.
#[derive(Debug)]
pub struct ExtraEnv {
    pub vars: [Option<String>; 16],
}

impl ExtraEnv {
    /// No variable set.
    pub fn new() -> (res: Self)
        ensures
            forall|i: int| 0 <= i < NR_EXTRA_ENV ==> res.vars@[i] is None,
    {
        ExtraEnv {
            vars: [
                None,
                None,
                None,
                None,
                None,
                None,
                None,
                None,
                None,
                None,
                None,
                None,
                None,
                None,
                None,
                None,
            ],
        }
    }
}

/// The supervisor's state.
#[derive(Debug)]
pub struct InitState {
    /// The supervised entries.
    pub family: ProcessTable,
    /// The definitions that were read again and wait for a reload.
    pub new_family: Vec<Child>,
    pub wrote_wtmp_reboot: bool,
    pub wrote_utmp_reboot: bool,
    pub wrote_wtmp_rlevel: bool,
    pub wrote_utmp_rlevel: bool,
    /// Current runlevel.
    pub curlevel: char,
    /// Previous runlevel, `N` while there was none.
    pub prevlevel: char,
    /// Default runlevel.
    pub dfl_level: char,
    /// Whether the rescue shell is to be started.
    pub emerg_shell: bool,
    /// Seconds between the terminate signal and the kill signal.
    pub sleep_time: u64,
    /// Console device.
    pub console_dev: Option<String>,
    /// Descriptor of the control channel, -1 while it is closed.
    pub pipe_fd: i32,
    /// Whether the boot entries have run.
    pub did_boot: bool,
    /// Whether a reload of the inittab is pending.
    pub reload: bool,
    /// The program that a re-exec starts.
    pub myname: String,
    /// Outcome of the last transfer of state, zero for success.
    pub oops_error: i32,
}

/// Whether two states agree in everything but the table.
pub open spec fn same_globals(before: InitState, after: InitState) -> bool {
    &&& after.new_family == before.new_family
    &&& after.wrote_wtmp_reboot == before.wrote_wtmp_reboot
    &&& after.wrote_utmp_reboot == before.wrote_utmp_reboot
    &&& after.wrote_wtmp_rlevel == before.wrote_wtmp_rlevel
    &&& after.wrote_utmp_rlevel == before.wrote_utmp_rlevel
    &&& after.curlevel == before.curlevel
    &&& after.prevlevel == before.prevlevel
    &&& after.dfl_level == before.dfl_level
    &&& after.emerg_shell == before.emerg_shell
    &&& after.sleep_time == before.sleep_time
    &&& after.console_dev == before.console_dev
    &&& after.pipe_fd == before.pipe_fd
    &&& after.did_boot == before.did_boot
    &&& after.reload == before.reload
    &&& after.myname == before.myname
    &&& after.oops_error == before.oops_error
}

impl InitState {
    /// The state at boot: an empty table, single-user mode, no previous
    /// runlevel, every log record considered written.
    pub fn new() -> (res: Self)
        ensures
            res.family@ == Seq::<ChildView>::empty(),
            res.new_family@.len() == 0,
            res.wrote_wtmp_reboot && res.wrote_utmp_reboot && res.wrote_wtmp_rlevel
                && res.wrote_utmp_rlevel,
            res.curlevel == 'S',
            res.prevlevel == 'N',
            res.dfl_level == '0',
            !res.emerg_shell,
            res.sleep_time == WAIT_BETWEEN_SIGNALS,
            res.console_dev is None,
            res.pipe_fd == -1,
            !res.did_boot,
            !res.reload,
            res.myname@ == INIT_PROGRAM@,
            res.oops_error == 0,
    {
        InitState {
            family: ProcessTable::new(),
            new_family: Vec::new(),
            wrote_wtmp_reboot: true,
            wrote_utmp_reboot: true,
            wrote_wtmp_rlevel: true,
            wrote_utmp_rlevel: true,
            curlevel: 'S',
            prevlevel: 'N',
            dfl_level: '0',
            emerg_shell: false,
            sleep_time: WAIT_BETWEEN_SIGNALS,
            console_dev: None,
            pipe_fd: -1,
            did_boot: false,
            reload: false,
            myname: INIT_PROGRAM.to_owned(),
            oops_error: 0,
        }
    }

    /// Puts `child` at the start of the table, or hands it back when its id
    /// is taken.
    pub fn add_child(&mut self, child: Child) -> (res: Result<(), Child>)
        ensures
            match res {
                Ok(_) => !has_id(old(self).family@, child@.id)
                    && final(self).family@ == old(self).family@.insert(0, child@),
                Err(back) => has_id(old(self).family@, child@.id) && back == child
                    && final(self).family@ == old(self).family@,
            },
            ids_unique(final(self).family@),
            same_globals(*old(self), *final(self)),
    {
        self.family.add(child)
    }

    /// The entry with the id `id`.
    pub fn find_child_by_id(&self, id: &str) -> (res: Option<&Child>)
        ensures
            match res {
                Some(child) => child@.id == id@ && self.family@.contains(child@),
                None => !has_id(self.family@, id@),
            },
    {
        self.family.lookup_by_id(id)
    }

    /// The first entry with the pid `pid`.
    pub fn find_child_by_pid(&self, pid: i32) -> (res: Option<&Child>)
        ensures
            match res {
                Some(child) => exists|k: int|
                    #![trigger first_with_pid(self.family@, pid, k)]
                    first_with_pid(self.family@, pid, k) && child@ == self.family@[k],
                None => !has_pid(self.family@, pid),
            },
    {
        self.family.lookup_by_pid(pid)
    }

    /// Takes the first entry with the pid `pid` out of the table; a pid that
    /// no entry has changes nothing.
    pub fn remove_child_by_pid(&mut self, pid: i32) -> (res: Option<Child>)
        ensures
            match res {
                Some(child) => exists|k: int|
                    #![trigger first_with_pid(old(self).family@, pid, k)]
                    first_with_pid(old(self).family@, pid, k) && child@ == old(self).family@[k]
                        && final(self).family@ == old(self).family@.remove(k),
                None => !has_pid(old(self).family@, pid) && final(self).family@ == old(self).family@,
            },
            ids_unique(final(self).family@),
            same_globals(*old(self), *final(self)),
    {
        self.family.remove_by_pid(pid)
    }
}

/// Whether the rescue shell is due: the inittab could not be read, an
/// initial boot entry failed, or the operator asked for single-user mode.
pub open spec fn spec_emergency_shell_due(
    inittab_readable: bool,
    boot_entry_failed: bool,
    single_user_forced: bool,
) -> bool {
    !inittab_readable || boot_entry_failed || single_user_forced
}

/// Whether the rescue shell is due.
pub fn emergency_shell_due(
    inittab_readable: bool,
    boot_entry_failed: bool,
    single_user_forced: bool,
) -> (res: bool)
    ensures
        res == spec_emergency_shell_due(inittab_readable, boot_entry_failed, single_user_forced),
{
    !inittab_readable || boot_entry_failed || single_user_forced
}

impl InitState {
    /// Puts the rescue shell into the table, by the same way as any other
    /// entry, and notes that it is wanted. Where the reserved id is taken
    /// the table stays as it is, and the result says so.
    pub fn enter_emergency(&mut self, now: u64) -> (res: bool)
        ensures
            res == !has_id(old(self).family@, reserved_id()),
            res ==> final(self).family@ == old(self).family@.insert(0, emergency_shell_view(now)),
            !res ==> final(self).family@ == old(self).family@,
            final(self).emerg_shell,
            same_globals(*old(self), InitState { emerg_shell: old(self).emerg_shell, ..*final(self) }),
            ids_unique(final(self).family@),
    {
        self.emerg_shell = true;
        proof {
            reveal_strlit("~~");
        }
        match self.family.add(emergency_shell_at(now)) {
            Ok(_) => true,
            Err(_) => false,
        }
    }
}

} // verus!
