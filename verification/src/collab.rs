//! The collaborators of the supervisor: what it asks of the logger, the
//! login records, the terminal and the wall. The supervisor decides; these
//! do the work, outside the library.

use vstd::prelude::*;
use crate::action::LogLevel;

verus! {

/// Writes log messages.
pub trait InitLogger {
    /// Logs `msg` at `level`.
    fn initlog(&self, level: LogLevel, msg: &str);
}

/// Keeps the login records.
pub trait UtmpWriter {
    /// Records the entry in utmp and in wtmp.
    fn write_utmp_wtmp(&self, user: &str, id: &str, pid: i32, entry_type: i32, line: &str);

    /// Records the entry in wtmp.
    fn write_wtmp(&self, user: &str, id: &str, pid: i32, entry_type: i32, line: &str);
}

/// Controls the console.
pub trait TerminalController {
    /// Sets the terminal mode.
    fn set_term(&self, how: i32);

    /// Prints `msg` on the console.
    fn print(&self, msg: &str);
}

/// Sends a message to everyone who is logged in.
pub trait WallMessenger {
    /// Sends `text`; `remote` says whether it came from another host.
    fn wall(&self, text: &str, remote: bool);
}

/// The id of a login record where it has four bytes.
pub struct Utmp {
    pub ut_id: [u8; 4],
}

} // verus!
