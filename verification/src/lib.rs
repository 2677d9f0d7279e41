//! Supervision core of a PID-1 init daemon: the process table, the runlevel
//! controller, the respawn failsafe, signal routing and the state-transfer
//! codec, together with the boot-console logger's buffer and line filter.

pub mod action;
pub mod bootlogd;
pub mod child;
pub mod clock;
pub mod collab;
pub mod controller;
pub mod decimal;
pub mod decode;
pub mod encode;
pub mod failsafe;
pub mod flags;
pub mod reader;
pub mod roundtrip;
pub mod runlevel;
pub mod signals;
pub mod state;
pub mod table;
pub mod text;
pub mod transition_laws;
pub mod utf8_facts;
pub mod wire;

pub use action::{is_power_action, InitAction, LogLevel};
pub use child::{create_emergency_shell, create_poweroff_child, Child, Definition};
pub use collab::{InitLogger, TerminalController, Utmp, UtmpWriter, WallMessenger};
pub use controller::{transition, Directive, PowerAction, TransitionError};
pub use decode::{receive_state, Transferred};
pub use encode::send_state;
pub use failsafe::{check_respawn, RespawnDecision, MAXSPAWN, SLEEPTIME, TESTTIME};
pub use flags::ChildFlags;
pub use reader::{get_cmd, get_string, get_void, StateReader};
pub use runlevel::{is_valid_runlevel, normalize_runlevel};
pub use signals::{
    clear_got_cont, clear_got_signals, got_cont, got_signals, set_got_cont, set_got_signals,
    Dispatch, Signal, SignalFlags,
};
pub use state::{ExtraEnv, InitState};
pub use table::ProcessTable;
pub use wire::StateToken;
