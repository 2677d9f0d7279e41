//! What the supervisor does with an entry, and where it logs.

use vstd::prelude::*;
use crate::text::{lowercase, str_eq, unicode_lowercase};

verus! {

/// The action of an inittab entry.
#[derive(Clone, Copy, Debug, PartialEq, Eq, Structural)]
pub enum InitAction {
    Respawn,
    Wait,
    Once,
    Boot,
    BootWait,
    PowerFail,
    PowerWait,
    PowerOkWait,
    CtrlAltDel,
    Off,
    OnDemand,
    InitDefault,
    SysInit,
    PowerFailNow,
    KbRequest,
}

/// Where a message is logged.
#[derive(Clone, Copy, Debug, PartialEq, Eq, Structural)]
pub enum LogLevel {
    /// On the console.
    Console,
    /// With syslog.
    Syslog,
    /// On the console and with syslog.
    Verbose,
}

impl LogLevel {
    /// The number of the level: 1 for the console, 2 for syslog, 3 for both.
    pub open spec fn spec_code(self) -> int {
        match self {
            LogLevel::Console => 1,
            LogLevel::Syslog => 2,
            LogLevel::Verbose => 3,
        }
    }

    /// The number of the level.
    pub fn code(self) -> (res: i32)
        ensures
            res == self.spec_code(),
    {
        match self {
            LogLevel::Console => 1,
            LogLevel::Syslog => 2,
            LogLevel::Verbose => 3,
        }
    }
}

impl InitAction {
    /// The number of the action, 1 to 15.
    pub open spec fn spec_code(self) -> int {
        match self {
            InitAction::Respawn => 1,
            InitAction::Wait => 2,
            InitAction::Once => 3,
            InitAction::Boot => 4,
            InitAction::BootWait => 5,
            InitAction::PowerFail => 6,
            InitAction::PowerWait => 7,
            InitAction::PowerOkWait => 8,
            InitAction::CtrlAltDel => 9,
            InitAction::Off => 10,
            InitAction::OnDemand => 11,
            InitAction::InitDefault => 12,
            InitAction::SysInit => 13,
            InitAction::PowerFailNow => 14,
            InitAction::KbRequest => 15,
        }
    }

    /// The keyword that names the action in the inittab and on the wire.
    pub open spec fn spec_keyword(self) -> Seq<char> {
        match self {
            InitAction::Respawn => "respawn"@,
            InitAction::Wait => "wait"@,
            InitAction::Once => "once"@,
            InitAction::Boot => "boot"@,
            InitAction::BootWait => "bootwait"@,
            InitAction::PowerFail => "powerfail"@,
            InitAction::PowerWait => "powerwait"@,
            InitAction::PowerOkWait => "powerokwait"@,
            InitAction::CtrlAltDel => "ctrlaltdel"@,
            InitAction::Off => "off"@,
            InitAction::OnDemand => "ondemand"@,
            InitAction::InitDefault => "initdefault"@,
            InitAction::SysInit => "sysinit"@,
            InitAction::PowerFailNow => "powerfailnow"@,
            InitAction::KbRequest => "kbrequest"@,
        }
    }

    /// The action that a keyword names, if it names one.
    pub open spec fn spec_from_keyword(word: Seq<char>) -> Option<InitAction> {
        if word == "respawn"@ {
            Some(InitAction::Respawn)
        } else if word == "wait"@ {
            Some(InitAction::Wait)
        } else if word == "once"@ {
            Some(InitAction::Once)
        } else if word == "boot"@ {
            Some(InitAction::Boot)
        } else if word == "bootwait"@ {
            Some(InitAction::BootWait)
        } else if word == "powerfail"@ {
            Some(InitAction::PowerFail)
        } else if word == "powerwait"@ {
            Some(InitAction::PowerWait)
        } else if word == "powerokwait"@ {
            Some(InitAction::PowerOkWait)
        } else if word == "ctrlaltdel"@ {
            Some(InitAction::CtrlAltDel)
        } else if word == "off"@ {
            Some(InitAction::Off)
        } else if word == "ondemand"@ {
            Some(InitAction::OnDemand)
        } else if word == "initdefault"@ {
            Some(InitAction::InitDefault)
        } else if word == "sysinit"@ {
            Some(InitAction::SysInit)
        } else if word == "powerfailnow"@ {
            Some(InitAction::PowerFailNow)
        } else if word == "kbrequest"@ {
            Some(InitAction::KbRequest)
        } else {
            None
        }
    }

    /// The number of the action.
    pub fn code(self) -> (res: i32)
        ensures
            res == self.spec_code(),
    {
        match self {
            InitAction::Respawn => 1,
            InitAction::Wait => 2,
            InitAction::Once => 3,
            InitAction::Boot => 4,
            InitAction::BootWait => 5,
            InitAction::PowerFail => 6,
            InitAction::PowerWait => 7,
            InitAction::PowerOkWait => 8,
            InitAction::CtrlAltDel => 9,
            InitAction::Off => 10,
            InitAction::OnDemand => 11,
            InitAction::InitDefault => 12,
            InitAction::SysInit => 13,
            InitAction::PowerFailNow => 14,
            InitAction::KbRequest => 15,
        }
    }

    /// The keyword of the action.
    pub fn keyword(self) -> (res: &'static str)
        ensures
            res@ == self.spec_keyword(),
    {
        match self {
            InitAction::Respawn => "respawn",
            InitAction::Wait => "wait",
            InitAction::Once => "once",
            InitAction::Boot => "boot",
            InitAction::BootWait => "bootwait",
            InitAction::PowerFail => "powerfail",
            InitAction::PowerWait => "powerwait",
            InitAction::PowerOkWait => "powerokwait",
            InitAction::CtrlAltDel => "ctrlaltdel",
            InitAction::Off => "off",
            InitAction::OnDemand => "ondemand",
            InitAction::InitDefault => "initdefault",
            InitAction::SysInit => "sysinit",
            InitAction::PowerFailNow => "powerfailnow",
            InitAction::KbRequest => "kbrequest",
        }
    }

    /// The action that `word` names: `word` has to be the keyword itself, in
    /// lower case.
    pub fn from_keyword(word: &str) -> (res: Option<InitAction>)
        ensures
            res == Self::spec_from_keyword(word@),
    {
        if str_eq(word, "respawn") {
            Some(InitAction::Respawn)
        } else if str_eq(word, "wait") {
            Some(InitAction::Wait)
        } else if str_eq(word, "once") {
            Some(InitAction::Once)
        } else if str_eq(word, "boot") {
            Some(InitAction::Boot)
        } else if str_eq(word, "bootwait") {
            Some(InitAction::BootWait)
        } else if str_eq(word, "powerfail") {
            Some(InitAction::PowerFail)
        } else if str_eq(word, "powerwait") {
            Some(InitAction::PowerWait)
        } else if str_eq(word, "powerokwait") {
            Some(InitAction::PowerOkWait)
        } else if str_eq(word, "ctrlaltdel") {
            Some(InitAction::CtrlAltDel)
        } else if str_eq(word, "off") {
            Some(InitAction::Off)
        } else if str_eq(word, "ondemand") {
            Some(InitAction::OnDemand)
        } else if str_eq(word, "initdefault") {
            Some(InitAction::InitDefault)
        } else if str_eq(word, "sysinit") {
            Some(InitAction::SysInit)
        } else if str_eq(word, "powerfailnow") {
            Some(InitAction::PowerFailNow)
        } else if str_eq(word, "kbrequest") {
            Some(InitAction::KbRequest)
        } else {
            None
        }
    }

    /// The action that `s` names in any mix of upper and lower case: the
    /// action whose keyword is the lowercase form of `s`.
    pub fn from_str(s: &str) -> (res: Option<InitAction>)
        ensures
            res == Self::spec_from_keyword(unicode_lowercase(s@)),
    {
        let lower = lowercase(s);
        Self::from_keyword(lower.as_str())
    }
}

/// Whether `action` answers a power event or the three-finger salute.
pub open spec fn spec_is_power_action(action: InitAction) -> bool {
    action == InitAction::PowerWait || action == InitAction::PowerFail || action
        == InitAction::PowerOkWait || action == InitAction::PowerFailNow || action
        == InitAction::CtrlAltDel
}

/// Whether `action` answers a power event or the three-finger salute.
pub fn is_power_action(action: InitAction) -> (res: bool)
    ensures
        res == spec_is_power_action(action),
{
    match action {
        InitAction::PowerWait => true,
        InitAction::PowerFail => true,
        InitAction::PowerOkWait => true,
        InitAction::PowerFailNow => true,
        InitAction::CtrlAltDel => true,
        _ => false,
    }
}

/// Every keyword names its own action.
pub proof fn lemma_keyword_names_action(action: InitAction)
    ensures
        InitAction::spec_from_keyword(action.spec_keyword()) == Some(action),
{
    reveal_strlit("respawn");
    reveal_strlit("wait");
    reveal_strlit("once");
    reveal_strlit("boot");
    reveal_strlit("bootwait");
    reveal_strlit("powerfail");
    reveal_strlit("powerwait");
    reveal_strlit("powerokwait");
    reveal_strlit("ctrlaltdel");
    reveal_strlit("off");
    reveal_strlit("ondemand");
    reveal_strlit("initdefault");
    reveal_strlit("sysinit");
    reveal_strlit("powerfailnow");
    reveal_strlit("kbrequest");
    assert("respawn"@.len() == 7 && "sysinit"@.len() == 7);
    assert("wait"@.len() == 4 && "once"@.len() == 4 && "boot"@.len() == 4);
    assert("bootwait"@.len() == 8 && "ondemand"@.len() == 8);
    assert("powerfail"@.len() == 9 && "powerwait"@.len() == 9 && "kbrequest"@.len() == 9);
    assert("powerokwait"@.len() == 11 && "initdefault"@.len() == 11);
    assert("ctrlaltdel"@.len() == 10 && "off"@.len() == 3 && "powerfailnow"@.len() == 12);
    // Keywords of different length differ; those of equal length differ in
    // their first or their fifth character.
    assert("wait"@[0] != "once"@[0]);
    assert("wait"@[0] != "boot"@[0]);
    assert("once"@[0] != "boot"@[0]);
    assert("bootwait"@[0] != "ondemand"@[0]);
    assert("powerfail"@[5] != "powerwait"@[5]);
    assert("powerfail"@[0] != "kbrequest"@[0]);
    assert("powerwait"@[0] != "kbrequest"@[0]);
    assert("powerokwait"@[0] != "initdefault"@[0]);
    assert("respawn"@[0] != "sysinit"@[0]);
}

} // verus!
