//! One supervised entry of the in-core inittab.

use vstd::prelude::*;
use crate::action::InitAction;
use crate::clock::now;
use crate::flags::ChildFlags;
use crate::text::{byte_len, chars_of, fits_in, string_of, unicode_lowercase};

verus! {

/// Longest id of an entry, in bytes.
pub const INITTAB_ID: usize = 8;

/// Longest runlevel field, in bytes.
pub const RUNLEVEL_LENGTH: usize = 12;

/// Longest action field, in bytes.
pub const ACTION_LENGTH: usize = 33;

/// Longest command line, in bytes.
pub const PROCESS_LENGTH: usize = 512;

/// The pid of an entry that has no process.
pub const NO_PROCESS: i32 = 0;

/// Id of the entries that the supervisor makes up itself.
pub open spec fn reserved_id() -> Seq<char> {
    "~~"@
}

/// What an inittab line says of an entry besides its id.
#[derive(Debug)]
pub struct Definition {
    /// The runlevels in which the entry runs.
    pub rlevel: String,
    /// What to do with the entry.
    pub action: InitAction,
    /// The command line.
    pub process: String,
}

/// A [`Definition`] as plain values.
pub struct DefinitionView {
    pub rlevel: Seq<char>,
    pub action: InitAction,
    pub process: Seq<char>,
}

impl View for Definition {
    type V = DefinitionView;

    open spec fn view(&self) -> DefinitionView {
        DefinitionView { rlevel: self.rlevel@, action: self.action, process: self.process@ }
    }
}

impl Clone for Definition {
    fn clone(&self) -> (res: Self)
        ensures
            res@ == self@,
    {
        Definition {
            rlevel: self.rlevel.clone(),
            action: self.action,
            process: self.process.clone(),
        }
    }
}

/// One entry of the in-core inittab.
#[derive(Debug)]
pub struct Child {
    /// Status of the entry.
    pub flags: ChildFlags,
    /// Exit status of the process.
    pub exstat: i32,
    /// Pid of the process, [`NO_PROCESS`] while there is none.
    pub pid: i32,
    /// When the entry was respawned last, in seconds since the epoch.
    pub tm: u64,
    /// Times respawned inside the current test window.
    pub count: u32,
    /// Inittab id, unique in a table.
    pub id: String,
    /// The runlevels in which the entry runs.
    pub rlevel: String,
    /// What to do with the entry.
    pub action: InitAction,
    /// The command line.
    pub process: String,
    /// The definition that a reload has staged for the entry.
    pub shadow: Option<Definition>,
}

/// A [`Child`] as plain values.
pub struct ChildView {
    pub flags: ChildFlags,
    pub exstat: i32,
    pub pid: i32,
    pub tm: u64,
    pub count: u32,
    pub id: Seq<char>,
    pub rlevel: Seq<char>,
    pub action: InitAction,
    pub process: Seq<char>,
    pub shadow: Option<DefinitionView>,
}

/// The view of an optional definition.
pub open spec fn shadow_view(shadow: Option<Definition>) -> Option<DefinitionView> {
    match shadow {
        Some(d) => Some(d@),
        None => None,
    }
}

impl View for Child {
    type V = ChildView;

    open spec fn view(&self) -> ChildView {
        ChildView {
            flags: self.flags,
            exstat: self.exstat,
            pid: self.pid,
            tm: self.tm,
            count: self.count,
            id: self.id@,
            rlevel: self.rlevel@,
            action: self.action,
            process: self.process@,
            shadow: shadow_view(self.shadow),
        }
    }
}

impl Clone for Child {
    fn clone(&self) -> (res: Self)
        ensures
            res@ == self@,
    {
        let shadow = match &self.shadow {
            Some(d) => Some(d.clone()),
            None => None,
        };
        Child {
            flags: self.flags,
            exstat: self.exstat,
            pid: self.pid,
            tm: self.tm,
            count: self.count,
            id: self.id.clone(),
            rlevel: self.rlevel.clone(),
            action: self.action,
            process: self.process.clone(),
            shadow,
        }
    }
}

impl ChildView {
    /// An entry without a process, never spawned, with the given definition.
    pub open spec fn fresh(
        id: Seq<char>,
        rlevel: Seq<char>,
        action: InitAction,
        process: Seq<char>,
        tm: u64,
    ) -> ChildView {
        ChildView {
            flags: ChildFlags { bits: 0 },
            exstat: 0,
            pid: NO_PROCESS,
            tm,
            count: 0,
            id,
            rlevel,
            action,
            process,
            shadow: None,
        }
    }

    /// The definition that the entry runs under.
    pub open spec fn definition(self) -> DefinitionView {
        DefinitionView { rlevel: self.rlevel, action: self.action, process: self.process }
    }

    /// Whether the entry runs in `level`.
    pub open spec fn runs_at(self, level: char) -> bool {
        self.rlevel.contains(level)
    }

    /// Whether the process of the entry is running.
    pub open spec fn is_running(self) -> bool {
        self.flags.has(ChildFlags::RUNNING)
    }

    /// Whether the entry respawns too fast.
    pub open spec fn is_failing(self) -> bool {
        self.flags.has(ChildFlags::FAILING)
    }

    /// Whether the process of the entry is dead and not yet cleaned up.
    pub open spec fn is_zombie(self) -> bool {
        self.flags.has(ChildFlags::ZOMBIE)
    }

    /// The entry with other flags.
    pub open spec fn with_flags(self, flags: ChildFlags) -> ChildView {
        ChildView { flags, ..self }
    }
}

/// Whether the colons of `line` stand at `a`, `b` and `c` and nowhere else.
pub open spec fn colons_at(line: Seq<char>, a: int, b: int, c: int) -> bool {
    &&& 0 <= a < b < c < line.len()
    &&& forall|i: int|
        0 <= i < line.len() ==> (#[trigger] line[i] == ':' <==> (i == a || i == b || i == c))
}

/// Whether the four fields that colons at `a`, `b` and `c` cut out of `line`
/// are no longer than an entry allows.
pub open spec fn fields_fit(line: Seq<char>, a: int, b: int, c: int) -> bool {
    &&& byte_len(line.subrange(0, a)) <= INITTAB_ID
    &&& byte_len(line.subrange(a + 1, b)) <= RUNLEVEL_LENGTH
    &&& byte_len(line.subrange(b + 1, c)) <= ACTION_LENGTH
    &&& byte_len(line.subrange(c + 1, line.len() as int)) <= PROCESS_LENGTH
}

/// The action that the third field of `line` names, in any case of letters.
pub open spec fn field_action(line: Seq<char>, b: int, c: int) -> Option<InitAction> {
    InitAction::spec_from_keyword(unicode_lowercase(line.subrange(b + 1, c)))
}

/// The entry that `line` defines when its colons stand at `a`, `b` and `c`
/// and its third field names `action`.
pub open spec fn line_entry(
    line: Seq<char>,
    a: int,
    b: int,
    c: int,
    action: InitAction,
    tm: u64,
) -> ChildView {
    ChildView::fresh(
        line.subrange(0, a),
        line.subrange(a + 1, b),
        action,
        line.subrange(c + 1, line.len() as int),
        tm,
    )
}

/// Position of the first colon of `chars` at or after `from`, or the length
/// of `chars` if there is none.
fn next_colon(chars: &Vec<char>, from: usize) -> (res: usize)
    requires
        from <= chars@.len(),
    ensures
        from <= res <= chars@.len(),
        res < chars@.len() ==> chars@[res as int] == ':',
        forall|i: int| from <= i < res ==> chars@[i] != ':',
{
    let mut i: usize = from;
    while i < chars.len()
        invariant
            from <= i <= chars@.len(),
            forall|k: int| from <= k < i ==> chars@[k] != ':',
        decreases chars@.len() - i,
    {
        if chars[i] == ':' {
            return i;
        }
        i += 1;
    }
    i
}

/// The four fields of an inittab line.
#[derive(Debug)]
pub struct InittabFields {
    pub id: String,
    pub rlevel: String,
    pub action: String,
    pub process: String,
}

/// Whether `fields` are the four fields that colons at `a`, `b` and `c` cut
/// out of `line`.
pub open spec fn fields_at(line: Seq<char>, a: int, b: int, c: int, fields: InittabFields) -> bool {
    &&& fields.id@ == line.subrange(0, a)
    &&& fields.rlevel@ == line.subrange(a + 1, b)
    &&& fields.action@ == line.subrange(b + 1, c)
    &&& fields.process@ == line.subrange(c + 1, line.len() as int)
}

/// A line has its colons in one way only.
pub proof fn lemma_colons_unique(line: Seq<char>, a: int, b: int, c: int, x: int, y: int, z: int)
    requires
        colons_at(line, a, b, c),
        colons_at(line, x, y, z),
    ensures
        a == x && b == y && c == z,
{
    assert(line[a] == ':');
    assert(line[b] == ':');
    assert(line[c] == ':');
    assert(line[x] == ':');
    assert(line[y] == ':');
    assert(line[z] == ':');
}

/// Cuts an inittab line into its four fields. The line has to hold exactly
/// three colons, and each field has to fit its limit; any other line has no
/// fields.
pub fn split_inittab_line(line: &str) -> (res: Option<InittabFields>)
    ensures
        match res {
            Some(fields) => exists|a: int, b: int, c: int| #[trigger]
                colons_at(line@, a, b, c) && fields_fit(line@, a, b, c) && fields_at(
                    line@,
                    a,
                    b,
                    c,
                    fields,
                ),
            None => forall|a: int, b: int, c: int| #[trigger]
                colons_at(line@, a, b, c) ==> !fields_fit(line@, a, b, c),
        },
{
    let chars = chars_of(line);
    let n = chars.len();
    let a = next_colon(&chars, 0);
    if a >= n {
        assert forall|x: int, y: int, z: int| !#[trigger] colons_at(line@, x, y, z) by {
            if colons_at(line@, x, y, z) {
                assert(line@[x] == ':');
            }
        }
        return None;
    }
    let b = next_colon(&chars, a + 1);
    if b >= n {
        assert forall|x: int, y: int, z: int| !#[trigger] colons_at(line@, x, y, z) by {
            if colons_at(line@, x, y, z) {
                assert(line@[x] == ':');
                assert(line@[y] == ':');
            }
        }
        return None;
    }
    let c = next_colon(&chars, b + 1);
    if c >= n {
        assert forall|x: int, y: int, z: int| !#[trigger] colons_at(line@, x, y, z) by {
            if colons_at(line@, x, y, z) {
                assert(line@[x] == ':');
                assert(line@[y] == ':');
                assert(line@[z] == ':');
            }
        }
        return None;
    }
    let d = next_colon(&chars, c + 1);
    if d < n {
        assert forall|x: int, y: int, z: int| !#[trigger] colons_at(line@, x, y, z) by {
            if colons_at(line@, x, y, z) {
                assert(line@[a as int] == ':');
                assert(line@[b as int] == ':');
                assert(line@[c as int] == ':');
                assert(line@[d as int] == ':');
            }
        }
        return None;
    }
    assert(colons_at(line@, a as int, b as int, c as int));
    if !fits_in(chars.as_slice(), 0, a, INITTAB_ID) || !fits_in(
        chars.as_slice(),
        a + 1,
        b,
        RUNLEVEL_LENGTH,
    ) || !fits_in(chars.as_slice(), b + 1, c, ACTION_LENGTH) || !fits_in(
        chars.as_slice(),
        c + 1,
        n,
        PROCESS_LENGTH,
    ) {
        assert forall|x: int, y: int, z: int| #[trigger]
            colons_at(line@, x, y, z) implies !fields_fit(line@, x, y, z) by {
            lemma_colons_unique(line@, a as int, b as int, c as int, x, y, z);
        }
        return None;
    }
    let fields = InittabFields {
        id: string_of(chars.as_slice(), 0, a),
        rlevel: string_of(chars.as_slice(), a + 1, b),
        action: string_of(chars.as_slice(), b + 1, c),
        process: string_of(chars.as_slice(), c + 1, n),
    };
    assert(fields_at(line@, a as int, b as int, c as int, fields));
    Some(fields)
}

impl Child {
    /// An entry without id, runlevels or command, to be run once, stamped
    /// with `now`.
    pub fn with_time(now: u64) -> (res: Self)
        ensures
            res@ == ChildView::fresh(Seq::empty(), Seq::empty(), InitAction::Once, Seq::empty(), now),
    {
        Child {
            flags: ChildFlags::empty(),
            exstat: 0,
            pid: NO_PROCESS,
            tm: now,
            count: 0,
            id: String::new(),
            rlevel: String::new(),
            action: InitAction::Once,
            process: String::new(),
            shadow: None,
        }
    }

    /// An entry without id, runlevels or command, to be run once, stamped
    /// with the current time.
    pub fn new() -> (res: Self)
        ensures
            res@ == ChildView::fresh(Seq::empty(), Seq::empty(), InitAction::Once, Seq::empty(), res.tm),
    {
        Self::with_time(now())
    }

    /// The entry with the fields of an inittab line and the action that its
    /// third field names, stamped with `now`: without process, flags or
    /// history.
    pub fn from_fields(fields: InittabFields, action: InitAction, now: u64) -> (res: Self)
        ensures
            res@ == ChildView::fresh(fields.id@, fields.rlevel@, action, fields.process@, now),
    {
        Child {
            flags: ChildFlags::empty(),
            exstat: 0,
            pid: NO_PROCESS,
            tm: now,
            count: 0,
            id: fields.id,
            rlevel: fields.rlevel,
            action,
            process: fields.process,
            shadow: None,
        }
    }

    /// The entry that the inittab line `id:runlevels:action:process` defines,
    /// stamped with `now`.
    ///
    /// The line has to hold exactly three colons, each field has to fit its
    /// limit, and the action has to be a keyword in any case of letters;
    /// any other line defines nothing.
    pub fn parse_inittab_line(line: &str, now: u64) -> (res: Option<Self>)
        ensures
            match res {
                Some(child) => exists|a: int, b: int, c: int|
                    {
                        &&& #[trigger] colons_at(line@, a, b, c)
                        &&& fields_fit(line@, a, b, c)
                        &&& field_action(line@, b, c) is Some
                        &&& child@ == line_entry(line@, a, b, c, field_action(line@, b, c).unwrap(), now)
                    },
                None => forall|a: int, b: int, c: int| #[trigger]
                    colons_at(line@, a, b, c) ==> !fields_fit(line@, a, b, c) || field_action(
                        line@,
                        b,
                        c,
                    ) is None,
            },
    {
        let fields = match split_inittab_line(line) {
            Some(fields) => fields,
            None => {
                return None;
            },
        };
        let ghost (a, b, c) = choose|a: int, b: int, c: int| #[trigger]
            colons_at(line@, a, b, c) && fields_fit(line@, a, b, c) && fields_at(
                line@,
                a,
                b,
                c,
                fields,
            );
        assert(field_action(line@, b, c) == InitAction::spec_from_keyword(
            unicode_lowercase(fields.action@),
        ));
        match InitAction::from_str(fields.action.as_str()) {
            Some(action) => {
                let child = Self::from_fields(fields, action, now);
                assert(child@ == line_entry(line@, a, b, c, action, now));
                Some(child)
            },
            None => {
                assert forall|x: int, y: int, z: int| #[trigger]
                    colons_at(line@, x, y, z) implies field_action(line@, y, z) is None by {
                    lemma_colons_unique(line@, a, b, c, x, y, z);
                }
                None
            },
        }
    }

    /// The entry that an inittab line defines, stamped with the current time.
    pub fn from_inittab_line(line: &str) -> (res: Option<Self>)
        ensures
            match res {
                Some(child) => exists|a: int, b: int, c: int|
                    {
                        &&& #[trigger] colons_at(line@, a, b, c)
                        &&& fields_fit(line@, a, b, c)
                        &&& field_action(line@, b, c) is Some
                        &&& child@ == line_entry(
                            line@,
                            a,
                            b,
                            c,
                            field_action(line@, b, c).unwrap(),
                            child.tm,
                        )
                    },
                None => forall|a: int, b: int, c: int| #[trigger]
                    colons_at(line@, a, b, c) ==> !fields_fit(line@, a, b, c) || field_action(
                        line@,
                        b,
                        c,
                    ) is None,
            },
    {
        Self::parse_inittab_line(line, now())
    }

    /// Whether the entry runs in `level`.
    pub fn should_run_at_level(&self, level: char) -> (res: bool)
        ensures
            res == self@.runs_at(level),
    {
        let chars = chars_of(self.rlevel.as_str());
        let mut i: usize = 0;
        while i < chars.len()
            invariant
                i <= chars@.len(),
                chars@ == self.rlevel@,
                forall|k: int| 0 <= k < i ==> chars@[k] != level,
            decreases chars@.len() - i,
        {
            if chars[i] == level {
                return true;
            }
            i += 1;
        }
        false
    }

    /// Whether the process of the entry is running.
    pub fn is_running(&self) -> (res: bool)
        ensures
            res == self@.is_running(),
    {
        self.flags.contains(ChildFlags::RUNNING)
    }

    /// Whether the entry respawns too fast.
    pub fn is_failing(&self) -> (res: bool)
        ensures
            res == self@.is_failing(),
    {
        self.flags.contains(ChildFlags::FAILING)
    }

    /// Marks the process as running.
    pub fn mark_running(&mut self)
        ensures
            final(self)@ == old(self)@.with_flags(old(self).flags.with(ChildFlags::RUNNING)),
    {
        self.flags.insert(ChildFlags::RUNNING);
    }

    /// Marks the process as dead and no longer running.
    pub fn mark_zombie(&mut self)
        ensures
            final(self)@ == old(self)@.with_flags(
                old(self).flags.without(ChildFlags::RUNNING).with(ChildFlags::ZOMBIE),
            ),
    {
        self.flags.remove(ChildFlags::RUNNING);
        self.flags.insert(ChildFlags::ZOMBIE);
    }

    /// Marks the entry as spawned once or more.
    pub fn mark_executed(&mut self)
        ensures
            final(self)@ == old(self)@.with_flags(old(self).flags.with(ChildFlags::XECUTED)),
    {
        self.flags.insert(ChildFlags::XECUTED);
    }
}

/// Command line of the rescue shell.
pub open spec fn rescue_command() -> Seq<char> {
    "/sbin/sulogin"@
}

/// Command line that powers the machine off.
pub open spec fn poweroff_command() -> Seq<char> {
    "/sbin/shutdown -hP now"@
}

/// The entry of the rescue shell as it is before it is spawned: the reserved
/// id, single-user mode only, run once, and waited for.
pub open spec fn emergency_shell_view(tm: u64) -> ChildView {
    ChildView::fresh(reserved_id(), "S"@, InitAction::Once, rescue_command(), tm).with_flags(
        ChildFlags { bits: ChildFlags::WAITING },
    )
}

/// The entry that powers the machine off: the reserved id, single-user mode
/// only, run once.
pub open spec fn poweroff_child_view(tm: u64) -> ChildView {
    ChildView::fresh(reserved_id(), "S"@, InitAction::Once, poweroff_command(), tm)
}

/// The rescue-shell entry, stamped with `now`.
pub fn emergency_shell_at(now: u64) -> (res: Child)
    ensures
        res@ == emergency_shell_view(now),
{
    Child {
        flags: ChildFlags::from_bits_retain(ChildFlags::WAITING),
        exstat: 0,
        pid: NO_PROCESS,
        tm: now,
        count: 0,
        id: "~~".to_owned(),
        rlevel: "S".to_owned(),
        action: InitAction::Once,
        process: "/sbin/sulogin".to_owned(),
        shadow: None,
    }
}

/// The rescue-shell entry, stamped with the current time. It goes into the
/// table like any other entry.
pub fn create_emergency_shell() -> (res: Child)
    ensures
        res@ == emergency_shell_view(res.tm),
{
    emergency_shell_at(now())
}

/// The power-off entry, stamped with `now`.
pub fn poweroff_child_at(now: u64) -> (res: Child)
    ensures
        res@ == poweroff_child_view(now),
{
    Child {
        flags: ChildFlags::empty(),
        exstat: 0,
        pid: NO_PROCESS,
        tm: now,
        count: 0,
        id: "~~".to_owned(),
        rlevel: "S".to_owned(),
        action: InitAction::Once,
        process: "/sbin/shutdown -hP now".to_owned(),
        shadow: None,
    }
}

/// The power-off entry, stamped with the current time.
pub fn create_poweroff_child() -> (res: Child)
    ensures
        res@ == poweroff_child_view(res.tm),
{
    poweroff_child_at(now())
}

} // verus!
