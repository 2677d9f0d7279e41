//! Reading the state stream back: what a stream means, and the decoder that
//! takes it apart line by line.

use vstd::prelude::*;
use vstd::utf8::{decode_utf8, encode_utf8_decode_utf8, encode_utf8_valid_utf8, valid_utf8};
use crate::action::InitAction;
use crate::child::{
    Child, ChildView, ACTION_LENGTH, INITTAB_ID, PROCESS_LENGTH, RUNLEVEL_LENGTH,
};
use crate::decimal::{is_number, number_value, parse_signed, parse_unsigned, signed_value};
use crate::flags::ChildFlags;
use crate::reader::{
    after_line, get_cmd, get_string, get_void, lemma_newline_at, newline_at, next_token,
    string_consumed, string_read, StateReader,
};
use crate::state::InitState;
use crate::table::{has_id, ids_unique};
use crate::text::{chars_of, str_eq, utf8_string};
use crate::wire::StateToken;

verus! {

/// Longest version string that is read.
pub const VERSION_LENGTH: usize = 256;

/// Longest value of a flag, a number or a runlevel that is read.
pub const VALUE_LENGTH: usize = 32;

/// What has been made of a state stream so far.
pub struct Decoding {
    pub version: Seq<char>,
    pub curlevel: char,
    pub prevlevel: char,
    pub got_signals: bool,
    pub wrote_wtmp_reboot: bool,
    pub wrote_utmp_reboot: bool,
    pub wrote_wtmp_rlevel: bool,
    pub wrote_utmp_rlevel: bool,
    pub sleep_time: u64,
    pub did_boot: bool,
    /// The entries whose records are complete.
    pub table: Seq<ChildView>,
    /// The entry whose record is open.
    pub open: Option<ChildView>,
}

/// How many bytes the reader may take for the value of a line before it
/// stops. The reader counts a byte beyond ASCII twice, so the limit for a
/// text is one more than twice what its field holds: a text of full length
/// is still read with its newline, whatever its characters.
pub open spec fn value_limit(token: StateToken) -> nat {
    match token {
        StateToken::Ver => VERSION_LENGTH as nat,
        StateToken::Rec => (2 * INITTAB_ID + 1) as nat,
        StateToken::Lev => (2 * RUNLEVEL_LENGTH + 1) as nat,
        StateToken::Action => (ACTION_LENGTH + 1) as nat,
        StateToken::Process => (2 * PROCESS_LENGTH + 1) as nat,
        _ => VALUE_LENGTH as nat,
    }
}

/// The bytes that stand behind the characters that the reader made of them.
pub open spec fn value_bytes(value: Seq<char>) -> Seq<u8> {
    Seq::new(value.len(), |i: int| value[i] as u8)
}

/// The text of a value: its bytes read as UTF-8. Bytes that are no valid
/// UTF-8 have no text.
pub open spec fn value_text(value: Seq<char>) -> Option<Seq<char>> {
    if valid_utf8(value_bytes(value)) {
        Some(decode_utf8(value_bytes(value)))
    } else {
        None
    }
}

/// The entry that a record opens with: the id, nothing else.
pub open spec fn blank_entry(id: Seq<char>) -> ChildView {
    ChildView::fresh(id, Seq::<char>::empty(), InitAction::Once, Seq::<char>::empty(), 0)
}

/// The flag that a name on the wire stands for; no bit for a name that the
/// stream does not know.
pub open spec fn flag_mask(name: Seq<char>) -> u32 {
    if name == "RU"@ {
        ChildFlags::RUNNING
    } else if name == "DE"@ {
        ChildFlags::DEMAND
    } else if name == "XD"@ {
        ChildFlags::XECUTED
    } else if name == "WT"@ {
        ChildFlags::WAITING
    } else if name == "KM"@ {
        ChildFlags::KILLME
    } else if name == "FA"@ {
        ChildFlags::FAILING
    } else if name == "ZO"@ {
        ChildFlags::ZOMBIE
    } else {
        0
    }
}

/// The unsigned number that a value stands for, if it is one that fits.
pub open spec fn unsigned_read(value: Seq<char>) -> Option<u64> {
    if is_number(value) && number_value(value) <= u64::MAX {
        Some(number_value(value) as u64)
    } else {
        None
    }
}

/// The signed number that a value stands for, if it is one that fits.
pub open spec fn signed_read(value: Seq<char>) -> Option<i32> {
    match signed_value(value) {
        Some(v) => if i32::MIN <= v <= i32::MAX {
            Some(v as i32)
        } else {
            None
        },
        None => None,
    }
}

/// The open entry after a line of its record; a line whose value is
/// malformed leaves it as it is.
pub open spec fn entry_line(e: ChildView, token: StateToken, value: Seq<char>) -> ChildView {
    match token {
        StateToken::Lev => ChildView { rlevel: value, ..e },
        StateToken::Flag => ChildView { flags: e.flags.with(flag_mask(value)), ..e },
        StateToken::Pid => match signed_read(value) {
            Some(pid) => ChildView { pid, ..e },
            None => e,
        },
        StateToken::Exs => match signed_read(value) {
            Some(exstat) => ChildView { exstat, ..e },
            None => e,
        },
        StateToken::Action => match InitAction::spec_from_keyword(value) {
            Some(action) => ChildView { action, ..e },
            None => e,
        },
        StateToken::Process => ChildView { process: value, ..e },
        _ => e,
    }
}

/// Whether `token` opens a line of a record.
pub open spec fn is_entry_token(token: StateToken) -> bool {
    token == StateToken::Lev || token == StateToken::Flag || token == StateToken::Pid || token
        == StateToken::Exs || token == StateToken::Action || token == StateToken::Process
}

/// What has been decoded after a line with the text `value`. A line of a
/// record goes to the open entry and is lost where none is open; a line whose
/// value is malformed changes nothing.
pub open spec fn value_line(d: Decoding, token: StateToken, value: Seq<char>) -> Decoding {
    match token {
        StateToken::Ver => Decoding { version: value, ..d },
        StateToken::Runlevel => if value.len() == 1 {
            Decoding { curlevel: value[0], ..d }
        } else {
            d
        },
        StateToken::PrevLevel => if value.len() == 1 {
            Decoding { prevlevel: value[0], ..d }
        } else {
            d
        },
        StateToken::GotSign => match unsigned_read(value) {
            Some(n) => Decoding { got_signals: n != 0, ..d },
            None => d,
        },
        StateToken::WroteWtmpReboot => match unsigned_read(value) {
            Some(n) => Decoding { wrote_wtmp_reboot: n != 0, ..d },
            None => d,
        },
        StateToken::WroteUtmpReboot => match unsigned_read(value) {
            Some(n) => Decoding { wrote_utmp_reboot: n != 0, ..d },
            None => d,
        },
        StateToken::WroteWtmpRlevel => match unsigned_read(value) {
            Some(n) => Decoding { wrote_wtmp_rlevel: n != 0, ..d },
            None => d,
        },
        StateToken::WroteUtmpRlevel => match unsigned_read(value) {
            Some(n) => Decoding { wrote_utmp_rlevel: n != 0, ..d },
            None => d,
        },
        StateToken::DidBoot => match unsigned_read(value) {
            Some(n) => Decoding { did_boot: n != 0, ..d },
            None => d,
        },
        StateToken::SlTime => match unsigned_read(value) {
            Some(n) => Decoding { sleep_time: n, ..d },
            None => d,
        },
        StateToken::Rec => Decoding { open: Some(blank_entry(value)), ..d },
        _ => if is_entry_token(token) {
            match d.open {
                Some(e) => Decoding { open: Some(entry_line(e, token, value)), ..d },
                None => d,
            }
        } else {
            d
        },
    }
}

/// What has been decoded after the end of a record: the open entry goes to
/// the end of the table, unless its id is in the table already; then it is
/// dropped.
pub open spec fn close_record(d: Decoding) -> Decoding {
    match d.open {
        Some(e) => if has_id(d.table, e.id) {
            Decoding { open: None, ..d }
        } else {
            Decoding { table: d.table.push(e), open: None, ..d }
        },
        None => d,
    }
}

/// What a state stream means, read from `input` on with `d` decoded so far.
///
/// The stream is read line by line, and the value of a line is read as
/// UTF-8. A line with a token that is not known is skipped, and so is a line
/// whose value is no valid UTF-8. The stream ends with the end token, or
/// where fewer than three bytes are left, or where an unknown line has no
/// newline; none of these is an error. A record that is still open then is
/// lost.
pub open spec fn decode_from(d: Decoding, input: Seq<u8>) -> Decoding
    decreases input.len(),
{
    if input.len() < 3 {
        d
    } else {
        let token = next_token(input);
        let body = input.skip(3);
        if token == StateToken::End {
            d
        } else if token == StateToken::Eof {
            if newline_at(body) < body.len() && after_line(body).len() < input.len() {
                decode_from(d, after_line(body))
            } else {
                d
            }
        } else if token == StateToken::Eor {
            if after_line(body).len() < input.len() {
                decode_from(close_record(d), after_line(body))
            } else {
                close_record(d)
            }
        } else {
            let limit = value_limit(token);
            let rest = body.skip(string_consumed(body, limit) as int);
            let next = match value_text(string_read(body, limit)) {
                Some(text) => value_line(d, token, text),
                None => d,
            };
            if rest.len() < input.len() {
                decode_from(next, rest)
            } else {
                next
            }
        }
    }
}

/// Where decoding starts: the settings of a fresh state, an empty table, no
/// version.
pub open spec fn decode_start() -> Decoding {
    Decoding {
        version: Seq::<char>::empty(),
        curlevel: 'S',
        prevlevel: 'N',
        got_signals: false,
        wrote_wtmp_reboot: true,
        wrote_utmp_reboot: true,
        wrote_wtmp_rlevel: true,
        wrote_utmp_rlevel: true,
        sleep_time: crate::state::WAIT_BETWEEN_SIGNALS,
        did_boot: false,
        table: Seq::<ChildView>::empty(),
        open: None,
    }
}

/// What the stream `input` means.
pub open spec fn decode_state(input: Seq<u8>) -> Decoding {
    decode_from(decode_start(), input)
}

/// A state that came over the stream.
pub struct Transferred {
    /// The table and the settings; what the stream does not carry is as in a
    /// fresh state.
    pub state: InitState,
    /// The pending-signal indicator.
    pub got_signals: bool,
    /// The version that the stream announced.
    pub version: String,
}

/// The view of an optional entry.
pub open spec fn open_view(open: Option<Child>) -> Option<ChildView> {
    match open {
        Some(c) => Some(c@),
        None => None,
    }
}

impl Transferred {
    /// What was decoded, with `open` as the entry whose record is open.
    pub open spec fn decoding(self, open: Option<ChildView>) -> Decoding {
        Decoding {
            version: self.version@,
            curlevel: self.state.curlevel,
            prevlevel: self.state.prevlevel,
            got_signals: self.got_signals,
            wrote_wtmp_reboot: self.state.wrote_wtmp_reboot,
            wrote_utmp_reboot: self.state.wrote_utmp_reboot,
            wrote_wtmp_rlevel: self.state.wrote_wtmp_rlevel,
            wrote_utmp_rlevel: self.state.wrote_utmp_rlevel,
            sleep_time: self.state.sleep_time,
            did_boot: self.state.did_boot,
            table: self.state.family@,
            open,
        }
    }

    /// Whether everything that the stream does not carry is as in a fresh
    /// state.
    pub open spec fn rest_is_fresh(self) -> bool {
        &&& self.state.new_family@.len() == 0
        &&& self.state.dfl_level == '0'
        &&& !self.state.emerg_shell
        &&& self.state.console_dev is None
        &&& self.state.pipe_fd == -1
        &&& !self.state.reload
        &&& self.state.myname@ == crate::state::INIT_PROGRAM@
        &&& self.state.oops_error == 0
    }
}

/// The flag that a name on the wire stands for.
fn flag_for(name: &str) -> (res: u32)
    ensures
        res == flag_mask(name@),
{
    if str_eq(name, "RU") {
        ChildFlags::RUNNING
    } else if str_eq(name, "DE") {
        ChildFlags::DEMAND
    } else if str_eq(name, "XD") {
        ChildFlags::XECUTED
    } else if str_eq(name, "WT") {
        ChildFlags::WAITING
    } else if str_eq(name, "KM") {
        ChildFlags::KILLME
    } else if str_eq(name, "FA") {
        ChildFlags::FAILING
    } else if str_eq(name, "ZO") {
        ChildFlags::ZOMBIE
    } else {
        0
    }
}

/// The text of a value that the reader took from the stream.
fn read_text(value: &String) -> (res: Option<String>)
    ensures
        match res {
            Some(text) => value_text(value@) == Some(text@),
            None => value_text(value@) is None,
        },
{
    let chars = chars_of(value.as_str());
    let mut bytes: Vec<u8> = Vec::new();
    let mut i: usize = 0;
    while i < chars.len()
        invariant
            i <= chars@.len(),
            chars@ == value@,
            bytes@ == value_bytes(value@.take(i as int)),
        decreases chars@.len() - i,
    {
        bytes.push(chars[i] as u8);
        assert(bytes@ =~= value_bytes(value@.take(i + 1)));
        i += 1;
    }
    assert(value@.take(i as int) =~= value@);
    match utf8_string(bytes) {
        Some(text) => {
            proof {
                encode_utf8_valid_utf8(text@);
                encode_utf8_decode_utf8(text@);
            }
            Some(text)
        },
        None => None,
    }
}

/// Applies a line of a record to the open entry.
fn apply_entry_line(child: &mut Child, token: StateToken, value: String)
    requires
        is_entry_token(token),
    ensures
        final(child)@ == entry_line(old(child)@, token, value@),
{
    match token {
        StateToken::Lev => {
            child.rlevel = value;
        },
        StateToken::Flag => {
            child.flags.insert(flag_for(value.as_str()));
        },
        StateToken::Pid => {
            let chars = chars_of(value.as_str());
            match parse_signed(&chars) {
                Some(pid) => {
                    child.pid = pid;
                },
                None => {},
            }
        },
        StateToken::Exs => {
            let chars = chars_of(value.as_str());
            match parse_signed(&chars) {
                Some(exstat) => {
                    child.exstat = exstat;
                },
                None => {},
            }
        },
        StateToken::Action => {
            match InitAction::from_keyword(value.as_str()) {
                Some(action) => {
                    child.action = action;
                },
                None => {},
            }
        },
        StateToken::Process => {
            child.process = value;
        },
        _ => {},
    }
}

/// The unsigned number that `value` stands for.
fn read_unsigned(value: &String) -> (res: Option<u64>)
    ensures
        res == unsigned_read(value@),
{
    let chars = chars_of(value.as_str());
    parse_unsigned(&chars)
}

/// The character that `value` consists of, if it is a single one.
fn read_char(value: &String) -> (res: Option<char>)
    ensures
        res == if value@.len() == 1 {
            Some(value@[0])
        } else {
            None
        },
{
    let chars = chars_of(value.as_str());
    if chars.len() == 1 {
        Some(chars[0])
    } else {
        None
    }
}

/// Whether the value of `token` is a number that sets a global setting.
pub open spec fn is_setting_token(token: StateToken) -> bool {
    token == StateToken::GotSign || token == StateToken::WroteWtmpReboot || token
        == StateToken::WroteUtmpReboot || token == StateToken::WroteWtmpRlevel || token
        == StateToken::WroteUtmpRlevel || token == StateToken::DidBoot || token
        == StateToken::SlTime
}

/// Applies the line of a global setting whose value is a number.
fn apply_setting_line(t: &mut Transferred, token: StateToken, value: String)
    requires
        is_setting_token(token),
    ensures
        forall|open: Option<ChildView>| #[trigger]
            final(t).decoding(open) == value_line(old(t).decoding(open), token, value@),
        final(t).rest_is_fresh() == old(t).rest_is_fresh(),
        final(t).state.family == old(t).state.family,
{
    match read_unsigned(&value) {
        Some(n) => {
            match token {
                StateToken::GotSign => {
                    t.got_signals = n != 0;
                },
                StateToken::WroteWtmpReboot => {
                    t.state.wrote_wtmp_reboot = n != 0;
                },
                StateToken::WroteUtmpReboot => {
                    t.state.wrote_utmp_reboot = n != 0;
                },
                StateToken::WroteWtmpRlevel => {
                    t.state.wrote_wtmp_rlevel = n != 0;
                },
                StateToken::WroteUtmpRlevel => {
                    t.state.wrote_utmp_rlevel = n != 0;
                },
                StateToken::DidBoot => {
                    t.state.did_boot = n != 0;
                },
                _ => {
                    t.state.sleep_time = n;
                },
            }
        },
        None => {},
    }
}

/// Applies the line of the version or of a runlevel.
fn apply_level_line(t: &mut Transferred, token: StateToken, value: String)
    requires
        token == StateToken::Ver || token == StateToken::Runlevel || token
            == StateToken::ThisLevel || token == StateToken::PrevLevel,
    ensures
        forall|open: Option<ChildView>| #[trigger]
            final(t).decoding(open) == value_line(old(t).decoding(open), token, value@),
        final(t).rest_is_fresh() == old(t).rest_is_fresh(),
        final(t).state.family == old(t).state.family,
{
    match token {
        StateToken::Ver => {
            t.version = value;
        },
        StateToken::Runlevel => {
            match read_char(&value) {
                Some(c) => {
                    t.state.curlevel = c;
                },
                None => {},
            }
        },
        StateToken::PrevLevel => {
            match read_char(&value) {
                Some(c) => {
                    t.state.prevlevel = c;
                },
                None => {},
            }
        },
        _ => {},
    }
}

/// Applies a line of a record to the entry that is open, if one is.
fn apply_record_line(open: &mut Option<Child>, token: StateToken, value: String)
    requires
        token == StateToken::Rec || is_entry_token(token),
    ensures
        open_view(*final(open)) == match token {
            StateToken::Rec => Some(blank_entry(value@)),
            _ => match open_view(*old(open)) {
                Some(e) => Some(entry_line(e, token, value@)),
                None => None,
            },
        },
{
    match token {
        StateToken::Rec => {
            let mut child = Child::with_time(0);
            child.id = value;
            *open = Some(child);
        },
        _ => {
            let mut taken: Option<Child> = None;
            core::mem::swap(open, &mut taken);
            match taken {
                Some(mut child) => {
                    apply_entry_line(&mut child, token, value);
                    *open = Some(child);
                },
                None => {},
            }
        },
    }
}

/// Applies a line with a value to what was decoded so far.
fn apply_value_line(t: &mut Transferred, open: &mut Option<Child>, token: StateToken, value: String)
    requires
        token != StateToken::End,
        token != StateToken::Eof,
        token != StateToken::Eor,
    ensures
        final(t).decoding(open_view(*final(open))) == value_line(
            old(t).decoding(open_view(*old(open))),
            token,
            value@,
        ),
        final(t).rest_is_fresh() == old(t).rest_is_fresh(),
        final(t).state.family == old(t).state.family,
{
    let is_setting = match token {
        StateToken::GotSign => true,
        StateToken::WroteWtmpReboot => true,
        StateToken::WroteUtmpReboot => true,
        StateToken::WroteWtmpRlevel => true,
        StateToken::WroteUtmpRlevel => true,
        StateToken::DidBoot => true,
        StateToken::SlTime => true,
        _ => false,
    };
    let is_level = match token {
        StateToken::Ver => true,
        StateToken::Runlevel => true,
        StateToken::ThisLevel => true,
        StateToken::PrevLevel => true,
        _ => false,
    };
    if is_setting {
        apply_setting_line(t, token, value);
        assert(t.decoding(open_view(*open)) == value_line(
            old(t).decoding(open_view(*open)),
            token,
            value@,
        ));
    } else if is_level {
        apply_level_line(t, token, value);
        assert(t.decoding(open_view(*open)) == value_line(
            old(t).decoding(open_view(*open)),
            token,
            value@,
        ));
    } else {
        apply_record_line(open, token, value);
    }
}

/// How many bytes the value of a line may take.
fn limit_for(token: StateToken) -> (res: usize)
    ensures
        res == value_limit(token),
{
    match token {
        StateToken::Ver => VERSION_LENGTH,
        StateToken::Rec => 2 * INITTAB_ID + 1,
        StateToken::Lev => 2 * RUNLEVEL_LENGTH + 1,
        StateToken::Action => ACTION_LENGTH + 1,
        StateToken::Process => 2 * PROCESS_LENGTH + 1,
        _ => VALUE_LENGTH,
    }
}

/// Takes the open entry into the table, or drops it when its id is taken.
fn close_open_record(t: &mut Transferred, open: &mut Option<Child>)
    ensures
        final(t).decoding(open_view(*final(open))) == close_record(
            old(t).decoding(open_view(*old(open))),
        ),
        final(t).rest_is_fresh() == old(t).rest_is_fresh(),
        ids_unique(final(t).state.family@),
{
    let mut taken: Option<Child> = None;
    core::mem::swap(open, &mut taken);
    match taken {
        Some(child) => {
            let _ = t.state.family.append(child);
        },
        None => {
            let _ = t.state.family.len();
        },
    }
}

/// Decodes a state stream.
///
/// Whatever the stream holds, decoding ends without an error: unknown lines
/// and malformed values are skipped one by one, and a stream that breaks off
/// yields what was complete before. Texts are read as UTF-8, as they were
/// written.
pub fn receive_state(reader: &mut StateReader) -> (res: Transferred)
    ensures
        res.decoding(None) == (Decoding { open: None, ..decode_state(old(reader).remaining()) }),
        res.rest_is_fresh(),
        ids_unique(res.state.family@),
{
    let mut t = Transferred { state: InitState::new(), got_signals: false, version: String::new() };
    let mut open: Option<Child> = None;
    let ghost input = reader.remaining();
    assert(t.decoding(open_view(open)) == decode_start());
    loop
        invariant_except_break
            decode_from(t.decoding(open_view(open)), reader.remaining()) == decode_from(
                decode_start(),
                input,
            ),
        invariant
            t.rest_is_fresh(),
            ids_unique(t.state.family@),
        ensures
            t.decoding(open_view(open)) == decode_from(decode_start(), input),
        decreases reader.remaining().len(),
    {
        let ghost now = reader.remaining();
        let left = reader.remaining_len();
        let token = get_cmd(reader);
        if left < 3 {
            break ;
        }
        proof {
            lemma_newline_at(now.skip(3));
        }
        match token {
            StateToken::End => {
                break ;
            },
            StateToken::Eof => {
                if !get_void(reader) {
                    break ;
                }
            },
            StateToken::Eor => {
                let _ = get_void(reader);
                close_open_record(&mut t, &mut open);
            },
            _ => {
                let value = get_string(reader, limit_for(token));
                proof {
                    lemma_consumed_bound(now.skip(3), value_limit(token));
                }
                match read_text(&value) {
                    Some(text) => {
                        apply_value_line(&mut t, &mut open, token, text);
                    },
                    None => {},
                }
            },
        }
    }
    t
}

/// `get_string` takes no more than there is.
pub proof fn lemma_consumed_bound(input: Seq<u8>, max_size: nat)
    ensures
        string_consumed(input, max_size) <= input.len(),
{
    lemma_span_bound(input, max_size, 0);
}

/// `get_string` turns no more bytes into characters than there are.
pub proof fn lemma_span_bound(input: Seq<u8>, max_size: nat, used: nat)
    ensures
        crate::reader::string_span(input, max_size, used) <= input.len(),
    decreases input.len(),
{
    if !(used >= max_size || input.len() == 0 || input[0] == crate::wire::NEWLINE) {
        lemma_span_bound(input.skip(1), max_size, used + crate::reader::latin1_width(input[0]));
    }
}

} // verus!
