//! Writing the state stream: the global settings and every entry of the
//! table, line by line.

use vstd::prelude::*;
use vstd::utf8::encode_utf8;
use crate::child::{Child, ChildView};
use crate::decimal::{digits, push_digits, push_signed, signed_digits};
use crate::flags::ChildFlags;
use crate::state::{InitState, VERSION};
use crate::wire::{StateToken, NEWLINE};

verus! {

/// What the state stream carries besides the entries.
pub struct WireGlobals {
    pub version: Seq<char>,
    pub curlevel: char,
    pub prevlevel: char,
    pub got_signals: bool,
    pub wrote_wtmp_reboot: bool,
    pub wrote_utmp_reboot: bool,
    pub sleep_time: u64,
    pub did_boot: bool,
}

/// What the stream carries of `state`, with the pending-signal indicator
/// `got_signals`.
pub open spec fn wire_globals(state: InitState, got_signals: bool) -> WireGlobals {
    WireGlobals {
        version: VERSION@,
        curlevel: state.curlevel,
        prevlevel: state.prevlevel,
        got_signals,
        wrote_wtmp_reboot: state.wrote_wtmp_reboot,
        wrote_utmp_reboot: state.wrote_utmp_reboot,
        sleep_time: state.sleep_time,
        did_boot: state.did_boot,
    }
}

/// A line: the token, the value, a newline.
pub open spec fn line(token: StateToken, value: Seq<u8>) -> Seq<u8> {
    (token.spec_name() + value).push(NEWLINE)
}

/// The value of a flag that is set or not: `1` or `0`.
pub open spec fn bool_value(b: bool) -> Seq<u8> {
    if b {
        seq!['1' as u8]
    } else {
        seq!['0' as u8]
    }
}

/// The name of a flag on the wire.
pub open spec fn flag_name(a: char, b: char) -> Seq<u8> {
    seq![a as u8, b as u8]
}

/// `out` followed by the line of a flag if the flag is set.
pub open spec fn with_flag_line(out: Seq<u8>, set: bool, a: char, b: char) -> Seq<u8> {
    if set {
        out + line(StateToken::Flag, flag_name(a, b))
    } else {
        out
    }
}

/// Number of flags that the stream has a name for: all seven.
pub const WIRE_FLAGS: usize = 7;

/// The flags in the order in which the stream names them, each with the two
/// letters of its name: running `RU`, demand `DE`, executed `XD`, waiting
/// `WT`, kill mark `KM`, failing `FA`, zombie `ZO`.
pub open spec fn wire_flag(k: int) -> (u32, char, char) {
    if k == 0 {
        (ChildFlags::RUNNING, 'R', 'U')
    } else if k == 1 {
        (ChildFlags::DEMAND, 'D', 'E')
    } else if k == 2 {
        (ChildFlags::XECUTED, 'X', 'D')
    } else if k == 3 {
        (ChildFlags::WAITING, 'W', 'T')
    } else if k == 4 {
        (ChildFlags::KILLME, 'K', 'M')
    } else if k == 5 {
        (ChildFlags::FAILING, 'F', 'A')
    } else {
        (ChildFlags::ZOMBIE, 'Z', 'O')
    }
}

/// `out` followed by one line for each of the first `n` flags of the stream
/// that `flags` holds.
pub open spec fn with_flag_lines_upto(out: Seq<u8>, flags: ChildFlags, n: nat) -> Seq<u8>
    decreases n,
{
    if n == 0 {
        out
    } else {
        let (mask, a, b) = wire_flag(n - 1);
        with_flag_line(with_flag_lines_upto(out, flags, (n - 1) as nat), flags.has(mask), a, b)
    }
}

/// `out` followed by one line for each flag that `flags` holds, in the order
/// of the stream.
pub open spec fn with_flag_lines(out: Seq<u8>, flags: ChildFlags) -> Seq<u8> {
    with_flag_lines_upto(out, flags, WIRE_FLAGS as nat)
}

/// The lines that open the record of `e`: its id, its runlevels, its flags.
pub open spec fn entry_head(e: ChildView) -> Seq<u8> {
    with_flag_lines(
        line(StateToken::Rec, encode_utf8(e.id)) + line(StateToken::Lev, encode_utf8(e.rlevel)),
        e.flags,
    )
}

/// The lines that close the record of `e`: pid, exit status, action,
/// command line, and the end of the record.
pub open spec fn entry_tail(e: ChildView) -> Seq<u8> {
    line(StateToken::Pid, signed_digits(e.pid as int)) + line(
        StateToken::Exs,
        signed_digits(e.exstat as int),
    ) + line(StateToken::Action, encode_utf8(e.action.spec_keyword())) + line(
        StateToken::Process,
        encode_utf8(e.process),
    ) + line(StateToken::Eor, Seq::<u8>::empty())
}

/// The record of `e`.
pub open spec fn encode_entry(e: ChildView) -> Seq<u8> {
    entry_head(e) + entry_tail(e)
}

/// The records of `table`, in table order.
pub open spec fn encode_entries(table: Seq<ChildView>) -> Seq<u8>
    decreases table.len(),
{
    if table.len() == 0 {
        Seq::<u8>::empty()
    } else {
        encode_entries(table.drop_last()) + encode_entry(table.last())
    }
}

/// The lines of the version and the runlevels.
pub open spec fn encode_levels(g: WireGlobals) -> Seq<u8> {
    line(StateToken::Ver, encode_utf8(g.version)) + line(
        StateToken::Runlevel,
        encode_utf8(seq![g.curlevel]),
    ) + line(StateToken::ThisLevel, encode_utf8(seq![g.curlevel])) + line(
        StateToken::PrevLevel,
        encode_utf8(seq![g.prevlevel]),
    )
}

/// The lines of the other global settings.
pub open spec fn encode_settings(g: WireGlobals) -> Seq<u8> {
    line(StateToken::GotSign, bool_value(g.got_signals)) + line(
        StateToken::WroteWtmpReboot,
        bool_value(g.wrote_wtmp_reboot),
    ) + line(StateToken::WroteUtmpReboot, bool_value(g.wrote_utmp_reboot)) + line(
        StateToken::SlTime,
        digits(g.sleep_time as nat),
    ) + line(StateToken::DidBoot, bool_value(g.did_boot))
}

/// The lines of the global settings.
pub open spec fn encode_globals(g: WireGlobals) -> Seq<u8> {
    encode_levels(g) + encode_settings(g)
}

/// The state stream: the global settings, the records, the end token.
pub open spec fn encode_state(g: WireGlobals, table: Seq<ChildView>) -> Seq<u8> {
    encode_globals(g) + encode_entries(table) + line(StateToken::End, Seq::<u8>::empty())
}

/// Puts `bytes` at the end of `out`.
fn push_bytes(out: &mut Vec<u8>, bytes: &[u8])
    ensures
        final(out)@ == old(out)@ + bytes@,
{
    let mut i: usize = 0;
    while i < bytes.len()
        invariant
            i <= bytes@.len(),
            out@ == old(out)@ + bytes@.take(i as int),
        decreases bytes@.len() - i,
    {
        out.push(bytes[i]);
        assert(bytes@.take(i + 1) =~= bytes@.take(i as int).push(bytes@[i as int]));
        assert(out@ =~= old(out)@ + bytes@.take(i + 1));
        i += 1;
    }
    assert(bytes@.take(i as int) =~= bytes@);
}

/// Writes the line of `token` with the text `text` as its value.
fn write_text(out: &mut Vec<u8>, token: StateToken, text: &str)
    ensures
        final(out)@ == old(out)@ + line(token, encode_utf8(text@)),
{
    token.write_name(out);
    push_bytes(out, text.as_bytes());
    out.push(NEWLINE);
    assert(out@ =~= old(out)@ + line(token, encode_utf8(text@)));
}

/// Writes the line of `token` with the character `c` as its value.
fn write_char(out: &mut Vec<u8>, token: StateToken, c: char)
    ensures
        final(out)@ == old(out)@ + line(token, encode_utf8(seq![c])),
{
    let mut text = String::new();
    text.push(c);
    assert(text@ =~= seq![c]);
    write_text(out, token, text.as_str());
}

/// Writes the line of `token` with `1` or `0` as its value.
fn write_bool(out: &mut Vec<u8>, token: StateToken, b: bool)
    ensures
        final(out)@ == old(out)@ + line(token, bool_value(b)),
{
    token.write_name(out);
    if b {
        out.push('1' as u8);
    } else {
        out.push('0' as u8);
    }
    out.push(NEWLINE);
    assert(out@ =~= old(out)@ + line(token, bool_value(b)));
}

/// Writes the line of `token` with the number `v` as its value.
fn write_signed(out: &mut Vec<u8>, token: StateToken, v: i32)
    ensures
        final(out)@ == old(out)@ + line(token, signed_digits(v as int)),
{
    token.write_name(out);
    push_signed(out, v);
    out.push(NEWLINE);
    assert(out@ =~= old(out)@ + line(token, signed_digits(v as int)));
}

/// Writes the line of `token` with the number `n` as its value.
fn write_unsigned(out: &mut Vec<u8>, token: StateToken, n: u64)
    ensures
        final(out)@ == old(out)@ + line(token, digits(n as nat)),
{
    token.write_name(out);
    push_digits(out, n);
    out.push(NEWLINE);
    assert(out@ =~= old(out)@ + line(token, digits(n as nat)));
}

/// The flag that the stream names at place `k`, with the letters of its
/// name.
fn flag_at(k: usize) -> (res: (u32, char, char))
    requires
        k < WIRE_FLAGS,
    ensures
        res == wire_flag(k as int),
        res.1 as u32 <= 0x7f,
        res.2 as u32 <= 0x7f,
{
    if k == 0 {
        (ChildFlags::RUNNING, 'R', 'U')
    } else if k == 1 {
        (ChildFlags::DEMAND, 'D', 'E')
    } else if k == 2 {
        (ChildFlags::XECUTED, 'X', 'D')
    } else if k == 3 {
        (ChildFlags::WAITING, 'W', 'T')
    } else if k == 4 {
        (ChildFlags::KILLME, 'K', 'M')
    } else if k == 5 {
        (ChildFlags::FAILING, 'F', 'A')
    } else {
        (ChildFlags::ZOMBIE, 'Z', 'O')
    }
}

/// Writes the line of a flag if the flag is set.
fn write_flag(out: &mut Vec<u8>, set: bool, a: char, b: char)
    requires
        a as u32 <= 0x7f,
        b as u32 <= 0x7f,
    ensures
        final(out)@ == with_flag_line(old(out)@, set, a, b),
{
    if set {
        StateToken::Flag.write_name(out);
        out.push(a as u8);
        out.push(b as u8);
        out.push(NEWLINE);
        assert(out@ =~= old(out)@ + line(StateToken::Flag, flag_name(a, b)));
    }
}

/// Appending is associative.
pub proof fn lemma_append_assoc(a: Seq<u8>, b: Seq<u8>, c: Seq<u8>)
    ensures
        (a + b) + c == a + (b + c),
{
    assert((a + b) + c =~= a + (b + c));
}

/// Writes the lines that open the record of `child`.
fn write_entry_head(out: &mut Vec<u8>, child: &Child)
    ensures
        final(out)@ == old(out)@ + entry_head(child@),
{
    let ghost start = out@;
    let ghost e = child@;
    let ghost l1 = line(StateToken::Rec, encode_utf8(e.id));
    let ghost l2 = line(StateToken::Lev, encode_utf8(e.rlevel));
    write_text(out, StateToken::Rec, child.id.as_str());
    write_text(out, StateToken::Lev, child.rlevel.as_str());
    proof {
        lemma_append_assoc(start, l1, l2);
    }
    assert(out@ == start + (l1 + l2));
    let mut k: usize = 0;
    while k < WIRE_FLAGS
        invariant
            k <= WIRE_FLAGS,
            e == child@,
            out@ == with_flag_lines_upto(start + (l1 + l2), e.flags, k as nat),
        decreases WIRE_FLAGS - k,
    {
        let (mask, a, b) = flag_at(k);
        write_flag(out, child.flags.contains(mask), a, b);
        k += 1;
    }
    proof {
        lemma_flag_lines_extend(start, l1 + l2, e.flags);
    }
}

/// Writes the lines that close the record of `child`.
fn write_entry_tail(out: &mut Vec<u8>, child: &Child)
    ensures
        final(out)@ == old(out)@ + entry_tail(child@),
{
    let ghost start = out@;
    let ghost e = child@;
    let ghost l1 = line(StateToken::Pid, signed_digits(e.pid as int));
    let ghost l2 = line(StateToken::Exs, signed_digits(e.exstat as int));
    let ghost l3 = line(StateToken::Action, encode_utf8(e.action.spec_keyword()));
    let ghost l4 = line(StateToken::Process, encode_utf8(e.process));
    let ghost l5 = line(StateToken::Eor, Seq::<u8>::empty());
    write_signed(out, StateToken::Pid, child.pid);
    write_signed(out, StateToken::Exs, child.exstat);
    proof {
        lemma_append_assoc(start, l1, l2);
    }
    write_text(out, StateToken::Action, child.action.keyword());
    proof {
        lemma_append_assoc(start, l1 + l2, l3);
    }
    write_text(out, StateToken::Process, child.process.as_str());
    proof {
        lemma_append_assoc(start, l1 + l2 + l3, l4);
    }
    let ghost mid = out@;
    StateToken::Eor.write_name(out);
    out.push(NEWLINE);
    assert(out@ =~= mid + l5);
    proof {
        lemma_append_assoc(start, l1 + l2 + l3 + l4, l5);
    }
}

/// Writes the record of `child`.
pub fn write_entry(out: &mut Vec<u8>, child: &Child)
    ensures
        final(out)@ == old(out)@ + encode_entry(child@),
{
    let ghost start = out@;
    write_entry_head(out, child);
    write_entry_tail(out, child);
    proof {
        lemma_append_assoc(start, entry_head(child@), entry_tail(child@));
    }
}

/// Flag lines that follow `a + b` are `a` followed by the flag lines that
/// follow `b`.
pub proof fn lemma_flag_lines_upto_extend(a: Seq<u8>, b: Seq<u8>, flags: ChildFlags, n: nat)
    ensures
        with_flag_lines_upto(a + b, flags, n) == a + with_flag_lines_upto(b, flags, n),
    decreases n,
{
    if n > 0 {
        lemma_flag_lines_upto_extend(a, b, flags, (n - 1) as nat);
        let (mask, x, y) = wire_flag(n - 1);
        let before = with_flag_lines_upto(b, flags, (n - 1) as nat);
        lemma_append_assoc(a, before, line(StateToken::Flag, flag_name(x, y)));
    }
}

/// Flag lines that follow `a + b` are `a` followed by the flag lines that
/// follow `b`.
pub proof fn lemma_flag_lines_extend(a: Seq<u8>, b: Seq<u8>, flags: ChildFlags)
    ensures
        with_flag_lines(a + b, flags) == a + with_flag_lines(b, flags),
{
    lemma_flag_lines_upto_extend(a, b, flags, WIRE_FLAGS as nat);
}

/// Writes the lines of the version and the runlevels.
fn write_levels(out: &mut Vec<u8>, state: &InitState)
    ensures
        final(out)@ == old(out)@ + encode_levels(wire_globals(*state, false)),
{
    let ghost start = out@;
    let ghost l1 = line(StateToken::Ver, encode_utf8(VERSION@));
    let ghost l2 = line(StateToken::Runlevel, encode_utf8(seq![state.curlevel]));
    let ghost l3 = line(StateToken::ThisLevel, encode_utf8(seq![state.curlevel]));
    let ghost l4 = line(StateToken::PrevLevel, encode_utf8(seq![state.prevlevel]));
    write_text(out, StateToken::Ver, VERSION);
    write_char(out, StateToken::Runlevel, state.curlevel);
    proof {
        lemma_append_assoc(start, l1, l2);
    }
    write_char(out, StateToken::ThisLevel, state.curlevel);
    proof {
        lemma_append_assoc(start, l1 + l2, l3);
    }
    write_char(out, StateToken::PrevLevel, state.prevlevel);
    proof {
        lemma_append_assoc(start, l1 + l2 + l3, l4);
    }
}

/// Writes the lines of the other global settings.
fn write_settings(out: &mut Vec<u8>, state: &InitState, got_signals: bool)
    ensures
        final(out)@ == old(out)@ + encode_settings(wire_globals(*state, got_signals)),
{
    let ghost start = out@;
    let ghost l1 = line(StateToken::GotSign, bool_value(got_signals));
    let ghost l2 = line(StateToken::WroteWtmpReboot, bool_value(state.wrote_wtmp_reboot));
    let ghost l3 = line(StateToken::WroteUtmpReboot, bool_value(state.wrote_utmp_reboot));
    let ghost l4 = line(StateToken::SlTime, digits(state.sleep_time as nat));
    let ghost l5 = line(StateToken::DidBoot, bool_value(state.did_boot));
    write_bool(out, StateToken::GotSign, got_signals);
    write_bool(out, StateToken::WroteWtmpReboot, state.wrote_wtmp_reboot);
    proof {
        lemma_append_assoc(start, l1, l2);
    }
    write_bool(out, StateToken::WroteUtmpReboot, state.wrote_utmp_reboot);
    proof {
        lemma_append_assoc(start, l1 + l2, l3);
    }
    write_unsigned(out, StateToken::SlTime, state.sleep_time);
    proof {
        lemma_append_assoc(start, l1 + l2 + l3, l4);
    }
    write_bool(out, StateToken::DidBoot, state.did_boot);
    proof {
        lemma_append_assoc(start, l1 + l2 + l3 + l4, l5);
    }
}

/// The state stream for `state`: the global settings, with `got_signals` as
/// the pending-signal indicator, then one record for each entry of the table
/// in table order, then the end token.
pub fn send_state(state: &InitState, got_signals: bool) -> (out: Vec<u8>)
    ensures
        out@ == encode_state(wire_globals(*state, got_signals), state.family@),
{
    let ghost g = wire_globals(*state, got_signals);
    let mut out: Vec<u8> = Vec::new();
    write_levels(&mut out, state);
    write_settings(&mut out, state, got_signals);
    assert(out@ =~= encode_levels(g) + encode_settings(g));
    let n = state.family.len();
    let mut i: usize = 0;
    while i < n
        invariant
            i <= n,
            n == state.family@.len(),
            out@ == encode_globals(g) + encode_entries(state.family@.take(i as int)),
        decreases n - i,
    {
        let ghost before = out@;
        match state.family.get(i) {
            Some(child) => {
                write_entry(&mut out, child);
                proof {
                    let t = state.family@;
                    assert(t.take(i + 1).drop_last() =~= t.take(i as int));
                    assert(t.take(i + 1).last() == child@);
                    lemma_append_assoc(
                        encode_globals(g),
                        encode_entries(t.take(i as int)),
                        encode_entry(child@),
                    );
                }
            },
            None => {},
        }
        i += 1;
    }
    assert(state.family@.take(i as int) =~= state.family@);
    let ghost body = out@;
    StateToken::End.write_name(&mut out);
    out.push(NEWLINE);
    assert(out@ =~= body + line(StateToken::End, Seq::<u8>::empty()));
    out
}

} // verus!
