//! What is written to the state stream is read back as it was.

use vstd::prelude::*;
use vstd::utf8::{
    encode_utf8, encode_utf8_decode_utf8, encode_utf8_valid_utf8, is_ascii_chars,
    is_ascii_chars_encode_utf8,
};
use crate::action::{lemma_keyword_names_action, InitAction};
use crate::child::{ChildView, INITTAB_ID, PROCESS_LENGTH, RUNLEVEL_LENGTH};
use crate::decimal::{
    digit_chars, digits, lemma_digits_value, lemma_signed_value, signed_chars, signed_digits,
};
use crate::decode::{
    blank_entry, close_record, decode_from, decode_start, decode_state, flag_mask, value_bytes,
    value_limit, value_line, value_text, Decoding, VERSION_LENGTH,
};
use crate::encode::{
    bool_value, encode_entries, encode_entry, encode_globals, encode_levels, encode_settings,
    encode_state, entry_head, entry_tail, flag_name, lemma_append_assoc, lemma_flag_lines_extend,
    line, wire_flag, with_flag_line, with_flag_lines, with_flag_lines_upto, WireGlobals,
    WIRE_FLAGS,
};
use crate::flags::ChildFlags;
use crate::reader::{
    after_line, latin1, latin1_len, newline_at, next_token, string_consumed, string_read,
    string_span,
};
use crate::table::{has_id, ids_unique};
use crate::text::byte_len;
use crate::utf8_facts::{lemma_encode_len, lemma_encode_on_one_line, no_newline, on_one_line};
use crate::wire::{lemma_name_spells_token, StateToken, NEWLINE};

verus! {

/// Whether every byte of `v` is an ASCII character other than the newline.
pub open spec fn plain(v: Seq<u8>) -> bool {
    forall|i: int| 0 <= i < v.len() ==> (#[trigger] v[i]) < 0x80 && v[i] != NEWLINE
}

/// Whether every character of `s` is an ASCII character other than the
/// newline.
pub open spec fn wire_text(s: Seq<char>) -> bool {
    forall|i: int| 0 <= i < s.len() ==> (#[trigger] s[i]) <= '\x7f' && s[i] != '\n'
}

/// Whether the entry goes over the wire unchanged: its id, runlevels and
/// command line hold no newline and are no longer in bytes than an entry
/// allows.
pub open spec fn wire_safe_entry(e: ChildView) -> bool {
    &&& on_one_line(e.id) && byte_len(e.id) <= INITTAB_ID
    &&& on_one_line(e.rlevel) && byte_len(e.rlevel) <= RUNLEVEL_LENGTH
    &&& on_one_line(e.process) && byte_len(e.process) <= PROCESS_LENGTH
}

/// Whether the settings go over the wire unchanged: the version holds no
/// newline and is short enough for the reader to take it whole, and neither
/// runlevel is the newline.
pub open spec fn wire_safe_globals(g: WireGlobals) -> bool {
    &&& on_one_line(g.version) && 2 * byte_len(g.version) < VERSION_LENGTH
    &&& g.curlevel != '\n'
    &&& g.prevlevel != '\n'
}

/// `flags` with `mask` if `all` has it.
pub open spec fn keep_flag(flags: ChildFlags, all: ChildFlags, mask: u32) -> ChildFlags {
    if all.has(mask) {
        flags.with(mask)
    } else {
        flags
    }
}

/// `flags` with each of the first `n` flags of the stream that `all` has.
pub open spec fn kept_upto(flags: ChildFlags, all: ChildFlags, n: nat) -> ChildFlags
    decreases n,
{
    if n == 0 {
        flags
    } else {
        keep_flag(kept_upto(flags, all, (n - 1) as nat), all, wire_flag(n - 1).0)
    }
}

/// The flags that come back from the stream: every named flag of `flags`.
/// Bits without a name have no line and stay behind.
pub open spec fn kept_flags(flags: ChildFlags) -> ChildFlags {
    ChildFlags { bits: flags.bits & ChildFlags::ALL }
}

/// What the stream carries of an entry: id, runlevels, action, command
/// line, pid, exit status and every named flag. The respawn history and a
/// staged definition stay behind.
pub open spec fn wire_image(e: ChildView) -> ChildView {
    ChildView { flags: kept_flags(e.flags), tm: 0, count: 0, shadow: None, ..e }
}

/// What the stream carries of a table.
pub open spec fn wire_images(table: Seq<ChildView>) -> Seq<ChildView> {
    Seq::new(table.len(), |i: int| wire_image(table[i]))
}

/// No character lies below the first.
pub proof fn lemma_char_range(c: char)
    ensures
        '\0' <= c,
{
}

/// Wire text is encoded byte for character.
pub proof fn lemma_wire_text(s: Seq<char>)
    requires
        wire_text(s),
    ensures
        encode_utf8(s).len() == s.len(),
        plain(encode_utf8(s)),
        latin1(encode_utf8(s)) == s,
{
    assert forall|i: int| 0 <= i < s.len() implies '\0' <= #[trigger] s[i] <= '\x7f' by {
        lemma_char_range(s[i]);
    }
    assert(is_ascii_chars(s));
    is_ascii_chars_encode_utf8(s);
    let v = encode_utf8(s);
    assert forall|i: int| 0 <= i < v.len() implies (#[trigger] v[i]) < 0x80 && v[i]
        != NEWLINE by {
        assert(s[i] as u8 == v[i]);
        assert(s[i] <= '\x7f' && s[i] != '\n');
    }
    assert forall|i: int| 0 <= i < s.len() implies latin1(v)[i] == s[i] by {
        assert(s[i] as u8 == v[i]);
        assert(s[i] <= '\x7f');
    }
    assert(latin1(v) =~= s);
}

/// Plain bytes take one byte each when they are read as characters.
pub proof fn lemma_plain_len(v: Seq<u8>)
    requires
        plain(v),
    ensures
        latin1_len(v) == v.len(),
    decreases v.len(),
{
    if v.len() > 0 {
        assert(plain(v.drop_last())) by {
            assert forall|i: int| 0 <= i < v.drop_last().len() implies (
            #[trigger] v.drop_last()[i]) < 0x80 && v.drop_last()[i] != NEWLINE by {
                assert(v.drop_last()[i] == v[i]);
            }
        }
        lemma_plain_len(v.drop_last());
        assert(v.last() == v[v.len() - 1]);
    }
}

/// The reader turns plain bytes before a newline into characters one by
/// one, as long as they fit.
pub proof fn lemma_span_plain(v: Seq<u8>, rest: Seq<u8>, max_size: nat, used: nat)
    requires
        plain(v),
        used + v.len() < max_size,
    ensures
        string_span(v.push(NEWLINE) + rest, max_size, used) == v.len(),
    decreases v.len(),
{
    let input = v.push(NEWLINE) + rest;
    if v.len() == 0 {
        assert(input[0] == NEWLINE);
    } else {
        assert(input[0] == v[0]);
        assert(v[0] < 0x80 && v[0] != NEWLINE);
        let w = v.skip(1);
        assert(plain(w)) by {
            assert forall|i: int| 0 <= i < w.len() implies (#[trigger] w[i]) < 0x80 && w[i]
                != NEWLINE by {
                assert(w[i] == v[i + 1]);
            }
        }
        assert(input.skip(1) =~= w.push(NEWLINE) + rest);
        lemma_span_plain(w, rest, max_size, used + 1);
    }
}

/// A plain value before a newline is read whole, and the newline with it.
pub proof fn lemma_read_plain(v: Seq<u8>, rest: Seq<u8>, max_size: nat)
    requires
        plain(v),
        v.len() < max_size,
    ensures
        string_read(v.push(NEWLINE) + rest, max_size) == latin1(v),
        (v.push(NEWLINE) + rest).skip(string_consumed(v.push(NEWLINE) + rest, max_size) as int)
            == rest,
{
    let input = v.push(NEWLINE) + rest;
    lemma_span_plain(v, rest, max_size, 0);
    assert(input.take(v.len() as int) =~= v);
    lemma_plain_len(v);
    assert(input.skip(v.len() as int + 1) =~= rest);
}

/// The characters that the reader makes of bytes stand for those bytes.
pub proof fn lemma_value_bytes(v: Seq<u8>)
    ensures
        value_bytes(latin1(v)) == v,
{
    assert(value_bytes(latin1(v)) =~= v);
}

/// Plain bytes are their own text.
pub proof fn lemma_plain_text(v: Seq<u8>)
    requires
        plain(v),
    ensures
        value_text(latin1(v)) == Some(latin1(v)),
{
    let s = latin1(v);
    assert forall|i: int| 0 <= i < s.len() implies '\0' <= #[trigger] s[i] <= '\x7f' by {
        lemma_char_range(s[i]);
        assert(v[i] < 0x80);
    }
    assert(is_ascii_chars(s));
    is_ascii_chars_encode_utf8(s);
    assert(encode_utf8(s) =~= v) by {
        assert forall|i: int| 0 <= i < v.len() implies encode_utf8(s)[i] == v[i] by {
            assert(s[i] as u8 == encode_utf8(s)[i]);
            assert(v[i] < 0x80);
        }
    }
    lemma_value_bytes(v);
    encode_utf8_valid_utf8(s);
    encode_utf8_decode_utf8(s);
}

/// A line with a plain value that fits is decoded as that value.
pub proof fn lemma_decode_line(d: Decoding, token: StateToken, v: Seq<u8>, rest: Seq<u8>)
    requires
        token != StateToken::Eof,
        token != StateToken::End,
        token != StateToken::Eor,
        plain(v),
        v.len() < value_limit(token),
    ensures
        decode_from(d, line(token, v) + rest) == decode_from(
            value_line(d, token, latin1(v)),
            rest,
        ),
{
    let input = line(token, v) + rest;
    lemma_name_spells_token(token);
    let name = token.spec_name();
    assert(input[0] == name[0] && input[1] == name[1] && input[2] == name[2]);
    assert(next_token(input) == token);
    let body = input.skip(3);
    assert(body =~= v.push(NEWLINE) + rest);
    lemma_read_plain(v, rest, value_limit(token));
    lemma_plain_text(v);
}

/// Bytes take two bytes each at most when they are read as characters.
pub proof fn lemma_latin1_len_bound(v: Seq<u8>)
    ensures
        latin1_len(v) <= 2 * v.len(),
    decreases v.len(),
{
    if v.len() > 0 {
        lemma_latin1_len_bound(v.drop_last());
    }
}

/// The reader turns bytes before a newline into characters one by one, as
/// long as twice their number fits.
pub proof fn lemma_span_text(v: Seq<u8>, rest: Seq<u8>, max_size: nat, used: nat)
    requires
        no_newline(v),
        used + 2 * v.len() < max_size,
    ensures
        string_span(v.push(NEWLINE) + rest, max_size, used) == v.len(),
    decreases v.len(),
{
    let input = v.push(NEWLINE) + rest;
    if v.len() == 0 {
        assert(input[0] == NEWLINE);
    } else {
        assert(input[0] == v[0]);
        assert(v[0] != NEWLINE);
        let w = v.skip(1);
        assert(no_newline(w)) by {
            assert forall|i: int| 0 <= i < w.len() implies (#[trigger] w[i]) != NEWLINE by {
                assert(w[i] == v[i + 1]);
            }
        }
        assert(input.skip(1) =~= w.push(NEWLINE) + rest);
        lemma_span_text(w, rest, max_size, used + crate::reader::latin1_width(v[0]));
    }
}

/// A value without a newline byte is read whole, and the newline after it
/// with it, if twice its length fits.
pub proof fn lemma_read_text(v: Seq<u8>, rest: Seq<u8>, max_size: nat)
    requires
        no_newline(v),
        2 * v.len() < max_size,
    ensures
        string_read(v.push(NEWLINE) + rest, max_size) == latin1(v),
        (v.push(NEWLINE) + rest).skip(string_consumed(v.push(NEWLINE) + rest, max_size) as int)
            == rest,
{
    let input = v.push(NEWLINE) + rest;
    lemma_span_text(v, rest, max_size, 0);
    assert(input.take(v.len() as int) =~= v);
    lemma_latin1_len_bound(v);
    assert(input.skip(v.len() as int + 1) =~= rest);
}

/// A line with a text that holds no newline and fits is decoded as that
/// text, whatever its characters.
pub proof fn lemma_decode_text_line(d: Decoding, token: StateToken, s: Seq<char>, rest: Seq<u8>)
    requires
        token != StateToken::Eof,
        token != StateToken::End,
        token != StateToken::Eor,
        on_one_line(s),
        2 * byte_len(s) < value_limit(token),
    ensures
        decode_from(d, line(token, encode_utf8(s)) + rest) == decode_from(
            value_line(d, token, s),
            rest,
        ),
{
    let v = encode_utf8(s);
    let input = line(token, v) + rest;
    lemma_encode_len(s);
    lemma_encode_on_one_line(s);
    lemma_name_spells_token(token);
    let name = token.spec_name();
    assert(input[0] == name[0] && input[1] == name[1] && input[2] == name[2]);
    assert(next_token(input) == token);
    let body = input.skip(3);
    assert(body =~= v.push(NEWLINE) + rest);
    lemma_read_text(v, rest, value_limit(token));
    lemma_value_bytes(v);
    encode_utf8_valid_utf8(s);
    encode_utf8_decode_utf8(s);
}

/// The end of a record is decoded as such.
pub proof fn lemma_decode_eor(d: Decoding, rest: Seq<u8>)
    ensures
        decode_from(d, line(StateToken::Eor, Seq::<u8>::empty()) + rest) == decode_from(
            close_record(d),
            rest,
        ),
{
    let input = line(StateToken::Eor, Seq::<u8>::empty()) + rest;
    lemma_name_spells_token(StateToken::Eor);
    let name = StateToken::Eor.spec_name();
    assert(input[0] == name[0] && input[1] == name[1] && input[2] == name[2]);
    let body = input.skip(3);
    assert(body =~= seq![NEWLINE] + rest);
    assert(body[0] == NEWLINE);
    assert(newline_at(body) == 0);
    assert(after_line(body) =~= rest);
}

/// The end token ends the decoding.
pub proof fn lemma_decode_end(d: Decoding, rest: Seq<u8>)
    ensures
        decode_from(d, line(StateToken::End, Seq::<u8>::empty()) + rest) == d,
{
    let input = line(StateToken::End, Seq::<u8>::empty()) + rest;
    lemma_name_spells_token(StateToken::End);
    let name = StateToken::End.spec_name();
    assert(input[0] == name[0] && input[1] == name[1] && input[2] == name[2]);
}

/// Ten to the power of `k`.
pub open spec fn pow10(k: nat) -> nat
    decreases k,
{
    if k == 0 {
        1
    } else {
        10 * pow10((k - 1) as nat)
    }
}

/// A number below ten to the `k` has no more than `k` digits.
pub proof fn lemma_digits_len(n: nat, k: nat)
    requires
        k >= 1,
        n < pow10(k),
    ensures
        digits(n).len() <= k,
    decreases n,
{
    if n >= 10 {
        assert(pow10(1) == 10) by {
            assert(pow10(0) == 1);
        }
        assert(k >= 2);
        assert(pow10(k) == 10 * pow10((k - 1) as nat));
        lemma_digits_len(n / 10, (k - 1) as nat);
    }
}

/// The digits of a number are plain bytes, and read back as the number.
pub proof fn lemma_digits_plain(n: nat)
    ensures
        plain(digits(n)),
        latin1(digits(n)) == digit_chars(n),
{
    lemma_digits_value(n);
    assert forall|i: int| 0 <= i < digits(n).len() implies (#[trigger] digits(n)[i]) < 0x80
        && digits(n)[i] != NEWLINE by {
        assert('0' as u8 <= digits(n)[i] <= '9' as u8);
    }
    assert(latin1(digits(n)) =~= digit_chars(n));
}

/// A sleep time goes over the wire in fewer bytes than the reader takes.
pub proof fn lemma_u64_digits(n: u64)
    ensures
        digits(n as nat).len() <= 20,
{
    assert(pow10(20) == 100000000000000000000nat) by {
        reveal_with_fuel(pow10, 21);
    }
    lemma_digits_len(n as nat, 20);
}

/// A pid or an exit status goes over the wire as plain bytes, in fewer than
/// the reader takes, and reads back as it was.
pub proof fn lemma_i32_digits(v: i32)
    ensures
        plain(signed_digits(v as int)),
        signed_digits(v as int).len() <= 11,
        latin1(signed_digits(v as int)) == signed_chars(v as int),
        crate::decode::signed_read(signed_chars(v as int)) == Some(v),
{
    lemma_signed_value(v as int);
    assert(pow10(10) == 10000000000nat) by {
        reveal_with_fuel(pow10, 11);
    }
    if v < 0 {
        lemma_digits_len((-v) as nat, 10);
    } else {
        lemma_digits_len(v as nat, 10);
    }
    assert(latin1(signed_digits(v as int)) =~= signed_chars(v as int));
}

/// The value of a flag that is set or not reads back as it was.
pub proof fn lemma_bool_value(b: bool)
    ensures
        plain(bool_value(b)),
        bool_value(b).len() == 1,
        crate::decode::unsigned_read(latin1(bool_value(b))) == Some(
            if b {
                1u64
            } else {
                0u64
            },
        ),
{
    let s = latin1(bool_value(b));
    assert(s.len() == 1);
    assert(s.drop_last() =~= Seq::<char>::empty());
    assert(crate::decimal::number_value(Seq::<char>::empty()) == 0);
    assert(s.last() == s[0]);
    if b {
        assert(s[0] == '1');
    } else {
        assert(s[0] == '0');
    }
}

/// The keyword of an action is wire text that the reader takes whole.
pub proof fn lemma_keyword_wire_text(action: InitAction)
    ensures
        wire_text(action.spec_keyword()),
        action.spec_keyword().len() <= 12,
{
    reveal_strlit("respawn");
    reveal_strlit("wait");
    reveal_strlit("once");
    reveal_strlit("boot");
    reveal_strlit("bootwait");
    reveal_strlit("powerfail");
    reveal_strlit("powerwait");
    reveal_strlit("powerokwait");
    reveal_strlit("ctrlaltdel");
    reveal_strlit("off");
    reveal_strlit("ondemand");
    reveal_strlit("initdefault");
    reveal_strlit("sysinit");
    reveal_strlit("powerfailnow");
    reveal_strlit("kbrequest");
}

/// The name of each flag of the stream is plain and stands for its flag.
pub proof fn lemma_flag_names(k: int)
    requires
        0 <= k < WIRE_FLAGS,
    ensures
        plain(flag_name(wire_flag(k).1, wire_flag(k).2)),
        flag_mask(latin1(flag_name(wire_flag(k).1, wire_flag(k).2))) == wire_flag(k).0,
{
    reveal_strlit("RU");
    reveal_strlit("DE");
    reveal_strlit("XD");
    reveal_strlit("WT");
    reveal_strlit("KM");
    reveal_strlit("FA");
    reveal_strlit("ZO");
    let name = latin1(flag_name(wire_flag(k).1, wire_flag(k).2));
    assert(name.len() == 2);
    assert(name[0] == wire_flag(k).1 && name[1] == wire_flag(k).2);
    if k == 0 {
        assert(name =~= "RU"@);
    } else if k == 1 {
        assert(name =~= "DE"@);
        assert(name[0] != "RU"@[0]);
    } else if k == 2 {
        assert(name =~= "XD"@);
        assert(name[0] != "RU"@[0] && name[0] != "DE"@[0]);
    } else if k == 3 {
        assert(name =~= "WT"@);
        assert(name[0] != "RU"@[0] && name[0] != "DE"@[0] && name[0] != "XD"@[0]);
    } else if k == 4 {
        assert(name =~= "KM"@);
        assert(name[0] != "RU"@[0] && name[0] != "DE"@[0] && name[0] != "XD"@[0] && name[0]
            != "WT"@[0]);
    } else if k == 5 {
        assert(name =~= "FA"@);
        assert(name[0] != "RU"@[0] && name[0] != "DE"@[0] && name[0] != "XD"@[0] && name[0]
            != "WT"@[0] && name[0] != "KM"@[0]);
    } else {
        assert(name =~= "ZO"@);
        assert(name[0] != "RU"@[0] && name[0] != "DE"@[0] && name[0] != "XD"@[0] && name[0]
            != "WT"@[0] && name[0] != "KM"@[0] && name[0] != "FA"@[0]);
    }
}

/// What was decoded, with `e` as the open entry.
pub open spec fn opened(d: Decoding, e: ChildView) -> Decoding {
    Decoding { open: Some(e), ..d }
}

/// The line of a flag, where there is one, sets the flag of the open entry.
pub proof fn lemma_decode_flag(
    d: Decoding,
    e: ChildView,
    all: ChildFlags,
    mask: u32,
    a: char,
    b: char,
    rest: Seq<u8>,
)
    requires
        plain(flag_name(a, b)),
        flag_mask(latin1(flag_name(a, b))) == mask,
    ensures
        decode_from(opened(d, e), with_flag_line(Seq::<u8>::empty(), all.has(mask), a, b) + rest)
            == decode_from(
            opened(d, ChildView { flags: keep_flag(e.flags, all, mask), ..e }),
            rest,
        ),
{
    let part = with_flag_line(Seq::<u8>::empty(), all.has(mask), a, b);
    if all.has(mask) {
        assert(part =~= line(StateToken::Flag, flag_name(a, b)));
        lemma_decode_line(opened(d, e), StateToken::Flag, flag_name(a, b), rest);
    } else {
        assert(part + rest =~= rest);
        assert(opened(d, ChildView { flags: keep_flag(e.flags, all, mask), ..e }) == opened(d, e));
    }
}

/// The flag lines of a record set, one by one, the flags that they name.
pub proof fn lemma_decode_flags_upto(
    d: Decoding,
    e: ChildView,
    flags: ChildFlags,
    n: nat,
    rest: Seq<u8>,
)
    requires
        n <= WIRE_FLAGS,
    ensures
        decode_from(opened(d, e), with_flag_lines_upto(Seq::<u8>::empty(), flags, n) + rest)
            == decode_from(opened(d, ChildView { flags: kept_upto(e.flags, flags, n), ..e }), rest),
    decreases n,
{
    let none = Seq::<u8>::empty();
    if n == 0 {
        assert(none + rest =~= rest);
        assert((ChildView { flags: kept_upto(e.flags, flags, n), ..e }) == e);
    } else {
        let (mask, a, b) = wire_flag(n - 1);
        let before = with_flag_lines_upto(none, flags, (n - 1) as nat);
        let part = with_flag_line(none, flags.has(mask), a, b);
        assert(with_flag_lines_upto(none, flags, n) =~= before + part);
        lemma_append_assoc(before, part, rest);
        lemma_decode_flags_upto(d, e, flags, (n - 1) as nat, part + rest);
        let mid = ChildView { flags: kept_upto(e.flags, flags, (n - 1) as nat), ..e };
        lemma_flag_names(n - 1);
        lemma_decode_flag(d, mid, flags, mask, a, b, rest);
    }
}

/// What the flag lines of the stream add up to, flag by flag.
pub proof fn lemma_kept_upto_bits(all: ChildFlags)
    ensures
        kept_upto(ChildFlags { bits: 0 }, all, WIRE_FLAGS as nat) == kept_flags(all),
{
    let b = all.bits;
    let k0 = ChildFlags { bits: 0 };
    let k1 = kept_upto(k0, all, 1);
    let k2 = kept_upto(k0, all, 2);
    let k3 = kept_upto(k0, all, 3);
    let k4 = kept_upto(k0, all, 4);
    let k5 = kept_upto(k0, all, 5);
    let k6 = kept_upto(k0, all, 6);
    let k7 = kept_upto(k0, all, 7);
    assert(kept_upto(k0, all, 0) == k0);
    assert(k1 == keep_flag(k0, all, ChildFlags::RUNNING));
    assert(k2 == keep_flag(k1, all, ChildFlags::DEMAND));
    assert(k3 == keep_flag(k2, all, ChildFlags::XECUTED));
    assert(k4 == keep_flag(k3, all, ChildFlags::WAITING));
    assert(k5 == keep_flag(k4, all, ChildFlags::KILLME));
    assert(k6 == keep_flag(k5, all, ChildFlags::FAILING));
    assert(k7 == keep_flag(k6, all, ChildFlags::ZOMBIE));
    lemma_keep_flag_bits(k0, all, ChildFlags::RUNNING);
    lemma_keep_flag_bits(k1, all, ChildFlags::DEMAND);
    lemma_keep_flag_bits(k2, all, ChildFlags::XECUTED);
    lemma_keep_flag_bits(k3, all, ChildFlags::WAITING);
    lemma_keep_flag_bits(k4, all, ChildFlags::KILLME);
    lemma_keep_flag_bits(k5, all, ChildFlags::FAILING);
    lemma_keep_flag_bits(k6, all, ChildFlags::ZOMBIE);
    assert((((((((0u32 | (b & 2)) | (b & 8)) | (b & 128)) | (b & 32)) | (b & 4)) | (b & 16)) | (b
        & 64)) == b & 254) by (bit_vector);
}

/// Keeping a named flag adds the bit of the flag if it is set.
pub proof fn lemma_keep_flag_bits(flags: ChildFlags, all: ChildFlags, mask: u32)
    requires
        crate::flags::is_named_bit(mask),
    ensures
        keep_flag(flags, all, mask).bits == flags.bits | (all.bits & mask),
{
    let f = flags.bits;
    let b = all.bits;
    assert((mask == 2 || mask == 4 || mask == 8 || mask == 16 || mask == 32 || mask == 64 || mask
        == 128) ==> (if b & mask == mask {
        f | mask
    } else {
        f
    }) == f | (b & mask)) by (bit_vector);
}

/// The flag lines of a record set every named flag of the entry.
pub proof fn lemma_decode_flags(d: Decoding, e: ChildView, flags: ChildFlags, rest: Seq<u8>)
    requires
        e.flags == (ChildFlags { bits: 0 }),
    ensures
        decode_from(opened(d, e), with_flag_lines(Seq::<u8>::empty(), flags) + rest)
            == decode_from(opened(d, ChildView { flags: kept_flags(flags), ..e }), rest),
{
    lemma_decode_flags_upto(d, e, flags, WIRE_FLAGS as nat, rest);
    lemma_kept_upto_bits(flags);
}

/// The lines that open a record are decoded as the id, the runlevels and
/// the flags of the entry.
pub proof fn lemma_decode_head(d: Decoding, e: ChildView, rest: Seq<u8>)
    requires
        wire_safe_entry(e),
    ensures
        decode_from(d, entry_head(e) + rest) == decode_from(
            opened(
                d,
                ChildView { rlevel: e.rlevel, flags: kept_flags(e.flags), ..blank_entry(e.id) },
            ),
            rest,
        ),
{
    let empty = Seq::<u8>::empty();
    let r1 = line(StateToken::Rec, encode_utf8(e.id));
    let r2 = line(StateToken::Lev, encode_utf8(e.rlevel));
    let fl = with_flag_lines(empty, e.flags);
    assert((r1 + r2) + empty =~= r1 + r2);
    lemma_flag_lines_extend(r1 + r2, empty, e.flags);
    assert(entry_head(e) == (r1 + r2) + fl);
    lemma_append_assoc(r1 + r2, fl, rest);
    lemma_append_assoc(r1, r2, fl + rest);
    lemma_decode_text_line(d, StateToken::Rec, e.id, r2 + (fl + rest));
    let d1 = value_line(d, StateToken::Rec, e.id);
    assert(d1 == opened(d, blank_entry(e.id)));
    lemma_decode_text_line(d1, StateToken::Lev, e.rlevel, fl + rest);
    let e2 = ChildView { rlevel: e.rlevel, ..blank_entry(e.id) };
    assert(value_line(d1, StateToken::Lev, e.rlevel) == opened(d, e2));
    lemma_decode_flags(d, e2, e.flags, rest);
}

/// The lines that close a record are decoded as the pid, the exit status,
/// the action and the command line of the entry, and take it into the table.
pub proof fn lemma_decode_tail(d: Decoding, open: ChildView, e: ChildView, rest: Seq<u8>)
    requires
        wire_safe_entry(e),
    ensures
        decode_from(opened(d, open), entry_tail(e) + rest) == decode_from(
            close_record(
                opened(
                    d,
                    ChildView {
                        pid: e.pid,
                        exstat: e.exstat,
                        action: e.action,
                        process: e.process,
                        ..open
                    },
                ),
            ),
            rest,
        ),
{
    let t1 = line(StateToken::Pid, signed_digits(e.pid as int));
    let t2 = line(StateToken::Exs, signed_digits(e.exstat as int));
    let t3 = line(StateToken::Action, encode_utf8(e.action.spec_keyword()));
    let t4 = line(StateToken::Process, encode_utf8(e.process));
    let t5 = line(StateToken::Eor, Seq::<u8>::empty());
    lemma_i32_digits(e.pid);
    lemma_i32_digits(e.exstat);
    lemma_keyword_wire_text(e.action);
    lemma_wire_text(e.action.spec_keyword());
    lemma_keyword_names_action(e.action);
    lemma_append_assoc(t1 + t2 + t3 + t4, t5, rest);
    lemma_append_assoc(t1 + t2 + t3, t4, t5 + rest);
    lemma_append_assoc(t1 + t2, t3, t4 + (t5 + rest));
    lemma_append_assoc(t1, t2, t3 + (t4 + (t5 + rest)));
    let d0 = opened(d, open);
    lemma_decode_line(d0, StateToken::Pid, signed_digits(e.pid as int), t2 + (t3 + (t4 + (t5
        + rest))));
    let o1 = ChildView { pid: e.pid, ..open };
    assert(value_line(d0, StateToken::Pid, signed_chars(e.pid as int)) == opened(d, o1));
    lemma_decode_line(
        opened(d, o1),
        StateToken::Exs,
        signed_digits(e.exstat as int),
        t3 + (t4 + (t5 + rest)),
    );
    let o2 = ChildView { exstat: e.exstat, ..o1 };
    assert(value_line(opened(d, o1), StateToken::Exs, signed_chars(e.exstat as int)) == opened(
        d,
        o2,
    ));
    lemma_decode_line(
        opened(d, o2),
        StateToken::Action,
        encode_utf8(e.action.spec_keyword()),
        t4 + (t5 + rest),
    );
    let o3 = ChildView { action: e.action, ..o2 };
    assert(value_line(opened(d, o2), StateToken::Action, e.action.spec_keyword()) == opened(
        d,
        o3,
    ));
    lemma_decode_text_line(opened(d, o3), StateToken::Process, e.process, t5 + rest);
    let o4 = ChildView { process: e.process, ..o3 };
    assert(value_line(opened(d, o3), StateToken::Process, e.process) == opened(d, o4));
    lemma_decode_eor(opened(d, o4), rest);
}

/// A record is decoded as what the stream carries of its entry.
pub proof fn lemma_decode_entry(d: Decoding, e: ChildView, rest: Seq<u8>)
    requires
        wire_safe_entry(e),
    ensures
        decode_from(d, encode_entry(e) + rest) == decode_from(
            close_record(opened(d, wire_image(e))),
            rest,
        ),
{
    lemma_append_assoc(entry_head(e), entry_tail(e), rest);
    lemma_decode_head(d, e, entry_tail(e) + rest);
    let open = ChildView { rlevel: e.rlevel, flags: kept_flags(e.flags), ..blank_entry(e.id) };
    lemma_decode_tail(d, open, e, rest);
    assert(ChildView {
        pid: e.pid,
        exstat: e.exstat,
        action: e.action,
        process: e.process,
        ..open
    } == wire_image(e));
}

/// The records of a table with unique ids are decoded as what the stream
/// carries of the table, entry by entry and in order.
pub proof fn lemma_decode_entries(d: Decoding, table: Seq<ChildView>, rest: Seq<u8>)
    requires
        d.open is None,
        d.table.len() == 0,
        ids_unique(table),
        forall|i: int| 0 <= i < table.len() ==> wire_safe_entry(#[trigger] table[i]),
    ensures
        decode_from(d, encode_entries(table) + rest) == decode_from(
            Decoding { table: wire_images(table), ..d },
            rest,
        ),
    decreases table.len(),
{
    if table.len() == 0 {
        assert(encode_entries(table) + rest =~= rest);
        assert(wire_images(table) =~= d.table);
    } else {
        let head = table.drop_last();
        let last = table.last();
        assert forall|i: int| 0 <= i < head.len() implies wire_safe_entry(#[trigger] head[i]) by {
            assert(head[i] == table[i]);
        }
        assert(ids_unique(head)) by {
            assert forall|i: int, j: int| 0 <= i < j < head.len() implies head[i].id
                != head[j].id by {
                assert(table[i].id != table[j].id);
            }
        }
        lemma_append_assoc(encode_entries(head), encode_entry(last), rest);
        lemma_decode_entries(d, head, encode_entry(last) + rest);
        let d1 = Decoding { table: wire_images(head), ..d };
        lemma_decode_entry(d1, last, rest);
        assert(!has_id(d1.table, wire_image(last).id)) by {
            if has_id(d1.table, last.id) {
                let i = choose|i: int| 0 <= i < d1.table.len() && #[trigger] d1.table[i].id
                    == last.id;
                assert(table[i].id != table[table.len() - 1].id);
            }
        }
        assert(wire_images(table) =~= wire_images(head).push(wire_image(last)));
    }
}

/// What decoding makes of the settings `g`, starting from `d`.
pub open spec fn with_globals(d: Decoding, g: WireGlobals) -> Decoding {
    Decoding {
        version: g.version,
        curlevel: g.curlevel,
        prevlevel: g.prevlevel,
        got_signals: g.got_signals,
        wrote_wtmp_reboot: g.wrote_wtmp_reboot,
        wrote_utmp_reboot: g.wrote_utmp_reboot,
        sleep_time: g.sleep_time,
        did_boot: g.did_boot,
        ..d
    }
}

/// A single character other than the newline stands on one line and takes
/// four bytes at most.
pub proof fn lemma_one_char(c: char)
    requires
        c != '\n',
    ensures
        on_one_line(seq![c]),
        byte_len(seq![c]) <= 4,
{
    let s = seq![c];
    assert(s.drop_last() =~= Seq::<char>::empty());
    assert(byte_len(Seq::<char>::empty()) == 0);
    assert(s.last() == c);
}

/// The lines of the version and the runlevels are decoded as they were.
pub proof fn lemma_decode_levels(d: Decoding, g: WireGlobals, rest: Seq<u8>)
    requires
        wire_safe_globals(g),
    ensures
        decode_from(d, encode_levels(g) + rest) == decode_from(
            Decoding { version: g.version, curlevel: g.curlevel, prevlevel: g.prevlevel, ..d },
            rest,
        ),
{
    let l1 = line(StateToken::Ver, encode_utf8(g.version));
    let l2 = line(StateToken::Runlevel, encode_utf8(seq![g.curlevel]));
    let l3 = line(StateToken::ThisLevel, encode_utf8(seq![g.curlevel]));
    let l4 = line(StateToken::PrevLevel, encode_utf8(seq![g.prevlevel]));
    lemma_one_char(g.curlevel);
    lemma_one_char(g.prevlevel);
    lemma_append_assoc(l1 + l2 + l3, l4, rest);
    lemma_append_assoc(l1 + l2, l3, l4 + rest);
    lemma_append_assoc(l1, l2, l3 + (l4 + rest));
    lemma_decode_text_line(d, StateToken::Ver, g.version, l2 + (l3 + (l4 + rest)));
    let d1 = Decoding { version: g.version, ..d };
    assert(value_line(d, StateToken::Ver, g.version) == d1);
    lemma_decode_text_line(d1, StateToken::Runlevel, seq![g.curlevel], l3 + (l4 + rest));
    let d2 = Decoding { curlevel: g.curlevel, ..d1 };
    assert(value_line(d1, StateToken::Runlevel, seq![g.curlevel]) == d2);
    lemma_decode_text_line(d2, StateToken::ThisLevel, seq![g.curlevel], l4 + rest);
    assert(value_line(d2, StateToken::ThisLevel, seq![g.curlevel]) == d2);
    lemma_decode_text_line(d2, StateToken::PrevLevel, seq![g.prevlevel], rest);
    assert(value_line(d2, StateToken::PrevLevel, seq![g.prevlevel]) == (Decoding {
        prevlevel: g.prevlevel,
        ..d2
    }));
}

/// The lines of the other settings are decoded as they were.
pub proof fn lemma_decode_settings(d: Decoding, g: WireGlobals, rest: Seq<u8>)
    ensures
        decode_from(d, encode_settings(g) + rest) == decode_from(
            Decoding {
                got_signals: g.got_signals,
                wrote_wtmp_reboot: g.wrote_wtmp_reboot,
                wrote_utmp_reboot: g.wrote_utmp_reboot,
                sleep_time: g.sleep_time,
                did_boot: g.did_boot,
                ..d
            },
            rest,
        ),
{
    let l1 = line(StateToken::GotSign, bool_value(g.got_signals));
    let l2 = line(StateToken::WroteWtmpReboot, bool_value(g.wrote_wtmp_reboot));
    let l3 = line(StateToken::WroteUtmpReboot, bool_value(g.wrote_utmp_reboot));
    let l4 = line(StateToken::SlTime, digits(g.sleep_time as nat));
    let l5 = line(StateToken::DidBoot, bool_value(g.did_boot));
    lemma_bool_value(g.got_signals);
    lemma_bool_value(g.wrote_wtmp_reboot);
    lemma_bool_value(g.wrote_utmp_reboot);
    lemma_bool_value(g.did_boot);
    lemma_u64_digits(g.sleep_time);
    lemma_digits_plain(g.sleep_time as nat);
    lemma_digits_value(g.sleep_time as nat);
    lemma_append_assoc(l1 + l2 + l3 + l4, l5, rest);
    lemma_append_assoc(l1 + l2 + l3, l4, l5 + rest);
    lemma_append_assoc(l1 + l2, l3, l4 + (l5 + rest));
    lemma_append_assoc(l1, l2, l3 + (l4 + (l5 + rest)));
    lemma_decode_line(d, StateToken::GotSign, bool_value(g.got_signals), l2 + (l3 + (l4 + (l5
        + rest))));
    let d1 = Decoding { got_signals: g.got_signals, ..d };
    assert(value_line(d, StateToken::GotSign, latin1(bool_value(g.got_signals))) == d1);
    lemma_decode_line(
        d1,
        StateToken::WroteWtmpReboot,
        bool_value(g.wrote_wtmp_reboot),
        l3 + (l4 + (l5 + rest)),
    );
    let d2 = Decoding { wrote_wtmp_reboot: g.wrote_wtmp_reboot, ..d1 };
    assert(value_line(d1, StateToken::WroteWtmpReboot, latin1(bool_value(g.wrote_wtmp_reboot)))
        == d2);
    lemma_decode_line(
        d2,
        StateToken::WroteUtmpReboot,
        bool_value(g.wrote_utmp_reboot),
        l4 + (l5 + rest),
    );
    let d3 = Decoding { wrote_utmp_reboot: g.wrote_utmp_reboot, ..d2 };
    assert(value_line(d2, StateToken::WroteUtmpReboot, latin1(bool_value(g.wrote_utmp_reboot)))
        == d3);
    lemma_decode_line(d3, StateToken::SlTime, digits(g.sleep_time as nat), l5 + rest);
    let d4 = Decoding { sleep_time: g.sleep_time, ..d3 };
    assert(value_line(d3, StateToken::SlTime, digit_chars(g.sleep_time as nat)) == d4);
    lemma_decode_line(d4, StateToken::DidBoot, bool_value(g.did_boot), rest);
    assert(value_line(d4, StateToken::DidBoot, latin1(bool_value(g.did_boot))) == (Decoding {
        did_boot: g.did_boot,
        ..d4
    }));
}

/// Decoding what was encoded gives back what the stream carries: the
/// settings as they were, and of every entry its id, runlevels, action,
/// command line, pid, exit status and every named flag, in table order.
///
/// This holds of every table with unique ids whose texts hold no newline
/// and fit their fields, whatever their characters. A text with a newline,
/// and one longer than its field, does not come back as it was.
pub proof fn lemma_decode_encode(g: WireGlobals, table: Seq<ChildView>)
    requires
        wire_safe_globals(g),
        ids_unique(table),
        forall|i: int| 0 <= i < table.len() ==> wire_safe_entry(#[trigger] table[i]),
    ensures
        decode_state(encode_state(g, table)) == (Decoding {
            table: wire_images(table),
            ..with_globals(decode_start(), g)
        }),
{
    let end = line(StateToken::End, Seq::<u8>::empty());
    let empty = Seq::<u8>::empty();
    let d0 = decode_start();
    lemma_append_assoc(encode_globals(g), encode_entries(table), end);
    lemma_append_assoc(encode_levels(g), encode_settings(g), encode_entries(table) + end);
    lemma_decode_levels(d0, g, encode_settings(g) + (encode_entries(table) + end));
    let d1 = Decoding { version: g.version, curlevel: g.curlevel, prevlevel: g.prevlevel, ..d0 };
    lemma_decode_settings(d1, g, encode_entries(table) + end);
    let d2 = with_globals(d0, g);
    lemma_decode_entries(d2, table, end);
    let d3 = Decoding { table: wire_images(table), ..d2 };
    assert(end + empty =~= end);
    lemma_decode_end(d3, empty);
}

/// The stream keeps every named flag of an entry: a named flag is set after
/// the trip exactly if it was set before, and flags that hold named bits
/// only come back as they were.
pub proof fn lemma_kept_flags(flags: ChildFlags, bit: u32)
    requires
        crate::flags::is_named_bit(bit),
    ensures
        kept_flags(flags).has(bit) == flags.has(bit),
        flags.bits & !ChildFlags::ALL == 0 ==> kept_flags(flags) == flags,
{
    let b = flags.bits;
    assert((bit == 2 || bit == 4 || bit == 8 || bit == 16 || bit == 32 || bit == 64 || bit == 128)
        ==> (((b & 254) & bit == bit) == (b & bit == bit))) by (bit_vector);
    assert(b & !254u32 == 0 ==> b & 254 == b) by (bit_vector);
}

} // verus!
