use rye_init::decimal::{parse_signed, parse_unsigned, push_digits, push_signed};
use rye_init::{
    get_cmd, get_string, get_void, receive_state, send_state, Child, ChildFlags, InitAction,
    InitState, StateReader, StateToken,
};

fn reader(bytes: &[u8]) -> StateReader {
    StateReader::new(bytes.to_vec())
}

fn chars(s: &str) -> Vec<char> {
    s.chars().collect()
}

fn sample_state() -> InitState {
    let mut state = InitState::new();
    state.curlevel = '3';
    state.prevlevel = '2';
    state.sleep_time = 5;
    state.did_boot = true;
    state.wrote_utmp_reboot = false;
    let mut getty = Child::parse_inittab_line("co:2345:respawn:/sbin/agetty tty1", 900).unwrap();
    getty.pid = 4711;
    getty.count = 3;
    getty.flags.insert(ChildFlags::RUNNING);
    getty.flags.insert(ChildFlags::XECUTED);
    getty.flags.insert(ChildFlags::FAILING);
    let mut rc = Child::parse_inittab_line("l3:3:wait:/etc/rc 3", 901).unwrap();
    rc.exstat = -2;
    rc.flags.insert(ChildFlags::WAITING);
    rc.flags.insert(ChildFlags::DEMAND);
    let plain = Child::parse_inittab_line("x::off:", 902).unwrap();
    state.family.append(getty).unwrap();
    state.family.append(rc).unwrap();
    state.family.append(plain).unwrap();
    state
}

#[test]
fn empty_state_is_written_line_by_line() {
    let state = InitState::new();
    let out = send_state(&state, false);
    assert_eq!(
        String::from_utf8(out).unwrap(),
        "VER0.1.0\n-RLS\n-TLS\n-PLN\n-SI0\n-WR1\n-WU1\n-ST3\n-DB0\nEND\n"
    );
}

#[test]
fn entries_are_written_in_table_order() {
    let state = sample_state();
    let out = send_state(&state, true);
    let expected = "VER0.1.0\n-RL3\n-TL3\n-PL2\n-SI1\n-WR1\n-WU0\n-ST5\n-DB1\n\
                    RECco\nLEV2345\nFL RU\nFL XD\nFL FA\nPID4711\nEXS0\nAC respawn\nCMD/sbin/agetty tty1\nEOR\n\
                    RECl3\nLEV3\nFL DE\nFL WT\nPID0\nEXS-2\nAC wait\nCMD/etc/rc 3\nEOR\n\
                    RECx\nLEV\nPID0\nEXS0\nAC off\nCMD\nEOR\n\
                    END\n";
    assert_eq!(String::from_utf8(out).unwrap(), expected);
}

#[test]
fn what_is_written_is_read_back() {
    let state = sample_state();
    let out = send_state(&state, true);
    let mut input = StateReader::new(out);
    let back = receive_state(&mut input);
    assert_eq!(back.version, "0.1.0");
    assert!(back.got_signals);
    assert_eq!(back.state.curlevel, '3');
    assert_eq!(back.state.prevlevel, '2');
    assert_eq!(back.state.sleep_time, 5);
    assert!(back.state.did_boot);
    assert!(back.state.wrote_wtmp_reboot);
    assert!(!back.state.wrote_utmp_reboot);
    assert_eq!(back.state.family.len(), 3);

    let getty = back.state.family.get(0).unwrap();
    assert_eq!(getty.id, "co");
    assert_eq!(getty.rlevel, "2345");
    assert_eq!(getty.action, InitAction::Respawn);
    assert_eq!(getty.process, "/sbin/agetty tty1");
    assert_eq!(getty.pid, 4711);
    assert_eq!(getty.exstat, 0);
    // Every flag comes back; the respawn history stays behind.
    assert_eq!(
        getty.flags.bits(),
        ChildFlags::RUNNING | ChildFlags::XECUTED | ChildFlags::FAILING
    );
    assert_eq!(getty.count, 0);
    assert_eq!(getty.tm, 0);

    let rc = back.state.family.get(1).unwrap();
    assert_eq!(rc.id, "l3");
    assert_eq!(rc.exstat, -2);
    assert_eq!(rc.action, InitAction::Wait);
    assert_eq!(rc.flags.bits(), ChildFlags::DEMAND | ChildFlags::WAITING);

    let plain = back.state.family.get(2).unwrap();
    assert_eq!(plain.id, "x");
    assert_eq!(plain.rlevel, "");
    assert_eq!(plain.process, "");
    assert_eq!(plain.action, InitAction::Off);

    // A second trip changes nothing any more.
    let again = send_state(&back.state, back.got_signals);
    assert_eq!(again, send_state(&sample_state_without_history(), true));
}

fn sample_state_without_history() -> InitState {
    let mut state = sample_state();
    let out = send_state(&state, true);
    state = receive_state(&mut StateReader::new(out)).state;
    state
}

#[test]
fn extreme_numbers_survive_the_trip() {
    let mut state = InitState::new();
    state.sleep_time = u64::MAX;
    let mut child = Child::with_time(0);
    child.id = "12345678".to_string();
    child.pid = i32::MIN;
    child.exstat = i32::MAX;
    state.family.append(child).unwrap();
    let out = send_state(&state, false);
    let back = receive_state(&mut StateReader::new(out));
    assert_eq!(back.state.sleep_time, u64::MAX);
    let child = back.state.family.get(0).unwrap();
    assert_eq!(child.id, "12345678");
    assert_eq!(child.pid, i32::MIN);
    assert_eq!(child.exstat, i32::MAX);
}

#[test]
fn a_truncated_stream_yields_what_was_complete() {
    let out = send_state(&sample_state(), false);
    let text = String::from_utf8(out).unwrap();
    let cut = text.find("RECl3").unwrap() + "RECl3\nLEV3\nFL D".len();
    let back = receive_state(&mut reader(text[..cut].as_bytes()));
    assert_eq!(back.state.curlevel, '3');
    assert_eq!(back.state.family.len(), 1);
    assert_eq!(back.state.family.get(0).unwrap().id, "co");
}

#[test]
fn an_empty_stream_yields_a_fresh_state() {
    let back = receive_state(&mut reader(b""));
    assert_eq!(back.version, "");
    assert!(!back.got_signals);
    assert_eq!(back.state.curlevel, 'S');
    assert_eq!(back.state.prevlevel, 'N');
    assert_eq!(back.state.sleep_time, 3);
    assert_eq!(back.state.family.len(), 0);
}

#[test]
fn unknown_lines_are_skipped() {
    let stream = b"VER9.9\nXYZfuture stuff\n-RL4\n???\nRECa\n-ZZ1\nAC once\nNEWfield\nEOR\nEND\n";
    let back = receive_state(&mut reader(stream));
    assert_eq!(back.version, "9.9");
    assert_eq!(back.state.curlevel, '4');
    assert_eq!(back.state.family.len(), 1);
    let a = back.state.family.get(0).unwrap();
    assert_eq!(a.id, "a");
    assert_eq!(a.action, InitAction::Once);
}

#[test]
fn malformed_values_are_skipped_one_by_one() {
    let stream = b"-RLxy\n-PL5\n-STabc\n-DB7\n-SI\nRECa\nPID12x\nEXS-\nAC nope\nFL ??\nPID33\nEOR\nEND\n";
    let back = receive_state(&mut reader(stream));
    assert_eq!(back.state.curlevel, 'S');
    assert_eq!(back.state.prevlevel, '5');
    assert_eq!(back.state.sleep_time, 3);
    assert!(back.state.did_boot);
    assert!(!back.got_signals);
    let a = back.state.family.get(0).unwrap();
    assert_eq!(a.pid, 33);
    assert_eq!(a.exstat, 0);
    assert_eq!(a.action, InitAction::Once);
    assert_eq!(a.flags, ChildFlags::empty());
}

#[test]
fn the_end_token_ends_the_stream() {
    let stream = b"-RL2\nEND\n-RL5\nRECa\nEOR\n";
    let mut input = reader(stream);
    let back = receive_state(&mut input);
    assert_eq!(back.state.curlevel, '2');
    assert_eq!(back.state.family.len(), 0);
}

#[test]
fn a_second_record_with_the_same_id_is_dropped() {
    let stream = b"RECa\nCMD/bin/one\nEOR\nRECa\nCMD/bin/two\nEOR\nRECb\nEOR\nEND\n";
    let back = receive_state(&mut reader(stream));
    assert_eq!(back.state.family.len(), 2);
    assert_eq!(back.state.family.get(0).unwrap().process, "/bin/one");
    assert_eq!(back.state.family.get(1).unwrap().id, "b");
}

#[test]
fn record_lines_without_a_record_are_lost() {
    let stream = b"PID5\nCMD/bin/x\nEOR\nRECa\nEOR\nEND\n";
    let back = receive_state(&mut reader(stream));
    assert_eq!(back.state.family.len(), 1);
    let a = back.state.family.get(0).unwrap();
    assert_eq!(a.pid, 0);
    assert_eq!(a.process, "");
}

#[test]
fn the_rlevel_flags_are_read_when_they_are_sent() {
    let back = receive_state(&mut reader(b"-LW0\n-LU0\n-WR0\nEND\n"));
    assert!(!back.state.wrote_wtmp_rlevel);
    assert!(!back.state.wrote_utmp_rlevel);
    assert!(!back.state.wrote_wtmp_reboot);
    assert!(back.state.wrote_utmp_reboot);
}

#[test]
fn get_string_reads_up_to_the_newline() {
    let mut input = reader(b"hello\nworld");
    assert_eq!(get_string(&mut input, 32), "hello");
    assert_eq!(input.remaining_len(), 5);
    assert_eq!(get_string(&mut input, 32), "world");
    assert_eq!(input.remaining_len(), 0);
    assert_eq!(get_string(&mut input, 32), "");
}

#[test]
fn get_string_stops_at_its_limit_and_leaves_the_rest() {
    let mut input = reader(b"abcdef\nxyz\n");
    assert_eq!(get_string(&mut input, 4), "abcd");
    assert_eq!(input.remaining_len(), 7);
    assert_eq!(get_string(&mut input, 4), "ef");
    assert_eq!(get_string(&mut input, 3), "xyz");
    // The newline after a string of full length is still there.
    assert_eq!(input.remaining_len(), 1);
    assert_eq!(get_string(&mut input, 0), "");
    assert_eq!(input.remaining_len(), 1);
}

#[test]
fn get_string_reads_each_byte_as_one_character() {
    let mut input = reader(&[0xe9, 0x41, 0xff, b'\n']);
    let s = get_string(&mut input, 32);
    assert_eq!(s, "\u{e9}A\u{ff}");
    // A character above ASCII takes two bytes of the limit.
    let mut input = reader(&[0xe9, 0xe9, 0xe9, b'\n']);
    assert_eq!(get_string(&mut input, 3), "\u{e9}\u{e9}");
    assert_eq!(input.remaining_len(), 2);
}

#[test]
fn get_void_skips_through_the_newline() {
    let mut input = reader(b"skip me\nkeep");
    assert!(get_void(&mut input));
    assert_eq!(input.remaining_len(), 4);
    assert!(!get_void(&mut input));
    assert_eq!(input.remaining_len(), 0);
    assert!(!get_void(&mut input));
}

#[test]
fn get_cmd_knows_every_token() {
    let names: [(&[u8; 3], StateToken, i32); 20] = [
        (b"VER", StateToken::Ver, 1),
        (b"END", StateToken::End, 2),
        (b"REC", StateToken::Rec, 3),
        (b"EOR", StateToken::Eor, 4),
        (b"LEV", StateToken::Lev, 5),
        (b"FL ", StateToken::Flag, 6),
        (b"AC ", StateToken::Action, 7),
        (b"CMD", StateToken::Process, 8),
        (b"PID", StateToken::Pid, 9),
        (b"EXS", StateToken::Exs, 10),
        (b"-RL", StateToken::Runlevel, -2),
        (b"-TL", StateToken::ThisLevel, -3),
        (b"-PL", StateToken::PrevLevel, -4),
        (b"-SI", StateToken::GotSign, -5),
        (b"-WR", StateToken::WroteWtmpReboot, -6),
        (b"-WU", StateToken::WroteUtmpReboot, -7),
        (b"-ST", StateToken::SlTime, -8),
        (b"-DB", StateToken::DidBoot, -9),
        (b"-LW", StateToken::WroteWtmpRlevel, -16),
        (b"-LU", StateToken::WroteUtmpRlevel, -17),
    ];
    for (name, token, code) in names {
        let mut input = reader(&name[..]);
        assert_eq!(get_cmd(&mut input), token);
        assert_eq!(input.remaining_len(), 0);
        assert_eq!(token.code(), code);
        let mut out = Vec::new();
        token.write_name(&mut out);
        assert_eq!(&out[..], &name[..]);
    }
    assert_eq!(StateToken::Eof.code(), -1);
}

#[test]
fn get_cmd_reports_the_end_for_anything_else() {
    let mut input = reader(b"ver");
    assert_eq!(get_cmd(&mut input), StateToken::Eof);
    let mut input = reader(b"VE");
    assert_eq!(get_cmd(&mut input), StateToken::Eof);
    assert_eq!(input.remaining_len(), 0);
    let mut input = reader(&[0xff, 0xfe, 0xfd, b'x']);
    assert_eq!(get_cmd(&mut input), StateToken::Eof);
    assert_eq!(input.remaining_len(), 1);
    let mut input = reader(b"");
    assert_eq!(get_cmd(&mut input), StateToken::Eof);
}

#[test]
fn numbers_are_written_in_decimal() {
    let mut out = Vec::new();
    push_digits(&mut out, 0);
    out.push(b' ');
    push_digits(&mut out, 7);
    out.push(b' ');
    push_digits(&mut out, 1230);
    out.push(b' ');
    push_digits(&mut out, u64::MAX);
    out.push(b' ');
    push_signed(&mut out, -45);
    out.push(b' ');
    push_signed(&mut out, i32::MIN);
    out.push(b' ');
    push_signed(&mut out, 0);
    assert_eq!(
        String::from_utf8(out).unwrap(),
        "0 7 1230 18446744073709551615 -45 -2147483648 0"
    );
}

#[test]
fn numbers_are_read_in_decimal() {
    assert_eq!(parse_unsigned(&chars("0")), Some(0));
    assert_eq!(parse_unsigned(&chars("007")), Some(7));
    assert_eq!(parse_unsigned(&chars("18446744073709551615")), Some(u64::MAX));
    assert_eq!(parse_unsigned(&chars("18446744073709551616")), None);
    assert_eq!(parse_unsigned(&chars("")), None);
    assert_eq!(parse_unsigned(&chars("12a")), None);
    assert_eq!(parse_unsigned(&chars("-1")), None);
    assert_eq!(parse_signed(&chars("2147483647")), Some(i32::MAX));
    assert_eq!(parse_signed(&chars("2147483648")), None);
    assert_eq!(parse_signed(&chars("-2147483648")), Some(i32::MIN));
    assert_eq!(parse_signed(&chars("-2147483649")), None);
    assert_eq!(parse_signed(&chars("-0")), Some(0));
    assert_eq!(parse_signed(&chars("-")), None);
    assert_eq!(parse_signed(&chars("")), None);
    assert_eq!(parse_signed(&chars("+5")), None);
    assert_eq!(parse_signed(&chars("99999999999999999999999")), None);
}

#[test]
fn every_flag_has_its_line_and_comes_back() {
    let names = [
        (ChildFlags::RUNNING, "FL RU\n"),
        (ChildFlags::DEMAND, "FL DE\n"),
        (ChildFlags::XECUTED, "FL XD\n"),
        (ChildFlags::WAITING, "FL WT\n"),
        (ChildFlags::KILLME, "FL KM\n"),
        (ChildFlags::FAILING, "FL FA\n"),
        (ChildFlags::ZOMBIE, "FL ZO\n"),
    ];
    for (mask, line) in names {
        let mut state = InitState::new();
        let mut child = Child::with_time(0);
        child.id = "a".to_string();
        child.flags.insert(mask);
        state.family.append(child).unwrap();
        let out = send_state(&state, false);
        let text = String::from_utf8(out.clone()).unwrap();
        assert_eq!(text.matches("FL ").count(), 1);
        assert!(text.contains(line));
        let back = receive_state(&mut StateReader::new(out));
        assert_eq!(back.state.family.get(0).unwrap().flags.bits(), mask);
    }
    // All of them at once, in the order of the stream.
    let mut state = InitState::new();
    let mut child = Child::with_time(0);
    child.id = "a".to_string();
    child.flags = ChildFlags::from_bits_retain(ChildFlags::ALL);
    state.family.append(child).unwrap();
    let out = send_state(&state, false);
    let text = String::from_utf8(out.clone()).unwrap();
    assert!(text.contains("FL RU\nFL DE\nFL XD\nFL WT\nFL KM\nFL FA\nFL ZO\n"));
    let back = receive_state(&mut StateReader::new(out));
    assert_eq!(back.state.family.get(0).unwrap().flags.bits(), 254);
}

#[test]
fn bits_without_a_name_have_no_line() {
    let mut state = InitState::new();
    let mut child = Child::with_time(0);
    child.id = "a".to_string();
    child.flags = ChildFlags::from_bits_retain(1 | 256 | ChildFlags::ZOMBIE);
    state.family.append(child).unwrap();
    let out = send_state(&state, false);
    let back = receive_state(&mut StateReader::new(out));
    assert_eq!(back.state.family.get(0).unwrap().flags.bits(), ChildFlags::ZOMBIE);
}

#[test]
fn text_beyond_ascii_comes_back_as_it_was() {
    let mut state = InitState::new();
    state.curlevel = 'é';
    state.prevlevel = '語';
    let mut child = Child::with_time(0);
    // Eight bytes of id, twelve of runlevels, all beyond ASCII.
    child.id = "éééé".to_string();
    child.rlevel = "日本語ñ".to_string();
    child.process = "/usr/bin/grüße --naïve 🙂".to_string();
    state.family.append(child).unwrap();
    let full = Child::parse_inittab_line(
        &format!("ü:2:once:{}", "ß".repeat(256)),
        0,
    )
    .unwrap();
    state.family.append(full).unwrap();
    let out = send_state(&state, false);
    let back = receive_state(&mut StateReader::new(out));
    assert_eq!(back.state.curlevel, 'é');
    assert_eq!(back.state.prevlevel, '語');
    assert_eq!(back.state.family.len(), 2);
    let child = back.state.family.get(0).unwrap();
    assert_eq!(child.id, "éééé");
    assert_eq!(child.rlevel, "日本語ñ");
    assert_eq!(child.process, "/usr/bin/grüße --naïve 🙂");
    let full = back.state.family.get(1).unwrap();
    assert_eq!(full.id, "ü");
    assert_eq!(full.process, "ß".repeat(256));
}

#[test]
fn a_value_that_is_no_utf8_is_skipped() {
    let mut stream = Vec::new();
    stream.extend_from_slice(b"-RL2\nRECa\nCMD/bin/good\nCMD");
    stream.extend_from_slice(&[0xff, 0xfe, b'x']);
    stream.extend_from_slice(b"\nLEV");
    stream.extend_from_slice(&[0xc3]);
    stream.extend_from_slice(b"\nPID7\nEOR\n-PL");
    stream.extend_from_slice(&[0x80]);
    stream.extend_from_slice(b"\nEND\n");
    let back = receive_state(&mut StateReader::new(stream));
    assert_eq!(back.state.curlevel, '2');
    assert_eq!(back.state.prevlevel, 'N');
    let a = back.state.family.get(0).unwrap();
    assert_eq!(a.process, "/bin/good");
    assert_eq!(a.rlevel, "");
    assert_eq!(a.pid, 7);
}
