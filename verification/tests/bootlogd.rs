use rye_init::bootlogd::{
    get_signal, set_signal, write_log, LogItem, RingBuf, StopSignal, RINGBUF_SIZE,
};

fn bytes(items: &[LogItem]) -> Vec<u8> {
    items
        .iter()
        .filter_map(|item| match item {
            LogItem::Byte(b) => Some(*b),
            LogItem::Stamp => None,
        })
        .collect()
}

#[test]
fn ring_starts_empty() {
    let ring = RingBuf::new();
    assert_eq!(ring.available(), 0);
    assert!(ring.get_slice().is_empty());
    assert_eq!(RINGBUF_SIZE, 32768);
}

#[test]
fn pushed_bytes_can_be_read_and_consumed() {
    let mut ring = RingBuf::new();
    assert_eq!(ring.push(b"hello"), 5);
    assert_eq!(ring.available(), 5);
    assert_eq!(ring.get_slice(), b"hello");
    ring.advance_out(2);
    assert_eq!(ring.get_slice(), b"llo");
    assert_eq!(ring.available(), 3);
    assert_eq!(ring.push(b""), 0);
}

#[test]
fn push_stops_at_the_end_of_the_ring() {
    let mut ring = RingBuf::new();
    let big = vec![7u8; RINGBUF_SIZE - 3];
    assert_eq!(ring.push(&big), RINGBUF_SIZE - 3);
    assert_eq!(ring.push(b"abcdef"), 3);
    // The input index has wrapped to the start and met the output index.
    assert_eq!(ring.available(), 0);
    assert_eq!(ring.push(b"xyz"), 3);
    assert_eq!(ring.get_slice(), b"xyz");
}

#[test]
fn after_a_wrap_push_fills_up_to_the_output_index() {
    let mut ring = RingBuf::new();
    let big = vec![1u8; RINGBUF_SIZE];
    assert_eq!(ring.push(&big), RINGBUF_SIZE);
    ring.advance_out(10);
    // The input index is at the start again, ten slots behind the output.
    assert_eq!(ring.push(&[2u8; 20]), 10);
    assert_eq!(ring.get_slice().len(), 0);
}

#[test]
fn available_after_a_wrap_follows_the_indices() {
    let mut ring = RingBuf::new();
    let big = vec![1u8; RINGBUF_SIZE];
    ring.push(&big);
    ring.advance_out(100);
    ring.push(&[2u8; 40]);
    // in = 40, out = 100: the ring size less the input index plus the
    // output index.
    assert_eq!(ring.available(), RINGBUF_SIZE - 40 + 100);
    assert_eq!(ring.get_slice().len(), RINGBUF_SIZE - 100);
}

#[test]
fn output_index_wraps() {
    let mut ring = RingBuf::new();
    ring.push(b"abc");
    ring.advance_out(RINGBUF_SIZE + 1);
    assert_eq!(ring.get_slice(), b"bc");
    ring.advance_out(usize::MAX);
    // usize::MAX is 32767 modulo the ring size: one step back.
    assert_eq!(ring.get_slice(), b"abc");
}

#[test]
fn stop_signal_is_remembered() {
    let mut stop = StopSignal::new();
    assert!(!get_signal(&stop));
    set_signal(&mut stop, 15);
    assert!(get_signal(&stop));
    set_signal(&mut stop, 0);
    assert!(!get_signal(&stop));
}

#[test]
fn every_line_gets_a_stamp() {
    let mut first = true;
    let plan = write_log(b"ab\ncd\n", true, &mut first);
    assert_eq!(
        plan.items,
        vec![
            LogItem::Stamp,
            LogItem::Byte(b'a'),
            LogItem::Byte(b'b'),
            LogItem::Byte(b'\n'),
            LogItem::Stamp,
            LogItem::Byte(b'c'),
            LogItem::Byte(b'd'),
            LogItem::Byte(b'\n'),
        ]
    );
    assert!(plan.sync);
    assert!(first);
}

#[test]
fn a_line_that_goes_on_gets_no_stamp() {
    let mut first = false;
    let plan = write_log(b"tail", false, &mut first);
    assert_eq!(bytes(&plan.items), b"tail");
    assert!(!plan.items.contains(&LogItem::Stamp));
    assert!(!plan.sync);
    assert!(!first);
}

#[test]
fn nothing_in_nothing_out() {
    let mut first = true;
    let plan = write_log(b"", false, &mut first);
    assert!(plan.items.is_empty());
    assert!(!plan.sync);
    assert!(first);
}

#[test]
fn escape_sequences_and_carriage_returns_are_dropped() {
    let mut first = false;
    let plan = write_log(b"a\x1b[1;31mred\x1b[0m\r\nb\x1bMc", false, &mut first);
    assert_eq!(bytes(&plan.items), b"ared\nbc");
    assert!(plan.sync);
}

#[test]
fn escape_sequences_stay_when_asked_for() {
    let mut first = false;
    let input = b"a\x1b[1;31mred\x1b[0m\r\n";
    let plan = write_log(input, true, &mut first);
    assert_eq!(bytes(&plan.items), input);
    assert!(first);
}

#[test]
fn a_byte_that_no_sequence_holds_passes_and_the_sequence_goes_on() {
    let mut first = false;
    // ':' is neither a parameter nor a final byte: it is written, and the
    // 'm' after it still ends the sequence.
    let plan = write_log(b"\x1b[1:mX", false, &mut first);
    assert_eq!(bytes(&plan.items), b":X");
}

#[test]
fn an_escape_before_a_plain_byte_swallows_only_itself() {
    let mut first = false;
    let plan = write_log(b"\x1b7x\x1b\nz", false, &mut first);
    // '7' is below the range that an escape takes with it, and so is the
    // newline.
    assert_eq!(bytes(&plan.items), b"7x\nz");
}
