//! The boot-console logger: a fixed-size ring of console bytes and the filter
//! that turns raw console output into log-file lines.

use vstd::prelude::*;
use vstd::slice::slice_subrange;

verus! {

/// Number of bytes the console ring holds.
pub const RINGBUF_SIZE: usize = 32768;

/// Most consoles the logger follows at once.
pub const MAX_CONSOLES: i8 = 16;

/// Longest kernel command line the logger reads.
pub const KERNEL_COMMAND_LENGTH: i16 = 4096;

/// Longest path the logger handles.
pub const PATH_MAX: i16 = 2048;

/// Console bytes waiting to be written to the log file.
///
/// `in_idx` is where the next byte is stored, `out_idx` where the next byte is
/// taken from; both stay below [`RINGBUF_SIZE`].
pub struct RingBuf {
    buf: Vec<u8>,
    in_idx: usize,
    out_idx: usize,
}

impl RingBuf {
    /// The ring has its full size and both indices are inside it.
    pub closed spec fn wf(self) -> bool {
        &&& self.buf@.len() == RINGBUF_SIZE
        &&& self.in_idx < RINGBUF_SIZE
        &&& self.out_idx < RINGBUF_SIZE
    }

    /// What well-formedness means for the slots and the two indices.
    pub proof fn lemma_wf_bounds(self)
        requires
            self.wf(),
        ensures
            self.slots().len() == RINGBUF_SIZE,
            0 <= self.input_index() < RINGBUF_SIZE,
            0 <= self.output_index() < RINGBUF_SIZE,
    {
    }

    /// The stored bytes, one per slot.
    pub closed spec fn slots(self) -> Seq<u8> {
        self.buf@
    }

    /// Slot that the next pushed byte goes to.
    pub closed spec fn input_index(self) -> int {
        self.in_idx as int
    }

    /// Slot that the next byte is taken from.
    pub closed spec fn output_index(self) -> int {
        self.out_idx as int
    }

    /// Room that one `push` can fill: up to the end of the ring when the input
    /// index is at or past the output index, up to the output index otherwise.
    pub open spec fn space(self) -> int {
        if self.input_index() >= self.output_index() {
            RINGBUF_SIZE - self.input_index()
        } else {
            self.output_index() - self.input_index()
        }
    }

    /// What `push` stores of `len` offered bytes.
    pub open spec fn accepted(self, len: int) -> int {
        if len <= self.space() {
            len
        } else {
            self.space()
        }
    }

    /// The count that `available` reports.
    pub open spec fn spec_available(self) -> int {
        if self.input_index() >= self.output_index() {
            self.input_index() - self.output_index()
        } else {
            RINGBUF_SIZE - self.input_index() + self.output_index()
        }
    }

    /// The run of slots that `get_slice` hands out.
    pub open spec fn readable(self) -> Seq<u8> {
        if self.output_index() <= self.input_index() {
            self.slots().subrange(self.output_index(), self.input_index())
        } else {
            self.slots().subrange(self.output_index(), RINGBUF_SIZE as int)
        }
    }

    /// An empty ring: every slot zero, both indices at the start.
    pub fn new() -> (res: Self)
        ensures
            res.wf(),
            res.slots() == Seq::new(RINGBUF_SIZE as nat, |i: int| 0u8),
            res.input_index() == 0,
            res.output_index() == 0,
    {
        let buf = vec![0u8; RINGBUF_SIZE];
        assert(buf@ =~= Seq::new(RINGBUF_SIZE as nat, |i: int| 0u8));
        RingBuf { buf, in_idx: 0, out_idx: 0 }
    }

    /// Stores the first `accepted(data.len())` bytes of `data` at the input
    /// index and moves the index past them, wrapping at the end of the ring.
    /// Returns how many bytes were stored.
    pub fn push(&mut self, data: &[u8]) -> (written: usize)
        requires
            old(self).wf(),
        ensures
            final(self).wf(),
            written == old(self).accepted(data@.len() as int),
            final(self).output_index() == old(self).output_index(),
            final(self).input_index() == (old(self).input_index() + written) % (
            RINGBUF_SIZE as int),
            final(self).slots().len() == RINGBUF_SIZE,
            forall|k: int|
                0 <= k < RINGBUF_SIZE ==> #[trigger] final(self).slots()[k] == if old(
                    self,
                ).input_index() <= k < old(self).input_index() + written {
                    data@[k - old(self).input_index()]
                } else {
                    old(self).slots()[k]
                },
    {
        let space: usize = if self.in_idx >= self.out_idx {
            RINGBUF_SIZE - self.in_idx
        } else {
            self.out_idx - self.in_idx
        };
        let to_write: usize = if data.len() <= space {
            data.len()
        } else {
            space
        };
        if to_write == 0 {
            return 0;
        }
        let start: usize = self.in_idx;
        let ghost before = self.buf@;
        let mut i: usize = 0;
        while i < to_write
            invariant
                i <= to_write,
                to_write <= data@.len(),
                start + to_write <= RINGBUF_SIZE,
                self.buf@.len() == RINGBUF_SIZE,
                self.in_idx == old(self).in_idx,
                self.out_idx == old(self).out_idx,
                before.len() == RINGBUF_SIZE,
                forall|k: int|
                    0 <= k < RINGBUF_SIZE ==> #[trigger] self.buf@[k] == if start <= k < start
                        + i {
                        data@[k - start]
                    } else {
                        before[k]
                    },
            decreases to_write - i,
        {
            self.buf.set(start + i, data[i]);
            i += 1;
        }
        self.in_idx = (start + to_write) % RINGBUF_SIZE;
        to_write
    }

    /// The stored bytes from the output index up to the input index, or up to
    /// the end of the ring when the input index has wrapped behind it.
    pub fn get_slice(&self) -> (res: &[u8])
        requires
            self.wf(),
        ensures
            res@ == self.readable(),
    {
        if self.out_idx <= self.in_idx {
            slice_subrange(self.buf.as_slice(), self.out_idx, self.in_idx)
        } else {
            slice_subrange(self.buf.as_slice(), self.out_idx, RINGBUF_SIZE)
        }
    }

    /// Moves the output index forward by `length`, wrapping at the end of the
    /// ring.
    pub fn advance_out(&mut self, length: usize)
        requires
            old(self).wf(),
        ensures
            final(self).wf(),
            final(self).output_index() == (old(self).output_index() + length) % (
            RINGBUF_SIZE as int),
            final(self).input_index() == old(self).input_index(),
            final(self).slots() == old(self).slots(),
    {
        let step: usize = length % RINGBUF_SIZE;
        self.out_idx = (self.out_idx + step) % RINGBUF_SIZE;
    }

    /// The distance from the output index to the input index while the input
    /// index has not wrapped; after it has, the ring size less the input index
    /// plus the output index.
    pub fn available(&self) -> (res: usize)
        requires
            self.wf(),
        ensures
            res == self.spec_available(),
    {
        if self.in_idx >= self.out_idx {
            self.in_idx - self.out_idx
        } else {
            RINGBUF_SIZE - self.in_idx + self.out_idx
        }
    }
}

/// The signal that asked the logger to stop, zero while none has come.
pub struct StopSignal {
    signal: i32,
}

impl StopSignal {
    /// The recorded signal number.
    pub closed spec fn number(self) -> int {
        self.signal as int
    }

    /// No signal recorded.
    pub fn new() -> (res: Self)
        ensures
            res.number() == 0,
    {
        StopSignal { signal: 0 }
    }
}

/// Records `signal` as the one that arrived last.
pub fn set_signal(stop: &mut StopSignal, signal: i32)
    ensures
        final(stop).number() == signal,
{
    stop.signal = signal;
}

/// Whether a signal has been recorded.
pub fn get_signal(stop: &StopSignal) -> (res: bool)
    ensures
        res == (stop.number() != 0),
{
    stop.signal != 0
}

/// Where the filter stands inside a terminal escape sequence.
#[derive(Clone, Copy, Debug, PartialEq, Eq, Structural)]
pub enum EscState {
    /// Ordinary text.
    Text,
    /// Right after an ESC byte.
    Escape,
    /// Inside a control sequence, after `ESC [`.
    Control,
}

/// One thing to put into the log file.
#[derive(Clone, Copy, Debug, PartialEq, Eq, Structural)]
pub enum LogItem {
    /// The time-stamp prefix that opens a line.
    Stamp,
    /// One byte of console output.
    Byte(u8),
}

/// What one call of [`write_log`] sends to the log file.
pub struct LogPlan {
    /// The stamps and bytes, in the order in which they are written.
    pub items: Vec<LogItem>,
    /// Whether the file is flushed afterwards.
    pub sync: bool,
}

/// Whether the filter drops `byte` when it meets it in `state`.
pub open spec fn esc_drops(state: EscState, byte: u8) -> bool {
    match state {
        EscState::Escape => byte == 0x5b || 64 <= byte <= 95,
        EscState::Control => 32 <= byte <= 57 || byte == 0x3b || 64 <= byte <= 126,
        EscState::Text => byte == 0x0d || byte == 27,
    }
}

/// The state in which the filter meets the byte after `byte`.
pub open spec fn esc_step(state: EscState, byte: u8) -> EscState {
    match state {
        EscState::Escape => if byte == 0x5b {
            EscState::Control
        } else {
            EscState::Text
        },
        EscState::Control => if 64 <= byte <= 126 {
            EscState::Text
        } else {
            EscState::Control
        },
        EscState::Text => if byte == 27 {
            EscState::Escape
        } else {
            EscState::Text
        },
    }
}

/// The state of the filter after it has gone through `data` from
/// [`EscState::Text`].
pub open spec fn esc_state_after(data: Seq<u8>) -> EscState
    decreases data.len(),
{
    if data.len() == 0 {
        EscState::Text
    } else {
        esc_step(esc_state_after(data.drop_last()), data.last())
    }
}

/// Whether the byte that follows `data` opens a line: after a newline it does,
/// and before any byte it does if the call began at a line start.
pub open spec fn at_line_start(data: Seq<u8>, first_run: bool) -> bool {
    if data.len() == 0 {
        first_run
    } else {
        data.last() == 0x0a
    }
}

/// What the last byte of `data` adds to the log: a stamp if it opens a line,
/// then the byte itself unless the filter drops it.
pub open spec fn last_byte_items(data: Seq<u8>, print_escape_characters: bool, first_run: bool) -> Seq<
    LogItem,
>
    recommends
        data.len() > 0,
{
    let head = data.drop_last();
    let stamp = if at_line_start(head, first_run) {
        seq![LogItem::Stamp]
    } else {
        Seq::<LogItem>::empty()
    };
    if !print_escape_characters && esc_drops(esc_state_after(head), data.last()) {
        stamp
    } else {
        stamp.push(LogItem::Byte(data.last()))
    }
}

/// Everything that `data` adds to the log, in order.
pub open spec fn log_items(data: Seq<u8>, print_escape_characters: bool, first_run: bool) -> Seq<
    LogItem,
>
    decreases data.len(),
{
    if data.len() == 0 {
        Seq::<LogItem>::empty()
    } else {
        log_items(data.drop_last(), print_escape_characters, first_run) + last_byte_items(
            data,
            print_escape_characters,
            first_run,
        )
    }
}

/// Whether `data` puts a stamp into the log.
pub open spec fn log_has_stamp(data: Seq<u8>, first_run: bool) -> bool {
    data.len() > 0 && (first_run || exists|i: int| 0 <= i < data.len() - 1 && data[i] == 0x0a)
}

/// Lays out what `data` adds to the log file.
///
/// Each byte that opens a line is preceded by a stamp. Unless
/// `print_escape_characters` is set, carriage returns and terminal escape
/// sequences are left out; the filter starts every call in ordinary text.
/// `first_run` says on entry whether the first byte opens a line and on exit
/// whether the next call's first byte does. The file is flushed when a stamp
/// was written.
pub fn write_log(data: &[u8], print_escape_characters: bool, first_run: &mut bool) -> (plan:
    LogPlan)
    ensures
        plan.items@ == log_items(data@, print_escape_characters, *old(first_run)),
        plan.sync == log_has_stamp(data@, *old(first_run)),
        *final(first_run) == at_line_start(data@, *old(first_run)),
{
    let ghost start = *first_run;
    let mut items: Vec<LogItem> = Vec::new();
    let mut state = EscState::Text;
    let mut should_sync = false;
    let mut i: usize = 0;
    while i < data.len()
        invariant
            i <= data@.len(),
            items@ == log_items(data@.take(i as int), print_escape_characters, start),
            !print_escape_characters ==> state == esc_state_after(data@.take(i as int)),
            *first_run == at_line_start(data@.take(i as int), start),
            should_sync == log_has_stamp(data@.take(i as int), start),
        decreases data@.len() - i,
    {
        let byte: u8 = data[i];
        proof {
            let next = data@.take(i + 1);
            assert(next.drop_last() =~= data@.take(i as int));
            assert(next.last() == byte);
            if log_has_stamp(data@.take(i as int), start) && !start {
                let w = choose|w: int| 0 <= w < i - 1 && data@.take(i as int)[w] == 0x0a;
                assert(next[w] == 0x0a);
            }
            if *first_run && i > 0 {
                assert(next[i - 1] == 0x0a);
            }
            if log_has_stamp(next, start) && !start {
                let w = choose|w: int| 0 <= w < next.len() - 1 && next[w] == 0x0a;
                if w < i - 1 {
                    assert(data@.take(i as int)[w] == 0x0a);
                }
            }
        }
        if *first_run {
            items.push(LogItem::Stamp);
            should_sync = true;
            *first_run = false;
        }
        let mut ignore = false;
        if !print_escape_characters {
            match state {
                EscState::Escape => {
                    if byte == 0x5b {
                        ignore = true;
                        state = EscState::Control;
                    } else {
                        if byte >= 64 && byte <= 95 {
                            ignore = true;
                        }
                        state = EscState::Text;
                    }
                },
                EscState::Control => {
                    if (byte >= 0x30 && byte <= 0x39) || byte == 0x3b || (byte >= 32 && byte
                        <= 47) {
                        ignore = true;
                    } else if byte >= 64 && byte <= 126 {
                        ignore = true;
                        state = EscState::Text;
                    }
                },
                EscState::Text => {
                    if byte == 0x0d {
                        ignore = true;
                    } else if byte == 27 {
                        ignore = true;
                        state = EscState::Escape;
                    }
                },
            }
        }
        if !ignore {
            items.push(LogItem::Byte(byte));
        }
        if byte == 0x0a {
            *first_run = true;
        }
        i += 1;
    }
    assert(data@.take(i as int) =~= data@);
    LogPlan { items, sync: should_sync }
}

/// The bytes among `items`, in order, without the stamps.
pub open spec fn log_bytes(items: Seq<LogItem>) -> Seq<u8>
    decreases items.len(),
{
    if items.len() == 0 {
        Seq::<u8>::empty()
    } else {
        match items.last() {
            LogItem::Byte(b) => log_bytes(items.drop_last()).push(b),
            LogItem::Stamp => log_bytes(items.drop_last()),
        }
    }
}

/// A stamp adds nothing to the bytes of a log, and a byte adds itself.
pub proof fn lemma_log_bytes_append(items: Seq<LogItem>, more: Seq<LogItem>)
    ensures
        log_bytes(items + more) == log_bytes(items) + log_bytes(more),
    decreases more.len(),
{
    if more.len() == 0 {
        assert(items + more =~= items);
        assert(log_bytes(items) + log_bytes(more) =~= log_bytes(items));
    } else {
        assert((items + more).drop_last() =~= items + more.drop_last());
        assert((items + more).last() == more.last());
        lemma_log_bytes_append(items, more.drop_last());
        match more.last() {
            LogItem::Byte(b) => {
                assert(log_bytes(items + more) =~= log_bytes(items) + log_bytes(more));
            },
            LogItem::Stamp => {},
        }
    }
}

/// With escape sequences kept, the log holds every byte of the console
/// output, in order; the stamps come on top.
pub proof fn lemma_kept_escapes_keep_every_byte(data: Seq<u8>, first_run: bool)
    ensures
        log_bytes(log_items(data, true, first_run)) == data,
    decreases data.len(),
{
    if data.len() == 0 {
        assert(log_bytes(log_items(data, true, first_run)) =~= data);
    } else {
        let head = data.drop_last();
        let last = last_byte_items(data, true, first_run);
        lemma_kept_escapes_keep_every_byte(head, first_run);
        lemma_log_bytes_append(log_items(head, true, first_run), last);
        assert(log_bytes(last) =~= seq![data.last()]) by {
            let none = Seq::<LogItem>::empty();
            let stamp = seq![LogItem::Stamp];
            assert(log_bytes(none) =~= Seq::<u8>::empty());
            assert(stamp.drop_last() =~= none);
            assert(stamp.last() == LogItem::Stamp);
            assert(log_bytes(stamp) =~= Seq::<u8>::empty());
            assert(last.len() > 0);
            assert(last.last() == LogItem::Byte(data.last()));
            if at_line_start(head, first_run) {
                assert(last.drop_last() =~= stamp);
            } else {
                assert(last.drop_last() =~= none);
            }
        }
        assert(head + seq![data.last()] =~= data);
    }
}

/// A newline is never dropped: whatever the filter is in the middle of, a
/// newline in the console output ends a line of the log.
pub proof fn lemma_newline_is_kept(state: EscState)
    ensures
        !esc_drops(state, 0x0a),
{
}

} // verus!
