//! Reading the state stream: a cursor over the received bytes and the three
//! ways to take a line from it.

use vstd::prelude::*;
use crate::wire::{StateToken, NEWLINE};

verus! {

/// Position of the first newline of `input`, or its length if it has none.
pub open spec fn newline_at(input: Seq<u8>) -> int
    decreases input.len(),
{
    if input.len() == 0 || input[0] == NEWLINE {
        0
    } else {
        1 + newline_at(input.skip(1))
    }
}

/// What is left of `input` after its first line: what follows the first
/// newline, or nothing if there is none.
pub open spec fn after_line(input: Seq<u8>) -> Seq<u8> {
    if newline_at(input) < input.len() {
        input.skip(newline_at(input) + 1)
    } else {
        Seq::<u8>::empty()
    }
}

/// `newline_at` lies inside the input or at its end, no byte before it is a
/// newline, and the byte at it is one.
pub proof fn lemma_newline_at(input: Seq<u8>)
    ensures
        0 <= newline_at(input) <= input.len(),
        forall|i: int| 0 <= i < newline_at(input) ==> input[i] != NEWLINE,
        newline_at(input) < input.len() ==> input[newline_at(input)] == NEWLINE,
    decreases input.len(),
{
    if input.len() > 0 && input[0] != NEWLINE {
        lemma_newline_at(input.skip(1));
        assert forall|i: int| 0 <= i < newline_at(input) implies input[i] != NEWLINE by {
            if i > 0 {
                assert(input.skip(1)[i - 1] == input[i]);
            }
        }
    }
}

/// Number of bytes that the character of the byte `b` takes in a string: a
/// byte is read as the character of the same number.
pub open spec fn latin1_width(b: u8) -> nat {
    if b < 0x80 {
        1
    } else {
        2
    }
}

/// The characters that the bytes `bytes` are read as, one for each.
pub open spec fn latin1(bytes: Seq<u8>) -> Seq<char> {
    Seq::new(bytes.len(), |i: int| bytes[i] as char)
}

/// Length in bytes of the string that `bytes` are read as.
pub open spec fn latin1_len(bytes: Seq<u8>) -> nat
    decreases bytes.len(),
{
    if bytes.len() == 0 {
        0
    } else {
        latin1_len(bytes.drop_last()) + latin1_width(bytes.last())
    }
}

/// Number of bytes at the start of `input` that `get_string` turns into
/// characters, when the string it has built so far takes `used` bytes: it
/// goes on until the string has reached `max_size` bytes, the input ends, or
/// a newline comes.
pub open spec fn string_span(input: Seq<u8>, max_size: nat, used: nat) -> nat
    decreases input.len(),
{
    if used >= max_size || input.len() == 0 || input[0] == NEWLINE {
        0
    } else {
        1 + string_span(input.skip(1), max_size, used + latin1_width(input[0]))
    }
}

/// Number of bytes that `get_string` takes from `input`: those that it turns
/// into characters, and the newline after them if that is what stopped it.
pub open spec fn string_consumed(input: Seq<u8>, max_size: nat) -> nat {
    let span = string_span(input, max_size, 0);
    if span < input.len() && latin1_len(input.take(span as int)) < max_size {
        span + 1
    } else {
        span
    }
}

/// The string that `get_string` reads from `input`.
pub open spec fn string_read(input: Seq<u8>, max_size: nat) -> Seq<char> {
    latin1(input.take(string_span(input, max_size, 0) as int))
}

/// A cursor over the bytes of a state stream.
pub struct StateReader {
    data: Vec<u8>,
    pos: usize,
}

impl StateReader {
    #[verifier::type_invariant]
    spec fn inv(self) -> bool {
        self.pos <= self.data@.len()
    }

    /// The bytes that have not been read yet.
    pub closed spec fn remaining(self) -> Seq<u8> {
        self.data@.skip(self.pos as int)
    }

    /// A reader at the start of `data`.
    pub fn new(data: Vec<u8>) -> (res: Self)
        ensures
            res.remaining() == data@,
    {
        assert(data@.skip(0) =~= data@);
        StateReader { data, pos: 0 }
    }

    /// Number of bytes that have not been read yet.
    pub fn remaining_len(&self) -> (res: usize)
        ensures
            res == self.remaining().len(),
    {
        proof {
            use_type_invariant(self);
        }
        self.data.len() - self.pos
    }

    /// Takes the next byte, if there is one.
    pub fn read_byte(&mut self) -> (res: Option<u8>)
        ensures
            match res {
                Some(b) => old(self).remaining().len() > 0 && b == old(self).remaining()[0]
                    && final(self).remaining() == old(self).remaining().skip(1),
                None => old(self).remaining().len() == 0 && final(self).remaining() == old(
                    self,
                ).remaining(),
            },
    {
        proof {
            use_type_invariant(&*self);
        }
        if self.pos < self.data.len() {
            let b = self.data[self.pos];
            assert(self.data@.skip(self.pos as int).skip(1) =~= self.data@.skip(self.pos + 1));
            self.pos = self.pos + 1;
            Some(b)
        } else {
            None
        }
    }

    /// Drops whatever has not been read yet.
    pub fn drain(&mut self)
        ensures
            final(self).remaining() == Seq::<u8>::empty(),
    {
        proof {
            use_type_invariant(&*self);
        }
        self.pos = self.data.len();
        assert(self.data@.skip(self.pos as int) =~= Seq::<u8>::empty());
    }
}

/// Reads a string up to the end of the line.
///
/// Every byte becomes the character of the same number. Reading stops when
/// the string has reached `max_size` bytes; the rest of the line then stays
/// in the stream. It stops at the end of the stream, and at a newline, which
/// is taken from the stream and is no part of the string.
pub fn get_string(reader: &mut StateReader, max_size: usize) -> (res: String)
    ensures
        res@ == string_read(old(reader).remaining(), max_size as nat),
        final(reader).remaining() == old(reader).remaining().skip(
            string_consumed(old(reader).remaining(), max_size as nat) as int,
        ),
{
    let ghost input = reader.remaining();
    let ghost mut k: int = 0;
    let ghost mut used_true: nat = 0;
    let mut used: usize = 0;
    let mut result = String::new();
    assert(input.skip(0) =~= input);
    assert(result@ =~= latin1(input.take(0)));
    assert(input.take(0) =~= Seq::<u8>::empty());
    loop
        invariant_except_break
            0 <= k <= input.len(),
            reader.remaining() == input.skip(k),
            result@ == latin1(input.take(k)),
            used_true == latin1_len(input.take(k)),
            used <= max_size,
            used == if used_true < max_size { used_true } else { max_size as nat },
            k + string_span(input.skip(k), max_size as nat, used_true) == string_span(
                input,
                max_size as nat,
                0,
            ),
        ensures
            reads_as(input, max_size as nat, result@, reader.remaining()),
        decreases input.len() - k,
    {
        if used >= max_size {
            assert(string_span(input.skip(k), max_size as nat, used_true) == 0);
            break ;
        }
        match reader.read_byte() {
            None => {
                assert(string_span(input.skip(k), max_size as nat, used_true) == 0);
                break ;
            },
            Some(b) => {
                if b == NEWLINE {
                    assert(input.skip(k)[0] == input[k]);
                    assert(input.skip(k).skip(1) =~= input.skip(k + 1));
                    assert(string_span(input.skip(k), max_size as nat, used_true) == 0);
                    break ;
                }
                result.push(b as char);
                let width: usize = if b < 0x80 { 1 } else { 2 };
                if width >= max_size - used {
                    used = max_size;
                } else {
                    used = used + width;
                }
                proof {
                    assert(input.skip(k)[0] == input[k]);
                    assert(input.skip(k).skip(1) =~= input.skip(k + 1));
                    assert(input.take(k + 1).drop_last() =~= input.take(k));
                    assert(input.take(k + 1).last() == b);
                    assert(latin1(input.take(k + 1)) =~= latin1(input.take(k)).push(b as char));
                    used_true = used_true + latin1_width(b);
                    k = k + 1;
                }
            },
        }
    }
    result
}

/// Whether `string` is what `get_string` reads from `input`, and `rest` what
/// it leaves in the stream.
pub open spec fn reads_as(input: Seq<u8>, max_size: nat, string: Seq<char>, rest: Seq<u8>) -> bool {
    &&& string == string_read(input, max_size)
    &&& rest == input.skip(string_consumed(input, max_size) as int)
}

/// Skips the rest of the line. Says whether a newline ended it; if the
/// stream ended first, nothing is left of it.
pub fn get_void(reader: &mut StateReader) -> (res: bool)
    ensures
        res == (newline_at(old(reader).remaining()) < old(reader).remaining().len()),
        final(reader).remaining() == after_line(old(reader).remaining()),
{
    let ghost input = reader.remaining();
    let ghost mut k: int = 0;
    assert(input.skip(0) =~= input);
    loop
        invariant
            input == old(reader).remaining(),
            0 <= k <= input.len(),
            reader.remaining() == input.skip(k),
            k + newline_at(input.skip(k)) == newline_at(input),
        decreases input.len() - k,
    {
        match reader.read_byte() {
            Some(b) => {
                proof {
                    assert(input.skip(k)[0] == input[k]);
                    assert(input.skip(k).skip(1) =~= input.skip(k + 1));
                }
                if b == NEWLINE {
                    return true;
                }
                proof {
                    k = k + 1;
                }
            },
            None => {
                assert(input.skip(k) =~= Seq::<u8>::empty());
                return false;
            },
        }
    }
}

/// The token that opens what is left of `input`: the one that its first
/// three bytes spell, and [`StateToken::Eof`] where they spell none or fewer
/// than three bytes are left.
pub open spec fn next_token(input: Seq<u8>) -> StateToken {
    if input.len() < 3 {
        StateToken::Eof
    } else {
        StateToken::spec_from_name(input[0], input[1], input[2])
    }
}

/// What is left of `input` after its opening token: what follows the first
/// three bytes, and nothing where fewer than three are left.
pub open spec fn after_token(input: Seq<u8>) -> Seq<u8> {
    if input.len() < 3 {
        Seq::<u8>::empty()
    } else {
        input.skip(3)
    }
}

/// Reads the token that opens the next line.
pub fn get_cmd(reader: &mut StateReader) -> (res: StateToken)
    ensures
        res == next_token(old(reader).remaining()),
        final(reader).remaining() == after_token(old(reader).remaining()),
{
    let ghost input = reader.remaining();
    if reader.remaining_len() < 3 {
        reader.drain();
        return StateToken::Eof;
    }
    let a = reader.read_byte();
    let b = reader.read_byte();
    let c = reader.read_byte();
    proof {
        assert(input.skip(1)[0] == input[1]);
        assert(input.skip(1).skip(1) =~= input.skip(2));
        assert(input.skip(2)[0] == input[2]);
        assert(input.skip(2).skip(1) =~= input.skip(3));
    }
    match (a, b, c) {
        (Some(a), Some(b), Some(c)) => StateToken::from_name(a, b, c),
        _ => StateToken::Eof,
    }
}

} // verus!
