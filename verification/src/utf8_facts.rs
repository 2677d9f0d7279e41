//! Facts about UTF-8 that the state stream rests on: how long a text is in
//! bytes, and that a text without a newline has no newline byte.

use vstd::prelude::*;
use vstd::utf8::{char_is_scalar, encode_scalar, encode_utf8};
use crate::text::{byte_len, utf8_width};
use crate::wire::NEWLINE;

verus! {

/// Whether no character of `s` is a newline: such text stands on one line of
/// the stream.
pub open spec fn on_one_line(s: Seq<char>) -> bool {
    forall|i: int| 0 <= i < s.len() ==> (#[trigger] s[i]) != '\n'
}

/// Whether no byte of `v` is a newline.
pub open spec fn no_newline(v: Seq<u8>) -> bool {
    forall|i: int| 0 <= i < v.len() ==> (#[trigger] v[i]) != NEWLINE
}

/// The encoding of one character is as long as its width says, and holds a
/// newline byte only if the character is the newline.
pub proof fn lemma_scalar_bytes(c: char)
    ensures
        encode_scalar(c as u32).len() == utf8_width(c),
        c != '\n' ==> no_newline(encode_scalar(c as u32)),
{
    char_is_scalar(c);
    let v = c as u32;
    let e = encode_scalar(v);
    assert(v <= 0x7f ==> (v & 0x7f) == v) by (bit_vector);
    let a = (((v >> 6) & 0x1F) as u8);
    let b = (((v >> 12) & 0x0F) as u8);
    let d = (((v >> 18) & 0x7) as u8);
    let x = ((v & 0x3F) as u8);
    let y = (((v >> 6) & 0x3F) as u8);
    let z = (((v >> 12) & 0x3F) as u8);
    assert((0xC0u8 | a) >= 0x80) by (bit_vector);
    assert((0xE0u8 | b) >= 0x80) by (bit_vector);
    assert((0xF0u8 | d) >= 0x80) by (bit_vector);
    assert((0x80u8 | x) >= 0x80) by (bit_vector);
    assert((0x80u8 | y) >= 0x80) by (bit_vector);
    assert((0x80u8 | z) >= 0x80) by (bit_vector);
    if c != '\n' {
        assert forall|i: int| 0 <= i < e.len() implies (#[trigger] e[i]) != NEWLINE by {}
    }
}

/// The encoding of a text with one more character at its end is the
/// encoding of the text followed by that of the character.
pub proof fn lemma_encode_push(s: Seq<char>, c: char)
    ensures
        encode_utf8(s.push(c)) == encode_utf8(s) + encode_scalar(c as u32),
    decreases s.len(),
{
    let t = s.push(c);
    if s.len() == 0 {
        assert(t.drop_first() =~= Seq::<char>::empty());
        assert(encode_utf8(t) =~= encode_scalar(c as u32) + encode_utf8(t.drop_first()));
        assert(encode_utf8(s) =~= Seq::<u8>::empty());
        assert(encode_utf8(Seq::<char>::empty()) =~= Seq::<u8>::empty());
        assert(encode_utf8(t) =~= encode_utf8(s) + encode_scalar(c as u32));
    } else {
        assert(t[0] == s[0]);
        assert(t.drop_first() =~= s.drop_first().push(c));
        lemma_encode_push(s.drop_first(), c);
        assert(encode_utf8(t) =~= encode_utf8(s) + encode_scalar(c as u32));
    }
}

/// A text takes as many bytes on the wire as its characters are wide.
pub proof fn lemma_encode_len(s: Seq<char>)
    ensures
        encode_utf8(s).len() == byte_len(s),
    decreases s.len(),
{
    if s.len() > 0 {
        lemma_encode_len(s.drop_last());
        lemma_encode_push(s.drop_last(), s.last());
        assert(s.drop_last().push(s.last()) =~= s);
        lemma_scalar_bytes(s.last());
    }
}

/// A text without a newline is written without a newline byte.
pub proof fn lemma_encode_on_one_line(s: Seq<char>)
    requires
        on_one_line(s),
    ensures
        no_newline(encode_utf8(s)),
    decreases s.len(),
{
    if s.len() > 0 {
        let head = s.drop_last();
        assert(on_one_line(head)) by {
            assert forall|i: int| 0 <= i < head.len() implies (#[trigger] head[i]) != '\n' by {
                assert(head[i] == s[i]);
            }
        }
        lemma_encode_on_one_line(head);
        lemma_encode_push(head, s.last());
        assert(head.push(s.last()) =~= s);
        assert(s.last() == s[s.len() - 1]);
        lemma_scalar_bytes(s.last());
        let a = encode_utf8(head);
        let b = encode_scalar(s.last() as u32);
        assert forall|i: int| 0 <= i < (a + b).len() implies (#[trigger] (a + b)[i])
            != NEWLINE by {
            if i < a.len() {
                assert(a[i] != NEWLINE);
            } else {
                assert(b[i - a.len()] != NEWLINE);
            }
        }
    }
}

} // verus!
