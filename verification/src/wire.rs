//! The lines of the state stream: tokens, values, and the reader that takes
//! a stream apart.

use vstd::prelude::*;

verus! {

/// The newline that ends a line.
pub const NEWLINE: u8 = 0x0a;

/// The tokens that open the lines of the state stream.
#[derive(Clone, Copy, Debug, PartialEq, Eq, Structural)]
pub enum StateToken {
    Ver,
    End,
    Rec,
    Eor,
    Lev,
    Flag,
    Action,
    Process,
    Pid,
    Exs,
    Eof,
    Runlevel,
    ThisLevel,
    PrevLevel,
    GotSign,
    WroteWtmpReboot,
    WroteUtmpReboot,
    SlTime,
    DidBoot,
    WroteWtmpRlevel,
    WroteUtmpRlevel,
}

impl StateToken {
    /// The number of the token: positive for the tokens of a record,
    /// negative for the end of the stream and the global settings.
    pub open spec fn spec_code(self) -> int {
        match self {
            StateToken::Ver => 1,
            StateToken::End => 2,
            StateToken::Rec => 3,
            StateToken::Eor => 4,
            StateToken::Lev => 5,
            StateToken::Flag => 6,
            StateToken::Action => 7,
            StateToken::Process => 8,
            StateToken::Pid => 9,
            StateToken::Exs => 10,
            StateToken::Eof => -1,
            StateToken::Runlevel => -2,
            StateToken::ThisLevel => -3,
            StateToken::PrevLevel => -4,
            StateToken::GotSign => -5,
            StateToken::WroteWtmpReboot => -6,
            StateToken::WroteUtmpReboot => -7,
            StateToken::SlTime => -8,
            StateToken::DidBoot => -9,
            StateToken::WroteWtmpRlevel => -16,
            StateToken::WroteUtmpRlevel => -17,
        }
    }

    /// The three bytes that spell the token on the wire. The end of the
    /// stream is no line and has no name; three blanks stand for it here.
    pub open spec fn spec_name(self) -> Seq<u8> {
        match self {
            StateToken::Ver => seq!['V' as u8, 'E' as u8, 'R' as u8],
            StateToken::End => seq!['E' as u8, 'N' as u8, 'D' as u8],
            StateToken::Rec => seq!['R' as u8, 'E' as u8, 'C' as u8],
            StateToken::Eor => seq!['E' as u8, 'O' as u8, 'R' as u8],
            StateToken::Lev => seq!['L' as u8, 'E' as u8, 'V' as u8],
            StateToken::Flag => seq!['F' as u8, 'L' as u8, ' ' as u8],
            StateToken::Action => seq!['A' as u8, 'C' as u8, ' ' as u8],
            StateToken::Process => seq!['C' as u8, 'M' as u8, 'D' as u8],
            StateToken::Pid => seq!['P' as u8, 'I' as u8, 'D' as u8],
            StateToken::Exs => seq!['E' as u8, 'X' as u8, 'S' as u8],
            StateToken::Eof => seq![' ' as u8, ' ' as u8, ' ' as u8],
            StateToken::Runlevel => seq!['-' as u8, 'R' as u8, 'L' as u8],
            StateToken::ThisLevel => seq!['-' as u8, 'T' as u8, 'L' as u8],
            StateToken::PrevLevel => seq!['-' as u8, 'P' as u8, 'L' as u8],
            StateToken::GotSign => seq!['-' as u8, 'S' as u8, 'I' as u8],
            StateToken::WroteWtmpReboot => seq!['-' as u8, 'W' as u8, 'R' as u8],
            StateToken::WroteUtmpReboot => seq!['-' as u8, 'W' as u8, 'U' as u8],
            StateToken::SlTime => seq!['-' as u8, 'S' as u8, 'T' as u8],
            StateToken::DidBoot => seq!['-' as u8, 'D' as u8, 'B' as u8],
            StateToken::WroteWtmpRlevel => seq!['-' as u8, 'L' as u8, 'W' as u8],
            StateToken::WroteUtmpRlevel => seq!['-' as u8, 'L' as u8, 'U' as u8],
        }
    }

    /// The token that three bytes spell; [`StateToken::Eof`] for bytes that
    /// spell none.
    pub open spec fn spec_from_name(a: u8, b: u8, c: u8) -> StateToken {
        if a == 'V' as u8 && b == 'E' as u8 && c == 'R' as u8 {
            StateToken::Ver
        } else if a == 'E' as u8 && b == 'N' as u8 && c == 'D' as u8 {
            StateToken::End
        } else if a == 'R' as u8 && b == 'E' as u8 && c == 'C' as u8 {
            StateToken::Rec
        } else if a == 'E' as u8 && b == 'O' as u8 && c == 'R' as u8 {
            StateToken::Eor
        } else if a == 'L' as u8 && b == 'E' as u8 && c == 'V' as u8 {
            StateToken::Lev
        } else if a == 'F' as u8 && b == 'L' as u8 && c == ' ' as u8 {
            StateToken::Flag
        } else if a == 'A' as u8 && b == 'C' as u8 && c == ' ' as u8 {
            StateToken::Action
        } else if a == 'C' as u8 && b == 'M' as u8 && c == 'D' as u8 {
            StateToken::Process
        } else if a == 'P' as u8 && b == 'I' as u8 && c == 'D' as u8 {
            StateToken::Pid
        } else if a == 'E' as u8 && b == 'X' as u8 && c == 'S' as u8 {
            StateToken::Exs
        } else if a == '-' as u8 && b == 'R' as u8 && c == 'L' as u8 {
            StateToken::Runlevel
        } else if a == '-' as u8 && b == 'T' as u8 && c == 'L' as u8 {
            StateToken::ThisLevel
        } else if a == '-' as u8 && b == 'P' as u8 && c == 'L' as u8 {
            StateToken::PrevLevel
        } else if a == '-' as u8 && b == 'S' as u8 && c == 'I' as u8 {
            StateToken::GotSign
        } else if a == '-' as u8 && b == 'W' as u8 && c == 'R' as u8 {
            StateToken::WroteWtmpReboot
        } else if a == '-' as u8 && b == 'W' as u8 && c == 'U' as u8 {
            StateToken::WroteUtmpReboot
        } else if a == '-' as u8 && b == 'S' as u8 && c == 'T' as u8 {
            StateToken::SlTime
        } else if a == '-' as u8 && b == 'D' as u8 && c == 'B' as u8 {
            StateToken::DidBoot
        } else if a == '-' as u8 && b == 'L' as u8 && c == 'W' as u8 {
            StateToken::WroteWtmpRlevel
        } else if a == '-' as u8 && b == 'L' as u8 && c == 'U' as u8 {
            StateToken::WroteUtmpRlevel
        } else {
            StateToken::Eof
        }
    }

    /// The number of the token.
    pub fn code(self) -> (res: i32)
        ensures
            res == self.spec_code(),
    {
        match self {
            StateToken::Ver => 1,
            StateToken::End => 2,
            StateToken::Rec => 3,
            StateToken::Eor => 4,
            StateToken::Lev => 5,
            StateToken::Flag => 6,
            StateToken::Action => 7,
            StateToken::Process => 8,
            StateToken::Pid => 9,
            StateToken::Exs => 10,
            StateToken::Eof => -1,
            StateToken::Runlevel => -2,
            StateToken::ThisLevel => -3,
            StateToken::PrevLevel => -4,
            StateToken::GotSign => -5,
            StateToken::WroteWtmpReboot => -6,
            StateToken::WroteUtmpReboot => -7,
            StateToken::SlTime => -8,
            StateToken::DidBoot => -9,
            StateToken::WroteWtmpRlevel => -16,
            StateToken::WroteUtmpRlevel => -17,
        }
    }

    /// The token that three bytes spell.
    pub fn from_name(a: u8, b: u8, c: u8) -> (res: StateToken)
        ensures
            res == Self::spec_from_name(a, b, c),
    {
        if a == 'V' as u8 && b == 'E' as u8 && c == 'R' as u8 {
            StateToken::Ver
        } else if a == 'E' as u8 && b == 'N' as u8 && c == 'D' as u8 {
            StateToken::End
        } else if a == 'R' as u8 && b == 'E' as u8 && c == 'C' as u8 {
            StateToken::Rec
        } else if a == 'E' as u8 && b == 'O' as u8 && c == 'R' as u8 {
            StateToken::Eor
        } else if a == 'L' as u8 && b == 'E' as u8 && c == 'V' as u8 {
            StateToken::Lev
        } else if a == 'F' as u8 && b == 'L' as u8 && c == ' ' as u8 {
            StateToken::Flag
        } else if a == 'A' as u8 && b == 'C' as u8 && c == ' ' as u8 {
            StateToken::Action
        } else if a == 'C' as u8 && b == 'M' as u8 && c == 'D' as u8 {
            StateToken::Process
        } else if a == 'P' as u8 && b == 'I' as u8 && c == 'D' as u8 {
            StateToken::Pid
        } else if a == 'E' as u8 && b == 'X' as u8 && c == 'S' as u8 {
            StateToken::Exs
        } else if a == '-' as u8 && b == 'R' as u8 && c == 'L' as u8 {
            StateToken::Runlevel
        } else if a == '-' as u8 && b == 'T' as u8 && c == 'L' as u8 {
            StateToken::ThisLevel
        } else if a == '-' as u8 && b == 'P' as u8 && c == 'L' as u8 {
            StateToken::PrevLevel
        } else if a == '-' as u8 && b == 'S' as u8 && c == 'I' as u8 {
            StateToken::GotSign
        } else if a == '-' as u8 && b == 'W' as u8 && c == 'R' as u8 {
            StateToken::WroteWtmpReboot
        } else if a == '-' as u8 && b == 'W' as u8 && c == 'U' as u8 {
            StateToken::WroteUtmpReboot
        } else if a == '-' as u8 && b == 'S' as u8 && c == 'T' as u8 {
            StateToken::SlTime
        } else if a == '-' as u8 && b == 'D' as u8 && c == 'B' as u8 {
            StateToken::DidBoot
        } else if a == '-' as u8 && b == 'L' as u8 && c == 'W' as u8 {
            StateToken::WroteWtmpRlevel
        } else if a == '-' as u8 && b == 'L' as u8 && c == 'U' as u8 {
            StateToken::WroteUtmpRlevel
        } else {
            StateToken::Eof
        }
    }

    /// Puts the three bytes of the token at the end of `out`.
    pub fn write_name(self, out: &mut Vec<u8>)
        ensures
            final(out)@ == old(out)@ + self.spec_name(),
    {
        let (a, b, c): (u8, u8, u8) = match self {
            StateToken::Ver => ('V' as u8, 'E' as u8, 'R' as u8),
            StateToken::End => ('E' as u8, 'N' as u8, 'D' as u8),
            StateToken::Rec => ('R' as u8, 'E' as u8, 'C' as u8),
            StateToken::Eor => ('E' as u8, 'O' as u8, 'R' as u8),
            StateToken::Lev => ('L' as u8, 'E' as u8, 'V' as u8),
            StateToken::Flag => ('F' as u8, 'L' as u8, ' ' as u8),
            StateToken::Action => ('A' as u8, 'C' as u8, ' ' as u8),
            StateToken::Process => ('C' as u8, 'M' as u8, 'D' as u8),
            StateToken::Pid => ('P' as u8, 'I' as u8, 'D' as u8),
            StateToken::Exs => ('E' as u8, 'X' as u8, 'S' as u8),
            StateToken::Eof => (' ' as u8, ' ' as u8, ' ' as u8),
            StateToken::Runlevel => ('-' as u8, 'R' as u8, 'L' as u8),
            StateToken::ThisLevel => ('-' as u8, 'T' as u8, 'L' as u8),
            StateToken::PrevLevel => ('-' as u8, 'P' as u8, 'L' as u8),
            StateToken::GotSign => ('-' as u8, 'S' as u8, 'I' as u8),
            StateToken::WroteWtmpReboot => ('-' as u8, 'W' as u8, 'R' as u8),
            StateToken::WroteUtmpReboot => ('-' as u8, 'W' as u8, 'U' as u8),
            StateToken::SlTime => ('-' as u8, 'S' as u8, 'T' as u8),
            StateToken::DidBoot => ('-' as u8, 'D' as u8, 'B' as u8),
            StateToken::WroteWtmpRlevel => ('-' as u8, 'L' as u8, 'W' as u8),
            StateToken::WroteUtmpRlevel => ('-' as u8, 'L' as u8, 'U' as u8),
        };
        out.push(a);
        out.push(b);
        out.push(c);
        assert(out@ =~= old(out)@ + self.spec_name());
    }
}

/// Every token but the end of the stream is spelled by its own name and by
/// no other.
pub proof fn lemma_name_spells_token(token: StateToken)
    requires
        token != StateToken::Eof,
    ensures
        token.spec_name().len() == 3,
        StateToken::spec_from_name(token.spec_name()[0], token.spec_name()[1], token.spec_name()[2])
            == token,
        forall|i: int| 0 <= i < 3 ==> token.spec_name()[i] != NEWLINE,
{
}

} // verus!
