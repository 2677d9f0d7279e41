//! Runlevel characters.

use vstd::prelude::*;

verus! {

/// Whether `c` names a runlevel: `0` to `6`, `S`, or one of the on-demand
/// levels `A`, `B` and `C`, in either case.
pub open spec fn spec_is_valid_runlevel(c: char) -> bool {
    ('0' <= c <= '6') || c == 'S' || c == 's' || ('A' <= c <= 'C') || ('a' <= c <= 'c')
}

/// The upper-case form of the runlevel letters `s`, `a`, `b` and `c`; any
/// other character as it is.
pub open spec fn spec_normalize_runlevel(c: char) -> char {
    if c == 's' {
        'S'
    } else if c == 'a' {
        'A'
    } else if c == 'b' {
        'B'
    } else if c == 'c' {
        'C'
    } else {
        c
    }
}

/// Whether `c` is one of the on-demand levels `A`, `B` and `C`, which start
/// on-demand entries and leave the current runlevel as it is.
pub open spec fn spec_is_demand_level(c: char) -> bool {
    c == 'A' || c == 'B' || c == 'C'
}

/// Whether `c` is a level that ends in a power action: `0` halts, `6`
/// reboots.
pub open spec fn spec_is_terminal_level(c: char) -> bool {
    c == '0' || c == '6'
}

/// Whether `c` names a runlevel.
pub fn is_valid_runlevel(c: char) -> (res: bool)
    ensures
        res == spec_is_valid_runlevel(c),
{
    (c >= '0' && c <= '6') || c == 'S' || c == 's' || (c >= 'A' && c <= 'C') || (c >= 'a' && c
        <= 'c')
}

/// The runlevel that `c` names, in upper case.
pub fn normalize_runlevel(c: char) -> (res: char)
    ensures
        res == spec_normalize_runlevel(c),
{
    match c {
        's' => 'S',
        'a' => 'A',
        'b' => 'B',
        'c' => 'C',
        _ => c,
    }
}

/// Whether `c` is an on-demand level.
pub fn is_demand_level(c: char) -> (res: bool)
    ensures
        res == spec_is_demand_level(c),
{
    c == 'A' || c == 'B' || c == 'C'
}

/// Whether `c` is the halt or the reboot level.
pub fn is_terminal_level(c: char) -> (res: bool)
    ensures
        res == spec_is_terminal_level(c),
{
    c == '0' || c == '6'
}

/// Normalising keeps a valid runlevel valid, and a second time changes
/// nothing.
pub proof fn lemma_normalize_runlevel(c: char)
    ensures
        spec_is_valid_runlevel(c) == spec_is_valid_runlevel(spec_normalize_runlevel(c)),
        spec_normalize_runlevel(spec_normalize_runlevel(c)) == spec_normalize_runlevel(c),
{
}

} // verus!
