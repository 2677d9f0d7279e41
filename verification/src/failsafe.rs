//! The respawn failsafe: an entry that respawns too fast is disabled for a
//! while.

use vstd::prelude::*;
use crate::child::{Child, ChildView};
use crate::flags::{lemma_with, lemma_without, ChildFlags};

verus! {

/// Most respawns inside one test window.
pub const MAXSPAWN: u32 = 10;

/// Length of the test window, in seconds.
pub const TESTTIME: u64 = 120;

/// How long a failing entry stays disabled, in seconds.
pub const SLEEPTIME: u64 = 300;

/// What the failsafe says of a respawn that is due.
#[derive(Clone, Copy, Debug, PartialEq, Eq, Structural)]
pub enum RespawnDecision {
    /// The entry may be spawned.
    Spawn,
    /// The entry respawned too fast and is disabled from now on; it is looked
    /// at again at `retry_at`.
    Disabled { retry_at: u64 },
    /// The entry is still disabled; it is looked at again at `retry_at`.
    Suppressed { retry_at: u64 },
}

/// Whether `now` lies inside the test window of `e`.
pub open spec fn in_test_window(e: ChildView, now: u64) -> bool {
    now - e.tm < TESTTIME
}

/// Whether a failing entry has been disabled long enough at `now`.
pub open spec fn cooled_down(e: ChildView, now: u64) -> bool {
    now - e.tm >= SLEEPTIME
}

/// The respawn count of `e` with one more respawn, as far as it can be
/// counted.
pub open spec fn counted_up(e: ChildView) -> u32 {
    if e.count < u32::MAX {
        (e.count + 1) as u32
    } else {
        e.count
    }
}

/// When an entry disabled at `tm` is looked at again.
pub open spec fn retry_time(tm: u64) -> u64 {
    if tm + SLEEPTIME <= u64::MAX {
        (tm + SLEEPTIME) as u64
    } else {
        u64::MAX
    }
}

/// The entry after a respawn became due at `now`.
///
/// A failing entry stays as it is until it has cooled down; then the failing
/// mark goes and a new window opens with this respawn as its first. Of an
/// entry that is not failing the respawn is counted, in the running window or
/// as the first of a new one; when the count passes [`MAXSPAWN`] the entry
/// gets the failing mark and the time of this respawn.
pub open spec fn respawn_entry(e: ChildView, now: u64) -> ChildView {
    if e.is_failing() {
        if cooled_down(e, now) {
            ChildView { flags: e.flags.without(ChildFlags::FAILING), count: 1, tm: now, ..e }
        } else {
            e
        }
    } else if in_test_window(e, now) {
        if counted_up(e) > MAXSPAWN {
            ChildView { flags: e.flags.with(ChildFlags::FAILING), count: counted_up(e), tm: now, ..e }
        } else {
            ChildView { count: counted_up(e), ..e }
        }
    } else {
        ChildView { count: 1, tm: now, ..e }
    }
}

/// What the failsafe decides of a respawn that became due at `now`.
pub open spec fn respawn_decision(e: ChildView, now: u64) -> RespawnDecision {
    if e.is_failing() {
        if cooled_down(e, now) {
            RespawnDecision::Spawn
        } else {
            RespawnDecision::Suppressed { retry_at: retry_time(e.tm) }
        }
    } else if in_test_window(e, now) && counted_up(e) > MAXSPAWN {
        RespawnDecision::Disabled { retry_at: retry_time(now) }
    } else {
        RespawnDecision::Spawn
    }
}

/// Whether the failing mark of `e` says what its count says: the entry is
/// failing exactly if it was respawned more than [`MAXSPAWN`] times inside
/// one window.
pub open spec fn failsafe_consistent(e: ChildView) -> bool {
    e.is_failing() == (e.count > MAXSPAWN)
}

/// The failsafe on the three values it works with: accounts for a respawn
/// that is due at `now`, and says whether the entry may be spawned. The
/// result holds the new flags, time stamp and count, and the decision.
pub fn respawn_update(flags: ChildFlags, tm: u64, count: u32, now: u64) -> (res: (
    ChildFlags,
    u64,
    u32,
    RespawnDecision,
))
    ensures
        forall|e: ChildView|
            e.flags == flags && e.tm == tm && e.count == count ==> #[trigger] respawn_entry(e, now)
                == (ChildView { flags: res.0, tm: res.1, count: res.2, ..e })
                && respawn_decision(e, now) == res.3,
{
    let mut flags = flags;
    if flags.contains(ChildFlags::FAILING) {
        if now >= tm && now - tm >= SLEEPTIME {
            flags.remove(ChildFlags::FAILING);
            (flags, now, 1, RespawnDecision::Spawn)
        } else {
            (flags, tm, count, RespawnDecision::Suppressed { retry_at: tm.saturating_add(SLEEPTIME) })
        }
    } else if now < tm || now - tm < TESTTIME {
        let counted: u32 = count.saturating_add(1);
        if counted > MAXSPAWN {
            flags.insert(ChildFlags::FAILING);
            (flags, now, counted, RespawnDecision::Disabled { retry_at: now.saturating_add(SLEEPTIME) })
        } else {
            (flags, tm, counted, RespawnDecision::Spawn)
        }
    } else {
        (flags, now, 1, RespawnDecision::Spawn)
    }
}

/// Accounts for a respawn of `child` that is due at `now`, and says whether
/// the entry may be spawned.
pub fn check_respawn(child: &mut Child, now: u64) -> (res: RespawnDecision)
    ensures
        final(child)@ == respawn_entry(old(child)@, now),
        res == respawn_decision(old(child)@, now),
{
    let ghost before = child@;
    let (flags, tm, count, decision) = respawn_update(child.flags, child.tm, child.count, now);
    assert(respawn_entry(before, now) == (ChildView { flags, tm, count, ..before }));
    child.flags = flags;
    child.tm = tm;
    child.count = count;
    decision
}

/// The failsafe keeps mark and count in step, and changes nothing of an entry
/// but its failing mark, its count and its time stamp.
pub proof fn lemma_respawn_entry(e: ChildView, now: u64, bit: u32)
    requires
        crate::flags::is_named_bit(bit),
    ensures
        failsafe_consistent(e) ==> failsafe_consistent(respawn_entry(e, now)),
        respawn_decision(e, now) == RespawnDecision::Spawn <==> !respawn_entry(e, now).is_failing(),
        bit != ChildFlags::FAILING ==> respawn_entry(e, now).flags.has(bit) == e.flags.has(bit),
        respawn_entry(e, now).id == e.id,
        respawn_entry(e, now).pid == e.pid,
        respawn_entry(e, now).exstat == e.exstat,
        respawn_entry(e, now).definition() == e.definition(),
        respawn_entry(e, now).shadow == e.shadow,
{
    lemma_with(e.flags, ChildFlags::FAILING, ChildFlags::FAILING);
    lemma_without(e.flags, ChildFlags::FAILING, ChildFlags::FAILING);
    lemma_with(e.flags, ChildFlags::FAILING, bit);
    lemma_without(e.flags, ChildFlags::FAILING, bit);
    crate::flags::lemma_named_bits_distinct(ChildFlags::FAILING, bit);
    crate::flags::lemma_named_bits_distinct(ChildFlags::FAILING, ChildFlags::FAILING);
}

/// The entry after the respawns that became due at `times`, in order.
pub open spec fn respawn_run(e: ChildView, times: Seq<u64>) -> ChildView
    decreases times.len(),
{
    if times.len() == 0 {
        e
    } else {
        respawn_entry(respawn_run(e, times.drop_last()), times.last())
    }
}

/// The decision on the respawn that became due at `times[k]`, after those
/// before it.
pub open spec fn decision_at(e: ChildView, times: Seq<u64>, k: int) -> RespawnDecision {
    respawn_decision(respawn_run(e, times.take(k)), times[k])
}

/// Respawns inside the running window are counted one by one and allowed as
/// long as the count stays within [`MAXSPAWN`].
pub proof fn lemma_run_in_window(e: ChildView, times: Seq<u64>)
    requires
        !e.is_failing(),
        e.count + times.len() <= MAXSPAWN,
        forall|k: int| 0 <= k < times.len() ==> times[k] - e.tm < TESTTIME,
    ensures
        respawn_run(e, times) == (ChildView { count: (e.count + times.len()) as u32, ..e }),
        forall|k: int| 0 <= k < times.len() ==> decision_at(e, times, k) == RespawnDecision::Spawn,
    decreases times.len(),
{
    if times.len() > 0 {
        let head = times.drop_last();
        lemma_run_in_window(e, head);
        assert forall|k: int| 0 <= k < times.len() implies decision_at(e, times, k)
            == RespawnDecision::Spawn by {
            if k < times.len() - 1 {
                assert(head.take(k) =~= times.take(k));
                assert(decision_at(e, head, k) == RespawnDecision::Spawn);
            } else {
                assert(times.take(k) =~= head);
            }
        }
    }
}

/// An entry that is respawned eleven times inside one window is disabled at
/// the eleventh, and stays so until [`SLEEPTIME`] seconds have gone by since
/// then.
///
/// The first respawn opens the window, because the window before it is over
/// or because the entry was never respawned. The first ten respawns are
/// allowed. The eleventh is refused and marks the entry as failing. From then
/// on every respawn is refused and leaves the entry as it is while less than
/// `SLEEPTIME` seconds have passed since the eleventh; the first one after
/// that is allowed and takes the mark away.
pub proof fn lemma_eleventh_respawn_disables(e: ChildView, times: Seq<u64>, later: u64)
    requires
        !e.is_failing(),
        times.len() == MAXSPAWN + 1,
        forall|i: int, j: int| 0 <= i <= j < times.len() ==> times[i] <= times[j],
        times[MAXSPAWN as int] - times[0] < TESTTIME,
        !in_test_window(e, times[0]) || (e.count == 0 && times[0] >= e.tm && times[MAXSPAWN as int]
            - e.tm < TESTTIME),
    ensures
        forall|k: int| 0 <= k < MAXSPAWN ==> decision_at(e, times, k) == RespawnDecision::Spawn,
        decision_at(e, times, MAXSPAWN as int) == (RespawnDecision::Disabled {
            retry_at: retry_time(times[MAXSPAWN as int]),
        }),
        respawn_run(e, times).is_failing(),
        respawn_run(e, times).tm == times[MAXSPAWN as int],
        respawn_run(e, times).count == MAXSPAWN + 1,
        failsafe_consistent(respawn_run(e, times)),
        later - times[MAXSPAWN as int] < SLEEPTIME ==> {
            &&& respawn_decision(respawn_run(e, times), later) == (RespawnDecision::Suppressed {
                retry_at: retry_time(times[MAXSPAWN as int]),
            })
            &&& respawn_entry(respawn_run(e, times), later) == respawn_run(e, times)
        },
        later - times[MAXSPAWN as int] >= SLEEPTIME ==> {
            &&& respawn_decision(respawn_run(e, times), later) == RespawnDecision::Spawn
            &&& !respawn_entry(respawn_run(e, times), later).is_failing()
            &&& respawn_entry(respawn_run(e, times), later).count == 1
        },
{
    let first = respawn_entry(e, times[0]);
    let one = times.take(1);
    assert(one.drop_last() =~= Seq::<u64>::empty());
    assert(respawn_run(e, Seq::<u64>::empty()) == e);
    assert(one.last() == times[0]);
    assert(respawn_run(e, one) == first);
    assert(times.take(0) =~= Seq::<u64>::empty());
    assert(decision_at(e, times, 0) == RespawnDecision::Spawn);
    assert(first.count == 1 && !first.is_failing());
    // The nine respawns after the first stay inside the window that it opened.
    let ten = times.take(MAXSPAWN as int);
    let rest = ten.skip(1);
    assert forall|k: int| 0 <= k < rest.len() implies rest[k] - first.tm < TESTTIME by {
        assert(rest[k] == times[k + 1]);
        assert(times[k + 1] <= times[MAXSPAWN as int]);
        assert(times[0] <= times[k + 1]);
    }
    lemma_run_in_window(first, rest);
    lemma_run_split(e, ten, 1);
    assert(ten.take(1) =~= one);
    let tenth = respawn_run(e, ten);
    assert(tenth == (ChildView { count: MAXSPAWN, ..first }));
    assert forall|k: int| 0 <= k < MAXSPAWN implies decision_at(e, times, k)
        == RespawnDecision::Spawn by {
        if k > 0 {
            lemma_run_split(e, times.take(k), 1);
            assert(times.take(k).take(1) =~= one);
            assert(times.take(k).skip(1) =~= rest.take(k - 1));
            assert(decision_at(first, rest, k - 1) == RespawnDecision::Spawn);
            assert(rest[k - 1] == times[k]);
        }
    }
    assert(times.drop_last() =~= ten);
    assert(times.take(MAXSPAWN as int) =~= ten);
    assert(times.last() == times[MAXSPAWN as int]);
    assert(times[MAXSPAWN as int] - tenth.tm < TESTTIME);
    let after = respawn_run(e, times);
    lemma_with(tenth.flags, ChildFlags::FAILING, ChildFlags::FAILING);
    crate::flags::lemma_named_bits_distinct(ChildFlags::FAILING, ChildFlags::FAILING);
    lemma_without(after.flags, ChildFlags::FAILING, ChildFlags::FAILING);
}

/// Whether the respawns that become due at `times` all fall into one test
/// window that the first of them opens: the times do not go back, the last
/// is less than [`TESTTIME`] after the first, and at the first either the
/// window before it is over, or the entry was never respawned and its own
/// window still holds the last.
pub open spec fn in_one_window(e: ChildView, times: Seq<u64>) -> bool {
    &&& times.len() > 0
    &&& forall|i: int, j: int| 0 <= i <= j < times.len() ==> times[i] <= times[j]
    &&& times.last() - times[0] < TESTTIME
    &&& (!in_test_window(e, times[0]) || (e.count == 0 && times[0] >= e.tm && times.last() - e.tm
        < TESTTIME))
}

/// What is decided of the respawn `k` of a run inside one window: the first
/// ten are allowed, the eleventh disables the entry, and those after it are
/// refused.
pub open spec fn decision_in_window(times: Seq<u64>, k: int) -> RespawnDecision {
    if k < MAXSPAWN {
        RespawnDecision::Spawn
    } else if k == MAXSPAWN {
        RespawnDecision::Disabled { retry_at: retry_time(times[MAXSPAWN as int]) }
    } else {
        RespawnDecision::Suppressed { retry_at: retry_time(times[MAXSPAWN as int]) }
    }
}

/// Of any number of respawns inside one window the first ten are counted
/// and allowed, the eleventh is counted and disables the entry, and none
/// after it is allowed or counted.
///
/// After `n` respawns the count is `n`, up to eleven, and the entry is
/// failing exactly if `n` is more than [`MAXSPAWN`]. So an entry that is
/// restarted twelve times within a minute is failing after the eleventh, and
/// the twelfth and whatever follows inside the window is refused.
pub proof fn lemma_respawns_in_one_window(e: ChildView, times: Seq<u64>)
    requires
        !e.is_failing(),
        in_one_window(e, times),
    ensures
        respawn_run(e, times).count == if times.len() <= MAXSPAWN {
            times.len()
        } else {
            (MAXSPAWN + 1) as nat
        },
        respawn_run(e, times).is_failing() == (times.len() > MAXSPAWN),
        times.len() > MAXSPAWN ==> respawn_run(e, times).tm == times[MAXSPAWN as int],
        forall|k: int|
            0 <= k < times.len() ==> decision_at(e, times, k) == decision_in_window(times, k),
    decreases times.len(),
{
    let n = times.len();
    if n <= MAXSPAWN {
        let first = respawn_entry(e, times[0]);
        let one = times.take(1);
        assert(one.drop_last() =~= Seq::<u64>::empty());
        assert(respawn_run(e, Seq::<u64>::empty()) == e);
        assert(one.last() == times[0]);
        assert(respawn_run(e, one) == first);
        assert(times.take(0) =~= Seq::<u64>::empty());
        assert(decision_at(e, times, 0) == RespawnDecision::Spawn);
        assert(first.count == 1 && !first.is_failing());
        let rest = times.skip(1);
        assert forall|k: int| 0 <= k < rest.len() implies rest[k] - first.tm < TESTTIME by {
            assert(rest[k] == times[k + 1]);
            assert(times[k + 1] <= times[n - 1]);
            assert(times[0] <= times[k + 1]);
        }
        lemma_run_in_window(first, rest);
        lemma_run_split(e, times, 1);
        assert forall|k: int| 0 <= k < n implies decision_at(e, times, k)
            == decision_in_window(times, k) by {
            if k > 0 {
                lemma_run_split(e, times.take(k), 1);
                assert(times.take(k).take(1) =~= one);
                assert(times.take(k).skip(1) =~= rest.take(k - 1));
                assert(decision_at(first, rest, k - 1) == RespawnDecision::Spawn);
                assert(rest[k - 1] == times[k]);
            }
        }
    } else if n == MAXSPAWN + 1 {
        lemma_eleventh_respawn_disables(e, times, 0);
    } else {
        let head = times.drop_last();
        assert(in_one_window(e, head)) by {
            assert(head.last() == times[n - 2]);
            assert(head[0] == times[0]);
            assert(times[n - 2] <= times[n - 1]);
            assert forall|i: int, j: int| 0 <= i <= j < head.len() implies head[i]
                <= head[j] by {
                assert(times[i] <= times[j]);
            }
        }
        lemma_respawns_in_one_window(e, head);
        let before = respawn_run(e, head);
        let last = times.last();
        assert(head[MAXSPAWN as int] == times[MAXSPAWN as int]);
        assert(times[MAXSPAWN as int] <= last);
        assert(times[0] <= times[MAXSPAWN as int]);
        assert(!cooled_down(before, last));
        assert(respawn_entry(before, last) == before);
        assert forall|k: int| 0 <= k < n implies decision_at(e, times, k)
            == decision_in_window(times, k) by {
            if k < n - 1 {
                assert(head.take(k) =~= times.take(k));
                assert(head[k] == times[k]);
                assert(decision_at(e, head, k) == decision_in_window(head, k));
            } else {
                assert(times.take(k) =~= head);
            }
        }
    }
}

/// A run of respawns is the run of its first `k` followed by the run of the
/// rest.
pub proof fn lemma_run_split(e: ChildView, times: Seq<u64>, k: int)
    requires
        0 <= k <= times.len(),
    ensures
        respawn_run(e, times) == respawn_run(respawn_run(e, times.take(k)), times.skip(k)),
    decreases times.len(),
{
    if k == times.len() {
        assert(times.take(k) =~= times);
        assert(times.skip(k) =~= Seq::<u64>::empty());
    } else {
        let head = times.drop_last();
        lemma_run_split(e, head, k);
        assert(head.take(k) =~= times.take(k));
        assert(times.skip(k).drop_last() =~= head.skip(k));
        assert(times.skip(k).last() == times.last());
    }
}

} // verus!
