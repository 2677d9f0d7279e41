//! The process table: the supervised entries, each id at most once.

use vstd::prelude::*;
use crate::action::InitAction;
use crate::child::{Child, ChildView, Definition, DefinitionView, NO_PROCESS};
use crate::flags::{
    is_named_bit, lemma_named_bits_distinct, lemma_with, lemma_without, ChildFlags,
};
use crate::text::str_eq;

verus! {

/// The views of `entries`, in order.
pub open spec fn views(entries: Seq<Child>) -> Seq<ChildView> {
    Seq::new(entries.len(), |i: int| entries[i]@)
}

/// Whether no two entries of `table` share an id.
pub open spec fn ids_unique(table: Seq<ChildView>) -> bool {
    forall|i: int, j: int| 0 <= i < j < table.len() ==> table[i].id != table[j].id
}

/// Whether some entry of `table` has the id `id`.
pub open spec fn has_id(table: Seq<ChildView>, id: Seq<char>) -> bool {
    exists|i: int| 0 <= i < table.len() && #[trigger] table[i].id == id
}

/// Whether some entry of `table` has the pid `pid`.
pub open spec fn has_pid(table: Seq<ChildView>, pid: i32) -> bool {
    exists|i: int| 0 <= i < table.len() && #[trigger] table[i].pid == pid
}

/// Whether no two entries of `table` hold the same process: the pids of
/// processes, which are above zero, are all different.
pub open spec fn live_pids_unique(table: Seq<ChildView>) -> bool {
    forall|i: int, j: int|
        0 <= i < table.len() && 0 <= j < table.len() && i != j && table[i].pid > 0 ==> table[i].pid
            != table[j].pid
}

/// Whether `k` is the first entry of `table` with the pid `pid`.
pub open spec fn first_with_pid(table: Seq<ChildView>, pid: i32, k: int) -> bool {
    &&& 0 <= k < table.len()
    &&& table[k].pid == pid
    &&& forall|j: int| 0 <= j < k ==> #[trigger] table[j].pid != pid
}

/// Position of the entry of `table` with the id `id`: the first one if there
/// are several, the length of `table` if there is none.
pub open spec fn position_of(table: Seq<ChildView>, id: Seq<char>) -> int
    decreases table.len(),
{
    if table.len() == 0 {
        0
    } else if position_of(table.drop_last(), id) < table.len() - 1 {
        position_of(table.drop_last(), id)
    } else if table.last().id == id {
        table.len() - 1
    } else {
        table.len() as int
    }
}

/// `position_of` finds the first entry with the id, and the length where
/// there is none.
pub proof fn lemma_position_of(table: Seq<ChildView>, id: Seq<char>)
    ensures
        0 <= position_of(table, id) <= table.len(),
        position_of(table, id) < table.len() ==> table[position_of(table, id)].id == id,
        forall|j: int| 0 <= j < position_of(table, id) ==> #[trigger] table[j].id != id,
        has_id(table, id) <==> position_of(table, id) < table.len(),
    decreases table.len(),
{
    if table.len() > 0 {
        lemma_position_of(table.drop_last(), id);
        let p = position_of(table, id);
        assert forall|j: int| 0 <= j < p implies #[trigger] table[j].id != id by {
            if j < table.len() - 1 {
                assert(table.drop_last()[j] == table[j]);
            }
        }
        if has_id(table, id) {
            let w = choose|i: int| 0 <= i < table.len() && #[trigger] table[i].id == id;
            assert(table[w].id == id);
        }
        if p < table.len() {
            assert(table[p].id == id);
        }
    }
}

/// The entry `e` with the definition `d` staged as its shadow, and without
/// the kill mark that a reload before this one may have left.
pub open spec fn staged(e: ChildView, d: DefinitionView) -> ChildView {
    ChildView { shadow: Some(d), flags: e.flags.without(ChildFlags::KILLME), ..e }
}

/// Whether two sets of flags agree in every named flag but the kill mark.
pub open spec fn same_but_kill_mark(a: ChildFlags, b: ChildFlags) -> bool {
    forall|bit: u32|
        is_named_bit(bit) && bit != ChildFlags::KILLME ==> #[trigger] a.has(bit) == b.has(bit)
}

/// Setting or clearing the kill mark leaves every other named flag alone.
pub proof fn lemma_kill_mark_only(flags: ChildFlags)
    ensures
        same_but_kill_mark(flags.with(ChildFlags::KILLME), flags),
        same_but_kill_mark(flags.without(ChildFlags::KILLME), flags),
        same_but_kill_mark(flags, flags),
        flags.with(ChildFlags::KILLME).has(ChildFlags::KILLME),
        !flags.without(ChildFlags::KILLME).has(ChildFlags::KILLME),
{
    assert forall|bit: u32| is_named_bit(bit) && bit != ChildFlags::KILLME implies #[trigger]
        flags.with(ChildFlags::KILLME).has(bit) == flags.has(bit) by {
        lemma_with(flags, ChildFlags::KILLME, bit);
        lemma_named_bits_distinct(ChildFlags::KILLME, bit);
    }
    assert forall|bit: u32| is_named_bit(bit) && bit != ChildFlags::KILLME implies #[trigger]
        flags.without(ChildFlags::KILLME).has(bit) == flags.has(bit) by {
        lemma_without(flags, ChildFlags::KILLME, bit);
        lemma_named_bits_distinct(ChildFlags::KILLME, bit);
    }
    lemma_with(flags, ChildFlags::KILLME, ChildFlags::KILLME);
    lemma_without(flags, ChildFlags::KILLME, ChildFlags::KILLME);
    lemma_named_bits_distinct(ChildFlags::KILLME, ChildFlags::KILLME);
}

/// The entry that a reload appends for the definition `d`: `d` itself without
/// process, flags or history.
pub open spec fn fresh_from(d: ChildView) -> ChildView {
    ChildView::fresh(d.id, d.rlevel, d.action, d.process, d.tm)
}

/// The table after one definition of a reload: where an entry has the id of
/// `d`, the definition of `d` becomes its shadow; else a fresh entry for `d`
/// stands at the end.
pub open spec fn stage_one(table: Seq<ChildView>, d: ChildView) -> Seq<ChildView> {
    let p = position_of(table, d.id);
    if p < table.len() {
        table.update(p, staged(table[p], d.definition()))
    } else {
        table.push(fresh_from(d))
    }
}

/// The table after the definitions `defs` of a reload, taken in order.
pub open spec fn stage_all(table: Seq<ChildView>, defs: Seq<ChildView>) -> Seq<ChildView>
    decreases defs.len(),
{
    if defs.len() == 0 {
        table
    } else {
        stage_one(stage_all(table, defs.drop_last()), defs.last())
    }
}

/// The table with the kill mark on every entry whose id no definition of
/// `defs` has.
pub open spec fn mark_absent(table: Seq<ChildView>, defs: Seq<ChildView>) -> Seq<ChildView> {
    Seq::new(
        table.len(),
        |i: int|
            if has_id(defs, table[i].id) {
                table[i]
            } else {
                table[i].with_flags(table[i].flags.with(ChildFlags::KILLME))
            },
    )
}

/// The table after a reload with the definitions `defs`: entries that `defs`
/// no longer names carry the kill mark, entries that it names carry their new
/// definition as shadow, and ids that are new have a fresh entry at the end.
pub open spec fn spec_diff_reload(table: Seq<ChildView>, defs: Seq<ChildView>) -> Seq<ChildView> {
    stage_all(mark_absent(table, defs), defs)
}

/// Whether an entry runs a process that is to finish under the definition it
/// was started with.
pub open spec fn runs_to_completion(e: ChildView) -> bool {
    e.is_running() && (e.action == InitAction::Wait || e.action == InitAction::Once || e.action
        == InitAction::BootWait)
}

/// The entry after its shadow, if it has one, went into force; an entry that
/// runs to completion keeps both.
pub open spec fn promoted(e: ChildView) -> ChildView {
    match e.shadow {
        Some(d) => if runs_to_completion(e) {
            e
        } else {
            ChildView { rlevel: d.rlevel, action: d.action, process: d.process, shadow: None, ..e }
        },
        None => e,
    }
}

/// Whether an entry is to leave the table: the last reload did not name
/// it, and it has no process, neither running nor waiting to be cleaned up.
pub open spec fn retired(e: ChildView) -> bool {
    e.flags.has(ChildFlags::KILLME) && e.pid == NO_PROCESS && !e.is_running() && !e.is_zombie()
}

/// The table without its retired entries.
pub open spec fn without_retired(table: Seq<ChildView>) -> Seq<ChildView>
    decreases table.len(),
{
    if table.len() == 0 {
        table
    } else if retired(table.last()) {
        without_retired(table.drop_last())
    } else {
        without_retired(table.drop_last()).push(table.last())
    }
}

/// Taking the retired entries out leaves the others, in their order: what
/// is left are exactly the entries that are not retired, and their ids are
/// unique if they were.
pub proof fn lemma_without_retired(table: Seq<ChildView>)
    ensures
        without_retired(table).len() <= table.len(),
        forall|e: ChildView|
            without_retired(table).contains(e) <==> table.contains(e) && !retired(e),
        ids_unique(table) ==> ids_unique(without_retired(table)),
        forall|i: int|
            0 <= i < without_retired(table).len() ==> exists|j: int|
                i <= j < table.len() && table[j] == #[trigger] without_retired(table)[i],
    decreases table.len(),
{
    let out = without_retired(table);
    if table.len() > 0 {
        let head = table.drop_last();
        let before = without_retired(head);
        lemma_without_retired(head);
        let last = table.last();
        assert forall|e: ChildView| out.contains(e) <==> table.contains(e) && !retired(e) by {
            if out.contains(e) {
                let k = choose|k: int| 0 <= k < out.len() && out[k] == e;
                if k < before.len() {
                    assert(before[k] == e);
                    assert(before.contains(e));
                    let j = choose|j: int| 0 <= j < head.len() && head[j] == e;
                    assert(table[j] == e);
                } else {
                    assert(table[table.len() - 1] == e);
                }
            }
            if table.contains(e) && !retired(e) {
                let j = choose|j: int| 0 <= j < table.len() && table[j] == e;
                if j < head.len() {
                    assert(head[j] == e);
                    assert(head.contains(e));
                    let k = choose|k: int| 0 <= k < before.len() && before[k] == e;
                    assert(out[k] == e);
                } else {
                    assert(out[before.len() as int] == e);
                }
            }
        }
        assert forall|i: int| 0 <= i < out.len() implies exists|j: int|
            i <= j < table.len() && table[j] == #[trigger] out[i] by {
            if i < before.len() {
                let j = choose|j: int| i <= j < head.len() && head[j] == before[i];
                assert(table[j] == out[i]);
            } else {
                assert(table[table.len() - 1] == out[i]);
            }
        }
        if ids_unique(table) {
            assert(ids_unique(head)) by {
                assert forall|i: int, j: int| 0 <= i < j < head.len() implies head[i].id
                    != head[j].id by {
                    assert(table[i].id != table[j].id);
                }
            }
            assert forall|i: int, j: int| 0 <= i < j < out.len() implies out[i].id
                != out[j].id by {
                if j == before.len() {
                    assert(before.contains(before[i]));
                    assert(head.contains(before[i]));
                    let w = choose|w: int| 0 <= w < head.len() && head[w] == before[i];
                    assert(table[w].id != table[table.len() - 1].id);
                }
            }
        }
    }
}

/// The table after every shadow that may do so went into force.
pub open spec fn spec_promote(table: Seq<ChildView>) -> Seq<ChildView> {
    Seq::new(table.len(), |i: int| promoted(table[i]))
}

/// Staging one definition keeps the entries that were there, with their ids,
/// their pids and every flag but the kill mark, keeps ids unique, and leaves
/// an entry with the id of the definition that does not carry the kill mark.
pub proof fn lemma_stage_one(table: Seq<ChildView>, d: ChildView)
    requires
        ids_unique(table),
    ensures
        ids_unique(stage_one(table, d)),
        has_id(stage_one(table, d), d.id),
        table.len() <= stage_one(table, d).len() <= table.len() + 1,
        forall|i: int|
            0 <= i < table.len() ==> {
                &&& (#[trigger] stage_one(table, d)[i]).id == table[i].id
                &&& stage_one(table, d)[i].pid == table[i].pid
                &&& same_but_kill_mark(stage_one(table, d)[i].flags, table[i].flags)
            },
        forall|i: int|
            table.len() <= i < stage_one(table, d).len() ==> (#[trigger] stage_one(table, d)[i])
                == fresh_from(d),
{
    lemma_position_of(table, d.id);
    let p = position_of(table, d.id);
    let after = stage_one(table, d);
    if p < table.len() {
        assert(after[p].id == d.id);
        lemma_kill_mark_only(table[p].flags);
    } else {
        assert(after[table.len() as int].id == d.id);
        assert forall|i: int, j: int| 0 <= i < j < after.len() implies after[i].id
            != after[j].id by {
            if j == table.len() {
                assert(table[i].id != d.id);
            }
        }
    }
    assert forall|i: int| 0 <= i < table.len() implies same_but_kill_mark(
        (#[trigger] after[i]).flags,
        table[i].flags,
    ) by {
        lemma_kill_mark_only(table[i].flags);
    }
}

/// A reload keeps the entries that were there, with their ids, their pids
/// and every flag but the kill mark, and keeps ids unique; what it appends
/// has no process.
pub proof fn lemma_stage_all(table: Seq<ChildView>, defs: Seq<ChildView>)
    requires
        ids_unique(table),
    ensures
        ids_unique(stage_all(table, defs)),
        table.len() <= stage_all(table, defs).len(),
        forall|i: int|
            0 <= i < table.len() ==> {
                &&& (#[trigger] stage_all(table, defs)[i]).id == table[i].id
                &&& stage_all(table, defs)[i].pid == table[i].pid
                &&& same_but_kill_mark(stage_all(table, defs)[i].flags, table[i].flags)
            },
        forall|i: int|
            table.len() <= i < stage_all(table, defs).len() ==> (#[trigger] stage_all(
                table,
                defs,
            )[i]).pid == NO_PROCESS,
    decreases defs.len(),
{
    if defs.len() > 0 {
        let before = stage_all(table, defs.drop_last());
        lemma_stage_all(table, defs.drop_last());
        lemma_stage_one(before, defs.last());
        let after = stage_all(table, defs);
        assert forall|i: int| table.len() <= i < after.len() implies (#[trigger] after[i]).pid
            == NO_PROCESS by {
            if i < before.len() {
                assert(after[i].pid == before[i].pid);
            } else {
                assert(after[i] == fresh_from(defs.last()));
            }
        }
        assert forall|i: int| 0 <= i < table.len() implies same_but_kill_mark(
            (#[trigger] after[i]).flags,
            table[i].flags,
        ) by {
            assert(same_but_kill_mark(after[i].flags, before[i].flags));
            assert(same_but_kill_mark(before[i].flags, table[i].flags));
            assert forall|bit: u32|
                is_named_bit(bit) && bit != ChildFlags::KILLME implies #[trigger] after[i].flags.has(
                bit,
            ) == table[i].flags.has(bit) by {
                assert(after[i].flags.has(bit) == before[i].flags.has(bit));
                assert(before[i].flags.has(bit) == table[i].flags.has(bit));
            }
        }
    } else {
        assert forall|i: int| 0 <= i < table.len() implies same_but_kill_mark(
            (#[trigger] stage_all(table, defs)[i]).flags,
            table[i].flags,
        ) by {}
    }
}

/// Every id that a reload names is in the table afterwards.
pub proof fn lemma_stage_all_names(table: Seq<ChildView>, defs: Seq<ChildView>, k: int)
    requires
        ids_unique(table),
        0 <= k < defs.len(),
    ensures
        has_id(stage_all(table, defs), defs[k].id),
    decreases defs.len(),
{
    let before = stage_all(table, defs.drop_last());
    lemma_stage_all(table, defs.drop_last());
    lemma_stage_one(before, defs.last());
    if k < defs.len() - 1 {
        lemma_stage_all_names(table, defs.drop_last(), k);
        assert(defs.drop_last()[k] == defs[k]);
        let w = choose|i: int| 0 <= i < before.len() && #[trigger] before[i].id == defs[k].id;
        assert(stage_all(table, defs)[w].id == defs[k].id);
    }
}

/// Marking the entries that a reload no longer names changes the kill mark
/// only.
pub proof fn lemma_mark_absent(table: Seq<ChildView>, defs: Seq<ChildView>)
    ensures
        mark_absent(table, defs).len() == table.len(),
        ids_unique(table) ==> ids_unique(mark_absent(table, defs)),
        forall|i: int|
            0 <= i < table.len() ==> {
                &&& (#[trigger] mark_absent(table, defs)[i]).id == table[i].id
                &&& mark_absent(table, defs)[i].pid == table[i].pid
                &&& same_but_kill_mark(mark_absent(table, defs)[i].flags, table[i].flags)
            },
{
    assert forall|i: int| 0 <= i < table.len() implies same_but_kill_mark(
        (#[trigger] mark_absent(table, defs)[i]).flags,
        table[i].flags,
    ) by {
        lemma_kill_mark_only(table[i].flags);
    }
}

/// After the definitions of a reload were staged, an entry that was there
/// before carries the kill mark exactly if it carried it before and no
/// definition has its id.
pub proof fn lemma_stage_all_kill_mark(table: Seq<ChildView>, defs: Seq<ChildView>, i: int)
    requires
        ids_unique(table),
        0 <= i < table.len(),
    ensures
        i < stage_all(table, defs).len(),
        stage_all(table, defs)[i].flags.has(ChildFlags::KILLME) == (table[i].flags.has(
            ChildFlags::KILLME,
        ) && !has_id(defs, table[i].id)),
    decreases defs.len(),
{
    lemma_stage_all(table, defs);
    if defs.len() > 0 {
        let head = defs.drop_last();
        let d = defs.last();
        let before = stage_all(table, head);
        lemma_stage_all(table, head);
        lemma_stage_all_kill_mark(table, head, i);
        lemma_position_of(before, d.id);
        lemma_kill_mark_only(before[i].flags);
        let p = position_of(before, d.id);
        assert(before[i].id == table[i].id);
        if before[i].id == d.id {
            assert(p == i) by {
                if p < i {
                    assert(before[p].id != before[i].id);
                }
            }
            assert(defs[defs.len() - 1].id == table[i].id);
        } else {
            assert(p != i);
            assert(stage_all(table, defs)[i] == before[i]);
            if has_id(defs, table[i].id) {
                let k = choose|k: int| 0 <= k < defs.len() && #[trigger] defs[k].id == table[i].id;
                assert(head[k].id == table[i].id);
            }
        }
        if has_id(head, table[i].id) {
            let k = choose|k: int| 0 <= k < head.len() && #[trigger] head[k].id == table[i].id;
            assert(defs[k].id == table[i].id);
        }
    } else {
        assert(!has_id(defs, table[i].id));
    }
}

/// After a reload the kill mark says which entries the reload did not name:
/// an entry that was in the table before carries it exactly if no
/// definition has its id.
pub proof fn lemma_reload_marks_the_absent(table: Seq<ChildView>, defs: Seq<ChildView>, i: int)
    requires
        ids_unique(table),
        0 <= i < table.len(),
    ensures
        i < spec_diff_reload(table, defs).len(),
        spec_diff_reload(table, defs)[i].flags.has(ChildFlags::KILLME) == !has_id(
            defs,
            table[i].id,
        ),
{
    let marked = mark_absent(table, defs);
    lemma_mark_absent(table, defs);
    lemma_kill_mark_only(table[i].flags);
    lemma_stage_all_kill_mark(marked, defs, i);
}

/// No reload gives an id a second entry, and so no second process: after a
/// reload the ids are unique as before, every entry that was there is still
/// in its place with the pid it had, and every entry that came new has no
/// process.
pub proof fn lemma_reload_keeps_one_process_per_id(table: Seq<ChildView>, defs: Seq<ChildView>)
    requires
        ids_unique(table),
    ensures
        ids_unique(spec_diff_reload(table, defs)),
        table.len() <= spec_diff_reload(table, defs).len(),
        forall|i: int|
            0 <= i < table.len() ==> {
                &&& (#[trigger] spec_diff_reload(table, defs)[i]).id == table[i].id
                &&& spec_diff_reload(table, defs)[i].pid == table[i].pid
            },
        forall|i: int|
            table.len() <= i < spec_diff_reload(table, defs).len() ==> (
            #[trigger] spec_diff_reload(table, defs)[i]).pid == NO_PROCESS,
{
    lemma_mark_absent(table, defs);
    lemma_stage_all(mark_absent(table, defs), defs);
}

/// The table after the reloads `reloads`, one after the other.
pub open spec fn spec_reload_all(table: Seq<ChildView>, reloads: Seq<Seq<ChildView>>) -> Seq<
    ChildView,
>
    decreases reloads.len(),
{
    if reloads.len() == 0 {
        table
    } else {
        spec_diff_reload(spec_reload_all(table, reloads.drop_last()), reloads.last())
    }
}

/// Whatever reloads follow one another, no id ever has two entries, and so no
/// id has two live pids at once: two entries with a process and the same id
/// are the same entry. The entries that were there keep their place and their
/// pid.
pub proof fn lemma_reloads_never_double_an_id(table: Seq<ChildView>, reloads: Seq<Seq<ChildView>>)
    requires
        ids_unique(table),
    ensures
        ids_unique(spec_reload_all(table, reloads)),
        forall|i: int, j: int|
            #![trigger spec_reload_all(table, reloads)[i], spec_reload_all(table, reloads)[j]]
            0 <= i < spec_reload_all(table, reloads).len() && 0 <= j < spec_reload_all(
                table,
                reloads,
            ).len() && spec_reload_all(table, reloads)[i].id == spec_reload_all(
                table,
                reloads,
            )[j].id ==> i == j,
        table.len() <= spec_reload_all(table, reloads).len(),
        forall|i: int|
            0 <= i < table.len() ==> {
                &&& (#[trigger] spec_reload_all(table, reloads)[i]).id == table[i].id
                &&& spec_reload_all(table, reloads)[i].pid == table[i].pid
            },
    decreases reloads.len(),
{
    if reloads.len() > 0 {
        lemma_reloads_never_double_an_id(table, reloads.drop_last());
        lemma_reload_keeps_one_process_per_id(
            spec_reload_all(table, reloads.drop_last()),
            reloads.last(),
        );
    }
    let after = spec_reload_all(table, reloads);
    assert forall|i: int, j: int|
        #![trigger after[i], after[j]]
        0 <= i < after.len() && 0 <= j < after.len() && after[i].id == after[j].id implies i
        == j by {
        if i < j {
            assert(after[i].id != after[j].id);
        }
        if j < i {
            assert(after[j].id != after[i].id);
        }
    }
}

/// Promotion changes neither the ids nor the pids nor the flags.
pub proof fn lemma_promote(table: Seq<ChildView>)
    ensures
        spec_promote(table).len() == table.len(),
        ids_unique(table) ==> ids_unique(spec_promote(table)),
        forall|i: int|
            0 <= i < table.len() ==> {
                &&& (#[trigger] spec_promote(table)[i]).id == table[i].id
                &&& spec_promote(table)[i].pid == table[i].pid
                &&& spec_promote(table)[i].flags == table[i].flags
                &&& spec_promote(table)[i].shadow is Some ==> runs_to_completion(table[i])
            },
{
}

/// Position of the entry with the id `id`, or the number of entries.
fn find_index(entries: &Vec<Child>, id: &str) -> (res: usize)
    ensures
        res == position_of(views(entries@), id@),
        res <= entries@.len(),
{
    let mut i: usize = 0;
    while i < entries.len()
        invariant
            i <= entries@.len(),
            position_of(views(entries@).take(i as int), id@) == i,
        decreases entries@.len() - i,
    {
        proof {
            let t = views(entries@);
            assert(t.take(i + 1).drop_last() =~= t.take(i as int));
            assert(t.take(i + 1).last() == entries@[i as int]@);
        }
        if str_eq(entries[i].id.as_str(), id) {
            proof {
                lemma_position_found(views(entries@), id@, i as int);
            }
            return i;
        }
        i += 1;
    }
    assert(views(entries@).take(i as int) =~= views(entries@));
    i
}

/// Once a prefix of a table holds the id, the position in the prefix is the
/// position in the table.
pub proof fn lemma_position_found(table: Seq<ChildView>, id: Seq<char>, k: int)
    requires
        0 <= k < table.len(),
        position_of(table.take(k + 1), id) == k,
    ensures
        position_of(table, id) == k,
    decreases table.len(),
{
    if table.len() == k + 1 {
        assert(table.take(k + 1) =~= table);
    } else {
        assert(table.drop_last().take(k + 1) =~= table.take(k + 1));
        lemma_position_found(table.drop_last(), id, k);
    }
}

/// What changes of an entry while its definition stays: flags, exit status,
/// pid and respawn history.
#[derive(Clone, Copy, Debug, PartialEq, Eq, Structural)]
pub struct Status {
    pub flags: ChildFlags,
    pub exstat: i32,
    pub pid: i32,
    pub tm: u64,
    pub count: u32,
}

/// The status of `e`.
pub open spec fn status_of(e: ChildView) -> Status {
    Status { flags: e.flags, exstat: e.exstat, pid: e.pid, tm: e.tm, count: e.count }
}

/// The entry `e` with the status `status`.
pub open spec fn with_status(e: ChildView, status: Status) -> ChildView {
    ChildView {
        flags: status.flags,
        exstat: status.exstat,
        pid: status.pid,
        tm: status.tm,
        count: status.count,
        ..e
    }
}

/// The supervised entries, in table order; no two share an id.
#[derive(Debug)]
pub struct ProcessTable {
    entries: Vec<Child>,
}

impl View for ProcessTable {
    type V = Seq<ChildView>;

    closed spec fn view(&self) -> Seq<ChildView> {
        views(self.entries@)
    }
}

impl ProcessTable {
    #[verifier::type_invariant]
    spec fn inv(self) -> bool {
        ids_unique(views(self.entries@))
    }

    /// A table without entries.
    pub fn new() -> (res: Self)
        ensures
            res@ == Seq::<ChildView>::empty(),
    {
        let entries: Vec<Child> = Vec::new();
        assert(views(entries@) =~= Seq::<ChildView>::empty());
        ProcessTable { entries }
    }

    /// Number of entries; the ids of the entries are unique.
    pub fn len(&self) -> (res: usize)
        ensures
            res == self@.len(),
            ids_unique(self@),
    {
        proof {
            use_type_invariant(self);
        }
        self.entries.len()
    }

    /// The entry at `index`, in table order.
    pub fn get(&self, index: usize) -> (res: Option<&Child>)
        ensures
            index < self@.len() ==> res is Some && res.unwrap()@ == self@[index as int],
            index >= self@.len() ==> res is None,
    {
        if index < self.entries.len() {
            Some(&self.entries[index])
        } else {
            None
        }
    }

    /// Puts `child` in front of the table, or hands it back when an entry of
    /// the table has its id already.
    pub fn add(&mut self, child: Child) -> (res: Result<(), Child>)
        ensures
            match res {
                Ok(_) => !has_id(old(self)@, child@.id) && final(self)@ == old(self)@.insert(
                    0,
                    child@,
                ),
                Err(back) => has_id(old(self)@, child@.id) && back == child && final(self)@ == old(
                    self,
                )@,
            },
            ids_unique(final(self)@),
    {
        proof {
            use_type_invariant(&*self);
            lemma_position_of(self@, child@.id);
        }
        let at = find_index(&self.entries, child.id.as_str());
        if at < self.entries.len() {
            return Err(child);
        }
        let mut entries: Vec<Child> = Vec::new();
        core::mem::swap(&mut self.entries, &mut entries);
        let ghost before = views(entries@);
        entries.insert(0, child);
        proof {
            let after = views(entries@);
            assert(after =~= before.insert(0, child@));
            assert forall|i: int, j: int| 0 <= i < j < after.len() implies after[i].id
                != after[j].id by {
                if i == 0 {
                    assert(before[j - 1].id != child@.id);
                } else {
                    assert(before[i - 1].id != before[j - 1].id);
                }
            }
        }
        self.entries = entries;
        Ok(())
    }

    /// Puts `child` at the end of the table, or hands it back when an entry
    /// of the table has its id already.
    pub fn append(&mut self, child: Child) -> (res: Result<(), Child>)
        ensures
            match res {
                Ok(_) => !has_id(old(self)@, child@.id) && final(self)@ == old(self)@.push(child@),
                Err(back) => has_id(old(self)@, child@.id) && back == child && final(self)@
                    == old(self)@,
            },
            ids_unique(final(self)@),
    {
        proof {
            use_type_invariant(&*self);
            lemma_position_of(self@, child@.id);
        }
        let at = find_index(&self.entries, child.id.as_str());
        if at < self.entries.len() {
            return Err(child);
        }
        let mut entries: Vec<Child> = Vec::new();
        core::mem::swap(&mut self.entries, &mut entries);
        let ghost before = views(entries@);
        entries.push(child);
        proof {
            let after = views(entries@);
            assert(after =~= before.push(child@));
            assert forall|i: int, j: int| 0 <= i < j < after.len() implies after[i].id
                != after[j].id by {
                if j == before.len() {
                    assert(before[i].id != child@.id);
                } else {
                    assert(before[i].id != before[j].id);
                }
            }
        }
        self.entries = entries;
        Ok(())
    }

    /// Gives the entry at `index` the status `status`; its id and its
    /// definition stay. An index outside the table changes nothing.
    pub fn set_status(&mut self, index: usize, status: Status)
        ensures
            index < old(self)@.len() ==> final(self)@ == old(self)@.update(
                index as int,
                with_status(old(self)@[index as int], status),
            ),
            index >= old(self)@.len() ==> final(self)@ == old(self)@,
            ids_unique(final(self)@),
    {
        proof {
            use_type_invariant(&*self);
        }
        if index >= self.entries.len() {
            return ;
        }
        let mut entries: Vec<Child> = Vec::new();
        core::mem::swap(&mut self.entries, &mut entries);
        let ghost before = views(entries@);
        entries[index].flags = status.flags;
        entries[index].exstat = status.exstat;
        entries[index].pid = status.pid;
        entries[index].tm = status.tm;
        entries[index].count = status.count;
        proof {
            let after = views(entries@);
            assert(after =~= before.update(index as int, with_status(before[index as int], status)));
            assert forall|i: int, j: int| 0 <= i < j < after.len() implies after[i].id
                != after[j].id by {
                assert(before[i].id != before[j].id);
            }
        }
        self.entries = entries;
    }

    /// The entry with the id `id`.
    pub fn lookup_by_id(&self, id: &str) -> (res: Option<&Child>)
        ensures
            match res {
                Some(child) => child@.id == id@ && self@.contains(child@),
                None => !has_id(self@, id@),
            },
    {
        proof {
            lemma_position_of(self@, id@);
        }
        let at = find_index(&self.entries, id);
        if at < self.entries.len() {
            assert(self@[at as int] == self.entries@[at as int]@);
            Some(&self.entries[at])
        } else {
            None
        }
    }

    /// The first entry with the pid `pid`.
    pub fn lookup_by_pid(&self, pid: i32) -> (res: Option<&Child>)
        ensures
            match res {
                Some(child) => exists|k: int|
                    #![trigger first_with_pid(self@, pid, k)]
                    first_with_pid(self@, pid, k) && child@ == self@[k],
                None => !has_pid(self@, pid),
            },
    {
        let mut i: usize = 0;
        while i < self.entries.len()
            invariant
                i <= self.entries@.len(),
                forall|j: int| 0 <= j < i ==> #[trigger] self@[j].pid != pid,
            decreases self.entries@.len() - i,
        {
            if self.entries[i].pid == pid {
                assert(first_with_pid(self@, pid, i as int));
                return Some(&self.entries[i]);
            }
            i += 1;
        }
        None
    }

    /// Takes the first entry with the pid `pid` out of the table and hands it
    /// over; a pid that no entry has leaves the table as it is.
    pub fn remove_by_pid(&mut self, pid: i32) -> (res: Option<Child>)
        ensures
            match res {
                Some(child) => exists|k: int|
                    #![trigger first_with_pid(old(self)@, pid, k)]
                    first_with_pid(old(self)@, pid, k) && child@ == old(self)@[k] && final(self)@
                        == old(self)@.remove(k),
                None => !has_pid(old(self)@, pid) && final(self)@ == old(self)@,
            },
            ids_unique(final(self)@),
    {
        proof {
            use_type_invariant(&*self);
        }
        let ghost start = self@;
        let mut i: usize = 0;
        while i < self.entries.len()
            invariant
                i <= self.entries@.len(),
                self.entries == old(self).entries,
                start == views(self.entries@),
                ids_unique(start),
                forall|j: int| 0 <= j < i ==> #[trigger] start[j].pid != pid,
            decreases self.entries@.len() - i,
        {
            if self.entries[i].pid == pid {
                assert(start[i as int] == self.entries@[i as int]@);
                assert(first_with_pid(start, pid, i as int));
                let mut entries: Vec<Child> = Vec::new();
                core::mem::swap(&mut self.entries, &mut entries);
                let child = entries.remove(i);
                proof {
                    let after = views(entries@);
                    assert(after =~= start.remove(i as int));
                    assert forall|a: int, b: int| 0 <= a < b < after.len() implies after[a].id
                        != after[b].id by {
                        let a0 = if a < i { a } else { a + 1 };
                        let b0 = if b < i { b } else { b + 1 };
                        assert(after[a] == start[a0]);
                        assert(after[b] == start[b0]);
                        assert(start[a0].id != start[b0].id);
                    }
                }
                self.entries = entries;
                assert(child@ == start[i as int]);
                assert(self@ == start.remove(i as int));
                assert(first_with_pid(old(self)@, pid, i as int) && child@ == old(self)@[i as int]
                    && self@ == old(self)@.remove(i as int));
                return Some(child);
            }
            i += 1;
        }
        assert forall|k: int| 0 <= k < start.len() implies #[trigger] start[k].pid != pid by {}
        None
    }

    /// Brings the table in line with the definitions of a reload.
    ///
    /// An entry whose id `new_definitions` names gets the definition as its
    /// shadow, the last one if the id is named more than once, and loses the
    /// kill mark if it had one. An entry whose id it does not name gets the
    /// kill mark. An id that the table does not hold gets a fresh entry at
    /// the end, without flags or process.
    pub fn diff_reload(&mut self, new_definitions: &Vec<Child>)
        ensures
            final(self)@ == spec_diff_reload(old(self)@, views(new_definitions@)),
            ids_unique(final(self)@),
    {
        proof {
            use_type_invariant(&*self);
        }
        let ghost start = self@;
        let ghost defs = views(new_definitions@);
        let mut entries: Vec<Child> = Vec::new();
        core::mem::swap(&mut self.entries, &mut entries);
        let mut i: usize = 0;
        while i < entries.len()
            invariant
                i <= entries@.len(),
                entries@.len() == start.len(),
                defs == views(new_definitions@),
                forall|k: int|
                    0 <= k < entries@.len() ==> #[trigger] entries@[k]@ == if k < i {
                        mark_absent(start, defs)[k]
                    } else {
                        start[k]
                    },
            decreases entries@.len() - i,
        {
            let named = find_index(new_definitions, entries[i].id.as_str())
                < new_definitions.len();
            proof {
                lemma_position_of(defs, entries@[i as int]@.id);
            }
            if !named {
                entries[i].flags.insert(ChildFlags::KILLME);
            }
            i += 1;
        }
        let ghost marked = mark_absent(start, defs);
        assert(views(entries@) =~= marked);
        proof {
            lemma_mark_absent(start, defs);
        }
        let mut j: usize = 0;
        while j < new_definitions.len()
            invariant
                j <= new_definitions@.len(),
                defs == views(new_definitions@),
                ids_unique(marked),
                views(entries@) == stage_all(marked, defs.take(j as int)),
            decreases new_definitions@.len() - j,
        {
            let def = &new_definitions[j];
            let ghost before = views(entries@);
            proof {
                assert(defs.take(j + 1).drop_last() =~= defs.take(j as int));
                assert(defs.take(j + 1).last() == def@);
                lemma_stage_all(marked, defs.take(j as int));
                lemma_position_of(before, def@.id);
            }
            let at = find_index(&entries, def.id.as_str());
            if at < entries.len() {
                entries[at].flags.remove(ChildFlags::KILLME);
                entries[at].shadow = Some(
                    Definition {
                        rlevel: def.rlevel.clone(),
                        action: def.action,
                        process: def.process.clone(),
                    },
                );
                assert(views(entries@) =~= stage_one(before, def@));
            } else {
                entries.push(
                    Child {
                        flags: ChildFlags::empty(),
                        exstat: 0,
                        pid: NO_PROCESS,
                        tm: def.tm,
                        count: 0,
                        id: def.id.clone(),
                        rlevel: def.rlevel.clone(),
                        action: def.action,
                        process: def.process.clone(),
                        shadow: None,
                    },
                );
                assert(views(entries@) =~= stage_one(before, def@));
            }
            j += 1;
        }
        proof {
            assert(defs.take(j as int) =~= defs);
            lemma_stage_all(marked, defs);
        }
        self.entries = entries;
    }

    /// Takes the retired entries out of the table: those that the last
    /// reload did not name and that have no process. Says how many left.
    pub fn remove_retired(&mut self) -> (res: usize)
        ensures
            final(self)@ == without_retired(old(self)@),
            res == old(self)@.len() - final(self)@.len(),
            ids_unique(final(self)@),
    {
        proof {
            use_type_invariant(&*self);
        }
        let ghost start = self@;
        let mut entries: Vec<Child> = Vec::new();
        core::mem::swap(&mut self.entries, &mut entries);
        let mut removed: usize = 0;
        let mut i: usize = 0;
        let total = entries.len();
        proof {
            assert(start.len() == total);
            assert(start.take(0) =~= Seq::<ChildView>::empty());
            assert(start.skip(0) =~= start);
            assert(views(entries@) =~= without_retired(start.take(0)) + start.skip(0));
        }
        while i < entries.len()
            invariant
                i <= entries@.len(),
                i + removed <= start.len(),
                start.len() <= usize::MAX,
                entries@.len() + removed == start.len(),
                i == without_retired(start.take(i + removed)).len(),
                views(entries@) == without_retired(start.take(i + removed)) + start.skip(
                    i + removed,
                ),
            decreases entries@.len() - i,
        {
            let ghost j = (i + removed) as int;
            let ghost done = without_retired(start.take(j));
            proof {
                assert(views(entries@)[i as int] == start.skip(j)[0]);
                assert(start.take(j + 1).drop_last() =~= start.take(j));
                assert(start.take(j + 1).last() == start[j]);
            }
            let gone = entries[i].flags.contains(ChildFlags::KILLME) && entries[i].pid
                == NO_PROCESS && !entries[i].is_running() && !entries[i].flags.contains(
                ChildFlags::ZOMBIE,
            );
            assert(gone == retired(start[j]));
            if gone {
                let ghost before = views(entries@);
                let _ = entries.remove(i);
                removed = removed + 1;
                proof {
                    assert(views(entries@) =~= before.remove(i as int));
                    assert(before.remove(i as int) =~= done + start.skip(j + 1));
                }
            } else {
                proof {
                    assert(views(entries@) =~= done.push(start[j]) + start.skip(j + 1));
                }
                i += 1;
            }
        }
        proof {
            assert(start.take(start.len() as int) =~= start);
            assert(start.skip(start.len() as int) =~= Seq::<ChildView>::empty());
            assert(views(entries@) =~= without_retired(start));
            lemma_without_retired(start);
        }
        self.entries = entries;
        removed
    }

    /// Puts every staged definition into force, but for the entries whose
    /// process runs to completion under the definition it was started with:
    /// a running `wait`, `once` or `bootwait` entry keeps its shadow.
    pub fn promote_shadows(&mut self)
        ensures
            final(self)@ == spec_promote(old(self)@),
            ids_unique(final(self)@),
    {
        proof {
            use_type_invariant(&*self);
        }
        let ghost start = self@;
        let mut entries: Vec<Child> = Vec::new();
        core::mem::swap(&mut self.entries, &mut entries);
        let mut i: usize = 0;
        while i < entries.len()
            invariant
                i <= entries@.len(),
                entries@.len() == start.len(),
                forall|k: int|
                    0 <= k < entries@.len() ==> #[trigger] entries@[k]@ == if k < i {
                        promoted(start[k])
                    } else {
                        start[k]
                    },
            decreases entries@.len() - i,
        {
            let held = entries[i].is_running() && (entries[i].action == InitAction::Wait
                || entries[i].action == InitAction::Once || entries[i].action
                == InitAction::BootWait);
            if !held {
                let mut staged: Option<Definition> = None;
                core::mem::swap(&mut entries[i].shadow, &mut staged);
                match staged {
                    Some(def) => {
                        entries[i].rlevel = def.rlevel;
                        entries[i].action = def.action;
                        entries[i].process = def.process;
                    },
                    None => {},
                }
            }
            i += 1;
        }
        assert(views(entries@) =~= spec_promote(start));
        proof {
            lemma_promote(start);
        }
        self.entries = entries;
    }
}

} // verus!
