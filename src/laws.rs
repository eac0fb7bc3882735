//! Facts about sequences of operations on a to-do list, stated over the
//! models that the operations' contracts use.
use crate::date::Date;
use crate::task::{Task, TaskState};
use crate::todo_list::{
    added, archived, carried, carried_over, cleared, day_index, day_valid, deleted, done_on, has_day,
    kept, lemma_append_undone_valid, lemma_carried_valid, lemma_day_changes_valid, lemma_day_index, lemma_update_day_valid, list_on, marked,
    moved_in_day, removed_in_day, store_valid, undone_on, DayView,
};
use vstd::prelude::*;

verus! {

/// Adding a task to date `d` puts it at the end of that date's unfinished
/// list, at the index that was the list's length; the finished list of `d`
/// and every other date stay as they were.
pub proof fn lemma_add_then_get(v: Seq<DayView>, description: String, d: Date)
    requires
        store_valid(v),
    ensures
        store_valid(added(v, description, d)),
        undone_on(added(v, description, d), d) == undone_on(v, d).push(
            Task { description: description, state: TaskState::NotDone, date: d },
        ),
        undone_on(added(v, description, d), d)[undone_on(v, d).len() as int].description == description,
        done_on(added(v, description, d), d) == done_on(v, d),
        forall|o: Date| o != d ==> undone_on(added(v, description, d), o) == undone_on(v, o) && done_on(
            added(v, description, d),
            o,
        ) == done_on(v, o),
{
    let t = Task { description: description, state: TaskState::NotDone, date: d };
    let ts = seq![t];
    let w = added(v, description, d);
    lemma_append_undone_valid(v, d, ts);
    if has_day(v, d) {
        let i = day_index(v, d);
        lemma_day_index(w, d, i);
        assert(v[i].1 + ts =~= v[i].1.push(t));
        assert forall|o: Date| o != d implies undone_on(w, o) == undone_on(v, o) && done_on(w, o) == done_on(v, o) by {
            if has_day(v, o) {
                let j = day_index(v, o);
                lemma_day_index(w, o, j);
            }
            if has_day(w, o) {
                let j = day_index(w, o);
                lemma_day_index(v, o, j);
            }
        }
    } else {
        lemma_day_index(w, d, v.len() as int);
        assert(Seq::<Task>::empty().push(t) =~= ts);
        assert forall|o: Date| o != d implies undone_on(w, o) == undone_on(v, o) && done_on(w, o) == done_on(v, o) by {
            if has_day(v, o) {
                let j = day_index(v, o);
                lemma_day_index(w, o, j);
            }
            if has_day(w, o) {
                let j = day_index(w, o);
                lemma_day_index(v, o, j);
            }
        }
    }
}

/// Marking the task at index `i` of date `d` done, then marking undone the
/// task at the last index of the finished list, succeeds both times and
/// brings the task back to the end of the unfinished list, description and
/// all; the finished list is again what it was.
pub proof fn lemma_done_then_undone(v: Seq<DayView>, d: Date, i: int)
    requires
        store_valid(v),
        has_day(v, d),
        0 <= i < undone_on(v, d).len(),
    ensures
        ({
            let v1 = marked(v, d, i, TaskState::Done);
            let j = done_on(v1, d).len() - 1;
            let v2 = marked(v1, d, j, TaskState::NotDone);
            &&& store_valid(v1)
            &&& has_day(v1, d)
            &&& 0 <= j < list_on(v1, d, true).len()
            &&& done_on(v1, d)[j].description == undone_on(v, d)[i].description
            &&& store_valid(v2)
            &&& undone_on(v2, d) == undone_on(v, d).remove(i).push(undone_on(v, d)[i])
            &&& done_on(v2, d) == done_on(v, d)
        }),
{
    let x = day_index(v, d);
    lemma_day_index(v, d, x);
    assert(day_valid(v[x]));
    lemma_day_changes_valid(v[x], i, false, TaskState::Done, undone_on(v, d)[i].description);
    let v1 = marked(v, d, i, TaskState::Done);
    lemma_update_day_valid(v, x, moved_in_day(v[x], i, TaskState::Done));
    lemma_day_index(v1, d, x);
    let j = done_on(v1, d).len() - 1;
    assert(day_valid(v1[x]));
    lemma_day_changes_valid(v1[x], j, true, TaskState::NotDone, undone_on(v, d)[i].description);
    lemma_update_day_valid(v1, x, moved_in_day(v1[x], j, TaskState::NotDone));
    let v2 = marked(v1, d, j, TaskState::NotDone);
    lemma_day_index(v2, d, x);
    let t = undone_on(v, d)[i];
    assert(t.state == TaskState::NotDone);
    assert(v1[x].2.remove(j) =~= v[x].2);
    assert(undone_on(v2, d) =~= undone_on(v, d).remove(i).push(t));
}

/// Deleting at the same index twice never removes one task twice: the first
/// call removes the task at `index`, after which that index holds the task
/// that followed it, or lies past the end of the list, so that a second call
/// removes that next task or fails with an invalid index.
pub proof fn lemma_delete_twice(v: Seq<DayView>, d: Date, index: int, is_done: bool)
    requires
        store_valid(v),
        has_day(v, d),
        0 <= index < list_on(v, d, is_done).len(),
    ensures
        ({
            let v1 = deleted(v, d, index, is_done);
            &&& store_valid(v1)
            &&& has_day(v1, d)
            &&& list_on(v1, d, is_done) == list_on(v, d, is_done).remove(index)
            &&& index + 1 < list_on(v, d, is_done).len() ==> list_on(v1, d, is_done)[index] == list_on(
                v,
                d,
                is_done,
            )[index + 1]
            &&& index + 1 == list_on(v, d, is_done).len() ==> index >= list_on(v1, d, is_done).len()
        }),
{
    let x = day_index(v, d);
    lemma_day_index(v, d, x);
    assert(day_valid(v[x]));
    let st = if is_done { TaskState::NotDone } else { TaskState::Done };
    lemma_day_changes_valid(v[x], index, is_done, st, list_on(v, d, is_done)[index].description);
    let v1 = deleted(v, d, index, is_done);
    lemma_update_day_valid(v, x, removed_in_day(v[x], index, is_done));
    lemma_day_index(v1, d, x);
}

/// After carrying over on day `today`, no unfinished task is dated before
/// `today`, and every task outside the unfinished lists is finished.
pub proof fn lemma_carry_over_leaves_none_behind(v: Seq<DayView>, today: Date)
    requires
        store_valid(v),
    ensures
        store_valid(carried_over(v, today)),
        forall|i: int, k: int|
            0 <= i < carried_over(v, today).len() && 0 <= k < carried_over(v, today)[i].1.len() ==> !(
            #[trigger] carried_over(v, today)[i].1[k]).date.before(today),
        forall|i: int, k: int|
            0 <= i < carried_over(v, today).len() && 0 <= k < carried_over(v, today)[i].2.len() ==> (
            #[trigger] carried_over(v, today)[i].2[k]).state == TaskState::Done,
{
    lemma_carried_valid(v, today);
    let w = carried_over(v, today);
    let cl = cleared(v, today);
    assert forall|i: int, k: int| 0 <= i < w.len() && 0 <= k < w[i].1.len() implies !(#[trigger] w[i].1[k]).date.before(
        today,
    ) by {
        assert(day_valid(w[i]));
        if carried(v, today).len() == 0 || !has_day(cl, today) {
            if i < cl.len() {
                assert(w[i] == cl[i]);
            }
        } else {
            let j = day_index(cl, today);
            if i != j {
                assert(w[i] == cl[i]);
            }
        }
    }
    assert forall|i: int, k: int| 0 <= i < w.len() && 0 <= k < w[i].2.len() implies (#[trigger] w[i].2[k]).state
        == TaskState::Done by {
        assert(day_valid(w[i]));
    }
}

/// How many tasks the days of `v` outside the archive window of `today` hold.
pub open spec fn expired_count(v: Seq<DayView>, today: Date) -> nat
    decreases v.len(),
{
    if v.len() == 0 {
        0
    } else {
        let e = v.last();
        expired_count(v.drop_last(), today) + if e.0.expired(today) {
            e.1.len() + e.2.len()
        } else {
            0
        }
    }
}

/// After archiving on day `today`, no day outside the archive window is
/// left, and as many tasks come out as the removed days held.
pub proof fn lemma_archive_drops_old_days(v: Seq<DayView>, today: Date)
    ensures
        forall|i: int| 0 <= i < kept(v, today).len() ==> !(#[trigger] kept(v, today)[i]).0.expired(today),
        archived(v, today).len() == expired_count(v, today),
    decreases v.len(),
{
    if v.len() > 0 {
        lemma_archive_drops_old_days(v.drop_last(), today);
        let kw = kept(v.drop_last(), today);
        let kv = kept(v, today);
        assert forall|i: int| 0 <= i < kv.len() implies !(#[trigger] kv[i]).0.expired(today) by {
            if i < kw.len() {
                assert(kv[i] == kw[i]);
            }
        }
    }
}

} // verus!
