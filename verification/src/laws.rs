//! Laws of the slotted vector, proved over its abstract state.
//!
//! The contracts of [`VecList`](crate::VecList) say what one call does to the
//! abstract state. The lemmas here say what follows for several calls in a
//! row: which index an insertion gets, how long a removed index stays empty,
//! and what never changes.

use vstd::prelude::*;
use crate::slots::{Op, Slots};

verus! {

/// The state of a fresh vector is well formed.
pub proof fn lemma_empty_wf<T>()
    ensures
        Slots::<T>::empty().wf(),
{
}

/// An insertion keeps the state well formed.
pub proof fn lemma_push_preserves_wf<T>(s: Slots<T>, value: T)
    requires
        s.wf(),
    ensures
        s.push(value).wf(),
{
    let pushed = s.push(value);
    if s.vacant.len() > 0 {
        assert forall|i: int|
            0 <= i < pushed.cells.len() && (#[trigger] pushed.cells[i]) is None
            implies pushed.vacant.contains(i) by {
            assert(s.cells[i] is None);
            let k = choose|k: int| 0 <= k < s.vacant.len() && s.vacant[k] == i;
            assert(pushed.vacant[k - 1] == i);
        }
    } else {
        assert forall|i: int| 0 <= i < pushed.cells.len()
            implies (#[trigger] pushed.cells[i]) is Some by {
            if i < s.cells.len() && s.cells[i] is None {
                assert(s.vacant.contains(i));
            }
        }
    }
}

/// A removal keeps the state well formed.
pub proof fn lemma_pop_preserves_wf<T>(s: Slots<T>, index: int)
    requires
        s.wf(),
    ensures
        s.pop(index).wf(),
{
    let popped = s.pop(index);
    if s.occupied(index) {
        assert forall|i: int|
            0 <= i < popped.cells.len() && (#[trigger] popped.cells[i]) is None
            implies popped.vacant.contains(i) by {
            if i == index {
                assert(popped.vacant[0] == i);
            } else {
                let k = choose|k: int| 0 <= k < s.vacant.len() && s.vacant[k] == i;
                assert(popped.vacant[k + 1] == i);
            }
        }
    }
}

/// Overwriting a value in place keeps the state well formed.
pub proof fn lemma_write_preserves_wf<T>(s: Slots<T>, index: int, value: T)
    requires
        s.wf(),
    ensures
        s.write(index, value).wf(),
{
    let written = s.write(index, value);
    if s.occupied(index) {
        assert forall|i: int|
            0 <= i < written.cells.len() && (#[trigger] written.cells[i]) is None
            implies written.vacant.contains(i) by {
            assert(s.cells[i] is None);
        }
    }
}

/// Any run of operations keeps the state well formed.
pub proof fn lemma_run_preserves_wf<T>(s: Slots<T>, ops: Seq<Op<T>>)
    requires
        s.wf(),
    ensures
        s.run(ops).wf(),
    decreases ops.len(),
{
    if ops.len() > 0 {
        lemma_run_preserves_wf(s, ops.drop_last());
        let before = s.run(ops.drop_last());
        match ops.last() {
            Op::Push(value) => lemma_push_preserves_wf(before, value),
            Op::Pop(index) => lemma_pop_preserves_wf(before, index),
            Op::Write(index, value) => lemma_write_preserves_wf(before, index, value),
        }
    }
}

/// An inserted value is found at the index that the insertion returned. That
/// index held nothing before, and no other index changes what it holds.
pub proof fn lemma_push_then_get<T>(s: Slots<T>, value: T, other: int)
    requires
        s.wf(),
    ensures
        !s.occupied(s.next_index()),
        s.push(value).get(s.next_index()) == Some(value),
        other != s.next_index() ==> s.push(value).get(other) == s.get(other),
{
}

/// A removal leaves every other index as it was: the indices of values that
/// were not removed stay valid.
pub proof fn lemma_pop_keeps_others<T>(s: Slots<T>, index: int, other: int)
    requires
        other != index,
    ensures
        s.pop(index).get(other) == s.get(other),
        s.pop(index).upper_bound() == s.upper_bound(),
{
}

/// A removal at an index that holds no value, because the index was never
/// handed out or because its value was removed before, yields nothing and
/// changes nothing: the upper bound, every slot and the order of reuse stay
/// as they were. So removing twice at one index is removing once.
pub proof fn lemma_pop_absent<T>(s: Slots<T>, index: int)
    ensures
        !s.occupied(index) ==> s.get(index) is None && s.pop(index) == s,
        index >= s.upper_bound() ==> !s.occupied(index),
        !s.pop(index).occupied(index),
        s.pop(index).pop(index) == s.pop(index),
{
}

/// Insertions into a fresh vector, with no removal in between, get the
/// indices `0, 1, 2, ...` in order, and each index then holds the value that
/// was inserted at it.
pub proof fn lemma_pushes_fill_in_order<T>(values: Seq<T>)
    ensures
        Slots::<T>::empty().push_all(values).cells == values.map_values(|v: T| Some(v)),
        Slots::<T>::empty().push_all(values).vacant.len() == 0,
        Slots::<T>::empty().push_all(values).upper_bound() == values.len(),
        forall|i: int|
            0 <= i < values.len() ==> #[trigger] Slots::<T>::empty().push_all(values).get(i)
                == Some(values[i]),
        forall|j: int|
            0 <= j < values.len() ==> #[trigger] Slots::<T>::empty().push_all(
                values.take(j),
            ).next_index() == j,
    decreases values.len(),
{
    if values.len() > 0 {
        let front = values.drop_last();
        lemma_pushes_fill_in_order(front);
        assert forall|j: int| 0 <= j < values.len()
            implies #[trigger] Slots::<T>::empty().push_all(values.take(j)).next_index() == j by {
            if j < front.len() {
                assert(values.take(j) =~= front.take(j));
            } else {
                assert(values.take(j) =~= front);
            }
        }
    }
    assert(Slots::<T>::empty().push_all(values).cells =~= values.map_values(|v: T| Some(v)));
}

/// After the value at an occupied index was removed, the index is the next
/// one to be reused, and it holds nothing for as long as no insertion is
/// placed at it, whatever else is done to the vector in between.
pub proof fn lemma_vacated_until_reused<T>(s: Slots<T>, index: int, ops: Seq<Op<T>>)
    requires
        s.wf(),
        s.occupied(index),
        forall|j: int|
            0 <= j < ops.len() && ops[j] is Push ==> #[trigger] s.pop(index).run(
                ops.take(j),
            ).next_index() != index,
    ensures
        s.pop(index).next_index() == index,
        s.pop(index).run(ops).get(index) is None,
    decreases ops.len(),
{
    let vacated = s.pop(index);
    if ops.len() > 0 {
        let front = ops.drop_last();
        assert forall|j: int| 0 <= j < front.len() && front[j] is Push
            implies #[trigger] vacated.run(front.take(j)).next_index() != index by {
            assert(front.take(j) =~= ops.take(j));
        }
        lemma_vacated_until_reused(s, index, front);
        lemma_pop_preserves_wf(s, index);
        lemma_run_preserves_wf(vacated, front);
        if ops.last() is Push {
            assert(ops.take(ops.len() - 1) =~= front);
            assert(vacated.run(ops.take(ops.len() - 1)).next_index() != index);
        }
    }
}

/// Last vacated, first reused: where the indices `0 .. count` hold values and
/// are removed in ascending order, the next `count` insertions are placed at
/// `count - 1, count - 2, ..., 0`, in this order. Each of these indices then
/// holds the value inserted at it, and the vector is as large as before.
pub proof fn lemma_lifo_reuse<T>(s: Slots<T>, count: nat, values: Seq<T>)
    requires
        forall|i: int| 0 <= i < count ==> s.occupied(i),
        values.len() == count,
    ensures
        forall|j: int|
            0 <= j < count ==> #[trigger] s.pop_below(count).push_all(values.take(j)).next_index()
                == count - 1 - j,
        forall|j: int|
            0 <= j < count ==> #[trigger] s.pop_below(count).push_all(values).get(count - 1 - j)
                == Some(values[j]),
        s.pop_below(count).push_all(values).vacant == s.vacant,
        s.pop_below(count).push_all(values).upper_bound() == s.upper_bound(),
{
    let emptied = s.pop_below(count);
    lemma_pop_below(s, count);
    if count > 0 {
        assert(s.occupied(count - 1));
    }
    assert forall|j: int| 0 <= j < count
        implies #[trigger] emptied.push_all(values.take(j)).next_index() == count - 1 - j by {
        lemma_refill(s, count, values.take(j));
        assert(descending((count - j) as nat)[0] == count - 1 - j);
    }
    lemma_refill(s, count, values);
    assert forall|j: int| 0 <= j < count
        implies #[trigger] emptied.push_all(values).get(count - 1 - j) == Some(values[j]) by {
        assert(emptied.push_all(values).cells[count - 1 - j] == Some(values[j]));
    }
    assert(emptied.push_all(values).vacant =~= s.vacant);
}

/// The indices `count - 1, count - 2, ..., 0`.
spec fn descending(count: nat) -> Seq<int> {
    Seq::new(count, |m: int| count - 1 - m)
}

/// What `s` has become after the indices below `count` were removed in
/// ascending order and `values` were inserted after that: the insertions
/// have filled the removed slots from `count - 1` downwards.
spec fn refilled<T>(s: Slots<T>, count: nat, values: Seq<T>) -> bool {
    let now = s.pop_below(count).push_all(values);
    let rest = count - values.len();
    &&& now.vacant == descending(rest as nat) + s.vacant
    &&& now.cells.len() == s.cells.len()
    &&& forall|i: int|
        0 <= i < now.cells.len() ==> #[trigger] now.cells[i] == if i < rest {
            None
        } else if i < count {
            Some(values[count - 1 - i])
        } else {
            s.cells[i]
        }
}

/// Removing the indices below `count` in ascending order stacks them on the
/// free list, the last one removed on top.
proof fn lemma_pop_below<T>(s: Slots<T>, count: nat)
    requires
        forall|i: int| 0 <= i < count ==> s.occupied(i),
    ensures
        refilled(s, count, Seq::empty()),
    decreases count,
{
    let now = s.pop_below(count);
    assert(now.push_all(Seq::empty()) == now);
    if count > 0 {
        let before = s.pop_below((count - 1) as nat);
        assert forall|i: int| 0 <= i < count - 1 implies s.occupied(i) by {
            assert(s.occupied(i));
        }
        lemma_pop_below(s, (count - 1) as nat);
        assert(before.push_all(Seq::empty()) == before);
        assert(s.occupied(count - 1));
        assert(before.cells[count - 1] == s.cells[count - 1]);
    }
    assert(now.vacant =~= descending(count) + s.vacant);
}

/// Each insertion after the removals takes the slot on top of the free list.
proof fn lemma_refill<T>(s: Slots<T>, count: nat, values: Seq<T>)
    requires
        refilled(s, count, Seq::empty()),
        values.len() <= count <= s.cells.len(),
    ensures
        refilled(s, count, values),
    decreases values.len(),
{
    if values.len() > 0 {
        lemma_refill(s, count, values.drop_last());
        let before = s.pop_below(count).push_all(values.drop_last());
        let now = s.pop_below(count).push_all(values);
        let rest = (count - values.len()) as nat;
        assert(before.vacant[0] == descending((rest + 1) as nat)[0]);
        assert(now.vacant =~= descending(rest) + s.vacant);
    }
}

/// The upper bound never decreases, whatever is done to the vector: it is at
/// no point of a run of operations larger than at a later point.
pub proof fn lemma_upper_bound_never_decreases<T>(s: Slots<T>, ops: Seq<Op<T>>)
    requires
        s.wf(),
    ensures
        s.upper_bound() <= s.run(ops).upper_bound(),
        forall|j: int|
            0 <= j <= ops.len() ==> #[trigger] s.run(ops.take(j)).upper_bound() <= s.run(
                ops,
            ).upper_bound(),
    decreases ops.len(),
{
    if ops.len() > 0 {
        let front = ops.drop_last();
        lemma_upper_bound_never_decreases(s, front);
        lemma_run_preserves_wf(s, front);
        assert(s.run(front).upper_bound() <= s.run(ops).upper_bound());
        assert forall|j: int| 0 <= j <= ops.len()
            implies #[trigger] s.run(ops.take(j)).upper_bound() <= s.run(ops).upper_bound() by {
            if j < ops.len() {
                assert(ops.take(j) =~= front.take(j));
                assert(s.run(front.take(j)).upper_bound() <= s.run(front).upper_bound());
            } else {
                assert(ops.take(j) =~= ops);
            }
        }
    } else {
        assert(ops.take(0) =~= ops);
    }
}

} // verus!
