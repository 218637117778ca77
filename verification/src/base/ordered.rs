//! Small ordered sets kept in vectors.
use vstd::prelude::*;

verus! {

/// Strictly ascending.
pub open spec fn ascending(values: Seq<u64>) -> bool {
    forall|i: int, j: int| #![trigger values[i], values[j]] 0 <= i < j < values.len() ==> values[i] < values[j]
}

/// `after` is the ascending sequence of the members of `before` and of `value`.
pub open spec fn ascending_with(before: Seq<u64>, after: Seq<u64>, value: u64) -> bool {
    &&& ascending(after)
    &&& forall|x: u64| #![trigger after.contains(x)] after.contains(x) <==> before.contains(x) || x == value
}

/// Adds `value` to an ascending vector, once.
pub fn add_ascending(values: &mut Vec<u64>, value: u64)
    requires
        ascending(old(values)@),
    ensures
        ascending_with(old(values)@, final(values)@, value),
        final(values)@.len() <= old(values)@.len() + 1,
        final(values)@.len() >= old(values)@.len(),
{
    let ghost before = values@;
    let mut index: usize = 0;
    while index < values.len() && values[index] < value
        invariant
            values@ == before,
            ascending(before),
            index <= before.len(),
            forall|i: int| #![trigger before[i]] 0 <= i < index ==> before[i] < value,
        decreases before.len() - index,
    {
        index = index + 1;
    }
    if index < values.len() && values[index] == value {
        assert(before[index as int] == value);
        return ;
    }
    values.insert(index, value);
    let ghost after = values@;
    assert(after == before.insert(index as int, value));
    assert(ascending(after)) by {
        assert forall|i: int| index <= i < before.len() implies value < #[trigger] before[i] by {
            assert(before[index as int] <= before[i]);
        }
    }
    proof {
        lemma_insert_contains(before, index as int, value);
    }
}

pub proof fn lemma_insert_contains<A>(before: Seq<A>, index: int, value: A)
    requires
        0 <= index <= before.len(),
    ensures
        forall|x: A|
            #![trigger before.insert(index, value).contains(x)]
            before.insert(index, value).contains(x) <==> before.contains(x) || x == value,
{
    let after = before.insert(index, value);
    assert forall|x: A|
        #![trigger after.contains(x)]
        after.contains(x) <==> before.contains(x) || x == value by {
        if after.contains(x) {
            let k = choose|k: int| 0 <= k < after.len() && after[k] == x;
            if k < index {
                assert(before[k] == x);
            } else if k > index {
                assert(before[k - 1] == x);
            }
        }
        if before.contains(x) {
            let k = choose|k: int| 0 <= k < before.len() && before[k] == x;
            if k < index {
                assert(after[k] == x);
            } else {
                assert(after[k + 1] == x);
            }
        }
        assert(after[index] == value);
    }
}

pub proof fn lemma_remove_contains<A>(before: Seq<A>, index: int)
    requires
        0 <= index < before.len(),
        forall|i: int, j: int|
            #![trigger before[i], before[j]]
            0 <= i < j < before.len() ==> before[i] != before[j],
    ensures
        forall|x: A|
            #![trigger before.remove(index).contains(x)]
            before.remove(index).contains(x) <==> before.contains(x) && x != before[index],
{
    let after = before.remove(index);
    assert forall|x: A|
        #![trigger after.contains(x)]
        after.contains(x) <==> before.contains(x) && x != before[index] by {
        if after.contains(x) {
            let k = choose|k: int| 0 <= k < after.len() && after[k] == x;
            if k < index {
                assert(before[k] == x);
            } else {
                assert(before[k + 1] == x);
            }
        }
        if before.contains(x) && x != before[index] {
            let k = choose|k: int| 0 <= k < before.len() && before[k] == x;
            if k < index {
                assert(after[k] == x);
            } else {
                assert(after[k - 1] == x);
            }
        }
    }
}

/// The order of a time and a number at that time.
pub open spec fn earlier(left: (u64, u64), right: (u64, u64)) -> bool {
    left.0 < right.0 || (left.0 == right.0 && left.1 < right.1)
}

/// Strictly ascending by time, then by number.
pub open spec fn timed(values: Seq<(u64, u64)>) -> bool {
    forall|i: int, j: int|
        #![trigger values[i], values[j]]
        0 <= i < j < values.len() ==> earlier(values[i], values[j])
}

/// Adds `value` to a schedule, once.
pub fn add_timed(values: &mut Vec<(u64, u64)>, value: (u64, u64))
    requires
        timed(old(values)@),
    ensures
        timed(final(values)@),
        forall|x: (u64, u64)|
            #![trigger final(values)@.contains(x)]
            final(values)@.contains(x) <==> old(values)@.contains(x) || x == value,
{
    let ghost before = values@;
    let mut index: usize = 0;
    while index < values.len() && (values[index].0 < value.0 || (values[index].0 == value.0
        && values[index].1 < value.1))
        invariant
            values@ == before,
            timed(before),
            index <= before.len(),
            forall|i: int| #![trigger before[i]] 0 <= i < index ==> earlier(before[i], value),
        decreases before.len() - index,
    {
        index = index + 1;
    }
    if index < values.len() && values[index].0 == value.0 && values[index].1 == value.1 {
        assert(before[index as int] == value);
        return ;
    }
    values.insert(index, value);
    let ghost after = values@;
    assert(after == before.insert(index as int, value));
    assert(timed(after)) by {
        assert forall|i: int| index <= i < before.len() implies earlier(value, #[trigger] before[i]) by {
            if i > index {
                assert(earlier(before[index as int], before[i]));
            }
        }
    }
    proof {
        lemma_insert_contains(before, index as int, value);
    }
}

/// Takes `value` out of a schedule.
pub fn drop_timed(values: &mut Vec<(u64, u64)>, value: (u64, u64))
    requires
        timed(old(values)@),
    ensures
        timed(final(values)@),
        forall|x: (u64, u64)|
            #![trigger final(values)@.contains(x)]
            final(values)@.contains(x) <==> old(values)@.contains(x) && x != value,
{
    let ghost before = values@;
    let mut index: usize = 0;
    while index < values.len() && !(values[index].0 == value.0 && values[index].1 == value.1)
        invariant
            values@ == before,
            index <= before.len(),
            forall|i: int| #![trigger before[i]] 0 <= i < index ==> before[i] != value,
        decreases before.len() - index,
    {
        index = index + 1;
    }
    if index < values.len() {
        proof {
            lemma_remove_contains(before, index as int);
        }
        values.remove(index);
    }
}

} // verus!
