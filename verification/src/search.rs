//! The first member of a list that meets a condition.

use vstd::prelude::*;

verus! {

/// Position `i` is the first whose member meets `p`.
pub open spec fn first_at<T>(list: Seq<T>, p: spec_fn(T) -> bool, i: int) -> bool {
    &&& 0 <= i < list.len()
    &&& p(list[i])
    &&& forall|j: int| 0 <= j < i ==> !p(#[trigger] list[j])
}

/// The first member that meets `p`.
pub open spec fn first_where<T>(list: Seq<T>, p: spec_fn(T) -> bool) -> Option<T> {
    if exists|i: int| first_at(list, p, i) {
        Some(list[choose|i: int| first_at(list, p, i)])
    } else {
        None
    }
}

/// The first member is found at the position where it stands.
pub proof fn lemma_first_found<T>(list: Seq<T>, p: spec_fn(T) -> bool, i: int)
    requires
        first_at(list, p, i),
    ensures
        first_where(list, p) == Some(list[i]),
{
    let k = choose|k: int| first_at(list, p, k);
    assert(first_at(list, p, k));
    assert(k == i);
}

/// Nothing is found where no member meets the condition, and only there.
pub proof fn lemma_first_absent<T>(list: Seq<T>, p: spec_fn(T) -> bool)
    ensures
        first_where(list, p) is None <==> forall|i: int| 0 <= i < list.len() ==> !p(
            #[trigger] list[i],
        ),
{
    if exists|i: int| 0 <= i < list.len() && p(list[i]) {
        let i = choose|i: int| 0 <= i < list.len() && p(list[i]);
        lemma_first_exists(list, p, i);
    }
}

proof fn lemma_first_exists<T>(list: Seq<T>, p: spec_fn(T) -> bool, i: int)
    requires
        0 <= i < list.len(),
        p(list[i]),
    ensures
        exists|k: int| first_at(list, p, k),
    decreases i,
{
    if exists|j: int| 0 <= j < i && p(#[trigger] list[j]) {
        let j = choose|j: int| 0 <= j < i && p(#[trigger] list[j]);
        lemma_first_exists(list, p, j);
    } else {
        assert(first_at(list, p, i));
    }
}

} // verus!
