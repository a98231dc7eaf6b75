//! Facts about lists.

use vstd::prelude::*;

verus! {

/// What a list with one more member contains.
pub proof fn lemma_push_contains<A>(list: Seq<A>, last: A)
    ensures
        forall|x: A| #[trigger] list.push(last).contains(x) == (list.contains(x) || x == last),
        list.no_duplicates() && !list.contains(last) ==> list.push(last).no_duplicates(),
{
    let more = list.push(last);
    assert forall|x: A| #[trigger] more.contains(x) == (list.contains(x) || x == last) by {
        assert(more[list.len() as int] == last);
        if list.contains(x) {
            let j = choose|j: int| 0 <= j < list.len() && list[j] == x;
            assert(more[j] == x);
        }
        if more.contains(x) && x != last {
            let j = choose|j: int| 0 <= j < more.len() && more[j] == x;
            assert(list[j] == x);
        }
    }
    if list.no_duplicates() && !list.contains(last) {
        assert forall|i: int, j: int|
            0 <= i < more.len() && 0 <= j < more.len() && i != j implies more[i] != more[j] by {
            if i < list.len() {
                assert(list.contains(list[i]));
            }
            if j < list.len() {
                assert(list.contains(list[j]));
            }
        }
    }
}

/// What the first `i + 1` members of a list contain.
pub proof fn lemma_take_contains<A>(list: Seq<A>, i: int)
    requires
        0 <= i < list.len(),
    ensures
        list.take(i + 1) == list.take(i).push(list[i]),
        forall|x: A| #[trigger]
            list.take(i + 1).contains(x) == (list.take(i).contains(x) || x == list[i]),
{
    assert(list.take(i + 1) =~= list.take(i).push(list[i]));
    lemma_push_contains(list.take(i), list[i]);
}

} // verus!
