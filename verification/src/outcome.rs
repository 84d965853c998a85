//! Sequences of results, of which the first failure counts.

use vstd::prelude::*;

verus! {

/// No element is a failure.
pub open spec fn all_ok<T, E>(rs: Seq<Result<T, E>>) -> bool {
    forall|i: int| 0 <= i < rs.len() ==> (#[trigger] rs[i]) is Ok
}

/// Element `i` is a failure and none before it is.
pub open spec fn is_first_failure<T, E>(rs: Seq<Result<T, E>>, i: int) -> bool {
    0 <= i < rs.len() && rs[i] is Err && all_ok(rs.take(i))
}

/// The values of `rs` when none of them is a failure, else its first failure.
pub open spec fn gather<T, E>(rs: Seq<Result<T, E>>) -> Result<Seq<T>, E> {
    if all_ok(rs) {
        Ok(Seq::new(rs.len(), |i: int| rs[i]->Ok_0))
    } else {
        Err(rs[choose|i: int| is_first_failure(rs, i)]->Err_0)
    }
}

/// Where some element is a failure, one of them is the first.
pub proof fn lemma_gather_failure_exists<T, E>(rs: Seq<Result<T, E>>)
    requires
        !all_ok(rs),
    ensures
        exists|i: int| is_first_failure(rs, i),
        gather(rs) is Err,
    decreases rs.len(),
{
    let i = choose|i: int| 0 <= i < rs.len() && !((#[trigger] rs[i]) is Ok);
    if all_ok(rs.take(i)) {
        assert(is_first_failure(rs, i));
    } else {
        let front = rs.take(i);
        lemma_gather_failure_exists(front);
        let j = choose|j: int| is_first_failure(front, j);
        assert(front.take(j) =~= rs.take(j));
        assert(is_first_failure(rs, j));
    }
}

/// A failure that no failure precedes is the one that `gather` reports.
pub proof fn lemma_gather_first_failure<T, E>(rs: Seq<Result<T, E>>, i: int)
    requires
        is_first_failure(rs, i),
    ensures
        gather(rs) == Err::<Seq<T>, E>(rs[i]->Err_0),
{
    let j = choose|j: int| is_first_failure(rs, j);
    if j < i {
        assert(rs.take(i)[j] is Ok);
    } else if i < j {
        assert(rs.take(j)[i] is Ok);
    }
}

/// Where a sequence of failures and values has no failure, `gather` hands
/// out its values in order.
pub proof fn lemma_gather_all_ok<T, E>(rs: Seq<Result<T, E>>, values: Seq<T>)
    requires
        values.len() == rs.len(),
        forall|i: int| 0 <= i < rs.len() ==> #[trigger] rs[i] == Ok::<T, E>(values[i]),
    ensures
        gather(rs) == Ok::<Seq<T>, E>(values),
{
    assert(Seq::new(rs.len(), |i: int| rs[i]->Ok_0) =~= values);
}

} // verus!
