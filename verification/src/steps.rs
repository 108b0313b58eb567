//! Ways to say what a loop over rows or columns computes: the first failure in
//! order, or the results of every step.

use vstd::prelude::*;

verus! {

/// The first failure of `f(i)` for `from <= i < n`, in order.
pub open spec fn first_failure<E>(from: int, n: int, f: spec_fn(int) -> Option<E>) -> Option<E>
    decreases n - from,
{
    if from >= n {
        None
    } else {
        match f(from) {
            Some(e) => Some(e),
            None => first_failure(from + 1, n, f),
        }
    }
}

/// The results of `f(i)` for `from <= i < n`, behind those in `done`; or the
/// first failure among them.
pub open spec fn collect_from<T, E>(
    done: Seq<T>,
    from: int,
    n: int,
    f: spec_fn(int) -> Result<T, E>,
) -> Result<Seq<T>, E>
    decreases n - from,
{
    if from >= n {
        Ok(done)
    } else {
        match f(from) {
            Err(e) => Err(e),
            Ok(v) => collect_from(done.push(v), from + 1, n, f),
        }
    }
}

/// The results of `f(0)` to `f(n - 1)`, or the first failure among them.
pub open spec fn collect<T, E>(n: int, f: spec_fn(int) -> Result<T, E>) -> Result<Seq<T>, E> {
    collect_from(Seq::empty(), 0, n, f)
}

/// Nothing fails exactly when no step does.
pub proof fn lemma_no_failure<E>(from: int, n: int, f: spec_fn(int) -> Option<E>)
    ensures
        first_failure(from, n, f) is None <==> forall|i: int|
            from <= i < n ==> (#[trigger] f(i)) is None,
    decreases n - from,
{
    if from < n {
        lemma_no_failure(from + 1, n, f);
        if first_failure(from, n, f) is None {
            assert forall|i: int| from <= i < n implies (#[trigger] f(i)) is None by {
                if i > from {
                    assert(from + 1 <= i);
                }
            }
        }
    }
}

/// When every step succeeds, all the results are there in order.
pub proof fn lemma_collect_from_all<T, E>(
    done: Seq<T>,
    from: int,
    n: int,
    f: spec_fn(int) -> Result<T, E>,
    all: Seq<T>,
)
    requires
        0 <= from <= n,
        all.len() == n,
        done == all.take(from),
        forall|i: int| from <= i < n ==> #[trigger] f(i) == Ok::<T, E>(all[i]),
    ensures
        collect_from(done, from, n, f) == Ok::<Seq<T>, E>(all),
    decreases n - from,
{
    if from < n {
        assert(f(from) == Ok::<T, E>(all[from]));
        assert(done.push(all[from]) =~= all.take(from + 1));
        lemma_collect_from_all(done.push(all[from]), from + 1, n, f, all);
    } else {
        assert(all.take(from) =~= all);
    }
}

/// When every step succeeds, all the results are there in order.
pub proof fn lemma_collect_all<T, E>(n: int, f: spec_fn(int) -> Result<T, E>, all: Seq<T>)
    requires
        n >= 0,
        all.len() == n,
        forall|i: int| 0 <= i < n ==> #[trigger] f(i) == Ok::<T, E>(all[i]),
    ensures
        collect(n, f) == Ok::<Seq<T>, E>(all),
{
    assert(Seq::<T>::empty() =~= all.take(0));
    lemma_collect_from_all(Seq::empty(), 0, n, f, all);
}

/// What was collected has one result per step, each the step's own.
pub proof fn lemma_collected_from<T, E>(
    done: Seq<T>,
    from: int,
    n: int,
    f: spec_fn(int) -> Result<T, E>,
)
    requires
        0 <= from <= n,
        done.len() == from,
    ensures
        collect_from(done, from, n, f) matches Ok(all) ==> {
            &&& all.len() == n
            &&& all.take(from) == done
            &&& forall|i: int| from <= i < n ==> #[trigger] f(i) == Ok::<T, E>(all[i])
        },
    decreases n - from,
{
    if from < n {
        match f(from) {
            Err(e) => {},
            Ok(v) => {
                lemma_collected_from(done.push(v), from + 1, n, f);
                if let Ok(all) = collect_from(done, from, n, f) {
                    assert(all.take(from + 1) == done.push(v));
                    assert(all[from] == all.take(from + 1)[from]);
                    assert(all.take(from) =~= all.take(from + 1).take(from));
                    assert(done.push(v).take(from) =~= done);
                    assert forall|i: int| from <= i < n implies #[trigger] f(i) == Ok::<T, E>(
                        all[i],
                    ) by {
                        if i > from {
                            assert(from + 1 <= i);
                        }
                    }
                }
            },
        }
    } else {
        assert(done.take(from) =~= done);
    }
}

/// What was collected has one result per step, each the step's own.
pub proof fn lemma_collected<T, E>(n: int, f: spec_fn(int) -> Result<T, E>)
    requires
        n >= 0,
    ensures
        collect(n, f) matches Ok(all) ==> {
            &&& all.len() == n
            &&& forall|i: int| 0 <= i < n ==> #[trigger] f(i) == Ok::<T, E>(all[i])
        },
{
    lemma_collected_from(Seq::<T>::empty(), 0, n, f);
}

/// The failure that counts is the first: the one of a step that fails, where no
/// step before it does.
pub proof fn law_first_failure_counts<E>(from: int, n: int, f: spec_fn(int) -> Option<E>, i: int)
    requires
        from <= i < n,
        f(i) is Some,
        forall|j: int| from <= j < i ==> (#[trigger] f(j)) is None,
    ensures
        first_failure(from, n, f) == f(i),
    decreases i - from,
{
    if from < i {
        assert(f(from) is None);
        law_first_failure_counts(from + 1, n, f, i);
    }
}

/// The same where results are collected.
proof fn lemma_first_error<T, E>(
    done: Seq<T>,
    from: int,
    n: int,
    f: spec_fn(int) -> Result<T, E>,
    i: int,
)
    requires
        from <= i < n,
        f(i) is Err,
        forall|j: int| from <= j < i ==> (#[trigger] f(j)) is Ok,
    ensures
        collect_from(done, from, n, f) == Err::<Seq<T>, E>(f(i)->Err_0),
    decreases i - from,
{
    if from < i {
        assert(f(from) is Ok);
        lemma_first_error(done.push(f(from)->Ok_0), from + 1, n, f, i);
    }
}

/// Where results are collected, the first failure counts.
pub proof fn law_first_error_counts<T, E>(n: int, f: spec_fn(int) -> Result<T, E>, i: int)
    requires
        0 <= i < n,
        f(i) is Err,
        forall|j: int| 0 <= j < i ==> (#[trigger] f(j)) is Ok,
    ensures
        collect(n, f) == Err::<Seq<T>, E>(f(i)->Err_0),
{
    lemma_first_error(Seq::empty(), 0, n, f, i);
}

/// Where no step fails, all the results are there, in order.
pub proof fn law_all_results_are_there<T, E>(n: int, f: spec_fn(int) -> Result<T, E>)
    requires
        0 <= n,
        forall|i: int| 0 <= i < n ==> (#[trigger] f(i)) is Ok,
    ensures
        collect(n, f) is Ok,
        collect(n, f)->Ok_0.len() == n,
        forall|i: int| 0 <= i < n ==> collect(n, f)->Ok_0[i] == (#[trigger] f(i))->Ok_0,
{
    let all = Seq::new(n as nat, |i: int| f(i)->Ok_0);
    assert forall|i: int| 0 <= i < n implies #[trigger] f(i) == Ok::<T, E>(all[i]) by {
        assert(f(i) is Ok);
    }
    lemma_collect_all(n, f, all);
}

} // verus!
