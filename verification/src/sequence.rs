//! Folds over sequences that stop at the first failure, and what a loop needs to compute
//! them from the front.
use vstd::prelude::*;

verus! {

/// Applies `f` to each item in turn. The first failure is the result; without one, the
/// results in order.
pub open spec fn try_map<A, B, E>(items: Seq<A>, f: spec_fn(A) -> Result<B, E>) -> Result<Seq<B>, E>
    decreases items.len(),
{
    if items.len() == 0 {
        Ok(Seq::empty())
    } else {
        match f(items[0]) {
            Err(e) => Err(e),
            Ok(first) => match try_map(items.drop_first(), f) {
                Err(e) => Err(e),
                Ok(rest) => Ok(seq![first] + rest),
            },
        }
    }
}

/// The results `done` of the items already seen, followed by the outcome on the others.
pub open spec fn after<B, E>(done: Seq<B>, others: Result<Seq<B>, E>) -> Result<Seq<B>, E> {
    match others {
        Err(e) => Err(e),
        Ok(rest) => Ok(done + rest),
    }
}

/// Before the first item nothing is done.
pub proof fn lemma_try_map_start<A, B, E>(items: Seq<A>, f: spec_fn(A) -> Result<B, E>)
    ensures
        try_map(items, f) == after(Seq::<B>::empty(), try_map(items.subrange(0, items.len() as int), f)),
{
    assert(items.subrange(0, items.len() as int) =~= items);
    match try_map(items, f) {
        Ok(rest) => {
            assert(Seq::<B>::empty() + rest =~= rest);
        },
        Err(_) => {},
    }
}

/// One more item: its failure is the outcome, its result joins those done.
pub proof fn lemma_try_map_step<A, B, E>(items: Seq<A>, f: spec_fn(A) -> Result<B, E>, done: Seq<B>, i: int)
    requires
        0 <= i < items.len(),
    ensures
        f(items[i]) matches Err(e) ==> after(done, try_map(items.subrange(i, items.len() as int), f)) == Err::<
            Seq<B>,
            E,
        >(e),
        f(items[i]) matches Ok(b) ==> after(done, try_map(items.subrange(i, items.len() as int), f)) == after(
            done.push(b),
            try_map(items.subrange(i + 1, items.len() as int), f),
        ),
{
    let rest = items.subrange(i, items.len() as int);
    assert(rest[0] == items[i]);
    assert(rest.drop_first() =~= items.subrange(i + 1, items.len() as int));
    if let Ok(b) = f(items[i]) {
        if let Ok(tail) = try_map(rest.drop_first(), f) {
            assert(done + (seq![b] + tail) =~= done.push(b) + tail);
        }
    }
}

/// After the last item what is done is the outcome.
pub proof fn lemma_try_map_end<A, B, E>(items: Seq<A>, f: spec_fn(A) -> Result<B, E>, done: Seq<B>)
    ensures
        after(done, try_map(items.subrange(items.len() as int, items.len() as int), f)) == Ok::<Seq<B>, E>(
            done,
        ),
{
    assert(done + Seq::<B>::empty() =~= done);
}

/// Without a failure there is one result for each item, and it is that of the item.
pub proof fn lemma_try_map_ok<A, B, E>(items: Seq<A>, f: spec_fn(A) -> Result<B, E>)
    ensures
        try_map(items, f) matches Ok(results) ==> results.len() == items.len() && forall|i: int|
            0 <= i < items.len() ==> f(items[i]) == Ok::<B, E>(#[trigger] results[i]),
    decreases items.len(),
{
    if items.len() > 0 {
        lemma_try_map_ok(items.drop_first(), f);
        if let Ok(results) = try_map(items, f) {
            let first = f(items[0])->Ok_0;
            let rest = try_map(items.drop_first(), f)->Ok_0;
            assert forall|i: int| 0 <= i < items.len() implies f(items[i]) == Ok::<B, E>(
                #[trigger] results[i],
            ) by {
                if i > 0 {
                    assert(items[i] == items.drop_first()[i - 1]);
                    assert(results[i] == rest[i - 1]);
                }
            }
        }
    }
}

/// Where `f` succeeds on every item, the fold succeeds.
pub proof fn lemma_try_map_all_ok<A, B, E>(items: Seq<A>, f: spec_fn(A) -> Result<B, E>)
    requires
        forall|i: int| 0 <= i < items.len() ==> #[trigger] f(items[i]) is Ok,
    ensures
        try_map(items, f) is Ok,
    decreases items.len(),
{
    if items.len() > 0 {
        assert(f(items[0]) is Ok);
        assert forall|i: int| 0 <= i < items.drop_first().len() implies #[trigger] f(
            items.drop_first()[i],
        ) is Ok by {
            assert(items.drop_first()[i] == items[i + 1]);
        }
        lemma_try_map_all_ok(items.drop_first(), f);
    }
}

/// Applies `f` to each item in turn and joins the results. The first failure is the result.
pub open spec fn try_flat_map<A, B, E>(items: Seq<A>, f: spec_fn(A) -> Result<Seq<B>, E>) -> Result<
    Seq<B>,
    E,
>
    decreases items.len(),
{
    if items.len() == 0 {
        Ok(Seq::empty())
    } else {
        match f(items[0]) {
            Err(e) => Err(e),
            Ok(first) => match try_flat_map(items.drop_first(), f) {
                Err(e) => Err(e),
                Ok(rest) => Ok(first + rest),
            },
        }
    }
}

pub proof fn lemma_try_flat_map_start<A, B, E>(items: Seq<A>, f: spec_fn(A) -> Result<Seq<B>, E>)
    ensures
        try_flat_map(items, f) == after(
            Seq::<B>::empty(),
            try_flat_map(items.subrange(0, items.len() as int), f),
        ),
{
    assert(items.subrange(0, items.len() as int) =~= items);
    match try_flat_map(items, f) {
        Ok(rest) => {
            assert(Seq::<B>::empty() + rest =~= rest);
        },
        Err(_) => {},
    }
}

pub proof fn lemma_try_flat_map_step<A, B, E>(
    items: Seq<A>,
    f: spec_fn(A) -> Result<Seq<B>, E>,
    done: Seq<B>,
    i: int,
)
    requires
        0 <= i < items.len(),
    ensures
        f(items[i]) matches Err(e) ==> after(
            done,
            try_flat_map(items.subrange(i, items.len() as int), f),
        ) == Err::<Seq<B>, E>(e),
        f(items[i]) matches Ok(b) ==> after(done, try_flat_map(items.subrange(i, items.len() as int), f))
            == after(done + b, try_flat_map(items.subrange(i + 1, items.len() as int), f)),
{
    let rest = items.subrange(i, items.len() as int);
    assert(rest[0] == items[i]);
    assert(rest.drop_first() =~= items.subrange(i + 1, items.len() as int));
    if let Ok(b) = f(items[i]) {
        if let Ok(tail) = try_flat_map(rest.drop_first(), f) {
            assert(done + (b + tail) =~= (done + b) + tail);
        }
    }
}

pub proof fn lemma_try_flat_map_end<A, B, E>(items: Seq<A>, f: spec_fn(A) -> Result<Seq<B>, E>, done: Seq<B>)
    ensures
        after(done, try_flat_map(items.subrange(items.len() as int, items.len() as int), f)) == Ok::<
            Seq<B>,
            E,
        >(done),
{
    assert(done + Seq::<B>::empty() =~= done);
}

/// What holds of every result of `f` on every item holds of every joined result.
pub proof fn lemma_try_flat_map_all<A, B, E>(
    items: Seq<A>,
    f: spec_fn(A) -> Result<Seq<B>, E>,
    holds: spec_fn(B) -> bool,
)
    requires
        forall|i: int, k: int|
            0 <= i < items.len() && f(#[trigger] items[i]) is Ok && 0 <= k < f(items[i])->Ok_0.len() ==> holds(
                #[trigger] f(items[i])->Ok_0[k],
            ),
    ensures
        try_flat_map(items, f) matches Ok(all) ==> forall|k: int| 0 <= k < all.len() ==> holds(#[trigger] all[k]),
    decreases items.len(),
{
    if items.len() > 0 {
        let rest = items.drop_first();
        assert forall|i: int, k: int|
            0 <= i < rest.len() && f(#[trigger] rest[i]) is Ok && 0 <= k < f(rest[i])->Ok_0.len() implies holds(
            #[trigger] f(rest[i])->Ok_0[k],
        ) by {
            assert(rest[i] == items[i + 1]);
        }
        lemma_try_flat_map_all(rest, f, holds);
        if let Ok(all) = try_flat_map(items, f) {
            let first = f(items[0])->Ok_0;
            let others = try_flat_map(rest, f)->Ok_0;
            assert forall|k: int| 0 <= k < all.len() implies holds(#[trigger] all[k]) by {
                if k < first.len() {
                    assert(all[k] == first[k]);
                    assert(holds(f(items[0])->Ok_0[k]));
                } else {
                    assert(all[k] == others[k - first.len()]);
                }
            }
        }
    }
}

/// Where `f` gives each item back, the fold gives the items back.
pub proof fn lemma_try_map_identity<A, E>(items: Seq<A>, f: spec_fn(A) -> Result<A, E>)
    requires
        forall|i: int| 0 <= i < items.len() ==> f(#[trigger] items[i]) == Ok::<A, E>(items[i]),
    ensures
        try_map(items, f) == Ok::<Seq<A>, E>(items),
    decreases items.len(),
{
    if items.len() > 0 {
        let rest = items.drop_first();
        assert(f(items[0]) == Ok::<A, E>(items[0]));
        assert forall|i: int| 0 <= i < rest.len() implies f(#[trigger] rest[i]) == Ok::<A, E>(rest[i]) by {
            assert(rest[i] == items[i + 1]);
        }
        lemma_try_map_identity(rest, f);
        assert(seq![items[0]] + rest =~= items);
    } else {
        assert(items =~= Seq::<A>::empty());
    }
}

} // verus!
