//! Lists and values that may be missing.

use vstd::prelude::*;

verus! {

/// The value that the last item to have one has.
pub open spec fn last_of<T, A>(items: Seq<T>, value: spec_fn(T) -> Option<A>) -> Option<A>
    decreases items.len(),
{
    if items.len() == 0 {
        None
    } else {
        match value(items.last()) {
            Some(v) => Some(v),
            None => last_of(items.drop_last(), value),
        }
    }
}

/// `value`, or `default` where there is none.
pub open spec fn or_else<A>(value: Option<A>, default: A) -> A {
    match value {
        Some(v) => v,
        None => default,
    }
}

/// The last item that has a value gives it, whatever items without one stand
/// before or behind it.
pub proof fn last_value_counts<T, A>(items: Seq<T>, value: spec_fn(T) -> Option<A>, i: int)
    requires
        0 <= i < items.len(),
        value(items[i]) is Some,
        forall|j: int| i < j < items.len() ==> value(#[trigger] items[j]) is None,
    ensures
        last_of(items, value) == value(items[i]),
    decreases items.len(),
{
    if i < items.len() - 1 {
        assert(value(items[items.len() - 1]) is None);
        assert forall|j: int| i < j < items.drop_last().len() implies value(
            #[trigger] items.drop_last()[j],
        ) is None by {
            assert(items.drop_last()[j] == items[j]);
        }
        last_value_counts(items.drop_last(), value, i);
    }
}

/// Items without a value give none.
pub proof fn no_value_gives_none<T, A>(items: Seq<T>, value: spec_fn(T) -> Option<A>)
    requires
        forall|j: int| 0 <= j < items.len() ==> value(#[trigger] items[j]) is None,
    ensures
        last_of(items, value) is None,
    decreases items.len(),
{
    if items.len() > 0 {
        assert(value(items[items.len() - 1]) is None);
        assert forall|j: int| 0 <= j < items.drop_last().len() implies value(
            #[trigger] items.drop_last()[j],
        ) is None by {
            assert(items.drop_last()[j] == items[j]);
        }
        no_value_gives_none(items.drop_last(), value);
    }
}

} // verus!
