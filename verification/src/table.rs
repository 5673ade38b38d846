//! Generic reasoning helpers for in-memory tables kept as sequences of
//! rows: first-match search and filtering.

use vstd::prelude::*;

verus! {

/// The index of the first row satisfying `pred`, if any.
pub open spec fn spec_find_first<T>(rows: Seq<T>, pred: spec_fn(T) -> bool) -> Option<int>
    decreases rows.len(),
{
    if rows.len() == 0 {
        Option::None
    } else if pred(rows[0]) {
        Option::Some(0)
    } else {
        match spec_find_first(rows.skip(1), pred) {
            Option::Some(i) => Option::Some(i + 1),
            Option::None => Option::None,
        }
    }
}

/// What a first-match search yields: a hit is in range, satisfies the
/// predicate and nothing before it does; a miss means nothing does.
pub proof fn lemma_find_first_props<T>(rows: Seq<T>, pred: spec_fn(T) -> bool)
    ensures
        match spec_find_first(rows, pred) {
            Option::Some(i) => 0 <= i < rows.len() && pred(rows[i]) && forall|j: int|
                0 <= j < i ==> !pred(#[trigger] rows[j]),
            Option::None => forall|j: int| 0 <= j < rows.len() ==> !pred(#[trigger] rows[j]),
        },
    decreases rows.len(),
{
    if rows.len() > 0 && !pred(rows[0]) {
        lemma_find_first_props(rows.skip(1), pred);
        match spec_find_first(rows.skip(1), pred) {
            Option::Some(i) => {
                assert(rows.skip(1)[i] == rows[i + 1]);
                assert forall|j: int| 0 <= j < i + 1 implies !pred(#[trigger] rows[j]) by {
                    if j > 0 {
                        assert(rows.skip(1)[j - 1] == rows[j]);
                    }
                }
            },
            Option::None => {
                assert forall|j: int| 0 <= j < rows.len() implies !pred(#[trigger] rows[j]) by {
                    if j > 0 {
                        assert(rows.skip(1)[j - 1] == rows[j]);
                    }
                }
            },
        }
    }
}

/// A position that matches, with nothing matching before it, is the first
/// match.
pub proof fn lemma_find_first_of<T>(rows: Seq<T>, pred: spec_fn(T) -> bool, i: int)
    requires
        0 <= i < rows.len(),
        pred(rows[i]),
        forall|j: int| 0 <= j < i ==> !pred(#[trigger] rows[j]),
    ensures
        spec_find_first(rows, pred) == Option::Some(i),
    decreases i,
{
    if i > 0 {
        assert(rows.skip(1)[i - 1] == rows[i]);
        assert forall|j: int| 0 <= j < i - 1 implies !pred(#[trigger] rows.skip(1)[j]) by {
            assert(rows.skip(1)[j] == rows[j + 1]);
        }
        lemma_find_first_of(rows.skip(1), pred, i - 1);
    }
}

/// When no row matches, the search yields nothing.
pub proof fn lemma_find_first_none<T>(rows: Seq<T>, pred: spec_fn(T) -> bool)
    requires
        forall|j: int| 0 <= j < rows.len() ==> !pred(#[trigger] rows[j]),
    ensures
        spec_find_first(rows, pred) is None,
{
    lemma_find_first_props(rows, pred);
}

} // verus!
