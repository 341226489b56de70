//! Collection of violations: every check walks its items, and each item
//! yields zero or more messages that are appended to the shared error log.
use crate::seqtools::cat;
use crate::seqtools::lemma_cat_map_take_step;
use crate::seqtools::lemma_views_push;
use crate::seqtools::views;
use vstd::prelude::*;

verus! {

/// The messages one item outcome contributes: none on success, one on
/// failure.
pub open spec fn outcome_msgs(outcome: Result<(), Seq<char>>) -> Seq<Seq<char>> {
    match outcome {
        Result::Ok(u) => Seq::empty(),
        Result::Err(m) => seq![m],
    }
}

/// Records one item's outcome in the error log: a failure becomes one
/// message, a success leaves the log as it is.
pub fn wrapper(outcome: Result<(), String>, errors: &mut Vec<String>)
    ensures
        views(final(errors)@) == views(old(errors)@) + outcome_msgs(
            match outcome {
                Result::Ok(u) => Result::Ok(u),
                Result::Err(m) => Result::Err(m@),
            },
        ),
{
    match outcome {
        Result::Ok(u) => {
            proof {
                assert(views(errors@) + Seq::<Seq<char>>::empty() =~= views(errors@));
            }
        },
        Result::Err(m) => {
            let ghost pre = errors@;
            let ghost mv = m@;
            errors.push(m);
            proof {
                lemma_views_push(pre, errors@.last());
                assert(views(pre).push(mv) =~= views(pre) + seq![mv]);
            }
        },
    }
}

/// One loop step of a check: after the step the log holds the base, the
/// messages of the items already walked, and the new item's messages.
pub proof fn lemma_step_emit<A>(
    base: Seq<Seq<char>>,
    s: Seq<A>,
    f: spec_fn(A) -> Seq<Seq<char>>,
    i: int,
    cur: Seq<Seq<char>>,
)
    requires
        0 <= i < s.len(),
        cur == base + cat(s.take(i).map_values(f)),
    ensures
        cur + f(s[i]) == base + cat(s.take(i + 1).map_values(f)),
{
    lemma_cat_map_take_step(s, f, i);
    assert(cur + f(s[i]) =~= base + (cat(s.take(i).map_values(f)) + f(s[i])));
}

/// Entering a check's loop: nothing is emitted yet.
pub proof fn lemma_step_zero<A>(base: Seq<Seq<char>>, s: Seq<A>, f: spec_fn(A) -> Seq<Seq<char>>)
    ensures
        base == base + cat(s.take(0).map_values(f)),
{
    assert(s.take(0).map_values(f) =~= Seq::<Seq<Seq<char>>>::empty());
    assert(base + cat(s.take(0).map_values(f)) =~= base);
}

} // verus!
