//! Putting together what the workers bring back.
//!
//! The workers are asked in their order, and their answers are put end to
//! end in that order, whichever of them ended first. If one of them brings
//! nothing back, nothing is returned but the failure.

use crate::Error;
use vstd::prelude::*;

verus! {

/// The answers of the workers, each as the sequence it holds.
pub open spec fn answers_of<T>(answers: Seq<Option<Vec<T>>>) -> Seq<Seq<T>> {
    answers.map_values(|answer: Option<Vec<T>>| answer->0@)
}

/// Whether every worker brought an answer back.
pub open spec fn all_came_back<T>(answers: Seq<Option<Vec<T>>>) -> bool {
    forall|i: int| 0 <= i < answers.len() ==> (#[trigger] answers[i]) is Some
}

/// What the workers found, put end to end in the order of the workers;
/// `answers` holds for each worker what it brought back, or nothing where
/// it failed.
///
/// Fails with [`Error::Join`] where a worker failed, and only then.
pub fn gather<T>(answers: Vec<Option<Vec<T>>>) -> (gathered: Result<Vec<T>, Error>)
    ensures
        match gathered {
            Ok(all) => all_came_back(answers@) && all@ == answers_of(answers@).flatten(),
            Err(e) => !all_came_back(answers@) && e == Error::Join,
        },
{
    let mut left = answers;
    let mut all: Vec<T> = Vec::new();
    let mut failed = false;
    let ghost given = answers@;
    let ghost mut taken: int = 0;
    proof {
        assert(given.take(0) =~= Seq::empty());
    }
    while left.len() > 0
        invariant
            given == answers@,
            0 <= taken <= given.len(),
            left@ == given.skip(taken),
            failed == !all_came_back(given.take(taken)),
            !failed ==> all@ == answers_of(given.take(taken)).flatten(),
        decreases left.len(),
    {
        let answer = left.remove(0);
        proof {
            let seen = given.take(taken);
            assert(given.take(taken + 1) =~= seen.push(given[taken]));
            assert(given.take(taken + 1)[taken] == given[taken]);
            if all_came_back(given.take(taken + 1)) {
                assert forall|i: int| 0 <= i < seen.len() implies (#[trigger] seen[i]) is Some by {}
            }
            if all_came_back(seen) && given[taken] is Some {
                assert forall|i: int| 0 <= i < taken + 1 implies (#[trigger] given.take(
                    taken + 1,
                )[i]) is Some by {}
            }
            seen.lemma_push_map_commute(|answer: Option<Vec<T>>| answer->0@, given[taken]);
            answers_of(seen).lemma_flatten_push(given[taken]->0@);
        }
        match answer {
            Some(mut found) => {
                all.append(&mut found);
            },
            None => {
                failed = true;
            },
        }
        proof {
            taken = taken + 1;
        }
    }
    if failed {
        Err(Error::Join)
    } else {
        Ok(all)
    }
}

} // verus!
