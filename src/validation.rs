use crate::identity::Identity;
use crate::types::{InputProblem, Milestone};
use vstd::prelude::*;

verus! {

/// The length of a string in bytes, as UTF-8 encodes it.
pub open spec fn byte_len(s: Seq<char>) -> nat {
    vstd::utf8::encode_utf8(s).len()
}

pub open spec fn amount_sum(ms: Seq<Milestone>) -> int
    decreases ms.len(),
{
    if ms.len() == 0 {
        0
    } else {
        amount_sum(ms.drop_last()) + ms.last().amount as int
    }
}

/// The first problem met when the milestones are checked in order: a repeated id, a zero
/// amount, or a running total that no longer fits in a `u128`.
pub open spec fn milestone_problem(ms: Seq<Milestone>) -> Option<InputProblem>
    decreases ms.len(),
{
    if ms.len() == 0 {
        None
    } else {
        match milestone_problem(ms.drop_last()) {
            Some(p) => Some(p),
            None => {
                let m = ms.last();
                if exists|k: int| 0 <= k < ms.len() - 1 && (#[trigger] ms[k]).id == m.id {
                    Some(InputProblem::DuplicateMilestoneId(m.id))
                } else if m.amount == 0 {
                    Some(InputProblem::ZeroAmount)
                } else if amount_sum(ms) > u128::MAX {
                    Some(InputProblem::TotalAmountOverflow)
                } else {
                    None
                }
            },
        }
    }
}

/// What is wrong with the inputs of an agreement, judged without the store, in the order
/// the checks are made.
pub open spec fn creation_problem(
    id: Seq<char>,
    title: Seq<char>,
    description: Seq<char>,
    participants: Seq<Identity>,
    milestones: Seq<Milestone>,
    threshold: u8,
) -> Option<InputProblem> {
    if id.len() == 0 || title.len() == 0 {
        Some(InputProblem::EmptyIdOrTitle)
    } else if byte_len(id) > 256 {
        Some(InputProblem::IdTooLong)
    } else if byte_len(title) > 256 {
        Some(InputProblem::TitleTooLong)
    } else if byte_len(description) > 1024 {
        Some(InputProblem::DescriptionTooLong)
    } else if threshold < 50 || threshold > 100 {
        Some(InputProblem::ThresholdOutOfRange)
    } else if milestones.len() == 0 {
        Some(InputProblem::NoMilestones)
    } else if milestones.len() > 100 {
        Some(InputProblem::TooManyMilestones)
    } else if participants.len() > 50 {
        Some(InputProblem::TooManyParticipants)
    } else {
        milestone_problem(milestones)
    }
}

/// Milestones that pass the checks have distinct ids, non-zero amounts and a total that
/// fits in a `u128`; milestones whose total does not fit never pass.
pub proof fn lemma_accepted_milestones(ms: Seq<Milestone>)
    ensures
        milestone_problem(ms) is None ==> {
            &&& amount_sum(ms) <= u128::MAX
            &&& forall|i: int, j: int| 0 <= i < j < ms.len() ==> ms[i].id != ms[j].id
            &&& forall|i: int| 0 <= i < ms.len() ==> (#[trigger] ms[i]).amount != 0
        },
        amount_sum(ms) > u128::MAX ==> milestone_problem(ms) is Some,
    decreases ms.len(),
{
    if ms.len() > 0 {
        lemma_accepted_milestones(ms.drop_last());
        if milestone_problem(ms) is None {
            assert forall|i: int, j: int| 0 <= i < j < ms.len() implies ms[i].id != ms[j].id by {
                if j == ms.len() - 1 {
                    assert(ms[i] == ms.drop_last()[i] || true);
                    if ms[i].id == ms[j].id {
                        assert(0 <= i < ms.len() - 1 && ms[i].id == ms.last().id);
                    }
                } else {
                    assert(ms[i] == ms.drop_last()[i]);
                    assert(ms[j] == ms.drop_last()[j]);
                }
            }
            assert forall|i: int| 0 <= i < ms.len() implies (#[trigger] ms[i]).amount != 0 by {
                if i < ms.len() - 1 {
                    assert(ms[i] == ms.drop_last()[i]);
                }
            }
        }
    }
}

/// Checks the milestones in order; returns their total amount when none has a problem.
pub fn check_milestones(ms: &Vec<Milestone>) -> (r: Result<u128, InputProblem>)
    ensures
        match milestone_problem(ms@) {
            Some(p) => r == Err::<u128, InputProblem>(p),
            None => r == Ok::<u128, InputProblem>(amount_sum(ms@) as u128),
        },
{
    let mut total: u128 = 0;
    let mut i: usize = 0;
    while i < ms.len()
        invariant
            i <= ms@.len(),
            milestone_problem(ms@.subrange(0, i as int)) is None,
            total == amount_sum(ms@.subrange(0, i as int)),
        decreases ms@.len() - i,
    {
        let ghost prefix = ms@.subrange(0, i as int + 1);
        assert(prefix.drop_last() =~= ms@.subrange(0, i as int));
        assert(prefix.last() == ms@[i as int]);
        let mut k: usize = 0;
        while k < i
            invariant
                k <= i < ms@.len(),
                prefix == ms@.subrange(0, i as int + 1),
                prefix.drop_last() == ms@.subrange(0, i as int),
                milestone_problem(ms@.subrange(0, i as int)) is None,
                forall|q: int| 0 <= q < k ==> ms@[q].id != ms@[i as int].id,
            decreases i - k,
        {
            if ms[k].id == ms[i].id {
                assert(prefix[k as int].id == prefix.last().id);
                assert(milestone_problem(prefix) == Some(InputProblem::DuplicateMilestoneId(ms@[i as int].id)));
                proof {
                    lemma_problem_prefix(ms@, i as int + 1);
                }
                return Err(InputProblem::DuplicateMilestoneId(ms[i].id));
            }
            k = k + 1;
        }
        assert(!exists|q: int| 0 <= q < prefix.len() - 1 && (#[trigger] prefix[q]).id == prefix.last().id) by {
            assert forall|q: int| 0 <= q < prefix.len() - 1 implies (#[trigger] prefix[q]).id != prefix.last().id by {
                assert(prefix[q] == ms@[q]);
            }
        }
        if ms[i].amount == 0 {
            proof {
                lemma_problem_prefix(ms@, i as int + 1);
            }
            return Err(InputProblem::ZeroAmount);
        }
        match total.checked_add(ms[i].amount) {
            Some(t) => {
                total = t;
            },
            None => {
                proof {
                    lemma_problem_prefix(ms@, i as int + 1);
                }
                return Err(InputProblem::TotalAmountOverflow);
            },
        }
        i = i + 1;
    }
    assert(ms@.subrange(0, ms@.len() as int) =~= ms@);
    Ok(total)
}

/// A problem found in a prefix is the problem of the whole sequence.
proof fn lemma_problem_prefix(ms: Seq<Milestone>, n: int)
    requires
        0 <= n <= ms.len(),
        milestone_problem(ms.subrange(0, n)) is Some,
    ensures
        milestone_problem(ms) == milestone_problem(ms.subrange(0, n)),
    decreases ms.len() - n,
{
    if n == ms.len() {
        assert(ms.subrange(0, n) =~= ms);
    } else {
        assert(ms.subrange(0, n + 1).drop_last() =~= ms.subrange(0, n));
        lemma_problem_prefix(ms, n + 1);
    }
}

} // verus!
