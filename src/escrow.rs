use vstd::prelude::*;

verus! {

/// An amount taken out of an agreement's balance while its transfer is in flight.
pub struct Reservation {
    pub agreement_id: String,
    pub milestone_id: u64,
    pub amount: u128,
}

/// The sum of the amounts reserved against agreement `id`.
pub open spec fn reserved_for(rs: Seq<Reservation>, id: Seq<char>) -> int
    decreases rs.len(),
{
    if rs.len() == 0 {
        0
    } else {
        reserved_for(rs.drop_last(), id) + if rs.last().agreement_id@ == id {
            rs.last().amount as int
        } else {
            0
        }
    }
}

pub proof fn lemma_reserved_push(rs: Seq<Reservation>, r: Reservation, id: Seq<char>)
    ensures
        reserved_for(rs.push(r), id) == reserved_for(rs, id) + if r.agreement_id@ == id {
            r.amount as int
        } else {
            0
        },
{
    assert(rs.push(r).drop_last() =~= rs);
}

pub proof fn lemma_reserved_nonneg(rs: Seq<Reservation>, id: Seq<char>)
    ensures
        reserved_for(rs, id) >= 0,
    decreases rs.len(),
{
    if rs.len() > 0 {
        lemma_reserved_nonneg(rs.drop_last(), id);
    }
}

pub proof fn lemma_reserved_remove(rs: Seq<Reservation>, k: int, id: Seq<char>)
    requires
        0 <= k < rs.len(),
    ensures
        reserved_for(rs.remove(k), id) == reserved_for(rs, id) - if rs[k].agreement_id@ == id {
            rs[k].amount as int
        } else {
            0
        },
    decreases rs.len(),
{
    if k == rs.len() - 1 {
        assert(rs.remove(k) =~= rs.drop_last());
    } else {
        lemma_reserved_remove(rs.drop_last(), k, id);
        assert(rs.remove(k).drop_last() =~= rs.drop_last().remove(k));
        assert(rs.remove(k).last() == rs.last());
    }
}

pub proof fn lemma_reserved_prefix(rs: Seq<Reservation>, i: int, id: Seq<char>)
    requires
        0 <= i <= rs.len(),
    ensures
        reserved_for(rs.subrange(0, i), id) <= reserved_for(rs, id),
    decreases rs.len() - i,
{
    if i == rs.len() {
        assert(rs.subrange(0, i) =~= rs);
    } else {
        lemma_reserved_prefix(rs, i + 1, id);
        assert(rs.subrange(0, i + 1).drop_last() =~= rs.subrange(0, i));
    }
}

pub proof fn lemma_reserved_zero(rs: Seq<Reservation>, id: Seq<char>)
    requires
        forall|k: int| 0 <= k < rs.len() ==> (#[trigger] rs[k]).agreement_id@ != id,
    ensures
        reserved_for(rs, id) == 0,
    decreases rs.len(),
{
    if rs.len() > 0 {
        assert forall|k: int| 0 <= k < rs.drop_last().len() implies (#[trigger] rs.drop_last()[k]).agreement_id@ != id by {
            assert(rs.drop_last()[k] == rs[k]);
        }
        lemma_reserved_zero(rs.drop_last(), id);
    }
}

/// The total reserved against agreement `id`.
pub fn reserved_total(rs: &Vec<Reservation>, id: &String) -> (r: u128)
    requires
        reserved_for(rs@, id@) <= u128::MAX,
    ensures
        r == reserved_for(rs@, id@),
{
    let mut total: u128 = 0;
    let mut i: usize = 0;
    while i < rs.len()
        invariant
            i <= rs@.len(),
            reserved_for(rs@, id@) <= u128::MAX,
            total == reserved_for(rs@.subrange(0, i as int), id@),
        decreases rs@.len() - i,
    {
        proof {
            lemma_reserved_prefix(rs@, i + 1, id@);
            assert(rs@.subrange(0, i + 1).drop_last() =~= rs@.subrange(0, i as int));
        }
        if rs[i].agreement_id == *id {
            total = total + rs[i].amount;
        }
        i = i + 1;
    }
    assert(rs@.subrange(0, rs@.len() as int) =~= rs@);
    total
}

} // verus!
