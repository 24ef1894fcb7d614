use crate::identity::Identity;
use vstd::prelude::*;

verus! {

/// Names one in-flight mutating operation and its target.
pub enum OperationKey {
    Fund { agreement_id: String },
    Vote { agreement_id: String, milestone_id: u64, voter: Identity },
    Execute { agreement_id: String, milestone_id: u64 },
}

pub enum KeyView {
    Fund(Seq<char>),
    Vote(Seq<char>, u64, Seq<u8>),
    Execute(Seq<char>, u64),
}

impl View for OperationKey {
    type V = KeyView;

    open spec fn view(&self) -> KeyView {
        match self {
            OperationKey::Fund { agreement_id } => KeyView::Fund(agreement_id@),
            OperationKey::Vote { agreement_id, milestone_id, voter } => KeyView::Vote(
                agreement_id@,
                *milestone_id,
                voter@,
            ),
            OperationKey::Execute { agreement_id, milestone_id } => KeyView::Execute(
                agreement_id@,
                *milestone_id,
            ),
        }
    }
}

impl OperationKey {
    pub fn same_as(&self, other: &OperationKey) -> (r: bool)
        ensures
            r == (self@ == other@),
    {
        match (self, other) {
            (OperationKey::Fund { agreement_id: a }, OperationKey::Fund { agreement_id: b }) => *a
                == *b,
            (
                OperationKey::Vote { agreement_id: a, milestone_id: m, voter: v },
                OperationKey::Vote { agreement_id: b, milestone_id: n, voter: w },
            ) => *a == *b && *m == *n && v.same_as(w),
            (
                OperationKey::Execute { agreement_id: a, milestone_id: m },
                OperationKey::Execute { agreement_id: b, milestone_id: n },
            ) => *a == *b && *m == *n,
            _ => false,
        }
    }
}

/// The set of operations in flight: an operation enters only if no instance of it is
/// running, and leaves on every exit path.
pub struct ReentrancyGuard {
    pub keys: Vec<OperationKey>,
}

impl ReentrancyGuard {
    pub open spec fn held(&self) -> Set<KeyView> {
        Set::new(|v: KeyView| exists|i: int| 0 <= i < self.keys@.len() && (#[trigger] self.keys@[i])@ == v)
    }

    /// No key is held twice.
    pub open spec fn wf(&self) -> bool {
        forall|i: int, j: int|
            0 <= i < j < self.keys@.len() ==> (#[trigger] self.keys@[i])@ != (#[trigger] self.keys@[j])@
    }

    pub fn new() -> (r: ReentrancyGuard)
        ensures
            r.wf(),
            r.held() == Set::<KeyView>::empty(),
    {
        let r = ReentrancyGuard { keys: Vec::new() };
        assert(r.held() =~= Set::<KeyView>::empty());
        r
    }

    pub fn is_held(&self, key: &OperationKey) -> (r: bool)
        ensures
            r == self.held().contains(key@),
    {
        let mut i: usize = 0;
        while i < self.keys.len()
            invariant
                i <= self.keys@.len(),
                forall|k: int| 0 <= k < i ==> (#[trigger] self.keys@[k])@ != key@,
            decreases self.keys@.len() - i,
        {
            if self.keys[i].same_as(key) {
                return true;
            }
            i = i + 1;
        }
        false
    }

    /// Enters `key` if it is not held; says whether it did.
    pub fn acquire(&mut self, key: OperationKey) -> (r: bool)
        requires
            old(self).wf(),
        ensures
            final(self).wf(),
            r == !old(self).held().contains(key@),
            final(self).held() == old(self).held().insert(key@),
            !r ==> *final(self) == *old(self),
    {
        if self.is_held(&key) {
            assert(self.held().insert(key@) =~= self.held());
            return false;
        }
        let ghost before = self.held();
        let ghost kv = key@;
        self.keys.push(key);
        assert(self.held() =~= before.insert(kv)) by {
            assert(self.keys@[self.keys@.len() - 1]@ == kv);
            assert forall|v: KeyView| before.contains(v) implies self.held().contains(v) by {
                let i = choose|i: int| 0 <= i < old(self).keys@.len() && (#[trigger] old(self).keys@[i])@ == v;
                assert(self.keys@[i] == old(self).keys@[i]);
            }
            assert forall|v: KeyView| self.held().contains(v) implies before.insert(kv).contains(v) by {
                let i = choose|i: int| 0 <= i < self.keys@.len() && (#[trigger] self.keys@[i])@ == v;
                if i < old(self).keys@.len() {
                    assert(old(self).keys@[i] == self.keys@[i]);
                }
            }
        }
        true
    }

    /// Leaves `key`; nothing changes where it is not held.
    pub fn release(&mut self, key: &OperationKey)
        requires
            old(self).wf(),
        ensures
            final(self).wf(),
            final(self).held() == old(self).held().remove(key@),
    {
        let mut i: usize = 0;
        while i < self.keys.len()
            invariant
                i <= self.keys@.len(),
                self.keys@ == old(self).keys@,
                old(self).wf(),
                forall|k: int| 0 <= k < i ==> (#[trigger] self.keys@[k])@ != key@,
            decreases self.keys@.len() - i,
        {
            if self.keys[i].same_as(key) {
                let ghost before = self.keys@;
                self.keys.remove(i);
                assert(self.held() =~= old(self).held().remove(key@)) by {
                    assert forall|v: KeyView| self.held().contains(v) implies old(self).held().remove(key@).contains(v) by {
                        let j = choose|j: int| 0 <= j < self.keys@.len() && (#[trigger] self.keys@[j])@ == v;
                        if j < i {
                            assert(self.keys@[j] == before[j]);
                        } else {
                            assert(self.keys@[j] == before[j + 1]);
                            assert(before[i as int]@ != before[j + 1]@);
                        }
                    }
                    assert forall|v: KeyView| old(self).held().remove(key@).contains(v) implies self.held().contains(v) by {
                        let j = choose|j: int| 0 <= j < before.len() && (#[trigger] before[j])@ == v;
                        if j < i {
                            assert(self.keys@[j] == before[j]);
                        } else {
                            assert(j != i);
                            assert(self.keys@[j - 1] == before[j]);
                        }
                    }
                }
                assert forall|a: int, b: int| 0 <= a < b < self.keys@.len() implies (#[trigger] self.keys@[a])@ != (#[trigger] self.keys@[b])@ by {
                    let a2 = if a < i { a } else { a + 1 };
                    let b2 = if b < i { b } else { b + 1 };
                    assert(self.keys@[a] == before[a2]);
                    assert(self.keys@[b] == before[b2]);
                }
                return;
            }
            i = i + 1;
        }
        assert(!self.held().contains(key@));
        assert(self.held() =~= old(self).held().remove(key@));
    }
}

} // verus!
