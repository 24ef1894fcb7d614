use vstd::prelude::*;

verus! {

/// The anonymous principal is the single tag byte 4.
pub open spec fn anonymous_bytes() -> Seq<u8> {
    seq![4u8]
}

/// Relies on candid's `Principal::anonymous` and `Principal::as_slice`:
/// the anonymous principal is made of the one byte 4.
#[verifier::external_body]
fn anonymous_principal_bytes() -> (r: Vec<u8>)
    ensures
        r@ == anonymous_bytes(),
{
    candid::Principal::anonymous().as_slice().to_vec()
}

/// A participant's identity: the bytes of its principal.
pub struct Identity {
    pub bytes: Vec<u8>,
}

impl View for Identity {
    type V = Seq<u8>;

    open spec fn view(&self) -> Seq<u8> {
        self.bytes@
    }
}

impl Clone for Identity {
    fn clone(&self) -> (r: Self)
        ensures
            r@ == self@,
    {
        let bytes = self.bytes.clone();
        assert(bytes@ =~= self.bytes@);
        Identity { bytes }
    }
}

impl Identity {
    pub fn from_bytes(bytes: Vec<u8>) -> (r: Identity)
        ensures
            r@ == bytes@,
    {
        Identity { bytes }
    }

    /// The anonymous caller, which may never take part in an agreement.
    pub fn anonymous() -> (r: Identity)
        ensures
            r@ == anonymous_bytes(),
    {
        Identity { bytes: anonymous_principal_bytes() }
    }

    pub fn same_as(&self, other: &Identity) -> (r: bool)
        ensures
            r == (self@ == other@),
    {
        if self.bytes.len() != other.bytes.len() {
            return false;
        }
        let mut i: usize = 0;
        while i < self.bytes.len()
            invariant
                i <= self.bytes@.len(),
                self.bytes@.len() == other.bytes@.len(),
                forall|k: int| 0 <= k < i ==> self.bytes@[k] == other.bytes@[k],
            decreases self.bytes@.len() - i,
        {
            if self.bytes[i] != other.bytes[i] {
                return false;
            }
            i = i + 1;
        }
        assert(self.bytes@ =~= other.bytes@);
        true
    }

    pub fn is_anonymous(&self) -> (r: bool)
        ensures
            r == (self@ == anonymous_bytes()),
    {
        let anon = Identity::anonymous();
        self.same_as(&anon)
    }
}

/// The identities that a list holds, as a set.
pub open spec fn identity_set(s: Seq<Identity>) -> Set<Seq<u8>> {
    Set::new(|b: Seq<u8>| exists|i: int| 0 <= i < s.len() && s[i]@ == b)
}

/// Whether some identity of the list is `who`.
pub open spec fn lists_identity(s: Seq<Identity>, who: Seq<u8>) -> bool {
    exists|i: int| 0 <= i < s.len() && s[i]@ == who
}

/// No identity occurs twice.
pub open spec fn identities_distinct(s: Seq<Identity>) -> bool {
    forall|i: int, j: int| 0 <= i < j < s.len() ==> s[i]@ != s[j]@
}

pub fn contains_identity(s: &Vec<Identity>, who: &Identity) -> (r: bool)
    ensures
        r == lists_identity(s@, who@),
{
    let mut i: usize = 0;
    while i < s.len()
        invariant
            i <= s@.len(),
            forall|k: int| 0 <= k < i ==> s@[k]@ != who@,
        decreases s@.len() - i,
    {
        if s[i].same_as(who) {
            return true;
        }
        i = i + 1;
    }
    false
}

/// Adds `who` to the list unless it is there already; says whether it was added.
pub fn insert_identity(s: &mut Vec<Identity>, who: &Identity) -> (r: bool)
    ensures
        r == !lists_identity(old(s)@, who@),
        identity_set(final(s)@) == identity_set(old(s)@).insert(who@),
        identities_distinct(old(s)@) ==> identities_distinct(final(s)@),
        r ==> final(s)@.len() == old(s)@.len() + 1,
        !r ==> final(s)@ == old(s)@,
        forall|i: int| 0 <= i < old(s)@.len() ==> (#[trigger] final(s)@[i]) == old(s)@[i],
        r ==> final(s)@[old(s)@.len() as int]@ == who@,
{
    if contains_identity(s, who) {
        assert(identity_set(s@) =~= identity_set(s@).insert(who@));
        return false;
    }
    let ghost before = s@;
    s.push(who.clone());
    assert(identity_set(s@) =~= identity_set(before).insert(who@)) by {
        assert(s@[before.len() as int]@ == who@);
        assert forall|b: Seq<u8>| identity_set(before).contains(b) implies identity_set(s@).contains(b) by {
            let i = choose|i: int| 0 <= i < before.len() && before[i]@ == b;
            assert(s@[i] == before[i]);
        }
        assert forall|b: Seq<u8>| identity_set(s@).contains(b) implies identity_set(before).insert(who@).contains(b) by {
            let i = choose|i: int| 0 <= i < s@.len() && s@[i]@ == b;
            if i < before.len() {
                assert(s@[i] == before[i]);
            }
        }
    }
    true
}

/// Whether every identity of `a` is also in `b`.
pub fn all_listed_in(a: &Vec<Identity>, b: &Vec<Identity>) -> (r: bool)
    ensures
        r == identity_set(a@).subset_of(identity_set(b@)),
{
    let mut i: usize = 0;
    while i < a.len()
        invariant
            i <= a@.len(),
            forall|k: int| 0 <= k < i ==> lists_identity(b@, (#[trigger] a@[k])@),
        decreases a@.len() - i,
    {
        if !contains_identity(b, &a[i]) {
            assert(identity_set(a@).contains(a@[i as int]@));
            assert(!identity_set(b@).contains(a@[i as int]@));
            return false;
        }
        i = i + 1;
    }
    assert forall|x: Seq<u8>| identity_set(a@).contains(x) implies identity_set(b@).contains(x) by {
        let k = choose|k: int| 0 <= k < a@.len() && a@[k]@ == x;
        assert(lists_identity(b@, a@[k]@));
    }
    true
}

} // verus!
