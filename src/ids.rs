use vstd::prelude::*;

verus! {

broadcast use vstd::array::group_array_axioms;

/// A participant's identity: 32 opaque bytes.
#[derive(Clone, Copy, Debug, Eq, Hash)]
pub struct UserId(pub [u8; 32]);

impl UserId {
    pub fn new(bytes: [u8; 32]) -> (r: UserId)
        ensures
            r.0 == bytes,
    {
        UserId(bytes)
    }

    pub fn as_bytes(&self) -> (r: [u8; 32])
        ensures
            r == self.0,
    {
        self.0
    }
}

impl PartialEq for UserId {
    fn eq(&self, other: &UserId) -> (r: bool)
        ensures
            r == (*self == *other),
    {
        let mut i: usize = 0;
        while i < 32
            invariant
                0 <= i <= 32,
                forall|j: int| 0 <= j < i ==> self.0[j] == other.0[j],
            decreases 32 - i,
        {
            if self.0[i] != other.0[i] {
                assert(self.0 != other.0);
                return false;
            }
            i = i + 1;
        }
        assert(self.0 =~= other.0);
        assert(self.0 == other.0);
        true
    }
}

impl vstd::std_specs::cmp::PartialEqSpecImpl for UserId {
    open spec fn obeys_eq_spec() -> bool {
        true
    }

    open spec fn eq_spec(&self, other: &UserId) -> bool {
        *self == *other
    }
}

} // verus!
