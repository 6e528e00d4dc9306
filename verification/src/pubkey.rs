use vstd::prelude::*;

verus! {

/// A 32-byte account address.
#[derive(Clone, Copy, Debug)]
pub struct Pubkey {
    pub bytes: [u8; 32],
}

impl Pubkey {
    /// The all-zero address, used to mark an empty slot.
    pub open spec fn is_default(self) -> bool {
        forall|i: int| 0 <= i < 32 ==> #[trigger] self.bytes[i] == 0
    }

    pub fn new_from_array(bytes: [u8; 32]) -> (k: Pubkey)
        ensures
            k.bytes == bytes,
    {
        Pubkey { bytes }
    }

    pub fn to_bytes(&self) -> (b: [u8; 32])
        ensures
            b == self.bytes,
    {
        self.bytes
    }

    pub fn is_default_key(&self) -> (r: bool)
        ensures
            r == self.is_default(),
    {
        let mut i: usize = 0;
        while i < 32
            invariant
                0 <= i <= 32,
                forall|j: int| 0 <= j < i ==> self.bytes[j] == 0,
            decreases 32 - i,
        {
            if self.bytes[i] != 0 {
                return false;
            }
            i = i + 1;
        }
        true
    }
}

/// The all-zero address.
pub open spec fn empty_key() -> Pubkey {
    Pubkey { bytes: vstd::array::spec_array_fill_for_copy_type::<u8, 32>(0u8) }
}

/// The all-zero address is the empty one, and it is the only one.
pub proof fn lemma_empty_key(k: Pubkey)
    ensures
        empty_key().is_default(),
        k.is_default() <==> k == empty_key(),
{
    broadcast use vstd::array::axiom_spec_array_fill_for_copy_type;

    assert(empty_key().bytes@[0] == 0);
    assert forall|i: int| 0 <= i < 32 implies #[trigger] empty_key().bytes[i] == 0 by {
        assert(empty_key().bytes@[i] == 0);
    }
    if k.is_default() {
        lemma_default_unique(k, empty_key());
    }
}

/// Any two all-zero addresses are the same address.
pub proof fn lemma_default_unique(a: Pubkey, b: Pubkey)
    requires
        a.is_default(),
        b.is_default(),
    ensures
        a == b,
{
    assert(a.bytes =~= b.bytes);
}

impl Default for Pubkey {
    fn default() -> (k: Pubkey)
        ensures
            k.is_default(),
            k == empty_key(),
    {
        let k = Pubkey { bytes: [0u8; 32] };
        proof {
            lemma_empty_key(k);
        }
        k
    }
}

impl PartialEq for Pubkey {
    fn eq(&self, other: &Pubkey) -> (r: bool) {
        let mut i: usize = 0;
        while i < 32
            invariant
                0 <= i <= 32,
                forall|j: int| 0 <= j < i ==> self.bytes[j] == other.bytes[j],
            decreases 32 - i,
        {
            if self.bytes[i] != other.bytes[i] {
                return false;
            }
            i = i + 1;
        }
        assert(self.bytes =~= other.bytes);
        true
    }
}

impl Eq for Pubkey {}

impl vstd::std_specs::cmp::PartialEqSpecImpl for Pubkey {
    open spec fn obeys_eq_spec() -> bool {
        true
    }

    open spec fn eq_spec(&self, other: &Pubkey) -> bool {
        *self == *other
    }
}

}
