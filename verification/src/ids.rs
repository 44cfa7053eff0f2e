//! Thirty-two byte identifiers.
use vstd::prelude::*;
use vstd::std_specs::cmp::PartialEqSpec;

verus! {

/// Tells whether two hashes are the same.
fn same_hash(a: &[u8; 32], b: &[u8; 32]) -> (same: bool)
    ensures
        same == (*a == *b),
{
    let mut i: usize = 0;
    while i < 32
        invariant
            i <= 32,
            forall|j: int| 0 <= j < i ==> a[j] == b[j],
        decreases 32 - i,
    {
        if a[i] != b[i] {
            return false;
        }
        i = i + 1;
    }
    assert(*a =~= *b);
    true
}

/// Identifier of a contract operation: the hash the operation commits to.
#[derive(Clone, Copy, Eq, PartialOrd, Ord, Hash, Debug)]
pub struct OpId(pub [u8; 32]);

impl PartialEq for OpId {
    fn eq(&self, other: &Self) -> (same: bool) {
        same_hash(&self.0, &other.0)
    }
}

impl vstd::std_specs::cmp::PartialEqSpecImpl for OpId {
    open spec fn obeys_eq_spec() -> bool {
        true
    }

    open spec fn eq_spec(&self, other: &Self) -> bool {
        *self == *other
    }
}

/// Identifier of a contract.
#[derive(Clone, Copy, Eq, PartialOrd, Ord, Hash, Debug)]
pub struct ContractId(pub [u8; 32]);

impl PartialEq for ContractId {
    fn eq(&self, other: &Self) -> (same: bool) {
        same_hash(&self.0, &other.0)
    }
}

impl vstd::std_specs::cmp::PartialEqSpecImpl for ContractId {
    open spec fn obeys_eq_spec() -> bool {
        true
    }

    open spec fn eq_spec(&self, other: &Self) -> bool {
        *self == *other
    }
}

/// Identifier of a contract schema.
#[derive(Clone, Copy, Eq, PartialOrd, Ord, Hash, Debug)]
pub struct SchemaId(pub [u8; 32]);

impl PartialEq for SchemaId {
    fn eq(&self, other: &Self) -> (same: bool) {
        same_hash(&self.0, &other.0)
    }
}

impl vstd::std_specs::cmp::PartialEqSpecImpl for SchemaId {
    open spec fn obeys_eq_spec() -> bool {
        true
    }

    open spec fn eq_spec(&self, other: &Self) -> bool {
        *self == *other
    }
}

/// Identifier of a bundle of state transitions anchored together.
#[derive(Clone, Copy, Eq, PartialOrd, Ord, Hash, Debug)]
pub struct BundleId(pub [u8; 32]);

impl PartialEq for BundleId {
    fn eq(&self, other: &Self) -> (same: bool) {
        same_hash(&self.0, &other.0)
    }
}

impl vstd::std_specs::cmp::PartialEqSpecImpl for BundleId {
    open spec fn obeys_eq_spec() -> bool {
        true
    }

    open spec fn eq_spec(&self, other: &Self) -> bool {
        *self == *other
    }
}

/// Concealed form of a single-use seal: the hash of its definition.
#[derive(Clone, Copy, Eq, PartialOrd, Ord, Hash, Debug)]
pub struct SecretSeal(pub [u8; 32]);

impl PartialEq for SecretSeal {
    fn eq(&self, other: &Self) -> (same: bool) {
        same_hash(&self.0, &other.0)
    }
}

impl vstd::std_specs::cmp::PartialEqSpecImpl for SecretSeal {
    open spec fn obeys_eq_spec() -> bool {
        true
    }

    open spec fn eq_spec(&self, other: &Self) -> bool {
        *self == *other
    }
}

/// Identifier of a bitcoin transaction, in the byte order of the hash.
#[derive(Clone, Copy, Eq, PartialOrd, Ord, Hash, Debug)]
pub struct Txid(pub [u8; 32]);

impl PartialEq for Txid {
    fn eq(&self, other: &Self) -> (same: bool) {
        same_hash(&self.0, &other.0)
    }
}

impl vstd::std_specs::cmp::PartialEqSpecImpl for Txid {
    open spec fn obeys_eq_spec() -> bool {
        true
    }

    open spec fn eq_spec(&self, other: &Self) -> bool {
        *self == *other
    }
}

/// Two identifiers of one kind are the same just where all their bytes are.
pub proof fn identifiers_same_iff(a: [u8; 32], b: [u8; 32])
    ensures
        OpId(a).eq_spec(&OpId(b)) <==> a@ == b@,
        ContractId(a).eq_spec(&ContractId(b)) <==> a@ == b@,
        SchemaId(a).eq_spec(&SchemaId(b)) <==> a@ == b@,
        BundleId(a).eq_spec(&BundleId(b)) <==> a@ == b@,
        SecretSeal(a).eq_spec(&SecretSeal(b)) <==> a@ == b@,
        Txid(a).eq_spec(&Txid(b)) <==> a@ == b@,
{
    if a@ == b@ {
        assert(a =~= b);
    }
}

} // verus!
