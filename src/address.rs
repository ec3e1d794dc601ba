use vstd::prelude::*;

verus! {

/// The kind of account an address names.
#[derive(Clone, Copy, Debug, PartialEq, Eq, Structural)]
pub enum AddressType {
    Account,
    SystemContract,
    PublicContract,
    ZkContract,
}

/// An account address: its kind and a 20-byte identifier.
#[derive(Clone, Copy, Debug)]
pub struct Address {
    pub address_type: AddressType,
    pub identifier: [u8; 20],
}

/// Whether two addresses are the same address.
pub fn same_address(a: &Address, b: &Address) -> (r: bool)
    ensures
        r == (*a == *b),
{
    broadcast use vstd::array::group_array_axioms;

    if a.address_type != b.address_type {
        return false;
    }
    let mut i: usize = 0;
    while i < 20
        invariant
            0 <= i <= 20,
            forall|j: int| 0 <= j < i ==> a.identifier[j] == b.identifier[j],
        decreases 20 - i,
    {
        if a.identifier[i] != b.identifier[i] {
            assert(a.identifier@[i as int] != b.identifier@[i as int]);
            return false;
        }
        i = i + 1;
    }
    assert(a.identifier =~= b.identifier);
    true
}

} // verus!
