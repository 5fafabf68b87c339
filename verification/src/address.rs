//! The address of a remote peer: a name plus a device id.
use vstd::prelude::*;

verus! {

#[derive(Debug)]
pub struct ProtocolAddress {
    pub name: String,
    pub device_id: u32,
}

/// Abstract value of an address.
#[verifier::ext_equal]
pub ghost struct AddressValue {
    pub name: Seq<char>,
    pub device_id: u32,
}

impl View for ProtocolAddress {
    type V = AddressValue;

    open spec fn view(&self) -> AddressValue {
        AddressValue { name: self.name@, device_id: self.device_id }
    }
}

impl ProtocolAddress {
    pub fn new(name: String, device_id: u32) -> (r: ProtocolAddress)
        ensures
            r@ == (AddressValue { name: name@, device_id }),
    {
        ProtocolAddress { name, device_id }
    }
}

impl Clone for ProtocolAddress {
    fn clone(&self) -> (r: Self)
        ensures
            r == *self,
    {
        ProtocolAddress { name: self.name.clone(), device_id: self.device_id }
    }
}

impl PartialEq for ProtocolAddress {
    fn eq(&self, other: &Self) -> (r: bool) {
        self.name == other.name && self.device_id == other.device_id
    }
}

impl vstd::std_specs::cmp::PartialEqSpecImpl for ProtocolAddress {
    open spec fn obeys_eq_spec() -> bool {
        true
    }

    open spec fn eq_spec(&self, other: &Self) -> bool {
        self@ == other@
    }
}

} // verus!
