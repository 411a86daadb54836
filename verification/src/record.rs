//! The capability shared by the two kinds of address record.

use vstd::prelude::*;
use crate::address::{Address, Family};
use crate::source::{kept, Decoded, DecodeError, RecordSource, Section, Slot, A, AAAA};

verus! {

/// A record payload that holds a single IP address.
///
/// The extractor and the lookup are written once against this trait and
/// used with `A` for IPv4 and with `AAAA` for IPv6.
pub trait AddressRecord: Sized {
    /// The family of the addresses that records of this type hold.
    spec fn spec_family() -> Family;

    /// The address that this record holds.
    spec fn spec_address(&self) -> Address;

    fn family() -> (family: Family)
        ensures
            family == Self::spec_family(),
    ;

    /// The address of this record, in the form shared by both families.
    fn address(&self) -> (address: Address)
        ensures
            address == self.spec_address(),
            address.spec_family() == Self::spec_family(),
    ;

    /// Decodes record `index` of `section` of `source` as a record of this
    /// type.
    fn decode_at<S: RecordSource>(source: &mut S, section: Section, index: usize) -> (decoded:
        Decoded<Self>)
        ensures
            old(source).spec_slot(Self::spec_family(), section, index as int) == (match decoded {
                Decoded::Record(record) => Slot::Address(record.spec_address()),
                Decoded::WrongType => Slot::WrongType,
                Decoded::Failed(e) => Slot::Failed(e@),
            }),
            index >= old(source).spec_len(section) ==> *final(source) == *old(source),
            kept(*old(source), *final(source)),
    ;
}

impl<T: AddressRecord> Decoded<T> {
    /// The mathematical value of this decoding attempt.
    pub open spec fn slot(self) -> Slot {
        match self {
            Decoded::Record(record) => Slot::Address(record.spec_address()),
            Decoded::WrongType => Slot::WrongType,
            Decoded::Failed(e) => Slot::Failed(e@),
        }
    }

    /// What the extractor makes of a decoding attempt: a record of another
    /// type is passed over, anything else is handed on.
    pub open spec fn spec_into_item(self) -> Option<Result<T, DecodeError>> {
        match self {
            Decoded::Record(record) => Some(Ok(record)),
            Decoded::WrongType => None,
            Decoded::Failed(e) => Some(Err(e)),
        }
    }

    pub fn into_item(self) -> (item: Option<Result<T, DecodeError>>)
        ensures
            item == self.spec_into_item(),
            item is None <==> self.slot() is WrongType,
            item matches Some(found) ==> item_slot(found) == self.slot(),
    {
        match self {
            Decoded::Record(record) => Some(Ok(record)),
            Decoded::WrongType => None,
            Decoded::Failed(e) => Some(Err(e)),
        }
    }
}

/// The value of an item that the extractor hands on.
pub open spec fn item_slot<T: AddressRecord>(item: Result<T, DecodeError>) -> Slot {
    match item {
        Ok(record) => Slot::Address(record.spec_address()),
        Err(e) => Slot::Failed(e@),
    }
}

impl AddressRecord for A {
    open spec fn spec_family() -> Family {
        Family::V4
    }

    open spec fn spec_address(&self) -> Address {
        Address::V4(self.address)
    }

    fn family() -> (family: Family) {
        Family::V4
    }

    fn address(&self) -> (address: Address) {
        Address::V4(self.address)
    }

    fn decode_at<S: RecordSource>(source: &mut S, section: Section, index: usize) -> (decoded:
        Decoded<A>) {
        source.decode_a(section, index)
    }
}

impl AddressRecord for AAAA {
    open spec fn spec_family() -> Family {
        Family::V6
    }

    open spec fn spec_address(&self) -> Address {
        Address::V6(self.address)
    }

    fn family() -> (family: Family) {
        Family::V6
    }

    fn address(&self) -> (address: Address) {
        Address::V6(self.address)
    }

    fn decode_at<S: RecordSource>(source: &mut S, section: Section, index: usize) -> (decoded:
        Decoded<AAAA>) {
        source.decode_aaaa(section, index)
    }
}

} // verus!
