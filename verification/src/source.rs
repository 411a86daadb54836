//! What the extractor needs of a parsed response: the number of records in a
//! section, and an attempt to decode the record at an index as an address
//! record of one family.

use vstd::prelude::*;
use crate::address::{Address, Family};
use crate::seal::ResponseSealed;

verus! {

/// The sections of a response that hold resource records.
#[derive(Clone, Copy, Debug, PartialEq, Eq, Hash, Structural)]
pub enum Section {
    Answer,
    Authority,
    Additional,
}

/// A record of the requested type that could not be decoded.
#[derive(Clone, Debug, PartialEq, Eq)]
pub struct DecodeError {
    /// The decoder's own account of what went wrong.
    pub detail: String,
}

impl View for DecodeError {
    type V = Seq<char>;

    open spec fn view(&self) -> Seq<char> {
        self.detail@
    }
}

/// The payload of an A record.
#[derive(Clone, Copy, Debug, PartialEq, Eq, Hash, Structural)]
pub struct A {
    /// The IPv4 address, as the integer its four bytes spell in network order.
    pub address: u32,
}

/// The payload of an AAAA record.
#[derive(Clone, Copy, Debug, PartialEq, Eq, Hash, Structural)]
pub struct AAAA {
    /// The IPv6 address, as the integer its sixteen bytes spell in network order.
    pub address: u128,
}

/// What an attempt to decode one record as a `T` came to.
#[derive(Clone, Debug, PartialEq, Eq)]
pub enum Decoded<T> {
    /// The record is a `T`, and this is its payload.
    Record(T),
    /// The record is of another type.
    WrongType,
    /// The record could not be decoded at all.
    Failed(DecodeError),
}

/// The mathematical value of a decoding attempt, whatever the family.
pub enum Slot {
    Address(Address),
    WrongType,
    Failed(Seq<char>),
}

/// The value of an attempt to decode a record as an A record.
pub open spec fn slot_of_a(decoded: Decoded<A>) -> Slot {
    match decoded {
        Decoded::Record(a) => Slot::Address(Address::V4(a.address)),
        Decoded::WrongType => Slot::WrongType,
        Decoded::Failed(e) => Slot::Failed(e@),
    }
}

/// The value of an attempt to decode a record as an AAAA record.
pub open spec fn slot_of_aaaa(decoded: Decoded<AAAA>) -> Slot {
    match decoded {
        Decoded::Record(aaaa) => Slot::Address(Address::V6(aaaa.address)),
        Decoded::WrongType => Slot::WrongType,
        Decoded::Failed(e) => Slot::Failed(e@),
    }
}

/// A parsed response, as the extractor sees it.
///
/// A source is a table: `spec_len` gives the number of records of each
/// section, `spec_slot` the value of decoding each of them as a record of
/// each family. Decoding takes the source mutably, and this trait does not
/// promise that a source holds the same table afterwards. It promises so of
/// a source that `keeps_records`; what is proved of a walk that decodes
/// more than one record is proved of such sources.
pub trait RecordSource: ResponseSealed + Sized {
    /// The number of records in `section`.
    spec fn spec_len(&self, section: Section) -> nat;

    /// The value of decoding record `index` of `section` as an address
    /// record of `family`.
    spec fn spec_slot(&self, family: Family, section: Section, index: int) -> Slot;

    /// Decoding a record of this source leaves it with the table it had,
    /// and leaves it a source of which this holds again.
    spec fn keeps_records(&self) -> bool;

    fn section_count(&self, section: Section) -> (count: usize)
        ensures
            count == self.spec_len(section),
    ;

    /// Decodes record `index` of `section` as an A record.
    fn decode_a(&mut self, section: Section, index: usize) -> (decoded: Decoded<A>)
        ensures
            slot_of_a(decoded) == old(self).spec_slot(Family::V4, section, index as int),
            index >= old(self).spec_len(section) ==> *final(self) == *old(self),
            old(self).keeps_records() ==> final(self).keeps_records(),
            old(self).keeps_records() ==> forall|s: Section|
                final(self).spec_len(s) == #[trigger] old(self).spec_len(s),
            old(self).keeps_records() ==> forall|f: Family, s: Section, i: int|
                final(self).spec_slot(f, s, i) == #[trigger] old(self).spec_slot(f, s, i),
    ;

    /// Decodes record `index` of `section` as an AAAA record.
    fn decode_aaaa(&mut self, section: Section, index: usize) -> (decoded: Decoded<AAAA>)
        ensures
            slot_of_aaaa(decoded) == old(self).spec_slot(Family::V6, section, index as int),
            index >= old(self).spec_len(section) ==> *final(self) == *old(self),
            old(self).keeps_records() ==> final(self).keeps_records(),
            old(self).keeps_records() ==> forall|s: Section|
                final(self).spec_len(s) == #[trigger] old(self).spec_len(s),
            old(self).keeps_records() ==> forall|f: Family, s: Section, i: int|
                final(self).spec_slot(f, s, i) == #[trigger] old(self).spec_slot(f, s, i),
    ;
}

/// `after` holds the table that `before` held.
pub open spec fn same_records<S: RecordSource>(before: S, after: S) -> bool {
    &&& forall|s: Section| after.spec_len(s) == #[trigger] before.spec_len(s)
    &&& forall|f: Family, s: Section, i: int|
        after.spec_slot(f, s, i) == #[trigger] before.spec_slot(f, s, i)
}

/// `after` is what a source that keeps its records may have become of
/// `before`: if `before` keeps its records, `after` holds the same table
/// and keeps its records too.
pub open spec fn kept<S: RecordSource>(before: S, after: S) -> bool {
    before.keeps_records() ==> same_records(before, after) && after.keeps_records()
}

} // verus!
