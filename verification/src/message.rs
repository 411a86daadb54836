//! A response held in memory, record by record.

use vstd::prelude::*;
use crate::address::{Address, Family};
use crate::seal::ResponseSealed;
use crate::source::{Decoded, DecodeError, RecordSource, Section, Slot, A, AAAA};

verus! {

/// One record of a `Message`.
#[derive(Clone, Debug, PartialEq, Eq)]
pub enum RawRecord {
    /// An address record: an A record where the address is IPv4, an AAAA
    /// record where it is IPv6.
    Address(Address),
    /// A record of any other type.
    Other,
    /// A record that cannot be decoded, whatever it is read as, with the
    /// reason.
    Malformed(String),
}

impl RawRecord {
    /// The value of decoding this record as an address record of `family`.
    pub open spec fn decoded_as(self, family: Family) -> Slot {
        match self {
            RawRecord::Address(address) => if address.spec_family() == family {
                Slot::Address(address)
            } else {
                Slot::WrongType
            },
            RawRecord::Other => Slot::WrongType,
            RawRecord::Malformed(reason) => Slot::Failed(reason@),
        }
    }
}

/// What decoding says of an index at which a section has no record.
pub open spec fn no_such_record() -> Seq<char> {
    "no record at this index"@
}

/// A response whose sections are plain lists of records.
#[derive(Clone, Debug, PartialEq, Eq)]
pub struct Message {
    pub answer: Vec<RawRecord>,
    pub authority: Vec<RawRecord>,
    pub additional: Vec<RawRecord>,
}

impl Message {
    /// The records of `section`.
    pub open spec fn spec_records(&self, section: Section) -> Seq<RawRecord> {
        match section {
            Section::Answer => self.answer@,
            Section::Authority => self.authority@,
            Section::Additional => self.additional@,
        }
    }

    /// A message without records.
    pub fn new() -> (message: Message)
        ensures
            message.answer@ == Seq::<RawRecord>::empty(),
            message.authority@ == Seq::<RawRecord>::empty(),
            message.additional@ == Seq::<RawRecord>::empty(),
    {
        Message { answer: Vec::new(), authority: Vec::new(), additional: Vec::new() }
    }

    /// The records of `section`.
    pub fn records_of(&self, section: Section) -> (records: &Vec<RawRecord>)
        ensures
            records@ == self.spec_records(section),
    {
        match section {
            Section::Answer => &self.answer,
            Section::Authority => &self.authority,
            Section::Additional => &self.additional,
        }
    }
}

impl ResponseSealed for Message {

}

impl RecordSource for Message {
    open spec fn spec_len(&self, section: Section) -> nat {
        self.spec_records(section).len()
    }

    open spec fn spec_slot(&self, family: Family, section: Section, index: int) -> Slot {
        if 0 <= index < self.spec_records(section).len() {
            self.spec_records(section)[index].decoded_as(family)
        } else {
            Slot::Failed(no_such_record())
        }
    }

    /// A message is plain data: decoding reads it and changes nothing.
    open spec fn keeps_records(&self) -> bool {
        true
    }

    fn section_count(&self, section: Section) -> (count: usize) {
        self.records_of(section).len()
    }

    fn decode_a(&mut self, section: Section, index: usize) -> (decoded: Decoded<A>) {
        let records = self.records_of(section);
        if index < records.len() {
            match &records[index] {
                RawRecord::Address(Address::V4(bits)) => Decoded::Record(A { address: *bits }),
                RawRecord::Address(Address::V6(_)) => Decoded::WrongType,
                RawRecord::Other => Decoded::WrongType,
                RawRecord::Malformed(reason) => Decoded::Failed(
                    DecodeError { detail: reason.clone() },
                ),
            }
        } else {
            Decoded::Failed(DecodeError { detail: "no record at this index".to_owned() })
        }
    }

    fn decode_aaaa(&mut self, section: Section, index: usize) -> (decoded: Decoded<AAAA>) {
        let records = self.records_of(section);
        if index < records.len() {
            match &records[index] {
                RawRecord::Address(Address::V6(bits)) => Decoded::Record(AAAA { address: *bits }),
                RawRecord::Address(Address::V4(_)) => Decoded::WrongType,
                RawRecord::Other => Decoded::WrongType,
                RawRecord::Malformed(reason) => Decoded::Failed(
                    DecodeError { detail: reason.clone() },
                ),
            }
        } else {
            Decoded::Failed(DecodeError { detail: "no record at this index".to_owned() })
        }
    }
}

} // verus!
