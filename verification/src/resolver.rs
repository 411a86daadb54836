//! The resolver's own types, and what this crate takes on trust of them.
//!
//! Everything that calls into the resolver library stands in this file. The
//! functions marked `external_body` are believed, not proved: each says in
//! its comment which function of the library it calls and what it claims.

use vstd::prelude::*;
use resolv::error::{Error, ResolutionError};
use resolv::Response;
use crate::address::Family;
use crate::outcome::{FailureValue, LookupFailure};
use crate::seal::ResponseSealed;
use crate::source::{slot_of_a, slot_of_aaaa, Decoded, DecodeError, RecordSource, Section, Slot, A, AAAA};

verus! {

/// A response of the resolver: `resolv::Response`. Nothing inside it is
/// visible here.
#[verifier::external_type_specification]
#[verifier::external_body]
pub struct ExResponse(resolv::Response);

/// An error of the resolver: `resolv::error::Error`. Nothing inside it is
/// visible here.
#[verifier::external_type_specification]
#[verifier::external_body]
pub struct ExError(resolv::error::Error);

/// The number of records that `response` holds in `section`: what
/// `Response::get_section_count` returns.
pub uninterp spec fn section_len(response: Response, section: Section) -> nat;

/// What reading record `index` of `section` of `response` as an A record
/// comes to: what `Response::get_record::<A>` returns.
pub uninterp spec fn record_as_a(response: Response, section: Section, index: int) -> Slot;

/// What reading record `index` of `section` of `response` as an AAAA record
/// comes to: what `Response::get_record::<AAAA>` returns.
pub uninterp spec fn record_as_aaaa(response: Response, section: Section, index: int) -> Slot;

/// The failure that the lookup takes a resolver's error for.
pub uninterp spec fn failure_of(error: Error) -> FailureValue;

/// Calls `Response::get_section_count`, which returns the count that the
/// header of the message gives for the section.
///
/// Claimed: the count depends on the response and the section alone.
#[verifier::external_body]
fn response_section_count(response: &Response, section: Section) -> (count: usize)
    ensures
        count == section_len(*response, section),
{
    let at = match section {
        Section::Answer => resolv::Section::Answer,
        Section::Authority => resolv::Section::Authority,
        Section::Additional => resolv::Section::Additional,
    };
    response.get_section_count(at)
}

/// Calls `Response::get_record::<resolv::record::A>`, which parses the
/// record at the index out of the message and reads it as an A record, and
/// `u32::from` on the address of the record it returns.
///
/// Claimed: what comes back is `record_as_a` of the response as it was, the
/// section and the index, so it depends on these alone. An index behind the
/// section comes back as an error before the response is touched. A record
/// of another type comes back as `Error::WrongRRType` and is reported as
/// such; any other error is kept by the text that its `Display` gives.
///
/// Not claimed: anything of the response after a record inside the section
/// was read. The call hands the message to the C library's parser, which
/// moves a cursor in it.
///
/// The library reads four bytes at the start of the record's data,
/// whatever length the record states. For a record with shorter data the
/// address holds the bytes that follow it in the response's buffer; where
/// the buffer ends before them, what comes back is not the response's
/// alone, and the claim does not cover it.
#[verifier::external_body]
fn response_decode_a(response: &mut Response, section: Section, index: usize) -> (decoded: Decoded<A>)
    ensures
        slot_of_a(decoded) == record_as_a(*old(response), section, index as int),
        index >= section_len(*old(response), section) ==> *final(response) == *old(response),
{
    let at = match section {
        Section::Answer => resolv::Section::Answer,
        Section::Authority => resolv::Section::Authority,
        Section::Additional => resolv::Section::Additional,
    };
    match response.get_record::<resolv::record::A>(at, index) {
        Ok(record) => Decoded::Record(A { address: u32::from(record.data.address) }),
        Err(Error::WrongRRType) => Decoded::WrongType,
        Err(error) => Decoded::Failed(DecodeError { detail: format!("{}", error) }),
    }
}

/// Calls `Response::get_record::<resolv::record::AAAA>` and `u128::from` on
/// the address of the record it returns.
///
/// Claimed and not claimed: as for `response_decode_a`, with the record
/// read as an AAAA record and sixteen bytes of data.
#[verifier::external_body]
fn response_decode_aaaa(response: &mut Response, section: Section, index: usize) -> (decoded:
    Decoded<AAAA>)
    ensures
        slot_of_aaaa(decoded) == record_as_aaaa(*old(response), section, index as int),
        index >= section_len(*old(response), section) ==> *final(response) == *old(response),
{
    let at = match section {
        Section::Answer => resolv::Section::Answer,
        Section::Authority => resolv::Section::Authority,
        Section::Additional => resolv::Section::Additional,
    };
    match response.get_record::<resolv::record::AAAA>(at, index) {
        Ok(record) => Decoded::Record(AAAA { address: u128::from(record.data.address) }),
        Err(Error::WrongRRType) => Decoded::WrongType,
        Err(error) => Decoded::Failed(DecodeError { detail: format!("{}", error) }),
    }
}

/// Tells the variants of `resolv::error::Error` apart and, for those that
/// the lookup has no rule for, calls the error's `Display`.
///
/// Claimed: the failure depends on the error alone. `Resolver(HostNotFound)`
/// and `Resolver(NoData)` are the two that the lookup has a rule for; every
/// other error is kept by the text that its `Display` gives.
#[verifier::external_body]
pub(crate) fn lookup_failure(error: &Error) -> (failure: LookupFailure)
    ensures
        failure@ == failure_of(*error),
{
    match error {
        Error::Resolver(ResolutionError::HostNotFound) => LookupFailure::HostNotFound,
        Error::Resolver(ResolutionError::NoData) => LookupFailure::NoData,
        other => LookupFailure::Other(format!("{}", other)),
    }
}

impl ResponseSealed for Response {

}

/// A response of the resolver is a record source, through the three calls
/// above.
impl RecordSource for Response {
    /// Nothing here shows what reading a record inside a section leaves of
    /// the response, so only a response without records is known to keep
    /// them: every index is behind its section.
    open spec fn keeps_records(&self) -> bool {
        forall|s: Section| #[trigger] section_len(*self, s) == 0
    }

    open spec fn spec_len(&self, section: Section) -> nat {
        section_len(*self, section)
    }

    open spec fn spec_slot(&self, family: Family, section: Section, index: int) -> Slot {
        match family {
            Family::V4 => record_as_a(*self, section, index),
            Family::V6 => record_as_aaaa(*self, section, index),
        }
    }

    fn section_count(&self, section: Section) -> (count: usize) {
        response_section_count(self, section)
    }

    fn decode_a(&mut self, section: Section, index: usize) -> (decoded: Decoded<A>) {
        response_decode_a(self, section, index)
    }

    fn decode_aaaa(&mut self, section: Section, index: usize) -> (decoded: Decoded<AAAA>) {
        response_decode_aaaa(self, section, index)
    }
}

} // verus!
