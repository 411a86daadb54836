//! The extractor over responses of the resolver's own type.

use addr_lookup::lookup::{run, Action, Lookup};
use addr_lookup::outcome::{classify, Diagnostic, ExitCode, LookupFailure, Outcome};
use addr_lookup::resolv_ext::ResponseExt;
use addr_lookup::source::{Decoded, RecordSource, Section, A, AAAA};
use resolv::error::{Error, ResolutionError};
use resolv::Response;

/// A response whose header counts `answers` answer records and whose body
/// holds none, so that no record of it parses.
fn hollow_response(answers: u16) -> Response {
    let mut message = libresolv_sys::__ns_msg::default();
    message._counts[1] = answers;
    Response::new(message, Box::new(Vec::new()))
}

const DOES_NOT_PARSE: &str = "Name service response does not parse";

#[test]
fn section_count_is_the_header_count() {
    let response = hollow_response(3);
    assert_eq!(response.section_count(Section::Answer), 3);
    assert_eq!(response.section_count(Section::Authority), 0);
    assert_eq!(response.section_count(Section::Additional), 0);
}

#[test]
fn unparsable_record_is_a_failure_for_both_families() {
    let mut response = hollow_response(2);
    match response.decode_a(Section::Answer, 0) {
        Decoded::Failed(error) => assert_eq!(error.detail, DOES_NOT_PARSE),
        other => panic!("unexpected {:?}", other),
    }
    match response.decode_aaaa(Section::Answer, 1) {
        Decoded::Failed(error) => assert_eq!(error.detail, DOES_NOT_PARSE),
        other => panic!("unexpected {:?}", other),
    }
}

#[test]
fn index_behind_the_section_is_a_failure() {
    let mut response = hollow_response(1);
    match response.decode_a(Section::Answer, 1) {
        Decoded::Failed(error) => {
            assert_eq!(error.detail, "No such section index (section=Answer, index=1)")
        }
        other => panic!("unexpected {:?}", other),
    }
    match response.decode_aaaa(Section::Authority, 0) {
        Decoded::Failed(error) => {
            assert_eq!(error.detail, "No such section index (section=Authority, index=0)")
        }
        other => panic!("unexpected {:?}", other),
    }
}

#[test]
fn extractor_over_empty_response_yields_nothing() {
    let mut response = hollow_response(0);
    let mut records = response.records::<A>(Section::Answer);
    assert_eq!(records.size_hint(), (0, Some(0)));
    assert_eq!(records.next(), None);
    assert_eq!(records.next_back(), None);
}

#[test]
fn extractor_hands_on_decode_failures() {
    let mut response = hollow_response(2);
    let mut records = response.records::<AAAA>(Section::Answer);
    assert_eq!(records.size_hint(), (0, Some(2)));
    let first = records.next().expect("an item");
    assert_eq!(first.unwrap_err().detail, DOES_NOT_PARSE);
    assert_eq!(records.size_hint(), (0, Some(1)));
    let last = records.next_back().expect("an item");
    assert_eq!(last.unwrap_err().detail, DOES_NOT_PARSE);
    assert_eq!(records.size_hint(), (0, Some(0)));
    assert_eq!(records.next(), None);
}

#[test]
fn run_stops_at_unparsable_answer() {
    let report = run::<Response, A>(Outcome::Success(hollow_response(1)), false);
    assert!(report.addresses.is_empty());
    assert_eq!(report.diagnostic, Some(Diagnostic::RecordFailed(DOES_NOT_PARSE.to_string())));
    assert_eq!(report.exit_code(), Some(ExitCode::RecordFailure));
}

#[test]
fn run_over_empty_answer_shows_nothing() {
    let report = run::<Response, AAAA>(Outcome::Success(hollow_response(0)), true);
    assert!(report.addresses.is_empty());
    assert_eq!(report.diagnostic, None);
    assert_eq!(report.exit_code(), None);
}

fn failure(outcome: Outcome<Response>) -> Option<LookupFailure> {
    match outcome {
        Outcome::Success(_) => None,
        Outcome::HostNotFound => Some(LookupFailure::HostNotFound),
        Outcome::NoData => Some(LookupFailure::NoData),
        Outcome::OtherFailure(detail) => Some(LookupFailure::Other(detail)),
    }
}

#[test]
fn classify_tells_resolver_errors_apart() {
    assert_eq!(
        failure(classify(Err(Error::Resolver(ResolutionError::HostNotFound)))),
        Some(LookupFailure::HostNotFound)
    );
    assert_eq!(
        failure(classify(Err(Error::Resolver(ResolutionError::NoData)))),
        Some(LookupFailure::NoData)
    );
    assert_eq!(
        failure(classify(Err(Error::Resolver(ResolutionError::TryAgain)))),
        Some(LookupFailure::Other("Name Resolution failed: Host name lookup failure".to_string()))
    );
    assert_eq!(
        failure(classify(Err(Error::Resolver(ResolutionError::NoRecovery)))),
        Some(LookupFailure::Other("Name Resolution failed: Unknown server error".to_string()))
    );
    assert_eq!(
        failure(classify(Err(Error::ParseError))),
        Some(LookupFailure::Other(DOES_NOT_PARSE.to_string()))
    );
    assert_eq!(
        failure(classify(Err(Error::WrongRRType))),
        Some(LookupFailure::Other("Wrong Resource Record type".to_string()))
    );
    assert_eq!(
        failure(classify(Err(Error::UnknownClass(7)))),
        Some(LookupFailure::Other("Unknown class: 7".to_string()))
    );
}

#[test]
fn classify_keeps_a_response() {
    match classify(Ok(hollow_response(4))) {
        Outcome::Success(response) => assert_eq!(response.section_count(Section::Answer), 4),
        _ => panic!("a response is a success"),
    }
}

#[test]
fn host_not_found_ends_the_lookup_before_ipv6() {
    let mut lookup = Lookup::new(false, false, false);
    assert_eq!(lookup.action(), Action::Query(addr_lookup::Family::V4));
    let report =
        lookup.answer::<Response>(Err(Error::Resolver(ResolutionError::HostNotFound)));
    assert!(report.addresses.is_empty());
    assert_eq!(report.diagnostic, Some(Diagnostic::HostNotFound));
    assert_eq!(lookup.action(), Action::Exit(ExitCode::NameNotFound));
    assert_eq!(ExitCode::NameNotFound.code(), 1);
}

#[test]
fn resolver_failure_ends_the_lookup_with_two() {
    let mut lookup = Lookup::new(false, true, true);
    assert_eq!(lookup.action(), Action::Query(addr_lookup::Family::V6));
    let report = lookup.answer::<Response>(Err(Error::Resolver(ResolutionError::TryAgain)));
    assert_eq!(
        report.diagnostic,
        Some(Diagnostic::LookupFailed(
            "Name Resolution failed: Host name lookup failure".to_string()
        ))
    );
    assert_eq!(lookup.action(), Action::Exit(ExitCode::LookupFailure));
    assert_eq!(ExitCode::LookupFailure.code(), 2);
}

#[test]
fn later_extractor_over_a_response_starts_afresh() {
    let mut response = hollow_response(2);
    {
        let mut first = response.records::<A>(Section::Answer);
        assert!(first.next().is_some());
    }
    let mut second = response.records::<A>(Section::Answer);
    assert_eq!(second.size_hint(), (0, Some(2)));
    assert_eq!(second.collect().len(), 2);
}
