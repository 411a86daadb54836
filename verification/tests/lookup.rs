//! Whole lookups over responses held in memory.

use addr_lookup::lookup::{run, Action, Lookup};
use addr_lookup::message::{Message, RawRecord};
use addr_lookup::outcome::{Diagnostic, ExitCode, LookupFailure, Outcome, Report};
use addr_lookup::source::{A, AAAA};
use addr_lookup::{Address, Family};
use resolv::error::{Error, ResolutionError};

fn v4(a: u8, b: u8, c: u8, d: u8) -> Address {
    Address::V4(u32::from_be_bytes([a, b, c, d]))
}

fn answer(records: Vec<RawRecord>) -> Message {
    let mut message = Message::new();
    message.answer = records;
    message
}

fn no_data() -> Result<Message, Error> {
    Err(Error::Resolver(ResolutionError::NoData))
}

/// Drives a lookup to its end with the given results, one per query, and
/// returns what went to the output, what went to the error stream, the
/// families queried and the exit code.
fn drive(
    mut lookup: Lookup,
    results: Vec<Result<Message, Error>>,
) -> (Vec<Address>, Vec<Diagnostic>, Vec<Family>, i32) {
    let mut output = Vec::new();
    let mut errors = Vec::new();
    let mut queried = Vec::new();
    let mut results = results.into_iter();
    loop {
        match lookup.action() {
            Action::Query(family) => {
                queried.push(family);
                let result = results.next().expect("a result for each query");
                let report = lookup.answer(result);
                output.extend(report.addresses);
                errors.extend(report.diagnostic);
            }
            Action::Exit(code) => return (output, errors, queried, code.code()),
        }
    }
}

#[test]
fn two_a_records_and_no_aaaa() {
    let a = answer(vec![
        RawRecord::Address(v4(10, 0, 0, 1)),
        RawRecord::Address(v4(10, 0, 0, 2)),
    ]);
    let (output, errors, queried, code) =
        drive(Lookup::new(false, false, false), vec![Ok(a), no_data()]);
    assert_eq!(output, vec![v4(10, 0, 0, 1), v4(10, 0, 0, 2)]);
    assert!(errors.is_empty());
    assert_eq!(queried, vec![Family::V4, Family::V6]);
    assert_eq!(code, 0);
}

#[test]
fn sorted_lookup_orders_and_drops_repeats() {
    let a = answer(vec![
        RawRecord::Address(v4(10, 0, 0, 2)),
        RawRecord::Address(v4(10, 0, 0, 1)),
        RawRecord::Address(v4(10, 0, 0, 1)),
    ]);
    let (output, errors, _, code) = drive(Lookup::new(false, false, true), vec![Ok(a), no_data()]);
    assert_eq!(output, vec![v4(10, 0, 0, 1), v4(10, 0, 0, 2)]);
    assert!(errors.is_empty());
    assert_eq!(code, 0);
}

#[test]
fn host_not_found_stops_everything() {
    let (output, errors, queried, code) = drive(
        Lookup::new(false, false, false),
        vec![Err(Error::Resolver(ResolutionError::HostNotFound))],
    );
    assert!(output.is_empty());
    assert_eq!(errors, vec![Diagnostic::HostNotFound]);
    assert_eq!(queried, vec![Family::V4]);
    assert_eq!(code, 1);
}

#[test]
fn no_data_alone_is_no_failure() {
    let a = answer(vec![RawRecord::Address(v4(192, 0, 2, 7))]);
    let (output, errors, queried, code) =
        drive(Lookup::new(false, false, false), vec![Ok(a), no_data()]);
    assert_eq!(output, vec![v4(192, 0, 2, 7)]);
    assert!(errors.is_empty());
    assert_eq!(queried, vec![Family::V4, Family::V6]);
    assert_eq!(code, 0);
}

#[test]
fn no_data_for_both_families_is_success_without_output() {
    let (output, errors, queried, code) =
        drive(Lookup::new(false, false, true), vec![no_data(), no_data()]);
    assert!(output.is_empty());
    assert!(errors.is_empty());
    assert_eq!(queried, vec![Family::V4, Family::V6]);
    assert_eq!(code, 0);
}

#[test]
fn broken_record_after_two_good_ones() {
    let a = answer(vec![
        RawRecord::Address(v4(10, 0, 0, 1)),
        RawRecord::Address(v4(10, 0, 0, 2)),
        RawRecord::Malformed("truncated".to_string()),
        RawRecord::Address(v4(10, 0, 0, 3)),
    ]);
    let (output, errors, queried, code) = drive(Lookup::new(false, false, false), vec![Ok(a)]);
    assert_eq!(output, vec![v4(10, 0, 0, 1), v4(10, 0, 0, 2)]);
    assert_eq!(errors, vec![Diagnostic::RecordFailed("truncated".to_string())]);
    assert_eq!(queried, vec![Family::V4]);
    assert_eq!(code, 3);
}

#[test]
fn broken_record_in_sorted_mode_shows_nothing() {
    let a = answer(vec![
        RawRecord::Address(v4(10, 0, 0, 1)),
        RawRecord::Address(v4(10, 0, 0, 2)),
        RawRecord::Malformed("truncated".to_string()),
    ]);
    let (output, errors, _, code) = drive(Lookup::new(false, false, true), vec![Ok(a)]);
    assert!(output.is_empty());
    assert_eq!(errors, vec![Diagnostic::RecordFailed("truncated".to_string())]);
    assert_eq!(code, 3);
}

#[test]
fn resolver_failure_on_the_second_family_keeps_the_first_output() {
    let a = answer(vec![RawRecord::Address(v4(10, 0, 0, 1))]);
    let (output, errors, queried, code) = drive(
        Lookup::new(false, false, false),
        vec![Ok(a), Err(Error::Resolver(ResolutionError::TryAgain))],
    );
    assert_eq!(output, vec![v4(10, 0, 0, 1)]);
    assert_eq!(
        errors,
        vec![Diagnostic::LookupFailed(
            "Name Resolution failed: Host name lookup failure".to_string()
        )]
    );
    assert_eq!(queried, vec![Family::V4, Family::V6]);
    assert_eq!(code, 2);
}

#[test]
fn ipv4_output_comes_before_ipv6_output() {
    let a = answer(vec![RawRecord::Address(v4(203, 0, 113, 9))]);
    let aaaa = answer(vec![RawRecord::Address(Address::V6(1)), RawRecord::Other]);
    let (output, errors, queried, code) =
        drive(Lookup::new(false, false, true), vec![Ok(a), Ok(aaaa)]);
    assert_eq!(output, vec![v4(203, 0, 113, 9), Address::V6(1)]);
    assert!(errors.is_empty());
    assert_eq!(queried, vec![Family::V4, Family::V6]);
    assert_eq!(code, 0);
}

#[test]
fn restrictions_choose_the_families() {
    let (_, _, queried, code) = drive(Lookup::new(true, false, false), vec![no_data()]);
    assert_eq!(queried, vec![Family::V4]);
    assert_eq!(code, 0);
    let (_, _, queried, code) = drive(Lookup::new(false, true, false), vec![no_data()]);
    assert_eq!(queried, vec![Family::V6]);
    assert_eq!(code, 0);
    let (_, _, queried, code) = drive(Lookup::new(true, true, false), vec![]);
    assert!(queried.is_empty());
    assert_eq!(code, 0);
}

#[test]
fn answer_after_the_end_changes_nothing() {
    let mut lookup = Lookup::new(true, false, false);
    let _ = lookup.answer::<Message>(Err(Error::Resolver(ResolutionError::HostNotFound)));
    let ended = lookup;
    let report = lookup.answer(Ok(answer(vec![RawRecord::Address(v4(10, 0, 0, 1))])));
    assert_eq!(report, Report { addresses: vec![], diagnostic: None });
    assert_eq!(lookup, ended);
    assert_eq!(lookup.action(), Action::Exit(ExitCode::NameNotFound));
}

#[test]
fn unsorted_run_keeps_order_and_repeats() {
    let a = answer(vec![
        RawRecord::Address(v4(10, 0, 0, 2)),
        RawRecord::Other,
        RawRecord::Address(v4(10, 0, 0, 1)),
        RawRecord::Address(Address::V6(7)),
        RawRecord::Address(v4(10, 0, 0, 2)),
    ]);
    let report = run::<Message, A>(Outcome::Success(a), false);
    assert_eq!(report.addresses, vec![v4(10, 0, 0, 2), v4(10, 0, 0, 1), v4(10, 0, 0, 2)]);
    assert_eq!(report.diagnostic, None);
}

#[test]
fn run_reads_the_answer_section_only() {
    let mut message = Message::new();
    message.authority.push(RawRecord::Address(v4(10, 0, 0, 1)));
    message.additional.push(RawRecord::Address(v4(10, 0, 0, 2)));
    let report = run::<Message, A>(Outcome::Success(message), false);
    assert!(report.addresses.is_empty());
    assert_eq!(report.diagnostic, None);
}

#[test]
fn run_for_ipv6_takes_aaaa_records() {
    let a = answer(vec![
        RawRecord::Address(v4(10, 0, 0, 2)),
        RawRecord::Address(Address::V6(0x2001_0db8 << 96)),
        RawRecord::Address(Address::V6(1)),
    ]);
    let report = run::<Message, AAAA>(Outcome::Success(a), true);
    assert_eq!(report.addresses, vec![Address::V6(1), Address::V6(0x2001_0db8 << 96)]);
}

#[test]
fn run_maps_each_failed_outcome() {
    let report = run::<Message, A>(Outcome::HostNotFound, false);
    assert_eq!(report, Report { addresses: vec![], diagnostic: Some(Diagnostic::HostNotFound) });
    assert_eq!(report.exit_code(), Some(ExitCode::NameNotFound));
    let report = run::<Message, A>(Outcome::NoData, false);
    assert_eq!(report, Report { addresses: vec![], diagnostic: None });
    assert_eq!(report.exit_code(), None);
    let report = run::<Message, A>(Outcome::OtherFailure("timed out".to_string()), true);
    assert_eq!(
        report,
        Report { addresses: vec![], diagnostic: Some(Diagnostic::LookupFailed("timed out".to_string())) }
    );
    assert_eq!(report.exit_code(), Some(ExitCode::LookupFailure));
}

#[test]
fn diagnostics_have_their_exit_codes() {
    assert_eq!(Diagnostic::HostNotFound.exit_code(), ExitCode::NameNotFound);
    assert_eq!(Diagnostic::LookupFailed(String::new()).exit_code(), ExitCode::LookupFailure);
    assert_eq!(Diagnostic::RecordFailed(String::new()).exit_code(), ExitCode::RecordFailure);
}

#[test]
fn outcome_from_failure() {
    assert!(matches!(Outcome::<Message>::from_failure(LookupFailure::HostNotFound), Outcome::HostNotFound));
    assert!(matches!(Outcome::<Message>::from_failure(LookupFailure::NoData), Outcome::NoData));
    match Outcome::<Message>::from_failure(LookupFailure::Other("refused".to_string())) {
        Outcome::OtherFailure(detail) => assert_eq!(detail, "refused"),
        _ => panic!("another failure stays one"),
    }
}
