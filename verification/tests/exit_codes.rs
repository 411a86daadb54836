use addr_lookup::outcome::ExitCode;

#[test]
fn exit_codes_are_zero_to_three() {
    assert_eq!(ExitCode::Success.code(), 0);
    assert_eq!(ExitCode::NameNotFound.code(), 1);
    assert_eq!(ExitCode::LookupFailure.code(), 2);
    assert_eq!(ExitCode::RecordFailure.code(), 3);
}
