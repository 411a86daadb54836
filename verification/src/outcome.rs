//! What a query came to, and what a lookup reports of it.

use vstd::prelude::*;
use resolv::error::Error;
use crate::address::Address;
use crate::resolver::{failure_of, lookup_failure};

verus! {

/// The code that the process ends with.
#[derive(Clone, Copy, Debug, PartialEq, Eq, Hash, Structural)]
pub enum ExitCode {
    /// Every query was answered, if only with no address at all.
    Success,
    /// The name does not exist.
    NameNotFound,
    /// The resolver failed: a server failure, a timeout, a response that
    /// does not parse, or any other failure of its own.
    LookupFailure,
    /// A record of the answer could not be decoded.
    RecordFailure,
}

impl ExitCode {
    /// The number that the process hands to its parent.
    pub open spec fn spec_code(self) -> int {
        match self {
            ExitCode::Success => 0,
            ExitCode::NameNotFound => 1,
            ExitCode::LookupFailure => 2,
            ExitCode::RecordFailure => 3,
        }
    }

    pub fn code(self) -> (code: i32)
        ensures
            code == self.spec_code(),
    {
        match self {
            ExitCode::Success => 0,
            ExitCode::NameNotFound => 1,
            ExitCode::LookupFailure => 2,
            ExitCode::RecordFailure => 3,
        }
    }
}

/// How a query failed, as far as the lookup tells failures apart.
#[derive(Clone, Debug, PartialEq, Eq)]
pub enum LookupFailure {
    /// The resolver says that the name does not exist.
    HostNotFound,
    /// The resolver says that the name exists and has no record of the
    /// type asked for.
    NoData,
    /// Any other failure, with the resolver's account of it.
    Other(String),
}

/// The mathematical value of a `LookupFailure`.
pub enum FailureValue {
    HostNotFound,
    NoData,
    Other(Seq<char>),
}

impl View for LookupFailure {
    type V = FailureValue;

    open spec fn view(&self) -> FailureValue {
        match self {
            LookupFailure::HostNotFound => FailureValue::HostNotFound,
            LookupFailure::NoData => FailureValue::NoData,
            LookupFailure::Other(detail) => FailureValue::Other(detail@),
        }
    }
}

/// What one query came to.
#[derive(Clone, Debug, PartialEq, Eq)]
pub enum Outcome<S> {
    /// The resolver answered, with this response.
    Success(S),
    /// The name does not exist.
    HostNotFound,
    /// The name exists and has no record of the type asked for.
    NoData,
    /// The query failed otherwise, for this reason.
    OtherFailure(String),
}

impl<S> Outcome<S> {
    /// The outcome of a query that failed with `failure`.
    pub open spec fn spec_from_failure(failure: LookupFailure) -> Outcome<S> {
        match failure {
            LookupFailure::HostNotFound => Outcome::HostNotFound,
            LookupFailure::NoData => Outcome::NoData,
            LookupFailure::Other(detail) => Outcome::OtherFailure(detail),
        }
    }

    /// The failure behind this outcome, if it is one.
    pub open spec fn failure(self) -> Option<FailureValue> {
        match self {
            Outcome::Success(_) => None,
            Outcome::HostNotFound => Some(FailureValue::HostNotFound),
            Outcome::NoData => Some(FailureValue::NoData),
            Outcome::OtherFailure(detail) => Some(FailureValue::Other(detail@)),
        }
    }

    pub fn from_failure(failure: LookupFailure) -> (outcome: Outcome<S>)
        ensures
            outcome == Self::spec_from_failure(failure),
            outcome.failure() == Some(failure@),
    {
        match failure {
            LookupFailure::HostNotFound => Outcome::HostNotFound,
            LookupFailure::NoData => Outcome::NoData,
            LookupFailure::Other(detail) => Outcome::OtherFailure(detail),
        }
    }
}

/// Classifies what the resolver returned for one query: a response is a
/// success, an error is the failure that `failure_of` takes it for.
pub fn classify<S>(result: Result<S, Error>) -> (outcome: Outcome<S>)
    ensures
        match result {
            Ok(response) => outcome == Outcome::Success(response),
            Err(error) => outcome.failure() == Some(failure_of(error)),
        },
{
    match result {
        Ok(response) => Outcome::Success(response),
        Err(error) => Outcome::from_failure(lookup_failure(&error)),
    }
}

/// The one line that goes to the error stream when a lookup ends early.
#[derive(Clone, Debug, PartialEq, Eq)]
pub enum Diagnostic {
    /// The name does not exist.
    HostNotFound,
    /// The query failed, for this reason.
    LookupFailed(String),
    /// A record of the answer could not be decoded, for this reason.
    RecordFailed(String),
}

/// The mathematical value of a `Diagnostic`.
pub enum DiagnosticView {
    HostNotFound,
    LookupFailed(Seq<char>),
    RecordFailed(Seq<char>),
}

impl DiagnosticView {
    /// The exit code that goes with this diagnostic.
    pub open spec fn exit_code(self) -> ExitCode {
        match self {
            DiagnosticView::HostNotFound => ExitCode::NameNotFound,
            DiagnosticView::LookupFailed(_) => ExitCode::LookupFailure,
            DiagnosticView::RecordFailed(_) => ExitCode::RecordFailure,
        }
    }
}

impl View for Diagnostic {
    type V = DiagnosticView;

    open spec fn view(&self) -> DiagnosticView {
        match self {
            Diagnostic::HostNotFound => DiagnosticView::HostNotFound,
            Diagnostic::LookupFailed(detail) => DiagnosticView::LookupFailed(detail@),
            Diagnostic::RecordFailed(detail) => DiagnosticView::RecordFailed(detail@),
        }
    }
}

impl Diagnostic {
    /// The exit code that goes with this diagnostic. It is never `Success`.
    pub fn exit_code(&self) -> (code: ExitCode)
        ensures
            code == self@.exit_code(),
            code != ExitCode::Success,
    {
        match self {
            Diagnostic::HostNotFound => ExitCode::NameNotFound,
            Diagnostic::LookupFailed(_) => ExitCode::LookupFailure,
            Diagnostic::RecordFailed(_) => ExitCode::RecordFailure,
        }
    }
}

/// What the lookup for one family has to show: the addresses to print, in
/// the order to print them, and the diagnostic if the lookup ends here.
#[derive(Clone, Debug, PartialEq, Eq)]
pub struct Report {
    pub addresses: Vec<Address>,
    pub diagnostic: Option<Diagnostic>,
}

/// The mathematical value of a `Report`.
pub struct ReportView {
    pub addresses: Seq<Address>,
    pub diagnostic: Option<DiagnosticView>,
}

impl ReportView {
    /// The exit code that this report asks for, if it ends the lookup.
    pub open spec fn exit_code(self) -> Option<ExitCode> {
        match self.diagnostic {
            Some(diagnostic) => Some(diagnostic.exit_code()),
            None => None,
        }
    }
}

impl View for Report {
    type V = ReportView;

    open spec fn view(&self) -> ReportView {
        ReportView {
            addresses: self.addresses@,
            diagnostic: match self.diagnostic {
                Some(diagnostic) => Some(diagnostic@),
                None => None,
            },
        }
    }
}

impl Report {
    /// The exit code that this report asks for: none where the lookup goes
    /// on, and never `Success` where it ends.
    pub fn exit_code(&self) -> (code: Option<ExitCode>)
        ensures
            code == self@.exit_code(),
            code != Some(ExitCode::Success),
            code is Some <==> self@.diagnostic is Some,
    {
        match &self.diagnostic {
            Some(diagnostic) => Some(diagnostic.exit_code()),
            None => None,
        }
    }
}

} // verus!
