//! The lookup: one query per address family, what each has to show, and
//! when to stop.

use vstd::prelude::*;
use resolv::error::Error;
use crate::address::{Address, Family};
use crate::outcome::{
    classify, Diagnostic, DiagnosticView, ExitCode, FailureValue, Outcome, Report, ReportView,
};
use crate::record::AddressRecord;
use crate::resolv_ext::{lemma_kept_on, relevant, window_of, ResponseExt};
use crate::resolver::failure_of;
use crate::sorting::{sort_dedup, sorted_unique, strictly_ascending};
use crate::source::{kept, RecordSource, Section, Slot, A, AAAA};

verus! {

/// The values of the items that an extractor hands out of the answer
/// section of `source` for `family`, front to back.
pub open spec fn answer_items<S: RecordSource>(source: S, family: Family) -> Seq<Slot> {
    relevant(
        window_of(source, family, Section::Answer, 0, source.spec_len(Section::Answer) as int),
    )
}

/// The number of items at the front of `items` that are decoded addresses:
/// the index of the first item that is none, or the length of `items`.
pub open spec fn decoded_len(items: Seq<Slot>) -> nat
    decreases items.len(),
{
    if items.len() == 0 || !(items.first() is Address) {
        0
    } else {
        1 + decoded_len(items.drop_first())
    }
}

/// The address in a slot that holds one.
pub open spec fn slot_address(slot: Slot) -> Address
    recommends
        slot is Address,
{
    slot->Address_0
}

/// The reason in a slot whose record could not be decoded.
pub open spec fn slot_failure(slot: Slot) -> Seq<char>
    recommends
        slot is Failed,
{
    slot->Failed_0
}

/// The addresses in `items`, slot by slot.
pub open spec fn addresses_of(items: Seq<Slot>) -> Seq<Address> {
    items.map_values(|slot: Slot| slot_address(slot))
}

/// What the lookup shows for the items of one answer.
///
/// The lookup stops at the first item that could not be decoded and reports
/// it. Unsorted, the addresses before it have been printed by then, in the
/// order of the response and as often as they came. Sorted, nothing is
/// printed before all are there, so a failure leaves nothing; without one
/// the addresses come out ascending, each once.
pub open spec fn gathered(items: Seq<Slot>, sort: bool) -> ReportView {
    let n = decoded_len(items) as int;
    let decoded = addresses_of(items.take(n));
    if n < items.len() {
        ReportView {
            addresses: if sort {
                Seq::empty()
            } else {
                decoded
            },
            diagnostic: Some(DiagnosticView::RecordFailed(slot_failure(items[n]))),
        }
    } else {
        ReportView {
            addresses: if sort {
                sorted_unique(decoded)
            } else {
                decoded
            },
            diagnostic: None,
        }
    }
}

/// What the lookup shows for a query that failed.
pub open spec fn failure_report(failure: FailureValue) -> ReportView {
    ReportView {
        addresses: Seq::empty(),
        diagnostic: match failure {
            FailureValue::HostNotFound => Some(DiagnosticView::HostNotFound),
            FailureValue::NoData => None,
            FailureValue::Other(detail) => Some(DiagnosticView::LookupFailed(detail)),
        },
    }
}

/// What the lookup for `family` shows for `outcome`.
pub open spec fn spec_run<S: RecordSource>(outcome: Outcome<S>, family: Family, sort: bool)
    -> ReportView {
    match outcome {
        Outcome::Success(source) => gathered(answer_items(source, family), sort),
        Outcome::HostNotFound => failure_report(FailureValue::HostNotFound),
        Outcome::NoData => failure_report(FailureValue::NoData),
        Outcome::OtherFailure(detail) => failure_report(FailureValue::Other(detail@)),
    }
}

/// Where the first `k` items are decoded addresses and the next is none,
/// `decoded_len` is `k`.
proof fn lemma_decoded_len(items: Seq<Slot>, k: int)
    requires
        0 <= k <= items.len(),
        forall|i: int| 0 <= i < k ==> (#[trigger] items[i]) is Address,
        k < items.len() ==> !(items[k] is Address),
    ensures
        decoded_len(items) == k,
    decreases k,
{
    if k > 0 {
        let rest = items.drop_first();
        assert forall|i: int| 0 <= i < k - 1 implies (#[trigger] rest[i]) is Address by {
            assert(rest[i] == items[i + 1]);
        }
        assert(items.first() == items[0]);
        lemma_decoded_len(rest, k - 1);
    }
}

/// The source of a successful outcome keeps its records; any other
/// outcome has none to keep.
pub open spec fn outcome_keeps<S: RecordSource>(outcome: Outcome<S>) -> bool {
    match outcome {
        Outcome::Success(source) => source.keeps_records(),
        _ => true,
    }
}

/// What holds of the report for an answer, whatever reading does to the
/// source: it ends the lookup with no other diagnostic than a record's, it
/// shows addresses of the family asked for only, and sorted it shows them
/// ascending, each once, and none beside a diagnostic.
pub open spec fn plausible(report: ReportView, family: Family, sort: bool) -> bool {
    &&& (match report.diagnostic {
        None => true,
        Some(diagnostic) => diagnostic is RecordFailed,
    })
    &&& forall|i: int|
        0 <= i < report.addresses.len() ==> (#[trigger] report.addresses[i]).spec_family() == family
    &&& sort ==> strictly_ascending(report.addresses)
    &&& sort && report.diagnostic is Some ==> report.addresses.len() == 0
}

/// The lookup for one family: takes what the query came to, extracts the
/// addresses of type `R` from the answer, and says what to print.
///
/// A query that failed is reported exactly. So is an answer whose source
/// keeps its records; of any other answer the report is `plausible`.
pub fn run<S: RecordSource, R: AddressRecord>(outcome: Outcome<S>, sort: bool) -> (report: Report)
    ensures
        outcome_keeps(outcome) ==> report@ == spec_run(outcome, R::spec_family(), sort),
        outcome is Success ==> plausible(report@, R::spec_family(), sort),
{
    match outcome {
        Outcome::Success(mut source) => {
            let ghost first = source;
            let ghost items = answer_items(first, R::spec_family());
            let mut records = source.records::<R>(Section::Answer);
            let mut addresses: Vec<Address> = Vec::new();
            loop
                invariant
                    outcome == Outcome::Success(first),
                    items == answer_items(first, R::spec_family()),
                    kept(first, records.source()),
                    forall|i: int|
                        0 <= i < addresses@.len() ==> (#[trigger] addresses@[i]).spec_family()
                            == R::spec_family(),
                    first.keeps_records() ==> {
                        &&& addresses@.len() <= items.len()
                        &&& records.pending() == items.skip(addresses@.len() as int)
                        &&& forall|i: int|
                            0 <= i < addresses@.len() ==> (#[trigger] items[i]) is Address
                                && addresses@[i] == slot_address(items[i])
                    },
                decreases records.window().len(),
            {
                let ghost k = addresses@.len() as int;
                let ghost before = records.source();
                match records.next() {
                    None => {
                        proof {
                            if first.keeps_records() {
                                lemma_decoded_len(items, k);
                                assert(items.take(k) =~= items);
                                assert(addresses@ =~= addresses_of(items));
                            }
                        }
                        if sort {
                            sort_dedup(&mut addresses);
                        }
                        let report = Report { addresses, diagnostic: None };
                        proof {
                            assert forall|i: int| 0 <= i < report@.addresses.len() implies (
                            #[trigger] report@.addresses[i]).spec_family() == R::spec_family() by {
                                if sort {
                                    assert(report@.addresses.to_set().contains(report@.addresses[i]));
                                }
                            }
                        }
                        return report;
                    },
                    Some(Ok(record)) => {
                        proof {
                            lemma_kept_on(first, before, records.source());
                            if first.keeps_records() {
                                assert(items.skip(k).first() == items[k]);
                                assert(items.skip(k).drop_first() =~= items.skip(k + 1));
                            }
                        }
                        addresses.push(record.address());
                    },
                    Some(Err(e)) => {
                        proof {
                            if first.keeps_records() {
                                assert(items.skip(k).first() == items[k]);
                                lemma_decoded_len(items, k);
                                assert(addresses@ =~= addresses_of(items.take(k)));
                            }
                        }
                        if sort {
                            addresses.clear();
                        }
                        return Report {
                            addresses,
                            diagnostic: Some(Diagnostic::RecordFailed(e.detail)),
                        };
                    },
                }
            }
        },
        Outcome::HostNotFound => Report {
            addresses: Vec::new(),
            diagnostic: Some(Diagnostic::HostNotFound),
        },
        Outcome::NoData => Report { addresses: Vec::new(), diagnostic: None },
        Outcome::OtherFailure(detail) => Report {
            addresses: Vec::new(),
            diagnostic: Some(Diagnostic::LookupFailed(detail)),
        },
    }
}

/// What the caller is to do next.
#[derive(Clone, Copy, Debug, PartialEq, Eq, Hash, Structural)]
pub enum Action {
    /// Query the name for the records of this family, and hand the result
    /// to `Lookup::answer`.
    Query(Family),
    /// Leave, with this exit code.
    Exit(ExitCode),
}

/// What the resolver's result for a query of `family` has to show.
pub open spec fn reported<S: RecordSource>(result: Result<S, Error>, family: Family, sort: bool)
    -> ReportView {
    match result {
        Ok(source) => gathered(answer_items(source, family), sort),
        Err(error) => failure_report(failure_of(error)),
    }
}

/// The response in a result keeps its records; an error has none to keep.
pub open spec fn result_keeps<S: RecordSource>(result: Result<S, Error>) -> bool {
    match result {
        Ok(source) => source.keeps_records(),
        Err(_) => true,
    }
}

/// A report that shows nothing.
pub open spec fn nothing_to_report() -> ReportView {
    ReportView { addresses: Seq::empty(), diagnostic: None }
}

/// A whole lookup of one name: which families are still to be queried, and
/// whether the lookup has ended early.
///
/// IPv4 is queried before IPv6. The first report with a diagnostic ends the
/// lookup with that diagnostic's exit code, and no further family is
/// queried. A lookup that runs out of families ends with `Success`.
#[derive(Clone, Copy, Debug, PartialEq, Eq, Structural)]
pub struct Lookup {
    sort: bool,
    v4_pending: bool,
    v6_pending: bool,
    ended: Option<ExitCode>,
}

impl Lookup {
    /// Whether this lookup prints sorted and without repeats.
    pub closed spec fn spec_sort(&self) -> bool {
        self.sort
    }

    /// The exit code of the report that ended this lookup early, if one did.
    pub closed spec fn ended(&self) -> Option<ExitCode> {
        self.ended
    }

    /// The families still to be queried if nothing ends the lookup, in the
    /// order of their queries.
    pub closed spec fn pending(&self) -> Seq<Family> {
        let v4 = if self.v4_pending {
            seq![Family::V4]
        } else {
            Seq::empty()
        };
        let v6 = if self.v6_pending {
            seq![Family::V6]
        } else {
            Seq::empty()
        };
        v4 + v6
    }

    /// A lookup that has ended early has a failure's exit code. Every
    /// lookup is made so and stays so.
    pub open spec fn wf(&self) -> bool {
        self.ended() != Some(ExitCode::Success)
    }

    /// What the caller is to do next.
    pub open spec fn spec_action(&self) -> Action {
        match self.ended() {
            Some(code) => Action::Exit(code),
            None => if self.pending().len() > 0 {
                Action::Query(self.pending().first())
            } else {
                Action::Exit(ExitCode::Success)
            },
        }
    }

    /// The families that a lookup with these restrictions queries, in the
    /// order of their queries: IPv4 unless only IPv6 is asked for, then IPv6
    /// unless only IPv4 is asked for.
    pub open spec fn families(ipv4_only: bool, ipv6_only: bool) -> Seq<Family> {
        let v4 = if ipv6_only {
            Seq::empty()
        } else {
            seq![Family::V4]
        };
        let v6 = if ipv4_only {
            Seq::empty()
        } else {
            seq![Family::V6]
        };
        v4 + v6
    }

    /// A lookup that has queried nothing yet.
    pub fn new(ipv4_only: bool, ipv6_only: bool, sort: bool) -> (lookup: Lookup)
        ensures
            lookup.wf(),
            lookup.spec_sort() == sort,
            lookup.ended() is None,
            lookup.pending() == Self::families(ipv4_only, ipv6_only),
    {
        Lookup { sort, v4_pending: !ipv6_only, v6_pending: !ipv4_only, ended: None }
    }

    /// What the caller is to do next.
    pub fn action(&self) -> (action: Action)
        ensures
            action == self.spec_action(),
    {
        proof {
            if self.v4_pending {
                assert(self.pending().first() == Family::V4);
            } else if self.v6_pending {
                assert(self.pending().first() == Family::V6);
            }
        }
        match self.ended {
            Some(code) => Action::Exit(code),
            None => if self.v4_pending {
                Action::Query(Family::V4)
            } else if self.v6_pending {
                Action::Query(Family::V6)
            } else {
                Action::Exit(ExitCode::Success)
            },
        }
    }

    /// Takes the resolver's result for the query that `action` asked for,
    /// and says what to print.
    ///
    /// Where `action` asked for no query, the result is dropped and nothing
    /// changes. Else the family is done with. A report without diagnostic
    /// lets the lookup go on; one with a diagnostic ends it, with that
    /// diagnostic's exit code. The report itself is exact for an error and
    /// for a response that keeps its records, and `plausible` for any
    /// other response.
    pub fn answer<S: RecordSource>(&mut self, result: Result<S, Error>) -> (report: Report)
        ensures
            old(self).wf() ==> final(self).wf(),
            final(self).spec_sort() == old(self).spec_sort(),
            match old(self).spec_action() {
                Action::Query(family) => {
                    &&& result_keeps(result) ==> report@ == reported(
                        result,
                        family,
                        old(self).spec_sort(),
                    )
                    &&& result is Ok ==> plausible(report@, family, old(self).spec_sort())
                    &&& final(self).ended() == report@.exit_code()
                    &&& final(self).pending() == old(self).pending().drop_first()
                },
                Action::Exit(_) => {
                    &&& report@ == nothing_to_report()
                    &&& *final(self) == *old(self)
                },
            },
    {
        match self.action() {
            Action::Query(family) => {
                let outcome = classify(result);
                let report = match family {
                    Family::V4 => run::<S, A>(outcome, self.sort),
                    Family::V6 => run::<S, AAAA>(outcome, self.sort),
                };
                proof {
                    assert(old(self).pending().drop_first() =~= (if family == Family::V4
                        && old(self).v6_pending {
                        seq![Family::V6]
                    } else {
                        Seq::<Family>::empty()
                    }));
                }
                match family {
                    Family::V4 => {
                        self.v4_pending = false;
                    },
                    Family::V6 => {
                        self.v6_pending = false;
                    },
                }
                self.ended = report.exit_code();
                proof {
                    assert(self.pending() =~= old(self).pending().drop_first());
                }
                report
            },
            Action::Exit(_) => Report { addresses: Vec::new(), diagnostic: None },
        }
    }
}


/// A report ends the lookup if and only if it carries a diagnostic, and the
/// exit code it ends with is never `Success`: no failure leaves without a
/// line on the error stream, and no such line is followed by success.
pub proof fn law_diagnostic_and_failure_go_together(report: ReportView)
    ensures
        report.exit_code() is Some <==> report.diagnostic is Some,
        report.exit_code() != Some(ExitCode::Success),
{
}

/// Unsorted, the lookup shows the addresses as the response holds them: in
/// its order, and each as often as it is there. Up to the first record that
/// could not be decoded, nothing is dropped and nothing moves.
pub proof fn law_unsorted_keeps_the_response_order(items: Seq<Slot>)
    ensures
        gathered(items, false).addresses.len() == decoded_len(items) <= items.len(),
        forall|i: int|
            0 <= i < decoded_len(items) ==> (#[trigger] items[i]) is Address && gathered(
                items,
                false,
            ).addresses[i] == slot_address(items[i]),
        decoded_len(items) < items.len() ==> !(items[decoded_len(items) as int] is Address),
    decreases items.len(),
{
    if items.len() == 0 || !(items.first() is Address) {
    } else {
        let rest = items.drop_first();
        law_unsorted_keeps_the_response_order(rest);
        assert forall|i: int| 0 <= i < decoded_len(items) implies (#[trigger] items[i]) is Address by {
            if i > 0 {
                assert(rest[i - 1] == items[i]);
            }
        }
        if decoded_len(items) < items.len() {
            assert(rest[decoded_len(rest) as int] == items[decoded_len(items) as int]);
        }
    }
}

/// Sorted, what the lookup shows of an answer without failure depends on
/// the set of its addresses alone: showing it again, or in another order,
/// gives the same output.
pub proof fn law_sorted_output_depends_on_the_addresses_alone(a: Seq<Slot>, b: Seq<Slot>)
    requires
        decoded_len(a) == a.len(),
        decoded_len(b) == b.len(),
        addresses_of(a).to_set() == addresses_of(b).to_set(),
    ensures
        gathered(a, true) == gathered(b, true),
{
    assert(a.take(a.len() as int) =~= a);
    assert(b.take(b.len() as int) =~= b);
    crate::sorting::law_sorted_unique_ignores_order(addresses_of(a), addresses_of(b));
}

} // verus!
