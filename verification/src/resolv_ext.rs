//! The record extractor: a double-ended, lazy walk over the records of one
//! type in one section of a response.
//!
//! Each step decodes records of the source, and decoding takes the source
//! mutably. What a step hands out is therefore stated in two parts: what
//! holds whatever decoding does to the source, and what holds of a source
//! that keeps its records (`RecordSource::keeps_records`). The second part
//! is the whole of it: the item is the first of the pending items, and the
//! rest stay pending.

use vstd::prelude::*;
use core::marker::PhantomData;
use crate::address::Family;
use crate::record::{item_slot, AddressRecord};
use crate::source::{kept, same_records, DecodeError, RecordSource, Section, Slot};

verus! {

/// A slot counts for the extractor unless its record is of another type.
pub open spec fn is_relevant(slot: Slot) -> bool {
    !(slot is WrongType)
}

/// The slots that count, in their order.
pub open spec fn relevant(slots: Seq<Slot>) -> Seq<Slot> {
    slots.filter(|slot: Slot| is_relevant(slot))
}

/// The values of decoding the records `from..to` of `section` of `source` as
/// records of `family`, in their order.
pub open spec fn window_of<S: RecordSource>(
    source: S,
    family: Family,
    section: Section,
    from: int,
    to: int,
) -> Seq<Slot> {
    Seq::new(
        if from <= to {
            (to - from) as nat
        } else {
            0
        },
        |k: int| source.spec_slot(family, section, from + k),
    )
}

/// Every record of `from..to` is of another type than the one asked for.
pub open spec fn all_skipped<S: RecordSource>(
    source: S,
    family: Family,
    section: Section,
    from: int,
    to: int,
) -> bool {
    forall|i: int| from <= i < to ==> #[trigger] source.spec_slot(family, section, i) is WrongType
}

/// The values of a run of items.
pub open spec fn item_slots<T: AddressRecord>(items: Seq<Result<T, DecodeError>>) -> Seq<Slot> {
    items.map_values(|item: Result<T, DecodeError>| item_slot(item))
}

/// Where the front cursor stands once a walk from `front` towards `back`
/// has found nothing.
pub open spec fn exhausted_front(front: int, back: int) -> int {
    if front <= back {
        back
    } else {
        front
    }
}

/// Where the back cursor stands once a walk from `back` towards `front`
/// has found nothing.
pub open spec fn exhausted_back(front: int, back: int) -> int {
    if front <= back {
        front
    } else {
        back
    }
}

/// Two sources that hold the same table show the same window.
pub proof fn lemma_same_window<S: RecordSource>(
    before: S,
    after: S,
    family: Family,
    section: Section,
    from: int,
    to: int,
)
    requires
        same_records(before, after),
    ensures
        window_of(after, family, section, from, to) == window_of(before, family, section, from, to),
{
    let w_before = window_of(before, family, section, from, to);
    let w_after = window_of(after, family, section, from, to);
    assert forall|k: int| 0 <= k < w_before.len() implies w_after[k] == w_before[k] by {
        assert(after.spec_slot(family, section, from + k) == before.spec_slot(
            family,
            section,
            from + k,
        ));
    }
    assert(w_after =~= w_before);
}

/// Records of another type at the front of a window add nothing to what
/// counts in it.
proof fn lemma_skipped_front<S: RecordSource>(
    source: S,
    family: Family,
    section: Section,
    from: int,
    mid: int,
    to: int,
)
    requires
        from <= mid <= to,
        all_skipped(source, family, section, from, mid),
    ensures
        relevant(window_of(source, family, section, from, to)) == relevant(
            window_of(source, family, section, mid, to),
        ),
    decreases mid - from,
{
    if from < mid {
        let whole = window_of(source, family, section, from, to);
        let rest = window_of(source, family, section, from + 1, to);
        let head = source.spec_slot(family, section, from);
        assert(head is WrongType);
        assert(whole =~= seq![head] + rest);
        rest.lemma_filter_prepend(head, |slot: Slot| is_relevant(slot));
        assert(relevant(whole) =~= relevant(rest));
        lemma_skipped_front(source, family, section, from + 1, mid, to);
    }
}

/// A record that counts at the front of a window is the first of what counts
/// in it, and what follows is what counts behind it.
proof fn lemma_found_front<S: RecordSource>(
    source: S,
    family: Family,
    section: Section,
    at: int,
    to: int,
)
    requires
        at < to,
        is_relevant(source.spec_slot(family, section, at)),
    ensures
        relevant(window_of(source, family, section, at, to)).len() > 0,
        relevant(window_of(source, family, section, at, to)).first() == source.spec_slot(
            family,
            section,
            at,
        ),
        relevant(window_of(source, family, section, at, to)).drop_first() == relevant(
            window_of(source, family, section, at + 1, to),
        ),
{
    let whole = window_of(source, family, section, at, to);
    let rest = window_of(source, family, section, at + 1, to);
    let head = source.spec_slot(family, section, at);
    assert(whole =~= seq![head] + rest);
    rest.lemma_filter_prepend(head, |slot: Slot| is_relevant(slot));
    assert(relevant(whole) =~= seq![head] + relevant(rest));
    assert(relevant(whole).drop_first() =~= relevant(rest));
}

/// Records of another type at the back of a window add nothing to what
/// counts in it.
proof fn lemma_skipped_back<S: RecordSource>(
    source: S,
    family: Family,
    section: Section,
    from: int,
    mid: int,
    to: int,
)
    requires
        from <= mid <= to,
        all_skipped(source, family, section, mid, to),
    ensures
        relevant(window_of(source, family, section, from, to)) == relevant(
            window_of(source, family, section, from, mid),
        ),
    decreases to - mid,
{
    if mid < to {
        let whole = window_of(source, family, section, from, to);
        let rest = window_of(source, family, section, from, to - 1);
        let tail = source.spec_slot(family, section, to - 1);
        assert(tail is WrongType);
        assert(whole =~= rest.push(tail));
        rest.lemma_filter_push(tail, |slot: Slot| is_relevant(slot));
        assert(relevant(whole) =~= relevant(rest));
        lemma_skipped_back(source, family, section, from, mid, to - 1);
    }
}

/// A record that counts at the back of a window is the last of what counts
/// in it, and what stands before is what counts before it.
proof fn lemma_found_back<S: RecordSource>(
    source: S,
    family: Family,
    section: Section,
    from: int,
    at: int,
)
    requires
        from <= at,
        is_relevant(source.spec_slot(family, section, at)),
    ensures
        relevant(window_of(source, family, section, from, at + 1)).len() > 0,
        relevant(window_of(source, family, section, from, at + 1)).last() == source.spec_slot(
            family,
            section,
            at,
        ),
        relevant(window_of(source, family, section, from, at + 1)).drop_last() == relevant(
            window_of(source, family, section, from, at),
        ),
{
    let whole = window_of(source, family, section, from, at + 1);
    let rest = window_of(source, family, section, from, at);
    let tail = source.spec_slot(family, section, at);
    assert(whole =~= rest.push(tail));
    rest.lemma_filter_push(tail, |slot: Slot| is_relevant(slot));
    assert(relevant(whole) =~= relevant(rest).push(tail));
    assert(relevant(whole).drop_last() =~= relevant(rest));
}

/// `kept` passes on from step to step.
pub proof fn lemma_kept_on<S: RecordSource>(first: S, middle: S, last: S)
    requires
        kept(first, middle),
        kept(middle, last),
    ensures
        kept(first, last),
{
    if first.keeps_records() {
        assert forall|s: Section| last.spec_len(s) == #[trigger] first.spec_len(s) by {
            assert(middle.spec_len(s) == first.spec_len(s));
        }
        assert forall|f: Family, s: Section, i: int|
            last.spec_slot(f, s, i) == #[trigger] first.spec_slot(f, s, i) by {
            assert(middle.spec_slot(f, s, i) == first.spec_slot(f, s, i));
        }
    }
}

/// The records of type `T` in one section of a source, from either end.
///
/// The extractor holds the source and two cursors. The records between the
/// cursors are those it has not visited; it decodes a record when it reaches
/// it and keeps no copy. The fields are open: whatever the cursors are set
/// to, the methods do what their contracts say.
pub struct Records<'a, S: RecordSource, T: AddressRecord> {
    /// The source that the records are decoded from.
    pub source: &'a mut S,
    /// The section that this extractor walks.
    pub section: Section,
    /// The index of the first record not yet visited from the front.
    pub current: usize,
    /// The index just behind the last record not yet visited from the back.
    pub end: usize,
    pub marker: PhantomData<T>,
}

impl<'a, S: RecordSource, T: AddressRecord> Records<'a, S, T> {
    /// The source as it stands now.
    pub open spec fn source(&self) -> S {
        *self.source
    }

    /// The section that this extractor walks.
    pub open spec fn section(&self) -> Section {
        self.section
    }

    /// The index of the first record not yet visited from the front.
    pub open spec fn front(&self) -> int {
        self.current as int
    }

    /// The index just behind the last record not yet visited from the back.
    pub open spec fn back(&self) -> int {
        self.end as int
    }

    /// The value of decoding record `index` of the section as a `T`.
    pub open spec fn slot_at(&self, index: int) -> Slot {
        self.source().spec_slot(T::spec_family(), self.section(), index)
    }

    /// The values of the records between the cursors.
    pub open spec fn window(&self) -> Seq<Slot> {
        window_of(self.source(), T::spec_family(), self.section(), self.front(), self.back())
    }

    /// The values of the items still to come, front to back.
    pub open spec fn pending(&self) -> Seq<Slot> {
        relevant(self.window())
    }

    /// The cursors are in order. An extractor is made so and its methods
    /// keep it so.
    pub open spec fn wf(&self) -> bool {
        self.front() <= self.back()
    }

    /// What `next` hands out of a source that keeps its records.
    pub open spec fn next_of_kept(before: Self, after: Self, item: Option<Result<T, DecodeError>>)
        -> bool {
        &&& same_records(before.source(), after.source())
        &&& after.source().keeps_records()
        &&& all_skipped(
            before.source(),
            T::spec_family(),
            before.section(),
            before.front(),
            if item is Some {
                after.front() - 1
            } else {
                before.back()
            },
        )
        &&& match item {
            Some(found) => {
                &&& item_slot(found) == before.slot_at(after.front() - 1)
                &&& before.pending().len() > 0
                &&& item_slot(found) == before.pending().first()
                &&& after.pending() == before.pending().drop_first()
            },
            None => before.pending().len() == 0,
        }
    }

    /// What `next_back` hands out of a source that keeps its records.
    pub open spec fn next_back_of_kept(
        before: Self,
        after: Self,
        item: Option<Result<T, DecodeError>>,
    ) -> bool {
        &&& same_records(before.source(), after.source())
        &&& after.source().keeps_records()
        &&& all_skipped(
            before.source(),
            T::spec_family(),
            before.section(),
            if item is Some {
                after.back() + 1
            } else {
                before.front()
            },
            before.back(),
        )
        &&& match item {
            Some(found) => {
                &&& item_slot(found) == before.slot_at(after.back())
                &&& before.pending().len() > 0
                &&& item_slot(found) == before.pending().last()
                &&& after.pending() == before.pending().drop_last()
            },
            None => before.pending().len() == 0,
        }
    }

    pub(crate) fn new(source: &'a mut S, section: Section) -> (records: Records<'a, S, T>)
        ensures
            records.source() == *old(source),
            *final(source) == *final(records.source),
            records.section() == section,
            records.front() == 0,
            records.back() == old(source).spec_len(section),
            records.wf(),
    {
        let count: usize = source.section_count(section);
        Records { source, section, current: 0, end: count, marker: PhantomData }
    }

    /// The next item from the front, or `None` when no item is left.
    ///
    /// Walks from the front cursor towards the back cursor, decoding each
    /// record it meets. A record of another type is passed over; the first
    /// record of type `T`, decoded or not, is handed out, and the walk stops
    /// behind it.
    ///
    /// The first record that the walk reads, it reads from the source as it
    /// was. What it reads after that is known of a source that keeps its
    /// records.
    pub fn next(&mut self) -> (item: Option<Result<T, DecodeError>>)
        ensures
            final(self).section() == old(self).section(),
            final(self).back() == old(self).back(),
            *final(final(self).source) == *final(old(self).source),
            old(self).wf() ==> final(self).wf(),
            kept(old(self).source(), final(self).source()),
            match item {
                Some(_) => old(self).front() < final(self).front() <= old(self).back(),
                None => final(self).front() == exhausted_front(
                    old(self).front(),
                    old(self).back(),
                ),
            },
            old(self).front() < old(self).back() ==> (match item {
                Some(found) if final(self).front() == old(self).front() + 1 => item_slot(found)
                    == old(self).slot_at(old(self).front()),
                _ => old(self).slot_at(old(self).front()) is WrongType,
            }),
            final(self).front() == old(self).front() ==> final(self).source() == old(self).source(),
            old(self).source().keeps_records() ==> Self::next_of_kept(*old(self), *final(self), item),
    {
        while self.current < self.end
            invariant
                self.section() == old(self).section(),
                self.back() == old(self).back(),
                *final(self.source) == *final(old(self).source),
                old(self).front() <= self.front(),
                self.front() <= self.back() || self.front() == old(self).front(),
                self.front() == old(self).front() ==> self.source() == old(self).source(),
                self.front() > old(self).front() ==> old(self).slot_at(old(self).front()) is WrongType,
                kept(old(self).source(), self.source()),
                old(self).source().keeps_records() ==> all_skipped(
                    old(self).source(),
                    T::spec_family(),
                    old(self).section(),
                    old(self).front(),
                    self.front(),
                ),
            decreases self.end - self.current,
        {
            let index: usize = self.current;
            self.current = self.current + 1;
            let ghost before = self.source();
            let decoded = T::decode_at(self.source, self.section, index);
            let item = decoded.into_item();
            proof {
                lemma_kept_on(old(self).source(), before, self.source());
                assert(decoded.slot() == before.spec_slot(
                    T::spec_family(),
                    self.section(),
                    index as int,
                ));
                if old(self).source().keeps_records() {
                    assert(before.spec_slot(T::spec_family(), self.section(), index as int) == old(
                        self,
                    ).source().spec_slot(T::spec_family(), self.section(), index as int));
                }
            }
            match item {
                Some(found) => {
                    proof {
                        if old(self).source().keeps_records() {
                            let first = old(self).source();
                            let family = T::spec_family();
                            let section = self.section();
                            let start = old(self).front();
                            let stop = self.back();
                            lemma_skipped_front(first, family, section, start, index as int, stop);
                            lemma_found_front(first, family, section, index as int, stop);
                            lemma_same_window(first, self.source(), family, section, index + 1, stop);
                        }
                    }
                    return Some(found);
                },
                None => {},
            }
        }
        proof {
            if old(self).source().keeps_records() {
                let first = old(self).source();
                let family = T::spec_family();
                let section = self.section();
                let start = old(self).front();
                let stop = self.back();
                if start <= stop {
                    lemma_skipped_front(first, family, section, start, stop, stop);
                }
                assert(window_of(first, family, section, stop, stop) =~= Seq::<Slot>::empty());
                assert(old(self).window().len() == 0 ==> old(self).window() =~= Seq::<Slot>::empty());
                lemma_nothing_counts_in_nothing();
            }
        }
        None
    }

    /// The next item from the back, or `None` when no item is left.
    ///
    /// Walks from the back cursor towards the front cursor, as `next` does
    /// in the other direction.
    pub fn next_back(&mut self) -> (item: Option<Result<T, DecodeError>>)
        ensures
            final(self).section() == old(self).section(),
            final(self).front() == old(self).front(),
            *final(final(self).source) == *final(old(self).source),
            old(self).wf() ==> final(self).wf(),
            kept(old(self).source(), final(self).source()),
            match item {
                Some(_) => old(self).front() <= final(self).back() < old(self).back(),
                None => final(self).back() == exhausted_back(old(self).front(), old(self).back()),
            },
            old(self).front() < old(self).back() ==> (match item {
                Some(found) if final(self).back() == old(self).back() - 1 => item_slot(found)
                    == old(self).slot_at(old(self).back() - 1),
                _ => old(self).slot_at(old(self).back() - 1) is WrongType,
            }),
            final(self).back() == old(self).back() ==> final(self).source() == old(self).source(),
            old(self).source().keeps_records() ==> Self::next_back_of_kept(
                *old(self),
                *final(self),
                item,
            ),
    {
        while self.current < self.end
            invariant
                self.section() == old(self).section(),
                self.front() == old(self).front(),
                *final(self.source) == *final(old(self).source),
                self.back() <= old(self).back(),
                self.front() <= self.back() || self.back() == old(self).back(),
                self.back() == old(self).back() ==> self.source() == old(self).source(),
                self.back() < old(self).back() ==> old(self).slot_at(old(self).back() - 1) is WrongType,
                kept(old(self).source(), self.source()),
                old(self).source().keeps_records() ==> all_skipped(
                    old(self).source(),
                    T::spec_family(),
                    old(self).section(),
                    self.back(),
                    old(self).back(),
                ),
            decreases self.end - self.current,
        {
            self.end = self.end - 1;
            let index: usize = self.end;
            let ghost before = self.source();
            let decoded = T::decode_at(self.source, self.section, index);
            let item = decoded.into_item();
            proof {
                lemma_kept_on(old(self).source(), before, self.source());
                assert(decoded.slot() == before.spec_slot(
                    T::spec_family(),
                    self.section(),
                    index as int,
                ));
                if old(self).source().keeps_records() {
                    assert(before.spec_slot(T::spec_family(), self.section(), index as int) == old(
                        self,
                    ).source().spec_slot(T::spec_family(), self.section(), index as int));
                }
            }
            match item {
                Some(found) => {
                    proof {
                        if old(self).source().keeps_records() {
                            let first = old(self).source();
                            let family = T::spec_family();
                            let section = self.section();
                            let start = self.front();
                            let stop = old(self).back();
                            lemma_skipped_back(first, family, section, start, index + 1, stop);
                            lemma_found_back(first, family, section, start, index as int);
                            lemma_same_window(first, self.source(), family, section, start, index as int);
                        }
                    }
                    return Some(found);
                },
                None => {},
            }
        }
        proof {
            if old(self).source().keeps_records() {
                let first = old(self).source();
                let family = T::spec_family();
                let section = self.section();
                let start = self.front();
                let stop = old(self).back();
                if start <= stop {
                    lemma_skipped_back(first, family, section, start, start, stop);
                }
                assert(window_of(first, family, section, start, start) =~= Seq::<Slot>::empty());
                assert(old(self).window().len() == 0 ==> old(self).window() =~= Seq::<Slot>::empty());
                lemma_nothing_counts_in_nothing();
            }
        }
        None
    }

    /// All the items still to come, front to back. Of a source that keeps
    /// its records, they are the pending items.
    pub fn collect(&mut self) -> (items: Vec<Result<T, DecodeError>>)
        ensures
            final(self).section() == old(self).section(),
            final(self).back() == old(self).back(),
            *final(final(self).source) == *final(old(self).source),
            old(self).wf() ==> final(self).wf(),
            kept(old(self).source(), final(self).source()),
            final(self).window().len() == 0,
            items@.len() <= old(self).window().len(),
            old(self).source().keeps_records() ==> item_slots(items@) == old(self).pending(),
    {
        let mut items: Vec<Result<T, DecodeError>> = Vec::new();
        proof {
            assert(item_slots(items@) =~= Seq::<Slot>::empty());
            assert(old(self).pending().skip(0) =~= old(self).pending());
        }
        loop
            invariant
                self.section() == old(self).section(),
                self.back() == old(self).back(),
                *final(self.source) == *final(old(self).source),
                old(self).wf() ==> self.wf(),
                kept(old(self).source(), self.source()),
                items@.len() + self.window().len() <= old(self).window().len(),
                old(self).source().keeps_records() ==> {
                    &&& items@.len() <= old(self).pending().len()
                    &&& item_slots(items@) == old(self).pending().take(items@.len() as int)
                    &&& self.pending() == old(self).pending().skip(items@.len() as int)
                },
            decreases self.window().len(),
        {
            let ghost all = old(self).pending();
            let ghost k = items@.len() as int;
            let ghost before = self.source();
            match self.next() {
                Some(found) => {
                    items.push(found);
                    proof {
                        lemma_kept_on(old(self).source(), before, self.source());
                        if old(self).source().keeps_records() {
                            assert(all.skip(k).first() == all[k]);
                            assert(all.skip(k).drop_first() =~= all.skip(k + 1));
                            assert(item_slots(items@) =~= all.take(k + 1));
                        }
                    }
                },
                None => {
                    proof {
                        lemma_kept_on(old(self).source(), before, self.source());
                        if old(self).source().keeps_records() {
                            assert(all.take(k) =~= all);
                        }
                    }
                    return items;
                },
            }
        }
    }

    /// All the items still to come, back to front. Of a source that keeps
    /// its records, they are the pending items in the opposite order.
    pub fn collect_rev(&mut self) -> (items: Vec<Result<T, DecodeError>>)
        ensures
            final(self).section() == old(self).section(),
            final(self).front() == old(self).front(),
            *final(final(self).source) == *final(old(self).source),
            old(self).wf() ==> final(self).wf(),
            kept(old(self).source(), final(self).source()),
            final(self).window().len() == 0,
            items@.len() <= old(self).window().len(),
            old(self).source().keeps_records() ==> item_slots(items@) == old(self).pending().reverse(),
    {
        let mut items: Vec<Result<T, DecodeError>> = Vec::new();
        proof {
            assert(old(self).pending().take(old(self).pending().len() as int) =~= old(
                self,
            ).pending());
        }
        loop
            invariant
                self.section() == old(self).section(),
                self.front() == old(self).front(),
                *final(self.source) == *final(old(self).source),
                old(self).wf() ==> self.wf(),
                kept(old(self).source(), self.source()),
                items@.len() + self.window().len() <= old(self).window().len(),
                old(self).source().keeps_records() ==> {
                    &&& items@.len() <= old(self).pending().len()
                    &&& forall|i: int|
                        0 <= i < items@.len() ==> item_slot(#[trigger] items@[i]) == old(
                            self,
                        ).pending()[old(self).pending().len() - 1 - i]
                    &&& self.pending() == old(self).pending().take(
                        old(self).pending().len() - items@.len(),
                    )
                },
            decreases self.window().len(),
        {
            let ghost all = old(self).pending();
            let ghost rest = all.len() - items@.len();
            let ghost before = self.source();
            match self.next_back() {
                Some(found) => {
                    items.push(found);
                    proof {
                        lemma_kept_on(old(self).source(), before, self.source());
                        if old(self).source().keeps_records() {
                            assert(all.take(rest).last() == all[rest - 1]);
                            assert(all.take(rest).drop_last() =~= all.take(rest - 1));
                        }
                    }
                },
                None => {
                    proof {
                        lemma_kept_on(old(self).source(), before, self.source());
                        if old(self).source().keeps_records() {
                            assert(item_slots(items@) =~= all.reverse());
                        }
                    }
                    return items;
                },
            }
        }
    }

    /// Bounds on the number of items still to come: none is promised, and
    /// there are no more than records between the cursors. The upper bound
    /// counts the records of other types too.
    pub fn size_hint(&self) -> (hint: (usize, Option<usize>))
        ensures
            hint.0 == 0,
            hint.1 == Some(self.window().len() as usize),
            hint.0 <= self.pending().len() <= self.window().len(),
    {
        proof {
            self.window().lemma_filter_len(|slot: Slot| is_relevant(slot));
        }
        if self.current < self.end {
            (0, Some(self.end - self.current))
        } else {
            (0, Some(0))
        }
    }
}

/// The extractor, as a method of every source.
pub trait ResponseExt: RecordSource {
    /// An extractor over the records of type `T` in `section`, with nothing
    /// visited yet. It reads the section's record count once, here.
    fn records<T: AddressRecord>(&mut self, section: Section) -> (records: Records<'_, Self, T>)
        ensures
            records.source() == *old(self),
            *final(self) == *final(records.source),
            records.section() == section,
            records.front() == 0,
            records.back() == old(self).spec_len(section),
            records.wf(),
            records.window().len() == old(self).spec_len(section),
            records.pending() == relevant(
                window_of(
                    *old(self),
                    T::spec_family(),
                    section,
                    0,
                    old(self).spec_len(section) as int,
                ),
            ),
    ;
}

impl<S: RecordSource> ResponseExt for S {
    fn records<T: AddressRecord>(&mut self, section: Section) -> (records: Records<'_, S, T>) {
        Records::new(self, section)
    }
}

/// Nothing counts in an empty window.
proof fn lemma_nothing_counts_in_nothing()
    ensures
        relevant(Seq::<Slot>::empty()).len() == 0,
{
    Seq::<Slot>::empty().lemma_filter_len(|slot: Slot| is_relevant(slot));
}


/// The slots of `slots` whose record is of another type than the one asked
/// for.
pub open spec fn skipped(slots: Seq<Slot>) -> Seq<Slot> {
    slots.filter(|slot: Slot| !is_relevant(slot))
}

/// Of the records of a section, the extractor hands out those of the type
/// asked for and no others: as many items as there are such records, each
/// of them a decoded address or a decoding failure, and every such record
/// is among them.
pub proof fn law_extractor_yields_the_records_of_its_type(slots: Seq<Slot>)
    ensures
        relevant(slots).len() + skipped(slots).len() == slots.len(),
        forall|i: int|
            0 <= i < relevant(slots).len() ==> (#[trigger] relevant(slots)[i]) is Address
                || relevant(slots)[i] is Failed,
        forall|i: int|
            0 <= i < slots.len() && !(slots[i] is WrongType) ==> relevant(slots).contains(
                #[trigger] slots[i],
            ),
        forall|i: int| 0 <= i < relevant(slots).len() ==> slots.contains(#[trigger] relevant(slots)[i]),
    decreases slots.len(),
{
    let keep = |slot: Slot| is_relevant(slot);
    let drop = |slot: Slot| !is_relevant(slot);
    if slots.len() == 0 {
        slots.lemma_filter_len(keep);
        slots.lemma_filter_len(drop);
    } else {
        let front = slots.drop_last();
        let last = slots.last();
        law_extractor_yields_the_records_of_its_type(front);
        assert(slots =~= front.push(last));
        front.lemma_filter_push(last, keep);
        front.lemma_filter_push(last, drop);
        assert forall|i: int| 0 <= i < relevant(slots).len() implies (#[trigger] relevant(
            slots,
        )[i]) is Address || relevant(slots)[i] is Failed by {
            if i < relevant(front).len() {
                assert(relevant(slots)[i] == relevant(front)[i]);
            }
        }
        assert forall|i: int| 0 <= i < slots.len() && !(slots[i] is WrongType) implies relevant(
            slots,
        ).contains(#[trigger] slots[i]) by {
            if i < front.len() {
                assert(front[i] == slots[i]);
                assert(relevant(front).contains(front[i]));
                let k = choose|k: int| 0 <= k < relevant(front).len() && relevant(front)[k] == front[i];
                assert(relevant(slots)[k] == slots[i]);
            } else {
                assert(relevant(slots)[relevant(slots).len() - 1] == slots[i]);
            }
        }
        assert forall|i: int| 0 <= i < relevant(slots).len() implies slots.contains(
            #[trigger] relevant(slots)[i],
        ) by {
            if i < relevant(front).len() {
                assert(relevant(slots)[i] == relevant(front)[i]);
                assert(front.contains(relevant(front)[i]));
                let k = choose|k: int| 0 <= k < front.len() && front[k] == relevant(front)[i];
                assert(slots[k] == relevant(slots)[i]);
            } else {
                assert(slots[slots.len() - 1] == relevant(slots)[i]);
            }
        }
    }
}

/// An extractor made over a source when an earlier one is gone hands out
/// the whole sequence again, if the source holds the records it held: an
/// earlier walk leaves no trace in a source that keeps its records.
pub proof fn law_same_records_same_walk<S: RecordSource>(
    before: S,
    after: S,
    family: Family,
    section: Section,
)
    requires
        same_records(before, after),
    ensures
        relevant(window_of(after, family, section, 0, after.spec_len(section) as int)) == relevant(
            window_of(before, family, section, 0, before.spec_len(section) as int),
        ),
{
    lemma_same_window(before, after, family, section, 0, before.spec_len(section) as int);
}

/// Walking an extractor from the back hands out what walking it from the
/// front hands out, in the opposite order: the same items, each as often.
/// Of an extractor with the items `pending` still to come, `collect` yields
/// `pending` and `collect_rev` yields `pending.reverse()`.
pub proof fn law_backward_walk_reverses_forward_walk(pending: Seq<Slot>)
    ensures
        pending.reverse().len() == pending.len(),
        forall|i: int|
            0 <= i < pending.len() ==> pending.reverse()[i] == pending[pending.len() - 1 - i],
        pending.reverse().to_multiset() == pending.to_multiset(),
        pending.reverse().reverse() == pending,
{
    pending.lemma_reverse_to_multiset();
    assert(pending.reverse().reverse() =~= pending);
}

} // verus!
