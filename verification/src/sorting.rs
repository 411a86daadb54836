//! Sorting addresses and dropping repeats, and what holds of the two
//! together.

use vstd::prelude::*;
use vstd::seq_lib::{to_multiset_build, to_multiset_insert};
use crate::address::{lemma_rank_is_injective, Address};

verus! {

/// No address of `s` stands before one of lower rank.
pub open spec fn ascending(s: Seq<Address>) -> bool {
    forall|i: int, j: int| 0 <= i < j < s.len() ==> s[i].rank() <= s[j].rank()
}

/// Each address of `s` is of lower rank than all that follow it: `s` is
/// ascending and holds no address twice.
pub open spec fn strictly_ascending(s: Seq<Address>) -> bool {
    forall|i: int, j: int| 0 <= i < j < s.len() ==> s[i].rank() < s[j].rank()
}

/// `s` without each address that repeats the one just before it.
pub open spec fn without_repeats(s: Seq<Address>) -> Seq<Address>
    decreases s.len(),
{
    if s.len() <= 1 {
        s
    } else if s[s.len() - 2] == s.last() {
        without_repeats(s.drop_last())
    } else {
        without_repeats(s.drop_last()).push(s.last())
    }
}

/// The addresses of `s`, each once, in ascending order.
pub open spec fn sorted_unique(s: Seq<Address>) -> Seq<Address> {
    choose|r: Seq<Address>| strictly_ascending(r) && r.to_set() == s.to_set()
}

/// There is one way only to write a set of addresses in strictly ascending
/// order.
pub proof fn lemma_strictly_ascending_is_unique(a: Seq<Address>, b: Seq<Address>)
    requires
        strictly_ascending(a),
        strictly_ascending(b),
        a.to_set() == b.to_set(),
    ensures
        a == b,
    decreases a.len(),
{
    if a.len() == 0 {
        if b.len() > 0 {
            assert(b.to_set().contains(b[0]));
            assert(a.contains(b[0]));
        }
        assert(a =~= b);
    } else {
        assert(a.to_set().contains(a.last()));
        assert(b.contains(a.last()));
        assert(b.len() > 0);
        assert(b.to_set().contains(b.last()));
        assert(a.contains(b.last()));
        let i = choose|i: int| 0 <= i < b.len() && b[i] == a.last();
        let j = choose|j: int| 0 <= j < a.len() && a[j] == b.last();
        assert(a.last().rank() <= b.last().rank());
        assert(b.last().rank() <= a.last().rank());
        lemma_rank_is_injective(a.last(), b.last());
        assert(a.last() == b.last());
        let a0 = a.drop_last();
        let b0 = b.drop_last();
        assert forall|x: Address| a0.to_set().contains(x) <==> b0.to_set().contains(x) by {
            if a0.contains(x) {
                let k = choose|k: int| 0 <= k < a0.len() && a0[k] == x;
                assert(a[k] == x);
                assert(x.rank() < a.last().rank());
                assert(a.to_set().contains(x));
                assert(b.contains(x));
                let m = choose|m: int| 0 <= m < b.len() && b[m] == x;
                assert(m < b.len() - 1);
                assert(b0[m] == x);
            }
            if b0.contains(x) {
                let k = choose|k: int| 0 <= k < b0.len() && b0[k] == x;
                assert(b[k] == x);
                assert(x.rank() < b.last().rank());
                assert(b.to_set().contains(x));
                assert(a.contains(x));
                let m = choose|m: int| 0 <= m < a.len() && a[m] == x;
                assert(m < a.len() - 1);
                assert(a0[m] == x);
            }
        }
        assert(a0.to_set() =~= b0.to_set());
        lemma_strictly_ascending_is_unique(a0, b0);
        assert(a =~= a0.push(a.last()));
        assert(b =~= b0.push(b.last()));
    }
}

/// Dropping the repeats of an ascending sequence leaves its addresses, each
/// once, still in order, and ending as it ended.
pub proof fn lemma_without_repeats_of_ascending(s: Seq<Address>)
    requires
        ascending(s),
    ensures
        strictly_ascending(without_repeats(s)),
        without_repeats(s).to_set() == s.to_set(),
        without_repeats(s).len() <= s.len(),
        s.len() > 0 ==> without_repeats(s).len() > 0 && without_repeats(s).last() == s.last(),
    decreases s.len(),
{
    let r = without_repeats(s);
    if s.len() <= 1 {
    } else {
        let s0 = s.drop_last();
        let r0 = without_repeats(s0);
        assert(ascending(s0));
        lemma_without_repeats_of_ascending(s0);
        assert(r0.last() == s[s.len() - 2]);
        if s[s.len() - 2] == s.last() {
            assert forall|x: Address| s.to_set().contains(x) <==> r.to_set().contains(x) by {
                if s.contains(x) {
                    let k = choose|k: int| 0 <= k < s.len() && s[k] == x;
                    if k == s.len() - 1 {
                        assert(s0[s.len() - 2] == x);
                    } else {
                        assert(s0[k] == x);
                    }
                    assert(s0.to_set().contains(x));
                }
                if r.contains(x) {
                    assert(s0.to_set().contains(x));
                    let k = choose|k: int| 0 <= k < s0.len() && s0[k] == x;
                    assert(s[k] == x);
                }
            }
            assert(r.to_set() =~= s.to_set());
        } else {
            assert(r == r0.push(s.last()));
            lemma_rank_is_injective(s[s.len() - 2], s.last());
            assert(s[s.len() - 2].rank() < s.last().rank());
            assert forall|i: int, j: int| 0 <= i < j < r.len() implies r[i].rank() < r[j].rank() by {
                if j == r.len() - 1 {
                    assert(r[i] == r0[i]);
                    assert(r0[i].rank() <= r0.last().rank());
                }
            }
            assert forall|x: Address| s.to_set().contains(x) <==> r.to_set().contains(x) by {
                if s.contains(x) {
                    let k = choose|k: int| 0 <= k < s.len() && s[k] == x;
                    if k == s.len() - 1 {
                        assert(r[r.len() - 1] == x);
                    } else {
                        assert(s0[k] == x);
                        assert(s0.to_set().contains(x));
                        assert(r0.contains(x));
                        let m = choose|m: int| 0 <= m < r0.len() && r0[m] == x;
                        assert(r[m] == x);
                    }
                }
                if r.contains(x) {
                    let k = choose|k: int| 0 <= k < r.len() && r[k] == x;
                    if k == r.len() - 1 {
                        assert(s[s.len() - 1] == x);
                    } else {
                        assert(r0[k] == x);
                        assert(r0.to_set().contains(x));
                        assert(s0.contains(x));
                        let m = choose|m: int| 0 <= m < s0.len() && s0[m] == x;
                        assert(s[m] == x);
                    }
                }
            }
            assert(r.to_set() =~= s.to_set());
        }
    }
}

/// A strictly ascending sequence with the addresses of `s` is
/// `sorted_unique(s)`.
pub proof fn lemma_sorted_unique_is(s: Seq<Address>, r: Seq<Address>)
    requires
        strictly_ascending(r),
        r.to_set() == s.to_set(),
    ensures
        r == sorted_unique(s),
        strictly_ascending(sorted_unique(s)),
        sorted_unique(s).to_set() == s.to_set(),
{
    let chosen = sorted_unique(s);
    lemma_strictly_ascending_is_unique(chosen, r);
}

/// Sorts the addresses into ascending order. What was there is there
/// afterwards, as often as before.
pub fn sort(addresses: &mut Vec<Address>)
    ensures
        ascending(final(addresses)@),
        final(addresses)@.to_multiset() == old(addresses)@.to_multiset(),
{
    let mut sorted: Vec<Address> = Vec::new();
    let mut i: usize = 0;
    assert(addresses@.take(0) =~= sorted@);
    while i < addresses.len()
        invariant
            i <= addresses.len(),
            ascending(sorted@),
            sorted@.to_multiset() == addresses@.take(i as int).to_multiset(),
        decreases addresses.len() - i,
    {
        let item: Address = addresses[i];
        let mut at: usize = 0;
        while at < sorted.len() && !item.precedes(&sorted[at])
            invariant
                at <= sorted.len(),
                forall|k: int| 0 <= k < at ==> sorted@[k].rank() <= item.rank(),
            decreases sorted.len() - at,
        {
            at = at + 1;
        }
        let ghost before = sorted@;
        sorted.insert(at, item);
        proof {
            to_multiset_insert(before, at as int, item);
            assert(addresses@.take(i + 1) =~= addresses@.take(i as int).push(item));
            to_multiset_build(addresses@.take(i as int), item);
            assert forall|a: int, b: int| 0 <= a < b < sorted@.len() implies sorted@[a].rank()
                <= sorted@[b].rank() by {
                if b < at {
                    assert(sorted@[a] == before[a] && sorted@[b] == before[b]);
                } else if b == at {
                    assert(sorted@[a] == before[a]);
                } else if a < at {
                    assert(sorted@[a] == before[a] && sorted@[b] == before[b - 1]);
                } else if a == at {
                    assert(sorted@[b] == before[b - 1]);
                    assert(before[at as int].rank() <= before[b - 1].rank());
                } else {
                    assert(sorted@[a] == before[a - 1] && sorted@[b] == before[b - 1]);
                }
            }
        }
        i = i + 1;
    }
    assert(addresses@.take(i as int) =~= addresses@);
    *addresses = sorted;
}

/// Drops each address that repeats the one just before it.
pub fn dedup(addresses: &mut Vec<Address>)
    ensures
        final(addresses)@ == without_repeats(old(addresses)@),
{
    let mut kept: Vec<Address> = Vec::new();
    let mut i: usize = 0;
    assert(addresses@.take(0) =~= kept@);
    while i < addresses.len()
        invariant
            i <= addresses.len(),
            kept@ == without_repeats(addresses@.take(i as int)),
        decreases addresses.len() - i,
    {
        let item: Address = addresses[i];
        let ghost seen = addresses@.take(i as int);
        let ghost more = addresses@.take(i + 1);
        proof {
            assert(more.drop_last() =~= seen);
            assert(more.last() == item);
            if i > 0 {
                assert(more[more.len() - 2] == addresses@[i - 1]);
            }
        }
        if i == 0 || addresses[i - 1] != item {
            kept.push(item);
        }
        i = i + 1;
    }
    assert(addresses@.take(i as int) =~= addresses@);
    *addresses = kept;
}

/// Sorts the addresses and drops the repeats: each address is there once
/// afterwards, and they ascend.
pub fn sort_dedup(addresses: &mut Vec<Address>)
    ensures
        final(addresses)@ == sorted_unique(old(addresses)@),
        strictly_ascending(final(addresses)@),
        final(addresses)@.to_set() == old(addresses)@.to_set(),
{
    sort(addresses);
    let ghost sorted = addresses@;
    dedup(addresses);
    proof {
        lemma_without_repeats_of_ascending(sorted);
        lemma_same_multiset_same_set(sorted, old(addresses)@);
        lemma_sorted_unique_is(old(addresses)@, addresses@);
    }
}

/// Two sequences that hold the same addresses as often hold the same set of
/// addresses.
pub proof fn lemma_same_multiset_same_set(a: Seq<Address>, b: Seq<Address>)
    requires
        a.to_multiset() == b.to_multiset(),
    ensures
        a.to_set() == b.to_set(),
{
    broadcast use vstd::seq_lib::group_to_multiset_ensures;

    assert forall|x: Address| a.to_set().contains(x) <==> b.to_set().contains(x) by {
        assert(a.contains(x) <==> a.to_multiset().count(x) > 0);
        assert(b.contains(x) <==> b.to_multiset().count(x) > 0);
    }
    assert(a.to_set() =~= b.to_set());
}


/// The order of addresses by rank, as a relation.
pub open spec fn rank_order() -> spec_fn(Address, Address) -> bool {
    |a: Address, b: Address| a.rank() <= b.rank()
}

/// Every sequence of addresses has its `sorted_unique`: a strictly
/// ascending sequence that holds just its addresses.
pub proof fn lemma_sorted_unique_exists(s: Seq<Address>)
    ensures
        strictly_ascending(sorted_unique(s)),
        sorted_unique(s).to_set() == s.to_set(),
{
    let order = rank_order();
    assert(vstd::relations::total_ordering(order)) by {
        assert forall|x: Address, y: Address| #[trigger] order(x, y) && #[trigger] order(y, x) implies x
            == y by {
            lemma_rank_is_injective(x, y);
        }
    }
    s.lemma_sort_by_ensures(order);
    let sorted = s.sort_by(order);
    assert(ascending(sorted)) by {
        assert forall|i: int, j: int| 0 <= i < j < sorted.len() implies sorted[i].rank()
            <= sorted[j].rank() by {
            assert(order(sorted[i], sorted[j]));
        }
    }
    lemma_without_repeats_of_ascending(sorted);
    lemma_same_multiset_same_set(s, sorted);
    lemma_sorted_unique_is(s, without_repeats(sorted));
}

/// Sorting and dropping repeats a second time changes nothing.
pub proof fn law_sorted_unique_is_idempotent(s: Seq<Address>)
    ensures
        sorted_unique(sorted_unique(s)) == sorted_unique(s),
{
    lemma_sorted_unique_exists(s);
    lemma_sorted_unique_is(sorted_unique(s), sorted_unique(s));
}

/// The sorted output does not depend on the order in which the addresses
/// came, nor on how often each came: two sequences with the same set of
/// addresses, and so any two orderings of the same addresses, give the same
/// output.
pub proof fn law_sorted_unique_ignores_order(a: Seq<Address>, b: Seq<Address>)
    requires
        a.to_multiset() == b.to_multiset() || a.to_set() == b.to_set(),
    ensures
        sorted_unique(a) == sorted_unique(b),
{
    if a.to_multiset() == b.to_multiset() {
        lemma_same_multiset_same_set(a, b);
    }
    lemma_sorted_unique_exists(a);
    lemma_sorted_unique_is(b, sorted_unique(a));
}

} // verus!
