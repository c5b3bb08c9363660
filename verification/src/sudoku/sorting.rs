//! Sorting short lists of digits and dropping their repeats.

use vstd::prelude::*;
use vstd::seq_lib::{to_multiset_build, to_multiset_insert};

verus! {

/// Each element is at most the ones after it.
pub open spec fn ascending(s: Seq<u8>) -> bool {
    forall|i: int, j: int| 0 <= i < j < s.len() ==> s[i] <= s[j]
}

/// Each element is below the ones after it.
pub open spec fn strictly_ascending(s: Seq<u8>) -> bool {
    forall|i: int, j: int| 0 <= i < j < s.len() ==> s[i] < s[j]
}

/// The list without the elements that equal the one before them.
pub open spec fn without_repeats(s: Seq<u8>) -> Seq<u8>
    decreases s.len(),
{
    if s.len() == 0 {
        s
    } else if s.len() >= 2 && s[s.len() - 2] == s.last() {
        without_repeats(s.drop_last())
    } else {
        without_repeats(s.drop_last()).push(s.last())
    }
}

/// In an ascending list a repeated value shows as two equal neighbours.
pub proof fn lemma_ascending_repeat_is_adjacent(s: Seq<u8>, i: int, j: int)
    requires
        ascending(s),
        0 <= i < j < s.len(),
        s[i] == s[j],
    ensures
        s[i] == s[i + 1],
{
    if i + 1 < j {
        assert(s[i] <= s[i + 1] && s[i + 1] <= s[j]);
    }
}

/// Two lists with the same elements, counted with their repeats, are both
/// free of repeats or both not.
pub proof fn lemma_same_elements_same_repeats(a: Seq<u8>, b: Seq<u8>)
    requires
        a.to_multiset() == b.to_multiset(),
    ensures
        a.no_duplicates() <==> b.no_duplicates(),
{
    if a.no_duplicates() {
        a.lemma_multiset_has_no_duplicates();
        b.lemma_multiset_has_no_duplicates_conv();
    }
    if b.no_duplicates() {
        b.lemma_multiset_has_no_duplicates();
        a.lemma_multiset_has_no_duplicates_conv();
    }
}

/// Two strictly ascending lists with the same elements are the same list.
pub proof fn lemma_strictly_ascending_unique(a: Seq<u8>, b: Seq<u8>)
    requires
        strictly_ascending(a),
        strictly_ascending(b),
        forall|v: u8| a.contains(v) <==> b.contains(v),
    ensures
        a == b,
    decreases a.len(),
{
    if a.len() == 0 {
        if b.len() > 0 {
            assert(b.contains(b[0]));
        }
        assert(a =~= b);
    } else {
        assert(a.contains(a[0]));
        assert(b.contains(a[0]));
        let x = a.last();
        let y = b.last();
        assert(a.contains(x));
        assert(b.contains(y));
        let at_b = choose|k: int| 0 <= k < b.len() && b[k] == x;
        let at_a = choose|k: int| 0 <= k < a.len() && a[k] == y;
        assert(x <= y) by {
            if at_b < b.len() - 1 {
                assert(b[at_b] < b[b.len() - 1]);
            }
        }
        assert(y <= x) by {
            if at_a < a.len() - 1 {
                assert(a[at_a] < a[a.len() - 1]);
            }
        }
        let front_a = a.drop_last();
        let front_b = b.drop_last();
        assert forall|v: u8| front_a.contains(v) <==> front_b.contains(v) by {
            if front_a.contains(v) {
                let k = choose|k: int| 0 <= k < front_a.len() && front_a[k] == v;
                assert(a[k] == v && a[k] < a[a.len() - 1]);
                assert(a.contains(v));
                let j = choose|j: int| 0 <= j < b.len() && b[j] == v;
                assert(front_b[j] == v);
            }
            if front_b.contains(v) {
                let k = choose|k: int| 0 <= k < front_b.len() && front_b[k] == v;
                assert(b[k] == v && b[k] < b[b.len() - 1]);
                assert(b.contains(v));
                let j = choose|j: int| 0 <= j < a.len() && a[j] == v;
                assert(front_a[j] == v);
            }
        }
        lemma_strictly_ascending_unique(front_a, front_b);
        assert(a =~= front_a.push(x));
        assert(b =~= front_b.push(y));
    }
}

/// Sorts the list in place, ascending, by insertion. The list keeps its
/// elements, each as often as before.
pub fn sort(values: &mut Vec<u8>)
    ensures
        ascending(final(values)@),
        final(values)@.to_multiset() == old(values)@.to_multiset(),
{
    let mut sorted: Vec<u8> = Vec::new();
    let mut k: usize = 0;
    proof {
        assert(values@.take(0) =~= sorted@);
    }
    while k < values.len()
        invariant
            k <= values@.len(),
            values@ == old(values)@,
            ascending(sorted@),
            sorted@.to_multiset() == values@.take(k as int).to_multiset(),
        decreases values@.len() - k,
    {
        let x: u8 = values[k];
        let mut at: usize = 0;
        while at < sorted.len() && sorted[at] <= x
            invariant
                at <= sorted@.len(),
                forall|i: int| 0 <= i < at ==> sorted@[i] <= x,
            decreases sorted@.len() - at,
        {
            at = at + 1;
        }
        proof {
            to_multiset_insert(sorted@, at as int, x);
            to_multiset_build(values@.take(k as int), x);
            assert(values@.take(k + 1) =~= values@.take(k as int).push(x));
            let longer = sorted@.insert(at as int, x);
            assert forall|i: int, j: int| 0 <= i < j < longer.len() implies longer[i]
                <= longer[j] by {
                if j < at {
                } else if j == at {
                } else if i < at {
                    assert(longer[j] == sorted@[j - 1]);
                    if at < sorted@.len() {
                        assert(sorted@[at as int] <= sorted@[j - 1] || at == j - 1);
                    }
                } else if i == at {
                    assert(longer[j] == sorted@[j - 1]);
                    assert(sorted@[at as int] <= sorted@[j - 1] || at == j - 1);
                } else {
                    assert(longer[i] == sorted@[i - 1] && longer[j] == sorted@[j - 1]);
                }
            }
        }
        sorted.insert(at, x);
        k = k + 1;
    }
    proof {
        assert(values@.take(values@.len() as int) =~= values@);
    }
    *values = sorted;
}

/// Drops every element that equals the one before it. No value is lost,
/// and of an ascending list this leaves each value once, in strictly
/// ascending order.
pub fn dedup(values: &mut Vec<u8>)
    ensures
        final(values)@ == without_repeats(old(values)@),
        forall|v: u8| final(values)@.contains(v) <==> old(values)@.contains(v),
        ascending(old(values)@) ==> strictly_ascending(final(values)@),
{
    let mut kept: Vec<u8> = Vec::new();
    let mut k: usize = 0;
    while k < values.len()
        invariant
            k <= values@.len(),
            values@ == old(values)@,
            kept@ == without_repeats(values@.take(k as int)),
            forall|v: u8| kept@.contains(v) <==> values@.take(k as int).contains(v),
            kept@.len() > 0 ==> k > 0 && kept@.last() == values@[k - 1],
            kept@.len() == 0 ==> k == 0,
            ascending(values@) ==> strictly_ascending(kept@),
        decreases values@.len() - k,
    {
        let x: u8 = values[k];
        let ghost before = kept@;
        let fresh: bool = kept.len() == 0 || kept[kept.len() - 1] != x;
        if fresh {
            kept.push(x);
        }
        proof {
            let seen = values@.take(k as int);
            let seen_next = values@.take(k + 1);
            assert(seen_next =~= seen.push(x));
            assert(seen_next.drop_last() =~= seen);
            assert(kept@ == without_repeats(seen_next));
            assert forall|v: u8| kept@.contains(v) <==> seen_next.contains(v) by {
                if seen_next.contains(v) {
                    let i = choose|i: int| 0 <= i < seen_next.len() && seen_next[i] == v;
                    if i < k {
                        assert(seen[i] == v);
                        assert(before.contains(v));
                        let j = choose|j: int| 0 <= j < before.len() && before[j] == v;
                        assert(kept@[j] == v);
                    } else if fresh {
                        assert(kept@[before.len() as int] == v);
                    } else {
                        assert(before[before.len() - 1] == v);
                        assert(kept@[before.len() - 1] == v);
                    }
                }
                if kept@.contains(v) {
                    let j = choose|j: int| 0 <= j < kept@.len() && kept@[j] == v;
                    if j < before.len() {
                        assert(before[j] == v);
                        assert(before.contains(v));
                        let i = choose|i: int| 0 <= i < seen.len() && seen[i] == v;
                        assert(seen_next[i] == v);
                    } else {
                        assert(seen_next[k as int] == v);
                    }
                }
            }
            if ascending(values@) && fresh {
                assert forall|i: int, j: int| 0 <= i < j < kept@.len() implies kept@[i]
                    < kept@[j] by {
                    if j == before.len() {
                        assert(before[i] <= before.last());
                        assert(values@[k - 1] <= values@[k as int]);
                    } else {
                        assert(kept@[i] == before[i] && kept@[j] == before[j]);
                    }
                }
            }
        }
        k = k + 1;
    }
    proof {
        assert(values@.take(values@.len() as int) =~= values@);
    }
    *values = kept;
}

} // verus!
