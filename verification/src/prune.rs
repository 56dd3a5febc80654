use vstd::prelude::*;
use crate::Occurrence;

verus! {

/// The row positions a flag list names, read as a set: how often or in what
/// order a position was flagged carries no meaning.
pub open spec fn flag_set(s: Seq<usize>) -> Set<int> {
    Set::new(|i: int| exists|k: int| 0 <= k < s.len() && s[k] as int == i)
}

/// The subsequence of records whose row positions are not in `bad`, in
/// original row order.
pub open spec fn keep_rows(occs: Seq<Occurrence>, bad: Set<int>) -> Seq<Occurrence>
    decreases occs.len(),
{
    if occs.len() == 0 {
        Seq::empty()
    } else if bad.contains(occs.len() - 1) {
        keep_rows(occs.drop_last(), bad)
    } else {
        keep_rows(occs.drop_last(), bad).push(occs.last())
    }
}

/// The row positions below `n` that are not in `bad`, in increasing order.
pub open spec fn surviving(n: int, bad: Set<int>) -> Seq<int>
    decreases n,
{
    if n <= 0 {
        Seq::empty()
    } else if bad.contains(n - 1) {
        surviving(n - 1, bad)
    } else {
        surviving(n - 1, bad).push(n - 1)
    }
}

/// No flagged position survives, every unflagged position below `n` survives
/// exactly once, and the surviving positions keep their original order.
pub proof fn lemma_surviving_positions(n: int, bad: Set<int>)
    ensures
        forall|k: int|
            0 <= k < surviving(n, bad).len() ==> 0 <= #[trigger] surviving(n, bad)[k] < n
                && !bad.contains(surviving(n, bad)[k]),
        forall|i: int| 0 <= i < n && !bad.contains(i) ==> surviving(n, bad).contains(i),
        forall|k1: int, k2: int|
            0 <= k1 < k2 < surviving(n, bad).len() ==> #[trigger] surviving(n, bad)[k1]
                < #[trigger] surviving(n, bad)[k2],
    decreases n,
{
    if n > 0 {
        lemma_surviving_positions(n - 1, bad);
        let s0 = surviving(n - 1, bad);
        let s1 = surviving(n, bad);
        if !bad.contains(n - 1) {
            assert(s1 == s0.push(n - 1));
            assert forall|k: int| 0 <= k < s1.len() implies 0 <= #[trigger] s1[k] < n
                && !bad.contains(s1[k]) by {
                if k < s0.len() {
                    assert(s1[k] == s0[k]);
                } else {
                    assert(s1[k] == n - 1);
                }
            }
            assert forall|i: int| 0 <= i < n && !bad.contains(i) implies s1.contains(i) by {
                if i < n - 1 {
                    let k = choose|k: int| 0 <= k < s0.len() && #[trigger] s0[k] == i;
                    assert(s1[k] == i);
                } else {
                    assert(s1.last() == i);
                }
            }
            assert forall|k1: int, k2: int| 0 <= k1 < k2 < s1.len() implies #[trigger] s1[k1]
                < #[trigger] s1[k2] by {
                if k2 < s0.len() {
                    assert(s1[k1] == s0[k1]);
                    assert(s1[k2] == s0[k2]);
                } else {
                    assert(s1[k2] == n - 1);
                    assert(s1[k1] == s0[k1]);
                    assert(0 <= s0[k1] < n - 1);
                }
            }
        } else {
            assert(s1 == s0);
        }
    }
}

/// The kept records are exactly the records at the surviving positions.
pub proof fn lemma_keep_rows_by_position(occs: Seq<Occurrence>, bad: Set<int>)
    ensures
        keep_rows(occs, bad) == surviving(occs.len() as int, bad).map_values(
            |j: int| occs[j],
        ),
    decreases occs.len(),
{
    let n = occs.len() as int;
    if occs.len() == 0 {
        assert(keep_rows(occs, bad) =~= surviving(n, bad).map_values(|j: int| occs[j]));
    } else {
        lemma_keep_rows_by_position(occs.drop_last(), bad);
        lemma_surviving_positions(n - 1, bad);
        assert forall|k: int|
            0 <= k < surviving(n - 1, bad).len() implies occs.drop_last()[#[trigger] surviving(
            n - 1,
            bad,
        )[k]] == occs[surviving(n - 1, bad)[k]] by {}
        assert(surviving(n - 1, bad).map_values(|j: int| occs.drop_last()[j]) =~= surviving(
            n - 1,
            bad,
        ).map_values(|j: int| occs[j]));
        assert(keep_rows(occs, bad) =~= surviving(n, bad).map_values(|j: int| occs[j]));
    }
}

/// Flag lists that name the same set of positions prune the same rows: a row
/// flagged many times over is removed exactly once, and removing it moves no
/// other row's fate.
pub proof fn lemma_flags_are_a_set(occs: Seq<Occurrence>, a: Seq<usize>, b: Seq<usize>)
    requires
        flag_set(a) == flag_set(b),
    ensures
        keep_rows(occs, flag_set(a)) == keep_rows(occs, flag_set(b)),
{
}

/// Flagging an already-flagged row a second time changes the outcome in no
/// way.
pub proof fn lemma_reflagging_changes_nothing(occs: Seq<Occurrence>, bad: Set<int>, i: int)
    requires
        bad.contains(i),
    ensures
        keep_rows(occs, bad.insert(i)) == keep_rows(occs, bad),
{
    assert(bad.insert(i) =~= bad);
}

/// Every flagged position below `n` costs exactly one record and no more: the
/// survivors and the flagged positions below `n` together count `n`.
pub proof fn lemma_each_flagged_position_drops_one_row(n: int, bad: Set<int>)
    requires
        0 <= n,
    ensures
        Set::new(|i: int| 0 <= i < n && bad.contains(i)).finite(),
        surviving(n, bad).len() + Set::new(|i: int| 0 <= i < n && bad.contains(i)).len() == n,
    decreases n,
{
    let dropped = Set::new(|i: int| 0 <= i < n && bad.contains(i));
    if n == 0 {
        assert(dropped =~= Set::<int>::empty());
    } else {
        lemma_each_flagged_position_drops_one_row(n - 1, bad);
        let prev = Set::new(|i: int| 0 <= i < n - 1 && bad.contains(i));
        if bad.contains(n - 1) {
            assert(dropped =~= prev.insert(n - 1));
            vstd::set::axiom_set_insert_len(prev, n - 1);
            assert(!prev.contains(n - 1));
        } else {
            assert(dropped =~= prev);
        }
    }
}

fn list_contains(s: &Vec<usize>, x: usize) -> (b: bool)
    ensures
        b == s@.contains(x),
{
    let mut k: usize = 0;
    while k < s.len()
        invariant
            k <= s@.len(),
            forall|j: int| 0 <= j < k as int ==> s@[j] != x,
        decreases s@.len() - k,
    {
        if s[k] == x {
            return true;
        }
        k += 1;
    }
    false
}

/// The invalid-row filter: keeps, in original order, exactly the records
/// whose row position the flag list does not name.
pub fn remove_invalid(occs: &Vec<Occurrence>, invalid: &Vec<usize>) -> (r: Vec<Occurrence>)
    ensures
        r@ == keep_rows(occs@, flag_set(invalid@)),
{
    let mut r: Vec<Occurrence> = Vec::new();
    let mut i: usize = 0;
    while i < occs.len()
        invariant
            i <= occs.len(),
            r@ == keep_rows(occs@.take(i as int), flag_set(invalid@)),
        decreases occs.len() - i,
    {
        proof {
            assert(occs@.take(i as int + 1).drop_last() =~= occs@.take(i as int));
            assert(occs@.take(i as int + 1).last() == occs@[i as int]);
        }
        let fl = list_contains(invalid, i);
        proof {
            if fl {
                let k = choose|k: int| 0 <= k < invalid@.len() && invalid@[k] == i;
                assert(invalid@[k] as int == i as int);
                assert(flag_set(invalid@).contains(i as int));
            } else {
                if flag_set(invalid@).contains(i as int) {
                    let k = choose|k: int| 0 <= k < invalid@.len() && invalid@[k] as int
                        == i as int;
                    assert(invalid@[k] == i);
                    assert(false);
                }
            }
        }
        if !fl {
            r.push(occs[i]);
        }
        i += 1;
    }
    proof {
        assert(occs@.take(occs@.len() as int) =~= occs@);
    }
    r
}

} // verus!
