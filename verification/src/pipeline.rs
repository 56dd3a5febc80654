use vstd::prelude::*;
use crate::Occurrence;
use crate::columns::{built_row, cols_ok, flagged, materialize_rows, Column};
use crate::epoch::{calc_epoch_time, epoch_time_of};
use crate::prune::{
    flag_set, keep_rows, lemma_keep_rows_by_position, lemma_surviving_positions, remove_invalid,
    surviving,
};

verus! {

/// The record with its canonical time filled in from its date parts.
pub open spec fn with_time(o: Occurrence) -> Occurrence {
    Occurrence {
        epoch_time: epoch_time_of(o.year as int, o.month as int, o.day as int) as i64,
        ..o
    }
}

/// The row positions below `n` that some geolocation column flagged.
pub open spec fn flagged_rows(cols: Seq<Column>, n: int) -> Set<int> {
    Set::new(|i: int| 0 <= i < n && flagged(cols, i))
}

/// One record per input row, fields as the columns populate them.
pub open spec fn materialized(cols: Seq<Column>, n: int) -> Seq<Occurrence> {
    Seq::new(n as nat, |i: int| built_row(cols, i))
}

/// The whole pipeline: materialize every row, drop the flagged ones, convert
/// each survivor's date parts to its canonical time.
pub open spec fn pipeline(cols: Seq<Column>, n: int) -> Seq<Occurrence> {
    keep_rows(materialized(cols, n), flagged_rows(cols, n)).map_values(
        |o: Occurrence| with_time(o),
    )
}

/// The record row `i` would contribute to the output: its fields as the
/// columns populate them, with its canonical time filled in.
pub open spec fn built_row_timed(cols: Seq<Column>, i: int) -> Occurrence {
    with_time(built_row(cols, i))
}

/// The output, row by row: its `k`-th record is the timed record of the
/// `k`-th surviving row position, so the output lists exactly the unflagged
/// rows, in their original order.
pub proof fn lemma_pipeline_rows(cols: Seq<Column>, n: int)
    requires
        0 <= n,
    ensures
        pipeline(cols, n).len() == surviving(n, flagged_rows(cols, n)).len(),
        forall|k: int|
            0 <= k < pipeline(cols, n).len() ==> #[trigger] pipeline(cols, n)[k]
                == built_row_timed(cols, surviving(n, flagged_rows(cols, n))[k]),
{
    let bad = flagged_rows(cols, n);
    let m = materialized(cols, n);
    lemma_keep_rows_by_position(m, bad);
    lemma_surviving_positions(m.len() as int, bad);
    assert(m.len() as int == n);
    assert forall|k: int| 0 <= k < pipeline(cols, n).len() implies #[trigger] pipeline(cols, n)[k]
        == built_row_timed(cols, surviving(n, bad)[k]) by {
        let j = surviving(m.len() as int, bad)[k];
        assert(0 <= j < m.len());
        assert(m[j] == built_row(cols, j));
    }
}

/// Writes each record's canonical time, computed from its date parts, into
/// the record.
pub fn fill_epoch_times(occs: &mut Vec<Occurrence>)
    ensures
        final (occs)@.len() == old(occs)@.len(),
        forall|i: int| 0 <= i < old(occs)@.len() ==> final (occs)@[i] == with_time(old(occs)@[i]),
{
    let mut i: usize = 0;
    while i < occs.len()
        invariant
            occs@.len() == old(occs)@.len(),
            forall|j: int| 0 <= j < i as int ==> occs@[j] == with_time(old(occs)@[j]),
            forall|j: int| i as int <= j < occs@.len() ==> occs@[j] == old(occs)@[j],
        decreases occs.len() - i,
    {
        let mut o = occs[i];
        o.epoch_time = calc_epoch_time(o.year, o.month, o.day);
        occs.set(i, o);
        i += 1;
    }
}

/// The full normalization pipeline over the ingested columns: one record per
/// surviving row, in original row order, with coordinates as the file carried
/// them, date gaps repaired by defaults, and the canonical time derived from
/// the date parts.
pub fn build_occurrences(cols: &Vec<Column>, n_rows: usize) -> (r: Vec<Occurrence>)
    requires
        cols_ok(cols@, n_rows as int),
    ensures
        r@ == pipeline(cols@, n_rows as int),
{
    let ghost n = n_rows as int;
    let (occs, invalid) = materialize_rows(cols, n_rows);
    let mut kept = remove_invalid(&occs, &invalid);
    proof {
        assert(occs@ =~= materialized(cols@, n));
        assert forall|i: int|
            flag_set(invalid@).contains(i) <==> flagged_rows(cols@, n).contains(i) by {
            if flag_set(invalid@).contains(i) {
                let k = choose|k: int|
                    0 <= k < invalid@.len() && #[trigger] invalid@[k] as int == i;
                assert(invalid@.contains(invalid@[k]));
                assert(0 <= i < n);
                assert(flagged(cols@, i));
            }
            if flagged_rows(cols@, n).contains(i) {
                assert(invalid@.contains(i as usize));
                let k = choose|k: int|
                    0 <= k < invalid@.len() && #[trigger] invalid@[k] == i as usize;
                assert(invalid@[k] as int == i);
                assert(flag_set(invalid@).contains(i));
            }
        }
        assert(flag_set(invalid@) =~= flagged_rows(cols@, n));
    }
    fill_epoch_times(&mut kept);
    proof {
        assert(kept@ =~= pipeline(cols@, n));
    }
    kept
}

} // verus!
