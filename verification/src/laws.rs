use vstd::prelude::*;
use vstd::arithmetic::div_mod::{lemma_fundamental_div_mod, lemma_mod_bound};
use crate::columns::{
    apply_col, built_row, col_flags, day_name, flagged, is_date_name, lat_name, lon_name,
    month_name, or_default, year_name, Column,
};
use crate::epoch::{days_from_unix_epoch, epoch_time_of, is_valid_date};
use crate::pipeline::{built_row_timed, flagged_rows, pipeline};
use crate::prune::{lemma_surviving_positions, surviving};
use crate::Occurrence;

verus! {

/// The five recognized column names are pairwise distinct (their lengths
/// already differ), so at most one arm of `apply_col` can fire for a column.
pub proof fn lemma_names_distinct()
    ensures
        lat_name() != lon_name(),
        lat_name() != year_name(),
        lat_name() != month_name(),
        lat_name() != day_name(),
        lon_name() != year_name(),
        lon_name() != month_name(),
        lon_name() != day_name(),
        year_name() != month_name(),
        year_name() != day_name(),
        month_name() != day_name(),
{
    reveal_strlit("decimalLatitude");
    reveal_strlit("decimalLongitude");
    reveal_strlit("year");
    reveal_strlit("month");
    reveal_strlit("day");
    assert(lat_name().len() == 15);
    assert(lon_name().len() == 16);
    assert(year_name().len() == 4);
    assert(month_name().len() == 5);
    assert(day_name().len() == 3);
}

/// The epoch converter's result always fits in a 64-bit signed integer: the
/// sentinel is -1, and a valid date's year is bounded, so its timestamp stays
/// within about 8.4e12 seconds of the epoch.
pub proof fn lemma_epoch_time_fits(y: int, m: int, d: int)
    ensures
        i64::MIN <= epoch_time_of(y, m, d) <= i64::MAX,
{
    if is_valid_date(y, m, d) {
        let yy = if m <= 2 {
            y - 1
        } else {
            y
        };
        assert(-262144 <= yy <= 262142);
        let era = yy / 400;
        lemma_fundamental_div_mod(yy, 400);
        lemma_mod_bound(yy, 400);
        assert(-656 <= era <= 655);
        let yoe = yy - era * 400;
        assert(0 <= yoe <= 399);
        let mp = if m > 2 {
            m - 3
        } else {
            m + 9
        };
        assert(0 <= mp <= 11);
        let doy = (153 * mp + 2) / 5 + d - 1;
        lemma_fundamental_div_mod(153 * mp + 2, 5);
        lemma_mod_bound(153 * mp + 2, 5);
        assert(0 <= doy <= 367);
        let doe = yoe * 365 + yoe / 4 - yoe / 100 + doy;
        lemma_fundamental_div_mod(yoe, 4);
        lemma_mod_bound(yoe, 4);
        lemma_fundamental_div_mod(yoe, 100);
        lemma_mod_bound(yoe, 100);
        assert(0 <= doe <= 146200);
        assert(-97000000 <= days_from_unix_epoch(y, m, d) <= 97000000);
    }
}

/// Only a missing geolocation cell flags a row: a row is flagged exactly when
/// some column named `decimalLatitude` or `decimalLongitude` has no value at
/// it. A missing year, month or day never excludes a row.
pub proof fn lemma_flag_needs_missing_coordinate(cols: Seq<Column>, i: int)
    ensures
        flagged(cols, i) <==> exists|k: int|
            0 <= k < cols.len() && col_flags(#[trigger] cols[k], i),
    decreases cols.len(),
{
    if cols.len() > 0 {
        lemma_flag_needs_missing_coordinate(cols.drop_last(), i);
        let prev = cols.drop_last();
        if flagged(cols, i) {
            if col_flags(cols.last(), i) {
                assert(col_flags(cols[cols.len() - 1], i));
            } else {
                let k = choose|k: int| 0 <= k < prev.len() && col_flags(#[trigger] prev[k], i);
                assert(col_flags(cols[k], i));
            }
        }
        if exists|k: int| 0 <= k < cols.len() && col_flags(#[trigger] cols[k], i) {
            let k = choose|k: int| 0 <= k < cols.len() && col_flags(#[trigger] cols[k], i);
            if k < cols.len() - 1 {
                assert(col_flags(prev[k], i));
                assert(flagged(prev, i));
            }
        }
    }
}

/// Which date field of the record a date-part column writes.
pub open spec fn date_field(o: Occurrence, name: Seq<char>) -> i64 {
    if name == year_name() {
        o.year
    } else if name == month_name() {
        o.month
    } else {
        o.day
    }
}

/// The default a missing date-part cell is repaired with: 1970 for the year,
/// 1 for the month and the day.
pub open spec fn date_default(name: Seq<char>) -> i64 {
    if name == year_name() {
        1970
    } else {
        1
    }
}

/// A row whose cell in the input's one year, month or day column is missing
/// still gets its record, with the default written into that field; a present
/// cell is taken as it stands.
pub proof fn lemma_date_column_default(cols: Seq<Column>, c: int, i: int)
    requires
        0 <= c < cols.len(),
        is_date_name(cols[c].name@),
        forall|k: int| 0 <= k < cols.len() && k != c ==> (#[trigger] cols[k].name@) != cols[c].name@,
    ensures
        date_field(built_row(cols, i), cols[c].name@) == or_default(
            cols[c].int_cells()[i],
            date_default(cols[c].name@),
        ),
    decreases cols.len(),
{
    lemma_names_distinct();
    let prev = cols.drop_last();
    if c == cols.len() - 1 {
        assert(built_row(cols, i) == apply_col(built_row(prev, i), cols[c], i));
    } else {
        assert(prev[c] == cols[c]);
        lemma_date_column_default(prev, c, i);
        assert(built_row(cols, i) == apply_col(built_row(prev, i), cols.last(), i));
        assert(cols.last().name@ != cols[c].name@);
    }
}

/// Every unflagged row's record, its canonical time filled in, appears in the
/// pipeline's output.
pub proof fn lemma_unflagged_row_survives(cols: Seq<Column>, n: int, i: int)
    requires
        0 <= i < n,
        !flagged(cols, i),
    ensures
        exists|k: int|
            0 <= k < pipeline(cols, n).len() && #[trigger] pipeline(cols, n)[k] == built_row_timed(
                cols,
                i,
            ),
{
    crate::pipeline::lemma_pipeline_rows(cols, n);
    lemma_surviving_positions(n, flagged_rows(cols, n));
    let bad = flagged_rows(cols, n);
    assert(!bad.contains(i));
    assert(surviving(n, bad).contains(i));
    let k = choose|k: int| 0 <= k < surviving(n, bad).len() && #[trigger] surviving(n, bad)[k] == i;
    assert(pipeline(cols, n)[k] == built_row_timed(cols, i));
}

/// No flagged row's record appears: every output record is the timed record
/// of some unflagged row, and distinct output positions come from distinct,
/// increasing row positions.
pub proof fn lemma_output_is_unflagged_rows(cols: Seq<Column>, n: int)
    requires
        0 <= n,
    ensures
        forall|k: int|
            0 <= k < pipeline(cols, n).len() ==> exists|i: int|
                0 <= i < n && !flagged(cols, i) && #[trigger] pipeline(cols, n)[k]
                    == built_row_timed(cols, i),
{
    crate::pipeline::lemma_pipeline_rows(cols, n);
    lemma_surviving_positions(n, flagged_rows(cols, n));
    let bad = flagged_rows(cols, n);
    assert forall|k: int| 0 <= k < pipeline(cols, n).len() implies exists|i: int|
        0 <= i < n && !flagged(cols, i) && #[trigger] pipeline(cols, n)[k] == built_row_timed(
        cols,
        i,
    ) by {
        let i = surviving(n, bad)[k];
        assert(0 <= i < n && !bad.contains(i));
        assert(pipeline(cols, n)[k] == built_row_timed(cols, i));
    }
}

/// The output's size: each flagged row position costs exactly one record, no
/// matter how many of its cells were missing, and no unflagged row is lost.
pub proof fn lemma_output_count(cols: Seq<Column>, n: int)
    requires
        0 <= n,
    ensures
        flagged_rows(cols, n).finite(),
        pipeline(cols, n).len() + flagged_rows(cols, n).len() == n,
{
    crate::pipeline::lemma_pipeline_rows(cols, n);
    crate::prune::lemma_each_flagged_position_drops_one_row(n, flagged_rows(cols, n));
    assert(Set::new(|i: int| 0 <= i < n && flagged_rows(cols, n).contains(i)) =~= flagged_rows(
        cols,
        n,
    ));
}

/// Every output record's canonical time is the epoch conversion of its own
/// (possibly defaulted) date parts: the conversion is invoked for every
/// survivor, missing date parts notwithstanding.
pub proof fn lemma_survivor_time(cols: Seq<Column>, n: int, k: int)
    requires
        0 <= n,
        0 <= k < pipeline(cols, n).len(),
    ensures
        pipeline(cols, n)[k].epoch_time as int == epoch_time_of(
            pipeline(cols, n)[k].year as int,
            pipeline(cols, n)[k].month as int,
            pipeline(cols, n)[k].day as int,
        ),
{
    crate::pipeline::lemma_pipeline_rows(cols, n);
    lemma_surviving_positions(n, flagged_rows(cols, n));
    let bad = flagged_rows(cols, n);
    let i = surviving(n, bad)[k];
    let o = built_row(cols, i);
    lemma_epoch_time_fits(o.year as int, o.month as int, o.day as int);
    assert(pipeline(cols, n)[k] == built_row_timed(cols, i));
}

/// A row with its geolocation cells present always survives, even when its
/// cell in a year, month or day column is missing: the missing date part is
/// repaired with its default (1970, 1 or 1), and the epoch conversion still
/// runs on the repaired triple.
pub proof fn lemma_null_date_row_survives_with_defaults(
    cols: Seq<Column>,
    n: int,
    i: int,
    c: int,
)
    requires
        0 <= i < n,
        forall|k: int| 0 <= k < cols.len() ==> !col_flags(#[trigger] cols[k], i),
        0 <= c < cols.len(),
        is_date_name(cols[c].name@),
        forall|k: int| 0 <= k < cols.len() && k != c ==> (#[trigger] cols[k].name@) != cols[c].name@,
        cols[c].int_cells()[i] is None,
    ensures
        exists|k: int|
            0 <= k < pipeline(cols, n).len() && #[trigger] pipeline(cols, n)[k] == built_row_timed(
                cols,
                i,
            ),
        date_field(built_row_timed(cols, i), cols[c].name@) == date_default(cols[c].name@),
        built_row_timed(cols, i).epoch_time as int == epoch_time_of(
            built_row_timed(cols, i).year as int,
            built_row_timed(cols, i).month as int,
            built_row_timed(cols, i).day as int,
        ),
{
    lemma_flag_needs_missing_coordinate(cols, i);
    lemma_unflagged_row_survives(cols, n, i);
    lemma_date_column_default(cols, c, i);
    let o = built_row(cols, i);
    lemma_epoch_time_fits(o.year as int, o.month as int, o.day as int);
}

} // verus!

