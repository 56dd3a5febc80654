use shark_occurrences::columns::{Column, ColumnValues};
use shark_occurrences::pipeline::build_occurrences;
use shark_occurrences::Occurrence;

fn float_col(name: &str, cells: Vec<Option<f64>>) -> Column {
    Column {
        name: name.to_owned(),
        values: ColumnValues::Float64(cells.into_iter().map(|c| c.map(f64::to_bits)).collect()),
    }
}

fn int_col(name: &str, cells: Vec<Option<i64>>) -> Column {
    Column {
        name: name.to_owned(),
        values: ColumnValues::Int64(cells),
    }
}

fn five_row_columns(longitudes: Vec<Option<f64>>) -> Vec<Column> {
    vec![
        float_col(
            "decimalLatitude",
            vec![Some(10.0), Some(11.0), Some(12.0), Some(13.0), Some(14.0)],
        ),
        float_col("decimalLongitude", longitudes),
        int_col(
            "year",
            vec![Some(2001), Some(2002), Some(2003), Some(2004), Some(2005)],
        ),
        int_col("month", vec![Some(1); 5]),
        int_col("day", vec![Some(1); 5]),
    ]
}

#[test]
fn five_rows_one_missing_longitude() {
    let cols = five_row_columns(vec![Some(20.0), Some(21.0), None, Some(23.0), Some(24.0)]);
    let out = build_occurrences(&cols, 5);
    assert_eq!(out.len(), 4);
    let expected_lats: [f64; 4] = [10.0, 11.0, 13.0, 14.0];
    let expected_years = [2001, 2002, 2004, 2005];
    for (k, occ) in out.iter().enumerate() {
        assert_eq!(occ.latitude_bits, expected_lats[k].to_bits());
        assert_eq!(occ.year, expected_years[k]);
    }
}

#[test]
fn missing_latitude_rows_are_all_excluded() {
    let mut cols = five_row_columns(vec![Some(20.0); 5]);
    cols[0] = float_col("decimalLatitude", vec![None; 5]);
    let out = build_occurrences(&cols, 5);
    assert_eq!(out.len(), 0);
}

#[test]
fn row_missing_both_coordinates_is_removed_exactly_once() {
    let cols = vec![
        float_col("decimalLatitude", vec![Some(1.0), None, Some(3.0)]),
        float_col("decimalLongitude", vec![Some(4.0), None, Some(6.0)]),
        int_col("year", vec![Some(2001), Some(2002), Some(2003)]),
        int_col("month", vec![Some(1); 3]),
        int_col("day", vec![Some(1); 3]),
    ];
    let out = build_occurrences(&cols, 3);
    assert_eq!(out.len(), 2);
    assert_eq!(out[0].latitude_bits, 1.0f64.to_bits());
    assert_eq!(out[1].latitude_bits, 3.0f64.to_bits());
}

#[test]
fn missing_date_parts_get_defaults_and_epoch_is_still_computed() {
    let cols = vec![
        float_col("decimalLatitude", vec![Some(1.0), Some(2.0)]),
        float_col("decimalLongitude", vec![Some(3.0), Some(4.0)]),
        int_col("year", vec![Some(2024), None]),
        int_col("month", vec![None, Some(1)]),
        int_col("day", vec![None, Some(2)]),
    ];
    let out = build_occurrences(&cols, 2);
    assert_eq!(out.len(), 2);
    assert_eq!((out[0].year, out[0].month, out[0].day), (2024, 1, 1));
    assert_eq!(out[0].epoch_time, 1704067200);
    assert_eq!((out[1].year, out[1].month, out[1].day), (1970, 1, 2));
    assert_eq!(out[1].epoch_time, 86400);
}

#[test]
fn row_with_invalid_date_survives_with_sentinel_time() {
    let cols = vec![
        float_col("decimalLatitude", vec![Some(1.0)]),
        float_col("decimalLongitude", vec![Some(2.0)]),
        int_col("year", vec![Some(2024)]),
        int_col("month", vec![Some(2)]),
        int_col("day", vec![Some(30)]),
    ];
    let out = build_occurrences(&cols, 1);
    assert_eq!(out.len(), 1);
    assert_eq!(out[0].epoch_time, -1);
}

#[test]
fn absent_date_columns_leave_zero_fields_and_sentinel_time() {
    let cols = vec![
        float_col("decimalLatitude", vec![Some(1.0)]),
        float_col("decimalLongitude", vec![Some(2.0)]),
    ];
    let out = build_occurrences(&cols, 1);
    assert_eq!(out.len(), 1);
    assert_eq!((out[0].year, out[0].month, out[0].day), (0, 0, 0));
    assert_eq!(out[0].epoch_time, -1);
}

#[test]
fn unrecognized_columns_are_ignored() {
    let lon = vec![Some(20.0), Some(21.0), None, Some(23.0), Some(24.0)];
    let plain = five_row_columns(lon.clone());
    let mut noisy = five_row_columns(lon);
    noisy.push(int_col("taxonKey", vec![Some(7); 5]));
    noisy.push(float_col("depth", vec![None; 5]));
    noisy.insert(
        0,
        Column {
            name: "scientificName".to_owned(),
            values: ColumnValues::Other,
        },
    );
    assert_eq!(build_occurrences(&plain, 5), build_occurrences(&noisy, 5));
}

#[test]
fn pipeline_is_deterministic() {
    let make = || five_row_columns(vec![Some(20.0), None, Some(22.0), None, Some(24.0)]);
    let first = build_occurrences(&make(), 5);
    let second = build_occurrences(&make(), 5);
    assert_eq!(first.len(), 3);
    assert_eq!(first, second);
}

#[test]
fn empty_table_yields_no_records() {
    let cols = vec![
        float_col("decimalLatitude", vec![]),
        float_col("decimalLongitude", vec![]),
    ];
    let out = build_occurrences(&cols, 0);
    assert_eq!(out.len(), 0);
}

#[test]
fn duplicate_flags_remove_a_row_once() {
    let occs: Vec<Occurrence> = (0..4u64)
        .map(|k| Occurrence {
            latitude_bits: k,
            ..Occurrence::default()
        })
        .collect();
    let out = shark_occurrences::prune::remove_invalid(&occs, &vec![2, 2, 2]);
    let kept: Vec<u64> = out.iter().map(|o| o.latitude_bits).collect();
    assert_eq!(kept, vec![0, 1, 3]);
}

#[test]
fn flag_order_does_not_matter() {
    let occs: Vec<Occurrence> = (0..5u64)
        .map(|k| Occurrence {
            latitude_bits: k,
            ..Occurrence::default()
        })
        .collect();
    let a = shark_occurrences::prune::remove_invalid(&occs, &vec![3, 1]);
    let b = shark_occurrences::prune::remove_invalid(&occs, &vec![1, 3, 1]);
    assert_eq!(a, b);
    let kept: Vec<u64> = a.iter().map(|o| o.latitude_bits).collect();
    assert_eq!(kept, vec![0, 2, 4]);
}

#[test]
fn out_of_range_flags_remove_nothing() {
    let occs: Vec<Occurrence> = (0..3u64)
        .map(|k| Occurrence {
            latitude_bits: k,
            ..Occurrence::default()
        })
        .collect();
    let out = shark_occurrences::prune::remove_invalid(&occs, &vec![17]);
    assert_eq!(out.len(), 3);
}

#[test]
fn default_record_is_all_zero() {
    let o = Occurrence::default();
    assert_eq!(o.latitude_bits, 0);
    assert_eq!(o.longitude_bits, 0);
    assert_eq!((o.year, o.month, o.day, o.epoch_time), (0, 0, 0, 0));
}
