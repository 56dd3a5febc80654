use shark_occurrences::calc_epoch_time;

#[test]
fn leap_day_2024_is_valid() {
    assert_eq!(calc_epoch_time(2024, 2, 29), 1709164800);
}

#[test]
fn february_30_is_invalid() {
    assert_eq!(calc_epoch_time(2024, 2, 30), -1);
}

#[test]
fn unix_epoch_is_zero() {
    assert_eq!(calc_epoch_time(1970, 1, 1), 0);
}

#[test]
fn day_after_epoch() {
    assert_eq!(calc_epoch_time(1970, 1, 2), 86400);
}

#[test]
fn day_before_epoch_is_negative() {
    assert_eq!(calc_epoch_time(1969, 12, 31), -86400);
}

#[test]
fn century_year_1900_is_no_leap_year() {
    assert_eq!(calc_epoch_time(1900, 2, 29), -1);
}

#[test]
fn century_year_2000_is_a_leap_year() {
    assert_eq!(calc_epoch_time(2000, 2, 29), 951782400);
}

#[test]
fn non_leap_february_29_is_invalid() {
    assert_eq!(calc_epoch_time(2023, 2, 29), -1);
}

#[test]
fn month_13_is_invalid() {
    assert_eq!(calc_epoch_time(2024, 13, 1), -1);
}

#[test]
fn month_0_is_invalid() {
    assert_eq!(calc_epoch_time(2024, 0, 1), -1);
}

#[test]
fn day_32_is_invalid() {
    assert_eq!(calc_epoch_time(2024, 1, 32), -1);
}

#[test]
fn day_0_is_invalid() {
    assert_eq!(calc_epoch_time(2024, 1, 0), -1);
}

#[test]
fn april_31_is_invalid() {
    assert_eq!(calc_epoch_time(2024, 4, 31), -1);
}

#[test]
fn year_out_of_range_is_invalid() {
    assert_eq!(calc_epoch_time(1_000_000, 1, 1), -1);
    assert_eq!(calc_epoch_time(-1_000_000, 1, 1), -1);
}

#[test]
fn recent_date() {
    assert_eq!(calc_epoch_time(2024, 10, 23), 1729641600);
}
