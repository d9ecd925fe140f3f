use storehouse_core::cli::utc::ymdhms_from_unix;

#[test]
fn the_epoch_is_midnight_new_year_1970() {
    assert_eq!(ymdhms_from_unix(0), (1970, 1, 1, 0, 0, 0));
}

#[test]
fn later_times_read_as_their_utc_date() {
    assert_eq!(ymdhms_from_unix(1_700_000_000), (2023, 11, 14, 22, 13, 20));
    assert_eq!(ymdhms_from_unix(951_782_400), (2000, 2, 29, 0, 0, 0));
}

#[test]
fn times_before_the_epoch_fall_on_earlier_days() {
    assert_eq!(ymdhms_from_unix(-1), (1969, 12, 31, 23, 59, 59));
    assert_eq!(ymdhms_from_unix(-86_400), (1969, 12, 31, 0, 0, 0));
    assert_eq!(ymdhms_from_unix(-86_401), (1969, 12, 30, 23, 59, 59));
}

#[test]
fn the_last_second_of_a_day_stays_on_it() {
    assert_eq!(ymdhms_from_unix(86_399), (1970, 1, 1, 23, 59, 59));
}
