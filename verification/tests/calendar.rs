use shift_rota::calendar::{MAX_YEAR, MIN_YEAR};
use shift_rota::{days_in_month, get_days_from_month, weekdays_of_month, RosterError};

#[test]
fn every_month_of_a_common_year() {
    let expected = [31, 28, 31, 30, 31, 30, 31, 31, 30, 31, 30, 31];
    for month in 1..=12u32 {
        assert_eq!(get_days_from_month(2023, month), expected[month as usize - 1]);
    }
}

#[test]
fn every_month_of_a_leap_year() {
    let expected = [31, 29, 31, 30, 31, 30, 31, 31, 30, 31, 30, 31];
    for month in 1..=12u32 {
        assert_eq!(get_days_from_month(2024, month), expected[month as usize - 1]);
    }
}

#[test]
fn february_follows_the_century_rule() {
    assert_eq!(get_days_from_month(1900, 2), 28);
    assert_eq!(get_days_from_month(2000, 2), 29);
    assert_eq!(get_days_from_month(2100, 2), 28);
    assert_eq!(get_days_from_month(2400, 2), 29);
}

#[test]
fn december_reaches_into_the_next_year() {
    assert_eq!(get_days_from_month(2023, 12), 31);
    assert_eq!(get_days_from_month(1999, 12), 31);
}

#[test]
fn years_before_the_common_era() {
    assert_eq!(get_days_from_month(0, 2), 29);
    assert_eq!(get_days_from_month(-1, 2), 28);
    assert_eq!(get_days_from_month(-4, 2), 29);
    assert_eq!(get_days_from_month(MIN_YEAR, 1), 31);
}

#[test]
fn the_last_months_of_the_calendar() {
    assert_eq!(get_days_from_month(MAX_YEAR, 11), 30);
    assert_eq!(get_days_from_month(MAX_YEAR - 1, 12), 31);
}

#[test]
fn days_in_month_of_a_valid_month() {
    assert_eq!(days_in_month(2023, 3), Ok(31));
    assert_eq!(days_in_month(2023, 4), Ok(30));
    assert_eq!(days_in_month(2024, 2), Ok(29));
    assert_eq!(days_in_month(0, 2), Ok(29));
    assert_eq!(days_in_month(MAX_YEAR, 11), Ok(30));
}

#[test]
fn days_in_month_turns_down_a_month_out_of_range() {
    assert_eq!(days_in_month(2023, 0), Err(RosterError::InvalidYearMonth));
    assert_eq!(days_in_month(2023, 13), Err(RosterError::InvalidYearMonth));
    assert_eq!(days_in_month(2023, u32::MAX), Err(RosterError::InvalidYearMonth));
}

#[test]
fn days_in_month_turns_down_a_year_out_of_range() {
    assert_eq!(days_in_month(-1, 6), Err(RosterError::InvalidYearMonth));
    assert_eq!(days_in_month(i32::MIN, 6), Err(RosterError::InvalidYearMonth));
    assert_eq!(days_in_month(MAX_YEAR + 1, 1), Err(RosterError::InvalidYearMonth));
    assert_eq!(days_in_month(i32::MAX, 12), Err(RosterError::InvalidYearMonth));
}

#[test]
fn days_in_month_turns_down_the_last_december() {
    assert_eq!(days_in_month(MAX_YEAR, 12), Err(RosterError::InvalidYearMonth));
}

#[test]
fn weekdays_of_a_month() {
    // March 2023 began on a Wednesday.
    let weekdays = weekdays_of_month(2023, 3);
    assert_eq!(weekdays.len(), 31);
    assert_eq!(&weekdays[..8], &[2, 3, 4, 5, 6, 0, 1, 2]);
    assert_eq!(weekdays[30], 4);
}

#[test]
fn weekdays_of_a_leap_february() {
    // February 2024 began and ended on a Thursday.
    let weekdays = weekdays_of_month(2024, 2);
    assert_eq!(weekdays.len(), 29);
    assert_eq!(weekdays[0], 3);
    assert_eq!(weekdays[28], 3);
}

#[test]
fn weekdays_of_well_known_days() {
    assert_eq!(weekdays_of_month(2000, 1)[0], 5);
    assert_eq!(weekdays_of_month(1970, 1)[0], 3);
    assert_eq!(weekdays_of_month(1, 1)[0], 0);
    assert_eq!(weekdays_of_month(2023, 12)[24], 0);
}

#[test]
fn weekdays_before_the_common_era() {
    // The day before Monday, January 1 of year 1, was a Sunday.
    let weekdays = weekdays_of_month(0, 12);
    assert_eq!(weekdays.len(), 31);
    assert_eq!(weekdays[30], 6);
    assert_eq!(weekdays[0], 4);
}

#[test]
fn weekdays_follow_one_another() {
    for month in 1..=12u32 {
        let weekdays = weekdays_of_month(2024, month);
        assert_eq!(weekdays.len() as i64, get_days_from_month(2024, month));
        for day in 1..weekdays.len() {
            assert_eq!(weekdays[day], (weekdays[day - 1] + 1) % 7);
        }
    }
}

#[test]
fn month_lengths_over_many_years() {
    for year in -800..=2800i32 {
        let leap = year.rem_euclid(4) == 0 && (year.rem_euclid(100) != 0 || year.rem_euclid(400) == 0);
        let mut total = 0;
        for month in 1..=12u32 {
            let expected = match month {
                2 => {
                    if leap {
                        29
                    } else {
                        28
                    }
                }
                4 | 6 | 9 | 11 => 30,
                _ => 31,
            };
            assert_eq!(get_days_from_month(year, month), expected);
            total += expected;
        }
        assert_eq!(total, if leap { 366 } else { 365 });
    }
}

#[test]
fn weekdays_run_on_from_month_to_month() {
    let mut last = weekdays_of_month(1899, 12)[30];
    for year in 1900..=2100i32 {
        for month in 1..=12u32 {
            let weekdays = weekdays_of_month(year, month);
            assert_eq!(weekdays[0], (last + 1) % 7);
            last = weekdays[weekdays.len() - 1];
        }
    }
    // December 31, 2100 is a Friday.
    assert_eq!(last, 4);
}
