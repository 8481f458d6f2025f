use shift_rota::{get_max_rest, ShiftKind};

fn month(text: &str) -> Vec<ShiftKind> {
    text.chars()
        .map(|c| match c {
            'D' => ShiftKind::Day,
            'E' => ShiftKind::Evening,
            'M' => ShiftKind::Mid,
            'R' => ShiftKind::Rest,
            _ => ShiftKind::Unset,
        })
        .collect()
}

#[test]
fn anchor_of_a_month_without_rest() {
    assert_eq!(get_max_rest(&month("UUUUUUU")), (0, 0));
    assert_eq!(get_max_rest(&month("DEDEM")), (0, 0));
}

#[test]
fn anchor_of_an_empty_month() {
    assert_eq!(get_max_rest(&month("")), (0, 0));
}

#[test]
fn anchor_is_the_longest_block() {
    assert_eq!(get_max_rest(&month("URUURRRUURRU")), (4, 3));
    assert_eq!(get_max_rest(&month("RRUURUUUU")), (0, 2));
}

#[test]
fn anchor_of_equal_blocks_is_the_first() {
    assert_eq!(get_max_rest(&month("UURRUURRUU")), (2, 2));
    assert_eq!(get_max_rest(&month("RURUR")), (0, 1));
}

#[test]
fn anchor_may_reach_the_end_of_the_month() {
    assert_eq!(get_max_rest(&month("URUUURR")), (5, 2));
    assert_eq!(get_max_rest(&month("UUUUUUR")), (6, 1));
}

#[test]
fn anchor_of_a_month_of_rest() {
    assert_eq!(get_max_rest(&month("RRRR")), (0, 4));
    assert_eq!(get_max_rest(&month("R")), (0, 1));
}

#[test]
fn anchor_of_the_spring_request() {
    // Rest on the 5th, 12th, 18th, 19th and 26th of a month of 30 days.
    assert_eq!(get_max_rest(&month("UUUURUUUUUURUUUUURRUUUUUURUUUU")), (17, 2));
}
