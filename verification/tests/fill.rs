use shift_rota::{apply_transition_rule, fill_backward, fill_forward, ShiftKind};

fn month(text: &str) -> Vec<ShiftKind> {
    text.chars()
        .map(|c| match c {
            'D' => ShiftKind::Day,
            'E' => ShiftKind::Evening,
            'M' => ShiftKind::Mid,
            'R' => ShiftKind::Rest,
            _ => ShiftKind::Unset,
        })
        .collect()
}

#[test]
fn forward_fill_starts_with_evening_shifts() {
    let mut shifts = month("UUUU");
    let left = fill_forward(&mut shifts, 0, 2, 2);
    assert_eq!(shifts, month("EEDD"));
    assert_eq!(left, (0, 0));
}

#[test]
fn forward_fill_leaves_earlier_days_alone() {
    let mut shifts = month("UUUU");
    let left = fill_forward(&mut shifts, 1, 5, 1);
    assert_eq!(shifts, month("UEDD"));
    assert_eq!(left, (3, 0));
}

#[test]
fn forward_fill_toggles_at_a_rest_block() {
    let mut shifts = month("DDRUURRUUU");
    let left = fill_forward(&mut shifts, 3, 3, 3);
    assert_eq!(shifts, month("DDREERRDDD"));
    assert_eq!(left, (0, 1));
}

#[test]
fn forward_fill_keeps_evening_after_rest_when_no_day_shift_is_left() {
    let mut shifts = month("UURUU");
    let left = fill_forward(&mut shifts, 0, 0, 4);
    assert_eq!(shifts, month("EEREE"));
    assert_eq!(left, (0, 0));
}

#[test]
fn forward_fill_from_a_rest_day() {
    let mut shifts = month("RRUU");
    let left = fill_forward(&mut shifts, 0, 1, 1);
    assert_eq!(shifts, month("RRDE"));
    assert_eq!(left, (0, 0));
}

#[test]
fn forward_fill_up_to_trailing_rest() {
    let mut shifts = month("UURR");
    let left = fill_forward(&mut shifts, 0, 1, 1);
    assert_eq!(shifts, month("EDRR"));
    assert_eq!(left, (0, 0));
}

#[test]
fn forward_fill_from_the_end_does_nothing() {
    let mut shifts = month("UURR");
    let left = fill_forward(&mut shifts, 4, 1, 1);
    assert_eq!(shifts, month("UURR"));
    assert_eq!(left, (1, 1));
}

#[test]
fn backward_fill_starts_with_day_shifts() {
    let mut shifts = month("UUUU");
    let left = fill_backward(&mut shifts, 4, 2, 2);
    assert_eq!(shifts, month("EEDD"));
    assert_eq!(left, (0, 0, 0));
}

#[test]
fn backward_fill_leaves_later_days_alone() {
    let mut shifts = month("RRUUU");
    let left = fill_backward(&mut shifts, 4, 3, 0);
    assert_eq!(shifts, month("RRDDU"));
    assert_eq!(left, (1, 0, 0));
}

#[test]
fn backward_fill_toggles_at_a_rest_block() {
    let mut shifts = month("URRUUUR");
    let left = fill_backward(&mut shifts, 6, 2, 2);
    assert_eq!(shifts, month("ERREDDR"));
    assert_eq!(left, (0, 0, 0));
}

#[test]
fn backward_fill_before_the_first_day_does_nothing() {
    let mut shifts = month("UUUU");
    let left = fill_backward(&mut shifts, 0, 3, 3);
    assert_eq!(shifts, month("UUUU"));
    assert_eq!(left, (3, 3, 0));
}

#[test]
fn backward_fill_stays_at_zero_when_the_shifts_run_out() {
    let mut shifts = month("UUU");
    let left = fill_backward(&mut shifts, 3, 1, 0);
    assert_eq!(shifts, month("DED"));
    assert_eq!(left, (0, 0, 2));
}

#[test]
fn backward_fill_counts_only_working_days_as_excess() {
    let mut shifts = month("URRUU");
    let left = fill_backward(&mut shifts, 5, 0, 1);
    assert_eq!(shifts, month("DRRDE"));
    assert_eq!(left, (0, 0, 2));
    let mut none = month("UUU");
    let left = fill_backward(&mut none, 3, 0, 0);
    assert_eq!(none, month("EDE"));
    assert_eq!(left, (0, 0, 3));
}

#[test]
fn transition_rule_turns_day_after_evening_into_mid() {
    let mut shifts = month("EDDEDREDEE");
    let mids = apply_transition_rule(&mut shifts);
    assert_eq!(shifts, month("EMDEMREMEE"));
    assert_eq!(mids, 3);
}

#[test]
fn transition_rule_does_not_look_through_a_mid_shift() {
    let mut shifts = month("EMDED");
    let mids = apply_transition_rule(&mut shifts);
    assert_eq!(shifts, month("EMDEM"));
    assert_eq!(mids, 1);
}

#[test]
fn transition_rule_leaves_a_calm_month_alone() {
    let mut shifts = month("DDDEEERRDE");
    let mids = apply_transition_rule(&mut shifts);
    assert_eq!(shifts, month("DDDEEERRDE"));
    assert_eq!(mids, 0);
}

#[test]
fn transition_rule_on_short_months() {
    let mut none = month("");
    assert_eq!(apply_transition_rule(&mut none), 0);
    assert_eq!(none, month(""));
    let mut one = month("D");
    assert_eq!(apply_transition_rule(&mut one), 0);
    assert_eq!(one, month("D"));
    let mut two = month("ED");
    assert_eq!(apply_transition_rule(&mut two), 1);
    assert_eq!(two, month("EM"));
}
