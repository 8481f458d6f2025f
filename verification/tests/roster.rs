use shift_rota::{aggregate, plan_month, DailyTally, Employee, RestRequest, RosterError, ShiftKind};

fn month(text: &str) -> Vec<ShiftKind> {
    text.chars()
        .map(|c| match c {
            'D' => ShiftKind::Day,
            'E' => ShiftKind::Evening,
            'M' => ShiftKind::Mid,
            'R' => ShiftKind::Rest,
            _ => ShiftKind::Unset,
        })
        .collect()
}

fn request(name: &str, rest_days: &[usize], evening: Option<usize>) -> RestRequest {
    RestRequest {
        name: name.to_string(),
        rest_count: rest_days.len(),
        rest_days: rest_days.to_vec(),
        evening,
    }
}

fn scheduled(day_count: usize, rest_days: &[usize]) -> Employee {
    let mut employee =
        Employee::new("Ann".to_string(), day_count, rest_days.len(), &rest_days.to_vec(), None)
            .unwrap();
    employee.schedule();
    employee
}

#[test]
fn tallies_of_a_small_team() {
    // RREEEMDDRR, EMRREERRDD and EEEEEMDDDD
    let team = vec![scheduled(10, &[1, 2, 9, 10]), scheduled(10, &[3, 4, 7, 8]), scheduled(10, &[])];
    assert_eq!(team[0].shifts(), &month("RREEEMDDRR"));
    assert_eq!(team[1].shifts(), &month("EMRREERRDD"));
    assert_eq!(team[2].shifts(), &month("EEEEEMDDDD"));
    let tallies = aggregate(&team, 10);
    let expected = vec![
        DailyTally { day: 0, evening: 2, mid: 0, rest: 1 },
        DailyTally { day: 0, evening: 1, mid: 1, rest: 1 },
        DailyTally { day: 0, evening: 2, mid: 0, rest: 1 },
        DailyTally { day: 0, evening: 2, mid: 0, rest: 1 },
        DailyTally { day: 0, evening: 3, mid: 0, rest: 0 },
        DailyTally { day: 0, evening: 1, mid: 2, rest: 0 },
        DailyTally { day: 2, evening: 0, mid: 0, rest: 1 },
        DailyTally { day: 2, evening: 0, mid: 0, rest: 1 },
        DailyTally { day: 2, evening: 0, mid: 0, rest: 1 },
        DailyTally { day: 2, evening: 0, mid: 0, rest: 1 },
    ];
    assert_eq!(tallies, expected);
}

#[test]
fn tallies_of_an_empty_team() {
    let team: Vec<Employee> = Vec::new();
    let tallies = aggregate(&team, 3);
    assert_eq!(tallies, vec![DailyTally { day: 0, evening: 0, mid: 0, rest: 0 }; 3]);
}

#[test]
fn tallies_do_not_count_open_days() {
    let fresh = Employee::new("Ann".to_string(), 4, 1, &vec![2], None).unwrap();
    let tallies = aggregate(&vec![fresh], 4);
    assert_eq!(tallies[0], DailyTally { day: 0, evening: 0, mid: 0, rest: 0 });
    assert_eq!(tallies[1], DailyTally { day: 0, evening: 0, mid: 0, rest: 1 });
}

#[test]
fn tallies_of_every_day_add_up_to_the_team() {
    let team = vec![
        scheduled(30, &[5, 12, 18, 19, 26]),
        scheduled(30, &[1, 2, 3]),
        scheduled(30, &[]),
        scheduled(30, &[29, 30]),
        scheduled(30, &[7, 14, 21, 28]),
    ];
    let tallies = aggregate(&team, 30);
    assert_eq!(tallies.len(), 30);
    for tally in &tallies {
        assert_eq!(tally.day + tally.evening + tally.mid + tally.rest, 5);
    }
}

#[test]
fn plan_for_a_team() {
    let requests = vec![
        request("Ann", &[5, 12, 18, 19, 26], None),
        request("Bob", &[5, 12, 18, 19, 26], Some(4)),
        request("Cyd", &[], None),
    ];
    let rota = plan_month(30, &requests).unwrap();
    assert_eq!(rota.members.len(), 3);
    assert_eq!(rota.members[0].name(), "Ann");
    assert_eq!(rota.members[1].name(), "Bob");
    assert_eq!(rota.members[2].name(), "Cyd");
    assert_eq!(rota.members[0].shifts(), &month("EMDDREEEEEERDDDDDRREEEEEERDDDD"));
    assert_eq!(rota.members[1].shifts(), &month("DDDDRDDDDDDRDDDDDRREEEEMDRDDDD"));
    assert_eq!(rota.members[2].shifts(), &month("EEEEEEEEEEEEEEEMDDDDDDDDDDDDDD"));
    assert_eq!(rota.members[0].day_quota(), 11);
    assert_eq!(rota.members[1].evening_quota(), 4);
    assert_eq!(rota.tallies.len(), 30);
    assert_eq!(rota.tallies[0], DailyTally { day: 1, evening: 2, mid: 0, rest: 0 });
    assert_eq!(rota.tallies[1], DailyTally { day: 1, evening: 1, mid: 1, rest: 0 });
    assert_eq!(rota.tallies[4], DailyTally { day: 0, evening: 1, mid: 0, rest: 2 });
    assert_eq!(rota.tallies[15], DailyTally { day: 2, evening: 0, mid: 1, rest: 0 });
    assert_eq!(rota.tallies[29], DailyTally { day: 3, evening: 0, mid: 0, rest: 0 });
    for tally in &rota.tallies {
        assert_eq!(tally.day + tally.evening + tally.mid + tally.rest, 3);
    }
}

#[test]
fn plan_for_nobody() {
    let rota = plan_month(28, &Vec::new()).unwrap();
    assert!(rota.members.is_empty());
    assert_eq!(rota.tallies, vec![DailyTally { day: 0, evening: 0, mid: 0, rest: 0 }; 28]);
}

#[test]
fn plan_twice_gives_the_same_rota() {
    let requests = vec![request("Ann", &[3, 4, 20], None), request("Bob", &[30], None)];
    let first = plan_month(30, &requests).unwrap();
    let second = plan_month(30, &requests).unwrap();
    assert_eq!(first.tallies, second.tallies);
    for m in 0..2 {
        assert_eq!(first.members[m].shifts(), second.members[m].shifts());
    }
}

#[test]
fn plan_turns_down_a_wrong_month_length() {
    assert_eq!(plan_month(0, &Vec::new()).err(), Some(RosterError::DayCountOutOfRange));
    assert_eq!(
        plan_month(32, &vec![request("Ann", &[1], None)]).err(),
        Some(RosterError::DayCountOutOfRange)
    );
}

#[test]
fn plan_reports_the_first_faulty_request() {
    let requests = vec![
        request("Ann", &[1, 2], None),
        request("Bob", &[31], None),
        request("Cyd", &[4, 4], None),
    ];
    assert_eq!(plan_month(30, &requests).err(), Some(RosterError::RestDayOutOfRange));
    let requests = vec![
        request("Ann", &[1, 2], None),
        request("Cyd", &[4, 4], None),
        request("Bob", &[31], None),
    ];
    assert_eq!(plan_month(30, &requests).err(), Some(RosterError::DuplicateRestDay));
}

#[test]
fn plan_turns_down_a_wrong_rest_count() {
    let mut wrong = request("Ann", &[1, 2], None);
    wrong.rest_count = 3;
    assert_eq!(plan_month(30, &vec![wrong]).err(), Some(RosterError::RestCountMismatch));
    let mut many = request("Ann", &[1, 2], None);
    many.rest_count = 31;
    assert_eq!(plan_month(30, &vec![many]).err(), Some(RosterError::RestCountExceedsMonth));
}

#[test]
fn plan_turns_down_too_many_fixed_evening_shifts() {
    let requests = vec![request("Ann", &[1, 2], Some(29))];
    assert_eq!(plan_month(30, &requests).err(), Some(RosterError::EveningQuotaTooLarge));
}
