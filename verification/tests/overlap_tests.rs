use backend::api::{check_schedule_conflicts, store_schedule};
use backend::clock::ClockParse;
use backend::overlap::{
    any_conflict, conflicting_pairs, find_conflicts, has_conflicts, meeting_of, meetings_clash,
    spans_overlap, Boundary, CheckPolicy, Meeting,
};
use backend::{ScheduledCourse, SemesterPlan, TimeSlot};

fn entry(course_id: u32, day: &str, start: &str, end: &str) -> ScheduledCourse {
    ScheduledCourse {
        course_id,
        time_slot: TimeSlot { start_time: start.to_string(), end_time: end.to_string() },
        day_of_week: day.to_string(),
        room: "TBD".to_string(),
    }
}

fn plan(courses: Vec<ScheduledCourse>) -> SemesterPlan {
    SemesterPlan {
        plan_id: "plan-1".to_string(),
        student_id: "s1".to_string(),
        semester: "Spring 2025".to_string(),
        courses,
    }
}

fn exclusive() -> CheckPolicy {
    CheckPolicy { boundary: Boundary::Exclusive, clock: ClockParse::LenientZero }
}

fn inclusive() -> CheckPolicy {
    CheckPolicy { boundary: Boundary::Inclusive, clock: ClockParse::LenientZero }
}

fn strict() -> CheckPolicy {
    CheckPolicy { boundary: Boundary::Exclusive, clock: ClockParse::Strict }
}

fn meeting(day: &str, start: u64, end: u64) -> Meeting {
    Meeting { day: day.to_string(), span: Some((start, end)) }
}

#[test]
fn default_policy_is_exclusive_and_lenient() {
    assert_eq!(CheckPolicy::default(), exclusive());
    assert_eq!(Boundary::default(), Boundary::Exclusive);
    assert_eq!(ClockParse::default(), ClockParse::LenientZero);
}

#[test]
fn back_to_back_slots_follow_the_boundary_policy() {
    let p = plan(vec![entry(1, "Monday", "09:00", "10:00"), entry(2, "Monday", "10:00", "11:00")]);
    assert!(!has_conflicts(&p, exclusive()));
    assert!(has_conflicts(&p, inclusive()));
    assert_eq!(find_conflicts(&p, exclusive()), vec![]);
    assert_eq!(find_conflicts(&p, inclusive()), vec![(1, 2)]);
    assert_eq!(check_schedule_conflicts(p).unwrap(), false);
}

#[test]
fn spans_overlap_by_the_formula() {
    assert!(spans_overlap(Boundary::Exclusive, (540, 600), (570, 630)));
    assert!(spans_overlap(Boundary::Exclusive, (570, 630), (540, 600)));
    assert!(spans_overlap(Boundary::Exclusive, (540, 660), (570, 600)));
    assert!(!spans_overlap(Boundary::Exclusive, (540, 600), (600, 660)));
    assert!(spans_overlap(Boundary::Inclusive, (540, 600), (600, 660)));
    assert!(!spans_overlap(Boundary::Inclusive, (540, 600), (601, 660)));
    assert!(!spans_overlap(Boundary::Exclusive, (540, 600), (700, 760)));
}

#[test]
fn conflict_does_not_depend_on_pair_order() {
    let a = meeting("Monday", 540, 600);
    let b = meeting("Monday", 570, 630);
    let c = meeting("Monday", 600, 660);
    for boundary in [Boundary::Exclusive, Boundary::Inclusive] {
        assert_eq!(meetings_clash(boundary, &a, &b), meetings_clash(boundary, &b, &a));
        assert_eq!(meetings_clash(boundary, &a, &c), meetings_clash(boundary, &c, &a));
    }
    let ab = plan(vec![entry(1, "Monday", "9:00", "10:00"), entry(2, "Monday", "9:30", "10:30")]);
    let ba = plan(vec![entry(2, "Monday", "9:30", "10:30"), entry(1, "Monday", "9:00", "10:00")]);
    assert!(has_conflicts(&ab, exclusive()));
    assert!(has_conflicts(&ba, exclusive()));
}

#[test]
fn conflict_does_not_depend_on_list_order() {
    let a = || entry(1, "Monday", "9:00", "10:00");
    let b = || entry(2, "Tuesday", "9:00", "10:00");
    let c = || entry(3, "Monday", "9:30", "9:45");
    let orders: Vec<Vec<ScheduledCourse>> = vec![
        vec![a(), b(), c()],
        vec![a(), c(), b()],
        vec![b(), a(), c()],
        vec![b(), c(), a()],
        vec![c(), a(), b()],
        vec![c(), b(), a()],
    ];
    for courses in orders {
        assert!(has_conflicts(&plan(courses), exclusive()));
    }
    let d = || entry(4, "Monday", "11:00", "12:00");
    let free: Vec<Vec<ScheduledCourse>> =
        vec![vec![a(), b(), d()], vec![d(), b(), a()], vec![b(), d(), a()]];
    for courses in free {
        assert!(!has_conflicts(&plan(courses), exclusive()));
    }
}

#[test]
fn same_day_and_same_range_conflict() {
    let p = plan(vec![entry(1, "Friday", "13:00", "14:15"), entry(2, "Friday", "13:00", "14:15")]);
    assert!(has_conflicts(&p, exclusive()));
    assert!(has_conflicts(&p, inclusive()));
    assert_eq!(find_conflicts(&p, exclusive()), vec![(1, 2)]);
}

#[test]
fn an_empty_range_conflicts_only_where_touching_counts() {
    let p = plan(vec![entry(1, "Friday", "13:00", "13:00"), entry(2, "Friday", "13:00", "13:00")]);
    assert!(!has_conflicts(&p, exclusive()));
    assert!(has_conflicts(&p, inclusive()));
}

#[test]
fn different_days_never_conflict() {
    let p = plan(vec![entry(1, "Monday", "9:00", "10:00"), entry(2, "Tuesday", "9:00", "10:00")]);
    assert!(!has_conflicts(&p, exclusive()));
    assert!(!has_conflicts(&p, inclusive()));
    let q = plan(vec![entry(1, "Monday", "abc", "xyz"), entry(2, "monday", "abc", "xyz")]);
    assert!(!has_conflicts(&q, inclusive()));
    assert_eq!(find_conflicts(&q, inclusive()), vec![]);
}

#[test]
fn listing_is_empty_exactly_without_conflicts() {
    let plans = vec![
        plan(vec![]),
        plan(vec![entry(1, "Monday", "9:00", "10:00")]),
        plan(vec![entry(1, "Monday", "9:00", "10:00"), entry(2, "Monday", "10:00", "11:00")]),
        plan(vec![entry(1, "Monday", "9:00", "10:00"), entry(2, "Monday", "9:59", "11:00")]),
        plan(vec![
            entry(1, "Monday", "9:00", "10:00"),
            entry(2, "Tuesday", "9:00", "10:00"),
            entry(3, "Tuesday", "8:00", "9:01"),
        ]),
    ];
    for p in &plans {
        for policy in [exclusive(), inclusive(), strict()] {
            assert_eq!(find_conflicts(p, policy).is_empty(), !has_conflicts(p, policy));
        }
    }
}

#[test]
fn listing_names_every_pair_in_list_order() {
    let p = plan(vec![
        entry(10, "Monday", "9:00", "12:00"),
        entry(20, "Monday", "10:00", "11:00"),
        entry(30, "Tuesday", "10:00", "11:00"),
        entry(40, "Monday", "10:30", "13:00"),
        entry(10, "Monday", "12:30", "12:45"),
    ]);
    assert_eq!(find_conflicts(&p, exclusive()), vec![(10, 20), (10, 40), (20, 40), (40, 10)]);
    let meetings = vec![
        meeting("Monday", 540, 720),
        meeting("Monday", 600, 660),
        meeting("Tuesday", 600, 660),
        meeting("Monday", 630, 780),
        meeting("Monday", 750, 765),
    ];
    assert_eq!(
        conflicting_pairs(&meetings, Boundary::Exclusive),
        vec![(0, 1), (0, 3), (1, 3), (3, 4)]
    );
    assert!(any_conflict(&meetings, Boundary::Exclusive));
    assert!(!any_conflict(&Vec::new(), Boundary::Exclusive));
}

#[test]
fn malformed_times_stand_for_midnight_under_the_lenient_reading() {
    let m = meeting_of(&entry(1, "Monday", "abc", "10:00"), ClockParse::LenientZero);
    assert_eq!(m.span, Some((0, 600)));
    let p = plan(vec![entry(1, "Monday", "abc", "10:00"), entry(2, "Monday", "9:00", "11:00")]);
    assert!(has_conflicts(&p, exclusive()));
    let q = plan(vec![entry(1, "Monday", "abc", "abc"), entry(2, "Monday", "abc", "abc")]);
    assert!(!has_conflicts(&q, exclusive()));
    assert!(has_conflicts(&q, inclusive()));
}

#[test]
fn malformed_times_conflict_with_nothing_under_the_strict_reading() {
    let m = meeting_of(&entry(1, "Monday", "abc", "10:00"), ClockParse::Strict);
    assert_eq!(m.span, None);
    let p = plan(vec![entry(1, "Monday", "abc", "10:00"), entry(2, "Monday", "9:00", "11:00")]);
    assert!(!has_conflicts(&p, strict()));
    assert_eq!(find_conflicts(&p, strict()), vec![]);
    let unknown = Meeting { day: "Monday".to_string(), span: None };
    assert!(!meetings_clash(Boundary::Inclusive, &unknown, &meeting("Monday", 0, 1440)));
}

#[test]
fn a_plan_with_conflicts_is_not_stored() {
    let clash = plan(vec![entry(1, "Monday", "9:00", "10:00"), entry(2, "Monday", "9:30", "10:30")]);
    let err = store_schedule("s1".to_string(), clash).unwrap_err();
    assert_eq!(err.code, 400);
    assert_eq!(err.error, "Cannot store schedule with time conflicts");
    let free = plan(vec![entry(1, "Monday", "9:00", "10:00"), entry(2, "Monday", "10:00", "11:00")]);
    assert_eq!(store_schedule("s1".to_string(), free).unwrap(), true);
    assert_eq!(store_schedule("s1".to_string(), plan(vec![])).unwrap(), true);
}
