use backend::clock::{ClockParse, ClockTime};
use backend::models::{ApiResponse, Schedule, ScheduledCourse, TimeSlot};
use backend::overlap::{Boundary, CheckPolicy};
use backend::text::{decimal_string, join, push_decimal, same_text};
use backend::utils::{
    check_schedule_conflicts, check_schedule_conflicts_with, generate_id, meeting_from_parts,
    meeting_of_slot, parse_time, resolve_minutes, time_slots_overlap, time_slots_overlap_with,
    CLOCK_FORMAT,
};

fn slot(day: &str, start: &str, end: &str) -> TimeSlot {
    TimeSlot { day: day.to_string(), start_time: start.to_string(), end_time: end.to_string() }
}

fn entry(course_id: &str, day: &str, start: &str, end: &str) -> ScheduledCourse {
    ScheduledCourse {
        course_id: course_id.to_string(),
        time_slot: slot(day, start, end),
        room: "R1".to_string(),
        professor: "P".to_string(),
    }
}

fn schedule(courses: Vec<ScheduledCourse>) -> Schedule {
    Schedule {
        id: None,
        student_id: "s1".to_string(),
        semester: "Spring".to_string(),
        year: 2025,
        courses,
        total_credits: 0,
    }
}

fn pair(a: &str, b: &str) -> (String, String) {
    (a.to_string(), b.to_string())
}

fn policy(boundary: Boundary, clock: ClockParse) -> CheckPolicy {
    CheckPolicy { boundary, clock }
}

#[test]
fn clock_text_is_read_as_hour_and_minute() {
    assert_eq!(CLOCK_FORMAT, "%H:%M");
    assert_eq!(parse_time("7:15"), Some(ClockTime { hour: 7, minute: 15 }));
    assert_eq!(parse_time("09:00"), Some(ClockTime { hour: 9, minute: 0 }));
    assert_eq!(parse_time("00:00"), Some(ClockTime { hour: 0, minute: 0 }));
    assert_eq!(parse_time("23:59"), Some(ClockTime { hour: 23, minute: 59 }));
}

#[test]
fn text_that_is_no_time_of_day_is_not_read() {
    assert_eq!(parse_time("abc"), None);
    assert_eq!(parse_time(""), None);
    assert_eq!(parse_time("12"), None);
    assert_eq!(parse_time("17:60"), None);
    assert_eq!(parse_time("24:00"), None);
    assert_eq!(parse_time("9:00:00"), None);
}

#[test]
fn unread_text_is_midnight_or_nothing() {
    assert_eq!(resolve_minutes(ClockParse::LenientZero, None), Some(0));
    assert_eq!(resolve_minutes(ClockParse::Strict, None), None);
    let half_past_nine = Some(ClockTime { hour: 9, minute: 30 });
    assert_eq!(resolve_minutes(ClockParse::LenientZero, half_past_nine), Some(570));
    assert_eq!(resolve_minutes(ClockParse::Strict, half_past_nine), Some(570));
    let day = "Monday".to_string();
    let m = meeting_from_parts(ClockParse::LenientZero, &day, None, half_past_nine);
    assert_eq!((m.day.as_str(), m.span), ("Monday", Some((0, 570))));
    let m = meeting_from_parts(ClockParse::Strict, &day, None, half_past_nine);
    assert_eq!(m.span, None);
    let m = meeting_of_slot(&slot("Tuesday", "abc", "10:00"), ClockParse::LenientZero);
    assert_eq!((m.day.as_str(), m.span), ("Tuesday", Some((0, 600))));
    let m = meeting_of_slot(&slot("Tuesday", "08:05", "10:00"), ClockParse::Strict);
    assert_eq!(m.span, Some((485, 600)));
}

#[test]
fn slots_overlap_on_the_same_day_only() {
    assert!(time_slots_overlap(&slot("Mon", "09:00", "10:00"), &slot("Mon", "09:30", "10:30")));
    assert!(time_slots_overlap(&slot("Mon", "09:30", "10:30"), &slot("Mon", "09:00", "10:00")));
    assert!(time_slots_overlap(&slot("Mon", "09:00", "10:00"), &slot("Mon", "09:00", "10:00")));
    assert!(!time_slots_overlap(&slot("Mon", "09:00", "10:00"), &slot("Tue", "09:00", "10:00")));
    assert!(!time_slots_overlap(&slot("Mon", "09:00", "10:00"), &slot("Mon", "11:00", "12:00")));
}

#[test]
fn touching_slots_overlap_only_where_the_policy_says_so() {
    let a = slot("Mon", "09:00", "10:00");
    let b = slot("Mon", "10:00", "11:00");
    assert!(!time_slots_overlap(&a, &b));
    assert!(!time_slots_overlap_with(&a, &b, policy(Boundary::Exclusive, ClockParse::Strict)));
    assert!(time_slots_overlap_with(&a, &b, policy(Boundary::Inclusive, ClockParse::Strict)));
    assert!(time_slots_overlap_with(&b, &a, policy(Boundary::Inclusive, ClockParse::LenientZero)));
}

#[test]
fn unread_times_of_a_slot_follow_the_clock_policy() {
    let a = slot("Mon", "abc", "10:00");
    let b = slot("Mon", "09:00", "11:00");
    assert!(time_slots_overlap(&a, &b));
    assert!(!time_slots_overlap_with(&a, &b, policy(Boundary::Exclusive, ClockParse::Strict)));
    let c = slot("Mon", "abc", "abc");
    assert!(!time_slots_overlap(&c, &c));
    assert!(time_slots_overlap_with(&c, &c, policy(Boundary::Inclusive, ClockParse::LenientZero)));
    assert!(!time_slots_overlap_with(&c, &c, policy(Boundary::Inclusive, ClockParse::Strict)));
}

#[test]
fn conflicts_of_a_schedule_are_listed_by_course_id() {
    let s = schedule(vec![
        entry("CS101", "Mon", "09:00", "12:00"),
        entry("CS102", "Mon", "10:00", "11:00"),
        entry("CS103", "Tue", "10:00", "11:00"),
        entry("CS104", "Mon", "10:30", "13:00"),
    ]);
    assert_eq!(
        check_schedule_conflicts(&s),
        vec![pair("CS101", "CS102"), pair("CS101", "CS104"), pair("CS102", "CS104")]
    );
    assert_eq!(check_schedule_conflicts(&schedule(vec![])), vec![]);
    let touching =
        schedule(vec![entry("A", "Mon", "09:00", "10:00"), entry("B", "Mon", "10:00", "11:00")]);
    assert_eq!(check_schedule_conflicts(&touching), vec![]);
    assert_eq!(
        check_schedule_conflicts_with(
            &touching,
            policy(Boundary::Inclusive, ClockParse::LenientZero)
        ),
        vec![pair("A", "B")]
    );
    let unread =
        schedule(vec![entry("A", "Mon", "abc", "10:00"), entry("B", "Mon", "09:00", "11:00")]);
    assert_eq!(check_schedule_conflicts(&unread), vec![pair("A", "B")]);
    assert_eq!(
        check_schedule_conflicts_with(&unread, policy(Boundary::Exclusive, ClockParse::Strict)),
        vec![]
    );
}

#[test]
fn identifiers_are_decimal_numbers() {
    assert_eq!(generate_id(0), "0");
    assert_eq!(generate_id(7), "7");
    assert_eq!(generate_id(10), "10");
    assert_eq!(generate_id(1_700_000_000_123), "1700000000123");
    assert_eq!(generate_id(u128::MAX), "340282366920938463463374607431768211455");
    assert_eq!(decimal_string(4030), "4030");
    let mut out = "id-".to_string();
    push_decimal(&mut out, 905);
    assert_eq!(out, "id-905");
}

#[test]
fn texts_are_joined_and_compared() {
    assert_eq!(join("suggested-", "s1"), "suggested-s1");
    assert_eq!(join("", ""), "");
    assert!(same_text("admin", "admin"));
    assert!(same_text("", ""));
    assert!(!same_text("admin", "Admin"));
    assert!(!same_text("admin", "admi"));
    assert!(!same_text("é", "e"));
}

#[test]
fn an_answer_carries_data_or_a_message() {
    let ok = ApiResponse::success(5u32);
    assert_eq!((ok.success, ok.data, ok.error), (true, Some(5), None));
    let failed: ApiResponse<u32> = ApiResponse::error("no such course".to_string());
    assert_eq!((failed.success, failed.data, failed.error), (false, None, Some("no such course".to_string())));
}
