use backend::clock::ClockTime;
use backend::timetable::{
    any_slots_clash, error_message, has_time_conflict, parse_meeting_time, slot_ends_after_start,
    slot_within_hours, slots_clash, validate_course, CourseError, MeetingSlot,
};

fn at(hour: u32, minute: u32) -> ClockTime {
    ClockTime { hour, minute }
}

fn fields(slots: &Vec<MeetingSlot>) -> Vec<(String, ClockTime, ClockTime)> {
    slots.iter().map(|s| (s.day.clone(), s.start, s.end)).collect()
}

#[test]
fn a_meeting_time_is_a_list_of_slots() {
    let slots = parse_meeting_time("M 08:00-09:15, W 08:00-09:15").unwrap();
    assert_eq!(
        fields(&slots),
        vec![("M".to_string(), at(8, 0), at(9, 15)), ("W".to_string(), at(8, 0), at(9, 15))]
    );
    let one = parse_meeting_time("TR 13:30-14:45").unwrap();
    assert_eq!(fields(&one), vec![("TR".to_string(), at(13, 30), at(14, 45))]);
    let odd = parse_meeting_time(" 1:2-3:4").unwrap();
    assert_eq!(fields(&odd), vec![("".to_string(), at(1, 2), at(3, 4))]);
}

#[test]
fn malformed_clock_text_of_a_slot_is_midnight() {
    let slots = parse_meeting_time("M xx:yy-10:00, T 9-10").unwrap();
    assert_eq!(
        fields(&slots),
        vec![("M".to_string(), at(0, 0), at(10, 0)), ("T".to_string(), at(0, 0), at(0, 0))]
    );
}

#[test]
fn a_slot_without_its_form_is_not_read() {
    assert!(parse_meeting_time("").is_none());
    assert!(parse_meeting_time("M08:00-09:00").is_none());
    assert!(parse_meeting_time("M  08:00-09:00").is_none());
    assert!(parse_meeting_time("M 08:00").is_none());
    assert!(parse_meeting_time("M 08:00-09:00-10:00").is_none());
    assert!(parse_meeting_time("M 08:00-09:00,W 08:00-09:00").is_none());
    assert!(parse_meeting_time("M 08:00-09:00, ").is_none());
    assert!(parse_meeting_time("M 08:00-09:00, W 08:00").is_none());
}

#[test]
fn a_course_that_can_be_offered() {
    assert_eq!(validate_course("CS", "M 08:00-21:00"), Ok(()));
    assert_eq!(validate_course("CS", "M 08:00-09:15, W 08:00-09:15, F 20:59-21:00"), Ok(()));
    assert_eq!(validate_course("CS", "M 8:0-8:1"), Ok(()));
}

#[test]
fn each_rule_is_reported() {
    assert_eq!(validate_course("EE", "M 08:00-09:00"), Err(CourseError::Department));
    assert_eq!(validate_course("cs", "M 08:00-09:00"), Err(CourseError::Department));
    assert_eq!(validate_course("", "M 08:00-09:00"), Err(CourseError::Department));
    assert_eq!(validate_course("CS", ""), Err(CourseError::Format));
    assert_eq!(validate_course("CS", "M08:00-09:00"), Err(CourseError::Format));
    assert_eq!(validate_course("CS", "M 08:00 - 09:00"), Err(CourseError::Format));
    assert_eq!(validate_course("CS", "M 08:00"), Err(CourseError::Range));
    assert_eq!(validate_course("CS", "M 08:00-09:00-10:00"), Err(CourseError::Range));
    assert_eq!(validate_course("CS", "M 07:59-09:00"), Err(CourseError::Hours));
    assert_eq!(validate_course("CS", "M 08:00-21:01"), Err(CourseError::Hours));
    assert_eq!(validate_course("CS", "M 20:00-22:00"), Err(CourseError::Hours));
    assert_eq!(validate_course("CS", "M xx:yy-10:00"), Err(CourseError::Hours));
    assert_eq!(validate_course("CS", "M 10:00-10:00"), Err(CourseError::Order));
    assert_eq!(validate_course("CS", "M 11:00-10:59"), Err(CourseError::Order));
    assert_eq!(validate_course("CS", "M 11:00-10:00"), Err(CourseError::Order));
}

#[test]
fn the_first_violation_is_the_one_reported() {
    assert_eq!(validate_course("EE", "garbage"), Err(CourseError::Department));
    assert_eq!(validate_course("CS", "M 07:00-08:00, garbage"), Err(CourseError::Hours));
    assert_eq!(validate_course("CS", "garbage, M 07:00-08:00"), Err(CourseError::Format));
    assert_eq!(validate_course("CS", "M 09:00-08:00, W 09:00"), Err(CourseError::Order));
    assert_eq!(validate_course("CS", "M 09:00-10:00, W 09:00"), Err(CourseError::Range));
    assert_eq!(validate_course("CS", "M 07:00-06:00"), Err(CourseError::Hours));
}

#[test]
fn messages_of_the_rules() {
    assert_eq!(error_message(CourseError::Department), "Department code must be 'CS'");
    assert_eq!(
        error_message(CourseError::Format),
        "Invalid meeting time format (e.g., 'M 08:00-15:00')"
    );
    assert_eq!(error_message(CourseError::Range), "Invalid time range");
    assert_eq!(error_message(CourseError::Hours), "Classes must be between 08:00 and 21:00");
    assert_eq!(error_message(CourseError::Order), "End time must be after start time");
}

#[test]
fn hours_and_order_of_a_slot() {
    let slot = |start: ClockTime, end: ClockTime| MeetingSlot { day: "M".to_string(), start, end };
    assert!(slot_within_hours(&slot(at(8, 0), at(21, 0))));
    assert!(!slot_within_hours(&slot(at(7, 59), at(21, 0))));
    assert!(!slot_within_hours(&slot(at(8, 0), at(21, 1))));
    assert!(!slot_within_hours(&slot(at(8, 0), at(22, 0))));
    assert!(slot_within_hours(&slot(at(20, 0), at(9, 0))));
    assert!(slot_ends_after_start(&slot(at(8, 0), at(8, 1))));
    assert!(slot_ends_after_start(&slot(at(8, 59), at(9, 0))));
    assert!(!slot_ends_after_start(&slot(at(8, 0), at(8, 0))));
    assert!(!slot_ends_after_start(&slot(at(9, 0), at(8, 59))));
}

#[test]
fn meeting_times_conflict_when_slots_overlap_on_a_day() {
    assert!(has_time_conflict("M 08:00-09:00", "M 08:30-09:30"));
    assert!(has_time_conflict("M 08:30-09:30", "M 08:00-09:00"));
    assert!(has_time_conflict("M 08:00-09:00", "M 08:00-09:00"));
    assert!(!has_time_conflict("M 08:00-09:00", "M 09:00-10:00"));
    assert!(!has_time_conflict("M 08:00-09:00", "T 08:00-09:00"));
    assert!(has_time_conflict("M 08:00-09:00, W 10:00-11:00", "F 08:00-09:00, W 10:59-12:00"));
    assert!(!has_time_conflict("M 08:00-09:00, W 10:00-11:00", "F 08:00-09:00, W 11:00-12:00"));
    assert!(!has_time_conflict("M 08:00-08:00", "M 08:00-08:00"));
}

#[test]
fn slots_clash_by_minutes_since_midnight() {
    let slot = |day: &str, start: ClockTime, end: ClockTime| MeetingSlot {
        day: day.to_string(),
        start,
        end,
    };
    assert!(slots_clash(&slot("M", at(8, 0), at(9, 0)), &slot("M", at(8, 59), at(10, 0))));
    assert!(!slots_clash(&slot("M", at(8, 0), at(9, 0)), &slot("M", at(8, 60), at(10, 0))));
    assert!(slots_clash(&slot("M", at(8, 0), at(8, 61)), &slot("M", at(9, 0), at(10, 0))));
    assert!(!any_slots_clash(&vec![], &vec![slot("M", at(8, 0), at(9, 0))]));
    assert!(!any_slots_clash(&vec![slot("M", at(8, 0), at(9, 0))], &vec![]));
}
