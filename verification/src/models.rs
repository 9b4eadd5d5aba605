//! The records of the web front end: courses, students and schedules that
//! are known by text ids, and the envelope of its answers.

use vstd::prelude::*;

verus! {

/// A course on offer.
#[derive(Debug, Clone)]
pub struct Course {
    pub id: String,
    pub name: String,
    pub credits: i32,
    pub description: Option<String>,
    pub prerequisites: Option<Vec<String>>,
    pub available_times: Vec<TimeSlot>,
}

/// A student.
#[derive(Debug, Clone)]
pub struct Student {
    pub id: String,
    pub name: String,
    pub email: String,
    pub major: Option<String>,
    pub year: String,
    pub completed_courses: Option<Vec<String>>,
}

/// What a student would like to take, and when.
#[derive(Debug, Clone)]
pub struct Preference {
    pub student_id: String,
    pub preferred_courses: Vec<String>,
    pub preferred_times: Vec<TimeSlot>,
    pub max_credits: Option<i32>,
}

/// A time range on one day of the week, both ends written as `"HH:MM"`.
#[derive(Debug, Clone)]
pub struct TimeSlot {
    pub day: String,
    pub start_time: String,
    pub end_time: String,
}

/// The courses of one student in one semester.
#[derive(Debug, Clone)]
pub struct Schedule {
    pub id: Option<String>,
    pub student_id: String,
    pub semester: String,
    pub year: i32,
    pub courses: Vec<ScheduledCourse>,
    pub total_credits: i32,
}

/// A course placed at a time, in a room, with a professor.
#[derive(Debug, Clone)]
pub struct ScheduledCourse {
    pub course_id: String,
    pub time_slot: TimeSlot,
    pub room: String,
    pub professor: String,
}

/// The courses that a major requires and offers.
#[derive(Debug, Clone)]
pub struct DegreeRequirement {
    pub major: String,
    pub required_courses: Vec<String>,
    pub elective_courses: Option<Vec<String>>,
    pub min_credits: i32,
}

/// The limits that a student has set.
#[derive(Debug, Clone)]
pub struct Constraint {
    pub student_id: String,
    pub unavailable_times: Vec<TimeSlot>,
    pub max_credits_per_semester: Option<i32>,
    pub preferred_campus_locations: Option<Vec<String>>,
}

/// The envelope of an answer: either the data asked for, or the message of
/// a failure.
#[derive(Debug, Clone)]
pub struct ApiResponse<T> {
    pub success: bool,
    pub data: Option<T>,
    pub error: Option<String>,
}

impl<T> ApiResponse<T> {
    /// The answer that carries `data`.
    pub fn success(data: T) -> (response: Self)
        ensures
            response.success,
            response.data == Some(data),
            response.error is None,
    {
        ApiResponse { success: true, data: Some(data), error: None }
    }

    /// The answer that reports a failure.
    pub fn error(message: String) -> (response: Self)
        ensures
            !response.success,
            response.data is None,
            response.error == Some(message),
    {
        ApiResponse { success: false, data: None, error: Some(message) }
    }
}

/// The text of a time slot.
pub struct TimeSlotView {
    pub day: Seq<char>,
    pub start_time: Seq<char>,
    pub end_time: Seq<char>,
}

impl View for TimeSlot {
    type V = TimeSlotView;

    open spec fn view(&self) -> TimeSlotView {
        TimeSlotView { day: self.day@, start_time: self.start_time@, end_time: self.end_time@ }
    }
}

/// The time slots of the courses of a schedule, in its order.
pub open spec fn schedule_slots(courses: Seq<ScheduledCourse>) -> Seq<TimeSlotView> {
    courses.map_values(|c: ScheduledCourse| c.time_slot@)
}

/// The ids of the courses of a schedule, in its order.
pub open spec fn schedule_course_ids(courses: Seq<ScheduledCourse>) -> Seq<Seq<char>> {
    courses.map_values(|c: ScheduledCourse| c.course_id@)
}

} // verus!
