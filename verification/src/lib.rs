//! Course scheduling for a student registration service: the records of the
//! service, the detection of time conflicts between scheduled courses, and
//! a greedy suggester of a semester plan.
//!
//! The library works on snapshots of records that the caller has loaded. It
//! reads no file and keeps no state between calls.

use vstd::prelude::*;

/// The operations of the planning service on a snapshot of its records.
pub mod api;
/// Clock text and its reading as minutes since midnight.
pub mod clock;
/// The records of the web front end.
pub mod models;
/// Time conflicts between the meetings of a schedule.
pub mod overlap;
/// The rules behind the requests of the registration front end.
pub mod registrar;
/// The greedy suggester of a semester plan.
pub mod suggest;
/// Numbers written out in decimal, and texts joined and compared.
pub mod text;
/// Meeting times of the courses on offer, and the rules for offering one.
pub mod timetable;
/// Conflicts in schedules whose times are read by `chrono`.
pub mod utils;

verus! {

/// A course of the catalog.
#[derive(Debug, Clone)]
pub struct Course {
    pub course_id: u32,
    pub course_name: String,
    pub credits: u32,
    pub department: String,
    pub semester_offered: String,
    pub prerequisites: Vec<u32>,
}

/// A student of the service.
#[derive(Debug, Clone)]
pub struct Student {
    pub student_id: String,
    pub name: String,
    pub email: String,
    pub major_id: u32,
    pub graduation_semesters: u32,
    pub student_uuid: String,
    pub advisor_email: String,
}

/// A time range within one day, both ends written as clock text such as
/// `"9:00"` or `"14:30"`.
#[derive(Debug)]
pub struct TimeSlot {
    pub start_time: String,
    pub end_time: String,
}

/// What a student would like: times of day and courses, most wanted first.
#[derive(Debug, Clone)]
pub struct StudentPreference {
    pub preference_id: String,
    pub student_id: String,
    pub preferred_times: Vec<TimeSlot>,
    pub preferred_courses: Vec<u32>,
}

/// The payload of a constraint. Only `max_credits` is read by the library.
#[derive(Debug, Clone)]
pub struct ConstraintValue {
    pub constraint_type: String,
    pub max_credits: Option<u32>,
    pub time_of_day: Option<String>,
    pub preferred_time: Option<String>,
}

/// A constraint on the plans of one student, tagged by `constraint_type`.
#[derive(Debug, Clone)]
pub struct Constraint {
    pub constraint_id: String,
    pub student_id: String,
    pub constraint_type: String,
    pub value: ConstraintValue,
}

/// One course that a major requires.
#[derive(Debug, Clone, Copy)]
pub struct DegreeRequirement {
    pub requirement_id: u32,
    pub major_id: u32,
    pub course_id: u32,
    pub required_credits: u32,
}

/// A major that students can enrol in.
#[derive(Debug, Clone)]
pub struct Major {
    pub major_id: u32,
    pub major_name: String,
    pub department: String,
    pub required_credits: u32,
}

/// A member of the teaching staff.
#[derive(Debug, Clone)]
pub struct Professor {
    pub professor_id: String,
    pub name: String,
    pub department: String,
    pub email: String,
}

/// One course that a student has enrolled in, in some semester.
#[derive(Debug, Clone)]
pub struct Enrollment {
    pub enrollment_id: String,
    pub student_id: String,
    pub course_id: u32,
    pub semester: String,
    pub status: String,
}

/// A course placed on a day, at a time and in a room.
#[derive(Debug, Clone)]
pub struct ScheduledCourse {
    pub course_id: u32,
    pub time_slot: TimeSlot,
    pub day_of_week: String,
    pub room: String,
}

/// The courses planned for one student in one semester, in the order in
/// which they were admitted.
#[derive(Debug, Clone)]
pub struct SemesterPlan {
    pub plan_id: String,
    pub student_id: String,
    pub semester: String,
    pub courses: Vec<ScheduledCourse>,
}

/// A failure, with a message and a status code: 404 where a record is
/// missing, 400 where a request cannot be honoured.
#[derive(Debug)]
pub struct ApiError {
    pub error: String,
    pub code: u32,
}

/// The result of an operation that can fail with an `ApiError`.
pub type ApiResult<T> = Result<T, ApiError>;

/// The text of a time slot.
pub struct TimeSlotView {
    pub start_time: Seq<char>,
    pub end_time: Seq<char>,
}

/// The contents of a scheduled course.
pub struct ScheduledCourseView {
    pub course_id: u32,
    pub time_slot: TimeSlotView,
    pub day_of_week: Seq<char>,
    pub room: Seq<char>,
}

/// The contents of a semester plan.
pub struct SemesterPlanView {
    pub plan_id: Seq<char>,
    pub student_id: Seq<char>,
    pub semester: Seq<char>,
    pub courses: Seq<ScheduledCourseView>,
}

/// The contents of a failure.
pub struct ApiErrorView {
    pub error: Seq<char>,
    pub code: u32,
}

/// The text of the time slots.
pub open spec fn slot_views(slots: Seq<TimeSlot>) -> Seq<TimeSlotView> {
    slots.map_values(|t: TimeSlot| t@)
}

/// The contents of the scheduled courses.
pub open spec fn course_views(courses: Seq<ScheduledCourse>) -> Seq<ScheduledCourseView> {
    courses.map_values(|c: ScheduledCourse| c@)
}

impl View for TimeSlot {
    type V = TimeSlotView;

    open spec fn view(&self) -> TimeSlotView {
        TimeSlotView { start_time: self.start_time@, end_time: self.end_time@ }
    }
}

impl View for ScheduledCourse {
    type V = ScheduledCourseView;

    open spec fn view(&self) -> ScheduledCourseView {
        ScheduledCourseView {
            course_id: self.course_id,
            time_slot: self.time_slot@,
            day_of_week: self.day_of_week@,
            room: self.room@,
        }
    }
}

impl View for SemesterPlan {
    type V = SemesterPlanView;

    open spec fn view(&self) -> SemesterPlanView {
        SemesterPlanView {
            plan_id: self.plan_id@,
            student_id: self.student_id@,
            semester: self.semester@,
            courses: course_views(self.courses@),
        }
    }
}

impl View for ApiError {
    type V = ApiErrorView;

    open spec fn view(&self) -> ApiErrorView {
        ApiErrorView { error: self.error@, code: self.code }
    }
}

impl Clone for TimeSlot {
    fn clone(&self) -> (res: Self)
        ensures
            res == *self,
    {
        TimeSlot { start_time: self.start_time.clone(), end_time: self.end_time.clone() }
    }
}

} // verus!
