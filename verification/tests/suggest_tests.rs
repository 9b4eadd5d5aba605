use backend::api::{
    get_degree_requirements, get_semester_plan, get_student_by_id, get_student_constraints,
    get_student_enrollments, get_student_preferences, hello_from_rust, major_required_ids,
    student_credit_limit, student_taken_ids, suggest_schedule,
    validate_schedule_against_constraints, Snapshot,
};
use backend::suggest::{
    contains_id, eligible_for, plan_entries, resolve_credit_limit, suggest_course_ids,
    DEFAULT_MAX_CREDITS, MAX_COURSES,
};
use backend::{
    Constraint, ConstraintValue, Course, DegreeRequirement, Enrollment, ScheduledCourse,
    SemesterPlan, Student, StudentPreference, TimeSlot,
};

fn course(course_id: u32, credits: u32, prerequisites: Vec<u32>) -> Course {
    Course {
        course_id,
        course_name: format!("Course {}", course_id),
        credits,
        department: "CS".to_string(),
        semester_offered: "Spring".to_string(),
        prerequisites,
    }
}

fn student(student_id: &str, major_id: u32) -> Student {
    Student {
        student_id: student_id.to_string(),
        name: "Ada".to_string(),
        email: "ada@example.edu".to_string(),
        major_id,
        graduation_semesters: 8,
        student_uuid: "uuid".to_string(),
        advisor_email: "advisor@example.edu".to_string(),
    }
}

fn slot(start: &str, end: &str) -> TimeSlot {
    TimeSlot { start_time: start.to_string(), end_time: end.to_string() }
}

fn preference(student_id: &str, times: Vec<TimeSlot>, courses: Vec<u32>) -> StudentPreference {
    StudentPreference {
        preference_id: format!("pref-{}", student_id),
        student_id: student_id.to_string(),
        preferred_times: times,
        preferred_courses: courses,
    }
}

fn requirement(requirement_id: u32, major_id: u32, course_id: u32) -> DegreeRequirement {
    DegreeRequirement { requirement_id, major_id, course_id, required_credits: 3 }
}

fn constraint(student_id: &str, kind: &str, max_credits: Option<u32>) -> Constraint {
    Constraint {
        constraint_id: "c".to_string(),
        student_id: student_id.to_string(),
        constraint_type: kind.to_string(),
        value: ConstraintValue {
            constraint_type: kind.to_string(),
            max_credits,
            time_of_day: None,
            preferred_time: None,
        },
    }
}

fn enrollment(student_id: &str, course_id: u32) -> Enrollment {
    Enrollment {
        enrollment_id: format!("e-{}-{}", student_id, course_id),
        student_id: student_id.to_string(),
        course_id,
        semester: "Fall 2024".to_string(),
        status: "completed".to_string(),
    }
}

fn ids(plan: &SemesterPlan) -> Vec<u32> {
    plan.courses.iter().map(|c| c.course_id).collect()
}

fn end_to_end() -> Snapshot {
    Snapshot {
        students: vec![student("s1", 7)],
        preferences: vec![preference("s1", vec![slot("10:00", "11:00")], vec![201])],
        requirements: vec![requirement(1, 7, 201), requirement(2, 7, 202)],
        constraints: vec![constraint("s1", "credit_limit", Some(6))],
        courses: vec![course(101, 3, vec![]), course(201, 3, vec![101]), course(202, 3, vec![101])],
        enrollments: vec![enrollment("s1", 101)],
    }
}

#[test]
fn end_to_end_preference_then_requirement() {
    let snapshot = end_to_end();
    let plan = suggest_schedule("s1".to_string(), &snapshot).unwrap();
    assert_eq!(ids(&plan), vec![201, 202]);
    assert_eq!(plan.plan_id, "suggested-s1");
    assert_eq!(plan.student_id, "s1");
    assert_eq!(plan.semester, "Spring 2025");
    let credits: u32 = ids(&plan)
        .iter()
        .map(|id| snapshot.courses.iter().find(|c| c.course_id == *id).unwrap().credits)
        .sum();
    assert_eq!(credits, 6);
    assert!(!ids(&plan).contains(&101));
    for c in &plan.courses {
        assert_eq!(c.day_of_week, "Monday");
        assert_eq!(c.room, "TBD");
        assert_eq!(c.time_slot.start_time, "10:00");
        assert_eq!(c.time_slot.end_time, "11:00");
    }
}

#[test]
fn without_preferred_times_only_requirements_are_admitted() {
    let mut snapshot = end_to_end();
    snapshot.preferences = vec![preference("s1", vec![], vec![201])];
    let plan = suggest_schedule("s1".to_string(), &snapshot).unwrap();
    assert_eq!(ids(&plan), vec![201, 202]);
    for c in &plan.courses {
        assert_eq!(c.time_slot.start_time, "9:00");
        assert_eq!(c.time_slot.end_time, "10:00");
        assert_eq!(c.day_of_week, "Monday");
    }
}

#[test]
fn each_preferred_time_admits_the_same_course_again() {
    let mut snapshot = end_to_end();
    snapshot.preferences =
        vec![preference("s1", vec![slot("8:00", "9:00"), slot("13:00", "14:00")], vec![201])];
    let plan = suggest_schedule("s1".to_string(), &snapshot).unwrap();
    assert_eq!(ids(&plan), vec![201, 201, 202]);
    assert_eq!(plan.courses[2].time_slot.start_time, "8:00");
}

#[test]
fn the_preference_pass_stays_within_the_credit_limit() {
    let mut snapshot = end_to_end();
    let times = || vec![slot("8:00", "9:00"), slot("9:00", "10:00"), slot("10:00", "11:00")];
    snapshot.preferences = vec![preference("s1", times(), vec![201])];
    snapshot.requirements = vec![requirement(1, 7, 999)];
    for (limit, admitted) in [(0, 0), (2, 0), (3, 1), (5, 1), (6, 2), (8, 2), (9, 3), (100, 3)] {
        snapshot.constraints = vec![constraint("s1", "credit_limit", Some(limit))];
        let plan = suggest_schedule("s1".to_string(), &snapshot).unwrap();
        assert_eq!(plan.courses.len(), admitted);
        assert!(3 * plan.courses.len() as u32 <= limit);
    }
}

#[test]
fn a_plan_never_holds_more_than_five_courses() {
    let mut snapshot = end_to_end();
    snapshot.courses = (1..=9).map(|id| course(id, 1, vec![])).collect();
    snapshot.enrollments = vec![];
    snapshot.requirements = (1..=9).map(|id| requirement(id, 7, id)).collect();
    snapshot.preferences = vec![preference("s1", vec![slot("8:00", "9:00"); 2], vec![4])];
    let plan = suggest_schedule("s1".to_string(), &snapshot).unwrap();
    assert_eq!(ids(&plan), vec![4, 4, 1, 2, 3]);
    assert_eq!(plan.courses.len(), MAX_COURSES);
    snapshot.preferences = vec![preference("s1", vec![slot("8:00", "9:00"); 9], vec![4])];
    snapshot.courses = (1..=9).map(|id| course(id, 0, vec![])).collect();
    let plan = suggest_schedule("s1".to_string(), &snapshot).unwrap();
    assert_eq!(ids(&plan), vec![4, 4, 4, 4, 4]);
}

#[test]
fn the_requirement_pass_uses_the_default_limit() {
    let mut snapshot = end_to_end();
    snapshot.courses = vec![course(1, 8, vec![]), course(2, 8, vec![]), course(3, 8, vec![]), course(4, 4, vec![])];
    snapshot.enrollments = vec![];
    snapshot.preferences = vec![preference("s1", vec![], vec![])];
    snapshot.requirements =
        vec![requirement(1, 7, 1), requirement(2, 7, 2), requirement(3, 7, 3), requirement(4, 7, 4)];
    snapshot.constraints = vec![constraint("s1", "credit_limit", Some(100))];
    let plan = suggest_schedule("s1".to_string(), &snapshot).unwrap();
    assert_eq!(ids(&plan), vec![1, 2, 4]);
    assert_eq!(DEFAULT_MAX_CREDITS, 20);
    snapshot.constraints = vec![constraint("s1", "credit_limit", Some(5))];
    let plan = suggest_schedule("s1".to_string(), &snapshot).unwrap();
    assert_eq!(ids(&plan), vec![1, 2, 4]);
}

#[test]
fn unmet_prerequisites_everywhere_give_an_empty_plan() {
    let mut snapshot = end_to_end();
    snapshot.courses = vec![course(201, 3, vec![101]), course(202, 3, vec![101, 102])];
    snapshot.enrollments = vec![enrollment("s2", 101)];
    let plan = suggest_schedule("s1".to_string(), &snapshot).unwrap();
    assert!(plan.courses.is_empty());
}

#[test]
fn a_preferred_course_with_unmet_prerequisites_is_not_admitted() {
    let mut snapshot = end_to_end();
    snapshot.courses =
        vec![course(101, 3, vec![]), course(201, 3, vec![101, 150]), course(202, 3, vec![101])];
    let plan = suggest_schedule("s1".to_string(), &snapshot).unwrap();
    assert_eq!(ids(&plan), vec![202]);
}

#[test]
fn a_required_course_is_not_admitted_twice() {
    let mut snapshot = end_to_end();
    snapshot.requirements =
        vec![requirement(1, 7, 202), requirement(2, 7, 202), requirement(3, 7, 201)];
    snapshot.constraints = vec![];
    let plan = suggest_schedule("s1".to_string(), &snapshot).unwrap();
    assert_eq!(ids(&plan), vec![201, 202]);
}

#[test]
fn missing_records_are_reported_by_id() {
    let snapshot = end_to_end();
    let e = suggest_schedule("nobody".to_string(), &snapshot).unwrap_err();
    assert_eq!((e.code, e.error.as_str()), (404, "Student not found with ID: nobody"));

    let mut no_preferences = end_to_end();
    no_preferences.preferences = vec![preference("s2", vec![], vec![])];
    let e = suggest_schedule("s1".to_string(), &no_preferences).unwrap_err();
    assert_eq!((e.code, e.error.as_str()), (404, "No preferences found for student ID: s1"));

    let mut no_requirements = end_to_end();
    no_requirements.students = vec![student("s1", 4030)];
    let e = suggest_schedule("s1".to_string(), &no_requirements).unwrap_err();
    assert_eq!((e.code, e.error.as_str()), (404, "No degree requirements found for major ID: 4030"));

    let mut nothing = end_to_end();
    nothing.preferences = vec![];
    nothing.requirements = vec![];
    nothing.students = vec![];
    let e = suggest_schedule("s1".to_string(), &nothing).unwrap_err();
    assert_eq!(e.error, "Student not found with ID: s1");
}

#[test]
fn the_first_record_of_an_id_is_the_one() {
    let students = vec![student("a", 1), student("b", 2), student("a", 3)];
    assert_eq!(get_student_by_id(students.clone(), "a".to_string()).unwrap().major_id, 1);
    assert_eq!(get_student_by_id(students.clone(), "b".to_string()).unwrap().major_id, 2);
    let e = get_student_by_id(students, "c".to_string()).unwrap_err();
    assert_eq!((e.code, e.error.as_str()), (404, "Student not found with ID: c"));

    let preferences = vec![preference("a", vec![], vec![1]), preference("a", vec![], vec![2])];
    let own = get_student_preferences(preferences.clone(), "a".to_string()).unwrap();
    assert_eq!(own.preferred_courses, vec![1]);
    let e = get_student_preferences(preferences, "z".to_string()).unwrap_err();
    assert_eq!((e.code, e.error.as_str()), (404, "No preferences found for student ID: z"));

    let plan = |student_id: &str, semester: &str| SemesterPlan {
        plan_id: "p".to_string(),
        student_id: student_id.to_string(),
        semester: semester.to_string(),
        courses: vec![],
    };
    let plans = vec![plan("b", "one"), plan("a", "two"), plan("a", "three")];
    assert_eq!(get_semester_plan(plans.clone(), "a".to_string()).unwrap().semester, "two");
    let e = get_semester_plan(plans, "q".to_string()).unwrap_err();
    assert_eq!((e.code, e.error.as_str()), (404, "No semester plan found for student ID: q"));
}

#[test]
fn records_are_scoped_in_their_order() {
    let requirements =
        vec![requirement(1, 7, 30), requirement(2, 8, 40), requirement(3, 7, 10), requirement(4, 7, 30)];
    let own = get_degree_requirements(&requirements, 7).unwrap();
    assert_eq!(own.iter().map(|r| r.requirement_id).collect::<Vec<u32>>(), vec![1, 3, 4]);
    assert_eq!(major_required_ids(&requirements, 7), vec![30, 10, 30]);
    assert_eq!(major_required_ids(&requirements, 9), vec![]);
    let e = get_degree_requirements(&requirements, 0).unwrap_err();
    assert_eq!((e.code, e.error.as_str()), (404, "No degree requirements found for major ID: 0"));
    let e = get_degree_requirements(&requirements, u32::MAX).unwrap_err();
    assert_eq!(e.error, "No degree requirements found for major ID: 4294967295");

    let constraints = vec![
        constraint("a", "credit_limit", Some(12)),
        constraint("b", "credit_limit", Some(9)),
        constraint("a", "time_of_day", None),
    ];
    let own = get_student_constraints(constraints.clone(), "a".to_string()).unwrap();
    assert_eq!(own.len(), 2);
    assert_eq!(own[0].value.max_credits, Some(12));
    assert_eq!(own[1].constraint_type, "time_of_day");
    assert!(get_student_constraints(constraints, "c".to_string()).unwrap().is_empty());

    let enrollments = vec![enrollment("a", 5), enrollment("b", 6), enrollment("a", 7)];
    let own = get_student_enrollments(enrollments.clone(), "a".to_string()).unwrap();
    assert_eq!(own.iter().map(|e| e.course_id).collect::<Vec<u32>>(), vec![5, 7]);
    assert_eq!(student_taken_ids(&enrollments, &"a".to_string()), vec![5, 7]);
    assert_eq!(student_taken_ids(&enrollments, &"z".to_string()), vec![]);
}

#[test]
fn the_last_credit_limit_counts() {
    assert_eq!(resolve_credit_limit(&vec![]), 20);
    assert_eq!(resolve_credit_limit(&vec![constraint("a", "time_of_day", Some(3))]), 20);
    assert_eq!(resolve_credit_limit(&vec![constraint("a", "credit_limit", None)]), 20);
    assert_eq!(resolve_credit_limit(&vec![constraint("a", "credit_limit", Some(6))]), 6);
    let several = vec![
        constraint("a", "credit_limit", Some(6)),
        constraint("a", "credit_limit", Some(15)),
        constraint("a", "credit_limit", None),
        constraint("b", "credit_limit", Some(1)),
        constraint("a", "other", Some(2)),
    ];
    assert_eq!(resolve_credit_limit(&several), 1);
    assert_eq!(student_credit_limit(&several, &"a".to_string()), 15);
    assert_eq!(student_credit_limit(&several, &"b".to_string()), 1);
    assert_eq!(student_credit_limit(&several, &"c".to_string()), 20);
}

#[test]
fn eligibility_needs_every_prerequisite_and_no_earlier_enrollment() {
    let taken = vec![101, 102];
    assert!(eligible_for(&taken, &course(201, 3, vec![])));
    assert!(eligible_for(&taken, &course(201, 3, vec![101])));
    assert!(eligible_for(&taken, &course(201, 3, vec![102, 101])));
    assert!(!eligible_for(&taken, &course(201, 3, vec![101, 103])));
    assert!(!eligible_for(&taken, &course(101, 3, vec![])));
    assert!(!eligible_for(&vec![], &course(201, 3, vec![101])));
    assert!(contains_id(&taken, 102));
    assert!(!contains_id(&taken, 103));
}

#[test]
fn course_ids_follow_both_passes() {
    let catalog = vec![course(1, 4, vec![]), course(2, 4, vec![]), course(3, 30, vec![]), course(2, 1, vec![])];
    let got = suggest_course_ids(&vec![], &catalog, 4, &vec![2, 1], 9, &vec![3, 2, 1, 7]);
    assert_eq!(got, vec![1, 1, 2]);
    let got = suggest_course_ids(&vec![1], &catalog, 4, &vec![2, 1], 9, &vec![3, 2, 1, 7]);
    assert_eq!(got, vec![2, 2]);
    let got = suggest_course_ids(&vec![1], &catalog, 1, &vec![9], 9, &vec![3, 2, 1, 7]);
    assert_eq!(got, vec![2]);
    let got = suggest_course_ids(&vec![], &catalog, 3, &vec![3], 29, &vec![]);
    assert_eq!(got, vec![]);
    let got = suggest_course_ids(&vec![], &catalog, 3, &vec![3], 30, &vec![1]);
    assert_eq!(got, vec![3]);
    let huge = vec![course(1, u32::MAX, vec![]), course(2, u32::MAX, vec![])];
    assert_eq!(suggest_course_ids(&vec![], &huge, 9, &vec![1], u32::MAX, &vec![2]), vec![1]);
}

#[test]
fn entries_are_placed_at_the_first_preferred_time() {
    let placed: Vec<ScheduledCourse> =
        plan_entries(&vec![slot("14:00", "15:30"), slot("8:00", "9:00")], &vec![7, 8]);
    assert_eq!(placed.len(), 2);
    assert_eq!(placed[0].course_id, 7);
    assert_eq!(placed[1].course_id, 8);
    assert_eq!(placed[1].time_slot.start_time, "14:00");
    assert_eq!(placed[1].time_slot.end_time, "15:30");
    let fallback = plan_entries(&vec![], &vec![7]);
    assert_eq!(fallback[0].time_slot.start_time, "9:00");
    assert_eq!(fallback[0].time_slot.end_time, "10:00");
    assert_eq!(fallback[0].day_of_week, "Monday");
    assert_eq!(fallback[0].room, "TBD");
    assert!(plan_entries(&vec![], &vec![]).is_empty());
}

#[test]
fn a_suggested_plan_with_several_courses_conflicts_with_itself() {
    let plan = suggest_schedule("s1".to_string(), &end_to_end()).unwrap();
    assert_eq!(backend::api::check_schedule_conflicts(plan).unwrap(), true);
}

#[test]
fn validation_checks_conflicts_and_credit_limits() {
    let entry = |course_id: u32, day: &str, start: &str, end: &str| ScheduledCourse {
        course_id,
        time_slot: slot(start, end),
        day_of_week: day.to_string(),
        room: "R".to_string(),
    };
    let plan = |courses: Vec<ScheduledCourse>| SemesterPlan {
        plan_id: "p".to_string(),
        student_id: "s1".to_string(),
        semester: "Spring 2025".to_string(),
        courses,
    };
    let catalog = vec![course(1, 4, vec![]), course(2, 5, vec![]), course(1, 50, vec![])];
    let free = || plan(vec![entry(1, "Monday", "9:00", "10:00"), entry(2, "Tuesday", "9:00", "10:00"), entry(3, "Friday", "9:00", "10:00")]);
    let limits = |max: u32| vec![constraint("s2", "credit_limit", Some(0)), constraint("s1", "credit_limit", Some(max)), constraint("s1", "credit_limit", None), constraint("s1", "time_of_day", Some(0))];
    assert_eq!(validate_schedule_against_constraints(free(), &limits(9), &catalog).unwrap(), true);
    assert_eq!(validate_schedule_against_constraints(free(), &limits(8), &catalog).unwrap(), false);
    assert_eq!(validate_schedule_against_constraints(free(), &vec![], &catalog).unwrap(), true);
    let both = vec![constraint("s1", "credit_limit", Some(8)), constraint("s1", "credit_limit", Some(20))];
    assert_eq!(validate_schedule_against_constraints(free(), &both, &catalog).unwrap(), false);
    let clash = plan(vec![entry(1, "Monday", "9:00", "10:00"), entry(2, "Monday", "9:00", "10:00")]);
    assert_eq!(validate_schedule_against_constraints(clash, &vec![], &catalog).unwrap(), false);
}

#[test]
fn the_library_answers() {
    assert_eq!(hello_from_rust(), "Hello from Rust!");
}
