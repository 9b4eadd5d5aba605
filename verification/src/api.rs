//! The operations of the service on a snapshot of its records.
//!
//! A caller loads the records and hands them over; nothing here reads a file.
//! A record that an operation needs and does not find is reported as an
//! `ApiError` with code 404 whose message names the missing id.

use vstd::prelude::*;
use crate::clock::{lenient_minutes, parse_lenient};
use crate::overlap::{conflict_exists, default_policy, has_conflicts, plan_meetings, CheckPolicy};
use crate::suggest::{
    credit_limit, is_eligible, lemma_no_eligible_course_no_plan, lemma_preference_pass_bounds,
    lemma_suggested_are_eligible, lemma_suggested_size, plan_entries, planned_credits,
    preference_pass, required_ids, sets_credit_limit, suggest_course_ids, suggested_entries,
    suggested_ids, suggested_slot, taken_ids, DEFAULT_MAX_CREDITS, MAX_COURSES,
};
use crate::text::{decimal, decimal_string, join};
use crate::{
    course_views, slot_views, ApiError, ApiErrorView, ApiResult, Constraint, Course,
    DegreeRequirement, Enrollment, SemesterPlan, SemesterPlanView, Student, StudentPreference,
};

verus! {

/// The records of the service at one moment.
#[derive(Debug, Clone)]
pub struct Snapshot {
    pub students: Vec<Student>,
    pub preferences: Vec<StudentPreference>,
    pub requirements: Vec<DegreeRequirement>,
    pub constraints: Vec<Constraint>,
    pub courses: Vec<Course>,
    pub enrollments: Vec<Enrollment>,
}

/// The failure that reports a missing record.
pub open spec fn not_found(message: Seq<char>) -> ApiErrorView {
    ApiErrorView { error: message, code: 404 }
}

/// The failure that turns a request down.
pub open spec fn bad_request(message: Seq<char>) -> ApiErrorView {
    ApiErrorView { error: message, code: 400 }
}

/// The ids of the students, in their order.
pub open spec fn student_ids(students: Seq<Student>) -> Seq<Seq<char>> {
    students.map_values(|s: Student| s.student_id@)
}

/// The ids of the students whose preferences these are, in their order.
pub open spec fn preference_owners(preferences: Seq<StudentPreference>) -> Seq<Seq<char>> {
    preferences.map_values(|p: StudentPreference| p.student_id@)
}

/// The ids of the students whose plans these are, in their order.
pub open spec fn plan_owners(plans: Seq<SemesterPlan>) -> Seq<Seq<char>> {
    plans.map_values(|p: SemesterPlan| p.student_id@)
}

/// The constraint is one of the student `student_id`.
pub open spec fn constraint_of(student_id: Seq<char>) -> spec_fn(Constraint) -> bool {
    |c: Constraint| c.student_id@ == student_id
}

/// The enrollment is one of the student `student_id`.
pub open spec fn enrollment_of(student_id: Seq<char>) -> spec_fn(Enrollment) -> bool {
    |e: Enrollment| e.student_id@ == student_id
}

/// The requirement is one of the major `major_id`.
pub open spec fn requirement_of(major_id: u32) -> spec_fn(DegreeRequirement) -> bool {
    |r: DegreeRequirement| r.major_id == major_id
}

/// The key at `i` is the first that equals `key`.
proof fn lemma_first_key(keys: Seq<Seq<char>>, key: Seq<char>, i: int)
    requires
        0 <= i < keys.len(),
        keys[i] == key,
        forall|j: int| 0 <= j < i ==> keys[j] != key,
    ensures
        keys.index_of_first(key) == Some(i),
{
    keys.index_of_first_ensures(key);
    assert(keys.contains(key));
}

/// No key equals `key`.
proof fn lemma_no_key(keys: Seq<Seq<char>>, key: Seq<char>)
    requires
        forall|j: int| 0 <= j < keys.len() ==> keys[j] != key,
    ensures
        keys.index_of_first(key) is None,
{
    keys.index_of_first_ensures(key);
}

/// A greeting, to try out the connection to the library.
pub fn hello_from_rust() -> (greeting: String)
    ensures
        greeting@ == "Hello from Rust!"@,
{
    String::from_str("Hello from Rust!")
}

/// Finds the place of the student `student_id`.
pub fn find_student(students: &Vec<Student>, student_id: &String) -> (r: Option<usize>)
    ensures
        match r {
            Some(i) => i < students.len() && student_ids(students@).index_of_first(student_id@)
                == Some(i as int),
            None => student_ids(students@).index_of_first(student_id@) is None,
        },
{
    let ghost keys = student_ids(students@);
    let mut i: usize = 0;
    while i < students.len()
        invariant
            i <= students.len(),
            keys == student_ids(students@),
            forall|j: int| 0 <= j < i ==> keys[j] != student_id@,
        decreases students.len() - i,
    {
        if students[i].student_id == *student_id {
            proof {
                lemma_first_key(keys, student_id@, i as int);
            }
            return Some(i);
        }
        i = i + 1;
    }
    proof {
        lemma_no_key(keys, student_id@);
    }
    None
}

/// The student `student_id`: the first of `students` with that id.
pub fn get_student_by_id(students: Vec<Student>, student_id: String) -> (r: ApiResult<Student>)
    ensures
        match r {
            Ok(student) => student_ids(students@).index_of_first(student_id@) matches Some(i)
                && student == students@[i],
            Err(e) => student_ids(students@).index_of_first(student_id@) is None && e@
                == not_found("Student not found with ID: "@ + student_id@),
        },
{
    let mut students = students;
    match find_student(&students, &student_id) {
        Some(i) => {
            proof {
                student_ids(students@).index_of_first_ensures(student_id@);
            }
            Ok(students.swap_remove(i))
        },
        None => Err(
            ApiError { error: join("Student not found with ID: ", student_id.as_str()), code: 404 },
        ),
    }
}

/// The constraints of the student `student_id`, in the order of
/// `constraints`.
pub fn get_student_constraints(constraints: Vec<Constraint>, student_id: String) -> (r: ApiResult<
    Vec<Constraint>,
>)
    ensures
        r matches Ok(own) && own@ == constraints@.filter(constraint_of(student_id@)),
{
    let mut own: Vec<Constraint> = Vec::new();
    let ghost pred = constraint_of(student_id@);
    for c in it: constraints
        invariant
            pred == constraint_of(student_id@),
            it.seq() == constraints@,
            own@ == it.seq().take(it.index()).filter(pred),
    {
        proof {
            assert(it.seq().take(it.index() + 1) =~= it.seq().take(it.index()).push(c));
            it.seq().take(it.index()).lemma_filter_push(c, pred);
        }
        if c.student_id == student_id {
            own.push(c);
        }
    }
    proof {
        assert(constraints@.take(constraints@.len() as int) =~= constraints@);
    }
    Ok(own)
}

/// The enrollments of the student `student_id`, in the order of
/// `enrollments`.
pub fn get_student_enrollments(enrollments: Vec<Enrollment>, student_id: String) -> (r: ApiResult<
    Vec<Enrollment>,
>)
    ensures
        r matches Ok(own) && own@ == enrollments@.filter(enrollment_of(student_id@)),
{
    let mut own: Vec<Enrollment> = Vec::new();
    let ghost pred = enrollment_of(student_id@);
    for e in it: enrollments
        invariant
            pred == enrollment_of(student_id@),
            it.seq() == enrollments@,
            own@ == it.seq().take(it.index()).filter(pred),
    {
        proof {
            assert(it.seq().take(it.index() + 1) =~= it.seq().take(it.index()).push(e));
            it.seq().take(it.index()).lemma_filter_push(e, pred);
        }
        if e.student_id == student_id {
            own.push(e);
        }
    }
    proof {
        assert(enrollments@.take(enrollments@.len() as int) =~= enrollments@);
    }
    Ok(own)
}

/// Finds the place of the preferences of the student `student_id`.
pub fn find_preferences(preferences: &Vec<StudentPreference>, student_id: &String) -> (r: Option<
    usize,
>)
    ensures
        match r {
            Some(i) => i < preferences.len() && preference_owners(preferences@).index_of_first(
                student_id@,
            ) == Some(i as int),
            None => preference_owners(preferences@).index_of_first(student_id@) is None,
        },
{
    let ghost keys = preference_owners(preferences@);
    let mut i: usize = 0;
    while i < preferences.len()
        invariant
            i <= preferences.len(),
            keys == preference_owners(preferences@),
            forall|j: int| 0 <= j < i ==> keys[j] != student_id@,
        decreases preferences.len() - i,
    {
        if preferences[i].student_id == *student_id {
            proof {
                lemma_first_key(keys, student_id@, i as int);
            }
            return Some(i);
        }
        i = i + 1;
    }
    proof {
        lemma_no_key(keys, student_id@);
    }
    None
}

/// The preferences of the student `student_id`: the first of `preferences`
/// with that id.
pub fn get_student_preferences(preferences: Vec<StudentPreference>, student_id: String) -> (r:
    ApiResult<StudentPreference>)
    ensures
        match r {
            Ok(own) => preference_owners(preferences@).index_of_first(student_id@) matches Some(i)
                && own == preferences@[i],
            Err(e) => preference_owners(preferences@).index_of_first(student_id@) is None && e@
                == not_found("No preferences found for student ID: "@ + student_id@),
        },
{
    let mut preferences = preferences;
    match find_preferences(&preferences, &student_id) {
        Some(i) => {
            proof {
                preference_owners(preferences@).index_of_first_ensures(student_id@);
            }
            Ok(preferences.swap_remove(i))
        },
        None => Err(
            ApiError {
                error: join("No preferences found for student ID: ", student_id.as_str()),
                code: 404,
            },
        ),
    }
}

/// Finds the place of the semester plan of the student `student_id`.
pub fn find_plan(plans: &Vec<SemesterPlan>, student_id: &String) -> (r: Option<usize>)
    ensures
        match r {
            Some(i) => i < plans.len() && plan_owners(plans@).index_of_first(student_id@) == Some(
                i as int,
            ),
            None => plan_owners(plans@).index_of_first(student_id@) is None,
        },
{
    let ghost keys = plan_owners(plans@);
    let mut i: usize = 0;
    while i < plans.len()
        invariant
            i <= plans.len(),
            keys == plan_owners(plans@),
            forall|j: int| 0 <= j < i ==> keys[j] != student_id@,
        decreases plans.len() - i,
    {
        if plans[i].student_id == *student_id {
            proof {
                lemma_first_key(keys, student_id@, i as int);
            }
            return Some(i);
        }
        i = i + 1;
    }
    proof {
        lemma_no_key(keys, student_id@);
    }
    None
}

/// The semester plan of the student `student_id`: the first of `plans` with
/// that id.
pub fn get_semester_plan(plans: Vec<SemesterPlan>, student_id: String) -> (r: ApiResult<
    SemesterPlan,
>)
    ensures
        match r {
            Ok(own) => plan_owners(plans@).index_of_first(student_id@) matches Some(i) && own
                == plans@[i],
            Err(e) => plan_owners(plans@).index_of_first(student_id@) is None && e@ == not_found(
                "No semester plan found for student ID: "@ + student_id@,
            ),
        },
{
    let mut plans = plans;
    match find_plan(&plans, &student_id) {
        Some(i) => {
            proof {
                plan_owners(plans@).index_of_first_ensures(student_id@);
            }
            Ok(plans.swap_remove(i))
        },
        None => Err(
            ApiError {
                error: join("No semester plan found for student ID: ", student_id.as_str()),
                code: 404,
            },
        ),
    }
}

/// The requirements of the major `major_id`, in the order of
/// `requirements`. A major without requirements is reported as missing.
pub fn get_degree_requirements(requirements: &Vec<DegreeRequirement>, major_id: u32) -> (r:
    ApiResult<Vec<DegreeRequirement>>)
    ensures
        match r {
            Ok(own) => own@ == requirements@.filter(requirement_of(major_id)) && own@.len() > 0,
            Err(e) => requirements@.filter(requirement_of(major_id)).len() == 0 && e@ == not_found(
                "No degree requirements found for major ID: "@ + decimal(major_id as nat),
            ),
        },
{
    let mut own: Vec<DegreeRequirement> = Vec::new();
    let ghost pred = requirement_of(major_id);
    let mut i: usize = 0;
    while i < requirements.len()
        invariant
            i <= requirements.len(),
            pred == requirement_of(major_id),
            own@ == requirements@.take(i as int).filter(pred),
        decreases requirements.len() - i,
    {
        proof {
            assert(requirements@.take(i + 1) =~= requirements@.take(i as int).push(
                requirements@[i as int],
            ));
            requirements@.take(i as int).lemma_filter_push(requirements@[i as int], pred);
        }
        if requirements[i].major_id == major_id {
            own.push(requirements[i]);
        }
        i = i + 1;
    }
    proof {
        assert(requirements@.take(requirements@.len() as int) =~= requirements@);
    }
    if own.len() == 0 {
        let mut message = String::from_str("No degree requirements found for major ID: ");
        message.append(decimal_string(major_id as u128).as_str());
        return Err(ApiError { error: message, code: 404 });
    }
    Ok(own)
}

/// The credit limit of the student `student_id` under `constraints`, the
/// constraints of all students.
pub fn student_credit_limit(constraints: &Vec<Constraint>, student_id: &String) -> (limit: u32)
    ensures
        limit == credit_limit(constraints@.filter(constraint_of(student_id@))),
{
    let tag = String::from_str("credit_limit");
    let ghost pred = constraint_of(student_id@);
    let mut limit: u32 = DEFAULT_MAX_CREDITS;
    let mut i: usize = 0;
    while i < constraints.len()
        invariant
            i <= constraints.len(),
            tag@ == "credit_limit"@,
            pred == constraint_of(student_id@),
            limit == credit_limit(constraints@.take(i as int).filter(pred)),
        decreases constraints.len() - i,
    {
        let ghost before = constraints@.take(i as int).filter(pred);
        proof {
            assert(constraints@.take(i + 1) =~= constraints@.take(i as int).push(
                constraints@[i as int],
            ));
            constraints@.take(i as int).lemma_filter_push(constraints@[i as int], pred);
            assert(before.push(constraints@[i as int]).drop_last() =~= before);
        }
        if constraints[i].student_id == *student_id && constraints[i].constraint_type == tag {
            match constraints[i].value.max_credits {
                Some(max) => {
                    limit = max;
                },
                None => {},
            }
        }
        i = i + 1;
    }
    proof {
        assert(constraints@.take(constraints@.len() as int) =~= constraints@);
    }
    limit
}

/// The course ids that the student `student_id` has enrolled in, under
/// `enrollments`, the enrollments of all students.
pub fn student_taken_ids(enrollments: &Vec<Enrollment>, student_id: &String) -> (taken: Vec<u32>)
    ensures
        taken@ == taken_ids(enrollments@.filter(enrollment_of(student_id@))),
{
    let ghost pred = enrollment_of(student_id@);
    let mut taken: Vec<u32> = Vec::new();
    let mut i: usize = 0;
    while i < enrollments.len()
        invariant
            i <= enrollments.len(),
            pred == enrollment_of(student_id@),
            taken@ == taken_ids(enrollments@.take(i as int).filter(pred)),
        decreases enrollments.len() - i,
    {
        let ghost before = enrollments@.take(i as int).filter(pred);
        proof {
            assert(enrollments@.take(i + 1) =~= enrollments@.take(i as int).push(
                enrollments@[i as int],
            ));
            enrollments@.take(i as int).lemma_filter_push(enrollments@[i as int], pred);
            assert(taken_ids(before.push(enrollments@[i as int])) =~= taken_ids(before).push(
                enrollments@[i as int].course_id,
            ));
        }
        if enrollments[i].student_id == *student_id {
            taken.push(enrollments[i].course_id);
        }
        i = i + 1;
    }
    proof {
        assert(enrollments@.take(enrollments@.len() as int) =~= enrollments@);
    }
    taken
}

/// The course ids that the major `major_id` requires, under `requirements`,
/// the requirements of all majors.
pub fn major_required_ids(requirements: &Vec<DegreeRequirement>, major_id: u32) -> (required: Vec<
    u32,
>)
    ensures
        required@ == required_ids(requirements@.filter(requirement_of(major_id))),
{
    let ghost pred = requirement_of(major_id);
    let mut required: Vec<u32> = Vec::new();
    let mut i: usize = 0;
    while i < requirements.len()
        invariant
            i <= requirements.len(),
            pred == requirement_of(major_id),
            required@ == required_ids(requirements@.take(i as int).filter(pred)),
        decreases requirements.len() - i,
    {
        let ghost before = requirements@.take(i as int).filter(pred);
        proof {
            assert(requirements@.take(i + 1) =~= requirements@.take(i as int).push(
                requirements@[i as int],
            ));
            requirements@.take(i as int).lemma_filter_push(requirements@[i as int], pred);
            assert(required_ids(before.push(requirements@[i as int])) =~= required_ids(
                before,
            ).push(requirements@[i as int].course_id));
        }
        if requirements[i].major_id == major_id {
            required.push(requirements[i].course_id);
        }
        i = i + 1;
    }
    proof {
        assert(requirements@.take(requirements@.len() as int) =~= requirements@);
    }
    required
}

/// Why no plan can be suggested to the student `student_id`: the first
/// record that is missing, of the student, the student's preferences and the
/// requirements of the student's major, in this order. `None` where all are
/// there.
pub open spec fn suggestion_failure(snapshot: Snapshot, student_id: Seq<char>) -> Option<
    ApiErrorView,
> {
    match student_ids(snapshot.students@).index_of_first(student_id) {
        None => Some(not_found("Student not found with ID: "@ + student_id)),
        Some(s) => match preference_owners(snapshot.preferences@).index_of_first(student_id) {
            None => Some(not_found("No preferences found for student ID: "@ + student_id)),
            Some(p) => {
                let major = snapshot.students@[s].major_id;
                if snapshot.requirements@.filter(requirement_of(major)).len() == 0 {
                    Some(
                        not_found(
                            "No degree requirements found for major ID: "@ + decimal(major as nat),
                        ),
                    )
                } else {
                    None
                }
            },
        },
    }
}

/// The preferences of the student `student_id`: the first with that id.
pub open spec fn student_preference(snapshot: Snapshot, student_id: Seq<char>)
    -> StudentPreference {
    snapshot.preferences@[preference_owners(snapshot.preferences@).index_of_first(
        student_id,
    )->0]
}

/// The course ids that the student `student_id` has enrolled in.
pub open spec fn student_taken(snapshot: Snapshot, student_id: Seq<char>) -> Seq<u32> {
    taken_ids(snapshot.enrollments@.filter(enrollment_of(student_id)))
}

/// The credit limit of the student `student_id`.
pub open spec fn student_limit(snapshot: Snapshot, student_id: Seq<char>) -> nat {
    credit_limit(snapshot.constraints@.filter(constraint_of(student_id))) as nat
}

/// The course ids that the major of the student `student_id` requires,
/// where the student is the first of that id.
pub open spec fn student_required(snapshot: Snapshot, student_id: Seq<char>) -> Seq<u32> {
    let student = snapshot.students@[student_ids(snapshot.students@).index_of_first(
        student_id,
    )->0];
    required_ids(snapshot.requirements@.filter(requirement_of(student.major_id)))
}

/// The course ids that the preference pass admits for the student
/// `student_id`.
pub open spec fn preferred_courses(snapshot: Snapshot, student_id: Seq<char>) -> Seq<u32> {
    let own = student_preference(snapshot, student_id);
    preference_pass(
        student_taken(snapshot, student_id),
        snapshot.courses@,
        own.preferred_times@.len(),
        own.preferred_courses@,
        student_limit(snapshot, student_id),
    )
}

/// The course ids of the plan suggested to the student `student_id`, by the
/// student's preferences, constraints and enrollments, the requirements of
/// the student's major, and the whole catalog.
pub open spec fn suggested_courses(snapshot: Snapshot, student_id: Seq<char>) -> Seq<u32> {
    let own = student_preference(snapshot, student_id);
    suggested_ids(
        student_taken(snapshot, student_id),
        snapshot.courses@,
        own.preferred_times@.len(),
        own.preferred_courses@,
        student_limit(snapshot, student_id),
        student_required(snapshot, student_id),
    )
}

/// A suggested plan holds at most `MAX_COURSES` courses. It starts with what
/// the preference pass admitted, and that counts no more credits than the
/// student's credit limit.
pub proof fn lemma_suggested_plan_bounds(snapshot: Snapshot, student_id: Seq<char>)
    ensures
        suggested_courses(snapshot, student_id).len() <= MAX_COURSES,
        suggested_plan(snapshot, student_id).courses.len() <= MAX_COURSES,
        preferred_courses(snapshot, student_id).len() <= suggested_courses(
            snapshot,
            student_id,
        ).len(),
        suggested_courses(snapshot, student_id).take(
            preferred_courses(snapshot, student_id).len() as int,
        ) == preferred_courses(snapshot, student_id),
        planned_credits(
            student_taken(snapshot, student_id),
            snapshot.courses@,
            preferred_courses(snapshot, student_id),
        ) <= student_limit(snapshot, student_id),
{
    let own = student_preference(snapshot, student_id);
    lemma_suggested_size(
        student_taken(snapshot, student_id),
        snapshot.courses@,
        own.preferred_times@.len(),
        own.preferred_courses@,
        student_limit(snapshot, student_id),
        student_required(snapshot, student_id),
    );
    lemma_preference_pass_bounds(
        student_taken(snapshot, student_id),
        snapshot.courses@,
        own.preferred_times@.len(),
        own.preferred_courses@,
        student_limit(snapshot, student_id),
    );
}

/// Every course of a suggested plan is a course of the catalog that the
/// student has not taken and of which the student has taken all the
/// prerequisites.
pub proof fn lemma_suggested_plan_is_eligible(snapshot: Snapshot, student_id: Seq<char>, k: int)
    requires
        0 <= k < suggested_courses(snapshot, student_id).len(),
    ensures
        !student_taken(snapshot, student_id).contains(suggested_courses(snapshot, student_id)[k]),
        exists|i: int|
            0 <= i < snapshot.courses@.len() && is_eligible(
                student_taken(snapshot, student_id),
                #[trigger] snapshot.courses@[i],
            ) && snapshot.courses@[i].course_id == suggested_courses(snapshot, student_id)[k],
{
    let own = student_preference(snapshot, student_id);
    lemma_suggested_are_eligible(
        student_taken(snapshot, student_id),
        snapshot.courses@,
        own.preferred_times@.len(),
        own.preferred_courses@,
        student_limit(snapshot, student_id),
        student_required(snapshot, student_id),
        k,
    );
}

/// Where the student may take no course of the catalog, because each is
/// taken already or has a prerequisite that the student has not taken, the
/// suggested plan is empty.
pub proof fn lemma_no_eligible_course_empty_plan(snapshot: Snapshot, student_id: Seq<char>)
    requires
        forall|i: int|
            0 <= i < snapshot.courses@.len() ==> !is_eligible(
                student_taken(snapshot, student_id),
                #[trigger] snapshot.courses@[i],
            ),
    ensures
        suggested_courses(snapshot, student_id).len() == 0,
        suggested_plan(snapshot, student_id).courses.len() == 0,
{
    let own = student_preference(snapshot, student_id);
    lemma_no_eligible_course_no_plan(
        student_taken(snapshot, student_id),
        snapshot.courses@,
        own.preferred_times@.len(),
        own.preferred_courses@,
        student_limit(snapshot, student_id),
        student_required(snapshot, student_id),
    );
}

/// The plan suggested to the student `student_id`.
pub open spec fn suggested_plan(snapshot: Snapshot, student_id: Seq<char>) -> SemesterPlanView {
    let own = student_preference(snapshot, student_id);
    SemesterPlanView {
        plan_id: "suggested-"@ + student_id,
        student_id,
        semester: "Spring 2025"@,
        courses: suggested_entries(
            suggested_slot(slot_views(own.preferred_times@)),
            suggested_courses(snapshot, student_id),
        ),
    }
}

/// Suggests a plan for the next semester to the student `student_id`.
///
/// Fails, with no plan at all, where the student, the student's preferences
/// or the requirements of the student's major are missing.
pub fn suggest_schedule(student_id: String, snapshot: &Snapshot) -> (r: ApiResult<SemesterPlan>)
    ensures
        match r {
            Ok(plan) => {
                &&& suggestion_failure(*snapshot, student_id@) is None
                &&& plan@ == suggested_plan(*snapshot, student_id@)
                &&& plan.courses@.len() <= MAX_COURSES
            },
            Err(e) => suggestion_failure(*snapshot, student_id@) == Some(e@),
        },
{
    let student = match find_student(&snapshot.students, &student_id) {
        Some(i) => &snapshot.students[i],
        None => {
            return Err(
                ApiError {
                    error: join("Student not found with ID: ", student_id.as_str()),
                    code: 404,
                },
            );
        },
    };
    let own = match find_preferences(&snapshot.preferences, &student_id) {
        Some(i) => &snapshot.preferences[i],
        None => {
            return Err(
                ApiError {
                    error: join("No preferences found for student ID: ", student_id.as_str()),
                    code: 404,
                },
            );
        },
    };
    let required = major_required_ids(&snapshot.requirements, student.major_id);
    if required.len() == 0 {
        let mut message = String::from_str("No degree requirements found for major ID: ");
        message.append(decimal_string(student.major_id as u128).as_str());
        return Err(ApiError { error: message, code: 404 });
    }
    let limit = student_credit_limit(&snapshot.constraints, &student_id);
    let taken = student_taken_ids(&snapshot.enrollments, &student_id);
    let ids = suggest_course_ids(
        &taken,
        &snapshot.courses,
        own.preferred_times.len(),
        &own.preferred_courses,
        limit,
        &required,
    );
    let courses = plan_entries(&own.preferred_times, &ids);
    proof {
        lemma_suggested_size(
            taken@,
            snapshot.courses@,
            own.preferred_times@.len(),
            own.preferred_courses@,
            limit as nat,
            required@,
        );
        assert(course_views(courses@).len() == ids@.len());
    }
    Ok(
        SemesterPlan {
            plan_id: join("suggested-", student_id.as_str()),
            student_id,
            semester: String::from_str("Spring 2025"),
            courses,
        },
    )
}

/// Tells whether any two courses of the plan conflict: whether they meet on
/// the same day at times that overlap. Times that only touch do not overlap,
/// and malformed clock text stands for midnight.
pub fn check_schedule_conflicts(plan: SemesterPlan) -> (r: ApiResult<bool>)
    ensures
        r matches Ok(conflict) && conflict == conflict_exists(
            default_policy().boundary,
            plan_meetings(default_policy().clock, plan@.courses),
        ),
{
    Ok(has_conflicts(&plan, CheckPolicy::default()))
}

/// Accepts a plan for storing unless two of its courses conflict. The plan
/// is checked as `check_schedule_conflicts` does; nothing is written.
pub fn store_schedule(student_id: String, plan: SemesterPlan) -> (r: ApiResult<bool>)
    ensures
        match r {
            Ok(stored) => stored && !conflict_exists(
                default_policy().boundary,
                plan_meetings(default_policy().clock, plan@.courses),
            ),
            Err(e) => conflict_exists(
                default_policy().boundary,
                plan_meetings(default_policy().clock, plan@.courses),
            ) && e@ == bad_request("Cannot store schedule with time conflicts"@),
        },
{
    if has_conflicts(&plan, CheckPolicy::default()) {
        return Err(
            ApiError {
                error: String::from_str("Cannot store schedule with time conflicts"),
                code: 400,
            },
        );
    }
    Ok(true)
}

/// The course ids of the catalog, in its order.
pub open spec fn catalog_ids(catalog: Seq<Course>) -> Seq<u32> {
    catalog.map_values(|c: Course| c.course_id)
}

/// The credits of the course `course_id`: those of the first course of the
/// catalog with that id, and none where the catalog has no such course.
pub open spec fn catalog_credits(catalog: Seq<Course>, course_id: u32) -> nat {
    match catalog_ids(catalog).index_of_first(course_id) {
        Some(i) => catalog[i].credits as nat,
        None => 0,
    }
}

/// The credits of the courses `ids` together.
pub open spec fn total_credits(catalog: Seq<Course>, ids: Seq<u32>) -> nat
    decreases ids.len(),
{
    if ids.len() == 0 {
        0
    } else {
        total_credits(catalog, ids.drop_last()) + catalog_credits(catalog, ids.last())
    }
}

/// Some credit limit of the student `student_id` is below `total`.
pub open spec fn exceeds_credit_limit(
    constraints: Seq<Constraint>,
    student_id: Seq<char>,
    total: nat,
) -> bool {
    exists|i: int|
        0 <= i < constraints.len() && (#[trigger] constraints[i]).student_id@ == student_id
            && sets_credit_limit(constraints[i]) && constraints[i].value.max_credits->0 < total
}

/// The credits of the course `course_id` in the catalog.
pub fn credits_in_catalog(catalog: &Vec<Course>, course_id: u32) -> (credits: u32)
    ensures
        credits == catalog_credits(catalog@, course_id),
{
    let ghost keys = catalog_ids(catalog@);
    let mut i: usize = 0;
    while i < catalog.len()
        invariant
            i <= catalog.len(),
            keys == catalog_ids(catalog@),
            forall|j: int| 0 <= j < i ==> keys[j] != course_id,
        decreases catalog.len() - i,
    {
        if catalog[i].course_id == course_id {
            proof {
                keys.index_of_first_ensures(course_id);
                assert(keys[i as int] == course_id);
                assert(keys.contains(course_id));
            }
            return catalog[i].credits;
        }
        i = i + 1;
    }
    proof {
        keys.index_of_first_ensures(course_id);
    }
    0
}

/// Tells whether the plan is free of conflicts and within every credit limit
/// of its student. `constraints` are the constraints of all students.
///
/// The plan is checked for conflicts as `check_schedule_conflicts` does. Its
/// credits are those that the catalog gives for its course ids.
pub fn validate_schedule_against_constraints(
    plan: SemesterPlan,
    constraints: &Vec<Constraint>,
    catalog: &Vec<Course>,
) -> (r: ApiResult<bool>)
    ensures
        r matches Ok(valid) && valid == (!conflict_exists(
            default_policy().boundary,
            plan_meetings(default_policy().clock, plan@.courses),
        ) && !exceeds_credit_limit(
            constraints@,
            plan@.student_id,
            total_credits(catalog@, crate::overlap::plan_course_ids(plan@.courses)),
        )),
{
    if has_conflicts(&plan, CheckPolicy::default()) {
        return Ok(false);
    }
    let ghost ids = crate::overlap::plan_course_ids(plan@.courses);
    let mut total: u128 = 0;
    let mut k: usize = 0;
    while k < plan.courses.len()
        invariant
            k <= plan.courses.len(),
            ids == crate::overlap::plan_course_ids(plan@.courses),
            total == total_credits(catalog@, ids.take(k as int)),
            total <= k * u32::MAX,
        decreases plan.courses.len() - k,
    {
        proof {
            assert(ids.take(k + 1).drop_last() =~= ids.take(k as int));
            assert(ids.take(k + 1).last() == plan.courses@[k as int].course_id);
            assert(k * u32::MAX + u32::MAX == (k + 1) * u32::MAX) by (nonlinear_arith);
            assert(usize::MAX * u32::MAX < u128::MAX) by (nonlinear_arith);
            assert(k * u32::MAX <= usize::MAX * u32::MAX) by (nonlinear_arith)
                requires
                    k <= usize::MAX,
            ;
        }
        total = total + credits_in_catalog(catalog, plan.courses[k].course_id) as u128;
        k = k + 1;
    }
    proof {
        assert(ids.take(plan.courses.len() as int) =~= ids);
    }
    let tag = String::from_str("credit_limit");
    let mut i: usize = 0;
    while i < constraints.len()
        invariant
            i <= constraints.len(),
            tag@ == "credit_limit"@,
            total == total_credits(catalog@, crate::overlap::plan_course_ids(plan@.courses)),
            !conflict_exists(
                default_policy().boundary,
                plan_meetings(default_policy().clock, plan@.courses),
            ),
            forall|j: int|
                0 <= j < i ==> !((#[trigger] constraints@[j]).student_id@ == plan@.student_id
                    && sets_credit_limit(constraints@[j]) && constraints@[j].value.max_credits->0
                    < total),
        decreases constraints.len() - i,
    {
        if constraints[i].student_id == plan.student_id && constraints[i].constraint_type == tag {
            match constraints[i].value.max_credits {
                Some(max) => {
                    if total > max as u128 {
                        return Ok(false);
                    }
                },
                None => {},
            }
        }
        i = i + 1;
    }
    Ok(true)
}

/// Reads clock text such as `"9:00"` as minutes since midnight. Malformed
/// text stands for midnight.
pub fn parse_time(time_str: &str) -> (minutes: u64)
    ensures
        minutes == lenient_minutes(time_str@),
{
    parse_lenient(time_str)
}

} // verus!
