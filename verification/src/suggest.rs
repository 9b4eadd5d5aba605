//! The greedy suggester of a semester plan.
//!
//! A course is eligible for a student who has not taken it and has taken all
//! of its prerequisites. The suggester admits eligible courses in two passes
//! and never takes back or reorders what it has admitted:
//!
//! 1. The preference pass takes one step per preferred time of the student.
//!    Each step admits the first eligible course of the catalog that the
//!    student prefers, as long as the plan stays within the student's credit
//!    limit. The preferred times only count the steps: the same course may
//!    be admitted at several of them.
//! 2. The requirement pass goes through the requirements of the student's
//!    major in their order. It admits the eligible course that a requirement
//!    names unless the plan holds it already, as long as the plan stays
//!    within `DEFAULT_MAX_CREDITS`. This pass does not read the student's
//!    own limit.
//!
//! A plan never holds more than `MAX_COURSES` courses. Every admitted course
//! is placed on Monday in a room yet to be decided, at the student's first
//! preferred time, or from 9:00 to 10:00 where the student has none. The
//! suggester does not look for time conflicts among what it admits.

use vstd::prelude::*;
use crate::{
    course_views, slot_views, Constraint, Course, DegreeRequirement, Enrollment, ScheduledCourse,
    ScheduledCourseView, TimeSlot, TimeSlotView,
};

verus! {

/// The most courses that a suggested plan holds.
pub const MAX_COURSES: usize = 5;

/// The credit limit of a student whom no constraint gives one, and the limit
/// of the requirement pass.
pub const DEFAULT_MAX_CREDITS: u32 = 20;

/// The student who has taken `taken` may take `course`.
pub open spec fn is_eligible(taken: Seq<u32>, course: Course) -> bool {
    &&& !taken.contains(course.course_id)
    &&& forall|k: int|
        0 <= k < course.prerequisites@.len() ==> taken.contains(#[trigger] course.prerequisites@[k])
}

/// `course` is eligible and its id is one of `wanted`.
pub open spec fn offers(taken: Seq<u32>, wanted: Seq<u32>, course: Course) -> bool {
    is_eligible(taken, course) && wanted.contains(course.course_id)
}

/// The course at `i` is the first of the catalog that is eligible and
/// wanted.
pub open spec fn is_first_offer(
    taken: Seq<u32>,
    wanted: Seq<u32>,
    catalog: Seq<Course>,
    i: int,
) -> bool {
    &&& 0 <= i < catalog.len()
    &&& offers(taken, wanted, catalog[i])
    &&& forall|j: int| 0 <= j < i ==> !offers(taken, wanted, #[trigger] catalog[j])
}

/// The first course of the catalog that is eligible and wanted, if there is
/// one.
pub open spec fn first_offer(taken: Seq<u32>, wanted: Seq<u32>, catalog: Seq<Course>) -> Option<
    Course,
> {
    if exists|i: int| is_first_offer(taken, wanted, catalog, i) {
        Some(catalog[choose|i: int| is_first_offer(taken, wanted, catalog, i)])
    } else {
        None
    }
}

/// The credits that a planned course counts for: those of the first eligible
/// course of the catalog with that id, and none where there is no such
/// course.
pub open spec fn credits_of(taken: Seq<u32>, catalog: Seq<Course>, course_id: u32) -> nat {
    match first_offer(taken, seq![course_id], catalog) {
        Some(course) => course.credits as nat,
        None => 0,
    }
}

/// The credits of the planned courses `ids` together.
pub open spec fn planned_credits(taken: Seq<u32>, catalog: Seq<Course>, ids: Seq<u32>) -> nat
    decreases ids.len(),
{
    if ids.len() == 0 {
        0
    } else {
        planned_credits(taken, catalog, ids.drop_last()) + credits_of(taken, catalog, ids.last())
    }
}

/// The constraint gives its student a credit limit.
pub open spec fn sets_credit_limit(constraint: Constraint) -> bool {
    constraint.constraint_type@ == "credit_limit"@ && constraint.value.max_credits is Some
}

/// The credit limit that the constraints of one student give: that of the
/// last constraint that sets one, and `DEFAULT_MAX_CREDITS` where none does.
pub open spec fn credit_limit(constraints: Seq<Constraint>) -> u32
    decreases constraints.len(),
{
    if constraints.len() == 0 {
        DEFAULT_MAX_CREDITS
    } else if sets_credit_limit(constraints.last()) {
        constraints.last().value.max_credits->0
    } else {
        credit_limit(constraints.drop_last())
    }
}

/// How many copies of a course of `credits` credits fit in a plan of at most
/// `MAX_COURSES` courses and `max_credits` credits.
pub open spec fn copies_that_fit(credits: nat, max_credits: nat) -> nat {
    if credits == 0 || MAX_COURSES * credits <= max_credits {
        MAX_COURSES as nat
    } else {
        max_credits / credits
    }
}

/// How many courses the preference pass admits in `steps` steps.
pub open spec fn preference_count(steps: nat, credits: nat, max_credits: nat) -> nat {
    let fit = copies_that_fit(credits, max_credits);
    if steps < fit {
        steps
    } else {
        fit
    }
}

/// The course ids that the preference pass admits, in the order of
/// admission.
pub open spec fn preference_pass(
    taken: Seq<u32>,
    catalog: Seq<Course>,
    steps: nat,
    preferred: Seq<u32>,
    max_credits: nat,
) -> Seq<u32> {
    match first_offer(taken, preferred, catalog) {
        Some(course) => Seq::new(
            preference_count(steps, course.credits as nat, max_credits),
            |k: int| course.course_id,
        ),
        None => Seq::empty(),
    }
}

/// The requirement pass admits the course `course_id` into a plan that holds
/// `chosen`.
pub open spec fn admits_requirement(
    taken: Seq<u32>,
    catalog: Seq<Course>,
    chosen: Seq<u32>,
    course_id: u32,
) -> bool {
    &&& chosen.len() < MAX_COURSES
    &&& !chosen.contains(course_id)
    &&& first_offer(taken, seq![course_id], catalog) is Some
    &&& planned_credits(taken, catalog, chosen) + credits_of(taken, catalog, course_id)
        <= DEFAULT_MAX_CREDITS
}

/// The plan after the requirement pass has gone through `required`, the
/// course ids of the requirements in their order, starting from a plan that
/// holds `chosen`.
pub open spec fn requirement_pass(
    taken: Seq<u32>,
    catalog: Seq<Course>,
    chosen: Seq<u32>,
    required: Seq<u32>,
) -> Seq<u32>
    decreases required.len(),
{
    if required.len() == 0 {
        chosen
    } else {
        let earlier = requirement_pass(taken, catalog, chosen, required.drop_last());
        if admits_requirement(taken, catalog, earlier, required.last()) {
            earlier.push(required.last())
        } else {
            earlier
        }
    }
}

/// The course ids of the requirements, in their order.
pub open spec fn required_ids(requirements: Seq<DegreeRequirement>) -> Seq<u32> {
    requirements.map_values(|r: DegreeRequirement| r.course_id)
}

/// The course ids of the suggested plan, in the order of admission.
pub open spec fn suggested_ids(
    taken: Seq<u32>,
    catalog: Seq<Course>,
    steps: nat,
    preferred: Seq<u32>,
    max_credits: nat,
    required: Seq<u32>,
) -> Seq<u32> {
    requirement_pass(
        taken,
        catalog,
        preference_pass(taken, catalog, steps, preferred, max_credits),
        required,
    )
}

/// The time slot of every course of a suggested plan: the student's first
/// preferred time, or 9:00 to 10:00 where the student has none.
pub open spec fn suggested_slot(preferred_times: Seq<TimeSlotView>) -> TimeSlotView {
    if preferred_times.len() > 0 {
        preferred_times[0]
    } else {
        TimeSlotView { start_time: "9:00"@, end_time: "10:00"@ }
    }
}

/// The entry of a suggested plan for the course `course_id`.
pub open spec fn suggested_entry(slot: TimeSlotView, course_id: u32) -> ScheduledCourseView {
    ScheduledCourseView {
        course_id,
        time_slot: slot,
        day_of_week: "Monday"@,
        room: "TBD"@,
    }
}

/// The entries of a suggested plan for the courses `ids`.
pub open spec fn suggested_entries(slot: TimeSlotView, ids: Seq<u32>) -> Seq<ScheduledCourseView> {
    ids.map_values(|id: u32| suggested_entry(slot, id))
}

/// A first offer is the only one, and the one that `first_offer` gives.
pub proof fn lemma_first_offer_found(
    taken: Seq<u32>,
    wanted: Seq<u32>,
    catalog: Seq<Course>,
    i: int,
)
    requires
        is_first_offer(taken, wanted, catalog, i),
    ensures
        first_offer(taken, wanted, catalog) == Some(catalog[i]),
{
    let j = choose|j: int| is_first_offer(taken, wanted, catalog, j);
    assert(j == i);
}

/// Where no course of the catalog is eligible and wanted, there is no first
/// offer.
pub proof fn lemma_first_offer_none(taken: Seq<u32>, wanted: Seq<u32>, catalog: Seq<Course>)
    requires
        forall|i: int| 0 <= i < catalog.len() ==> !offers(taken, wanted, #[trigger] catalog[i]),
    ensures
        first_offer(taken, wanted, catalog) is None,
{
}

/// The first eligible course among several wanted ones is also the first
/// eligible course with its own id.
pub proof fn lemma_first_offer_by_id(
    taken: Seq<u32>,
    wanted: Seq<u32>,
    catalog: Seq<Course>,
    i: int,
)
    requires
        is_first_offer(taken, wanted, catalog, i),
    ensures
        is_first_offer(taken, seq![catalog[i].course_id], catalog, i),
        credits_of(taken, catalog, catalog[i].course_id) == catalog[i].credits,
{
    let id = catalog[i].course_id;
    assert(seq![id][0] == id);
    assert forall|j: int| 0 <= j < i implies !offers(taken, seq![id], #[trigger] catalog[j]) by {
        if offers(taken, seq![id], catalog[j]) {
            assert(catalog[j].course_id == id);
            assert(offers(taken, wanted, catalog[j]));
        }
    }
    lemma_first_offer_found(taken, seq![id], catalog, i);
}

/// `copies_that_fit` is the greatest number of copies, up to `MAX_COURSES`,
/// whose credits together stay within the limit.
pub proof fn lemma_copies_that_fit(credits: nat, max_credits: nat, k: nat)
    requires
        k <= MAX_COURSES,
    ensures
        copies_that_fit(credits, max_credits) <= MAX_COURSES,
        k * credits <= max_credits <==> k <= copies_that_fit(credits, max_credits),
{
    let fit = copies_that_fit(credits, max_credits);
    if credits == 0 {
        assert(k * credits == 0) by (nonlinear_arith)
            requires
                credits == 0,
        ;
    } else if 5 * credits <= max_credits {
        assert(k * credits <= 5 * credits) by (nonlinear_arith)
            requires
                k <= 5,
        ;
    } else {
        assert(fit * credits <= max_credits < (fit + 1) * credits) by (nonlinear_arith)
            requires
                credits > 0,
                fit == max_credits / credits,
        ;
        assert(fit < 5) by (nonlinear_arith)
            requires
                fit * credits <= max_credits,
                max_credits < 5 * credits,
        ;
        if k <= fit {
            assert(k * credits <= fit * credits) by (nonlinear_arith)
                requires
                    k <= fit,
            ;
        } else {
            assert(k * credits >= (fit + 1) * credits) by (nonlinear_arith)
                requires
                    k >= fit + 1,
            ;
        }
    }
}

/// Copies of one course count its credits once each.
pub proof fn lemma_copies_credits(taken: Seq<u32>, catalog: Seq<Course>, id: u32, count: nat)
    ensures
        planned_credits(taken, catalog, Seq::new(count, |k: int| id)) == count * credits_of(
            taken,
            catalog,
            id,
        ),
    decreases count,
{
    let all = Seq::new(count, |k: int| id);
    if count == 0 {
        assert(count * credits_of(taken, catalog, id) == 0) by (nonlinear_arith)
            requires
                count == 0,
        ;
    } else {
        let fewer = Seq::new((count - 1) as nat, |k: int| id);
        assert(all.drop_last() =~= fewer);
        lemma_copies_credits(taken, catalog, id, (count - 1) as nat);
        let c = credits_of(taken, catalog, id);
        assert((count - 1) * c + c == count * c) by (nonlinear_arith);
    }
}

/// Tells whether `id` is one of `ids`.
pub fn contains_id(ids: &Vec<u32>, id: u32) -> (r: bool)
    ensures
        r == ids@.contains(id),
{
    let mut i: usize = 0;
    while i < ids.len()
        invariant
            i <= ids.len(),
            forall|k: int| 0 <= k < i ==> ids@[k] != id,
        decreases ids.len() - i,
    {
        if ids[i] == id {
            return true;
        }
        i = i + 1;
    }
    false
}

/// Tells whether the student who has taken `taken` may take `course`.
pub fn eligible_for(taken: &Vec<u32>, course: &Course) -> (r: bool)
    ensures
        r == is_eligible(taken@, *course),
{
    if contains_id(taken, course.course_id) {
        return false;
    }
    let mut k: usize = 0;
    while k < course.prerequisites.len()
        invariant
            k <= course.prerequisites.len(),
            forall|m: int| 0 <= m < k ==> taken@.contains(#[trigger] course.prerequisites@[m]),
        decreases course.prerequisites.len() - k,
    {
        if !contains_id(taken, course.prerequisites[k]) {
            return false;
        }
        k = k + 1;
    }
    true
}

/// Marks the eligible courses of the catalog.
fn eligibility(taken: &Vec<u32>, catalog: &Vec<Course>) -> (marks: Vec<bool>)
    ensures
        marks.len() == catalog.len(),
        forall|i: int| 0 <= i < catalog.len() ==> marks@[i] == is_eligible(taken@, catalog@[i]),
{
    let mut marks: Vec<bool> = Vec::new();
    let mut i: usize = 0;
    while i < catalog.len()
        invariant
            i <= catalog.len(),
            marks.len() == i,
            forall|k: int| 0 <= k < i ==> marks@[k] == is_eligible(taken@, catalog@[k]),
        decreases catalog.len() - i,
    {
        marks.push(eligible_for(taken, &catalog[i]));
        i = i + 1;
    }
    marks
}

/// Finds the first course of the catalog that is marked and wanted.
fn find_offer(
    marks: &Vec<bool>,
    wanted: &Vec<u32>,
    catalog: &Vec<Course>,
    Ghost(taken): Ghost<Seq<u32>>,
) -> (r: Option<usize>)
    requires
        marks.len() == catalog.len(),
        forall|i: int| 0 <= i < catalog.len() ==> marks@[i] == is_eligible(taken, catalog@[i]),
    ensures
        match r {
            Some(i) => i < catalog.len() && first_offer(taken, wanted@, catalog@) == Some(
                catalog@[i as int],
            ) && is_first_offer(taken, wanted@, catalog@, i as int),
            None => first_offer(taken, wanted@, catalog@) is None,
        },
{
    let mut i: usize = 0;
    while i < catalog.len()
        invariant
            i <= catalog.len(),
            marks.len() == catalog.len(),
            forall|k: int| 0 <= k < catalog.len() ==> marks@[k] == is_eligible(taken, catalog@[k]),
            forall|k: int| 0 <= k < i ==> !offers(taken, wanted@, #[trigger] catalog@[k]),
        decreases catalog.len() - i,
    {
        if marks[i] && contains_id(wanted, catalog[i].course_id) {
            proof {
                lemma_first_offer_found(taken, wanted@, catalog@, i as int);
            }
            return Some(i);
        }
        i = i + 1;
    }
    proof {
        lemma_first_offer_none(taken, wanted@, catalog@);
    }
    None
}

/// The course ids of the suggested plan, in the order of admission.
///
/// `steps` is the number of the student's preferred times, `preferred` the
/// course ids that the student prefers, `required` the course ids of the
/// requirements of the student's major.
pub fn suggest_course_ids(
    taken: &Vec<u32>,
    catalog: &Vec<Course>,
    steps: usize,
    preferred: &Vec<u32>,
    max_credits: u32,
    required: &Vec<u32>,
) -> (ids: Vec<u32>)
    ensures
        ids@ == suggested_ids(
            taken@,
            catalog@,
            steps as nat,
            preferred@,
            max_credits as nat,
            required@,
        ),
{
    let marks = eligibility(taken, catalog);
    let mut ids: Vec<u32> = Vec::new();
    let mut total: u64 = 0;
    match find_offer(&marks, preferred, catalog, Ghost(taken@)) {
        Some(at) => {
            let id: u32 = catalog[at].course_id;
            let credits: u32 = catalog[at].credits;
            let ghost fit = copies_that_fit(credits as nat, max_credits as nat);
            proof {
                lemma_first_offer_by_id(taken@, preferred@, catalog@, at as int);
                lemma_copies_that_fit(credits as nat, max_credits as nat, 0);
            }
            let mut step: usize = 0;
            while step < steps && ids.len() < MAX_COURSES
                invariant
                    step <= steps,
                    fit == copies_that_fit(credits as nat, max_credits as nat),
                    fit <= MAX_COURSES,
                    ids@.len() == if step < fit { step as nat } else { fit },
                    ids@ =~= Seq::new(ids@.len(), |k: int| id),
                    total == ids@.len() * credits,
                    total <= max_credits,
                decreases steps - step,
            {
                let ghost n = ids@.len();
                proof {
                    lemma_copies_that_fit(credits as nat, max_credits as nat, n + 1);
                    assert((n + 1) * credits == n * credits + credits) by (nonlinear_arith);
                }
                if total + credits as u64 <= max_credits as u64 {
                    ids.push(id);
                    total = total + credits as u64;
                }
                step = step + 1;
            }
            proof {
                assert(ids@.len() == preference_count(
                    steps as nat,
                    credits as nat,
                    max_credits as nat,
                ));
                lemma_copies_credits(taken@, catalog@, id, ids@.len());
                assert(ids@ =~= preference_pass(
                    taken@,
                    catalog@,
                    steps as nat,
                    preferred@,
                    max_credits as nat,
                ));
            }
        },
        None => {
            proof {
                assert(ids@ =~= preference_pass(
                    taken@,
                    catalog@,
                    steps as nat,
                    preferred@,
                    max_credits as nat,
                ));
            }
        },
    }
    let ghost first = ids@;
    proof {
        lemma_planned_credits_bound(taken@, catalog@, ids@);
    }
    let mut at: usize = 0;
    while at < required.len()
        invariant
            at <= required.len(),
            marks.len() == catalog.len(),
            forall|i: int|
                0 <= i < catalog.len() ==> marks@[i] == is_eligible(taken@, catalog@[i]),
            ids@ == requirement_pass(taken@, catalog@, first, required@.take(at as int)),
            total == planned_credits(taken@, catalog@, ids@),
            total <= ids@.len() * u32::MAX,
        decreases required.len() - at,
    {
        let id: u32 = required[at];
        proof {
            assert(required@.take(at + 1).drop_last() =~= required@.take(at as int));
            assert(required@.take(at + 1).last() == id);
        }
        if ids.len() < MAX_COURSES && !contains_id(&ids, id) {
            let wanted: Vec<u32> = vec![id];
            proof {
                assert(wanted@ =~= seq![id]);
            }
            match find_offer(&marks, &wanted, catalog, Ghost(taken@)) {
                Some(found) => {
                    let credits: u32 = catalog[found].credits;
                    if total + credits as u64 <= DEFAULT_MAX_CREDITS as u64 {
                        proof {
                            assert(ids@.push(id).drop_last() =~= ids@);
                        }
                        ids.push(id);
                        total = total + credits as u64;
                    }
                },
                None => {},
            }
        }
        at = at + 1;
    }
    proof {
        assert(required@.take(required.len() as int) =~= required@);
    }
    ids
}

/// Planned courses count at most `u32::MAX` credits each.
pub proof fn lemma_planned_credits_bound(taken: Seq<u32>, catalog: Seq<Course>, ids: Seq<u32>)
    ensures
        planned_credits(taken, catalog, ids) <= ids.len() * u32::MAX,
    decreases ids.len(),
{
    if ids.len() > 0 {
        lemma_planned_credits_bound(taken, catalog, ids.drop_last());
        assert((ids.len() - 1) * u32::MAX + u32::MAX == ids.len() * u32::MAX)
            by (nonlinear_arith);
    }
}

/// The course ids that a student has enrolled in, in the order of the
/// enrollments.
pub open spec fn taken_ids(enrollments: Seq<Enrollment>) -> Seq<u32> {
    enrollments.map_values(|e: Enrollment| e.course_id)
}

/// The credit limit that the constraints of one student give.
pub fn resolve_credit_limit(constraints: &Vec<Constraint>) -> (limit: u32)
    ensures
        limit == credit_limit(constraints@),
{
    let tag = String::from_str("credit_limit");
    let mut limit: u32 = DEFAULT_MAX_CREDITS;
    let mut i: usize = 0;
    while i < constraints.len()
        invariant
            i <= constraints.len(),
            tag@ == "credit_limit"@,
            limit == credit_limit(constraints@.take(i as int)),
        decreases constraints.len() - i,
    {
        proof {
            assert(constraints@.take(i + 1).drop_last() =~= constraints@.take(i as int));
            assert(constraints@.take(i + 1).last() == constraints@[i as int]);
        }
        if constraints[i].constraint_type == tag {
            match constraints[i].value.max_credits {
                Some(max) => {
                    limit = max;
                },
                None => {},
            }
        }
        i = i + 1;
    }
    proof {
        assert(constraints@.take(constraints.len() as int) =~= constraints@);
    }
    limit
}

/// Places the courses `ids` as a suggested plan does.
pub fn plan_entries(preferred_times: &Vec<TimeSlot>, ids: &Vec<u32>) -> (courses: Vec<
    ScheduledCourse,
>)
    ensures
        course_views(courses@) == suggested_entries(
            suggested_slot(slot_views(preferred_times@)),
            ids@,
        ),
{
    let slot = if preferred_times.len() > 0 {
        preferred_times[0].clone()
    } else {
        TimeSlot { start_time: String::from_str("9:00"), end_time: String::from_str("10:00") }
    };
    let ghost wanted = suggested_entries(suggested_slot(slot_views(preferred_times@)), ids@);
    proof {
        assert(slot@ == suggested_slot(slot_views(preferred_times@)));
    }
    let mut courses: Vec<ScheduledCourse> = Vec::new();
    let mut i: usize = 0;
    while i < ids.len()
        invariant
            i <= ids.len(),
            courses.len() == i,
            wanted == suggested_entries(slot@, ids@),
            forall|k: int| 0 <= k < i ==> (#[trigger] courses@[k])@ == wanted[k],
        decreases ids.len() - i,
    {
        courses.push(
            ScheduledCourse {
                course_id: ids[i],
                time_slot: slot.clone(),
                day_of_week: String::from_str("Monday"),
                room: String::from_str("TBD"),
            },
        );
        i = i + 1;
    }
    proof {
        assert(course_views(courses@) =~= wanted);
    }
    courses
}

/// The requirement pass keeps what the plan held, in its order, and fills
/// the plan up to `MAX_COURSES` courses at most.
pub proof fn lemma_requirement_pass_extends(
    taken: Seq<u32>,
    catalog: Seq<Course>,
    chosen: Seq<u32>,
    required: Seq<u32>,
)
    ensures
        ({
            let plan = requirement_pass(taken, catalog, chosen, required);
            &&& chosen.len() <= plan.len()
            &&& plan.take(chosen.len() as int) == chosen
            &&& chosen.len() <= MAX_COURSES ==> plan.len() <= MAX_COURSES
        }),
    decreases required.len(),
{
    let plan = requirement_pass(taken, catalog, chosen, required);
    if required.len() == 0 {
        assert(plan.take(chosen.len() as int) =~= chosen);
    } else {
        lemma_requirement_pass_extends(taken, catalog, chosen, required.drop_last());
        let earlier = requirement_pass(taken, catalog, chosen, required.drop_last());
        assert(plan.take(chosen.len() as int) =~= earlier.take(chosen.len() as int));
    }
}

/// A plan to which the requirement pass has added a course counts at most
/// `DEFAULT_MAX_CREDITS` credits.
pub proof fn lemma_requirement_pass_credits(
    taken: Seq<u32>,
    catalog: Seq<Course>,
    chosen: Seq<u32>,
    required: Seq<u32>,
)
    ensures
        ({
            let plan = requirement_pass(taken, catalog, chosen, required);
            plan.len() > chosen.len() ==> planned_credits(taken, catalog, plan)
                <= DEFAULT_MAX_CREDITS
        }),
    decreases required.len(),
{
    if required.len() > 0 {
        lemma_requirement_pass_credits(taken, catalog, chosen, required.drop_last());
        let earlier = requirement_pass(taken, catalog, chosen, required.drop_last());
        if admits_requirement(taken, catalog, earlier, required.last()) {
            assert(earlier.push(required.last()).drop_last() =~= earlier);
        }
    }
}

/// Every course that the requirement pass adds is the eligible course of a
/// requirement, and was not in the plan before.
pub proof fn lemma_requirement_pass_admits(
    taken: Seq<u32>,
    catalog: Seq<Course>,
    chosen: Seq<u32>,
    required: Seq<u32>,
    k: int,
)
    requires
        chosen.len() <= k < requirement_pass(taken, catalog, chosen, required).len(),
    ensures
        ({
            let plan = requirement_pass(taken, catalog, chosen, required);
            &&& required.contains(plan[k])
            &&& first_offer(taken, seq![plan[k]], catalog) is Some
            &&& !plan.take(k).contains(plan[k])
        }),
    decreases required.len(),
{
    let plan = requirement_pass(taken, catalog, chosen, required);
    if required.len() > 0 {
        let earlier = requirement_pass(taken, catalog, chosen, required.drop_last());
        if k < earlier.len() {
            lemma_requirement_pass_admits(taken, catalog, chosen, required.drop_last(), k);
            assert(required.drop_last().contains(earlier[k]));
            let at = choose|at: int|
                0 <= at < required.drop_last().len() && required.drop_last()[at] == earlier[k];
            assert(required[at] == earlier[k]);
            assert(plan.take(k) =~= earlier.take(k));
        } else {
            assert(plan[k] == required.last());
            assert(required[required.len() - 1] == plan[k]);
            assert(plan.take(k) =~= earlier);
        }
    }
}

/// The preference pass admits at most `MAX_COURSES` courses and at most one
/// per step, and what it admits counts at most `max_credits` credits.
pub proof fn lemma_preference_pass_bounds(
    taken: Seq<u32>,
    catalog: Seq<Course>,
    steps: nat,
    preferred: Seq<u32>,
    max_credits: nat,
)
    ensures
        ({
            let plan = preference_pass(taken, catalog, steps, preferred, max_credits);
            &&& plan.len() <= MAX_COURSES
            &&& plan.len() <= steps
            &&& planned_credits(taken, catalog, plan) <= max_credits
        }),
{
    match first_offer(taken, preferred, catalog) {
        Some(course) => {
            let at = choose|i: int| is_first_offer(taken, preferred, catalog, i);
            lemma_first_offer_by_id(taken, preferred, catalog, at);
            let count = preference_count(steps, course.credits as nat, max_credits);
            lemma_copies_that_fit(course.credits as nat, max_credits, 0);
            lemma_copies_that_fit(course.credits as nat, max_credits, count);
            lemma_copies_credits(taken, catalog, course.course_id, count);
        },
        None => {},
    }
}

/// Every course that the preference pass admits is eligible and preferred.
pub proof fn lemma_preference_pass_admits(
    taken: Seq<u32>,
    catalog: Seq<Course>,
    steps: nat,
    preferred: Seq<u32>,
    max_credits: nat,
    k: int,
)
    requires
        0 <= k < preference_pass(taken, catalog, steps, preferred, max_credits).len(),
    ensures
        ({
            let plan = preference_pass(taken, catalog, steps, preferred, max_credits);
            &&& preferred.contains(plan[k])
            &&& first_offer(taken, seq![plan[k]], catalog) is Some
        }),
{
    let at = choose|i: int| is_first_offer(taken, preferred, catalog, i);
    lemma_first_offer_by_id(taken, preferred, catalog, at);
    lemma_first_offer_found(taken, seq![catalog[at].course_id], catalog, at);
}

/// A suggested plan holds at most `MAX_COURSES` courses, and starts with
/// what the preference pass admitted.
pub proof fn lemma_suggested_size(
    taken: Seq<u32>,
    catalog: Seq<Course>,
    steps: nat,
    preferred: Seq<u32>,
    max_credits: nat,
    required: Seq<u32>,
)
    ensures
        ({
            let first = preference_pass(taken, catalog, steps, preferred, max_credits);
            let plan = suggested_ids(taken, catalog, steps, preferred, max_credits, required);
            &&& plan.len() <= MAX_COURSES
            &&& first.len() <= plan.len()
            &&& plan.take(first.len() as int) == first
        }),
{
    lemma_preference_pass_bounds(taken, catalog, steps, preferred, max_credits);
    lemma_requirement_pass_extends(
        taken,
        catalog,
        preference_pass(taken, catalog, steps, preferred, max_credits),
        required,
    );
}

/// Every course of a suggested plan is eligible: it is in the catalog, the
/// student has not taken it, and has taken all of its prerequisites. It is
/// one that the student prefers or that the major requires.
pub proof fn lemma_suggested_are_eligible(
    taken: Seq<u32>,
    catalog: Seq<Course>,
    steps: nat,
    preferred: Seq<u32>,
    max_credits: nat,
    required: Seq<u32>,
    k: int,
)
    requires
        0 <= k < suggested_ids(taken, catalog, steps, preferred, max_credits, required).len(),
    ensures
        ({
            let plan = suggested_ids(taken, catalog, steps, preferred, max_credits, required);
            &&& exists|i: int|
                0 <= i < catalog.len() && is_eligible(taken, #[trigger] catalog[i])
                    && catalog[i].course_id == plan[k]
            &&& !taken.contains(plan[k])
            &&& preferred.contains(plan[k]) || required.contains(plan[k])
        }),
{
    let first = preference_pass(taken, catalog, steps, preferred, max_credits);
    let plan = suggested_ids(taken, catalog, steps, preferred, max_credits, required);
    lemma_requirement_pass_extends(taken, catalog, first, required);
    if k < first.len() {
        assert(plan[k] == plan.take(first.len() as int)[k]);
        lemma_preference_pass_admits(taken, catalog, steps, preferred, max_credits, k);
    } else {
        lemma_requirement_pass_admits(taken, catalog, first, required, k);
    }
    let at = choose|i: int| is_first_offer(taken, seq![plan[k]], catalog, i);
    assert(seq![plan[k]].contains(catalog[at].course_id));
    assert(is_eligible(taken, catalog[at]) && catalog[at].course_id == plan[k]);
}

/// Where no course of the catalog is eligible, the suggested plan is empty.
pub proof fn lemma_no_eligible_course_no_plan(
    taken: Seq<u32>,
    catalog: Seq<Course>,
    steps: nat,
    preferred: Seq<u32>,
    max_credits: nat,
    required: Seq<u32>,
)
    requires
        forall|i: int| 0 <= i < catalog.len() ==> !is_eligible(taken, #[trigger] catalog[i]),
    ensures
        suggested_ids(taken, catalog, steps, preferred, max_credits, required).len() == 0,
{
    let plan = suggested_ids(taken, catalog, steps, preferred, max_credits, required);
    if plan.len() > 0 {
        lemma_suggested_are_eligible(taken, catalog, steps, preferred, max_credits, required, 0);
    }
}

} // verus!
