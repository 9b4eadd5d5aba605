//! Time conflicts between the meetings of a schedule.
//!
//! Two meetings conflict when they fall on the same day and their time
//! ranges overlap. Whether ranges that only touch overlap is a policy: by
//! default they do not, so that back-to-back classes are legal. A meeting
//! whose times could not be read conflicts with nothing.
//!
//! Every pair of a list is looked at once, in the order of the list.

use vstd::prelude::*;
use crate::clock::{parse_minutes, read_minutes, ClockParse};
use crate::{course_views, ScheduledCourse, ScheduledCourseView, SemesterPlan, TimeSlotView};

verus! {

/// Whether two time ranges that only touch at an end overlap.
#[derive(Debug, Clone, Copy, PartialEq, Eq, Structural)]
pub enum Boundary {
    /// A range that ends where the other starts does not overlap it.
    Exclusive,
    /// A range that ends where the other starts overlaps it.
    Inclusive,
}

impl Default for Boundary {
    fn default() -> (boundary: Self)
        ensures
            boundary == Boundary::Exclusive,
    {
        Boundary::Exclusive
    }
}

/// How a schedule is checked: how its ranges are compared and how its clock
/// text is read.
#[derive(Debug, Clone, Copy, PartialEq, Eq, Structural)]
pub struct CheckPolicy {
    pub boundary: Boundary,
    pub clock: ClockParse,
}

impl Default for CheckPolicy {
    fn default() -> (policy: Self)
        ensures
            policy == default_policy(),
    {
        CheckPolicy { boundary: Boundary::Exclusive, clock: ClockParse::LenientZero }
    }
}

/// The policy used where none is given: touching ranges do not overlap, and
/// malformed clock text stands for midnight.
pub open spec fn default_policy() -> CheckPolicy {
    CheckPolicy { boundary: Boundary::Exclusive, clock: ClockParse::LenientZero }
}

/// What is read of a scheduled entry to find conflicts: its day and its time range
/// in minutes since midnight, `None` where the times could not be read.
#[derive(Debug)]
pub struct Meeting {
    pub day: String,
    pub span: Option<(u64, u64)>,
}

/// The contents of a meeting.
pub struct MeetingView {
    pub day: Seq<char>,
    pub span: Option<(nat, nat)>,
}

impl View for Meeting {
    type V = MeetingView;

    open spec fn view(&self) -> MeetingView {
        MeetingView {
            day: self.day@,
            span: match self.span {
                Some((start, end)) => Some((start as nat, end as nat)),
                None => None,
            },
        }
    }
}

/// The contents of a list of meetings.
pub open spec fn meeting_views(meetings: Seq<Meeting>) -> Seq<MeetingView> {
    meetings.map_values(|m: Meeting| m@)
}

/// The ranges `start1..end1` and `start2..end2` overlap.
pub open spec fn ranges_overlap(
    boundary: Boundary,
    start1: nat,
    end1: nat,
    start2: nat,
    end2: nat,
) -> bool {
    match boundary {
        Boundary::Exclusive => start1 < end2 && start2 < end1,
        Boundary::Inclusive => start1 <= end2 && start2 <= end1,
    }
}

/// The meetings `a` and `b` conflict: same day, both ranges known, and the
/// ranges overlap.
pub open spec fn meetings_conflict(boundary: Boundary, a: MeetingView, b: MeetingView) -> bool {
    match (a.span, b.span) {
        (Some(first), Some(second)) => a.day == b.day && ranges_overlap(
            boundary,
            first.0,
            first.1,
            second.0,
            second.1,
        ),
        _ => false,
    }
}

/// Some two meetings of the list conflict.
pub open spec fn conflict_exists(boundary: Boundary, meetings: Seq<MeetingView>) -> bool {
    exists|i: int, j: int|
        0 <= i < j < meetings.len() && meetings_conflict(boundary, meetings[i], meetings[j])
}

/// `p` comes before `q` when pairs of indices are ordered by their first
/// index and then by their second.
pub open spec fn pair_before(p: (usize, usize), q: (usize, usize)) -> bool {
    p.0 < q.0 || (p.0 == q.0 && p.1 < q.1)
}

/// `pairs` lists the conflicts of `meetings`: each of its items is a pair of
/// indices, the smaller first, of two meetings that conflict; every such pair
/// is in it; and the pairs stand in increasing order, so none is there twice.
pub open spec fn is_conflict_listing(
    boundary: Boundary,
    meetings: Seq<MeetingView>,
    pairs: Seq<(usize, usize)>,
) -> bool {
    &&& forall|k: int|
        0 <= k < pairs.len() ==> {
            &&& (#[trigger] pairs[k]).0 < pairs[k].1 < meetings.len()
            &&& meetings_conflict(
                boundary,
                meetings[pairs[k].0 as int],
                meetings[pairs[k].1 as int],
            )
        }
    &&& forall|i: int, j: int|
        0 <= i < j < meetings.len() && #[trigger] meetings_conflict(
            boundary,
            meetings[i],
            meetings[j],
        ) ==> pairs.contains((i as usize, j as usize))
    &&& forall|k: int, l: int|
        0 <= k < l < pairs.len() ==> pair_before(#[trigger] pairs[k], #[trigger] pairs[l])
}

/// `named` spells out the conflicts of `meetings` by the names of the
/// entries: item by item it gives, for the pair of indices at the same place
/// of the listing of conflicts, the names of the two entries.
pub open spec fn is_named_listing<N>(
    boundary: Boundary,
    meetings: Seq<MeetingView>,
    names: Seq<N>,
    named: Seq<(N, N)>,
) -> bool {
    exists|pairs: Seq<(usize, usize)>|
        {
            &&& #[trigger] is_conflict_listing(boundary, meetings, pairs)
            &&& spells(names, pairs, named)
        }
}

/// `named` gives, place by place, the names of the two entries of `pairs`.
pub open spec fn spells<N>(names: Seq<N>, pairs: Seq<(usize, usize)>, named: Seq<(N, N)>) -> bool {
    &&& named.len() == pairs.len()
    &&& forall|k: int|
        0 <= k < pairs.len() ==> #[trigger] named[k] == (
            names[pairs[k].0 as int],
            names[pairs[k].1 as int],
        )
}

/// The time range that `clock` reads in a slot: known when both of its ends
/// are.
pub open spec fn slot_span(clock: ClockParse, slot: TimeSlotView) -> Option<(nat, nat)> {
    match (read_minutes(clock, slot.start_time), read_minutes(clock, slot.end_time)) {
        (Some(start), Some(end)) => Some((start, end)),
        _ => None,
    }
}

/// The meeting of a scheduled course.
pub open spec fn course_meeting(clock: ClockParse, course: ScheduledCourseView) -> MeetingView {
    MeetingView { day: course.day_of_week, span: slot_span(clock, course.time_slot) }
}

/// The meetings of the courses of a plan, in the order of the plan.
pub open spec fn plan_meetings(
    clock: ClockParse,
    courses: Seq<ScheduledCourseView>,
) -> Seq<MeetingView> {
    courses.map_values(|c: ScheduledCourseView| course_meeting(clock, c))
}

/// The course ids of the courses of a plan, in the order of the plan.
pub open spec fn plan_course_ids(courses: Seq<ScheduledCourseView>) -> Seq<u32> {
    courses.map_values(|c: ScheduledCourseView| c.course_id)
}

/// Tells whether two ranges of minutes overlap.
pub fn spans_overlap(boundary: Boundary, first: (u64, u64), second: (u64, u64)) -> (r: bool)
    ensures
        r == ranges_overlap(
            boundary,
            first.0 as nat,
            first.1 as nat,
            second.0 as nat,
            second.1 as nat,
        ),
{
    match boundary {
        Boundary::Exclusive => first.0 < second.1 && second.0 < first.1,
        Boundary::Inclusive => first.0 <= second.1 && second.0 <= first.1,
    }
}

/// Tells whether two meetings conflict.
pub fn meetings_clash(boundary: Boundary, a: &Meeting, b: &Meeting) -> (r: bool)
    ensures
        r == meetings_conflict(boundary, a@, b@),
{
    if a.day != b.day {
        return false;
    }
    match (a.span, b.span) {
        (Some(first), Some(second)) => spans_overlap(boundary, first, second),
        _ => false,
    }
}

/// Tells whether any two meetings of the list conflict.
pub fn any_conflict(meetings: &Vec<Meeting>, boundary: Boundary) -> (r: bool)
    ensures
        r == conflict_exists(boundary, meeting_views(meetings@)),
{
    let ghost views = meeting_views(meetings@);
    let n: usize = meetings.len();
    let mut i: usize = 0;
    while i < n
        invariant
            i <= n,
            n == meetings.len(),
            views == meeting_views(meetings@),
            forall|a: int, b: int|
                0 <= a < i && a < b < n ==> !meetings_conflict(boundary, views[a], views[b]),
        decreases n - i,
    {
        let mut j: usize = i + 1;
        while j < n
            invariant
                i < j <= n,
                n == meetings.len(),
                views == meeting_views(meetings@),
                forall|b: int| i < b < j ==> !meetings_conflict(boundary, views[i as int], views[b]),
            decreases n - j,
        {
            if meetings_clash(boundary, &meetings[i], &meetings[j]) {
                proof {
                    assert(meetings_conflict(boundary, views[i as int], views[j as int]));
                }
                return true;
            }
            j = j + 1;
        }
        i = i + 1;
    }
    false
}

/// Lists the pairs of meetings that conflict, by their indices in the list.
pub fn conflicting_pairs(meetings: &Vec<Meeting>, boundary: Boundary) -> (pairs: Vec<
    (usize, usize),
>)
    ensures
        is_conflict_listing(boundary, meeting_views(meetings@), pairs@),
{
    let ghost views = meeting_views(meetings@);
    let n: usize = meetings.len();
    let mut pairs: Vec<(usize, usize)> = Vec::new();
    let mut i: usize = 0;
    while i < n
        invariant
            i <= n,
            n == meetings.len(),
            views == meeting_views(meetings@),
            listed_before(boundary, views, pairs@, i as int, i as int + 1),
        decreases n - i,
    {
        let mut j: usize = i + 1;
        while j < n
            invariant
                i < j <= n,
                n == meetings.len(),
                views == meeting_views(meetings@),
                listed_before(boundary, views, pairs@, i as int, j as int),
            decreases n - j,
        {
            if meetings_clash(boundary, &meetings[i], &meetings[j]) {
                let ghost before = pairs@;
                pairs.push((i, j));
                proof {
                    assert forall|a: int, b: int|
                        0 <= a < b < views.len() && (a < i || (a == i && b < j + 1))
                            && #[trigger] meetings_conflict(
                            boundary,
                            views[a],
                            views[b],
                        ) implies pairs@.contains((a as usize, b as usize)) by {
                        if a == i && b == j {
                            assert(pairs@[before.len() as int] == (i, j));
                        } else {
                            assert(before.contains((a as usize, b as usize)));
                            let k = choose|k: int|
                                0 <= k < before.len() && before[k] == (a as usize, b as usize);
                            assert(pairs@[k] == before[k]);
                        }
                    }
                }
            }
            j = j + 1;
        }
        i = i + 1;
    }
    pairs
}

/// `pairs` lists the conflicts among the pairs of indices that come before
/// `(i, j)`.
spec fn listed_before(
    boundary: Boundary,
    meetings: Seq<MeetingView>,
    pairs: Seq<(usize, usize)>,
    i: int,
    j: int,
) -> bool {
    &&& forall|k: int|
        0 <= k < pairs.len() ==> {
            &&& (#[trigger] pairs[k]).0 < pairs[k].1 < meetings.len()
            &&& pairs[k].0 < i || (pairs[k].0 == i && pairs[k].1 < j)
            &&& meetings_conflict(
                boundary,
                meetings[pairs[k].0 as int],
                meetings[pairs[k].1 as int],
            )
        }
    &&& forall|a: int, b: int|
        0 <= a < b < meetings.len() && (a < i || (a == i && b < j))
            && #[trigger] meetings_conflict(boundary, meetings[a], meetings[b])
            ==> pairs.contains((a as usize, b as usize))
    &&& forall|k: int, l: int|
        0 <= k < l < pairs.len() ==> pair_before(#[trigger] pairs[k], #[trigger] pairs[l])
}

/// Reads the meeting of a scheduled course.
pub fn meeting_of(course: &ScheduledCourse, clock: ClockParse) -> (meeting: Meeting)
    ensures
        meeting@ == course_meeting(clock, course@),
{
    let start = parse_minutes(clock, course.time_slot.start_time.as_str());
    let end = parse_minutes(clock, course.time_slot.end_time.as_str());
    let span = match (start, end) {
        (Some(s), Some(e)) => Some((s, e)),
        _ => None,
    };
    Meeting { day: course.day_of_week.clone(), span }
}

/// Reads the meetings of the courses of a plan.
pub fn meetings_of(courses: &Vec<ScheduledCourse>, clock: ClockParse) -> (meetings: Vec<Meeting>)
    ensures
        meeting_views(meetings@) == plan_meetings(clock, course_views(courses@)),
{
    let ghost wanted = plan_meetings(clock, course_views(courses@));
    let mut meetings: Vec<Meeting> = Vec::new();
    let mut i: usize = 0;
    while i < courses.len()
        invariant
            i <= courses.len(),
            meetings.len() == i,
            wanted == plan_meetings(clock, course_views(courses@)),
            forall|k: int| 0 <= k < i ==> (#[trigger] meetings@[k])@ == wanted[k],
        decreases courses.len() - i,
    {
        let meeting = meeting_of(&courses[i], clock);
        meetings.push(meeting);
        i = i + 1;
    }
    proof {
        assert(meeting_views(meetings@) =~= wanted);
    }
    meetings
}

/// Tells whether any two courses of the plan conflict.
pub fn has_conflicts(plan: &SemesterPlan, policy: CheckPolicy) -> (r: bool)
    ensures
        r == conflict_exists(policy.boundary, plan_meetings(policy.clock, plan@.courses)),
{
    let meetings = meetings_of(&plan.courses, policy.clock);
    any_conflict(&meetings, policy.boundary)
}

/// Lists the pairs of courses of the plan that conflict, by their course
/// ids: for every two entries that conflict, the id of the earlier entry and
/// then the id of the later one, the pairs in the order of the plan.
pub fn find_conflicts(plan: &SemesterPlan, policy: CheckPolicy) -> (named: Vec<(u32, u32)>)
    ensures
        is_named_listing(
            policy.boundary,
            plan_meetings(policy.clock, plan@.courses),
            plan_course_ids(plan@.courses),
            named@,
        ),
        named@.len() == 0 <==> !conflict_exists(
            policy.boundary,
            plan_meetings(policy.clock, plan@.courses),
        ),
{
    let meetings = meetings_of(&plan.courses, policy.clock);
    let pairs = conflicting_pairs(&meetings, policy.boundary);
    let ghost names = plan_course_ids(plan@.courses);
    proof {
        assert(meeting_views(meetings@).len() == meetings.len());
    }
    let mut named: Vec<(u32, u32)> = Vec::new();
    let mut k: usize = 0;
    while k < pairs.len()
        invariant
            k <= pairs.len(),
            named.len() == k,
            meetings.len() == plan.courses.len(),
            names == plan_course_ids(plan@.courses),
            is_conflict_listing(policy.boundary, meeting_views(meetings@), pairs@),
            forall|m: int|
                0 <= m < k ==> #[trigger] named@[m] == (
                    names[pairs@[m].0 as int],
                    names[pairs@[m].1 as int],
                ),
        decreases pairs.len() - k,
    {
        let (i, j) = pairs[k];
        named.push((plan.courses[i].course_id, plan.courses[j].course_id));
        k = k + 1;
    }
    proof {
        assert(spells(names, pairs@, named@));
        lemma_listing_empty_iff_no_conflict(
            policy.boundary,
            meeting_views(meetings@),
            pairs@,
        );
    }
    named
}

/// Whether `a` conflicts with `b` does not depend on which of the two is
/// named first.
pub proof fn lemma_conflict_symmetric(boundary: Boundary, a: MeetingView, b: MeetingView)
    ensures
        meetings_conflict(boundary, a, b) == meetings_conflict(boundary, b, a),
{
}

/// Two meetings on different days never conflict, whatever their times.
pub proof fn lemma_different_days_never_conflict(
    boundary: Boundary,
    a: MeetingView,
    b: MeetingView,
)
    requires
        a.day != b.day,
    ensures
        !meetings_conflict(boundary, a, b),
{
}

/// The range `start..end` holds a moment of its own: it ends after it
/// starts, or, where touching ranges overlap, not before.
pub open spec fn range_is_proper(boundary: Boundary, start: nat, end: nat) -> bool {
    match boundary {
        Boundary::Exclusive => start < end,
        Boundary::Inclusive => start <= end,
    }
}

/// Two meetings on the same day with the same time range conflict, provided
/// the range is a proper one.
pub proof fn lemma_same_range_conflicts(boundary: Boundary, a: MeetingView, b: MeetingView)
    requires
        a.day == b.day,
        a.span == b.span,
        a.span matches Some(range) && range_is_proper(boundary, range.0, range.1),
    ensures
        meetings_conflict(boundary, a, b),
{
}

/// Of two proper ranges of which the first ends where the second starts,
/// the policy alone decides: they overlap when touching counts, and not
/// otherwise.
pub proof fn lemma_touching_ranges(boundary: Boundary, start: nat, meet: nat, end: nat)
    requires
        start < meet < end,
    ensures
        ranges_overlap(boundary, start, meet, meet, end) == (boundary == Boundary::Inclusive),
{
}

/// Two different places of `s` have two different places of `t` that hold
/// the same items, where `t` holds the items of `s` in some other order.
pub proof fn lemma_two_places<T>(s: Seq<T>, t: Seq<T>, i: int, j: int) -> (r: (int, int))
    requires
        s.to_multiset() == t.to_multiset(),
        0 <= i < j < s.len(),
    ensures
        0 <= r.0 < t.len(),
        0 <= r.1 < t.len(),
        r.0 != r.1,
        t[r.0] == s[i],
        t[r.1] == s[j],
{
    s.to_multiset_ensures();
    t.to_multiset_ensures();
    assert(s.contains(s[j]));
    assert(s.to_multiset().count(s[j]) > 0);
    assert(t.to_multiset().count(s[j]) > 0);
    assert(t.contains(s[j]));
    let l = choose|l: int| 0 <= l < t.len() && t[l] == s[j];
    let s_rest = s.remove(j);
    let t_rest = t.remove(l);
    s_rest.to_multiset_ensures();
    t_rest.to_multiset_ensures();
    assert(s_rest.to_multiset() =~= t_rest.to_multiset());
    assert(s_rest[i] == s[i]);
    assert(s_rest.contains(s[i]));
    assert(s_rest.to_multiset().count(s[i]) > 0);
    assert(t_rest.to_multiset().count(s[i]) > 0);
    assert(t_rest.contains(s[i]));
    let k_rest = choose|k: int| 0 <= k < t_rest.len() && t_rest[k] == s[i];
    if k_rest < l {
        (k_rest, l)
    } else {
        (k_rest + 1, l)
    }
}

/// Whether a list holds a conflict does not depend on the order of the
/// list.
pub proof fn lemma_conflict_exists_permutation(
    boundary: Boundary,
    s: Seq<MeetingView>,
    t: Seq<MeetingView>,
)
    requires
        s.to_multiset() == t.to_multiset(),
    ensures
        conflict_exists(boundary, s) == conflict_exists(boundary, t),
{
    if conflict_exists(boundary, s) {
        lemma_conflict_moves(boundary, s, t);
    }
    if conflict_exists(boundary, t) {
        lemma_conflict_moves(boundary, t, s);
    }
}

/// A conflict in `s` is one in every list that holds the same meetings.
proof fn lemma_conflict_moves(boundary: Boundary, s: Seq<MeetingView>, t: Seq<MeetingView>)
    requires
        s.to_multiset() == t.to_multiset(),
        conflict_exists(boundary, s),
    ensures
        conflict_exists(boundary, t),
{
    let (i, j) = choose|i: int, j: int|
        0 <= i < j < s.len() && meetings_conflict(boundary, s[i], s[j]);
    let (k, l) = lemma_two_places(s, t, i, j);
    if k < l {
        assert(meetings_conflict(boundary, t[k], t[l]));
    } else {
        assert(meetings_conflict(boundary, t[l], t[k]));
    }
}

/// Whether a plan holds a conflict does not depend on the order of its
/// courses.
pub proof fn lemma_plan_conflict_permutation(
    policy: CheckPolicy,
    s: Seq<ScheduledCourseView>,
    t: Seq<ScheduledCourseView>,
)
    requires
        s.to_multiset() == t.to_multiset(),
    ensures
        conflict_exists(policy.boundary, plan_meetings(policy.clock, s)) == conflict_exists(
            policy.boundary,
            plan_meetings(policy.clock, t),
        ),
{
    if conflict_exists(policy.boundary, plan_meetings(policy.clock, s)) {
        lemma_plan_conflict_moves(policy, s, t);
    }
    if conflict_exists(policy.boundary, plan_meetings(policy.clock, t)) {
        lemma_plan_conflict_moves(policy, t, s);
    }
}

/// A conflict in the plan `s` is one in every plan that holds the same
/// courses.
proof fn lemma_plan_conflict_moves(
    policy: CheckPolicy,
    s: Seq<ScheduledCourseView>,
    t: Seq<ScheduledCourseView>,
)
    requires
        s.to_multiset() == t.to_multiset(),
        conflict_exists(policy.boundary, plan_meetings(policy.clock, s)),
    ensures
        conflict_exists(policy.boundary, plan_meetings(policy.clock, t)),
{
    let ms = plan_meetings(policy.clock, s);
    let mt = plan_meetings(policy.clock, t);
    let (i, j) = choose|i: int, j: int|
        0 <= i < j < ms.len() && meetings_conflict(policy.boundary, ms[i], ms[j]);
    let (k, l) = lemma_two_places(s, t, i, j);
    if k < l {
        assert(meetings_conflict(policy.boundary, mt[k], mt[l]));
    } else {
        assert(meetings_conflict(policy.boundary, mt[l], mt[k]));
    }
}

/// The listing of conflicts is empty exactly when the list holds no
/// conflict.
pub proof fn lemma_listing_empty_iff_no_conflict(
    boundary: Boundary,
    meetings: Seq<MeetingView>,
    pairs: Seq<(usize, usize)>,
)
    requires
        is_conflict_listing(boundary, meetings, pairs),
    ensures
        pairs.len() == 0 <==> !conflict_exists(boundary, meetings),
{
    if pairs.len() > 0 {
        let p = pairs[0];
        assert(meetings_conflict(boundary, meetings[p.0 as int], meetings[p.1 as int]));
    }
    if conflict_exists(boundary, meetings) {
        let (i, j) = choose|i: int, j: int|
            0 <= i < j < meetings.len() && meetings_conflict(boundary, meetings[i], meetings[j]);
        assert(pairs.contains((i as usize, j as usize)));
    }
}

/// The conflicts that a plan names are none exactly when the plan holds no
/// conflict.
pub proof fn lemma_named_listing_empty_iff_no_conflict<N>(
    boundary: Boundary,
    meetings: Seq<MeetingView>,
    names: Seq<N>,
    named: Seq<(N, N)>,
)
    requires
        is_named_listing(boundary, meetings, names, named),
    ensures
        named.len() == 0 <==> !conflict_exists(boundary, meetings),
{
    let pairs = choose|pairs: Seq<(usize, usize)>|
        #[trigger] is_conflict_listing(boundary, meetings, pairs) && spells(names, pairs, named);
    lemma_listing_empty_iff_no_conflict(boundary, meetings, pairs);
}

/// A list of meetings has one listing of conflicts only.
pub proof fn lemma_listing_unique(
    boundary: Boundary,
    meetings: Seq<MeetingView>,
    p: Seq<(usize, usize)>,
    q: Seq<(usize, usize)>,
)
    requires
        is_conflict_listing(boundary, meetings, p),
        is_conflict_listing(boundary, meetings, q),
    ensures
        p == q,
{
    lemma_sorted_same_items(p, q);
}

/// Two increasing lists of pairs that hold the same pairs are equal.
proof fn lemma_sorted_same_items(p: Seq<(usize, usize)>, q: Seq<(usize, usize)>)
    requires
        forall|k: int, l: int|
            0 <= k < l < p.len() ==> pair_before(#[trigger] p[k], #[trigger] p[l]),
        forall|k: int, l: int|
            0 <= k < l < q.len() ==> pair_before(#[trigger] q[k], #[trigger] q[l]),
        forall|k: int| 0 <= k < p.len() ==> q.contains(#[trigger] p[k]),
        forall|k: int| 0 <= k < q.len() ==> p.contains(#[trigger] q[k]),
    ensures
        p == q,
    decreases p.len(),
{
    if p.len() == 0 {
        if q.len() > 0 {
            assert(p.contains(q[0]));
        }
        assert(p =~= q);
    } else {
        let top = p.last();
        assert(q.contains(top));
        let m = choose|m: int| 0 <= m < q.len() && q[m] == top;
        if m < q.len() - 1 {
            let above = q[q.len() - 1];
            assert(pair_before(q[m], above));
            assert(p.contains(above));
            let n = choose|n: int| 0 <= n < p.len() && p[n] == above;
            if n < p.len() - 1 {
                assert(pair_before(p[n], p[p.len() - 1]));
            }
        }
        let p_rest = p.drop_last();
        let q_rest = q.drop_last();
        assert forall|k: int| 0 <= k < p_rest.len() implies q_rest.contains(#[trigger] p_rest[k]) by {
            assert(p_rest[k] == p[k]);
            assert(pair_before(p[k], p[p.len() - 1]));
            assert(q.contains(p[k]));
            let n = choose|n: int| 0 <= n < q.len() && q[n] == p[k];
            assert(q_rest[n] == q[n]);
        }
        assert forall|k: int| 0 <= k < q_rest.len() implies p_rest.contains(#[trigger] q_rest[k]) by {
            assert(q_rest[k] == q[k]);
            assert(pair_before(q[k], q[q.len() - 1]));
            assert(p.contains(q[k]));
            let n = choose|n: int| 0 <= n < p.len() && p[n] == q[k];
            assert(p_rest[n] == p[n]);
        }
        lemma_sorted_same_items(p_rest, q_rest);
        assert(p =~= p_rest.push(top));
        assert(q =~= q_rest.push(top));
    }
}

/// Two courses on different days never conflict, whatever their times.
pub proof fn lemma_courses_on_different_days(
    policy: CheckPolicy,
    a: ScheduledCourseView,
    b: ScheduledCourseView,
)
    requires
        a.day_of_week != b.day_of_week,
    ensures
        !meetings_conflict(
            policy.boundary,
            course_meeting(policy.clock, a),
            course_meeting(policy.clock, b),
        ),
{
}

/// Two courses on the same day with the same time slot conflict, provided
/// the slot reads as a proper range.
pub proof fn lemma_courses_with_same_slot(
    policy: CheckPolicy,
    a: ScheduledCourseView,
    b: ScheduledCourseView,
)
    requires
        a.day_of_week == b.day_of_week,
        a.time_slot == b.time_slot,
        slot_span(policy.clock, a.time_slot) matches Some(range) && range_is_proper(
            policy.boundary,
            range.0,
            range.1,
        ),
    ensures
        meetings_conflict(
            policy.boundary,
            course_meeting(policy.clock, a),
            course_meeting(policy.clock, b),
        ),
{
}

/// A plan that holds two courses on the same day with the same time slot
/// holds a conflict, provided the slot reads as a proper range.
pub proof fn lemma_plan_with_same_slot(
    policy: CheckPolicy,
    courses: Seq<ScheduledCourseView>,
    i: int,
    j: int,
)
    requires
        0 <= i < j < courses.len(),
        courses[i].day_of_week == courses[j].day_of_week,
        courses[i].time_slot == courses[j].time_slot,
        slot_span(policy.clock, courses[i].time_slot) matches Some(range) && range_is_proper(
            policy.boundary,
            range.0,
            range.1,
        ),
    ensures
        conflict_exists(policy.boundary, plan_meetings(policy.clock, courses)),
{
    let meetings = plan_meetings(policy.clock, courses);
    lemma_courses_with_same_slot(policy, courses[i], courses[j]);
    assert(meetings_conflict(policy.boundary, meetings[i], meetings[j]));
}

/// A plan whose courses are all on different days holds no conflict.
pub proof fn lemma_plan_on_different_days(policy: CheckPolicy, courses: Seq<ScheduledCourseView>)
    requires
        forall|i: int, j: int|
            0 <= i < j < courses.len() ==> courses[i].day_of_week != courses[j].day_of_week,
    ensures
        !conflict_exists(policy.boundary, plan_meetings(policy.clock, courses)),
{
    let meetings = plan_meetings(policy.clock, courses);
    assert forall|i: int, j: int| 0 <= i < j < meetings.len() implies !meetings_conflict(
        policy.boundary,
        meetings[i],
        meetings[j],
    ) by {
        lemma_courses_on_different_days(policy, courses[i], courses[j]);
    }
}

} // verus!
