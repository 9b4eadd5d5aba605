//! Conflicts in schedules whose times are read by `chrono`, and the making
//! of identifiers.

use vstd::prelude::*;
use chrono::NaiveTime;
use chrono::Timelike;
use crate::clock::{minutes_of, ClockParse, ClockTime};
use crate::models::{schedule_course_ids, schedule_slots, Schedule, TimeSlot, TimeSlotView};
use crate::overlap::{
    conflict_exists, conflicting_pairs, default_policy, is_conflict_listing, is_named_listing,
    lemma_listing_empty_iff_no_conflict, meeting_views, meetings_clash, meetings_conflict, spells,
    CheckPolicy, Meeting, MeetingView,
};
use crate::text::{decimal, decimal_string};

verus! {

/// The format of the clock text of a schedule: hour and minute of a 24-hour
/// clock with a colon between them.
pub const CLOCK_FORMAT: &'static str = "%H:%M";

/// The time that `chrono` reads in `text` under `format`, as its hour and
/// minute; `None` where `chrono` reports an error.
pub uninterp spec fn chrono_time(text: Seq<char>, format: Seq<char>) -> Option<ClockTime>;

/// Calls `chrono::NaiveTime::parse_from_str` and gives the hour and the
/// minute of the time it returns, `None` where it returns an error. Two
/// things are claimed of the outcome: that it depends on the two texts
/// alone, and that the hour and the minute are those of a time of day, as
/// `chrono` documents for `Timelike::hour` and `Timelike::minute`.
#[verifier::external_body]
fn chrono_parse(text: &str, format: &str) -> (r: Option<ClockTime>)
    ensures
        r == chrono_time(text@, format@),
        r matches Some(time) ==> time.hour <= 23 && time.minute <= 59,
{
    match NaiveTime::parse_from_str(text, format) {
        Ok(time) => Some(ClockTime { hour: time.hour(), minute: time.minute() }),
        Err(_) => None,
    }
}

/// Reads clock text in the format `CLOCK_FORMAT`. What is read is a time of
/// day, before 24:00.
pub fn parse_time(time_str: &str) -> (r: Option<ClockTime>)
    ensures
        r == chrono_time(time_str@, CLOCK_FORMAT@),
        r matches Some(time) ==> time.hour <= 23 && time.minute <= 59 && time.minutes() < 1440,
{
    chrono_parse(time_str, CLOCK_FORMAT)
}

/// The minutes since midnight that stand for clock text which was read as
/// `parsed`: under the lenient reading, text that could not be read stands
/// for midnight.
pub open spec fn resolved_minutes(clock: ClockParse, parsed: Option<ClockTime>) -> Option<nat> {
    match clock {
        ClockParse::LenientZero => match parsed {
            Some(t) => Some(t.minutes()),
            None => Some(0),
        },
        ClockParse::Strict => minutes_of(parsed),
    }
}

/// The meeting of a time slot whose ends were read as `start` and `end`.
pub open spec fn slot_meeting(
    clock: ClockParse,
    day: Seq<char>,
    start: Option<ClockTime>,
    end: Option<ClockTime>,
) -> MeetingView {
    MeetingView {
        day,
        span: match (resolved_minutes(clock, start), resolved_minutes(clock, end)) {
            (Some(s), Some(e)) => Some((s, e)),
            _ => None,
        },
    }
}

/// The meeting of a time slot, its ends read in the format `CLOCK_FORMAT`.
pub open spec fn timed_meeting(clock: ClockParse, slot: TimeSlotView) -> MeetingView {
    slot_meeting(
        clock,
        slot.day,
        chrono_time(slot.start_time, CLOCK_FORMAT@),
        chrono_time(slot.end_time, CLOCK_FORMAT@),
    )
}

/// The meetings of the time slots, in their order.
pub open spec fn timed_meetings(clock: ClockParse, slots: Seq<TimeSlotView>) -> Seq<MeetingView> {
    slots.map_values(|s: TimeSlotView| timed_meeting(clock, s))
}

/// The minutes since midnight that stand for clock text which was read as
/// `parsed`.
pub fn resolve_minutes(clock: ClockParse, parsed: Option<ClockTime>) -> (r: Option<u64>)
    ensures
        r is Some == resolved_minutes(clock, parsed) is Some,
        r matches Some(t) ==> resolved_minutes(clock, parsed) == Some(t as nat),
{
    match parsed {
        Some(time) => Some(time.minutes_since_midnight()),
        None => match clock {
            ClockParse::LenientZero => Some(0),
            ClockParse::Strict => None,
        },
    }
}

/// Builds the meeting of a time slot from its day and from what was read at
/// its two ends.
pub fn meeting_from_parts(
    clock: ClockParse,
    day: &String,
    start: Option<ClockTime>,
    end: Option<ClockTime>,
) -> (meeting: Meeting)
    ensures
        meeting@ == slot_meeting(clock, day@, start, end),
{
    let span = match (resolve_minutes(clock, start), resolve_minutes(clock, end)) {
        (Some(s), Some(e)) => Some((s, e)),
        _ => None,
    };
    Meeting { day: day.clone(), span }
}

/// Reads the meeting of a time slot.
pub fn meeting_of_slot(slot: &TimeSlot, clock: ClockParse) -> (meeting: Meeting)
    ensures
        meeting@ == timed_meeting(clock, slot@),
{
    let start = parse_time(slot.start_time.as_str());
    let end = parse_time(slot.end_time.as_str());
    meeting_from_parts(clock, &slot.day, start, end)
}

/// Tells whether two time slots overlap under `policy`: whether they are on
/// the same day and their time ranges overlap.
pub fn time_slots_overlap_with(slot1: &TimeSlot, slot2: &TimeSlot, policy: CheckPolicy) -> (r:
    bool)
    ensures
        r == meetings_conflict(
            policy.boundary,
            timed_meeting(policy.clock, slot1@),
            timed_meeting(policy.clock, slot2@),
        ),
{
    let first = meeting_of_slot(slot1, policy.clock);
    let second = meeting_of_slot(slot2, policy.clock);
    meetings_clash(policy.boundary, &first, &second)
}

/// Tells whether two time slots overlap: whether they are on the same day
/// and their time ranges overlap. Ranges that only touch do not overlap, and
/// clock text that cannot be read stands for midnight.
pub fn time_slots_overlap(slot1: &TimeSlot, slot2: &TimeSlot) -> (r: bool)
    ensures
        r == meetings_conflict(
            default_policy().boundary,
            timed_meeting(default_policy().clock, slot1@),
            timed_meeting(default_policy().clock, slot2@),
        ),
{
    time_slots_overlap_with(slot1, slot2, CheckPolicy::default())
}

/// The texts of the pairs of ids.
pub open spec fn id_pair_views(pairs: Seq<(String, String)>) -> Seq<(Seq<char>, Seq<char>)> {
    pairs.map_values(|p: (String, String)| (p.0@, p.1@))
}

/// Lists the pairs of courses of the schedule whose time slots overlap under
/// `policy`, by their course ids: for every two entries that overlap, the id
/// of the earlier entry and then the id of the later one, the pairs in the
/// order of the schedule.
pub fn check_schedule_conflicts_with(schedule: &Schedule, policy: CheckPolicy) -> (conflicts: Vec<
    (String, String),
>)
    ensures
        is_named_listing(
            policy.boundary,
            timed_meetings(policy.clock, schedule_slots(schedule.courses@)),
            schedule_course_ids(schedule.courses@),
            id_pair_views(conflicts@),
        ),
        conflicts@.len() == 0 <==> !conflict_exists(
            policy.boundary,
            timed_meetings(policy.clock, schedule_slots(schedule.courses@)),
        ),
{
    let ghost wanted = timed_meetings(policy.clock, schedule_slots(schedule.courses@));
    let ghost names = schedule_course_ids(schedule.courses@);
    let mut meetings: Vec<Meeting> = Vec::new();
    let mut i: usize = 0;
    while i < schedule.courses.len()
        invariant
            i <= schedule.courses.len(),
            meetings.len() == i,
            wanted == timed_meetings(policy.clock, schedule_slots(schedule.courses@)),
            forall|k: int| 0 <= k < i ==> (#[trigger] meetings@[k])@ == wanted[k],
        decreases schedule.courses.len() - i,
    {
        let meeting = meeting_of_slot(&schedule.courses[i].time_slot, policy.clock);
        meetings.push(meeting);
        i = i + 1;
    }
    proof {
        assert(meeting_views(meetings@) =~= wanted);
    }
    let pairs = conflicting_pairs(&meetings, policy.boundary);
    let mut conflicts: Vec<(String, String)> = Vec::new();
    let mut k: usize = 0;
    while k < pairs.len()
        invariant
            k <= pairs.len(),
            conflicts.len() == k,
            meetings.len() == schedule.courses.len(),
            names == schedule_course_ids(schedule.courses@),
            is_conflict_listing(policy.boundary, meeting_views(meetings@), pairs@),
            forall|m: int|
                0 <= m < k ==> (#[trigger] conflicts@[m]).0@ == names[pairs@[m].0 as int]
                    && conflicts@[m].1@ == names[pairs@[m].1 as int],
        decreases pairs.len() - k,
    {
        let (first, second) = pairs[k];
        conflicts.push(
            (schedule.courses[first].course_id.clone(), schedule.courses[second].course_id.clone()),
        );
        k = k + 1;
    }
    proof {
        assert(spells(names, pairs@, id_pair_views(conflicts@)));
        lemma_listing_empty_iff_no_conflict(policy.boundary, meeting_views(meetings@), pairs@);
    }
    conflicts
}

/// Lists the pairs of courses of the schedule whose time slots overlap, by
/// their course ids. Ranges that only touch do not overlap, and clock text
/// that cannot be read stands for midnight.
pub fn check_schedule_conflicts(schedule: &Schedule) -> (conflicts: Vec<(String, String)>)
    ensures
        is_named_listing(
            default_policy().boundary,
            timed_meetings(default_policy().clock, schedule_slots(schedule.courses@)),
            schedule_course_ids(schedule.courses@),
            id_pair_views(conflicts@),
        ),
        conflicts@.len() == 0 <==> !conflict_exists(
            default_policy().boundary,
            timed_meetings(default_policy().clock, schedule_slots(schedule.courses@)),
        ),
{
    check_schedule_conflicts_with(schedule, CheckPolicy::default())
}

/// The identifier made at `millis` milliseconds after the start of 1970:
/// that number, written in decimal.
pub fn generate_id(millis: u128) -> (id: String)
    ensures
        id@ == decimal(millis as nat),
{
    decimal_string(millis)
}

} // verus!
