//! Meeting times of the courses on offer, written as text such as
//! `"M 08:00-09:15, W 08:00-09:15"`.
//!
//! A meeting time is a list of slots with a comma and a space between them.
//! A slot is a day, one space, and a range; a range is two clock texts with
//! one `-` between them. Malformed clock text stands for midnight.
//!
//! A course on offer must belong to the department `CS`, and each of its
//! slots must lie between 08:00 and 21:00 and end after it starts.

use vstd::prelude::*;
use crate::clock::{
    find_char, first_index, lenient_time, read_clock_lenient, text_chars, ClockTime,
};
use crate::overlap::{meetings_conflict, spans_overlap, Boundary, MeetingView};
use crate::text::same_text;

verus! {

/// One slot of a meeting time.
#[derive(Debug, Clone)]
pub struct MeetingSlot {
    pub day: String,
    pub start: ClockTime,
    pub end: ClockTime,
}

/// The contents of a slot.
pub struct MeetingSlotView {
    pub day: Seq<char>,
    pub start: ClockTime,
    pub end: ClockTime,
}

impl View for MeetingSlot {
    type V = MeetingSlotView;

    open spec fn view(&self) -> MeetingSlotView {
        MeetingSlotView { day: self.day@, start: self.start, end: self.end }
    }
}

/// The contents of the slots.
pub open spec fn slot_views(slots: Seq<MeetingSlot>) -> Seq<MeetingSlotView> {
    slots.map_values(|s: MeetingSlot| s@)
}

/// Why a course cannot be offered.
#[derive(Debug, Clone, Copy, PartialEq, Eq, Structural)]
pub enum CourseError {
    /// The department is not `CS`.
    Department,
    /// A slot is not a day, one space and a range.
    Format,
    /// A range is not two times with one `-` between them.
    Range,
    /// A slot starts before 08:00 or ends after 21:00.
    Hours,
    /// A slot does not end after it starts.
    Order,
}

/// A comma at `i` and a space after it: the separator of two slots.
pub open spec fn separator_at(text: Seq<char>, i: int) -> bool {
    0 <= i && i + 1 < text.len() && text[i] == ',' && text[i + 1] == ' '
}

/// The index of the first separator of `text`, or its length where it has
/// none.
pub open spec fn first_separator(text: Seq<char>) -> int
    decreases text.len(),
{
    if text.len() == 0 || separator_at(text, 0) {
        0
    } else {
        1 + first_separator(text.drop_first())
    }
}

/// The texts of the slots of a meeting time: what stands before, between
/// and after its separators, read from the left.
pub open spec fn slot_texts(text: Seq<char>) -> Seq<Seq<char>>
    decreases text.len(),
{
    let i = first_separator(text);
    if 0 <= i && i + 2 <= text.len() {
        seq![text.take(i)] + slot_texts(text.skip(i + 2))
    } else {
        seq![text]
    }
}

/// The text holds `c` once and no more.
pub open spec fn has_one(text: Seq<char>, c: char) -> bool {
    first_index(text, c) < text.len() && !text.skip(first_index(text, c) + 1).contains(c)
}

/// What a slot text holds, or what is wrong with its form.
pub open spec fn slot_fields(slot: Seq<char>) -> Result<MeetingSlotView, CourseError> {
    if !has_one(slot, ' ') {
        Err(CourseError::Format)
    } else {
        let i = first_index(slot, ' ');
        let range = slot.skip(i + 1);
        if !has_one(range, '-') {
            Err(CourseError::Range)
        } else {
            let j = first_index(range, '-');
            Ok(
                MeetingSlotView {
                    day: slot.take(i),
                    start: lenient_time(range.take(j)),
                    end: lenient_time(range.skip(j + 1)),
                },
            )
        }
    }
}

/// The slot lies between 08:00 and 21:00.
pub open spec fn within_hours(slot: MeetingSlotView) -> bool {
    !(slot.start.hour < 8 || slot.end.hour > 21 || (slot.end.hour == 21 && slot.end.minute > 0))
}

/// The slot ends after it starts.
pub open spec fn ends_after_start(slot: MeetingSlotView) -> bool {
    !(slot.start.hour > slot.end.hour || (slot.start.hour == slot.end.hour && slot.start.minute
        >= slot.end.minute))
}

/// What is wrong with a slot text, `None` where nothing is: its form comes
/// first, then its hours, then the order of its ends.
pub open spec fn slot_violation(slot: Seq<char>) -> Option<CourseError> {
    match slot_fields(slot) {
        Err(e) => Some(e),
        Ok(fields) => if !within_hours(fields) {
            Some(CourseError::Hours)
        } else if !ends_after_start(fields) {
            Some(CourseError::Order)
        } else {
            None
        },
    }
}

/// What is wrong with the first of the slot texts that has something wrong
/// with it, `None` where none has.
pub open spec fn first_violation(slots: Seq<Seq<char>>) -> Option<CourseError>
    decreases slots.len(),
{
    if slots.len() == 0 {
        None
    } else {
        match first_violation(slots.drop_last()) {
            Some(e) => Some(e),
            None => slot_violation(slots.last()),
        }
    }
}

/// Why a course of the department `dept_code` that meets at `meeting_time`
/// cannot be offered, `None` where it can: the department comes first, then
/// the slots in their order.
pub open spec fn course_violation(dept_code: Seq<char>, meeting_time: Seq<char>) -> Option<
    CourseError,
> {
    if dept_code != "CS"@ {
        Some(CourseError::Department)
    } else {
        first_violation(slot_texts(meeting_time))
    }
}

/// The slot texts all have the form of a slot.
pub open spec fn well_formed(meeting_time: Seq<char>) -> bool {
    forall|k: int|
        0 <= k < slot_texts(meeting_time).len() ==> slot_fields(
            #[trigger] slot_texts(meeting_time)[k],
        ) is Ok
}

/// The slots of a meeting time whose slot texts all have the form of a slot.
pub open spec fn meeting_slots(meeting_time: Seq<char>) -> Seq<MeetingSlotView> {
    slot_texts(meeting_time).map_values(|t: Seq<char>| slot_fields(t)->Ok_0)
}

/// The meeting of a slot.
pub open spec fn slot_meeting(slot: MeetingSlotView) -> MeetingView {
    MeetingView { day: slot.day, span: Some((slot.start.minutes(), slot.end.minutes())) }
}

/// Some slot of `first` and some slot of `second` are on the same day and
/// overlap. Slots that only touch do not overlap.
pub open spec fn slots_conflict(first: Seq<MeetingSlotView>, second: Seq<MeetingSlotView>) -> bool {
    exists|i: int, j: int|
        0 <= i < first.len() && 0 <= j < second.len() && meetings_conflict(
            Boundary::Exclusive,
            slot_meeting(first[i]),
            slot_meeting(second[j]),
        )
}

/// What `first_separator` finds: no separator before it, and a separator at
/// it unless it is the end of the text.
pub proof fn lemma_first_separator(text: Seq<char>)
    ensures
        0 <= first_separator(text) <= text.len(),
        forall|j: int| 0 <= j < first_separator(text) ==> !separator_at(text, j),
        first_separator(text) < text.len() ==> separator_at(text, first_separator(text)),
    decreases text.len(),
{
    if text.len() != 0 && !separator_at(text, 0) {
        let rest = text.drop_first();
        lemma_first_separator(rest);
        assert forall|j: int| 0 <= j < first_separator(text) implies !separator_at(text, j) by {
            if j > 0 {
                assert(text[j] == rest[j - 1]);
                if j + 1 < text.len() {
                    assert(text[j + 1] == rest[j]);
                }
                assert(!separator_at(rest, j - 1));
            }
        }
        let at = first_separator(rest);
        if at < rest.len() {
            assert(separator_at(rest, at));
            assert(text[at + 1] == rest[at]);
            assert(text[at + 2] == rest[at + 1]);
        }
    }
}

/// The place of a separator that no separator comes before is the first
/// separator.
pub proof fn lemma_first_separator_is(text: Seq<char>, i: int)
    requires
        0 <= i <= text.len(),
        forall|j: int| 0 <= j < i ==> !separator_at(text, j),
        i < text.len() ==> separator_at(text, i),
    ensures
        first_separator(text) == i,
{
    lemma_first_separator(text);
}

/// The message that reports the failure.
pub open spec fn error_text(error: CourseError) -> Seq<char> {
    match error {
        CourseError::Department => "Department code must be 'CS'"@,
        CourseError::Format => "Invalid meeting time format (e.g., 'M 08:00-15:00')"@,
        CourseError::Range => "Invalid time range"@,
        CourseError::Hours => "Classes must be between 08:00 and 21:00"@,
        CourseError::Order => "End time must be after start time"@,
    }
}

/// The message that reports the failure.
pub fn error_message(error: CourseError) -> (message: String)
    ensures
        message@ == error_text(error),
{
    match error {
        CourseError::Department => String::from_str("Department code must be 'CS'"),
        CourseError::Format => String::from_str(
            "Invalid meeting time format (e.g., 'M 08:00-15:00')",
        ),
        CourseError::Range => String::from_str("Invalid time range"),
        CourseError::Hours => String::from_str("Classes must be between 08:00 and 21:00"),
        CourseError::Order => String::from_str("End time must be after start time"),
    }
}

/// Finds the first separator among the characters of `chars` from `from`
/// on: its index, or the length of `chars` where there is none.
fn find_separator(chars: &Vec<char>, from: usize) -> (at: usize)
    requires
        from <= chars.len(),
    ensures
        from <= at <= chars.len(),
        at < chars.len() ==> at + 2 <= chars.len(),
        at - from == first_separator(chars@.skip(from as int)),
{
    let ghost rest = chars@.skip(from as int);
    let n: usize = chars.len();
    let mut i: usize = from;
    while i < n && !(chars[i] == ',' && i + 1 < n && chars[i + 1] == ' ')
        invariant
            from <= i <= n,
            n == chars.len(),
            rest == chars@.skip(from as int),
            forall|j: int| 0 <= j < i - from ==> !separator_at(rest, j),
        decreases n - i,
    {
        proof {
            assert(rest[i - from] == chars@[i as int]);
            if i + 1 < n {
                assert(rest[i - from + 1] == chars@[i + 1]);
            }
        }
        i = i + 1;
    }
    proof {
        if i < n {
            assert(rest[i - from] == chars@[i as int]);
            assert(rest[i - from + 1] == chars@[i + 1]);
        }
        lemma_first_separator_is(rest, i - from);
    }
    i
}

/// Tells whether the characters of `chars` from `from` up to `to` hold `c`
/// once and no more, and where.
fn find_only(chars: &Vec<char>, from: usize, to: usize, c: char) -> (r: Option<usize>)
    requires
        from <= to <= chars.len(),
    ensures
        r is Some == has_one(chars@.subrange(from as int, to as int), c),
        r matches Some(at) ==> from <= at < to && at - from == first_index(
            chars@.subrange(from as int, to as int),
            c,
        ),
{
    let ghost text = chars@.subrange(from as int, to as int);
    let at = find_char(chars, from, to, c);
    if at == to {
        return None;
    }
    let next = find_char(chars, at + 1, to, c);
    let ghost rest = text.skip(at - from + 1);
    proof {
        assert(rest =~= chars@.subrange(at + 1, to as int));
        if next < to {
            assert(rest[next - at - 1] == c);
        } else {
            assert forall|j: int| 0 <= j < rest.len() implies rest[j] != c by {
                assert(rest[j] == chars@[at + 1 + j]);
            }
        }
    }
    if next < to {
        None
    } else {
        Some(at)
    }
}

/// Reads the slot that `text` holds from `from` up to `to`. `chars` are the
/// characters of `text`.
fn read_slot(text: &str, chars: &Vec<char>, from: usize, to: usize) -> (r: Result<
    MeetingSlot,
    CourseError,
>)
    requires
        chars@ == text@,
        from <= to <= chars.len(),
    ensures
        match r {
            Ok(slot) => slot_fields(chars@.subrange(from as int, to as int)) == Ok::<
                MeetingSlotView,
                CourseError,
            >(slot@),
            Err(e) => slot_fields(chars@.subrange(from as int, to as int)) == Err::<
                MeetingSlotView,
                CourseError,
            >(e),
        },
{
    let ghost slot = chars@.subrange(from as int, to as int);
    let space = match find_only(chars, from, to, ' ') {
        Some(at) => at,
        None => {
            return Err(CourseError::Format);
        },
    };
    let ghost range = slot.skip(space - from + 1);
    proof {
        assert(range =~= chars@.subrange(space + 1, to as int));
    }
    let dash = match find_only(chars, space + 1, to, '-') {
        Some(at) => at,
        None => {
            return Err(CourseError::Range);
        },
    };
    proof {
        assert(slot.take(space - from) =~= text@.subrange(from as int, space as int));
        assert(range.take(dash - space - 1) =~= chars@.subrange(space + 1, dash as int));
        assert(range.skip(dash - space) =~= chars@.subrange(dash + 1, to as int));
    }
    let day = String::from_str(text.substring_char(from, space));
    let start = read_clock_lenient(chars, space + 1, dash);
    let end = read_clock_lenient(chars, dash + 1, to);
    Ok(MeetingSlot { day, start, end })
}

/// The texts that `ranges` cut out of `chars`.
pub open spec fn texts_of(chars: Seq<char>, ranges: Seq<(usize, usize)>) -> Seq<Seq<char>> {
    ranges.map_values(|r: (usize, usize)| chars.subrange(r.0 as int, r.1 as int))
}

/// Finds the slot texts of a meeting time: where each starts and ends.
fn slot_ranges(chars: &Vec<char>) -> (ranges: Vec<(usize, usize)>)
    ensures
        texts_of(chars@, ranges@) == slot_texts(chars@),
        forall|k: int|
            0 <= k < ranges.len() ==> (#[trigger] ranges@[k]).0 <= ranges@[k].1 <= chars.len(),
{
    let n: usize = chars.len();
    let mut ranges: Vec<(usize, usize)> = Vec::new();
    let mut from: usize = 0;
    let mut done: bool = false;
    proof {
        assert(chars@.skip(0) =~= chars@);
        assert(texts_of(chars@, ranges@) =~= Seq::<Seq<char>>::empty());
    }
    while !done
        invariant
            from <= n,
            n == chars.len(),
            forall|k: int|
                0 <= k < ranges.len() ==> (#[trigger] ranges@[k]).0 <= ranges@[k].1 <= n,
            !done ==> slot_texts(chars@) == texts_of(chars@, ranges@) + slot_texts(
                chars@.skip(from as int),
            ),
            done ==> slot_texts(chars@) == texts_of(chars@, ranges@),
        decreases n - from + (if done { 0int } else { 1 }),
    {
        let at = find_separator(chars, from);
        let ghost rest = chars@.skip(from as int);
        let ghost before = texts_of(chars@, ranges@);
        ranges.push((from, at));
        proof {
            assert(texts_of(chars@, ranges@) =~= before.push(
                chars@.subrange(from as int, at as int),
            ));
        }
        if at == n {
            proof {
                assert(rest =~= chars@.subrange(from as int, n as int));
                assert(slot_texts(rest) =~= seq![rest]);
                assert(before + seq![rest] =~= before.push(rest));
            }
            done = true;
        } else {
            proof {
                assert(rest.take(at - from) =~= chars@.subrange(from as int, at as int));
                assert(rest.skip(at - from + 2) =~= chars@.skip(at + 2));
                assert(slot_texts(rest) =~= seq![rest.take(at - from)] + slot_texts(
                    rest.skip(at - from + 2),
                ));
                assert(before + (seq![rest.take(at - from)] + slot_texts(chars@.skip(at + 2)))
                    =~= before.push(rest.take(at - from)) + slot_texts(chars@.skip(at + 2)));
            }
            from = at + 2;
        }
    }
    ranges
}

/// Tells whether the slot lies between 08:00 and 21:00.
pub fn slot_within_hours(slot: &MeetingSlot) -> (r: bool)
    ensures
        r == within_hours(slot@),
{
    !(slot.start.hour < 8 || slot.end.hour > 21 || (slot.end.hour == 21 && slot.end.minute > 0))
}

/// Tells whether the slot ends after it starts.
pub fn slot_ends_after_start(slot: &MeetingSlot) -> (r: bool)
    ensures
        r == ends_after_start(slot@),
{
    !(slot.start.hour > slot.end.hour || (slot.start.hour == slot.end.hour && slot.start.minute
        >= slot.end.minute))
}

/// Tells whether a course of the department `dept_code` that meets at
/// `meeting_time` can be offered, and why not where it cannot.
pub fn validate_course(dept_code: &str, meeting_time: &str) -> (r: Result<(), CourseError>)
    ensures
        match r {
            Ok(_) => course_violation(dept_code@, meeting_time@) is None,
            Err(e) => course_violation(dept_code@, meeting_time@) == Some(e),
        },
{
    if !same_text(dept_code, "CS") {
        return Err(CourseError::Department);
    }
    let chars = text_chars(meeting_time);
    let ranges = slot_ranges(&chars);
    let ghost texts = slot_texts(meeting_time@);
    let mut k: usize = 0;
    while k < ranges.len()
        invariant
            k <= ranges.len(),
            dept_code@ == "CS"@,
            chars@ == meeting_time@,
            texts == slot_texts(meeting_time@),
            texts_of(chars@, ranges@) == texts,
            forall|m: int|
                0 <= m < ranges.len() ==> (#[trigger] ranges@[m]).0 <= ranges@[m].1 <= chars.len(),
            first_violation(texts.take(k as int)) is None,
        decreases ranges.len() - k,
    {
        let (from, to) = ranges[k];
        proof {
            assert(texts.take(k + 1).drop_last() =~= texts.take(k as int));
            assert(texts.take(k + 1).last() == texts[k as int]);
            assert(texts[k as int] == chars@.subrange(from as int, to as int));
            assert(texts.len() == ranges.len());
            if slot_violation(texts[k as int]) is Some {
                lemma_violation_stays(texts, k + 1);
            }
        }
        match read_slot(meeting_time, &chars, from, to) {
            Err(e) => {
                return Err(e);
            },
            Ok(slot) => {
                if !slot_within_hours(&slot) {
                    return Err(CourseError::Hours);
                }
                if !slot_ends_after_start(&slot) {
                    return Err(CourseError::Order);
                }
            },
        }
        k = k + 1;
    }
    proof {
        assert(texts.take(ranges.len() as int) =~= texts);
    }
    Ok(())
}

/// What is wrong among the first `k` slot texts is what is wrong among all
/// of them.
pub proof fn lemma_violation_stays(slots: Seq<Seq<char>>, k: int)
    requires
        0 <= k <= slots.len(),
        first_violation(slots.take(k)) is Some,
    ensures
        first_violation(slots) == first_violation(slots.take(k)),
    decreases slots.len() - k,
{
    if k == slots.len() {
        assert(slots.take(k) =~= slots);
    } else {
        assert(slots.take(k + 1).drop_last() =~= slots.take(k));
        lemma_violation_stays(slots, k + 1);
    }
}

/// Reads a meeting time: its slots, or `None` where a slot text has not the
/// form of a slot.
pub fn parse_meeting_time(meeting_time: &str) -> (r: Option<Vec<MeetingSlot>>)
    ensures
        r is Some == well_formed(meeting_time@),
        r matches Some(slots) ==> slot_views(slots@) == meeting_slots(meeting_time@),
{
    let chars = text_chars(meeting_time);
    let ranges = slot_ranges(&chars);
    let ghost texts = slot_texts(meeting_time@);
    let mut slots: Vec<MeetingSlot> = Vec::new();
    let mut k: usize = 0;
    while k < ranges.len()
        invariant
            k <= ranges.len(),
            slots.len() == k,
            chars@ == meeting_time@,
            texts == slot_texts(meeting_time@),
            texts_of(chars@, ranges@) == texts,
            forall|m: int|
                0 <= m < ranges.len() ==> (#[trigger] ranges@[m]).0 <= ranges@[m].1 <= chars.len(),
            forall|m: int|
                0 <= m < k ==> slot_fields(#[trigger] texts[m]) == Ok::<
                    MeetingSlotView,
                    CourseError,
                >(slots@[m]@),
        decreases ranges.len() - k,
    {
        let (from, to) = ranges[k];
        proof {
            assert(texts[k as int] == chars@.subrange(from as int, to as int));
        }
        match read_slot(meeting_time, &chars, from, to) {
            Err(_) => {
                return None;
            },
            Ok(slot) => {
                slots.push(slot);
            },
        }
        k = k + 1;
    }
    proof {
        assert(slot_views(slots@) =~= meeting_slots(meeting_time@));
    }
    Some(slots)
}

/// Tells whether two slots are on the same day and overlap.
pub fn slots_clash(a: &MeetingSlot, b: &MeetingSlot) -> (r: bool)
    ensures
        r == meetings_conflict(Boundary::Exclusive, slot_meeting(a@), slot_meeting(b@)),
{
    a.day == b.day && spans_overlap(
        Boundary::Exclusive,
        (a.start.minutes_since_midnight(), a.end.minutes_since_midnight()),
        (b.start.minutes_since_midnight(), b.end.minutes_since_midnight()),
    )
}

/// Tells whether some slot of `first` and some slot of `second` are on the
/// same day and overlap.
pub fn any_slots_clash(first: &Vec<MeetingSlot>, second: &Vec<MeetingSlot>) -> (r: bool)
    ensures
        r == slots_conflict(slot_views(first@), slot_views(second@)),
{
    let ghost a = slot_views(first@);
    let ghost b = slot_views(second@);
    let mut i: usize = 0;
    while i < first.len()
        invariant
            i <= first.len(),
            a == slot_views(first@),
            b == slot_views(second@),
            forall|x: int, y: int|
                0 <= x < i && 0 <= y < b.len() ==> !meetings_conflict(
                    Boundary::Exclusive,
                    slot_meeting(a[x]),
                    slot_meeting(b[y]),
                ),
        decreases first.len() - i,
    {
        let mut j: usize = 0;
        while j < second.len()
            invariant
                i < first.len(),
                j <= second.len(),
                a == slot_views(first@),
                b == slot_views(second@),
                forall|y: int|
                    0 <= y < j ==> !meetings_conflict(
                        Boundary::Exclusive,
                        slot_meeting(a[i as int]),
                        slot_meeting(b[y]),
                    ),
            decreases second.len() - j,
        {
            if slots_clash(&first[i], &second[j]) {
                proof {
                    assert(meetings_conflict(
                        Boundary::Exclusive,
                        slot_meeting(a[i as int]),
                        slot_meeting(b[j as int]),
                    ));
                }
                return true;
            }
            j = j + 1;
        }
        i = i + 1;
    }
    false
}

/// Tells whether two meeting times conflict: whether some slot of the one
/// and some slot of the other are on the same day and overlap.
pub fn has_time_conflict(time1: &str, time2: &str) -> (r: bool)
    requires
        well_formed(time1@),
        well_formed(time2@),
    ensures
        r == slots_conflict(meeting_slots(time1@), meeting_slots(time2@)),
{
    let first = parse_meeting_time(time1).unwrap();
    let second = parse_meeting_time(time2).unwrap();
    any_slots_clash(&first, &second)
}

} // verus!
