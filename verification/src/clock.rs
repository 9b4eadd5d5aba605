//! Clock text such as `"9:00"` or `"14:30"`, read as minutes since midnight.
//!
//! A clock text is two numerals with exactly one `:` between them. A numeral
//! is one or more decimal digits, with an optional leading `+`, whose value
//! fits in a `u32`. Everything else is malformed. The strict reading reports
//! malformed text as `None`; the lenient reading takes it for midnight.

use vstd::prelude::*;

verus! {

/// `c` is one of the ten decimal digits.
pub open spec fn is_digit(c: char) -> bool {
    '0' <= c && c <= '9'
}

/// Every character of `s` is a decimal digit.
pub open spec fn all_digits(s: Seq<char>) -> bool {
    forall|i: int| 0 <= i < s.len() ==> is_digit(#[trigger] s[i])
}

/// The number that the digits of `s` write in base ten.
pub open spec fn digits_value(s: Seq<char>) -> nat
    decreases s.len(),
{
    if s.len() == 0 {
        0
    } else {
        digits_value(s.drop_last()) * 10 + (s.last() as nat - '0' as nat) as nat
    }
}

/// The digits of a numeral: the text without its leading `+`, if it has one.
pub open spec fn numeral_digits(s: Seq<char>) -> Seq<char> {
    if s.len() > 0 && s[0] == '+' {
        s.skip(1)
    } else {
        s
    }
}

/// The value of `s` as a numeral, or `None` where `s` is not one.
pub open spec fn numeral(s: Seq<char>) -> Option<u32> {
    let d = numeral_digits(s);
    if d.len() > 0 && all_digits(d) && digits_value(d) <= u32::MAX {
        Some(digits_value(d) as u32)
    } else {
        None
    }
}

/// The index of the first `c` of `text`, or its length where it has none.
pub open spec fn first_index(text: Seq<char>, c: char) -> int
    decreases text.len(),
{
    if text.len() == 0 || text[0] == c {
        0
    } else {
        1 + first_index(text.drop_first(), c)
    }
}

/// A time of day, as an hour and a minute. Neither is held to a range: the
/// time counts as `hour * 60 + minute` minutes since midnight.
#[derive(Debug, Clone, Copy, PartialEq, Eq, Structural)]
pub struct ClockTime {
    pub hour: u32,
    pub minute: u32,
}

impl ClockTime {
    /// The minutes since midnight.
    pub open spec fn minutes(self) -> nat {
        (self.hour * 60 + self.minute) as nat
    }

    /// The minutes since midnight.
    pub fn minutes_since_midnight(&self) -> (minutes: u64)
        ensures
            minutes == self.minutes(),
    {
        self.hour as u64 * 60 + self.minute as u64
    }
}

/// The time of a well-formed clock text, `None` for malformed text.
pub open spec fn clock_fields(text: Seq<char>) -> Option<ClockTime> {
    let i = first_index(text, ':');
    if i < text.len() {
        match (numeral(text.take(i)), numeral(text.skip(i + 1))) {
            (Some(hour), Some(minute)) => Some(ClockTime { hour, minute }),
            _ => None,
        }
    } else {
        None
    }
}

/// Lenient reading of a time: malformed text stands for midnight.
pub open spec fn lenient_time(text: Seq<char>) -> ClockTime {
    match clock_fields(text) {
        Some(time) => time,
        None => ClockTime { hour: 0, minute: 0 },
    }
}

/// The minutes since midnight of a time that may be missing.
pub open spec fn minutes_of(time: Option<ClockTime>) -> Option<nat> {
    match time {
        Some(t) => Some(t.minutes()),
        None => None,
    }
}

/// Strict reading: minutes since midnight, `None` for malformed text.
pub open spec fn strict_minutes(text: Seq<char>) -> Option<nat> {
    minutes_of(clock_fields(text))
}

/// Lenient reading: malformed text stands for midnight.
pub open spec fn lenient_minutes(text: Seq<char>) -> nat {
    match strict_minutes(text) {
        Some(t) => t,
        None => 0,
    }
}

/// What `first_index` finds: no `c` before it, and a `c` at it unless it is
/// the end of the text.
pub proof fn lemma_first_index(text: Seq<char>, c: char)
    ensures
        0 <= first_index(text, c) <= text.len(),
        forall|j: int| 0 <= j < first_index(text, c) ==> text[j] != c,
        first_index(text, c) < text.len() ==> text[first_index(text, c)] == c,
    decreases text.len(),
{
    if text.len() != 0 && text[0] != c {
        let rest = text.drop_first();
        lemma_first_index(rest, c);
        assert forall|j: int| 0 <= j < first_index(text, c) implies text[j] != c by {
            if j > 0 {
                assert(text[j] == rest[j - 1]);
            }
        }
        if first_index(text, c) < text.len() {
            assert(text[first_index(text, c)] == rest[first_index(rest, c)]);
        }
    }
}

/// The place of a `c` that no `c` comes before is the first index of `c`.
pub proof fn lemma_first_index_is(text: Seq<char>, c: char, i: int)
    requires
        0 <= i <= text.len(),
        forall|j: int| 0 <= j < i ==> text[j] != c,
        i < text.len() ==> text[i] == c,
    ensures
        first_index(text, c) == i,
{
    lemma_first_index(text, c);
}

/// A run of digits is worth at least as much as any run it starts with.
pub proof fn lemma_digits_value_prefix(s: Seq<char>, k: int)
    requires
        0 <= k <= s.len(),
        all_digits(s),
    ensures
        digits_value(s.take(k)) <= digits_value(s),
    decreases s.len() - k,
{
    if k == s.len() {
        assert(s.take(k) =~= s);
    } else {
        lemma_digits_value_prefix(s, k + 1);
        let longer = s.take(k + 1);
        assert(longer.drop_last() =~= s.take(k));
        assert(is_digit(s[k]));
        assert(longer.last() == s[k]);
    }
}

/// The characters of `text`, in order.
pub fn text_chars(text: &str) -> (chars: Vec<char>)
    ensures
        chars@ == text@,
{
    let mut chars: Vec<char> = Vec::new();
    for c in it: text.chars()
        invariant
            it.seq() == text@,
            chars@ == it.seq().take(it.index()),
    {
        chars.push(c);
        proof {
            assert(it.seq().take(it.index() + 1) =~= it.seq().take(it.index()).push(c));
        }
    }
    proof {
        assert(text@.take(text@.len() as int) =~= text@);
    }
    chars
}

/// Reads the characters of `chars` from `from` up to `to` as a numeral.
pub fn read_numeral(chars: &Vec<char>, from: usize, to: usize) -> (r: Option<u32>)
    requires
        from <= to <= chars.len(),
    ensures
        r == numeral(chars@.subrange(from as int, to as int)),
{
    let ghost s = chars@.subrange(from as int, to as int);
    let mut i: usize = from;
    if i < to && chars[i] == '+' {
        i = i + 1;
    }
    let start: usize = i;
    let ghost d = chars@.subrange(start as int, to as int);
    proof {
        assert(numeral_digits(s) =~= d);
    }
    if i == to {
        return None;
    }
    let mut acc: u64 = 0;
    while i < to
        invariant
            from <= start <= i <= to <= chars.len(),
            d == chars@.subrange(start as int, to as int),
            d == numeral_digits(chars@.subrange(from as int, to as int)),
            all_digits(d.take(i - start)),
            acc == digits_value(d.take(i - start)),
            acc <= u32::MAX,
        decreases to - i,
    {
        let c: char = chars[i];
        if !(c >= '0' && c <= '9') {
            proof {
                assert(d[i - start] == c);
            }
            return None;
        }
        let ghost longer = d.take(i - start + 1);
        proof {
            assert(longer.drop_last() =~= d.take(i - start));
            assert(longer.last() == c);
            assert forall|j: int| 0 <= j < longer.len() implies is_digit(#[trigger] longer[j]) by {
                if j < i - start {
                    assert(longer[j] == d.take(i - start)[j]);
                }
            }
        }
        acc = acc * 10 + (c as u64 - '0' as u64);
        if acc > u32::MAX as u64 {
            proof {
                if all_digits(d) {
                    lemma_digits_value_prefix(d, i - start + 1);
                }
            }
            return None;
        }
        i = i + 1;
    }
    proof {
        assert(d.take(i - start) =~= d);
    }
    Some(acc as u32)
}

/// Finds the first `c` among the characters of `chars` from `from` up to
/// `to`: its index, or `to` where there is none.
pub fn find_char(chars: &Vec<char>, from: usize, to: usize, c: char) -> (at: usize)
    requires
        from <= to <= chars.len(),
    ensures
        from <= at <= to,
        at - from == first_index(chars@.subrange(from as int, to as int), c),
        forall|j: int| from <= j < at ==> chars@[j] != c,
        at < to ==> chars@[at as int] == c,
{
    let mut i: usize = from;
    while i < to && chars[i] != c
        invariant
            from <= i <= to <= chars.len(),
            forall|j: int| from <= j < i ==> chars@[j] != c,
        decreases to - i,
    {
        i = i + 1;
    }
    proof {
        lemma_first_index_is(chars@.subrange(from as int, to as int), c, i - from);
    }
    i
}

/// Reads the characters of `chars` from `from` up to `to` as clock text.
pub fn read_clock(chars: &Vec<char>, from: usize, to: usize) -> (r: Option<ClockTime>)
    requires
        from <= to <= chars.len(),
    ensures
        r == clock_fields(chars@.subrange(from as int, to as int)),
{
    let ghost text = chars@.subrange(from as int, to as int);
    let i = find_char(chars, from, to, ':');
    if i == to {
        return None;
    }
    proof {
        assert(text.take(i - from) =~= chars@.subrange(from as int, i as int));
        assert(text.skip(i - from + 1) =~= chars@.subrange(i + 1, to as int));
    }
    let hour = read_numeral(chars, from, i);
    let minute = read_numeral(chars, i + 1, to);
    match (hour, minute) {
        (Some(hour), Some(minute)) => Some(ClockTime { hour, minute }),
        _ => None,
    }
}

/// Reads the characters of `chars` from `from` up to `to` as clock text,
/// malformed text as midnight.
pub fn read_clock_lenient(chars: &Vec<char>, from: usize, to: usize) -> (time: ClockTime)
    requires
        from <= to <= chars.len(),
    ensures
        time == lenient_time(chars@.subrange(from as int, to as int)),
{
    match read_clock(chars, from, to) {
        Some(time) => time,
        None => ClockTime { hour: 0, minute: 0 },
    }
}

/// Reads `text` as clock text.
pub fn parse_clock(text: &str) -> (r: Option<ClockTime>)
    ensures
        r == clock_fields(text@),
{
    let chars = text_chars(text);
    proof {
        assert(chars@.subrange(0, chars.len() as int) =~= chars@);
    }
    read_clock(&chars, 0, chars.len())
}

/// How malformed clock text is read.
#[derive(Debug, Clone, Copy, PartialEq, Eq, Structural)]
pub enum ClockParse {
    /// Malformed text stands for midnight.
    LenientZero,
    /// Malformed text has no time.
    Strict,
}

impl Default for ClockParse {
    fn default() -> (mode: Self)
        ensures
            mode == ClockParse::LenientZero,
    {
        ClockParse::LenientZero
    }
}

/// The minutes since midnight that `mode` reads in `text`.
pub open spec fn read_minutes(mode: ClockParse, text: Seq<char>) -> Option<nat> {
    match mode {
        ClockParse::LenientZero => Some(lenient_minutes(text)),
        ClockParse::Strict => strict_minutes(text),
    }
}

/// Reads `text` as minutes since midnight, `None` for malformed text.
pub fn parse_strict(text: &str) -> (r: Option<u64>)
    ensures
        r is Some == strict_minutes(text@) is Some,
        r matches Some(t) ==> strict_minutes(text@) == Some(t as nat),
{
    match parse_clock(text) {
        Some(time) => Some(time.minutes_since_midnight()),
        None => None,
    }
}

/// Reads `text` as minutes since midnight, midnight for malformed text.
pub fn parse_lenient(text: &str) -> (t: u64)
    ensures
        t == lenient_minutes(text@),
{
    match parse_strict(text) {
        Some(t) => t,
        None => 0,
    }
}

/// Reads `text` as `mode` says.
pub fn parse_minutes(mode: ClockParse, text: &str) -> (r: Option<u64>)
    ensures
        r is Some == read_minutes(mode, text@) is Some,
        r matches Some(t) ==> read_minutes(mode, text@) == Some(t as nat),
{
    match mode {
        ClockParse::LenientZero => Some(parse_lenient(text)),
        ClockParse::Strict => parse_strict(text),
    }
}

} // verus!
