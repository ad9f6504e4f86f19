//! Duration text of the form `hours:minutes:seconds`.
//!
//! The text is cut at its colons.  Each of the first three parts is a number in decimal digits,
//! and the duration is their weighted sum in seconds.  No part is held to a range: `0:90:90` is
//! ninety minutes and ninety seconds, 5490 seconds in all.

use vstd::prelude::*;

verus! {

/// Seconds in one hour.
pub const SECONDS_PER_HOUR: u64 = 3600;

/// Seconds in one minute.
pub const SECONDS_PER_MINUTE: u64 = 60;

/// Whether `c` is one of the ten decimal digits.
pub open spec fn is_decimal_digit(c: char) -> bool {
    '0' <= c && c <= '9'
}

/// What the digit `c` counts for; zero for any other character.
pub open spec fn digit_value(c: char) -> nat {
    if is_decimal_digit(c) {
        (c as int - '0' as int) as nat
    } else {
        0
    }
}

/// The number that a run of decimal digits denotes, most significant digit first.
pub open spec fn decimal_value(digits: Seq<char>) -> nat
    decreases digits.len(),
{
    if digits.len() == 0 {
        0
    } else {
        decimal_value(digits.drop_last()) * 10 + digit_value(digits.last())
    }
}

/// The digit that counts for `d`, for `d` below ten.
pub open spec fn digit_char(d: nat) -> char {
    ('0' as int + d) as char
}

/// The decimal digits of `n`, most significant digit first and without needless zeros.
pub open spec fn decimal_text(n: nat) -> Seq<char>
    decreases n,
{
    if n < 10 {
        seq![digit_char(n)]
    } else {
        decimal_text(n / 10).push(digit_char(n % 10))
    }
}

/// Whether `digits` is a non-empty run of decimal digits.
pub open spec fn is_digit_run(digits: Seq<char>) -> bool {
    &&& digits.len() > 0
    &&& forall|i: int| 0 <= i < digits.len() ==> is_decimal_digit(#[trigger] digits[i])
}

/// `part` without the one plus sign that may lead it.
pub open spec fn unsigned_digits(part: Seq<char>) -> Seq<char> {
    if part.len() > 0 && part[0] == '+' {
        part.skip(1)
    } else {
        part
    }
}

/// The number that `part` denotes: an optional plus sign, then a non-empty run of decimal
/// digits whose value fits in 64 bits.  Anything else denotes no number.
pub open spec fn number_of(part: Seq<char>) -> Option<u64> {
    let digits = unsigned_digits(part);
    if is_digit_run(digits) && decimal_value(digits) <= u64::MAX {
        Some(decimal_value(digits) as u64)
    } else {
        None
    }
}

/// Whether `text` holds no colon.
pub open spec fn colon_free(text: Seq<char>) -> bool {
    forall|i: int| 0 <= i < text.len() ==> #[trigger] text[i] != ':'
}

/// How many colons `text` holds.
pub open spec fn colon_count(text: Seq<char>) -> nat {
    text.filter(|c: char| c == ':').len()
}

/// Where the first colon of `text` stands; the length of `text` if it holds none.
pub open spec fn colon_index(text: Seq<char>) -> nat
    decreases text.len(),
{
    if text.len() == 0 || text[0] == ':' {
        0
    } else {
        1 + colon_index(text.skip(1))
    }
}

/// The parts of `text` between its colons, in order.  Text with `n` colons has `n + 1` parts,
/// some of them possibly empty.
pub open spec fn colon_parts(text: Seq<char>) -> Seq<Seq<char>>
    decreases text.len(),
{
    let k = colon_index(text) as int;
    if k >= text.len() {
        seq![text]
    } else {
        seq![text.take(k)] + colon_parts(text.skip(k + 1))
    }
}

/// Hours, minutes and seconds as one count of seconds, where that count fits in 64 bits.
pub open spec fn total_seconds(hours: u64, minutes: u64, seconds: u64) -> Option<u64> {
    let total = hours * SECONDS_PER_HOUR + minutes * SECONDS_PER_MINUTE + seconds;
    if total <= u64::MAX {
        Some(total as u64)
    } else {
        None
    }
}

/// The duration in seconds that `text` denotes.
///
/// The text needs at least three colon-separated parts, and each of the first three has to
/// denote a number.  Parts after the third are not looked at.  A total beyond 64 bits denotes
/// no duration.
pub open spec fn duration_seconds(text: Seq<char>) -> Option<u64> {
    let parts = colon_parts(text);
    if parts.len() < 3 {
        None
    } else {
        match (number_of(parts[0]), number_of(parts[1]), number_of(parts[2])) {
            (Some(hours), Some(minutes), Some(seconds)) => total_seconds(hours, minutes, seconds),
            _ => None,
        }
    }
}

/// Reads duration text of the form `hours:minutes:seconds` as a count of seconds.
///
/// Each of the three parts is an optional plus sign followed by decimal digits, and none is
/// held to a range: `0:90:90` gives 5490.  Parts after the third are not looked at.  The result
/// is `None` where the text has fewer than three parts, where one of the first three is not such
/// a number, and where the count of seconds does not fit in 64 bits.
pub fn parse_duration(text: &str) -> (seconds: Option<u64>)
    ensures
        seconds == duration_seconds(text@),
{
    let chars = characters(text);
    let len = chars.len();
    let hours_end = part_end(&chars, 0);
    proof {
        assert(chars@.skip(0) == text@);
        lemma_first_part(text@, hours_end as int);
    }
    if hours_end >= len {
        return None;
    }
    let minutes_start: usize = hours_end + 1;
    let minutes_end = part_end(&chars, minutes_start);
    let ghost after_hours = text@.skip(minutes_start as int);
    proof {
        lemma_first_part(after_hours, minutes_end - minutes_start);
    }
    if minutes_end >= len {
        return None;
    }
    let seconds_start: usize = minutes_end + 1;
    let seconds_end = part_end(&chars, seconds_start);
    let ghost after_minutes = text@.skip(seconds_start as int);
    proof {
        assert(after_hours.skip(seconds_start - minutes_start) == after_minutes);
        lemma_first_part(after_minutes, seconds_end - seconds_start);
        let parts = colon_parts(text@);
        assert(parts[0] == chars@.subrange(0, hours_end as int));
        assert(parts[1] == chars@.subrange(minutes_start as int, minutes_end as int));
        assert(parts[2] == chars@.subrange(seconds_start as int, seconds_end as int));
    }
    let hours = match read_number(&chars, 0, hours_end) {
        Some(hours) => hours,
        None => { return None; },
    };
    let minutes = match read_number(&chars, minutes_start, minutes_end) {
        Some(minutes) => minutes,
        None => { return None; },
    };
    let seconds = match read_number(&chars, seconds_start, seconds_end) {
        Some(seconds) => seconds,
        None => { return None; },
    };
    combine(hours, minutes, seconds)
}

/// Reads the duration text that `duration` holds, as [`parse_duration`] does.
pub fn from_string_duration(duration: String) -> (seconds: Option<u64>)
    ensures
        seconds == duration_seconds(duration@),
{
    parse_duration(duration.as_str())
}

/// The characters of `text`, in order.
fn characters(text: &str) -> (chars: Vec<char>)
    ensures
        chars@ == text@,
{
    let mut chars: Vec<char> = Vec::new();
    for c in it: text.chars()
        invariant
            it.seq() == text@,
            chars@ == text@.take(it.index()),
    {
        chars.push(c);
    }
    chars
}

/// Where the part of `chars` that begins at `start` ends.
fn part_end(chars: &Vec<char>, start: usize) -> (end: usize)
    requires
        start <= chars.len(),
    ensures
        start <= end <= chars.len(),
        ends_first_part(chars@.skip(start as int), end - start),
{
    let mut end: usize = start;
    while end < chars.len() && chars[end] != ':'
        invariant
            start <= end <= chars.len(),
            colon_free(chars@.subrange(start as int, end as int)),
        decreases chars.len() - end,
    {
        end += 1;
    }
    end
}

/// The number that the characters of `chars` from `start` up to `end` denote.
fn read_number(chars: &Vec<char>, start: usize, end: usize) -> (value: Option<u64>)
    requires
        start <= end <= chars.len(),
    ensures
        value == number_of(chars@.subrange(start as int, end as int)),
{
    let first: usize = if start < end && chars[start] == '+' {
        start + 1
    } else {
        start
    };
    let ghost digits = chars@.subrange(first as int, end as int);
    if first == end {
        return None;
    }
    let mut value: u64 = 0;
    let mut i: usize = first;
    while i < end
        invariant
            first <= i <= end <= chars.len(),
            digits == unsigned_digits(chars@.subrange(start as int, end as int)),
            digits == chars@.subrange(first as int, end as int),
            forall|j: int| 0 <= j < i - first ==> is_decimal_digit(#[trigger] digits[j]),
            value == decimal_value(digits.take(i - first)),
        decreases end - i,
    {
        let c = chars[i];
        if c < '0' || c > '9' {
            assert(!is_decimal_digit(digits[i - first]));
            return None;
        }
        let digit: u64 = (c as u32 - '0' as u32) as u64;
        proof {
            let longer = digits.take(i - first + 1);
            assert(longer.drop_last() == digits.take(i - first));
            lemma_decimal_value_prefix(digits, i - first + 1);
        }
        let scaled: u64 = match value.checked_mul(10) {
            Some(scaled) => scaled,
            None => { return None; },
        };
        value = match scaled.checked_add(digit) {
            Some(longer) => longer,
            None => { return None; },
        };
        i += 1;
    }
    assert(digits.take(i - first) == digits);
    Some(value)
}

/// Hours, minutes and seconds as one count of seconds; `None` where it does not fit in 64 bits.
fn combine(hours: u64, minutes: u64, seconds: u64) -> (total: Option<u64>)
    ensures
        total == total_seconds(hours, minutes, seconds),
{
    let from_hours = match hours.checked_mul(SECONDS_PER_HOUR) {
        Some(from_hours) => from_hours,
        None => { return None; },
    };
    let from_minutes = match minutes.checked_mul(SECONDS_PER_MINUTE) {
        Some(from_minutes) => from_minutes,
        None => { return None; },
    };
    let above_seconds = match from_hours.checked_add(from_minutes) {
        Some(above_seconds) => above_seconds,
        None => { return None; },
    };
    above_seconds.checked_add(seconds)
}

/// Three numbers joined by colons denote the duration
/// `hours * 3600 + minutes * 60 + seconds`, however large each of them is, as long as that
/// many seconds fit in 64 bits.
pub proof fn law_duration_is_weighted_sum(hours: Seq<char>, minutes: Seq<char>, seconds: Seq<char>)
    requires
        number_of(hours) is Some,
        number_of(minutes) is Some,
        number_of(seconds) is Some,
        number_of(hours)->0 * 3600 + number_of(minutes)->0 * 60 + number_of(seconds)->0
            <= u64::MAX,
    ensures
        duration_seconds(hours + seq![':'] + minutes + seq![':'] + seconds) matches Some(total)
            && total == number_of(hours)->0 * 3600 + number_of(minutes)->0 * 60
            + number_of(seconds)->0,
{
    let colon = seq![':'];
    let text = hours + colon + minutes + colon + seconds;
    let after_hours = minutes + colon + seconds;
    lemma_number_is_colon_free(hours);
    lemma_number_is_colon_free(minutes);
    lemma_number_is_colon_free(seconds);
    assert(text == hours + colon + after_hours);
    lemma_parts_of_joined(hours, after_hours);
    lemma_parts_of_joined(minutes, seconds);
    lemma_first_part(seconds, seconds.len() as int);
}

/// The decimal digits of a number denote that number.
pub proof fn law_number_of_decimal_text(n: u64)
    ensures
        number_of(decimal_text(n as nat)) == Some(n),
{
    lemma_decimal_text(n as nat);
}

/// Hours, minutes and seconds written in decimal digits and joined by colons denote
/// `hours * 3600 + minutes * 60 + seconds`, as long as that many seconds fit in 64 bits.
pub proof fn law_duration_of_numbers(hours: u64, minutes: u64, seconds: u64)
    requires
        hours * 3600 + minutes * 60 + seconds <= u64::MAX,
    ensures
        duration_seconds(
            decimal_text(hours as nat) + seq![':'] + decimal_text(minutes as nat) + seq![':']
                + decimal_text(seconds as nat),
        ) == Some((hours * 3600 + minutes * 60 + seconds) as u64),
{
    law_number_of_decimal_text(hours);
    law_number_of_decimal_text(minutes);
    law_number_of_decimal_text(seconds);
    law_duration_is_weighted_sum(
        decimal_text(hours as nat),
        decimal_text(minutes as nat),
        decimal_text(seconds as nat),
    );
}

/// Text has one part more than it has colons, and no part holds a colon.
pub proof fn law_parts_follow_colons(text: Seq<char>)
    ensures
        colon_parts(text).len() == colon_count(text) + 1,
        forall|i: int|
            0 <= i < colon_parts(text).len() ==> colon_free(#[trigger] colon_parts(text)[i]),
    decreases text.len(),
{
    let is_colon = |c: char| c == ':';
    let k = colon_index(text) as int;
    lemma_colon_index_ends_first_part(text);
    let first = text.take(k);
    assert(first.filter(is_colon).len() == 0) by {
        first.lemma_all_neg_filter_empty(is_colon);
    }
    if k >= text.len() {
        assert(first == text);
    } else {
        let rest = text.skip(k + 1);
        law_parts_follow_colons(rest);
        assert(text == first.push(':') + rest);
        Seq::filter_distributes_over_add(first.push(':'), rest, is_colon);
        first.lemma_filter_push(':', is_colon);
        let parts = colon_parts(text);
        assert forall|i: int| 0 <= i < parts.len() implies colon_free(#[trigger] parts[i]) by {
            if i > 0 {
                assert(parts[i] == colon_parts(rest)[i - 1]);
            }
        }
    }
}

/// Malformed text denotes no duration: text with fewer than two colons, which is text with
/// fewer than three parts, and text in which one of the first three parts is no number.
pub proof fn law_malformed_duration_fails(text: Seq<char>)
    requires
        ({
            ||| colon_count(text) < 2
            ||| colon_parts(text).len() < 3
            ||| number_of(colon_parts(text)[0]) is None
            ||| number_of(colon_parts(text)[1]) is None
            ||| number_of(colon_parts(text)[2]) is None
        }),
    ensures
        duration_seconds(text) is None,
{
    law_parts_follow_colons(text);
}

/// `k` is where the first colon of `text` stands, or its length if it holds none.
spec fn ends_first_part(text: Seq<char>, k: int) -> bool {
    &&& 0 <= k <= text.len()
    &&& colon_free(text.take(k))
    &&& k < text.len() ==> text[k] == ':'
}

/// Only one place is where the first colon stands.
proof fn lemma_colon_index(text: Seq<char>, k: int)
    requires
        ends_first_part(text, k),
    ensures
        colon_index(text) == k,
    decreases text.len(),
{
    if text.len() == 0 || text[0] == ':' {
        if k > 0 {
            assert(text.take(k)[0] == text[0]);
        }
    } else {
        let rest = text.skip(1);
        assert forall|i: int| 0 <= i < k - 1 implies #[trigger] rest.take(k - 1)[i] != ':' by {
            assert(text.take(k)[i + 1] == rest.take(k - 1)[i]);
        }
        lemma_colon_index(rest, k - 1);
    }
}

/// The first colon stands where no colon comes before it.
proof fn lemma_colon_index_ends_first_part(text: Seq<char>)
    ensures
        ends_first_part(text, colon_index(text) as int),
    decreases text.len(),
{
    if text.len() > 0 && text[0] != ':' {
        let rest = text.skip(1);
        let k = colon_index(rest) as int;
        lemma_colon_index_ends_first_part(rest);
        assert forall|i: int| 0 <= i < k + 1 implies #[trigger] text.take(k + 1)[i] != ':' by {
            if i > 0 {
                assert(rest.take(k)[i - 1] == text.take(k + 1)[i]);
            }
        }
    }
}

/// The first part of `text` ends at `k`; the other parts are those of what follows the colon.
proof fn lemma_first_part(text: Seq<char>, k: int)
    requires
        ends_first_part(text, k),
    ensures
        colon_parts(text)[0] == text.take(k),
        k == text.len() ==> colon_parts(text).len() == 1,
        k < text.len() ==> colon_parts(text) == seq![text.take(k)] + colon_parts(text.skip(k + 1)),
{
    lemma_colon_index(text, k);
}

/// A colon-free text followed by a colon has that text as its first part.
proof fn lemma_parts_of_joined(first: Seq<char>, rest: Seq<char>)
    requires
        colon_free(first),
    ensures
        colon_parts(first + seq![':'] + rest) == seq![first] + colon_parts(rest),
{
    let text = first + seq![':'] + rest;
    let k = first.len() as int;
    assert(text.take(k) == first);
    assert(text.skip(k + 1) == rest);
    lemma_first_part(text, k);
}

/// Text that denotes a number holds no colon.
proof fn lemma_number_is_colon_free(part: Seq<char>)
    requires
        number_of(part) is Some,
    ensures
        colon_free(part),
{
    let digits = unsigned_digits(part);
    assert forall|i: int| 0 <= i < part.len() implies #[trigger] part[i] != ':' by {
        if part[0] == '+' && i > 0 {
            assert(is_decimal_digit(digits[i - 1]));
        }
    }
}

/// The decimal digits of `n` are a run of digits whose value is `n`.
proof fn lemma_decimal_text(n: nat)
    ensures
        is_digit_run(decimal_text(n)),
        decimal_value(decimal_text(n)) == n,
    decreases n,
{
    let text = decimal_text(n);
    if n < 10 {
        assert(decimal_value(text.drop_last()) == 0);
    } else {
        lemma_decimal_text(n / 10);
        assert(text.drop_last() == decimal_text(n / 10));
    }
}

/// Digits that follow a run of digits never lower its value.
proof fn lemma_decimal_value_prefix(digits: Seq<char>, k: int)
    requires
        0 <= k <= digits.len(),
    ensures
        decimal_value(digits.take(k)) <= decimal_value(digits),
    decreases digits.len() - k,
{
    if k == digits.len() {
        assert(digits.take(k) == digits);
    } else {
        lemma_decimal_value_prefix(digits.drop_last(), k);
        assert(digits.drop_last().take(k) == digits.take(k));
    }
}

} // verus!
