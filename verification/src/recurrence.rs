//! Recurrence rules of a schedule.
//!
//! What a rule means belongs to `rrule`. A rule set is handed to it as a text of
//! two lines: a start with its time zone, and the rule.
use std::str::FromStr;

use chrono::{DateTime, Timelike};
use rrule::RRuleSet;
use vstd::prelude::*;
use vstd::string::StringExecFns;

use crate::calendar;
use crate::calendar::{
    format_reading, ClockReading, Timezone, UtcInstant, RRULE_DATE_TIME_FORMAT,
};
use crate::number;
use crate::text;
use crate::text::{chars_of, copy_of, str_eq, string_of};
use crate::words;

verus! {

/// The name of a property, with its letters as in lower case. The dotless i has
/// the upper case of the letter i.
pub open spec fn folded(name: Seq<char>) -> Seq<char> {
    name.map_values(
        |c: char|
            if c == '\u{131}' {
                'i'
            } else {
                words::ascii_lower(c)
            },
    )
}

/// The number of lines of a rule. Those after the first are further properties
/// of the rule set.
pub open spec fn line_count(rule: Seq<char>) -> nat {
    words::pieces(rule, '\n').len()
}

/// A line of a rule, without what ends it.
pub open spec fn line_of(rule: Seq<char>, l: int) -> Seq<char> {
    let line = words::pieces(rule, '\n')[l];
    if l + 1 < line_count(rule) && line.len() > 0 && line.last() == '\r' {
        line.drop_last()
    } else {
        line
    }
}

/// The value that a line of a rule gives: the first line, and what follows the
/// first colon of another, or all of it where it has none.
pub open spec fn value_of(rule: Seq<char>, l: int) -> Seq<char> {
    let line = line_of(rule, l);
    if l == 0 {
        line
    } else {
        match words::split_first(line, ':') {
            Some((_, value)) => value,
            None => line,
        }
    }
}

/// The parts of the value of a line.
pub open spec fn parts_of(rule: Seq<char>, l: int) -> Seq<Seq<char>> {
    words::pieces(value_of(rule, l), ';')
}

/// The value of a part, where the part has the given name.
pub open spec fn value_if_named(part: Seq<char>, name: Seq<char>) -> Option<Seq<char>> {
    match words::split_first(part, '=') {
        Some((given, value)) => if folded(given) == name {
            Some(value)
        } else {
            None
        },
        None => None,
    }
}

/// Whether UTF-8 writes a character in one byte.
pub open spec fn one_byte(c: char) -> bool {
    c <= '\u{7f}'
}

/// Whether UTF-8 writes a character in at most two bytes.
pub open spec fn two_bytes_at_most(c: char) -> bool {
    c <= '\u{7ff}'
}

/// Whether the last two bytes of a text are whole characters, or it has fewer.
pub open spec fn ends_cleanly(s: Seq<char>) -> bool {
    if s.len() == 0 {
        true
    } else if one_byte(s.last()) {
        s.len() == 1 || one_byte(s[s.len() - 2])
    } else {
        two_bytes_at_most(s.last())
    }
}

/// Whether each item of a list with commas ends cleanly.
pub open spec fn items_end_cleanly(list: Seq<char>) -> bool {
    forall|k: int|
        0 <= k < words::pieces(list, ',').len() ==> ends_cleanly(
            #[trigger] words::pieces(list, ',')[k],
        )
}

/// Whether a part can be read without a panic: where it lists weekdays, the name
/// of each is taken to be its last two bytes, and a cut inside a character is a
/// panic.
pub open spec fn part_cuts_cleanly(part: Seq<char>) -> bool {
    &&& value_if_named(part, "byday"@) matches Some(list) ==> items_end_cleanly(list)
    &&& value_if_named(part, "byweekday"@) matches Some(list) ==> items_end_cleanly(list)
}

/// Whether the parts of a line can be read without a panic.
pub open spec fn line_cuts_cleanly(rule: Seq<char>, l: int) -> bool {
    forall|p: int|
        0 <= p < parts_of(rule, l).len() ==> part_cuts_cleanly(#[trigger] parts_of(rule, l)[p])
}

/// Whether the weekdays of a rule can be cut out of it.
pub open spec fn weekdays_cut_cleanly(rule: Seq<char>) -> bool {
    forall|l: int| 0 <= l < line_count(rule) ==> #[trigger] line_cuts_cleanly(rule, l)
}

/// Whether a text is a date, or a date and a time, without a time zone. Outside
/// of a start it is read in the machine's time zone.
pub open spec fn is_zoneless(s: Seq<char>) -> bool {
    ||| s.len() == 8 && number::all_digits(s)
    ||| {
        &&& s.len() == 15
        &&& number::all_digits(s.subrange(0, 8))
        &&& s[8] == 'T'
        &&& number::all_digits(s.subrange(9, 15))
    }
}

/// Whether a part ends a rule at a date without a time zone.
pub open spec fn ends_zoneless(part: Seq<char>) -> bool {
    value_if_named(part, "until"@) matches Some(value) && is_zoneless(value)
}

/// Whether a line ends a rule at a date without a time zone.
pub open spec fn line_ends_zoneless(rule: Seq<char>, l: int) -> bool {
    exists|p: int|
        0 <= p < parts_of(rule, l).len() && ends_zoneless(#[trigger] parts_of(rule, l)[p])
}

/// Whether a line lists a date without a time zone.
pub open spec fn lists_zoneless(rule: Seq<char>, l: int) -> bool {
    let items = words::pieces(value_of(rule, l), ',');
    exists|k: int| 0 <= k < items.len() && is_zoneless(#[trigger] items[k])
}

/// Whether a rule ends at a date without a time zone. With a start in a named
/// zone it is refused, on every machine.
pub open spec fn zoneless_until(rule: Seq<char>) -> bool {
    line_ends_zoneless(rule, 0)
}

/// Whether a rule means the same on every machine: no line ends it at a date
/// without a time zone, and no line after the first lists such a date.
pub open spec fn steady_rule(rule: Seq<char>) -> bool {
    forall|l: int|
        0 <= l < line_count(rule) ==> !(#[trigger] line_ends_zoneless(rule, l)) && (l > 0
            ==> !lists_zoneless(rule, l))
}

/// The text of a rule set: its start in a time zone, and its rule.
pub open spec fn rule_set_text(zone: Seq<char>, start: ClockReading, rule: Seq<char>) -> Seq<char> {
    "DTSTART;TZID="@ + zone + ":"@ + calendar::formatted_reading(start, RRULE_DATE_TIME_FORMAT@)
        + "\nRRULE:"@ + rule
}

/// Whether `text` is that of a rule set with the given rule.
pub open spec fn sets_rule(text: Seq<char>, rule: Seq<char>) -> bool {
    exists|zone: Seq<char>, start: ClockReading|
        {
            &&& calendar::known_timezone(zone)
            &&& calendar::in_calendar(start.secs as int, start.nanos as int)
            &&& text == #[trigger] rule_set_text(zone, start, rule)
        }
}

/// What is wrong with a rule set, if anything is.
pub uninterp spec fn rule_set_fault(rule_set: Seq<char>) -> Option<Seq<char>>;

/// Calls `RRuleSet::from_str`, which reads and validates a rule set, and gives
/// the text of the error. A rule that ends at a date without a time zone is
/// refused, since the start has a named zone and the end has the machine's; in
/// which words depends on the machine. For any other rule that depends on the
/// machine nothing is claimed of the outcome.
#[verifier::external_body]
fn find_fault(rule_set: &str) -> (r: Option<String>)
    requires
        exists|rule: Seq<char>| #[trigger]
            sets_rule(rule_set@, rule) && weekdays_cut_cleanly(rule),
    ensures
        forall|rule: Seq<char>| #[trigger]
            sets_rule(rule_set@, rule) && steady_rule(rule) ==> text::opt_view(r)
                == rule_set_fault(rule_set@),
        forall|rule: Seq<char>| #[trigger]
            sets_rule(rule_set@, rule) && zoneless_until(rule) ==> r is Some,
{
    RRuleSet::from_str(rule_set).err().map(|err| err.to_string())
}

/// The timestamp of the first occurrence of a rule set that is not before a
/// moment, seen from a time zone.
pub uninterp spec fn first_occurrence(
    rule_set: Seq<char>,
    zone: Seq<char>,
    secs: int,
    frac: int,
) -> Option<i64>;

/// What a search in a rule set gives: the text of what is wrong with the rule
/// set, else its first occurrence that is not before a moment.
pub open spec fn search_result(rule_set: Seq<char>, zone: Seq<char>, from: calendar::Moment) -> Result<
    Option<i64>,
    Seq<char>,
> {
    match rule_set_fault(rule_set) {
        Some(fault) => Err(fault),
        None => Ok(first_occurrence(rule_set, zone, from.secs, from.frac)),
    }
}

/// Calls `RRuleSet::after` and `RRuleSet::all` with a limit of one date, on the
/// rule set that `RRuleSet::from_str` reads. They give the first occurrence that
/// is not before the given instant. A rule that ends at a date without a time
/// zone is refused. For any other rule that depends on the machine no more than
/// that is claimed.
#[verifier::external_body]
fn search(rule_set: &str, zone: &str, secs: i64, nanos: u32) -> (r: Result<Option<i64>, String>)
    requires
        exists|rule: Seq<char>| #[trigger]
            sets_rule(rule_set@, rule) && weekdays_cut_cleanly(rule),
        calendar::known_timezone(zone@),
        calendar::in_calendar(secs as int, nanos as int),
    ensures
        r matches Ok(Some(found)) ==> secs <= found,
        forall|rule: Seq<char>| #[trigger]
            sets_rule(rule_set@, rule) && steady_rule(rule) ==> text::error_view(r) == (
            match rule_set_fault(rule_set@) {
                Some(fault) => Err(fault),
                None => Ok(first_occurrence(rule_set@, zone@, secs as int, nanos as int)),
            }),
        forall|rule: Seq<char>| #[trigger]
            sets_rule(rule_set@, rule) && zoneless_until(rule) ==> r is Err,
{
    let zone = rrule::Tz::Tz(chrono_tz::Tz::from_str(zone).unwrap());
    let from = DateTime::from_timestamp(secs, 0).unwrap().naive_utc();
    let from = from.with_nanosecond(nanos).unwrap().and_utc();
    let rule_set = RRuleSet::from_str(rule_set).map_err(|err| err.to_string())?;
    let found = rule_set.after(from.with_timezone(&zone)).all(1);
    Ok(found.dates.into_iter().next().map(|next| next.timestamp()))
}

/// Writes the text of a rule set.
fn write_rule_set(zone: &Timezone, start: ClockReading, rule: &str) -> (r: String)
    requires
        calendar::in_calendar(start.secs as int, start.nanos as int),
    ensures
        r@ == rule_set_text(zone@, start, rule@),
        sets_rule(r@, rule@),
{
    let mut r = copy_of("DTSTART;TZID=");
    r.append(zone.name());
    r.append(":");
    r.append(format_reading(start, RRULE_DATE_TIME_FORMAT).as_str());
    r.append("\nRRULE:");
    r.append(rule);
    assert(r@ == rule_set_text(zone@, start, rule@));
    r
}

/// Checks the rule set with the given start and rule, and gives what is wrong
/// with it, if anything is.
pub fn fault_of(zone: &Timezone, start: ClockReading, rule: &str) -> (r: Option<String>)
    requires
        calendar::in_calendar(start.secs as int, start.nanos as int),
        weekdays_cut_cleanly(rule@),
    ensures
        steady_rule(rule@) ==> text::opt_view(r) == rule_set_fault(
            rule_set_text(zone@, start, rule@),
        ),
        zoneless_until(rule@) ==> r is Some,
{
    let rule_set = write_rule_set(zone, start, rule);
    find_fault(rule_set.as_str())
}

/// Searches the rule set with the given start and rule for its first occurrence
/// that is not before `from`.
pub fn occurrence_from(zone: &Timezone, start: ClockReading, rule: &str, from: UtcInstant) -> (r:
    Result<Option<i64>, String>)
    requires
        calendar::in_calendar(start.secs as int, start.nanos as int),
        weekdays_cut_cleanly(rule@),
    ensures
        r matches Ok(Some(found)) ==> from@.secs <= found,
        steady_rule(rule@) ==> text::error_view(r) == search_result(
            rule_set_text(zone@, start, rule@),
            zone@,
            from@,
        ),
        zoneless_until(rule@) ==> r is Err,
{
    let rule_set = write_rule_set(zone, start, rule);
    let secs: i64 = from.timestamp();
    search(rule_set.as_str(), zone.name(), secs, from.nanos())
}

fn fold(name: &str) -> (r: Vec<char>)
    ensures
        r@ == folded(name@),
{
    let lower = chars_of(words::str_ascii_lowercase(name).as_str());
    let mut r: Vec<char> = Vec::new();
    let mut i: usize = 0;
    while i < lower.len()
        invariant
            i <= lower@.len(),
            lower@ == words::ascii_lowercase(name@),
            r@.len() == i,
            forall|k: int| 0 <= k < i ==> r@[k] == #[trigger] folded(name@)[k],
        decreases lower@.len() - i,
    {
        let c: char = lower[i];
        assert(c == words::ascii_lower(name@[i as int]));
        r.push(
            if c == '\u{131}' {
                'i'
            } else {
                c
            },
        );
        i = i + 1;
    }
    assert(r@ =~= folded(name@));
    r
}

/// The value of a part, where the part has the given name.
fn find_named(part: &str, name: &str) -> (r: Option<String>)
    ensures
        text::opt_view(r) == value_if_named(part@, name@),
{
    match words::str_split_first(part, '=') {
        Some((given, value)) => {
            let folded_name = fold(given.as_str());
            let folded_text = string_of(&folded_name, 0, folded_name.len());
            assert(folded_text@ =~= folded(given@));
            if str_eq(folded_text.as_str(), name) {
                Some(value)
            } else {
                None
            }
        },
        None => None,
    }
}

fn item_is_clean(item: &str) -> (r: bool)
    ensures
        r == ends_cleanly(item@),
{
    let chars = chars_of(item);
    let n: usize = chars.len();
    if n == 0 {
        true
    } else if chars[n - 1] <= '\u{7f}' {
        n == 1 || chars[n - 2] <= '\u{7f}'
    } else {
        chars[n - 1] <= '\u{7ff}'
    }
}

fn list_is_clean(list: &str) -> (r: bool)
    ensures
        r == items_end_cleanly(list@),
{
    let items = words::str_pieces(list, ',');
    let ghost all = words::pieces(list@, ',');
    let mut k: usize = 0;
    while k < items.len()
        invariant
            k <= items@.len(),
            all == words::pieces(list@, ','),
            text::views(items@) == all,
            forall|j: int| 0 <= j < k ==> ends_cleanly(#[trigger] all[j]),
        decreases items@.len() - k,
    {
        assert(all[k as int] == items@[k as int]@);
        if !item_is_clean(items[k].as_str()) {
            return false;
        }
        k = k + 1;
    }
    true
}

fn part_is_clean(part: &str) -> (r: bool)
    ensures
        r == part_cuts_cleanly(part@),
{
    if let Some(list) = find_named(part, "byday") {
        if !list_is_clean(list.as_str()) {
            return false;
        }
    }
    match find_named(part, "byweekday") {
        Some(list) => list_is_clean(list.as_str()),
        None => true,
    }
}

/// The value that a line of a rule gives, out of the lines with what ends them.
fn find_value(lines: &Vec<String>, l: usize, Ghost(rule): Ghost<Seq<char>>) -> (r: String)
    requires
        text::views(lines@) == words::pieces(rule, '\n'),
        l < lines@.len(),
    ensures
        r@ == value_of(rule, l as int),
{
    let mut chars = chars_of(lines[l].as_str());
    assert(chars@ == words::pieces(rule, '\n')[l as int]);
    if lines.len() - l > 1 && chars.len() > 0 && chars[chars.len() - 1] == '\r' {
        let ghost whole = chars@;
        let dropped = chars.pop();
        assert(chars@ =~= whole.drop_last());
    }
    let line = string_of(&chars, 0, chars.len());
    assert(line@ =~= line_of(rule, l as int));
    if l == 0 {
        return line;
    }
    match words::str_split_first(line.as_str(), ':') {
        Some((_, value)) => value,
        None => line,
    }
}

/// Whether the weekdays of a rule can be cut out of it.
pub fn has_clean_weekdays(rule: &str) -> (r: bool)
    ensures
        r == weekdays_cut_cleanly(rule@),
{
    let lines = words::str_pieces(rule, '\n');
    let mut l: usize = 0;
    while l < lines.len()
        invariant
            l <= lines@.len(),
            text::views(lines@) == words::pieces(rule@, '\n'),
            forall|j: int| 0 <= j < l ==> #[trigger] line_cuts_cleanly(rule@, j),
        decreases lines@.len() - l,
    {
        let value = find_value(&lines, l, Ghost(rule@));
        let parts = words::str_pieces(value.as_str(), ';');
        let ghost all = parts_of(rule@, l as int);
        let mut p: usize = 0;
        while p < parts.len()
            invariant
                p <= parts@.len(),
                l < lines@.len(),
                text::views(lines@) == words::pieces(rule@, '\n'),
                all == parts_of(rule@, l as int),
                text::views(parts@) == all,
                forall|j: int| 0 <= j < p ==> part_cuts_cleanly(#[trigger] all[j]),
            decreases parts@.len() - p,
        {
            assert(all[p as int] == parts@[p as int]@);
            if !part_is_clean(parts[p].as_str()) {
                assert(!line_cuts_cleanly(rule@, l as int));
                return false;
            }
            p = p + 1;
        }
        assert(line_cuts_cleanly(rule@, l as int));
        l = l + 1;
    }
    true
}

} // verus!
