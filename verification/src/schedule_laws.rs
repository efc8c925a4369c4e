//! When schedules run: what their timings are, in terms of what the calendar and
//! the recurrence rules say.
use vstd::prelude::*;

use crate::calendar;
use crate::calendar::{ClockReading, LocalResolution, Moment};
use crate::recurrence;
use crate::rule_laws;
use crate::text;
use crate::text_laws;
use crate::timing;
use crate::timing::TimingModel;
use crate::trigger::TriggerModel;

verus! {

/// The rule set of a schedule: its start in its zone, and its rule.
pub open spec fn rule_set(zone: Seq<char>, reading: ClockReading, rule: Seq<char>) -> Seq<char> {
    "DTSTART;TZID="@ + zone + ":"@ + calendar::formatted_reading(reading, "%Y%m%dT%H%M%S"@)
        + "\nRRULE:"@ + rule
}

/// The words in which a rule is refused.
pub open spec fn refusal(rule: Seq<char>, fault: Seq<char>) -> Seq<char> {
    "invalid schedule rrule `"@ + rule + "`: "@ + fault
}

/// Whether a text says something, and has no white space at its ends.
pub open spec fn is_proper(s: Seq<char>) -> bool {
    s.len() > 0 && !text::white_space(s[0]) && !text::white_space(s.last())
}

/// Whether a rule is one that every machine reads alike, and stands without the
/// name of its property.
pub open spec fn is_plain_rule(rule: Seq<char>) -> bool {
    &&& is_proper(rule)
    &&& rule_laws::dates_are_utc(rule)
    &&& !"RRULE:"@.is_prefix_of(rule)
    &&& !"rrule:"@.is_prefix_of(rule)
}

/// Whether a moment is inside the calendar, with a second on either side, and in
/// no leap second.
pub open spec fn is_plain_moment(m: Moment) -> bool {
    &&& -8_334_601_228_800 < m.secs < 8_210_266_876_799
    &&& 0 <= m.frac < 1_000_000_000
}

/// A schedule with a start and a rule.
pub open spec fn schedule(start: Seq<char>, rule: Seq<char>) -> TriggerModel {
    TriggerModel::Schedule { dtstart: Some(start), rrule: Some(rule) }
}

/// Whether a start is written as the given reading.
pub open spec fn reads_as(start: Seq<char>, reading: ClockReading) -> bool {
    calendar::parsed_reading(start, "%Y-%m-%dT%H:%M:%S"@) == Some(reading)
}

/// Whether a timer runs for the given number of seconds, or for none where that
/// is no number of 64 bits with a sign.
pub open spec fn waits(timer: Option<u64>, seconds: int) -> bool {
    if seconds <= 0x7fff_ffff_ffff_ffff {
        timer matches Some(delay) && delay == seconds
    } else {
        timer is None
    }
}

proof fn lemma_plain_rule(rule: Seq<char>, zone: Seq<char>, reading: ClockReading)
    requires
        is_plain_rule(rule),
    ensures
        timing::bare_rule(rule) == rule,
        recurrence::steady_rule(rule),
        recurrence::rule_set_text(zone, reading, timing::bare_rule(rule)) == rule_set(
            zone,
            reading,
            rule,
        ),
{
    rule_laws::utc_rules_are_steady(rule);
}

proof fn lemma_cleaned(lead: Seq<char>, s: Seq<char>, tail: Seq<char>)
    requires
        text::is_blank(lead),
        text::is_blank(tail),
        is_proper(s),
    ensures
        timing::cleaned(Some(lead + s + tail)) == Some(s),
{
    text::lemma_trim_around(lead, s, tail);
}

/// The occurrence of a schedule after a moment is the first of its rule set that
/// is not before one second later: none in between is passed over, and one in the
/// second of the moment itself is not found again.
pub proof fn search_goes_from_the_next_second(
    start: Seq<char>,
    reading: ClockReading,
    rule: Seq<char>,
    t: Moment,
    zone: Seq<char>,
    outcome: Result<Option<i64>, Seq<char>>,
)
    requires
        is_plain_rule(rule),
        is_plain_moment(t),
        reads_as(start, reading),
        timing::may_find_next(schedule(start, rule), t, zone, outcome),
    ensures
        match recurrence::rule_set_fault(rule_set(zone, reading, rule)) {
            None => outcome == Ok::<Option<i64>, Seq<char>>(
                recurrence::first_occurrence(
                    rule_set(zone, reading, rule),
                    zone,
                    t.secs + 1,
                    t.frac,
                ),
            ),
            Some(fault) => outcome == Err::<Option<i64>, Seq<char>>(refusal(rule, fault)),
        },
        outcome matches Ok(Some(found)) ==> found > t.secs,
{
    lemma_plain_rule(rule, zone, reading);
}

/// The occurrence of a schedule at or after a moment is the first of its rule set
/// that is not before that moment.
pub proof fn search_goes_from_the_moment(
    start: Seq<char>,
    reading: ClockReading,
    rule: Seq<char>,
    t: Moment,
    zone: Seq<char>,
    outcome: Result<Option<i64>, Seq<char>>,
)
    requires
        is_plain_rule(rule),
        is_plain_moment(t),
        reads_as(start, reading),
        timing::may_find_at_or_after(schedule(start, rule), t, zone, outcome),
    ensures
        match recurrence::rule_set_fault(rule_set(zone, reading, rule)) {
            None => outcome == Ok::<Option<i64>, Seq<char>>(
                recurrence::first_occurrence(rule_set(zone, reading, rule), zone, t.secs, t.frac),
            ),
            Some(fault) => outcome == Err::<Option<i64>, Seq<char>>(refusal(rule, fault)),
        },
        outcome matches Ok(Some(found)) ==> found >= t.secs,
{
    lemma_plain_rule(rule, zone, reading);
}

/// At the ends of the calendar and in leap seconds a search goes as near as the
/// calendar lets it: in the last second from the moment itself, out of a leap
/// second from the second after it.
pub proof fn search_goes_on_at_the_edges(
    start: Seq<char>,
    reading: ClockReading,
    rule: Seq<char>,
    t: Moment,
    zone: Seq<char>,
    outcome: Result<Option<i64>, Seq<char>>,
)
    requires
        is_plain_rule(rule),
        -8_334_601_228_800 <= t.secs <= 8_210_266_876_799,
        0 <= t.frac < 2_000_000_000,
        reads_as(start, reading),
        recurrence::rule_set_fault(rule_set(zone, reading, rule)) is None,
        timing::may_find_next(schedule(start, rule), t, zone, outcome),
    ensures
        ({
            let set = rule_set(zone, reading, rule);
            &&& t.secs == 8_210_266_876_799 ==> outcome == Ok::<Option<i64>, Seq<char>>(
                recurrence::first_occurrence(set, zone, t.secs, t.frac),
            )
            &&& t.secs < 8_210_266_876_799 && t.frac < 1_000_000_000 ==> outcome == Ok::<
                Option<i64>,
                Seq<char>,
            >(recurrence::first_occurrence(set, zone, t.secs + 1, t.frac))
            &&& t.secs < 8_210_266_876_799 && t.frac >= 1_000_000_000 ==> outcome == Ok::<
                Option<i64>,
                Seq<char>,
            >(recurrence::first_occurrence(set, zone, t.secs + 1, t.frac - 1_000_000_000))
        }),
{
    lemma_plain_rule(rule, zone, reading);
}

/// Whatever the rule, a search never finds a moment that is not after the given
/// one, fails only by refusing the rule, and refuses a start that is not one.
pub proof fn search_finds_only_later_moments(
    start: Seq<char>,
    rule: Seq<char>,
    t: Moment,
    zone: Seq<char>,
    outcome: Result<Option<i64>, Seq<char>>,
)
    requires
        is_plain_moment(t),
        timing::may_find_next(schedule(start, rule), t, zone, outcome),
    ensures
        outcome matches Ok(Some(found)) ==> found > t.secs,
        calendar::parsed_reading(start, "%Y-%m-%dT%H:%M:%S"@) is None ==> outcome == Err::<
            Option<i64>,
            Seq<char>,
        >("schedule dtstart `"@ + start + "` must use format YYYY-MM-DDTHH:MM:SS"@),
        calendar::parsed_reading(start, "%Y-%m-%dT%H:%M:%S"@) is Some ==> (outcome matches Err(e)
            ==> exists|fault: Seq<char>| e == #[trigger] refusal(rule, fault)),
{
    if let Err(e) = outcome {
        if calendar::parsed_reading(start, "%Y-%m-%dT%H:%M:%S"@) is Some {
            let fault = choose|fault: Seq<char>| e == #[trigger] timing::refused_rule_text(rule, fault);
            assert(e == refusal(rule, fault));
        }
    }
}

/// A rule that ends at a date without a time zone is refused, wherever its end
/// stands.
pub proof fn ends_without_zone_are_refused(
    start: Seq<char>,
    reading: ClockReading,
    front: Seq<char>,
    name: Seq<char>,
    end: Seq<char>,
    back: Seq<char>,
    t: Moment,
    zone: Seq<char>,
    outcome: Result<Option<i64>, Seq<char>>,
)
    requires
        text_laws::lacks(front, '\n'),
        text_laws::lacks(back, '\n'),
        front.len() == 0 || front.last() == ';',
        back.len() == 0 || back[0] == ';',
        crate::words::ascii_lowercase(name) == "until"@,
        (end.len() == 8 && rule_laws::digits_at(end, 0, 8)) || (end.len() == 15
            && rule_laws::digits_at(end, 0, 8) && end[8] == 'T' && rule_laws::digits_at(end, 9, 6)),
        !"RRULE:"@.is_prefix_of(front + name.push('=') + end + back),
        !"rrule:"@.is_prefix_of(front + name.push('=') + end + back),
        reads_as(start, reading),
        timing::may_find_next(schedule(start, front + name.push('=') + end + back), t, zone, outcome),
    ensures
        outcome is Err,
{
    rule_laws::ends_without_zone_are_seen(front, name, end, back);
}

/// The outcome of normalizing a schedule with a start and a plain rule.
proof fn lemma_normalized(
    given: TriggerModel,
    start: Seq<char>,
    reading: ClockReading,
    rule: Seq<char>,
    now: Moment,
    zone: Seq<char>,
    normalized: Result<TriggerModel, Seq<char>>,
)
    requires
        is_plain_rule(rule),
        reads_as(start, reading),
        given matches TriggerModel::Schedule { dtstart, rrule } && timing::cleaned(rrule) == Some(
            rule,
        ) && timing::start_of_schedule(timing::cleaned(dtstart), now, zone) == Ok::<
            Seq<char>,
            Seq<char>,
        >(start),
        timing::may_normalize(given, now, zone, normalized),
    ensures
        match recurrence::rule_set_fault(rule_set(zone, reading, rule)) {
            None => normalized == Ok::<TriggerModel, Seq<char>>(schedule(start, rule)),
            Some(fault) => normalized == Err::<TriggerModel, Seq<char>>(refusal(rule, fault)),
        },
{
    lemma_plain_rule(rule, zone, reading);
}

/// What a new schedule with a rule is timed as: where it occurs now, a run is due
/// and the next run is the occurrence after now; else the next run is the first
/// occurrence to come; without one there is no run.
pub open spec fn is_new_timing(
    t: TimingModel,
    start: Seq<char>,
    reading: ClockReading,
    rule: Seq<char>,
    now: Moment,
    zone: Seq<char>,
) -> bool {
    let set = rule_set(zone, reading, rule);
    let first = recurrence::first_occurrence(set, zone, now.secs, now.frac);
    let after = recurrence::first_occurrence(set, zone, now.secs + 1, now.frac);
    &&& t.trigger == schedule(start, rule)
    &&& match first {
        None => !t.pending_run && t.next_run_at is None && t.timer_delay is None,
        Some(due) => if due <= now.secs {
            &&& t.pending_run
            &&& t.next_run_at == after
            &&& after is None ==> t.timer_delay is None
            &&& after matches Some(next) ==> next > now.secs && waits(t.timer_delay, next - now.secs)
        } else {
            &&& !t.pending_run
            &&& t.next_run_at == Some(due)
            &&& waits(t.timer_delay, due - now.secs)
        },
    }
}

proof fn lemma_new_rule(
    given: TriggerModel,
    start: Seq<char>,
    reading: ClockReading,
    rule: Seq<char>,
    created_at: Moment,
    now: Moment,
    zone: Seq<char>,
    outcome: Result<TimingModel, Seq<char>>,
)
    requires
        is_plain_rule(rule),
        is_plain_moment(now),
        reads_as(start, reading),
        given matches TriggerModel::Schedule { dtstart, rrule } && timing::cleaned(rrule) == Some(
            rule,
        ) && timing::start_of_schedule(timing::cleaned(dtstart), now, zone) == Ok::<
            Seq<char>,
            Seq<char>,
        >(start),
        timing::may_time_new(given, created_at, now, zone, outcome),
    ensures
        match recurrence::rule_set_fault(rule_set(zone, reading, rule)) {
            None => outcome matches Ok(t) && is_new_timing(t, start, reading, rule, now, zone),
            Some(fault) => outcome == Err::<TimingModel, Seq<char>>(refusal(rule, fault)),
        },
{
    let normalized = choose|normalized: Result<TriggerModel, Seq<char>>|
        {
            &&& #[trigger] timing::may_normalize(given, now, zone, normalized)
            &&& match normalized {
                Ok(normal) => timing::may_time_normalized(normal, created_at, now, zone, outcome),
                Err(e) => outcome == Err::<TimingModel, _>(e),
            }
        };
    lemma_normalized(given, start, reading, rule, now, zone, normalized);
    let trigger = schedule(start, rule);
    if recurrence::rule_set_fault(rule_set(zone, reading, rule)) is None {
        let found = choose|found: Result<Option<i64>, Seq<char>>|
            {
                &&& #[trigger] timing::may_find_next(
                    trigger,
                    timing::second_before(now),
                    zone,
                    found,
                )
                &&& timing::may_time_found(trigger, now, zone, found, outcome)
            };
        assert(timing::may_find_at_or_after(trigger, now, zone, found));
        search_goes_from_the_moment(start, reading, rule, now, zone, found);
        let first = found->Ok_0;
        if first matches Some(due) && due <= now.secs {
            let next = choose|next: Result<Option<i64>, Seq<char>>|
                {
                    &&& #[trigger] timing::may_find_next(trigger, now, zone, next)
                    &&& outcome == (match next {
                        Ok(following) => Ok(
                            timing::timing_of_found(trigger, first, following, now),
                        ),
                        Err(e) => Err(e),
                    })
                };
            search_goes_from_the_next_second(start, reading, rule, now, zone, next);
        }
    }
}

/// A new schedule with a start and a rule, whatever white space stands around
/// them: a run is due where the rule set occurs in the second of now, the next run
/// is the first occurrence to come, and the timer waits for it.
pub proof fn new_schedule_runs_by_its_rule(
    lead: Seq<char>,
    start: Seq<char>,
    tail: Seq<char>,
    reading: ClockReading,
    rule: Seq<char>,
    created_at: Moment,
    now: Moment,
    zone: Seq<char>,
    outcome: Result<TimingModel, Seq<char>>,
)
    requires
        text::is_blank(lead),
        text::is_blank(tail),
        is_proper(start),
        is_plain_rule(rule),
        is_plain_moment(now),
        reads_as(start, reading),
        !(calendar::resolved_reading(zone, reading) is Missing),
        timing::may_time_new(
            schedule(lead + start + tail, lead + rule + tail),
            created_at,
            now,
            zone,
            outcome,
        ),
    ensures
        match recurrence::rule_set_fault(rule_set(zone, reading, rule)) {
            None => outcome matches Ok(t) && is_new_timing(t, start, reading, rule, now, zone),
            Some(fault) => outcome == Err::<TimingModel, Seq<char>>(refusal(rule, fault)),
        },
{
    lemma_cleaned(lead, start, tail);
    lemma_cleaned(lead, rule, tail);
    lemma_new_rule(
        schedule(lead + start + tail, lead + rule + tail),
        start,
        reading,
        rule,
        created_at,
        now,
        zone,
        outcome,
    );
}

/// A new schedule with a rule and no start, or a blank one, starts at the reading
/// of the clock of its zone now.
pub proof fn new_rule_starts_now(
    blank: Option<Seq<char>>,
    reading: ClockReading,
    rule: Seq<char>,
    created_at: Moment,
    now: Moment,
    zone: Seq<char>,
    outcome: Result<TimingModel, Seq<char>>,
)
    requires
        blank matches Some(s) ==> text::is_blank(s),
        is_plain_rule(rule),
        is_plain_moment(now),
        reads_as(
            calendar::formatted_reading(
                calendar::local_reading(zone, now.secs, now.frac),
                "%Y-%m-%dT%H:%M:%S"@,
            ),
            reading,
        ),
        timing::may_time_new(
            TriggerModel::Schedule { dtstart: blank, rrule: Some(rule) },
            created_at,
            now,
            zone,
            outcome,
        ),
    ensures
        ({
            let start = calendar::formatted_reading(
                calendar::local_reading(zone, now.secs, now.frac),
                "%Y-%m-%dT%H:%M:%S"@,
            );
            match recurrence::rule_set_fault(rule_set(zone, reading, rule)) {
                None => outcome matches Ok(t) && is_new_timing(t, start, reading, rule, now, zone),
                Some(fault) => outcome == Err::<TimingModel, Seq<char>>(refusal(rule, fault)),
            }
        }),
{
    lemma_blank_is_nothing(blank);
    let none = Seq::<char>::empty();
    lemma_cleaned(none, rule, none);
    assert(none + rule + none =~= rule);
    lemma_new_rule(
        TriggerModel::Schedule { dtstart: blank, rrule: Some(rule) },
        calendar::formatted_reading(
            calendar::local_reading(zone, now.secs, now.frac),
            "%Y-%m-%dT%H:%M:%S"@,
        ),
        reading,
        rule,
        created_at,
        now,
        zone,
        outcome,
    );
}

proof fn lemma_blank_is_nothing(blank: Option<Seq<char>>)
    requires
        blank matches Some(s) ==> text::is_blank(s),
    ensures
        timing::cleaned(blank) is None,
{
    if let Some(s) = blank {
        let (a, b) = text_laws::trimmed_is_the_middle(s);
        if a < b {
            assert(text::white_space(s[a]));
        }
    }
}

/// A stored schedule with a rule: where its stored run is still to come, that run
/// and what was due stay; where the run has come, or none was stored, a run is due
/// and the next one is the first occurrence after now.
pub proof fn stored_schedule_runs_by_its_rule(
    lead: Seq<char>,
    start: Seq<char>,
    tail: Seq<char>,
    reading: ClockReading,
    rule: Seq<char>,
    created_at: i64,
    stored_pending: bool,
    stored_next: Option<i64>,
    now: Moment,
    zone: Seq<char>,
    outcome: Result<TimingModel, Seq<char>>,
)
    requires
        text::is_blank(lead),
        text::is_blank(tail),
        is_proper(start),
        is_plain_rule(rule),
        is_plain_moment(now),
        reads_as(start, reading),
        !(calendar::resolved_reading(zone, reading) is Missing),
        timing::may_time_stored(
            schedule(lead + start + tail, lead + rule + tail),
            created_at,
            stored_pending,
            stored_next,
            now,
            zone,
            outcome,
        ),
    ensures
        match recurrence::rule_set_fault(rule_set(zone, reading, rule)) {
            Some(fault) => outcome == Err::<TimingModel, Seq<char>>(refusal(rule, fault)),
            None => outcome matches Ok(t) && t.trigger == schedule(start, rule) && {
                let after = recurrence::first_occurrence(
                    rule_set(zone, reading, rule),
                    zone,
                    now.secs + 1,
                    now.frac,
                );
                if stored_next matches Some(next) && next > now.secs {
                    &&& t.pending_run == stored_pending
                    &&& t.next_run_at == stored_next
                    &&& waits(t.timer_delay, stored_next->0 - now.secs)
                } else {
                    &&& t.pending_run
                    &&& t.next_run_at == after
                    &&& after is None ==> t.timer_delay is None
                    &&& after matches Some(next) ==> next > now.secs && waits(
                        t.timer_delay,
                        next - now.secs,
                    )
                }
            },
        },
{
    lemma_cleaned(lead, start, tail);
    lemma_cleaned(lead, rule, tail);
    let given = schedule(lead + start + tail, lead + rule + tail);
    let normalized = choose|normalized: Result<TriggerModel, Seq<char>>|
        {
            &&& #[trigger] timing::may_normalize(given, now, zone, normalized)
            &&& match normalized {
                Ok(normal) => timing::may_time_stored_normalized(
                    normal,
                    created_at,
                    stored_pending,
                    stored_next,
                    now,
                    zone,
                    outcome,
                ),
                Err(e) => outcome == Err::<TimingModel, _>(e),
            }
        };
    lemma_normalized(given, start, reading, rule, now, zone, normalized);
    let trigger = schedule(start, rule);
    if normalized is Ok && !(stored_next matches Some(next) && next > now.secs) {
        let next = choose|next: Result<Option<i64>, Seq<char>>|
            {
                &&& #[trigger] timing::may_find_next(trigger, now, zone, next)
                &&& outcome == (match next {
                    Ok(following) => Ok(timing::timing_of(trigger, true, following, now)),
                    Err(e) => Err(e),
                })
            };
        search_goes_from_the_next_second(start, reading, rule, now, zone, next);
    }
}

/// After a run that is due, the next run of a schedule is the first occurrence
/// after now; one without a rule has none.
pub proof fn due_schedule_goes_on_to_the_next(
    start: Seq<char>,
    reading: ClockReading,
    rule: Seq<char>,
    dtstart: Option<Seq<char>>,
    created_at: i64,
    now: Moment,
    zone: Seq<char>,
    outcome: Result<Option<i64>, Seq<char>>,
    once: Result<Option<i64>, Seq<char>>,
)
    requires
        is_plain_rule(rule),
        is_plain_moment(now),
        reads_as(start, reading),
        timing::may_run_after_due(schedule(start, rule), created_at, now, zone, outcome),
        timing::may_run_after_due(
            TriggerModel::Schedule { dtstart, rrule: None },
            created_at,
            now,
            zone,
            once,
        ),
    ensures
        match recurrence::rule_set_fault(rule_set(zone, reading, rule)) {
            None => outcome == Ok::<Option<i64>, Seq<char>>(
                recurrence::first_occurrence(
                    rule_set(zone, reading, rule),
                    zone,
                    now.secs + 1,
                    now.frac,
                ),
            ),
            Some(fault) => outcome == Err::<Option<i64>, Seq<char>>(refusal(rule, fault)),
        },
        once == Ok::<Option<i64>, Seq<char>>(None),
{
    search_goes_from_the_next_second(start, reading, rule, now, zone, outcome);
}

/// A schedule with neither a start nor a rule that say something is refused, and
/// so is one whose start is not written as one, or is a time that the clock of the
/// zone never shows.
pub proof fn bad_schedules_are_refused(
    lead: Seq<char>,
    start: Seq<char>,
    tail: Seq<char>,
    blank: Option<Seq<char>>,
    rule: Option<Seq<char>>,
    now: Moment,
    zone: Seq<char>,
    empty: Result<TriggerModel, Seq<char>>,
    bad: Result<TriggerModel, Seq<char>>,
)
    requires
        text::is_blank(lead),
        text::is_blank(tail),
        is_proper(start),
        blank matches Some(s) ==> text::is_blank(s),
        timing::may_normalize(
            TriggerModel::Schedule { dtstart: blank, rrule: blank },
            now,
            zone,
            empty,
        ),
        timing::may_normalize(
            TriggerModel::Schedule { dtstart: Some(lead + start + tail), rrule: rule },
            now,
            zone,
            bad,
        ),
    ensures
        empty == Err::<TriggerModel, Seq<char>>(
            "schedule trigger requires dtstart, rrule, or both"@,
        ),
        calendar::parsed_reading(start, "%Y-%m-%dT%H:%M:%S"@) is None ==> bad == Err::<
            TriggerModel,
            Seq<char>,
        >("schedule dtstart `"@ + start + "` must use format YYYY-MM-DDTHH:MM:SS"@),
        calendar::parsed_reading(start, "%Y-%m-%dT%H:%M:%S"@) matches Some(reading) ==> (
        calendar::resolved_reading(zone, reading) is Missing ==> bad == Err::<
            TriggerModel,
            Seq<char>,
        >("schedule dtstart `"@ + start + "` does not exist in local timezone "@ + zone)),
{
    lemma_blank_is_nothing(blank);
    lemma_cleaned(lead, start, tail);
}

/// A schedule with a good start and no rule, or a blank one, is normalized to its
/// start, and one with a plain rule to both, unless the rule is refused.
pub proof fn good_schedules_are_normalized(
    lead: Seq<char>,
    start: Seq<char>,
    tail: Seq<char>,
    reading: ClockReading,
    rule: Seq<char>,
    blank: Option<Seq<char>>,
    now: Moment,
    zone: Seq<char>,
    once: Result<TriggerModel, Seq<char>>,
    recurring: Result<TriggerModel, Seq<char>>,
)
    requires
        text::is_blank(lead),
        text::is_blank(tail),
        is_proper(start),
        is_plain_rule(rule),
        blank matches Some(s) ==> text::is_blank(s),
        reads_as(start, reading),
        !(calendar::resolved_reading(zone, reading) is Missing),
        timing::may_normalize(
            TriggerModel::Schedule { dtstart: Some(lead + start + tail), rrule: blank },
            now,
            zone,
            once,
        ),
        timing::may_normalize(
            schedule(lead + start + tail, lead + rule + tail),
            now,
            zone,
            recurring,
        ),
    ensures
        once == Ok::<TriggerModel, Seq<char>>(
            TriggerModel::Schedule { dtstart: Some(start), rrule: None },
        ),
        match recurrence::rule_set_fault(rule_set(zone, reading, rule)) {
            None => recurring == Ok::<TriggerModel, Seq<char>>(schedule(start, rule)),
            Some(fault) => recurring == Err::<TriggerModel, Seq<char>>(refusal(rule, fault)),
        },
{
    lemma_blank_is_nothing(blank);
    lemma_cleaned(lead, start, tail);
    lemma_cleaned(lead, rule, tail);
    lemma_normalized(
        schedule(lead + start + tail, lead + rule + tail),
        start,
        reading,
        rule,
        now,
        zone,
        recurring,
    );
}

/// The moment of a start: the one at which the clock of the zone shows it, or the
/// earlier one where it does so twice.
pub open spec fn is_moment_of(resolution: LocalResolution, secs: int, frac: int) -> bool {
    match resolution {
        LocalResolution::Single { secs: s, nanos } => secs == s && frac == nanos,
        LocalResolution::Ambiguous { earliest_secs, earliest_nanos, .. } => secs == earliest_secs
            && frac == earliest_nanos,
        LocalResolution::Missing => false,
    }
}

/// A new schedule without a rule runs once, at its start: a run is due where the
/// start is not after now, and else a timer waits for it.
pub proof fn new_start_runs_once(
    lead: Seq<char>,
    start: Seq<char>,
    tail: Seq<char>,
    reading: ClockReading,
    blank: Option<Seq<char>>,
    secs: int,
    frac: int,
    created_at: Moment,
    now: Moment,
    zone: Seq<char>,
    outcome: Result<TimingModel, Seq<char>>,
)
    requires
        text::is_blank(lead),
        text::is_blank(tail),
        is_proper(start),
        blank matches Some(s) ==> text::is_blank(s),
        reads_as(start, reading),
        is_moment_of(calendar::resolved_reading(zone, reading), secs, frac),
        timing::may_time_new(
            TriggerModel::Schedule { dtstart: Some(lead + start + tail), rrule: blank },
            created_at,
            now,
            zone,
            outcome,
        ),
    ensures
        outcome matches Ok(t) && {
            let late = secs < now.secs || (secs == now.secs && frac <= now.frac);
            &&& t.trigger == TriggerModel::Schedule { dtstart: Some(start), rrule: None }
            &&& t.pending_run == late
            &&& t.next_run_at matches Some(next) && next == secs
            &&& late ==> t.timer_delay is None
            &&& !late ==> waits(t.timer_delay, secs - now.secs)
        },
{
    lemma_blank_is_nothing(blank);
    lemma_cleaned(lead, start, tail);
    let given = TriggerModel::Schedule { dtstart: Some(lead + start + tail), rrule: blank };
    let normalized = choose|normalized: Result<TriggerModel, Seq<char>>|
        {
            &&& #[trigger] timing::may_normalize(given, now, zone, normalized)
            &&& match normalized {
                Ok(normal) => timing::may_time_normalized(normal, created_at, now, zone, outcome),
                Err(e) => outcome == Err::<TimingModel, _>(e),
            }
        };
    assert(normalized == Ok::<TriggerModel, Seq<char>>(
        TriggerModel::Schedule { dtstart: Some(start), rrule: None },
    ));
}

/// A stored schedule without a rule keeps its stored run, or where none was stored
/// the one at its start: it is due where it was stored as due or has come, whether
/// or not the program ran then, and else a timer waits for it.
pub proof fn stored_start_is_not_missed(
    lead: Seq<char>,
    start: Seq<char>,
    tail: Seq<char>,
    reading: ClockReading,
    blank: Option<Seq<char>>,
    secs: int,
    frac: int,
    created_at: i64,
    stored_pending: bool,
    stored_next: Option<i64>,
    now: Moment,
    zone: Seq<char>,
    outcome: Result<TimingModel, Seq<char>>,
)
    requires
        text::is_blank(lead),
        text::is_blank(tail),
        is_proper(start),
        blank matches Some(s) ==> text::is_blank(s),
        reads_as(start, reading),
        is_moment_of(calendar::resolved_reading(zone, reading), secs, frac),
        timing::may_time_stored(
            TriggerModel::Schedule { dtstart: Some(lead + start + tail), rrule: blank },
            created_at,
            stored_pending,
            stored_next,
            now,
            zone,
            outcome,
        ),
    ensures
        outcome matches Ok(t) && {
            let next: int = match stored_next {
                Some(at) => at as int,
                None => secs,
            };
            &&& t.trigger == TriggerModel::Schedule { dtstart: Some(start), rrule: None }
            &&& t.next_run_at matches Some(at) && at == next
            &&& next <= now.secs ==> t.pending_run && t.timer_delay is None
            &&& stored_pending ==> t.pending_run && t.timer_delay is None
            &&& next > now.secs && !stored_pending ==> !t.pending_run && waits(
                t.timer_delay,
                next - now.secs,
            )
        },
{
    lemma_blank_is_nothing(blank);
    lemma_cleaned(lead, start, tail);
    let given = TriggerModel::Schedule { dtstart: Some(lead + start + tail), rrule: blank };
    let normalized = choose|normalized: Result<TriggerModel, Seq<char>>|
        {
            &&& #[trigger] timing::may_normalize(given, now, zone, normalized)
            &&& match normalized {
                Ok(normal) => timing::may_time_stored_normalized(
                    normal,
                    created_at,
                    stored_pending,
                    stored_next,
                    now,
                    zone,
                    outcome,
                ),
                Err(e) => outcome == Err::<TimingModel, _>(e),
            }
        };
    assert(normalized == Ok::<TriggerModel, Seq<char>>(
        TriggerModel::Schedule { dtstart: Some(start), rrule: None },
    ));
}

/// No run is lost by a restart: whatever the trigger, a stored run that has come,
/// or was noted as due, is due when it is restored; and one that is not, and is
/// not what runs whenever the thread is idle, stays what it was.
pub proof fn missed_runs_are_due(
    trigger: TriggerModel,
    created_at: i64,
    stored_pending: bool,
    stored_next: i64,
    now: Moment,
    zone: Seq<char>,
    t: TimingModel,
)
    requires
        timing::may_time_stored(
            trigger,
            created_at,
            stored_pending,
            Some(stored_next),
            now,
            zone,
            Ok(t),
        ),
    ensures
        stored_next <= now.secs ==> t.pending_run,
        stored_pending ==> t.pending_run,
        stored_next > now.secs && !stored_pending && trigger != (TriggerModel::Delay {
            seconds: 0,
            repeat: Some(true),
        }) ==> !t.pending_run,
        stored_next > now.secs && trigger != (TriggerModel::Delay {
            seconds: 0,
            repeat: Some(true),
        }) ==> t.next_run_at == Some(stored_next),
{
    let normalized = choose|normalized: Result<TriggerModel, Seq<char>>|
        {
            &&& #[trigger] timing::may_normalize(trigger, now, zone, normalized)
            &&& match normalized {
                Ok(normal) => timing::may_time_stored_normalized(
                    normal,
                    created_at,
                    stored_pending,
                    Some(stored_next),
                    now,
                    zone,
                    Ok(t),
                ),
                Err(e) => Ok::<_, Seq<char>>(t) == Err::<TimingModel, _>(e),
            }
        };
}

/// The name of its property before a rule is not part of the rule: a rule set is
/// made of what follows it.
pub proof fn named_rules_make_the_same_set(
    rule: Seq<char>,
    zone: Seq<char>,
    reading: ClockReading,
)
    requires
        !"RRULE:"@.is_prefix_of(rule),
        !"rrule:"@.is_prefix_of(rule),
    ensures
        recurrence::rule_set_text(zone, reading, timing::bare_rule(rule)) == rule_set(
            zone,
            reading,
            rule,
        ),
        recurrence::rule_set_text(zone, reading, timing::bare_rule("RRULE:"@ + rule)) == rule_set(
            zone,
            reading,
            rule,
        ),
        recurrence::rule_set_text(zone, reading, timing::bare_rule("rrule:"@ + rule)) == rule_set(
            zone,
            reading,
            rule,
        ),
{
    crate::timing_laws::lemma_bare_rule(rule, "RRULE:"@);
    crate::timing_laws::lemma_bare_rule(rule, "rrule:"@);
}

} // verus!
