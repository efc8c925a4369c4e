//! The times at which a trigger runs.
use vstd::arithmetic::div_mod::{
    lemma_div_is_ordered_by_denominator, lemma_fundamental_div_mod,
    lemma_fundamental_div_mod_converse,
};
use vstd::prelude::*;
use vstd::string::StringExecFns;

use crate::calendar;
use crate::calendar::{
    clock_in, earliest_instant, format_reading, local_timezone, parse_reading, ClockReading, Moment,
    Timezone, UtcInstant, LOCAL_DATE_TIME_FORMAT, MAX_SPAN_SECONDS, MAX_TIMESTAMP, MIN_TIMESTAMP,
};
use crate::recurrence;
use crate::recurrence::{fault_of, has_clean_weekdays, occurrence_from};
use crate::text;
use crate::text::{copy_of, str_strip_prefix, str_trim};
use crate::trigger::{copy_optional, AlarmTrigger, TriggerModel};

verus! {

/// A checked trigger with the state of its alarm's timer.
#[derive(Debug, PartialEq, Eq)]
pub struct TriggerTiming {
    /// The trigger, normalized.
    pub trigger: AlarmTrigger,
    /// Whether a run is due.
    pub pending_run: bool,
    /// The timestamp of the next run.
    pub next_run_at: Option<i64>,
    /// The seconds after which a timer makes a run due.
    pub timer_delay: Option<u64>,
}

/// The view of a [`TriggerTiming`].
pub struct TimingModel {
    pub trigger: TriggerModel,
    pub pending_run: bool,
    pub next_run_at: Option<i64>,
    pub timer_delay: Option<u64>,
}

impl View for TriggerTiming {
    type V = TimingModel;

    open spec fn view(&self) -> TimingModel {
        TimingModel {
            trigger: self.trigger@,
            pending_run: self.pending_run,
            next_run_at: self.next_run_at,
            timer_delay: self.timer_delay,
        }
    }
}

/// The view of a timing, or of the reason why there is none.
pub open spec fn timing_view(r: Result<TriggerTiming, String>) -> Result<TimingModel, Seq<char>> {
    match r {
        Ok(timing) => Ok(timing@),
        Err(e) => Err(e@),
    }
}

/// The seconds from `now` to a run; none where it is due, nothing where they do
/// not fit in 64 bits with a sign.
pub open spec fn delay_until(next_run_at: i64, now: Moment) -> Option<u64> {
    if next_run_at <= now.secs {
        Some(0)
    } else if next_run_at - now.secs <= i64::MAX {
        Some((next_run_at - now.secs) as u64)
    } else {
        None
    }
}

/// The timing of a trigger whose next run is known. A run that is due needs no
/// timer, unless the trigger recurs.
pub open spec fn timing_of(
    trigger: TriggerModel,
    pending_run: bool,
    next_run_at: Option<i64>,
    now: Moment,
) -> TimingModel {
    TimingModel {
        trigger,
        pending_run,
        next_run_at,
        timer_delay: match next_run_at {
            Some(next) => if !pending_run || trigger.recurring() {
                delay_until(next, now)
            } else {
                None
            },
            None => None,
        },
    }
}

/// The seconds from `now` to a run.
pub fn timer_delay(next_run_at: i64, now: UtcInstant) -> (r: Option<u64>)
    ensures
        r == delay_until(next_run_at, now@),
{
    let now_secs: i64 = now.timestamp();
    if next_run_at <= now_secs {
        return Some(0);
    }
    match next_run_at.checked_sub(now_secs) {
        Some(seconds) => Some(seconds as u64),
        None => None,
    }
}

/// The timing of a trigger whose next run is known.
pub fn timing(
    trigger: AlarmTrigger,
    pending_run: bool,
    next_run_at: Option<i64>,
    now: UtcInstant,
) -> (r: TriggerTiming)
    ensures
        r@ == timing_of(trigger@, pending_run, next_run_at, now@),
{
    let keep_timer_for_pending = trigger.is_recurring();
    let delay: Option<u64> = match next_run_at {
        Some(next) => if !pending_run || keep_timer_for_pending {
            timer_delay(next, now)
        } else {
            None
        },
        None => None,
    };
    TriggerTiming { trigger, pending_run, next_run_at, timer_delay: delay }
}

/// The integer of 64 bits that is nearest to `x`.
pub open spec fn saturated(x: int) -> int {
    if x < i64::MIN {
        i64::MIN as int
    } else if x > i64::MAX {
        i64::MAX as int
    } else {
        x
    }
}

/// The run after `now` of a delay that repeats: whole intervals after the
/// creation, one more than have passed.
pub open spec fn next_repeat(created_at: int, seconds: int, now: int) -> int {
    created_at + (saturated(now - created_at) / seconds + 1) * seconds
}

pub open spec fn too_large_text() -> Seq<char> {
    "delay seconds value is too large to schedule"@
}

pub open spec fn delay_range_text() -> Seq<char> {
    "delay next run time is out of range"@
}

/// The timestamp of the run after `now` of a delay that repeats, or why there
/// is none.
pub open spec fn repeat_outcome(created_at: i64, seconds: int, now: Moment) -> Result<
    Option<i64>,
    Seq<char>,
> {
    if seconds > i64::MAX {
        Err(too_large_text())
    } else if seconds <= 0 {
        Err("delay.repeat requires seconds to be greater than 0"@)
    } else {
        let next = next_repeat(created_at as int, seconds, now.secs);
        if i64::MIN <= next - created_at <= i64::MAX && i64::MIN <= next <= i64::MAX {
            Ok(Some(next as i64))
        } else {
            Err(delay_range_text())
        }
    }
}

/// The number of whole intervals of `seconds` in `elapsed`, rounded down.
fn whole_intervals(elapsed: i64, seconds: i64) -> (r: i64)
    requires
        seconds > 0,
    ensures
        r == elapsed as int / seconds as int,
{
    if elapsed >= 0 {
        let r: u64 = elapsed as u64 / seconds as u64;
        proof {
            lemma_div_is_ordered_by_denominator(elapsed as int, 1, seconds as int);
        }
        r as i64
    } else {
        let back: u64 = (-(elapsed + 1)) as u64;
        let whole: u64 = back / seconds as u64;
        proof {
            lemma_div_is_ordered_by_denominator(back as int, 1, seconds as int);
            lemma_fundamental_div_mod(back as int, seconds as int);
            let q = -(whole as int) - 1;
            let rest = seconds - 1 - back as int % seconds as int;
            assert(elapsed == seconds * q + rest) by (nonlinear_arith)
                requires
                    back == seconds * (back as int / seconds as int) + back as int % seconds as int,
                    elapsed == -back - 1,
                    q == -(back as int / seconds as int) - 1,
                    rest == seconds - 1 - back as int % seconds as int,
            ;
            lemma_fundamental_div_mod_converse(elapsed as int, seconds as int, q, rest);
        }
        -(whole as i64) - 1
    }
}

/// The timestamp of the run after `now` of a delay that repeats.
pub fn next_delay_recurring_run_at_from_timestamp(
    created_at: i64,
    seconds: u64,
    now: UtcInstant,
) -> (r: Result<Option<i64>, String>)
    ensures
        text::error_view(r) == repeat_outcome(created_at, seconds as int, now@),
{
    if seconds > i64::MAX as u64 {
        return Err(copy_of("delay seconds value is too large to schedule"));
    }
    let seconds: i64 = seconds as i64;
    if seconds <= 0 {
        return Err(copy_of("delay.repeat requires seconds to be greater than 0"));
    }
    let now_secs: i64 = now.timestamp();
    let elapsed: i64 = match now_secs.checked_sub(created_at) {
        Some(elapsed) => elapsed,
        None => if now_secs < created_at {
            i64::MIN
        } else {
            i64::MAX
        },
    };
    assert(elapsed == saturated(now@.secs - created_at));
    let completed: i64 = whole_intervals(elapsed, seconds);
    let ghost product = (elapsed as int / seconds as int + 1) * seconds;
    if completed == i64::MAX {
        assert(product > i64::MAX) by (nonlinear_arith)
            requires
                product == (elapsed as int / seconds as int + 1) * seconds,
                elapsed as int / seconds as int == i64::MAX,
                seconds >= 1,
        ;
        return Err(copy_of("delay next run time is out of range"));
    }
    match (completed + 1).checked_mul(seconds) {
        Some(span) => match created_at.checked_add(span) {
            Some(next) => Ok(Some(next)),
            None => Err(copy_of("delay next run time is out of range")),
        },
        None => Err(copy_of("delay next run time is out of range")),
    }
}

/// The clock reading of a local start, or why there is none.
pub open spec fn start_reading(start: Seq<char>) -> Result<ClockReading, Seq<char>> {
    match calendar::parsed_reading(start, LOCAL_DATE_TIME_FORMAT@) {
        Some(reading) => Ok(reading),
        None => Err("schedule dtstart `"@ + start + "` must use format YYYY-MM-DDTHH:MM:SS"@),
    }
}

/// Reads a local start.
pub fn parse_dtstart(dtstart: &str) -> (r: Result<ClockReading, String>)
    ensures
        text::error_view(r) == start_reading(dtstart@),
        r matches Ok(reading) ==> calendar::in_calendar(reading.secs as int, reading.nanos as int),
{
    match parse_reading(dtstart, LOCAL_DATE_TIME_FORMAT) {
        Some(reading) => Ok(reading),
        None => {
            let mut e = copy_of("schedule dtstart `");
            e.append(dtstart);
            e.append("` must use format YYYY-MM-DDTHH:MM:SS");
            Err(e)
        },
    }
}

/// What is wrong with a start that the clock of its zone never shows.
pub open spec fn missing_start_text(start: Seq<char>, zone: Seq<char>) -> Seq<char> {
    "schedule dtstart `"@ + start + "` does not exist in local timezone "@ + zone
}

/// The first moment at which the clock of a zone shows a local start, or why
/// there is none.
pub open spec fn start_moment(start: Seq<char>, zone: Seq<char>) -> Result<Moment, Seq<char>> {
    match start_reading(start) {
        Ok(reading) => match calendar::earliest_moment(calendar::resolved_reading(zone, reading)) {
            Some(moment) => Ok(moment),
            None => Err(missing_start_text(start, zone)),
        },
        Err(e) => Err(e),
    }
}

/// The view of an instant, or of the reason why there is none.
pub open spec fn instant_view(r: Result<UtcInstant, String>) -> Result<Moment, Seq<char>> {
    match r {
        Ok(instant) => Ok(instant@),
        Err(e) => Err(e@),
    }
}

/// The first instant at which the clock of a zone shows a reading of its clock,
/// or the error for the start that wrote it.
pub fn instant_of_reading(dtstart: &str, reading: ClockReading, timezone: &Timezone) -> (r: Result<
    UtcInstant,
    String,
>)
    requires
        calendar::in_calendar(reading.secs as int, reading.nanos as int),
    ensures
        instant_view(r) == (match calendar::earliest_moment(
            calendar::resolved_reading(timezone@, reading),
        ) {
            Some(moment) => Ok(moment),
            None => Err(missing_start_text(dtstart@, timezone@)),
        }),
{
    match earliest_instant(timezone, reading) {
        Some(instant) => Ok(instant),
        None => {
            let mut e = copy_of("schedule dtstart `");
            e.append(dtstart);
            e.append("` does not exist in local timezone ");
            e.append(timezone.name());
            Err(e)
        },
    }
}

/// The first instant at which the clock of a zone shows a local start.
pub fn local_dtstart_to_utc(dtstart: &str, timezone: &Timezone) -> (r: Result<UtcInstant, String>)
    ensures
        instant_view(r) == start_moment(dtstart@, timezone@),
{
    match parse_dtstart(dtstart) {
        Ok(reading) => instant_of_reading(dtstart, reading, timezone),
        Err(e) => Err(e),
    }
}

/// A rule without the name of its property.
pub open spec fn bare_rule(rule: Seq<char>) -> Seq<char> {
    match text::strip_prefix(rule, "RRULE:"@) {
        Some(rest) => rest,
        None => match text::strip_prefix(rule, "rrule:"@) {
            Some(rest) => rest,
            None => rule,
        },
    }
}

/// Strips the name of its property from a rule.
fn strip_rule_name(rule: &str) -> (r: String)
    ensures
        r@ == bare_rule(rule@),
{
    match str_strip_prefix(rule, "RRULE:") {
        Some(rest) => rest,
        None => match str_strip_prefix(rule, "rrule:") {
            Some(rest) => rest,
            None => copy_of(rule),
        },
    }
}

/// What is said of a rule that a rule set with it is refused for.
pub open spec fn refused_rule_text(rule: Seq<char>, fault: Seq<char>) -> Seq<char> {
    "invalid schedule rrule `"@ + rule + "`: "@ + fault
}

/// Words a refusal of a rule.
pub fn refused_rule(rule: &str, fault: &str) -> (r: String)
    ensures
        r@ == refused_rule_text(rule@, fault@),
{
    let mut e = copy_of("invalid schedule rrule `");
    e.append(rule);
    e.append("`: ");
    e.append(fault);
    e
}

/// Whether checking the rule set with the given start and rule may end in the
/// given refusal, or in none. A rule that means the same everywhere has one
/// outcome, and one that ends at a date without a time zone is refused.
pub open spec fn may_check(
    start: ClockReading,
    rule: Seq<char>,
    zone: Seq<char>,
    refusal: Option<Seq<char>>,
) -> bool {
    let rule_set = recurrence::rule_set_text(zone, start, bare_rule(rule));
    &&& refusal matches Some(e) ==> exists|fault: Seq<char>|
        e == #[trigger] refused_rule_text(rule, fault)
    &&& recurrence::steady_rule(bare_rule(rule)) ==> refusal == (match recurrence::rule_set_fault(
        rule_set,
    ) {
        Some(fault) => Some(refused_rule_text(rule, fault)),
        None => None,
    })
    &&& recurrence::zoneless_until(bare_rule(rule)) ==> refusal is Some
}

/// Whether searching the rule set with the given start and rule from a moment
/// on may have the given outcome.
pub open spec fn may_find(
    start: ClockReading,
    rule: Seq<char>,
    zone: Seq<char>,
    from: Moment,
    outcome: Result<Option<i64>, Seq<char>>,
) -> bool {
    let rule_set = recurrence::rule_set_text(zone, start, bare_rule(rule));
    &&& outcome matches Ok(Some(found)) ==> from.secs <= found
    &&& outcome matches Err(e) ==> exists|fault: Seq<char>| e == #[trigger] refused_rule_text(rule, fault)
    &&& recurrence::steady_rule(bare_rule(rule)) ==> outcome == (match recurrence::search_result(
        rule_set,
        zone,
        from,
    ) {
        Ok(found) => Ok(found),
        Err(fault) => Err(refused_rule_text(rule, fault)),
    })
    &&& recurrence::zoneless_until(bare_rule(rule)) ==> outcome is Err
}

/// Checks the rule set with the given start and rule, and words its refusal.
fn check_rule(start: ClockReading, rule: &str, timezone: &Timezone) -> (r: Option<String>)
    requires
        calendar::in_calendar(start.secs as int, start.nanos as int),
        recurrence::weekdays_cut_cleanly(bare_rule(rule@)),
    ensures
        may_check(start, rule@, timezone@, text::opt_view(r)),
{
    let bare = strip_rule_name(rule);
    match fault_of(timezone, start, bare.as_str()) {
        Some(fault) => Some(refused_rule(rule, fault.as_str())),
        None => None,
    }
}

/// Searches the rule set with the given start and rule from an instant on.
fn search_rule(start: ClockReading, rule: &str, timezone: &Timezone, from: UtcInstant) -> (r: Result<
    Option<i64>,
    String,
>)
    requires
        calendar::in_calendar(start.secs as int, start.nanos as int),
        recurrence::weekdays_cut_cleanly(bare_rule(rule@)),
    ensures
        may_find(start, rule@, timezone@, from@, text::error_view(r)),
{
    let bare = strip_rule_name(rule);
    match occurrence_from(timezone, start, bare.as_str(), from) {
        Ok(found) => Ok(found),
        Err(fault) => Err(refused_rule(rule, fault.as_str())),
    }
}

/// An optional text without white space at its ends; nothing where that leaves
/// nothing.
pub open spec fn cleaned(value: Option<Seq<char>>) -> Option<Seq<char>> {
    match value {
        Some(s) => if text::trim(s).len() > 0 {
            Some(text::trim(s))
        } else {
            None
        },
        None => None,
    }
}

/// Strips white space from an optional text, and drops one that is empty then.
pub fn normalize_optional_string(value: Option<String>) -> (r: Option<String>)
    ensures
        text::opt_view(r) == cleaned(text::opt_view(value)),
{
    match value {
        Some(s) => {
            let trimmed = str_trim(s.as_str());
            if text::is_empty(trimmed.as_str()) {
                None
            } else {
                Some(trimmed)
            }
        },
        None => None,
    }
}

/// The start of a schedule: the given one where the clock shows it, else the
/// reading of the clock now.
pub open spec fn start_of_schedule(
    dtstart: Option<Seq<char>>,
    now: Moment,
    zone: Seq<char>,
) -> Result<Seq<char>, Seq<char>> {
    match dtstart {
        Some(start) => match start_moment(start, zone) {
            Ok(_) => Ok(start),
            Err(e) => Err(e),
        },
        None => Ok(
            calendar::formatted_reading(
                calendar::local_reading(zone, now.secs, now.frac),
                LOCAL_DATE_TIME_FORMAT@,
            ),
        ),
    }
}

/// Whether a trigger can be handed to the calendar: the weekdays of its rule can
/// be cut out, and where it has a rule without a start, the calendar holds the
/// local time now.
pub open spec fn fits_calendar(trigger: TriggerModel, now: Moment) -> bool {
    match trigger {
        TriggerModel::Delay { .. } => true,
        TriggerModel::Schedule { dtstart, rrule } => match cleaned(rrule) {
            Some(rule) => {
                &&& recurrence::weekdays_cut_cleanly(bare_rule(rule))
                &&& cleaned(dtstart) is None ==> calendar::day_inside_calendar(now.secs)
            },
            None => true,
        },
    }
}

/// Whether a stored trigger can be handed to the calendar.
pub fn can_be_restored(trigger: &AlarmTrigger, now: UtcInstant) -> (r: bool)
    ensures
        r == fits_calendar(trigger@, now@),
{
    match trigger {
        AlarmTrigger::Delay { .. } => true,
        AlarmTrigger::Schedule { dtstart, rrule } => {
            match normalize_optional_string(copy_optional(rrule)) {
                Some(rule) => {
                    let bare = strip_rule_name(rule.as_str());
                    let started = normalize_optional_string(copy_optional(dtstart)).is_some();
                    let secs: i64 = now.timestamp();
                    has_clean_weekdays(bare.as_str()) && (started || (MIN_TIMESTAMP + 86_400 <= secs
                        && secs <= MAX_TIMESTAMP - 86_400))
                },
                None => true,
            }
        },
    }
}

/// Whether a new trigger can be handed to the calendar.
pub fn can_be_timed(trigger: &AlarmTrigger, now: UtcInstant) -> (r: bool)
    ensures
        r == (delay_fits(trigger@) && fits_calendar(trigger@, now@)),
{
    let delay_can = match trigger {
        AlarmTrigger::Delay { seconds, .. } => *seconds <= MAX_SPAN_SECONDS as u64 || *seconds
            > i64::MAX as u64,
        AlarmTrigger::Schedule { .. } => true,
    };
    delay_can && can_be_restored(trigger, now)
}

/// Whether normalizing a trigger may have the given outcome.
pub open spec fn may_normalize(
    trigger: TriggerModel,
    now: Moment,
    zone: Seq<char>,
    outcome: Result<TriggerModel, Seq<char>>,
) -> bool {
    match trigger {
        TriggerModel::Delay { .. } => outcome == Ok::<_, Seq<char>>(trigger),
        TriggerModel::Schedule { dtstart, rrule } => if cleaned(dtstart) is None && cleaned(
            rrule,
        ) is None {
            outcome == Err::<TriggerModel, _>("schedule trigger requires dtstart, rrule, or both"@)
        } else {
            match start_of_schedule(cleaned(dtstart), now, zone) {
                Err(e) => outcome == Err::<TriggerModel, _>(e),
                Ok(start) => match cleaned(rrule) {
                    None => outcome == Ok::<_, Seq<char>>(
                        TriggerModel::Schedule { dtstart: Some(start), rrule: None },
                    ),
                    Some(rule) => may_accept(start, rule, zone, outcome),
                },
            }
        },
    }
}

/// A schedule with a start and a rule, after the rule was checked.
pub open spec fn normalized_schedule(
    start: Seq<char>,
    rule: Seq<char>,
    refusal: Option<Seq<char>>,
) -> Result<TriggerModel, Seq<char>> {
    match refusal {
        Some(e) => Err(e),
        None => Ok(TriggerModel::Schedule { dtstart: Some(start), rrule: Some(rule) }),
    }
}

/// Whether checking a schedule with a start and a rule may have the given
/// outcome.
pub open spec fn may_accept(
    start: Seq<char>,
    rule: Seq<char>,
    zone: Seq<char>,
    outcome: Result<TriggerModel, Seq<char>>,
) -> bool {
    match start_reading(start) {
        Err(e) => outcome == Err::<TriggerModel, _>(e),
        Ok(reading) => may_accept_reading(reading, start, rule, zone, outcome),
    }
}

/// Whether checking a schedule with a start that was read, and a rule, may have
/// the given outcome.
pub open spec fn may_accept_reading(
    reading: ClockReading,
    start: Seq<char>,
    rule: Seq<char>,
    zone: Seq<char>,
    outcome: Result<TriggerModel, Seq<char>>,
) -> bool {
    exists|refusal: Option<Seq<char>>|
        {
            &&& #[trigger] may_check(reading, rule, zone, refusal)
            &&& outcome == normalized_schedule(start, rule, refusal)
        }
}

/// Whether a start is in normal form: it is trimmed, and the clock of the zone
/// shows it.
pub open spec fn is_normal_start(start: Seq<char>, zone: Seq<char>) -> bool {
    cleaned(Some(start)) == Some(start) && start_moment(start, zone) is Ok
}

/// Whether a rule, where it means the same on every machine, makes a rule set
/// without a fault.
pub open spec fn is_sound_rule(start: Seq<char>, rule: Seq<char>, zone: Seq<char>) -> bool {
    start_reading(start) matches Ok(reading) && (recurrence::steady_rule(bare_rule(rule))
        ==> recurrence::rule_set_fault(
        recurrence::rule_set_text(zone, reading, bare_rule(rule)),
    ) is None)
}

/// Whether a trigger is in normal form: a delay, or a schedule with a start in
/// normal form and at most a trimmed rule that makes a rule set.
pub open spec fn is_normal(trigger: TriggerModel, zone: Seq<char>) -> bool {
    match trigger {
        TriggerModel::Delay { .. } => true,
        TriggerModel::Schedule { dtstart: None, .. } => false,
        TriggerModel::Schedule { dtstart: Some(start), rrule } => {
            &&& is_normal_start(start, zone)
            &&& cleaned(rrule) == rrule
            &&& rrule matches Some(rule) ==> is_sound_rule(start, rule, zone)
        },
    }
}

/// Whether a trigger has no start to be taken from now, or the clock now is in no
/// leap second, or in one after the last second of a minute.
pub open spec fn start_is_plain(trigger: TriggerModel, now: Moment, zone: Seq<char>) -> bool {
    trigger matches TriggerModel::Schedule { dtstart, .. } ==> cleaned(dtstart) is Some
        || calendar::is_plain_reading(calendar::local_reading(zone, now.secs, now.frac))
}

/// What normalizing a trigger gives is in normal form, where its start is.
proof fn lemma_normalized_is_normal(
    trigger: TriggerModel,
    now: Moment,
    zone: Seq<char>,
    normal: TriggerModel,
)
    requires
        may_normalize(trigger, now, zone, Ok(normal)),
        normal matches TriggerModel::Schedule { dtstart: Some(start), .. } ==> is_normal_start(
            start,
            zone,
        ),
    ensures
        is_normal(normal, zone),
{
    if let TriggerModel::Schedule { dtstart, rrule } = trigger {
        if let Some(s) = rrule {
            text::trim_is_stable(s);
        }
    }
}

/// The view of a trigger, or of the reason why there is none.
pub open spec fn trigger_view(r: Result<AlarmTrigger, String>) -> Result<TriggerModel, Seq<char>> {
    match r {
        Ok(trigger) => Ok(trigger@),
        Err(e) => Err(e@),
    }
}

/// The reading of the local clock now, as a start.
fn format_local_dtstart(now: UtcInstant, timezone: &Timezone) -> (r: String)
    requires
        calendar::day_inside_calendar(now@.secs),
    ensures
        Ok::<_, Seq<char>>(r@) == start_of_schedule(None, now@, timezone@),
        calendar::is_plain_reading(calendar::local_reading(timezone@, now@.secs, now@.frac))
            ==> is_normal_start(r@, timezone@),
{
    let start = format_reading(clock_in(timezone, now), LOCAL_DATE_TIME_FORMAT);
    proof {
        text::lemma_trimmed(start@);
    }
    start
}

/// A schedule with a start and a rule, unless its rule was refused.
pub fn accept_schedule(start: String, rule: String, refusal: Option<String>) -> (r: Result<
    AlarmTrigger,
    String,
>)
    ensures
        trigger_view(r) == normalized_schedule(start@, rule@, text::opt_view(refusal)),
{
    match refusal {
        Some(e) => Err(e),
        None => Ok(AlarmTrigger::Schedule { dtstart: Some(start), rrule: Some(rule) }),
    }
}

/// Checks a schedule with a start and a rule.
fn check_schedule(start: String, rule: String, timezone: &Timezone) -> (r: Result<AlarmTrigger, String>)
    requires
        recurrence::weekdays_cut_cleanly(bare_rule(rule@)),
    ensures
        may_accept(start@, rule@, timezone@, trigger_view(r)),
{
    match parse_dtstart(start.as_str()) {
        Err(e) => Err(e),
        Ok(reading) => {
            let refusal = check_rule(reading, rule.as_str(), timezone);
            assert(may_check(reading, rule@, timezone@, text::opt_view(refusal)));
            accept_schedule(start, rule, refusal)
        },
    }
}

/// Checks a trigger and puts it into its normal form: texts without white space
/// at their ends, and a start for every rule.
pub fn normalize_trigger(trigger: AlarmTrigger, now: UtcInstant, timezone: &Timezone) -> (r: Result<
    AlarmTrigger,
    String,
>)
    requires
        fits_calendar(trigger@, now@),
    ensures
        may_normalize(trigger@, now@, timezone@, trigger_view(r)),
        r matches Ok(normal) ==> start_is_plain(trigger@, now@, timezone@) ==> is_normal(
            normal@,
            timezone@,
        ),
{
    let ghost given = trigger@;
    match trigger {
        AlarmTrigger::Delay { seconds, repeat } => Ok(AlarmTrigger::Delay { seconds, repeat }),
        AlarmTrigger::Schedule { dtstart, rrule } => {
            proof {
                if dtstart is Some {
                    text::trim_is_stable(dtstart->0@);
                }
            }
            let dtstart = normalize_optional_string(dtstart);
            let rrule = normalize_optional_string(rrule);
            if dtstart.is_none() && rrule.is_none() {
                return Err(copy_of("schedule trigger requires dtstart, rrule, or both"));
            }
            let start = match dtstart {
                Some(start) => {
                    match local_dtstart_to_utc(start.as_str(), timezone) {
                        Ok(_) => start,
                        Err(e) => {
                            return Err(e);
                        },
                    }
                },
                None => format_local_dtstart(now, timezone),
            };
            let normalized = match rrule {
                None => Ok(AlarmTrigger::Schedule { dtstart: Some(start), rrule: None }),
                Some(rule) => check_schedule(start, rule, timezone),
            };
            proof {
                assert(may_normalize(given, now@, timezone@, trigger_view(normalized)));
                if normalized is Ok && start_is_plain(given, now@, timezone@) {
                    lemma_normalized_is_normal(given, now@, timezone@, normalized->Ok_0@);
                }
            }
            normalized
        },
    }
}

/// One second after a moment, where the calendar holds that.
pub open spec fn second_after(m: Moment) -> Moment {
    match calendar::checked_shift(m, 1) {
        Some(later) => later,
        None => m,
    }
}

/// One second before a moment, where the calendar holds that.
pub open spec fn second_before(m: Moment) -> Moment {
    match calendar::checked_shift(m, -1) {
        Some(earlier) => earlier,
        None => m,
    }
}

/// Whether the weekdays of a trigger's rule can be cut out of it.
pub open spec fn rule_cuts_cleanly(trigger: TriggerModel) -> bool {
    trigger matches TriggerModel::Schedule { rrule: Some(rule), .. }
        ==> recurrence::weekdays_cut_cleanly(bare_rule(rule))
}

/// Whether searching a schedule for its next occurrence after a moment may have
/// the given outcome.
pub open spec fn may_find_next(
    trigger: TriggerModel,
    after: Moment,
    zone: Seq<char>,
    outcome: Result<Option<i64>, Seq<char>>,
) -> bool {
    match trigger {
        TriggerModel::Schedule { dtstart: Some(start), rrule: Some(rule) } => match start_reading(
            start,
        ) {
            Err(e) => outcome == Err::<Option<i64>, _>(e),
            Ok(reading) => may_find(reading, rule, zone, second_after(after), outcome),
        },
        _ => outcome == Err::<Option<i64>, _>("schedule trigger requires dtstart and rrule"@),
    }
}

/// Whether searching a schedule for its first occurrence that is not before a
/// moment may have the given outcome.
pub open spec fn may_find_at_or_after(
    trigger: TriggerModel,
    at: Moment,
    zone: Seq<char>,
    outcome: Result<Option<i64>, Seq<char>>,
) -> bool {
    may_find_next(trigger, second_before(at), zone, outcome)
}

/// The next occurrence of a schedule after an instant.
pub fn next_schedule_occurrence_after(
    trigger: &AlarmTrigger,
    after: UtcInstant,
    timezone: &Timezone,
) -> (r: Result<Option<i64>, String>)
    requires
        rule_cuts_cleanly(trigger@),
    ensures
        may_find_next(trigger@, after@, timezone@, text::error_view(r)),
{
    match trigger {
        AlarmTrigger::Schedule { dtstart: Some(start), rrule: Some(rule) } => {
            match parse_dtstart(start.as_str()) {
                Err(e) => Err(e),
                Ok(reading) => {
                    let from = match after.plus(1) {
                        Some(later) => later,
                        None => after,
                    };
                    search_rule(reading, rule.as_str(), timezone, from)
                },
            }
        },
        _ => Err(copy_of("schedule trigger requires dtstart and rrule")),
    }
}

/// The first occurrence of a schedule that is not before an instant.
pub fn next_schedule_occurrence_at_or_after(
    trigger: &AlarmTrigger,
    at: UtcInstant,
    timezone: &Timezone,
) -> (r: Result<Option<i64>, String>)
    requires
        rule_cuts_cleanly(trigger@),
    ensures
        may_find_at_or_after(trigger@, at@, timezone@, text::error_view(r)),
        may_find_next(trigger@, second_before(at@), timezone@, text::error_view(r)),
{
    let after = match at.minus(1) {
        Some(earlier) => earlier,
        None => at,
    };
    next_schedule_occurrence_after(trigger, after, timezone)
}

/// The timing of a new schedule with a rule, whose first occurrence that is not
/// past was found, and where that one is due the occurrence that follows.
pub open spec fn timing_of_found(
    trigger: TriggerModel,
    found: Option<i64>,
    following: Option<i64>,
    now: Moment,
) -> TimingModel {
    match found {
        None => timing_of(trigger, false, None, now),
        Some(due) => if due <= now.secs {
            timing_of(trigger, true, following, now)
        } else {
            timing_of(trigger, false, Some(due), now)
        },
    }
}

/// The timing of a new schedule with a rule, from the occurrences found.
pub fn timing_for_found(
    trigger: AlarmTrigger,
    found: Option<i64>,
    following: Option<i64>,
    now: UtcInstant,
) -> (r: TriggerTiming)
    ensures
        r@ == timing_of_found(trigger@, found, following, now@),
{
    match found {
        None => timing(trigger, false, None, now),
        Some(due) => if due <= now.timestamp() {
            timing(trigger, true, following, now)
        } else {
            timing(trigger, false, Some(due), now)
        },
    }
}

/// Whether a timing is one that can be kept: the weekdays of its rule can be cut
/// out, and its timer is the one that its next run calls for.
pub open spec fn is_kept_timing(timing: TimingModel, now: Moment) -> bool {
    &&& rule_cuts_cleanly(timing.trigger)
    &&& timing == timing_of(timing.trigger, timing.pending_run, timing.next_run_at, now)
}

/// Whether the trigger of a timing is in normal form, unless its start was taken
/// from a leap second inside a minute.
pub open spec fn is_normal_timing(
    trigger: TriggerModel,
    now: Moment,
    zone: Seq<char>,
    outcome: Result<TimingModel, Seq<char>>,
) -> bool {
    outcome matches Ok(timing) ==> start_is_plain(trigger, now, zone) ==> is_normal(timing.trigger, zone)
}

/// Whether timing a new schedule, whose rule was searched once, may have the
/// given outcome.
pub open spec fn may_time_found(
    trigger: TriggerModel,
    now: Moment,
    zone: Seq<char>,
    found: Result<Option<i64>, Seq<char>>,
    outcome: Result<TimingModel, Seq<char>>,
) -> bool {
    match found {
        Err(e) => outcome == Err::<TimingModel, _>(e),
        Ok(first) => if first matches Some(due) && due <= now.secs {
            may_time_due(trigger, now, zone, first, outcome)
        } else {
            outcome == Ok::<_, Seq<char>>(timing_of_found(trigger, first, None, now))
        },
    }
}

/// Whether timing a new schedule that is due may have the given outcome.
pub open spec fn may_time_due(
    trigger: TriggerModel,
    now: Moment,
    zone: Seq<char>,
    first: Option<i64>,
    outcome: Result<TimingModel, Seq<char>>,
) -> bool {
    exists|next: Result<Option<i64>, Seq<char>>|
        {
            &&& #[trigger] may_find_next(trigger, now, zone, next)
            &&& outcome == (match next {
                Ok(following) => Ok(timing_of_found(trigger, first, following, now)),
                Err(e) => Err(e),
            })
        }
}

/// Whether timing a new schedule with a rule may have the given outcome.
pub open spec fn may_time_rule(
    trigger: TriggerModel,
    now: Moment,
    zone: Seq<char>,
    outcome: Result<TimingModel, Seq<char>>,
) -> bool {
    exists|found: Result<Option<i64>, Seq<char>>|
        {
            &&& #[trigger] may_find_next(trigger, second_before(now), zone, found)
            &&& may_time_found(trigger, now, zone, found, outcome)
        }
}

/// The timing of a new schedule with a rule.
fn time_rule(trigger: AlarmTrigger, now: UtcInstant, timezone: &Timezone) -> (r: Result<
    TriggerTiming,
    String,
>)
    requires
        rule_cuts_cleanly(trigger@),
    ensures
        may_time_rule(trigger@, now@, timezone@, timing_view(r)),
        r matches Ok(timing) ==> is_kept_timing(timing@, now@) && timing@.trigger == trigger@,
{
    let found = next_schedule_occurrence_at_or_after(&trigger, now, timezone);
    let ghost seen = text::error_view(found);
    assert(may_find_next(trigger@, second_before(now@), timezone@, seen));
    match found {
        Err(e) => Err(e),
        Ok(first) => {
            let due = match first {
                Some(at) => at <= now.timestamp(),
                None => false,
            };
            if !due {
                return Ok(timing_for_found(trigger, first, None, now));
            }
            let next = next_schedule_occurrence_after(&trigger, now, timezone);
            assert(may_find_next(trigger@, now@, timezone@, text::error_view(next)));
            match next {
                Err(e) => Err(e),
                Ok(following) => Ok(timing_for_found(trigger, first, following, now)),
            }
        },
    }
}

/// The timing of a new delay, or why there is none.
pub open spec fn new_delay_timing(
    seconds: int,
    repeat: Option<bool>,
    created_at: Moment,
    now: Moment,
) -> Result<TimingModel, Seq<char>> {
    let trigger = TriggerModel::Delay { seconds, repeat };
    if trigger.idle_recurring() {
        Ok(timing_of(trigger, true, None, now))
    } else if seconds > i64::MAX {
        Err(too_large_text())
    } else {
        match calendar::checked_shift(created_at, seconds) {
            None => Err(delay_range_text()),
            Some(due) => {
                let pending_run = calendar::moment_le(due, now);
                if trigger.recurring() && pending_run {
                    match repeat_outcome(created_at.secs as i64, seconds, now) {
                        Ok(next) => Ok(timing_of(trigger, true, next, now)),
                        Err(e) => Err(e),
                    }
                } else {
                    Ok(timing_of(trigger, pending_run, Some(due.secs as i64), now))
                }
            },
        }
    }
}

/// Whether the seconds of a delay are a time span, or too many to be a number
/// with a sign. The calendar panics on what lies between.
pub open spec fn delay_fits(trigger: TriggerModel) -> bool {
    trigger matches TriggerModel::Delay { seconds, .. } ==> seconds <= MAX_SPAN_SECONDS || seconds
        > i64::MAX
}

/// An instant some seconds later.
pub fn checked_add_seconds(start: UtcInstant, seconds: u64) -> (r: Result<UtcInstant, String>)
    requires
        seconds <= MAX_SPAN_SECONDS || seconds > i64::MAX,
    ensures
        instant_view(r) == (if seconds > i64::MAX {
            Err(too_large_text())
        } else {
            match calendar::checked_shift(start@, seconds as int) {
                Some(moment) => Ok(moment),
                None => Err(delay_range_text()),
            }
        }),
{
    if seconds > i64::MAX as u64 {
        return Err(copy_of("delay seconds value is too large to schedule"));
    }
    match start.plus(seconds as i64) {
        Some(instant) => Ok(instant),
        None => Err(copy_of("delay next run time is out of range")),
    }
}

/// The timing of a new delay.
pub fn timing_for_new_delay(
    seconds: u64,
    repeat: Option<bool>,
    created_at: UtcInstant,
    now: UtcInstant,
) -> (r: Result<TriggerTiming, String>)
    requires
        seconds <= MAX_SPAN_SECONDS || seconds > i64::MAX,
    ensures
        timing_view(r) == new_delay_timing(seconds as int, repeat, created_at@, now@),
{
    let trigger = AlarmTrigger::Delay { seconds, repeat };
    if trigger.is_idle_recurring() {
        return Ok(timing(trigger, true, None, now));
    }
    match checked_add_seconds(created_at, seconds) {
        Err(e) => Err(e),
        Ok(due) => {
            let pending_run = due.not_after(now);
            if trigger.is_recurring() && pending_run {
                let created: i64 = created_at.timestamp();
                match next_delay_recurring_run_at_from_timestamp(created, seconds, now) {
                    Err(e) => Err(e),
                    Ok(next) => Ok(timing(trigger, true, next, now)),
                }
            } else {
                let at: i64 = due.timestamp();
                Ok(timing(trigger, pending_run, Some(at), now))
            }
        },
    }
}

/// Whether timing a new trigger that is normalized may have the given outcome.
pub open spec fn may_time_normalized(
    trigger: TriggerModel,
    created_at: Moment,
    now: Moment,
    zone: Seq<char>,
    outcome: Result<TimingModel, Seq<char>>,
) -> bool {
    match trigger {
        TriggerModel::Delay { seconds, repeat } => outcome == new_delay_timing(
            seconds,
            repeat,
            created_at,
            now,
        ),
        TriggerModel::Schedule { dtstart, rrule: None } => outcome == new_start_timing(
            dtstart,
            now,
            zone,
        ),
        TriggerModel::Schedule { rrule: Some(_), .. } => may_time_rule(trigger, now, zone, outcome),
    }
}

/// The moment of a schedule's start, or why there is none.
pub open spec fn schedule_start(dtstart: Option<Seq<char>>, zone: Seq<char>) -> Result<
    Moment,
    Seq<char>,
> {
    match dtstart {
        Some(start) => start_moment(start, zone),
        None => Err("schedule trigger requires dtstart"@),
    }
}

/// The timing of a new schedule without a rule: one run at its start.
pub open spec fn new_start_timing(dtstart: Option<Seq<char>>, now: Moment, zone: Seq<char>) -> Result<
    TimingModel,
    Seq<char>,
> {
    match schedule_start(dtstart, zone) {
        Ok(due) => Ok(
            timing_of(
                TriggerModel::Schedule { dtstart, rrule: None },
                calendar::moment_le(due, now),
                Some(due.secs as i64),
                now,
            ),
        ),
        Err(e) => Err(e),
    }
}

/// Whether timing a new trigger may have the given outcome.
pub open spec fn may_time_new(
    trigger: TriggerModel,
    created_at: Moment,
    now: Moment,
    zone: Seq<char>,
    outcome: Result<TimingModel, Seq<char>>,
) -> bool {
    exists|normalized: Result<TriggerModel, Seq<char>>|
        {
            &&& #[trigger] may_normalize(trigger, now, zone, normalized)
            &&& match normalized {
                Ok(normal) => may_time_normalized(normal, created_at, now, zone, outcome),
                Err(e) => outcome == Err::<TimingModel, _>(e),
            }
        }
}

/// The instant of a schedule's start.
pub fn schedule_dtstart_utc(trigger: &AlarmTrigger, timezone: &Timezone) -> (r: Result<
    UtcInstant,
    String,
>)
    ensures
        instant_view(r) == schedule_start(
            match trigger@ {
                TriggerModel::Schedule { dtstart, .. } => dtstart,
                TriggerModel::Delay { .. } => None,
            },
            timezone@,
        ),
{
    match trigger {
        AlarmTrigger::Schedule { dtstart: Some(start), .. } => local_dtstart_to_utc(
            start.as_str(),
            timezone,
        ),
        _ => Err(copy_of("schedule trigger requires dtstart")),
    }
}

proof fn lemma_normalized_fits(
    trigger: TriggerModel,
    now: Moment,
    zone: Seq<char>,
    outcome: Result<TriggerModel, Seq<char>>,
)
    requires
        fits_calendar(trigger, now),
        may_normalize(trigger, now, zone, outcome),
    ensures
        outcome matches Ok(normal) ==> rule_cuts_cleanly(normal),
        outcome matches Ok(normal) ==> (trigger is Delay ==> normal == trigger) && (normal is Delay
            ==> trigger is Delay),
{
}

/// The timing of a new trigger in the given time zone.
pub fn timing_for_new_trigger_with_timezone(
    trigger: AlarmTrigger,
    created_at: UtcInstant,
    now: UtcInstant,
    timezone: &Timezone,
) -> (r: Result<TriggerTiming, String>)
    requires
        delay_fits(trigger@),
        fits_calendar(trigger@, now@),
    ensures
        may_time_new(trigger@, created_at@, now@, timezone@, timing_view(r)),
        r matches Ok(timing) ==> is_kept_timing(timing@, now@),
        is_normal_timing(trigger@, now@, timezone@, timing_view(r)),
{
    let ghost given = trigger@;
    let normalized = normalize_trigger(trigger, now, timezone);
    let ghost seen = trigger_view(normalized);
    proof {
        assert(may_normalize(given, now@, timezone@, seen));
        lemma_normalized_fits(given, now@, timezone@, seen);
    }
    match normalized {
        Err(e) => Err(e),
        Ok(normal) => match &normal {
            AlarmTrigger::Delay { seconds, repeat } => timing_for_new_delay(
                *seconds,
                *repeat,
                created_at,
                now,
            ),
            AlarmTrigger::Schedule { rrule: None, .. } => {
                match schedule_dtstart_utc(&normal, timezone) {
                    Err(e) => Err(e),
                    Ok(due) => {
                        let at: i64 = due.timestamp();
                        Ok(timing(normal, due.not_after(now), Some(at), now))
                    },
                }
            },
            AlarmTrigger::Schedule { rrule: Some(_), .. } => time_rule(normal, now, timezone),
        },
    }
}

/// The timing of a new trigger in the machine's time zone.
pub fn timing_for_new_trigger(trigger: AlarmTrigger, created_at: UtcInstant, now: UtcInstant) -> (r:
    Result<TriggerTiming, String>)
    requires
        delay_fits(trigger@),
        fits_calendar(trigger@, now@),
    ensures
        exists|zone: Seq<char>|
            {
                &&& #[trigger] calendar::known_timezone(zone)
                &&& may_time_new(trigger@, created_at@, now@, zone, timing_view(r))
                &&& is_normal_timing(trigger@, now@, zone, timing_view(r))
            },
        r matches Ok(timing) ==> is_kept_timing(timing@, now@),
{
    let timezone = local_timezone();
    timing_for_new_trigger_with_timezone(trigger, created_at, now, &timezone)
}

/// The first run of a delay, where its timestamp fits in 64 bits.
pub open spec fn first_delay_run(created_at: i64, seconds: int) -> Option<i64> {
    if seconds <= i64::MAX && created_at + seconds <= i64::MAX {
        Some((created_at + seconds) as i64)
    } else {
        None
    }
}

/// The first run of a delay, where its timestamp fits in 64 bits.
pub fn next_delay_run_at(created_at: i64, seconds: u64) -> (r: Option<i64>)
    ensures
        r == first_delay_run(created_at, seconds as int),
{
    if seconds > i64::MAX as u64 {
        None
    } else {
        created_at.checked_add(seconds as i64)
    }
}

/// A stored timestamp, or else the one that a trigger gives.
pub open spec fn stored_or(stored: Option<i64>, given: Option<i64>) -> Option<i64> {
    match stored {
        Some(at) => Some(at),
        None => given,
    }
}

/// The timing of a stored delay, or why there is none.
pub open spec fn restored_delay_timing(
    seconds: int,
    repeat: Option<bool>,
    created_at: i64,
    stored_pending: bool,
    stored_next: Option<i64>,
    now: Moment,
) -> Result<TimingModel, Seq<char>> {
    let trigger = TriggerModel::Delay { seconds, repeat };
    if trigger.idle_recurring() {
        Ok(timing_of(trigger, true, None, now))
    } else {
        match stored_or(stored_next, first_delay_run(created_at, seconds)) {
            None => Err(delay_range_text()),
            Some(next) => {
                let due = next <= now.secs;
                if trigger.recurring() && due {
                    match repeat_outcome(created_at, seconds, now) {
                        Ok(following) => Ok(timing_of(trigger, true, following, now)),
                        Err(e) => Err(e),
                    }
                } else {
                    Ok(timing_of(trigger, stored_pending || due, Some(next), now))
                }
            },
        }
    }
}

/// The timing of a stored delay.
pub fn timing_for_restored_delay(
    seconds: u64,
    repeat: Option<bool>,
    created_at: i64,
    persisted_pending_run: bool,
    persisted_next_run_at: Option<i64>,
    now: UtcInstant,
) -> (r: Result<TriggerTiming, String>)
    ensures
        timing_view(r) == restored_delay_timing(
            seconds as int,
            repeat,
            created_at,
            persisted_pending_run,
            persisted_next_run_at,
            now@,
        ),
{
    let trigger = AlarmTrigger::Delay { seconds, repeat };
    if trigger.is_idle_recurring() {
        return Ok(timing(trigger, true, None, now));
    }
    let next: Option<i64> = match persisted_next_run_at {
        Some(at) => Some(at),
        None => next_delay_run_at(created_at, seconds),
    };
    match next {
        None => Err(copy_of("delay next run time is out of range")),
        Some(at) => {
            let due = at <= now.timestamp();
            if trigger.is_recurring() && due {
                match next_delay_recurring_run_at_from_timestamp(created_at, seconds, now) {
                    Err(e) => Err(e),
                    Ok(following) => Ok(timing(trigger, true, following, now)),
                }
            } else {
                Ok(timing(trigger, persisted_pending_run || due, Some(at), now))
            }
        },
    }
}

/// The timing of a stored schedule without a rule, or why there is none.
pub open spec fn restored_start_timing(
    dtstart: Option<Seq<char>>,
    stored_pending: bool,
    stored_next: Option<i64>,
    now: Moment,
    zone: Seq<char>,
) -> Result<TimingModel, Seq<char>> {
    let start = match schedule_start(dtstart, zone) {
        Ok(moment) => Some(moment.secs as i64),
        Err(_) => None,
    };
    match stored_or(stored_next, start) {
        None => Err("schedule next run time is out of range"@),
        Some(next) => Ok(
            timing_of(
                TriggerModel::Schedule { dtstart, rrule: None },
                stored_pending || next <= now.secs,
                Some(next),
                now,
            ),
        ),
    }
}

/// Whether the next run of a stored schedule with a rule has come, or is not
/// known.
pub open spec fn stored_rule_due(stored_next: Option<i64>, now: Moment) -> bool {
    match stored_next {
        Some(next) => next <= now.secs,
        None => true,
    }
}

/// Whether timing a stored schedule with a rule may have the given outcome.
pub open spec fn may_time_stored_rule(
    trigger: TriggerModel,
    stored_pending: bool,
    stored_next: Option<i64>,
    now: Moment,
    zone: Seq<char>,
    outcome: Result<TimingModel, Seq<char>>,
) -> bool {
    if stored_rule_due(stored_next, now) {
        exists|next: Result<Option<i64>, Seq<char>>|
            {
                &&& #[trigger] may_find_next(trigger, now, zone, next)
                &&& outcome == (match next {
                    Ok(following) => Ok(timing_of(trigger, true, following, now)),
                    Err(e) => Err(e),
                })
            }
    } else {
        outcome == Ok::<_, Seq<char>>(timing_of(trigger, stored_pending, stored_next, now))
    }
}

/// Whether timing a stored trigger that is normalized may have the given
/// outcome.
pub open spec fn may_time_stored_normalized(
    trigger: TriggerModel,
    created_at: i64,
    stored_pending: bool,
    stored_next: Option<i64>,
    now: Moment,
    zone: Seq<char>,
    outcome: Result<TimingModel, Seq<char>>,
) -> bool {
    match trigger {
        TriggerModel::Delay { seconds, repeat } => outcome == restored_delay_timing(
            seconds,
            repeat,
            created_at,
            stored_pending,
            stored_next,
            now,
        ),
        TriggerModel::Schedule { dtstart, rrule: None } => outcome == restored_start_timing(
            dtstart,
            stored_pending,
            stored_next,
            now,
            zone,
        ),
        TriggerModel::Schedule { rrule: Some(_), .. } => may_time_stored_rule(
            trigger,
            stored_pending,
            stored_next,
            now,
            zone,
            outcome,
        ),
    }
}

/// Whether timing a stored trigger may have the given outcome.
pub open spec fn may_time_stored(
    trigger: TriggerModel,
    created_at: i64,
    stored_pending: bool,
    stored_next: Option<i64>,
    now: Moment,
    zone: Seq<char>,
    outcome: Result<TimingModel, Seq<char>>,
) -> bool {
    exists|normalized: Result<TriggerModel, Seq<char>>|
        {
            &&& #[trigger] may_normalize(trigger, now, zone, normalized)
            &&& match normalized {
                Ok(normal) => may_time_stored_normalized(
                    normal,
                    created_at,
                    stored_pending,
                    stored_next,
                    now,
                    zone,
                    outcome,
                ),
                Err(e) => outcome == Err::<TimingModel, _>(e),
            }
        }
}

/// The timing of a stored schedule with a rule.
fn time_stored_rule(
    trigger: AlarmTrigger,
    persisted_pending_run: bool,
    persisted_next_run_at: Option<i64>,
    now: UtcInstant,
    timezone: &Timezone,
) -> (r: Result<TriggerTiming, String>)
    requires
        rule_cuts_cleanly(trigger@),
    ensures
        may_time_stored_rule(
            trigger@,
            persisted_pending_run,
            persisted_next_run_at,
            now@,
            timezone@,
            timing_view(r),
        ),
        r matches Ok(timing) ==> is_kept_timing(timing@, now@) && timing@.trigger == trigger@,
{
    let due = match persisted_next_run_at {
        Some(next) => next <= now.timestamp(),
        None => true,
    };
    if due {
        let next = next_schedule_occurrence_after(&trigger, now, timezone);
        assert(may_find_next(trigger@, now@, timezone@, text::error_view(next)));
        match next {
            Err(e) => Err(e),
            Ok(following) => Ok(timing(trigger, true, following, now)),
        }
    } else {
        Ok(timing(trigger, persisted_pending_run, persisted_next_run_at, now))
    }
}

/// The timing of a stored trigger in the given time zone.
pub fn timing_for_restored_trigger_with_timezone(
    trigger: AlarmTrigger,
    created_at: i64,
    persisted_pending_run: bool,
    persisted_next_run_at: Option<i64>,
    now: UtcInstant,
    timezone: &Timezone,
) -> (r: Result<TriggerTiming, String>)
    requires
        fits_calendar(trigger@, now@),
    ensures
        may_time_stored(
            trigger@,
            created_at,
            persisted_pending_run,
            persisted_next_run_at,
            now@,
            timezone@,
            timing_view(r),
        ),
        r matches Ok(timing) ==> is_kept_timing(timing@, now@),
        is_normal_timing(trigger@, now@, timezone@, timing_view(r)),
{
    let ghost given = trigger@;
    let normalized = normalize_trigger(trigger, now, timezone);
    let ghost seen = trigger_view(normalized);
    proof {
        assert(may_normalize(given, now@, timezone@, seen));
        lemma_normalized_fits(given, now@, timezone@, seen);
    }
    match normalized {
        Err(e) => Err(e),
        Ok(normal) => match &normal {
            AlarmTrigger::Delay { seconds, repeat } => timing_for_restored_delay(
                *seconds,
                *repeat,
                created_at,
                persisted_pending_run,
                persisted_next_run_at,
                now,
            ),
            AlarmTrigger::Schedule { rrule: None, .. } => {
                let next: Option<i64> = match persisted_next_run_at {
                    Some(at) => Some(at),
                    None => match schedule_dtstart_utc(&normal, timezone) {
                        Ok(start) => Some(start.timestamp()),
                        Err(_) => None,
                    },
                };
                match next {
                    None => Err(copy_of("schedule next run time is out of range")),
                    Some(at) => {
                        let pending_run = persisted_pending_run || at <= now.timestamp();
                        Ok(timing(normal, pending_run, Some(at), now))
                    },
                }
            },
            AlarmTrigger::Schedule { rrule: Some(_), .. } => time_stored_rule(
                normal,
                persisted_pending_run,
                persisted_next_run_at,
                now,
                timezone,
            ),
        },
    }
}

/// The timing of a stored trigger in the machine's time zone.
pub fn timing_for_restored_trigger(
    trigger: AlarmTrigger,
    created_at: i64,
    persisted_pending_run: bool,
    persisted_next_run_at: Option<i64>,
    now: UtcInstant,
) -> (r: Result<TriggerTiming, String>)
    requires
        fits_calendar(trigger@, now@),
    ensures
        exists|zone: Seq<char>|
            {
                &&& #[trigger] calendar::known_timezone(zone)
                &&& may_time_stored(
                    trigger@,
                    created_at,
                    persisted_pending_run,
                    persisted_next_run_at,
                    now@,
                    zone,
                    timing_view(r),
                )
                &&& is_normal_timing(trigger@, now@, zone, timing_view(r))
            },
        r matches Ok(timing) ==> is_kept_timing(timing@, now@),
{
    let timezone = local_timezone();
    timing_for_restored_trigger_with_timezone(
        trigger,
        created_at,
        persisted_pending_run,
        persisted_next_run_at,
        now,
        &timezone,
    )
}

/// Whether looking for the run of a trigger after one that is due may have the
/// given outcome.
pub open spec fn may_run_after_due(
    trigger: TriggerModel,
    created_at: i64,
    now: Moment,
    zone: Seq<char>,
    outcome: Result<Option<i64>, Seq<char>>,
) -> bool {
    match trigger {
        TriggerModel::Delay { seconds, repeat } => outcome == (if repeat == Some(true) && seconds
            != 0 {
            repeat_outcome(created_at, seconds, now)
        } else {
            Ok(None)
        }),
        TriggerModel::Schedule { rrule: None, .. } => outcome == Ok::<Option<i64>, Seq<char>>(None),
        TriggerModel::Schedule { rrule: Some(_), .. } => may_find_next(trigger, now, zone, outcome),
    }
}

/// The run of a trigger after one that is due, in the given time zone.
pub fn next_run_after_due_with_timezone(
    trigger: &AlarmTrigger,
    created_at: i64,
    now: UtcInstant,
    timezone: &Timezone,
) -> (r: Result<Option<i64>, String>)
    requires
        rule_cuts_cleanly(trigger@),
    ensures
        may_run_after_due(trigger@, created_at, now@, timezone@, text::error_view(r)),
{
    match trigger {
        AlarmTrigger::Delay { seconds, .. } => {
            if trigger.is_recurring() && *seconds != 0 {
                next_delay_recurring_run_at_from_timestamp(created_at, *seconds, now)
            } else {
                Ok(None)
            }
        },
        AlarmTrigger::Schedule { rrule: None, .. } => Ok(None),
        AlarmTrigger::Schedule { rrule: Some(_), .. } => next_schedule_occurrence_after(
            trigger,
            now,
            timezone,
        ),
    }
}

/// The run of a trigger after one that is due, in the machine's time zone.
pub fn next_run_after_due(trigger: &AlarmTrigger, created_at: i64, now: UtcInstant) -> (r: Result<
    Option<i64>,
    String,
>)
    requires
        rule_cuts_cleanly(trigger@),
    ensures
        exists|zone: Seq<char>|
            {
                &&& #[trigger] calendar::known_timezone(zone)
                &&& may_run_after_due(trigger@, created_at, now@, zone, text::error_view(r))
            },
{
    let timezone = local_timezone();
    next_run_after_due_with_timezone(trigger, created_at, now, &timezone)
}

} // verus!
