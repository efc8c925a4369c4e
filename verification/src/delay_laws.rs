//! When delays run, and how triggers are told apart and shown.
use vstd::arithmetic::div_mod::{lemma_fundamental_div_mod, lemma_mod_multiples_vanish};
use vstd::prelude::*;

use crate::calendar;
use crate::calendar::Moment;
use crate::number;
use crate::schedule_laws;
use crate::text;
use crate::timing;
use crate::timing::{TimingModel, TriggerTiming};
use crate::trigger::{AlarmTrigger, TriggerModel};

verus! {

/// A delay.
pub open spec fn delay(seconds: int, repeat: Option<bool>) -> TriggerModel {
    TriggerModel::Delay { seconds, repeat }
}

/// Whether a moment is inside the calendar.
pub open spec fn is_moment(m: Moment) -> bool {
    -8_334_601_228_800 <= m.secs <= 8_210_266_876_799 && 0 <= m.frac < 2_000_000_000
}

/// Whether a timestamp is the first one after `now` that is whole intervals away
/// from the creation.
pub open spec fn is_first_repeat(next: int, created_at: int, seconds: int, now: int) -> bool {
    &&& next > now
    &&& next - seconds <= now
    &&& (next - created_at) % seconds == 0
}

proof fn lemma_repeat(created_at: i64, seconds: int, now: Moment)
    requires
        0 < seconds <= 0x7fff_ffff_ffff_ffff,
        is_moment(now),
        -0x8000_0000_0000_0000 <= now.secs - created_at,
        now.secs - created_at + seconds <= 0x7fff_ffff_ffff_ffff,
        now.secs + seconds <= 0x7fff_ffff_ffff_ffff,
    ensures
        timing::repeat_outcome(created_at, seconds, now) matches Ok(Some(next)) && is_first_repeat(
            next as int,
            created_at as int,
            seconds,
            now.secs,
        ),
{
    let elapsed = now.secs - created_at;
    let whole = elapsed / seconds;
    lemma_fundamental_div_mod(elapsed, seconds);
    assert((whole + 1) * seconds == seconds * whole + seconds) by (nonlinear_arith);
    lemma_mod_multiples_vanish(whole + 1, 0, seconds);
    assert(seconds * (whole + 1) == (whole + 1) * seconds) by (nonlinear_arith);
}

/// The run after now of a delay that repeats is the first that is whole intervals
/// after the creation and after now. No interval, and one of too many seconds, is
/// refused.
pub proof fn repeats_keep_their_rhythm(created_at: i64, seconds: int, now: Moment)
    requires
        seconds >= 0,
        is_moment(now),
        -0x8000_0000_0000_0000 <= now.secs - created_at,
    ensures
        seconds == 0 ==> timing::repeat_outcome(created_at, seconds, now) == Err::<
            Option<i64>,
            Seq<char>,
        >("delay.repeat requires seconds to be greater than 0"@),
        seconds > 0x7fff_ffff_ffff_ffff ==> timing::repeat_outcome(created_at, seconds, now)
            == Err::<Option<i64>, Seq<char>>("delay seconds value is too large to schedule"@),
        0 < seconds <= 0x7fff_ffff_ffff_ffff && now.secs - created_at + seconds
            <= 0x7fff_ffff_ffff_ffff && now.secs + seconds <= 0x7fff_ffff_ffff_ffff ==> (
        timing::repeat_outcome(created_at, seconds, now) matches Ok(Some(next)) && is_first_repeat(
            next as int,
            created_at as int,
            seconds,
            now.secs,
        )),
{
    if 0 < seconds <= 0x7fff_ffff_ffff_ffff && now.secs - created_at + seconds
        <= 0x7fff_ffff_ffff_ffff && now.secs + seconds <= 0x7fff_ffff_ffff_ffff {
        lemma_repeat(created_at, seconds, now);
    }
}

/// A new delay runs its seconds after the creation. Where that is not after now, a
/// run is due; one that repeats then goes on at its first later interval, and
/// keeps a timer for it. A delay of no seconds that repeats is always due, and has
/// no timer. One that ends outside of the calendar is refused.
pub proof fn new_delays_run_after_their_seconds(
    seconds: int,
    repeat: Option<bool>,
    created_at: Moment,
    now: Moment,
    zone: Seq<char>,
    outcome: Result<TimingModel, Seq<char>>,
)
    requires
        seconds >= 0,
        is_moment(created_at),
        is_moment(now),
        timing::may_time_new(delay(seconds, repeat), created_at, now, zone, outcome),
    ensures
        ({
            let idle = seconds == 0 && repeat == Some(true);
            let due_secs = created_at.secs + seconds;
            let due_frac = if created_at.frac >= 1_000_000_000 && seconds > 0 {
                created_at.frac - 1_000_000_000
            } else {
                created_at.frac
            };
            let late = due_secs < now.secs || (due_secs == now.secs && due_frac <= now.frac);
            &&& outcome matches Ok(t) ==> t.trigger == delay(seconds, repeat)
            &&& idle ==> (outcome matches Ok(t) && t.pending_run && t.next_run_at is None
                && t.timer_delay is None)
            &&& seconds > 0x7fff_ffff_ffff_ffff ==> outcome == Err::<TimingModel, Seq<char>>(
                "delay seconds value is too large to schedule"@,
            )
            &&& seconds <= 0x7fff_ffff_ffff_ffff && due_secs > 8_210_266_876_799 ==> outcome
                == Err::<TimingModel, Seq<char>>("delay next run time is out of range"@)
            &&& !idle && due_secs <= 8_210_266_876_799 && !late ==> (outcome matches Ok(t)
                && !t.pending_run && (t.next_run_at matches Some(next) && next == due_secs)
                && schedule_laws::waits(t.timer_delay, due_secs - now.secs))
            &&& !idle && due_secs <= 8_210_266_876_799 && late && repeat != Some(true) ==> (
            outcome matches Ok(t) && t.pending_run && (t.next_run_at matches Some(next) && next
                == due_secs) && t.timer_delay is None)
            &&& !idle && due_secs <= 8_210_266_876_799 && late && repeat == Some(true) ==> (
            outcome matches Ok(t) && t.pending_run && (t.next_run_at matches Some(next)
                && is_first_repeat(next as int, created_at.secs, seconds, now.secs)
                && schedule_laws::waits(t.timer_delay, next - now.secs)))
        }),
{
    if 0 < seconds && created_at.secs + seconds <= 8_210_266_876_799 {
        lemma_repeat(created_at.secs as i64, seconds, now);
    }
}

/// A stored delay runs at its stored time, or where none was stored its seconds
/// after the creation. Where that has come a run is due: the only one keeps its
/// time and needs no timer, and one that repeats goes on at its first later
/// interval. Where it is still to come, it and what was due stay, and a timer waits
/// for it where it is needed.
pub proof fn stored_delays_are_not_missed(
    seconds: int,
    repeat: Option<bool>,
    created_at: i64,
    stored_pending: bool,
    stored_next: Option<i64>,
    now: Moment,
    zone: Seq<char>,
    outcome: Result<TimingModel, Seq<char>>,
)
    requires
        seconds >= 0,
        is_moment(now),
        timing::may_time_stored(
            delay(seconds, repeat),
            created_at,
            stored_pending,
            stored_next,
            now,
            zone,
            outcome,
        ),
    ensures
        ({
            let idle = seconds == 0 && repeat == Some(true);
            let known = stored_next is Some || (seconds <= 0x7fff_ffff_ffff_ffff && created_at
                + seconds <= 0x7fff_ffff_ffff_ffff);
            let next: int = match stored_next {
                Some(at) => at as int,
                None => created_at + seconds,
            };
            let come = next <= now.secs;
            &&& outcome matches Ok(t) ==> t.trigger == delay(seconds, repeat)
            &&& idle ==> (outcome matches Ok(t) && t.pending_run && t.next_run_at is None
                && t.timer_delay is None)
            &&& !idle && !known ==> outcome == Err::<TimingModel, Seq<char>>(
                "delay next run time is out of range"@,
            )
            &&& !idle && known && !come ==> (outcome matches Ok(t) && t.pending_run
                == stored_pending && (t.next_run_at matches Some(at) && at == next) && (if stored_pending
                && repeat != Some(true) {
                t.timer_delay is None
            } else {
                schedule_laws::waits(t.timer_delay, next - now.secs)
            }))
            &&& known && come && repeat != Some(true) ==> (outcome matches Ok(t) && t.pending_run && (
            t.next_run_at matches Some(at) && at == next) && t.timer_delay is None)
            &&& known && come && repeat == Some(true) && seconds > 0x7fff_ffff_ffff_ffff ==> outcome
                == Err::<TimingModel, Seq<char>>("delay seconds value is too large to schedule"@)
            &&& known && come && repeat == Some(true) && 0 < seconds <= 0x7fff_ffff_ffff_ffff
                && -0x8000_0000_0000_0000 <= now.secs - created_at && now.secs - created_at
                + seconds <= 0x7fff_ffff_ffff_ffff && now.secs + seconds
                <= 0x7fff_ffff_ffff_ffff ==> (outcome matches Ok(t) && t.pending_run && (
            t.next_run_at matches Some(at) && is_first_repeat(
                at as int,
                created_at as int,
                seconds,
                now.secs,
            ) && schedule_laws::waits(t.timer_delay, at - now.secs)))
        }),
{
    if 0 < seconds <= 0x7fff_ffff_ffff_ffff && -0x8000_0000_0000_0000 <= now.secs - created_at
        && now.secs - created_at + seconds <= 0x7fff_ffff_ffff_ffff && now.secs + seconds
        <= 0x7fff_ffff_ffff_ffff {
        lemma_repeat(created_at, seconds, now);
    }
}

/// After a run that is due, a delay that repeats goes on at its first interval
/// after now; one that does not, and one of no seconds, has no next run.
pub proof fn due_delays_go_on_where_they_repeat(
    seconds: int,
    repeat: Option<bool>,
    created_at: i64,
    now: Moment,
    zone: Seq<char>,
    outcome: Result<Option<i64>, Seq<char>>,
)
    requires
        0 <= seconds <= 0x7fff_ffff_ffff_ffff,
        is_moment(now),
        -0x8000_0000_0000_0000 <= now.secs - created_at,
        now.secs - created_at + seconds <= 0x7fff_ffff_ffff_ffff,
        now.secs + seconds <= 0x7fff_ffff_ffff_ffff,
        timing::may_run_after_due(delay(seconds, repeat), created_at, now, zone, outcome),
    ensures
        repeat == Some(true) && seconds > 0 ==> (outcome matches Ok(Some(next)) && is_first_repeat(
            next as int,
            created_at as int,
            seconds,
            now.secs,
        )),
        repeat != Some(true) || seconds == 0 ==> outcome == Ok::<Option<i64>, Seq<char>>(None),
{
    if seconds > 0 {
        lemma_repeat(created_at, seconds, now);
    }
}

/// The first run of a stored delay is its seconds after the creation, where that
/// is a number of 64 bits with a sign.
pub proof fn first_runs_are_sums(created_at: i64, seconds: int)
    requires
        seconds >= 0,
    ensures
        timing::first_delay_run(created_at, seconds) matches Some(at) ==> at == created_at + seconds,
        timing::first_delay_run(created_at, seconds) is None <==> seconds > 0x7fff_ffff_ffff_ffff
            || created_at + seconds > 0x7fff_ffff_ffff_ffff,
{
}

/// The seconds to a run and the time now make the time of the run; a run that has
/// come is not waited for.
pub proof fn delays_add_up(next: i64, now: Moment)
    requires
        is_moment(now),
    ensures
        next <= now.secs ==> timing::delay_until(next, now) == Some(0u64),
        next > now.secs ==> schedule_laws::waits(timing::delay_until(next, now), next - now.secs),
{
}

/// A timing of a trigger has what it is made of. A run that is due has a timer only
/// where the trigger recurs.
pub proof fn timings_hold_their_parts(
    trigger: TriggerModel,
    pending_run: bool,
    next_run_at: Option<i64>,
    now: Moment,
)
    requires
        is_moment(now),
    ensures
        ({
            let t = timing::timing_of(trigger, pending_run, next_run_at, now);
            let recurring = match trigger {
                TriggerModel::Delay { repeat, .. } => repeat == Some(true),
                TriggerModel::Schedule { rrule, .. } => rrule is Some && rrule->0.len() > 0,
            };
            &&& t.trigger == trigger
            &&& t.pending_run == pending_run
            &&& t.next_run_at == next_run_at
            &&& next_run_at is None ==> t.timer_delay is None
            &&& pending_run && !recurring ==> t.timer_delay is None
            &&& (!pending_run || recurring) && next_run_at is Some ==> (if next_run_at->0 <= now.secs {
                t.timer_delay == Some(0u64)
            } else {
                schedule_laws::waits(t.timer_delay, next_run_at->0 - now.secs)
            })
        }),
{
}

/// Triggers that recur: delays that are told to repeat, and schedules with a rule
/// that says something. One runs whenever the thread is idle: the delay of no
/// seconds that repeats.
pub proof fn triggers_recur_where_they_say_so(
    seconds: int,
    repeat: Option<bool>,
    dtstart: Option<Seq<char>>,
    rrule: Option<Seq<char>>,
)
    ensures
        delay(seconds, repeat).recurring() <==> repeat == Some(true),
        (TriggerModel::Schedule { dtstart, rrule }).recurring() <==> rrule is Some && rrule->0.len()
            > 0,
        delay(seconds, repeat).idle_recurring() <==> seconds == 0 && repeat == Some(true),
        !(TriggerModel::Schedule { dtstart, rrule }).idle_recurring(),
{
}

/// A trigger is shown by its kind and all that it holds.
pub proof fn triggers_show_what_they_hold(
    seconds: nat,
    repeat: Option<bool>,
    start: Seq<char>,
    rule: Seq<char>,
)
    ensures
        delay(seconds as int, repeat).shown() == "delay "@ + number::decimal(seconds) + (if repeat
            == Some(true) {
            "s, repeat"@
        } else {
            "s"@
        }),
        (TriggerModel::Schedule { dtstart: Some(start), rrule: Some(rule) }).shown() == "schedule "@
            + start + "; "@ + rule,
        (TriggerModel::Schedule { dtstart: Some(start), rrule: None }).shown() == "schedule "@ + start,
        (TriggerModel::Schedule { dtstart: None, rrule: Some(rule) }).shown() == "schedule "@ + rule,
{
    reveal_strlit("s");
    reveal_strlit(", repeat");
    reveal_strlit("s, repeat");
    reveal_strlit("");
    assert(delay(seconds as int, repeat).shown() =~= "delay "@ + number::decimal(seconds) + (
    if repeat == Some(true) {
        "s, repeat"@
    } else {
        "s"@
    }));
}

/// The views of triggers and timings hold all of their parts.
pub proof fn views_hold_all_parts(
    seconds: u64,
    repeat: Option<bool>,
    dtstart: Option<String>,
    rrule: Option<String>,
    t: TriggerTiming,
)
    ensures
        (AlarmTrigger::Delay { seconds, repeat })@ == delay(seconds as int, repeat),
        (AlarmTrigger::Schedule { dtstart, rrule })@ == (TriggerModel::Schedule {
            dtstart: text::opt_view(dtstart),
            rrule: text::opt_view(rrule),
        }),
        t@.trigger == t.trigger@,
        t@.pending_run == t.pending_run,
        t@.next_run_at == t.next_run_at,
        t@.timer_delay == t.timer_delay,
        timing::timing_view(Ok(t)) == Ok::<TimingModel, Seq<char>>(t@),
{
}

/// An instant is not after another where it is in an earlier second, or in the
/// same second and not later in it.
pub proof fn instants_go_by_second_and_fraction(a: Moment, b: Moment)
    ensures
        a.secs < b.secs ==> calendar::moment_le(a, b),
        a.secs > b.secs ==> !calendar::moment_le(a, b),
        a.secs == b.secs ==> (calendar::moment_le(a, b) <==> a.frac <= b.frac),
{
}

/// The machine's zone is the one that it names, where the database has it, and
/// else UTC.
pub proof fn unknown_zones_are_utc(name: Seq<char>)
    ensures
        calendar::known_timezone(name) ==> calendar::answered_timezone(Some(name)) == name,
        !calendar::known_timezone(name) ==> calendar::answered_timezone(Some(name)) == "UTC"@,
        calendar::answered_timezone(None) == "UTC"@,
{
}

/// A new delay is left out only where its seconds are more than a time span can
/// have and yet a number of 64 bits with a sign; a stored one never is; a schedule
/// is only for its rule, or for a start that would have to be taken from a day at
/// an end of the calendar.
pub proof fn few_triggers_are_left_out(
    seconds: int,
    repeat: Option<bool>,
    dtstart: Option<Seq<char>>,
    rrule: Option<Seq<char>>,
    now: Moment,
)
    ensures
        timing::delay_fits(delay(seconds, repeat)) <==> seconds <= 9_223_372_036_854_775 || seconds
            > 0x7fff_ffff_ffff_ffff,
        timing::delay_fits(TriggerModel::Schedule { dtstart, rrule }),
        timing::fits_calendar(delay(seconds, repeat), now),
        timing::fits_calendar(TriggerModel::Schedule { dtstart, rrule: None }, now),
        rrule is Some && crate::recurrence::weekdays_cut_cleanly(
            timing::bare_rule(text::trim(rrule->0)),
        ) && -8_334_601_142_400 <= now.secs <= 8_210_266_790_399 ==> timing::fits_calendar(
            TriggerModel::Schedule { dtstart, rrule },
            now,
        ),
{
}

} // verus!
