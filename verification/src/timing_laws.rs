//! What holds of the times of every trigger.
use vstd::arithmetic::div_mod::{
    lemma_fundamental_div_mod, lemma_mod_multiples_vanish,
};
use vstd::prelude::*;

use crate::calendar;
use crate::calendar::{ClockReading, Moment};
use crate::recurrence;
use crate::timing;
use crate::timing::TimingModel;
use crate::trigger::TriggerModel;

verus! {

/// The next run of a delay that repeats is the first of its runs after now:
/// it is whole intervals after the creation, it is after now, and the run before
/// it is not.
pub proof fn repeat_is_first_after_now(created_at: i64, seconds: int, now: Moment)
    requires
        0 < seconds <= i64::MAX,
        i64::MIN <= now.secs - created_at <= i64::MAX,
    ensures
        ({
            let next = timing::next_repeat(created_at as int, seconds, now.secs);
            &&& (next - created_at) % seconds == 0
            &&& next > now.secs
            &&& next - seconds <= now.secs
        }),
{
    let elapsed = now.secs - created_at;
    let whole = elapsed / seconds;
    lemma_fundamental_div_mod(elapsed, seconds);
    assert((whole + 1) * seconds == seconds * whole + seconds) by (nonlinear_arith);
    lemma_mod_multiples_vanish(whole + 1, 0, seconds);
    assert(seconds * (whole + 1) == (whole + 1) * seconds) by (nonlinear_arith);
}

/// Runs that were missed become one: after any number of them a stored delay
/// that repeats has one run that is due, and its next run is after now.
pub proof fn overdue_repeats_become_one(
    seconds: int,
    created_at: i64,
    stored_pending: bool,
    stored_next: i64,
    now: Moment,
)
    requires
        0 < seconds <= i64::MAX,
        i64::MIN <= now.secs - created_at <= i64::MAX,
        stored_next <= now.secs,
    ensures
        timing::restored_delay_timing(
            seconds,
            Some(true),
            created_at,
            stored_pending,
            Some(stored_next),
            now,
        ) matches Ok(t) ==> t.pending_run && (t.next_run_at matches Some(next) && next > now.secs
            && next - seconds <= now.secs),
{
    repeat_is_first_after_now(created_at, seconds, now);
}

/// A delay of no seconds that repeats is always due, and has neither a next run
/// nor a timer: new or stored.
pub proof fn idle_trigger_has_no_timer(
    created_at: Moment,
    stored_created_at: i64,
    stored_pending: bool,
    stored_next: Option<i64>,
    now: Moment,
)
    ensures
        timing::new_delay_timing(0, Some(true), created_at, now) matches Ok(t) && t.pending_run
            && t.next_run_at is None && t.timer_delay is None,
        timing::restored_delay_timing(
            0,
            Some(true),
            stored_created_at,
            stored_pending,
            stored_next,
            now,
        ) matches Ok(t) && t.pending_run && t.next_run_at is None && t.timer_delay is None,
{
}

/// A run of a schedule after a moment is after it.
pub proof fn next_occurrence_is_later(
    trigger: TriggerModel,
    after: Moment,
    zone: Seq<char>,
    outcome: Result<Option<i64>, Seq<char>>,
)
    requires
        timing::may_find_next(trigger, after, zone, outcome),
        calendar::in_calendar(after.secs, after.frac),
        after.secs < calendar::MAX_TIMESTAMP,
    ensures
        outcome matches Ok(Some(next)) ==> next > after.secs,
{
}

/// A search of a rule that means the same on every machine has one outcome.
pub proof fn steady_search_has_one_outcome(
    start: Seq<char>,
    rule: Seq<char>,
    after: Moment,
    zone: Seq<char>,
    one: Result<Option<i64>, Seq<char>>,
    other: Result<Option<i64>, Seq<char>>,
)
    requires
        recurrence::steady_rule(timing::bare_rule(rule)),
        timing::may_find_next(
            TriggerModel::Schedule { dtstart: Some(start), rrule: Some(rule) },
            after,
            zone,
            one,
        ),
        timing::may_find_next(
            TriggerModel::Schedule { dtstart: Some(start), rrule: Some(rule) },
            after,
            zone,
            other,
        ),
    ensures
        one == other,
{
}

/// A run of a new trigger whose rule was found to be due is followed by one that
/// is after now.
pub proof fn due_schedule_advances(
    trigger: TriggerModel,
    now: Moment,
    zone: Seq<char>,
    outcome: Result<TimingModel, Seq<char>>,
)
    requires
        timing::may_time_rule(trigger, now, zone, outcome),
        calendar::in_calendar(now.secs, now.frac),
        now.secs < calendar::MAX_TIMESTAMP,
    ensures
        outcome matches Ok(t) ==> (t.next_run_at matches Some(next) ==> next > now.secs),
{
    let found = choose|found: Result<Option<i64>, Seq<char>>|
        {
            &&& #[trigger] timing::may_find_next(trigger, timing::second_before(now), zone, found)
            &&& timing::may_time_found(trigger, now, zone, found, outcome)
        };
    if found matches Ok(Some(due)) && due <= now.secs {
        let next = choose|next: Result<Option<i64>, Seq<char>>|
            {
                &&& #[trigger] timing::may_find_next(trigger, now, zone, next)
                &&& outcome == (match next {
                    Ok(following) => Ok(
                        timing::timing_of_found(trigger, found->Ok_0, following, now),
                    ),
                    Err(e) => Err(e),
                })
            };
        next_occurrence_is_later(trigger, now, zone, next);
    }
}

/// A stored run that is still to come stays, with what was due before.
pub proof fn future_run_is_kept(
    trigger: TriggerModel,
    created_at: i64,
    stored_pending: bool,
    stored_next: i64,
    now: Moment,
    zone: Seq<char>,
    outcome: Result<TimingModel, Seq<char>>,
)
    requires
        stored_next > now.secs,
        !trigger.idle_recurring(),
        timing::may_time_stored_normalized(
            trigger,
            created_at,
            stored_pending,
            Some(stored_next),
            now,
            zone,
            outcome,
        ),
    ensures
        outcome == Ok::<_, Seq<char>>(
            timing::timing_of(trigger, stored_pending, Some(stored_next), now),
        ),
{
}

/// A timer is kept for a run that is not due, and for the next run of a trigger
/// that recurs; a run that is due and the only one has none.
pub proof fn timer_follows_next_run(
    trigger: TriggerModel,
    pending_run: bool,
    next_run_at: Option<i64>,
    now: Moment,
)
    requires
        calendar::in_calendar(now.secs, now.frac),
    ensures
        ({
            let t = timing::timing_of(trigger, pending_run, next_run_at, now);
            &&& pending_run && !trigger.recurring() ==> t.timer_delay is None
            &&& next_run_at is None ==> t.timer_delay is None
            &&& next_run_at matches Some(next) ==> (now.secs < next <= i64::MAX + now.secs && (
            !pending_run || trigger.recurring()) ==> t.timer_delay == Some(
                (next - now.secs) as u64,
            ))
        }),
{
}

/// Normalizing keeps a delay, and of a schedule what is given: its start and its
/// rule without white space at their ends. A given start is never replaced.
pub proof fn normalizing_keeps_what_is_given(
    trigger: TriggerModel,
    now: Moment,
    zone: Seq<char>,
    normal: TriggerModel,
)
    requires
        timing::may_normalize(trigger, now, zone, Ok(normal)),
    ensures
        trigger is Delay ==> normal == trigger,
        trigger matches TriggerModel::Schedule { dtstart, rrule } ==> (normal matches TriggerModel::Schedule {
            dtstart: Some(start),
            rrule: rule,
        } && rule == timing::cleaned(rrule) && (timing::cleaned(dtstart) matches Some(given) ==> start
            == given)),
{
}

/// The rule of a trigger, where it has one, means the same on every machine.
pub open spec fn has_steady_rule(trigger: TriggerModel) -> bool {
    trigger matches TriggerModel::Schedule { rrule: Some(rule), .. } ==> recurrence::steady_rule(
        timing::bare_rule(rule),
    )
}

/// Whether an outcome is the refusal of the rule of a trigger.
pub open spec fn refuses_rule<T>(trigger: TriggerModel, outcome: Result<T, Seq<char>>) -> bool {
    trigger matches TriggerModel::Schedule { rrule: Some(rule), .. } && outcome matches Err(e)
        && exists|fault: Seq<char>| e == #[trigger] timing::refused_rule_text(rule, fault)
}

/// Normalizing a trigger in normal form, which is what normalizing gives, gives
/// the trigger, whenever it is done, or else refuses its rule. It never refuses a
/// rule that means the same on every machine.
pub proof fn normal_form_is_stable(
    normal: TriggerModel,
    now: Moment,
    zone: Seq<char>,
    again: Result<TriggerModel, Seq<char>>,
)
    requires
        timing::is_normal(normal, zone),
        timing::may_normalize(normal, now, zone, again),
    ensures
        again == Ok::<_, Seq<char>>(normal) || refuses_rule(normal, again),
        has_steady_rule(normal) ==> again == Ok::<_, Seq<char>>(normal),
{
}

/// A new timing has the trigger that normalizing gave.
proof fn lemma_new_timing(
    trigger: TriggerModel,
    created_at: Moment,
    now: Moment,
    zone: Seq<char>,
    timing: TimingModel,
)
    requires
        timing::may_time_normalized(trigger, created_at, now, zone, Ok(timing)),
    ensures
        timing.trigger == trigger,
        trigger matches TriggerModel::Schedule { rrule: Some(_), .. } ==> timing.pending_run ==> exists|
            next: Result<Option<i64>, Seq<char>>,
        | #[trigger]
            timing::may_find_next(trigger, now, zone, next) && next == Ok::<_, Seq<char>>(
                timing.next_run_at,
            ),
        trigger matches TriggerModel::Schedule { rrule: Some(_), .. } ==> !timing.pending_run ==> (
        timing.next_run_at matches Some(next) ==> next > now.secs),
        timing == timing::timing_of(trigger, timing.pending_run, timing.next_run_at, now),
{
    if let TriggerModel::Schedule { rrule: Some(_), .. } = trigger {
        let found = choose|found: Result<Option<i64>, Seq<char>>|
            {
                &&& #[trigger] timing::may_find_next(
                    trigger,
                    timing::second_before(now),
                    zone,
                    found,
                )
                &&& timing::may_time_found(trigger, now, zone, found, Ok(timing))
            };
        let first = found->Ok_0;
        if first matches Some(due) && due <= now.secs {
            let next = choose|next: Result<Option<i64>, Seq<char>>|
                {
                    &&& #[trigger] timing::may_find_next(trigger, now, zone, next)
                    &&& Ok::<_, Seq<char>>(timing) == (match next {
                        Ok(following) => Ok(
                            timing::timing_of_found(trigger, first, following, now),
                        ),
                        Err(e) => Err(e),
                    })
                };
            assert(timing::may_find_next(trigger, now, zone, next));
        }
    }
}

/// The timing of a new trigger that is stored and timed again at the same instant
/// and in the same zone is the same, unless its rule is refused this time, which
/// happens to no rule that means the same on every machine: for a delay, and for a
/// schedule that has a next run. Left out are a start in a leap second that is
/// later in the second of now, and for other rules the last second of the
/// calendar.
pub proof fn new_timing_comes_back(
    trigger: TriggerModel,
    now: Moment,
    zone: Seq<char>,
    timing: TimingModel,
    again: Result<TimingModel, Seq<char>>,
)
    requires
        calendar::in_calendar(now.secs, now.frac),
        timing::may_time_new(trigger, now, now, zone, Ok(timing)),
        timing::is_normal(timing.trigger, zone),
        has_steady_rule(timing.trigger) || now.secs < calendar::MAX_TIMESTAMP,
        timing.trigger is Schedule ==> timing.next_run_at is Some,
        timing.trigger matches TriggerModel::Schedule { rrule: None, .. } ==> timing.pending_run
            || timing.next_run_at->0 > now.secs,
        timing::may_time_stored(
            timing.trigger,
            now.secs as i64,
            timing.pending_run,
            timing.next_run_at,
            now,
            zone,
            again,
        ),
    ensures
        again == Ok::<_, Seq<char>>(timing) || refuses_rule(timing.trigger, again),
        has_steady_rule(timing.trigger) ==> again == Ok::<_, Seq<char>>(timing),
{
    let first = choose|normalized: Result<TriggerModel, Seq<char>>|
        {
            &&& #[trigger] timing::may_normalize(trigger, now, zone, normalized)
            &&& match normalized {
                Ok(normal) => timing::may_time_normalized(normal, now, now, zone, Ok(timing)),
                Err(e) => Ok::<_, Seq<char>>(timing) == Err::<TimingModel, _>(e),
            }
        };
    let normal = first->Ok_0;
    lemma_new_timing(normal, now, now, zone, timing);
    let second = choose|normalized: Result<TriggerModel, Seq<char>>|
        {
            &&& #[trigger] timing::may_normalize(normal, now, zone, normalized)
            &&& match normalized {
                Ok(normal) => timing::may_time_stored_normalized(
                    normal,
                    now.secs as i64,
                    timing.pending_run,
                    timing.next_run_at,
                    now,
                    zone,
                    again,
                ),
                Err(e) => again == Err::<TimingModel, _>(e),
            }
        };
    normal_form_is_stable(normal, now, zone, second);
    if let TriggerModel::Schedule { dtstart: Some(start), rrule: Some(rule) } = normal {
        if second is Ok && timing::stored_rule_due(timing.next_run_at, now) {
            let before = choose|next: Result<Option<i64>, Seq<char>>| #[trigger]
                timing::may_find_next(normal, now, zone, next) && next == Ok::<_, Seq<char>>(
                    timing.next_run_at,
                );
            let after = choose|next: Result<Option<i64>, Seq<char>>|
                {
                    &&& #[trigger] timing::may_find_next(normal, now, zone, next)
                    &&& again == (match next {
                        Ok(following) => Ok(timing::timing_of(normal, true, following, now)),
                        Err(e) => Err(e),
                    })
                };
            if now.secs < calendar::MAX_TIMESTAMP {
                next_occurrence_is_later(normal, now, zone, before);
            }
            steady_search_has_one_outcome(start, rule, now, zone, before, after);
        }
    }
}

/// The name of its property before a rule changes nothing, whatever the rule: the
/// same rule set is checked and searched, so each outcome that a check or a search
/// may have with the name it may have without it, and with the same fault.
pub proof fn rule_name_leaves_every_outcome(
    start: ClockReading,
    rule: Seq<char>,
    name: Seq<char>,
    from: Moment,
    zone: Seq<char>,
    found: Option<i64>,
    fault: Seq<char>,
)
    requires
        name == "RRULE:"@ || name == "rrule:"@,
        !"RRULE:"@.is_prefix_of(rule),
        !"rrule:"@.is_prefix_of(rule),
    ensures
        recurrence::rule_set_text(zone, start, timing::bare_rule(name + rule))
            == recurrence::rule_set_text(zone, start, timing::bare_rule(rule)),
        timing::may_check(start, name + rule, zone, None) == timing::may_check(
            start,
            rule,
            zone,
            None,
        ),
        timing::may_check(
            start,
            name + rule,
            zone,
            Some(timing::refused_rule_text(name + rule, fault)),
        ) == timing::may_check(start, rule, zone, Some(timing::refused_rule_text(rule, fault))),
        timing::may_find(start, name + rule, zone, from, Ok(found)) == timing::may_find(
            start,
            rule,
            zone,
            from,
            Ok(found),
        ),
        timing::may_find(
            start,
            name + rule,
            zone,
            from,
            Err(timing::refused_rule_text(name + rule, fault)),
        ) == timing::may_find(
            start,
            rule,
            zone,
            from,
            Err(timing::refused_rule_text(rule, fault)),
        ),
{
    lemma_bare_rule(rule, name);
    let rule_set = recurrence::rule_set_text(zone, start, rule);
    if let Some(other) = recurrence::rule_set_fault(rule_set) {
        lemma_refusal_names_fault(rule, fault, other);
        lemma_refusal_names_fault(name + rule, fault, other);
    }
}

/// Two refusals of a rule in the same words are for the same fault.
proof fn lemma_refusal_names_fault(rule: Seq<char>, fault: Seq<char>, other: Seq<char>)
    ensures
        timing::refused_rule_text(rule, fault) == timing::refused_rule_text(rule, other) ==> fault
            == other,
{
    let head = "invalid schedule rrule `"@ + rule + "`: "@;
    let one = timing::refused_rule_text(rule, fault);
    let two = timing::refused_rule_text(rule, other);
    assert(one == head + fault);
    assert(two == head + other);
    assert(one.skip(head.len() as int) =~= fault);
    assert(two.skip(head.len() as int) =~= other);
}

/// The name of its property before a rule changes nothing: a rule set with it and
/// one without it are refused or not alike, and have the same occurrences. It is
/// stated of rules that mean the same on every machine, and of those that end at a
/// date without a time zone.
pub proof fn rule_name_changes_nothing(
    start: Seq<char>,
    rule: Seq<char>,
    name: Seq<char>,
    after: Moment,
    zone: Seq<char>,
    bare: Result<Option<i64>, Seq<char>>,
    named: Result<Option<i64>, Seq<char>>,
)
    requires
        name == "RRULE:"@ || name == "rrule:"@,
        !"RRULE:"@.is_prefix_of(rule),
        !"rrule:"@.is_prefix_of(rule),
        recurrence::steady_rule(rule) || recurrence::zoneless_until(rule),
        timing::may_find_next(
            TriggerModel::Schedule { dtstart: Some(start), rrule: Some(rule) },
            after,
            zone,
            bare,
        ),
        timing::may_find_next(
            TriggerModel::Schedule { dtstart: Some(start), rrule: Some(name + rule) },
            after,
            zone,
            named,
        ),
    ensures
        timing::bare_rule(name + rule) == timing::bare_rule(rule),
        bare is Ok <==> named is Ok,
        bare is Ok ==> named == bare,
{
    lemma_bare_rule(rule, name);
}

/// The name of its property before a rule does not change whether it is refused.
pub proof fn rule_name_refuses_nothing(
    start: ClockReading,
    rule: Seq<char>,
    name: Seq<char>,
    zone: Seq<char>,
    bare: Option<Seq<char>>,
    named: Option<Seq<char>>,
)
    requires
        name == "RRULE:"@ || name == "rrule:"@,
        !"RRULE:"@.is_prefix_of(rule),
        !"rrule:"@.is_prefix_of(rule),
        recurrence::steady_rule(rule) || recurrence::zoneless_until(rule),
        timing::may_check(start, rule, zone, bare),
        timing::may_check(start, name + rule, zone, named),
    ensures
        bare is Some <==> named is Some,
{
    lemma_bare_rule(rule, name);
}

/// A rule without the name of its property is what follows the name.
pub proof fn lemma_bare_rule(rule: Seq<char>, name: Seq<char>)
    requires
        name == "RRULE:"@ || name == "rrule:"@,
        !"RRULE:"@.is_prefix_of(rule),
        !"rrule:"@.is_prefix_of(rule),
    ensures
        timing::bare_rule(rule) == rule,
        timing::bare_rule(name + rule) == rule,
{
    reveal_strlit("RRULE:");
    reveal_strlit("rrule:");
    let whole = name + rule;
    assert(whole.subrange(0, name.len() as int) =~= name);
    assert(whole.skip(name.len() as int) =~= rule);
    assert(whole[0] == name[0]);
    if name == "rrule:"@ {
        assert("RRULE:"@[0] == 'R' && "rrule:"@[0] == 'r');
        if "RRULE:"@.is_prefix_of(whole) {
            assert(whole.subrange(0, 6)[0] == 'R');
        }
    }
}

/// A trigger without a start or without a rule has no occurrences to look for.
pub proof fn incomplete_schedule_is_refused(
    trigger: TriggerModel,
    after: Moment,
    zone: Seq<char>,
    outcome: Result<Option<i64>, Seq<char>>,
)
    requires
        !(trigger matches TriggerModel::Schedule { dtstart: Some(_), rrule: Some(_) }),
        timing::may_find_next(trigger, after, zone, outcome),
    ensures
        outcome == Err::<Option<i64>, _>("schedule trigger requires dtstart and rrule"@),
{
}

} // verus!
