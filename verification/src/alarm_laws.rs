//! What holds of the alarms of every thread.
use tokio_util::sync::CancellationToken;
use vstd::prelude::*;

use crate::alarm::{AlarmDelivery, PersistedModel, MAX_ACTIVE_ALARMS_PER_THREAD};
use crate::alarms;
use crate::alarms::{AlarmMap, CreateAlarm, RuntimeModel};
use crate::calendar;
use crate::calendar::Moment;
use crate::order;
use crate::timing;
use crate::timing::TimingModel;
use crate::timing_laws;
use crate::trigger::TriggerModel;

verus! {

/// Whether each alarm is found under its own id.
pub open spec fn own_ids(alarms: AlarmMap) -> bool {
    forall|id: Seq<char>| #[trigger] alarms.contains_key(id) ==> alarms[id].alarm.id == id
}

/// A new alarm that is let in does not take a thread over its limit.
pub proof fn create_keeps_limit(
    alarms: AlarmMap,
    request: CreateAlarm,
    timing: Result<TimingModel, Seq<char>>,
    timer_cancel: Option<CancellationToken>,
)
    requires
        alarms.dom().finite(),
        alarms.len() < MAX_ACTIVE_ALARMS_PER_THREAD,
    ensures
        alarms::alarms_after_create(alarms, request, timing, timer_cancel).len()
            <= MAX_ACTIVE_ALARMS_PER_THREAD,
{
}

/// A stored alarm that is let in does not take a thread over its limit.
pub proof fn restore_keeps_limit(
    alarms: AlarmMap,
    stored: PersistedModel,
    timing: Result<TimingModel, Seq<char>>,
    timer_cancel: Option<CancellationToken>,
)
    requires
        alarms.dom().finite(),
        alarms.len() < MAX_ACTIVE_ALARMS_PER_THREAD,
    ensures
        alarms::alarms_after_restore(alarms, stored, timing, timer_cancel).len()
            <= MAX_ACTIVE_ALARMS_PER_THREAD,
{
}

/// Putting a removed alarm back undoes the removal.
pub proof fn restoring_undoes_removing(alarms: AlarmMap, id: Seq<char>)
    requires
        own_ids(alarms),
        alarms.contains_key(id),
    ensures
        alarms.remove(id).insert(alarms[id].alarm.id, alarms[id]) == alarms,
{
    assert(alarms.remove(id).insert(id, alarms[id]) =~= alarms);
}

/// A stored alarm keeps its id, prompt, delivery and past when it is taken back.
pub proof fn restoring_keeps_the_past(
    alarms: AlarmMap,
    stored: PersistedModel,
    timing: TimingModel,
    timer_cancel: Option<CancellationToken>,
)
    ensures
        ({
            let after = alarms::alarms_after_restore(alarms, stored, Ok(timing), timer_cancel);
            let back = after[stored.alarm.id].alarm;
            &&& after.contains_key(stored.alarm.id)
            &&& back.id == stored.alarm.id
            &&& back.prompt == stored.alarm.prompt
            &&& back.delivery == stored.alarm.delivery
            &&& back.created_at == stored.alarm.created_at
            &&& back.last_run_at == stored.alarm.last_run_at
        }),
{
}

/// An alarm in normal form that is stored comes back as it was, with a new timer,
/// where its next run is still to come, or is its only one and was noted as due,
/// unless its rule is refused this time. No rule is refused that means the same on
/// every machine.
pub proof fn stored_alarm_comes_back(
    alarms: AlarmMap,
    runtime: RuntimeModel,
    next: i64,
    now: Moment,
    zone: Seq<char>,
    timing: Result<TimingModel, Seq<char>>,
    timer_cancel: Option<CancellationToken>,
)
    requires
        runtime.alarm.next_run_at == Some(next),
        next > now.secs || (runtime.pending_run && !runtime.alarm.trigger.recurring()),
        !runtime.alarm.trigger.idle_recurring(),
        timing::is_normal(runtime.alarm.trigger, zone),
        timing::may_time_stored(
            runtime.alarm.trigger,
            runtime.alarm.created_at,
            runtime.pending_run,
            runtime.alarm.next_run_at,
            now,
            zone,
            timing,
        ),
    ensures
        timing is Ok ==> alarms::alarms_after_restore(
            alarms,
            alarms::stored_form(runtime),
            timing,
            timer_cancel,
        ) == alarms.insert(runtime.alarm.id, RuntimeModel { timer_cancel, ..runtime }),
        timing is Ok || timing_laws::refuses_rule(runtime.alarm.trigger, timing),
        timing_laws::has_steady_rule(runtime.alarm.trigger) ==> timing is Ok,
{
    let trigger = runtime.alarm.trigger;
    let normalized = choose|normalized: Result<TriggerModel, Seq<char>>|
        {
            &&& #[trigger] timing::may_normalize(trigger, now, zone, normalized)
            &&& match normalized {
                Ok(normal) => timing::may_time_stored_normalized(
                    normal,
                    runtime.alarm.created_at,
                    runtime.pending_run,
                    runtime.alarm.next_run_at,
                    now,
                    zone,
                    timing,
                ),
                Err(e) => timing == Err::<TimingModel, _>(e),
            }
        };
    timing_laws::normal_form_is_stable(trigger, now, zone, normalized);
    if normalized is Ok && next > now.secs {
        timing_laws::future_run_is_kept(
            trigger,
            runtime.alarm.created_at,
            runtime.pending_run,
            next,
            now,
            zone,
            timing,
        );
    }
}

/// A new alarm that is stored and taken back at the same instant and in the same
/// zone is the alarm that was made, with its timer, unless its rule is refused this
/// time, which happens to no rule that means the same on every machine: for a
/// delay, and for a schedule that has a next run. Left out are a start in a leap
/// second that is later in the second of now, and for other rules the last second
/// of the calendar.
pub proof fn new_alarm_comes_back(
    alarms: AlarmMap,
    request: CreateAlarm,
    zone: Seq<char>,
    timing: TimingModel,
    again: Result<TimingModel, Seq<char>>,
    timer_cancel: Option<CancellationToken>,
)
    requires
        calendar::in_calendar(request.now@.secs, request.now@.frac),
        timing::may_time_new(
            request.trigger@,
            request.now@,
            request.now@,
            zone,
            Ok(timing),
        ),
        timing::is_normal(timing.trigger, zone),
        timing_laws::has_steady_rule(timing.trigger) || request.now@.secs
            < calendar::MAX_TIMESTAMP,
        timing.trigger is Schedule ==> timing.next_run_at is Some,
        timing.trigger matches TriggerModel::Schedule { rrule: None, .. } ==> timing.pending_run
            || timing.next_run_at->0 > request.now@.secs,
        timing::may_time_stored(
            timing.trigger,
            request.now@.secs as i64,
            timing.pending_run,
            timing.next_run_at,
            request.now@,
            zone,
            again,
        ),
    ensures
        ({
            let stored = PersistedModel {
                alarm: alarms::new_alarm(request, timing),
                pending_run: timing.pending_run,
            };
            &&& again is Ok ==> alarms::restored(again) == Ok::<_, Seq<char>>(
                alarms::timer_after(timing.timer_delay),
            )
            &&& again is Ok ==> alarms::alarms_after_restore(alarms, stored, again, timer_cancel)
                == alarms::alarms_after_create(alarms, request, Ok(timing), timer_cancel)
            &&& again is Ok || timing_laws::refuses_rule(timing.trigger, again)
            &&& timing_laws::has_steady_rule(timing.trigger) ==> again is Ok
        }),
{
    timing_laws::new_timing_comes_back(request.trigger@, request.now@, zone, timing, again);
}

/// An alarm that runs whenever the thread is idle comes back as it was, with a
/// new timer.
pub proof fn stored_idle_alarm_comes_back(
    alarms: AlarmMap,
    runtime: RuntimeModel,
    now: Moment,
    timing: Result<TimingModel, Seq<char>>,
    timer_cancel: Option<CancellationToken>,
)
    requires
        runtime.alarm.trigger.idle_recurring(),
        runtime.alarm.next_run_at is None,
        runtime.pending_run,
        alarms::may_time_persisted(alarms::stored_form(runtime), now, timing),
    ensures
        alarms::alarms_after_restore(alarms, alarms::stored_form(runtime), timing, timer_cancel)
            == alarms.insert(runtime.alarm.id, RuntimeModel { timer_cancel, ..runtime }),
{
}

/// One alarm at most runs next.
pub proof fn next_is_unique(
    alarms: AlarmMap,
    one: Seq<char>,
    other: Seq<char>,
    can_after_turn: bool,
    can_steer_current_turn: bool,
)
    requires
        own_ids(alarms),
        alarms::is_next(alarms, one, can_after_turn, can_steer_current_turn),
        alarms::is_next(alarms, other, can_after_turn, can_steer_current_turn),
    ensures
        one == other,
{
    let a = alarms[one].alarm;
    let b = alarms[other].alarm;
    assert(alarms::runs_before(a, b));
    assert(alarms::runs_before(b, a));
    order::lemma_text_le_antisymmetric(a.id, b.id);
}

/// A claim leaves every other alarm as it was.
pub proof fn claim_leaves_others(alarms: AlarmMap, id: Seq<char>, now: Moment, other: Seq<char>)
    requires
        other != id,
    ensures
        ({
            let after = alarms::alarms_after_claim(alarms, id, now);
            &&& after.contains_key(other) == alarms.contains_key(other)
            &&& alarms.contains_key(other) ==> after[other] == alarms[other]
        }),
{
}

/// A claim takes an alarm that runs once away, and keeps one that recurs, with
/// the time of the claim. Of those that it keeps, it leaves due those that run
/// whenever the thread is idle.
pub proof fn claim_removes_one_shots(alarms: AlarmMap, id: Seq<char>, now: Moment)
    requires
        alarms.contains_key(id),
    ensures
        ({
            let after = alarms::alarms_after_claim(alarms, id, now);
            let trigger = alarms[id].alarm.trigger;
            &&& after.contains_key(id) == trigger.recurring()
            &&& trigger.recurring() ==> {
                &&& after[id].alarm.last_run_at == Some(now.secs as i64)
                &&& after[id].alarm.next_run_at == alarms[id].alarm.next_run_at
                &&& after[id].pending_run == trigger.idle_recurring()
            }
        }),
{
}

/// An alarm that runs whenever the thread is idle waits for the end of the turn,
/// whatever its delivery.
pub proof fn idle_alarm_waits_for_idle(runtime: RuntimeModel, can_steer_current_turn: bool)
    requires
        runtime.alarm.trigger.idle_recurring(),
    ensures
        alarms::delivery_now(runtime, false, can_steer_current_turn) is None,
        runtime.pending_run ==> alarms::delivery_now(runtime, true, can_steer_current_turn) == Some(
            AlarmDelivery::AfterTurn,
        ),
{
}

/// Alarms take turns: one that was claimed does not run next while another, that
/// was last active before the claim, can run.
pub proof fn alarms_take_turns(
    alarms: AlarmMap,
    id: Seq<char>,
    now: Moment,
    other: Seq<char>,
    can_after_turn: bool,
    can_steer_current_turn: bool,
)
    requires
        alarms.contains_key(id),
        alarms.contains_key(other),
        other != id,
        i64::MIN <= now.secs <= i64::MAX,
        alarms::last_activity(alarms[other].alarm) < now.secs,
        alarms::delivery_now(alarms[other], can_after_turn, can_steer_current_turn) is Some,
    ensures
        !alarms::is_next(
            alarms::alarms_after_claim(alarms, id, now),
            id,
            can_after_turn,
            can_steer_current_turn,
        ),
{
    let after = alarms::alarms_after_claim(alarms, id, now);
    assert(after.contains_key(other));
}

/// Noting a due run twice is noting it once.
pub proof fn marking_due_twice_is_once(runtime: RuntimeModel, next: Result<Option<i64>, Seq<char>>)
    ensures
        alarms::runtime_after_due(alarms::runtime_after_due(runtime, next), next)
            == alarms::runtime_after_due(runtime, next),
{
}

/// The list of a thread's alarms is one list.
pub proof fn list_is_unique(one: Seq<PersistedModel>, other: Seq<PersistedModel>, alarms: AlarmMap)
    requires
        alarms::lists(one, alarms),
        alarms::lists(other, alarms),
    ensures
        one == other,
{
    lemma_list_prefix(one, other, alarms, one.len() as int);
    lemma_list_prefix(other, one, alarms, other.len() as int);
    assert(one =~= other);
}

proof fn lemma_list_prefix(
    one: Seq<PersistedModel>,
    other: Seq<PersistedModel>,
    alarms: AlarmMap,
    n: int,
)
    requires
        alarms::lists(one, alarms),
        alarms::lists(other, alarms),
        0 <= n <= one.len(),
    ensures
        n <= other.len(),
        forall|i: int| 0 <= i < n ==> one[i] == other[i],
    decreases n,
{
    if n > 0 {
        let i = n - 1;
        lemma_list_prefix(one, other, alarms, i);
        let id = one[i].alarm.id;
        assert(alarms.contains_key(id));
        let j = choose|j: int| 0 <= j < other.len() && (#[trigger] other[j]).alarm.id == id;
        assert(other[j] == one[i]);
        if j < i {
            assert(one[j] == other[j]);
            assert(alarms::listed_before(one[j].alarm, one[i].alarm));
            assert(false);
        }
        if j > i {
            let kept = other[i].alarm.id;
            assert(alarms.contains_key(kept));
            let k = choose|k: int| 0 <= k < one.len() && (#[trigger] one[k]).alarm.id == kept;
            assert(one[k] == other[i]);
            assert(alarms::listed_before(other[i].alarm, other[j].alarm));
            if k < i {
                assert(other[k] == one[k]);
                assert(alarms::listed_before(other[k].alarm, other[i].alarm));
            } else if k > i {
                assert(alarms::listed_before(one[i].alarm, one[k].alarm));
                let a = one[i].alarm;
                let b = one[k].alarm;
                order::lemma_text_le_antisymmetric(a.id, b.id);
            }
            assert(false);
        }
    }
}

} // verus!
