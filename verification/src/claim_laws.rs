//! Which alarm runs when, and what becomes of the alarms of a thread.
use tokio_util::sync::CancellationToken;
use vstd::prelude::*;

use crate::alarm::{
    AlarmDelivery, AlarmInvocationContext, AlarmModel, AlarmTimerSpec, ClaimedAlarm, PersistedAlarm,
    PersistedModel, ThreadAlarm, MAX_ACTIVE_ALARMS_PER_THREAD,
};
use crate::alarms;
use crate::alarms::{AlarmMap, AlarmRuntime, CreateAlarm, RuntimeModel};
use crate::calendar;
use crate::calendar::Moment;
use crate::delay_laws;
use crate::order;
use crate::schedule_laws;
use crate::timing;
use crate::timing::TimingModel;
use crate::trigger::TriggerModel;

verus! {

/// Whether an alarm runs whenever the thread is idle.
pub open spec fn is_idle(runtime: RuntimeModel) -> bool {
    runtime.alarm.trigger == TriggerModel::Delay { seconds: 0, repeat: Some(true) }
}

/// An alarm that is to be delivered after a turn is never delivered within one: it
/// runs where the thread is between turns, and waits where it is not.
pub proof fn after_turn_alarms_wait_for_the_turn(
    runtime: RuntimeModel,
    can_after_turn: bool,
    can_steer_current_turn: bool,
)
    requires
        runtime.alarm.delivery == AlarmDelivery::AfterTurn || is_idle(runtime),
    ensures
        !can_after_turn ==> alarms::delivery_now(
            runtime,
            can_after_turn,
            can_steer_current_turn,
        ) is None,
        can_after_turn && runtime.pending_run ==> alarms::delivery_now(
            runtime,
            can_after_turn,
            can_steer_current_turn,
        ) == Some(AlarmDelivery::AfterTurn),
{
}

/// A turn is steered only by an alarm that asks for it, where it can be steered.
/// Such an alarm runs within the turn where it can, else after it, and waits where
/// neither can be.
pub proof fn only_steering_alarms_steer(
    runtime: RuntimeModel,
    can_after_turn: bool,
    can_steer_current_turn: bool,
)
    ensures
        ({
            let delivery = alarms::delivery_now(runtime, can_after_turn, can_steer_current_turn);
            &&& delivery == Some(AlarmDelivery::SteerCurrentTurn) <==> runtime.pending_run
                && can_steer_current_turn && runtime.alarm.delivery
                == AlarmDelivery::SteerCurrentTurn && !is_idle(runtime)
            &&& delivery == Some(AlarmDelivery::AfterTurn) ==> runtime.pending_run && can_after_turn
            &&& runtime.pending_run && can_after_turn && !can_steer_current_turn ==> delivery
                == Some(AlarmDelivery::AfterTurn)
            &&& !can_after_turn && !can_steer_current_turn ==> delivery is None
        }),
{
}

/// An alarm of which no run is due is never delivered.
pub proof fn alarms_run_only_when_due(
    runtime: RuntimeModel,
    can_after_turn: bool,
    can_steer_current_turn: bool,
)
    requires
        !runtime.pending_run,
    ensures
        alarms::delivery_now(runtime, can_after_turn, can_steer_current_turn) is None,
{
}

/// Of two alarms that can run, the one that runs next ran earlier, or was created
/// earlier where they ran at the same time or have not run and were last active at
/// the same time, or has the smaller id where that is the same too.
pub proof fn next_alarm_waited_longest(
    alarms: AlarmMap,
    id: Seq<char>,
    other: Seq<char>,
    can_after_turn: bool,
    can_steer_current_turn: bool,
)
    requires
        alarms::is_next(alarms, id, can_after_turn, can_steer_current_turn),
        alarms.contains_key(other),
        alarms::delivery_now(alarms[other], can_after_turn, can_steer_current_turn) is Some,
    ensures
        ({
            let a = alarms[id].alarm;
            let b = alarms[other].alarm;
            let a_active = if a.last_run_at is Some {
                a.last_run_at->0
            } else {
                a.created_at
            };
            let b_active = if b.last_run_at is Some {
                b.last_run_at->0
            } else {
                b.created_at
            };
            &&& alarms.contains_key(id)
            &&& alarms::delivery_now(alarms[id], can_after_turn, can_steer_current_turn) is Some
            &&& a_active <= b_active
            &&& a_active == b_active ==> a.created_at <= b.created_at
            &&& a_active == b_active && a.created_at == b.created_at ==> order::text_le(a.id, b.id)
        }),
{
}

/// Nothing is claimed only where no alarm can run.
pub proof fn nothing_is_claimed_only_where_nothing_runs(
    alarms: AlarmMap,
    id: Seq<char>,
    can_after_turn: bool,
    can_steer_current_turn: bool,
)
    requires
        alarms::none_can_run(alarms, can_after_turn, can_steer_current_turn),
        alarms.contains_key(id),
    ensures
        alarms::delivery_now(alarms[id], can_after_turn, can_steer_current_turn) is None,
        alarms[id].pending_run ==> !can_after_turn,
        alarms[id].pending_run && can_steer_current_turn ==> is_idle(alarms[id])
            || alarms[id].alarm.delivery == AlarmDelivery::AfterTurn,
{
}

/// A claim hands over the alarm as it stands, with the delivery that it gets, and
/// with the time of the claim where it recurs.
pub proof fn claim_hands_over_the_alarm(alarm: AlarmModel, delivery: AlarmDelivery, now: Moment)
    requires
        -0x8000_0000_0000_0000 <= now.secs <= 0x7fff_ffff_ffff_ffff,
    ensures
        ({
            let claimed = alarms::claim_of(alarm, delivery, now);
            let recurring = match alarm.trigger {
                TriggerModel::Delay { repeat, .. } => repeat == Some(true),
                TriggerModel::Schedule { rrule, .. } => rrule is Some && rrule->0.len() > 0,
            };
            &&& claimed.context.current_alarm_id == alarm.id
            &&& claimed.context.trigger == alarm.trigger
            &&& claimed.context.prompt == alarm.prompt
            &&& claimed.context.recurring == recurring
            &&& claimed.context.delivery == delivery
            &&& claimed.deleted_one_shot_alarm == !recurring
            &&& claimed.alarm.id == alarm.id
            &&& claimed.alarm.trigger == alarm.trigger
            &&& claimed.alarm.prompt == alarm.prompt
            &&& claimed.alarm.delivery == alarm.delivery
            &&& claimed.alarm.created_at == alarm.created_at
            &&& claimed.alarm.next_run_at == alarm.next_run_at
            &&& recurring ==> (claimed.alarm.last_run_at matches Some(at) && at == now.secs)
            &&& !recurring ==> claimed.alarm.last_run_at == alarm.last_run_at
        }),
{
}

/// After a claim an alarm that runs once is gone, and its timer is the one to stop.
/// One that recurs stays with all that it had, its timer runs on, its last run is
/// now, and it is due again only where it runs whenever the thread is idle. Every
/// other alarm stays as it was.
pub proof fn claim_settles_the_alarm(
    alarms: AlarmMap,
    id: Seq<char>,
    other: Seq<char>,
    now: Moment,
)
    requires
        alarms.contains_key(id),
        other != id,
        -0x8000_0000_0000_0000 <= now.secs <= 0x7fff_ffff_ffff_ffff,
    ensures
        ({
            let before = alarms[id];
            let after = alarms::alarms_after_claim(alarms, id, now);
            let stopped = alarms::timer_stopped_by_claim(before);
            let recurring = match before.alarm.trigger {
                TriggerModel::Delay { repeat, .. } => repeat == Some(true),
                TriggerModel::Schedule { rrule, .. } => rrule is Some && rrule->0.len() > 0,
            };
            &&& after.contains_key(id) == recurring
            &&& !recurring ==> stopped == before.timer_cancel
            &&& recurring ==> {
                &&& stopped is None
                &&& after[id].timer_cancel == before.timer_cancel
                &&& after[id].pending_run == is_idle(before)
                &&& after[id].alarm.last_run_at matches Some(at) && at == now.secs
                &&& after[id].alarm.id == before.alarm.id
                &&& after[id].alarm.trigger == before.alarm.trigger
                &&& after[id].alarm.prompt == before.alarm.prompt
                &&& after[id].alarm.delivery == before.alarm.delivery
                &&& after[id].alarm.created_at == before.alarm.created_at
                &&& after[id].alarm.next_run_at == before.alarm.next_run_at
            }
            &&& after.contains_key(other) == alarms.contains_key(other)
            &&& alarms.contains_key(other) ==> after[other] == alarms[other]
        }),
{
}

/// A new alarm holds what was asked for: the id, the prompt and the delivery of the
/// request, the trigger and the next run of its timing, the creation now, and no
/// run so far. It is put among the others, which stay as they were, with its timer
/// and with what is due.
pub proof fn new_alarm_holds_what_was_asked(
    alarms: AlarmMap,
    request: CreateAlarm,
    timing: TimingModel,
    timer_cancel: Option<CancellationToken>,
    other: Seq<char>,
)
    requires
        other != request.id@,
        -0x8000_0000_0000_0000 <= request.now@.secs <= 0x7fff_ffff_ffff_ffff,
    ensures
        ({
            let made = alarms::created(request, Ok(timing));
            let after = alarms::alarms_after_create(alarms, request, Ok(timing), timer_cancel);
            &&& made matches Ok((alarm, timer)) && {
                &&& alarm.id == request.id@
                &&& alarm.trigger == timing.trigger
                &&& alarm.prompt == request.prompt@
                &&& alarm.delivery == request.delivery
                &&& alarm.created_at == request.now@.secs
                &&& alarm.next_run_at == timing.next_run_at
                &&& alarm.last_run_at is None
                &&& timing.timer_delay is None ==> timer is None
                &&& timing.timer_delay matches Some(seconds) ==> timer == Some(
                    AlarmTimerSpec { delay: seconds },
                )
                &&& after.contains_key(alarm.id)
                &&& after[alarm.id].alarm == alarm
                &&& after[alarm.id].pending_run == timing.pending_run
                &&& after[alarm.id].timer_cancel == timer_cancel
            }
            &&& after.contains_key(other) == alarms.contains_key(other)
            &&& alarms.contains_key(other) ==> after[other] == alarms[other]
        }),
{
}

/// A request whose trigger is refused changes nothing, and is answered with the
/// reason.
pub proof fn refused_request_changes_nothing(
    alarms: AlarmMap,
    request: CreateAlarm,
    stored: PersistedModel,
    reason: Seq<char>,
    timer_cancel: Option<CancellationToken>,
)
    ensures
        alarms::created(request, Err(reason)) == Err::<(AlarmModel, Option<AlarmTimerSpec>), Seq<char>>(
            reason,
        ),
        alarms::alarms_after_create(alarms, request, Err(reason), timer_cancel) == alarms,
        alarms::restored(Err(reason)) == Err::<Option<AlarmTimerSpec>, Seq<char>>(reason),
        alarms::alarms_after_restore(alarms, stored, Err(reason), timer_cancel) == alarms,
{
}

/// A stored alarm comes back with all that was stored of it, but for the trigger,
/// the next run and what is due, which are those of its timing. The others stay as
/// they were.
pub proof fn stored_alarm_keeps_what_was_stored(
    alarms: AlarmMap,
    stored: PersistedModel,
    timing: TimingModel,
    timer_cancel: Option<CancellationToken>,
    other: Seq<char>,
)
    requires
        other != stored.alarm.id,
    ensures
        ({
            let after = alarms::alarms_after_restore(alarms, stored, Ok(timing), timer_cancel);
            let back = after[stored.alarm.id];
            let timer = alarms::restored(Ok(timing));
            &&& after.contains_key(stored.alarm.id)
            &&& back.alarm.id == stored.alarm.id
            &&& back.alarm.trigger == timing.trigger
            &&& back.alarm.prompt == stored.alarm.prompt
            &&& back.alarm.delivery == stored.alarm.delivery
            &&& back.alarm.created_at == stored.alarm.created_at
            &&& back.alarm.next_run_at == timing.next_run_at
            &&& back.alarm.last_run_at == stored.alarm.last_run_at
            &&& back.pending_run == timing.pending_run
            &&& back.timer_cancel == timer_cancel
            &&& timing.timer_delay is None ==> timer == Ok::<Option<AlarmTimerSpec>, Seq<char>>(
                None,
            )
            &&& timing.timer_delay matches Some(seconds) ==> timer == Ok::<
                Option<AlarmTimerSpec>,
                Seq<char>,
            >(Some(AlarmTimerSpec { delay: seconds }))
            &&& after.contains_key(other) == alarms.contains_key(other)
            &&& alarms.contains_key(other) ==> after[other] == alarms[other]
        }),
{
}

/// A request for a delay makes an alarm that runs its seconds from now: a delay of
/// no seconds is due at once, any other has a timer of its seconds.
pub proof fn requested_delays_run_from_now(
    request: CreateAlarm,
    seconds: int,
    repeat: Option<bool>,
    timing: Result<TimingModel, Seq<char>>,
)
    requires
        request.trigger@ == (TriggerModel::Delay { seconds, repeat }),
        seconds >= 0,
        delay_laws::is_moment(request.now@),
        request.now@.secs + seconds <= 8_210_266_876_799,
        alarms::may_time_request(request, timing),
    ensures
        timing matches Ok(t) && {
            &&& t.trigger == request.trigger@
            &&& t.pending_run == (seconds == 0)
            &&& seconds == 0 && repeat == Some(true) ==> t.next_run_at is None && t.timer_delay is None
            &&& seconds == 0 && repeat != Some(true) ==> (t.next_run_at matches Some(at) && at
                == request.now@.secs) && t.timer_delay is None
            &&& seconds > 0 ==> (t.next_run_at matches Some(at) && at == request.now@.secs + seconds) && (
            t.timer_delay matches Some(wait) && wait == seconds)
        },
{
    let zone = choose|zone: Seq<char>|
        {
            &&& #[trigger] calendar::known_timezone(zone)
            &&& timing::may_time_new(request.trigger@, request.now@, request.now@, zone, timing)
            &&& timing::is_normal_timing(request.trigger@, request.now@, zone, timing)
        };
    delay_laws::new_delays_run_after_their_seconds(
        seconds,
        repeat,
        request.now@,
        request.now@,
        zone,
        timing,
    );
}

/// What is timed for a request is its trigger, created now, in a zone of the
/// database; and for a stored alarm its trigger with its creation, what was due and
/// its next run.
pub proof fn alarms_are_timed_as_they_are(
    request: CreateAlarm,
    new: Result<TimingModel, Seq<char>>,
    stored: PersistedModel,
    now: Moment,
    back: Result<TimingModel, Seq<char>>,
    alarm: AlarmModel,
    next: Result<Option<i64>, Seq<char>>,
)
    requires
        alarms::may_time_request(request, new),
        alarms::may_time_persisted(stored, now, back),
        alarms::may_advance(alarm, now, next),
    ensures
        exists|zone: Seq<char>| #[trigger]
            calendar::known_timezone(zone) && timing::may_time_new(
                request.trigger@,
                request.now@,
                request.now@,
                zone,
                new,
            ),
        exists|zone: Seq<char>| #[trigger]
            calendar::known_timezone(zone) && timing::may_time_stored(
                stored.alarm.trigger,
                stored.alarm.created_at,
                stored.pending_run,
                stored.alarm.next_run_at,
                now,
                zone,
                back,
            ),
        exists|zone: Seq<char>| #[trigger]
            calendar::known_timezone(zone) && timing::may_run_after_due(
                alarm.trigger,
                alarm.created_at,
                now,
                zone,
                next,
            ),
{
}

/// An alarm of which a run came due is due, has the next run that was found, or its
/// old one where none could be looked for, and is otherwise what it was.
pub proof fn due_alarms_change_nothing_else(
    runtime: RuntimeModel,
    next: Option<i64>,
    reason: Seq<char>,
)
    ensures
        ({
            let found = alarms::runtime_after_due(runtime, Ok(next));
            let failed = alarms::runtime_after_due(runtime, Err(reason));
            &&& found.pending_run && failed.pending_run
            &&& found.alarm.next_run_at == next
            &&& failed.alarm == runtime.alarm
            &&& found.timer_cancel == runtime.timer_cancel
            &&& failed.timer_cancel == runtime.timer_cancel
            &&& found.alarm.id == runtime.alarm.id
            &&& found.alarm.trigger == runtime.alarm.trigger
            &&& found.alarm.prompt == runtime.alarm.prompt
            &&& found.alarm.delivery == runtime.alarm.delivery
            &&& found.alarm.created_at == runtime.alarm.created_at
            &&& found.alarm.last_run_at == runtime.alarm.last_run_at
        }),
{
}

/// An alarm needs a timer up to its next run: none where it has no next run, or
/// where its only run is due, and one of no seconds where the run has come.
pub proof fn timers_end_with_the_next_run(runtime: RuntimeModel, next: i64, now: Moment)
    requires
        delay_laws::is_moment(now),
        runtime.alarm.next_run_at == Some(next),
    ensures
        ({
            let timer = alarms::timer_needed(runtime, now);
            let recurring = match runtime.alarm.trigger {
                TriggerModel::Delay { repeat, .. } => repeat == Some(true),
                TriggerModel::Schedule { rrule, .. } => rrule is Some && rrule->0.len() > 0,
            };
            &&& runtime.pending_run && !recurring ==> timer is None
            &&& (!runtime.pending_run || recurring) && next <= now.secs ==> timer == Some(
                AlarmTimerSpec { delay: 0 },
            )
            &&& (!runtime.pending_run || recurring) && next > now.secs && next - now.secs
                <= 0x7fff_ffff_ffff_ffff ==> (timer matches Some(spec) && now.secs + spec.delay
                == next)
        }),
{
}

/// An alarm without a next run needs no timer.
pub proof fn no_next_run_no_timer(runtime: RuntimeModel, now: Moment)
    requires
        runtime.alarm.next_run_at is None,
    ensures
        alarms::timer_needed(runtime, now) is None,
{
}

/// A list of alarms goes by creation, then by id, and holds each alarm of the
/// thread as it is, with what is due.
pub proof fn lists_go_by_creation_and_id(
    stored: Seq<PersistedModel>,
    alarms: AlarmMap,
    i: int,
    j: int,
    id: Seq<char>,
)
    requires
        alarms::lists(stored, alarms),
        0 <= i < j < stored.len(),
        alarms.contains_key(id),
        forall|k: Seq<char>| #[trigger] alarms.contains_key(k) ==> alarms[k].alarm.id == k,
    ensures
        stored[i].alarm.created_at <= stored[j].alarm.created_at,
        stored[i].alarm.created_at == stored[j].alarm.created_at ==> order::text_le(
            stored[i].alarm.id,
            stored[j].alarm.id,
        ) && stored[i].alarm.id != stored[j].alarm.id,
        alarms.contains_key(stored[i].alarm.id),
        stored[i].alarm == alarms[stored[i].alarm.id].alarm,
        stored[i].pending_run == alarms[stored[i].alarm.id].pending_run,
        exists|k: int|
            0 <= k < stored.len() && #[trigger] stored[k] == (PersistedModel {
                alarm: alarms[id].alarm,
                pending_run: alarms[id].pending_run,
            }),
{
    let k = choose|k: int| 0 <= k < stored.len() && (#[trigger] stored[k]).alarm.id == id;
    assert(stored[k] == PersistedModel {
        alarm: alarms[id].alarm,
        pending_run: alarms[id].pending_run,
    });
}

/// The alarms of stored ones, and the views of both, are the alarms one by one.
pub proof fn lists_keep_their_places(
    stored: Seq<PersistedModel>,
    i: int,
    v: Seq<PersistedAlarm>,
    j: int,
    w: Seq<ThreadAlarm>,
    k: int,
    runtime: RuntimeModel,
)
    requires
        0 <= i < stored.len(),
        0 <= j < v.len(),
        0 <= k < w.len(),
    ensures
        alarms::alarms_of(stored).len() == stored.len(),
        alarms::alarms_of(stored)[i] == stored[i].alarm,
        alarms::persisted_views(v).len() == v.len(),
        alarms::persisted_views(v)[j] == v[j]@,
        alarms::alarm_views(w).len() == w.len(),
        alarms::alarm_views(w)[k] == w[k]@,
        alarms::stored_form(runtime).alarm == runtime.alarm,
        alarms::stored_form(runtime).pending_run == runtime.pending_run,
{
}

/// The views of alarms hold all of their parts.
pub proof fn alarm_views_hold_all_parts(
    alarm: ThreadAlarm,
    context: AlarmInvocationContext,
    claimed: ClaimedAlarm,
    stored: PersistedAlarm,
    runtime: AlarmRuntime,
)
    ensures
        alarm@.id == alarm.id@ && alarm@.trigger == alarm.trigger@ && alarm@.prompt == alarm.prompt@,
        alarm@.delivery == alarm.delivery && alarm@.created_at == alarm.created_at,
        alarm@.next_run_at == alarm.next_run_at && alarm@.last_run_at == alarm.last_run_at,
        context@.current_alarm_id == context.current_alarm_id@ && context@.trigger
            == context.trigger@,
        context@.prompt == context.prompt@ && context@.recurring == context.recurring,
        context@.delivery == context.delivery,
        claimed@.alarm == claimed.alarm@ && claimed@.context == claimed.context@,
        claimed@.deleted_one_shot_alarm == claimed.deleted_one_shot_alarm,
        stored@.alarm == stored.alarm@ && stored@.pending_run == stored.pending_run,
        runtime@.alarm == runtime.alarm@ && runtime@.pending_run == runtime.pending_run,
        runtime@.timer_cancel == runtime.timer_cancel,
{
}

/// A run that was missed is due when the alarm is taken back, whatever its trigger,
/// and is then what the thread runs between turns.
pub proof fn missed_alarms_run_after_a_restart(
    alarms: AlarmMap,
    stored: PersistedModel,
    now: Moment,
    timing: TimingModel,
    timer_cancel: Option<CancellationToken>,
    can_steer_current_turn: bool,
)
    requires
        stored.pending_run || (stored.alarm.next_run_at is Some && stored.alarm.next_run_at->0
            <= now.secs),
        stored.alarm.next_run_at is Some,
        alarms::may_time_persisted(stored, now, Ok(timing)),
    ensures
        ({
            let after = alarms::alarms_after_restore(alarms, stored, Ok(timing), timer_cancel);
            &&& after.contains_key(stored.alarm.id)
            &&& after[stored.alarm.id].pending_run
            &&& alarms::delivery_now(
                after[stored.alarm.id],
                true,
                can_steer_current_turn,
            ) is Some
        }),
{
    let zone = choose|zone: Seq<char>|
        {
            &&& #[trigger] calendar::known_timezone(zone)
            &&& timing::may_time_stored(
                stored.alarm.trigger,
                stored.alarm.created_at,
                stored.pending_run,
                stored.alarm.next_run_at,
                now,
                zone,
                Ok(timing),
            )
            &&& timing::is_normal_timing(stored.alarm.trigger, now, zone, Ok(timing))
        };
    schedule_laws::missed_runs_are_due(
        stored.alarm.trigger,
        stored.alarm.created_at,
        stored.pending_run,
        stored.alarm.next_run_at->0,
        now,
        zone,
        timing,
    );
}

/// A thread never has more than 256 alarms: where a request or a stored alarm is
/// admitted, there are at most that many after it.
pub proof fn threads_have_256_alarms_at_most(
    alarms: AlarmMap,
    request: CreateAlarm,
    stored: PersistedModel,
    timing: Result<TimingModel, Seq<char>>,
    timer_cancel: Option<CancellationToken>,
)
    requires
        alarms.dom().finite(),
        alarms.len() < MAX_ACTIVE_ALARMS_PER_THREAD,
    ensures
        alarms.len() < 256,
        alarms::alarms_after_create(alarms, request, timing, timer_cancel).len() <= 256,
        alarms::alarms_after_restore(alarms, stored, timing, timer_cancel).len() <= 256,
{
}

/// A thread with fewer than 256 alarms takes another one.
pub proof fn threads_take_256_alarms(alarms: AlarmMap)
    requires
        alarms.len() < 256,
    ensures
        alarms.len() < MAX_ACTIVE_ALARMS_PER_THREAD,
{
}

} // verus!
