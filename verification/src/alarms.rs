//! The alarms of one thread, and which of them runs next.
use tokio_util::sync::CancellationToken;
use vstd::prelude::*;

use crate::alarm::{
    cancel_token, AlarmDelivery, AlarmInvocationContext, AlarmModel, AlarmTimerSpec, ClaimedAlarm,
    ClaimedModel, ContextModel, PersistedAlarm, PersistedModel, ThreadAlarm,
    MAX_ACTIVE_ALARMS_PER_THREAD,
};
use crate::calendar;
use crate::calendar::{Moment, UtcInstant};
use crate::keyed;
use crate::order;
use crate::order::str_le;
use crate::text;
use crate::text::copy_of;
use crate::timing;
use crate::timing::{
    next_run_after_due, timer_delay, timing_for_new_trigger, timing_for_restored_trigger,
    TimingModel, TriggerTiming,
};
use crate::trigger::AlarmTrigger;

verus! {

/// An alarm with the state of its timer.
#[derive(Debug)]
pub struct AlarmRuntime {
    pub alarm: ThreadAlarm,
    /// Whether a run is due.
    pub pending_run: bool,
    pub timer_cancel: Option<CancellationToken>,
}

/// The view of an [`AlarmRuntime`].
pub struct RuntimeModel {
    pub alarm: AlarmModel,
    pub pending_run: bool,
    pub timer_cancel: Option<CancellationToken>,
}

impl View for AlarmRuntime {
    type V = RuntimeModel;

    open spec fn view(&self) -> RuntimeModel {
        RuntimeModel {
            alarm: self.alarm@,
            pending_run: self.pending_run,
            timer_cancel: self.timer_cancel,
        }
    }
}

/// The alarms of one thread.
#[derive(Debug)]
pub struct AlarmsState {
    alarms: Vec<AlarmRuntime>,
}

/// The alarms of a thread by their ids.
pub type AlarmMap = Map<Seq<char>, RuntimeModel>;

spec fn entries(runtimes: Seq<AlarmRuntime>) -> Seq<(Seq<char>, RuntimeModel)> {
    runtimes.map_values(|runtime: AlarmRuntime| (runtime.alarm.id@, runtime@))
}

impl AlarmsState {
    /// The alarms by their ids.
    pub closed spec fn view(&self) -> AlarmMap {
        keyed::by_key(entries(self.alarms@))
    }

    /// Each alarm is found under its own id, and the weekdays of its rule can be
    /// cut out.
    pub closed spec fn wf(&self) -> bool {
        &&& keyed::keys(entries(self.alarms@)).no_duplicates()
        &&& forall|i: int|
            0 <= i < self.alarms@.len() ==> timing::rule_cuts_cleanly(
                (#[trigger] self.alarms@[i]).alarm.trigger@,
            )
    }

    /// What `wf` says of the alarms by their ids.
    pub proof fn lemma_wf(&self)
        requires
            self.wf(),
        ensures
            self@.dom().finite(),
            forall|id: Seq<char>| #[trigger] self@.contains_key(id) ==> self@[id].alarm.id == id,
            forall|id: Seq<char>| #[trigger]
                self@.contains_key(id) ==> timing::rule_cuts_cleanly(self@[id].alarm.trigger),
    {
        keyed::lemma_count(entries(self.alarms@));
        assert forall|id: Seq<char>| #[trigger] self@.contains_key(id) implies self@[id].alarm.id
            == id && timing::rule_cuts_cleanly(self@[id].alarm.trigger) by {
            let i = keyed::lemma_place(entries(self.alarms@), id);
        }
    }

    /// No alarms.
    pub fn new() -> (r: AlarmsState)
        ensures
            r.wf(),
            r@ == Map::<Seq<char>, RuntimeModel>::empty(),
    {
        let r = AlarmsState { alarms: Vec::new() };
        assert(r@ =~= Map::<Seq<char>, RuntimeModel>::empty());
        r
    }

    /// The place of the alarm with the given id.
    fn find(&self, id: &str) -> (r: Option<usize>)
        requires
            self.wf(),
        ensures
            match r {
                Some(i) => {
                    &&& i < self.alarms@.len()
                    &&& self.alarms@[i as int].alarm.id@ == id@
                    &&& self@.contains_key(id@)
                    &&& self@[id@] == self.alarms@[i as int]@
                },
                None => !self@.contains_key(id@),
            },
    {
        let mut i: usize = 0;
        while i < self.alarms.len()
            invariant
                self.wf(),
                i <= self.alarms@.len(),
                forall|k: int| 0 <= k < i ==> (#[trigger] self.alarms@[k]).alarm.id@ != id@,
            decreases self.alarms@.len() - i,
        {
            if text::str_eq(self.alarms[i].alarm.id.as_str(), id) {
                proof {
                    keyed::lemma_entry(entries(self.alarms@), i as int);
                }
                return Some(i);
            }
            i = i + 1;
        }
        proof {
            if self@.contains_key(id@) {
                let k = keyed::lemma_place(entries(self.alarms@), id@);
            }
        }
        None
    }

    /// Removes the alarm with the given id.
    pub fn remove_alarm(&mut self, id: &str) -> (r: Option<AlarmRuntime>)
        requires
            old(self).wf(),
        ensures
            final(self).wf(),
            match r {
                Some(runtime) => {
                    &&& old(self)@.contains_key(id@)
                    &&& runtime@ == old(self)@[id@]
                    &&& timing::rule_cuts_cleanly(runtime@.alarm.trigger)
                },
                None => !old(self)@.contains_key(id@),
            },
            final(self)@ == old(self)@.remove(id@),
    {
        match self.find(id) {
            None => {
                assert(self@ =~= old(self)@.remove(id@));
                None
            },
            Some(i) => {
                let ghost before = self.alarms@;
                let runtime = self.alarms.remove(i);
                proof {
                    keyed::lemma_removed(entries(before), i as int);
                    assert(entries(self.alarms@) =~= entries(before).remove(i as int));
                }
                Some(runtime)
            },
        }
    }

    /// Puts an alarm under its id, in the place of one with the same id.
    pub fn restore_runtime(&mut self, runtime: AlarmRuntime)
        requires
            old(self).wf(),
            timing::rule_cuts_cleanly(runtime@.alarm.trigger),
        ensures
            final(self).wf(),
            final(self)@ == old(self)@.insert(runtime@.alarm.id, runtime@),
    {
        let replaced = self.remove_alarm(runtime.alarm.id.as_str());
        let ghost before = self.alarms@;
        let ghost added = runtime;
        self.alarms.push(runtime);
        proof {
            keyed::lemma_pushed(entries(before), (added.alarm.id@, added@));
            assert(entries(self.alarms@) =~= entries(before).push((added.alarm.id@, added@)));
            assert(self@ =~= old(self)@.insert(added@.alarm.id, added@));
        }
    }
}

/// How an alarm would be delivered now, if it can run now. One that runs
/// whenever the thread is idle waits for the end of the turn.
pub open spec fn delivery_now(
    runtime: RuntimeModel,
    can_after_turn: bool,
    can_steer_current_turn: bool,
) -> Option<AlarmDelivery> {
    if !runtime.pending_run {
        None
    } else if !runtime.alarm.trigger.idle_recurring() && runtime.alarm.delivery
        == AlarmDelivery::SteerCurrentTurn && can_steer_current_turn {
        Some(AlarmDelivery::SteerCurrentTurn)
    } else if can_after_turn {
        Some(AlarmDelivery::AfterTurn)
    } else {
        None
    }
}

/// When an alarm ran last, or when it was created.
pub open spec fn last_activity(alarm: AlarmModel) -> i64 {
    match alarm.last_run_at {
        Some(at) => at,
        None => alarm.created_at,
    }
}

/// The order in which alarms run: the one that ran least recently first, then
/// the older one, then the one with the smaller id.
pub open spec fn runs_before(a: AlarmModel, b: AlarmModel) -> bool {
    if last_activity(a) != last_activity(b) {
        last_activity(a) < last_activity(b)
    } else if a.created_at != b.created_at {
        a.created_at < b.created_at
    } else {
        order::text_le(a.id, b.id)
    }
}

/// Whether an alarm is the one that runs next.
pub open spec fn is_next(
    alarms: AlarmMap,
    id: Seq<char>,
    can_after_turn: bool,
    can_steer_current_turn: bool,
) -> bool {
    &&& alarms.contains_key(id)
    &&& delivery_now(alarms[id], can_after_turn, can_steer_current_turn) is Some
    &&& forall|other: Seq<char>|
        #![trigger alarms.contains_key(other)]
        alarms.contains_key(other) && delivery_now(
            alarms[other],
            can_after_turn,
            can_steer_current_turn,
        ) is Some ==> runs_before(alarms[id].alarm, alarms[other].alarm)
}

/// Whether no alarm can run.
pub open spec fn none_can_run(
    alarms: AlarmMap,
    can_after_turn: bool,
    can_steer_current_turn: bool,
) -> bool {
    forall|id: Seq<char>| #[trigger]
        alarms.contains_key(id) ==> delivery_now(
            alarms[id],
            can_after_turn,
            can_steer_current_turn,
        ) is None
}

/// An alarm after its run began: one that recurs remembers the time.
pub open spec fn alarm_after_claim(alarm: AlarmModel, now: Moment) -> AlarmModel {
    if alarm.trigger.recurring() {
        AlarmModel { last_run_at: Some(now.secs as i64), ..alarm }
    } else {
        alarm
    }
}

/// What the claim of an alarm gives.
pub open spec fn claim_of(alarm: AlarmModel, delivery: AlarmDelivery, now: Moment) -> ClaimedModel {
    ClaimedModel {
        alarm: alarm_after_claim(alarm, now),
        context: ContextModel {
            current_alarm_id: alarm.id,
            trigger: alarm.trigger,
            prompt: alarm.prompt,
            recurring: alarm.trigger.recurring(),
            delivery,
        },
        deleted_one_shot_alarm: !alarm.trigger.recurring(),
    }
}

/// The alarms after the claim of one. It leaves, unless it recurs; one that runs
/// whenever the thread is idle stays due.
pub open spec fn alarms_after_claim(alarms: AlarmMap, id: Seq<char>, now: Moment) -> AlarmMap {
    let runtime = alarms[id];
    if runtime.alarm.trigger.recurring() {
        alarms.insert(
            id,
            RuntimeModel {
                alarm: alarm_after_claim(runtime.alarm, now),
                pending_run: runtime.alarm.trigger.idle_recurring(),
                timer_cancel: runtime.timer_cancel,
            },
        )
    } else {
        alarms.remove(id)
    }
}

/// The timer that the claim of an alarm stops: that of one that leaves.
pub open spec fn timer_stopped_by_claim(runtime: RuntimeModel) -> Option<CancellationToken> {
    if runtime.alarm.trigger.recurring() {
        None
    } else {
        runtime.timer_cancel
    }
}

fn choose_delivery(
    runtime: &AlarmRuntime,
    can_after_turn: bool,
    can_steer_current_turn: bool,
) -> (r: Option<AlarmDelivery>)
    ensures
        r == delivery_now(runtime@, can_after_turn, can_steer_current_turn),
{
    if !runtime.pending_run {
        return None;
    }
    if runtime.alarm.trigger.is_idle_recurring() {
        return if can_after_turn {
            Some(AlarmDelivery::AfterTurn)
        } else {
            None
        };
    }
    match runtime.alarm.delivery {
        AlarmDelivery::AfterTurn => if can_after_turn {
            Some(AlarmDelivery::AfterTurn)
        } else {
            None
        },
        AlarmDelivery::SteerCurrentTurn => if can_steer_current_turn {
            Some(AlarmDelivery::SteerCurrentTurn)
        } else if can_after_turn {
            Some(AlarmDelivery::AfterTurn)
        } else {
            None
        },
    }
}

fn last_active_at(alarm: &ThreadAlarm) -> (r: i64)
    ensures
        r == last_activity(alarm@),
{
    match alarm.last_run_at {
        Some(at) => at,
        None => alarm.created_at,
    }
}

fn is_before(a: &ThreadAlarm, b: &ThreadAlarm) -> (r: bool)
    ensures
        r == runs_before(a@, b@),
{
    let left: i64 = last_active_at(a);
    let right: i64 = last_active_at(b);
    if left != right {
        left < right
    } else if a.created_at != b.created_at {
        a.created_at < b.created_at
    } else {
        str_le(a.id.as_str(), b.id.as_str())
    }
}

proof fn lemma_runs_before(a: AlarmModel, b: AlarmModel, c: AlarmModel)
    ensures
        runs_before(a, a),
        runs_before(a, b) || runs_before(b, a),
        runs_before(a, b) && runs_before(b, c) ==> runs_before(a, c),
        runs_before(a, b) && runs_before(b, a) ==> a.id == b.id,
{
    order::lemma_text_le_reflexive(a.id);
    order::lemma_text_le_total(a.id, b.id);
    if order::text_le(a.id, b.id) && order::text_le(b.id, c.id) {
        order::lemma_text_le_transitive(a.id, b.id, c.id);
    }
    if order::text_le(a.id, b.id) && order::text_le(b.id, a.id) {
        order::lemma_text_le_antisymmetric(a.id, b.id);
    }
}

impl AlarmsState {
    /// The place of the alarm that runs next, and its delivery.
    fn find_next(&self, can_after_turn: bool, can_steer_current_turn: bool) -> (r: Option<
        (usize, AlarmDelivery),
    >)
        requires
            self.wf(),
        ensures
            match r {
                Some((i, delivery)) => {
                    let id = self.alarms@[i as int].alarm.id@;
                    &&& i < self.alarms@.len()
                    &&& is_next(self@, id, can_after_turn, can_steer_current_turn)
                    &&& self@[id] == self.alarms@[i as int]@
                    &&& delivery_now(self@[id], can_after_turn, can_steer_current_turn) == Some(
                        delivery,
                    )
                },
                None => none_can_run(self@, can_after_turn, can_steer_current_turn),
            },
    {
        let mut best: Option<(usize, AlarmDelivery)> = None;
        let mut i: usize = 0;
        while i < self.alarms.len()
            invariant
                self.wf(),
                i <= self.alarms@.len(),
                match best {
                    Some((b, delivery)) => {
                        &&& b < i
                        &&& delivery_now(
                            self.alarms@[b as int]@,
                            can_after_turn,
                            can_steer_current_turn,
                        ) == Some(delivery)
                        &&& forall|k: int|
                            0 <= k < i && delivery_now(
                                (#[trigger] self.alarms@[k])@,
                                can_after_turn,
                                can_steer_current_turn,
                            ) is Some ==> runs_before(
                                self.alarms@[b as int].alarm@,
                                self.alarms@[k].alarm@,
                            )
                    },
                    None => forall|k: int|
                        0 <= k < i ==> delivery_now(
                            (#[trigger] self.alarms@[k])@,
                            can_after_turn,
                            can_steer_current_turn,
                        ) is None,
                },
            decreases self.alarms@.len() - i,
        {
            let delivery = choose_delivery(
                &self.alarms[i],
                can_after_turn,
                can_steer_current_turn,
            );
            if let Some(chosen) = delivery {
                let better = match best {
                    Some((b, _)) => !is_before(&self.alarms[b].alarm, &self.alarms[i].alarm),
                    None => true,
                };
                proof {
                    let here = self.alarms@[i as int].alarm@;
                    lemma_runs_before(here, here, here);
                    if let Some((b, _)) = best {
                        let kept = self.alarms@[b as int].alarm@;
                        assert forall|k: int|
                            0 <= k < i && better && delivery_now(
                                (#[trigger] self.alarms@[k])@,
                                can_after_turn,
                                can_steer_current_turn,
                            ) is Some implies runs_before(here, self.alarms@[k].alarm@) by {
                            lemma_runs_before(here, kept, self.alarms@[k].alarm@);
                        }
                    }
                }
                if better {
                    best = Some((i, chosen));
                }
            }
            i = i + 1;
        }
        proof {
            assert forall|id: Seq<char>| #[trigger]
                self@.contains_key(id) implies exists|k: int|
                0 <= k < self.alarms@.len() && self@[id] == #[trigger] self.alarms@[k]@ by {
                let k = keyed::lemma_place(entries(self.alarms@), id);
            }
            if let Some((b, _)) = best {
                keyed::lemma_entry(entries(self.alarms@), b as int);
            }
        }
        best
    }

    /// Claims the alarm that runs next, and hands over the timer that has to
    /// stop.
    pub fn take_next_alarm(
        &mut self,
        now: UtcInstant,
        can_after_turn: bool,
        can_steer_current_turn: bool,
    ) -> (r: Option<(ClaimedAlarm, Option<CancellationToken>)>)
        requires
            old(self).wf(),
        ensures
            final(self).wf(),
            match r {
                Some((claimed, stopped)) => {
                    let id = claimed@.alarm.id;
                    let runtime = old(self)@[id];
                    &&& is_next(old(self)@, id, can_after_turn, can_steer_current_turn)
                    &&& delivery_now(runtime, can_after_turn, can_steer_current_turn) matches Some(
                        delivery,
                    ) && claimed@ == claim_of(runtime.alarm, delivery, now@)
                    &&& stopped == timer_stopped_by_claim(runtime)
                    &&& final(self)@ == alarms_after_claim(old(self)@, id, now@)
                },
                None => {
                    &&& none_can_run(old(self)@, can_after_turn, can_steer_current_turn)
                    &&& final(self)@ == old(self)@
                },
            },
    {
        match self.find_next(can_after_turn, can_steer_current_turn) {
            None => None,
            Some((i, delivery)) => {
                let ghost before = self.alarms@;
                let ghost id = self.alarms@[i as int].alarm.id@;
                let runtime = self.alarms.remove(i);
                proof {
                    keyed::lemma_removed(entries(before), i as int);
                    assert(entries(self.alarms@) =~= entries(before).remove(i as int));
                }
                let AlarmRuntime { mut alarm, pending_run: _, timer_cancel } = runtime;
                let recurring = alarm.trigger.is_recurring();
                let context = AlarmInvocationContext {
                    current_alarm_id: copy_of(alarm.id.as_str()),
                    trigger: alarm.trigger.clone(),
                    prompt: copy_of(alarm.prompt.as_str()),
                    recurring,
                    delivery,
                };
                if recurring {
                    alarm.last_run_at = Some(now.timestamp());
                    let pending_run = alarm.trigger.is_idle_recurring();
                    let kept = AlarmRuntime { alarm: alarm.clone(), pending_run, timer_cancel };
                    self.restore_runtime(kept);
                    proof {
                        assert(self@ =~= alarms_after_claim(old(self)@, id, now@));
                    }
                    Some((ClaimedAlarm { alarm, context, deleted_one_shot_alarm: false }, None))
                } else {
                    Some((ClaimedAlarm { alarm, context, deleted_one_shot_alarm: true }, timer_cancel))
                }
            },
        }
    }

    /// Claims the alarm that runs next, and stops its timer where it leaves.
    pub fn claim_next_alarm(
        &mut self,
        now: UtcInstant,
        can_after_turn: bool,
        can_steer_current_turn: bool,
    ) -> (r: Option<ClaimedAlarm>)
        requires
            old(self).wf(),
        ensures
            final(self).wf(),
            match r {
                Some(claimed) => {
                    let id = claimed@.alarm.id;
                    let runtime = old(self)@[id];
                    &&& is_next(old(self)@, id, can_after_turn, can_steer_current_turn)
                    &&& delivery_now(runtime, can_after_turn, can_steer_current_turn) matches Some(
                        delivery,
                    ) && claimed@ == claim_of(runtime.alarm, delivery, now@)
                    &&& final(self)@ == alarms_after_claim(old(self)@, id, now@)
                },
                None => {
                    &&& none_can_run(old(self)@, can_after_turn, can_steer_current_turn)
                    &&& final(self)@ == old(self)@
                },
            },
    {
        match self.take_next_alarm(now, can_after_turn, can_steer_current_turn) {
            None => None,
            Some((claimed, stopped)) => {
                if let Some(token) = stopped {
                    cancel_token(&token);
                }
                Some(claimed)
            },
        }
    }

    /// Stops the timer of an alarm.
    pub fn cancel_runtime(runtime: &AlarmRuntime) {
        if let Some(token) = &runtime.timer_cancel {
            cancel_token(token);
        }
    }
}

/// A request for a new alarm.
#[derive(Debug)]
pub struct CreateAlarm {
    pub id: String,
    pub trigger: AlarmTrigger,
    pub prompt: String,
    pub delivery: AlarmDelivery,
    pub now: UtcInstant,
}

/// A timer of the given delay, where there is one.
pub open spec fn timer_after(delay: Option<u64>) -> Option<AlarmTimerSpec> {
    match delay {
        Some(delay) => Some(AlarmTimerSpec { delay }),
        None => None,
    }
}

fn timer_of_delay(delay: Option<u64>) -> (r: Option<AlarmTimerSpec>)
    ensures
        r == timer_after(delay),
{
    match delay {
        Some(delay) => Some(AlarmTimerSpec { delay }),
        None => None,
    }
}

/// The timer that an alarm needs. One whose only run is due needs none.
pub open spec fn timer_needed(runtime: RuntimeModel, now: Moment) -> Option<AlarmTimerSpec> {
    match runtime.alarm.next_run_at {
        Some(next) => if runtime.pending_run && !runtime.alarm.trigger.recurring() {
            None
        } else {
            timer_after(timing::delay_until(next, now))
        },
        None => None,
    }
}

/// The new alarm that a request asks for, with its timing.
pub open spec fn new_alarm(request: CreateAlarm, timing: TimingModel) -> AlarmModel {
    AlarmModel {
        id: request.id@,
        trigger: timing.trigger,
        prompt: request.prompt@,
        delivery: request.delivery,
        created_at: request.now@.secs as i64,
        next_run_at: timing.next_run_at,
        last_run_at: None,
    }
}

pub open spec fn too_many_active_text() -> Seq<char> {
    "too many active alarms; each thread supports at most 256 alarms"@
}

pub open spec fn too_many_persisted_text() -> Seq<char> {
    "too many persisted alarms; each thread supports at most 256 alarms"@
}

/// What a request for a new alarm gives, given its timing.
pub open spec fn created(request: CreateAlarm, timing: Result<TimingModel, Seq<char>>) -> Result<
    (AlarmModel, Option<AlarmTimerSpec>),
    Seq<char>,
> {
    match timing {
        Ok(t) => Ok((new_alarm(request, t), timer_after(t.timer_delay))),
        Err(e) => Err(e),
    }
}

/// The alarms after a request for a new one, given its timing.
pub open spec fn alarms_after_create(
    alarms: AlarmMap,
    request: CreateAlarm,
    timing: Result<TimingModel, Seq<char>>,
    timer_cancel: Option<CancellationToken>,
) -> AlarmMap {
    match timing {
        Ok(t) => alarms.insert(
            request.id@,
            RuntimeModel {
                alarm: new_alarm(request, t),
                pending_run: t.pending_run,
                timer_cancel,
            },
        ),
        Err(_) => alarms,
    }
}

/// The view of what a request for a new alarm gave.
pub open spec fn created_view(r: Result<(ThreadAlarm, Option<AlarmTimerSpec>), String>) -> Result<
    (AlarmModel, Option<AlarmTimerSpec>),
    Seq<char>,
> {
    match r {
        Ok((alarm, timer)) => Ok((alarm@, timer)),
        Err(e) => Err(e@),
    }
}

/// Whether a timing is one of a new trigger in a time zone of the database.
pub open spec fn may_time_request(
    request: CreateAlarm,
    timing: Result<TimingModel, Seq<char>>,
) -> bool {
    exists|zone: Seq<char>|
        {
            &&& #[trigger] calendar::known_timezone(zone)
            &&& timing::may_time_new(request.trigger@, request.now@, request.now@, zone, timing)
            &&& timing::is_normal_timing(request.trigger@, request.now@, zone, timing)
        }
}

/// A stored alarm with its timing.
pub open spec fn restored_alarm(alarm: AlarmModel, timing: TimingModel) -> AlarmModel {
    AlarmModel { trigger: timing.trigger, next_run_at: timing.next_run_at, ..alarm }
}

/// The alarms after one is restored, given its timing.
pub open spec fn alarms_after_restore(
    alarms: AlarmMap,
    stored: PersistedModel,
    timing: Result<TimingModel, Seq<char>>,
    timer_cancel: Option<CancellationToken>,
) -> AlarmMap {
    match timing {
        Ok(t) => alarms.insert(
            stored.alarm.id,
            RuntimeModel {
                alarm: restored_alarm(stored.alarm, t),
                pending_run: t.pending_run,
                timer_cancel,
            },
        ),
        Err(_) => alarms,
    }
}

/// What restoring an alarm gives, given its timing.
pub open spec fn restored(timing: Result<TimingModel, Seq<char>>) -> Result<
    Option<AlarmTimerSpec>,
    Seq<char>,
> {
    match timing {
        Ok(t) => Ok(timer_after(t.timer_delay)),
        Err(e) => Err(e),
    }
}

/// Whether a timing is one of a stored alarm in a time zone of the database.
pub open spec fn may_time_persisted(
    stored: PersistedModel,
    now: Moment,
    timing: Result<TimingModel, Seq<char>>,
) -> bool {
    exists|zone: Seq<char>|
        {
            &&& #[trigger] calendar::known_timezone(zone)
            &&& timing::may_time_stored(
                stored.alarm.trigger,
                stored.alarm.created_at,
                stored.pending_run,
                stored.alarm.next_run_at,
                now,
                zone,
                timing,
            )
            &&& timing::is_normal_timing(stored.alarm.trigger, now, zone, timing)
        }
}

/// An alarm of which a run became due, given the search for its next run. Where
/// that failed the next run stays.
pub open spec fn runtime_after_due(
    runtime: RuntimeModel,
    next: Result<Option<i64>, Seq<char>>,
) -> RuntimeModel {
    RuntimeModel {
        alarm: AlarmModel {
            next_run_at: match next {
                Ok(at) => at,
                Err(_) => runtime.alarm.next_run_at,
            },
            ..runtime.alarm
        },
        pending_run: true,
        timer_cancel: runtime.timer_cancel,
    }
}

/// Whether a search for the next run of an alarm may have the given outcome.
pub open spec fn may_advance(
    alarm: AlarmModel,
    now: Moment,
    next: Result<Option<i64>, Seq<char>>,
) -> bool {
    exists|zone: Seq<char>|
        {
            &&& #[trigger] calendar::known_timezone(zone)
            &&& timing::may_run_after_due(alarm.trigger, alarm.created_at, now, zone, next)
        }
}

impl AlarmsState {
    /// Puts a new alarm with the given timing under its id.
    pub fn add_alarm(
        &mut self,
        create_alarm: CreateAlarm,
        timing: Result<TriggerTiming, String>,
        timer_cancel: Option<CancellationToken>,
    ) -> (r: Result<(ThreadAlarm, Option<AlarmTimerSpec>), String>)
        requires
            old(self).wf(),
            timing matches Ok(t) ==> timing::rule_cuts_cleanly(t.trigger@),
        ensures
            final(self).wf(),
            created_view(r) == created(create_alarm, timing::timing_view(timing)),
            final(self)@ == alarms_after_create(
                old(self)@,
                create_alarm,
                timing::timing_view(timing),
                timer_cancel,
            ),
    {
        match timing {
            Err(e) => Err(e),
            Ok(t) => {
                let CreateAlarm { id, trigger: _, prompt, delivery, now } = create_alarm;
                let alarm = ThreadAlarm {
                    id,
                    trigger: t.trigger,
                    prompt,
                    delivery,
                    created_at: now.timestamp(),
                    next_run_at: t.next_run_at,
                    last_run_at: None,
                };
                let added = AlarmRuntime {
                    alarm: alarm.clone(),
                    pending_run: t.pending_run,
                    timer_cancel,
                };
                self.restore_runtime(added);
                Ok((alarm, timer_of_delay(t.timer_delay)))
            },
        }
    }

    /// The number of alarms.
    fn count(&self) -> (r: usize)
        requires
            self.wf(),
        ensures
            r == self@.len(),
    {
        proof {
            keyed::lemma_count(entries(self.alarms@));
        }
        self.alarms.len()
    }

    /// Makes a new alarm. It takes the place of one with the same id.
    pub fn create_alarm(
        &mut self,
        create_alarm: CreateAlarm,
        timer_cancel: Option<CancellationToken>,
    ) -> (r: Result<(ThreadAlarm, Option<AlarmTimerSpec>), String>)
        requires
            old(self).wf(),
            old(self)@.len() < MAX_ACTIVE_ALARMS_PER_THREAD ==> timing::delay_fits(
                create_alarm.trigger@,
            ) && timing::fits_calendar(create_alarm.trigger@, create_alarm.now@),
        ensures
            final(self).wf(),
            old(self)@.len() >= MAX_ACTIVE_ALARMS_PER_THREAD ==> {
                &&& created_view(r) == Err::<(AlarmModel, Option<AlarmTimerSpec>), _>(
                    too_many_active_text(),
                )
                &&& final(self)@ == old(self)@
            },
            old(self)@.len() < MAX_ACTIVE_ALARMS_PER_THREAD ==> exists|
                timing: Result<TimingModel, Seq<char>>,
            |
                {
                    &&& #[trigger] may_time_request(create_alarm, timing)
                    &&& created_view(r) == created(create_alarm, timing)
                    &&& final(self)@ == alarms_after_create(
                        old(self)@,
                        create_alarm,
                        timing,
                        timer_cancel,
                    )
                },
            r matches Ok((alarm, timer)) ==> {
                &&& final(self)@.contains_key(alarm@.id)
                &&& final(self)@[alarm@.id].alarm == alarm@
                &&& timer == timer_needed(final(self)@[alarm@.id], create_alarm.now@)
            },
    {
        if self.count() >= MAX_ACTIVE_ALARMS_PER_THREAD {
            return Err(copy_of("too many active alarms; each thread supports at most 256 alarms"));
        }
        let now = create_alarm.now;
        let timing = timing_for_new_trigger(create_alarm.trigger.clone(), now, now);
        proof {
            assert(may_time_request(create_alarm, timing::timing_view(timing)));
        }
        self.add_alarm(create_alarm, timing, timer_cancel)
    }

    /// Puts a stored alarm with the given timing under its id.
    pub fn add_persisted_alarm(
        &mut self,
        persisted: PersistedAlarm,
        timing: Result<TriggerTiming, String>,
        timer_cancel: Option<CancellationToken>,
    ) -> (r: Result<Option<AlarmTimerSpec>, String>)
        requires
            old(self).wf(),
            timing matches Ok(t) ==> timing::rule_cuts_cleanly(t.trigger@),
        ensures
            final(self).wf(),
            text::error_view(r) == restored(timing::timing_view(timing)),
            final(self)@ == alarms_after_restore(
                old(self)@,
                persisted@,
                timing::timing_view(timing),
                timer_cancel,
            ),
    {
        match timing {
            Err(e) => Err(e),
            Ok(t) => {
                let mut alarm = persisted.alarm;
                alarm.trigger = t.trigger;
                alarm.next_run_at = t.next_run_at;
                self.restore_runtime(
                    AlarmRuntime { alarm, pending_run: t.pending_run, timer_cancel },
                );
                Ok(timer_of_delay(t.timer_delay))
            },
        }
    }

    /// Takes a stored alarm back. It takes the place of one with the same id.
    pub fn restore_alarm(
        &mut self,
        persisted: PersistedAlarm,
        now: UtcInstant,
        timer_cancel: Option<CancellationToken>,
    ) -> (r: Result<Option<AlarmTimerSpec>, String>)
        requires
            old(self).wf(),
            old(self)@.len() < MAX_ACTIVE_ALARMS_PER_THREAD ==> timing::fits_calendar(
                persisted.alarm.trigger@,
                now@,
            ),
        ensures
            final(self).wf(),
            old(self)@.len() >= MAX_ACTIVE_ALARMS_PER_THREAD ==> {
                &&& text::error_view(r) == Err::<Option<AlarmTimerSpec>, _>(
                    too_many_persisted_text(),
                )
                &&& final(self)@ == old(self)@
            },
            old(self)@.len() < MAX_ACTIVE_ALARMS_PER_THREAD ==> exists|
                timing: Result<TimingModel, Seq<char>>,
            |
                {
                    &&& #[trigger] may_time_persisted(persisted@, now@, timing)
                    &&& text::error_view(r) == restored(timing)
                    &&& final(self)@ == alarms_after_restore(
                        old(self)@,
                        persisted@,
                        timing,
                        timer_cancel,
                    )
                },
            r matches Ok(timer) ==> {
                &&& final(self)@.contains_key(persisted@.alarm.id)
                &&& timer == timer_needed(final(self)@[persisted@.alarm.id], now@)
            },
    {
        if self.count() >= MAX_ACTIVE_ALARMS_PER_THREAD {
            return Err(
                copy_of("too many persisted alarms; each thread supports at most 256 alarms"),
            );
        }
        let timing = timing_for_restored_trigger(
            persisted.alarm.trigger.clone(),
            persisted.alarm.created_at,
            persisted.pending_run,
            persisted.alarm.next_run_at,
            now,
        );
        proof {
            assert(may_time_persisted(persisted@, now@, timing::timing_view(timing)));
        }
        self.add_persisted_alarm(persisted, timing, timer_cancel)
    }

    /// Notes that a run of an alarm is due, and when its next run is. Says
    /// whether that changed anything.
    pub fn advance_alarm(&mut self, id: &str, next: Result<Option<i64>, String>) -> (r: bool)
        requires
            old(self).wf(),
        ensures
            final(self).wf(),
            !old(self)@.contains_key(id@) ==> !r && final(self)@ == old(self)@,
            old(self)@.contains_key(id@) ==> {
                let after = runtime_after_due(old(self)@[id@], text::error_view(next));
                &&& final(self)@ == old(self)@.insert(id@, after)
                &&& r == (after != old(self)@[id@])
            },
    {
        match self.remove_alarm(id) {
            None => {
                assert(self@ =~= old(self)@);
                false
            },
            Some(mut runtime) => {
                let ghost before = runtime@;
                proof {
                    old(self).lemma_wf();
                }
                let mut changed = !runtime.pending_run;
                runtime.pending_run = true;
                if let Ok(next_run_at) = next {
                    if runtime.alarm.next_run_at != next_run_at {
                        runtime.alarm.next_run_at = next_run_at;
                        changed = true;
                    }
                }
                let ghost after = runtime@;
                self.restore_runtime(runtime);
                proof {
                    assert(after == runtime_after_due(before, text::error_view(next)));
                    assert(self@ =~= old(self)@.insert(id@, after));
                }
                changed
            },
        }
    }

    /// Notes that a run of an alarm is due. Says whether that changed anything.
    pub fn mark_alarm_due(&mut self, id: &str, now: UtcInstant) -> (r: bool)
        requires
            old(self).wf(),
        ensures
            final(self).wf(),
            !old(self)@.contains_key(id@) ==> !r && final(self)@ == old(self)@,
            old(self)@.contains_key(id@) ==> exists|next: Result<Option<i64>, Seq<char>>|
                {
                    let after = runtime_after_due(old(self)@[id@], next);
                    &&& #[trigger] may_advance(old(self)@[id@].alarm, now@, next)
                    &&& final(self)@ == old(self)@.insert(id@, after)
                    &&& r == (after != old(self)@[id@])
                },
    {
        match self.find(id) {
            None => false,
            Some(i) => {
                let next = next_run_after_due(
                    &self.alarms[i].alarm.trigger,
                    self.alarms[i].alarm.created_at,
                    now,
                );
                assert(may_advance(self@[id@].alarm, now@, text::error_view(next)));
                self.advance_alarm(id, next)
            },
        }
    }

    /// The timer that an alarm needs.
    pub fn timer_spec_for_alarm(&self, id: &str, now: UtcInstant) -> (r: Option<AlarmTimerSpec>)
        requires
            self.wf(),
        ensures
            r == (if self@.contains_key(id@) {
                timer_needed(self@[id@], now@)
            } else {
                None
            }),
    {
        match self.find(id) {
            None => None,
            Some(i) => {
                let runtime = &self.alarms[i];
                match runtime.alarm.next_run_at {
                    None => None,
                    Some(next) => if runtime.pending_run && !runtime.alarm.trigger.is_recurring() {
                        None
                    } else {
                        timer_of_delay(timer_delay(next, now))
                    },
                }
            },
        }
    }
}

/// The order in which alarms are listed: by creation, then by id.
pub open spec fn listed_before(a: AlarmModel, b: AlarmModel) -> bool {
    if a.created_at != b.created_at {
        a.created_at < b.created_at
    } else {
        order::text_le(a.id, b.id) && a.id != b.id
    }
}

/// Whether a list holds each alarm of a thread once, as it is stored, in the
/// order of lists.
pub open spec fn lists(stored: Seq<PersistedModel>, alarms: AlarmMap) -> bool {
    &&& forall|i: int, j: int|
        0 <= i < j < stored.len() ==> listed_before(
            (#[trigger] stored[i]).alarm,
            (#[trigger] stored[j]).alarm,
        )
    &&& forall|i: int|
        0 <= i < stored.len() ==> {
            let id = (#[trigger] stored[i]).alarm.id;
            &&& alarms.contains_key(id)
            &&& stored[i] == stored_form(alarms[id])
        }
    &&& forall|id: Seq<char>| #[trigger]
        alarms.contains_key(id) ==> exists|i: int|
            0 <= i < stored.len() && (#[trigger] stored[i]).alarm.id == id
}

/// An alarm as it is stored.
pub open spec fn stored_form(runtime: RuntimeModel) -> PersistedModel {
    PersistedModel { alarm: runtime.alarm, pending_run: runtime.pending_run }
}

/// The views of stored alarms.
pub open spec fn persisted_views(v: Seq<PersistedAlarm>) -> Seq<PersistedModel> {
    v.map_values(|p: PersistedAlarm| p@)
}

/// The views of alarms.
pub open spec fn alarm_views(v: Seq<ThreadAlarm>) -> Seq<AlarmModel> {
    v.map_values(|a: ThreadAlarm| a@)
}

/// The alarms of stored ones.
pub open spec fn alarms_of(stored: Seq<PersistedModel>) -> Seq<AlarmModel> {
    stored.map_values(|p: PersistedModel| p.alarm)
}

proof fn lemma_listed_before(a: AlarmModel, b: AlarmModel, c: AlarmModel)
    ensures
        a.id != b.id ==> listed_before(a, b) || listed_before(b, a),
        listed_before(a, b) && listed_before(b, c) ==> listed_before(a, c),
{
    order::lemma_text_le_total(a.id, b.id);
    if order::text_le(a.id, b.id) && order::text_le(b.id, c.id) {
        order::lemma_text_le_transitive(a.id, b.id, c.id);
        if a.id == c.id && a.id != b.id {
            order::lemma_text_le_antisymmetric(a.id, b.id);
        }
    }
}

/// Whether `a` is listed before `b`, where their ids differ.
fn is_listed_before(a: &ThreadAlarm, b: &ThreadAlarm) -> (r: bool)
    requires
        a@.id != b@.id,
    ensures
        r == listed_before(a@, b@),
{
    if a.created_at != b.created_at {
        a.created_at < b.created_at
    } else {
        str_le(a.id.as_str(), b.id.as_str())
    }
}

/// Putting an alarm into a list, in an order of lists, lists it too.
proof fn lemma_lists_insert(
    stored: Seq<PersistedModel>,
    alarms: AlarmMap,
    at: int,
    runtime: RuntimeModel,
)
    requires
        lists(stored, alarms),
        !alarms.contains_key(runtime.alarm.id),
        0 <= at <= stored.len(),
        forall|i: int| 0 <= i < at ==> listed_before((#[trigger] stored[i]).alarm, runtime.alarm),
        forall|i: int|
            at <= i < stored.len() ==> listed_before(runtime.alarm, (#[trigger] stored[i]).alarm),
    ensures
        lists(
            stored.insert(at, stored_form(runtime)),
            alarms.insert(runtime.alarm.id, runtime),
        ),
{
    let item = stored_form(runtime);
    let after = stored.insert(at, item);
    let listed = alarms.insert(runtime.alarm.id, runtime);
    assert forall|i: int, j: int| 0 <= i < j < after.len() implies listed_before(
        (#[trigger] after[i]).alarm,
        (#[trigger] after[j]).alarm,
    ) by {
        let i1 = if i < at {
            i
        } else {
            i - 1
        };
        let j1 = if j < at {
            j
        } else {
            j - 1
        };
        if i == at {
            assert(after[j] == stored[j1]);
        } else if j == at {
            assert(after[i] == stored[i1]);
        } else {
            assert(after[i] == stored[i1] && after[j] == stored[j1]);
        }
    }
    assert forall|i: int| 0 <= i < after.len() implies {
        let id = (#[trigger] after[i]).alarm.id;
        &&& listed.contains_key(id)
        &&& after[i] == stored_form(listed[id])
    } by {
        if i < at {
            assert(after[i] == stored[i]);
        } else if i > at {
            assert(after[i] == stored[i - 1]);
        }
    }
    assert forall|id: Seq<char>| #[trigger] listed.contains_key(id) implies exists|i: int|
        0 <= i < after.len() && (#[trigger] after[i]).alarm.id == id by {
        if id == runtime.alarm.id {
            assert(after[at].alarm.id == id);
        } else {
            let k = choose|k: int| 0 <= k < stored.len() && (#[trigger] stored[k]).alarm.id == id;
            if k < at {
                assert(after[k] == stored[k]);
            } else {
                assert(after[k + 1] == stored[k]);
            }
        }
    }
}

/// Puts an alarm into its place in a list.
fn insert_listed(list: &mut Vec<PersistedAlarm>, item: PersistedAlarm) -> (at: usize)
    requires
        forall|i: int, j: int|
            0 <= i < j < old(list)@.len() ==> listed_before(
                (#[trigger] old(list)@[i])@.alarm,
                (#[trigger] old(list)@[j])@.alarm,
            ),
        forall|i: int|
            0 <= i < old(list)@.len() ==> (#[trigger] old(list)@[i])@.alarm.id != item@.alarm.id,
    ensures
        at <= old(list)@.len(),
        final(list)@ == old(list)@.insert(at as int, item),
        forall|i: int|
            0 <= i < at ==> listed_before((#[trigger] old(list)@[i])@.alarm, item@.alarm),
        forall|i: int|
            at <= i < old(list)@.len() ==> listed_before(
                item@.alarm,
                (#[trigger] old(list)@[i])@.alarm,
            ),
{
    let mut at: usize = 0;
    while at < list.len() && is_listed_before(&list[at].alarm, &item.alarm)
        invariant
            at <= list@.len(),
            list@ == old(list)@,
            forall|i: int|
                0 <= i < list@.len() ==> (#[trigger] list@[i])@.alarm.id != item@.alarm.id,
            forall|i: int|
                0 <= i < at ==> listed_before((#[trigger] list@[i])@.alarm, item@.alarm),
        decreases list@.len() - at,
    {
        at = at + 1;
    }
    proof {
        assert forall|i: int| at <= i < list@.len() implies listed_before(
            item@.alarm,
            (#[trigger] list@[i])@.alarm,
        ) by {
            lemma_listed_before(item@.alarm, list@[at as int]@.alarm, list@[i]@.alarm);
        }
    }
    list.insert(at, item);
    at
}

impl AlarmsState {
    /// The alarms as they are stored, by creation and then by id.
    pub fn persisted_alarms(&self) -> (r: Vec<PersistedAlarm>)
        requires
            self.wf(),
        ensures
            lists(persisted_views(r@), self@),
            r@.len() == self@.len(),
    {
        let mut r: Vec<PersistedAlarm> = Vec::new();
        let mut i: usize = 0;
        while i < self.alarms.len()
            invariant
                self.wf(),
                i <= self.alarms@.len(),
                r@.len() == i,
                lists(
                    persisted_views(r@),
                    keyed::by_key(entries(self.alarms@).take(i as int)),
                ),
            decreases self.alarms@.len() - i,
        {
            let runtime = &self.alarms[i];
            let item = PersistedAlarm {
                alarm: runtime.alarm.clone(),
                pending_run: runtime.pending_run,
            };
            let ghost before = persisted_views(r@);
            let ghost done = keyed::by_key(entries(self.alarms@).take(i as int));
            let ghost added = self.alarms@[i as int];
            proof {
                keyed::lemma_taken(entries(self.alarms@), i as int);
                assert forall|a: int| 0 <= a < r@.len() implies (#[trigger] r@[a])@ == before[a] by {}
                assert forall|a: int| 0 <= a < r@.len() implies (#[trigger] r@[a])@.alarm.id
                    != item@.alarm.id by {
                    assert(done.contains_key(before[a].alarm.id));
                }
            }
            let at: usize = insert_listed(&mut r, item);
            proof {
                lemma_lists_insert(before, done, at as int, added@);
                assert(persisted_views(r@) =~= before.insert(at as int, stored_form(added@)));
            }
            i = i + 1;
        }
        proof {
            assert(entries(self.alarms@).take(i as int) =~= entries(self.alarms@));
            keyed::lemma_count(entries(self.alarms@));
        }
        r
    }

    /// The alarms, by creation and then by id.
    pub fn list_alarms(&self) -> (r: Vec<ThreadAlarm>)
        requires
            self.wf(),
        ensures
            exists|stored: Seq<PersistedModel>| #[trigger]
                lists(stored, self@) && alarm_views(r@) == alarms_of(stored),
            r@.len() == self@.len(),
    {
        let stored = self.persisted_alarms();
        let mut r: Vec<ThreadAlarm> = Vec::new();
        let mut i: usize = 0;
        while i < stored.len()
            invariant
                i <= stored@.len(),
                r@.len() == i,
                forall|k: int| 0 <= k < i ==> (#[trigger] r@[k])@ == stored@[k]@.alarm,
            decreases stored@.len() - i,
        {
            r.push(stored[i].alarm.clone());
            i = i + 1;
        }
        assert(alarm_views(r@) =~= alarms_of(persisted_views(stored@)));
        r
    }
}

impl Default for AlarmsState {
    fn default() -> (r: AlarmsState)
        ensures
            r.wf(),
            r@ == Map::<Seq<char>, RuntimeModel>::empty(),
    {
        AlarmsState::new()
    }
}

} // verus!
