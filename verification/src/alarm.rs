//! Alarms of a thread.
use tokio_util::sync::CancellationToken;
use vstd::prelude::*;

use crate::text::copy_of;
use crate::trigger::{AlarmTrigger, TriggerModel};

verus! {

/// What an event about a changed alarm starts with.
pub const ALARM_UPDATED_BACKGROUND_EVENT_PREFIX: &'static str = "alarm_updated:";

/// What an event about an alarm that ran starts with.
pub const ALARM_FIRED_BACKGROUND_EVENT_PREFIX: &'static str = "alarm_fired:";

/// The most alarms that a thread can have.
pub const MAX_ACTIVE_ALARMS_PER_THREAD: usize = 256;

/// A handle by which a timer is told to stop.
#[verifier::external_type_specification]
#[verifier::external_body]
pub struct ExCancellationToken(CancellationToken);

/// Calls `CancellationToken::cancel`, which tells the holders of the token's
/// clones to stop. Nothing that is modelled here changes.
#[verifier::external_body]
pub(crate) fn cancel_token(token: &CancellationToken) {
    token.cancel()
}

/// When an alarm's prompt is delivered.
#[derive(Debug, Clone, Copy, PartialEq, Eq, Structural)]
pub enum AlarmDelivery {
    /// After the current turn.
    AfterTurn,
    /// Within the current turn.
    SteerCurrentTurn,
}

/// The name of a delivery.
pub open spec fn delivery_name(delivery: AlarmDelivery) -> Seq<char> {
    match delivery {
        AlarmDelivery::AfterTurn => "after-turn"@,
        AlarmDelivery::SteerCurrentTurn => "steer-current-turn"@,
    }
}

impl AlarmDelivery {
    /// The name of the delivery.
    pub fn as_str(self) -> (r: &'static str)
        ensures
            r@ == delivery_name(self),
    {
        match self {
            AlarmDelivery::AfterTurn => "after-turn",
            AlarmDelivery::SteerCurrentTurn => "steer-current-turn",
        }
    }
}

/// An alarm of a thread.
#[derive(Debug, PartialEq, Eq)]
pub struct ThreadAlarm {
    pub id: String,
    pub trigger: AlarmTrigger,
    pub prompt: String,
    pub delivery: AlarmDelivery,
    pub created_at: i64,
    pub next_run_at: Option<i64>,
    pub last_run_at: Option<i64>,
}

/// An alarm, with its texts as sequences of characters.
pub struct AlarmModel {
    pub id: Seq<char>,
    pub trigger: TriggerModel,
    pub prompt: Seq<char>,
    pub delivery: AlarmDelivery,
    pub created_at: i64,
    pub next_run_at: Option<i64>,
    pub last_run_at: Option<i64>,
}

impl View for ThreadAlarm {
    type V = AlarmModel;

    open spec fn view(&self) -> AlarmModel {
        AlarmModel {
            id: self.id@,
            trigger: self.trigger@,
            prompt: self.prompt@,
            delivery: self.delivery,
            created_at: self.created_at,
            next_run_at: self.next_run_at,
            last_run_at: self.last_run_at,
        }
    }
}

impl Clone for ThreadAlarm {
    fn clone(&self) -> (r: ThreadAlarm)
        ensures
            r@ == self@,
    {
        ThreadAlarm {
            id: copy_of(self.id.as_str()),
            trigger: self.trigger.clone(),
            prompt: copy_of(self.prompt.as_str()),
            delivery: self.delivery,
            created_at: self.created_at,
            next_run_at: self.next_run_at,
            last_run_at: self.last_run_at,
        }
    }
}

/// What a turn that an alarm starts is told of it.
#[derive(Debug, PartialEq, Eq)]
pub struct AlarmInvocationContext {
    pub current_alarm_id: String,
    pub trigger: AlarmTrigger,
    pub prompt: String,
    pub recurring: bool,
    pub delivery: AlarmDelivery,
}

/// The view of an [`AlarmInvocationContext`].
pub struct ContextModel {
    pub current_alarm_id: Seq<char>,
    pub trigger: TriggerModel,
    pub prompt: Seq<char>,
    pub recurring: bool,
    pub delivery: AlarmDelivery,
}

impl View for AlarmInvocationContext {
    type V = ContextModel;

    open spec fn view(&self) -> ContextModel {
        ContextModel {
            current_alarm_id: self.current_alarm_id@,
            trigger: self.trigger@,
            prompt: self.prompt@,
            recurring: self.recurring,
            delivery: self.delivery,
        }
    }
}

impl Clone for AlarmInvocationContext {
    fn clone(&self) -> (r: AlarmInvocationContext)
        ensures
            r@ == self@,
    {
        AlarmInvocationContext {
            current_alarm_id: copy_of(self.current_alarm_id.as_str()),
            trigger: self.trigger.clone(),
            prompt: copy_of(self.prompt.as_str()),
            recurring: self.recurring,
            delivery: self.delivery,
        }
    }
}

/// An alarm whose run begins.
#[derive(Debug, PartialEq, Eq)]
pub struct ClaimedAlarm {
    pub alarm: ThreadAlarm,
    pub context: AlarmInvocationContext,
    pub deleted_one_shot_alarm: bool,
}

/// The view of a [`ClaimedAlarm`].
pub struct ClaimedModel {
    pub alarm: AlarmModel,
    pub context: ContextModel,
    pub deleted_one_shot_alarm: bool,
}

impl View for ClaimedAlarm {
    type V = ClaimedModel;

    open spec fn view(&self) -> ClaimedModel {
        ClaimedModel {
            alarm: self.alarm@,
            context: self.context@,
            deleted_one_shot_alarm: self.deleted_one_shot_alarm,
        }
    }
}

impl Clone for ClaimedAlarm {
    fn clone(&self) -> (r: ClaimedAlarm)
        ensures
            r@ == self@,
    {
        ClaimedAlarm {
            alarm: self.alarm.clone(),
            context: self.context.clone(),
            deleted_one_shot_alarm: self.deleted_one_shot_alarm,
        }
    }
}

/// An alarm as it is stored.
#[derive(Debug, PartialEq, Eq)]
pub struct PersistedAlarm {
    pub alarm: ThreadAlarm,
    pub pending_run: bool,
}

/// The view of a [`PersistedAlarm`].
pub struct PersistedModel {
    pub alarm: AlarmModel,
    pub pending_run: bool,
}

impl View for PersistedAlarm {
    type V = PersistedModel;

    open spec fn view(&self) -> PersistedModel {
        PersistedModel { alarm: self.alarm@, pending_run: self.pending_run }
    }
}

impl Clone for PersistedAlarm {
    fn clone(&self) -> (r: PersistedAlarm)
        ensures
            r@ == self@,
    {
        PersistedAlarm { alarm: self.alarm.clone(), pending_run: self.pending_run }
    }
}

/// The timer that an alarm needs.
#[derive(Debug, Clone, Copy, PartialEq, Eq, Structural)]
pub struct AlarmTimerSpec {
    /// The seconds until it goes off.
    pub delay: u64,
}

} // verus!
