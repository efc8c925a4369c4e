//! Triggers of alarms: validation, and the time of the next run.
//!
//! A delay counts seconds from the creation of its alarm. A schedule has a
//! local start, a recurrence rule, or both.
use vstd::prelude::*;
use vstd::string::StringExecFns;

use crate::number;
use crate::text;
use crate::text::copy_of;

verus! {

/// When an alarm runs.
#[derive(Debug, PartialEq, Eq)]
pub enum AlarmTrigger {
    /// Some seconds after the alarm's creation, once or again and again.
    Delay { seconds: u64, repeat: Option<bool> },
    /// At a local date and time, by a recurrence rule, or both.
    Schedule { dtstart: Option<String>, rrule: Option<String> },
}

/// A trigger, with its texts as sequences of characters.
pub enum TriggerModel {
    Delay { seconds: int, repeat: Option<bool> },
    Schedule { dtstart: Option<Seq<char>>, rrule: Option<Seq<char>> },
}

impl View for AlarmTrigger {
    type V = TriggerModel;

    open spec fn view(&self) -> TriggerModel {
        match self {
            AlarmTrigger::Delay { seconds, repeat } => TriggerModel::Delay {
                seconds: *seconds as int,
                repeat: *repeat,
            },
            AlarmTrigger::Schedule { dtstart, rrule } => TriggerModel::Schedule {
                dtstart: text::opt_view(*dtstart),
                rrule: text::opt_view(*rrule),
            },
        }
    }
}

pub(crate) fn copy_optional(value: &Option<String>) -> (r: Option<String>)
    ensures
        text::opt_view(r) == text::opt_view(*value),
{
    match value {
        Some(s) => Some(copy_of(s.as_str())),
        None => None,
    }
}

impl Clone for AlarmTrigger {
    fn clone(&self) -> (r: AlarmTrigger)
        ensures
            r@ == self@,
    {
        match self {
            AlarmTrigger::Delay { seconds, repeat } => AlarmTrigger::Delay {
                seconds: *seconds,
                repeat: *repeat,
            },
            AlarmTrigger::Schedule { dtstart, rrule } => AlarmTrigger::Schedule {
                dtstart: copy_optional(dtstart),
                rrule: copy_optional(rrule),
            },
        }
    }
}

impl TriggerModel {
    /// Whether the trigger runs more than once.
    pub open spec fn recurring(self) -> bool {
        match self {
            TriggerModel::Delay { repeat, .. } => repeat == Some(true),
            TriggerModel::Schedule { rrule, .. } => rrule matches Some(rule) && rule.len() > 0,
        }
    }

    /// Whether the trigger runs whenever the thread is idle.
    pub open spec fn idle_recurring(self) -> bool {
        self matches TriggerModel::Delay { seconds, repeat } && seconds == 0 && repeat == Some(true)
    }

    /// The trigger as it is shown to a user.
    pub open spec fn shown(self) -> Seq<char> {
        match self {
            TriggerModel::Delay { seconds, repeat } => "delay "@ + number::decimal(seconds as nat)
                + "s"@ + (if repeat == Some(true) {
                ", repeat"@
            } else {
                ""@
            }),
            TriggerModel::Schedule { dtstart: Some(start), rrule: Some(rule) } => "schedule "@ + start
                + "; "@ + rule,
            TriggerModel::Schedule { dtstart: Some(start), rrule: None } => "schedule "@ + start,
            TriggerModel::Schedule { dtstart: None, rrule: Some(rule) } => "schedule "@ + rule,
            TriggerModel::Schedule { dtstart: None, rrule: None } => "invalid schedule"@,
        }
    }
}

fn unwrap_flag(flag: Option<bool>) -> (r: bool)
    ensures
        r == (flag == Some(true)),
{
    match flag {
        Some(value) => value,
        None => false,
    }
}

impl AlarmTrigger {
    /// Whether the trigger runs more than once.
    pub fn is_recurring(&self) -> (r: bool)
        ensures
            r == self@.recurring(),
    {
        match self {
            AlarmTrigger::Delay { repeat, .. } => unwrap_flag(*repeat),
            AlarmTrigger::Schedule { rrule, .. } => match rrule {
                Some(rule) => !text::is_empty(rule.as_str()),
                None => false,
            },
        }
    }

    /// Whether the trigger runs whenever the thread is idle.
    pub fn is_idle_recurring(&self) -> (r: bool)
        ensures
            r == self@.idle_recurring(),
    {
        match self {
            AlarmTrigger::Delay { seconds, repeat } => *seconds == 0 && unwrap_flag(*repeat),
            AlarmTrigger::Schedule { .. } => false,
        }
    }

    /// The trigger as it is shown to a user.
    pub fn display(&self) -> (r: String)
        ensures
            r@ == self@.shown(),
    {
        match self {
            AlarmTrigger::Delay { seconds, repeat } => {
                let mut r = copy_of("delay ");
                number::push_decimal(&mut r, *seconds);
                r.append("s");
                if unwrap_flag(*repeat) {
                    r.append(", repeat");
                } else {
                    r.append("");
                }
                r
            },
            AlarmTrigger::Schedule { dtstart, rrule } => {
                if let Some(start) = dtstart {
                    let mut r = copy_of("schedule ");
                    r.append(start.as_str());
                    if let Some(rule) = rrule {
                        r.append("; ");
                        r.append(rule.as_str());
                    }
                    r
                } else if let Some(rule) = rrule {
                    let mut r = copy_of("schedule ");
                    r.append(rule.as_str());
                    r
                } else {
                    copy_of("invalid schedule")
                }
            },
        }
    }
}

} // verus!
