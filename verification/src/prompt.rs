//! The prompt that a turn started by an alarm is given.
use vstd::prelude::*;

use crate::alarm;
use crate::alarm::{AlarmInvocationContext, ContextModel};
use crate::text;
use crate::text::{copy_of, str_replace, str_trim_end};

verus! {

/// The prompt of an alarm that has left the schedule.
pub const ONE_SHOT_ALARM_PROMPT: &'static str = "One-shot scheduled alarm prompt:\n{{PROMPT}}\n\ncurrentAlarmId: {{CURRENT_ALARM_ID}}\nConfigured delivery: {{DELIVERY}}\nTrigger: {{TRIGGER}}\n\nThis one-shot alarm has already been removed from the schedule, so you do not need to call AlarmDelete.\nDo not expose scheduler internals unless they matter to the user.\n";

/// The prompt of an alarm that stays in the schedule.
pub const RECURRING_ALARM_PROMPT: &'static str = "Recurring scheduled alarm prompt:\n{{PROMPT}}\n\ncurrentAlarmId: {{CURRENT_ALARM_ID}}\nConfigured delivery: {{DELIVERY}}\nTrigger: {{TRIGGER}}\n\nThis alarm should keep running on its schedule after this invocation.\nDo not call AlarmDelete just because you completed this invocation.\nCall AlarmDelete with {\"id\":\"{{CURRENT_ALARM_ID}}\"} only if the user's alarm prompt included an explicit stop condition, such as \"until\", \"stop when\", or \"while\", and that condition is now satisfied.\nDo not expose scheduler internals unless they matter to the user.\n";

/// A part of a message to the model.
#[derive(Debug, PartialEq, Eq)]
pub enum ContentItem {
    InputText { text: String },
}

/// An item of input to the model.
#[derive(Debug, PartialEq, Eq)]
pub enum ResponseInputItem {
    Message { role: String, content: Vec<ContentItem> },
}

/// A template with the particulars of an alarm put in, one after another: id,
/// trigger, prompt and delivery. What one of them brings in is looked through
/// for the next.
pub open spec fn rendered(template: Seq<char>, alarm: ContextModel) -> Seq<char> {
    let unix = text::replace_all(template, "\r\n"@, "\n"@);
    let with_id = text::replace_all(unix, "{{CURRENT_ALARM_ID}}"@, alarm.current_alarm_id);
    let with_trigger = text::replace_all(with_id, "{{TRIGGER}}"@, alarm.trigger.shown());
    let with_prompt = text::replace_all(with_trigger, "{{PROMPT}}"@, alarm.prompt);
    text::trim_end(
        text::replace_all(with_prompt, "{{DELIVERY}}"@, alarm::delivery_name(alarm.delivery)),
    )
}

/// The prompt of an alarm.
pub open spec fn alarm_prompt(alarm: ContextModel) -> Seq<char> {
    if alarm.recurring {
        rendered(RECURRING_ALARM_PROMPT@, alarm)
    } else {
        rendered(ONE_SHOT_ALARM_PROMPT@, alarm)
    }
}

/// Puts the particulars of an alarm into a template.
pub fn render_alarm_prompt_template(template: &str, alarm: &AlarmInvocationContext) -> (r: String)
    ensures
        r@ == rendered(template@, alarm@),
{
    proof {
        reveal_strlit("\r\n");
        reveal_strlit("{{CURRENT_ALARM_ID}}");
        reveal_strlit("{{TRIGGER}}");
        reveal_strlit("{{PROMPT}}");
        reveal_strlit("{{DELIVERY}}");
    }
    let unix = str_replace(template, "\r\n", "\n");
    let with_id = str_replace(
        unix.as_str(),
        "{{CURRENT_ALARM_ID}}",
        alarm.current_alarm_id.as_str(),
    );
    let shown = alarm.trigger.display();
    let with_trigger = str_replace(with_id.as_str(), "{{TRIGGER}}", shown.as_str());
    let with_prompt = str_replace(with_trigger.as_str(), "{{PROMPT}}", alarm.prompt.as_str());
    let with_delivery = str_replace(
        with_prompt.as_str(),
        "{{DELIVERY}}",
        alarm.delivery.as_str(),
    );
    str_trim_end(with_delivery.as_str())
}

/// Whether an item is a message of one text in the given role.
pub open spec fn is_message(item: ResponseInputItem, role: Seq<char>, text: Seq<char>) -> bool {
    match item {
        ResponseInputItem::Message { role: given, content } => {
            &&& given@ == role
            &&& content@.len() == 1
            &&& content@[0] matches ContentItem::InputText { text: shown } && shown@ == text
        },
    }
}

/// The input that a turn started by an alarm begins with: a message of the
/// developer with the alarm's prompt.
pub fn alarm_prompt_input_item(alarm: &AlarmInvocationContext) -> (r: ResponseInputItem)
    ensures
        is_message(r, "developer"@, alarm_prompt(alarm@)),
{
    let text = if alarm.recurring {
        render_alarm_prompt_template(RECURRING_ALARM_PROMPT, alarm)
    } else {
        render_alarm_prompt_template(ONE_SHOT_ALARM_PROMPT, alarm)
    };
    let mut content: Vec<ContentItem> = Vec::new();
    content.push(ContentItem::InputText { text });
    ResponseInputItem::Message { role: copy_of("developer"), content }
}

} // verus!
