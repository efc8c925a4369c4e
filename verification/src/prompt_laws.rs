//! What holds of the prompts of alarms, whatever the alarms.
use vstd::prelude::*;

use crate::alarm;
use crate::alarm::{AlarmDelivery, ContextModel};
use crate::prompt;
use crate::prompt::{ContentItem, ResponseInputItem};
use crate::text;
use crate::text_laws;

verus! {

/// Whether a text has two braces at its start and no other opening brace.
spec fn is_slot(s: Seq<char>) -> bool {
    &&& s.len() > 2
    &&& s[0] == '{' && s[1] == '{'
    &&& forall|i: int| 2 <= i < s.len() ==> s[i] != '{'
}

proof fn lemma_slot_replaced(slot: Seq<char>, with: Seq<char>)
    requires
        is_slot(slot),
    ensures
        text::replace_all(slot, slot, with) == with,
{
    let none = Seq::<char>::empty();
    assert(none + slot + none =~= slot);
    text_laws::first_occurrence_is_replaced(none, slot, none, with);
    assert(text::replace_all(none, slot, with) =~= none);
    assert(none + with + none =~= with);
}

proof fn lemma_other_slot(slot: Seq<char>, other: Seq<char>, with: Seq<char>)
    requires
        is_slot(slot),
        is_slot(other),
        slot[2] != other[2],
    ensures
        text::replace_all(slot, other, with) == slot,
{
    assert forall|i: int| 0 <= i < slot.len() implies !other.is_prefix_of(
        #[trigger] slot.skip(i),
    ) by {
        let rest = slot.skip(i);
        if other.is_prefix_of(rest) {
            let head = rest.subrange(0, other.len() as int);
            assert(head == other);
            assert(head[1] == rest[1] && head[2] == rest[2]);
            assert(rest[1] == slot[i + 1] && rest[2] == slot[i + 2]);
        }
    }
    text_laws::nothing_is_replaced_elsewhere(slot, other, with);
}

proof fn lemma_lines_stay(s: Seq<char>)
    requires
        text_laws::lacks(s, '\r'),
    ensures
        text::replace_all(s, "\r\n"@, "\n"@) == s,
{
    reveal_strlit("\r\n");
    let pat = "\r\n"@;
    assert forall|i: int| 0 <= i < s.len() implies !pat.is_prefix_of(#[trigger] s.skip(i)) by {
        if pat.is_prefix_of(s.skip(i)) {
            assert(s.skip(i).subrange(0, 2)[0] == '\r');
            assert(s.skip(i)[0] == s[i]);
        }
    }
    text_laws::nothing_is_replaced_elsewhere(s, pat, "\n"@);
}

proof fn lemma_slots()
    ensures
        is_slot("{{CURRENT_ALARM_ID}}"@) && "{{CURRENT_ALARM_ID}}"@[2] == 'C' && text_laws::lacks(
            "{{CURRENT_ALARM_ID}}"@,
            '\r',
        ),
        is_slot("{{TRIGGER}}"@) && "{{TRIGGER}}"@[2] == 'T' && text_laws::lacks(
            "{{TRIGGER}}"@,
            '\r',
        ),
        is_slot("{{PROMPT}}"@) && "{{PROMPT}}"@[2] == 'P' && text_laws::lacks(
            "{{PROMPT}}"@,
            '\r',
        ),
        is_slot("{{DELIVERY}}"@) && "{{DELIVERY}}"@[2] == 'D' && text_laws::lacks(
            "{{DELIVERY}}"@,
            '\r',
        ),
{
    reveal_strlit("{{CURRENT_ALARM_ID}}");
    reveal_strlit("{{TRIGGER}}");
    reveal_strlit("{{PROMPT}}");
    reveal_strlit("{{DELIVERY}}");
}

/// The name of a delivery, as a prompt shows it.
pub open spec fn shown_delivery(delivery: AlarmDelivery) -> Seq<char> {
    match delivery {
        AlarmDelivery::AfterTurn => "after-turn"@,
        AlarmDelivery::SteerCurrentTurn => "steer-current-turn"@,
    }
}

/// Each slot of a template brings in the particular that it names. What a particular
/// brings in is looked through for the slots that come after its own, in the order of
/// id, trigger, prompt and delivery, and for no other. White space at the end goes.
pub proof fn slots_bring_in_what_they_name(alarm: ContextModel)
    ensures
        prompt::rendered("{{DELIVERY}}"@, alarm) == text::trim_end(
            shown_delivery(alarm.delivery),
        ),
        prompt::rendered("{{PROMPT}}"@, alarm) == text::trim_end(
            text::replace_all(alarm.prompt, "{{DELIVERY}}"@, shown_delivery(alarm.delivery)),
        ),
        prompt::rendered("{{TRIGGER}}"@, alarm) == text::trim_end(
            text::replace_all(
                text::replace_all(alarm.trigger.shown(), "{{PROMPT}}"@, alarm.prompt),
                "{{DELIVERY}}"@,
                shown_delivery(alarm.delivery),
            ),
        ),
        prompt::rendered("{{CURRENT_ALARM_ID}}"@, alarm) == text::trim_end(
            text::replace_all(
                text::replace_all(
                    text::replace_all(
                        alarm.current_alarm_id,
                        "{{TRIGGER}}"@,
                        alarm.trigger.shown(),
                    ),
                    "{{PROMPT}}"@,
                    alarm.prompt,
                ),
                "{{DELIVERY}}"@,
                shown_delivery(alarm.delivery),
            ),
        ),
{
    lemma_slots();
    let id = "{{CURRENT_ALARM_ID}}"@;
    let trigger = "{{TRIGGER}}"@;
    let said = "{{PROMPT}}"@;
    let delivery = "{{DELIVERY}}"@;
    lemma_lines_stay(id);
    lemma_lines_stay(trigger);
    lemma_lines_stay(said);
    lemma_lines_stay(delivery);
    lemma_slot_replaced(id, alarm.current_alarm_id);
    lemma_slot_replaced(trigger, alarm.trigger.shown());
    lemma_slot_replaced(said, alarm.prompt);
    lemma_slot_replaced(delivery, alarm::delivery_name(alarm.delivery));
    lemma_other_slot(trigger, id, alarm.current_alarm_id);
    lemma_other_slot(said, id, alarm.current_alarm_id);
    lemma_other_slot(delivery, id, alarm.current_alarm_id);
    lemma_other_slot(said, trigger, alarm.trigger.shown());
    lemma_other_slot(delivery, trigger, alarm.trigger.shown());
    lemma_other_slot(delivery, said, alarm.prompt);
}

proof fn lemma_plain_stays(s: Seq<char>, slot: Seq<char>, with: Seq<char>)
    requires
        is_slot(slot),
        text_laws::lacks(s, '{'),
    ensures
        text::replace_all(s, slot, with) == s,
{
    assert forall|i: int| 0 <= i < s.len() implies !slot.is_prefix_of(#[trigger] s.skip(i)) by {
        if slot.is_prefix_of(s.skip(i)) {
            assert(s.skip(i).subrange(0, slot.len() as int)[0] == '{');
            assert(s.skip(i)[0] == s[i]);
        }
    }
    text_laws::nothing_is_replaced_elsewhere(s, slot, with);
}

/// A template without slots stays as it is, but for the white space at its end.
pub proof fn templates_without_slots_stay(template: Seq<char>, alarm: ContextModel)
    requires
        text_laws::lacks(template, '{'),
        text_laws::lacks(template, '\r'),
    ensures
        prompt::rendered(template, alarm) == text::trim_end(template),
{
    lemma_slots();
    lemma_lines_stay(template);
    lemma_plain_stays(template, "{{CURRENT_ALARM_ID}}"@, alarm.current_alarm_id);
    lemma_plain_stays(template, "{{TRIGGER}}"@, alarm.trigger.shown());
    lemma_plain_stays(template, "{{PROMPT}}"@, alarm.prompt);
    lemma_plain_stays(template, "{{DELIVERY}}"@, alarm::delivery_name(alarm.delivery));
}

/// A line of a template may end with a carriage return and a line feed: that is the
/// same as a line feed.
pub proof fn line_ends_of_templates_do_not_matter(
    head: Seq<char>,
    tail: Seq<char>,
    alarm: ContextModel,
)
    requires
        text_laws::lacks(head, '\r'),
    ensures
        prompt::rendered(head + seq!['\r', '\n'] + tail, alarm) == prompt::rendered(
            head + seq!['\n'] + tail,
            alarm,
        ),
{
    reveal_strlit("\r\n");
    reveal_strlit("\n");
    let pat = "\r\n"@;
    let lf = "\n"@;
    assert(pat =~= seq!['\r', '\n']);
    assert(lf =~= seq!['\n']);
    let s = head + pat + tail;
    assert forall|i: int| 0 <= i < head.len() implies !pat.is_prefix_of(#[trigger] s.skip(i)) by {
        if pat.is_prefix_of(s.skip(i)) {
            assert(s.skip(i).subrange(0, 2)[0] == '\r');
            assert(s.skip(i)[0] == head[i]);
        }
    }
    text_laws::first_occurrence_is_replaced(head, pat, tail, lf);
    lemma_plain_head(head + lf, tail);
    assert(head + lf + text::replace_all(tail, pat, lf) == text::replace_all(
        head + lf + tail,
        pat,
        lf,
    ));
}

proof fn lemma_plain_head(head: Seq<char>, tail: Seq<char>)
    requires
        text_laws::lacks(head, '\r'),
    ensures
        text::replace_all(head + tail, "\r\n"@, "\n"@) == head + text::replace_all(
            tail,
            "\r\n"@,
            "\n"@,
        ),
    decreases head.len(),
{
    reveal_strlit("\r\n");
    let pat = "\r\n"@;
    let s = head + tail;
    if head.len() > 0 {
        let rest = head.skip(1);
        lemma_plain_head(rest, tail);
        assert(s.skip(1) =~= rest + tail);
        if pat.is_prefix_of(s) {
            assert(s.subrange(0, 2)[0] == '\r');
            assert(s[0] == head[0]);
        }
        assert(seq![s[0]] + (rest + text::replace_all(tail, pat, "\n"@)) =~= head
            + text::replace_all(tail, pat, "\n"@));
    } else {
        assert(s =~= tail);
        assert(head + text::replace_all(tail, pat, "\n"@) =~= text::replace_all(tail, pat, "\n"@));
    }
}

/// An alarm that recurs has the prompt that says so, and an alarm that runs once the
/// other, by what its context says and by nothing else.
pub proof fn prompts_go_by_recurrence(alarm: ContextModel)
    ensures
        alarm.recurring ==> prompt::alarm_prompt(alarm) == prompt::rendered(
            prompt::RECURRING_ALARM_PROMPT@,
            alarm,
        ),
        !alarm.recurring ==> prompt::alarm_prompt(alarm) == prompt::rendered(
            prompt::ONE_SHOT_ALARM_PROMPT@,
            alarm,
        ),
{
}

/// A message has its role and one text.
pub proof fn messages_have_one_text(item: ResponseInputItem, role: Seq<char>, said: Seq<char>)
    requires
        prompt::is_message(item, role, said),
    ensures
        item matches ResponseInputItem::Message { role: given, content } && given@ == role
            && content@.len() == 1 && (content@[0] matches ContentItem::InputText { text }
            && text@ == said),
{
}

} // verus!
