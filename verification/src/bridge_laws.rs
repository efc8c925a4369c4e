//! What holds of the bridge, whatever the app server says.
use vstd::prelude::*;

use crate::bridge;
use crate::bridge::{
    BridgeAction, BridgeEvent, JsonRpcMessage, LineRead, Notification, ParsedLine, ReadStep,
    ReadStepModel, StreamStep, StreamStepModel,
};
use crate::pending::{RequestId, RequestIdModel};
use crate::text;
use crate::text_laws;

verus! {

/// A stream sends what was written for it, whatever it is told: the data of the
/// event is the payload, letter for letter.
pub proof fn streams_send_the_payload(
    told: BridgeEvent,
    payload: Seq<char>,
    thread_id: Seq<char>,
    turn_id: Seq<char>,
)
    ensures
        bridge::stream_step(Some(told), Some(payload), thread_id, turn_id) matches StreamStepModel::Send {
            data,
            ..
        } && data == payload,
{
}

/// A stream sends a notification under its method, and a request for the user's
/// input under the method of such requests. It ends where it is told nothing more.
pub proof fn streams_name_their_events(
    notification: Notification,
    request_id: RequestId,
    params: String,
    payload: Option<Seq<char>>,
    thread_id: Seq<char>,
    turn_id: Seq<char>,
)
    ensures
        bridge::stream_step(None, payload, thread_id, turn_id) is End,
        bridge::stream_step(
            Some(BridgeEvent::Notification(notification)),
            payload,
            thread_id,
            turn_id,
        ) matches StreamStepModel::Send { event, .. } && event == notification.method@,
        bridge::stream_step(
            Some(BridgeEvent::ToolRequest { request_id, params }),
            payload,
            thread_id,
            turn_id,
        ) matches StreamStepModel::Send { event, .. } && event == "item/tool/requestUserInput"@,
{
}

/// What could not be written for a stream is sent as an error.
pub proof fn streams_send_errors_for_what_is_not_written(
    notification: Notification,
    request_id: RequestId,
    params: String,
    thread_id: Seq<char>,
    turn_id: Seq<char>,
)
    ensures
        bridge::stream_step(
            Some(BridgeEvent::Notification(notification)),
            None,
            thread_id,
            turn_id,
        ) matches StreamStepModel::Send { data, .. } && data
            == "{\"error\":\"failed to serialize notification\"}"@,
        bridge::stream_step(
            Some(BridgeEvent::ToolRequest { request_id, params }),
            None,
            thread_id,
            turn_id,
        ) matches StreamStepModel::Send { data, .. } && data
            == "{\"error\":\"failed to serialize tool request\"}"@,
{
}

/// A stream ends after the notification that its own turn is over: one of that
/// method, with the thread and the turn of the stream. It goes on after every other
/// event.
pub proof fn streams_end_with_their_own_turn(
    told: BridgeEvent,
    payload: Option<Seq<char>>,
    thread_id: Seq<char>,
    turn_id: Seq<char>,
)
    ensures
        bridge::stream_step(Some(told), payload, thread_id, turn_id) matches StreamStepModel::Send {
            last,
            ..
        } && (last <==> (told matches BridgeEvent::Notification(n) && n.method@
            == "turn/completed"@ && n.turn is Some && n.turn->0.thread_id@ == thread_id
            && n.turn->0.turn_id@ == turn_id)),
{
}

/// Whether a turn is over goes by the method, the thread and the turn of a
/// notification, and by all three.
pub proof fn turns_are_told_apart(
    n: Notification,
    thread_id: Seq<char>,
    turn_id: Seq<char>,
    other_thread: Seq<char>,
    other_turn: Seq<char>,
)
    requires
        bridge::completes(n, thread_id, turn_id),
    ensures
        n.method@ == "turn/completed"@,
        bridge::completes(n, other_thread, other_turn) <==> other_thread == thread_id && other_turn
            == turn_id,
{
}

/// The command line of the app server is two arguments for each override, in order,
/// and one at the end that names the server.
pub proof fn overrides_stand_in_order(overrides: Seq<Seq<char>>, i: int)
    requires
        0 <= i < overrides.len(),
    ensures
        bridge::server_args(overrides).len() == 2 * overrides.len() + 1,
        bridge::server_args(overrides)[2 * i] == "--config"@,
        bridge::server_args(overrides)[2 * i + 1] == overrides[i],
        bridge::server_args(overrides).last() == "app-server"@,
        bridge::server_args(Seq::empty()) == seq!["app-server"@],
{
    lemma_override_args(overrides);
    let args = bridge::override_args(overrides);
    assert(args[2 * i] == "--config"@);
    assert(args[2 * i + 1] == overrides[i]);
}

proof fn lemma_override_args(overrides: Seq<Seq<char>>)
    ensures
        bridge::override_args(overrides).len() == 2 * overrides.len(),
        forall|i: int|
            0 <= i < overrides.len() ==> #[trigger] bridge::override_args(overrides)[2 * i]
                == "--config"@,
        forall|i: int|
            0 <= i < overrides.len() ==> #[trigger] bridge::override_args(overrides)[2 * i + 1]
                == overrides[i],
    decreases overrides.len(),
{
    if overrides.len() > 0 {
        let init = overrides.drop_last();
        lemma_override_args(init);
        let before = bridge::override_args(init);
        let all = bridge::override_args(overrides);
        assert forall|i: int| 0 <= i < overrides.len() implies #[trigger] all[2 * i]
            == "--config"@ by {
            if i < init.len() {
                assert(all[2 * i] == before[2 * i]);
            }
        }
        assert forall|i: int| 0 <= i < overrides.len() implies #[trigger] all[2 * i + 1]
            == overrides[i] by {
            if i < init.len() {
                assert(all[2 * i + 1] == before[2 * i + 1]);
                assert(init[i] == overrides[i]);
            }
        }
    }
}

/// Reading goes on until it fails or the stream is at its end, which is a line of no
/// bytes. A line of white space is passed over, and any other is parsed without the
/// white space at its ends.
pub proof fn reading_goes_on_to_the_end(
    reason: String,
    bytes: usize,
    lead: Seq<char>,
    said: Seq<char>,
    trail: Seq<char>,
    line: String,
    blank: String,
)
    requires
        text::is_blank(lead) && text::is_blank(trail) && text::is_blank(blank@),
        said.len() > 0,
        !text::white_space(said[0]) && !text::white_space(said.last()),
        line@ == lead + said + trail,
    ensures
        bridge::read_step(LineRead::Failed(reason)) == ReadStepModel::Stop(
            "app-server stdout read failed: "@ + reason@,
        ),
        bytes == 0 ==> bridge::read_step(LineRead::Line { bytes, line }) == ReadStepModel::Stop(
            "app-server stdout closed"@,
        ),
        bytes > 0 ==> bridge::read_step(LineRead::Line { bytes, line }) == ReadStepModel::Parse(
            said,
        ),
        bytes > 0 ==> bridge::read_step(LineRead::Line { bytes, line: blank })
            == ReadStepModel::Skip,
{
    let s = line@;
    let (a, b) = text_laws::trimmed_is_the_middle(s);
    let n = lead.len() as int;
    let k = said.len() as int;
    assert(s[n] == said[0] && s[n + k - 1] == said.last());
    if a < n {
        assert(text::white_space(lead[a]));
        assert(s[a] == lead[a]);
        if b <= a {
            assert(text::white_space(s[n]));
        }
    }
    assert(a == n);
    if b > n + k {
        assert(s[b - 1] == trail[b - 1 - n - k]);
        assert(text::white_space(trail[b - 1 - n - k]));
    }
    assert(b == n + k);
    assert(text::trim(s) =~= said);
    let (c, d) = text_laws::trimmed_is_the_middle(blank@);
    if c < d {
        assert(text::white_space(blank@[c]));
    }
    assert(text::trim(blank@).len() == 0);
}

/// A reply, be it a result or an error, is handed to the one who waits under its id,
/// who waits no more. A reply that no one waits for does nothing. No one else is
/// touched.
pub proof fn replies_go_to_those_who_wait<T>(
    id: RequestId,
    said: String,
    failed: bool,
    waiting: Map<RequestIdModel, T>,
    action: BridgeAction<T>,
    other: RequestIdModel,
)
    requires
        other != id@,
        failed ==> bridge::leads_to(
            ParsedLine::Message(JsonRpcMessage::Error { id, message: said }),
            waiting,
            action,
        ),
        !failed ==> bridge::leads_to(
            ParsedLine::Message(JsonRpcMessage::Response { id, result: said }),
            waiting,
            action,
        ),
    ensures
        ({
            let parsed = if failed {
                ParsedLine::Message(JsonRpcMessage::Error { id, message: said })
            } else {
                ParsedLine::Message(JsonRpcMessage::Response { id, result: said })
            };
            let after = bridge::waiting_after(parsed, waiting);
            &&& waiting.contains_key(id@) ==> (action matches BridgeAction::Deliver { to, reply }
                && to == waiting[id@] && (failed ==> (reply matches Err(e) && e@ == said@)) && (
            !failed ==> (reply matches Ok(r) && r@ == said@)))
            &&& !waiting.contains_key(id@) ==> action is Nothing
            &&& !after.contains_key(id@)
            &&& after.contains_key(other) == waiting.contains_key(other)
            &&& waiting.contains_key(other) ==> after[other] == waiting[other]
        }),
{
}

/// What is no reply leaves everyone waiting.
pub proof fn only_replies_end_a_wait<T>(
    parsed: ParsedLine,
    waiting: Map<RequestIdModel, T>,
    action: BridgeAction<T>,
)
    requires
        bridge::leads_to(parsed, waiting, action),
        !(parsed matches ParsedLine::Message(JsonRpcMessage::Response { .. })),
        !(parsed matches ParsedLine::Message(JsonRpcMessage::Error { .. })),
    ensures
        bridge::waiting_after(parsed, waiting) == waiting,
        !(action is Deliver),
{
}

/// A line that is no message is reported with its reason, and a notification goes to
/// all streams as it is.
pub proof fn notifications_go_to_all_streams<T>(
    reason: String,
    notification: Notification,
    waiting: Map<RequestIdModel, T>,
    action: BridgeAction<T>,
)
    ensures
        bridge::leads_to(ParsedLine::NotJson(reason), waiting, action) <==> (
        action matches BridgeAction::Report(s) && s@ == "invalid JSON-RPC from app-server: "@
            + reason@),
        bridge::leads_to(ParsedLine::NotMessage(reason), waiting, action) <==> (
        action matches BridgeAction::Report(s) && s@ == "invalid JSON-RPC shape: "@ + reason@),
        bridge::leads_to(
            ParsedLine::Message(JsonRpcMessage::Notification(notification)),
            waiting,
            action,
        ) <==> (action matches BridgeAction::Broadcast(BridgeEvent::Notification(n)) && n
            == notification),
{
}

/// A request of the app server is answered by its method. Approvals of commands and
/// of changes of files are given, under the id of the request; a request for the
/// user's input goes to all streams with its id and its parameters; nothing is done
/// about any other, and one whose parameters are not those of its method is reported.
pub proof fn requests_are_answered_by_their_method<T>(
    id: RequestId,
    method: String,
    params: Option<String>,
    waiting: Map<RequestIdModel, T>,
    action: BridgeAction<T>,
)
    requires
        bridge::leads_to(
            ParsedLine::Message(JsonRpcMessage::Request { id, method, params }),
            waiting,
            action,
        ),
    ensures
        ({
            let approves = method@ == "item/commandExecution/requestApproval"@ || method@
                == "item/fileChange/requestApproval"@;
            let asks = method@ == "item/tool/requestUserInput"@;
            &&& params is Some && approves ==> (action matches BridgeAction::Accept { request_id }
                && request_id@ == id@)
            &&& params is Some && asks ==> (action matches BridgeAction::Broadcast(
                BridgeEvent::ToolRequest { request_id, params: given },
            ) && request_id@ == id@ && given@ == params->0@)
            &&& params is Some && !approves && !asks ==> action is Nothing
            &&& params is None ==> (action matches BridgeAction::Report(s) && s@
                == "failed to handle server request: failed to deserialize ServerRequest from JSONRPCRequest"@)
        }),
{
    reveal_strlit("item/commandExecution/requestApproval");
    reveal_strlit("item/fileChange/requestApproval");
    reveal_strlit("item/tool/requestUserInput");
    assert("item/commandExecution/requestApproval"@[5] != "item/tool/requestUserInput"@[5]);
    assert("item/fileChange/requestApproval"@[5] != "item/tool/requestUserInput"@[5]);
}

/// A request gives the reply that came, and an error where the wait for it was broken
/// off.
pub proof fn requests_give_their_reply(reply: Result<Seq<char>, Seq<char>>)
    ensures
        bridge::settled_reply(Some(reply)) == reply,
        bridge::settled_reply(None) == Err::<Seq<char>, Seq<char>>(
            "app-server response channel closed"@,
        ),
{
}

/// The views of steps hold all of their parts.
pub proof fn views_of_steps_hold_all_parts(read: ReadStep, step: StreamStep)
    ensures
        read matches ReadStep::Stop(s) ==> read@ == ReadStepModel::Stop(s@),
        read is Skip ==> read@ is Skip,
        read matches ReadStep::Parse(s) ==> read@ == ReadStepModel::Parse(s@),
        step is End ==> step@ is End,
        step matches StreamStep::Send { event, last } ==> step@ == (StreamStepModel::Send {
            event: event.event@,
            data: event.data@,
            last,
        }),
{
}

/// Ids of requests are told apart by their texts or their numbers, and a text is
/// never a number.
pub proof fn ids_are_told_apart(a: RequestId, b: RequestId)
    ensures
        a@ == b@ <==> match (a, b) {
            (RequestId::String(x), RequestId::String(y)) => x@ == y@,
            (RequestId::Integer(x), RequestId::Integer(y)) => x == y,
            _ => false,
        },
{
}

} // verus!
