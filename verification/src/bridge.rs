//! A bridge from HTTP to an app server that speaks JSON-RPC on its standard
//! streams.
//!
//! JSON values stand here as their texts. What is decided here is what a line
//! of the app server leads to, and what a stream of a turn's events sends.
use vstd::prelude::*;
use vstd::string::StringExecFns;

use crate::pending::{PendingRequests, RequestId, RequestIdModel};
use crate::text;
use crate::text::{copy_of, str_eq, str_trim};

verus! {

/// The method of a notification that a turn is over.
pub const TURN_COMPLETED_METHOD: &'static str = "turn/completed";

/// The method of a request for the user's input.
pub const TOOL_REQUEST_METHOD: &'static str = "item/tool/requestUserInput";

/// The method of a request to approve a command.
pub const COMMAND_APPROVAL_METHOD: &'static str = "item/commandExecution/requestApproval";

/// The method of a request to approve a change of files.
pub const FILE_CHANGE_APPROVAL_METHOD: &'static str = "item/fileChange/requestApproval";

/// The arguments of the app server's command line, for the given overrides of
/// its configuration.
pub open spec fn server_args(overrides: Seq<Seq<char>>) -> Seq<Seq<char>> {
    override_args(overrides).push("app-server"@)
}

/// The arguments for overrides of the configuration.
pub open spec fn override_args(overrides: Seq<Seq<char>>) -> Seq<Seq<char>>
    decreases overrides.len(),
{
    if overrides.len() == 0 {
        Seq::empty()
    } else {
        override_args(overrides.drop_last()).push("--config"@).push(overrides.last())
    }
}

/// The arguments of the app server's command line.
pub fn app_server_args(config_overrides: &Vec<String>) -> (r: Vec<String>)
    ensures
        text::views(r@) == server_args(text::views(config_overrides@)),
{
    let ghost all = text::views(config_overrides@);
    let mut r: Vec<String> = Vec::new();
    let mut i: usize = 0;
    assert(text::views(r@) =~= Seq::<Seq<char>>::empty());
    while i < config_overrides.len()
        invariant
            i <= config_overrides@.len(),
            all == text::views(config_overrides@),
            text::views(r@) == override_args(all.take(i as int)),
        decreases config_overrides@.len() - i,
    {
        let ghost before = text::views(r@);
        r.push(copy_of("--config"));
        r.push(copy_of(config_overrides[i].as_str()));
        proof {
            assert(all.take(i + 1).drop_last() =~= all.take(i as int));
            assert(text::views(r@) =~= before.push("--config"@).push(all[i as int]));
        }
        i = i + 1;
    }
    let ghost before = text::views(r@);
    r.push(copy_of("app-server"));
    proof {
        assert(all.take(i as int) =~= all);
        assert(text::views(r@) =~= before.push("app-server"@));
    }
    r
}

/// What is said where the app server cannot be started.
pub fn start_failure(codex_bin: &str) -> (r: String)
    ensures
        r@ == "failed to start `"@ + codex_bin@ + "` app-server"@,
{
    let mut r = copy_of("failed to start `");
    r.append(codex_bin);
    r.append("` app-server");
    r
}

/// A message as it is written to the app server: a line.
pub fn framed(payload: &str) -> (r: String)
    ensures
        r@ == payload@ + "\n"@,
{
    let mut r = copy_of(payload);
    r.append("\n");
    r
}

/// Who the bridge says it is.
#[derive(Debug, PartialEq, Eq)]
pub struct ClientInfo {
    pub name: String,
    pub title: Option<String>,
    pub version: String,
}

/// Who the bridge says it is.
pub fn client_info(version: &str) -> (r: ClientInfo)
    ensures
        r.name@ == "codex_http_bridge"@,
        text::opt_view(r.title) == Some("Codex HTTP Bridge"@),
        r.version@ == version@,
{
    ClientInfo {
        name: copy_of("codex_http_bridge"),
        title: Some(copy_of("Codex HTTP Bridge")),
        version: copy_of(version),
    }
}

/// What a request for a new thread sets; everything else is left to the app
/// server.
#[derive(Debug, PartialEq, Eq)]
pub struct ThreadStartParams {
    pub model: Option<String>,
    pub cwd: Option<String>,
    pub experimental_raw_events: bool,
}

/// A request for a new thread.
pub fn thread_start_params(model: Option<String>, cwd: Option<String>) -> (r: ThreadStartParams)
    ensures
        r.model == model,
        r.cwd == cwd,
        !r.experimental_raw_events,
{
    ThreadStartParams { model, cwd, experimental_raw_events: false }
}

/// A request for a thread that was there before; everything else is left to the
/// app server.
#[derive(Debug, PartialEq, Eq)]
pub struct ThreadResumeParams {
    pub thread_id: String,
}

/// A request for a thread that was there before.
pub fn thread_resume_params(thread_id: String) -> (r: ThreadResumeParams)
    ensures
        r.thread_id == thread_id,
{
    ThreadResumeParams { thread_id }
}

/// A request for a turn: the thread, and the texts of the user.
#[derive(Debug, PartialEq, Eq)]
pub struct TurnStartParams {
    pub thread_id: String,
    pub input: Vec<String>,
}

/// A request for a turn with one text of the user.
pub fn turn_start_params(thread_id: &str, message: String) -> (r: TurnStartParams)
    ensures
        r.thread_id@ == thread_id@,
        text::views(r.input@) == seq![message@],
{
    let mut input: Vec<String> = Vec::new();
    input.push(message);
    assert(text::views(input@) =~= seq![message@]);
    TurnStartParams { thread_id: copy_of(thread_id), input }
}

/// A turn of a thread.
#[derive(Debug, PartialEq, Eq)]
pub struct TurnRef {
    pub thread_id: String,
    pub turn_id: String,
}

/// A notification of the app server.
#[derive(Debug, PartialEq, Eq)]
pub struct Notification {
    pub method: String,
    /// The text of its parameters.
    pub params: Option<String>,
    /// The turn that its parameters name, where they do.
    pub turn: Option<TurnRef>,
}

/// A message of the app server.
#[derive(Debug, PartialEq, Eq)]
pub enum JsonRpcMessage {
    Response { id: RequestId, result: String },
    Error { id: RequestId, message: String },
    Notification(Notification),
    /// A request, with the text of its parameters where they are those of its
    /// method.
    Request { id: RequestId, method: String, params: Option<String> },
}

/// What the streams of all turns are told.
#[derive(Debug, PartialEq, Eq)]
pub enum BridgeEvent {
    Notification(Notification),
    ToolRequest { request_id: RequestId, params: String },
}

/// What a read from the app server gave.
#[derive(Debug, PartialEq, Eq)]
pub enum LineRead {
    Failed(String),
    /// A line, with the number of its bytes. At the end of the stream that is
    /// none.
    Line { bytes: usize, line: String },
}

/// What a read leads to.
#[derive(Debug, PartialEq, Eq)]
pub enum ReadStep {
    /// Report a text and read no more.
    Stop(String),
    /// Read on.
    Skip,
    /// Parse a text, and read on.
    Parse(String),
}

/// The view of a [`ReadStep`].
pub enum ReadStepModel {
    Stop(Seq<char>),
    Skip,
    Parse(Seq<char>),
}

impl View for ReadStep {
    type V = ReadStepModel;

    open spec fn view(&self) -> ReadStepModel {
        match self {
            ReadStep::Stop(s) => ReadStepModel::Stop(s@),
            ReadStep::Skip => ReadStepModel::Skip,
            ReadStep::Parse(s) => ReadStepModel::Parse(s@),
        }
    }
}

/// What a read leads to. Reading ends with the stream; an empty line says
/// nothing.
pub open spec fn read_step(read: LineRead) -> ReadStepModel {
    match read {
        LineRead::Failed(e) => ReadStepModel::Stop("app-server stdout read failed: "@ + e@),
        LineRead::Line { bytes, line } => if bytes == 0 {
            ReadStepModel::Stop("app-server stdout closed"@)
        } else if text::trim(line@).len() == 0 {
            ReadStepModel::Skip
        } else {
            ReadStepModel::Parse(text::trim(line@))
        },
    }
}

/// What a read leads to.
pub fn on_read(read: LineRead) -> (r: ReadStep)
    ensures
        r@ == read_step(read),
{
    match read {
        LineRead::Failed(e) => {
            let mut s = copy_of("app-server stdout read failed: ");
            s.append(e.as_str());
            ReadStep::Stop(s)
        },
        LineRead::Line { bytes, line } => {
            if bytes == 0 {
                return ReadStep::Stop(copy_of("app-server stdout closed"));
            }
            let trimmed = str_trim(line.as_str());
            if text::is_empty(trimmed.as_str()) {
                ReadStep::Skip
            } else {
                ReadStep::Parse(trimmed)
            }
        },
    }
}

/// What parsing a line gave.
#[derive(Debug, PartialEq, Eq)]
pub enum ParsedLine {
    /// It is not JSON.
    NotJson(String),
    /// It is not a JSON-RPC message.
    NotMessage(String),
    Message(JsonRpcMessage),
}

/// What a parsed line leads to. `T` waits for a reply.
#[derive(Debug, PartialEq, Eq)]
pub enum BridgeAction<T> {
    /// Do nothing.
    Nothing,
    /// Report a text.
    Report(String),
    /// Hand a reply to the one who waits for it.
    Deliver { to: T, reply: Result<String, String> },
    /// Tell the streams of all turns.
    Broadcast(BridgeEvent),
    /// Answer a request for approval by accepting.
    Accept { request_id: RequestId },
}

/// The reply to a request.
pub open spec fn reply_view(reply: Result<String, String>) -> Result<Seq<char>, Seq<char>> {
    text::text_result(reply)
}

/// Whether an action reports the given text.
pub open spec fn reports<T>(action: BridgeAction<T>, text: Seq<char>) -> bool {
    action matches BridgeAction::Report(s) && s@ == text
}

/// Whether an action hands a reply to whoever waits under the id, or does
/// nothing where no one does.
pub open spec fn settles<T>(
    action: BridgeAction<T>,
    waiting: Map<RequestIdModel, T>,
    id: RequestIdModel,
    reply: Result<Seq<char>, Seq<char>>,
) -> bool {
    if waiting.contains_key(id) {
        action matches BridgeAction::Deliver { to, reply: given } && to == waiting[id]
            && reply_view(given) == reply
    } else {
        action == BridgeAction::<T>::Nothing
    }
}

/// Whether an action is the one for a request of the app server: approvals are
/// accepted, a request for input is passed on, any other request is left.
pub open spec fn answers<T>(
    action: BridgeAction<T>,
    id: RequestIdModel,
    method: Seq<char>,
    params: Option<Seq<char>>,
) -> bool {
    match params {
        None => reports(
            action,
            "failed to handle server request: failed to deserialize ServerRequest from JSONRPCRequest"@,
        ),
        Some(given) => if method == COMMAND_APPROVAL_METHOD@ || method
            == FILE_CHANGE_APPROVAL_METHOD@ {
            action matches BridgeAction::Accept { request_id } && request_id@ == id
        } else if method == TOOL_REQUEST_METHOD@ {
            action matches BridgeAction::Broadcast(BridgeEvent::ToolRequest { request_id, params })
                && request_id@ == id && params@ == given
        } else {
            action == BridgeAction::<T>::Nothing
        },
    }
}

/// Whether an action is the one for a parsed line.
pub open spec fn leads_to<T>(
    parsed: ParsedLine,
    waiting: Map<RequestIdModel, T>,
    action: BridgeAction<T>,
) -> bool {
    match parsed {
        ParsedLine::NotJson(e) => reports(action, "invalid JSON-RPC from app-server: "@ + e@),
        ParsedLine::NotMessage(e) => reports(action, "invalid JSON-RPC shape: "@ + e@),
        ParsedLine::Message(JsonRpcMessage::Response { id, result }) => settles(
            action,
            waiting,
            id@,
            Ok(result@),
        ),
        ParsedLine::Message(JsonRpcMessage::Error { id, message }) => settles(
            action,
            waiting,
            id@,
            Err(message@),
        ),
        ParsedLine::Message(JsonRpcMessage::Notification(notification)) => action
            == BridgeAction::<T>::Broadcast(BridgeEvent::Notification(notification)),
        ParsedLine::Message(JsonRpcMessage::Request { id, method, params }) => answers(
            action,
            id@,
            method@,
            text::opt_view(params),
        ),
    }
}

/// Those who wait after a parsed line: a reply ends the wait for it.
pub open spec fn waiting_after<T>(parsed: ParsedLine, waiting: Map<RequestIdModel, T>) -> Map<
    RequestIdModel,
    T,
> {
    match parsed {
        ParsedLine::Message(JsonRpcMessage::Response { id, .. }) => waiting.remove(id@),
        ParsedLine::Message(JsonRpcMessage::Error { id, .. }) => waiting.remove(id@),
        _ => waiting,
    }
}

fn settle<T>(pending: &mut PendingRequests<T>, id: &RequestId, reply: Result<String, String>) -> (r:
    BridgeAction<T>)
    requires
        old(pending).wf(),
    ensures
        final(pending).wf(),
        final(pending)@ == old(pending)@.remove(id@),
        settles(r, old(pending)@, id@, reply_view(reply)),
{
    match pending.remove(id) {
        Some(to) => BridgeAction::Deliver { to, reply },
        None => BridgeAction::Nothing,
    }
}

/// What a request of the app server leads to.
pub fn handle_server_request<T>(id: RequestId, method: &str, params: Option<String>) -> (r:
    BridgeAction<T>)
    ensures
        answers(r, id@, method@, text::opt_view(params)),
{
    match params {
        None => BridgeAction::Report(
            copy_of(
                "failed to handle server request: failed to deserialize ServerRequest from JSONRPCRequest",
            ),
        ),
        Some(params) => if str_eq(method, COMMAND_APPROVAL_METHOD) || str_eq(
            method,
            FILE_CHANGE_APPROVAL_METHOD,
        ) {
            BridgeAction::Accept { request_id: id }
        } else if str_eq(method, TOOL_REQUEST_METHOD) {
            BridgeAction::Broadcast(BridgeEvent::ToolRequest { request_id: id, params })
        } else {
            BridgeAction::Nothing
        },
    }
}

/// What a parsed line leads to.
pub fn on_parsed<T>(pending: &mut PendingRequests<T>, parsed: ParsedLine) -> (r: BridgeAction<T>)
    requires
        old(pending).wf(),
    ensures
        final(pending).wf(),
        leads_to(parsed, old(pending)@, r),
        final(pending)@ == waiting_after(parsed, old(pending)@),
{
    match parsed {
        ParsedLine::NotJson(e) => {
            let mut s = copy_of("invalid JSON-RPC from app-server: ");
            s.append(e.as_str());
            BridgeAction::Report(s)
        },
        ParsedLine::NotMessage(e) => {
            let mut s = copy_of("invalid JSON-RPC shape: ");
            s.append(e.as_str());
            BridgeAction::Report(s)
        },
        ParsedLine::Message(message) => match message {
            JsonRpcMessage::Response { id, result } => settle(pending, &id, Ok(result)),
            JsonRpcMessage::Error { id, message } => settle(pending, &id, Err(message)),
            JsonRpcMessage::Notification(notification) => BridgeAction::Broadcast(
                BridgeEvent::Notification(notification),
            ),
            JsonRpcMessage::Request { id, method, params } => handle_server_request(
                id,
                method.as_str(),
                params,
            ),
        },
    }
}

/// The result that a request gave, given what became of the wait for its reply;
/// nothing where the wait was broken off.
pub open spec fn settled_reply(reply: Option<Result<Seq<char>, Seq<char>>>) -> Result<
    Seq<char>,
    Seq<char>,
> {
    match reply {
        None => Err("app-server response channel closed"@),
        Some(reply) => reply,
    }
}

/// The result that a request gave.
pub fn settle_reply(reply: Option<Result<String, String>>) -> (r: Result<String, String>)
    ensures
        text::text_result(r) == settled_reply(
            match reply {
                Some(reply) => Some(text::text_result(reply)),
                None => None,
            },
        ),
{
    match reply {
        None => Err(copy_of("app-server response channel closed")),
        Some(reply) => reply,
    }
}

/// What is said of a result that is not one of its method.
pub fn missing_payload(method: &str) -> (r: String)
    ensures
        r@ == method@ + " response missing payload"@,
{
    let mut r = copy_of(method);
    r.append(" response missing payload");
    r
}

/// The request that an answer of the user is for.
pub fn answered_request(request_id: Option<RequestId>) -> (r: Result<RequestId, String>)
    ensures
        match request_id {
            Some(id) => r == Ok::<RequestId, String>(id),
            None => r matches Err(e) && e@ == "invalid requestId"@,
        },
{
    match request_id {
        Some(id) => Ok(id),
        None => Err(copy_of("invalid requestId")),
    }
}

/// An event of a stream.
#[derive(Debug, PartialEq, Eq)]
pub struct StreamEvent {
    pub event: String,
    pub data: String,
}

/// What a stream does next.
#[derive(Debug, PartialEq, Eq)]
pub enum StreamStep {
    /// It ends.
    End,
    /// It sends an event, and ends then where that was the last.
    Send { event: StreamEvent, last: bool },
}

/// The view of a [`StreamStep`].
pub enum StreamStepModel {
    End,
    Send { event: Seq<char>, data: Seq<char>, last: bool },
}

impl View for StreamStep {
    type V = StreamStepModel;

    open spec fn view(&self) -> StreamStepModel {
        match self {
            StreamStep::End => StreamStepModel::End,
            StreamStep::Send { event, last } => StreamStepModel::Send {
                event: event.event@,
                data: event.data@,
                last: *last,
            },
        }
    }
}

/// Whether a notification says that the given turn is over.
pub open spec fn completes(
    notification: Notification,
    thread_id: Seq<char>,
    turn_id: Seq<char>,
) -> bool {
    &&& notification.method@ == TURN_COMPLETED_METHOD@
    &&& notification.turn matches Some(turn) && turn.thread_id@ == thread_id && turn.turn_id@
        == turn_id
}

/// What a stream of a turn does with what all streams are told. `payload` is
/// the text that is sent, where it could be written; nothing is told where the
/// stream fell behind.
pub open spec fn stream_step(
    told: Option<BridgeEvent>,
    payload: Option<Seq<char>>,
    thread_id: Seq<char>,
    turn_id: Seq<char>,
) -> StreamStepModel {
    match told {
        None => StreamStepModel::End,
        Some(BridgeEvent::Notification(notification)) => StreamStepModel::Send {
            event: notification.method@,
            data: match payload {
                Some(data) => data,
                None => "{\"error\":\"failed to serialize notification\"}"@,
            },
            last: completes(notification, thread_id, turn_id),
        },
        Some(BridgeEvent::ToolRequest { .. }) => StreamStepModel::Send {
            event: TOOL_REQUEST_METHOD@,
            data: match payload {
                Some(data) => data,
                None => "{\"error\":\"failed to serialize tool request\"}"@,
            },
            last: false,
        },
    }
}

/// Whether a notification says that the given turn is over.
pub fn is_turn_completed(notification: &Notification, thread_id: &str, turn_id: &str) -> (r: bool)
    ensures
        r == completes(*notification, thread_id@, turn_id@),
{
    if !str_eq(notification.method.as_str(), TURN_COMPLETED_METHOD) {
        return false;
    }
    match &notification.turn {
        Some(turn) => str_eq(turn.thread_id.as_str(), thread_id) && str_eq(
            turn.turn_id.as_str(),
            turn_id,
        ),
        None => false,
    }
}

fn data_or(payload: Option<String>, fallback: &str) -> (r: String)
    ensures
        r@ == (match payload {
            Some(data) => data@,
            None => fallback@,
        }),
{
    match payload {
        Some(data) => data,
        None => copy_of(fallback),
    }
}

/// A stream of the events of a turn.
#[derive(Debug, PartialEq, Eq)]
pub struct TurnStream {
    pub thread_id: String,
    pub turn_id: String,
}

impl TurnStream {
    /// The first event: the app server's reply to the request for the turn.
    pub fn first_event(&self, reply: String) -> (r: StreamEvent)
        ensures
            r.event@ == "turn_start"@,
            r.data@ == reply@,
    {
        StreamEvent { event: copy_of("turn_start"), data: reply }
    }

    /// What the stream does with what all streams are told.
    pub fn step(&self, told: Option<&BridgeEvent>, payload: Option<String>) -> (r: StreamStep)
        ensures
            r@ == stream_step(
                match told {
                    Some(event) => Some(*event),
                    None => None,
                },
                text::opt_view(payload),
                self.thread_id@,
                self.turn_id@,
            ),
    {
        match told {
            None => StreamStep::End,
            Some(event) => match event {
                BridgeEvent::Notification(notification) => {
                    let last = is_turn_completed(
                        notification,
                        self.thread_id.as_str(),
                        self.turn_id.as_str(),
                    );
                    let data = data_or(
                        payload,
                        "{\"error\":\"failed to serialize notification\"}",
                    );
                    StreamStep::Send {
                        event: StreamEvent { event: copy_of(notification.method.as_str()), data },
                        last,
                    }
                },
                BridgeEvent::ToolRequest { .. } => {
                    let data = data_or(
                        payload,
                        "{\"error\":\"failed to serialize tool request\"}",
                    );
                    StreamStep::Send {
                        event: StreamEvent { event: copy_of(TOOL_REQUEST_METHOD), data },
                        last: false,
                    }
                },
            },
        }
    }

    /// Whether the stream goes on after it tried to send an event.
    pub fn goes_on(last: bool, sent: bool) -> (r: bool)
        ensures
            r == (sent && !last),
    {
        sent && !last
    }
}

/// A stream ends by itself with the end of its own turn, and with nothing else
/// that it is told.
pub proof fn stream_ends_with_its_turn(
    told: BridgeEvent,
    payload: Option<Seq<char>>,
    thread_id: Seq<char>,
    turn_id: Seq<char>,
)
    ensures
        stream_step(Some(told), payload, thread_id, turn_id) matches StreamStepModel::Send {
            last,
            ..
        } && last == (told matches BridgeEvent::Notification(notification) && completes(
            notification,
            thread_id,
            turn_id,
        )),
{
}

/// A reply reaches the one who waits for it, once: after it no one waits for
/// that reply, and everyone else waits on.
pub proof fn reply_reaches_its_request_once<T>(
    id: RequestId,
    result: String,
    waiting: Map<RequestIdModel, T>,
    action: BridgeAction<T>,
    other: RequestIdModel,
)
    requires
        waiting.contains_key(id@),
        other != id@,
        leads_to(ParsedLine::Message(JsonRpcMessage::Response { id, result }), waiting, action),
    ensures
        ({
            let parsed = ParsedLine::Message(JsonRpcMessage::Response { id, result });
            let after = waiting_after(parsed, waiting);
            &&& action matches BridgeAction::Deliver { to, reply } && to == waiting[id@]
                && reply_view(reply) == Ok::<_, Seq<char>>(result@)
            &&& !after.contains_key(id@)
            &&& after.contains_key(other) == waiting.contains_key(other)
            &&& waiting.contains_key(other) ==> after[other] == waiting[other]
        }),
{
}

/// Requests to approve commands and changes of files are accepted.
pub proof fn approvals_are_accepted<T>(
    id: RequestIdModel,
    method: Seq<char>,
    params: Seq<char>,
    action: BridgeAction<T>,
)
    requires
        method == COMMAND_APPROVAL_METHOD@ || method == FILE_CHANGE_APPROVAL_METHOD@,
        answers(action, id, method, Some(params)),
    ensures
        action matches BridgeAction::Accept { request_id } && request_id@ == id,
{
}

} // verus!
