use harness::bridge::{
    answered_request, app_server_args, client_info, framed, is_turn_completed, missing_payload,
    on_parsed, on_read, settle_reply, start_failure, thread_resume_params,
    thread_start_params, turn_start_params,
    BridgeAction, BridgeEvent, JsonRpcMessage, LineRead, Notification, ParsedLine, ReadStep,
    StreamEvent, StreamStep, TurnRef, TurnStream,
};
use harness::pending::{PendingRequests, RequestId};

fn id(s: &str) -> RequestId {
    RequestId::String(s.to_string())
}

fn completed(thread: &str, turn: &str) -> Notification {
    Notification {
        method: "turn/completed".to_string(),
        params: Some("{}".to_string()),
        turn: Some(TurnRef {
            thread_id: thread.to_string(),
            turn_id: turn.to_string(),
        }),
    }
}

fn stream() -> TurnStream {
    TurnStream {
        thread_id: "t".to_string(),
        turn_id: "u".to_string(),
    }
}

fn request(method: &str, params: Option<&str>) -> ParsedLine {
    ParsedLine::Message(JsonRpcMessage::Request {
        id: id("r"),
        method: method.to_string(),
        params: params.map(|s| s.to_string()),
    })
}

#[test]
fn overrides_are_passed_on() {
    assert_eq!(
        app_server_args(&vec!["a=1".to_string(), "b=2".to_string()]),
        vec!["--config", "a=1", "--config", "b=2", "app-server"]
    );
    assert_eq!(app_server_args(&vec![]), vec!["app-server"]);
    assert_eq!(start_failure("codex"), "failed to start `codex` app-server");
}

#[test]
fn reading_ends_with_the_stream() {
    assert_eq!(
        on_read(LineRead::Failed("broken".to_string())),
        ReadStep::Stop("app-server stdout read failed: broken".to_string())
    );
    assert_eq!(
        on_read(LineRead::Line { bytes: 0, line: String::new() }),
        ReadStep::Stop("app-server stdout closed".to_string())
    );
    assert_eq!(
        on_read(LineRead::Line { bytes: 2, line: " \n".to_string() }),
        ReadStep::Skip
    );
    assert_eq!(
        on_read(LineRead::Line { bytes: 5, line: " {} \n".to_string() }),
        ReadStep::Parse("{}".to_string())
    );
}

#[test]
fn replies_reach_those_who_wait() {
    let mut pending: PendingRequests<u8> = PendingRequests::new();
    pending.insert(id("a"), 1);
    pending.insert(RequestId::Integer(7), 2);
    pending.insert(id("a"), 3);
    let reply = |id| JsonRpcMessage::Response { id, result: "{}".to_string() };
    assert_eq!(
        on_parsed(&mut pending, ParsedLine::Message(reply(id("a")))),
        BridgeAction::Deliver { to: 3, reply: Ok("{}".to_string()) }
    );
    assert_eq!(
        on_parsed(&mut pending, ParsedLine::Message(reply(id("a")))),
        BridgeAction::Nothing
    );
    assert_eq!(
        on_parsed(
            &mut pending,
            ParsedLine::Message(JsonRpcMessage::Error {
                id: RequestId::Integer(7),
                message: "no".to_string(),
            })
        ),
        BridgeAction::Deliver { to: 2, reply: Err("no".to_string()) }
    );
    assert_eq!(pending.remove(&RequestId::Integer(7)), None);
}

#[test]
fn lines_that_are_no_messages_are_reported() {
    let mut pending: PendingRequests<u8> = PendingRequests::new();
    assert_eq!(
        on_parsed(&mut pending, ParsedLine::NotJson("eof".to_string())),
        BridgeAction::Report("invalid JSON-RPC from app-server: eof".to_string())
    );
    assert_eq!(
        on_parsed(&mut pending, ParsedLine::NotMessage("shape".to_string())),
        BridgeAction::Report("invalid JSON-RPC shape: shape".to_string())
    );
}

#[test]
fn approvals_are_given() {
    let mut pending: PendingRequests<u8> = PendingRequests::new();
    for method in [
        "item/commandExecution/requestApproval",
        "item/fileChange/requestApproval",
    ] {
        assert_eq!(
            on_parsed(&mut pending, request(method, Some("{}"))),
            BridgeAction::Accept { request_id: id("r") }
        );
    }
    assert_eq!(
        on_parsed(&mut pending, request("item/tool/call", Some("{}"))),
        BridgeAction::Nothing
    );
    assert_eq!(
        on_parsed(&mut pending, request("item/fileChange/requestApproval", None)),
        BridgeAction::Report(
            "failed to handle server request: failed to deserialize ServerRequest from JSONRPCRequest"
                .to_string()
        )
    );
}

#[test]
fn requests_for_input_are_passed_on() {
    let mut pending: PendingRequests<u8> = PendingRequests::new();
    let told = on_parsed(&mut pending, request("item/tool/requestUserInput", Some("{\"q\":1}")));
    let event = BridgeEvent::ToolRequest {
        request_id: id("r"),
        params: "{\"q\":1}".to_string(),
    };
    assert_eq!(told, BridgeAction::Broadcast(event));
    let event = BridgeEvent::ToolRequest {
        request_id: id("r"),
        params: "{}".to_string(),
    };
    assert_eq!(
        stream().step(Some(&event), None),
        StreamStep::Send {
            event: StreamEvent {
                event: "item/tool/requestUserInput".to_string(),
                data: "{\"error\":\"failed to serialize tool request\"}".to_string(),
            },
            last: false,
        }
    );
}

#[test]
fn stream_ends_with_its_own_turn() {
    let own = BridgeEvent::Notification(completed("t", "u"));
    assert_eq!(
        stream().step(Some(&own), Some("data".to_string())),
        StreamStep::Send {
            event: StreamEvent {
                event: "turn/completed".to_string(),
                data: "data".to_string(),
            },
            last: true,
        }
    );
    let other = BridgeEvent::Notification(completed("t", "v"));
    assert_eq!(
        stream().step(Some(&other), None),
        StreamStep::Send {
            event: StreamEvent {
                event: "turn/completed".to_string(),
                data: "{\"error\":\"failed to serialize notification\"}".to_string(),
            },
            last: false,
        }
    );
    assert_eq!(stream().step(None, None), StreamStep::End);
    assert!(TurnStream::goes_on(false, true));
    assert!(!TurnStream::goes_on(true, true));
    assert!(!TurnStream::goes_on(false, false));
}

#[test]
fn turn_is_over_when_its_own_completion_comes() {
    assert!(is_turn_completed(&completed("t", "u"), "t", "u"));
    assert!(!is_turn_completed(&completed("x", "u"), "t", "u"));
    let mut started = completed("t", "u");
    started.method = "turn/started".to_string();
    assert!(!is_turn_completed(&started, "t", "u"));
    let mut unknown = completed("t", "u");
    unknown.turn = None;
    assert!(!is_turn_completed(&unknown, "t", "u"));
}

#[test]
fn first_event_is_the_reply() {
    let first = stream().first_event("{\"turn\":1}".to_string());
    assert_eq!(first.event, "turn_start");
    assert_eq!(first.data, "{\"turn\":1}");
}

#[test]
fn replies_are_settled() {
    assert_eq!(
        settle_reply(None),
        Err("app-server response channel closed".to_string())
    );
    assert_eq!(settle_reply(Some(Ok("x".to_string()))), Ok("x".to_string()));
    assert_eq!(settle_reply(Some(Err("e".to_string()))), Err("e".to_string()));
    assert_eq!(missing_payload("initialize"), "initialize response missing payload");
    assert_eq!(answered_request(Some(id("r"))), Ok(id("r")));
    assert_eq!(answered_request(None), Err("invalid requestId".to_string()));
}

#[test]
fn requests_say_what_is_asked() {
    let info = client_info("1.2.3");
    assert_eq!(info.name, "codex_http_bridge");
    assert_eq!(info.title, Some("Codex HTTP Bridge".to_string()));
    assert_eq!(info.version, "1.2.3");
    let thread = thread_start_params(Some("m".to_string()), None);
    assert_eq!((thread.model, thread.cwd), (Some("m".to_string()), None));
    assert!(!thread.experimental_raw_events);
    assert_eq!(thread_resume_params("t".to_string()).thread_id, "t");
    let turn = turn_start_params("t", "hello".to_string());
    assert_eq!(turn.thread_id, "t");
    assert_eq!(turn.input, vec!["hello"]);
    assert_eq!(framed("{}"), "{}\n");
}

#[test]
fn request_ids_are_random() {
    let one = RequestId::random();
    let other = RequestId::random();
    assert!(!one.same(&other));
    assert!(one.same(&one.clone()));
    let RequestId::String(text) = one else {
        panic!("a text is expected");
    };
    assert_eq!(uuid::Uuid::parse_str(&text).unwrap().get_version_num(), 4);
    assert!(!RequestId::Integer(1).same(&id("1")));
}
