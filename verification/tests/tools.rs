use harness::tools::{
    AlarmCreateHandler, AlarmDeleteHandler, AlarmListHandler, CallOutcome, FunctionCallError,
    FunctionToolOutput, ToolKind, ToolPayload,
};

fn function(arguments: &str) -> ToolPayload {
    ToolPayload::Function {
        arguments: arguments.to_string(),
    }
}

fn respond(text: &str) -> FunctionCallError {
    FunctionCallError::RespondToModel(text.to_string())
}

#[test]
fn tools_are_functions() {
    assert_eq!(AlarmCreateHandler.kind(), ToolKind::Function);
    assert_eq!(AlarmDeleteHandler.kind(), ToolKind::Function);
    assert_eq!(AlarmListHandler.kind(), ToolKind::Function);
}

#[test]
fn other_payloads_are_refused() {
    assert_eq!(AlarmCreateHandler.arguments(function("{}")), Ok("{}".to_string()));
    assert_eq!(
        AlarmCreateHandler.arguments(ToolPayload::Other),
        Err(respond("AlarmCreate received unsupported payload"))
    );
    assert_eq!(
        AlarmDeleteHandler.arguments(ToolPayload::Other),
        Err(respond("AlarmDelete received unsupported payload"))
    );
    assert_eq!(
        AlarmListHandler.arguments(ToolPayload::Other),
        Err(respond("AlarmList received unsupported payload"))
    );
}

#[test]
fn calls_are_answered() {
    assert_eq!(
        AlarmCreateHandler.handle(CallOutcome::Written("{}".to_string())),
        Ok(FunctionToolOutput {
            text: "{}".to_string(),
            success: Some(true),
        })
    );
    assert_eq!(
        AlarmCreateHandler.handle(CallOutcome::Refused("no".to_string())),
        Err(respond("no"))
    );
    assert_eq!(
        AlarmListHandler.handle(CallOutcome::Unwritten("x".to_string())),
        Err(FunctionCallError::Fatal(
            "failed to serialize AlarmList response: x".to_string()
        ))
    );
    assert_eq!(
        AlarmDeleteHandler.handle(Ok(false)),
        Ok(FunctionToolOutput {
            text: "{\"deleted\":false}".to_string(),
            success: Some(false),
        })
    );
    assert_eq!(
        AlarmDeleteHandler.handle(Ok(true)),
        Ok(FunctionToolOutput {
            text: "{\"deleted\":true}".to_string(),
            success: Some(true),
        })
    );
    assert_eq!(AlarmDeleteHandler.handle(Err("e".to_string())), Err(respond("e")));
}
