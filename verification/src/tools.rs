//! The tools by which a model manages the alarms of its thread.
use vstd::prelude::*;
use vstd::string::StringExecFns;

use crate::text::copy_of;

verus! {

/// How a tool is called.
#[derive(Debug, Clone, Copy, PartialEq, Eq, Structural)]
pub enum ToolKind {
    Function,
}

/// What a tool is called with.
#[derive(Debug, PartialEq, Eq)]
pub enum ToolPayload {
    /// The arguments of a function.
    Function { arguments: String },
    /// Anything else.
    Other,
}

/// Why a call failed.
#[derive(Debug, PartialEq, Eq)]
pub enum FunctionCallError {
    /// The model is told.
    RespondToModel(String),
    /// The turn ends.
    Fatal(String),
}

/// What a call gives.
#[derive(Debug, PartialEq, Eq)]
pub struct FunctionToolOutput {
    pub text: String,
    pub success: Option<bool>,
}

/// The view of a [`FunctionCallError`].
pub enum CallErrorModel {
    RespondToModel(Seq<char>),
    Fatal(Seq<char>),
}

impl View for FunctionCallError {
    type V = CallErrorModel;

    open spec fn view(&self) -> CallErrorModel {
        match self {
            FunctionCallError::RespondToModel(e) => CallErrorModel::RespondToModel(e@),
            FunctionCallError::Fatal(e) => CallErrorModel::Fatal(e@),
        }
    }
}

/// The view of what a call gave: the text and whether it counts as a success.
pub open spec fn output_view(r: Result<FunctionToolOutput, FunctionCallError>) -> Result<
    (Seq<char>, Option<bool>),
    CallErrorModel,
> {
    match r {
        Ok(output) => Ok((output.text@, output.success)),
        Err(e) => Err(e@),
    }
}

/// The view of the arguments of a call, or of the reason why there are none.
pub open spec fn arguments_view(r: Result<String, FunctionCallError>) -> Result<
    Seq<char>,
    CallErrorModel,
> {
    match r {
        Ok(arguments) => Ok(arguments@),
        Err(e) => Err(e@),
    }
}

/// The arguments of a call of a tool, or the refusal of any other payload.
pub open spec fn arguments_of(payload: ToolPayload, tool: Seq<char>) -> Result<
    Seq<char>,
    CallErrorModel,
> {
    match payload {
        ToolPayload::Function { arguments } => Ok(arguments@),
        ToolPayload::Other => Err(
            CallErrorModel::RespondToModel(tool + " received unsupported payload"@),
        ),
    }
}

/// What became of a call before it is answered.
#[derive(Debug, PartialEq, Eq)]
pub enum CallOutcome {
    /// The thread refused it.
    Refused(String),
    /// Its result could not be written.
    Unwritten(String),
    /// Its result was written.
    Written(String),
}

/// The answer to a call of a tool.
pub open spec fn answer(outcome: CallOutcome, tool: Seq<char>) -> Result<
    (Seq<char>, Option<bool>),
    CallErrorModel,
> {
    match outcome {
        CallOutcome::Refused(e) => Err(CallErrorModel::RespondToModel(e@)),
        CallOutcome::Unwritten(e) => Err(
            CallErrorModel::Fatal("failed to serialize "@ + tool + " response: "@ + e@),
        ),
        CallOutcome::Written(content) => Ok((content@, Some(true))),
    }
}

fn take_arguments(payload: ToolPayload, tool: &str) -> (r: Result<String, FunctionCallError>)
    ensures
        arguments_view(r) == arguments_of(payload, tool@),
{
    match payload {
        ToolPayload::Function { arguments } => Ok(arguments),
        ToolPayload::Other => {
            let mut e = copy_of(tool);
            e.append(" received unsupported payload");
            Err(FunctionCallError::RespondToModel(e))
        },
    }
}

fn give_answer(outcome: CallOutcome, tool: &str) -> (r: Result<
    FunctionToolOutput,
    FunctionCallError,
>)
    ensures
        output_view(r) == answer(outcome, tool@),
{
    match outcome {
        CallOutcome::Refused(e) => Err(FunctionCallError::RespondToModel(e)),
        CallOutcome::Unwritten(cause) => {
            let mut e = copy_of("failed to serialize ");
            e.append(tool);
            e.append(" response: ");
            e.append(cause.as_str());
            Err(FunctionCallError::Fatal(e))
        },
        CallOutcome::Written(content) => Ok(
            FunctionToolOutput { text: content, success: Some(true) },
        ),
    }
}

/// The tool that makes an alarm.
pub struct AlarmCreateHandler;

impl AlarmCreateHandler {
    /// How the tool is called.
    pub fn kind(&self) -> (r: ToolKind)
        ensures
            r == ToolKind::Function,
    {
        ToolKind::Function
    }

    /// The arguments of a call.
    pub fn arguments(&self, payload: ToolPayload) -> (r: Result<String, FunctionCallError>)
        ensures
            arguments_view(r) == arguments_of(payload, "AlarmCreate"@),
    {
        take_arguments(payload, "AlarmCreate")
    }

    /// The answer to a call.
    pub fn handle(&self, outcome: CallOutcome) -> (r: Result<FunctionToolOutput, FunctionCallError>)
        ensures
            output_view(r) == answer(outcome, "AlarmCreate"@),
    {
        give_answer(outcome, "AlarmCreate")
    }
}

/// What a call that deletes an alarm says.
pub open spec fn deleted_text(deleted: bool) -> Seq<char> {
    if deleted {
        "{\"deleted\":true}"@
    } else {
        "{\"deleted\":false}"@
    }
}

/// The tool that deletes an alarm.
pub struct AlarmDeleteHandler;

impl AlarmDeleteHandler {
    /// How the tool is called.
    pub fn kind(&self) -> (r: ToolKind)
        ensures
            r == ToolKind::Function,
    {
        ToolKind::Function
    }

    /// The arguments of a call.
    pub fn arguments(&self, payload: ToolPayload) -> (r: Result<String, FunctionCallError>)
        ensures
            arguments_view(r) == arguments_of(payload, "AlarmDelete"@),
    {
        take_arguments(payload, "AlarmDelete")
    }

    /// The answer to a call, given whether there was such an alarm.
    pub fn handle(&self, deleted: Result<bool, String>) -> (r: Result<
        FunctionToolOutput,
        FunctionCallError,
    >)
        ensures
            output_view(r) == (match deleted {
                Ok(deleted) => Ok((deleted_text(deleted), Some(deleted))),
                Err(e) => Err(CallErrorModel::RespondToModel(e@)),
            }),
    {
        match deleted {
            Ok(deleted) => {
                let text = if deleted {
                    copy_of("{\"deleted\":true}")
                } else {
                    copy_of("{\"deleted\":false}")
                };
                Ok(FunctionToolOutput { text, success: Some(deleted) })
            },
            Err(e) => Err(FunctionCallError::RespondToModel(e)),
        }
    }
}

/// The tool that lists the alarms.
pub struct AlarmListHandler;

impl AlarmListHandler {
    /// How the tool is called.
    pub fn kind(&self) -> (r: ToolKind)
        ensures
            r == ToolKind::Function,
    {
        ToolKind::Function
    }

    /// The arguments of a call, which are not looked at.
    pub fn arguments(&self, payload: ToolPayload) -> (r: Result<String, FunctionCallError>)
        ensures
            arguments_view(r) == arguments_of(payload, "AlarmList"@),
    {
        take_arguments(payload, "AlarmList")
    }

    /// The answer to a call.
    pub fn handle(&self, outcome: CallOutcome) -> (r: Result<FunctionToolOutput, FunctionCallError>)
        ensures
            output_view(r) == answer(outcome, "AlarmList"@),
    {
        give_answer(outcome, "AlarmList")
    }
}

} // verus!
