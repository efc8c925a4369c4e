//! The models of a local llama.cpp server.
use serde_json::Value;
use vstd::prelude::*;
use vstd::string::StringExecFns;

use crate::text;
use crate::text::{copy_of, str_eq, str_trim_end_class, CharClass};

verus! {

/// What is said where no server answers.
pub const LLAMACPP_CONNECTION_ERROR: &'static str = "No running llama.cpp server detected. Start `llama-server` and expose an OpenAI-compatible `/v1` endpoint.";

/// What is said where no model is asked for.
pub const MODEL_REQUIRED_ERROR: &'static str = "llama.cpp requires an explicit model. Pass `-m <model>` or set `model` in config.toml.";

/// The kind of an error.
#[derive(Debug, Clone, Copy, PartialEq, Eq, Structural)]
pub enum ErrorKind {
    NotFound,
    InvalidData,
    InvalidInput,
    Other,
}

/// An error, with its kind.
#[derive(Debug, PartialEq, Eq)]
pub struct LlamaCppError {
    pub kind: ErrorKind,
    pub message: String,
}

/// The view of a [`LlamaCppError`].
pub struct ErrorModel {
    pub kind: ErrorKind,
    pub message: Seq<char>,
}

impl View for LlamaCppError {
    type V = ErrorModel;

    open spec fn view(&self) -> ErrorModel {
        ErrorModel { kind: self.kind, message: self.message@ }
    }
}

/// The view of a result of this module, without its value.
pub open spec fn outcome_view(r: Result<(), LlamaCppError>) -> Result<(), ErrorModel> {
    match r {
        Ok(()) => Ok(()),
        Err(e) => Err(e@),
    }
}

/// Where a server lists its models.
pub open spec fn models_address(base_url: Seq<char>) -> Seq<char> {
    text::trim_end_class(base_url, CharClass::Slash) + "/models"@
}

/// Whether a status of HTTP says that a request succeeded.
pub open spec fn is_success(status: u16) -> bool {
    200 <= status < 300
}

/// The strings that the items of a list in a JSON object hold under a key. The
/// outer option is empty where the text is no JSON, the next one where there is
/// no such list, and those in the list where an item has no such string.
pub uninterp spec fn json_strings(body: Seq<u8>, list: Seq<char>, key: Seq<char>) -> Option<
    Option<Seq<Option<Seq<char>>>>,
>;

/// The views of optional strings.
pub open spec fn opt_views(v: Seq<Option<String>>) -> Seq<Option<Seq<char>>> {
    v.map_values(|s: Option<String>| text::opt_view(s))
}

/// The view of what [`read_json_strings`] gives.
pub open spec fn json_view(r: Option<Option<Vec<Option<String>>>>) -> Option<
    Option<Seq<Option<Seq<char>>>>,
> {
    match r {
        Some(Some(items)) => Some(Some(opt_views(items@))),
        Some(None) => Some(None),
        None => None,
    }
}

/// Calls `serde_json::from_slice` for a `serde_json::Value`, and `Value::get`,
/// `Value::as_array` and `Value::as_str` on it: it reads JSON, and gives the
/// strings that the items of a list in it hold under a key.
#[verifier::external_body]
fn read_json_strings(body: &Vec<u8>, list: &str, key: &str) -> (r: Option<
    Option<Vec<Option<String>>>,
>)
    ensures
        json_view(r) == json_strings(body@, list@, key@),
{
    let value: Value = serde_json::from_slice(body).ok()?;
    let items = value.get(list).and_then(|items| items.as_array());
    let text_of = |item: &Value| item.get(key).and_then(|text| text.as_str()).map(String::from);
    Some(items.map(|items| items.iter().map(text_of).collect()))
}

/// The strings among some items, in order.
pub open spec fn present(items: Seq<Option<Seq<char>>>) -> Seq<Seq<char>>
    decreases items.len(),
{
    if items.len() == 0 {
        Seq::empty()
    } else {
        match items.last() {
            Some(s) => present(items.drop_last()).push(s),
            None => present(items.drop_last()),
        }
    }
}

/// The models in a list that a server gave, or what is wrong with it.
pub open spec fn listed_models(items: Option<Option<Seq<Option<Seq<char>>>>>) -> Result<
    Seq<Seq<char>>,
    ErrorModel,
> {
    match items {
        None => Err(
            ErrorModel { kind: ErrorKind::Other, message: "error decoding response body"@ },
        ),
        Some(None) => Err(
            ErrorModel { kind: ErrorKind::InvalidData, message: "No 'data' array in response"@ },
        ),
        Some(Some(items)) => Ok(present(items)),
    }
}

/// The view of a list of models, or of what is wrong.
pub open spec fn models_view(r: Result<Vec<String>, LlamaCppError>) -> Result<
    Seq<Seq<char>>,
    ErrorModel,
> {
    match r {
        Ok(models) => Ok(text::views(models@)),
        Err(e) => Err(e@),
    }
}

fn error(kind: ErrorKind, message: &str) -> (r: LlamaCppError)
    ensures
        r@ == (ErrorModel { kind, message: message@ }),
{
    LlamaCppError { kind, message: copy_of(message) }
}

/// The models in a list that a server gave.
pub fn models_of_items(items: Option<Option<Vec<Option<String>>>>) -> (r: Result<
    Vec<String>,
    LlamaCppError,
>)
    ensures
        models_view(r) == listed_models(json_view(items)),
{
    match items {
        None => Err(error(ErrorKind::Other, "error decoding response body")),
        Some(None) => Err(error(ErrorKind::InvalidData, "No 'data' array in response")),
        Some(Some(items)) => {
            let ghost all = opt_views(items@);
            let mut r: Vec<String> = Vec::new();
            let mut i: usize = 0;
            assert(text::views(r@) =~= Seq::<Seq<char>>::empty());
            while i < items.len()
                invariant
                    i <= items@.len(),
                    all == opt_views(items@),
                    text::views(r@) == present(all.take(i as int)),
                decreases items@.len() - i,
            {
                let ghost before = text::views(r@);
                assert(all.take(i + 1).drop_last() =~= all.take(i as int));
                assert(all.take(i + 1).last() == text::opt_view(items@[i as int]));
                if let Some(id) = &items[i] {
                    r.push(copy_of(id.as_str()));
                    assert(text::views(r@) =~= before.push(id@));
                }
                i = i + 1;
            }
            assert(all.take(i as int) =~= all);
            Ok(r)
        },
    }
}

/// What a request for the list of models gave.
#[derive(Debug, PartialEq, Eq)]
pub enum ModelsResponse {
    /// It could not be sent.
    Failed(String),
    /// A reply: its status, the status in words, and the body, where it could be
    /// read.
    Reply { code: u16, text: String, body: Result<Vec<u8>, String> },
}

/// The models that a request for the list gave, or what is wrong.
pub open spec fn fetched_models(response: ModelsResponse) -> Result<Seq<Seq<char>>, ErrorModel> {
    match response {
        ModelsResponse::Failed(e) => Err(ErrorModel { kind: ErrorKind::Other, message: e@ }),
        ModelsResponse::Reply { code, text, body } => if !is_success(code) {
            Err(refused_fetch(text@))
        } else {
            match body {
                Ok(body) => listed_models(json_strings(body@, "data"@, "id"@)),
                Err(e) => Err(ErrorModel { kind: ErrorKind::Other, message: e@ }),
            }
        },
    }
}

/// The error for a request for the list that was refused.
pub open spec fn refused_fetch(status: Seq<char>) -> ErrorModel {
    ErrorModel { kind: ErrorKind::Other, message: "Failed to fetch models: "@ + status }
}

/// A client of a server.
#[derive(Debug, PartialEq, Eq)]
pub struct LlamaCppClient {
    pub base_url: String,
}

impl LlamaCppClient {
    /// A client for the server of a provider: nothing where there is no such
    /// provider, and the address that the provider has.
    pub fn try_from_oss_provider(provider: Option<Option<String>>, provider_id: &str) -> (r: Result<
        LlamaCppClient,
        LlamaCppError,
    >)
        requires
            provider matches Some(base_url) ==> base_url is Some,
        ensures
            match provider {
                None => r matches Err(e) && e@ == (ErrorModel {
                    kind: ErrorKind::NotFound,
                    message: "Built-in provider "@ + provider_id@ + " not found"@,
                }),
                Some(base_url) => r matches Ok(client) && Some(client.base_url@) == text::opt_view(
                    base_url,
                ),
            },
    {
        match provider {
            Some(Some(base_url)) => Ok(LlamaCppClient { base_url }),
            _ => {
                let mut message = copy_of("Built-in provider ");
                message.append(provider_id);
                message.append(" not found");
                Err(LlamaCppError { kind: ErrorKind::NotFound, message })
            },
        }
    }

    /// Where the server lists its models.
    pub fn models_url(&self) -> (r: String)
        ensures
            r@ == models_address(self.base_url@),
    {
        let mut r = str_trim_end_class(self.base_url.as_str(), CharClass::Slash);
        r.append("/models");
        r
    }

    /// Whether the server is there, given the status of its reply to a probe,
    /// where there was a reply.
    pub fn check_server(&self, probe: Option<u16>) -> (r: Result<(), LlamaCppError>)
        ensures
            outcome_view(r) == (if probe matches Some(status) && is_success(status) {
                Ok(())
            } else {
                Err(ErrorModel { kind: ErrorKind::Other, message: LLAMACPP_CONNECTION_ERROR@ })
            }),
    {
        match probe {
            Some(status) => if 200 <= status && status < 300 {
                Ok(())
            } else {
                Err(error(ErrorKind::Other, LLAMACPP_CONNECTION_ERROR))
            },
            None => Err(error(ErrorKind::Other, LLAMACPP_CONNECTION_ERROR)),
        }
    }

    /// The models of the server, given its reply to a request for them.
    pub fn fetch_models(&self, response: ModelsResponse) -> (r: Result<Vec<String>, LlamaCppError>)
        ensures
            models_view(r) == fetched_models(response),
    {
        match response {
            ModelsResponse::Failed(message) => Err(
                LlamaCppError { kind: ErrorKind::Other, message },
            ),
            ModelsResponse::Reply { code, text, body } => if code < 200 || code >= 300 {
                Err(fetch_refused(text.as_str()))
            } else {
                match body {
                    Ok(body) => models_of_items(read_json_strings(&body, "data", "id")),
                    Err(message) => Err(LlamaCppError { kind: ErrorKind::Other, message }),
                }
            },
        }
    }
}

fn fetch_refused(status: &str) -> (r: LlamaCppError)
    ensures
        r@ == refused_fetch(status@),
{
    let mut message = copy_of("Failed to fetch models: ");
    message.append(status);
    LlamaCppError { kind: ErrorKind::Other, message }
}

/// The model that is asked for.
pub fn required_model(model: Option<String>) -> (r: Result<String, LlamaCppError>)
    ensures
        match model {
            Some(name) => r matches Ok(given) && given@ == name@,
            None => r matches Err(e) && e@ == (ErrorModel {
                kind: ErrorKind::InvalidInput,
                message: MODEL_REQUIRED_ERROR@,
            }),
        },
{
    match model {
        Some(name) => Ok(name),
        None => Err(error(ErrorKind::InvalidInput, MODEL_REQUIRED_ERROR)),
    }
}

/// What is said where a server lacks the model that is asked for.
pub open spec fn missing_model(model: Seq<char>) -> ErrorModel {
    ErrorModel {
        kind: ErrorKind::NotFound,
        message: "Model '"@ + model
            + "' is not available from llama.cpp. Check `/v1/models` and ensure your `llama-server` uses the expected `--alias`."@,
    }
}

/// Whether a server has the model that is asked for, given its models.
pub fn ensure_oss_ready(model: &str, models: &Vec<String>) -> (r: Result<(), LlamaCppError>)
    ensures
        outcome_view(r) == (if text::views(models@).contains(model@) {
            Ok(())
        } else {
            Err(missing_model(model@))
        }),
{
    let ghost all = text::views(models@);
    let mut i: usize = 0;
    while i < models.len()
        invariant
            i <= models@.len(),
            all == text::views(models@),
            forall|k: int| 0 <= k < i ==> (#[trigger] all[k]) != model@,
        decreases models@.len() - i,
    {
        if str_eq(models[i].as_str(), model) {
            assert(all[i as int] == model@);
            return Ok(());
        }
        assert(all[i as int] != model@);
        i = i + 1;
    }
    let mut message = copy_of("Model '");
    message.append(model);
    message.append(
        "' is not available from llama.cpp. Check `/v1/models` and ensure your `llama-server` uses the expected `--alias`.",
    );
    Err(LlamaCppError { kind: ErrorKind::NotFound, message })
}

/// Slashes at the end of an address do not matter.
pub proof fn trailing_slash_is_ignored(base_url: Seq<char>)
    ensures
        models_address(base_url.push('/')) == models_address(base_url),
{
    assert(base_url.push('/').drop_last() =~= base_url);
}

} // verus!
