//! What holds of the models of a llama.cpp server, and of the answers of tools.
use vstd::prelude::*;

use crate::llamacpp;
use crate::llamacpp::{ErrorKind, ErrorModel, LlamaCppError, ModelsResponse};
use crate::text;
use crate::text::CharClass;
use crate::text_laws;
use crate::tools;
use crate::tools::{CallErrorModel, CallOutcome, FunctionCallError, FunctionToolOutput, ToolPayload};

verus! {

/// A server lists its models under its address, whatever slashes the address ends
/// with, and with one slash between.
pub proof fn models_are_listed_under_the_address(base: Seq<char>, slashes: Seq<char>)
    requires
        base.len() > 0 ==> base.last() != '/',
        forall|i: int| 0 <= i < slashes.len() ==> #[trigger] slashes[i] == '/',
    ensures
        llamacpp::models_address(base + slashes) == base + seq![
            '/',
            'm',
            'o',
            'd',
            'e',
            'l',
            's',
        ],
{
    reveal_strlit("/models");
    assert("/models"@ =~= seq!['/', 'm', 'o', 'd', 'e', 'l', 's']);
    let url = base + slashes;
    let n = text_laws::trimmed_end_is_a_head(url, CharClass::Slash);
    if n > base.len() {
        assert(url[n - 1] == slashes[n - 1 - base.len()]);
    }
    if n < base.len() {
        assert(url[base.len() - 1] == base.last());
        assert(text::class_has(CharClass::Slash, url[base.len() - 1]));
    }
    assert(n == base.len());
    assert(url.take(n) =~= base);
}

/// A request succeeded where the status is one of the two hundreds.
pub proof fn two_hundreds_are_success(status: u16)
    ensures
        llamacpp::is_success(status) <==> status / 100 == 2,
{
}

/// The models in a list are the strings in it, in order: an item without one leaves no
/// gap.
pub proof fn models_are_read_one_by_one(
    a: Seq<Option<Seq<char>>>,
    b: Seq<Option<Seq<char>>>,
    model: Seq<char>,
)
    ensures
        llamacpp::present(a + b) == llamacpp::present(a) + llamacpp::present(b),
        llamacpp::present(seq![Some(model)]) == seq![model],
        llamacpp::present(seq![None::<Seq<char>>]) == Seq::<Seq<char>>::empty(),
    decreases b.len(),
{
    let one = seq![Some(model)];
    assert(one.drop_last() =~= Seq::<Option<Seq<char>>>::empty());
    assert(one.last() == Some(model));
    assert(llamacpp::present(one.drop_last()) =~= Seq::<Seq<char>>::empty());
    assert(llamacpp::present(one) =~= seq![model]);
    let none = seq![None::<Seq<char>>];
    assert(none.drop_last() =~= Seq::<Option<Seq<char>>>::empty());
    assert(none.last() is None);
    if b.len() > 0 {
        models_are_read_one_by_one(a, b.drop_last(), model);
        assert((a + b).drop_last() =~= a + b.drop_last());
        assert((a + b).last() == b.last());
        assert(llamacpp::present(a + b) =~= llamacpp::present(a) + llamacpp::present(b));
    } else {
        assert(a + b =~= a);
        assert(llamacpp::present(a) + llamacpp::present(b) =~= llamacpp::present(a));
    }
}

/// A reply that is a success gives the strings under `id` in the list under `data`. It
/// is an error where it is no JSON, and invalid data where it has no such list.
pub proof fn models_are_the_ids_in_the_data(
    code: u16,
    text: String,
    body: Vec<u8>,
    items: Seq<Option<Seq<char>>>,
)
    requires
        code / 100 == 2,
    ensures
        ({
            let read = llamacpp::json_strings(body@, "data"@, "id"@);
            let models = llamacpp::fetched_models(
                ModelsResponse::Reply { code, text, body: Ok(body) },
            );
            &&& read is None ==> models == Err::<Seq<Seq<char>>, ErrorModel>(
                ErrorModel { kind: ErrorKind::Other, message: "error decoding response body"@ },
            )
            &&& read == Some(None::<Seq<Option<Seq<char>>>>) ==> models == Err::<
                Seq<Seq<char>>,
                ErrorModel,
            >(
                ErrorModel {
                    kind: ErrorKind::InvalidData,
                    message: "No 'data' array in response"@,
                },
            )
            &&& read == Some(Some(items)) ==> models == Ok::<Seq<Seq<char>>, ErrorModel>(
                llamacpp::present(items),
            )
        }),
{
}

/// A request that could not be sent, or whose reply could not be read, gives its
/// reason, and a reply that is no success its status.
pub proof fn requests_that_fail_give_their_reason(
    code: u16,
    text: String,
    body: Result<Vec<u8>, String>,
    reason: String,
)
    ensures
        llamacpp::fetched_models(ModelsResponse::Failed(reason)) == Err::<
            Seq<Seq<char>>,
            ErrorModel,
        >(ErrorModel { kind: ErrorKind::Other, message: reason@ }),
        code / 100 != 2 ==> llamacpp::fetched_models(ModelsResponse::Reply { code, text, body })
            == Err::<Seq<Seq<char>>, ErrorModel>(
            ErrorModel { kind: ErrorKind::Other, message: "Failed to fetch models: "@ + text@ },
        ),
        code / 100 == 2 && body is Err ==> llamacpp::fetched_models(
            ModelsResponse::Reply { code, text, body },
        ) == Err::<Seq<Seq<char>>, ErrorModel>(
            ErrorModel { kind: ErrorKind::Other, message: body->Err_0@ },
        ),
{
}

/// A model that a server lacks is named in the error, which is that something was not
/// found.
pub proof fn missing_models_are_named(model: Seq<char>)
    ensures
        llamacpp::missing_model(model).kind == ErrorKind::NotFound,
        llamacpp::missing_model(model).message == "Model '"@ + model
            + "' is not available from llama.cpp. Check `/v1/models` and ensure your `llama-server` uses the expected `--alias`."@,
{
}

/// The views of errors, of lists of models and of JSON strings hold all of their parts.
pub proof fn views_of_models_hold_all_parts(
    e: LlamaCppError,
    done: Result<(), LlamaCppError>,
    models: Result<Vec<String>, LlamaCppError>,
    items: Vec<Option<String>>,
    i: int,
)
    requires
        0 <= i < items@.len(),
    ensures
        e@.kind == e.kind && e@.message == e.message@,
        done is Ok ==> llamacpp::outcome_view(done) is Ok,
        done matches Err(error) ==> llamacpp::outcome_view(done) == Err::<(), ErrorModel>(error@),
        models matches Err(error) ==> llamacpp::models_view(models) == Err::<
            Seq<Seq<char>>,
            ErrorModel,
        >(error@),
        models matches Ok(list) ==> (llamacpp::models_view(models) matches Ok(views) && views.len()
            == list@.len() && forall|k: int|
            0 <= k < list@.len() ==> #[trigger] views[k] == list@[k]@),
        llamacpp::json_view(None) is None,
        llamacpp::json_view(Some(None)) == Some(None::<Seq<Option<Seq<char>>>>),
        llamacpp::json_view(Some(Some(items))) matches Some(Some(views)) && {
            &&& views.len() == items@.len()
            &&& items@[i] is None ==> views[i] is None
            &&& items@[i] matches Some(s) ==> views[i] == Some(s@)
        },
{
}

/// A call of a tool has to be a call of a function: its arguments are then those that
/// were given, and any other payload is refused under the name of the tool.
pub proof fn calls_have_the_arguments_given(arguments: String, tool: Seq<char>)
    ensures
        tools::arguments_of(ToolPayload::Function { arguments }, tool) == Ok::<
            Seq<char>,
            CallErrorModel,
        >(arguments@),
        tools::arguments_of(ToolPayload::Other, tool) == Err::<Seq<char>, CallErrorModel>(
            CallErrorModel::RespondToModel(tool + " received unsupported payload"@),
        ),
{
}

/// A call is answered with what was written, as a success. The model is told why a
/// call was refused; a turn ends where a result could not be written.
pub proof fn calls_are_answered_with_what_was_written(said: String, tool: Seq<char>)
    ensures
        tools::answer(CallOutcome::Written(said), tool) == Ok::<
            (Seq<char>, Option<bool>),
            CallErrorModel,
        >((said@, Some(true))),
        tools::answer(CallOutcome::Refused(said), tool) == Err::<
            (Seq<char>, Option<bool>),
            CallErrorModel,
        >(CallErrorModel::RespondToModel(said@)),
        tools::answer(CallOutcome::Unwritten(said), tool) == Err::<
            (Seq<char>, Option<bool>),
            CallErrorModel,
        >(CallErrorModel::Fatal("failed to serialize "@ + tool + " response: "@ + said@)),
        tools::deleted_text(true) == "{\"deleted\":true}"@,
        tools::deleted_text(false) == "{\"deleted\":false}"@,
{
}

/// The views of what calls give hold all of their parts.
pub proof fn views_of_calls_hold_all_parts(
    e: FunctionCallError,
    output: Result<FunctionToolOutput, FunctionCallError>,
    arguments: Result<String, FunctionCallError>,
)
    ensures
        e matches FunctionCallError::RespondToModel(s) ==> e@ == CallErrorModel::RespondToModel(s@),
        e matches FunctionCallError::Fatal(s) ==> e@ == CallErrorModel::Fatal(s@),
        output matches Ok(o) ==> tools::output_view(output) == Ok::<
            (Seq<char>, Option<bool>),
            CallErrorModel,
        >((o.text@, o.success)),
        output matches Err(error) ==> tools::output_view(output) == Err::<
            (Seq<char>, Option<bool>),
            CallErrorModel,
        >(error@),
        arguments matches Ok(s) ==> tools::arguments_view(arguments) == Ok::<
            Seq<char>,
            CallErrorModel,
        >(s@),
        arguments matches Err(error) ==> tools::arguments_view(arguments) == Err::<
            Seq<char>,
            CallErrorModel,
        >(error@),
{
}

} // verus!
