use harness::llamacpp::{
    ensure_oss_ready, models_of_items, required_model, ErrorKind, LlamaCppClient, LlamaCppError,
    ModelsResponse, LLAMACPP_CONNECTION_ERROR,
};

fn client(base_url: &str) -> LlamaCppClient {
    LlamaCppClient::try_from_oss_provider(Some(Some(base_url.to_string())), "llamacpp").unwrap()
}

fn reply(body: &str) -> ModelsResponse {
    ModelsResponse::Reply {
        code: 200,
        text: "200 OK".to_string(),
        body: Ok(body.as_bytes().to_vec()),
    }
}

fn error(kind: ErrorKind, message: &str) -> LlamaCppError {
    LlamaCppError {
        kind,
        message: message.to_string(),
    }
}

#[test]
fn fetch_models_reads_model_ids() {
    let body = "{\"data\":[{\"id\":\"minimax-m2.7@q3_k_s\"},{\"id\":\"other-model\"}]}";
    assert_eq!(
        client("http://localhost/v1").fetch_models(reply(body)),
        Ok(vec!["minimax-m2.7@q3_k_s".to_string(), "other-model".to_string()])
    );
}

#[test]
fn items_without_ids_are_left_out() {
    let body = "{\"data\":[{\"id\":1},{\"id\":\"a\"},{},2,{\"id\":\"b\"}]}";
    assert_eq!(
        client("x").fetch_models(reply(body)),
        Ok(vec!["a".to_string(), "b".to_string()])
    );
    assert_eq!(
        models_of_items(Some(Some(vec![None, Some("a".to_string())]))),
        Ok(vec!["a".to_string()])
    );
}

#[test]
fn replies_without_models_are_errors() {
    let c = client("x");
    assert_eq!(
        c.fetch_models(reply("{\"data\":{}}")),
        Err(error(ErrorKind::InvalidData, "No 'data' array in response"))
    );
    assert_eq!(
        c.fetch_models(reply("{")),
        Err(error(ErrorKind::Other, "error decoding response body"))
    );
    assert_eq!(
        c.fetch_models(ModelsResponse::Reply {
            code: 404,
            text: "404 Not Found".to_string(),
            body: Ok(vec![]),
        }),
        Err(error(ErrorKind::Other, "Failed to fetch models: 404 Not Found"))
    );
    assert_eq!(
        c.fetch_models(ModelsResponse::Reply {
            code: 200,
            text: "200 OK".to_string(),
            body: Err("cut".to_string()),
        }),
        Err(error(ErrorKind::Other, "cut"))
    );
    assert_eq!(
        c.fetch_models(ModelsResponse::Failed("refused".to_string())),
        Err(error(ErrorKind::Other, "refused"))
    );
}

#[test]
fn slashes_at_the_end_of_an_address_do_not_matter() {
    assert_eq!(client("http://x/v1").models_url(), "http://x/v1/models");
    assert_eq!(client("http://x/v1//").models_url(), "http://x/v1/models");
}

#[test]
fn provider_has_to_be_there() {
    assert_eq!(
        LlamaCppClient::try_from_oss_provider(None, "llamacpp"),
        Err(error(ErrorKind::NotFound, "Built-in provider llamacpp not found"))
    );
}

#[test]
fn server_has_to_answer_with_success() {
    let c = client("x");
    assert_eq!(c.check_server(Some(200)), Ok(()));
    assert_eq!(c.check_server(Some(299)), Ok(()));
    for probe in [None, Some(199), Some(300), Some(500)] {
        assert_eq!(
            c.check_server(probe),
            Err(error(ErrorKind::Other, LLAMACPP_CONNECTION_ERROR))
        );
    }
}

#[test]
fn model_has_to_be_there() {
    assert_eq!(required_model(Some("m".to_string())), Ok("m".to_string()));
    assert_eq!(
        required_model(None),
        Err(error(
            ErrorKind::InvalidInput,
            "llama.cpp requires an explicit model. Pass `-m <model>` or set `model` in config.toml."
        ))
    );
    let models = vec!["a".to_string(), "b".to_string()];
    assert_eq!(ensure_oss_ready("b", &models), Ok(()));
    assert_eq!(
        ensure_oss_ready("c", &models),
        Err(error(
            ErrorKind::NotFound,
            "Model 'c' is not available from llama.cpp. Check `/v1/models` and ensure your `llama-server` uses the expected `--alias`."
        ))
    );
}
