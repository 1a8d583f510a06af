use screensage::api::{parse_chat_completion_body, parse_model_info_body, parse_models_body,
    require_nonempty_response, OllamaClient};
use screensage::errors::ClientError;
use screensage::models::{decode_chunk, decode_chat_response, decode_error_response,
    decode_model_info_response, decode_models_response, ChatCompletionChunk, ChatMessage,
    ChatMessageDelta, ChatCompletionRequest, GenerationParameters, chat_messages_of};
use screensage::conversation::{Message, MessageRole};

#[test]
fn api_test_client_initialization() {
    // Test with valid URL
    let client = OllamaClient::new("http://localhost:11434").unwrap();
    assert_eq!(client.api_url(), "http://localhost:11434");

    // Test with URL that has trailing slash
    let client = OllamaClient::new("http://localhost:11434/").unwrap();
    assert_eq!(client.api_url(), "http://localhost:11434");

    // Test with invalid URL
    let result = OllamaClient::new("localhost:11434");
    assert!(result.is_err());
}

#[test]
fn ollama_test_test_client_initialization() {
    let client = OllamaClient::new("http://localhost:11434").unwrap();
    assert_eq!(client.api_url(), "http://localhost:11434");

    let client = OllamaClient::new("http://localhost:11434/").unwrap();
    assert_eq!(client.api_url(), "http://localhost:11434");

    let result = OllamaClient::new("localhost:11434");
    assert!(result.is_err());
}

#[test]
fn client_rejects_url_without_scheme_prefix() {
    assert!(matches!(
        OllamaClient::new("localhost:11434"),
        Err(ClientError::InvalidConfiguration)
    ));
    assert!(matches!(
        OllamaClient::new("ftp://example.com"),
        Err(ClientError::InvalidConfiguration)
    ));
    assert!(OllamaClient::new("https://example.com").is_ok());
    let err = match OllamaClient::new("nope") {
        Err(e) => e,
        Ok(_) => panic!("expected an error"),
    };
    assert_eq!(err.message(), "API URL must start with http:// or https://");
}

#[test]
fn client_endpoint_urls() {
    let client = OllamaClient::new("http://localhost:11434///").unwrap();
    assert_eq!(client.api_url(), "http://localhost:11434");
    assert_eq!(client.tags_url(), "http://localhost:11434/api/tags");
    assert_eq!(client.show_url(), "http://localhost:11434/api/show");
    assert_eq!(client.chat_url(), "http://localhost:11434/api/chat");
}

#[test]
fn chunk_decoding_tolerates_order_whitespace_and_extras() {
    let c = decode_chunk(
        "{\"model\":\"llama2\",\"created_at\":\"2024-01-01T00:00:00Z\",\"message\":{\"role\":\"assistant\",\"content\":\"Hi\"},\"done\":false}",
    )
    .unwrap();
    assert_eq!(c.model, "llama2");
    assert_eq!(c.message.role.as_deref(), Some("assistant"));
    assert_eq!(c.message.content, "Hi");
    assert!(!c.done);

    // fields in another order, whitespace, unknown fields, no role
    let c = decode_chunk(
        " { \"done\" : true , \"total_duration\" : 123456789 , \"message\" : { \"content\" : \"\" } , \"created_at\" : \"x\" , \"model\" : \"m\" } ",
    )
    .unwrap();
    assert!(c.done);
    assert_eq!(c.message.role, None);
    assert_eq!(c.message.content, "");

    // escapes, including a \\u escape
    let c = decode_chunk(
        "{\"model\":\"m\",\"created_at\":\"x\",\"message\":{\"content\":\"a\\nb\\u0041\\\"q\\\"\"},\"done\":false}",
    )
    .unwrap();
    assert_eq!(c.message.content, "a\nbA\"q\"");

    assert!(matches!(decode_chunk("not json"), Err(ClientError::DecodeError)));
    assert!(matches!(
        decode_chunk("{\"model\":\"m\",\"created_at\":\"x\",\"done\":false}"),
        Err(ClientError::DecodeError)
    ));
}

#[test]
fn models_listing_decodes() {
    let r = decode_models_response(
        "{\"models\":[{\"name\":\"llama2\",\"size\":3791730298,\"modified_at\":\"2023-10-15T14:32:10Z\"}]}",
    )
    .unwrap();
    assert_eq!(r.models.len(), 1);
    assert_eq!(r.models[0].name, "llama2");
    assert_eq!(r.models[0].size, 3791730298);
    assert_eq!(r.models[0].modified_at, "2023-10-15T14:32:10Z");
    assert_eq!(r.models[0].digest, None);

    assert!(matches!(
        decode_models_response("{\"models\":[{\"name\":\"x\"}]}"),
        Err(ClientError::DecodeError)
    ));
}

#[test]
fn model_info_decodes() {
    let r = decode_model_info_response(
        "{\"name\":\"llama2\",\"details\":{\"format\":\"gguf\",\"family\":\"llama\",\"parameter_size\":\"7B\",\"quantization_level\":\"Q4_0\"}}",
    )
    .unwrap();
    assert_eq!(r.name, "llama2");
    assert_eq!(r.details.format, "gguf");
    assert_eq!(r.details.family, "llama");
    assert_eq!(r.details.parameter_size.as_deref(), Some("7B"));
    assert_eq!(r.details.quantization_level.as_deref(), Some("Q4_0"));
}

#[test]
fn chat_response_decodes() {
    let r = decode_chat_response(
        "{\"model\":\"m\",\"created_at\":\"t\",\"message\":{\"role\":\"assistant\",\"content\":\"Answer\"},\"done\":true}",
    )
    .unwrap();
    assert_eq!(r.message.role, "assistant");
    assert_eq!(r.message.content, "Answer");
    assert!(r.done);
}

#[test]
fn failure_bodies_become_server_errors() {
    let e = parse_models_body(500, "{\"error\":\"boom\"}").unwrap_err();
    assert!(matches!(e, ClientError::ServerError(500, ref m) if m == "boom"));

    let e = parse_model_info_body(404, "plain text").unwrap_err();
    assert!(matches!(e, ClientError::ServerError(404, ref m) if m == "plain text"));

    let e = parse_chat_completion_body(503, "{\"error\":\"overloaded\"}").unwrap_err();
    assert!(matches!(e, ClientError::ServerError(503, ref m) if m == "overloaded"));
    assert_eq!(e.message(), "server error (503): overloaded");

    let ok = parse_chat_completion_body(
        200,
        "{\"model\":\"m\",\"created_at\":\"t\",\"message\":{\"role\":\"assistant\",\"content\":\"y\"},\"done\":true}",
    );
    assert!(ok.is_ok());

    assert!(decode_error_response("{\"error\":\"e1\"}").is_some());
    assert!(decode_error_response("nope").is_none());
}

#[test]
fn connection_check_and_model_info_request() {
    let listing = decode_models_response("{\"models\":[]}");
    assert!(OllamaClient::check_connection(&listing));
    let failed: Result<screensage::models::ListModelsResponse, ClientError> =
        Err(ClientError::RequestFailed(String::from("refused")));
    assert!(!OllamaClient::check_connection(&failed));

    let request = screensage::models::ModelInfoRequest { name: String::from("llama3.2") };
    assert_eq!(request.to_body(), "{\"name\":\"llama3.2\"}");
}

#[test]
fn check_model_exists_maps_404_to_false() {
    let found = OllamaClient::check_model_exists(Err(ClientError::ServerError(
        404,
        String::from("model not found"),
    )));
    assert_eq!(found.unwrap(), false);

    let err = OllamaClient::check_model_exists(Err(ClientError::ServerError(
        500,
        String::from("broken"),
    )));
    assert!(matches!(err, Err(ClientError::ServerError(500, _))));

    let err = OllamaClient::check_model_exists(Err(ClientError::RequestFailed(String::from(
        "no route",
    ))));
    assert!(matches!(err, Err(ClientError::RequestFailed(_))));
}

fn fragment(content: &str, done: bool) -> ChatCompletionChunk {
    ChatCompletionChunk {
        model: String::from("m"),
        created_at: String::from("t"),
        message: ChatMessageDelta { role: None, content: String::from(content) },
        done,
    }
}

#[test]
fn stream_fragments_concatenate_until_done() {
    let chunks = vec![
        Ok(fragment("Hel", false)),
        Ok(fragment("lo", false)),
        Ok(fragment("", true)),
    ];
    let text = OllamaClient::process_stream_to_string(chunks).unwrap();
    assert_eq!(text, "Hello");
}

#[test]
fn stream_stops_at_first_done_and_surfaces_errors() {
    // fragments after the first done fragment are discarded
    let chunks = vec![
        Ok(fragment("a", false)),
        Ok(fragment("b", true)),
        Ok(fragment("ignored", false)),
    ];
    assert_eq!(OllamaClient::process_stream_to_string(chunks).unwrap(), "ab");

    // the first error is terminal
    let chunks = vec![
        Ok(fragment("a", false)),
        Err(ClientError::DecodeError),
        Ok(fragment("b", true)),
    ];
    assert!(matches!(
        OllamaClient::process_stream_to_string(chunks),
        Err(ClientError::DecodeError)
    ));

    // a stream that ends without done keeps what arrived
    let chunks = vec![Ok(fragment("partial", false))];
    assert_eq!(OllamaClient::process_stream_to_string(chunks).unwrap(), "partial");
}

#[test]
fn empty_completed_stream_is_an_error() {
    assert!(matches!(
        require_nonempty_response(String::new()),
        Err(ClientError::EmptyResponse)
    ));
    assert_eq!(require_nonempty_response(String::from("x")).unwrap(), "x");
    assert_eq!(
        ClientError::EmptyResponse.message(),
        "received empty response"
    );
}

#[test]
fn chat_request_body_has_exact_shape() {
    let request = ChatCompletionRequest {
        model: String::from("llama3.2"),
        messages: vec![
            ChatMessage { role: String::from("user"), content: String::from("hi \"there\"\n") },
            ChatMessage { role: String::from("assistant"), content: String::from("yo") },
        ],
        stream: Some(true),
        parameters: GenerationParameters {
            temperature: Some(700),
            top_p: Some(900),
            top_k: Some(40),
            max_tokens: Some(2048),
            presence_penalty: None,
            frequency_penalty: None,
            stop: None,
        },
    };
    assert_eq!(
        request.to_body(),
        "{\"model\":\"llama3.2\",\"messages\":[{\"role\":\"user\",\"content\":\"hi \\\"there\\\"\\n\"},{\"role\":\"assistant\",\"content\":\"yo\"}],\"stream\":true,\"temperature\":0.700,\"top_p\":0.900,\"top_k\":40,\"max_tokens\":2048}"
    );

    let bare = ChatCompletionRequest {
        model: String::from("m"),
        messages: vec![],
        stream: None,
        parameters: GenerationParameters::default(),
    };
    assert_eq!(bare.to_body(), "{\"model\":\"m\",\"messages\":[]}");

    let stopped = ChatCompletionRequest {
        model: String::from("m"),
        messages: vec![],
        stream: Some(false),
        parameters: GenerationParameters {
            stop: Some(vec![String::from("END"), String::from("STOP")]),
            ..GenerationParameters::default()
        },
    };
    assert_eq!(
        stopped.to_body(),
        "{\"model\":\"m\",\"messages\":[],\"stream\":false,\"stop\":[\"END\",\"STOP\"]}"
    );
}

#[test]
fn request_messages_strip_timestamps() {
    let history = vec![
        Message { role: MessageRole::User, content: String::from("q"), timestamp: 1 },
        Message { role: MessageRole::Assistant, content: String::from("a"), timestamp: 2 },
    ];
    let wire = chat_messages_of(&history);
    assert_eq!(wire.len(), 2);
    assert_eq!(wire[0].role, "user");
    assert_eq!(wire[0].content, "q");
    assert_eq!(wire[1].role, "assistant");
    assert_eq!(wire[1].content, "a");
}
