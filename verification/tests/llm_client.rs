use aivorelay::llm_client::{
    chat_completions_url, chat_messages, model_ids, model_list_failed_message, models_url, request_failed_message,
    next_completion_step, request_headers, should_retry_without_reasoning, start_completion, token_limits,
    CompletionAction, CompletionEvent, CompletionPhase, JsonValue, ReasoningConfig,
};

fn replied(status: u16, text: &str, body: &str) -> CompletionEvent {
    CompletionEvent::Replied { status, status_text: text.to_string(), body: body.to_string() }
}

fn s(x: &str) -> JsonValue {
    JsonValue::Str(x.to_string())
}

fn obj(fields: Vec<(&str, JsonValue)>) -> JsonValue {
    JsonValue::Object(fields.into_iter().map(|(k, v)| (k.to_string(), v)).collect())
}

#[test]
fn reasoning_budgets() {
    assert_eq!(ReasoningConfig::new(true, 100), ReasoningConfig { enabled: true, budget: 1024 });
    assert_eq!(ReasoningConfig::new(false, 100), ReasoningConfig { enabled: false, budget: 100 });
    assert_eq!(token_limits(ReasoningConfig { enabled: true, budget: 500 }), (Some(4000), Some(1024)));
    assert_eq!(token_limits(ReasoningConfig { enabled: true, budget: 8000 }), (Some(10000), Some(8000)));
    assert_eq!(token_limits(ReasoningConfig { enabled: false, budget: 8000 }), (None, None));
    assert!(should_retry_without_reasoning(400, true));
    assert!(!should_retry_without_reasoning(400, false));
    assert!(!should_retry_without_reasoning(500, true));
}

#[test]
fn messages_and_urls() {
    let m = chat_messages("  ".to_string(), "hi".to_string());
    assert_eq!(m.len(), 1);
    assert_eq!(m[0].role, "user");
    let m = chat_messages("sys".to_string(), "hi".to_string());
    assert_eq!((m[0].role.as_str(), m[0].content.as_str()), ("system", "sys"));
    assert_eq!((m[1].role.as_str(), m[1].content.as_str()), ("user", "hi"));
    assert_eq!(chat_completions_url("https://api.x/v1//"), "https://api.x/v1/chat/completions");
    assert_eq!(models_url("https://api.x/v1"), "https://api.x/v1/models");
}

#[test]
fn headers() {
    let h = request_headers("anthropic", "k");
    assert_eq!(h.len(), 6);
    assert_eq!(h[4], ("x-api-key".to_string(), "k".to_string()));
    assert_eq!(h[5], ("anthropic-version".to_string(), "2023-06-01".to_string()));
    let h = request_headers("openai", "k");
    assert_eq!(h[4], ("authorization".to_string(), "Bearer k".to_string()));
    assert_eq!(request_headers("openai", "").len(), 4);
}

#[test]
fn model_lists() {
    let openai = obj(vec![(
        "data",
        JsonValue::Array(vec![obj(vec![("id", s("a"))]), obj(vec![("name", s("b"))]), obj(vec![("x", s("c"))])]),
    )]);
    assert_eq!(model_ids(&openai), vec!["a".to_string(), "b".to_string()]);
    let plain = JsonValue::Array(vec![s("m1"), JsonValue::Null, s("m2")]);
    assert_eq!(model_ids(&plain), vec!["m1".to_string(), "m2".to_string()]);
    assert!(model_ids(&JsonValue::Bool(true)).is_empty());
    assert_eq!(request_failed_message("500", "oops"), "API request failed with status 500: oops");
    assert_eq!(model_list_failed_message("401", "no"), "Model list request failed (401): no");
}

#[test]
fn trailing_slash_makes_no_difference() {
    for base in ["https://api.x/v1", "http://localhost:11434/v1", ""] {
        let with_slash = format!("{}/", base);
        assert_eq!(chat_completions_url(&with_slash), chat_completions_url(base));
        assert_eq!(models_url(&with_slash), models_url(base));
    }
}

#[test]
fn completion_retries_once_without_reasoning() {
    let (phase, action) = start_completion(true);
    assert_eq!(phase, CompletionPhase::First);
    assert!(matches!(action, CompletionAction::Send { with_reasoning: true }));
    let (phase, action) = next_completion_step(phase, true, replied(400, "400 Bad Request", "no thinking"));
    assert_eq!(phase, CompletionPhase::Fallback);
    assert!(matches!(action, CompletionAction::Send { with_reasoning: false }));
    let (phase, action) = next_completion_step(phase, true, replied(400, "400 Bad Request", "still bad"));
    assert_eq!(phase, CompletionPhase::Fallback);
    match action {
        CompletionAction::Finish(Err(e)) => assert_eq!(e, "API request failed with status 400 Bad Request: still bad"),
        other => panic!("unexpected {:?}", other),
    }
}

#[test]
fn completion_success_and_failures() {
    let (_, action) = next_completion_step(CompletionPhase::First, false, replied(400, "400 Bad Request", "x"));
    assert!(matches!(action, CompletionAction::Finish(Err(ref e)) if e == "API request failed with status 400 Bad Request: x"));
    let (_, action) = next_completion_step(CompletionPhase::First, true, replied(200, "200 OK", "{}"));
    assert!(matches!(action, CompletionAction::ParseReply));
    let (_, action) = next_completion_step(
        CompletionPhase::First,
        true,
        CompletionEvent::Parsed(Ok(Some("hello".to_string()))),
    );
    assert!(matches!(action, CompletionAction::Finish(Ok(Some(ref c))) if c == "hello"));
    let (_, action) =
        next_completion_step(CompletionPhase::First, true, CompletionEvent::Parsed(Err("eof".to_string())));
    assert!(matches!(action, CompletionAction::Finish(Err(ref e)) if e == "Failed to parse API response: eof"));
    let (_, action) =
        next_completion_step(CompletionPhase::Fallback, true, CompletionEvent::SendFailed("timeout".to_string()));
    assert!(matches!(action, CompletionAction::Finish(Err(ref e)) if e == "HTTP request failed (fallback): timeout"));
    let (_, action) =
        next_completion_step(CompletionPhase::First, false, CompletionEvent::SendFailed("refused".to_string()));
    assert!(matches!(action, CompletionAction::Finish(Err(ref e)) if e == "HTTP request failed: refused"));
}
