//! Requests to providers and their replies.

use chat_cli::chat::{ChatMessage, ChatRequest};
use chat_cli::config::{ModelConfig, ModelPatchConfig, ProviderConfig};
use chat_cli::json::{array, object1, object2, text_in, Json};
use chat_cli::media::MessageImage;
use chat_cli::provider::{build_openai_body, effective_request_timeout_secs, request_timeout};
use chat_cli::reply::{
    combine_reasoning_and_content, decorate_openai_stream_delta, extract_openai_content,
    extract_openai_reasoning_content, parse_anthropic_stream_payload, parse_ollama_stream_payload,
    parse_openai_stream_payload,
};
use chat_cli::sse::{JsonLineParser, SseParser};

fn first_message(body: &Json) -> Option<&Json> {
    body.get("messages").and_then(|m| m.index(0))
}

#[test]
fn sse_parser_handles_chunk_boundaries() {
    let mut parser = SseParser::default();
    let first = parser
        .push_bytes(b"data: {\"choices\":[{\"delta\":{\"content\":\"hel")
        .unwrap();
    assert!(first.is_empty());
    let second = parser
        .push_bytes(b"lo\"},\"finish_reason\":null}]}\n\n")
        .unwrap();
    assert_eq!(second.len(), 1);
    let event = parse_openai_stream_payload(&second[0]).unwrap().unwrap();
    assert_eq!(event.delta, "hello");
    assert!(event.finish_reason.is_none());
}

#[test]
fn parse_openai_stream_usage_event() {
    let event = parse_openai_stream_payload(
        "{\"choices\":[],\"usage\":{\"prompt_tokens\":1,\"completion_tokens\":2,\"total_tokens\":3}}",
    )
    .unwrap()
    .unwrap();
    assert_eq!(event.usage.unwrap().total_tokens, Some(3));
}

#[test]
fn parse_openai_stream_ignores_empty_payload() {
    assert!(parse_openai_stream_payload("").unwrap().is_none());
    assert!(parse_openai_stream_payload("   ").unwrap().is_none());
}

#[test]
fn extract_openai_reasoning_content_from_message() {
    let raw = object1(
        "choices",
        array(vec![object1(
            "message",
            object2(
                "content",
                Json::Str("2".to_string()),
                "reasoning_content",
                Json::Str("先做加法。".to_string()),
            ),
        )]),
    );
    let combined = combine_reasoning_and_content(
        extract_openai_reasoning_content(&raw),
        extract_openai_content(&raw),
    )
    .unwrap();
    assert!(combined.contains("<think>"));
    assert!(combined.contains("先做加法。"));
    assert!(combined.ends_with("2"));
}

#[test]
fn decorate_openai_stream_delta_wraps_reasoning_before_answer() {
    let mut in_reasoning = false;
    let first = decorate_openai_stream_delta(&mut in_reasoning, "先分析", "", None);
    assert_eq!(first, "<think>\n先分析");
    assert!(in_reasoning);

    let second = decorate_openai_stream_delta(&mut in_reasoning, "", "结论", None);
    assert_eq!(second, "</think>\n\n结论");
    assert!(!in_reasoning);
}

#[test]
fn decorate_openai_stream_delta_ignores_finished_control_tokens() {
    let mut in_reasoning = false;
    let first = decorate_openai_stream_delta(&mut in_reasoning, "先搜索", "", None);
    assert_eq!(first, "<think>\n先搜索");
    assert!(in_reasoning);

    let middle = decorate_openai_stream_delta(&mut in_reasoning, "", "FINISHED", None);
    assert!(middle.is_empty());
    assert!(in_reasoning);

    let more_reasoning = decorate_openai_stream_delta(&mut in_reasoning, "继续搜索", "", None);
    assert_eq!(more_reasoning, "继续搜索");
    assert!(in_reasoning);

    let answer = decorate_openai_stream_delta(&mut in_reasoning, "", "最终答案", None);
    assert_eq!(answer, "</think>\n\n最终答案");
    assert!(!in_reasoning);
}

#[test]
fn build_openai_body_does_not_infer_reasoning_effort_without_config() {
    let request = ChatRequest {
        provider_id: "openclawbs".to_string(),
        provider: ProviderConfig {
            kind: "openai_compatible".to_string(),
            ..ProviderConfig::default()
        },
        model_id: "sonnet-4-6".to_string(),
        model: ModelConfig {
            provider: "openclawbs".to_string(),
            remote_name: "sonnet-4-6".to_string(),
            display_name: None,
            context_window: None,
            max_output_tokens: None,
            capabilities: vec!["chat".to_string(), "reasoning".to_string()],
            temperature: None,
            reasoning_effort: None,
            patches: ModelPatchConfig::default(),
        },
        api_key: String::new(),
        messages: vec![ChatMessage {
            role: "user".to_string(),
            content: "hi".to_string(),
            images: Vec::new(),
            tool_calls: None,
            tool_call_id: None,
            name: None,
        }],
        temperature: None,
        max_output_tokens: None,
        params: Vec::new(),
        timeout_secs: None,
        tools: Vec::new(),
    };
    let body = build_openai_body(&request, false);
    assert!(body.get("reasoning_effort").is_none());
}

#[test]
fn build_openai_body_respects_explicit_reasoning_effort_param() {
    let params = vec![("reasoning_effort".to_string(), Json::Str("high".to_string()))];
    let request = ChatRequest {
        provider_id: "openclawbs".to_string(),
        provider: ProviderConfig {
            kind: "openai_compatible".to_string(),
            ..ProviderConfig::default()
        },
        model_id: "sonnet-4-6".to_string(),
        model: ModelConfig {
            provider: "openclawbs".to_string(),
            remote_name: "sonnet-4-6".to_string(),
            display_name: None,
            context_window: None,
            max_output_tokens: None,
            capabilities: vec!["reasoning".to_string()],
            temperature: None,
            reasoning_effort: None,
            patches: ModelPatchConfig::default(),
        },
        api_key: String::new(),
        messages: vec![ChatMessage {
            role: "user".to_string(),
            content: "hi".to_string(),
            images: Vec::new(),
            tool_calls: None,
            tool_call_id: None,
            name: None,
        }],
        temperature: None,
        max_output_tokens: None,
        params,
        timeout_secs: None,
        tools: Vec::new(),
    };
    let body = build_openai_body(&request, false);
    assert_eq!(text_in(body.get("reasoning_effort")).as_deref(), Some("high"));
}

#[test]
fn build_openai_body_uses_model_reasoning_effort_from_config() {
    let request = ChatRequest {
        provider_id: "openclawbs".to_string(),
        provider: ProviderConfig {
            kind: "openai_compatible".to_string(),
            ..ProviderConfig::default()
        },
        model_id: "sonnet-4-6".to_string(),
        model: ModelConfig {
            provider: "openclawbs".to_string(),
            remote_name: "sonnet-4-6".to_string(),
            display_name: None,
            context_window: None,
            max_output_tokens: None,
            capabilities: vec!["reasoning".to_string()],
            temperature: None,
            reasoning_effort: Some("high".to_string()),
            patches: ModelPatchConfig::default(),
        },
        api_key: String::new(),
        messages: vec![ChatMessage {
            role: "user".to_string(),
            content: "hi".to_string(),
            images: Vec::new(),
            tool_calls: None,
            tool_call_id: None,
            name: None,
        }],
        temperature: None,
        max_output_tokens: None,
        params: Vec::new(),
        timeout_secs: None,
        tools: Vec::new(),
    };
    let body = build_openai_body(&request, false);
    assert_eq!(text_in(body.get("reasoning_effort")).as_deref(), Some("high"));
}

#[test]
fn build_openai_body_serializes_image_parts_for_user_messages() {
    let request = ChatRequest {
        provider_id: "cpap".to_string(),
        provider: ProviderConfig {
            kind: "openai_compatible".to_string(),
            ..ProviderConfig::default()
        },
        model_id: "qw-coder-model".to_string(),
        model: ModelConfig {
            provider: "cpap".to_string(),
            remote_name: "qw/coder-model".to_string(),
            display_name: None,
            context_window: None,
            max_output_tokens: None,
            capabilities: vec!["chat".to_string(), "vision".to_string()],
            temperature: None,
            reasoning_effort: None,
            patches: ModelPatchConfig::default(),
        },
        api_key: String::new(),
        messages: vec![ChatMessage {
            role: "user".to_string(),
            content: "describe".to_string(),
            images: vec![MessageImage {
                media_type: "image/png".to_string(),
                data: "YWJj".to_string(),
            }],
            tool_calls: None,
            tool_call_id: None,
            name: None,
        }],
        temperature: None,
        max_output_tokens: None,
        params: Vec::new(),
        timeout_secs: None,
        tools: Vec::new(),
    };
    let body = build_openai_body(&request, false);
    let content = first_message(&body).unwrap().get("content").unwrap().as_array().unwrap();
    assert_eq!(content[0].get("type").and_then(|j| j.as_str()), Some("text"));
    assert_eq!(content[0].get("text").and_then(|j| j.as_str()), Some("describe"));
    assert_eq!(content[1].get("type").and_then(|j| j.as_str()), Some("image_url"));
    assert_eq!(
        content[1].get("image_url").and_then(|j| j.get("url")).and_then(|j| j.as_str()),
        Some("data:image/png;base64,YWJj")
    );
}

#[test]
fn build_openai_body_applies_system_to_user_patch() {
    let request = ChatRequest {
        provider_id: "cpap".to_string(),
        provider: ProviderConfig {
            kind: "openai_compatible".to_string(),
            ..ProviderConfig::default()
        },
        model_id: "team-gpt-5-4".to_string(),
        model: ModelConfig {
            provider: "cpap".to_string(),
            remote_name: "team/gpt-5.4".to_string(),
            display_name: None,
            context_window: None,
            max_output_tokens: None,
            capabilities: vec!["chat".to_string()],
            temperature: None,
            reasoning_effort: None,
            patches: ModelPatchConfig {
                system_to_user: Some(true),
            },
        },
        api_key: String::new(),
        messages: vec![
            ChatMessage {
                role: "system".to_string(),
                content: "follow the rules".to_string(),
                images: Vec::new(),
                tool_calls: None,
                tool_call_id: None,
                name: None,
            },
            ChatMessage {
                role: "user".to_string(),
                content: "hello".to_string(),
                images: Vec::new(),
                tool_calls: None,
                tool_call_id: None,
                name: None,
            },
        ],
        temperature: None,
        max_output_tokens: None,
        params: Vec::new(),
        timeout_secs: None,
        tools: Vec::new(),
    };
    let body = build_openai_body(&request, false);
    assert_eq!(first_message(&body).and_then(|m| m.get("role")).and_then(|j| j.as_str()), Some("user"));
    assert_eq!(
        first_message(&body).and_then(|m| m.get("content")).and_then(|j| j.as_str()),
        Some("follow the rules")
    );
}

#[test]
fn parse_anthropic_stream_delta() {
    let event = parse_anthropic_stream_payload(
        "{\"type\":\"content_block_delta\",\"delta\":{\"type\":\"text_delta\",\"text\":\"hello\"}}",
    )
    .unwrap()
    .unwrap();
    assert_eq!(event.delta, "hello");
}

#[test]
fn json_line_parser_handles_chunk_boundaries() {
    let mut parser = JsonLineParser::default();
    let first = parser
        .push_bytes(b"{\"message\":{\"content\":\"he\"}")
        .unwrap();
    assert!(first.is_empty());
    let second = parser.push_bytes(b",\"done\":false}\n").unwrap();
    assert_eq!(second.len(), 1);
    let event = parse_ollama_stream_payload(&second[0]).unwrap().unwrap();
    assert_eq!(event.delta, "he");
}

#[test]
fn sse_parser_ignores_event_without_data_lines() {
    let mut parser = SseParser::default();
    let events = parser.push_bytes(b"event: ping\n\n").unwrap();
    assert!(events.is_empty());

    let events = parser.push_bytes(b": keep-alive\n\n").unwrap();
    assert!(events.is_empty());
}

#[test]
fn request_timeout_is_disabled_by_default() {
    assert_eq!(effective_request_timeout_secs(None), 0);
    assert_eq!(effective_request_timeout_secs(Some(0)), 0);
    assert_eq!(effective_request_timeout_secs(Some(600)), 600);
    assert_eq!(request_timeout(0), None);
    assert_eq!(request_timeout(600), Some(600));
}
