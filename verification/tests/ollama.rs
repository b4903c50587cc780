use penfreely_bridge::ollama::{
    chat_body, chat_body_with, chat_url, chunk_text, events_from_chunk, models_from_tags,
    parse_chat_chunk, parse_tags, tags_url, ChatChunk, ChatMessageChunk, ChatSpec, OllamaError,
    OllamaEvent, OllamaModel, TagDetails, TagModel, TagsResponse,
};
use penfreely_bridge::reply::{open_reply, read_tags};
use penfreely_bridge::stream::{split_lines, BodyPart, ChatStream};
use serde_json::Value;

fn text(value: &Value) -> Option<String> {
    value.as_str().map(str::to_owned)
}

fn number(value: &Value) -> Option<u32> {
    value.as_u64().map(|number| number as u32)
}

fn decode_tags(body: &str) -> Result<TagsResponse, String> {
    let value: Value = serde_json::from_str(body).map_err(|error| error.to_string())?;
    let models = match value["models"].as_array() {
        Some(models) => models.clone(),
        None => Vec::new(),
    };
    Ok(TagsResponse {
        models: models
            .iter()
            .map(|model| TagModel {
                name: text(&model["name"]).unwrap(),
                details: model["details"].as_object().map(|details| TagDetails {
                    family: details.get("family").and_then(text),
                    parameter_size: details.get("parameter_size").and_then(text),
                }),
            })
            .collect(),
    })
}

fn decode_chunk(line: &str) -> Option<ChatChunk> {
    let value: Value = serde_json::from_str(line).ok()?;
    Some(ChatChunk {
        message: value["message"].as_object().map(|message| ChatMessageChunk {
            content: message.get("content").and_then(text).unwrap_or_default(),
        }),
        done: value["done"].as_bool().unwrap_or(false),
        prompt_eval_count: number(&value["prompt_eval_count"]),
        eval_count: number(&value["eval_count"]),
    })
}

#[test]
fn parse_tags_reads_names_and_details() {
    let body = r#"{"models":[
            {"name":"llama3.1:8b","details":{"family":"llama","parameter_size":"8B"}},
            {"name":"qwen3:14b"}
        ]}"#;

    let models = parse_tags(body, &decode_tags).unwrap();

    assert_eq!(models.len(), 2);
    assert_eq!(models[0].name, "llama3.1:8b");
    assert_eq!(models[0].family.as_deref(), Some("llama"));
    assert_eq!(models[0].parameter_size.as_deref(), Some("8B"));
    assert_eq!(models[1].name, "qwen3:14b");
    assert_eq!(models[1].family, None);
}

#[test]
fn parse_tags_handles_an_empty_list() {
    assert_eq!(
        parse_tags(r#"{"models":[]}"#, &decode_tags).unwrap(),
        Vec::new()
    );
    assert_eq!(parse_tags("{}", &decode_tags).unwrap(), Vec::new());
}

#[test]
fn parse_chat_chunk_extracts_tokens() {
    let events = parse_chat_chunk(
        r#"{"message":{"content":"Hello"},"done":false}"#,
        &decode_chunk,
    );
    assert_eq!(events, vec![OllamaEvent::Token("Hello".to_owned())]);
}

#[test]
fn parse_chat_chunk_extracts_usage_on_done() {
    let events = parse_chat_chunk(
        r#"{"message":{"content":""},"done":true,"prompt_eval_count":10,"eval_count":20}"#,
        &decode_chunk,
    );
    assert_eq!(
        events,
        vec![OllamaEvent::Usage {
            input_tokens: 10,
            output_tokens: 20
        }]
    );
}

#[test]
fn parse_chat_chunk_skips_blank_and_invalid_lines() {
    assert!(parse_chat_chunk("", &decode_chunk).is_empty());
    assert!(parse_chat_chunk("   ", &decode_chunk).is_empty());
    assert!(parse_chat_chunk("not json", &decode_chunk).is_empty());
}

#[test]
fn chat_body_includes_system_and_options() {
    let spec = ChatSpec {
        model: "llama3.1:8b".to_owned(),
        system: Some("be terse".to_owned()),
        messages: vec![("user".to_owned(), "hi".to_owned())],
        temperature: Some(0.5f32),
        max_tokens: Some(128),
    };

    let body = chat_body(&spec);

    assert_eq!(body["model"], "llama3.1:8b");
    assert_eq!(body["stream"], true);
    assert_eq!(body["messages"][0]["role"], "system");
    assert_eq!(body["messages"][1]["content"], "hi");
    assert_eq!(body["options"]["temperature"], 0.5);
    assert_eq!(body["options"]["num_predict"], 128);
}

#[test]
fn chat_body_omits_absent_options() {
    let spec = ChatSpec::<f32> {
        model: "m".to_owned(),
        system: None,
        messages: vec![],
        temperature: None,
        max_tokens: None,
    };

    let body = chat_body(&spec);

    assert_eq!(body["options"].as_object().unwrap().len(), 0);
    assert_eq!(body["messages"].as_array().unwrap().len(), 0);
}

#[test]
fn chat_body_has_exactly_its_members() {
    let spec = ChatSpec {
        model: "m".to_owned(),
        system: Some("s".to_owned()),
        messages: vec![
            ("user".to_owned(), "a".to_owned()),
            ("assistant".to_owned(), "b\n".to_owned()),
        ],
        temperature: Some(0.25f32),
        max_tokens: Some(u32::MAX),
    };
    let expected: Value = serde_json::from_str(
        r#"{"model":"m","stream":true,
            "messages":[{"role":"system","content":"s"},
                        {"role":"user","content":"a"},
                        {"role":"assistant","content":"b\n"}],
            "options":{"temperature":0.25,"num_predict":4294967295}}"#,
    )
    .unwrap();
    assert_eq!(chat_body(&spec), expected);
    assert_eq!(chat_body_with(&spec, Some(Value::from(0.25))), expected);
    assert_eq!(
        chat_body_with(&spec, None)["options"],
        serde_json::from_str::<Value>(r#"{"num_predict":4294967295}"#).unwrap()
    );
}

#[test]
fn a_temperature_that_is_not_finite_becomes_null() {
    let spec = ChatSpec {
        model: "m".to_owned(),
        system: None,
        messages: vec![],
        temperature: Some(f32::INFINITY),
        max_tokens: None,
    };
    assert_eq!(chat_body(&spec)["options"]["temperature"], Value::Null);
}

#[test]
fn a_tags_body_that_is_no_json_is_the_providers_error() {
    match parse_tags("nope", &decode_tags) {
        Err(OllamaError::Provider(message)) => {
            assert_eq!(message, decode_tags("nope").unwrap_err())
        }
        other => panic!("expected a provider error, got {:?}", other),
    }
}

#[test]
fn tags_without_details_have_no_family_or_size() {
    let models = models_from_tags(Ok(TagsResponse {
        models: vec![
            TagModel {
                name: "a".to_owned(),
                details: None,
            },
            TagModel {
                name: "b".to_owned(),
                details: Some(TagDetails {
                    family: None,
                    parameter_size: Some("7B".to_owned()),
                }),
            },
        ],
    }))
    .unwrap();
    assert_eq!(
        models,
        vec![
            OllamaModel {
                name: "a".to_owned(),
                family: None,
                parameter_size: None,
            },
            OllamaModel {
                name: "b".to_owned(),
                family: None,
                parameter_size: Some("7B".to_owned()),
            },
        ]
    );
}

#[test]
fn a_line_may_hold_a_token_and_the_usage() {
    let events = parse_chat_chunk(
        " {\"message\":{\"content\":\"x\"},\"done\":true,\"eval_count\":7}\r\n",
        &decode_chunk,
    );
    assert_eq!(
        events,
        vec![
            OllamaEvent::Token("x".to_owned()),
            OllamaEvent::Usage {
                input_tokens: 0,
                output_tokens: 7
            }
        ]
    );
    assert!(events_from_chunk(None).is_empty());
    assert!(events_from_chunk(Some(ChatChunk {
        message: None,
        done: false,
        prompt_eval_count: Some(1),
        eval_count: Some(2),
    }))
    .is_empty());
}

#[test]
fn lines_are_trimmed_of_every_white_space() {
    let white: String = (0u32..0x11_0000)
        .filter_map(char::from_u32)
        .filter(|c| {
            let code = *c as u32;
            (0x9..=0xd).contains(&code)
                || (0x2000..=0x200a).contains(&code)
                || [
                    0x20, 0x85, 0xa0, 0x1680, 0x2028, 0x2029, 0x202f, 0x205f, 0x3000,
                ]
                .contains(&code)
        })
        .collect();
    let listed = white.chars().count();
    let known = (0u32..0x11_0000)
        .filter_map(char::from_u32)
        .filter(|c| c.is_whitespace())
        .count();
    assert_eq!(listed, known);
    assert_eq!(chunk_text(&white), None);
    let padded = format!("{white}a b{white}");
    assert_eq!(chunk_text(&padded), Some("a b"));
}

#[test]
fn endpoints_follow_the_base_url() {
    assert_eq!(tags_url("http://h:1"), "http://h:1/api/tags");
    assert_eq!(chat_url("http://h:1"), "http://h:1/api/chat");
}

#[test]
fn ollama_errors_say_whose_they_are() {
    assert_eq!(
        OllamaError::Transport("down".to_owned()).message(),
        "ollama transport error: down"
    );
    assert_eq!(
        OllamaError::Provider("404 Not Found".to_owned()).message(),
        "ollama returned an error: 404 Not Found"
    );
}

#[test]
fn a_reply_is_read_on_success_alone() {
    for code in [200u16, 204, 299] {
        assert!(open_reply(Ok(code)).is_ok());
    }
    for (code, line) in [
        (199u16, "199 <unknown status code>"),
        (100, "100 Continue"),
        (300, "300 Multiple Choices"),
        (404, "404 Not Found"),
        (500, "500 Internal Server Error"),
        (999, "999 <unknown status code>"),
    ] {
        match open_reply(Ok(code)) {
            Err(OllamaError::Provider(text)) => assert_eq!(text, line),
            other => panic!("expected a provider error, got {:?}", other),
        }
    }
    match open_reply(Err("refused".to_owned())) {
        Err(OllamaError::Transport(text)) => assert_eq!(text, "refused"),
        other => panic!("expected a transport error, got {:?}", other),
    }
}

#[test]
fn a_tags_body_that_cannot_be_read_is_a_transport_error() {
    match read_tags(Err("reset".to_owned()), &decode_tags) {
        Err(OllamaError::Transport(text)) => assert_eq!(text, "reset"),
        other => panic!("expected a transport error, got {:?}", other),
    }
    let models = read_tags(Ok(r#"{"models":[{"name":"m"}]}"#.to_owned()), &decode_tags).unwrap();
    assert_eq!(models[0].name, "m");
}

/// The texts of the items, tokens as they are and errors in words.
fn words(items: Vec<Result<OllamaEvent, OllamaError>>) -> Vec<String> {
    items
        .into_iter()
        .map(|item| match item {
            Ok(OllamaEvent::Token(token)) => token,
            Ok(OllamaEvent::Usage {
                input_tokens,
                output_tokens,
            }) => format!("{input_tokens}/{output_tokens}"),
            Err(error) => error.message(),
        })
        .collect()
}

const REPLY: &str = "{\"message\":{\"content\":\"Gr\u{fc}\"}}\n\n{\"message\":{\"content\":\"\u{df}e\"}}\nnoise\n{\"done\":true,\"prompt_eval_count\":3,\"eval_count\":2}";

/// The words of a reply that arrives in these chunks and then ends.
fn stream_words(chunks: &[&[u8]]) -> Vec<String> {
    let mut stream = ChatStream::new();
    let mut all = Vec::new();
    for chunk in chunks {
        all.extend(words(stream.step(BodyPart::Chunk(chunk.to_vec()), &decode_chunk)));
    }
    all.extend(words(stream.step(BodyPart::Ended, &decode_chunk)));
    all
}

#[test]
fn chunking_makes_no_difference_to_the_events() {
    let expected = vec!["Gr\u{fc}", "\u{df}e", "3/2"];
    let bytes = REPLY.as_bytes();
    assert_eq!(stream_words(&[bytes]), expected);
    for first in 0..=bytes.len() {
        assert_eq!(stream_words(&[&bytes[..first], &bytes[first..]]), expected);
        for second in first..=bytes.len() {
            assert_eq!(
                stream_words(&[&bytes[..first], &bytes[first..second], &bytes[second..]]),
                expected
            );
        }
    }
    let single: Vec<&[u8]> = bytes.chunks(1).collect();
    assert_eq!(stream_words(&single), expected);
}

#[test]
fn a_character_that_a_chunk_splits_is_kept() {
    let mut stream = ChatStream::new();
    let first = b"{\"message\":{\"content\":\"\xC3".to_vec();
    assert!(stream.step(BodyPart::Chunk(first), &decode_chunk).is_empty());
    let second = b"\xA9\"}}\n".to_vec();
    assert_eq!(
        words(stream.step(BodyPart::Chunk(second), &decode_chunk)),
        vec!["\u{e9}"]
    );
    assert!(stream.step(BodyPart::Ended, &decode_chunk).is_empty());
}

#[test]
fn bytes_that_are_no_text_are_replaced() {
    assert_eq!(
        stream_words(&[b"{\"message\":{\"content\":\"a\xFFb\"}}\n"]),
        vec!["a\u{fffd}b"]
    );
}

#[test]
fn a_failure_comes_before_what_was_left() {
    let mut stream = ChatStream::new();
    let chunk = b"{\"message\":{\"content\":\"a\"}}\n{\"message\":{\"content\":\"b\"}}".to_vec();
    assert_eq!(
        words(stream.step(BodyPart::Chunk(chunk), &decode_chunk)),
        vec!["a"]
    );
    assert_eq!(
        words(stream.step(BodyPart::Failed("cut".to_owned()), &decode_chunk)),
        vec!["ollama transport error: cut", "b"]
    );
    assert!(stream.step(BodyPart::Ended, &decode_chunk).is_empty());
}

#[test]
fn lines_keep_their_newline() {
    let (lines, rest) = split_lines("a\n\nb\u{e9}\r\nc".as_bytes());
    assert_eq!(lines, vec![b"a\n".to_vec(), b"\n".to_vec(), b"b\xC3\xA9\r\n".to_vec()]);
    assert_eq!(rest, b"c");
    let (lines, rest) = split_lines(b"");
    assert!(lines.is_empty());
    assert!(rest.is_empty());
}

#[test]
fn a_reply_is_over_after_a_part_that_is_no_chunk() {
    let line = b"{\"message\":{\"content\":\"a\"}}\n".to_vec();
    for end in [BodyPart::Ended, BodyPart::Failed("cut".to_owned())] {
        assert!(end.is_last());
        assert!(!BodyPart::Chunk(line.clone()).is_last());
        let mut stream = ChatStream::new();
        assert!(!stream.is_over());
        assert_eq!(
            words(stream.step(BodyPart::Chunk(line.clone()), &decode_chunk)),
            vec!["a"]
        );
        assert!(!stream.is_over());
        stream.step(end, &decode_chunk);
        assert!(stream.is_over());
        assert!(stream.step(BodyPart::Chunk(line.clone()), &decode_chunk).is_empty());
        assert!(stream
            .step(BodyPart::Failed("again".to_owned()), &decode_chunk)
            .is_empty());
        assert!(stream.is_over());
    }
}
