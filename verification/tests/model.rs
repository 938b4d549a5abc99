//! Requests to the model, and its replies.

use karakuri::message::{copy_calls, Message, Role, ToolCall};
use karakuri::model::{
    accumulate_chunk, api_error, chat_to_response, parse_sse_line, read_sse_line,
    stream_arguments_value, stream_to_response, text_or_null, ApiMessage, ApiToolCall, ChatResponse, Choice,
    ModelEvent, OpenAICompatibleModel, Response, ResponseFunction, ResponseMessage,
    ResponseToolCall, SseLine, StreamAccumulator, StreamChoice, StreamChunk, StreamDelta,
    StreamDeltaFunction, StreamDeltaToolCall,
};
use karakuri::prompt::Prompt;
use serde_json::Value;

fn text_of(v: &Value) -> Option<String> {
    v.as_str().map(str::to_string)
}

/// The chunk that a JSON text holds.
fn chunk_of(json: &str) -> Option<StreamChunk> {
    let value: Value = serde_json::from_str(json).ok()?;
    let choices = value["choices"].as_array()?;
    Some(StreamChunk {
        choices: choices
            .iter()
            .map(|c| StreamChoice {
                delta: StreamDelta {
                    content: text_of(&c["delta"]["content"]),
                    tool_calls: c["delta"]["tool_calls"]
                        .as_array()
                        .unwrap_or(&Vec::new())
                        .iter()
                        .map(|t| StreamDeltaToolCall {
                            index: t["index"].as_u64().unwrap_or(0) as usize,
                            id: text_of(&t["id"]),
                            function: t.get("function").map(|f| StreamDeltaFunction {
                                name: text_of(&f["name"]),
                                arguments: text_of(&f["arguments"]),
                            }),
                        })
                        .collect(),
                },
                finish_reason: text_of(&c["finish_reason"]),
            })
            .collect(),
    })
}

/// Feeds one line of a stream.
fn feed(line: &str, acc: &mut StreamAccumulator) -> (bool, Option<ModelEvent>) {
    let chunk = match read_sse_line(line) {
        SseLine::Data(json) => chunk_of(&json),
        _ => None,
    };
    parse_sse_line(line, &chunk, acc)
}

fn run_sse(stream: &str) -> (StreamAccumulator, Vec<String>, bool) {
    let mut acc = StreamAccumulator::default();
    let mut deltas = Vec::new();
    let mut ended = false;
    for line in stream.lines() {
        let (end, event) = feed(line, &mut acc);
        if let Some(ModelEvent::TextDelta(text)) = event {
            deltas.push(text);
        }
        if end {
            ended = true;
            break;
        }
    }
    (acc, deltas, ended)
}

fn sse_data(delta: &str, finish_reason: Option<&str>) -> String {
    let finish = match finish_reason {
        Some(reason) => format!("\"{reason}\""),
        None => "null".to_string(),
    };
    format!("data: {{\"choices\":[{{\"delta\":{delta},\"finish_reason\":{finish}}}]}}")
}

fn json(text: &str) -> Value {
    serde_json::from_str(text).unwrap()
}

#[test]
fn api_message_converts_core_message() {
    let api = ApiMessage::from_core(&Message::assistant("hi"));
    assert_eq!(api.role, "assistant");
    assert_eq!(api.content.as_deref(), Some("hi"));
    assert!(api.tool_call_id.is_none());
    assert!(api.tool_calls.is_empty());
}

#[test]
fn api_message_converts_tool_result() {
    let api = ApiMessage::from_core(&Message::tool("file contents", "call_123"));
    assert_eq!(api.role, "tool");
    assert_eq!(api.content.as_deref(), Some("file contents"));
    assert_eq!(api.tool_call_id.as_deref(), Some("call_123"));
    assert!(api.tool_calls.is_empty());
}

#[test]
fn api_message_converts_assistant_tool_call() {
    let call = ToolCall {
        id: "call_1".to_string(),
        name: "read_file".to_string(),
        arguments: r#"{ "path": "src/main.rs" }"#.to_string(),
    };
    let api = ApiMessage::from_core(&Message::assistant_tool_calls(vec![call]));

    assert_eq!(api.role, "assistant");
    assert!(api.content.is_none());
    assert_eq!(api.tool_calls.len(), 1);
    assert_eq!(api.tool_calls[0].id, "call_1");
    assert_eq!(
        api.tool_calls[0].function.arguments,
        r#"{"path":"src/main.rs"}"#
    );
}

#[test]
fn sse_text_stream_accumulates_and_drops_reasoning() {
    let stream = "\
data: {\"choices\":[{\"delta\":{\"content\":\"Hello\"},\"finish_reason\":null}]}
\n: this is a comment\n\ndata: {\"choices\":[{\"delta\":{\"reasoning_content\":\"thinking hard...\"},\"finish_reason\":null}]}
\ndata: {\"choices\":[{\"delta\":{\"content\":\" world\"},\"finish_reason\":null}]}
\ndata: {\"choices\":[{\"delta\":{\"reasoning_content\":\"more reasoning\"},\"finish_reason\":null}]}
\ndata: {\"choices\":[{\"delta\":{\"content\":\"!\"},\"finish_reason\":\"stop\"}]}
\ndata: [DONE]\n";

    let (acc, deltas, ended) = run_sse(stream);

    assert!(ended, "[DONE] should end the stream");
    assert_eq!(acc.content, "Hello world!");
    assert_eq!(deltas, vec!["Hello", " world", "!"]);
    assert!(acc.tool_calls.is_empty());
}

#[test]
fn sse_tool_call_stream_accumulates_fragments() {
    let lines = vec![
        sse_data(
            r#"{"tool_calls": [{
                "index": 0,
                "id": "call_1",
                "type": "function",
                "function": { "name": "write_file", "arguments": "{\"path\":\"a" }
            }]}"#,
            None,
        ),
        "".to_string(),
        ": another comment".to_string(),
        sse_data(
            r#"{"tool_calls": [{
                "index": 0,
                "function": { "arguments": ".txt\",\"content\":\"1\"}" }
            }]}"#,
            None,
        ),
        sse_data(
            r#"{"tool_calls": [{
                "index": 1,
                "id": "call_2",
                "type": "function",
                "function": { "name": "write_file", "arguments": "{\"path\":\"b.txt\",\"content\":\"2\"}" }
            }]}"#,
            None,
        ),
        sse_data(r#"{"reasoning_content": "deciding which tool..."}"#, None),
        sse_data("{}", Some("tool_calls")),
        "data: [DONE]".to_string(),
    ];
    let mut acc = StreamAccumulator::default();
    let mut deltas = Vec::new();
    let mut ended = false;
    for line in &lines {
        let (end, event) = feed(line, &mut acc);
        if let Some(ModelEvent::TextDelta(text)) = event {
            deltas.push(text);
        }
        if end {
            ended = true;
            break;
        }
    }

    assert!(ended, "finish_reason=tool_calls should end the stream");
    assert!(deltas.is_empty());

    assert_eq!(acc.tool_calls.len(), 2);
    assert_eq!(acc.tool_calls[0].id, "call_1");
    assert_eq!(acc.tool_calls[0].name, "write_file");
    assert_eq!(
        acc.tool_calls[0].arguments,
        r#"{"path":"a.txt","content":"1"}"#
    );
    assert_eq!(acc.tool_calls[1].id, "call_2");
    assert_eq!(acc.tool_calls[1].name, "write_file");
    assert_eq!(
        acc.tool_calls[1].arguments,
        r#"{"path":"b.txt","content":"2"}"#
    );

    match stream_to_response(&acc) {
        Response::ToolCall(calls) => {
            assert_eq!(calls.len(), 2);
            assert_eq!(calls[0].id, "call_1");
            assert_eq!(calls[0].name, "write_file");
            assert_eq!(
                json(&calls[0].arguments),
                json(r#"{"path": "a.txt", "content": "1"}"#)
            );
            assert_eq!(calls[1].id, "call_2");
            assert_eq!(
                json(&calls[1].arguments),
                json(r#"{"path": "b.txt", "content": "2"}"#)
            );
        }
        other => panic!("expected ToolCall, got {other:?}"),
    }
}

#[test]
fn sse_empty_arguments_defaults_to_empty_object() {
    let lines = vec![
        sse_data(
            r#"{"tool_calls": [{
                "index": 0,
                "id": "call_1",
                "type": "function",
                "function": { "name": "write_file", "arguments": "" }
            }]}"#,
            Some("tool_calls"),
        ),
        "data: [DONE]".to_string(),
    ];
    let mut acc = StreamAccumulator::default();
    for line in &lines {
        if feed(line, &mut acc).0 {
            break;
        }
    }
    match stream_to_response(&acc) {
        Response::ToolCall(calls) => {
            assert_eq!(calls.len(), 1);
            assert_eq!(json(&calls[0].arguments), json("{}"));
        }
        other => panic!("expected ToolCall, got {other:?}"),
    }
}

#[test]
fn lines_of_a_stream_are_told_apart() {
    assert_eq!(read_sse_line(""), SseLine::Skip);
    assert_eq!(read_sse_line("\r\n"), SseLine::Skip);
    assert_eq!(read_sse_line(":ping"), SseLine::Skip);
    assert_eq!(read_sse_line("event: x"), SseLine::Skip);
    assert_eq!(read_sse_line(" data: x"), SseLine::Skip);
    assert_eq!(read_sse_line("data:[DONE]\r"), SseLine::Done);
    assert_eq!(read_sse_line("data: [DONE] "), SseLine::Data("[DONE] ".to_string()));
    assert_eq!(read_sse_line("data:\t {} \n"), SseLine::Data("{} ".to_string()));
}

#[test]
fn unreadable_chunks_change_nothing() {
    let mut acc = StreamAccumulator::default();
    assert_eq!(feed("data: {oops", &mut acc), (false, None));
    assert_eq!(accumulate_chunk(&None, &mut acc), (false, None));
    assert_eq!(
        accumulate_chunk(&Some(StreamChunk { choices: vec![] }), &mut acc),
        (false, None)
    );
    assert_eq!(acc, StreamAccumulator::default());
    assert_eq!(stream_to_response(&acc), Response::Text(String::new()));
}

#[test]
fn pieces_of_calls_do_not_mix() {
    let piece = |index: usize, id: &str, args: &str| StreamDeltaToolCall {
        index,
        id: Some(id.to_string()),
        function: Some(StreamDeltaFunction {
            name: Some(format!("n{id}")),
            arguments: Some(args.to_string()),
        }),
    };
    let chunk = Some(StreamChunk {
        choices: vec![StreamChoice {
            delta: StreamDelta {
                content: Some(String::new()),
                tool_calls: vec![
                    piece(7, "", "["),
                    piece(2, "b", "{"),
                    piece(7, "a", "]"),
                    piece(2, "late", "}"),
                ],
            },
            finish_reason: Some("stop".to_string()),
        }],
    });
    let mut acc = StreamAccumulator::default();
    assert_eq!(accumulate_chunk(&chunk, &mut acc), (false, None));
    assert_eq!(acc.tool_calls.len(), 2);
    assert_eq!(acc.tool_calls[0].index, 7);
    assert_eq!(acc.tool_calls[0].id, "a");
    assert_eq!(acc.tool_calls[0].arguments, "[]");
    assert_eq!(acc.tool_calls[1].id, "b");
    assert_eq!(acc.tool_calls[1].name, "nb");
    assert_eq!(acc.tool_calls[1].arguments, "{}");
}

#[test]
fn arguments_become_compact_json() {
    assert_eq!(stream_arguments_value("  "), "{}");
    assert_eq!(stream_arguments_value(" { \"b\" : 1, \"a\": [ ] } "), "{\"a\":[],\"b\":1}");
    assert_eq!(stream_arguments_value("{oops"), "null");
    let call = |arguments: &str| ToolCall {
        id: "i".to_string(),
        name: "n".to_string(),
        arguments: arguments.to_string(),
    };
    assert_eq!(ApiToolCall::from_core(&call("nope")).function.arguments, "{}");
    assert_eq!(ApiToolCall::from_core(&call("{ }")).kind, "function");
    let sent = ApiToolCall::with_arguments(&call("x"), Some("[1]".to_string()));
    assert_eq!(sent.function.arguments, "[1]");
    assert_eq!(text_or_null(None), "null");
    assert_eq!(text_or_null(Some("[]".to_string())), "[]");
    let calls = vec![call("1"), call("2")];
    assert_eq!(copy_calls(&calls), calls);
}

fn reply(content: Option<&str>, calls: Option<Vec<ResponseToolCall>>) -> ChatResponse {
    ChatResponse {
        choices: vec![Choice {
            message: ResponseMessage {
                content: content.map(str::to_string),
                tool_calls: calls,
            },
        }],
    }
}

#[test]
fn whole_replies_are_read() {
    assert_eq!(
        chat_to_response(&ChatResponse { choices: vec![] }),
        Err("model returned no choices".to_string())
    );
    assert_eq!(
        chat_to_response(&reply(Some("hi"), Some(vec![]))),
        Ok(Response::Text("hi".to_string()))
    );
    assert_eq!(
        chat_to_response(&reply(None, None)),
        Ok(Response::Text(String::new()))
    );
    let call = |arguments: &str| ResponseToolCall {
        id: "call_9".to_string(),
        function: ResponseFunction {
            name: "read_file".to_string(),
            arguments: arguments.to_string(),
        },
    };
    let calls = vec![call(r#"{"path": "src/main.rs"}"#), call(" ")];
    match chat_to_response(&reply(Some("ignored"), Some(calls))) {
        Ok(Response::ToolCall(calls)) => {
            assert_eq!(calls[0].arguments, r#"{"path":"src/main.rs"}"#);
            assert_eq!(calls[0].name, "read_file");
            assert_eq!(calls[1].arguments, "null");
        }
        other => panic!("unexpected: {other:?}"),
    }
}

#[test]
fn requests_carry_the_conversation_and_the_tools() {
    let model = OpenAICompatibleModel::new("key".to_string(), None, None);
    assert_eq!(model.api_key, "key");
    assert_eq!(model.model, "gpt-4o-mini");
    assert_eq!(model.endpoint(), "https://api.openai.com/v1/chat/completions");
    let model = OpenAICompatibleModel::new_with_base_url(
        "k".to_string(),
        "http://localhost".to_string(),
        "m".to_string(),
    );
    assert_eq!(
        OpenAICompatibleModel::new(
            "k".to_string(),
            Some("http://localhost".to_string()),
            Some("m".to_string())
        ),
        model
    );
    let request = model.request(&[Message::user("hello"), Message::tool("r", "c")], true);
    assert_eq!(request.model, "m");
    assert!(request.stream);
    assert_eq!(request.messages.len(), 2);
    assert_eq!(request.messages[0].role, "user");
    assert_eq!(request.messages[0].content.as_deref(), Some("hello"));
    assert_eq!(request.messages[1].tool_call_id.as_deref(), Some("c"));
    assert_eq!(request.tools.len(), 6);
    assert_eq!(request.tools[0].kind, "function");
    assert_eq!(request.tools[0].function.name, "read_file");
    assert_eq!(request.tools[0].function.parameters.required, vec!["path"]);
}

#[test]
fn errors_of_the_interface_are_reported() {
    assert_eq!(
        api_error("500 Internal Server Error", Some("{}".to_string())),
        "API error: 500 Internal Server Error body={}"
    );
    assert_eq!(api_error("502", None), "API error: 502 body=<unreadable body>");
}

#[test]
fn replies_that_do_not_stream_are_one_event() {
    assert_eq!(
        Response::Text("x".to_string()).as_event(),
        Some(ModelEvent::TextDelta("x".to_string()))
    );
    assert_eq!(Response::ToolCall(vec![]).as_event(), None);
}

#[test]
fn messages_are_made() {
    assert_eq!(Message::user("a").role, Role::User);
    assert_eq!(Message::assistant("b").content, "b");
    assert_eq!(Message::assistant_tool_calls(vec![]).role, Role::Assistant);
    assert_eq!(Message::tool("r", "id").tool_call_id.as_deref(), Some("id"));
    assert_eq!(Prompt::new("p".to_string()).text, "p");
}
