use g3_providers::event::Usage;
use g3_providers::json::Json;
use g3_providers::stream::{decode_stream, CompletionChunk, Phase, StreamDecoder};
use g3_providers::tool_calls::ToolCall;

fn text(s: &str) -> Json {
    Json::Str(s.to_string())
}

fn scenario_bytes() -> Vec<u8> {
    let lines = [
        r#"data: {"choices":[{"delta":{"content":"Hel"}}]}"#,
        r#"data: {"choices":[{"delta":{"content":"lo"}}]}"#,
        r#"data: {"choices":[{"delta":{"tool_calls":[{"index":0,"id":"call_1","function":{"name":"get_weather","arguments":"{\"loc"}}]}}]}"#,
        r#"data: {"choices":[{"delta":{"tool_calls":[{"index":0,"function":{"arguments":"ation\":\"Tokyo\"}"}}]}}]}"#,
        r#"data: {"choices":[{}],"usage":{"prompt_tokens":10,"completion_tokens":5,"total_tokens":15}}"#,
        "data: [DONE]",
    ];
    let mut out = Vec::new();
    for l in lines.iter() {
        out.extend_from_slice(l.as_bytes());
        out.extend_from_slice(b"\n\n");
    }
    out
}

fn text_chunk(s: &str) -> CompletionChunk {
    CompletionChunk { content: s.to_string(), finished: false, tool_calls: None, usage: None }
}

fn data_line(payload: &str) -> Vec<u8> {
    format!("data: {}\n", payload).into_bytes()
}

fn assert_single_terminal(chunks: &[CompletionChunk]) {
    assert!(!chunks.is_empty());
    assert!(chunks[chunks.len() - 1].finished);
    assert_eq!(chunks.iter().filter(|c| c.finished).count(), 1);
}

#[test]
fn scenario_content_tool_call_and_usage() {
    let chunks = decode_stream(&vec![scenario_bytes()]);
    let expected = vec![
        text_chunk("Hel"),
        text_chunk("lo"),
        CompletionChunk {
            content: String::new(),
            finished: true,
            tool_calls: Some(vec![ToolCall {
                id: "call_1".to_string(),
                tool: "get_weather".to_string(),
                args: Json::Object(vec![("location".to_string(), text("Tokyo"))]),
            }]),
            usage: Some(Usage { prompt_tokens: 10, completion_tokens: 5, total_tokens: 15 }),
        },
    ];
    assert_eq!(chunks, expected);
}

#[test]
fn split_into_single_bytes_gives_same_chunks() {
    let bytes = scenario_bytes();
    let whole = decode_stream(&vec![bytes.clone()]);
    let pieces: Vec<Vec<u8>> = bytes.iter().map(|b| vec![*b]).collect();
    assert_eq!(decode_stream(&pieces), whole);
    let halves = vec![bytes[..37].to_vec(), bytes[37..200].to_vec(), bytes[200..].to_vec()];
    assert_eq!(decode_stream(&halves), whole);
}

#[test]
fn single_terminal_chunk_when_sentinel_comes_early() {
    let mut bytes = data_line(r#"{"choices":[{"delta":{"content":"a"}}]}"#);
    bytes.extend(data_line("[DONE]"));
    bytes.extend(data_line(r#"{"choices":[{"delta":{"content":"b"}}]}"#));
    bytes.extend(data_line("[DONE]"));
    let chunks = decode_stream(&vec![bytes]);
    assert_eq!(chunks.len(), 2);
    assert_eq!(chunks[0], text_chunk("a"));
    assert_single_terminal(&chunks);
}

#[test]
fn single_terminal_chunk_for_empty_input() {
    let chunks = decode_stream(&vec![]);
    assert_eq!(
        chunks,
        vec![CompletionChunk { content: String::new(), finished: true, tool_calls: None, usage: None }]
    );
}

#[test]
fn end_of_stream_without_sentinel_still_terminates() {
    let mut bytes = data_line(r#"{"choices":[{"delta":{"content":"partial"}}]}"#);
    bytes.extend(data_line(
        r#"{"choices":[{"delta":{"tool_calls":[{"index":0,"id":"c","function":{"name":"f","arguments":"[1]"}}]}}],"usage":{"prompt_tokens":1,"completion_tokens":2,"total_tokens":3}}"#,
    ));
    bytes.extend_from_slice(b"data: {\"choices\":[{\"delta\":{\"content\":\"cut");
    let chunks = decode_stream(&vec![bytes]);
    assert_eq!(chunks.len(), 2);
    assert_eq!(chunks[0], text_chunk("partial"));
    assert_eq!(
        chunks[1],
        CompletionChunk {
            content: String::new(),
            finished: true,
            tool_calls: Some(vec![ToolCall {
                id: "c".to_string(),
                tool: "f".to_string(),
                args: Json::Array(vec![Json::Number("1".to_string())]),
            }]),
            usage: Some(Usage { prompt_tokens: 1, completion_tokens: 2, total_tokens: 3 }),
        }
    );
}

#[test]
fn out_of_order_tool_call_positions() {
    let mut bytes = data_line(
        r#"{"choices":[{"delta":{"tool_calls":[{"index":1,"id":"b","function":{"name":"second","arguments":"{}"}}]}}]}"#,
    );
    bytes.extend(data_line(
        r#"{"choices":[{"delta":{"tool_calls":[{"index":0,"id":"a","function":{"name":"first","arguments":"{\"x\":1}"}}]}}]}"#,
    ));
    let chunks = decode_stream(&vec![bytes]);
    let calls = chunks[0].tool_calls.as_ref().unwrap();
    assert_eq!(calls.len(), 2);
    assert_eq!(calls[0].id, "a");
    assert_eq!(calls[0].tool, "first");
    assert_eq!(calls[0].args, Json::Object(vec![("x".to_string(), Json::Number("1".to_string()))]));
    assert_eq!(calls[1].id, "b");
    assert_eq!(calls[1].tool, "second");
    assert_eq!(calls[1].args, Json::Object(vec![]));
}

#[test]
fn usage_is_last_wins() {
    let mut bytes = data_line(
        r#"{"choices":[],"usage":{"prompt_tokens":5,"completion_tokens":5,"total_tokens":10}}"#,
    );
    bytes.extend(data_line(
        r#"{"choices":[],"usage":{"prompt_tokens":7,"completion_tokens":7,"total_tokens":14}}"#,
    ));
    bytes.extend(data_line("[DONE]"));
    let chunks = decode_stream(&vec![bytes]);
    assert_eq!(chunks.len(), 1);
    assert_eq!(
        chunks[0].usage,
        Some(Usage { prompt_tokens: 7, completion_tokens: 7, total_tokens: 14 })
    );
}

#[test]
fn malformed_line_does_not_stop_the_stream() {
    let mut bytes = data_line(r#"{"choices":[{"delta":{"content":"one"}}]}"#);
    bytes.extend(data_line("{not json"));
    bytes.extend(data_line(r#"{"choices":[{"delta":{"content":"two"}}]}"#));
    bytes.extend(data_line("[DONE]"));
    let chunks = decode_stream(&vec![bytes]);
    assert_eq!(chunks.len(), 3);
    assert_eq!(chunks[0], text_chunk("one"));
    assert_eq!(chunks[1], text_chunk("two"));
    assert!(chunks[2].finished);
}

#[test]
fn non_data_lines_and_blank_lines_are_ignored() {
    let mut bytes = b": keep-alive\n\nevent: message\n   \n".to_vec();
    bytes.extend(b"  data: {\"choices\":[{\"delta\":{\"content\":\"x\"}}]}  \r\n".to_vec());
    let chunks = decode_stream(&vec![bytes]);
    assert_eq!(chunks.len(), 2);
    assert_eq!(chunks[0], text_chunk("x"));
}

#[test]
fn invalid_utf8_fragment_is_dropped() {
    let good = data_line(r#"{"choices":[{"delta":{"content":"ok"}}]}"#);
    let bad = vec![0xff, 0xfe, b'\n'];
    let chunks = decode_stream(&vec![bad, good]);
    assert_eq!(chunks.len(), 2);
    assert_eq!(chunks[0], text_chunk("ok"));
}

#[test]
fn wrong_shape_event_is_skipped() {
    let mut bytes = data_line(r#"{"choices":[{"delta":{"content":5}}]}"#);
    bytes.extend(data_line(r#"{"usage":{"prompt_tokens":1,"completion_tokens":1,"total_tokens":2}}"#));
    bytes.extend(data_line(
        r#"{"choices":[],"usage":{"prompt_tokens":4294967296,"completion_tokens":1,"total_tokens":2}}"#,
    ));
    let chunks = decode_stream(&vec![bytes]);
    assert_eq!(chunks.len(), 1);
    assert_eq!(chunks[0].usage, None);
}

#[test]
fn incomplete_and_malformed_tool_calls() {
    let mut bytes = data_line(
        r#"{"choices":[{"delta":{"tool_calls":[{"index":0,"id":"a","function":{"arguments":"{}"}},{"index":2,"id":"c","function":{"name":"g","arguments":"{bad"}},{"id":"ignored"}]}}]}"#,
    );
    bytes.extend(data_line("[DONE]"));
    let chunks = decode_stream(&vec![bytes]);
    let calls = chunks[0].tool_calls.as_ref().unwrap();
    assert_eq!(calls.len(), 1);
    assert_eq!(calls[0].id, "c");
    assert_eq!(calls[0].args, Json::Null);
}

#[test]
fn content_in_several_choices_is_emitted_in_order() {
    let bytes = data_line(
        r#"{"choices":[{"delta":{"content":"p"}},{"delta":{"content":""}},{"delta":{}}]}"#,
    );
    let chunks = decode_stream(&vec![bytes]);
    assert_eq!(chunks.len(), 3);
    assert_eq!(chunks[0], text_chunk("p"));
    assert_eq!(chunks[1], text_chunk(""));
}

#[test]
fn transport_error_reports_once_and_ends() {
    let mut d = StreamDecoder::new();
    let out = d.push(&data_line(r#"{"choices":[{"delta":{"content":"a"}}]}"#));
    assert_eq!(out, vec![text_chunk("a")]);
    assert!(d.fail());
    assert_eq!(d.phase(), Phase::Failed);
    assert!(!d.fail());
    assert!(d.push(&data_line("[DONE]")).is_empty());
    assert_eq!(d.finish(), None);
}

#[test]
fn consumer_leaving_stops_without_terminal() {
    let mut d = StreamDecoder::new();
    d.push(&data_line(
        r#"{"choices":[],"usage":{"prompt_tokens":2,"completion_tokens":3,"total_tokens":5}}"#,
    ));
    d.stop();
    assert_eq!(d.phase(), Phase::Done);
    assert!(d.push(&data_line(r#"{"choices":[{"delta":{"content":"late"}}]}"#)).is_empty());
    assert_eq!(d.finish(), None);
    assert_eq!(d.usage(), Some(Usage { prompt_tokens: 2, completion_tokens: 3, total_tokens: 5 }));
}

#[test]
fn partial_line_waits_for_next_fragment() {
    let mut d = StreamDecoder::new();
    assert!(d.push(b"data: {\"choices\":[{\"delta\":{\"con").is_empty());
    assert_eq!(d.push(b"tent\":\"z\"}}]}\n"), vec![text_chunk("z")]);
    let done = d.push(b"data: [DONE]\n");
    assert_eq!(done.len(), 1);
    assert!(done[0].finished);
    assert_eq!(d.phase(), Phase::Done);
    assert_eq!(d.finish(), None);
}

#[test]
fn character_cut_across_fragments_drops_both_fragments() {
    let line = data_line(r#"{"choices":[{"delta":{"content":"é"}}]}"#);
    let cut = line.iter().position(|b| *b == 0xc3).unwrap() + 1;
    let whole = decode_stream(&vec![line.clone()]);
    assert_eq!(whole[0], text_chunk("é"));
    let split = decode_stream(&vec![line[..cut].to_vec(), line[cut..].to_vec()]);
    assert_eq!(split.len(), 1);
    assert!(split[0].finished);
}
