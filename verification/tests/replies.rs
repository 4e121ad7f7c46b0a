//! Replies: model text, payloads, event streams and what the server answers.

use lisa::chars::trim;
use lisa::chat::ChatMessage;
use lisa::generate::{
    check_new_tokens, complete, drawing, draws_on, logprob_entry, next_reading, plan_completion,
    prefill, reads_text, resumption, run_session, run_wave, string_suffix, thinking_is_off,
    wave_delta, whole_prompt, Drawing, Emission, Emitted, Outcome, ReadingEvent, ReadingStep, Resumption,
};
use lisa::http::Surface;
use lisa::ids::{stamp, Counters};
use lisa::payload::{
    chat_choice, completion_choice, messages_payload, responses_payload_with_id, single_payload,
    usage_json, ReplyData,
};
use lisa::reasoning::{
    split_reasoning, stop_in, stream_delta, streaming_answer, strip_stops, strip_think_prefix,
    tool_call_start, visible,
};
use lisa::scan::{extract_json, find_json_array, find_json_object, salvage_json_object};
use lisa::serve::{
    background_answer, bad_request, choice_body, collect_count_tokens, collect_surface,
    count_tokens_job, decision_answer, decision_models_answer, decision_request,
    dispatch_completion, dispatch_or_400, drain_reply, engine_failure, finish_background,
    health_answer, models_answer, not_found_answer, plan_wave, stored_answer, unreadable_answer,
    Admission, Answer, Choices, JobKind,
};
use lisa::store::Store;
use lisa::stream::{
    open_chat, open_response, sse_event, stream_chat, stream_completions, Frame, MessageState,
    Reply, ResponseState,
};
use lisa::tools::{coerce, parse_i64, shape_reply, tool_types};
use lisa::value::Json;

fn json_of(v: serde_json::Value) -> Json {
    match v {
        serde_json::Value::Null => Json::Null,
        serde_json::Value::Bool(b) => Json::Bool(b),
        serde_json::Value::Number(n) => match (n.as_u64(), n.as_i64()) {
            (Some(u), _) => Json::Pos(u),
            (None, Some(i)) => Json::Neg(i),
            (None, None) => Json::Float(n),
        },
        serde_json::Value::String(s) => Json::Str(s),
        serde_json::Value::Array(a) => Json::Arr(a.into_iter().map(json_of).collect()),
        serde_json::Value::Object(o) => {
            Json::Obj(o.into_iter().map(|(k, v)| (k, json_of(v))).collect())
        }
    }
}

fn plain(j: &Json) -> serde_json::Value {
    match j {
        Json::Null => serde_json::Value::Null,
        Json::Bool(b) => serde_json::Value::Bool(*b),
        Json::Pos(n) => serde_json::Value::from(*n),
        Json::Neg(n) => serde_json::Value::from(*n),
        Json::Float(n) => serde_json::Value::Number(n.clone()),
        Json::Str(s) => serde_json::Value::String(s.clone()),
        Json::Arr(v) => serde_json::Value::Array(v.iter().map(plain).collect()),
        Json::Obj(m) => {
            serde_json::Value::Object(m.iter().map(|(k, v)| (k.clone(), plain(v))).collect())
        }
    }
}

fn json(text: &str) -> Json {
    json_of(serde_json::from_str(text).unwrap())
}

fn same(j: &Json, text: &str) {
    let wanted: serde_json::Value = serde_json::from_str(text).unwrap();
    assert_eq!(plain(j), wanted);
}

fn texts(v: &[&str]) -> Vec<String> {
    v.iter().map(|s| s.to_string()).collect()
}

fn reply(content: &str, finish: &str) -> ReplyData {
    ReplyData {
        content: content.to_string(),
        reasoning: None,
        tool_calls: vec![],
        prompt_tokens: 3,
        completion_tokens: 4,
        finish: finish.to_string(),
        logprobs: None,
        stop_sequence: None,
    }
}

fn call() -> Json {
    json(r#"{"id":"c1","type":"function","function":{"name":"f","arguments":"{\"k\":1}"}}"#)
}

fn body_of(a: &Answer) -> serde_json::Value {
    let bytes = a.to_bytes();
    let text = String::from_utf8(bytes).unwrap();
    let start = text.find("\r\n\r\n").unwrap() + 4;
    serde_json::from_str(&text[start..]).unwrap()
}

fn event_text(f: &Frame) -> String {
    sse_event(f)
}

fn event_data(f: &Frame) -> serde_json::Value {
    let text = sse_event(f);
    let start = text.find("data: ").unwrap() + 6;
    serde_json::from_str(text[start..].trim_end()).unwrap()
}

fn value(text: &str) -> serde_json::Value {
    serde_json::from_str(text).unwrap()
}

// ---- model text ----

#[test]
fn reasoning_is_split_off() {
    assert_eq!(
        split_reasoning(" a </think>\n b "),
        (Some("a".to_string()), "b ".to_string())
    );
    // A repeated marker is part of the reasoning.
    assert_eq!(
        split_reasoning("<think>a</think>b"),
        (Some("<think>a".to_string()), "b".to_string())
    );
    assert_eq!(split_reasoning("x <think> cut"), (Some("cut".to_string()), "x".to_string()));
    assert_eq!(split_reasoning(" plain "), (None, " plain ".to_string()));
    assert_eq!(streaming_answer("<think>a</think> b "), "b ");
    assert_eq!(streaming_answer("x <think>a"), "x");
    assert_eq!(streaming_answer("abc"), "abc");
    assert_eq!(strip_think_prefix("  <think>a</think> {}"), "{}");
    assert_eq!(strip_think_prefix("{\"a\":\"</think>\"}"), "{\"a\":\"</think>\"}");
}

#[test]
fn streams_grow_to_their_text() {
    assert_eq!(stream_delta("ab", "abcd"), Some("cd".to_string()));
    assert_eq!(stream_delta("ab", "ab"), None);
    assert_eq!(stream_delta("ab", "a"), None);
    // A character that came apart is rewritten, though no byte is added.
    assert_eq!(stream_delta("a\u{fffd}", "a\u{e9}"), Some("\u{e9}".to_string()));
    assert_eq!(stream_delta("a\u{fffd}", "a\u{e9}\u{e9}x"), Some("\u{e9}\u{e9}x".to_string()));
    assert_eq!(stream_delta("", "\u{1F600}"), Some("\u{1F600}".to_string()));
    assert_eq!(wave_delta("ab", "abc"), Some("c".to_string()));
    assert_eq!(wave_delta("abc", "abc"), None);
}

#[test]
fn white_space_of_all_widths_is_trimmed() {
    let mut spaces: Vec<u32> = vec![32, 0x85, 0xa0, 0x1680, 0x2028, 0x2029, 0x202f, 0x205f, 0x3000];
    spaces.extend(9..=13);
    spaces.extend(0x2000..=0x200a);
    spaces.sort();
    let trimmed: Vec<u32> = ('\0'..=char::MAX)
        .filter(|&c| trim(&[c]).is_empty())
        .map(|c| c as u32)
        .collect();
    assert_eq!(trimmed, spaces);
}

#[test]
fn text_is_read_for_streams_and_stops() {
    let none: Vec<String> = vec![];
    let stops = vec!["x".to_string()];
    assert!(!reads_text(&none, false, false));
    assert!(reads_text(&stops, false, false));
    assert!(!reads_text(&stops, false, true));
    assert!(reads_text(&none, true, true));
    let mut e = Emission::new();
    assert!(matches!(e.emit(&none, false, false, "x", None), Emitted::More(None)));
}

#[test]
fn stops_cut_the_text() {
    assert_eq!(strip_stops("one two three", &texts(&["three", "two", ""])), "one ");
    assert_eq!(strip_stops("one", &texts(&["", "x"])), "one");
    assert_eq!(stop_in("a b", &texts(&["", "b", "a"])), Some("b".to_string()));
    assert_eq!(stop_in("a b", &texts(&["c"])), None);
    assert_eq!(tool_call_start("ab<tool_call>"), Some(2));
    assert_eq!(visible("<think>x</think>hi <tool_call>{}"), "hi ");
}

#[test]
fn json_is_found_in_prose() {
    assert_eq!(extract_json("```json\n{\"a\": 1}\n```"), Some("{\"a\":1}".to_string()));
    assert_eq!(extract_json("so {\"a\":\"}\"} it is"), Some("{\"a\":\"}\"}".to_string()));
    assert_eq!(extract_json("see [1, [2]] there"), Some("[1,[2]]".to_string()));
    assert_eq!(extract_json("nothing"), None);
    assert!(find_json_object("{bad} {\"b\":2}").is_some());
    same(&find_json_array("x [3]").unwrap(), "[3]");
    let repaired = salvage_json_object("{a: yes, \"b\": [1, {\"c\": \"d\n").unwrap();
    same(&Json::Obj(repaired), r#"{"a":"yes","b":[1,{"c":"d\n"}]}"#);
    assert!(salvage_json_object("no braces").is_none());
}

#[test]
fn arguments_have_the_declared_types() {
    same(&coerce(Some("integer"), " 4 "), "4");
    same(&coerce(Some("integer"), "4x"), r#""4x""#);
    same(&coerce(Some("number"), "2.5"), "2.5");
    same(&coerce(Some("boolean"), " true "), "true");
    same(&coerce(Some("boolean"), "yes"), r#""yes""#);
    same(&coerce(Some("object"), "{\"a\":1}"), r#"{"a":1}"#);
    same(&coerce(Some("array"), "[1"), r#""[1""#);
    same(&coerce(None, "7"), "7");
    same(&coerce(None, "[7]"), r#""[7]""#);
    same(&coerce(Some("string"), "null"), "null");
    let digits: Vec<char> = "-9223372036854775808".chars().collect();
    assert_eq!(parse_i64(&digits), Some(i64::MIN));
    let over: Vec<char> = "9223372036854775808".chars().collect();
    assert_eq!(parse_i64(&over), None);
}

#[test]
fn replies_are_shaped() {
    let tools = vec![json(
        r#"{"function":{"name":"f","parameters":{"properties":{"n":{"type":"integer"}}}}}"#,
    )];
    assert_eq!(tool_types(&tools).lookup("f", "n"), Some("integer"));
    let text = "t</think>Go <tool_call><function=f><parameter=n>2</parameter></function></tool_call><tool_call><function=f></function></tool_call>STOP";
    let mut ids = Counters { seq: 0, calls: 5, served: 0 };
    let (content, reasoning, calls) =
        shape_reply(text, &tools, false, &texts(&["STOP"]), &mut ids, 16);
    assert_eq!(content, "Go");
    assert_eq!(reasoning.as_deref(), Some("t"));
    assert_eq!(calls.len(), 1);
    same(
        &calls[0],
        r#"{"id":"call_105","type":"function","function":{"name":"f","arguments":"{\"n\":2}"}}"#,
    );
    assert_eq!(ids.calls, 7);
    let (content, _, calls) = shape_reply(text, &vec![], true, &vec![], &mut ids, 16);
    assert!(calls.is_empty());
    assert!(content.contains("<tool_call>"));
    assert_eq!(ids.calls, 7);
}

// ---- names and counts ----

#[test]
fn names_carry_time_and_number() {
    let mut c = Counters::new();
    assert_eq!(c.completion_id(255), "chatcmpl-lisa-ff0");
    assert_eq!(c.response_id(255), "resp_ff1");
    assert_eq!(c.message_id(255), "msg_ff2");
    assert_eq!(c.tool_call_id(255), "call_ff0");
    assert_eq!(stamp("rs_", 26), "rs_1a");
    assert_eq!(
        c.rate_headers(),
        "X-RateLimit-Limit-Requests: 100000\r\nX-RateLimit-Remaining-Requests: 99999\r\nX-RateLimit-Reset-Requests: 1s"
    );
    c.served = 100_000;
    assert!(c.rate_headers().contains("Remaining-Requests: 0\r\n"));
}

// ---- payloads ----

#[test]
fn chat_payloads() {
    same(
        &usage_json(3, 4),
        r#"{"prompt_tokens":3,"completion_tokens":4,"total_tokens":7}"#,
    );
    let mut d = reply("hi", "stop");
    d.reasoning = Some("why".to_string());
    d.tool_calls = vec![call()];
    d.logprobs = Some(json(r#"{"content":[]}"#));
    let c = chat_choice(&d, 2);
    assert_eq!(
        plain(&c),
        value(
            r#"{"index":2,"message":{"role":"assistant","content":"hi","reasoning_content":"why","tool_calls":[{"id":"c1","type":"function","function":{"name":"f","arguments":"{\"k\":1}"}}]},"finish_reason":"stop","logprobs":{"content":[]}}"#
        )
    );
    same(
        &completion_choice(&reply("t", "length"), 0),
        r#"{"index":0,"text":"t","logprobs":null,"finish_reason":"length"}"#,
    );
    same(
        &single_payload(&reply("hi", "stop"), false, "id9", 12),
        r#"{"id":"id9","object":"chat.completion","created":12,"model":"qwen3.8-flash-next","choices":[{"index":0,"message":{"role":"assistant","content":"hi"},"finish_reason":"stop"}],"usage":{"prompt_tokens":3,"completion_tokens":4,"total_tokens":7}}"#,
    );
}

#[test]
fn messages_payloads() {
    let mut d = reply("hi", "tool_calls");
    d.reasoning = Some("why".to_string());
    d.tool_calls = vec![call()];
    same(
        &messages_payload(&d, "msg_1"),
        r#"{"id":"msg_1","type":"message","role":"assistant","model":"qwen3.8-flash-next","content":[{"type":"thinking","thinking":"why","signature":""},{"type":"text","text":"hi"},{"type":"tool_use","id":"c1","name":"f","input":{"k":1}}],"stop_reason":"tool_use","stop_sequence":null,"usage":{"input_tokens":3,"output_tokens":4}}"#,
    );
    let mut d = reply("", "length");
    assert_eq!(
        messages_payload(&d, "m").str_of("stop_reason"),
        Some("max_tokens")
    );
    d.stop_sequence = Some("END".to_string());
    let p = messages_payload(&d, "m");
    assert_eq!(p.str_of("stop_reason"), Some("stop_sequence"));
    assert_eq!(p.str_of("stop_sequence"), Some("END"));
}

#[test]
fn responses_payloads() {
    let mut d = reply("hi", "stop");
    d.tool_calls = vec![call()];
    let p = responses_payload_with_id(&d, "resp_1", 16);
    assert_eq!(p.str_of("status"), Some("completed"));
    same(p.get("completed_at").unwrap(), "16");
    same(
        p.get("output").unwrap(),
        r#"[{"type":"message","id":"msg_10","status":"completed","role":"assistant","content":[{"type":"output_text","text":"hi","annotations":[]}]},{"type":"function_call","id":"fc_10","call_id":"c1","name":"f","arguments":"{\"k\":1}","status":"completed"}]"#,
    );
    same(p.get("top_p").unwrap(), "1.0");
    same(
        p.get("usage").unwrap(),
        r#"{"input_tokens":3,"output_tokens":4,"total_tokens":7,"input_tokens_details":{"cached_tokens":0},"output_tokens_details":{"reasoning_tokens":0}}"#,
    );
    let p = responses_payload_with_id(&reply("hi", "length"), "resp_1", 16);
    assert_eq!(p.str_of("status"), Some("incomplete"));
    same(p.get("completed_at").unwrap(), "null");
    same(p.get("incomplete_details").unwrap(), r#"{"reason":"max_output_tokens"}"#);
}

// ---- event streams ----

#[test]
fn chat_streams() {
    let first = open_chat("id1", 5);
    assert_eq!(
        event_data(&first[0]),
        value(
            r#"{"id":"id1","object":"chat.completion.chunk","created":5,"model":"qwen3.8-flash-next","choices":[{"index":0,"delta":{"role":"assistant"},"finish_reason":null}]}"#
        )
    );
    let (none, over) = stream_chat("id1", false, Reply::Start { prompt_tokens: 2 }, 5);
    assert!(none.is_empty() && !over);
    let step = Reply::Delta { text: "hey".to_string(), logprobs: None };
    let (frames, over) = stream_chat("id1", false, step, 5);
    assert!(!over);
    assert!(event_text(&frames[0]).starts_with("data: {"));
    assert_eq!(event_data(&frames[0])["choices"][0]["delta"]["content"], "hey");
    let mut d = reply("hey", "tool_calls");
    d.tool_calls = vec![call()];
    let (frames, over) = stream_chat("id1", true, Reply::Done(d), 5);
    assert!(over);
    assert_eq!(frames.len(), 5);
    assert_eq!(
        event_data(&frames[0])["choices"][0]["delta"]["tool_calls"][0]["id"],
        "c1"
    );
    assert_eq!(event_data(&frames[1])["choices"][0]["finish_reason"], "tool_calls");
    assert_eq!(event_data(&frames[2])["usage"]["total_tokens"], 7);
    assert_eq!(event_text(&frames[3]), "data: [DONE]\n\n");
    assert_eq!(event_text(&frames[4]), "");
    let (frames, over) = stream_chat("id1", true, Reply::Error("broken".to_string()), 5);
    assert!(over);
    assert_eq!(event_data(&frames[0]), value(r#"{"error":{"message":"broken"}}"#));
    assert_eq!(event_text(&frames[1]), "");
}

#[test]
fn completion_streams() {
    let step = Reply::Delta { text: "hey".to_string(), logprobs: None };
    let (frames, _) = stream_completions("id1", false, step, 5);
    assert_eq!(
        event_data(&frames[0])["choices"][0],
        value(r#"{"index":0,"text":"hey","finish_reason":null}"#)
    );
    let (frames, over) = stream_completions("id1", false, Reply::Done(reply("hey", "stop")), 5);
    assert!(over);
    assert_eq!(frames.len(), 3);
    assert_eq!(event_data(&frames[0])["choices"][0]["finish_reason"], "stop");
}

#[test]
fn message_streams() {
    let mut s = MessageState::new();
    let (frames, _) = s.stream_messages("msg_1", Reply::Start { prompt_tokens: 8 });
    assert!(event_text(&frames[0]).starts_with("event: message_start\ndata: {"));
    assert_eq!(event_data(&frames[0])["message"]["usage"]["input_tokens"], 8);
    let (frames, _) = s.stream_messages("msg_1", Reply::Start { prompt_tokens: 8 });
    assert!(frames.is_empty());
    let empty = Reply::Delta { text: String::new(), logprobs: None };
    assert!(s.stream_messages("msg_1", empty).0.is_empty());
    let step = Reply::Delta { text: "hey".to_string(), logprobs: None };
    let (frames, _) = s.stream_messages("msg_1", step);
    assert_eq!(event_data(&frames[0])["type"], "content_block_start");
    assert_eq!(event_data(&frames[1])["delta"]["text"], "hey");
    let mut d = reply("hey", "length");
    d.tool_calls = vec![call()];
    let (frames, over) = s.stream_messages("msg_1", Reply::Done(d));
    assert!(over);
    let kinds: Vec<String> = frames
        .iter()
        .filter(|f| matches!(f, Frame::Event(..)))
        .map(|f| event_data(f)["type"].as_str().unwrap().to_string())
        .collect();
    assert_eq!(
        kinds,
        [
            "content_block_stop",
            "content_block_start",
            "content_block_delta",
            "content_block_stop",
            "message_delta",
            "message_stop"
        ]
    );
    assert_eq!(event_data(&frames[1])["index"], 1);
    assert_eq!(event_data(&frames[2])["delta"]["partial_json"], "{\"k\":1}");
    assert_eq!(event_data(&frames[4])["delta"]["stop_reason"], "max_tokens");
}

#[test]
fn response_streams() {
    let opened = open_response("resp_1", 16);
    assert_eq!(event_data(&opened[0])["type"], "response.created");
    assert_eq!(event_data(&opened[0])["sequence_number"], 0);
    assert_eq!(event_data(&opened[0])["response"]["status"], "in_progress");
    let mut s = ResponseState::new();
    let mut store = Store::new();
    let body = json(r#"{"messages":[{"role":"user","content":"q"}]}"#);
    let step = Reply::Delta { text: "hey".to_string(), logprobs: None };
    let (frames, _) = s.stream_responses("resp_1", "msg_10", step, 16, &body, &mut store);
    let mut numbers: Vec<u64> =
        frames.iter().map(|f| event_data(f)["sequence_number"].as_u64().unwrap()).collect();
    assert_eq!(numbers, [1, 2, 3]);
    assert_eq!(event_data(&frames[2])["delta"], "hey");
    let mut d = reply("hey", "stop");
    d.tool_calls = vec![call()];
    let (frames, over) =
        s.stream_responses("resp_1", "msg_10", Reply::Done(d), 16, &body, &mut store);
    assert!(over);
    numbers = frames
        .iter()
        .filter(|f| matches!(f, Frame::Event(..)))
        .map(|f| event_data(f)["sequence_number"].as_u64().unwrap())
        .collect();
    assert_eq!(numbers, [4, 5, 6, 7, 8, 9, 10]);
    assert_eq!(event_data(&frames[3])["output_index"], 1);
    assert_eq!(event_data(&frames[6])["type"], "response.completed");
    // The conversation can be taken up again.
    let mut next = json(
        r#"{"previous_response_id":"resp_1","messages":[{"role":"user","content":"more"}]}"#,
    );
    store.apply_previous_response(&mut next);
    let m = next.array_of("messages").unwrap();
    assert_eq!(m.len(), 3);
    assert_eq!(m[1].str_of("content"), Some("hey"));
    assert_eq!(m[2].str_of("content"), Some("more"));
    assert!(store.stored_response("resp_1").is_some());
    let mut unknown = json(r#"{"previous_response_id":"resp_2","messages":[1]}"#);
    store.apply_previous_response(&mut unknown);
    same(&unknown, r#"{"previous_response_id":"resp_2","messages":[1]}"#);
}

// ---- admission ----

fn refusal(surface: Surface, body: &str) -> String {
    match dispatch_completion(surface, body.as_bytes(), &Store::new()) {
        Admission::Refused(m) => m,
        _ => panic!("the request was admitted"),
    }
}

#[test]
fn requests_are_refused() {
    assert!(refusal(Surface::Chat, "{").starts_with("invalid JSON body: "));
    assert_eq!(refusal(Surface::Chat, "{}"), "request has no messages or prompt");
    assert_eq!(
        refusal(Surface::Messages, r#"{"messages":[{"content":"x"}]}"#),
        "max_tokens is required"
    );
    assert_eq!(refusal(Surface::Chat, r#"{"messages":[]}"#), "request has no messages or prompt");
    // A text prompt of a completion is never missing.
    assert!(matches!(
        dispatch_completion(Surface::Completions, b"{}", &Store::new()),
        Admission::Run { .. }
    ));
}

#[test]
fn requests_are_admitted() {
    let store = Store::new();
    let text = br#"{"messages":[{"content":"x"}],"stream":true,"stream_options":{"include_usage":true},"session_id":"s"}"#;
    match dispatch_completion(Surface::Chat, text, &store) {
        Admission::Run { stream, include_usage, session_id, .. } => {
            assert!(stream && include_usage);
            assert_eq!(session_id.as_deref(), Some("s"));
        }
        _ => panic!("the request was not run"),
    }
    match dispatch_completion(Surface::Chat, br#"{"messages":[{"content":"x"}],"n":3}"#, &store) {
        Admission::Choices { n, body } => {
            assert_eq!(n, 3);
            same(choice_body(&body, 2).get("seed").unwrap(), "11400714819323198487");
        }
        _ => panic!("the request has choices"),
    }
    match dispatch_completion(
        Surface::Responses,
        br#"{"input":"x","background":true}"#,
        &store,
    ) {
        Admission::Background(body) => assert!(body.get("messages").is_some()),
        _ => panic!("the request runs in the background"),
    }
    assert!(matches!(
        dispatch_completion(Surface::CountTokens, b"{\"messages\":[]}", &store),
        Admission::Run { .. }
    ));
    assert!(matches!(
        dispatch_completion(Surface::Messages, b"[1]", &store),
        Admission::Unusable
    ));
}

#[test]
fn plain_answers() {
    assert_eq!(body_of(&health_answer()), value(r#"{"status":"ok"}"#));
    assert_eq!(
        body_of(&models_answer()),
        value(
            r#"{"object":"list","data":[{"id":"qwen3.8-flash-next","object":"model","owned_by":"lisa"}]}"#
        )
    );
    assert_eq!(
        body_of(&decision_models_answer("laya")),
        value(r#"{"object":"list","data":[{"id":"laya","object":"model"}]}"#)
    );
    let a = not_found_answer();
    assert_eq!(a.status, "404 Not Found");
    assert_eq!(body_of(&a), value(r#"{"error":{"message":"not found"}}"#));
    let a = unreadable_answer("why");
    assert_eq!(a.status, "400 Bad Request");
    assert_eq!(
        body_of(&a),
        value(r#"{"error":{"message":"why","type":"invalid_request_error"}}"#)
    );
    assert_eq!(
        body_of(&dispatch_or_400(Surface::Messages, "why")),
        value(
            r#"{"type":"error","error":{"type":"invalid_request_error","message":"why"}}"#
        )
    );
    assert_eq!(body_of(&bad_request("why")), value(r#"{"error":{"message":"why"}}"#));
    let a = stored_answer(&Store::new(), "none");
    assert_eq!(a.status, "200 OK");
    assert_eq!(
        body_of(&a),
        value(r#"{"error":{"message":"response not found","type":"invalid_request_error"}}"#)
    );
}

#[test]
fn collected_answers() {
    let mut ids = Counters::new();
    let mut store = Store::new();
    let body = json(r#"{"messages":[]}"#);
    let a = collect_surface(Surface::Chat, &body, &reply("hi", "stop"), &mut ids, &mut store, 1);
    assert_eq!(body_of(&a)["choices"][0]["message"]["content"], "hi");
    assert!(a.extra.contains("X-RateLimit"));
    let a =
        collect_surface(Surface::Completions, &body, &reply("hi", "stop"), &mut ids, &mut store, 1);
    assert_eq!(body_of(&a)["object"], "text_completion");
    let a =
        collect_surface(Surface::Responses, &body, &reply("hi", "stop"), &mut ids, &mut store, 1);
    let id = body_of(&a)["id"].as_str().unwrap().to_string();
    assert_eq!(body_of(&stored_answer(&store, &id)), body_of(&a));
    let a =
        collect_surface(Surface::Messages, &body, &reply("hi", "stop"), &mut ids, &mut store, 1);
    assert_eq!(body_of(&a)["stop_reason"], "end_turn");
    let a = engine_failure("broken", &mut ids);
    assert_eq!(a.status, "500 Internal Server Error");
    assert_eq!(body_of(&a), value(r#"{"error":{"message":"broken","type":"engine_error"}}"#));
    assert_eq!(ids.served, 5);
}

#[test]
fn background_answers() {
    let mut ids = Counters::new();
    let mut store = Store::new();
    let (id, a) = background_answer(&mut ids, 7);
    assert_eq!(id, "resp_70");
    assert_eq!(
        body_of(&a),
        value(
            r#"{"id":"resp_70","object":"response","created_at":7,"status":"queued","model":"qwen3.8-flash-next","output":[],"output_text":"","usage":null}"#
        )
    );
    finish_background(&mut store, &id, &reply("done", "stop"), 8);
    assert_eq!(body_of(&stored_answer(&store, &id))["output_text"], "done");
}

#[test]
fn token_counts() {
    let d = count_tokens_job(12);
    assert_eq!(body_of(&collect_count_tokens(Ok(d))), value(r#"{"input_tokens":12}"#));
    let a = collect_count_tokens(Err("broken".to_string()));
    assert_eq!(a.status, "500 Internal Server Error");
    assert!(drain_reply(Some(Reply::Start { prompt_tokens: 1 })).is_none());
    match drain_reply(None) {
        Some(Err(e)) => assert_eq!(e, "engine worker dropped the request"),
        _ => panic!("a lost request was answered"),
    }
    match drain_reply(Some(Reply::Done(reply("x", "stop")))) {
        Some(Ok(d)) => assert_eq!(d.content, "x"),
        _ => panic!("a reply was lost"),
    }
}

#[test]
fn merged_choices() {
    let mut c = Choices::new();
    c.add_choice(&reply("a", "stop"), false);
    c.add_choice(&reply("b", "length"), false);
    let mut ids = Counters::new();
    let a = c.collect_choices(false, &mut ids, 2);
    let body = body_of(&a);
    assert_eq!(body["choices"][1]["index"], 1);
    assert_eq!(body["choices"][1]["message"]["content"], "b");
    assert_eq!(
        body["usage"],
        value(r#"{"prompt_tokens":3,"completion_tokens":8,"total_tokens":11}"#)
    );
}

#[test]
fn waves_are_planned() {
    let chat = JobKind { session: false, surface: Surface::Chat, depth: 0, tools: false };
    let jobs = [
        chat,
        JobKind { session: true, ..chat },
        JobKind { depth: 2, ..chat },
        JobKind { tools: true, ..chat },
        JobKind { surface: Surface::Messages, ..chat },
        chat,
    ];
    let w = plan_wave(&jobs);
    assert_eq!(w.sessions, [1]);
    assert_eq!(w.alone, [2, 3, 4]);
    assert_eq!(w.together, [0, 5]);
}

#[test]
fn decisions_are_answered() {
    match decision_request(br#"{"state":{"a":1}}"#) {
        Ok((state, questions)) => {
            same(&state, r#"{"a":1}"#);
            same(&questions, "null");
        }
        Err(_) => panic!("the request was refused"),
    }
    match decision_request(b"nope") {
        Ok(_) => panic!("the request was read"),
        Err(a) => {
            let m = body_of(&a)["error"]["message"].as_str().unwrap().to_string();
            assert!(m.starts_with("invalid JSON: "));
        }
    }
    assert_eq!(body_of(&decision_answer(Ok(json("[1]")))), value("[1]"));
    assert_eq!(decision_answer(Err("no".to_string())).status, "400 Bad Request");
}

// ---- generation ----

#[test]
fn completions_are_planned() {
    let body = json(
        r#"{"messages":[{"role":"system","content":"s"},{"role":"user","content":"u"}],"response_format":{"type":"json_object"},"stop":"x","max_tokens":9,"top_logprobs":2}"#,
    );
    let p = plan_completion(&body, Surface::Chat, 50).unwrap();
    assert_eq!(p.messages.len(), 2);
    assert!(p.messages[0].content.starts_with("s\n\nRespond with a single valid JSON value"));
    assert!(p.thinking && p.logprobs && p.parallel);
    assert_eq!(p.max_tokens, 9);
    assert_eq!(p.stops, texts(&["x"]));
    assert!(p.prefill.is_none());
    let body = json(
        r#"{"messages":[{"role":"user","content":"u"},{"role":"assistant","content":"so"}],"reasoning_effort":"none"}"#,
    );
    let p = plan_completion(&body, Surface::Messages, 50).unwrap();
    assert_eq!(p.prefill.as_deref(), Some("so"));
    assert_eq!(p.messages.len(), 1);
    assert!(!p.thinking);
    assert_eq!(p.max_tokens, 50);
    assert_eq!(whole_prompt("a", &p.prefill), "aso");
    assert!(thinking_is_off(&json(r#"{"reasoning":{"effort":"none"}}"#)));
    assert!(!thinking_is_off(&json("{}")));
    assert!(plan_completion(&json("{}"), Surface::Chat, 1).is_err());
}

#[test]
fn tokens_are_drawn() {
    assert!(matches!(drawing(true, 4, true), Drawing::Logprobs));
    assert!(matches!(drawing(false, 4, true), Drawing::Drafted(4)));
    assert!(matches!(drawing(false, 4, false), Drawing::Serial));
    assert!(matches!(drawing(false, 0, true), Drawing::Serial));
    assert!(draws_on(1, 2, false));
    assert!(!draws_on(2, 2, false));
    assert!(!draws_on(1, 2, true));
    same(
        &logprob_entry("t", json("-0.5")),
        r#"{"token":"t","logprob":-0.5,"bytes":null,"top_logprobs":[]}"#,
    );
}

#[test]
fn emissions_stream_the_visible_text() {
    let mut e = Emission::new();
    let stops = texts(&["END"]);
    match e.emit(&stops, true, false, "<think>x</think>hi", None) {
        Emitted::More(Some(Reply::Delta { text, .. })) => assert_eq!(text, "hi"),
        _ => panic!("nothing was streamed"),
    }
    match e.emit(&stops, true, true, "<think>x</think>hi", Some(json("1"))) {
        Emitted::More(Some(Reply::Delta { text, logprobs })) => {
            assert_eq!(text, "");
            same(&logprobs.unwrap(), r#"{"content":[1]}"#);
        }
        _ => panic!("the entry was lost"),
    }
    assert!(matches!(
        e.emit(&stops, true, false, "<think>x</think>hi END", None),
        Emitted::Stop
    ));
    assert!(e.hit_stop);
    assert_eq!(e.entries.len(), 1);
    let mut quiet = Emission::new();
    assert!(matches!(quiet.emit(&vec![], false, false, "hi", None), Emitted::More(None)));
}

#[test]
fn streamed_text_is_the_content() {
    let texts = [
        "thi",
        "think</think>",
        "think</think>\n so",
        "think</think>\n so \u{e9}",
        "think</think>\n so \u{e9} <tool_call>{\"name\":\"f\"}",
    ];
    let mut e = Emission::new();
    let mut sent = String::new();
    // The words before the mark are shown until it comes.
    for t in &texts[1..] {
        if let Emitted::More(Some(Reply::Delta { text, .. })) =
            e.emit(&vec![], true, false, t, None)
        {
            sent.push_str(&text);
        }
    }
    assert_eq!(sent, "so \u{e9} ");
    assert_eq!(sent, visible(texts[4]));
    let tools = vec![json(r#"{"function":{"name":"f"}}"#)];
    let (content, reasoning, calls) =
        shape_reply(texts[4], &tools, true, &vec![], &mut Counters::new(), 1);
    assert_eq!(sent.trim(), content);
    assert_eq!(reasoning.as_deref(), Some("think"));
    assert_eq!(calls.len(), 1);
    // Without a call, what was sent is the content to the letter.
    let whole = "<think>t</think>\n\n so be it ";
    let (content, _, _) = shape_reply(whole, &vec![], true, &vec![], &mut Counters::new(), 1);
    assert_eq!(visible(whole), content);
    assert_eq!(content, "so be it ");
}

fn outcome(full: &str, hit_stop: bool, ended: bool) -> Outcome {
    Outcome {
        full: full.to_string(),
        hit_stop,
        ended,
        entries: vec![],
        prompt_tokens: 2,
        completion_tokens: 6,
    }
}

#[test]
fn replies_are_completed() {
    let body = json(r#"{"messages":[{"content":"u"}],"stop":["END"]}"#);
    let plan = plan_completion(&body, Surface::Chat, 50).unwrap();
    let mut ids = Counters::new();
    let (delta, d) = complete(&plan, true, outcome("yes END", true, false), &mut ids, 1);
    assert!(delta.is_none());
    assert_eq!(d.content, "yes ");
    assert_eq!(d.finish, "stop");
    assert_eq!(d.stop_sequence.as_deref(), Some("END"));
    let (_, d) = complete(&plan, false, outcome("yes", false, false), &mut ids, 1);
    assert_eq!(d.finish, "length");
    let body = json(
        r#"{"messages":[{"content":"u"}],"response_format":{"type":"json_schema","schema":{"type":"object","required":["a"],"properties":{"a":{"type":"integer"}}}}}"#,
    );
    let plan = plan_completion(&body, Surface::Chat, 50).unwrap();
    let (delta, d) =
        complete(&plan, true, outcome("<think>a</think>{\"a\":\"4\"}", false, true), &mut ids, 1);
    assert_eq!(d.content, "{\"a\":4}");
    match delta {
        Some(Reply::Delta { text, .. }) => assert_eq!(text, "{\"a\":4}"),
        _ => panic!("the value was not streamed"),
    }
    let (_, d) = complete(&plan, false, outcome(" none ", false, true), &mut ids, 1);
    assert_eq!(d.content, "none");
}

#[test]
fn conversations_go_on() {
    let messages = vec![ChatMessage::plain("user", "a")];
    let mut ids = Counters::new();
    let (d, conversation) = run_session(
        messages,
        &vec![],
        true,
        &vec![],
        outcome("t</think>b", false, true),
        &mut ids,
        1,
    );
    assert_eq!(d.content, "b");
    assert_eq!(d.finish, "stop");
    assert_eq!(conversation.len(), 2);
    assert_eq!(conversation[1].role, "assistant");
    assert_eq!(conversation[1].reasoning_content.as_deref(), Some("t"));
    let mut next: Vec<ChatMessage> = conversation.iter().map(|m| m.duplicate()).collect();
    next.push(ChatMessage::plain("user", "c"));
    let r = resumption(&next, &conversation);
    assert_eq!((r.turns, r.diverges), (2, false));
    let other = vec![ChatMessage::plain("user", "z")];
    let r = resumption(&other, &conversation);
    assert_eq!((r.turns, r.diverges), (0, true));
    assert_eq!(string_suffix("abc", "ab"), Some("\nc".to_string()));
    assert_eq!(string_suffix("abc", "abc"), None);
    assert_eq!(string_suffix("abc", "x"), None);
    assert_eq!(next_reading(r, false, ReadingEvent::Begun), ReadingStep::Whole);
    assert_eq!(next_reading(r, true, ReadingEvent::Rewound(false)), ReadingStep::Replace);
    assert_eq!(next_reading(r, true, ReadingEvent::Suffix(0)), ReadingStep::Whole);
    assert_eq!(next_reading(r, true, ReadingEvent::Suffix(4)), ReadingStep::Read);
    let r = Resumption { turns: 2, diverges: true };
    assert_eq!(next_reading(r, true, ReadingEvent::Begun), ReadingStep::Rewind(2));
    assert_eq!(next_reading(r, true, ReadingEvent::Rewound(true)), ReadingStep::Suffix(2));
    assert_eq!(next_reading(r, true, ReadingEvent::Replaced), ReadingStep::Suffix(2));
    let r = Resumption { turns: 2, diverges: false };
    assert_eq!(next_reading(r, true, ReadingEvent::Begun), ReadingStep::Suffix(2));
    let p = prefill(&[1, 2], &[1, 2, 3]);
    assert_eq!((p.reset, p.from), (false, 2));
    let p = prefill(&[1, 4], &[1, 2, 3]);
    assert_eq!((p.reset, p.from), (true, 0));
    assert_eq!(
        check_new_tokens(0).unwrap_err().message(),
        "session request has no new tokens"
    );
    assert!(check_new_tokens(1).is_ok());
    let d = run_wave("x".to_string(), false, 1, 2);
    assert_eq!((d.finish.as_str(), d.completion_tokens), ("length", 2));
}
