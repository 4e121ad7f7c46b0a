//! Requests: routes, bodies, messages and what they ask for.

use lisa::chat::{
    common_prefix, depth_for, has_tools, joined_parts, json_instruction, parallel_tools,
    parse_messages, request_max_tokens, request_seed, request_stops, request_tools, resolve_depth,
    response_format_of, sampler_from, structural_prefix, ChatMessage,
};
use lisa::conform::{repair_json, same_json};
use lisa::http::{
    decision_route, parse_size, route, stream_head, write_chunk, write_response, DecisionRoute,
    RequestHead, Route, Surface,
};
use lisa::normalize::{
    anthropic_system_text, block_content_text, normalize_completion_prompt,
    normalize_messages_body, normalize_responses_body,
};
use lisa::value::Json;

fn json_of(v: serde_json::Value) -> Json {
    match v {
        serde_json::Value::Null => Json::Null,
        serde_json::Value::Bool(b) => Json::Bool(b),
        serde_json::Value::Number(n) => match (n.as_u64(), n.as_i64()) {
            (Some(u), _) => Json::Pos(u),
            (None, Some(i)) => Json::Neg(i),
            (None, None) => Json::Float(n),
        },
        serde_json::Value::String(s) => Json::Str(s),
        serde_json::Value::Array(a) => Json::Arr(a.into_iter().map(json_of).collect()),
        serde_json::Value::Object(o) => {
            Json::Obj(o.into_iter().map(|(k, v)| (k, json_of(v))).collect())
        }
    }
}

fn plain(j: &Json) -> serde_json::Value {
    match j {
        Json::Null => serde_json::Value::Null,
        Json::Bool(b) => serde_json::Value::Bool(*b),
        Json::Pos(n) => serde_json::Value::from(*n),
        Json::Neg(n) => serde_json::Value::from(*n),
        Json::Float(n) => serde_json::Value::Number(n.clone()),
        Json::Str(s) => serde_json::Value::String(s.clone()),
        Json::Arr(v) => serde_json::Value::Array(v.iter().map(plain).collect()),
        Json::Obj(m) => {
            serde_json::Value::Object(m.iter().map(|(k, v)| (k.clone(), plain(v))).collect())
        }
    }
}

fn json(text: &str) -> Json {
    json_of(serde_json::from_str(text).unwrap())
}

fn same(j: &Json, text: &str) {
    let wanted: serde_json::Value = serde_json::from_str(text).unwrap();
    assert_eq!(plain(j), wanted);
}

fn texts(v: &[&str]) -> Vec<String> {
    v.iter().map(|s| s.to_string()).collect()
}

// ---- HTTP ----

#[test]
fn request_lines_give_method_and_path() {
    let mut head = RequestHead::read_request("POST  /v1/messages HTTP/1.1\r\n");
    assert_eq!(head.method, "POST");
    assert_eq!(head.path, "/v1/messages");
    assert_eq!(head.content_length, 0);
    assert!(!head.header("Host: here\r\n"));
    assert!(!head.header("Content-LENGTH:  12 \r\n"));
    assert_eq!(head.content_length, 12);
    assert!(head.header("\r\n"));
    assert_eq!(head.body_length().unwrap(), 12);
}

#[test]
fn unreadable_lengths_are_zero() {
    let mut head = RequestHead::read_request("GET");
    assert_eq!(head.method, "GET");
    assert_eq!(head.path, "");
    head.header("content-length: many\n");
    assert_eq!(head.content_length, 0);
    assert!(head.header("\n"));
    assert_eq!(parse_size(&['4', '2']), Some(42));
    assert_eq!(parse_size(&['+', '7']), Some(7));
    assert_eq!(parse_size(&[]), None);
    assert_eq!(parse_size(&['-', '7']), None);
}

#[test]
fn large_bodies_are_refused() {
    let mut head = RequestHead::read_request("POST / HTTP/1.1");
    head.header("content-length: 8388608");
    assert_eq!(head.body_length().unwrap(), 8_388_608);
    head.header("content-length: 8388609");
    let e = head.body_length().unwrap_err();
    assert_eq!(e.message(), "request body too large (8388609 bytes)");
}

#[test]
fn paths_choose_routes() {
    assert!(matches!(route("GET", "/health"), Route::Health));
    assert!(matches!(route("GET", "/healthz"), Route::Health));
    assert!(matches!(route("GET", "/v1/models/any"), Route::Models));
    assert!(matches!(
        route("POST", "/v1/chat/completions"),
        Route::Dispatch(Surface::Chat)
    ));
    assert!(matches!(
        route("POST", "/v1/completions"),
        Route::Dispatch(Surface::Completions)
    ));
    assert!(matches!(route("POST", "/v1/messages"), Route::Dispatch(Surface::Messages)));
    assert!(matches!(
        route("POST", "/v1/messages/count_tokens"),
        Route::Dispatch(Surface::CountTokens)
    ));
    assert!(matches!(route("POST", "/v1/responses"), Route::Dispatch(Surface::Responses)));
    assert!(matches!(route("POST", "/health"), Route::NotFound));
    match route("GET", "/v1/responses/resp_1") {
        Route::Stored(id) => assert_eq!(id, "resp_1"),
        _ => panic!("a stored response was not found"),
    }
    // The prefix is taken off as often as it stands there.
    match route("GET", "/v1/responses//v1/responses/x") {
        Route::Stored(id) => assert_eq!(id, "x"),
        _ => panic!("a stored response was not found"),
    }
}

#[test]
fn decision_paths_choose_routes() {
    assert!(matches!(decision_route("GET", "/healthz"), DecisionRoute::Health));
    assert!(matches!(decision_route("GET", "/v1/models"), DecisionRoute::Models));
    assert!(matches!(decision_route("POST", "/v1/decisions"), DecisionRoute::Decide));
    assert!(matches!(decision_route("GET", "/v1/decisions"), DecisionRoute::NotFound));
}

#[test]
fn responses_are_framed() {
    let b = write_response("200 OK", "application/json", "{\"a\":\"\u{e9}\"}", "");
    assert_eq!(
        String::from_utf8(b).unwrap(),
        "HTTP/1.1 200 OK\r\nContent-Type: application/json\r\nContent-Length: 10\r\nConnection: close\r\n\r\n{\"a\":\"\u{e9}\"}"
    );
    let b = write_response("404 Not Found", "text/plain", "", "X-A: 1");
    assert_eq!(
        String::from_utf8(b).unwrap(),
        "HTTP/1.1 404 Not Found\r\nContent-Type: text/plain\r\nContent-Length: 0\r\nConnection: close\r\nX-A: 1\r\n\r\n"
    );
}

#[test]
fn chunks_carry_their_length() {
    assert_eq!(write_chunk("").as_slice(), b"0\r\n\r\n");
    assert_eq!(write_chunk("sixteen letters!").as_slice(), b"10\r\nsixteen letters!\r\n");
    assert_eq!(
        stream_head("R: 1"),
        "HTTP/1.1 200 OK\r\nContent-Type: text/event-stream\r\nCache-Control: no-cache\r\nConnection: close\r\nTransfer-Encoding: chunked\r\nR: 1\r\n\r\n"
    );
}

// ---- messages ----

#[test]
fn messages_are_read() {
    let body = json(
        r#"{"system":"be brief","messages":[
            {"role":"user","content":"hi"},
            {"role":"assistant","content":" why </think>  yes"},
            {"content":[{"type":"text","text":"a"},{"type":"image"},{"text":"b"}]},
            {"role":"tool","tool_call_id":"c1","content":"ok","tool_calls":[1]}]}"#,
    );
    let m = parse_messages(&body).unwrap();
    assert_eq!(m.len(), 5);
    assert_eq!((m[0].role.as_str(), m[0].content.as_str()), ("system", "be brief"));
    assert_eq!((m[1].role.as_str(), m[1].content.as_str()), ("user", "hi"));
    assert_eq!(m[2].reasoning_content.as_deref(), Some("why"));
    assert_eq!(m[2].content, "yes");
    assert_eq!((m[3].role.as_str(), m[3].content.as_str()), ("user", "ab"));
    assert_eq!(m[3].parts.as_ref().unwrap().len(), 3);
    assert_eq!(m[4].tool_call_id.as_deref(), Some("c1"));
    assert_eq!(m[4].tool_calls.len(), 1);
    assert!(m[1].parts.is_none());
}

#[test]
fn prompts_stand_for_messages() {
    let m = parse_messages(&json(r#"{"prompt":"say"}"#)).unwrap();
    assert_eq!(m.len(), 1);
    assert_eq!((m[0].role.as_str(), m[0].content.as_str()), ("user", "say"));
    let e = match parse_messages(&json("{}")) {
        Ok(_) => panic!("an empty request was read"),
        Err(e) => e,
    };
    assert_eq!(e.message(), "request has no messages or prompt");
    let parts = vec![json(r#"{"text":"x"}"#), json(r#"{"text":1}"#), json(r#"{"text":"y"}"#)];
    assert_eq!(joined_parts(&parts), "xy");
}

#[test]
fn tool_choice_narrows_the_tools() {
    let tools = r#"[{"function":{"name":"a"}},{"function":{"name":"b"}}]"#;
    let all = json(&format!(r#"{{"tools":{tools}}}"#));
    assert_eq!(request_tools(&all).len(), 2);
    assert!(has_tools(&all));
    let none = json(&format!(r#"{{"tools":{tools},"tool_choice":"none"}}"#));
    assert!(request_tools(&none).is_empty());
    assert!(!has_tools(&none));
    let one = json(&format!(
        r#"{{"tools":{tools},"tool_choice":{{"type":"function","function":{{"name":"b"}}}}}}"#
    ));
    let picked = request_tools(&one);
    assert_eq!(picked.len(), 1);
    same(&picked[0], r#"{"function":{"name":"b"}}"#);
    let nameless = json(&format!(r#"{{"tools":{tools},"tool_choice":{{"type":"function"}}}}"#));
    assert_eq!(request_tools(&nameless).len(), 2);
    assert!(request_tools(&json("{}")).is_empty());
    assert!(parallel_tools(&json("{}")));
    assert!(!parallel_tools(&json(r#"{"parallel_tool_calls":false}"#)));
}

#[test]
fn limits_come_from_the_request() {
    assert_eq!(request_stops(&json(r#"{"stop":"x"}"#)), texts(&["x"]));
    assert_eq!(request_stops(&json(r#"{"stop":["x",1,"y"]}"#)), texts(&["x", "y"]));
    assert!(request_stops(&json(r#"{"stop":3}"#)).is_empty());
    assert_eq!(request_max_tokens(&json(r#"{"max_tokens":5}"#), 9), 5);
    assert_eq!(
        request_max_tokens(&json(r#"{"max_tokens":5,"max_completion_tokens":7}"#), 9),
        7
    );
    // A limit that is no number hides the other one.
    assert_eq!(
        request_max_tokens(&json(r#"{"max_tokens":5,"max_completion_tokens":"7"}"#), 9),
        9
    );
    assert_eq!(depth_for(&json(r#"{"depth":4}"#), 2), 4);
    assert_eq!(resolve_depth(&json("{}"), 2).unwrap(), 2);
    let e = resolve_depth(&json(r#"{"depth":1}"#), 0).unwrap_err();
    assert_eq!(e.message(), "depth 1 is not supported; use 0 (serial) or 2..=6 (MTP)");
    assert_eq!(request_seed(&json(r#"{"seed":3}"#)), 3);
    assert_eq!(request_seed(&json(r#"{"seed":0}"#)), 0x9E37_79B9_7F4A_7C15);
}

#[test]
fn samplers_take_numbers_only() {
    let p = sampler_from(&json(r#"{"temperature":0.5,"top_k":3,"top_p":"all","seed":9}"#), 40);
    assert_eq!(p.top_k, 3);
    assert_eq!(p.seed, 9);
    same(p.temperature.as_ref().unwrap(), "0.5");
    assert!(p.top_p.is_none());
    assert!(p.min_p.is_none());
    assert_eq!(sampler_from(&json("{}"), 40).top_k, 40);
}

#[test]
fn formats_become_schemas() {
    assert!(response_format_of(&json("{}")).is_none());
    assert!(response_format_of(&json(r#"{"response_format":{"type":"text"}}"#)).is_none());
    let any = response_format_of(&json(r#"{"response_format":{"type":"json_object"}}"#)).unwrap();
    same(&any, r#"{"type":"object"}"#);
    let named = response_format_of(&json(
        r#"{"response_format":{"type":"json_schema","json_schema":{"schema":{"type":"string"}}}}"#,
    ))
    .unwrap();
    same(&named, r#"{"type":"string"}"#);
    let bare = response_format_of(&json(
        r#"{"response_format":{"type":"json_schema","schema":{"type":"array"}}}"#,
    ))
    .unwrap();
    same(&bare, r#"{"type":"array"}"#);
    let empty = response_format_of(&json(r#"{"response_format":{"type":"json_schema"}}"#)).unwrap();
    same(&empty, r#"{"type":"object"}"#);
    assert_eq!(
        json_instruction(Some(&named)),
        "Respond with a single valid JSON value that conforms to this JSON Schema and nothing else. Do not include prose, explanations, or markdown code fences.\n{\"type\":\"string\"}"
    );
    assert_eq!(
        json_instruction(Some(&json("{}"))),
        "Respond with a single valid JSON object and nothing else. Do not include prose, explanations, or markdown code fences."
    );
    assert_eq!(json_instruction(None), json_instruction(Some(&json("{}"))));
}

#[test]
fn shared_turns_are_counted() {
    let a = vec![ChatMessage::plain("user", "a"), ChatMessage::plain("user", "b")];
    let b = vec![ChatMessage::plain("user", "a"), ChatMessage::plain("tool", "b")];
    assert_eq!(structural_prefix(&a, &b), 1);
    assert_eq!(structural_prefix(&a, &a), 2);
    assert_eq!(common_prefix(&[1, 2, 3], &[1, 2, 4, 5]), 2);
    assert_eq!(common_prefix(&[], &[1]), 0);
}

// ---- schemas ----

#[test]
fn values_are_brought_to_their_schema() {
    let schema = json(
        r#"{"type":"object","required":["a","b"],"additionalProperties":false,
            "properties":{"a":{"type":"integer"},"b":{"type":"string"},"c":{"type":"boolean"}}}"#,
    );
    let v = repair_json(json(r#"{"a":"12","c":"true","x":1}"#), &schema);
    same(&v, r#"{"a":12,"c":true,"b":""}"#);
    same(&repair_json(json("3"), &schema), "{}");
    let open = json(r#"{"type":"object","properties":{"a":{"type":"number"}}}"#);
    same(&repair_json(json(r#"{"a":"1.5","x":null}"#), &open), r#"{"a":1.5,"x":null}"#);
}

#[test]
fn lists_and_words_are_brought_to_their_schema() {
    let list = json(r#"{"type":"array","items":{"type":"integer"}}"#);
    same(&repair_json(json(r#"[1.9," 7 ",-2.5,"x"]"#), &list), r#"[1,7,-2,"x"]"#);
    let word = json(r#"{"type":"string","enum":["red","green"]}"#);
    same(&repair_json(json(r#""gre""#), &word), r#""green""#);
    same(&repair_json(json(r#""blue""#), &word), r#""blue""#);
    same(&repair_json(json("3"), &word), r#""red""#);
    let only = json(r#"{"type":"string","enum":["red"]}"#);
    same(&repair_json(json(r#""blue""#), &only), r#""red""#);
    let text = json(r#"{"type":"string"}"#);
    same(&repair_json(json(r#"{"k":[1]}"#), &text), r#""{\"k\":[1]}""#);
    same(&repair_json(json("null"), &text), r#""""#);
    same(&repair_json(json(r#""yes""#), &json(r#"{"type":"boolean"}"#)), r#""yes""#);
    same(&repair_json(json("[2]"), &json("{}")), "[2]");
}

#[test]
fn equal_values_are_equal_as_held() {
    assert!(same_json(&json(r#"{"a":1,"b":[true]}"#), &json(r#"{"b":[true],"a":1}"#)));
    assert!(!same_json(&json("1"), &json("1.0")));
    assert!(same_json(&json("1.5"), &json("1.5")));
    assert!(same_json(&json("0.0"), &json("-0.0")));
    assert!(!same_json(&json(r#"{"a":1}"#), &json(r#"{"a":1,"b":2}"#)));
}

// ---- other surfaces ----

#[test]
fn completion_prompts_become_messages() {
    let mut b = json(r#"{"prompt":["a",1,"b"]}"#);
    normalize_completion_prompt(&mut b);
    same(&b, r#"{"prompt":["a",1,"b"],"messages":[{"role":"user","content":"ab"}]}"#);
    let mut b = json(r#"{"messages":[],"prompt":"x"}"#);
    normalize_completion_prompt(&mut b);
    same(&b, r#"{"messages":[],"prompt":"x"}"#);
    let mut b = json("{}");
    normalize_completion_prompt(&mut b);
    same(&b, r#"{"messages":[{"role":"user","content":""}]}"#);
}

#[test]
fn block_texts_are_joined() {
    assert_eq!(anthropic_system_text(&json(r#""s""#)), "s");
    assert_eq!(anthropic_system_text(&json(r#"[{"text":"a"},"b",{"text":"c"}]"#)), "ac");
    assert_eq!(block_content_text(&json(r#"[{"text":"a"},"b",3]"#)), "ab");
    assert_eq!(block_content_text(&json("null")), "");
}

#[test]
fn messages_bodies_become_chats() {
    let mut b = json(
        r#"{"system":[{"text":"sys"}],
            "messages":[
              {"role":"user","content":"q"},
              {"role":"assistant","content":[{"type":"thinking","thinking":"hm"},{"type":"text","text":"t"},{"type":"tool_use","id":"i","name":"f","input":{"k":1}}]},
              {"role":"user","content":[{"type":"tool_result","tool_use_id":"i","content":[{"text":"r"}]}]},
              {"role":"user","content":[{"type":"text","text":"see"},{"type":"image"}]}],
            "tools":[{"name":"f","input_schema":{"type":"object","x":1}}],
            "tool_choice":{"type":"any","disable_parallel_tool_use":true},
            "stop_sequences":["z"],
            "thinking":{"type":"disabled"}}"#,
    );
    normalize_messages_body(&mut b);
    same(
        b.get("messages").unwrap(),
        r#"[{"role":"system","content":"sys"},
            {"role":"user","content":"q"},
            {"role":"assistant","content":"t","reasoning_content":"hm","tool_calls":[{"id":"i","type":"function","function":{"name":"f","arguments":{"k":1}}}]},
            {"role":"tool","tool_call_id":"i","content":"r"},
            {"role":"user","content":[{"type":"text","text":"see"},{"type":"image"}]}]"#,
    );
    same(
        b.get("tools").unwrap(),
        r#"[{"type":"function","function":{"name":"f","description":null,"parameters":{"type":"object","x":1}}}]"#,
    );
    same(b.get("tool_choice").unwrap(), r#""required""#);
    same(b.get("parallel_tool_calls").unwrap(), "false");
    same(b.get("stop").unwrap(), r#"["z"]"#);
    same(b.get("chat_template_kwargs").unwrap(), r#"{"enable_thinking":false}"#);
}

#[test]
fn responses_bodies_become_chats() {
    let mut b = json(
        r#"{"instructions":"sys",
            "input":[
              {"role":"user","content":[{"type":"input_text","text":"a"},{"type":"input_image"}]},
              {"type":"function_call","call_id":"c","name":"f","arguments":"{}"},
              {"type":"function_call_output","call_id":"c","output":"out"},
              {"role":"assistant","content":[{"type":"output_text","text":"b"}]}],
            "tools":[{"type":"function","name":"f"},{"type":"web_search"}],
            "tool_choice":{"type":"function","name":"f"},
            "text":{"format":{"type":"json_schema","schema":{"type":"array"}}},
            "max_output_tokens":12,
            "reasoning":{"effort":"none"}}"#,
    );
    normalize_responses_body(&mut b);
    same(
        b.get("messages").unwrap(),
        r#"[{"role":"system","content":"sys"},
            {"role":"user","content":[{"type":"text","text":"a"},{"type":"image"}]},
            {"role":"assistant","content":"","tool_calls":[{"id":"c","type":"function","function":{"name":"f","arguments":"{}"}}]},
            {"role":"tool","tool_call_id":"c","content":"out"},
            {"role":"assistant","content":"b"}]"#,
    );
    same(
        b.get("tools").unwrap(),
        r#"[{"type":"function","function":{"name":"f","description":null,"parameters":{"type":"object"}}}]"#,
    );
    same(b.get("tool_choice").unwrap(), r#"{"type":"function","function":{"name":"f"}}"#);
    same(
        b.get("response_format").unwrap(),
        r#"{"type":"json_schema","json_schema":{"name":"schema","schema":{"type":"array"}}}"#,
    );
    same(b.get("max_tokens").unwrap(), "12");
    same(b.get("chat_template_kwargs").unwrap(), r#"{"enable_thinking":false}"#);
    let mut b = json(r#"{"input":"hello"}"#);
    normalize_responses_body(&mut b);
    same(b.get("messages").unwrap(), r#"[{"role":"user","content":"hello"}]"#);
}
