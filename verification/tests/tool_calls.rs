//! Tool calls in model text.

use lisa::ids::Counters;
use lisa::tools::extract_tool_calls;
use lisa::value::Json;

fn no_calls_yet() -> Counters {
    Counters { seq: 0, calls: 0, served: 0 }
}

fn extract(text: &str) -> (String, Vec<Json>) {
    let mut ids = no_calls_yet();
    extract_tool_calls(text, &Vec::new(), &mut ids, 7)
}

fn text_at<'a>(call: &'a Json, outer: &str, inner: &str) -> &'a str {
    call.get_in(outer, inner).unwrap().as_str().unwrap()
}

fn arguments(call: &Json) -> serde_json::Value {
    serde_json::from_str(text_at(call, "function", "arguments")).unwrap()
}

#[test]
fn parses_tool_calls() {
    let text = "Sure.\n<tool_call>\n<function=get_weather>\n<parameter=city>Paris</parameter>\n<parameter=units>metric</parameter>\n</function>\n</tool_call>";
    let (content, calls) = extract(text);
    assert_eq!(content, "Sure.");
    assert_eq!(calls.len(), 1);
    assert_eq!(calls[0].get("type").unwrap().as_str(), Some("function"));
    assert_eq!(text_at(&calls[0], "function", "name"), "get_weather");
    let args = arguments(&calls[0]);
    assert_eq!(args["city"], "Paris");
    assert_eq!(args["units"], "metric");
}

#[test]
fn parses_json_form_tool_calls() {
    let t1 = "<tool_call><function=run_command>{\"command\":\"npm test\"}</function></tool_call>";
    let (_, c1) = extract(t1);
    assert_eq!(c1.len(), 1);
    assert_eq!(text_at(&c1[0], "function", "name"), "run_command");
    let a1 = arguments(&c1[0]);
    assert_eq!(a1["command"], "npm test");

    // Unquoted keys must still parse.
    let t1b = "<tool_call><function=read_file>{path:\"README.md\"}</function></tool_call>";
    let (_, c1b) = extract(t1b);
    let a1b = arguments(&c1b[0]);
    assert_eq!(a1b["path"], "README.md");

    // Missing closing brace, plus a stray tag.
    let t2 = "<tool_call><function=run_command>{\"command\":\"node -e \\\"x\\\"\"</parameter></function></tool_call>";
    let (_, c2) = extract(t2);
    let a2 = arguments(&c2[0]);
    assert_eq!(a2["command"], "node -e \"x\"");
}

#[test]
fn salvages_truncated_calls() {
    // Truncated mid-value, no closing tags at all.
    let t = "<tool_call><function=write_file>{\"path\":\"src/defaults.js\",\"content\":\"module.exports = { timeoutMs: 10000, retries: 2 };\n";
    let (_, c) = extract(t);
    let a = arguments(&c[0]);
    assert_eq!(a["path"], "src/defaults.js");

    // Missing final brace, stray closing tag.
    let t2 = "<tool_call><function=run_command>{\"command\":\"node -e \\\"const {slugify}=x\\\"\"</parameter></function></tool_call>";
    let (_, c2) = extract(t2);
    let a2 = arguments(&c2[0]);
    assert_eq!(a2["command"], "node -e \"const {slugify}=x\"");
}

#[test]
fn parses_slugify_call() {
    let t = "<tool_call><function=run_command>{\"command\":\"node -e \\\"const {slugify}=require('./src/slug'); console.log(slugify('Hello World'));\\\"\"</parameter></function></tool_call>";
    let (_, c) = extract(t);
    println!("c={c:?}");
    let a = arguments(&c[0]);
    assert!(a["command"].as_str().unwrap().contains("slugify"));
}

#[test]
fn parses_u_call() {
    let t = "<think></think><tool_call><function=run_command>{\"command\":\"node -e \\\"const u=require('./src/user'); console.log(u.getInitials({first:'Ada',last:'Lovelace'}));\\\" && npm test 2>&1 | tail -20\"</}</function></tool_call>";
    let (_, c) = extract(t);
    assert!(!c.is_empty());
    let a = arguments(&c[0]);
    assert!(a["command"].as_str().unwrap().contains("npm test"));
}

#[test]
fn text_without_calls_is_the_answer() {
    let (content, calls) = extract("plain words");
    assert_eq!(content, "plain words");
    assert!(calls.is_empty());
}
