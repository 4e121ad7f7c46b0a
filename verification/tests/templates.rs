//! Chat templates.

use lisa::chat::ChatMessage;
use lisa::template::{prompt_pairs, render_plan, ChatTemplate, TurnContent};
use lisa::value::Json;

#[test]
fn supports_generation_markers() {
    let src = "{%- macro m(x) -%}\n{%- generation -%}hello {{ x }}{%- endgeneration -%}\n{%- endmacro -%}{{ m(1) }}";
    let t = ChatTemplate::new(src).expect("template parse");
    let out = t.render(&[], false, &vec![], true).expect("render");
    assert!(out.contains("hello 1"), "got {out:?}");
}

#[test]
fn broken_templates_are_refused() {
    let r = ChatTemplate::new("{% if %}");
    match r {
        Ok(_) => panic!("an unfinished tag was accepted"),
        Err(e) => assert!(e.message().starts_with("chat template parse: ")),
    }
}

#[test]
fn templates_see_the_conversation() {
    let src = "{% for m in messages %}[{{ m.role }}|{{ m.content }}|{{ m.reasoning_content }}|{{ m.tool_call_id }}]{% endfor %}{% if tools %}{{ tools | length }}{% endif %}{% if enable_thinking %}T{% endif %}{{ reasoning_effort }}{% if add_generation_prompt %}G{% endif %}";
    let t = ChatTemplate::new(src).expect("template parse");
    let mut answer = ChatMessage::plain("assistant", "b");
    answer.reasoning_content = Some("why".to_string());
    let mut result = ChatMessage::plain("tool", "c");
    result.tool_call_id = Some("id1".to_string());
    let messages = [ChatMessage::plain("user", "a"), answer, result];
    let tools = vec![Json::Obj(vec![("type".to_string(), Json::Str("function".to_string()))])];
    let out = t.render(&messages, true, &tools, true).expect("render");
    assert_eq!(out, "[user|a||][assistant|b|why|][tool|c||id1]1TxhighG");
    let out = t.render(&messages[..1], false, &vec![], false).expect("render");
    assert_eq!(out, "[user|a||]xhigh");
}

#[test]
fn failing_templates_report_their_error() {
    let t = ChatTemplate::new("{{ raise_exception('no such turn') }}").expect("template parse");
    match t.render(&[], false, &vec![], true) {
        Ok(out) => panic!("rendered {out:?}"),
        Err(e) => {
            assert!(e.message().starts_with("chat template render: "));
            assert!(e.message().contains("no such turn"));
        }
    }
}

#[test]
fn parts_stand_in_place_of_the_text() {
    let mut m = ChatMessage::plain("user", "flat");
    m.parts = Some(vec![Json::Str("x".to_string())]);
    let plan = render_plan(&[m, ChatMessage::plain("user", "flat")], true, &vec![], false);
    assert!(matches!(&plan.turns[0].content, TurnContent::Parts(v) if v.len() == 1));
    assert!(matches!(&plan.turns[1].content, TurnContent::Text(s) if s == "flat"));
    assert_eq!(plan.extra.as_object().unwrap().len(), 3);
    assert_eq!(
        prompt_pairs(&[ChatMessage::plain("user", "q")]),
        [("user".to_string(), "q".to_string())]
    );
}
