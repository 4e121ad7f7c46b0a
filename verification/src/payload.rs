//! The JSON of replies on every surface.

use vstd::prelude::*;

use crate::chat::opt_json;
use crate::codec::{float_of, from_text, parsed, whole_float};
use crate::ids::{stamp, stamp_text};
use crate::json::{
    array, copy_list, list_views, no_items, push_item, text_or, value_or, Json, JsonV, Members,
    Object,
};
use crate::reasoning::opt_string;
use crate::text::same_text;

verus! {

broadcast use crate::value::json_view;

/// The name that the served model goes by.
pub open spec fn model_id() -> Seq<char> {
    "qwen3.8-flash-next"@
}

/// A collected reply.
pub struct ReplyData {
    pub content: String,
    pub reasoning: Option<String>,
    pub tool_calls: Vec<Json>,
    pub prompt_tokens: usize,
    pub completion_tokens: usize,
    pub finish: String,
    pub logprobs: Option<Json>,
    pub stop_sequence: Option<String>,
}

/// The view of a collected reply.
#[verifier::ext_equal]
pub ghost struct ReplyV {
    pub content: Seq<char>,
    pub reasoning: Option<Seq<char>>,
    pub tool_calls: Seq<JsonV>,
    pub prompt_tokens: usize,
    pub completion_tokens: usize,
    pub finish: Seq<char>,
    pub logprobs: Option<JsonV>,
    pub stop_sequence: Option<Seq<char>>,
}

impl View for ReplyData {
    type V = ReplyV;

    open spec fn view(&self) -> ReplyV {
        ReplyV {
            content: self.content@,
            reasoning: opt_string(self.reasoning),
            tool_calls: list_views(self.tool_calls@),
            prompt_tokens: self.prompt_tokens,
            completion_tokens: self.completion_tokens,
            finish: self.finish@,
            logprobs: opt_json(self.logprobs),
            stop_sequence: opt_string(self.stop_sequence),
        }
    }
}

impl ReplyV {
    /// The tokens of a reply can be added up.
    pub open spec fn countable(self) -> bool {
        self.prompt_tokens + self.completion_tokens <= usize::MAX
    }
}

fn size(n: usize) -> (j: Json)
    ensures
        j@ == JsonV::Pos(n as u64),
{
    Json::Pos(n as u64)
}

// ---- usage and messages ----

/// How many tokens were read and written.
pub open spec fn usage(prompt: usize, completion: usize) -> JsonV {
    JsonV::Obj(
        Members::empty().push(("prompt_tokens"@, JsonV::Pos(prompt as u64))).push(
            ("completion_tokens"@, JsonV::Pos(completion as u64)),
        ).push(("total_tokens"@, JsonV::Pos((prompt + completion) as usize as u64))),
    )
}

pub fn usage_json(prompt_tokens: usize, completion_tokens: usize) -> (j: Json)
    requires
        prompt_tokens + completion_tokens <= usize::MAX,
    ensures
        j@ == usage(prompt_tokens, completion_tokens),
{
    let mut o = Object::new();
    o.add("prompt_tokens", size(prompt_tokens));
    o.add("completion_tokens", size(completion_tokens));
    o.add("total_tokens", size(prompt_tokens + completion_tokens));
    o.done()
}

/// A reply as a message of the assistant.
pub open spec fn assistant_message(d: ReplyV) -> JsonV {
    let m = Members::empty().push(("role"@, JsonV::Str("assistant"@))).push(
        ("content"@, JsonV::Str(d.content)),
    );
    let m = match d.reasoning {
        Some(r) => m.push(("reasoning_content"@, JsonV::Str(r))),
        None => m,
    };
    JsonV::Obj(
        if d.tool_calls.len() > 0 {
            m.push(("tool_calls"@, JsonV::Arr(d.tool_calls)))
        } else {
            m
        },
    )
}

pub fn assistant_entry(d: &ReplyData) -> (j: Json)
    ensures
        j@ == assistant_message(d@),
{
    let mut o = Object::new();
    o.add_str("role", "assistant");
    o.add_str("content", &d.content);
    match &d.reasoning {
        Some(r) => {
            o.add_str("reasoning_content", r);
        },
        None => {},
    }
    assert(list_views(d.tool_calls@).len() == d.tool_calls@.len());
    if d.tool_calls.len() > 0 {
        o.add("tool_calls", array(copy_list(&d.tool_calls)));
    }
    o.done()
}

/// A reply as a message of the assistant.
pub fn chat_message(d: &ReplyData) -> (j: Json)
    ensures
        j@ == assistant_message(d@),
{
    assistant_entry(d)
}

/// A reply as one choice of a chat completion.
pub open spec fn chat_choice_of(d: ReplyV, index: usize) -> JsonV {
    let m = Members::empty().push(("index"@, JsonV::Pos(index as u64))).push(
        ("message"@, assistant_message(d)),
    ).push(("finish_reason"@, JsonV::Str(d.finish)));
    JsonV::Obj(
        match d.logprobs {
            Some(lp) => m.push(("logprobs"@, lp)),
            None => m,
        },
    )
}

pub fn chat_choice(d: &ReplyData, index: usize) -> (j: Json)
    ensures
        j@ == chat_choice_of(d@, index),
{
    let mut o = Object::new();
    o.add("index", size(index));
    o.add("message", chat_message(d));
    o.add_str("finish_reason", &d.finish);
    match &d.logprobs {
        Some(lp) => {
            o.add("logprobs", lp.duplicate());
        },
        None => {},
    }
    o.done()
}

/// A reply as one choice of a text completion.
pub open spec fn text_choice_of(d: ReplyV, index: usize) -> JsonV {
    JsonV::Obj(
        Members::empty().push(("index"@, JsonV::Pos(index as u64))).push(
            ("text"@, JsonV::Str(d.content)),
        ).push(("logprobs"@, value_or(d.logprobs, JsonV::Null))).push(
            ("finish_reason"@, JsonV::Str(d.finish)),
        ),
    )
}

pub fn completion_choice(d: &ReplyData, index: usize) -> (j: Json)
    ensures
        j@ == text_choice_of(d@, index),
{
    let mut o = Object::new();
    o.add("index", size(index));
    o.add_str("text", &d.content);
    match &d.logprobs {
        Some(lp) => {
            o.add("logprobs", lp.duplicate());
        },
        None => {
            o.add("logprobs", Json::Null);
        },
    }
    o.add_str("finish_reason", &d.finish);
    o.done()
}

/// A choice on the surface of text completions or of chats.
pub open spec fn choice_of(d: ReplyV, text: bool, index: usize) -> JsonV {
    if text {
        text_choice_of(d, index)
    } else {
        chat_choice_of(d, index)
    }
}

pub fn choice(d: &ReplyData, text: bool, index: usize) -> (j: Json)
    ensures
        j@ == choice_of(d@, text, index),
{
    if text {
        completion_choice(d, index)
    } else {
        chat_choice(d, index)
    }
}

/// A completion with the given choices.
pub open spec fn completion_of(
    id: Seq<char>,
    now: u64,
    text: bool,
    choices: Seq<JsonV>,
    prompt: usize,
    completion: usize,
) -> JsonV {
    JsonV::Obj(
        Members::empty().push(("id"@, JsonV::Str(id))).push(
            (
                "object"@,
                JsonV::Str(
                    if text {
                        "text_completion"@
                    } else {
                        "chat.completion"@
                    },
                ),
            ),
        ).push(("created"@, JsonV::Pos(now))).push(("model"@, JsonV::Str(model_id()))).push(
            ("choices"@, JsonV::Arr(choices)),
        ).push(("usage"@, usage(prompt, completion))),
    )
}

/// A completion with the given choices.
pub fn completion_payload(
    id: &str,
    now: u64,
    text: bool,
    choices: Vec<Json>,
    prompt: usize,
    completion: usize,
) -> (j: Json)
    requires
        prompt + completion <= usize::MAX,
    ensures
        j@ == completion_of(id@, now, text, list_views(choices@), prompt, completion),
{
    let mut o = Object::new();
    o.add_str("id", id);
    o.add_str(
        "object",
        if text {
            "text_completion"
        } else {
            "chat.completion"
        },
    );
    o.add("created", Json::Pos(now));
    o.add_str("model", "qwen3.8-flash-next");
    o.add("choices", array(choices));
    o.add("usage", usage_json(prompt, completion));
    o.done()
}

/// The completion of one reply.
pub fn single_payload(d: &ReplyData, text: bool, id: &str, now: u64) -> (j: Json)
    requires
        d@.countable(),
    ensures
        j@ == completion_of(
            id@,
            now,
            text,
            Seq::empty().push(choice_of(d@, text, 0)),
            d@.prompt_tokens,
            d@.completion_tokens,
        ),
{
    let mut choices = no_items();
    push_item(&mut choices, choice(d, text, 0));
    completion_payload(id, now, text, choices, d.prompt_tokens, d.completion_tokens)
}

// ---- messages ----

/// The input of a tool call, as a value.
pub open spec fn call_input(c: JsonV) -> JsonV {
    match c.within("function"@, "arguments"@) {
        Some(a) => match a {
            JsonV::Str(s) => value_or(parsed(s), JsonV::Obj(Members::empty())),
            _ => a,
        },
        None => JsonV::Obj(Members::empty()),
    }
}

fn input_of(c: &Json) -> (j: Json)
    ensures
        j@ == call_input(c@),
{
    match c.get_in("function", "arguments") {
        Some(Json::Str(s)) => match from_text(s) {
            Some(v) => v,
            None => Object::new().done(),
        },
        Some(a) => a.duplicate(),
        None => Object::new().done(),
    }
}

/// A tool call as a block of content.
pub open spec fn tool_use_block(c: JsonV) -> JsonV {
    JsonV::Obj(
        Members::empty().push(("type"@, JsonV::Str("tool_use"@))).push(
            ("id"@, value_or(c.field("id"@), JsonV::Str(""@))),
        ).push(
            ("name"@, JsonV::Str(text_or(c.within("function"@, "name"@), ""@))),
        ).push(("input"@, call_input(c))),
    )
}

fn copied_or(o: Option<&Json>, other: Json) -> (j: Json)
    ensures
        j@ == value_or(crate::json::opt_view(o), other@),
{
    match o {
        Some(v) => v.duplicate(),
        None => other,
    }
}

fn tool_use(c: &Json) -> (j: Json)
    ensures
        j@ == tool_use_block(c@),
{
    let mut o = Object::new();
    o.add_str("type", "tool_use");
    o.add("id", copied_or(c.get("id"), Json::string("")));
    o.add_str(
        "name",
        match c.str_in("function", "name") {
            Some(s) => s,
            None => "",
        },
    );
    o.add("input", input_of(c));
    o.done()
}

/// The blocks of the first `k` tool calls, after those before.
pub open spec fn tool_use_blocks(lead: Seq<JsonV>, v: Seq<JsonV>, k: int) -> Seq<JsonV>
    decreases k,
{
    if k <= 0 {
        lead
    } else {
        tool_use_blocks(lead, v, k - 1).push(tool_use_block(v[k - 1]))
    }
}

pub open spec fn thinking_block(r: Seq<char>) -> JsonV {
    JsonV::Obj(
        Members::empty().push(("type"@, JsonV::Str("thinking"@))).push(
            ("thinking"@, JsonV::Str(r)),
        ).push(("signature"@, JsonV::Str(""@))),
    )
}

pub open spec fn text_block(t: Seq<char>) -> JsonV {
    JsonV::Obj(
        Members::empty().push(("type"@, JsonV::Str("text"@))).push(("text"@, JsonV::Str(t))),
    )
}

/// The content of a reply as blocks: reasoning, text, tool calls.
pub open spec fn content_blocks(d: ReplyV) -> Seq<JsonV> {
    let a = match d.reasoning {
        Some(r) => if r.len() > 0 {
            Seq::empty().push(thinking_block(r))
        } else {
            Seq::empty()
        },
        None => Seq::empty(),
    };
    let b = if d.content.len() > 0 {
        a.push(text_block(d.content))
    } else {
        a
    };
    tool_use_blocks(b, d.tool_calls, d.tool_calls.len() as int)
}

/// Why a reply ended, as the messages surface names it.
pub open spec fn stop_reason(finish: Seq<char>) -> Seq<char> {
    if finish == "tool_calls"@ {
        "tool_use"@
    } else if finish == "length"@ {
        "max_tokens"@
    } else {
        "end_turn"@
    }
}

pub fn reason_of(finish: &str) -> (s: &'static str)
    ensures
        s@ == stop_reason(finish@),
{
    if same_text(finish, "tool_calls") {
        "tool_use"
    } else if same_text(finish, "length") {
        "max_tokens"
    } else {
        "end_turn"
    }
}

/// A reply on the messages surface.
pub open spec fn message_of_reply(d: ReplyV, id: Seq<char>) -> JsonV {
    let tokens = Members::empty().push(("input_tokens"@, JsonV::Pos(d.prompt_tokens as u64))).push(
        ("output_tokens"@, JsonV::Pos(d.completion_tokens as u64)),
    );
    let (reason, sequence) = match d.stop_sequence {
        Some(s) => ("stop_sequence"@, JsonV::Str(s)),
        None => (stop_reason(d.finish), JsonV::Null),
    };
    JsonV::Obj(
        Members::empty().push(("id"@, JsonV::Str(id))).push(
            ("type"@, JsonV::Str("message"@)),
        ).push(("role"@, JsonV::Str("assistant"@))).push(
            ("model"@, JsonV::Str(model_id())),
        ).push(("content"@, JsonV::Arr(content_blocks(d)))).push(
            ("stop_reason"@, JsonV::Str(reason)),
        ).push(("stop_sequence"@, sequence)).push(("usage"@, JsonV::Obj(tokens))),
    )
}

fn blocks(d: &ReplyData) -> (v: Vec<Json>)
    ensures
        list_views(v@) == content_blocks(d@),
{
    let mut v = no_items();
    match &d.reasoning {
        Some(r) => {
            if !r.as_str().is_empty() {
                let mut o = Object::new();
                o.add_str("type", "thinking");
                o.add_str("thinking", r);
                o.add_str("signature", "");
                push_item(&mut v, o.done());
            }
        },
        None => {},
    }
    if !d.content.as_str().is_empty() {
        let mut o = Object::new();
        o.add_str("type", "text");
        o.add_str("text", &d.content);
        push_item(&mut v, o.done());
    }
    let ghost lead = list_views(v@);
    let ghost calls = list_views(d.tool_calls@);
    assert(calls.len() == d.tool_calls@.len());
    let mut i: usize = 0;
    while i < d.tool_calls.len()
        invariant
            i <= d.tool_calls.len(),
            calls == list_views(d.tool_calls@),
            list_views(v@) == tool_use_blocks(lead, calls, i as int),
        decreases d.tool_calls.len() - i,
    {
        assert(calls[i as int] == d.tool_calls@[i as int]@);
        push_item(&mut v, tool_use(&d.tool_calls[i]));
        i += 1;
    }
    v
}

/// A reply on the messages surface.
pub fn messages_payload(d: &ReplyData, id: &str) -> (j: Json)
    ensures
        j@ == message_of_reply(d@, id@),
{
    let mut t = Object::new();
    t.add("input_tokens", size(d.prompt_tokens));
    t.add("output_tokens", size(d.completion_tokens));
    let mut o = Object::new();
    o.add_str("id", id);
    o.add_str("type", "message");
    o.add_str("role", "assistant");
    o.add_str("model", "qwen3.8-flash-next");
    o.add("content", array(blocks(d)));
    match &d.stop_sequence {
        Some(s) => {
            o.add_str("stop_reason", "stop_sequence");
            o.add_str("stop_sequence", s);
        },
        None => {
            o.add_str("stop_reason", reason_of(&d.finish));
            o.add("stop_sequence", Json::Null);
        },
    }
    o.add("usage", t.done());
    o.done()
}

// ---- responses ----

/// A response without output.
pub open spec fn empty_response(id: Seq<char>, status: Seq<char>, now: u64) -> JsonV {
    let format = Members::empty().push(("type"@, JsonV::Str("text"@)));
    let text = Members::empty().push(("format"@, JsonV::Obj(format)));
    JsonV::Obj(
        Members::empty().push(("id"@, JsonV::Str(id))).push(
            ("object"@, JsonV::Str("response"@)),
        ).push(("created_at"@, JsonV::Pos(now))).push(("completed_at"@, JsonV::Null)).push(
            ("status"@, JsonV::Str(status)),
        ).push(("incomplete_details"@, JsonV::Null)).push(
            ("model"@, JsonV::Str(model_id())),
        ).push(("previous_response_id"@, JsonV::Null)).push(
            ("instructions"@, JsonV::Null),
        ).push(("output"@, JsonV::Arr(Seq::empty()))).push(("error"@, JsonV::Null)).push(
            ("tools"@, JsonV::Arr(Seq::empty())),
        ).push(("tool_choice"@, JsonV::Str("auto"@))).push(
            ("truncation"@, JsonV::Str("disabled"@)),
        ).push(("parallel_tool_calls"@, JsonV::Bool(true))).push(
            ("text"@, JsonV::Obj(text)),
        ).push(("top_p"@, JsonV::Float(whole_float(1)))).push(
            ("presence_penalty"@, JsonV::Float(whole_float(0))),
        ).push(("frequency_penalty"@, JsonV::Float(whole_float(0)))).push(
            ("top_logprobs"@, JsonV::Pos(0)),
        ).push(("temperature"@, JsonV::Float(whole_float(1)))).push(
            ("reasoning"@, JsonV::Null),
        ).push(("usage"@, JsonV::Null)).push(("max_output_tokens"@, JsonV::Null)).push(
            ("max_tool_calls"@, JsonV::Null),
        ).push(("store"@, JsonV::Bool(true))).push(("background"@, JsonV::Bool(false))).push(
            ("service_tier"@, JsonV::Str("default"@)),
        ).push(("metadata"@, JsonV::Obj(Members::empty()))).push(
            ("safety_identifier"@, JsonV::Null),
        ).push(("prompt_cache_key"@, JsonV::Null)),
    )
}

/// A response without output.
pub fn empty_response_resource(id: &str, status: &str, now: u64) -> (j: Json)
    ensures
        j@ == empty_response(id@, status@, now),
{
    let mut format = Object::new();
    format.add_str("type", "text");
    let mut text = Object::new();
    text.add("format", format.done());
    let mut o = Object::new();
    o.add_str("id", id);
    o.add_str("object", "response");
    o.add("created_at", Json::Pos(now));
    o.add("completed_at", Json::Null);
    o.add_str("status", status);
    o.add("incomplete_details", Json::Null);
    o.add_str("model", "qwen3.8-flash-next");
    o.add("previous_response_id", Json::Null);
    o.add("instructions", Json::Null);
    o.add("output", array(no_items()));
    o.add("error", Json::Null);
    o.add("tools", array(no_items()));
    o.add_str("tool_choice", "auto");
    o.add_str("truncation", "disabled");
    o.add("parallel_tool_calls", Json::Bool(true));
    o.add("text", text.done());
    o.add("top_p", float_of(1));
    o.add("presence_penalty", float_of(0));
    o.add("frequency_penalty", float_of(0));
    o.add("top_logprobs", Json::Pos(0));
    o.add("temperature", float_of(1));
    o.add("reasoning", Json::Null);
    o.add("usage", Json::Null);
    o.add("max_output_tokens", Json::Null);
    o.add("max_tool_calls", Json::Null);
    o.add("store", Json::Bool(true));
    o.add("background", Json::Bool(false));
    o.add_str("service_tier", "default");
    o.add("metadata", Object::new().done());
    o.add("safety_identifier", Json::Null);
    o.add("prompt_cache_key", Json::Null);
    o.done()
}

/// A piece of output text.
pub open spec fn output_text(t: Seq<char>) -> JsonV {
    JsonV::Obj(
        Members::empty().push(("type"@, JsonV::Str("output_text"@))).push(
            ("text"@, JsonV::Str(t)),
        ).push(("annotations"@, JsonV::Arr(Seq::empty()))),
    )
}

pub fn output_text_part(t: &str) -> (j: Json)
    ensures
        j@ == output_text(t@),
{
    let mut o = Object::new();
    o.add_str("type", "output_text");
    o.add_str("text", t);
    o.add("annotations", array(no_items()));
    o.done()
}

/// Reasoning as an item of output.
pub open spec fn reasoning_item(r: Seq<char>, now: u64) -> JsonV {
    let summary = Members::empty().push(("type"@, JsonV::Str("summary_text"@))).push(
        ("text"@, JsonV::Str(r)),
    );
    JsonV::Obj(
        Members::empty().push(("type"@, JsonV::Str("reasoning"@))).push(
            ("id"@, JsonV::Str(stamp_text("rs_"@, now))),
        ).push(("summary"@, JsonV::Arr(Seq::empty().push(JsonV::Obj(summary))))),
    )
}

/// A message as an item of output.
pub open spec fn message_item(id: Seq<char>, status: Seq<char>, content: Seq<JsonV>) -> JsonV {
    JsonV::Obj(
        Members::empty().push(("type"@, JsonV::Str("message"@))).push(
            ("id"@, JsonV::Str(id)),
        ).push(("status"@, JsonV::Str(status))).push(("role"@, JsonV::Str("assistant"@))).push(
            ("content"@, JsonV::Arr(content)),
        ),
    )
}

pub fn message_entry(id: &str, status: &str, content: Vec<Json>) -> (j: Json)
    ensures
        j@ == message_item(id@, status@, list_views(content@)),
{
    let mut o = Object::new();
    o.add_str("type", "message");
    o.add_str("id", id);
    o.add_str("status", status);
    o.add_str("role", "assistant");
    o.add("content", array(content));
    o.done()
}

/// A call as an item of output.
pub open spec fn call_item(
    id: Seq<char>,
    call_id: JsonV,
    name: JsonV,
    arguments: JsonV,
    status: Seq<char>,
) -> JsonV {
    JsonV::Obj(
        Members::empty().push(("type"@, JsonV::Str("function_call"@))).push(
            ("id"@, JsonV::Str(id)),
        ).push(("call_id"@, call_id)).push(("name"@, name)).push(("arguments"@, arguments)).push(
            ("status"@, JsonV::Str(status)),
        ),
    )
}

pub fn call_entry(id: &str, call_id: Json, name: Json, arguments: Json, status: &str) -> (j: Json)
    ensures
        j@ == call_item(id@, call_id@, name@, arguments@, status@),
{
    let mut o = Object::new();
    o.add_str("type", "function_call");
    o.add_str("id", id);
    o.add("call_id", call_id);
    o.add("name", name);
    o.add("arguments", arguments);
    o.add_str("status", status);
    o.done()
}

/// The id of a tool call.
pub open spec fn call_id_of(c: JsonV) -> JsonV {
    value_or(c.field("id"@), JsonV::Str(""@))
}

/// The name of a tool call's function, as it stands.
pub open spec fn call_name_of(c: JsonV) -> JsonV {
    value_or(c.within("function"@, "name"@), JsonV::Str(""@))
}

pub fn id_of_call(c: &Json) -> (j: Json)
    ensures
        j@ == call_id_of(c@),
{
    copied_or(c.get("id"), Json::string(""))
}

pub fn name_of_call(c: &Json) -> (j: Json)
    ensures
        j@ == call_name_of(c@),
{
    copied_or(c.get_in("function", "name"), Json::string(""))
}

/// The items of the first `k` calls, after those before.
pub open spec fn call_items(lead: Seq<JsonV>, v: Seq<JsonV>, now: u64, k: int) -> Seq<JsonV>
    decreases k,
{
    if k <= 0 {
        lead
    } else {
        call_items(lead, v, now, k - 1).push(
            call_item(
                stamp_text("fc_"@, now),
                call_id_of(v[k - 1]),
                call_name_of(v[k - 1]),
                value_or(v[k - 1].within("function"@, "arguments"@), JsonV::Str(""@)),
                "completed"@,
            ),
        )
    }
}

/// The output of a response: reasoning, message, calls.
pub open spec fn output_items(d: ReplyV, now: u64) -> Seq<JsonV> {
    let a = match d.reasoning {
        Some(r) => if r.len() > 0 {
            Seq::empty().push(reasoning_item(r, now))
        } else {
            Seq::empty()
        },
        None => Seq::empty(),
    };
    let b = if d.content.len() > 0 {
        a.push(
            message_item(
                stamp_text("msg_"@, now),
                "completed"@,
                Seq::empty().push(output_text(d.content)),
            ),
        )
    } else {
        a
    };
    call_items(b, d.tool_calls, now, d.tool_calls.len() as int)
}

/// How many tokens a response took.
pub open spec fn response_usage(d: ReplyV) -> JsonV {
    let cached = Members::empty().push(("cached_tokens"@, JsonV::Pos(0)));
    let thought = Members::empty().push(("reasoning_tokens"@, JsonV::Pos(0)));
    JsonV::Obj(
        Members::empty().push(("input_tokens"@, JsonV::Pos(d.prompt_tokens as u64))).push(
            ("output_tokens"@, JsonV::Pos(d.completion_tokens as u64)),
        ).push(
            (
                "total_tokens"@,
                JsonV::Pos((d.prompt_tokens + d.completion_tokens) as usize as u64),
            ),
        ).push(("input_tokens_details"@, JsonV::Obj(cached))).push(
            ("output_tokens_details"@, JsonV::Obj(thought)),
        ),
    )
}

/// A reply as a response. One that ran out of tokens is incomplete.
pub open spec fn response_of(d: ReplyV, id: Seq<char>, now: u64) -> JsonV {
    let cut = d.finish == "length"@;
    let r = empty_response(
        id,
        if cut {
            "incomplete"@
        } else {
            "completed"@
        },
        now,
    ).with(
        "completed_at"@,
        if cut {
            JsonV::Null
        } else {
            JsonV::Pos(now)
        },
    ).with("output"@, JsonV::Arr(output_items(d, now))).with(
        "output_text"@,
        JsonV::Str(d.content),
    ).with("usage"@, response_usage(d));
    if cut {
        r.with(
            "incomplete_details"@,
            JsonV::Obj(
                Members::empty().push(("reason"@, JsonV::Str("max_output_tokens"@))),
            ),
        )
    } else {
        r
    }
}

fn items(d: &ReplyData, now: u64) -> (v: Vec<Json>)
    ensures
        list_views(v@) == output_items(d@, now),
{
    let mut v = no_items();
    match &d.reasoning {
        Some(r) => {
            if !r.as_str().is_empty() {
                let mut s = Object::new();
                s.add_str("type", "summary_text");
                s.add_str("text", r);
                let mut list = no_items();
                push_item(&mut list, s.done());
                let mut o = Object::new();
                o.add_str("type", "reasoning");
                o.add("id", Json::Str(stamp("rs_", now)));
                o.add("summary", array(list));
                push_item(&mut v, o.done());
            }
        },
        None => {},
    }
    if !d.content.as_str().is_empty() {
        let mut list = no_items();
        push_item(&mut list, output_text_part(&d.content));
        let id = stamp("msg_", now);
        push_item(&mut v, message_entry(&id, "completed", list));
    }
    let ghost lead = list_views(v@);
    let ghost calls = list_views(d.tool_calls@);
    assert(calls.len() == d.tool_calls@.len());
    let mut i: usize = 0;
    while i < d.tool_calls.len()
        invariant
            i <= d.tool_calls.len(),
            calls == list_views(d.tool_calls@),
            list_views(v@) == call_items(lead, calls, now, i as int),
        decreases d.tool_calls.len() - i,
    {
        assert(calls[i as int] == d.tool_calls@[i as int]@);
        let c = &d.tool_calls[i];
        let id = stamp("fc_", now);
        let args = copied_or(c.get_in("function", "arguments"), Json::string(""));
        push_item(&mut v, call_entry(&id, id_of_call(c), name_of_call(c), args, "completed"));
        i += 1;
    }
    v
}

fn token_usage(d: &ReplyData) -> (j: Json)
    requires
        d@.countable(),
    ensures
        j@ == response_usage(d@),
{
    let mut cached = Object::new();
    cached.add("cached_tokens", Json::Pos(0));
    let mut thought = Object::new();
    thought.add("reasoning_tokens", Json::Pos(0));
    let mut o = Object::new();
    o.add("input_tokens", size(d.prompt_tokens));
    o.add("output_tokens", size(d.completion_tokens));
    o.add("total_tokens", size(d.prompt_tokens + d.completion_tokens));
    o.add("input_tokens_details", cached.done());
    o.add("output_tokens_details", thought.done());
    o.done()
}

/// A reply as a response of the given name.
pub fn responses_payload_with_id(d: &ReplyData, id: &str, now: u64) -> (j: Json)
    requires
        d@.countable(),
    ensures
        j@ == response_of(d@, id@, now),
{
    let cut = same_text(&d.finish, "length");
    let mut r = empty_response_resource(
        id,
        if cut {
            "incomplete"
        } else {
            "completed"
        },
        now,
    );
    r.set(
        "completed_at",
        if cut {
            Json::Null
        } else {
            Json::Pos(now)
        },
    );
    r.set("output", array(items(d, now)));
    r.set("output_text", Json::string(&d.content));
    r.set("usage", token_usage(d));
    if cut {
        let mut o = Object::new();
        o.add_str("reason", "max_output_tokens");
        r.set("incomplete_details", o.done());
    }
    r
}

/// What is said of a response that runs in the background.
pub open spec fn queued_response(id: Seq<char>, now: u64) -> JsonV {
    JsonV::Obj(
        Members::empty().push(("id"@, JsonV::Str(id))).push(
            ("object"@, JsonV::Str("response"@)),
        ).push(("created_at"@, JsonV::Pos(now))).push(("status"@, JsonV::Str("queued"@))).push(
            ("model"@, JsonV::Str(model_id())),
        ).push(("output"@, JsonV::Arr(Seq::empty()))).push(
            ("output_text"@, JsonV::Str(""@)),
        ).push(("usage"@, JsonV::Null)),
    )
}

pub fn queued_payload(id: &str, now: u64) -> (j: Json)
    ensures
        j@ == queued_response(id@, now),
{
    let mut o = Object::new();
    o.add_str("id", id);
    o.add_str("object", "response");
    o.add("created_at", Json::Pos(now));
    o.add_str("status", "queued");
    o.add_str("model", "qwen3.8-flash-next");
    o.add("output", array(no_items()));
    o.add_str("output_text", "");
    o.add("usage", Json::Null);
    o.done()
}

// ---- other payloads ----

/// An error of a kind.
pub open spec fn error_of(message: Seq<char>, kind: Seq<char>) -> JsonV {
    let e = Members::empty().push(("message"@, JsonV::Str(message))).push(
        ("type"@, JsonV::Str(kind)),
    );
    JsonV::Obj(Members::empty().push(("error"@, JsonV::Obj(e))))
}

pub fn error_payload(message: &str, kind: &str) -> (j: Json)
    ensures
        j@ == error_of(message@, kind@),
{
    let mut e = Object::new();
    e.add_str("message", message);
    e.add_str("type", kind);
    let mut o = Object::new();
    o.add("error", e.done());
    o.done()
}

/// An error without a kind.
pub open spec fn bare_error(message: Seq<char>) -> JsonV {
    let e = Members::empty().push(("message"@, JsonV::Str(message)));
    JsonV::Obj(Members::empty().push(("error"@, JsonV::Obj(e))))
}

pub fn bare_error_payload(message: &str) -> (j: Json)
    ensures
        j@ == bare_error(message@),
{
    let mut e = Object::new();
    e.add_str("message", message);
    let mut o = Object::new();
    o.add("error", e.done());
    o.done()
}

/// An error of a kind on the messages surface.
pub open spec fn typed_error(message: Seq<char>, kind: Seq<char>) -> JsonV {
    let e = Members::empty().push(("type"@, JsonV::Str(kind))).push(
        ("message"@, JsonV::Str(message)),
    );
    JsonV::Obj(
        Members::empty().push(("type"@, JsonV::Str("error"@))).push(("error"@, JsonV::Obj(e))),
    )
}

pub fn typed_error_payload(message: &str, kind: &str) -> (j: Json)
    ensures
        j@ == typed_error(message@, kind@),
{
    let mut e = Object::new();
    e.add_str("type", kind);
    e.add_str("message", message);
    let mut o = Object::new();
    o.add_str("type", "error");
    o.add("error", e.done());
    o.done()
}

/// The list of one model.
pub open spec fn model_list(id: Seq<char>, owner: Option<Seq<char>>) -> JsonV {
    let m = Members::empty().push(("id"@, JsonV::Str(id))).push(("object"@, JsonV::Str("model"@)));
    let m = match owner {
        Some(o) => m.push(("owned_by"@, JsonV::Str(o))),
        None => m,
    };
    JsonV::Obj(
        Members::empty().push(("object"@, JsonV::Str("list"@))).push(
            ("data"@, JsonV::Arr(Seq::empty().push(JsonV::Obj(m)))),
        ),
    )
}

pub fn models_payload(id: &str, owner: Option<&str>) -> (j: Json)
    ensures
        j@ == model_list(id@, crate::json::opt_text(owner)),
{
    let mut m = Object::new();
    m.add_str("id", id);
    m.add_str("object", "model");
    match owner {
        Some(o) => {
            m.add_str("owned_by", o);
        },
        None => {},
    }
    let mut list = no_items();
    push_item(&mut list, m.done());
    let mut o = Object::new();
    o.add_str("object", "list");
    o.add("data", array(list));
    o.done()
}

/// One number under a key.
pub open spec fn counted(key: Seq<char>, n: usize) -> JsonV {
    JsonV::Obj(Members::empty().push((key, JsonV::Pos(n as u64))))
}

pub fn count_payload(key: &str, n: usize) -> (j: Json)
    ensures
        j@ == counted(key@, n),
{
    let mut o = Object::new();
    o.add(key, size(n));
    o.done()
}

/// One text under a key.
pub open spec fn labelled(key: Seq<char>, s: Seq<char>) -> JsonV {
    JsonV::Obj(Members::empty().push((key, JsonV::Str(s))))
}

pub fn label_payload(key: &str, s: &str) -> (j: Json)
    ensures
        j@ == labelled(key@, s@),
{
    let mut o = Object::new();
    o.add_str(key, s);
    o.done()
}

} // verus!
