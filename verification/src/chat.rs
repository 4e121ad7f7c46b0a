//! Chat requests: their messages and what they ask for.

use vstd::prelude::*;

use crate::codec::{rendered, to_text};
use crate::error::Error;
use crate::json::{
    copy_list, flag_or, items_in, list_views, member, natural_in, no_items, push_item, text_in,
    text_or, Json, JsonV, Members, Object,
};
use crate::reasoning::{opt_string, reasoned, split_reasoning};
use crate::text::{cat2, same_text, views};

verus! {

broadcast use crate::value::json_view;

// ---- messages ----

/// One chat message. The reasoning of an assistant is apart from its content;
/// tool calls and content parts are kept as they came.
pub struct ChatMessage {
    pub role: String,
    pub content: String,
    pub reasoning_content: Option<String>,
    pub tool_calls: Vec<Json>,
    pub tool_call_id: Option<String>,
    pub parts: Option<Vec<Json>>,
}

/// The view of a chat message.
#[verifier::ext_equal]
pub ghost struct MessageV {
    pub role: Seq<char>,
    pub content: Seq<char>,
    pub reasoning_content: Option<Seq<char>>,
    pub tool_calls: Seq<JsonV>,
    pub tool_call_id: Option<Seq<char>>,
    pub parts: Option<Seq<JsonV>>,
}

pub open spec fn opt_list(o: Option<Vec<Json>>) -> Option<Seq<JsonV>> {
    match o {
        Some(v) => Some(list_views(v@)),
        None => None,
    }
}

impl View for ChatMessage {
    type V = MessageV;

    open spec fn view(&self) -> MessageV {
        MessageV {
            role: self.role@,
            content: self.content@,
            reasoning_content: opt_string(self.reasoning_content),
            tool_calls: list_views(self.tool_calls@),
            tool_call_id: opt_string(self.tool_call_id),
            parts: opt_list(self.parts),
        }
    }
}

pub open spec fn message_views(v: Seq<ChatMessage>) -> Seq<MessageV> {
    v.map_values(|m: ChatMessage| m@)
}

/// A message of a role with nothing but text.
pub open spec fn plain_message(role: Seq<char>, content: Seq<char>) -> MessageV {
    MessageV {
        role,
        content,
        reasoning_content: None,
        tool_calls: Seq::empty(),
        tool_call_id: None,
        parts: None,
    }
}

impl ChatMessage {
    /// A message of a role with nothing but text.
    pub fn plain(role: &str, content: &str) -> (m: ChatMessage)
        ensures
            m@ == plain_message(role@, content@),
    {
        ChatMessage {
            role: role.to_owned(),
            content: content.to_owned(),
            reasoning_content: None,
            tool_calls: no_items(),
            tool_call_id: None,
            parts: None,
        }
    }

    /// A copy.
    pub fn duplicate(&self) -> (m: ChatMessage)
        ensures
            m@ == self@,
    {
        ChatMessage {
            role: self.role.clone(),
            content: self.content.clone(),
            reasoning_content: copy_text(&self.reasoning_content),
            tool_calls: copy_list(&self.tool_calls),
            tool_call_id: copy_text(&self.tool_call_id),
            parts: match &self.parts {
                Some(v) => Some(copy_list(v)),
                None => None,
            },
        }
    }
}

/// A copy of an optional text.
pub fn copy_text(o: &Option<String>) -> (r: Option<String>)
    ensures
        opt_string(r) == opt_string(*o),
{
    match o {
        Some(s) => Some(s.clone()),
        None => None,
    }
}

/// The texts of the first `k` parts, one after the other; parts without text
/// have none.
pub open spec fn part_texts(parts: Seq<JsonV>, k: int) -> Seq<char>
    decreases k,
{
    if k <= 0 {
        Seq::empty()
    } else {
        part_texts(parts, k - 1) + text_or(parts[k - 1].field("text"@), Seq::empty())
    }
}

/// A content as text: a string, or the texts of its parts.
pub open spec fn content_text(content: Option<JsonV>) -> Seq<char> {
    match content {
        Some(JsonV::Str(s)) => s,
        Some(JsonV::Arr(parts)) => part_texts(parts, parts.len() as int),
        _ => Seq::empty(),
    }
}

/// The texts of parts, one after the other.
pub fn joined_parts(parts: &Vec<Json>) -> (s: String)
    ensures
        s@ == part_texts(list_views(parts@), parts@.len() as int),
{
    let ghost v = list_views(parts@);
    let mut s = String::new();
    let mut i: usize = 0;
    assert(s@ =~= Seq::empty());
    while i < parts.len()
        invariant
            i <= parts.len(),
            v == list_views(parts@),
            s@ == part_texts(v, i as int),
        decreases parts.len() - i,
    {
        assert(v[i as int] == parts@[i as int]@);
        match parts[i].str_of("text") {
            Some(t) => {
                s.append(t);
            },
            None => {
                assert(s@ + Seq::<char>::empty() =~= s@);
            },
        }
        i += 1;
    }
    s
}

fn content_of(m: &Json) -> (s: String)
    ensures
        s@ == content_text(m@.field("content"@)),
{
    match m.get("content") {
        Some(Json::Str(s)) => s.clone(),
        Some(Json::Arr(parts)) => {
            let s = joined_parts(parts);
            assert(list_views(parts@).len() == parts@.len());
            s
        },
        _ => {
            let s = String::new();
            assert(s@ =~= Seq::empty());
            s
        },
    }
}

/// A message of a request. An assistant's reasoning is split off its content
/// unless it comes apart.
pub open spec fn message_of(m: JsonV) -> MessageV {
    let role = text_or(m.field("role"@), "user"@);
    let raw = content_text(m.field("content"@));
    let given = text_in(m.field("reasoning_content"@));
    let (reasoning, content) = if role == "assistant"@ && given is None && reasoned(raw).0 is Some {
        reasoned(raw)
    } else {
        (given, raw)
    };
    MessageV {
        role,
        content,
        reasoning_content: reasoning,
        tool_calls: match items_in(m.field("tool_calls"@)) {
            Some(v) => v,
            None => Seq::empty(),
        },
        tool_call_id: text_in(m.field("tool_call_id"@)),
        parts: items_in(m.field("content"@)),
    }
}

fn read_message(m: &Json) -> (r: ChatMessage)
    ensures
        r@ == message_of(m@),
{
    let role = m.str_or("role", "user").to_owned();
    let raw = content_of(m);
    let mut reasoning: Option<String> = match m.str_of("reasoning_content") {
        Some(s) => Some(s.to_owned()),
        None => None,
    };
    let mut content = raw.clone();
    if same_text(&role, "assistant") && reasoning.is_none() {
        let (r, c) = split_reasoning(&raw);
        if r.is_some() {
            reasoning = r;
            content = c;
        }
    }
    let tool_calls = match m.array_of("tool_calls") {
        Some(v) => copy_list(v),
        None => no_items(),
    };
    let tool_call_id = match m.str_of("tool_call_id") {
        Some(s) => Some(s.to_owned()),
        None => None,
    };
    let parts = match m.array_of("content") {
        Some(v) => Some(copy_list(v)),
        None => None,
    };
    ChatMessage { role, content, reasoning_content: reasoning, tool_calls, tool_call_id, parts }
}

/// The messages of a request: its system text, then its messages or, without
/// them, its prompt.
pub open spec fn messages_of(body: JsonV) -> Seq<MessageV> {
    let system = match text_in(body.field("system"@)) {
        Some(s) => seq![plain_message("system"@, s)],
        None => Seq::empty(),
    };
    let rest = match items_in(body.field("messages"@)) {
        Some(v) => v.map_values(|m: JsonV| message_of(m)),
        None => match text_in(body.field("prompt"@)) {
            Some(p) => seq![plain_message("user"@, p)],
            None => Seq::empty(),
        },
    };
    system + rest
}

/// The messages of a request; there must be one.
pub fn parse_messages(body: &Json) -> (r: Result<Vec<ChatMessage>, Error>)
    ensures
        match r {
            Ok(v) => messages_of(body@).len() > 0 && message_views(v@) == messages_of(body@),
            Err(e) => messages_of(body@).len() == 0 && e.text()
                == "request has no messages or prompt"@,
        },
{
    let mut out: Vec<ChatMessage> = Vec::new();
    match body.str_of("system") {
        Some(s) => {
            out.push(ChatMessage::plain("system", s));
        },
        None => {},
    }
    let ghost lead = message_views(out@);
    assert(lead =~= (match text_in(body@.field("system"@)) {
        Some(s) => seq![plain_message("system"@, s)],
        None => Seq::empty(),
    }));
    match body.array_of("messages") {
        Some(arr) => {
            let ghost v = list_views(arr@);
            let ghost want = v.map_values(|m: JsonV| message_of(m));
            let mut i: usize = 0;
            assert(message_views(out@) =~= lead + want.take(0));
            while i < arr.len()
                invariant
                    i <= arr.len(),
                    v == list_views(arr@),
                    want == v.map_values(|m: JsonV| message_of(m)),
                    message_views(out@) == lead + want.take(i as int),
                decreases arr.len() - i,
            {
                assert(v[i as int] == arr@[i as int]@);
                let m = read_message(&arr[i]);
                let ghost before = message_views(out@);
                out.push(m);
                assert(message_views(out@) =~= before.push(m@));
                i += 1;
                assert(message_views(out@) =~= lead + want.take(i as int));
            }
            assert(want.take(want.len() as int) =~= want);
        },
        None => match body.str_of("prompt") {
            Some(p) => {
                let m = ChatMessage::plain("user", p);
                out.push(m);
                assert(message_views(out@) =~= lead + seq![plain_message("user"@, p@)]);
            },
            None => {
                assert(message_views(out@) =~= lead + Seq::<MessageV>::empty());
            },
        },
    }
    assert(message_views(out@) == messages_of(body@));
    assert(message_views(out@).len() == out@.len());
    if out.len() == 0 {
        return Err(Error::msg("request has no messages or prompt"));
    }
    Ok(out)
}

// ---- what a request asks for ----

/// The name of a tool's function.
pub open spec fn tool_name(t: JsonV) -> Option<Seq<char>> {
    text_in(t.within("function"@, "name"@))
}

/// The tools of a name, in order, among the first `k`.
pub open spec fn tools_named(tools: Seq<JsonV>, name: Seq<char>, k: int) -> Seq<JsonV>
    decreases k,
{
    if k <= 0 {
        Seq::empty()
    } else {
        let before = tools_named(tools, name, k - 1);
        if tool_name(tools[k - 1]) == Some(name) {
            before.push(tools[k - 1])
        } else {
            before
        }
    }
}

/// The tools that a request may use: none when it chooses none, only the chosen
/// function's when it names one, and all of them otherwise.
pub open spec fn tools_of(body: JsonV) -> Seq<JsonV> {
    match items_in(body.field("tools"@)) {
        None => Seq::empty(),
        Some(tools) => match body.field("tool_choice"@) {
            Some(JsonV::Str(s)) => if s == "none"@ {
                Seq::empty()
            } else {
                tools
            },
            Some(JsonV::Obj(m)) => if text_in(member(m, "type"@)) == Some("function"@) {
                match text_in(JsonV::Obj(m).within("function"@, "name"@)) {
                    Some(n) => tools_named(tools, n, tools.len() as int),
                    None => tools,
                }
            } else {
                tools
            },
            _ => tools,
        },
    }
}

/// The tools that a request may use.
pub fn request_tools(body: &Json) -> (v: Vec<Json>)
    ensures
        list_views(v@) == tools_of(body@),
{
    let tools = match body.array_of("tools") {
        Some(t) => t,
        None => {
            return no_items();
        },
    };
    match body.get("tool_choice") {
        Some(Json::Str(s)) => {
            if same_text(s, "none") {
                no_items()
            } else {
                copy_list(tools)
            }
        },
        Some(o) => match o {
            Json::Obj(_) => {
                let is_function = match o.str_of("type") {
                    Some(t) => same_text(t, "function"),
                    None => false,
                };
                if is_function {
                    match o.str_in("function", "name") {
                        Some(n) => pick_tools(tools, n),
                        None => copy_list(tools),
                    }
                } else {
                    copy_list(tools)
                }
            },
            _ => copy_list(tools),
        },
        None => copy_list(tools),
    }
}

fn pick_tools(tools: &Vec<Json>, name: &str) -> (v: Vec<Json>)
    ensures
        list_views(v@) == tools_named(
            list_views(tools@),
            name@,
            list_views(tools@).len() as int,
        ),
{
    let ghost t = list_views(tools@);
    let mut v = no_items();
    let mut i: usize = 0;
    while i < tools.len()
        invariant
            i <= tools.len(),
            t == list_views(tools@),
            list_views(v@) == tools_named(t, name@, i as int),
        decreases tools.len() - i,
    {
        assert(t[i as int] == tools@[i as int]@);
        let hit = match tools[i].str_in("function", "name") {
            Some(n) => same_text(n, name),
            None => false,
        };
        if hit {
            push_item(&mut v, tools[i].duplicate());
        }
        i += 1;
    }
    v
}

/// Whether a request may use tools.
pub fn has_tools(body: &Json) -> (b: bool)
    ensures
        b == (tools_of(body@).len() > 0),
{
    let v = request_tools(body);
    assert(list_views(v@).len() == v@.len());
    v.len() > 0
}

/// Whether a request lets several calls be made at once.
pub open spec fn parallel_of(body: JsonV) -> bool {
    flag_or(body.field("parallel_tool_calls"@), true)
}

pub fn parallel_tools(body: &Json) -> (b: bool)
    ensures
        b == parallel_of(body@),
{
    body.bool_or("parallel_tool_calls", true)
}

/// The texts among the first `k` values.
pub open spec fn texts_among(v: Seq<JsonV>, k: int) -> Seq<Seq<char>>
    decreases k,
{
    if k <= 0 {
        Seq::empty()
    } else {
        match v[k - 1].text() {
            Some(s) => texts_among(v, k - 1).push(s),
            None => texts_among(v, k - 1),
        }
    }
}

/// The stop sequences of a request.
pub open spec fn stops_of(body: JsonV) -> Seq<Seq<char>> {
    match body.field("stop"@) {
        Some(JsonV::Str(s)) => Seq::empty().push(s),
        Some(JsonV::Arr(v)) => texts_among(v, v.len() as int),
        _ => Seq::empty(),
    }
}

pub fn request_stops(body: &Json) -> (v: Vec<String>)
    ensures
        views(v@) == stops_of(body@),
{
    let mut out: Vec<String> = Vec::new();
    assert(views(out@) =~= Seq::empty());
    match body.get("stop") {
        Some(Json::Str(s)) => {
            out.push(s.clone());
            assert(views(out@) =~= Seq::empty().push(s@));
        },
        Some(Json::Arr(a)) => {
            let ghost v = list_views(a@);
            let mut i: usize = 0;
            while i < a.len()
                invariant
                    i <= a.len(),
                    v == list_views(a@),
                    views(out@) == texts_among(v, i as int),
                decreases a.len() - i,
            {
                assert(v[i as int] == a@[i as int]@);
                match a[i].as_str() {
                    Some(s) => {
                        let ghost before = views(out@);
                        out.push(s.to_owned());
                        assert(views(out@) =~= before.push(s@));
                    },
                    None => {},
                }
                i += 1;
            }
        },
        _ => {},
    }
    out
}

/// The most tokens that a request wants, or the server's own limit.
pub open spec fn max_tokens_of(body: JsonV, limit: usize) -> usize {
    let given = match body.field("max_completion_tokens"@) {
        Some(v) => Some(v),
        None => body.field("max_tokens"@),
    };
    match natural_in(given) {
        Some(n) => n as usize,
        None => limit,
    }
}

pub fn request_max_tokens(body: &Json, limit: usize) -> (n: usize)
    ensures
        n == max_tokens_of(body@, limit),
{
    let given = match body.get("max_completion_tokens") {
        Some(v) => Some(v),
        None => body.get("max_tokens"),
    };
    match given {
        Some(v) => match v.as_u64() {
            Some(n) => n as usize,
            None => limit,
        },
        None => limit,
    }
}

/// The draft depth of a request, or the server's own.
pub open spec fn depth_of(body: JsonV, own: usize) -> usize {
    match natural_in(body.field("depth"@)) {
        Some(n) => n as usize,
        None => own,
    }
}

pub fn depth_for(body: &Json, own: usize) -> (d: usize)
    ensures
        d == depth_of(body@, own),
{
    match body.u64_of("depth") {
        Some(n) => n as usize,
        None => own,
    }
}

/// The draft depth of a request. One draft never pays for itself.
pub fn resolve_depth(body: &Json, own: usize) -> (r: Result<usize, Error>)
    ensures
        match r {
            Ok(d) => d == depth_of(body@, own) && d != 1,
            Err(e) => depth_of(body@, own) == 1 && e.text()
                == "depth 1 is not supported; use 0 (serial) or 2..=6 (MTP)"@,
        },
{
    let d = depth_for(body, own);
    if d == 1 {
        return Err(Error::msg("depth 1 is not supported; use 0 (serial) or 2..=6 (MTP)"));
    }
    Ok(d)
}

/// The seed of a request, or the server's own when it is missing or zero.
pub open spec fn seed_of(body: JsonV) -> u64 {
    match natural_in(body.field("seed"@)) {
        Some(n) => if n != 0 {
            n
        } else {
            0x9E37_79B9_7F4A_7C15
        },
        None => 0x9E37_79B9_7F4A_7C15,
    }
}

pub fn request_seed(body: &Json) -> (n: u64)
    ensures
        n == seed_of(body@),
{
    match body.u64_of("seed") {
        Some(n) => {
            if n != 0 {
                n
            } else {
                0x9E37_79B9_7F4A_7C15
            }
        },
        None => 0x9E37_79B9_7F4A_7C15,
    }
}

/// What a request says of sampling: the numbers it gives, each in place of the
/// server's own, the number of candidates, and the seed.
pub struct SamplerPlan {
    pub temperature: Option<Json>,
    pub top_k: usize,
    pub top_p: Option<Json>,
    pub min_p: Option<Json>,
    pub repetition_penalty: Option<Json>,
    pub seed: u64,
}

/// A value, if it is a number.
pub open spec fn number_in(v: Option<JsonV>) -> Option<JsonV> {
    match v {
        Some(j) => match j {
            JsonV::Pos(_) => Some(j),
            JsonV::Neg(_) => Some(j),
            JsonV::Float(_) => Some(j),
            _ => None,
        },
        None => None,
    }
}

pub open spec fn opt_json(o: Option<Json>) -> Option<JsonV> {
    match o {
        Some(j) => Some(j@),
        None => None,
    }
}

fn number_of(body: &Json, key: &str) -> (r: Option<Json>)
    ensures
        opt_json(r) == number_in(body@.field(key@)),
{
    match body.get(key) {
        Some(j) => match j {
            Json::Pos(_) => Some(j.duplicate()),
            Json::Neg(_) => Some(j.duplicate()),
            Json::Float(_) => Some(j.duplicate()),
            _ => None,
        },
        None => None,
    }
}

/// What a request says of sampling.
pub fn sampler_from(body: &Json, top_k: usize) -> (p: SamplerPlan)
    ensures
        opt_json(p.temperature) == number_in(body@.field("temperature"@)),
        p.top_k == (match natural_in(body@.field("top_k"@)) {
            Some(n) => n as usize,
            None => top_k,
        }),
        opt_json(p.top_p) == number_in(body@.field("top_p"@)),
        opt_json(p.min_p) == number_in(body@.field("min_p"@)),
        opt_json(p.repetition_penalty) == number_in(body@.field("repetition_penalty"@)),
        p.seed == seed_of(body@),
{
    let k = match body.u64_of("top_k") {
        Some(n) => n as usize,
        None => top_k,
    };
    SamplerPlan {
        temperature: number_of(body, "temperature"),
        top_k: k,
        top_p: number_of(body, "top_p"),
        min_p: number_of(body, "min_p"),
        repetition_penalty: number_of(body, "repetition_penalty"),
        seed: request_seed(body),
    }
}

// ---- structured output ----

/// The schema of any object.
pub open spec fn any_object() -> JsonV {
    JsonV::Obj(Members::empty().push(("type"@, JsonV::Str("object"@))))
}

pub fn any_object_schema() -> (j: Json)
    ensures
        j@ == any_object(),
{
    let mut o = Object::new();
    o.add_str("type", "object");
    o.done()
}

/// The schema that a request wants its reply to conform to, if any.
pub open spec fn format_of(body: JsonV) -> Option<JsonV> {
    match body.field("response_format"@) {
        None => None,
        Some(rf) => match text_in(rf.field("type"@)) {
            None => None,
            Some(t) => if t == "json_object"@ {
                Some(any_object())
            } else if t == "json_schema"@ {
                match rf.within("json_schema"@, "schema"@) {
                    Some(s) => Some(s),
                    None => match rf.field("schema"@) {
                        Some(s) => Some(s),
                        None => Some(any_object()),
                    },
                }
            } else {
                None
            },
        },
    }
}

/// The schema that a request wants its reply to conform to, if any.
pub fn response_format_of(body: &Json) -> (r: Option<Json>)
    ensures
        opt_json(r) == format_of(body@),
{
    let rf = match body.get("response_format") {
        Some(v) => v,
        None => {
            return None;
        },
    };
    let t = match rf.str_of("type") {
        Some(t) => t,
        None => {
            return None;
        },
    };
    if same_text(t, "json_object") {
        Some(any_object_schema())
    } else if same_text(t, "json_schema") {
        match rf.get_in("json_schema", "schema") {
            Some(s) => Some(s.duplicate()),
            None => match rf.get("schema") {
                Some(s) => Some(s.duplicate()),
                None => Some(any_object_schema()),
            },
        }
    } else {
        None
    }
}

/// The instruction that asks for JSON of a schema; an empty schema asks for any
/// object.
pub open spec fn instruction(schema: Option<JsonV>) -> Seq<char> {
    match schema {
        Some(s) => if s == JsonV::Obj(Members::empty()) {
            "Respond with a single valid JSON object and nothing else. Do not include prose, explanations, or markdown code fences."@
        } else {
            "Respond with a single valid JSON value that conforms to this JSON Schema and nothing else. Do not include prose, explanations, or markdown code fences.\n"@
                + rendered(s)
        },
        None => "Respond with a single valid JSON object and nothing else. Do not include prose, explanations, or markdown code fences."@,
    }
}

/// The instruction that asks for JSON of a schema.
pub fn json_instruction(schema: Option<&Json>) -> (s: String)
    ensures
        s@ == instruction(crate::json::opt_view(schema)),
{
    match schema {
        Some(j) => {
            let empty = match j.as_object() {
                Some(m) => {
                    assert(crate::json::member_views(m@).len() == m@.len());
                    assert(m@.len() == 0 ==> crate::json::member_views(m@) =~= Members::empty());
                    m.len() == 0
                },
                None => false,
            };
            if !empty {
                let t = to_text(j);
                cat2(
                    "Respond with a single valid JSON value that conforms to this JSON Schema and nothing else. Do not include prose, explanations, or markdown code fences.\n",
                    &t,
                )
            } else {
                "Respond with a single valid JSON object and nothing else. Do not include prose, explanations, or markdown code fences.".to_owned()
            }
        },
        None => "Respond with a single valid JSON object and nothing else. Do not include prose, explanations, or markdown code fences.".to_owned(),
    }
}

// ---- shared beginnings ----

/// Two messages that a conversation is matched by.
pub open spec fn same_turn(a: MessageV, b: MessageV) -> bool {
    a.role == b.role && a.content == b.content && a.reasoning_content == b.reasoning_content
}

/// How many messages two conversations share from the start.
pub open spec fn shared_turns(a: Seq<MessageV>, b: Seq<MessageV>, i: int) -> int
    decreases a.len() - i,
{
    if i < 0 || i >= a.len() || i >= b.len() || !same_turn(a[i], b[i]) {
        i
    } else {
        shared_turns(a, b, i + 1)
    }
}

fn same_optional(a: &Option<String>, b: &Option<String>) -> (r: bool)
    ensures
        r == (opt_string(*a) == opt_string(*b)),
{
    match (a, b) {
        (Some(x), Some(y)) => *x == *y,
        (None, None) => true,
        _ => false,
    }
}

/// How many messages two conversations share from the start.
pub fn structural_prefix(a: &[ChatMessage], b: &[ChatMessage]) -> (n: usize)
    ensures
        n == shared_turns(message_views(a@), message_views(b@), 0),
        n <= a@.len(),
        n <= b@.len(),
{
    let ghost x = message_views(a@);
    let ghost y = message_views(b@);
    let mut i: usize = 0;
    while i < a.len() && i < b.len()
        invariant
            i <= a@.len(),
            i <= b@.len(),
            x == message_views(a@),
            y == message_views(b@),
            shared_turns(x, y, 0) == shared_turns(x, y, i as int),
        decreases a.len() - i,
    {
        assert(x[i as int] == a@[i as int]@);
        assert(y[i as int] == b@[i as int]@);
        if a[i].role == b[i].role && a[i].content == b[i].content && same_optional(
            &a[i].reasoning_content,
            &b[i].reasoning_content,
        ) {
            i += 1;
        } else {
            return i;
        }
    }
    i
}

/// How many tokens two lists share from the start.
pub open spec fn shared_tokens(a: Seq<u32>, b: Seq<u32>, i: int) -> int
    decreases a.len() - i,
{
    if i < 0 || i >= a.len() || i >= b.len() || a[i] != b[i] {
        i
    } else {
        shared_tokens(a, b, i + 1)
    }
}

/// How many tokens two lists share from the start.
pub fn common_prefix(a: &[u32], b: &[u32]) -> (n: usize)
    ensures
        n == shared_tokens(a@, b@, 0),
        n <= a@.len(),
        n <= b@.len(),
{
    let mut i: usize = 0;
    while i < a.len() && i < b.len() && a[i] == b[i]
        invariant
            i <= a@.len(),
            i <= b@.len(),
            shared_tokens(a@, b@, 0) == shared_tokens(a@, b@, i as int),
        decreases a.len() - i,
    {
        i += 1;
    }
    i
}

/// The shared beginning is shared, and ends where the lists differ or end.
pub proof fn shared_tokens_are_longest(a: Seq<u32>, b: Seq<u32>)
    ensures
        ({
            let n = shared_tokens(a, b, 0);
            &&& 0 <= n <= a.len()
            &&& n <= b.len()
            &&& a.take(n) == b.take(n)
            &&& n < a.len() && n < b.len() ==> a[n] != b[n]
        }),
{
    lemma_shared_tokens(a, b, 0);
    let n = shared_tokens(a, b, 0);
    assert(a.take(n) =~= b.take(n));
}

proof fn lemma_shared_tokens(a: Seq<u32>, b: Seq<u32>, i: int)
    requires
        0 <= i <= a.len(),
        i <= b.len(),
        forall|j: int| 0 <= j < i ==> a[j] == b[j],
    ensures
        ({
            let n = shared_tokens(a, b, i);
            &&& i <= n <= a.len()
            &&& n <= b.len()
            &&& forall|j: int| 0 <= j < n ==> a[j] == b[j]
            &&& n < a.len() && n < b.len() ==> a[n] != b[n]
        }),
    decreases a.len() - i,
{
    if i < a.len() && i < b.len() && a[i] == b[i] {
        lemma_shared_tokens(a, b, i + 1);
    }
}

} // verus!
