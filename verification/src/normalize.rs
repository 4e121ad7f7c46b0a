//! Bodies of other surfaces, brought into the shape of a chat request.

use vstd::prelude::*;

use crate::chat::{any_object, any_object_schema, content_text, joined_parts};
use crate::json::{
    array, copy_list, flag_or, items_in, list_views, no_items, push_item, text_in, text_or,
    value_or, Json, JsonV, Members, Object,
};
use crate::text::same_text;

verus! {

broadcast use crate::value::json_view;

// ---- pieces ----

/// A message of a role.
pub open spec fn role_message(role: Seq<char>, content: JsonV) -> JsonV {
    JsonV::Obj(
        Members::empty().push(("role"@, JsonV::Str(role))).push(("content"@, content)),
    )
}

fn message(role: &str, content: Json) -> (j: Json)
    ensures
        j@ == role_message(role@, content@),
{
    let mut o = Object::new();
    o.add_str("role", role);
    o.add("content", content);
    o.done()
}

/// A part of text.
pub open spec fn text_part(text: Seq<char>) -> JsonV {
    JsonV::Obj(
        Members::empty().push(("type"@, JsonV::Str("text"@))).push(("text"@, JsonV::Str(text))),
    )
}

fn text_piece(text: &str) -> (j: Json)
    ensures
        j@ == text_part(text@),
{
    let mut o = Object::new();
    o.add_str("type", "text");
    o.add_str("text", text);
    o.done()
}

/// A part that stands for an image.
pub open spec fn image_part() -> JsonV {
    JsonV::Obj(Members::empty().push(("type"@, JsonV::Str("image"@))))
}

fn image_piece() -> (j: Json)
    ensures
        j@ == image_part(),
{
    let mut o = Object::new();
    o.add_str("type", "image");
    o.done()
}

/// A tool call of a message.
pub open spec fn message_call(id: JsonV, name: JsonV, arguments: JsonV) -> JsonV {
    let function = Members::empty().push(("name"@, name)).push(("arguments"@, arguments));
    JsonV::Obj(
        Members::empty().push(("id"@, id)).push(("type"@, JsonV::Str("function"@))).push(
            ("function"@, JsonV::Obj(function)),
        ),
    )
}

fn call_entry(id: Json, name: Json, arguments: Json) -> (j: Json)
    ensures
        j@ == message_call(id@, name@, arguments@),
{
    let mut f = Object::new();
    f.add("name", name);
    f.add("arguments", arguments);
    let mut o = Object::new();
    o.add("id", id);
    o.add_str("type", "function");
    o.add("function", f.done());
    o.done()
}

/// The result of a tool.
pub open spec fn tool_message(id: JsonV, content: JsonV) -> JsonV {
    JsonV::Obj(
        Members::empty().push(("role"@, JsonV::Str("tool"@))).push(("tool_call_id"@, id)).push(
            ("content"@, content),
        ),
    )
}

fn tool_entry(id: Json, content: Json) -> (j: Json)
    ensures
        j@ == tool_message(id@, content@),
{
    let mut o = Object::new();
    o.add_str("role", "tool");
    o.add("tool_call_id", id);
    o.add("content", content);
    o.done()
}

/// A tool definition; its parameters stand under `schema_key`.
pub open spec fn tool_definition(t: JsonV, schema_key: Seq<char>) -> JsonV {
    let function = Members::empty().push(
        ("name"@, JsonV::Str(text_or(t.field("name"@), ""@))),
    ).push(("description"@, value_or(t.field("description"@), JsonV::Null))).push(
        ("parameters"@, value_or(t.field(schema_key), any_object())),
    );
    JsonV::Obj(
        Members::empty().push(("type"@, JsonV::Str("function"@))).push(
            ("function"@, JsonV::Obj(function)),
        ),
    )
}

fn copy_or(o: Option<&Json>, other: Json) -> (j: Json)
    ensures
        j@ == value_or(crate::json::opt_view(o), other@),
{
    match o {
        Some(v) => v.duplicate(),
        None => other,
    }
}

fn definition(t: &Json, schema_key: &str) -> (j: Json)
    ensures
        j@ == tool_definition(t@, schema_key@),
{
    let mut f = Object::new();
    f.add_str("name", t.str_or("name", ""));
    f.add("description", copy_or(t.get("description"), Json::Null));
    f.add("parameters", copy_or(t.get(schema_key), any_object_schema()));
    let mut o = Object::new();
    o.add_str("type", "function");
    o.add("function", f.done());
    o.done()
}

/// The choice of one function.
pub open spec fn function_choice(name: Seq<char>) -> JsonV {
    let function = Members::empty().push(("name"@, JsonV::Str(name)));
    JsonV::Obj(
        Members::empty().push(("type"@, JsonV::Str("function"@))).push(
            ("function"@, JsonV::Obj(function)),
        ),
    )
}

fn choose_function(name: &str) -> (j: Json)
    ensures
        j@ == function_choice(name@),
{
    let mut f = Object::new();
    f.add_str("name", name);
    let mut o = Object::new();
    o.add_str("type", "function");
    o.add("function", f.done());
    o.done()
}

/// The template setting that turns thinking off.
pub open spec fn thinking_off() -> JsonV {
    JsonV::Obj(Members::empty().push(("enable_thinking"@, JsonV::Bool(false))))
}

fn no_thinking() -> (j: Json)
    ensures
        j@ == thinking_off(),
{
    let mut o = Object::new();
    o.add("enable_thinking", Json::Bool(false));
    o.done()
}

// ---- completions ----

/// The texts of the first `k` values, one after the other.
pub open spec fn joined_texts(v: Seq<JsonV>, k: int) -> Seq<char>
    decreases k,
{
    if k <= 0 {
        Seq::empty()
    } else {
        joined_texts(v, k - 1) + (match v[k - 1].text() {
            Some(s) => s,
            None => Seq::empty(),
        })
    }
}

/// The text of a prompt: a text, or a list of texts.
pub open spec fn prompt_text(prompt: Option<JsonV>) -> Seq<char> {
    match prompt {
        Some(JsonV::Str(s)) => s,
        Some(JsonV::Arr(a)) => joined_texts(a, a.len() as int),
        _ => Seq::empty(),
    }
}

fn join_texts(a: &Vec<Json>) -> (s: String)
    ensures
        s@ == joined_texts(list_views(a@), a@.len() as int),
{
    let ghost v = list_views(a@);
    let mut s = String::new();
    let mut i: usize = 0;
    assert(s@ =~= Seq::empty());
    while i < a.len()
        invariant
            i <= a.len(),
            v == list_views(a@),
            s@ == joined_texts(v, i as int),
        decreases a.len() - i,
    {
        assert(v[i as int] == a@[i as int]@);
        match a[i].as_str() {
            Some(t) => {
                s.append(t);
            },
            None => {
                assert(s@ + Seq::<char>::empty() =~= s@);
            },
        }
        i += 1;
    }
    s
}

/// A completion request in the shape of a chat: its prompt is what the user
/// says.
pub open spec fn completion_body(b: JsonV) -> JsonV {
    if b.field("messages"@) is Some {
        b
    } else {
        b.with(
            "messages"@,
            JsonV::Arr(
                Seq::empty().push(
                    role_message("user"@, JsonV::Str(prompt_text(b.field("prompt"@)))),
                ),
            ),
        )
    }
}

/// Brings a completion request into the shape of a chat.
pub fn normalize_completion_prompt(body: &mut Json)
    requires
        old(body)@.field("messages"@) is Some || old(body)@.settable(),
    ensures
        final(body)@ == completion_body(old(body)@),
{
    if body.get("messages").is_some() {
        return;
    }
    let text = match body.get("prompt") {
        Some(Json::Str(s)) => s.clone(),
        Some(Json::Arr(a)) => {
            assert(list_views(a@).len() == a@.len());
            join_texts(a)
        },
        _ => {
            let s = String::new();
            assert(s@ =~= Seq::empty());
            s
        },
    };
    let mut list = no_items();
    push_item(&mut list, message("user", Json::Str(text)));
    body.set("messages", array(list));
}

// ---- messages ----

/// The text of a system field: a text, or the texts of its blocks.
pub fn anthropic_system_text(v: &Json) -> (s: String)
    ensures
        s@ == content_text(Some(v@)),
{
    match v {
        Json::Str(s) => s.clone(),
        Json::Arr(blocks) => {
            assert(list_views(blocks@).len() == blocks@.len());
            joined_parts(blocks)
        },
        _ => {
            let s = String::new();
            assert(s@ =~= Seq::empty());
            s
        },
    }
}

/// The text of a block: its text field, or the block itself when it is a text.
pub open spec fn block_text(b: JsonV) -> Seq<char> {
    match text_in(b.field("text"@)) {
        Some(s) => s,
        None => match b.text() {
            Some(s) => s,
            None => Seq::empty(),
        },
    }
}

/// The texts of the first `k` blocks, one after the other.
pub open spec fn block_texts(v: Seq<JsonV>, k: int) -> Seq<char>
    decreases k,
{
    if k <= 0 {
        Seq::empty()
    } else {
        block_texts(v, k - 1) + block_text(v[k - 1])
    }
}

/// The text of a tool's result: a text, or the texts of its blocks.
pub open spec fn result_text(v: JsonV) -> Seq<char> {
    match v {
        JsonV::Str(s) => s,
        JsonV::Arr(blocks) => block_texts(blocks, blocks.len() as int),
        _ => Seq::empty(),
    }
}

/// The text of a tool's result.
pub fn block_content_text(v: &Json) -> (s: String)
    ensures
        s@ == result_text(v@),
{
    match v {
        Json::Str(s) => s.clone(),
        Json::Arr(blocks) => {
            let ghost w = list_views(blocks@);
            assert(w.len() == blocks@.len());
            let mut s = String::new();
            let mut i: usize = 0;
            assert(s@ =~= Seq::empty());
            while i < blocks.len()
                invariant
                    i <= blocks.len(),
                    w == list_views(blocks@),
                    s@ == block_texts(w, i as int),
                decreases blocks.len() - i,
            {
                assert(w[i as int] == blocks@[i as int]@);
                match blocks[i].str_of("text") {
                    Some(t) => {
                        s.append(t);
                    },
                    None => match blocks[i].as_str() {
                        Some(t) => {
                            s.append(t);
                        },
                        None => {
                            assert(s@ + Seq::<char>::empty() =~= s@);
                        },
                    },
                }
                i += 1;
            }
            s
        },
        _ => {
            let s = String::new();
            assert(s@ =~= Seq::empty());
            s
        },
    }
}

/// What the blocks of a message come to: text, reasoning, calls, images, the
/// tool results among them, and whether there was nothing else.
#[verifier::ext_equal]
pub ghost struct Blocks {
    pub text: Seq<char>,
    pub reasoning: Seq<char>,
    pub tool_calls: Seq<JsonV>,
    pub parts: Seq<JsonV>,
    pub results: Seq<JsonV>,
    pub only_results: bool,
}

/// One more block.
pub open spec fn with_block(st: Blocks, b: JsonV) -> Blocks {
    let kind = text_or(b.field("type"@), ""@);
    if kind == "text"@ {
        Blocks {
            text: st.text + text_or(b.field("text"@), ""@),
            only_results: false,
            ..st
        }
    } else if kind == "thinking"@ {
        Blocks {
            reasoning: st.reasoning + text_or(b.field("thinking"@), ""@),
            only_results: false,
            ..st
        }
    } else if kind == "tool_use"@ {
        Blocks {
            tool_calls: st.tool_calls.push(
                message_call(
                    value_or(b.field("id"@), JsonV::Str(""@)),
                    value_or(b.field("name"@), JsonV::Str(""@)),
                    value_or(b.field("input"@), JsonV::Obj(Members::empty())),
                ),
            ),
            only_results: false,
            ..st
        }
    } else if kind == "tool_result"@ {
        Blocks {
            results: st.results.push(
                tool_message(
                    JsonV::Str(text_or(b.field("tool_use_id"@), ""@)),
                    JsonV::Str(result_text(value_or(b.field("content"@), JsonV::Null))),
                ),
            ),
            ..st
        }
    } else if kind == "image"@ {
        Blocks { parts: st.parts.push(image_part()), only_results: false, ..st }
    } else {
        st
    }
}

/// The first `k` blocks.
pub open spec fn blocks_of(v: Seq<JsonV>, k: int) -> Blocks
    decreases k,
{
    if k <= 0 {
        Blocks {
            text: Seq::empty(),
            reasoning: Seq::empty(),
            tool_calls: Seq::empty(),
            parts: Seq::empty(),
            results: Seq::empty(),
            only_results: v.len() > 0,
        }
    } else {
        with_block(blocks_of(v, k - 1), v[k - 1])
    }
}

/// The message of a role that blocks come to.
pub open spec fn block_message(role: Seq<char>, st: Blocks) -> JsonV {
    let content = if st.parts.len() > 0 {
        JsonV::Arr(Seq::empty().push(text_part(st.text)) + st.parts)
    } else {
        JsonV::Str(st.text)
    };
    let m = Members::empty().push(("role"@, JsonV::Str(role))).push(("content"@, content));
    let m = if st.reasoning.len() > 0 {
        m.push(("reasoning_content"@, JsonV::Str(st.reasoning)))
    } else {
        m
    };
    JsonV::Obj(
        if st.tool_calls.len() > 0 {
            m.push(("tool_calls"@, JsonV::Arr(st.tool_calls)))
        } else {
            m
        },
    )
}

/// The chat messages that one message comes to: its tool results, then the
/// message itself unless there was nothing but results.
pub open spec fn converted_message(m: JsonV) -> Seq<JsonV> {
    let role = text_or(m.field("role"@), "user"@);
    match m.field("content"@) {
        Some(JsonV::Str(s)) => Seq::empty().push(role_message(role, JsonV::Str(s))),
        Some(JsonV::Arr(blocks)) => {
            let st = blocks_of(blocks, blocks.len() as int);
            if st.only_results {
                st.results
            } else {
                st.results.push(block_message(role, st))
            }
        },
        _ => Seq::empty(),
    }
}

/// The chat messages of the first `k` messages, after those before.
pub open spec fn converted_messages(lead: Seq<JsonV>, v: Seq<JsonV>, k: int) -> Seq<JsonV>
    decreases k,
{
    if k <= 0 {
        lead
    } else {
        converted_messages(lead, v, k - 1) + converted_message(v[k - 1])
    }
}

/// The chat messages of a body: its system text, then its messages.
pub open spec fn anthropic_messages(b: JsonV) -> Seq<JsonV> {
    let lead = match b.field("system"@) {
        Some(s) => if content_text(Some(s)).len() > 0 {
            Seq::empty().push(role_message("system"@, JsonV::Str(content_text(Some(s)))))
        } else {
            Seq::empty()
        },
        None => Seq::empty(),
    };
    match items_in(b.field("messages"@)) {
        Some(v) => converted_messages(lead, v, v.len() as int),
        None => lead,
    }
}

/// The first `k` tool definitions.
pub open spec fn definitions(v: Seq<JsonV>, schema_key: Seq<char>, k: int) -> Seq<JsonV>
    decreases k,
{
    if k <= 0 {
        Seq::empty()
    } else {
        definitions(v, schema_key, k - 1).push(tool_definition(v[k - 1], schema_key))
    }
}

pub open spec fn with_anthropic_tools(b: JsonV) -> JsonV {
    match items_in(b.field("tools"@)) {
        Some(v) => b.with("tools"@, JsonV::Arr(definitions(v, "input_schema"@, v.len() as int))),
        None => b,
    }
}

/// A choice of tools as the chat surface names it.
pub open spec fn mapped_choice(kind: Seq<char>, choice: JsonV) -> JsonV {
    if kind == "any"@ {
        JsonV::Str("required"@)
    } else if kind == "none"@ {
        JsonV::Str("none"@)
    } else if kind == "tool"@ {
        function_choice(text_or(choice.field("name"@), ""@))
    } else {
        JsonV::Str("auto"@)
    }
}

pub open spec fn with_anthropic_choice(b: JsonV) -> JsonV {
    match b.field("tool_choice"@) {
        Some(tc) => {
            let b1 = match text_in(tc.field("type"@)) {
                Some(kind) => b.with("tool_choice"@, mapped_choice(kind, tc)),
                None => b,
            };
            if flag_or(tc.field("disable_parallel_tool_use"@), false) {
                b1.with("parallel_tool_calls"@, JsonV::Bool(false))
            } else {
                b1
            }
        },
        None => b,
    }
}

pub open spec fn with_anthropic_stops(b: JsonV) -> JsonV {
    match b.field("stop_sequences"@) {
        Some(s) => b.with("stop"@, s),
        None => b,
    }
}

pub open spec fn with_anthropic_thinking(b: JsonV) -> JsonV {
    if text_in(b.within("thinking"@, "type"@)) == Some("disabled"@) {
        b.with("chat_template_kwargs"@, thinking_off())
    } else {
        b
    }
}

/// A messages request in the shape of a chat.
pub open spec fn messages_body(b: JsonV) -> JsonV {
    with_anthropic_thinking(
        with_anthropic_stops(
            with_anthropic_choice(
                with_anthropic_tools(b.with("messages"@, JsonV::Arr(anthropic_messages(b)))),
            ),
        ),
    )
}

struct BlockReader {
    text: String,
    reasoning: String,
    tool_calls: Vec<Json>,
    parts: Vec<Json>,
    results: Vec<Json>,
    only_results: bool,
}

impl BlockReader {
    spec fn state(self) -> Blocks {
        Blocks {
            text: self.text@,
            reasoning: self.reasoning@,
            tool_calls: list_views(self.tool_calls@),
            parts: list_views(self.parts@),
            results: list_views(self.results@),
            only_results: self.only_results,
        }
    }

    fn take(&mut self, b: &Json)
        ensures
            final(self).state() == with_block(old(self).state(), b@),
    {
        let kind = b.str_or("type", "");
        if same_text(kind, "text") {
            self.only_results = false;
            self.text.append(b.str_or("text", ""));
        } else if same_text(kind, "thinking") {
            self.only_results = false;
            self.reasoning.append(b.str_or("thinking", ""));
        } else if same_text(kind, "tool_use") {
            self.only_results = false;
            let j = call_entry(
                copy_or(b.get("id"), Json::string("")),
                copy_or(b.get("name"), Json::string("")),
                copy_or(b.get("input"), Object::new().done()),
            );
            push_item(&mut self.tool_calls, j);
        } else if same_text(kind, "tool_result") {
            let id = b.str_or("tool_use_id", "");
            let content = match b.get("content") {
                Some(c) => block_content_text(c),
                None => block_content_text(&Json::Null),
            };
            let j = tool_entry(Json::string(id), Json::Str(content));
            push_item(&mut self.results, j);
        } else if same_text(kind, "image") {
            self.only_results = false;
            push_item(&mut self.parts, image_piece());
        }
    }
}

fn read_blocks(blocks: &Vec<Json>) -> (r: BlockReader)
    ensures
        r.state() == blocks_of(list_views(blocks@), blocks@.len() as int),
{
    let ghost v = list_views(blocks@);
    assert(v.len() == blocks@.len());
    let mut r = BlockReader {
        text: String::new(),
        reasoning: String::new(),
        tool_calls: no_items(),
        parts: no_items(),
        results: no_items(),
        only_results: blocks.len() > 0,
    };
    let mut i: usize = 0;
    assert(r.state() =~= blocks_of(v, 0));
    while i < blocks.len()
        invariant
            i <= blocks.len(),
            v == list_views(blocks@),
            r.state() == blocks_of(v, i as int),
        decreases blocks.len() - i,
    {
        assert(v[i as int] == blocks@[i as int]@);
        r.take(&blocks[i]);
        i += 1;
    }
    r
}

fn block_entry(role: &str, r: &BlockReader) -> (j: Json)
    ensures
        j@ == block_message(role@, r.state()),
{
    assert(list_views(r.parts@).len() == r.parts@.len());
    assert(list_views(r.tool_calls@).len() == r.tool_calls@.len());
    let content = if r.parts.len() > 0 {
        let mut arr = no_items();
        push_item(&mut arr, text_piece(&r.text));
        let mut more = copy_list(&r.parts);
        let ghost a = list_views(arr@);
        let ghost b = list_views(more@);
        arr.append(&mut more);
        assert(list_views(arr@) =~= a + b);
        array(arr)
    } else {
        Json::Str(r.text.clone())
    };
    let mut o = Object::new();
    o.add_str("role", role);
    o.add("content", content);
    if !r.reasoning.as_str().is_empty() {
        o.add_str("reasoning_content", &r.reasoning);
    }
    if r.tool_calls.len() > 0 {
        o.add("tool_calls", array(copy_list(&r.tool_calls)));
    }
    o.done()
}

fn append_items(out: &mut Vec<Json>, more: Vec<Json>)
    ensures
        list_views(final(out)@) == list_views(old(out)@) + list_views(more@),
{
    let ghost a = list_views(out@);
    let ghost b = list_views(more@);
    let mut more = more;
    out.append(&mut more);
    assert(list_views(out@) =~= a + b);
}

fn convert_message(m: &Json, out: &mut Vec<Json>)
    ensures
        list_views(final(out)@) == list_views(old(out)@) + converted_message(m@),
{
    let ghost before = list_views(out@);
    let role = m.str_or("role", "user");
    match m.get("content") {
        Some(Json::Str(s)) => {
            push_item(out, message(role, Json::Str(s.clone())));
            assert(list_views(out@) =~= before + converted_message(m@));
        },
        Some(Json::Arr(blocks)) => {
            assert(list_views(blocks@).len() == blocks@.len());
            let r = read_blocks(blocks);
            let own = if r.only_results {
                None
            } else {
                Some(block_entry(role, &r))
            };
            append_items(out, r.results);
            match own {
                Some(j) => {
                    push_item(out, j);
                },
                None => {},
            }
            assert(list_views(out@) =~= before + converted_message(m@));
        },
        _ => {
            assert(list_views(out@) =~= before + converted_message(m@));
        },
    }
}

fn define_tools(tools: &Vec<Json>, schema_key: &str) -> (r: Vec<Json>)
    ensures
        list_views(r@) == definitions(
            list_views(tools@),
            schema_key@,
            list_views(tools@).len() as int,
        ),
{
    let ghost v = list_views(tools@);
    let mut r = no_items();
    let mut i: usize = 0;
    while i < tools.len()
        invariant
            i <= tools.len(),
            v == list_views(tools@),
            list_views(r@) == definitions(v, schema_key@, i as int),
        decreases tools.len() - i,
    {
        assert(v[i as int] == tools@[i as int]@);
        push_item(&mut r, definition(&tools[i], schema_key));
        i += 1;
    }
    r
}

fn convert_messages(body: &Json) -> (out: Vec<Json>)
    ensures
        list_views(out@) == anthropic_messages(body@),
{
    let mut out = no_items();
    match body.get("system") {
        Some(sys) => {
            let text = anthropic_system_text(sys);
            if !text.as_str().is_empty() {
                push_item(&mut out, message("system", Json::Str(text)));
            }
        },
        None => {},
    }
    let ghost lead = list_views(out@);
    match body.array_of("messages") {
        Some(arr) => {
            let ghost v = list_views(arr@);
            let mut i: usize = 0;
            while i < arr.len()
                invariant
                    i <= arr.len(),
                    v == list_views(arr@),
                    list_views(out@) == converted_messages(lead, v, i as int),
                decreases arr.len() - i,
            {
                assert(v[i as int] == arr@[i as int]@);
                convert_message(&arr[i], &mut out);
                i += 1;
            }
        },
        None => {},
    }
    out
}

fn map_choice(kind: &str, choice: &Json) -> (j: Json)
    ensures
        j@ == mapped_choice(kind@, choice@),
{
    if same_text(kind, "any") {
        Json::string("required")
    } else if same_text(kind, "none") {
        Json::string("none")
    } else if same_text(kind, "tool") {
        choose_function(choice.str_or("name", ""))
    } else {
        Json::string("auto")
    }
}

/// Brings a messages request into the shape of a chat.
pub fn normalize_messages_body(body: &mut Json)
    requires
        old(body)@.settable(),
    ensures
        final(body)@ == messages_body(old(body)@),
{
    let out = convert_messages(body);
    body.set("messages", array(out));
    let tools = match body.array_of("tools") {
        Some(t) => Some(define_tools(t, "input_schema")),
        None => None,
    };
    match tools {
        Some(t) => {
            body.set("tools", array(t));
        },
        None => {},
    }
    let choice = match body.get("tool_choice") {
        Some(tc) => {
            let mapped = match tc.str_of("type") {
                Some(kind) => Some(map_choice(kind, tc)),
                None => None,
            };
            Some((mapped, tc.bool_or("disable_parallel_tool_use", false)))
        },
        None => None,
    };
    match choice {
        Some(c) => {
            match c.0 {
                Some(j) => {
                    body.set("tool_choice", j);
                },
                None => {},
            }
            if c.1 {
                body.set("parallel_tool_calls", Json::Bool(false));
            }
        },
        None => {},
    }
    let stops = match body.get("stop_sequences") {
        Some(s) => Some(s.duplicate()),
        None => None,
    };
    match stops {
        Some(s) => {
            body.set("stop", s);
        },
        None => {},
    }
    let off = match body.str_in("thinking", "type") {
        Some(t) => same_text(t, "disabled"),
        None => false,
    };
    if off {
        body.set("chat_template_kwargs", no_thinking());
    }
}

// ---- responses ----

/// What the parts of an item come to: its text, and whether it holds an image.
pub open spec fn item_parts(v: Seq<JsonV>, k: int) -> (Seq<char>, bool)
    decreases k,
{
    if k <= 0 {
        (Seq::empty(), false)
    } else {
        let (text, image) = item_parts(v, k - 1);
        match text_in(v[k - 1].field("type"@)) {
            Some(kind) => if kind == "input_text"@ || kind == "output_text"@ {
                (text + text_or(v[k - 1].field("text"@), ""@), image)
            } else if kind == "input_image"@ || kind == "image"@ {
                (text, true)
            } else {
                (text, image)
            },
            None => (text, image),
        }
    }
}

/// The chat message of an item of the input.
pub open spec fn input_message(item: JsonV) -> JsonV {
    let kind = text_in(item.field("type"@));
    if kind == Some("function_call"@) {
        JsonV::Obj(
            Members::empty().push(("role"@, JsonV::Str("assistant"@))).push(
                ("content"@, JsonV::Str(""@)),
            ).push(
                (
                    "tool_calls"@,
                    JsonV::Arr(
                        Seq::empty().push(
                            message_call(
                                value_or(item.field("call_id"@), JsonV::Str(""@)),
                                value_or(item.field("name"@), JsonV::Str(""@)),
                                value_or(item.field("arguments"@), JsonV::Str(""@)),
                            ),
                        ),
                    ),
                ),
            ),
        )
    } else if kind == Some("function_call_output"@) {
        tool_message(
            value_or(item.field("call_id"@), JsonV::Str(""@)),
            value_or(item.field("output"@), JsonV::Str(""@)),
        )
    } else {
        let role = text_or(item.field("role"@), "user"@);
        let (text, image) = match items_in(item.field("content"@)) {
            Some(v) => item_parts(v, v.len() as int),
            None => (Seq::empty(), false),
        };
        role_message(
            role,
            if image {
                JsonV::Arr(Seq::empty().push(text_part(text)).push(image_part()))
            } else {
                JsonV::Str(text)
            },
        )
    }
}

/// The chat messages of the first `k` items, after those before.
pub open spec fn input_messages(lead: Seq<JsonV>, v: Seq<JsonV>, k: int) -> Seq<JsonV>
    decreases k,
{
    if k <= 0 {
        lead
    } else {
        input_messages(lead, v, k - 1).push(input_message(v[k - 1]))
    }
}

/// The chat messages of a body: its instructions, then its input.
pub open spec fn response_messages(b: JsonV) -> Seq<JsonV> {
    let lead = match text_in(b.field("instructions"@)) {
        Some(s) => Seq::empty().push(role_message("system"@, JsonV::Str(s))),
        None => Seq::empty(),
    };
    match b.field("input"@) {
        Some(JsonV::Str(s)) => lead.push(role_message("user"@, JsonV::Str(s))),
        Some(JsonV::Arr(v)) => input_messages(lead, v, v.len() as int),
        _ => lead,
    }
}

/// The definitions of the function tools among the first `k`; a tool without a
/// type is a function.
pub open spec fn function_definitions(v: Seq<JsonV>, k: int) -> Seq<JsonV>
    decreases k,
{
    if k <= 0 {
        Seq::empty()
    } else {
        let before = function_definitions(v, k - 1);
        if text_or(v[k - 1].field("type"@), "function"@) == "function"@ {
            before.push(tool_definition(v[k - 1], "parameters"@))
        } else {
            before
        }
    }
}

pub open spec fn with_response_tools(b: JsonV) -> JsonV {
    match items_in(b.field("tools"@)) {
        Some(v) => b.with("tools"@, JsonV::Arr(function_definitions(v, v.len() as int))),
        None => b,
    }
}

pub open spec fn with_response_choice(b: JsonV) -> JsonV {
    match b.field("tool_choice"@) {
        Some(tc) => match text_in(tc.field("type"@)) {
            Some(kind) => b.with(
                "tool_choice"@,
                if kind == "function"@ {
                    function_choice(text_or(tc.field("name"@), ""@))
                } else {
                    JsonV::Str(kind)
                },
            ),
            None => b,
        },
        None => b,
    }
}

/// The response format that a text format asks for.
pub open spec fn mapped_format(fmt: JsonV) -> Option<JsonV> {
    let kind = text_or(fmt.field("type"@), ""@);
    if kind == "json_object"@ {
        Some(JsonV::Obj(Members::empty().push(("type"@, JsonV::Str("json_object"@)))))
    } else if kind == "json_schema"@ {
        let schema = Members::empty().push(
            ("name"@, value_or(fmt.field("name"@), JsonV::Str("schema"@))),
        ).push(("schema"@, value_or(fmt.field("schema"@), any_object())));
        Some(
            JsonV::Obj(
                Members::empty().push(("type"@, JsonV::Str("json_schema"@))).push(
                    ("json_schema"@, JsonV::Obj(schema)),
                ),
            ),
        )
    } else {
        None
    }
}

pub open spec fn with_response_format(b: JsonV) -> JsonV {
    match b.within("text"@, "format"@) {
        Some(fmt) => match mapped_format(fmt) {
            Some(rf) => b.with("response_format"@, rf),
            None => b,
        },
        None => b,
    }
}

pub open spec fn with_response_limit(b: JsonV) -> JsonV {
    match b.field("max_output_tokens"@) {
        Some(m) => b.with("max_tokens"@, m),
        None => b,
    }
}

pub open spec fn with_response_effort(b: JsonV) -> JsonV {
    if text_in(b.within("reasoning"@, "effort"@)) == Some("none"@) {
        b.with("chat_template_kwargs"@, thinking_off())
    } else {
        b
    }
}

/// A responses request in the shape of a chat.
pub open spec fn responses_body(b: JsonV) -> JsonV {
    with_response_effort(
        with_response_limit(
            with_response_format(
                with_response_choice(
                    with_response_tools(b.with("messages"@, JsonV::Arr(response_messages(b)))),
                ),
            ),
        ),
    )
}

fn read_parts(parts: &Vec<Json>) -> (r: (String, bool))
    ensures
        (r.0@, r.1) == item_parts(list_views(parts@), list_views(parts@).len() as int),
{
    let ghost v = list_views(parts@);
    let mut text = String::new();
    let mut image = false;
    let mut i: usize = 0;
    assert(text@ =~= Seq::empty());
    while i < parts.len()
        invariant
            i <= parts.len(),
            v == list_views(parts@),
            (text@, image) == item_parts(v, i as int),
        decreases parts.len() - i,
    {
        assert(v[i as int] == parts@[i as int]@);
        match parts[i].str_of("type") {
            Some(kind) => {
                if same_text(kind, "input_text") || same_text(kind, "output_text") {
                    text.append(parts[i].str_or("text", ""));
                } else if same_text(kind, "input_image") || same_text(kind, "image") {
                    image = true;
                }
            },
            None => {},
        }
        i += 1;
    }
    (text, image)
}

fn convert_input(item: &Json) -> (j: Json)
    ensures
        j@ == input_message(item@),
{
    let is_call = match item.str_of("type") {
        Some(k) => same_text(k, "function_call"),
        None => false,
    };
    let is_output = match item.str_of("type") {
        Some(k) => same_text(k, "function_call_output"),
        None => false,
    };
    if is_call {
        let mut calls = no_items();
        let c = call_entry(
            copy_or(item.get("call_id"), Json::string("")),
            copy_or(item.get("name"), Json::string("")),
            copy_or(item.get("arguments"), Json::string("")),
        );
        push_item(&mut calls, c);
        let mut o = Object::new();
        o.add_str("role", "assistant");
        o.add_str("content", "");
        o.add("tool_calls", array(calls));
        o.done()
    } else if is_output {
        tool_entry(
            copy_or(item.get("call_id"), Json::string("")),
            copy_or(item.get("output"), Json::string("")),
        )
    } else {
        let role = item.str_or("role", "user");
        let (text, image) = match item.array_of("content") {
            Some(parts) => read_parts(parts),
            None => {
                let s = String::new();
                assert(s@ =~= Seq::empty());
                (s, false)
            },
        };
        if image {
            let mut arr = no_items();
            push_item(&mut arr, text_piece(&text));
            push_item(&mut arr, image_piece());
            message(role, array(arr))
        } else {
            message(role, Json::Str(text))
        }
    }
}

fn convert_response_messages(body: &Json) -> (out: Vec<Json>)
    ensures
        list_views(out@) == response_messages(body@),
{
    let mut out = no_items();
    match body.str_of("instructions") {
        Some(s) => {
            push_item(&mut out, message("system", Json::string(s)));
        },
        None => {},
    }
    let ghost lead = list_views(out@);
    match body.get("input") {
        Some(Json::Str(s)) => {
            push_item(&mut out, message("user", Json::Str(s.clone())));
        },
        Some(Json::Arr(items)) => {
            let ghost v = list_views(items@);
            assert(v.len() == items@.len());
            let mut i: usize = 0;
            while i < items.len()
                invariant
                    i <= items.len(),
                    v == list_views(items@),
                    list_views(out@) == input_messages(lead, v, i as int),
                decreases items.len() - i,
            {
                assert(v[i as int] == items@[i as int]@);
                push_item(&mut out, convert_input(&items[i]));
                i += 1;
            }
        },
        _ => {},
    }
    out
}

fn define_functions(tools: &Vec<Json>) -> (r: Vec<Json>)
    ensures
        list_views(r@) == function_definitions(
            list_views(tools@),
            list_views(tools@).len() as int,
        ),
{
    let ghost v = list_views(tools@);
    let mut r = no_items();
    let mut i: usize = 0;
    while i < tools.len()
        invariant
            i <= tools.len(),
            v == list_views(tools@),
            list_views(r@) == function_definitions(v, i as int),
        decreases tools.len() - i,
    {
        assert(v[i as int] == tools@[i as int]@);
        if same_text(tools[i].str_or("type", "function"), "function") {
            push_item(&mut r, definition(&tools[i], "parameters"));
        }
        i += 1;
    }
    r
}

fn map_format(fmt: &Json) -> (r: Option<Json>)
    ensures
        crate::chat::opt_json(r) == mapped_format(fmt@),
{
    let kind = fmt.str_or("type", "");
    if same_text(kind, "json_object") {
        let mut o = Object::new();
        o.add_str("type", "json_object");
        Some(o.done())
    } else if same_text(kind, "json_schema") {
        let mut s = Object::new();
        s.add("name", copy_or(fmt.get("name"), Json::string("schema")));
        s.add("schema", copy_or(fmt.get("schema"), any_object_schema()));
        let mut o = Object::new();
        o.add_str("type", "json_schema");
        o.add("json_schema", s.done());
        Some(o.done())
    } else {
        None
    }
}

/// Brings a responses request into the shape of a chat.
pub fn normalize_responses_body(body: &mut Json)
    requires
        old(body)@.settable(),
    ensures
        final(body)@ == responses_body(old(body)@),
{
    let out = convert_response_messages(body);
    body.set("messages", array(out));
    let tools = match body.array_of("tools") {
        Some(t) => Some(define_functions(t)),
        None => None,
    };
    match tools {
        Some(t) => {
            body.set("tools", array(t));
        },
        None => {},
    }
    let choice = match body.get("tool_choice") {
        Some(tc) => match tc.str_of("type") {
            Some(kind) => {
                if same_text(kind, "function") {
                    Some(choose_function(tc.str_or("name", "")))
                } else {
                    Some(Json::string(kind))
                }
            },
            None => None,
        },
        None => None,
    };
    match choice {
        Some(j) => {
            body.set("tool_choice", j);
        },
        None => {},
    }
    let format = match body.get_in("text", "format") {
        Some(fmt) => map_format(fmt),
        None => None,
    };
    match format {
        Some(rf) => {
            body.set("response_format", rf);
        },
        None => {},
    }
    let limit = match body.get("max_output_tokens") {
        Some(m) => Some(m.duplicate()),
        None => None,
    };
    match limit {
        Some(m) => {
            body.set("max_tokens", m);
        },
        None => {},
    }
    let off = match body.str_in("reasoning", "effort") {
        Some(t) => same_text(t, "none"),
        None => false,
    };
    if off {
        body.set("chat_template_kwargs", no_thinking());
    }
}

} // verus!
