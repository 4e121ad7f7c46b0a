//! Prompts: chat templates, by `hf_chat_template`.

use vstd::prelude::*;

use hf_chat_template::ChatTemplate as CompiledTemplate;

use crate::chat::{message_views, ChatMessage, MessageV};
use crate::codec::value_of;
use crate::error::Error;
use crate::json::{copy_list, list_views, Json, JsonV, Members, Object};
use crate::text::cat2;

verus! {

broadcast use crate::value::json_view;

/// A compiled template of `hf_chat_template`.
#[verifier::external_type_specification]
#[verifier::external_body]
pub struct ExTemplate(CompiledTemplate);

/// A message as `hf_chat_template` takes it.
#[verifier::external_type_specification]
#[verifier::external_body]
pub struct ExMessage(hf_chat_template::Message);

// ---- what a template is rendered from ----

/// The content of a turn: a text, or parts.
pub enum TurnContent {
    Text(String),
    Parts(Vec<Json>),
}

/// The view of a turn's content.
pub ghost enum ContentV {
    Text(Seq<char>),
    Parts(Seq<JsonV>),
}

impl View for TurnContent {
    type V = ContentV;

    open spec fn view(&self) -> ContentV {
        match self {
            TurnContent::Text(s) => ContentV::Text(s@),
            TurnContent::Parts(v) => ContentV::Parts(list_views(v@)),
        }
    }
}

/// One turn of a conversation as a template sees it.
pub struct Turn {
    pub role: String,
    pub content: TurnContent,
    pub tool_calls: Vec<Json>,
    pub extra: Json,
}

/// The view of a turn.
pub ghost struct TurnV {
    pub role: Seq<char>,
    pub content: ContentV,
    pub tool_calls: Seq<JsonV>,
    /// The members beside these, as an object.
    pub extra: JsonV,
}

impl View for Turn {
    type V = TurnV;

    open spec fn view(&self) -> TurnV {
        TurnV {
            role: self.role@,
            content: self.content@,
            tool_calls: list_views(self.tool_calls@),
            extra: self.extra@,
        }
    }
}

pub open spec fn turn_views(v: Seq<Turn>) -> Seq<TurnV> {
    v.map_values(|t: Turn| t@)
}

/// Everything that a template is rendered from.
pub struct RenderPlan {
    pub turns: Vec<Turn>,
    pub tools: Vec<Json>,
    pub add_generation_prompt: bool,
    pub extra: Json,
}

/// The view of what a template is rendered from.
pub ghost struct RenderV {
    pub turns: Seq<TurnV>,
    pub tools: Seq<JsonV>,
    pub add_generation_prompt: bool,
    /// The members beside these, as an object.
    pub extra: JsonV,
}

impl View for RenderPlan {
    type V = RenderV;

    open spec fn view(&self) -> RenderV {
        RenderV {
            turns: turn_views(self.turns@),
            tools: list_views(self.tools@),
            add_generation_prompt: self.add_generation_prompt,
            extra: self.extra@,
        }
    }
}

/// A message as a turn. Parts stand in place of the text; reasoning and the name
/// of the answered call are kept beside.
pub open spec fn turn_of(m: MessageV) -> TurnV {
    let e = Members::empty();
    let e = match m.reasoning_content {
        Some(r) => e.push(("reasoning_content"@, JsonV::Str(r))),
        None => e,
    };
    let e = match m.tool_call_id {
        Some(id) => e.push(("tool_call_id"@, JsonV::Str(id))),
        None => e,
    };
    TurnV {
        role: m.role,
        content: match m.parts {
            Some(p) => ContentV::Parts(p),
            None => ContentV::Text(m.content),
        },
        tool_calls: m.tool_calls,
        extra: JsonV::Obj(e),
    }
}

/// What a template is told besides the conversation.
pub open spec fn template_extra(thinking: bool) -> JsonV {
    JsonV::Obj(
        Members::empty().push(("enable_thinking"@, JsonV::Bool(thinking))).push(
            ("reasoning_effort"@, JsonV::Str("xhigh"@)),
        ).push(("preserve_thinking"@, JsonV::Bool(true))),
    )
}

/// Everything that a template is rendered from.
pub open spec fn render_of(
    messages: Seq<MessageV>,
    add_generation_prompt: bool,
    tools: Seq<JsonV>,
    thinking: bool,
) -> RenderV {
    RenderV {
        turns: messages.map_values(|m: MessageV| turn_of(m)),
        tools,
        add_generation_prompt,
        extra: template_extra(thinking),
    }
}

fn make_turn(m: &ChatMessage) -> (t: Turn)
    ensures
        t@ == turn_of(m@),
{
    let mut e = Object::new();
    match &m.reasoning_content {
        Some(r) => {
            e.add_str("reasoning_content", r);
        },
        None => {},
    }
    match &m.tool_call_id {
        Some(id) => {
            e.add_str("tool_call_id", id);
        },
        None => {},
    }
    let content = match &m.parts {
        Some(p) => TurnContent::Parts(copy_list(p)),
        None => TurnContent::Text(m.content.clone()),
    };
    Turn {
        role: m.role.clone(),
        content,
        tool_calls: copy_list(&m.tool_calls),
        extra: e.done(),
    }
}

/// Everything that a template is rendered from.
pub fn render_plan(
    messages: &[ChatMessage],
    add_generation_prompt: bool,
    tools: &Vec<Json>,
    thinking: bool,
) -> (p: RenderPlan)
    ensures
        p@ == render_of(
            message_views(messages@),
            add_generation_prompt,
            list_views(tools@),
            thinking,
        ),
{
    let ghost v = message_views(messages@);
    let ghost want = v.map_values(|m: MessageV| turn_of(m));
    let mut turns: Vec<Turn> = Vec::new();
    let mut i: usize = 0;
    assert(turn_views(turns@) =~= want.take(0));
    while i < messages.len()
        invariant
            i <= messages@.len(),
            v == message_views(messages@),
            want == v.map_values(|m: MessageV| turn_of(m)),
            turn_views(turns@) == want.take(i as int),
        decreases messages.len() - i,
    {
        assert(v[i as int] == messages@[i as int]@);
        let t = make_turn(&messages[i]);
        let ghost before = turn_views(turns@);
        turns.push(t);
        assert(turn_views(turns@) =~= before.push(t@));
        i += 1;
        assert(turn_views(turns@) =~= want.take(i as int));
    }
    assert(want.take(want.len() as int) =~= want);
    let mut e = Object::new();
    e.add("enable_thinking", Json::Bool(thinking));
    e.add_str("reasoning_effort", "xhigh");
    e.add("preserve_thinking", Json::Bool(true));
    RenderPlan { turns, tools: copy_list(tools), add_generation_prompt, extra: e.done() }
}

// ---- templates ----

/// The template that `hf_chat_template` compiles from a source, or the message
/// with which it rejects the source.
pub uninterp spec fn compiled_from(source: Seq<char>) -> Result<CompiledTemplate, Seq<char>>;

/// Compiles a template with `hf_chat_template::ChatTemplate::from_str`.
#[verifier::external_body]
fn compile_template(source: &str) -> (r: Result<CompiledTemplate, String>)
    ensures
        compiled_from(source@) == (match r {
            Ok(t) => Ok::<CompiledTemplate, Seq<char>>(t),
            Err(e) => Err(e@),
        }),
{
    CompiledTemplate::from_str(source).map_err(|e| e.to_string())
}

/// A turn as `hf_chat_template::Message` holds it, field by field.
#[verifier::external_body]
fn outside_message(t: &Turn) -> hf_chat_template::Message {
    let mut m = hf_chat_template::Message::new(t.role.clone(), "");
    m.content = Some(match &t.content {
        TurnContent::Text(s) => hf_chat_template::Content::Text(s.clone()),
        TurnContent::Parts(v) => {
            hf_chat_template::Content::Parts(v.iter().map(value_of).collect())
        },
    });
    m.tool_calls = t.tool_calls.iter().map(value_of).collect();
    if let serde_json::Value::Object(o) = value_of(&t.extra) {
        m.extra = o;
    }
    m
}

/// Whether `hf_chat_template` may make this text of a template and its input, or
/// report this error, at some time. A template may ask for the time, so that one
/// input can have several outcomes.
pub uninterp spec fn may_render(
    t: CompiledTemplate,
    plan: RenderV,
    outcome: Result<Seq<char>, Seq<char>>,
) -> bool;

/// Renders a template with `hf_chat_template::ChatTemplate::render`, or gives the
/// message of its error. What comes back is one of the outcomes that the template
/// may have on that input; which one is left open, as it may rest on the time.
#[verifier::external_body]
fn run_template(t: &CompiledTemplate, plan: &RenderPlan) -> (r: Result<String, String>)
    ensures
        may_render(*t, plan@, text_outcome(r)),
{
    let mut input = hf_chat_template::RenderInput::default();
    input.messages = plan.turns.iter().map(outside_message).collect();
    input.tools = plan.tools.iter().map(value_of).collect();
    input.add_generation_prompt = plan.add_generation_prompt;
    if let serde_json::Value::Object(o) = value_of(&plan.extra) {
        input.extra = o;
    }
    t.render(&input).map_err(|e| e.to_string())
}

/// A checkpoint's chat template.
pub struct ChatTemplate {
    inner: CompiledTemplate,
}

/// A rendering, or the error that is reported in its place.
pub open spec fn render_outcome(r: Result<Seq<char>, Seq<char>>) -> Result<Seq<char>, Seq<char>> {
    match r {
        Ok(s) => Ok(s),
        Err(e) => Err("chat template render: "@ + e),
    }
}

pub open spec fn text_outcome(r: Result<String, String>) -> Result<Seq<char>, Seq<char>> {
    match r {
        Ok(s) => Ok(s@),
        Err(e) => Err(e@),
    }
}

pub open spec fn prompt_outcome(r: Result<String, Error>) -> Result<Seq<char>, Seq<char>> {
    match r {
        Ok(s) => Ok(s@),
        Err(e) => Err(e.text()),
    }
}

/// A rendering, or the error that is reported in its place.
pub fn rendering(r: Result<String, String>) -> (p: Result<String, Error>)
    ensures
        prompt_outcome(p) == render_outcome(text_outcome(r)),
{
    match r {
        Ok(s) => Ok(s),
        Err(e) => Err(Error::Msg(cat2("chat template render: ", &e))),
    }
}

impl ChatTemplate {
    /// The template as `hf_chat_template` holds it.
    pub closed spec fn compiled(self) -> CompiledTemplate {
        self.inner
    }

    /// A template from its source.
    pub fn new(source: &str) -> (r: Result<ChatTemplate, Error>)
        ensures
            match r {
                Ok(t) => compiled_from(source@) == Ok::<CompiledTemplate, Seq<char>>(t.compiled()),
                Err(e) => compiled_from(source@) matches Err(m) && e.text()
                    == "chat template parse: "@ + m,
            },
    {
        match compile_template(source) {
            Ok(inner) => Ok(ChatTemplate { inner }),
            Err(e) => Err(Error::Msg(cat2("chat template parse: ", &e))),
        }
    }

    /// Renders a conversation: what [`render_plan`] makes of it goes into the
    /// template, and [`rendering`] says what becomes of the outcome.
    pub fn render(
        &self,
        messages: &[ChatMessage],
        add_generation_prompt: bool,
        tools: &Vec<Json>,
        thinking: bool,
    ) -> (r: Result<String, Error>)
        ensures
            exists|o: Result<Seq<char>, Seq<char>>|
                #[trigger] may_render(
                    self.compiled(),
                    render_of(
                        message_views(messages@),
                        add_generation_prompt,
                        list_views(tools@),
                        thinking,
                    ),
                    o,
                ) && prompt_outcome(r) == render_outcome(o),
    {
        let plan = render_plan(messages, add_generation_prompt, tools, thinking);
        let o = run_template(&self.inner, &plan);
        let ghost outcome = text_outcome(o);
        assert(may_render(self.compiled(), plan@, outcome));
        let r = rendering(o);
        assert(prompt_outcome(r) == render_outcome(outcome));
        r
    }
}

/// Roles and contents, as far as a prompt without a template goes.
pub open spec fn pairs_of(messages: Seq<MessageV>) -> Seq<(Seq<char>, Seq<char>)> {
    messages.map_values(|m: MessageV| (m.role, m.content))
}

pub open spec fn pair_views(v: Seq<(String, String)>) -> Seq<(Seq<char>, Seq<char>)> {
    v.map_values(|p: (String, String)| (p.0@, p.1@))
}

/// Roles and contents, as far as a prompt without a template goes.
pub fn prompt_pairs(messages: &[ChatMessage]) -> (v: Vec<(String, String)>)
    ensures
        pair_views(v@) == pairs_of(message_views(messages@)),
{
    let ghost want = pairs_of(message_views(messages@));
    let mut v: Vec<(String, String)> = Vec::new();
    let mut i: usize = 0;
    assert(pair_views(v@) =~= want.take(0));
    while i < messages.len()
        invariant
            i <= messages@.len(),
            want == pairs_of(message_views(messages@)),
            pair_views(v@) == want.take(i as int),
        decreases messages.len() - i,
    {
        let ghost before = pair_views(v@);
        let p = (messages[i].role.clone(), messages[i].content.clone());
        v.push(p);
        assert(pair_views(v@) =~= before.push((p.0@, p.1@)));
        i += 1;
        assert(pair_views(v@) =~= want.take(i as int));
    }
    assert(want.take(want.len() as int) =~= want);
    v
}

} // verus!
