//! Generation: how a request becomes a prompt, what is sent while tokens come,
//! and the reply that they add up to.

use vstd::prelude::*;

use vstd::utf8::{encode_utf8, is_char_boundary};

use crate::chars::{begins, piece, starts_with, trim, trimmed};
use crate::chat::{
    common_prefix, copy_text, format_of, instruction, json_instruction, max_tokens_of,
    message_views, messages_of, opt_json, parallel_of, parallel_tools, parse_messages,
    plain_message, request_max_tokens, request_stops, request_tools, response_format_of,
    shared_tokens, shared_turns, stops_of, structural_prefix, tools_of, ChatMessage, MessageV,
};
use crate::codec::{from_text, parsed, rendered, to_text};
use crate::conform::{conformed, repair_json};
use crate::error::Error;
use crate::http::Surface;
use crate::ids::Counters;
use crate::json::{
    array, copy_list, flag_or, list_views, natural_in, no_items, push_item, text_in, Json, JsonV,
    Members, Object,
};
use crate::payload::{ReplyData, ReplyV};
use crate::reasoning::{
    after_thinking, before_stops, delta, first_stop, growing_text_is_appended, opt_string,
    shown_so_far, stop_in, stopped_in, stream_delta, strip_stops, strip_think_prefix, visible,
};
use crate::scan::{extract_json, json_in};
use crate::stream::{Reply, StepV};
use crate::text::{cat2, cat3, chars_of, same_text, string_of, views};
use crate::tools::{count_on, reply_calls, reply_parts, shape_reply};

verus! {

broadcast use crate::value::json_view;

// ---- prompts ----

/// The place of the first system message.
pub open spec fn system_place(m: Seq<MessageV>, i: int) -> Option<int>
    decreases m.len() - i,
{
    if i < 0 || i >= m.len() {
        None
    } else if m[i].role == "system"@ {
        Some(i)
    } else {
        system_place(m, i + 1)
    }
}

/// A conversation that asks for JSON: the instruction ends the first system
/// message, or comes first as one.
pub open spec fn instructed(m: Seq<MessageV>, schema: Option<JsonV>) -> Seq<MessageV> {
    match schema {
        None => m,
        Some(s) => {
            let text = instruction(Some(s));
            match system_place(m, 0) {
                Some(i) => m.update(
                    i,
                    MessageV { content: m[i].content + "\n\n"@ + text, ..m[i] },
                ),
                None => m.insert(0, plain_message("system"@, text)),
            }
        },
    }
}

/// Whether a request wants no reasoning.
pub open spec fn thinks_not(body: JsonV) -> bool {
    ||| (match body.within("chat_template_kwargs"@, "enable_thinking"@) {
        Some(v) => v.flag() == Some(false),
        None => false,
    })
    ||| text_in(body.field("reasoning_effort"@)) == Some("none"@)
    ||| text_in(body.within("reasoning"@, "effort"@)) == Some("none"@)
}

/// Whether a request wants the probability of each token.
pub open spec fn wants_logprobs(body: JsonV) -> bool {
    flag_or(body.field("logprobs"@), false) || (match natural_in(body.field("top_logprobs"@)) {
        Some(n) => n > 0,
        None => false,
    })
}

/// How a request is generated for.
pub struct Plan {
    /// The messages that the prompt is rendered from.
    pub messages: Vec<ChatMessage>,
    /// The beginning of the reply, if the request gives it.
    pub prefill: Option<String>,
    pub thinking: bool,
    pub schema: Option<Json>,
    pub tools: Vec<Json>,
    pub stops: Vec<String>,
    pub parallel: bool,
    pub max_tokens: usize,
    pub logprobs: bool,
}

/// The view of how a request is generated for.
#[verifier::ext_equal]
pub ghost struct PlanV {
    pub messages: Seq<MessageV>,
    pub prefill: Option<Seq<char>>,
    pub thinking: bool,
    pub schema: Option<JsonV>,
    pub tools: Seq<JsonV>,
    pub stops: Seq<Seq<char>>,
    pub parallel: bool,
    pub max_tokens: usize,
    pub logprobs: bool,
}

impl View for Plan {
    type V = PlanV;

    open spec fn view(&self) -> PlanV {
        PlanV {
            messages: message_views(self.messages@),
            prefill: opt_string(self.prefill),
            thinking: self.thinking,
            schema: opt_json(self.schema),
            tools: list_views(self.tools@),
            stops: views(self.stops@),
            parallel: self.parallel,
            max_tokens: self.max_tokens,
            logprobs: self.logprobs,
        }
    }
}

/// How a request is generated for. On the messages surface a last message of the
/// assistant is the beginning of the reply, which then goes on without reasoning.
pub open spec fn plan_of(body: JsonV, surface: Surface, limit: usize) -> PlanV {
    let schema = format_of(body);
    let m = instructed(messages_of(body), schema);
    let given = surface == Surface::Messages && m.len() > 0 && m.last().role == "assistant"@;
    PlanV {
        messages: if given {
            m.drop_last()
        } else {
            m
        },
        prefill: if given {
            Some(m.last().content)
        } else {
            None
        },
        thinking: !given && surface != Surface::Completions && !thinks_not(body),
        schema,
        tools: tools_of(body),
        stops: stops_of(body),
        parallel: parallel_of(body),
        max_tokens: max_tokens_of(body, limit),
        logprobs: wants_logprobs(body),
    }
}

fn add_instruction(messages: Vec<ChatMessage>, schema: &Option<Json>) -> (r: Vec<ChatMessage>)
    ensures
        message_views(r@) == instructed(message_views(messages@), opt_json(*schema)),
{
    let mut out = messages;
    let ghost v = message_views(out@);
    match schema {
        None => {},
        Some(s) => {
            let text = json_instruction(Some(s));
            let mut i: usize = 0;
            while i < out.len() && !same_text(&out[i].role, "system")
                invariant
                    i <= out@.len(),
                    v == message_views(out@),
                    system_place(v, 0) == system_place(v, i as int),
                decreases out.len() - i,
            {
                assert(v[i as int] == out@[i as int]@);
                i += 1;
            }
            if i < out.len() {
                assert(v[i as int] == out@[i as int]@);
                let content = cat3(&out[i].content, "\n\n", &text);
                let m = ChatMessage { content, ..out[i].duplicate() };
                out.set(i, m);
                assert(message_views(out@) =~= v.update(i as int, m@));
            } else {
                let m = ChatMessage::plain("system", &text);
                out.insert(0, m);
                assert(message_views(out@) =~= v.insert(0, m@));
            }
        },
    }
    out
}

fn text_is(t: Option<&str>, s: &str) -> (b: bool)
    ensures
        b == (crate::json::opt_text(t) == Some(s@)),
{
    match t {
        Some(x) => same_text(x, s),
        None => false,
    }
}

/// Whether a request wants no reasoning.
pub fn thinking_is_off(body: &Json) -> (b: bool)
    ensures
        b == thinks_not(body@),
{
    let off = match body.get_in("chat_template_kwargs", "enable_thinking") {
        Some(v) => match v.as_bool() {
            Some(f) => !f,
            None => false,
        },
        None => false,
    };
    off || text_is(body.str_of("reasoning_effort"), "none") || text_is(
        body.str_in("reasoning", "effort"),
        "none",
    )
}

/// Whether a request wants the probability of each token.
pub fn logprobs_wanted(body: &Json) -> (b: bool)
    ensures
        b == wants_logprobs(body@),
{
    body.bool_or("logprobs", false) || (match body.u64_of("top_logprobs") {
        Some(n) => n > 0,
        None => false,
    })
}

/// How a request is generated for.
pub fn plan_completion(body: &Json, surface: Surface, limit: usize) -> (r: Result<Plan, Error>)
    ensures
        match r {
            Ok(p) => messages_of(body@).len() > 0 && p@ == plan_of(body@, surface, limit),
            Err(e) => messages_of(body@).len() == 0 && e.text()
                == "request has no messages or prompt"@,
        },
{
    let messages = match parse_messages(body) {
        Ok(m) => m,
        Err(e) => {
            return Err(e);
        },
    };
    let schema = response_format_of(body);
    let mut messages = add_instruction(messages, &schema);
    let ghost m = message_views(messages@);
    assert(m.len() == messages@.len());
    let n = messages.len();
    let given = surface == Surface::Messages && n > 0 && same_text(
        &messages[n - 1].role,
        "assistant",
    );
    let mut prefill: Option<String> = None;
    if given {
        assert(m.last() == messages@[n - 1]@);
        match messages.pop() {
            Some(last) => {
                prefill = Some(last.content);
            },
            None => {},
        }
        assert(message_views(messages@) =~= m.drop_last());
    }
    let thinking = !given && surface != Surface::Completions && !thinking_is_off(body);
    Ok(
        Plan {
            messages,
            prefill,
            thinking,
            schema,
            tools: request_tools(body),
            stops: request_stops(body),
            parallel: parallel_tools(body),
            max_tokens: request_max_tokens(body, limit),
            logprobs: logprobs_wanted(body),
        },
    )
}

/// The prompt: what was rendered, then the beginning of the reply.
pub fn whole_prompt(rendered: &str, prefill: &Option<String>) -> (s: String)
    ensures
        s@ == rendered@ + (match opt_string(*prefill) {
            Some(p) => p,
            None => Seq::empty(),
        }),
{
    match prefill {
        Some(p) => cat2(rendered, p),
        None => {
            assert(rendered@ + Seq::<char>::empty() =~= rendered@);
            rendered.to_owned()
        },
    }
}

// ---- while tokens come ----

/// How tokens are drawn: one by one with their probabilities, drafted, or one by
/// one.
#[derive(Clone, Copy, PartialEq, Eq, Structural, Debug)]
pub enum Drawing {
    Logprobs,
    Drafted(usize),
    Serial,
}

/// Probabilities are known only of tokens that are drawn one by one, and only a
/// greedy choice can be drafted.
pub fn drawing(logprobs: bool, depth: usize, greedy: bool) -> (d: Drawing)
    ensures
        d == (if logprobs {
            Drawing::Logprobs
        } else if depth > 0 && greedy {
            Drawing::Drafted(depth)
        } else {
            Drawing::Serial
        }),
{
    if logprobs {
        Drawing::Logprobs
    } else if depth > 0 && greedy {
        Drawing::Drafted(depth)
    } else {
        Drawing::Serial
    }
}

/// Whether another token is drawn after so many, the last of which may have ended
/// the text.
pub fn draws_on(drawn: usize, max_tokens: usize, ended: bool) -> (b: bool)
    ensures
        b == (drawn < max_tokens && !ended),
{
    drawn < max_tokens && !ended
}

/// The entry of a token's probability.
pub open spec fn token_entry(token: Seq<char>, logprob: JsonV) -> JsonV {
    JsonV::Obj(
        Members::empty().push(("token"@, JsonV::Str(token))).push(("logprob"@, logprob)).push(
            ("bytes"@, JsonV::Null),
        ).push(("top_logprobs"@, JsonV::Arr(Seq::empty()))),
    )
}

pub fn logprob_entry(token: &str, logprob: Json) -> (j: Json)
    ensures
        j@ == token_entry(token@, logprob@),
{
    let mut o = Object::new();
    o.add_str("token", token);
    o.add("logprob", logprob);
    o.add("bytes", Json::Null);
    o.add("top_logprobs", array(no_items()));
    o.done()
}

/// Probabilities as a reply holds them.
pub open spec fn logprob_list(entries: Seq<JsonV>) -> JsonV {
    JsonV::Obj(Members::empty().push(("content"@, JsonV::Arr(entries))))
}

fn list_logprobs(entries: Vec<Json>) -> (j: Json)
    ensures
        j@ == logprob_list(list_views(entries@)),
{
    let mut o = Object::new();
    o.add("content", array(entries));
    o.done()
}

/// What has been sent and seen while tokens come.
pub struct Emission {
    /// The text that has been shown.
    pub last: String,
    /// A stop sequence has come.
    pub hit_stop: bool,
    pub entries: Vec<Json>,
}

/// The view of what has been sent and seen.
#[verifier::ext_equal]
pub ghost struct EmissionV {
    pub last: Seq<char>,
    pub hit_stop: bool,
    pub entries: Seq<JsonV>,
}

impl View for Emission {
    type V = EmissionV;

    open spec fn view(&self) -> EmissionV {
        EmissionV {
            last: self.last@,
            hit_stop: self.hit_stop,
            entries: list_views(self.entries@),
        }
    }
}

/// What becomes of a token: generation stops, or goes on, perhaps with a step of
/// the reply.
pub enum Emitted {
    Stop,
    More(Option<Reply>),
}

pub ghost enum EmittedV {
    Stop,
    More(Option<StepV>),
}

impl View for Emitted {
    type V = EmittedV;

    open spec fn view(&self) -> EmittedV {
        match self {
            Emitted::Stop => EmittedV::Stop,
            Emitted::More(Some(r)) => EmittedV::More(Some(r@)),
            Emitted::More(None) => EmittedV::More(None),
        }
    }
}

/// What becomes of a token after which the text is `text`. A token that ends the
/// text adds nothing to it, but its probability is still reported.
pub open spec fn emitted(
    e: EmissionV,
    stops: Seq<Seq<char>>,
    streaming: bool,
    ended: bool,
    text: Seq<char>,
    entry: Option<JsonV>,
) -> (EmissionV, EmittedV) {
    let entries = match entry {
        Some(j) => e.entries.push(j),
        None => e.entries,
    };
    if !ended && stopped_in(text, stops) {
        (EmissionV { hit_stop: true, entries, ..e }, EmittedV::Stop)
    } else if streaming {
        let shown = shown_so_far(text);
        let d = delta(e.last, shown);
        let step = if d is Some || entry is Some {
            Some(
                StepV::Delta(
                    match d {
                        Some(s) => s,
                        None => Seq::empty(),
                    },
                    match entry {
                        Some(j) => Some(logprob_list(Seq::empty().push(j))),
                        None => None,
                    },
                ),
            )
        } else {
            None
        };
        (EmissionV { last: shown, entries, ..e }, EmittedV::More(step))
    } else {
        (EmissionV { entries, ..e }, EmittedV::More(None))
    }
}

impl Emission {
    pub fn new() -> (e: Emission)
        ensures
            e@ == (EmissionV { last: Seq::empty(), hit_stop: false, entries: Seq::empty() }),
    {
        let last = String::new();
        assert(last@ =~= Seq::empty());
        Emission { last, hit_stop: false, entries: no_items() }
    }

    /// Takes a token, after which the text is `text`.
    pub fn emit(
        &mut self,
        stops: &Vec<String>,
        streaming: bool,
        ended: bool,
        text: &str,
        entry: Option<Json>,
    ) -> (r: Emitted)
        ensures
            (final(self)@, r@) == emitted(
                old(self)@,
                views(stops@),
                streaming,
                ended,
                text@,
                opt_json(entry),
            ),
    {
        match &entry {
            Some(j) => {
                push_item(&mut self.entries, j.duplicate());
            },
            None => {},
        }
        if !ended && stop_in(text, stops).is_some() {
            self.hit_stop = true;
            return Emitted::Stop;
        }
        if !streaming {
            return Emitted::More(None);
        }
        let shown = visible(text);
        let d = stream_delta(&self.last, &shown);
        self.last = shown;
        if d.is_none() && entry.is_none() {
            return Emitted::More(None);
        }
        let text = match d {
            Some(s) => s,
            None => {
                let s = String::new();
                assert(s@ =~= Seq::empty());
                s
            },
        };
        let logprobs = match entry {
            Some(j) => {
                let mut v = no_items();
                push_item(&mut v, j);
                Some(list_logprobs(v))
            },
            None => None,
        };
        Emitted::More(Some(Reply::Delta { text, logprobs }))
    }
}

/// Whether anything reads the text after a token: it is streamed, or searched for
/// stop sequences.
pub open spec fn text_is_read(stops: Seq<Seq<char>>, streaming: bool, ended: bool) -> bool {
    streaming || !ended && stops.len() > 0
}

/// Whether anything reads the text after a token.
pub fn reads_text(stops: &Vec<String>, streaming: bool, ended: bool) -> (b: bool)
    ensures
        b == text_is_read(views(stops@), streaming, ended),
{
    streaming || !ended && stops.len() > 0
}

/// A text that nothing reads makes no difference.
pub proof fn unread_text_changes_nothing(
    e: EmissionV,
    stops: Seq<Seq<char>>,
    streaming: bool,
    ended: bool,
    a: Seq<char>,
    b: Seq<char>,
    entry: Option<JsonV>,
)
    requires
        !text_is_read(stops, streaming, ended),
    ensures
        emitted(e, stops, streaming, ended, a, entry) == emitted(
            e,
            stops,
            streaming,
            ended,
            b,
            entry,
        ),
{
}

/// A token that ends the text sends nothing more, unless its probability is
/// wanted.
pub proof fn the_end_is_silent(e: EmissionV, stops: Seq<Seq<char>>, text: Seq<char>)
    requires
        e.last == shown_so_far(text),
    ensures
        emitted(e, stops, true, true, text, None) == (e, EmittedV::More(None)),
{
    growing_text_is_appended(e.last, Seq::empty());
    assert(e.last + Seq::<char>::empty() =~= e.last);
}

/// Once a stop sequence has come, generation stops.
pub proof fn stop_sequences_end_generation(
    e: EmissionV,
    stops: Seq<Seq<char>>,
    streaming: bool,
    text: Seq<char>,
    entry: Option<JsonV>,
)
    requires
        stopped_in(text, stops),
    ensures
        ({
            let (after, r) = emitted(e, stops, streaming, false, text, entry);
            r is Stop && after.hit_stop && after.last == e.last
        }),
{
}

/// The text of a step.
pub open spec fn step_text(r: EmittedV) -> Seq<char> {
    match r {
        EmittedV::More(Some(StepV::Delta(t, _))) => t,
        _ => Seq::empty(),
    }
}

/// The state after the first `k` tokens of a streamed reply, and everything that
/// was streamed; after each token the text is the next of `texts`.
pub open spec fn streamed(
    stops: Seq<Seq<char>>,
    texts: Seq<Seq<char>>,
    k: int,
) -> (EmissionV, Seq<char>)
    decreases k,
{
    if k <= 0 {
        (
            EmissionV { last: Seq::empty(), hit_stop: false, entries: Seq::empty() },
            Seq::empty(),
        )
    } else {
        let (e, sent) = streamed(stops, texts, k - 1);
        let (after, r) = emitted(e, stops, true, false, texts[k - 1], None);
        (after, sent + step_text(r))
    }
}

/// The visible text before the first token, and after each of the others.
pub open spec fn shown_after(texts: Seq<Seq<char>>, k: int) -> Seq<char> {
    if k <= 0 {
        Seq::empty()
    } else {
        shown_so_far(texts[k - 1])
    }
}

/// A streamed reply reassembles to the visible text: while that text only grows
/// and no stop sequence comes, everything streamed is, put together, the visible
/// text so far.
pub proof fn streamed_text_adds_up(stops: Seq<Seq<char>>, texts: Seq<Seq<char>>, k: int)
    requires
        0 <= k <= texts.len(),
        forall|i: int| 0 <= i < k ==> !stopped_in(#[trigger] texts[i], stops),
        forall|i: int|
            0 <= i < k ==> (#[trigger] shown_after(texts, i)).is_prefix_of(
                shown_after(texts, i + 1),
            ),
    ensures
        streamed(stops, texts, k).1 == shown_after(texts, k),
        streamed(stops, texts, k).0.last == shown_after(texts, k),
        !streamed(stops, texts, k).0.hit_stop,
    decreases k,
{
    if k > 0 {
        streamed_text_adds_up(stops, texts, k - 1);
        let prev = shown_after(texts, k - 1);
        let cur = shown_after(texts, k);
        assert(prev.is_prefix_of(cur));
        assert(!stopped_in(texts[k - 1], stops));
        let more = cur.skip(prev.len() as int);
        assert(cur =~= prev + more);
        growing_text_is_appended(prev, more);
    }
}

// ---- replies ----

/// Why a reply ended.
pub open spec fn finish_of(calls: nat, stopped: bool) -> Seq<char> {
    if calls > 0 {
        "tool_calls"@
    } else if stopped {
        "stop"@
    } else {
        "length"@
    }
}

fn finish_text(calls: usize, stopped: bool) -> (s: String)
    ensures
        s@ == finish_of(calls as nat, stopped),
{
    if calls > 0 {
        "tool_calls".to_owned()
    } else if stopped {
        "stop".to_owned()
    } else {
        "length".to_owned()
    }
}

/// The JSON of a reply that was asked to conform to a schema: the first JSON in
/// it, made to conform, or what there is when there is none.
pub open spec fn json_content(full: Seq<char>, stops: Seq<Seq<char>>, schema: JsonV) -> Seq<char> {
    let body = after_thinking(before_stops(full, stops));
    match json_in(body) {
        Some(s) => rendered(
            conformed(
                match parsed(s) {
                    Some(v) => v,
                    None => JsonV::Str(s),
                },
                schema,
            ),
        ),
        None => trimmed(body),
    }
}

fn shape_json(full: &str, stops: &Vec<String>, schema: &Json) -> (s: String)
    ensures
        s@ == json_content(full@, views(stops@), schema@),
{
    let raw = strip_stops(full, stops);
    let body = strip_think_prefix(&raw);
    match extract_json(&body) {
        Some(s) => {
            let v = match from_text(&s) {
                Some(v) => v,
                None => Json::Str(s),
            };
            let v = repair_json(v, schema);
            to_text(&v)
        },
        None => {
            let c = chars_of(&body);
            let t = trim(&c);
            string_of(&t)
        },
    }
}

/// Content, reasoning and calls of a reply.
pub open spec fn shaped(p: PlanV, full: Seq<char>, now: u64, from: u64) -> (
    Seq<char>,
    Option<Seq<char>>,
    Seq<JsonV>,
) {
    match p.schema {
        Some(s) => (json_content(full, p.stops, s), None, Seq::empty()),
        None => reply_parts(full, p.tools, p.parallel, p.stops, now, from),
    }
}

/// The calls that a reply counts.
pub open spec fn shaped_calls(p: PlanV, full: Seq<char>) -> nat {
    match p.schema {
        Some(_) => 0,
        None => reply_calls(full, p.tools, p.stops),
    }
}

/// What came of generation.
pub struct Outcome {
    pub full: String,
    pub hit_stop: bool,
    /// The last token ended the text.
    pub ended: bool,
    pub entries: Vec<Json>,
    pub prompt_tokens: usize,
    pub completion_tokens: usize,
}

/// The reply to a request.
pub open spec fn reply_of(p: PlanV, o: Outcome, now: u64, from: u64) -> ReplyV {
    let (content, reasoning, calls) = shaped(p, o.full@, now, from);
    ReplyV {
        content,
        reasoning,
        tool_calls: calls,
        prompt_tokens: o.prompt_tokens,
        completion_tokens: o.completion_tokens,
        finish: finish_of(calls.len(), o.hit_stop || o.ended),
        logprobs: if p.logprobs {
            Some(logprob_list(list_views(o.entries@)))
        } else {
            None
        },
        stop_sequence: if o.hit_stop {
            first_stop(o.full@, p.stops, 0)
        } else {
            None
        },
    }
}

/// The reply to a request, once its tokens have come. Of a reply that was asked
/// to conform to a schema nothing is shown before; then all of it is at once.
pub fn complete(
    plan: &Plan,
    streaming: bool,
    o: Outcome,
    ids: &mut Counters,
    now: u64,
) -> (r: (Option<Reply>, ReplyData))
    ensures
        r.1@ == reply_of(plan@, o, now, old(ids).calls),
        *final(ids) == (Counters {
            calls: count_on(old(ids).calls, shaped_calls(plan@, o.full@)),
            ..*old(ids)
        }),
        match r.0 {
            Some(s) => streaming && plan@.schema is Some && s@ == StepV::Delta(r.1@.content, None),
            None => !streaming || plan@.schema is None,
        },
{
    let ghost from = ids.calls;
    let (content, reasoning, tool_calls) = match &plan.schema {
        Some(s) => {
            assert(count_on(ids.calls, 0) == ids.calls);
            (shape_json(&o.full, &plan.stops, s), None, no_items())
        },
        None => shape_reply(&o.full, &plan.tools, plan.parallel, &plan.stops, ids, now),
    };
    let first = if streaming && plan.schema.is_some() {
        Some(Reply::Delta { text: content.clone(), logprobs: None })
    } else {
        None
    };
    let stop_sequence = if o.hit_stop {
        stop_in(&o.full, &plan.stops)
    } else {
        None
    };
    assert(list_views(tool_calls@).len() == tool_calls@.len());
    let finish = finish_text(tool_calls.len(), o.hit_stop || o.ended);
    let logprobs = if plan.logprobs {
        Some(list_logprobs(o.entries))
    } else {
        None
    };
    (
        first,
        ReplyData {
            content,
            reasoning,
            tool_calls,
            prompt_tokens: o.prompt_tokens,
            completion_tokens: o.completion_tokens,
            finish,
            logprobs,
            stop_sequence,
        },
    )
}

/// A reply that names a stop sequence ended because of one.
pub proof fn named_stops_end_replies(p: PlanV, o: Outcome, now: u64, from: u64)
    requires
        reply_of(p, o, now, from).stop_sequence is Some,
        reply_of(p, o, now, from).tool_calls.len() == 0,
    ensures
        reply_of(p, o, now, from).finish == "stop"@,
{
}

// ---- sessions ----

/// How far a request repeats the conversation of its session.
#[derive(Clone, Copy, PartialEq, Eq, Structural, Debug)]
pub struct Resumption {
    /// The turns that it repeats.
    pub turns: usize,
    /// It leaves the conversation before its end.
    pub diverges: bool,
}

/// How far a request repeats the conversation of its session.
pub fn resumption(messages: &[ChatMessage], conversation: &[ChatMessage]) -> (r: Resumption)
    ensures
        r.turns == shared_turns(message_views(messages@), message_views(conversation@), 0),
        r.turns <= conversation@.len(),
        r.turns <= messages@.len(),
        r.diverges == (r.turns < conversation@.len()),
{
    let k = structural_prefix(messages, conversation);
    proof {
        lemma_shared_turns(message_views(messages@), message_views(conversation@), 0);
        assert(message_views(messages@).len() == messages@.len());
        assert(message_views(conversation@).len() == conversation@.len());
    }
    Resumption { turns: k, diverges: k < conversation.len() }
}

/// What has come of the last step of reading a request into its session.
#[derive(Clone, Copy, PartialEq, Eq, Structural, Debug)]
pub enum ReadingEvent {
    /// Nothing was done yet.
    Begun,
    /// The session was to go back to the turns that are shared; whether it could.
    Rewound(bool),
    /// The session was replaced by a new one.
    Replaced,
    /// What follows the prompt of the shared turns has so many tokens.
    Suffix(usize),
}

/// What to do next to read a request into its session.
#[derive(Clone, Copy, PartialEq, Eq, Structural, Debug)]
pub enum ReadingStep {
    /// Take the session back to so many turns.
    Rewind(usize),
    /// Replace the session by a new one.
    Replace,
    /// Work out what follows the prompt of so many turns.
    Suffix(usize),
    /// Read the whole prompt, as far as the session does not hold it.
    Whole,
    /// Read what follows the prompt of the shared turns.
    Read,
}

/// The next step of reading a request. Only a template says where the prompt of
/// the shared turns ends; a session that went further goes back to them, or is
/// replaced where it cannot.
pub open spec fn reading_after(r: Resumption, templated: bool, e: ReadingEvent) -> ReadingStep {
    match e {
        ReadingEvent::Begun => if !templated || r.turns == 0 {
            ReadingStep::Whole
        } else if r.diverges {
            ReadingStep::Rewind(r.turns)
        } else {
            ReadingStep::Suffix(r.turns)
        },
        ReadingEvent::Rewound(true) => ReadingStep::Suffix(r.turns),
        ReadingEvent::Rewound(false) => ReadingStep::Replace,
        ReadingEvent::Replaced => ReadingStep::Suffix(r.turns),
        ReadingEvent::Suffix(n) => if n > 0 {
            ReadingStep::Read
        } else {
            ReadingStep::Whole
        },
    }
}

/// The next step of reading a request into its session.
pub fn next_reading(r: Resumption, templated: bool, e: ReadingEvent) -> (s: ReadingStep)
    ensures
        s == reading_after(r, templated, e),
{
    match e {
        ReadingEvent::Begun => {
            if !templated || r.turns == 0 {
                ReadingStep::Whole
            } else if r.diverges {
                ReadingStep::Rewind(r.turns)
            } else {
                ReadingStep::Suffix(r.turns)
            }
        },
        ReadingEvent::Rewound(done) => {
            if done {
                ReadingStep::Suffix(r.turns)
            } else {
                ReadingStep::Replace
            }
        },
        ReadingEvent::Replaced => ReadingStep::Suffix(r.turns),
        ReadingEvent::Suffix(n) => {
            if n > 0 {
                ReadingStep::Read
            } else {
                ReadingStep::Whole
            }
        },
    }
}

proof fn lemma_shared_turns(a: Seq<MessageV>, b: Seq<MessageV>, i: int)
    requires
        0 <= i <= a.len(),
        i <= b.len(),
    ensures
        i <= shared_turns(a, b, i) <= a.len(),
        shared_turns(a, b, i) <= b.len(),
    decreases a.len() - i,
{
    if i < a.len() && i < b.len() && crate::chat::same_turn(a[i], b[i]) {
        lemma_shared_turns(a, b, i + 1);
    }
}

proof fn lemma_repeated(b: Seq<MessageV>, more: Seq<MessageV>, i: int)
    requires
        0 <= i <= b.len(),
    ensures
        shared_turns(b + more, b, i) == b.len(),
    decreases b.len() - i,
{
    if i < b.len() {
        assert((b + more)[i] == b[i]);
        lemma_repeated(b, more, i + 1);
    }
}

/// A request that repeats the whole conversation and adds to it goes on where the
/// conversation ended.
pub proof fn repeated_conversation_goes_on(conversation: Seq<MessageV>, more: Seq<MessageV>)
    ensures
        shared_turns(conversation + more, conversation, 0) == conversation.len(),
{
    lemma_repeated(conversation, more, 0);
}

/// What of a prompt is new after a prefix of it: the line end that the prefix has
/// and the kept tokens have not, then the rest. None when nothing is new, or when
/// it is no prefix.
pub open spec fn new_text(prompt: Seq<char>, prefix: Seq<char>) -> Option<Seq<char>> {
    if begins(prompt, prefix) && prefix.len() < prompt.len() {
        Some("\n"@ + prompt.skip(prefix.len() as int))
    } else {
        None
    }
}

pub fn string_suffix(prompt: &str, prefix: &str) -> (r: Option<String>)
    ensures
        opt_string(r) == new_text(prompt@, prefix@),
{
    let p = chars_of(prompt);
    let q = chars_of(prefix);
    let n = p.len();
    if starts_with(&p, &q) && q.len() < n {
        let rest = piece(&p, q.len(), n);
        assert(rest@ =~= p@.skip(q@.len() as int));
        let rest = string_of(&rest);
        Some(cat2("\n", &rest))
    } else {
        None
    }
}

/// Where the reading of a prompt starts.
pub struct Prefill {
    /// The session is begun anew.
    pub reset: bool,
    /// The first token that is read.
    pub from: usize,
}

/// Where the reading of a prompt starts: after the tokens that the session holds
/// when the prompt goes on with all of them, and at its beginning otherwise.
pub fn prefill(fed: &[u32], ids: &[u32]) -> (p: Prefill)
    ensures
        p.reset == (shared_tokens(fed@, ids@, 0) < fed@.len()),
        p.from == (if p.reset {
            0
        } else {
            shared_tokens(fed@, ids@, 0)
        }),
        p.from <= ids@.len(),
{
    let n = common_prefix(fed, ids);
    proof {
        crate::chat::shared_tokens_are_longest(fed@, ids@);
    }
    if n < fed.len() {
        Prefill { reset: true, from: 0 }
    } else {
        Prefill { reset: false, from: n }
    }
}

/// A session that is not begun anew holds exactly the tokens that are not read
/// again.
pub proof fn kept_tokens_are_not_read_again(fed: Seq<u32>, ids: Seq<u32>)
    requires
        shared_tokens(fed, ids, 0) >= fed.len(),
    ensures
        shared_tokens(fed, ids, 0) <= ids.len(),
        fed == ids.take(shared_tokens(fed, ids, 0)),
{
    crate::chat::shared_tokens_are_longest(fed, ids);
    assert(fed =~= ids.take(shared_tokens(fed, ids, 0)));
}

/// A session must be given something new to read.
pub fn check_new_tokens(n: usize) -> (r: Result<(), Error>)
    ensures
        match r {
            Ok(_) => n > 0,
            Err(e) => n == 0 && e.text() == "session request has no new tokens"@,
        },
{
    if n == 0 {
        Err(Error::msg("session request has no new tokens"))
    } else {
        Ok(())
    }
}

/// The reply of a session.
pub open spec fn session_reply_of(
    full: Seq<char>,
    tools: Seq<JsonV>,
    parallel: bool,
    stops: Seq<Seq<char>>,
    stopped: bool,
    prompt_tokens: usize,
    completion_tokens: usize,
    now: u64,
    from: u64,
) -> ReplyV {
    let (content, reasoning, calls) = reply_parts(full, tools, parallel, stops, now, from);
    ReplyV {
        content,
        reasoning,
        tool_calls: calls,
        prompt_tokens,
        completion_tokens,
        finish: finish_of(calls.len(), stopped),
        logprobs: None,
        stop_sequence: None,
    }
}

/// A conversation with the reply as its last turn.
pub open spec fn remembered(messages: Seq<MessageV>, d: ReplyV) -> Seq<MessageV> {
    messages.push(
        MessageV {
            role: "assistant"@,
            content: d.content,
            reasoning_content: d.reasoning,
            tool_calls: d.tool_calls,
            tool_call_id: None,
            parts: None,
        },
    )
}

/// The reply of a session, and the conversation that the session remembers.
pub fn run_session(
    messages: Vec<ChatMessage>,
    tools: &Vec<Json>,
    parallel: bool,
    stops: &Vec<String>,
    o: Outcome,
    ids: &mut Counters,
    now: u64,
) -> (r: (ReplyData, Vec<ChatMessage>))
    ensures
        r.0@ == session_reply_of(
            o.full@,
            list_views(tools@),
            parallel,
            views(stops@),
            o.hit_stop || o.ended,
            o.prompt_tokens,
            o.completion_tokens,
            now,
            old(ids).calls,
        ),
        message_views(r.1@) == remembered(message_views(messages@), r.0@),
        *final(ids) == (Counters {
            calls: count_on(
                old(ids).calls,
                reply_calls(o.full@, list_views(tools@), views(stops@)),
            ),
            ..*old(ids)
        }),
{
    let (content, reasoning, tool_calls) = shape_reply(
        &o.full,
        tools,
        parallel,
        stops,
        ids,
        now,
    );
    assert(list_views(tool_calls@).len() == tool_calls@.len());
    let finish = finish_text(tool_calls.len(), o.hit_stop || o.ended);
    let turn = ChatMessage {
        role: "assistant".to_owned(),
        content: content.clone(),
        reasoning_content: copy_text(&reasoning),
        tool_calls: copy_list(&tool_calls),
        tool_call_id: None,
        parts: None,
    };
    let mut conversation = messages;
    let ghost before = message_views(conversation@);
    conversation.push(turn);
    assert(message_views(conversation@) =~= before.push(turn@));
    let d = ReplyData {
        content,
        reasoning,
        tool_calls,
        prompt_tokens: o.prompt_tokens,
        completion_tokens: o.completion_tokens,
        finish,
        logprobs: None,
        stop_sequence: None,
    };
    (d, conversation)
}

// ---- waves ----

/// What is new in a text of a wave, by bytes. The text that was sent before ends
/// between two characters of the new one.
pub fn wave_delta(last: &str, text: &str) -> (r: Option<String>)
    requires
        encode_utf8(text@).len() > encode_utf8(last@).len() ==> is_char_boundary(
            encode_utf8(text@),
            encode_utf8(last@).len() as int,
        ),
    ensures
        match r {
            Some(d) => encode_utf8(text@).len() > encode_utf8(last@).len() && encode_utf8(d@)
                == encode_utf8(text@).skip(encode_utf8(last@).len() as int),
            None => encode_utf8(text@).len() <= encode_utf8(last@).len(),
        },
{
    let n = last.as_bytes().len();
    if text.as_bytes().len() > n {
        let (_, rest) = text.split_at(n);
        assert(encode_utf8(rest@) =~= encode_utf8(text@).skip(n as int));
        Some(rest.to_owned())
    } else {
        None
    }
}

/// The reply of a request that ran in a wave.
pub open spec fn wave_reply_of(
    content: Seq<char>,
    stopped: bool,
    prompt_tokens: usize,
    completion_tokens: usize,
) -> ReplyV {
    ReplyV {
        content,
        reasoning: None,
        tool_calls: Seq::empty(),
        prompt_tokens,
        completion_tokens,
        finish: finish_of(0, stopped),
        logprobs: None,
        stop_sequence: None,
    }
}

/// The reply of a request that ran in a wave.
pub fn run_wave(
    content: String,
    stopped: bool,
    prompt_tokens: usize,
    completion_tokens: usize,
) -> (d: ReplyData)
    ensures
        d@ == wave_reply_of(content@, stopped, prompt_tokens, completion_tokens),
{
    ReplyData {
        content,
        reasoning: None,
        tool_calls: no_items(),
        prompt_tokens,
        completion_tokens,
        finish: finish_text(0, stopped),
        logprobs: None,
        stop_sequence: None,
    }
}

} // verus!
