//! Streamed replies: what is sent for each step of a reply.

use vstd::prelude::*;

use crate::chat::opt_json;
use crate::codec::{rendered, to_text};
use crate::ids::{stamp, stamp_text};
use crate::json::{
    array, list_views, no_items, push_item, text_or, value_or, Json, JsonV, Members, Object,
};
use crate::payload::{
    bare_error, bare_error_payload, call_entry, call_id_of, call_item, call_name_of,
    empty_response, empty_response_resource, id_of_call, message_entry, message_item, model_id,
    name_of_call, output_text, output_text_part, reason_of, response_of,
    responses_payload_with_id, stop_reason, typed_error, typed_error_payload, usage, usage_json,
    ReplyData, ReplyV,
};
use crate::store::{continued, Store, StoreV};
use crate::text::{cat3, same_text};

verus! {

broadcast use crate::value::json_view;

// ---- steps and frames ----

/// One step of a reply.
pub enum Reply {
    /// The prompt has been read.
    Start { prompt_tokens: usize },
    /// More text, perhaps with the probability of its token.
    Delta { text: String, logprobs: Option<Json> },
    /// The reply is complete.
    Done(ReplyData),
    Error(String),
}

/// The view of a step.
pub ghost enum StepV {
    Start(usize),
    Delta(Seq<char>, Option<JsonV>),
    Done(ReplyV),
    Error(Seq<char>),
}

impl View for Reply {
    type V = StepV;

    open spec fn view(&self) -> StepV {
        match self {
            Reply::Start { prompt_tokens } => StepV::Start(*prompt_tokens),
            Reply::Delta { text, logprobs } => StepV::Delta(text@, opt_json(*logprobs)),
            Reply::Done(d) => StepV::Done(d@),
            Reply::Error(e) => StepV::Error(e@),
        }
    }
}

/// One piece of a stream: an event with a payload, the closing line, or the end.
pub enum Frame {
    Event(Option<&'static str>, Json),
    Finished,
    End,
}

/// The view of a piece of a stream.
pub ghost enum FrameV {
    Event(Option<Seq<char>>, JsonV),
    Finished,
    End,
}

impl View for Frame {
    type V = FrameV;

    open spec fn view(&self) -> FrameV {
        match self {
            Frame::Event(n, j) => FrameV::Event(
                match n {
                    Some(s) => Some(s@),
                    None => None,
                },
                j@,
            ),
            Frame::Finished => FrameV::Finished,
            Frame::End => FrameV::End,
        }
    }
}

pub open spec fn frame_views(v: Seq<Frame>) -> Seq<FrameV> {
    v.map_values(|f: Frame| f@)
}

/// An event without a name.
pub open spec fn data(j: JsonV) -> FrameV {
    FrameV::Event(None, j)
}

/// An event with a name.
pub open spec fn named(name: Seq<char>, j: JsonV) -> FrameV {
    FrameV::Event(Some(name), j)
}

fn no_frames() -> (v: Vec<Frame>)
    ensures
        frame_views(v@) == Seq::<FrameV>::empty(),
{
    let v: Vec<Frame> = Vec::new();
    assert(frame_views(v@) =~= Seq::<FrameV>::empty());
    v
}

fn send(v: &mut Vec<Frame>, f: Frame)
    ensures
        frame_views(final(v)@) == frame_views(old(v)@).push(f@),
{
    let ghost before = frame_views(v@);
    v.push(f);
    assert(frame_views(v@) =~= before.push(f@));
}

/// The text of a piece of a stream: an event, the closing line, or nothing.
pub open spec fn frame_text(f: FrameV) -> Seq<char> {
    match f {
        FrameV::Event(name, j) => (match name {
            Some(n) => "event: "@ + n + "\n"@,
            None => ""@,
        }) + "data: "@ + rendered(j) + "\n\n"@,
        FrameV::Finished => "data: [DONE]\n\n"@,
        FrameV::End => ""@,
    }
}

/// The text of a piece of a stream.
pub fn sse_event(f: &Frame) -> (s: String)
    ensures
        s@ == frame_text(f@),
{
    match f {
        Frame::Event(name, j) => {
            let mut s = match name {
                Some(n) => cat3("event: ", n, "\n"),
                None => "".to_owned(),
            };
            s.append("data: ");
            let t = to_text(j);
            s.append(&t);
            s.append("\n\n");
            s
        },
        Frame::Finished => "data: [DONE]\n\n".to_owned(),
        Frame::End => "".to_owned(),
    }
}

// ---- chats and completions ----

/// A piece of a streamed completion.
pub open spec fn chunk_of(object: Seq<char>, id: Seq<char>, now: u64, choice: JsonV) -> JsonV {
    JsonV::Obj(
        Members::empty().push(("id"@, JsonV::Str(id))).push(
            ("object"@, JsonV::Str(object)),
        ).push(("created"@, JsonV::Pos(now))).push(("model"@, JsonV::Str(model_id()))).push(
            ("choices"@, JsonV::Arr(Seq::empty().push(choice))),
        ),
    )
}

/// A piece of a streamed completion.
pub fn stream_chunk(object: &str, id: &str, now: u64, choice: Json) -> (j: Json)
    ensures
        j@ == chunk_of(object@, id@, now, choice@),
{
    let mut list = no_items();
    push_item(&mut list, choice);
    let mut o = Object::new();
    o.add_str("id", id);
    o.add_str("object", object);
    o.add("created", Json::Pos(now));
    o.add_str("model", "qwen3.8-flash-next");
    o.add("choices", array(list));
    o.done()
}

/// The tokens of a streamed completion.
pub open spec fn usage_chunk(
    object: Seq<char>,
    id: Seq<char>,
    now: u64,
    prompt: usize,
    completion: usize,
) -> JsonV {
    JsonV::Obj(
        Members::empty().push(("id"@, JsonV::Str(id))).push(
            ("object"@, JsonV::Str(object)),
        ).push(("created"@, JsonV::Pos(now))).push(("model"@, JsonV::Str(model_id()))).push(
            ("choices"@, JsonV::Arr(Seq::empty())),
        ).push(("usage"@, usage(prompt, completion))),
    )
}

fn usage_piece(object: &str, id: &str, now: u64, prompt: usize, completion: usize) -> (j: Json)
    requires
        prompt + completion <= usize::MAX,
    ensures
        j@ == usage_chunk(object@, id@, now, prompt, completion),
{
    let mut o = Object::new();
    o.add_str("id", id);
    o.add_str("object", object);
    o.add("created", Json::Pos(now));
    o.add_str("model", "qwen3.8-flash-next");
    o.add("choices", array(no_items()));
    o.add("usage", usage_json(prompt, completion));
    o.done()
}

/// A piece of a streamed chat.
pub open spec fn chat_chunk(
    id: Seq<char>,
    now: u64,
    delta: JsonV,
    finish: JsonV,
    logprobs: Option<JsonV>,
) -> JsonV {
    let m = Members::empty().push(("index"@, JsonV::Pos(0))).push(("delta"@, delta)).push(
        ("finish_reason"@, finish),
    );
    chunk_of(
        "chat.completion.chunk"@,
        id,
        now,
        JsonV::Obj(
            match logprobs {
                Some(lp) => m.push(("logprobs"@, lp)),
                None => m,
            },
        ),
    )
}

fn chat_piece(id: &str, now: u64, delta: Json, finish: Json, logprobs: Option<Json>) -> (j: Json)
    ensures
        j@ == chat_chunk(id@, now, delta@, finish@, opt_json(logprobs)),
{
    let mut o = Object::new();
    o.add("index", Json::Pos(0));
    o.add("delta", delta);
    o.add("finish_reason", finish);
    match logprobs {
        Some(lp) => {
            o.add("logprobs", lp);
        },
        None => {},
    }
    stream_chunk("chat.completion.chunk", id, now, o.done())
}

/// One text under a key.
pub open spec fn text_delta(key: Seq<char>, s: Seq<char>) -> JsonV {
    JsonV::Obj(Members::empty().push((key, JsonV::Str(s))))
}

fn text_piece(key: &str, s: &str) -> (j: Json)
    ensures
        j@ == text_delta(key@, s@),
{
    let mut o = Object::new();
    o.add_str(key, s);
    o.done()
}

/// The first `k` tool calls of a streamed chat.
pub open spec fn call_deltas(v: Seq<JsonV>, k: int) -> Seq<JsonV>
    decreases k,
{
    if k <= 0 {
        Seq::empty()
    } else {
        call_deltas(v, k - 1).push(
            JsonV::Obj(
                Members::empty().push(("index"@, JsonV::Pos((k - 1) as u64))).push(
                    ("id"@, value_or(v[k - 1].field("id"@), JsonV::Null)),
                ).push(("type"@, JsonV::Str("function"@))).push(
                    ("function"@, value_or(v[k - 1].field("function"@), JsonV::Null)),
                ),
            ),
        )
    }
}

fn copied(o: Option<&Json>) -> (j: Json)
    ensures
        j@ == value_or(crate::json::opt_view(o), JsonV::Null),
{
    match o {
        Some(v) => v.duplicate(),
        None => Json::Null,
    }
}

fn call_pieces(v: &Vec<Json>) -> (r: Vec<Json>)
    ensures
        list_views(r@) == call_deltas(list_views(v@), list_views(v@).len() as int),
{
    let ghost w = list_views(v@);
    let mut r = no_items();
    let mut i: usize = 0;
    while i < v.len()
        invariant
            i <= v.len(),
            w == list_views(v@),
            list_views(r@) == call_deltas(w, i as int),
        decreases v.len() - i,
    {
        assert(w[i as int] == v@[i as int]@);
        let mut o = Object::new();
        o.add("index", Json::Pos(i as u64));
        o.add("id", copied(v[i].get("id")));
        o.add_str("type", "function");
        o.add("function", copied(v[i].get("function")));
        push_item(&mut r, o.done());
        i += 1;
    }
    r
}

/// What a streamed chat starts with.
pub open spec fn chat_opening(id: Seq<char>, now: u64) -> Seq<FrameV> {
    Seq::empty().push(
        data(chat_chunk(id, now, text_delta("role"@, "assistant"@), JsonV::Null, None)),
    )
}

/// What a streamed chat sends for a step, and whether that is the end.
pub open spec fn chat_frames(
    id: Seq<char>,
    include_usage: bool,
    step: StepV,
    now: u64,
) -> (Seq<FrameV>, bool) {
    match step {
        StepV::Start(_) => (Seq::empty(), false),
        StepV::Delta(text, logprobs) => (
            Seq::empty().push(
                data(chat_chunk(id, now, text_delta("content"@, text), JsonV::Null, logprobs)),
            ),
            false,
        ),
        StepV::Done(d) => {
            let calls = if d.tool_calls.len() > 0 {
                Seq::empty().push(
                    data(
                        chat_chunk(
                            id,
                            now,
                            JsonV::Obj(
                                Members::empty().push(
                                    (
                                        "tool_calls"@,
                                        JsonV::Arr(
                                            call_deltas(d.tool_calls, d.tool_calls.len() as int),
                                        ),
                                    ),
                                ),
                            ),
                            JsonV::Null,
                            None,
                        ),
                    ),
                )
            } else {
                Seq::empty()
            };
            let last = calls.push(
                data(
                    chat_chunk(
                        id,
                        now,
                        JsonV::Obj(Members::empty()),
                        JsonV::Str(d.finish),
                        None,
                    ),
                ),
            );
            let counted = if include_usage {
                last.push(
                    data(
                        usage_chunk(
                            "chat.completion.chunk"@,
                            id,
                            now,
                            d.prompt_tokens,
                            d.completion_tokens,
                        ),
                    ),
                )
            } else {
                last
            };
            (counted.push(FrameV::Finished).push(FrameV::End), true)
        },
        StepV::Error(e) => (Seq::empty().push(data(bare_error(e))).push(FrameV::End), true),
    }
}

/// A reply whose tokens can be added up.
pub open spec fn countable(step: StepV) -> bool {
    step matches StepV::Done(d) ==> d.countable()
}

/// What a streamed chat starts with.
pub fn open_chat(id: &str, now: u64) -> (v: Vec<Frame>)
    ensures
        frame_views(v@) == chat_opening(id@, now),
{
    let mut v = no_frames();
    let j = chat_piece(id, now, text_piece("role", "assistant"), Json::Null, None);
    send(&mut v, Frame::Event(None, j));
    v
}

/// What a streamed chat sends for a step, and whether that is the end.
pub fn stream_chat(id: &str, include_usage: bool, step: Reply, now: u64) -> (r: (
    Vec<Frame>,
    bool,
))
    requires
        countable(step@),
    ensures
        (frame_views(r.0@), r.1) == chat_frames(id@, include_usage, step@, now),
{
    let mut v = no_frames();
    match step {
        Reply::Start { prompt_tokens: _ } => (v, false),
        Reply::Delta { text, logprobs } => {
            let j = chat_piece(id, now, text_piece("content", &text), Json::Null, logprobs);
            send(&mut v, Frame::Event(None, j));
            (v, false)
        },
        Reply::Done(d) => {
            assert(list_views(d.tool_calls@).len() == d.tool_calls@.len());
            if d.tool_calls.len() > 0 {
                let mut o = Object::new();
                o.add("tool_calls", array(call_pieces(&d.tool_calls)));
                let j = chat_piece(id, now, o.done(), Json::Null, None);
                send(&mut v, Frame::Event(None, j));
            }
            let j = chat_piece(id, now, Object::new().done(), Json::string(&d.finish), None);
            send(&mut v, Frame::Event(None, j));
            if include_usage {
                let j = usage_piece(
                    "chat.completion.chunk",
                    id,
                    now,
                    d.prompt_tokens,
                    d.completion_tokens,
                );
                send(&mut v, Frame::Event(None, j));
            }
            send(&mut v, Frame::Finished);
            send(&mut v, Frame::End);
            (v, true)
        },
        Reply::Error(e) => {
            send(&mut v, Frame::Event(None, bare_error_payload(&e)));
            send(&mut v, Frame::End);
            (v, true)
        },
    }
}

/// A choice of a streamed text completion.
pub open spec fn text_choice(text: Seq<char>, finish: JsonV) -> JsonV {
    JsonV::Obj(
        Members::empty().push(("index"@, JsonV::Pos(0))).push(("text"@, JsonV::Str(text))).push(
            ("finish_reason"@, finish),
        ),
    )
}

fn text_choice_piece(text: &str, finish: Json) -> (j: Json)
    ensures
        j@ == text_choice(text@, finish@),
{
    let mut o = Object::new();
    o.add("index", Json::Pos(0));
    o.add_str("text", text);
    o.add("finish_reason", finish);
    o.done()
}

/// What a streamed text completion sends for a step, and whether that is the
/// end.
pub open spec fn completion_frames(
    id: Seq<char>,
    include_usage: bool,
    step: StepV,
    now: u64,
) -> (Seq<FrameV>, bool) {
    match step {
        StepV::Start(_) => (Seq::empty(), false),
        StepV::Delta(text, _) => (
            Seq::empty().push(
                data(chunk_of("text_completion"@, id, now, text_choice(text, JsonV::Null))),
            ),
            false,
        ),
        StepV::Done(d) => {
            let last = Seq::empty().push(
                data(
                    chunk_of(
                        "text_completion"@,
                        id,
                        now,
                        text_choice(""@, JsonV::Str(d.finish)),
                    ),
                ),
            );
            let counted = if include_usage {
                last.push(
                    data(
                        usage_chunk(
                            "text_completion"@,
                            id,
                            now,
                            d.prompt_tokens,
                            d.completion_tokens,
                        ),
                    ),
                )
            } else {
                last
            };
            (counted.push(FrameV::Finished).push(FrameV::End), true)
        },
        StepV::Error(e) => (Seq::empty().push(data(bare_error(e))).push(FrameV::End), true),
    }
}

/// What a streamed text completion sends for a step, and whether that is the
/// end.
pub fn stream_completions(id: &str, include_usage: bool, step: Reply, now: u64) -> (r: (
    Vec<Frame>,
    bool,
))
    requires
        countable(step@),
    ensures
        (frame_views(r.0@), r.1) == completion_frames(id@, include_usage, step@, now),
{
    let mut v = no_frames();
    match step {
        Reply::Start { prompt_tokens: _ } => (v, false),
        Reply::Delta { text, logprobs: _ } => {
            let j = stream_chunk("text_completion", id, now, text_choice_piece(&text, Json::Null));
            send(&mut v, Frame::Event(None, j));
            (v, false)
        },
        Reply::Done(d) => {
            let j = stream_chunk(
                "text_completion",
                id,
                now,
                text_choice_piece("", Json::string(&d.finish)),
            );
            send(&mut v, Frame::Event(None, j));
            if include_usage {
                let j = usage_piece(
                    "text_completion",
                    id,
                    now,
                    d.prompt_tokens,
                    d.completion_tokens,
                );
                send(&mut v, Frame::Event(None, j));
            }
            send(&mut v, Frame::Finished);
            send(&mut v, Frame::End);
            (v, true)
        },
        Reply::Error(e) => {
            send(&mut v, Frame::Event(None, bare_error_payload(&e)));
            send(&mut v, Frame::End);
            (v, true)
        },
    }
}

// ---- messages ----

/// How far a stream of messages has come: whether it has started, the block
/// under way, and whether that block has text.
#[derive(Clone, Copy, PartialEq, Eq, Structural, Debug)]
pub struct MessageState {
    pub started: bool,
    pub block: usize,
    pub text_started: bool,
}

pub open spec fn message_start(id: Seq<char>, prompt_tokens: usize) -> FrameV {
    let tokens = Members::empty().push(("input_tokens"@, JsonV::Pos(prompt_tokens as u64))).push(
        ("output_tokens"@, JsonV::Pos(0)),
    );
    let message = Members::empty().push(("id"@, JsonV::Str(id))).push(
        ("type"@, JsonV::Str("message"@)),
    ).push(("role"@, JsonV::Str("assistant"@))).push(("model"@, JsonV::Str(model_id()))).push(
        ("content"@, JsonV::Arr(Seq::empty())),
    ).push(("stop_reason"@, JsonV::Null)).push(("stop_sequence"@, JsonV::Null)).push(
        ("usage"@, JsonV::Obj(tokens)),
    );
    named(
        "message_start"@,
        JsonV::Obj(
            Members::empty().push(("type"@, JsonV::Str("message_start"@))).push(
                ("message"@, JsonV::Obj(message)),
            ),
        ),
    )
}

pub open spec fn block_start(index: usize, block: JsonV) -> FrameV {
    named(
        "content_block_start"@,
        JsonV::Obj(
            Members::empty().push(("type"@, JsonV::Str("content_block_start"@))).push(
                ("index"@, JsonV::Pos(index as u64)),
            ).push(("content_block"@, block)),
        ),
    )
}

pub open spec fn block_delta(index: usize, delta: JsonV) -> FrameV {
    named(
        "content_block_delta"@,
        JsonV::Obj(
            Members::empty().push(("type"@, JsonV::Str("content_block_delta"@))).push(
                ("index"@, JsonV::Pos(index as u64)),
            ).push(("delta"@, delta)),
        ),
    )
}

pub open spec fn block_stop(index: usize) -> FrameV {
    named(
        "content_block_stop"@,
        JsonV::Obj(
            Members::empty().push(("type"@, JsonV::Str("content_block_stop"@))).push(
                ("index"@, JsonV::Pos(index as u64)),
            ),
        ),
    )
}

/// A value with a type and a text under a key.
pub open spec fn typed_text(kind: Seq<char>, key: Seq<char>, text: Seq<char>) -> JsonV {
    JsonV::Obj(
        Members::empty().push(("type"@, JsonV::Str(kind))).push((key, JsonV::Str(text))),
    )
}

pub open spec fn tool_block(c: JsonV) -> JsonV {
    JsonV::Obj(
        Members::empty().push(("type"@, JsonV::Str("tool_use"@))).push(
            ("id"@, call_id_of(c)),
        ).push(("name"@, call_name_of(c))).push(("input"@, JsonV::Obj(Members::empty()))),
    )
}

/// The arguments of a tool call as text.
pub open spec fn arguments_text(c: JsonV) -> Seq<char> {
    text_or(c.within("function"@, "arguments"@), "{}"@)
}

/// The frames of the first `k` tool calls, each a block of its own, after those
/// before.
pub open spec fn tool_frames(lead: Seq<FrameV>, v: Seq<JsonV>, block: usize, k: int) -> Seq<FrameV>
    decreases k,
{
    if k <= 0 {
        lead
    } else {
        let c = v[k - 1];
        let i = (block + k - 1) as usize;
        tool_frames(lead, v, block, k - 1).push(block_start(i, tool_block(c))).push(
            block_delta(
                i,
                typed_text("input_json_delta"@, "partial_json"@, arguments_text(c)),
            ),
        ).push(block_stop(i))
    }
}

pub open spec fn message_delta(finish: Seq<char>, completion_tokens: usize) -> FrameV {
    let d = Members::empty().push(("stop_reason"@, JsonV::Str(stop_reason(finish)))).push(
        ("stop_sequence"@, JsonV::Null),
    );
    let u = Members::empty().push(("output_tokens"@, JsonV::Pos(completion_tokens as u64)));
    named(
        "message_delta"@,
        JsonV::Obj(
            Members::empty().push(("type"@, JsonV::Str("message_delta"@))).push(
                ("delta"@, JsonV::Obj(d)),
            ).push(("usage"@, JsonV::Obj(u))),
        ),
    )
}

pub open spec fn message_stop() -> FrameV {
    named(
        "message_stop"@,
        JsonV::Obj(Members::empty().push(("type"@, JsonV::Str("message_stop"@)))),
    )
}

/// What a stream of messages sends for a step, and whether that is the end.
pub open spec fn message_frames(id: Seq<char>, s: MessageState, step: StepV) -> (
    MessageState,
    Seq<FrameV>,
    bool,
) {
    match step {
        StepV::Start(n) => if s.started {
            (s, Seq::empty(), false)
        } else {
            (
                MessageState { started: true, ..s },
                Seq::empty().push(message_start(id, n)),
                false,
            )
        },
        StepV::Delta(text, _) => if text.len() == 0 {
            (s, Seq::empty(), false)
        } else {
            let lead = if s.text_started {
                Seq::empty()
            } else {
                Seq::empty().push(block_start(s.block, typed_text("text"@, "text"@, ""@)))
            };
            (
                MessageState { text_started: true, ..s },
                lead.push(block_delta(s.block, typed_text("text_delta"@, "text"@, text))),
                false,
            )
        },
        StepV::Done(d) => {
            let (lead, first) = if s.text_started {
                (Seq::empty().push(block_stop(s.block)), (s.block + 1) as usize)
            } else {
                (Seq::empty(), s.block)
            };
            let n = d.tool_calls.len();
            (
                MessageState { block: (first + n) as usize, ..s },
                tool_frames(lead, d.tool_calls, first, n as int).push(
                    message_delta(d.finish, d.completion_tokens),
                ).push(message_stop()).push(FrameV::End),
                true,
            )
        },
        StepV::Error(e) => (
            s,
            Seq::empty().push(named("error"@, typed_error(e, "engine_error"@))).push(FrameV::End),
            true,
        ),
    }
}

fn start_frame(id: &str, prompt_tokens: usize) -> (f: Frame)
    ensures
        f@ == message_start(id@, prompt_tokens),
{
    let mut t = Object::new();
    t.add("input_tokens", Json::Pos(prompt_tokens as u64));
    t.add("output_tokens", Json::Pos(0));
    let mut m = Object::new();
    m.add_str("id", id);
    m.add_str("type", "message");
    m.add_str("role", "assistant");
    m.add_str("model", "qwen3.8-flash-next");
    m.add("content", array(no_items()));
    m.add("stop_reason", Json::Null);
    m.add("stop_sequence", Json::Null);
    m.add("usage", t.done());
    let mut o = Object::new();
    o.add_str("type", "message_start");
    o.add("message", m.done());
    Frame::Event(Some("message_start"), o.done())
}

fn block_start_frame(index: usize, block: Json) -> (f: Frame)
    ensures
        f@ == block_start(index, block@),
{
    let mut o = Object::new();
    o.add_str("type", "content_block_start");
    o.add("index", Json::Pos(index as u64));
    o.add("content_block", block);
    Frame::Event(Some("content_block_start"), o.done())
}

fn block_delta_frame(index: usize, delta: Json) -> (f: Frame)
    ensures
        f@ == block_delta(index, delta@),
{
    let mut o = Object::new();
    o.add_str("type", "content_block_delta");
    o.add("index", Json::Pos(index as u64));
    o.add("delta", delta);
    Frame::Event(Some("content_block_delta"), o.done())
}

fn block_stop_frame(index: usize) -> (f: Frame)
    ensures
        f@ == block_stop(index),
{
    let mut o = Object::new();
    o.add_str("type", "content_block_stop");
    o.add("index", Json::Pos(index as u64));
    Frame::Event(Some("content_block_stop"), o.done())
}

fn typed_piece(kind: &str, key: &str, text: &str) -> (j: Json)
    ensures
        j@ == typed_text(kind@, key@, text@),
{
    let mut o = Object::new();
    o.add_str("type", kind);
    o.add_str(key, text);
    o.done()
}

fn tool_piece(c: &Json) -> (j: Json)
    ensures
        j@ == tool_block(c@),
{
    let mut o = Object::new();
    o.add_str("type", "tool_use");
    o.add("id", id_of_call(c));
    o.add("name", name_of_call(c));
    o.add("input", Object::new().done());
    o.done()
}

fn arguments_of(c: &Json) -> (s: String)
    ensures
        s@ == arguments_text(c@),
{
    match c.str_in("function", "arguments") {
        Some(s) => s.to_owned(),
        None => "{}".to_owned(),
    }
}

fn send_tools(v: &mut Vec<Frame>, calls: &Vec<Json>, block: usize)
    requires
        block + calls@.len() <= usize::MAX,
    ensures
        frame_views(final(v)@) == tool_frames(
            frame_views(old(v)@),
            list_views(calls@),
            block,
            list_views(calls@).len() as int,
        ),
{
    let ghost lead = frame_views(v@);
    let ghost w = list_views(calls@);
    let mut i: usize = 0;
    while i < calls.len()
        invariant
            i <= calls.len(),
            w == list_views(calls@),
            block + calls@.len() <= usize::MAX,
            frame_views(v@) == tool_frames(lead, w, block, i as int),
        decreases calls.len() - i,
    {
        assert(w[i as int] == calls@[i as int]@);
        let c = &calls[i];
        send(v, block_start_frame(block + i, tool_piece(c)));
        let args = arguments_of(c);
        send(
            v,
            block_delta_frame(block + i, typed_piece("input_json_delta", "partial_json", &args)),
        );
        send(v, block_stop_frame(block + i));
        i += 1;
    }
}

impl MessageState {
    /// A stream of messages before its first step.
    pub fn new() -> (s: MessageState)
        ensures
            s == (MessageState { started: false, block: 0, text_started: false }),
    {
        MessageState { started: false, block: 0, text_started: false }
    }

    /// What a stream of messages sends for a step, and whether that is the end.
    pub fn stream_messages(&mut self, id: &str, step: Reply) -> (r: (Vec<Frame>, bool))
        requires
            step@ matches StepV::Done(d) ==> old(self).block + 1 + d.tool_calls.len() <= usize::MAX,
        ensures
            (*final(self), frame_views(r.0@), r.1) == message_frames(id@, *old(self), step@),
    {
        let mut v = no_frames();
        match step {
            Reply::Start { prompt_tokens } => {
                if !self.started {
                    self.started = true;
                    send(&mut v, start_frame(id, prompt_tokens));
                }
                (v, false)
            },
            Reply::Delta { text, logprobs: _ } => {
                if !text.as_str().is_empty() {
                    if !self.text_started {
                        send(
                            &mut v,
                            block_start_frame(self.block, typed_piece("text", "text", "")),
                        );
                        self.text_started = true;
                    }
                    send(
                        &mut v,
                        block_delta_frame(self.block, typed_piece("text_delta", "text", &text)),
                    );
                }
                (v, false)
            },
            Reply::Done(d) => {
                assert(list_views(d.tool_calls@).len() == d.tool_calls@.len());
                let mut first: usize = self.block;
                if self.text_started {
                    send(&mut v, block_stop_frame(first));
                    first = first + 1;
                }
                send_tools(&mut v, &d.tool_calls, first);
                self.block = first + d.tool_calls.len();
                let mut dd = Object::new();
                dd.add_str("stop_reason", reason_of(&d.finish));
                dd.add("stop_sequence", Json::Null);
                let mut u = Object::new();
                u.add("output_tokens", Json::Pos(d.completion_tokens as u64));
                let mut o = Object::new();
                o.add_str("type", "message_delta");
                o.add("delta", dd.done());
                o.add("usage", u.done());
                send(&mut v, Frame::Event(Some("message_delta"), o.done()));
                let mut o = Object::new();
                o.add_str("type", "message_stop");
                send(&mut v, Frame::Event(Some("message_stop"), o.done()));
                send(&mut v, Frame::End);
                (v, true)
            },
            Reply::Error(e) => {
                send(
                    &mut v,
                    Frame::Event(Some("error"), typed_error_payload(&e, "engine_error")),
                );
                send(&mut v, Frame::End);
                (v, true)
            },
        }
    }
}

// ---- responses ----

/// How far a stream of a response has come: the number of the next event, and
/// whether it has text.
#[derive(Clone, Copy, PartialEq, Eq, Structural, Debug)]
pub struct ResponseState {
    pub seq: u64,
    pub text_started: bool,
}

/// An event with a number.
pub open spec fn numbered(kind: Seq<char>, seq: int, rest: Members) -> FrameV {
    data(
        JsonV::Obj(
            Members::empty().push(("type"@, JsonV::Str(kind))).push(
                ("sequence_number"@, JsonV::Pos(seq as u64)),
            ) + rest,
        ),
    )
}

/// Where an event of text belongs.
pub open spec fn text_place(item: Seq<char>) -> Members {
    Members::empty().push(("item_id"@, JsonV::Str(item))).push(
        ("output_index"@, JsonV::Pos(0)),
    ).push(("content_index"@, JsonV::Pos(0)))
}

/// An item at a place of the output.
pub open spec fn placed(index: int, item: JsonV) -> Members {
    Members::empty().push(("output_index"@, JsonV::Pos(index as usize as u64))).push(("item"@, item))
}

/// The first event of a response.
pub open spec fn response_opening(id: Seq<char>, now: u64) -> Seq<FrameV> {
    Seq::empty().push(
        numbered(
            "response.created"@,
            0,
            Members::empty().push(("response"@, empty_response(id, "in_progress"@, now))),
        ),
    )
}

/// The events of a piece of text.
pub open spec fn text_frames(item: Seq<char>, s: ResponseState, text: Seq<char>) -> Seq<FrameV> {
    let lead = if s.text_started {
        Seq::empty()
    } else {
        Seq::empty().push(
            numbered(
                "response.output_item.added"@,
                s.seq as int,
                placed(0, message_item(item, "in_progress"@, Seq::empty())),
            ),
        ).push(
            numbered(
                "response.content_part.added"@,
                s.seq + 1,
                text_place(item).push(("part"@, output_text(""@))),
            ),
        )
    };
    lead.push(
        numbered(
            "response.output_text.delta"@,
            s.seq + lead.len(),
            text_place(item).push(("delta"@, JsonV::Str(text))),
        ),
    )
}

/// The events that close the text of a response.
pub open spec fn text_end_frames(item: Seq<char>, s: ResponseState, content: Seq<char>) -> Seq<
    FrameV,
> {
    if s.text_started {
        Seq::empty().push(
            numbered(
                "response.output_text.done"@,
                s.seq as int,
                text_place(item).push(("text"@, JsonV::Str(content))),
            ),
        ).push(
            numbered(
                "response.content_part.done"@,
                s.seq + 1,
                text_place(item).push(("part"@, output_text(content))),
            ),
        ).push(
            numbered(
                "response.output_item.done"@,
                s.seq + 2,
                placed(
                    0,
                    message_item(
                        item,
                        "completed"@,
                        Seq::empty().push(output_text(content)),
                    ),
                ),
            ),
        )
    } else {
        Seq::empty()
    }
}

/// The events of the first `k` tool calls, three each, after those before.
pub open spec fn call_frames(
    lead: Seq<FrameV>,
    v: Seq<JsonV>,
    base: int,
    seq: int,
    now: u64,
    k: int,
) -> Seq<FrameV>
    decreases k,
{
    if k <= 0 {
        lead
    } else {
        let c = v[k - 1];
        let n = seq + 3 * (k - 1);
        let id = stamp_text("fc_"@, now);
        let at = base + k - 1;
        call_frames(lead, v, base, seq, now, k - 1).push(
            numbered(
                "response.output_item.added"@,
                n,
                placed(
                    at,
                    call_item(
                        id,
                        call_id_of(c),
                        call_name_of(c),
                        JsonV::Str(""@),
                        "in_progress"@,
                    ),
                ),
            ),
        ).push(
            numbered(
                "response.function_call_arguments.delta"@,
                n + 1,
                Members::empty().push(("item_id"@, JsonV::Str(id))).push(
                    ("output_index"@, JsonV::Pos(at as usize as u64)),
                ).push(("delta"@, JsonV::Str(arguments_text(c)))),
            ),
        ).push(
            numbered(
                "response.output_item.done"@,
                n + 2,
                placed(
                    at,
                    call_item(
                        id,
                        call_id_of(c),
                        call_name_of(c),
                        JsonV::Str(arguments_text(c)),
                        "completed"@,
                    ),
                ),
            ),
        )
    }
}

/// What a streamed response sends for a step, and whether that is the end.
pub open spec fn response_frames(
    id: Seq<char>,
    item: Seq<char>,
    s: ResponseState,
    step: StepV,
    now: u64,
) -> (ResponseState, Seq<FrameV>, bool) {
    match step {
        StepV::Start(_) => (s, Seq::empty(), false),
        StepV::Delta(text, _) => if text.len() == 0 {
            (s, Seq::empty(), false)
        } else {
            let frames = text_frames(item, s, text);
            (
                ResponseState { seq: (s.seq + frames.len()) as u64, text_started: true },
                frames,
                false,
            )
        },
        StepV::Done(d) => {
            let lead = text_end_frames(item, s, d.content);
            let n = d.tool_calls.len() as int;
            let calls = call_frames(
                lead,
                d.tool_calls,
                if s.text_started {
                    1
                } else {
                    0
                },
                s.seq + lead.len(),
                now,
                n,
            );
            let last = s.seq + lead.len() + 3 * n;
            (
                ResponseState { seq: (last + 1) as u64, ..s },
                calls.push(
                    numbered(
                        if d.finish == "length"@ {
                            "response.incomplete"@
                        } else {
                            "response.completed"@
                        },
                        last,
                        Members::empty().push(("response"@, response_of(d, id, now))),
                    ),
                ).push(FrameV::Finished).push(FrameV::End),
                true,
            )
        },
        StepV::Error(e) => (
            s,
            Seq::empty().push(data(typed_error(e, "engine_error"@))).push(FrameV::End),
            true,
        ),
    }
}

/// What a step leaves in the store: a complete reply is stored.
pub open spec fn stored_after(
    st: StoreV,
    id: Seq<char>,
    body: JsonV,
    step: StepV,
    now: u64,
) -> StoreV {
    match step {
        StepV::Done(d) => StoreV {
            conversations: st.conversations.insert(id, continued(body, d)),
            payloads: st.payloads.insert(id, response_of(d, id, now)),
        },
        _ => st,
    }
}

fn event(kind: &str, seq: u64, rest: Object) -> (f: Frame)
    ensures
        f@ == numbered(kind@, seq as int, rest@),
{
    let mut o = Object::new();
    o.add_str("type", kind);
    o.add("sequence_number", Json::Pos(seq));
    let ghost a = o@;
    let ghost b = rest@;
    let mut more = rest.members;
    o.members.append(&mut more);
    assert(o@ =~= a + b);
    Frame::Event(None, o.done())
}

fn at_text(item: &str) -> (o: Object)
    ensures
        o@ == text_place(item@),
{
    let mut o = Object::new();
    o.add_str("item_id", item);
    o.add("output_index", Json::Pos(0));
    o.add("content_index", Json::Pos(0));
    o
}

fn at_item(index: usize, item: Json) -> (o: Object)
    ensures
        o@ == placed(index as int, item@),
{
    let mut o = Object::new();
    o.add("output_index", Json::Pos(index as u64));
    o.add("item", item);
    o
}

fn send_calls(v: &mut Vec<Frame>, calls: &Vec<Json>, base: usize, seq: u64, now: u64)
    requires
        base + calls@.len() <= usize::MAX,
        seq + 3 * calls@.len() <= u64::MAX,
    ensures
        frame_views(final(v)@) == call_frames(
            frame_views(old(v)@),
            list_views(calls@),
            base as int,
            seq as int,
            now,
            calls@.len() as int,
        ),
{
    let ghost lead = frame_views(v@);
    let ghost w = list_views(calls@);
    let mut n: u64 = seq;
    let mut i: usize = 0;
    while i < calls.len()
        invariant
            i <= calls.len(),
            w == list_views(calls@),
            base + calls@.len() <= usize::MAX,
            seq + 3 * calls@.len() <= u64::MAX,
            n == seq + 3 * i,
            frame_views(v@) == call_frames(lead, w, base as int, seq as int, now, i as int),
        decreases calls.len() - i,
    {
        assert(w[i as int] == calls@[i as int]@);
        let c = &calls[i];
        let id = stamp("fc_", now);
        let args = arguments_of(c);
        let item = call_entry(&id, id_of_call(c), name_of_call(c), Json::string(""), "in_progress");
        send(v, event("response.output_item.added", n, at_item(base + i, item)));
        let mut o = Object::new();
        o.add_str("item_id", &id);
        o.add("output_index", Json::Pos((base + i) as u64));
        o.add_str("delta", &args);
        send(v, event("response.function_call_arguments.delta", n + 1, o));
        let item = call_entry(
            &id,
            id_of_call(c),
            name_of_call(c),
            Json::string(&args),
            "completed",
        );
        send(v, event("response.output_item.done", n + 2, at_item(base + i, item)));
        n = n + 3;
        i += 1;
    }
}

/// The first event of a response.
pub fn open_response(id: &str, now: u64) -> (v: Vec<Frame>)
    ensures
        frame_views(v@) == response_opening(id@, now),
{
    let mut v = no_frames();
    let mut o = Object::new();
    o.add("response", empty_response_resource(id, "in_progress", now));
    send(&mut v, event("response.created", 0, o));
    v
}

impl ResponseState {
    /// A stream of a response after its first event.
    pub fn new() -> (s: ResponseState)
        ensures
            s == (ResponseState { seq: 1, text_started: false }),
    {
        ResponseState { seq: 1, text_started: false }
    }

    /// Events can still be numbered after a step with so many calls.
    pub open spec fn roomy(self, step: StepV) -> bool {
        let n = match step {
            StepV::Done(d) => d.tool_calls.len(),
            _ => 0,
        };
        self.seq + 8 + 3 * n <= u64::MAX && n + 1 <= usize::MAX
    }

    fn send_text(&mut self, v: &mut Vec<Frame>, item: &str, text: &str)
        requires
            old(self).seq + 8 <= u64::MAX,
        ensures
            frame_views(final(v)@) == frame_views(old(v)@) + text_frames(item@, *old(self), text@),
            *final(self) == (ResponseState {
                seq: (old(self).seq + text_frames(item@, *old(self), text@).len()) as u64,
                text_started: true,
            }),
    {
        let ghost before = frame_views(v@);
        let ghost want = text_frames(item@, *self, text@);
        if !self.text_started {
            let m = message_entry(item, "in_progress", no_items());
            send(v, event("response.output_item.added", self.seq, at_item(0, m)));
            let mut o = at_text(item);
            o.add("part", output_text_part(""));
            send(v, event("response.content_part.added", self.seq + 1, o));
            self.seq = self.seq + 2;
            self.text_started = true;
        }
        let mut o = at_text(item);
        o.add_str("delta", text);
        send(v, event("response.output_text.delta", self.seq, o));
        self.seq = self.seq + 1;
        assert(frame_views(v@) =~= before + want);
    }

    fn send_text_end(&mut self, v: &mut Vec<Frame>, item: &str, content: &str)
        requires
            old(self).seq + 8 <= u64::MAX,
            frame_views(old(v)@).len() == 0,
        ensures
            frame_views(final(v)@) == text_end_frames(item@, *old(self), content@),
            *final(self) == (ResponseState {
                seq: (old(self).seq + text_end_frames(item@, *old(self), content@).len()) as u64,
                ..*old(self)
            }),
    {
        assert(frame_views(v@) =~= Seq::empty());
        if self.text_started {
            let mut o = at_text(item);
            o.add_str("text", content);
            send(v, event("response.output_text.done", self.seq, o));
            let mut o = at_text(item);
            o.add("part", output_text_part(content));
            send(v, event("response.content_part.done", self.seq + 1, o));
            let mut list = no_items();
            push_item(&mut list, output_text_part(content));
            let m = message_entry(item, "completed", list);
            send(v, event("response.output_item.done", self.seq + 2, at_item(0, m)));
            self.seq = self.seq + 3;
        }
    }

    /// What a streamed response sends for a step, and whether that is the end;
    /// a complete reply is stored.
    pub fn stream_responses(
        &mut self,
        id: &str,
        item: &str,
        step: Reply,
        now: u64,
        body: &Json,
        store: &mut Store,
    ) -> (r: (Vec<Frame>, bool))
        requires
            countable(step@),
            old(self).roomy(step@),
        ensures
            (*final(self), frame_views(r.0@), r.1) == response_frames(
                id@,
                item@,
                *old(self),
                step@,
                now,
            ),
            final(store)@ == stored_after(old(store)@, id@, body@, step@, now),
    {
        let mut v = no_frames();
        match step {
            Reply::Start { prompt_tokens: _ } => (v, false),
            Reply::Delta { text, logprobs: _ } => {
                if !text.as_str().is_empty() {
                    let ghost want = text_frames(item@, *self, text@);
                    self.send_text(&mut v, item, &text);
                    assert(Seq::<FrameV>::empty() + want =~= want);
                }
                (v, false)
            },
            Reply::Done(d) => {
                let ghost start = *self;
                self.send_text_end(&mut v, item, &d.content);
                let ghost lead = text_end_frames(item@, start, d@.content);
                let base: usize = if self.text_started {
                    1
                } else {
                    0
                };
                assert(list_views(d.tool_calls@).len() == d.tool_calls@.len());
                send_calls(&mut v, &d.tool_calls, base, self.seq, now);
                let n: u64 = d.tool_calls.len() as u64;
                self.seq = self.seq + 3 * n;
                let payload = responses_payload_with_id(&d, id, now);
                store.store_conversation(id, body, &d, &payload);
                let mut o = Object::new();
                o.add("response", payload);
                let kind = if same_text(&d.finish, "length") {
                    "response.incomplete"
                } else {
                    "response.completed"
                };
                send(&mut v, event(kind, self.seq, o));
                self.seq = self.seq + 1;
                send(&mut v, Frame::Finished);
                send(&mut v, Frame::End);
                (v, true)
            },
            Reply::Error(e) => {
                send(&mut v, Frame::Event(None, typed_error_payload(&e, "engine_error")));
                send(&mut v, Frame::End);
                (v, true)
            },
        }
    }
}

// ---- what holds of every stream ----

/// A stream ends exactly with a complete reply or an error, and then with its
/// last frame, which nothing but the end sends.
pub proof fn streams_end_once(
    id: Seq<char>,
    item: Seq<char>,
    include_usage: bool,
    m: MessageState,
    r: ResponseState,
    step: StepV,
    now: u64,
)
    ensures
        ({
            let over = step is Done || step is Error;
            let chat = chat_frames(id, include_usage, step, now);
            let text = completion_frames(id, include_usage, step, now);
            let messages = message_frames(id, m, step);
            let response = response_frames(id, item, r, step, now);
            &&& chat.1 == over && ends_iff(chat.0, over)
            &&& text.1 == over && ends_iff(text.0, over)
            &&& messages.2 == over && ends_iff(messages.1, over)
            &&& response.2 == over && ends_iff(response.1, over)
        }),
{
    if let StepV::Done(d) = step {
        let n = d.tool_calls.len() as int;
        let (lead, first) = if m.text_started {
            (Seq::empty().push(block_stop(m.block)), (m.block + 1) as usize)
        } else {
            (Seq::empty(), m.block)
        };
        lemma_tool_frames_open(lead, d.tool_calls, first, n);
        let lead = text_end_frames(item, r, d.content);
        lemma_call_frames_open(
            lead,
            d.tool_calls,
            if r.text_started {
                1
            } else {
                0
            },
            r.seq + lead.len(),
            now,
            n,
        );
    }
}

/// The last frame is the end exactly when it should be, and no other is.
pub open spec fn ends_iff(f: Seq<FrameV>, over: bool) -> bool {
    &&& over ==> f.len() > 0 && f.last() is End
    &&& forall|i: int|
        0 <= i < f.len() - (if over {
            1int
        } else {
            0
        }) ==> !(#[trigger] f[i] is End)
}

proof fn lemma_tool_frames_open(lead: Seq<FrameV>, v: Seq<JsonV>, block: usize, k: int)
    requires
        forall|i: int| 0 <= i < lead.len() ==> !(#[trigger] lead[i] is End),
    ensures
        forall|i: int|
            0 <= i < tool_frames(lead, v, block, k).len() ==> !(#[trigger] tool_frames(
                lead,
                v,
                block,
                k,
            )[i] is End),
    decreases k,
{
    if k > 0 {
        lemma_tool_frames_open(lead, v, block, k - 1);
    }
}

proof fn lemma_call_frames_open(
    lead: Seq<FrameV>,
    v: Seq<JsonV>,
    base: int,
    seq: int,
    now: u64,
    k: int,
)
    requires
        forall|i: int| 0 <= i < lead.len() ==> !(#[trigger] lead[i] is End),
    ensures
        forall|i: int|
            0 <= i < call_frames(lead, v, base, seq, now, k).len() ==> !(#[trigger] call_frames(
                lead,
                v,
                base,
                seq,
                now,
                k,
            )[i] is End),
    decreases k,
{
    if k > 0 {
        lemma_call_frames_open(lead, v, base, seq, now, k - 1);
    }
}

/// The number of an event of a response.
pub open spec fn event_number(f: FrameV) -> Option<u64> {
    match f {
        FrameV::Event(_, j) => match j.field("sequence_number"@) {
            Some(JsonV::Pos(n)) => Some(n),
            _ => None,
        },
        _ => None,
    }
}

/// Frames numbered one after the other, from a number on.
pub open spec fn in_order(f: Seq<FrameV>, from: int) -> bool {
    forall|i: int| 0 <= i < f.len() ==> event_number(#[trigger] f[i]) == Some((from + i) as u64)
}

proof fn lemma_numbered(kind: Seq<char>, seq: int, rest: Members)
    ensures
        event_number(numbered(kind, seq, rest)) == Some(seq as u64),
{
    reveal_strlit("type");
    reveal_strlit("sequence_number");
    let m = Members::empty().push(("type"@, JsonV::Str(kind))).push(
        ("sequence_number"@, JsonV::Pos(seq as u64)),
    ) + rest;
    assert(m[0].0 == "type"@ && "type"@ != "sequence_number"@) by {
        assert("type"@.len() != "sequence_number"@.len());
    }
    assert(m[1] == ("sequence_number"@, JsonV::Pos(seq as u64)));
    assert(crate::json::key_place(m, "sequence_number"@, 1) == Some(1int));
    assert(crate::json::key_place(m, "sequence_number"@, 0) == Some(1int));
}

proof fn lemma_in_order_push(f: Seq<FrameV>, from: int, g: FrameV)
    requires
        in_order(f, from),
        event_number(g) == Some((from + f.len()) as u64),
    ensures
        in_order(f.push(g), from),
{
}

proof fn lemma_text_end_order(item: Seq<char>, s: ResponseState, content: Seq<char>)
    ensures
        in_order(text_end_frames(item, s, content), s.seq as int),
{
    if s.text_started {
        let f = text_end_frames(item, s, content);
        lemma_numbered(
            "response.output_text.done"@,
            s.seq as int,
            text_place(item).push(("text"@, JsonV::Str(content))),
        );
        lemma_numbered(
            "response.content_part.done"@,
            s.seq + 1,
            text_place(item).push(("part"@, output_text(content))),
        );
        lemma_numbered(
            "response.output_item.done"@,
            s.seq + 2,
            placed(
                0,
                message_item(item, "completed"@, Seq::empty().push(output_text(content))),
            ),
        );
        assert forall|i: int| 0 <= i < f.len() implies event_number(#[trigger] f[i]) == Some(
            (s.seq + i) as u64,
        ) by {
            assert(i == 0 || i == 1 || i == 2);
        }
    }
}

proof fn lemma_call_order(
    lead: Seq<FrameV>,
    v: Seq<JsonV>,
    base: int,
    from: int,
    seq: int,
    now: u64,
    k: int,
)
    requires
        0 <= k,
        seq == from + lead.len(),
        in_order(lead, from),
    ensures
        in_order(call_frames(lead, v, base, seq, now, k), from),
        call_frames(lead, v, base, seq, now, k).len() == lead.len() + 3 * k,
    decreases k,
{
    if k > 0 {
        lemma_call_order(lead, v, base, from, seq, now, k - 1);
        let f = call_frames(lead, v, base, seq, now, k - 1);
        let c = v[k - 1];
        let n = seq + 3 * (k - 1);
        let id = stamp_text("fc_"@, now);
        let at = base + k - 1;
        let g1 = placed(
            at,
            call_item(id, call_id_of(c), call_name_of(c), JsonV::Str(""@), "in_progress"@),
        );
        let g2 = Members::empty().push(("item_id"@, JsonV::Str(id))).push(
            ("output_index"@, JsonV::Pos(at as usize as u64)),
        ).push(("delta"@, JsonV::Str(arguments_text(c))));
        let g3 = placed(
            at,
            call_item(
                id,
                call_id_of(c),
                call_name_of(c),
                JsonV::Str(arguments_text(c)),
                "completed"@,
            ),
        );
        lemma_numbered("response.output_item.added"@, n, g1);
        lemma_numbered("response.function_call_arguments.delta"@, n + 1, g2);
        lemma_numbered("response.output_item.done"@, n + 2, g3);
        let h1 = f.push(numbered("response.output_item.added"@, n, g1));
        let h2 = h1.push(numbered("response.function_call_arguments.delta"@, n + 1, g2));
        lemma_in_order_push(f, from, numbered("response.output_item.added"@, n, g1));
        lemma_in_order_push(
            h1,
            from,
            numbered("response.function_call_arguments.delta"@, n + 1, g2),
        );
        lemma_in_order_push(h2, from, numbered("response.output_item.done"@, n + 2, g3));
    }
}

/// The events of a response are numbered without a gap: a step's events take
/// the next numbers in order, and the state holds the number after them.
pub proof fn events_are_numbered_in_order(
    id: Seq<char>,
    item: Seq<char>,
    s: ResponseState,
    step: StepV,
    now: u64,
)
    requires
        s.roomy(step),
        !(step is Error),
    ensures
        ({
            let (next, f, over) = response_frames(id, item, s, step, now);
            let n = f.len() - (if over {
                2int
            } else {
                0
            });
            &&& in_order(f.take(n), s.seq as int)
            &&& next.seq == s.seq + n
        }),
{
    let (next, f, over) = response_frames(id, item, s, step, now);
    match step {
        StepV::Delta(text, _) => {
            if text.len() > 0 {
                let g1 = placed(0, message_item(item, "in_progress"@, Seq::empty()));
                let g2 = text_place(item).push(("part"@, output_text(""@)));
                let g3 = text_place(item).push(("delta"@, JsonV::Str(text)));
                lemma_numbered("response.output_item.added"@, s.seq as int, g1);
                lemma_numbered("response.content_part.added"@, s.seq + 1, g2);
                lemma_numbered(
                    "response.output_text.delta"@,
                    s.seq + (if s.text_started {
                        0int
                    } else {
                        2
                    }),
                    g3,
                );
                assert(f.take(f.len() as int) =~= f);
                assert forall|i: int| 0 <= i < f.len() implies event_number(#[trigger] f[i])
                    == Some((s.seq + i) as u64) by {
                    assert(i == 0 || i == 1 || i == 2);
                }
            } else {
                assert(f.take(0) =~= f);
            }
        },
        StepV::Done(d) => {
            let lead = text_end_frames(item, s, d.content);
            let n = d.tool_calls.len() as int;
            let base = if s.text_started {
                1int
            } else {
                0
            };
            lemma_text_end_order(item, s, d.content);
            lemma_call_order(lead, d.tool_calls, base, s.seq as int, s.seq + lead.len(), now, n);
            let calls = call_frames(lead, d.tool_calls, base, s.seq + lead.len(), now, n);
            let kind = if d.finish == "length"@ {
                "response.incomplete"@
            } else {
                "response.completed"@
            };
            let rest = Members::empty().push(("response"@, response_of(d, id, now)));
            let last = s.seq + lead.len() + 3 * n;
            lemma_numbered(kind, last, rest);
            lemma_in_order_push(calls, s.seq as int, numbered(kind, last, rest));
            assert(f.take(f.len() - 2) =~= calls.push(numbered(kind, last, rest)));
        },
        _ => {
            assert(f.take(0) =~= f);
        },
    }
}

} // verus!
