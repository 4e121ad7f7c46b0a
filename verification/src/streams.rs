//! What a client reads from a streamed reply.

use vstd::prelude::*;

use crate::json::{key_place, lemma_key_place, member, text_or, value_or, JsonV, Members};
use crate::payload::{call_id_of, call_name_of, usage, ReplyV};
use crate::stream::{
    block_delta, block_start, block_stop, call_deltas, chat_chunk, chat_frames, chunk_of,
    completion_frames, message_delta, message_frames, text_choice, tool_block, tool_frames,
    typed_text, usage_chunk, FrameV, MessageState, StepV,
};

verus! {

/// The payload of an event.
pub open spec fn payload(f: FrameV) -> JsonV {
    match f {
        FrameV::Event(_, j) => j,
        _ => JsonV::Null,
    }
}

/// The only choice of a piece of a streamed completion.
pub open spec fn only_choice(j: JsonV) -> JsonV {
    match j.field("choices"@) {
        Some(JsonV::Arr(v)) => v[0],
        _ => JsonV::Null,
    }
}

/// The text that a piece of a streamed chat adds.
pub open spec fn chat_text(f: FrameV) -> Seq<char> {
    text_or(only_choice(payload(f)).within("delta"@, "content"@), Seq::empty())
}

/// The text that a piece of a streamed text completion adds.
pub open spec fn completion_text(f: FrameV) -> Seq<char> {
    text_or(only_choice(payload(f)).field("text"@), Seq::empty())
}

/// Why a streamed completion ended, where a piece says so.
pub open spec fn says_finish(f: FrameV) -> Option<JsonV> {
    only_choice(payload(f)).field("finish_reason"@)
}

proof fn lemma_member(m: Members, i: int, key: Seq<char>, v: JsonV)
    requires
        0 <= i < m.len(),
        m[i] == (key, v),
        forall|j: int| 0 <= j < i ==> (#[trigger] m[j]).0 != key,
    ensures
        member(m, key) == Some(v),
{
    lemma_key_place(m, key, 0);
    match key_place(m, key, 0) {
        Some(p) => {
            if p < i {
                assert(m[p].0 != key);
            } else if i < p {
                assert(m[i].0 == key);
            }
        },
        None => {
            assert(m[i].0 == key);
        },
    }
}

proof fn lemma_no_member(m: Members, key: Seq<char>)
    requires
        forall|j: int| 0 <= j < m.len() ==> (#[trigger] m[j]).0 != key,
    ensures
        member(m, key) is None,
{
    lemma_key_place(m, key, 0);
}

proof fn lemma_keys()
    ensures
        "id"@.len() == 2,
        "object"@.len() == 6,
        "created"@.len() == 7,
        "model"@.len() == 5,
        "choices"@.len() == 7,
        "choices"@ != "created"@,
        "usage"@.len() == 5,
        "usage"@ != "model"@,
        "usage"@ != "delta"@,
        "index"@.len() == 5,
        "delta"@.len() == 5,
        "delta"@ != "index"@,
        "finish_reason"@.len() == 13,
        "content"@.len() == 7,
        "role"@.len() == 4,
        "text"@.len() == 4,
        "type"@.len() == 4,
        "type"@ != "text"@,
        "function"@.len() == 8,
        "tool_calls"@.len() == 10,
        "partial_json"@.len() == 12,
        "content_block"@.len() == 13,
        "name"@.len() == 4,
        "name"@ != "type"@,
        "stop_reason"@.len() == 11,
        "output_tokens"@.len() == 13,
{
    reveal_strlit("id");
    reveal_strlit("object");
    reveal_strlit("created");
    reveal_strlit("model");
    reveal_strlit("choices");
    reveal_strlit("usage");
    reveal_strlit("index");
    reveal_strlit("delta");
    reveal_strlit("finish_reason");
    reveal_strlit("content");
    reveal_strlit("role");
    reveal_strlit("text");
    reveal_strlit("type");
    reveal_strlit("function");
    reveal_strlit("tool_calls");
    reveal_strlit("partial_json");
    reveal_strlit("content_block");
    reveal_strlit("name");
    reveal_strlit("stop_reason");
    reveal_strlit("output_tokens");
    assert("created"@[1] == 'r' && "choices"@[1] == 'h');
    assert("usage"@[0] == 'u' && "model"@[0] == 'm' && "index"@[0] == 'i' && "delta"@[0] == 'd');
    assert("type"@[1] == 'y' && "text"@[1] == 'e' && "name"@[0] == 'n' && "type"@[0] == 't');
}

proof fn lemma_chunk(object: Seq<char>, id: Seq<char>, now: u64, choice: JsonV)
    ensures
        only_choice(chunk_of(object, id, now, choice)) == choice,
        chunk_of(object, id, now, choice).field("id"@) == Some(JsonV::Str(id)),
        chunk_of(object, id, now, choice).field("object"@) == Some(JsonV::Str(object)),
{
    lemma_keys();
    let m = chunk_of(object, id, now, choice)->Obj_0;
    lemma_member(m, 0, "id"@, m[0].1);
    lemma_member(m, 1, "object"@, m[1].1);
    lemma_member(m, 4, "choices"@, m[4].1);
}

proof fn lemma_chat_chunk(
    id: Seq<char>,
    now: u64,
    delta: JsonV,
    finish: JsonV,
    logprobs: Option<JsonV>,
)
    ensures
        only_choice(chat_chunk(id, now, delta, finish, logprobs)).field("delta"@) == Some(delta),
        only_choice(chat_chunk(id, now, delta, finish, logprobs)).field("finish_reason"@) == Some(
            finish,
        ),
        only_choice(chat_chunk(id, now, delta, finish, logprobs)) is Obj,
{
    lemma_keys();
    let m = Members::empty().push(("index"@, JsonV::Pos(0))).push(("delta"@, delta)).push(
        ("finish_reason"@, finish),
    );
    let c = match logprobs {
        Some(lp) => m.push(("logprobs"@, lp)),
        None => m,
    };
    lemma_chunk("chat.completion.chunk"@, id, now, JsonV::Obj(c));
    lemma_member(c, 1, "delta"@, delta);
    lemma_member(c, 2, "finish_reason"@, finish);
}

/// A streamed chat sends every piece of text as one event that adds just that text
/// and does not end the reply.
pub proof fn chat_pieces_tell_the_text(
    id: Seq<char>,
    include_usage: bool,
    text: Seq<char>,
    logprobs: Option<JsonV>,
    now: u64,
)
    ensures
        ({
            let (f, over) = chat_frames(id, include_usage, StepV::Delta(text, logprobs), now);
            &&& f.len() == 1
            &&& !over
            &&& chat_text(f[0]) == text
            &&& says_finish(f[0]) == Some(JsonV::Null)
        }),
{
    lemma_keys();
    let d = Members::empty().push(("content"@, JsonV::Str(text)));
    lemma_chat_chunk(id, now, JsonV::Obj(d), JsonV::Null, logprobs);
    lemma_member(d, 0, "content"@, JsonV::Str(text));
}

proof fn lemma_call_deltas(v: Seq<JsonV>, k: int)
    requires
        0 <= k <= v.len(),
    ensures
        call_deltas(v, k).len() == k,
        forall|i: int|
            0 <= i < k ==> (#[trigger] call_deltas(v, k)[i]).field("index"@) == Some(
                JsonV::Pos(i as u64),
            ) && call_deltas(v, k)[i].field("id"@) == Some(
                value_or(v[i].field("id"@), JsonV::Null),
            ) && call_deltas(v, k)[i].field("function"@) == Some(
                value_or(v[i].field("function"@), JsonV::Null),
            ),
    decreases k,
{
    if k > 0 {
        lemma_call_deltas(v, k - 1);
        lemma_keys();
        let all = call_deltas(v, k);
        let m = all.last()->Obj_0;
        lemma_member(m, 0, "index"@, m[0].1);
        lemma_member(m, 1, "id"@, m[1].1);
        lemma_member(m, 3, "function"@, m[3].1);
        assert forall|i: int| 0 <= i < k implies (#[trigger] all[i]).field("index"@) == Some(
            JsonV::Pos(i as u64),
        ) && all[i].field("id"@) == Some(value_or(v[i].field("id"@), JsonV::Null))
            && all[i].field("function"@) == Some(value_or(v[i].field("function"@), JsonV::Null)) by {
            if i < k - 1 {
                assert(all[i] == call_deltas(v, k - 1)[i]);
            }
        }
    }
}

/// A streamed chat ends with its calls, each under its place with its id and its
/// function, then with why it ended, then with its tokens where they were asked for,
/// and adds no more text.
pub proof fn chats_end_with_their_calls(id: Seq<char>, include_usage: bool, d: ReplyV, now: u64)
    ensures
        ({
            let (f, over) = chat_frames(id, include_usage, StepV::Done(d), now);
            let c: int = if d.tool_calls.len() > 0 {
                1
            } else {
                0
            };
            let u: int = if include_usage {
                1
            } else {
                0
            };
            &&& over
            &&& f.len() == c + u + 3
            &&& c == 1 ==> (only_choice(payload(f[0])).within("delta"@, "tool_calls"@) matches Some(
                JsonV::Arr(v),
            ) && v.len() == d.tool_calls.len() && forall|i: int|
                0 <= i < v.len() ==> (#[trigger] v[i]).field("index"@) == Some(JsonV::Pos(i as u64))
                    && v[i].field("id"@) == Some(
                    value_or(d.tool_calls[i].field("id"@), JsonV::Null),
                ) && v[i].field("function"@) == Some(
                    value_or(d.tool_calls[i].field("function"@), JsonV::Null),
                ))
            &&& says_finish(f[c]) == Some(JsonV::Str(d.finish))
            &&& chat_text(f[c]).len() == 0
            &&& u == 1 ==> payload(f[c + 1]).field("usage"@) == Some(
                usage(d.prompt_tokens, d.completion_tokens),
            )
            &&& f[c + u + 1] is Finished
            &&& f[c + u + 2] is End
        }),
{
    lemma_keys();
    let v = call_deltas(d.tool_calls, d.tool_calls.len() as int);
    lemma_call_deltas(d.tool_calls, d.tool_calls.len() as int);
    let m = Members::empty().push(("tool_calls"@, JsonV::Arr(v)));
    lemma_chat_chunk(id, now, JsonV::Obj(m), JsonV::Null, None);
    lemma_member(m, 0, "tool_calls"@, JsonV::Arr(v));
    lemma_chat_chunk(id, now, JsonV::Obj(Members::empty()), JsonV::Str(d.finish), None);
    lemma_no_member(Members::empty(), "content"@);
    let w = usage_chunk(
        "chat.completion.chunk"@,
        id,
        now,
        d.prompt_tokens,
        d.completion_tokens,
    )->Obj_0;
    lemma_member(w, 5, "usage"@, w[5].1);
}

/// A streamed text completion sends every piece of text as one event that adds just
/// that text, and then why it ended.
pub proof fn completion_pieces_tell_the_text(
    id: Seq<char>,
    include_usage: bool,
    text: Seq<char>,
    logprobs: Option<JsonV>,
    d: ReplyV,
    now: u64,
)
    ensures
        ({
            let (f, over) = completion_frames(id, include_usage, StepV::Delta(text, logprobs), now);
            &&& f.len() == 1
            &&& !over
            &&& completion_text(f[0]) == text
            &&& says_finish(f[0]) == Some(JsonV::Null)
        }),
        ({
            let (f, over) = completion_frames(id, include_usage, StepV::Done(d), now);
            &&& over
            &&& completion_text(f[0]).len() == 0
            &&& says_finish(f[0]) == Some(JsonV::Str(d.finish))
        }),
{
    lemma_keys();
    lemma_chunk("text_completion"@, id, now, text_choice(text, JsonV::Null));
    let m = text_choice(text, JsonV::Null)->Obj_0;
    lemma_member(m, 1, "text"@, m[1].1);
    lemma_member(m, 2, "finish_reason"@, m[2].1);
    lemma_chunk("text_completion"@, id, now, text_choice(""@, JsonV::Str(d.finish)));
    let m = text_choice(""@, JsonV::Str(d.finish))->Obj_0;
    lemma_member(m, 1, "text"@, m[1].1);
    lemma_member(m, 2, "finish_reason"@, m[2].1);
    reveal_strlit("");
}

// ---- messages ----

/// An event that opens a block.
pub open spec fn opens(f: FrameV, index: int, kind: Seq<char>) -> bool {
    &&& payload(f).field("type"@) == Some(JsonV::Str("content_block_start"@))
    &&& payload(f).field("index"@) == Some(JsonV::Pos(index as u64))
    &&& payload(f).within("content_block"@, "type"@) == Some(JsonV::Str(kind))
}

/// An event that adds to a block.
pub open spec fn adds(f: FrameV, index: int, key: Seq<char>, text: Seq<char>) -> bool {
    &&& payload(f).field("type"@) == Some(JsonV::Str("content_block_delta"@))
    &&& payload(f).field("index"@) == Some(JsonV::Pos(index as u64))
    &&& payload(f).within("delta"@, key) == Some(JsonV::Str(text))
}

/// An event that closes a block.
pub open spec fn closes(f: FrameV, index: int) -> bool {
    &&& payload(f).field("type"@) == Some(JsonV::Str("content_block_stop"@))
    &&& payload(f).field("index"@) == Some(JsonV::Pos(index as u64))
}

proof fn lemma_block_events(index: usize, b: JsonV, kind: Seq<char>, key: Seq<char>, text: Seq<char>)
    requires
        b.field("type"@) == Some(JsonV::Str(kind)),
        key != "type"@,
    ensures
        opens(block_start(index, b), index as int, kind),
        payload(block_start(index, b)).field("content_block"@) == Some(b),
        forall|k: Seq<char>| #[trigger]
            adds(block_delta(index, typed_text(k, key, text)), index as int, key, text),
        closes(block_stop(index), index as int),
{
    lemma_keys();
    let m = payload(block_start(index, b))->Obj_0;
    lemma_member(m, 0, "type"@, m[0].1);
    lemma_member(m, 1, "index"@, m[1].1);
    lemma_member(m, 2, "content_block"@, m[2].1);
    assert forall|k: Seq<char>| #[trigger]
        adds(block_delta(index, typed_text(k, key, text)), index as int, key, text) by {
        let m = payload(block_delta(index, typed_text(k, key, text)))->Obj_0;
        lemma_member(m, 0, "type"@, m[0].1);
        lemma_member(m, 1, "index"@, m[1].1);
        lemma_member(m, 2, "delta"@, m[2].1);
        let w = typed_text(k, key, text)->Obj_0;
        lemma_member(w, 1, key, JsonV::Str(text));
    }
    let m = payload(block_stop(index))->Obj_0;
    lemma_member(m, 0, "type"@, m[0].1);
    lemma_member(m, 1, "index"@, m[1].1);
}

/// A stream of messages adds every piece of text to the block under way, which it
/// opens before the first.
pub proof fn message_pieces_tell_the_text(
    id: Seq<char>,
    s: MessageState,
    text: Seq<char>,
    logprobs: Option<JsonV>,
)
    requires
        text.len() > 0,
    ensures
        ({
            let (after, f, over) = message_frames(id, s, StepV::Delta(text, logprobs));
            &&& !over
            &&& after.text_started
            &&& after.block == s.block
            &&& f.len() == (if s.text_started {
                1int
            } else {
                2
            })
            &&& !s.text_started ==> opens(f[0], s.block as int, "text"@)
            &&& adds(f.last(), s.block as int, "text"@, text)
        }),
{
    lemma_keys();
    let b = typed_text("text"@, "text"@, ""@);
    let m = b->Obj_0;
    lemma_member(m, 0, "type"@, m[0].1);
    lemma_block_events(s.block, b, "text"@, "text"@, text);
    assert(adds(
        block_delta(s.block, typed_text("text_delta"@, "text"@, text)),
        s.block as int,
        "text"@,
        text,
    ));
}

proof fn lemma_tool_frames(lead: Seq<FrameV>, v: Seq<JsonV>, block: usize, k: int)
    requires
        0 <= k <= v.len(),
        block + v.len() <= usize::MAX,
    ensures
        tool_frames(lead, v, block, k).len() == lead.len() + 3 * k,
        tool_frames(lead, v, block, k).take(lead.len() as int) == lead,
        forall|i: int| #![trigger v[i]]
            0 <= i < k ==> tells_call(
                tool_frames(lead, v, block, k),
                lead.len() + 3 * i,
                block + i,
                v[i],
            ),
    decreases k,
{
    let all = tool_frames(lead, v, block, k);
    if k > 0 {
        lemma_tool_frames(lead, v, block, k - 1);
        let before = tool_frames(lead, v, block, k - 1);
        assert(all.take(lead.len() as int) =~= before.take(lead.len() as int));
        lemma_keys();
        reveal_strlit("tool_use");
        let c = v[k - 1];
        let b = tool_block(c);
        let m = b->Obj_0;
        lemma_member(m, 0, "type"@, m[0].1);
        lemma_member(m, 1, "id"@, m[1].1);
        lemma_member(m, 2, "name"@, m[2].1);
        let i = (block + k - 1) as usize;
        let t = crate::stream::arguments_text(c);
        lemma_block_events(i, b, "tool_use"@, "partial_json"@, t);
        assert(adds(
            block_delta(i, typed_text("input_json_delta"@, "partial_json"@, t)),
            i as int,
            "partial_json"@,
            t,
        ));
        assert forall|e: int| #![trigger v[e]] 0 <= e < k implies tells_call(
            all,
            lead.len() + 3 * e,
            block + e,
            v[e],
        ) by {
            let p = lead.len() + 3 * e;
            if e < k - 1 {
                assert(tells_call(before, p, block + e, v[e]));
                assert(all[p] == before[p] && all[p + 1] == before[p + 1] && all[p + 2] == before[p
                    + 2]);
            }
        }
    } else {
        assert(all.take(lead.len() as int) =~= lead);
    }
}

/// A call is told in three events: its block opens with its id and its name, gets its
/// arguments, and closes.
pub open spec fn tells_call(f: Seq<FrameV>, p: int, index: int, c: JsonV) -> bool {
    &&& 0 <= p
    &&& p + 3 <= f.len()
    &&& opens(f[p], index, "tool_use"@)
    &&& payload(f[p]).within("content_block"@, "id"@) == Some(call_id_of(c))
    &&& payload(f[p]).within("content_block"@, "name"@) == Some(call_name_of(c))
    &&& adds(f[p + 1], index, "partial_json"@, text_or(c.within("function"@, "arguments"@), "{}"@))
    &&& closes(f[p + 2], index)
}

/// A stream of messages ends by closing its text, telling every call in a block of its
/// own, and saying why it ended and how many tokens it took.
pub proof fn messages_end_with_their_calls(id: Seq<char>, s: MessageState, d: ReplyV)
    requires
        s.block + d.tool_calls.len() + 1 <= usize::MAX,
    ensures
        ({
            let (after, f, over) = message_frames(id, s, StepV::Done(d));
            let n = d.tool_calls.len() as int;
            let c: int = if s.text_started {
                1
            } else {
                0
            };
            &&& over
            &&& f.len() == c + 3 * n + 3
            &&& c == 1 ==> closes(f[0], s.block as int)
            &&& forall|i: int| #![trigger d.tool_calls[i]]
                0 <= i < n ==> tells_call(f, c + 3 * i, s.block + c + i, d.tool_calls[i])
            &&& payload(f[c + 3 * n]).within("usage"@, "output_tokens"@) == Some(
                JsonV::Pos(d.completion_tokens as u64),
            )
            &&& payload(f[c + 3 * n]).within("delta"@, "stop_reason"@) == Some(
                JsonV::Str(crate::payload::stop_reason(d.finish)),
            )
            &&& f.last() is End
        }),
{
    lemma_keys();
    let (after, f, over) = message_frames(id, s, StepV::Done(d));
    let n = d.tool_calls.len() as int;
    let (lead, first) = if s.text_started {
        (Seq::empty().push(block_stop(s.block)), (s.block + 1) as usize)
    } else {
        (Seq::<FrameV>::empty(), s.block)
    };
    let all = tool_frames(lead, d.tool_calls, first, n);
    lemma_tool_frames(lead, d.tool_calls, first, n);
    let t = Members::empty().push(("type"@, JsonV::Str("text"@)));
    lemma_member(t, 0, "type"@, JsonV::Str("text"@));
    lemma_block_events(s.block, JsonV::Obj(t), "text"@, "text"@, Seq::empty());
    if s.text_started {
        assert(f[0] == all.take(1)[0]);
    }
    assert forall|i: int| #![trigger d.tool_calls[i]] 0 <= i < n implies tells_call(
        f,
        lead.len() + 3 * i,
        first + i,
        d.tool_calls[i],
    ) by {
        let p = lead.len() + 3 * i;
        assert(tells_call(all, p, first + i, d.tool_calls[i]));
        assert(f[p] == all[p] && f[p + 1] == all[p + 1] && f[p + 2] == all[p + 2]);
    }
    let m = payload(message_delta(d.finish, d.completion_tokens))->Obj_0;
    lemma_member(m, 1, "delta"@, m[1].1);
    lemma_member(m, 2, "usage"@, m[2].1);
    lemma_member(m[1].1->Obj_0, 0, "stop_reason"@, (m[1].1->Obj_0)[0].1);
    lemma_member(m[2].1->Obj_0, 0, "output_tokens"@, (m[2].1->Obj_0)[0].1);
    assert(f[lead.len() + 3 * n] == message_delta(d.finish, d.completion_tokens));
}

} // verus!
