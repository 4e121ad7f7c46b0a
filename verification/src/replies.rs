//! What a reply says on every surface, and that it can be read back.

use vstd::prelude::*;

use crate::calling::lemma_decimal;
use crate::chars::{is_space, trim_end, trim_start};
use crate::conversation::{blocks_add_up, calls, is_kind, one_block_says_it, says};
use crate::http::{length_in, lowered, request_words, route_of, word_len, RouteV, Surface};
use crate::json::{
    key_place, lemma_key_place, member, set_member, set_member_reads_back, value_or, JsonV,
    Members,
};
use crate::normalize::blocks_of;
use crate::payload::{
    assistant_message, call_input, call_items, chat_choice_of, completion_of, content_blocks,
    empty_response, message_of_reply, output_items, response_of, response_usage, text_block,
    text_choice_of, thinking_block, tool_use_block, tool_use_blocks, usage, ReplyV,
};
use crate::text::dec;

verus! {

/// A member that no earlier one shadows is the value of its key.
proof fn lemma_member(m: Members, i: int, key: Seq<char>, v: JsonV)
    requires
        0 <= i < m.len(),
        m[i] == (key, v),
        forall|j: int| 0 <= j < i ==> (#[trigger] m[j]).0 != key,
    ensures
        member(m, key) == Some(v),
{
    lemma_key_place(m, key, 0);
    match key_place(m, key, 0) {
        Some(p) => {
            if p < i {
                assert(m[p].0 != key);
            } else if i < p {
                assert(m[i].0 == key);
            }
        },
        None => {
            assert(m[i].0 == key);
        },
    }
}

/// A key that no member has is not there.
proof fn lemma_no_member(m: Members, key: Seq<char>)
    requires
        forall|j: int| 0 <= j < m.len() ==> (#[trigger] m[j]).0 != key,
    ensures
        member(m, key) is None,
{
    lemma_key_place(m, key, 0);
}

// ---- usage ----

/// The tokens of a reply are told apart, and add up.
pub proof fn usage_adds_up(prompt: usize, completion: usize)
    requires
        prompt + completion <= usize::MAX,
    ensures
        usage(prompt, completion).field("prompt_tokens"@) == Some(JsonV::Pos(prompt as u64)),
        usage(prompt, completion).field("completion_tokens"@) == Some(
            JsonV::Pos(completion as u64),
        ),
        usage(prompt, completion).field("total_tokens"@) == Some(
            JsonV::Pos((prompt + completion) as u64),
        ),
{
    reveal_strlit("prompt_tokens");
    reveal_strlit("completion_tokens");
    reveal_strlit("total_tokens");
    assert("prompt_tokens"@.len() == 13 && "completion_tokens"@.len() == 17);
    assert("total_tokens"@.len() == 12);
    let m = usage(prompt, completion)->Obj_0;
    lemma_member(m, 0, "prompt_tokens"@, JsonV::Pos(prompt as u64));
    lemma_member(m, 1, "completion_tokens"@, JsonV::Pos(completion as u64));
    lemma_member(m, 2, "total_tokens"@, JsonV::Pos((prompt + completion) as u64));
}

/// A response tells the same tokens.
pub proof fn response_usage_adds_up(d: ReplyV)
    requires
        d.countable(),
    ensures
        response_usage(d).field("input_tokens"@) == Some(JsonV::Pos(d.prompt_tokens as u64)),
        response_usage(d).field("output_tokens"@) == Some(JsonV::Pos(d.completion_tokens as u64)),
        response_usage(d).field("total_tokens"@) == Some(
            JsonV::Pos((d.prompt_tokens + d.completion_tokens) as u64),
        ),
{
    reveal_strlit("input_tokens");
    reveal_strlit("output_tokens");
    reveal_strlit("total_tokens");
    assert("input_tokens"@.len() == 12 && "output_tokens"@.len() == 13);
    assert("total_tokens"@.len() == 12 && "total_tokens"@[0] == 't' && "input_tokens"@[0] == 'i');
    let m = response_usage(d)->Obj_0;
    lemma_member(m, 0, "input_tokens"@, JsonV::Pos(d.prompt_tokens as u64));
    lemma_member(m, 1, "output_tokens"@, JsonV::Pos(d.completion_tokens as u64));
    lemma_member(
        m,
        2,
        "total_tokens"@,
        JsonV::Pos((d.prompt_tokens + d.completion_tokens) as u64),
    );
}

// ---- chat and text completions ----

proof fn lemma_message_keys()
    ensures
        "role"@.len() == 4,
        "content"@.len() == 7,
        "reasoning_content"@.len() == 17,
        "tool_calls"@.len() == 10,
{
    reveal_strlit("role");
    reveal_strlit("content");
    reveal_strlit("reasoning_content");
    reveal_strlit("tool_calls");
}

/// The message of a reply says its content as the assistant, its reasoning where
/// there is one, and its calls where there are any.
pub proof fn messages_say_the_reply(d: ReplyV)
    ensures
        says(assistant_message(d), "assistant"@, JsonV::Str(d.content)),
        assistant_message(d).field("reasoning_content"@) == (match d.reasoning {
            Some(r) => Some(JsonV::Str(r)),
            None => None,
        }),
        assistant_message(d).field("tool_calls"@) == (if d.tool_calls.len() > 0 {
            Some(JsonV::Arr(d.tool_calls))
        } else {
            None
        }),
{
    lemma_message_keys();
    let m = assistant_message(d)->Obj_0;
    lemma_member(m, 0, "role"@, JsonV::Str("assistant"@));
    lemma_member(m, 1, "content"@, JsonV::Str(d.content));
    match d.reasoning {
        Some(r) => {
            lemma_member(m, 2, "reasoning_content"@, JsonV::Str(r));
        },
        None => {
            lemma_no_member(m, "reasoning_content"@);
        },
    }
    if d.tool_calls.len() > 0 {
        lemma_member(m, m.len() - 1, "tool_calls"@, JsonV::Arr(d.tool_calls));
    } else {
        lemma_no_member(m, "tool_calls"@);
    }
}

proof fn lemma_choice_keys()
    ensures
        "index"@.len() == 5,
        "message"@.len() == 7,
        "finish_reason"@.len() == 13,
        "logprobs"@.len() == 8,
        "text"@.len() == 4,
{
    reveal_strlit("index");
    reveal_strlit("message");
    reveal_strlit("finish_reason");
    reveal_strlit("logprobs");
    reveal_strlit("text");
}

/// A choice carries the reply under its place, and why it ended.
pub proof fn choices_carry_the_reply(d: ReplyV, index: usize)
    ensures
        chat_choice_of(d, index).field("index"@) == Some(JsonV::Pos(index as u64)),
        chat_choice_of(d, index).field("message"@) == Some(assistant_message(d)),
        chat_choice_of(d, index).field("finish_reason"@) == Some(JsonV::Str(d.finish)),
        chat_choice_of(d, index).field("logprobs"@) == d.logprobs,
        text_choice_of(d, index).field("index"@) == Some(JsonV::Pos(index as u64)),
        text_choice_of(d, index).field("text"@) == Some(JsonV::Str(d.content)),
        text_choice_of(d, index).field("finish_reason"@) == Some(JsonV::Str(d.finish)),
        text_choice_of(d, index).field("logprobs"@) == Some(value_or(d.logprobs, JsonV::Null)),
{
    lemma_choice_keys();
    let m = chat_choice_of(d, index)->Obj_0;
    lemma_member(m, 0, "index"@, JsonV::Pos(index as u64));
    lemma_member(m, 1, "message"@, assistant_message(d));
    lemma_member(m, 2, "finish_reason"@, JsonV::Str(d.finish));
    match d.logprobs {
        Some(lp) => {
            lemma_member(m, 3, "logprobs"@, lp);
        },
        None => {
            lemma_no_member(m, "logprobs"@);
        },
    }
    let m = text_choice_of(d, index)->Obj_0;
    lemma_member(m, 0, "index"@, JsonV::Pos(index as u64));
    lemma_member(m, 1, "text"@, JsonV::Str(d.content));
    lemma_member(m, 2, "logprobs"@, value_or(d.logprobs, JsonV::Null));
    lemma_member(m, 3, "finish_reason"@, JsonV::Str(d.finish));
}

/// A completion carries its id, its time, its choices and its usage, and names what
/// it is.
pub proof fn completions_carry_their_choices(
    id: Seq<char>,
    now: u64,
    text: bool,
    choices: Seq<JsonV>,
    prompt: usize,
    completion: usize,
)
    ensures
        ({
            let c = completion_of(id, now, text, choices, prompt, completion);
            &&& c.field("id"@) == Some(JsonV::Str(id))
            &&& c.field("created"@) == Some(JsonV::Pos(now))
            &&& c.field("choices"@) == Some(JsonV::Arr(choices))
            &&& c.field("usage"@) == Some(usage(prompt, completion))
            &&& text ==> c.field("object"@) == Some(JsonV::Str("text_completion"@))
            &&& !text ==> c.field("object"@) == Some(JsonV::Str("chat.completion"@))
        }),
{
    reveal_strlit("id");
    reveal_strlit("object");
    reveal_strlit("created");
    reveal_strlit("model");
    reveal_strlit("choices");
    reveal_strlit("usage");
    assert("id"@.len() == 2 && "object"@.len() == 6 && "created"@.len() == 7);
    assert("model"@.len() == 5 && "choices"@.len() == 7 && "usage"@.len() == 5);
    assert("created"@[1] == 'r' && "choices"@[1] == 'h');
    assert("model"@[0] == 'm' && "usage"@[0] == 'u');
    let m = completion_of(id, now, text, choices, prompt, completion)->Obj_0;
    lemma_member(m, 0, "id"@, JsonV::Str(id));
    lemma_member(m, 1, "object"@, m[1].1);
    lemma_member(m, 2, "created"@, JsonV::Pos(now));
    lemma_member(m, 4, "choices"@, JsonV::Arr(choices));
    lemma_member(m, 5, "usage"@, usage(prompt, completion));
}

// ---- messages ----

proof fn lemma_block_keys()
    ensures
        "type"@.len() == 4,
        "text"@.len() == 4,
        "text"@ != "type"@,
        "thinking"@.len() == 8,
        "signature"@.len() == 9,
        "id"@.len() == 2,
        "name"@.len() == 4,
        "name"@ != "type"@,
        "input"@.len() == 5,
        "tool_use"@.len() == 8,
        "tool_use"@ != "thinking"@,
        "tool_result"@.len() == 11,
        "image"@.len() == 5,
{
    reveal_strlit("type");
    reveal_strlit("text");
    reveal_strlit("thinking");
    reveal_strlit("signature");
    reveal_strlit("id");
    reveal_strlit("name");
    reveal_strlit("input");
    reveal_strlit("tool_use");
    reveal_strlit("tool_result");
    reveal_strlit("image");
    assert("type"@[1] == 'y' && "text"@[1] == 'e' && "name"@[0] == 'n' && "type"@[0] == 't');
    assert("tool_use"@[1] == 'o' && "thinking"@[1] == 'h');
}

/// The blocks that a reply is written in.
proof fn lemma_blocks(r: Seq<char>, c: JsonV)
    ensures
        is_kind(text_block(r), "text"@),
        text_block(r).field("text"@) == Some(JsonV::Str(r)),
        is_kind(thinking_block(r), "thinking"@),
        thinking_block(r).field("thinking"@) == Some(JsonV::Str(r)),
        is_kind(tool_use_block(c), "tool_use"@),
        tool_use_block(c).field("id"@) == Some(value_or(c.field("id"@), JsonV::Str(""@))),
        tool_use_block(c).field("name"@) == Some(
            JsonV::Str(crate::json::text_or(c.within("function"@, "name"@), ""@)),
        ),
        tool_use_block(c).field("input"@) == Some(call_input(c)),
{
    lemma_block_keys();
    let m = text_block(r)->Obj_0;
    lemma_member(m, 0, "type"@, JsonV::Str("text"@));
    lemma_member(m, 1, "text"@, JsonV::Str(r));
    let m = thinking_block(r)->Obj_0;
    lemma_member(m, 0, "type"@, JsonV::Str("thinking"@));
    lemma_member(m, 1, "thinking"@, JsonV::Str(r));
    let m = tool_use_block(c)->Obj_0;
    lemma_member(m, 0, "type"@, JsonV::Str("tool_use"@));
    lemma_member(m, 1, "id"@, m[1].1);
    lemma_member(m, 2, "name"@, m[2].1);
    lemma_member(m, 3, "input"@, m[3].1);
}

/// A call as it is read from a block that a call is written in.
pub open spec fn same_call(c: JsonV, read: JsonV) -> bool {
    calls(
        read,
        value_or(c.field("id"@), JsonV::Str(""@)),
        JsonV::Str(crate::json::text_or(c.within("function"@, "name"@), ""@)),
        call_input(c),
    )
}

proof fn lemma_calls_read(lead: Seq<JsonV>, v: Seq<JsonV>, k: int)
    requires
        0 <= k <= v.len(),
    ensures
        ({
            let b = tool_use_blocks(lead, v, k);
            let (x, y) = (blocks_of(lead, lead.len() as int), blocks_of(b, b.len() as int));
            &&& y.text == x.text
            &&& y.reasoning == x.reasoning
            &&& y.results == x.results
            &&& y.tool_calls.len() == x.tool_calls.len() + k
            &&& forall|i: int| 0 <= i < k ==> same_call(v[i], #[trigger] y.tool_calls[
                x.tool_calls.len() + i])
        }),
    decreases k,
{
    if k > 0 {
        lemma_calls_read(lead, v, k - 1);
        let a = tool_use_blocks(lead, v, k - 1);
        let w = tool_use_block(v[k - 1]);
        let b = tool_use_blocks(lead, v, k);
        assert(b =~= a + seq![w]);
        blocks_add_up(a, seq![w]);
        one_block_says_it(w);
        lemma_blocks(Seq::empty(), v[k - 1]);
        lemma_block_keys();
        let x = blocks_of(lead, lead.len() as int);
        let z = blocks_of(a, a.len() as int);
        let o = blocks_of(seq![w], 1);
        let y = blocks_of(b, b.len() as int);
        assert(y.text =~= z.text);
        assert(y.reasoning =~= z.reasoning);
        assert(y.results =~= z.results);
        assert forall|i: int| 0 <= i < k implies same_call(v[i], #[trigger] y.tool_calls[
            x.tool_calls.len() + i]) by {
            if i < k - 1 {
                assert(y.tool_calls[x.tool_calls.len() + i] == z.tool_calls[x.tool_calls.len()
                    + i]);
            } else {
                assert(y.tool_calls[x.tool_calls.len() + i] == o.tool_calls[0]);
            }
        }
    }
}

/// What a reply is written into blocks as is what is read back from them: its text,
/// its reasoning, and every call with its id, its name and its input.
pub proof fn replies_are_read_back(d: ReplyV)
    ensures
        ({
            let b = content_blocks(d);
            let x = blocks_of(b, b.len() as int);
            &&& x.text == d.content
            &&& x.reasoning == (match d.reasoning {
                Some(r) => r,
                None => Seq::empty(),
            })
            &&& x.tool_calls.len() == d.tool_calls.len()
            &&& forall|i: int| 0 <= i < d.tool_calls.len() ==> same_call(
                d.tool_calls[i],
                #[trigger] x.tool_calls[i],
            )
            &&& x.results.len() == 0
        }),
{
    let none = Seq::<JsonV>::empty();
    let a = match d.reasoning {
        Some(r) => if r.len() > 0 {
            none.push(thinking_block(r))
        } else {
            none
        },
        None => none,
    };
    let b = if d.content.len() > 0 {
        a.push(text_block(d.content))
    } else {
        a
    };
    lemma_block_keys();
    lemma_blocks(d.content, JsonV::Null);
    let e = blocks_of(none, 0);
    assert(e.text.len() == 0 && e.reasoning.len() == 0 && e.tool_calls.len() == 0
        && e.results.len() == 0);
    let x = blocks_of(a, a.len() as int);
    match d.reasoning {
        Some(r) => {
            if r.len() > 0 {
                lemma_blocks(r, JsonV::Null);
                assert(a =~= seq![thinking_block(r)]);
                one_block_says_it(thinking_block(r));
            } else {
                assert(r =~= Seq::<char>::empty());
            }
        },
        None => {},
    }
    assert(x.text =~= Seq::<char>::empty());
    assert(x.reasoning =~= (match d.reasoning {
        Some(r) => r,
        None => Seq::empty(),
    }));
    let y = blocks_of(b, b.len() as int);
    if d.content.len() > 0 {
        let w = text_block(d.content);
        assert(b =~= a + seq![w]);
        blocks_add_up(a, seq![w]);
        one_block_says_it(w);
    }
    assert(y.text =~= d.content);
    assert(y.reasoning =~= x.reasoning);
    assert(y.tool_calls.len() == 0 && y.results.len() == 0);
    lemma_calls_read(b, d.tool_calls, d.tool_calls.len() as int);
    let c = content_blocks(d);
    let f = blocks_of(c, c.len() as int);
    assert forall|i: int| 0 <= i < d.tool_calls.len() implies same_call(
        d.tool_calls[i],
        #[trigger] f.tool_calls[i],
    ) by {
        assert(f.tool_calls[y.tool_calls.len() + i] == f.tool_calls[i]);
    }
}

/// The message of a reply carries its blocks and its tokens, and says why it ended:
/// at a stop sequence, which it names, with calls, for want of tokens, or of itself.
pub proof fn messages_carry_the_reply(d: ReplyV, id: Seq<char>)
    ensures
        ({
            let m = message_of_reply(d, id);
            &&& m.field("id"@) == Some(JsonV::Str(id))
            &&& m.field("role"@) == Some(JsonV::Str("assistant"@))
            &&& m.field("content"@) == Some(JsonV::Arr(content_blocks(d)))
            &&& m.within("usage"@, "input_tokens"@) == Some(JsonV::Pos(d.prompt_tokens as u64))
            &&& m.within("usage"@, "output_tokens"@) == Some(
                JsonV::Pos(d.completion_tokens as u64),
            )
            &&& match d.stop_sequence {
                Some(s) => m.field("stop_reason"@) == Some(JsonV::Str("stop_sequence"@))
                    && m.field("stop_sequence"@) == Some(JsonV::Str(s)),
                None => m.field("stop_sequence"@) == Some(JsonV::Null) && (d.finish
                    == "tool_calls"@ ==> m.field("stop_reason"@) == Some(JsonV::Str("tool_use"@)))
                    && (d.finish == "length"@ ==> m.field("stop_reason"@) == Some(
                    JsonV::Str("max_tokens"@),
                )) && (d.finish == "stop"@ ==> m.field("stop_reason"@) == Some(
                    JsonV::Str("end_turn"@),
                )),
            }
        }),
{
    reveal_strlit("id");
    reveal_strlit("type");
    reveal_strlit("role");
    reveal_strlit("model");
    reveal_strlit("content");
    reveal_strlit("stop_reason");
    reveal_strlit("stop_sequence");
    reveal_strlit("usage");
    reveal_strlit("input_tokens");
    reveal_strlit("output_tokens");
    reveal_strlit("tool_calls");
    reveal_strlit("length");
    reveal_strlit("stop");
    assert("id"@.len() == 2 && "type"@.len() == 4 && "role"@.len() == 4 && "model"@.len() == 5);
    assert("content"@.len() == 7 && "stop_reason"@.len() == 11 && "stop_sequence"@.len() == 13);
    assert("usage"@.len() == 5 && "input_tokens"@.len() == 12 && "output_tokens"@.len() == 13);
    assert("tool_calls"@.len() == 10 && "length"@.len() == 6 && "stop"@.len() == 4);
    assert("type"@[0] == 't' && "role"@[0] == 'r' && "model"@[0] == 'm' && "usage"@[0] == 'u');
    let m = message_of_reply(d, id)->Obj_0;
    lemma_member(m, 0, "id"@, JsonV::Str(id));
    lemma_member(m, 2, "role"@, JsonV::Str("assistant"@));
    lemma_member(m, 4, "content"@, JsonV::Arr(content_blocks(d)));
    lemma_member(m, 5, "stop_reason"@, m[5].1);
    lemma_member(m, 6, "stop_sequence"@, m[6].1);
    lemma_member(m, 7, "usage"@, m[7].1);
    let t = m[7].1->Obj_0;
    lemma_member(t, 0, "input_tokens"@, JsonV::Pos(d.prompt_tokens as u64));
    lemma_member(t, 1, "output_tokens"@, JsonV::Pos(d.completion_tokens as u64));
}

// ---- responses ----

proof fn lemma_item_keys()
    ensures
        "type"@.len() == 4,
        "id"@.len() == 2,
        "status"@.len() == 6,
        "role"@.len() == 4,
        "role"@ != "type"@,
        "content"@.len() == 7,
        "call_id"@.len() == 7,
        "name"@.len() == 4,
        "name"@ != "type"@,
        "arguments"@.len() == 9,
        "text"@.len() == 4,
        "text"@ != "type"@,
        "summary"@.len() == 7,
        "annotations"@.len() == 11,
{
    reveal_strlit("type");
    reveal_strlit("id");
    reveal_strlit("status");
    reveal_strlit("role");
    reveal_strlit("content");
    reveal_strlit("call_id");
    reveal_strlit("name");
    reveal_strlit("arguments");
    reveal_strlit("text");
    reveal_strlit("summary");
    reveal_strlit("annotations");
    assert("type"@[0] == 't' && "role"@[0] == 'r' && "name"@[0] == 'n');
    assert("type"@[1] == 'y' && "text"@[1] == 'e');
}

/// An item of output that is a message of one text.
pub open spec fn tells(item: JsonV, text: Seq<char>) -> bool {
    &&& item.field("type"@) == Some(JsonV::Str("message"@))
    &&& item.field("role"@) == Some(JsonV::Str("assistant"@))
    &&& item.field("content"@) matches Some(JsonV::Arr(v)) && v.len() == 1 && v[0].field("type"@)
        == Some(JsonV::Str("output_text"@)) && v[0].field("text"@) == Some(JsonV::Str(text))
}

/// An item of output that is a call.
pub open spec fn asks(item: JsonV, c: JsonV) -> bool {
    &&& item.field("type"@) == Some(JsonV::Str("function_call"@))
    &&& item.field("call_id"@) == Some(value_or(c.field("id"@), JsonV::Str(""@)))
    &&& item.field("name"@) == Some(value_or(c.within("function"@, "name"@), JsonV::Str(""@)))
    &&& item.field("arguments"@) == Some(
        value_or(c.within("function"@, "arguments"@), JsonV::Str(""@)),
    )
}

/// An item of output that is reasoning.
pub open spec fn thinks(item: JsonV, text: Seq<char>) -> bool {
    &&& item.field("type"@) == Some(JsonV::Str("reasoning"@))
    &&& item.field("summary"@) matches Some(JsonV::Arr(v)) && v.len() == 1 && v[0].field("text"@)
        == Some(JsonV::Str(text))
}

proof fn lemma_call_items(lead: Seq<JsonV>, v: Seq<JsonV>, now: u64, k: int)
    requires
        0 <= k <= v.len(),
    ensures
        call_items(lead, v, now, k).len() == lead.len() + k,
        call_items(lead, v, now, k).take(lead.len() as int) == lead,
        forall|i: int| 0 <= i < k ==> asks(
            #[trigger] call_items(lead, v, now, k)[lead.len() + i],
            v[i],
        ),
    decreases k,
{
    let all = call_items(lead, v, now, k);
    if k > 0 {
        lemma_call_items(lead, v, now, k - 1);
        let before = call_items(lead, v, now, k - 1);
        assert(all.take(lead.len() as int) =~= before.take(lead.len() as int));
        lemma_item_keys();
        let m = all.last()->Obj_0;
        lemma_member(m, 0, "type"@, m[0].1);
        lemma_member(m, 2, "call_id"@, m[2].1);
        lemma_member(m, 3, "name"@, m[3].1);
        lemma_member(m, 4, "arguments"@, m[4].1);
        assert forall|i: int| 0 <= i < k implies asks(#[trigger] all[lead.len() + i], v[i]) by {
            if i < k - 1 {
                assert(all[lead.len() + i] == before[lead.len() + i]);
            }
        }
    } else {
        assert(all.take(lead.len() as int) =~= lead);
    }
}

/// The output of a response is the reasoning, the text and the calls of the reply, in
/// this order, and nothing else.
pub proof fn outputs_tell_the_reply(d: ReplyV, now: u64)
    ensures
        ({
            let out = output_items(d, now);
            let r: int = if d.reasoning is Some && d.reasoning->0.len() > 0 {
                1
            } else {
                0
            };
            let c: int = if d.content.len() > 0 {
                1
            } else {
                0
            };
            &&& out.len() == r + c + d.tool_calls.len()
            &&& r == 1 ==> thinks(out[0], d.reasoning->0)
            &&& c == 1 ==> tells(out[r], d.content)
            &&& forall|i: int| 0 <= i < d.tool_calls.len() ==> asks(
                #[trigger] out[r + c + i],
                d.tool_calls[i],
            )
        }),
{
    lemma_item_keys();
    let out = output_items(d, now);
    let a = match d.reasoning {
        Some(r) => if r.len() > 0 {
            Seq::empty().push(crate::payload::reasoning_item(r, now))
        } else {
            Seq::empty()
        },
        None => Seq::empty(),
    };
    let b = if d.content.len() > 0 {
        a.push(
            crate::payload::message_item(
                crate::ids::stamp_text("msg_"@, now),
                "completed"@,
                Seq::empty().push(crate::payload::output_text(d.content)),
            ),
        )
    } else {
        a
    };
    lemma_call_items(b, d.tool_calls, now, d.tool_calls.len() as int);
    if a.len() > 0 {
        let m = a[0]->Obj_0;
        lemma_member(m, 0, "type"@, m[0].1);
        lemma_member(m, 2, "summary"@, m[2].1);
        let w = (m[2].1->Arr_0)[0]->Obj_0;
        lemma_member(w, 1, "text"@, w[1].1);
        assert(out[0] == out.take(b.len() as int)[0]);
    }
    if d.content.len() > 0 {
        let m = b[a.len() as int]->Obj_0;
        lemma_member(m, 0, "type"@, m[0].1);
        lemma_member(m, 3, "role"@, m[3].1);
        lemma_member(m, 4, "content"@, m[4].1);
        let w = (m[4].1->Arr_0)[0]->Obj_0;
        lemma_member(w, 0, "type"@, w[0].1);
        lemma_member(w, 1, "text"@, w[1].1);
        assert(out[a.len() as int] == out.take(b.len() as int)[a.len() as int]);
    }
}

/// A response carries the output, the text and the tokens of the reply; one that ran
/// out of tokens is incomplete and says so, every other is completed.
pub proof fn responses_carry_the_reply(d: ReplyV, id: Seq<char>, now: u64)
    ensures
        ({
            let r = response_of(d, id, now);
            &&& r.field("id"@) == Some(JsonV::Str(id))
            &&& r.field("output"@) == Some(JsonV::Arr(output_items(d, now)))
            &&& r.field("output_text"@) == Some(JsonV::Str(d.content))
            &&& r.field("usage"@) == Some(response_usage(d))
            &&& d.finish == "length"@ ==> r.field("status"@) == Some(JsonV::Str("incomplete"@))
                && r.within("incomplete_details"@, "reason"@) == Some(
                JsonV::Str("max_output_tokens"@),
            ) && r.field("completed_at"@) == Some(JsonV::Null)
            &&& d.finish != "length"@ ==> r.field("status"@) == Some(JsonV::Str("completed"@))
                && r.field("completed_at"@) == Some(JsonV::Pos(now))
        }),
{
    reveal_strlit("id");
    reveal_strlit("object");
    reveal_strlit("created_at");
    reveal_strlit("completed_at");
    reveal_strlit("status");
    reveal_strlit("output");
    reveal_strlit("output_text");
    reveal_strlit("usage");
    reveal_strlit("incomplete_details");
    assert("id"@.len() == 2 && "object"@.len() == 6 && "created_at"@.len() == 10);
    assert("completed_at"@.len() == 12 && "status"@.len() == 6 && "output"@.len() == 6);
    assert("output_text"@.len() == 11 && "usage"@.len() == 5 && "incomplete_details"@.len() == 18);
    assert("status"@[0] == 's' && "output"@[0] == 'o' && "object"@[0] == 'o');
    let cut = d.finish == "length"@;
    let e = empty_response(
        id,
        if cut {
            "incomplete"@
        } else {
            "completed"@
        },
        now,
    );
    let m0 = e->Obj_0;
    lemma_member(m0, 0, "id"@, JsonV::Str(id));
    lemma_member(m0, 4, "status"@, m0[4].1);
    let at = if cut {
        JsonV::Null
    } else {
        JsonV::Pos(now)
    };
    let m1 = set_member(m0, "completed_at"@, at);
    let out = JsonV::Arr(output_items(d, now));
    let m2 = set_member(m1, "output"@, out);
    let m3 = set_member(m2, "output_text"@, JsonV::Str(d.content));
    let m4 = set_member(m3, "usage"@, response_usage(d));
    let why = JsonV::Obj(Members::empty().push(("reason"@, JsonV::Str("max_output_tokens"@))));
    let m5 = set_member(m4, "incomplete_details"@, why);
    lemma_set(m0, "completed_at"@, at);
    lemma_set(m1, "output"@, out);
    lemma_set(m2, "output_text"@, JsonV::Str(d.content));
    lemma_set(m3, "usage"@, response_usage(d));
    lemma_set(m4, "incomplete_details"@, why);
    lemma_member(why->Obj_0, 0, "reason"@, JsonV::Str("max_output_tokens"@));
    assert(response_of(d, id, now) == JsonV::Obj(if cut {
        m5
    } else {
        m4
    }));
}

proof fn lemma_set(m: Members, k: Seq<char>, v: JsonV)
    ensures
        forall|key: Seq<char>| #[trigger]
            member(set_member(m, k, v), key) == (if key == k {
                Some(v)
            } else {
                member(m, key)
            }),
{
    assert forall|key: Seq<char>| #[trigger] member(set_member(m, k, v), key) == (if key == k {
        Some(v)
    } else {
        member(m, key)
    }) by {
        set_member_reads_back(m, k, v, key);
    }
}

// ---- requests ----

/// A word of a request line.
pub open spec fn is_word(s: Seq<char>) -> bool {
    s.len() > 0 && forall|i: int| 0 <= i < s.len() ==> !is_space(#[trigger] s[i])
}

proof fn lemma_word(w: Seq<char>, rest: Seq<char>)
    requires
        forall|i: int| 0 <= i < w.len() ==> !is_space(#[trigger] w[i]),
        rest.len() > 0 ==> is_space(rest[0]),
    ensures
        word_len(w + rest) == w.len(),
    decreases w.len(),
{
    let s = w + rest;
    if w.len() > 0 {
        assert(s[0] == w[0]);
        assert(s.skip(1) =~= w.skip(1) + rest);
        assert forall|i: int| 0 <= i < w.skip(1).len() implies !is_space(#[trigger] w.skip(1)[i]) by {
            assert(w.skip(1)[i] == w[i + 1]);
        }
        lemma_word(w.skip(1), rest);
    } else {
        assert(s =~= rest);
    }
}

/// A request line of a method and a path is read as that method and that path,
/// whatever follows.
pub proof fn request_lines_are_read(method: Seq<char>, path: Seq<char>, rest: Seq<char>)
    requires
        is_word(method),
        is_word(path),
        rest.len() > 0 ==> is_space(rest[0]),
    ensures
        request_words(method + (seq![' '] + (path + rest))) == (method, path),
{
    let tail = seq![' '] + (path + rest);
    let line = method + tail;
    assert(line[0] == method[0]);
    assert(trim_start(line) == line);
    lemma_word(method, tail);
    assert(line.take(method.len() as int) =~= method);
    assert(line.skip(method.len() as int) =~= tail);
    let p = path + rest;
    assert(tail[0] == ' ');
    assert(tail.skip(1) =~= p);
    assert(p[0] == path[0]);
    assert(trim_start(p) == p);
    assert(trim_start(tail) == p);
    lemma_word(path, rest);
    assert(p.take(path.len() as int) =~= path);
}

/// A header that tells the length of the body, however its letters are written, is
/// read as that length.
pub proof fn content_lengths_are_read(header: Seq<char>, n: usize)
    requires
        lowered(header) == "content-length:"@ + (seq![' '] + dec(n as nat)),
    ensures
        length_in(header) == Some(n),
{
    let h = lowered(header);
    let key = "content-length:"@;
    let d = dec(n as nat);
    let rest = seq![' '] + d;
    assert(h.take(key.len() as int) =~= key);
    assert(h.skip(key.len() as int) =~= rest);
    lemma_decimal(n as nat);
    assert(rest[0] == ' ');
    assert(rest.skip(1) =~= d);
    assert(trim_start(d) == d);
    assert(trim_start(rest) == d);
    assert(d.last() == crate::text::digit(n as nat % 10));
    assert(trim_end(d) == d);
    assert(d.skip(0) =~= d);
}

/// The path of a surface.
pub open spec fn surface_path(s: Surface) -> Seq<char> {
    match s {
        Surface::Chat => "/v1/chat/completions"@,
        Surface::Completions => "/v1/completions"@,
        Surface::Messages => "/v1/messages"@,
        Surface::Responses => "/v1/responses"@,
        Surface::CountTokens => "/v1/messages/count_tokens"@,
    }
}

/// A request is handed to a surface when it is posted to its path, and only then;
/// whatever else is answered was asked for with a get.
pub proof fn requests_go_where_they_are_sent(method: Seq<char>, path: Seq<char>, s: Surface)
    ensures
        route_of(method, path) == RouteV::Dispatch(s) <==> method == "POST"@ && path
            == surface_path(s),
        route_of(method, path) is Health || route_of(method, path) is Models || route_of(
            method,
            path,
        ) is Stored ==> method == "GET"@,
{
    reveal_strlit("GET");
    reveal_strlit("POST");
    reveal_strlit("/v1/chat/completions");
    reveal_strlit("/v1/completions");
    reveal_strlit("/v1/messages");
    reveal_strlit("/v1/responses");
    reveal_strlit("/v1/messages/count_tokens");
    assert("GET"@.len() == 3 && "POST"@.len() == 4);
    assert("/v1/chat/completions"@.len() == 20 && "/v1/completions"@.len() == 15);
    assert("/v1/messages"@.len() == 12 && "/v1/responses"@.len() == 13);
    assert("/v1/messages/count_tokens"@.len() == 25);
}

} // verus!
