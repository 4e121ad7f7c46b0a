//! What a chat request asks for.

use vstd::prelude::*;

use crate::chat::{
    content_text, max_tokens_of, message_of, messages_of, parallel_of, part_texts, plain_message,
    seed_of, stops_of, texts_among, tool_name, tools_named, tools_of,
};
use crate::json::{natural_in, text_or, JsonV};
use crate::payload::{assistant_message, ReplyV};
use crate::reasoning::reasoned;
use crate::replies::messages_say_the_reply;

verus! {

// ---- messages ----

/// The texts of two lists of parts are the texts of the one, then of the other.
pub proof fn parts_add_up(a: Seq<JsonV>, b: Seq<JsonV>)
    ensures
        part_texts(a + b, (a + b).len() as int) == part_texts(a, a.len() as int) + part_texts(
            b,
            b.len() as int,
        ),
    decreases b.len(),
{
    if b.len() == 0 {
        assert(a + b =~= a);
        assert(part_texts(a, a.len() as int) + Seq::<char>::empty() =~= part_texts(
            a,
            a.len() as int,
        ));
    } else {
        let c = b.drop_last();
        parts_add_up(a, c);
        lemma_parts_prefix(a + b, a + c, (a + c).len() as int);
        lemma_parts_prefix(b, c, c.len() as int);
        let last = text_or(b.last().field("text"@), Seq::empty());
        let (x, y) = (part_texts(a, a.len() as int), part_texts(c, c.len() as int));
        assert((a + b)[(a + b).len() - 1] == b.last());
        assert((x + y) + last =~= x + (y + last));
    }
}

proof fn lemma_parts_prefix(v: Seq<JsonV>, w: Seq<JsonV>, k: int)
    requires
        0 <= k <= w.len() <= v.len(),
        forall|i: int| 0 <= i < k ==> v[i] == w[i],
    ensures
        part_texts(v, k) == part_texts(w, k),
    decreases k,
{
    if k > 0 {
        lemma_parts_prefix(v, w, k - 1);
    }
}

/// A content is the text that it is, or the text of its parts.
pub proof fn contents_are_read(text: Seq<char>, part: JsonV)
    ensures
        content_text(Some(JsonV::Str(text))) == text,
        part.field("text"@) == Some(JsonV::Str(text)) ==> content_text(
            Some(JsonV::Arr(seq![part])),
        ) == text,
        content_text(None).len() == 0,
{
    let v = seq![part];
    assert(part_texts(v, 0) =~= Seq::<char>::empty());
    if part.field("text"@) == Some(JsonV::Str(text)) {
        assert(part_texts(v, 1) == part_texts(v, 0) + text);
        assert(part_texts(v, 1) =~= text);
    }
}

/// A reply that comes back as a message of the conversation is the same reply: its
/// text, its reasoning and its calls.
pub proof fn replies_come_back(d: ReplyV)
    requires
        d.reasoning is Some || reasoned(d.content).0 is None,
    ensures
        message_of(assistant_message(d)).role == "assistant"@,
        message_of(assistant_message(d)).content == d.content,
        message_of(assistant_message(d)).reasoning_content == d.reasoning,
        message_of(assistant_message(d)).tool_calls == d.tool_calls,
{
    messages_say_the_reply(d);
    let m = assistant_message(d);
    contents_are_read(d.content, JsonV::Null);
    if d.tool_calls.len() == 0 {
        assert(d.tool_calls =~= Seq::<JsonV>::empty());
    }
}

/// A message of text is read as that text, in its role; without a role it is the
/// user's.
pub proof fn messages_are_read(m: JsonV, role: Seq<char>, text: Seq<char>)
    requires
        m.field("content"@) == Some(JsonV::Str(text)),
        role != "assistant"@,
    ensures
        m.field("role"@) == Some(JsonV::Str(role)) ==> message_of(m).role == role && message_of(
            m,
        ).content == text,
        m.field("role"@) is None ==> message_of(m).role == "user"@ && message_of(m).content == text,
{
    reveal_strlit("user");
    reveal_strlit("assistant");
    assert("user"@.len() == 4 && "assistant"@.len() == 9);
}

/// A conversation keeps its order: the system's words first, then every message.
pub proof fn conversations_keep_their_order(body: JsonV, messages: Seq<JsonV>, i: int)
    requires
        body.field("messages"@) == Some(JsonV::Arr(messages)),
        0 <= i < messages.len(),
    ensures
        body.field("system"@) is None ==> messages_of(body).len() == messages.len() && messages_of(
            body,
        )[i] == message_of(messages[i]),
        body.field("system"@) matches Some(JsonV::Str(s)) ==> messages_of(body).len()
            == messages.len() + 1 && messages_of(body)[0] == plain_message("system"@, s)
            && messages_of(body)[i + 1] == message_of(messages[i]),
{
}

// ---- tools ----

/// A tool has the name that its function has.
pub proof fn tools_have_their_functions_names(tool: JsonV, name: Seq<char>)
    ensures
        tool_name(tool) == Some(name) <==> tool.within("function"@, "name"@) == Some(
            JsonV::Str(name),
        ),
{
}

/// Naming a tool leaves the tools of that name, in their order, and no other.
pub proof fn named_tools_are_picked(tools: Seq<JsonV>, name: Seq<char>, k: int)
    requires
        0 <= k <= tools.len(),
    ensures
        tools_named(tools, name, k) == tools.take(k).filter(
            |t: JsonV| tool_name(t) == Some(name),
        ),
    decreases k,
{
    reveal(Seq::filter);
    if k > 0 {
        named_tools_are_picked(tools, name, k - 1);
        assert(tools.take(k).drop_last() =~= tools.take(k - 1));
        assert(tools.take(k).last() == tools[k - 1]);
    } else {
        assert(tools.take(0) =~= Seq::<JsonV>::empty());
    }
}

/// A request offers the tools that it lists; none where it wants none, and of one
/// name where it asks for that name.
pub proof fn choices_pick_tools(body: JsonV, tools: Seq<JsonV>, name: Seq<char>)
    requires
        body.field("tools"@) == Some(JsonV::Arr(tools)),
    ensures
        body.field("tool_choice"@) is None ==> tools_of(body) == tools,
        body.field("tool_choice"@) == Some(JsonV::Str("auto"@)) ==> tools_of(body) == tools,
        body.field("tool_choice"@) == Some(JsonV::Str("none"@)) ==> tools_of(body).len() == 0,
        body.field("tool_choice"@) matches Some(JsonV::Obj(m)) && JsonV::Obj(m).field("type"@)
            == Some(JsonV::Str("function"@)) && JsonV::Obj(m).within("function"@, "name"@) == Some(
            JsonV::Str(name),
        ) ==> tools_of(body) == tools.filter(|t: JsonV| tool_name(t) == Some(name)),
{
    named_tools_are_picked(tools, name, tools.len() as int);
    assert(tools.take(tools.len() as int) =~= tools);
    reveal_strlit("auto");
    reveal_strlit("none");
    assert("auto"@.len() == 4 && "none"@.len() == 4);
    assert("auto"@[0] == 'a' && "none"@[0] == 'n');
}

// ---- limits ----

proof fn lemma_all_texts(v: Seq<JsonV>, texts: Seq<Seq<char>>, k: int)
    requires
        v.len() == texts.len(),
        0 <= k <= v.len(),
        forall|i: int| 0 <= i < v.len() ==> #[trigger] v[i] == JsonV::Str(texts[i]),
    ensures
        texts_among(v, k) == texts.take(k),
    decreases k,
{
    if k > 0 {
        lemma_all_texts(v, texts, k - 1);
        assert(v[k - 1] == JsonV::Str(texts[k - 1]));
        assert(texts.take(k) =~= texts.take(k - 1).push(texts[k - 1]));
    } else {
        assert(texts.take(0) =~= Seq::<Seq<char>>::empty());
    }
}

/// The stops of a request are those that it names, in order: one text, or a list of
/// them.
pub proof fn stops_are_those_that_are_named(
    body: JsonV,
    one: Seq<char>,
    v: Seq<JsonV>,
    texts: Seq<Seq<char>>,
)
    requires
        v.len() == texts.len(),
        forall|i: int| 0 <= i < v.len() ==> #[trigger] v[i] == JsonV::Str(texts[i]),
    ensures
        body.field("stop"@) is None ==> stops_of(body).len() == 0,
        body.field("stop"@) == Some(JsonV::Str(one)) ==> stops_of(body) == seq![one],
        body.field("stop"@) == Some(JsonV::Arr(v)) ==> stops_of(body) == texts,
{
    lemma_all_texts(v, texts, v.len() as int);
    assert(texts.take(texts.len() as int) =~= texts);
    assert(Seq::empty().push(one) =~= seq![one]);
}

/// A request takes as many tokens as it asks for, the newer name before the older;
/// one that does not ask takes the limit.
pub proof fn tokens_are_those_that_are_asked_for(body: JsonV, limit: usize, n: u64)
    requires
        n <= usize::MAX,
    ensures
        body.field("max_completion_tokens"@) == Some(JsonV::Pos(n)) ==> max_tokens_of(body, limit)
            == n,
        body.field("max_completion_tokens"@) is None && body.field("max_tokens"@) == Some(
            JsonV::Pos(n),
        ) ==> max_tokens_of(body, limit) == n,
        body.field("max_completion_tokens"@) is None && body.field("max_tokens"@) is None
            ==> max_tokens_of(body, limit) == limit,
{
    assert(natural_in(Some(JsonV::Pos(n))) == Some(n));
}

/// A seed that is given is the seed, unless it is zero; two requests without one have
/// the same seed, which is not zero.
pub proof fn seeds_are_those_that_are_given(body: JsonV, other: JsonV, n: u64)
    ensures
        body.field("seed"@) == Some(JsonV::Pos(n)) && n != 0 ==> seed_of(body) == n,
        body.field("seed"@) is None && other.field("seed"@) is None ==> seed_of(body) == seed_of(
            other,
        ),
        seed_of(body) != 0,
        body.field("parallel_tool_calls"@) is None ==> parallel_of(body),
        body.field("parallel_tool_calls"@) == Some(JsonV::Bool(false)) ==> !parallel_of(body),
{
}

} // verus!
