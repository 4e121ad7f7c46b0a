//! What the requests of every surface say, and that the conversation says the same.

use vstd::prelude::*;

use crate::chat::{content_text, part_texts};
use crate::json::{lemma_key_place, member, set_member_reads_back, text_or, JsonV, Members};
use crate::normalize::{
    anthropic_messages, block_message, block_texts, blocks_of, completion_body, converted_message,
    converted_messages, definitions, function_definitions, input_message, input_messages,
    item_parts, joined_texts, message_call, messages_body, response_messages, responses_body,
    result_text, role_message, text_part, tool_definition, tool_message, Blocks,
};

verus! {

// ---- members of an object that is written ----

/// A member that is added stands behind those before.
pub proof fn added_member_is_last(m: Members, k: Seq<char>, v: JsonV, key: Seq<char>)
    ensures
        member(m.push((k, v)), key) == (match member(m, key) {
            Some(w) => Some(w),
            None => if k == key {
                Some(v)
            } else {
                None
            },
        }),
{
    let n = m.push((k, v));
    lemma_key_place(m, key, 0);
    lemma_key_place(n, key, 0);
    match (crate::json::key_place(m, key, 0), crate::json::key_place(n, key, 0)) {
        (Some(a), Some(b)) => {
            assert(n[a].0 == key);
            assert(b <= a);
            assert(m[b].0 == key);
        },
        (Some(a), None) => {
            assert(n[a].0 == key);
        },
        (None, Some(b)) => {
            assert(b < m.len() ==> m[b].0 == key);
        },
        (None, None) => {
            assert(n[m.len() as int].0 == k);
        },
    }
}

proof fn lemma_nothing(key: Seq<char>)
    ensures
        member(Members::empty(), key) is None,
{
}

proof fn lemma_pair(k1: Seq<char>, v1: JsonV, k2: Seq<char>, v2: JsonV)
    requires
        k1 != k2,
    ensures
        member(Members::empty().push((k1, v1)).push((k2, v2)), k1) == Some(v1),
        member(Members::empty().push((k1, v1)).push((k2, v2)), k2) == Some(v2),
{
    let a = Members::empty();
    lemma_nothing(k1);
    lemma_nothing(k2);
    added_member_is_last(a, k1, v1, k1);
    added_member_is_last(a, k1, v1, k2);
    added_member_is_last(a.push((k1, v1)), k2, v2, k1);
    added_member_is_last(a.push((k1, v1)), k2, v2, k2);
}

proof fn lemma_triple(k1: Seq<char>, v1: JsonV, k2: Seq<char>, v2: JsonV, k3: Seq<char>, v3: JsonV)
    requires
        k1 != k2,
        k1 != k3,
        k2 != k3,
    ensures
        member(Members::empty().push((k1, v1)).push((k2, v2)).push((k3, v3)), k1) == Some(v1),
        member(Members::empty().push((k1, v1)).push((k2, v2)).push((k3, v3)), k2) == Some(v2),
        member(Members::empty().push((k1, v1)).push((k2, v2)).push((k3, v3)), k3) == Some(v3),
{
    let b = Members::empty().push((k1, v1)).push((k2, v2));
    lemma_pair(k1, v1, k2, v2);
    lemma_nothing(k3);
    added_member_is_last(Members::empty(), k1, v1, k3);
    added_member_is_last(Members::empty().push((k1, v1)), k2, v2, k3);
    added_member_is_last(b, k3, v3, k1);
    added_member_is_last(b, k3, v3, k2);
    added_member_is_last(b, k3, v3, k3);
}

/// The keys of messages differ from each other.
proof fn lemma_keys()
    ensures
        "role"@ != "content"@,
        "role"@ != "tool_call_id"@,
        "content"@ != "tool_call_id"@,
        "role"@ != "reasoning_content"@,
        "role"@ != "tool_calls"@,
        "content"@ != "reasoning_content"@,
        "content"@ != "tool_calls"@,
        "reasoning_content"@ != "tool_calls"@,
        "id"@ != "type"@,
        "id"@ != "function"@,
        "type"@ != "function"@,
        "type"@ != "text"@,
        "name"@ != "arguments"@,
        "name"@ != "description"@,
        "name"@ != "parameters"@,
        "description"@ != "parameters"@,
        ""@ == Seq::<char>::empty(),
{
    reveal_strlit("role");
    reveal_strlit("content");
    reveal_strlit("tool_call_id");
    reveal_strlit("reasoning_content");
    reveal_strlit("tool_calls");
    reveal_strlit("id");
    reveal_strlit("type");
    reveal_strlit("text");
    reveal_strlit("function");
    reveal_strlit("name");
    reveal_strlit("arguments");
    reveal_strlit("description");
    reveal_strlit("parameters");
    reveal_strlit("");
    assert("role"@.len() == 4);
    assert("content"@.len() == 7);
    assert("tool_call_id"@.len() == 12);
    assert("reasoning_content"@.len() == 17);
    assert("tool_calls"@.len() == 10);
    assert("id"@.len() == 2);
    assert("type"@.len() == 4);
    assert("text"@.len() == 4);
    assert("function"@.len() == 8);
    assert("name"@.len() == 4);
    assert("arguments"@.len() == 9);
    assert("description"@.len() == 11);
    assert("parameters"@.len() == 10);
    assert(""@.len() == 0);
    assert("type"@[0] != "text"@[0] || "type"@[1] != "text"@[1]);
    assert("tool_calls"@.len() == 10);
    assert("parameters"@.len() == 10);
    assert(""@ =~= Seq::<char>::empty());
}

// ---- what is said in a message ----

/// A message that somebody wrote: by whom, and what.
pub open spec fn says(m: JsonV, role: Seq<char>, content: JsonV) -> bool {
    m.field("role"@) == Some(JsonV::Str(role)) && m.field("content"@) == Some(content)
}

/// A message that brings the result of a call.
pub open spec fn answers(m: JsonV, id: JsonV, content: JsonV) -> bool {
    says(m, "tool"@, content) && m.field("tool_call_id"@) == Some(id)
}

/// A call of a function, with its name and its arguments.
pub open spec fn calls(c: JsonV, id: JsonV, name: JsonV, arguments: JsonV) -> bool {
    &&& c.field("id"@) == Some(id)
    &&& c.field("type"@) == Some(JsonV::Str("function"@))
    &&& c.within("function"@, "name"@) == Some(name)
    &&& c.within("function"@, "arguments"@) == Some(arguments)
}

/// A tool that can be called.
pub open spec fn defines(d: JsonV, name: JsonV, description: JsonV, parameters: JsonV) -> bool {
    &&& d.field("type"@) == Some(JsonV::Str("function"@))
    &&& d.within("function"@, "name"@) == Some(name)
    &&& d.within("function"@, "description"@) == Some(description)
    &&& d.within("function"@, "parameters"@) == Some(parameters)
}

/// The messages that are made say what they are made of.
pub proof fn made_messages_say_it(
    role: Seq<char>,
    content: JsonV,
    id: JsonV,
    name: JsonV,
    arguments: JsonV,
    text: Seq<char>,
)
    ensures
        says(role_message(role, content), role, content),
        answers(tool_message(id, content), id, content),
        calls(message_call(id, name, arguments), id, name, arguments),
        text_part(text).field("type"@) == Some(JsonV::Str("text"@)),
        text_part(text).field("text"@) == Some(JsonV::Str(text)),
{
    lemma_keys();
    lemma_pair("role"@, JsonV::Str(role), "content"@, content);
    lemma_triple("role"@, JsonV::Str("tool"@), "tool_call_id"@, id, "content"@, content);
    lemma_pair("name"@, name, "arguments"@, arguments);
    let f = JsonV::Obj(Members::empty().push(("name"@, name)).push(("arguments"@, arguments)));
    lemma_triple("id"@, id, "type"@, JsonV::Str("function"@), "function"@, f);
    lemma_pair("type"@, JsonV::Str("text"@), "text"@, JsonV::Str(text));
}

// ---- blocks ----

/// A block of a kind.
pub open spec fn is_kind(b: JsonV, kind: Seq<char>) -> bool {
    b.field("type"@) == Some(JsonV::Str(kind))
}

/// The kinds of blocks differ from each other.
proof fn lemma_kinds()
    ensures
        "text"@ != "thinking"@,
        "text"@ != "tool_use"@,
        "text"@ != "tool_result"@,
        "text"@ != "image"@,
        "thinking"@ != "tool_use"@,
        "thinking"@ != "tool_result"@,
        "thinking"@ != "image"@,
        "tool_use"@ != "tool_result"@,
        "tool_use"@ != "image"@,
        "tool_result"@ != "image"@,
        ""@.len() == 0,
        "text"@.len() > 0,
        "thinking"@.len() > 0,
        "tool_use"@.len() > 0,
        "tool_result"@.len() > 0,
        "image"@.len() > 0,
{
    reveal_strlit("text");
    reveal_strlit("thinking");
    reveal_strlit("tool_use");
    reveal_strlit("tool_result");
    reveal_strlit("image");
    reveal_strlit("");
    assert("text"@.len() == 4);
    assert("thinking"@.len() == 8);
    assert("tool_use"@.len() == 8);
    assert("tool_result"@.len() == 11);
    assert("image"@.len() == 5);
    assert(""@.len() == 0);
    assert("thinking"@[1] != "tool_use"@[1]);
}

/// The blocks of a message come to what its parts come to, one after the other:
/// nothing that was read before is lost, and nothing is read twice.
pub proof fn blocks_add_up(a: Seq<JsonV>, b: Seq<JsonV>)
    ensures
        ({
            let (x, y, z) = (
                blocks_of(a, a.len() as int),
                blocks_of(b, b.len() as int),
                blocks_of(a + b, (a + b).len() as int),
            );
            &&& z.text == x.text + y.text
            &&& z.reasoning == x.reasoning + y.reasoning
            &&& z.tool_calls == x.tool_calls + y.tool_calls
            &&& z.parts == x.parts + y.parts
            &&& z.results == x.results + y.results
            &&& a.len() > 0 && b.len() > 0 ==> z.only_results == (x.only_results && y.only_results)
        }),
    decreases b.len(),
{
    if b.len() == 0 {
        assert(a + b =~= a);
        let x = blocks_of(a, a.len() as int);
        assert(x.text + Seq::<char>::empty() =~= x.text);
        assert(x.reasoning + Seq::<char>::empty() =~= x.reasoning);
        assert(x.tool_calls + Seq::<JsonV>::empty() =~= x.tool_calls);
        assert(x.parts + Seq::<JsonV>::empty() =~= x.parts);
        assert(x.results + Seq::<JsonV>::empty() =~= x.results);
    } else {
        let c = b.drop_last();
        blocks_add_up(a, c);
        let whole = a + b;
        lemma_blocks_prefix(whole, a + c, (a + c).len() as int);
        lemma_blocks_prefix(b, c, c.len() as int);
        assert(whole[whole.len() - 1] == b.last());
        let (x, y, z) = (
            blocks_of(a, a.len() as int),
            blocks_of(b, b.len() as int),
            blocks_of(whole, whole.len() as int),
        );
        assert(z.text =~= x.text + y.text);
        assert(z.reasoning =~= x.reasoning + y.reasoning);
        assert(z.tool_calls =~= x.tool_calls + y.tool_calls);
        assert(z.parts =~= x.parts + y.parts);
        assert(z.results =~= x.results + y.results);
    }
}

/// The first blocks come to the same in a longer list, but for whether there was
/// nothing else when there is none yet.
proof fn lemma_blocks_prefix(v: Seq<JsonV>, w: Seq<JsonV>, k: int)
    requires
        0 <= k <= w.len() <= v.len(),
        forall|i: int| 0 <= i < k ==> v[i] == w[i],
        v.len() > 0,
    ensures
        ({
            let (x, y) = (blocks_of(v, k), blocks_of(w, k));
            &&& x.text == y.text
            &&& x.reasoning == y.reasoning
            &&& x.tool_calls == y.tool_calls
            &&& x.parts == y.parts
            &&& x.results == y.results
            &&& w.len() > 0 ==> x.only_results == y.only_results
        }),
    decreases k,
{
    if k > 0 {
        lemma_blocks_prefix(v, w, k - 1);
    }
}

/// One block comes to what it says: a text is said, a thought is thought, a use of
/// a tool is a call with its name and input, a result answers its call, and an image
/// is a part.
pub proof fn one_block_says_it(b: JsonV)
    ensures
        ({
            let x = blocks_of(seq![b], 1);
            &&& is_kind(b, "text"@) ==> x.text == text_or(b.field("text"@), Seq::empty())
                && !x.only_results
            &&& !is_kind(b, "text"@) ==> x.text.len() == 0
            &&& is_kind(b, "thinking"@) ==> x.reasoning == text_or(
                b.field("thinking"@),
                Seq::empty(),
            ) && !x.only_results
            &&& !is_kind(b, "thinking"@) ==> x.reasoning.len() == 0
            &&& is_kind(b, "tool_use"@) ==> x.tool_calls.len() == 1 && !x.only_results && (
            b.field("id"@) matches Some(id) ==> b.field("name"@) matches Some(name) ==> b.field(
                "input"@,
            ) matches Some(input) ==> calls(x.tool_calls[0], id, name, input))
            &&& !is_kind(b, "tool_use"@) ==> x.tool_calls.len() == 0
            &&& is_kind(b, "tool_result"@) ==> x.results.len() == 1 && x.only_results && answers(
                x.results[0],
                JsonV::Str(text_or(b.field("tool_use_id"@), Seq::empty())),
                JsonV::Str(
                    match b.field("content"@) {
                        Some(c) => result_text(c),
                        None => Seq::empty(),
                    },
                ),
            )
            &&& !is_kind(b, "tool_result"@) ==> x.results.len() == 0
            &&& is_kind(b, "image"@) ==> x.parts.len() == 1 && x.parts[0].field("type"@) == Some(
                JsonV::Str("image"@),
            ) && !x.only_results
            &&& !is_kind(b, "image"@) ==> x.parts.len() == 0
        }),
{
    lemma_kinds();
    lemma_keys();
    let s = seq![b];
    let kind = text_or(b.field("type"@), ""@);
    assert(blocks_of(s, 0).text.len() == 0 && blocks_of(s, 0).reasoning.len() == 0);
    assert(blocks_of(s, 0).tool_calls.len() == 0 && blocks_of(s, 0).results.len() == 0);
    assert(blocks_of(s, 0).parts.len() == 0);
    match b.field("type"@) {
        Some(JsonV::Str(k)) => {
            assert(kind == k);
        },
        _ => {
            assert(kind == ""@);
            assert(kind.len() == 0);
        },
    }
    assert(blocks_of(s, 1) == crate::normalize::with_block(blocks_of(s, 0), b));
    let x = blocks_of(s, 1);
    assert(is_kind(b, "text"@) ==> x.text =~= text_or(b.field("text"@), Seq::empty()));
    assert(is_kind(b, "thinking"@) ==> x.reasoning =~= text_or(
        b.field("thinking"@),
        Seq::empty(),
    ));
    if let (Some(id), Some(name), Some(input)) = (b.field("id"@), b.field("name"@), b.field("input"@)) {
        made_messages_say_it(Seq::empty(), JsonV::Null, id, name, input, Seq::empty());
    }
    let id = JsonV::Str(text_or(b.field("tool_use_id"@), Seq::empty()));
    let content = JsonV::Str(
        match b.field("content"@) {
            Some(c) => result_text(c),
            None => Seq::empty(),
        },
    );
    made_messages_say_it(Seq::empty(), content, id, JsonV::Null, JsonV::Null, Seq::empty());
    if is_kind(b, "tool_result"@) {
        assert(x.results[0] == tool_message(id, content));
    }
    added_member_is_last(Members::empty(), "type"@, JsonV::Str("image"@), "type"@);
}

/// A message written in blocks becomes the answers to its calls, in order, and then
/// one message of the same role: its text, its thoughts and its calls. Of nothing but
/// answers no message is made.
pub proof fn written_message_is_read(m: JsonV, role: Seq<char>, blocks: Seq<JsonV>)
    requires
        m.field("role"@) == Some(JsonV::Str(role)),
        m.field("content"@) == Some(JsonV::Arr(blocks)),
    ensures
        ({
            let st = blocks_of(blocks, blocks.len() as int);
            let out = converted_message(m);
            let own = out.len() - 1;
            &&& st.only_results ==> out == st.results
            &&& !st.only_results ==> {
                &&& out.len() == st.results.len() + 1
                &&& out.take(own) == st.results
                &&& out[own].field("role"@) == Some(JsonV::Str(role))
                &&& st.parts.len() == 0 ==> out[own].field("content"@) == Some(JsonV::Str(st.text))
                &&& st.parts.len() > 0 ==> (out[own].field("content"@) matches Some(
                    JsonV::Arr(c),
                ) && c.len() == st.parts.len() + 1 && c.skip(1) == st.parts && c[0].field("text"@)
                    == Some(JsonV::Str(st.text)))
                &&& out[own].field("reasoning_content"@) == (if st.reasoning.len() > 0 {
                    Some(JsonV::Str(st.reasoning))
                } else {
                    None
                })
                &&& out[own].field("tool_calls"@) == (if st.tool_calls.len() > 0 {
                    Some(JsonV::Arr(st.tool_calls))
                } else {
                    None
                })
            }
        }),
{
    let st = blocks_of(blocks, blocks.len() as int);
    let out = converted_message(m);
    if !st.only_results {
        let own = out.len() - 1;
        assert(out.take(own) =~= st.results);
        assert(out[own] == block_message(role, st));
        lemma_block_message(role, st);
        if st.parts.len() > 0 {
            let c = Seq::empty().push(text_part(st.text)) + st.parts;
            assert(c.skip(1) =~= st.parts);
            assert(c[0] == text_part(st.text));
            made_messages_say_it(role, JsonV::Null, JsonV::Null, JsonV::Null, JsonV::Null, st.text);
        }
    }
}

proof fn lemma_block_message(role: Seq<char>, st: Blocks)
    ensures
        ({
            let j = block_message(role, st);
            let content = if st.parts.len() > 0 {
                JsonV::Arr(Seq::empty().push(text_part(st.text)) + st.parts)
            } else {
                JsonV::Str(st.text)
            };
            &&& says(j, role, content)
            &&& j.field("reasoning_content"@) == (if st.reasoning.len() > 0 {
                Some(JsonV::Str(st.reasoning))
            } else {
                None
            })
            &&& j.field("tool_calls"@) == (if st.tool_calls.len() > 0 {
                Some(JsonV::Arr(st.tool_calls))
            } else {
                None
            })
        }),
{
    lemma_keys();
    let content = if st.parts.len() > 0 {
        JsonV::Arr(Seq::empty().push(text_part(st.text)) + st.parts)
    } else {
        JsonV::Str(st.text)
    };
    let keys = seq!["role"@, "content"@, "reasoning_content"@, "tool_calls"@];
    let m0 = Members::empty();
    let m1 = m0.push(("role"@, JsonV::Str(role)));
    let m2 = m1.push(("content"@, content));
    let m3 = if st.reasoning.len() > 0 {
        m2.push(("reasoning_content"@, JsonV::Str(st.reasoning)))
    } else {
        m2
    };
    assert forall|i: int| 0 <= i < 4 implies member(
        (block_message(role, st))->Obj_0,
        #[trigger] keys[i],
    ) == (if i == 0 {
        Some(JsonV::Str(role))
    } else if i == 1 {
        Some(content)
    } else if i == 2 {
        if st.reasoning.len() > 0 {
            Some(JsonV::Str(st.reasoning))
        } else {
            None
        }
    } else {
        if st.tool_calls.len() > 0 {
            Some(JsonV::Arr(st.tool_calls))
        } else {
            None
        }
    }) by {
        let k = keys[i];
        lemma_nothing(k);
        added_member_is_last(m0, "role"@, JsonV::Str(role), k);
        added_member_is_last(m1, "content"@, content, k);
        added_member_is_last(m2, "reasoning_content"@, JsonV::Str(st.reasoning), k);
        added_member_is_last(m3, "tool_calls"@, JsonV::Arr(st.tool_calls), k);
    }
    assert(keys[0] == "role"@ && keys[1] == "content"@);
    assert(keys[2] == "reasoning_content"@ && keys[3] == "tool_calls"@);
}

/// A message that is one text stays one message of the same role with that text.
pub proof fn plain_message_is_kept(m: JsonV, role: Seq<char>, text: Seq<char>)
    requires
        m.field("role"@) == Some(JsonV::Str(role)),
        m.field("content"@) == Some(JsonV::Str(text)),
    ensures
        converted_message(m).len() == 1,
        says(converted_message(m)[0], role, JsonV::Str(text)),
{
    made_messages_say_it(role, JsonV::Str(text), JsonV::Null, JsonV::Null, JsonV::Null, text);
}

/// A conversation is read message by message: what comes of two stretches of it is
/// what comes of each, one after the other.
pub proof fn messages_keep_their_order(lead: Seq<JsonV>, a: Seq<JsonV>, b: Seq<JsonV>)
    ensures
        converted_messages(lead, a + b, (a + b).len() as int) == converted_messages(
            lead,
            a,
            a.len() as int,
        ) + converted_messages(Seq::empty(), b, b.len() as int),
        converted_messages(lead, a, a.len() as int).take(lead.len() as int) == lead,
        a.len() == 1 ==> converted_messages(Seq::empty(), a, 1) == converted_message(a[0]),
        input_messages(lead, a + b, (a + b).len() as int) == input_messages(
            lead,
            a,
            a.len() as int,
        ) + input_messages(Seq::empty(), b, b.len() as int),
        input_messages(lead, a, a.len() as int).take(lead.len() as int) == lead,
        input_messages(lead, a, a.len() as int).len() == lead.len() + a.len(),
        a.len() == 1 ==> input_messages(Seq::empty(), a, 1) == seq![input_message(a[0])],
    decreases b.len(), a.len(),
{
    lemma_lead_stays(lead, a, a.len() as int);
    if a.len() == 1 {
        assert(converted_messages(Seq::empty(), a, 0) =~= Seq::<JsonV>::empty());
        assert(converted_messages(Seq::empty(), a, 1) =~= converted_message(a[0]));
        assert(input_messages(Seq::empty(), a, 0) =~= Seq::<JsonV>::empty());
        assert(input_messages(Seq::empty(), a, 1) =~= seq![input_message(a[0])]);
    }
    if b.len() == 0 {
        assert(a + b =~= a);
        assert(converted_messages(lead, a, a.len() as int) + Seq::<JsonV>::empty()
            =~= converted_messages(lead, a, a.len() as int));
        assert(input_messages(lead, a, a.len() as int) + Seq::<JsonV>::empty() =~= input_messages(
            lead,
            a,
            a.len() as int,
        ));
    } else {
        let c = b.drop_last();
        messages_keep_their_order(lead, a, c);
        let whole = a + b;
        lemma_messages_prefix(lead, whole, a + c, (a + c).len() as int);
        lemma_messages_prefix(Seq::empty(), b, c, c.len() as int);
        assert(whole[whole.len() - 1] == b.last());
        assert(converted_messages(lead, whole, whole.len() as int) =~= converted_messages(
            lead,
            a,
            a.len() as int,
        ) + converted_messages(Seq::empty(), b, b.len() as int));
        assert(input_messages(lead, whole, whole.len() as int) =~= input_messages(
            lead,
            a,
            a.len() as int,
        ) + input_messages(Seq::empty(), b, b.len() as int));
    }
}

proof fn lemma_lead_stays(lead: Seq<JsonV>, v: Seq<JsonV>, k: int)
    requires
        0 <= k <= v.len(),
    ensures
        converted_messages(lead, v, k).len() >= lead.len(),
        converted_messages(lead, v, k).take(lead.len() as int) == lead,
        input_messages(lead, v, k).len() == lead.len() + k,
        input_messages(lead, v, k).take(lead.len() as int) == lead,
    decreases k,
{
    if k > 0 {
        lemma_lead_stays(lead, v, k - 1);
        let n = lead.len() as int;
        let (x, y) = (converted_messages(lead, v, k), converted_messages(lead, v, k - 1));
        assert(x.take(n) =~= y.take(n));
        let (x, y) = (input_messages(lead, v, k), input_messages(lead, v, k - 1));
        assert(x.take(n) =~= y.take(n));
    } else {
        assert(lead.take(lead.len() as int) =~= lead);
    }
}

proof fn lemma_messages_prefix(lead: Seq<JsonV>, v: Seq<JsonV>, w: Seq<JsonV>, k: int)
    requires
        0 <= k <= w.len() <= v.len(),
        forall|i: int| 0 <= i < k ==> v[i] == w[i],
    ensures
        converted_messages(lead, v, k) == converted_messages(lead, w, k),
        input_messages(lead, v, k) == input_messages(lead, w, k),
    decreases k,
{
    if k > 0 {
        lemma_messages_prefix(lead, v, w, k - 1);
    }
}

// ---- texts in parts ----

/// The texts of a list are the texts of its stretches, one after the other, and a
/// single text is itself.
pub proof fn texts_add_up(a: Seq<JsonV>, b: Seq<JsonV>)
    ensures
        joined_texts(a + b, (a + b).len() as int) == joined_texts(a, a.len() as int)
            + joined_texts(b, b.len() as int),
        block_texts(a + b, (a + b).len() as int) == block_texts(a, a.len() as int) + block_texts(
            b,
            b.len() as int,
        ),
        part_texts(a + b, (a + b).len() as int) == part_texts(a, a.len() as int) + part_texts(
            b,
            b.len() as int,
        ),
        item_parts(a + b, (a + b).len() as int).0 == item_parts(a, a.len() as int).0 + item_parts(
            b,
            b.len() as int,
        ).0,
        item_parts(a + b, (a + b).len() as int).1 == (item_parts(a, a.len() as int).1
            || item_parts(b, b.len() as int).1),
    decreases b.len(),
{
    let whole = a + b;
    if b.len() == 0 {
        assert(whole =~= a);
        let n = a.len() as int;
        let none = Seq::<char>::empty();
        assert(joined_texts(a, n) + none =~= joined_texts(a, n));
        assert(block_texts(a, n) + none =~= block_texts(a, n));
        assert(part_texts(a, n) + none =~= part_texts(a, n));
        assert(item_parts(a, n).0 + none =~= item_parts(a, n).0);
    } else {
        let c = b.drop_last();
        texts_add_up(a, c);
        lemma_texts_prefix(whole, a + c, (a + c).len() as int);
        lemma_texts_prefix(b, c, c.len() as int);
        assert(whole[whole.len() - 1] == b.last());
        let (n, m, k) = (whole.len() as int, a.len() as int, b.len() as int);
        assert(joined_texts(whole, n) =~= joined_texts(a, m) + joined_texts(b, k));
        assert(block_texts(whole, n) =~= block_texts(a, m) + block_texts(b, k));
        assert(part_texts(whole, n) =~= part_texts(a, m) + part_texts(b, k));
        assert(item_parts(whole, n).0 =~= item_parts(a, m).0 + item_parts(b, k).0);
    }
}

proof fn lemma_texts_prefix(v: Seq<JsonV>, w: Seq<JsonV>, k: int)
    requires
        0 <= k <= w.len() <= v.len(),
        forall|i: int| 0 <= i < k ==> v[i] == w[i],
    ensures
        joined_texts(v, k) == joined_texts(w, k),
        block_texts(v, k) == block_texts(w, k),
        part_texts(v, k) == part_texts(w, k),
        item_parts(v, k) == item_parts(w, k),
    decreases k,
{
    if k > 0 {
        lemma_texts_prefix(v, w, k - 1);
    }
}

/// A list of one holds the text of that one.
pub proof fn one_text_is_itself(j: JsonV, text: Seq<char>)
    ensures
        j == JsonV::Str(text) ==> joined_texts(seq![j], 1) == text && block_texts(seq![j], 1)
            == text,
        j.field("text"@) == Some(JsonV::Str(text)) ==> block_texts(seq![j], 1) == text
            && part_texts(seq![j], 1) == text,
        j.field("text"@) == Some(JsonV::Str(text)) && (is_kind(j, "input_text"@) || is_kind(
            j,
            "output_text"@,
        )) ==> item_parts(seq![j], 1).0 == text && !item_parts(seq![j], 1).1,
        is_kind(j, "input_image"@) || is_kind(j, "image"@) ==> item_parts(seq![j], 1).0.len() == 0
            && item_parts(seq![j], 1).1,
{
    let s = seq![j];
    reveal_strlit("input_text");
    reveal_strlit("output_text");
    reveal_strlit("input_image");
    reveal_strlit("image");
    assert("input_text"@.len() == 10);
    assert("output_text"@.len() == 11);
    assert("input_image"@.len() == 11);
    assert("output_text"@[0] == 'o');
    assert("input_image"@[0] == 'i');
    assert("image"@.len() == 5);
    assert(joined_texts(s, 0).len() == 0);
    assert(block_texts(s, 0).len() == 0);
    assert(part_texts(s, 0).len() == 0);
    assert(item_parts(s, 0).0.len() == 0);
    reveal_with_fuel(joined_texts, 2);
    reveal_with_fuel(block_texts, 2);
    reveal_with_fuel(part_texts, 2);
    reveal_with_fuel(item_parts, 2);
    assert(j == JsonV::Str(text) ==> joined_texts(s, 1) =~= text && block_texts(s, 1) =~= text);
    assert(j.field("text"@) == Some(JsonV::Str(text)) ==> block_texts(s, 1) =~= text && part_texts(
        s,
        1,
    ) =~= text);
    if j.field("text"@) == Some(JsonV::Str(text)) && (is_kind(j, "input_text"@) || is_kind(
        j,
        "output_text"@,
    )) {
        assert(item_parts(s, 1).0 =~= text);
    }
}

// ---- items of a response ----

/// An item of the input is read as what it is: a call, the output of a call, or a
/// message of its role with the text of its parts.
pub proof fn input_items_are_read(item: JsonV)
    ensures
        is_kind(item, "function_call"@) ==> {
            let m = input_message(item);
            &&& m.field("role"@) == Some(JsonV::Str("assistant"@))
            &&& m.field("tool_calls"@) matches Some(JsonV::Arr(c)) && c.len() == 1 && (item.field(
                "call_id"@,
            ) matches Some(id) ==> item.field("name"@) matches Some(name) ==> item.field(
                "arguments"@,
            ) matches Some(a) ==> calls(c[0], id, name, a))
        },
        is_kind(item, "function_call_output"@) ==> (item.field("call_id"@) matches Some(id)
            ==> item.field("output"@) matches Some(o) ==> answers(input_message(item), id, o)),
        !is_kind(item, "function_call"@) && !is_kind(item, "function_call_output"@) ==> (item.field(
            "role"@,
        ) matches Some(JsonV::Str(role)) ==> item.field("content"@) matches Some(JsonV::Arr(v))
            ==> {
            let m = input_message(item);
            let (text, image) = item_parts(v, v.len() as int);
            &&& m.field("role"@) == Some(JsonV::Str(role))
            &&& !image ==> m.field("content"@) == Some(JsonV::Str(text))
            &&& image ==> (m.field("content"@) matches Some(JsonV::Arr(c)) && c.len() == 2
                && c[0].field("text"@) == Some(JsonV::Str(text)) && c[1].field("type"@) == Some(
                JsonV::Str("image"@),
            ))
        }),
{
    lemma_keys();
    reveal_strlit("function_call");
    reveal_strlit("function_call_output");
    assert("function_call"@.len() == 13);
    assert("function_call_output"@.len() == 20);
    let kind = crate::json::text_in(item.field("type"@));
    assert(is_kind(item, "function_call"@) == (kind == Some("function_call"@)));
    assert(is_kind(item, "function_call_output"@) == (kind == Some("function_call_output"@)));
    if is_kind(item, "function_call"@) {
        let m = input_message(item);
        let (id, name, a) = (
            crate::json::value_or(item.field("call_id"@), JsonV::Str(""@)),
            crate::json::value_or(item.field("name"@), JsonV::Str(""@)),
            crate::json::value_or(item.field("arguments"@), JsonV::Str(""@)),
        );
        let c = Seq::empty().push(message_call(id, name, a));
        made_messages_say_it(Seq::empty(), JsonV::Null, id, name, a, Seq::empty());
        lemma_triple(
            "role"@,
            JsonV::Str("assistant"@),
            "content"@,
            JsonV::Str(""@),
            "tool_calls"@,
            JsonV::Arr(c),
        );
        assert(c.len() == 1 && c[0] == message_call(id, name, a));
    } else if is_kind(item, "function_call_output"@) {
        let (id, o) = (
            crate::json::value_or(item.field("call_id"@), JsonV::Str(""@)),
            crate::json::value_or(item.field("output"@), JsonV::Str(""@)),
        );
        made_messages_say_it(Seq::empty(), o, id, JsonV::Null, JsonV::Null, Seq::empty());
    } else {
        if let (Some(JsonV::Str(role)), Some(JsonV::Arr(v))) = (
            item.field("role"@),
            item.field("content"@),
        ) {
            let (text, image) = item_parts(v, v.len() as int);
            let c = Seq::empty().push(text_part(text)).push(crate::normalize::image_part());
            let content = if image {
                JsonV::Arr(c)
            } else {
                JsonV::Str(text)
            };
            made_messages_say_it(role, content, JsonV::Null, JsonV::Null, JsonV::Null, text);
            assert(input_message(item) == role_message(role, content));
            assert(c.len() == 2 && c[0] == text_part(text));
            added_member_is_last(Members::empty(), "type"@, JsonV::Str("image"@), "type"@);
        }
    }
}

// ---- tools ----

/// A tool keeps its name, its description and its schema.
pub proof fn tools_are_defined(t: JsonV, key: Seq<char>, name: Seq<char>, d: JsonV, schema: JsonV)
    requires
        t.field("name"@) == Some(JsonV::Str(name)),
        t.field("description"@) == Some(d),
        t.field(key) == Some(schema),
    ensures
        defines(tool_definition(t, key), JsonV::Str(name), d, schema),
{
    lemma_keys();
    lemma_triple("name"@, JsonV::Str(name), "description"@, d, "parameters"@, schema);
    let f = JsonV::Obj(
        Members::empty().push(("name"@, JsonV::Str(name))).push(("description"@, d)).push(
            ("parameters"@, schema),
        ),
    );
    lemma_pair("type"@, JsonV::Str("function"@), "function"@, f);
}

/// Every tool is defined, in order; of the tools of a response those that are
/// functions.
pub proof fn every_tool_is_defined(v: Seq<JsonV>, key: Seq<char>, i: int)
    requires
        0 <= i < v.len(),
    ensures
        definitions(v, key, v.len() as int).len() == v.len(),
        definitions(v, key, v.len() as int)[i] == tool_definition(v[i], key),
        (forall|j: int| 0 <= j < v.len() ==> is_kind(#[trigger] v[j], "function"@))
            ==> function_definitions(v, v.len() as int) == definitions(
            v,
            "parameters"@,
            v.len() as int,
        ),
{
    lemma_definitions(v, key, v.len() as int, i);
    if forall|j: int| 0 <= j < v.len() ==> is_kind(#[trigger] v[j], "function"@) {
        lemma_functions(v, v.len() as int);
    }
}

proof fn lemma_definitions(v: Seq<JsonV>, key: Seq<char>, k: int, i: int)
    requires
        0 <= k <= v.len(),
    ensures
        definitions(v, key, k).len() == k,
        0 <= i < k ==> definitions(v, key, k)[i] == tool_definition(v[i], key),
    decreases k,
{
    if k > 0 {
        lemma_definitions(v, key, k - 1, i);
    }
}

proof fn lemma_functions(v: Seq<JsonV>, k: int)
    requires
        0 <= k <= v.len(),
        forall|j: int| 0 <= j < v.len() ==> is_kind(#[trigger] v[j], "function"@),
    ensures
        function_definitions(v, k) == definitions(v, "parameters"@, k),
    decreases k,
{
    if k > 0 {
        lemma_functions(v, k - 1);
        assert(is_kind(v[k - 1], "function"@));
    }
}

// ---- whole requests ----

/// The keys of requests differ from each other.
proof fn lemma_body_keys()
    ensures
        "messages"@ != "tools"@,
        "messages"@ != "tool_choice"@,
        "messages"@ != "parallel_tool_calls"@,
        "messages"@ != "stop"@,
        "messages"@ != "chat_template_kwargs"@,
        "messages"@ != "stop_sequences"@,
        "messages"@ != "thinking"@,
        "messages"@ != "system"@,
        "messages"@ != "max_tokens"@,
        "messages"@ != "max_output_tokens"@,
        "messages"@ != "response_format"@,
        "messages"@ != "text"@,
        "messages"@ != "reasoning"@,
        "messages"@ != "instructions"@,
        "messages"@ != "input"@,
        "messages"@ != "prompt"@,
        "tools"@ != "tool_choice"@,
        "tools"@ != "parallel_tool_calls"@,
        "tools"@ != "stop"@,
        "tools"@ != "chat_template_kwargs"@,
        "tools"@ != "stop_sequences"@,
        "tools"@ != "thinking"@,
        "tools"@ != "system"@,
        "tools"@ != "max_tokens"@,
        "tools"@ != "max_output_tokens"@,
        "tools"@ != "response_format"@,
        "tools"@ != "text"@,
        "tools"@ != "reasoning"@,
        "tools"@ != "instructions"@,
        "tools"@ != "input"@,
        "tools"@ != "prompt"@,
        "tool_choice"@ != "parallel_tool_calls"@,
        "tool_choice"@ != "stop"@,
        "tool_choice"@ != "chat_template_kwargs"@,
        "tool_choice"@ != "stop_sequences"@,
        "tool_choice"@ != "thinking"@,
        "tool_choice"@ != "system"@,
        "tool_choice"@ != "max_tokens"@,
        "tool_choice"@ != "max_output_tokens"@,
        "tool_choice"@ != "response_format"@,
        "tool_choice"@ != "text"@,
        "tool_choice"@ != "reasoning"@,
        "tool_choice"@ != "instructions"@,
        "tool_choice"@ != "input"@,
        "tool_choice"@ != "prompt"@,
        "parallel_tool_calls"@ != "stop"@,
        "parallel_tool_calls"@ != "chat_template_kwargs"@,
        "parallel_tool_calls"@ != "stop_sequences"@,
        "parallel_tool_calls"@ != "thinking"@,
        "parallel_tool_calls"@ != "system"@,
        "parallel_tool_calls"@ != "max_tokens"@,
        "parallel_tool_calls"@ != "max_output_tokens"@,
        "parallel_tool_calls"@ != "response_format"@,
        "parallel_tool_calls"@ != "text"@,
        "parallel_tool_calls"@ != "reasoning"@,
        "parallel_tool_calls"@ != "instructions"@,
        "parallel_tool_calls"@ != "input"@,
        "parallel_tool_calls"@ != "prompt"@,
        "stop"@ != "chat_template_kwargs"@,
        "stop"@ != "stop_sequences"@,
        "stop"@ != "thinking"@,
        "stop"@ != "system"@,
        "stop"@ != "max_tokens"@,
        "stop"@ != "max_output_tokens"@,
        "stop"@ != "response_format"@,
        "stop"@ != "text"@,
        "stop"@ != "reasoning"@,
        "stop"@ != "instructions"@,
        "stop"@ != "input"@,
        "stop"@ != "prompt"@,
        "chat_template_kwargs"@ != "stop_sequences"@,
        "chat_template_kwargs"@ != "thinking"@,
        "chat_template_kwargs"@ != "system"@,
        "chat_template_kwargs"@ != "max_tokens"@,
        "chat_template_kwargs"@ != "max_output_tokens"@,
        "chat_template_kwargs"@ != "response_format"@,
        "chat_template_kwargs"@ != "text"@,
        "chat_template_kwargs"@ != "reasoning"@,
        "chat_template_kwargs"@ != "instructions"@,
        "chat_template_kwargs"@ != "input"@,
        "chat_template_kwargs"@ != "prompt"@,
        "stop_sequences"@ != "thinking"@,
        "stop_sequences"@ != "system"@,
        "stop_sequences"@ != "max_tokens"@,
        "stop_sequences"@ != "max_output_tokens"@,
        "stop_sequences"@ != "response_format"@,
        "stop_sequences"@ != "text"@,
        "stop_sequences"@ != "reasoning"@,
        "stop_sequences"@ != "instructions"@,
        "stop_sequences"@ != "input"@,
        "stop_sequences"@ != "prompt"@,
        "thinking"@ != "system"@,
        "thinking"@ != "max_tokens"@,
        "thinking"@ != "max_output_tokens"@,
        "thinking"@ != "response_format"@,
        "thinking"@ != "text"@,
        "thinking"@ != "reasoning"@,
        "thinking"@ != "instructions"@,
        "thinking"@ != "input"@,
        "thinking"@ != "prompt"@,
        "system"@ != "max_tokens"@,
        "system"@ != "max_output_tokens"@,
        "system"@ != "response_format"@,
        "system"@ != "text"@,
        "system"@ != "reasoning"@,
        "system"@ != "instructions"@,
        "system"@ != "input"@,
        "system"@ != "prompt"@,
        "max_tokens"@ != "max_output_tokens"@,
        "max_tokens"@ != "response_format"@,
        "max_tokens"@ != "text"@,
        "max_tokens"@ != "reasoning"@,
        "max_tokens"@ != "instructions"@,
        "max_tokens"@ != "input"@,
        "max_tokens"@ != "prompt"@,
        "max_output_tokens"@ != "response_format"@,
        "max_output_tokens"@ != "text"@,
        "max_output_tokens"@ != "reasoning"@,
        "max_output_tokens"@ != "instructions"@,
        "max_output_tokens"@ != "input"@,
        "max_output_tokens"@ != "prompt"@,
        "response_format"@ != "text"@,
        "response_format"@ != "reasoning"@,
        "response_format"@ != "instructions"@,
        "response_format"@ != "input"@,
        "response_format"@ != "prompt"@,
        "text"@ != "reasoning"@,
        "text"@ != "instructions"@,
        "text"@ != "input"@,
        "text"@ != "prompt"@,
        "reasoning"@ != "instructions"@,
        "reasoning"@ != "input"@,
        "reasoning"@ != "prompt"@,
        "instructions"@ != "input"@,
        "instructions"@ != "prompt"@,
        "input"@ != "prompt"@,
{
    reveal_strlit("messages");
    reveal_strlit("tools");
    reveal_strlit("tool_choice");
    reveal_strlit("parallel_tool_calls");
    reveal_strlit("stop");
    reveal_strlit("chat_template_kwargs");
    reveal_strlit("stop_sequences");
    reveal_strlit("thinking");
    reveal_strlit("system");
    reveal_strlit("max_tokens");
    reveal_strlit("max_output_tokens");
    reveal_strlit("response_format");
    reveal_strlit("text");
    reveal_strlit("reasoning");
    reveal_strlit("instructions");
    reveal_strlit("input");
    reveal_strlit("prompt");
    assert("messages"@.len() == 8);
    assert("tools"@.len() == 5);
    assert("tool_choice"@.len() == 11);
    assert("parallel_tool_calls"@.len() == 19);
    assert("stop"@.len() == 4);
    assert("chat_template_kwargs"@.len() == 20);
    assert("stop_sequences"@.len() == 14);
    assert("thinking"@.len() == 8);
    assert("system"@.len() == 6);
    assert("max_tokens"@.len() == 10);
    assert("max_output_tokens"@.len() == 17);
    assert("response_format"@.len() == 15);
    assert("text"@.len() == 4);
    assert("reasoning"@.len() == 9);
    assert("instructions"@.len() == 12);
    assert("input"@.len() == 5);
    assert("prompt"@.len() == 6);
    assert("messages"@[0] != "thinking"@[0]);
    assert("tools"@[0] != "input"@[0]);
    assert("stop"@[0] != "text"@[0]);
    assert("system"@[0] != "prompt"@[0]);
}

proof fn lemma_with(b: JsonV, key: Seq<char>, v: JsonV, other: Seq<char>)
    requires
        b.settable(),
    ensures
        b.with(key, v) is Obj,
        b.with(key, v).field(key) == Some(v),
        other != key ==> b.with(key, v).field(other) == b.field(other),
{
    match b {
        JsonV::Obj(m) => {
            set_member_reads_back(m, key, v, other);
        },
        _ => {
            let m = Members::empty();
            lemma_nothing(key);
            lemma_nothing(other);
            added_member_is_last(m, key, v, key);
            added_member_is_last(m, key, v, other);
            assert(seq![(key, v)] =~= m.push((key, v)));
        },
    }
}

/// A messages request, brought into the shape of a chat, holds the conversation, the
/// tools and the stop sequences that were sent, and keeps every other member.
pub proof fn messages_requests_keep_what_they_say(b: JsonV, other: Seq<char>)
    requires
        b is Obj,
        other != "messages"@,
        other != "tools"@,
        other != "tool_choice"@,
        other != "parallel_tool_calls"@,
        other != "stop"@,
        other != "chat_template_kwargs"@,
    ensures
        ({
            let c = messages_body(b);
            &&& c.field("messages"@) == Some(JsonV::Arr(anthropic_messages(b)))
            &&& b.field("tools"@) matches Some(JsonV::Arr(v)) ==> c.field("tools"@) == Some(
                JsonV::Arr(definitions(v, "input_schema"@, v.len() as int)),
            )
            &&& b.field("stop_sequences"@) matches Some(s) ==> c.field("stop"@) == Some(s)
            &&& c.field(other) == b.field(other)
            &&& is_kind(b.field("thinking"@)->0, "disabled"@) && b.field("thinking"@) is Some
                ==> c.within("chat_template_kwargs"@, "enable_thinking"@) == Some(
                JsonV::Bool(false),
            )
        }),
{
    lemma_body_keys();
    let b1 = b.with("messages"@, JsonV::Arr(anthropic_messages(b)));
    let b2 = crate::normalize::with_anthropic_tools(b1);
    let b3 = crate::normalize::with_anthropic_choice(b2);
    let b4 = crate::normalize::with_anthropic_stops(b3);
    let b5 = messages_body(b);
    let keys = seq!["messages"@, "tools"@, "stop"@, "stop_sequences"@, "thinking"@, other];
    let off = crate::normalize::thinking_off();
    added_member_is_last(Members::empty(), "enable_thinking"@, JsonV::Bool(false), "enable_thinking"@);
    assert forall|i: int| 0 <= i < 6 implies {
        let k = #[trigger] keys[i];
        &&& b1 is Obj && b2 is Obj && b3 is Obj && b4 is Obj && b5 is Obj
        &&& i == 0 ==> b5.field(k) == Some(JsonV::Arr(anthropic_messages(b)))
        &&& i == 1 ==> (b.field(k) matches Some(JsonV::Arr(v)) ==> b5.field(k) == Some(
            JsonV::Arr(definitions(v, "input_schema"@, v.len() as int)),
        ))
        &&& i == 2 ==> (b.field("stop_sequences"@) matches Some(s) ==> b5.field(k) == Some(s))
        &&& i >= 3 ==> b5.field(k) == b.field(k) && b4.field(k) == b.field(k) && b3.field(k) == b.field(k)
    } by {
        let k = keys[i];
        lemma_with(b, "messages"@, JsonV::Arr(anthropic_messages(b)), k);
        lemma_with(b, "messages"@, JsonV::Arr(anthropic_messages(b)), "tools"@);
        lemma_with(b, "messages"@, JsonV::Arr(anthropic_messages(b)), "stop_sequences"@);
        let defs = JsonV::Arr(
            definitions(
                crate::json::items_in(b1.field("tools"@))->0,
                "input_schema"@,
                crate::json::items_in(b1.field("tools"@))->0.len() as int,
            ),
        );
        lemma_with(b1, "tools"@, defs, k);
        lemma_with(b1, "tools"@, defs, "stop_sequences"@);
        let tc = b2.field("tool_choice"@)->0;
        let mapped = crate::normalize::mapped_choice(crate::json::text_in(tc.field("type"@))->0, tc);
        lemma_with(b2, "tool_choice"@, mapped, k);
        lemma_with(b2, "tool_choice"@, mapped, "stop_sequences"@);
        let mid = b2.with("tool_choice"@, mapped);
        lemma_with(mid, "parallel_tool_calls"@, JsonV::Bool(false), k);
        lemma_with(mid, "parallel_tool_calls"@, JsonV::Bool(false), "stop_sequences"@);
        lemma_with(b2, "parallel_tool_calls"@, JsonV::Bool(false), k);
        lemma_with(b2, "parallel_tool_calls"@, JsonV::Bool(false), "stop_sequences"@);
        lemma_with(b3, "stop"@, b3.field("stop_sequences"@)->0, k);
        lemma_with(b4, "chat_template_kwargs"@, off, k);
    }
    assert(keys[0] == "messages"@ && keys[1] == "tools"@ && keys[2] == "stop"@);
    assert(keys[4] == "thinking"@ && keys[5] == other);
    assert(b4.field(keys[4]) == b.field("thinking"@));
    lemma_with(b4, "chat_template_kwargs"@, off, other);
}

/// A responses request, brought into the shape of a chat, holds the conversation, the
/// tools and the limit that were sent, and keeps every other member.
pub proof fn responses_requests_keep_what_they_say(b: JsonV, other: Seq<char>)
    requires
        b is Obj,
        other != "messages"@,
        other != "tools"@,
        other != "tool_choice"@,
        other != "response_format"@,
        other != "max_tokens"@,
        other != "chat_template_kwargs"@,
    ensures
        ({
            let c = responses_body(b);
            &&& c.field("messages"@) == Some(JsonV::Arr(response_messages(b)))
            &&& b.field("tools"@) matches Some(JsonV::Arr(v)) ==> c.field("tools"@) == Some(
                JsonV::Arr(function_definitions(v, v.len() as int)),
            )
            &&& b.field("max_output_tokens"@) matches Some(n) ==> c.field("max_tokens"@) == Some(n)
            &&& c.field(other) == b.field(other)
            &&& b.within("reasoning"@, "effort"@) == Some(JsonV::Str("none"@)) ==> c.within(
                "chat_template_kwargs"@,
                "enable_thinking"@,
            ) == Some(JsonV::Bool(false))
        }),
{
    lemma_body_keys();
    let b1 = b.with("messages"@, JsonV::Arr(response_messages(b)));
    let b2 = crate::normalize::with_response_tools(b1);
    let b3 = crate::normalize::with_response_choice(b2);
    let b4 = crate::normalize::with_response_format(b3);
    let b5 = crate::normalize::with_response_limit(b4);
    let b6 = responses_body(b);
    let keys = seq![
        "messages"@,
        "tools"@,
        "max_tokens"@,
        "max_output_tokens"@,
        "reasoning"@,
        other,
    ];
    let off = crate::normalize::thinking_off();
    added_member_is_last(
        Members::empty(),
        "enable_thinking"@,
        JsonV::Bool(false),
        "enable_thinking"@,
    );
    assert forall|i: int| 0 <= i < 6 implies {
        let k = #[trigger] keys[i];
        &&& b1 is Obj && b2 is Obj && b3 is Obj && b4 is Obj && b5 is Obj && b6 is Obj
        &&& i == 0 ==> b6.field(k) == Some(JsonV::Arr(response_messages(b)))
        &&& i == 1 ==> (b.field(k) matches Some(JsonV::Arr(v)) ==> b6.field(k) == Some(
            JsonV::Arr(function_definitions(v, v.len() as int)),
        ))
        &&& i == 2 ==> (b.field("max_output_tokens"@) matches Some(n) ==> b6.field(k) == Some(n))
        &&& i >= 3 ==> b6.field(k) == b.field(k) && b5.field(k) == b.field(k)
    } by {
        let k = keys[i];
        let lim = "max_output_tokens"@;
        lemma_with(b, "messages"@, JsonV::Arr(response_messages(b)), k);
        lemma_with(b, "messages"@, JsonV::Arr(response_messages(b)), "tools"@);
        lemma_with(b, "messages"@, JsonV::Arr(response_messages(b)), lim);
        let defs = JsonV::Arr(
            function_definitions(
                crate::json::items_in(b1.field("tools"@))->0,
                crate::json::items_in(b1.field("tools"@))->0.len() as int,
            ),
        );
        lemma_with(b1, "tools"@, defs, k);
        lemma_with(b1, "tools"@, defs, lim);
        let tc = b2.field("tool_choice"@)->0;
        let kind = crate::json::text_in(tc.field("type"@))->0;
        let choice = if kind == "function"@ {
            crate::normalize::function_choice(text_or(tc.field("name"@), ""@))
        } else {
            JsonV::Str(kind)
        };
        lemma_with(b2, "tool_choice"@, choice, k);
        lemma_with(b2, "tool_choice"@, choice, lim);
        let rf = crate::normalize::mapped_format(b3.within("text"@, "format"@)->0)->0;
        lemma_with(b3, "response_format"@, rf, k);
        lemma_with(b3, "response_format"@, rf, lim);
        lemma_with(b4, "max_tokens"@, b4.field(lim)->0, k);
        lemma_with(b5, "chat_template_kwargs"@, off, k);
    }
    assert(keys[0] == "messages"@ && keys[1] == "tools"@ && keys[2] == "max_tokens"@);
    assert(keys[4] == "reasoning"@ && keys[5] == other);
    assert(b5.field(keys[4]) == b.field("reasoning"@));
    lemma_with(b5, "chat_template_kwargs"@, off, other);
}

/// What is to be done first is said first: the system text, then the messages; the
/// instructions, then the input.
pub proof fn instructions_come_first(b: JsonV, text: Seq<char>)
    requires
        text.len() > 0,
    ensures
        b.field("system"@) == Some(JsonV::Str(text)) ==> {
            &&& anthropic_messages(b).len() > 0
            &&& says(anthropic_messages(b)[0], "system"@, JsonV::Str(text))
            &&& b.field("messages"@) matches Some(JsonV::Arr(v)) ==> anthropic_messages(b).skip(1)
                == converted_messages(Seq::empty(), v, v.len() as int)
        },
        b.field("system"@) is None ==> (b.field("messages"@) matches Some(JsonV::Arr(v))
            ==> anthropic_messages(b) == converted_messages(Seq::empty(), v, v.len() as int)),
        b.field("instructions"@) == Some(JsonV::Str(text)) ==> {
            &&& response_messages(b).len() > 0
            &&& says(response_messages(b)[0], "system"@, JsonV::Str(text))
            &&& b.field("input"@) matches Some(JsonV::Arr(v)) ==> response_messages(b).skip(1)
                == input_messages(Seq::empty(), v, v.len() as int)
        },
        b.field("instructions"@) is None ==> (b.field("input"@) matches Some(JsonV::Arr(v))
            ==> response_messages(b) == input_messages(Seq::empty(), v, v.len() as int)),
        b.field("input"@) == Some(JsonV::Str(text)) ==> response_messages(b).len() > 0 && says(
            response_messages(b).last(),
            "user"@,
            JsonV::Str(text),
        ),
{
    let t = JsonV::Str(text);
    made_messages_say_it("system"@, t, t, t, t, text);
    made_messages_say_it("user"@, t, t, t, t, text);
    let lead = Seq::empty().push(role_message("system"@, t));
    let none = Seq::<JsonV>::empty();
    if let Some(JsonV::Arr(v)) = b.field("messages"@) {
        messages_keep_their_order(lead, none, v);
        assert(none + v =~= v);
        assert(converted_messages(lead, none, 0) == lead);
        if b.field("system"@) == Some(t) {
            assert(anthropic_messages(b) == lead + converted_messages(none, v, v.len() as int));
            assert(anthropic_messages(b).skip(1) =~= converted_messages(none, v, v.len() as int));
            assert(anthropic_messages(b)[0] == lead[0]);
        }
    }
    if let Some(JsonV::Arr(v)) = b.field("input"@) {
        messages_keep_their_order(lead, none, v);
        assert(none + v =~= v);
        assert(input_messages(lead, none, 0) == lead);
        if b.field("instructions"@) == Some(t) {
            assert(response_messages(b) == lead + input_messages(none, v, v.len() as int));
            assert(response_messages(b).skip(1) =~= input_messages(none, v, v.len() as int));
            assert(response_messages(b)[0] == lead[0]);
        }
    }
    if b.field("system"@) == Some(t) {
        assert(content_text(Some(t)) == text);
    }
}

/// The prompt of a completion is what the user says, and a request with messages
/// stays as it is.
pub proof fn prompts_are_said_by_the_user(b: JsonV, text: Seq<char>)
    requires
        b is Obj,
    ensures
        b.field("messages"@) is Some ==> completion_body(b) == b,
        b.field("messages"@) is None ==> (completion_body(b).field("messages"@) matches Some(
            JsonV::Arr(v),
        ) && v.len() == 1 && (b.field("prompt"@) == Some(JsonV::Str(text)) ==> says(
            v[0],
            "user"@,
            JsonV::Str(text),
        )) && (b.field("prompt"@) matches Some(JsonV::Arr(p)) ==> says(
            v[0],
            "user"@,
            JsonV::Str(joined_texts(p, p.len() as int)),
        ))),
{
    if b.field("messages"@) is None {
        let p = crate::normalize::prompt_text(b.field("prompt"@));
        let t = JsonV::Str(p);
        made_messages_say_it("user"@, t, t, t, t, p);
        let v = Seq::empty().push(role_message("user"@, t));
        lemma_with(b, "messages"@, JsonV::Arr(v), "messages"@);
        assert(v.len() == 1 && v[0] == role_message("user"@, t));
    }
}

/// A choice of tools means the same on both surfaces: any tool is required, no tool
/// is none, one tool is that function.
pub proof fn tool_choices_mean_the_same(choice: JsonV, name: Seq<char>)
    requires
        choice.field("name"@) == Some(JsonV::Str(name)),
    ensures
        crate::normalize::mapped_choice("any"@, choice) == JsonV::Str("required"@),
        crate::normalize::mapped_choice("none"@, choice) == JsonV::Str("none"@),
        crate::normalize::mapped_choice("auto"@, choice) == JsonV::Str("auto"@),
        crate::normalize::mapped_choice("tool"@, choice).within("function"@, "name"@) == Some(
            JsonV::Str(name),
        ),
        crate::normalize::mapped_choice("tool"@, choice).field("type"@) == Some(
            JsonV::Str("function"@),
        ),
{
    lemma_keys();
    reveal_strlit("any");
    reveal_strlit("none");
    reveal_strlit("auto");
    reveal_strlit("tool");
    assert("any"@.len() == 3);
    assert("none"@.len() == 4 && "auto"@.len() == 4 && "tool"@.len() == 4);
    assert("none"@[0] == 'n' && "auto"@[0] == 'a' && "tool"@[0] == 't');
    let f = JsonV::Obj(Members::empty().push(("name"@, JsonV::Str(name))));
    added_member_is_last(Members::empty(), "name"@, JsonV::Str(name), "name"@);
    lemma_pair("type"@, JsonV::Str("function"@), "function"@, f);
}

} // verus!
