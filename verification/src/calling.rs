//! Tool calls as they are written into a reply, and that they are read as written.

use vstd::prelude::*;

use crate::chars::{begins, lemma_place_from, place_of, split_at_first, trimmed};
use crate::codec::{parsed, rendered};
use crate::conversation::calls;
use crate::ids::id_text;
use crate::json::{member, set_member, set_member_reads_back, JsonV, Members};
use crate::reasoning::reasoned;
use crate::scan::{closing, object_from};
use crate::text::{dec, dec_int, stands_at};
use crate::tools::{
    answer_parts, call_args, call_bodies, call_name, call_of, calls_of, coerced, declared_types,
    digits_value, function_types, param_types, params_in, type_of, whole,
};

verus! {

// ---- marks ----

/// A mark that is written behind a text stands nowhere before its place.
pub open spec fn clear_of(text: Seq<char>, mark: Seq<char>) -> bool {
    forall|i: int| 0 <= i < text.len() ==> !#[trigger] stands_at(text + mark, mark, i)
}

/// A text without the first character of a mark is clear of it.
pub proof fn texts_without_its_start_are_clear(text: Seq<char>, mark: Seq<char>)
    requires
        mark.len() > 0,
        forall|i: int| 0 <= i < text.len() ==> #[trigger] text[i] != mark[0],
    ensures
        clear_of(text, mark),
{
    assert forall|i: int| 0 <= i < text.len() implies !#[trigger] stands_at(text + mark, mark, i) by {
        if stands_at(text + mark, mark, i) {
            assert((text + mark).subrange(i, i + mark.len())[0] == mark[0]);
            assert((text + mark)[i] == text[i]);
        }
    }
}

/// A text is cut around the first of its marks.
pub proof fn first_mark_splits(a: Seq<char>, mark: Seq<char>, rest: Seq<char>)
    requires
        clear_of(a, mark),
    ensures
        split_at_first(a + mark + rest, mark) == Some((a, rest)),
        place_of(a + mark + rest, mark) == Some(a.len() as int),
{
    let s = a + mark + rest;
    let n = a.len() as int;
    lemma_place_from(s, mark, 0);
    assert(s.subrange(n, n + mark.len()) =~= mark);
    assert(stands_at(s, mark, n));
    assert forall|i: int| 0 <= i < n implies !stands_at(s, mark, i) by {
        if stands_at(s, mark, i) {
            assert((a + mark).subrange(i, i + mark.len()) =~= s.subrange(i, i + mark.len()));
            assert(stands_at(a + mark, mark, i));
        }
    }
    assert(s.take(n) =~= a);
    assert(s.skip(n + mark.len()) =~= rest);
}

// ---- calls in a reply ----

/// A call that is written between its tags is found, and so is what follows it.
pub proof fn written_calls_are_found(before: Seq<char>, body: Seq<char>, rest: Seq<char>)
    requires
        clear_of(before, "<tool_call>"@),
        clear_of(body, "</tool_call>"@),
    ensures
        call_bodies(before + "<tool_call>"@ + (body + "</tool_call>"@ + rest)) == seq![body]
            + call_bodies(rest),
{
    first_mark_splits(before, "<tool_call>"@, body + "</tool_call>"@ + rest);
    first_mark_splits(body, "</tool_call>"@, rest);
}

/// A reply that calls shows what stands before its first call, and reports every
/// call that it writes.
pub proof fn replies_are_split(t: Seq<char>, before: Seq<char>, body: Seq<char>, rest: Seq<char>)
    requires
        clear_of(before, "<tool_call>"@),
        clear_of(body, "</tool_call>"@),
        reasoned(t).1 == before + "<tool_call>"@ + (body + "</tool_call>"@ + rest),
    ensures
        answer_parts(t).0 == trimmed(before),
        answer_parts(t).1 == seq![body] + call_bodies(rest),
{
    let answer = reasoned(t).1;
    let tail = body + "</tool_call>"@ + rest;
    first_mark_splits(before, "<tool_call>"@, tail);
    assert(answer.take(before.len() as int) =~= before);
    let none = Seq::<char>::empty();
    assert(answer.skip(before.len() as int) =~= none + "<tool_call>"@ + tail);
    written_calls_are_found(none, body, rest);
}

/// A reply without a call shows itself.
pub proof fn replies_without_calls_are_shown(t: Seq<char>)
    requires
        place_of(reasoned(t).1, "<tool_call>"@) is None,
    ensures
        answer_parts(t).0 == reasoned(t).1,
        answer_parts(t).1.len() == 0,
{
}

/// Every body is one call, in order, under a name of its own.
pub proof fn every_body_is_a_call(
    bodies: Seq<Seq<char>>,
    types: Map<Seq<char>, Map<Seq<char>, Seq<char>>>,
    now: u64,
    from: u64,
    i: int,
)
    requires
        0 <= i < bodies.len(),
        from + bodies.len() <= u64::MAX,
    ensures
        calls_of(bodies, types, now, from).len() == bodies.len(),
        calls_of(bodies, types, now, from)[i] == call_of(
            bodies[i],
            types,
            id_text("call_"@, now, (from + i) as u64),
        ),
    decreases bodies.len(),
{
    let tail = bodies.skip(1);
    let next = from.wrapping_add(1);
    assert(next == from + 1);
    if tail.len() > 0 {
        every_body_is_a_call(tail, types, now, next, if i > 0 {
            i - 1
        } else {
            0
        });
        if i > 0 {
            assert(tail[i - 1] == bodies[i]);
            assert((next + (i - 1)) as u64 == (from + i) as u64);
        }
    } else {
        assert(calls_of(tail, types, now, next).len() == 0);
    }
}

/// A call is reported with its name and its arguments as JSON text.
pub proof fn calls_are_reported(
    body: Seq<char>,
    types: Map<Seq<char>, Map<Seq<char>, Seq<char>>>,
    id: Seq<char>,
)
    ensures
        calls(
            call_of(body, types, id),
            JsonV::Str(id),
            JsonV::Str(call_name(body)),
            JsonV::Str(rendered(JsonV::Obj(call_args(body, types)))),
        ),
{
    let args = JsonV::Str(rendered(JsonV::Obj(call_args(body, types))));
    crate::conversation::made_messages_say_it(
        Seq::empty(),
        JsonV::Null,
        JsonV::Str(id),
        JsonV::Str(call_name(body)),
        args,
        Seq::empty(),
    );
    assert(call_of(body, types, id) =~= crate::normalize::message_call(
        JsonV::Str(id),
        JsonV::Str(call_name(body)),
        args,
    ));
}

// ---- calls in JSON ----

/// A text that is one JSON object: its bracket closes at its end, and it reads as
/// the members.
pub open spec fn writes_object(text: Seq<char>, m: Members) -> bool {
    &&& text.len() > 0
    &&& text[0] == '{'
    &&& closing(text, 0, 0, false, false, '{', '}') == Some(text.len() - 1)
    &&& parsed(text) == Some(JsonV::Obj(m))
}

proof fn lemma_closing_shift(
    s: Seq<char>,
    text: Seq<char>,
    at: int,
    j: int,
    depth: nat,
    in_str: bool,
    esc: bool,
)
    requires
        0 <= at,
        at + text.len() <= s.len(),
        forall|i: int| 0 <= i < text.len() ==> s[at + i] == #[trigger] text[i],
        0 <= j <= text.len(),
        closing(text, j, depth, in_str, esc, '{', '}') is Some,
    ensures
        closing(s, at + j, depth, in_str, esc, '{', '}') == Some(
            at + closing(text, j, depth, in_str, esc, '{', '}')->0,
        ),
    decreases text.len() - j,
{
    if j < text.len() {
        let c = text[j];
        assert(s[at + j] == c);
        if in_str {
            if esc {
                lemma_closing_shift(s, text, at, j + 1, depth, true, false);
            } else if c == '\\' {
                lemma_closing_shift(s, text, at, j + 1, depth, true, true);
            } else if c == '"' {
                lemma_closing_shift(s, text, at, j + 1, depth, false, false);
            } else {
                lemma_closing_shift(s, text, at, j + 1, depth, true, false);
            }
        } else if c == '"' {
            lemma_closing_shift(s, text, at, j + 1, depth, true, esc);
        } else if c == '{' {
            lemma_closing_shift(s, text, at, j + 1, depth + 1, false, esc);
        } else if c == '}' && depth > 0 {
            if depth > 1 {
                lemma_closing_shift(s, text, at, j + 1, (depth - 1) as nat, false, esc);
            }
        } else {
            lemma_closing_shift(s, text, at, j + 1, depth, false, esc);
        }
    }
}

/// An object is found behind a text without brackets, whatever follows it.
pub proof fn first_object_is_found(before: Seq<char>, text: Seq<char>, rest: Seq<char>, m: Members)
    requires
        forall|i: int| 0 <= i < before.len() ==> #[trigger] before[i] != '{',
        writes_object(text, m),
    ensures
        object_from(before + text + rest, 0) == Some(m),
{
    let s = before + text + rest;
    lemma_object_behind(s, before, text, m, 0);
}

proof fn lemma_object_behind(s: Seq<char>, before: Seq<char>, text: Seq<char>, m: Members, i: int)
    requires
        0 <= i <= before.len(),
        before.len() + text.len() <= s.len(),
        forall|k: int| 0 <= k < before.len() ==> s[k] == #[trigger] before[k] && before[k] != '{',
        forall|k: int| 0 <= k < text.len() ==> s[before.len() + k] == #[trigger] text[k],
        writes_object(text, m),
    ensures
        object_from(s, i) == Some(m),
    decreases before.len() - i,
{
    let at = before.len() as int;
    if i < at {
        assert(s[i] == before[i]);
        lemma_object_behind(s, before, text, m, i + 1);
    } else {
        assert(s[at + 0] == text[0]);
        lemma_closing_shift(s, text, at, 0, 0, false, false);
        assert(s.subrange(at, at + (text.len() - 1) + 1) =~= text);
    }
}

/// A call that is written as a JSON object is read back: the function that it names,
/// with the arguments that it gives.
pub proof fn json_calls_are_read_back(
    before: Seq<char>,
    text: Seq<char>,
    rest: Seq<char>,
    m: Members,
    name: Seq<char>,
    args: Members,
    types: Map<Seq<char>, Map<Seq<char>, Seq<char>>>,
)
    requires
        forall|i: int| 0 <= i < before.len() ==> #[trigger] before[i] != '{',
        writes_object(text, m),
        place_of(before + text + rest, "<function="@) is None,
        JsonV::Obj(m).field("name"@) == Some(JsonV::Str(name)),
        JsonV::Obj(m).field("arguments"@) == Some(JsonV::Obj(args)),
        args.len() > 0,
    ensures
        call_name(before + text + rest) == name,
        call_args(before + text + rest, types) == args,
{
    first_object_is_found(before, text, rest, m);
}

/// Arguments may also stand under the name of parameters.
pub proof fn parameters_stand_for_arguments(
    body: Seq<char>,
    m: Members,
    args: Members,
    types: Map<Seq<char>, Map<Seq<char>, Seq<char>>>,
)
    requires
        place_of(body, "<function="@) is None,
        object_from(body, 0) == Some(m),
        JsonV::Obj(m).field("arguments"@) is None,
        JsonV::Obj(m).field("parameters"@) == Some(JsonV::Obj(args)),
        args.len() > 0,
    ensures
        call_args(body, types) == args,
{
}

// ---- calls in tags ----

/// A function that is named by its tag is called by that name.
pub proof fn tagged_functions_are_called(before: Seq<char>, name: Seq<char>, rest: Seq<char>)
    requires
        clear_of(before, "<function="@),
        clear_of(name, ">"@),
        trimmed(name).len() > 0,
    ensures
        call_name(before + "<function="@ + (name + ">"@ + rest)) == trimmed(name),
{
    first_mark_splits(before, "<function="@, name + ">"@ + rest);
    first_mark_splits(name, ">"@, rest);
}

/// Parameters as they are written in tags.
pub open spec fn written_params(ps: Seq<(Seq<char>, Seq<char>)>) -> Seq<char>
    decreases ps.len(),
{
    if ps.len() == 0 {
        Seq::empty()
    } else {
        "<parameter"@ + ("="@ + (ps[0].0 + ">"@ + (ps[0].1 + "</parameter>"@ + written_params(
            ps.skip(1),
        ))))
    }
}

/// Parameters that can be told from their tags: keys without a closing bracket, and
/// values without a closing tag.
pub open spec fn writable(ps: Seq<(Seq<char>, Seq<char>)>) -> bool {
    &&& forall|i: int|
        0 <= i < ps.len() ==> clear_of((#[trigger] ps[i]).0, ">"@) && clear_of(
            ps[i].1,
            "</parameter>"@,
        ) && trimmed(ps[i].0).len() > 0
    &&& forall|i: int, j: int|
        0 <= i < j < ps.len() ==> trimmed((#[trigger] ps[i]).0) != trimmed((#[trigger] ps[j]).0)
}

/// One parameter is one argument, of its declared type; what follows is read on.
pub proof fn one_parameter_is_an_argument(
    key: Seq<char>,
    value: Seq<char>,
    rest: Seq<char>,
    types: Map<Seq<char>, Map<Seq<char>, Seq<char>>>,
    name: Seq<char>,
    args: Members,
)
    requires
        clear_of(key, ">"@),
        clear_of(value, "</parameter>"@),
        trimmed(key).len() > 0,
    ensures
        params_in(
            "<parameter"@ + ("="@ + (key + ">"@ + (value + "</parameter>"@ + rest))),
            types,
            name,
            args,
        ) == params_in(
            rest,
            types,
            name,
            set_member(
                args,
                trimmed(key),
                coerced(type_of(types, name, trimmed(key)), value),
            ),
        ),
{
    let none = Seq::<char>::empty();
    let after = "="@ + (key + ">"@ + (value + "</parameter>"@ + rest));
    let s = "<parameter"@ + after;
    assert(s =~= none + "<parameter"@ + after);
    first_mark_splits(none, "<parameter"@, after);
    reveal_strlit("=");
    assert(begins(after, "="@)) by {
        assert(after.take(1) =~= "="@);
    }
    let tagged = key + ">"@ + (value + "</parameter>"@ + rest);
    assert(after.skip(1) =~= tagged);
    first_mark_splits(key, ">"@, value + "</parameter>"@ + rest);
    first_mark_splits(value, "</parameter>"@, rest);
}

/// What is written in parameter tags is what the function gets: every key with its
/// value as the declared type, and nothing that is not written.
pub proof fn parameters_are_the_arguments(
    ps: Seq<(Seq<char>, Seq<char>)>,
    types: Map<Seq<char>, Map<Seq<char>, Seq<char>>>,
    name: Seq<char>,
    args: Members,
    key: Seq<char>,
)
    requires
        writable(ps),
    ensures
        forall|i: int|
            0 <= i < ps.len() ==> member(
                params_in(written_params(ps), types, name, args),
                trimmed((#[trigger] ps[i]).0),
            ) == Some(coerced(type_of(types, name, trimmed(ps[i].0)), ps[i].1)),
        (forall|i: int| 0 <= i < ps.len() ==> trimmed((#[trigger] ps[i]).0) != key) ==> member(
            params_in(written_params(ps), types, name, args),
            key,
        ) == member(args, key),
    decreases ps.len(),
{
    if ps.len() == 0 {
        lemma_place_from(Seq::empty(), "<parameter"@, 0);
        reveal_strlit("<parameter");
        assert("<parameter"@.len() == 10);
        assert(place_of(Seq::empty(), "<parameter"@) is None);
        assert(params_in(Seq::empty(), types, name, args) == args);
    } else {
        let (k, v) = ps[0];
        let tail = ps.skip(1);
        assert forall|i: int| 0 <= i < tail.len() implies (#[trigger] tail[i]) == ps[i + 1] by {}
        assert(writable(tail)) by {
            assert forall|i: int| 0 <= i < tail.len() implies clear_of((#[trigger] tail[i]).0, ">"@)
                && clear_of(tail[i].1, "</parameter>"@) && trimmed(tail[i].0).len() > 0 by {
                assert(clear_of(ps[i + 1].0, ">"@));
            }
            assert forall|i: int, j: int| 0 <= i < j < tail.len() implies trimmed(
                (#[trigger] tail[i]).0,
            ) != trimmed((#[trigger] tail[j]).0) by {
                assert(trimmed(ps[i + 1].0) != trimmed(ps[j + 1].0));
            }
        }
        let value = coerced(type_of(types, name, trimmed(k)), v);
        let next = set_member(args, trimmed(k), value);
        one_parameter_is_an_argument(k, v, written_params(tail), types, name, args);
        parameters_are_the_arguments(tail, types, name, next, key);
        parameters_are_the_arguments(tail, types, name, next, trimmed(k));
        set_member_reads_back(args, trimmed(k), value, key);
        assert forall|i: int| 0 <= i < ps.len() implies member(
            params_in(written_params(ps), types, name, args),
            trimmed((#[trigger] ps[i]).0),
        ) == Some(coerced(type_of(types, name, trimmed(ps[i].0)), ps[i].1)) by {
            if i == 0 {
                assert forall|j: int| 0 <= j < tail.len() implies trimmed((#[trigger] tail[j]).0)
                    != trimmed(k) by {
                    assert(trimmed(ps[0].0) != trimmed(ps[j + 1].0));
                }
            } else {
                assert(tail[i - 1] == ps[i]);
            }
        }
        if forall|i: int| 0 <= i < ps.len() ==> trimmed((#[trigger] ps[i]).0) != key {
            assert(trimmed(ps[0].0) != key);
            assert forall|j: int| 0 <= j < tail.len() implies trimmed((#[trigger] tail[j]).0)
                != key by {
                assert(trimmed(ps[j + 1].0) != key);
            }
        }
    }
}

// ---- arguments of a type ----

pub proof fn lemma_decimal(n: nat)
    ensures
        digits_value(dec(n)) == Some(n as int),
        dec(n).len() > 0,
        '0' <= dec(n)[0] && dec(n)[0] <= '9',
    decreases n,
{
    let s = dec(n);
    if n >= 10 {
        lemma_decimal(n / 10);
        assert(s.drop_last() =~= dec(n / 10));
        assert(s[0] == dec(n / 10)[0]);
    } else {
        assert(s.drop_last() =~= Seq::<char>::empty());
        assert(digits_value(Seq::<char>::empty()) == Some(0int));
    }
}

/// An argument that is declared a whole number is the number that is written, and
/// one that is declared a truth value is that truth value.
pub proof fn arguments_have_their_types(value: Seq<char>, n: i64)
    ensures
        trimmed(value) == dec_int(n as int) ==> coerced(Some("integer"@), value) == (if n < 0 {
            JsonV::Neg(n)
        } else {
            JsonV::Pos(n as u64)
        }),
        trimmed(value) == "true"@ ==> coerced(Some("boolean"@), value) == JsonV::Bool(true),
        trimmed(value) == "false"@ ==> coerced(Some("boolean"@), value) == JsonV::Bool(false),
        parsed(trimmed(value)) is None ==> coerced(Some("string"@), value) == JsonV::Str(value)
            && coerced(None, value) == JsonV::Str(value),
        parsed(trimmed(value)) matches Some(JsonV::Obj(m)) ==> coerced(Some("object"@), value)
            == JsonV::Obj(m) && coerced(Some("string"@), value) == JsonV::Str(value),
        parsed(trimmed(value)) matches Some(JsonV::Arr(v)) ==> coerced(Some("array"@), value)
            == JsonV::Arr(v),
{
    reveal_strlit("integer");
    reveal_strlit("boolean");
    reveal_strlit("number");
    reveal_strlit("string");
    reveal_strlit("object");
    reveal_strlit("array");
    reveal_strlit("null");
    reveal_strlit("true");
    reveal_strlit("false");
    reveal_strlit("-");
    assert("integer"@.len() == 7 && "boolean"@.len() == 7 && "number"@.len() == 6);
    assert("string"@.len() == 6 && "object"@.len() == 6 && "array"@.len() == 5);
    assert("null"@.len() == 4 && "true"@.len() == 4 && "false"@.len() == 5);
    assert("integer"@[0] == 'i' && "boolean"@[0] == 'b' && "number"@[0] == 'n');
    assert("string"@[0] == 's' && "object"@[0] == 'o');
    if n < 0 {
        lemma_decimal((-n) as nat);
        let s = dec_int(n as int);
        assert(s[0] == '-');
        assert(s.skip(1) =~= dec((-n) as nat));
        assert(whole(s) == Some(n as int));
    } else {
        lemma_decimal(n as nat);
        assert(whole(dec_int(n as int)) == Some(n as int));
    }
}

// ---- declared types ----

/// The type that a tool declares for a parameter is the one that its calls are read
/// by: the last tool of a name counts, and the last property of a key.
pub proof fn declared_types_are_looked_up(
    tools: Seq<JsonV>,
    name: Seq<char>,
    props: Members,
    key: Seq<char>,
    kind: Seq<char>,
)
    requires
        tools.len() > 0,
        tools.last().within("function"@, "name"@) == Some(JsonV::Str(name)),
        tools.last().field("function"@)->0.within("parameters"@, "properties"@) == Some(
            JsonV::Obj(props),
        ),
        props.len() > 0,
        props.last().0 == key,
        props.last().1.field("type"@) == Some(JsonV::Str(kind)),
    ensures
        type_of(declared_types(tools, tools.len() as int), name, key) == Some(kind),
{
    let f = tools.last().field("function"@)->0;
    assert(function_types(f) == param_types(props, props.len() as int));
    assert(param_types(props, props.len() as int)[key] == kind);
}

/// A tool of another name, or a property of another key, changes nothing.
pub proof fn other_tools_declare_other_types(
    tools: Seq<JsonV>,
    t: JsonV,
    props: Members,
    p: (Seq<char>, JsonV),
    name: Seq<char>,
    key: Seq<char>,
)
    ensures
        t.within("function"@, "name"@) matches Some(JsonV::Str(n)) && n != name ==> type_of(
            declared_types(tools.push(t), (tools.len() + 1) as int),
            name,
            key,
        ) == type_of(declared_types(tools, tools.len() as int), name, key),
        p.0 != key ==> {
            let (a, b) = (
                param_types(props.push(p), (props.len() + 1) as int),
                param_types(props, props.len() as int),
            );
            a.contains_key(key) == b.contains_key(key) && (b.contains_key(key) ==> a[key] == b[key])
        },
{
    lemma_types_prefix(tools.push(t), tools, tools.len() as int);
    lemma_props_prefix(props.push(p), props, props.len() as int);
    assert(tools.push(t)[tools.len() as int] == t);
    assert(props.push(p)[props.len() as int] == p);
}

proof fn lemma_types_prefix(v: Seq<JsonV>, w: Seq<JsonV>, k: int)
    requires
        0 <= k <= w.len() <= v.len(),
        forall|i: int| 0 <= i < k ==> v[i] == w[i],
    ensures
        declared_types(v, k) == declared_types(w, k),
    decreases k,
{
    if k > 0 {
        lemma_types_prefix(v, w, k - 1);
    }
}

proof fn lemma_props_prefix(v: Members, w: Members, k: int)
    requires
        0 <= k <= w.len() <= v.len(),
        forall|i: int| 0 <= i < k ==> v[i] == w[i],
    ensures
        param_types(v, k) == param_types(w, k),
    decreases k,
{
    if k > 0 {
        lemma_props_prefix(v, w, k - 1);
    }
}

} // verus!
