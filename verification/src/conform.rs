//! Nudging a JSON value toward a JSON schema.

use vstd::prelude::*;

use crate::chars::{begins, starts_with, trim, trimmed};
use crate::codec::{
    cut_float, float_cut, float_from, float_parsed, floats_equal, rendered, same_float, to_text,
};
use crate::json::{
    find_key, items_in, key_place, lemma_key_place, list_views, member, member_views, no_items,
    push_item, set_key, set_member, set_member_reads_back, text_in, Json, JsonV, Members,
};
use crate::text::{chars_of, same_text};
use crate::tools::{int_json, int_value, parse_i64, whole_i64};

verus! {

broadcast use crate::value::json_view;

// ---- equality ----

/// Whether two JSON values are equal; the order of members does not count.
pub open spec fn equal_json(a: JsonV, b: JsonV) -> bool
    decreases a, 0int,
{
    match (a, b) {
        (JsonV::Null, JsonV::Null) => true,
        (JsonV::Bool(x), JsonV::Bool(y)) => x == y,
        (JsonV::Pos(x), JsonV::Pos(y)) => x == y,
        (JsonV::Neg(x), JsonV::Neg(y)) => x == y,
        (JsonV::Float(x), JsonV::Float(y)) => floats_equal(x, y),
        (JsonV::Str(x), JsonV::Str(y)) => x == y,
        (JsonV::Arr(x), JsonV::Arr(y)) => x.len() == y.len() && equal_items(x, y, x.len() as int),
        (JsonV::Obj(x), JsonV::Obj(y)) => x.len() == y.len() && equal_members(
            x,
            y,
            x.len() as int,
        ),
        _ => false,
    }
}

/// Whether the first `k` items of two lists are equal.
pub open spec fn equal_items(x: Seq<JsonV>, y: Seq<JsonV>, k: int) -> bool
    decreases x, k,
{
    if k <= 0 {
        true
    } else {
        k <= x.len() && equal_items(x, y, k - 1) && equal_json(x[k - 1], y[k - 1])
    }
}

/// Whether the first `k` members stand in another object too.
pub open spec fn equal_members(x: Members, y: Members, k: int) -> bool
    decreases x, k,
{
    if k <= 0 {
        true
    } else {
        k <= x.len() && equal_members(x, y, k - 1) && (match member(y, x[k - 1].0) {
            Some(w) => equal_json(x[k - 1].1, w),
            None => false,
        })
    }
}

proof fn lemma_unequal_items(x: Seq<JsonV>, y: Seq<JsonV>, k: int, n: int)
    requires
        0 <= k <= n,
        !equal_items(x, y, k),
    ensures
        !equal_items(x, y, n),
    decreases n - k,
{
    if k < n {
        lemma_unequal_items(x, y, k, n - 1);
    }
}

proof fn lemma_unequal_members(x: Members, y: Members, k: int, n: int)
    requires
        0 <= k <= n,
        !equal_members(x, y, k),
    ensures
        !equal_members(x, y, n),
    decreases n - k,
{
    if k < n {
        lemma_unequal_members(x, y, k, n - 1);
    }
}

/// Whether two JSON values are equal; the order of members does not count.
pub fn same_json(a: &Json, b: &Json) -> (r: bool)
    ensures
        r == equal_json(a@, b@),
    decreases a,
{
    match (a, b) {
        (Json::Null, Json::Null) => true,
        (Json::Bool(x), Json::Bool(y)) => *x == *y,
        (Json::Pos(x), Json::Pos(y)) => *x == *y,
        (Json::Neg(x), Json::Neg(y)) => *x == *y,
        (Json::Float(x), Json::Float(y)) => same_float(x, y),
        (Json::Str(x), Json::Str(y)) => *x == *y,
        (Json::Arr(x), Json::Arr(y)) => {
            let ghost u = list_views(x@);
            let ghost w = list_views(y@);
            assert(u.len() == x@.len() && w.len() == y@.len());
            assert(equal_json(a@, b@) == (u.len() == w.len() && equal_items(
                u,
                w,
                u.len() as int,
            )));
            if x.len() != y.len() {
                return false;
            }
            let mut i: usize = 0;
            while i < x.len()
                invariant
                    i <= x.len(),
                    x.len() == y.len(),
                    *a == Json::Arr(*x),
                    u == list_views(x@),
                    w == list_views(y@),
                    equal_json(a@, b@) == equal_items(u, w, u.len() as int),
                    equal_items(u, w, i as int),
                decreases x.len() - i,
            {
                assert(decreases_to!(*a => a->Arr_0));
                assert(decreases_to!(a->Arr_0 => a->Arr_0@));
                assert(decreases_to!(x@ => x@[i as int]));
                assert(u[i as int] == x@[i as int]@ && w[i as int] == y@[i as int]@);
                if !same_json(&x[i], &y[i]) {
                    proof {
                        lemma_unequal_items(u, w, i + 1, u.len() as int);
                    }
                    return false;
                }
                i += 1;
            }
            true
        },
        (Json::Obj(x), Json::Obj(y)) => {
            let ghost u = member_views(x@);
            let ghost w = member_views(y@);
            assert(u.len() == x@.len() && w.len() == y@.len());
            assert(equal_json(a@, b@) == (u.len() == w.len() && equal_members(
                u,
                w,
                u.len() as int,
            )));
            if x.len() != y.len() {
                return false;
            }
            let mut i: usize = 0;
            while i < x.len()
                invariant
                    i <= x.len(),
                    *a == Json::Obj(*x),
                    u == member_views(x@),
                    w == member_views(y@),
                    equal_json(a@, b@) == equal_members(u, w, u.len() as int),
                    equal_members(u, w, i as int),
                decreases x.len() - i,
            {
                assert(decreases_to!(*a => a->Obj_0));
                assert(decreases_to!(a->Obj_0 => a->Obj_0@));
                assert(decreases_to!(x@ => x@[i as int]));
                assert(decreases_to!(x@[i as int] => x@[i as int].1));
                assert(u[i as int] == (x@[i as int].0@, x@[i as int].1@));
                let hit = match find_key(y, &x[i].0) {
                    Some(k) => {
                        assert(w[k as int].1 == y@[k as int].1@);
                        same_json(&x[i].1, &y[k].1)
                    },
                    None => false,
                };
                if !hit {
                    proof {
                        lemma_unequal_members(u, w, i + 1, u.len() as int);
                    }
                    return false;
                }
                i += 1;
            }
            true
        },
        _ => false,
    }
}

// ---- schemas ----

/// The properties that a schema declares.
pub open spec fn properties(s: JsonV) -> Option<Members> {
    match s.field("properties"@) {
        Some(JsonV::Obj(m)) => Some(m),
        _ => None,
    }
}

/// How many properties a schema declares.
pub open spec fn property_count(s: JsonV) -> nat {
    match properties(s) {
        Some(m) => m.len(),
        None => 0,
    }
}

/// How many items a value has.
pub open spec fn item_count(v: JsonV) -> nat {
    match v {
        JsonV::Arr(a) => a.len(),
        _ => 0,
    }
}

/// Whether a schema requires a property.
pub open spec fn requires_key(s: JsonV, key: Seq<char>) -> bool {
    match items_in(s.field("required"@)) {
        Some(r) => exists|i: int| 0 <= i < r.len() && (#[trigger] r[i]).text() == Some(key),
        None => false,
    }
}

/// Whether a schema allows no properties but its own.
pub open spec fn closed_schema(s: JsonV) -> bool {
    match s.field("additionalProperties"@) {
        Some(JsonV::Bool(b)) => !b,
        _ => false,
    }
}

/// The members whose keys are declared, in order, among the first `k`.
pub open spec fn kept(m: Members, props: Members, k: int) -> Members
    decreases k,
{
    if k <= 0 {
        Seq::empty()
    } else {
        let before = kept(m, props, k - 1);
        if key_place(props, m[k - 1].0, 0) is Some {
            before.push(m[k - 1])
        } else {
            before
        }
    }
}

/// The first text of a list that starts with another.
pub open spec fn completion(e: Seq<JsonV>, start: Seq<char>, i: int) -> Option<JsonV>
    decreases e.len() - i,
{
    if i < 0 || i >= e.len() {
        None
    } else {
        match e[i].text() {
            Some(t) => if begins(t, start) {
                Some(e[i])
            } else {
                completion(e, start, i + 1)
            },
            None => completion(e, start, i + 1),
        }
    }
}

/// A value of an enumeration: itself if it is one, else the only one there is,
/// else the first that it is the beginning of, else itself.
pub open spec fn enumerated(v: JsonV, e: Seq<JsonV>) -> JsonV {
    if exists|i: int| 0 <= i < e.len() && #[trigger] equal_json(e[i], v) {
        v
    } else {
        let start = match v.text() {
            Some(t) => t,
            None => ""@,
        };
        let pick = if e.len() == 1 {
            Some(e[0])
        } else {
            completion(e, start, 0)
        };
        match pick {
            Some(p) => p,
            None => v,
        }
    }
}

/// A value as text.
pub open spec fn as_text(v: JsonV) -> JsonV {
    match v {
        JsonV::Str(_) => v,
        JsonV::Null => JsonV::Str(""@),
        _ => JsonV::Str(rendered(v)),
    }
}

/// A value as a whole number, where it stands for one.
pub open spec fn as_whole(v: JsonV) -> JsonV {
    match float_cut(v) {
        Some(n) => int_value(n),
        None => match v {
            JsonV::Str(s) => match whole_i64(trimmed(s)) {
                Some(n) => int_value(n),
                None => v,
            },
            _ => v,
        },
    }
}

/// A value as a number, where it stands for one.
pub open spec fn as_number(v: JsonV) -> JsonV {
    match v {
        JsonV::Str(s) => match float_parsed(trimmed(s)) {
            Some(n) => n,
            None => v,
        },
        _ => v,
    }
}

/// A value as a truth value, where it stands for one.
pub open spec fn as_truth(v: JsonV) -> JsonV {
    match v {
        JsonV::Str(s) => if s == "true"@ {
            JsonV::Bool(true)
        } else if s == "false"@ {
            JsonV::Bool(false)
        } else {
            v
        },
        _ => v,
    }
}

/// The value brought nearer to the schema: required properties are filled in,
/// others dropped where the schema is closed, primitive values converted, and
/// the beginning of an enumerated text completed.
pub open spec fn conformed(v: JsonV, s: JsonV) -> JsonV
    decreases s, property_count(s) + item_count(v) + 1,
{
    match text_in(s.field("type"@)) {
        Some(t) => if t == "object"@ {
            match v {
                JsonV::Obj(m) => {
                    let filled = conformed_members(m, s, property_count(s) as int);
                    JsonV::Obj(
                        match properties(s) {
                            Some(props) => if closed_schema(s) {
                                kept(filled, props, filled.len() as int)
                            } else {
                                filled
                            },
                            None => filled,
                        },
                    )
                },
                _ => JsonV::Obj(Members::empty()),
            }
        } else if t == "array"@ {
            match v {
                JsonV::Arr(a) => match s.field("items"@) {
                    Some(_) => JsonV::Arr(conformed_items(a, s, a.len() as int)),
                    None => v,
                },
                _ => v,
            }
        } else if t == "string"@ {
            match items_in(s.field("enum"@)) {
                Some(e) => enumerated(v, e),
                None => as_text(v),
            }
        } else if t == "integer"@ {
            as_whole(v)
        } else if t == "number"@ {
            as_number(v)
        } else if t == "boolean"@ {
            as_truth(v)
        } else {
            v
        },
        None => v,
    }
}

/// The members with the first `k` declared properties brought nearer to their
/// schemas; those that are required and missing are added.
pub open spec fn conformed_members(m: Members, s: JsonV, k: int) -> Members
    decreases s, k,
{
    if k <= 0 {
        m
    } else {
        let before = conformed_members(m, s, k - 1);
        match properties(s) {
            Some(props) => if k <= props.len() {
                proof {
                    lemma_property_is_smaller(s, k - 1);
                }
                let p = props[k - 1];
                match member(before, p.0) {
                    Some(v) => set_member(before, p.0, conformed(v, p.1)),
                    None => if requires_key(s, p.0) {
                        set_member(before, p.0, conformed(JsonV::Null, p.1))
                    } else {
                        before
                    },
                }
            } else {
                before
            },
            None => before,
        }
    }
}

/// The first `k` items brought nearer to the schema of items.
pub open spec fn conformed_items(a: Seq<JsonV>, s: JsonV, k: int) -> Seq<JsonV>
    decreases s, k,
{
    if k <= 0 {
        Seq::empty()
    } else {
        match s.field("items"@) {
            Some(items) => {
                proof {
                    lemma_member_is_smaller(s, "items"@);
                }
                conformed_items(a, s, k - 1).push(conformed(a[k - 1], items))
            },
            None => Seq::empty(),
        }
    }
}

/// A member is a part of its object.
pub proof fn lemma_member_is_smaller(s: JsonV, key: Seq<char>)
    ensures
        s.field(key) matches Some(v) ==> decreases_to!(s => v),
{
    if let JsonV::Obj(m) = s {
        lemma_key_place(m, key, 0);
        if let Some(i) = key_place(m, key, 0) {
            assert(decreases_to!(s => s->Obj_0));
            assert(decreases_to!(m => m[i]));
            assert(decreases_to!(m[i] => m[i].1));
        }
    }
}

/// The schema of a property is a part of the schema.
pub proof fn lemma_property_is_smaller(s: JsonV, k: int)
    ensures
        properties(s) matches Some(props) ==> (0 <= k < props.len() ==> decreases_to!(
            s => props[k].1
        )),
{
    lemma_member_is_smaller(s, "properties"@);
    if let Some(p) = s.field("properties"@) {
        if let JsonV::Obj(props) = p {
            if 0 <= k < props.len() {
                assert(decreases_to!(p => p->Obj_0));
                assert(decreases_to!(props => props[k]));
                assert(decreases_to!(props[k] => props[k].1));
            }
        }
    }
}

fn wants(s: &Json, key: &str) -> (b: bool)
    ensures
        b == requires_key(s@, key@),
{
    match s.array_of("required") {
        Some(r) => {
            let ghost v = list_views(r@);
            let mut i: usize = 0;
            while i < r.len()
                invariant
                    i <= r.len(),
                    v == list_views(r@),
                    items_in(s@.field("required"@)) == Some(v),
                    forall|k: int| 0 <= k < i ==> (#[trigger] v[k]).text() != Some(key@),
                decreases r.len() - i,
            {
                assert(v[i as int] == r@[i as int]@);
                let hit = match r[i].as_str() {
                    Some(t) => same_text(t, key),
                    None => false,
                };
                if hit {
                    assert(v[i as int].text() == Some(key@));
                    return true;
                }
                i += 1;
            }
            false
        },
        None => false,
    }
}

fn keep_declared(m: Vec<(String, Json)>, props: &Vec<(String, Json)>) -> (r: Vec<(String, Json)>)
    ensures
        member_views(r@) == kept(member_views(m@), member_views(props@), m@.len() as int),
{
    let ghost v = member_views(m@);
    let ghost p = member_views(props@);
    let mut out: Vec<(String, Json)> = Vec::new();
    assert(member_views(out@) =~= Seq::empty());
    let mut i: usize = 0;
    while i < m.len()
        invariant
            i <= m.len(),
            v == member_views(m@),
            p == member_views(props@),
            member_views(out@) == kept(v, p, i as int),
        decreases m.len() - i,
    {
        assert(v[i as int] == (m@[i as int].0@, m@[i as int].1@));
        if find_key(props, &m[i].0).is_some() {
            let e = (m[i].0.clone(), m[i].1.duplicate());
            let ghost before = member_views(out@);
            out.push(e);
            assert(member_views(out@) =~= before.push((e.0@, e.1@)));
        }
        i += 1;
    }
    out
}

fn pick_enumerated(v: Json, e: &Vec<Json>) -> (r: Json)
    ensures
        r@ == enumerated(v@, list_views(e@)),
{
    let ghost w = list_views(e@);
    assert(w.len() == e@.len());
    let mut i: usize = 0;
    while i < e.len()
        invariant
            i <= e.len(),
            w == list_views(e@),
            w.len() == e@.len(),
            forall|k: int| 0 <= k < i ==> !#[trigger] equal_json(w[k], v@),
        decreases e.len() - i,
    {
        assert(w[i as int] == e@[i as int]@);
        if same_json(&e[i], &v) {
            assert(equal_json(w[i as int], v@));
            return v;
        }
        i += 1;
    }
    if e.len() == 1 {
        assert(w[0] == e@[0]@);
        return e[0].duplicate();
    }
    let start = chars_of(
        match v.as_str() {
            Some(t) => t,
            None => "",
        },
    );
    let mut i: usize = 0;
    while i < e.len()
        invariant
            i <= e.len(),
            w == list_views(e@),
            w.len() == e@.len(),
            completion(w, start@, 0) == completion(w, start@, i as int),
            enumerated(v@, w) == (match completion(w, start@, 0) {
                Some(p) => p,
                None => v@,
            }),
        decreases e.len() - i,
    {
        assert(w[i as int] == e@[i as int]@);
        match e[i].as_str() {
            Some(t) => {
                let c = chars_of(t);
                if starts_with(&c, &start) {
                    return e[i].duplicate();
                }
            },
            None => {},
        }
        i += 1;
    }
    v
}

fn text_of(v: Json) -> (r: Json)
    ensures
        r@ == as_text(v@),
{
    match v {
        Json::Str(_) => v,
        Json::Null => Json::string(""),
        _ => Json::Str(to_text(&v)),
    }
}

fn whole_of(v: Json) -> (r: Json)
    ensures
        r@ == as_whole(v@),
{
    match cut_float(&v) {
        Some(n) => int_json(n),
        None => match &v {
            Json::Str(s) => {
                let c = chars_of(s);
                let c = trim(&c);
                match parse_i64(&c) {
                    Some(n) => int_json(n),
                    None => v,
                }
            },
            _ => v,
        },
    }
}

fn number_of(v: Json) -> (r: Json)
    ensures
        r@ == as_number(v@),
{
    match &v {
        Json::Str(s) => {
            let c = chars_of(s);
            let c = trim(&c);
            let t = crate::text::string_of(&c);
            match float_from(&t) {
                Some(n) => n,
                None => v,
            }
        },
        _ => v,
    }
}

fn truth_of(v: Json) -> (r: Json)
    ensures
        r@ == as_truth(v@),
{
    match &v {
        Json::Str(s) => {
            if same_text(s, "true") {
                Json::Bool(true)
            } else if same_text(s, "false") {
                Json::Bool(false)
            } else {
                v
            }
        },
        _ => v,
    }
}

fn repair_members(m: Vec<(String, Json)>, s: &Json) -> (r: Vec<(String, Json)>)
    ensures
        member_views(r@) == conformed_members(
            member_views(m@),
            s@,
            property_count(s@) as int,
        ),
    decreases s, 1int,
{
    let ghost start = member_views(m@);
    let mut m = m;
    match s {
        Json::Obj(top) => match find_key(top, "properties") {
            Some(at) => {
                assert(member_views(top@)[at as int].1 == top@[at as int].1@);
                match &top[at].1 {
                    Json::Obj(props) => {
                        let ghost p = member_views(props@);
                        assert(properties(s@) == Some(p));
                        assert(p.len() == props@.len());
                        let mut k: usize = 0;
                        while k < props.len()
                            invariant
                                k <= props.len(),
                                p == member_views(props@),
                                p.len() == props@.len(),
                                properties(s@) == Some(p),
                                *s == Json::Obj(*top),
                                at < top@.len(),
                                top@[at as int].1 == Json::Obj(*props),
                                member_views(m@) == conformed_members(start, s@, k as int),
                            decreases props.len() - k,
                        {
                            assert(p[k as int] == (props@[k as int].0@, props@[k as int].1@));
                            assert(decreases_to!(*s => s->Obj_0));
                            assert(decreases_to!(s->Obj_0 => s->Obj_0@));
                            assert(decreases_to!(top@ => top@[at as int]));
                            assert(decreases_to!(top@[at as int] => top@[at as int].1));
                            let ghost inner = top@[at as int].1;
                            assert(decreases_to!(inner => inner->Obj_0));
                            assert(decreases_to!(inner->Obj_0 => inner->Obj_0@));
                            assert(decreases_to!(props@ => props@[k as int]));
                            assert(decreases_to!(props@[k as int] => props@[k as int].1));
                            match find_key(&m, &props[k].0) {
                                Some(i) => {
                                    assert(member_views(m@)[i as int].1 == m@[i as int].1@);
                                    let old = m[i].1.duplicate();
                                    let new = repair_json(old, &props[k].1);
                                    set_key(&mut m, &props[k].0, new);
                                },
                                None => {
                                    if wants(s, &props[k].0) {
                                        let new = repair_json(Json::Null, &props[k].1);
                                        set_key(&mut m, &props[k].0, new);
                                    }
                                },
                            }
                            k += 1;
                        }
                        m
                    },
                    _ => m,
                }
            },
            None => m,
        },
        _ => m,
    }
}

fn repair_items(a: Vec<Json>, s: &Json) -> (r: Vec<Json>)
    requires
        s@.field("items"@) is Some,
    ensures
        list_views(r@) == conformed_items(list_views(a@), s@, a@.len() as int),
    decreases s, 1int,
{
    let ghost v = list_views(a@);
    let mut out = no_items();
    match s {
        Json::Obj(top) => match find_key(top, "items") {
            Some(at) => {
                assert(member_views(top@)[at as int].1 == top@[at as int].1@);
                let mut k: usize = 0;
                while k < a.len()
                    invariant
                        k <= a.len(),
                        v == list_views(a@),
                        *s == Json::Obj(*top),
                        at < top@.len(),
                        s@.field("items"@) == Some(top@[at as int].1@),
                        list_views(out@) == conformed_items(v, s@, k as int),
                    decreases a.len() - k,
                {
                    assert(v[k as int] == a@[k as int]@);
                    assert(decreases_to!(*s => s->Obj_0));
                    assert(decreases_to!(s->Obj_0 => s->Obj_0@));
                    assert(decreases_to!(top@ => top@[at as int]));
                    assert(decreases_to!(top@[at as int] => top@[at as int].1));
                    let new = repair_json(a[k].duplicate(), &top[at].1);
                    push_item(&mut out, new);
                    k += 1;
                }
            },
            None => {},
        },
        _ => {},
    }
    out
}

/// Brings a value nearer to a schema that it only approximates.
pub fn repair_json(v: Json, s: &Json) -> (r: Json)
    ensures
        r@ == conformed(v@, s@),
    decreases s, 2int,
{
    let kind = match s.str_of("type") {
        Some(t) => t,
        None => {
            return v;
        },
    };
    if same_text(kind, "object") {
        match v {
            Json::Obj(m) => {
                let filled = repair_members(m, s);
                assert(member_views(filled@).len() == filled@.len());
                match s.get("properties") {
                    Some(Json::Obj(props)) => {
                        let closed = match s.get("additionalProperties") {
                            Some(Json::Bool(b)) => !*b,
                            _ => false,
                        };
                        if closed {
                            Json::Obj(keep_declared(filled, props))
                        } else {
                            Json::Obj(filled)
                        }
                    },
                    _ => Json::Obj(filled),
                }
            },
            _ => {
                let m: Vec<(String, Json)> = Vec::new();
                assert(member_views(m@) =~= Members::empty());
                Json::Obj(m)
            },
        }
    } else if same_text(kind, "array") {
        match v {
            Json::Arr(a) => match s.get("items") {
                Some(_) => Json::Arr(repair_items(a, s)),
                None => Json::Arr(a),
            },
            _ => v,
        }
    } else if same_text(kind, "string") {
        match s.array_of("enum") {
            Some(e) => pick_enumerated(v, e),
            None => text_of(v),
        }
    } else if same_text(kind, "integer") {
        whole_of(v)
    } else if same_text(kind, "number") {
        number_of(v)
    } else if same_text(kind, "boolean") {
        truth_of(v)
    } else {
        v
    }
}

// ---- what holds of the result ----

proof fn lemma_filled(m: Members, s: JsonV, props: Members, j: int, k: int)
    requires
        properties(s) == Some(props),
        0 <= j < k <= props.len(),
        requires_key(s, props[j].0) || member(m, props[j].0) is Some,
    ensures
        member(conformed_members(m, s, k), props[j].0) is Some,
    decreases k,
{
    let before = conformed_members(m, s, k - 1);
    let p = props[k - 1];
    let key = props[j].0;
    if j < k - 1 {
        lemma_filled(m, s, props, j, k - 1);
    } else if member(m, key) is Some {
        lemma_members_stay(m, s, key, k - 1);
    }
    match member(before, p.0) {
        Some(v) => {
            set_member_reads_back(before, p.0, conformed(v, p.1), key);
        },
        None => {
            if requires_key(s, p.0) {
                set_member_reads_back(before, p.0, conformed(JsonV::Null, p.1), key);
            }
        },
    }
}

proof fn lemma_members_stay(m: Members, s: JsonV, key: Seq<char>, k: int)
    requires
        member(m, key) is Some,
    ensures
        member(conformed_members(m, s, k), key) is Some,
    decreases k,
{
    if k > 0 {
        lemma_members_stay(m, s, key, k - 1);
        let before = conformed_members(m, s, k - 1);
        if let Some(props) = properties(s) {
            if k <= props.len() {
                let p = props[k - 1];
                match member(before, p.0) {
                    Some(v) => {
                        set_member_reads_back(before, p.0, conformed(v, p.1), key);
                    },
                    None => {
                        if requires_key(s, p.0) {
                            set_member_reads_back(before, p.0, conformed(JsonV::Null, p.1), key);
                        }
                    },
                }
            }
        }
    }
}

proof fn lemma_kept(m: Members, props: Members, key: Seq<char>, k: int)
    requires
        0 <= k <= m.len(),
        key_place(props, key, 0) is Some,
        exists|i: int| 0 <= i < k && (#[trigger] m[i]).0 == key,
    ensures
        exists|i: int| 0 <= i < kept(m, props, k).len() && (#[trigger] kept(m, props, k)[i]).0 == key,
    decreases k,
{
    let before = kept(m, props, k - 1);
    let r = kept(m, props, k);
    if m[k - 1].0 == key {
        assert(r[before.len() as int].0 == key);
    } else {
        lemma_kept(m, props, key, k - 1);
        let i = choose|i: int| 0 <= i < before.len() && (#[trigger] before[i]).0 == key;
        assert(r[i].0 == key);
    }
}

/// Every declared property that is required, or was there, is there.
pub proof fn required_properties_are_filled(m: Members, s: JsonV, props: Members, j: int)
    requires
        text_in(s.field("type"@)) == Some("object"@),
        properties(s) == Some(props),
        0 <= j < props.len(),
        requires_key(s, props[j].0) || member(m, props[j].0) is Some,
    ensures
        conformed(JsonV::Obj(m), s).field(props[j].0) is Some,
{
    let key = props[j].0;
    let filled = conformed_members(m, s, props.len() as int);
    lemma_filled(m, s, props, j, props.len() as int);
    if closed_schema(s) {
        let r = kept(filled, props, filled.len() as int);
        lemma_key_place(props, key, 0);
        lemma_key_place(filled, key, 0);
        let at = key_place(filled, key, 0)->0;
        assert(filled[at].0 == key);
        lemma_kept(filled, props, key, filled.len() as int);
        lemma_key_place(r, key, 0);
    }
}

proof fn lemma_only_declared(m: Members, props: Members, k: int, i: int)
    requires
        0 <= k <= m.len(),
        0 <= i < kept(m, props, k).len(),
    ensures
        key_place(props, kept(m, props, k)[i].0, 0) is Some,
    decreases k,
{
    let before = kept(m, props, k - 1);
    if i < before.len() {
        lemma_only_declared(m, props, k - 1, i);
    }
}

/// A closed schema leaves no property but its own.
pub proof fn extra_properties_are_dropped(v: JsonV, s: JsonV, props: Members, i: int)
    requires
        text_in(s.field("type"@)) == Some("object"@),
        properties(s) == Some(props),
        closed_schema(s),
        conformed(v, s) matches JsonV::Obj(r) && 0 <= i < r.len(),
    ensures
        key_place(props, (conformed(v, s)->Obj_0)[i].0, 0) is Some,
{
    if let JsonV::Obj(m) = v {
        let filled = conformed_members(m, s, props.len() as int);
        lemma_only_declared(filled, props, filled.len() as int, i);
    }
}

/// A value of an object schema is an object, whatever it was.
pub proof fn object_schema_gives_object(v: JsonV, s: JsonV)
    requires
        text_in(s.field("type"@)) == Some("object"@),
    ensures
        conformed(v, s) is Obj,
{
}

} // verus!
