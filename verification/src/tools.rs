//! Tool calls in generated text.

use vstd::prelude::*;

use crate::chars::{
    begins, piece, place_of, search, split_at_first, split_once, starts_with, trim, trimmed,
};
use crate::codec::{float_from, float_parsed, from_text, parsed, readable, rendered, to_text};
use crate::ids::{id_text, Counters};
use crate::json::{
    array, list_views, member, member_views, no_items, push_item, set_key, set_member, text_in,
    text_or, Json, JsonV, Members, Object,
};
use crate::reasoning::{
    before_stops, call_place, opt_string, reasoned, shown_so_far, shown_text_is_the_answer,
    split_reasoning, strip_stops, think_close, think_open,
};
use crate::scan::{find_json_object, object_from, salvage_json_object, salvaged};
use crate::text::{chars_of, same_text, string_of, views};

verus! {

broadcast use crate::value::json_view;

// ---- whole numbers in text ----

/// The value of a text of digits.
pub open spec fn digits_value(s: Seq<char>) -> Option<int>
    decreases s.len(),
{
    if s.len() == 0 {
        Some(0)
    } else {
        match digits_value(s.drop_last()) {
            Some(v) => if '0' <= s.last() && s.last() <= '9' {
                Some(v * 10 + (s.last() as int - '0' as int))
            } else {
                None
            },
            None => None,
        }
    }
}

/// The whole number that a text stands for: an optional sign and digits.
pub open spec fn whole(s: Seq<char>) -> Option<int> {
    if s.len() == 0 {
        None
    } else if s[0] == '-' {
        match digits_value(s.skip(1)) {
            Some(v) => if s.len() > 1 {
                Some(-v)
            } else {
                None
            },
            None => None,
        }
    } else if s[0] == '+' {
        if s.len() > 1 {
            digits_value(s.skip(1))
        } else {
            None
        }
    } else {
        digits_value(s)
    }
}

/// The whole number that a text stands for, if it fits.
pub open spec fn whole_i64(s: Seq<char>) -> Option<i64> {
    match whole(s) {
        Some(v) => if i64::MIN <= v <= i64::MAX {
            Some(v as i64)
        } else {
            None
        },
        None => None,
    }
}

/// A text of digits has a value of zero or more, and each digit only adds.
proof fn lemma_digits(s: Seq<char>, k: int)
    requires
        0 <= k <= s.len(),
    ensures
        digits_value(s) matches Some(v) ==> (digits_value(s.take(k)) matches Some(u) && 0 <= u
            <= v),
    decreases s.len() - k, s.len(),
{
    if k == s.len() {
        assert(s.take(k) =~= s);
        lemma_digits_nonneg(s);
    } else {
        let t = s.drop_last();
        assert(t.take(k) =~= s.take(k));
        lemma_digits(t, k);
    }
}

proof fn lemma_digits_nonneg(s: Seq<char>)
    ensures
        digits_value(s) matches Some(v) ==> v >= 0,
    decreases s.len(),
{
    if s.len() > 0 {
        lemma_digits_nonneg(s.drop_last());
    }
}

/// The value of the digits from `from` on, if it is at most `max`.
pub fn digits_from(s: &[char], from: usize, max: u64) -> (r: Option<u64>)
    requires
        from <= s@.len(),
    ensures
        match r {
            Some(v) => digits_value(s@.skip(from as int)) == Some(v as int) && v <= max,
            None => digits_value(s@.skip(from as int)) matches Some(v) ==> v > max,
        },
{
    let ghost d = s@.skip(from as int);
    let mut v: u64 = 0;
    let mut i: usize = from;
    assert(d.take(0) =~= Seq::empty());
    while i < s.len()
        invariant
            from <= i <= s@.len(),
            d == s@.skip(from as int),
            digits_value(d.take(i - from)) == Some(v as int),
            v <= max,
        decreases s.len() - i,
    {
        let c = s[i];
        let ghost k = i - from;
        proof {
            assert(d.take(k + 1).drop_last() =~= d.take(k));
            assert(d.take(k + 1).last() == c);
            lemma_digits(d, k + 1);
        }
        if c < '0' || c > '9' {
            return None;
        }
        let n: u64 = c as u64 - '0' as u64;
        if v > (max - (if n <= max { n } else { max })) / 10 || n > max {
            assert(v * 10 + n > max);
            return None;
        }
        v = v * 10 + n;
        i += 1;
    }
    assert(d.take(d.len() as int) =~= d);
    Some(v)
}

/// The whole number that a text stands for, if it fits.
pub fn parse_i64(s: &[char]) -> (r: Option<i64>)
    ensures
        r == whole_i64(s@),
{
    if s.len() == 0 {
        return None;
    }
    if s[0] == '-' {
        if s.len() == 1 {
            return None;
        }
        match digits_from(s, 1, 0x8000_0000_0000_0000u64) {
            Some(v) => {
                if v == 0x8000_0000_0000_0000u64 {
                    Some(i64::MIN)
                } else {
                    Some(-(v as i64))
                }
            },
            None => None,
        }
    } else {
        let from: usize = if s[0] == '+' {
            1
        } else {
            0
        };
        if from == 1 && s.len() == 1 {
            return None;
        }
        assert(s@.skip(0) =~= s@);
        proof {
            lemma_digits_nonneg(s@.skip(from as int));
        }
        match digits_from(s, from, 0x7fff_ffff_ffff_ffffu64) {
            Some(v) => Some(v as i64),
            None => None,
        }
    }
}

/// A whole number as a JSON value.
pub open spec fn int_value(n: i64) -> JsonV {
    if n < 0 {
        JsonV::Neg(n)
    } else {
        JsonV::Pos(n as u64)
    }
}

pub fn int_json(n: i64) -> (j: Json)
    ensures
        j@ == int_value(n),
{
    if n < 0 {
        Json::Neg(n)
    } else {
        Json::Pos(n as u64)
    }
}

// ---- declared types ----

/// The types that members of a schema's properties declare.
pub open spec fn param_types(m: Members, k: int) -> Map<Seq<char>, Seq<char>>
    decreases k,
{
    if k <= 0 {
        Map::empty()
    } else {
        let before = param_types(m, k - 1);
        match text_in(m[k - 1].1.field("type"@)) {
            Some(t) => before.insert(m[k - 1].0, t),
            None => before,
        }
    }
}

/// The types that a function's parameters declare.
pub open spec fn function_types(f: JsonV) -> Map<Seq<char>, Seq<char>> {
    match f.within("parameters"@, "properties"@) {
        Some(JsonV::Obj(m)) => param_types(m, m.len() as int),
        _ => Map::empty(),
    }
}

/// The types that the first `k` tools declare, tool by tool; a later tool takes
/// the place of an earlier one of its name.
pub open spec fn declared_types(tools: Seq<JsonV>, k: int) -> Map<
    Seq<char>,
    Map<Seq<char>, Seq<char>>,
>
    decreases k,
{
    if k <= 0 {
        Map::empty()
    } else {
        let before = declared_types(tools, k - 1);
        match tools[k - 1].field("function"@) {
            Some(f) => before.insert(text_or(f.field("name"@), ""@), function_types(f)),
            None => before,
        }
    }
}

/// Texts by text; the last entry of a key counts.
pub struct TextMap {
    pub entries: Vec<(String, String)>,
}

pub open spec fn text_map(v: Seq<(String, String)>, k: int) -> Map<Seq<char>, Seq<char>>
    decreases k,
{
    if k <= 0 {
        Map::empty()
    } else {
        text_map(v, k - 1).insert(v[k - 1].0@, v[k - 1].1@)
    }
}

proof fn lemma_text_map_prefix(v: Seq<(String, String)>, e: (String, String), k: int)
    requires
        k <= v.len(),
    ensures
        text_map(v.push(e), k) == text_map(v, k),
    decreases k,
{
    if k > 0 {
        lemma_text_map_prefix(v, e, k - 1);
    }
}

impl View for TextMap {
    type V = Map<Seq<char>, Seq<char>>;

    open spec fn view(&self) -> Map<Seq<char>, Seq<char>> {
        text_map(self.entries@, self.entries@.len() as int)
    }
}

impl TextMap {
    pub fn new() -> (m: TextMap)
        ensures
            m@ == Map::<Seq<char>, Seq<char>>::empty(),
    {
        TextMap { entries: Vec::new() }
    }

    pub fn insert(&mut self, k: &str, v: &str)
        ensures
            final(self)@ == old(self)@.insert(k@, v@),
    {
        let e = (k.to_owned(), v.to_owned());
        proof {
            lemma_text_map_prefix(self.entries@, e, self.entries@.len() as int);
        }
        self.entries.push(e);
    }

    pub fn get(&self, k: &str) -> (r: Option<&str>)
        ensures
            match r {
                Some(s) => self@.contains_key(k@) && self@[k@] == s@,
                None => !self@.contains_key(k@),
            },
    {
        let mut r: Option<&str> = None;
        let mut i: usize = 0;
        while i < self.entries.len()
            invariant
                i <= self.entries.len(),
                match r {
                    Some(s) => text_map(self.entries@, i as int).contains_key(k@) && text_map(
                        self.entries@,
                        i as int,
                    )[k@] == s@,
                    None => !text_map(self.entries@, i as int).contains_key(k@),
                },
            decreases self.entries.len() - i,
        {
            if same_text(&self.entries[i].0, k) {
                r = Some(self.entries[i].1.as_str());
            }
            i += 1;
        }
        r
    }
}

/// The declared types of every tool; the last entry of a name counts.
pub struct ToolTypes {
    pub entries: Vec<(String, TextMap)>,
}

pub open spec fn type_map(v: Seq<(String, TextMap)>, k: int) -> Map<
    Seq<char>,
    Map<Seq<char>, Seq<char>>,
>
    decreases k,
{
    if k <= 0 {
        Map::empty()
    } else {
        type_map(v, k - 1).insert(v[k - 1].0@, v[k - 1].1@)
    }
}

proof fn lemma_type_map_prefix(v: Seq<(String, TextMap)>, e: (String, TextMap), k: int)
    requires
        k <= v.len(),
    ensures
        type_map(v.push(e), k) == type_map(v, k),
    decreases k,
{
    if k > 0 {
        lemma_type_map_prefix(v, e, k - 1);
    }
}

impl View for ToolTypes {
    type V = Map<Seq<char>, Map<Seq<char>, Seq<char>>>;

    open spec fn view(&self) -> Map<Seq<char>, Map<Seq<char>, Seq<char>>> {
        type_map(self.entries@, self.entries@.len() as int)
    }
}

/// The type that is declared for a parameter of a function.
pub open spec fn type_of(
    types: Map<Seq<char>, Map<Seq<char>, Seq<char>>>,
    name: Seq<char>,
    key: Seq<char>,
) -> Option<Seq<char>> {
    if types.contains_key(name) && types[name].contains_key(key) {
        Some(types[name][key])
    } else {
        None
    }
}

impl ToolTypes {
    fn insert(&mut self, k: &str, v: TextMap)
        ensures
            final(self)@ == old(self)@.insert(k@, v@),
    {
        let e = (k.to_owned(), v);
        proof {
            lemma_type_map_prefix(self.entries@, e, self.entries@.len() as int);
        }
        self.entries.push(e);
    }

    /// The type that is declared for a parameter of a function.
    pub fn lookup(&self, name: &str, key: &str) -> (r: Option<&str>)
        ensures
            crate::json::opt_text(r) == type_of(self@, name@, key@),
    {
        let mut found: Option<usize> = None;
        let mut i: usize = 0;
        while i < self.entries.len()
            invariant
                i <= self.entries.len(),
                match found {
                    Some(p) => p < self.entries@.len() && type_map(
                        self.entries@,
                        i as int,
                    ).contains_key(name@) && type_map(self.entries@, i as int)[name@]
                        == self.entries@[p as int].1@,
                    None => !type_map(self.entries@, i as int).contains_key(name@),
                },
            decreases self.entries.len() - i,
        {
            if same_text(&self.entries[i].0, name) {
                found = Some(i);
            }
            i += 1;
        }
        match found {
            Some(p) => self.entries[p].1.get(key),
            None => None,
        }
    }
}

fn properties_types(props: &Vec<(String, Json)>) -> (t: TextMap)
    ensures
        t@ == param_types(member_views(props@), props@.len() as int),
{
    let ghost m = member_views(props@);
    let mut t = TextMap::new();
    let mut i: usize = 0;
    while i < props.len()
        invariant
            i <= props.len(),
            m == member_views(props@),
            t@ == param_types(m, i as int),
        decreases props.len() - i,
    {
        assert(m[i as int] == (props@[i as int].0@, props@[i as int].1@));
        match props[i].1.str_of("type") {
            Some(s) => {
                t.insert(&props[i].0, s);
            },
            None => {},
        }
        i += 1;
    }
    t
}

/// The parameter types that the tools' schemas declare, by tool and parameter.
pub fn tool_types(tools: &Vec<Json>) -> (t: ToolTypes)
    ensures
        t@ == declared_types(list_views(tools@), tools@.len() as int),
{
    let ghost v = list_views(tools@);
    let mut t = ToolTypes { entries: Vec::new() };
    let mut i: usize = 0;
    while i < tools.len()
        invariant
            i <= tools.len(),
            v == list_views(tools@),
            t@ == declared_types(v, i as int),
        decreases tools.len() - i,
    {
        assert(v[i as int] == tools@[i as int]@);
        match tools[i].get("function") {
            Some(f) => {
                let name = f.str_or("name", "");
                let params = match f.get_in("parameters", "properties") {
                    Some(Json::Obj(m)) => properties_types(m),
                    _ => TextMap::new(),
                };
                t.insert(name, params);
            },
            None => {},
        }
        i += 1;
    }
    t
}

// ---- arguments ----

/// A text as an argument of the declared type. What does not read as the type
/// stays text; without a type, a bare number, truth value or null is one.
pub open spec fn coerced(declared: Option<Seq<char>>, val: Seq<char>) -> JsonV {
    let t = trimmed(val);
    let kept = JsonV::Str(val);
    match declared {
        Some(d) => if d == "integer"@ {
            match whole_i64(t) {
                Some(n) => int_value(n),
                None => kept,
            }
        } else if d == "number"@ {
            match float_parsed(t) {
                Some(v) => v,
                None => kept,
            }
        } else if d == "boolean"@ {
            if t == "true"@ {
                JsonV::Bool(true)
            } else if t == "false"@ {
                JsonV::Bool(false)
            } else {
                kept
            }
        } else if d == "object"@ || d == "array"@ || d == "null"@ {
            match parsed(t) {
                Some(v) => v,
                None => kept,
            }
        } else {
            bare_scalar(t, kept)
        },
        None => bare_scalar(t, kept),
    }
}

/// A bare number, truth value or null, or what is kept instead.
pub open spec fn bare_scalar(t: Seq<char>, kept: JsonV) -> JsonV {
    match parsed(t) {
        Some(v) => match v {
            JsonV::Pos(_) => v,
            JsonV::Neg(_) => v,
            JsonV::Float(_) => v,
            JsonV::Bool(_) => v,
            JsonV::Null => v,
            _ => kept,
        },
        None => kept,
    }
}

fn scalar_or_text(t: &str, val: &str) -> (j: Json)
    ensures
        j@ == bare_scalar(t@, JsonV::Str(val@)),
{
    match from_text(t) {
        Some(v) => match v {
            Json::Str(_) => Json::string(val),
            Json::Arr(_) => Json::string(val),
            Json::Obj(_) => Json::string(val),
            _ => v,
        },
        None => Json::string(val),
    }
}

/// A text as an argument of the declared type.
pub fn coerce(declared: Option<&str>, val: &str) -> (j: Json)
    ensures
        j@ == coerced(crate::json::opt_text(declared), val@),
{
    let c = chars_of(val);
    let tc = trim(&c);
    let t = string_of(&tc);
    match declared {
        Some(d) => {
            if same_text(d, "integer") {
                match parse_i64(&tc) {
                    Some(n) => int_json(n),
                    None => Json::string(val),
                }
            } else if same_text(d, "number") {
                match float_from(&t) {
                    Some(v) => v,
                    None => Json::string(val),
                }
            } else if same_text(d, "boolean") {
                if same_text(&t, "true") {
                    Json::Bool(true)
                } else if same_text(&t, "false") {
                    Json::Bool(false)
                } else {
                    Json::string(val)
                }
            } else if same_text(d, "object") || same_text(d, "array") || same_text(d, "null") {
                match from_text(&t) {
                    Some(v) => v,
                    None => Json::string(val),
                }
            } else {
                scalar_or_text(&t, val)
            }
        },
        None => scalar_or_text(&t, val),
    }
}

/// A text without the quotes at its start.
pub open spec fn unquoted_start(s: Seq<char>) -> Seq<char>
    decreases s.len(),
{
    if s.len() > 0 && (s[0] == '"' || s[0] == '\'') {
        unquoted_start(s.skip(1))
    } else {
        s
    }
}

/// A text without the quotes at its end.
pub open spec fn unquoted_end(s: Seq<char>) -> Seq<char>
    decreases s.len(),
{
    if s.len() > 0 && (s.last() == '"' || s.last() == '\'') {
        unquoted_end(s.drop_last())
    } else {
        s
    }
}

fn unquote(s: &[char]) -> (r: Vec<char>)
    ensures
        r@ == unquoted_end(unquoted_start(s@)),
{
    let mut i: usize = 0;
    assert(s@.skip(0) =~= s@);
    while i < s.len() && (s[i] == '"' || s[i] == '\'')
        invariant
            i <= s@.len(),
            unquoted_start(s@) == unquoted_start(s@.skip(i as int)),
        decreases s.len() - i,
    {
        assert(s@.skip(i as int)[0] == s@[i as int]);
        assert(s@.skip(i as int).skip(1) =~= s@.skip(i + 1));
        i += 1;
    }
    assert(i < s@.len() ==> s@.skip(i as int)[0] == s@[i as int]);
    let ghost u = s@.skip(i as int);
    assert(unquoted_start(s@) == u);
    let mut e: usize = s.len();
    assert(u.take(u.len() as int) =~= u);
    while e > i && (s[e - 1] == '"' || s[e - 1] == '\'')
        invariant
            i <= e <= s@.len(),
            u == s@.skip(i as int),
            unquoted_end(u) == unquoted_end(u.take(e - i)),
        decreases e,
    {
        assert(u.take(e - i).last() == s@[e - 1]);
        assert(u.take(e - i).drop_last() =~= u.take(e - i - 1));
        e -= 1;
    }
    assert(e > i ==> u.take(e - i).last() == s@[e - 1]);
    let r = piece(s, i, e);
    assert(r@ =~= u.take(e - i));
    r
}

/// A parameter after its opening mark: its key and what follows its tag; none
/// when the tag is broken.
pub open spec fn param_key(r: Seq<char>) -> Option<(Seq<char>, Seq<char>)> {
    if begins(r, "="@) {
        match split_at_first(r.skip(1), ">"@) {
            Some(p) => Some((trimmed(p.0), p.1)),
            None => None,
        }
    } else {
        match split_at_first(r, ">"@) {
            Some(p) => match place_of(p.0, "="@) {
                Some(eq) => Some(
                    (
                        trimmed(unquoted_end(unquoted_start(trimmed(p.0.skip(eq + 1))))),
                        p.1,
                    ),
                ),
                None => None,
            },
            None => None,
        }
    }
}

/// Where a value without a closing tag ends.
pub open spec fn open_value_end(r: Seq<char>) -> int {
    match place_of(r, "</function"@) {
        Some(i) => i,
        None => match place_of(r, "<parameter"@) {
            Some(i) => i,
            None => match place_of(r, "</tool_call"@) {
                Some(i) => i,
                None => r.len() as int,
            },
        },
    }
}

/// A parameter's value and what follows it; nothing follows a value without a
/// closing tag.
pub open spec fn param_value(r: Seq<char>) -> (Seq<char>, Option<Seq<char>>) {
    match split_at_first(r, "</parameter>"@) {
        Some(p) => (p.0, Some(p.1)),
        None => (r.take(open_value_end(r)), None),
    }
}

/// The lengths of what a text is cut into.
pub proof fn lemma_split_lengths(s: Seq<char>, pat: Seq<char>)
    ensures
        split_at_first(s, pat) matches Some(p) ==> p.0.len() + pat.len() + p.1.len() == s.len(),
{
    crate::chars::lemma_place_from(s, pat, 0);
}

/// The arguments given by parameter tags, added to those before.
pub open spec fn params_in(
    rest: Seq<char>,
    types: Map<Seq<char>, Map<Seq<char>, Seq<char>>>,
    name: Seq<char>,
    args: Members,
) -> Members
    decreases rest.len(),
{
    match split_at_first(rest, "<parameter"@) {
        None => args,
        Some(p) => match param_key(p.1) {
            None => args,
            Some(k) => {
                let v = param_value(k.1);
                let next = if k.0.len() > 0 {
                    set_member(args, k.0, coerced(type_of(types, name, k.0), v.0))
                } else {
                    args
                };
                match v.1 {
                    Some(after) => {
                        proof {
                            lemma_params_shrink(rest);
                        }
                        params_in(after, types, name, next)
                    },
                    None => next,
                }
            },
        },
    }
}

/// What follows a parameter is shorter than what came before it.
pub proof fn lemma_params_shrink(rest: Seq<char>)
    ensures
        split_at_first(rest, "<parameter"@) matches Some(p) ==> (param_key(p.1) matches Some(k)
            ==> (param_value(k.1).1 matches Some(a) ==> a.len() < rest.len())),
{
    reveal_strlit("<parameter");
    reveal_strlit("=");
    lemma_split_lengths(rest, "<parameter"@);
    if let Some(p) = split_at_first(rest, "<parameter"@) {
        lemma_split_lengths(p.1.skip(1), ">"@);
        lemma_split_lengths(p.1, ">"@);
        if let Some(k) = param_key(p.1) {
            lemma_split_lengths(k.1, "</parameter>"@);
        }
    }
}

fn read_key(r: &[char]) -> (o: Option<(Vec<char>, Vec<char>)>)
    ensures
        match o {
            Some(k) => param_key(r@) == Some((k.0@, k.1@)),
            None => param_key(r@) is None,
        },
{
    let eq = chars_of("=");
    let gt = chars_of(">");
    proof {
        reveal_strlit("=");
    }
    if starts_with(r, &eq) {
        let x = piece(r, 1, r.len());
        assert(x@ =~= r@.skip(1));
        match split_once(&x, &gt) {
            Some(p) => {
                let k = trim(&p.0);
                Some((k, p.1))
            },
            None => None,
        }
    } else {
        match split_once(r, &gt) {
            Some(p) => match search(&p.0, &eq) {
                Some(at) => {
                    let n = p.0.len();
                    let v = piece(&p.0, at + 1, n);
                    assert(v@ =~= p.0@.skip(at + 1));
                    let v = trim(&v);
                    let v = unquote(&v);
                    let v = trim(&v);
                    Some((v, p.1))
                },
                None => None,
            },
            None => None,
        }
    }
}

fn read_value(r: &[char]) -> (o: (Vec<char>, Option<Vec<char>>))
    ensures
        o.0@ == param_value(r@).0,
        match o.1 {
            Some(a) => param_value(r@).1 == Some(a@),
            None => param_value(r@).1 is None,
        },
{
    let close = chars_of("</parameter>");
    match split_once(r, &close) {
        Some(p) => (p.0, Some(p.1)),
        None => {
            let a = chars_of("</function");
            let b = chars_of("<parameter");
            let c = chars_of("</tool_call");
            let end = match search(r, &a) {
                Some(i) => i,
                None => match search(r, &b) {
                    Some(i) => i,
                    None => match search(r, &c) {
                        Some(i) => i,
                        None => r.len(),
                    },
                },
            };
            let v = piece(r, 0, end);
            assert(v@ =~= r@.take(end as int));
            (v, None)
        },
    }
}

fn read_params(body: &[char], types: &ToolTypes, name: &str) -> (args: Vec<(String, Json)>)
    ensures
        member_views(args@) == params_in(body@, types@, name@, Seq::empty()),
{
    let open = chars_of("<parameter");
    let mut args: Vec<(String, Json)> = Vec::new();
    let mut rest = piece(body, 0, body.len());
    assert(rest@ =~= body@);
    assert(member_views(args@) =~= Seq::empty());
    loop
        invariant
            open@ == "<parameter"@,
            params_in(body@, types@, name@, Seq::empty()) == params_in(
                rest@,
                types@,
                name@,
                member_views(args@),
            ),
        decreases rest@.len(),
    {
        proof {
            lemma_params_shrink(rest@);
        }
        let r = match split_once(&rest, &open) {
            Some(p) => p.1,
            None => {
                return args;
            },
        };
        let k = match read_key(&r) {
            Some(k) => k,
            None => {
                return args;
            },
        };
        let v = read_value(&k.1);
        if k.0.len() > 0 {
            let key = string_of(&k.0);
            let val = string_of(&v.0);
            let j = coerce(types.lookup(name, &key), &val);
            set_key(&mut args, &key, j);
        }
        match v.1 {
            Some(a) => {
                rest = a;
            },
            None => {
                return args;
            },
        }
    }
}

// ---- calls ----

/// The name in a function tag.
pub open spec fn tagged_name(body: Seq<char>) -> Seq<char> {
    match split_at_first(body, "<function="@) {
        Some(p) => match split_at_first(p.1, ">"@) {
            Some(q) => trimmed(q.0),
            None => Seq::empty(),
        },
        None => Seq::empty(),
    }
}

/// The name of the called function: of its tag or, without one, of a JSON
/// object in the body.
pub open spec fn call_name(body: Seq<char>) -> Seq<char> {
    let n = tagged_name(body);
    if n.len() > 0 {
        n
    } else {
        match object_from(body, 0) {
            Some(m) => text_or(member(m, "name"@), ""@),
            None => n,
        }
    }
}

/// The arguments that a JSON object in the body names, when the function has no
/// tag.
pub open spec fn named_args(body: Seq<char>) -> Members {
    if tagged_name(body).len() > 0 {
        Seq::empty()
    } else {
        match object_from(body, 0) {
            Some(m) => {
                let raw = match member(m, "arguments"@) {
                    Some(v) => Some(v),
                    None => member(m, "parameters"@),
                };
                match raw {
                    Some(JsonV::Obj(a)) => a,
                    _ => Seq::empty(),
                }
            },
            None => Seq::empty(),
        }
    }
}

/// The arguments of a call: those that an object names, or else those of the
/// parameter tags, or else any JSON object in the body, repaired if need be.
pub open spec fn call_args(
    body: Seq<char>,
    types: Map<Seq<char>, Map<Seq<char>, Seq<char>>>,
) -> Members {
    let a = named_args(body);
    if a.len() > 0 {
        a
    } else {
        let p = params_in(body, types, call_name(body), Seq::empty());
        if p.len() > 0 {
            p
        } else {
            match object_from(body, 0) {
                Some(m) => m,
                None => match salvaged(body) {
                    Some(m) => m,
                    None => Seq::empty(),
                },
            }
        }
    }
}

/// A call as it is reported.
pub open spec fn call_json(id: Seq<char>, name: Seq<char>, args: Members) -> JsonV {
    let function = Members::empty().push(("name"@, JsonV::Str(name))).push(
        ("arguments"@, JsonV::Str(rendered(JsonV::Obj(args)))),
    );
    JsonV::Obj(
        Members::empty().push(("id"@, JsonV::Str(id))).push(
            ("type"@, JsonV::Str("function"@)),
        ).push(("function"@, JsonV::Obj(function))),
    )
}

/// The call in the body of a tool call, under the given name.
pub open spec fn call_of(
    body: Seq<char>,
    types: Map<Seq<char>, Map<Seq<char>, Seq<char>>>,
    id: Seq<char>,
) -> JsonV {
    call_json(id, call_name(body), call_args(body, types))
}

fn read_tag(body: &[char]) -> (n: Vec<char>)
    ensures
        n@ == tagged_name(body@),
{
    let open = chars_of("<function=");
    let gt = chars_of(">");
    match split_once(body, &open) {
        Some(p) => match split_once(&p.1, &gt) {
            Some(q) => trim(&q.0),
            None => {
                let v: Vec<char> = Vec::new();
                assert(v@ =~= Seq::empty());
                v
            },
        },
        None => {
            let v: Vec<char> = Vec::new();
            assert(v@ =~= Seq::empty());
            v
        },
    }
}

fn read_call(body: &str, types: &ToolTypes) -> (r: (String, Vec<(String, Json)>))
    ensures
        r.0@ == call_name(body@),
        member_views(r.1@) == call_args(body@, types@),
{
    let c = chars_of(body);
    let tag = read_tag(&c);
    let tagged = tag.len() > 0;
    let mut name = string_of(&tag);
    let mut args: Vec<(String, Json)> = Vec::new();
    assert(member_views(args@) =~= Seq::empty());
    let any = find_json_object(body);
    if !tagged {
        match &any {
            Some(m) => {
                let o = crate::json::find_key(m, "name");
                name = match o {
                    Some(i) => {
                        assert(member_views(m@)[i as int].1 == m@[i as int].1@);
                        match m[i].1.as_str() {
                            Some(s) => s.to_owned(),
                            None => "".to_owned(),
                        }
                    },
                    None => "".to_owned(),
                };
                let a = match crate::json::find_key(m, "arguments") {
                    Some(i) => Some(i),
                    None => crate::json::find_key(m, "parameters"),
                };
                match a {
                    Some(i) => {
                        assert(member_views(m@)[i as int].1 == m@[i as int].1@);
                        match &m[i].1 {
                            Json::Obj(x) => {
                                args = copy_members(x);
                            },
                            _ => {},
                        }
                    },
                    None => {},
                }
            },
            None => {},
        }
    }
    assert(member_views(args@) == named_args(body@));
    assert(member_views(args@).len() == args@.len());
    if args.len() == 0 {
        args = read_params(&c, types, &name);
        assert(member_views(args@).len() == args@.len());
        if args.len() == 0 {
            match any {
                Some(m) => {
                    args = m;
                },
                None => match salvage_json_object(body) {
                    Some(m) => {
                        args = m;
                    },
                    None => {
                        assert(member_views(args@) =~= Seq::empty());
                    },
                },
            }
        }
    }
    (name, args)
}

/// Copies of members.
fn copy_members(m: &Vec<(String, Json)>) -> (r: Vec<(String, Json)>)
    ensures
        member_views(r@) == member_views(m@),
{
    let mut out: Vec<(String, Json)> = Vec::new();
    let mut i: usize = 0;
    while i < m.len()
        invariant
            i <= m.len(),
            member_views(out@) == member_views(m@).take(i as int),
        decreases m.len() - i,
    {
        let e = (m[i].0.clone(), m[i].1.duplicate());
        let ghost before = member_views(out@);
        out.push(e);
        assert(member_views(out@) =~= before.push((e.0@, e.1@)));
        i += 1;
        assert(member_views(out@) =~= member_views(m@).take(i as int));
    }
    assert(member_views(out@) =~= member_views(m@));
    out
}

/// The call in the body of a tool call. Its arguments are JSON text; they read
/// back as they are, as far as `readable` goes.
pub fn parse_tool_call(body: &str, types: &ToolTypes, ids: &mut Counters, now: u64) -> (j: Json)
    ensures
        j@ == call_of(body@, types@, id_text("call_"@, now, old(ids).calls)),
        *final(ids) == (Counters { calls: old(ids).calls.wrapping_add(1), ..*old(ids) }),
        readable(JsonV::Obj(call_args(body@, types@)), 127) ==> parsed(
            rendered(JsonV::Obj(call_args(body@, types@))),
        ) == Some(JsonV::Obj(call_args(body@, types@))),
{
    let (name, args) = read_call(body, types);
    let args = Json::Obj(args);
    let text = to_text(&args);
    let mut f = Object::new();
    f.add("name", Json::Str(name));
    f.add("arguments", Json::Str(text));
    let id = ids.tool_call_id(now);
    let mut o = Object::new();
    o.add("id", Json::Str(id));
    o.add_str("type", "function");
    o.add("function", f.done());
    o.done()
}

/// The bodies of the tool calls in a text. A call that is never closed reaches
/// to the end, or to what is left of its closing tag.
pub open spec fn call_bodies(rest: Seq<char>) -> Seq<Seq<char>>
    decreases rest.len(),
{
    match split_at_first(rest, "<tool_call>"@) {
        None => Seq::empty(),
        Some(p) => match split_at_first(p.1, "</tool_call>"@) {
            Some(q) => {
                proof {
                    lemma_bodies_shrink(rest);
                }
                seq![q.0] + call_bodies(q.1)
            },
            None => seq![before_stops(p.1, seq!["</tool_call"@])],
        },
    }
}

/// What follows a call is shorter than what came before it.
pub proof fn lemma_bodies_shrink(rest: Seq<char>)
    ensures
        split_at_first(rest, "<tool_call>"@) matches Some(p) ==> (split_at_first(
            p.1,
            "</tool_call>"@,
        ) matches Some(q) ==> q.1.len() < rest.len()),
{
    reveal_strlit("<tool_call>");
    lemma_split_lengths(rest, "<tool_call>"@);
    if let Some(p) = split_at_first(rest, "<tool_call>"@) {
        lemma_split_lengths(p.1, "</tool_call>"@);
    }
}

/// The calls of the given bodies, named from a number on.
pub open spec fn calls_of(
    bodies: Seq<Seq<char>>,
    types: Map<Seq<char>, Map<Seq<char>, Seq<char>>>,
    now: u64,
    from: u64,
) -> Seq<JsonV>
    decreases bodies.len(),
{
    if bodies.len() == 0 {
        Seq::empty()
    } else {
        seq![call_of(bodies[0], types, id_text("call_"@, now, from))] + calls_of(
            bodies.skip(1),
            types,
            now,
            from.wrapping_add(1),
        )
    }
}

/// The number after so many more.
pub open spec fn count_on(from: u64, n: nat) -> u64
    decreases n,
{
    if n == 0 {
        from
    } else {
        count_on(from.wrapping_add(1), (n - 1) as nat)
    }
}

/// What a reply shows and what it calls.
pub open spec fn answer_parts(t: Seq<char>) -> (Seq<char>, Seq<Seq<char>>) {
    let answer = reasoned(t).1;
    match place_of(answer, "<tool_call>"@) {
        None => (answer, Seq::empty()),
        Some(i) => (trimmed(answer.take(i)), call_bodies(answer.skip(i))),
    }
}

/// Splits generated text into what is shown and the tool calls; any reasoning
/// is left out.
pub fn extract_tool_calls(text: &str, tools: &Vec<Json>, ids: &mut Counters, now: u64) -> (r: (
    String,
    Vec<Json>,
))
    ensures
        r.0@ == answer_parts(text@).0,
        list_views(r.1@) == calls_of(
            answer_parts(text@).1,
            declared_types(list_views(tools@), tools@.len() as int),
            now,
            old(ids).calls,
        ),
        *final(ids) == (Counters {
            calls: count_on(old(ids).calls, answer_parts(text@).1.len()),
            ..*old(ids)
        }),
{
    let (_, answer) = split_reasoning(text);
    let a = chars_of(&answer);
    let open = chars_of("<tool_call>");
    let close = chars_of("</tool_call>");
    let start = match search(&a, &open) {
        Some(i) => i,
        None => {
            return (answer, no_items());
        },
    };
    let head = piece(&a, 0, start);
    assert(head@ =~= a@.take(start as int));
    let head = trim(&head);
    let content = string_of(&head);
    let types = tool_types(tools);
    let mut calls = no_items();
    let mut rest = piece(&a, start, a.len());
    assert(rest@ =~= a@.skip(start as int));
    let ghost bodies = call_bodies(rest@);
    let ghost first = ids.calls;
    assert(list_views(calls@) + calls_of(bodies, types@, now, first) =~= calls_of(
        bodies,
        types@,
        now,
        first,
    ));
    loop
        invariant
            open@ == "<tool_call>"@,
            close@ == "</tool_call>"@,
            content@ == answer_parts(text@).0,
            bodies == answer_parts(text@).1,
            types@ == declared_types(list_views(tools@), tools@.len() as int),
            first == old(ids).calls,
            list_views(calls@) + calls_of(call_bodies(rest@), types@, now, ids.calls) == calls_of(
                bodies,
                types@,
                now,
                first,
            ),
            count_on(ids.calls, call_bodies(rest@).len()) == count_on(first, bodies.len()),
            *ids == (Counters { calls: ids.calls, ..*old(ids) }),
        decreases rest@.len(),
    {
        proof {
            lemma_bodies_shrink(rest@);
        }
        let ghost before = list_views(calls@);
        let ghost left = call_bodies(rest@);
        let ghost k = ids.calls;
        let after = match split_once(&rest, &open) {
            Some(p) => p.1,
            None => {
                assert(before + Seq::<JsonV>::empty() =~= before);
                return (content, calls);
            },
        };
        match split_once(&after, &close) {
            Some(q) => {
                let b = string_of(&q.0);
                let j = parse_tool_call(&b, &types, ids, now);
                push_item(&mut calls, j);
                rest = q.1;
                proof {
                    assert(left[0] == q.0@);
                    assert(left.skip(1) =~= call_bodies(rest@));
                    assert(list_views(calls@) + calls_of(
                        call_bodies(rest@),
                        types@,
                        now,
                        ids.calls,
                    ) =~= before + calls_of(left, types@, now, k));
                }
            },
            None => {
                let tail = string_of(&after);
                let marks = vec!["</tool_call".to_owned()];
                assert(views(marks@) =~= seq!["</tool_call"@]);
                let b = strip_stops(&tail, &marks);
                let j = parse_tool_call(&b, &types, ids, now);
                push_item(&mut calls, j);
                proof {
                    assert(left.len() == 1 && left[0] == b@);
                    assert(left.skip(1) =~= Seq::empty());
                    assert(calls_of(left.skip(1), types@, now, k.wrapping_add(1)) =~= Seq::empty());
                    assert(list_views(calls@) =~= before + calls_of(left, types@, now, k));
                    assert(count_on(ids.calls, 0) == ids.calls);
                }
                return (content, calls);
            },
        }
    }
}

// ---- replies ----

/// What of a reply is reported: content, reasoning and calls. Text from the
/// earliest stop sequence on is dropped; calls are only looked for when there
/// are tools, and only the first counts when calls may not be parallel.
pub open spec fn reply_parts(
    full: Seq<char>,
    tools: Seq<JsonV>,
    parallel: bool,
    stops: Seq<Seq<char>>,
    now: u64,
    from: u64,
) -> (Seq<char>, Option<Seq<char>>, Seq<JsonV>) {
    let (reasoning, answer) = reasoned(before_stops(full, stops));
    if tools.len() == 0 {
        (answer, reasoning, Seq::empty())
    } else {
        let (content, bodies) = answer_parts(answer);
        let calls = calls_of(bodies, declared_types(tools, tools.len() as int), now, from);
        (content, reasoning, if !parallel && calls.len() > 1 {
            calls.take(1)
        } else {
            calls
        })
    }
}

/// How many calls a reply names.
pub open spec fn reply_calls(full: Seq<char>, tools: Seq<JsonV>, stops: Seq<Seq<char>>) -> nat {
    if tools.len() == 0 {
        0
    } else {
        answer_parts(reasoned(before_stops(full, stops)).1).1.len()
    }
}

/// What of a reply is reported: content, reasoning and calls.
pub fn shape_reply(
    full: &str,
    tools: &Vec<Json>,
    parallel: bool,
    stops: &Vec<String>,
    ids: &mut Counters,
    now: u64,
) -> (r: (String, Option<String>, Vec<Json>))
    ensures
        (r.0@, opt_string(r.1), list_views(r.2@)) == reply_parts(
            full@,
            list_views(tools@),
            parallel,
            views(stops@),
            now,
            old(ids).calls,
        ),
        *final(ids) == (Counters {
            calls: count_on(
                old(ids).calls,
                reply_calls(full@, list_views(tools@), views(stops@)),
            ),
            ..*old(ids)
        }),
{
    let text = strip_stops(full, stops);
    let (reasoning, answer) = split_reasoning(&text);
    assert(list_views(tools@).len() == tools@.len());
    if tools.len() == 0 {
        assert(count_on(ids.calls, 0) == ids.calls);
        (answer, reasoning, no_items())
    } else {
        let (content, calls) = extract_tool_calls(&answer, tools, ids, now);
        let mut calls = calls;
        assert(list_views(calls@).len() == calls@.len());
        if !parallel && calls.len() > 1 {
            let ghost before = list_views(calls@);
            calls.truncate(1);
            assert(list_views(calls@) =~= before.take(1));
        }
        (content, reasoning, calls)
    }
}

/// A streamed reply and a collected one show the same: what is shown while a
/// reply streams is its content, but for white space around it where tool calls
/// follow. The reply names no stop sequence, its answer holds no mark of
/// reasoning, and it opens a tool call only where there are tools.
pub proof fn streamed_content_is_the_content(
    full: Seq<char>,
    tools: Seq<JsonV>,
    parallel: bool,
    stops: Seq<Seq<char>>,
    now: u64,
    from: u64,
)
    requires
        before_stops(full, stops) == full,
        tools.len() > 0 ==> place_of(reasoned(full).1, think_close()) is None && place_of(
            reasoned(full).1,
            think_open(),
        ) is None,
        tools.len() == 0 ==> call_place(reasoned(full).1) is None,
    ensures
        ({
            let content = reply_parts(full, tools, parallel, stops, now, from).0;
            if call_place(reasoned(full).1) is None {
                content == shown_so_far(full)
            } else {
                content == trimmed(shown_so_far(full))
            }
        }),
{
    shown_text_is_the_answer(full);
}

/// Without parallel calls a reply reports at most one.
pub proof fn at_most_one_call(
    full: Seq<char>,
    tools: Seq<JsonV>,
    stops: Seq<Seq<char>>,
    now: u64,
    from: u64,
)
    ensures
        reply_parts(full, tools, false, stops, now, from).2.len() <= 1,
{
}

/// Without tools nothing is called, whatever the text.
pub proof fn no_tools_no_calls(
    full: Seq<char>,
    parallel: bool,
    stops: Seq<Seq<char>>,
    now: u64,
    from: u64,
)
    ensures
        reply_parts(full, Seq::empty(), parallel, stops, now, from).2.len() == 0,
{
}

} // verus!
