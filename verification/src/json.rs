//! Reading and building JSON values.

use vstd::prelude::*;

use crate::text::same_text;
pub use crate::value::{list_views, member_views, Json, JsonV, Members};

verus! {

broadcast use crate::value::json_view;

// ---- reading ----

/// The first place of a key from `from` on.
pub open spec fn key_place(m: Members, key: Seq<char>, from: int) -> Option<int>
    decreases m.len() - from,
{
    if from < 0 || from >= m.len() {
        None
    } else if m[from].0 == key {
        Some(from)
    } else {
        key_place(m, key, from + 1)
    }
}

/// The value of a key.
pub open spec fn member(m: Members, key: Seq<char>) -> Option<JsonV> {
    match key_place(m, key, 0) {
        Some(i) => Some(m[i].1),
        None => None,
    }
}

/// Where a key's first place is.
pub proof fn lemma_key_place(m: Members, key: Seq<char>, from: int)
    requires
        0 <= from,
    ensures
        match key_place(m, key, from) {
            Some(i) => from <= i < m.len() && m[i].0 == key && forall|j: int|
                from <= j < i ==> (#[trigger] m[j]).0 != key,
            None => forall|j: int| from <= j < m.len() ==> (#[trigger] m[j]).0 != key,
        },
    decreases m.len() - from,
{
    if from < m.len() && m[from].0 != key {
        lemma_key_place(m, key, from + 1);
    }
}

impl JsonV {
    /// The member of an object.
    pub open spec fn field(self, key: Seq<char>) -> Option<JsonV> {
        match self {
            JsonV::Obj(m) => member(m, key),
            _ => None,
        }
    }

    /// The member of a member.
    pub open spec fn within(self, outer: Seq<char>, inner: Seq<char>) -> Option<JsonV> {
        match self.field(outer) {
            Some(v) => v.field(inner),
            None => None,
        }
    }

    pub open spec fn text(self) -> Option<Seq<char>> {
        match self {
            JsonV::Str(s) => Some(s),
            _ => None,
        }
    }

    pub open spec fn flag(self) -> Option<bool> {
        match self {
            JsonV::Bool(b) => Some(b),
            _ => None,
        }
    }

    pub open spec fn natural(self) -> Option<u64> {
        match self {
            JsonV::Pos(n) => Some(n),
            _ => None,
        }
    }

    pub open spec fn items(self) -> Option<Seq<JsonV>> {
        match self {
            JsonV::Arr(v) => Some(v),
            _ => None,
        }
    }

    pub open spec fn members(self) -> Option<Members> {
        match self {
            JsonV::Obj(m) => Some(m),
            _ => None,
        }
    }
}

/// The text of an optional value.
pub open spec fn text_in(v: Option<JsonV>) -> Option<Seq<char>> {
    match v {
        Some(j) => j.text(),
        None => None,
    }
}

/// The text of an optional value, or another text.
pub open spec fn text_or(v: Option<JsonV>, other: Seq<char>) -> Seq<char> {
    match text_in(v) {
        Some(s) => s,
        None => other,
    }
}

/// The truth value of an optional value, or another one.
pub open spec fn flag_or(v: Option<JsonV>, other: bool) -> bool {
    match v {
        Some(JsonV::Bool(b)) => b,
        _ => other,
    }
}

/// The natural number of an optional value.
pub open spec fn natural_in(v: Option<JsonV>) -> Option<u64> {
    match v {
        Some(j) => j.natural(),
        None => None,
    }
}

/// The items of an optional value.
pub open spec fn items_in(v: Option<JsonV>) -> Option<Seq<JsonV>> {
    match v {
        Some(j) => j.items(),
        None => None,
    }
}

/// An optional value, or another one.
pub open spec fn value_or(v: Option<JsonV>, other: JsonV) -> JsonV {
    match v {
        Some(j) => j,
        None => other,
    }
}

/// What an optional value is.
pub open spec fn opt_view(o: Option<&Json>) -> Option<JsonV> {
    match o {
        Some(j) => Some(j@),
        None => None,
    }
}

/// What an optional text is.
pub open spec fn opt_text(o: Option<&str>) -> Option<Seq<char>> {
    match o {
        Some(s) => Some(s@),
        None => None,
    }
}

/// The place of a key among members.
pub fn find_key(m: &Vec<(String, Json)>, key: &str) -> (r: Option<usize>)
    ensures
        match r {
            Some(i) => key_place(member_views(m@), key@, 0) == Some(i as int) && i < m@.len(),
            None => key_place(member_views(m@), key@, 0) is None,
        },
{
    let ghost v = member_views(m@);
    let mut i: usize = 0;
    while i < m.len()
        invariant
            i <= m.len(),
            v == member_views(m@),
            key_place(v, key@, 0) == key_place(v, key@, i as int),
        decreases m.len() - i,
    {
        assert(v[i as int].0 == m@[i as int].0@);
        if same_text(&m[i].0, key) {
            return Some(i);
        }
        i += 1;
    }
    None
}

impl Json {
    /// The member of an object.
    pub fn get(&self, key: &str) -> (r: Option<&Json>)
        ensures
            opt_view(r) == self@.field(key@),
    {
        match self {
            Json::Obj(m) => match find_key(m, key) {
                Some(i) => {
                    assert(member_views(m@)[i as int].1 == m@[i as int].1@);
                    Some(&m[i].1)
                },
                None => None,
            },
            _ => None,
        }
    }

    /// The member of a member.
    pub fn get_in(&self, outer: &str, inner: &str) -> (r: Option<&Json>)
        ensures
            opt_view(r) == self@.within(outer@, inner@),
    {
        match self.get(outer) {
            Some(v) => v.get(inner),
            None => None,
        }
    }

    pub fn as_str(&self) -> (r: Option<&str>)
        ensures
            opt_text(r) == self@.text(),
    {
        match self {
            Json::Str(s) => Some(s.as_str()),
            _ => None,
        }
    }

    pub fn as_bool(&self) -> (r: Option<bool>)
        ensures
            r == self@.flag(),
    {
        match self {
            Json::Bool(b) => Some(*b),
            _ => None,
        }
    }

    pub fn as_u64(&self) -> (r: Option<u64>)
        ensures
            r == self@.natural(),
    {
        match self {
            Json::Pos(n) => Some(*n),
            _ => None,
        }
    }

    pub fn as_array(&self) -> (r: Option<&Vec<Json>>)
        ensures
            match r {
                Some(v) => self@.items() == Some(list_views(v@)),
                None => self@.items() is None,
            },
    {
        match self {
            Json::Arr(v) => Some(v),
            _ => None,
        }
    }

    pub fn as_object(&self) -> (r: Option<&Vec<(String, Json)>>)
        ensures
            match r {
                Some(v) => self@.members() == Some(member_views(v@)),
                None => self@.members() is None,
            },
    {
        match self {
            Json::Obj(v) => Some(v),
            _ => None,
        }
    }

    /// The text of a member.
    pub fn str_of(&self, key: &str) -> (r: Option<&str>)
        ensures
            opt_text(r) == text_in(self@.field(key@)),
    {
        match self.get(key) {
            Some(v) => v.as_str(),
            None => None,
        }
    }

    /// The text of a member, or another text.
    pub fn str_or<'a>(&'a self, key: &str, other: &'a str) -> (r: &'a str)
        ensures
            r@ == text_or(self@.field(key@), other@),
    {
        match self.str_of(key) {
            Some(s) => s,
            None => other,
        }
    }

    /// The text of a member of a member.
    pub fn str_in(&self, outer: &str, inner: &str) -> (r: Option<&str>)
        ensures
            opt_text(r) == text_in(self@.within(outer@, inner@)),
    {
        match self.get_in(outer, inner) {
            Some(v) => v.as_str(),
            None => None,
        }
    }

    /// The truth value of a member, or another one.
    pub fn bool_or(&self, key: &str, other: bool) -> (r: bool)
        ensures
            r == flag_or(self@.field(key@), other),
    {
        match self.get(key) {
            Some(Json::Bool(b)) => *b,
            _ => other,
        }
    }

    /// The natural number of a member.
    pub fn u64_of(&self, key: &str) -> (r: Option<u64>)
        ensures
            r == natural_in(self@.field(key@)),
    {
        match self.get(key) {
            Some(v) => v.as_u64(),
            None => None,
        }
    }

    /// The items of a member.
    pub fn array_of(&self, key: &str) -> (r: Option<&Vec<Json>>)
        ensures
            match r {
                Some(v) => items_in(self@.field(key@)) == Some(list_views(v@)),
                None => items_in(self@.field(key@)) is None,
            },
    {
        match self.get(key) {
            Some(v) => v.as_array(),
            None => None,
        }
    }
}

// ---- building ----

/// Members with a key's value set: in the key's place, or at the end.
pub open spec fn set_member(m: Members, key: Seq<char>, v: JsonV) -> Members {
    match key_place(m, key, 0) {
        Some(i) => m.update(i, (m[i].0, v)),
        None => m.push((key, v)),
    }
}

impl JsonV {
    /// The object with a member set; an object is made of null.
    pub open spec fn with(self, key: Seq<char>, v: JsonV) -> JsonV {
        match self {
            JsonV::Obj(m) => JsonV::Obj(set_member(m, key, v)),
            _ => JsonV::Obj(seq![(key, v)]),
        }
    }

    /// A member can be set.
    pub open spec fn settable(self) -> bool {
        self is Obj || self is Null
    }
}

/// `serde_json::Number::clone` gives the same number.
#[verifier::external_body]
fn copy_number(n: &serde_json::Number) -> (r: serde_json::Number)
    ensures
        r == *n,
{
    n.clone()
}

/// Sets a key's value: in the key's place, or at the end.
pub fn set_key(m: &mut Vec<(String, Json)>, key: &str, v: Json)
    ensures
        member_views(final(m)@) == set_member(member_views(old(m)@), key@, v@),
{
    let ghost before = member_views(m@);
    match find_key(m, key) {
        Some(i) => {
            assert(before[i as int].0 == m@[i as int].0@);
            let k = m[i].0.clone();
            m.set(i, (k, v));
            assert(member_views(m@) =~= before.update(i as int, (before[i as int].0, v@)));
        },
        None => {
            m.push((key.to_owned(), v));
            assert(member_views(m@) =~= before.push((key@, v@)));
        },
    }
}

impl Json {
    /// A copy.
    pub fn duplicate(&self) -> (r: Json)
        ensures
            r@ == self@,
        decreases self,
    {
        match self {
            Json::Null => Json::Null,
            Json::Bool(b) => Json::Bool(*b),
            Json::Pos(n) => Json::Pos(*n),
            Json::Neg(n) => Json::Neg(*n),
            Json::Float(n) => Json::Float(copy_number(n)),
            Json::Str(s) => Json::Str(s.clone()),
            Json::Arr(v) => {
                let mut out: Vec<Json> = Vec::new();
                let mut i: usize = 0;
                while i < v.len()
                    invariant
                        i <= v.len(),
                        *self == Json::Arr(*v),
                        list_views(out@) == list_views(v@).take(i as int),
                    decreases v.len() - i,
                {
                    assert(decreases_to!(*self => self->Arr_0));
                    assert(decreases_to!(self->Arr_0 => self->Arr_0@));
                    assert(decreases_to!(v@ => v@[i as int]));
                    let c = v[i].duplicate();
                    let ghost before = list_views(out@);
                    out.push(c);
                    assert(list_views(out@) =~= before.push(c@));
                    i += 1;
                    assert(list_views(out@) =~= list_views(v@).take(i as int));
                }
                assert(list_views(out@) =~= list_views(v@));
                Json::Arr(out)
            },
            Json::Obj(v) => {
                let mut out: Vec<(String, Json)> = Vec::new();
                let mut i: usize = 0;
                while i < v.len()
                    invariant
                        i <= v.len(),
                        *self == Json::Obj(*v),
                        member_views(out@) == member_views(v@).take(i as int),
                    decreases v.len() - i,
                {
                    assert(decreases_to!(*self => self->Obj_0));
                    assert(decreases_to!(self->Obj_0 => self->Obj_0@));
                    assert(decreases_to!(v@ => v@[i as int]));
                    assert(decreases_to!(v@[i as int] => v@[i as int].1));
                    let c = v[i].1.duplicate();
                    let k = v[i].0.clone();
                    let ghost before = member_views(out@);
                    out.push((k, c));
                    assert(member_views(out@) =~= before.push((k@, c@)));
                    i += 1;
                    assert(member_views(out@) =~= member_views(v@).take(i as int));
                }
                assert(member_views(out@) =~= member_views(v@));
                Json::Obj(out)
            },
        }
    }

    /// The text as a value.
    pub fn string(s: &str) -> (r: Json)
        ensures
            r@ == JsonV::Str(s@),
    {
        Json::Str(s.to_owned())
    }

    /// Sets a member; an object is made of null.
    pub fn set(&mut self, key: &str, v: Json)
        requires
            old(self)@.settable(),
        ensures
            final(self)@ == old(self)@.with(key@, v@),
    {
        let mut taken = Json::Null;
        std::mem::swap(&mut taken, self);
        match taken {
            Json::Obj(m) => {
                let mut m = m;
                set_key(&mut m, key, v);
                *self = Json::Obj(m);
            },
            _ => {
                let mut m: Vec<(String, Json)> = Vec::new();
                m.push((key.to_owned(), v));
                assert(member_views(m@) =~= seq![(key@, v@)]);
                *self = Json::Obj(m);
            },
        }
    }
}

/// Copies of a list of values.
pub fn copy_list(v: &Vec<Json>) -> (r: Vec<Json>)
    ensures
        list_views(r@) == list_views(v@),
{
    let mut out: Vec<Json> = Vec::new();
    let mut i: usize = 0;
    while i < v.len()
        invariant
            i <= v.len(),
            list_views(out@) == list_views(v@).take(i as int),
        decreases v.len() - i,
    {
        let c = v[i].duplicate();
        let ghost before = list_views(out@);
        out.push(c);
        assert(list_views(out@) =~= before.push(c@));
        i += 1;
        assert(list_views(out@) =~= list_views(v@).take(i as int));
    }
    assert(list_views(out@) =~= list_views(v@));
    out
}

/// An object in the making.
pub struct Object {
    pub members: Vec<(String, Json)>,
}

impl View for Object {
    type V = Members;

    open spec fn view(&self) -> Members {
        member_views(self.members@)
    }
}

impl Object {
    pub fn new() -> (o: Object)
        ensures
            o@ == Members::empty(),
    {
        let o = Object { members: Vec::new() };
        assert(o@ =~= Seq::empty());
        o
    }

    /// Adds a member at the end.
    pub fn add(&mut self, key: &str, v: Json)
        ensures
            final(self)@ == old(self)@.push((key@, v@)),
    {
        let ghost before = self@;
        self.members.push((key.to_owned(), v));
        assert(self@ =~= before.push((key@, v@)));
    }

    pub fn add_str(&mut self, key: &str, s: &str)
        ensures
            final(self)@ == old(self)@.push((key@, JsonV::Str(s@))),
    {
        self.add(key, Json::string(s));
    }

    pub fn done(self) -> (j: Json)
        ensures
            j@ == JsonV::Obj(self@),
    {
        Json::Obj(self.members)
    }
}

/// A list in the making is a plain vector; this is the finished value.
pub fn array(v: Vec<Json>) -> (j: Json)
    ensures
        j@ == JsonV::Arr(list_views(v@)),
{
    Json::Arr(v)
}

/// Adds a value to a list.
pub fn push_item(v: &mut Vec<Json>, j: Json)
    ensures
        list_views(final(v)@) == list_views(old(v)@).push(j@),
{
    let ghost before = list_views(v@);
    v.push(j);
    assert(list_views(v@) =~= before.push(j@));
}

/// A list without values.
pub fn no_items() -> (v: Vec<Json>)
    ensures
        list_views(v@) == Seq::<JsonV>::empty(),
{
    let v: Vec<Json> = Vec::new();
    assert(list_views(v@) =~= Seq::<JsonV>::empty());
    v
}

// ---- distinct keys ----

/// No key stands twice among the members.
pub open spec fn distinct_keys(m: Members) -> bool {
    forall|i: int, j: int| 0 <= i < j < m.len() ==> (#[trigger] m[i]).0 != (#[trigger] m[j]).0
}

/// Setting a member keeps the keys distinct.
pub proof fn setting_keeps_keys_distinct(m: Members, key: Seq<char>, v: JsonV)
    requires
        distinct_keys(m),
    ensures
        distinct_keys(set_member(m, key, v)),
{
    lemma_key_place(m, key, 0);
}

/// A member that was set reads back, and no other member changes.
pub proof fn set_member_reads_back(m: Members, key: Seq<char>, v: JsonV, other: Seq<char>)
    ensures
        member(set_member(m, key, v), key) == Some(v),
        other != key ==> member(set_member(m, key, v), other) == member(m, other),
{
    let n = set_member(m, key, v);
    lemma_key_place(m, key, 0);
    lemma_key_place(n, key, 0);
    lemma_key_place(m, other, 0);
    lemma_key_place(n, other, 0);
    match key_place(m, key, 0) {
        Some(i) => {
            assert(n[i].0 == key);
            if let Some(k) = key_place(n, key, 0) {
                if k < i {
                    assert(m[k].0 == n[k].0);
                }
            }
        },
        None => {
            assert(n[m.len() as int].0 == key);
            if let Some(k) = key_place(n, key, 0) {
                if k < m.len() {
                    assert(m[k].0 == n[k].0);
                }
            }
        },
    }
    if other != key {
        match (key_place(m, other, 0), key_place(n, other, 0)) {
            (Some(a), Some(b)) => {
                assert(n[a].0 == other);
                assert(b <= a);
                assert(m[b].0 == other);
            },
            (Some(a), None) => {
                assert(n[a].0 == other);
            },
            (None, Some(b)) => {
                assert(b < m.len() ==> m[b].0 == other);
            },
            (None, None) => {},
        }
    }
}

} // verus!
