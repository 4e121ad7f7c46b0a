//! JSON values, with object members in the order of insertion.

use vstd::prelude::*;

verus! {

/// A number of `serde_json`; held where it is not an integer.
#[verifier::external_type_specification]
#[verifier::external_body]
pub struct ExNumber(serde_json::Number);

/// A JSON value. Object members keep the order of insertion.
#[derive(Debug)]
pub enum Json {
    Null,
    Bool(bool),
    Pos(u64),
    Neg(i64),
    Float(serde_json::Number),
    Str(String),
    Arr(Vec<Json>),
    Obj(Vec<(String, Json)>),
}

/// What a JSON value is.
#[verifier::ext_equal]
pub ghost enum JsonV {
    Null,
    Bool(bool),
    Pos(u64),
    Neg(i64),
    Float(serde_json::Number),
    Str(Seq<char>),
    Arr(Seq<JsonV>),
    Obj(Seq<(Seq<char>, JsonV)>),
}

/// The members of an object.
pub type Members = Seq<(Seq<char>, JsonV)>;

spec fn shown(j: Json) -> JsonV
    decreases j,
{
    match j {
        Json::Null => JsonV::Null,
        Json::Bool(b) => JsonV::Bool(b),
        Json::Pos(n) => JsonV::Pos(n),
        Json::Neg(n) => JsonV::Neg(n),
        Json::Float(n) => JsonV::Float(n),
        Json::Str(s) => JsonV::Str(s@),
        Json::Arr(v) => JsonV::Arr(shown_list(v@)),
        Json::Obj(v) => JsonV::Obj(shown_members(v@)),
    }
}

spec fn shown_list(v: Seq<Json>) -> Seq<JsonV>
    decreases v,
{
    if v.len() == 0 {
        Seq::empty()
    } else {
        shown_list(v.drop_last()).push(shown(v.last()))
    }
}

spec fn shown_members(v: Seq<(String, Json)>) -> Members
    decreases v,
{
    if v.len() == 0 {
        Seq::empty()
    } else {
        shown_members(v.drop_last()).push((v.last().0@, shown(v.last().1)))
    }
}

impl View for Json {
    type V = JsonV;

    closed spec fn view(&self) -> JsonV {
        shown(*self)
    }
}

/// What a list of JSON values is.
pub open spec fn list_views(v: Seq<Json>) -> Seq<JsonV> {
    v.map_values(|j: Json| j@)
}

/// What a list of members is.
pub open spec fn member_views(v: Seq<(String, Json)>) -> Members {
    v.map_values(|m: (String, Json)| (m.0@, m.1@))
}

proof fn lemma_shown_list(v: Seq<Json>)
    ensures
        shown_list(v) =~= list_views(v),
    decreases v.len(),
{
    if v.len() > 0 {
        lemma_shown_list(v.drop_last());
    }
}

proof fn lemma_shown_members(v: Seq<(String, Json)>)
    ensures
        shown_members(v) =~= member_views(v),
    decreases v.len(),
{
    if v.len() > 0 {
        lemma_shown_members(v.drop_last());
    }
}

/// The view, variant by variant.
pub broadcast proof fn json_view(j: Json)
    ensures
        #![trigger j@]
        match j {
            Json::Null => j@ == JsonV::Null,
            Json::Bool(b) => j@ == JsonV::Bool(b),
            Json::Pos(n) => j@ == JsonV::Pos(n),
            Json::Neg(n) => j@ == JsonV::Neg(n),
            Json::Float(n) => j@ == JsonV::Float(n),
            Json::Str(s) => j@ == JsonV::Str(s@),
            Json::Arr(v) => j@ == JsonV::Arr(list_views(v@)),
            Json::Obj(v) => j@ == JsonV::Obj(member_views(v@)),
        },
{
    match j {
        Json::Arr(v) => {
            lemma_shown_list(v@);
            assert(shown(j) == JsonV::Arr(shown_list(v@)));
        },
        Json::Obj(v) => {
            lemma_shown_members(v@);
            assert(shown(j) == JsonV::Obj(shown_members(v@)));
        },
        _ => {},
    }
}

} // verus!
