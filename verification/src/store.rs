//! The conversations and responses that later requests refer to.

use vstd::prelude::*;

use crate::json::{
    array, copy_list, items_in, list_views, no_items, push_item, text_in, Json, JsonV,
};
use crate::payload::{assistant_message, assistant_entry, ReplyData, ReplyV};
use crate::text::same_text;

verus! {

broadcast use crate::value::json_view;

/// The conversation and the payload of every response that was stored; the last
/// entry of a name counts.
pub struct Store {
    pub conversations: Vec<(String, Vec<Json>)>,
    pub payloads: Vec<(String, Json)>,
}

/// The view of a store.
#[verifier::ext_equal]
pub ghost struct StoreV {
    pub conversations: Map<Seq<char>, Seq<JsonV>>,
    pub payloads: Map<Seq<char>, JsonV>,
}

pub open spec fn conversation_map(v: Seq<(String, Vec<Json>)>, k: int) -> Map<
    Seq<char>,
    Seq<JsonV>,
>
    decreases k,
{
    if k <= 0 {
        Map::empty()
    } else {
        conversation_map(v, k - 1).insert(v[k - 1].0@, list_views(v[k - 1].1@))
    }
}

pub open spec fn payload_map(v: Seq<(String, Json)>, k: int) -> Map<Seq<char>, JsonV>
    decreases k,
{
    if k <= 0 {
        Map::empty()
    } else {
        payload_map(v, k - 1).insert(v[k - 1].0@, v[k - 1].1@)
    }
}

proof fn lemma_conversation_prefix(v: Seq<(String, Vec<Json>)>, e: (String, Vec<Json>), k: int)
    requires
        k <= v.len(),
    ensures
        conversation_map(v.push(e), k) == conversation_map(v, k),
    decreases k,
{
    if k > 0 {
        lemma_conversation_prefix(v, e, k - 1);
    }
}

proof fn lemma_payload_prefix(v: Seq<(String, Json)>, e: (String, Json), k: int)
    requires
        k <= v.len(),
    ensures
        payload_map(v.push(e), k) == payload_map(v, k),
    decreases k,
{
    if k > 0 {
        lemma_payload_prefix(v, e, k - 1);
    }
}

impl View for Store {
    type V = StoreV;

    open spec fn view(&self) -> StoreV {
        StoreV {
            conversations: conversation_map(
                self.conversations@,
                self.conversations@.len() as int,
            ),
            payloads: payload_map(self.payloads@, self.payloads@.len() as int),
        }
    }
}

/// A conversation with the reply appended.
pub open spec fn continued(body: JsonV, d: ReplyV) -> Seq<JsonV> {
    let prior = match items_in(body.field("messages"@)) {
        Some(v) => v,
        None => Seq::empty(),
    };
    prior.push(assistant_message(d))
}

/// A body that goes on where a stored conversation ended: the stored messages
/// come before its own.
pub open spec fn chained(s: StoreV, body: JsonV) -> JsonV {
    match text_in(body.field("previous_response_id"@)) {
        Some(prev) => if s.conversations.contains_key(prev) {
            match items_in(body.field("messages"@)) {
                Some(v) => body.with("messages"@, JsonV::Arr(s.conversations[prev] + v)),
                None => body,
            }
        } else {
            body
        },
        None => body,
    }
}

impl Store {
    pub fn new() -> (s: Store)
        ensures
            s@ == (StoreV { conversations: Map::empty(), payloads: Map::empty() }),
    {
        Store { conversations: Vec::new(), payloads: Vec::new() }
    }

    /// Stores a response.
    pub fn store_response(&mut self, id: &str, payload: Json)
        ensures
            final(self)@ == (StoreV {
                payloads: old(self)@.payloads.insert(id@, payload@),
                ..old(self)@
            }),
    {
        let e = (id.to_owned(), payload);
        proof {
            lemma_payload_prefix(self.payloads@, e, self.payloads@.len() as int);
        }
        self.payloads.push(e);
    }

    /// A stored response.
    pub fn stored_response(&self, id: &str) -> (r: Option<Json>)
        ensures
            match r {
                Some(j) => self@.payloads.contains_key(id@) && self@.payloads[id@] == j@,
                None => !self@.payloads.contains_key(id@),
            },
    {
        let mut found: Option<usize> = None;
        let mut i: usize = 0;
        while i < self.payloads.len()
            invariant
                i <= self.payloads.len(),
                match found {
                    Some(p) => p < self.payloads@.len() && payload_map(
                        self.payloads@,
                        i as int,
                    ).contains_key(id@) && payload_map(self.payloads@, i as int)[id@]
                        == self.payloads@[p as int].1@,
                    None => !payload_map(self.payloads@, i as int).contains_key(id@),
                },
            decreases self.payloads.len() - i,
        {
            if same_text(&self.payloads[i].0, id) {
                found = Some(i);
            }
            i += 1;
        }
        match found {
            Some(p) => Some(self.payloads[p].1.duplicate()),
            None => None,
        }
    }

    /// A stored conversation.
    fn conversation(&self, id: &str) -> (r: Option<Vec<Json>>)
        ensures
            match r {
                Some(v) => self@.conversations.contains_key(id@) && self@.conversations[id@]
                    == list_views(v@),
                None => !self@.conversations.contains_key(id@),
            },
    {
        let mut found: Option<usize> = None;
        let mut i: usize = 0;
        while i < self.conversations.len()
            invariant
                i <= self.conversations.len(),
                match found {
                    Some(p) => p < self.conversations@.len() && conversation_map(
                        self.conversations@,
                        i as int,
                    ).contains_key(id@) && conversation_map(self.conversations@, i as int)[id@]
                        == list_views(self.conversations@[p as int].1@),
                    None => !conversation_map(self.conversations@, i as int).contains_key(id@),
                },
            decreases self.conversations.len() - i,
        {
            if same_text(&self.conversations[i].0, id) {
                found = Some(i);
            }
            i += 1;
        }
        match found {
            Some(p) => Some(copy_list(&self.conversations[p].1)),
            None => None,
        }
    }

    /// Stores a response and the conversation that it ends.
    pub fn store_conversation(&mut self, id: &str, body: &Json, d: &ReplyData, payload: &Json)
        ensures
            final(self)@ == (StoreV {
                conversations: old(self)@.conversations.insert(id@, continued(body@, d@)),
                payloads: old(self)@.payloads.insert(id@, payload@),
            }),
    {
        let mut conv = match body.array_of("messages") {
            Some(v) => copy_list(v),
            None => no_items(),
        };
        push_item(&mut conv, assistant_entry(d));
        let e = (id.to_owned(), conv);
        proof {
            lemma_conversation_prefix(
                self.conversations@,
                e,
                self.conversations@.len() as int,
            );
        }
        self.conversations.push(e);
        self.store_response(id, payload.duplicate());
    }

    /// Puts a stored conversation before the messages of a body that refers to
    /// it.
    pub fn apply_previous_response(&self, body: &mut Json)
        ensures
            final(body)@ == chained(self@, old(body)@),
    {
        let prior = match body.str_of("previous_response_id") {
            Some(prev) => self.conversation(prev),
            None => None,
        };
        let own = match body.array_of("messages") {
            Some(v) => Some(copy_list(v)),
            None => None,
        };
        match prior {
            Some(p) => match own {
                Some(v) => {
                    let mut p = p;
                    let mut v = v;
                    let ghost a = list_views(p@);
                    let ghost b = list_views(v@);
                    p.append(&mut v);
                    assert(list_views(p@) =~= a + b);
                    assert(body@ is Obj);
                    body.set("messages", array(p));
                },
                None => {},
            },
            None => {},
        }
    }
}

/// A request that refers to a stored response goes on with its conversation:
/// first what was asked, then what was replied, then what is asked now.
pub proof fn chaining_resumes_the_conversation(
    s: StoreV,
    id: Seq<char>,
    first: JsonV,
    d: ReplyV,
    payload: JsonV,
    second: JsonV,
    asked: Seq<JsonV>,
    more: Seq<JsonV>,
)
    requires
        items_in(first.field("messages"@)) == Some(asked),
        text_in(second.field("previous_response_id"@)) == Some(id),
        items_in(second.field("messages"@)) == Some(more),
    ensures
        ({
            let stored = StoreV {
                conversations: s.conversations.insert(id, continued(first, d)),
                payloads: s.payloads.insert(id, payload),
            };
            chained(stored, second).field("messages"@) == Some(
                JsonV::Arr(asked.push(assistant_message(d)) + more),
            )
        }),
{
    if let JsonV::Obj(m) = second {
        let v = JsonV::Arr(asked.push(assistant_message(d)) + more);
        crate::json::set_member_reads_back(m, "messages"@, v, "messages"@);
    }
}

/// A request that refers to nothing, or to what is not stored, is left as it is.
pub proof fn unknown_response_chains_nothing(s: StoreV, body: JsonV)
    requires
        text_in(body.field("previous_response_id"@)) matches Some(p)
            ==> !s.conversations.contains_key(p),
    ensures
        chained(s, body) == body,
{
}

} // verus!
