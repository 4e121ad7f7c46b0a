//! Numbered names: replies, responses, messages and tool calls.

use vstd::prelude::*;

use crate::text::{cat2, cat3, cat5, dec, decimal, hex, hexadecimal};

verus! {

/// The requests that one server is said to take.
pub const REQUEST_LIMIT: u64 = 100_000;

/// The counters of a server.
#[derive(Clone, Copy, PartialEq, Eq, Structural, Debug)]
pub struct Counters {
    /// Replies, responses and messages so far.
    pub seq: u64,
    /// Tool calls so far.
    pub calls: u64,
    /// Answered requests so far.
    pub served: u64,
}

/// A name of a time and a number, after a prefix.
pub open spec fn id_text(prefix: Seq<char>, now: u64, n: u64) -> Seq<char> {
    prefix + hex(now as nat) + hex(n as nat)
}

/// A name of a time, after a prefix.
pub open spec fn stamp_text(prefix: Seq<char>, now: u64) -> Seq<char> {
    prefix + hex(now as nat)
}

fn id_of(prefix: &str, now: u64, n: u64) -> (s: String)
    ensures
        s@ == id_text(prefix@, now, n),
{
    let a = hexadecimal(now);
    let b = hexadecimal(n);
    cat3(prefix, &a, &b)
}

/// A name of a time, after a prefix.
pub fn stamp(prefix: &str, now: u64) -> (s: String)
    ensures
        s@ == stamp_text(prefix@, now),
{
    let a = hexadecimal(now);
    cat2(prefix, &a)
}

/// The headers that tell how many requests are left after `served` ones.
pub open spec fn rate_text(served: u64) -> Seq<char> {
    let left = if served + 1 >= REQUEST_LIMIT {
        0
    } else {
        REQUEST_LIMIT - (served + 1)
    };
    "X-RateLimit-Limit-Requests: "@ + dec(REQUEST_LIMIT as nat)
        + "\r\nX-RateLimit-Remaining-Requests: "@ + dec(left as nat)
        + "\r\nX-RateLimit-Reset-Requests: 1s"@
}

impl Counters {
    /// The counters of a server that has not served yet.
    pub fn new() -> (c: Counters)
        ensures
            c == (Counters { seq: 0, calls: 0, served: 0 }),
    {
        Counters { seq: 0, calls: 0, served: 0 }
    }

    /// The name of a completion.
    pub fn completion_id(&mut self, now: u64) -> (s: String)
        ensures
            s@ == id_text("chatcmpl-lisa-"@, now, old(self).seq),
            *final(self) == (Counters { seq: old(self).seq.wrapping_add(1), ..*old(self) }),
    {
        let n = self.seq;
        self.seq = n.wrapping_add(1);
        id_of("chatcmpl-lisa-", now, n)
    }

    /// The name of a response.
    pub fn response_id(&mut self, now: u64) -> (s: String)
        ensures
            s@ == id_text("resp_"@, now, old(self).seq),
            *final(self) == (Counters { seq: old(self).seq.wrapping_add(1), ..*old(self) }),
    {
        let n = self.seq;
        self.seq = n.wrapping_add(1);
        id_of("resp_", now, n)
    }

    /// The name of a message.
    pub fn message_id(&mut self, now: u64) -> (s: String)
        ensures
            s@ == id_text("msg_"@, now, old(self).seq),
            *final(self) == (Counters { seq: old(self).seq.wrapping_add(1), ..*old(self) }),
    {
        let n = self.seq;
        self.seq = n.wrapping_add(1);
        id_of("msg_", now, n)
    }

    /// The name of a tool call.
    pub fn tool_call_id(&mut self, now: u64) -> (s: String)
        ensures
            s@ == id_text("call_"@, now, old(self).calls),
            *final(self) == (Counters { calls: old(self).calls.wrapping_add(1), ..*old(self) }),
    {
        let n = self.calls;
        self.calls = n.wrapping_add(1);
        id_of("call_", now, n)
    }

    /// The headers that tell how many requests are left.
    pub fn rate_headers(&mut self) -> (s: String)
        requires
            old(self).served < u64::MAX,
        ensures
            s@ == rate_text(old(self).served),
            *final(self) == (Counters { served: (old(self).served + 1) as u64, ..*old(self) }),
    {
        let n = self.served;
        self.served = n + 1;
        let left: u64 = if n + 1 >= REQUEST_LIMIT {
            0
        } else {
            REQUEST_LIMIT - (n + 1)
        };
        let limit = decimal(REQUEST_LIMIT);
        let rest = decimal(left);
        cat5(
            "X-RateLimit-Limit-Requests: ",
            &limit,
            "\r\nX-RateLimit-Remaining-Requests: ",
            &rest,
            "\r\nX-RateLimit-Reset-Requests: 1s",
        )
    }
}

} // verus!
