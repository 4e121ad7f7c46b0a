//! What a reply shows: reasoning apart from the answer, stop sequences, and
//! the text to stream.

use vstd::prelude::*;

use crate::chars::{
    begins, is_space, lemma_place_from, piece, place_of, search, starts_with, trim, trim_end,
    trim_left, trim_right, trim_start, trimmed,
};
use crate::text::{chars_of, occurs, stands_at, string_of, views};

verus! {

/// What opens a block of reasoning.
pub open spec fn think_open() -> Seq<char> {
    "<think>"@
}

/// What closes a block of reasoning.
pub open spec fn think_close() -> Seq<char> {
    "</think>"@
}

// ---- reasoning and answer ----

/// Reasoning and answer. A closing mark ends the reasoning; without one, an
/// opening mark ends the answer.
pub open spec fn reasoned(t: Seq<char>) -> (Option<Seq<char>>, Seq<char>) {
    match place_of(t, think_close()) {
        Some(i) => (Some(trimmed(t.take(i))), trim_start(t.skip(i + think_close().len()))),
        None => match place_of(t, think_open()) {
            Some(i) => (Some(trimmed(t.skip(i + think_open().len()))), trim_end(t.take(i))),
            None => (None, t),
        },
    }
}

/// The answer so far: nothing of an open block of reasoning, what follows once
/// it is closed, and the whole text where there is none.
pub open spec fn answer_so_far(t: Seq<char>) -> Seq<char> {
    match place_of(t, think_close()) {
        Some(i) => trim_start(t.skip(i + think_close().len())),
        None => match place_of(t, think_open()) {
            Some(i) => trim_end(t.take(i)),
            None => t,
        },
    }
}

pub open spec fn opt_string(o: Option<String>) -> Option<Seq<char>> {
    match o {
        Some(s) => Some(s@),
        None => None,
    }
}

/// Splits generated text into reasoning and answer.
pub fn split_reasoning(text: &str) -> (r: (Option<String>, String))
    ensures
        (opt_string(r.0), r.1@) == reasoned(text@),
{
    let t = chars_of(text);
    let open = chars_of("<think>");
    let close = chars_of("</think>");
    let n = t.len();
    match search(&t, &close) {
        Some(i) => {
            let a = piece(&t, 0, i);
            let b = piece(&t, i + close.len(), n);
            assert(a@ =~= t@.take(i as int));
            assert(b@ =~= t@.skip(i + close@.len()));
            let a = trim(&a);
            let b = trim_left(&b);
            (Some(string_of(&a)), string_of(&b))
        },
        None => match search(&t, &open) {
            Some(i) => {
                let a = piece(&t, i + open.len(), n);
                let b = piece(&t, 0, i);
                assert(a@ =~= t@.skip(i + open@.len()));
                assert(b@ =~= t@.take(i as int));
                let a = trim(&a);
                let b = trim_right(&b);
                (Some(string_of(&a)), string_of(&b))
            },
            None => (None, text.to_owned()),
        },
    }
}

/// The visible answer inside the text generated so far.
pub fn streaming_answer(text: &str) -> (r: String)
    ensures
        r@ == answer_so_far(text@),
{
    let t = chars_of(text);
    let open = chars_of("<think>");
    let close = chars_of("</think>");
    let n = t.len();
    match search(&t, &close) {
        Some(i) => {
            let b = piece(&t, i + close.len(), n);
            assert(b@ =~= t@.skip(i + close@.len()));
            let b = trim_left(&b);
            string_of(&b)
        },
        None => match search(&t, &open) {
            Some(i) => {
                let b = piece(&t, 0, i);
                assert(b@ =~= t@.take(i as int));
                let b = trim_right(&b);
                string_of(&b)
            },
            None => text.to_owned(),
        },
    }
}

/// The streamed answer is the answer of the reply, whatever it has come to.
pub proof fn streamed_answer_is_the_answer(t: Seq<char>)
    ensures
        answer_so_far(t) == reasoned(t).1,
{
}

proof fn lemma_trim_start_grows(s: Seq<char>, more: Seq<char>)
    ensures
        trim_start(s).is_prefix_of(trim_start(s + more)),
    decreases s.len(),
{
    if s.len() > 0 {
        assert((s + more)[0] == s[0]);
        if is_space(s[0]) {
            assert((s + more).skip(1) =~= s.skip(1) + more);
            lemma_trim_start_grows(s.skip(1), more);
        }
    }
}

/// Once the reasoning is closed, more text only adds to the answer.
pub proof fn closed_answers_grow(t: Seq<char>, more: Seq<char>)
    requires
        place_of(t, think_close()) is Some,
    ensures
        answer_so_far(t).is_prefix_of(answer_so_far(t + more)),
{
    let pat = think_close();
    let u = t + more;
    lemma_place_from(t, pat, 0);
    lemma_place_from(u, pat, 0);
    let i = place_of(t, pat)->0;
    assert(u.subrange(i, i + pat.len()) =~= t.subrange(i, i + pat.len()));
    assert(stands_at(u, pat, i));
    let j = place_of(u, pat)->0;
    if j < i {
        assert(u.subrange(j, j + pat.len()) =~= t.subrange(j, j + pat.len()));
        assert(stands_at(t, pat, j));
    }
    assert(u.skip(i + pat.len()) =~= t.skip(i + pat.len()) + more);
    lemma_trim_start_grows(t.skip(i + pat.len()), more);
}

// ---- deltas ----

/// How far two texts agree from the start.
pub open spec fn agreement(a: Seq<char>, b: Seq<char>) -> nat
    decreases a.len(),
{
    if a.len() == 0 || b.len() == 0 || a[0] != b[0] {
        0
    } else {
        1 + agreement(a.skip(1), b.skip(1))
    }
}

/// What to append to a partly streamed text so that it grows to `cur`: what
/// follows the part that both share, and none when nothing does.
pub open spec fn delta(prev: Seq<char>, cur: Seq<char>) -> Option<Seq<char>> {
    if agreement(prev, cur) == cur.len() {
        None
    } else {
        Some(cur.skip(agreement(prev, cur) as int))
    }
}

proof fn lemma_agreement(a: Seq<char>, b: Seq<char>)
    ensures
        agreement(a, b) <= a.len(),
        agreement(a, b) <= b.len(),
        a.take(agreement(a, b) as int) == b.take(agreement(a, b) as int),
        agreement(a, b) < a.len() && agreement(a, b) < b.len() ==> a[agreement(a, b) as int]
            != b[agreement(a, b) as int],
    decreases a.len(),
{
    if !(a.len() == 0 || b.len() == 0 || a[0] != b[0]) {
        let x = a.skip(1);
        let y = b.skip(1);
        lemma_agreement(x, y);
        let n = agreement(x, y) as int;
        assert forall|i: int| 0 <= i < n + 1 implies a[i] == b[i] by {
            if i > 0 {
                assert(x.take(n)[i - 1] == y.take(n)[i - 1]);
            }
        }
        assert(a.take(n + 1) =~= b.take(n + 1));
    } else {
        assert(a.take(0) =~= b.take(0));
    }
}

/// What to append so that a partly streamed reply grows to `cur`. A character
/// that came apart over two tokens can be rewritten by the second, so it is the
/// part after the longest common beginning.
pub fn stream_delta(prev: &str, cur: &str) -> (r: Option<String>)
    ensures
        opt_string(r) == delta(prev@, cur@),
{
    let a = chars_of(prev);
    let b = chars_of(cur);
    let mut i: usize = 0;
    assert(a@.skip(0) =~= a@);
    assert(b@.skip(0) =~= b@);
    while i < a.len() && i < b.len() && a[i] == b[i]
        invariant
            i <= a.len(),
            i <= b.len(),
            agreement(a@, b@) == i + agreement(a@.skip(i as int), b@.skip(i as int)),
        decreases a.len() - i,
    {
        assert(a@.skip(i as int).skip(1) =~= a@.skip(i + 1));
        assert(b@.skip(i as int).skip(1) =~= b@.skip(i + 1));
        assert(a@.skip(i as int)[0] == a@[i as int]);
        assert(b@.skip(i as int)[0] == b@[i as int]);
        i += 1;
    }
    assert(i < a@.len() ==> a@.skip(i as int)[0] == a@[i as int]);
    assert(i < b@.len() ==> b@.skip(i as int)[0] == b@[i as int]);
    if i == b.len() {
        return None;
    }
    let r = piece(&b, i, b.len());
    assert(r@ =~= b@.skip(i as int));
    Some(string_of(&r))
}

/// The delta completes what both texts share: appended to it, it gives `cur`.
/// There is none exactly when they share all of `cur`.
pub proof fn delta_completes(prev: Seq<char>, cur: Seq<char>)
    ensures
        match delta(prev, cur) {
            Some(d) => d.len() > 0 && prev.take(agreement(prev, cur) as int) + d == cur,
            None => cur.is_prefix_of(prev),
        },
{
    lemma_agreement(prev, cur);
    let n = agreement(prev, cur) as int;
    assert(prev.take(n) + cur.skip(n) =~= cur);
    if n == cur.len() {
        assert(cur.take(n) =~= cur);
    }
}

/// A text that only grows is the streamed text with the delta appended.
pub proof fn growing_text_is_appended(prev: Seq<char>, more: Seq<char>)
    ensures
        delta(prev, prev + more) == if more.len() == 0 {
            None
        } else {
            Some(more)
        },
{
    let cur = prev + more;
    lemma_agreement(prev, cur);
    let n = agreement(prev, cur) as int;
    if n < prev.len() {
        assert(prev[n] == cur[n]);
    }
    assert(cur.skip(n) =~= more);
}

// ---- stop sequences ----

/// The earliest place of any of the first `k` stop sequences; empty ones stand
/// nowhere.
pub open spec fn stop_place(t: Seq<char>, stops: Seq<Seq<char>>, k: int) -> Option<int>
    decreases k,
{
    if k <= 0 {
        None
    } else {
        let before = stop_place(t, stops, k - 1);
        if stops[k - 1].len() == 0 {
            before
        } else {
            match (before, place_of(t, stops[k - 1])) {
                (Some(a), Some(b)) => Some(if a <= b {
                    a
                } else {
                    b
                }),
                (Some(a), None) => Some(a),
                (None, b) => b,
            }
        }
    }
}

/// A text up to its earliest stop sequence.
pub open spec fn before_stops(t: Seq<char>, stops: Seq<Seq<char>>) -> Seq<char> {
    match stop_place(t, stops, stops.len() as int) {
        Some(i) => t.take(i),
        None => t,
    }
}

proof fn lemma_stop_place(t: Seq<char>, stops: Seq<Seq<char>>, k: int)
    requires
        0 <= k <= stops.len(),
    ensures
        stop_place(t, stops, k) matches Some(i) ==> 0 <= i <= t.len(),
        forall|j: int, p: int|
            0 <= j < k && (#[trigger] stops[j]).len() > 0 && #[trigger] stands_at(t, stops[j], p)
                ==> (stop_place(t, stops, k) matches Some(i) && i <= p),
    decreases k,
{
    if k > 0 {
        lemma_stop_place(t, stops, k - 1);
        lemma_place_from(t, stops[k - 1], 0);
        assert forall|j: int, p: int|
            0 <= j < k && (#[trigger] stops[j]).len() > 0 && #[trigger] stands_at(
                t,
                stops[j],
                p,
            ) implies (stop_place(t, stops, k) matches Some(i) && i <= p) by {
            if j == k - 1 {
                match place_of(t, stops[k - 1]) {
                    Some(b) => {
                        if p < b {
                            assert(!stands_at(t, stops[k - 1], p));
                        }
                    },
                    None => {
                        assert(!stands_at(t, stops[k - 1], p));
                    },
                }
            }
        }
    }
}

/// No stop sequence is left in what stands before the earliest one.
pub proof fn no_stop_is_left(t: Seq<char>, stops: Seq<Seq<char>>, j: int)
    requires
        0 <= j < stops.len(),
        stops[j].len() > 0,
    ensures
        !occurs(before_stops(t, stops), stops[j]),
{
    let r = before_stops(t, stops);
    lemma_stop_place(t, stops, stops.len() as int);
    assert forall|p: int| !stands_at(r, stops[j], p) by {
        if stands_at(r, stops[j], p) {
            assert(t.subrange(p, p + stops[j].len()) =~= r.subrange(p, p + stops[j].len()));
            assert(stands_at(t, stops[j], p));
        }
    }
}

/// A text up to its earliest stop sequence.
pub fn strip_stops(text: &str, stops: &Vec<String>) -> (r: String)
    ensures
        r@ == before_stops(text@, views(stops@)),
{
    let t = chars_of(text);
    let ghost v = views(stops@);
    let mut cut: Option<usize> = None;
    let mut k: usize = 0;
    while k < stops.len()
        invariant
            k <= stops.len(),
            v == views(stops@),
            t@ == text@,
            match cut {
                Some(c) => stop_place(t@, v, k as int) == Some(c as int) && c <= t@.len(),
                None => stop_place(t@, v, k as int) is None,
            },
        decreases stops.len() - k,
    {
        assert(v[k as int] == stops@[k as int]@);
        let p = chars_of(&stops[k]);
        if p.len() > 0 {
            match search(&t, &p) {
                Some(i) => match cut {
                    Some(c) => {
                        if i < c {
                            cut = Some(i);
                        }
                    },
                    None => {
                        cut = Some(i);
                    },
                },
                None => {},
            }
        }
        k += 1;
    }
    match cut {
        Some(c) => {
            let r = piece(&t, 0, c);
            assert(r@ =~= t@.take(c as int));
            string_of(&r)
        },
        None => text.to_owned(),
    }
}

/// Whether a stop sequence stands in a text.
pub open spec fn stopped_in(t: Seq<char>, stops: Seq<Seq<char>>) -> bool {
    exists|j: int|
        0 <= j < stops.len() && (#[trigger] stops[j]).len() > 0 && occurs(t, stops[j])
}

/// The first stop sequence of the first `k` that stands in a text.
pub open spec fn first_stop(t: Seq<char>, stops: Seq<Seq<char>>, from: int) -> Option<Seq<char>>
    decreases stops.len() - from,
{
    if from < 0 || from >= stops.len() {
        None
    } else if stops[from].len() > 0 && occurs(t, stops[from]) {
        Some(stops[from])
    } else {
        first_stop(t, stops, from + 1)
    }
}

proof fn lemma_first_stop(t: Seq<char>, stops: Seq<Seq<char>>, from: int)
    requires
        0 <= from,
        forall|j: int|
            0 <= j < from && j < stops.len() ==> !((#[trigger] stops[j]).len() > 0 && occurs(
                t,
                stops[j],
            )),
    ensures
        first_stop(t, stops, from) is Some <==> stopped_in(t, stops),
    decreases stops.len() - from,
{
    if from < stops.len() {
        if stops[from].len() > 0 && occurs(t, stops[from]) {
        } else {
            lemma_first_stop(t, stops, from + 1);
        }
    }
}

/// The first of the stop sequences that stands in a text.
pub fn stop_in(text: &str, stops: &Vec<String>) -> (r: Option<String>)
    ensures
        opt_string(r) == first_stop(text@, views(stops@), 0),
        r is Some <==> stopped_in(text@, views(stops@)),
{
    let t = chars_of(text);
    let ghost v = views(stops@);
    proof {
        lemma_first_stop(t@, v, 0);
    }
    let mut k: usize = 0;
    while k < stops.len()
        invariant
            k <= stops.len(),
            v == views(stops@),
            t@ == text@,
            first_stop(t@, v, 0) == first_stop(t@, v, k as int),
            first_stop(t@, v, 0) is Some <==> stopped_in(text@, v),
        decreases stops.len() - k,
    {
        assert(v[k as int] == stops@[k as int]@);
        let p = chars_of(&stops[k]);
        if p.len() > 0 && crate::text::contains(&t, &p) {
            return Some(stops[k].clone());
        }
        k += 1;
    }
    None
}

/// A text without the block of reasoning that it starts with.
pub open spec fn after_thinking(t: Seq<char>) -> Seq<char> {
    let u = trim_start(t);
    if begins(u, think_open()) {
        match place_of(u, think_close()) {
            Some(i) => trim_start(u.skip(i + think_close().len())),
            None => t,
        }
    } else {
        t
    }
}

/// Drops the block of reasoning that a text starts with; marks further inside
/// are data.
pub fn strip_think_prefix(text: &str) -> (r: String)
    ensures
        r@ == after_thinking(text@),
{
    let t = chars_of(text);
    let u = trim_left(&t);
    let open = chars_of("<think>");
    let close = chars_of("</think>");
    let n = u.len();
    if starts_with(&u, &open) {
        match search(&u, &close) {
            Some(i) => {
                let b = piece(&u, i + close.len(), n);
                assert(b@ =~= u@.skip(i + close@.len()));
                let b = trim_left(&b);
                return string_of(&b);
            },
            None => {},
        }
    }
    text.to_owned()
}

/// Where a tool call opens.
pub open spec fn call_place(t: Seq<char>) -> Option<int> {
    place_of(t, "<tool_call>"@)
}

/// Where a text opens a tool call; what follows is not for the user.
pub fn tool_call_start(text: &str) -> (r: Option<usize>)
    ensures
        match r {
            Some(i) => call_place(text@) == Some(i as int) && i <= text@.len(),
            None => call_place(text@) is None,
        },
{
    let t = chars_of(text);
    let open = chars_of("<tool_call>");
    search(&t, &open)
}

/// What of the answer so far is shown while streaming: nothing from a tool call
/// on.
pub open spec fn shown_so_far(t: Seq<char>) -> Seq<char> {
    let a = answer_so_far(t);
    match call_place(a) {
        Some(i) => a.take(i),
        None => a,
    }
}

/// What is shown of a reply while it streams is its answer up to the first tool
/// call.
pub proof fn shown_text_is_the_answer(t: Seq<char>)
    ensures
        shown_so_far(t) == match call_place(reasoned(t).1) {
            Some(i) => reasoned(t).1.take(i),
            None => reasoned(t).1,
        },
{
    streamed_answer_is_the_answer(t);
}

/// What of the answer so far is shown while streaming.
pub fn visible(text: &str) -> (r: String)
    ensures
        r@ == shown_so_far(text@),
{
    let a = streaming_answer(text);
    match tool_call_start(&a) {
        Some(i) => {
            let c = chars_of(&a);
            let p = piece(&c, 0, i);
            assert(p@ =~= a@.take(i as int));
            string_of(&p)
        },
        None => a,
    }
}

} // verus!
