//! HTTP as far as the server speaks it: request heads, response heads, chunks
//! and routes.

use vstd::prelude::*;

use vstd::utf8::encode_utf8;

use crate::chars::{begins, is_space, piece, starts_with, trim, trim_left, trim_start, trimmed};
use crate::error::Error;
use crate::text::{cat2, cat3, cat5, chars_of, dec, decimal_usize, hex, hexadecimal, same_text, string_of};
use crate::tools::{digits_from, digits_value};

verus! {

/// The largest body that is read.
pub const MAX_BODY: usize = 8_388_608;

// ---- requests ----

/// How many characters come before the next white space.
pub open spec fn word_len(s: Seq<char>) -> nat
    decreases s.len(),
{
    if s.len() == 0 || is_space(s[0]) {
        0
    } else {
        1 + word_len(s.skip(1))
    }
}

/// The first word of a text, and what follows it.
pub open spec fn first_word(s: Seq<char>) -> (Seq<char>, Seq<char>) {
    let t = trim_start(s);
    (t.take(word_len(t) as int), t.skip(word_len(t) as int))
}

/// Method and path: the first two words of a request line.
pub open spec fn request_words(line: Seq<char>) -> (Seq<char>, Seq<char>) {
    let (method, rest) = first_word(line);
    (method, first_word(rest).0)
}

proof fn lemma_word_len(s: Seq<char>)
    ensures
        word_len(s) <= s.len(),
    decreases s.len(),
{
    if s.len() > 0 && !is_space(s[0]) {
        lemma_word_len(s.skip(1));
    }
}

fn take_word(s: &[char]) -> (r: (Vec<char>, Vec<char>))
    ensures
        (r.0@, r.1@) == first_word(s@),
{
    let t = trim_left(s);
    let mut i: usize = 0;
    assert(t@.skip(0) =~= t@);
    while i < t.len() && !t[i].is_whitespace()
        invariant
            i <= t@.len(),
            word_len(t@) == i + word_len(t@.skip(i as int)),
        decreases t.len() - i,
    {
        assert(t@.skip(i as int)[0] == t@[i as int]);
        assert(t@.skip(i as int).skip(1) =~= t@.skip(i + 1));
        i += 1;
    }
    assert(i < t@.len() ==> t@.skip(i as int)[0] == t@[i as int]);
    let a = piece(&t, 0, i);
    let b = piece(&t, i, t.len());
    assert(a@ =~= t@.take(i as int));
    assert(b@ =~= t@.skip(i as int));
    (a, b)
}

/// The lower-case form of an ASCII letter; other characters as they are.
pub open spec fn lower(c: char) -> char {
    if 'A' <= c && c <= 'Z' {
        (c as u8 + 32) as u8 as char
    } else {
        c
    }
}

/// A text in lower case, as far as it is ASCII.
pub open spec fn lowered(s: Seq<char>) -> Seq<char> {
    s.map_values(|c: char| lower(c))
}

/// A text in lower case, as far as it is ASCII.
pub fn to_lower(s: &[char]) -> (r: Vec<char>)
    ensures
        r@ == lowered(s@),
{
    let mut r: Vec<char> = Vec::new();
    let mut i: usize = 0;
    while i < s.len()
        invariant
            i <= s@.len(),
            r@ == lowered(s@).take(i as int),
        decreases s.len() - i,
    {
        let c = s[i];
        if 'A' <= c && c <= 'Z' {
            let b: u8 = c as u8;
            r.push((b + 32) as char);
        } else {
            r.push(c);
        }
        i += 1;
        assert(r@ =~= lowered(s@).take(i as int));
    }
    assert(r@ =~= lowered(s@));
    r
}

/// The size that a text stands for: an optional plus sign and digits.
pub open spec fn whole_size(s: Seq<char>) -> Option<usize> {
    let d = if s.len() > 0 && s[0] == '+' {
        s.skip(1)
    } else {
        s
    };
    match digits_value(d) {
        Some(v) => if d.len() > 0 && v <= usize::MAX {
            Some(v as usize)
        } else {
            None
        },
        None => None,
    }
}

/// The size that a text stands for.
pub fn parse_size(s: &[char]) -> (r: Option<usize>)
    ensures
        r == whole_size(s@),
{
    let from: usize = if s.len() > 0 && s[0] == '+' {
        1
    } else {
        0
    };
    assert(s@.skip(0) =~= s@);
    if from == s.len() {
        return None;
    }
    match digits_from(s, from, usize::MAX as u64) {
        Some(v) => Some(v as usize),
        None => None,
    }
}

/// What a header line says of the body's length; a length that is no number is
/// none at all.
pub open spec fn length_in(header: Seq<char>) -> Option<usize> {
    let h = lowered(header);
    let key = "content-length:"@;
    if begins(h, key) {
        Some(
            match whole_size(trimmed(h.skip(key.len() as int))) {
                Some(n) => n,
                None => 0,
            },
        )
    } else {
        None
    }
}

/// The head of a request as far as it has been read.
pub struct RequestHead {
    pub method: String,
    pub path: String,
    pub content_length: usize,
}

impl RequestHead {
    /// The head that starts with a request line.
    pub fn read_request(line: &str) -> (h: RequestHead)
        ensures
            (h.method@, h.path@) == request_words(line@),
            h.content_length == 0,
    {
        let c = chars_of(line);
        let (method, rest) = take_word(&c);
        let (path, _) = take_word(&rest);
        RequestHead { method: string_of(&method), path: string_of(&path), content_length: 0 }
    }

    /// Takes a header line; true when it is the empty line that ends the head.
    pub fn header(&mut self, line: &str) -> (over: bool)
        ensures
            over == (line@ == "\r\n"@ || line@ == "\n"@),
            final(self).method@ == old(self).method@,
            final(self).path@ == old(self).path@,
            final(self).content_length == (if over {
                old(self).content_length
            } else {
                match length_in(line@) {
                    Some(n) => n,
                    None => old(self).content_length,
                }
            }),
    {
        if same_text(line, "\r\n") || same_text(line, "\n") {
            return true;
        }
        let c = chars_of(line);
        let h = to_lower(&c);
        let key = chars_of("content-length:");
        let n = h.len();
        if starts_with(&h, &key) {
            let v = piece(&h, key.len(), n);
            assert(v@ =~= h@.skip(key@.len() as int));
            let v = trim(&v);
            self.content_length = match parse_size(&v) {
                Some(n) => n,
                None => 0,
            };
        }
        false
    }

    /// How many bytes of body are to be read.
    pub fn body_length(&self) -> (r: Result<usize, Error>)
        ensures
            match r {
                Ok(n) => n == self.content_length && n <= MAX_BODY,
                Err(e) => self.content_length > MAX_BODY && e.text() == "request body too large ("@
                    + dec(self.content_length as nat) + " bytes)"@,
            },
    {
        if self.content_length > MAX_BODY {
            let n = decimal_usize(self.content_length);
            return Err(Error::Msg(cat3("request body too large (", &n, " bytes)")));
        }
        Ok(self.content_length)
    }
}

// ---- responses ----

/// The head of a response with a body of so many bytes.
pub open spec fn head_text(
    status: Seq<char>,
    content_type: Seq<char>,
    length: usize,
    extra: Seq<char>,
) -> Seq<char> {
    "HTTP/1.1 "@ + status + "\r\nContent-Type: "@ + content_type + ("\r\nContent-Length: "@ + dec(
        length as nat,
    ) + "\r\nConnection: close\r\n"@) + (if extra.len() > 0 {
        extra + "\r\n"@
    } else {
        ""@
    }) + "\r\n"@
}

/// The bytes of a response: its head, then its body.
pub fn write_response(status: &str, content_type: &str, body: &str, extra: &str) -> (b: Vec<u8>)
    ensures
        b@ == encode_utf8(
            head_text(status@, content_type@, encode_utf8(body@).len() as usize, extra@),
        ) + encode_utf8(body@),
{
    let n = decimal_usize(body.len());
    let tail = cat3("\r\nContent-Length: ", &n, "\r\nConnection: close\r\n");
    let mut head = cat5("HTTP/1.1 ", status, "\r\nContent-Type: ", content_type, &tail);
    if !extra.is_empty() {
        let e = cat2(extra, "\r\n");
        head.append(&e);
    } else {
        head.append("");
    }
    head.append("\r\n");
    join_bytes(&head, body)
}

fn push_bytes(out: &mut Vec<u8>, s: &[u8])
    ensures
        final(out)@ == old(out)@ + s@,
{
    let ghost before = out@;
    let mut i: usize = 0;
    assert(out@ =~= before + s@.take(0));
    while i < s.len()
        invariant
            i <= s@.len(),
            out@ == before + s@.take(i as int),
        decreases s.len() - i,
    {
        out.push(s[i]);
        i += 1;
        assert(out@ =~= before + s@.take(i as int));
    }
    assert(s@.take(s@.len() as int) =~= s@);
}

fn join_bytes(a: &str, b: &str) -> (r: Vec<u8>)
    ensures
        r@ == encode_utf8(a@) + encode_utf8(b@),
{
    let mut r: Vec<u8> = Vec::new();
    push_bytes(&mut r, a.as_bytes());
    push_bytes(&mut r, b.as_bytes());
    assert(r@ =~= encode_utf8(a@) + encode_utf8(b@));
    r
}

/// A chunk: its length in hexadecimal, then its bytes; the empty chunk ends the
/// stream.
pub open spec fn chunk(data: Seq<u8>) -> Seq<u8> {
    if data.len() == 0 {
        encode_utf8("0\r\n\r\n"@)
    } else {
        encode_utf8(hex(data.len()) + "\r\n"@) + data + encode_utf8("\r\n"@)
    }
}

/// A chunk of a stream.
pub fn write_chunk(data: &str) -> (b: Vec<u8>)
    ensures
        b@ == chunk(encode_utf8(data@)),
{
    let d = data.as_bytes();
    let mut b: Vec<u8> = Vec::new();
    if d.len() == 0 {
        push_bytes(&mut b, "0\r\n\r\n".as_bytes());
        assert(b@ =~= encode_utf8("0\r\n\r\n"@));
    } else {
        let h = hexadecimal(d.len() as u64);
        let head = cat2(&h, "\r\n");
        push_bytes(&mut b, head.as_str().as_bytes());
        push_bytes(&mut b, d);
        push_bytes(&mut b, "\r\n".as_bytes());
        assert(b@ =~= chunk(d@));
    }
    b
}

/// The head of a stream.
pub open spec fn stream_head_text(rate: Seq<char>) -> Seq<char> {
    "HTTP/1.1 200 OK\r\nContent-Type: text/event-stream\r\nCache-Control: no-cache\r\nConnection: close\r\nTransfer-Encoding: chunked\r\n"@
        + rate + "\r\n\r\n"@
}

pub fn stream_head(rate: &str) -> (s: String)
    ensures
        s@ == stream_head_text(rate@),
{
    cat3(
        "HTTP/1.1 200 OK\r\nContent-Type: text/event-stream\r\nCache-Control: no-cache\r\nConnection: close\r\nTransfer-Encoding: chunked\r\n",
        rate,
        "\r\n\r\n",
    )
}

// ---- routes ----

/// Which surface a request came in on.
#[derive(Clone, Copy, PartialEq, Eq, Structural, Debug)]
pub enum Surface {
    Chat,
    Completions,
    Messages,
    Responses,
    CountTokens,
}

/// Where a request goes.
pub enum Route {
    Health,
    Models,
    Dispatch(Surface),
    /// A stored response.
    Stored(String),
    NotFound,
}

/// The view of a route.
pub ghost enum RouteV {
    Health,
    Models,
    Dispatch(Surface),
    Stored(Seq<char>),
    NotFound,
}

impl View for Route {
    type V = RouteV;

    open spec fn view(&self) -> RouteV {
        match self {
            Route::Health => RouteV::Health,
            Route::Models => RouteV::Models,
            Route::Dispatch(s) => RouteV::Dispatch(*s),
            Route::Stored(id) => RouteV::Stored(id@),
            Route::NotFound => RouteV::NotFound,
        }
    }
}

/// A text without the prefixes that it starts with.
pub open spec fn without_prefixes(s: Seq<char>, pat: Seq<char>) -> Seq<char>
    decreases s.len(),
{
    if pat.len() > 0 && begins(s, pat) {
        without_prefixes(s.skip(pat.len() as int), pat)
    } else {
        s
    }
}

/// Where a request of a method and a path goes.
pub open spec fn route_of(method: Seq<char>, path: Seq<char>) -> RouteV {
    let get = method == "GET"@;
    let post = method == "POST"@;
    if get && (path == "/health"@ || path == "/healthz"@) {
        RouteV::Health
    } else if get && begins(path, "/v1/models"@) {
        RouteV::Models
    } else if post && path == "/v1/completions"@ {
        RouteV::Dispatch(Surface::Completions)
    } else if post && path == "/v1/chat/completions"@ {
        RouteV::Dispatch(Surface::Chat)
    } else if post && path == "/v1/messages"@ {
        RouteV::Dispatch(Surface::Messages)
    } else if post && path == "/v1/messages/count_tokens"@ {
        RouteV::Dispatch(Surface::CountTokens)
    } else if post && path == "/v1/responses"@ {
        RouteV::Dispatch(Surface::Responses)
    } else if get && begins(path, "/v1/responses/"@) {
        RouteV::Stored(without_prefixes(path, "/v1/responses/"@))
    } else {
        RouteV::NotFound
    }
}

fn strip_prefixes(s: &[char], pat: &[char]) -> (r: Vec<char>)
    requires
        pat@.len() > 0,
    ensures
        r@ == without_prefixes(s@, pat@),
{
    let n = s.len();
    let mut i: usize = 0;
    let mut rest = piece(s, 0, n);
    assert(rest@ =~= s@);
    while starts_with(&rest, pat)
        invariant
            pat@.len() > 0,
            without_prefixes(s@, pat@) == without_prefixes(rest@, pat@),
        decreases rest@.len(),
    {
        let m = rest.len();
        let next = piece(&rest, pat.len(), m);
        assert(next@ =~= rest@.skip(pat@.len() as int));
        rest = next;
    }
    rest
}

/// Where a request of a method and a path goes.
pub fn route(method: &str, path: &str) -> (r: Route)
    ensures
        r@ == route_of(method@, path@),
{
    let get = same_text(method, "GET");
    let post = same_text(method, "POST");
    let p = chars_of(path);
    let models = chars_of("/v1/models");
    let stored = chars_of("/v1/responses/");
    proof {
        reveal_strlit("/v1/responses/");
    }
    if get && (same_text(path, "/health") || same_text(path, "/healthz")) {
        Route::Health
    } else if get && starts_with(&p, &models) {
        Route::Models
    } else if post && same_text(path, "/v1/completions") {
        Route::Dispatch(Surface::Completions)
    } else if post && same_text(path, "/v1/chat/completions") {
        Route::Dispatch(Surface::Chat)
    } else if post && same_text(path, "/v1/messages") {
        Route::Dispatch(Surface::Messages)
    } else if post && same_text(path, "/v1/messages/count_tokens") {
        Route::Dispatch(Surface::CountTokens)
    } else if post && same_text(path, "/v1/responses") {
        Route::Dispatch(Surface::Responses)
    } else if get && starts_with(&p, &stored) {
        let id = strip_prefixes(&p, &stored);
        Route::Stored(string_of(&id))
    } else {
        Route::NotFound
    }
}

/// Where a request to a decision server goes.
#[derive(Clone, Copy, PartialEq, Eq, Structural, Debug)]
pub enum DecisionRoute {
    Health,
    Models,
    Decide,
    NotFound,
}

/// Where a request to a decision server goes.
pub open spec fn decision_route_of(method: Seq<char>, path: Seq<char>) -> DecisionRoute {
    let get = method == "GET"@;
    if get && (path == "/health"@ || path == "/healthz"@) {
        DecisionRoute::Health
    } else if get && begins(path, "/v1/models"@) {
        DecisionRoute::Models
    } else if method == "POST"@ && path == "/v1/decisions"@ {
        DecisionRoute::Decide
    } else {
        DecisionRoute::NotFound
    }
}

pub fn decision_route(method: &str, path: &str) -> (r: DecisionRoute)
    ensures
        r == decision_route_of(method@, path@),
{
    let get = same_text(method, "GET");
    let p = chars_of(path);
    let models = chars_of("/v1/models");
    if get && (same_text(path, "/health") || same_text(path, "/healthz")) {
        DecisionRoute::Health
    } else if get && starts_with(&p, &models) {
        DecisionRoute::Models
    } else if same_text(method, "POST") && same_text(path, "/v1/decisions") {
        DecisionRoute::Decide
    } else {
        DecisionRoute::NotFound
    }
}

} // verus!
