//! Requests and their answers: what becomes of a request, and what is answered
//! when its reply is there.

use vstd::prelude::*;

use crate::chat::{messages_of, parse_messages, request_seed, seed_of};
use crate::codec::{from_bytes, parsed_bytes, rendered, to_text};
use crate::http::{head_text, write_response, Surface};
use crate::ids::{id_text, rate_text, Counters};
use crate::json::{
    flag_or, list_views, natural_in, no_items, push_item, text_in, value_or, Json, JsonV,
};
use crate::normalize::{
    completion_body, messages_body, normalize_completion_prompt, normalize_messages_body,
    normalize_responses_body, responses_body,
};
use crate::payload::{
    bare_error, bare_error_payload, choice, choice_of, completion_of, completion_payload,
    count_payload, counted, error_of, error_payload, label_payload, labelled, message_of_reply,
    messages_payload, model_id, model_list, models_payload, queued_payload, queued_response,
    response_of, responses_payload_with_id, single_payload, typed_error, typed_error_payload,
    ReplyData, ReplyV,
};
use crate::reasoning::opt_string;
use crate::store::{chained, continued, Store, StoreV};
use crate::stream::{Reply, StepV};
use crate::text::cat2;

use vstd::utf8::encode_utf8;

verus! {

broadcast use crate::value::json_view;

// ---- admission ----

/// What becomes of a request.
pub enum Admission {
    /// It is refused, with a message.
    Refused(String),
    /// It is JSON, but no member can be set in it.
    Unusable,
    /// It runs in the background.
    Background(Json),
    /// It wants several choices.
    Choices { body: Json, n: usize },
    /// It runs, and its reply is streamed or collected.
    Run { body: Json, stream: bool, include_usage: bool, session_id: Option<String> },
}

/// The view of what becomes of a request.
pub ghost enum AdmissionV {
    Refused(Seq<char>),
    Unusable,
    Background(JsonV),
    Choices { body: JsonV, n: usize },
    Run { body: JsonV, stream: bool, include_usage: bool, session_id: Option<Seq<char>> },
}

impl View for Admission {
    type V = AdmissionV;

    open spec fn view(&self) -> AdmissionV {
        match self {
            Admission::Refused(m) => AdmissionV::Refused(m@),
            Admission::Unusable => AdmissionV::Unusable,
            Admission::Background(b) => AdmissionV::Background(b@),
            Admission::Choices { body, n } => AdmissionV::Choices { body: body@, n: *n },
            Admission::Run { body, stream, include_usage, session_id } => AdmissionV::Run {
                body: body@,
                stream: *stream,
                include_usage: *include_usage,
                session_id: opt_string(*session_id),
            },
        }
    }
}

/// A body that can be brought into the shape of a chat.
pub open spec fn usable(surface: Surface, body: JsonV) -> bool {
    match surface {
        Surface::Chat => true,
        Surface::Completions => body.field("messages"@) is Some || body.settable(),
        _ => body.settable(),
    }
}

/// A body in the shape of a chat.
pub open spec fn normalized(surface: Surface, body: JsonV) -> JsonV {
    match surface {
        Surface::Chat => body,
        Surface::Completions => completion_body(body),
        Surface::Messages | Surface::CountTokens => messages_body(body),
        Surface::Responses => responses_body(body),
    }
}

/// A body in the shape of a chat, after the conversation that it goes on with.
pub open spec fn resumed(surface: Surface, body: JsonV, store: StoreV) -> JsonV {
    let b = normalized(surface, body);
    if surface == Surface::Responses {
        chained(store, b)
    } else {
        b
    }
}

/// How many choices a request wants.
pub open spec fn choices_of(body: JsonV) -> usize {
    match natural_in(body.field("n"@)) {
        Some(n) => if n > 1 {
            n as usize
        } else {
            1
        },
        None => 1,
    }
}

/// What becomes of a body in the shape of a chat.
pub open spec fn admission_of(surface: Surface, b: JsonV) -> AdmissionV {
    let stream = flag_or(b.field("stream"@), false);
    let n = choices_of(b);
    if surface == Surface::Messages && b.field("max_tokens"@) is None {
        AdmissionV::Refused("max_tokens is required"@)
    } else if surface != Surface::CountTokens && messages_of(b).len() == 0 {
        AdmissionV::Refused("request has no messages or prompt"@)
    } else if surface == Surface::Responses && flag_or(b.field("background"@), false) {
        AdmissionV::Background(b)
    } else if n > 1 && !stream && (surface == Surface::Chat || surface == Surface::Completions) {
        AdmissionV::Choices { body: b, n }
    } else {
        AdmissionV::Run {
            body: b,
            stream,
            include_usage: flag_or(b.within("stream_options"@, "include_usage"@), false),
            session_id: text_in(b.field("session_id"@)),
        }
    }
}

/// What becomes of a request body.
pub open spec fn admitted(surface: Surface, bytes: Seq<u8>, store: StoreV) -> AdmissionV {
    match parsed_bytes(bytes) {
        Err(e) => AdmissionV::Refused("invalid JSON body: "@ + e),
        Ok(body) => if usable(surface, body) {
            admission_of(surface, resumed(surface, body, store))
        } else {
            AdmissionV::Unusable
        },
    }
}

fn number_of_choices(b: &Json) -> (n: usize)
    ensures
        n == choices_of(b@),
{
    match b.u64_of("n") {
        Some(n) => {
            if n > 1 {
                n as usize
            } else {
                1
            }
        },
        None => 1,
    }
}

/// What becomes of a request body that has been read.
pub fn prepare(surface: Surface, body: Json, store: &Store) -> (r: Admission)
    requires
        usable(surface, body@),
    ensures
        r@ == admission_of(surface, resumed(surface, body@, store@)),
{
    let mut b = body;
    match surface {
        Surface::Chat => {},
        Surface::Completions => normalize_completion_prompt(&mut b),
        Surface::Messages => normalize_messages_body(&mut b),
        Surface::CountTokens => normalize_messages_body(&mut b),
        Surface::Responses => {
            normalize_responses_body(&mut b);
            store.apply_previous_response(&mut b);
        },
    }
    if surface == Surface::Messages && b.get("max_tokens").is_none() {
        return Admission::Refused("max_tokens is required".to_owned());
    }
    if surface != Surface::CountTokens {
        match parse_messages(&b) {
            Ok(_) => {},
            Err(_) => {
                return Admission::Refused("request has no messages or prompt".to_owned());
            },
        }
    }
    if surface == Surface::Responses && b.bool_or("background", false) {
        return Admission::Background(b);
    }
    let stream = b.bool_or("stream", false);
    let include_usage = match b.get_in("stream_options", "include_usage") {
        Some(v) => match v.as_bool() {
            Some(f) => f,
            None => false,
        },
        None => false,
    };
    let session_id = match b.str_of("session_id") {
        Some(s) => Some(s.to_owned()),
        None => None,
    };
    let n = number_of_choices(&b);
    if n > 1 && !stream && (surface == Surface::Chat || surface == Surface::Completions) {
        return Admission::Choices { body: b, n };
    }
    Admission::Run { body: b, stream, include_usage, session_id }
}

/// What becomes of a request.
pub fn dispatch_completion(surface: Surface, bytes: &[u8], store: &Store) -> (r: Admission)
    ensures
        r@ == admitted(surface, bytes@, store@),
{
    match from_bytes(bytes) {
        Ok(body) => {
            let ready = match surface {
                Surface::Chat => true,
                Surface::Completions => body.get("messages").is_some() || holds_members(&body),
                _ => holds_members(&body),
            };
            if ready {
                prepare(surface, body, store)
            } else {
                Admission::Unusable
            }
        },
        Err(e) => Admission::Refused(cat2("invalid JSON body: ", &e)),
    }
}

fn holds_members(j: &Json) -> (b: bool)
    ensures
        b == j@.settable(),
{
    match j {
        Json::Obj(_) => true,
        Json::Null => true,
        _ => false,
    }
}

// ---- answers ----

/// An answer: its status, its payload, and what its head holds besides.
pub struct Answer {
    pub status: &'static str,
    pub payload: Json,
    pub extra: String,
}

/// The view of an answer.
#[verifier::ext_equal]
pub ghost struct AnswerV {
    pub status: Seq<char>,
    pub payload: JsonV,
    pub extra: Seq<char>,
}

impl View for Answer {
    type V = AnswerV;

    open spec fn view(&self) -> AnswerV {
        AnswerV { status: self.status@, payload: self.payload@, extra: self.extra@ }
    }
}

/// An answer of a status without more in its head.
pub open spec fn plain_answer(status: Seq<char>, payload: JsonV) -> AnswerV {
    AnswerV { status, payload, extra: Seq::empty() }
}

fn plain(status: &'static str, payload: Json) -> (a: Answer)
    ensures
        a@ == plain_answer(status@, payload@),
{
    let extra = String::new();
    assert(extra@ =~= Seq::empty());
    Answer { status, payload, extra }
}

impl Answer {
    /// The bytes of an answer.
    pub fn to_bytes(&self) -> (b: Vec<u8>)
        ensures
            b@ == encode_utf8(
                head_text(
                    self@.status,
                    "application/json"@,
                    encode_utf8(rendered(self@.payload)).len() as usize,
                    self@.extra,
                ),
            ) + encode_utf8(rendered(self@.payload)),
    {
        let t = to_text(&self.payload);
        write_response(self.status, "application/json", &t, &self.extra)
    }
}

/// The answer to a request that cannot be read.
pub open spec fn unreadable(message: Seq<char>) -> AnswerV {
    plain_answer("400 Bad Request"@, error_of(message, "invalid_request_error"@))
}

pub fn unreadable_answer(message: &str) -> (a: Answer)
    ensures
        a@ == unreadable(message@),
{
    plain("400 Bad Request", error_payload(message, "invalid_request_error"))
}

/// The answer to a refused request.
pub open spec fn refusal(surface: Surface, message: Seq<char>) -> AnswerV {
    plain_answer(
        "400 Bad Request"@,
        if surface == Surface::Messages {
            typed_error(message, "invalid_request_error"@)
        } else {
            error_of(message, "invalid_request_error"@)
        },
    )
}

/// The answer to a refused request.
pub fn dispatch_or_400(surface: Surface, message: &str) -> (a: Answer)
    ensures
        a@ == refusal(surface, message@),
{
    if surface == Surface::Messages {
        plain("400 Bad Request", typed_error_payload(message, "invalid_request_error"))
    } else {
        plain("400 Bad Request", error_payload(message, "invalid_request_error"))
    }
}

/// What is refused when nobody takes the request.
pub fn worker_gone() -> (s: &'static str)
    ensures
        s@ == "engine worker is gone"@,
{
    "engine worker is gone"
}

pub fn health_answer() -> (a: Answer)
    ensures
        a@ == plain_answer("200 OK"@, labelled("status"@, "ok"@)),
{
    plain("200 OK", label_payload("status", "ok"))
}

pub fn models_answer() -> (a: Answer)
    ensures
        a@ == plain_answer("200 OK"@, model_list(model_id(), Some("lisa"@))),
{
    plain("200 OK", models_payload("qwen3.8-flash-next", Some("lisa")))
}

/// The model list of a decision server.
pub fn decision_models_answer(name: &str) -> (a: Answer)
    ensures
        a@ == plain_answer("200 OK"@, model_list(name@, None)),
{
    plain("200 OK", models_payload(name, None))
}

pub fn not_found_answer() -> (a: Answer)
    ensures
        a@ == plain_answer("404 Not Found"@, bare_error("not found"@)),
{
    plain("404 Not Found", bare_error_payload("not found"))
}

/// The answer to a question for a stored response.
pub open spec fn stored_answer_of(store: StoreV, id: Seq<char>) -> AnswerV {
    plain_answer(
        "200 OK"@,
        if store.payloads.contains_key(id) {
            store.payloads[id]
        } else {
            error_of("response not found"@, "invalid_request_error"@)
        },
    )
}

pub fn stored_answer(store: &Store, id: &str) -> (a: Answer)
    ensures
        a@ == stored_answer_of(store@, id@),
{
    match store.stored_response(id) {
        Some(p) => plain("200 OK", p),
        None => plain("200 OK", error_payload("response not found", "invalid_request_error")),
    }
}

// ---- replies ----

/// What a step of a reply ends with; none while more steps come.
pub open spec fn outcome_of(step: StepV) -> Option<Result<ReplyV, Seq<char>>> {
    match step {
        StepV::Done(d) => Some(Ok(d)),
        StepV::Error(e) => Some(Err(e)),
        _ => None,
    }
}

pub open spec fn outcome_view(o: Option<Result<ReplyData, String>>) -> Option<
    Result<ReplyV, Seq<char>>,
> {
    match o {
        Some(Ok(d)) => Some(Ok(d@)),
        Some(Err(e)) => Some(Err(e@)),
        None => None,
    }
}

/// Takes a step of a reply; the outcome is there when the reply is done or has
/// failed, or when no step comes any more.
pub fn drain_reply(step: Option<Reply>) -> (r: Option<Result<ReplyData, String>>)
    ensures
        outcome_view(r) == (match step {
            Some(s) => outcome_of(s@),
            None => Some(Err("engine worker dropped the request"@)),
        }),
{
    match step {
        Some(Reply::Done(d)) => Some(Ok(d)),
        Some(Reply::Error(e)) => Some(Err(e)),
        Some(_) => None,
        None => Some(Err("engine worker dropped the request".to_owned())),
    }
}

/// The answer to a request whose reply failed.
pub open spec fn failure(message: Seq<char>, extra: Seq<char>) -> AnswerV {
    AnswerV {
        status: "500 Internal Server Error"@,
        payload: error_of(message, "engine_error"@),
        extra,
    }
}

pub fn engine_failure(message: &str, ids: &mut Counters) -> (a: Answer)
    requires
        old(ids).served < u64::MAX,
    ensures
        a@ == failure(message@, rate_text(old(ids).served)),
        *final(ids) == (Counters { served: (old(ids).served + 1) as u64, ..*old(ids) }),
{
    let extra = ids.rate_headers();
    Answer {
        status: "500 Internal Server Error",
        payload: error_payload(message, "engine_error"),
        extra,
    }
}

/// The payload of a collected reply, and the store after it: only a response is
/// stored, under its own name.
pub open spec fn collected(
    surface: Surface,
    body: JsonV,
    d: ReplyV,
    ids: Counters,
    store: StoreV,
    now: u64,
) -> (JsonV, StoreV) {
    match surface {
        Surface::Messages => (message_of_reply(d, id_text("msg_"@, now, ids.seq)), store),
        Surface::Responses => {
            let id = id_text("resp_"@, now, ids.seq);
            let p = response_of(d, id, now);
            (
                p,
                StoreV {
                    conversations: store.conversations.insert(id, continued(body, d)),
                    payloads: store.payloads.insert(id, p),
                },
            )
        },
        _ => {
            let text = surface == Surface::Completions;
            (
                completion_of(
                    id_text("chatcmpl-lisa-"@, now, ids.seq),
                    now,
                    text,
                    Seq::empty().push(choice_of(d, text, 0)),
                    d.prompt_tokens,
                    d.completion_tokens,
                ),
                store,
            )
        },
    }
}

/// The counters after a collected reply.
pub open spec fn counters_after(ids: Counters) -> Counters {
    Counters {
        seq: if ids.seq == u64::MAX {
            0
        } else {
            (ids.seq + 1) as u64
        },
        served: (ids.served + 1) as u64,
        ..ids
    }
}

/// The answer to a request whose reply has been collected.
pub fn collect_surface(
    surface: Surface,
    body: &Json,
    d: &ReplyData,
    ids: &mut Counters,
    store: &mut Store,
    now: u64,
) -> (a: Answer)
    requires
        d@.countable(),
        old(ids).served < u64::MAX,
    ensures
        (a@.payload, final(store)@) == collected(
            surface,
            body@,
            d@,
            *old(ids),
            old(store)@,
            now,
        ),
        a@.status == "200 OK"@,
        a@.extra == rate_text(old(ids).served),
        *final(ids) == counters_after(*old(ids)),
{
    let payload = match surface {
        Surface::Messages => {
            let id = ids.message_id(now);
            messages_payload(d, &id)
        },
        Surface::Responses => {
            let id = ids.response_id(now);
            let p = responses_payload_with_id(d, &id, now);
            store.store_conversation(&id, body, d, &p);
            p
        },
        _ => {
            let id = ids.completion_id(now);
            single_payload(d, surface == Surface::Completions, &id, now)
        },
    };
    let extra = ids.rate_headers();
    Answer { status: "200 OK", payload, extra }
}

/// The answer to a request that runs in the background: the name under which its
/// response will be stored.
pub fn background_answer(ids: &mut Counters, now: u64) -> (r: (String, Answer))
    ensures
        r.0@ == id_text("resp_"@, now, old(ids).seq),
        r.1@ == plain_answer("200 OK"@, queued_response(r.0@, now)),
        *final(ids) == (Counters { seq: counters_after(*old(ids)).seq, ..*old(ids) }),
{
    let id = ids.response_id(now);
    let p = queued_payload(&id, now);
    (id, plain("200 OK", p))
}

/// Stores the response of a request that ran in the background.
pub fn finish_background(store: &mut Store, id: &str, d: &ReplyData, now: u64)
    requires
        d@.countable(),
    ensures
        final(store)@ == (StoreV {
            payloads: old(store)@.payloads.insert(id@, response_of(d@, id@, now)),
            ..old(store)@
        }),
{
    let p = responses_payload_with_id(d, id, now);
    store.store_response(id, p);
}

/// The answer to a count of tokens.
pub fn collect_count_tokens(outcome: Result<ReplyData, String>) -> (a: Answer)
    ensures
        a@ == (match outcome {
            Ok(d) => plain_answer("200 OK"@, counted("input_tokens"@, d@.prompt_tokens)),
            Err(e) => failure(e@, Seq::empty()),
        }),
{
    match outcome {
        Ok(d) => plain("200 OK", count_payload("input_tokens", d.prompt_tokens)),
        Err(e) => plain("500 Internal Server Error", error_payload(&e, "engine_error")),
    }
}

/// The reply to a count of tokens.
pub open spec fn count_reply(tokens: usize) -> ReplyV {
    ReplyV {
        content: Seq::empty(),
        reasoning: None,
        tool_calls: Seq::empty(),
        prompt_tokens: tokens,
        completion_tokens: 0,
        finish: "stop"@,
        logprobs: None,
        stop_sequence: None,
    }
}

/// The reply to a count of tokens.
pub fn count_tokens_job(tokens: usize) -> (d: ReplyData)
    ensures
        d@ == count_reply(tokens),
{
    let content = String::new();
    assert(content@ =~= Seq::empty());
    ReplyData {
        content,
        reasoning: None,
        tool_calls: no_items(),
        prompt_tokens: tokens,
        completion_tokens: 0,
        finish: "stop".to_owned(),
        logprobs: None,
        stop_sequence: None,
    }
}

// ---- several choices ----

/// The seed of a choice: seeds follow one another from the request's own.
pub open spec fn choice_seed(body: JsonV, i: usize) -> u64 {
    ((seed_of(body) + i) % 0x1_0000_0000_0000_0000) as u64
}

/// The body of a choice: the request with the choice's own seed.
pub fn choice_body(body: &Json, i: usize) -> (b: Json)
    requires
        body@.settable(),
    ensures
        b@ == body@.with("seed"@, JsonV::Pos(choice_seed(body@, i))),
{
    let mut b = body.duplicate();
    let seed = request_seed(body).wrapping_add(i as u64);
    b.set("seed", Json::Pos(seed));
    b
}

/// Choices have different seeds.
pub proof fn choices_differ(body: JsonV, i: usize, j: usize)
    requires
        i != j,
    ensures
        choice_seed(body, i) != choice_seed(body, j),
{
    let s = seed_of(body) as int;
    let m = 0x1_0000_0000_0000_0000int;
    assert(0 <= i < m && 0 <= j < m);
    let a = s + i;
    let b = s + j;
    assert(a % m == (if a >= m {
        a - m
    } else {
        a
    }));
    assert(b % m == (if b >= m {
        b - m
    } else {
        b
    }));
}

/// The choices that are there so far.
pub struct Choices {
    pub choices: Vec<Json>,
    pub prompt_tokens: usize,
    pub completion_tokens: usize,
}

/// The view of the choices so far.
#[verifier::ext_equal]
pub ghost struct ChoicesV {
    pub choices: Seq<JsonV>,
    pub prompt_tokens: usize,
    pub completion_tokens: usize,
}

impl View for Choices {
    type V = ChoicesV;

    open spec fn view(&self) -> ChoicesV {
        ChoicesV {
            choices: list_views(self.choices@),
            prompt_tokens: self.prompt_tokens,
            completion_tokens: self.completion_tokens,
        }
    }
}

/// The choices after one more reply.
pub open spec fn with_choice(c: ChoicesV, d: ReplyV, text: bool) -> ChoicesV {
    ChoicesV {
        choices: c.choices.push(choice_of(d, text, c.choices.len() as usize)),
        prompt_tokens: d.prompt_tokens,
        completion_tokens: (c.completion_tokens + d.completion_tokens) as usize,
    }
}

impl Choices {
    pub fn new() -> (c: Choices)
        ensures
            c@ == (ChoicesV { choices: Seq::empty(), prompt_tokens: 0, completion_tokens: 0 }),
    {
        Choices { choices: no_items(), prompt_tokens: 0, completion_tokens: 0 }
    }

    /// Takes the reply of the next choice.
    pub fn add_choice(&mut self, d: &ReplyData, text: bool)
        requires
            old(self).completion_tokens + d.completion_tokens <= usize::MAX,
        ensures
            final(self)@ == with_choice(old(self)@, d@, text),
    {
        let i = self.choices.len();
        assert(list_views(self.choices@).len() == i);
        push_item(&mut self.choices, choice(d, text, i));
        self.prompt_tokens = d.prompt_tokens;
        self.completion_tokens = self.completion_tokens + d.completion_tokens;
    }

    /// The answer to a request for several choices.
    pub fn collect_choices(self, text: bool, ids: &mut Counters, now: u64) -> (a: Answer)
        requires
            self.prompt_tokens + self.completion_tokens <= usize::MAX,
            old(ids).served < u64::MAX,
        ensures
            a@ == (AnswerV {
                status: "200 OK"@,
                payload: completion_of(
                    id_text("chatcmpl-lisa-"@, now, old(ids).seq),
                    now,
                    text,
                    self@.choices,
                    self.prompt_tokens,
                    self.completion_tokens,
                ),
                extra: rate_text(old(ids).served),
            }),
            *final(ids) == counters_after(*old(ids)),
    {
        let id = ids.completion_id(now);
        let payload = completion_payload(
            &id,
            now,
            text,
            self.choices,
            self.prompt_tokens,
            self.completion_tokens,
        );
        let extra = ids.rate_headers();
        Answer { status: "200 OK", payload, extra }
    }
}

// ---- waves ----

/// What a wave needs to know of a job.
#[derive(Clone, Copy, PartialEq, Eq, Structural, Debug)]
pub struct JobKind {
    /// It goes on with a session.
    pub session: bool,
    pub surface: Surface,
    pub depth: usize,
    pub tools: bool,
}

impl JobKind {
    /// A job that runs on its own: one that drafts, uses tools, or is no chat.
    pub open spec fn alone(self) -> bool {
        self.depth > 0 || self.tools || self.surface != Surface::Chat
    }
}

/// The order in which a wave of jobs runs: sessions first, one after the other,
/// then those that run on their own, then the rest together.
pub struct Wave {
    pub sessions: Vec<usize>,
    pub alone: Vec<usize>,
    pub together: Vec<usize>,
}

/// The places of those of the first `k` jobs that a rule picks.
pub open spec fn picked(jobs: Seq<JobKind>, rule: spec_fn(JobKind) -> bool, k: int) -> Seq<usize>
    decreases k,
{
    if k <= 0 {
        Seq::empty()
    } else if rule(jobs[k - 1]) {
        picked(jobs, rule, k - 1).push((k - 1) as usize)
    } else {
        picked(jobs, rule, k - 1)
    }
}

pub open spec fn session_jobs(jobs: Seq<JobKind>, k: int) -> Seq<usize> {
    picked(jobs, |j: JobKind| j.session, k)
}

pub open spec fn lone_jobs(jobs: Seq<JobKind>, k: int) -> Seq<usize> {
    picked(jobs, |j: JobKind| !j.session && j.alone(), k)
}

pub open spec fn common_jobs(jobs: Seq<JobKind>, k: int) -> Seq<usize> {
    picked(jobs, |j: JobKind| !j.session && !j.alone(), k)
}

/// The order in which a wave of jobs runs.
pub fn plan_wave(jobs: &[JobKind]) -> (w: Wave)
    ensures
        w.sessions@ == session_jobs(jobs@, jobs@.len() as int),
        w.alone@ == lone_jobs(jobs@, jobs@.len() as int),
        w.together@ == common_jobs(jobs@, jobs@.len() as int),
{
    let mut sessions: Vec<usize> = Vec::new();
    let mut alone: Vec<usize> = Vec::new();
    let mut together: Vec<usize> = Vec::new();
    let mut i: usize = 0;
    while i < jobs.len()
        invariant
            i <= jobs@.len(),
            sessions@ == session_jobs(jobs@, i as int),
            alone@ == lone_jobs(jobs@, i as int),
            together@ == common_jobs(jobs@, i as int),
        decreases jobs.len() - i,
    {
        let j = jobs[i];
        if j.session {
            sessions.push(i);
        } else if j.depth > 0 || j.tools || j.surface != Surface::Chat {
            alone.push(i);
        } else {
            together.push(i);
        }
        i += 1;
    }
    Wave { sessions, alone, together }
}

proof fn lemma_picked(jobs: Seq<JobKind>, rule: spec_fn(JobKind) -> bool, k: int)
    requires
        0 <= k <= jobs.len(),
        jobs.len() <= usize::MAX,
    ensures
        forall|p: int|
            0 <= p < picked(jobs, rule, k).len() ==> (#[trigger] picked(jobs, rule, k)[p]) < k
                && rule(jobs[picked(jobs, rule, k)[p] as int]),
        forall|p: int, q: int|
            0 <= p < q < picked(jobs, rule, k).len() ==> (#[trigger] picked(jobs, rule, k)[p]) < (
            #[trigger] picked(jobs, rule, k)[q]),
    decreases k,
{
    if k > 0 {
        lemma_picked(jobs, rule, k - 1);
        let before = picked(jobs, rule, k - 1);
        let r = picked(jobs, rule, k);
        assert forall|p: int| 0 <= p < r.len() implies (#[trigger] r[p]) < k && rule(
            jobs[r[p] as int],
        ) by {
            if p < before.len() {
                assert(r[p] == before[p]);
            }
        }
        assert forall|p: int, q: int| 0 <= p < q < r.len() implies (#[trigger] r[p]) < (
        #[trigger] r[q]) by {
            assert(r[p] == before[p]);
            if q < before.len() {
                assert(r[q] == before[q]);
            }
        }
    }
}

proof fn lemma_picks(jobs: Seq<JobKind>, rule: spec_fn(JobKind) -> bool, k: int, i: usize)
    requires
        0 <= i < k <= jobs.len(),
        rule(jobs[i as int]),
    ensures
        picked(jobs, rule, k).contains(i),
    decreases k,
{
    let r = picked(jobs, rule, k);
    if i == k - 1 {
        assert(r[r.len() - 1] == i);
    } else {
        lemma_picks(jobs, rule, k - 1, i);
        let q = picked(jobs, rule, k - 1);
        let p = choose|p: int| 0 <= p < q.len() && q[p] == i;
        assert(r[p] == i);
    }
}

/// Every job of a wave stands in exactly one of its three lists.
pub proof fn every_job_runs_once(jobs: Seq<JobKind>, i: usize)
    requires
        i < jobs.len() <= usize::MAX,
    ensures
        ({
            let n = jobs.len() as int;
            let s = session_jobs(jobs, n).contains(i);
            let a = lone_jobs(jobs, n).contains(i);
            let t = common_jobs(jobs, n).contains(i);
            (s || a || t) && !(s && a) && !(s && t) && !(a && t)
        }),
{
    let n = jobs.len() as int;
    let s = |j: JobKind| j.session;
    let a = |j: JobKind| !j.session && j.alone();
    let t = |j: JobKind| !j.session && !j.alone();
    lemma_picked(jobs, s, n);
    lemma_picked(jobs, a, n);
    lemma_picked(jobs, t, n);
    if s(jobs[i as int]) {
        lemma_picks(jobs, s, n, i);
    } else if a(jobs[i as int]) {
        lemma_picks(jobs, a, n, i);
    } else {
        assert(t(jobs[i as int]));
        lemma_picks(jobs, t, n, i);
    }
}

/// Within each of its lists the jobs of a wave keep their order.
pub proof fn jobs_keep_their_order(jobs: Seq<JobKind>, p: int, q: int)
    requires
        jobs.len() <= usize::MAX,
        0 <= p < q,
    ensures
        ({
            let n = jobs.len() as int;
            let s = session_jobs(jobs, n);
            let a = lone_jobs(jobs, n);
            let t = common_jobs(jobs, n);
            &&& q < s.len() ==> s[p] < s[q]
            &&& q < a.len() ==> a[p] < a[q]
            &&& q < t.len() ==> t[p] < t[q]
        }),
{
    let n = jobs.len() as int;
    lemma_picked(jobs, |j: JobKind| j.session, n);
    lemma_picked(jobs, |j: JobKind| !j.session && j.alone(), n);
    lemma_picked(jobs, |j: JobKind| !j.session && !j.alone(), n);
}

/// A response that was collected is what a later question for its name gets.
pub proof fn response_is_found_again(
    body: JsonV,
    d: ReplyV,
    ids: Counters,
    store: StoreV,
    now: u64,
)
    ensures
        ({
            let (p, after) = collected(Surface::Responses, body, d, ids, store, now);
            stored_answer_of(after, id_text("resp_"@, now, ids.seq)) == plain_answer("200 OK"@, p)
        }),
{
}

/// A request that is no JSON, or holds nothing to reply to, is refused on every
/// surface that replies.
pub proof fn empty_requests_are_refused(surface: Surface, bytes: Seq<u8>, store: StoreV)
    requires
        surface != Surface::CountTokens,
        match parsed_bytes(bytes) {
            Err(_) => true,
            Ok(body) => usable(surface, body) && messages_of(resumed(surface, body, store)).len()
                == 0,
        },
    ensures
        admitted(surface, bytes, store) is Refused,
{
}

// ---- decisions ----

/// What a decision is asked of: a state and questions, or the answer when the
/// request is no JSON.
pub open spec fn decision_of(bytes: Seq<u8>) -> Result<(JsonV, JsonV), AnswerV> {
    match parsed_bytes(bytes) {
        Ok(j) => Ok(
            (value_or(j.field("state"@), JsonV::Null), value_or(j.field("questions"@), JsonV::Null)),
        ),
        Err(e) => Err(plain_answer("400 Bad Request"@, bare_error("invalid JSON: "@ + e))),
    }
}

fn part_of(j: &Json, key: &str) -> (r: Json)
    ensures
        r@ == value_or(j@.field(key@), JsonV::Null),
{
    match j.get(key) {
        Some(v) => v.duplicate(),
        None => Json::Null,
    }
}

/// What a decision is asked of.
pub fn decision_request(bytes: &[u8]) -> (r: Result<(Json, Json), Answer>)
    ensures
        match r {
            Ok(p) => decision_of(bytes@) == Ok::<(JsonV, JsonV), AnswerV>((p.0@, p.1@)),
            Err(a) => decision_of(bytes@) == Err::<(JsonV, JsonV), AnswerV>(a@),
        },
{
    match from_bytes(bytes) {
        Ok(j) => Ok((part_of(&j, "state"), part_of(&j, "questions"))),
        Err(e) => {
            let m = cat2("invalid JSON: ", &e);
            Err(bad_request(&m))
        },
    }
}

/// The answer to a decision that cannot be made.
pub fn bad_request(message: &str) -> (a: Answer)
    ensures
        a@ == plain_answer("400 Bad Request"@, bare_error(message@)),
{
    plain("400 Bad Request", bare_error_payload(message))
}

/// The answer to a decision.
pub fn decision_answer(outcome: Result<Json, String>) -> (a: Answer)
    ensures
        a@ == (match outcome {
            Ok(j) => plain_answer("200 OK"@, j@),
            Err(e) => plain_answer("400 Bad Request"@, bare_error(e@)),
        }),
{
    match outcome {
        Ok(j) => plain("200 OK", j),
        Err(e) => bad_request(&e),
    }
}

} // verus!
