//! JSON inside generated text: finding it, and repairing what was cut off.

use vstd::prelude::*;

use crate::chars::{
    begins, ends, ends_with, is_letter, is_letter_or_digit, is_space, piece, place_of, search,
    starts_with, trim, trim_end, trim_left, trim_right, trim_start, trimmed,
};
use crate::codec::{from_text, parsed, rendered, to_text};
use crate::json::{member_views, Json, JsonV, Members};
use crate::reasoning::{before_stops, opt_string, strip_stops};
use crate::text::{chars_of, string_of, views};

verus! {

broadcast use crate::value::json_view;

// ---- balanced pieces ----

/// The place of the bracket that closes `depth` open ones, from `j` on. Inside
/// a string brackets do not count, and a backslash takes the next character.
pub open spec fn closing(
    s: Seq<char>,
    j: int,
    depth: nat,
    in_str: bool,
    esc: bool,
    open: char,
    close: char,
) -> Option<int>
    decreases s.len() - j,
{
    if j < 0 || j >= s.len() {
        None
    } else {
        let c = s[j];
        if in_str {
            if esc {
                closing(s, j + 1, depth, true, false, open, close)
            } else if c == '\\' {
                closing(s, j + 1, depth, true, true, open, close)
            } else if c == '"' {
                closing(s, j + 1, depth, false, false, open, close)
            } else {
                closing(s, j + 1, depth, true, false, open, close)
            }
        } else if c == '"' {
            closing(s, j + 1, depth, true, esc, open, close)
        } else if c == open {
            closing(s, j + 1, depth + 1, false, esc, open, close)
        } else if c == close && depth > 0 {
            if depth == 1 {
                Some(j)
            } else {
                closing(s, j + 1, (depth - 1) as nat, false, esc, open, close)
            }
        } else {
            closing(s, j + 1, depth, false, esc, open, close)
        }
    }
}

/// The JSON value in the balanced piece that starts at `i`.
pub open spec fn value_at(s: Seq<char>, i: int, open: char, close: char) -> Option<JsonV> {
    if s[i] != open {
        None
    } else {
        match closing(s, i, 0, false, false, open, close) {
            Some(j) => parsed(s.subrange(i, j + 1)),
            None => None,
        }
    }
}

/// The first JSON object from `i` on.
pub open spec fn object_from(s: Seq<char>, i: int) -> Option<Members>
    decreases s.len() - i,
{
    if i < 0 || i >= s.len() {
        None
    } else {
        match value_at(s, i, '{', '}') {
            Some(JsonV::Obj(m)) => Some(m),
            _ => object_from(s, i + 1),
        }
    }
}

/// The first JSON list from `i` on.
pub open spec fn array_from(s: Seq<char>, i: int) -> Option<JsonV>
    decreases s.len() - i,
{
    if i < 0 || i >= s.len() {
        None
    } else {
        match value_at(s, i, '[', ']') {
            Some(v) => Some(v),
            None => array_from(s, i + 1),
        }
    }
}

fn find_closing(s: &[char], i: usize, open: char, close: char) -> (r: Option<usize>)
    requires
        i < s@.len(),
        s@[i as int] == open,
        open != close,
        open != '"',
        close != '"',
    ensures
        match r {
            Some(j) => closing(s@, i as int, 0, false, false, open, close) == Some(j as int) && i <= j
                < s@.len(),
            None => closing(s@, i as int, 0, false, false, open, close) is None,
        },
{
    let mut depth: usize = 0;
    let mut in_str = false;
    let mut esc = false;
    let mut j: usize = i;
    while j < s.len()
        invariant
            i <= j <= s.len(),
            depth <= j - i,
            open != close,
            open != '"',
            close != '"',
            closing(s@, i as int, 0, false, false, open, close) == closing(
                s@,
                j as int,
                depth as nat,
                in_str,
                esc,
                open,
                close,
            ),
        decreases s.len() - j,
    {
        let c = s[j];
        if in_str {
            if esc {
                esc = false;
            } else if c == '\\' {
                esc = true;
            } else if c == '"' {
                in_str = false;
            }
        } else if c == '"' {
            in_str = true;
        } else if c == open {
            depth += 1;
        } else if c == close && depth > 0 {
            depth -= 1;
            if depth == 0 {
                return Some(j);
            }
        }
        j += 1;
    }
    None
}

fn find_value(s: &[char], i: usize, open: char, close: char) -> (r: Option<Json>)
    requires
        i < s@.len(),
        open != close,
        open != '"',
        close != '"',
    ensures
        match r {
            Some(j) => value_at(s@, i as int, open, close) == Some(j@),
            None => value_at(s@, i as int, open, close) is None,
        },
{
    if s[i] != open {
        return None;
    }
    match find_closing(s, i, open, close) {
        Some(j) => {
            let p = piece(s, i, j + 1);
            let t = string_of(&p);
            from_text(&t)
        },
        None => None,
    }
}

pub open spec fn opt_members(o: Option<Vec<(String, Json)>>) -> Option<Members> {
    match o {
        Some(m) => Some(member_views(m@)),
        None => None,
    }
}

/// The first balanced JSON object in a text.
pub fn find_json_object(text: &str) -> (r: Option<Vec<(String, Json)>>)
    ensures
        opt_members(r) == object_from(text@, 0),
{
    let s = chars_of(text);
    let mut i: usize = 0;
    while i < s.len()
        invariant
            i <= s.len(),
            s@ == text@,
            object_from(s@, 0) == object_from(s@, i as int),
        decreases s.len() - i,
    {
        match find_value(&s, i, '{', '}') {
            Some(Json::Obj(m)) => {
                return Some(m);
            },
            _ => {},
        }
        i += 1;
    }
    None
}

/// The first balanced JSON list in a text.
pub fn find_json_array(text: &str) -> (r: Option<Json>)
    ensures
        match r {
            Some(j) => array_from(text@, 0) == Some(j@),
            None => array_from(text@, 0) is None,
        },
{
    let s = chars_of(text);
    let mut i: usize = 0;
    while i < s.len()
        invariant
            i <= s.len(),
            s@ == text@,
            array_from(s@, 0) == array_from(s@, i as int),
        decreases s.len() - i,
    {
        match find_value(&s, i, '[', ']') {
            Some(j) => {
                return Some(j);
            },
            None => {},
        }
        i += 1;
    }
    None
}

// ---- a JSON value in a reply ----

/// A text without the code fence around it.
pub open spec fn unfenced(t: Seq<char>) -> Seq<char> {
    let a = trimmed(t);
    let b = if begins(a, "```json"@) {
        trim_start(a.skip("```json"@.len() as int))
    } else if begins(a, "```"@) {
        trim_start(a.skip("```"@.len() as int))
    } else {
        a
    };
    if ends(b, "```"@) {
        trim_end(b.take(b.len() - "```"@.len()))
    } else {
        b
    }
}

/// The compact text of the JSON value in a reply: the whole reply, or else its
/// first object, or else its first list.
pub open spec fn json_in(t: Seq<char>) -> Option<Seq<char>> {
    let u = unfenced(t);
    match parsed(u) {
        Some(v) => Some(rendered(v)),
        None => match object_from(u, 0) {
            Some(m) => Some(rendered(JsonV::Obj(m))),
            None => match array_from(u, 0) {
                Some(v) => Some(rendered(v)),
                None => None,
            },
        },
    }
}

fn unfence(text: &str) -> (r: String)
    ensures
        r@ == unfenced(text@),
{
    let t = chars_of(text);
    let a = trim(&t);
    let long = chars_of("```json");
    let short = chars_of("```");
    let n = a.len();
    let b = if starts_with(&a, &long) {
        let p = piece(&a, long.len(), n);
        assert(p@ =~= a@.skip(long@.len() as int));
        trim_left(&p)
    } else if starts_with(&a, &short) {
        let p = piece(&a, short.len(), n);
        assert(p@ =~= a@.skip(short@.len() as int));
        trim_left(&p)
    } else {
        a
    };
    let m = b.len();
    if ends_with(&b, &short) {
        let p = piece(&b, 0, m - short.len());
        assert(p@ =~= b@.take(b@.len() - short@.len()));
        let p = trim_right(&p);
        string_of(&p)
    } else {
        string_of(&b)
    }
}

/// The JSON value in a reply, without fences and prose, as compact text.
pub fn extract_json(text: &str) -> (r: Option<String>)
    ensures
        opt_string(r) == json_in(text@),
{
    let u = unfence(text);
    match from_text(&u) {
        Some(v) => {
            return Some(to_text(&v));
        },
        None => {},
    }
    match find_json_object(&u) {
        Some(m) => {
            let o = Json::Obj(m);
            return Some(to_text(&o));
        },
        None => {},
    }
    match find_json_array(&u) {
        Some(v) => Some(to_text(&v)),
        None => None,
    }
}

// ---- repair ----

/// The state of a repair: what has been written, whether a string is open and a
/// backslash pending, the brackets still to be closed, and whether a key or a
/// value is due.
#[verifier::ext_equal]
pub ghost struct Repair {
    pub out: Seq<char>,
    pub in_str: bool,
    pub esc: bool,
    pub stack: Seq<char>,
    pub key: bool,
    pub val: bool,
}

/// One more character of a string. A string cannot hold line ends and tabs as
/// they are.
pub open spec fn in_string(st: Repair, c: char) -> Repair {
    if st.esc {
        Repair { out: st.out.push(c), esc: false, ..st }
    } else if c == '\\' {
        Repair { out: st.out.push(c), esc: true, ..st }
    } else if c == '"' {
        Repair { out: st.out.push(c), in_str: false, ..st }
    } else if c == '\n' {
        Repair { out: st.out.push('\\').push('n'), ..st }
    } else if c == '\r' {
        Repair { out: st.out.push('\\').push('r'), ..st }
    } else if c == '\t' {
        Repair { out: st.out.push('\\').push('t'), ..st }
    } else {
        Repair { out: st.out.push(c), ..st }
    }
}

/// One more character outside strings and words. A closing bracket that closes
/// nothing and what is left of a tag are dropped.
pub open spec fn outside(st: Repair, c: char) -> Repair {
    if c == '"' {
        Repair { out: st.out.push(c), in_str: true, key: false, val: false, ..st }
    } else if c == '{' {
        Repair { out: st.out.push(c), stack: st.stack.push('}'), key: true, val: false, ..st }
    } else if c == '[' {
        Repair { out: st.out.push(c), stack: st.stack.push(']'), key: false, val: false, ..st }
    } else if c == '}' || c == ']' {
        if st.stack.len() > 0 && st.stack.last() == c {
            Repair {
                out: st.out.push(c),
                stack: st.stack.drop_last(),
                key: false,
                val: false,
                ..st
            }
        } else {
            Repair { key: false, val: false, ..st }
        }
    } else if c == ',' {
        Repair {
            out: st.out.push(c),
            key: st.stack.len() > 0 && st.stack.last() == '}',
            val: false,
            ..st
        }
    } else if c == ':' {
        Repair { out: st.out.push(c), key: false, val: true, ..st }
    } else if !is_space(c) && (c == '<' || c == '>' || c == '/') {
        st
    } else {
        Repair { out: st.out.push(c), ..st }
    }
}

/// A character with a meaning of its own outside strings.
pub open spec fn structural(c: char) -> bool {
    c == '"' || c == '{' || c == '[' || c == '}' || c == ']' || c == ',' || c == ':' || is_space(c)
        || c == '<' || c == '>' || c == '/'
}

/// A bare word in the place of a key starts here.
pub open spec fn starts_key(st: Repair, c: char) -> bool {
    !structural(c) && st.key && (is_letter(c) || c == '_' || c == '$')
}

/// A bare word in the place of a value starts here.
pub open spec fn starts_val(st: Repair, c: char) -> bool {
    !structural(c) && !starts_key(st, c) && st.val && (is_letter(c) || c == '_')
}

/// A character of a bare word.
pub open spec fn word_char(c: char, key: bool) -> bool {
    if key {
        is_letter_or_digit(c) || c == '_' || c == '$'
    } else {
        !is_space(c) && c != ',' && c != '}' && c != ']'
    }
}

/// How many characters of a bare word follow from `i` on.
pub open spec fn word_run(s: Seq<char>, i: int, key: bool) -> nat
    decreases s.len() - i,
{
    if i < 0 || i >= s.len() || !word_char(s[i], key) {
        0
    } else {
        1 + word_run(s, i + 1, key)
    }
}

/// A bare word ends inside the text.
pub proof fn lemma_word_run(s: Seq<char>, i: int, key: bool)
    requires
        0 <= i <= s.len(),
    ensures
        i + word_run(s, i, key) <= s.len(),
    decreases s.len() - i,
{
    if i < s.len() && word_char(s[i], key) {
        lemma_word_run(s, i + 1, key);
    }
}

/// A word in quotes.
pub open spec fn quoted(w: Seq<char>) -> Seq<char> {
    seq!['"'] + w + seq!['"']
}

/// A word that stands for a value by itself.
pub open spec fn keyword(w: Seq<char>) -> bool {
    w == "true"@ || w == "false"@ || w == "null"@
}

/// The state after the text from `i` on.
pub open spec fn repaired(s: Seq<char>, i: int, st: Repair) -> Repair
    decreases s.len() - i,
{
    if i < 0 || i >= s.len() {
        st
    } else if st.in_str {
        repaired(s, i + 1, in_string(st, s[i]))
    } else if starts_key(st, s[i]) {
        let n = 1 + word_run(s, i + 1, true);
        let w = s.subrange(i, i + n);
        proof {
            lemma_word_run(s, i + 1, true);
        }
        repaired(s, i + n, Repair { out: st.out + quoted(w), key: false, ..st })
    } else if starts_val(st, s[i]) {
        let n = 1 + word_run(s, i + 1, false);
        let w = s.subrange(i, i + n);
        proof {
            lemma_word_run(s, i + 1, false);
        }
        repaired(
            s,
            i + n,
            Repair {
                out: st.out + (if keyword(w) {
                    w
                } else {
                    quoted(w)
                }),
                val: false,
                ..st
            },
        )
    } else {
        repaired(s, i + 1, outside(st, s[i]))
    }
}

/// A repair before its first character.
pub open spec fn unrepaired() -> Repair {
    Repair {
        out: Seq::empty(),
        in_str: false,
        esc: false,
        stack: Seq::empty(),
        key: false,
        val: false,
    }
}

/// The text with everything closed that was still open, the innermost first.
pub open spec fn closed_up(st: Repair) -> Seq<char> {
    st.out + (if st.in_str {
        seq!['"']
    } else {
        Seq::empty()
    }) + st.stack.reverse()
}

/// What ends a JSON object that was never closed.
pub open spec fn cut_marks() -> Seq<Seq<char>> {
    seq!["</function"@, "</tool_call"@, "</parameter"@]
}

/// The part of a text that a repair works on: from the first brace to the next
/// tag.
pub open spec fn broken_part(t: Seq<char>) -> Option<Seq<char>> {
    match place_of(t, "{"@) {
        Some(i) => Some(before_stops(t.skip(i), cut_marks())),
        None => None,
    }
}

/// The JSON object that a text holds once it is repaired.
pub open spec fn salvaged(t: Seq<char>) -> Option<Members> {
    match broken_part(t) {
        Some(b) => match parsed(closed_up(repaired(b, 0, unrepaired()))) {
            Some(JsonV::Obj(m)) => Some(m),
            _ => None,
        },
        None => None,
    }
}

/// A repair under way.
struct Repairer {
    out: Vec<char>,
    in_str: bool,
    esc: bool,
    stack: Vec<char>,
    key: bool,
    val: bool,
}

impl Repairer {
    spec fn state(self) -> Repair {
        Repair {
            out: self.out@,
            in_str: self.in_str,
            esc: self.esc,
            stack: self.stack@,
            key: self.key,
            val: self.val,
        }
    }

    fn take_in_string(&mut self, c: char)
        ensures
            final(self).state() == in_string(old(self).state(), c),
    {
        if self.esc {
            self.out.push(c);
            self.esc = false;
        } else if c == '\\' {
            self.out.push(c);
            self.esc = true;
        } else if c == '"' {
            self.out.push(c);
            self.in_str = false;
        } else if c == '\n' {
            self.out.push('\\');
            self.out.push('n');
        } else if c == '\r' {
            self.out.push('\\');
            self.out.push('r');
        } else if c == '\t' {
            self.out.push('\\');
            self.out.push('t');
        } else {
            self.out.push(c);
        }
    }

    fn take_outside(&mut self, c: char)
        ensures
            final(self).state() == outside(old(self).state(), c),
    {
        if c == '"' {
            self.out.push(c);
            self.in_str = true;
            self.key = false;
            self.val = false;
        } else if c == '{' {
            self.stack.push('}');
            self.out.push(c);
            self.key = true;
            self.val = false;
        } else if c == '[' {
            self.stack.push(']');
            self.out.push(c);
            self.key = false;
            self.val = false;
        } else if c == '}' || c == ']' {
            let n = self.stack.len();
            if n > 0 && self.stack[n - 1] == c {
                let _ = self.stack.pop();
                self.out.push(c);
            }
            self.key = false;
            self.val = false;
        } else if c == ',' {
            let n = self.stack.len();
            self.out.push(c);
            self.key = n > 0 && self.stack[n - 1] == '}';
            self.val = false;
        } else if c == ':' {
            self.out.push(c);
            self.key = false;
            self.val = true;
        } else if !c.is_whitespace() && (c == '<' || c == '>' || c == '/') {
        } else {
            self.out.push(c);
        }
        assert(final(self).state() =~= outside(old(self).state(), c));
    }

    fn push_word(&mut self, w: &Vec<char>, quote: bool)
        ensures
            final(self).state() == (Repair {
                out: old(self).out@ + (if quote {
                    quoted(w@)
                } else {
                    w@
                }),
                ..old(self).state()
            }),
    {
        let ghost before = self.state();
        if quote {
            self.out.push('"');
        }
        let ghost lead = self.out@;
        let mut i: usize = 0;
        while i < w.len()
            invariant
                i <= w.len(),
                self.state() == (Repair { out: lead + w@.take(i as int), ..before }),
            decreases w.len() - i,
        {
            self.out.push(w[i]);
            i += 1;
            assert(self.out@ =~= lead + w@.take(i as int));
        }
        assert(w@.take(w@.len() as int) =~= w@);
        if quote {
            self.out.push('"');
            assert(self.out@ =~= before.out + quoted(w@));
        } else {
            assert(self.out@ =~= before.out + w@);
        }
    }
}

fn is_structural(c: char) -> (b: bool)
    ensures
        b == structural(c),
{
    c == '"' || c == '{' || c == '[' || c == '}' || c == ']' || c == ',' || c == ':'
        || c.is_whitespace() || c == '<' || c == '>' || c == '/'
}

fn is_word_char(c: char, key: bool) -> (b: bool)
    ensures
        b == word_char(c, key),
{
    if key {
        c.is_alphanumeric() || c == '_' || c == '$'
    } else {
        !c.is_whitespace() && c != ',' && c != '}' && c != ']'
    }
}

/// The end of the bare word that starts at `i`.
fn word_end(s: &[char], i: usize, key: bool) -> (e: usize)
    requires
        i < s@.len(),
    ensures
        e == i + 1 + word_run(s@, i + 1, key),
        i < e <= s@.len(),
{
    let n = s.len();
    let mut e: usize = i + 1;
    while e < s.len() && is_word_char(s[e], key)
        invariant
            i < e <= s@.len(),
            e + word_run(s@, e as int, key) == i + 1 + word_run(s@, i + 1, key),
        decreases s.len() - e,
    {
        e += 1;
    }
    e
}

fn is_keyword(w: &str) -> (b: bool)
    ensures
        b == keyword(w@),
{
    crate::text::same_text(w, "true") || crate::text::same_text(w, "false")
        || crate::text::same_text(w, "null")
}

fn repair(s: &[char]) -> (r: Vec<char>)
    ensures
        r@ == closed_up(repaired(s@, 0, unrepaired())),
{
    let mut w = Repairer {
        out: Vec::new(),
        in_str: false,
        esc: false,
        stack: Vec::new(),
        key: false,
        val: false,
    };
    let mut i: usize = 0;
    assert(w.state() =~= unrepaired());
    while i < s.len()
        invariant
            i <= s.len(),
            repaired(s@, 0, unrepaired()) == repaired(s@, i as int, w.state()),
        decreases s.len() - i,
    {
        let c = s[i];
        if w.in_str {
            w.take_in_string(c);
            i += 1;
        } else if !is_structural(c) && w.key && (c.is_alphabetic() || c == '_' || c == '$') {
            let e = word_end(s, i, true);
            let word = piece(s, i, e);
            w.push_word(&word, true);
            w.key = false;
            i = e;
        } else if !is_structural(c) && w.val && (c.is_alphabetic() || c == '_') {
            let e = word_end(s, i, false);
            let word = piece(s, i, e);
            let text = string_of(&word);
            let bare = is_keyword(&text);
            w.push_word(&word, !bare);
            w.val = false;
            i = e;
        } else {
            w.take_outside(c);
            i += 1;
        }
    }
    let ghost st = w.state();
    let mut out = w.out;
    if w.in_str {
        out.push('"');
    }
    let ghost lead = out@;
    let mut k: usize = w.stack.len();
    assert(lead =~= st.out + (if st.in_str {
        seq!['"']
    } else {
        Seq::empty()
    }));
    assert(out@ =~= lead + st.stack.reverse().take(0));
    while k > 0
        invariant
            k <= w.stack@.len(),
            st.stack == w.stack@,
            out@ == lead + st.stack.reverse().take(w.stack@.len() - k),
        decreases k,
    {
        k -= 1;
        out.push(w.stack[k]);
        assert(out@ =~= lead + st.stack.reverse().take(w.stack@.len() - k));
    }
    assert(st.stack.reverse().take(st.stack.len() as int) =~= st.stack.reverse());
    out
}

/// The JSON object that a text left unbalanced: the text is cut at the next
/// tag, bare words are quoted, and what is still open is closed.
pub fn salvage_json_object(text: &str) -> (r: Option<Vec<(String, Json)>>)
    ensures
        opt_members(r) == salvaged(text@),
{
    let s = chars_of(text);
    let brace = chars_of("{");
    let start = match search(&s, &brace) {
        Some(i) => i,
        None => {
            return None;
        },
    };
    let tail = piece(&s, start, s.len());
    assert(tail@ =~= s@.skip(start as int));
    let tail = string_of(&tail);
    let marks = vec![
        "</function".to_owned(),
        "</tool_call".to_owned(),
        "</parameter".to_owned(),
    ];
    assert(views(marks@) =~= cut_marks());
    let part = strip_stops(&tail, &marks);
    let part = chars_of(&part);
    let fixed = repair(&part);
    let fixed = string_of(&fixed);
    match from_text(&fixed) {
        Some(Json::Obj(m)) => Some(m),
        _ => None,
    }
}

// ---- what a repair guarantees ----

/// What is open after reading a JSON text: a string, a pending backslash, and
/// the brackets to be closed.
#[verifier::ext_equal]
pub ghost struct Pending {
    pub in_str: bool,
    pub esc: bool,
    pub stack: Seq<char>,
}

/// What is open after one more character; none when a bracket closes what is
/// not open.
pub open spec fn pending_after(p: Pending, c: char) -> Option<Pending> {
    if p.in_str {
        Some(
            Pending {
                in_str: p.esc || c != '"',
                esc: !p.esc && c == '\\',
                ..p
            },
        )
    } else if c == '"' {
        Some(Pending { in_str: true, ..p })
    } else if c == '{' {
        Some(Pending { stack: p.stack.push('}'), ..p })
    } else if c == '[' {
        Some(Pending { stack: p.stack.push(']'), ..p })
    } else if c == '}' || c == ']' {
        if p.stack.len() > 0 && p.stack.last() == c {
            Some(Pending { stack: p.stack.drop_last(), ..p })
        } else {
            None
        }
    } else {
        Some(p)
    }
}

/// What is open after reading a text; none when a bracket closed what was not
/// open.
pub open spec fn pending_in(t: Seq<char>) -> Option<Pending>
    decreases t.len(),
{
    if t.len() == 0 {
        Some(Pending { in_str: false, esc: false, stack: Seq::empty() })
    } else {
        match pending_in(t.drop_last()) {
            Some(p) => pending_after(p, t.last()),
            None => None,
        }
    }
}

/// Every string is closed and every bracket is closed by its own kind.
pub open spec fn balanced(t: Seq<char>) -> bool {
    pending_in(t) == Some(Pending { in_str: false, esc: false, stack: Seq::empty() })
}

/// No bare word in the place of a value holds a quote or a backslash.
pub open spec fn plain_words(s: Seq<char>, i: int, st: Repair) -> bool
    decreases s.len() - i,
{
    if i < 0 || i >= s.len() {
        true
    } else if st.in_str {
        plain_words(s, i + 1, in_string(st, s[i]))
    } else if starts_key(st, s[i]) {
        let n = 1 + word_run(s, i + 1, true);
        proof {
            lemma_word_run(s, i + 1, true);
        }
        plain_words(
            s,
            i + n,
            Repair { out: st.out + quoted(s.subrange(i, i + n)), key: false, ..st },
        ) && unquoted(s.subrange(i, i + n))
    } else if starts_val(st, s[i]) {
        let n = 1 + word_run(s, i + 1, false);
        let w = s.subrange(i, i + n);
        proof {
            lemma_word_run(s, i + 1, false);
        }
        unquoted(w) && plain_words(
            s,
            i + n,
            Repair {
                out: st.out + (if keyword(w) {
                    w
                } else {
                    quoted(w)
                }),
                val: false,
                ..st
            },
        )
    } else {
        plain_words(s, i + 1, outside(st, s[i]))
    }
}

/// A word without quotes and backslashes.
pub open spec fn unquoted(w: Seq<char>) -> bool {
    forall|i: int| 0 <= i < w.len() ==> #[trigger] w[i] != '"' && w[i] != '\\'
}

/// The state knows what is open in what has been written.
spec fn in_step(st: Repair) -> bool {
    &&& pending_in(st.out) == Some(
        Pending { in_str: st.in_str, esc: st.esc, stack: st.stack },
    )
    &&& st.esc ==> st.in_str
    &&& forall|i: int| 0 <= i < st.stack.len() ==> #[trigger] st.stack[i] == '}' || st.stack[i] == ']'
}

proof fn lemma_pending_push(t: Seq<char>, c: char)
    ensures
        pending_in(t.push(c)) == (match pending_in(t) {
            Some(p) => pending_after(p, c),
            None => None,
        }),
{
    assert(t.push(c).drop_last() =~= t);
}

proof fn lemma_in_string(st: Repair, c: char)
    requires
        in_step(st),
        st.in_str,
    ensures
        in_step(in_string(st, c)),
{
    lemma_pending_push(st.out, c);
    lemma_pending_push(st.out, '\\');
    lemma_pending_push(st.out.push('\\'), 'n');
    lemma_pending_push(st.out.push('\\'), 'r');
    lemma_pending_push(st.out.push('\\'), 't');
}

proof fn lemma_outside(st: Repair, c: char)
    requires
        in_step(st),
        !st.in_str,
    ensures
        in_step(outside(st, c)),
{
    lemma_pending_push(st.out, c);
    let n = outside(st, c);
    if c == '}' || c == ']' {
        if st.stack.len() > 0 && st.stack.last() == c {
            assert forall|i: int| 0 <= i < n.stack.len() implies #[trigger] n.stack[i] == '}'
                || n.stack[i] == ']' by {
                assert(n.stack[i] == st.stack[i]);
            }
        }
    } else if c == '{' || c == '[' {
        assert forall|i: int| 0 <= i < n.stack.len() implies #[trigger] n.stack[i] == '}'
            || n.stack[i] == ']' by {
            if i < st.stack.len() {
                assert(n.stack[i] == st.stack[i]);
            }
        }
    }
}

/// A word without quotes changes nothing inside a string.
proof fn lemma_word_in_string(t: Seq<char>, w: Seq<char>, p: Pending)
    requires
        pending_in(t) == Some(p),
        p.in_str,
        !p.esc,
        unquoted(w),
    ensures
        pending_in(t + w) == Some(p),
    decreases w.len(),
{
    if w.len() == 0 {
        assert(t + w =~= t);
    } else {
        let u = w.drop_last();
        assert forall|i: int| 0 <= i < u.len() implies #[trigger] u[i] != '"' && u[i] != '\\' by {
            assert(u[i] == w[i]);
        }
        lemma_word_in_string(t, u, p);
        assert(t + w =~= (t + u).push(w.last()));
        lemma_pending_push(t + u, w.last());
        assert(w.last() == w[w.len() - 1]);
        assert(pending_after(p, w.last()) == Some(p));
    }
}

proof fn lemma_quoted(st: Repair, w: Seq<char>)
    requires
        in_step(st),
        !st.in_str,
        unquoted(w),
    ensures
        pending_in(st.out + quoted(w)) == pending_in(st.out),
{
    let p = Pending { in_str: true, esc: false, stack: st.stack };
    lemma_pending_push(st.out, '"');
    let t = st.out.push('"');
    lemma_word_in_string(t, w, p);
    lemma_pending_push(t + w, '"');
    assert(st.out + quoted(w) =~= (t + w).push('"'));
}

/// A keyword has no brackets and quotes.
proof fn lemma_keyword(st: Repair, w: Seq<char>)
    requires
        in_step(st),
        !st.in_str,
        keyword(w),
    ensures
        pending_in(st.out + w) == pending_in(st.out),
{
    reveal_strlit("true");
    reveal_strlit("false");
    reveal_strlit("null");
    lemma_plain(st.out, w);
}

proof fn lemma_plain(t: Seq<char>, w: Seq<char>)
    requires
        pending_in(t) matches Some(p) && !p.in_str,
        forall|i: int|
            0 <= i < w.len() ==> (#[trigger] w[i]) != '"' && w[i] != '{' && w[i] != '[' && w[i]
                != '}' && w[i] != ']',
    ensures
        pending_in(t + w) == pending_in(t),
    decreases w.len(),
{
    if w.len() == 0 {
        assert(t + w =~= t);
    } else {
        let u = w.drop_last();
        assert forall|i: int| 0 <= i < u.len() implies (#[trigger] u[i]) != '"' && u[i] != '{'
            && u[i] != '[' && u[i] != '}' && u[i] != ']' by {
            assert(u[i] == w[i]);
        }
        lemma_plain(t, u);
        assert(t + w =~= (t + u).push(w.last()));
        lemma_pending_push(t + u, w.last());
        assert(w.last() == w[w.len() - 1]);
    }
}

proof fn lemma_repaired(s: Seq<char>, i: int, st: Repair)
    requires
        0 <= i,
        in_step(st),
        plain_words(s, i, st),
    ensures
        in_step(repaired(s, i, st)),
    decreases s.len() - i,
{
    if i < s.len() {
        if st.in_str {
            lemma_in_string(st, s[i]);
            lemma_repaired(s, i + 1, in_string(st, s[i]));
        } else if starts_key(st, s[i]) {
            let n = 1 + word_run(s, i + 1, true);
            lemma_word_run(s, i + 1, true);
            let w = s.subrange(i, i + n);
            lemma_quoted(st, w);
            lemma_repaired(s, i + n, Repair { out: st.out + quoted(w), key: false, ..st });
        } else if starts_val(st, s[i]) {
            let n = 1 + word_run(s, i + 1, false);
            lemma_word_run(s, i + 1, false);
            let w = s.subrange(i, i + n);
            if keyword(w) {
                lemma_keyword(st, w);
            } else {
                lemma_quoted(st, w);
            }
            lemma_repaired(
                s,
                i + n,
                Repair {
                    out: st.out + (if keyword(w) {
                        w
                    } else {
                        quoted(w)
                    }),
                    val: false,
                    ..st
                },
            );
        } else {
            lemma_outside(st, s[i]);
            lemma_repaired(s, i + 1, outside(st, s[i]));
        }
    }
}

/// Closing brackets in the order of the stack empties it.
proof fn lemma_close_stack(t: Seq<char>, stack: Seq<char>)
    requires
        pending_in(t) == Some(Pending { in_str: false, esc: false, stack }),
        forall|i: int| 0 <= i < stack.len() ==> #[trigger] stack[i] == '}' || stack[i] == ']',
    ensures
        balanced(t + stack.reverse()),
    decreases stack.len(),
{
    if stack.len() == 0 {
        assert(t + stack.reverse() =~= t);
        assert(stack =~= Seq::empty());
    } else {
        let c = stack.last();
        let rest = stack.drop_last();
        assert(c == stack[stack.len() - 1]);
        lemma_pending_push(t, c);
        assert forall|i: int| 0 <= i < rest.len() implies #[trigger] rest[i] == '}' || rest[i]
            == ']' by {
            assert(rest[i] == stack[i]);
        }
        lemma_close_stack(t.push(c), rest);
        assert(t + stack.reverse() =~= t.push(c) + rest.reverse());
    }
}

/// A repair closes whatever is still open, so that strings and brackets of its
/// text are balanced. Bare words must not hold quotes or backslashes, and the
/// text must not end in a backslash inside a string: neither is taken apart.
pub proof fn repair_balances(s: Seq<char>)
    requires
        plain_words(s, 0, unrepaired()),
        !repaired(s, 0, unrepaired()).esc,
    ensures
        balanced(closed_up(repaired(s, 0, unrepaired()))),
{
    let st = repaired(s, 0, unrepaired());
    assert(in_step(unrepaired()));
    lemma_repaired(s, 0, unrepaired());
    if st.in_str {
        lemma_pending_push(st.out, '"');
        assert(st.out + seq!['"'] =~= st.out.push('"'));
        lemma_close_stack(st.out.push('"'), st.stack);
    } else {
        assert(st.out + Seq::<char>::empty() =~= st.out);
        lemma_close_stack(st.out, st.stack);
    }
}

} // verus!
