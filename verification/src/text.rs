//! Text building: concatenation and the rendering of numbers.

use vstd::prelude::*;

verus! {

/// `String::push` appends one character to the end of the string.
pub assume_specification[ String::push ](s: &mut String, c: char)
    ensures
        final(s)@ == old(s)@.push(c),
;

/// The character of the digit `d`, in lower case from ten on.
pub open spec fn digit(d: nat) -> char {
    if d < 10 {
        (48 + d) as char
    } else {
        (87 + d) as char
    }
}

/// The digits of `n` in the given base, most significant first.
pub open spec fn digits(n: nat, base: nat) -> Seq<char>
    decreases n,
{
    if base < 2 || n < base {
        seq![digit(n)]
    } else {
        proof {
            assert(n / base < n) by (nonlinear_arith)
                requires
                    n >= base,
                    base >= 2,
            ;
        }
        digits(n / base, base).push(digit(n % base))
    }
}

/// A natural number in decimal.
pub open spec fn dec(n: nat) -> Seq<char> {
    digits(n, 10)
}

/// A natural number in lower-case hexadecimal.
pub open spec fn hex(n: nat) -> Seq<char> {
    digits(n, 16)
}

/// An integer in decimal, with a leading minus sign when negative.
pub open spec fn dec_int(n: int) -> Seq<char> {
    if n < 0 {
        "-"@ + dec((-n) as nat)
    } else {
        dec(n as nat)
    }
}

/// A truth value as its keyword.
pub open spec fn bool_text(b: bool) -> Seq<char> {
    if b {
        "true"@
    } else {
        "false"@
    }
}

/// The items of a list in decimal, separated by a comma and a space.
pub open spec fn dec_items(v: Seq<usize>) -> Seq<char>
    decreases v.len(),
{
    if v.len() == 0 {
        Seq::empty()
    } else if v.len() == 1 {
        dec(v[0] as nat)
    } else {
        dec_items(v.drop_last()) + ", "@ + dec(v.last() as nat)
    }
}

/// A list of sizes in brackets, as in `[2, 3]`.
pub open spec fn dec_list(v: Seq<usize>) -> Seq<char> {
    "["@ + dec_items(v) + "]"@
}

/// The pieces, each after the first preceded by the separator.
pub open spec fn join(parts: Seq<Seq<char>>, sep: Seq<char>) -> Seq<char>
    decreases parts.len(),
{
    if parts.len() == 0 {
        Seq::empty()
    } else if parts.len() == 1 {
        parts[0]
    } else {
        join(parts.drop_last(), sep) + sep + parts.last()
    }
}

/// The views of a list of strings.
pub open spec fn views(v: Seq<String>) -> Seq<Seq<char>> {
    v.map_values(|s: String| s@)
}

/// The views of a list of string slices.
pub open spec fn str_views(v: Seq<&str>) -> Seq<Seq<char>> {
    v.map_values(|s: &str| s@)
}

/// The character of a digit below the base.
fn digit_char(d: u64) -> (c: char)
    requires
        d < 16,
    ensures
        c == digit(d as nat),
{
    if d < 10 {
        (48 + d as u8) as char
    } else {
        (87 + d as u8) as char
    }
}

/// Appends `n` in the given base.
pub fn push_digits(s: &mut String, n: u64, base: u64)
    requires
        2 <= base <= 16,
    ensures
        final(s)@ == old(s)@ + digits(n as nat, base as nat),
    decreases n,
{
    if n >= base {
        assert(n / base < n) by (nonlinear_arith)
            requires
                n >= base,
                base >= 2,
        ;
        push_digits(s, n / base, base);
    } else {
        assert(n % base == n) by (nonlinear_arith)
            requires
                n < base,
        ;
    }
    s.push(digit_char(n % base));
    assert(s@ =~= old(s)@ + digits(n as nat, base as nat));
}

/// `n` in decimal.
pub fn decimal(n: u64) -> (s: String)
    ensures
        s@ == dec(n as nat),
{
    let mut s = String::new();
    push_digits(&mut s, n, 10);
    assert(s@ =~= dec(n as nat));
    s
}

/// `n` in decimal.
pub fn decimal_usize(n: usize) -> (s: String)
    ensures
        s@ == dec(n as nat),
{
    decimal(n as u64)
}

/// `n` in decimal, signed.
pub fn decimal_i64(n: i64) -> (s: String)
    ensures
        s@ == dec_int(n as int),
{
    if n < 0 {
        let mut s = "-".to_owned();
        if n == i64::MIN {
            push_digits(&mut s, 0x8000_0000_0000_0000u64, 10);
        } else {
            push_digits(&mut s, (-n) as u64, 10);
        }
        s
    } else {
        decimal(n as u64)
    }
}

/// `n` in decimal, signed.
pub fn decimal_i32(n: i32) -> (s: String)
    ensures
        s@ == dec_int(n as int),
{
    decimal_i64(n as i64)
}

/// `n` in lower-case hexadecimal.
pub fn hexadecimal(n: u64) -> (s: String)
    ensures
        s@ == hex(n as nat),
{
    let mut s = String::new();
    push_digits(&mut s, n, 16);
    assert(s@ =~= hex(n as nat));
    s
}

/// The keyword of a truth value.
pub fn bool_str(b: bool) -> (s: &'static str)
    ensures
        s@ == bool_text(b),
{
    if b {
        "true"
    } else {
        "false"
    }
}

/// Two pieces in a row.
pub fn cat2(a: &str, b: &str) -> (s: String)
    ensures
        s@ == a@ + b@,
{
    let mut s = a.to_owned();
    s.append(b);
    s
}

/// Three pieces in a row.
pub fn cat3(a: &str, b: &str, c: &str) -> (s: String)
    ensures
        s@ == a@ + b@ + c@,
{
    let mut s = cat2(a, b);
    s.append(c);
    s
}

/// Four pieces in a row.
pub fn cat4(a: &str, b: &str, c: &str, d: &str) -> (s: String)
    ensures
        s@ == a@ + b@ + c@ + d@,
{
    let mut s = cat3(a, b, c);
    s.append(d);
    s
}

/// Five pieces in a row.
pub fn cat5(a: &str, b: &str, c: &str, d: &str, e: &str) -> (s: String)
    ensures
        s@ == a@ + b@ + c@ + d@ + e@,
{
    let mut s = cat4(a, b, c, d);
    s.append(e);
    s
}

/// A list of sizes in brackets.
pub fn size_list(v: &[usize]) -> (s: String)
    ensures
        s@ == dec_list(v@),
{
    let mut s = "[".to_owned();
    let mut i: usize = 0;
    assert(s@ =~= "["@ + dec_items(v@.take(0)));
    while i < v.len()
        invariant
            i <= v.len(),
            s@ == "["@ + dec_items(v@.take(i as int)),
        decreases v.len() - i,
    {
        let ghost before = v@.take(i as int);
        let ghost after = v@.take(i + 1);
        assert(after.drop_last() =~= before);
        if i > 0 {
            s.append(", ");
        }
        let d = decimal_usize(v[i]);
        s.append(&d);
        assert(s@ =~= "["@ + dec_items(after));
        i += 1;
    }
    assert(v@.take(v@.len() as int) =~= v@);
    s.append("]");
    s
}

/// The strings, each after the first preceded by the separator.
pub fn join_strings(v: &Vec<String>, sep: &str) -> (s: String)
    ensures
        s@ == join(views(v@), sep@),
{
    let mut s = String::new();
    let mut i: usize = 0;
    assert(s@ =~= join(views(v@).take(0), sep@));
    while i < v.len()
        invariant
            i <= v.len(),
            s@ == join(views(v@).take(i as int), sep@),
        decreases v.len() - i,
    {
        let ghost after = views(v@).take(i + 1);
        assert(after.drop_last() =~= views(v@).take(i as int));
        if i > 0 {
            s.append(sep);
        }
        s.append(&v[i]);
        assert(s@ =~= join(after, sep@));
        i += 1;
    }
    assert(views(v@).take(v@.len() as int) =~= views(v@));
    s
}

/// The characters of a piece of text.
pub fn chars_of(s: &str) -> (v: Vec<char>)
    ensures
        v@ == s@,
{
    let mut v: Vec<char> = Vec::new();
    for c in it: s.chars()
        invariant
            v@ == s@.take(it.index()),
            it.seq() == s@,
    {
        v.push(c);
        assert(v@ =~= s@.take(it.index() + 1));
    }
    assert(v@ =~= s@);
    v
}

/// The text of some characters.
pub fn string_of(v: &[char]) -> (s: String)
    ensures
        s@ == v@,
{
    let mut s = String::new();
    let mut i: usize = 0;
    while i < v.len()
        invariant
            i <= v.len(),
            s@ == v@.take(i as int),
        decreases v.len() - i,
    {
        s.push(v[i]);
        i += 1;
        assert(s@ =~= v@.take(i as int));
    }
    assert(s@ =~= v@);
    s
}

/// Whether a pattern stands at a place of a text.
pub open spec fn stands_at(s: Seq<char>, pat: Seq<char>, i: int) -> bool {
    0 <= i && i + pat.len() <= s.len() && s.subrange(i, i + pat.len()) == pat
}

/// Whether a pattern stands anywhere in a text.
pub open spec fn occurs(s: Seq<char>, pat: Seq<char>) -> bool {
    exists|i: int| stands_at(s, pat, i)
}

/// The first place of a pattern in a text, from `from` on.
pub open spec fn is_first(s: Seq<char>, pat: Seq<char>, from: int, i: int) -> bool {
    from <= i && stands_at(s, pat, i) && forall|j: int| from <= j < i ==> !stands_at(s, pat, j)
}

/// Whether a pattern stands at a place of a text.
pub fn matches_at(s: &[char], pat: &[char], i: usize) -> (b: bool)
    ensures
        b == stands_at(s@, pat@, i as int),
{
    if pat.len() > s.len() || i > s.len() - pat.len() {
        return false;
    }
    let mut k: usize = 0;
    while k < pat.len()
        invariant
            k <= pat.len(),
            i + pat.len() <= s.len(),
            forall|j: int| 0 <= j < k ==> s@[i + j] == pat@[j],
        decreases pat.len() - k,
    {
        if s[i + k] != pat[k] {
            assert(s@.subrange(i as int, i + pat@.len())[k as int] != pat@[k as int]);
            return false;
        }
        k += 1;
    }
    assert(s@.subrange(i as int, i + pat@.len()) =~= pat@);
    true
}

/// The first place of a pattern in a text, from `from` on.
pub fn find_from(s: &[char], pat: &[char], from: usize) -> (r: Option<usize>)
    requires
        from <= s@.len(),
    ensures
        r matches Some(i) ==> is_first(s@, pat@, from as int, i as int),
        r is None ==> forall|j: int| from <= j ==> !stands_at(s@, pat@, j),
{
    let mut i: usize = from;
    while i < s.len()
        invariant
            from <= i <= s.len(),
            forall|j: int| from <= j < i ==> !stands_at(s@, pat@, j),
        decreases s.len() - i,
    {
        if matches_at(s, pat, i) {
            return Some(i);
        }
        i += 1;
    }
    if matches_at(s, pat, i) {
        return Some(i);
    }
    None
}

/// Whether a pattern stands anywhere in a text.
pub fn contains(s: &[char], pat: &[char]) -> (b: bool)
    ensures
        b == occurs(s@, pat@),
{
    match find_from(s, pat, 0) {
        Some(i) => {
            assert(stands_at(s@, pat@, i as int));
            true
        },
        None => false,
    }
}

/// Whether two pieces of text are equal.
pub fn same_text(a: &str, b: &str) -> (r: bool)
    ensures
        r == (a@ == b@),
{
    let x = a.to_owned();
    let y = b.to_owned();
    x == y
}

} // verus!
