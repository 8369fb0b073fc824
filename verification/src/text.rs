//! Character-level helpers shared by the parser, the lowering pass and the
//! emitter: conversions between `str`/`String` and character vectors, decimal
//! rendering of numbers, and whitespace handling.

use vstd::prelude::*;

verus! {

/// Appends one character to a `String`.
///
/// Trusted: calls `String::push`, whose documentation says it appends the
/// given `char` to the end of the string.
#[verifier::external_body]
pub(crate) fn push_char(s: &mut String, c: char)
    ensures
        final(s)@ == old(s)@.push(c),
{
    s.push(c);
}

/// The characters of a string slice, in order.
pub(crate) fn chars_of(s: &str) -> (v: Vec<char>)
    ensures
        v@ == s@,
{
    broadcast use vstd::string::axiom_spec_iter;
    let mut v: Vec<char> = Vec::new();
    for c in it: s.chars()
        invariant
            v@ == it.seq().take(it.index() as int),
    {
        v.push(c);
    }
    v
}

/// Builds a `String` holding exactly the given characters.
pub(crate) fn string_of(v: &[char]) -> (s: String)
    ensures
        s@ == v@,
{
    let mut s = String::new();
    let mut i: usize = 0;
    while i < v.len()
        invariant
            i <= v@.len(),
            s@ == v@.take(i as int),
        decreases v@.len() - i,
    {
        push_char(&mut s, v[i]);
        assert(v@.take(i + 1) =~= v@.take(i as int).push(v@[i as int]));
        i = i + 1;
    }
    assert(v@.take(v@.len() as int) =~= v@);
    s
}

/// A copy of a string slice as an owned `String`.
pub fn to_owned_string(s: &str) -> (r: String)
    ensures
        r@ == s@,
{
    let mut r = String::new();
    r.append(s);
    r
}

/// A copy of a `String`.
pub fn copy_string(s: &String) -> (r: String)
    ensures
        r@ == s@,
{
    s.clone()
}

/// Whether two strings hold the same characters.
pub fn str_eq(a: &str, b: &str) -> (r: bool)
    ensures
        r == (a@ == b@),
{
    let x = chars_of(a);
    let y = chars_of(b);
    if x.len() != y.len() {
        return false;
    }
    let mut i: usize = 0;
    while i < x.len()
        invariant
            x@ == a@,
            y@ == b@,
            x.len() == y.len(),
            i <= x.len(),
            forall|k: int| 0 <= k < i ==> x@[k] == y@[k],
        decreases x.len() - i,
    {
        if x[i] != y[i] {
            return false;
        }
        i = i + 1;
    }
    assert(x@ =~= y@);
    true
}

/// Whether `s` begins with the character `c`.
pub fn starts_with_char(s: &str, c: char) -> (r: bool)
    ensures
        r == (s@.len() > 0 && s@[0] == c),
{
    let x = chars_of(s);
    x.len() > 0 && x[0] == c
}

/// Whether `c` is whitespace in Unicode's sense (the `White_Space`
/// property, as `char::is_whitespace` has it): tab, line feed, vertical
/// tab, form feed, carriage return, space, U+0085, U+00A0, U+1680,
/// U+2000 to U+200A, U+2028, U+2029, U+202F, U+205F and U+3000.
pub open spec fn is_space(c: char) -> bool {
    ('\t' <= c && c <= '\r') || c == ' ' || c == '\u{85}' || c == '\u{a0}' || c == '\u{1680}'
        || ('\u{2000}' <= c && c <= '\u{200a}') || c == '\u{2028}' || c == '\u{2029}'
        || c == '\u{202f}' || c == '\u{205f}' || c == '\u{3000}'
}

/// Executable form of `is_space`.
pub fn is_space_char(c: char) -> (r: bool)
    ensures
        r == is_space(c),
{
    ('\t' <= c && c <= '\r') || c == ' ' || c == '\u{85}' || c == '\u{a0}' || c == '\u{1680}'
        || ('\u{2000}' <= c && c <= '\u{200a}') || c == '\u{2028}' || c == '\u{2029}'
        || c == '\u{202f}' || c == '\u{205f}' || c == '\u{3000}'
}

/// `s` without its trailing whitespace.
pub open spec fn trim_end_spec(s: Seq<char>) -> Seq<char>
    decreases s.len(),
{
    if s.len() > 0 && is_space(s.last()) {
        trim_end_spec(s.drop_last())
    } else {
        s
    }
}

/// `s` without its trailing whitespace.
pub fn trim_end(s: &String) -> (r: String)
    ensures
        r@ == trim_end_spec(s@),
{
    let v = chars_of(s.as_str());
    let mut n = v.len();
    assert(v@.take(n as int) =~= v@);
    while n > 0 && is_space_char(v[n - 1])
        invariant
            n <= v.len(),
            v@ == s@,
            trim_end_spec(s@) == trim_end_spec(v@.take(n as int)),
        decreases n,
    {
        assert(v@.take(n as int).drop_last() =~= v@.take(n - 1));
        n = n - 1;
    }
    assert(trim_end_spec(v@.take(n as int)) == v@.take(n as int));
    let r = string_of(&v.as_slice()[0..n]);
    r
}

/// The decimal digit character for `d < 10`.
pub open spec fn digit_char(d: nat) -> char {
    (('0' as nat) + d) as char
}

/// The decimal rendering of `n`, most significant digit first, without
/// leading zeros (`0` renders as `"0"`).
pub open spec fn decimal(n: nat) -> Seq<char>
    decreases n,
{
    if n < 10 {
        seq![digit_char(n)]
    } else {
        decimal(n / 10).push(digit_char(n % 10))
    }
}

/// Appends the decimal rendering of `n` to `out`.
pub fn push_decimal(out: &mut String, n: u64)
    ensures
        final(out)@ == old(out)@ + decimal(n as nat),
    decreases n,
{
    if n >= 10 {
        push_decimal(out, n / 10);
    }
    let d: u8 = (n % 10) as u8;
    let c: char = (48u8 + d) as char;
    push_char(out, c);
    assert(c == digit_char((n % 10) as nat));
    if n < 10 {
        assert(decimal(n as nat) =~= seq![c]);
    }
}

/// The decimal rendering of `n` as a new `String`.
pub fn decimal_string(n: u64) -> (r: String)
    ensures
        r@ == decimal(n as nat),
{
    let mut r = String::new();
    push_decimal(&mut r, n);
    assert(r@ =~= decimal(n as nat));
    r
}


/// How many leading characters of `s` are not whitespace.
pub open spec fn token_len(s: Seq<char>) -> nat
    decreases s.len(),
{
    if s.len() == 0 || is_space(s[0]) {
        0
    } else {
        1 + token_len(s.drop_first())
    }
}

/// The whitespace-separated words of `s`, in order.
pub open spec fn ws_words(s: Seq<char>) -> Seq<Seq<char>>
    decreases s.len(),
{
    if s.len() == 0 {
        seq![]
    } else if is_space(s[0]) {
        ws_words(s.drop_first())
    } else {
        let t = token_len(s);
        proof {
            lemma_token_len(s);
        }
        seq![s.take(t as int)] + ws_words(s.skip(t as int))
    }
}

/// A word runs up to the first whitespace character (or the end).
pub proof fn lemma_token_len(s: Seq<char>)
    ensures
        token_len(s) <= s.len(),
        s.len() > 0 && !is_space(s[0]) ==> token_len(s) > 0,
        forall|k: int| 0 <= k < token_len(s) ==> !is_space(#[trigger] s[k]),
        token_len(s) < s.len() ==> is_space(s[token_len(s) as int]),
    decreases s.len(),
{
    if s.len() > 0 && !is_space(s[0]) {
        lemma_token_len(s.drop_first());
        assert forall|k: int| 0 <= k < token_len(s) implies !is_space(#[trigger] s[k]) by {
            if k > 0 {
                assert(s[k] == s.drop_first()[k - 1]);
            }
        }
        if token_len(s) < s.len() {
            assert(s[token_len(s) as int] == s.drop_first()[token_len(s.drop_first()) as int]);
        }
    }
}

/// Whether `t` holds no whitespace character.
pub open spec fn no_space(t: Seq<char>) -> bool {
    forall|i: int| 0 <= i < t.len() ==> !is_space(#[trigger] t[i])
}

/// A word without whitespace, followed by a space, is the first word of
/// the text.
pub proof fn lemma_ws_words_cons(t: Seq<char>, rest: Seq<char>)
    requires
        t.len() > 0,
        no_space(t),
    ensures
        ws_words(t + seq![' '] + rest) == seq![t] + ws_words(rest),
{
    let s = t + seq![' '] + rest;
    lemma_token_len(s);
    assert(s[t.len() as int] == ' ');
    assert forall|k: int| 0 <= k < t.len() implies !is_space(#[trigger] s[k]) by {
        assert(s[k] == t[k]);
    }
    if token_len(s) < t.len() {
        assert(s[token_len(s) as int] == t[token_len(s) as int]);
    }
    assert(token_len(s) == t.len());
    assert(s.take(t.len() as int) =~= t);
    let sp = seq![' '] + rest;
    assert(s.skip(t.len() as int) =~= sp);
    assert(!is_space(s[0]));
    assert(ws_words(s) == seq![s.take(t.len() as int)] + ws_words(s.skip(t.len() as int)));
    assert(sp[0] == ' ');
    assert(sp.drop_first() =~= rest);
    assert(ws_words(sp) == ws_words(sp.drop_first()));
}

/// A word without whitespace is the only word of itself.
pub proof fn lemma_ws_words_one(t: Seq<char>)
    requires
        t.len() > 0,
        no_space(t),
    ensures
        ws_words(t) == seq![t],
{
    lemma_token_len(t);
    if token_len(t) < t.len() {
        assert(!is_space(t[token_len(t) as int]));
    }
    assert(t.take(t.len() as int) =~= t);
    assert(t.skip(t.len() as int) =~= Seq::<char>::empty());
    assert(!is_space(t[0]));
    assert(ws_words(t) == seq![t.take(t.len() as int)] + ws_words(t.skip(t.len() as int)));
    assert(ws_words(Seq::<char>::empty()) == Seq::<Seq<char>>::empty());
    assert(seq![t] + Seq::<Seq<char>>::empty() =~= seq![t]);
}

/// The word `t` at position `k` of `s`, followed by a space, is the first
/// word of the text from `k` on.
pub proof fn lemma_ws_words_at(s: Seq<char>, k: int, t: Seq<char>)
    requires
        0 <= k,
        k + t.len() < s.len(),
        t.len() > 0,
        no_space(t),
        forall|i: int| 0 <= i < t.len() ==> s[k + i] == #[trigger] t[i],
        s[k + t.len()] == ' ',
    ensures
        ws_words(s.skip(k)) == seq![t] + ws_words(s.skip(k + t.len() + 1)),
{
    assert(s.skip(k) =~= t + seq![' '] + s.skip(k + t.len() + 1));
    lemma_ws_words_cons(t, s.skip(k + t.len() + 1));
}

/// The word `t` ending `s` at position `k` is the last word of `s`.
pub proof fn lemma_ws_words_end(s: Seq<char>, k: int, t: Seq<char>)
    requires
        0 <= k,
        k + t.len() == s.len(),
        t.len() > 0,
        no_space(t),
        forall|i: int| 0 <= i < t.len() ==> s[k + i] == #[trigger] t[i],
    ensures
        ws_words(s.skip(k)) == seq![t],
{
    assert(s.skip(k) =~= t);
    lemma_ws_words_one(t);
}

/// The whitespace-separated words of `s`, in order.
pub fn split_ws(s: &str) -> (r: Vec<String>)
    ensures
        r@.len() == ws_words(s@).len(),
        forall|i: int| 0 <= i < r@.len() ==> (#[trigger] r@[i])@ == ws_words(s@)[i],
{
    let cs = chars_of(s);
    let n = cs.len();
    let mut r: Vec<String> = Vec::new();
    let mut i: usize = 0;
    assert(cs@.skip(0) =~= cs@);
    while i < n
        invariant
            n == cs.len(),
            cs@ == s@,
            i <= n,
            r@.len() + ws_words(cs@.skip(i as int)).len() == ws_words(s@).len(),
            forall|k: int| 0 <= k < r@.len() ==> (#[trigger] r@[k])@ == ws_words(s@)[k],
            forall|k: int|
                0 <= k < ws_words(cs@.skip(i as int)).len() ==> ws_words(cs@.skip(i as int))[k]
                    == ws_words(s@)[r@.len() + k],
        decreases n - i,
    {
        let ghost rest = cs@.skip(i as int);
        if is_space_char(cs[i]) {
            assert(rest.drop_first() =~= cs@.skip(i + 1));
            i = i + 1;
        } else {
            let start = i;
            proof {
                lemma_token_len(rest);
            }
            while i < n && !is_space_char(cs[i])
                invariant
                    n == cs.len(),
                    start <= i <= n,
                    rest == cs@.skip(start as int),
                    i - start <= token_len(rest),
                    forall|k: int| 0 <= k < token_len(rest) ==> !is_space(#[trigger] rest[k]),
                    token_len(rest) < rest.len() ==> is_space(rest[token_len(rest) as int]),
                    token_len(rest) <= rest.len(),
                decreases n - i,
            {
                assert(rest[i - start] == cs@[i as int]);
                i = i + 1;
            }
            proof {
                if i < n {
                    assert(rest[i - start] == cs@[i as int]);
                }
                assert(i - start == token_len(rest));
                assert(rest.take(token_len(rest) as int) =~= cs@.subrange(start as int, i as int));
                assert(rest.skip(token_len(rest) as int) =~= cs@.skip(i as int));
            }
            let w = string_of(&cs.as_slice()[start..i]);
            let ghost old_r = r@;
            r.push(w);
            proof {
                assert(ws_words(rest) == seq![cs@.subrange(start as int, i as int)] + ws_words(
                    cs@.skip(i as int),
                ));
                assert forall|k: int| 0 <= k < r@.len() implies (#[trigger] r@[k])@ == ws_words(
                    s@,
                )[k] by {
                    if k == old_r.len() {
                        assert(ws_words(rest)[0] == ws_words(s@)[old_r.len() as int]);
                    }
                }
                assert forall|k: int| 0 <= k < ws_words(cs@.skip(i as int)).len() implies ws_words(
                    cs@.skip(i as int),
                )[k] == ws_words(s@)[r@.len() + k] by {
                    assert(ws_words(cs@.skip(i as int))[k] == ws_words(rest)[k + 1]);
                }
            }
        }
    }
    r
}


pub open spec fn is_digit(c: char) -> bool {
    '0' <= c && c <= '9'
}

pub open spec fn all_digits(s: Seq<char>) -> bool {
    forall|i: int| 0 <= i < s.len() ==> is_digit(#[trigger] s[i])
}

/// The number written by the decimal digits `s`.
pub open spec fn digits_value(s: Seq<char>) -> nat
    decreases s.len(),
{
    if s.len() == 0 {
        0
    } else {
        (digits_value(s.drop_last()) * 10 + (s.last() as nat - '0' as nat)) as nat
    }
}

} // verus!
