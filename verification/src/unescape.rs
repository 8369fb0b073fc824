//! Escape-sequence processing for the three quoting contexts of fish:
//! unquoted text, single-quoted text and double-quoted text.

use vstd::prelude::*;
use crate::text::{chars_of, push_char, string_of};

verus! {

/// Whether `c` is an ASCII hexadecimal digit.
pub open spec fn is_hex_digit(c: char) -> bool {
    ('0' <= c && c <= '9') || ('a' <= c && c <= 'f') || ('A' <= c && c <= 'F')
}

/// Whether `c` is an octal digit.
pub open spec fn is_oct_digit(c: char) -> bool {
    '0' <= c && c <= '7'
}

/// The value of a hexadecimal digit.
pub open spec fn hex_digit_value(c: char) -> nat {
    if '0' <= c && c <= '9' {
        (c as nat - '0' as nat) as nat
    } else if 'a' <= c && c <= 'f' {
        (c as nat - 'a' as nat + 10) as nat
    } else {
        (c as nat - 'A' as nat + 10) as nat
    }
}

/// How many of the leading characters of `s`, at most `max`, are hex digits.
pub open spec fn hex_run(s: Seq<char>, max: nat) -> nat
    decreases max,
{
    if max == 0 || s.len() == 0 || !is_hex_digit(s[0]) {
        0
    } else {
        1 + hex_run(s.drop_first(), (max - 1) as nat)
    }
}

/// How many of the leading characters of `s`, at most `max`, are octal digits.
pub open spec fn oct_run(s: Seq<char>, max: nat) -> nat
    decreases max,
{
    if max == 0 || s.len() == 0 || !is_oct_digit(s[0]) {
        0
    } else {
        1 + oct_run(s.drop_first(), (max - 1) as nat)
    }
}

/// The number written by the hex digits `s`, most significant first.
pub open spec fn hex_value(s: Seq<char>) -> nat
    decreases s.len(),
{
    if s.len() == 0 {
        0
    } else {
        hex_value(s.drop_last()) * 16 + hex_digit_value(s.last())
    }
}

/// The number written by the octal digits `s`, most significant first.
pub open spec fn oct_value(s: Seq<char>) -> nat
    decreases s.len(),
{
    if s.len() == 0 {
        0
    } else {
        (oct_value(s.drop_last()) * 8 + (s.last() as nat - '0' as nat)) as nat
    }
}

/// Whether `v` is a Unicode scalar value, i.e. the code of some `char`.
pub open spec fn is_scalar_value(v: nat) -> bool {
    v < 0xD800 || (0xE000 <= v && v <= 0x10FFFF)
}

/// Whether `c` is an ASCII letter.
pub open spec fn is_ascii_alpha(c: char) -> bool {
    ('a' <= c && c <= 'z') || ('A' <= c && c <= 'Z')
}

/// What a `\u` (up to four digits) or `\U` (up to eight digits) escape stands
/// for: the character with that code when the digits name a scalar value,
/// otherwise the escape letter followed by the digits.
pub open spec fn unicode_escape(letter: char, digits: Seq<char>) -> Seq<char> {
    let v = hex_value(digits);
    if digits.len() > 0 && is_scalar_value(v) {
        seq![v as char]
    } else {
        seq![letter] + digits
    }
}

/// Unquoted escape processing, as fish performs it: `\a \e \f \n \r \t \v`
/// become control characters, `\xHH`/`\XHH` a byte value, `\ooo` an octal
/// byte value (kept as written when above 255), `\uXXXX` and `\UXXXXXXXX` a
/// character, `\cX` the control character of letter `X`, a backslash before
/// a newline disappears with it, and any other escaped character stands for
/// itself. A trailing lone backslash is dropped.
pub open spec fn unescape_spec(s: Seq<char>) -> Seq<char>
    decreases s.len(),
{
    if s.len() == 0 {
        seq![]
    } else if s[0] != '\\' {
        seq![s[0]] + unescape_spec(s.drop_first())
    } else if s.len() == 1 {
        seq![]
    } else {
        let n = s[1];
        let r = s.skip(2);
        if n == 'a' {
            seq!['\x07'] + unescape_spec(r)
        } else if n == 'e' {
            seq!['\x1b'] + unescape_spec(r)
        } else if n == 'f' {
            seq!['\x0c'] + unescape_spec(r)
        } else if n == 'n' {
            seq!['\n'] + unescape_spec(r)
        } else if n == 'r' {
            seq!['\r'] + unescape_spec(r)
        } else if n == 't' {
            seq!['\t'] + unescape_spec(r)
        } else if n == 'v' {
            seq!['\x0b'] + unescape_spec(r)
        } else if n == '\n' {
            unescape_spec(r)
        } else if n == 'x' || n == 'X' {
            let h = hex_run(r, 2);
            proof {
                lemma_hex_run_bounds(r, 2);
            }
            if h > 0 {
                seq![(hex_value(r.take(h as int)) as char)] + unescape_spec(r.skip(h as int))
            } else {
                seq![n] + unescape_spec(r)
            }
        } else if n == 'u' || n == 'U' {
            let h = hex_run(r, if n == 'u' { 4 } else { 8 });
            proof {
                lemma_hex_run_bounds(r, if n == 'u' { 4 } else { 8 });
            }
            unicode_escape(n, r.take(h as int)) + unescape_spec(r.skip(h as int))
        } else if n == 'c' {
            if r.len() > 0 && is_ascii_alpha(r[0]) {
                seq![((r[0] as nat) % 32) as char] + unescape_spec(r.skip(1))
            } else {
                seq![n] + unescape_spec(r)
            }
        } else if is_oct_digit(n) {
            let k = oct_run(r, 2);
            proof {
                lemma_oct_run_bounds(r, 2);
            }
            let digits = seq![n] + r.take(k as int);
            let v = oct_value(digits);
            if v <= 255 {
                seq![(v as char)] + unescape_spec(r.skip(k as int))
            } else {
                digits + unescape_spec(r.skip(k as int))
            }
        } else {
            seq![n] + unescape_spec(r)
        }
    }
}

/// Single-quoted escape processing: only `\'` and `\\` are escapes.
pub open spec fn unescape_single_quoted_spec(s: Seq<char>) -> Seq<char>
    decreases s.len(),
{
    if s.len() == 0 {
        seq![]
    } else if s[0] == '\\' && s.len() >= 2 && (s[1] == '\'' || s[1] == '\\') {
        seq![s[1]] + unescape_single_quoted_spec(s.skip(2))
    } else {
        seq![s[0]] + unescape_single_quoted_spec(s.drop_first())
    }
}

/// Double-quoted escape processing: `\"`, `\$` and `\\` stand for the
/// escaped character, a backslash before a newline disappears with it, and
/// every other backslash is kept as written.
pub open spec fn unescape_double_quoted_spec(s: Seq<char>) -> Seq<char>
    decreases s.len(),
{
    if s.len() == 0 {
        seq![]
    } else if s[0] == '\\' && s.len() >= 2 && (s[1] == '"' || s[1] == '$' || s[1] == '\\') {
        seq![s[1]] + unescape_double_quoted_spec(s.skip(2))
    } else if s[0] == '\\' && s.len() >= 2 && s[1] == '\n' {
        unescape_double_quoted_spec(s.skip(2))
    } else {
        seq![s[0]] + unescape_double_quoted_spec(s.drop_first())
    }
}

fn is_hex_digit_char(c: char) -> (r: bool)
    ensures
        r == is_hex_digit(c),
{
    ('0' <= c && c <= '9') || ('a' <= c && c <= 'f') || ('A' <= c && c <= 'F')
}

fn hex_digit_val(c: char) -> (r: u64)
    requires
        is_hex_digit(c),
    ensures
        r as nat == hex_digit_value(c),
        r < 16,
{
    let v = c as u32;
    if '0' <= c && c <= '9' {
        (v - 48) as u64
    } else if 'a' <= c && c <= 'f' {
        (v - 97 + 10) as u64
    } else {
        (v - 65 + 10) as u64
    }
}

/// `16^n`.
pub open spec fn pow16(n: nat) -> nat
    decreases n,
{
    if n == 0 {
        1
    } else {
        16 * pow16((n - 1) as nat)
    }
}

/// `8^n`.
pub open spec fn pow8(n: nat) -> nat
    decreases n,
{
    if n == 0 {
        1
    } else {
        8 * pow8((n - 1) as nat)
    }
}

/// A run of hex digits is at most `max` long, lies inside `s`, and stops
/// at the first character that is not a hex digit.
pub proof fn lemma_hex_run_bounds(s: Seq<char>, max: nat)
    ensures
        hex_run(s, max) <= max,
        hex_run(s, max) <= s.len(),
        forall|k: int| 0 <= k < hex_run(s, max) ==> is_hex_digit(#[trigger] s[k]),
        hex_run(s, max) < max && hex_run(s, max) < s.len() ==> !is_hex_digit(s[hex_run(s, max) as int]),
    decreases max,
{
    if max == 0 || s.len() == 0 || !is_hex_digit(s[0]) {
    } else {
        lemma_hex_run_bounds(s.drop_first(), (max - 1) as nat);
        assert forall|k: int| 0 <= k < hex_run(s, max) implies is_hex_digit(#[trigger] s[k]) by {
            if k > 0 {
                assert(s[k] == s.drop_first()[k - 1]);
            }
        }
    }
}

/// A run of octal digits is at most `max` long, lies inside `s`, and
/// stops at the first character that is not an octal digit.
pub proof fn lemma_oct_run_bounds(s: Seq<char>, max: nat)
    ensures
        oct_run(s, max) <= max,
        oct_run(s, max) <= s.len(),
        forall|k: int| 0 <= k < oct_run(s, max) ==> is_oct_digit(#[trigger] s[k]),
        oct_run(s, max) < max && oct_run(s, max) < s.len() ==> !is_oct_digit(s[oct_run(s, max) as int]),
    decreases max,
{
    if max == 0 || s.len() == 0 || !is_oct_digit(s[0]) {
    } else {
        lemma_oct_run_bounds(s.drop_first(), (max - 1) as nat);
        assert forall|k: int| 0 <= k < oct_run(s, max) implies is_oct_digit(#[trigger] s[k]) by {
            if k > 0 {
                assert(s[k] == s.drop_first()[k - 1]);
            }
        }
    }
}

/// Counts the hex digits at `cs[start..]`, at most `max`.
fn count_hex(cs: &Vec<char>, start: usize, max: usize) -> (k: usize)
    requires
        start <= cs.len(),
    ensures
        k as nat == hex_run(cs@.subrange(start as int, cs.len() as int), max as nat),
        k <= max,
        start + k <= cs.len(),
{
    let ghost r = cs@.subrange(start as int, cs.len() as int);
    proof {
        lemma_hex_run_bounds(r, max as nat);
    }
    let mut k: usize = 0;
    while k < max && start + k < cs.len() && is_hex_digit_char(cs[start + k])
        invariant
            start <= cs.len(),
            r == cs@.subrange(start as int, cs.len() as int),
            k <= max,
            k <= hex_run(r, max as nat),
            start + k <= cs.len(),
            hex_run(r, max as nat) <= max,
            hex_run(r, max as nat) <= r.len(),
            forall|j: int| 0 <= j < hex_run(r, max as nat) ==> is_hex_digit(#[trigger] r[j]),
            hex_run(r, max as nat) < max && hex_run(r, max as nat) < r.len() ==> !is_hex_digit(
                r[hex_run(r, max as nat) as int],
            ),
        decreases max - k,
    {
        assert(r[k as int] == cs@[start + k]);
        k = k + 1;
    }
    if k < max && start + k < cs.len() {
        assert(r[k as int] == cs@[start + k]);
    }
    k
}

/// Counts the octal digits at `cs[start..]`, at most `max`.
fn count_oct(cs: &Vec<char>, start: usize, max: usize) -> (k: usize)
    requires
        start <= cs.len(),
    ensures
        k as nat == oct_run(cs@.subrange(start as int, cs.len() as int), max as nat),
        k <= max,
        start + k <= cs.len(),
{
    let ghost r = cs@.subrange(start as int, cs.len() as int);
    proof {
        lemma_oct_run_bounds(r, max as nat);
    }
    let mut k: usize = 0;
    while k < max && start + k < cs.len() && '0' <= cs[start + k] && cs[start + k] <= '7'
        invariant
            start <= cs.len(),
            r == cs@.subrange(start as int, cs.len() as int),
            k <= max,
            k <= oct_run(r, max as nat),
            start + k <= cs.len(),
            oct_run(r, max as nat) <= max,
            oct_run(r, max as nat) <= r.len(),
            forall|j: int| 0 <= j < oct_run(r, max as nat) ==> is_oct_digit(#[trigger] r[j]),
            oct_run(r, max as nat) < max && oct_run(r, max as nat) < r.len() ==> !is_oct_digit(
                r[oct_run(r, max as nat) as int],
            ),
        decreases max - k,
    {
        assert(r[k as int] == cs@[start + k]);
        k = k + 1;
    }
    if k < max && start + k < cs.len() {
        assert(r[k as int] == cs@[start + k]);
    }
    k
}

/// The value of the `k <= 8` hex digits at `cs[start..start + k]`.
fn hex_value_of(cs: &Vec<char>, start: usize, k: usize) -> (v: u64)
    requires
        start + k <= cs.len(),
        k <= 8,
        forall|j: int| start <= j < start + k ==> is_hex_digit(#[trigger] cs@[j]),
    ensures
        v as nat == hex_value(cs@.subrange(start as int, start + k)),
        (v as nat) < pow16(k as nat),
{
    let mut v: u64 = 0;
    let mut i: usize = 0;
    assert(pow16(8) == 4294967296) by { reveal_with_fuel(pow16, 9); }
    while i < k
        invariant
            start + k <= cs.len(),
            k <= 8,
            i <= k,
            forall|j: int| start <= j < start + k ==> is_hex_digit(#[trigger] cs@[j]),
            v as nat == hex_value(cs@.subrange(start as int, start + i)),
            (v as nat) < pow16(i as nat),
            pow16(8) == 4294967296,
        decreases k - i,
    {
        let d = hex_digit_val(cs[start + i]);
        proof {
            lemma_pow16_mono(i as nat, 8);
            assert(cs@.subrange(start as int, start + i + 1).drop_last() =~= cs@.subrange(
                start as int,
                start + i,
            ));
            assert(v * 16 + d < pow16((i + 1) as nat)) by (nonlinear_arith)
                requires
                    (v as nat) < pow16(i as nat),
                    d < 16,
                    pow16((i + 1) as nat) == 16 * pow16(i as nat),
            ;
        }
        v = v * 16 + d;
        i = i + 1;
    }
    v
}

proof fn lemma_pow16_mono(a: nat, b: nat)
    requires
        a <= b,
    ensures
        pow16(a) <= pow16(b),
    decreases b,
{
    if a < b {
        lemma_pow16_mono(a, (b - 1) as nat);
    }
}

proof fn lemma_pow8_mono(a: nat, b: nat)
    requires
        a <= b,
    ensures
        pow8(a) <= pow8(b),
    decreases b,
{
    if a < b {
        lemma_pow8_mono(a, (b - 1) as nat);
    }
}

/// The value of the `k <= 3` octal digits at `cs[start..start + k]`.
fn oct_value_of(cs: &Vec<char>, start: usize, k: usize) -> (v: u64)
    requires
        start + k <= cs.len(),
        k <= 3,
        forall|j: int| start <= j < start + k ==> is_oct_digit(#[trigger] cs@[j]),
    ensures
        v as nat == oct_value(cs@.subrange(start as int, start + k)),
        (v as nat) < pow8(k as nat),
{
    let mut v: u64 = 0;
    let mut i: usize = 0;
    assert(pow8(3) == 512) by { reveal_with_fuel(pow8, 4); }
    while i < k
        invariant
            start + k <= cs.len(),
            k <= 3,
            i <= k,
            forall|j: int| start <= j < start + k ==> is_oct_digit(#[trigger] cs@[j]),
            v as nat == oct_value(cs@.subrange(start as int, start + i)),
            (v as nat) < pow8(i as nat),
            pow8(3) == 512,
        decreases k - i,
    {
        let c = cs[start + i];
        let d: u64 = (c as u32 - 48) as u64;
        proof {
            lemma_pow8_mono(i as nat, 3);
            assert(cs@.subrange(start as int, start + i + 1).drop_last() =~= cs@.subrange(
                start as int,
                start + i,
            ));
            assert(v * 8 + d < pow8((i + 1) as nat)) by (nonlinear_arith)
                requires
                    (v as nat) < pow8(i as nat),
                    d < 8,
                    pow8((i + 1) as nat) == 8 * pow8(i as nat),
            ;
        }
        v = v * 8 + d;
        i = i + 1;
    }
    v
}

/// The character with code `v`, when `v` is a Unicode scalar value.
///
/// Trusted: calls `char::from_u32`, documented to return `None` exactly when
/// the value is not a valid `char` (a surrogate or above `0x10FFFF`).
#[verifier::external_body]
fn char_from_u32(v: u32) -> (r: Option<char>)
    ensures
        r == (if is_scalar_value(v as nat) { Some(v as char) } else { None::<char> }),
{
    char::from_u32(v)
}

proof fn lemma_subrange_skip(s: Seq<char>, i: int, k: int)
    requires
        0 <= i,
        0 <= k,
        i + k <= s.len(),
    ensures
        s.subrange(i, s.len() as int).skip(k) =~= s.subrange(i + k, s.len() as int),
        s.subrange(i, s.len() as int).take(k) =~= s.subrange(i, i + k),
{
}

/// Processes the escape that starts with the backslash at `cs[i]`, appending
/// what it stands for to `out`, and returns the index just after it.
fn escape_at(cs: &Vec<char>, i: usize, out: &mut String) -> (j: usize)
    requires
        i + 1 < cs.len(),
        cs@[i as int] == '\\',
    ensures
        i + 2 <= j <= cs.len(),
        final(out)@ + unescape_spec(cs@.subrange(j as int, cs.len() as int)) == old(out)@
            + unescape_spec(cs@.subrange(i as int, cs.len() as int)),
{
    let n = cs.len();
    let ghost rest = cs@.subrange(i as int, n as int);
    let ghost before = out@;
    let next = cs[i + 1];
    let j = i + 2;
    let ghost r = cs@.subrange(j as int, n as int);
    proof {
        lemma_subrange_skip(cs@, i as int, 2);
        assert(rest[0] == '\\');
        assert(rest[1] == next);
        assert(rest.skip(2) == r);
    }
    if next == 'x' || next == 'X' {
        escape_hex(cs, i, out)
    } else if next == 'u' || next == 'U' {
        escape_unicode(cs, i, out)
    } else if next == 'c' {
        escape_ctrl(cs, i, out)
    } else if '0' <= next && next <= '7' {
        escape_octal(cs, i, out)
    } else if next == '\n' {
        proof {
            assert(unescape_spec(rest) == unescape_spec(r));
        }
        j
    } else {
        let o = if next == 'a' {
            '\x07'
        } else if next == 'e' {
            '\x1b'
        } else if next == 'f' {
            '\x0c'
        } else if next == 'n' {
            '\n'
        } else if next == 'r' {
            '\r'
        } else if next == 't' {
            '\t'
        } else if next == 'v' {
            '\x0b'
        } else {
            next
        };
        push_char(out, o);
        proof {
            assert(unescape_spec(rest) == seq![o] + unescape_spec(r));
            assert(out@ + unescape_spec(r) =~= before + unescape_spec(rest));
        }
        j
    }
}

fn escape_hex(cs: &Vec<char>, i: usize, out: &mut String) -> (j: usize)
    requires
        i + 1 < cs.len(),
        cs@[i as int] == '\\',
        cs@[i + 1] == 'x' || cs@[i + 1] == 'X',
    ensures
        i + 2 <= j <= cs.len(),
        final(out)@ + unescape_spec(cs@.subrange(j as int, cs.len() as int)) == old(out)@
            + unescape_spec(cs@.subrange(i as int, cs.len() as int)),
{
    let n = cs.len();
    let ghost rest = cs@.subrange(i as int, n as int);
    let ghost before = out@;
    let next = cs[i + 1];
    let j = i + 2;
    let ghost r = cs@.subrange(j as int, n as int);
    proof {
        lemma_subrange_skip(cs@, i as int, 2);
        assert(rest[0] == '\\');
        assert(rest[1] == next);
        assert(rest.skip(2) == r);
    }
    let h = count_hex(cs, j, 2);
    proof {
        lemma_hex_run_bounds(r, 2);
    }
    if h > 0 {
        proof {
            assert forall|q: int| j <= q < j + h implies is_hex_digit(#[trigger] cs@[q]) by {
                assert(cs@[q] == r[q - j]);
            }
        }
        let v = hex_value_of(cs, j, h);
        proof {
            assert(pow16(2) == 256) by { reveal_with_fuel(pow16, 3); }
            lemma_pow16_mono(h as nat, 2);
            lemma_subrange_skip(cs@, j as int, h as int);
        }
        let b: u8 = v as u8;
        let o: char = b as char;
        push_char(out, o);
        proof {
            assert(r.take(h as int) =~= cs@.subrange(j as int, j + h));
            assert(unescape_spec(rest) == seq![o] + unescape_spec(r.skip(h as int)));
            assert(out@ + unescape_spec(cs@.subrange(j + h, n as int)) =~= before + unescape_spec(rest));
        }
        j + h
    } else {
        push_char(out, next);
        proof {
            assert(unescape_spec(rest) == seq![next] + unescape_spec(r));
            assert(out@ + unescape_spec(r) =~= before + unescape_spec(rest));
        }
        j
    }
}

fn escape_unicode(cs: &Vec<char>, i: usize, out: &mut String) -> (j: usize)
    requires
        i + 1 < cs.len(),
        cs@[i as int] == '\\',
        cs@[i + 1] == 'u' || cs@[i + 1] == 'U',
    ensures
        i + 2 <= j <= cs.len(),
        final(out)@ + unescape_spec(cs@.subrange(j as int, cs.len() as int)) == old(out)@
            + unescape_spec(cs@.subrange(i as int, cs.len() as int)),
{
    let n = cs.len();
    let ghost rest = cs@.subrange(i as int, n as int);
    let ghost before = out@;
    let next = cs[i + 1];
    let j = i + 2;
    let ghost r = cs@.subrange(j as int, n as int);
    proof {
        lemma_subrange_skip(cs@, i as int, 2);
        assert(rest[0] == '\\');
        assert(rest[1] == next);
        assert(rest.skip(2) == r);
    }
    let max: usize = if next == 'u' { 4 } else { 8 };
    let h = count_hex(cs, j, max);
    proof {
        lemma_hex_run_bounds(r, max as nat);
        assert forall|q: int| j <= q < j + h implies is_hex_digit(#[trigger] cs@[q]) by {
            assert(cs@[q] == r[q - j]);
        }
        lemma_subrange_skip(cs@, j as int, h as int);
        assert(r.take(h as int) =~= cs@.subrange(j as int, j + h));
    }
    let v = hex_value_of(cs, j, h);
    proof {
        assert(pow16(8) == 4294967296) by { reveal_with_fuel(pow16, 9); }
        lemma_pow16_mono(h as nat, 8);
    }
    let conv = if h > 0 { char_from_u32(v as u32) } else { None };
    match conv {
        Some(o) => {
            push_char(out, o);
            proof {
                assert(unicode_escape(next, r.take(h as int)) =~= seq![o]);
            }
        },
        None => {
            push_char(out, next);
            let mut q: usize = j;
            while q < j + h
                invariant
                    j <= q <= j + h,
                    j + h <= n,
                    n == cs.len(),
                    out@ == before.push(next) + cs@.subrange(j as int, q as int),
                decreases j + h - q,
            {
                push_char(out, cs[q]);
                proof {
                    assert(cs@.subrange(j as int, q + 1) =~= cs@.subrange(j as int, q as int).push(
                        cs@[q as int],
                    ));
                }
                q = q + 1;
            }
            proof {
                assert(unicode_escape(next, r.take(h as int)) =~= seq![next] + cs@.subrange(
                    j as int,
                    j + h,
                ));
            }
        },
    }
    proof {
        assert(unescape_spec(rest) == unicode_escape(next, r.take(h as int)) + unescape_spec(
            r.skip(h as int),
        ));
        assert(out@ + unescape_spec(cs@.subrange(j + h, n as int)) =~= before + unescape_spec(rest));
    }
    j + h
}

fn escape_ctrl(cs: &Vec<char>, i: usize, out: &mut String) -> (j: usize)
    requires
        i + 1 < cs.len(),
        cs@[i as int] == '\\',
        cs@[i + 1] == 'c',
    ensures
        i + 2 <= j <= cs.len(),
        final(out)@ + unescape_spec(cs@.subrange(j as int, cs.len() as int)) == old(out)@
            + unescape_spec(cs@.subrange(i as int, cs.len() as int)),
{
    let n = cs.len();
    let ghost rest = cs@.subrange(i as int, n as int);
    let ghost before = out@;
    let next = cs[i + 1];
    let j = i + 2;
    let ghost r = cs@.subrange(j as int, n as int);
    proof {
        lemma_subrange_skip(cs@, i as int, 2);
        assert(rest[0] == '\\');
        assert(rest[1] == next);
        assert(rest.skip(2) == r);
    }
    if j < n && (('a' <= cs[j] && cs[j] <= 'z') || ('A' <= cs[j] && cs[j] <= 'Z')) {
        let ch = cs[j];
        let code: u32 = ch as u32;
        let b: u8 = (code % 32) as u8;
        let o: char = b as char;
        push_char(out, o);
        proof {
            lemma_subrange_skip(cs@, j as int, 1);
            assert(r[0] == ch);
            assert(unescape_spec(rest) == seq![o] + unescape_spec(r.skip(1)));
            assert(out@ + unescape_spec(cs@.subrange(j + 1, n as int)) =~= before + unescape_spec(
                rest,
            ));
        }
        j + 1
    } else {
        push_char(out, next);
        proof {
            if j < n {
                assert(r[0] == cs@[j as int]);
            }
            assert(unescape_spec(rest) == seq![next] + unescape_spec(r));
            assert(out@ + unescape_spec(r) =~= before + unescape_spec(rest));
        }
        j
    }
}

fn escape_octal(cs: &Vec<char>, i: usize, out: &mut String) -> (j: usize)
    requires
        i + 1 < cs.len(),
        cs@[i as int] == '\\',
        is_oct_digit(cs@[i + 1]),
    ensures
        i + 2 <= j <= cs.len(),
        final(out)@ + unescape_spec(cs@.subrange(j as int, cs.len() as int)) == old(out)@
            + unescape_spec(cs@.subrange(i as int, cs.len() as int)),
{
    let n = cs.len();
    let ghost rest = cs@.subrange(i as int, n as int);
    let ghost before = out@;
    let next = cs[i + 1];
    let j = i + 2;
    let ghost r = cs@.subrange(j as int, n as int);
    proof {
        lemma_subrange_skip(cs@, i as int, 2);
        assert(rest[0] == '\\');
        assert(rest[1] == next);
        assert(rest.skip(2) == r);
    }
    let k = count_oct(cs, j, 2);
    proof {
        lemma_oct_run_bounds(r, 2);
        assert forall|q: int| (i + 1) <= q < j + k implies is_oct_digit(#[trigger] cs@[q]) by {
            if q > i + 1 {
                assert(cs@[q] == r[q - j]);
            }
        }
        lemma_subrange_skip(cs@, j as int, k as int);
        assert(seq![next] + r.take(k as int) =~= cs@.subrange(i + 1, j + k));
    }
    let v = oct_value_of(cs, i + 1, k + 1);
    if v <= 255 {
        let b: u8 = v as u8;
        let o: char = b as char;
        push_char(out, o);
        proof {
            assert(unescape_spec(rest) == seq![o] + unescape_spec(r.skip(k as int)));
            assert(out@ + unescape_spec(cs@.subrange(j + k, n as int)) =~= before + unescape_spec(
                rest,
            ));
        }
    } else {
        let mut q: usize = i + 1;
        while q < j + k
            invariant
                i + 1 <= q <= j + k,
                j == i + 2,
                j + k <= n,
                n == cs.len(),
                out@ == before + cs@.subrange(i + 1, q as int),
            decreases j + k - q,
        {
            push_char(out, cs[q]);
            proof {
                assert(cs@.subrange(i + 1, q + 1) =~= cs@.subrange(i + 1, q as int).push(
                    cs@[q as int],
                ));
            }
            q = q + 1;
        }
        proof {
            assert(unescape_spec(rest) == cs@.subrange(i + 1, j + k) + unescape_spec(
                r.skip(k as int),
            ));
            assert(out@ + unescape_spec(cs@.subrange(j + k, n as int)) =~= before + unescape_spec(
                rest,
            ));
        }
    }
    j + k
}

/// Unquoted escape processing (see `unescape_spec`).
pub fn unescape(s: &str) -> (out: String)
    ensures
        out@ == unescape_spec(s@),
{
    let cs = chars_of(s);
    let n = cs.len();
    let mut out = String::new();
    let mut i: usize = 0;
    assert(cs@.subrange(0, n as int) =~= cs@);
    while i < n
        invariant
            n == cs.len(),
            cs@ == s@,
            i <= n,
            out@ + unescape_spec(cs@.subrange(i as int, n as int)) == unescape_spec(s@),
        decreases n - i,
    {
        let ghost rest = cs@.subrange(i as int, n as int);
        let ghost before = out@;
        let c = cs[i];
        if c != '\\' {
            push_char(&mut out, c);
            proof {
                lemma_subrange_skip(cs@, i as int, 1);
                assert(rest.drop_first() =~= cs@.subrange(i + 1, n as int));
                assert(unescape_spec(rest) == seq![c] + unescape_spec(rest.drop_first()));
                assert(out@ + unescape_spec(cs@.subrange(i + 1, n as int)) =~= before
                    + unescape_spec(rest));
            }
            i = i + 1;
        } else if i + 1 == n {
            proof {
                assert(rest.len() == 1);
                assert(out@ + unescape_spec(cs@.subrange(n as int, n as int)) =~= before
                    + unescape_spec(rest));
            }
            i = i + 1;
        } else {
            i = escape_at(&cs, i, &mut out);
        }
    }
    proof {
        assert(unescape_spec(cs@.subrange(n as int, n as int)) =~= Seq::<char>::empty());
        assert(out@ =~= unescape_spec(s@));
    }
    out
}

/// Single-quoted escape processing (see `unescape_single_quoted_spec`).
pub fn unescape_single_quoted(s: &str) -> (out: String)
    ensures
        out@ == unescape_single_quoted_spec(s@),
{
    let cs = chars_of(s);
    let n = cs.len();
    let mut out = String::new();
    let mut i: usize = 0;
    assert(cs@.subrange(0, n as int) =~= cs@);
    while i < n
        invariant
            n == cs.len(),
            cs@ == s@,
            i <= n,
            out@ + unescape_single_quoted_spec(cs@.subrange(i as int, n as int))
                == unescape_single_quoted_spec(s@),
        decreases n - i,
    {
        let ghost rest = cs@.subrange(i as int, n as int);
        let ghost before = out@;
        let c = cs[i];
        proof {
            lemma_subrange_skip(cs@, i as int, 1);
        }
        if c == '\\' && i + 1 < n && (cs[i + 1] == '\'' || cs[i + 1] == '\\') {
            let e = cs[i + 1];
            push_char(&mut out, e);
            proof {
                lemma_subrange_skip(cs@, i as int, 2);
                assert(rest[1] == e);
                assert(unescape_single_quoted_spec(rest) == seq![e] + unescape_single_quoted_spec(
                    cs@.subrange(i + 2, n as int),
                ));
                assert(out@ + unescape_single_quoted_spec(cs@.subrange(i + 2, n as int)) =~= before
                    + unescape_single_quoted_spec(rest));
            }
            i = i + 2;
        } else {
            push_char(&mut out, c);
            proof {
                if i + 1 < n {
                    assert(rest[1] == cs@[i + 1]);
                }
                assert(rest.drop_first() =~= cs@.subrange(i + 1, n as int));
                assert(unescape_single_quoted_spec(rest) == seq![c] + unescape_single_quoted_spec(
                    rest.drop_first(),
                ));
                assert(out@ + unescape_single_quoted_spec(cs@.subrange(i + 1, n as int)) =~= before
                    + unescape_single_quoted_spec(rest));
            }
            i = i + 1;
        }
    }
    proof {
        assert(unescape_single_quoted_spec(cs@.subrange(n as int, n as int)) =~= Seq::<
            char,
        >::empty());
        assert(out@ =~= unescape_single_quoted_spec(s@));
    }
    out
}

/// Double-quoted escape processing (see `unescape_double_quoted_spec`).
pub fn unescape_double_quoted(s: &str) -> (out: String)
    ensures
        out@ == unescape_double_quoted_spec(s@),
{
    let cs = chars_of(s);
    let n = cs.len();
    let mut out = String::new();
    let mut i: usize = 0;
    assert(cs@.subrange(0, n as int) =~= cs@);
    while i < n
        invariant
            n == cs.len(),
            cs@ == s@,
            i <= n,
            out@ + unescape_double_quoted_spec(cs@.subrange(i as int, n as int))
                == unescape_double_quoted_spec(s@),
        decreases n - i,
    {
        let ghost rest = cs@.subrange(i as int, n as int);
        let ghost before = out@;
        let c = cs[i];
        proof {
            lemma_subrange_skip(cs@, i as int, 1);
            if i + 1 < n {
                lemma_subrange_skip(cs@, i as int, 2);
                assert(rest[1] == cs@[i + 1]);
            }
        }
        if c == '\\' && i + 1 < n && (cs[i + 1] == '"' || cs[i + 1] == '$' || cs[i + 1] == '\\') {
            let e = cs[i + 1];
            push_char(&mut out, e);
            proof {
                assert(unescape_double_quoted_spec(rest) == seq![e] + unescape_double_quoted_spec(
                    cs@.subrange(i + 2, n as int),
                ));
                assert(out@ + unescape_double_quoted_spec(cs@.subrange(i + 2, n as int)) =~= before
                    + unescape_double_quoted_spec(rest));
            }
            i = i + 2;
        } else if c == '\\' && i + 1 < n && cs[i + 1] == '\n' {
            proof {
                assert(unescape_double_quoted_spec(rest) == unescape_double_quoted_spec(
                    cs@.subrange(i + 2, n as int),
                ));
            }
            i = i + 2;
        } else {
            push_char(&mut out, c);
            proof {
                assert(rest.drop_first() =~= cs@.subrange(i + 1, n as int));
                assert(unescape_double_quoted_spec(rest) == seq![c] + unescape_double_quoted_spec(
                    rest.drop_first(),
                ));
                assert(out@ + unescape_double_quoted_spec(cs@.subrange(i + 1, n as int)) =~= before
                    + unescape_double_quoted_spec(rest));
            }
            i = i + 1;
        }
    }
    proof {
        assert(unescape_double_quoted_spec(cs@.subrange(n as int, n as int)) =~= Seq::<
            char,
        >::empty());
        assert(out@ =~= unescape_double_quoted_spec(s@));
    }
    out
}

/// Text without any backslash is left unchanged by all three forms of
/// escape processing.
pub proof fn lemma_unescape_identity_without_backslash(s: Seq<char>)
    requires
        !s.contains('\\'),
    ensures
        unescape_spec(s) == s,
        unescape_single_quoted_spec(s) == s,
        unescape_double_quoted_spec(s) == s,
    decreases s.len(),
{
    if s.len() > 0 {
        assert(s[0] != '\\') by {
            assert(s.contains(s[0]));
        }
        assert(!s.drop_first().contains('\\')) by {
            if s.drop_first().contains('\\') {
                let k = choose|k: int| 0 <= k < s.drop_first().len() && s.drop_first()[k] == '\\';
                assert(s[k + 1] == '\\');
            }
        }
        lemma_unescape_identity_without_backslash(s.drop_first());
        assert(seq![s[0]] + s.drop_first() =~= s);
    }
}

/// A backslash followed by any character outside the escape alphabet stands
/// for that character in unquoted text.
pub proof fn lemma_unescape_plain_escape(c: char, rest: Seq<char>)
    requires
        !(c == 'a' || c == 'e' || c == 'f' || c == 'n' || c == 'r' || c == 't' || c == 'v'
            || c == '\n' || c == 'x' || c == 'X' || c == 'u' || c == 'U' || c == 'c'
            || is_oct_digit(c)),
    ensures
        unescape_spec(seq!['\\', c] + rest) == seq![c] + unescape_spec(rest),
{
    let s = seq!['\\', c] + rest;
    assert(s[0] == '\\');
    assert(s[1] == c);
    assert(s.skip(2) =~= rest);
}

} // verus!
