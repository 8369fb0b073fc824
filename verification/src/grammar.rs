//! The fish grammar: a parser from script text to the syntax tree.
//!
//! The grammar is a parsing expression grammar: alternatives are tried in
//! order and the first that matches wins, repetitions are greedy, and a
//! failed sequence consumes nothing. Positions count characters.

pub mod statements;
pub mod syntax;
pub mod tree;

use vstd::prelude::*;
use crate::grammar::syntax::{is_ident_start, is_keyword_char, is_literal_stop, is_ws};
use crate::ast::{
    BeginBlock, CaseClause, Combinator, Command, ForStatement, FunctionStatement, IfStatement,
    PipeOperator, Pipeline, PipelineElement, Program, RedirectMode, Redirection, Slice, SliceIndex,
    SourceSpan, Statement, StatementKind, SwitchStatement, VariableAssignment, VariableRef,
    VariableTarget, WhileStatement, Word, WordPart,
};
use crate::text::{chars_of, digits_value, is_digit, str_eq, string_of, to_owned_string};
use crate::unescape::{
    unescape, unescape_double_quoted, unescape_double_quoted_spec, unescape_single_quoted,
    unescape_single_quoted_spec, unescape_spec,
};

verus! {

/// Where and why a script failed to parse: the furthest position at which
/// any rule failed (1-based line and column, 0-based character offset) and
/// the tokens that were expected there.
#[derive(Debug, Clone, PartialEq, Eq)]
pub struct ParseError {
    pub line: usize,
    pub column: usize,
    pub offset: usize,
    pub expected: Vec<String>,
}

/// The expected tokens as a phrase: the one token quoted, or `one of`
/// followed by the quoted tokens separated by `, `.
pub open spec fn expected_phrase(tokens: Seq<Seq<char>>) -> Seq<char> {
    if tokens.len() == 1 {
        quote(tokens[0])
    } else {
        "one of "@ + quoted_list(tokens)
    }
}

pub open spec fn quote(t: Seq<char>) -> Seq<char> {
    "\""@ + t + "\""@
}

pub open spec fn quoted_list(tokens: Seq<Seq<char>>) -> Seq<char>
    decreases tokens.len(),
{
    if tokens.len() == 0 {
        seq![]
    } else if tokens.len() == 1 {
        quote(tokens[0])
    } else {
        quoted_list(tokens.drop_last()) + ", "@ + quote(tokens.last())
    }
}

pub open spec fn strings_view(v: Seq<String>) -> Seq<Seq<char>> {
    v.map_values(|t: String| t@)
}

impl ParseError {
    /// What was expected where parsing stopped (see `expected_phrase`).
    pub fn expected_text(&self) -> (r: String)
        ensures
            r@ == expected_phrase(strings_view(self.expected@)),
    {
        let n = self.expected.len();
        let mut out = String::new();
        if n != 1 {
            out.append("one of ");
        }
        let ghost o0 = out@;
        let mut k: usize = 0;
        while k < n
            invariant
                n == self.expected@.len(),
                k <= n,
                out@ == o0 + quoted_list(strings_view(self.expected@).take(k as int)),
            decreases n - k,
        {
            proof {
                assert(strings_view(self.expected@).take(k + 1).drop_last() =~= strings_view(
                    self.expected@,
                ).take(k as int));
            }
            if k > 0 {
                out.append(", ");
            }
            out.append("\"");
            out.append(self.expected[k].as_str());
            out.append("\"");
            k = k + 1;
        }
        proof {
            assert(strings_view(self.expected@).take(n as int) =~= strings_view(self.expected@));
            if n == 1 {
                assert(o0 =~= Seq::<char>::empty());
            }
        }
        out
    }
}

/// The number of line breaks in `s`.
pub open spec fn newlines(s: Seq<char>) -> nat
    decreases s.len(),
{
    if s.len() == 0 {
        0
    } else {
        newlines(s.drop_last()) + if s.last() == '\n' {
            1nat
        } else {
            0nat
        }
    }
}

/// The 1-based line of the character at position `i`.
pub open spec fn line_of(s: Seq<char>, i: int) -> nat {
    newlines(s.take(i)) + 1
}

/// The position just after the last line break before `i` (0 on the first line).
pub open spec fn line_start(s: Seq<char>, i: int) -> int
    decreases i,
{
    if i <= 0 {
        0
    } else if s[i - 1] == '\n' {
        i
    } else {
        line_start(s, i - 1)
    }
}

/// The input and, for each position, its line.
struct Ctx {
    s: Vec<char>,
    lines: Vec<usize>,
}

impl Ctx {
    spec fn wf(&self) -> bool {
        &&& self.s@.len() < usize::MAX
        &&& self.lines@.len() == self.s@.len() + 1
        &&& forall|i: int| 0 <= i <= self.s@.len() ==> self.lines@[i] == line_of(self.s@, i)
    }
}

proof fn lemma_newlines_bound(s: Seq<char>)
    ensures
        newlines(s) <= s.len(),
    decreases s.len(),
{
    if s.len() > 0 {
        lemma_newlines_bound(s.drop_last());
    }
}

fn make_ctx(s: Vec<char>) -> (cx: Ctx)
    requires
        s@.len() < usize::MAX,
    ensures
        cx.wf(),
        cx.s@ == s@,
{
    let mut lines: Vec<usize> = Vec::new();
    let mut cur: usize = 1;
    let mut i: usize = 0;
    proof {
        assert(s@.take(0) =~= Seq::<char>::empty());
    }
    while i < s.len()
        invariant
            i <= s@.len() < usize::MAX,
            lines@.len() == i,
            cur == line_of(s@, i as int),
            forall|k: int| 0 <= k < i ==> lines@[k] == line_of(s@, k),
        decreases s@.len() - i,
    {
        lines.push(cur);
        proof {
            assert(s@.take(i + 1).drop_last() =~= s@.take(i as int));
            lemma_newlines_bound(s@.take(i as int));
        }
        if s[i] == '\n' {
            cur = cur + 1;
        }
        i = i + 1;
    }
    lines.push(cur);
    Ctx { s, lines }
}

/// The tokens expected at the furthest position where matching failed.
struct Furthest {
    pos: usize,
    expected: Vec<&'static str>,
}

/// Whether a token with the text of `what` is among `expected`.
spec fn noted(expected: Seq<&'static str>, what: &str) -> bool {
    exists|k: int| 0 <= k < expected.len() && (#[trigger] expected[k])@ == what@
}

/// Notes that `what` was expected at `pos`: a position further than any
/// before starts the list afresh, the same position adds `what` unless it
/// is already listed, and a position before it changes nothing.
fn expect(f: &mut Furthest, pos: usize, what: &'static str)
    ensures
        pos > old(f).pos ==> final(f).pos == pos && final(f).expected@ == seq![what],
        pos == old(f).pos ==> final(f).pos == pos && final(f).expected@ == if noted(
            old(f).expected@,
            what,
        ) {
            old(f).expected@
        } else {
            old(f).expected@.push(what)
        },
        pos < old(f).pos ==> final(f).pos == old(f).pos && final(f).expected@ == old(
            f,
        ).expected@,
{
    if pos > f.pos {
        f.pos = pos;
        f.expected = Vec::new();
        f.expected.push(what);
    } else if pos == f.pos {
        let mut k: usize = 0;
        let mut seen = false;
        while k < f.expected.len()
            invariant
                k <= f.expected@.len(),
                seen <==> exists|j: int| 0 <= j < k && (#[trigger] f.expected@[j])@ == what@,
            decreases f.expected@.len() - k,
        {
            if str_eq(f.expected[k], what) {
                seen = true;
            }
            k = k + 1;
        }
        if !seen {
            f.expected.push(what);
        }
    }
}

/// Whether the characters of `t` occur in `s` at `pos`.
fn starts_at(s: &Vec<char>, pos: usize, t: &str) -> (r: bool)
    requires
        pos <= s@.len(),
    ensures
        r == (pos + t@.len() <= s@.len() && s@.subrange(pos as int, pos + t@.len()) == t@),
{
    let n = t.unicode_len();
    let len = s.len();
    if n > len - pos {
        return false;
    }
    let mut i: usize = 0;
    while i < n
        invariant
            n == t@.len(),
            len == s@.len(),
            pos + n <= s@.len(),
            i <= n,
            forall|k: int| 0 <= k < i ==> s@[pos + k] == t@[k],
        decreases n - i,
    {
        if s[pos + i] != t.get_char(i) {
            return false;
        }
        i = i + 1;
    }
    assert(s@.subrange(pos as int, pos + t@.len()) =~= t@);
    true
}

/// Matches the (non-empty) literal `t` at `pos`, giving the position after it.
fn lit(cx: &Ctx, pos: usize, t: &'static str, f: &mut Furthest) -> (r: Option<usize>)
    requires
        pos <= cx.s@.len(),
    ensures
        final(f).pos >= old(f).pos,
        opt_int(r) == syntax::lit(cx.s@, pos as int, t@),
        r matches Some(e) ==> pos < e <= cx.s@.len(),
{
    let len = cx.s.len();
    if t.unicode_len() > 0 && starts_at(&cx.s, pos, t) {
        Some(pos + t.unicode_len())
    } else {
        expect(f, pos, t);
        None
    }
}

/// A position as an integer, when there is one.
pub open spec fn opt_int(o: Option<usize>) -> Option<int> {
    match o {
        Some(e) => Some(e as int),
        None => None,
    }
}

/// Where a parse result ends, when there is one.
pub open spec fn end_of<T>(r: Option<(T, usize)>) -> Option<int> {
    match r {
        Some((_, e)) => Some(e as int),
        None => None,
    }
}

fn ws_char(c: char) -> (r: bool)
    ensures
        r == is_ws(c),
{
    c == ' ' || c == '\t'
}

fn keyword_char(c: char) -> (r: bool)
    ensures
        r == is_keyword_char(c),
{
    ('a' <= c && c <= 'z') || ('A' <= c && c <= 'Z') || ('0' <= c && c <= '9') || c == '_'
}

fn ident_start(c: char) -> (r: bool)
    ensures
        r == is_ident_start(c),
{
    ('a' <= c && c <= 'z') || ('A' <= c && c <= 'Z') || c == '_'
}

fn digit(c: char) -> (r: bool)
    ensures
        r == is_digit(c),
{
    '0' <= c && c <= '9'
}

fn literal_stop(c: char) -> (r: bool)
    ensures
        r == is_literal_stop(c),
{
    c == ' ' || c == '\t' || c == '\n' || c == ';' || c == '|' || c == '&' || c == '<' || c == '>'
        || c == '^' || c == '(' || c == ')' || c == '{' || c == '}' || c == '$' || c == '\''
        || c == '"' || c == '#'
}

fn separating(c: char) -> (r: bool)
    ensures
        r == syntax::is_separating(c),
{
    c == ' ' || c == '\t' || c == '\n' || c == ';' || c == '<' || c == '>' || c == '&' || c == '|'
}

/// Whether the character at `pos` exists and is `c`.
fn at(cx: &Ctx, pos: usize, c: char) -> (r: bool)
    ensures
        r == syntax::at(cx.s@, pos as int, c),
{
    pos < cx.s.len() && cx.s[pos] == c
}

/// `_*`: spaces and tabs.
fn skip_ws(cx: &Ctx, pos: usize) -> (r: usize)
    requires
        pos <= cx.s@.len(),
    ensures
        pos <= r <= cx.s@.len(),
        r == syntax::skip_ws(cx.s@, pos as int),
{
    let mut p = pos;
    while p < cx.s.len() && ws_char(cx.s[p])
        invariant
            pos <= p <= cx.s@.len(),
            syntax::skip_ws(cx.s@, pos as int) == syntax::skip_ws(cx.s@, p as int),
        decreases cx.s@.len() - p,
    {
        p = p + 1;
    }
    p
}

/// `_+`: at least one space or tab.
fn ws1(cx: &Ctx, pos: usize, f: &mut Furthest) -> (r: Option<usize>)
    requires
        pos <= cx.s@.len(),
    ensures
        final(f).pos >= old(f).pos,
        opt_int(r) == syntax::ws1(cx.s@, pos as int),
        r matches Some(e) ==> pos < e <= cx.s@.len(),
{
    if pos < cx.s.len() && ws_char(cx.s[pos]) {
        Some(skip_ws(cx, pos + 1))
    } else {
        expect(f, pos, "whitespace");
        None
    }
}

/// A keyword: the word `k` not followed by a letter, digit or `_`.
fn keyword(cx: &Ctx, pos: usize, k: &'static str, f: &mut Furthest) -> (r: Option<usize>)
    requires
        pos <= cx.s@.len(),
    ensures
        final(f).pos >= old(f).pos,
        opt_int(r) == syntax::keyword(cx.s@, pos as int, k@),
        r matches Some(e) ==> pos < e <= cx.s@.len(),
{
    match lit(cx, pos, k, f) {
        Some(e) => if e < cx.s.len() && keyword_char(cx.s[e]) {
            None
        } else {
            Some(e)
        },
        None => None,
    }
}

/// Like `keyword`, without noting an expectation (for lookahead).
fn keyword_here(cx: &Ctx, pos: usize, k: &str) -> (r: bool)
    requires
        pos <= cx.s@.len(),
    ensures
        r == syntax::keyword(cx.s@, pos as int, k@) is Some,
{
    let len = cx.s.len();
    if k.unicode_len() > 0 && starts_at(&cx.s, pos, k) {
        let e = pos + k.unicode_len();
        !(e < cx.s.len() && keyword_char(cx.s[e]))
    } else {
        false
    }
}

/// `statement_sep`: `(_* ['\n' | ';'])+ _*`.
fn sep(cx: &Ctx, pos: usize, f: &mut Furthest) -> (r: Option<usize>)
    requires
        pos <= cx.s@.len(),
    ensures
        final(f).pos >= old(f).pos,
        opt_int(r) == syntax::sep(cx.s@, pos as int),
        r matches Some(e) ==> pos < e <= cx.s@.len(),
{
    let mut p = pos;
    loop
        invariant
            f.pos >= old(f).pos,
            pos <= p <= cx.s@.len(),
            syntax::sep_loop(cx.s@, pos as int) == syntax::sep_loop(cx.s@, p as int),
        ensures
            pos <= p <= cx.s@.len(),
            syntax::sep_loop(cx.s@, pos as int) == p,
        decreases cx.s@.len() - p,
    {
        let q = skip_ws(cx, p);
        if q < cx.s.len() && (cx.s[q] == '\n' || cx.s[q] == ';') {
            p = q + 1;
        } else {
            expect(f, q, "newline or ';'");
            break;
        }
    }
    if p > pos {
        Some(skip_ws(cx, p))
    } else {
        None
    }
}

/// Whether a reserved word starts at `pos`.
fn reserved_here(cx: &Ctx, pos: usize) -> (r: bool)
    requires
        pos <= cx.s@.len(),
    ensures
        r == syntax::reserved_here(cx.s@, pos as int),
{
    keyword_here(cx, pos, "if") || keyword_here(cx, pos, "else") || keyword_here(cx, pos, "switch")
        || keyword_here(cx, pos, "case") || keyword_here(cx, pos, "for") || keyword_here(
        cx,
        pos,
        "while",
    ) || keyword_here(cx, pos, "function") || keyword_here(cx, pos, "begin") || keyword_here(
        cx,
        pos,
        "end",
    )
}

/// Whether the end of a block (`end`, `else`, `case` or `}`) starts at `pos`.
fn terminator_here(cx: &Ctx, pos: usize) -> (r: bool)
    requires
        pos <= cx.s@.len(),
    ensures
        r == syntax::terminator_here(cx.s@, pos as int),
{
    keyword_here(cx, pos, "end") || keyword_here(cx, pos, "else") || keyword_here(cx, pos, "case")
        || at(cx, pos, '}')
}

/// The characters `cs[start..end]` as a string.
fn text_between(cx: &Ctx, start: usize, end: usize) -> (r: String)
    requires
        cx.wf(),
        start <= end <= cx.s@.len(),
    ensures
        r@ == cx.s@.subrange(start as int, end as int),
{
    string_of(&cx.s.as_slice()[start..end])
}


/// `[0-9]+` read as a number, which must not exceed `max`.
fn number(cx: &Ctx, pos: usize, max: usize, f: &mut Furthest) -> (r: Option<(usize, usize)>)
    requires
        cx.wf(),
        pos <= cx.s@.len(),
    ensures
        final(f).pos >= old(f).pos,
        match r {
            Some((n, e)) => syntax::number(cx.s@, pos as int, max as nat) == Some((n as nat, e as int)),
            None => syntax::number(cx.s@, pos as int, max as nat) is None,
        },
        r matches Some((n, e)) ==> pos < e <= cx.s@.len() && n <= max,
{
    let ghost s = cx.s@;
    let mut p = pos;
    let mut v: usize = 0;
    let mut overflow = false;
    proof {
        assert(s.subrange(pos as int, pos as int) =~= Seq::<char>::empty());
    }
    while p < cx.s.len() && digit(cx.s[p])
        invariant
            f.pos >= old(f).pos,
            cx.wf(),
            s == cx.s@,
            pos <= p <= cx.s@.len(),
            syntax::digits_end(s, pos as int) == syntax::digits_end(s, p as int),
            !overflow ==> v as nat == digits_value(s.subrange(pos as int, p as int)) && v <= max,
            overflow ==> digits_value(s.subrange(pos as int, p as int)) > max,
        decreases cx.s@.len() - p,
    {
        let d = (cx.s[p] as u32 - '0' as u32) as usize;
        let ghost old_val = digits_value(s.subrange(pos as int, p as int));
        proof {
            assert(s.subrange(pos as int, p + 1).drop_last() =~= s.subrange(pos as int, p as int));
            assert(s.subrange(pos as int, p + 1).last() == s[p as int]);
            assert(digits_value(s.subrange(pos as int, p + 1)) == old_val * 10 + d);
        }
        if overflow {
            proof {
                assert(old_val * 10 + d >= old_val) by (nonlinear_arith);
            }
        } else if d > max || v > (max - d) / 10 {
            overflow = true;
            proof {
                if d <= max {
                    assert(v * 10 + d > max) by (nonlinear_arith)
                        requires
                            v > (max - d) / 10,
                            d <= max,
                    ;
                }
            }
        } else {
            proof {
                assert(v * 10 + d <= max) by (nonlinear_arith)
                    requires
                        v <= (max - d) / 10,
                        d <= max,
                ;
            }
            v = v * 10 + d;
        }
        p = p + 1;
    }
    if p == pos {
        expect(f, pos, "digit");
        None
    } else if overflow {
        None
    } else {
        Some((v, p))
    }
}

/// Whether `N>|` (a pipe of descriptor N) starts at `pos`.
fn fd_pipe_here(cx: &Ctx, pos: usize) -> (r: bool)
    requires
        cx.wf(),
        pos <= cx.s@.len(),
    ensures
        r == syntax::fd_pipe_here(cx.s@, pos as int),
{
    let mut p = pos;
    while p < cx.s.len() && digit(cx.s[p])
        invariant
            cx.wf(),
            pos <= p <= cx.s@.len(),
            syntax::digits_end(cx.s@, pos as int) == syntax::digits_end(cx.s@, p as int),
        decreases cx.s@.len() - p,
    {
        p = p + 1;
    }
    proof {
        reveal_strlit(">|");
    }
    p > pos && starts_at(&cx.s, p, ">|")
}

/// `'...'`: the text up to the closing quote, where a backslash keeps the
/// next character (`\'` and `\\` are unescaped).
fn single_quoted(cx: &Ctx, pos: usize, f: &mut Furthest) -> (r: Option<(WordPart, usize)>)
    requires
        cx.wf(),
        pos <= cx.s@.len(),
    ensures
        final(f).pos >= old(f).pos,
        end_of(r) == syntax::single_quoted(cx.s@, pos as int),
        r matches Some((_, e)) ==> pos < e <= cx.s@.len(),
        r matches Some((x, _)) ==> x matches WordPart::SingleQuoted(t) && t@
            == unescape_single_quoted_spec(
            cx.s@.subrange(pos + 1, syntax::sq_scan(cx.s@, pos + 1)),
        ),
{
    proof {
        reveal_strlit("'");
    }
    let start = match lit(cx, pos, "'", f) {
        Some(e) => e,
        None => {
            return None;
        },
    };
    let mut p = start;
    loop
        invariant
            f.pos >= old(f).pos,
            cx.wf(),
            pos < start <= p <= cx.s@.len(),
            syntax::sq_scan(cx.s@, start as int) == syntax::sq_scan(cx.s@, p as int),
        ensures
            pos < start <= p <= cx.s@.len(),
            syntax::sq_scan(cx.s@, start as int) == p,
        decreases cx.s@.len() - p,
    {
        if p < cx.s.len() && cx.s[p] == '\\' && p + 1 < cx.s.len() {
            p = p + 2;
        } else if p < cx.s.len() && cx.s[p] != '\'' {
            p = p + 1;
        } else {
            break;
        }
    }
    let end = match lit(cx, p, "'", f) {
        Some(e) => e,
        None => {
            return None;
        },
    };
    let raw = text_between(cx, start, p);
    Some((WordPart::SingleQuoted(unescape_single_quoted(raw.as_str())), end))
}

/// An unquoted literal: characters other than separators and special
/// characters, a backslash with the character after it, or an `&` that is
/// not followed by a separating character (so not an operator); escapes
/// are decoded. Inside a brace expansion a comma also ends it.
fn literal(cx: &Ctx, pos: usize, in_brace: bool, f: &mut Furthest) -> (r: Option<(WordPart, usize)>)
    requires
        cx.wf(),
        pos <= cx.s@.len(),
    ensures
        final(f).pos >= old(f).pos,
        end_of(r) == syntax::literal(cx.s@, pos as int, in_brace),
        r matches Some((_, e)) ==> pos < e <= cx.s@.len(),
        r matches Some((x, _)) ==> x matches WordPart::Literal(t) && t@ == unescape_spec(
            cx.s@.subrange(pos as int, syntax::literal_scan(cx.s@, pos as int, in_brace)),
        ),
{
    let mut p = pos;
    loop
        invariant
            f.pos >= old(f).pos,
            cx.wf(),
            pos <= p <= cx.s@.len(),
            syntax::literal_scan(cx.s@, pos as int, in_brace) == syntax::literal_scan(
                cx.s@,
                p as int,
                in_brace,
            ),
        ensures
            pos <= p <= cx.s@.len(),
            syntax::literal_scan(cx.s@, pos as int, in_brace) == p,
        decreases cx.s@.len() - p,
    {
        if p < cx.s.len() && cx.s[p] == '\\' && p + 1 < cx.s.len() {
            p = p + 2;
        } else if p < cx.s.len() && !literal_stop(cx.s[p]) && !(in_brace && cx.s[p] == ',') {
            p = p + 1;
        } else if p + 1 < cx.s.len() && cx.s[p] == '&' && !separating(cx.s[p + 1]) {
            p = p + 1;
        } else {
            break;
        }
    }
    if p == pos {
        expect(f, pos, "a word");
        return None;
    }
    let raw = text_between(cx, pos, p);
    Some((WordPart::Literal(unescape(raw.as_str())), p))
}

/// `[a-zA-Z0-9_]+`.
fn var_name(cx: &Ctx, pos: usize, f: &mut Furthest) -> (r: Option<(String, usize)>)
    requires
        cx.wf(),
        pos <= cx.s@.len(),
    ensures
        final(f).pos >= old(f).pos,
        end_of(r) == syntax::var_name(cx.s@, pos as int),
        r matches Some((t, e)) ==> pos < e <= cx.s@.len() && t@ == cx.s@.subrange(pos as int, e as int),
{
    let mut p = pos;
    while p < cx.s.len() && keyword_char(cx.s[p])
        invariant
            f.pos >= old(f).pos,
            cx.wf(),
            pos <= p <= cx.s@.len(),
            syntax::name_scan(cx.s@, pos as int) == syntax::name_scan(cx.s@, p as int),
        decreases cx.s@.len() - p,
    {
        p = p + 1;
    }
    if p == pos {
        expect(f, pos, "a variable name");
        None
    } else {
        Some((text_between(cx, pos, p), p))
    }
}

/// `[a-zA-Z_][a-zA-Z0-9_]*`.
fn ident(cx: &Ctx, pos: usize, f: &mut Furthest) -> (r: Option<(String, usize)>)
    requires
        cx.wf(),
        pos <= cx.s@.len(),
    ensures
        final(f).pos >= old(f).pos,
        end_of(r) == syntax::ident(cx.s@, pos as int),
        r matches Some((t, e)) ==> pos < e <= cx.s@.len() && t@ == cx.s@.subrange(pos as int, e as int),
{
    if !(pos < cx.s.len() && ident_start(cx.s[pos])) {
        expect(f, pos, "a name");
        return None;
    }
    let mut p = pos + 1;
    while p < cx.s.len() && keyword_char(cx.s[p])
        invariant
            f.pos >= old(f).pos,
            cx.wf(),
            pos < p <= cx.s@.len(),
            syntax::name_scan(cx.s@, pos + 1) == syntax::name_scan(cx.s@, p as int),
        decreases cx.s@.len() - p,
    {
        p = p + 1;
    }
    Some((text_between(cx, pos, p), p))
}

/// `$NAME` or `$$...` (an indirect reference), each followed by slices.
fn variable_ref(cx: &Ctx, pos: usize, f: &mut Furthest) -> (r: Option<(VariableRef, usize)>)
    requires
        cx.wf(),
        pos <= cx.s@.len(),
    ensures
        final(f).pos >= old(f).pos,
        end_of(r) == syntax::variable_ref(cx.s@, pos as int),
        r matches Some((v, e)) ==> pos < e <= cx.s@.len() && tree::var_value(cx.s@, pos as int, v),
    decreases cx.s@.len() - pos, 6int,
{
    proof {
        reveal_strlit("$");
    }
    let p = match lit(cx, pos, "$", f) {
        Some(e) => e,
        None => {
            return None;
        },
    };
    let target = match variable_ref(cx, p, f) {
        Some((inner, e)) => Some((VariableTarget::Indirect(Box::new(inner)), e)),
        None => match var_name(cx, p, f) {
            Some((name, e)) => Some((VariableTarget::Named(name), e)),
            None => None,
        },
    };
    match target {
        Some((t, e)) => {
            let (slices, e2) = slices(cx, e, f);
            Some((VariableRef { target: t, slices }, e2))
        },
        None => None,
    }
}

/// `slice*`: each bracket holds one or more space-separated elements.
fn slices(cx: &Ctx, pos: usize, f: &mut Furthest) -> (r: (Vec<Slice>, usize))
    requires
        cx.wf(),
        pos <= cx.s@.len(),
    ensures
        final(f).pos >= old(f).pos,
        r.1 == syntax::slices(cx.s@, pos as int),
        pos <= r.1 <= cx.s@.len(),
        tree::slices_value(cx.s@, pos as int, r.0@),
    decreases cx.s@.len() - pos, 5int,
{
    let ghost s = cx.s@;
    let mut out: Vec<Slice> = Vec::new();
    let mut p = pos;
    let ghost mut found: Seq<int> = seq![];
    proof {
        assert(found + tree::slice_starts(s, p as int) =~= tree::slice_starts(s, p as int));
    }
    loop
        invariant
            f.pos >= old(f).pos,
            cx.wf(),
            s == cx.s@,
            pos <= p <= cx.s@.len(),
            syntax::slices(s, pos as int) == syntax::slices(s, p as int),
            tree::slice_starts(s, pos as int) == found + tree::slice_starts(s, p as int),
            out@.len() == found.len(),
            forall|i: int| 0 <= i < found.len() ==> tree::element_value(s, found[i], #[trigger] out@[i]),
        ensures
            pos <= p <= cx.s@.len(),
            syntax::slices(s, pos as int) == p as int,
            tree::slice_starts(s, pos as int) == found,
            out@.len() == found.len(),
            forall|i: int| 0 <= i < found.len() ==> tree::element_value(s, found[i], #[trigger] out@[i]),
        decreases cx.s@.len() - p,
    {
        match slice(cx, p, f) {
            Some((mut elems, e)) => {
                let ghost b = tree::bracket_starts(s, p as int);
                let ghost old_out = out@;
                let ghost old_elems = elems@;
                out.append(&mut elems);
                proof {
                    assert(tree::slice_starts(s, p as int) == b + tree::slice_starts(s, e as int));
                    assert(found + tree::slice_starts(s, p as int) =~= (found + b)
                        + tree::slice_starts(s, e as int));
                    assert forall|i: int| 0 <= i < found.len() + b.len() implies tree::element_value(
                        s,
                        (found + b)[i],
                        #[trigger] out@[i],
                    ) by {
                        if i < found.len() {
                            assert(out@[i] == old_out[i]);
                        } else {
                            assert(out@[i] == old_elems[i - found.len()]);
                        }
                    }
                    found = found + b;
                }
                p = e;
            },
            None => {
                proof {
                    assert(tree::slice_starts(s, p as int) =~= Seq::<int>::empty());
                    assert(found + tree::slice_starts(s, p as int) =~= found);
                }
                break;
            },
        }
    }
    proof {
        assert(tree::slice_starts(s, pos as int) == found);
    }
    (out, p)
}

/// `"[" _* element (_+ element)* _* "]"`.
fn slice(cx: &Ctx, pos: usize, f: &mut Furthest) -> (r: Option<(Vec<Slice>, usize)>)
    requires
        cx.wf(),
        pos <= cx.s@.len(),
    ensures
        final(f).pos >= old(f).pos,
        end_of(r) == syntax::slice(cx.s@, pos as int),
        r matches Some((v, e)) ==> pos < e <= cx.s@.len() && v@.len() == tree::bracket_starts(
            cx.s@,
            pos as int,
        ).len() && forall|i: int|
            0 <= i < v@.len() ==> tree::element_value(
                cx.s@,
                tree::bracket_starts(cx.s@, pos as int)[i],
                #[trigger] v@[i],
            ),
    decreases cx.s@.len() - pos, 4int,
{
    let ghost s = cx.s@;
    proof {
        reveal_strlit("[");
    }
    let p = match lit(cx, pos, "[", f) {
        Some(e) => skip_ws(cx, e),
        None => {
            return None;
        },
    };
    let mut elems: Vec<Slice> = Vec::new();
    let (first, mut cur) = match slice_element(cx, p, f) {
        Some(x) => x,
        None => {
            return None;
        },
    };
    elems.push(first);
    let ghost g_start0 = cur as int;
    let ghost mut found: Seq<int> = seq![p as int];
    proof {
        assert(tree::bracket_starts(s, pos as int) == seq![p as int] + tree::elem_starts(s, cur as int));
    }
    loop
        invariant
            f.pos >= old(f).pos,
            cx.wf(),
            s == cx.s@,
            pos < cur <= cx.s@.len(),
            syntax::slice_elements(s, g_start0) == syntax::slice_elements(s, cur as int),
            tree::bracket_starts(s, pos as int) == found + tree::elem_starts(s, cur as int),
            elems@.len() == found.len(),
            forall|i: int| 0 <= i < found.len() ==> tree::element_value(s, found[i], #[trigger] elems@[i]),
        ensures
            pos < cur <= cx.s@.len(),
            syntax::slice_elements(s, g_start0) == cur as int,
            tree::bracket_starts(s, pos as int) == found,
            elems@.len() == found.len(),
            forall|i: int| 0 <= i < found.len() ==> tree::element_value(s, found[i], #[trigger] elems@[i]),
        decreases cx.s@.len() - cur,
    {
        match ws1(cx, cur, f) {
            Some(q) => match slice_element(cx, q, f) {
                Some((el, e)) => {
                    proof {
                        assert(tree::elem_starts(s, cur as int) == seq![q as int] + tree::elem_starts(
                            s,
                            e as int,
                        ));
                        assert(found + tree::elem_starts(s, cur as int) =~= found.push(q as int)
                            + tree::elem_starts(s, e as int));
                        found = found.push(q as int);
                    }
                    elems.push(el);
                    cur = e;
                },
                None => {
                    proof {
                        assert(found + tree::elem_starts(s, cur as int) =~= found);
                    }
                    break;
                },
            },
            None => {
                proof {
                    assert(found + tree::elem_starts(s, cur as int) =~= found);
                }
                break;
            },
        }
    }
    let q = skip_ws(cx, cur);
    match lit(cx, q, "]", f) {
        Some(e) => Some((elems, e)),
        None => None,
    }
}

/// `start? _* ".." _* end?` (a range) or a single index.
fn slice_element(cx: &Ctx, pos: usize, f: &mut Furthest) -> (r: Option<(Slice, usize)>)
    requires
        cx.wf(),
        pos <= cx.s@.len(),
    ensures
        final(f).pos >= old(f).pos,
        end_of(r) == syntax::slice_element(cx.s@, pos as int),
        r matches Some((x, e)) ==> pos < e <= cx.s@.len() && tree::element_value(cx.s@, pos as int, x),
    decreases cx.s@.len() - pos, 8int,
{
    let (start, p) = match slice_index(cx, pos, f) {
        Some((i, e)) => (Some(i), e),
        None => (None, pos),
    };
    let q = skip_ws(cx, p);
    match lit(cx, q, "..", f) {
        Some(e) => {
            let q2 = skip_ws(cx, e);
            let (end, e2) = match slice_index(cx, q2, f) {
                Some((i, e3)) => (Some(i), e3),
                None => (None, q2),
            };
            return Some((Slice::Range { start, end }, e2));
        },
        None => {},
    }
    match start {
        Some(i) => Some((Slice::Index(i), p)),
        None => None,
    }
}

/// `-N`, `N`, or a variable reference.
fn slice_index(cx: &Ctx, pos: usize, f: &mut Furthest) -> (r: Option<(SliceIndex, usize)>)
    requires
        cx.wf(),
        pos <= cx.s@.len(),
    ensures
        final(f).pos >= old(f).pos,
        end_of(r) == syntax::slice_index(cx.s@, pos as int),
        r matches Some((x, e)) ==> pos < e <= cx.s@.len() && tree::index_value(cx.s@, pos as int, x),
    decreases cx.s@.len() - pos, 7int,
{
    proof {
        reveal_strlit("-");
    }
    match lit(cx, pos, "-", f) {
        Some(p) => match number(cx, p, usize::MAX, f) {
            Some((n, e)) => {
                return Some((SliceIndex::Neg(n), e));
            },
            None => {},
        },
        None => {},
    }
    match number(cx, pos, usize::MAX, f) {
        Some((n, e)) => {
            return Some((SliceIndex::Pos(n), e));
        },
        None => {},
    }
    match variable_ref(cx, pos, f) {
        Some((v, e)) => Some((SliceIndex::Variable(v), e)),
        None => None,
    }
}


/// `"..."`: variables, `$(...)` and literal runs (where only `\"`, `\$`,
/// `\\` and a backslash-newline are escapes).
fn double_quoted(cx: &Ctx, pos: usize, f: &mut Furthest) -> (r: Option<(WordPart, usize)>)
    requires
        cx.wf(),
        pos <= cx.s@.len(),
    ensures
        final(f).pos >= old(f).pos,
        end_of(r) == syntax::double_quoted(cx.s@, pos as int),
        r matches Some((_, e)) ==> pos < e <= cx.s@.len(),
        r matches Some((x, _)) ==> x matches WordPart::DoubleQuoted(ps) && tree::dq_value(
            cx.s@,
            pos + 1,
            ps@,
        ),
    decreases cx.s@.len() - pos, 8int,
{
    proof {
        reveal_strlit("\"");
    }
    let ghost s = cx.s@;
    let start = match lit(cx, pos, "\"", f) {
        Some(e) => e,
        None => {
            return None;
        },
    };
    let mut parts: Vec<WordPart> = Vec::new();
    let mut p = start;
    let ghost g_start0 = p as int;
    let ghost mut found: Seq<int> = seq![];
    proof {
        assert(found + tree::dq_starts(s, p as int) =~= tree::dq_starts(s, p as int));
    }
    loop
        invariant
            f.pos >= old(f).pos,
            cx.wf(),
            s == cx.s@,
            pos < p <= cx.s@.len(),
            syntax::dq_parts(cx.s@, g_start0) == syntax::dq_parts(cx.s@, p as int),
            tree::dq_starts(s, g_start0) == found + tree::dq_starts(s, p as int),
            parts@.len() == found.len(),
            forall|i: int| 0 <= i < found.len() ==> tree::dq_part_value(s, found[i], #[trigger] parts@[i]),
        ensures
            pos < p <= cx.s@.len(),
            syntax::dq_parts(cx.s@, g_start0) == p as int,
            tree::dq_starts(s, g_start0) == found,
            parts@.len() == found.len(),
            forall|i: int| 0 <= i < found.len() ==> tree::dq_part_value(s, found[i], #[trigger] parts@[i]),
        decreases cx.s@.len() - p,
    {
        match dq_part(cx, p, f) {
            Some((part, e)) => {
                proof {
                    assert(tree::dq_starts(s, p as int) == seq![p as int] + tree::dq_starts(s, e as int));
                    assert(found + tree::dq_starts(s, p as int) =~= found.push(p as int)
                        + tree::dq_starts(s, e as int));
                    found = found.push(p as int);
                }
                parts.push(part);
                p = e;
            },
            None => {
                proof {
                    assert(tree::dq_starts(s, p as int) =~= Seq::<int>::empty());
                    assert(found + tree::dq_starts(s, p as int) =~= found);
                }
                break;
            },
        }
    }
    match lit(cx, p, "\"", f) {
        Some(e) => Some((WordPart::DoubleQuoted(parts), e)),
        None => None,
    }
}

fn dq_part(cx: &Ctx, pos: usize, f: &mut Furthest) -> (r: Option<(WordPart, usize)>)
    requires
        cx.wf(),
        pos <= cx.s@.len(),
    ensures
        final(f).pos >= old(f).pos,
        end_of(r) == syntax::dq_part(cx.s@, pos as int),
        r matches Some((_, e)) ==> pos < e <= cx.s@.len(),
        r matches Some((x, _)) ==> tree::dq_part_value(cx.s@, pos as int, x),
    decreases cx.s@.len() - pos, 7int,
{
    proof {
        reveal(syntax::dq_alternative);
    }
    match variable_ref(cx, pos, f) {
        Some((v, e)) => {
            return Some((WordPart::Variable(v), e));
        },
        None => {},
    }
    match dollar_command_subst(cx, pos, f) {
        Some(x) => {
            return Some(x);
        },
        None => {},
    }
    let mut p = pos;
    let ghost g_start0 = p as int;
    loop
        invariant
            f.pos >= old(f).pos,
            cx.wf(),
            pos <= p <= cx.s@.len(),
            syntax::dq_scan(cx.s@, g_start0) == syntax::dq_scan(cx.s@, p as int),
        ensures
            pos <= p <= cx.s@.len(),
            syntax::dq_scan(cx.s@, g_start0) == p as int,
        decreases cx.s@.len() - p,
    {
        if p < cx.s.len() && cx.s[p] == '\\' && p + 1 < cx.s.len() {
            p = p + 2;
        } else if p < cx.s.len() && cx.s[p] != '"' && cx.s[p] != '$' && cx.s[p] != '\\' {
            p = p + 1;
        } else {
            break;
        }
    }
    if p == pos {
        expect(f, pos, "text");
        return None;
    }
    let raw = text_between(cx, pos, p);
    Some((WordPart::Literal(unescape_double_quoted(raw.as_str())), p))
}

/// `$( statements )` followed by slices.
fn dollar_command_subst(cx: &Ctx, pos: usize, f: &mut Furthest) -> (r: Option<(WordPart, usize)>)
    requires
        cx.wf(),
        pos <= cx.s@.len(),
    ensures
        final(f).pos >= old(f).pos,
        end_of(r) == syntax::dollar_command_subst(cx.s@, pos as int),
        r matches Some((_, e)) ==> pos < e <= cx.s@.len(),
        r matches Some((x, _)) ==> tree::subst_value(cx.s@, pos + 2, x),
    decreases cx.s@.len() - pos, 6int,
{
    proof {
        reveal_strlit("$(");
    }
    match lit(cx, pos, "$(", f) {
        Some(p) => subst_rest(cx, p, f),
        None => None,
    }
}

/// The part of a command substitution after its opening: `_* statements
/// _* ")"` and slices.
fn subst_rest(cx: &Ctx, pos: usize, f: &mut Furthest) -> (r: Option<(WordPart, usize)>)
    requires
        cx.wf(),
        0 < pos <= cx.s@.len(),
    ensures
        final(f).pos >= old(f).pos,
        end_of(r) == syntax::subst_rest(cx.s@, pos as int),
        r matches Some((_, e)) ==> pos < e <= cx.s@.len(),
        r matches Some((x, _)) ==> tree::subst_value(cx.s@, pos as int, x),
    decreases cx.s@.len() - pos, 23int,
{
    let p = skip_ws(cx, pos);
    let (statements, p2) = statement_list(cx, p, f);
    let p3 = skip_ws(cx, p2);
    match lit(cx, p3, ")", f) {
        Some(e) => {
            let (slices, e2) = slices(cx, e, f);
            Some((WordPart::CommandSubst { statements, slices }, e2))
        },
        None => None,
    }
}

/// `$( ... )` or `( ... )`, followed by slices.
fn command_subst(cx: &Ctx, pos: usize, f: &mut Furthest) -> (r: Option<(WordPart, usize)>)
    requires
        cx.wf(),
        pos <= cx.s@.len(),
    ensures
        final(f).pos >= old(f).pos,
        end_of(r) == syntax::command_subst(cx.s@, pos as int),
        r matches Some((_, e)) ==> pos < e <= cx.s@.len(),
        r matches Some((x, _)) ==> tree::subst_value(
            cx.s@,
            if syntax::dollar_command_subst(cx.s@, pos as int) is Some {
                pos + 2
            } else {
                pos + 1
            },
            x,
        ),
    decreases cx.s@.len() - pos, 8int,
{
    proof {
        reveal_strlit("(");
    }
    match dollar_command_subst(cx, pos, f) {
        Some(x) => {
            return Some(x);
        },
        None => {},
    }
    match lit(cx, pos, "(", f) {
        Some(p) => subst_rest(cx, p, f),
        None => None,
    }
}

/// Whether a word has a variable among its parts.
fn has_variable(w: &Word) -> (r: bool)
    ensures
        r <==> exists|k: int| 0 <= k < w.parts@.len() && (#[trigger] w.parts@[k]) is Variable,
{
    let mut k: usize = 0;
    while k < w.parts.len()
        invariant
            0 <= k <= w.parts@.len(),
            forall|j: int| 0 <= j < k ==> !((#[trigger] w.parts@[j]) is Variable),
        decreases w.parts@.len() - k,
    {
        match &w.parts[k] {
            WordPart::Variable(_) => {
                return true;
            },
            _ => {},
        }
        k = k + 1;
    }
    false
}

/// `{a,b}`: comma-separated (possibly empty) words. Without a comma or a
/// variable inside, the braces and their content are a plain literal.
fn brace(cx: &Ctx, pos: usize, f: &mut Furthest) -> (r: Option<(WordPart, usize)>)
    requires
        cx.wf(),
        pos <= cx.s@.len(),
    ensures
        final(f).pos >= old(f).pos,
        end_of(r) == syntax::brace(cx.s@, pos as int),
        r matches Some((_, e)) ==> pos < e <= cx.s@.len(),
        r matches Some((x, _)) ==> tree::brace_value(cx.s@, pos as int, x),
    decreases cx.s@.len() - pos, 8int,
{
    proof {
        reveal_strlit("{");
    }
    let ghost s = cx.s@;
    let start = match lit(cx, pos, "{", f) {
        Some(e) => skip_ws(cx, e),
        None => {
            return None;
        },
    };
    let mut items: Vec<Word> = Vec::new();
    let mut commas: usize = 0;
    let mut with_var = false;
    let mut p = start;
    let ghost g_start0 = p as int;
    let ghost mut found: Seq<int> = seq![];
    proof {
        assert(found + tree::brace_item_starts(s, p as int) =~= tree::brace_item_starts(s, p as int));
    }
    loop
        invariant_except_break
            syntax::brace_items(cx.s@, g_start0) == syntax::brace_items(cx.s@, p as int),
            tree::brace_item_starts(s, g_start0) == found + tree::brace_item_starts(s, p as int),
            commas > 0 <==> found.len() > 0,
        invariant
            f.pos >= old(f).pos,
            cx.wf(),
            s == cx.s@,
            pos < start <= p <= cx.s@.len(),
            items@.len() == found.len(),
            forall|i: int| 0 <= i < found.len() ==> tree::item_value(s, found[i], #[trigger] items@[i]),
            with_var <==> exists|i: int|
                0 <= i < found.len() && tree::item_has_variable(s, #[trigger] found[i]),
        ensures
            pos < start <= p <= cx.s@.len(),
            syntax::brace_items(cx.s@, g_start0) == p as int,
            tree::brace_item_starts(s, g_start0) == found,
            commas > 0 <==> found.len() > 1,
        decreases cx.s@.len() - p,
    {
        let ghost old_found = found;
        let (item, e) = match word(cx, p, true, f) {
            Some((w, e)) => (w, e),
            None => (Word { parts: Vec::new() }, p),
        };
        let hv = has_variable(&item);
        proof {
            if syntax::word(s, p as int, true) is Some {
                tree::lemma_word_variables(s, p as int, item);
            } else {
                assert(item.parts@.len() == 0);
            }
            assert(tree::item_value(s, p as int, item));
            assert(hv <==> tree::item_has_variable(s, p as int));
            found = found.push(p as int);
            assert(found[old_found.len() as int] == p as int);
            if with_var || hv {
                if hv {
                    assert(tree::item_has_variable(s, found[old_found.len() as int]));
                } else {
                    let i = choose|i: int|
                        0 <= i < old_found.len() && tree::item_has_variable(s, #[trigger] old_found[i]);
                    assert(found[i] == old_found[i]);
                }
            }
            if exists|i: int| 0 <= i < found.len() && tree::item_has_variable(s, #[trigger] found[i]) {
                let i = choose|i: int|
                    0 <= i < found.len() && tree::item_has_variable(s, #[trigger] found[i]);
                if i < old_found.len() {
                    assert(found[i] == old_found[i]);
                }
            }
        }
        if hv {
            with_var = true;
        }
        let ghost old_items = items@;
        items.push(item);
        proof {
            assert forall|i: int| 0 <= i < found.len() implies tree::item_value(
                s,
                found[i],
                #[trigger] items@[i],
            ) by {
                if i < old_found.len() {
                    assert(items@[i] == old_items[i]);
                    assert(found[i] == old_found[i]);
                }
            }
        }
        let q = skip_ws(cx, e);
        if q < cx.s.len() && cx.s[q] == ',' {
            let ghost p0 = p as int;
            p = skip_ws(cx, q + 1);
            proof {
                assert(tree::brace_item_starts(s, p0) == seq![p0] + tree::brace_item_starts(
                    s,
                    p as int,
                ));
                assert(old_found + tree::brace_item_starts(s, p0) =~= found
                    + tree::brace_item_starts(s, p as int));
            }
            if commas < usize::MAX {
                commas = commas + 1;
            }
        } else {
            proof {
                assert(tree::brace_item_starts(s, p as int) == seq![p as int]);
                assert(old_found + tree::brace_item_starts(s, p as int) =~= found);
            }
            expect(f, q, ",");
            p = q;
            break;
        }
    }
    let end = match lit(cx, p, "}", f) {
        Some(e) => e,
        None => {
            return None;
        },
    };
    if commas > 0 || with_var {
        Some((WordPart::BraceExpansion(items), end))
    } else {
        Some((WordPart::Literal(text_between(cx, pos, end)), end))
    }
}

/// One part of a word: quoted text, a variable, a command substitution, a
/// brace expansion or a literal, tried in that order.
#[verifier::rlimit(30)]
fn word_part(cx: &Ctx, pos: usize, in_brace: bool, f: &mut Furthest) -> (r: Option<(WordPart, usize)>)
    requires
        cx.wf(),
        pos <= cx.s@.len(),
    ensures
        final(f).pos >= old(f).pos,
        end_of(r) == syntax::word_part(cx.s@, pos as int, in_brace),
        r matches Some((_, e)) ==> pos < e <= cx.s@.len(),
        r matches Some((x, _)) ==> tree::part_value(cx.s@, pos as int, in_brace, x),
    decreases cx.s@.len() - pos, 9int,
{
    proof {
        reveal(syntax::part_alternative);
    }
    match single_quoted(cx, pos, f) {
        Some(x) => {
            return Some(x);
        },
        None => {},
    }
    match double_quoted(cx, pos, f) {
        Some(x) => {
            return Some(x);
        },
        None => {},
    }
    match variable_ref(cx, pos, f) {
        Some((v, e)) => {
            return Some((WordPart::Variable(v), e));
        },
        None => {},
    }
    match command_subst(cx, pos, f) {
        Some(x) => {
            return Some(x);
        },
        None => {},
    }
    match brace(cx, pos, f) {
        Some(x) => {
            return Some(x);
        },
        None => {},
    }
    literal(cx, pos, in_brace, f)
}

/// A word: one or more adjacent parts.
fn word(cx: &Ctx, pos: usize, in_brace: bool, f: &mut Furthest) -> (r: Option<(Word, usize)>)
    requires
        cx.wf(),
        pos <= cx.s@.len(),
    ensures
        final(f).pos >= old(f).pos,
        end_of(r) == syntax::word(cx.s@, pos as int, in_brace),
        r matches Some((w, e)) ==> pos < e <= cx.s@.len() && w.parts@.len() > 0,
        r matches Some((w, _)) ==> tree::word_value(cx.s@, pos as int, in_brace, w),
        r is None ==> tree::part_starts(cx.s@, pos as int, in_brace).len() == 0,
    decreases cx.s@.len() - pos, 10int,
{
    let ghost s = cx.s@;
    let mut parts: Vec<WordPart> = Vec::new();
    let mut p = pos;
    let ghost g_start0 = p as int;
    let ghost mut found: Seq<int> = seq![];
    proof {
        assert(found + tree::part_starts(s, p as int, in_brace) =~= tree::part_starts(
            s,
            p as int,
            in_brace,
        ));
    }
    loop
        invariant
            f.pos >= old(f).pos,
            cx.wf(),
            s == cx.s@,
            pos <= p <= cx.s@.len(),
            parts@.len() == 0 <==> p == pos,
            syntax::word_parts(cx.s@, g_start0, in_brace) == syntax::word_parts(cx.s@, p as int, in_brace),
            tree::part_starts(s, g_start0, in_brace) == found + tree::part_starts(s, p as int, in_brace),
            parts@.len() == found.len(),
            forall|i: int|
                0 <= i < found.len() ==> tree::part_value(s, found[i], in_brace, #[trigger] parts@[i]),
        ensures
            pos <= p <= cx.s@.len(),
            parts@.len() == 0 <==> p == pos,
            syntax::word_parts(cx.s@, g_start0, in_brace) == p as int,
            tree::part_starts(s, g_start0, in_brace) == found,
            parts@.len() == found.len(),
            forall|i: int|
                0 <= i < found.len() ==> tree::part_value(s, found[i], in_brace, #[trigger] parts@[i]),
        decreases cx.s@.len() - p,
    {
        match word_part(cx, p, in_brace, f) {
            Some((part, e)) => {
                proof {
                    assert(tree::part_starts(s, p as int, in_brace) == seq![p as int]
                        + tree::part_starts(s, e as int, in_brace));
                    assert(found + tree::part_starts(s, p as int, in_brace) =~= found.push(p as int)
                        + tree::part_starts(s, e as int, in_brace));
                    found = found.push(p as int);
                }
                parts.push(part);
                p = e;
            },
            None => {
                proof {
                    assert(tree::part_starts(s, p as int, in_brace) =~= Seq::<int>::empty());
                    assert(found + tree::part_starts(s, p as int, in_brace) =~= found);
                }
                break;
            },
        }
    }
    if parts.len() == 0 {
        None
    } else {
        Some((Word { parts }, p))
    }
}


/// The position after the line at `pos`: the next line break or the end.
fn line_end(cx: &Ctx, pos: usize) -> (r: usize)
    requires
        cx.wf(),
        pos <= cx.s@.len(),
    ensures
        pos <= r <= cx.s@.len(),
        r == syntax::line_end(cx.s@, pos as int),
{
    let mut p = pos;
    while p < cx.s.len() && cx.s[p] != '\n'
        invariant
            cx.wf(),
            pos <= p <= cx.s@.len(),
            syntax::line_end(cx.s@, pos as int) == syntax::line_end(cx.s@, p as int),
        decreases cx.s@.len() - p,
    {
        p = p + 1;
    }
    p
}

/// `"\\" _* "\n" (_* "#" [^\n]* "\n")* _*`: a line continuation, with
/// comment lines after it.
fn line_cont(cx: &Ctx, pos: usize) -> (r: Option<usize>)
    requires
        cx.wf(),
        pos <= cx.s@.len(),
    ensures
        opt_int(r) == syntax::line_cont(cx.s@, pos as int),
        r matches Some(e) ==> pos < e <= cx.s@.len(),
{
    if !at(cx, pos, '\\') {
        return None;
    }
    let q = skip_ws(cx, pos + 1);
    if !at(cx, q, '\n') {
        return None;
    }
    let mut p = q + 1;
    loop
        invariant
            cx.wf(),
            pos < q + 1 <= p <= cx.s@.len(),
            syntax::comment_lines(cx.s@, q + 1) == syntax::comment_lines(cx.s@, p as int),
        ensures
            pos < q + 1 <= p <= cx.s@.len(),
            syntax::comment_lines(cx.s@, q + 1) == p,
        decreases cx.s@.len() - p,
    {
        let a = skip_ws(cx, p);
        if at(cx, a, '#') {
            let b = line_end(cx, a);
            if at(cx, b, '\n') {
                p = b + 1;
            } else {
                break;
            }
        } else {
            break;
        }
    }
    Some(skip_ws(cx, p))
}

/// `(_ / line_cont)+`: what separates the items of a command.
fn arg_sep(cx: &Ctx, pos: usize, f: &mut Furthest) -> (r: Option<usize>)
    requires
        cx.wf(),
        pos <= cx.s@.len(),
    ensures
        final(f).pos >= old(f).pos,
        opt_int(r) == syntax::arg_sep(cx.s@, pos as int),
        r matches Some(e) ==> pos < e <= cx.s@.len(),
{
    let mut p = pos;
    loop
        invariant
            f.pos >= old(f).pos,
            cx.wf(),
            pos <= p <= cx.s@.len(),
            syntax::arg_sep_scan(cx.s@, pos as int) == syntax::arg_sep_scan(cx.s@, p as int),
        ensures
            pos <= p <= cx.s@.len(),
            syntax::arg_sep_scan(cx.s@, pos as int) == p,
        decreases cx.s@.len() - p,
    {
        if p < cx.s.len() && ws_char(cx.s[p]) {
            p = p + 1;
        } else {
            match line_cont(cx, p) {
                Some(e) => {
                    p = e;
                },
                None => {
                    break;
                },
            }
        }
    }
    if p == pos {
        expect(f, pos, "whitespace");
        None
    } else {
        Some(p)
    }
}

/// `(_ / "\\\n" / "#" [^\n]* "\n" / "\n")*`: what may stand between a
/// pipe or `&&`/`||` and what follows it.
fn cont_space(cx: &Ctx, pos: usize) -> (r: usize)
    requires
        cx.wf(),
        pos <= cx.s@.len(),
    ensures
        pos <= r <= cx.s@.len(),
        r == syntax::cont_space(cx.s@, pos as int),
{
    let mut p = pos;
    loop
        invariant
            cx.wf(),
            pos <= p <= cx.s@.len(),
            syntax::cont_space(cx.s@, pos as int) == syntax::cont_space(cx.s@, p as int),
        ensures
            pos <= p <= cx.s@.len(),
            syntax::cont_space(cx.s@, pos as int) == p,
        decreases cx.s@.len() - p,
    {
        if p < cx.s.len() && (ws_char(cx.s[p]) || cx.s[p] == '\n') {
            p = p + 1;
        } else if at(cx, p, '\\') && at(cx, p + 1, '\n') {
            p = p + 2;
        } else if at(cx, p, '#') {
            let b = line_end(cx, p);
            if at(cx, b, '\n') {
                p = b + 1;
            } else {
                break;
            }
        } else {
            break;
        }
    }
    p
}

/// The redirection operators, longest first.
fn redirect_mode(cx: &Ctx, pos: usize, f: &mut Furthest) -> (r: Option<(RedirectMode, usize)>)
    requires
        cx.wf(),
        pos <= cx.s@.len(),
    ensures
        final(f).pos >= old(f).pos,
        match r {
            Some((m, e)) => syntax::redirect_mode(cx.s@, pos as int) == Some((m, e as int)),
            None => syntax::redirect_mode(cx.s@, pos as int) is None,
        },
        r matches Some((_, e)) ==> pos < e <= cx.s@.len(),
{
    if let Some(e) = lit(cx, pos, "&>>?", f) {
        return Some((RedirectMode::NoClobberAppendAndErr, e));
    }
    if let Some(e) = lit(cx, pos, "&>?", f) {
        return Some((RedirectMode::NoClobberOutputAndErr, e));
    }
    if let Some(e) = lit(cx, pos, "&>>", f) {
        return Some((RedirectMode::AppendAndErr, e));
    }
    if let Some(e) = lit(cx, pos, "&>", f) {
        return Some((RedirectMode::OutputAndErr, e));
    }
    if let Some(e) = lit(cx, pos, ">>?", f) {
        return Some((RedirectMode::NoClobberAppend, e));
    }
    if let Some(e) = lit(cx, pos, ">>&", f) {
        return Some((RedirectMode::DupOutput, e));
    }
    if let Some(e) = lit(cx, pos, ">>", f) {
        return Some((RedirectMode::Append, e));
    }
    if let Some(e) = lit(cx, pos, ">&", f) {
        return Some((RedirectMode::DupOutput, e));
    }
    if let Some(e) = lit(cx, pos, "<&", f) {
        return Some((RedirectMode::DupInput, e));
    }
    if let Some(e) = lit(cx, pos, "<?", f) {
        return Some((RedirectMode::SafeInput, e));
    }
    if let Some(e) = lit(cx, pos, ">?", f) {
        return Some((RedirectMode::NoClobberOutput, e));
    }
    if let Some(e) = lit(cx, pos, ">", f) {
        return Some((RedirectMode::Output, e));
    }
    if let Some(e) = lit(cx, pos, "<", f) {
        return Some((RedirectMode::Input, e));
    }
    if let Some(e) = lit(cx, pos, "^^", f) {
        return Some((RedirectMode::AppendAndErr, e));
    }
    if let Some(e) = lit(cx, pos, "^", f) {
        return Some((RedirectMode::OutputAndErr, e));
    }
    None
}

/// `[0-9]*` fits in a `u32`.
fn fd_number(cx: &Ctx, pos: usize, f: &mut Furthest) -> (r: Option<(u32, usize)>)
    requires
        cx.wf(),
        pos <= cx.s@.len(),
    ensures
        final(f).pos >= old(f).pos,
        match r {
            Some((n, e)) => syntax::fd_number(cx.s@, pos as int) == Some((n as nat, e as int)),
            None => syntax::fd_number(cx.s@, pos as int) is None,
        },
        r matches Some((_, e)) ==> pos < e <= cx.s@.len(),
{
    match number(cx, pos, 0xffff_ffffusize, f) {
        Some((n, e)) => Some((n as u32, e)),
        None => None,
    }
}

/// `N? MODE _* TARGET`.
fn redirection(cx: &Ctx, pos: usize, f: &mut Furthest) -> (r: Option<(Redirection, usize)>)
    requires
        cx.wf(),
        pos <= cx.s@.len(),
    ensures
        final(f).pos >= old(f).pos,
        end_of(r) == syntax::redirection(cx.s@, pos as int),
        r matches Some((_, e)) ==> pos < e <= cx.s@.len(),
        r matches Some((x, _)) ==> tree::redirection_value(cx.s@, pos as int, x),
    decreases cx.s@.len() - pos, 11int,
{
    let (fd, p) = match fd_number(cx, pos, f) {
        Some((n, e)) => (Some(n), e),
        None => (None, pos),
    };
    let (mode, p2) = match redirect_mode(cx, p, f) {
        Some(x) => x,
        None => {
            return None;
        },
    };
    let p3 = skip_ws(cx, p2);
    match word(cx, p3, false, f) {
        Some((target, e)) => Some((Redirection { fd, mode, target }, e)),
        None => None,
    }
}

/// `(_* redirection)*`: the redirections after a block.
fn redirections(cx: &Ctx, pos: usize, f: &mut Furthest) -> (r: (Vec<Redirection>, usize))
    requires
        cx.wf(),
        pos <= cx.s@.len(),
    ensures
        final(f).pos >= old(f).pos,
        r.1 == syntax::redirections(cx.s@, pos as int),
        pos <= r.1 <= cx.s@.len(),
        tree::redirs_value(cx.s@, pos as int, r.0@),
    decreases cx.s@.len() - pos, 12int,
{
    let ghost s = cx.s@;
    let mut out: Vec<Redirection> = Vec::new();
    let mut p = pos;
    let ghost g_start0 = p as int;
    let ghost mut found: Seq<int> = seq![];
    proof {
        assert(found + tree::redir_starts(s, p as int) =~= tree::redir_starts(s, p as int));
    }
    loop
        invariant
            f.pos >= old(f).pos,
            cx.wf(),
            s == cx.s@,
            pos <= p <= cx.s@.len(),
            syntax::redirections(s, g_start0) == syntax::redirections(s, p as int),
            tree::redir_starts(s, g_start0) == found + tree::redir_starts(s, p as int),
            out@.len() == found.len(),
            forall|i: int| 0 <= i < found.len() ==> tree::redirection_value(s, found[i], #[trigger] out@[i]),
        ensures
            pos <= p <= cx.s@.len(),
            syntax::redirections(s, g_start0) == p as int,
            tree::redir_starts(s, g_start0) == found,
            out@.len() == found.len(),
            forall|i: int| 0 <= i < found.len() ==> tree::redirection_value(s, found[i], #[trigger] out@[i]),
        decreases cx.s@.len() - p,
    {
        let q = skip_ws(cx, p);
        match redirection(cx, q, f) {
            Some((r, e)) => {
                proof {
                    tree::lemma_redir_starts_next(s, p as int, q as int, e as int, found);
                    found = found.push(q as int);
                }
                out.push(r);
                p = e;
            },
            None => {
                proof {
                    tree::lemma_redir_starts_none(s, p as int, q as int, found);
                }
                break;
            },
        }
    }
    (out, p)
}

/// `NAME=value`.
fn assignment(cx: &Ctx, pos: usize, f: &mut Furthest) -> (r: Option<(VariableAssignment, usize)>)
    requires
        cx.wf(),
        pos <= cx.s@.len(),
    ensures
        final(f).pos >= old(f).pos,
        end_of(r) == syntax::assignment(cx.s@, pos as int),
        r matches Some((_, e)) ==> pos < e <= cx.s@.len(),
        r matches Some((x, _)) ==> tree::assignment_value(cx.s@, pos as int, x),
    decreases cx.s@.len() - pos, 11int,
{
    proof {
        reveal_strlit("=");
    }
    let (name, p) = match ident(cx, pos, f) {
        Some(x) => x,
        None => {
            return None;
        },
    };
    let p2 = match lit(cx, p, "=", f) {
        Some(e) => e,
        None => {
            return None;
        },
    };
    match word(cx, p2, false, f) {
        Some((value, e)) => Some((VariableAssignment { name, value }, e)),
        None => None,
    }
}

/// A command item: a redirection or a word (but not `N>|`, a pipe),
/// added to the redirections or to the arguments.
fn command_item(
    cx: &Ctx,
    pos: usize,
    args: &mut Vec<Word>,
    redirs: &mut Vec<Redirection>,
    Ghost(st): Ghost<Seq<int>>,
    f: &mut Furthest,
) -> (r: Option<usize>)
    requires
        cx.wf(),
        pos <= cx.s@.len(),
        tree::items_value(cx.s@, st, old(args)@, old(redirs)@),
    ensures
        final(f).pos >= old(f).pos,
        opt_int(r) == syntax::command_item(cx.s@, pos as int),
        r matches Some(e) ==> pos < e <= cx.s@.len(),
        r is None ==> final(args)@ == old(args)@ && final(redirs)@ == old(redirs)@,
        r is Some ==> tree::items_value(cx.s@, st.push(pos as int), final(args)@, final(redirs)@),
    decreases cx.s@.len() - pos, 12int,
{
    let ghost s = cx.s@;
    proof {
        tree::lemma_items_push(s, st, pos as int);
        reveal(tree::items_value);
    }
    if fd_pipe_here(cx, pos) {
        return None;
    }
    match redirection(cx, pos, f) {
        Some((r, e)) => {
            let ghost old_redirs = redirs@;
            redirs.push(r);
            proof {
                assert forall|i: int|
                    0 <= i < tree::redir_items(s, st.push(pos as int)).len() implies tree::redirection_value(
                    s,
                    tree::redir_items(s, st.push(pos as int))[i],
                    #[trigger] redirs@[i],
                ) by {
                    if i < old_redirs.len() {
                        assert(redirs@[i] == old_redirs[i]);
                    }
                }
            }
            return Some(e);
        },
        None => {},
    }
    match word(cx, pos, false, f) {
        Some((w, e)) => {
            let ghost old_args = args@;
            args.push(w);
            proof {
                assert forall|i: int|
                    0 <= i < tree::word_items(s, st.push(pos as int)).len() implies tree::word_value(
                    s,
                    tree::word_items(s, st.push(pos as int))[i],
                    false,
                    #[trigger] args@[i],
                ) by {
                    if i < old_args.len() {
                        assert(args@[i] == old_args[i]);
                    }
                }
            }
            Some(e)
        },
        None => None,
    }
}

/// `(assignment arg_sep)* item (arg_sep item)*`; a command may not start
/// with a reserved word.
#[verifier::rlimit(30)]
fn command(cx: &Ctx, pos: usize, f: &mut Furthest) -> (r: Option<(Command, usize)>)
    requires
        cx.wf(),
        pos <= cx.s@.len(),
    ensures
        final(f).pos >= old(f).pos,
        end_of(r) == syntax::command(cx.s@, pos as int),
        r matches Some((_, e)) ==> pos < e <= cx.s@.len(),
        r matches Some((c, _)) ==> tree::command_value(cx.s@, pos as int, c),
    decreases cx.s@.len() - pos, 13int,
{
    let ghost s = cx.s@;
    let mut assignments: Vec<VariableAssignment> = Vec::new();
    let mut p = pos;
    let ghost g_start0 = p as int;
    let ghost mut afound: Seq<int> = seq![];
    proof {
        assert(afound + tree::assign_starts(s, p as int) =~= tree::assign_starts(s, p as int));
    }
    loop
        invariant
            f.pos >= old(f).pos,
            cx.wf(),
            s == cx.s@,
            pos <= p <= cx.s@.len(),
            syntax::assignments(s, g_start0) == syntax::assignments(s, p as int),
            tree::assign_starts(s, g_start0) == afound + tree::assign_starts(s, p as int),
            assignments@.len() == afound.len(),
            forall|i: int|
                0 <= i < afound.len() ==> tree::assignment_value(s, afound[i], #[trigger] assignments@[i]),
        ensures
            pos <= p <= cx.s@.len(),
            syntax::assignments(s, g_start0) == p as int,
            tree::assign_starts(s, g_start0) == afound,
            assignments@.len() == afound.len(),
            forall|i: int|
                0 <= i < afound.len() ==> tree::assignment_value(s, afound[i], #[trigger] assignments@[i]),
        decreases cx.s@.len() - p,
    {
        match assignment(cx, p, f) {
            Some((a, e)) => match arg_sep(cx, e, f) {
                Some(e2) => {
                    proof {
                        tree::lemma_assign_starts_next(s, p as int, e as int, e2 as int, afound);
                        afound = afound.push(p as int);
                    }
                    assignments.push(a);
                    p = e2;
                },
                None => {
                    proof {
                        tree::lemma_assign_starts_none(s, p as int, afound);
                    }
                    break;
                },
            },
            None => {
                proof {
                    tree::lemma_assign_starts_none(s, p as int, afound);
                }
                break;
            },
        }
    }
    if reserved_here(cx, p) {
        expect(f, p, "a command");
        return None;
    }
    let mut args: Vec<Word> = Vec::new();
    let mut redirs: Vec<Redirection> = Vec::new();
    proof {
        tree::lemma_items_empty(s);
    }
    let mut cur = match command_item(cx, p, &mut args, &mut redirs, Ghost(Seq::<int>::empty()), f) {
        Some(e) => e,
        None => {
            return None;
        },
    };
    let ghost g_start1 = cur as int;
    let ghost mut ifound: Seq<int> = seq![p as int];
    proof {
        assert(seq![p as int] =~= Seq::<int>::empty().push(p as int));
        assert(ifound + tree::item_starts(s, cur as int) == tree::command_item_starts(s, pos as int));
    }
    loop
        invariant
            f.pos >= old(f).pos,
            cx.wf(),
            s == cx.s@,
            pos < cur <= cx.s@.len(),
            syntax::command_items(s, g_start1) == syntax::command_items(s, cur as int),
            tree::command_item_starts(s, pos as int) == ifound + tree::item_starts(s, cur as int),
            tree::items_value(s, ifound, args@, redirs@),
        ensures
            pos < cur <= cx.s@.len(),
            syntax::command_items(s, g_start1) == cur as int,
            tree::command_item_starts(s, pos as int) == ifound,
            tree::items_value(s, ifound, args@, redirs@),
        decreases cx.s@.len() - cur,
    {
        match arg_sep(cx, cur, f) {
            Some(q) => match command_item(cx, q, &mut args, &mut redirs, Ghost(ifound), f) {
                Some(e) => {
                    proof {
                        tree::lemma_item_starts_next(s, cur as int, q as int, e as int, ifound);
                        ifound = ifound.push(q as int);
                    }
                    cur = e;
                },
                None => {
                    proof {
                        tree::lemma_item_starts_none(s, cur as int, ifound);
                    }
                    break;
                },
            },
            None => {
                proof {
                    tree::lemma_item_starts_none(s, cur as int, ifound);
                }
                break;
            },
        }
    }
    proof {
        tree::lemma_items_split(s, ifound, args@, redirs@);
        tree::lemma_command_items(s, pos as int);
    }
    Some((Command { assignments, args, redirections: redirs }, cur))
}

/// `_* ("&|" / "|&" / N? ">|" / "|")` and the space after it.
fn pipe_sep(cx: &Ctx, pos: usize, f: &mut Furthest) -> (r: Option<(PipeOperator, usize)>)
    requires
        cx.wf(),
        pos <= cx.s@.len(),
    ensures
        final(f).pos >= old(f).pos,
        match r {
            Some((op, e)) => syntax::pipe_sep(cx.s@, pos as int) == Some((op, e as int)),
            None => syntax::pipe_sep(cx.s@, pos as int) is None,
        },
        r matches Some((_, e)) ==> pos < e <= cx.s@.len(),
{
    let q = skip_ws(cx, pos);
    let (op, e) = if let Some(e) = lit(cx, q, "&|", f) {
        (PipeOperator::StdoutAndStderr, e)
    } else if let Some(e) = lit(cx, q, "|&", f) {
        (PipeOperator::StdoutAndStderr, e)
    } else {
        let (fd, p) = match fd_number(cx, q, f) {
            Some((n, e)) => (n, e),
            None => (1u32, q),
        };
        if let Some(e) = lit(cx, p, ">|", f) {
            (PipeOperator::Fd(fd), e)
        } else if let Some(e) = lit(cx, q, "|", f) {
            (PipeOperator::Stdout, e)
        } else {
            return None;
        }
    };
    Some((op, cont_space(cx, e)))
}

/// A pipeline stage: a block or a command.
fn element(cx: &Ctx, pos: usize, f: &mut Furthest) -> (r: Option<(PipelineElement, usize)>)
    requires
        cx.wf(),
        pos <= cx.s@.len(),
    ensures
        final(f).pos >= old(f).pos,
        end_of(r) == syntax::element(cx.s@, pos as int),
        r matches Some((_, e)) ==> pos < e <= cx.s@.len(),
        r matches Some((el, _)) ==> statements::element_value(cx.s@, pos as int, el),
    decreases cx.s@.len() - pos, 17int,
{
    match block(cx, pos, f) {
        Some((st, e)) => {
            return Some((PipelineElement::Block(st), e));
        },
        None => {},
    }
    match command(cx, pos, f) {
        Some((c, e)) => Some((PipelineElement::Command(c), e)),
        None => None,
    }
}

/// `and`/`or` (followed by space) or `&&`/`||` before a pipeline.
fn combinator_prefix(cx: &Ctx, pos: usize, f: &mut Furthest) -> (r: (Combinator, usize))
    requires
        cx.wf(),
        pos <= cx.s@.len(),
    ensures
        final(f).pos >= old(f).pos,
        (r.0, r.1 as int) == syntax::combinator_prefix(cx.s@, pos as int),
        pos <= r.1 <= cx.s@.len(),
{
    if let Some(e) = keyword(cx, pos, "and", f) {
        if let Some(e2) = ws1(cx, e, f) {
            return (Combinator::And, e2);
        }
    }
    if let Some(e) = keyword(cx, pos, "or", f) {
        if let Some(e2) = ws1(cx, e, f) {
            return (Combinator::Or, e2);
        }
    }
    if let Some(e) = lit(cx, pos, "&&", f) {
        return (Combinator::And, skip_ws(cx, e));
    }
    if let Some(e) = lit(cx, pos, "||", f) {
        return (Combinator::Or, skip_ws(cx, e));
    }
    (Combinator::Plain, pos)
}

/// `not` (followed by space) or `!`.
fn negation(cx: &Ctx, pos: usize, f: &mut Furthest) -> (r: (bool, usize))
    requires
        cx.wf(),
        pos <= cx.s@.len(),
    ensures
        final(f).pos >= old(f).pos,
        (r.0, r.1 as int) == syntax::negation(cx.s@, pos as int),
        pos <= r.1 <= cx.s@.len(),
{
    if let Some(e) = keyword(cx, pos, "not", f) {
        if let Some(e2) = ws1(cx, e, f) {
            return (true, e2);
        }
    }
    if let Some(e) = lit(cx, pos, "!", f) {
        return (true, skip_ws(cx, e));
    }
    (false, pos)
}

/// `combinator? _* negation? element (pipe_sep element)* (_* "&")?`.
fn pipeline(cx: &Ctx, pos: usize, f: &mut Furthest) -> (r: Option<(Pipeline, usize)>)
    requires
        cx.wf(),
        pos <= cx.s@.len(),
    ensures
        final(f).pos >= old(f).pos,
        end_of(r) == syntax::pipeline(cx.s@, pos as int),
        r matches Some((p, e)) ==> pos < e <= cx.s@.len() && p.elements@.len() > 0
            && p.pipe_operators@.len() + 1 == p.elements@.len(),
        r matches Some((p, _)) ==> statements::pipeline_value(
            cx.s@,
            pos as int,
            syntax::combinator_prefix(cx.s@, pos as int).0,
            p,
        ),
    decreases cx.s@.len() - pos, 18int,
{
    let ghost s = cx.s@;
    let (combinator, p1) = combinator_prefix(cx, pos, f);
    let p2 = skip_ws(cx, p1);
    let (negate, p3) = negation(cx, p2, f);
    let (first, mut cur) = match element(cx, p3, f) {
        Some(x) => x,
        None => {
            return None;
        },
    };
    let mut elements: Vec<PipelineElement> = Vec::new();
    let mut pipe_operators: Vec<PipeOperator> = Vec::new();
    elements.push(first);
    let ghost g_start0 = cur as int;
    let ghost mut found: Seq<(PipeOperator, int)> = seq![];
    proof {
        assert(found + statements::stage_links(s, cur as int) =~= statements::stage_links(
            s,
            cur as int,
        ));
    }
    loop
        invariant
            f.pos >= old(f).pos,
            cx.wf(),
            s == cx.s@,
            pos < cur <= cx.s@.len(),
            elements@.len() > 0,
            pipe_operators@.len() + 1 == elements@.len(),
            syntax::stages(s, g_start0) == syntax::stages(s, cur as int),
            statements::stage_links(s, g_start0) == found + statements::stage_links(s, cur as int),
            elements@.len() == found.len() + 1,
            statements::element_value(s, p3 as int, elements@[0]),
            forall|i: int|
                1 <= i < elements@.len() ==> statements::element_value(
                    s,
                    found[i - 1].1,
                    #[trigger] elements@[i],
                ),
            forall|i: int| 0 <= i < found.len() ==> #[trigger] pipe_operators@[i] == found[i].0,
        ensures
            pos < cur <= cx.s@.len(),
            elements@.len() > 0,
            pipe_operators@.len() + 1 == elements@.len(),
            syntax::stages(s, g_start0) == cur as int,
            statements::stage_links(s, g_start0) == found,
            elements@.len() == found.len() + 1,
            statements::element_value(s, p3 as int, elements@[0]),
            forall|i: int|
                1 <= i < elements@.len() ==> statements::element_value(
                    s,
                    found[i - 1].1,
                    #[trigger] elements@[i],
                ),
            forall|i: int| 0 <= i < found.len() ==> #[trigger] pipe_operators@[i] == found[i].0,
        decreases cx.s@.len() - cur,
    {
        match pipe_sep(cx, cur, f) {
            Some((op, q)) => match element(cx, q, f) {
                Some((el, e)) => {
                    proof {
                        statements::lemma_stage_links_next(s, cur as int, op, q as int, e as int, found);
                        found = found.push((op, q as int));
                    }
                    let ghost old_el = elements@;
                    let ghost old_ops = pipe_operators@;
                    pipe_operators.push(op);
                    elements.push(el);
                    proof {
                        assert(elements@[0] == old_el[0]);
                        assert forall|i: int|
                            1 <= i < elements@.len() implies statements::element_value(
                            s,
                            found[i - 1].1,
                            #[trigger] elements@[i],
                        ) by {
                            if i < old_el.len() {
                                assert(elements@[i] == old_el[i]);
                            }
                        }
                        assert forall|i: int| 0 <= i < found.len() implies #[trigger] pipe_operators@[i]
                            == found[i].0 by {
                            if i < old_ops.len() {
                                assert(pipe_operators@[i] == old_ops[i]);
                            }
                        }
                    }
                    cur = e;
                },
                None => {
                    proof {
                        statements::lemma_stage_links_none(s, cur as int, found);
                    }
                    break;
                },
            },
            None => {
                proof {
                    statements::lemma_stage_links_none(s, cur as int, found);
                }
                break;
            },
        }
    }
    let q = skip_ws(cx, cur);
    let mut background = false;
    if at(cx, q, '&') && !at(cx, q + 1, '&') && !at(cx, q + 1, '>') && !(q + 1 < cx.s.len()
        && !separating(cx.s[q + 1])) {
        background = true;
        cur = q + 1;
    }
    Some((Pipeline { negate, elements, pipe_operators, combinator, background }, cur))
}

/// `pipeline (cont_space ("and" / "or" / "&&" / "||") cont_space pipeline)*`;
/// each later pipeline is joined by its operator.
fn chain(cx: &Ctx, pos: usize, f: &mut Furthest) -> (r: Option<(Vec<Pipeline>, usize)>)
    requires
        cx.wf(),
        pos <= cx.s@.len(),
    ensures
        final(f).pos >= old(f).pos,
        end_of(r) == syntax::chain(cx.s@, pos as int),
        r matches Some((ps, e)) ==> pos < e <= cx.s@.len() && ps@.len() > 0,
        r matches Some((ps, _)) ==> statements::chain_value(cx.s@, pos as int, ps@),
    decreases cx.s@.len() - pos, 19int,
{
    let ghost s = cx.s@;
    let (first, mut cur) = match pipeline(cx, pos, f) {
        Some(x) => x,
        None => {
            return None;
        },
    };
    let mut ps: Vec<Pipeline> = Vec::new();
    ps.push(first);
    let ghost g_start0 = cur as int;
    let ghost mut found: Seq<(Combinator, int)> = seq![
        (syntax::combinator_prefix(s, pos as int).0, pos as int),
    ];
    proof {
        assert(found + statements::chain_links(s, cur as int) == statements::chain_parts(
            s,
            pos as int,
        ));
    }
    loop
        invariant
            f.pos >= old(f).pos,
            cx.wf(),
            s == cx.s@,
            pos < cur <= cx.s@.len(),
            ps@.len() > 0,
            syntax::links(s, g_start0) == syntax::links(s, cur as int),
            statements::chain_parts(s, pos as int) == found + statements::chain_links(s, cur as int),
            ps@.len() == found.len(),
            forall|i: int|
                0 <= i < found.len() ==> statements::pipeline_value(
                    s,
                    found[i].1,
                    found[i].0,
                    #[trigger] ps@[i],
                ),
        ensures
            pos < cur <= cx.s@.len(),
            ps@.len() > 0,
            syntax::links(s, g_start0) == cur as int,
            statements::chain_parts(s, pos as int) == found,
            ps@.len() == found.len(),
            forall|i: int|
                0 <= i < found.len() ==> statements::pipeline_value(
                    s,
                    found[i].1,
                    found[i].0,
                    #[trigger] ps@[i],
                ),
        decreases cx.s@.len() - cur,
    {
        let a = cont_space(cx, cur);
        let (comb, b) = if let Some(e) = keyword(cx, a, "and", f) {
            (Combinator::And, e)
        } else if let Some(e) = keyword(cx, a, "or", f) {
            (Combinator::Or, e)
        } else if let Some(e) = lit(cx, a, "&&", f) {
            (Combinator::And, e)
        } else if let Some(e) = lit(cx, a, "||", f) {
            (Combinator::Or, e)
        } else {
            proof {
                statements::lemma_chain_links_none(s, cur as int, found);
            }
            break;
        };
        assert(syntax::chain_op(s, a as int) == Some((comb, b as int)));
        let c = cont_space(cx, b);
        match pipeline(cx, c, f) {
            Some((mut p, e)) => {
                proof {
                    statements::lemma_chain_links_next(
                        s,
                        cur as int,
                        comb,
                        b as int,
                        c as int,
                        e as int,
                        found,
                    );
                    found = found.push((comb, c as int));
                }
                p.combinator = comb;
                let ghost old_ps = ps@;
                ps.push(p);
                proof {
                    assert forall|i: int|
                        0 <= i < found.len() implies statements::pipeline_value(
                        s,
                        found[i].1,
                        found[i].0,
                        #[trigger] ps@[i],
                    ) by {
                        if i < old_ps.len() {
                            assert(ps@[i] == old_ps[i]);
                        }
                    }
                }
                cur = e;
            },
            None => {
                proof {
                    statements::lemma_chain_links_none(s, cur as int, found);
                }
                break;
            },
        }
    }
    Some((ps, cur))
}

/// The line of position `pos`.
fn line_at(cx: &Ctx, pos: usize) -> (r: usize)
    requires
        cx.wf(),
        pos <= cx.s@.len(),
    ensures
        r == line_of(cx.s@, pos as int),
{
    cx.lines[pos]
}

fn span(cx: &Ctx, start: usize, end: usize) -> (r: SourceSpan)
    requires
        cx.wf(),
        start <= end <= cx.s@.len(),
    ensures
        r.start_line == line_of(cx.s@, start as int),
        r.end_line == line_of(cx.s@, end as int),
{
    SourceSpan { start_line: line_at(cx, start), end_line: line_at(cx, end) }
}

/// `KEYWORD _+`.
fn keyword_ws(cx: &Ctx, pos: usize, k: &'static str, f: &mut Furthest) -> (r: Option<usize>)
    requires
        cx.wf(),
        pos <= cx.s@.len(),
    ensures
        final(f).pos >= old(f).pos,
        opt_int(r) == syntax::keyword_ws(cx.s@, pos as int, k@),
        r matches Some(e) ==> pos < e <= cx.s@.len(),
{
    match keyword(cx, pos, k, f) {
        Some(e) => ws1(cx, e, f),
        None => None,
    }
}

/// `"end" !keyword_char` and the redirections after it.
fn block_end(cx: &Ctx, pos: usize, f: &mut Furthest) -> (r: Option<(Vec<Redirection>, usize)>)
    requires
        cx.wf(),
        pos <= cx.s@.len(),
    ensures
        final(f).pos >= old(f).pos,
        end_of(r) == syntax::block_end(cx.s@, pos as int),
        r matches Some((_, e)) ==> pos < e <= cx.s@.len(),
        r matches Some((rs, _)) ==> tree::redirs_value(
            cx.s@,
            syntax::keyword(cx.s@, pos as int, "end"@).unwrap(),
            rs@,
        ),
    decreases cx.s@.len() - pos, 14int,
{
    match keyword(cx, pos, "end", f) {
        Some(e) => Some(redirections(cx, e, f)),
        None => None,
    }
}

/// `if CHAIN sep BODY (else if CHAIN sep BODY)* (else sep BODY)? end REDIRS`.
fn if_block(cx: &Ctx, pos: usize, f: &mut Furthest) -> (r: Option<(StatementKind, usize)>)
    requires
        cx.wf(),
        pos <= cx.s@.len(),
    ensures
        final(f).pos >= old(f).pos,
        end_of(r) == syntax::if_block(cx.s@, pos as int),
        r matches Some((_, e)) ==> pos < e <= cx.s@.len(),
        r matches Some((k, _)) ==> k matches StatementKind::If(x) && statements::if_value(
            cx.s@,
            pos as int,
            x,
        ),
    decreases cx.s@.len() - pos, 15int,
{
    let p = match keyword_ws(cx, pos, "if", f) {
        Some(e) => e,
        None => {
            return None;
        },
    };
    let (condition, p2) = match chain(cx, p, f) {
        Some(x) => x,
        None => {
            return None;
        },
    };
    let p3 = match sep(cx, p2, f) {
        Some(e) => e,
        None => {
            return None;
        },
    };
    let ghost s = cx.s@;
    let (then_body, mut cur) = statement_list(cx, p3, f);
    let mut elif_branches: Vec<(Vec<Pipeline>, Vec<Statement>)> = Vec::new();
    let ghost g_start0 = cur as int;
    let ghost mut found: Seq<int> = seq![];
    proof {
        assert(found + statements::elif_starts(s, cur as int) =~= statements::elif_starts(
            s,
            cur as int,
        ));
    }
    loop
        invariant
            f.pos >= old(f).pos,
            cx.wf(),
            s == cx.s@,
            pos < cur <= cx.s@.len(),
            syntax::elifs(s, g_start0) == syntax::elifs(s, cur as int),
            statements::elif_starts(s, g_start0) == found + statements::elif_starts(s, cur as int),
            elif_branches@.len() == found.len(),
            forall|i: int|
                0 <= i < found.len() ==> statements::elif_value(
                    s,
                    found[i],
                    #[trigger] elif_branches@[i],
                ),
        ensures
            pos < cur <= cx.s@.len(),
            syntax::elifs(s, g_start0) == cur as int,
            statements::elif_starts(s, g_start0) == found,
            elif_branches@.len() == found.len(),
            forall|i: int|
                0 <= i < found.len() ==> statements::elif_value(
                    s,
                    found[i],
                    #[trigger] elif_branches@[i],
                ),
        decreases cx.s@.len() - cur,
    {
        let a = match keyword_ws(cx, cur, "else", f) {
            Some(e) => e,
            None => {
                proof {
                    statements::lemma_elif_starts_none(s, cur as int, found);
                }
                break;
            },
        };
        let b = match keyword_ws(cx, a, "if", f) {
            Some(e) => e,
            None => {
                proof {
                    statements::lemma_elif_starts_none(s, cur as int, found);
                }
                break;
            },
        };
        let (cond, c) = match chain(cx, b, f) {
            Some(x) => x,
            None => {
                proof {
                    statements::lemma_elif_starts_none(s, cur as int, found);
                }
                break;
            },
        };
        let d = match sep(cx, c, f) {
            Some(e) => e,
            None => {
                proof {
                    statements::lemma_elif_starts_none(s, cur as int, found);
                }
                break;
            },
        };
        let (body, e) = statement_list(cx, d, f);
        proof {
            statements::lemma_elif_starts_next(
                s,
                cur as int,
                a as int,
                b as int,
                c as int,
                d as int,
                e as int,
                found,
            );
            found = found.push(cur as int);
        }
        let ghost old_br = elif_branches@;
        elif_branches.push((cond, body));
        proof {
            assert forall|i: int|
                0 <= i < found.len() implies statements::elif_value(
                s,
                found[i],
                #[trigger] elif_branches@[i],
            ) by {
                if i < old_br.len() {
                    assert(elif_branches@[i] == old_br[i]);
                }
            }
        }
        cur = e;
    }
    let mut else_body: Option<Vec<Statement>> = None;
    match keyword(cx, cur, "else", f) {
        Some(a) => match sep(cx, a, f) {
            Some(b) => {
                let (body, e) = statement_list(cx, b, f);
                else_body = Some(body);
                cur = e;
            },
            None => {},
        },
        None => {},
    }
    match block_end(cx, cur, f) {
        Some((redirections, e)) => Some(
            (
                StatementKind::If(
                    IfStatement { condition, then_body, elif_branches, else_body, redirections },
                ),
                e,
            ),
        ),
        None => None,
    }
}

/// `switch WORD sep (case WORD (_+ WORD)* sep BODY)* end REDIRS`.
fn switch_block(cx: &Ctx, pos: usize, f: &mut Furthest) -> (r: Option<(StatementKind, usize)>)
    requires
        cx.wf(),
        pos <= cx.s@.len(),
    ensures
        final(f).pos >= old(f).pos,
        end_of(r) == syntax::switch_block(cx.s@, pos as int),
        r matches Some((_, e)) ==> pos < e <= cx.s@.len(),
        r matches Some((k, _)) ==> k matches StatementKind::Switch(x) && statements::switch_value(
            cx.s@,
            pos as int,
            x,
        ),
    decreases cx.s@.len() - pos, 15int,
{
    let p = match keyword_ws(cx, pos, "switch", f) {
        Some(e) => e,
        None => {
            return None;
        },
    };
    let (value, p2) = match word(cx, p, false, f) {
        Some(x) => x,
        None => {
            return None;
        },
    };
    let mut cur = match sep(cx, p2, f) {
        Some(e) => e,
        None => {
            return None;
        },
    };
    let ghost s = cx.s@;
    let mut cases: Vec<CaseClause> = Vec::new();
    let ghost g_start0 = cur as int;
    let ghost mut found: Seq<int> = seq![];
    proof {
        assert(found + statements::case_starts(s, cur as int) =~= statements::case_starts(
            s,
            cur as int,
        ));
    }
    loop
        invariant
            f.pos >= old(f).pos,
            cx.wf(),
            s == cx.s@,
            pos < cur <= cx.s@.len(),
            syntax::cases(s, g_start0) == syntax::cases(s, cur as int),
            statements::case_starts(s, g_start0) == found + statements::case_starts(s, cur as int),
            cases@.len() == found.len(),
            forall|i: int|
                0 <= i < found.len() ==> statements::case_value(s, found[i], #[trigger] cases@[i]),
        ensures
            pos < cur <= cx.s@.len(),
            syntax::cases(s, g_start0) == cur as int,
            statements::case_starts(s, g_start0) == found,
            cases@.len() == found.len(),
            forall|i: int|
                0 <= i < found.len() ==> statements::case_value(s, found[i], #[trigger] cases@[i]),
        decreases cx.s@.len() - cur,
    {
        let a = match keyword_ws(cx, cur, "case", f) {
            Some(e) => e,
            None => {
                proof {
                    statements::lemma_case_starts_none(s, cur as int, found);
                }
                break;
            },
        };
        let (first, b0) = match word(cx, a, false, f) {
            Some(x) => x,
            None => {
                proof {
                    statements::lemma_case_starts_none(s, cur as int, found);
                }
                break;
            },
        };
        let (mut more, b) = spaced_words(cx, b0, f);
        let ghost more_v = more@;
        let mut patterns: Vec<Word> = Vec::new();
        patterns.push(first);
        patterns.append(&mut more);
        let c = match sep(cx, b, f) {
            Some(e) => e,
            None => {
                proof {
                    statements::lemma_case_starts_none(s, cur as int, found);
                }
                break;
            },
        };
        let (body, e) = statement_list(cx, c, f);
        proof {
            statements::lemma_case_starts_next(
                s,
                cur as int,
                a as int,
                b0 as int,
                c as int,
                e as int,
                found,
            );
            let st = seq![a as int] + statements::spaced_starts(s, b0 as int);
            assert forall|i: int| 0 <= i < st.len() implies tree::word_value(
                s,
                st[i],
                false,
                #[trigger] patterns@[i],
            ) by {
                if i > 0 {
                    assert(patterns@[i] == more_v[i - 1]);
                }
            }
            found = found.push(cur as int);
        }
        let ghost old_cases = cases@;
        cases.push(CaseClause { patterns, body });
        proof {
            assert forall|i: int|
                0 <= i < found.len() implies statements::case_value(s, found[i], #[trigger] cases@[i]) by {
                if i < old_cases.len() {
                    assert(cases@[i] == old_cases[i]);
                }
            }
        }
        cur = e;
    }
    match block_end(cx, cur, f) {
        Some((redirections, e)) => Some(
            (StatementKind::Switch(SwitchStatement { value, cases, redirections }), e),
        ),
        None => None,
    }
}

/// `(_+ WORD)*`: the words, and where they end.
fn spaced_words(cx: &Ctx, pos: usize, f: &mut Furthest) -> (r: (Vec<Word>, usize))
    requires
        cx.wf(),
        pos <= cx.s@.len(),
    ensures
        final(f).pos >= old(f).pos,
        r.1 == syntax::spaced_words(cx.s@, pos as int),
        pos <= r.1 <= cx.s@.len(),
        tree::words_value(cx.s@, statements::spaced_starts(cx.s@, pos as int), r.0@),
    decreases cx.s@.len() - pos, 14int,
{
    let ghost s = cx.s@;
    let mut out: Vec<Word> = Vec::new();
    let mut cur = pos;
    let ghost mut found: Seq<int> = seq![];
    proof {
        assert(found + statements::spaced_starts(s, cur as int) =~= statements::spaced_starts(
            s,
            cur as int,
        ));
    }
    loop
        invariant
            f.pos >= old(f).pos,
            cx.wf(),
            s == cx.s@,
            pos <= cur <= cx.s@.len(),
            syntax::spaced_words(s, pos as int) == syntax::spaced_words(s, cur as int),
            statements::spaced_starts(s, pos as int) == found + statements::spaced_starts(
                s,
                cur as int,
            ),
            tree::words_value(s, found, out@),
        ensures
            pos <= cur <= cx.s@.len(),
            syntax::spaced_words(s, pos as int) == cur as int,
            statements::spaced_starts(s, pos as int) == found,
            tree::words_value(s, found, out@),
        decreases cx.s@.len() - cur,
    {
        match ws1(cx, cur, f) {
            Some(q) => match word(cx, q, false, f) {
                Some((w, e)) => {
                    proof {
                        statements::lemma_spaced_starts_next(s, cur as int, q as int, e as int, found);
                        found = found.push(q as int);
                    }
                    let ghost old_out = out@;
                    out.push(w);
                    proof {
                        assert forall|i: int| 0 <= i < found.len() implies tree::word_value(
                            s,
                            found[i],
                            false,
                            #[trigger] out@[i],
                        ) by {
                            if i < old_out.len() {
                                assert(out@[i] == old_out[i]);
                            }
                        }
                    }
                    cur = e;
                },
                None => {
                    proof {
                        statements::lemma_spaced_starts_none(s, cur as int, found);
                    }
                    break;
                },
            },
            None => {
                proof {
                    statements::lemma_spaced_starts_none(s, cur as int, found);
                }
                break;
            },
        }
    }
    (out, cur)
}

/// `for NAME in (_+ WORD)* sep BODY end REDIRS`.
fn for_block(cx: &Ctx, pos: usize, f: &mut Furthest) -> (r: Option<(StatementKind, usize)>)
    requires
        cx.wf(),
        pos <= cx.s@.len(),
    ensures
        final(f).pos >= old(f).pos,
        end_of(r) == syntax::for_block(cx.s@, pos as int),
        r matches Some((_, e)) ==> pos < e <= cx.s@.len(),
        r matches Some((k, _)) ==> k matches StatementKind::For(x) && statements::for_value(
            cx.s@,
            pos as int,
            x,
        ),
    decreases cx.s@.len() - pos, 15int,
{
    let p = match keyword_ws(cx, pos, "for", f) {
        Some(e) => e,
        None => {
            return None;
        },
    };
    let (variable, p2) = match ident(cx, p, f) {
        Some(x) => x,
        None => {
            return None;
        },
    };
    let p3 = match ws1(cx, p2, f) {
        Some(e) => e,
        None => {
            return None;
        },
    };
    let c = match keyword(cx, p3, "in", f) {
        Some(e) => e,
        None => {
            return None;
        },
    };
    let (values, cur) = spaced_words(cx, c, f);
    let b = match sep(cx, cur, f) {
        Some(e) => e,
        None => {
            return None;
        },
    };
    let (body, c) = statement_list(cx, b, f);
    match block_end(cx, c, f) {
        Some((redirections, e)) => Some(
            (StatementKind::For(ForStatement { variable, values, body, redirections }), e),
        ),
        None => None,
    }
}

/// `while CHAIN sep BODY end REDIRS`.
fn while_block(cx: &Ctx, pos: usize, f: &mut Furthest) -> (r: Option<(StatementKind, usize)>)
    requires
        cx.wf(),
        pos <= cx.s@.len(),
    ensures
        final(f).pos >= old(f).pos,
        end_of(r) == syntax::while_block(cx.s@, pos as int),
        r matches Some((_, e)) ==> pos < e <= cx.s@.len(),
        r matches Some((k, _)) ==> k matches StatementKind::While(x) && statements::while_value(
            cx.s@,
            pos as int,
            x,
        ),
    decreases cx.s@.len() - pos, 15int,
{
    let p = match keyword_ws(cx, pos, "while", f) {
        Some(e) => e,
        None => {
            return None;
        },
    };
    let (condition, p2) = match chain(cx, p, f) {
        Some(x) => x,
        None => {
            return None;
        },
    };
    let p3 = match sep(cx, p2, f) {
        Some(e) => e,
        None => {
            return None;
        },
    };
    let (body, p4) = statement_list(cx, p3, f);
    match block_end(cx, p4, f) {
        Some((redirections, e)) => Some(
            (StatementKind::While(WhileStatement { condition, body, redirections }), e),
        ),
        None => None,
    }
}

/// `begin sep BODY end REDIRS`.
fn begin_block(cx: &Ctx, pos: usize, f: &mut Furthest) -> (r: Option<(StatementKind, usize)>)
    requires
        cx.wf(),
        pos <= cx.s@.len(),
    ensures
        final(f).pos >= old(f).pos,
        end_of(r) == syntax::begin_block(cx.s@, pos as int),
        r matches Some((_, e)) ==> pos < e <= cx.s@.len(),
        r matches Some((k, _)) ==> k matches StatementKind::BeginBlock(b) && b.combinator
            == Combinator::Plain && statements::begin_value(cx.s@, pos as int, b),
    decreases cx.s@.len() - pos, 15int,
{
    let p = match keyword(cx, pos, "begin", f) {
        Some(e) => e,
        None => {
            return None;
        },
    };
    let p2 = match sep(cx, p, f) {
        Some(e) => e,
        None => {
            return None;
        },
    };
    let (body, p3) = statement_list(cx, p2, f);
    match block_end(cx, p3, f) {
        Some((redirections, e)) => Some(
            (
                StatementKind::BeginBlock(
                    BeginBlock { combinator: Combinator::Plain, body, redirections },
                ),
                e,
            ),
        ),
        None => None,
    }
}

/// `"{" (_* [\n;])* _* BODY _* "}" REDIRS`.
fn compound_block(cx: &Ctx, pos: usize, f: &mut Furthest) -> (r: Option<(StatementKind, usize)>)
    requires
        cx.wf(),
        pos <= cx.s@.len(),
    ensures
        final(f).pos >= old(f).pos,
        end_of(r) == syntax::compound_block(cx.s@, pos as int),
        r matches Some((_, e)) ==> pos < e <= cx.s@.len(),
        r matches Some((k, _)) ==> k matches StatementKind::BeginBlock(b) && b.combinator
            == Combinator::Plain && statements::braces_value(cx.s@, pos as int, b),
    decreases cx.s@.len() - pos, 15int,
{
    proof {
        reveal_strlit("{");
        reveal_strlit("}");
    }
    let p = match lit(cx, pos, "{", f) {
        Some(e) => e,
        None => {
            return None;
        },
    };
    let p2 = match sep(cx, p, f) {
        Some(e) => e,
        None => skip_ws(cx, p),
    };
    let (body, p3) = statement_list(cx, p2, f);
    let p4 = skip_ws(cx, p3);
    let p5 = match lit(cx, p4, "}", f) {
        Some(e) => e,
        None => {
            return None;
        },
    };
    let (redirections, e) = redirections(cx, p5, f);
    Some(
        (
            StatementKind::BeginBlock(BeginBlock { combinator: Combinator::Plain, body, redirections }),
            e,
        ),
    )
}

/// A block statement: `if`, `switch`, `for`, `while`, `begin` or `{`.
#[verifier::rlimit(40)]
fn block(cx: &Ctx, pos: usize, f: &mut Furthest) -> (r: Option<(Statement, usize)>)
    requires
        cx.wf(),
        pos <= cx.s@.len(),
    ensures
        final(f).pos >= old(f).pos,
        end_of(r) == syntax::block(cx.s@, pos as int),
        r matches Some((_, e)) ==> pos < e <= cx.s@.len(),
        r matches Some((st, _)) ==> statements::block_value(cx.s@, pos as int, st),
    decreases cx.s@.len() - pos, 16int,
{
    proof {
        reveal(statements::block_alternative);
    }
    let found = if let Some(x) = if_block(cx, pos, f) {
        Some(x)
    } else if let Some(x) = switch_block(cx, pos, f) {
        Some(x)
    } else if let Some(x) = for_block(cx, pos, f) {
        Some(x)
    } else if let Some(x) = while_block(cx, pos, f) {
        Some(x)
    } else if let Some(x) = begin_block(cx, pos, f) {
        Some(x)
    } else {
        compound_block(cx, pos, f)
    };
    match found {
        Some((kind, e)) => Some((Statement { kind, span: span(cx, pos, e) }, e)),
        None => None,
    }
}


/// `"#" [^\n]*`: the text after `#`.
fn comment(cx: &Ctx, pos: usize, f: &mut Furthest) -> (r: Option<(StatementKind, usize)>)
    requires
        cx.wf(),
        pos <= cx.s@.len(),
    ensures
        final(f).pos >= old(f).pos,
        end_of(r) == syntax::comment(cx.s@, pos as int),
        r matches Some((_, e)) ==> pos < e <= cx.s@.len(),
        r matches Some((k, _)) ==> statements::comment_value(cx.s@, pos as int, k),
{
    proof {
        reveal_strlit("#");
    }
    match lit(cx, pos, "#", f) {
        Some(p) => {
            let e = line_end(cx, p);
            Some((StatementKind::Comment(text_between(cx, p, e)), e))
        },
        None => None,
    }
}

/// `return _+ WORD` or `return`.
fn return_statement(cx: &Ctx, pos: usize, f: &mut Furthest) -> (r: Option<(StatementKind, usize)>)
    requires
        cx.wf(),
        pos <= cx.s@.len(),
    ensures
        final(f).pos >= old(f).pos,
        end_of(r) == syntax::return_statement(cx.s@, pos as int),
        r matches Some((_, e)) ==> pos < e <= cx.s@.len(),
        r matches Some((k, _)) ==> statements::return_value(cx.s@, pos as int, k),
    decreases cx.s@.len() - pos, 20int,
{
    let p = match keyword(cx, pos, "return", f) {
        Some(e) => e,
        None => {
            return None;
        },
    };
    match ws1(cx, p, f) {
        Some(q) => match word(cx, q, false, f) {
            Some((w, e)) => {
                return Some((StatementKind::Return(Some(w)), e));
            },
            None => {},
        },
        None => {},
    }
    Some((StatementKind::Return(None), p))
}

/// `function WORD (_+ WORD)* sep BODY end`.
fn function_statement(cx: &Ctx, pos: usize, f: &mut Furthest) -> (r: Option<(StatementKind, usize)>)
    requires
        cx.wf(),
        pos <= cx.s@.len(),
    ensures
        final(f).pos >= old(f).pos,
        end_of(r) == syntax::function_statement(cx.s@, pos as int),
        r matches Some((_, e)) ==> pos < e <= cx.s@.len(),
        r matches Some((k, _)) ==> k matches StatementKind::Function(x) && statements::function_value(
            cx.s@,
            pos as int,
            x,
        ),
    decreases cx.s@.len() - pos, 20int,
{
    let p = match keyword_ws(cx, pos, "function", f) {
        Some(e) => e,
        None => {
            return None;
        },
    };
    let (name, w) = match word(cx, p, false, f) {
        Some(x) => x,
        None => {
            return None;
        },
    };
    let (options, cur) = spaced_words(cx, w, f);
    let b = match sep(cx, cur, f) {
        Some(e) => e,
        None => {
            return None;
        },
    };
    let (body, c) = statement_list(cx, b, f);
    match keyword(cx, c, "end", f) {
        Some(e) => Some((StatementKind::Function(FunctionStatement { name, options, body }), e)),
        None => None,
    }
}

/// A pipeline as a statement. A lone block stage, neither negated nor in
/// the background, is that block itself (a `begin`/`{` block takes the
/// pipeline's `and`/`or`; another block only when there is none).
fn pipeline_statement(
    p: Pipeline,
    span: SourceSpan,
    Ghost(s): Ghost<Seq<char>>,
    Ghost(pp): Ghost<int>,
    Ghost(comb): Ghost<Combinator>,
) -> (r: Statement)
    requires
        statements::pipeline_value(s, pp, comb, p),
    ensures
        r.span == span,
        statements::pipeline_stmt_value(s, pp, comb, r.kind),
{
    proof {
        statements::lemma_pipeline_shape(s, pp, comb, p);
    }
    let ghost h = syntax::pipeline_head(s, pp);
    let ghost p0 = p;
    let Pipeline { negate, mut elements, pipe_operators, combinator, background } = p;
    if elements.len() == 1 && !negate && !background {
        let first = elements.remove(0);
        match first {
            PipelineElement::Block(st) => {
                let begin = match &st.kind {
                    StatementKind::BeginBlock(_) => true,
                    _ => false,
                };
                let plain = match combinator {
                    Combinator::Plain => true,
                    _ => false,
                };
                if begin || plain {
                    let kind = match st.kind {
                        StatementKind::BeginBlock(b) => {
                            let b2 = BeginBlock {
                                combinator,
                                body: b.body,
                                redirections: b.redirections,
                            };
                            proof {
                                statements::lemma_begin_rejoined(s, h, b, b2, comb);
                            }
                            StatementKind::BeginBlock(b2)
                        },
                        other => other,
                    };
                    return Statement { kind, span };
                }
                elements.push(PipelineElement::Block(st));
            },
            PipelineElement::Command(c) => {
                elements.push(PipelineElement::Command(c));
            },
        }
        proof {
            assert(elements@ =~= p0.elements@);
        }
    }
    Statement {
        kind: StatementKind::Pipeline(
            Pipeline { negate, elements, pipe_operators, combinator, background },
        ),
        span,
    }
}

/// The statements of a chain's pipelines, in order, each spanning `sp`.
fn chain_statements(
    ps: Vec<Pipeline>,
    sp: SourceSpan,
    Ghost(s): Ghost<Seq<char>>,
    Ghost(parts): Ghost<Seq<(Combinator, int)>>,
) -> (out: Vec<Statement>)
    requires
        ps@.len() == parts.len(),
        forall|i: int|
            0 <= i < parts.len() ==> statements::pipeline_value(
                s,
                parts[i].1,
                parts[i].0,
                #[trigger] ps@[i],
            ),
    ensures
        out@.len() == parts.len(),
        forall|j: int|
            0 <= j < out@.len() ==> (#[trigger] out@[j]).span == sp
                && statements::pipeline_stmt_value(s, parts[j].1, parts[j].0, out@[j].kind),
{
    let mut ps = ps;
    let ghost orig = ps@;
    let mut out: Vec<Statement> = Vec::new();
    while ps.len() > 0
        invariant
            out@.len() <= orig.len(),
            ps@ == orig.skip(out@.len() as int),
            orig.len() == parts.len(),
            forall|i: int|
                0 <= i < orig.len() ==> statements::pipeline_value(
                    s,
                    parts[i].1,
                    parts[i].0,
                    #[trigger] orig[i],
                ),
            forall|j: int|
                0 <= j < out@.len() ==> (#[trigger] out@[j]).span == sp
                    && statements::pipeline_stmt_value(s, parts[j].1, parts[j].0, out@[j].kind),
        decreases ps@.len(),
    {
        let ghost k = out@.len() as int;
        let p = ps.remove(0);
        proof {
            assert(p == orig[k]);
            assert(ps@ =~= orig.skip(k + 1));
        }
        let st = pipeline_statement(p, sp, Ghost(s), Ghost(parts[k].1), Ghost(parts[k].0));
        let ghost old_out = out@;
        out.push(st);
        proof {
            assert forall|j: int|
                0 <= j < out@.len() implies (#[trigger] out@[j]).span == sp
                    && statements::pipeline_stmt_value(s, parts[j].1, parts[j].0, out@[j].kind) by {
                if j < old_out.len() {
                    assert(out@[j] == old_out[j]);
                }
            }
        }
    }
    proof {
        assert(orig.skip(out@.len() as int).len() == 0);
    }
    out
}

/// One statement (a chain of pipelines gives one per pipeline), spanning
/// the lines from its first to its last character; not at the end of a
/// block.
fn statement(cx: &Ctx, pos: usize, f: &mut Furthest) -> (r: Option<(Vec<Statement>, usize)>)
    requires
        cx.wf(),
        pos <= cx.s@.len(),
    ensures
        final(f).pos >= old(f).pos,
        end_of(r) == syntax::statement(cx.s@, pos as int),
        r matches Some((_, e)) ==> pos < e <= cx.s@.len(),
        r matches Some((v, _)) ==> v@.len() == statements::stmt_count(cx.s@, pos as int) && forall|
            j: int,
        |
            0 <= j < v@.len() ==> statements::piece_value(cx.s@, pos as int, j, #[trigger] v@[j]),
    decreases cx.s@.len() - pos, 21int,
{
    let ghost s = cx.s@;
    proof {
        reveal(statements::simple_alternative);
    }
    if terminator_here(cx, pos) {
        expect(f, pos, "a statement");
        return None;
    }
    let mut out: Vec<Statement> = Vec::new();
    let single = if let Some(x) = comment(cx, pos, f) {
        Some(x)
    } else if let Some(x) = return_statement(cx, pos, f) {
        Some(x)
    } else if let Some(e) = keyword(cx, pos, "break", f) {
        Some((StatementKind::Break, e))
    } else if let Some(e) = keyword(cx, pos, "continue", f) {
        Some((StatementKind::Continue, e))
    } else if let Some(x) = function_statement(cx, pos, f) {
        Some(x)
    } else {
        None
    };
    match single {
        Some((kind, e)) => {
            out.push(Statement { kind, span: span(cx, pos, e) });
            return Some((out, e));
        },
        None => {},
    }
    match chain(cx, pos, f) {
        Some((ps, e)) => {
            let sp = span(cx, pos, e);
            let out = chain_statements(ps, sp, Ghost(s), Ghost(statements::chain_parts(s, pos as int)));
            Some((out, e))
        },
        None => None,
    }
}

/// `sep? (statement (sep statement)*)? sep?`.
fn statement_list(cx: &Ctx, pos: usize, f: &mut Furthest) -> (r: (Vec<Statement>, usize))
    requires
        cx.wf(),
        pos <= cx.s@.len(),
    ensures
        final(f).pos >= old(f).pos,
        r.1 == syntax::statement_list(cx.s@, pos as int),
        pos <= r.1 <= cx.s@.len(),
        statements::stmts_value(cx.s@, pos as int, r.0@),
    decreases cx.s@.len() - pos, 22int,
{
    let ghost s = cx.s@;
    let mut out: Vec<Statement> = Vec::new();
    let p = match sep(cx, pos, f) {
        Some(e) => e,
        None => pos,
    };
    proof {
        statements::lemma_pieces_empty(s);
    }
    let mut cur = match statement(cx, p, f) {
        Some((mut v, e)) => {
            proof {
                statements::lemma_pieces_append(
                    s,
                    Seq::<int>::empty(),
                    Seq::<Statement>::empty(),
                    p as int,
                    v@,
                );
                assert(Seq::<int>::empty().push(p as int) =~= seq![p as int]);
                assert(Seq::<Statement>::empty() + v@ =~= v@);
            }
            out.append(&mut v);
            e
        },
        None => {
            return (out, p);
        },
    };
    let ghost g_start0 = cur as int;
    let ghost mut found: Seq<int> = seq![p as int];
    proof {
        assert(found + statements::more_stmt_starts(s, cur as int) == statements::list_stmt_starts(
            s,
            pos as int,
        ));
    }
    loop
        invariant
            f.pos >= old(f).pos,
            cx.wf(),
            s == cx.s@,
            pos < cur <= cx.s@.len(),
            syntax::more_statements(s, g_start0) == syntax::more_statements(s, cur as int),
            statements::list_stmt_starts(s, pos as int) == found + statements::more_stmt_starts(
                s,
                cur as int,
            ),
            statements::pieces_value(s, found, out@),
        ensures
            pos < cur <= cx.s@.len(),
            syntax::more_statements(s, g_start0) == cur as int,
            statements::list_stmt_starts(s, pos as int) == found,
            statements::pieces_value(s, found, out@),
        decreases cx.s@.len() - cur,
    {
        match sep(cx, cur, f) {
            Some(q) => match statement(cx, q, f) {
                Some((mut v, e)) => {
                    proof {
                        statements::lemma_more_stmt_starts_next(s, cur as int, q as int, e as int, found);
                        statements::lemma_pieces_append(s, found, out@, q as int, v@);
                        found = found.push(q as int);
                    }
                    out.append(&mut v);
                    cur = e;
                },
                None => {
                    proof {
                        statements::lemma_more_stmt_starts_none(s, cur as int, found);
                    }
                    break;
                },
            },
            None => {
                proof {
                    statements::lemma_more_stmt_starts_none(s, cur as int, found);
                }
                break;
            },
        }
    }
    let e = match sep(cx, cur, f) {
        Some(e) => e,
        None => cur,
    };
    (out, e)
}

/// `#! ...` up to the end of its line.
fn shebang(cx: &Ctx, pos: usize, f: &mut Furthest) -> (r: Option<(String, usize)>)
    requires
        cx.wf(),
        pos <= cx.s@.len(),
    ensures
        final(f).pos >= old(f).pos,
        end_of(r) == syntax::shebang(cx.s@, pos as int),
        r matches Some((_, e)) ==> pos < e <= cx.s@.len(),
        r matches Some((t, _)) ==> t@ == cx.s@.subrange(
            pos as int,
            syntax::line_end(cx.s@, pos + 2),
        ),
{
    proof {
        reveal_strlit("#!");
    }
    let p = match lit(cx, pos, "#!", f) {
        Some(e) => e,
        None => {
            return None;
        },
    };
    let e = line_end(cx, p);
    let text = text_between(cx, pos, e);
    if e < cx.s.len() {
        Some((text, e + 1))
    } else {
        Some((text, e))
    }
}

/// `sep? shebang? statement_list _* EOF`.
fn program(cx: &Ctx, f: &mut Furthest) -> (r: Option<Program>)
    requires
        cx.wf(),
    ensures
        final(f).pos >= old(f).pos,
        r is Some <==> syntax::accepts(cx.s@),
        r matches Some(prog) ==> statements::program_value(cx.s@, prog),
        r is None ==> final(f).pos >= syntax::accepted_end(cx.s@),
        syntax::accepted_end(cx.s@) <= cx.s@.len(),
{
    let p = match sep(cx, 0, f) {
        Some(e) => e,
        None => 0,
    };
    let (shebang, p2) = match shebang(cx, p, f) {
        Some((t, e)) => (Some(t), e),
        None => (None, p),
    };
    let (statements, p3) = statement_list(cx, p2, f);
    let p4 = skip_ws(cx, p3);
    if p4 == cx.s.len() {
        Some(Program { shebang, statements })
    } else {
        expect(f, p4, "end of input");
        None
    }
}

/// The position of line `line`'s first character, given the offset `pos` on it.
fn column_of(cx: &Ctx, pos: usize) -> (r: usize)
    requires
        cx.wf(),
        pos <= cx.s@.len(),
    ensures
        r == pos - line_start(cx.s@, pos as int) + 1,
{
    let mut p = pos;
    while p > 0 && cx.s[p - 1] != '\n'
        invariant
            cx.wf(),
            p <= pos <= cx.s@.len(),
            line_start(cx.s@, p as int) == line_start(cx.s@, pos as int),
        decreases p,
    {
        p = p - 1;
    }
    pos - p + 1
}

/// The script without its leading byte order marks.
pub open spec fn without_bom(s: Seq<char>) -> Seq<char>
    decreases s.len(),
{
    if s.len() > 0 && s[0] == '\u{feff}' {
        without_bom(s.drop_first())
    } else {
        s
    }
}

/// Parses a fish script (leading byte order marks are ignored). It
/// succeeds exactly when the grammar accepts the script, and then the
/// program is the one the grammar's rules build from it (`program_value`);
/// otherwise the error gives a position in it, with its line and column,
/// no earlier than the end of the statements the grammar could read.
pub fn parse(input: &str) -> (r: Result<Program, ParseError>)
    requires
        input@.len() < usize::MAX,
    ensures
        r is Ok <==> syntax::accepts(without_bom(input@)),
        r matches Ok(prog) ==> statements::program_value(without_bom(input@), prog),
        r matches Err(e) ==> e.offset >= syntax::accepted_end(without_bom(input@)),
        r matches Err(e) ==> e.offset <= without_bom(input@).len() && e.line == line_of(
            without_bom(input@),
            e.offset as int,
        ) && e.column == e.offset - line_start(without_bom(input@), e.offset as int) + 1,
{
    let all = chars_of(input);
    let mut start: usize = 0;
    proof {
        assert(all@.skip(0) =~= all@);
    }
    while start < all.len() && all[start] == '\u{feff}'
        invariant
            start <= all@.len(),
            all@ == input@,
            without_bom(input@) == without_bom(all@.skip(start as int)),
        decreases all@.len() - start,
    {
        proof {
            assert(all@.skip(start as int).drop_first() =~= all@.skip(start + 1));
        }
        start = start + 1;
    }
    let mut s: Vec<char> = Vec::new();
    let mut k = start;
    while k < all.len()
        invariant
            start <= k <= all@.len(),
            s@ == all@.subrange(start as int, k as int),
        decreases all@.len() - k,
    {
        s.push(all[k]);
        proof {
            assert(s@ =~= all@.subrange(start as int, k + 1));
        }
        k = k + 1;
    }
    proof {
        assert(s@ =~= all@.skip(start as int));
        assert(without_bom(input@) == s@);
    }
    let cx = make_ctx(s);
    let mut f = Furthest { pos: 0, expected: Vec::new() };
    match program(&cx, &mut f) {
        Some(p) => Ok(p),
        None => {
            let offset = if f.pos <= cx.s.len() {
                f.pos
            } else {
                cx.s.len()
            };
            let mut expected: Vec<String> = Vec::new();
            let mut i: usize = 0;
            while i < f.expected.len()
                decreases f.expected@.len() - i,
            {
                expected.push(to_owned_string(f.expected[i]));
                i = i + 1;
            }
            Err(
                ParseError {
                    line: line_at(&cx, offset),
                    column: column_of(&cx, offset),
                    offset,
                    expected,
                },
            )
        },
    }
}

} // verus!
