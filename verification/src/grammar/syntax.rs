//! The fish grammar as a recognizer: for each rule, where a match starting
//! at a position ends, or that there is none. Alternatives are ordered and
//! repetitions greedy, as in a parsing expression grammar.

use vstd::prelude::*;
use crate::ast::{Combinator, PipeOperator, RedirectMode};
use crate::text::{digits_value, is_digit};

verus! {

pub open spec fn is_ws(c: char) -> bool {
    c == ' ' || c == '\t'
}

pub open spec fn is_keyword_char(c: char) -> bool {
    ('a' <= c && c <= 'z') || ('A' <= c && c <= 'Z') || ('0' <= c && c <= '9') || c == '_'
}

pub open spec fn is_ident_start(c: char) -> bool {
    ('a' <= c && c <= 'z') || ('A' <= c && c <= 'Z') || c == '_'
}

/// Characters that end an unquoted literal.
pub open spec fn is_literal_stop(c: char) -> bool {
    c == ' ' || c == '\t' || c == '\n' || c == ';' || c == '|' || c == '&' || c == '<' || c == '>'
        || c == '^' || c == '(' || c == ')' || c == '{' || c == '}' || c == '$' || c == '\''
        || c == '"' || c == '#'
}

/// Whitespace and `;<>&|`: an `&` followed by one of these (or by
/// nothing) is an operator; followed by anything else it belongs to a word.
pub open spec fn is_separating(c: char) -> bool {
    c == ' ' || c == '\t' || c == '\n' || c == ';' || c == '<' || c == '>' || c == '&' || c == '|'
}

pub open spec fn at(s: Seq<char>, p: int, c: char) -> bool {
    0 <= p < s.len() && s[p] == c
}

/// The (non-empty) text `t` at `p`.
pub open spec fn lit(s: Seq<char>, p: int, t: Seq<char>) -> Option<int> {
    if t.len() > 0 && 0 <= p && p + t.len() <= s.len() && s.subrange(p, p + t.len()) == t {
        Some(p + t.len())
    } else {
        None
    }
}

/// `_*`.
pub open spec fn skip_ws(s: Seq<char>, p: int) -> int
    decreases s.len() - p,
{
    if 0 <= p < s.len() && is_ws(s[p]) {
        skip_ws(s, p + 1)
    } else {
        p
    }
}

/// `_+`.
pub open spec fn ws1(s: Seq<char>, p: int) -> Option<int> {
    if 0 <= p < s.len() && is_ws(s[p]) {
        Some(skip_ws(s, p + 1))
    } else {
        None
    }
}

/// The word `k` not followed by a letter, digit or `_`.
pub open spec fn keyword(s: Seq<char>, p: int, k: Seq<char>) -> Option<int> {
    match lit(s, p, k) {
        Some(e) => if 0 <= e < s.len() && is_keyword_char(s[e]) {
            None
        } else {
            Some(e)
        },
        None => None,
    }
}

/// `KEYWORD _+`.
pub open spec fn keyword_ws(s: Seq<char>, p: int, k: Seq<char>) -> Option<int> {
    match keyword(s, p, k) {
        Some(e) => ws1(s, e),
        None => None,
    }
}

/// The separator loop: `(_* [\n;])*`, giving where it stops.
pub open spec fn sep_loop(s: Seq<char>, p: int) -> int
    decreases s.len() - p,
{
    let q = skip_ws(s, p);
    if p < q + 1 && 0 <= q < s.len() && (s[q] == '\n' || s[q] == ';') {
        sep_loop(s, q + 1)
    } else {
        p
    }
}

/// `statement_sep`: `(_* ['\n' | ';'])+ _*`.
pub open spec fn sep(s: Seq<char>, p: int) -> Option<int> {
    let e = sep_loop(s, p);
    if e > p {
        Some(skip_ws(s, e))
    } else {
        None
    }
}

pub open spec fn sep_or_stay(s: Seq<char>, p: int) -> int {
    match sep(s, p) {
        Some(e) => e,
        None => p,
    }
}

pub open spec fn reserved_here(s: Seq<char>, p: int) -> bool {
    keyword(s, p, "if"@) is Some || keyword(s, p, "else"@) is Some || keyword(s, p, "switch"@) is Some
        || keyword(s, p, "case"@) is Some || keyword(s, p, "for"@) is Some || keyword(
        s,
        p,
        "while"@,
    ) is Some || keyword(s, p, "function"@) is Some || keyword(s, p, "begin"@) is Some || keyword(
        s,
        p,
        "end"@,
    ) is Some
}

pub open spec fn terminator_here(s: Seq<char>, p: int) -> bool {
    keyword(s, p, "end"@) is Some || keyword(s, p, "else"@) is Some || keyword(s, p, "case"@) is Some
        || at(s, p, '}')
}

/// The end of the run of digits at `p`.
pub open spec fn digits_end(s: Seq<char>, p: int) -> int
    decreases s.len() - p,
{
    if 0 <= p < s.len() && is_digit(s[p]) {
        digits_end(s, p + 1)
    } else {
        p
    }
}

/// `[0-9]+` as a number at most `max`, and where the digits end.
pub open spec fn number(s: Seq<char>, p: int, max: nat) -> Option<(nat, int)> {
    let d = digits_end(s, p);
    if d > p && digits_value(s.subrange(p, d)) <= max {
        Some((digits_value(s.subrange(p, d)), d))
    } else {
        None
    }
}

pub open spec fn fd_pipe_here(s: Seq<char>, p: int) -> bool {
    let d = digits_end(s, p);
    d > p && lit(s, d, ">|"@) is Some
}

/// The end of the line at `p`: the next line break or the end of input.
pub open spec fn line_end(s: Seq<char>, p: int) -> int
    decreases s.len() - p,
{
    if 0 <= p < s.len() && s[p] != '\n' {
        line_end(s, p + 1)
    } else {
        p
    }
}

/// The body of a single-quoted string: where its closing quote would be.
pub open spec fn sq_scan(s: Seq<char>, p: int) -> int
    decreases s.len() - p,
{
    if 0 <= p && p + 1 < s.len() && s[p] == '\\' {
        sq_scan(s, p + 2)
    } else if 0 <= p < s.len() && s[p] != '\'' {
        sq_scan(s, p + 1)
    } else {
        p
    }
}

/// `'...'`.
pub open spec fn single_quoted(s: Seq<char>, p: int) -> Option<int> {
    match lit(s, p, "'"@) {
        Some(q) => lit(s, sq_scan(s, q), "'"@),
        None => None,
    }
}

pub open spec fn literal_scan(s: Seq<char>, p: int, in_brace: bool) -> int
    decreases s.len() - p,
{
    if 0 <= p && p + 1 < s.len() && s[p] == '\\' {
        literal_scan(s, p + 2, in_brace)
    } else if 0 <= p < s.len() && !is_literal_stop(s[p]) && !(in_brace && s[p] == ',') {
        literal_scan(s, p + 1, in_brace)
    } else if 0 <= p && p + 1 < s.len() && s[p] == '&' && !is_separating(s[p + 1]) {
        literal_scan(s, p + 1, in_brace)
    } else {
        p
    }
}

/// An unquoted literal.
pub open spec fn literal(s: Seq<char>, p: int, in_brace: bool) -> Option<int> {
    let e = literal_scan(s, p, in_brace);
    if e > p {
        Some(e)
    } else {
        None
    }
}

pub open spec fn name_scan(s: Seq<char>, p: int) -> int
    decreases s.len() - p,
{
    if 0 <= p < s.len() && is_keyword_char(s[p]) {
        name_scan(s, p + 1)
    } else {
        p
    }
}

/// `[a-zA-Z0-9_]+`.
pub open spec fn var_name(s: Seq<char>, p: int) -> Option<int> {
    let e = name_scan(s, p);
    if e > p {
        Some(e)
    } else {
        None
    }
}

/// `[a-zA-Z_][a-zA-Z0-9_]*`.
pub open spec fn ident(s: Seq<char>, p: int) -> Option<int> {
    if 0 <= p < s.len() && is_ident_start(s[p]) {
        Some(name_scan(s, p + 1))
    } else {
        None
    }
}

/// A double-quoted literal run: where it stops.
pub open spec fn dq_scan(s: Seq<char>, p: int) -> int
    decreases s.len() - p,
{
    if 0 <= p && p + 1 < s.len() && s[p] == '\\' {
        dq_scan(s, p + 2)
    } else if 0 <= p < s.len() && s[p] != '"' && s[p] != '$' && s[p] != '\\' {
        dq_scan(s, p + 1)
    } else {
        p
    }
}

/// `"\\" _* "\n" (_* "#" [^\n]* "\n")* _*`.
pub open spec fn comment_lines(s: Seq<char>, p: int) -> int
    decreases s.len() - p,
{
    let a = skip_ws(s, p);
    let b = line_end(s, a);
    if p <= a && at(s, a, '#') && a <= b && at(s, b, '\n') {
        comment_lines(s, b + 1)
    } else {
        p
    }
}

pub open spec fn line_cont(s: Seq<char>, p: int) -> Option<int> {
    let q = skip_ws(s, p + 1);
    if at(s, p, '\\') && at(s, q, '\n') {
        Some(skip_ws(s, comment_lines(s, q + 1)))
    } else {
        None
    }
}

/// `(_ / line_cont)*`.
pub open spec fn arg_sep_scan(s: Seq<char>, p: int) -> int
    decreases s.len() - p,
{
    if 0 <= p < s.len() && is_ws(s[p]) {
        arg_sep_scan(s, p + 1)
    } else {
        match line_cont(s, p) {
            Some(e) => if p < e <= s.len() {
                arg_sep_scan(s, e)
            } else {
                p
            },
            None => p,
        }
    }
}

/// `(_ / line_cont)+`.
pub open spec fn arg_sep(s: Seq<char>, p: int) -> Option<int> {
    let e = arg_sep_scan(s, p);
    if e > p {
        Some(e)
    } else {
        None
    }
}

/// `(_ / "\\\n" / "#" [^\n]* "\n" / "\n")*`.
pub open spec fn cont_space(s: Seq<char>, p: int) -> int
    decreases s.len() - p,
{
    if 0 <= p < s.len() && (is_ws(s[p]) || s[p] == '\n') {
        cont_space(s, p + 1)
    } else if at(s, p, '\\') && at(s, p + 1, '\n') {
        cont_space(s, p + 2)
    } else if at(s, p, '#') && p <= line_end(s, p) && at(s, line_end(s, p), '\n') {
        cont_space(s, line_end(s, p) + 1)
    } else {
        p
    }
}

/// The redirection operators, longest first.
pub open spec fn redirect_mode(s: Seq<char>, p: int) -> Option<(RedirectMode, int)> {
    if let Some(e) = lit(s, p, "&>>?"@) {
        Some((RedirectMode::NoClobberAppendAndErr, e))
    } else if let Some(e) = lit(s, p, "&>?"@) {
        Some((RedirectMode::NoClobberOutputAndErr, e))
    } else if let Some(e) = lit(s, p, "&>>"@) {
        Some((RedirectMode::AppendAndErr, e))
    } else if let Some(e) = lit(s, p, "&>"@) {
        Some((RedirectMode::OutputAndErr, e))
    } else if let Some(e) = lit(s, p, ">>?"@) {
        Some((RedirectMode::NoClobberAppend, e))
    } else if let Some(e) = lit(s, p, ">>&"@) {
        Some((RedirectMode::DupOutput, e))
    } else if let Some(e) = lit(s, p, ">>"@) {
        Some((RedirectMode::Append, e))
    } else if let Some(e) = lit(s, p, ">&"@) {
        Some((RedirectMode::DupOutput, e))
    } else if let Some(e) = lit(s, p, "<&"@) {
        Some((RedirectMode::DupInput, e))
    } else if let Some(e) = lit(s, p, "<?"@) {
        Some((RedirectMode::SafeInput, e))
    } else if let Some(e) = lit(s, p, ">?"@) {
        Some((RedirectMode::NoClobberOutput, e))
    } else if let Some(e) = lit(s, p, ">"@) {
        Some((RedirectMode::Output, e))
    } else if let Some(e) = lit(s, p, "<"@) {
        Some((RedirectMode::Input, e))
    } else if let Some(e) = lit(s, p, "^^"@) {
        Some((RedirectMode::AppendAndErr, e))
    } else if let Some(e) = lit(s, p, "^"@) {
        Some((RedirectMode::OutputAndErr, e))
    } else {
        None
    }
}

proof fn lemma_lit1(s: Seq<char>, p: int, t: Seq<char>)
    requires
        0 <= p,
        t.len() == 1,
    ensures
        lit(s, p, t) == (if at(s, p, t[0]) {
            Some(p + 1)
        } else {
            None
        }),
{
    if at(s, p, t[0]) {
        assert(s.subrange(p, p + 1) =~= t);
    } else if p + 1 <= s.len() {
        assert(s.subrange(p, p + 1)[0] == s[p + 0]);
    }
}

proof fn lemma_lit2(s: Seq<char>, p: int, t: Seq<char>)
    requires
        0 <= p,
        t.len() == 2,
    ensures
        lit(s, p, t) == (if at(s, p, t[0]) && at(s, p + 1, t[1]) {
            Some(p + 2)
        } else {
            None
        }),
{
    if at(s, p, t[0]) && at(s, p + 1, t[1]) {
        assert(s.subrange(p, p + 2) =~= t);
    } else if p + 2 <= s.len() {
        assert(s.subrange(p, p + 2)[0] == s[p + 0]);
        assert(s.subrange(p, p + 2)[1] == s[p + 1]);
    }
}

proof fn lemma_lit3(s: Seq<char>, p: int, t: Seq<char>)
    requires
        0 <= p,
        t.len() == 3,
    ensures
        lit(s, p, t) == (if at(s, p, t[0]) && at(s, p + 1, t[1]) && at(s, p + 2, t[2]) {
            Some(p + 3)
        } else {
            None
        }),
{
    if at(s, p, t[0]) && at(s, p + 1, t[1]) && at(s, p + 2, t[2]) {
        assert(s.subrange(p, p + 3) =~= t);
    } else if p + 3 <= s.len() {
        assert(s.subrange(p, p + 3)[0] == s[p + 0]);
        assert(s.subrange(p, p + 3)[1] == s[p + 1]);
        assert(s.subrange(p, p + 3)[2] == s[p + 2]);
    }
}

proof fn lemma_lit4(s: Seq<char>, p: int, t: Seq<char>)
    requires
        0 <= p,
        t.len() == 4,
    ensures
        lit(s, p, t) == (if at(s, p, t[0]) && at(s, p + 1, t[1]) && at(s, p + 2, t[2]) && at(s, p + 3, t[3]) {
            Some(p + 4)
        } else {
            None
        }),
{
    if at(s, p, t[0]) && at(s, p + 1, t[1]) && at(s, p + 2, t[2]) && at(s, p + 3, t[3]) {
        assert(s.subrange(p, p + 4) =~= t);
    } else if p + 4 <= s.len() {
        assert(s.subrange(p, p + 4)[0] == s[p + 0]);
        assert(s.subrange(p, p + 4)[1] == s[p + 1]);
        assert(s.subrange(p, p + 4)[2] == s[p + 2]);
        assert(s.subrange(p, p + 4)[3] == s[p + 3]);
    }
}

/// The redirection operators, by the characters at `p`: `>` output, `>>`
/// append, `<` input, `&>` output and error, `&>>` append output and error,
/// `>&` and `>>&` duplicate output, `<&` duplicate input, `<?` input only
/// from an existing file, `>?`, `>>?`, `&>?` and `&>>?` their no-clobber
/// forms, `^` and `^^` standard error; the longest operator at `p` wins, and
/// any other text is no redirection operator.
pub proof fn lemma_redirect_operators(s: Seq<char>, p: int)
    requires
        0 <= p,
    ensures
        at(s, p, '>') && !at(s, p + 1, '>') && !at(s, p + 1, '&') && !at(s, p + 1, '?')
            ==> redirect_mode(s, p) == Some((RedirectMode::Output, p + 1)),
        at(s, p, '>') && at(s, p + 1, '>') && !at(s, p + 2, '?') && !at(s, p + 2, '&')
            ==> redirect_mode(s, p) == Some((RedirectMode::Append, p + 2)),
        at(s, p, '>') && at(s, p + 1, '>') && at(s, p + 2, '?') ==> redirect_mode(s, p) == Some(
            (RedirectMode::NoClobberAppend, p + 3),
        ),
        at(s, p, '>') && at(s, p + 1, '>') && at(s, p + 2, '&') ==> redirect_mode(s, p) == Some(
            (RedirectMode::DupOutput, p + 3),
        ),
        at(s, p, '>') && at(s, p + 1, '&') ==> redirect_mode(s, p) == Some(
            (RedirectMode::DupOutput, p + 2),
        ),
        at(s, p, '>') && at(s, p + 1, '?') ==> redirect_mode(s, p) == Some(
            (RedirectMode::NoClobberOutput, p + 2),
        ),
        at(s, p, '<') && !at(s, p + 1, '&') && !at(s, p + 1, '?') ==> redirect_mode(s, p) == Some(
            (RedirectMode::Input, p + 1),
        ),
        at(s, p, '<') && at(s, p + 1, '&') ==> redirect_mode(s, p) == Some(
            (RedirectMode::DupInput, p + 2),
        ),
        at(s, p, '<') && at(s, p + 1, '?') ==> redirect_mode(s, p) == Some(
            (RedirectMode::SafeInput, p + 2),
        ),
        at(s, p, '&') && at(s, p + 1, '>') && !at(s, p + 2, '>') && !at(s, p + 2, '?')
            ==> redirect_mode(s, p) == Some((RedirectMode::OutputAndErr, p + 2)),
        at(s, p, '&') && at(s, p + 1, '>') && at(s, p + 2, '>') && !at(s, p + 3, '?')
            ==> redirect_mode(s, p) == Some((RedirectMode::AppendAndErr, p + 3)),
        at(s, p, '&') && at(s, p + 1, '>') && at(s, p + 2, '?') ==> redirect_mode(s, p) == Some(
            (RedirectMode::NoClobberOutputAndErr, p + 3),
        ),
        at(s, p, '&') && at(s, p + 1, '>') && at(s, p + 2, '>') && at(s, p + 3, '?')
            ==> redirect_mode(s, p) == Some((RedirectMode::NoClobberAppendAndErr, p + 4)),
        at(s, p, '^') && at(s, p + 1, '^') ==> redirect_mode(s, p) == Some(
            (RedirectMode::AppendAndErr, p + 2),
        ),
        at(s, p, '^') && !at(s, p + 1, '^') ==> redirect_mode(s, p) == Some(
            (RedirectMode::OutputAndErr, p + 1),
        ),
        !at(s, p, '>') && !at(s, p, '<') && !at(s, p, '^') && !(at(s, p, '&') && at(s, p + 1, '>'))
            ==> redirect_mode(s, p) is None,
{
    reveal_strlit("&>>?");
    reveal_strlit("&>?");
    reveal_strlit("&>>");
    reveal_strlit("&>");
    reveal_strlit(">>?");
    reveal_strlit(">>&");
    reveal_strlit(">>");
    reveal_strlit(">&");
    reveal_strlit("<&");
    reveal_strlit("<?");
    reveal_strlit(">?");
    reveal_strlit(">");
    reveal_strlit("<");
    reveal_strlit("^^");
    reveal_strlit("^");
    lemma_lit4(s, p, "&>>?"@);
    lemma_lit3(s, p, "&>?"@);
    lemma_lit3(s, p, "&>>"@);
    lemma_lit2(s, p, "&>"@);
    lemma_lit3(s, p, ">>?"@);
    lemma_lit3(s, p, ">>&"@);
    lemma_lit2(s, p, ">>"@);
    lemma_lit2(s, p, ">&"@);
    lemma_lit2(s, p, "<&"@);
    lemma_lit2(s, p, "<?"@);
    lemma_lit2(s, p, ">?"@);
    lemma_lit1(s, p, ">"@);
    lemma_lit1(s, p, "<"@);
    lemma_lit2(s, p, "^^"@);
    lemma_lit1(s, p, "^"@);
}

/// A file descriptor number (at most `0xffff_ffff`).
pub open spec fn fd_number(s: Seq<char>, p: int) -> Option<(nat, int)> {
    number(s, p, 0xffff_ffff)
}

/// The pipe between two stages, with the space after it.
pub open spec fn pipe_sep(s: Seq<char>, p: int) -> Option<(PipeOperator, int)> {
    let q = skip_ws(s, p);
    let fd = match fd_number(s, q) {
        Some((n, e)) => (n, e),
        None => (1nat, q),
    };
    if let Some(e) = lit(s, q, "&|"@) {
        Some((PipeOperator::StdoutAndStderr, cont_space(s, e)))
    } else if let Some(e) = lit(s, q, "|&"@) {
        Some((PipeOperator::StdoutAndStderr, cont_space(s, e)))
    } else if let Some(e) = lit(s, fd.1, ">|"@) {
        Some((PipeOperator::Fd(fd.0 as u32), cont_space(s, e)))
    } else if let Some(e) = lit(s, q, "|"@) {
        Some((PipeOperator::Stdout, cont_space(s, e)))
    } else {
        None
    }
}

/// `and`/`or` followed by space, or `&&`/`||` and any space.
pub open spec fn combinator_prefix(s: Seq<char>, p: int) -> (Combinator, int) {
    if keyword_ws(s, p, "and"@) is Some {
        (Combinator::And, keyword_ws(s, p, "and"@).unwrap())
    } else if keyword_ws(s, p, "or"@) is Some {
        (Combinator::Or, keyword_ws(s, p, "or"@).unwrap())
    } else if let Some(e) = lit(s, p, "&&"@) {
        (Combinator::And, skip_ws(s, e))
    } else if let Some(e) = lit(s, p, "||"@) {
        (Combinator::Or, skip_ws(s, e))
    } else {
        (Combinator::Plain, p)
    }
}

/// `not` followed by space, or `!` and any space.
pub open spec fn negation(s: Seq<char>, p: int) -> (bool, int) {
    if keyword_ws(s, p, "not"@) is Some {
        (true, keyword_ws(s, p, "not"@).unwrap())
    } else if let Some(e) = lit(s, p, "!"@) {
        (true, skip_ws(s, e))
    } else {
        (false, p)
    }
}

/// The operator joining two pipelines of a chain.
pub open spec fn chain_op(s: Seq<char>, p: int) -> Option<(Combinator, int)> {
    if let Some(e) = keyword(s, p, "and"@) {
        Some((Combinator::And, e))
    } else if let Some(e) = keyword(s, p, "or"@) {
        Some((Combinator::Or, e))
    } else if let Some(e) = lit(s, p, "&&"@) {
        Some((Combinator::And, e))
    } else if let Some(e) = lit(s, p, "||"@) {
        Some((Combinator::Or, e))
    } else {
        None
    }
}


/// The operators between pipelines: `||` and the word `or` join with
/// `Or` (run on failure), `&&` and the word `and` with `And` (run on
/// success); at the start of a pipeline the same words (followed by space)
/// give its joint.
pub proof fn lemma_chain_operators(s: Seq<char>, p: int)
    requires
        0 <= p,
    ensures
        at(s, p, '|') && at(s, p + 1, '|') ==> chain_op(s, p) == Some((Combinator::Or, p + 2))
            && combinator_prefix(s, p).0 == Combinator::Or,
        at(s, p, '&') && at(s, p + 1, '&') ==> chain_op(s, p) == Some((Combinator::And, p + 2))
            && combinator_prefix(s, p).0 == Combinator::And,
        at(s, p, 'o') && at(s, p + 1, 'r') && !(p + 2 < s.len() && is_keyword_char(s[p + 2]))
            ==> chain_op(s, p) == Some((Combinator::Or, p + 2)),
        at(s, p, 'a') && at(s, p + 1, 'n') && at(s, p + 2, 'd') && !(p + 3 < s.len()
            && is_keyword_char(s[p + 3])) ==> chain_op(s, p) == Some((Combinator::And, p + 3)),
        at(s, p, 'o') && at(s, p + 1, 'r') && p + 2 < s.len() && is_ws(s[p + 2])
            ==> combinator_prefix(s, p).0 == Combinator::Or,
        at(s, p, 'a') && at(s, p + 1, 'n') && at(s, p + 2, 'd') && p + 3 < s.len() && is_ws(
            s[p + 3],
        ) ==> combinator_prefix(s, p).0 == Combinator::And,
{
    reveal_strlit("and");
    reveal_strlit("or");
    reveal_strlit("&&");
    reveal_strlit("||");
    lemma_lit3(s, p, "and"@);
    lemma_lit2(s, p, "or"@);
    lemma_lit2(s, p, "&&"@);
    lemma_lit2(s, p, "||"@);
}

/// The pipes between stages: `|` alone pipes standard output, `|&` and
/// `&|` standard output and error.
pub proof fn lemma_pipe_operators(s: Seq<char>, p: int)
    requires
        0 <= p,
    ensures
        at(s, p, '|') && !at(s, p + 1, '&') ==> pipe_sep(s, p) == Some(
            (PipeOperator::Stdout, cont_space(s, p + 1)),
        ),
        at(s, p, '|') && at(s, p + 1, '&') ==> pipe_sep(s, p) == Some(
            (PipeOperator::StdoutAndStderr, cont_space(s, p + 2)),
        ),
        at(s, p, '&') && at(s, p + 1, '|') ==> pipe_sep(s, p) == Some(
            (PipeOperator::StdoutAndStderr, cont_space(s, p + 2)),
        ),
{
    reveal_strlit("&|");
    reveal_strlit("|&");
    reveal_strlit(">|");
    reveal_strlit("|");
    if at(s, p, '|') || at(s, p, '&') {
        assert(skip_ws(s, p) == p);
        assert(digits_end(s, p) == p);
        assert(fd_number(s, p) is None);
        lemma_lit2(s, p, "&|"@);
        lemma_lit2(s, p, "|&"@);
        lemma_lit2(s, p, ">|"@);
        lemma_lit1(s, p, "|"@);
    }
}

/// Whether a background `&` follows at `q`.
pub open spec fn background_at(s: Seq<char>, q: int) -> bool {
    &&& at(s, q, '&')
    &&& !at(s, q + 1, '&')
    &&& !at(s, q + 1, '>')
    &&& !(0 <= q + 1 < s.len() && !is_separating(s[q + 1]))
}

/// `#!...` up to the end of its line, and where the next line starts.
pub open spec fn shebang(s: Seq<char>, p: int) -> Option<int> {
    match lit(s, p, "#!"@) {
        Some(q) => {
            let e = line_end(s, q);
            if e < s.len() {
                Some(e + 1)
            } else {
                Some(e)
            }
        },
        None => None,
    }
}


// The recursive rules. Each is measured by the input left and a rank, so
// that a rule calls others at its own position only when they rank lower.
// A rule continues after a part only when that part has consumed input
// (which every successful part does); these checks keep the definitions
// well founded.

/// `$NAME` or `$$...`, then slices.
pub open spec fn variable_ref(s: Seq<char>, p: int) -> Option<int>
    decreases s.len() - p, 60int,
{
    match lit(s, p, "$"@) {
        Some(q) => {
            let t = match variable_ref(s, q) {
                Some(e) => Some(e),
                None => var_name(s, q),
            };
            match t {
                Some(e) => if p < e <= s.len() {
                    Some(slices(s, e))
                } else {
                    None
                },
                None => None,
            }
        },
        None => None,
    }
}

/// `slice*`.
pub open spec fn slices(s: Seq<char>, p: int) -> int
    decreases s.len() - p, 50int,
{
    match slice(s, p) {
        Some(e) => if p < e <= s.len() {
            slices(s, e)
        } else {
            p
        },
        None => p,
    }
}

/// `"[" _* element (_+ element)* _* "]"`.
pub open spec fn slice(s: Seq<char>, p: int) -> Option<int>
    decreases s.len() - p, 40int,
{
    match lit(s, p, "["@) {
        Some(q0) => {
            let q = skip_ws(s, q0);
            if p < q <= s.len() {
                match slice_element(s, q) {
                    Some(e) => if p < e <= s.len() {
                        lit(s, skip_ws(s, slice_elements(s, e)), "]"@)
                    } else {
                        None
                    },
                    None => None,
                }
            } else {
                None
            }
        },
        None => None,
    }
}

/// `(_+ element)*`.
pub open spec fn slice_elements(s: Seq<char>, c: int) -> int
    decreases s.len() - c, 35int,
{
    match ws1(s, c) {
        Some(q) => if c < q <= s.len() {
            match slice_element(s, q) {
                Some(e) => if c < e <= s.len() {
                    slice_elements(s, e)
                } else {
                    c
                },
                None => c,
            }
        } else {
            c
        },
        None => c,
    }
}

/// `start? _* ".." _* end?` or an index.
pub open spec fn slice_element(s: Seq<char>, p: int) -> Option<int>
    decreases s.len() - p, 80int,
{
    let start = slice_index(s, p);
    let pe = match start {
        Some(e) => e,
        None => p,
    };
    let q = skip_ws(s, pe);
    match lit(s, q, ".."@) {
        Some(e) => {
            let q2 = skip_ws(s, e);
            if p < q2 <= s.len() {
                match slice_index(s, q2) {
                    Some(e3) => Some(e3),
                    None => Some(q2),
                }
            } else {
                None
            }
        },
        None => start,
    }
}

/// `-N`, `N` or a variable reference.
pub open spec fn slice_index(s: Seq<char>, p: int) -> Option<int>
    decreases s.len() - p, 70int,
{
    if lit(s, p, "-"@) is Some && number(s, p + 1, usize::MAX as nat) is Some {
        Some(number(s, p + 1, usize::MAX as nat).unwrap().1)
    } else if number(s, p, usize::MAX as nat) is Some {
        Some(number(s, p, usize::MAX as nat).unwrap().1)
    } else {
        variable_ref(s, p)
    }
}

/// `"..."`.
pub open spec fn double_quoted(s: Seq<char>, p: int) -> Option<int>
    decreases s.len() - p, 80int,
{
    match lit(s, p, "\""@) {
        Some(q) => if p < q <= s.len() {
            lit(s, dq_parts(s, q), "\""@)
        } else {
            None
        },
        None => None,
    }
}

/// The parts inside double quotes: where they end.
pub open spec fn dq_parts(s: Seq<char>, c: int) -> int
    decreases s.len() - c, 75int,
{
    match dq_part(s, c) {
        Some(e) => if c < e <= s.len() {
            dq_parts(s, e)
        } else {
            c
        },
        None => c,
    }
}

/// A variable, `$(...)`, or a literal run inside double quotes.
pub open spec fn dq_part(s: Seq<char>, p: int) -> Option<int>
    decreases s.len() - p, 70int,
{
    if variable_ref(s, p) is Some {
        variable_ref(s, p)
    } else if dollar_command_subst(s, p) is Some {
        dollar_command_subst(s, p)
    } else if dq_scan(s, p) > p {
        Some(dq_scan(s, p))
    } else {
        None
    }
}

/// `$( ... )` and slices.
pub open spec fn dollar_command_subst(s: Seq<char>, p: int) -> Option<int>
    decreases s.len() - p, 60int,
{
    match lit(s, p, "$("@) {
        Some(q) => if p < q <= s.len() {
            subst_rest(s, q)
        } else {
            None
        },
        None => None,
    }
}

/// `_* statements _* ")"` and slices.
pub open spec fn subst_rest(s: Seq<char>, p: int) -> Option<int>
    decreases s.len() - p, 240int,
{
    let q = skip_ws(s, p);
    if p <= q <= s.len() {
        let e = statement_list(s, q);
        match lit(s, skip_ws(s, e), ")"@) {
            Some(e2) => if p < e2 <= s.len() {
                Some(slices(s, e2))
            } else {
                None
            },
            None => None,
        }
    } else {
        None
    }
}

/// `$( ... )` or `( ... )`, and slices.
pub open spec fn command_subst(s: Seq<char>, p: int) -> Option<int>
    decreases s.len() - p, 80int,
{
    if dollar_command_subst(s, p) is Some {
        dollar_command_subst(s, p)
    } else {
        match lit(s, p, "("@) {
            Some(q) => if p < q <= s.len() {
                subst_rest(s, q)
            } else {
                None
            },
            None => None,
        }
    }
}

/// `"{" _* item ("," _* item)* "}"` with possibly empty items.
pub open spec fn brace(s: Seq<char>, p: int) -> Option<int>
    decreases s.len() - p, 80int,
{
    match lit(s, p, "{"@) {
        Some(q0) => {
            let q = skip_ws(s, q0);
            if p < q <= s.len() {
                lit(s, brace_items(s, q), "}"@)
            } else {
                None
            }
        },
        None => None,
    }
}

/// The items of a brace expansion: where the last one (and the space
/// after it) ends.
pub open spec fn brace_items(s: Seq<char>, p: int) -> int
    decreases s.len() - p, 105int,
{
    let e = match word(s, p, true) {
        Some(e) => e,
        None => p,
    };
    if p <= e <= s.len() {
        let q = skip_ws(s, e);
        if at(s, q, ',') && p < skip_ws(s, q + 1) <= s.len() {
            brace_items(s, skip_ws(s, q + 1))
        } else {
            q
        }
    } else {
        p
    }
}

/// One part of a word.
pub open spec fn word_part(s: Seq<char>, p: int, in_brace: bool) -> Option<int>
    decreases s.len() - p, 90int,
{
    if single_quoted(s, p) is Some {
        single_quoted(s, p)
    } else if double_quoted(s, p) is Some {
        double_quoted(s, p)
    } else if variable_ref(s, p) is Some {
        variable_ref(s, p)
    } else if command_subst(s, p) is Some {
        command_subst(s, p)
    } else if brace(s, p) is Some {
        brace(s, p)
    } else {
        literal(s, p, in_brace)
    }
}

/// `word_part*`: where the parts end.
pub open spec fn word_parts(s: Seq<char>, p: int, in_brace: bool) -> int
    decreases s.len() - p, 95int,
{
    match word_part(s, p, in_brace) {
        Some(e) => if p < e <= s.len() {
            word_parts(s, e, in_brace)
        } else {
            p
        },
        None => p,
    }
}

/// `word_part+`.
pub open spec fn word(s: Seq<char>, p: int, in_brace: bool) -> Option<int>
    decreases s.len() - p, 100int,
{
    let e = word_parts(s, p, in_brace);
    if p < e <= s.len() {
        Some(e)
    } else {
        None
    }
}

/// `N? MODE _* WORD`.
pub open spec fn redirection(s: Seq<char>, p: int) -> Option<int>
    decreases s.len() - p, 120int,
{
    let fe = match fd_number(s, p) {
        Some((_, e)) => e,
        None => p,
    };
    match redirect_mode(s, fe) {
        Some((_, e2)) => {
            let q = skip_ws(s, e2);
            if p <= q <= s.len() {
                word(s, q, false)
            } else {
                None
            }
        },
        None => None,
    }
}

/// `(_* redirection)*`: where they end.
pub open spec fn redirections(s: Seq<char>, p: int) -> int
    decreases s.len() - p, 140int,
{
    let q = skip_ws(s, p);
    if p <= q <= s.len() {
        match redirection(s, q) {
            Some(e) => if p < e <= s.len() {
                redirections(s, e)
            } else {
                p
            },
            None => p,
        }
    } else {
        p
    }
}

/// `NAME=WORD`.
pub open spec fn assignment(s: Seq<char>, p: int) -> Option<int>
    decreases s.len() - p, 120int,
{
    match ident(s, p) {
        Some(q) => match lit(s, q, "="@) {
            Some(q2) => if p <= q2 <= s.len() {
                word(s, q2, false)
            } else {
                None
            },
            None => None,
        },
        None => None,
    }
}

/// A redirection or a word, but not `N>|`.
pub open spec fn command_item(s: Seq<char>, p: int) -> Option<int>
    decreases s.len() - p, 130int,
{
    if fd_pipe_here(s, p) {
        None
    } else if redirection(s, p) is Some {
        redirection(s, p)
    } else {
        word(s, p, false)
    }
}

/// `(assignment arg_sep)*`: where the assignments end.
pub open spec fn assignments(s: Seq<char>, p: int) -> int
    decreases s.len() - p, 134int,
{
    match assignment(s, p) {
        Some(e) => match arg_sep(s, e) {
            Some(e2) => if p < e2 <= s.len() {
                assignments(s, e2)
            } else {
                p
            },
            None => p,
        },
        None => p,
    }
}

/// `(arg_sep item)*`: where the items end.
pub open spec fn command_items(s: Seq<char>, c: int) -> int
    decreases s.len() - c, 133int,
{
    match arg_sep(s, c) {
        Some(q) => if c < q <= s.len() {
            match command_item(s, q) {
                Some(e) => if c < e <= s.len() {
                    command_items(s, e)
                } else {
                    c
                },
                None => c,
            }
        } else {
            c
        },
        None => c,
    }
}

/// A command: assignments, then items, not starting with a reserved word.
pub open spec fn command(s: Seq<char>, p: int) -> Option<int>
    decreases s.len() - p, 135int,
{
    let a = assignments(s, p);
    if p <= a <= s.len() && !reserved_here(s, a) {
        match command_item(s, a) {
            Some(e) => if p < e <= s.len() {
                Some(command_items(s, e))
            } else {
                None
            },
            None => None,
        }
    } else {
        None
    }
}

/// A block or a command.
pub open spec fn element(s: Seq<char>, p: int) -> Option<int>
    decreases s.len() - p, 180int,
{
    if block(s, p) is Some {
        block(s, p)
    } else {
        command(s, p)
    }
}

/// `(pipe_sep element)*`: where the stages end.
pub open spec fn stages(s: Seq<char>, c: int) -> int
    decreases s.len() - c, 185int,
{
    match pipe_sep(s, c) {
        Some((_, q)) => if c < q <= s.len() {
            match element(s, q) {
                Some(e) => if c < e <= s.len() {
                    stages(s, e)
                } else {
                    c
                },
                None => c,
            }
        } else {
            c
        },
        None => c,
    }
}

/// The position after the first stage of a pipeline (after its prefix).
pub open spec fn pipeline_head(s: Seq<char>, p: int) -> int {
    negation(s, skip_ws(s, combinator_prefix(s, p).1)).1
}

/// `combinator? _* negation? element (pipe_sep element)* (_* "&")?`.
pub open spec fn pipeline(s: Seq<char>, p: int) -> Option<int>
    decreases s.len() - p, 190int,
{
    let h = pipeline_head(s, p);
    if p <= h <= s.len() {
        match element(s, h) {
            Some(e) => if p < e <= s.len() {
                let c = stages(s, e);
                if background_at(s, skip_ws(s, c)) {
                    Some(skip_ws(s, c) + 1)
                } else {
                    Some(c)
                }
            } else {
                None
            },
            None => None,
        }
    } else {
        None
    }
}

/// `(cont_space op cont_space pipeline)*`: where the chain ends.
pub open spec fn links(s: Seq<char>, c: int) -> int
    decreases s.len() - c, 195int,
{
    match chain_op(s, cont_space(s, c)) {
        Some((_, b)) => {
            let q = cont_space(s, b);
            if c < q <= s.len() {
                match pipeline(s, q) {
                    Some(e) => if c < e <= s.len() {
                        links(s, e)
                    } else {
                        c
                    },
                    None => c,
                }
            } else {
                c
            }
        },
        None => c,
    }
}

/// Pipelines joined by `and`, `or`, `&&`, `||`.
pub open spec fn chain(s: Seq<char>, p: int) -> Option<int>
    decreases s.len() - p, 200int,
{
    match pipeline(s, p) {
        Some(e) => if p < e <= s.len() {
            Some(links(s, e))
        } else {
            None
        },
        None => None,
    }
}

/// `end` and the redirections after it.
pub open spec fn block_end(s: Seq<char>, p: int) -> Option<int>
    decreases s.len() - p, 150int,
{
    match keyword(s, p, "end"@) {
        Some(e) => if p < e <= s.len() {
            Some(redirections(s, e))
        } else {
            None
        },
        None => None,
    }
}

/// `(else if CHAIN sep BODY)*`: where the branches end.
pub open spec fn elifs(s: Seq<char>, c: int) -> int
    decreases s.len() - c, 155int,
{
    match keyword_ws(s, c, "else"@) {
        Some(a) => match keyword_ws(s, a, "if"@) {
            Some(b) => if c < b <= s.len() {
                match chain(s, b) {
                    Some(d) => match sep(s, d) {
                        Some(d2) => if c < d2 <= s.len() {
                            let e = statement_list(s, d2);
                            if c < e <= s.len() {
                                elifs(s, e)
                            } else {
                                c
                            }
                        } else {
                            c
                        },
                        None => c,
                    },
                    None => c,
                }
            } else {
                c
            },
            None => c,
        },
        None => c,
    }
}

/// `(else sep BODY)?`: where it ends.
pub open spec fn else_branch(s: Seq<char>, c: int) -> int
    decreases s.len() - c, 155int,
{
    match keyword(s, c, "else"@) {
        Some(a) => match sep(s, a) {
            Some(b) => if c < b <= s.len() {
                statement_list(s, b)
            } else {
                c
            },
            None => c,
        },
        None => c,
    }
}

/// `if CHAIN sep BODY elifs else? end REDIRS`.
pub open spec fn if_block(s: Seq<char>, p: int) -> Option<int>
    decreases s.len() - p, 160int,
{
    match keyword_ws(s, p, "if"@) {
        Some(q) => if p < q <= s.len() {
            match chain(s, q) {
                Some(c) => match sep(s, c) {
                    Some(d) => if p < d <= s.len() {
                        let t = statement_list(s, d);
                        if p < t <= s.len() {
                            let el = elifs(s, t);
                            if p < el <= s.len() {
                                let ee = else_branch(s, el);
                                if p < ee <= s.len() {
                                    block_end(s, ee)
                                } else {
                                    None
                                }
                            } else {
                                None
                            }
                        } else {
                            None
                        }
                    } else {
                        None
                    },
                    None => None,
                },
                None => None,
            }
        } else {
            None
        },
        None => None,
    }
}

/// `(_+ WORD)*`: where the words end.
pub open spec fn spaced_words(s: Seq<char>, c: int) -> int
    decreases s.len() - c, 154int,
{
    match ws1(s, c) {
        Some(q) => if c < q <= s.len() {
            match word(s, q, false) {
                Some(e) => if c < e <= s.len() {
                    spaced_words(s, e)
                } else {
                    c
                },
                None => c,
            }
        } else {
            c
        },
        None => c,
    }
}

/// `(case WORD spaced_words sep BODY)*`: where the cases end.
pub open spec fn cases(s: Seq<char>, c: int) -> int
    decreases s.len() - c, 155int,
{
    match keyword_ws(s, c, "case"@) {
        Some(a) => if c < a <= s.len() {
            match word(s, a, false) {
                Some(b) => if c < b <= s.len() {
                    match sep(s, spaced_words(s, b)) {
                        Some(d) => if c < d <= s.len() {
                            let e = statement_list(s, d);
                            if c < e <= s.len() {
                                cases(s, e)
                            } else {
                                c
                            }
                        } else {
                            c
                        },
                        None => c,
                    }
                } else {
                    c
                },
                None => c,
            }
        } else {
            c
        },
        None => c,
    }
}

/// `switch WORD sep cases end REDIRS`.
pub open spec fn switch_block(s: Seq<char>, p: int) -> Option<int>
    decreases s.len() - p, 160int,
{
    match keyword_ws(s, p, "switch"@) {
        Some(q) => if p < q <= s.len() {
            match word(s, q, false) {
                Some(w) => match sep(s, w) {
                    Some(c) => if p < c <= s.len() {
                        let e = cases(s, c);
                        if p < e <= s.len() {
                            block_end(s, e)
                        } else {
                            None
                        }
                    } else {
                        None
                    },
                    None => None,
                },
                None => None,
            }
        } else {
            None
        },
        None => None,
    }
}

/// `for NAME _+ in spaced_words sep BODY end REDIRS`.
pub open spec fn for_block(s: Seq<char>, p: int) -> Option<int>
    decreases s.len() - p, 160int,
{
    match keyword_ws(s, p, "for"@) {
        Some(q) => match ident(s, q) {
            Some(v) => match ws1(s, v) {
                Some(w) => match keyword(s, w, "in"@) {
                    Some(c) => if p < c <= s.len() {
                        let ve = spaced_words(s, c);
                        if p < ve <= s.len() {
                            match sep(s, ve) {
                                Some(b) => if p < b <= s.len() {
                                    let t = statement_list(s, b);
                                    if p < t <= s.len() {
                                        block_end(s, t)
                                    } else {
                                        None
                                    }
                                } else {
                                    None
                                },
                                None => None,
                            }
                        } else {
                            None
                        }
                    } else {
                        None
                    },
                    None => None,
                },
                None => None,
            },
            None => None,
        },
        None => None,
    }
}

/// `while CHAIN sep BODY end REDIRS`.
pub open spec fn while_block(s: Seq<char>, p: int) -> Option<int>
    decreases s.len() - p, 160int,
{
    match keyword_ws(s, p, "while"@) {
        Some(q) => if p < q <= s.len() {
            match chain(s, q) {
                Some(c) => match sep(s, c) {
                    Some(d) => if p < d <= s.len() {
                        let t = statement_list(s, d);
                        if p < t <= s.len() {
                            block_end(s, t)
                        } else {
                            None
                        }
                    } else {
                        None
                    },
                    None => None,
                },
                None => None,
            }
        } else {
            None
        },
        None => None,
    }
}

/// `begin sep BODY end REDIRS`.
pub open spec fn begin_block(s: Seq<char>, p: int) -> Option<int>
    decreases s.len() - p, 160int,
{
    match keyword(s, p, "begin"@) {
        Some(q) => match sep(s, q) {
            Some(d) => if p < d <= s.len() {
                let t = statement_list(s, d);
                if p < t <= s.len() {
                    block_end(s, t)
                } else {
                    None
                }
            } else {
                None
            },
            None => None,
        },
        None => None,
    }
}

/// `"{" sep? _* BODY _* "}" REDIRS`.
pub open spec fn compound_block(s: Seq<char>, p: int) -> Option<int>
    decreases s.len() - p, 160int,
{
    match lit(s, p, "{"@) {
        Some(q) => {
            let d = match sep(s, q) {
                Some(e) => e,
                None => skip_ws(s, q),
            };
            if p < d <= s.len() {
                let t = statement_list(s, d);
                match lit(s, skip_ws(s, t), "}"@) {
                    Some(e) => if p < e <= s.len() {
                        Some(redirections(s, e))
                    } else {
                        None
                    },
                    None => None,
                }
            } else {
                None
            }
        },
        None => None,
    }
}

/// A block statement.
pub open spec fn block(s: Seq<char>, p: int) -> Option<int>
    decreases s.len() - p, 170int,
{
    if if_block(s, p) is Some {
        if_block(s, p)
    } else if switch_block(s, p) is Some {
        switch_block(s, p)
    } else if for_block(s, p) is Some {
        for_block(s, p)
    } else if while_block(s, p) is Some {
        while_block(s, p)
    } else if begin_block(s, p) is Some {
        begin_block(s, p)
    } else {
        compound_block(s, p)
    }
}

/// `"#" [^\n]*`.
pub open spec fn comment(s: Seq<char>, p: int) -> Option<int> {
    match lit(s, p, "#"@) {
        Some(q) => Some(line_end(s, q)),
        None => None,
    }
}

/// `return _+ WORD` or `return`.
pub open spec fn return_statement(s: Seq<char>, p: int) -> Option<int>
    decreases s.len() - p, 210int,
{
    match keyword(s, p, "return"@) {
        Some(q) => match ws1(s, q) {
            Some(r) => if p < r <= s.len() {
                match word(s, r, false) {
                    Some(e) => Some(e),
                    None => Some(q),
                }
            } else {
                Some(q)
            },
            None => Some(q),
        },
        None => None,
    }
}

/// `function WORD spaced_words sep BODY end`.
pub open spec fn function_statement(s: Seq<char>, p: int) -> Option<int>
    decreases s.len() - p, 210int,
{
    match keyword_ws(s, p, "function"@) {
        Some(q) => if p < q <= s.len() {
            match word(s, q, false) {
                Some(w) => if p < w <= s.len() {
                    match sep(s, spaced_words(s, w)) {
                        Some(b) => if p < b <= s.len() {
                            keyword(s, statement_list(s, b), "end"@)
                        } else {
                            None
                        },
                        None => None,
                    }
                } else {
                    None
                },
                None => None,
            }
        } else {
            None
        },
        None => None,
    }
}

/// The statements other than pipelines, where they end.
pub open spec fn simple_statement(s: Seq<char>, p: int) -> Option<int>
    decreases s.len() - p, 215int,
{
    if comment(s, p) is Some {
        comment(s, p)
    } else if return_statement(s, p) is Some {
        return_statement(s, p)
    } else if keyword(s, p, "break"@) is Some {
        keyword(s, p, "break"@)
    } else if keyword(s, p, "continue"@) is Some {
        keyword(s, p, "continue"@)
    } else {
        function_statement(s, p)
    }
}

/// One statement, not at the end of a block.
pub open spec fn statement(s: Seq<char>, p: int) -> Option<int>
    decreases s.len() - p, 220int,
{
    if terminator_here(s, p) {
        None
    } else if simple_statement(s, p) is Some {
        simple_statement(s, p)
    } else {
        chain(s, p)
    }
}

/// `(sep statement)*`: where the statements end.
pub open spec fn more_statements(s: Seq<char>, c: int) -> int
    decreases s.len() - c, 225int,
{
    match sep(s, c) {
        Some(q) => if c < q <= s.len() {
            match statement(s, q) {
                Some(e) => if c < e <= s.len() {
                    more_statements(s, e)
                } else {
                    c
                },
                None => c,
            }
        } else {
            c
        },
        None => c,
    }
}

/// `sep? (statement (sep statement)*)? sep?`: where the list ends.
pub open spec fn statement_list(s: Seq<char>, p: int) -> int
    decreases s.len() - p, 230int,
{
    let q = sep_or_stay(s, p);
    if p <= q <= s.len() {
        match statement(s, q) {
            Some(e) => if p < e <= s.len() {
                sep_or_stay(s, more_statements(s, e))
            } else {
                q
            },
            None => q,
        }
    } else {
        p
    }
}

/// Where the statements of a script start: after leading separators and
/// a `#!` line.
pub open spec fn program_start(s: Seq<char>) -> int {
    let p = sep_or_stay(s, 0);
    match shebang(s, p) {
        Some(e) => e,
        None => p,
    }
}

/// Where the statements the grammar reads from the start of `s` end,
/// with the space after them.
pub open spec fn accepted_end(s: Seq<char>) -> int {
    skip_ws(s, statement_list(s, program_start(s)))
}

/// Whether the grammar accepts the whole of `s`.
pub open spec fn accepts(s: Seq<char>) -> bool {
    accepted_end(s) == s.len()
}

/// Which alternative of a word part matches at `p`: 0 single quotes,
/// 1 double quotes, 2 a variable, 3 `$(...)`, 4 `(...)`, 5 braces,
/// 6 a literal.
#[verifier::opaque]
pub open spec fn part_alternative(s: Seq<char>, p: int) -> int {
    if single_quoted(s, p) is Some {
        0
    } else if double_quoted(s, p) is Some {
        1
    } else if variable_ref(s, p) is Some {
        2
    } else if dollar_command_subst(s, p) is Some {
        3
    } else if command_subst(s, p) is Some {
        4
    } else if brace(s, p) is Some {
        5
    } else {
        6
    }
}

/// Which alternative of a double-quoted part matches at `p`: 0 a
/// variable, 1 `$(...)`, 2 a literal run.
#[verifier::opaque]
pub open spec fn dq_alternative(s: Seq<char>, p: int) -> int {
    if variable_ref(s, p) is Some {
        0
    } else if dollar_command_subst(s, p) is Some {
        1
    } else {
        2
    }
}

} // verus!
