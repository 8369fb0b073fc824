//! What the statement rules build: relations between the position where a
//! rule matches (see `syntax`) and the statements, pipelines and blocks the
//! parser returns for it. The words, commands and redirections inside are
//! related to their positions in `tree`.

use vstd::prelude::*;
use crate::ast::{
    BeginBlock, CaseClause, Combinator, ForStatement, FunctionStatement, IfStatement, PipeOperator,
    Pipeline, PipelineElement, Program, Statement, StatementKind, SwitchStatement, WhileStatement,
};
use crate::grammar::line_of;
use crate::grammar::syntax;
use crate::grammar::syntax::skip_ws;
use crate::grammar::tree::{command_value, redirs_value, word_value, words_value};

verus! {

// Positions.

/// The stages after the first one of a pipeline, from `c`: each with the
/// pipe before it.
#[verifier::opaque]
pub open spec fn stage_links(s: Seq<char>, c: int) -> Seq<(PipeOperator, int)>
    decreases s.len() - c,
{
    match syntax::pipe_sep(s, c) {
        Some((op, q)) => if c < q <= s.len() {
            match syntax::element(s, q) {
                Some(e) => if c < e <= s.len() {
                    seq![(op, q)] + stage_links(s, e)
                } else {
                    seq![]
                },
                None => seq![],
            }
        } else {
            seq![]
        },
        None => seq![],
    }
}

/// The pipelines after the first one of a chain, from `c`: each with the
/// operator before it.
#[verifier::opaque]
pub open spec fn chain_links(s: Seq<char>, c: int) -> Seq<(Combinator, int)>
    decreases s.len() - c,
{
    match syntax::chain_op(s, syntax::cont_space(s, c)) {
        Some((op, b)) => {
            let q = syntax::cont_space(s, b);
            if c < q <= s.len() {
                match syntax::pipeline(s, q) {
                    Some(e) => if c < e <= s.len() {
                        seq![(op, q)] + chain_links(s, e)
                    } else {
                        seq![]
                    },
                    None => seq![],
                }
            } else {
                seq![]
            }
        },
        None => seq![],
    }
}

/// The pipelines of the chain at `q`, each with the way it joins the one
/// before: the first by its own prefix, the others by the operator.
pub open spec fn chain_parts(s: Seq<char>, q: int) -> Seq<(Combinator, int)> {
    seq![(syntax::combinator_prefix(s, q).0, q)] + chain_links(s, syntax::pipeline(s, q).unwrap())
}

/// The statements after the first one of a list, from `c`.
#[verifier::opaque]
pub open spec fn more_stmt_starts(s: Seq<char>, c: int) -> Seq<int>
    decreases s.len() - c,
{
    match syntax::sep(s, c) {
        Some(q) => if c < q <= s.len() {
            match syntax::statement(s, q) {
                Some(e) => if c < e <= s.len() {
                    seq![q] + more_stmt_starts(s, e)
                } else {
                    seq![]
                },
                None => seq![],
            }
        } else {
            seq![]
        },
        None => seq![],
    }
}

/// Where the statements of the list at `p` start.
pub open spec fn list_stmt_starts(s: Seq<char>, p: int) -> Seq<int> {
    let q = syntax::sep_or_stay(s, p);
    if p <= q <= s.len() {
        match syntax::statement(s, q) {
            Some(e) => if p < e <= s.len() {
                seq![q] + more_stmt_starts(s, e)
            } else {
                seq![]
            },
            None => seq![],
        }
    } else {
        seq![]
    }
}

/// Where the `else if` branches from `c` start.
#[verifier::opaque]
pub open spec fn elif_starts(s: Seq<char>, c: int) -> Seq<int>
    decreases s.len() - c,
{
    match syntax::keyword_ws(s, c, "else"@) {
        Some(a) => match syntax::keyword_ws(s, a, "if"@) {
            Some(b) => if c < b <= s.len() {
                match syntax::chain(s, b) {
                    Some(d) => match syntax::sep(s, d) {
                        Some(d2) => if c < d2 <= s.len() {
                            let e = syntax::statement_list(s, d2);
                            if c < e <= s.len() {
                                seq![c] + elif_starts(s, e)
                            } else {
                                seq![]
                            }
                        } else {
                            seq![]
                        },
                        None => seq![],
                    },
                    None => seq![],
                }
            } else {
                seq![]
            },
            None => seq![],
        },
        None => seq![],
    }
}

/// Where the `case` clauses from `c` start.
#[verifier::opaque]
pub open spec fn case_starts(s: Seq<char>, c: int) -> Seq<int>
    decreases s.len() - c,
{
    match syntax::keyword_ws(s, c, "case"@) {
        Some(a) => if c < a <= s.len() {
            match syntax::word(s, a, false) {
                Some(b) => if c < b <= s.len() {
                    match syntax::sep(s, syntax::spaced_words(s, b)) {
                        Some(d) => if c < d <= s.len() {
                            let e = syntax::statement_list(s, d);
                            if c < e <= s.len() {
                                seq![c] + case_starts(s, e)
                            } else {
                                seq![]
                            }
                        } else {
                            seq![]
                        },
                        None => seq![],
                    }
                } else {
                    seq![]
                },
                None => seq![],
            }
        } else {
            seq![]
        },
        None => seq![],
    }
}

/// Where the space-separated words from `c` start.
#[verifier::opaque]
pub open spec fn spaced_starts(s: Seq<char>, c: int) -> Seq<int>
    decreases s.len() - c,
{
    match syntax::ws1(s, c) {
        Some(q) => if c < q <= s.len() {
            match syntax::word(s, q, false) {
                Some(e) => if c < e <= s.len() {
                    seq![q] + spaced_starts(s, e)
                } else {
                    seq![]
                },
                None => seq![],
            }
        } else {
            seq![]
        },
        None => seq![],
    }
}

/// How many statements the statement at `q` gives: a chain gives one per
/// pipeline, any other statement one.
pub open spec fn stmt_count(s: Seq<char>, q: int) -> nat {
    if syntax::simple_statement(s, q) is Some {
        1
    } else {
        chain_parts(s, q).len()
    }
}

/// For each statement of a list whose source statements start at `st`:
/// where its source statement starts, and which of the statements it
/// gives it is.
#[verifier::opaque]
pub open spec fn flat_origins(s: Seq<char>, st: Seq<int>) -> Seq<(int, int)>
    decreases st.len(),
{
    if st.len() == 0 {
        seq![]
    } else {
        flat_origins(s, st.drop_last()) + Seq::new(
            stmt_count(s, st.last()),
            |j: int| (st.last(), j),
        )
    }
}

/// Which simple statement is at `q`: 0 a comment, 1 `return`, 2 `break`,
/// 3 `continue`, 4 a function.
#[verifier::opaque]
pub open spec fn simple_alternative(s: Seq<char>, q: int) -> int {
    if syntax::comment(s, q) is Some {
        0
    } else if syntax::return_statement(s, q) is Some {
        1
    } else if syntax::keyword(s, q, "break"@) is Some {
        2
    } else if syntax::keyword(s, q, "continue"@) is Some {
        3
    } else {
        4
    }
}

/// Which block is at `q`: 0 `if`, 1 `switch`, 2 `for`, 3 `while`,
/// 4 `begin`, 5 braces.
#[verifier::opaque]
pub open spec fn block_alternative(s: Seq<char>, q: int) -> int {
    if syntax::if_block(s, q) is Some {
        0
    } else if syntax::switch_block(s, q) is Some {
        1
    } else if syntax::for_block(s, q) is Some {
        2
    } else if syntax::while_block(s, q) is Some {
        3
    } else if syntax::begin_block(s, q) is Some {
        4
    } else {
        5
    }
}

// Steps of the position sequences, as the parser takes them.

#[verifier::rlimit(100)]
pub(crate) proof fn lemma_stage_links_next(
    s: Seq<char>,
    c: int,
    op: PipeOperator,
    q: int,
    e: int,
    found: Seq<(PipeOperator, int)>,
)
    requires
        syntax::pipe_sep(s, c) == Some((op, q)),
        c < q <= s.len(),
        syntax::element(s, q) == Some(e),
        c < e <= s.len(),
    ensures
        found + stage_links(s, c) == found.push((op, q)) + stage_links(s, e),
{
    reveal(stage_links);
    assert(found + stage_links(s, c) =~= found.push((op, q)) + stage_links(s, e));
}

pub(crate) proof fn lemma_stage_links_none(s: Seq<char>, c: int, found: Seq<(PipeOperator, int)>)
    requires
        match syntax::pipe_sep(s, c) {
            Some((_, q)) => syntax::element(s, q) is None,
            None => true,
        },
    ensures
        found + stage_links(s, c) == found,
{
    reveal(stage_links);
    assert(found + stage_links(s, c) =~= found);
}

#[verifier::rlimit(100)]
pub(crate) proof fn lemma_chain_links_next(
    s: Seq<char>,
    c: int,
    op: Combinator,
    b: int,
    q: int,
    e: int,
    found: Seq<(Combinator, int)>,
)
    requires
        syntax::chain_op(s, syntax::cont_space(s, c)) == Some((op, b)),
        q == syntax::cont_space(s, b),
        c < q <= s.len(),
        syntax::pipeline(s, q) == Some(e),
        c < e <= s.len(),
    ensures
        found + chain_links(s, c) == found.push((op, q)) + chain_links(s, e),
{
    reveal(chain_links);
    assert(found + chain_links(s, c) =~= found.push((op, q)) + chain_links(s, e));
}

pub(crate) proof fn lemma_chain_links_none(s: Seq<char>, c: int, found: Seq<(Combinator, int)>)
    requires
        match syntax::chain_op(s, syntax::cont_space(s, c)) {
            Some((_, b)) => syntax::pipeline(s, syntax::cont_space(s, b)) is None,
            None => true,
        },
    ensures
        found + chain_links(s, c) == found,
{
    reveal(chain_links);
    assert(found + chain_links(s, c) =~= found);
}

pub(crate) proof fn lemma_more_stmt_starts_next(s: Seq<char>, c: int, q: int, e: int, found: Seq<int>)
    requires
        syntax::sep(s, c) == Some(q),
        c < q <= s.len(),
        syntax::statement(s, q) == Some(e),
        c < e <= s.len(),
    ensures
        found + more_stmt_starts(s, c) == found.push(q) + more_stmt_starts(s, e),
{
    reveal(more_stmt_starts);
    assert(found + more_stmt_starts(s, c) =~= found.push(q) + more_stmt_starts(s, e));
}

pub(crate) proof fn lemma_more_stmt_starts_none(s: Seq<char>, c: int, found: Seq<int>)
    requires
        match syntax::sep(s, c) {
            Some(q) => syntax::statement(s, q) is None,
            None => true,
        },
    ensures
        found + more_stmt_starts(s, c) == found,
{
    reveal(more_stmt_starts);
    assert(found + more_stmt_starts(s, c) =~= found);
}

pub(crate) proof fn lemma_elif_starts_next(
    s: Seq<char>,
    c: int,
    a: int,
    b: int,
    d: int,
    d2: int,
    e: int,
    found: Seq<int>,
)
    requires
        syntax::keyword_ws(s, c, "else"@) == Some(a),
        syntax::keyword_ws(s, a, "if"@) == Some(b),
        c < b <= s.len(),
        syntax::chain(s, b) == Some(d),
        syntax::sep(s, d) == Some(d2),
        c < d2 <= s.len(),
        e == syntax::statement_list(s, d2),
        c < e <= s.len(),
    ensures
        found + elif_starts(s, c) == found.push(c) + elif_starts(s, e),
{
    reveal(elif_starts);
    assert(found + elif_starts(s, c) =~= found.push(c) + elif_starts(s, e));
}

pub(crate) proof fn lemma_elif_starts_none(s: Seq<char>, c: int, found: Seq<int>)
    requires
        !(syntax::keyword_ws(s, c, "else"@) matches Some(a) && syntax::keyword_ws(s, a, "if"@) matches Some(
            b,
        ) && syntax::chain(s, b) matches Some(d) && syntax::sep(s, d) is Some),
    ensures
        found + elif_starts(s, c) == found,
{
    reveal(elif_starts);
    assert(found + elif_starts(s, c) =~= found);
}

pub(crate) proof fn lemma_case_starts_next(
    s: Seq<char>,
    c: int,
    a: int,
    b: int,
    d: int,
    e: int,
    found: Seq<int>,
)
    requires
        syntax::keyword_ws(s, c, "case"@) == Some(a),
        c < a <= s.len(),
        syntax::word(s, a, false) == Some(b),
        c < b <= s.len(),
        syntax::sep(s, syntax::spaced_words(s, b)) == Some(d),
        c < d <= s.len(),
        e == syntax::statement_list(s, d),
        c < e <= s.len(),
    ensures
        found + case_starts(s, c) == found.push(c) + case_starts(s, e),
{
    reveal(case_starts);
    assert(found + case_starts(s, c) =~= found.push(c) + case_starts(s, e));
}

pub(crate) proof fn lemma_case_starts_none(s: Seq<char>, c: int, found: Seq<int>)
    requires
        !(syntax::keyword_ws(s, c, "case"@) matches Some(a) && syntax::word(s, a, false) matches Some(b)
            && syntax::sep(s, syntax::spaced_words(s, b)) is Some),
    ensures
        found + case_starts(s, c) == found,
{
    reveal(case_starts);
    assert(found + case_starts(s, c) =~= found);
}

pub(crate) proof fn lemma_spaced_starts_next(s: Seq<char>, c: int, q: int, e: int, found: Seq<int>)
    requires
        syntax::ws1(s, c) == Some(q),
        c < q <= s.len(),
        syntax::word(s, q, false) == Some(e),
        c < e <= s.len(),
    ensures
        found + spaced_starts(s, c) == found.push(q) + spaced_starts(s, e),
{
    reveal(spaced_starts);
    assert(found + spaced_starts(s, c) =~= found.push(q) + spaced_starts(s, e));
}

pub(crate) proof fn lemma_spaced_starts_none(s: Seq<char>, c: int, found: Seq<int>)
    requires
        match syntax::ws1(s, c) {
            Some(q) => syntax::word(s, q, false) is None,
            None => true,
        },
    ensures
        found + spaced_starts(s, c) == found,
{
    reveal(spaced_starts);
    assert(found + spaced_starts(s, c) =~= found);
}

pub(crate) proof fn lemma_flat_origins_push(s: Seq<char>, st: Seq<int>, q: int)
    ensures
        flat_origins(s, st.push(q)) == flat_origins(s, st) + Seq::new(
            stmt_count(s, q),
            |j: int| (q, j),
        ),
        flat_origins(s, Seq::<int>::empty()) == Seq::<(int, int)>::empty(),
{
    reveal(flat_origins);
    assert(st.push(q).drop_last() =~= st);
}

// Values.

/// The statements of the list at `p`: one per source statement, a chain
/// giving one per pipeline, in order.
pub open spec fn stmts_value(s: Seq<char>, p: int, out: Seq<Statement>) -> bool
    decreases out, 1int,
{
    pieces_value(s, list_stmt_starts(s, p), out)
}

/// The statements given by the source statements at `st`, in order.
pub open spec fn pieces_value(s: Seq<char>, st: Seq<int>, out: Seq<Statement>) -> bool
    decreases out, 0int,
{
    let o = flat_origins(s, st);
    &&& out.len() == o.len()
    &&& forall|i: int| 0 <= i < o.len() ==> piece_value(s, o[i].0, o[i].1, #[trigger] out[i])
}

/// Statement number `j` of those the statement at `q` gives. It spans the
/// lines from the first to the last character of the source statement.
pub open spec fn piece_value(s: Seq<char>, q: int, j: int, st: Statement) -> bool
    decreases st, 1int,
{
    if syntax::simple_statement(s, q) is Some {
        &&& j == 0
        &&& st.span.start_line == line_of(s, q)
        &&& st.span.end_line == line_of(s, syntax::simple_statement(s, q).unwrap())
        &&& simple_kind_value(s, q, st.kind)
    } else {
        let parts = chain_parts(s, q);
        &&& 0 <= j < parts.len()
        &&& st.span.start_line == line_of(s, q)
        &&& st.span.end_line == line_of(s, syntax::chain(s, q).unwrap())
        &&& pipeline_stmt_value(s, parts[j].1, parts[j].0, st.kind)
    }
}

/// A comment (the text after `#`), `return` with its word if one follows,
/// `break`, `continue`, or a function.
pub open spec fn simple_kind_value(s: Seq<char>, q: int, k: StatementKind) -> bool
    decreases k, 1int,
{
    let alt = simple_alternative(s, q);
    if alt == 0 {
        comment_value(s, q, k)
    } else if alt == 1 {
        return_value(s, q, k)
    } else if alt == 2 {
        k == StatementKind::Break
    } else if alt == 3 {
        k == StatementKind::Continue
    } else {
        match k {
            StatementKind::Function(x) => function_value(s, q, x),
            _ => false,
        }
    }
}

/// A comment: the text after `#` up to the end of the line.
pub open spec fn comment_value(s: Seq<char>, q: int, k: StatementKind) -> bool {
    k matches StatementKind::Comment(t) && t@ == s.subrange(q + 1, syntax::line_end(s, q + 1))
}

/// `return`, with the word after it if one follows.
pub open spec fn return_value(s: Seq<char>, q: int, k: StatementKind) -> bool
    decreases k, 0int,
{
    let a = syntax::keyword(s, q, "return"@).unwrap();
    match syntax::ws1(s, a) {
        Some(r) => match syntax::word(s, r, false) {
            Some(_) => match k {
                StatementKind::Return(Some(w)) => word_value(s, r, false, w),
                _ => false,
            },
            None => k == StatementKind::Return(None),
        },
        None => k == StatementKind::Return(None),
    }
}

/// `function NAME OPTIONS...; BODY; end`.
pub open spec fn function_value(s: Seq<char>, p: int, x: FunctionStatement) -> bool
    decreases x, 1int,
{
    let q = syntax::keyword_ws(s, p, "function"@).unwrap();
    let w = syntax::word(s, q, false).unwrap();
    &&& word_value(s, q, false, x.name)
    &&& words_value(s, spaced_starts(s, w), x.options@)
    &&& stmts_value(s, syntax::sep(s, syntax::spaced_words(s, w)).unwrap(), x.body@)
}

/// Whether the pipeline at `pp` is one stage, neither negated nor in the
/// background.
#[verifier::opaque]
pub open spec fn stmt_lone(s: Seq<char>, pp: int) -> bool {
    let h = syntax::pipeline_head(s, pp);
    let e = syntax::element(s, h).unwrap();
    &&& stage_links(s, e).len() == 0
    &&& !syntax::negation(s, skip_ws(s, syntax::combinator_prefix(s, pp).1)).0
    &&& !syntax::background_at(s, skip_ws(s, syntax::stages(s, e)))
}

/// Whether a lone stage of the pipeline at `pp`, joined by `comb`, stays a
/// pipeline: a command does, and a block other than `begin`/braces does
/// when it is joined by `and`/`or`.
#[verifier::opaque]
pub open spec fn stmt_keep(s: Seq<char>, pp: int, comb: Combinator) -> bool {
    let h = syntax::pipeline_head(s, pp);
    if syntax::block(s, h) is Some {
        block_alternative(s, h) < 4 && comb != Combinator::Plain
    } else {
        true
    }
}

/// What the pipeline at `pp`, joined by `comb`, becomes as a statement: a
/// lone block stage that does not stay a pipeline is that block (a
/// `begin`/braces block joined by `comb`); otherwise the pipeline.
pub open spec fn pipeline_stmt_value(s: Seq<char>, pp: int, comb: Combinator, k: StatementKind) -> bool
    decreases k, 1int,
{
    if stmt_lone(s, pp) && !stmt_keep(s, pp, comb) {
        block_kind_value(s, syntax::pipeline_head(s, pp), k, comb)
    } else {
        match k {
            StatementKind::Pipeline(pl) => pipeline_value(s, pp, comb, pl),
            _ => false,
        }
    }
}

/// The pipeline at `pp`, joined by `comb`: its negation, its stages and the
/// pipes between them, and whether it runs in the background.
pub open spec fn pipeline_value(s: Seq<char>, pp: int, comb: Combinator, pl: Pipeline) -> bool
    decreases pl, 1int,
{
    let h = syntax::pipeline_head(s, pp);
    let e = syntax::element(s, h).unwrap();
    let links = stage_links(s, e);
    &&& pl.combinator == comb
    &&& pl.negate == syntax::negation(s, skip_ws(s, syntax::combinator_prefix(s, pp).1)).0
    &&& pl.background == syntax::background_at(s, skip_ws(s, syntax::stages(s, e)))
    &&& pl.elements@.len() == links.len() + 1
    &&& pl.pipe_operators@.len() == links.len()
    &&& element_value(s, h, pl.elements@[0])
    &&& forall|i: int|
        1 <= i < pl.elements@.len() ==> element_value(s, links[i - 1].1, #[trigger] pl.elements@[i])
    &&& forall|i: int| 0 <= i < links.len() ==> #[trigger] pl.pipe_operators@[i] == links[i].0
}

/// A stage: the block at `q` if there is one, otherwise the command.
pub open spec fn element_value(s: Seq<char>, q: int, el: PipelineElement) -> bool
    decreases el, 1int,
{
    if syntax::block(s, q) is Some {
        match el {
            PipelineElement::Block(st) => block_value(s, q, st),
            _ => false,
        }
    } else {
        match el {
            PipelineElement::Command(c) => command_value(s, q, c),
            _ => false,
        }
    }
}

/// The pipelines of the chain at `q`.
pub open spec fn chain_value(s: Seq<char>, q: int, ps: Seq<Pipeline>) -> bool
    decreases ps, 1int,
{
    let parts = chain_parts(s, q);
    &&& ps.len() == parts.len()
    &&& forall|i: int|
        0 <= i < parts.len() ==> pipeline_value(s, parts[i].1, parts[i].0, #[trigger] ps[i])
}

/// The block at `q`, spanning the lines from its first to its last
/// character.
pub open spec fn block_value(s: Seq<char>, q: int, st: Statement) -> bool
    decreases st, 1int,
{
    &&& st.span.start_line == line_of(s, q)
    &&& st.span.end_line == line_of(s, syntax::block(s, q).unwrap())
    &&& block_kind_value(s, q, st.kind, Combinator::Plain)
}

/// The block at `q`; a `begin`/braces block is joined by `comb`.
pub open spec fn block_kind_value(s: Seq<char>, q: int, k: StatementKind, comb: Combinator) -> bool
    decreases k, 0int,
{
    let alt = block_alternative(s, q);
    if alt == 0 {
        match k {
            StatementKind::If(x) => if_value(s, q, x),
            _ => false,
        }
    } else if alt == 1 {
        match k {
            StatementKind::Switch(x) => switch_value(s, q, x),
            _ => false,
        }
    } else if alt == 2 {
        match k {
            StatementKind::For(x) => for_value(s, q, x),
            _ => false,
        }
    } else if alt == 3 {
        match k {
            StatementKind::While(x) => while_value(s, q, x),
            _ => false,
        }
    } else if alt == 4 {
        match k {
            StatementKind::BeginBlock(b) => b.combinator == comb && begin_value(s, q, b),
            _ => false,
        }
    } else {
        match k {
            StatementKind::BeginBlock(b) => b.combinator == comb && braces_value(s, q, b),
            _ => false,
        }
    }
}

/// `if`: the condition, the body, the `else if` branches, the `else` body
/// if there is one, and the redirections after `end`.
#[verifier::rlimit(100)]
pub open spec fn if_value(s: Seq<char>, p: int, x: IfStatement) -> bool
    decreases x, 1int,
{
    let q = syntax::keyword_ws(s, p, "if"@).unwrap();
    let d = syntax::sep(s, syntax::chain(s, q).unwrap()).unwrap();
    let t = syntax::statement_list(s, d);
    let el = syntax::elifs(s, t);
    let st = elif_starts(s, t);
    &&& chain_value(s, q, x.condition@)
    &&& stmts_value(s, d, x.then_body@)
    &&& x.elif_branches@.len() == st.len()
    &&& forall|i: int| 0 <= i < st.len() ==> elif_value(s, st[i], #[trigger] x.elif_branches@[i])
    &&& match syntax::keyword(s, el, "else"@) {
        Some(a) => match syntax::sep(s, a) {
            Some(b) => match x.else_body {
                Some(body) => stmts_value(s, b, body@),
                None => false,
            },
            None => x.else_body is None,
        },
        None => x.else_body is None,
    }
    &&& redirs_value(
        s,
        syntax::keyword(s, syntax::else_branch(s, el), "end"@).unwrap(),
        x.redirections@,
    )
}

/// `else if CONDITION; BODY` at `c`.
pub open spec fn elif_value(s: Seq<char>, c: int, br: (Vec<Pipeline>, Vec<Statement>)) -> bool
    decreases br, 1int,
{
    let a = syntax::keyword_ws(s, c, "else"@).unwrap();
    let b = syntax::keyword_ws(s, a, "if"@).unwrap();
    &&& chain_value(s, b, br.0@)
    &&& stmts_value(s, syntax::sep(s, syntax::chain(s, b).unwrap()).unwrap(), br.1@)
}

/// `switch`: the value, the cases, and the redirections after `end`.
pub open spec fn switch_value(s: Seq<char>, p: int, x: SwitchStatement) -> bool
    decreases x, 1int,
{
    let q = syntax::keyword_ws(s, p, "switch"@).unwrap();
    let c = syntax::sep(s, syntax::word(s, q, false).unwrap()).unwrap();
    let st = case_starts(s, c);
    &&& word_value(s, q, false, x.value)
    &&& x.cases@.len() == st.len()
    &&& forall|i: int| 0 <= i < st.len() ==> case_value(s, st[i], #[trigger] x.cases@[i])
    &&& redirs_value(
        s,
        syntax::keyword(s, syntax::cases(s, c), "end"@).unwrap(),
        x.redirections@,
    )
}

/// `case PATTERNS...; BODY` at `c`.
pub open spec fn case_value(s: Seq<char>, c: int, cc: CaseClause) -> bool
    decreases cc, 1int,
{
    let a = syntax::keyword_ws(s, c, "case"@).unwrap();
    let b = syntax::word(s, a, false).unwrap();
    &&& words_value(s, seq![a] + spaced_starts(s, b), cc.patterns@)
    &&& stmts_value(s, syntax::sep(s, syntax::spaced_words(s, b)).unwrap(), cc.body@)
}

/// `for NAME in VALUES...; BODY; end`: the name, the values, the body, and
/// the redirections after `end`.
pub open spec fn for_value(s: Seq<char>, p: int, x: ForStatement) -> bool
    decreases x, 1int,
{
    let q = syntax::keyword_ws(s, p, "for"@).unwrap();
    let v = syntax::ident(s, q).unwrap();
    let c = syntax::keyword(s, syntax::ws1(s, v).unwrap(), "in"@).unwrap();
    let b = syntax::sep(s, syntax::spaced_words(s, c)).unwrap();
    &&& x.variable@ == s.subrange(q, v)
    &&& words_value(s, spaced_starts(s, c), x.values@)
    &&& stmts_value(s, b, x.body@)
    &&& redirs_value(
        s,
        syntax::keyword(s, syntax::statement_list(s, b), "end"@).unwrap(),
        x.redirections@,
    )
}

/// `while CONDITION; BODY; end`.
pub open spec fn while_value(s: Seq<char>, p: int, x: WhileStatement) -> bool
    decreases x, 1int,
{
    let q = syntax::keyword_ws(s, p, "while"@).unwrap();
    let d = syntax::sep(s, syntax::chain(s, q).unwrap()).unwrap();
    &&& chain_value(s, q, x.condition@)
    &&& stmts_value(s, d, x.body@)
    &&& redirs_value(
        s,
        syntax::keyword(s, syntax::statement_list(s, d), "end"@).unwrap(),
        x.redirections@,
    )
}

/// `begin; BODY; end`.
pub open spec fn begin_value(s: Seq<char>, p: int, b: BeginBlock) -> bool
    decreases b, 1int,
{
    let d = syntax::sep(s, syntax::keyword(s, p, "begin"@).unwrap()).unwrap();
    &&& stmts_value(s, d, b.body@)
    &&& redirs_value(
        s,
        syntax::keyword(s, syntax::statement_list(s, d), "end"@).unwrap(),
        b.redirections@,
    )
}

/// `{ BODY }`.
pub open spec fn braces_value(s: Seq<char>, p: int, b: BeginBlock) -> bool
    decreases b, 1int,
{
    let d2 = match syntax::sep(s, p + 1) {
        Some(e) => e,
        None => skip_ws(s, p + 1),
    };
    &&& stmts_value(s, d2, b.body@)
    &&& redirs_value(
        s,
        syntax::lit(s, skip_ws(s, syntax::statement_list(s, d2)), "}"@).unwrap(),
        b.redirections@,
    )
}

/// A whole script: the `#!` line (from `#!` to the end of its line) if it
/// has one, and its statements.
pub open spec fn program_value(s: Seq<char>, prog: Program) -> bool {
    let p0 = syntax::sep_or_stay(s, 0);
    &&& match syntax::shebang(s, p0) {
        Some(_) => match prog.shebang {
            Some(t) => t@ == s.subrange(p0, syntax::line_end(s, p0 + 2)),
            None => false,
        },
        None => prog.shebang is None,
    }
    &&& stmts_value(s, syntax::program_start(s), prog.statements@)
}

// The statement list, as the parser builds it.

/// No source statements give no statements.
pub(crate) proof fn lemma_pieces_empty(s: Seq<char>)
    ensures
        pieces_value(s, Seq::<int>::empty(), Seq::<Statement>::empty()),
{
    reveal(flat_origins);
}

/// The statements of one more source statement follow those before.
pub(crate) proof fn lemma_pieces_append(
    s: Seq<char>,
    found: Seq<int>,
    out: Seq<Statement>,
    q: int,
    v: Seq<Statement>,
)
    requires
        pieces_value(s, found, out),
        v.len() == stmt_count(s, q),
        forall|j: int| 0 <= j < v.len() ==> piece_value(s, q, j, #[trigger] v[j]),
    ensures
        pieces_value(s, found.push(q), out + v),
{
    lemma_flat_origins_push(s, found, q);
    let o = flat_origins(s, found);
    let o2 = flat_origins(s, found.push(q));
    assert forall|i: int| 0 <= i < o2.len() implies piece_value(
        s,
        o2[i].0,
        o2[i].1,
        #[trigger] (out + v)[i],
    ) by {
        if i < o.len() {
            assert((out + v)[i] == out[i]);
            assert(o2[i] == o[i]);
        } else {
            assert((out + v)[i] == v[i - o.len()]);
            assert(o2[i] == (q, i - o.len()));
        }
    }
}

/// What a parsed pipeline tells of whether it is lone and stays a
/// pipeline.
pub(crate) proof fn lemma_pipeline_shape(s: Seq<char>, pp: int, comb: Combinator, pl: Pipeline)
    requires
        pipeline_value(s, pp, comb, pl),
    ensures
        stmt_lone(s, pp) <==> (pl.elements@.len() == 1 && !pl.negate && !pl.background),
        stmt_lone(s, pp) ==> match pl.elements@[0] {
            PipelineElement::Block(st) => {
                &&& block_kind_value(s, syntax::pipeline_head(s, pp), st.kind, Combinator::Plain)
                &&& (stmt_keep(s, pp, comb) <==> (!(st.kind is BeginBlock) && comb
                    != Combinator::Plain))
            },
            PipelineElement::Command(_) => stmt_keep(s, pp, comb),
        },
{
    reveal(stmt_lone);
    reveal(stmt_keep);
    reveal(block_alternative);
}

/// A `begin`/braces block joined by another combinator is the same block
/// joined by that one.
pub(crate) proof fn lemma_begin_rejoined(
    s: Seq<char>,
    h: int,
    b: BeginBlock,
    b2: BeginBlock,
    comb: Combinator,
)
    requires
        block_kind_value(s, h, StatementKind::BeginBlock(b), Combinator::Plain),
        b2.combinator == comb,
        b2.body == b.body,
        b2.redirections == b.redirections,
    ensures
        block_kind_value(s, h, StatementKind::BeginBlock(b2), comb),
{
}

} // verus!
