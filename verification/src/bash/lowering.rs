//! Lowering of the fish syntax tree into the Bash representation.
//!
//! Each `*_lowers` spec function relates a syntax-tree node to the lowered
//! node that the corresponding `lower_*` function returns for it; together
//! they determine the result completely.

pub mod builtins;
pub mod helpers;

use vstd::prelude::*;
use crate::ast::{
    ref_name, single_literal, Command, PipeOperator, Pipeline, PipelineElement, Redirection, Slice,
    SliceIndex, Statement, StatementKind, VariableAssignment, VariableRef, VariableTarget, Word,
    WordPart,
};
use crate::bash::ir::{
    BashSubscript, LoweredAssignment, LoweredBeginBlock, LoweredCaseClause, LoweredCommand,
    LoweredFor, LoweredFunction, LoweredIf, LoweredPipeline, LoweredPipelineElement,
    LoweredProgram, LoweredRedirection, LoweredStatement, LoweredStatementKind, LoweredSwitch,
    LoweredVariableRef, LoweredWhile, LoweredWord, LoweredWordPart, PipeKind, AssignmentIR,
    lowered_literal,
};
use crate::ast::{CaseClause, Program};
use crate::bash::lowering::builtins::{builtin_lower, builtin_outcome, lower_builtin};
use crate::bash::lowering::builtins::set::{lower_set_assignment, set_lowers, set_outcome_some};
use crate::bash::lowering::helpers::{extract_function_meta, meta_from};
use crate::text::{copy_string, str_eq, to_owned_string};

verus! {

/// Where a construct occurs: inside a function body, and/or among the
/// values of a `for` loop.
#[derive(Debug, Clone, Copy, Default)]
pub struct Scope {
    pub in_function: bool,
    pub in_for_values: bool,
}

/// The name a dynamic index or range end refers to (empty when indirect).
pub open spec fn index_var_name(v: VariableRef) -> Seq<char> {
    match ref_name(v) {
        Some(n) => n,
        None => seq![],
    }
}

/// The innermost variable name of a chain of indirect references.
pub open spec fn innermost_name(v: VariableRef) -> Seq<char>
    decreases v,
{
    match v.target {
        VariableTarget::Named(n) => n@,
        VariableTarget::Indirect(b) => innermost_name(*b),
    }
}

/// `e - s + 1`, saturating at `usize::MAX`.
pub open spec fn span_len(s: usize, e: usize) -> usize {
    if e - s + 1 <= usize::MAX {
        (e - s + 1) as usize
    } else {
        usize::MAX
    }
}

/// A 1-based fish index as a 0-based Bash index (`0` stays `0`).
pub open spec fn zero_based(n: usize) -> usize {
    if n > 0 {
        (n - 1) as usize
    } else {
        0
    }
}

/// The Bash subscript for the slices of an ordinary array variable.
pub open spec fn subscript_lowers(slices: Seq<Slice>, sub: Option<BashSubscript>) -> bool {
    if slices.len() == 0 {
        sub is None
    } else if slices.len() == 1 {
        match slices[0] {
            Slice::Index(SliceIndex::Pos(n)) => sub == Some(BashSubscript::ZeroBasedIndex(zero_based(n))),
            Slice::Index(SliceIndex::Neg(k)) => sub == Some(BashSubscript::NegativeOffsetFromLength(k)),
            Slice::Index(SliceIndex::Variable(vr)) => sub matches Some(BashSubscript::DynamicVariable(x))
                && x@ == index_var_name(vr),
            Slice::Range { start: Some(SliceIndex::Pos(s)), end: Some(SliceIndex::Pos(e)) } => if e
                >= s {
                sub == Some(BashSubscript::Range { offset: zero_based(s), length: span_len(s, e) })
            } else {
                sub == Some(BashSubscript::All)
            },
            Slice::Range { start: Some(SliceIndex::Pos(s)), end: None } => sub == Some(
                BashSubscript::OpenRange { offset: zero_based(s) },
            ),
            Slice::Range {
                start: Some(SliceIndex::Variable(a)),
                end: Some(SliceIndex::Variable(b)),
            } => sub matches Some(BashSubscript::DynamicRange { start, end }) && start@
                == index_var_name(a) && end@ == index_var_name(b),
            _ => sub == Some(BashSubscript::All),
        }
    } else {
        sub == Some(BashSubscript::All)
    }
}

/// Whether a single slice of `$argv` has a positional-parameter form.
pub open spec fn argv_special(s: Slice) -> bool {
    match s {
        Slice::Index(SliceIndex::Pos(_)) => true,
        Slice::Index(SliceIndex::Neg(k)) => k == 1,
        Slice::Index(SliceIndex::Variable(_)) => true,
        Slice::Range { start: Some(SliceIndex::Pos(_)), end: None } => true,
        Slice::Range { start: Some(SliceIndex::Pos(_)), end: Some(SliceIndex::Neg(k)) } => k == 1,
        Slice::Range { start: Some(SliceIndex::Pos(s)), end: Some(SliceIndex::Pos(e)) } => e >= s,
        Slice::Range {
            start: Some(SliceIndex::Variable(_)),
            end: Some(SliceIndex::Variable(_)),
        } => true,
        _ => false,
    }
}

/// The positional-parameter form of a single `$argv` slice.
pub open spec fn argv_lowers(s: Slice, l: LoweredVariableRef) -> bool {
    match s {
        Slice::Index(SliceIndex::Pos(i)) => l == LoweredVariableRef::ArgvIndex(i),
        Slice::Index(SliceIndex::Neg(_)) => l == LoweredVariableRef::ArgvLast,
        Slice::Index(SliceIndex::Variable(vr)) => l matches LoweredVariableRef::ArgvDynamic(x) && x@
            == index_var_name(vr),
        Slice::Range { start: Some(SliceIndex::Pos(s)), end: Some(SliceIndex::Pos(e)) } => l
            == LoweredVariableRef::ArgvSlice { start: s, len: Some(span_len(s, e)) },
        Slice::Range { start: Some(SliceIndex::Pos(s)), end: _ } => l
            == LoweredVariableRef::ArgvSlice { start: s, len: None },
        Slice::Range { start: Some(SliceIndex::Variable(a)), end: Some(SliceIndex::Variable(b)) } => l
            matches LoweredVariableRef::ArgvDynamicRange { start, end } && start@ == index_var_name(a)
            && end@ == index_var_name(b),
        _ => false,
    }
}

/// The Bash form of a variable reference: `$$x` becomes `${!x}` (for the
/// innermost name of a chain); `$status`, `$pipestatus`, `$fish_pid`,
/// `$last_pid` and `$argv` (with positional slices) become Bash's special
/// parameters; any other variable keeps its name with a Bash subscript.
pub open spec fn varref_lowers(v: VariableRef, l: LoweredVariableRef) -> bool {
    match v.target {
        VariableTarget::Indirect(b) => l matches LoweredVariableRef::Indirect { name } && name@
            == innermost_name(*b),
        VariableTarget::Named(n) => {
            let name = n@;
            let slices = v.slices@;
            if slices.len() == 0 && name == "status"@ {
                l == LoweredVariableRef::Status
            } else if slices.len() == 0 && name == "pipestatus"@ {
                l == LoweredVariableRef::Pipestatus
            } else if slices.len() == 0 && name == "fish_pid"@ {
                l == LoweredVariableRef::FishPid
            } else if slices.len() == 0 && name == "last_pid"@ {
                l == LoweredVariableRef::LastPid
            } else if name == "argv"@ && slices.len() == 0 {
                l == LoweredVariableRef::ArgvAll
            } else if name == "argv"@ && slices.len() == 1 && argv_special(slices[0]) {
                argv_lowers(slices[0], l)
            } else {
                l matches LoweredVariableRef::Custom { name: n2, subscript } && n2@ == name
                    && subscript_lowers(slices, subscript)
            }
        },
    }
}

/// Structural equality of slices (by the text of the names they hold).
pub open spec fn slices_same(a: Seq<Slice>, b: Seq<Slice>) -> bool
    decreases a,
{
    a.len() == b.len() && (a.len() == 0 || (slices_same(a.drop_last(), b.drop_last()) && slice_same(
        a.last(),
        b.last(),
    )))
}

pub open spec fn slice_same(a: Slice, b: Slice) -> bool
    decreases a,
{
    match (a, b) {
        (Slice::Index(x), Slice::Index(y)) => index_same(x, y),
        (Slice::Range { start: s1, end: e1 }, Slice::Range { start: s2, end: e2 }) => opt_index_same(
            s1,
            s2,
        ) && opt_index_same(e1, e2),
        _ => false,
    }
}

pub open spec fn opt_index_same(a: Option<SliceIndex>, b: Option<SliceIndex>) -> bool
    decreases a,
{
    match (a, b) {
        (Some(x), Some(y)) => index_same(x, y),
        (None, None) => true,
        _ => false,
    }
}

pub open spec fn index_same(a: SliceIndex, b: SliceIndex) -> bool
    decreases a,
{
    match (a, b) {
        (SliceIndex::Pos(x), SliceIndex::Pos(y)) => x == y,
        (SliceIndex::Neg(x), SliceIndex::Neg(y)) => x == y,
        (SliceIndex::Variable(x), SliceIndex::Variable(y)) => varref_same(x, y),
        _ => false,
    }
}

pub open spec fn varref_same(a: VariableRef, b: VariableRef) -> bool
    decreases a,
{
    slices_same(a.slices@, b.slices@) && match (a.target, b.target) {
        (VariableTarget::Named(x), VariableTarget::Named(y)) => x@ == y@,
        (VariableTarget::Indirect(x), VariableTarget::Indirect(y)) => varref_same(*x, *y),
        _ => false,
    }
}

pub open spec fn pipe_kind_of(op: PipeOperator) -> PipeKind {
    match op {
        PipeOperator::Stdout => PipeKind::Stdout,
        PipeOperator::StdoutAndStderr => PipeKind::StdoutAndStderr,
        PipeOperator::Fd(n) => PipeKind::Fd(n),
    }
}

pub open spec fn ops_lower(a: Seq<PipeOperator>, l: Seq<PipeKind>) -> bool {
    a.len() == l.len() && forall|i: int| 0 <= i < a.len() ==> l[i] == pipe_kind_of(#[trigger] a[i])
}

/// The scope of the values of a `for` loop.
pub open spec fn for_values_scope(scope: Scope) -> Scope {
    Scope { in_function: scope.in_function, in_for_values: true }
}

/// The scope of a function body.
pub open spec fn function_scope(scope: Scope) -> Scope {
    Scope { in_function: true, in_for_values: scope.in_for_values }
}

/// Whether a command substitution is `(... | psub)`: no slices, a single
/// pipeline of at least two stages, the last a command named `psub`.
pub open spec fn is_psub(statements: Seq<Statement>, slices: Seq<Slice>) -> bool {
    slices.len() == 0 && statements.len() == 1 && match statements[0].kind {
        StatementKind::Pipeline(p) => p.elements@.len() >= 2 && match p.elements@.last() {
            PipelineElement::Command(c) => c.args@.len() > 0 && single_literal(c.args@[0]) == Some(
                "psub"@,
            ),
            PipelineElement::Block(_) => false,
        },
        _ => false,
    }
}

/// The operators of a pipeline without its last stage.
pub open spec fn ops_without_last(ops: Seq<PipeOperator>) -> Seq<PipeOperator> {
    if ops.len() > 0 {
        ops.drop_last()
    } else {
        ops
    }
}

/// Whether a pipeline is a single `set ...` command that lowers to an
/// assignment.
pub open spec fn is_set_assignment(p: Pipeline) -> bool {
    p.elements@.len() == 1 && match p.elements@[0] {
        PipelineElement::Command(c) => c.args@.len() > 0 && single_literal(c.args@[0]) == Some(
            "set"@,
        ) && set_outcome_some(c),
        PipelineElement::Block(_) => false,
    }
}

pub open spec fn stmts_lower(a: Seq<Statement>, l: Seq<LoweredStatement>, scope: Scope) -> bool
    decreases a, 0int,
{
    a.len() == l.len() && (a.len() == 0 || (stmts_lower(a.drop_last(), l.drop_last(), scope)
        && stmt_lower(a.last(), l.last(), scope)))
}

/// A statement lowers kind by kind, keeping its span; a lone `set`
/// command becomes an assignment.
pub open spec fn stmt_lower(s: Statement, l: LoweredStatement, scope: Scope) -> bool
    decreases s, 0int,
{
    l.span == s.span && match s.kind {
        StatementKind::Comment(c) => l.kind matches LoweredStatementKind::Comment(c2) && c2@ == c@,
        StatementKind::Return(w) => match (w, l.kind) {
            (Some(a), LoweredStatementKind::Return(Some(b))) => word_lower(a, b, scope),
            (None, LoweredStatementKind::Return(None)) => true,
            _ => false,
        },
        StatementKind::Break => l.kind is Break,
        StatementKind::Continue => l.kind is Continue,
        StatementKind::Pipeline(p) => if is_set_assignment(p) {
            match p.elements@[0] {
                PipelineElement::Command(c) => l.kind matches LoweredStatementKind::Assignment(a)
                    && set_lowers(c, scope, Some(a)),
                PipelineElement::Block(_) => false,
            }
        } else {
            l.kind matches LoweredStatementKind::Pipeline(lp) && pipeline_lower(p, lp, scope)
        },
        StatementKind::If(i) => match l.kind {
            LoweredStatementKind::If(li) => {
                &&& pipelines_lower(i.condition@, li.condition@, scope)
                &&& stmts_lower(i.then_body@, li.then_body@, scope)
                &&& elifs_lower(i.elif_branches@, li.elif_branches@, scope)
                &&& match (i.else_body, li.else_body) {
                    (Some(a), Some(b)) => stmts_lower(a@, b@, scope),
                    (None, None) => true,
                    _ => false,
                }
                &&& redirs_lower(i.redirections@, li.redirections@, scope)
            },
            _ => false,
        },
        StatementKind::Switch(sw) => match l.kind {
            LoweredStatementKind::Switch(ls) => {
                &&& word_lower(sw.value, ls.value, scope)
                &&& cases_lower(sw.cases@, ls.cases@, scope)
                &&& redirs_lower(sw.redirections@, ls.redirections@, scope)
            },
            _ => false,
        },
        StatementKind::For(f) => match l.kind {
            LoweredStatementKind::For(lf) => {
                &&& lf.variable@ == f.variable@
                &&& words_lower(f.values@, lf.values@, for_values_scope(scope))
                &&& stmts_lower(f.body@, lf.body@, scope)
                &&& redirs_lower(f.redirections@, lf.redirections@, scope)
            },
            _ => false,
        },
        StatementKind::While(w) => match l.kind {
            LoweredStatementKind::While(lw) => {
                &&& pipelines_lower(w.condition@, lw.condition@, scope)
                &&& stmts_lower(w.body@, lw.body@, scope)
                &&& redirs_lower(w.redirections@, lw.redirections@, scope)
            },
            _ => false,
        },
        StatementKind::Function(f) => match l.kind {
            LoweredStatementKind::Function(lf) => {
                let meta = meta_from(f.options@, 0);
                &&& lf.name@ == (match single_literal(f.name) {
                    Some(t) => t,
                    None => seq![],
                })
                &&& lf.named_args@.len() == meta.0.len()
                &&& forall|k: int|
                    0 <= k < meta.0.len() ==> (#[trigger] lf.named_args@[k])@ == meta.0[k]
                &&& match lf.description {
                    Some(d) => meta.1 == Some(Some(d@)),
                    None => meta.1 is None || meta.1 == Some(None::<Seq<char>>),
                }
                &&& stmts_lower(f.body@, lf.body@, function_scope(scope))
            },
            _ => false,
        },
        StatementKind::BeginBlock(b) => match l.kind {
            LoweredStatementKind::BeginBlock(lb) => {
                &&& lb.combinator == b.combinator
                &&& stmts_lower(b.body@, lb.body@, scope)
                &&& redirs_lower(b.redirections@, lb.redirections@, scope)
            },
            _ => false,
        },
    }
}

pub open spec fn elifs_lower(
    a: Seq<(Vec<Pipeline>, Vec<Statement>)>,
    l: Seq<(Vec<LoweredPipeline>, Vec<LoweredStatement>)>,
    scope: Scope,
) -> bool
    decreases a, 0int,
{
    a.len() == l.len() && (a.len() == 0 || (elifs_lower(a.drop_last(), l.drop_last(), scope)
        && pipelines_lower(a.last().0@, l.last().0@, scope) && stmts_lower(
        a.last().1@,
        l.last().1@,
        scope,
    )))
}

pub open spec fn cases_lower(
    a: Seq<CaseClause>,
    l: Seq<LoweredCaseClause>,
    scope: Scope,
) -> bool
    decreases a, 0int,
{
    a.len() == l.len() && (a.len() == 0 || (cases_lower(a.drop_last(), l.drop_last(), scope)
        && words_lower(a.last().patterns@, l.last().patterns@, scope) && stmts_lower(
        a.last().body@,
        l.last().body@,
        scope,
    )))
}

pub open spec fn pipelines_lower(a: Seq<Pipeline>, l: Seq<LoweredPipeline>, scope: Scope) -> bool
    decreases a, 0int,
{
    a.len() == l.len() && (a.len() == 0 || (pipelines_lower(a.drop_last(), l.drop_last(), scope)
        && pipeline_lower(a.last(), l.last(), scope)))
}

pub open spec fn pipeline_lower(p: Pipeline, l: LoweredPipeline, scope: Scope) -> bool
    decreases p, 0int,
{
    &&& l.negate == p.negate
    &&& l.combinator == p.combinator
    &&& l.background == p.background
    &&& elements_lower(p.elements@, l.elements@, scope)
    &&& ops_lower(p.pipe_operators@, l.pipe_operators@)
}

pub open spec fn elements_lower(
    a: Seq<PipelineElement>,
    l: Seq<LoweredPipelineElement>,
    scope: Scope,
) -> bool
    decreases a, 0int,
{
    a.len() == l.len() && (a.len() == 0 || (elements_lower(a.drop_last(), l.drop_last(), scope)
        && match (a.last(), l.last()) {
        (PipelineElement::Command(c), LoweredPipelineElement::Command(lc)) => command_lower(
            c,
            lc,
            scope,
        ),
        (PipelineElement::Block(s), LoweredPipelineElement::Block(ls)) => stmt_lower(s, ls, scope),
        _ => false,
    }))
}

/// A command lowers through its builtin form when it has one, otherwise
/// part by part.
pub open spec fn command_lower(c: Command, l: LoweredCommand, scope: Scope) -> bool
    decreases c, 2int,
{
    if builtin_outcome(c) {
        builtin_lower(c, l, scope)
    } else {
        &&& assigns_lower(c.assignments@, l.assignments@, scope)
        &&& words_lower(c.args@, l.args@, scope)
        &&& redirs_lower(c.redirections@, l.redirections@, scope)
    }
}

pub open spec fn assigns_lower(a: Seq<VariableAssignment>, l: Seq<LoweredAssignment>, scope: Scope) -> bool
    decreases a, 0int,
{
    a.len() == l.len() && (a.len() == 0 || (assigns_lower(a.drop_last(), l.drop_last(), scope)
        && l.last().name@ == a.last().name@ && word_lower(a.last().value, l.last().value, scope)))
}

pub open spec fn words_lower(a: Seq<Word>, l: Seq<LoweredWord>, scope: Scope) -> bool
    decreases a, 0int,
{
    a.len() == l.len() && (a.len() == 0 || (words_lower(a.drop_last(), l.drop_last(), scope)
        && word_lower(a.last(), l.last(), scope)))
}

/// Words lower one by one: the `i`-th lowered word is the lowering of the
/// `i`-th word.
pub proof fn lemma_words_lower_each(a: Seq<Word>, l: Seq<LoweredWord>, scope: Scope)
    requires
        words_lower(a, l, scope),
    ensures
        a.len() == l.len(),
        forall|i: int| 0 <= i < a.len() ==> word_lower(#[trigger] a[i], l[i], scope),
    decreases a.len(),
{
    if a.len() > 0 {
        lemma_words_lower_each(a.drop_last(), l.drop_last(), scope);
        assert forall|i: int| 0 <= i < a.len() implies word_lower(#[trigger] a[i], l[i], scope) by {
            if i < a.len() - 1 {
                assert(a.drop_last()[i] == a[i]);
                assert(l.drop_last()[i] == l[i]);
            }
        }
    }
}

pub open spec fn word_lower(w: Word, l: LoweredWord, scope: Scope) -> bool
    decreases w, 0int,
{
    parts_lower(w.parts@, l.parts@, scope)
}

pub open spec fn parts_lower(a: Seq<WordPart>, l: Seq<LoweredWordPart>, scope: Scope) -> bool
    decreases a, 0int,
{
    a.len() == l.len() && (a.len() == 0 || (parts_lower(a.drop_last(), l.drop_last(), scope)
        && part_lower(a.last(), l.last(), scope)))
}

/// Word parts lower one to one; `(... | psub)` becomes a process
/// substitution of the pipeline without `psub`; a command substitution is
/// quoted except among the values of a `for` loop.
pub open spec fn part_lower(p: WordPart, l: LoweredWordPart, scope: Scope) -> bool
    decreases p, 0int,
{
    match p {
        WordPart::Literal(s) => l matches LoweredWordPart::Literal(t) && t@ == s@,
        WordPart::SingleQuoted(s) => l matches LoweredWordPart::SingleQuoted(t) && t@ == s@,
        WordPart::DoubleQuoted(ps) => l matches LoweredWordPart::DoubleQuoted(lps) && parts_lower(
            ps@,
            lps@,
            scope,
        ),
        WordPart::Variable(v) => l matches LoweredWordPart::Variable(lv) && varref_lowers(v, lv),
        WordPart::CommandSubst { statements, slices } => if is_psub(statements@, slices@) {
            match statements@[0].kind {
                StatementKind::Pipeline(pp) => match l {
                    LoweredWordPart::ProcessSubst(lp) => {
                        &&& lp.negate == pp.negate
                        &&& lp.combinator == pp.combinator
                        &&& lp.background == pp.background
                        &&& elements_lower(pp.elements@.drop_last(), lp.elements@, scope)
                        &&& ops_lower(ops_without_last(pp.pipe_operators@), lp.pipe_operators@)
                    },
                    _ => false,
                },
                _ => false,
            }
        } else {
            match l {
                LoweredWordPart::CommandSubst { stmts, slices: ls, quoted } => {
                    &&& stmts_lower(statements@, stmts@, scope)
                    &&& slices_same(slices@, ls@)
                    &&& quoted == !scope.in_for_values
                },
                _ => false,
            }
        },
        WordPart::BraceExpansion(ws) => l matches LoweredWordPart::BraceExpansion(lws) && words_lower(
            ws@,
            lws@,
            scope,
        ),
    }
}

pub open spec fn redirs_lower(a: Seq<Redirection>, l: Seq<LoweredRedirection>, scope: Scope) -> bool
    decreases a, 0int,
{
    a.len() == l.len() && (a.len() == 0 || (redirs_lower(a.drop_last(), l.drop_last(), scope)
        && redir_lower(a.last(), l.last(), scope)))
}

pub open spec fn redir_lower(r: Redirection, l: LoweredRedirection, scope: Scope) -> bool
    decreases r, 0int,
{
    l.fd == r.fd && l.mode == r.mode && word_lower(r.target, l.target, scope)
}


/// The scope at the top of a script: outside functions and loop values.
pub open spec fn top_scope() -> Scope {
    Scope { in_function: false, in_for_values: false }
}

pub open spec fn opt_text(o: Option<String>) -> Option<Seq<char>> {
    match o {
        Some(s) => Some(s@),
        None => None,
    }
}

/// Lowers a whole script, keeping its `#!` line.
pub fn lower_program(program: &Program) -> (r: LoweredProgram)
    ensures
        opt_text(r.shebang) == opt_text(program.shebang),
        stmts_lower(program.statements@, r.statements@, top_scope()),
{
    let mut scope = Scope { in_function: false, in_for_values: false };
    let statements = lower_statements(program.statements.as_slice(), &mut scope);
    let shebang = match &program.shebang {
        Some(s) => Some(copy_string(s)),
        None => None,
    };
    LoweredProgram { shebang, statements }
}

/// Lowers statements one by one (see `stmt_lower`); the scope is left as it was.
pub fn lower_statements(stmts: &[Statement], scope: &mut Scope) -> (r: Vec<LoweredStatement>)
    ensures
        stmts_lower(stmts@, r@, *old(scope)),
        *final(scope) == *old(scope),
    decreases stmts@, 0int,
{
    let mut r: Vec<LoweredStatement> = Vec::new();
    let mut k: usize = 0;
    while k < stmts.len()
        invariant
            k <= stmts@.len(),
            *scope == *old(scope),
            stmts_lower(stmts@.take(k as int), r@, *scope),
        decreases stmts@.len() - k,
    {
        assert(stmts@.take(k + 1).drop_last() =~= stmts@.take(k as int));
        let l = lower_stmt(&stmts[k], scope);
        let ghost r0 = r@;
        r.push(l);
        assert(r@.drop_last() =~= r0);
        k = k + 1;
    }
    assert(stmts@.take(stmts@.len() as int) =~= stmts@);
    r
}

fn lower_body(stmts: &Vec<Statement>, scope: &Scope) -> (r: Vec<LoweredStatement>)
    ensures
        stmts_lower(stmts@, r@, *scope),
    decreases stmts, 0int,
{
    let mut r: Vec<LoweredStatement> = Vec::new();
    let mut k: usize = 0;
    while k < stmts.len()
        invariant
            k <= stmts@.len(),
            stmts_lower(stmts@.take(k as int), r@, *scope),
        decreases stmts@.len() - k,
    {
        assert(stmts@.take(k + 1).drop_last() =~= stmts@.take(k as int));
        let l = lower_stmt(&stmts[k], scope);
        let ghost r0 = r@;
        r.push(l);
        assert(r@.drop_last() =~= r0);
        k = k + 1;
    }
    assert(stmts@.take(stmts@.len() as int) =~= stmts@);
    r
}

/// Lowers one statement (see `stmt_lower`); the scope is left as it was.
pub fn lower_statement(stmt: &Statement, scope: &mut Scope) -> (r: LoweredStatement)
    ensures
        stmt_lower(*stmt, r, *old(scope)),
        *final(scope) == *old(scope),
{
    lower_stmt(stmt, scope)
}

/// Whether a pipeline is a single command whose first word is `set`.
fn set_command(p: &Pipeline) -> (r: Option<&Command>)
    ensures
        match r {
            Some(c) => p.elements@.len() == 1 && p.elements@[0] == PipelineElement::Command(*c)
                && c.args@.len() > 0 && single_literal(c.args@[0]) == Some("set"@),
            None => !(p.elements@.len() == 1 && match p.elements@[0] {
                PipelineElement::Command(c) => c.args@.len() > 0 && single_literal(c.args@[0])
                    == Some("set"@),
                PipelineElement::Block(_) => false,
            }),
        },
{
    if p.elements.len() != 1 {
        return None;
    }
    match &p.elements[0] {
        PipelineElement::Command(c) => {
            if c.args.len() == 0 {
                return None;
            }
            match c.args[0].as_single_literal() {
                Some(n) => if str_eq(n, "set") {
                    Some(c)
                } else {
                    None
                },
                None => None,
            }
        },
        PipelineElement::Block(_) => None,
    }
}

#[verifier::rlimit(60)]
fn lower_stmt(stmt: &Statement, scope: &Scope) -> (r: LoweredStatement)
    ensures
        stmt_lower(*stmt, r, *scope),
    decreases stmt, 0int,
{
    let kind = match &stmt.kind {
        StatementKind::Comment(c) => LoweredStatementKind::Comment(copy_string(c)),
        StatementKind::Return(w) => match w {
            Some(w) => LoweredStatementKind::Return(Some(lower_word(w, scope))),
            None => LoweredStatementKind::Return(None),
        },
        StatementKind::Break => LoweredStatementKind::Break,
        StatementKind::Continue => LoweredStatementKind::Continue,
        StatementKind::Pipeline(p) => {
            let mut assigned: Option<AssignmentIR> = None;
            match set_command(p) {
                Some(c) => {
                    assigned = lower_set_assignment(c, scope);
                },
                None => {},
            }
            match assigned {
                Some(a) => LoweredStatementKind::Assignment(a),
                None => LoweredStatementKind::Pipeline(lower_pipeline(p, scope)),
            }
        },
        StatementKind::If(i) => {
            let condition = lower_pipelines(&i.condition, scope);
            let then_body = lower_body(&i.then_body, scope);
            let elif_branches = lower_elifs(&i.elif_branches, scope);
            let else_body = match &i.else_body {
                Some(b) => Some(lower_body(b, scope)),
                None => None,
            };
            let redirections = lower_redirections(&i.redirections, scope);
            LoweredStatementKind::If(
                LoweredIf { condition, then_body, elif_branches, else_body, redirections },
            )
        },
        StatementKind::Switch(sw) => {
            let value = lower_word(&sw.value, scope);
            let cases = lower_cases(&sw.cases, scope);
            let redirections = lower_redirections(&sw.redirections, scope);
            LoweredStatementKind::Switch(LoweredSwitch { value, cases, redirections })
        },
        StatementKind::For(f) => {
            let val_scope = Scope { in_function: scope.in_function, in_for_values: true };
            let values = lower_words_from(&f.values, 0, &val_scope);
            proof {
                assert(f.values@.skip(0) =~= f.values@);
            }
            let body = lower_body(&f.body, scope);
            let redirections = lower_redirections(&f.redirections, scope);
            LoweredStatementKind::For(
                LoweredFor { variable: copy_string(&f.variable), values, body, redirections },
            )
        },
        StatementKind::While(w) => {
            let condition = lower_pipelines(&w.condition, scope);
            let body = lower_body(&w.body, scope);
            let redirections = lower_redirections(&w.redirections, scope);
            LoweredStatementKind::While(LoweredWhile { condition, body, redirections })
        },
        StatementKind::Function(f) => {
            let fn_scope = Scope { in_function: true, in_for_values: scope.in_for_values };
            let (named_args, description) = extract_function_meta(f.options.as_slice());
            let name = match f.name.as_single_literal() {
                Some(t) => to_owned_string(t),
                None => String::new(),
            };
            let body = lower_body(&f.body, &fn_scope);
            LoweredStatementKind::Function(LoweredFunction { name, named_args, description, body })
        },
        StatementKind::BeginBlock(b) => {
            let body = lower_body(&b.body, scope);
            let redirections = lower_redirections(&b.redirections, scope);
            LoweredStatementKind::BeginBlock(
                LoweredBeginBlock { combinator: b.combinator, body, redirections },
            )
        },
    };
    LoweredStatement { kind, span: stmt.span }
}

fn lower_pipelines(ps: &Vec<Pipeline>, scope: &Scope) -> (r: Vec<LoweredPipeline>)
    ensures
        pipelines_lower(ps@, r@, *scope),
    decreases ps, 0int,
{
    let mut r: Vec<LoweredPipeline> = Vec::new();
    let mut k: usize = 0;
    while k < ps.len()
        invariant
            k <= ps@.len(),
            pipelines_lower(ps@.take(k as int), r@, *scope),
        decreases ps@.len() - k,
    {
        assert(ps@.take(k + 1).drop_last() =~= ps@.take(k as int));
        let l = lower_pipeline(&ps[k], scope);
        let ghost r0 = r@;
        r.push(l);
        assert(r@.drop_last() =~= r0);
        k = k + 1;
    }
    assert(ps@.take(ps@.len() as int) =~= ps@);
    r
}

fn lower_elifs(
    bs: &Vec<(Vec<Pipeline>, Vec<Statement>)>,
    scope: &Scope,
) -> (r: Vec<(Vec<LoweredPipeline>, Vec<LoweredStatement>)>)
    ensures
        elifs_lower(bs@, r@, *scope),
    decreases bs, 0int,
{
    let mut r: Vec<(Vec<LoweredPipeline>, Vec<LoweredStatement>)> = Vec::new();
    let mut k: usize = 0;
    while k < bs.len()
        invariant
            k <= bs@.len(),
            elifs_lower(bs@.take(k as int), r@, *scope),
        decreases bs@.len() - k,
    {
        assert(bs@.take(k + 1).drop_last() =~= bs@.take(k as int));
        let cond = lower_pipelines(&bs[k].0, scope);
        let body = lower_body(&bs[k].1, scope);
        let ghost r0 = r@;
        r.push((cond, body));
        assert(r@.drop_last() =~= r0);
        k = k + 1;
    }
    assert(bs@.take(bs@.len() as int) =~= bs@);
    r
}

fn lower_cases(cs: &Vec<CaseClause>, scope: &Scope) -> (r: Vec<LoweredCaseClause>)
    ensures
        cases_lower(cs@, r@, *scope),
    decreases cs, 0int,
{
    let mut r: Vec<LoweredCaseClause> = Vec::new();
    let mut k: usize = 0;
    while k < cs.len()
        invariant
            k <= cs@.len(),
            cases_lower(cs@.take(k as int), r@, *scope),
        decreases cs@.len() - k,
    {
        assert(cs@.take(k + 1).drop_last() =~= cs@.take(k as int));
        let patterns = lower_words_from(&cs[k].patterns, 0, scope);
        proof {
            assert(cs@[k as int].patterns@.skip(0) =~= cs@[k as int].patterns@);
        }
        let body = lower_body(&cs[k].body, scope);
        let ghost r0 = r@;
        r.push(LoweredCaseClause { patterns, body });
        assert(r@.drop_last() =~= r0);
        k = k + 1;
    }
    assert(cs@.take(cs@.len() as int) =~= cs@);
    r
}

/// Lowers a pipeline stage by stage (see `pipeline_lower`).
pub fn lower_pipeline(p: &Pipeline, scope: &Scope) -> (r: LoweredPipeline)
    ensures
        pipeline_lower(*p, r, *scope),
    decreases p, 0int,
{
    let elements = lower_elements_upto(&p.elements, p.elements.len(), scope);
    let pipe_operators = lower_ops_upto(&p.pipe_operators, p.pipe_operators.len());
    proof {
        assert(p.elements@.take(p.elements@.len() as int) =~= p.elements@);
        assert(p.pipe_operators@.take(p.pipe_operators@.len() as int) =~= p.pipe_operators@);
    }
    LoweredPipeline {
        negate: p.negate,
        elements,
        pipe_operators,
        combinator: p.combinator,
        background: p.background,
    }
}

fn lower_elements_upto(es: &Vec<PipelineElement>, end: usize, scope: &Scope) -> (r: Vec<
    LoweredPipelineElement,
>)
    requires
        end <= es@.len(),
    ensures
        elements_lower(es@.take(end as int), r@, *scope),
    decreases es, 0int,
{
    let mut r: Vec<LoweredPipelineElement> = Vec::new();
    let mut k: usize = 0;
    while k < end
        invariant
            k <= end <= es@.len(),
            elements_lower(es@.take(k as int), r@, *scope),
        decreases end - k,
    {
        assert(es@.take(k + 1).drop_last() =~= es@.take(k as int));
        let l = match &es[k] {
            PipelineElement::Command(c) => LoweredPipelineElement::Command(lower_command(c, scope)),
            PipelineElement::Block(s) => LoweredPipelineElement::Block(lower_stmt(s, scope)),
        };
        let ghost r0 = r@;
        r.push(l);
        assert(r@.drop_last() =~= r0);
        k = k + 1;
    }
    r
}

fn lower_ops_upto(ops: &Vec<PipeOperator>, end: usize) -> (r: Vec<PipeKind>)
    requires
        end <= ops@.len(),
    ensures
        ops_lower(ops@.take(end as int), r@),
{
    let mut r: Vec<PipeKind> = Vec::new();
    let mut k: usize = 0;
    while k < end
        invariant
            k <= end <= ops@.len(),
            ops_lower(ops@.take(k as int), r@),
        decreases end - k,
    {
        let l = match ops[k] {
            PipeOperator::Stdout => PipeKind::Stdout,
            PipeOperator::StdoutAndStderr => PipeKind::StdoutAndStderr,
            PipeOperator::Fd(n) => PipeKind::Fd(n),
        };
        r.push(l);
        k = k + 1;
    }
    r
}

/// Lowers a command: through its builtin form when it has one (see
/// `lower_builtin`), otherwise part by part (see `command_lower`).
pub fn lower_command(c: &Command, scope: &Scope) -> (r: LoweredCommand)
    ensures
        command_lower(*c, r, *scope),
    decreases c, 2int,
{
    match lower_builtin(c, scope) {
        Some(l) => l,
        None => {
            let assignments = lower_assignments(&c.assignments, scope);
            let args = lower_words_from(&c.args, 0, scope);
            proof {
                assert(c.args@.skip(0) =~= c.args@);
            }
            let redirections = lower_redirections(&c.redirections, scope);
            LoweredCommand { assignments, args, redirections }
        },
    }
}

fn lower_assignments(a: &Vec<VariableAssignment>, scope: &Scope) -> (r: Vec<LoweredAssignment>)
    ensures
        assigns_lower(a@, r@, *scope),
    decreases a, 0int,
{
    let mut r: Vec<LoweredAssignment> = Vec::new();
    let mut k: usize = 0;
    while k < a.len()
        invariant
            k <= a@.len(),
            assigns_lower(a@.take(k as int), r@, *scope),
        decreases a@.len() - k,
    {
        assert(a@.take(k + 1).drop_last() =~= a@.take(k as int));
        let value = lower_word(&a[k].value, scope);
        let ghost r0 = r@;
        r.push(LoweredAssignment { name: copy_string(&a[k].name), value });
        assert(r@.drop_last() =~= r0);
        k = k + 1;
    }
    assert(a@.take(a@.len() as int) =~= a@);
    r
}

/// Lowers the words of `ws` from position `start` on.
pub fn lower_words_from(ws: &Vec<Word>, start: usize, scope: &Scope) -> (r: Vec<LoweredWord>)
    requires
        start <= ws@.len(),
    ensures
        words_lower(ws@.skip(start as int), r@, *scope),
    decreases ws, 0int,
{
    let mut r: Vec<LoweredWord> = Vec::new();
    let mut k: usize = start;
    while k < ws.len()
        invariant
            start <= k <= ws@.len(),
            words_lower(ws@.subrange(start as int, k as int), r@, *scope),
        decreases ws@.len() - k,
    {
        assert(ws@.subrange(start as int, k + 1).drop_last() =~= ws@.subrange(
            start as int,
            k as int,
        ));
        let l = lower_word(&ws[k], scope);
        let ghost r0 = r@;
        r.push(l);
        assert(r@.drop_last() =~= r0);
        k = k + 1;
    }
    assert(ws@.subrange(start as int, ws@.len() as int) =~= ws@.skip(start as int));
    r
}

/// Lowers redirections one by one (see `redir_lower`).
pub fn lower_redirections(rs: &Vec<Redirection>, scope: &Scope) -> (r: Vec<LoweredRedirection>)
    ensures
        redirs_lower(rs@, r@, *scope),
    decreases rs, 0int,
{
    let mut r: Vec<LoweredRedirection> = Vec::new();
    let mut k: usize = 0;
    while k < rs.len()
        invariant
            k <= rs@.len(),
            redirs_lower(rs@.take(k as int), r@, *scope),
        decreases rs@.len() - k,
    {
        assert(rs@.take(k + 1).drop_last() =~= rs@.take(k as int));
        let l = lower_redirection(&rs[k], scope);
        let ghost r0 = r@;
        r.push(l);
        assert(r@.drop_last() =~= r0);
        k = k + 1;
    }
    assert(rs@.take(rs@.len() as int) =~= rs@);
    r
}

/// Lowers a redirection: same descriptor and mode, lowered target.
pub fn lower_redirection(r: &Redirection, scope: &Scope) -> (l: LoweredRedirection)
    ensures
        redir_lower(*r, l, *scope),
    decreases r, 0int,
{
    LoweredRedirection { fd: r.fd, mode: r.mode, target: lower_word(&r.target, scope) }
}

/// Lowers a word part by part (see `part_lower`).
pub fn lower_word(w: &Word, scope: &Scope) -> (r: LoweredWord)
    ensures
        word_lower(*w, r, *scope),
    decreases w, 0int,
{
    LoweredWord { parts: lower_parts(&w.parts, scope) }
}

fn lower_parts(ps: &Vec<WordPart>, scope: &Scope) -> (r: Vec<LoweredWordPart>)
    ensures
        parts_lower(ps@, r@, *scope),
    decreases ps, 0int,
{
    let mut r: Vec<LoweredWordPart> = Vec::new();
    let mut k: usize = 0;
    while k < ps.len()
        invariant
            k <= ps@.len(),
            parts_lower(ps@.take(k as int), r@, *scope),
        decreases ps@.len() - k,
    {
        assert(ps@.take(k + 1).drop_last() =~= ps@.take(k as int));
        let l = lower_word_part(&ps[k], scope);
        let ghost r0 = r@;
        r.push(l);
        assert(r@.drop_last() =~= r0);
        k = k + 1;
    }
    assert(ps@.take(ps@.len() as int) =~= ps@);
    r
}

/// Whether a command substitution is `(... | psub)` (see `is_psub`).
fn psub_pipeline<'a>(statements: &'a Vec<Statement>, slices: &Vec<Slice>) -> (r: Option<&'a Pipeline>)
    ensures
        r is Some == is_psub(statements@, slices@),
        r matches Some(p) ==> statements@[0].kind == StatementKind::Pipeline(*p),
{
    if slices.len() != 0 || statements.len() != 1 {
        return None;
    }
    match &statements[0].kind {
        StatementKind::Pipeline(p) => {
            let n = p.elements.len();
            if n < 2 {
                return None;
            }
            match &p.elements[n - 1] {
                PipelineElement::Command(c) => {
                    if c.args.len() == 0 {
                        return None;
                    }
                    match c.args[0].as_single_literal() {
                        Some(t) => if str_eq(t, "psub") {
                            Some(p)
                        } else {
                            None
                        },
                        None => None,
                    }
                },
                PipelineElement::Block(_) => None,
            }
        },
        _ => None,
    }
}

/// Lowers a word part (see `part_lower`).
pub fn lower_word_part(part: &WordPart, scope: &Scope) -> (r: LoweredWordPart)
    ensures
        part_lower(*part, r, *scope),
    decreases part, 0int,
{
    match part {
        WordPart::Literal(s) => LoweredWordPart::Literal(copy_string(s)),
        WordPart::SingleQuoted(s) => LoweredWordPart::SingleQuoted(copy_string(s)),
        WordPart::DoubleQuoted(ps) => LoweredWordPart::DoubleQuoted(lower_parts(ps, scope)),
        WordPart::Variable(v) => LoweredWordPart::Variable(lower_variable_ref(v)),
        WordPart::CommandSubst { statements, slices } => {
            match psub_pipeline(statements, slices) {
                Some(p) => {
                    let n = p.elements.len();
                    let elements = lower_elements_upto(&p.elements, n - 1, scope);
                    let m = if p.pipe_operators.len() > 0 {
                        p.pipe_operators.len() - 1
                    } else {
                        0
                    };
                    let pipe_operators = lower_ops_upto(&p.pipe_operators, m);
                    proof {
                        assert(p.elements@.take(n - 1) =~= p.elements@.drop_last());
                        if p.pipe_operators@.len() > 0 {
                            assert(p.pipe_operators@.take(m as int)
                                =~= p.pipe_operators@.drop_last());
                        } else {
                            assert(p.pipe_operators@.take(0) =~= p.pipe_operators@);
                        }
                    }
                    LoweredWordPart::ProcessSubst(
                        LoweredPipeline {
                            negate: p.negate,
                            elements,
                            pipe_operators,
                            combinator: p.combinator,
                            background: p.background,
                        },
                    )
                },
                None => {
                    let stmts = lower_body(statements, scope);
                    LoweredWordPart::CommandSubst {
                        stmts,
                        slices: copy_slices(slices),
                        quoted: !scope.in_for_values,
                    }
                },
            }
        },
        WordPart::BraceExpansion(ws) => {
            let lws = lower_words_from(ws, 0, scope);
            proof {
                assert(ws@.skip(0) =~= ws@);
            }
            LoweredWordPart::BraceExpansion(lws)
        },
    }
}

/// The innermost name of a chain of indirect references.
fn innermost(v: &VariableRef) -> (r: &str)
    ensures
        r@ == innermost_name(*v),
    decreases v,
{
    match &v.target {
        VariableTarget::Named(n) => n.as_str(),
        VariableTarget::Indirect(b) => innermost(b),
    }
}

fn index_name(v: &VariableRef) -> (r: String)
    ensures
        r@ == index_var_name(*v),
{
    match v.name() {
        Some(t) => to_owned_string(t),
        None => String::new(),
    }
}

fn zero_based_exec(n: usize) -> (r: usize)
    ensures
        r == zero_based(n),
{
    if n > 0 {
        n - 1
    } else {
        0
    }
}

fn span_len_exec(s: usize, e: usize) -> (r: usize)
    requires
        e >= s,
    ensures
        r == span_len(s, e),
{
    if e - s < usize::MAX {
        e - s + 1
    } else {
        usize::MAX
    }
}

/// The positional-parameter form of a single `$argv` slice, if it has one.
fn lower_argv_slice(s: &Slice) -> (r: Option<LoweredVariableRef>)
    ensures
        r is Some == argv_special(*s),
        r matches Some(l) ==> argv_lowers(*s, l),
{
    match s {
        Slice::Index(SliceIndex::Pos(i)) => Some(LoweredVariableRef::ArgvIndex(*i)),
        Slice::Index(SliceIndex::Neg(k)) => if *k == 1 {
            Some(LoweredVariableRef::ArgvLast)
        } else {
            None
        },
        Slice::Index(SliceIndex::Variable(vr)) => Some(LoweredVariableRef::ArgvDynamic(index_name(vr))),
        Slice::Range { start: Some(SliceIndex::Pos(a)), end: None } => Some(
            LoweredVariableRef::ArgvSlice { start: *a, len: None },
        ),
        Slice::Range { start: Some(SliceIndex::Pos(a)), end: Some(SliceIndex::Neg(k)) } => if *k
            == 1 {
            Some(LoweredVariableRef::ArgvSlice { start: *a, len: None })
        } else {
            None
        },
        Slice::Range { start: Some(SliceIndex::Pos(a)), end: Some(SliceIndex::Pos(b)) } => if *b
            >= *a {
            Some(LoweredVariableRef::ArgvSlice { start: *a, len: Some(span_len_exec(*a, *b)) })
        } else {
            None
        },
        Slice::Range {
            start: Some(SliceIndex::Variable(a)),
            end: Some(SliceIndex::Variable(b)),
        } => Some(LoweredVariableRef::ArgvDynamicRange { start: index_name(a), end: index_name(b) }),
        _ => None,
    }
}

/// The Bash subscript for the slices of an ordinary variable.
fn lower_subscript(slices: &Vec<Slice>) -> (r: Option<BashSubscript>)
    ensures
        subscript_lowers(slices@, r),
{
    if slices.len() == 0 {
        return None;
    }
    if slices.len() > 1 {
        return Some(BashSubscript::All);
    }
    let sub = match &slices[0] {
        Slice::Index(SliceIndex::Pos(n)) => BashSubscript::ZeroBasedIndex(zero_based_exec(*n)),
        Slice::Index(SliceIndex::Neg(k)) => BashSubscript::NegativeOffsetFromLength(*k),
        Slice::Index(SliceIndex::Variable(vr)) => BashSubscript::DynamicVariable(index_name(vr)),
        Slice::Range { start: Some(SliceIndex::Pos(a)), end: Some(SliceIndex::Pos(b)) } => if *b
            >= *a {
            BashSubscript::Range { offset: zero_based_exec(*a), length: span_len_exec(*a, *b) }
        } else {
            BashSubscript::All
        },
        Slice::Range { start: Some(SliceIndex::Pos(a)), end: None } => BashSubscript::OpenRange {
            offset: zero_based_exec(*a),
        },
        Slice::Range {
            start: Some(SliceIndex::Variable(a)),
            end: Some(SliceIndex::Variable(b)),
        } => BashSubscript::DynamicRange { start: index_name(a), end: index_name(b) },
        _ => BashSubscript::All,
    };
    Some(sub)
}

/// The Bash form of a variable reference (see `varref_lowers`).
pub fn lower_variable_ref(v: &VariableRef) -> (r: LoweredVariableRef)
    ensures
        varref_lowers(*v, r),
{
    match &v.target {
        VariableTarget::Indirect(b) => LoweredVariableRef::Indirect {
            name: to_owned_string(innermost(b)),
        },
        VariableTarget::Named(n) => {
            let no_slices = v.slices.len() == 0;
            let name = n.as_str();
            if no_slices && str_eq(name, "status") {
                return LoweredVariableRef::Status;
            }
            if no_slices && str_eq(name, "pipestatus") {
                return LoweredVariableRef::Pipestatus;
            }
            if no_slices && str_eq(name, "fish_pid") {
                return LoweredVariableRef::FishPid;
            }
            if no_slices && str_eq(name, "last_pid") {
                return LoweredVariableRef::LastPid;
            }
            if str_eq(name, "argv") {
                if no_slices {
                    return LoweredVariableRef::ArgvAll;
                }
                if v.slices.len() == 1 {
                    match lower_argv_slice(&v.slices[0]) {
                        Some(l) => {
                            return l;
                        },
                        None => {},
                    }
                }
            }
            LoweredVariableRef::Custom {
                name: copy_string(n),
                subscript: lower_subscript(&v.slices),
            }
        },
    }
}

fn copy_varref(v: &VariableRef) -> (r: VariableRef)
    ensures
        varref_same(*v, r),
    decreases v,
{
    let target = match &v.target {
        VariableTarget::Named(n) => VariableTarget::Named(copy_string(n)),
        VariableTarget::Indirect(b) => VariableTarget::Indirect(Box::new(copy_varref(b))),
    };
    VariableRef { target, slices: copy_slices(&v.slices) }
}

fn copy_index(i: &SliceIndex) -> (r: SliceIndex)
    ensures
        index_same(*i, r),
    decreases i,
{
    match i {
        SliceIndex::Pos(n) => SliceIndex::Pos(*n),
        SliceIndex::Neg(n) => SliceIndex::Neg(*n),
        SliceIndex::Variable(v) => SliceIndex::Variable(copy_varref(v)),
    }
}

fn copy_opt_index(i: &Option<SliceIndex>) -> (r: Option<SliceIndex>)
    ensures
        opt_index_same(*i, r),
    decreases i,
{
    match i {
        Some(x) => Some(copy_index(x)),
        None => None,
    }
}

fn copy_slice(s: &Slice) -> (r: Slice)
    ensures
        slice_same(*s, r),
    decreases s,
{
    match s {
        Slice::Index(i) => Slice::Index(copy_index(i)),
        Slice::Range { start, end } => Slice::Range {
            start: copy_opt_index(start),
            end: copy_opt_index(end),
        },
    }
}

/// A copy of the slices (equal up to the text of the names they hold).
pub fn copy_slices(ss: &Vec<Slice>) -> (r: Vec<Slice>)
    ensures
        slices_same(ss@, r@),
    decreases ss,
{
    let mut r: Vec<Slice> = Vec::new();
    let mut k: usize = 0;
    while k < ss.len()
        invariant
            k <= ss@.len(),
            slices_same(ss@.take(k as int), r@),
        decreases ss@.len() - k,
    {
        assert(ss@.take(k + 1).drop_last() =~= ss@.take(k as int));
        let c = copy_slice(&ss[k]);
        let ghost r0 = r@;
        r.push(c);
        assert(r@.drop_last() =~= r0);
        k = k + 1;
    }
    assert(ss@.take(ss@.len() as int) =~= ss@);
    r
}


/// Lowering keeps every statement, in order, with the source lines it spans.
pub proof fn lemma_lowering_keeps_statements(
    a: Seq<Statement>,
    l: Seq<LoweredStatement>,
    scope: Scope,
)
    requires
        stmts_lower(a, l, scope),
    ensures
        l.len() == a.len(),
        forall|i: int| 0 <= i < a.len() ==> (#[trigger] l[i]).span == a[i].span,
    decreases a.len(),
{
    if a.len() > 0 {
        lemma_lowering_keeps_statements(a.drop_last(), l.drop_last(), scope);
        assert forall|i: int| 0 <= i < a.len() implies (#[trigger] l[i]).span == a[i].span by {
            if i < a.len() - 1 {
                assert(l.drop_last()[i] == l[i]);
                assert(a.drop_last()[i] == a[i]);
            } else {
                assert(stmt_lower(a.last(), l.last(), scope));
                assert(l.last().span == a.last().span);
            }
        }
    }
}

/// A word that is one plain literal lowers to the same literal.
pub proof fn lemma_lowering_keeps_literal_words(w: Word, l: LoweredWord, scope: Scope)
    requires
        word_lower(w, l, scope),
        single_literal(w) is Some,
    ensures
        lowered_literal(l) == single_literal(w),
{
    assert(w.parts@.drop_last() =~= Seq::<WordPart>::empty());
    assert(l.parts@.len() == 1);
}

/// `set` declares a function-local variable only inside a function: a
/// `Local` assignment comes only from a function body, and a `Global` one
/// is marked as declared in a function exactly when it is in one (so
/// `set -l` at the top level becomes a plain global).
pub proof fn lemma_set_scope(c: Command, scope: Scope, a: AssignmentIR)
    requires
        set_lowers(c, scope, Some(a)),
    ensures
        a is Local ==> scope.in_function,
        a matches AssignmentIR::Global { in_function, .. } ==> in_function == scope.in_function,
{
}

/// The values of a `for` loop never get quoted command substitutions; in
/// any other position a command substitution is quoted.
pub proof fn lemma_subst_quoting(p: WordPart, l: LoweredWordPart, scope: Scope)
    requires
        part_lower(p, l, scope),
        l is CommandSubst,
    ensures
        l->quoted == !scope.in_for_values,
{
}

/// `$argv[s..e]` with `s <= e` becomes the `e - s + 1` positional
/// parameters from `s` on (`${@:s:e-s+1}`): exactly the positions `s`
/// through `e`.
pub proof fn lemma_argv_range(v: VariableRef, l: LoweredVariableRef, s: usize, e: usize)
    requires
        varref_lowers(v, l),
        v.target matches VariableTarget::Named(n) && n@ == "argv"@,
        v.slices@ == seq![Slice::Range { start: Some(SliceIndex::Pos(s)), end: Some(SliceIndex::Pos(e)) }],
        s <= e,
        e - s + 1 <= usize::MAX,
    ensures
        l matches LoweredVariableRef::ArgvSlice { start, len: Some(k) } && start == s && k == e - s + 1,
{
    assert(v.slices@[0] == Slice::Range { start: Some(SliceIndex::Pos(s)), end: Some(SliceIndex::Pos(e)) });
}

/// `$argv[n]` becomes the positional parameter `n`.
pub proof fn lemma_argv_index(v: VariableRef, l: LoweredVariableRef, n: usize)
    requires
        varref_lowers(v, l),
        v.target matches VariableTarget::Named(name) && name@ == "argv"@,
        v.slices@ == seq![Slice::Index(SliceIndex::Pos(n))],
    ensures
        l == LoweredVariableRef::ArgvIndex(n),
{
    assert(v.slices@[0] == Slice::Index(SliceIndex::Pos(n)));
}

/// `$argv[s..]` and `$argv[s..-1]` become all positional parameters from
/// `s` on (`${@:s}`), and `$argv[-1]` the last one.
pub proof fn lemma_argv_from(v: VariableRef, l: LoweredVariableRef, s: usize)
    requires
        varref_lowers(v, l),
        v.target matches VariableTarget::Named(n) && n@ == "argv"@,
    ensures
        v.slices@ == seq![(Slice::Range { start: Some(SliceIndex::Pos(s)), end: None })] ==> l == (
        LoweredVariableRef::ArgvSlice { start: s, len: None }),
        v.slices@ == seq![
            (Slice::Range { start: Some(SliceIndex::Pos(s)), end: Some(SliceIndex::Neg(1)) }),
        ] ==> l == (LoweredVariableRef::ArgvSlice { start: s, len: None }),
        v.slices@ == seq![Slice::Index(SliceIndex::Neg(1))] ==> l == LoweredVariableRef::ArgvLast,
{
    if v.slices@.len() == 1 {
        let only = v.slices@[0];
        assert(v.slices@ == seq![only]);
    }
}

/// For an ordinary array `a`, `$a[-k]` becomes the element `k` from the end
/// and `$a[s..]` with `s >= 1` the elements from the 0-based offset `s - 1`.
pub proof fn lemma_array_from(v: VariableRef, l: LoweredVariableRef, s: usize, k: usize)
    requires
        varref_lowers(v, l),
        v.target matches VariableTarget::Named(n) && n@ != "argv"@,
        s >= 1,
    ensures
        v.slices@ == seq![Slice::Index(SliceIndex::Neg(k))] ==> (l matches LoweredVariableRef::Custom {
            subscript: Some(BashSubscript::NegativeOffsetFromLength(j)),
            ..
        } && j == k),
        v.slices@ == seq![Slice::Range { start: Some(SliceIndex::Pos(s)), end: None }] ==> (l matches LoweredVariableRef::Custom {
            subscript: Some(BashSubscript::OpenRange { offset }),
            ..
        } && offset == s - 1),
{
    if v.slices@ == seq![Slice::Index(SliceIndex::Neg(k))] {
        assert(v.slices@[0] == Slice::Index(SliceIndex::Neg(k)));
    }
    if v.slices@ == seq![Slice::Range { start: Some(SliceIndex::Pos(s)), end: None }] {
        assert(v.slices@[0] == Slice::Range { start: Some(SliceIndex::Pos(s)), end: None });
    }
}

/// For an ordinary array `a`, `$a[s..e]` with `1 <= s <= e` becomes the
/// Bash subscript of `e - s + 1` elements from the 0-based offset `s - 1`.
pub proof fn lemma_array_range(v: VariableRef, l: LoweredVariableRef, s: usize, e: usize)
    requires
        varref_lowers(v, l),
        v.target matches VariableTarget::Named(n) && n@ != "argv"@,
        v.slices@ == seq![Slice::Range { start: Some(SliceIndex::Pos(s)), end: Some(SliceIndex::Pos(e)) }],
        1 <= s <= e,
    ensures
        l matches LoweredVariableRef::Custom { subscript: Some(BashSubscript::Range { offset, length }), .. }
            && offset == s - 1 && length == e - s + 1,
{
    assert(v.slices@[0] == Slice::Range { start: Some(SliceIndex::Pos(s)), end: Some(SliceIndex::Pos(e)) });
}

/// For an ordinary array `a`, `$a[n]` with `n >= 1` becomes the 0-based
/// index `n - 1`.
pub proof fn lemma_array_index(v: VariableRef, l: LoweredVariableRef, n: usize)
    requires
        varref_lowers(v, l),
        v.target matches VariableTarget::Named(name) && name@ != "argv"@,
        v.slices@ == seq![Slice::Index(SliceIndex::Pos(n))],
        n >= 1,
    ensures
        l matches LoweredVariableRef::Custom { subscript: Some(BashSubscript::ZeroBasedIndex(i)), .. }
            && i == n - 1,
{
    assert(v.slices@[0] == Slice::Index(SliceIndex::Pos(n)));
}


/// Fish's special variables become Bash's special parameters: `$status`
/// is `$?`, `$pipestatus` is `PIPESTATUS`, `$fish_pid` is `$$`, `$last_pid`
/// is `$!` and `$argv` is `"$@"`; any other unsliced variable keeps its name.
pub proof fn lemma_special_variables(v: VariableRef, l: LoweredVariableRef, name: Seq<char>)
    requires
        varref_lowers(v, l),
        v.target matches VariableTarget::Named(n) && n@ == name,
        v.slices@.len() == 0,
    ensures
        name == "status"@ ==> l == LoweredVariableRef::Status,
        name == "pipestatus"@ ==> l == LoweredVariableRef::Pipestatus,
        name == "fish_pid"@ ==> l == LoweredVariableRef::FishPid,
        name == "last_pid"@ ==> l == LoweredVariableRef::LastPid,
        name == "argv"@ ==> l == LoweredVariableRef::ArgvAll,
        name != "status"@ && name != "pipestatus"@ && name != "fish_pid"@ && name != "last_pid"@
            && name != "argv"@ ==> (l matches LoweredVariableRef::Custom { name: n2, subscript: None }
            && n2@ == name),
{
    reveal_strlit("status");
    reveal_strlit("pipestatus");
    reveal_strlit("fish_pid");
    reveal_strlit("last_pid");
    reveal_strlit("argv");
    assert("pipestatus"@.len() != "status"@.len());
    assert("fish_pid"@.len() != "status"@.len() && "fish_pid"@.len() != "pipestatus"@.len());
    assert("last_pid"@.len() != "status"@.len() && "last_pid"@.len() != "pipestatus"@.len());
    assert("last_pid"@[0] != "fish_pid"@[0]);
}

} // verus!
