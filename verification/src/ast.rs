//! The syntax tree of a fish script.
//!
//! Every statement carries the source lines it spans, so that tools built on
//! the tree (such as the Bash emitter) can keep the layout of the script.

use vstd::prelude::*;
use crate::text::to_owned_string;

verus! {

/// A whole script: an optional `#!` line and its statements.
#[derive(Debug, PartialEq)]
pub struct Program {
    pub shebang: Option<String>,
    pub statements: Vec<Statement>,
}

/// The 1-based first and last source lines of a statement. Nodes built by
/// hand, without a source, use line 0.
#[derive(Debug, Clone, Copy, PartialEq, Eq, Default)]
pub struct SourceSpan {
    pub start_line: usize,
    pub end_line: usize,
}

impl SourceSpan {
    pub fn new(start_line: usize, end_line: usize) -> (r: Self)
        ensures
            r.start_line == start_line,
            r.end_line == end_line,
    {
        SourceSpan { start_line, end_line }
    }
}

/// A statement together with the lines it spans.
#[derive(Debug, PartialEq)]
pub struct Statement {
    pub kind: StatementKind,
    pub span: SourceSpan,
}

impl Statement {
    pub fn new(kind: StatementKind, span: SourceSpan) -> (r: Self)
        ensures
            r.kind == kind,
            r.span == span,
    {
        Statement { kind, span }
    }
}

#[derive(Debug, PartialEq)]
pub enum StatementKind {
    Pipeline(Pipeline),
    If(IfStatement),
    Switch(SwitchStatement),
    For(ForStatement),
    While(WhileStatement),
    Function(FunctionStatement),
    BeginBlock(BeginBlock),
    Return(Option<Word>),
    Break,
    Continue,
    Comment(String),
}

/// How the output of one pipeline element reaches the next: `|`, `&|`/`|&`,
/// or `N>|` (the given file descriptor).
#[derive(Debug, Clone, Copy, PartialEq, Eq)]
pub enum PipeOperator {
    Stdout,
    StdoutAndStderr,
    Fd(u32),
}

/// A `NAME=value` prefix that sets a variable for one command.
#[derive(Debug, PartialEq)]
pub struct VariableAssignment {
    pub name: String,
    pub value: Word,
}

/// One stage of a pipeline: a simple command or a block statement.
#[derive(Debug, PartialEq)]
pub enum PipelineElement {
    Command(Command),
    Block(Statement),
}

/// A simple command as a pipeline stage.
impl From<Command> for PipelineElement {
    fn from(cmd: Command) -> (r: Self) {
        PipelineElement::Command(cmd)
    }
}

impl vstd::std_specs::convert::FromSpecImpl<Command> for PipelineElement {
    open spec fn obeys_from_spec() -> bool {
        true
    }

    open spec fn from_spec(cmd: Command) -> Self {
        PipelineElement::Command(cmd)
    }
}

/// Stages joined by pipes; `pipe_operators[i]` joins `elements[i]` and
/// `elements[i + 1]`. `negate` is a leading `not`/`!`, `combinator` a
/// leading `and`/`or` (or `&&`/`||` joining it to the previous pipeline),
/// `background` a trailing `&`.
#[derive(Debug, PartialEq)]
pub struct Pipeline {
    pub negate: bool,
    pub elements: Vec<PipelineElement>,
    pub pipe_operators: Vec<PipeOperator>,
    pub combinator: Combinator,
    pub background: bool,
}

/// The simple commands among the stages of a pipeline, in order.
pub open spec fn commands_of(elements: Seq<PipelineElement>) -> Seq<Command>
    decreases elements.len(),
{
    if elements.len() == 0 {
        seq![]
    } else {
        let prev = commands_of(elements.drop_last());
        match elements.last() {
            PipelineElement::Command(c) => prev.push(c),
            PipelineElement::Block(_) => prev,
        }
    }
}

impl Pipeline {
    /// The simple commands of the pipeline, in order; block stages are left out.
    pub fn commands(&self) -> (r: Vec<&Command>)
        ensures
            r@.len() == commands_of(self.elements@).len(),
            forall|i: int| 0 <= i < r@.len() ==> *r@[i] == commands_of(self.elements@)[i],
    {
        let mut r: Vec<&Command> = Vec::new();
        let mut i: usize = 0;
        while i < self.elements.len()
            invariant
                i <= self.elements.len(),
                r@.len() == commands_of(self.elements@.take(i as int)).len(),
                forall|k: int|
                    0 <= k < r@.len() ==> *r@[k] == commands_of(self.elements@.take(i as int))[k],
            decreases self.elements.len() - i,
        {
            assert(self.elements@.take(i + 1).drop_last() =~= self.elements@.take(i as int));
            match &self.elements[i] {
                PipelineElement::Command(c) => {
                    r.push(c);
                },
                PipelineElement::Block(_) => {},
            }
            i = i + 1;
        }
        assert(self.elements@.take(self.elements.len() as int) =~= self.elements@);
        r
    }
}

/// How a pipeline joins the previous one: not at all (`Plain`), by
/// `and`/`&&`, or by `or`/`||`.
#[derive(Debug, Clone, Copy, PartialEq, Eq)]
pub enum Combinator {
    Plain,
    And,
    Or,
}

/// A simple command: variable overrides, arguments (the first is the
/// command name) and redirections.
#[derive(Debug, PartialEq)]
pub struct Command {
    pub assignments: Vec<VariableAssignment>,
    pub args: Vec<Word>,
    pub redirections: Vec<Redirection>,
}

/// One shell word: the concatenation of its parts.
#[derive(Debug, PartialEq)]
pub struct Word {
    pub parts: Vec<WordPart>,
}

/// The text of a word that is exactly one unquoted literal part.
pub open spec fn single_literal(w: Word) -> Option<Seq<char>> {
    if w.parts@.len() == 1 {
        match w.parts@[0] {
            WordPart::Literal(s) => Some(s@),
            _ => None,
        }
    } else {
        None
    }
}

/// A word of one literal part reads back as that literal, and only such a
/// word does.
pub proof fn lemma_single_literal_round_trip(w: Word)
    ensures
        single_literal(w) is Some <==> (w.parts@.len() == 1 && w.parts@[0] is Literal),
        w.parts@.len() == 1 && w.parts@[0] is Literal ==> single_literal(w) == Some(
            w.parts@[0]->Literal_0@,
        ),
{
}

impl Word {
    /// A word made of one unquoted literal part.
    pub fn from_literal(s: &str) -> (w: Self)
        ensures
            w.parts@.len() == 1,
            w.parts@[0] matches WordPart::Literal(t) && t@ == s@,
            single_literal(w) == Some(s@),
    {
        let mut parts = Vec::new();
        parts.push(WordPart::Literal(to_owned_string(s)));
        Word { parts }
    }

    /// The text of the word when it is exactly one unquoted literal part.
    pub fn as_single_literal(&self) -> (r: Option<&str>)
        ensures
            match r {
                Some(t) => single_literal(*self) == Some(t@),
                None => single_literal(*self) is None,
            },
    {
        if self.parts.len() == 1 {
            match &self.parts[0] {
                WordPart::Literal(s) => Some(s.as_str()),
                _ => None,
            }
        } else {
            None
        }
    }
}

#[derive(Debug, PartialEq)]
pub enum WordPart {
    Literal(String),
    SingleQuoted(String),
    DoubleQuoted(Vec<WordPart>),
    Variable(VariableRef),
    CommandSubst { statements: Vec<Statement>, slices: Vec<Slice> },
    BraceExpansion(Vec<Word>),
}

/// What a variable reference names: a variable, or (for `$$x`) the variable
/// whose name is the value of another reference.
#[derive(Debug, PartialEq)]
pub enum VariableTarget {
    Named(String),
    Indirect(Box<VariableRef>),
}

#[derive(Debug, PartialEq)]
pub struct VariableRef {
    pub target: VariableTarget,
    pub slices: Vec<Slice>,
}

/// The name of a directly named variable reference.
pub open spec fn ref_name(v: VariableRef) -> Option<Seq<char>> {
    match v.target {
        VariableTarget::Named(n) => Some(n@),
        VariableTarget::Indirect(_) => None,
    }
}

impl VariableRef {
    /// A reference to the named variable with the given slices.
    pub fn new_named(name: &str, slices: Vec<Slice>) -> (r: Self)
        ensures
            r.target matches VariableTarget::Named(n) && n@ == name@,
            r.slices == slices,
            ref_name(r) == Some(name@),
    {
        VariableRef { target: VariableTarget::Named(to_owned_string(name)), slices }
    }

    /// The variable's name, unless the reference is indirect.
    pub fn name(&self) -> (r: Option<&str>)
        ensures
            match r {
                Some(t) => ref_name(*self) == Some(t@),
                None => ref_name(*self) is None,
            },
    {
        match &self.target {
            VariableTarget::Named(name) => Some(name.as_str()),
            VariableTarget::Indirect(_) => None,
        }
    }
}

/// A `[...]` subscript: one index or a range with optional ends.
#[derive(Debug, PartialEq)]
pub enum Slice {
    Index(SliceIndex),
    Range { start: Option<SliceIndex>, end: Option<SliceIndex> },
}

/// A 1-based index: positive (`3`), from the end (`-1`), or a variable.
#[derive(Debug, PartialEq)]
pub enum SliceIndex {
    Pos(usize),
    Neg(usize),
    Variable(VariableRef),
}

#[derive(Debug, PartialEq)]
pub struct Redirection {
    pub fd: Option<u32>,
    pub mode: RedirectMode,
    pub target: Word,
}

/// `>`, `>>`, `<`, `&>`/`^`, `&>>`/`^^`, `>&`, `<&`, `<?`, `>?`, `>>?`,
/// `&>?`, `&>>?`.
#[derive(Debug, Clone, Copy, PartialEq, Eq)]
pub enum RedirectMode {
    Output,
    Append,
    Input,
    OutputAndErr,
    AppendAndErr,
    DupOutput,
    DupInput,
    SafeInput,
    NoClobberOutput,
    NoClobberAppend,
    NoClobberOutputAndErr,
    NoClobberAppendAndErr,
}

#[derive(Debug, PartialEq)]
pub struct IfStatement {
    pub condition: Vec<Pipeline>,
    pub then_body: Vec<Statement>,
    pub elif_branches: Vec<(Vec<Pipeline>, Vec<Statement>)>,
    pub else_body: Option<Vec<Statement>>,
    pub redirections: Vec<Redirection>,
}

#[derive(Debug, PartialEq)]
pub struct SwitchStatement {
    pub value: Word,
    pub cases: Vec<CaseClause>,
    pub redirections: Vec<Redirection>,
}

#[derive(Debug, PartialEq)]
pub struct CaseClause {
    pub patterns: Vec<Word>,
    pub body: Vec<Statement>,
}

#[derive(Debug, PartialEq)]
pub struct ForStatement {
    pub variable: String,
    pub values: Vec<Word>,
    pub body: Vec<Statement>,
    pub redirections: Vec<Redirection>,
}

#[derive(Debug, PartialEq)]
pub struct WhileStatement {
    pub condition: Vec<Pipeline>,
    pub body: Vec<Statement>,
    pub redirections: Vec<Redirection>,
}

/// `function NAME OPTIONS...; BODY; end`; the options are kept as written.
#[derive(Debug, PartialEq)]
pub struct FunctionStatement {
    pub name: Word,
    pub options: Vec<Word>,
    pub body: Vec<Statement>,
}

/// `begin ... end` or `{ ... }`, possibly joined to the previous pipeline
/// by `and`/`or`.
#[derive(Debug, PartialEq)]
pub struct BeginBlock {
    pub combinator: Combinator,
    pub body: Vec<Statement>,
    pub redirections: Vec<Redirection>,
}

} // verus!
