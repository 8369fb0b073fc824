//! The intermediate representation between the fish syntax tree and Bash
//! text: fish constructs already specialised into their Bash counterparts
//! (assignments, positional parameters, array subscripts, process
//! substitution), still structured, with source spans kept.

use vstd::prelude::*;
use crate::ast::{Combinator, RedirectMode, Slice, SourceSpan};
use crate::text::to_owned_string;

verus! {

#[derive(Debug, PartialEq)]
pub struct LoweredProgram {
    pub shebang: Option<String>,
    pub statements: Vec<LoweredStatement>,
}

#[derive(Debug, PartialEq)]
pub struct LoweredStatement {
    pub kind: LoweredStatementKind,
    pub span: SourceSpan,
}

#[derive(Debug, PartialEq)]
pub enum LoweredStatementKind {
    Pipeline(LoweredPipeline),
    Assignment(AssignmentIR),
    If(LoweredIf),
    Switch(LoweredSwitch),
    For(LoweredFor),
    While(LoweredWhile),
    Function(LoweredFunction),
    BeginBlock(LoweredBeginBlock),
    Return(Option<LoweredWord>),
    Break,
    Continue,
    Comment(String),
}

/// A `set` command specialised into a Bash assignment.
#[derive(Debug, PartialEq)]
pub enum AssignmentIR {
    Local { name: String, values: Vec<LoweredWord> },
    Export { name: String, values: Vec<LoweredWord> },
    Global { name: String, values: Vec<LoweredWord>, in_function: bool },
    Append { name: String, values: Vec<LoweredWord> },
    Prepend { name: String, values: Vec<LoweredWord> },
    Erase { name: String },
    ArgvLast { value: LoweredWord },
    SliceAssign { name: String, index: SliceIndexIR, value: LoweredWord },
    SliceErase { name: String, index: SliceIndexIR },
}

/// A Bash array index: 0-based, counted from the end (`k` for `-k`), or
/// computed from a variable holding a 1-based fish index.
#[derive(Debug, PartialEq)]
pub enum SliceIndexIR {
    ZeroBased(usize),
    NegativeOffset(usize),
    Dynamic(String),
}

/// The pipe joining two stages: `|`, `|&`, or one carrying file descriptor `N`.
#[derive(Debug, Clone, Copy, PartialEq, Eq)]
pub enum PipeKind {
    Stdout,
    StdoutAndStderr,
    Fd(u32),
}

#[derive(Debug, PartialEq)]
pub struct LoweredPipeline {
    pub negate: bool,
    pub elements: Vec<LoweredPipelineElement>,
    pub pipe_operators: Vec<PipeKind>,
    pub combinator: Combinator,
    pub background: bool,
}

#[derive(Debug, PartialEq)]
pub enum LoweredPipelineElement {
    Command(LoweredCommand),
    Block(LoweredStatement),
}

/// The simple commands among the stages of a lowered pipeline, in order.
pub open spec fn lowered_commands_of(elements: Seq<LoweredPipelineElement>) -> Seq<LoweredCommand>
    decreases elements.len(),
{
    if elements.len() == 0 {
        seq![]
    } else {
        let prev = lowered_commands_of(elements.drop_last());
        match elements.last() {
            LoweredPipelineElement::Command(c) => prev.push(c),
            LoweredPipelineElement::Block(_) => prev,
        }
    }
}

impl LoweredPipeline {
    /// The simple commands of the pipeline, in order; block stages are left out.
    pub fn commands(&self) -> (r: Vec<&LoweredCommand>)
        ensures
            r@.len() == lowered_commands_of(self.elements@).len(),
            forall|i: int| 0 <= i < r@.len() ==> *r@[i] == lowered_commands_of(self.elements@)[i],
    {
        let mut r: Vec<&LoweredCommand> = Vec::new();
        let mut i: usize = 0;
        while i < self.elements.len()
            invariant
                i <= self.elements.len(),
                r@.len() == lowered_commands_of(self.elements@.take(i as int)).len(),
                forall|k: int|
                    0 <= k < r@.len() ==> *r@[k] == lowered_commands_of(
                        self.elements@.take(i as int),
                    )[k],
            decreases self.elements.len() - i,
        {
            assert(self.elements@.take(i + 1).drop_last() =~= self.elements@.take(i as int));
            match &self.elements[i] {
                LoweredPipelineElement::Command(c) => {
                    r.push(c);
                },
                LoweredPipelineElement::Block(_) => {},
            }
            i = i + 1;
        }
        assert(self.elements@.take(self.elements.len() as int) =~= self.elements@);
        r
    }
}

/// A `NAME=value` prefix of a command.
#[derive(Debug, PartialEq)]
pub struct LoweredAssignment {
    pub name: String,
    pub value: LoweredWord,
}

#[derive(Debug, PartialEq)]
pub struct LoweredCommand {
    pub assignments: Vec<LoweredAssignment>,
    pub args: Vec<LoweredWord>,
    pub redirections: Vec<LoweredRedirection>,
}

#[derive(Debug, PartialEq)]
pub struct LoweredWord {
    pub parts: Vec<LoweredWordPart>,
}

/// The text of a lowered word that is exactly one unquoted literal part.
pub open spec fn lowered_literal(w: LoweredWord) -> Option<Seq<char>> {
    if w.parts@.len() == 1 {
        match w.parts@[0] {
            LoweredWordPart::Literal(s) => Some(s@),
            _ => None,
        }
    } else {
        None
    }
}

impl LoweredWord {
    /// A word made of one unquoted literal part.
    pub fn from_literal(s: &str) -> (w: Self)
        ensures
            w.parts@.len() == 1,
            w.parts@[0] matches LoweredWordPart::Literal(t) && t@ == s@,
            lowered_literal(w) == Some(s@),
    {
        let mut parts = Vec::new();
        parts.push(LoweredWordPart::Literal(to_owned_string(s)));
        LoweredWord { parts }
    }

    /// A word made of one unquoted literal part holding `s`.
    pub fn from_string(s: String) -> (w: Self)
        ensures
            w.parts@.len() == 1,
            w.parts@[0] == LoweredWordPart::Literal(s),
            lowered_literal(w) == Some(s@),
    {
        let mut parts = Vec::new();
        parts.push(LoweredWordPart::Literal(s));
        LoweredWord { parts }
    }

    /// The text of the word when it is exactly one unquoted literal part.
    pub fn as_literal(&self) -> (r: Option<&str>)
        ensures
            match r {
                Some(t) => lowered_literal(*self) == Some(t@),
                None => lowered_literal(*self) is None,
            },
    {
        if self.parts.len() == 1 {
            match &self.parts[0] {
                LoweredWordPart::Literal(s) => Some(s.as_str()),
                _ => None,
            }
        } else {
            None
        }
    }
}

#[derive(Debug, PartialEq)]
pub enum LoweredWordPart {
    Literal(String),
    SingleQuoted(String),
    DoubleQuoted(Vec<LoweredWordPart>),
    Variable(LoweredVariableRef),
    CommandSubst { stmts: Vec<LoweredStatement>, slices: Vec<Slice>, quoted: bool },
    ProcessSubst(LoweredPipeline),
    BraceExpansion(Vec<LoweredWord>),
}

/// A variable reference in its Bash form.
#[derive(Debug, PartialEq)]
pub enum LoweredVariableRef {
    /// `$status` -> `$?`
    Status,
    /// `$pipestatus` -> `${PIPESTATUS[@]}`
    Pipestatus,
    /// `$fish_pid` -> `$$`
    FishPid,
    /// `$last_pid` -> `$!`
    LastPid,
    /// `$argv` -> `"$@"`
    ArgvAll,
    /// `$argv[n]` -> `$n`
    ArgvIndex(usize),
    /// `$argv[a..b]` -> `${@:a:len}`, `$argv[a..]` -> `${@:a}`
    ArgvSlice { start: usize, len: Option<usize> },
    /// `$argv[-1]` -> `${@: -1:1}`
    ArgvLast,
    /// `$argv[$i]` -> `${@:$i:1}`
    ArgvDynamic(String),
    /// `$argv[$a..$b]` -> `${@:$a:$((b - a + 1))}`
    ArgvDynamicRange { start: String, end: String },
    /// `$$var` -> `${!var}`
    Indirect { name: String },
    /// Any other variable, with its Bash subscript.
    Custom { name: String, subscript: Option<BashSubscript> },
}

/// A Bash array subscript.
#[derive(Debug, PartialEq)]
pub enum BashSubscript {
    ZeroBasedIndex(usize),
    NegativeOffsetFromLength(usize),
    Range { offset: usize, length: usize },
    OpenRange { offset: usize },
    DynamicVariable(String),
    DynamicRange { start: String, end: String },
    All,
}

#[derive(Debug, PartialEq)]
pub struct LoweredRedirection {
    pub fd: Option<u32>,
    pub mode: RedirectMode,
    pub target: LoweredWord,
}

#[derive(Debug, PartialEq)]
pub struct LoweredIf {
    pub condition: Vec<LoweredPipeline>,
    pub then_body: Vec<LoweredStatement>,
    pub elif_branches: Vec<(Vec<LoweredPipeline>, Vec<LoweredStatement>)>,
    pub else_body: Option<Vec<LoweredStatement>>,
    pub redirections: Vec<LoweredRedirection>,
}

#[derive(Debug, PartialEq)]
pub struct LoweredSwitch {
    pub value: LoweredWord,
    pub cases: Vec<LoweredCaseClause>,
    pub redirections: Vec<LoweredRedirection>,
}

#[derive(Debug, PartialEq)]
pub struct LoweredCaseClause {
    pub patterns: Vec<LoweredWord>,
    pub body: Vec<LoweredStatement>,
}

#[derive(Debug, PartialEq)]
pub struct LoweredFor {
    pub variable: String,
    pub values: Vec<LoweredWord>,
    pub body: Vec<LoweredStatement>,
    pub redirections: Vec<LoweredRedirection>,
}

#[derive(Debug, PartialEq)]
pub struct LoweredWhile {
    pub condition: Vec<LoweredPipeline>,
    pub body: Vec<LoweredStatement>,
    pub redirections: Vec<LoweredRedirection>,
}

#[derive(Debug, PartialEq)]
pub struct LoweredFunction {
    pub name: String,
    pub named_args: Vec<String>,
    pub description: Option<String>,
    pub body: Vec<LoweredStatement>,
}

#[derive(Debug, PartialEq)]
pub struct LoweredBeginBlock {
    pub combinator: Combinator,
    pub body: Vec<LoweredStatement>,
    pub redirections: Vec<LoweredRedirection>,
}

} // verus!
