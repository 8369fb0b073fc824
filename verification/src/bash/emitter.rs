//! Rendering of the lowered representation as Bash text.
//!
//! Each `*_text` spec function states the exact text of one construct; the
//! executable `emit_*` functions append exactly that text.

use vstd::prelude::*;
use crate::ast::{Combinator, RedirectMode};
use crate::bash::ir::{
    AssignmentIR, BashSubscript, LoweredAssignment, LoweredBeginBlock, LoweredCaseClause,
    LoweredCommand, LoweredFor, LoweredFunction, LoweredIf, LoweredPipeline,
    LoweredPipelineElement, LoweredProgram, LoweredRedirection, LoweredStatement,
    LoweredStatementKind, LoweredSwitch, LoweredVariableRef, LoweredWhile, LoweredWord,
    LoweredWordPart, PipeKind, SliceIndexIR, lowered_literal,
};
use crate::text::{
    chars_of, decimal, push_char, push_decimal, trim_end, trim_end_spec, to_owned_string,
};

verus! {

/// `i + 1`, saturating at `usize::MAX`.
pub open spec fn sat_inc(i: usize) -> usize {
    if i < usize::MAX {
        (i + 1) as usize
    } else {
        i
    }
}

fn inc(i: usize) -> (r: usize)
    ensures
        r == sat_inc(i),
{
    if i < usize::MAX {
        i + 1
    } else {
        i
    }
}

/// Two spaces per indentation level.
pub open spec fn pad_text(indent: usize) -> Seq<char>
    decreases indent,
{
    if indent == 0 {
        seq![]
    } else {
        pad_text((indent - 1) as usize) + "  "@
    }
}

/// Whether `c` must be backslash-escaped inside Bash double quotes.
pub open spec fn dq_special(c: char) -> bool {
    c == '"' || c == '$' || c == '\\' || c == '`'
}

/// `s` escaped for use inside Bash double quotes.
pub open spec fn dq_escape(s: Seq<char>) -> Seq<char>
    decreases s.len(),
{
    if s.len() == 0 {
        seq![]
    } else if dq_special(s.last()) {
        dq_escape(s.drop_last()) + seq!['\\', s.last()]
    } else {
        dq_escape(s.drop_last()).push(s.last())
    }
}

/// `s` escaped for use inside Bash single quotes (`'` becomes `'\''`).
pub open spec fn sq_escape(s: Seq<char>) -> Seq<char>
    decreases s.len(),
{
    if s.len() == 0 {
        seq![]
    } else if s.last() == '\'' {
        sq_escape(s.drop_last()) + seq!['\'', '\\', '\'', '\'']
    } else {
        sq_escape(s.drop_last()).push(s.last())
    }
}

pub open spec fn comb_text(c: Combinator) -> Seq<char> {
    match c {
        Combinator::And => "&& "@,
        Combinator::Or => "|| "@,
        Combinator::Plain => seq![],
    }
}

/// The Bash operator for each redirection mode (noclobber modes render as
/// their plain counterparts).
pub open spec fn mode_text(m: RedirectMode) -> Seq<char> {
    match m {
        RedirectMode::Output => ">"@,
        RedirectMode::Append => ">>"@,
        RedirectMode::Input => "<"@,
        RedirectMode::OutputAndErr => "&>"@,
        RedirectMode::AppendAndErr => "&>>"@,
        RedirectMode::DupOutput => ">&"@,
        RedirectMode::DupInput => "<&"@,
        RedirectMode::SafeInput => "<"@,
        RedirectMode::NoClobberOutput => ">"@,
        RedirectMode::NoClobberAppend => ">>"@,
        RedirectMode::NoClobberOutputAndErr => "&>"@,
        RedirectMode::NoClobberAppendAndErr => "&>>"@,
    }
}

pub open spec fn pipe_text(k: PipeKind) -> Seq<char> {
    match k {
        PipeKind::Stdout => " | "@,
        PipeKind::StdoutAndStderr => " |& "@,
        PipeKind::Fd(n) => " "@ + decimal(n as nat) + ">&1 | "@,
    }
}

/// The pipe between stage `k` and stage `k + 1`; a plain pipe when the
/// pipeline lists no operator for that position.
pub open spec fn pipe_sep_text(ops: Seq<PipeKind>, k: int) -> Seq<char> {
    if 0 <= k < ops.len() {
        pipe_text(ops[k])
    } else {
        " | "@
    }
}

pub open spec fn custom_text(name: Seq<char>, sub: Option<BashSubscript>) -> Seq<char> {
    match sub {
        None => "$"@ + name,
        Some(BashSubscript::All) => "${"@ + name + "[@]}"@,
        Some(BashSubscript::ZeroBasedIndex(i)) => "${"@ + name + "["@ + decimal(i as nat) + "]}"@,
        Some(BashSubscript::NegativeOffsetFromLength(k)) => "${"@ + name + "[-"@ + decimal(k as nat)
            + "]}"@,
        Some(BashSubscript::Range { offset, length }) => "${"@ + name + "[@]:"@ + decimal(
            offset as nat,
        ) + ":"@ + decimal(length as nat) + "}"@,
        Some(BashSubscript::OpenRange { offset }) => "${"@ + name + "[@]:"@ + decimal(offset as nat)
            + "}"@,
        Some(BashSubscript::DynamicVariable(v)) => "${"@ + name + "["@ + v@ + "-1]}"@,
        Some(BashSubscript::DynamicRange { start, end }) => "${"@ + name + "[@]:$(("@ + start@
            + " - 1)):$(("@ + end@ + " - "@ + start@ + " + 1))}"@,
    }
}

/// A variable reference as it reads inside double quotes.
pub open spec fn var_inner_text(v: LoweredVariableRef) -> Seq<char> {
    match v {
        LoweredVariableRef::Status => "$?"@,
        LoweredVariableRef::Pipestatus => "${PIPESTATUS[@]}"@,
        LoweredVariableRef::FishPid => "$$"@,
        LoweredVariableRef::LastPid => "$!"@,
        LoweredVariableRef::ArgvAll => "$@"@,
        LoweredVariableRef::ArgvIndex(n) => "$"@ + decimal(n as nat),
        LoweredVariableRef::ArgvSlice { start, len } => match len {
            Some(l) => "${@:"@ + decimal(start as nat) + ":"@ + decimal(l as nat) + "}"@,
            None => "${@:"@ + decimal(start as nat) + "}"@,
        },
        LoweredVariableRef::ArgvLast => "${@: -1:1}"@,
        LoweredVariableRef::ArgvDynamic(x) => "${@:$"@ + x@ + ":1}"@,
        LoweredVariableRef::ArgvDynamicRange { start, end } => "${@:$"@ + start@ + ":$(("@ + end@
            + " - "@ + start@ + " + 1))}"@,
        LoweredVariableRef::Indirect { name } => "${!"@ + name@ + "}"@,
        LoweredVariableRef::Custom { name, subscript } => custom_text(name@, subscript),
    }
}

/// A variable reference in unquoted position: double-quoted, except `$?`.
pub open spec fn var_text(v: LoweredVariableRef) -> Seq<char> {
    match v {
        LoweredVariableRef::Status => "$?"@,
        _ => "\""@ + var_inner_text(v) + "\""@,
    }
}

pub open spec fn index_text(i: SliceIndexIR) -> Seq<char> {
    match i {
        SliceIndexIR::ZeroBased(n) => decimal(n as nat),
        SliceIndexIR::NegativeOffset(k) => "-"@ + decimal(k as nat),
        SliceIndexIR::Dynamic(v) => v@ + "-1"@,
    }
}

pub open spec fn fd_text(fd: Option<u32>) -> Seq<char> {
    match fd {
        Some(n) => decimal(n as nat),
        None => seq![],
    }
}

/// Whether a statement list holds anything besides comments.
pub open spec fn has_exec(stmts: Seq<LoweredStatement>) -> bool {
    exists|i: int| 0 <= i < stmts.len() && !((#[trigger] stmts[i]).kind is Comment)
}

/// The last non-zero end line among the statements (0 when there is none).
pub open spec fn last_end(stmts: Seq<LoweredStatement>) -> nat
    decreases stmts.len(),
{
    if stmts.len() == 0 {
        0
    } else if stmts.last().span.end_line > 0 {
        stmts.last().span.end_line as nat
    } else {
        last_end(stmts.drop_last())
    }
}

/// A pipeline or block joined to the previous statement by `and`/`or`.
pub open spec fn is_continuation(s: LoweredStatement) -> bool {
    match s.kind {
        LoweredStatementKind::Pipeline(p) => p.combinator != Combinator::Plain,
        LoweredStatementKind::BeginBlock(b) => b.combinator != Combinator::Plain,
        _ => false,
    }
}

/// Whether a blank line separates `s` from the statements before it: its
/// first line lies more than one line after the last end line seen.
pub open spec fn blank_before(prefix: Seq<LoweredStatement>, s: LoweredStatement) -> bool {
    last_end(prefix) > 0 && s.span.start_line > last_end(prefix) + 1
}

/// What goes between the statements `prefix` and the next statement `s`.
pub open spec fn separator_text(prefix: Seq<LoweredStatement>, s: LoweredStatement, indent: usize) -> Seq<
    char,
> {
    if prefix.len() == 0 {
        pad_text(indent)
    } else if is_continuation(s) {
        " "@
    } else if blank_before(prefix, s) {
        "\n\n"@ + pad_text(indent)
    } else {
        "\n"@ + pad_text(indent)
    }
}

pub open spec fn nl_text(stmts: Seq<LoweredStatement>) -> Seq<char> {
    if stmts.len() > 0 {
        "\n"@
    } else {
        seq![]
    }
}

/// A `:` line for a body with nothing to run, which Bash would reject.
pub open spec fn filler_text(stmts: Seq<LoweredStatement>, indent: usize) -> Seq<char> {
    if has_exec(stmts) {
        seq![]
    } else {
        pad_text(indent) + ":\n"@
    }
}

/// `local NAME="$N"` lines binding named function arguments.
pub open spec fn locals_text(args: Seq<String>, indent: usize) -> Seq<char>
    decreases args.len(),
{
    if args.len() == 0 {
        seq![]
    } else {
        locals_text(args.drop_last(), indent) + pad_text(indent) + "  local "@ + args.last()@
            + "=\"$"@ + decimal(args.len()) + "\"\n"@
    }
}

/// Whether `s` contains `t` as a contiguous piece.
pub open spec fn has_substring(s: Seq<char>, t: Seq<char>) -> bool {
    exists|i: int| 0 <= i && i + t.len() <= s.len() && #[trigger] s.subrange(i, i + t.len()) == t
}

pub open spec fn shebang_text(sb: Option<String>) -> Seq<char> {
    match sb {
        Some(s) => if has_substring(s@, "fish"@) {
            "#!/usr/bin/env bash\n"@
        } else {
            s@ + "\n"@
        },
        None => seq![],
    }
}

/// The statements, one per line (a statement joined by `and`/`or` stays on
/// the line of the previous one), with at most one blank line wherever the
/// source had blank lines between them. No trailing newline.
pub open spec fn lines_text(stmts: Seq<LoweredStatement>, indent: usize) -> Seq<char>
    decreases stmts,
{
    if stmts.len() == 0 {
        seq![]
    } else {
        lines_text(stmts.drop_last(), indent) + separator_text(stmts.drop_last(), stmts.last(), indent)
            + statement_text(stmts.last(), indent)
    }
}

/// One statement, without leading indentation or trailing newline; nested
/// lines are indented relative to `indent`.
pub open spec fn statement_text(s: LoweredStatement, indent: usize) -> Seq<char>
    decreases s,
{
    match s.kind {
        LoweredStatementKind::Comment(c) => "#"@ + c@,
        LoweredStatementKind::Return(w) => match w {
            Some(w) => "return "@ + word_text(w),
            None => "return"@,
        },
        LoweredStatementKind::Break => "break"@,
        LoweredStatementKind::Continue => "continue"@,
        LoweredStatementKind::Assignment(a) => assign_text(a),
        LoweredStatementKind::Pipeline(p) => pipeline_text(p, indent),
        LoweredStatementKind::If(i) => if_text(i, indent),
        LoweredStatementKind::Switch(sw) => switch_text(sw, indent),
        LoweredStatementKind::For(f) => for_text(f, indent),
        LoweredStatementKind::While(w) => while_text(w, indent),
        LoweredStatementKind::Function(f) => function_text(f, indent),
        LoweredStatementKind::BeginBlock(b) => begin_text(b, indent),
    }
}

/// A block body: its statements, one per line, or `:` when nothing in it
/// runs.
pub open spec fn body_text(stmts: Vec<LoweredStatement>, indent: usize) -> Seq<char>
    decreases stmts,
{
    lines_text(stmts@, indent) + nl_text(stmts@) + filler_text(stmts@, indent)
}

pub open spec fn else_text(e: Option<Vec<LoweredStatement>>, indent: usize) -> Seq<char>
    decreases e,
{
    match e {
        Some(b) => pad_text(indent) + "else\n"@ + body_text(b, sat_inc(indent)),
        None => seq![],
    }
}

pub open spec fn if_text(i: LoweredIf, indent: usize) -> Seq<char>
    decreases i,
{
    "if "@ + chain_text(i.condition@, indent) + "; then\n"@ + body_text(i.then_body, sat_inc(indent))
        + elifs_text(i.elif_branches@, indent) + else_text(i.else_body, indent) + pad_text(indent)
        + "fi"@ + redirs_text(i.redirections@)
}

pub open spec fn elifs_text(bs: Seq<(Vec<LoweredPipeline>, Vec<LoweredStatement>)>, indent: usize) -> Seq<
    char,
>
    decreases bs,
{
    if bs.len() == 0 {
        seq![]
    } else {
        elifs_text(bs.drop_last(), indent) + pad_text(indent) + "elif "@ + chain_text(
            bs.last().0@,
            indent,
        ) + "; then\n"@ + body_text(bs.last().1, sat_inc(indent))
    }
}

pub open spec fn switch_text(sw: LoweredSwitch, indent: usize) -> Seq<char>
    decreases sw,
{
    "case "@ + word_text(sw.value) + " in\n"@ + cases_text(sw.cases@, indent) + pad_text(indent)
        + "esac"@ + redirs_text(sw.redirections@)
}

pub open spec fn cases_text(cs: Seq<LoweredCaseClause>, indent: usize) -> Seq<char>
    decreases cs,
{
    if cs.len() == 0 {
        seq![]
    } else {
        let c = cs.last();
        cases_text(cs.drop_last(), indent) + pad_text(indent) + "  "@ + words_text(
            c.patterns@,
            "|"@,
        ) + ")\n"@ + lines_text(c.body@, sat_inc(sat_inc(indent))) + nl_text(c.body@) + pad_text(
            indent,
        ) + "    ;;\n"@
    }
}

pub open spec fn for_text(f: LoweredFor, indent: usize) -> Seq<char>
    decreases f,
{
    "for "@ + f.variable@ + " in "@ + words_text(f.values@, " "@) + "; do\n"@ + body_text(
        f.body,
        sat_inc(indent),
    ) + pad_text(indent) + "done"@ + redirs_text(f.redirections@)
}

pub open spec fn while_text(w: LoweredWhile, indent: usize) -> Seq<char>
    decreases w,
{
    "while "@ + chain_text(w.condition@, indent) + "; do\n"@ + body_text(w.body, sat_inc(indent))
        + pad_text(indent) + "done"@ + redirs_text(w.redirections@)
}

pub open spec fn function_text(f: LoweredFunction, indent: usize) -> Seq<char>
    decreases f,
{
    let ni = sat_inc(indent);
    f.name@ + "() {\n"@ + locals_text(f.named_args@, indent) + lines_text(f.body@, ni) + nl_text(
        f.body@,
    ) + (if f.named_args@.len() == 0 {
        filler_text(f.body@, ni)
    } else {
        seq![]
    }) + pad_text(indent) + "}"@
}

pub open spec fn begin_text(b: LoweredBeginBlock, indent: usize) -> Seq<char>
    decreases b,
{
    comb_text(b.combinator) + "{\n"@ + body_text(b.body, sat_inc(indent)) + pad_text(indent) + "}"@
        + redirs_text(b.redirections@)
}

/// Pipelines of a condition, separated by spaces (each carries its own
/// `&& `/`|| ` prefix).
pub open spec fn chain_text(ps: Seq<LoweredPipeline>, indent: usize) -> Seq<char>
    decreases ps,
{
    if ps.len() == 0 {
        seq![]
    } else {
        chain_text(ps.drop_last(), indent) + (if ps.len() > 1 {
            " "@
        } else {
            seq![]
        }) + pipeline_text(ps.last(), indent)
    }
}

pub open spec fn pipeline_text(p: LoweredPipeline, indent: usize) -> Seq<char>
    decreases p,
{
    comb_text(p.combinator) + (if p.negate {
        "! "@
    } else {
        seq![]
    }) + elements_text(p.elements@, p.pipe_operators@, indent) + (if p.background {
        " &"@
    } else {
        seq![]
    })
}

pub open spec fn elements_text(
    es: Seq<LoweredPipelineElement>,
    ops: Seq<PipeKind>,
    indent: usize,
) -> Seq<char>
    decreases es,
{
    if es.len() == 0 {
        seq![]
    } else {
        elements_text(es.drop_last(), ops, indent) + (if es.len() > 1 {
            pipe_sep_text(ops, es.len() - 2)
        } else {
            seq![]
        }) + match es.last() {
            LoweredPipelineElement::Command(c) => command_text(c),
            LoweredPipelineElement::Block(s) => statement_text(s, indent),
        }
    }
}

pub open spec fn command_text(c: LoweredCommand) -> Seq<char>
    decreases c,
{
    prefixes_text(c.assignments@) + words_text(c.args@, " "@) + redirs_text(c.redirections@)
}

pub open spec fn prefixes_text(a: Seq<LoweredAssignment>) -> Seq<char>
    decreases a,
{
    if a.len() == 0 {
        seq![]
    } else {
        prefixes_text(a.drop_last()) + a.last().name@ + "="@ + word_text(a.last().value) + " "@
    }
}

/// Words separated by `sep`.
pub open spec fn words_text(ws: Seq<LoweredWord>, sep: Seq<char>) -> Seq<char>
    decreases ws,
{
    if ws.len() == 0 {
        seq![]
    } else {
        words_text(ws.drop_last(), sep) + (if ws.len() > 1 {
            sep
        } else {
            seq![]
        }) + word_text(ws.last())
    }
}

/// Redirections, each preceded by a space.
pub open spec fn redirs_text(rs: Seq<LoweredRedirection>) -> Seq<char>
    decreases rs,
{
    if rs.len() == 0 {
        seq![]
    } else {
        redirs_text(rs.drop_last()) + " "@ + redir_text(rs.last())
    }
}

/// A redirection; `<?file` reads `file` when readable and `/dev/null`
/// otherwise.
pub open spec fn redir_text(r: LoweredRedirection) -> Seq<char>
    decreases r,
{
    fd_text(r.fd) + mode_text(r.mode) + " "@ + (if r.mode == RedirectMode::SafeInput {
        "\"$([ -r "@ + word_text(r.target) + " ] && echo "@ + word_text(r.target)
            + " || echo /dev/null)\""@
    } else {
        word_text(r.target)
    })
}

pub open spec fn word_text(w: LoweredWord) -> Seq<char>
    decreases w,
{
    parts_text(w.parts@)
}

pub open spec fn parts_text(ps: Seq<LoweredWordPart>) -> Seq<char>
    decreases ps,
{
    if ps.len() == 0 {
        seq![]
    } else {
        parts_text(ps.drop_last()) + part_text(ps.last())
    }
}

/// The text of a command substitution's statements, without trailing
/// whitespace.
pub open spec fn subst_body_text(stmts: Vec<LoweredStatement>) -> Seq<char>
    decreases stmts,
{
    trim_end_spec(lines_text(stmts@, 0) + nl_text(stmts@))
}

/// A word part in unquoted position.
pub open spec fn part_text(p: LoweredWordPart) -> Seq<char>
    decreases p,
{
    match p {
        LoweredWordPart::Literal(s) => s@,
        LoweredWordPart::SingleQuoted(s) => "'"@ + sq_escape(s@) + "'"@,
        LoweredWordPart::DoubleQuoted(ps) => "\""@ + inner_parts_text(ps@) + "\""@,
        LoweredWordPart::Variable(v) => var_text(v),
        LoweredWordPart::CommandSubst { stmts, slices, quoted } => if quoted {
            "\"$("@ + subst_body_text(stmts) + ")\""@
        } else {
            "$("@ + subst_body_text(stmts) + ")"@
        },
        LoweredWordPart::ProcessSubst(p) => "<("@ + pipeline_text(p, 0) + ")"@,
        LoweredWordPart::BraceExpansion(ws) => "{"@ + words_text(ws@, ","@) + "}"@,
    }
}

pub open spec fn inner_word_text(w: LoweredWord) -> Seq<char>
    decreases w,
{
    inner_parts_text(w.parts@)
}

pub open spec fn inner_parts_text(ps: Seq<LoweredWordPart>) -> Seq<char>
    decreases ps,
{
    if ps.len() == 0 {
        seq![]
    } else {
        inner_parts_text(ps.drop_last()) + inner_part_text(ps.last())
    }
}

/// A word part inside double quotes.
pub open spec fn inner_part_text(p: LoweredWordPart) -> Seq<char>
    decreases p,
{
    match p {
        LoweredWordPart::Literal(s) => dq_escape(s@),
        LoweredWordPart::SingleQuoted(s) => dq_escape(s@),
        LoweredWordPart::DoubleQuoted(ps) => inner_parts_text(ps@),
        LoweredWordPart::Variable(v) => var_inner_text(v),
        LoweredWordPart::CommandSubst { stmts, slices, quoted } => "$("@ + subst_body_text(stmts)
            + ")"@,
        LoweredWordPart::ProcessSubst(p) => "<("@ + pipeline_text(p, 0) + ")"@,
        LoweredWordPart::BraceExpansion(ws) => "{"@ + words_text(ws@, ","@) + "}"@,
    }
}

/// Values in double quotes, separated by spaces.
pub open spec fn quoted_values_text(vs: Seq<LoweredWord>) -> Seq<char>
    decreases vs,
{
    if vs.len() == 0 {
        seq![]
    } else {
        quoted_values_text(vs.drop_last()) + (if vs.len() > 1 {
            " "@
        } else {
            seq![]
        }) + "\""@ + inner_word_text(vs.last()) + "\""@
    }
}

/// The first value, as it reads inside double quotes (empty when none).
pub open spec fn first_value_text(vs: Seq<LoweredWord>) -> Seq<char>
    decreases vs,
{
    if vs.len() == 0 {
        seq![]
    } else {
        inner_word_text(vs[0])
    }
}

/// `NAME="v"` for at most one value, `NAME=("a" "b")` for more.
pub open spec fn scalar_or_array_text(
    scalar_prefix: Seq<char>,
    array_prefix: Seq<char>,
    name: Seq<char>,
    vs: Vec<LoweredWord>,
) -> Seq<char>
    decreases vs,
{
    if vs@.len() <= 1 {
        scalar_prefix + name + "=\""@ + first_value_text(vs@) + "\""@
    } else {
        array_prefix + name + "=("@ + quoted_values_text(vs@) + ")"@
    }
}

pub open spec fn assign_text(a: AssignmentIR) -> Seq<char>
    decreases a,
{
    match a {
        AssignmentIR::Local { name, values } => scalar_or_array_text(
            "local "@,
            "local -a "@,
            name@,
            values,
        ),
        AssignmentIR::Export { name, values } => "export "@ + name@ + "=\""@ + first_value_text(
            values@,
        ) + "\""@,
        AssignmentIR::Global { name, values, in_function } => if in_function {
            scalar_or_array_text("declare -g "@, "declare -ga "@, name@, values)
        } else {
            scalar_or_array_text(seq![], seq![], name@, values)
        },
        AssignmentIR::Append { name, values } => name@ + "+=("@ + quoted_values_text(values@)
            + ")"@,
        AssignmentIR::Prepend { name, values } => name@ + "=("@ + quoted_values_text(values@)
            + " \"${"@ + name@ + "[@]}\")"@,
        AssignmentIR::Erase { name } => "unset "@ + name@,
        AssignmentIR::ArgvLast { value } => "set -- \"${@:1:$(($#-1))}\" \""@ + inner_word_text(
            value,
        ) + "\""@,
        AssignmentIR::SliceAssign { name, index, value } => name@ + "["@ + index_text(index)
            + "]=\""@ + inner_word_text(value) + "\""@,
        AssignmentIR::SliceErase { name, index } => "unset '"@ + name@ + "["@ + index_text(index)
            + "]'"@,
    }
}

/// The Bash text of a whole program: the shebang (a fish shebang becomes
/// `#!/usr/bin/env bash`) followed by the statements.
pub open spec fn bash_text(p: LoweredProgram) -> Seq<char> {
    shebang_text(p.shebang) + lines_text(p.statements@, 0) + nl_text(p.statements@)
}


fn emit_pad(indent: usize, out: &mut String)
    ensures
        final(out)@ == old(out)@ + pad_text(indent),
{
    let ghost o0 = out@;
    let mut k: usize = 0;
    while k < indent
        invariant
            k <= indent,
            out@ == o0 + pad_text(k),
        decreases indent - k,
    {
        out.append("  ");
        k = k + 1;
    }
}

fn emit_dq_escaped(s: &String, out: &mut String)
    ensures
        final(out)@ == old(out)@ + dq_escape(s@),
{
    let ghost o0 = out@;
    let cs = chars_of(s.as_str());
    let mut i: usize = 0;
    while i < cs.len()
        invariant
            i <= cs.len(),
            cs@ == s@,
            out@ == o0 + dq_escape(cs@.take(i as int)),
        decreases cs.len() - i,
    {
        assert(cs@.take(i + 1).drop_last() =~= cs@.take(i as int));
        let c = cs[i];
        if c == '"' || c == '$' || c == '\\' || c == '`' {
            push_char(out, '\\');
        }
        push_char(out, c);
        i = i + 1;
    }
    assert(cs@.take(cs.len() as int) =~= cs@);
}

fn emit_sq_escaped(s: &String, out: &mut String)
    ensures
        final(out)@ == old(out)@ + sq_escape(s@),
{
    let ghost o0 = out@;
    let cs = chars_of(s.as_str());
    let mut i: usize = 0;
    while i < cs.len()
        invariant
            i <= cs.len(),
            cs@ == s@,
            out@ == o0 + sq_escape(cs@.take(i as int)),
        decreases cs.len() - i,
    {
        assert(cs@.take(i + 1).drop_last() =~= cs@.take(i as int));
        let c = cs[i];
        if c == '\'' {
            push_char(out, '\'');
            push_char(out, '\\');
            push_char(out, '\'');
            push_char(out, '\'');
        } else {
            push_char(out, c);
        }
        i = i + 1;
    }
    assert(cs@.take(cs.len() as int) =~= cs@);
}

fn emit_usize(n: usize, out: &mut String)
    ensures
        final(out)@ == old(out)@ + decimal(n as nat),
{
    push_decimal(out, n as u64);
}

fn emit_custom(name: &String, sub: &Option<BashSubscript>, out: &mut String)
    ensures
        final(out)@ == old(out)@ + custom_text(name@, *sub),
{
    match sub {
        None => {
            out.append("$");
            out.append(name.as_str());
        },
        Some(BashSubscript::All) => {
            out.append("${");
            out.append(name.as_str());
            out.append("[@]}");
        },
        Some(BashSubscript::ZeroBasedIndex(i)) => {
            out.append("${");
            out.append(name.as_str());
            out.append("[");
            emit_usize(*i, out);
            out.append("]}");
        },
        Some(BashSubscript::NegativeOffsetFromLength(k)) => {
            out.append("${");
            out.append(name.as_str());
            out.append("[-");
            emit_usize(*k, out);
            out.append("]}");
        },
        Some(BashSubscript::Range { offset, length }) => {
            out.append("${");
            out.append(name.as_str());
            out.append("[@]:");
            emit_usize(*offset, out);
            out.append(":");
            emit_usize(*length, out);
            out.append("}");
        },
        Some(BashSubscript::OpenRange { offset }) => {
            out.append("${");
            out.append(name.as_str());
            out.append("[@]:");
            emit_usize(*offset, out);
            out.append("}");
        },
        Some(BashSubscript::DynamicVariable(v)) => {
            out.append("${");
            out.append(name.as_str());
            out.append("[");
            out.append(v.as_str());
            out.append("-1]}");
        },
        Some(BashSubscript::DynamicRange { start, end }) => {
            out.append("${");
            out.append(name.as_str());
            out.append("[@]:$((");
            out.append(start.as_str());
            out.append(" - 1)):$((");
            out.append(end.as_str());
            out.append(" - ");
            out.append(start.as_str());
            out.append(" + 1))}");
        },
    }
}

fn emit_variable_ref_inner(v: &LoweredVariableRef, out: &mut String)
    ensures
        final(out)@ == old(out)@ + var_inner_text(*v),
{
    match v {
        LoweredVariableRef::Status => out.append("$?"),
        LoweredVariableRef::Pipestatus => out.append("${PIPESTATUS[@]}"),
        LoweredVariableRef::FishPid => out.append("$$"),
        LoweredVariableRef::LastPid => out.append("$!"),
        LoweredVariableRef::ArgvAll => out.append("$@"),
        LoweredVariableRef::ArgvIndex(n) => {
            out.append("$");
            emit_usize(*n, out);
        },
        LoweredVariableRef::ArgvSlice { start, len } => {
            out.append("${@:");
            emit_usize(*start, out);
            match len {
                Some(l) => {
                    out.append(":");
                    emit_usize(*l, out);
                    out.append("}");
                },
                None => {
                    out.append("}");
                },
            }
        },
        LoweredVariableRef::ArgvLast => out.append("${@: -1:1}"),
        LoweredVariableRef::ArgvDynamic(x) => {
            out.append("${@:$");
            out.append(x.as_str());
            out.append(":1}");
        },
        LoweredVariableRef::ArgvDynamicRange { start, end } => {
            out.append("${@:$");
            out.append(start.as_str());
            out.append(":$((");
            out.append(end.as_str());
            out.append(" - ");
            out.append(start.as_str());
            out.append(" + 1))}");
        },
        LoweredVariableRef::Indirect { name } => {
            out.append("${!");
            out.append(name.as_str());
            out.append("}");
        },
        LoweredVariableRef::Custom { name, subscript } => emit_custom(name, subscript, out),
    }
}

/// Appends a variable reference in unquoted position (see `var_text`).
pub fn emit_variable_ref(v: &LoweredVariableRef, out: &mut String)
    ensures
        final(out)@ == old(out)@ + var_text(*v),
{
    match v {
        LoweredVariableRef::Status => out.append("$?"),
        _ => {
            out.append("\"");
            emit_variable_ref_inner(v, out);
            out.append("\"");
        },
    }
}

fn emit_index(i: &SliceIndexIR, out: &mut String)
    ensures
        final(out)@ == old(out)@ + index_text(*i),
{
    match i {
        SliceIndexIR::ZeroBased(n) => emit_usize(*n, out),
        SliceIndexIR::NegativeOffset(k) => {
            out.append("-");
            emit_usize(*k, out);
        },
        SliceIndexIR::Dynamic(v) => {
            out.append(v.as_str());
            out.append("-1");
        },
    }
}

fn emit_mode(m: &RedirectMode, out: &mut String)
    ensures
        final(out)@ == old(out)@ + mode_text(*m),
{
    match m {
        RedirectMode::Output => out.append(">"),
        RedirectMode::Append => out.append(">>"),
        RedirectMode::Input => out.append("<"),
        RedirectMode::OutputAndErr => out.append("&>"),
        RedirectMode::AppendAndErr => out.append("&>>"),
        RedirectMode::DupOutput => out.append(">&"),
        RedirectMode::DupInput => out.append("<&"),
        RedirectMode::SafeInput => out.append("<"),
        RedirectMode::NoClobberOutput => out.append(">"),
        RedirectMode::NoClobberAppend => out.append(">>"),
        RedirectMode::NoClobberOutputAndErr => out.append("&>"),
        RedirectMode::NoClobberAppendAndErr => out.append("&>>"),
    }
}

fn emit_comb(c: &Combinator, out: &mut String)
    ensures
        final(out)@ == old(out)@ + comb_text(*c),
{
    match c {
        Combinator::And => out.append("&& "),
        Combinator::Or => out.append("|| "),
        Combinator::Plain => {
            assert(comb_text(*c) =~= Seq::<char>::empty());
        },
    }
}

fn emit_pipe_sep(ops: &Vec<PipeKind>, k: usize, out: &mut String)
    ensures
        final(out)@ == old(out)@ + pipe_sep_text(ops@, k as int),
{
    if k < ops.len() {
        match ops[k] {
            PipeKind::Stdout => out.append(" | "),
            PipeKind::StdoutAndStderr => out.append(" |& "),
            PipeKind::Fd(n) => {
                out.append(" ");
                push_decimal(out, n as u64);
                out.append(">&1 | ");
            },
        }
    } else {
        out.append(" | ");
    }
}

fn has_exec_stmts(stmts: &[LoweredStatement]) -> (r: bool)
    ensures
        r == has_exec(stmts@),
{
    let mut i: usize = 0;
    while i < stmts.len()
        invariant
            i <= stmts.len(),
            forall|j: int| 0 <= j < i ==> (#[trigger] stmts@[j]).kind is Comment,
        decreases stmts.len() - i,
    {
        match &stmts[i].kind {
            LoweredStatementKind::Comment(_) => {},
            _ => {
                return true;
            },
        }
        i = i + 1;
    }
    false
}

fn emit_filler(stmts: &[LoweredStatement], indent: usize, out: &mut String)
    ensures
        final(out)@ == old(out)@ + filler_text(stmts@, indent),
{
    if !has_exec_stmts(stmts) {
        emit_pad(indent, out);
        out.append(":\n");
    } else {
        assert(filler_text(stmts@, indent) =~= Seq::<char>::empty());
    }
}

fn last_end_of(stmts: &[LoweredStatement], k: usize) -> (r: usize)
    requires
        k <= stmts@.len(),
    ensures
        r as nat == last_end(stmts@.take(k as int)),
{
    let mut j = k;
    while j > 0 && stmts[j - 1].span.end_line == 0
        invariant
            j <= k,
            k <= stmts@.len(),
            last_end(stmts@.take(k as int)) == last_end(stmts@.take(j as int)),
        decreases j,
    {
        assert(stmts@.take(j as int).drop_last() =~= stmts@.take(j - 1));
        j = j - 1;
    }
    if j == 0 {
        0
    } else {
        assert(stmts@.take(j as int).last() == stmts@[j - 1]);
        stmts[j - 1].span.end_line
    }
}

fn is_continuation_stmt(s: &LoweredStatement) -> (r: bool)
    ensures
        r == is_continuation(*s),
{
    match &s.kind {
        LoweredStatementKind::Pipeline(p) => match p.combinator {
            Combinator::Plain => false,
            _ => true,
        },
        LoweredStatementKind::BeginBlock(b) => match b.combinator {
            Combinator::Plain => false,
            _ => true,
        },
        _ => false,
    }
}

/// Whether the statement before position `k` still owes its line break:
/// it does unless the statement at `k` continues its line (`and`/`or`).
pub open spec fn break_owed(stmts: Seq<LoweredStatement>, k: int) -> bool {
    k > 0 && !(k < stmts.len() && is_continuation(stmts[k]))
}

/// Appends the statements, one per line, each followed by its line break
/// (see `lines_text`). Each statement is written by `emit_statement`, with
/// its indentation and line break, except where the next statement is
/// joined to it by `and`/`or`: then the two share one line.
pub fn emit_statements(stmts: &[LoweredStatement], indent: usize, out: &mut String)
    ensures
        final(out)@ == old(out)@ + lines_text(stmts@, indent) + nl_text(stmts@),
    decreases stmts@, 1int,
{
    let ghost o0 = out@;
    let n = stmts.len();
    let mut k: usize = 0;
    while k < n
        invariant
            n == stmts@.len(),
            k <= n,
            out@ == o0 + lines_text(stmts@.take(k as int), indent) + (if break_owed(stmts@, k as int) {
                "\n"@
            } else {
                Seq::<char>::empty()
            }),
        decreases n - k,
    {
        let ghost before = out@;
        let ghost prefix = stmts@.take(k as int);
        let ghost st = statement_text(stmts@[k as int], indent);
        assert(stmts@.take(k + 1).drop_last() =~= prefix);
        assert(stmts@.take(k + 1).last() == stmts@[k as int]);
        assert(lines_text(stmts@.take(k + 1), indent) == lines_text(prefix, indent)
            + separator_text(prefix, stmts@[k as int], indent) + st);
        let joins_next = k + 1 < n && is_continuation_stmt(&stmts[k + 1]);
        let ghost tail = if joins_next {
            Seq::<char>::empty()
        } else {
            "\n"@
        };
        assert(tail == if break_owed(stmts@, k + 1) {
            "\n"@
        } else {
            Seq::<char>::empty()
        });
        if k > 0 && is_continuation_stmt(&stmts[k]) {
            assert(before == o0 + lines_text(prefix, indent));
            out.append(" ");
            emit_statement_text(&stmts[k], indent, out);
            if !joins_next {
                out.append("\n");
            }
            assert(separator_text(prefix, stmts@[k as int], indent) == " "@);
            assert(out@ =~= o0 + lines_text(prefix, indent) + " "@ + st + tail);
        } else {
            let ghost lead: Seq<char> = if k == 0 {
                Seq::<char>::empty()
            } else {
                "\n"@
            };
            assert(before == o0 + lines_text(prefix, indent) + lead);
            let ghost blank = k > 0 && blank_before(prefix, stmts@[k as int]);
            if k > 0 {
                let last = last_end_of(stmts, k);
                let start = stmts[k].span.start_line;
                if last > 0 && start > last && start - last > 1 {
                    out.append("\n");
                }
            }
            let ghost mid = out@;
            assert(mid == before + (if blank {
                "\n"@
            } else {
                Seq::<char>::empty()
            }));
            if joins_next {
                emit_pad(indent, out);
                emit_statement_text(&stmts[k], indent, out);
            } else {
                emit_statement(&stmts[k], indent, out);
            }
            assert(out@ =~= mid + pad_text(indent) + st + tail);
            proof {
                reveal_strlit("\n\n");
                reveal_strlit("\n");
                assert(prefix.len() == k);
            }
            assert(separator_text(prefix, stmts@[k as int], indent) =~= lead + (if blank {
                "\n"@
            } else {
                Seq::<char>::empty()
            }) + pad_text(indent));
            assert(out@ =~= o0 + lines_text(prefix, indent) + separator_text(
                prefix,
                stmts@[k as int],
                indent,
            ) + st + tail);
        }
        k = k + 1;
    }
    assert(stmts@.take(n as int) =~= stmts@);
}

/// Appends one statement on a line of its own: its indentation, its text
/// (see `statement_text`) and a line break.
fn emit_statement(stmt: &LoweredStatement, indent: usize, out: &mut String)
    ensures
        final(out)@ == old(out)@ + pad_text(indent) + statement_text(*stmt, indent) + "\n"@,
    decreases stmt, 1int,
{
    emit_pad(indent, out);
    emit_statement_text(stmt, indent, out);
    out.append("\n");
}

/// Appends the text of one statement, without indentation or line break;
/// nested lines are indented relative to `indent`.
fn emit_statement_text(stmt: &LoweredStatement, indent: usize, out: &mut String)
    ensures
        final(out)@ == old(out)@ + statement_text(*stmt, indent),
    decreases stmt, 0int,
{
    match &stmt.kind {
        LoweredStatementKind::Comment(c) => {
            out.append("#");
            out.append(c.as_str());
        },
        LoweredStatementKind::Return(w) => match w {
            Some(w) => {
                out.append("return ");
                emit_word(w, out);
            },
            None => out.append("return"),
        },
        LoweredStatementKind::Break => out.append("break"),
        LoweredStatementKind::Continue => out.append("continue"),
        LoweredStatementKind::Assignment(a) => emit_assignment(a, out),
        LoweredStatementKind::Pipeline(p) => emit_pipeline(p, indent, out),
        LoweredStatementKind::If(i) => emit_if(i, indent, out),
        LoweredStatementKind::Switch(sw) => emit_switch(sw, indent, out),
        LoweredStatementKind::For(f) => emit_for(f, indent, out),
        LoweredStatementKind::While(w) => emit_while(w, indent, out),
        LoweredStatementKind::Function(f) => emit_function(f, indent, out),
        LoweredStatementKind::BeginBlock(b) => emit_begin(b, indent, out),
    }
}

fn emit_body(stmts: &Vec<LoweredStatement>, indent: usize, out: &mut String)
    ensures
        final(out)@ == old(out)@ + body_text(*stmts, indent),
    decreases stmts, 1int,
{
    emit_statements(stmts.as_slice(), indent, out);
    emit_filler(stmts.as_slice(), indent, out);
}

fn emit_else(e: &Option<Vec<LoweredStatement>>, indent: usize, out: &mut String)
    ensures
        final(out)@ == old(out)@ + else_text(*e, indent),
    decreases e, 1int,
{
    match e {
        Some(b) => {
            emit_pad(indent, out);
            out.append("else\n");
            emit_body(b, inc(indent), out);
        },
        None => {},
    }
}

#[verifier::rlimit(100)]
#[verifier::spinoff_prover]
fn emit_if(i: &LoweredIf, indent: usize, out: &mut String)
    ensures
        final(out)@ == old(out)@ + if_text(*i, indent),
    decreases i, 1int,
{
    let ghost o0 = out@;
    out.append("if ");
    emit_chain(&i.condition, indent, out);
    out.append("; then\n");
    let ghost o1 = out@;
    assert(o1 =~= o0 + ("if "@ + chain_text(i.condition@, indent) + "; then\n"@));
    emit_body(&i.then_body, inc(indent), out);
    emit_elifs(&i.elif_branches, indent, out);
    emit_else(&i.else_body, indent, out);
    let ghost o2 = out@;
    assert(o2 =~= o1 + (body_text(i.then_body, sat_inc(indent)) + elifs_text(
        i.elif_branches@,
        indent,
    ) + else_text(i.else_body, indent)));
    emit_pad(indent, out);
    out.append("fi");
    emit_redirections(&i.redirections, out);
    assert(out@ =~= o2 + (pad_text(indent) + "fi"@ + redirs_text(i.redirections@)));
    assert(out@ =~= o0 + if_text(*i, indent));
}

fn emit_elifs(bs: &Vec<(Vec<LoweredPipeline>, Vec<LoweredStatement>)>, indent: usize, out: &mut String)
    ensures
        final(out)@ == old(out)@ + elifs_text(bs@, indent),
    decreases bs, 1int,
{
    let ghost o0 = out@;
    let ni = inc(indent);
    let mut k: usize = 0;
    while k < bs.len()
        invariant
            k <= bs@.len(),
            ni == sat_inc(indent),
            out@ == o0 + elifs_text(bs@.take(k as int), indent),
        decreases bs@.len() - k,
    {
        assert(bs@.take(k + 1).drop_last() =~= bs@.take(k as int));
        let b = &bs[k];
        emit_pad(indent, out);
        out.append("elif ");
        emit_chain(&b.0, indent, out);
        out.append("; then\n");
        emit_body(&b.1, ni, out);
        k = k + 1;
    }
    assert(bs@.take(bs@.len() as int) =~= bs@);
}

fn emit_switch(sw: &LoweredSwitch, indent: usize, out: &mut String)
    ensures
        final(out)@ == old(out)@ + switch_text(*sw, indent),
    decreases sw, 1int,
{
    out.append("case ");
    emit_word(&sw.value, out);
    out.append(" in\n");
    emit_cases(&sw.cases, indent, out);
    emit_pad(indent, out);
    out.append("esac");
    emit_redirections(&sw.redirections, out);
}

fn emit_cases(cs: &Vec<LoweredCaseClause>, indent: usize, out: &mut String)
    ensures
        final(out)@ == old(out)@ + cases_text(cs@, indent),
    decreases cs, 1int,
{
    let ghost o0 = out@;
    let ni2 = inc(inc(indent));
    let mut k: usize = 0;
    while k < cs.len()
        invariant
            k <= cs@.len(),
            ni2 == sat_inc(sat_inc(indent)),
            out@ == o0 + cases_text(cs@.take(k as int), indent),
        decreases cs@.len() - k,
    {
        assert(cs@.take(k + 1).drop_last() =~= cs@.take(k as int));
        let c = &cs[k];
        emit_pad(indent, out);
        out.append("  ");
        emit_words(&c.patterns, "|", out);
        out.append(")\n");
        emit_statements(c.body.as_slice(), ni2, out);
        emit_pad(indent, out);
        out.append("    ;;\n");
        k = k + 1;
    }
    assert(cs@.take(cs@.len() as int) =~= cs@);
}

#[verifier::rlimit(60)]
fn emit_for(f: &LoweredFor, indent: usize, out: &mut String)
    ensures
        final(out)@ == old(out)@ + for_text(*f, indent),
    decreases f, 1int,
{
    let ni = inc(indent);
    out.append("for ");
    out.append(f.variable.as_str());
    out.append(" in ");
    emit_words(&f.values, " ", out);
    out.append("; do\n");
    emit_body(&f.body, ni, out);
    emit_pad(indent, out);
    out.append("done");
    emit_redirections(&f.redirections, out);
}

fn emit_while(w: &LoweredWhile, indent: usize, out: &mut String)
    ensures
        final(out)@ == old(out)@ + while_text(*w, indent),
    decreases w, 1int,
{
    let ni = inc(indent);
    out.append("while ");
    emit_chain(&w.condition, indent, out);
    out.append("; do\n");
    emit_body(&w.body, ni, out);
    emit_pad(indent, out);
    out.append("done");
    emit_redirections(&w.redirections, out);
}

fn emit_locals(args: &Vec<String>, indent: usize, out: &mut String)
    ensures
        final(out)@ == old(out)@ + locals_text(args@, indent),
{
    let ghost o0 = out@;
    let mut k: usize = 0;
    while k < args.len()
        invariant
            k <= args@.len(),
            out@ == o0 + locals_text(args@.take(k as int), indent),
        decreases args@.len() - k,
    {
        assert(args@.take(k + 1).drop_last() =~= args@.take(k as int));
        emit_pad(indent, out);
        out.append("  local ");
        out.append(args[k].as_str());
        out.append("=\"$");
        emit_usize(k + 1, out);
        out.append("\"\n");
        k = k + 1;
    }
    assert(args@.take(args@.len() as int) =~= args@);
}

fn emit_function(f: &LoweredFunction, indent: usize, out: &mut String)
    ensures
        final(out)@ == old(out)@ + function_text(*f, indent),
    decreases f, 1int,
{
    let ni = inc(indent);
    out.append(f.name.as_str());
    out.append("() {\n");
    emit_locals(&f.named_args, indent, out);
    emit_statements(f.body.as_slice(), ni, out);
    if f.named_args.len() == 0 {
        emit_filler(f.body.as_slice(), ni, out);
    }
    emit_pad(indent, out);
    out.append("}");
}

fn emit_begin(b: &LoweredBeginBlock, indent: usize, out: &mut String)
    ensures
        final(out)@ == old(out)@ + begin_text(*b, indent),
    decreases b, 1int,
{
    let ni = inc(indent);
    emit_comb(&b.combinator, out);
    out.append("{\n");
    emit_body(&b.body, ni, out);
    emit_pad(indent, out);
    out.append("}");
    emit_redirections(&b.redirections, out);
}

fn emit_chain(ps: &Vec<LoweredPipeline>, indent: usize, out: &mut String)
    ensures
        final(out)@ == old(out)@ + chain_text(ps@, indent),
    decreases ps, 1int,
{
    let ghost o0 = out@;
    let mut k: usize = 0;
    while k < ps.len()
        invariant
            k <= ps@.len(),
            out@ == o0 + chain_text(ps@.take(k as int), indent),
        decreases ps@.len() - k,
    {
        assert(ps@.take(k + 1).drop_last() =~= ps@.take(k as int));
        if k > 0 {
            out.append(" ");
        }
        emit_pipeline(&ps[k], indent, out);
        k = k + 1;
    }
    assert(ps@.take(ps@.len() as int) =~= ps@);
}

fn emit_pipeline(p: &LoweredPipeline, indent: usize, out: &mut String)
    ensures
        final(out)@ == old(out)@ + pipeline_text(*p, indent),
    decreases p, 1int,
{
    emit_comb(&p.combinator, out);
    if p.negate {
        out.append("! ");
    }
    emit_elements(&p.elements, &p.pipe_operators, indent, out);
    if p.background {
        out.append(" &");
    }
}

#[verifier::rlimit(60)]
fn emit_elements(
    es: &Vec<LoweredPipelineElement>,
    ops: &Vec<PipeKind>,
    indent: usize,
    out: &mut String,
)
    ensures
        final(out)@ == old(out)@ + elements_text(es@, ops@, indent),
    decreases es, 1int,
{
    let ghost o0 = out@;
    let mut k: usize = 0;
    while k < es.len()
        invariant
            k <= es@.len(),
            out@ == o0 + elements_text(es@.take(k as int), ops@, indent),
        decreases es@.len() - k,
    {
        assert(es@.take(k + 1).drop_last() =~= es@.take(k as int));
        if k > 0 {
            emit_pipe_sep(ops, k - 1, out);
        }
        match &es[k] {
            LoweredPipelineElement::Command(c) => emit_command(c, out),
            LoweredPipelineElement::Block(s) => emit_statement_text(s, indent, out),
        }
        k = k + 1;
    }
    assert(es@.take(es@.len() as int) =~= es@);
}

fn emit_command(c: &LoweredCommand, out: &mut String)
    ensures
        final(out)@ == old(out)@ + command_text(*c),
    decreases c, 1int,
{
    emit_prefixes(&c.assignments, out);
    emit_words(&c.args, " ", out);
    emit_redirections(&c.redirections, out);
}

fn emit_prefixes(a: &Vec<LoweredAssignment>, out: &mut String)
    ensures
        final(out)@ == old(out)@ + prefixes_text(a@),
    decreases a, 1int,
{
    let ghost o0 = out@;
    let mut k: usize = 0;
    while k < a.len()
        invariant
            k <= a@.len(),
            out@ == o0 + prefixes_text(a@.take(k as int)),
        decreases a@.len() - k,
    {
        assert(a@.take(k + 1).drop_last() =~= a@.take(k as int));
        out.append(a[k].name.as_str());
        out.append("=");
        emit_word(&a[k].value, out);
        out.append(" ");
        k = k + 1;
    }
    assert(a@.take(a@.len() as int) =~= a@);
}

fn emit_words(ws: &Vec<LoweredWord>, sep: &str, out: &mut String)
    ensures
        final(out)@ == old(out)@ + words_text(ws@, sep@),
    decreases ws, 1int,
{
    let ghost o0 = out@;
    let mut k: usize = 0;
    while k < ws.len()
        invariant
            k <= ws@.len(),
            out@ == o0 + words_text(ws@.take(k as int), sep@),
        decreases ws@.len() - k,
    {
        assert(ws@.take(k + 1).drop_last() =~= ws@.take(k as int));
        if k > 0 {
            out.append(sep);
        }
        emit_word(&ws[k], out);
        k = k + 1;
    }
    assert(ws@.take(ws@.len() as int) =~= ws@);
}

fn emit_redirections(rs: &Vec<LoweredRedirection>, out: &mut String)
    ensures
        final(out)@ == old(out)@ + redirs_text(rs@),
    decreases rs, 1int,
{
    let ghost o0 = out@;
    let mut k: usize = 0;
    while k < rs.len()
        invariant
            k <= rs@.len(),
            out@ == o0 + redirs_text(rs@.take(k as int)),
        decreases rs@.len() - k,
    {
        assert(rs@.take(k + 1).drop_last() =~= rs@.take(k as int));
        out.append(" ");
        emit_redirection(&rs[k], out);
        k = k + 1;
    }
    assert(rs@.take(rs@.len() as int) =~= rs@);
}

#[verifier::rlimit(60)]
fn emit_redirection(r: &LoweredRedirection, out: &mut String)
    ensures
        final(out)@ == old(out)@ + redir_text(*r),
    decreases r, 1int,
{
    match r.fd {
        Some(n) => push_decimal(out, n as u64),
        None => {},
    }
    emit_mode(&r.mode, out);
    out.append(" ");
    match r.mode {
        RedirectMode::SafeInput => {
            out.append("\"$([ -r ");
            emit_word(&r.target, out);
            out.append(" ] && echo ");
            emit_word(&r.target, out);
            out.append(" || echo /dev/null)\"");
        },
        _ => emit_word(&r.target, out),
    }
}

/// Appends a word in unquoted position (see `word_text`).
pub fn emit_word(w: &LoweredWord, out: &mut String)
    ensures
        final(out)@ == old(out)@ + word_text(*w),
    decreases w, 1int,
{
    let ghost o0 = out@;
    let mut k: usize = 0;
    while k < w.parts.len()
        invariant
            k <= w.parts@.len(),
            out@ == o0 + parts_text(w.parts@.take(k as int)),
        decreases w.parts@.len() - k,
    {
        assert(w.parts@.take(k + 1).drop_last() =~= w.parts@.take(k as int));
        emit_word_part(&w.parts[k], out);
        k = k + 1;
    }
    assert(w.parts@.take(w.parts@.len() as int) =~= w.parts@);
}

fn emit_word_inner(w: &LoweredWord, out: &mut String)
    ensures
        final(out)@ == old(out)@ + inner_word_text(*w),
    decreases w, 1int,
{
    emit_parts_inner(&w.parts, out);
}

fn emit_parts_inner(ps: &Vec<LoweredWordPart>, out: &mut String)
    ensures
        final(out)@ == old(out)@ + inner_parts_text(ps@),
    decreases ps, 1int,
{
    let ghost o0 = out@;
    let mut k: usize = 0;
    while k < ps.len()
        invariant
            k <= ps@.len(),
            out@ == o0 + inner_parts_text(ps@.take(k as int)),
        decreases ps@.len() - k,
    {
        assert(ps@.take(k + 1).drop_last() =~= ps@.take(k as int));
        emit_word_part_inner(&ps[k], out);
        k = k + 1;
    }
    assert(ps@.take(ps@.len() as int) =~= ps@);
}

fn emit_subst_body(stmts: &Vec<LoweredStatement>, out: &mut String)
    ensures
        final(out)@ == old(out)@ + subst_body_text(*stmts),
    decreases stmts, 1int,
{
    let mut inner = String::new();
    emit_statements(stmts.as_slice(), 0, &mut inner);
    assert(inner@ =~= lines_text(stmts@, 0) + nl_text(stmts@));
    let t = trim_end(&inner);
    out.append(t.as_str());
}

/// Appends a word part in unquoted position (see `part_text`).
pub fn emit_word_part(part: &LoweredWordPart, out: &mut String)
    ensures
        final(out)@ == old(out)@ + part_text(*part),
    decreases part, 1int,
{
    match part {
        LoweredWordPart::Literal(s) => out.append(s.as_str()),
        LoweredWordPart::SingleQuoted(s) => {
            out.append("'");
            emit_sq_escaped(s, out);
            out.append("'");
        },
        LoweredWordPart::DoubleQuoted(ps) => {
            out.append("\"");
            emit_parts_inner(ps, out);
            out.append("\"");
        },
        LoweredWordPart::Variable(v) => emit_variable_ref(v, out),
        LoweredWordPart::CommandSubst { stmts, slices, quoted } => {
            if *quoted {
                out.append("\"$(");
            } else {
                out.append("$(");
            }
            emit_subst_body(stmts, out);
            if *quoted {
                out.append(")\"");
            } else {
                out.append(")");
            }
        },
        LoweredWordPart::ProcessSubst(p) => {
            out.append("<(");
            emit_pipeline(p, 0, out);
            out.append(")");
        },
        LoweredWordPart::BraceExpansion(ws) => {
            out.append("{");
            emit_words(ws, ",", out);
            out.append("}");
        },
    }
}

fn emit_word_part_inner(part: &LoweredWordPart, out: &mut String)
    ensures
        final(out)@ == old(out)@ + inner_part_text(*part),
    decreases part, 1int,
{
    match part {
        LoweredWordPart::Literal(s) => emit_dq_escaped(s, out),
        LoweredWordPart::SingleQuoted(s) => emit_dq_escaped(s, out),
        LoweredWordPart::DoubleQuoted(ps) => emit_parts_inner(ps, out),
        LoweredWordPart::Variable(v) => emit_variable_ref_inner(v, out),
        LoweredWordPart::CommandSubst { stmts, slices, quoted } => {
            out.append("$(");
            emit_subst_body(stmts, out);
            out.append(")");
        },
        LoweredWordPart::ProcessSubst(p) => {
            out.append("<(");
            emit_pipeline(p, 0, out);
            out.append(")");
        },
        LoweredWordPart::BraceExpansion(ws) => {
            out.append("{");
            emit_words(ws, ",", out);
            out.append("}");
        },
    }
}

fn emit_quoted_values(vs: &Vec<LoweredWord>, out: &mut String)
    ensures
        final(out)@ == old(out)@ + quoted_values_text(vs@),
    decreases vs, 1int,
{
    let ghost o0 = out@;
    let mut k: usize = 0;
    while k < vs.len()
        invariant
            k <= vs@.len(),
            out@ == o0 + quoted_values_text(vs@.take(k as int)),
        decreases vs@.len() - k,
    {
        assert(vs@.take(k + 1).drop_last() =~= vs@.take(k as int));
        if k > 0 {
            out.append(" ");
        }
        out.append("\"");
        emit_word_inner(&vs[k], out);
        out.append("\"");
        k = k + 1;
    }
    assert(vs@.take(vs@.len() as int) =~= vs@);
}

fn emit_first_value(vs: &Vec<LoweredWord>, out: &mut String)
    ensures
        final(out)@ == old(out)@ + first_value_text(vs@),
    decreases vs, 1int,
{
    if vs.len() > 0 {
        emit_word_inner(&vs[0], out);
    } else {
        assert(first_value_text(vs@) =~= Seq::<char>::empty());
    }
}

fn emit_assign_values(
    scalar_prefix: &str,
    array_prefix: &str,
    name: &String,
    vs: &Vec<LoweredWord>,
    out: &mut String,
)
    ensures
        final(out)@ == old(out)@ + scalar_or_array_text(scalar_prefix@, array_prefix@, name@, *vs),
    decreases vs, 1int,
{
    if vs.len() <= 1 {
        out.append(scalar_prefix);
        out.append(name.as_str());
        out.append("=\"");
        if vs.len() == 1 {
            emit_word_inner(&vs[0], out);
        } else {
            assert(first_value_text(vs@) =~= Seq::<char>::empty());
        }
        out.append("\"");
    } else {
        out.append(array_prefix);
        out.append(name.as_str());
        out.append("=(");
        let ghost o0 = out@;
        let mut k: usize = 0;
        while k < vs.len()
            invariant
                k <= vs@.len(),
                out@ == o0 + quoted_values_text(vs@.take(k as int)),
            decreases vs@.len() - k,
        {
            assert(vs@.take(k + 1).drop_last() =~= vs@.take(k as int));
            if k > 0 {
                out.append(" ");
            }
            out.append("\"");
            emit_word_inner(&vs[k], out);
            out.append("\"");
            k = k + 1;
        }
        assert(vs@.take(vs@.len() as int) =~= vs@);
        out.append(")");
    }
}

#[verifier::rlimit(60)]
fn emit_assignment(a: &AssignmentIR, out: &mut String)
    ensures
        final(out)@ == old(out)@ + assign_text(*a),
    decreases a, 1int,
{
    match a {
        AssignmentIR::Local { name, values } => emit_assign_values("local ", "local -a ", name, values, out),
        AssignmentIR::Export { name, values } => {
            out.append("export ");
            out.append(name.as_str());
            out.append("=\"");
            emit_first_value(values, out);
            out.append("\"");
        },
        AssignmentIR::Global { name, values, in_function } => {
            if *in_function {
                emit_assign_values("declare -g ", "declare -ga ", name, values, out);
            } else {
                proof {
                    reveal_strlit("");
                }
                emit_assign_values("", "", name, values, out);
            }
        },
        AssignmentIR::Append { name, values } => {
            out.append(name.as_str());
            out.append("+=(");
            emit_quoted_values(values, out);
            out.append(")");
        },
        AssignmentIR::Prepend { name, values } => {
            out.append(name.as_str());
            out.append("=(");
            emit_quoted_values(values, out);
            out.append(" \"${");
            out.append(name.as_str());
            out.append("[@]}\")");
        },
        AssignmentIR::Erase { name } => {
            out.append("unset ");
            out.append(name.as_str());
        },
        AssignmentIR::ArgvLast { value } => {
            out.append("set -- \"${@:1:$(($#-1))}\" \"");
            emit_word_inner(value, out);
            out.append("\"");
        },
        AssignmentIR::SliceAssign { name, index, value } => {
            out.append(name.as_str());
            out.append("[");
            emit_index(index, out);
            out.append("]=\"");
            emit_word_inner(value, out);
            out.append("\"");
        },
        AssignmentIR::SliceErase { name, index } => {
            out.append("unset '");
            out.append(name.as_str());
            out.append("[");
            emit_index(index, out);
            out.append("]'");
        },
    }
}

/// Whether `s` contains the text `fish`.
fn contains_fish(s: &String) -> (r: bool)
    ensures
        r == has_substring(s@, "fish"@),
{
    proof {
        reveal_strlit("fish");
    }
    let cs = chars_of(s.as_str());
    let n = cs.len();
    if n < 4 {
        assert(!has_substring(s@, "fish"@)) by {
            if has_substring(s@, "fish"@) {
                let i = choose|i: int| 0 <= i && i + 4 <= s@.len() && #[trigger] s@.subrange(i, i + 4) == "fish"@;
            }
        }
        return false;
    }
    let mut i: usize = 0;
    while i <= n - 4
        invariant
            n == cs.len(),
            cs@ == s@,
            n >= 4,
            i <= n - 3,
            forall|j: int| 0 <= j < i ==> #[trigger] cs@.subrange(j, j + 4) != "fish"@,
            "fish"@ == seq!['f', 'i', 's', 'h'],
        decreases n - i,
    {
        if cs[i] == 'f' && cs[i + 1] == 'i' && cs[i + 2] == 's' && cs[i + 3] == 'h' {
            assert(cs@.subrange(i as int, i + 4) =~= "fish"@);
            return true;
        }
        assert(cs@.subrange(i as int, i + 4) != "fish"@) by {
            if cs@.subrange(i as int, i + 4) == "fish"@ {
                assert(cs@.subrange(i as int, i + 4)[0] == cs@[i as int]);
                assert(cs@.subrange(i as int, i + 4)[1] == cs@[i + 1]);
                assert(cs@.subrange(i as int, i + 4)[2] == cs@[i + 2]);
                assert(cs@.subrange(i as int, i + 4)[3] == cs@[i + 3]);
            }
        }
        i = i + 1;
    }
    assert(!has_substring(s@, "fish"@)) by {
        if has_substring(s@, "fish"@) {
            let j = choose|j: int| 0 <= j && j + 4 <= s@.len() && #[trigger] s@.subrange(j, j + 4) == "fish"@;
            assert(j < i);
        }
    }
    false
}

/// The Bash text of a lowered program (see `bash_text`).
pub fn emit_bash(program: &LoweredProgram) -> (r: String)
    ensures
        r@ == bash_text(*program),
{
    let mut out = String::new();
    match &program.shebang {
        Some(sb) => {
            if contains_fish(sb) {
                out.append("#!/usr/bin/env bash\n");
            } else {
                out.append(sb.as_str());
                out.append("\n");
            }
        },
        None => {},
    }
    emit_statements(program.statements.as_slice(), 0, &mut out);
    out
}


/// Between statements stands a line break, or two where the source had
/// blank lines (more blank lines collapse into one), or a space before a
/// statement joined by `and`/`or`; the first statement of a list gets only
/// its indentation, so no block starts with a blank line.
pub proof fn lemma_statement_separators(
    prefix: Seq<LoweredStatement>,
    s: LoweredStatement,
    indent: usize,
)
    ensures
        prefix.len() == 0 ==> separator_text(prefix, s, indent) == pad_text(indent),
        prefix.len() > 0 && is_continuation(s) ==> separator_text(prefix, s, indent) == " "@,
        prefix.len() > 0 && !is_continuation(s) ==> separator_text(prefix, s, indent) == (if blank_before(
            prefix,
            s,
        ) {
            "\n\n"@
        } else {
            "\n"@
        }) + pad_text(indent),
{
}

/// A script's `#!` line naming fish becomes `#!/usr/bin/env bash`; any
/// other is kept as written.
pub proof fn lemma_shebang_rewrite(p: LoweredProgram)
    ensures
        p.shebang matches Some(sb) ==> shebang_text(p.shebang) == (if has_substring(sb@, "fish"@) {
            "#!/usr/bin/env bash\n"@
        } else {
            sb@ + "\n"@
        }),
        p.shebang is None ==> shebang_text(p.shebang) == Seq::<char>::empty(),
        bash_text(p) == shebang_text(p.shebang) + lines_text(p.statements@, 0) + nl_text(
            p.statements@,
        ),
{
}

/// An unquoted literal word is emitted as its text.
pub proof fn lemma_literal_word_text(w: LoweredWord)
    requires
        lowered_literal(w) is Some,
    ensures
        word_text(w) == lowered_literal(w).unwrap(),
{
    assert(w.parts@.drop_last() =~= Seq::<LoweredWordPart>::empty());
}

/// The text of one pipeline stage.
pub open spec fn stage_text(e: LoweredPipelineElement, indent: usize) -> Seq<char> {
    match e {
        LoweredPipelineElement::Command(c) => command_text(c),
        LoweredPipelineElement::Block(s) => statement_text(s, indent),
    }
}

/// A pipeline is written as its `&&`/`||` joint, `! ` when negated, its
/// stages with each pipe between two of them (` | `, ` |& `, or
/// ` N>&1 | ` for another descriptor), and ` &` when it runs in the
/// background; so a pipeline with no joint, not in the background, of
/// stages `s1 ... sn` joined by `o1 ... o(n-1)` reads
/// `[! ]s1 o1 s2 ... o(n-1) sn`.
pub proof fn lemma_pipeline_layout(p: LoweredPipeline, indent: usize)
    ensures
        pipeline_text(p, indent) == comb_text(p.combinator) + (if p.negate {
            "! "@
        } else {
            seq![]
        }) + elements_text(p.elements@, p.pipe_operators@, indent) + (if p.background {
            " &"@
        } else {
            seq![]
        }),
        p.elements@.len() > 0 ==> elements_text(p.elements@.take(1), p.pipe_operators@, indent)
            == stage_text(p.elements@[0], indent),
        forall|k: int|
            1 <= k < p.elements@.len() ==> #[trigger] elements_text(
                p.elements@.take(k + 1),
                p.pipe_operators@,
                indent,
            ) == elements_text(p.elements@.take(k), p.pipe_operators@, indent) + pipe_sep_text(
                p.pipe_operators@,
                k - 1,
            ) + stage_text(p.elements@[k], indent),
        pipe_text(PipeKind::Stdout) == " | "@,
        pipe_text(PipeKind::StdoutAndStderr) == " |& "@,
{
    let es = p.elements@;
    if es.len() > 0 {
        let one = es.take(1);
        assert(one.drop_last() =~= Seq::<LoweredPipelineElement>::empty());
        assert(elements_text(one.drop_last(), p.pipe_operators@, indent) == Seq::<char>::empty());
        assert(one.last() == es[0]);
        assert(elements_text(one, p.pipe_operators@, indent) =~= stage_text(es[0], indent));
    }
    assert forall|k: int|
        1 <= k < es.len() implies #[trigger] elements_text(es.take(k + 1), p.pipe_operators@, indent)
        == elements_text(es.take(k), p.pipe_operators@, indent) + pipe_sep_text(
            p.pipe_operators@,
            k - 1,
        ) + stage_text(es[k], indent) by {
        assert(es.take(k + 1).drop_last() =~= es.take(k));
    }
}


/// The joint written before a pipeline: an `or` pipeline begins with `|| `,
/// so it runs only when the previous one failed; an `and` pipeline begins
/// with `&& `, so it runs only when the previous one succeeded; a plain
/// pipeline begins with its own text.
pub proof fn lemma_pipeline_joint(p: LoweredPipeline, indent: usize)
    ensures
        comb_text(Combinator::Or) == seq!['|', '|', ' '],
        comb_text(Combinator::And) == seq!['&', '&', ' '],
        comb_text(Combinator::Plain) == Seq::<char>::empty(),
        p.combinator == Combinator::Or ==> pipeline_text(p, indent).take(3) == seq!['|', '|', ' '],
        p.combinator == Combinator::And ==> pipeline_text(p, indent).take(3) == seq!['&', '&', ' '],
        p.combinator == Combinator::Plain ==> pipeline_text(p, indent) == (if p.negate {
            "! "@
        } else {
            seq![]
        }) + elements_text(p.elements@, p.pipe_operators@, indent) + (if p.background {
            " &"@
        } else {
            seq![]
        }),
{
    reveal_strlit("|| ");
    reveal_strlit("&& ");
    let rest = (if p.negate {
        "! "@
    } else {
        seq![]
    }) + elements_text(p.elements@, p.pipe_operators@, indent) + (if p.background {
        " &"@
    } else {
        seq![]
    });
    assert(pipeline_text(p, indent) == comb_text(p.combinator) + rest);
    if p.combinator != Combinator::Plain {
        assert(comb_text(p.combinator).len() == 3);
        assert((comb_text(p.combinator) + rest).take(3) =~= comb_text(p.combinator));
    }
    assert(comb_text(Combinator::Plain) + rest =~= rest);
}


/// The Bash operator written for each redirection: `>`, `>>`, `<`, `&>`,
/// `&>>`, `>&` and `<&` as read; fish's `<?` is written as `<` and its
/// no-clobber forms `>?`, `>>?`, `&>?`, `&>>?` as `>`, `>>`, `&>`, `&>>`.
pub proof fn lemma_redirection_texts()
    ensures
        mode_text(RedirectMode::Output) == seq!['>'],
        mode_text(RedirectMode::Append) == seq!['>', '>'],
        mode_text(RedirectMode::Input) == seq!['<'],
        mode_text(RedirectMode::OutputAndErr) == seq!['&', '>'],
        mode_text(RedirectMode::AppendAndErr) == seq!['&', '>', '>'],
        mode_text(RedirectMode::DupOutput) == seq!['>', '&'],
        mode_text(RedirectMode::DupInput) == seq!['<', '&'],
        mode_text(RedirectMode::SafeInput) == seq!['<'],
        mode_text(RedirectMode::NoClobberOutput) == seq!['>'],
        mode_text(RedirectMode::NoClobberAppend) == seq!['>', '>'],
        mode_text(RedirectMode::NoClobberOutputAndErr) == seq!['&', '>'],
        mode_text(RedirectMode::NoClobberAppendAndErr) == seq!['&', '>', '>'],
{
    reveal_strlit(">");
    reveal_strlit(">>");
    reveal_strlit("<");
    reveal_strlit("&>");
    reveal_strlit("&>>");
    reveal_strlit(">&");
    reveal_strlit("<&");
    assert(">"@ =~= seq!['>']);
    assert(">>"@ =~= seq!['>', '>']);
    assert("<"@ =~= seq!['<']);
    assert("&>"@ =~= seq!['&', '>']);
    assert("&>>"@ =~= seq!['&', '>', '>']);
    assert(">&"@ =~= seq!['>', '&']);
    assert("<&"@ =~= seq!['<', '&']);
}

/// The special parameters: `$status` is written `$?` (unquoted), and inside
/// quotes `$pipestatus` is `${PIPESTATUS[@]}`, `$fish_pid` is `$$`,
/// `$last_pid` is `$!`, `$argv` is `$@`, `$argv[n]` is `$n`, `$argv[-1]`
/// is `${@: -1:1}`, and the slice of `k` parameters from `s` is `${@:s:k}`.
pub proof fn lemma_special_variable_texts(n: usize, s: usize, k: usize)
    ensures
        var_text(LoweredVariableRef::Status) == seq!['$', '?'],
        var_inner_text(LoweredVariableRef::Pipestatus) == "${PIPESTATUS[@]}"@,
        var_inner_text(LoweredVariableRef::FishPid) == seq!['$', '$'],
        var_inner_text(LoweredVariableRef::LastPid) == seq!['$', '!'],
        var_inner_text(LoweredVariableRef::ArgvAll) == seq!['$', '@'],
        var_inner_text(LoweredVariableRef::ArgvIndex(n)) == seq!['$'] + decimal(n as nat),
        var_inner_text(LoweredVariableRef::ArgvLast) == "${@: -1:1}"@,
        var_inner_text(LoweredVariableRef::ArgvSlice { start: s, len: Some(k) }) == seq![
            '$',
            '{',
            '@',
            ':',
        ] + decimal(s as nat) + seq![':'] + decimal(k as nat) + seq!['}'],
        var_inner_text(LoweredVariableRef::ArgvSlice { start: s, len: None }) == seq![
            '$',
            '{',
            '@',
            ':',
        ] + decimal(s as nat) + seq!['}'],
{
    reveal_strlit("$?");
    reveal_strlit("$$");
    reveal_strlit("$!");
    reveal_strlit("$@");
    reveal_strlit("$");
    reveal_strlit("${@:");
    reveal_strlit(":");
    reveal_strlit("}");
    assert("$?"@ =~= seq!['$', '?']);
    assert("$$"@ =~= seq!['$', '$']);
    assert("$!"@ =~= seq!['$', '!']);
    assert("$@"@ =~= seq!['$', '@']);
    assert("$"@ =~= seq!['$']);
    assert("${@:"@ =~= seq!['$', '{', '@', ':']);
    assert(":"@ =~= seq![':']);
    assert("}"@ =~= seq!['}']);
}


/// An `if` statement reads `if COND; then` ... `fi`, followed by its
/// redirections.
pub proof fn lemma_if_keywords(i: LoweredIf, indent: usize)
    ensures
        if_text(i, indent) == seq!['i', 'f', ' '] + chain_text(i.condition@, indent) + seq![
            ';',
            ' ',
            't',
            'h',
            'e',
            'n',
            '\n',
        ] + body_text(i.then_body, sat_inc(indent)) + elifs_text(i.elif_branches@, indent)
            + else_text(i.else_body, indent) + pad_text(indent) + seq!['f', 'i'] + redirs_text(
            i.redirections@,
        ),
{
    reveal_strlit("if ");
    reveal_strlit("; then\n");
    reveal_strlit("fi");
    assert("if "@ =~= seq!['i', 'f', ' ']);
    assert("; then\n"@ =~= seq![';', ' ', 't', 'h', 'e', 'n', '\n']);
    assert("fi"@ =~= seq!['f', 'i']);
}

/// Loops read `while COND; do` ... `done` and `for VAR in VALUES; do` ...
/// `done`, followed by their redirections.
pub proof fn lemma_loop_keywords(w: LoweredWhile, f: LoweredFor, indent: usize)
    ensures
        while_text(w, indent) == seq!['w', 'h', 'i', 'l', 'e', ' '] + chain_text(w.condition@, indent)
            + seq![';', ' ', 'd', 'o', '\n'] + body_text(w.body, sat_inc(indent)) + pad_text(indent)
            + seq!['d', 'o', 'n', 'e'] + redirs_text(w.redirections@),
        for_text(f, indent) == seq!['f', 'o', 'r', ' '] + f.variable@ + seq![' ', 'i', 'n', ' ']
            + words_text(f.values@, seq![' ']) + seq![';', ' ', 'd', 'o', '\n'] + body_text(
            f.body,
            sat_inc(indent),
        ) + pad_text(indent) + seq!['d', 'o', 'n', 'e'] + redirs_text(f.redirections@),
{
    reveal_strlit("while ");
    reveal_strlit("; do\n");
    reveal_strlit("done");
    reveal_strlit("for ");
    reveal_strlit(" in ");
    reveal_strlit(" ");
    assert("while "@ =~= seq!['w', 'h', 'i', 'l', 'e', ' ']);
    assert("; do\n"@ =~= seq![';', ' ', 'd', 'o', '\n']);
    assert("done"@ =~= seq!['d', 'o', 'n', 'e']);
    assert("for "@ =~= seq!['f', 'o', 'r', ' ']);
    assert(" in "@ =~= seq![' ', 'i', 'n', ' ']);
    assert(" "@ =~= seq![' ']);
}

/// A `switch` reads `case WORD in` ... `esac`, followed by its
/// redirections.
pub proof fn lemma_case_keywords(sw: LoweredSwitch, indent: usize)
    ensures
        switch_text(sw, indent) == seq!['c', 'a', 's', 'e', ' '] + word_text(sw.value) + seq![
            ' ',
            'i',
            'n',
            '\n',
        ] + cases_text(sw.cases@, indent) + pad_text(indent) + seq!['e', 's', 'a', 'c']
            + redirs_text(sw.redirections@),
{
    reveal_strlit("case ");
    reveal_strlit(" in\n");
    reveal_strlit("esac");
    assert("case "@ =~= seq!['c', 'a', 's', 'e', ' ']);
    assert(" in\n"@ =~= seq![' ', 'i', 'n', '\n']);
    assert("esac"@ =~= seq!['e', 's', 'a', 'c']);
}


/// A function reads `NAME() {`, then one line `local ARG="$k"` for its
/// `k`-th named argument (counting from 1), its body, and `}`: each named
/// argument is bound to the positional parameter of its place.
pub proof fn lemma_function_arguments(f: LoweredFunction, indent: usize)
    ensures
        function_text(f, indent) == f.name@ + seq!['(', ')', ' ', '{', '\n'] + locals_text(
            f.named_args@,
            indent,
        ) + lines_text(f.body@, sat_inc(indent)) + nl_text(f.body@) + (if f.named_args@.len() == 0 {
            filler_text(f.body@, sat_inc(indent))
        } else {
            seq![]
        }) + pad_text(indent) + seq!['}'],
        forall|k: int|
            0 <= k < f.named_args@.len() ==> #[trigger] locals_text(f.named_args@.take(k + 1), indent)
                == locals_text(f.named_args@.take(k), indent) + pad_text(indent) + seq![
                ' ',
                ' ',
                'l',
                'o',
                'c',
                'a',
                'l',
                ' ',
            ] + f.named_args@[k]@ + seq!['=', '"', '$'] + decimal((k + 1) as nat) + seq!['"', '\n'],
{
    reveal_strlit("() {\n");
    reveal_strlit("}");
    reveal_strlit("  local ");
    reveal_strlit("=\"$");
    reveal_strlit("\"\n");
    assert("() {\n"@ =~= seq!['(', ')', ' ', '{', '\n']);
    assert("}"@ =~= seq!['}']);
    assert("  local "@ =~= seq![' ', ' ', 'l', 'o', 'c', 'a', 'l', ' ']);
    assert("=\"$"@ =~= seq!['=', '"', '$']);
    assert("\"\n"@ =~= seq!['"', '\n']);
    let args = f.named_args@;
    assert forall|k: int| 0 <= k < args.len() implies #[trigger] locals_text(args.take(k + 1), indent)
        == locals_text(args.take(k), indent) + pad_text(indent) + seq![
        ' ',
        ' ',
        'l',
        'o',
        'c',
        'a',
        'l',
        ' ',
    ] + args[k]@ + seq!['=', '"', '$'] + decimal((k + 1) as nat) + seq!['"', '\n'] by {
        let t = args.take(k + 1);
        assert(t.drop_last() =~= args.take(k));
        assert(t.last() == args[k]);
        assert(t.len() == k + 1);
    }
}


/// The subscripts of an ordinary array `a`: the element at 0-based index
/// `i` is `${a[i]}`, the `k`-th from the end `${a[-k]}`, `l` elements from
/// offset `o` `${a[@]:o:l}`, the elements from offset `o` `${a[@]:o}`, all
/// of them `${a[@]}`, and `a` unsubscripted `$a`.
pub proof fn lemma_array_texts(name: Seq<char>, i: usize, k: usize, o: usize, l: usize)
    ensures
        custom_text(name, None) == seq!['$'] + name,
        custom_text(name, Some(BashSubscript::All)) == seq!['$', '{'] + name + seq![
            '[',
            '@',
            ']',
            '}',
        ],
        custom_text(name, Some(BashSubscript::ZeroBasedIndex(i))) == seq!['$', '{'] + name + seq![
            '[',
        ] + decimal(i as nat) + seq![']', '}'],
        custom_text(name, Some(BashSubscript::NegativeOffsetFromLength(k))) == seq!['$', '{']
            + name + seq!['[', '-'] + decimal(k as nat) + seq![']', '}'],
        custom_text(name, Some(BashSubscript::Range { offset: o, length: l })) == seq!['$', '{']
            + name + seq!['[', '@', ']', ':'] + decimal(o as nat) + seq![':'] + decimal(l as nat)
            + seq!['}'],
        custom_text(name, Some(BashSubscript::OpenRange { offset: o })) == seq!['$', '{'] + name
            + seq!['[', '@', ']', ':'] + decimal(o as nat) + seq!['}'],
{
    reveal_strlit("$");
    reveal_strlit("${");
    reveal_strlit("[@]}");
    reveal_strlit("[");
    reveal_strlit("]}");
    reveal_strlit("[-");
    reveal_strlit("[@]:");
    reveal_strlit(":");
    reveal_strlit("}");
    assert("$"@ =~= seq!['$']);
    assert("${"@ =~= seq!['$', '{']);
    assert("[@]}"@ =~= seq!['[', '@', ']', '}']);
    assert("["@ =~= seq!['[']);
    assert("]}"@ =~= seq![']', '}']);
    assert("[-"@ =~= seq!['[', '-']);
    assert("[@]:"@ =~= seq!['[', '@', ']', ':']);
    assert(":"@ =~= seq![':']);
    assert("}"@ =~= seq!['}']);
}

} // verus!
