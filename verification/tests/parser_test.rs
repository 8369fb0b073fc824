use hook::ast::{
    Combinator, Command, PipeOperator, PipelineElement, RedirectMode, Slice, SliceIndex, SourceSpan,
    Statement, StatementKind, VariableRef, VariableTarget, Word, WordPart,
};
use hook::grammar::parse;
use hook::unescape::{unescape, unescape_double_quoted, unescape_single_quoted};
use hook::version;

fn named(name: &str, slices: Vec<Slice>) -> VariableRef {
    VariableRef { target: VariableTarget::Named(name.to_string()), slices }
}

fn first_command_args(st: &Statement) -> &Vec<Word> {
    match &st.kind {
        StatementKind::Pipeline(p) => &p.commands()[0].args,
        _ => panic!("expected pipeline"),
    }
}

#[test]
fn test_version() {
    assert_eq!(version(), "0.1.0");
}

#[test]
fn test_unescape_basic_control_chars() {
    assert_eq!(unescape(r"\a\e\f\n\r\t\v"), "\x07\x1b\x0c\n\r\t\x0b");
}

#[test]
fn test_unescape_hex() {
    assert_eq!(unescape(r"\x41\x09"), "A\t");
    assert_eq!(unescape(r"\X42"), "B");
}

#[test]
fn test_unescape_octal() {
    assert_eq!(unescape(r"\011"), "\t");
    assert_eq!(unescape(r"\101"), "A");
}

#[test]
fn test_unescape_unicode() {
    assert_eq!(unescape(r"\u0041"), "A");
    assert_eq!(unescape(r"\U00000041"), "A");
    assert_eq!(unescape(r"\u4e2d\u6587"), "中文");
}

#[test]
fn test_unescape_control_sequence() {
    assert_eq!(unescape(r"\ci"), "\t");
    assert_eq!(unescape(r"\ca"), "\x01");
}

#[test]
fn test_unescape_single_quoted() {
    assert_eq!(unescape_single_quoted(r"hello\'world"), "hello'world");
    assert_eq!(unescape_single_quoted(r"hello\\world"), "hello\\world");
    assert_eq!(unescape_single_quoted(r"hello\nworld"), "hello\\nworld");
}

#[test]
fn test_unescape_double_quoted() {
    assert_eq!(unescape_double_quoted(r#"hello\"world"#), "hello\"world");
    assert_eq!(unescape_double_quoted(r"hello\$world"), "hello$world");
    assert_eq!(unescape_double_quoted(r"hello\\world"), "hello\\world");
    assert_eq!(unescape_double_quoted("hello\\\nworld"), "helloworld");
    assert_eq!(unescape_double_quoted(r"hello\nworld"), "hello\\nworld");
}

#[test]
fn test_parse_shebang_and_simple_command() {
    let input = "#!/usr/bin/env fish\necho 'hello world'\n";
    let program = parse(input).expect("parsing failed");
    assert_eq!(program.shebang, Some("#!/usr/bin/env fish".to_string()));
    assert_eq!(program.statements.len(), 1);
    match &program.statements[0].kind {
        StatementKind::Pipeline(p) => {
            assert_eq!(p.commands().len(), 1);
            let cmd = p.commands()[0];
            assert_eq!(cmd.args[0].as_single_literal(), Some("echo"));
            assert_eq!(cmd.args[1].parts, vec![WordPart::SingleQuoted("hello world".to_string())]);
        }
        _ => panic!("expected pipeline statement"),
    }
}

#[test]
fn test_parse_variables_and_slices() {
    let input = "echo $status $argv[1] $var[1..3] $var[-1]\n";
    let program = parse(input).expect("parsing failed");
    let args = first_command_args(&program.statements[0]);
    assert_eq!(args.len(), 5);
    assert_eq!(args[1].parts, vec![WordPart::Variable(named("status", vec![]))]);
    assert_eq!(
        args[2].parts,
        vec![WordPart::Variable(named("argv", vec![Slice::Index(SliceIndex::Pos(1))]))]
    );
    assert_eq!(
        args[3].parts,
        vec![WordPart::Variable(named(
            "var",
            vec![Slice::Range { start: Some(SliceIndex::Pos(1)), end: Some(SliceIndex::Pos(3)) }]
        ))]
    );
    assert_eq!(
        args[4].parts,
        vec![WordPart::Variable(named("var", vec![Slice::Index(SliceIndex::Neg(1))]))]
    );
}

#[test]
fn test_parse_command_substitution_and_psub() {
    let input = "diff (sort a | psub) (sort b | psub)\n";
    let program = parse(input).expect("parsing failed");
    let args = first_command_args(&program.statements[0]);
    assert_eq!(args.len(), 3);
    match &args[1].parts[0] {
        WordPart::CommandSubst { statements, .. } => {
            assert_eq!(statements.len(), 1);
        }
        _ => panic!("expected CommandSubst"),
    }
}

#[test]
fn test_parse_if_statement() {
    let input = r#"
if test -f foo
    echo yes
else if test -d foo
    echo dir
else
    echo no
end
"#;
    let program = parse(input).expect("parsing failed");
    assert_eq!(program.statements.len(), 1);
    match &program.statements[0].kind {
        StatementKind::If(if_stmt) => {
            assert_eq!(if_stmt.then_body.len(), 1);
            assert_eq!(if_stmt.elif_branches.len(), 1);
            assert!(if_stmt.else_body.is_some());
        }
        _ => panic!("expected if statement"),
    }
}

#[test]
fn test_parse_function() {
    let input = r#"
function greet -a name title -d "greets a person"
    echo "Hello $title $name"
end
"#;
    let program = parse(input).expect("parsing failed");
    match &program.statements[0].kind {
        StatementKind::Function(f) => {
            assert_eq!(f.name.as_single_literal(), Some("greet"));
            let options: Vec<Option<&str>> = f.options.iter().map(|w| w.as_single_literal()).collect();
            assert_eq!(options[..4].to_vec(), vec![Some("-a"), Some("name"), Some("title"), Some("-d")]);
            assert_eq!(
                f.options[4].parts,
                vec![WordPart::DoubleQuoted(vec![WordPart::Literal("greets a person".to_string())])]
            );
            assert_eq!(f.body.len(), 1);
        }
        _ => panic!("expected function statement"),
    }
}

#[test]
fn test_parse_spans_and_blank_lines() {
    let program = parse("echo a\n\necho b; echo c\nif true\n  echo d\nend\n").unwrap();
    let spans: Vec<SourceSpan> = program.statements.iter().map(|s| s.span).collect();
    assert_eq!(
        spans,
        vec![SourceSpan::new(1, 1), SourceSpan::new(3, 3), SourceSpan::new(3, 3), SourceSpan::new(4, 6)]
    );
    match &program.statements[3].kind {
        StatementKind::If(i) => assert_eq!(i.then_body[0].span, SourceSpan::new(5, 5)),
        _ => panic!("expected if statement"),
    }
}

#[test]
fn test_parse_pipes_and_redirections() {
    let program = parse("make 2>| less\ncat a &| tee b\ncmd &>>? log <?in 2>&1\n").unwrap();
    match &program.statements[0].kind {
        StatementKind::Pipeline(p) => {
            assert_eq!(p.pipe_operators, vec![PipeOperator::Fd(2)]);
            assert_eq!(p.commands()[0].args.len(), 1);
        }
        _ => panic!("expected pipeline"),
    }
    match &program.statements[1].kind {
        StatementKind::Pipeline(p) => assert_eq!(p.pipe_operators, vec![PipeOperator::StdoutAndStderr]),
        _ => panic!("expected pipeline"),
    }
    match &program.statements[2].kind {
        StatementKind::Pipeline(p) => {
            let modes: Vec<RedirectMode> = p.commands()[0].redirections.iter().map(|r| r.mode).collect();
            assert_eq!(
                modes,
                vec![RedirectMode::NoClobberAppendAndErr, RedirectMode::SafeInput, RedirectMode::DupOutput]
            );
            assert_eq!(p.commands()[0].redirections[2].fd, Some(2));
        }
        _ => panic!("expected pipeline"),
    }
}

#[test]
fn test_parse_blocks_in_pipelines_and_combinators() {
    let program = parse("begin; echo a; end | grep a\ntrue; and begin\necho b\nend\n").unwrap();
    match &program.statements[0].kind {
        StatementKind::Pipeline(p) => {
            assert_eq!(p.elements.len(), 2);
            assert!(matches!(p.elements[0], PipelineElement::Block(_)));
        }
        _ => panic!("expected pipeline"),
    }
    match &program.statements[2].kind {
        StatementKind::BeginBlock(b) => assert_eq!(b.combinator, Combinator::And),
        _ => panic!("expected begin block"),
    }
}

#[test]
fn test_parse_braces_and_assignments() {
    let program = parse("echo {a,b} HEAD@{2} {}\nGIT_DIR=repo git status\nnot true\n").unwrap();
    let args = first_command_args(&program.statements[0]);
    assert!(matches!(&args[1].parts[0], WordPart::BraceExpansion(ws) if ws.len() == 2));
    assert_eq!(
        args[2].parts,
        vec![WordPart::Literal("HEAD@".to_string()), WordPart::Literal("{2}".to_string())]
    );
    assert_eq!(args[3].parts, vec![WordPart::Literal("{}".to_string())]);
    match &program.statements[1].kind {
        StatementKind::Pipeline(p) => {
            let c = p.commands()[0];
            assert_eq!(c.assignments.len(), 1);
            assert_eq!(c.assignments[0].name, "GIT_DIR");
            assert_eq!(c.args.len(), 2);
        }
        _ => panic!("expected pipeline"),
    }
    match &program.statements[2].kind {
        StatementKind::Pipeline(p) => assert!(p.negate),
        _ => panic!("expected pipeline"),
    }
}

#[test]
fn test_parse_error_position() {
    let err = parse("if ; echo\n").unwrap_err();
    assert_eq!(err.line, 1);
    assert_eq!(err.column, 4);
    assert_eq!(err.offset, 3);
    assert!(!err.expected.is_empty());
    assert!(parse("echo 'unterminated\n").is_err());
}

#[test]
fn test_parse_byte_order_mark_and_empty() {
    let program = parse("\u{feff}echo hi\n").unwrap();
    assert_eq!(program.statements.len(), 1);
    let empty = parse("").unwrap();
    assert!(empty.statements.is_empty());
    assert_eq!(empty.shebang, None);
}

#[test]
fn test_word_helpers() {
    let w = Word::from_literal("echo");
    assert_eq!(w.as_single_literal(), Some("echo"));
    let v = VariableRef::new_named("x", vec![]);
    assert_eq!(v.name(), Some("x"));
}

#[test]
fn test_parse_ampersand_inside_words() {
    let program = parse("curl a?x=1&y=2 &z\nsleep 5 &\n").unwrap();
    let args = first_command_args(&program.statements[0]);
    assert_eq!(args.len(), 3);
    assert_eq!(args[1].as_single_literal(), Some("a?x=1&y=2"));
    assert_eq!(args[2].as_single_literal(), Some("&z"));
    match &program.statements[0].kind {
        StatementKind::Pipeline(p) => assert!(!p.background),
        _ => panic!("expected pipeline"),
    }
    match &program.statements[1].kind {
        StatementKind::Pipeline(p) => assert!(p.background),
        _ => panic!("expected pipeline"),
    }
}

#[test]
fn test_command_as_pipeline_element() {
    let cmd = Command { assignments: vec![], args: vec![Word::from_literal("ls")], redirections: vec![] };
    let el: PipelineElement = cmd.into();
    match el {
        PipelineElement::Command(c) => assert_eq!(c.args[0].as_single_literal(), Some("ls")),
        PipelineElement::Block(_) => panic!("expected a command"),
    }
}
