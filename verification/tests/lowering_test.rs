use hook::bash::ir::{
    AssignmentIR, BashSubscript, LoweredStatementKind, LoweredVariableRef, LoweredWordPart,
};
use hook::bash::lowering::lower_program;
use hook::grammar::parse;

#[test]
fn test_lower_set_scope_defense() {
    let input = "set -l foo 'bar'\n";
    let prog = parse(input).unwrap();
    let lowered = lower_program(&prog);
    match &lowered.statements[0].kind {
        LoweredStatementKind::Assignment(AssignmentIR::Global { name, values, .. }) => {
            assert_eq!(name, "foo");
            assert_eq!(values.len(), 1);
        }
        _ => panic!("expected Global assignment at top level for set -l"),
    }
}

#[test]
fn test_lower_set_in_function() {
    let input = "function test_fn\nset -l foo 'bar'\nend\n";
    let prog = parse(input).unwrap();
    let lowered = lower_program(&prog);
    match &lowered.statements[0].kind {
        LoweredStatementKind::Function(f) => match &f.body[0].kind {
            LoweredStatementKind::Assignment(AssignmentIR::Local { name, .. }) => {
                assert_eq!(name, "foo");
            }
            _ => panic!("expected Local assignment inside function"),
        },
        _ => panic!("expected function"),
    }
}

#[test]
fn test_lower_psub_detection() {
    let input = "diff (sort file1 | psub) (sort file2 | psub)\n";
    let prog = parse(input).unwrap();
    let lowered = lower_program(&prog);
    match &lowered.statements[0].kind {
        LoweredStatementKind::Pipeline(p) => {
            let arg1 = &p.commands()[0].args[1];
            match &arg1.parts[0] {
                LoweredWordPart::ProcessSubst(pipeline) => {
                    assert_eq!(pipeline.commands().len(), 1);
                    assert_eq!(pipeline.commands()[0].args[0].as_literal(), Some("sort"));
                }
                _ => panic!("expected ProcessSubst"),
            }
        }
        _ => panic!("expected pipeline"),
    }
}

#[test]
fn test_lower_builtin_vars_and_slices() {
    let input = "echo $status $pipestatus $argv $argv[1] $argv[2..-1] $argv[-1] $var[-1]\n";
    let prog = parse(input).unwrap();
    let lowered = lower_program(&prog);
    match &lowered.statements[0].kind {
        LoweredStatementKind::Pipeline(p) => {
            let args = &p.commands()[0].args;
            assert_eq!(args.len(), 8);
            assert_eq!(args[1].parts[0], LoweredWordPart::Variable(LoweredVariableRef::Status));
            assert_eq!(args[2].parts[0], LoweredWordPart::Variable(LoweredVariableRef::Pipestatus));
            assert_eq!(args[3].parts[0], LoweredWordPart::Variable(LoweredVariableRef::ArgvAll));
            assert_eq!(args[4].parts[0], LoweredWordPart::Variable(LoweredVariableRef::ArgvIndex(1)));
            assert_eq!(
                args[5].parts[0],
                LoweredWordPart::Variable(LoweredVariableRef::ArgvSlice { start: 2, len: None })
            );
            assert_eq!(args[6].parts[0], LoweredWordPart::Variable(LoweredVariableRef::ArgvLast));
            assert_eq!(
                args[7].parts[0],
                LoweredWordPart::Variable(LoweredVariableRef::Custom {
                    name: "var".to_string(),
                    subscript: Some(BashSubscript::NegativeOffsetFromLength(1)),
                })
            );
        }
        _ => panic!("expected pipeline"),
    }
}

#[test]
fn test_lower_spans_are_kept() {
    let prog = parse("echo a\n\necho b\n").unwrap();
    let lowered = lower_program(&prog);
    assert_eq!(lowered.statements[0].span, prog.statements[0].span);
    assert_eq!(lowered.statements[1].span.start_line, 3);
}

#[test]
fn test_lower_global_in_function_and_export() {
    let prog = parse("function f\nset -g x 1\nset -x y 2\nend\n").unwrap();
    let lowered = lower_program(&prog);
    match &lowered.statements[0].kind {
        LoweredStatementKind::Function(f) => {
            assert!(matches!(
                &f.body[0].kind,
                LoweredStatementKind::Assignment(AssignmentIR::Global { in_function: true, .. })
            ));
            assert!(matches!(
                &f.body[1].kind,
                LoweredStatementKind::Assignment(AssignmentIR::Export { .. })
            ));
        }
        _ => panic!("expected function"),
    }
}

#[test]
fn test_lower_set_query() {
    let prog = parse("set -q foo\nset --query argv\n").unwrap();
    let lowered = lower_program(&prog);
    let texts: Vec<Vec<String>> = lowered
        .statements
        .iter()
        .map(|s| match &s.kind {
            LoweredStatementKind::Pipeline(p) => p.commands()[0]
                .args
                .iter()
                .map(|w| w.as_literal().unwrap_or("?").to_string())
                .collect(),
            _ => panic!("expected pipeline"),
        })
        .collect();
    assert_eq!(texts[0], vec!["[", "-n", "\"${foo:-}\"", "]"]);
    assert_eq!(texts[1], vec!["[", "$#", "-gt", "0", "]"]);
}

#[test]
fn test_push_words_splits_on_unicode_whitespace() {
    let mut b = hook::bash::lowering::helpers::WordsBuilder::new();
    b.push_words("(for __hook_item in");
    b.push_words("a\u{a0}b\u{3000}c");
    let words = b.into_vec();
    let texts: Vec<Option<&str>> = words.iter().map(|w| w.as_literal()).collect();
    assert_eq!(
        texts,
        vec![Some("(for"), Some("__hook_item"), Some("in"), Some("a"), Some("b"), Some("c")]
    );
}

#[test]
fn test_set_flag_precedence() {
    let prog = parse("set -a -e x 1\nset -l -x y 2\nset -p -a z 3\n").unwrap();
    let lowered = lower_program(&prog);
    match &lowered.statements[0].kind {
        LoweredStatementKind::Assignment(AssignmentIR::Erase { name }) => assert_eq!(name, "x"),
        _ => panic!("expected erase"),
    }
    match &lowered.statements[1].kind {
        LoweredStatementKind::Assignment(AssignmentIR::Export { name, .. }) => assert_eq!(name, "y"),
        _ => panic!("expected export"),
    }
    match &lowered.statements[2].kind {
        LoweredStatementKind::Assignment(AssignmentIR::Append { name, .. }) => assert_eq!(name, "z"),
        _ => panic!("expected append"),
    }
}

#[test]
fn test_count_without_arguments() {
    let c = hook::ast::Command { assignments: vec![], args: vec![], redirections: vec![] };
    let scope = hook::bash::lowering::Scope { in_function: false, in_for_values: false };
    let l = hook::bash::lowering::builtins::count::lower_count(&c, &scope).unwrap();
    let texts: Vec<Option<&str>> = l.args.iter().map(|w| w.as_literal()).collect();
    assert_eq!(texts, vec![Some("(set"), Some("--"), Some(";"), Some("printf"), Some("'%s\\n'"), Some("\"$#\")")]);
}

#[test]
fn test_bash32_notice() {
    assert_eq!(hook::target::Target::Bash5.unsupported_notice(), None);
    assert_eq!(
        hook::target::Target::Bash3_2.unsupported_notice(),
        Some("target 'bash3.2' will be supported in an upcoming release; modern Bash 5.0+ is the current target")
    );
}
