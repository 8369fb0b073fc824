//! `count`: the number of its arguments. `count $var` becomes the length of
//! the Bash array; with output sent to `/dev/null` it becomes a test that the
//! count is positive.

use vstd::prelude::*;
use crate::ast::{single_literal, Command, RedirectMode, Redirection, Word};
use crate::bash::ir::{lowered_literal, LoweredCommand, LoweredRedirection, LoweredWord};
use crate::bash::lowering::helpers::{extract_single_variable, literal_words, single_variable, WordsBuilder};
use crate::bash::lowering::{
    lemma_words_lower_each, lower_redirections, lower_words_from, redirs_lower, word_lower,
    words_lower, Scope,
};
use crate::text::{decimal, decimal_string, lemma_ws_words_at, lemma_ws_words_end, str_eq, ws_words};

verus! {

/// Output or output-and-error redirected to the literal `/dev/null`.
pub open spec fn is_devnull_redir(r: Redirection) -> bool {
    (r.mode == RedirectMode::Output || r.mode == RedirectMode::OutputAndErr) && single_literal(
        r.target,
    ) == Some("/dev/null"@)
}

pub open spec fn has_devnull(rs: Seq<Redirection>) -> bool {
    exists|i: int| 0 <= i < rs.len() && is_devnull_redir(#[trigger] rs[i])
}

/// The Bash length of the list held by `var` (`$#` for `argv`), quoted.
pub open spec fn count_expr(var: Seq<char>) -> Seq<char> {
    if var == "argv"@ {
        "\"$#\""@
    } else {
        "\"${#"@ + var + "[@]}\""@
    }
}

/// The words counted: all but the command name (none without one).
pub open spec fn count_operands(args: Seq<Word>) -> Seq<Word> {
    if args.len() == 0 {
        args
    } else {
        args.skip(1)
    }
}

pub open spec fn count_prefix() -> Seq<Seq<char>> {
    ws_words("(set --"@)
}

pub open spec fn count_suffix() -> Seq<Seq<char>> {
    ws_words("; printf '%s\\n' \"$#\")"@)
}

/// The words before the counted arguments.
proof fn lemma_count_prefix_words()
    ensures
        count_prefix() == seq!["(set"@, "--"@],
{
    let s = "(set --"@;
    reveal_strlit("(set --");
    reveal_strlit("(set");
    reveal_strlit("--");
    lemma_ws_words_at(s, 0, "(set"@);
    lemma_ws_words_end(s, 5, "--"@);
    assert(s.skip(0) =~= s);
}

/// The words after the counted arguments.
proof fn lemma_count_suffix_words()
    ensures
        count_suffix() == seq![";"@, "printf"@, "'%s\\n'"@, "\"$#\")"@],
{
    let s = "; printf '%s\\n' \"$#\")"@;
    reveal_strlit("; printf '%s\\n' \"$#\")");
    reveal_strlit("\"$#\")");
    reveal_strlit("'%s\\n'");
    reveal_strlit(";");
    reveal_strlit("printf");
    lemma_ws_words_at(s, 0, ";"@);
    lemma_ws_words_at(s, 2, "printf"@);
    lemma_ws_words_at(s, 9, "'%s\\n'"@);
    lemma_ws_words_end(s, 16, "\"$#\")"@);
    assert(s.skip(0) =~= s);
}

/// The lowering of `count ARGS...`:
/// - `count $var` prints the array length, or with output to `/dev/null`
///   tests `[ LEN -gt 0 ]`;
/// - `count` alone prints `0` (tests `[ 0 -gt 0 ]`);
/// - otherwise the arguments are counted by `(set -- ARGS; printf '%s\n' "$#")`,
///   or with output to `/dev/null` the number of arguments is tested.
/// Redirections are kept except in the test forms; variable overrides are dropped.
pub open spec fn count_lower(c: Command, l: LoweredCommand, scope: Scope) -> bool
    decreases c, 0int,
{
    let args = c.args@;
    let devnull = has_devnull(c.redirections@);
    &&& l.assignments@.len() == 0
    &&& if args.len() == 2 && single_variable(args[1]) is Some {
        let e = count_expr(single_variable(args[1]).unwrap());
        if devnull {
            literal_words(l.args@, seq!["["@, e, "-gt"@, "0"@, "]"@]) && l.redirections@.len() == 0
        } else {
            literal_words(l.args@, seq!["printf"@, "'%s\\n'"@, e]) && redirs_lower(
                c.redirections@,
                l.redirections@,
                scope,
            )
        }
    } else if args.len() == 1 {
        if devnull {
            literal_words(l.args@, seq!["["@, "0"@, "-gt"@, "0"@, "]"@]) && l.redirections@.len()
                == 0
        } else {
            literal_words(l.args@, seq!["printf"@, "'%s\\n'"@, "0"@]) && redirs_lower(
                c.redirections@,
                l.redirections@,
                scope,
            )
        }
    } else if devnull {
        args.len() >= 1 && literal_words(
            l.args@,
            seq!["["@, decimal((args.len() - 1) as nat), "-gt"@, "0"@, "]"@],
        ) && l.redirections@.len() == 0
    } else {
        let pre = count_prefix();
        let post = count_suffix();
        let operands = count_operands(args);
        let n = operands.len() as int;
        &&& l.args@.len() == pre.len() + n + post.len()
        &&& literal_words(l.args@.subrange(0, pre.len() as int), pre)
        &&& words_lower(operands, l.args@.subrange(pre.len() as int, pre.len() + n), scope)
        &&& literal_words(l.args@.skip(pre.len() + n), post)
        &&& redirs_lower(c.redirections@, l.redirections@, scope)
    }
}

fn has_devnull_redir(rs: &Vec<Redirection>) -> (r: bool)
    ensures
        r == has_devnull(rs@),
{
    let mut i: usize = 0;
    while i < rs.len()
        invariant
            i <= rs@.len(),
            forall|j: int| 0 <= j < i ==> !is_devnull_redir(#[trigger] rs@[j]),
        decreases rs@.len() - i,
    {
        let m = rs[i].mode;
        let out_mode = match m {
            RedirectMode::Output => true,
            RedirectMode::OutputAndErr => true,
            _ => false,
        };
        if out_mode {
            match rs[i].target.as_single_literal() {
                Some(t) => {
                    if str_eq(t, "/dev/null") {
                        assert(is_devnull_redir(rs@[i as int]));
                        return true;
                    }
                },
                None => {},
            }
        }
        i = i + 1;
    }
    false
}

fn literal_list(texts: &[&str]) -> (r: Vec<LoweredWord>)
    ensures
        r@.len() == texts@.len(),
        forall|i: int| 0 <= i < r@.len() ==> crate::bash::ir::lowered_literal(#[trigger] r@[i]) == Some(texts@[i]@),
{
    let mut r: Vec<LoweredWord> = Vec::new();
    let mut i: usize = 0;
    while i < texts.len()
        invariant
            i <= texts@.len(),
            r@.len() == i,
            forall|k: int| 0 <= k < i ==> crate::bash::ir::lowered_literal(#[trigger] r@[k]) == Some(texts@[k]@),
        decreases texts@.len() - i,
    {
        r.push(LoweredWord::from_literal(texts[i]));
        i = i + 1;
    }
    r
}

/// The lowering of `count` (see `count_lower`).
pub fn lower_count(c: &Command, scope: &Scope) -> (r: Option<LoweredCommand>)
    requires
        c.args@.len() > 0 || !has_devnull(c.redirections@),
    ensures
        r matches Some(l) && count_lower(*c, l, *scope),
    decreases c, 0int,
{
    let devnull = has_devnull_redir(&c.redirections);
    if c.args.len() == 2 {
        if let Some(var) = extract_single_variable(&c.args[1]) {
            let expr: String = if str_eq(var, "argv") {
                let mut e = String::new();
                e.append("\"$#\"");
                e
            } else {
                let mut e = String::new();
                e.append("\"${#");
                e.append(var);
                e.append("[@]}\"");
                e
            };
            let ghost ev = expr@;
            proof {
                assert(ev == count_expr(single_variable(c.args@[1]).unwrap()));
            }
            if devnull {
                let mut args: Vec<LoweredWord> = Vec::new();
                args.push(LoweredWord::from_literal("["));
                args.push(LoweredWord::from_string(expr));
                args.push(LoweredWord::from_literal("-gt"));
                args.push(LoweredWord::from_literal("0"));
                args.push(LoweredWord::from_literal("]"));
                let l = LoweredCommand { assignments: Vec::new(), args, redirections: Vec::new() };
                proof {
                    assert(literal_words(l.args@, seq!["["@, ev, "-gt"@, "0"@, "]"@]));
                }
                return Some(l);
            } else {
                let mut args: Vec<LoweredWord> = Vec::new();
                args.push(LoweredWord::from_literal("printf"));
                args.push(LoweredWord::from_literal("'%s\\n'"));
                args.push(LoweredWord::from_string(expr));
                let redirections = lower_redirections(&c.redirections, scope);
                let l = LoweredCommand { assignments: Vec::new(), args, redirections };
                proof {
                    assert(literal_words(l.args@, seq!["printf"@, "'%s\\n'"@, ev]));
                }
                return Some(l);
            }
        }
    } else if c.args.len() == 1 {
        if devnull {
            let args = literal_list(&["[", "0", "-gt", "0", "]"]);
            let l = LoweredCommand { assignments: Vec::new(), args, redirections: Vec::new() };
            proof {
                assert(literal_words(l.args@, seq!["["@, "0"@, "-gt"@, "0"@, "]"@]));
            }
            return Some(l);
        } else {
            let args = literal_list(&["printf", "'%s\\n'", "0"]);
            let redirections = lower_redirections(&c.redirections, scope);
            let l = LoweredCommand { assignments: Vec::new(), args, redirections };
            proof {
                assert(literal_words(l.args@, seq!["printf"@, "'%s\\n'"@, "0"@]));
            }
            return Some(l);
        }
    }
    if devnull {
        let count_str = decimal_string((c.args.len() - 1) as u64);
        let mut args: Vec<LoweredWord> = Vec::new();
        args.push(LoweredWord::from_literal("["));
        args.push(LoweredWord::from_string(count_str));
        args.push(LoweredWord::from_literal("-gt"));
        args.push(LoweredWord::from_literal("0"));
        args.push(LoweredWord::from_literal("]"));
        let l = LoweredCommand { assignments: Vec::new(), args, redirections: Vec::new() };
        proof {
            assert(literal_words(
                l.args@,
                seq!["["@, decimal((c.args@.len() - 1) as nat), "-gt"@, "0"@, "]"@],
            ));
        }
        Some(l)
    } else {
        let mut sub_args = WordsBuilder::new();
        sub_args.push_words("(set --");
        let ghost a1 = sub_args@;
        let start: usize = if c.args.len() == 0 {
            0
        } else {
            1
        };
        let lowered = lower_words_from(&c.args, start, scope);
        let ghost lw = lowered@;
        sub_args.extend(lowered);
        let ghost a2 = sub_args@;
        sub_args.push_words("; printf '%s\\n' \"$#\")");
        let ghost a3 = sub_args@;
        let args = sub_args.into_vec();
        let redirections = lower_redirections(&c.redirections, scope);
        let l = LoweredCommand { assignments: Vec::new(), args, redirections };
        proof {
            let pre = count_prefix();
            let post = count_suffix();
            let n = count_operands(c.args@).len() as int;
            assert(c.args@.skip(start as int) =~= count_operands(c.args@));
            assert(a1 =~= a1.skip(0));
            assert(l.args@.subrange(0, pre.len() as int) =~= a1);
            assert(lw.len() == n);
            assert(a1.len() == pre.len());
            assert(a3.subrange(0, a2.len() as int) == a2);
            assert(l.args@.subrange(pre.len() as int, pre.len() + n) =~= lw) by {
                assert forall|j: int| 0 <= j < n implies #[trigger] l.args@.subrange(
                    pre.len() as int,
                    pre.len() + n,
                )[j] == lw[j] by {
                    assert(l.args@[pre.len() + j] == a3.subrange(0, a2.len() as int)[pre.len() + j]);
                    assert(a2[a1.len() + j] == lw[j]);
                }
            }
            assert(l.args@.skip(pre.len() + n) =~= a3.skip(a2.len() as int));
        }
        Some(l)
    }
}


/// `count A1 ... An` (with `n >= 1`, not a lone variable, output not sent to
/// `/dev/null`) lowers to `(set -- A1' ... An'; printf '%s\n' "$#")`, where
/// each `Ai'` is the lowering of `Ai`: every argument after the command name
/// is counted, so the subshell prints `n`.
pub proof fn lemma_count_arguments(c: Command, l: LoweredCommand, scope: Scope)
    requires
        count_lower(c, l, scope),
        c.args@.len() >= 2,
        !(c.args@.len() == 2 && single_variable(c.args@[1]) is Some),
        !has_devnull(c.redirections@),
    ensures
        ({
            let args = c.args@;
            let ws = l.args@;
            let n = args.len() as int;
            &&& ws.len() == n + 5
            &&& lowered_literal(ws[0]) == Some("(set"@)
            &&& lowered_literal(ws[1]) == Some("--"@)
            &&& forall|i: int| 1 <= i < n ==> word_lower(#[trigger] args[i], ws[i + 1], scope)
            &&& lowered_literal(ws[n + 1]) == Some(";"@)
            &&& lowered_literal(ws[n + 2]) == Some("printf"@)
            &&& lowered_literal(ws[n + 3]) == Some("'%s\\n'"@)
            &&& lowered_literal(ws[n + 4]) == Some("\"$#\")"@)
        }),
{
    let args = c.args@;
    let ws = l.args@;
    let n = args.len() as int;
    lemma_count_prefix_words();
    lemma_count_suffix_words();
    let operands = count_operands(args);
    assert(operands == args.skip(1));
    let mid = ws.subrange(2, n + 1);
    lemma_words_lower_each(operands, mid, scope);
    assert forall|i: int| 1 <= i < n implies word_lower(#[trigger] args[i], ws[i + 1], scope) by {
        assert(operands[i - 1] == args[i]);
        assert(mid[i - 1] == ws[i + 1]);
    }
    assert(ws.subrange(0, 2)[0] == ws[0]);
    assert(ws.subrange(0, 2)[1] == ws[1]);
    assert forall|j: int| 0 <= j < 4 implies lowered_literal(#[trigger] ws[n + 1 + j]) == Some(
        count_suffix()[j],
    ) by {
        assert(ws.skip(n + 1)[j] == ws[n + 1 + j]);
    }
    assert(lowered_literal(ws[n + 1 + 0]) == Some(count_suffix()[0]));
    assert(lowered_literal(ws[n + 1 + 1]) == Some(count_suffix()[1]));
    assert(lowered_literal(ws[n + 1 + 2]) == Some(count_suffix()[2]));
    assert(lowered_literal(ws[n + 1 + 3]) == Some(count_suffix()[3]));
}


/// `count $v` gives the length of the list `v` (`"$#"` for `$argv`,
/// `"${#v[@]}"` otherwise): printed with `printf '%s\n'`, or with output
/// sent to `/dev/null` tested with `[ LEN -gt 0 ]`.
pub proof fn lemma_count_list_length(c: Command, l: LoweredCommand, scope: Scope, v: Seq<char>)
    requires
        count_lower(c, l, scope),
        c.args@.len() == 2,
        single_variable(c.args@[1]) == Some(v),
    ensures
        ({
            let ws = l.args@;
            let len = if v == "argv"@ {
                "\"$#\""@
            } else {
                "\"${#"@ + v + "[@]}\""@
            };
            &&& has_devnull(c.redirections@) ==> ws.len() == 5 && lowered_literal(ws[0]) == Some(
                "["@,
            ) && lowered_literal(ws[1]) == Some(len) && lowered_literal(ws[2]) == Some("-gt"@)
                && lowered_literal(ws[3]) == Some("0"@) && lowered_literal(ws[4]) == Some("]"@)
                && l.redirections@.len() == 0
            &&& !has_devnull(c.redirections@) ==> ws.len() == 3 && lowered_literal(ws[0]) == Some(
                "printf"@,
            ) && lowered_literal(ws[1]) == Some("'%s\\n'"@) && lowered_literal(ws[2]) == Some(len)
        }),
{
}

/// `count` with nothing to count prints `0`; with output sent to
/// `/dev/null`, `count A1 ... An` (not a lone variable) becomes the test
/// `[ n -gt 0 ]` on the number `n` of arguments after the command name.
pub proof fn lemma_count_tests(c: Command, l: LoweredCommand, scope: Scope)
    requires
        count_lower(c, l, scope),
        c.args@.len() >= 1,
        !(c.args@.len() == 2 && single_variable(c.args@[1]) is Some),
    ensures
        ({
            let ws = l.args@;
            let n = c.args@.len() - 1;
            &&& n == 0 && !has_devnull(c.redirections@) ==> ws.len() == 3 && lowered_literal(ws[0])
                == Some("printf"@) && lowered_literal(ws[1]) == Some("'%s\\n'"@) && lowered_literal(
                ws[2],
            ) == Some("0"@)
            &&& has_devnull(c.redirections@) ==> ws.len() == 5 && lowered_literal(ws[0]) == Some(
                "["@,
            ) && lowered_literal(ws[1]) == Some(decimal(n as nat)) && lowered_literal(ws[2])
                == Some("-gt"@) && lowered_literal(ws[3]) == Some("0"@) && lowered_literal(ws[4])
                == Some("]"@) && l.redirections@.len() == 0
        }),
{
    reveal_strlit("0");
    assert(decimal(0) =~= "0"@);
}

} // verus!
