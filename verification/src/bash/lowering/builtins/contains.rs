//! `contains [-i] NEEDLE HAYSTACK...`: whether (and, with `-i`, where) the
//! needle occurs among the haystack, as an inline Bash loop in a subshell.

use vstd::prelude::*;
use crate::ast::{single_literal, Command, Word, WordPart};
use crate::bash::ir::{lowered_literal, LoweredCommand, LoweredWord};
use crate::bash::lowering::helpers::{extract_single_variable, literal_words, single_variable, WordsBuilder};
use crate::bash::lowering::{lower_redirections, lower_word, redirs_lower, word_lower, Scope};
use crate::text::{lemma_ws_words_at, lemma_ws_words_end, str_eq, ws_words};

verus! {

/// The options `contains` recognises before `--`.
pub open spec fn contains_opt(t: Seq<char>) -> bool {
    t == "--"@ || t == "-i"@ || t == "--index"@ || t == "-q"@ || t == "--query"@
}

/// Whether a `--` occurs among the arguments `1..j`.
pub open spec fn stopped_before(args: Seq<Word>, j: int) -> bool {
    exists|i: int| 1 <= i < j && single_literal(#[trigger] args[i]) == Some("--"@)
}

/// Whether argument `j` is taken as an option.
pub open spec fn consumed(args: Seq<Word>, j: int) -> bool {
    !stopped_before(args, j) && match single_literal(args[j]) {
        Some(t) => contains_opt(t),
        None => false,
    }
}

/// The positions among `1..n` of the arguments that are operands.
pub open spec fn operand_idx(args: Seq<Word>, n: int) -> Seq<int>
    decreases n,
{
    if n <= 1 {
        seq![]
    } else {
        operand_idx(args, n - 1) + (if consumed(args, n - 1) {
            seq![]
        } else {
            seq![n - 1]
        })
    }
}

/// Whether `-i`/`--index` occurs as an option among the arguments `1..n`.
pub open spec fn index_flag(args: Seq<Word>, n: int) -> bool {
    exists|j: int|
        1 <= j < n && !stopped_before(args, j) && (single_literal(#[trigger] args[j]) == Some("-i"@)
            || single_literal(args[j]) == Some("--index"@))
}

/// A haystack item: `$var` or `"$var"` becomes the quoted expansion of the
/// whole array (`"$@"` for `argv`); any other word lowers as usual.
pub open spec fn hay_lower(h: Word, l: LoweredWord, scope: Scope) -> bool
    decreases h, 1int,
{
    match single_variable(h) {
        Some(v) => lowered_literal(l) == Some(
            if v == "argv"@ {
                "\"$@\""@
            } else {
                "\"${"@ + v + "[@]}\""@
            },
        ),
        None => word_lower(h, l, scope),
    }
}

/// The needle: a single literal is double-quoted as written; any other
/// word lowers as usual.
pub open spec fn needle_lower(n: Word, l: LoweredWord, scope: Scope) -> bool
    decreases n, 1int,
{
    if n.parts@.len() == 1 && n.parts@[0] is Literal {
        match n.parts@[0] {
            WordPart::Literal(s) => lowered_literal(l) == Some("\""@ + s@ + "\""@),
            _ => false,
        }
    } else {
        word_lower(n, l, scope)
    }
}

pub open spec fn index_prefix() -> Seq<Seq<char>> {
    ws_words("(__hook_i=1; for __hook_item in"@)
}

pub open spec fn plain_prefix() -> Seq<Seq<char>> {
    ws_words("(for __hook_item in"@)
}

pub open spec fn middle() -> Seq<Seq<char>> {
    ws_words("; do [ \"$__hook_item\" ="@)
}

pub open spec fn index_suffix() -> Seq<Seq<char>> {
    ws_words(
        "] && { printf '%s\\n' \"$__hook_i\"; exit 0; }; __hook_i=$((__hook_i + 1)); done; exit 1)"@,
    )
}

pub open spec fn plain_suffix() -> Seq<Seq<char>> {
    ws_words("] && exit 0; done; exit 1)"@)
}

/// The words before the haystack in the plain search loop.
proof fn lemma_plain_prefix_words()
    ensures
        plain_prefix() == seq!["(for"@, "__hook_item"@, "in"@],
{
    let s = "(for __hook_item in"@;
    reveal_strlit("(for __hook_item in");
    reveal_strlit("(for");
    reveal_strlit("__hook_item");
    reveal_strlit("in");
    lemma_ws_words_at(s, 0, "(for"@);
    lemma_ws_words_at(s, 5, "__hook_item"@);
    lemma_ws_words_end(s, 17, "in"@);
    assert(s.skip(0) =~= s);
}

/// The words before the haystack in the indexed search loop.
proof fn lemma_index_prefix_words()
    ensures
        index_prefix() == seq!["(__hook_i=1;"@, "for"@, "__hook_item"@, "in"@],
{
    let s = "(__hook_i=1; for __hook_item in"@;
    reveal_strlit("(__hook_i=1; for __hook_item in");
    reveal_strlit("(__hook_i=1;");
    reveal_strlit("__hook_item");
    reveal_strlit("for");
    reveal_strlit("in");
    lemma_ws_words_at(s, 0, "(__hook_i=1;"@);
    lemma_ws_words_at(s, 13, "for"@);
    lemma_ws_words_at(s, 17, "__hook_item"@);
    lemma_ws_words_end(s, 29, "in"@);
    assert(s.skip(0) =~= s);
}

/// The words between the haystack and the needle.
proof fn lemma_middle_words()
    ensures
        middle() == seq![";"@, "do"@, "["@, "\"$__hook_item\""@, "="@],
{
    let s = "; do [ \"$__hook_item\" ="@;
    reveal_strlit("; do [ \"$__hook_item\" =");
    reveal_strlit("\"$__hook_item\"");
    reveal_strlit(";");
    reveal_strlit("=");
    reveal_strlit("[");
    reveal_strlit("do");
    lemma_ws_words_at(s, 0, ";"@);
    lemma_ws_words_at(s, 2, "do"@);
    lemma_ws_words_at(s, 5, "["@);
    lemma_ws_words_at(s, 7, "\"$__hook_item\""@);
    lemma_ws_words_end(s, 22, "="@);
    assert(s.skip(0) =~= s);
}

/// The words after the needle in the indexed search loop.
proof fn lemma_index_suffix_words()
    ensures
        index_suffix() == seq![
            "]"@,
            "&&"@,
            "{"@,
            "printf"@,
            "'%s\\n'"@,
            "\"$__hook_i\";"@,
            "exit"@,
            "0;"@,
            "};"@,
            "__hook_i=$((__hook_i"@,
            "+"@,
            "1));"@,
            "done;"@,
            "exit"@,
            "1)"@,
        ],
{
    let s = "] && { printf '%s\\n' \"$__hook_i\"; exit 0; }; __hook_i=$((__hook_i + 1)); done; exit 1)"@;
    reveal_strlit("] && { printf '%s\\n' \"$__hook_i\"; exit 0; }; __hook_i=$((__hook_i + 1)); done; exit 1)");
    reveal_strlit("\"$__hook_i\";");
    reveal_strlit("&&");
    reveal_strlit("'%s\\n'");
    reveal_strlit("+");
    reveal_strlit("0;");
    reveal_strlit("1)");
    reveal_strlit("1));");
    reveal_strlit("]");
    reveal_strlit("__hook_i=$((__hook_i");
    reveal_strlit("done;");
    reveal_strlit("exit");
    reveal_strlit("printf");
    reveal_strlit("{");
    reveal_strlit("};");
    lemma_ws_words_at(s, 0, "]"@);
    lemma_ws_words_at(s, 2, "&&"@);
    lemma_ws_words_at(s, 5, "{"@);
    lemma_ws_words_at(s, 7, "printf"@);
    lemma_ws_words_at(s, 14, "'%s\\n'"@);
    lemma_ws_words_at(s, 21, "\"$__hook_i\";"@);
    lemma_ws_words_at(s, 34, "exit"@);
    lemma_ws_words_at(s, 39, "0;"@);
    lemma_ws_words_at(s, 42, "};"@);
    lemma_ws_words_at(s, 45, "__hook_i=$((__hook_i"@);
    lemma_ws_words_at(s, 66, "+"@);
    lemma_ws_words_at(s, 68, "1));"@);
    lemma_ws_words_at(s, 73, "done;"@);
    lemma_ws_words_at(s, 79, "exit"@);
    lemma_ws_words_end(s, 84, "1)"@);
    assert(s.skip(0) =~= s);
}

/// The words after the needle in the plain search loop.
proof fn lemma_plain_suffix_words()
    ensures
        plain_suffix() == seq!["]"@, "&&"@, "exit"@, "0;"@, "done;"@, "exit"@, "1)"@],
{
    let s = "] && exit 0; done; exit 1)"@;
    reveal_strlit("] && exit 0; done; exit 1)");
    reveal_strlit("&&");
    reveal_strlit("0;");
    reveal_strlit("1)");
    reveal_strlit("]");
    reveal_strlit("done;");
    reveal_strlit("exit");
    lemma_ws_words_at(s, 0, "]"@);
    lemma_ws_words_at(s, 2, "&&"@);
    lemma_ws_words_at(s, 5, "exit"@);
    lemma_ws_words_at(s, 10, "0;"@);
    lemma_ws_words_at(s, 13, "done;"@);
    lemma_ws_words_at(s, 19, "exit"@);
    lemma_ws_words_end(s, 24, "1)"@);
    assert(s.skip(0) =~= s);
}

/// The words of the search loop: `p1`, the haystack, `p2`, the needle, `p3`.
pub open spec fn loop_words(
    ls: Seq<LoweredWord>,
    p1: Seq<Seq<char>>,
    p2: Seq<Seq<char>>,
    p3: Seq<Seq<char>>,
    args: Seq<Word>,
    ops: Seq<int>,
    scope: Scope,
) -> bool
    decreases args, 0int,
{
    let h = ops.len() - 1;
    let a = p1.len();
    let b = a + h;
    let c = b + p2.len();
    &&& ops.len() >= 1
    &&& ls.len() == c + 1 + p3.len()
    &&& literal_words(ls.subrange(0, a as int), p1)
    &&& forall|k: int|
        0 <= k < h ==> 0 <= ops[k + 1] < args.len() && hay_lower(
            #[trigger] args[ops[k + 1]],
            ls[a + k],
            scope,
        )
    &&& literal_words(ls.subrange(b, c), p2)
    &&& 0 <= ops[0] < args.len() && needle_lower(args[ops[0]], ls[c], scope)
    &&& literal_words(ls.skip(c + 1), p3)
}

/// The lowering of `contains`: with no operand, `(exit 1)`; otherwise a
/// subshell loop over the haystack that exits 0 on the first item equal to
/// the needle (printing its 1-based position with `-i`) and 1 otherwise.
/// Redirections are kept, variable overrides dropped.
pub open spec fn contains_lower(c: Command, l: LoweredCommand, scope: Scope) -> bool
    decreases c, 0int,
{
    let args = c.args@;
    let ops = operand_idx(args, args.len() as int);
    &&& l.assignments@.len() == 0
    &&& if ops.len() == 0 {
        literal_words(l.args@, seq!["(exit"@, "1)"@]) && l.redirections@.len() == 0
    } else {
        &&& redirs_lower(c.redirections@, l.redirections@, scope)
        &&& if index_flag(args, args.len() as int) {
            loop_words(l.args@, index_prefix(), middle(), index_suffix(), args, ops, scope)
        } else {
            loop_words(l.args@, plain_prefix(), middle(), plain_suffix(), args, ops, scope)
        }
    }
}

proof fn lemma_operand_idx_bounds(args: Seq<Word>, n: int)
    ensures
        forall|k: int| 0 <= k < operand_idx(args, n).len() ==> 1 <= #[trigger] operand_idx(args, n)[k] < n,
    decreases n,
{
    if n > 1 {
        lemma_operand_idx_bounds(args, n - 1);
        let prev = operand_idx(args, n - 1);
        assert forall|k: int| 0 <= k < operand_idx(args, n).len() implies 1 <= #[trigger] operand_idx(
            args,
            n,
        )[k] < n by {
            if k < prev.len() {
                assert(operand_idx(args, n)[k] == prev[k]);
            }
        }
    }
}

fn lower_hay(h: &Word, scope: &Scope) -> (r: LoweredWord)
    ensures
        hay_lower(*h, r, *scope),
    decreases h, 1int,
{
    match extract_single_variable(h) {
        Some(var) => {
            if str_eq(var, "argv") {
                LoweredWord::from_literal("\"$@\"")
            } else {
                let mut s = String::new();
                s.append("\"${");
                s.append(var);
                s.append("[@]}\"");
                LoweredWord::from_string(s)
            }
        },
        None => lower_word(h, scope),
    }
}

fn lower_needle(n: &Word, scope: &Scope) -> (r: LoweredWord)
    ensures
        needle_lower(*n, r, *scope),
    decreases n, 1int,
{
    if n.parts.len() == 1 {
        if let WordPart::Literal(s) = &n.parts[0] {
            let mut t = String::new();
            t.append("\"");
            t.append(s.as_str());
            t.append("\"");
            return LoweredWord::from_string(t);
        }
    }
    lower_word(n, scope)
}

/// The lowering of `contains` (see `contains_lower`).
pub fn lower_contains(c: &Command, scope: &Scope) -> (r: Option<LoweredCommand>)
    ensures
        r matches Some(l) && contains_lower(*c, l, *scope),
    decreases c, 0int,
{
    let ghost args = c.args@;
    let mut is_index = false;
    let mut stop_options = false;
    let mut ops: Vec<usize> = Vec::new();
    let mut i: usize = 1;
    if c.args.len() == 0 {
        i = 0;
    }
    while i < c.args.len()
        invariant
            args == c.args@,
            args.len() == 0 ==> i == 0,
            args.len() > 0 ==> 1 <= i,
            i <= args.len(),
            stop_options == stopped_before(args, i as int),
            is_index == index_flag(args, i as int),
            ops@.len() == operand_idx(args, i as int).len(),
            forall|k: int| 0 <= k < ops@.len() ==> ops@[k] as int == operand_idx(args, i as int)[k],
        decreases args.len() - i,
    {
        let arg = &c.args[i];
        let ghost prev_ops = operand_idx(args, i as int);
        let ghost stop0 = stop_options;
        let ghost idx0 = is_index;
        let mut taken = false;
        if !stop_options {
            if let Some(lit) = arg.as_single_literal() {
                if str_eq(lit, "--") {
                    stop_options = true;
                    taken = true;
                } else if str_eq(lit, "-i") || str_eq(lit, "--index") {
                    is_index = true;
                    taken = true;
                } else if str_eq(lit, "-q") || str_eq(lit, "--query") {
                    taken = true;
                }
            }
        }
        proof {
            assert(taken == consumed(args, i as int));
            assert(operand_idx(args, i + 1) == prev_ops + (if taken {
                seq![]
            } else {
                seq![i as int]
            }));
        }
        if !taken {
            ops.push(i);
        }
        proof {
            assert(stop_options == stopped_before(args, i + 1)) by {
                if stopped_before(args, i + 1) && !stopped_before(args, i as int) {
                    let w = choose|w: int| 1 <= w < i + 1 && single_literal(#[trigger] args[w]) == Some("--"@);
                    assert(w == i);
                }
            }
            assert(is_index == index_flag(args, i + 1)) by {
                reveal_strlit("--");
                reveal_strlit("-i");
                reveal_strlit("--index");
                assert(args[i as int] == *arg);
                if idx0 {
                    let w = choose|w: int|
                        1 <= w < i && !stopped_before(args, w) && (single_literal(
                            #[trigger] args[w],
                        ) == Some("-i"@) || single_literal(args[w]) == Some("--index"@));
                    assert(1 <= w < i + 1 && !stopped_before(args, w) && (single_literal(args[w])
                        == Some("-i"@) || single_literal(args[w]) == Some("--index"@)));
                    assert(index_flag(args, i + 1));
                } else if is_index {
                    assert(!stopped_before(args, i as int));
                    assert(single_literal(args[i as int]) == Some("-i"@) || single_literal(
                        args[i as int],
                    ) == Some("--index"@));
                    assert(index_flag(args, i + 1));
                } else if index_flag(args, i + 1) {
                    let w = choose|w: int|
                        1 <= w < i + 1 && !stopped_before(args, w) && (single_literal(
                            #[trigger] args[w],
                        ) == Some("-i"@) || single_literal(args[w]) == Some("--index"@));
                    if w < i {
                        assert(index_flag(args, i as int));
                    }
                    assert(w == i);
                    assert(!stop0);
                    assert("-i"@[1] != "--"@[1]);
                    assert("--index"@.len() != "--"@.len());
                    assert(false);
                }
            }
        }
        i = i + 1;
    }
    proof {
        if args.len() == 0 {
            assert(operand_idx(args, 0) =~= Seq::<int>::empty());
        }
        lemma_operand_idx_bounds(args, args.len() as int);
    }
    if ops.len() == 0 {
        let mut a: Vec<LoweredWord> = Vec::new();
        a.push(LoweredWord::from_literal("(exit"));
        a.push(LoweredWord::from_literal("1)"));
        let l = LoweredCommand { assignments: Vec::new(), args: a, redirections: Vec::new() };
        proof {
            assert(literal_words(l.args@, seq!["(exit"@, "1)"@]));
        }
        return Some(l);
    }
    let ghost opsv = operand_idx(args, args.len() as int);
    let lowered_needle = lower_needle(&c.args[ops[0]], scope);
    let mut builder = WordsBuilder::new();
    if is_index {
        builder.push_words("(__hook_i=1; for __hook_item in");
    } else {
        builder.push_words("(for __hook_item in");
    }
    let ghost b1 = builder@;
    let mut k: usize = 1;
    while k < ops.len()
        invariant
            1 <= k <= ops@.len(),
            ops@.len() == opsv.len(),
            forall|q: int| 0 <= q < ops@.len() ==> ops@[q] as int == opsv[q],
            forall|q: int| 0 <= q < opsv.len() ==> 1 <= #[trigger] opsv[q] < args.len(),
            args == c.args@,
            builder@.len() == b1.len() + (k - 1),
            builder@.subrange(0, b1.len() as int) == b1,
            forall|q: int|
                0 <= q < k - 1 ==> hay_lower(#[trigger] args[opsv[q + 1]], builder@[b1.len() + q], *scope),
        decreases ops@.len() - k,
    {
        assert(ops@[k as int] as int == opsv[k as int]);
        assert(1 <= opsv[k as int] < args.len());
        let h = lower_hay(&c.args[ops[k]], scope);
        let ghost before = builder@;
        builder.push(h);
        proof {
            assert(builder@.subrange(0, b1.len() as int) =~= before.subrange(0, b1.len() as int));
            assert forall|q: int| 0 <= q < k implies hay_lower(
                #[trigger] args[opsv[q + 1]],
                builder@[b1.len() + q],
                *scope,
            ) by {
                if q < k - 1 {
                    assert(builder@[b1.len() + q] == before[b1.len() + q]);
                }
            }
        }
        k = k + 1;
    }
    let ghost b2 = builder@;
    builder.push_words("; do [ \"$__hook_item\" =");
    let ghost b3 = builder@;
    let ghost ln = lowered_needle;
    builder.push(lowered_needle);
    let ghost b4 = builder@;
    if is_index {
        builder.push_words(
            "] && { printf '%s\\n' \"$__hook_i\"; exit 0; }; __hook_i=$((__hook_i + 1)); done; exit 1)",
        );
    } else {
        builder.push_words("] && exit 0; done; exit 1)");
    }
    let ghost b5 = builder@;
    let words = builder.into_vec();
    let redirections = lower_redirections(&c.redirections, scope);
    let l = LoweredCommand { assignments: Vec::new(), args: words, redirections };
    proof {
        let p1 = if is_index { index_prefix() } else { plain_prefix() };
        let p3 = if is_index { index_suffix() } else { plain_suffix() };
        let ls = l.args@;
        let h = opsv.len() - 1;
        assert(b1 =~= b1.skip(0));
        assert(b1.len() == p1.len());
        assert(ls.subrange(0, p1.len() as int) =~= b1);
        assert(b4.subrange(0, b2.len() as int) =~= b2);
        assert(ls.subrange(0, b4.len() as int) == b4);
        assert(ls.subrange(0, b2.len() as int) =~= b2);
        assert(b2.len() == b1.len() + h);
        assert forall|q: int| 0 <= q < h implies 0 <= opsv[q + 1] < args.len() && hay_lower(
            #[trigger] args[opsv[q + 1]],
            ls[p1.len() + q],
            *scope,
        ) by {
            assert(ls[p1.len() + q] == ls.subrange(0, b2.len() as int)[b1.len() + q]);
        }
        assert(ls.subrange(0, b3.len() as int) =~= b3);
        assert(ls.subrange(p1.len() + h, p1.len() + h + middle().len()) =~= b3.skip(b2.len() as int));
        assert(b3.len() == b2.len() + middle().len());
        assert(ls[b3.len() as int] == ls.subrange(0, b4.len() as int)[b3.len() as int]);
        assert(ls[p1.len() + h + middle().len()] == ln);
        assert(ls.skip(p1.len() + h + middle().len() + 1) =~= b5.skip(b4.len() as int));
        assert(opsv[0] == ops@[0] as int);
    }
    Some(l)
}


/// With at least one operand and no `-i`, `contains NEEDLE HAY...` lowers to
/// `(for __hook_item in HAY...; do [ "$__hook_item" = NEEDLE ] && exit 0; done; exit 1)`:
/// the subshell exits with status 0 as soon as a haystack item equals the
/// needle, and with status 1 when none does.
pub proof fn lemma_contains_plain_loop(c: Command, l: LoweredCommand, scope: Scope)
    requires
        contains_lower(c, l, scope),
        operand_idx(c.args@, c.args@.len() as int).len() > 0,
        !index_flag(c.args@, c.args@.len() as int),
    ensures
        ({
            let args = c.args@;
            let ops = operand_idx(args, args.len() as int);
            let ws = l.args@;
            let h = ops.len() - 1;
            &&& ws.len() == h + 16
            &&& lowered_literal(ws[0]) == Some("(for"@)
            &&& lowered_literal(ws[1]) == Some("__hook_item"@)
            &&& lowered_literal(ws[2]) == Some("in"@)
            &&& forall|k: int| 0 <= k < h ==> hay_lower(#[trigger] args[ops[k + 1]], ws[3 + k], scope)
            &&& lowered_literal(ws[h + 3]) == Some(";"@)
            &&& lowered_literal(ws[h + 4]) == Some("do"@)
            &&& lowered_literal(ws[h + 5]) == Some("["@)
            &&& lowered_literal(ws[h + 6]) == Some("\"$__hook_item\""@)
            &&& lowered_literal(ws[h + 7]) == Some("="@)
            &&& needle_lower(args[ops[0]], ws[h + 8], scope)
            &&& lowered_literal(ws[h + 9]) == Some("]"@)
            &&& lowered_literal(ws[h + 10]) == Some("&&"@)
            &&& lowered_literal(ws[h + 11]) == Some("exit"@)
            &&& lowered_literal(ws[h + 12]) == Some("0;"@)
            &&& lowered_literal(ws[h + 13]) == Some("done;"@)
            &&& lowered_literal(ws[h + 14]) == Some("exit"@)
            &&& lowered_literal(ws[h + 15]) == Some("1)"@)
        }),
{
    let args = c.args@;
    let ops = operand_idx(args, args.len() as int);
    let ws = l.args@;
    let h = ops.len() - 1;
    lemma_plain_prefix_words();
    lemma_middle_words();
    lemma_plain_suffix_words();
    assert(ws.subrange(0, 3)[0] == ws[0]);
    assert(ws.subrange(0, 3)[1] == ws[1]);
    assert(ws.subrange(0, 3)[2] == ws[2]);
    assert forall|j: int| 0 <= j < 5 implies lowered_literal(#[trigger] ws[h + 3 + j]) == Some(
        middle()[j],
    ) by {
        assert(ws.subrange(h + 3, h + 8)[j] == ws[h + 3 + j]);
    }
    assert forall|j: int| 0 <= j < 7 implies lowered_literal(#[trigger] ws[h + 9 + j]) == Some(
        plain_suffix()[j],
    ) by {
        assert(ws.skip(h + 9)[j] == ws[h + 9 + j]);
    }
    assert(lowered_literal(ws[h + 3 + 0]) == Some(middle()[0]));
    assert(lowered_literal(ws[h + 3 + 1]) == Some(middle()[1]));
    assert(lowered_literal(ws[h + 3 + 2]) == Some(middle()[2]));
    assert(lowered_literal(ws[h + 3 + 3]) == Some(middle()[3]));
    assert(lowered_literal(ws[h + 3 + 4]) == Some(middle()[4]));
    assert(lowered_literal(ws[h + 9 + 0]) == Some(plain_suffix()[0]));
    assert(lowered_literal(ws[h + 9 + 1]) == Some(plain_suffix()[1]));
    assert(lowered_literal(ws[h + 9 + 2]) == Some(plain_suffix()[2]));
    assert(lowered_literal(ws[h + 9 + 3]) == Some(plain_suffix()[3]));
    assert(lowered_literal(ws[h + 9 + 4]) == Some(plain_suffix()[4]));
    assert(lowered_literal(ws[h + 9 + 5]) == Some(plain_suffix()[5]));
    assert(lowered_literal(ws[h + 9 + 6]) == Some(plain_suffix()[6]));
}


/// With `-i` (or `--index`) and at least one operand, `contains -i NEEDLE HAY...`
/// lowers to `(__hook_i=1; for __hook_item in HAY...; do [ "$__hook_item" = NEEDLE ]
/// && { printf '%s\n' "$__hook_i"; exit 0; }; __hook_i=$((__hook_i + 1)); done; exit 1)`:
/// the 1-based position of the first haystack item equal to the needle is
/// printed and the status is 0; when none is equal nothing is printed and the
/// status is 1.
pub proof fn lemma_contains_index_loop(c: Command, l: LoweredCommand, scope: Scope)
    requires
        contains_lower(c, l, scope),
        operand_idx(c.args@, c.args@.len() as int).len() > 0,
        index_flag(c.args@, c.args@.len() as int),
    ensures
        ({
            let args = c.args@;
            let ops = operand_idx(args, args.len() as int);
            let ws = l.args@;
            let h = ops.len() - 1;
            &&& ws.len() == h + 25
            &&& lowered_literal(ws[0]) == Some("(__hook_i=1;"@)
            &&& lowered_literal(ws[1]) == Some("for"@)
            &&& lowered_literal(ws[2]) == Some("__hook_item"@)
            &&& lowered_literal(ws[3]) == Some("in"@)
            &&& forall|k: int| 0 <= k < h ==> hay_lower(#[trigger] args[ops[k + 1]], ws[4 + k], scope)
            &&& lowered_literal(ws[h + 4]) == Some(";"@)
            &&& lowered_literal(ws[h + 5]) == Some("do"@)
            &&& lowered_literal(ws[h + 6]) == Some("["@)
            &&& lowered_literal(ws[h + 7]) == Some("\"$__hook_item\""@)
            &&& lowered_literal(ws[h + 8]) == Some("="@)
            &&& needle_lower(args[ops[0]], ws[h + 9], scope)
            &&& lowered_literal(ws[h + 10]) == Some("]"@)
            &&& lowered_literal(ws[h + 11]) == Some("&&"@)
            &&& lowered_literal(ws[h + 12]) == Some("{"@)
            &&& lowered_literal(ws[h + 13]) == Some("printf"@)
            &&& lowered_literal(ws[h + 14]) == Some("'%s\\n'"@)
            &&& lowered_literal(ws[h + 15]) == Some("\"$__hook_i\";"@)
            &&& lowered_literal(ws[h + 16]) == Some("exit"@)
            &&& lowered_literal(ws[h + 17]) == Some("0;"@)
            &&& lowered_literal(ws[h + 18]) == Some("};"@)
            &&& lowered_literal(ws[h + 19]) == Some("__hook_i=$((__hook_i"@)
            &&& lowered_literal(ws[h + 20]) == Some("+"@)
            &&& lowered_literal(ws[h + 21]) == Some("1));"@)
            &&& lowered_literal(ws[h + 22]) == Some("done;"@)
            &&& lowered_literal(ws[h + 23]) == Some("exit"@)
            &&& lowered_literal(ws[h + 24]) == Some("1)"@)
        }),
{
    let args = c.args@;
    let ops = operand_idx(args, args.len() as int);
    let ws = l.args@;
    let h = ops.len() - 1;
    lemma_index_prefix_words();
    lemma_middle_words();
    lemma_index_suffix_words();
    assert forall|j: int| 0 <= j < 4 implies lowered_literal(#[trigger] ws[j]) == Some(
        index_prefix()[j],
    ) by {
        assert(ws.subrange(0, 4)[j] == ws[j]);
    }
    assert forall|j: int| 0 <= j < 5 implies lowered_literal(#[trigger] ws[h + 4 + j]) == Some(
        middle()[j],
    ) by {
        assert(ws.subrange(h + 4, h + 9)[j] == ws[h + 4 + j]);
    }
    assert forall|j: int| 0 <= j < 15 implies lowered_literal(#[trigger] ws[h + 10 + j]) == Some(
        index_suffix()[j],
    ) by {
        assert(ws.skip(h + 10)[j] == ws[h + 10 + j]);
    }
    assert(lowered_literal(ws[0]) == Some(index_prefix()[0]));
    assert(lowered_literal(ws[1]) == Some(index_prefix()[1]));
    assert(lowered_literal(ws[2]) == Some(index_prefix()[2]));
    assert(lowered_literal(ws[3]) == Some(index_prefix()[3]));
    assert(lowered_literal(ws[h + 4 + 0]) == Some(middle()[0]));
    assert(lowered_literal(ws[h + 4 + 1]) == Some(middle()[1]));
    assert(lowered_literal(ws[h + 4 + 2]) == Some(middle()[2]));
    assert(lowered_literal(ws[h + 4 + 3]) == Some(middle()[3]));
    assert(lowered_literal(ws[h + 4 + 4]) == Some(middle()[4]));
    assert(lowered_literal(ws[h + 10 + 0]) == Some(index_suffix()[0]));
    assert(lowered_literal(ws[h + 10 + 1]) == Some(index_suffix()[1]));
    assert(lowered_literal(ws[h + 10 + 2]) == Some(index_suffix()[2]));
    assert(lowered_literal(ws[h + 10 + 3]) == Some(index_suffix()[3]));
    assert(lowered_literal(ws[h + 10 + 4]) == Some(index_suffix()[4]));
    assert(lowered_literal(ws[h + 10 + 5]) == Some(index_suffix()[5]));
    assert(lowered_literal(ws[h + 10 + 6]) == Some(index_suffix()[6]));
    assert(lowered_literal(ws[h + 10 + 7]) == Some(index_suffix()[7]));
    assert(lowered_literal(ws[h + 10 + 8]) == Some(index_suffix()[8]));
    assert(lowered_literal(ws[h + 10 + 9]) == Some(index_suffix()[9]));
    assert(lowered_literal(ws[h + 10 + 10]) == Some(index_suffix()[10]));
    assert(lowered_literal(ws[h + 10 + 11]) == Some(index_suffix()[11]));
    assert(lowered_literal(ws[h + 10 + 12]) == Some(index_suffix()[12]));
    assert(lowered_literal(ws[h + 10 + 13]) == Some(index_suffix()[13]));
    assert(lowered_literal(ws[h + 10 + 14]) == Some(index_suffix()[14]));
}


/// A haystack operand that is one variable (bare or in double quotes) is
/// searched item by item: `$argv` as `"$@"`, any other `$v` as
/// `"${v[@]}"`.
pub proof fn lemma_haystack_variable(h: Word, l: LoweredWord, scope: Scope, v: Seq<char>)
    requires
        hay_lower(h, l, scope),
        single_variable(h) == Some(v),
    ensures
        v == "argv"@ ==> lowered_literal(l) == Some(seq!['"', '$', '@', '"']),
        v != "argv"@ ==> lowered_literal(l) == Some(
            seq!['"', '$', '{'] + v + seq!['[', '@', ']', '}', '"'],
        ),
{
    reveal_strlit("\"$@\"");
    reveal_strlit("\"${");
    reveal_strlit("[@]}\"");
    assert("\"$@\""@ =~= seq!['"', '$', '@', '"']);
    assert("\"${"@ =~= seq!['"', '$', '{']);
    assert("[@]}\""@ =~= seq!['[', '@', ']', '}', '"']);
}

/// A needle that is one literal is compared as that text in double quotes.
pub proof fn lemma_needle_literal(n: Word, l: LoweredWord, scope: Scope, t: Seq<char>)
    requires
        needle_lower(n, l, scope),
        n.parts@.len() == 1,
        n.parts@[0] matches WordPart::Literal(x) && x@ == t,
    ensures
        lowered_literal(l) == Some(seq!['"'] + t + seq!['"']),
{
    reveal_strlit("\"");
    assert("\""@ =~= seq!['"']);
}

} // verus!
