//! What each grammar rule builds: relations between a position in the
//! input, where the rule matches (see `syntax`), and the syntax-tree value
//! the parser returns for that match: the words and their parts, and the
//! commands and redirections made of them. The statements are related to
//! their positions in `statements`.

use vstd::prelude::*;
use crate::ast::{
    Command, Redirection, Slice, SliceIndex, VariableAssignment, VariableRef, VariableTarget, Word,
    WordPart,
};
use crate::grammar::syntax;
use crate::grammar::statements::stmts_value;
use crate::grammar::syntax::{
    at, brace, digits_end, dq_alternative, double_quoted, dq_part, dq_scan, lit, literal_scan, number,
    part_alternative, single_quoted, skip_ws, slice, slice_element, slice_index, sq_scan,
    statement_list, var_name, variable_ref, word, word_part, ws1,
};
use crate::text::digits_value;
use crate::unescape::{unescape_double_quoted_spec, unescape_single_quoted_spec, unescape_spec};

verus! {

/// Where the parts of the word at `p` start.
pub open spec fn part_starts(s: Seq<char>, p: int, in_brace: bool) -> Seq<int>
    decreases s.len() - p,
{
    match word_part(s, p, in_brace) {
        Some(e) => if p < e <= s.len() {
            seq![p] + part_starts(s, e, in_brace)
        } else {
            seq![]
        },
        None => seq![],
    }
}

/// Where the parts inside double quotes start, from `c`.
pub open spec fn dq_starts(s: Seq<char>, c: int) -> Seq<int>
    decreases s.len() - c,
{
    match dq_part(s, c) {
        Some(e) => if c < e <= s.len() {
            seq![c] + dq_starts(s, e)
        } else {
            seq![]
        },
        None => seq![],
    }
}

/// Where the elements of the slice brackets from `c` start, after the
/// first element of a bracket.
pub open spec fn elem_starts(s: Seq<char>, c: int) -> Seq<int>
    decreases s.len() - c,
{
    match ws1(s, c) {
        Some(q) => if c < q <= s.len() {
            match slice_element(s, q) {
                Some(e) => if c < e <= s.len() {
                    seq![q] + elem_starts(s, e)
                } else {
                    seq![]
                },
                None => seq![],
            }
        } else {
            seq![]
        },
        None => seq![],
    }
}

/// Where the elements of the bracket at `p` start.
pub open spec fn bracket_starts(s: Seq<char>, p: int) -> Seq<int> {
    let q = skip_ws(s, p + 1);
    seq![q] + elem_starts(s, slice_element(s, q).unwrap())
}

/// Where the elements of all slice brackets from `p` on start.
pub open spec fn slice_starts(s: Seq<char>, p: int) -> Seq<int>
    decreases s.len() - p,
{
    match slice(s, p) {
        Some(e) => if p < e <= s.len() {
            bracket_starts(s, p) + slice_starts(s, e)
        } else {
            seq![]
        },
        None => seq![],
    }
}

/// Where the items of the brace expansion from `p` start.
pub open spec fn brace_item_starts(s: Seq<char>, p: int) -> Seq<int>
    decreases s.len() - p,
{
    let e = match word(s, p, true) {
        Some(e) => e,
        None => p,
    };
    if p <= e <= s.len() {
        let q = skip_ws(s, e);
        if at(s, q, ',') && p < skip_ws(s, q + 1) <= s.len() {
            seq![p] + brace_item_starts(s, skip_ws(s, q + 1))
        } else {
            seq![p]
        }
    } else {
        seq![]
    }
}

/// Whether the word part at `p` is a variable.
pub open spec fn part_is_variable(s: Seq<char>, p: int) -> bool {
    single_quoted(s, p) is None && double_quoted(s, p) is None && variable_ref(s, p) is Some
}

/// Whether the brace item at `p` has a variable among its parts.
pub open spec fn item_has_variable(s: Seq<char>, p: int) -> bool {
    exists|k: int|
        0 <= k < part_starts(s, p, true).len() && part_is_variable(
            s,
            #[trigger] part_starts(s, p, true)[k],
        )
}

/// Where the target of the variable reference at `p` (its name, or the
/// inner reference) ends.
pub open spec fn target_end(s: Seq<char>, p: int) -> int {
    match variable_ref(s, p + 1) {
        Some(e) => e,
        None => var_name(s, p + 1).unwrap(),
    }
}

/// A brace expansion with a comma (more than one item) or a variable
/// expands; otherwise the braces and what they hold are literal text.
pub open spec fn brace_expands(s: Seq<char>, st: Seq<int>) -> bool {
    st.len() > 1 || exists|i: int| 0 <= i < st.len() && item_has_variable(s, #[trigger] st[i])
}

/// The reference at `p`: `$$...` refers indirectly through the reference
/// after the first `$`, `$NAME` by name; the slices follow.
pub open spec fn var_value(s: Seq<char>, p: int, v: VariableRef) -> bool
    decreases v,
{
    &&& match v.target {
        VariableTarget::Indirect(b) => variable_ref(s, p + 1) is Some && var_value(s, p + 1, *b),
        VariableTarget::Named(n) => variable_ref(s, p + 1) is None && n@ == s.subrange(
            p + 1,
            target_end(s, p),
        ),
    }
    &&& slices_value(s, target_end(s, p), v.slices@)
}

/// The slices from `p`: one per element, over all brackets.
pub open spec fn slices_value(s: Seq<char>, p: int, ss: Seq<Slice>) -> bool
    decreases ss,
{
    let st = slice_starts(s, p);
    &&& ss.len() == st.len()
    &&& forall|i: int| 0 <= i < st.len() ==> element_value(s, st[i], #[trigger] ss[i])
}

/// A slice element: a range (`start..end`, each end optional) or an index.
pub open spec fn element_value(s: Seq<char>, p: int, x: Slice) -> bool
    decreases x,
{
    let pe = match slice_index(s, p) {
        Some(e) => e,
        None => p,
    };
    match lit(s, skip_ws(s, pe), ".."@) {
        Some(e) => match x {
            Slice::Range { start, end } => opt_index_value(s, p, start) && opt_index_value(
                s,
                skip_ws(s, e),
                end,
            ),
            Slice::Index(_) => false,
        },
        None => match x {
            Slice::Index(i) => index_value(s, p, i),
            Slice::Range { .. } => false,
        },
    }
}

pub open spec fn opt_index_value(s: Seq<char>, p: int, o: Option<SliceIndex>) -> bool
    decreases o,
{
    match o {
        Some(i) => slice_index(s, p) is Some && index_value(s, p, i),
        None => slice_index(s, p) is None,
    }
}

/// `-N` counts from the end, `N` from the start; otherwise a variable.
pub open spec fn index_value(s: Seq<char>, p: int, x: SliceIndex) -> bool
    decreases x,
{
    if lit(s, p, "-"@) is Some && number(s, p + 1, usize::MAX as nat) is Some {
        x == SliceIndex::Neg(number(s, p + 1, usize::MAX as nat).unwrap().0 as usize)
    } else if number(s, p, usize::MAX as nat) is Some {
        x == SliceIndex::Pos(number(s, p, usize::MAX as nat).unwrap().0 as usize)
    } else {
        match x {
            SliceIndex::Variable(v) => var_value(s, p, v),
            _ => false,
        }
    }
}

/// The word at `p`: its parts, in order.
pub open spec fn word_value(s: Seq<char>, p: int, in_brace: bool, w: Word) -> bool
    decreases w, 3int,
{
    let st = part_starts(s, p, in_brace);
    &&& w.parts@.len() == st.len()
    &&& forall|i: int| 0 <= i < st.len() ==> part_value(s, st[i], in_brace, #[trigger] w.parts@[i])
}

/// A word part, by the first alternative that matches: single-quoted text
/// (unescaped), double-quoted parts, a variable, a command substitution, a
/// brace expansion, or a literal (unescaped).
pub open spec fn part_value(s: Seq<char>, p: int, in_brace: bool, x: WordPart) -> bool
    decreases x, 2int,
{
    let k = part_alternative(s, p);
    if k == 0 {
        x matches WordPart::SingleQuoted(t) && t@ == unescape_single_quoted_spec(
            s.subrange(p + 1, sq_scan(s, p + 1)),
        )
    } else if k == 1 {
        match x {
            WordPart::DoubleQuoted(ps) => dq_value(s, p + 1, ps@),
            _ => false,
        }
    } else if k == 2 {
        match x {
            WordPart::Variable(v) => var_value(s, p, v),
            _ => false,
        }
    } else if k == 3 {
        subst_value(s, p + 2, x)
    } else if k == 4 {
        subst_value(s, p + 1, x)
    } else if k == 5 {
        brace_value(s, p, x)
    } else {
        x matches WordPart::Literal(t) && t@ == unescape_spec(
            s.subrange(p, literal_scan(s, p, in_brace)),
        )
    }
}

/// The parts inside double quotes, from `q`.
pub open spec fn dq_value(s: Seq<char>, q: int, ps: Seq<WordPart>) -> bool
    decreases ps, 1int,
{
    let st = dq_starts(s, q);
    &&& ps.len() == st.len()
    &&& forall|i: int| 0 <= i < st.len() ==> dq_part_value(s, st[i], #[trigger] ps[i])
}

/// Inside double quotes: a variable, `$(...)`, or a literal run with only
/// the double-quote escapes decoded.
pub open spec fn dq_part_value(s: Seq<char>, p: int, x: WordPart) -> bool
    decreases x, 2int,
{
    let k = dq_alternative(s, p);
    if k == 0 {
        match x {
            WordPart::Variable(v) => var_value(s, p, v),
            _ => false,
        }
    } else if k == 1 {
        subst_value(s, p + 2, x)
    } else {
        x matches WordPart::Literal(t) && t@ == unescape_double_quoted_spec(
            s.subrange(p, dq_scan(s, p)),
        )
    }
}

/// A command substitution whose opening ends at `q`: the statements
/// inside (after any space), and the slices after the closing
/// parenthesis.
pub open spec fn subst_value(s: Seq<char>, q: int, x: WordPart) -> bool
    decreases x, 1int,
{
    match x {
        WordPart::CommandSubst { statements, slices } => {
            &&& stmts_value(s, skip_ws(s, q), statements@)
            &&& slices_value(s, subst_close(s, q), slices@)
        },
        _ => false,
    }
}

/// Braces at `p`: when they expand, one word per item (an empty item is an
/// empty word); otherwise the braces and their content as literal text.
pub open spec fn brace_value(s: Seq<char>, p: int, x: WordPart) -> bool
    decreases x, 1int,
{
    let st = brace_item_starts(s, skip_ws(s, p + 1));
    if brace_expands(s, st) {
        match x {
            WordPart::BraceExpansion(ws) => ws@.len() == st.len() && forall|i: int|
                0 <= i < st.len() ==> item_value(s, st[i], #[trigger] ws@[i]),
            _ => false,
        }
    } else {
        x matches WordPart::Literal(t) && t@ == s.subrange(p, brace(s, p).unwrap())
    }
}

/// A brace item at `p`: the word there, or an empty word where none is.
pub open spec fn item_value(s: Seq<char>, p: int, w: Word) -> bool
    decreases w, 4int,
{
    match word(s, p, true) {
        Some(_) => word_value(s, p, true, w),
        None => w.parts@.len() == 0,
    }
}

/// Where the slices of a command substitution whose opening ends at `q`
/// start: after its closing parenthesis.
pub open spec fn subst_close(s: Seq<char>, q: int) -> int {
    lit(s, skip_ws(s, statement_list(s, skip_ws(s, q))), ")"@).unwrap()
}

/// Where the redirections from `p` (each after optional space) start.
#[verifier::opaque]
pub open spec fn redir_starts(s: Seq<char>, p: int) -> Seq<int>
    decreases s.len() - p,
{
    let q = skip_ws(s, p);
    if p <= q <= s.len() {
        match syntax::redirection(s, q) {
            Some(e) => if p < e <= s.len() {
                seq![q] + redir_starts(s, e)
            } else {
                seq![]
            },
            None => seq![],
        }
    } else {
        seq![]
    }
}

/// One more redirection: its start joins those found so far.
pub(crate) proof fn lemma_redir_starts_next(s: Seq<char>, p: int, q: int, e: int, found: Seq<int>)
    requires
        q == skip_ws(s, p),
        p <= q <= s.len(),
        syntax::redirection(s, q) == Some(e),
        p < e <= s.len(),
    ensures
        found + redir_starts(s, p) == found.push(q) + redir_starts(s, e),
{
    reveal(redir_starts);
    assert(found + redir_starts(s, p) =~= found.push(q) + redir_starts(s, e));
}

/// No redirection at the next position: none start there.
pub(crate) proof fn lemma_redir_starts_none(s: Seq<char>, p: int, q: int, found: Seq<int>)
    requires
        q == skip_ws(s, p),
        p <= q <= s.len(),
        syntax::redirection(s, q) is None,
    ensures
        found + redir_starts(s, p) == found,
{
    reveal(redir_starts);
    assert(found + redir_starts(s, p) =~= found);
}

/// The redirection at `p`: its file descriptor number if one is written,
/// its operator, and the word after the operator (and any space).
pub open spec fn redirection_value(s: Seq<char>, p: int, r: Redirection) -> bool
    decreases r, 1int,
{
    let fe = match syntax::fd_number(s, p) {
        Some((_, e)) => e,
        None => p,
    };
    &&& match syntax::fd_number(s, p) {
        Some((n, _)) => r.fd == Some(n as u32),
        None => r.fd is None,
    }
    &&& match syntax::redirect_mode(s, fe) {
        Some((m, e)) => r.mode == m && word_value(s, skip_ws(s, e), false, r.target),
        None => false,
    }
}

/// The redirections from `p`, in order.
pub open spec fn redirs_value(s: Seq<char>, p: int, rs: Seq<Redirection>) -> bool
    decreases rs, 1int,
{
    let st = redir_starts(s, p);
    &&& rs.len() == st.len()
    &&& forall|i: int| 0 <= i < st.len() ==> redirection_value(s, st[i], #[trigger] rs[i])
}

/// Where the `NAME=value` prefixes of the command at `p` start.
#[verifier::opaque]
pub open spec fn assign_starts(s: Seq<char>, p: int) -> Seq<int>
    decreases s.len() - p,
{
    match syntax::assignment(s, p) {
        Some(e) => match syntax::arg_sep(s, e) {
            Some(e2) => if p < e2 <= s.len() {
                seq![p] + assign_starts(s, e2)
            } else {
                seq![]
            },
            None => seq![],
        },
        None => seq![],
    }
}

/// `NAME=value` at `p`: the name, and the word after `=`.
pub open spec fn assignment_value(s: Seq<char>, p: int, a: VariableAssignment) -> bool
    decreases a, 1int,
{
    match syntax::ident(s, p) {
        Some(q) => a.name@ == s.subrange(p, q) && word_value(s, q + 1, false, a.value),
        None => false,
    }
}

/// Where the items of a command after the one ending at `c` start.
#[verifier::opaque]
pub open spec fn item_starts(s: Seq<char>, c: int) -> Seq<int>
    decreases s.len() - c,
{
    match syntax::arg_sep(s, c) {
        Some(q) => if c < q <= s.len() {
            match syntax::command_item(s, q) {
                Some(e) => if c < e <= s.len() {
                    seq![q] + item_starts(s, e)
                } else {
                    seq![]
                },
                None => seq![],
            }
        } else {
            seq![]
        },
        None => seq![],
    }
}

/// Where all the items (words and redirections) of the command at `p`
/// start.
pub open spec fn command_item_starts(s: Seq<char>, p: int) -> Seq<int> {
    let a = syntax::assignments(s, p);
    seq![a] + item_starts(s, syntax::command_item(s, a).unwrap())
}

/// The items among `st` that are redirections, in order.
#[verifier::opaque]
pub open spec fn redir_items(s: Seq<char>, st: Seq<int>) -> Seq<int>
    decreases st.len(),
{
    if st.len() == 0 {
        seq![]
    } else {
        let prev = redir_items(s, st.drop_last());
        if syntax::redirection(s, st.last()) is Some {
            prev.push(st.last())
        } else {
            prev
        }
    }
}

/// The items among `st` that are words, in order.
#[verifier::opaque]
pub open spec fn word_items(s: Seq<char>, st: Seq<int>) -> Seq<int>
    decreases st.len(),
{
    if st.len() == 0 {
        seq![]
    } else {
        let prev = word_items(s, st.drop_last());
        if syntax::redirection(s, st.last()) is Some {
            prev
        } else {
            prev.push(st.last())
        }
    }
}

/// One more assignment (and the separator after it) joins those found.
pub(crate) proof fn lemma_assign_starts_next(s: Seq<char>, p: int, e: int, e2: int, found: Seq<int>)
    requires
        syntax::assignment(s, p) == Some(e),
        syntax::arg_sep(s, e) == Some(e2),
        p < e2 <= s.len(),
    ensures
        found + assign_starts(s, p) == found.push(p) + assign_starts(s, e2),
{
    reveal(assign_starts);
    assert(found + assign_starts(s, p) =~= found.push(p) + assign_starts(s, e2));
}

/// Without an assignment followed by a separator, none start here.
pub(crate) proof fn lemma_assign_starts_none(s: Seq<char>, p: int, found: Seq<int>)
    requires
        !(syntax::assignment(s, p) matches Some(e) && syntax::arg_sep(s, e) is Some),
    ensures
        found + assign_starts(s, p) == found,
{
    reveal(assign_starts);
    assert(found + assign_starts(s, p) =~= found);
}

/// One more command item joins those found.
pub(crate) proof fn lemma_item_starts_next(s: Seq<char>, c: int, q: int, e: int, found: Seq<int>)
    requires
        syntax::arg_sep(s, c) == Some(q),
        c < q <= s.len(),
        syntax::command_item(s, q) == Some(e),
        q < e <= s.len(),
    ensures
        found + item_starts(s, c) == found.push(q) + item_starts(s, e),
{
    reveal(item_starts);
    assert(found + item_starts(s, c) =~= found.push(q) + item_starts(s, e));
}

/// Without a separator and an item after it, no more items start.
pub(crate) proof fn lemma_item_starts_none(s: Seq<char>, c: int, found: Seq<int>)
    requires
        !(syntax::arg_sep(s, c) matches Some(q) && syntax::command_item(s, q) is Some),
    ensures
        found + item_starts(s, c) == found,
{
    reveal(item_starts);
    assert(found + item_starts(s, c) =~= found);
}

/// Adding an item position to `st` adds it to the words or to the
/// redirections.
pub(crate) proof fn lemma_items_push(s: Seq<char>, st: Seq<int>, q: int)
    ensures
        word_items(s, st.push(q)) == if syntax::redirection(s, q) is Some {
            word_items(s, st)
        } else {
            word_items(s, st).push(q)
        },
        redir_items(s, st.push(q)) == if syntax::redirection(s, q) is Some {
            redir_items(s, st).push(q)
        } else {
            redir_items(s, st)
        },
{
    reveal(word_items);
    reveal(redir_items);
    assert(st.push(q).drop_last() =~= st);
}

/// No items: no words and no redirections.
pub(crate) proof fn lemma_items_empty(s: Seq<char>)
    ensures
        items_value(s, Seq::<int>::empty(), Seq::<Word>::empty(), Seq::<Redirection>::empty()),
{
    reveal(word_items);
    reveal(redir_items);
    reveal(items_value);
}

/// The words and redirections of the items at `st`: each in order.
#[verifier::opaque]
pub open spec fn items_value(
    s: Seq<char>,
    st: Seq<int>,
    args: Seq<Word>,
    redirs: Seq<Redirection>,
) -> bool {
    let ws = word_items(s, st);
    let rs = redir_items(s, st);
    &&& args.len() == ws.len()
    &&& forall|i: int| 0 <= i < ws.len() ==> word_value(s, ws[i], false, #[trigger] args[i])
    &&& redirs.len() == rs.len()
    &&& forall|i: int| 0 <= i < rs.len() ==> redirection_value(s, rs[i], #[trigger] redirs[i])
}

/// The command at `p`: its assignments, its words (the arguments, the
/// command name first) and its redirections, each in order.
pub open spec fn command_value(s: Seq<char>, p: int, c: Command) -> bool
    decreases c, 1int,
{
    &&& assignments_value(s, assign_starts(s, p), c.assignments@)
    &&& words_value(s, arg_starts(s, p), c.args@)
    &&& redirections_at(s, command_redir_starts(s, p), c.redirections@)
}

/// Where the words of the command at `p` start.
#[verifier::opaque]
pub open spec fn arg_starts(s: Seq<char>, p: int) -> Seq<int> {
    word_items(s, command_item_starts(s, p))
}

/// Where the redirections of the command at `p` start.
#[verifier::opaque]
pub open spec fn command_redir_starts(s: Seq<char>, p: int) -> Seq<int> {
    redir_items(s, command_item_starts(s, p))
}

/// The assignments at the positions `st`.
pub open spec fn assignments_value(s: Seq<char>, st: Seq<int>, xs: Seq<VariableAssignment>) -> bool
    decreases xs, 1int,
{
    &&& xs.len() == st.len()
    &&& forall|i: int| 0 <= i < st.len() ==> assignment_value(s, st[i], #[trigger] xs[i])
}

/// The (unbraced) words at the positions `st`, in order.
pub open spec fn words_value(s: Seq<char>, st: Seq<int>, ws: Seq<Word>) -> bool
    decreases ws, 1int,
{
    &&& ws.len() == st.len()
    &&& forall|i: int| 0 <= i < st.len() ==> word_value(s, st[i], false, #[trigger] ws[i])
}

/// The redirections at the positions `st`.
pub open spec fn redirections_at(s: Seq<char>, st: Seq<int>, rs: Seq<Redirection>) -> bool
    decreases rs, 1int,
{
    &&& rs.len() == st.len()
    &&& forall|i: int| 0 <= i < st.len() ==> redirection_value(s, st[i], #[trigger] rs[i])
}

/// A parsed word has a variable among its parts exactly when the grammar
/// puts one at one of its part positions.
pub(crate) proof fn lemma_word_variables(s: Seq<char>, p: int, w: Word)
    requires
        word_value(s, p, true, w),
    ensures
        (exists|k: int| 0 <= k < w.parts@.len() && (#[trigger] w.parts@[k]) is Variable)
            <==> item_has_variable(s, p),
{
    reveal(part_alternative);
    let st = part_starts(s, p, true);
    if exists|k: int| 0 <= k < w.parts@.len() && (#[trigger] w.parts@[k]) is Variable {
        let k = choose|k: int| 0 <= k < w.parts@.len() && (#[trigger] w.parts@[k]) is Variable;
        assert(part_value(s, st[k], true, w.parts@[k]));
        assert(part_is_variable(s, st[k]));
    }
    if item_has_variable(s, p) {
        let k = choose|k: int| 0 <= k < st.len() && part_is_variable(s, #[trigger] st[k]);
        assert(part_value(s, st[k], true, w.parts@[k]));
        assert(w.parts@[k] is Variable);
    }
}
/// The words and redirections of items, each at their positions.
pub(crate) proof fn lemma_items_split(
    s: Seq<char>,
    st: Seq<int>,
    args: Seq<Word>,
    redirs: Seq<Redirection>,
)
    requires
        items_value(s, st, args, redirs),
    ensures
        words_value(s, word_items(s, st), args),
        redirections_at(s, redir_items(s, st), redirs),
{
    reveal(items_value);
}

/// The words and redirections of a command, by where its items start.
pub(crate) proof fn lemma_command_items(s: Seq<char>, p: int)
    ensures
        arg_starts(s, p) == word_items(s, command_item_starts(s, p)),
        command_redir_starts(s, p) == redir_items(s, command_item_starts(s, p)),
{
    reveal(arg_starts);
    reveal(command_redir_starts);
}


/// A slice element written with numbers: `N..M` is the range from `N` to
/// `M` (both counted from 1), and `N` alone, not followed by `..`, the index
/// `N`.
pub proof fn lemma_slice_numbers(s: Seq<char>, p: int, x: Slice)
    requires
        0 <= p,
        element_value(s, p, x),
        digits_end(s, p) > p,
        digits_value(s.subrange(p, digits_end(s, p))) <= usize::MAX,
    ensures
        ({
            let d1 = digits_end(s, p);
            let n = digits_value(s.subrange(p, d1));
            let d2 = digits_end(s, d1 + 2);
            let m = digits_value(s.subrange(d1 + 2, d2));
            at(s, d1, '.') && at(s, d1 + 1, '.') && d2 > d1 + 2 && m <= usize::MAX ==> x == (
            Slice::Range {
                start: Some(SliceIndex::Pos(n as usize)),
                end: Some(SliceIndex::Pos(m as usize)),
            })
        }),
        ({
            let d1 = digits_end(s, p);
            let n = digits_value(s.subrange(p, d1));
            !at(s, d1, '.') && !at(s, d1, ' ') && !at(s, d1, '\t') ==> x == Slice::Index(
                SliceIndex::Pos(n as usize),
            )
        }),
{
    reveal_strlit("-");
    reveal_strlit("..");
    let d1 = digits_end(s, p);
    assert(at(s, p, s[p]) && crate::text::is_digit(s[p])) by {
        if !(0 <= p < s.len() && crate::text::is_digit(s[p])) {
            assert(digits_end(s, p) == p);
        }
    }
    assert(lit(s, p, "-"@) is None) by {
        if lit(s, p, "-"@) is Some {
            assert(s.subrange(p, p + 1)[0] == s[p]);
        }
    }
    assert(slice_index(s, p) == Some(d1));
    if at(s, d1, '.') {
        assert(syntax::skip_ws(s, d1) == d1);
        if at(s, d1 + 1, '.') {
            assert(s.subrange(d1, d1 + 2) =~= ".."@);
            assert(lit(s, d1, ".."@) == Some(d1 + 2));
            let d2 = digits_end(s, d1 + 2);
            if d2 > d1 + 2 && digits_value(s.subrange(d1 + 2, d2)) <= usize::MAX {
                let q = d1 + 2;
                assert(0 <= q < s.len() && crate::text::is_digit(s[q])) by {
                    if !(0 <= q < s.len() && crate::text::is_digit(s[q])) {
                        assert(digits_end(s, q) == q);
                    }
                }
                assert(syntax::skip_ws(s, q) == q);
                assert(lit(s, q, "-"@) is None) by {
                    if lit(s, q, "-"@) is Some {
                        assert(s.subrange(q, q + 1)[0] == s[q]);
                    }
                }
                assert(slice_index(s, q) == Some(d2));
            }
        }
    } else if !at(s, d1, ' ') && !at(s, d1, '\t') {
        assert(syntax::skip_ws(s, d1) == d1);
        assert(lit(s, d1, ".."@) is None) by {
            if lit(s, d1, ".."@) is Some {
                assert(s.subrange(d1, d1 + 2)[0] == s[d1]);
            }
        }
    }
}

} // verus!
