//! How Bash reads quoted text back, and that the emitter's quoting is read
//! back as the original characters.

use vstd::prelude::*;
use crate::bash::emitter::{dq_escape, dq_special, inner_part_text, part_text, sq_escape};
use crate::bash::ir::LoweredWordPart;

verus! {

/// The characters that a backslash escapes inside Bash double quotes.
pub open spec fn bash_dq_escapable(c: char) -> bool {
    c == '"' || c == '$' || c == '`' || c == '\\'
}

/// What Bash reads from the text after an opening double quote, up to and
/// including the closing quote: a backslash before `"`, `$`, `` ` `` or `\`
/// stands for that character and any other character other than `$`,
/// `` ` `` and `"` for itself. `None` when the text holds an unescaped `$`
/// or `` ` `` (an expansion), or does not end at its first unescaped `"`.
pub open spec fn dq_read(t: Seq<char>) -> Option<Seq<char>>
    decreases t.len(),
{
    if t.len() == 0 {
        None
    } else if t[0] == '"' {
        if t.len() == 1 {
            Some(seq![])
        } else {
            None
        }
    } else if t.len() >= 2 && t[0] == '\\' && bash_dq_escapable(t[1]) {
        match dq_read(t.skip(2)) {
            Some(r) => Some(seq![t[1]] + r),
            None => None,
        }
    } else if t[0] == '$' || t[0] == '`' {
        None
    } else {
        match dq_read(t.drop_first()) {
            Some(r) => Some(seq![t[0]] + r),
            None => None,
        }
    }
}

/// What Bash reads from a word made of plain characters, backslash escapes
/// and single-quoted stretches. `None` when a quote is left open or the word
/// ends in a lone backslash.
pub open spec fn sq_word_read(t: Seq<char>) -> Option<Seq<char>>
    decreases t.len(), 0int,
{
    if t.len() == 0 {
        Some(seq![])
    } else if t[0] == '\'' {
        sq_quoted_read(t.drop_first())
    } else if t[0] == '\\' {
        if t.len() >= 2 {
            match sq_word_read(t.skip(2)) {
                Some(r) => Some(seq![t[1]] + r),
                None => None,
            }
        } else {
            None
        }
    } else {
        match sq_word_read(t.drop_first()) {
            Some(r) => Some(seq![t[0]] + r),
            None => None,
        }
    }
}

/// What Bash reads from the text after an opening single quote: every
/// character up to the closing quote stands for itself, and reading goes on
/// outside the quotes after it.
pub open spec fn sq_quoted_read(t: Seq<char>) -> Option<Seq<char>>
    decreases t.len(), 1int,
{
    if t.len() == 0 {
        None
    } else if t[0] == '\'' {
        sq_word_read(t.drop_first())
    } else {
        match sq_quoted_read(t.drop_first()) {
            Some(r) => Some(seq![t[0]] + r),
            None => None,
        }
    }
}

/// One character escaped for double quotes.
pub open spec fn dq_escape_char(c: char) -> Seq<char> {
    if dq_special(c) {
        seq!['\\', c]
    } else {
        seq![c]
    }
}

/// One character escaped for single quotes.
pub open spec fn sq_escape_char(c: char) -> Seq<char> {
    if c == '\'' {
        seq!['\'', '\\', '\'', '\'']
    } else {
        seq![c]
    }
}

proof fn lemma_dq_escape_last(s: Seq<char>)
    requires
        s.len() > 0,
    ensures
        dq_escape(s) == dq_escape(s.drop_last()) + dq_escape_char(s.last()),
{
    assert(dq_escape(s.drop_last()).push(s.last()) =~= dq_escape(s.drop_last()) + seq![s.last()]);
}

proof fn lemma_sq_escape_last(s: Seq<char>)
    requires
        s.len() > 0,
    ensures
        sq_escape(s) == sq_escape(s.drop_last()) + sq_escape_char(s.last()),
{
    assert(sq_escape(s.drop_last()).push(s.last()) =~= sq_escape(s.drop_last()) + seq![s.last()]);
}

proof fn lemma_dq_escape_front(c: char, s: Seq<char>)
    ensures
        dq_escape(seq![c] + s) == dq_escape_char(c) + dq_escape(s),
    decreases s.len(),
{
    let u = seq![c] + s;
    lemma_dq_escape_last(u);
    if s.len() == 0 {
        assert(u.drop_last() =~= Seq::<char>::empty());
        assert(dq_escape(u.drop_last()) =~= Seq::<char>::empty());
        assert(u.last() == c);
        assert(dq_escape(s) =~= Seq::<char>::empty());
        assert(dq_escape(u) =~= dq_escape_char(c) + dq_escape(s));
    } else {
        assert(u.drop_last() =~= seq![c] + s.drop_last());
        assert(u.last() == s.last());
        lemma_dq_escape_front(c, s.drop_last());
        lemma_dq_escape_last(s);
        assert(dq_escape(u) =~= dq_escape_char(c) + dq_escape(s));
    }
}

/// Escaping for double quotes is undone by Bash: between double quotes the
/// escaped text reads back as the original characters, so `$`, `` ` ``, `"`
/// and `\` in a string stay literal and the closing quote ends it.
pub proof fn lemma_dq_round_trip(s: Seq<char>)
    ensures
        dq_read(dq_escape(s) + seq!['"']) == Some(s),
    decreases s.len(),
{
    let t = dq_escape(s) + seq!['"'];
    if s.len() == 0 {
        assert(dq_escape(s) =~= Seq::<char>::empty());
        assert(t =~= seq!['"']);
        assert(s =~= Seq::<char>::empty());
    } else {
        let c = s[0];
        let rest = s.drop_first();
        assert(s =~= seq![c] + rest);
        lemma_dq_escape_front(c, rest);
        lemma_dq_round_trip(rest);
        let tail = dq_escape(rest) + seq!['"'];
        if dq_special(c) {
            assert(t =~= seq!['\\', c] + tail);
            assert(t.skip(2) =~= tail);
        } else {
            assert(t =~= seq![c] + tail);
            assert(t.drop_first() =~= tail);
        }
        assert(dq_read(t) == Some(seq![c] + rest));
    }
}

proof fn lemma_sq_escape_front(c: char, s: Seq<char>)
    ensures
        sq_escape(seq![c] + s) == sq_escape_char(c) + sq_escape(s),
    decreases s.len(),
{
    let u = seq![c] + s;
    lemma_sq_escape_last(u);
    if s.len() == 0 {
        assert(u.drop_last() =~= Seq::<char>::empty());
        assert(sq_escape(u.drop_last()) =~= Seq::<char>::empty());
        assert(u.last() == c);
        assert(sq_escape(s) =~= Seq::<char>::empty());
        assert(sq_escape(u) =~= sq_escape_char(c) + sq_escape(s));
    } else {
        assert(u.drop_last() =~= seq![c] + s.drop_last());
        assert(u.last() == s.last());
        lemma_sq_escape_front(c, s.drop_last());
        lemma_sq_escape_last(s);
        assert(sq_escape(u) =~= sq_escape_char(c) + sq_escape(s));
    }
}

proof fn lemma_sq_quoted_round_trip(s: Seq<char>)
    ensures
        sq_quoted_read(sq_escape(s) + seq!['\'']) == Some(s),
    decreases s.len(),
{
    let t = sq_escape(s) + seq!['\''];
    if s.len() == 0 {
        assert(t =~= seq!['\'']);
        assert(t.drop_first() =~= Seq::<char>::empty());
        assert(sq_word_read(t.drop_first()) == Some(Seq::<char>::empty()));
        assert(sq_quoted_read(t) == sq_word_read(t.drop_first()));
        assert(s =~= Seq::<char>::empty());
    } else {
        let c = s[0];
        let rest = s.drop_first();
        assert(s =~= seq![c] + rest);
        lemma_sq_escape_front(c, rest);
        lemma_sq_quoted_round_trip(rest);
        let tail = sq_escape(rest) + seq!['\''];
        if c == '\'' {
            assert(t =~= seq!['\'', '\\', '\'', '\''] + tail);
            let t1 = t.drop_first();
            assert(t1 =~= seq!['\\', '\'', '\''] + tail);
            let t2 = t1.skip(2);
            assert(t2 =~= seq!['\''] + tail);
            assert(t2.drop_first() =~= tail);
            assert(sq_word_read(t2) == sq_quoted_read(tail));
            assert(sq_word_read(t1) == Some(seq!['\''] + rest));
            assert(sq_quoted_read(t) == sq_word_read(t1));
        } else {
            assert(t =~= seq![c] + tail);
            assert(t.drop_first() =~= tail);
        }
        assert(sq_quoted_read(t) == Some(seq![c] + rest));
    }
}

/// A single-quoted part is written so that Bash reads it back unchanged:
/// each `'` in it is written `'\''` (close the quotes, an escaped quote,
/// reopen them), and nothing else inside the quotes is special.
pub proof fn lemma_sq_round_trip(x: String)
    ensures
        sq_word_read(part_text(LoweredWordPart::SingleQuoted(x))) == Some(x@),
{
    reveal_strlit("'");
    let t = part_text(LoweredWordPart::SingleQuoted(x));
    assert("'"@ =~= seq!['\'']);
    assert(t =~= seq!['\''] + (sq_escape(x@) + seq!['\'']));
    assert(t.drop_first() =~= sq_escape(x@) + seq!['\'']);
    lemma_sq_quoted_round_trip(x@);
}

/// A literal inside a double-quoted word is written so that Bash reads it
/// back unchanged.
pub proof fn lemma_dq_literal_round_trip(x: String)
    ensures
        dq_read(inner_part_text(LoweredWordPart::Literal(x)) + seq!['"']) == Some(x@),
{
    lemma_dq_round_trip(x@);
}

} // verus!
