//! Small helpers shared by the lowering of statements and builtins.

use vstd::prelude::*;
use crate::ast::{single_literal, ref_name, Word, WordPart};
use crate::bash::ir::{lowered_literal, LoweredWord};
use crate::text::{copy_string, split_ws, starts_with_char, str_eq, ws_words};

verus! {

/// The words `ws` are unquoted literals with the texts `texts`.
pub open spec fn literal_words(ws: Seq<LoweredWord>, texts: Seq<Seq<char>>) -> bool {
    &&& ws.len() == texts.len()
    &&& forall|i: int| 0 <= i < ws.len() ==> lowered_literal(#[trigger] ws[i]) == Some(texts[i])
}

/// Collects the words of a lowered command.
#[derive(Debug, Default)]
pub struct WordsBuilder {
    words: Vec<LoweredWord>,
}

impl View for WordsBuilder {
    type V = Seq<LoweredWord>;

    closed spec fn view(&self) -> Seq<LoweredWord> {
        self.words@
    }
}

impl WordsBuilder {
    pub fn new() -> (r: Self)
        ensures
            r@ == Seq::<LoweredWord>::empty(),
    {
        WordsBuilder { words: Vec::new() }
    }

    /// Appends one word.
    pub fn push(&mut self, word: LoweredWord) -> (r: &mut Self)
        ensures
            (*r)@ == old(self)@.push(word),
            *final(self) == *final(r),
    {
        self.words.push(word);
        self
    }

    /// Appends one unquoted literal word per whitespace-separated piece of
    /// `text`.
    pub fn push_words(&mut self, text: &str) -> (r: &mut Self)
        ensures
            (*r)@.len() == old(self)@.len() + ws_words(text@).len(),
            (*r)@.subrange(0, old(self)@.len() as int) == old(self)@,
            literal_words((*r)@.skip(old(self)@.len() as int), ws_words(text@)),
            *final(self) == *final(r),
    {
        let pieces = split_ws(text);
        let ghost n0 = self.words@.len();
        let ghost w0 = self.words@;
        let mut k: usize = 0;
        while k < pieces.len()
            invariant
                self.words@.len() == n0 + k,
                k <= pieces@.len(),
                pieces@.len() == ws_words(text@).len(),
                forall|i: int| 0 <= i < pieces@.len() ==> (#[trigger] pieces@[i])@ == ws_words(text@)[i],
                self.words@.subrange(0, n0 as int) == w0,
                forall|i: int|
                    0 <= i < k ==> lowered_literal(#[trigger] self.words@[n0 + i]) == Some(
                        ws_words(text@)[i],
                    ),
            decreases pieces@.len() - k,
        {
            let w = LoweredWord::from_string(copy_string(&pieces[k]));
            self.words.push(w);
            assert(self.words@.subrange(0, n0 as int) =~= w0);
            k = k + 1;
        }
        proof {
            let tail = self.words@.skip(n0 as int);
            assert forall|i: int| 0 <= i < tail.len() implies lowered_literal(#[trigger] tail[i])
                == Some(ws_words(text@)[i]) by {
                assert(tail[i] == self.words@[n0 + i]);
            }
        }
        self
    }

    /// Appends the given words in order.
    pub fn extend(&mut self, words: Vec<LoweredWord>) -> (r: &mut Self)
        ensures
            (*r)@ == old(self)@ + words@,
            *final(self) == *final(r),
    {
        let mut words = words;
        self.words.append(&mut words);
        self
    }

    /// The collected words.
    pub fn into_vec(self) -> (r: Vec<LoweredWord>)
        ensures
            r@ == self@,
    {
        self.words
    }
}

/// The name of the variable when the word is exactly `$name` or `"$name"`
/// (without slices).
pub open spec fn single_variable(w: Word) -> Option<Seq<char>> {
    if w.parts@.len() == 1 {
        match w.parts@[0] {
            WordPart::Variable(v) => if v.slices@.len() == 0 {
                ref_name(v)
            } else {
                None
            },
            WordPart::DoubleQuoted(inner) => if inner@.len() == 1 {
                match inner@[0] {
                    WordPart::Variable(v) => if v.slices@.len() == 0 {
                        ref_name(v)
                    } else {
                        None
                    },
                    _ => None,
                }
            } else {
                None
            },
            _ => None,
        }
    } else {
        None
    }
}

/// The variable named by a word that is exactly `$name` or `"$name"`.
pub fn extract_single_variable(word: &Word) -> (r: Option<&str>)
    ensures
        match r {
            Some(t) => single_variable(*word) == Some(t@),
            None => single_variable(*word) is None,
        },
{
    if word.parts.len() == 1 {
        match &word.parts[0] {
            WordPart::Variable(vref) => {
                if vref.slices.len() == 0 {
                    vref.name()
                } else {
                    None
                }
            },
            WordPart::DoubleQuoted(inner) => {
                if inner.len() == 1 {
                    if let WordPart::Variable(vref) = &inner[0] {
                        if vref.slices.len() == 0 {
                            return vref.name();
                        }
                    }
                }
                None
            },
            _ => None,
        }
    } else {
        None
    }
}

/// The literal text inside double quotes (other parts contribute nothing).
pub open spec fn dq_literal_text(ps: Seq<WordPart>) -> Seq<char>
    decreases ps.len(),
{
    if ps.len() == 0 {
        seq![]
    } else {
        dq_literal_text(ps.drop_last()) + match ps.last() {
            WordPart::Literal(s) => s@,
            _ => seq![],
        }
    }
}

/// The static text of word parts: literal, single-quoted and the literal
/// pieces of double-quoted parts; `None` if any other part occurs.
pub open spec fn static_text(ps: Seq<WordPart>) -> Option<Seq<char>>
    decreases ps.len(),
{
    if ps.len() == 0 {
        Some(seq![])
    } else {
        match static_text(ps.drop_last()) {
            Some(acc) => match ps.last() {
                WordPart::Literal(s) => Some(acc + s@),
                WordPart::SingleQuoted(s) => Some(acc + s@),
                WordPart::DoubleQuoted(inner) => Some(acc + dq_literal_text(inner@)),
                _ => None,
            },
            None => None,
        }
    }
}

/// The static text of a word (see `static_text`).
pub fn extract_word_string(w: &Word) -> (r: Option<String>)
    ensures
        match r {
            Some(t) => static_text(w.parts@) == Some(t@),
            None => static_text(w.parts@) is None,
        },
{
    let mut s = String::new();
    let mut k: usize = 0;
    while k < w.parts.len()
        invariant
            k <= w.parts@.len(),
            static_text(w.parts@.take(k as int)) == Some(s@),
        decreases w.parts@.len() - k,
    {
        assert(w.parts@.take(k + 1).drop_last() =~= w.parts@.take(k as int));
        match &w.parts[k] {
            WordPart::Literal(lit) => s.append(lit.as_str()),
            WordPart::SingleQuoted(sq) => s.append(sq.as_str()),
            WordPart::DoubleQuoted(parts) => {
                let ghost s0 = s@;
                let mut j: usize = 0;
                while j < parts.len()
                    invariant
                        j <= parts@.len(),
                        s@ == s0 + dq_literal_text(parts@.take(j as int)),
                    decreases parts@.len() - j,
                {
                    assert(parts@.take(j + 1).drop_last() =~= parts@.take(j as int));
                    if let WordPart::Literal(lit) = &parts[j] {
                        s.append(lit.as_str());
                    }
                    j = j + 1;
                }
                assert(parts@.take(parts@.len() as int) =~= parts@);
            },
            _ => {
                proof {
                    lemma_static_text_none_extends(w.parts@, (k + 1) as int);
                }
                return None;
            },
        }
        k = k + 1;
    }
    assert(w.parts@.take(w.parts@.len() as int) =~= w.parts@);
    Some(s)
}

proof fn lemma_static_text_none_extends(ps: Seq<WordPart>, k: int)
    requires
        0 <= k <= ps.len(),
        static_text(ps.take(k)) is None,
    ensures
        static_text(ps) is None,
    decreases ps.len() - k,
{
    if k < ps.len() {
        assert(ps.take(k + 1).drop_last() =~= ps.take(k));
        lemma_static_text_none_extends(ps, k + 1);
    } else {
        assert(ps.take(k) =~= ps);
    }
}

/// Whether the word is the literal `-x` for an option `x` of `function`
/// that takes a value which is not an argument name.
pub open spec fn is_valued_option(t: Seq<char>) -> bool {
    t == "-w"@ || t == "--wraps"@ || t == "-V"@ || t == "--inherit-variable"@ || t == "-e"@ || t
        == "--on-event"@ || t == "-s"@ || t == "--on-signal"@ || t == "-v"@ || t == "--on-variable"@
        || t == "-j"@ || t == "--on-job-exit"@
}

/// How many words from position `i` on are literals not starting with `-`.
pub open spec fn name_run(opts: Seq<Word>, i: int) -> nat
    decreases opts.len() - i,
{
    if i < 0 || i >= opts.len() {
        0
    } else {
        match single_literal(opts[i]) {
            Some(t) => if t.len() > 0 && t[0] == '-' {
                0
            } else {
                1 + name_run(opts, i + 1)
            },
            None => 0,
        }
    }
}

/// The literal texts of `opts[i..i + n]`.
pub open spec fn run_names(opts: Seq<Word>, i: int, n: nat) -> Seq<Seq<char>>
    decreases n,
{
    if n == 0 {
        seq![]
    } else {
        seq![single_literal(opts[i]).unwrap()] + run_names(opts, i + 1, (n - 1) as nat)
    }
}

/// The metadata that function options from position `i` on declare: the
/// `-a`/`--argument-names` names in order, and the text given to the last
/// `-d`/`--description` (outer `None` when there is none from `i` on).
/// Options `-w -V -e -s -v -j` (and long forms) skip their value; other
/// words are ignored.
pub open spec fn meta_from(opts: Seq<Word>, i: int) -> (Seq<Seq<char>>, Option<Option<Seq<char>>>)
    decreases opts.len() - i,
{
    if i < 0 || i >= opts.len() {
        (seq![], None)
    } else {
        match single_literal(opts[i]) {
            Some(t) => if t == "-a"@ || t == "--argument-names"@ {
                let n = name_run(opts, i + 1);
                proof {
                    lemma_name_run_bound(opts, i + 1);
                }
                let rest = meta_from(opts, i + 1 + n);
                (run_names(opts, i + 1, n) + rest.0, rest.1)
            } else if t == "-d"@ || t == "--description"@ {
                if i + 1 < opts.len() {
                    let rest = meta_from(opts, i + 2);
                    (
                        rest.0,
                        match rest.1 {
                            Some(d) => Some(d),
                            None => Some(static_text(opts[i + 1].parts@)),
                        },
                    )
                } else {
                    (seq![], None)
                }
            } else if is_valued_option(t) {
                if i + 1 < opts.len() {
                    meta_from(opts, i + 2)
                } else {
                    (seq![], None)
                }
            } else {
                meta_from(opts, i + 1)
            },
            None => meta_from(opts, i + 1),
        }
    }
}

/// The run of plain-literal options from `i` lies inside `opts`.
pub proof fn lemma_name_run_bound(opts: Seq<Word>, i: int)
    ensures
        i >= 0 ==> i + name_run(opts, i) <= opts.len() || name_run(opts, i) == 0,
        forall|k: int|
            i <= k < i + name_run(opts, i) ==> (#[trigger] single_literal(opts[k])) is Some,
    decreases opts.len() - i,
{
    if i >= 0 && i < opts.len() {
        lemma_name_run_bound(opts, i + 1);
    }
}

fn is_literal(t: &str, lit: &str) -> (r: bool)
    ensures
        r == (t@ == lit@),
{
    str_eq(t, lit)
}

fn is_valued_option_exec(t: &str) -> (r: bool)
    ensures
        r == is_valued_option(t@),
{
    is_literal(t, "-w") || is_literal(t, "--wraps") || is_literal(t, "-V") || is_literal(
        t,
        "--inherit-variable",
    ) || is_literal(t, "-e") || is_literal(t, "--on-event") || is_literal(t, "-s") || is_literal(
        t,
        "--on-signal",
    ) || is_literal(t, "-v") || is_literal(t, "--on-variable") || is_literal(t, "-j")
        || is_literal(t, "--on-job-exit")
}

fn meta_at(options: &[Word], i: usize) -> (r: (Vec<String>, Option<Option<String>>))
    requires
        i <= options@.len(),
    ensures
        r.0@.len() == meta_from(options@, i as int).0.len(),
        forall|k: int| 0 <= k < r.0@.len() ==> (#[trigger] r.0@[k])@ == meta_from(options@, i as int).0[k],
        match r.1 {
            Some(Some(d)) => meta_from(options@, i as int).1 == Some(Some(d@)),
            Some(None) => meta_from(options@, i as int).1 == Some(None::<Seq<char>>),
            None => meta_from(options@, i as int).1 is None,
        },
    decreases options@.len() - i,
{
    if i >= options.len() {
        return (Vec::new(), None);
    }
    match options[i].as_single_literal() {
        Some(lit) => {
            if is_literal(lit, "-a") || is_literal(lit, "--argument-names") {
                let mut names: Vec<String> = Vec::new();
                let mut j = i + 1;
                proof {
                    lemma_name_run_bound(options@, i + 1);
                }
                while j < options.len()
                    invariant
                        i + 1 <= j <= options@.len(),
                        names@.len() == j - (i + 1),
                        j - (i + 1) <= name_run(options@, i + 1),
                        name_run(options@, i + 1) == (j - (i + 1)) + name_run(options@, j as int),
                        forall|k: int|
                            0 <= k < names@.len() ==> (#[trigger] names@[k])@ == single_literal(
                                options@[i + 1 + k],
                            ).unwrap(),
                    ensures
                        name_run(options@, j as int) == 0,
                        i + 1 <= j <= options@.len(),
                        names@.len() == j - (i + 1),
                        name_run(options@, i + 1) == (j - (i + 1)) + name_run(options@, j as int),
                        forall|k: int|
                            0 <= k < names@.len() ==> (#[trigger] names@[k])@ == single_literal(
                                options@[i + 1 + k],
                            ).unwrap(),
                    decreases options@.len() - j,
                {
                    match options[j].as_single_literal() {
                        Some(name) => {
                            if starts_with_char(name, '-') {
                                break;
                            }
                            names.push(crate::text::to_owned_string(name));
                            j = j + 1;
                        },
                        None => {
                            break;
                        },
                    }
                }
                proof {
                    assert(name_run(options@, j as int) == 0);
                    assert(names@.len() == name_run(options@, i + 1));
                    lemma_run_names(options@, i + 1, name_run(options@, i + 1));
                }
                let (mut rest_names, rest_desc) = meta_at(options, j);
                let ghost n0 = names@;
                names.append(&mut rest_names);
                proof {
                    let spec_names = run_names(options@, i + 1, name_run(options@, i + 1));
                    assert forall|k: int| 0 <= k < names@.len() implies (#[trigger] names@[k])@
                        == meta_from(options@, i as int).0[k] by {
                        if k < n0.len() {
                            assert(spec_names[k] == single_literal(options@[i + 1 + k]).unwrap());
                        }
                    }
                }
                (names, rest_desc)
            } else if is_literal(lit, "-d") || is_literal(lit, "--description") {
                if i + 1 < options.len() {
                    let (rest_names, rest_desc) = meta_at(options, i + 2);
                    let desc = match rest_desc {
                        Some(d) => Some(d),
                        None => Some(extract_word_string(&options[i + 1])),
                    };
                    (rest_names, desc)
                } else {
                    (Vec::new(), None)
                }
            } else if is_valued_option_exec(lit) {
                if i + 1 < options.len() {
                    meta_at(options, i + 2)
                } else {
                    (Vec::new(), None)
                }
            } else {
                meta_at(options, i + 1)
            }
        },
        None => meta_at(options, i + 1),
    }
}

proof fn lemma_run_names(opts: Seq<Word>, i: int, n: nat)
    requires
        0 <= i,
        i + n <= opts.len(),
        forall|k: int| i <= k < i + n ==> (#[trigger] single_literal(opts[k])) is Some,
    ensures
        run_names(opts, i, n).len() == n,
        forall|k: int|
            0 <= k < n ==> #[trigger] run_names(opts, i, n)[k] == single_literal(opts[i + k]).unwrap(),
    decreases n,
{
    if n > 0 {
        lemma_run_names(opts, i + 1, (n - 1) as nat);
        assert forall|k: int| 0 <= k < n implies #[trigger] run_names(opts, i, n)[k] == single_literal(
            opts[i + k],
        ).unwrap() by {
            if k > 0 {
                assert(run_names(opts, i, n)[k] == run_names(opts, i + 1, (n - 1) as nat)[k - 1]);
            }
        }
    }
}

/// The names declared with `-a`/`--argument-names` and the description
/// given by the last `-d`/`--description` (see `meta_from`).
pub fn extract_function_meta(options: &[Word]) -> (r: (Vec<String>, Option<String>))
    ensures
        r.0@.len() == meta_from(options@, 0).0.len(),
        forall|k: int| 0 <= k < r.0@.len() ==> (#[trigger] r.0@[k])@ == meta_from(options@, 0).0[k],
        match r.1 {
            Some(d) => meta_from(options@, 0).1 == Some(Some(d@)),
            None => meta_from(options@, 0).1 is None || meta_from(options@, 0).1 == Some(
                None::<Seq<char>>,
            ),
        },
{
    let (names, desc) = meta_at(options, 0);
    let d = match desc {
        Some(d) => d,
        None => None,
    };
    (names, d)
}

} // verus!
