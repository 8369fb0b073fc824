//! `set`: variable assignment, erasure and queries.

use vstd::prelude::*;
use crate::ast::{ref_name, single_literal, Command, Word, WordPart};
use crate::bash::ir::{lowered_literal, AssignmentIR, LoweredCommand, LoweredWord, SliceIndexIR};
use crate::bash::lowering::helpers::literal_words;
use crate::bash::lowering::{lower_word, word_lower, words_lower, Scope};
use crate::text::{all_digits, digits_value, is_digit, chars_of, copy_string, starts_with_char, str_eq, string_of, to_owned_string};

verus! {

/// A slice index written in the target of `set`, in Bash terms.
pub enum TargetIndex {
    ZeroBased(nat),
    NegativeOffset(nat),
    Dynamic(Seq<char>),
}

pub open spec fn index_is(i: SliceIndexIR, t: TargetIndex) -> bool {
    match (i, t) {
        (SliceIndexIR::ZeroBased(a), TargetIndex::ZeroBased(b)) => a as nat == b,
        (SliceIndexIR::NegativeOffset(a), TargetIndex::NegativeOffset(b)) => a as nat == b,
        (SliceIndexIR::Dynamic(a), TargetIndex::Dynamic(b)) => a@ == b,
        _ => false,
    }
}

/// Decimal integer syntax as `str::parse::<isize>` accepts it: an optional
/// `+` or `-` followed by at least one digit, within the range of `isize`.
pub open spec fn parse_isize_spec(s: Seq<char>) -> Option<int> {
    if s.len() > 0 && (s[0] == '-' || s[0] == '+') {
        let d = s.drop_first();
        if d.len() > 0 && all_digits(d) {
            if s[0] == '-' {
                if digits_value(d) <= isize::MAX as nat + 1 {
                    Some(-(digits_value(d) as int))
                } else {
                    None
                }
            } else if digits_value(d) <= isize::MAX as nat {
                Some(digits_value(d) as int)
            } else {
                None
            }
        } else {
            None
        }
    } else if s.len() > 0 && all_digits(s) && digits_value(s) <= isize::MAX as nat {
        Some(digits_value(s) as int)
    } else {
        None
    }
}

/// The position of the first occurrence of `c` in `s`.
pub open spec fn first_index_of(s: Seq<char>, c: char) -> Option<int>
    decreases s.len(),
{
    if s.len() == 0 {
        None
    } else if s[0] == c {
        Some(0)
    } else {
        match first_index_of(s.drop_first(), c) {
            Some(i) => Some(i + 1),
            None => None,
        }
    }
}

/// The array element named by a literal target `NAME[INDEX]`: a 1-based
/// index becomes 0-based (`0` stays `0`), a negative one counts from the
/// end, `$var` is dynamic.
pub open spec fn literal_slice_target(t: Seq<char>) -> Option<(Seq<char>, TargetIndex)> {
    if t.len() > 0 && t.last() == ']' {
        match first_index_of(t, '[') {
            Some(b) => {
                let name = t.take(b);
                let idx = t.subrange(b + 1, t.len() - 1);
                if idx.len() > 0 && idx[0] == '$' {
                    Some((name, TargetIndex::Dynamic(idx.drop_first())))
                } else {
                    match parse_isize_spec(idx) {
                        Some(n) => Some(
                            (
                                name,
                                if n < 0 {
                                    TargetIndex::NegativeOffset((-n) as nat)
                                } else if n > 0 {
                                    TargetIndex::ZeroBased((n - 1) as nat)
                                } else {
                                    TargetIndex::ZeroBased(0)
                                },
                            ),
                        ),
                        None => None,
                    }
                }
            },
            None => None,
        }
    } else {
        None
    }
}

/// The array element a `set` target names: a literal `NAME[INDEX]`, or the
/// three parts `NAME[`, `$var`, `]`.
pub open spec fn slice_target(w: Word) -> Option<(Seq<char>, TargetIndex)> {
    match single_literal(w) {
        Some(t) => literal_slice_target(t),
        None => if w.parts@.len() == 3 {
            match (w.parts@[0], w.parts@[1], w.parts@[2]) {
                (WordPart::Literal(prefix), WordPart::Variable(v), WordPart::Literal(suffix)) => if prefix@.len()
                    > 0 && prefix@.last() == '[' && ref_name(v) is Some && suffix@ == "]"@ {
                    Some((prefix@.drop_last(), TargetIndex::Dynamic(ref_name(v).unwrap())))
                } else {
                    None
                },
                _ => None,
            }
        } else {
            None
        },
    }
}

proof fn lemma_first_index_of(s: Seq<char>, c: char)
    ensures
        match first_index_of(s, c) {
            Some(i) => 0 <= i < s.len() && s[i] == c,
            None => true,
        },
    decreases s.len(),
{
    if s.len() > 0 && s[0] != c {
        lemma_first_index_of(s.drop_first(), c);
    }
}

fn first_index_of_exec(cs: &Vec<char>, c: char) -> (r: Option<usize>)
    ensures
        match r {
            Some(i) => first_index_of(cs@, c) == Some(i as int) && i < cs@.len() && cs@[i as int]
                == c,
            None => first_index_of(cs@, c) is None,
        },
{
    proof {
        lemma_first_index_of(cs@, c);
        assert(cs@.skip(0) =~= cs@);
    }
    let mut i: usize = 0;
    while i < cs.len()
        invariant
            i <= cs@.len(),
            first_index_of(cs@, c) == (match first_index_of(cs@.skip(i as int), c) {
                Some(k) => Some(k + i),
                None => None,
            }),
        decreases cs@.len() - i,
    {
        assert(cs@.skip(i as int).drop_first() =~= cs@.skip(i + 1));
        if cs[i] == c {
            return Some(i);
        }
        i = i + 1;
    }
    None
}

proof fn lemma_digits_prefix(s: Seq<char>, k: int)
    requires
        0 <= k <= s.len(),
        all_digits(s),
    ensures
        digits_value(s) >= digits_value(s.take(k)),
    decreases s.len() - k,
{
    if k < s.len() {
        lemma_digits_prefix(s, k + 1);
        assert(s.take(k + 1).drop_last() =~= s.take(k));
        assert(is_digit(s[k]));
    } else {
        assert(s.take(k) =~= s);
    }
}

/// The value of the digits `cs[start..end]` when they are all digits, at
/// least one, and the value is at most `cap`.
fn parse_digits(cs: &Vec<char>, start: usize, end: usize, cap: u128) -> (r: Option<u128>)
    requires
        start <= end <= cs@.len(),
        cap >= 9,
    ensures
        match r {
            Some(v) => end > start && all_digits(cs@.subrange(start as int, end as int)) && v as nat
                == digits_value(cs@.subrange(start as int, end as int)) && v <= cap,
            None => !(end > start && all_digits(cs@.subrange(start as int, end as int))
                && digits_value(cs@.subrange(start as int, end as int)) <= cap),
        },
{
    let ghost s = cs@.subrange(start as int, end as int);
    if start == end {
        return None;
    }
    let mut v: u128 = 0;
    let mut i = start;
    while i < end
        invariant
            start <= i <= end <= cs@.len(),
            s == cs@.subrange(start as int, end as int),
            all_digits(cs@.subrange(start as int, i as int)),
            v as nat == digits_value(cs@.subrange(start as int, i as int)),
            v <= cap,
            cap >= 9,
        decreases end - i,
    {
        let c = cs[i];
        if !('0' <= c && c <= '9') {
            proof {
                assert(s[i - start] == c);
            }
            return None;
        }
        let d: u128 = (c as u32 - 48) as u128;
        assert(cs@.subrange(start as int, i + 1).drop_last() =~= cs@.subrange(start as int, i as int));
        if v > (cap - d) / 10 {
            proof {
                assert(v * 10 + d > cap) by (nonlinear_arith)
                    requires
                        v > (cap - d) / 10,
                        d <= 9,
                        d <= cap || true,
                ;
                if all_digits(s) {
                    lemma_digits_prefix(s, i + 1 - start);
                    assert(s.take(i + 1 - start) =~= cs@.subrange(start as int, i + 1));
                }
            }
            return None;
        }
        proof {
            assert(v * 10 + d <= cap) by (nonlinear_arith)
                requires
                    v <= (cap - d) / 10,
                    d <= 9,
            ;
        }
        v = v * 10 + d;
        i = i + 1;
        proof {
            assert forall|k: int| 0 <= k < cs@.subrange(start as int, i as int).len() implies is_digit(
                #[trigger] cs@.subrange(start as int, i as int)[k],
            ) by {
                if k < i - 1 - start {
                    assert(cs@.subrange(start as int, i as int)[k] == cs@.subrange(
                        start as int,
                        i - 1,
                    )[k]);
                }
            }
        }
    }
    Some(v)
}

/// `parse_isize_spec` of `cs[start..end]`, as (negative, magnitude).
fn parse_isize_exec(cs: &Vec<char>, start: usize, end: usize) -> (r: Option<(bool, u128)>)
    requires
        start <= end <= cs@.len(),
    ensures
        match r {
            Some((neg, m)) => parse_isize_spec(cs@.subrange(start as int, end as int)) == Some(
                if neg {
                    -(m as int)
                } else {
                    m as int
                },
            ) && (neg ==> m > 0 || m == 0),
            None => parse_isize_spec(cs@.subrange(start as int, end as int)) is None,
        },
{
    let ghost s = cs@.subrange(start as int, end as int);
    let max: u128 = isize::MAX as u128;
    if start < end && (cs[start] == '-' || cs[start] == '+') {
        proof {
            assert(s[0] == cs@[start as int]);
            assert(s.drop_first() =~= cs@.subrange(start + 1, end as int));
        }
        let neg = cs[start] == '-';
        let cap = if neg { max + 1 } else { max };
        match parse_digits(cs, start + 1, end, cap) {
            Some(v) => Some((neg, v)),
            None => None,
        }
    } else {
        proof {
            if start < end {
                assert(s[0] == cs@[start as int]);
            }
        }
        match parse_digits(cs, start, end, max) {
            Some(v) => Some((false, v)),
            None => None,
        }
    }
}

/// The array element a `set` target names (see `slice_target`).
pub fn parse_slice_target(word: &Word) -> (r: Option<(String, SliceIndexIR)>)
    ensures
        match r {
            Some((name, idx)) => slice_target(*word) matches Some((n, t)) && name@ == n && index_is(idx, t),
            None => slice_target(*word) is None,
        },
{
    if let Some(lit) = word.as_single_literal() {
        let cs = chars_of(lit);
        let n = cs.len();
        if n > 0 && cs[n - 1] == ']' {
            match first_index_of_exec(&cs, '[') {
                Some(b) => {
                    proof {
                        assert(b < n - 1) by {
                            if b == n - 1 {
                                assert(cs@[b as int] == '[');
                            }
                        }
                    }
                    let name = string_of(&cs.as_slice()[0..b]);
                    assert(name@ =~= cs@.take(b as int));
                    let ghost idx = cs@.subrange(b + 1, n - 1);
                    if b + 1 < n - 1 && cs[b + 1] == '$' {
                        let var = string_of(&cs.as_slice()[b + 2..n - 1]);
                        assert(var@ =~= idx.drop_first());
                        return Some((name, SliceIndexIR::Dynamic(var)));
                    }
                    proof {
                        if idx.len() > 0 {
                            assert(idx[0] == cs@[b + 1]);
                        }
                    }
                    match parse_isize_exec(&cs, b + 1, n - 1) {
                        Some((neg, m)) => {
                            if neg && m > 0 {
                                return Some((name, SliceIndexIR::NegativeOffset(m as usize)));
                            } else if m > 0 {
                                return Some((name, SliceIndexIR::ZeroBased((m - 1) as usize)));
                            } else {
                                return Some((name, SliceIndexIR::ZeroBased(0)));
                            }
                        },
                        None => {
                            return None;
                        },
                    }
                },
                None => {
                    return None;
                },
            }
        }
        return None;
    } else if word.parts.len() == 3 {
        if let WordPart::Literal(prefix) = &word.parts[0] {
            let pc = chars_of(prefix.as_str());
            if pc.len() > 0 && pc[pc.len() - 1] == '[' {
                if let WordPart::Variable(vref) = &word.parts[1] {
                    if let Some(var_name) = vref.name() {
                        if let WordPart::Literal(suffix) = &word.parts[2] {
                            if str_eq(suffix.as_str(), "]") {
                                let name = string_of(&pc.as_slice()[0..pc.len() - 1]);
                                assert(name@ =~= prefix@.drop_last());
                                return Some(
                                    (name, SliceIndexIR::Dynamic(to_owned_string(var_name))),
                                );
                            }
                        }
                    }
                }
            }
        }
    }
    None
}

/// Whether a word is a literal starting with `-`.
pub open spec fn is_flag_word(w: Word) -> bool {
    match single_literal(w) {
        Some(t) => t.len() > 0 && t[0] == '-',
        None => false,
    }
}

/// The position of the first argument from `j` on that is not a flag (the
/// variable `set` acts on), or the number of arguments if there is none.
pub open spec fn target_from(args: Seq<Word>, j: int) -> int
    decreases args.len() - j,
{
    if j < 0 || j >= args.len() {
        args.len() as int
    } else if is_flag_word(args[j]) {
        target_from(args, j + 1)
    } else {
        j
    }
}

/// Whether the literal `name` occurs among the arguments `1..t`.
pub open spec fn flag_before(args: Seq<Word>, t: int, name: Seq<char>) -> bool {
    exists|j: int| 1 <= j < t && single_literal(#[trigger] args[j]) == Some(name)
}

pub open spec fn set_flag(args: Seq<Word>, t: int, short: Seq<char>, long: Seq<char>) -> bool {
    flag_before(args, t, short) || flag_before(args, t, long)
}

/// Whether `lower_set_assignment` gives an assignment: no `-q`/`--query`
/// before the target, a target exists, and it is a slice target or a plain
/// literal.
pub open spec fn set_outcome_some(c: Command) -> bool {
    let args = c.args@;
    let t = target_from(args, 1);
    &&& !set_flag(args, t, "-q"@, "--query"@)
    &&& t < args.len()
    &&& (slice_target(args[t]) is Some || single_literal(args[t]) is Some)
}

/// The assignment `set FLAGS... TARGET VALUES...` lowers to. Flags (literal
/// arguments starting with `-` before the target) select the kind: `-e`
/// erases, `-a` appends, `-p` prepends, `-x` (or `-gx`/`-xg`) exports, `-l`
/// makes a function local (a global outside functions); otherwise a global
/// (declared as such inside functions). A target `NAME[INDEX]` assigns or
/// erases one element; `argv[-1]` with a value replaces the last positional
/// parameter.
pub open spec fn set_lowers(c: Command, scope: Scope, r: Option<AssignmentIR>) -> bool
    decreases c, 0int,
{
    let args = c.args@;
    let t = target_from(args, 1);
    if !set_outcome_some(c) {
        r is None
    } else {
        proof {
            lemma_target_from_ge(args, 1);
        }
        let target = args[t];
        let nvals = args.len() - (t + 1);
        let vals = args.subrange(t + 1, args.len() as int);
        let erase = set_flag(args, t, "-e"@, "--erase"@);
        match slice_target(target) {
            Some((name, idx)) => if name == "argv"@ && idx == TargetIndex::NegativeOffset(1) && nvals
                > 0 {
                r matches Some(AssignmentIR::ArgvLast { value }) && word_lower(
                    args[t + 1],
                    value,
                    scope,
                )
            } else if erase {
                r matches Some(AssignmentIR::SliceErase { name: n, index }) && n@ == name && index_is(
                    index,
                    idx,
                )
            } else {
                r matches Some(AssignmentIR::SliceAssign { name: n, index, value }) && n@ == name
                    && index_is(index, idx) && (if nvals > 0 {
                    word_lower(args[t + 1], value, scope)
                } else {
                    lowered_literal(value) == Some(Seq::<char>::empty())
                })
            },
            None => {
                let name = single_literal(target).unwrap();
                match r {
                    Some(AssignmentIR::Erase { name: n }) => erase && n@ == name,
                    Some(AssignmentIR::Append { name: n, values }) => !erase && set_flag(
                        args,
                        t,
                        "-a"@,
                        "--append"@,
                    ) && n@ == name && words_lower(vals, values@, scope),
                    Some(AssignmentIR::Prepend { name: n, values }) => !erase && !set_flag(
                        args,
                        t,
                        "-a"@,
                        "--append"@,
                    ) && set_flag(args, t, "-p"@, "--prepend"@) && n@ == name && words_lower(
                        vals,
                        values@,
                        scope,
                    ),
                    Some(AssignmentIR::Export { name: n, values }) => !erase && !set_flag(
                        args,
                        t,
                        "-a"@,
                        "--append"@,
                    ) && !set_flag(args, t, "-p"@, "--prepend"@) && (set_flag(
                        args,
                        t,
                        "-x"@,
                        "--export"@,
                    ) || set_flag(args, t, "-gx"@, "-xg"@)) && n@ == name && words_lower(
                        vals,
                        values@,
                        scope,
                    ),
                    Some(AssignmentIR::Local { name: n, values }) => !erase && !set_flag(
                        args,
                        t,
                        "-a"@,
                        "--append"@,
                    ) && !set_flag(args, t, "-p"@, "--prepend"@) && !(set_flag(
                        args,
                        t,
                        "-x"@,
                        "--export"@,
                    ) || set_flag(args, t, "-gx"@, "-xg"@)) && set_flag(
                        args,
                        t,
                        "-l"@,
                        "--local"@,
                    ) && scope.in_function && n@ == name && words_lower(vals, values@, scope),
                    Some(AssignmentIR::Global { name: n, values, in_function }) => !erase && !set_flag(
                        args,
                        t,
                        "-a"@,
                        "--append"@,
                    ) && !set_flag(args, t, "-p"@, "--prepend"@) && !(set_flag(
                        args,
                        t,
                        "-x"@,
                        "--export"@,
                    ) || set_flag(args, t, "-gx"@, "-xg"@)) && n@ == name && words_lower(
                        vals,
                        values@,
                        scope,
                    ) && (if set_flag(args, t, "-l"@, "--local"@) {
                        !scope.in_function && !in_function
                    } else {
                        in_function == scope.in_function
                    }),
                    _ => false,
                }
            },
        }
    }
}


proof fn lemma_flag_before_step(args: Seq<Word>, i: int, name: Seq<char>)
    requires
        1 <= i < args.len(),
    ensures
        flag_before(args, i + 1, name) == (flag_before(args, i, name) || single_literal(args[i])
            == Some(name)),
{
    if flag_before(args, i + 1, name) && !flag_before(args, i, name) {
        let j = choose|j: int| 1 <= j < i + 1 && single_literal(#[trigger] args[j]) == Some(name);
        assert(j == i);
    }
}

proof fn lemma_flags_step(args: Seq<Word>, i: int)
    requires
        1 <= i < args.len(),
    ensures
        forall|name: Seq<char>|
            #![trigger flag_before(args, i + 1, name)]
            flag_before(args, i + 1, name) == (flag_before(args, i, name) || single_literal(args[i])
                == Some(name)),
{
    assert forall|name: Seq<char>| #![trigger flag_before(args, i + 1, name)]
        flag_before(args, i + 1, name) == (flag_before(args, i, name) || single_literal(args[i])
            == Some(name)) by {
        lemma_flag_before_step(args, i, name);
    }
}

pub proof fn lemma_target_from_ge(args: Seq<Word>, j: int)
    requires
        0 <= j <= args.len(),
    ensures
        j <= target_from(args, j) <= args.len(),
    decreases args.len() - j,
{
    if j < args.len() && is_flag_word(args[j]) {
        lemma_target_from_ge(args, j + 1);
    }
}

/// The option a `set` flag stands for: 1 query, 2 local, 3 export,
/// 4 append, 5 prepend, 6 erase, 0 any other.
pub open spec fn flag_kind_spec(t: Seq<char>) -> u8 {
    if t == "-q"@ || t == "--query"@ {
        1
    } else if t == "-l"@ || t == "--local"@ {
        2
    } else if t == "-x"@ || t == "--export"@ || t == "-gx"@ || t == "-xg"@ {
        3
    } else if t == "-a"@ || t == "--append"@ {
        4
    } else if t == "-p"@ || t == "--prepend"@ {
        5
    } else if t == "-e"@ || t == "--erase"@ {
        6
    } else {
        0
    }
}

proof fn lemma_flag_kind(t: Seq<char>)
    ensures
        (t == "-q"@ || t == "--query"@) <==> flag_kind_spec(t) == 1,
        (t == "-l"@ || t == "--local"@) <==> flag_kind_spec(t) == 2,
        (t == "-x"@ || t == "--export"@ || t == "-gx"@ || t == "-xg"@) <==> flag_kind_spec(t) == 3,
        (t == "-a"@ || t == "--append"@) <==> flag_kind_spec(t) == 4,
        (t == "-p"@ || t == "--prepend"@) <==> flag_kind_spec(t) == 5,
        (t == "-e"@ || t == "--erase"@) <==> flag_kind_spec(t) == 6,
{
    reveal_strlit("-q");
    reveal_strlit("--query");
    reveal_strlit("-l");
    reveal_strlit("--local");
    reveal_strlit("-x");
    reveal_strlit("--export");
    reveal_strlit("-gx");
    reveal_strlit("-xg");
    reveal_strlit("-a");
    reveal_strlit("--append");
    reveal_strlit("-p");
    reveal_strlit("--prepend");
    reveal_strlit("-e");
    reveal_strlit("--erase");
    if t.len() == 2 {
        assert(t == "-q"@ ==> t[1] == 'q');
        assert(t == "-l"@ ==> t[1] == 'l');
        assert(t == "-x"@ ==> t[1] == 'x');
        assert(t == "-a"@ ==> t[1] == 'a');
        assert(t == "-p"@ ==> t[1] == 'p');
        assert(t == "-e"@ ==> t[1] == 'e');
    }
    if t.len() == 3 {
        assert(t == "-gx"@ ==> t[1] == 'g');
        assert(t == "-xg"@ ==> t[1] == 'x');
    }
    if t.len() > 3 {
        assert(t == "--query"@ ==> t[2] == 'q');
        assert(t == "--local"@ ==> t[2] == 'l');
        assert(t == "--export"@ ==> t[2] == 'e' && t.len() == 8);
        assert(t == "--append"@ ==> t[2] == 'a');
        assert(t == "--prepend"@ ==> t[2] == 'p');
        assert(t == "--erase"@ ==> t[2] == 'e' && t.len() == 7);
    }
}

fn flag_kind(lit: &str) -> (r: u8)
    ensures
        r == flag_kind_spec(lit@),
{
    if str_eq(lit, "-q") || str_eq(lit, "--query") {
        1
    } else if str_eq(lit, "-l") || str_eq(lit, "--local") {
        2
    } else if str_eq(lit, "-x") || str_eq(lit, "--export") || str_eq(lit, "-gx") || str_eq(
        lit,
        "-xg",
    ) {
        3
    } else if str_eq(lit, "-a") || str_eq(lit, "--append") {
        4
    } else if str_eq(lit, "-p") || str_eq(lit, "--prepend") {
        5
    } else if str_eq(lit, "-e") || str_eq(lit, "--erase") {
        6
    } else {
        0
    }
}

/// The assignment a `set` command lowers to (see `set_lowers`).
pub fn lower_set_assignment(cmd: &Command, scope: &Scope) -> (r: Option<AssignmentIR>)
    ensures
        set_lowers(*cmd, *scope, r),
        r is Some == set_outcome_some(*cmd),
    decreases cmd, 0int,
{
    let ghost args = cmd.args@;
    let n = cmd.args.len();
    if n == 0 {
        return None;
    }
    let mut is_local = false;
    let mut is_export = false;
    let mut is_append = false;
    let mut is_prepend = false;
    let mut is_erase = false;
    let mut target: Option<usize> = None;
    let mut values: Vec<LoweredWord> = Vec::new();
    let mut i: usize = 1;
    while i < n
        invariant
            args == cmd.args@,
            n == args.len(),
            1 <= i <= n,
            match target {
                None => {
                    &&& values@.len() == 0
                    &&& target_from(args, 1) == target_from(args, i as int)
                    &&& is_local == set_flag(args, i as int, "-l"@, "--local"@)
                    &&& is_export == (set_flag(args, i as int, "-x"@, "--export"@) || set_flag(
                        args,
                        i as int,
                        "-gx"@,
                        "-xg"@,
                    ))
                    &&& is_append == set_flag(args, i as int, "-a"@, "--append"@)
                    &&& is_prepend == set_flag(args, i as int, "-p"@, "--prepend"@)
                    &&& is_erase == set_flag(args, i as int, "-e"@, "--erase"@)
                    &&& !set_flag(args, i as int, "-q"@, "--query"@)
                },
                Some(t) => {
                    &&& t == target_from(args, 1)
                    &&& 1 <= t < i
                    &&& is_local == set_flag(args, t as int, "-l"@, "--local"@)
                    &&& is_export == (set_flag(args, t as int, "-x"@, "--export"@) || set_flag(
                        args,
                        t as int,
                        "-gx"@,
                        "-xg"@,
                    ))
                    &&& is_append == set_flag(args, t as int, "-a"@, "--append"@)
                    &&& is_prepend == set_flag(args, t as int, "-p"@, "--prepend"@)
                    &&& is_erase == set_flag(args, t as int, "-e"@, "--erase"@)
                    &&& !set_flag(args, t as int, "-q"@, "--query"@)
                    &&& words_lower(args.subrange(t + 1, i as int), values@, *scope)
                },
            },
        decreases n - i,
    {
        let arg = &cmd.args[i];
        match target {
            None => {
                let mut flag = false;
                if let Some(lit) = arg.as_single_literal() {
                    if starts_with_char(lit, '-') {
                        flag = true;
                        proof {
                            lemma_flags_step(args, i as int);
                            assert(is_flag_word(args[i as int]));
                        }
                        let kind = flag_kind(lit);
                        proof {
                            lemma_flag_kind(lit@);
                        }
                        if kind == 1 {
                            proof {
                                lemma_target_from_ge(args, i + 1);
                                let t = target_from(args, 1);
                                assert(flag_before(args, t, lit@));
                                assert(!set_outcome_some(*cmd));
                            }
                            return None;
                        } else if kind == 2 {
                            is_local = true;
                        } else if kind == 3 {
                            is_export = true;
                        } else if kind == 4 {
                            is_append = true;
                        } else if kind == 5 {
                            is_prepend = true;
                        } else if kind == 6 {
                            is_erase = true;
                        }
                    }
                }
                proof {
                    if flag {
                        assert(target_from(args, i as int) == target_from(args, i + 1));
                        assert(is_local == set_flag(args, i + 1, "-l"@, "--local"@));
                        assert(is_export == (set_flag(args, i + 1, "-x"@, "--export"@) || set_flag(
                            args,
                            i + 1,
                            "-gx"@,
                            "-xg"@,
                        )));
                        assert(is_append == set_flag(args, i + 1, "-a"@, "--append"@));
                        assert(is_prepend == set_flag(args, i + 1, "-p"@, "--prepend"@));
                        assert(is_erase == set_flag(args, i + 1, "-e"@, "--erase"@));
                        assert(!set_flag(args, i + 1, "-q"@, "--query"@));
                    }
                }
                if !flag {
                    proof {
                        assert(!is_flag_word(args[i as int]));
                        assert(target_from(args, i as int) == i);
                    }
                    target = Some(i);
                    proof {
                        assert(args.subrange(i + 1, i + 1) =~= Seq::<Word>::empty());
                    }
                }
            },
            Some(t) => {
                let lw = lower_word(arg, scope);
                let ghost before = values@;
                values.push(lw);
                proof {
                    assert(args.subrange(t + 1, i + 1).drop_last() =~= args.subrange(
                        t + 1,
                        i as int,
                    ));
                    assert(values@.drop_last() =~= before);
                }
            },
        }
        i = i + 1;
    }
    let t = match target {
        Some(t) => t,
        None => {
            proof {
                assert(target_from(args, n as int) == n);
            }
            return None;
        },
    };
    proof {
        assert(args.subrange(t + 1, n as int) == args.subrange(t + 1, args.len() as int));
    }
    let tw = &cmd.args[t];
    match parse_slice_target(tw) {
        Some((name, idx)) => {
            let argv_last = str_eq(name.as_str(), "argv") && match idx {
                SliceIndexIR::NegativeOffset(k) => k == 1,
                _ => false,
            };
            if argv_last && values.len() > 0 {
                let ghost vs = values@;
                let value = values.remove(0);
                proof {
                    assert(args.subrange(t + 1, n as int)[0] == args[t + 1]);
                    assert(vs[0] == value);
                    lemma_words_lower_first(args.subrange(t + 1, n as int), vs, *scope);
                }
                return Some(AssignmentIR::ArgvLast { value });
            }
            if is_erase {
                return Some(AssignmentIR::SliceErase { name, index: idx });
            }
            let value = if values.len() > 0 {
                let ghost vs = values@;
                let v = values.remove(0);
                proof {
                    assert(args.subrange(t + 1, n as int)[0] == args[t + 1]);
                    lemma_words_lower_first(args.subrange(t + 1, n as int), vs, *scope);
                }
                v
            } else {
                proof {
                    reveal_strlit("");
                    assert(""@ =~= Seq::<char>::empty());
                }
                LoweredWord::from_literal("")
            };
            Some(AssignmentIR::SliceAssign { name, index: idx, value })
        },
        None => {
            let name = match tw.as_single_literal() {
                Some(s) => to_owned_string(s),
                None => {
                    return None;
                },
            };
            if is_erase {
                Some(AssignmentIR::Erase { name })
            } else if is_append {
                Some(AssignmentIR::Append { name, values })
            } else if is_prepend {
                Some(AssignmentIR::Prepend { name, values })
            } else if is_export {
                Some(AssignmentIR::Export { name, values })
            } else if is_local {
                if scope.in_function {
                    Some(AssignmentIR::Local { name, values })
                } else {
                    Some(AssignmentIR::Global { name, values, in_function: false })
                }
            } else {
                Some(AssignmentIR::Global { name, values, in_function: scope.in_function })
            }
        },
    }
}

proof fn lemma_words_lower_first(a: Seq<Word>, l: Seq<LoweredWord>, scope: Scope)
    requires
        words_lower(a, l, scope),
        a.len() > 0,
    ensures
        word_lower(a[0], l[0], scope),
    decreases a.len(),
{
    if a.len() > 1 {
        lemma_words_lower_first(a.drop_last(), l.drop_last(), scope);
        assert(a.drop_last()[0] == a[0]);
        assert(l.drop_last()[0] == l[0]);
    }
}

/// Whether `-q`/`--query` occurs among the arguments after the first.
pub open spec fn query_flag(args: Seq<Word>) -> bool {
    exists|j: int|
        1 <= j < args.len() && (single_literal(#[trigger] args[j]) == Some("-q"@) || single_literal(
            args[j],
        ) == Some("--query"@))
}

/// The first literal from position `j` on that does not start with `-`.
pub open spec fn first_plain_from(args: Seq<Word>, j: int) -> Option<Seq<char>>
    decreases args.len() - j,
{
    if j < 0 || j >= args.len() {
        None
    } else {
        match single_literal(args[j]) {
            Some(t) => if t.len() > 0 && t[0] == '-' {
                first_plain_from(args, j + 1)
            } else {
                Some(t)
            },
            None => first_plain_from(args, j + 1),
        }
    }
}

/// Whether `set` is a query of a variable.
pub open spec fn set_query_some(c: Command) -> bool {
    query_flag(c.args@) && first_plain_from(c.args@, 1) is Some
}

/// A `set --query VAR` becomes a test: `[ $# -gt 0 ]` for `argv` (or
/// `argv[-1]`), `[ -n "${VAR:-}" ]` otherwise.
pub open spec fn set_query_lower(c: Command, l: LoweredCommand) -> bool {
    let v = first_plain_from(c.args@, 1).unwrap();
    &&& l.assignments@.len() == 0
    &&& l.redirections@.len() == 0
    &&& if v == "argv[-1]"@ || v == "argv"@ {
        literal_words(l.args@, seq!["["@, "$#"@, "-gt"@, "0"@, "]"@])
    } else {
        literal_words(l.args@, seq!["["@, "-n"@, "\"${"@ + v + ":-}\""@, "]"@])
    }
}

/// The test a `set --query` command lowers to (see `set_query_lower`).
pub fn lower_set_query(cmd: &Command) -> (r: Option<LoweredCommand>)
    ensures
        r is Some == set_query_some(*cmd),
        r matches Some(l) ==> set_query_lower(*cmd, l),
{
    let ghost args = cmd.args@;
    let mut is_query = false;
    let mut query_var: Option<&str> = None;
    let mut i: usize = 1;
    while i < cmd.args.len()
        invariant
            args == cmd.args@,
            1 <= i,
            i <= args.len() || args.len() == 0,
            args.len() == 0 ==> i == 1,
            is_query == (exists|j: int|
                1 <= j < i && (single_literal(#[trigger] args[j]) == Some("-q"@) || single_literal(
                    args[j],
                ) == Some("--query"@))),
            match query_var {
                Some(v) => first_plain_from(args, 1) == Some(v@),
                None => first_plain_from(args, 1) == first_plain_from(args, i as int),
            },
        decreases args.len() - i,
    {
        let ghost qv = query_var;
        proof {
            reveal_strlit("-q");
            reveal_strlit("--query");
        }
        if let Some(lit) = cmd.args[i].as_single_literal() {
            if str_eq(lit, "-q") || str_eq(lit, "--query") {
                is_query = true;
            } else if query_var.is_none() && !starts_with_char(lit, '-') {
                query_var = Some(lit);
            }
        }
        proof {
            assert(is_query == (exists|j: int|
                1 <= j < i + 1 && (single_literal(#[trigger] args[j]) == Some("-q"@) || single_literal(
                    args[j],
                ) == Some("--query"@)))) by {
                if single_literal(args[i as int]) == Some("-q"@) || single_literal(args[i as int]) == Some("--query"@) {
                    assert(1 <= i < i + 1);
                }
            }
        }
        i = i + 1;
    }
    proof {
        if args.len() == 0 {
            assert(!query_flag(args));
        }
        if query_var is None {
            assert(first_plain_from(args, i as int) is None);
        }
        if args.len() > 0 {
            assert(i == args.len());
        }
        if is_query {
            let j = choose|j: int|
                1 <= j < i && (single_literal(#[trigger] args[j]) == Some("-q"@) || single_literal(
                    args[j],
                ) == Some("--query"@));
            assert(1 <= j);
            assert(j < i);
            assert(j < args.len());
            assert(single_literal(args[j]) == Some("-q"@) || single_literal(args[j]) == Some(
                "--query"@,
            ));
        }
        if query_flag(args) {
            let j = choose|j: int|
                1 <= j < args.len() && (single_literal(#[trigger] args[j]) == Some("-q"@)
                    || single_literal(args[j]) == Some("--query"@));
            assert(1 <= j < i && (single_literal(args[j]) == Some("-q"@) || single_literal(args[j])
                == Some("--query"@)));
        }
        assert(is_query == query_flag(args));
    }
    if !is_query {
        return None;
    }
    let var = match query_var {
        Some(v) => v,
        None => {
            return None;
        },
    };
    let mut words: Vec<LoweredWord> = Vec::new();
    if str_eq(var, "argv[-1]") || str_eq(var, "argv") {
        words.push(LoweredWord::from_literal("["));
        words.push(LoweredWord::from_literal("$#"));
        words.push(LoweredWord::from_literal("-gt"));
        words.push(LoweredWord::from_literal("0"));
        words.push(LoweredWord::from_literal("]"));
        let l = LoweredCommand { assignments: Vec::new(), args: words, redirections: Vec::new() };
        proof {
            assert(literal_words(l.args@, seq!["["@, "$#"@, "-gt"@, "0"@, "]"@]));
        }
        Some(l)
    } else {
        let mut e = String::new();
        e.append("\"${");
        e.append(var);
        e.append(":-}\"");
        words.push(LoweredWord::from_literal("["));
        words.push(LoweredWord::from_literal("-n"));
        words.push(LoweredWord::from_string(e));
        words.push(LoweredWord::from_literal("]"));
        let l = LoweredCommand { assignments: Vec::new(), args: words, redirections: Vec::new() };
        proof {
            assert(literal_words(l.args@, seq!["["@, "-n"@, "\"${"@ + var@ + ":-}\""@, "]"@]));
        }
        Some(l)
    }
}

/// Whether `set`'s flags (before its target) include the short or the long
/// form.
pub open spec fn has_set_flag(c: Command, short: Seq<char>, long: Seq<char>) -> bool {
    set_flag(c.args@, target_from(c.args@, 1), short, long)
}

/// Which assignment `set NAME VALUES...` (a plain name) becomes is decided
/// by its flags in this order: `-e` erases; else `-a` appends; else `-p`
/// prepends; else `-x` (or `-gx`/`-xg`) exports; else `-l` gives a local
/// inside a function; otherwise a global, marked as set inside a function
/// exactly when it is.
pub proof fn lemma_set_flag_precedence(c: Command, scope: Scope, a: AssignmentIR)
    requires
        set_lowers(c, scope, Some(a)),
        slice_target(c.args@[target_from(c.args@, 1)]) is None,
    ensures
        a is Erase <==> has_set_flag(c, "-e"@, "--erase"@),
        a is Append <==> !has_set_flag(c, "-e"@, "--erase"@) && has_set_flag(c, "-a"@, "--append"@),
        a is Prepend <==> !has_set_flag(c, "-e"@, "--erase"@) && !has_set_flag(c, "-a"@, "--append"@)
            && has_set_flag(c, "-p"@, "--prepend"@),
        a is Export <==> !has_set_flag(c, "-e"@, "--erase"@) && !has_set_flag(c, "-a"@, "--append"@)
            && !has_set_flag(c, "-p"@, "--prepend"@) && (has_set_flag(c, "-x"@, "--export"@)
            || has_set_flag(c, "-gx"@, "-xg"@)),
        a is Local <==> !has_set_flag(c, "-e"@, "--erase"@) && !has_set_flag(c, "-a"@, "--append"@)
            && !has_set_flag(c, "-p"@, "--prepend"@) && !(has_set_flag(c, "-x"@, "--export"@)
            || has_set_flag(c, "-gx"@, "-xg"@)) && has_set_flag(c, "-l"@, "--local"@)
            && scope.in_function,
        a matches AssignmentIR::Global { in_function, .. } ==> in_function == scope.in_function,
        a is Erase || a is Append || a is Prepend || a is Export || a is Local || a is Global,
{
}

/// Flags walk up to the first argument that is not one.
proof fn lemma_target_from_flags(args: Seq<Word>, j: int, t: int)
    requires
        1 <= j <= t < args.len(),
        forall|k: int| j <= k < t ==> is_flag_word(#[trigger] args[k]),
        !is_flag_word(args[t]),
    ensures
        target_from(args, j) == t,
    decreases t - j,
{
    if j < t {
        lemma_target_from_flags(args, j + 1, t);
    }
}

/// `set FLAGS... NAME VALUES...`, where the flags are literals starting
/// with `-` other than `-q`/`--query` and `NAME` is a literal that neither
/// starts with `-` nor holds `[`, always gives an assignment to `NAME`,
/// whose kind the flags decide in the order of `lemma_set_flag_precedence`.
pub proof fn lemma_set_plain_assignment(
    c: Command,
    scope: Scope,
    r: Option<AssignmentIR>,
    t: int,
    name: Seq<char>,
)
    requires
        1 <= t < c.args@.len(),
        forall|j: int|
            1 <= j < t ==> is_flag_word(#[trigger] c.args@[j]) && single_literal(c.args@[j]) != Some(
                "-q"@,
            ) && single_literal(c.args@[j]) != Some("--query"@),
        single_literal(c.args@[t]) == Some(name),
        name.len() > 0,
        name[0] != '-',
        !name.contains('['),
        set_lowers(c, scope, r),
    ensures
        target_from(c.args@, 1) == t,
        set_outcome_some(c),
        r matches Some(a) && match a {
            AssignmentIR::Erase { name: n } => n@ == name,
            AssignmentIR::Append { name: n, .. } => n@ == name,
            AssignmentIR::Prepend { name: n, .. } => n@ == name,
            AssignmentIR::Export { name: n, .. } => n@ == name,
            AssignmentIR::Local { name: n, .. } => n@ == name,
            AssignmentIR::Global { name: n, .. } => n@ == name,
            _ => false,
        },
        r matches Some(a) ==> {
            &&& a is Erase <==> has_set_flag(c, "-e"@, "--erase"@)
            &&& a is Append <==> !has_set_flag(c, "-e"@, "--erase"@) && has_set_flag(
                c,
                "-a"@,
                "--append"@,
            )
            &&& a is Prepend <==> !has_set_flag(c, "-e"@, "--erase"@) && !has_set_flag(
                c,
                "-a"@,
                "--append"@,
            ) && has_set_flag(c, "-p"@, "--prepend"@)
            &&& a is Export <==> !has_set_flag(c, "-e"@, "--erase"@) && !has_set_flag(
                c,
                "-a"@,
                "--append"@,
            ) && !has_set_flag(c, "-p"@, "--prepend"@) && (has_set_flag(c, "-x"@, "--export"@)
                || has_set_flag(c, "-gx"@, "-xg"@))
            &&& a is Local <==> !has_set_flag(c, "-e"@, "--erase"@) && !has_set_flag(
                c,
                "-a"@,
                "--append"@,
            ) && !has_set_flag(c, "-p"@, "--prepend"@) && !(has_set_flag(c, "-x"@, "--export"@)
                || has_set_flag(c, "-gx"@, "-xg"@)) && has_set_flag(c, "-l"@, "--local"@)
                && scope.in_function
            &&& a matches AssignmentIR::Global { in_function, .. } ==> in_function
                == scope.in_function
        },
{
    let args = c.args@;
    assert(!is_flag_word(args[t]));
    lemma_target_from_flags(args, 1, t);
    lemma_first_index_of(name, '[');
    if let Some(i) = first_index_of(name, '[') {
        assert(name.contains('['));
    }
    assert(slice_target(args[t]) is None);
    assert(!flag_before(args, t, "-q"@));
    assert(!flag_before(args, t, "--query"@));
    assert(set_outcome_some(c));
    if let Some(a) = r {
        lemma_set_flag_precedence(c, scope, a);
    }
}

} // verus!
