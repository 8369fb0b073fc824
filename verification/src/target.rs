//! The Bash dialect a script is transpiled for.

use vstd::prelude::*;

verus! {

/// A Bash version to emit code for.
#[derive(Debug, Clone, Copy, PartialEq, Eq, Default)]
pub enum Target {
    #[default]
    Bash5,
    Bash3_2,
}

/// `c` with ASCII capitals made small.
pub open spec fn ascii_lower_char(c: char) -> char {
    if 'A' <= c && c <= 'Z' {
        ((c as u32) + 32) as char
    } else {
        c
    }
}

pub open spec fn ascii_lower(s: Seq<char>) -> Seq<char> {
    s.map_values(|c: char| ascii_lower_char(c))
}

/// The target a name stands for, ignoring ASCII case: `bash5`, `5`,
/// `bash-5` or `bash5.0` for Bash 5; `bash3.2`, `bash32`, `3.2` or
/// `bash-3.2` for Bash 3.2.
pub open spec fn target_named(s: Seq<char>) -> Option<Target> {
    let t = ascii_lower(s);
    if t == "bash5"@ || t == "5"@ || t == "bash-5"@ || t == "bash5.0"@ {
        Some(Target::Bash5)
    } else if t == "bash3.2"@ || t == "bash32"@ || t == "3.2"@ || t == "bash-3.2"@ {
        Some(Target::Bash3_2)
    } else {
        None
    }
}

/// The canonical name of a target.
pub open spec fn target_name(t: Target) -> Seq<char> {
    match t {
        Target::Bash5 => "bash5"@,
        Target::Bash3_2 => "bash3.2"@,
    }
}

/// The canonical name of each target names that target.
pub proof fn lemma_target_name_round_trip(t: Target)
    ensures
        target_named(target_name(t)) == Some(t),
{
    reveal_strlit("bash5");
    reveal_strlit("bash3.2");
    reveal_strlit("5");
    reveal_strlit("bash-5");
    reveal_strlit("bash5.0");
    assert(ascii_lower("bash5"@) =~= "bash5"@);
    assert(ascii_lower("bash3.2"@) =~= "bash3.2"@);
    if t == Target::Bash3_2 {
        assert("bash3.2"@.len() != "bash5"@.len());
        assert("bash3.2"@.len() != "5"@.len());
        assert("bash3.2"@.len() != "bash-5"@.len());
        assert("bash3.2"@[4] != "bash5.0"@[4]);
    }
}

/// The message for a name that is no target.
pub open spec fn unsupported_message(s: Seq<char>) -> Seq<char> {
    "unsupported target: '"@ + s + "', expected 'bash5' or 'bash3.2'"@
}

fn lower_ascii(s: &str) -> (r: String)
    ensures
        r@ == ascii_lower(s@),
{
    let cs = crate::text::chars_of(s);
    let mut out = String::new();
    let mut i: usize = 0;
    while i < cs.len()
        invariant
            i <= cs@.len(),
            cs@ == s@,
            out@ == ascii_lower(s@.take(i as int)),
        decreases cs@.len() - i,
    {
        let c = cs[i];
        let l = if 'A' <= c && c <= 'Z' {
            ((c as u8) + 32) as char
        } else {
            c
        };
        proof {
            assert(l == ascii_lower_char(c));
            assert(ascii_lower(s@.take(i + 1)) =~= ascii_lower(s@.take(i as int)).push(l));
        }
        crate::text::push_char(&mut out, l);
        i = i + 1;
    }
    proof {
        assert(s@.take(cs@.len() as int) =~= s@);
    }
    out
}

impl Target {
    /// The target named `s` (see `target_named`), or the message for an
    /// unsupported name.
    pub fn from_name(s: &str) -> (r: Result<Target, String>)
        ensures
            match r {
                Ok(t) => target_named(s@) == Some(t),
                Err(m) => target_named(s@) is None && m@ == unsupported_message(s@),
            },
    {
        let t = lower_ascii(s);
        let t = t.as_str();
        if crate::text::str_eq(t, "bash5") || crate::text::str_eq(t, "5") || crate::text::str_eq(
            t,
            "bash-5",
        ) || crate::text::str_eq(t, "bash5.0") {
            Ok(Target::Bash5)
        } else if crate::text::str_eq(t, "bash3.2") || crate::text::str_eq(t, "bash32")
            || crate::text::str_eq(t, "3.2") || crate::text::str_eq(t, "bash-3.2") {
            Ok(Target::Bash3_2)
        } else {
            let mut m = String::new();
            m.append("unsupported target: '");
            m.append(s);
            m.append("', expected 'bash5' or 'bash3.2'");
            Err(m)
        }
    }

    /// Why the target cannot be used yet: Bash 5 is supported; Bash 3.2 is
    /// planned.
    pub fn unsupported_notice(&self) -> (r: Option<&'static str>)
        ensures
            match r {
                Some(t) => *self == Target::Bash3_2 && t@ == bash32_notice(),
                None => *self == Target::Bash5,
            },
    {
        proof {
            reveal_strlit(
                "target 'bash3.2' will be supported in an upcoming release; modern Bash 5.0+ is the current target",
            );
        }
        match self {
            Target::Bash5 => None,
            Target::Bash3_2 => Some(
                "target 'bash3.2' will be supported in an upcoming release; modern Bash 5.0+ is the current target",
            ),
        }
    }

    /// The canonical name: `bash5` or `bash3.2`.
    pub fn name(&self) -> (r: &'static str)
        ensures
            r@ == target_name(*self),
    {
        match self {
            Target::Bash5 => "bash5",
            Target::Bash3_2 => "bash3.2",
        }
    }
}

/// What a Bash 3.2 target is told: it is planned, and Bash 5 is the
/// current one.
pub open spec fn bash32_notice() -> Seq<char> {
    "target 'bash3.2' will be supported in an upcoming release; modern Bash 5.0+ is the current target"@
}

/// Options for a transpilation.
#[derive(Debug, Clone, Default)]
pub struct TranspileConfig {
    pub target: Target,
}

} // verus!
