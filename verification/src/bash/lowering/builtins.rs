//! Lowering of fish builtins that Bash lacks (`count`, `contains`,
//! `set --query`) into equivalent Bash commands.

pub mod contains;
pub mod count;
pub mod set;

use vstd::prelude::*;
use crate::ast::{single_literal, Command};
use crate::bash::ir::LoweredCommand;
use crate::bash::lowering::Scope;
use crate::bash::lowering::builtins::contains::{contains_lower, lower_contains};
use crate::bash::lowering::builtins::count::{count_lower, lower_count};
use crate::bash::lowering::builtins::set::{lower_set_query, set_query_lower, set_query_some};
use crate::text::str_eq;

verus! {

/// The command name: the first argument when it is a plain literal.
pub open spec fn command_name(c: Command) -> Option<Seq<char>> {
    if c.args@.len() > 0 {
        single_literal(c.args@[0])
    } else {
        None
    }
}

/// Whether `lower_builtin` has a Bash form for the command: `count`,
/// `contains`, and `set` with `-q`/`--query` and a variable.
pub open spec fn builtin_outcome(c: Command) -> bool {
    match command_name(c) {
        Some(n) => n == "count"@ || n == "contains"@ || (n == "set"@ && set_query_some(c)),
        None => false,
    }
}

/// What `lower_builtin` returns when `builtin_outcome` holds.
pub open spec fn builtin_lower(c: Command, l: LoweredCommand, scope: Scope) -> bool
    decreases c, 1int,
{
    match command_name(c) {
        Some(n) => if n == "count"@ {
            count_lower(c, l, scope)
        } else if n == "contains"@ {
            contains_lower(c, l, scope)
        } else {
            set_query_lower(c, l)
        },
        None => false,
    }
}

/// The Bash form of a builtin command, when it has one (see
/// `builtin_outcome` and `builtin_lower`).
pub fn lower_builtin(cmd: &Command, scope: &Scope) -> (r: Option<LoweredCommand>)
    ensures
        r is Some == builtin_outcome(*cmd),
        r matches Some(l) ==> builtin_lower(*cmd, l, *scope),
    decreases cmd, 1int,
{
    if cmd.args.len() == 0 {
        return None;
    }
    let name = match cmd.args[0].as_single_literal() {
        Some(n) => n,
        None => {
            return None;
        },
    };
    if str_eq(name, "count") {
        lower_count(cmd, scope)
    } else if str_eq(name, "contains") {
        lower_contains(cmd, scope)
    } else if str_eq(name, "set") {
        lower_set_query(cmd)
    } else {
        None
    }
}

} // verus!
