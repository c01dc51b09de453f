//! Configuration resolution and the error taxonomy of the tool. The
//! resolver validates the raw argument vector and assembles the search
//! configuration; it performs no I/O and never looks inside the query or
//! the path.

use vstd::prelude::*;

verus! {

/// How many positional arguments an argument vector carries: everything
/// after the program name.
pub open spec fn positional_count(n: nat) -> nat {
    if n == 0 {
        0
    } else {
        (n - 1) as nat
    }
}

/// The number of positional arguments the tool expects: a query and a
/// file path.
pub const EXPECTED_ARGS: usize = 2;

/// The resolved configuration of one search run. Immutable once built.
pub struct SearchConfig {
    /// The substring being searched for.
    pub query: String,
    /// The path of the file whose lines are searched.
    pub file_path: String,
    /// Whether letter case is ignored when matching. Matching only:
    /// reported lines always keep their original case.
    pub case_insensitive: bool,
}

/// Everything that can go wrong before the search runs. An empty match
/// set is not an error.
#[derive(Debug)]
pub enum SearchError {
    /// The argument vector did not carry exactly the expected number of
    /// positional arguments.
    MissingArguments { expected: usize, actual: usize },
    /// The file could not be read as text; carries the description of
    /// the underlying cause, unchanged.
    FileReadError(String),
}

/// Builds the configuration from the raw argument vector — the program
/// name first, then the positional arguments — and from the external
/// case-insensitivity flag. Succeeds exactly when the query and the file
/// path are both present and nothing else is.
pub fn resolve_config(args: &Vec<String>, case_insensitive: bool) -> (r: Result<
    SearchConfig,
    SearchError,
>)
    ensures
        r is Ok <==> args@.len() == 3,
        r matches Ok(c) ==> c.query@ == args@[1]@ && c.file_path@ == args@[2]@
            && c.case_insensitive == case_insensitive,
        r matches Err(e) ==> e matches SearchError::MissingArguments { expected, actual }
            && expected == EXPECTED_ARGS && actual == positional_count(args@.len()),
{
    if args.len() == 3 {
        Ok(
            SearchConfig {
                query: args[1].clone(),
                file_path: args[2].clone(),
                case_insensitive,
            },
        )
    } else {
        let actual = if args.len() == 0 {
            0
        } else {
            args.len() - 1
        };
        Err(SearchError::MissingArguments { expected: EXPECTED_ARGS, actual })
    }
}

} // verus!
