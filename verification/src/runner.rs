//! The runner: the part of the pipeline between loading and reporting.
//! It turns the outcome of the file read into either the finished,
//! owned list of matching lines or the error to report. All reading and
//! printing stays with the caller.

use crate::config::{SearchConfig, SearchError};
use crate::search::{search, search_result};
use vstd::prelude::*;

verus! {

/// Runs the search over the outcome of loading the file. A successful
/// load yields exactly the matching lines of the loaded text, as owned
/// copies, in text order; a failed load yields a `FileReadError` that
/// carries the cause unchanged. Nothing else can happen: an empty match
/// list is a success.
pub fn run_loaded(config: &SearchConfig, loaded: Result<String, String>) -> (r: Result<
    Vec<String>,
    SearchError,
>)
    ensures
        r is Ok <==> loaded is Ok,
        loaded matches Ok(text) ==> r matches Ok(v) && v.deep_view() == search_result(
            config.query@,
            text@,
            config.case_insensitive,
        ),
        loaded matches Err(cause) ==> r matches Err(e) && e matches SearchError::FileReadError(m)
            && m@ == cause@,
{
    match loaded {
        Ok(text) => {
            let found = search(config.query.as_str(), text.as_str(), config.case_insensitive);
            let ghost goal: Seq<Seq<char>> = found.deep_view();
            let mut out: Vec<String> = Vec::new();
            let mut i: usize = 0;
            while i < found.len()
                invariant
                    goal == found.deep_view(),
                    found@.len() == goal.len(),
                    0 <= i <= goal.len(),
                    out@.len() == i,
                    forall|k: int| 0 <= k < i ==> #[trigger] out@[k]@ == goal[k],
                decreases goal.len() - i,
            {
                let line: String = String::from_str(found[i]);
                proof {
                    assert(goal[i as int] == found@[i as int].deep_view());
                    assert(line@ == goal[i as int]);
                }
                out.push(line);
                i = i + 1;
            }
            proof {
                assert forall|k: int| 0 <= k < goal.len() implies #[trigger] out.deep_view()[k]
                    == goal[k] by {
                    assert(out@[k]@ == goal[k]);
                }
                assert(out.deep_view() =~= goal);
            }
            Ok(out)
        },
        Err(cause) => Err(SearchError::FileReadError(cause)),
    }
}

} // verus!
