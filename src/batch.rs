use vstd::prelude::*;

use crate::codec::json_parsed;
use crate::lines::LineEnding;
use crate::sort::{sort_json_string, sorted_text, JsonError};

verus! {

/// Result of sorting one file: its path as given, and the reason it failed,
/// if it did.
pub struct SortResult {
    pub path: String,
    pub error: Option<JsonError>,
}

impl SortResult {
    pub fn success(&self) -> (r: bool)
        ensures
            r == (self.error is None),
    {
        self.error.is_none()
    }

    pub open spec fn succeeded(&self) -> bool {
        self.error is None
    }
}

/// What a file's sorted contents call for: the text to write back, nothing
/// in a dry run, or the failure.
pub fn plan_write(sorted: Result<String, JsonError>, dry_run: bool) -> (r: Result<
    Option<String>,
    JsonError,
>)
    ensures
        sorted matches Err(e) ==> r == Err::<Option<String>, JsonError>(e),
        sorted matches Ok(s) ==> (dry_run ==> r == Ok::<Option<String>, JsonError>(None)) && (
        !dry_run ==> (r matches Ok(Some(t)) && t@ == s@)),
{
    match sorted {
        Ok(s) => {
            if dry_run {
                Ok(None)
            } else {
                Ok(Some(s))
            }
        },
        Err(e) => Err(e),
    }
}

/// Sorts a file's contents and says what to write back: nothing in a dry
/// run, nothing when the contents are not one JSON document (a parse
/// error), and otherwise the sorted text.
pub fn sort_contents(
    contents: &str,
    dry_run: bool,
    use_spaces: bool,
    sort_arrays: bool,
    line_ending: &LineEnding,
    indents: usize,
) -> (r: Result<Option<String>, JsonError>)
    ensures
        json_parsed(contents@) is None ==> r == Err::<Option<String>, JsonError>(
            JsonError::ParseError,
        ),
        json_parsed(contents@) is Some ==> r is Ok,
        dry_run ==> !(r matches Ok(Some(_))),
        !dry_run && json_parsed(contents@) is Some ==> r matches Ok(Some(_)),
        r matches Ok(Some(t)) ==> Ok::<Seq<char>, JsonError>(t@) == sorted_text(
            contents@,
            use_spaces,
            sort_arrays,
            *line_ending,
            indents as nat,
            LineEnding::Lf,
        ) || Ok::<Seq<char>, JsonError>(t@) == sorted_text(
            contents@,
            use_spaces,
            sort_arrays,
            *line_ending,
            indents as nat,
            LineEnding::CrLf,
        ),
{
    let sorted = sort_json_string(contents, use_spaces, sort_arrays, line_ending, indents);
    plan_write(sorted, dry_run)
}

/// How many of the results are successes.
pub open spec fn successes(rs: Seq<SortResult>) -> nat
    decreases rs.len(),
{
    if rs.len() == 0 {
        0
    } else {
        successes(rs.drop_last()) + if rs.last().succeeded() {
            1nat
        } else {
            0nat
        }
    }
}

proof fn lemma_successes_bound(rs: Seq<SortResult>)
    ensures
        successes(rs) <= rs.len(),
    decreases rs.len(),
{
    if rs.len() > 0 {
        lemma_successes_bound(rs.drop_last());
    }
}

/// The numbers of successes and of failures among the results.
pub fn count_results(results: &Vec<SortResult>) -> (r: (usize, usize))
    ensures
        r.0 == successes(results@),
        r.0 + r.1 == results@.len(),
{
    let mut ok: usize = 0;
    let mut i: usize = 0;
    while i < results.len()
        invariant
            i <= results.len(),
            ok == successes(results@.take(i as int)),
            ok <= i,
        decreases results.len() - i,
    {
        proof {
            assert(results@.take(i + 1).drop_last() =~= results@.take(i as int));
            lemma_successes_bound(results@.take(i + 1));
        }
        if results[i].success() {
            ok = ok + 1;
        }
        i = i + 1;
    }
    proof {
        assert(results@.take(results.len() as int) =~= results@);
    }
    (ok, results.len() - ok)
}

} // verus!
