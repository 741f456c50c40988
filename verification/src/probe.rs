//! Probe an external tool through its captured text output.
//!
//! A probe runs a command (the host does the launching), searches the
//! captured output with a pattern, and maps every failure mode to one of
//! three operationally distinct categories: the command failed, the tool is
//! missing, or the output format is unrecognized.

use vstd::prelude::*;

verus! {

/// What one invocation of the command executor produced: the captured
/// standard output, whether the process launched and exited successfully,
/// and, when it did not, the raw failure detail for diagnostics.
pub struct CommandResult {
    pub succeeded: bool,
    pub output: String,
    pub failure_detail: String,
}

/// The unified classification of a failed probe.
///
/// - `CommandFailed`: the process could not be launched, or exited abnormally.
/// - `OutputUnparseable`: the tool ran and produced output, but the output did
///   not match the pattern — a compatibility break, not a missing dependency.
/// - `ToolMissing`: the tool produced no output at all, which is taken to mean
///   the underlying dependency is not installed.
#[derive(Debug, PartialEq, Eq)]
pub enum ProbeError {
    CommandFailed(String),
    OutputUnparseable(String),
    ToolMissing,
}

/// The named capture groups of the first match of `pattern` in `text`, as
/// (group name, matched text) pairs, or `None` when nothing matches.
///
/// This names what the regular-expression engine returns; it depends on the
/// pattern and the searched text alone.
pub uninterp spec fn first_match_groups(pattern: Seq<char>, text: Seq<char>) -> Option<
    Seq<(Seq<char>, Seq<char>)>,
>;

/// The (name, text) pairs a search handed back, as sequences of characters.
pub open spec fn groups_view(v: Seq<(String, String)>) -> Seq<(Seq<char>, Seq<char>)> {
    Seq::new(v.len(), |i: int| (v[i].0@, v[i].1@))
}

/// Relies on `regex::Regex::new` and `regex::Regex::captures`: the named
/// capture groups of the first match depend on the pattern and the searched
/// text alone. A pattern that does not compile matches nothing.
#[verifier::external_body]
fn search_named(pattern: &str, text: &str) -> (r: Option<Vec<(String, String)>>)
    ensures
        r is Some <==> first_match_groups(pattern@, text@) is Some,
        r is Some ==> groups_view(r->Some_0@) == first_match_groups(pattern@, text@)->Some_0,
{
    let re = match regex::Regex::new(pattern) {
        Ok(re) => re,
        Err(_) => return None,
    };
    let caps = re.captures(text)?;
    let mut out = Vec::new();
    for name in re.capture_names().flatten() {
        if let Some(m) = caps.name(name) {
            out.push((name.to_string(), m.as_str().to_string()));
        }
    }
    Some(out)
}

/// Run-and-search: classify one command invocation against a pattern.
///
/// The command itself was already executed by the host; `result` is what it
/// produced. When the command failed, no pattern extraction is attempted and
/// the raw failure detail is passed through. When it succeeded, the captured
/// output is searched with `pattern`: a match yields its named capture
/// groups; no match yields `ToolMissing` for empty output and
/// `OutputUnparseable` (carrying the output) otherwise.
pub fn probe(result: &CommandResult, pattern: &str) -> (r: Result<
    Vec<(String, String)>,
    ProbeError,
>)
    ensures
        !result.succeeded ==> (r matches Err(ProbeError::CommandFailed(d)) && d@
            == result.failure_detail@),
        result.succeeded && first_match_groups(pattern@, result.output@) is Some ==> (r matches Ok(
            v,
        ) && groups_view(v@) == first_match_groups(pattern@, result.output@)->Some_0),
        result.succeeded && first_match_groups(pattern@, result.output@) is None
            && result.output@.len() == 0 ==> r matches Err(ProbeError::ToolMissing),
        result.succeeded && first_match_groups(pattern@, result.output@) is None
            && result.output@.len() > 0 ==> (r matches Err(ProbeError::OutputUnparseable(d)) && d@
            == result.output@),
{
    if !result.succeeded {
        return Err(ProbeError::CommandFailed(result.failure_detail.clone()));
    }
    match search_named(pattern, result.output.as_str()) {
        Some(groups) => Ok(groups),
        None => {
            if result.output.as_str().is_empty() {
                Err(ProbeError::ToolMissing)
            } else {
                Err(ProbeError::OutputUnparseable(result.output.clone()))
            }
        },
    }
}

/// Run-and-search with a caller-supplied extraction: the classification of
/// `probe`, with the named groups of a match handed on to `extract`. Any
/// failure of `extract` is a caller-specific error layered on top of — not
/// replacing — the classification.
pub fn probe_with<T, E, F: FnOnce(Vec<(String, String)>) -> Result<T, E>>(
    result: &CommandResult,
    pattern: &str,
    extract: F,
) -> (r: Result<Result<T, E>, ProbeError>)
    requires
        forall|v: Vec<(String, String)>| call_requires(extract, (v,)),
    ensures
        !result.succeeded ==> (r matches Err(ProbeError::CommandFailed(d)) && d@
            == result.failure_detail@),
        result.succeeded && first_match_groups(pattern@, result.output@) is Some ==> (r matches Ok(
            inner,
        ) && exists|v: Vec<(String, String)>|
            groups_view(v@) == first_match_groups(pattern@, result.output@)->Some_0
                && call_ensures(extract, (v,), inner)),
        result.succeeded && first_match_groups(pattern@, result.output@) is None
            && result.output@.len() == 0 ==> r matches Err(ProbeError::ToolMissing),
        result.succeeded && first_match_groups(pattern@, result.output@) is None
            && result.output@.len() > 0 ==> (r matches Err(ProbeError::OutputUnparseable(d)) && d@
            == result.output@),
{
    match probe(result, pattern) {
        Ok(groups) => {
            let ghost gv = groups;
            let inner = extract(groups);
            proof {
                assert(groups_view(gv@) == first_match_groups(pattern@, result.output@)->Some_0
                    && call_ensures(extract, (gv,), inner));
            }
            Ok(inner)
        },
        Err(e) => Err(e),
    }
}

} // verus!
