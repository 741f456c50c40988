//! Version probe for the platform's developer toolset.
//!
//! Asks "which developer tools are installed, and which version?" by
//! searching the output of the system's profiler command for a line of the
//! shape `Version: <major>.<minor>` and parsing the two components as
//! unsigned decimal integers. Every failure mode is classified: the command
//! failed, the toolset is missing, the output format is unrecognized, or one
//! of the version components is not a valid number.

use vstd::prelude::*;

use crate::probe::{probe_with, first_match_groups, groups_view, CommandResult, ProbeError};

verus! {

/// Everything that can go wrong while probing the developer tools version.
///
/// `MajorVersionInvalid` and `MinorVersionInvalid` carry the literal
/// substring that defeated numeric parsing, so diagnostics show exactly what
/// text was seen.
#[derive(Debug, PartialEq, Eq)]
pub enum Error {
    SystemProfilerCommandFailed(String),
    SystemProfilerRegexFailed(String),
    SystemProfilerXcodeMissing,
    MajorVersionInvalid { major: String },
    MinorVersionInvalid { minor: String },
}

/// The probed developer toolset, reduced to its (major, minor) version.
#[derive(Debug, PartialEq, Eq)]
pub struct DeveloperTools {
    pub version: (u32, u32),
}

/// A decimal digit, by code point.
pub open spec fn is_digit(c: char) -> bool {
    48 <= c as int && c as int <= 57
}

/// The numeric value of a decimal digit.
pub open spec fn digit_val(c: char) -> int {
    c as int - 48
}

/// Every character of `s` is a decimal digit.
pub open spec fn all_digits(s: Seq<char>) -> bool {
    forall|i: int| 0 <= i < s.len() ==> is_digit(#[trigger] s[i])
}

/// The value of the first `n` characters of `s` read as a decimal numeral.
pub open spec fn digits_value(s: Seq<char>, n: int) -> int
    decreases n,
{
    if n <= 0 {
        0
    } else {
        digits_value(s, n - 1) * 10 + digit_val(s[n - 1])
    }
}

/// The value of `s` read as a decimal numeral.
pub open spec fn dec_value(s: Seq<char>) -> int {
    digits_value(s, s.len() as int)
}

/// `s` is a nonempty digit sequence whose value fits in a `u32`.
pub open spec fn parses_to_u32(s: Seq<char>) -> bool {
    s.len() > 0 && all_digits(s) && dec_value(s) <= u32::MAX
}

proof fn lemma_digits_value_nonneg(s: Seq<char>, n: int)
    requires
        n <= s.len(),
        forall|i: int| 0 <= i < n ==> is_digit(#[trigger] s[i]),
    ensures
        digits_value(s, n) >= 0,
    decreases n,
{
    if n > 0 {
        lemma_digits_value_nonneg(s, n - 1);
    }
}

proof fn lemma_digits_value_mono(s: Seq<char>, i: int, j: int)
    requires
        0 <= i <= j <= s.len(),
        forall|k: int| 0 <= k < j ==> is_digit(#[trigger] s[k]),
    ensures
        digits_value(s, i) <= digits_value(s, j),
    decreases j - i,
{
    if i < j {
        lemma_digits_value_mono(s, i, j - 1);
        lemma_digits_value_nonneg(s, j - 1);
    }
}

/// Parse a nonempty all-digit string as an unsigned 32-bit decimal integer.
///
/// Returns `Some` exactly on the strings whose decimal value fits in a
/// `u32`; anything else — empty, a non-digit anywhere, or overflow — is
/// `None`.
pub fn parse_u32(s: &str) -> (r: Option<u32>)
    ensures
        r is Some <==> parses_to_u32(s@),
        r is Some ==> r->Some_0 as int == dec_value(s@),
{
    let len = s.unicode_len();
    if len == 0 {
        return None;
    }
    let mut i: usize = 0;
    let mut acc: u64 = 0;
    while i < len
        invariant
            0 < len == s@.len(),
            0 <= i <= len,
            forall|k: int| 0 <= k < i ==> is_digit(#[trigger] s@[k]),
            acc as int == digits_value(s@, i as int),
            acc <= u32::MAX as u64,
        decreases len - i,
    {
        let c = s.get_char(i);
        let d: u32 = c as u32;
        if d < 48 || d > 57 {
            assert(!is_digit(s@[i as int]));
            return None;
        }
        let next: u64 = acc * 10 + ((d - 48) as u64);
        assert(next as int == digits_value(s@, i as int + 1));
        if next > 0xFFFF_FFFFu64 {
            proof {
                if parses_to_u32(s@) {
                    lemma_digits_value_mono(s@, i as int + 1, s@.len() as int);
                }
            }
            return None;
        }
        acc = next;
        i += 1;
    }
    Some(acc as u32)
}

/// There is a capture group named `name` among `g`.
pub open spec fn has_group(g: Seq<(Seq<char>, Seq<char>)>, name: Seq<char>) -> bool {
    exists|i: int| 0 <= i < g.len() && (#[trigger] g[i]).0 == name
}

/// The text of the first capture group named `name`, or the empty sequence
/// when no group carries that name.
pub open spec fn group_value(g: Seq<(Seq<char>, Seq<char>)>, name: Seq<char>) -> Seq<char>
    decreases g.len(),
{
    if g.len() == 0 {
        Seq::empty()
    } else if g[0].0 == name {
        g[0].1
    } else {
        group_value(g.drop_first(), name)
    }
}

proof fn lemma_group_value_at(g: Seq<(Seq<char>, Seq<char>)>, name: Seq<char>, i: int)
    requires
        0 <= i < g.len(),
        g[i].0 == name,
        forall|k: int| 0 <= k < i ==> (#[trigger] g[k]).0 != name,
    ensures
        group_value(g, name) == g[i].1,
    decreases g.len(),
{
    if i > 0 {
        lemma_group_value_at(g.drop_first(), name, i - 1);
    }
}

proof fn lemma_group_value_absent(g: Seq<(Seq<char>, Seq<char>)>, name: Seq<char>)
    requires
        forall|k: int| 0 <= k < g.len() ==> (#[trigger] g[k]).0 != name,
    ensures
        group_value(g, name) == Seq::<char>::empty(),
    decreases g.len(),
{
    if g.len() > 0 {
        lemma_group_value_absent(g.drop_first(), name);
    }
}

/// Find the first capture group named `name` and hand back a copy of its
/// text, or `None` when no group carries that name.
pub fn lookup_group(groups: &Vec<(String, String)>, name: &String) -> (r: Option<String>)
    ensures
        r is Some <==> has_group(groups_view(groups@), name@),
        r is Some ==> r->Some_0@ == group_value(groups_view(groups@), name@),
{
    let ghost g = groups_view(groups@);
    let n = groups.len();
    let mut i: usize = 0;
    while i < n
        invariant
            n == groups@.len(),
            0 <= i <= n,
            g == groups_view(groups@),
            forall|k: int| 0 <= k < i ==> (#[trigger] g[k]).0 != name@,
        decreases n - i,
    {
        if groups[i].0 == *name {
            proof {
                lemma_group_value_at(g, name@, i as int);
            }
            return Some(groups[i].1.clone());
        }
        i += 1;
    }
    proof {
        lemma_group_value_absent(g, name@);
    }
    None
}

/// What extracting the version from the named groups of a match yields:
/// an invalid (or absent) major component is reported first, then an invalid
/// minor component, each carrying the literal text that was seen; when both
/// parse, the pair of parsed values comes back.
pub open spec fn version_extraction(r: Result<DeveloperTools, Error>, g: Seq<(Seq<char>, Seq<char>)>) -> bool {
    let mj = group_value(g, "major"@);
    let mn = group_value(g, "minor"@);
    if !parses_to_u32(mj) {
        match r {
            Err(Error::MajorVersionInvalid { major }) => major@ == mj,
            _ => false,
        }
    } else if !parses_to_u32(mn) {
        match r {
            Err(Error::MinorVersionInvalid { minor }) => minor@ == mn,
            _ => false,
        }
    } else {
        match r {
            Ok(dt) => dt.version.0 as int == dec_value(mj) && dt.version.1 as int == dec_value(
                mn,
            ),
            _ => false,
        }
    }
}

/// Extract the (major, minor) version from the named capture groups of a
/// match. A group that is absent reads as empty text, which no number parses
/// from, so it is reported as an invalid component like any other unparseable
/// text.
pub fn version_from_groups(groups: &Vec<(String, String)>) -> (r: Result<DeveloperTools, Error>)
    ensures
        version_extraction(r, groups_view(groups@)),
{
    let major_name: String = String::from_str("major");
    let minor_name: String = String::from_str("minor");
    let raw_major: String = match lookup_group(groups, &major_name) {
        Some(s) => s,
        None => {
            proof {
                lemma_group_value_absent(groups_view(groups@), "major"@);
            }
            String::new()
        },
    };
    let major: u32 = match parse_u32(raw_major.as_str()) {
        Some(v) => v,
        None => {
            return Err(Error::MajorVersionInvalid { major: raw_major });
        },
    };
    let raw_minor: String = match lookup_group(groups, &minor_name) {
        Some(s) => s,
        None => {
            proof {
                lemma_group_value_absent(groups_view(groups@), "minor"@);
            }
            String::new()
        },
    };
    let minor: u32 = match parse_u32(raw_minor.as_str()) {
        Some(v) => v,
        None => {
            return Err(Error::MinorVersionInvalid { minor: raw_minor });
        },
    };
    Ok(DeveloperTools { version: (major, minor) })
}

/// The pattern that recognizes a `Version: <major>.<minor>` line.
pub open spec fn spec_version_pattern() -> Seq<char> {
    "\\bVersion: (?P<major>\\d+)\\.(?P<minor>\\d+)\\b"@
}

/// The pattern that recognizes a `Version: <major>.<minor>` line, with the
/// two components as named digit-sequence groups.
pub fn version_pattern() -> (r: &'static str)
    ensures
        r@ == spec_version_pattern(),
{
    "\\bVersion: (?P<major>\\d+)\\.(?P<minor>\\d+)\\b"
}

/// The whole contract of the version probe, case by case over one command
/// result: a failed command is reported with its raw detail; a successful
/// run with no match is classified by the empty-output heuristic; a match
/// has its named groups handed to version extraction.
pub open spec fn version_probe_outcome(result: CommandResult, r: Result<
    DeveloperTools,
    Error,
>) -> bool {
    let m = first_match_groups(spec_version_pattern(), result.output@);
    if !result.succeeded {
        match r {
            Err(Error::SystemProfilerCommandFailed(d)) => d@ == result.failure_detail@,
            _ => false,
        }
    } else {
        match m {
            Some(g) => version_extraction(r, g),
            None => {
                if result.output@.len() == 0 {
                    r == Err::<DeveloperTools, Error>(Error::SystemProfilerXcodeMissing)
                } else {
                    match r {
                        Err(Error::SystemProfilerRegexFailed(d)) => d@ == result.output@,
                        _ => false,
                    }
                }
            },
        }
    }
}

impl DeveloperTools {
    /// Classify one run of the system profiler command and extract the
    /// developer tools version from its captured output.
    ///
    /// A failed command is reported with its raw detail; a successful run
    /// whose output does not match the pattern is classified by the
    /// empty-output heuristic — no output means the toolset is missing,
    /// other output means the format is unrecognized; a match has its two
    /// components parsed as decimal numbers.
    pub fn new(result: &CommandResult) -> (r: Result<Self, Error>)
        ensures
            version_probe_outcome(*result, r),
    {
        let extract = |groups: Vec<(String, String)>| -> (res: Result<DeveloperTools, Error>)
            ensures
                version_extraction(res, groups_view(groups@)),
            { version_from_groups(&groups) };
        match probe_with(result, version_pattern(), extract) {
            Ok(inner) => inner,
            Err(ProbeError::CommandFailed(d)) => Err(Error::SystemProfilerCommandFailed(d)),
            Err(ProbeError::ToolMissing) => Err(Error::SystemProfilerXcodeMissing),
            Err(ProbeError::OutputUnparseable(d)) => Err(Error::SystemProfilerRegexFailed(d)),
        }
    }
}

} // verus!
