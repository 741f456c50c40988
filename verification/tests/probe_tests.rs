use tooling::probe::{probe, CommandResult, ProbeError};
use tooling::system_profile::{
    parse_u32, version_from_groups, version_pattern, DeveloperTools, Error,
};

fn ran(output: &str) -> CommandResult {
    CommandResult {
        succeeded: true,
        output: output.to_string(),
        failure_detail: String::new(),
    }
}

fn failed(detail: &str) -> CommandResult {
    CommandResult {
        succeeded: false,
        output: String::new(),
        failure_detail: detail.to_string(),
    }
}

#[test]
fn failed_command_is_command_failed() {
    let r = probe(&failed("exit status 127"), version_pattern());
    assert_eq!(
        r,
        Err(ProbeError::CommandFailed("exit status 127".to_string()))
    );
}

#[test]
fn empty_output_is_tool_missing() {
    let r = probe(&ran(""), version_pattern());
    assert_eq!(r, Err(ProbeError::ToolMissing));
}

#[test]
fn unmatched_nonempty_output_is_unparseable() {
    let out = "Software:\n\n    System Software Overview:\n";
    let r = probe(&ran(out), version_pattern());
    assert_eq!(r, Err(ProbeError::OutputUnparseable(out.to_string())));
}

#[test]
fn matching_output_yields_named_groups() {
    let out = "Developer Tools:\n\n      Version: 12.3\n      Location: /Applications\n";
    let groups = probe(&ran(out), version_pattern()).unwrap();
    assert_eq!(
        groups,
        vec![
            ("major".to_string(), "12".to_string()),
            ("minor".to_string(), "3".to_string()),
        ]
    );
}

#[test]
fn first_match_wins() {
    let out = "Version: 4.5\nVersion: 6.7\n";
    let groups = probe(&ran(out), version_pattern()).unwrap();
    assert_eq!(
        groups,
        vec![
            ("major".to_string(), "4".to_string()),
            ("minor".to_string(), "5".to_string()),
        ]
    );
}

#[test]
fn version_line_parses_to_tuple() {
    let out = "Developer Tools:\n\n      Version: 12.3\n";
    let dt = DeveloperTools::new(&ran(out)).unwrap();
    assert_eq!(dt.version, (12, 3));
}

#[test]
fn failed_command_maps_to_profiler_error() {
    let r = DeveloperTools::new(&failed("spawn failed"));
    assert_eq!(
        r,
        Err(Error::SystemProfilerCommandFailed("spawn failed".to_string()))
    );
}

#[test]
fn empty_output_means_xcode_missing() {
    let r = DeveloperTools::new(&ran(""));
    assert_eq!(r, Err(Error::SystemProfilerXcodeMissing));
}

#[test]
fn unrecognized_output_means_regex_failed() {
    let out = "no version in here";
    let r = DeveloperTools::new(&ran(out));
    assert_eq!(r, Err(Error::SystemProfilerRegexFailed(out.to_string())));
}

#[test]
fn major_overflow_reports_raw_substring() {
    let out = "Version: 99999999999.3\n";
    let r = DeveloperTools::new(&ran(out));
    assert_eq!(
        r,
        Err(Error::MajorVersionInvalid {
            major: "99999999999".to_string()
        })
    );
}

#[test]
fn minor_overflow_reports_raw_substring() {
    let out = "Version: 12.99999999999\n";
    let r = DeveloperTools::new(&ran(out));
    assert_eq!(
        r,
        Err(Error::MinorVersionInvalid {
            minor: "99999999999".to_string()
        })
    );
}

#[test]
fn nondigit_minor_group_reports_literal_text() {
    let groups = vec![
        ("major".to_string(), "12".to_string()),
        ("minor".to_string(), "x".to_string()),
    ];
    let r = version_from_groups(&groups);
    assert_eq!(
        r,
        Err(Error::MinorVersionInvalid {
            minor: "x".to_string()
        })
    );
}

#[test]
fn nondigit_major_group_reports_literal_text() {
    let groups = vec![
        ("major".to_string(), "1v2".to_string()),
        ("minor".to_string(), "3".to_string()),
    ];
    let r = version_from_groups(&groups);
    assert_eq!(
        r,
        Err(Error::MajorVersionInvalid {
            major: "1v2".to_string()
        })
    );
}

#[test]
fn missing_groups_read_as_empty_text() {
    let groups: Vec<(String, String)> = Vec::new();
    let r = version_from_groups(&groups);
    assert_eq!(
        r,
        Err(Error::MajorVersionInvalid {
            major: String::new()
        })
    );
}

#[test]
fn groups_parse_to_version() {
    let groups = vec![
        ("major".to_string(), "10".to_string()),
        ("minor".to_string(), "07".to_string()),
    ];
    let dt = version_from_groups(&groups).unwrap();
    assert_eq!(dt.version, (10, 7));
}

#[test]
fn parse_u32_edges() {
    assert_eq!(parse_u32(""), None);
    assert_eq!(parse_u32("0"), Some(0));
    assert_eq!(parse_u32("007"), Some(7));
    assert_eq!(parse_u32("12"), Some(12));
    assert_eq!(parse_u32("1a"), None);
    assert_eq!(parse_u32("-1"), None);
    assert_eq!(parse_u32("4294967295"), Some(u32::MAX));
    assert_eq!(parse_u32("4294967296"), None);
}
