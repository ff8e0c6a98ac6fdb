use jabba_shim::select::{select_version, UseError};

fn installed(xs: &[&str]) -> Vec<String> {
    xs.iter().map(|s| s.to_string()).collect()
}

#[test]
fn prefix_match_wins_over_substring() {
    let xs = installed(&["1.17", "17.0.1"]);
    assert_eq!(select_version("17", &xs), Ok("17.0.1".to_string()));
}

#[test]
fn substring_match_when_no_prefix() {
    let xs = installed(&["zulu@1.17.0", "openjdk@1.11.0"]);
    assert_eq!(select_version("17", &xs), Ok("zulu@1.17.0".to_string()));
}

#[test]
fn query_is_lowercased_and_trimmed() {
    let xs = installed(&["Zulu@21.0.2", "temurin@17"]);
    assert_eq!(select_version("  ZULU ", &xs), Ok("zulu@21.0.2".to_string()));
}

#[test]
fn ambiguous_prefix() {
    let xs = installed(&["zulu@17", "zulu@21", "temurin@17"]);
    assert_eq!(
        select_version("zulu", &xs),
        Err(UseError::Ambiguous {
            version: "zulu".to_string(),
            matched: installed(&["zulu@17", "zulu@21"]),
        })
    );
}

#[test]
fn ambiguous_substring() {
    let xs = installed(&["zulu@17", "temurin@17"]);
    assert_eq!(
        select_version("17", &xs),
        Err(UseError::Ambiguous {
            version: "17".to_string(),
            matched: installed(&["zulu@17", "temurin@17"]),
        })
    );
}

#[test]
fn not_installed() {
    let xs = installed(&["zulu@17"]);
    assert_eq!(
        select_version(" 21 ", &xs),
        Err(UseError::NotInstalled { version: "21".to_string() })
    );
    assert_eq!(
        select_version("x", &installed(&[])),
        Err(UseError::NotInstalled { version: "x".to_string() })
    );
}

#[test]
fn single_installed_version_matches_empty_query() {
    let xs = installed(&["zulu@17"]);
    assert_eq!(select_version("", &xs), Ok("zulu@17".to_string()));
}
