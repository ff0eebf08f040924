use dateparse::cli::classify;

fn strings(parts: &[&str]) -> Vec<String> {
    parts.iter().map(|p| p.to_string()).collect()
}

#[test]
fn test_help_flags_request_usage() {
    for flag in ["-h", "--help", "--usage"] {
        let (usage, _) = classify(&strings(&[flag]));
        assert!(usage, "flag {}", flag);
    }
    let (usage, _) = classify(&strings(&["-h", "monday"]));
    assert!(usage);
}

#[test]
fn test_help_positional_requests_usage() {
    let (usage, _) = classify(&strings(&["help"]));
    assert!(usage);
    // only the joined input exactly equal to `help` counts
    let (usage, joined) = classify(&strings(&["a", "help"]));
    assert!(!usage);
    assert_eq!(joined, "a help");
    let (usage, joined) = classify(&strings(&["helpers"]));
    assert!(!usage);
    assert_eq!(joined, "helpers");
}

#[test]
fn test_positionals_join_with_single_spaces() {
    let (usage, joined) = classify(&strings(&["-v", "next", "monday"]));
    assert!(!usage);
    assert_eq!(joined, "next monday");

    let (usage, joined) = classify(&strings(&["2020"]));
    assert!(!usage);
    assert_eq!(joined, "2020");

    let (usage, joined) = classify(&strings(&[]));
    assert!(!usage);
    assert_eq!(joined, "");
}
