use report_capture::naming::{
    is_allowed_host, is_safe_id, output_file_name, output_path, plan_invocation, report_url,
    Invocation,
};

#[test]
fn url_and_file_name_are_concatenations() {
    assert_eq!(report_url("abc123"), "https://reports3.hrstapp.com/report_svg-abc123.php");
    assert_eq!(output_file_name("abc123"), "abc123.png");
    assert_eq!(output_path("/srv/out/", "abc123"), "/srv/out/abc123.png");
    assert_eq!(report_url(""), "https://reports3.hrstapp.com/report_svg-.php");
}

#[test]
fn only_two_hosts_are_allowed() {
    assert!(is_allowed_host("reports3.hrstapp.com"));
    assert!(is_allowed_host("127.0.0.1:8000"));
    assert!(!is_allowed_host("127.0.0.1:8001"));
    assert!(!is_allowed_host("evil.example.com"));
    assert!(!is_allowed_host(""));
}

#[test]
fn safe_identifiers() {
    assert!(is_safe_id("abc123"));
    assert!(is_safe_id("A-b_9"));
    assert!(!is_safe_id(""));
    assert!(!is_safe_id("../etc"));
    assert!(!is_safe_id("a b"));
    assert!(!is_safe_id("a?b"));
}

#[test]
fn wrong_argument_count_asks_for_usage() {
    assert_eq!(plan_invocation(&vec![]), Invocation::PrintUsage);
    assert_eq!(
        plan_invocation(&vec!["a".to_string(), "b".to_string()]),
        Invocation::PrintUsage
    );
    assert_eq!(
        plan_invocation(&vec!["r42".to_string()]),
        Invocation::Capture("r42".to_string())
    );
}
