use site_blocker::platform::{check_report, hosts_path, Platform};
use site_blocker::block::{remove_our_block, END_MARKER, START_MARKER};
use site_blocker::hosts::{
    apply_command, apply_domains, clear_block, normalize_domain, validate_hosts_content,
    HelperError,
};

fn strings(v: &[&str]) -> Vec<String> {
    v.iter().map(|s| s.to_string()).collect()
}

const BLOCKED: &str = "127.0.0.1 localhost\n\n# >>> SITE_BLOCKER_START\n127.0.0.1 facebook.com\n127.0.0.1 www.facebook.com\n127.0.0.1 twitter.com\n127.0.0.1 www.twitter.com\n# <<< SITE_BLOCKER_END\n";

#[test]
fn markers_are_the_documented_literals() {
    assert_eq!(START_MARKER, "# >>> SITE_BLOCKER_START");
    assert_eq!(END_MARKER, "# <<< SITE_BLOCKER_END");
}

#[test]
fn remove_block_takes_out_the_block_and_joins_the_rest() {
    let x = "a  \n# >>> SITE_BLOCKER_START\n127.0.0.1 x\n# <<< SITE_BLOCKER_END\n\n\nb\n";
    assert_eq!(remove_our_block(x), "a\nb\n");
}

#[test]
fn remove_block_without_markers_is_identity() {
    let x = "127.0.0.1 localhost\n::1 localhost\n";
    assert_eq!(remove_our_block(x), x);
    assert_eq!(remove_our_block(""), "");
}

#[test]
fn remove_block_with_end_before_start_is_identity() {
    let x = "# <<< SITE_BLOCKER_END\nmid\n# >>> SITE_BLOCKER_START\n";
    assert_eq!(remove_our_block(x), x);
}

#[test]
fn remove_block_with_only_start_is_identity() {
    let x = "a\n# >>> SITE_BLOCKER_START\n127.0.0.1 x\n";
    assert_eq!(remove_our_block(x), x);
}

#[test]
fn remove_block_at_end_without_trailing_newline() {
    let x = "a\n# >>> SITE_BLOCKER_START\n# <<< SITE_BLOCKER_END";
    assert_eq!(remove_our_block(x), "a\n");
}

#[test]
fn remove_block_is_idempotent_on_examples() {
    for x in [BLOCKED, "a\n", "x\n# >>> SITE_BLOCKER_START\n# <<< SITE_BLOCKER_END\ny\n"] {
        let once = remove_our_block(x);
        assert_eq!(remove_our_block(&once), once);
    }
}

#[test]
fn normalize_trims_and_lowercases() {
    assert_eq!(normalize_domain("  ExAmple.COM \t"), "example.com");
    assert_eq!(normalize_domain("plain.org"), "plain.org");
}

#[test]
fn apply_writes_loopback_lines_for_each_domain() {
    let out = apply_domains("127.0.0.1 localhost\n", &strings(&["Facebook.com", " twitter.com "]));
    assert_eq!(out, BLOCKED);
}

#[test]
fn apply_skips_empty_and_whitespace_entries() {
    let out = apply_domains("h\n", &strings(&["", "bad domain", "ok.com"]));
    assert_eq!(
        out,
        "h\n\n# >>> SITE_BLOCKER_START\n127.0.0.1 ok.com\n127.0.0.1 www.ok.com\n# <<< SITE_BLOCKER_END\n"
    );
}

#[test]
fn apply_replaces_an_existing_block() {
    let out = apply_domains(BLOCKED, &strings(&["a.com"]));
    assert_eq!(
        out,
        "127.0.0.1 localhost\n\n# >>> SITE_BLOCKER_START\n127.0.0.1 a.com\n127.0.0.1 www.a.com\n# <<< SITE_BLOCKER_END\n"
    );
}

#[test]
fn apply_empty_equals_clear() {
    for x in [BLOCKED, "a\n", ""] {
        assert_eq!(apply_domains(x, &Vec::new()), clear_block(x));
    }
    assert_eq!(clear_block(BLOCKED), "127.0.0.1 localhost\n");
}

#[test]
fn apply_then_validate_round_trip() {
    let d = strings(&["facebook.com", "twitter.com", "Example.org"]);
    let out = apply_domains("127.0.0.1 localhost\n", &d);
    assert!(validate_hosts_content(&out, &d));
}

#[test]
fn validate_detects_removed_member_and_reapply_repairs() {
    let d = strings(&["facebook.com", "twitter.com"]);
    assert!(validate_hosts_content(BLOCKED, &d));
    let edited = BLOCKED.replace("127.0.0.1 twitter.com\n127.0.0.1 www.twitter.com\n", "");
    assert!(!validate_hosts_content(&edited, &d));
    let repaired = apply_domains(&edited, &d);
    assert!(validate_hosts_content(&repaired, &d));
}

#[test]
fn validate_ignores_lines_outside_the_block() {
    let d = strings(&["facebook.com", "twitter.com"]);
    let edited = format!("0.0.0.0 other.com\n{}# note\n", BLOCKED);
    assert!(validate_hosts_content(&edited, &d));
}

#[test]
fn validate_accepts_null_route_lines_inside_the_block() {
    let d = strings(&["a.com"]);
    let x = "# >>> SITE_BLOCKER_START\n0.0.0.0 a.com\n  127.0.0.1   www.a.com  \n# <<< SITE_BLOCKER_END\n";
    assert!(validate_hosts_content(x, &d));
}

#[test]
fn validate_without_block() {
    assert!(validate_hosts_content("127.0.0.1 localhost\n", &Vec::new()));
    assert!(!validate_hosts_content("127.0.0.1 localhost\n", &strings(&["a.com"])));
}

#[test]
fn validate_with_missing_end_or_bad_order() {
    let d = strings(&["a.com"]);
    assert!(!validate_hosts_content("# >>> SITE_BLOCKER_START\n127.0.0.1 a.com\n", &d));
    let x = "# <<< SITE_BLOCKER_END\n# >>> SITE_BLOCKER_START\n127.0.0.1 a.com\n127.0.0.1 www.a.com\n";
    assert!(!validate_hosts_content(x, &d));
}

#[test]
fn validate_detects_an_extra_entry() {
    let d = strings(&["facebook.com"]);
    assert!(!validate_hosts_content(BLOCKED, &d));
}

#[test]
fn apply_command_parses_json_list() {
    let out = apply_command("h\n", "[\"a.com\"]").unwrap();
    assert_eq!(
        out,
        "h\n\n# >>> SITE_BLOCKER_START\n127.0.0.1 a.com\n127.0.0.1 www.a.com\n# <<< SITE_BLOCKER_END\n"
    );
    assert_eq!(apply_command(BLOCKED, "[]").unwrap(), "127.0.0.1 localhost\n");
}

#[test]
fn apply_command_rejects_malformed_json() {
    assert_eq!(apply_command("h\n", "not json"), Err(HelperError::InvalidArgument));
    assert_eq!(apply_command("h\n", "[1, 2]"), Err(HelperError::InvalidArgument));
}

#[test]
fn check_report_lines() {
    assert_eq!(check_report(Platform::Posix, true, 0), "ROOT_OK");
    assert_eq!(check_report(Platform::Posix, false, 1000), "NOT_ROOT (euid=1000)");
    assert_eq!(check_report(Platform::Posix, false, 7), "NOT_ROOT (euid=7)");
    assert_eq!(check_report(Platform::Windows, true, 0), "ADMIN_OK");
    assert_eq!(check_report(Platform::Windows, false, 0), "NOT_ADMIN");
    assert_eq!(hosts_path(Platform::Posix), "/etc/hosts");
}
