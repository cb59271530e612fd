use forge_backup::archive::{archive_filename, archive_url, date_part, safe_name};
use forge_backup::client::{accept_header, auth_header_value, check_header_value, user_agent_header};
use forge_backup::errors::BackupError;
use forge_backup::status_is_success;
use forge_backup::text::u64_to_string;

#[test]
fn filename_is_deterministic_for_the_documented_example() {
    let f = archive_filename("acme", "my/repo", "2024-03-01T12:00:00Z");
    assert_eq!(f, "acme_my_repo_2024-03-01.zip");
    let again = archive_filename("acme", "my/repo", "2024-03-01T12:00:00Z");
    assert_eq!(f, again);
}

#[test]
fn date_part_truncates_before_first_t() {
    assert_eq!(date_part("2024-03-01T12:00:00Z"), "2024-03-01");
    assert_eq!(date_part("T12:00:00Z"), "");
    assert_eq!(date_part("2020-01-02Textra T later"), "2020-01-02");
}

#[test]
fn date_part_falls_back_when_no_t_is_present() {
    assert_eq!(date_part("2024-03-01"), "unknown");
    assert_eq!(date_part(""), "unknown");
}

#[test]
fn safe_name_replaces_every_path_separator() {
    assert_eq!(safe_name("my/repo"), "my_repo");
    assert_eq!(safe_name("a/b/c"), "a_b_c");
    assert_eq!(safe_name("plain"), "plain");
    assert_eq!(safe_name(""), "");
    assert_eq!(safe_name("///"), "___");
}

#[test]
fn filename_handles_missing_date_and_separators_together() {
    let f = archive_filename("owner", "x/y", "nodate");
    assert_eq!(f, "owner_x_y_unknown.zip");
}

#[test]
fn archive_url_names_owner_repo_and_branch() {
    let u = archive_url("acme", "tool", "main");
    assert_eq!(u, "https://api.github.com/repos/acme/tool/zipball/main");
}

#[test]
fn decimal_rendering_is_exact() {
    assert_eq!(u64_to_string(0), "0");
    assert_eq!(u64_to_string(7), "7");
    assert_eq!(u64_to_string(10), "10");
    assert_eq!(u64_to_string(100), "100");
    assert_eq!(u64_to_string(12345), "12345");
    assert_eq!(u64_to_string(u64::MAX), "18446744073709551615");
}

#[test]
fn auth_header_carries_the_token_scheme() {
    let v = auth_header_value("abc123").unwrap();
    assert_eq!(v, "token abc123");
}

#[test]
fn auth_header_accepts_an_empty_credential() {
    let v = auth_header_value("").unwrap();
    assert_eq!(v, "token ");
}

#[test]
fn auth_header_rejects_control_characters() {
    let e = auth_header_value("abc\ndef").unwrap_err();
    assert_eq!(e, BackupError::Configuration);
    let e = auth_header_value("\u{7f}").unwrap_err();
    assert_eq!(e, BackupError::Configuration);
}

#[test]
fn header_value_check_follows_the_header_rules() {
    assert!(check_header_value("ghp_abcDEF123"));
    assert!(check_header_value("with\ttab"));
    assert!(check_header_value("sp ace"));
    assert!(check_header_value("ünïcode"));
    assert!(!check_header_value("line\nbreak"));
    assert!(!check_header_value("carriage\rreturn"));
    assert!(!check_header_value("\u{1b}escape"));
}

#[test]
fn fixed_headers_are_the_documented_strings() {
    assert_eq!(user_agent_header(), "github-backup-rust/1.0");
    assert_eq!(accept_header(), "application/vnd.github.v3+json");
}

#[test]
fn success_statuses_are_the_2xx_range() {
    assert!(status_is_success(200));
    assert!(status_is_success(204));
    assert!(status_is_success(299));
    assert!(!status_is_success(199));
    assert!(!status_is_success(300));
    assert!(!status_is_success(404));
    assert!(!status_is_success(500));
}
