use nexus::update_checker::{
    is_newer, latest_tag_version, parse_semver, persisted_update_flag, recently_checked, update_available,
};

#[test]
fn parse_semver_plain() {
    assert_eq!(parse_semver("1.2.3"), Some((1, 2, 3)));
}

#[test]
fn parse_semver_with_v_prefix() {
    assert_eq!(parse_semver("v0.3.0"), Some((0, 3, 0)));
}

#[test]
fn parse_semver_invalid() {
    assert_eq!(parse_semver("not-a-version"), None);
    assert_eq!(parse_semver("1.2"), None);
    assert_eq!(parse_semver(""), None);
}

#[test]
fn parse_semver_zero() {
    assert_eq!(parse_semver("0.0.0"), Some((0, 0, 0)));
}

#[test]
fn parse_semver_edges() {
    // only one leading 'v' is dropped, a fourth part does not parse
    assert_eq!(parse_semver("vv1.2.3"), None);
    assert_eq!(parse_semver("1.2.3.4"), None);
    assert_eq!(parse_semver("1.2.+3"), Some((1, 2, 3)));
    assert_eq!(parse_semver("18446744073709551615.0.1"), Some((u64::MAX, 0, 1)));
    assert_eq!(parse_semver("18446744073709551616.0.1"), None);
}

#[test]
fn is_newer_major() {
    assert!(is_newer((1, 0, 0), (0, 9, 9)));
}

#[test]
fn is_newer_minor() {
    assert!(is_newer((0, 4, 0), (0, 3, 5)));
}

#[test]
fn is_newer_patch() {
    assert!(is_newer((0, 3, 1), (0, 3, 0)));
}

#[test]
fn is_newer_equal() {
    assert!(!is_newer((0, 3, 0), (0, 3, 0)));
}

#[test]
fn is_newer_older() {
    assert!(!is_newer((0, 2, 0), (0, 3, 0)));
}

#[test]
fn latest_tag_from_ls_remote_output() {
    let output = "\
abc123\trefs/tags/v0.1.0\n\
def456\trefs/tags/v0.2.0\n\
ghi789\trefs/tags/v0.3.0\n\
ghi789\trefs/tags/v0.3.0^{}\n";
    assert_eq!(latest_tag_version(output), Some((0, 3, 0)));
}

#[test]
fn latest_tag_skips_non_semver() {
    let output = "\
abc123\trefs/tags/release-candidate\n\
def456\trefs/tags/v0.2.0\n\
ghi789\trefs/tags/nightly\n";
    assert_eq!(latest_tag_version(output), Some((0, 2, 0)));
}

#[test]
fn latest_tag_empty_output() {
    assert_eq!(latest_tag_version(""), None);
}

#[test]
fn latest_tag_no_semver_tags() {
    let output = "abc123\trefs/tags/release-candidate\n";
    assert_eq!(latest_tag_version(output), None);
}

#[test]
fn latest_tag_picks_highest() {
    let output = "\
a\trefs/tags/v1.0.0\n\
b\trefs/tags/v0.9.0\n\
c\trefs/tags/v2.1.3\n\
d\trefs/tags/v2.1.2\n";
    assert_eq!(latest_tag_version(output), Some((2, 1, 3)));
}

#[test]
fn latest_tag_skips_lines_without_tab() {
    assert_eq!(latest_tag_version("a\trefs/tags/v1.0.0\nbroken line\n"), Some((1, 0, 0)));
    assert_eq!(latest_tag_version("garbage\nabc\trefs/tags/v1.0.0\n"), Some((1, 0, 0)));
    assert_eq!(latest_tag_version("a\tv1.0.0^{}^{}\n"), Some((1, 0, 0)));
}

#[test]
fn rate_limit_decision() {
    assert!(recently_checked(Some("1000"), 1000 + 3599));
    assert!(!recently_checked(Some("1000"), 1000 + 3600));
    assert!(recently_checked(Some("5000"), 1000));
    assert!(!recently_checked(Some("soon"), 1000));
    assert!(!recently_checked(None, 1000));
}

#[test]
fn update_decision() {
    let out = "a\trefs/tags/v0.3.0\n";
    assert_eq!(update_available(out, "0.2.0", None), Some(true));
    assert_eq!(update_available(out, "0.3.0", None), Some(false));
    // already installed by `nexus update`
    assert_eq!(update_available(out, "0.2.0", Some("0.3.0")), Some(false));
    assert_eq!(update_available(out, "0.2.0", Some("0.2.5")), Some(true));
    assert_eq!(update_available(out, "0.2.0", Some("junk")), Some(true));
    assert_eq!(update_available(out, "dev", None), None);
    assert_eq!(update_available("", "0.2.0", None), Some(false));
}

#[test]
fn persisted_flag_reads_exact_true() {
    assert!(persisted_update_flag(Some("true")));
    assert!(!persisted_update_flag(Some("True")));
    assert!(!persisted_update_flag(Some("false")));
    assert!(!persisted_update_flag(None));
}

fn read_setting(db_path: &std::path::Path, key: &str) -> Option<String> {
    let conn = rusqlite::Connection::open(db_path).ok()?;
    let mut stmt = conn.prepare("SELECT value FROM settings WHERE key = ?1").ok()?;
    stmt.query_row([key], |row| row.get::<_, String>(0)).ok()
}

fn read_persisted_state(db_path: &std::path::Path) -> bool {
    persisted_update_flag(read_setting(db_path, "update_available").as_deref())
}

#[test]
fn read_persisted_state_missing_db() {
    assert!(!read_persisted_state(std::path::Path::new("/nonexistent/db")));
}

#[test]
fn formatted_versions_read_back() {
    for (a, b, c) in [(0u64, 0u64, 0u64), (1, 22, 333), (u64::MAX, 7, u64::MAX)] {
        assert_eq!(parse_semver(&format!("{a}.{b}.{c}")), Some((a, b, c)));
        assert_eq!(parse_semver(&format!("v{a}.{b}.{c}")), Some((a, b, c)));
    }
    assert_eq!(parse_semver("1.2"), None);
    assert_eq!(parse_semver(""), None);
    assert_eq!(parse_semver("not-a-version"), None);
}
