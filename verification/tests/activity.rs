use nexus::types::TmuxSessionStatus;
use nexus::widgets::activity::{gauge_bar, GAUGE_CHARS, GAUGE_WIDTH};

#[test]
fn gauge_chars_count() {
    // Verify we have exactly 8 block fill levels
    assert_eq!(GAUGE_CHARS.len(), 8);
}

#[test]
fn gauge_bars_by_status() {
    assert_eq!(gauge_bar(TmuxSessionStatus::Running), "████████");
    assert_eq!(gauge_bar(TmuxSessionStatus::Idle), "██▌     ");
    assert_eq!(gauge_bar(TmuxSessionStatus::Idle).chars().count(), GAUGE_WIDTH);
}
