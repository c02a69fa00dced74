use mutual_watchdog::alert::ALERT_ACTIVE;
use mutual_watchdog::cycle::{sleep_interval_secs, wake_cycle, PingOutcome};
use mutual_watchdog::telegram::{notice_text, Notice};

#[test]
fn unreachable_broker_sends_one_lab_down_notice() {
    let mut state = 0u32;
    assert_eq!(wake_cycle(PingOutcome::BrokerUnreachable, &mut state), Some(Notice::LabDown));
    assert_eq!(state, ALERT_ACTIVE);
    assert_eq!(wake_cycle(PingOutcome::BrokerUnreachable, &mut state), None);
    assert_eq!(wake_cycle(PingOutcome::PingFailed, &mut state), None);
    assert_eq!(state, ALERT_ACTIVE);
}

#[test]
fn failed_publish_counts_as_unreachable() {
    let mut state = 7u32;
    assert_eq!(wake_cycle(PingOutcome::PingFailed, &mut state), Some(Notice::LabDown));
    assert_eq!(state, ALERT_ACTIVE);
}

#[test]
fn ping_after_outage_sends_lab_up_notice() {
    let mut state = ALERT_ACTIVE;
    assert_eq!(wake_cycle(PingOutcome::PingSent, &mut state), Some(Notice::LabUp));
    assert_eq!(state, 0);
    assert_eq!(wake_cycle(PingOutcome::PingSent, &mut state), None);
    assert_eq!(state, 0);
}

#[test]
fn notice_texts() {
    assert_eq!(notice_text(Notice::LabDown), "Home lab isn't responding");
    assert_eq!(notice_text(Notice::LabUp), "Home lab is responding again");
}

#[test]
fn sleep_interval_is_read_as_u64() {
    assert_eq!(sleep_interval_secs("300"), Some(300));
    assert_eq!(sleep_interval_secs("+5"), Some(5));
    assert_eq!(sleep_interval_secs("0007"), Some(7));
    assert_eq!(sleep_interval_secs("18446744073709551615"), Some(u64::MAX));
    assert_eq!(sleep_interval_secs("18446744073709551616"), None);
    assert_eq!(sleep_interval_secs(""), None);
    assert_eq!(sleep_interval_secs("+"), None);
    assert_eq!(sleep_interval_secs("-1"), None);
    assert_eq!(sleep_interval_secs(" 5"), None);
    assert_eq!(sleep_interval_secs("5s"), None);
}

#[test]
fn sleep_interval_agrees_with_std() {
    for text in ["1", "60", "+60", "99999999999999999999", "1_000", "", "x", "३"] {
        assert_eq!(sleep_interval_secs(text), text.parse::<u64>().ok(), "{text}");
    }
}

#[test]
fn configured_interval_is_read() {
    assert_eq!(mutual_watchdog::cycle::sleep_interval("300"), 300);
    assert_eq!(mutual_watchdog::cycle::sleep_interval("+0060"), 60);
}
