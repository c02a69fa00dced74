use mutual_watchdog::alert::{compute_alert_action, AlertAction, ALERT_ACTIVE};

#[test]
fn ping_ok_clears_active_alert_and_signals_recovery() {
    let mut state = ALERT_ACTIVE;
    let action = compute_alert_action(true, &mut state);
    assert_eq!(state, 0);
    assert!(matches!(action, AlertAction::SendRecovery));
}

#[test]
fn ping_ok_no_active_alert_no_action() {
    let mut state = 0u32;
    let action = compute_alert_action(true, &mut state);
    assert_eq!(state, 0);
    assert!(matches!(action, AlertAction::NoAction));
}

#[test]
fn ping_err_no_active_alert_sets_active_and_signals_alert() {
    let mut state = 0u32;
    let action = compute_alert_action(false, &mut state);
    assert_eq!(state, ALERT_ACTIVE);
    assert!(matches!(action, AlertAction::SendAlert));
}

#[test]
fn ping_err_alert_already_active_no_action() {
    let mut state = ALERT_ACTIVE;
    let action = compute_alert_action(false, &mut state);
    assert_eq!(state, ALERT_ACTIVE);
    assert!(matches!(action, AlertAction::NoAction));
}

#[test]
fn alert_marker_value() {
    assert_eq!(ALERT_ACTIVE, 0xA1E2_7001);
}

#[test]
fn notices_follow_reachability_changes() {
    let outcomes = [true, false, false, true, true, false, true];
    let expected = [
        AlertAction::NoAction,
        AlertAction::SendAlert,
        AlertAction::NoAction,
        AlertAction::SendRecovery,
        AlertAction::NoAction,
        AlertAction::SendAlert,
        AlertAction::SendRecovery,
    ];
    let mut state = 0u32;
    for (ok, want) in outcomes.iter().zip(expected.iter()) {
        let action = compute_alert_action(*ok, &mut state);
        assert_eq!(action, *want);
        assert_eq!(state == ALERT_ACTIVE, !*ok);
    }
}

#[test]
fn repeated_failures_alert_once() {
    let mut state = 0u32;
    let mut alerts = 0;
    for _ in 0..5 {
        if compute_alert_action(false, &mut state) == AlertAction::SendAlert {
            alerts += 1;
        }
    }
    assert_eq!(alerts, 1);
    assert_eq!(state, ALERT_ACTIVE);
}

#[test]
fn garbage_state_counts_as_no_alert() {
    let mut state = 0xDEAD_BEEFu32;
    assert_eq!(compute_alert_action(true, &mut state), AlertAction::NoAction);
    assert_eq!(state, 0xDEAD_BEEF);
    assert_eq!(compute_alert_action(false, &mut state), AlertAction::SendAlert);
    assert_eq!(state, ALERT_ACTIVE);
}

#[test]
fn recovery_after_failure_clears_state() {
    let mut state = 0x1234u32;
    assert_eq!(compute_alert_action(false, &mut state), AlertAction::SendAlert);
    assert_eq!(compute_alert_action(true, &mut state), AlertAction::SendRecovery);
    assert_eq!(state, 0);
}

#[test]
fn first_notice_from_clear_state_is_an_alert() {
    for start in [0u32, 1, 0xFFFF_FFFF] {
        let mut state = start;
        let mut notices = Vec::new();
        for ok in [true, true, false, true, false, false, true] {
            let action = compute_alert_action(ok, &mut state);
            if action != AlertAction::NoAction {
                notices.push(action);
            }
        }
        assert_eq!(
            notices,
            vec![
                AlertAction::SendAlert,
                AlertAction::SendRecovery,
                AlertAction::SendAlert,
                AlertAction::SendRecovery
            ]
        );
    }
}
