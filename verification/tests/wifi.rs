use mutual_watchdog::wifi::{wifi_next, wifi_start, WifiAction, RECONNECT_PAUSE_MS};

#[test]
fn first_boot_starts_driver_then_connects() {
    let mut step = wifi_start();
    assert_eq!(step, WifiAction::CheckLink);
    step = wifi_next(step, false);
    assert_eq!(step, WifiAction::CheckDriver);
    step = wifi_next(step, false);
    assert_eq!(step, WifiAction::StartDriver);
    step = wifi_next(step, false);
    assert_eq!(step, WifiAction::Connect);
    step = wifi_next(step, true);
    assert_eq!(step, WifiAction::CheckLink);
}

#[test]
fn connected_station_waits_for_drop_then_reconnects() {
    assert_eq!(wifi_next(WifiAction::CheckLink, true), WifiAction::WaitForDrop);
    assert_eq!(wifi_next(WifiAction::WaitForDrop, false), WifiAction::CheckDriver);
    assert_eq!(wifi_next(WifiAction::CheckDriver, true), WifiAction::Connect);
}

#[test]
fn failed_connect_backs_off() {
    assert_eq!(RECONNECT_PAUSE_MS, 5000);
    assert_eq!(wifi_next(WifiAction::Connect, false), WifiAction::BackOff);
    assert_eq!(wifi_next(WifiAction::BackOff, false), WifiAction::CheckLink);
}
