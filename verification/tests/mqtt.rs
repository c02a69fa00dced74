use mutual_watchdog::mqtt::{
    broker_login, mqtt_text, LoginError, MqttTextError, CLIENT_ID, MQTT_MAX_FIELD_LEN, PING_PAYLOAD,
    PING_TOPIC,
};

#[test]
fn protocol_constants() {
    assert_eq!(PING_TOPIC, "watchdog/ping");
    assert_eq!(PING_PAYLOAD, "Ping");
    assert_eq!(CLIENT_ID, "watchdog-esp32");
    assert_eq!(MQTT_MAX_FIELD_LEN, 65535);
}

#[test]
fn mqtt_text_keeps_the_text() {
    let s = mqtt_text(PING_TOPIC).unwrap();
    let as_str: &str = s.as_ref();
    assert_eq!(as_str, "watchdog/ping");
}

#[test]
fn mqtt_text_refuses_nul_and_overlong() {
    assert_eq!(mqtt_text("a\0b").err(), Some(MqttTextError::ContainsNul));
    let long = "a".repeat(65536);
    assert_eq!(mqtt_text(&long).err(), Some(MqttTextError::TooLong));
    let longest = "a".repeat(65535);
    assert!(mqtt_text(&longest).is_ok());
    let long_with_nul = format!("\0{}", "a".repeat(70000));
    assert_eq!(mqtt_text(&long_with_nul).err(), Some(MqttTextError::ContainsNul));
}

#[test]
fn login_checks_user_then_password() {
    assert!(broker_login("user", "secret").is_ok());
    assert_eq!(
        broker_login("us\0er", "secret").err(),
        Some(LoginError::UserName(MqttTextError::ContainsNul))
    );
    let long = "p".repeat(65536);
    assert_eq!(broker_login("user", &long).err(), Some(LoginError::PasswordTooLong));
    assert!(broker_login("user", &"p".repeat(65535)).is_ok());
    assert!(broker_login("user", "with\0nul").is_ok());
    let long_user = "u".repeat(65536);
    assert_eq!(
        broker_login(&long_user, &long).err(),
        Some(LoginError::UserName(MqttTextError::TooLong))
    );
}

#[test]
fn login_keeps_the_credentials() {
    let login = broker_login("user", "secret").unwrap();
    let user: &str = login.user_name.as_ref();
    assert_eq!(user, "user");
    assert_eq!(login.password.as_bytes(), b"secret");
}

#[test]
fn configured_credentials_are_kept() {
    let login = mutual_watchdog::mqtt::broker_credentials("watchdog", "pa\0ss");
    let user: &str = login.user_name.as_ref();
    assert_eq!(user, "watchdog");
    assert_eq!(login.password.as_bytes(), b"pa\0ss");
}
