use mutual_watchdog::broker::{parse_mqtt_server, BrokerAddress, DEFAULT_MQTT_PORT};
use mutual_watchdog::decimal::format_decimal;

#[test]
fn documented_server_address() {
    assert_eq!(
        parse_mqtt_server("mqtt://192.168.1.135:1883"),
        Some(BrokerAddress { ip: [192, 168, 1, 135], port: 1883 })
    );
}

#[test]
fn scheme_and_port_are_optional() {
    assert_eq!(DEFAULT_MQTT_PORT, 1883);
    assert_eq!(
        parse_mqtt_server("10.0.0.2"),
        Some(BrokerAddress { ip: [10, 0, 0, 2], port: 1883 })
    );
    assert_eq!(
        parse_mqtt_server("mqtt://10.0.0.2"),
        Some(BrokerAddress { ip: [10, 0, 0, 2], port: 1883 })
    );
    assert_eq!(
        parse_mqtt_server("10.0.0.2:8883"),
        Some(BrokerAddress { ip: [10, 0, 0, 2], port: 8883 })
    );
}

#[test]
fn port_is_read_as_u16() {
    assert_eq!(parse_mqtt_server("1.2.3.4:+80").map(|a| a.port), Some(80));
    assert_eq!(parse_mqtt_server("1.2.3.4:080").map(|a| a.port), Some(80));
    assert_eq!(parse_mqtt_server("1.2.3.4:65535").map(|a| a.port), Some(65535));
    assert_eq!(parse_mqtt_server("1.2.3.4:65536"), None);
    assert_eq!(parse_mqtt_server("1.2.3.4:"), None);
    assert_eq!(parse_mqtt_server("1.2.3.4:-1"), None);
}

#[test]
fn host_must_be_dotted_decimal_ipv4() {
    assert_eq!(parse_mqtt_server("broker.local:1883"), None);
    assert_eq!(parse_mqtt_server("1.2.3:1883"), None);
    assert_eq!(parse_mqtt_server("1.2.3.4.5:1883"), None);
    assert_eq!(parse_mqtt_server("1.2.3.256:1883"), None);
    assert_eq!(parse_mqtt_server("01.2.3.4:1883"), None);
    assert_eq!(parse_mqtt_server("1..3.4:1883"), None);
    assert_eq!(parse_mqtt_server("1.2.3.4.:1883"), None);
    assert_eq!(parse_mqtt_server("mqtt://"), None);
    assert_eq!(parse_mqtt_server(""), None);
    assert_eq!(
        parse_mqtt_server("0.0.0.0:0"),
        Some(BrokerAddress { ip: [0, 0, 0, 0], port: 0 })
    );
    assert_eq!(
        parse_mqtt_server("255.255.255.255"),
        Some(BrokerAddress { ip: [255, 255, 255, 255], port: 1883 })
    );
}

#[test]
fn host_ends_at_last_colon() {
    assert_eq!(parse_mqtt_server("1.2.3.4:1:2"), None);
    assert_eq!(parse_mqtt_server("mqtt://mqtt://1.2.3.4"), None);
}

#[test]
fn hosts_agree_with_std_ipv4_parser() {
    for host in [
        "1.2.3.4", "001.2.3.4", "1.2.3.04", "256.1.1.1", "1.2.3", "1.2.3.4.", ".1.2.3", "a.b.c.d",
        "127.0.0.1", "+1.2.3.4", "1.2.3.4 ", "९.1.1.1",
    ] {
        let ours = parse_mqtt_server(host).map(|a| a.ip);
        let std = host.parse::<core::net::Ipv4Addr>().ok().map(|a| a.octets());
        assert_eq!(ours, std, "{host}");
    }
}

#[test]
fn dotted_quads_read_back() {
    for ip in [[0u8, 0, 0, 0], [1, 20, 200, 255], [9, 10, 99, 100], [192, 168, 1, 135]] {
        let text = format!(
            "{}.{}.{}.{}",
            format_decimal(ip[0] as usize),
            format_decimal(ip[1] as usize),
            format_decimal(ip[2] as usize),
            format_decimal(ip[3] as usize)
        );
        assert_eq!(parse_mqtt_server(&text), Some(BrokerAddress { ip, port: 1883 }));
    }
}

#[test]
fn configured_address_is_read() {
    assert_eq!(
        mutual_watchdog::broker::broker_address("mqtt://192.168.1.135:1883"),
        BrokerAddress { ip: [192, 168, 1, 135], port: 1883 }
    );
    assert_eq!(
        mutual_watchdog::broker::broker_address("10.0.0.5"),
        BrokerAddress { ip: [10, 0, 0, 5], port: 1883 }
    );
}
