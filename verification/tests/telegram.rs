use mutual_watchdog::cycle::sleep_interval_secs;
use mutual_watchdog::decimal::format_decimal;
use mutual_watchdog::telegram::{notice_text, telegram_request, Notice};

#[test]
fn request_for_lab_down_notice() {
    let request = telegram_request("123:abc", "-42", notice_text(Notice::LabDown));
    assert_eq!(
        request,
        "POST /bot123:abc/sendMessage HTTP/1.1\r\nHost: api.telegram.org\r\nContent-Type: application/x-www-form-urlencoded\r\nContent-Length: 42\r\nConnection: close\r\n\r\nchat_id=-42&text=Home lab isn't responding"
    );
}

#[test]
fn content_length_counts_body_bytes() {
    let request = telegram_request("t", "1", "héllo");
    let body = "chat_id=1&text=héllo";
    assert_eq!(body.len(), 21);
    assert!(request.contains("\r\nContent-Length: 21\r\n"));
    assert!(request.ends_with(&format!("\r\n\r\n{body}")));
}

#[test]
fn request_matches_format() {
    let (token, chat, text) = ("TOKEN", "99", "Home lab is responding again");
    let body = format!("chat_id={}&text={}", chat, text);
    let expected = format!(
        "POST /bot{}/sendMessage HTTP/1.1\r\nHost: api.telegram.org\r\nContent-Type: application/x-www-form-urlencoded\r\nContent-Length: {}\r\nConnection: close\r\n\r\n{}",
        token,
        body.len(),
        body
    );
    assert_eq!(telegram_request(token, chat, text), expected);
}

#[test]
fn decimal_formatting() {
    assert_eq!(format_decimal(0), "0");
    assert_eq!(format_decimal(7), "7");
    assert_eq!(format_decimal(10), "10");
    assert_eq!(format_decimal(1883), "1883");
    assert_eq!(format_decimal(usize::MAX), usize::MAX.to_string());
}

#[test]
fn decimal_text_reads_back() {
    for n in [0usize, 1, 9, 10, 65535, 123456789, usize::MAX] {
        assert_eq!(sleep_interval_secs(&format_decimal(n)), Some(n as u64));
    }
}
