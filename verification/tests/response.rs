use load_balancer::response::{decimal, synthesize, unavailable_response};

#[test]
fn unavailable_response_is_the_literal() {
    let r = unavailable_response();
    assert_eq!(
        r.as_bytes(),
        b"HTTP/1.1 503 Service Unavailable\r\nContent-Length: 19\r\n\r\nService Unavailable"
    );
}

#[test]
fn content_length_is_the_length_of_the_body() {
    let r = unavailable_response();
    let (head, body) = r.split_once("\r\n\r\n").unwrap();
    assert_eq!(body, "Service Unavailable");
    let mut lines = head.split("\r\n");
    assert_eq!(lines.next(), Some("HTTP/1.1 503 Service Unavailable"));
    assert_eq!(lines.next(), Some(format!("Content-Length: {}", body.len()).as_str()));
    assert_eq!(lines.next(), None);
}

#[test]
fn synthesize_counts_bytes_not_characters() {
    assert_eq!(synthesize("HTTP/1.1 200 OK", ""), "HTTP/1.1 200 OK\r\nContent-Length: 0\r\n\r\n");
    assert_eq!(
        synthesize("HTTP/1.1 404 Not Found", "caf\u{e9}"),
        "HTTP/1.1 404 Not Found\r\nContent-Length: 5\r\n\r\ncaf\u{e9}"
    );
    let long = "x".repeat(1234);
    assert_eq!(
        synthesize("S", &long),
        format!("S\r\nContent-Length: 1234\r\n\r\n{}", long)
    );
}

#[test]
fn decimal_numerals() {
    assert_eq!(decimal(0), "0");
    assert_eq!(decimal(7), "7");
    assert_eq!(decimal(10), "10");
    assert_eq!(decimal(19), "19");
    assert_eq!(decimal(20), "20");
    assert_eq!(decimal(1_000_000), "1000000");
    assert_eq!(decimal(9_876_543_210), "9876543210");
    assert_eq!(decimal(usize::MAX), usize::MAX.to_string());
}
