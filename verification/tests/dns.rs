use load_balancer::dns::{
    build_query, create_dns_response, nxdomain_response, parse_domain_name, read_answer,
};

fn query(labels: &[&[u8]]) -> Vec<u8> {
    let mut buf = vec![0u8; 12];
    for l in labels {
        buf.push(l.len() as u8);
        buf.extend_from_slice(l);
    }
    buf.extend_from_slice(&[0, 0, 1, 0, 1]);
    buf
}

#[test]
fn labels_are_joined_by_dots() {
    let buf = query(&[b"www", b"example", b"com"]);
    assert_eq!(parse_domain_name(&buf, 12), Ok("www.example.com".to_string()));
    assert_eq!(parse_domain_name(&buf, 16), Ok("example.com".to_string()));
}

#[test]
fn single_label() {
    assert_eq!(parse_domain_name(&query(&[b"localhost"]), 12), Ok("localhost".to_string()));
}

#[test]
fn zero_byte_ends_the_name() {
    assert_eq!(parse_domain_name(&[0u8; 512], 12), Ok(String::new()));
    assert_eq!(parse_domain_name(&[1, b'a', 0, 1, b'b'], 0), Ok("a".to_string()));
}

#[test]
fn end_of_buffer_ends_the_name() {
    assert_eq!(parse_domain_name(&[1, b'a', 2, b'b', b'c'], 0), Ok("a.bc".to_string()));
    assert_eq!(parse_domain_name(&[], 0), Ok(String::new()));
    assert_eq!(parse_domain_name(&[3, b'a', b'b', b'c'], 4), Ok(String::new()));
    assert_eq!(parse_domain_name(&[3, b'a', b'b', b'c'], 9), Ok(String::new()));
}

#[test]
fn label_past_the_buffer_is_an_error() {
    assert_eq!(parse_domain_name(&[3, b'a', b'b'], 0), Err("Invalid domain name in query"));
    assert_eq!(parse_domain_name(&[1, b'a', 200, b'b'], 0), Err("Invalid domain name in query"));
    assert_eq!(parse_domain_name(&[1], 0), Err("Invalid domain name in query"));
}

#[test]
fn label_that_is_not_utf8_is_an_error() {
    assert_eq!(
        parse_domain_name(&[2, 0xff, 0xfe, 0], 0),
        Err("Invalid UTF-8 label in domain name")
    );
    assert_eq!(
        parse_domain_name(&[1, b'a', 1, 0xc3, 1, 0xa9, 0], 0),
        Err("Invalid UTF-8 label in domain name")
    );
}

#[test]
fn first_error_wins() {
    assert_eq!(
        parse_domain_name(&[1, 0x80, 9, b'a'], 0),
        Err("Invalid UTF-8 label in domain name")
    );
    assert_eq!(parse_domain_name(&[9, 0x80], 0), Err("Invalid domain name in query"));
}

#[test]
fn labels_may_hold_any_utf8() {
    let buf = query(&["caf\u{e9}".as_bytes(), b"a.b"]);
    assert_eq!(parse_domain_name(&buf, 12), Ok("caf\u{e9}.a.b".to_string()));
}

#[test]
fn response_carries_question_and_answer() {
    let r = create_dns_response([0xab, 0xcd], "a.bc", [10, 0, 0, 7], 0x0102_0304);
    let expected: Vec<u8> = vec![
        0xab, 0xcd, 0x81, 0x80, 0, 1, 0, 1, 0, 0, 0, 0, // header
        1, b'a', 2, b'b', b'c', 0, // name
        0, 1, 0, 1, // type and class
        0xc0, 0x0c, 0, 1, 0, 1, // pointer, type, class
        1, 2, 3, 4, // time to live
        0, 4, 10, 0, 0, 7, // address
    ];
    assert_eq!(r, expected);
}

#[test]
fn response_for_the_empty_name_has_one_empty_label() {
    let r = create_dns_response([0, 0], "", [1, 2, 3, 4], 0);
    assert_eq!(r.len(), 12 + 1 + 5 + 6 + 4 + 2 + 4);
    assert_eq!(&r[12..14], &[0, 0]);
}

#[test]
fn response_name_parses_back() {
    let r = create_dns_response([9, 9], "www.example.com", [127, 0, 0, 1], 300);
    assert_eq!(parse_domain_name(&r, 12), Ok("www.example.com".to_string()));
    assert_eq!(&r[r.len() - 10..r.len() - 6], &300u32.to_be_bytes());
}

#[test]
fn label_length_byte_wraps_at_256() {
    let long = "x".repeat(300);
    let q = build_query(&long);
    assert_eq!(q[12], 44);
    assert_eq!(q.len(), 12 + 1 + 300 + 1 + 4);
}

#[test]
fn query_for_a_dotted_name() {
    let q = build_query("dns.test");
    let expected: Vec<u8> = vec![
        0, 1, 1, 0, 0, 1, 0, 0, 0, 0, 0, 0, // header
        3, b'd', b'n', b's', 4, b't', b'e', b's', b't', 0, // name
        0, 1, 0, 1, // type and class
    ];
    assert_eq!(q, expected);
    assert_eq!(parse_domain_name(&q, 12), Ok("dns.test".to_string()));
}

#[test]
fn query_keeps_empty_labels() {
    let q = build_query("a..b.");
    assert_eq!(&q[12..], &[1, b'a', 0, 1, b'b', 0, 0, 0, 1, 0, 1]);
}

#[test]
fn nxdomain_repeats_the_question() {
    let request = build_query("nope.test");
    let r = nxdomain_response([0x12, 0x34], &request, request.len());
    let mut expected: Vec<u8> = vec![0x12, 0x34, 0x81, 0x83, 0, 1, 0, 0, 0, 0, 0, 0];
    expected.extend_from_slice(&request[12..]);
    assert_eq!(r, expected);
    assert_eq!(nxdomain_response([1, 2], &request, 12).len(), 12);
}

#[test]
fn answer_is_read_at_its_offset() {
    let domain = "a.bc";
    let mut r = create_dns_response([0, 1], domain, [192, 168, 1, 20], 86_400);
    r.resize(512, 0);
    assert_eq!(read_answer(&r, domain.len()), Ok(([192, 168, 1, 20], 86_400)));
}

#[test]
fn answer_with_reply_code_three_is_an_error() {
    let request = build_query("nope.test");
    let mut r = nxdomain_response([0, 1], &request, request.len());
    r.resize(512, 0);
    assert_eq!(read_answer(&r, 9), Err("NXDOMAIN: The domain name does not exist."));
    r[3] = 0xf3;
    assert_eq!(read_answer(&r, 9), Err("NXDOMAIN: The domain name does not exist."));
    r[3] = 0x82;
    assert_eq!(read_answer(&r, 9), Ok(([0, 0, 0, 0], 0)));
}

#[test]
fn time_to_live_is_big_endian() {
    let mut r = vec![0u8; 64];
    let at = 14 + (3 + 2) + 4 + 10;
    r[at - 6..at - 2].copy_from_slice(&[0xff, 0xfe, 0xfd, 0xfc]);
    r[at..at + 4].copy_from_slice(&[1, 2, 3, 4]);
    assert_eq!(read_answer(&r, 3), Ok(([1, 2, 3, 4], 0xfffe_fdfc)));
}
