use load_balancer::request::{char_is_whitespace, request_path, request_path_in, INITIAL_CHUNK};

#[test]
fn path_is_the_second_word_of_the_request_line() {
    assert_eq!(request_path(b"GET /api/x HTTP/1.1\r\nHost: h\r\n\r\n"), "/api/x");
    assert_eq!(request_path(b"POST /submit?a=1 HTTP/1.0\n\nbody"), "/submit?a=1");
    assert_eq!(request_path(b"GET /only"), "/only");
    assert_eq!(request_path(b"GET /cr\r"), "/cr");
}

#[test]
fn empty_chunk_gives_the_root_path() {
    assert_eq!(request_path(b""), "/");
    assert_eq!(request_path_in(""), "/");
}

#[test]
fn malformed_first_line_gives_the_root_path() {
    assert_eq!(request_path(b"GET"), "/");
    assert_eq!(request_path(b"GET\r\n/next HTTP/1.1"), "/");
    assert_eq!(request_path(b"\r\nGET /x HTTP/1.1"), "/");
    assert_eq!(request_path(b"\nGET /x HTTP/1.1"), "/");
    assert_eq!(request_path(b"   \t  "), "/");
    assert_eq!(request_path(b"GET   "), "/");
}

#[test]
fn only_the_first_line_counts() {
    assert_eq!(request_path(b"one\ntwo three"), "/");
    assert_eq!(request_path(b"one two\nthree four"), "two");
}

#[test]
fn runs_of_whitespace_separate_words() {
    assert_eq!(request_path(b"  GET \t /a/b   HTTP/1.1"), "/a/b");
    assert_eq!(request_path(b"\tGET\x0b/v\x0cHTTP"), "/v");
    assert_eq!(request_path_in("GET\u{a0}/nbsp\u{2003}HTTP"), "/nbsp");
    assert_eq!(request_path_in("GET\u{3000}/wide"), "/wide");
    assert_eq!(request_path_in("GET\u{200b}/zero-width x"), "x");
}

#[test]
fn malformed_bytes_are_replaced_before_the_peek() {
    assert_eq!(request_path(b"GET /a\xffb HTTP/1.1"), "/a\u{fffd}b");
    assert_eq!(request_path(b"\xff\xfe /x"), "/x");
    assert_eq!(request_path("GET /caf\u{e9} HTTP/1.1".as_bytes()), "/caf\u{e9}");
    assert_eq!(request_path(b"GET\xc2\xa0/nbsp HTTP"), "/nbsp");
}

#[test]
fn binary_traffic_gets_some_path() {
    assert_eq!(request_path(&[0u8, 1, 2, 3]), "/");
    assert_eq!(request_path(&[b'x', b' ', 0, 1, b' ', b'y']), "\u{0}\u{1}");
}

#[test]
fn path_agrees_with_the_standard_splitting() {
    let samples: [&[u8]; 8] = [
        b"GET / HTTP/1.1\r\n",
        b"GET /a HTTP/1.1\r\nX: y z\r\n",
        b" a  b  c ",
        b"a\r\nb c",
        b"a b\r",
        b"\r",
        b"a\x85b c d",
        b"\xe2\x80\x83a\xe2\x80\x83b",
    ];
    for s in samples {
        let text = String::from_utf8_lossy(s);
        let expected = match text.lines().next() {
            Some(line) => line.split_whitespace().nth(1).unwrap_or("/").to_string(),
            None => "/".to_string(),
        };
        assert_eq!(request_path(s), expected);
    }
}

#[test]
fn whitespace_is_the_unicode_property() {
    let mut c = 0u32;
    while c <= 0x10FFFF {
        if let Some(ch) = char::from_u32(c) {
            assert_eq!(char_is_whitespace(ch), ch.is_whitespace(), "U+{:04X}", c);
        }
        c += 1;
    }
}

#[test]
fn initial_chunk_is_one_kibibyte() {
    assert_eq!(INITIAL_CHUNK, 1024);
    let mut chunk = b"GET /long".to_vec();
    chunk.resize(INITIAL_CHUNK, b'x');
    let path = request_path(&chunk);
    assert_eq!(path.len(), INITIAL_CHUNK - 4);
}
