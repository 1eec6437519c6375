//! The response synthesizer: the one reply that the balancer writes itself,
//! for a connection that no backend can take.

use vstd::prelude::*;
use vstd::string::*;

verus! {

/// The character of one decimal digit.
pub open spec fn digit_char(d: nat) -> char {
    if d == 0 {
        '0'
    } else if d == 1 {
        '1'
    } else if d == 2 {
        '2'
    } else if d == 3 {
        '3'
    } else if d == 4 {
        '4'
    } else if d == 5 {
        '5'
    } else if d == 6 {
        '6'
    } else if d == 7 {
        '7'
    } else if d == 8 {
        '8'
    } else {
        '9'
    }
}

/// The decimal numeral of `n`, without leading zeros.
pub open spec fn decimal_digits(n: nat) -> Seq<char>
    decreases n,
{
    if n < 10 {
        seq![digit_char(n)]
    } else {
        decimal_digits(n / 10).push(digit_char(n % 10))
    }
}

/// A response with no header but `Content-Length`: the status line, the
/// header with the body's length in bytes, a blank line, the body.
pub open spec fn response_text(status_line: Seq<char>, body: Seq<char>, body_bytes: nat) -> Seq<
    char,
> {
    status_line + "\r\nContent-Length: "@ + decimal_digits(body_bytes) + "\r\n\r\n"@ + body
}

fn digit_text(d: usize) -> (r: &'static str)
    requires
        d < 10,
    ensures
        r@ == seq![digit_char(d as nat)],
{
    proof {
        reveal_strlit("0");
        reveal_strlit("1");
        reveal_strlit("2");
        reveal_strlit("3");
        reveal_strlit("4");
        reveal_strlit("5");
        reveal_strlit("6");
        reveal_strlit("7");
        reveal_strlit("8");
        reveal_strlit("9");
    }
    let r = if d == 0 {
        "0"
    } else if d == 1 {
        "1"
    } else if d == 2 {
        "2"
    } else if d == 3 {
        "3"
    } else if d == 4 {
        "4"
    } else if d == 5 {
        "5"
    } else if d == 6 {
        "6"
    } else if d == 7 {
        "7"
    } else if d == 8 {
        "8"
    } else {
        "9"
    };
    r
}

/// The decimal numeral of `n`.
pub fn decimal(n: usize) -> (text: String)
    ensures
        text@ == decimal_digits(n as nat),
    decreases n,
{
    if n < 10 {
        String::from_str(digit_text(n))
    } else {
        let mut text = decimal(n / 10);
        text.append(digit_text(n % 10));
        text
    }
}

/// Builds a response from a status line and a body. The `Content-Length`
/// header carries the length of the body in bytes.
pub fn synthesize(status_line: &str, body: &str) -> (response: String)
    ensures
        response@ == response_text(status_line@, body@, body.spec_bytes().len()),
{
    let body_bytes = body.as_bytes().len();
    let mut response = String::from_str(status_line);
    response.append("\r\nContent-Length: ");
    response.append(decimal(body_bytes).as_str());
    response.append("\r\n\r\n");
    response.append(body);
    response
}

/// The reply to a connection that cannot be routed.
pub fn unavailable_response() -> (response: String)
    ensures
        response@ == response_text(
            "HTTP/1.1 503 Service Unavailable"@,
            "Service Unavailable"@,
            "Service Unavailable".spec_bytes().len(),
        ),
        response@
            == "HTTP/1.1 503 Service Unavailable\r\nContent-Length: 19\r\n\r\nService Unavailable"@,
{
    let response = synthesize("HTTP/1.1 503 Service Unavailable", "Service Unavailable");
    proof {
        reveal_strlit("HTTP/1.1 503 Service Unavailable");
        reveal_strlit("Service Unavailable");
        reveal_strlit("\r\nContent-Length: ");
        reveal_strlit("\r\n\r\n");
        reveal_strlit(
            "HTTP/1.1 503 Service Unavailable\r\nContent-Length: 19\r\n\r\nService Unavailable",
        );
        let body = "Service Unavailable";
        is_ascii_spec_bytes(body);
        assert(body.spec_bytes().len() == 19);
        reveal_with_fuel(decimal_digits, 3);
        assert(decimal_digits(19) =~= seq!['1', '9']);
    }
    response
}

} // verus!
