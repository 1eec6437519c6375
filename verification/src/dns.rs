//! The question name of a DNS message: a run of labels, each led by its
//! length in one byte, ended by a zero byte or by the end of the buffer.

use vstd::prelude::*;
use vstd::slice::slice_subrange;
use vstd::string::*;
use vstd::utf8::{decode_utf8, valid_utf8};

verus! {

/// Why a question name could not be read.
pub enum NameError {
    /// A label claims more bytes than the buffer holds after its length byte.
    Length,
    /// The bytes of a label are not well-formed UTF-8.
    Encoding,
}

/// The message that goes with each error.
pub open spec fn error_text(e: NameError) -> Seq<char> {
    match e {
        NameError::Length => "Invalid domain name in query"@,
        NameError::Encoding => "Invalid UTF-8 label in domain name"@,
    }
}

/// No label starts at `at`: the buffer is over, or a zero byte ends the name.
pub open spec fn name_ends(buf: Seq<u8>, at: int) -> bool {
    at < 0 || at >= buf.len() || buf[at] == 0
}

/// The name whose first label starts at `at`: the labels in order, joined
/// by dots. The first label that runs past the buffer or is not UTF-8 makes
/// the whole name an error.
pub open spec fn name_at(buf: Seq<u8>, at: int) -> Result<Seq<char>, NameError>
    decreases buf.len() - at,
{
    if name_ends(buf, at) {
        Ok(Seq::empty())
    } else {
        let next = at + 1 + buf[at] as int;
        if next > buf.len() {
            Err(NameError::Length)
        } else if !valid_utf8(buf.subrange(at + 1, next)) {
            Err(NameError::Encoding)
        } else {
            let label = decode_utf8(buf.subrange(at + 1, next));
            match name_at(buf, next) {
                Err(e) => Err(e),
                Ok(rest) => if name_ends(buf, next) {
                    Ok(label)
                } else {
                    Ok(label + seq!['.'] + rest)
                },
            }
        }
    }
}

/// What is known of the whole name once the labels before `at` have been
/// read into `read`.
pub open spec fn name_with(read: Seq<char>, buf: Seq<u8>, at: int) -> Result<Seq<char>, NameError> {
    match name_at(buf, at) {
        Err(e) => Err(e),
        Ok(rest) => if read.len() == 0 {
            Ok(rest)
        } else if name_ends(buf, at) {
            Ok(read)
        } else {
            Ok(read + seq!['.'] + rest)
        },
    }
}

/// `std::str::from_utf8` of the standard library. Trusted: it accepts
/// exactly the well-formed UTF-8 byte strings, and the text it returns is
/// the decoding of the bytes.
#[verifier::external_body]
fn text_of(bytes: &[u8]) -> (r: Option<&str>)
    ensures
        r is Some <==> valid_utf8(bytes@),
        r is Some ==> r->0@ == decode_utf8(bytes@),
{
    std::str::from_utf8(bytes).ok()
}

/// Reads the name that starts at `start` in `buf`. A `start` at or past the
/// end of the buffer gives the empty name.
pub fn parse_domain_name(buf: &[u8], start: usize) -> (r: Result<String, &'static str>)
    ensures
        match r {
            Ok(name) => name_at(buf@, start as int) == Ok::<Seq<char>, NameError>(name@),
            Err(text) => name_at(buf@, start as int) is Err && text@ == error_text(
                name_at(buf@, start as int)->Err_0,
            ),
        },
{
    let mut position: usize = start;
    let mut domain_name = String::new();
    while position < buf.len() && buf[position] != 0
        invariant
            start <= position,
            name_at(buf@, start as int) == name_with(domain_name@, buf@, position as int),
        decreases buf.len() - position,
    {
        let length: usize = buf[position] as usize;
        let from: usize = position + 1;
        if length > buf.len() - from {
            return Err("Invalid domain name in query");
        }
        let label = match text_of(slice_subrange(buf, from, from + length)) {
            Some(s) => s,
            None => {
                return Err("Invalid UTF-8 label in domain name");
            },
        };
        proof {
            reveal_strlit(".");
            assert("."@ =~= seq!['.']);
            let rest = name_at(buf@, from + length);
            if rest is Ok && domain_name@.len() > 0 && !name_ends(buf@, from + length) {
                let tail = rest->Ok_0;
                assert(domain_name@ + seq!['.'] + (label@ + seq!['.'] + tail) =~= (domain_name@
                    + seq!['.'] + label@) + seq!['.'] + tail);
            }
        }
        if !domain_name.as_str().is_empty() {
            domain_name.append(".");
        }
        domain_name.append(label);
        position = from + length;
    }
    proof {
        if domain_name@.len() == 0 {
            assert(domain_name@ =~= Seq::<char>::empty());
        }
    }
    Ok(domain_name)
}

/// Position of the first dot at or after `from` in a name, or the length
/// of the name when there is none.
pub open spec fn label_end(name: Seq<u8>, from: int) -> int
    decreases name.len() - from,
{
    if from < 0 || from >= name.len() {
        name.len() as int
    } else if name[from] == 0x2E {
        from
    } else {
        label_end(name, from + 1)
    }
}

/// The labels of a dotted name from `from` on, each led by one byte that
/// holds its length modulo 256. A name without dots is one label, the
/// empty name included.
pub open spec fn encode_labels(name: Seq<u8>, from: int) -> Seq<u8>
    decreases name.len() - from,
{
    if from < 0 || from > name.len() {
        Seq::empty()
    } else {
        let end = label_end(name, from);
        let label = seq![((end - from) % 256) as u8] + name.subrange(from, end);
        if from <= end < name.len() {
            label + encode_labels(name, end + 1)
        } else {
            label
        }
    }
}

/// The four bytes of `value`, most significant first.
pub open spec fn be_bytes(value: u32) -> Seq<u8> {
    seq![
        (value / 0x100_0000) as u8,
        (value / 0x1_0000 % 0x100) as u8,
        (value / 0x100 % 0x100) as u8,
        (value % 0x100) as u8,
    ]
}

/// The number that four bytes stand for, most significant first.
pub open spec fn be_value(b0: u8, b1: u8, b2: u8, b3: u8) -> int {
    b0 * 0x100_0000 + b1 * 0x1_0000 + b2 * 0x100 + b3
}

/// A response that answers the question for `name` with one address
/// record: the header with one question and one answer, the question, and
/// the answer with a pointer back to the name.
pub open spec fn response_bytes(id: Seq<u8>, name: Seq<u8>, address: Seq<u8>, ttl: u32) -> Seq<u8> {
    id + seq![0x81u8, 0x80, 0x00, 0x01, 0x00, 0x01, 0x00, 0x00, 0x00, 0x00] + encode_labels(
        name,
        0,
    ) + seq![0x00u8, 0x00, 0x01, 0x00, 0x01] + seq![0xc0u8, 0x0c, 0x00, 0x01, 0x00, 0x01]
        + be_bytes(ttl) + seq![0x00u8, 0x04] + address
}

/// A query for the address record of `name`, with transaction id 1.
pub open spec fn query_bytes(name: Seq<u8>) -> Seq<u8> {
    seq![0x00u8, 0x01] + seq![0x01u8, 0x00, 0x00, 0x01, 0x00, 0x00, 0x00, 0x00, 0x00, 0x00]
        + encode_labels(name, 0) + seq![0x00u8] + seq![0x00u8, 0x01, 0x00, 0x01]
}

/// A response that says the name does not exist: the header with reply
/// code 3 and one question, then the question as the request had it.
pub open spec fn nxdomain_bytes(id: Seq<u8>, question: Seq<u8>) -> Seq<u8> {
    id + seq![0x81u8, 0x83] + seq![0x00u8, 0x01, 0x00, 0x00, 0x00, 0x00, 0x00, 0x00] + question
}

/// Where the address starts in a response to a query for a name of
/// `name_len` bytes.
pub open spec fn address_offset(name_len: int) -> int {
    14 + (name_len + 2) + 4 + 10
}

fn append(out: &mut Vec<u8>, bytes: &[u8])
    ensures
        final(out)@ == old(out)@ + bytes@,
{
    let mut i: usize = 0;
    while i < bytes.len()
        invariant
            0 <= i <= bytes.len(),
            out@ == old(out)@ + bytes@.subrange(0, i as int),
        decreases bytes.len() - i,
    {
        out.push(bytes[i]);
        i += 1;
    }
}

fn find_label_end(name: &[u8], from: usize) -> (end: usize)
    requires
        from <= name.len(),
    ensures
        end as int == label_end(name@, from as int),
        from <= end <= name.len(),
{
    let mut i: usize = from;
    while i < name.len()
        invariant
            from <= i <= name.len(),
            label_end(name@, from as int) == label_end(name@, i as int),
        decreases name.len() - i,
    {
        if name[i] == 0x2E {
            return i;
        }
        i += 1;
    }
    i
}

fn append_labels(out: &mut Vec<u8>, name: &[u8])
    ensures
        final(out)@ == old(out)@ + encode_labels(name@, 0),
{
    let mut from: usize = 0;
    loop
        invariant_except_break
            0 <= from <= name.len(),
            old(out)@ + encode_labels(name@, 0) == out@ + encode_labels(name@, from as int),
        ensures
            out@ == old(out)@ + encode_labels(name@, 0),
        decreases name.len() - from,
    {
        let end = find_label_end(name, from);
        out.push(((end - from) % 256) as u8);
        append(out, slice_subrange(name, from, end));
        if end >= name.len() {
            break;
        }
        from = end + 1;
    }
}

fn append_be(out: &mut Vec<u8>, value: u32)
    ensures
        final(out)@ == old(out)@ + be_bytes(value),
{
    out.push((value / 0x100_0000) as u8);
    out.push((value / 0x1_0000 % 0x100) as u8);
    out.push((value / 0x100 % 0x100) as u8);
    out.push((value % 0x100) as u8);
}

/// Builds the response that gives `ip_address` and `ttl` for `domain`.
pub fn create_dns_response(
    transaction_id: [u8; 2],
    domain: &str,
    ip_address: [u8; 4],
    ttl: u32,
) -> (response: Vec<u8>)
    ensures
        response@ == response_bytes(transaction_id@, domain.spec_bytes(), ip_address@, ttl),
{
    let mut response: Vec<u8> = Vec::new();
    append(&mut response, transaction_id.as_slice());
    append(
        &mut response,
        [0x81u8, 0x80u8, 0x00u8, 0x01u8, 0x00u8, 0x01u8, 0x00u8, 0x00u8, 0x00u8, 0x00u8].as_slice(),
    );
    append_labels(&mut response, domain.as_bytes());
    append(&mut response, [0x00u8, 0x00u8, 0x01u8, 0x00u8, 0x01u8].as_slice());
    append(&mut response, [0xc0u8, 0x0cu8, 0x00u8, 0x01u8, 0x00u8, 0x01u8].as_slice());
    append_be(&mut response, ttl);
    append(&mut response, [0x00u8, 0x04u8].as_slice());
    append(&mut response, ip_address.as_slice());
    response
}

/// Builds the query for the address of `domain`.
pub fn build_query(domain: &str) -> (query: Vec<u8>)
    ensures
        query@ == query_bytes(domain.spec_bytes()),
{
    let mut query: Vec<u8> = Vec::new();
    append(&mut query, [0x00u8, 0x01u8].as_slice());
    append(
        &mut query,
        [0x01u8, 0x00u8, 0x00u8, 0x01u8, 0x00u8, 0x00u8, 0x00u8, 0x00u8, 0x00u8, 0x00u8].as_slice(),
    );
    append_labels(&mut query, domain.as_bytes());
    query.push(0);
    append(&mut query, [0x00u8, 0x01u8, 0x00u8, 0x01u8].as_slice());
    query
}

/// Builds the response that reports a name as unknown. The question is
/// copied from the request: its bytes from the twelfth up to `request_len`.
pub fn nxdomain_response(transaction_id: [u8; 2], request: &[u8], request_len: usize) -> (response:
    Vec<u8>)
    requires
        12 <= request_len <= request@.len(),
    ensures
        response@ == nxdomain_bytes(transaction_id@, request@.subrange(12, request_len as int)),
{
    let mut response: Vec<u8> = Vec::new();
    append(&mut response, transaction_id.as_slice());
    append(&mut response, [0x81u8, 0x83u8].as_slice());
    append(
        &mut response,
        [0x00u8, 0x01u8, 0x00u8, 0x00u8, 0x00u8, 0x00u8, 0x00u8, 0x00u8].as_slice(),
    );
    append(&mut response, slice_subrange(request, 12, request_len));
    response
}

/// Reads the answer to a query for a name of `domain_len` bytes: the
/// address and its time to live, or an error when the reply code says that
/// the name does not exist.
pub fn read_answer(response: &[u8], domain_len: usize) -> (r: Result<([u8; 4], u32), &'static str>)
    requires
        address_offset(domain_len as int) + 4 <= response@.len(),
    ensures
        match r {
            Err(text) => response@[3] & 0x0F == 3 && text@
                == "NXDOMAIN: The domain name does not exist."@,
            Ok((address, ttl)) => {
                let at = address_offset(domain_len as int);
                &&& response@[3] & 0x0F != 3
                &&& address@ == response@.subrange(at, at + 4)
                &&& ttl as int == be_value(
                    response@[at - 6],
                    response@[at - 5],
                    response@[at - 4],
                    response@[at - 3],
                )
            },
        },
{
    let rcode: u8 = response[3] & 0x0F;
    if rcode == 3 {
        return Err("NXDOMAIN: The domain name does not exist.");
    }
    let ip_start: usize = 14 + (domain_len + 2) + 4 + 10;
    let address: [u8; 4] = [
        response[ip_start],
        response[ip_start + 1],
        response[ip_start + 2],
        response[ip_start + 3],
    ];
    let b0: u32 = response[ip_start - 6] as u32;
    let b1: u32 = response[ip_start - 5] as u32;
    let b2: u32 = response[ip_start - 4] as u32;
    let b3: u32 = response[ip_start - 3] as u32;
    let ttl: u32 = b0 * 0x100_0000 + b1 * 0x1_0000 + b2 * 0x100 + b3;
    Ok((address, ttl))
}

} // verus!
