use std::str::Utf8Error;
use vstd::prelude::*;
use vstd::utf8::valid_utf8;

verus! {

/// The status line of an answered request.
pub const OK: &'static str = "200 OK";

/// The status line of a request that could not be read.
pub const BAD_REQUEST: &'static str = "400 Bad Request";

#[verifier::external_type_specification]
#[verifier::external_body]
pub struct ExUtf8Error(Utf8Error);

/// Why a request could not be split into header and body.
#[derive(Debug)]
pub enum RequestError {
    /// The request is not UTF-8; the error says where.
    InvalidUtf8(Utf8Error),
    /// The request has no blank line between its header and its body.
    NoBlankLine,
}

/// Calls `std::str::from_utf8`, which succeeds exactly on valid UTF-8.
#[verifier::external_body]
fn from_utf8(bytes: &[u8]) -> (text: Result<&str, Utf8Error>)
    ensures
        text is Ok <==> valid_utf8(bytes@),
{
    std::str::from_utf8(bytes)
}

/// Whether the blank line `"\r\n\r\n"` starts at byte `at` of `bytes`.
pub open spec fn blank_line_at(bytes: Seq<u8>, at: int) -> bool {
    &&& 0 <= at
    &&& at + 4 <= bytes.len()
    &&& bytes[at] == 13
    &&& bytes[at + 1] == 10
    &&& bytes[at + 2] == 13
    &&& bytes[at + 3] == 10
}

/// The bytes of the blank line that ends the header of a request.
pub open spec fn blank_line() -> Seq<u8> {
    seq![13u8, 10u8, 13u8, 10u8]
}

/// A request made of a header, a blank line and a body, where no blank line
/// starts inside the header, has that body: its first blank line is the one
/// after the header.
pub proof fn lemma_body_after_header(header: Seq<u8>, body: Seq<u8>, at: int)
    requires
        forall|before: int|
            0 <= before < header.len() ==> !blank_line_at(header + blank_line() + body, before),
        blank_line_at(header + blank_line() + body, at),
        forall|before: int|
            0 <= before < at ==> !blank_line_at(header + blank_line() + body, before),
    ensures
        at == header.len(),
        (header + blank_line() + body).subrange(at + 4, (header + blank_line() + body).len() as int)
            == body,
{
    let request = header + blank_line() + body;
    assert(blank_line_at(request, header.len() as int));
    assert(request.subrange(at + 4, request.len() as int) =~= body);
}

/// The body of an HTTP request: what follows the first blank line.
/// A request that is not UTF-8, or that has no blank line, has none.
pub fn request_body(request: &[u8]) -> (body: Result<Vec<u8>, RequestError>)
    ensures
        match body {
            Err(RequestError::InvalidUtf8(_)) => !valid_utf8(request@),
            Err(RequestError::NoBlankLine) => valid_utf8(request@) && forall|at: int|
                !blank_line_at(request@, at),
            Ok(body) => valid_utf8(request@) && exists|at: int|
                {
                    &&& blank_line_at(request@, at)
                    &&& forall|before: int| 0 <= before < at ==> !blank_line_at(request@, before)
                    &&& body@ == request@.subrange(at + 4, request@.len() as int)
                },
        },
{
    if let Err(error) = from_utf8(request) {
        return Err(RequestError::InvalidUtf8(error));
    }
    let length = request.len();
    let mut at: usize = 0;
    while at <= length && length - at >= 4
        invariant
            at <= length,
            length == request@.len(),
            valid_utf8(request@),
            forall|before: int| 0 <= before < at ==> !blank_line_at(request@, before),
        decreases length - at,
    {
        if request[at] == 13 && request[at + 1] == 10 && request[at + 2] == 13 && request[at + 3]
            == 10 {
            let mut body: Vec<u8> = Vec::new();
            let mut i: usize = at + 4;
            while i < length
                invariant
                    at + 4 <= i <= length,
                    length == request@.len(),
                    valid_utf8(request@),
                    body@ == request@.subrange(at + 4, i as int),
                decreases length - i,
            {
                body.push(request[i]);
                i += 1;
            }
            assert(blank_line_at(request@, at as int));
            return Ok(body);
        }
        at += 1;
    }
    Err(RequestError::NoBlankLine)
}

/// The text of an HTTP response with this status line and body.
pub open spec fn response_text(status: Seq<char>, body: Seq<char>) -> Seq<char> {
    "HTTP/1.1 "@ + status + "\r\n\r\n"@ + body
}

pub fn http_response(status: &str, body: &str) -> (response: String)
    ensures
        response@ == response_text(status@, body@),
{
    let mut response = String::from_str("HTTP/1.1 ");
    response.append(status);
    response.append("\r\n\r\n");
    response.append(body);
    response
}

/// The response that closes a connection: the error that its request met,
/// as a bad request, or else an empty answer.
pub fn closing_response(error: Option<&str>) -> (response: String)
    ensures
        response@ == match error {
            Some(message) => response_text(BAD_REQUEST@, message@),
            None => response_text(OK@, ""@),
        },
{
    match error {
        Some(message) => http_response(BAD_REQUEST, message),
        None => http_response(OK, ""),
    }
}

} // verus!
