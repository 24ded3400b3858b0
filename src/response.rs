//! Responses the gateway sends back, and the ones it builds for each outcome
//! of a request.

use vstd::prelude::*;
use vstd::string::StrSliceExecFns;
use vstd::string::StringExecFns;

verus! {

/// A response to a client: status, status message, header lines and body.
#[derive(Debug)]
pub struct Response {
    pub status: u16,
    pub status_message: String,
    pub headers: Vec<String>,
    pub body: String,
}

pub struct ResponseView {
    pub status: u16,
    pub message: Seq<char>,
    pub headers: Seq<Seq<char>>,
    pub body: Seq<char>,
}

impl View for Response {
    type V = ResponseView;

    open spec fn view(&self) -> ResponseView {
        ResponseView {
            status: self.status,
            message: self.status_message@,
            headers: self.headers@.map_values(|h: String| h@),
            body: self.body@,
        }
    }
}

/// The header that a response carries unless its content says otherwise.
pub open spec fn plain_text_header() -> Seq<char> {
    "Content-Type: text/plain"@
}

/// A plain-text response.
pub open spec fn plain_response(status: u16, message: Seq<char>, body: Seq<char>) -> ResponseView {
    ResponseView { status, message, headers: seq![plain_text_header()], body }
}

impl Response {
    /// A plain-text response with the given status, message and body.
    pub fn plain(status: u16, message: String, body: String) -> (r: Response)
        ensures
            r@ == plain_response(status, message@, body@),
    {
        let mut headers: Vec<String> = Vec::new();
        headers.push(String::from_str("Content-Type: text/plain"));
        let r = Response { status, status_message: message, headers, body };
        assert(r@.headers =~= seq![plain_text_header()]);
        r
    }

    /// An empty `200 OK`.
    pub fn new() -> (r: Response)
        ensures
            r@ == plain_response(200, "OK"@, Seq::empty()),
    {
        Response::plain(200, String::from_str("OK"), String::new())
    }

    /// A response with no body.
    pub fn status_only(status: u16, message: &str) -> (r: Response)
        ensures
            r@ == plain_response(status, message@, Seq::empty()),
    {
        Response::plain(status, String::from_str(message), String::new())
    }
}

/// The answer to a request that could not be decoded.
pub fn malformed_request_response() -> (r: Response)
    ensures
        r@ == plain_response(400, "Bad Request"@, Seq::empty()),
{
    Response::status_only(400, "Bad Request")
}

/// What the client is told once the relay has run: `Ok` when the command
/// was handed to the device, or the reason it could not be.
pub fn relay_response(outcome: Result<(), String>) -> (r: Response)
    ensures
        match outcome {
            Ok(()) => r@ == plain_response(200, "OK"@, Seq::empty()),
            Err(reason) => r@ == plain_response(503, "Service Unavailable"@, reason@),
        },
{
    match outcome {
        Ok(()) => Response::new(),
        Err(reason) => Response::plain(503, String::from_str("Service Unavailable"), reason),
    }
}

/// What the client is told once the static asset has been looked up:
/// its contents under `content_type`, or `404` when it is absent.
pub fn asset_response(content_type: &str, contents: Option<String>) -> (r: Response)
    ensures
        match contents {
            Some(c) => r@ == (ResponseView {
                status: 200,
                message: "OK"@,
                headers: seq!["Content-Type: "@ + content_type@],
                body: c@,
            }),
            None => r@ == plain_response(404, "Not Found"@, Seq::empty()),
        },
{
    match contents {
        Some(c) => {
            let header = String::from_str("Content-Type: ").concat(content_type);
            let mut headers: Vec<String> = Vec::new();
            headers.push(header);
            let r = Response { status: 200, status_message: String::from_str("OK"), headers, body: c };
            assert(r@.headers =~= seq!["Content-Type: "@ + content_type@]);
            r
        },
        None => Response::status_only(404, "Not Found"),
    }
}

/// The decimal digit for `d`, which is below ten.
pub open spec fn digit_char(d: int) -> char {
    "0123456789"@[d]
}

/// `n` written in decimal, without leading zeros.
pub open spec fn decimal_text(n: nat) -> Seq<char>
    decreases n,
{
    if n < 10 {
        seq![digit_char(n as int)]
    } else {
        decimal_text(n / 10).push(digit_char((n % 10) as int))
    }
}

/// Header lines, each ended by CRLF.
pub open spec fn header_block(headers: Seq<Seq<char>>) -> Seq<char>
    decreases headers.len(),
{
    if headers.len() == 0 {
        Seq::empty()
    } else {
        header_block(headers.drop_last()) + headers.last() + "\r\n"@
    }
}

/// A response as sent: status line, header lines, a blank line, the body.
pub open spec fn wire_text(r: ResponseView) -> Seq<char> {
    "HTTP/1.1 "@ + decimal_text(r.status as nat) + seq![' '] + r.message + "\r\n"@
        + header_block(r.headers) + "\r\n"@ + r.body
}

/// Appends `n` in decimal to `out`.
fn append_decimal(out: &mut String, n: u16)
    ensures
        final(out)@ == old(out)@ + decimal_text(n as nat),
    decreases n,
{
    if n >= 10 {
        append_decimal(out, n / 10);
    }
    let d = (n % 10) as usize;
    let digits = "0123456789";
    proof {
        reveal_strlit("0123456789");
    }
    let digit = digits.substring_char(d, d + 1);
    assert(digit@ =~= seq![digit_char(d as int)]);
    out.append(digit);
}

impl Response {
    /// The text that goes on the wire for this response.
    pub fn to_wire(&self) -> (r: String)
        ensures
            r@ == wire_text(self@),
    {
        let mut out = String::from_str("HTTP/1.1 ");
        append_decimal(&mut out, self.status);
        out.append(" ");
        proof {
            reveal_strlit(" ");
        }
        assert(" "@ =~= seq![' ']);
        out.append(self.status_message.as_str());
        out.append("\r\n");
        let ghost hs = self@.headers;
        let ghost before = out@;
        let mut i: usize = 0;
        assert(hs.subrange(0, 0) =~= Seq::<Seq<char>>::empty());
        assert(before + header_block(hs.subrange(0, 0)) =~= before);
        while i < self.headers.len()
            invariant
                i <= self.headers@.len(),
                hs == self@.headers,
                out@ == before + header_block(hs.subrange(0, i as int)),
            decreases self.headers@.len() - i,
        {
            let ghost next = hs.subrange(0, i + 1);
            assert(next.drop_last() =~= hs.subrange(0, i as int));
            assert(next.last() == self.headers@[i as int]@);
            out.append(self.headers[i].as_str());
            out.append("\r\n");
            assert(out@ =~= before + header_block(next));
            i += 1;
        }
        assert(hs.subrange(0, i as int) =~= hs);
        out.append("\r\n");
        out.append(self.body.as_str());
        assert(out@ =~= wire_text(self@));
        out
    }
}

} // verus!
