//! Inbound requests: where the head of a request ends in the bytes read so
//! far, how the head decodes, and how long the body is.

use vstd::prelude::*;
use vstd::string::StrSliceExecFns;
use crate::discovery::is_digit;
use crate::text::{
    chars_of, lemma_split_char_nonempty, split_char, split_once, split_once_spec, split_str,
    strings_view, strip_cr, trim_cr,
};

verus! {

/// Why a request could not be read.
#[derive(Clone, Copy, Debug, PartialEq, Eq, Structural)]
pub enum RequestError {
    /// No method or path, a header line without a name, or a body length
    /// that is not a number.
    MalformedRequest,
}

/// A decoded request.
#[derive(Debug)]
pub struct Request {
    pub method: String,
    pub path: String,
    /// Header names and values, in the order they came.
    pub headers: Vec<(String, String)>,
    pub body: String,
}

pub struct RequestView {
    pub method: Seq<char>,
    pub path: Seq<char>,
    pub headers: Seq<(Seq<char>, Seq<char>)>,
    pub body: Seq<char>,
}

pub open spec fn headers_view(v: Seq<(String, String)>) -> Seq<(Seq<char>, Seq<char>)> {
    v.map_values(|h: (String, String)| (h.0@, h.1@))
}

impl View for Request {
    type V = RequestView;

    open spec fn view(&self) -> RequestView {
        RequestView {
            method: self.method@,
            path: self.path@,
            headers: headers_view(self.headers@),
            body: self.body@,
        }
    }
}

/// The bytes `\r\n\r\n` stand at position `i` of `b`.
pub open spec fn blank_line_at(b: Seq<u8>, i: int) -> bool {
    0 <= i && i + 4 <= b.len() && b[i] == 13 && b[i + 1] == 10 && b[i + 2] == 13 && b[i + 3]
        == 10
}

/// Where the head of a request ends in the bytes read so far: the position
/// of the first blank line, after which the body starts four bytes later.
pub fn head_end(buf: &[u8]) -> (r: Option<usize>)
    ensures
        match r {
            Some(i) => blank_line_at(buf@, i as int) && forall|j: int|
                0 <= j < i ==> !blank_line_at(buf@, j),
            None => forall|j: int| !blank_line_at(buf@, j),
        },
{
    let n = buf.len();
    if n < 4 {
        return None;
    }
    let mut i: usize = 0;
    while i <= n - 4
        invariant
            n == buf@.len(),
            n >= 4,
            i <= n - 3,
            forall|j: int| 0 <= j < i ==> !blank_line_at(buf@, j),
        decreases n - i,
    {
        if buf[i] == 13 && buf[i + 1] == 10 && buf[i + 2] == 13 && buf[i + 3] == 10 {
            return Some(i);
        }
        i += 1;
    }
    None
}

/// The lines of a message head, without their carriage returns.
pub open spec fn head_lines(head: Seq<char>) -> Seq<Seq<char>> {
    split_char(head, '\n').map_values(|l: Seq<char>| strip_cr(l))
}

/// `s` without the spaces and tabs that start it.
pub open spec fn skip_blanks(s: Seq<char>) -> Seq<char>
    decreases s.len(),
{
    if s.len() > 0 && (s[0] == ' ' || s[0] == '\t') {
        skip_blanks(s.subrange(1, s.len() as int))
    } else {
        s
    }
}

/// A header line as name and value: the name is what stands before the
/// first colon and may not be empty.
pub open spec fn parse_header_spec(line: Seq<char>) -> Option<(Seq<char>, Seq<char>)> {
    match split_once_spec(line, seq![':']) {
        Some((name, value)) => if name.len() > 0 {
            Some((name, skip_blanks(value)))
        } else {
            None
        },
        None => None,
    }
}

/// All header lines decoded, or `None` if one of them is malformed.
pub open spec fn parse_headers_spec(lines: Seq<Seq<char>>) -> Option<
    Seq<(Seq<char>, Seq<char>)>,
>
    decreases lines.len(),
{
    if lines.len() == 0 {
        Some(Seq::empty())
    } else {
        match parse_headers_spec(lines.drop_last()) {
            Some(h) => match parse_header_spec(lines.last()) {
                Some(x) => Some(h.push(x)),
                None => None,
            },
            None => None,
        }
    }
}

/// A request head decoded: the request line gives method and path, each
/// following line a header. The body is left empty.
pub open spec fn parse_head_spec(head: Seq<char>) -> Option<RequestView> {
    let lines = head_lines(head);
    let fields = split_char(lines[0], ' ');
    if fields.len() >= 2 && fields[0].len() > 0 && fields[1].len() > 0 {
        match parse_headers_spec(lines.subrange(1, lines.len() as int)) {
            Some(h) => Some(
                RequestView { method: fields[0], path: fields[1], headers: h, body: Seq::empty() },
            ),
            None => None,
        }
    } else {
        None
    }
}

/// Once one header line is malformed, so are all the headers.
proof fn lemma_headers_stay_malformed(lines: Seq<Seq<char>>, k: int)
    requires
        0 <= k <= lines.len(),
        parse_headers_spec(lines.subrange(0, k)) is None,
    ensures
        parse_headers_spec(lines) is None,
    decreases lines.len() - k,
{
    if k < lines.len() {
        let next = lines.subrange(0, k + 1);
        assert(next.drop_last() =~= lines.subrange(0, k));
        lemma_headers_stay_malformed(lines, k + 1);
    } else {
        assert(lines.subrange(0, k) =~= lines);
    }
}

/// `s` without its leading spaces and tabs.
fn skip_blanks_str(s: &str) -> (r: &str)
    ensures
        r@ == skip_blanks(s@),
{
    let n = s.unicode_len();
    let mut i: usize = 0;
    assert(s@.subrange(0, n as int) =~= s@);
    while i < n && (s.get_char(i) == ' ' || s.get_char(i) == '\t')
        invariant
            i <= n,
            n == s@.len(),
            skip_blanks(s@) == skip_blanks(s@.subrange(i as int, n as int)),
        decreases n - i,
    {
        assert(s@.subrange(i as int, n as int).subrange(1, n - i) =~= s@.subrange(
            i + 1,
            n as int,
        ));
        i += 1;
    }
    s.substring_char(i, n)
}

/// One header line as name and value.
fn parse_header(line: &str) -> (r: Option<(String, String)>)
    ensures
        match r {
            Some((name, value)) => parse_header_spec(line@) == Some((name@, value@)),
            None => parse_header_spec(line@) is None,
        },
{
    let colon: Vec<char> = vec![':'];
    assert(colon@ =~= seq![':']);
    match split_once(line, &colon) {
        Some((name, value)) => {
            if name.as_str().unicode_len() == 0 {
                return None;
            }
            let trimmed = skip_blanks_str(value.as_str()).to_owned();
            Some((name, trimmed))
        },
        None => None,
    }
}

/// Decodes a request head (the text before its first blank line). The body
/// of the result is empty: it is read after the head.
pub fn parse_request_head(head: &str) -> (r: Result<Request, RequestError>)
    ensures
        match r {
            Ok(req) => parse_head_spec(head@) == Some(req@),
            Err(_) => parse_head_spec(head@) is None,
        },
{
    let raw = split_str(head, '\n');
    proof {
        lemma_split_char_nonempty(head@, '\n');
    }
    let ghost lines = head_lines(head@);
    assert(strings_view(raw@)[0] == raw@[0]@);
    let first = trim_cr(raw[0].as_str());
    assert(first@ == lines[0]);
    let fields = split_str(first, ' ');
    if fields.len() < 2 {
        return Err(RequestError::MalformedRequest);
    }
    assert(strings_view(fields@)[0] == fields@[0]@);
    assert(strings_view(fields@)[1] == fields@[1]@);
    if fields[0].as_str().unicode_len() == 0 || fields[1].as_str().unicode_len() == 0 {
        return Err(RequestError::MalformedRequest);
    }
    let ghost rest = lines.subrange(1, lines.len() as int);
    let mut headers: Vec<(String, String)> = Vec::new();
    let mut k: usize = 1;
    assert(rest.subrange(0, 0) =~= Seq::<Seq<char>>::empty());
    assert(headers_view(headers@) =~= Seq::<(Seq<char>, Seq<char>)>::empty());
    while k < raw.len()
        invariant
            1 <= k <= raw@.len(),
            lines.len() == raw@.len(),
            lines == head_lines(head@),
            strings_view(raw@) == split_char(head@, '\n'),
            rest == lines.subrange(1, lines.len() as int),
            parse_headers_spec(rest.subrange(0, k - 1)) == Some(headers_view(headers@)),
        decreases raw@.len() - k,
    {
        assert(strings_view(raw@)[k as int] == raw@[k as int]@);
        let line = trim_cr(raw[k].as_str());
        assert(line@ == rest[k - 1]);
        let ghost next = rest.subrange(0, k as int);
        assert(next.drop_last() =~= rest.subrange(0, k - 1));
        match parse_header(line) {
            Some(h) => {
                headers.push(h);
                assert(headers_view(headers@) =~= parse_headers_spec(next)->Some_0);
            },
            None => {
                proof {
                    lemma_headers_stay_malformed(rest, k as int);
                }
                return Err(RequestError::MalformedRequest);
            },
        }
        k += 1;
    }
    assert(rest.subrange(0, k - 1) =~= rest);
    let method = fields[0].clone();
    let path = fields[1].clone();
    Ok(Request { method, path, headers, body: String::new() })
}

/// The code of `c` with ASCII capitals taken to lower case.
pub open spec fn lower_code(c: char) -> u32 {
    if 'A' <= c && c <= 'Z' {
        (c as u32 + 32) as u32
    } else {
        c as u32
    }
}

/// `name` is `Content-Length` in some mix of upper and lower case.
pub open spec fn is_content_length_name(name: Seq<char>) -> bool {
    &&& name.len() == "content-length"@.len()
    &&& forall|i: int| 0 <= i < name.len() ==> lower_code(name[i]) == "content-length"@[i] as u32
}

/// The value of the first `Content-Length` header from position `i` on.
pub open spec fn content_length_value(headers: Seq<(Seq<char>, Seq<char>)>, i: int) -> Option<
    Seq<char>,
>
    decreases headers.len() - i,
{
    if i < 0 || i >= headers.len() {
        None
    } else if is_content_length_name(headers[i].0) {
        Some(headers[i].1)
    } else {
        content_length_value(headers, i + 1)
    }
}

pub open spec fn all_digits(s: Seq<char>) -> bool {
    forall|i: int| 0 <= i < s.len() ==> is_digit(s[i])
}

/// The number that a string of decimal digits writes.
pub open spec fn decimal_value(s: Seq<char>) -> nat
    decreases s.len(),
{
    if s.len() == 0 {
        0
    } else {
        decimal_value(s.drop_last()) * 10 + (s.last() as u32 - 48) as nat
    }
}

/// The length of the body that a request head announces: zero without a
/// `Content-Length` header, `None` when its value is not a decimal number
/// that fits in `usize`.
pub open spec fn body_length_spec(req: RequestView) -> Option<nat> {
    match content_length_value(req.headers, 0) {
        None => Some(0),
        Some(v) => if v.len() > 0 && all_digits(v) && decimal_value(v) <= usize::MAX {
            Some(decimal_value(v))
        } else {
            None
        },
    }
}

/// A decimal number grows with each digit appended.
proof fn lemma_decimal_prefix(s: Seq<char>, k: int)
    requires
        0 <= k <= s.len(),
    ensures
        decimal_value(s.subrange(0, k)) <= decimal_value(s),
    decreases s.len() - k,
{
    if k < s.len() {
        let next = s.subrange(0, k + 1);
        assert(next.drop_last() =~= s.subrange(0, k));
        lemma_decimal_prefix(s, k + 1);
    } else {
        assert(s.subrange(0, k) =~= s);
    }
}

/// The number that `s` writes in decimal, if it is one that fits in `usize`.
fn parse_decimal(s: &str) -> (r: Option<usize>)
    ensures
        match r {
            Some(n) => s@.len() > 0 && all_digits(s@) && n == decimal_value(s@),
            None => !(s@.len() > 0 && all_digits(s@) && decimal_value(s@) <= usize::MAX),
        },
{
    let chars = chars_of(s);
    let n = chars.len();
    if n == 0 {
        return None;
    }
    let mut value: usize = 0;
    let mut i: usize = 0;
    assert(s@.subrange(0, 0) =~= Seq::<char>::empty());
    while i < n
        invariant
            i <= n,
            n == s@.len(),
            chars@ == s@,
            all_digits(s@.subrange(0, i as int)),
            value == decimal_value(s@.subrange(0, i as int)),
        decreases n - i,
    {
        let c = chars[i];
        let ghost next = s@.subrange(0, i + 1);
        assert(next.drop_last() =~= s@.subrange(0, i as int));
        if !('0' <= c && c <= '9') {
            assert(!is_digit(s@[i as int]));
            return None;
        }
        let digit = (c as u32 - 48) as usize;
        match value.checked_mul(10) {
            Some(tens) => match tens.checked_add(digit) {
                Some(v) => {
                    value = v;
                },
                None => {
                    proof {
                        lemma_decimal_prefix(s@, i + 1);
                    }
                    return None;
                },
            },
            None => {
                proof {
                    lemma_decimal_prefix(s@, i + 1);
                }
                return None;
            },
        }
        i += 1;
        assert(all_digits(s@.subrange(0, i as int)));
    }
    assert(s@.subrange(0, n as int) =~= s@);
    Some(value)
}

/// Whether `name` is `Content-Length`, in any case.
fn is_content_length(name: &str) -> (r: bool)
    ensures
        r == is_content_length_name(name@),
{
    let target = chars_of("content-length");
    let chars = chars_of(name);
    if chars.len() != target.len() {
        return false;
    }
    let mut i: usize = 0;
    while i < chars.len()
        invariant
            chars@ == name@,
            target@ == "content-length"@,
            chars@.len() == target@.len(),
            forall|j: int| 0 <= j < i ==> lower_code(name@[j]) == "content-length"@[j] as u32,
        decreases chars@.len() - i,
    {
        let c = chars[i];
        let code: u32 = if 'A' <= c && c <= 'Z' {
            c as u32 + 32
        } else {
            c as u32
        };
        if code != target[i] as u32 {
            return false;
        }
        i += 1;
    }
    true
}

impl Request {
    /// The length of the body announced by the head, which the reader must
    /// then take from the connection.
    pub fn body_length(&self) -> (r: Result<usize, RequestError>)
        ensures
            match r {
                Ok(n) => body_length_spec(self@) == Some(n as nat),
                Err(_) => body_length_spec(self@) is None,
            },
    {
        let mut i: usize = 0;
        while i < self.headers.len()
            invariant
                i <= self.headers@.len(),
                content_length_value(self@.headers, 0) == content_length_value(
                    self@.headers,
                    i as int,
                ),
            decreases self.headers@.len() - i,
        {
            let (name, value) = &self.headers[i];
            assert(self@.headers[i as int] == (name@, value@));
            if is_content_length(name.as_str()) {
                return match parse_decimal(value.as_str()) {
                    Some(n) => Ok(n),
                    None => Err(RequestError::MalformedRequest),
                };
            }
            i += 1;
        }
        Ok(0)
    }

    /// The request with the body that followed its head.
    pub fn set_body(&mut self, body: String)
        ensures
            final(self)@ == (RequestView { body: body@, ..old(self)@ }),
    {
        self.body = body;
    }
}

} // verus!
