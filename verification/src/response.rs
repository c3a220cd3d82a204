//! Building responses and serializing them to wire format: status line,
//! header lines in insertion order, a blank line, then the body, with CRLF
//! line endings.
use vstd::prelude::*;

use crate::error::{HttpError, status_code, status_of};

verus! {

pub open spec fn digit_char(d: int) -> char {
    ((48 + d) as u8) as char
}

/// Decimal digits of a nonnegative number.
pub open spec fn dec_digits(n: int) -> Seq<char>
    decreases n,
{
    if n < 10 {
        seq![digit_char(n)]
    } else {
        dec_digits(n / 10).push(digit_char(n % 10))
    }
}

/// Decimal rendering of a number, with a sign when negative.
pub open spec fn int_str(n: int) -> Seq<char> {
    if n < 0 {
        seq!['-'] + dec_digits(-n)
    } else {
        dec_digits(n)
    }
}

/// The reason phrase of a status code, with a generic default.
pub open spec fn reason(code: int) -> Seq<char> {
    if code == 100 { "Continue"@ }
    else if code == 101 { "Switching Protocols"@ }
    else if code == 102 { "Processing"@ }
    else if code == 200 { "OK"@ }
    else if code == 201 { "Created"@ }
    else if code == 202 { "Accepted"@ }
    else if code == 203 { "Non-Authoritative Information"@ }
    else if code == 204 { "No Content"@ }
    else if code == 205 { "Reset Content"@ }
    else if code == 206 { "Partial Content"@ }
    else if code == 207 { "Multi-Status"@ }
    else if code == 208 { "Already Reported"@ }
    else if code == 226 { "IM Used"@ }
    else if code == 300 { "Multiple Choices"@ }
    else if code == 301 { "Moved Permanently"@ }
    else if code == 302 { "Found"@ }
    else if code == 303 { "See Other"@ }
    else if code == 304 { "Not Modified"@ }
    else if code == 305 { "Use Proxy"@ }
    else if code == 306 { "Switch Proxy"@ }
    else if code == 307 { "Temporary Redirect"@ }
    else if code == 308 { "Permanent Redirect"@ }
    else if code == 400 { "Bad Request"@ }
    else if code == 401 { "Unauthorized"@ }
    else if code == 402 { "Payment Required"@ }
    else if code == 403 { "Forbidden"@ }
    else if code == 404 { "Not Found"@ }
    else if code == 405 { "Method Not Allowed"@ }
    else if code == 406 { "Not Acceptable"@ }
    else if code == 407 { "Proxy Authentication Required"@ }
    else if code == 408 { "Request Timeout"@ }
    else if code == 409 { "Conflict"@ }
    else if code == 410 { "Gone"@ }
    else if code == 411 { "Length Required"@ }
    else if code == 412 { "Precondition Failed"@ }
    else if code == 413 { "Payload Too Large"@ }
    else if code == 414 { "URI Too Long"@ }
    else if code == 415 { "Unsupported Media Type"@ }
    else if code == 416 { "Range Not Satisfiable"@ }
    else if code == 417 { "Expectation Failed"@ }
    else if code == 421 { "Misdirected Request"@ }
    else if code == 422 { "Unprocessable Entity"@ }
    else if code == 423 { "Locked"@ }
    else if code == 424 { "Failed Dependency"@ }
    else if code == 426 { "Upgrade Required"@ }
    else if code == 428 { "Precondition Required"@ }
    else if code == 429 { "Too Many Requests"@ }
    else if code == 431 { "Request Header Fields Too Large"@ }
    else if code == 451 { "Unavailable For Legal Reasons"@ }
    else if code == 500 { "Internal Server Error"@ }
    else if code == 501 { "Not Implemented"@ }
    else if code == 502 { "Bad Gateway"@ }
    else if code == 503 { "Service Unavailable"@ }
    else if code == 504 { "Gateway Timeout"@ }
    else if code == 505 { "HTTP Version Not Supported"@ }
    else { "OK"@ }
}

pub open spec fn hdrs_view(hs: Seq<(String, String)>) -> Seq<(Seq<char>, Seq<char>)> {
    hs.map_values(|h: (String, String)| (h.0@, h.1@))
}

/// Header lines in order, each `name: value` ended by CRLF.
pub open spec fn render_headers(hs: Seq<(Seq<char>, Seq<char>)>) -> Seq<char>
    decreases hs.len(),
{
    if hs.len() == 0 {
        Seq::empty()
    } else {
        render_headers(hs.drop_last()) + hs.last().0 + ": "@ + hs.last().1 + "\r\n"@
    }
}

/// The whole wire form: status line, header lines, a blank line, the body.
pub open spec fn render(status: int, hs: Seq<(Seq<char>, Seq<char>)>, body: Seq<char>) -> Seq<
    char,
> {
    "HTTP/1.1 "@ + int_str(status) + " "@ + reason(status) + "\r\n"@ + render_headers(hs) + "\r\n"@
        + body
}

/// Index of the first header named `k`, or the length if there is none.
pub open spec fn find_key_from(hs: Seq<(Seq<char>, Seq<char>)>, i: int, k: Seq<char>) -> int
    decreases hs.len() - i,
{
    if !(0 <= i && i < hs.len()) {
        hs.len() as int
    } else if hs[i].0 == k {
        i
    } else {
        find_key_from(hs, i + 1, k)
    }
}

/// Replace the value of the first header named `k`, or append a new header.
pub open spec fn upsert(hs: Seq<(Seq<char>, Seq<char>)>, k: Seq<char>, v: Seq<char>) -> Seq<(
    Seq<char>,
    Seq<char>,
)> {
    let i = find_key_from(hs, 0, k);
    if i < hs.len() {
        hs.update(i, (k, v))
    } else {
        hs.push((k, v))
    }
}

/// Relies on String::push: it appends the one character to the end of the
/// string.
#[verifier::external_body]
fn push_char(s: &mut String, c: char)
    ensures
        final(s)@ == old(s)@ + seq![c],
{
    s.push(c);
}

/// Append the decimal digits of `n`.
fn push_digits(out: &mut String, n: u32)
    ensures
        final(out)@ == old(out)@ + dec_digits(n as int),
    decreases n,
{
    if n < 10 {
        let c = (48 + n as u8) as char;
        push_char(out, c);
    } else {
        push_digits(out, n / 10);
        let d = n % 10;
        let c = (48 + d as u8) as char;
        push_char(out, c);
        proof {
            assert(old(out)@ + dec_digits((n / 10) as int) + seq![digit_char((n % 10) as int)]
                =~= old(out)@ + dec_digits(n as int));
        }
    }
}

/// Append the decimal rendering of `status`, with a sign when negative.
fn push_status(out: &mut String, status: i16)
    ensures
        final(out)@ == old(out)@ + int_str(status as int),
{
    if status < 0 {
        push_char(out, '-');
        let m = -(status as i32);
        push_digits(out, m as u32);
        proof {
            assert(old(out)@ + seq!['-'] + dec_digits(m as int) =~= old(out)@ + int_str(
                status as int,
            ));
        }
    } else {
        push_digits(out, status as u32);
    }
}

/// The reason phrase for `code`, with a generic default for codes outside the
/// table.
pub fn http_message(code: i16) -> (r: String)
    ensures
        r@ == reason(code as int),
{
    let message: &str = match code {
        100 => "Continue",
        101 => "Switching Protocols",
        102 => "Processing",
        200 => "OK",
        201 => "Created",
        202 => "Accepted",
        203 => "Non-Authoritative Information",
        204 => "No Content",
        205 => "Reset Content",
        206 => "Partial Content",
        207 => "Multi-Status",
        208 => "Already Reported",
        226 => "IM Used",
        300 => "Multiple Choices",
        301 => "Moved Permanently",
        302 => "Found",
        303 => "See Other",
        304 => "Not Modified",
        305 => "Use Proxy",
        306 => "Switch Proxy",
        307 => "Temporary Redirect",
        308 => "Permanent Redirect",
        400 => "Bad Request",
        401 => "Unauthorized",
        402 => "Payment Required",
        403 => "Forbidden",
        404 => "Not Found",
        405 => "Method Not Allowed",
        406 => "Not Acceptable",
        407 => "Proxy Authentication Required",
        408 => "Request Timeout",
        409 => "Conflict",
        410 => "Gone",
        411 => "Length Required",
        412 => "Precondition Failed",
        413 => "Payload Too Large",
        414 => "URI Too Long",
        415 => "Unsupported Media Type",
        416 => "Range Not Satisfiable",
        417 => "Expectation Failed",
        421 => "Misdirected Request",
        422 => "Unprocessable Entity",
        423 => "Locked",
        424 => "Failed Dependency",
        426 => "Upgrade Required",
        428 => "Precondition Required",
        429 => "Too Many Requests",
        431 => "Request Header Fields Too Large",
        451 => "Unavailable For Legal Reasons",
        500 => "Internal Server Error",
        501 => "Not Implemented",
        502 => "Bad Gateway",
        503 => "Service Unavailable",
        504 => "Gateway Timeout",
        505 => "HTTP Version Not Supported",
        _ => "OK",
    };
    String::from_str(message)
}

/// A response under construction: status code, headers in insertion order,
/// and the body.
pub struct Response {
    pub status: i16,
    pub headers: Vec<(String, String)>,
    pub body: String,
}

impl Response {
    /// A response with the given body, status 200 and an HTML content type.
    pub fn new(body: &str) -> (r: Response)
        ensures
            r.status == 200,
            hdrs_view(r.headers@) == seq![("Content-Type"@, "text/html; charset=UTF-8"@)],
            r.body@ == body@,
    {
        let mut headers: Vec<(String, String)> = Vec::new();
        headers.push((String::from_str("Content-Type"), String::from_str(
            "text/html; charset=UTF-8",
        )));
        let r = Response { status: 200, headers, body: String::from_str(body) };
        proof {
            assert(hdrs_view(r.headers@) =~= seq![("Content-Type"@, "text/html; charset=UTF-8"@)]);
        }
        r
    }

    /// The same response with the given status code.
    pub fn status(self, status: i16) -> (r: Response)
        ensures
            r.status == status,
            r.headers@ == self.headers@,
            r.body@ == self.body@,
    {
        Response { status, ..self }
    }

    /// The same response with its content type replaced.
    pub fn content_type(self, content_type: &str) -> (r: Response)
        ensures
            r.status == self.status,
            hdrs_view(r.headers@) == upsert(
                hdrs_view(self.headers@),
                "Content-Type"@,
                content_type@,
            ),
            r.body@ == self.body@,
    {
        self.add_header("Content-Type", content_type)
    }

    /// The same response with the header set: the first header of that name
    /// is replaced, or a new one is appended.
    pub fn add_header(self, key: &str, value: &str) -> (r: Response)
        ensures
            r.status == self.status,
            hdrs_view(r.headers@) == upsert(hdrs_view(self.headers@), key@, value@),
            r.body@ == self.body@,
    {
        let mut this = self;
        let ghost hv = hdrs_view(this.headers@);
        let n = this.headers.len();
        let mut i: usize = 0;
        while i < n
            invariant
                0 <= i <= n,
                n == this.headers@.len(),
                hv == hdrs_view(this.headers@),
                hv == hdrs_view(self.headers@),
                this.status == self.status,
                this.body@ == self.body@,
                find_key_from(hv, 0, key@) == find_key_from(hv, i as int, key@),
            decreases n - i,
        {
            assert(hv[i as int] == (this.headers@[i as int].0@, this.headers@[i as int].1@));
            if crate::route::str_eq(this.headers[i].0.as_str(), key) {
                this.headers.set(i, (String::from_str(key), String::from_str(value)));
                proof {
                    assert(hdrs_view(this.headers@) =~= upsert(hv, key@, value@));
                }
                return this;
            }
            i += 1;
        }
        this.headers.push((String::from_str(key), String::from_str(value)));
        proof {
            assert(hdrs_view(this.headers@) =~= upsert(hv, key@, value@));
        }
        this
    }

    /// Serialize to wire form: status line, headers in insertion order, a
    /// blank line, then the body.
    pub fn dump(self) -> (r: String)
        ensures
            r@ == render(self.status as int, hdrs_view(self.headers@), self.body@),
    {
        let ghost hv = hdrs_view(self.headers@);
        let mut out = String::from_str("HTTP/1.1 ");
        push_status(&mut out, self.status);
        out.append(" ");
        let phrase = http_message(self.status);
        out.append(phrase.as_str());
        out.append("\r\n");
        let ghost base = "HTTP/1.1 "@ + int_str(self.status as int) + " "@ + reason(
            self.status as int,
        ) + "\r\n"@;
        proof {
            assert(out@ =~= base);
            assert(render_headers(hv.take(0)) =~= Seq::<char>::empty());
            assert(out@ =~= base + render_headers(hv.take(0)));
        }
        let n = self.headers.len();
        let mut i: usize = 0;
        while i < n
            invariant
                0 <= i <= n,
                n == self.headers@.len(),
                hv == hdrs_view(self.headers@),
                out@ == base + render_headers(hv.take(i as int)),
            decreases n - i,
        {
            assert(hv[i as int] == (self.headers@[i as int].0@, self.headers@[i as int].1@));
            out.append(self.headers[i].0.as_str());
            out.append(": ");
            out.append(self.headers[i].1.as_str());
            out.append("\r\n");
            proof {
                assert(hv.take(i + 1).drop_last() =~= hv.take(i as int));
                assert(hv.take(i + 1).last() == hv[i as int]);
                assert(out@ =~= base + render_headers(hv.take(i + 1)));
            }
            i += 1;
        }
        proof {
            assert(hv.take(n as int) =~= hv);
        }
        out.append("\r\n");
        out.append(self.body.as_str());
        proof {
            assert(out@ =~= render(self.status as int, hv, self.body@));
        }
        out
    }
}

/// The response an error surfaces as: its status code, the code's reason
/// phrase as the body, and the default content type.
pub fn error_response(e: HttpError) -> (r: Response)
    ensures
        r.status as int == status_of(e),
        hdrs_view(r.headers@) == seq![("Content-Type"@, "text/html; charset=UTF-8"@)],
        r.body@ == reason(status_of(e)),
{
    let code = status_code(e);
    let phrase = http_message(code);
    Response::new(phrase.as_str()).status(code)
}

} // verus!
