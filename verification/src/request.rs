//! Parsing raw request text into a structured request, and typed access to
//! headers and extracted parameters.
//!
//! The wire format is one request line `METHOD SP URI SP HTTP/1.1`, then zero
//! or more `name: value` header lines, a blank line, and the body, each line
//! ended by CRLF.
use vstd::prelude::*;

use crate::error::HttpError;
use crate::matching::is_digit;
use crate::route::HttpMethod;
use crate::route::str_eq;

verus! {

/// A CRLF pair sits at index `i`.
pub open spec fn crlf_at(s: Seq<char>, i: int) -> bool {
    0 <= i && i + 1 < s.len() && s[i] == '\r' && s[i + 1] == '\n'
}

/// Index of the first CRLF at or after `from`, or the end if there is none.
pub open spec fn eol(s: Seq<char>, from: int) -> int
    decreases s.len() - from,
{
    if !(0 <= from && from < s.len()) {
        s.len() as int
    } else if crlf_at(s, from) {
        from
    } else {
        eol(s, from + 1)
    }
}

pub proof fn lemma_eol_props(s: Seq<char>, from: int)
    requires
        0 <= from <= s.len(),
    ensures
        from <= eol(s, from) <= s.len(),
        eol(s, from) < s.len() ==> crlf_at(s, eol(s, from)),
    decreases s.len() - from,
{
    if from < s.len() && !crlf_at(s, from) {
        lemma_eol_props(s, from + 1);
    }
}

/// Index of the first `c` in `s[from..to]`, or `to` if there is none.
pub open spec fn find_in(s: Seq<char>, c: char, from: int, to: int) -> int
    decreases to - from,
{
    if !(0 <= from && from < to && to <= s.len()) {
        to
    } else if s[from] == c {
        from
    } else {
        find_in(s, c, from + 1, to)
    }
}

pub open spec fn rl_end(s: Seq<char>) -> int {
    eol(s, 0)
}

pub open spec fn sp1(s: Seq<char>) -> int {
    find_in(s, ' ', 0, rl_end(s))
}

pub open spec fn sp2(s: Seq<char>) -> int {
    find_in(s, ' ', sp1(s) + 1, rl_end(s))
}

pub open spec fn method_token(s: Seq<char>) -> Seq<char> {
    s.subrange(0, sp1(s))
}

/// The request line is `METHOD SP URI SP HTTP/1.1` ended by CRLF, with a
/// known method and a nonempty URI.
pub open spec fn request_line_wf(s: Seq<char>) -> bool {
    &&& rl_end(s) < s.len()
    &&& sp1(s) < rl_end(s)
    &&& sp1(s) + 1 < sp2(s) < rl_end(s)
    &&& find_in(s, ' ', sp2(s) + 1, rl_end(s)) == rl_end(s)
    &&& (method_token(s) == "GET"@ || method_token(s) == "POST"@)
    &&& s.subrange(sp2(s) + 1, rl_end(s)) == "HTTP/1.1"@
}

pub open spec fn req_method(s: Seq<char>) -> HttpMethod {
    if method_token(s) == "GET"@ {
        HttpMethod::Get
    } else {
        HttpMethod::Post
    }
}

pub open spec fn req_uri(s: Seq<char>) -> Seq<char> {
    s.subrange(sp1(s) + 1, sp2(s))
}

/// The outcome of scanning the header section: whether it is well formed, the
/// header pairs in order, and where the body starts.
pub struct HeaderScan {
    pub ok: bool,
    pub items: Seq<(Seq<char>, Seq<char>)>,
    pub after: int,
}

/// Scan header lines from `from` until the blank line. A header line is
/// `name: value` with a nonempty name before the first colon; one space after
/// the colon is skipped.
pub open spec fn scan_headers(s: Seq<char>, from: int) -> HeaderScan
    decreases s.len() - from,
        via scan_headers_decreases
{
    if !(0 <= from && from <= s.len()) {
        HeaderScan { ok: false, items: Seq::empty(), after: from }
    } else {
        let e = eol(s, from);
        if e >= s.len() {
            HeaderScan { ok: false, items: Seq::empty(), after: e }
        } else if e == from {
            HeaderScan { ok: true, items: Seq::empty(), after: from + 2 }
        } else {
            let c = find_in(s, ':', from, e);
            if c == from || c >= e {
                HeaderScan { ok: false, items: Seq::empty(), after: e }
            } else {
                let vstart = if c + 1 < e && s[c + 1] == ' ' {
                    c + 2
                } else {
                    c + 1
                };
                let rest = scan_headers(s, e + 2);
                HeaderScan {
                    ok: rest.ok,
                    items: seq![(s.subrange(from, c), s.subrange(vstart, e))] + rest.items,
                    after: rest.after,
                }
            }
        }
    }
}

#[via_fn]
proof fn scan_headers_decreases(s: Seq<char>, from: int) {
    if 0 <= from && from <= s.len() {
        lemma_eol_props(s, from);
    }
}

/// The whole request text is well formed.
pub open spec fn request_wf(s: Seq<char>) -> bool {
    &&& request_line_wf(s)
    &&& scan_headers(s, rl_end(s) + 2).ok
}

pub open spec fn req_headers(s: Seq<char>) -> Seq<(Seq<char>, Seq<char>)> {
    scan_headers(s, rl_end(s) + 2).items
}

pub open spec fn req_body(s: Seq<char>) -> Seq<char> {
    s.subrange(scan_headers(s, rl_end(s) + 2).after, s.len() as int)
}

pub open spec fn hdrs_view(hs: Seq<(String, String)>) -> Seq<(Seq<char>, Seq<char>)> {
    hs.map_values(|h: (String, String)| (h.0@, h.1@))
}

/// First value in `items[i..]` whose key is `key`.
pub open spec fn assoc_from(
    items: Seq<(Seq<char>, Seq<char>)>,
    i: int,
    key: Seq<char>,
) -> Option<Seq<char>>
    decreases items.len() - i,
{
    if !(0 <= i && i < items.len()) {
        None
    } else if items[i].0 == key {
        Some(items[i].1)
    } else {
        assoc_from(items, i + 1, key)
    }
}

pub open spec fn assoc(items: Seq<(Seq<char>, Seq<char>)>, key: Seq<char>) -> Option<Seq<char>> {
    assoc_from(items, 0, key)
}

/// Index of the first CRLF at or after `from`.
fn find_eol(p: &str, from: usize, len: usize) -> (r: usize)
    requires
        from <= len,
        len == p@.len(),
    ensures
        r == eol(p@, from as int),
        from <= r <= len,
        r < len ==> crlf_at(p@, r as int),
{
    let mut i = from;
    while i < len
        invariant
            from <= i <= len,
            len == p@.len(),
            eol(p@, from as int) == eol(p@, i as int),
        decreases len - i,
    {
        if i + 1 < len && p.get_char(i) == '\r' && p.get_char(i + 1) == '\n' {
            return i;
        }
        assert(!crlf_at(p@, i as int));
        i += 1;
    }
    i
}

/// Index of the first `ch` in `p[from..to]`.
fn find_char(p: &str, ch: char, from: usize, to: usize, len: usize) -> (r: usize)
    requires
        from <= to <= len,
        len == p@.len(),
    ensures
        r == find_in(p@, ch, from as int, to as int),
        from <= r <= to,
        r < to ==> p@[r as int] == ch,
{
    let mut i = from;
    while i < to
        invariant
            from <= i <= to <= len,
            len == p@.len(),
            find_in(p@, ch, from as int, to as int) == find_in(p@, ch, i as int, to as int),
        decreases to - i,
    {
        if p.get_char(i) == ch {
            return i;
        }
        i += 1;
    }
    i
}

/// Whether `p[from..to]` equals `lit`.
fn region_eq(p: &str, from: usize, to: usize, lit: &str) -> (r: bool)
    requires
        from <= to <= p@.len(),
    ensures
        r == (p@.subrange(from as int, to as int) == lit@),
{
    let ghost sub = p@.subrange(from as int, to as int);
    let llen = lit.unicode_len();
    if to - from != llen {
        return false;
    }
    let mut i: usize = 0;
    while i < llen
        invariant
            0 <= i <= llen,
            from + llen <= to <= p@.len(),
            to - from == llen,
            llen == lit@.len(),
            sub == p@.subrange(from as int, to as int),
            forall|j: int| 0 <= j < i ==> sub[j] == lit@[j],
        decreases llen - i,
    {
        if p.get_char(from + i) != lit.get_char(i) {
            assert(sub[i as int] == p@[from + i]);
            return false;
        }
        assert(sub[i as int] == p@[from + i]);
        i += 1;
    }
    proof {
        assert(sub =~= lit@);
    }
    true
}

/// A structured request: the parsed method, URI, headers and body, plus the
/// parameters extracted from the URI once a route has matched.
#[derive(Clone)]
pub struct Request {
    pub method: HttpMethod,
    pub uri: String,
    pub headers: Vec<(String, String)>,
    pub params: Vec<(String, String)>,
    pub body: String,
}

impl Request {
    /// Parse raw request text. Fails with `BadRequest` exactly when the text
    /// is not a well-formed request.
    pub fn new(raw: &str) -> (r: Result<Request, HttpError>)
        ensures
            match r {
                Ok(req) => {
                    &&& request_wf(raw@)
                    &&& req.method == req_method(raw@)
                    &&& req.uri@ == req_uri(raw@)
                    &&& hdrs_view(req.headers@) == req_headers(raw@)
                    &&& req.params@.len() == 0
                    &&& req.body@ == req_body(raw@)
                },
                Err(e) => e == HttpError::BadRequest && !request_wf(raw@),
            },
    {
        proof {
            reveal_strlit("GET");
            reveal_strlit("POST");
            reveal_strlit("HTTP/1.1");
        }
        let len = raw.unicode_len();
        let e0 = find_eol(raw, 0, len);
        if e0 == len {
            return Err(HttpError::BadRequest);
        }
        let a = find_char(raw, ' ', 0, e0, len);
        if a == e0 {
            return Err(HttpError::BadRequest);
        }
        let b = find_char(raw, ' ', a + 1, e0, len);
        if b == e0 || b == a + 1 {
            return Err(HttpError::BadRequest);
        }
        let c3 = find_char(raw, ' ', b + 1, e0, len);
        if c3 != e0 {
            return Err(HttpError::BadRequest);
        }
        let method: HttpMethod;
        if region_eq(raw, 0, a, "GET") {
            method = HttpMethod::Get;
        } else if region_eq(raw, 0, a, "POST") {
            method = HttpMethod::Post;
        } else {
            assert(!request_line_wf(raw@));
            return Err(HttpError::BadRequest);
        }
        if !region_eq(raw, b + 1, e0, "HTTP/1.1") {
            return Err(HttpError::BadRequest);
        }
        assert(request_line_wf(raw@));
        assert(method == req_method(raw@));
        let uri = String::from_str(raw.substring_char(a + 1, b));
        let ghost h0: int = e0 + 2;
        let mut headers: Vec<(String, String)> = Vec::new();
        let mut cur = e0 + 2;
        loop
            invariant
                cur <= len,
                len == raw@.len(),
                h0 == e0 + 2,
                e0 + 2 <= len,
                request_line_wf(raw@),
                h0 == rl_end(raw@) + 2,
                method == req_method(raw@),
                uri@ == req_uri(raw@),
                scan_headers(raw@, h0).ok == scan_headers(raw@, cur as int).ok,
                scan_headers(raw@, h0).items == hdrs_view(headers@) + scan_headers(
                    raw@,
                    cur as int,
                ).items,
                scan_headers(raw@, h0).after == scan_headers(raw@, cur as int).after,
            decreases len - cur,
        {
            let e = find_eol(raw, cur, len);
            if e == len {
                assert(!scan_headers(raw@, cur as int).ok);
                return Err(HttpError::BadRequest);
            }
            if e == cur {
                let body = String::from_str(raw.substring_char(cur + 2, len));
                proof {
                    assert(scan_headers(raw@, cur as int).ok);
                    assert(scan_headers(raw@, cur as int).items =~= Seq::<(
                        Seq<char>,
                        Seq<char>,
                    )>::empty());
                    assert(hdrs_view(headers@) =~= scan_headers(raw@, h0).items);
                }
                return Ok(Request { method, uri, headers, params: Vec::new(), body });
            }
            let c = find_char(raw, ':', cur, e, len);
            if c == e || c == cur {
                assert(!scan_headers(raw@, cur as int).ok);
                return Err(HttpError::BadRequest);
            }
            let vstart = if c + 1 < e && raw.get_char(c + 1) == ' ' {
                c + 2
            } else {
                c + 1
            };
            let name = String::from_str(raw.substring_char(cur, c));
            let value = String::from_str(raw.substring_char(vstart, e));
            let ghost old_headers = headers@;
            headers.push((name, value));
            proof {
                let ghost item = (raw@.subrange(cur as int, c as int), raw@.subrange(
                    vstart as int,
                    e as int,
                ));
                assert(hdrs_view(headers@) =~= hdrs_view(old_headers) + seq![item]);
                assert(scan_headers(raw@, cur as int).items == seq![item] + scan_headers(
                    raw@,
                    e + 2,
                ).items);
                assert(hdrs_view(old_headers) + (seq![item] + scan_headers(raw@, e + 2).items)
                    =~= (hdrs_view(old_headers) + seq![item]) + scan_headers(raw@, e + 2).items);
            }
            cur = e + 2;
        }
    }

    /// The value of the first header named `header`, or the empty string when
    /// the request has no such header.
    pub fn get_header(&self, header: &str) -> (r: String)
        ensures
            r@ == match assoc(hdrs_view(self.headers@), header@) {
                Some(v) => v,
                None => Seq::<char>::empty(),
            },
    {
        let n = self.headers.len();
        let mut i: usize = 0;
        while i < n
            invariant
                0 <= i <= n,
                n == self.headers@.len(),
                assoc(hdrs_view(self.headers@), header@) == assoc_from(
                    hdrs_view(self.headers@),
                    i as int,
                    header@,
                ),
            decreases n - i,
        {
            assert(hdrs_view(self.headers@)[i as int] == (
                self.headers@[i as int].0@,
                self.headers@[i as int].1@,
            ));
            if str_eq(self.headers[i].0.as_str(), header) {
                return self.headers[i].1.clone();
            }
            i += 1;
        }
        String::new()
    }

    /// The value of the parameter named `name`, converted to `T`. The caller
    /// owes a parameter of that name whose value `T` can convert.
    pub fn get_param<T: UriParam>(&self, name: &str) -> (r: T)
        requires
            assoc(hdrs_view(self.params@), name@) is Some,
            T::can_parse(assoc(hdrs_view(self.params@), name@).unwrap()),
        ensures
            r@ == T::parse_spec(assoc(hdrs_view(self.params@), name@).unwrap()),
    {
        let n = self.params.len();
        let mut i: usize = 0;
        while i < n
            invariant
                0 <= i <= n,
                n == self.params@.len(),
                assoc(hdrs_view(self.params@), name@) == assoc_from(
                    hdrs_view(self.params@),
                    i as int,
                    name@,
                ),
                assoc(hdrs_view(self.params@), name@) is Some,
                T::can_parse(assoc(hdrs_view(self.params@), name@).unwrap()),
            decreases n - i,
        {
            assert(hdrs_view(self.params@)[i as int] == (
                self.params@[i as int].0@,
                self.params@[i as int].1@,
            ));
            if str_eq(self.params[i].0.as_str(), name) {
                return T::parse(&self.params[i].1);
            }
            i += 1;
        }
        proof {
            assert(false);
        }
        unreached()
    }
}

/// A type a URI parameter can be converted to.
pub trait UriParam: View + Sized {
    /// Whether the raw text converts to a value of this type.
    spec fn can_parse(data: Seq<char>) -> bool;

    /// The value the raw text converts to.
    spec fn parse_spec(data: Seq<char>) -> Self::V;

    /// Convert raw parameter text; the caller owes convertible text.
    fn parse(data: &String) -> (r: Self)
        requires
            Self::can_parse(data@),
        ensures
            r@ == Self::parse_spec(data@),
    ;
}

impl UriParam for String {
    open spec fn can_parse(data: Seq<char>) -> bool {
        true
    }

    open spec fn parse_spec(data: Seq<char>) -> Seq<char> {
        data
    }

    fn parse(data: &String) -> (r: String) {
        data.clone()
    }
}

/// Numeric value of a digit string.
pub open spec fn digits_value(s: Seq<char>) -> int
    decreases s.len(),
{
    if s.len() == 0 {
        0
    } else {
        digits_value(s.drop_last()) * 10 + (s.last() as int - 48)
    }
}

pub proof fn lemma_digits_value_nonneg(s: Seq<char>)
    requires
        forall|i: int| 0 <= i < s.len() ==> is_digit(#[trigger] s[i]),
    ensures
        digits_value(s) >= 0,
    decreases s.len(),
{
    if s.len() > 0 {
        lemma_digits_value_nonneg(s.drop_last());
    }
}

/// The value of a prefix of a digit string never exceeds the whole.
pub proof fn lemma_digits_value_prefix(s: Seq<char>, i: int)
    requires
        0 <= i <= s.len(),
        forall|j: int| 0 <= j < s.len() ==> is_digit(#[trigger] s[j]),
    ensures
        digits_value(s.take(i)) <= digits_value(s),
    decreases s.len() - i,
{
    if i == s.len() {
        assert(s.take(i) =~= s);
    } else {
        lemma_digits_value_prefix(s, i + 1);
        assert(s.take(i + 1).drop_last() =~= s.take(i));
        assert forall|j: int| 0 <= j < s.take(i).len() implies is_digit(#[trigger] s.take(i)[j]) by {
            assert(s.take(i)[j] == s[j]);
        }
        lemma_digits_value_nonneg(s.take(i));
        assert(digits_value(s.take(i + 1)) == digits_value(s.take(i)) * 10 + (s[i] as int - 48));
    }
}

/// The digits of an integer token, after any sign.
pub open spec fn int_token_digits(s: Seq<char>) -> Seq<char> {
    if s.len() >= 1 && (s[0] == '+' || s[0] == '-') {
        s.skip(1)
    } else {
        s
    }
}

/// The token is an optional sign and one or more digits, within `i32` range.
pub open spec fn i32_parsable(s: Seq<char>) -> bool {
    let ds = int_token_digits(s);
    &&& ds.len() >= 1
    &&& forall|i: int| 0 <= i < ds.len() ==> is_digit(#[trigger] ds[i])
    &&& if s.len() >= 1 && s[0] == '-' {
        digits_value(ds) <= 2147483648
    } else {
        digits_value(ds) <= 2147483647
    }
}

pub open spec fn i32_value(s: Seq<char>) -> int {
    if s.len() >= 1 && s[0] == '-' {
        -digits_value(int_token_digits(s))
    } else {
        digits_value(int_token_digits(s))
    }
}

/// Parse a decimal integer token; the caller owes a parsable one.
fn parse_i32(s: &str) -> (r: i32)
    requires
        i32_parsable(s@),
    ensures
        r as int == i32_value(s@),
{
    let len = s.unicode_len();
    let c0 = s.get_char(0);
    let neg = c0 == '-';
    let start: usize = if c0 == '-' || c0 == '+' {
        1
    } else {
        0
    };
    let ghost ds = int_token_digits(s@);
    proof {
        assert(ds =~= s@.subrange(start as int, len as int));
    }
    let mut acc: i64 = 0;
    let mut i = start;
    while i < len
        invariant
            start <= i <= len,
            len == s@.len(),
            i32_parsable(s@),
            ds == int_token_digits(s@),
            ds == s@.subrange(start as int, len as int),
            acc == digits_value(ds.take(i - start)),
            0 <= acc <= 2147483648,
        decreases len - i,
    {
        let d = s.get_char(i);
        proof {
            assert(ds[(i - start) as int] == s@[i as int]);
            assert(is_digit(d));
            lemma_digits_value_prefix(ds, i + 1 - start);
            lemma_digits_value_nonneg(ds.take(i + 1 - start));
            assert(ds.take(i + 1 - start).drop_last() =~= ds.take(i - start));
            assert(digits_value(ds.take(i + 1 - start)) == acc * 10 + (d as int - 48));
        }
        acc = acc * 10 + ((d as u32) - 48) as i64;
        i += 1;
    }
    proof {
        assert(ds.take(len - start) =~= ds);
    }
    if neg {
        (-acc) as i32
    } else {
        acc as i32
    }
}

impl UriParam for i32 {
    open spec fn can_parse(data: Seq<char>) -> bool {
        i32_parsable(data)
    }

    open spec fn parse_spec(data: Seq<char>) -> i32 {
        i32_value(data) as i32
    }

    fn parse(data: &String) -> (r: i32) {
        parse_i32(data.as_str())
    }
}

/// Whether a digit string's value fits an `i32`.
pub fn digits_fit_i32(v: &str) -> (r: bool)
    requires
        v@.len() >= 1,
        forall|i: int| 0 <= i < v@.len() ==> is_digit(#[trigger] v@[i]),
    ensures
        r == (digits_value(v@) <= 2147483647),
{
    let len = v.unicode_len();
    let mut acc: i64 = 0;
    let mut i: usize = 0;
    while i < len
        invariant
            0 <= i <= len,
            len == v@.len(),
            forall|j: int| 0 <= j < v@.len() ==> is_digit(#[trigger] v@[j]),
            acc == digits_value(v@.take(i as int)),
            0 <= acc <= 2147483647,
        decreases len - i,
    {
        let d = v.get_char(i);
        proof {
            assert(is_digit(d));
            lemma_digits_value_nonneg(v@.take(i as int));
            assert(v@.take(i + 1).drop_last() =~= v@.take(i as int));
            assert(digits_value(v@.take(i + 1)) == acc * 10 + (d as int - 48));
        }
        let na = acc * 10 + ((d as u32) - 48) as i64;
        if na > 2147483647 {
            proof {
                lemma_digits_value_prefix(v@, i + 1);
            }
            return false;
        }
        acc = na;
        i += 1;
    }
    proof {
        assert(v@.take(len as int) =~= v@);
    }
    true
}

} // verus!
