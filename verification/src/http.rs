use vstd::prelude::*;

use crate::errors::Error;
use crate::text::{
    all_spaces, dec_val, digits_of, find_from, lower, parse_usize, parses_as_usize, scan_token,
    scan_token_exec, skip_spaces, skip_spaces_exec, str_eq, str_find, str_is_blank, str_trim, trim,
};

verus! {

/// The closed set of request methods. A request line whose first token is
/// anything else fails to parse.
#[derive(Clone, Copy, Debug, PartialEq, Eq, Structural)]
pub enum HttpMethod {
    GET,
    DELETE,
    POST,
    PUT,
    HEAD,
    CONNECT,
    OPTIONS,
    TRACE,
    PATCH,
}

/// The method a token denotes, or `None` for an unrecognized token.
pub open spec fn method_of(tok: Seq<char>) -> Option<HttpMethod> {
    if tok == "GET"@ {
        Some(HttpMethod::GET)
    } else if tok == "DELETE"@ {
        Some(HttpMethod::DELETE)
    } else if tok == "POST"@ {
        Some(HttpMethod::POST)
    } else if tok == "PUT"@ {
        Some(HttpMethod::PUT)
    } else if tok == "HEAD"@ {
        Some(HttpMethod::HEAD)
    } else if tok == "CONNECT"@ {
        Some(HttpMethod::CONNECT)
    } else if tok == "OPTIONS"@ {
        Some(HttpMethod::OPTIONS)
    } else if tok == "TRACE"@ {
        Some(HttpMethod::TRACE)
    } else if tok == "PATCH"@ {
        Some(HttpMethod::PATCH)
    } else {
        None
    }
}

impl HttpMethod {
    /// Parse a method token; unknown tokens are `InvalidMethod`, never a
    /// fallback.
    pub fn from_str(value: &str) -> (r: Result<HttpMethod, Error>)
        ensures
            match r {
                Ok(m) => method_of(value@) == Some(m),
                Err(e) => method_of(value@) is None && e == Error::InvalidMethod,
            },
    {
        if str_eq(value, "GET") {
            Ok(HttpMethod::GET)
        } else if str_eq(value, "DELETE") {
            Ok(HttpMethod::DELETE)
        } else if str_eq(value, "POST") {
            Ok(HttpMethod::POST)
        } else if str_eq(value, "PUT") {
            Ok(HttpMethod::PUT)
        } else if str_eq(value, "HEAD") {
            Ok(HttpMethod::HEAD)
        } else if str_eq(value, "CONNECT") {
            Ok(HttpMethod::CONNECT)
        } else if str_eq(value, "OPTIONS") {
            Ok(HttpMethod::OPTIONS)
        } else if str_eq(value, "TRACE") {
            Ok(HttpMethod::TRACE)
        } else if str_eq(value, "PATCH") {
            Ok(HttpMethod::PATCH)
        } else {
            Err(Error::InvalidMethod)
        }
    }
}

/// The header map a sequence of key/value pairs denotes: keys are folded to
/// lowercase, and a later pair overwrites an earlier one with the same key.
pub open spec fn map_of(entries: Seq<(String, String)>) -> Map<Seq<char>, Seq<char>>
    decreases entries.len(),
{
    if entries.len() == 0 {
        Map::empty()
    } else {
        map_of(entries.drop_last()).insert(lower(entries.last().0@), entries.last().1@)
    }
}

/// The request's header collection. Keys compare and look up under ASCII
/// case folding, and inserting an existing key overwrites its value.
#[derive(Debug)]
pub struct Headers {
    entries: Vec<(String, String)>,
}

impl View for Headers {
    type V = Map<Seq<char>, Seq<char>>;

    closed spec fn view(&self) -> Map<Seq<char>, Seq<char>> {
        map_of(self.entries@)
    }
}

impl Headers {
    pub fn new() -> (h: Headers)
        ensures
            h@ == Map::<Seq<char>, Seq<char>>::empty(),
    {
        Headers { entries: Vec::new() }
    }

    /// Record a header; a later insertion of the same (case-folded) key wins.
    pub fn insert(&mut self, key: String, value: String)
        ensures
            final(self)@ == old(self)@.insert(lower(key@), value@),
    {
        let ghost before = self.entries@;
        self.entries.push((key, value));
        proof {
            assert(self.entries@.drop_last() =~= before);
        }
    }

    /// Look the key up under case folding, returning the value most recently
    /// inserted for it.
    pub fn get(&self, key: &str) -> (r: Option<&String>)
        ensures
            match r {
                Some(v) => self@.contains_key(lower(key@)) && v@ == self@[lower(key@)],
                None => !self@.contains_key(lower(key@)),
            },
    {
        let ghost k = lower(key@);
        let mut i: usize = self.entries.len();
        proof {
            assert(self.entries@.subrange(0, i as int) =~= self.entries@);
        }
        while i > 0
            invariant
                i <= self.entries@.len(),
                map_of(self.entries@).contains_key(k) == map_of(
                    self.entries@.subrange(0, i as int),
                ).contains_key(k),
                map_of(self.entries@).contains_key(k) ==> map_of(self.entries@)[k] == map_of(
                    self.entries@.subrange(0, i as int),
                )[k],
                k == lower(key@),
            decreases i,
        {
            proof {
                assert(self.entries@.subrange(0, i as int).drop_last() =~= self.entries@.subrange(
                    0,
                    i as int - 1,
                ));
                assert(self.entries@.subrange(0, i as int).last() == self.entries@[i - 1]);
            }
            let entry = &self.entries[i - 1];
            if crate::text::str_eq_fold(entry.0.as_str(), key) {
                return Some(&entry.1);
            }
            i -= 1;
        }
        proof {
            assert(self.entries@.subrange(0, 0) =~= Seq::<(String, String)>::empty());
        }
        None
    }
}

/// Bounds of the first whitespace-separated token of a line.
pub open spec fn tok1_start(s: Seq<char>) -> int {
    skip_spaces(s, 0)
}

pub open spec fn tok1_end(s: Seq<char>) -> int {
    scan_token(s, tok1_start(s))
}

/// Bounds of the second whitespace-separated token of a line.
pub open spec fn tok2_start(s: Seq<char>) -> int {
    skip_spaces(s, tok1_end(s))
}

pub open spec fn tok2_end(s: Seq<char>) -> int {
    scan_token(s, tok2_start(s))
}

/// The first whitespace-separated token of a line, if the line has one.
pub open spec fn first_token(s: Seq<char>) -> Option<Seq<char>> {
    if tok1_start(s) < s.len() {
        Some(s.subrange(tok1_start(s), tok1_end(s)))
    } else {
        None
    }
}

/// The second whitespace-separated token of a line, if the line has one.
pub open spec fn second_token(s: Seq<char>) -> Option<Seq<char>> {
    if tok2_start(s) < s.len() {
        Some(s.subrange(tok2_start(s), tok2_end(s)))
    } else {
        None
    }
}

/// The line holds at least one `:`, so it can carry a header.
pub open spec fn has_colon(line: Seq<char>) -> bool {
    find_from(line, ':', 0) >= 0
}

/// The header name of a line: what stands before the first `:`, trimmed.
/// Case folding happens at insertion.
pub open spec fn header_key(line: Seq<char>) -> Seq<char> {
    trim(line.subrange(0, find_from(line, ':', 0)))
}

/// The header value of a line: what stands after the first `:`, trimmed.
pub open spec fn header_val(line: Seq<char>) -> Seq<char> {
    trim(line.subrange(find_from(line, ':', 0) + 1, line.len() as int))
}

/// Index of the first blank line at or after `i`, or the number of lines.
pub open spec fn first_blank_from(lines: Seq<Seq<char>>, i: int) -> int
    decreases lines.len() - i,
{
    if i < 0 || i >= lines.len() {
        lines.len() as int
    } else if all_spaces(lines[i]) {
        i
    } else {
        first_blank_from(lines, i + 1)
    }
}

/// Index just past the last header line: the first blank line after the
/// request line, or the end of the input.
pub open spec fn head_end(lines: Seq<Seq<char>>) -> int {
    first_blank_from(lines, 1)
}

proof fn lemma_first_blank_bounds(lines: Seq<Seq<char>>, i: int)
    requires
        0 <= i <= lines.len(),
    ensures
        i <= first_blank_from(lines, i) <= lines.len(),
    decreases lines.len() - i,
{
    if i < lines.len() && !all_spaces(lines[i]) {
        lemma_first_blank_bounds(lines, i + 1);
    }
}

/// Every header line before the blank line carries a `:`.
pub open spec fn headers_ok(lines: Seq<Seq<char>>) -> bool {
    forall|j: int| 1 <= j < head_end(lines) ==> has_colon(#[trigger] lines[j])
}

/// The header map collected from the lines before index `i`, later lines
/// overwriting earlier ones.
pub open spec fn headers_pref(lines: Seq<Seq<char>>, i: int) -> Map<Seq<char>, Seq<char>>
    decreases i,
{
    if i <= 1 {
        Map::empty()
    } else {
        headers_pref(lines, i - 1).insert(
            lower(header_key(lines[i - 1])),
            header_val(lines[i - 1]),
        )
    }
}

/// The whole head section parses: a request line with a recognized method
/// and a target, then well-formed header lines up to a blank line or the end.
pub open spec fn head_ok(lines: Seq<Seq<char>>) -> bool {
    &&& lines.len() > 0
    &&& first_token(lines[0]) is Some
    &&& method_of(first_token(lines[0]).unwrap()) is Some
    &&& second_token(lines[0]) is Some
    &&& headers_ok(lines)
}

/// Which error a malformed head reports: a missing line, token or colon is
/// `InvalidRequest`; an unrecognized method token is `InvalidMethod`.
pub open spec fn head_error(lines: Seq<Seq<char>>) -> Error {
    if lines.len() == 0 {
        Error::InvalidRequest
    } else if first_token(lines[0]) is None {
        Error::InvalidRequest
    } else if method_of(first_token(lines[0]).unwrap()) is None {
        Error::InvalidMethod
    } else {
        Error::InvalidRequest
    }
}

/// One parsed request: the raw target, the method, the case-folded headers,
/// and the body, present exactly when a positive `content-length` was read.
#[derive(Debug)]
pub struct HttpRequest {
    pub target: String,
    pub method: HttpMethod,
    pub headers: Headers,
    pub body: Option<Vec<u8>>,
}

/// Parse the request line and the header lines. `lines` are the lines of
/// the head section as read from the connection, without their line endings.
pub fn parse_head(lines: &Vec<String>) -> (r: Result<(HttpMethod, String, Headers), Error>)
    ensures
        match r {
            Ok((m, target, headers)) => {
                &&& head_ok(lines.deep_view())
                &&& method_of(first_token(lines.deep_view()[0]).unwrap()) == Some(m)
                &&& target@ == second_token(lines.deep_view()[0]).unwrap()
                &&& headers@ == headers_pref(lines.deep_view(), head_end(lines.deep_view()))
            },
            Err(e) => !head_ok(lines.deep_view()) && e == head_error(lines.deep_view()),
        },
{
    let ghost dv = lines.deep_view();
    if lines.len() == 0 {
        return Err(Error::InvalidRequest);
    }
    let rl = lines[0].as_str();
    proof {
        assert(rl@ == dv[0]);
    }
    let len0 = rl.unicode_len();
    let a = skip_spaces_exec(rl, 0);
    if a >= len0 {
        return Err(Error::InvalidRequest);
    }
    let b = scan_token_exec(rl, a);
    let tok1 = rl.substring_char(a, b);
    proof {
        assert(tok1@ == first_token(dv[0]).unwrap());
    }
    let method = match HttpMethod::from_str(tok1) {
        Ok(m) => m,
        Err(e) => {
            return Err(e);
        },
    };
    let c = skip_spaces_exec(rl, b);
    if c >= len0 {
        return Err(Error::InvalidRequest);
    }
    let d = scan_token_exec(rl, c);
    let target = rl.substring_char(c, d).to_owned();
    proof {
        assert(target@ == second_token(dv[0]).unwrap());
    }
    let mut headers = Headers::new();
    let mut i: usize = 1;
    let mut blank = false;
    while i < lines.len() && !blank
        invariant
            dv == lines.deep_view(),
            1 <= i <= lines.len(),
            dv.len() == lines.len(),
            first_token(dv[0]) is Some,
            method_of(first_token(dv[0]).unwrap()) == Some(method),
            second_token(dv[0]) is Some,
            target@ == second_token(dv[0]).unwrap(),
            headers@ == headers_pref(dv, i as int),
            forall|j: int| 1 <= j < i ==> has_colon(#[trigger] dv[j]),
            !blank ==> head_end(dv) == first_blank_from(dv, i as int),
            !blank ==> forall|j: int| 1 <= j < i ==> !all_spaces(#[trigger] dv[j]),
            blank ==> head_end(dv) == i as int,
        decreases lines.len() - i, (if blank {
            0int
        } else {
            1int
        }),
    {
        let line = lines[i].as_str();
        proof {
            assert(line@ == dv[i as int]);
        }
        if str_is_blank(line) {
            blank = true;
        } else {
            match str_find(line, ':') {
                Some(p) => {
                    let llen = line.unicode_len();
                    let key = str_trim(line.substring_char(0, p));
                    let val = str_trim(line.substring_char(p + 1, llen));
                    proof {
                        assert(key@ == header_key(dv[i as int]));
                        assert(val@ == header_val(dv[i as int]));
                    }
                    headers.insert(key, val);
                    i += 1;
                },
                None => {
                    proof {
                        assert(!all_spaces(dv[i as int]));
                        assert(first_blank_from(dv, i as int) == first_blank_from(
                            dv,
                            i as int + 1,
                        ));
                        lemma_first_blank_bounds(dv, i as int + 1);
                        assert(!has_colon(dv[i as int]));
                        assert(i < head_end(dv));
                        assert(!headers_ok(dv));
                        assert(head_error(dv) == Error::InvalidRequest);
                    }
                    return Err(Error::InvalidRequest);
                },
            }
        }
    }
    Ok((method, target, headers))
}

/// The `content-length` key folds to itself.
pub proof fn lemma_content_length_key()
    ensures
        lower("content-length"@) == "content-length"@,
{
    reveal_strlit("content-length");
    crate::text::lemma_lower_fixed("content-length"@);
}

/// The declared body length: the `content-length` header read as a `usize`,
/// absent when the header is absent, an error when it does not parse.
pub fn body_length(headers: &Headers) -> (r: Result<Option<usize>, Error>)
    ensures
        match r {
            Ok(opt) => match opt {
                Some(n) => headers@.contains_key("content-length"@) && parses_as_usize(
                    headers@["content-length"@],
                ) && n == dec_val(digits_of(headers@["content-length"@])),
                None => !headers@.contains_key("content-length"@),
            },
            Err(e) => headers@.contains_key("content-length"@) && !parses_as_usize(
                headers@["content-length"@],
            ) && e == Error::InvalidRequest,
        },
{
    proof {
        lemma_content_length_key();
    }
    match headers.get("content-length") {
        Some(v) => match parse_usize(v.as_str()) {
            Some(n) => Ok(Some(n)),
            None => Err(Error::InvalidRequest),
        },
        None => Ok(None),
    }
}

/// A whole request parses: the head section is well formed and the payload
/// holds at least as many bytes as the `content-length` header declares.
pub open spec fn request_ok(lines: Seq<Seq<char>>, payload: Seq<u8>) -> bool {
    let h = headers_pref(lines, head_end(lines));
    &&& head_ok(lines)
    &&& (h.contains_key("content-length"@) ==> parses_as_usize(h["content-length"@]) && dec_val(
        digits_of(h["content-length"@]),
    ) <= payload.len())
}

/// The error a malformed request reports: head errors first, then an
/// unreadable `content-length`, then a payload shorter than declared.
pub open spec fn request_error(lines: Seq<Seq<char>>, payload: Seq<u8>) -> Error {
    let h = headers_pref(lines, head_end(lines));
    if !head_ok(lines) {
        head_error(lines)
    } else if h.contains_key("content-length"@) && !parses_as_usize(h["content-length"@]) {
        Error::InvalidRequest
    } else {
        Error::Io
    }
}

/// The body a request carries: exactly the number of bytes the
/// `content-length` header declares, taken from the front of the payload;
/// a declared length of zero and an absent header both mean no body.
pub open spec fn body_spec(h: Map<Seq<char>, Seq<char>>, payload: Seq<u8>) -> Option<Seq<u8>> {
    if h.contains_key("content-length"@) {
        let n = dec_val(digits_of(h["content-length"@]));
        if n == 0 {
            None
        } else {
            Some(payload.take(n as int))
        }
    } else {
        None
    }
}

/// Parse one request: the head lines as read from the connection, then the
/// bytes that followed them. Reads exactly the declared number of body
/// bytes from the front of `payload`, never fewer, never more.
pub fn parse_request(lines: &Vec<String>, payload: &Vec<u8>) -> (r: Result<HttpRequest, Error>)
    ensures
        r is Ok <==> request_ok(lines.deep_view(), payload@),
        match r {
            Ok(req) => {
                &&& method_of(first_token(lines.deep_view()[0]).unwrap()) == Some(req.method)
                &&& req.target@ == second_token(lines.deep_view()[0]).unwrap()
                &&& req.headers@ == headers_pref(lines.deep_view(), head_end(lines.deep_view()))
                &&& (req.body is Some <==> body_spec(req.headers@, payload@) is Some)
                &&& (req.body matches Some(b) ==> b@ == body_spec(req.headers@, payload@).unwrap())
            },
            Err(e) => e == request_error(lines.deep_view(), payload@),
        },
{
    let head = match parse_head(lines) {
        Ok(t) => t,
        Err(e) => {
            return Err(e);
        },
    };
    let (method, target, headers) = head;
    let declared = match body_length(&headers) {
        Ok(o) => o,
        Err(e) => {
            return Err(e);
        },
    };
    let body = match declared {
        Some(n) => {
            if n > payload.len() {
                return Err(Error::Io);
            }
            if n == 0 {
                None
            } else {
                let mut b: Vec<u8> = Vec::new();
                let mut i: usize = 0;
                while i < n
                    invariant
                        i <= n,
                        n <= payload@.len(),
                        b@ == payload@.take(i as int),
                    decreases n - i,
                {
                    proof {
                        assert(payload@.take(i + 1) =~= payload@.take(i as int).push(
                            payload@[i as int],
                        ));
                    }
                    b.push(payload[i]);
                    i += 1;
                }
                Some(b)
            }
        },
        None => None,
    };
    Ok(HttpRequest { target, method, headers, body })
}

} // verus!
