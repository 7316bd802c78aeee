use vstd::prelude::*;

use std::io::Write;

use crate::errors::Error;
use crate::http::{Headers, HttpMethod, HttpRequest};
use crate::response::{bytes_of, known_status, HttpResponse};
use crate::text::{
    contains_seq, has_prefix, last_segment, lemma_lower_fixed, lower, str_contains, str_eq,
    str_last_segment, str_starts_with,
};

verus! {

/// The server's configuration: an optional base directory for the `/file`
/// routes. Without one those routes answer 503.
#[derive(Debug, Clone)]
pub struct Args {
    pub directory: Option<String>,
}

impl PartialEq for Args {
    fn eq(&self, other: &Args) -> (r: bool) {
        match (&self.directory, &other.directory) {
            (None, None) => true,
            (Some(a), Some(b)) => str_eq(a.as_str(), b.as_str()),
            _ => false,
        }
    }
}

impl vstd::std_specs::cmp::PartialEqSpecImpl for Args {
    open spec fn obeys_eq_spec() -> bool {
        true
    }

    open spec fn eq_spec(&self, other: &Args) -> bool {
        match (self.directory, other.directory) {
            (None, None) => true,
            (Some(a), Some(b)) => a@ == b@,
            _ => false,
        }
    }
}

/// Index of the first argument that starts with `--directory`, or `-1`.
pub open spec fn dir_flag_from(args: Seq<Seq<char>>, i: int) -> int
    decreases args.len() - i,
{
    if i < 0 || i >= args.len() {
        -1
    } else if has_prefix(args[i], "--directory"@) {
        i
    } else {
        dir_flag_from(args, i + 1)
    }
}

/// Read the command line: the argument after the first one starting with
/// `--directory` names the base directory; a trailing flag without a value,
/// or no flag at all, leaves it unset.
pub fn parse_args(args: Vec<String>) -> (r: Args)
    ensures
        ({
            let dv = args.deep_view();
            let i = dir_flag_from(dv, 0);
            &&& (i == -1 ==> r.directory is None)
            &&& (i >= 0 && i + 1 < dv.len() ==> match r.directory {
                Some(d) => d@ == dv[i + 1],
                None => false,
            })
            &&& (i >= 0 && i + 1 >= dv.len() ==> r.directory is None)
        }),
{
    let ghost dv = args.deep_view();
    let n = args.len();
    let mut i: usize = 0;
    while i < n
        invariant
            dv == args.deep_view(),
            dv.len() == n,
            i <= n,
            dir_flag_from(dv, 0) == dir_flag_from(dv, i as int),
        decreases n - i,
    {
        proof {
            assert(args@[i as int]@ == dv[i as int]);
        }
        if str_starts_with(args[i].as_str(), "--directory") {
            if i + 1 < n {
                proof {
                    assert(args@[i as int + 1]@ == dv[i as int + 1]);
                }
                return Args { directory: Some(args[i + 1].clone()) };
            } else {
                return Args { directory: None };
            }
        }
        i += 1;
    }
    Args { directory: None }
}

/// What gzip decompression yields on given bytes. Relies on the gzip format:
/// decompression is a function of the compressed bytes alone.
pub uninterp spec fn gunzip_of(compressed: Seq<u8>) -> Seq<u8>;

/// An empty response: a status line and a blank line, nothing else.
pub fn empty_response(status: u16) -> (r: HttpResponse)
    requires
        known_status(status),
    ensures
        r.wf(),
        r.status == status,
        r.content_type is None,
        !r.gzip,
        r.body@.len() == 0,
{
    HttpResponse { status, content_type: None, gzip: false, body: Vec::new() }
}

/// A negotiated content response for `content`: uncompressed, the body is
/// the content's bytes; compressed, the body is a gzip stream that
/// decompresses back to them; a failed compression surfaces as a bare 500.
pub open spec fn negotiated_resp(r: HttpResponse, content: Seq<char>, gz: bool, ct: Seq<
    char,
>) -> bool {
    if gz {
        ||| {
            &&& r.status == 200
            &&& r.gzip
            &&& match r.content_type {
                Some(c) => c@ == ct,
                None => false,
            }
            &&& gunzip_of(r.body@) == bytes_of(content)
        }
        ||| (r.status == 500 && r.content_type is None && !r.gzip && r.body@.len() == 0)
    } else {
        &&& r.status == 200
        &&& !r.gzip
        &&& match r.content_type {
            Some(c) => c@ == ct,
            None => false,
        }
        &&& r.body@ == bytes_of(content)
    }
}

/// The request asks for gzip: its `accept-encoding` value contains `gzip`.
pub open spec fn wants_gzip_spec(h: Map<Seq<char>, Seq<char>>) -> bool {
    &&& h.contains_key("accept-encoding"@)
    &&& contains_seq(h["accept-encoding"@], "gzip"@)
}

/// The `accept-encoding` key folds to itself.
pub proof fn lemma_accept_encoding_key()
    ensures
        lower("accept-encoding"@) == "accept-encoding"@,
{
    reveal_strlit("accept-encoding");
    lemma_lower_fixed("accept-encoding"@);
}

/// The `user-agent` key folds to itself.
pub proof fn lemma_user_agent_key()
    ensures
        lower("user-agent"@) == "user-agent"@,
{
    reveal_strlit("user-agent");
    lemma_lower_fixed("user-agent"@);
}

/// Whether the request negotiates gzip for its response body.
pub fn wants_gzip(headers: &Headers) -> (r: bool)
    ensures
        r == wants_gzip_spec(headers@),
{
    proof {
        lemma_accept_encoding_key();
    }
    match headers.get("accept-encoding") {
        Some(v) => str_contains(v.as_str(), "gzip"),
        None => false,
    }
}

/// Build a content response, compressing when the request asked for gzip.
pub fn text_response(content: &str, content_type: &str, gz: bool) -> (r: HttpResponse)
    ensures
        r.wf(),
        negotiated_resp(r, content@, gz, content_type@),
{
    if gz {
        match Server::compress_gzip(content) {
            Ok(body) => HttpResponse {
                status: 200,
                content_type: Some(content_type.to_owned()),
                gzip: true,
                body,
            },
            Err(_) => empty_response(500),
        }
    } else {
        HttpResponse {
            status: 200,
            content_type: Some(content_type.to_owned()),
            gzip: false,
            body: content.as_bytes_vec(),
        }
    }
}

/// The server: where it listens, and its configuration. The accept loop
/// itself lives with the I/O around the library.
pub struct Server {
    pub addr: String,
    pub conf: Args,
}

impl Server {
    pub fn new(addr: String, conf: Args) -> (r: Server)
        ensures
            r.addr == addr,
            r.conf == conf,
    {
        Server { addr, conf }
    }

    /// Relies on flate2's `write::GzEncoder` at the default compression
    /// level: on success the returned bytes are a gzip stream whose
    /// decompression yields exactly the bytes written into the encoder.
    #[verifier::external_body]
    fn compress_gzip(content: &str) -> (r: Result<Vec<u8>, Error>)
        ensures
            r matches Ok(v) ==> gunzip_of(v@) == bytes_of(content@),
    {
        let mut e = flate2::write::GzEncoder::new(Vec::new(), flate2::Compression::default());
        if e.write_all(content.as_bytes()).is_err() {
            return Err(Error::Io);
        }
        e.finish().map_err(|_| Error::Io)
    }
}

/// What the router decides for a request: a finished response, or the file
/// operation that must be performed against the configured base directory
/// before a response can be built.
pub enum RouteResult {
    Done(HttpResponse),
    FileRead { name: String, gz: bool },
    FileWrite { name: String, contents: Vec<u8> },
}

/// The decision is a finished, empty response with this status.
pub open spec fn done_empty(r: RouteResult, status: u16) -> bool {
    match r {
        RouteResult::Done(resp) => resp.status == status && resp.content_type is None && !resp.gzip
            && resp.body@.len() == 0,
        _ => false,
    }
}

pub open spec fn is_root_get(m: HttpMethod, t: Seq<char>) -> bool {
    m == HttpMethod::GET && t == "/"@
}

pub open spec fn is_file_post(m: HttpMethod, t: Seq<char>) -> bool {
    m == HttpMethod::POST && has_prefix(t, "/file"@)
}

pub open spec fn is_file_get(m: HttpMethod, t: Seq<char>) -> bool {
    m == HttpMethod::GET && has_prefix(t, "/file"@)
}

pub open spec fn is_echo_get(m: HttpMethod, t: Seq<char>) -> bool {
    m == HttpMethod::GET && has_prefix(t, "/echo"@)
}

pub open spec fn is_ua_get(m: HttpMethod, t: Seq<char>) -> bool {
    m == HttpMethod::GET && has_prefix(t, "/user-agent"@)
}

impl Server {
    /// Route one parsed request. Targets match by prefix, in the order
    /// root, `POST /file`, `GET /file`, `GET /echo`, `GET /user-agent`;
    /// anything else is 404. The `/file` routes need a configured base
    /// directory (else 503) and hand the file operation back to the caller;
    /// the name is the target's final `/`-separated segment.
    pub fn handle_request(req: &HttpRequest, conf: &Args) -> (r: RouteResult)
        ensures
            ({
                let t = req.target@;
                let m = req.method;
                let gz = wants_gzip_spec(req.headers@);
                &&& (is_root_get(m, t) ==> done_empty(r, 200))
                &&& (is_file_post(m, t) ==> match conf.directory {
                    None => done_empty(r, 503),
                    Some(_) => match req.body {
                        None => done_empty(r, 400),
                        Some(b) => match r {
                            RouteResult::FileWrite { name, contents } => name@ == last_segment(t)
                                && contents@ == b@,
                            _ => false,
                        },
                    },
                })
                &&& (is_file_get(m, t) ==> match conf.directory {
                    None => done_empty(r, 503),
                    Some(_) => match r {
                        RouteResult::FileRead { name, gz: g } => name@ == last_segment(t) && g
                            == gz,
                        _ => false,
                    },
                })
                &&& (is_echo_get(m, t) ==> match r {
                    RouteResult::Done(resp) => resp.wf() && negotiated_resp(
                        resp,
                        last_segment(t),
                        gz,
                        "text/plain"@,
                    ),
                    _ => false,
                })
                &&& (is_ua_get(m, t) ==> (if req.headers@.contains_key("user-agent"@) {
                    match r {
                        RouteResult::Done(resp) => resp.wf() && negotiated_resp(
                            resp,
                            req.headers@["user-agent"@],
                            gz,
                            "text/plain"@,
                        ),
                        _ => false,
                    }
                } else {
                    done_empty(r, 400)
                }))
                &&& (!is_root_get(m, t) && !is_file_post(m, t) && !is_file_get(m, t)
                    && !is_echo_get(m, t) && !is_ua_get(m, t) ==> done_empty(r, 404))
                &&& (r matches RouteResult::Done(resp) ==> resp.wf())
            }),
    {
        proof {
            reveal_strlit("/");
            reveal_strlit("/file");
            reveal_strlit("/echo");
            reveal_strlit("/user-agent");
        }
        let t = req.target.as_str();
        let is_get = req.method == HttpMethod::GET;
        let is_post = req.method == HttpMethod::POST;
        if is_get && str_eq(t, "/") {
            return RouteResult::Done(empty_response(200));
        }
        if is_post && str_starts_with(t, "/file") {
            match &conf.directory {
                Some(_) => match &req.body {
                    Some(b) => {
                        return RouteResult::FileWrite {
                            name: str_last_segment(t),
                            contents: b.clone(),
                        };
                    },
                    None => {
                        return RouteResult::Done(empty_response(400));
                    },
                },
                None => {
                    return RouteResult::Done(empty_response(503));
                },
            }
        }
        if is_get && str_starts_with(t, "/file") {
            proof {
                assert(t@[1] == 'f');
                assert(!has_prefix(t@, "/echo"@));
                assert(!has_prefix(t@, "/user-agent"@));
            }
            match &conf.directory {
                Some(_) => {
                    return RouteResult::FileRead {
                        name: str_last_segment(t),
                        gz: wants_gzip(&req.headers),
                    };
                },
                None => {
                    return RouteResult::Done(empty_response(503));
                },
            }
        }
        if is_get && str_starts_with(t, "/echo") {
            let seg = str_last_segment(t);
            let gz = wants_gzip(&req.headers);
            return RouteResult::Done(text_response(seg.as_str(), "text/plain", gz));
        }
        if is_get && str_starts_with(t, "/user-agent") {
            let gz = wants_gzip(&req.headers);
            proof {
                lemma_user_agent_key();
            }
            match req.headers.get("user-agent") {
                Some(v) => {
                    return RouteResult::Done(text_response(v.as_str(), "text/plain", gz));
                },
                None => {
                    return RouteResult::Done(empty_response(400));
                },
            }
        }
        RouteResult::Done(empty_response(404))
    }
}

/// Segment-wise containment: every component of the base directory leads
/// the resolved path, so the path lies inside the base directory.
pub open spec fn is_seg_prefix(base: Seq<Seq<char>>, path: Seq<Seq<char>>) -> bool {
    base.len() <= path.len() && forall|i: int| 0 <= i < base.len() ==> path[i] == base[i]
}

/// Whether a canonical path, split into components, stays within the
/// canonical base directory.
pub fn path_within(base: &Vec<String>, path: &Vec<String>) -> (r: bool)
    ensures
        r == is_seg_prefix(base.deep_view(), path.deep_view()),
{
    let ghost bv = base.deep_view();
    let ghost pv = path.deep_view();
    let blen = base.len();
    if blen > path.len() {
        return false;
    }
    let mut i: usize = 0;
    while i < blen
        invariant
            bv == base.deep_view(),
            pv == path.deep_view(),
            bv.len() == blen,
            pv.len() == path@.len(),
            blen <= pv.len(),
            i <= blen,
            forall|j: int| 0 <= j < i ==> pv[j] == bv[j],
        decreases blen - i,
    {
        proof {
            assert(base@[i as int]@ == bv[i as int]);
            assert(path@[i as int]@ == pv[i as int]);
        }
        if !str_eq(base[i].as_str(), path[i].as_str()) {
            return false;
        }
        i += 1;
    }
    true
}

/// The verdict on a resolved `GET /file` target before anything is read.
pub enum FileGate {
    Deny(HttpResponse),
    Allow,
}

/// A refusal: an empty response carrying the given status.
pub open spec fn gate_denies(r: FileGate, status: u16) -> bool {
    match r {
        FileGate::Deny(resp) => resp.wf() && resp.status == status && resp.content_type is None
            && !resp.gzip && resp.body@.len() == 0,
        FileGate::Allow => false,
    }
}

/// Decide whether a `GET /file` target may be served. `resolved` carries
/// the canonical components of the base directory and of the requested
/// path, or `None` when the path could not be canonicalized. A target that
/// cannot be resolved is 404; one whose canonical path escapes the base
/// directory is refused with an empty 400, so no file contents can leak,
/// whatever name (such as `../secret.txt`) produced it.
pub fn file_get_gate(resolved: Option<(Vec<String>, Vec<String>)>) -> (r: FileGate)
    ensures
        match resolved {
            None => gate_denies(r, 404),
            Some(bp) => if is_seg_prefix(bp.0.deep_view(), bp.1.deep_view()) {
                r is Allow
            } else {
                gate_denies(r, 400)
            },
        },
{
    match resolved {
        None => FileGate::Deny(empty_response(404)),
        Some((base, path)) => {
            if path_within(&base, &path) {
                FileGate::Allow
            } else {
                FileGate::Deny(empty_response(400))
            }
        },
    }
}

/// What reading the target file yielded: the file was not there, the read
/// failed, or its contents.
pub enum FileReadOutcome {
    Missing,
    Failed,
    Contents(String),
}

/// The response to a gated `GET /file`: 404 for a missing file, 500 for a
/// failed read, and for contents a negotiated `application/octet-stream`
/// response carrying exactly those bytes.
pub fn file_get_response(outcome: FileReadOutcome, gz: bool) -> (r: HttpResponse)
    ensures
        r.wf(),
        outcome is Missing ==> r.status == 404 && r.content_type is None && r.body@.len() == 0,
        outcome is Failed ==> r.status == 500 && r.content_type is None && r.body@.len() == 0,
        outcome matches FileReadOutcome::Contents(s) ==> negotiated_resp(
            r,
            s@,
            gz,
            "application/octet-stream"@,
        ),
{
    match outcome {
        FileReadOutcome::Missing => empty_response(404),
        FileReadOutcome::Failed => empty_response(500),
        FileReadOutcome::Contents(s) => text_response(s.as_str(), "application/octet-stream", gz),
    }
}

/// Round trip through the file store: a body handed out by the write route
/// and read back byte for byte comes out of the uncompressed read response
/// verbatim. The store itself is outside the library: `stored` is what the
/// write route handed out, and `read_back` is what the read handed in.
pub proof fn lemma_post_get_round_trip(stored: Seq<u8>, read_back: Seq<char>, resp: HttpResponse)
    requires
        bytes_of(read_back) == stored,
        negotiated_resp(resp, read_back, false, "application/octet-stream"@),
    ensures
        resp.status == 200,
        resp.body@ == stored,
{
}

/// Gzip negotiation: a compressed 200 for content `c` carries a body whose
/// decompression is exactly `c`'s bytes, and its wire form advertises a
/// `Content-Length` counting the compressed body, not the original.
pub proof fn lemma_gzip_round_trip(c: Seq<char>, ct: Seq<char>, resp: HttpResponse)
    requires
        negotiated_resp(resp, c, true, ct),
        resp.status == 200,
    ensures
        gunzip_of(resp.body@) == bytes_of(c),
        resp.render() == crate::response::status_bytes(200) + bytes_of("Content-Type: "@)
            + bytes_of(ct) + bytes_of("\r\n"@) + bytes_of("Content-Encoding: gzip\r\n"@)
            + bytes_of("Content-Length: "@) + crate::response::dec_bytes(resp.body@.len())
            + bytes_of("\r\n"@) + bytes_of("\r\n"@) + resp.body@,
{
    assert(resp.render() =~= crate::response::status_bytes(200) + bytes_of("Content-Type: "@)
        + bytes_of(ct) + bytes_of("\r\n"@) + bytes_of("Content-Encoding: gzip\r\n"@) + bytes_of(
        "Content-Length: "@,
    ) + crate::response::dec_bytes(resp.body@.len()) + bytes_of("\r\n"@) + bytes_of("\r\n"@)
        + resp.body@);
}

/// The response to a `POST /file` write: 201 when the write succeeded,
/// 500 when it failed, both bare.
pub fn file_post_response(write_ok: bool) -> (r: HttpResponse)
    ensures
        r.wf(),
        write_ok ==> r.status == 201 && r.content_type is None && r.body@.len() == 0,
        !write_ok ==> r.status == 500 && r.content_type is None && r.body@.len() == 0,
{
    if write_ok {
        empty_response(201)
    } else {
        empty_response(500)
    }
}

} // verus!
