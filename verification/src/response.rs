use vstd::prelude::*;

use vstd::utf8::encode_utf8;

verus! {

/// The UTF-8 bytes of a character sequence, as they go on the wire.
pub open spec fn bytes_of(s: Seq<char>) -> Seq<u8> {
    encode_utf8(s)
}

/// The status codes the server produces.
pub open spec fn known_status(s: u16) -> bool {
    s == 200 || s == 201 || s == 400 || s == 404 || s == 500 || s == 503
}

/// The full status line for a code, reason phrase and line ending included.
pub open spec fn status_line(s: u16) -> Seq<char> {
    if s == 200 {
        "HTTP/1.1 200 OK\r\n"@
    } else if s == 201 {
        "HTTP/1.1 201 Created\r\n"@
    } else if s == 400 {
        "HTTP/1.1 400 Bad Request\r\n"@
    } else if s == 404 {
        "HTTP/1.1 404 Not Found\r\n"@
    } else if s == 500 {
        "HTTP/1.1 500 Internal Server Error\r\n"@
    } else {
        "HTTP/1.1 503 Service Unavailable\r\n"@
    }
}

/// The decimal digits of `n`, as ASCII bytes.
pub open spec fn dec_bytes(n: nat) -> Seq<u8>
    decreases n,
{
    if n < 10 {
        seq![(48 + n) as u8]
    } else {
        dec_bytes(n / 10).push((48 + n % 10) as u8)
    }
}

/// One response: a status, an optional content type, whether the body is
/// gzip-compressed, and the body bytes. A response without a content type
/// carries no body and writes no header lines.
#[derive(Debug)]
pub struct HttpResponse {
    pub status: u16,
    pub content_type: Option<String>,
    pub gzip: bool,
    pub body: Vec<u8>,
}

impl HttpResponse {
    /// A response the server can serialize: a known status, and headers
    /// (with a body) only on a content response.
    pub open spec fn wf(&self) -> bool {
        &&& known_status(self.status)
        &&& (self.content_type is None ==> !self.gzip && self.body@.len() == 0)
    }

    /// The exact bytes written back on the connection: the status line; on a
    /// content response `Content-Type`, `Content-Encoding: gzip` when the
    /// body is compressed, and a `Content-Length` that always equals the
    /// body's byte count; a blank line; then the body.
    pub open spec fn render(&self) -> Seq<u8> {
        status_bytes(self.status) + header_bytes(&self.content_type, self.gzip, self.body@.len())
            + bytes_of("\r\n"@) + self.body@
    }

    /// Serialize the response for the wire.
    #[verifier::rlimit(60)]
    pub fn to_bytes(&self) -> (r: Vec<u8>)
        requires
            self.wf(),
        ensures
            r@ == self.render(),
    {
        let mut out: Vec<u8> = Vec::new();
        if self.status == 200 {
            append_str(&mut out, "HTTP/1.1 200 OK\r\n");
        } else if self.status == 201 {
            append_str(&mut out, "HTTP/1.1 201 Created\r\n");
        } else if self.status == 400 {
            append_str(&mut out, "HTTP/1.1 400 Bad Request\r\n");
        } else if self.status == 404 {
            append_str(&mut out, "HTTP/1.1 404 Not Found\r\n");
        } else if self.status == 500 {
            append_str(&mut out, "HTTP/1.1 500 Internal Server Error\r\n");
        } else {
            append_str(&mut out, "HTTP/1.1 503 Service Unavailable\r\n");
        }
        proof {
            assert(out@ =~= status_bytes(self.status));
        }
        let ghost sb = out@;
        match &self.content_type {
            Some(ct) => {
                append_str(&mut out, "Content-Type: ");
                append_str(&mut out, ct.as_str());
                append_str(&mut out, "\r\n");
                if self.gzip {
                    append_str(&mut out, "Content-Encoding: gzip\r\n");
                }
                append_str(&mut out, "Content-Length: ");
                append_dec(&mut out, self.body.len());
                append_str(&mut out, "\r\n");
            },
            None => {},
        }
        proof {
            assert(out@ =~= sb + header_bytes(&self.content_type, self.gzip, self.body@.len()));
        }
        append_str(&mut out, "\r\n");
        let mut body = self.body.clone();
        out.append(&mut body);
        proof {
            assert(out@ =~= self.render());
        }
        out
    }
}

/// The status line of a response, as bytes.
pub open spec fn status_bytes(s: u16) -> Seq<u8> {
    bytes_of(status_line(s))
}

/// The header block of a response, as bytes.
pub open spec fn header_bytes(content_type: &Option<String>, gzip: bool, body_len: nat) -> Seq<
    u8,
> {
    match content_type {
        Some(ct) => bytes_of("Content-Type: "@) + bytes_of(ct@) + bytes_of("\r\n"@) + (if gzip {
            bytes_of("Content-Encoding: gzip\r\n"@)
        } else {
            Seq::empty()
        }) + bytes_of("Content-Length: "@) + dec_bytes(body_len) + bytes_of("\r\n"@),
        None => Seq::empty(),
    }
}

/// Append the UTF-8 bytes of `s` to `out`.
fn append_str(out: &mut Vec<u8>, s: &str)
    ensures
        final(out)@ == old(out)@ + bytes_of(s@),
{
    out.extend_from_slice(s.as_bytes());
}

/// Append the decimal digits of `n` to `out`.
fn append_dec(out: &mut Vec<u8>, n: usize)
    ensures
        final(out)@ == old(out)@ + dec_bytes(n as nat),
    decreases n,
{
    if n < 10 {
        out.push(48 + n as u8);
        proof {
            assert(old(out)@ + dec_bytes(n as nat) =~= out@);
        }
    } else {
        append_dec(out, n / 10);
        out.push(48 + (n % 10) as u8);
        proof {
            assert(old(out)@ + dec_bytes(n as nat) =~= out@);
        }
    }
}

} // verus!
