//! The wire codec's encode half: building a structured response and
//! serializing it to wire bytes, with `spec_render` as the exact layout and
//! `status_phrase` as the fixed status-text table.
use vstd::prelude::*;

use crate::bytes::{
    append_str, crlf, dec_digits, lemma_byte_split_at, lemma_dec_digits_are_digits, push_bytes,
    u64_to_dec, until_byte,
};
use crate::request::view_of_pairs;

verus! {

use vstd::string::StringSliceAdditionalSpecFns;

/// Mathematical content of a response.
#[verifier::ext_equal]
pub struct RespView {
    pub status_text: Seq<u8>,
    pub headers: Seq<(Seq<u8>, Seq<u8>)>,
    pub body: Seq<u8>,
}

/// The status line text of a code: the closed table of reason phrases, and
/// `<code> Unknown` for any code outside it.
pub open spec fn status_phrase(status: u16) -> Seq<u8> {
    if status == 200 {
        "200 OK".spec_bytes()
    } else if status == 201 {
        "201 Created".spec_bytes()
    } else if status == 202 {
        "202 Accepted".spec_bytes()
    } else if status == 204 {
        "204 No Content".spec_bytes()
    } else if status == 400 {
        "400 Bad Request".spec_bytes()
    } else if status == 401 {
        "401 Unauthorized".spec_bytes()
    } else if status == 403 {
        "403 Forbidden".spec_bytes()
    } else if status == 404 {
        "404 Not Found".spec_bytes()
    } else if status == 405 {
        "405 Method Not Allowed".spec_bytes()
    } else if status == 408 {
        "408 Request Timeout".spec_bytes()
    } else if status == 429 {
        "429 Too Many Requests".spec_bytes()
    } else if status == 500 {
        "500 Internal Server Error".spec_bytes()
    } else if status == 501 {
        "501 Not Implemented".spec_bytes()
    } else if status == 503 {
        "503 Service Unavailable".spec_bytes()
    } else if status == 504 {
        "504 Gateway Timeout".spec_bytes()
    } else if status == 505 {
        "505 HTTP Version Not Supported".spec_bytes()
    } else {
        dec_digits(status as nat) + " Unknown".spec_bytes()
    }
}

/// What `Response::json` builds: the table's status text, the two injected
/// headers ahead of the caller's, and the body as given, with the content
/// length computed from the body itself.
pub open spec fn spec_json(status: u16, body: Seq<u8>, extra: Seq<(Seq<u8>, Seq<u8>)>) -> RespView {
    RespView {
        status_text: status_phrase(status),
        headers: seq![
            ("Content-Type".spec_bytes(), "application/json".spec_bytes()),
            ("Content-Length".spec_bytes(), dec_digits(body.len())),
        ] + extra,
        body,
    }
}

/// One header line on the wire.
pub open spec fn render_header(kv: (Seq<u8>, Seq<u8>)) -> Seq<u8> {
    kv.0 + ": ".spec_bytes() + kv.1 + crlf()
}

/// All header lines on the wire, in stored order.
pub open spec fn render_headers(hs: Seq<(Seq<u8>, Seq<u8>)>) -> Seq<u8>
    decreases hs.len(),
{
    if hs.len() == 0 {
        Seq::empty()
    } else {
        render_header(hs[0]) + render_headers(hs.drop_first())
    }
}

/// The full wire layout of a response: status line, header lines, a blank
/// line, then the raw body with no transformation.
pub open spec fn spec_render(r: RespView) -> Seq<u8> {
    "HTTP/1.1 ".spec_bytes() + r.status_text + crlf() + render_headers(r.headers) + crlf() + r.body
}

/// The status text a reader of the encoded bytes sees: the first line's
/// bytes between the protocol prefix and the line's carriage return.
pub open spec fn parse_status_text(wire: Seq<u8>) -> Seq<u8> {
    until_byte(wire.skip("HTTP/1.1 ".spec_bytes().len() as int), '\r' as u8)
}

/// A structured response: status text, header pairs in render order, and
/// the raw body.
pub struct Response {
    pub status_text: Vec<u8>,
    pub headers: Vec<(Vec<u8>, Vec<u8>)>,
    pub body: Vec<u8>,
}

impl View for Response {
    type V = RespView;

    open spec fn view(&self) -> RespView {
        RespView {
            status_text: self.status_text@,
            headers: view_of_pairs(self.headers@),
            body: self.body@,
        }
    }
}

/// The status text of `status`, from the fixed table.
fn status_text_of(status: u16) -> (r: Vec<u8>)
    ensures
        r@ == status_phrase(status),
{
    let mut v: Vec<u8> = Vec::new();
    if status == 200 {
        append_str(&mut v, "200 OK");
    } else if status == 201 {
        append_str(&mut v, "201 Created");
    } else if status == 202 {
        append_str(&mut v, "202 Accepted");
    } else if status == 204 {
        append_str(&mut v, "204 No Content");
    } else if status == 400 {
        append_str(&mut v, "400 Bad Request");
    } else if status == 401 {
        append_str(&mut v, "401 Unauthorized");
    } else if status == 403 {
        append_str(&mut v, "403 Forbidden");
    } else if status == 404 {
        append_str(&mut v, "404 Not Found");
    } else if status == 405 {
        append_str(&mut v, "405 Method Not Allowed");
    } else if status == 408 {
        append_str(&mut v, "408 Request Timeout");
    } else if status == 429 {
        append_str(&mut v, "429 Too Many Requests");
    } else if status == 500 {
        append_str(&mut v, "500 Internal Server Error");
    } else if status == 501 {
        append_str(&mut v, "501 Not Implemented");
    } else if status == 503 {
        append_str(&mut v, "503 Service Unavailable");
    } else if status == 504 {
        append_str(&mut v, "504 Gateway Timeout");
    } else if status == 505 {
        append_str(&mut v, "505 HTTP Version Not Supported");
    } else {
        let mut d = u64_to_dec(status as u64);
        append_str(&mut d, " Unknown");
        proof {
            assert(d@ =~= status_phrase(status));
        }
        return d;
    }
    proof {
        assert(v@ =~= status_phrase(status));
    }
    v
}

impl Response {
    /// Builds a JSON response: the table's status text, the content-type and
    /// content-length headers injected ahead of any caller-supplied ones,
    /// and the body as given. The content length is computed from the body's
    /// byte length, never trusted from the caller.
    pub fn json(status: u16, body: &[u8], headers: Option<Vec<(Vec<u8>, Vec<u8>)>>) -> (r: Response)
        ensures
            r@ == spec_json(
                status,
                body@,
                match headers {
                    Some(h) => view_of_pairs(h@),
                    None => Seq::<(Seq<u8>, Seq<u8>)>::empty(),
                },
            ),
    {
        let mut extra_vec = match headers {
            Some(h) => h,
            None => Vec::new(),
        };
        let ghost extra = view_of_pairs(extra_vec@);
        let mut hs: Vec<(Vec<u8>, Vec<u8>)> = Vec::new();
        let mut ct_key: Vec<u8> = Vec::new();
        append_str(&mut ct_key, "Content-Type");
        let mut ct_val: Vec<u8> = Vec::new();
        append_str(&mut ct_val, "application/json");
        let mut cl_key: Vec<u8> = Vec::new();
        append_str(&mut cl_key, "Content-Length");
        let cl_val = u64_to_dec(body.len() as u64);
        hs.push((ct_key, ct_val));
        hs.push((cl_key, cl_val));
        hs.append(&mut extra_vec);
        let r = Response {
            status_text: status_text_of(status),
            headers: hs,
            body: vstd::slice::slice_to_vec(body),
        };
        proof {
            assert(r@ =~= spec_json(status, body@, extra));
            if headers is None {
                assert(extra =~= Seq::<(Seq<u8>, Seq<u8>)>::empty());
            }
        }
        r
    }

    /// Serializes a response to wire bytes, exactly as `spec_render` lays
    /// them out: status line, each stored header in order, a blank line,
    /// then the raw body.
    pub fn resolve(response: &Response) -> (r: Vec<u8>)
        ensures
            r@ == spec_render(response@),
    {
        let ghost hv = view_of_pairs(response.headers@);
        let mut out: Vec<u8> = Vec::new();
        append_str(&mut out, "HTTP/1.1 ");
        push_bytes(&mut out, response.status_text.as_slice());
        append_str(&mut out, "\r\n");
        proof {
            lemma_crlf_literal();
        }
        let ghost head = "HTTP/1.1 ".spec_bytes() + response.status_text@ + crlf();
        proof {
            assert(out@ =~= head);
            assert(hv.skip(0) =~= hv);
            assert(out@ + render_headers(hv) =~= head + render_headers(hv));
        }
        let mut i: usize = 0;
        while i < response.headers.len()
            invariant
                i <= response.headers@.len(),
                hv == view_of_pairs(response.headers@),
                out@ + render_headers(hv.skip(i as int)) == head + render_headers(hv),
            decreases response.headers@.len() - i,
        {
            let ghost before = out@;
            push_bytes(&mut out, response.headers[i].0.as_slice());
            append_str(&mut out, ": ");
            push_bytes(&mut out, response.headers[i].1.as_slice());
            append_str(&mut out, "\r\n");
            proof {
                lemma_crlf_literal();
                assert(hv.skip(i as int).drop_first() =~= hv.skip(i + 1));
                assert(hv.skip(i as int)[0] == (
                    response.headers@[i as int].0@,
                    response.headers@[i as int].1@,
                ));
                assert(out@ =~= before + render_header(hv.skip(i as int)[0]));
                assert(out@ + render_headers(hv.skip(i + 1)) =~= before + render_headers(
                    hv.skip(i as int),
                ));
            }
            i = i + 1;
        }
        proof {
            assert(hv.skip(i as int) =~= Seq::<(Seq<u8>, Seq<u8>)>::empty());
            assert(out@ + render_headers(hv.skip(i as int)) =~= out@);
        }
        append_str(&mut out, "\r\n");
        push_bytes(&mut out, response.body.as_slice());
        proof {
            lemma_crlf_literal();
            assert(out@ =~= spec_render(response@));
        }
        out
    }
}

/// The CRLF string literal's bytes are the wire line terminator.
proof fn lemma_crlf_literal()
    ensures
        "\r\n".spec_bytes() == crlf(),
{
    reveal_strlit("\r\n");
    vstd::string::is_ascii_spec_bytes("\r\n");
    assert("\r\n".spec_bytes() =~= crlf());
}

/// An ASCII literal free of carriage returns and newlines keeps both out of
/// its byte rendering.
proof fn lemma_literal_no_crlf(s: &str)
    requires
        vstd::string::is_ascii(s),
        forall|i: int| 0 <= i < s@.len() ==> #[trigger] s@[i] != '\r' && s@[i] != '\n',
    ensures
        forall|i: int|
            0 <= i < s.spec_bytes().len() ==> #[trigger] s.spec_bytes()[i] != ('\r' as u8)
                && s.spec_bytes()[i] != ('\n' as u8),
        s.spec_bytes().len() == s@.len(),
{
    vstd::string::is_ascii_spec_bytes(s);
    assert forall|i: int|
        0 <= i < s.spec_bytes().len() implies #[trigger] s.spec_bytes()[i] != ('\r' as u8)
        && s.spec_bytes()[i] != ('\n' as u8) by {
        assert(s.spec_bytes()[i] == s@[i] as u8);
    }
}

/// No status text ever holds a carriage return or newline, so the status
/// line is the first line of every encoded response.
pub proof fn lemma_status_phrase_no_crlf(status: u16)
    ensures
        forall|i: int|
            0 <= i < status_phrase(status).len() ==> #[trigger] status_phrase(status)[i] != (
            '\r' as u8) && status_phrase(status)[i] != ('\n' as u8),
{
    if status == 200 {
        reveal_strlit("200 OK");
        lemma_literal_no_crlf("200 OK");
    } else if status == 201 {
        reveal_strlit("201 Created");
        lemma_literal_no_crlf("201 Created");
    } else if status == 202 {
        reveal_strlit("202 Accepted");
        lemma_literal_no_crlf("202 Accepted");
    } else if status == 204 {
        reveal_strlit("204 No Content");
        lemma_literal_no_crlf("204 No Content");
    } else if status == 400 {
        reveal_strlit("400 Bad Request");
        lemma_literal_no_crlf("400 Bad Request");
    } else if status == 401 {
        reveal_strlit("401 Unauthorized");
        lemma_literal_no_crlf("401 Unauthorized");
    } else if status == 403 {
        reveal_strlit("403 Forbidden");
        lemma_literal_no_crlf("403 Forbidden");
    } else if status == 404 {
        reveal_strlit("404 Not Found");
        lemma_literal_no_crlf("404 Not Found");
    } else if status == 405 {
        reveal_strlit("405 Method Not Allowed");
        lemma_literal_no_crlf("405 Method Not Allowed");
    } else if status == 408 {
        reveal_strlit("408 Request Timeout");
        lemma_literal_no_crlf("408 Request Timeout");
    } else if status == 429 {
        reveal_strlit("429 Too Many Requests");
        lemma_literal_no_crlf("429 Too Many Requests");
    } else if status == 500 {
        reveal_strlit("500 Internal Server Error");
        lemma_literal_no_crlf("500 Internal Server Error");
    } else if status == 501 {
        reveal_strlit("501 Not Implemented");
        lemma_literal_no_crlf("501 Not Implemented");
    } else if status == 503 {
        reveal_strlit("503 Service Unavailable");
        lemma_literal_no_crlf("503 Service Unavailable");
    } else if status == 504 {
        reveal_strlit("504 Gateway Timeout");
        lemma_literal_no_crlf("504 Gateway Timeout");
    } else if status == 505 {
        reveal_strlit("505 HTTP Version Not Supported");
        lemma_literal_no_crlf("505 HTTP Version Not Supported");
    } else {
        reveal_strlit(" Unknown");
        lemma_literal_no_crlf(" Unknown");
        lemma_dec_digits_are_digits(status as nat);
        let d = dec_digits(status as nat);
        let u = " Unknown".spec_bytes();
        assert forall|i: int|
            0 <= i < status_phrase(status).len() implies #[trigger] status_phrase(status)[i] != (
        '\r' as u8) && status_phrase(status)[i] != ('\n' as u8) by {
            if i < d.len() {
                assert(status_phrase(status)[i] == d[i]);
            } else {
                assert(status_phrase(status)[i] == u[i - d.len()]);
            }
        }
    }
}

/// Round-trip law: re-parsing the status line of an encoded response gives
/// back exactly the canonical phrase of the status the response was built
/// with, whatever its body and extra headers are.
pub proof fn lemma_status_line_round_trip(
    status: u16,
    body: Seq<u8>,
    extra: Seq<(Seq<u8>, Seq<u8>)>,
)
    ensures
        parse_status_text(spec_render(spec_json(status, body, extra))) == status_phrase(status),
{
    reveal_strlit("HTTP/1.1 ");
    vstd::string::is_ascii_spec_bytes("HTTP/1.1 ");
    let prefix = "HTTP/1.1 ".spec_bytes();
    assert(prefix.len() == 9);
    lemma_status_phrase_no_crlf(status);
    let r = spec_json(status, body, extra);
    let w = spec_render(r);
    let st = status_phrase(status);
    let tail = w.skip(9);
    assert(tail =~= st + crlf() + render_headers(r.headers) + crlf() + r.body);
    lemma_byte_split_at(tail, '\r' as u8, st.len() as int);
    assert(tail.take(st.len() as int) =~= st);
}

/// Content-length law: every response `Response::json` builds carries, as
/// its second injected header, the exact decimal byte length of its body.
pub proof fn lemma_content_length_exact(status: u16, body: Seq<u8>, extra: Seq<(Seq<u8>, Seq<u8>)>)
    ensures
        spec_json(status, body, extra).headers[1] == (
            "Content-Length".spec_bytes(),
            dec_digits(spec_json(status, body, extra).body.len()),
        ),
{
}

/// Content-length law, on the wire: the encoded bytes of every response
/// `Response::json` builds carry the header line `Content-Length: <n>`
/// where `<n>` is the decimal byte length of the body, directly after the
/// status line and the content-type header line.
pub proof fn lemma_encoded_content_length(
    status: u16,
    body: Seq<u8>,
    extra: Seq<(Seq<u8>, Seq<u8>)>,
)
    ensures
        ({
            let r = spec_json(status, body, extra);
            let w = spec_render(r);
            let at = "HTTP/1.1 ".spec_bytes().len() + status_phrase(status).len() + crlf().len()
                + render_header(r.headers[0]).len();
            let line = "Content-Length: ".spec_bytes() + dec_digits(body.len()) + crlf();
            w.subrange(at as int, at as int + line.len() as int) == line
        }),
{
    let r = spec_json(status, body, extra);
    let w = spec_render(r);
    let hs = r.headers;
    assert(hs.drop_first() =~= seq![
        ("Content-Length".spec_bytes(), dec_digits(body.len())),
    ] + extra);
    assert(hs.drop_first().drop_first() =~= extra);
    let cl_line = render_header(("Content-Length".spec_bytes(), dec_digits(body.len())));
    let tail1 = hs.drop_first();
    assert(hs.len() >= 2);
    assert(render_headers(hs) == render_header(hs[0]) + render_headers(tail1));
    assert(tail1[0] == ("Content-Length".spec_bytes(), dec_digits(body.len())));
    assert(render_headers(tail1) == render_header(tail1[0]) + render_headers(tail1.drop_first()));
    assert(render_headers(tail1.drop_first()) == render_headers(extra));
    assert(render_headers(hs) == render_header(hs[0]) + (cl_line + render_headers(extra)));
    assert(cl_line == "Content-Length: ".spec_bytes() + dec_digits(body.len()) + crlf()) by {
        reveal_strlit("Content-Length");
        reveal_strlit(": ");
        reveal_strlit("Content-Length: ");
        vstd::string::is_ascii_spec_bytes("Content-Length");
        vstd::string::is_ascii_spec_bytes(": ");
        vstd::string::is_ascii_spec_bytes("Content-Length: ");
        assert("Content-Length".spec_bytes() + ": ".spec_bytes() =~= "Content-Length: ".spec_bytes());
        assert(("Content-Length".spec_bytes() + ": ".spec_bytes()) + (dec_digits(body.len())
            + crlf()) =~= cl_line);
    }
    let at = "HTTP/1.1 ".spec_bytes().len() + status_phrase(status).len() + crlf().len()
        + render_header(hs[0]).len();
    let line = "Content-Length: ".spec_bytes() + dec_digits(body.len()) + crlf();
    assert(w.subrange(at as int, at as int + line.len() as int) =~= line);
}

/// The encoded body is untransformed: the rendered bytes of any response
/// end with the blank line followed by the body, byte for byte. (Only this
/// positional reading holds in general: a caller-supplied header holding a
/// CRLF pair itself moves the first blank line the wire shows.)
pub proof fn lemma_rendered_body_suffix(r: RespView)
    ensures
        ({
            let w = spec_render(r);
            w.len() >= r.body.len() + 2 && w.subrange(
                w.len() - r.body.len(),
                w.len() as int,
            ) == r.body && w.subrange(
                w.len() - r.body.len() - 2,
                w.len() - r.body.len(),
            ) == crlf()
        }),
{
    let w = spec_render(r);
    assert(w.subrange(w.len() - r.body.len(), w.len() as int) =~= r.body);
    assert(w.subrange(w.len() - r.body.len() - 2, w.len() - r.body.len()) =~= crlf());
}

} // verus!
