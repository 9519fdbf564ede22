//! The wire codec's decode half: parsing a fully-accumulated request buffer
//! into a structured `Request`, with `spec_parse` as the exact mathematical
//! description of what is accepted and what each field holds.
use vstd::prelude::*;

use crate::bytes::{
    after_byte, concat_seqs, crlf, drop_token, find_byte, find_line_end, is_ws,
    lemma_after_byte_len, lemma_byte_absent, lemma_byte_split_at, lemma_skip_ws_concat,
    lemma_split_lines_concat, lemma_token_concat, line_len, push_bytes, skip_ws, split_lines,
    strip_crlf, sub_vec, take_token, until_byte,
};

verus! {

/// Mathematical content of a decoded request: the query and header pair
/// lists are collapsed to their last-write-wins mappings.
#[verifier::ext_equal]
pub struct ReqView {
    pub method: Seq<u8>,
    pub path: Seq<u8>,
    pub query: Map<Seq<u8>, Seq<u8>>,
    pub headers: Map<Seq<u8>, Seq<u8>>,
    pub content: Seq<u8>,
}

/// The ways a request buffer can be rejected.
#[derive(Clone, Copy, Debug, PartialEq, Eq, Structural)]
pub enum ParseError {
    /// The request line holds no method token.
    MissingMethod,
    /// The request line holds no path token after the method.
    MissingPath,
    /// No bare CRLF line separates the headers from the body.
    MissingSeparator,
}

impl ParseError {
    pub open spec fn spec_message(self) -> Seq<char> {
        match self {
            ParseError::MissingMethod => "malformed request line: no method"@,
            ParseError::MissingPath => "malformed request line: no path"@,
            ParseError::MissingSeparator => "missing header/body separator"@,
        }
    }

    /// A short description, fit for an error response body.
    pub fn message(&self) -> (r: &'static str)
        ensures
            r@ == self.spec_message(),
    {
        match self {
            ParseError::MissingMethod => "malformed request line: no method",
            ParseError::MissingPath => "malformed request line: no path",
            ParseError::MissingSeparator => "missing header/body separator",
        }
    }
}

/// The views of a list of byte-vector pairs.
pub open spec fn view_of_pairs(ps: Seq<(Vec<u8>, Vec<u8>)>) -> Seq<(Seq<u8>, Seq<u8>)> {
    ps.map_values(|p: (Vec<u8>, Vec<u8>)| (p.0@, p.1@))
}

/// Collapses a key/value pair list to a mapping where the last write to a
/// key wins.
pub open spec fn pairs_to_map(ps: Seq<(Seq<u8>, Seq<u8>)>) -> Map<Seq<u8>, Seq<u8>>
    decreases ps.len(),
{
    if ps.len() == 0 {
        Map::empty()
    } else {
        pairs_to_map(ps.drop_last()).insert(ps.last().0, ps.last().1)
    }
}

/// The pair a single `&`-delimited query piece contributes: its part before
/// the first `=` maps to the part after it; a piece without `=` is dropped.
pub open spec fn piece_pair(piece: Seq<u8>) -> Seq<(Seq<u8>, Seq<u8>)> {
    match after_byte(piece, '=' as u8) {
        Some(v) => seq![(until_byte(piece, '=' as u8), v)],
        None => seq![],
    }
}

/// All key/value pairs of a query string, in order: the string is split on
/// `&` and each piece is split at its first `=`.
pub open spec fn query_pairs(qs: Seq<u8>) -> Seq<(Seq<u8>, Seq<u8>)>
    decreases qs.len(),
    via query_pairs_decreases
{
    if qs.len() == 0 {
        seq![]
    } else {
        let piece = until_byte(qs, '&' as u8);
        match after_byte(qs, '&' as u8) {
            Some(rest) => piece_pair(piece) + query_pairs(rest),
            None => piece_pair(piece),
        }
    }
}

#[via_fn]
proof fn query_pairs_decreases(qs: Seq<u8>) {
    lemma_after_byte_len(qs, '&' as u8);
}

/// Splits a header line at its first `": "` into key and value; the value
/// loses its CRLF pairs. Lines without `": "` yield nothing.
pub open spec fn header_kv(line: Seq<u8>) -> Option<(Seq<u8>, Seq<u8>)>
    decreases line.len(),
{
    if line.len() >= 2 && line[0] == (':' as u8) && line[1] == (' ' as u8) {
        Some((Seq::empty(), strip_crlf(line.skip(2))))
    } else if line.len() < 2 {
        None
    } else {
        match header_kv(line.drop_first()) {
            Some(kv) => Some((seq![line[0]] + kv.0, kv.1)),
            None => None,
        }
    }
}

/// The key/value pairs of the header lines, in order.
pub open spec fn header_pairs(hlines: Seq<Seq<u8>>) -> Seq<(Seq<u8>, Seq<u8>)>
    decreases hlines.len(),
{
    if hlines.len() == 0 {
        seq![]
    } else {
        match header_kv(hlines[0]) {
            Some(kv) => seq![kv] + header_pairs(hlines.drop_first()),
            None => header_pairs(hlines.drop_first()),
        }
    }
}

/// Index of the first line at or after `i` that is a bare CRLF.
pub open spec fn find_sep(lines: Seq<Seq<u8>>, i: int) -> Option<int>
    decreases lines.len() - i,
{
    if i < 0 || i >= lines.len() {
        None
    } else if lines[i] == crlf() {
        Some(i)
    } else {
        find_sep(lines, i + 1)
    }
}

/// The query pairs of a request target: everything after the first `?` is
/// the query string, read as `&`-separated pairs.
pub open spec fn spec_query_of_target(target: Seq<u8>) -> Seq<(Seq<u8>, Seq<u8>)> {
    match after_byte(target, '?' as u8) {
        None => seq![],
        Some(rest) => query_pairs(rest),
    }
}

/// What decoding an accumulated request buffer yields: the first line gives
/// method and target (token split on ASCII whitespace), the target splits
/// into path and query at its first `?`, the lines before the first bare
/// CRLF line are headers, and the lines after it joined are the body.
pub open spec fn spec_parse(s: Seq<u8>) -> Result<ReqView, ParseError> {
    let lines = split_lines(s);
    let line0 = if lines.len() > 0 {
        lines[0]
    } else {
        Seq::<u8>::empty()
    };
    let at_method = skip_ws(line0);
    let method = take_token(at_method);
    let at_target = skip_ws(drop_token(at_method));
    let target = take_token(at_target);
    if method.len() == 0 {
        Err(ParseError::MissingMethod)
    } else if target.len() == 0 {
        Err(ParseError::MissingPath)
    } else {
        match find_sep(lines, 1) {
            None => Err(ParseError::MissingSeparator),
            Some(sep) => Ok(
                ReqView {
                    method,
                    path: until_byte(target, '?' as u8),
                    query: pairs_to_map(spec_query_of_target(target)),
                    headers: pairs_to_map(header_pairs(lines.subrange(1, sep))),
                    content: concat_seqs(lines.subrange(sep + 1, lines.len() as int)),
                },
            ),
        }
    }
}

/// A structured request: method, path, query and header pair lists in the
/// order received, and the raw body content.
pub struct Request {
    pub method: Vec<u8>,
    pub path: Vec<u8>,
    pub headers: Vec<(Vec<u8>, Vec<u8>)>,
    pub query: Vec<(Vec<u8>, Vec<u8>)>,
    pub content: Vec<u8>,
}

impl View for Request {
    type V = ReqView;

    open spec fn view(&self) -> ReqView {
        ReqView {
            method: self.method@,
            path: self.path@,
            query: pairs_to_map(view_of_pairs(self.query@)),
            headers: pairs_to_map(view_of_pairs(self.headers@)),
            content: self.content@,
        }
    }
}

/// The views of the lines of a line vector.
pub open spec fn lines_view(ls: Seq<Vec<u8>>) -> Seq<Seq<u8>> {
    ls.map_values(|l: Vec<u8>| l@)
}

/// Splits a buffer into its lines, each keeping its newline byte.
fn split_lines_exec(s: &[u8]) -> (lines: Vec<Vec<u8>>)
    ensures
        lines_view(lines@) == split_lines(s@),
{
    let mut lines: Vec<Vec<u8>> = Vec::new();
    let mut p: usize = 0;
    proof {
        assert(s@.skip(0) =~= s@);
        assert(lines_view(lines@) + split_lines(s@) =~= split_lines(s@));
    }
    while p < s.len()
        invariant
            p <= s@.len(),
            lines_view(lines@) + split_lines(s@.skip(p as int)) == split_lines(s@),
        decreases s@.len() - p,
    {
        let e = find_line_end(s, p);
        let line = sub_vec(s, p, e);
        proof {
            let tail = s@.skip(p as int);
            assert(tail.take(line_len(tail) as int) =~= s@.subrange(p as int, e as int));
            assert(tail.skip(line_len(tail) as int) =~= s@.skip(e as int));
            assert(lines_view(lines@.push(line)) =~= lines_view(lines@) + seq![line@]);
            assert(lines_view(lines@) + seq![line@] + split_lines(s@.skip(e as int)) =~= lines_view(
                lines@,
            ) + split_lines(s@.skip(p as int)));
        }
        lines.push(line);
        p = e;
    }
    proof {
        assert(s@.skip(p as int) =~= Seq::<u8>::empty());
        assert(lines_view(lines@) + split_lines(s@.skip(p as int)) =~= lines_view(lines@));
    }
    lines
}

/// Whether `b` is ASCII whitespace.
fn is_ws_exec(b: u8) -> (r: bool)
    ensures
        r == is_ws(b),
{
    b == (' ' as u8) || b == ('\t' as u8) || b == ('\n' as u8) || b == ('\r' as u8) || b == (
    '\x0c' as u8)
}

/// Bounds of the first token of `v` at or after `start`: `r.0` is where the
/// token starts after leading whitespace, `r.1` is one past its end.
fn token_bounds(v: &[u8], start: usize) -> (r: (usize, usize))
    requires
        start <= v@.len(),
    ensures
        start <= r.0 <= r.1 <= v@.len(),
        skip_ws(v@.skip(start as int)) == v@.skip(r.0 as int),
        take_token(v@.skip(r.0 as int)) == v@.subrange(r.0 as int, r.1 as int),
        drop_token(v@.skip(r.0 as int)) == v@.skip(r.1 as int),
{
    let mut i: usize = start;
    while i < v.len() && is_ws_exec(v[i])
        invariant
            start <= i <= v@.len(),
            skip_ws(v@.skip(start as int)) == skip_ws(v@.skip(i as int)),
        decreases v@.len() - i,
    {
        proof {
            assert(v@.skip(i as int).drop_first() =~= v@.skip(i + 1));
        }
        i = i + 1;
    }
    proof {
        if i == v@.len() {
            assert(v@.skip(i as int) =~= Seq::<u8>::empty());
        }
        assert(skip_ws(v@.skip(i as int)) == v@.skip(i as int));
    }
    let ts = i;
    let mut j: usize = ts;
    while j < v.len() && !is_ws_exec(v[j])
        invariant
            ts <= j <= v@.len(),
            take_token(v@.skip(ts as int)) == v@.subrange(ts as int, j as int) + take_token(
                v@.skip(j as int),
            ),
            drop_token(v@.skip(ts as int)) == drop_token(v@.skip(j as int)),
        decreases v@.len() - j,
    {
        proof {
            let tail = v@.skip(j as int);
            assert(tail.drop_first() =~= v@.skip(j + 1));
            assert(v@.subrange(ts as int, j as int) + (seq![v@[j as int]] + take_token(
                v@.skip(j + 1),
            )) =~= v@.subrange(ts as int, j + 1) + take_token(v@.skip(j + 1)));
        }
        j = j + 1;
    }
    proof {
        if j == v@.len() {
            assert(v@.skip(j as int) =~= Seq::<u8>::empty());
        }
        assert(take_token(v@.skip(j as int)) =~= Seq::<u8>::empty());
        assert(drop_token(v@.skip(j as int)) == v@.skip(j as int));
        assert(v@.subrange(ts as int, j as int) + Seq::<u8>::empty() =~= v@.subrange(
            ts as int,
            j as int,
        ));
    }
    (ts, j)
}

/// First index in `[start, end)` where `b` occurs in `s`, if any.
fn find_byte_before(s: &[u8], start: usize, end: usize, b: u8) -> (r: Option<usize>)
    requires
        start <= end <= s@.len(),
    ensures
        match r {
            Some(i) => start <= i < end && s@[i as int] == b && forall|j: int|
                start <= j < i ==> s@[j] != b,
            None => forall|j: int| start <= j < end ==> s@[j] != b,
        },
{
    let mut i: usize = start;
    while i < end
        invariant
            start <= i <= end <= s@.len(),
            forall|j: int| start <= j < i ==> s@[j] != b,
        decreases end - i,
    {
        if s[i] == b {
            return Some(i);
        }
        i = i + 1;
    }
    None
}

/// Parses the key/value pairs of a query string.
fn parse_query_pairs(qs: &Vec<u8>) -> (r: Vec<(Vec<u8>, Vec<u8>)>)
    ensures
        view_of_pairs(r@) == query_pairs(qs@),
{
    let mut pairs: Vec<(Vec<u8>, Vec<u8>)> = Vec::new();
    let mut p: usize = 0;
    proof {
        assert(qs@.skip(0) =~= qs@);
        assert(view_of_pairs(pairs@) + query_pairs(qs@) =~= query_pairs(qs@));
    }
    while p < qs.len()
        invariant
            p <= qs@.len(),
            view_of_pairs(pairs@) + query_pairs(qs@.skip(p as int)) == query_pairs(qs@),
        decreases qs@.len() - p,
    {
        let ghost old_vop = view_of_pairs(pairs@);
        let ghost tail = qs@.skip(p as int);
        let amp = find_byte(qs.as_slice(), p, '&' as u8);
        let end = match amp {
            Some(ai) => ai,
            None => qs.len(),
        };
        let ghost piece = qs@.subrange(p as int, end as int);
        proof {
            match amp {
                Some(ai) => {
                    lemma_byte_split_at(tail, '&' as u8, ai - p);
                    assert(tail.take(ai - p) =~= piece);
                    assert(tail.skip(ai - p + 1) =~= qs@.skip(end + 1));
                    assert(query_pairs(tail) == piece_pair(piece) + query_pairs(
                        qs@.skip(end + 1),
                    ));
                },
                None => {
                    lemma_byte_absent(tail, '&' as u8);
                    assert(tail =~= piece);
                    assert(query_pairs(tail) == piece_pair(piece));
                },
            }
        }
        // the current piece is qs[p..end]; split it at its first '='
        let eq = find_byte_before(qs.as_slice(), p, end, '=' as u8);
        match eq {
            Some(ei) => {
                proof {
                    lemma_byte_split_at(piece, '=' as u8, ei - p);
                    assert(piece.take(ei - p) =~= qs@.subrange(p as int, ei as int));
                    assert(piece.skip(ei - p + 1) =~= qs@.subrange(ei + 1, end as int));
                }
                let k = sub_vec(qs.as_slice(), p, ei);
                let v = sub_vec(qs.as_slice(), ei + 1, end);
                pairs.push((k, v));
                proof {
                    assert(piece_pair(piece) =~= seq![(k@, v@)]);
                    assert(view_of_pairs(pairs@) =~= old_vop + piece_pair(piece));
                }
            },
            None => {
                proof {
                    lemma_byte_absent(piece, '=' as u8);
                    assert(piece_pair(piece) =~= Seq::<(Seq<u8>, Seq<u8>)>::empty());
                    assert(view_of_pairs(pairs@) =~= old_vop + piece_pair(piece));
                }
            },
        }
        match amp {
            Some(ai) => {
                p = ai + 1;
                proof {
                    assert((old_vop + piece_pair(piece)) + query_pairs(qs@.skip(p as int))
                        =~= old_vop + (piece_pair(piece) + query_pairs(qs@.skip(p as int))));
                }
            },
            None => {
                p = qs.len();
                proof {
                    assert(qs@.skip(p as int) =~= Seq::<u8>::empty());
                    assert((old_vop + piece_pair(piece)) + query_pairs(qs@.skip(p as int))
                        =~= old_vop + piece_pair(piece));
                }
            },
        }
    }
    proof {
        assert(qs@.skip(p as int) =~= Seq::<u8>::empty());
        assert(view_of_pairs(pairs@) + query_pairs(qs@.skip(p as int)) =~= view_of_pairs(pairs@));
    }
    pairs
}

/// Where the first `": "` of `line` stands at `j`, the header split keeps
/// the bytes before `j` as the key and the CRLF-stripped rest as the value.
proof fn lemma_header_kv_at(line: Seq<u8>, j: int)
    requires
        0 <= j,
        j + 1 < line.len(),
        line[j] == (':' as u8),
        line[j + 1] == (' ' as u8),
        forall|i: int| 0 <= i < j ==> !(#[trigger] line[i] == (':' as u8) && line[i + 1] == (' ' as u8)),
    ensures
        header_kv(line) == Some((line.take(j), strip_crlf(line.skip(j + 2)))),
    decreases j,
{
    if j == 0 {
        assert(line.take(0) =~= Seq::<u8>::empty());
    } else {
        lemma_header_kv_at(line.drop_first(), j - 1);
        assert(line.drop_first().take(j - 1) =~= line.subrange(1, j));
        assert(seq![line[0]] + line.subrange(1, j) =~= line.take(j));
        assert(line.drop_first().skip(j + 1) =~= line.skip(j + 2));
    }
}

/// A line without `": "` contributes no header.
proof fn lemma_header_kv_absent(line: Seq<u8>)
    requires
        forall|i: int|
            0 <= i && i + 1 < line.len() ==> !(#[trigger] line[i] == (':' as u8) && line[i + 1]
                == (' ' as u8)),
    ensures
        header_kv(line) is None,
    decreases line.len(),
{
    if line.len() >= 2 {
        lemma_header_kv_absent(line.drop_first());
    }
}

/// Copies `s[start..]` with every CRLF pair removed.
fn strip_crlf_exec(s: &[u8], start: usize) -> (r: Vec<u8>)
    requires
        start <= s@.len(),
    ensures
        r@ == strip_crlf(s@.skip(start as int)),
{
    let mut r: Vec<u8> = Vec::new();
    let mut i: usize = start;
    while i < s.len()
        invariant
            start <= i <= s@.len(),
            strip_crlf(s@.skip(start as int)) == r@ + strip_crlf(s@.skip(i as int)),
        decreases s@.len() - i,
    {
        proof {
            assert(s@.skip(i as int).drop_first() =~= s@.skip(i + 1));
            if i + 2 <= s@.len() {
                assert(s@.skip(i as int).skip(2) =~= s@.skip(i + 2));
            }
        }
        if i + 1 < s.len() && s[i] == ('\r' as u8) && s[i + 1] == ('\n' as u8) {
            i = i + 2;
        } else {
            r.push(s[i]);
            proof {
                assert(r@ + strip_crlf(s@.skip(i + 1)) =~= r@.drop_last() + (seq![s@[i as int]]
                    + strip_crlf(s@.skip(i + 1))));
            }
            i = i + 1;
        }
    }
    proof {
        assert(s@.skip(i as int) =~= Seq::<u8>::empty());
        assert(r@ + strip_crlf(s@.skip(i as int)) =~= r@);
    }
    r
}

/// Splits one header line at its first `": "`, if it has one.
fn header_kv_exec(line: &Vec<u8>) -> (r: Option<(Vec<u8>, Vec<u8>)>)
    ensures
        match r {
            Some(kv) => header_kv(line@) == Some((kv.0@, kv.1@)),
            None => header_kv(line@) is None,
        },
{
    let mut j: usize = 0;
    while j < line.len() && j + 1 < line.len()
        invariant
            j <= line@.len(),
            forall|i: int|
                0 <= i < j ==> !(#[trigger] line@[i] == (':' as u8) && line@[i + 1] == (' ' as u8)),
        decreases line@.len() - j,
    {
        if line[j] == (':' as u8) && line[j + 1] == (' ' as u8) {
            let k = sub_vec(line.as_slice(), 0, j);
            let v = strip_crlf_exec(line.as_slice(), j + 2);
            proof {
                lemma_header_kv_at(line@, j as int);
                assert(line@.take(j as int) =~= line@.subrange(0, j as int));
            }
            return Some((k, v));
        }
        j = j + 1;
    }
    proof {
        lemma_header_kv_absent(line@);
    }
    None
}

/// Finds the first bare CRLF line after the request line.
fn find_sep_exec(lines: &Vec<Vec<u8>>) -> (r: Option<usize>)
    ensures
        match r {
            Some(si) => 1 <= si < lines@.len() && find_sep(lines_view(lines@), 1) == Some(
                si as int,
            ),
            None => find_sep(lines_view(lines@), 1) is None,
        },
{
    let ghost lv = lines_view(lines@);
    let mut crlf_line: Vec<u8> = Vec::new();
    crlf_line.push('\r' as u8);
    crlf_line.push('\n' as u8);
    proof {
        assert(crlf_line@ =~= crlf());
    }
    let mut k: usize = 1;
    while k < lines.len()
        invariant
            1 <= k,
            lv == lines_view(lines@),
            crlf_line@ == crlf(),
            find_sep(lv, 1) == find_sep(lv, k as int),
        decreases lines@.len() - k,
    {
        proof {
            assert(lv[k as int] == lines@[k as int]@);
        }
        if crate::bytes::bytes_eq(lines[k].as_slice(), crlf_line.as_slice()) {
            return Some(k);
        }
        k = k + 1;
    }
    None
}

impl Request {
    /// Decodes an accumulated request buffer, exactly as `spec_parse`
    /// describes it, or reports why the buffer is malformed.
    pub fn new(buffer: &[u8]) -> (r: Result<Request, ParseError>)
        ensures
            match r {
                Ok(req) => spec_parse(buffer@) == Ok::<ReqView, ParseError>(req@),
                Err(e) => spec_parse(buffer@) == Err::<ReqView, ParseError>(e),
            },
    {
        let lines = split_lines_exec(buffer);
        let ghost lv = lines_view(lines@);
        let empty_line: Vec<u8> = Vec::new();
        let line0: &Vec<u8> = if lines.len() > 0 {
            &lines[0]
        } else {
            &empty_line
        };
        proof {
            if lines@.len() > 0 {
                assert(lv[0] == lines@[0]@);
            }
        }
        let (ms, me) = token_bounds(line0.as_slice(), 0);
        proof {
            assert(line0@.skip(0) =~= line0@);
        }
        let method = sub_vec(line0.as_slice(), ms, me);
        if method.len() == 0 {
            return Err(ParseError::MissingMethod);
        }
        let (ts, te) = token_bounds(line0.as_slice(), me);
        let target = sub_vec(line0.as_slice(), ts, te);
        if target.len() == 0 {
            return Err(ParseError::MissingPath);
        }
        // split the target into path and raw query string at the first '?'
        let qmark = find_byte(target.as_slice(), 0, '?' as u8);
        let (path, query) = match qmark {
            Some(qi) => {
                proof {
                    lemma_byte_split_at(target@, '?' as u8, qi as int);
                    assert(target@.take(qi as int) =~= target@.subrange(0, qi as int));
                }
                let path = sub_vec(target.as_slice(), 0, qi);
                let qs = sub_vec(target.as_slice(), qi + 1, target.len());
                proof {
                    assert(qs@ =~= target@.skip(qi + 1));
                }
                let query = parse_query_pairs(&qs);
                (path, query)
            },
            None => {
                proof {
                    lemma_byte_absent(target@, '?' as u8);
                    assert(target@.subrange(0, target@.len() as int) =~= target@);
                }
                let path = sub_vec(target.as_slice(), 0, target.len());
                let query: Vec<(Vec<u8>, Vec<u8>)> = Vec::new();
                proof {
                    assert(view_of_pairs(query@) =~= spec_query_of_target(target@));
                }
                (path, query)
            },
        };
        // find the bare CRLF line separating headers from body
        let sep = find_sep_exec(&lines);
        let si = match sep {
            Some(si) => si,
            None => {
                return Err(ParseError::MissingSeparator);
            },
        };
        // header lines are lines[1..si]
        let mut headers: Vec<(Vec<u8>, Vec<u8>)> = Vec::new();
        let mut h: usize = 1;
        proof {
            assert(view_of_pairs(headers@) + header_pairs(lv.subrange(1, si as int))
                =~= header_pairs(lv.subrange(1, si as int)));
        }
        while h < si
            invariant
                1 <= h <= si < lines@.len(),
                lv == lines_view(lines@),
                view_of_pairs(headers@) + header_pairs(lv.subrange(h as int, si as int))
                    == header_pairs(lv.subrange(1, si as int)),
            decreases si - h,
        {
            proof {
                assert(lv[h as int] == lines@[h as int]@);
                assert(lv.subrange(h as int, si as int).drop_first() =~= lv.subrange(
                    h + 1,
                    si as int,
                ));
            }
            match header_kv_exec(&lines[h]) {
                Some(kv) => {
                    headers.push(kv);
                    proof {
                        assert(view_of_pairs(headers@) =~= view_of_pairs(headers@.drop_last())
                            + seq![(headers@.last().0@, headers@.last().1@)]);
                        assert(view_of_pairs(headers@.drop_last()) + (seq![
                            (headers@.last().0@, headers@.last().1@),
                        ] + header_pairs(lv.subrange(h + 1, si as int))) =~= view_of_pairs(headers@)
                            + header_pairs(lv.subrange(h + 1, si as int)));
                    }
                },
                None => {},
            }
            h = h + 1;
        }
        proof {
            assert(lv.subrange(h as int, si as int) =~= Seq::<Seq<u8>>::empty());
            assert(view_of_pairs(headers@) + header_pairs(lv.subrange(h as int, si as int))
                =~= view_of_pairs(headers@));
        }
        // the body is the remaining lines joined back together
        let mut content: Vec<u8> = Vec::new();
        let mut c: usize = si + 1;
        proof {
            assert(content@ + concat_seqs(lv.subrange(si + 1, lv.len() as int)) =~= concat_seqs(
                lv.subrange(si + 1, lv.len() as int),
            ));
        }
        while c < lines.len()
            invariant
                si + 1 <= c <= lines@.len(),
                lv == lines_view(lines@),
                content@ + concat_seqs(lv.subrange(c as int, lv.len() as int)) == concat_seqs(
                    lv.subrange(si + 1, lv.len() as int),
                ),
            decreases lines@.len() - c,
        {
            proof {
                assert(lv[c as int] == lines@[c as int]@);
                assert(lv.subrange(c as int, lv.len() as int).drop_first() =~= lv.subrange(
                    c + 1,
                    lv.len() as int,
                ));
            }
            push_bytes(&mut content, lines[c].as_slice());
            c = c + 1;
        }
        proof {
            assert(lv.subrange(c as int, lv.len() as int) =~= Seq::<Seq<u8>>::empty());
            assert(content@ + concat_seqs(lv.subrange(c as int, lv.len() as int)) =~= content@);
        }
        let req = Request { method, path, headers, query, content };
        proof {
            let expected = spec_parse(buffer@);
            assert(expected matches Ok(rv) && rv =~= req@);
        }
        Ok(req)
    }

    /// Value stored under `key` in the query mapping.
    pub fn query_get<'a>(&'a self, key: &[u8]) -> (r: Option<&'a Vec<u8>>)
        ensures
            match r {
                Some(v) => self@.query.contains_key(key@) && self@.query[key@] == v@,
                None => !self@.query.contains_key(key@),
            },
    {
        pairs_get(&self.query, key)
    }

    /// Value stored under `key` in the header mapping.
    pub fn header_get<'a>(&'a self, key: &[u8]) -> (r: Option<&'a Vec<u8>>)
        ensures
            match r {
                Some(v) => self@.headers.contains_key(key@) && self@.headers[key@] == v@,
                None => !self@.headers.contains_key(key@),
            },
    {
        pairs_get(&self.headers, key)
    }
}

/// Looks a key up in a pair list under last-write-wins reading: the latest
/// pair with the key decides the value.
fn pairs_get<'a>(pairs: &'a Vec<(Vec<u8>, Vec<u8>)>, key: &[u8]) -> (r: Option<&'a Vec<u8>>)
    ensures
        match r {
            Some(v) => pairs_to_map(view_of_pairs(pairs@)).contains_key(key@) && pairs_to_map(
                view_of_pairs(pairs@),
            )[key@] == v@,
            None => !pairs_to_map(view_of_pairs(pairs@)).contains_key(key@),
        },
{
    let ghost full = pairs_to_map(view_of_pairs(pairs@));
    let mut i: usize = pairs.len();
    proof {
        assert(pairs@.take(i as int) =~= pairs@);
    }
    while i > 0
        invariant
            i <= pairs@.len(),
            full == pairs_to_map(view_of_pairs(pairs@)),
            full.contains_key(key@) == pairs_to_map(
                view_of_pairs(pairs@.take(i as int)),
            ).contains_key(key@),
            full.contains_key(key@) ==> full[key@] == pairs_to_map(
                view_of_pairs(pairs@.take(i as int)),
            )[key@],
        decreases i,
    {
        i = i - 1;
        proof {
            assert(view_of_pairs(pairs@.take(i + 1)).drop_last() =~= view_of_pairs(
                pairs@.take(i as int),
            ));
            assert(view_of_pairs(pairs@.take(i + 1)).last() == (
                pairs@[i as int].0@,
                pairs@[i as int].1@,
            ));
        }
        if crate::bytes::bytes_eq(pairs[i].0.as_slice(), key) {
            return Some(&pairs[i].1);
        }
    }
    proof {
        assert(view_of_pairs(pairs@.take(0)) =~= Seq::<(Seq<u8>, Seq<u8>)>::empty());
    }
    None
}

/// The protocol token that closes a request line.
pub open spec fn http_version() -> Seq<u8> {
    seq![('H' as u8), ('T' as u8), ('T' as u8), ('P' as u8), ('/' as u8), ('1' as u8), (
    '.' as u8), ('1' as u8)]
}

/// Request-line law: a buffer holding the request line
/// `<METHOD> <PATH>?<KEY>=<VALUE> HTTP/1.1` and the blank separator line
/// decodes to exactly that method and path, with the query mapping the key
/// to the value — for every method, path, key and value whose bytes are
/// ordinary: free of ASCII whitespace, with no `?` in the path, no `&` in
/// the key or value, and no `=` in the key.
pub proof fn lemma_request_line_decodes(
    method: Seq<u8>,
    path: Seq<u8>,
    key: Seq<u8>,
    value: Seq<u8>,
)
    requires
        0 < method.len(),
        forall|i: int| 0 <= i < method.len() ==> !is_ws(#[trigger] method[i]),
        0 < path.len(),
        forall|i: int|
            0 <= i < path.len() ==> !is_ws(#[trigger] path[i]) && path[i] != ('?' as u8),
        forall|i: int|
            0 <= i < key.len() ==> !is_ws(#[trigger] key[i]) && key[i] != ('&' as u8) && key[i]
                != ('=' as u8),
        forall|i: int|
            0 <= i < value.len() ==> !is_ws(#[trigger] value[i]) && value[i] != ('&' as u8),
    ensures
        ({
            let target = path + seq![('?' as u8)] + key + seq![('=' as u8)] + value;
            let line = method + seq![(' ' as u8)] + target + seq![(' ' as u8)] + http_version()
                + crlf();
            spec_parse(line + crlf()) == Ok::<ReqView, ParseError>(
                ReqView {
                    method: method,
                    path: path,
                    query: Map::<Seq<u8>, Seq<u8>>::empty().insert(key, value),
                    headers: Map::<Seq<u8>, Seq<u8>>::empty(),
                    content: Seq::<u8>::empty(),
                },
            )
        }),
{
    let nl = '\n' as u8;
    let cr = '\r' as u8;
    let sp = ' ' as u8;
    let target = path + seq![('?' as u8)] + key + seq![('=' as u8)] + value;
    let line = method + seq![sp] + target + seq![sp] + http_version() + crlf();
    let s = line + crlf();
    // the buffer splits into the request line and the bare separator line
    let left = method + seq![sp] + target + seq![sp] + http_version() + seq![cr];
    assert(forall|i: int| 0 <= i < target.len() ==> !is_ws(#[trigger] target[i]));
    assert(forall|i: int| 0 <= i < left.len() ==> #[trigger] left[i] != nl);
    assert(s =~= left + seq![nl] + crlf());
    lemma_split_lines_concat(left, crlf());
    assert(split_lines(crlf()) =~= seq![crlf()]) by {
        assert(crlf().drop_first() =~= seq![nl]);
        assert(line_len(seq![nl]) == 1);
        assert(line_len(crlf()) == 2);
        assert(crlf().take(2) =~= crlf());
        assert(crlf().skip(2) =~= Seq::<u8>::empty());
        assert(split_lines(Seq::<u8>::empty()) =~= Seq::<Seq<u8>>::empty());
    }
    let lines = split_lines(s);
    let line0 = left + seq![nl];
    assert(lines =~= seq![line0, crlf()]);
    // the request line yields the method and target tokens
    let rest1 = seq![sp] + target + seq![sp] + http_version() + crlf();
    assert(line0 =~= method + rest1);
    assert(line0[0] == method[0]);
    assert(skip_ws(line0) == line0);
    lemma_token_concat(method, rest1);
    assert(take_token(rest1) =~= Seq::<u8>::empty());
    assert(method + Seq::<u8>::empty() =~= method);
    assert(take_token(skip_ws(line0)) == method);
    assert(drop_token(skip_ws(line0)) == rest1);
    let rest2 = target + seq![sp] + http_version() + crlf();
    assert(rest1 =~= seq![sp] + rest2);
    lemma_skip_ws_concat(seq![sp], rest2);
    assert(rest2[0] == path[0]);
    assert(skip_ws(rest2) == rest2);
    let rest3 = seq![sp] + http_version() + crlf();
    assert(rest2 =~= target + rest3);
    lemma_token_concat(target, rest3);
    assert(take_token(rest3) =~= Seq::<u8>::empty());
    assert(target + Seq::<u8>::empty() =~= target);
    assert(take_token(skip_ws(drop_token(skip_ws(line0)))) == target);
    // the target splits into the path and the single query pair
    assert(target[path.len() as int] == ('?' as u8));
    lemma_byte_split_at(target, '?' as u8, path.len() as int);
    assert(target.take(path.len() as int) =~= path);
    let qs = key + seq![('=' as u8)] + value;
    assert(target.skip(path.len() as int + 1) =~= qs);
    assert(forall|i: int| 0 <= i < qs.len() ==> #[trigger] qs[i] != ('&' as u8));
    lemma_byte_absent(qs, '&' as u8);
    assert(qs[key.len() as int] == ('=' as u8));
    lemma_byte_split_at(qs, '=' as u8, key.len() as int);
    assert(qs.take(key.len() as int) =~= key);
    assert(qs.skip(key.len() as int + 1) =~= value);
    assert(query_pairs(qs) =~= seq![(key, value)]);
    assert(spec_query_of_target(target) =~= seq![(key, value)]);
    let one_pair = seq![(key, value)];
    assert(pairs_to_map(one_pair) =~= Map::<Seq<u8>, Seq<u8>>::empty().insert(key, value)) by {
        assert(one_pair.drop_last() =~= Seq::<(Seq<u8>, Seq<u8>)>::empty());
    }
    // the separator is the second line; no headers, no body remain
    assert(lines[1] == crlf());
    assert(find_sep(lines, 1) == Some(1int));
    assert(lines.subrange(1, 1) =~= Seq::<Seq<u8>>::empty());
    assert(header_pairs(lines.subrange(1, 1)) =~= Seq::<(Seq<u8>, Seq<u8>)>::empty());
    assert(lines.subrange(2, 2) =~= Seq::<Seq<u8>>::empty());
    assert(concat_seqs(lines.subrange(2, 2)) =~= Seq::<u8>::empty());
    let expected = ReqView {
        method: method,
        path: path,
        query: Map::<Seq<u8>, Seq<u8>>::empty().insert(key, value),
        headers: Map::<Seq<u8>, Seq<u8>>::empty(),
        content: Seq::<u8>::empty(),
    };
    assert(pairs_to_map(header_pairs(lines.subrange(1, 1))) =~= Map::<Seq<u8>, Seq<u8>>::empty());
    assert(spec_parse(s) matches Ok(rv) && rv =~= expected);
}

} // verus!
