use vstd::prelude::*;
use vstd::slice::{slice_subrange, slice_to_vec};
use vstd::utf8::valid_utf8;

use crate::mapping::{
    bytes_pairs, insert_last_wins, keys_unique, lemma_pairs_map_keys, lemma_pairs_map_last,
    pairs_map,
};

verus! {

/// Number of bytes requested from a connection per read.
pub const CHUNK_SIZE: usize = 1024;

/// Adds a chunk read from a connection to what was received; tells whether
/// reading is over, which a chunk shorter than `CHUNK_SIZE` signals.
pub fn absorb_chunk(received: &mut Vec<u8>, chunk: &[u8]) -> (done: bool)
    ensures
        final(received)@ == old(received)@ + chunk@,
        done == (chunk@.len() < CHUNK_SIZE),
{
    let mut i: usize = 0;
    while i < chunk.len()
        invariant
            i <= chunk@.len(),
            received@ == old(received)@ + chunk@.subrange(0, i as int),
        decreases chunk@.len() - i,
    {
        received.push(chunk[i]);
        i = i + 1;
        proof {
            assert(received@ =~= old(received)@ + chunk@.subrange(0, i as int));
        }
    }
    proof {
        assert(chunk@.subrange(0, i as int) =~= chunk@);
    }
    chunk.len() < CHUNK_SIZE
}

/// First index `j` in `[i, hi)` with `s[j] == c`, or `hi` if there is none.
pub open spec fn find_in(s: Seq<u8>, c: u8, i: int, hi: int) -> int
    decreases hi - i,
{
    if i >= hi {
        hi
    } else if s[i] == c {
        i
    } else {
        find_in(s, c, i + 1, hi)
    }
}

/// ASCII whitespace: space, tab, line feed, form feed, carriage return.
pub open spec fn is_ws(b: u8) -> bool {
    b == 32 || b == 9 || b == 10 || b == 12 || b == 13
}

/// First index at or after `i` (below `hi`) that is not whitespace.
pub open spec fn skip_ws(s: Seq<u8>, i: int, hi: int) -> int
    decreases hi - i,
{
    if i >= hi {
        i
    } else if is_ws(s[i]) {
        skip_ws(s, i + 1, hi)
    } else {
        i
    }
}

/// First index at or after `i` (below `hi`) that is whitespace.
pub open spec fn skip_token(s: Seq<u8>, i: int, hi: int) -> int
    decreases hi - i,
{
    if i >= hi {
        i
    } else if !is_ws(s[i]) {
        skip_token(s, i + 1, hi)
    } else {
        i
    }
}

/// End of the line that starts at `i`: just past its `\n`, or `hi`.
pub open spec fn line_end(s: Seq<u8>, i: int, hi: int) -> int {
    let n = find_in(s, 10, i, hi);
    if n < hi {
        n + 1
    } else {
        hi
    }
}

/// First `j` in `[i, hi - 1)` where `": "` starts, or `hi`.
pub open spec fn find_colon(s: Seq<u8>, i: int, hi: int) -> int
    decreases hi - i,
{
    if i + 1 >= hi {
        hi
    } else if s[i] == 58 && s[i + 1] == 32 {
        i
    } else {
        find_colon(s, i + 1, hi)
    }
}

/// Adds the pair in the segment `q[i..e]`, split at its first `=`; a segment
/// without `=` adds nothing.
pub open spec fn add_pair(m: Map<Seq<u8>, Seq<u8>>, q: Seq<u8>, i: int, e: int) -> Map<
    Seq<u8>,
    Seq<u8>,
> {
    let j = find_in(q, 61, i, e);
    if j < e {
        m.insert(q.subrange(i, j), q.subrange(j + 1, e))
    } else {
        m
    }
}

/// Last `j` in `[lo, hi)` with `s[j] == c`, or `lo - 1` if there is none.
pub open spec fn rfind_in(s: Seq<u8>, c: u8, lo: int, hi: int) -> int
    decreases hi - lo,
{
    if hi <= lo {
        lo - 1
    } else if s[hi - 1] == c {
        hi - 1
    } else {
        rfind_in(s, c, lo, hi - 1)
    }
}

/// The mapping built by the `&`-separated segments of `q[0..e]`, in order.
pub open spec fn query_upto(q: Seq<u8>, e: int) -> Map<Seq<u8>, Seq<u8>>
    decreases e,
{
    let k = rfind_in(q, 38, 0, e);
    if k < 0 || k >= e {
        add_pair(Map::empty(), q, 0, e)
    } else {
        add_pair(query_upto(q, k), q, k + 1, e)
    }
}

/// The mapping of a raw query string: split on `&`, each segment split at its
/// first `=`, later keys overriding earlier ones, no decoding.
pub open spec fn query_map(q: Seq<u8>) -> Map<Seq<u8>, Seq<u8>> {
    query_upto(q, q.len() as int)
}

/// `find_in` is the first index that holds `c`.
pub proof fn lemma_find_in(s: Seq<u8>, c: u8, i: int, hi: int, r: int)
    requires
        i <= r <= hi,
        forall|j: int| i <= j < r ==> s[j] != c,
        r == hi || s[r] == c,
    ensures
        find_in(s, c, i, hi) == r,
    decreases r - i,
{
    if i < r {
        lemma_find_in(s, c, i + 1, hi, r);
    }
}

/// `rfind_in` is the last index that holds `c`.
pub proof fn lemma_rfind_in(s: Seq<u8>, c: u8, i: int, e: int)
    requires
        0 <= i <= e,
        forall|j: int| i <= j < e ==> s[j] != c,
        i == 0 || s[i - 1] == c,
    ensures
        rfind_in(s, c, 0, e) == i - 1,
    decreases e - i,
{
    if e > i {
        lemma_rfind_in(s, c, i, e - 1);
    }
}

/// `find_in` stays within its range.
pub proof fn lemma_find_in_bounds(s: Seq<u8>, c: u8, i: int, hi: int)
    requires
        i <= hi,
    ensures
        i <= find_in(s, c, i, hi) <= hi,
    decreases hi - i,
{
    if i < hi {
        lemma_find_in_bounds(s, c, i + 1, hi);
    }
}

/// Searches that read only `[lo, hi)` agree on sequences equal there.
proof fn lemma_search_same(s1: Seq<u8>, s2: Seq<u8>, c: u8, lo: int, hi: int)
    requires
        forall|j: int| lo <= j < hi ==> s1[j] == s2[j],
    ensures
        find_in(s1, c, lo, hi) == find_in(s2, c, lo, hi),
        rfind_in(s1, c, lo, hi) == rfind_in(s2, c, lo, hi),
    decreases hi - lo,
{
    if lo < hi {
        lemma_search_same(s1, s2, c, lo + 1, hi);
        lemma_search_same(s1, s2, c, lo, hi - 1);
    }
}

/// `query_upto` reads only `q[0..e]`.
proof fn lemma_query_upto_prefix(q1: Seq<u8>, q2: Seq<u8>, e: int)
    requires
        0 <= e <= q1.len(),
        e <= q2.len(),
        q1.subrange(0, e) == q2.subrange(0, e),
    ensures
        query_upto(q1, e) == query_upto(q2, e),
    decreases e,
{
    assert forall|j: int| 0 <= j < e implies q1[j] == q2[j] by {
        assert(q1[j] == q1.subrange(0, e)[j]);
        assert(q2[j] == q2.subrange(0, e)[j]);
    }
    lemma_search_same(q1, q2, 38, 0, e);
    let k = rfind_in(q1, 38, 0, e);
    if k < 0 || k >= e {
        lemma_search_same(q1, q2, 61, 0, e);
        let j = find_in(q1, 61, 0, e);
        lemma_find_in_bounds(q1, 61, 0, e);
        if j < e {
            assert(q1.subrange(0, j) =~= q2.subrange(0, j));
            assert(q1.subrange(j + 1, e) =~= q2.subrange(j + 1, e));
        }
    } else {
        assert(q1.subrange(0, k) =~= q2.subrange(0, k));
        lemma_query_upto_prefix(q1, q2, k);
        lemma_search_same(q1, q2, 61, k + 1, e);
        let j = find_in(q1, 61, k + 1, e);
        lemma_find_in_bounds(q1, 61, k + 1, e);
        if j < e {
            assert(q1.subrange(k + 1, j) =~= q2.subrange(k + 1, j));
            assert(q1.subrange(j + 1, e) =~= q2.subrange(j + 1, e));
        }
    }
}

/// The text `key=value` of a query pair.
pub open spec fn pair_text(p: (Seq<u8>, Seq<u8>)) -> Seq<u8> {
    p.0 + seq![61u8] + p.1
}

/// The query string `k1=v1&k2=v2&...` of a list of pairs.
pub open spec fn join_query(ps: Seq<(Seq<u8>, Seq<u8>)>) -> Seq<u8>
    decreases ps.len(),
{
    if ps.len() == 0 {
        Seq::empty()
    } else if ps.len() == 1 {
        pair_text(ps[0])
    } else {
        join_query(ps.drop_last()) + seq![38u8] + pair_text(ps.last())
    }
}

/// A pair whose key holds no `&` or `=` and whose value holds no `&`.
pub open spec fn plain_pair(p: (Seq<u8>, Seq<u8>)) -> bool {
    &&& forall|j: int| 0 <= j < p.0.len() ==> p.0[j] != 38 && p.0[j] != 61
    &&& forall|j: int| 0 <= j < p.1.len() ==> p.1[j] != 38
}

/// The segment of a plain pair written after `pre`: it holds no `&`, and
/// its first `=` ends the key.
proof fn lemma_pair_segment(pre: Seq<u8>, p: (Seq<u8>, Seq<u8>))
    requires
        plain_pair(p),
    ensures
        ({
            let q = pre + pair_text(p);
            let s = pre.len() as int;
            &&& forall|j: int| s <= j < q.len() ==> q[j] != 38
            &&& find_in(q, 61, s, q.len() as int) == s + p.0.len()
            &&& q.subrange(s, s + p.0.len()) == p.0
            &&& q.subrange(s + p.0.len() + 1, q.len() as int) == p.1
        }),
{
    let q = pre + pair_text(p);
    let s = pre.len() as int;
    let kl = p.0.len() as int;
    assert forall|j: int| s <= j < q.len() implies q[j] != 38 by {
        if j < s + kl {
            assert(q[j] == p.0[j - s]);
        } else if j > s + kl {
            assert(q[j] == p.1[j - s - kl - 1]);
        } else {
            assert(q[j] == 61);
        }
    }
    assert forall|j: int| s <= j < s + kl implies q[j] != 61 by {
        assert(q[j] == p.0[j - s]);
    }
    assert(q[s + kl] == 61);
    lemma_find_in(q, 61, s, q.len() as int, s + kl);
    assert(q.subrange(s, s + kl) =~= p.0);
    assert(q.subrange(s + kl + 1, q.len() as int) =~= p.1);
}

proof fn lemma_join_query(ps: Seq<(Seq<u8>, Seq<u8>)>)
    requires
        forall|i: int| 0 <= i < ps.len() ==> plain_pair(ps[i]),
    ensures
        query_map(join_query(ps)) == pairs_map(ps),
    decreases ps.len(),
{
    let q = join_query(ps);
    if ps.len() == 0 {
        assert(query_map(q) =~= pairs_map(ps));
    } else if ps.len() == 1 {
        let p = ps[0];
        let q0 = Seq::<u8>::empty() + pair_text(p);
        lemma_pair_segment(Seq::empty(), p);
        assert(q0 =~= q);
        assert(q0 == q);
        lemma_rfind_in(q, 38, 0, q.len() as int);
        assert(query_map(q) == Map::<Seq<u8>, Seq<u8>>::empty().insert(p.0, p.1));
        assert(ps.drop_last() =~= Seq::empty());
        assert(pairs_map(ps.drop_last()) == Map::<Seq<u8>, Seq<u8>>::empty());
        assert(query_map(q) =~= pairs_map(ps));
    } else {
        let t = ps.drop_last();
        let p = ps.last();
        let q1 = join_query(t);
        let pre = q1 + seq![38u8];
        let l = q1.len() as int;
        assert(q =~= pre + pair_text(p));
        lemma_pair_segment(pre, p);
        assert(q[l] == 38);
        lemma_rfind_in(q, 38, l + 1, q.len() as int);
        assert(q.subrange(0, l) =~= q1.subrange(0, l));
        lemma_query_upto_prefix(q, q1, l);
        lemma_join_query(t);
        assert(query_map(q) =~= pairs_map(ps));
    }
}

/// For a query string `k1=v1&k2=v2&...` whose keys hold no `&` or `=` and
/// whose values hold no `&`, the query mapping holds exactly the keys that
/// occur, each with the last value given for it, byte for byte.
pub proof fn law_query_last_value_wins(ps: Seq<(Seq<u8>, Seq<u8>)>)
    requires
        forall|i: int| 0 <= i < ps.len() ==> plain_pair(ps[i]),
    ensures
        query_map(join_query(ps)) == pairs_map(ps),
        forall|k: Seq<u8>|
            query_map(join_query(ps)).contains_key(k) <==> exists|i: int|
                0 <= i < ps.len() && ps[i].0 == k,
        forall|j: int|
            0 <= j < ps.len() && (forall|l: int| j < l < ps.len() ==> ps[l].0 != ps[j].0)
                ==> query_map(join_query(ps)).contains_key(ps[j].0) && query_map(
                join_query(ps),
            )[ps[j].0] == ps[j].1,
{
    lemma_join_query(ps);
    assert forall|k: Seq<u8>|
        query_map(join_query(ps)).contains_key(k) <==> exists|i: int|
            0 <= i < ps.len() && ps[i].0 == k by {
        lemma_pairs_map_keys(ps, k);
    }
    assert forall|j: int|
        0 <= j < ps.len() && (forall|l: int| j < l < ps.len() ==> ps[l].0 != ps[j].0)
            implies query_map(join_query(ps)).contains_key(ps[j].0) && query_map(
            join_query(ps),
        )[ps[j].0] == ps[j].1 by {
        lemma_pairs_map_last(ps, j);
    }
}

/// The value of a header that starts at `v` in a line ending at `le`, with its
/// line break `\r\n` removed.
pub open spec fn value_end(s: Seq<u8>, v: int, le: int) -> int {
    if le - v >= 2 && s[le - 2] == 13 && s[le - 1] == 10 {
        le - 2
    } else {
        le
    }
}

/// Adds the header of the line `s[i..le]`, split at its first `": "`; a line
/// without it adds nothing.
pub open spec fn add_header(m: Map<Seq<u8>, Seq<u8>>, s: Seq<u8>, i: int, le: int) -> Map<
    Seq<u8>,
    Seq<u8>,
> {
    let j = find_colon(s, i, le);
    if j < le {
        m.insert(s.subrange(i, j), s.subrange(j + 2, value_end(s, j + 2, le)))
    } else {
        m
    }
}

/// Adds the headers of the lines from `i` up to `p` to `m`.
pub open spec fn header_from(s: Seq<u8>, i: int, p: int, m: Map<Seq<u8>, Seq<u8>>) -> Map<
    Seq<u8>,
    Seq<u8>,
>
    decreases p - i,
{
    if i >= p {
        m
    } else {
        let le = line_end(s, i, p);
        let m2 = add_header(m, s, i, le);
        if le <= i {
            m2
        } else {
            header_from(s, le, p, m2)
        }
    }
}

/// The start of the first line from `i` on that is exactly `\r\n`; `at_start`
/// tells whether `i` starts a line.
pub open spec fn blank_from(s: Seq<u8>, i: int, at_start: bool) -> Option<int>
    decreases s.len() - i,
{
    if i < 0 || i >= s.len() {
        None
    } else if at_start && i + 1 < s.len() && s[i] == 13 && s[i + 1] == 10 {
        Some(i)
    } else {
        blank_from(s, i + 1, s[i] == 10)
    }
}

/// Why a request could not be parsed.
#[derive(Debug, Clone, Copy, PartialEq, Eq, Structural)]
pub enum ParseError {
    /// The bytes are not UTF-8.
    InvalidText,
    /// The request line holds no method.
    MissingMethod,
    /// The request line holds no request target.
    MissingTarget,
    /// No blank line ends the headers.
    MissingBlankLine,
}

/// A parsed request, as byte strings and mappings.
pub struct RequestView {
    pub method: Seq<u8>,
    pub path: Seq<u8>,
    pub headers: Map<Seq<u8>, Seq<u8>>,
    pub query: Map<Seq<u8>, Seq<u8>>,
    pub content: Seq<u8>,
}

/// What a request's bytes parse to.
///
/// The first line is the request line: its first whitespace-separated token
/// is the method, its second the target. The target splits at its first `?`
/// into the path and the query string. The lines after it, up to the first
/// line that is exactly `\r\n`, are headers; what follows that line is the
/// body.
pub open spec fn parse_request(b: Seq<u8>) -> Result<RequestView, ParseError> {
    let n = b.len() as int;
    let rl = line_end(b, 0, n);
    let m0 = skip_ws(b, 0, rl);
    let m1 = skip_token(b, m0, rl);
    let t0 = skip_ws(b, m1, rl);
    let t1 = skip_token(b, t0, rl);
    if !valid_utf8(b) {
        Err(ParseError::InvalidText)
    } else if m1 == m0 {
        Err(ParseError::MissingMethod)
    } else if t1 == t0 {
        Err(ParseError::MissingTarget)
    } else {
        match blank_from(b, rl, true) {
            None => Err(ParseError::MissingBlankLine),
            Some(p) => {
                let qm = find_in(b, 63, t0, t1);
                Ok(
                    RequestView {
                        method: b.subrange(m0, m1),
                        path: b.subrange(t0, qm),
                        headers: header_from(b, rl, p, Map::empty()),
                        query: if qm < t1 {
                            query_map(b.subrange(qm + 1, t1))
                        } else {
                            Map::empty()
                        },
                        content: b.subrange(p + 2, n),
                    },
                )
            },
        }
    }
}

/// A request received on one connection. Header and query mappings hold each
/// key once, the last value seen for it.
#[derive(Debug)]
pub struct Request {
    pub method: Vec<u8>,
    pub path: Vec<u8>,
    pub headers: Vec<(Vec<u8>, Vec<u8>)>,
    pub query: Vec<(Vec<u8>, Vec<u8>)>,
    pub content: Vec<u8>,
}

impl View for Request {
    type V = RequestView;

    open spec fn view(&self) -> RequestView {
        RequestView {
            method: self.method@,
            path: self.path@,
            headers: pairs_map(bytes_pairs(self.headers@)),
            query: pairs_map(bytes_pairs(self.query@)),
            content: self.content@,
        }
    }
}

impl Request {
    /// Each key occurs once in each mapping.
    pub open spec fn wf(&self) -> bool {
        keys_unique(bytes_pairs(self.headers@)) && keys_unique(bytes_pairs(self.query@))
    }

    /// Parses the bytes received on a connection.
    pub fn new(received: &[u8]) -> (r: Result<Request, ParseError>)
        ensures
            match (r, parse_request(received@)) {
                (Ok(req), Ok(v)) => req@ == v && req.wf(),
                (Err(e), Err(f)) => e == f,
                _ => false,
            },
    {
        let n = received.len();
        let rl = line_end_exec(received, 0, n);
        let m0 = skip_ws_exec(received, 0, rl);
        let m1 = skip_token_exec(received, m0, rl);
        let t0 = skip_ws_exec(received, m1, rl);
        let t1 = skip_token_exec(received, t0, rl);
        if !is_utf8(received) {
            return Err(ParseError::InvalidText);
        }
        if m1 == m0 {
            return Err(ParseError::MissingMethod);
        }
        if t1 == t0 {
            return Err(ParseError::MissingTarget);
        }
        let p = match blank_exec(received, rl) {
            None => {
                return Err(ParseError::MissingBlankLine);
            },
            Some(p) => p,
        };
        let qm = find_byte(received, 63, t0, t1);
        let query = if qm < t1 {
            let q = slice_subrange(received, qm + 1, t1);
            parse_query(q)
        } else {
            let empty: Vec<(Vec<u8>, Vec<u8>)> = Vec::new();
            proof {
                assert(bytes_pairs(empty@) =~= Seq::empty());
                assert(pairs_map(bytes_pairs(empty@)) =~= Map::empty());
            }
            empty
        };
        let headers = parse_headers(received, rl, p);
        let req = Request {
            method: slice_to_vec(slice_subrange(received, m0, m1)),
            path: slice_to_vec(slice_subrange(received, t0, qm)),
            headers,
            query,
            content: slice_to_vec(slice_subrange(received, p + 2, n)),
        };
        Ok(req)
    }
}

/// Relies on std::str::from_utf8: it succeeds exactly on well-formed UTF-8.
#[verifier::external_body]
fn is_utf8(b: &[u8]) -> (r: bool)
    ensures
        r == valid_utf8(b@),
{
    std::str::from_utf8(b).is_ok()
}

fn find_byte(b: &[u8], c: u8, i: usize, hi: usize) -> (r: usize)
    requires
        i <= hi <= b@.len(),
    ensures
        r == find_in(b@, c, i as int, hi as int),
        i <= r <= hi,
        forall|k: int| i <= k < r ==> b@[k] != c,
        r == hi || b@[r as int] == c,
{
    let mut j = i;
    while j < hi && b[j] != c
        invariant
            i <= j <= hi,
            hi <= b@.len(),
            forall|k: int| i <= k < j ==> b@[k] != c,
            find_in(b@, c, j as int, hi as int) == find_in(b@, c, i as int, hi as int),
        decreases hi - j,
    {
        j = j + 1;
    }
    j
}

fn line_end_exec(b: &[u8], i: usize, hi: usize) -> (r: usize)
    requires
        i <= hi <= b@.len(),
    ensures
        r == line_end(b@, i as int, hi as int),
        i <= r <= hi,
        i < hi ==> i < r,
{
    let nl = find_byte(b, 10, i, hi);
    if nl < hi {
        nl + 1
    } else {
        hi
    }
}

fn skip_ws_exec(b: &[u8], i: usize, hi: usize) -> (r: usize)
    requires
        i <= hi <= b@.len(),
    ensures
        r == skip_ws(b@, i as int, hi as int),
        i <= r <= hi,
{
    let mut j = i;
    while j < hi && (b[j] == 32 || b[j] == 9 || b[j] == 10 || b[j] == 12 || b[j] == 13)
        invariant
            i <= j <= hi,
            hi <= b@.len(),
            skip_ws(b@, j as int, hi as int) == skip_ws(b@, i as int, hi as int),
        decreases hi - j,
    {
        j = j + 1;
    }
    j
}

fn skip_token_exec(b: &[u8], i: usize, hi: usize) -> (r: usize)
    requires
        i <= hi <= b@.len(),
    ensures
        r == skip_token(b@, i as int, hi as int),
        i <= r <= hi,
{
    let mut j = i;
    while j < hi && !(b[j] == 32 || b[j] == 9 || b[j] == 10 || b[j] == 12 || b[j] == 13)
        invariant
            i <= j <= hi,
            hi <= b@.len(),
            skip_token(b@, j as int, hi as int) == skip_token(b@, i as int, hi as int),
        decreases hi - j,
    {
        j = j + 1;
    }
    j
}

fn find_colon_exec(b: &[u8], i: usize, hi: usize) -> (r: usize)
    requires
        i <= hi <= b@.len(),
    ensures
        r == find_colon(b@, i as int, hi as int),
        r == hi || (i <= r && r + 1 < hi),
{
    let mut j = i;
    while hi - j > 1 && !(b[j] == 58 && b[j + 1] == 32)
        invariant
            i <= j <= hi,
            hi <= b@.len(),
            find_colon(b@, j as int, hi as int) == find_colon(b@, i as int, hi as int),
        decreases hi - j,
    {
        j = j + 1;
    }
    if hi - j > 1 {
        j
    } else {
        hi
    }
}

fn blank_exec(b: &[u8], start: usize) -> (r: Option<usize>)
    requires
        start <= b@.len(),
    ensures
        blank_from(b@, start as int, true) == match r {
            Some(p) => Some(p as int),
            None => None::<int>,
        },
        r matches Some(p) ==> start <= p && p + 2 <= b@.len(),
{
    let n = b.len();
    let mut i = start;
    let mut at_start = true;
    while i < n
        invariant
            start <= i <= n,
            n == b@.len(),
            blank_from(b@, i as int, at_start) == blank_from(b@, start as int, true),
        decreases n - i,
    {
        if at_start && i + 1 < n && b[i] == 13 && b[i + 1] == 10 {
            return Some(i);
        }
        at_start = b[i] == 10;
        i = i + 1;
    }
    None
}

/// The query mapping of a raw query string: split on `&`, each segment split
/// at its first `=` (a segment without one is skipped), the last value of a
/// key kept, nothing decoded.
pub fn parse_query(q: &[u8]) -> (r: Vec<(Vec<u8>, Vec<u8>)>)
    ensures
        keys_unique(bytes_pairs(r@)),
        pairs_map(bytes_pairs(r@)) == query_map(q@),
{
    let n = q.len();
    let mut out: Vec<(Vec<u8>, Vec<u8>)> = Vec::new();
    let mut i: usize = 0;
    proof {
        assert(pairs_map(bytes_pairs(out@)) =~= Map::empty());
    }
    loop
        invariant
            i <= n,
            n == q@.len(),
            i == 0 || q@[i - 1] == 38,
            keys_unique(bytes_pairs(out@)),
            pairs_map(bytes_pairs(out@)) == if i == 0 {
                Map::empty()
            } else {
                query_upto(q@, i - 1)
            },
        decreases n - i,
    {
        let e = find_byte(q, 38, i, n);
        let j = find_byte(q, 61, i, e);
        proof {
            lemma_rfind_in(q@, 38, i as int, e as int);
        }
        if j < e {
            let k = slice_to_vec(slice_subrange(q, i, j));
            let v = slice_to_vec(slice_subrange(q, j + 1, e));
            insert_last_wins(&mut out, k, v);
        }
        if e >= n {
            return out;
        }
        i = e + 1;
    }
}

fn parse_headers(b: &[u8], start: usize, p: usize) -> (r: Vec<(Vec<u8>, Vec<u8>)>)
    requires
        start <= p <= b@.len(),
    ensures
        keys_unique(bytes_pairs(r@)),
        pairs_map(bytes_pairs(r@)) == header_from(b@, start as int, p as int, Map::empty()),
{
    let mut out: Vec<(Vec<u8>, Vec<u8>)> = Vec::new();
    let mut i = start;
    proof {
        assert(pairs_map(bytes_pairs(out@)) =~= Map::empty());
    }
    while i < p
        invariant
            start <= i <= p,
            p <= b@.len(),
            keys_unique(bytes_pairs(out@)),
            header_from(b@, i as int, p as int, pairs_map(bytes_pairs(out@))) == header_from(
                b@,
                start as int,
                p as int,
                Map::empty(),
            ),
        decreases p - i,
    {
        let le = line_end_exec(b, i, p);
        let j = find_colon_exec(b, i, le);
        if j < le {
            let v = j + 2;
            let ve = if le - v >= 2 && b[le - 2] == 13 && b[le - 1] == 10 {
                le - 2
            } else {
                le
            };
            let k = slice_to_vec(slice_subrange(b, i, j));
            let val = slice_to_vec(slice_subrange(b, v, ve));
            insert_last_wins(&mut out, k, val);
        }
        i = le;
    }
    out
}

} // verus!
