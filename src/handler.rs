use vstd::prelude::*;

use crate::mapping::{bytes_pairs, keys_unique, pairs_map};
use crate::request::{parse_request, Request, RequestView};
use crate::response::{decimal, default_headers, header_lines, status_text, wire, Response};

verus! {

/// The bytes of the method `GET`.
pub open spec fn get_method() -> Seq<u8> {
    seq![71u8, 69u8, 84u8]
}

/// The bytes of the path `/`.
pub open spec fn root_path() -> Seq<u8> {
    seq![47u8]
}

/// A request that completes the login: `GET /`.
pub open spec fn is_callback(v: RequestView) -> bool {
    v.method == get_method() && v.path == root_path()
}

/// The wire form of a response with the given status and an empty body.
pub open spec fn empty_response(status: nat) -> Seq<char> {
    wire(status_text(status), default_headers(0), Seq::empty())
}

/// The wire form of the answer to a request that could not be parsed.
pub open spec fn error_response() -> Seq<char> {
    wire(status_text(500), default_headers(5), "Error"@)
}

/// Every `GET /` gets this exact answer: `204 No Content` with
/// `Content-Length: 0` and no body.
pub proof fn law_callback_answer()
    ensures
        empty_response(204)
            == "HTTP/1.1 204 No Content\r\nContent-Type: plain/text\r\nContent-Length: 0\r\n\r\n"@,
{
    reveal_strlit("HTTP/1.1 204 No Content\r\nContent-Type: plain/text\r\nContent-Length: 0\r\n\r\n");
    reveal_strlit("HTTP/1.1 ");
    reveal_strlit("204 No Content");
    reveal_strlit("\r\n");
    reveal_strlit("Content-Type");
    reveal_strlit("plain/text");
    reveal_strlit("Content-Length");
    reveal_strlit(": ");
    let hs = default_headers(0);
    assert(hs.drop_last().drop_last() =~= Seq::empty());
    assert(header_lines(hs.drop_last().drop_last()) == Seq::<char>::empty());
    assert(hs.drop_last().last() == ("Content-Type"@, "plain/text"@));
    assert(header_lines(hs.drop_last()) =~= "Content-Type"@ + ": "@ + "plain/text"@ + "\r\n"@);
    assert(decimal(0) =~= seq!['0']);
    assert(header_lines(hs) =~= "Content-Type: plain/text\r\nContent-Length: 0\r\n"@) by {
        reveal_strlit("Content-Type: plain/text\r\nContent-Length: 0\r\n");
    }
    assert(empty_response(204)
        =~= "HTTP/1.1 204 No Content\r\nContent-Type: plain/text\r\nContent-Length: 0\r\n\r\n"@);
}

/// The answer to one connection's request, and the query mapping it
/// captured, if any.
#[derive(Debug)]
pub struct Outcome {
    pub response: String,
    pub captured: Option<Vec<(Vec<u8>, Vec<u8>)>>,
}

/// The answer to the bytes received on a connection: `204` with the query
/// captured for `GET /`, `400` for any other method or path, `500` with the
/// body `Error` for bytes that do not parse.
pub fn handle_request(received: &[u8]) -> (r: Outcome)
    ensures
        match parse_request(received@) {
            Err(_) => r.response@ == error_response() && r.captured is None,
            Ok(v) => if is_callback(v) {
                &&& r.response@ == empty_response(204)
                &&& r.captured matches Some(q)
                &&& keys_unique(bytes_pairs(q@))
                &&& pairs_map(bytes_pairs(q@)) == v.query
            } else {
                r.response@ == empty_response(400) && r.captured is None
            },
        },
{
    proof {
        reveal_strlit("");
        reveal_strlit("Error");
        vstd::utf8::is_ascii_chars_encode_utf8(""@);
        vstd::utf8::is_ascii_chars_encode_utf8("Error"@);
        assert(""@ =~= Seq::<char>::empty());
    }
    match Request::new(received) {
        Ok(req) => {
            if is_get(&req.method) && is_root(&req.path) {
                let res = Response::text(204, "", None);
                proof {
                    assert(res.headers_view() =~= default_headers(0));
                }
                Outcome { response: Response::resolve(&res), captured: Some(req.query) }
            } else {
                let res = Response::text(400, "", None);
                proof {
                    assert(res.headers_view() =~= default_headers(0));
                }
                Outcome { response: Response::resolve(&res), captured: None }
            }
        },
        Err(_) => {
            let res = Response::text(500, "Error", None);
            proof {
                assert(res.headers_view() =~= default_headers(5));
            }
            Outcome { response: Response::resolve(&res), captured: None }
        },
    }
}

fn is_get(m: &Vec<u8>) -> (r: bool)
    ensures
        r == (m@ == get_method()),
{
    let r = m.len() == 3 && m[0] == 71 && m[1] == 69 && m[2] == 84;
    proof {
        if r {
            assert(m@ =~= get_method());
        }
    }
    r
}

fn is_root(p: &Vec<u8>) -> (r: bool)
    ensures
        r == (p@ == root_path()),
{
    let r = p.len() == 1 && p[0] == 47;
    proof {
        if r {
            assert(p@ =~= root_path());
        }
    }
    r
}

} // verus!
