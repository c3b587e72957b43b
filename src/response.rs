use vstd::prelude::*;

verus! {

/// The character of a decimal digit.
pub open spec fn digit_char(d: nat) -> char {
    if d == 0 { '0' }
    else if d == 1 { '1' }
    else if d == 2 { '2' }
    else if d == 3 { '3' }
    else if d == 4 { '4' }
    else if d == 5 { '5' }
    else if d == 6 { '6' }
    else if d == 7 { '7' }
    else if d == 8 { '8' }
    else { '9' }
}

/// Decimal notation of a natural number, without leading zeros.
pub open spec fn decimal(n: nat) -> Seq<char>
    decreases n,
{
    if n < 10 {
        seq![digit_char(n)]
    } else {
        decimal(n / 10) + seq![digit_char(n % 10)]
    }
}

/// The status text of the status line: a fixed reason phrase for the known
/// codes, `<code> Unknown` for any other.
pub open spec fn status_text(status: nat) -> Seq<char> {
    if status == 200 {
        "200 Ok"@
    } else if status == 204 {
        "204 No Content"@
    } else if status == 400 {
        "400 Bad Request"@
    } else if status == 500 {
        "500 Internal Server Error"@
    } else {
        decimal(status) + " Unknown"@
    }
}

/// The header lines `Key: Value\r\n` of a header list, in order.
pub open spec fn header_lines(hs: Seq<(Seq<char>, Seq<char>)>) -> Seq<char>
    decreases hs.len(),
{
    if hs.len() == 0 {
        Seq::empty()
    } else {
        let h = hs.last();
        header_lines(hs.drop_last()) + h.0 + ": "@ + h.1 + "\r\n"@
    }
}

/// The wire form of a response.
pub open spec fn wire(status: Seq<char>, hs: Seq<(Seq<char>, Seq<char>)>, body: Seq<char>) -> Seq<
    char,
> {
    "HTTP/1.1 "@ + status + "\r\n"@ + header_lines(hs) + "\r\n"@ + body
}

/// The headers every response starts with.
pub open spec fn default_headers(body_len: nat) -> Seq<(Seq<char>, Seq<char>)> {
    seq![("Content-Type"@, "plain/text"@), ("Content-Length"@, decimal(body_len))]
}

/// The text view of a list of string pairs.
pub open spec fn pairs_view(v: Seq<(String, String)>) -> Seq<(Seq<char>, Seq<char>)> {
    v.map_values(|p: (String, String)| (p.0@, p.1@))
}

/// An HTTP/1.1 response: status text, headers in order (duplicates allowed)
/// and a body.
#[derive(Debug)]
pub struct Response {
    status_text: String,
    headers: Vec<(String, String)>,
    body: String,
}

impl Response {
    /// The status text, as in the status line.
    pub closed spec fn status_view(&self) -> Seq<char> {
        self.status_text@
    }

    /// The headers, in order.
    pub closed spec fn headers_view(&self) -> Seq<(Seq<char>, Seq<char>)> {
        pairs_view(self.headers@)
    }

    /// The body.
    pub closed spec fn body_view(&self) -> Seq<char> {
        self.body@
    }

    /// Builds a plain-text response: `Content-Type` and `Content-Length`
    /// (the byte length of `body`) come first, then the extra headers.
    pub fn text(status: u16, body: &str, headers: Option<Vec<(String, String)>>) -> (r: Response)
        ensures
            r.status_view() == status_text(status as nat),
            r.headers_view() == default_headers(body.len() as nat) + match headers {
                Some(h) => pairs_view(h@),
                None => Seq::empty(),
            },
            r.body_view() == body@,
    {
        let content_len = body.len();
        let mut all: Vec<(String, String)> = Vec::new();
        all.push((String::from_str("Content-Type"), String::from_str("plain/text")));
        all.push((String::from_str("Content-Length"), decimal_string(content_len)));
        proof {
            reveal_strlit("Content-Type");
            reveal_strlit("plain/text");
            reveal_strlit("Content-Length");
            assert(pairs_view(all@) =~= default_headers(content_len as nat));
        }
        match headers {
            Some(extra) => {
                let ghost start = pairs_view(all@);
                let mut i: usize = 0;
                while i < extra.len()
                    invariant
                        i <= extra.len(),
                        headers == Some(extra),
                        start == default_headers(body.len() as nat),
                        pairs_view(all@) == start + pairs_view(extra@).subrange(0, i as int),
                    decreases extra.len() - i,
                {
                    let ghost prev = all@;
                    let k = extra[i].0.clone();
                    let v = extra[i].1.clone();
                    all.push((k, v));
                    proof {
                        assert(all@ == prev.push((k, v)));
                        assert(pairs_view(all@) =~= pairs_view(prev).push((k@, v@)));
                        assert(pairs_view(extra@).subrange(0, i + 1) =~= pairs_view(extra@).subrange(
                            0,
                            i as int,
                        ).push((k@, v@)));
                    }
                    i = i + 1;
                }
                proof {
                    assert(pairs_view(extra@).subrange(0, i as int) =~= pairs_view(extra@));
                }
            },
            None => {
                proof {
                    assert(pairs_view(all@) =~= pairs_view(all@) + Seq::<(Seq<char>, Seq<char>)>::empty());
                }
            },
        }
        Response { status_text: status_string(status), headers: all, body: String::from_str(body) }
    }

    /// Serialises a response: the status line, each header as `Key: Value`,
    /// a blank line, then the body verbatim.
    pub fn resolve(response: &Response) -> (r: String)
        ensures
            r@ == wire(response.status_view(), response.headers_view(), response.body_view()),
    {
        let mut out = String::from_str("HTTP/1.1 ");
        out.append(response.status_text.as_str());
        out.append("\r\n");
        let ghost head = out@;
        let mut i: usize = 0;
        while i < response.headers.len()
            invariant
                i <= response.headers.len(),
                out@ == head + header_lines(pairs_view(response.headers@).subrange(0, i as int)),
            decreases response.headers.len() - i,
        {
            let ghost before = pairs_view(response.headers@).subrange(0, i as int);
            out.append(response.headers[i].0.as_str());
            out.append(": ");
            out.append(response.headers[i].1.as_str());
            out.append("\r\n");
            proof {
                let now = pairs_view(response.headers@).subrange(0, i + 1);
                assert(now.drop_last() =~= before);
            }
            i = i + 1;
        }
        proof {
            assert(pairs_view(response.headers@).subrange(0, i as int)
                =~= pairs_view(response.headers@));
        }
        out.append("\r\n");
        out.append(response.body.as_str());
        proof {
            reveal_strlit("HTTP/1.1 ");
            reveal_strlit("\r\n");
        }
        out
    }
}

fn digit_str(d: usize) -> (r: &'static str)
    requires
        d < 10,
    ensures
        r@ == seq![digit_char(d as nat)],
{
    let r = if d == 0 { "0" }
    else if d == 1 { "1" }
    else if d == 2 { "2" }
    else if d == 3 { "3" }
    else if d == 4 { "4" }
    else if d == 5 { "5" }
    else if d == 6 { "6" }
    else if d == 7 { "7" }
    else if d == 8 { "8" }
    else { "9" };
    proof {
        reveal_strlit("0");
        reveal_strlit("1");
        reveal_strlit("2");
        reveal_strlit("3");
        reveal_strlit("4");
        reveal_strlit("5");
        reveal_strlit("6");
        reveal_strlit("7");
        reveal_strlit("8");
        reveal_strlit("9");
    }
    r
}

fn push_decimal(out: &mut String, n: usize)
    ensures
        final(out)@ == old(out)@ + decimal(n as nat),
    decreases n,
{
    if n >= 10 {
        push_decimal(out, n / 10);
    }
    out.append(digit_str(n % 10));
}

/// Decimal notation of `n`.
pub fn decimal_string(n: usize) -> (r: String)
    ensures
        r@ == decimal(n as nat),
{
    let mut out = String::new();
    push_decimal(&mut out, n);
    out
}

/// The status text for `status`.
pub fn status_string(status: u16) -> (r: String)
    ensures
        r@ == status_text(status as nat),
{
    let r = if status == 200 {
        String::from_str("200 Ok")
    } else if status == 204 {
        String::from_str("204 No Content")
    } else if status == 400 {
        String::from_str("400 Bad Request")
    } else if status == 500 {
        String::from_str("500 Internal Server Error")
    } else {
        let mut s = decimal_string(status as usize);
        s.append(" Unknown");
        s
    };
    proof {
        reveal_strlit("200 Ok");
        reveal_strlit("204 No Content");
        reveal_strlit("400 Bad Request");
        reveal_strlit("500 Internal Server Error");
        reveal_strlit(" Unknown");
    }
    r
}

} // verus!
