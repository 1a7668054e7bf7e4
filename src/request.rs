//! The structured request, and the parser that reads one request message
//! (head, then an optional body of the declared length) from the bytes
//! that a connection delivered.
use crate::head::{head_end, head_model, parse_head, HeadModel, ParseError};
use crate::uri::{parse_uri, uri_parts, QueryPair, QueryParams};
use vstd::prelude::*;

verus! {

/// A request as plain values.
pub struct RequestModel {
    pub method: Seq<char>,
    pub path: Seq<char>,
    pub query: Seq<QueryPair>,
    pub headers: Seq<Seq<char>>,
    pub body: Option<Seq<u8>>,
}

/// The structured request from the client.
#[derive(Debug)]
pub struct Request {
    pub method: String,
    pub path: String,
    pub query_params: QueryParams,
    pub headers: Vec<String>,
    pub body: Option<Vec<u8>>,
}

impl View for Request {
    type V = RequestModel;

    open spec fn view(&self) -> RequestModel {
        RequestModel {
            method: self.method@,
            path: self.path@,
            query: self.query_params@,
            headers: self.headers@.map_values(|h: String| h@),
            body: match self.body {
                Some(b) => Some(b@),
                None => None,
            },
        }
    }
}

/// The request and the number of bytes it takes up at the start of `d`:
/// the head, the blank line that closes it, and the declared body.
pub open spec fn parse_message(d: Seq<u8>) -> Result<(RequestModel, int), ParseError> {
    match head_model(d) {
        Err(e) => Err(e),
        Ok(hd) => {
            let start = hd.end + 2;
            if start + hd.length > d.len() {
                Err(ParseError::TruncatedBody)
            } else {
                Ok(
                    (
                        RequestModel {
                            method: hd.method,
                            path: uri_parts(hd.target).0,
                            query: uri_parts(hd.target).1,
                            headers: hd.headers,
                            body: if hd.length > 0 {
                                Some(d.subrange(start, start + hd.length))
                            } else {
                                None
                            },
                        },
                        start + hd.length,
                    ),
                )
            }
        },
    }
}

impl Request {
    /// A request without a body.
    pub fn new(method: String, path: String, query_params: QueryParams, headers: Vec<String>) -> (r:
        Request)
        ensures
            r@ == (RequestModel {
                method: method@,
                path: path@,
                query: query_params@,
                headers: headers@.map_values(|h: String| h@),
                body: None,
            }),
    {
        Request { method, path, query_params, headers, body: None }
    }

    /// The raw header lines, in the order received.
    pub fn get_headers(&self) -> (r: &Vec<String>)
        ensures
            r@.map_values(|h: String| h@) == self@.headers,
    {
        &self.headers
    }

    /// The body, present only when the declared length was positive.
    pub fn body(&self) -> (r: Option<&Vec<u8>>)
        ensures
            r matches Some(b) ==> self@.body == Some(b@),
            r is None ==> self@.body is None,
    {
        match &self.body {
            Some(b) => Some(b),
            None => None,
        }
    }
}

/// The number of body bytes that the head at the start of `d` declares.
/// A reader calls this once the blank line has arrived, to know how many
/// bytes to read next.
pub fn body_length(d: &Vec<u8>) -> (r: Result<usize, ParseError>)
    ensures
        r matches Ok(n) ==> head_model(d@) matches Ok(hd) && hd.length == n,
        r matches Err(e) ==> head_model(d@) == Err::<HeadModel, ParseError>(e),
{
    match parse_head(d) {
        Ok(h) => Ok(h.length),
        Err(e) => Err(e),
    }
}

/// Parses one request message from the start of `d`, returning the request
/// and how many bytes of `d` it took up: exactly the head, its closing
/// blank line and the declared body, and nothing more.
pub fn parse_request(d: &Vec<u8>) -> (r: Result<(Request, usize), ParseError>)
    ensures
        r matches Ok((q, n)) ==> parse_message(d@) == Ok::<(RequestModel, int), ParseError>(
            (q@, n as int),
        ),
        r matches Err(e) ==> parse_message(d@) == Err::<(RequestModel, int), ParseError>(e),
        r matches Ok((q, n)) ==> head_end(d@) matches Some(h) && head_model(d@) matches Ok(hd)
            && n == h + 2 + hd.length && n <= d@.len(),
{
    let head = match parse_head(d) {
        Ok(h) => h,
        Err(e) => return Err(e),
    };
    let total = d.len();
    assert(head.end + 2 <= total);
    let start = head.end + 2;
    if head.length > total - start {
        return Err(ParseError::TruncatedBody);
    }
    let stop = start + head.length;
    let body = if head.length > 0 {
        let mut b: Vec<u8> = Vec::new();
        let mut i: usize = start;
        while i < stop
            invariant
                start <= i <= stop <= d@.len(),
                b@ == d@.subrange(start as int, i as int),
            decreases stop - i,
        {
            b.push(d[i]);
            i = i + 1;
        }
        Some(b)
    } else {
        None
    };
    let (path, query_params) = match parse_uri(head.target.as_str()) {
        Ok(parts) => parts,
        Err(_) => return Err(ParseError::MalformedRequestLine),
    };
    let q = Request { method: head.method, path, query_params, headers: head.headers, body };
    Ok((q, stop))
}

} // verus!
