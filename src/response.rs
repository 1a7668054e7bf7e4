//! The response a handler fills in, and its framing on the wire.
use vstd::prelude::*;
use vstd::utf8::encode_utf8;

verus! {

/// A response as plain values.
pub struct ResponseModel {
    pub status: u16,
    pub headers: Seq<Seq<char>>,
    pub body: Option<Seq<char>>,
}

/// The response that a handler fills in.
pub struct Response {
    pub status: u16,
    pub headers: Vec<String>,
    pub body: Option<String>,
}

impl View for Response {
    type V = ResponseModel;

    open spec fn view(&self) -> ResponseModel {
        ResponseModel {
            status: self.status,
            headers: self.headers@.map_values(|h: String| h@),
            body: match self.body {
                Some(b) => Some(b@),
                None => None,
            },
        }
    }
}

/// A status code that HTTP defines a class for.
pub open spec fn valid_status(s: u16) -> bool {
    100 <= s <= 599
}

/// The reason phrase sent after a status code.
pub open spec fn reason_text(s: u16) -> Seq<char> {
    if s == 200 {
        "OK"@
    } else if s == 201 {
        "Created"@
    } else if s == 204 {
        "No Content"@
    } else if s == 301 {
        "Moved Permanently"@
    } else if s == 302 {
        "Found"@
    } else if s == 304 {
        "Not Modified"@
    } else if s == 400 {
        "Bad Request"@
    } else if s == 401 {
        "Unauthorized"@
    } else if s == 403 {
        "Forbidden"@
    } else if s == 404 {
        "Not Found"@
    } else if s == 405 {
        "Method Not Allowed"@
    } else if s == 500 {
        "Internal Server Error"@
    } else if s == 503 {
        "Service Unavailable"@
    } else if s < 200 {
        "Informational"@
    } else if s < 300 {
        "Success"@
    } else if s < 400 {
        "Redirection"@
    } else if s < 500 {
        "Client Error"@
    } else {
        "Server Error"@
    }
}

/// The reason phrase for a status code: the registered phrase of the
/// common codes, else the name of the code's class.
pub fn reason_phrase(s: u16) -> (r: &'static str)
    ensures
        r@ == reason_text(s),
{
    if s == 200 {
        "OK"
    } else if s == 201 {
        "Created"
    } else if s == 204 {
        "No Content"
    } else if s == 301 {
        "Moved Permanently"
    } else if s == 302 {
        "Found"
    } else if s == 304 {
        "Not Modified"
    } else if s == 400 {
        "Bad Request"
    } else if s == 401 {
        "Unauthorized"
    } else if s == 403 {
        "Forbidden"
    } else if s == 404 {
        "Not Found"
    } else if s == 405 {
        "Method Not Allowed"
    } else if s == 500 {
        "Internal Server Error"
    } else if s == 503 {
        "Service Unavailable"
    } else if s < 200 {
        "Informational"
    } else if s < 300 {
        "Success"
    } else if s < 400 {
        "Redirection"
    } else if s < 500 {
        "Client Error"
    } else {
        "Server Error"
    }
}

/// The character of a decimal digit.
pub open spec fn digit_char(d: nat) -> char {
    if d == 0 {
        '0'
    } else if d == 1 {
        '1'
    } else if d == 2 {
        '2'
    } else if d == 3 {
        '3'
    } else if d == 4 {
        '4'
    } else if d == 5 {
        '5'
    } else if d == 6 {
        '6'
    } else if d == 7 {
        '7'
    } else if d == 8 {
        '8'
    } else {
        '9'
    }
}

/// A number in decimal, without leading zeros.
pub open spec fn decimal(n: nat) -> Seq<char>
    decreases n,
{
    if n < 10 {
        seq![digit_char(n)]
    } else {
        decimal(n / 10) + seq![digit_char(n % 10)]
    }
}

fn digit_str(d: usize) -> (r: &'static str)
    requires
        d < 10,
    ensures
        r@ == seq![digit_char(d as nat)],
{
    proof {
        reveal_strlit("0");
        reveal_strlit("1");
        reveal_strlit("2");
        reveal_strlit("3");
        reveal_strlit("4");
        reveal_strlit("5");
        reveal_strlit("6");
        reveal_strlit("7");
        reveal_strlit("8");
        reveal_strlit("9");
    }
    if d == 0 {
        "0"
    } else if d == 1 {
        "1"
    } else if d == 2 {
        "2"
    } else if d == 3 {
        "3"
    } else if d == 4 {
        "4"
    } else if d == 5 {
        "5"
    } else if d == 6 {
        "6"
    } else if d == 7 {
        "7"
    } else if d == 8 {
        "8"
    } else {
        "9"
    }
}

/// Writes a number in decimal.
pub fn decimal_string(n: usize) -> (r: String)
    ensures
        r@ == decimal(n as nat),
{
    let mut acc = digit_str(n % 10).to_owned();
    let mut m: usize = n / 10;
    while m > 0
        invariant
            decimal(n as nat) == (if m == 0 {
                Seq::<char>::empty()
            } else {
                decimal(m as nat)
            }) + acc@,
        decreases m,
    {
        let d = digit_str(m % 10);
        let ghost prev = acc@;
        acc = d.to_owned().concat(acc.as_str());
        assert(decimal(m as nat) == (if m / 10 == 0 {
            Seq::<char>::empty()
        } else {
            decimal((m / 10) as nat)
        }) + seq![digit_char((m % 10) as nat)]);
        m = m / 10;
    }
    assert(decimal(n as nat) =~= acc@);
    acc
}

/// Header lines, each followed by CR LF.
pub open spec fn header_block(hs: Seq<Seq<char>>) -> Seq<char>
    decreases hs.len(),
{
    if hs.len() == 0 {
        Seq::empty()
    } else {
        header_block(hs.drop_last()) + hs.last() + seq!['\r', '\n']
    }
}

/// The number of bytes in the UTF-8 encoding of a body.
pub open spec fn body_bytes(body: Seq<char>) -> nat {
    (encode_utf8(body).len() as usize) as nat
}

/// The response on the wire: status line, the body's length in bytes, the
/// handler's headers, a blank line, and the body as it is.
pub open spec fn wire_text(r: ResponseModel) -> Seq<char> {
    let body = match r.body {
        Some(b) => b,
        None => Seq::empty(),
    };
    "HTTP/1.1 "@ + decimal(r.status as nat) + seq![' '] + reason_text(r.status) + seq!['\r', '\n']
        + "Content-Length: "@ + decimal(body_bytes(body)) + seq!['\r', '\n'] + header_block(
        r.headers,
    ) + seq!['\r', '\n'] + body
}

impl Response {
    /// A response with the given status and body and no headers.
    pub fn new(status: u16, body: Option<String>) -> (r: Response)
        requires
            valid_status(status),
        ensures
            r@ == (ResponseModel {
                status,
                headers: Seq::empty(),
                body: match body {
                    Some(b) => Some(b@),
                    None => None,
                },
            }),
    {
        let r = Response { status, headers: Vec::new(), body };
        assert(r@.headers =~= Seq::<Seq<char>>::empty());
        r
    }

    /// The response a parsed request starts with: status 200, nothing else.
    pub fn ok() -> (r: Response)
        ensures
            r@ == (ResponseModel { status: 200, headers: Seq::empty(), body: None }),
    {
        Response::new(200, None)
    }

    /// The response sent when no route matches: status 404, no body.
    pub fn not_found() -> (r: Response)
        ensures
            r@ == (ResponseModel { status: 404, headers: Seq::empty(), body: None }),
    {
        Response::new(404, None)
    }

    /// Sets the status and returns it.
    pub fn set_status(&mut self, value: u16) -> (r: u16)
        requires
            valid_status(value),
        ensures
            r == value,
            final(self)@ == (ResponseModel { status: value, ..old(self)@ }),
    {
        self.status = value;
        self.status
    }

    /// Appends the header line `header: value`.
    pub fn set_headers(&mut self, header: String, value: &str)
        ensures
            final(self)@ == (ResponseModel {
                headers: old(self)@.headers.push(header@ + ": "@ + value@),
                ..old(self)@
            }),
    {
        let mut line = header;
        line.append(": ");
        line.append(value);
        self.headers.push(line);
        assert(self@.headers =~= old(self)@.headers.push(header@ + ": "@ + value@));
    }

    /// Sets the body.
    pub fn send(&mut self, content: &str)
        ensures
            final(self)@ == (ResponseModel { body: Some(content@), ..old(self)@ }),
    {
        self.body = Some(content.to_owned());
    }

    /// The response as it is written back to the client.
    pub fn serialize(&self) -> (r: String)
        ensures
            r@ == wire_text(self@),
    {
        let empty = String::new();
        let body: &str = match &self.body {
            Some(b) => b.as_str(),
            None => empty.as_str(),
        };
        let mut out = "HTTP/1.1 ".to_owned();
        let code = decimal_string(self.status as usize);
        out.append(code.as_str());
        out.append(" ");
        out.append(reason_phrase(self.status));
        out.append("\r\n");
        out.append("Content-Length: ");
        let len = decimal_string(body.len());
        out.append(len.as_str());
        out.append("\r\n");
        proof {
            reveal_strlit(" ");
            reveal_strlit("\r\n");
        }
        let ghost bm = match self@.body {
            Some(b) => b,
            None => Seq::<char>::empty(),
        };
        assert(body@ == bm);
        assert(body.len() == encode_utf8(bm).len() as usize);
        let ghost start = out@;
        assert(start =~= "HTTP/1.1 "@ + decimal(self.status as nat) + seq![' '] + reason_text(
            self.status,
        ) + seq!['\r', '\n'] + "Content-Length: "@ + decimal(body_bytes(bm)) + seq![
            '\r',
            '\n',
        ]);
        let ghost hs = self@.headers;
        let mut k: usize = 0;
        while k < self.headers.len()
            invariant
                hs == self@.headers,
                k <= hs.len(),
                out@ == start + header_block(hs.subrange(0, k as int)),
            decreases self.headers.len() - k,
        {
            let ghost prev = out@;
            out.append(self.headers[k].as_str());
            out.append("\r\n");
            proof {
                reveal_strlit("\r\n");
                assert(hs.subrange(0, k + 1).drop_last() =~= hs.subrange(0, k as int));
                assert(hs[k as int] == self.headers@[k as int]@);
                assert(out@ =~= start + header_block(hs.subrange(0, k + 1)));
            }
            k = k + 1;
        }
        out.append("\r\n");
        out.append(body);
        assert(hs.subrange(0, hs.len() as int) =~= hs);
        assert(out@ =~= wire_text(self@));
        out
    }
}

impl Default for Response {
    /// Status 200, no headers, no body.
    fn default() -> (r: Response)
        ensures
            r@ == (ResponseModel { status: 200, headers: Seq::empty(), body: None }),
    {
        Response::ok()
    }
}

} // verus!
