//! Pieces of the request head: where it ends in the byte stream, how it
//! splits into lines, the request line, and the declared body length.
use crate::text::{
    char_fold_eq, chars_of, find_char, first_index, fold_eq, lemma_first_index_facts, lemma_split_nonempty, split,
    split_str,
};
use vstd::prelude::*;
use vstd::utf8::{decode_utf8, valid_utf8};

verus! {

/// Why a request message could not be parsed.
#[derive(Debug, Clone, Copy, PartialEq, Eq, Structural)]
pub enum ParseError {
    /// The stream ended before the blank line that closes the head.
    UnexpectedEof,
    /// The head is not valid UTF-8.
    InvalidText,
    /// The request line has fewer than two space-separated tokens.
    MalformedRequestLine,
    /// The `Content-Length` value is not a non-negative integer that fits.
    BadContentLength,
    /// The stream ended before the declared body was complete.
    TruncatedBody,
}

/// Scans lines of `d` (each ending in LF); `ls` is where the current line
/// started. Yields the start of the first line that is exactly CR LF.
pub open spec fn head_scan(d: Seq<u8>, ls: int, i: int) -> Option<int>
    decreases d.len() - i,
{
    if i < 0 || i >= d.len() {
        None
    } else if d[i] == 10 {
        if i == ls + 1 && 0 <= ls && d[ls] == 13 {
            Some(ls)
        } else {
            head_scan(d, i + 1, i + 1)
        }
    } else {
        head_scan(d, ls, i + 1)
    }
}

/// The length of the head text: everything before the blank line.
pub open spec fn head_end(d: Seq<u8>) -> Option<int> {
    head_scan(d, 0, 0)
}

/// Finds the blank line (CR LF) that closes the head of `d`.
pub fn find_head_end(d: &Vec<u8>) -> (r: Option<usize>)
    ensures
        r matches Some(h) ==> head_end(d@) == Some(h as int) && h + 2 <= d@.len(),
        r is None ==> head_end(d@) == None::<int>,
{
    let mut ls: usize = 0;
    let mut i: usize = 0;
    while i < d.len()
        invariant
            ls <= i <= d@.len(),
            head_scan(d@, ls as int, i as int) == head_end(d@),
        decreases d.len() - i,
    {
        if d[i] == 10 {
            if i == ls + 1 && d[ls] == 13 {
                return Some(ls);
            }
            ls = i + 1;
        }
        i = i + 1;
    }
    None
}

/// Spaces and tabs, the optional whitespace around header values.
pub open spec fn is_ows(c: char) -> bool {
    c == ' ' || c == '\t'
}

/// The first position at or after `i` that holds no optional whitespace.
pub open spec fn skip_ows(s: Seq<char>, i: int) -> int
    decreases s.len() - i,
{
    if 0 <= i < s.len() && is_ows(s[i]) {
        skip_ows(s, i + 1)
    } else {
        i
    }
}

/// The end of `s[lo..j]` once trailing optional whitespace is removed.
pub open spec fn back_ows(s: Seq<char>, lo: int, j: int) -> int
    decreases j - lo,
{
    if lo < j <= s.len() && is_ows(s[j - 1]) {
        back_ows(s, lo, j - 1)
    } else {
        j
    }
}

/// `s[from..]` without leading and trailing spaces and tabs.
pub open spec fn trim_from(s: Seq<char>, from: int) -> Seq<char> {
    let a = skip_ows(s, from);
    s.subrange(a, back_ows(s, a, s.len() as int))
}

pub open spec fn is_digit(c: char) -> bool {
    '0' <= c <= '9'
}

/// The number that a string of decimal digits denotes.
pub open spec fn digits_value(s: Seq<char>) -> nat
    decreases s.len(),
{
    if s.len() == 0 {
        0
    } else {
        digits_value(s.drop_last()) * 10 + ((s.last() as u32) - ('0' as u32)) as nat
    }
}

proof fn lemma_digits_grow(s: Seq<char>, i: int, j: int)
    requires
        0 <= i <= j <= s.len(),
        forall|k: int| 0 <= k < s.len() ==> is_digit(#[trigger] s[k]),
    ensures
        digits_value(s.subrange(0, i)) <= digits_value(s.subrange(0, j)),
    decreases j - i,
{
    if i < j {
        lemma_digits_grow(s, i, j - 1);
        assert(s.subrange(0, j).drop_last() =~= s.subrange(0, j - 1));
    }
}

/// The value of a trimmed `Content-Length` field: empty means zero.
pub open spec fn length_value(v: Seq<char>) -> Result<nat, ParseError> {
    if v.len() == 0 {
        Ok(0)
    } else if (forall|k: int| 0 <= k < v.len() ==> is_digit(#[trigger] v[k])) && digits_value(v)
        <= usize::MAX {
        Ok(digits_value(v))
    } else {
        Err(ParseError::BadContentLength)
    }
}

/// Reads a decimal `usize` from `v[a..b]`, as `length_value` says.
fn parse_length(v: &Vec<char>, a: usize, b: usize) -> (r: Result<usize, ParseError>)
    requires
        a <= b <= v@.len(),
    ensures
        r matches Ok(n) ==> length_value(v@.subrange(a as int, b as int)) == Ok::<nat, ParseError>(
            n as nat,
        ),
        r is Err ==> length_value(v@.subrange(a as int, b as int)) == Err::<nat, ParseError>(
            ParseError::BadContentLength,
        ),
{
    let ghost s = v@.subrange(a as int, b as int);
    let mut i: usize = a;
    while i < b
        invariant
            a <= i <= b <= v@.len(),
            s == v@.subrange(a as int, b as int),
            forall|k: int| a <= k < i ==> is_digit(#[trigger] v@[k]),
        decreases b - i,
    {
        if !('0' <= v[i] && v[i] <= '9') {
            assert(!is_digit(s[i - a]));
            return Err(ParseError::BadContentLength);
        }
        i = i + 1;
    }
    let mut acc: usize = 0;
    let mut i: usize = a;
    while i < b
        invariant
            a <= i <= b <= v@.len(),
            s == v@.subrange(a as int, b as int),
            forall|k: int| 0 <= k < s.len() ==> is_digit(#[trigger] s[k]),
            acc as nat == digits_value(s.subrange(0, i - a)),
        decreases b - i,
    {
        assert(s[i - a] == v@[i as int]);
        assert(is_digit(v@[i as int]));
        let d = (v[i] as u32 - '0' as u32) as usize;
        assert(s.subrange(0, i + 1 - a).drop_last() =~= s.subrange(0, i - a));
        if acc > (usize::MAX - d) / 10 {
            proof {
                assert(digits_value(s.subrange(0, i + 1 - a)) > usize::MAX) by (nonlinear_arith)
                    requires
                        digits_value(s.subrange(0, i + 1 - a)) == acc * 10 + d,
                        acc > (usize::MAX - d) / 10,
                        d <= 9,
                ;
                lemma_digits_grow(s, i + 1 - a, s.len() as int);
                assert(s.subrange(0, s.len() as int) =~= s);
            }
            return Err(ParseError::BadContentLength);
        }
        assert(acc * 10 + d <= usize::MAX) by (nonlinear_arith)
            requires
                acc <= (usize::MAX - d) / 10,
                d <= 9,
        ;
        acc = acc * 10 + d;
        i = i + 1;
    }
    assert(s.subrange(0, s.len() as int) =~= s);
    Ok(acc)
}


/// `s[from..]` trimmed, as positions into `s`.
pub fn trim_bounds(v: &Vec<char>, from: usize) -> (r: (usize, usize))
    requires
        from <= v@.len(),
    ensures
        r.0 <= r.1 <= v@.len(),
        v@.subrange(r.0 as int, r.1 as int) == trim_from(v@, from as int),
{
    let mut a: usize = from;
    while a < v.len() && (v[a] == ' ' || v[a] == '\t')
        invariant
            from <= a <= v@.len(),
            skip_ows(v@, a as int) == skip_ows(v@, from as int),
        decreases v.len() - a,
    {
        a = a + 1;
    }
    let mut b: usize = v.len();
    while b > a && (v[b - 1] == ' ' || v[b - 1] == '\t')
        invariant
            a <= b <= v@.len(),
            skip_ows(v@, from as int) == a,
            back_ows(v@, a as int, b as int) == back_ows(v@, a as int, v@.len() as int),
        decreases b - a,
    {
        b = b - 1;
    }
    (a, b)
}

/// The header name whose value gives the body length, in lower case.
pub open spec fn length_name() -> Seq<char> {
    "content-length"@
}

/// A header line that names the body length, in any ASCII case.
pub open spec fn is_length_line(l: Seq<char>) -> bool {
    &&& l.len() > length_name().len()
    &&& l[length_name().len() as int] == ':'
    &&& forall|j: int| 0 <= j < length_name().len() ==> fold_eq(#[trigger] l[j], length_name()[j])
}

/// The body length declared by the first length header from `k` on; zero
/// when there is none.
pub open spec fn length_scan(hs: Seq<Seq<char>>, k: int) -> Result<nat, ParseError>
    decreases hs.len() - k,
{
    if k < 0 || k >= hs.len() {
        Ok(0)
    } else if is_length_line(hs[k]) {
        length_value(trim_from(hs[k], length_name().len() as int + 1))
    } else {
        length_scan(hs, k + 1)
    }
}

/// The body length that header lines declare.
pub open spec fn declared_length(hs: Seq<Seq<char>>) -> Result<nat, ParseError> {
    length_scan(hs, 0)
}

/// The body length that the header lines declare.
pub fn content_length(headers: &Vec<String>) -> (r: Result<usize, ParseError>)
    ensures
        r matches Ok(n) ==> declared_length(headers@.map_values(|h: String| h@)) == Ok::<
            nat,
            ParseError,
        >(n as nat),
        r matches Err(e) ==> declared_length(headers@.map_values(|h: String| h@)) == Err::<
            nat,
            ParseError,
        >(e),
{
    let ghost hs = headers@.map_values(|h: String| h@);
    let name = chars_of("content-length");
    let mut k: usize = 0;
    while k < headers.len()
        invariant
            name@ == length_name(),
            hs == headers@.map_values(|h: String| h@),
            k <= headers@.len(),
            length_scan(hs, k as int) == declared_length(hs),
        decreases headers.len() - k,
    {
        let v = chars_of(headers[k].as_str());
        assert(v@ == hs[k as int]);
        let mut matched = v.len() > name.len() && v[name.len()] == ':';
        let mut j: usize = 0;
        while matched && j < name.len()
            invariant
                name@ == length_name(),
                matched ==> v@.len() > name@.len() && v@[name@.len() as int] == ':',
                j <= name@.len(),
                forall|m: int| 0 <= m < j ==> fold_eq(#[trigger] v@[m], name@[m]),
                !matched ==> !is_length_line(v@),
            decreases name.len() - j + (if matched { 1int } else { 0 }),
        {
            if !char_fold_eq(v[j], name[j]) {
                matched = false;
            } else {
                j = j + 1;
            }
        }
        if matched {
            assert(is_length_line(v@));
            let (a, b) = trim_bounds(&v, name.len() + 1);
            assert(v@.subrange(a as int, b as int) == trim_from(
                hs[k as int],
                length_name().len() as int + 1,
            ));
            assert(length_scan(hs, k as int) == length_value(v@.subrange(a as int, b as int)));
            return match parse_length(&v, a, b) {
                Ok(n) => Ok(n),
                Err(_) => Err(ParseError::BadContentLength),
            };
        }
        k = k + 1;
    }
    Ok(0)
}

/// A line of the head without the CR that ended it.
pub open spec fn strip_cr(t: Seq<char>) -> Seq<char> {
    if t.len() > 0 && t.last() == '\r' {
        t.drop_last()
    } else {
        t
    }
}

/// The lines of the head text, split at LF, each without its trailing CR;
/// the empty remainder after the final LF is not a line.
pub open spec fn head_lines(text: Seq<char>) -> Seq<Seq<char>> {
    let ts = split(text, '\n');
    let ls = if ts.last().len() == 0 {
        ts.drop_last()
    } else {
        ts
    };
    ls.map_values(|t: Seq<char>| strip_cr(t))
}

fn strip_cr_line(t: &str) -> (r: String)
    ensures
        r@ == strip_cr(t@),
{
    let n = t.unicode_len();
    if n > 0 && t.get_char(n - 1) == '\r' {
        t.substring_char(0, n - 1).to_owned()
    } else {
        t.to_owned()
    }
}

/// Splits head text into its lines.
pub fn split_head_lines(text: &str) -> (r: Vec<String>)
    ensures
        r@.map_values(|h: String| h@) == head_lines(text@),
{
    let mut tokens = split_str(text, '\n');
    let ghost ts = split(text@, '\n');
    proof {
        lemma_split_nonempty(text@, '\n', 0, 0);
    }
    let last_empty = tokens[tokens.len() - 1].unicode_len() == 0;
    let ghost ls = if last_empty {
        ts.drop_last()
    } else {
        ts
    };
    let count = if last_empty {
        tokens.len() - 1
    } else {
        tokens.len()
    };
    let mut r: Vec<String> = Vec::new();
    let mut k: usize = 0;
    while k < count
        invariant
            tokens@.len() == ts.len(),
            forall|m: int| 0 <= m < tokens@.len() ==> #[trigger] tokens@[m]@ == ts[m],
            count == ls.len(),
            ls.len() <= ts.len(),
            forall|m: int| 0 <= m < ls.len() ==> #[trigger] ls[m] == ts[m],
            k <= count,
            r@.len() == k,
            forall|m: int| 0 <= m < k ==> #[trigger] r@[m]@ == strip_cr(ls[m]),
        decreases count - k,
    {
        let line = strip_cr_line(tokens[k].as_str());
        r.push(line);
        k = k + 1;
    }
    assert(r@.map_values(|h: String| h@) =~= head_lines(text@));
    r
}

/// The method and request-target of a request line: the text before the
/// first space, and the text from there to the next space or the end. Both
/// must be non-empty.
pub open spec fn request_line_parts(l: Seq<char>) -> Option<(Seq<char>, Seq<char>)> {
    match first_index(l, ' ', 0) {
        None => None,
        Some(a) => {
            let b = match first_index(l, ' ', a + 1) {
                Some(b) => b,
                None => l.len() as int,
            };
            if a == 0 || b == a + 1 {
                None
            } else {
                Some((l.subrange(0, a), l.subrange(a + 1, b)))
            }
        },
    }
}

/// Splits a request line into method and request-target.
pub fn split_request_line(l: &str) -> (r: Option<(String, String)>)
    ensures
        r matches Some((m, t)) ==> request_line_parts(l@) == Some((m@, t@)),
        r is None ==> request_line_parts(l@) is None,
{
    let v = chars_of(l);
    let n = v.len();
    match find_char(&v, ' ', 0) {
        None => None,
        Some(a) => {
            let b = match find_char(&v, ' ', a + 1) {
                Some(b) => b,
                None => n,
            };
            if a == 0 || b == a + 1 {
                None
            } else {
                Some((l.substring_char(0, a).to_owned(), l.substring_char(a + 1, b).to_owned()))
            }
        },
    }
}

/// The text of a byte string, when it is valid UTF-8.
pub open spec fn text_of(b: Seq<u8>) -> Option<Seq<char>> {
    if valid_utf8(b) {
        Some(decode_utf8(b))
    } else {
        None
    }
}

/// Relies on std::str::from_utf8: it accepts exactly the valid UTF-8 byte
/// strings, and decodes each to its characters.
#[verifier::external_body]
fn utf8_text(b: &[u8]) -> (r: Option<String>)
    ensures
        r matches Some(s) ==> text_of(b@) == Some(s@),
        r is None ==> text_of(b@) is None,
{
    std::str::from_utf8(b).ok().map(|s| s.to_owned())
}

/// The head of a request message as the parser reads it.
pub struct HeadModel {
    /// Bytes before the closing blank line.
    pub end: int,
    pub method: Seq<char>,
    pub target: Seq<char>,
    pub headers: Seq<Seq<char>>,
    pub length: nat,
}

/// Reads the head of the message at the start of `d`.
pub open spec fn head_model(d: Seq<u8>) -> Result<HeadModel, ParseError> {
    match head_end(d) {
        None => Err(ParseError::UnexpectedEof),
        Some(h) => match text_of(d.subrange(0, h)) {
            None => Err(ParseError::InvalidText),
            Some(text) => {
                let ls = head_lines(text);
                if ls.len() == 0 {
                    Err(ParseError::MalformedRequestLine)
                } else {
                    match request_line_parts(ls[0]) {
                        None => Err(ParseError::MalformedRequestLine),
                        Some((m, t)) => match declared_length(ls.drop_first()) {
                            Err(e) => Err(e),
                            Ok(n) => Ok(
                                HeadModel {
                                    end: h,
                                    method: m,
                                    target: t,
                                    headers: ls.drop_first(),
                                    length: n,
                                },
                            ),
                        },
                    }
                }
            },
        },
    }
}

/// A parsed request head.
pub struct Head {
    pub end: usize,
    pub method: String,
    pub target: String,
    pub headers: Vec<String>,
    pub length: usize,
}

impl View for Head {
    type V = HeadModel;

    open spec fn view(&self) -> HeadModel {
        HeadModel {
            end: self.end as int,
            method: self.method@,
            target: self.target@,
            headers: self.headers@.map_values(|h: String| h@),
            length: self.length as nat,
        }
    }
}

/// Parses the head of the request message at the start of `d`.
pub fn parse_head(d: &Vec<u8>) -> (r: Result<Head, ParseError>)
    ensures
        r matches Ok(h) ==> head_model(d@) == Ok::<HeadModel, ParseError>(h@),
        r matches Ok(h) ==> h.end + 2 <= d@.len(),
        r matches Err(e) ==> head_model(d@) == Err::<HeadModel, ParseError>(e),
{
    let h = match find_head_end(d) {
        None => return Err(ParseError::UnexpectedEof),
        Some(h) => h,
    };
    let mut bytes: Vec<u8> = Vec::new();
    let mut i: usize = 0;
    while i < h
        invariant
            h + 2 <= d@.len(),
            i <= h,
            bytes@ == d@.subrange(0, i as int),
        decreases h - i,
    {
        bytes.push(d[i]);
        i = i + 1;
    }
    let text = match utf8_text(bytes.as_slice()) {
        None => return Err(ParseError::InvalidText),
        Some(t) => t,
    };
    let mut lines = split_head_lines(text.as_str());
    let ghost ls = head_lines(text@);
    if lines.len() == 0 {
        return Err(ParseError::MalformedRequestLine);
    }
    let first = lines.remove(0);
    assert(lines@.map_values(|x: String| x@) =~= ls.drop_first());
    match split_request_line(first.as_str()) {
        None => Err(ParseError::MalformedRequestLine),
        Some((method, target)) => match content_length(&lines) {
            Err(e) => Err(e),
            Ok(length) => Ok(Head { end: h, method, target, headers: lines, length }),
        },
    }
}

} // verus!
