//! Responses: the status line, header lines and the bytes sent on the wire.
use vstd::prelude::*;
use vstd::utf8::encode_utf8;
use crate::headers::Header;
use crate::request::Version;
use crate::text::{ascii_bytes, ascii_bytes_of, trim, trim_back, trim_front, trimmed};

verus! {

#[derive(Clone, Copy, Debug, PartialEq, Eq, Structural)]
pub enum Status {
    OK,
    Created,
    NotFound,
    InternalServerError,
}

impl Status {
    /// The three-digit status code.
    pub open spec fn code(self) -> Seq<char> {
        match self {
            Status::OK => "200"@,
            Status::Created => "201"@,
            Status::NotFound => "404"@,
            Status::InternalServerError => "500"@,
        }
    }

    /// The reason phrase.
    pub open spec fn phrase(self) -> Seq<char> {
        match self {
            Status::OK => "OK"@,
            Status::Created => "Created"@,
            Status::NotFound => "Not Found"@,
            Status::InternalServerError => "Internal Server Error"@,
        }
    }

    pub fn as_bytes(&self) -> (r: &[u8])
        ensures
            r@ == ascii_bytes_of(self.code()),
    {
        match self {
            Status::OK => {
                proof {
                    reveal_strlit("200");
                }
                ascii_bytes("200")
            },
            Status::Created => {
                proof {
                    reveal_strlit("201");
                }
                ascii_bytes("201")
            },
            Status::NotFound => {
                proof {
                    reveal_strlit("404");
                }
                ascii_bytes("404")
            },
            Status::InternalServerError => {
                proof {
                    reveal_strlit("500");
                }
                ascii_bytes("500")
            },
        }
    }

    pub fn reason(&self) -> (r: &[u8])
        ensures
            r@ == ascii_bytes_of(self.phrase()),
    {
        match self {
            Status::OK => {
                proof {
                    reveal_strlit("OK");
                }
                ascii_bytes("OK")
            },
            Status::Created => {
                proof {
                    reveal_strlit("Created");
                }
                ascii_bytes("Created")
            },
            Status::NotFound => {
                proof {
                    reveal_strlit("Not Found");
                }
                ascii_bytes("Not Found")
            },
            Status::InternalServerError => {
                proof {
                    reveal_strlit("Internal Server Error");
                }
                ascii_bytes("Internal Server Error")
            },
        }
    }
}

/// The bytes of a carriage return and a line feed.
pub open spec fn crlf() -> Seq<u8> {
    seq![13u8, 10u8]
}

#[derive(Clone, Copy, Debug, PartialEq, Eq, Structural)]
pub struct ResponseLine {
    pub version: Version,
    pub status: Status,
}

impl ResponseLine {
    pub fn new(version: Version, status: Status) -> (r: ResponseLine)
        ensures
            r.version == version,
            r.status == status,
    {
        ResponseLine { version, status }
    }

    /// The status line: version, code and reason phrase separated by single
    /// spaces, ended by a line break.
    pub open spec fn spec_bytes(self) -> Seq<u8> {
        ascii_bytes_of(self.version.name()) + seq![32u8] + ascii_bytes_of(self.status.code())
            + seq![32u8] + ascii_bytes_of(self.status.phrase()) + crlf()
    }

    /// Appends the status line to `out`.
    pub fn write_to(&self, out: &mut Vec<u8>)
        ensures
            final(out)@ == old(out)@ + self.spec_bytes(),
    {
        append_bytes(out, self.version.as_bytes());
        out.push(32u8);
        append_bytes(out, self.status.as_bytes());
        out.push(32u8);
        append_bytes(out, self.status.reason());
        out.push(13u8);
        out.push(10u8);
        assert(out@ =~= old(out)@ + self.spec_bytes());
    }
}

/// Appends `bytes` to `out`.
pub fn append_bytes(out: &mut Vec<u8>, bytes: &[u8])
    ensures
        final(out)@ == old(out)@ + bytes@,
{
    let n = bytes.len();
    let mut i: usize = 0;
    while i < n
        invariant
            n == bytes@.len(),
            i <= n,
            out@ == old(out)@ + bytes@.take(i as int),
        decreases n - i,
    {
        out.push(bytes[i]);
        assert(bytes@.take(i + 1) =~= bytes@.take(i as int).push(bytes@[i as int]));
        assert(out@ =~= old(out)@ + bytes@.take(i + 1));
        i = i + 1;
    }
    assert(bytes@.take(n as int) =~= bytes@);
}

/// A header line: the header's name, a colon and a space, the value without
/// surrounding whitespace in UTF-8, and a line break.
pub open spec fn header_line(h: Header, value: Seq<char>) -> Seq<u8> {
    ascii_bytes_of(h.name()) + seq![58u8, 32u8] + encode_utf8(trimmed(value)) + crlf()
}

/// A value that was trimmed when it was read gives the same header line when
/// it is written back as the raw value does.
pub proof fn lemma_header_line_of_trimmed(h: Header, value: Seq<char>)
    ensures
        header_line(h, trimmed(value)) == header_line(h, value),
{
    crate::text::lemma_trim_idempotent(value);
}

/// Appends the header line for `header` and `value` to `out`.
pub fn write_header(out: &mut Vec<u8>, header: &Header, value: &str)
    ensures
        final(out)@ == old(out)@ + header_line(*header, value@),
{
    append_bytes(out, header.as_bytes());
    out.push(58u8);
    out.push(32u8);
    let v = trim(value);
    append_bytes(out, v.as_bytes());
    out.push(13u8);
    out.push(10u8);
    assert(out@ =~= old(out)@ + header_line(*header, value@));
}

/// The decimal digit for `d < 10`.
pub open spec fn digit(d: nat) -> char {
    (48 + d) as char
}

/// The decimal representation of `n`, without sign or leading zeros.
pub open spec fn decimal(n: nat) -> Seq<char>
    decreases n,
{
    if n < 10 {
        seq![digit(n)]
    } else {
        decimal(n / 10).push(digit(n % 10))
    }
}

/// The number that a run of decimal digits denotes.
pub open spec fn digits_value(s: Seq<char>) -> nat
    decreases s.len(),
{
    if s.len() == 0 {
        0
    } else {
        (digits_value(s.drop_last()) * 10 + (s.last() as nat - 48)) as nat
    }
}

/// The decimal representation is a non-empty run of ASCII digits that
/// denotes the number it represents.
pub proof fn lemma_decimal(n: nat)
    ensures
        decimal(n).len() > 0,
        forall|i: int| 0 <= i < decimal(n).len() ==> '0' <= #[trigger] decimal(n)[i] <= '9',
        digits_value(decimal(n)) == n,
    decreases n,
{
    if n < 10 {
        assert(digit(n) as nat == 48 + n);
        assert(decimal(n).drop_last() =~= Seq::<char>::empty());
        assert(digits_value(decimal(n).drop_last()) == 0);
        assert(digits_value(decimal(n)) == n);
    } else {
        lemma_decimal(n / 10);
        let d = decimal(n);
        assert(d.drop_last() =~= decimal(n / 10));
        assert(digit(n % 10) as nat == 48 + n % 10);
        assert(d.last() == digit(n % 10));
        assert(n == (n / 10) * 10 + n % 10) by (nonlinear_arith);
        assert(digits_value(d) == digits_value(d.drop_last()) * 10 + (d.last() as nat - 48));
        assert(digits_value(d.drop_last()) == n / 10);
        assert(digits_value(d) == n);
    }
}

/// Formats `n` with `itoa::Buffer::format`, which the crate documents as the
/// decimal representation of the integer; the contract states that
/// representation.
#[verifier::external_body]
fn format_decimal(n: usize) -> (r: String)
    ensures
        r@ == decimal(n as nat),
{
    let mut buffer = itoa::Buffer::new();
    buffer.format(n).to_string()
}

/// What a response holds.
pub struct ResponseView {
    pub line: ResponseLine,
    pub headers: Seq<(Header, Seq<char>)>,
    pub body: Option<Seq<u8>>,
}

/// A response: the status line, the header lines in order, and an optional
/// body.
pub struct Response {
    pub line: ResponseLine,
    pub headers: Vec<(Header, String)>,
    pub body: Option<Vec<u8>>,
}

impl View for Response {
    type V = ResponseView;

    open spec fn view(&self) -> ResponseView {
        ResponseView {
            line: self.line,
            headers: self.headers@.map_values(|p: (Header, String)| (p.0, p.1@)),
            body: match self.body {
                Some(b) => Some(b@),
                None => None,
            },
        }
    }
}

/// The header lines of `headers`, in order.
pub open spec fn headers_bytes(headers: Seq<(Header, Seq<char>)>) -> Seq<u8>
    decreases headers.len(),
{
    if headers.len() == 0 {
        seq![]
    } else {
        headers_bytes(headers.drop_last()) + header_line(headers.last().0, headers.last().1)
    }
}

/// The bytes of a response: the status line, the header lines, then either
/// an empty line, or a `Content-Length` line with the body's length in
/// decimal, an empty line and the body.
pub open spec fn response_bytes(r: ResponseView) -> Seq<u8> {
    r.line.spec_bytes() + headers_bytes(r.headers) + match r.body {
        None => crlf(),
        Some(b) => header_line(Header::ContentLength, decimal(b.len())) + crlf() + b,
    }
}

/// A response with a body carries a `Content-Length` line whose digits
/// denote the body's length, and the body itself is the last bytes sent.
pub proof fn lemma_body_length_is_announced(r: ResponseView)
    requires
        r.body is Some,
    ensures
        ({
            let body = r.body->0;
            let digits = decimal(body.len());
            let bytes = response_bytes(r);
            &&& bytes == r.line.spec_bytes() + headers_bytes(r.headers) + ascii_bytes_of(
                "Content-Length"@,
            ) + seq![58u8, 32u8] + ascii_bytes_of(digits) + crlf() + crlf() + body
            &&& digits_value(digits) == body.len()
            &&& bytes.skip(bytes.len() - body.len()) == body
        }),
{
    let body = r.body->0;
    let digits = decimal(body.len());
    lemma_decimal(body.len());
    assert(vstd::utf8::is_ascii_chars(digits));
    vstd::utf8::is_ascii_chars_encode_utf8(digits);
    assert(trim_front(digits) == digits);
    assert(trim_back(digits) == digits);
    assert(encode_utf8(digits) =~= ascii_bytes_of(digits));
    let bytes = response_bytes(r);
    assert(bytes.skip(bytes.len() - body.len()) =~= body);
}

impl ResponseView {
    pub open spec fn plain(status: Status) -> ResponseView {
        ResponseView {
            line: ResponseLine { version: Version::Http11, status },
            headers: seq![],
            body: None,
        }
    }

    pub open spec fn with_body(headers: Seq<(Header, Seq<char>)>, body: Seq<u8>) -> ResponseView {
        ResponseView {
            line: ResponseLine { version: Version::Http11, status: Status::OK },
            headers,
            body: Some(body),
        }
    }
}

impl Response {
    fn plain(status: Status) -> (r: Response)
        ensures
            r@ == ResponseView::plain(status),
    {
        let r = Response {
            line: ResponseLine::new(Version::Http11, status),
            headers: Vec::new(),
            body: None,
        };
        assert(r@.headers =~= Seq::<(Header, Seq<char>)>::empty());
        r
    }

    /// `200 OK` with neither headers nor body.
    pub fn ok() -> (r: Response)
        ensures
            r@ == ResponseView::plain(Status::OK),
    {
        Response::plain(Status::OK)
    }

    /// `201 Created` with neither headers nor body.
    pub fn created() -> (r: Response)
        ensures
            r@ == ResponseView::plain(Status::Created),
    {
        Response::plain(Status::Created)
    }

    /// `404 Not Found` with neither headers nor body.
    pub fn not_found() -> (r: Response)
        ensures
            r@ == ResponseView::plain(Status::NotFound),
    {
        Response::plain(Status::NotFound)
    }

    /// `500 Internal Server Error` with neither headers nor body.
    pub fn server_error() -> (r: Response)
        ensures
            r@ == ResponseView::plain(Status::InternalServerError),
    {
        Response::plain(Status::InternalServerError)
    }

    /// `200 OK` with the given headers and body.
    pub fn ok_with_body(headers: Vec<(Header, String)>, body: Vec<u8>) -> (r: Response)
        ensures
            r@ == ResponseView::with_body(
                headers@.map_values(|p: (Header, String)| (p.0, p.1@)),
                body@,
            ),
    {
        Response { line: ResponseLine::new(Version::Http11, Status::OK), headers, body: Some(body) }
    }

    /// The bytes to send for this response.
    pub fn to_bytes(&self) -> (r: Vec<u8>)
        ensures
            r@ == response_bytes(self@),
    {
        let mut out: Vec<u8> = Vec::new();
        self.line.write_to(&mut out);
        let n = self.headers.len();
        let mut i: usize = 0;
        let ghost hs = self@.headers;
        while i < n
            invariant
                n == self.headers@.len(),
                hs == self@.headers,
                i <= n,
                out@ == self.line.spec_bytes() + headers_bytes(hs.take(i as int)),
            decreases n - i,
        {
            let (name, value) = &self.headers[i];
            write_header(&mut out, name, value.as_str());
            proof {
                assert(hs.take(i + 1).drop_last() =~= hs.take(i as int));
                assert(hs.take(i + 1).last() == (*name, value@));
            }
            i = i + 1;
        }
        assert(hs.take(n as int) =~= hs);
        match &self.body {
            None => {
                out.push(13u8);
                out.push(10u8);
            },
            Some(bytes) => {
                let len = format_decimal(bytes.len());
                write_header(&mut out, &Header::ContentLength, len.as_str());
                out.push(13u8);
                out.push(10u8);
                append_bytes(&mut out, bytes.as_slice());
            },
        }
        assert(out@ =~= response_bytes(self@));
        out
    }
}

} // verus!
