//! Requests: the request line, the header block and what a request holds.
use vstd::prelude::*;
use std::collections::BTreeMap;
use crate::encoding::Encoding;
use crate::error::{io_error_kind, IoErrorKind};
use crate::headers::Header;
use crate::text::{
    comma_pieces, is_ascii_ws, is_first_index, lemma_ws_tokens_insert_ws, ws_insert_ok, lemma_split_once_shorter, lemma_ws_tokens_cons,
    lemma_ws_tokens_single, trim_back, trim_front, split_ascii_whitespace, split_once, split_once_char, str_eq, strip_crlf, trim,
    trim_end_crlf, trimmed, ws_tokens,
};

verus! {

#[derive(Debug)]
pub enum RequestError {
    InvalidVersion,
    InvalidMethod,
    InvalidRequest,
    Disconnected,
    Io(std::io::Error),
}

impl RequestError {
    /// The error for a failed read of the given kind: the peer's going away is
    /// `Disconnected`, anything else carries the I/O error.
    pub fn from_io_kind(kind: IoErrorKind, e: std::io::Error) -> (r: RequestError)
        ensures
            kind.is_disconnect() ==> r is Disconnected,
            !kind.is_disconnect() ==> (r matches RequestError::Io(x) && x == e),
    {
        match kind {
            IoErrorKind::UnexpectedEof | IoErrorKind::ConnectionReset | IoErrorKind::BrokenPipe => {
                RequestError::Disconnected
            },
            IoErrorKind::Other => RequestError::Io(e),
        }
    }
}

/// The error for a failed read.
pub fn to_request_error(e: std::io::Error) -> (r: RequestError)
    ensures
        r is Disconnected || (r matches RequestError::Io(x) && x == e),
{
    let kind = io_error_kind(&e);
    RequestError::from_io_kind(kind, e)
}

#[derive(Clone, Copy, Debug, PartialEq, Eq, Structural)]
pub enum Method {
    Get,
    Post,
}

impl Method {
    /// The token that names the method.
    pub open spec fn name(self) -> Seq<char> {
        match self {
            Method::Get => "GET"@,
            Method::Post => "POST"@,
        }
    }

    /// The method that a token names, once surrounding whitespace is trimmed.
    pub open spec fn spec_from(s: Seq<char>) -> Option<Method> {
        let t = trimmed(s);
        if t == "GET"@ {
            Some(Method::Get)
        } else if t == "POST"@ {
            Some(Method::Post)
        } else {
            None
        }
    }

    pub fn from(s: &str) -> (r: Result<Method, RequestError>)
        ensures
            match Method::spec_from(s@) {
                Some(m) => r matches Ok(x) && x == m,
                None => r matches Err(RequestError::InvalidMethod),
            },
    {
        let t = trim(s);
        if str_eq(t, "GET") {
            Ok(Method::Get)
        } else if str_eq(t, "POST") {
            Ok(Method::Post)
        } else {
            Err(RequestError::InvalidMethod)
        }
    }
}

#[derive(Clone, Copy, Debug, PartialEq, Eq, Structural)]
pub enum Version {
    Http11,
}

impl Version {
    /// The protocol name of the version.
    pub open spec fn name(self) -> Seq<char> {
        match self {
            Version::Http11 => "HTTP/1.1"@,
        }
    }

    /// The version that a token names, once surrounding whitespace is trimmed.
    pub open spec fn spec_from(s: Seq<char>) -> Option<Version> {
        if trimmed(s) == "HTTP/1.1"@ {
            Some(Version::Http11)
        } else {
            None
        }
    }

    pub fn from(s: &str) -> (r: Result<Version, RequestError>)
        ensures
            match Version::spec_from(s@) {
                Some(v) => r matches Ok(x) && x == v,
                None => r matches Err(RequestError::InvalidVersion),
            },
    {
        let t = trim(s);
        if str_eq(t, "HTTP/1.1") {
            Ok(Version::Http11)
        } else {
            Err(RequestError::InvalidVersion)
        }
    }

    /// The protocol name as bytes, as it is written on the wire.
    pub fn as_bytes(&self) -> (r: &[u8])
        ensures
            r@ == crate::text::ascii_bytes_of(self.name()),
    {
        match self {
            Version::Http11 => {
                proof {
                    reveal_strlit("HTTP/1.1");
                }
                crate::text::ascii_bytes("HTTP/1.1")
            },
        }
    }
}

/// What a request line holds.
pub struct RequestLineView {
    pub method: Method,
    pub target: Seq<char>,
    pub version: Version,
}

pub struct RequestLine {
    method: Method,
    pub target: String,
    version: Version,
}

impl View for RequestLine {
    type V = RequestLineView;

    closed spec fn view(&self) -> RequestLineView {
        RequestLineView { method: self.method, target: self.target@, version: self.version }
    }
}

/// How a request line parses: its whitespace-separated tokens must be a
/// method, a target and a version, in that order and nothing after. The
/// tokens are examined in order, and the first failure decides the error.
pub open spec fn parse_request_line(s: Seq<char>) -> Result<RequestLineView, RequestError> {
    let t = ws_tokens(s);
    if t.len() < 1 {
        Err(RequestError::InvalidRequest)
    } else {
        match Method::spec_from(t[0]) {
            None => Err(RequestError::InvalidMethod),
            Some(method) => if t.len() < 3 {
                Err(RequestError::InvalidRequest)
            } else {
                match Version::spec_from(t[2]) {
                    None => Err(RequestError::InvalidVersion),
                    Some(version) => if t.len() > 3 {
                        Err(RequestError::InvalidRequest)
                    } else {
                        Ok(RequestLineView { method, target: t[1], version })
                    },
                }
            },
        }
    }
}

/// The version's own name is recognised as that version.
pub proof fn lemma_version_name_roundtrip(v: Version)
    ensures
        Version::spec_from(v.name()) == Some(v),
{
    reveal_strlit("HTTP/1.1");
    let n = v.name();
    assert(trim_front(n) == n);
    assert(trim_back(n) == n);
}

/// A method's own name is recognised as that method.
pub proof fn lemma_method_name_roundtrip(m: Method)
    ensures
        Method::spec_from(m.name()) == Some(m),
{
    reveal_strlit("GET");
    reveal_strlit("POST");
    let n = m.name();
    assert(trim_front(n) == n);
    assert(trim_back(n) == n);
}

/// A request line written as method, target and version separated by single
/// spaces parses back to that method, target and version, for any non-empty
/// target without ASCII whitespace.
pub proof fn lemma_request_line_roundtrip(m: Method, target: Seq<char>)
    requires
        target.len() > 0,
        forall|i: int| 0 <= i < target.len() ==> !is_ascii_ws(#[trigger] target[i]),
    ensures
        parse_request_line(m.name() + seq![' '] + target + seq![' '] + Version::Http11.name())
            == Ok::<RequestLineView, RequestError>(
            RequestLineView { method: m, target, version: Version::Http11 },
        ),
{
    reveal_strlit("GET");
    reveal_strlit("POST");
    reveal_strlit("HTTP/1.1");
    let mn = m.name();
    let vn = Version::Http11.name();
    assert forall|i: int| 0 <= i < mn.len() implies !is_ascii_ws(#[trigger] mn[i]) by {}
    assert forall|i: int| 0 <= i < vn.len() implies !is_ascii_ws(#[trigger] vn[i]) by {}
    lemma_ws_tokens_single(vn);
    lemma_ws_tokens_cons(target, vn);
    let after_method = target + seq![' '] + vn;
    lemma_ws_tokens_cons(mn, after_method);
    let line = mn + seq![' '] + target + seq![' '] + vn;
    assert(line =~= mn + seq![' '] + after_method);
    let t = ws_tokens(line);
    assert(t =~= seq![mn, target, vn]);
    lemma_method_name_roundtrip(m);
    lemma_version_name_roundtrip(Version::Http11);
}

/// Whitespace does not change how a request line parses: inserting ASCII
/// whitespace at either end, or next to whitespace already in the line,
/// gives the same method, target and version, or the same error. Replacing
/// runs of whitespace with other non-empty runs, or adding or removing
/// whitespace at the ends, is a chain of such insertions and their inverses.
pub proof fn lemma_request_line_ignores_whitespace(a: Seq<char>, c: char, b: Seq<char>)
    requires
        ws_insert_ok(a, c, b),
    ensures
        parse_request_line(a + seq![c] + b) == parse_request_line(a + b),
{
    lemma_ws_tokens_insert_ws(a, c, b);
}

/// A token names a method exactly when, trimmed, it is that method's name;
/// every other token names none.
pub proof fn lemma_method_from_exact(s: Seq<char>, m: Method)
    ensures
        Method::spec_from(s) == Some(m) <==> trimmed(s) == m.name(),
        Method::spec_from(s) is None <==> (trimmed(s) != Method::Get.name() && trimmed(s)
            != Method::Post.name()),
{
    reveal_strlit("GET");
    reveal_strlit("POST");
    assert(Method::Get.name() != Method::Post.name()) by {
        assert(Method::Get.name().len() != Method::Post.name().len());
    }
}

/// A token names a version exactly when, trimmed, it is that version's name.
pub proof fn lemma_version_from_exact(s: Seq<char>, v: Version)
    ensures
        Version::spec_from(s) == Some(v) <==> trimmed(s) == v.name(),
{
}

/// What a successful parse holds is what the line says: the line has exactly
/// three pieces between ASCII whitespace; the first, trimmed, is the
/// method's name, the second is the target, the third, trimmed, is the
/// version's name. A line whose first piece names no method is refused with
/// `InvalidMethod`.
pub proof fn lemma_request_line_fields(s: Seq<char>)
    ensures
        parse_request_line(s) matches Ok(v) ==> {
            let t = ws_tokens(s);
            &&& t.len() == 3
            &&& trimmed(t[0]) == v.method.name()
            &&& t[1] == v.target
            &&& trimmed(t[2]) == v.version.name()
        },
        ws_tokens(s).len() >= 1 && Method::spec_from(ws_tokens(s)[0]) is None ==> parse_request_line(
            s,
        ) matches Err(RequestError::InvalidMethod),
{
    let t = ws_tokens(s);
    if t.len() >= 1 {
        if let Some(m) = Method::spec_from(t[0]) {
            lemma_method_from_exact(t[0], m);
        }
        if t.len() >= 3 {
            if let Some(v) = Version::spec_from(t[2]) {
                lemma_version_from_exact(t[2], v);
            }
        }
    }
}

impl RequestLine {
    pub fn from(s: &str) -> (r: Result<RequestLine, RequestError>)
        ensures
            match parse_request_line(s@) {
                Ok(v) => r matches Ok(l) && l@ == v,
                Err(e) => r matches Err(f) && f == e,
            },
    {
        let tokens = split_ascii_whitespace(s);
        let ghost t = ws_tokens(s@);
        assert(tokens@.len() == t.len());
        if tokens.len() < 1 {
            return Err(RequestError::InvalidRequest);
        }
        assert(tokens@[0]@ == t[0]);
        let method = Method::from(tokens[0])?;
        if tokens.len() < 2 {
            return Err(RequestError::InvalidRequest);
        }
        let target = tokens[1];
        if tokens.len() < 3 {
            return Err(RequestError::InvalidRequest);
        }
        assert(tokens@[2]@ == t[2]);
        let version = Version::from(tokens[2])?;
        if tokens.len() > 3 {
            Err(RequestError::InvalidRequest)
        } else {
            assert(tokens@[1]@ == t[1]);
            Ok(RequestLine { method, target: target.to_owned(), version })
        }
    }

    /// The request line of what a read returned: a read of no bytes means
    /// that the peer has gone; otherwise the line is parsed without its
    /// trailing line breaks.
    pub fn read(bytes_read: usize, buf: &str) -> (r: Result<RequestLine, RequestError>)
        ensures
            bytes_read == 0 ==> r matches Err(RequestError::Disconnected),
            bytes_read != 0 ==> match parse_request_line(strip_crlf(buf@)) {
                Ok(v) => r matches Ok(l) && l@ == v,
                Err(e) => r matches Err(f) && f == e,
            },
    {
        if bytes_read == 0 {
            return Err(RequestError::Disconnected);
        }
        RequestLine::from(trim_end_crlf(buf))
    }
}

/// The values given for `h`, in the order they came; none where it is absent.
pub open spec fn values_of(m: Map<Header, Seq<Seq<char>>>, h: Header) -> Seq<Seq<char>> {
    if m.contains_key(h) {
        m[h]
    } else {
        seq![]
    }
}

/// The header block of a request: the values given for each header, in the
/// order they came. Each header holds one entry per line that named it.
pub struct Headers(BTreeMap<u8, Vec<String>>);

impl View for Headers {
    type V = Map<Header, Seq<Seq<char>>>;

    closed spec fn view(&self) -> Map<Header, Seq<Seq<char>>> {
        Map::new(
            |h: Header| self.0@.contains_key(h.index()),
            |h: Header| self.0@[h.index()]@.map_values(|v: String| v@),
        )
    }
}

/// The outcome of reading one line of the header block.
pub open spec fn header_line_outcome(
    old_headers: Map<Header, Seq<Seq<char>>>,
    line: Seq<char>,
) -> Result<(bool, Map<Header, Seq<Seq<char>>>), RequestError> {
    if line.len() == 0 {
        Ok((true, old_headers))
    } else {
        match split_once(line, ':') {
            None => Err(RequestError::InvalidRequest),
            Some((name, value)) => match Header::spec_from(name) {
                None => Err(RequestError::InvalidRequest),
                Some(h) => Ok(
                    (false, old_headers.insert(h, values_of(old_headers, h).push(trimmed(value)))),
                ),
            },
        }
    }
}

/// A line `name:value` whose name holds no colon and names a known header
/// adds the trimmed value after the values already given for that header,
/// and leaves every other header as it was.
pub proof fn lemma_header_line_read_back(
    m: Map<Header, Seq<Seq<char>>>,
    name: Seq<char>,
    value: Seq<char>,
    h: Header,
)
    requires
        Header::spec_from(name) == Some(h),
        forall|i: int| 0 <= i < name.len() ==> name[i] != ':',
    ensures
        header_line_outcome(m, name + seq![':'] + value) == Ok::<
            (bool, Map<Header, Seq<Seq<char>>>),
            RequestError,
        >((false, m.insert(h, values_of(m, h).push(trimmed(value))))),
{
    let line = name + seq![':'] + value;
    let k = name.len() as int;
    assert(is_first_index(line, ':', k));
    let j = choose|j: int| is_first_index(line, ':', j);
    assert(j == k) by {
        if j < k {
            assert(line[j] == name[j]);
        } else if j > k {
            assert(line[k] == ':');
        }
    }
    assert(line.take(k) =~= name);
    assert(line.skip(k + 1) =~= value);
    assert(split_once(line, ':') == Some((name, value)));
}

/// A line that is only line breaks ends the header block and changes nothing.
pub proof fn lemma_blank_line_ends_block(m: Map<Header, Seq<Seq<char>>>)
    ensures
        header_line_outcome(m, strip_crlf(seq!['\r', '\n'])) == Ok::<
            (bool, Map<Header, Seq<Seq<char>>>),
            RequestError,
        >((true, m)),
{
    let s = seq!['\r', '\n'];
    assert(s.subrange(0, 0) =~= Seq::<char>::empty());
    assert(strip_crlf(Seq::<char>::empty()) == Seq::<char>::empty());
}

impl Headers {
    #[verifier::type_invariant]
    closed spec fn inv(self) -> bool {
        forall|k: u8| #[trigger] self.0@.contains_key(k) ==> k < 8 && self.0@[k]@.len() > 0
    }

    pub fn new() -> (r: Headers)
        ensures
            r@ == Map::<Header, Seq<Seq<char>>>::empty(),
    {
        let r = Headers(BTreeMap::new());
        assert(r@ =~= Map::<Header, Seq<Seq<char>>>::empty());
        r
    }

    proof fn lemma_index_injective(a: Header, b: Header)
        ensures
            a.index() == b.index() ==> a == b,
            a.index() < 8,
    {
    }

    /// The values given for `h`, in the order they came; `None` where no line
    /// named `h`.
    pub fn get(&self, h: &Header) -> (r: Option<&Vec<String>>)
        ensures
            r is None <==> !self@.contains_key(*h),
            r matches Some(v) ==> v@.map_values(|s: String| s@) == self@[*h] && v@.len() > 0,
    {
        proof {
            use_type_invariant(self);
        }
        let k = h.key();
        self.0.get(&k)
    }

    /// Records that a line gave `value` for `h`.
    fn add(&mut self, h: Header, value: String)
        ensures
            final(self)@ == old(self)@.insert(h, values_of(old(self)@, h).push(value@)),
    {
        proof {
            use_type_invariant(&*self);
        }
        let k = h.key();
        let mut m = BTreeMap::new();
        std::mem::swap(&mut m, &mut self.0);
        let ghost before = m@;
        let mut values = match m.remove(&k) {
            Some(v) => v,
            None => Vec::new(),
        };
        let ghost old_values = values@;
        values.push(value);
        m.insert(k, values);
        proof {
            assert forall|j: u8| #[trigger] m@.contains_key(j) implies j < 8 && m@[j]@.len() > 0 by {
                if j != k {
                    assert(before.contains_key(j));
                }
            }
        }
        self.0 = m;
        proof {
            let old_map = old(self)@;
            let new_map = self@;
            let expected = old_map.insert(h, values_of(old_map, h).push(value@));
            assert forall|g: Header| #[trigger] new_map.contains_key(g) <==> expected.contains_key(g) by {
                Self::lemma_index_injective(g, h);
            }
            assert forall|g: Header| #[trigger] new_map.contains_key(g) implies new_map[g]
                == expected[g] by {
                Self::lemma_index_injective(g, h);
                if g == h {
                    assert(old_values.map_values(|s: String| s@) == values_of(old_map, h));
                    assert(new_map[g] =~= values_of(old_map, h).push(value@));
                }
            }
            assert(new_map =~= expected);
        }
    }

    /// Takes one line of the header block, as a read returned it. A read of no
    /// bytes means that the peer has gone. An empty line (once its trailing
    /// line breaks are removed) ends the block: the result is `Ok(true)`.
    /// Any other line must be `name: value` with a known name; its trimmed
    /// value is added to that header's values and the result is `Ok(false)`.
    pub fn feed(&mut self, bytes_read: usize, buf: &str) -> (r: Result<bool, RequestError>)
        ensures
            bytes_read == 0 ==> (r matches Err(RequestError::Disconnected) && final(self)@ == old(
                self,
            )@),
            bytes_read != 0 ==> match header_line_outcome(old(self)@, strip_crlf(buf@)) {
                Ok((done, m)) => r matches Ok(d) && d == done && final(self)@ == m,
                Err(e) => r matches Err(f) && f == e && final(self)@ == old(self)@,
            },
    {
        if bytes_read == 0 {
            return Err(RequestError::Disconnected);
        }
        let line = trim_end_crlf(buf);
        if line.unicode_len() == 0 {
            return Ok(true);
        }
        let (name, value) = match split_once_char(line, ':') {
            Some(parts) => parts,
            None => return Err(RequestError::InvalidRequest),
        };
        let header = match Header::from(name) {
            Some(h) => h,
            None => return Err(RequestError::InvalidRequest),
        };
        let value = trim(value).to_owned();
        self.add(header, value);
        Ok(false)
    }
}

/// The encoding that a trimmed piece names, as a sequence of at most one.
pub open spec fn piece_encoding(piece: Seq<char>) -> Seq<Encoding> {
    match Encoding::spec_from(trimmed(piece)) {
        Some(e) => seq![e],
        None => seq![],
    }
}

/// The encodings that the pieces name, in order, skipping unknown ones.
pub open spec fn pieces_encodings(ps: Seq<Seq<char>>) -> Seq<Encoding>
    decreases ps.len(),
{
    if ps.len() == 0 {
        seq![]
    } else {
        piece_encoding(ps[0]) + pieces_encodings(ps.drop_first())
    }
}

/// The encodings that a list of `Accept-Encoding` values names: each value is
/// split at commas, each piece trimmed, and the known ones kept in order.
pub open spec fn values_encodings(values: Seq<Seq<char>>) -> Seq<Encoding>
    decreases values.len(),
{
    if values.len() == 0 {
        seq![]
    } else {
        values_encodings(values.drop_last()) + pieces_encodings(comma_pieces(values.last()))
    }
}

/// Every `Accept-Encoding` value counts, in order: there are none for no
/// values, and one more value adds the encodings that its trimmed
/// comma-separated pieces name after those of the earlier values, which it
/// never removes.
pub proof fn lemma_values_encodings_push(values: Seq<Seq<char>>, v: Seq<char>)
    ensures
        values_encodings(Seq::<Seq<char>>::empty()) == Seq::<Encoding>::empty(),
        values_encodings(values.push(v)) == values_encodings(values) + pieces_encodings(
            comma_pieces(v),
        ),
        values_encodings(values).is_prefix_of(values_encodings(values.push(v))),
{
    assert(values.push(v).drop_last() =~= values);
    let a = values_encodings(values);
    let b = a + pieces_encodings(comma_pieces(v));
    assert(b.subrange(0, a.len() as int) =~= a);
}

/// The pieces' encodings are those of each piece in turn: none for no
/// pieces, and one more piece adds the encoding that the piece names once
/// trimmed, if it names one.
pub proof fn lemma_pieces_encodings_push(ps: Seq<Seq<char>>, p: Seq<char>)
    ensures
        pieces_encodings(Seq::<Seq<char>>::empty()) == Seq::<Encoding>::empty(),
        pieces_encodings(ps.push(p)) == pieces_encodings(ps) + match Encoding::spec_from(
            trimmed(p),
        ) {
            Some(e) => seq![e],
            None => Seq::<Encoding>::empty(),
        },
    decreases ps.len(),
{
    if ps.len() == 0 {
        assert(ps.push(p) =~= seq![p]);
        assert(seq![p].drop_first() =~= Seq::<Seq<char>>::empty());
        assert(pieces_encodings(seq![p].drop_first()) == Seq::<Encoding>::empty());
    } else {
        lemma_pieces_encodings_push(ps.drop_first(), p);
        assert(ps.push(p).drop_first() =~= ps.drop_first().push(p));
        assert(ps.push(p)[0] == ps[0]);
    }
}

/// A later `Accept-Encoding` line never takes away what an earlier one
/// accepted: recording one more value for the header appends that value's
/// encodings to the ones the header named before.
pub proof fn lemma_accept_encoding_line_appends(m: Map<Header, Seq<Seq<char>>>, v: Seq<char>)
    ensures
        ({
            let m2 = m.insert(Header::AcceptEncoding, values_of(m, Header::AcceptEncoding).push(v));
            values_encodings(values_of(m2, Header::AcceptEncoding)) == values_encodings(
                values_of(m, Header::AcceptEncoding),
            ) + pieces_encodings(comma_pieces(v))
        }),
{
    lemma_values_encodings_push(values_of(m, Header::AcceptEncoding), v);
}

/// Appends the encodings that one `Accept-Encoding` value names.
fn push_value_encodings(value: &str, out: &mut Vec<Encoding>)
    ensures
        final(out)@ == old(out)@ + pieces_encodings(comma_pieces(value@)),
{
    let mut rest = value;
    loop
        invariant
            old(out)@ + pieces_encodings(comma_pieces(value@)) == out@ + pieces_encodings(
                comma_pieces(rest@),
            ),
        decreases rest@.len(),
    {
        let ghost before = out@;
        proof {
            lemma_split_once_shorter(rest@, ',');
        }
        match split_once_char(rest, ',') {
            Some((piece, after)) => {
                if let Some(e) = Encoding::from(trim(piece)) {
                    out.push(e);
                }
                proof {
                    let ps = comma_pieces(rest@);
                    assert(ps == seq![piece@] + comma_pieces(after@));
                    assert(ps.drop_first() =~= comma_pieces(after@));
                    assert(out@ =~= before + piece_encoding(piece@));
                    assert(pieces_encodings(ps) == piece_encoding(piece@) + pieces_encodings(
                        comma_pieces(after@),
                    ));
                    assert(before + (piece_encoding(piece@) + pieces_encodings(comma_pieces(after@)))
                        =~= out@ + pieces_encodings(comma_pieces(after@)));
                }
                rest = after;
            },
            None => {
                if let Some(e) = Encoding::from(trim(rest)) {
                    out.push(e);
                }
                proof {
                    let ps = comma_pieces(rest@);
                    assert(ps == seq![rest@]);
                    assert(ps.drop_first() =~= Seq::<Seq<char>>::empty());
                    assert(pieces_encodings(ps.drop_first()) == Seq::<Encoding>::empty());
                    assert(ps[0] == rest@);
                    assert(pieces_encodings(ps) =~= piece_encoding(rest@));
                    assert(out@ =~= before + piece_encoding(rest@));
                }
                return;
            },
        }
    }
}

/// What a request holds.
pub struct RequestView {
    pub line: RequestLineView,
    pub headers: Map<Header, Seq<Seq<char>>>,
    pub body: Option<Seq<u8>>,
}

pub struct Request {
    pub request_line: RequestLine,
    headers: Headers,
    body: Option<Vec<u8>>,
}

impl View for Request {
    type V = RequestView;

    closed spec fn view(&self) -> RequestView {
        RequestView {
            line: self.request_line@,
            headers: self.headers@,
            body: match self.body {
                Some(b) => Some(b@),
                None => None,
            },
        }
    }
}

impl Request {
    /// A request of the given line and headers. No body is read.
    pub fn new(request_line: RequestLine, headers: Headers) -> (r: Request)
        ensures
            r@.line == request_line@,
            r@.headers == headers@,
            r@.body is None,
    {
        Request { request_line, headers, body: None }
    }

    pub fn target(&self) -> (r: &str)
        ensures
            r@ == self@.line.target,
    {
        self.request_line.target.as_str()
    }

    pub fn method(&self) -> (r: Method)
        ensures
            r == self@.line.method,
    {
        self.request_line.method
    }

    pub fn version(&self) -> (r: Version)
        ensures
            r == self@.line.version,
    {
        self.request_line.version
    }

    pub fn header(&self, h: &Header) -> (r: Option<&Vec<String>>)
        ensures
            r is None <==> !self@.headers.contains_key(*h),
            r matches Some(v) ==> v@.map_values(|s: String| s@) == self@.headers[*h] && v@.len()
                > 0,
    {
        self.headers.get(h)
    }

    /// The encodings that the client accepts, in the order its
    /// `Accept-Encoding` values name them; unknown ones are skipped.
    pub fn accepted_encodings(&self) -> (r: Vec<Encoding>)
        ensures
            r@ == values_encodings(values_of(self@.headers, Header::AcceptEncoding)),
    {
        let mut out: Vec<Encoding> = Vec::new();
        match self.header(&Header::AcceptEncoding) {
            None => {
                assert(values_of(self@.headers, Header::AcceptEncoding) =~= Seq::<Seq<char>>::empty());
                out
            },
            Some(values) => {
                let ghost vs = values@.map_values(|s: String| s@);
                let n = values.len();
                let mut i: usize = 0;
                while i < n
                    invariant
                        n == values@.len(),
                        vs == values@.map_values(|s: String| s@),
                        i <= n,
                        out@ == values_encodings(vs.take(i as int)),
                    decreases n - i,
                {
                    push_value_encodings(values[i].as_str(), &mut out);
                    assert(vs.take(i + 1).drop_last() =~= vs.take(i as int));
                    assert(vs.take(i + 1).last() == values@[i as int]@);
                    i = i + 1;
                }
                assert(vs.take(n as int) =~= vs);
                out
            },
        }
    }

    pub fn body(&self) -> (r: Option<&Vec<u8>>)
        ensures
            match (r, self@.body) {
                (Some(b), Some(c)) => b@ == c,
                (None, None) => true,
                _ => false,
            },
    {
        match &self.body {
            Some(b) => Some(b),
            None => None,
        }
    }
}

} // verus!
