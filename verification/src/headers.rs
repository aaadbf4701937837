//! The header names that requests and responses use.
use vstd::prelude::*;
use crate::text::{ascii_bytes, ascii_bytes_of, eq_ignore_ascii_case, lower_code, str_eq_ignore_ascii_case};

verus! {

#[derive(Clone, Copy, Debug, PartialEq, Eq, Structural, PartialOrd, Ord)]
pub enum Header {
    Host,
    UserAgent,
    Accept,
    AcceptEncoding,
    ContentLength,
    ContentType,
    ContentEncoding,
    Connection,
}

impl Header {
    /// The canonical spelling of the header's name.
    pub open spec fn name(self) -> Seq<char> {
        match self {
            Header::Host => "Host"@,
            Header::UserAgent => "User-Agent"@,
            Header::Accept => "Accept"@,
            Header::AcceptEncoding => "Accept-Encoding"@,
            Header::ContentLength => "Content-Length"@,
            Header::ContentType => "Content-Type"@,
            Header::ContentEncoding => "Content-Encoding"@,
            Header::Connection => "Connection"@,
        }
    }

    /// The header that a name denotes, compared without regard to ASCII case.
    pub open spec fn spec_from(s: Seq<char>) -> Option<Header> {
        if eq_ignore_ascii_case(s, "host"@) {
            Some(Header::Host)
        } else if eq_ignore_ascii_case(s, "user-agent"@) {
            Some(Header::UserAgent)
        } else if eq_ignore_ascii_case(s, "accept"@) {
            Some(Header::Accept)
        } else if eq_ignore_ascii_case(s, "accept-encoding"@) {
            Some(Header::AcceptEncoding)
        } else if eq_ignore_ascii_case(s, "content-length"@) {
            Some(Header::ContentLength)
        } else if eq_ignore_ascii_case(s, "content-type"@) {
            Some(Header::ContentType)
        } else if eq_ignore_ascii_case(s, "content-encoding"@) {
            Some(Header::ContentEncoding)
        } else if eq_ignore_ascii_case(s, "connection"@) {
            Some(Header::Connection)
        } else {
            None
        }
    }

    /// The position of the header in the declaration, used as a map key.
    pub open spec fn index(self) -> u8 {
        match self {
            Header::Host => 0,
            Header::UserAgent => 1,
            Header::Accept => 2,
            Header::AcceptEncoding => 3,
            Header::ContentLength => 4,
            Header::ContentType => 5,
            Header::ContentEncoding => 6,
            Header::Connection => 7,
        }
    }

    pub fn key(&self) -> (r: u8)
        ensures
            r == self.index(),
    {
        match self {
            Header::Host => 0,
            Header::UserAgent => 1,
            Header::Accept => 2,
            Header::AcceptEncoding => 3,
            Header::ContentLength => 4,
            Header::ContentType => 5,
            Header::ContentEncoding => 6,
            Header::Connection => 7,
        }
    }

    /// The canonical name as bytes, as it is written on the wire.
    pub fn as_bytes(&self) -> (r: &[u8])
        ensures
            r@ == ascii_bytes_of(self.name()),
    {
        match self {
            Header::Host => {
                proof { reveal_strlit("Host"); }
                ascii_bytes("Host")
            },
            Header::UserAgent => {
                proof { reveal_strlit("User-Agent"); }
                ascii_bytes("User-Agent")
            },
            Header::Accept => {
                proof { reveal_strlit("Accept"); }
                ascii_bytes("Accept")
            },
            Header::AcceptEncoding => {
                proof { reveal_strlit("Accept-Encoding"); }
                ascii_bytes("Accept-Encoding")
            },
            Header::ContentLength => {
                proof { reveal_strlit("Content-Length"); }
                ascii_bytes("Content-Length")
            },
            Header::ContentType => {
                proof { reveal_strlit("Content-Type"); }
                ascii_bytes("Content-Type")
            },
            Header::ContentEncoding => {
                proof { reveal_strlit("Content-Encoding"); }
                ascii_bytes("Content-Encoding")
            },
            Header::Connection => {
                proof { reveal_strlit("Connection"); }
                ascii_bytes("Connection")
            },
        }
    }

    /// The header that `s` names, without regard to ASCII case; `None` for a
    /// name that is not one of these.
    pub fn from(s: &str) -> (r: Option<Header>)
        ensures
            r == Header::spec_from(s@),
    {
        if str_eq_ignore_ascii_case(s, "host") {
            Some(Header::Host)
        } else if str_eq_ignore_ascii_case(s, "user-agent") {
            Some(Header::UserAgent)
        } else if str_eq_ignore_ascii_case(s, "accept") {
            Some(Header::Accept)
        } else if str_eq_ignore_ascii_case(s, "accept-encoding") {
            Some(Header::AcceptEncoding)
        } else if str_eq_ignore_ascii_case(s, "content-length") {
            Some(Header::ContentLength)
        } else if str_eq_ignore_ascii_case(s, "content-type") {
            Some(Header::ContentType)
        } else if str_eq_ignore_ascii_case(s, "content-encoding") {
            Some(Header::ContentEncoding)
        } else if str_eq_ignore_ascii_case(s, "connection") {
            Some(Header::Connection)
        } else {
            None
        }
    }
}

/// Equality up to ASCII case is transitive.
pub proof fn lemma_eq_ignore_case_trans(a: Seq<char>, b: Seq<char>, c: Seq<char>)
    requires
        eq_ignore_ascii_case(a, b),
        eq_ignore_ascii_case(b, c),
    ensures
        eq_ignore_ascii_case(a, c),
{
}

/// Equality up to ASCII case is symmetric.
pub proof fn lemma_eq_ignore_case_sym(a: Seq<char>, b: Seq<char>)
    requires
        eq_ignore_ascii_case(a, b),
    ensures
        eq_ignore_ascii_case(b, a),
{
}

/// Header names are recognised without regard to ASCII case: two names
/// that differ only in case denote the same header, or both none.
pub proof fn lemma_header_from_ignores_case(s: Seq<char>, t: Seq<char>)
    requires
        eq_ignore_ascii_case(s, t),
    ensures
        Header::spec_from(s) == Header::spec_from(t),
{
    assert forall|u: Seq<char>| eq_ignore_ascii_case(s, u) <==> eq_ignore_ascii_case(t, u) by {
        lemma_eq_ignore_case_sym(s, t);
        if eq_ignore_ascii_case(s, u) {
            lemma_eq_ignore_case_trans(t, s, u);
        }
        if eq_ignore_ascii_case(t, u) {
            lemma_eq_ignore_case_trans(s, t, u);
        }
    }
}

/// Each header's canonical name is recognised as that header.
pub proof fn lemma_header_name_roundtrip(h: Header)
    ensures
        Header::spec_from(h.name()) == Some(h),
{
    reveal_strlit("Host");
    reveal_strlit("User-Agent");
    reveal_strlit("Accept");
    reveal_strlit("Accept-Encoding");
    reveal_strlit("Content-Length");
    reveal_strlit("Content-Type");
    reveal_strlit("Content-Encoding");
    reveal_strlit("Connection");
    reveal_strlit("host");
    reveal_strlit("user-agent");
    reveal_strlit("accept");
    reveal_strlit("accept-encoding");
    reveal_strlit("content-length");
    reveal_strlit("content-type");
    reveal_strlit("content-encoding");
    reveal_strlit("connection");
    match h {
        Header::Connection => {
            assert(lower_code(h.name()[0]) != lower_code("user-agent"@[0]));
        },
        _ => {},
    }
}

} // verus!
