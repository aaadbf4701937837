//! Content encodings that a client may accept.
use vstd::prelude::*;
use crate::text::{eq_ignore_ascii_case, str_eq_ignore_ascii_case};

verus! {

#[derive(Clone, Copy, Debug, PartialEq, Eq, Structural)]
pub enum Encoding {
    GZip,
}

/// The bytes that flate2's gzip encoder produces for `data` at the default
/// compression level, with the default header (no time stamp, unknown system).
pub uninterp spec fn gzip_compressed(data: Seq<u8>) -> Seq<u8>;

/// Compresses `data` with `flate2::write::GzEncoder` into a `Vec`, at
/// `Compression::default()`, and finishes the stream. The contract claims
/// success and that the bytes are `gzip_compressed(data)`: a `Vec` writer
/// never fails nor takes zero bytes, and the deflate codec reports an error
/// only for a bad parameter or a failed output buffer, which this
/// write-then-finish sequence does not reach.
#[verifier::external_body]
fn gzip(data: &[u8]) -> (r: Result<Vec<u8>, std::io::Error>)
    ensures
        r is Ok,
        r matches Ok(v) ==> v@ == gzip_compressed(data@),
{
    let mut encoder = flate2::write::GzEncoder::new(Vec::new(), flate2::Compression::default());
    match std::io::Write::write_all(&mut encoder, data) {
        Ok(()) => encoder.finish(),
        Err(e) => Err(e),
    }
}

impl Encoding {
    /// The token that names the encoding.
    pub open spec fn name(self) -> Seq<char> {
        match self {
            Encoding::GZip => "gzip"@,
        }
    }

    /// The encoding that a token names, compared without regard to ASCII case.
    pub open spec fn spec_from(s: Seq<char>) -> Option<Encoding> {
        if eq_ignore_ascii_case(s, "gzip"@) {
            Some(Encoding::GZip)
        } else {
            None
        }
    }

    pub fn as_str(&self) -> (r: &str)
        ensures
            r@ == self.name(),
    {
        match self {
            Encoding::GZip => "gzip",
        }
    }

    pub fn from(s: &str) -> (r: Option<Encoding>)
        ensures
            r == Encoding::spec_from(s@),
    {
        if str_eq_ignore_ascii_case(s, "gzip") {
            Some(Encoding::GZip)
        } else {
            None
        }
    }

    /// The body encoded for sending: the gzip stream of `body`.
    pub fn encode(&self, body: &[u8]) -> (r: Result<Vec<u8>, std::io::Error>)
        ensures
            r is Ok,
            r matches Ok(v) ==> v@ == gzip_compressed(body@),
    {
        match self {
            Encoding::GZip => gzip(body),
        }
    }
}

/// A token names an encoding exactly when it equals the encoding's name up
/// to ASCII case.
pub proof fn lemma_encoding_from_exact(s: Seq<char>, e: Encoding)
    ensures
        Encoding::spec_from(s) == Some(e) <==> eq_ignore_ascii_case(s, e.name()),
{
}

/// An encoding's own name is recognised as that encoding.
pub proof fn lemma_encoding_name_roundtrip(e: Encoding)
    ensures
        Encoding::spec_from(e.name()) == Some(e),
{
    reveal_strlit("gzip");
}

} // verus!
