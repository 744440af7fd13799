//! Message bodies: the bytes of a request or a response, and how much of them is kept.

use vstd::prelude::*;
use vstd::utf8::{decode_utf8, encode_utf8, valid_utf8};

verus! {

/// A shared, immutable buffer of bytes (`bytes::Bytes`).
#[verifier::external_type_specification]
#[verifier::external_body]
pub struct ExBytes(bytes::Bytes);

/// The bytes that a buffer holds.
pub uninterp spec fn bytes_in(b: bytes::Bytes) -> Seq<u8>;

/// `Bytes::from(Vec<u8>)`: the buffer holds the bytes of the vector.
#[verifier::external_body]
pub(crate) fn bytes_from(v: Vec<u8>) -> (r: bytes::Bytes)
    ensures
        bytes_in(r) == v@,
{
    bytes::Bytes::from(v)
}

/// `Bytes::as_ref`: the bytes of the buffer as a slice.
#[verifier::external_body]
pub(crate) fn bytes_slice(b: &bytes::Bytes) -> (r: &[u8])
    ensures
        r@ == bytes_in(*b),
{
    b.as_ref()
}

/// `Bytes::clone`: a second buffer with the same bytes.
pub assume_specification[ <bytes::Bytes as Clone>::clone ](b: &bytes::Bytes) -> (r: bytes::Bytes)
    ensures
        bytes_in(r) == bytes_in(*b),
;

/// The text that `String::from_utf8_lossy` makes of bytes.
pub uninterp spec fn lossy_text(b: Seq<u8>) -> Seq<char>;

/// `String::from_utf8_lossy`: bytes that are UTF-8 give the text that they encode; in others
/// each malformed sequence gives a replacement character.
#[verifier::external_body]
pub(crate) fn lossy(b: &[u8]) -> (r: String)
    ensures
        r@ == lossy_text(b@),
        valid_utf8(b@) ==> r@ == decode_utf8(b@),
{
    String::from_utf8_lossy(b).into_owned()
}

/// What an optional buffer holds.
pub open spec fn opt_bytes(b: Option<bytes::Bytes>) -> Option<Seq<u8>> {
    match b {
        Some(x) => Some(bytes_in(x)),
        None => None,
    }
}

/// A second optional buffer with the same bytes.
pub(crate) fn clone_opt(b: &Option<bytes::Bytes>) -> (r: Option<bytes::Bytes>)
    ensures
        opt_bytes(r) == opt_bytes(*b),
{
    match b {
        Some(x) => Some(x.clone()),
        None => None,
    }
}

/// A buffer with the UTF-8 encoding of a text.
pub fn bytes_of_text(s: &str) -> (r: bytes::Bytes)
    ensures
        bytes_in(r) == encode_utf8(s@),
{
    let v = copied(s.as_bytes());
    bytes_from(v)
}

/// The bytes of a slice in a vector of their own.
pub(crate) fn copied(s: &[u8]) -> (v: Vec<u8>)
    ensures
        v@ == s@,
{
    let mut v: Vec<u8> = Vec::new();
    let mut i: usize = 0;
    while i < s.len()
        invariant
            i <= s@.len(),
            v@ == s@.take(i as int),
        decreases s@.len() - i,
    {
        v.push(s[i]);
        i += 1;
    }
    assert(s@.take(i as int) =~= s@);
    v
}

/// The largest body, in bytes, that is kept with its exchange. A larger one passes through
/// without being kept.
pub const BODY_CAPTURE_LIMIT: usize = 16 * 1024 * 1024;

/// What is kept of a body that arrived in `chunks`: all of it, or nothing if it is too large.
pub open spec fn captured(chunks: Seq<Seq<u8>>) -> Option<Seq<u8>> {
    if chunks.flatten().len() <= BODY_CAPTURE_LIMIT {
        Some(chunks.flatten())
    } else {
        None
    }
}

/// A body while it arrives, chunk by chunk.
pub struct BodyCapture {
    kept: Option<Vec<u8>>,
    seen: Ghost<Seq<Seq<u8>>>,
}

impl View for BodyCapture {
    type V = Seq<Seq<u8>>;

    /// The chunks that have arrived.
    closed spec fn view(&self) -> Seq<Seq<u8>> {
        self.seen@
    }
}

impl BodyCapture {
    /// What is held is what is to be kept of the chunks so far.
    #[verifier::type_invariant]
    spec fn wf(self) -> bool {
        match self.kept {
            Some(v) => captured(self.seen@) == Some(v@),
            None => captured(self.seen@) is None,
        }
    }

    /// A body of which nothing has arrived.
    pub fn new() -> (r: Self)
        ensures
            r@ == Seq::<Seq<u8>>::empty(),
    {
        let ghost none = Seq::<Seq<u8>>::empty();
        assert(none.flatten() =~= Seq::<u8>::empty());
        BodyCapture { kept: Some(Vec::new()), seen: Ghost(none) }
    }

    /// The body with one more chunk.
    pub fn push(self, chunk: &[u8]) -> (r: Self)
        ensures
            r@ == self@.push(chunk@),
    {
        proof {
            use_type_invariant(&self);
            self.seen@.lemma_flatten_push(chunk@);
        }
        let ghost seen = self.seen@.push(chunk@);
        match self.kept {
            Some(v) => {
                if chunk.len() <= BODY_CAPTURE_LIMIT - v.len() {
                    let mut v = v;
                    let ghost before = v@;
                    let mut i: usize = 0;
                    while i < chunk.len()
                        invariant
                            i <= chunk@.len(),
                            v@ == before + chunk@.take(i as int),
                        decreases chunk@.len() - i,
                    {
                        v.push(chunk[i]);
                        i += 1;
                        assert(v@ =~= before + chunk@.take(i as int));
                    }
                    assert(chunk@.take(i as int) =~= chunk@);
                    BodyCapture { kept: Some(v), seen: Ghost(seen) }
                } else {
                    BodyCapture { kept: None, seen: Ghost(seen) }
                }
            },
            None => BodyCapture { kept: None, seen: Ghost(seen) },
        }
    }

    /// Whether the body is already too large to be kept.
    pub fn is_over(&self) -> (r: bool)
        ensures
            r == (captured(self@) is None),
    {
        proof {
            use_type_invariant(self);
        }
        self.kept.is_none()
    }

    /// What is kept of the body.
    pub fn finish(self) -> (r: Option<bytes::Bytes>)
        ensures
            opt_bytes(r) == captured(self@),
    {
        proof {
            use_type_invariant(&self);
        }
        match self.kept {
            Some(v) => Some(bytes_from(v)),
            None => None,
        }
    }
}

/// A body that has become too large stays so, whatever else arrives.
pub proof fn law_over_stays_over(chunks: Seq<Seq<u8>>, c: Seq<u8>)
    requires
        captured(chunks) is None,
    ensures
        captured(chunks.push(c)) is None,
{
    chunks.lemma_flatten_push(c);
}

/// A body is kept whole if it is at most sixteen mebibytes long, however it was cut into chunks;
/// of a longer one nothing is kept.
pub proof fn law_captured_whole_or_not(chunks: Seq<Seq<u8>>, body: Seq<u8>)
    requires
        chunks.flatten() == body,
    ensures
        body.len() <= 16_777_216 ==> captured(chunks) == Some(body),
        body.len() > 16_777_216 ==> captured(chunks) is None,
{
}

/// A chunk more is kept behind those before it.
pub proof fn law_chunks_are_kept_in_order(chunks: Seq<Seq<u8>>, c: Seq<u8>)
    ensures
        captured(Seq::empty()) == Some(Seq::<u8>::empty()),
        captured(chunks.push(c)) is Some ==> captured(chunks) is Some && captured(chunks.push(c))->0
            == captured(chunks)->0 + c,
{
    assert(Seq::<Seq<u8>>::empty().flatten() =~= Seq::<u8>::empty());
    chunks.lemma_flatten_push(c);
}

/// A buffer that is there is seen by its bytes.
pub proof fn law_buffers_are_seen(b: bytes::Bytes)
    ensures
        opt_bytes(Some(b)) == Some(bytes_in(b)),
        opt_bytes(None) is None,
{
}

} // verus!
