//! The body of a request: text when its bytes are UTF-8, raw bytes otherwise.
use vstd::prelude::*;
use vstd::utf8::*;

verus! {

/// A request body.
#[derive(Debug)]
pub enum Body {
    Text(String),
    Binary(Vec<u8>),
}

/// The contents of a body.
pub enum BodyView {
    Text(Seq<char>),
    Binary(Seq<u8>),
}

impl BodyView {
    /// The bytes of the body: a text body is UTF-8 encoded.
    pub open spec fn bytes(self) -> Seq<u8> {
        match self {
            BodyView::Text(s) => encode_utf8(s),
            BodyView::Binary(b) => b,
        }
    }

    /// The text of the body, if it is a text body.
    pub open spec fn text(self) -> Option<Seq<char>> {
        match self {
            BodyView::Text(s) => Some(s),
            BodyView::Binary(_) => None,
        }
    }
}

/// The body read from `b`: text when `b` is valid UTF-8, raw bytes otherwise.
pub open spec fn body_from_bytes(b: Seq<u8>) -> BodyView {
    if valid_utf8(b) {
        BodyView::Text(decode_utf8(b))
    } else {
        BodyView::Binary(b)
    }
}

impl View for Body {
    type V = BodyView;

    open spec fn view(&self) -> BodyView {
        match self {
            Body::Text(s) => BodyView::Text(s@),
            Body::Binary(b) => BodyView::Binary(b@),
        }
    }
}

/// `std::str::from_utf8`.
/// Claimed: it succeeds exactly on valid UTF-8, and then yields the
/// characters that the bytes encode.
#[verifier::external_body]
fn utf8_text(bytes: &[u8]) -> (r: Option<&str>)
    ensures
        r is Some <==> valid_utf8(bytes@),
        r matches Some(s) ==> s@ == decode_utf8(bytes@),
{
    std::str::from_utf8(bytes).ok()
}

impl Body {
    /// The text of a text body; `None` for a binary body.
    pub fn as_text(&self) -> (r: Option<&str>)
        ensures
            match r {
                Some(s) => self@.text() == Some(s@),
                None => self@.text() is None,
            },
    {
        match self {
            Body::Text(s) => Some(s.as_str()),
            Body::Binary(_) => None,
        }
    }

    /// The bytes of the body (a text body as UTF-8).
    pub fn as_bytes(&self) -> (r: &[u8])
        ensures
            r@ == self@.bytes(),
    {
        match self {
            Body::Text(s) => s.as_str().as_bytes(),
            Body::Binary(b) => b.as_slice(),
        }
    }

    /// A text body when `bytes` are valid UTF-8, a binary body otherwise.
    pub fn from_bytes(bytes: Vec<u8>) -> (r: Body)
        ensures
            r@ == body_from_bytes(bytes@),
    {
        let text = match utf8_text(bytes.as_slice()) {
            Some(s) => Some(s.to_owned()),
            None => None,
        };
        match text {
            Some(s) => Body::Text(s),
            None => Body::Binary(bytes),
        }
    }

    /// A text body.
    pub fn from_string(s: String) -> (r: Body)
        ensures
            r@ == BodyView::Text(s@),
    {
        Body::Text(s)
    }
}

/// Reading a body from bytes keeps the bytes: `from_bytes(b).as_bytes() == b`.
pub proof fn lemma_from_bytes_keeps_bytes(b: Seq<u8>)
    ensures
        body_from_bytes(b).bytes() == b,
{
    if valid_utf8(b) {
        decode_utf8_encode_utf8(b);
    }
}

/// A body read from bytes is text exactly when the bytes are valid UTF-8.
pub proof fn lemma_from_bytes_is_text(b: Seq<u8>)
    ensures
        body_from_bytes(b).text() is Some <==> valid_utf8(b),
{
}

/// A text body written out as bytes and read back is the same text body.
pub proof fn lemma_text_roundtrip(s: Seq<char>)
    ensures
        body_from_bytes(BodyView::Text(s).bytes()) == BodyView::Text(s),
{
    encode_utf8_valid_utf8(s);
    encode_utf8_decode_utf8(s);
}

} // verus!
