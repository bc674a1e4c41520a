//! Messages that travel inside frames, and the two message types that the
//! library ships for tests.

use vstd::prelude::*;

verus! {

/// A message with a byte encoding: `wire` says what the encoding of a value
/// is, `parse` what a byte sequence decodes to, and every implementation
/// proves that decoding an encoding gives the value back.
pub trait WireMessage: View + Sized {
    /// The encoding of the message value `v`.
    spec fn wire(v: Self::V) -> Seq<u8>;

    /// The message value that `b` decodes to, if any.
    spec fn parse(b: Seq<u8>) -> Option<Self::V>;

    /// Decoding the encoding of `v` gives `v`.
    proof fn lemma_parse_wire(v: Self::V)
        requires
            Self::wire(v).len() <= u32::MAX,
        ensures
            Self::parse(Self::wire(v)) == Some(v),
    ;

    fn encode_payload(&self) -> (r: Vec<u8>)
        ensures
            r@ == Self::wire(self@),
    ;

    fn decode_payload(b: &[u8]) -> (r: Option<Self>)
        ensures
            match r {
                Some(m) => Self::parse(b@) == Some(m@),
                None => Self::parse(b@) is None,
            },
    ;
}

} // verus!
