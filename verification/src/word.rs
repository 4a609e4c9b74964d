use vstd::prelude::*;

use crate::length::encode_length;
use crate::length::spec_encode_length;

verus! {

/// One word of the wire format: an opaque byte string, length-prefixed on
/// the wire. Commands, parameter strings and tag markers are all words; this
/// layer makes no structural distinction between them.
pub struct Word {
    pub content: Vec<u8>,
}

impl View for Word {
    type V = Seq<u8>;

    open spec fn view(&self) -> Seq<u8> {
        self.content@
    }
}

/// The wire form of one word: the tiered prefix of its content length, then
/// the content bytes themselves.
pub open spec fn spec_word_wire(content: Seq<u8>) -> Seq<u8> {
    spec_encode_length(content.len() as u32) + content
}

impl Word {
    /// The content length stays within the protocol ceiling of 32 bits, so
    /// that its length prefix has a defined tier.
    pub open spec fn encodable(&self) -> bool {
        self.content@.len() <= 0xffffffff
    }

    /// An ordinary word: non-empty content within the protocol ceiling. The
    /// reserved zero-length terminator is a wire-format artifact of the
    /// sentence codec and is never represented as a `Word`.
    pub open spec fn wf(&self) -> bool {
        1 <= self.content@.len() <= 0xffffffff
    }

    /// The wire prefix announcing this word's content length.
    pub fn get_length(&self) -> (r: Vec<u8>)
        requires
            self.encodable(),
        ensures
            r@ == spec_encode_length(self.content@.len() as u32),
    {
        encode_length(self.content.len() as u32)
    }
}

} // verus!
