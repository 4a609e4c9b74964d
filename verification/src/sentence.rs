use vstd::prelude::*;

use crate::word::Word;
use crate::word::spec_word_wire;

verus! {

/// An ordered, finite sequence of words: the unit of one request or one
/// reply. Order is significant (the first word is conventionally a command
/// or reply-type marker). The in-memory form carries no terminator; the
/// terminator byte is introduced by `serialize` and consumed by the
/// deserializer.
pub struct Sentence {
    pub words: Vec<Word>,
}

impl View for Sentence {
    type V = Seq<Seq<u8>>;

    open spec fn view(&self) -> Seq<Seq<u8>> {
        self.words@.map_values(|w: Word| w@)
    }
}

/// The concatenated wire form of a list of words, in order, without the
/// sentence terminator.
pub open spec fn spec_serialize_words(ws: Seq<Seq<u8>>) -> Seq<u8>
    decreases ws.len(),
{
    if ws.len() == 0 {
        Seq::empty()
    } else {
        spec_word_wire(ws[0]) + spec_serialize_words(ws.skip(1))
    }
}

/// The full wire form of a sentence: every word in order, then the
/// terminator byte `0x00`, the degenerate one-byte prefix of value zero.
pub open spec fn spec_serialize(ws: Seq<Seq<u8>>) -> Seq<u8> {
    spec_serialize_words(ws) + seq![0u8]
}

/// Every word in the list is an ordinary word: non-empty content within the
/// protocol ceiling of 32 bits.
pub open spec fn all_words_wf(ws: Seq<Seq<u8>>) -> bool {
    forall|i: int| 0 <= i < ws.len() ==> 1 <= (#[trigger] ws[i]).len() <= 0xffffffff
}

/// A well-formed sentence denotes a list of ordinary words.
pub proof fn lemma_sentence_wf_words(s: &Sentence)
    requires
        s.wf(),
    ensures
        all_words_wf(s@),
{
    assert forall|i: int| 0 <= i < s@.len() implies 1 <= (#[trigger] s@[i]).len()
        <= 0xffffffff by {
        assert(s.words@[i].wf());
        assert(s@[i] == s.words@[i]@);
    }
}

/// Appending one word to a sentence appends exactly that word's wire form
/// to the sentence's wire bytes.
pub proof fn lemma_serialize_words_push(ws: Seq<Seq<u8>>, w: Seq<u8>)
    ensures
        spec_serialize_words(ws.push(w)) == spec_serialize_words(ws) + spec_word_wire(w),
    decreases ws.len(),
{
    assert(ws.push(w).len() == ws.len() + 1);
    assert(ws.push(w)[0 as int] == if ws.len() == 0 {
        w
    } else {
        ws[0]
    });
    assert(spec_serialize_words(ws.push(w)) == spec_word_wire(ws.push(w)[0])
        + spec_serialize_words(ws.push(w).skip(1)));
    if ws.len() == 0 {
        assert(ws.push(w).skip(1) =~= Seq::<Seq<u8>>::empty());
        assert(spec_serialize_words(Seq::<Seq<u8>>::empty()) == Seq::<u8>::empty());
        assert(spec_word_wire(w) + Seq::<u8>::empty() =~= spec_word_wire(w));
        assert(Seq::<u8>::empty() + spec_word_wire(w) =~= spec_word_wire(w));
    } else {
        lemma_serialize_words_push(ws.skip(1), w);
        assert(ws.push(w).skip(1) =~= ws.skip(1).push(w));
        assert(spec_serialize_words(ws) == spec_word_wire(ws[0]) + spec_serialize_words(
            ws.skip(1),
        ));
        assert(spec_word_wire(ws[0]) + (spec_serialize_words(ws.skip(1)) + spec_word_wire(w)) =~= (
        spec_word_wire(ws[0]) + spec_serialize_words(ws.skip(1))) + spec_word_wire(w));
    }
}

/// Appends all of `src` to the end of `dst`.
pub(crate) fn push_all(dst: &mut Vec<u8>, src: &Vec<u8>)
    ensures
        final (dst)@ == old(dst)@ + src@,
{
    let ghost dst0 = dst@;
    let mut i: usize = 0;
    while i < src.len()
        invariant
            i <= src@.len(),
            dst@ == dst0 + src@.take(i as int),
        decreases src@.len() - i,
    {
        dst.push(src[i]);
        proof {
            assert(dst0 + src@.take(i + 1) =~= (dst0 + src@.take(i as int)).push(src@[i as int]));
        }
        i += 1;
    }
    proof {
        assert(src@.take(src@.len() as int) =~= src@);
    }
}

impl Sentence {
    /// Every word's content length stays within the protocol ceiling.
    pub open spec fn encodable(&self) -> bool {
        forall|i: int|
            0 <= i < self.words@.len() ==> (#[trigger] self.words@[i]).encodable()
    }

    /// Every word is an ordinary word: non-empty content within the
    /// protocol ceiling.
    pub open spec fn wf(&self) -> bool {
        forall|i: int| 0 <= i < self.words@.len() ==> (#[trigger] self.words@[i]).wf()
    }

    /// The concatenated wire form of every word in order: each word's
    /// length prefix followed by its content bytes, without the sentence
    /// terminator.
    pub fn read_words(&self) -> (r: Vec<u8>)
        requires
            self.encodable(),
        ensures
            r@ == spec_serialize_words(self@),
    {
        let mut sentence: Vec<u8> = Vec::new();
        let mut i: usize = 0;
        while i < self.words.len()
            invariant
                i <= self.words@.len(),
                self.encodable(),
                sentence@ == spec_serialize_words(self@.take(i as int)),
            decreases self.words@.len() - i,
        {
            let prefix = self.words[i].get_length();
            push_all(&mut sentence, &prefix);
            push_all(&mut sentence, &self.words[i].content);
            proof {
                assert(self@[i as int] == self.words@[i as int]@);
                assert(self@.take(i + 1) =~= self@.take(i as int).push(self@[i as int]));
                lemma_serialize_words_push(self@.take(i as int), self@[i as int]);
                assert(sentence@ =~= spec_serialize_words(self@.take(i as int)) + spec_word_wire(
                    self@[i as int],
                ));
            }
            i += 1;
        }
        proof {
            assert(self@.take(self.words@.len() as int) =~= self@);
        }
        sentence
    }

    /// The full wire form of the sentence: every word in order, then the
    /// terminator byte `0x00`.
    pub fn serialize(&self) -> (r: Vec<u8>)
        requires
            self.encodable(),
        ensures
            r@ == spec_serialize(self@),
    {
        let mut r = self.read_words();
        r.push(0u8);
        proof {
            assert(r@ =~= spec_serialize(self@));
        }
        r
    }
}

} // verus!
