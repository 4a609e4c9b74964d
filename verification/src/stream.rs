use vstd::prelude::*;
use vstd::slice::slice_subrange;
use vstd::slice::slice_to_vec;

use crate::error::ProtocolError;
use crate::length::lemma_encode_length_round_trip;
use crate::length::prefix_width;
use crate::length::read_prefix;
use crate::length::spec_encode_length;
use crate::length::spec_prefix_value;
use crate::length::spec_prefix_width;
use crate::sentence::Sentence;
use crate::sentence::all_words_wf;
use crate::sentence::push_all;
use crate::sentence::spec_serialize;
use crate::sentence::spec_serialize_words;
use crate::word::Word;
use crate::word::spec_word_wire;

verus! {

/// The outcome of reading one sentence from the front of a byte sequence.
pub ghost enum Parse {
    /// A length-prefix leading byte matches no defined tier; byte alignment
    /// is lost.
    Malformed,
    /// The bytes are a proper prefix of a sentence encoding; more input is
    /// needed before a sentence or an error can be produced.
    Incomplete,
    /// One whole sentence stands at the front: its words in order, and the
    /// number of bytes its encoding occupies, terminator included.
    Complete { words: Seq<Seq<u8>>, consumed: nat },
}

/// Reads one sentence from the front of `b`: words are decoded in order —
/// a length prefix, then that many content bytes — until a decoded length
/// of zero, which ends the sentence without a content body. Bytes behind
/// the terminator are left untouched.
pub open spec fn parse(b: Seq<u8>) -> Parse
    decreases b.len(),
{
    if b.len() == 0 {
        Parse::Incomplete
    } else {
        match spec_prefix_width(b[0]) {
            None => Parse::Malformed,
            Some(w) => {
                if b.len() < w {
                    Parse::Incomplete
                } else {
                    let n = spec_prefix_value(b.subrange(0, w));
                    if n == 0 {
                        Parse::Complete { words: Seq::empty(), consumed: w as nat }
                    } else if b.len() < w + n {
                        Parse::Incomplete
                    } else {
                        match parse(b.skip(w + n)) {
                            Parse::Malformed => Parse::Malformed,
                            Parse::Incomplete => Parse::Incomplete,
                            Parse::Complete { words, consumed } => Parse::Complete {
                                words: seq![b.subrange(w, w + n)] + words,
                                consumed: (w + n + consumed) as nat,
                            },
                        }
                    }
                }
            },
        }
    }
}

/// `p` seen from a point `off` bytes and `ws` whole words into the stream.
pub open spec fn parse_prepend(ws: Seq<Seq<u8>>, off: nat, p: Parse) -> Parse {
    match p {
        Parse::Malformed => Parse::Malformed,
        Parse::Incomplete => Parse::Incomplete,
        Parse::Complete { words, consumed } => Parse::Complete {
            words: ws + words,
            consumed: (off + consumed) as nat,
        },
    }
}

/// Nothing consumed yet leaves a parse outcome unchanged.
proof fn lemma_prepend_zero(p: Parse)
    ensures
        parse_prepend(Seq::empty(), 0, p) == p,
{
    match p {
        Parse::Complete { words, consumed } => {
            assert(Seq::<Seq<u8>>::empty() + words =~= words);
        },
        _ => {},
    }
}

/// Consuming in two steps is consuming in one.
proof fn lemma_prepend_compose(ws1: Seq<Seq<u8>>, off1: nat, ws2: Seq<Seq<u8>>, off2: nat, p: Parse)
    ensures
        parse_prepend(ws1, off1, parse_prepend(ws2, off2, p)) == parse_prepend(
            ws1 + ws2,
            (off1 + off2) as nat,
            p,
        ),
{
    match p {
        Parse::Complete { words, consumed } => {
            assert(ws1 + (ws2 + words) =~= (ws1 + ws2) + words);
        },
        _ => {},
    }
}

/// Unfolds `parse` across one whole word standing at the front of `b`.
proof fn lemma_parse_word_step(b: Seq<u8>, w: int, n: u32)
    requires
        1 <= w <= b.len(),
        spec_prefix_width(b[0]) == Some(w),
        spec_prefix_value(b.subrange(0, w)) == n,
        n > 0,
        w + n <= b.len(),
    ensures
        parse(b) == parse_prepend(
            seq![b.subrange(w, w + n)],
            (w + n) as nat,
            parse(b.skip(w + n)),
        ),
{
    match parse(b.skip(w + n)) {
        Parse::Malformed => {},
        Parse::Incomplete => {},
        Parse::Complete { words, consumed } => {},
    }
}

/// Parsing right through one serialized sentence: the words come back
/// exactly, and the encoding is consumed to the byte, whatever bytes follow
/// it on the stream.
pub proof fn lemma_parse_serialized(ws: Seq<Seq<u8>>, rest: Seq<u8>)
    requires
        all_words_wf(ws),
    ensures
        parse(spec_serialize(ws) + rest) == (Parse::Complete {
            words: ws,
            consumed: spec_serialize(ws).len() as nat,
        }),
    decreases ws.len(),
{
    let s = spec_serialize(ws);
    let b = s + rest;
    if ws.len() == 0 {
        assert(spec_serialize_words(ws) == Seq::<u8>::empty());
        assert(s =~= seq![0u8]);
        assert(b[0] == 0u8);
        assert(b.subrange(0, 1) =~= seq![0u8]);
        assert(spec_prefix_value(seq![0u8]) == 0);
        assert(ws =~= Seq::<Seq<u8>>::empty());
    } else {
        let w0 = ws[0];
        assert(1 <= w0.len() <= 0xffffffff);
        let n32 = w0.len() as u32;
        let enc = spec_encode_length(n32);
        lemma_encode_length_round_trip(n32);
        let wdt = enc.len() as int;
        let s1 = spec_serialize(ws.skip(1));
        assert(spec_serialize_words(ws) == spec_word_wire(w0) + spec_serialize_words(ws.skip(1)));
        assert(s =~= (enc + w0) + s1);
        let tail = s1 + rest;
        assert(b =~= ((enc + w0) + s1) + rest);
        assert(b =~= (enc + w0) + tail);
        assert(b[0] == enc[0]);
        assert(b.subrange(0, wdt) =~= enc);
        assert(b.subrange(wdt, wdt + n32) =~= w0);
        assert(b.skip(wdt + n32) =~= tail);
        assert(all_words_wf(ws.skip(1))) by {
            assert forall|i: int| 0 <= i < ws.skip(1).len() implies 1 <= (#[trigger] ws.skip(
                1,
            )[i]).len() <= 0xffffffff by {
                assert(ws.skip(1)[i] == ws[i + 1]);
            }
        }
        lemma_parse_serialized(ws.skip(1), rest);
        lemma_parse_word_step(b, wdt, n32);
        assert(seq![w0] + ws.skip(1) =~= ws);
        assert(s.len() == wdt + n32 + s1.len());
    }
}

/// Law (round trip): deserializing the serialized form of any sentence made
/// of ordinary words yields exactly that sentence's words, consuming its
/// whole encoding, terminator included.
pub proof fn lemma_round_trip(ws: Seq<Seq<u8>>)
    requires
        all_words_wf(ws),
    ensures
        parse(spec_serialize(ws)) == (Parse::Complete {
            words: ws,
            consumed: spec_serialize(ws).len() as nat,
        }),
{
    lemma_parse_serialized(ws, Seq::empty());
    assert(spec_serialize(ws) + Seq::<u8>::empty() =~= spec_serialize(ws));
}

/// Every strict prefix of a serialized sentence parses as incomplete: the
/// deserializer neither errs nor produces a sentence before the terminator
/// has arrived.
pub proof fn lemma_serialized_prefix_incomplete(ws: Seq<Seq<u8>>, i: int)
    requires
        all_words_wf(ws),
        0 <= i < spec_serialize(ws).len(),
    ensures
        parse(spec_serialize(ws).take(i)) is Incomplete,
    decreases ws.len(),
{
    let s = spec_serialize(ws);
    let p = s.take(i);
    if i == 0 {
        assert(p =~= Seq::<u8>::empty());
    } else if ws.len() == 0 {
        assert(spec_serialize_words(ws) == Seq::<u8>::empty());
        assert(s =~= seq![0u8]);
    } else {
        let w0 = ws[0];
        assert(1 <= w0.len() <= 0xffffffff);
        let n32 = w0.len() as u32;
        let enc = spec_encode_length(n32);
        lemma_encode_length_round_trip(n32);
        let wdt = enc.len() as int;
        let s1 = spec_serialize(ws.skip(1));
        assert(spec_serialize_words(ws) == spec_word_wire(w0) + spec_serialize_words(ws.skip(1)));
        assert(s =~= (enc + w0) + s1);
        assert(p[0] == enc[0]);
        if i < wdt {
            assert(p.len() < wdt);
        } else if i < wdt + n32 {
            assert(p.subrange(0, wdt) =~= enc);
            assert(p.len() < wdt + n32);
        } else {
            let i1 = i - wdt - n32;
            assert(s.len() == wdt + n32 + s1.len());
            assert(0 <= i1 < s1.len());
            assert(p.subrange(0, wdt) =~= enc);
            assert(p.subrange(wdt, wdt + n32) =~= w0);
            assert(p.skip(wdt + n32) =~= s1.take(i1));
            assert(all_words_wf(ws.skip(1))) by {
                assert forall|j: int| 0 <= j < ws.skip(1).len() implies 1 <= (#[trigger] ws.skip(
                    1,
                )[j]).len() <= 0xffffffff by {
                    assert(ws.skip(1)[j] == ws[j + 1]);
                }
            }
            lemma_serialized_prefix_incomplete(ws.skip(1), i1);
            lemma_parse_word_step(p, wdt, n32);
        }
    }
}

/// Law (fragmentation independence): cutting the serialized form of a
/// sentence at any point gives a first piece that the deserializer only
/// buffers — no sentence and no error comes out of it — and a remainder
/// whose arrival completes exactly the original sentence. Since the
/// deserializer's buffer holds the concatenation of everything fed, feeding
/// the pieces in turn ends in the same state as feeding the whole encoding
/// at once.
pub proof fn lemma_split_feed(ws: Seq<Seq<u8>>, i: int)
    requires
        all_words_wf(ws),
        0 <= i < spec_serialize(ws).len(),
    ensures
        parse(spec_serialize(ws).take(i)) is Incomplete,
        parse(spec_serialize(ws).take(i) + spec_serialize(ws).skip(i)) == (Parse::Complete {
            words: ws,
            consumed: spec_serialize(ws).len() as nat,
        }),
{
    lemma_serialized_prefix_incomplete(ws, i);
    assert(spec_serialize(ws).take(i) + spec_serialize(ws).skip(i) =~= spec_serialize(ws));
    lemma_round_trip(ws);
}

/// What one pass over the buffer found.
enum Scan {
    /// A length prefix with an undefined leading byte stands in the buffer.
    Malformed,
    /// The buffer is a proper prefix of a sentence encoding.
    Incomplete,
    /// One whole sentence: its words, and how many buffered bytes its
    /// encoding occupies.
    Complete(Vec<Word>, usize),
}

/// Scans the buffer for one complete sentence, mirroring `parse`.
fn scan(buf: &Vec<u8>) -> (r: Scan)
    ensures
        r is Incomplete ==> parse(buf@) is Incomplete,
        r is Malformed ==> parse(buf@) is Malformed,
        r matches Scan::Complete(ws, consumed) ==> {
            &&& parse(buf@) == (Parse::Complete {
                words: ws@.map_values(|x: Word| x@),
                consumed: consumed as nat,
            })
            &&& consumed <= buf@.len()
            &&& forall|i: int| 0 <= i < ws@.len() ==> (#[trigger] ws@[i]).wf()
        },
{
    let mut offset: usize = 0;
    let mut words: Vec<Word> = Vec::new();
    proof {
        assert(buf@.skip(0) =~= buf@);
        assert(words@.map_values(|x: Word| x@) =~= Seq::<Seq<u8>>::empty());
        lemma_prepend_zero(parse(buf@));
    }
    loop
        invariant
            offset <= buf@.len(),
            parse(buf@) == parse_prepend(
                words@.map_values(|x: Word| x@),
                offset as nat,
                parse(buf@.skip(offset as int)),
            ),
            forall|i: int| 0 <= i < words@.len() ==> (#[trigger] words@[i]).wf(),
        decreases buf@.len() - offset,
    {
        let ghost skip_o = buf@.skip(offset as int);
        if offset == buf.len() {
            proof {
                assert(skip_o =~= Seq::<u8>::empty());
            }
            return Scan::Incomplete;
        }
        let b0 = buf[offset];
        proof {
            assert(skip_o.len() == buf@.len() - offset);
            assert(skip_o[0] == buf@[offset as int]);
        }
        match prefix_width(b0) {
            None => {
                return Scan::Malformed;
            },
            Some(w) => {
                if buf.len() - offset < w {
                    return Scan::Incomplete;
                }
                let n = read_prefix(buf, offset, w);
                proof {
                    assert(skip_o.subrange(0, w as int) =~= buf@.subrange(
                        offset as int,
                        offset + w,
                    ));
                }
                if n == 0 {
                    proof {
                        assert(parse(skip_o) == (Parse::Complete {
                            words: Seq::<Seq<u8>>::empty(),
                            consumed: w as nat,
                        }));
                        assert(words@.map_values(|x: Word| x@) + Seq::<Seq<u8>>::empty()
                            =~= words@.map_values(|x: Word| x@));
                    }
                    return Scan::Complete(words, offset + w);
                }
                let rem = buf.len() - offset - w;
                if (rem as u64) < (n as u64) {
                    return Scan::Incomplete;
                }
                let n_us = n as usize;
                let content = slice_to_vec(slice_subrange(buf.as_slice(), offset + w, offset + w + n_us));
                proof {
                    assert(skip_o.subrange(w as int, w + n) =~= buf@.subrange(
                        offset + w,
                        offset + w + n,
                    ));
                    assert(skip_o.skip(w + n) =~= buf@.skip(offset + w + n));
                    lemma_parse_word_step(skip_o, w as int, n);
                    lemma_prepend_compose(
                        words@.map_values(|x: Word| x@),
                        offset as nat,
                        seq![skip_o.subrange(w as int, w + n)],
                        (w + n) as nat,
                        parse(buf@.skip(offset + w + n)),
                    );
                }
                let ghost words_before = words@;
                words.push(Word { content });
                proof {
                    assert(words@.map_values(|x: Word| x@) =~= words_before.map_values(
                        |x: Word| x@,
                    ) + seq![buf@.subrange(offset + w, offset + w + n)]);
                }
                offset = offset + w + n_us;
            },
        }
    }
}

/// Incremental sentence deserializer: buffers bytes fed from a stream and
/// yields a sentence as soon as its terminator has arrived. A single read
/// may deliver less than one word, several words, or stop mid-prefix; bytes
/// not yet consumed stay buffered and are resumed on the next call rather
/// than assuming one read equals one sentence.
pub struct Deserializer {
    buf: Vec<u8>,
}

impl View for Deserializer {
    type V = Seq<u8>;

    closed spec fn view(&self) -> Seq<u8> {
        self.buf@
    }
}

impl Deserializer {
    /// A fresh deserializer holding no bytes.
    pub fn new() -> (r: Deserializer)
        ensures
            r@ == Seq::<u8>::empty(),
    {
        Deserializer { buf: Vec::new() }
    }

    /// Buffers one chunk read from the stream behind what is already held.
    pub fn feed(&mut self, chunk: &Vec<u8>)
        ensures
            final (self)@ == old(self)@ + chunk@,
    {
        push_all(&mut self.buf, chunk);
    }

    /// Takes one complete sentence off the front of the buffer, if its
    /// terminator has arrived.
    ///
    /// Exactly one of three things happens, decided by `parse` of the
    /// buffered bytes: a sentence is returned and its encoding removed
    /// (bytes behind the terminator stay buffered for the next sentence);
    /// `None` is returned because the terminator has not arrived yet; or
    /// `MalformedLength` is returned because a length prefix has an
    /// undefined leading byte, the buffer left as it stands.
    pub fn try_next(&mut self) -> (r: Result<Option<Sentence>, ProtocolError>)
        ensures
            parse(old(self)@) is Incomplete ==> (r matches Ok(o) && o is None && final (self)@
                == old(self)@),
            parse(old(self)@) is Malformed ==> (r matches Err(e) && e
                == ProtocolError::MalformedLength && final (self)@ == old(self)@),
            parse(old(self)@) matches Parse::Complete { words, consumed } ==> {
                &&& r matches Ok(o)
                &&& o matches Some(s)
                &&& s@ == words
                &&& s.wf()
                &&& final (self)@ == old(self)@.skip(consumed as int)
            },
    {
        match scan(&self.buf) {
            Scan::Malformed => Err(ProtocolError::MalformedLength),
            Scan::Incomplete => Ok(None),
            Scan::Complete(ws, consumed) => {
                let tail = self.buf.split_off(consumed);
                self.buf = tail;
                Ok(Some(Sentence { words: ws }))
            },
        }
    }
}

} // verus!
