use routeros_codec::error::ProtocolError;
use routeros_codec::length::decode_length;
use routeros_codec::length::encode_length;
use routeros_codec::sentence::Sentence;
use routeros_codec::stream::Deserializer;
use routeros_codec::transport::Transport;
use routeros_codec::word::Word;

fn word(content: Vec<u8>) -> Word {
    Word { content }
}

fn expect_sentence(r: Result<Option<Sentence>, ProtocolError>) -> Sentence {
    match r {
        Ok(Some(s)) => s,
        Ok(None) => panic!("expected a complete sentence, got none yet"),
        Err(_) => panic!("expected a complete sentence, got an error"),
    }
}

#[test]
fn test_length_first_order() {
    let word: Word = Word {
        content: "hi".to_owned().into_bytes(),
    };

    let want: Vec<u8> = vec![2];
    assert_eq!(want, word.get_length());
}

#[test]
fn test_length_second_order() {
    let byte_size = 0x3FFF;
    let word: Word = Word {
        content: "a".to_owned().repeat(byte_size).into_bytes(),
    };

    let want: Vec<u8> = vec![191, 255];
    assert_eq!(want, word.get_length());
}

#[test]
fn test_read_sentence() {
    let command = Word {
        content: "/test".to_owned().into_bytes(),
    };
    let attribute = Word {
        content: "=test=true".to_owned().into_bytes(),
    };
    let sentence = Sentence {
        words: vec![command, attribute],
    };

    let want: Vec<u8> = vec![
        5, 47, 116, 101, 115, 116, 10, 61, 116, 101, 115, 116, 61, 116, 114, 117, 101,
    ];
    assert_eq!(want, sentence.read_words());
}

#[test]
fn length_boundary_values_round_trip() {
    let cases: Vec<(u32, Vec<u8>)> = vec![
        (0, vec![0x00]),
        (0x7F, vec![0x7F]),
        (0x80, vec![0x80, 0x80]),
        (0x3FFF, vec![0xBF, 0xFF]),
        (0x4000, vec![0xC0, 0x40, 0x00]),
        (0x1FFFFF, vec![0xDF, 0xFF, 0xFF]),
        (0x200000, vec![0xE0, 0x20, 0x00, 0x00]),
        (0xFFFFFFF, vec![0xEF, 0xFF, 0xFF, 0xFF]),
        (0x10000000, vec![0xF0, 0x10, 0x00, 0x00, 0x00]),
        (0xFFFFFFFF, vec![0xF0, 0xFF, 0xFF, 0xFF, 0xFF]),
    ];
    for (n, expected) in cases {
        let encoded = encode_length(n);
        assert_eq!(expected, encoded);
        assert_eq!(Ok((n, encoded.len())), decode_length(&encoded, 0));
    }
}

#[test]
fn length_decode_rejects_undefined_tier() {
    let mut b: u8 = 0xF1;
    loop {
        assert_eq!(
            Err(ProtocolError::MalformedLength),
            decode_length(&vec![b, 0x00, 0x00, 0x00, 0x00], 0)
        );
        if b == 0xFF {
            break;
        }
        b += 1;
    }
}

#[test]
fn length_decode_rejects_short_prefix() {
    // a two-byte tier announced, but the buffer ends after the leading byte
    assert_eq!(Err(ProtocolError::MalformedLength), decode_length(&vec![0x80], 0));
    // an empty buffer has no leading byte at all
    assert_eq!(Err(ProtocolError::MalformedLength), decode_length(&vec![], 0));
}

#[test]
fn word_hi_encodes_as_length_then_content() {
    let w = word(b"hi".to_vec());
    assert_eq!(vec![0x02], w.get_length());
    let s = Sentence { words: vec![w] };
    assert_eq!(vec![0x02, b'h', b'i', 0x00], s.serialize());
}

#[test]
fn sentence_serialize_appends_terminator() {
    let s = Sentence {
        words: vec![word(b"/test".to_vec()), word(b"=test=true".to_vec())],
    };
    let want: Vec<u8> = vec![
        5, 47, 116, 101, 115, 116, 10, 61, 116, 101, 115, 116, 61, 116, 114, 117, 101, 0,
    ];
    assert_eq!(want, s.serialize());
}

#[test]
fn round_trip_empty_sentence() {
    let s = Sentence { words: vec![] };
    let bytes = s.serialize();
    assert_eq!(vec![0x00], bytes);
    let mut de = Deserializer::new();
    de.feed(&bytes);
    let got = expect_sentence(de.try_next());
    assert_eq!(0, got.words.len());
}

#[test]
fn round_trip_single_word() {
    let s = Sentence { words: vec![word(b"/login".to_vec())] };
    let bytes = s.serialize();
    let mut de = Deserializer::new();
    de.feed(&bytes);
    let got = expect_sentence(de.try_next());
    assert_eq!(1, got.words.len());
    assert_eq!(b"/login".to_vec(), got.words[0].content);
}

fn patterned(len: usize) -> Vec<u8> {
    let mut v = Vec::with_capacity(len);
    for i in 0..len {
        v.push((i % 251) as u8);
    }
    v
}

#[test]
fn round_trip_mixed_tier_words() {
    // one word per prefix tier that fits comfortably in memory
    let contents = vec![b"hi".to_vec(), patterned(0x80), patterned(0x4000)];
    let s = Sentence {
        words: contents.iter().map(|c| word(c.clone())).collect(),
    };
    let bytes = s.serialize();
    let mut de = Deserializer::new();
    de.feed(&bytes);
    let got = expect_sentence(de.try_next());
    assert_eq!(contents.len(), got.words.len());
    for (i, c) in contents.iter().enumerate() {
        assert_eq!(*c, got.words[i].content);
    }
}

#[test]
fn chunked_feed_matches_whole_feed() {
    let contents = vec![b"/test".to_vec(), patterned(0x80), b"=test=true".to_vec()];
    let s = Sentence {
        words: contents.iter().map(|c| word(c.clone())).collect(),
    };
    let bytes = s.serialize();

    let mut whole = Deserializer::new();
    whole.feed(&bytes);
    let from_whole = expect_sentence(whole.try_next());

    // one byte at a time: nothing comes out before the terminator
    let mut chunked = Deserializer::new();
    for i in 0..bytes.len() - 1 {
        chunked.feed(&vec![bytes[i]]);
        assert!(matches!(chunked.try_next(), Ok(None)));
    }
    chunked.feed(&vec![bytes[bytes.len() - 1]]);
    let from_chunks = expect_sentence(chunked.try_next());

    assert_eq!(from_whole.words.len(), from_chunks.words.len());
    for i in 0..from_whole.words.len() {
        assert_eq!(from_whole.words[i].content, from_chunks.words[i].content);
    }
    for (i, c) in contents.iter().enumerate() {
        assert_eq!(*c, from_chunks.words[i].content);
    }
}

#[test]
fn two_sentences_in_one_feed() {
    let first = Sentence { words: vec![word(b"/cancel".to_vec())] };
    let second = Sentence {
        words: vec![word(b"!done".to_vec()), word(b"=ret=ok".to_vec())],
    };
    let mut bytes = first.serialize();
    bytes.extend_from_slice(&second.serialize());

    let mut de = Deserializer::new();
    de.feed(&bytes);
    let got_first = expect_sentence(de.try_next());
    assert_eq!(1, got_first.words.len());
    assert_eq!(b"/cancel".to_vec(), got_first.words[0].content);
    let got_second = expect_sentence(de.try_next());
    assert_eq!(2, got_second.words.len());
    assert_eq!(b"!done".to_vec(), got_second.words[0].content);
    assert_eq!(b"=ret=ok".to_vec(), got_second.words[1].content);
    // nothing left behind the second terminator
    assert!(matches!(de.try_next(), Ok(None)));
}

#[test]
fn deserializer_rejects_undefined_tier() {
    let mut de = Deserializer::new();
    de.feed(&vec![0xF5]);
    assert!(matches!(de.try_next(), Err(ProtocolError::MalformedLength)));
    // the buffer is left as it stands, so the error repeats
    assert!(matches!(de.try_next(), Err(ProtocolError::MalformedLength)));
}

#[test]
fn deserializer_rejects_undefined_tier_mid_sentence() {
    let mut de = Deserializer::new();
    // a sound word, then a leading byte of no tier
    de.feed(&vec![0x02, b'h', b'i', 0xFF]);
    assert!(matches!(de.try_next(), Err(ProtocolError::MalformedLength)));
}

#[test]
fn transport_truncated_stream_closes_connection() {
    let mut t = Transport::new();
    assert!(t.is_open());
    // a word announced but cut off, then the stream ends (empty read)
    assert!(matches!(t.on_read(&vec![0x05, b'/', b't']), Ok(())));
    assert!(matches!(t.poll_sentence(), Ok(None)));
    assert!(matches!(t.on_read(&vec![]), Err(ProtocolError::TruncatedStream)));
    assert!(!t.is_open());
    assert!(matches!(t.poll_sentence(), Err(ProtocolError::ConnectionError)));
    assert!(matches!(t.on_read(&vec![1]), Err(ProtocolError::ConnectionError)));
}

#[test]
fn transport_partial_write_is_fatal() {
    let mut t = Transport::new();
    let s = Sentence {
        words: vec![word(b"/test".to_vec()), word(b"=test=true".to_vec())],
    };
    let bytes = match t.prepare_send(&s) {
        Ok(b) => b,
        Err(_) => panic!("open transport refused a send"),
    };
    // the underlying write reports one byte short of the serialized length
    assert!(matches!(
        t.note_write(bytes.len(), bytes.len() - 1),
        Err(ProtocolError::PartialWrite)
    ));
    assert!(!t.is_open());
    // the connection is unusable for further sends
    assert!(matches!(t.prepare_send(&s), Err(ProtocolError::ConnectionError)));
    assert!(matches!(t.note_write(1, 1), Err(ProtocolError::ConnectionError)));
}

#[test]
fn transport_full_write_keeps_connection_open() {
    let mut t = Transport::new();
    let s = Sentence { words: vec![word(b"/test".to_vec())] };
    let bytes = match t.prepare_send(&s) {
        Ok(b) => b,
        Err(_) => panic!("open transport refused a send"),
    };
    assert!(matches!(t.note_write(bytes.len(), bytes.len()), Ok(())));
    assert!(t.is_open());
}

#[test]
fn transport_assembles_fragmented_reply() {
    let reply = Sentence {
        words: vec![word(b"!done".to_vec()), word(b"=ret=ok".to_vec())],
    };
    let bytes = reply.serialize();
    let mut t = Transport::new();
    // the reply arrives in three arbitrary pieces
    let cuts = vec![0, 3, 9, bytes.len()];
    let mut got: Option<Sentence> = None;
    for i in 0..cuts.len() - 1 {
        match t.poll_sentence() {
            Ok(None) => {}
            _ => panic!("no sentence can be complete yet"),
        }
        let piece = bytes[cuts[i]..cuts[i + 1]].to_vec();
        assert!(matches!(t.on_read(&piece), Ok(())));
    }
    if let Ok(Some(s)) = t.poll_sentence() {
        got = Some(s);
    }
    let got = got.expect("the full reply should assemble");
    assert_eq!(2, got.words.len());
    assert_eq!(b"!done".to_vec(), got.words[0].content);
    assert_eq!(b"=ret=ok".to_vec(), got.words[1].content);
    assert!(t.is_open());
}

#[test]
fn transport_close_is_final() {
    let mut t = Transport::new();
    t.close();
    assert!(!t.is_open());
    let s = Sentence { words: vec![word(b"/test".to_vec())] };
    assert!(matches!(t.prepare_send(&s), Err(ProtocolError::ConnectionError)));
}
