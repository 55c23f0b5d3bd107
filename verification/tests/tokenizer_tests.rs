use dart_piper_tts::tokenizer::{
    decode, encode, model_text, GreedyDecoder, EOS_TOKEN_ID, PAD_TOKEN_ID,
};

#[test]
fn encode_shifts_bytes_past_special_tokens() {
    let ids = encode("en", "hi");
    let expected: Vec<i64> = "<en>: hi".bytes().map(|b| b as i64 + 3).collect();
    assert_eq!(ids, expected);
    assert_eq!(ids[0], b'<' as i64 + 3);
}

#[test]
fn encode_multibyte_text() {
    let ids = encode("fr", "é");
    assert_eq!(&ids[ids.len() - 2..], &[0xC3 + 3, 0xA9 + 3]);
}

#[test]
fn model_text_format() {
    assert_eq!(model_text("en-US", "Hello"), "<en-US>: Hello");
}

#[test]
fn decode_round_trips_encode() {
    let ids = encode("de", "Grüße, Welt!");
    assert_eq!(decode(&ids), "<de>: Grüße, Welt!");
}

#[test]
fn decode_skips_special_tokens() {
    let text = decode(&[b'a' as i64 + 3, 1, b'b' as i64 + 3]);
    assert_eq!(text, "ab");
    let text = decode(&[PAD_TOKEN_ID, b'a' as i64 + 3, EOS_TOKEN_ID, 2, b'b' as i64 + 3]);
    assert_eq!(text, "ab");
    assert_eq!(decode(&[0, 107, 108]), "hi");
}

#[test]
fn decode_invalid_utf8_uses_replacement() {
    let text = decode(&[0xFF + 3, b'x' as i64 + 3]);
    assert_eq!(text, "\u{FFFD}x");
}

#[test]
fn greedy_decoder_stops_at_eos() {
    let mut d = GreedyDecoder::new(None);
    assert_eq!(d.decoder_input(), &vec![PAD_TOKEN_ID]);
    d.push_token(10);
    d.push_token(11);
    assert_eq!(d.decoder_input(), &vec![PAD_TOKEN_ID, 10, 11]);
    assert!(!d.is_finished());
    d.push_token(EOS_TOKEN_ID);
    assert!(d.is_finished());
    assert_eq!(d.generated(), &vec![10, 11]);
}

#[test]
fn greedy_decoder_step_limit_is_clamped() {
    let mut d = GreedyDecoder::new(Some(0));
    assert!(!d.is_finished());
    d.push_token(5);
    assert!(d.is_finished());
    assert_eq!(d.generated(), &vec![5]);

    let mut d = GreedyDecoder::new(Some(10_000));
    let mut steps = 0;
    while !d.is_finished() {
        d.push_token(7);
        steps += 1;
    }
    assert_eq!(steps, 512);
    assert_eq!(d.generated().len(), 512);
}
