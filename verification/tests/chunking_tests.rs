use dart_piper_tts::instance::{
    split_into_chunks, worker_action, ChunkAction, InstanceState, SpeechJob, SpeechRequest, WorkerAction, MAX_CHUNK_CHARS,
};
use dart_piper_tts::phonemizer::chunks::{clean_text, phoneme_chunks, PhonemeChunk};
use dart_piper_tts::phonemizer::neural::{chunk_sentences, chunk_text, decode, encode, DEFAULT_CHUNK_SIZE};

#[test]
fn split_into_chunks_at_sentence_ends() {
    let chunks = split_into_chunks("həlˈoʊ wɜɹld. haʊ ɑɹ ju? faɪn", MAX_CHUNK_CHARS);
    assert_eq!(chunks, vec!["həlˈoʊ wɜɹld.", "haʊ ɑɹ ju?", "faɪn"]);
}

#[test]
fn split_into_chunks_by_length() {
    let chunks = split_into_chunks("aa bb cc dd", 6);
    assert_eq!(chunks, vec!["aa bb", "cc dd"]);
    assert!(split_into_chunks("", 80).is_empty());
    assert!(split_into_chunks("    ", 80).is_empty());
    assert_eq!(split_into_chunks("x!  y", 80), vec!["x!", "y"]);
}

#[test]
fn chunks_are_trimmed_and_not_empty() {
    for text in ["  a. b!  c ", "one two three four five six", " . ", "\tx\ty"] {
        for max in [1, 3, 80] {
            for c in split_into_chunks(text, max) {
                assert!(!c.is_empty());
                assert_eq!(c.trim(), c);
            }
        }
    }
}

#[test]
fn chunk_sentences_by_bytes() {
    let sentences: Vec<String> = ["Mr. ", "Fox jumped. ", "The dog was too lazy."].iter().map(|s| s.to_string()).collect();
    assert_eq!(chunk_sentences(&sentences, 100), vec!["Mr.  Fox jumped.  The dog was too lazy."]);
    assert_eq!(chunk_sentences(&sentences, 10), vec!["Mr.", "Fox jumped.", "The dog was too lazy."]);
    assert!(chunk_sentences(&Vec::new(), 10).is_empty());
}

#[test]
fn chunk_text_uses_sentence_boundaries() {
    let chunks = chunk_text("Mr. Fox jumped. [...] The dog was too lazy.", 15);
    assert_eq!(chunks, vec!["Mr.", "Fox jumped.", "The dog was too lazy."]);
    assert_eq!(chunk_text("One. Two.", DEFAULT_CHUNK_SIZE), vec!["One.  Two."]);
}

#[test]
fn neural_encode_decode() {
    let ids = encode("en", "hi");
    assert_eq!(decode(&ids), "<en>: hi");
}

#[test]
fn phoneme_chunk_keeps_final_mark_apart() {
    let c = PhonemeChunk::new("  how are you?  ");
    assert_eq!(c.text_for_model, "how are you");
    assert_eq!(c.original_punctuation, "?");
    assert_eq!(c.with_punctuation("haʊ"), "haʊ?");
    let c = PhonemeChunk::new("no mark");
    assert_eq!(c.text_for_model, "no mark");
    assert_eq!(c.original_punctuation, "");
    let c = PhonemeChunk::new("   ");
    assert_eq!(c.text_for_model, "");
    assert_eq!(c.original_punctuation, "");
}

#[test]
fn phoneme_chunks_of_text() {
    let chunks = phoneme_chunks("Hi there! How are you?", 100);
    assert_eq!(chunks.len(), 1);
    assert_eq!(chunks[0].text_for_model, "Hi there!  How are you");
    assert_eq!(chunks[0].original_punctuation, "?");
}

#[test]
fn clean_text_keeps_letters_digits_and_sentence_marks() {
    assert_eq!(clean_text("Café,  au   lait #42!"), "Cafe au lait 42!");
    assert_eq!(clean_text("  "), "");
}

#[test]
fn worker_actions_and_state_codes() {
    assert_eq!(worker_action(InstanceState::Stop.code()), WorkerAction::Halt);
    assert_eq!(worker_action(InstanceState::Pause.code()), WorkerAction::YieldThenProceed);
    assert_eq!(worker_action(InstanceState::Play.code()), WorkerAction::Proceed);
    assert_eq!(worker_action(0), WorkerAction::Proceed);
    for s in [InstanceState::Play, InstanceState::Pause, InstanceState::Stop] {
        assert_eq!(InstanceState::from_code(s.code()), Some(s));
    }
    assert_eq!(InstanceState::from_code(9), None);
}

#[test]
fn chunk_split_restores_trimmed_text() {
    for text in ["  hi!  ", "hello", " a, b. ", "", "?"] {
        let c = PhonemeChunk::new(text);
        assert_eq!(format!("{}{}", c.text_for_model, c.original_punctuation), text.trim());
    }
}

#[test]
fn speech_job_plays_chunks_in_order_then_marks_end() {
    let mut job = SpeechJob::new("ab. cd. ef.", MAX_CHUNK_CHARS, 42);
    let play = InstanceState::Play.code();
    assert_eq!(job.request(), SpeechRequest::Synthesize(0));
    assert_eq!(job.chunk(0), "ab.");
    assert_eq!(job.synthesized(true, play), ChunkAction::Play);
    assert_eq!(job.request(), SpeechRequest::Synthesize(1));
    assert_eq!(job.synthesized(false, play), ChunkAction::Skip);
    assert_eq!(job.request(), SpeechRequest::Synthesize(2));
    assert_eq!(job.chunk(2), "ef.");
    assert_eq!(job.synthesized(true, InstanceState::Pause.code()), ChunkAction::YieldThenPlay);
    assert_eq!(job.request(), SpeechRequest::MarkEnd(42));
    job.end_marked();
    assert_eq!(job.request(), SpeechRequest::Finished);
}

#[test]
fn speech_job_stops_playing_but_still_marks_end() {
    let mut job = SpeechJob::new("one. two.", MAX_CHUNK_CHARS, -1);
    assert_eq!(job.request(), SpeechRequest::Synthesize(0));
    assert_eq!(job.synthesized(true, InstanceState::Stop.code()), ChunkAction::StopPlaying);
    assert_eq!(job.request(), SpeechRequest::MarkEnd(-1));
    job.end_marked();
    assert_eq!(job.request(), SpeechRequest::Finished);
}

#[test]
fn speech_job_without_chunks_only_marks_end() {
    let mut job = SpeechJob::new("   ", MAX_CHUNK_CHARS, 7);
    assert_eq!(job.request(), SpeechRequest::MarkEnd(7));
    job.end_marked();
    assert_eq!(job.request(), SpeechRequest::Finished);
}

fn visible(s: &str) -> String {
    s.chars().filter(|c| !c.is_whitespace()).collect()
}

#[test]
fn speech_chunks_keep_every_non_space_character_in_order() {
    for text in ["həlˈoʊ wɜɹld. haʊ ɑɹ ju? faɪn", "  a. b!  c ", "aa bb cc dd", " . ", "\tx\ty"] {
        for max in [1, 6, 80] {
            let joined: String = split_into_chunks(text, max).concat();
            assert_eq!(visible(&joined), visible(text));
        }
    }
}

#[test]
fn sentence_chunks_keep_every_non_space_character_in_order() {
    let sentences: Vec<String> = ["Mr. ", "Fox jumped. ", "The dog was too lazy."].iter().map(|s| s.to_string()).collect();
    for max in [5, 10, 100] {
        let joined: String = chunk_sentences(&sentences, max).concat();
        assert_eq!(visible(&joined), visible(&sentences.concat()));
    }
}
