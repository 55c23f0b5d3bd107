use dart_piper_tts::phonemizer::cmudict::{
    convert_symbol_to_ipa, parse_phone, pronunciation_to_ipa, CmudictPhonemizer, Phone, Stress,
};
use dart_piper_tts::phonemizer::epitran::EpitranLang;
use dart_piper_tts::phonemizer::phonemizer::{
    split_whitespace, tokenize, PhonemizationStrategy, PhonemizeRequest, PhonemizeSetupError,
    Phonemizer, TextToken,
};

const DICT: &str = "hello HH AH0 L OW1\nhello(2) HH EH0 L OW1\nworld W ER1 L D\nempty\n";

fn dict() -> CmudictPhonemizer {
    match CmudictPhonemizer::new(DICT) {
        Ok(d) => d,
        Err(_) => panic!("dictionary text should parse"),
    }
}

fn describe(tokens: &[TextToken]) -> Vec<String> {
    tokens
        .iter()
        .map(|t| match t {
            TextToken::Word(w) => format!("W:{}", w),
            TextToken::Symbol(s) => format!("S:{}", s),
        })
        .collect()
}

#[test]
fn tokenize_words_punctuation_and_spaces() {
    let tokens = tokenize("Hello, world!");
    assert_eq!(describe(&tokens), vec!["W:Hello", "S:,", "S: ", "W:world", "S:!"]);
}

#[test]
fn tokenize_drops_other_symbols_and_keeps_digits_as_gaps() {
    let tokens = tokenize("a42b #c");
    assert_eq!(describe(&tokens), vec!["W:a", "S:42", "W:b", "S: ", "W:c"]);
}

#[test]
fn tokenize_trailing_digits_and_marks() {
    let tokens = tokenize("né 7");
    assert_eq!(describe(&tokens), vec!["W:né", "S: ", "S:7"]);
    assert!(tokenize("").is_empty());
}

#[test]
fn strategy_names() {
    assert_eq!(PhonemizationStrategy::from_str("neural_sentence"), PhonemizationStrategy::NeuralSentence);
    assert_eq!(PhonemizationStrategy::from_str("neural_word"), PhonemizationStrategy::NeuralWord);
    assert_eq!(
        PhonemizationStrategy::from_str("dict_neural"),
        PhonemizationStrategy::DictionaryWithNeuralFallback
    );
    assert_eq!(PhonemizationStrategy::from_str("dict_omit"), PhonemizationStrategy::DictionaryWithOmitUnknown);
    assert_eq!(
        PhonemizationStrategy::from_str("anything"),
        PhonemizationStrategy::DictionaryWithNeuralFallback
    );
}

#[test]
fn phone_codes_and_ipa() {
    assert_eq!(parse_phone("AH0"), Some(Phone::AH(Stress::Unstressed)));
    assert_eq!(parse_phone("OW1"), Some(Phone::OW(Stress::Primary)));
    assert_eq!(parse_phone("NG"), Some(Phone::NG));
    assert_eq!(parse_phone("B"), Some(Phone::B));
    assert_eq!(parse_phone("AH3"), None);
    assert_eq!(parse_phone("XX"), None);
    assert_eq!(convert_symbol_to_ipa(&Phone::AH(Stress::Unstressed)), ("ə", false));
    assert_eq!(convert_symbol_to_ipa(&Phone::AH(Stress::Secondary)), ("ʌ", false));
    assert_eq!(convert_symbol_to_ipa(&Phone::IY(Stress::Unstressed)), ("ɪ", false));
    assert_eq!(convert_symbol_to_ipa(&Phone::IY(Stress::Primary)), ("i", true));
    assert_eq!(convert_symbol_to_ipa(&Phone::ER(Stress::Primary)), ("ɜɹ", true));
    assert_eq!(convert_symbol_to_ipa(&Phone::G), ("ɡ", false));
    assert_eq!(convert_symbol_to_ipa(&Phone::Y), ("j", false));
}

#[test]
fn pronunciation_with_primary_stress_mark() {
    let codes: Vec<String> = ["HH", "AH0", "L", "OW1"].iter().map(|s| s.to_string()).collect();
    assert_eq!(pronunciation_to_ipa(&codes), "həlˈoʊ");
}

#[test]
fn cmudict_lookup_first_pronunciation_in_lower_case() {
    let d = dict();
    assert_eq!(d.lookup("Hello").as_deref(), Some("həlˈoʊ"));
    assert_eq!(d.lookup("WORLD").as_deref(), Some("wˈɜɹld"));
    assert_eq!(d.lookup("missing"), None);
}

#[test]
fn cmudict_rejects_invalid_text() {
    assert!(CmudictPhonemizer::new("word QQ1\n").is_err());
}

#[test]
fn epitran_language_tags() {
    assert_eq!(EpitranLang::from_str("en-US"), Ok(EpitranLang::EngLatn));
    assert_eq!(EpitranLang::from_str("DE_de"), Ok(EpitranLang::DeuLatn));
    assert_eq!(EpitranLang::from_str("zh"), Ok(EpitranLang::CmnHans));
    assert_eq!(EpitranLang::from_str("rw"), Ok(EpitranLang::KinLatn));
    assert_eq!(
        EpitranLang::from_str("xx-YY"),
        Err("Unknown Epitran code representation entry: xx-YY".to_string())
    );
    assert_eq!(EpitranLang::EngLatn.as_str(), "eng_Latn");
    assert_eq!(EpitranLang::Uzblatn.as_str(), "uzb_Latn");
    assert_eq!(EpitranLang::CmnHant.as_str(), "cmn_Hant");
}

#[test]
fn split_whitespace_words() {
    assert_eq!(split_whitespace("  a  b\tc\n"), vec!["a", "b", "c"]);
    assert!(split_whitespace("   ").is_empty());
}

fn run(p: &mut Phonemizer, neural: &dyn Fn(&str) -> String, translit: &dyn Fn(&EpitranLang, &str) -> Option<String>) -> (String, Vec<String>) {
    let mut asked = Vec::new();
    loop {
        match p.advance() {
            PhonemizeRequest::Done(s) => return (s, asked),
            PhonemizeRequest::Neural(q) => {
                asked.push(format!("N:{}", q));
                p.answer_neural(neural(&q));
            }
            PhonemizeRequest::Transliterate(l, w) => {
                asked.push(format!("T:{}:{}", l.as_str(), w));
                p.answer_transliteration(translit(&l, &w));
            }
        }
    }
}

#[test]
fn dictionary_omit_unknown_leaves_out_unknown_words() {
    let d = dict();
    let mut p = Phonemizer::new("en-US", "Hello, world! Foo.", PhonemizationStrategy::DictionaryWithOmitUnknown, Some(&d)).unwrap();
    let (out, asked) = run(&mut p, &|_| panic!("model not expected"), &|_, _| panic!("epitran not expected"));
    assert_eq!(out, "həlˈoʊ, wˈɜɹld! .");
    assert!(asked.is_empty());
}

#[test]
fn dictionary_neural_fallback_asks_model_for_unknown_words() {
    let d = dict();
    let mut p = Phonemizer::new("en", "hello foo", PhonemizationStrategy::DictionaryWithNeuralFallback, Some(&d)).unwrap();
    let (out, asked) = run(&mut p, &|q| format!("<{}>", q), &|_, _| None);
    assert_eq!(out, "həlˈoʊ <foo>");
    assert_eq!(asked, vec!["N:foo"]);
}

#[test]
fn dictionary_without_cmudict_falls_back() {
    let mut p = Phonemizer::new("en", "hello", PhonemizationStrategy::DictionaryWithNeuralFallback, None).unwrap();
    let (out, asked) = run(&mut p, &|q| format!("[{}]", q), &|_, _| None);
    assert_eq!(out, "[hello]");
    assert_eq!(asked, vec!["N:hello"]);
}

#[test]
fn non_english_uses_epitran_then_model() {
    let mut p = Phonemizer::new("de-DE", "Hallo Welt", PhonemizationStrategy::DictionaryWithNeuralFallback, None).unwrap();
    let (out, asked) = run(
        &mut p,
        &|q| format!("n({})", q),
        &|_, w| if w == "Hallo" { Some("halo".to_string()) } else { None },
    );
    assert_eq!(out, "halo n(Welt)");
    assert_eq!(asked, vec!["T:deu_Latn:Hallo", "T:deu_Latn:Welt", "N:Welt"]);
}

#[test]
fn unknown_language_skips_epitran() {
    let mut p = Phonemizer::new("xx", "Hallo", PhonemizationStrategy::DictionaryWithOmitUnknown, None).unwrap();
    let (out, asked) = run(&mut p, &|_| panic!("no model"), &|_, _| panic!("no epitran"));
    assert_eq!(out, "");
    assert!(asked.is_empty());
}

#[test]
fn neural_word_asks_every_word_in_order() {
    let d = dict();
    let mut p = Phonemizer::new("en", "Hello, world!", PhonemizationStrategy::NeuralWord, Some(&d)).unwrap();
    let (out, asked) = run(&mut p, &|q| q.to_uppercase(), &|_, _| None);
    assert_eq!(out, "HELLO, WORLD!");
    assert_eq!(asked, vec!["N:Hello", "N:world"]);
}

#[test]
fn neural_sentence_asks_once_and_reassembles() {
    let mut p = Phonemizer::new("en", "Hello, world!", PhonemizationStrategy::NeuralSentence, None).unwrap();
    let (out, asked) = run(&mut p, &|_| "a  b c".to_string(), &|_, _| None);
    assert_eq!(out, "a, b!");
    assert_eq!(asked, vec!["N:Hello world"]);
}

#[test]
fn neural_sentence_without_words_keeps_symbols() {
    let mut p = Phonemizer::new("en", "42, 7!", PhonemizationStrategy::NeuralSentence, None).unwrap();
    let (out, asked) = run(&mut p, &|_| panic!("no model"), &|_, _| None);
    assert_eq!(out, "42, 7!");
    assert!(asked.is_empty());
}

#[test]
fn neural_sentence_with_fewer_blocks_than_words() {
    let mut p = Phonemizer::new("en", "one two three", PhonemizationStrategy::NeuralSentence, None).unwrap();
    let (out, _) = run(&mut p, &|_| "x".to_string(), &|_, _| None);
    assert_eq!(out, "x  ");
}

#[test]
fn accents_are_removed_before_tokenizing() {
    let mut p = Phonemizer::new("en", "Café", PhonemizationStrategy::NeuralWord, None).unwrap();
    let (_, asked) = run(&mut p, &|q| q.to_string(), &|_, _| None);
    assert_eq!(asked, vec!["N:Cafe"]);
}

#[test]
fn unreadable_language_tag_is_refused_for_dictionaries() {
    assert_eq!(
        Phonemizer::new("e", "hello", PhonemizationStrategy::DictionaryWithOmitUnknown, None).err(),
        Some(PhonemizeSetupError::UnreadableLanguageTag)
    );
    assert!(Phonemizer::new("e", "hello", PhonemizationStrategy::NeuralWord, None).is_ok());
    assert!(Phonemizer::new("e", "...", PhonemizationStrategy::DictionaryWithOmitUnknown, None).is_ok());
}

#[test]
fn known_english_words_need_neither_model_nor_epitran() {
    let d = dict();
    let mut p =
        Phonemizer::new("EN_gb", "World, hello?", PhonemizationStrategy::DictionaryWithNeuralFallback, Some(&d)).unwrap();
    let (out, asked) = run(&mut p, &|_| panic!("no model"), &|_, _| panic!("no epitran"));
    assert_eq!(out, "wˈɜɹld, həlˈoʊ?");
    assert!(asked.is_empty());
}

#[test]
fn advance_repeats_the_pending_question_until_answered() {
    let mut p = Phonemizer::new("en", "one two", PhonemizationStrategy::NeuralWord, None).unwrap();
    for _ in 0..2 {
        match p.advance() {
            PhonemizeRequest::Neural(q) => assert_eq!(q, "one"),
            other => panic!("unexpected {:?}", other),
        }
    }
    p.answer_neural("1".to_string());
    match p.advance() {
        PhonemizeRequest::Neural(q) => assert_eq!(q, "two"),
        other => panic!("unexpected {:?}", other),
    }
    p.answer_neural("2".to_string());
    match p.advance() {
        PhonemizeRequest::Done(s) => assert_eq!(s, "1 2"),
        other => panic!("unexpected {:?}", other),
    }
}

#[test]
fn epitran_codes_are_distinct_and_shaped() {
    let langs = [
        EpitranLang::AzeCyrl,
        EpitranLang::AzeLatn,
        EpitranLang::CmnHans,
        EpitranLang::CmnHant,
        EpitranLang::DeuLatn,
        EpitranLang::EngLatn,
        EpitranLang::Uzblatn,
        EpitranLang::ZulLatn,
    ];
    for (i, a) in langs.iter().enumerate() {
        let c: Vec<char> = a.as_str().chars().collect();
        assert_eq!(c.len(), 8);
        assert!(c[..3].iter().all(|ch| ch.is_ascii_lowercase()));
        assert_eq!(c[3], '_');
        assert!(c[4].is_ascii_uppercase());
        assert!(c[5..].iter().all(|ch| ch.is_ascii_lowercase()));
        for b in &langs[i + 1..] {
            assert_ne!(a.as_str(), b.as_str());
        }
    }
}
