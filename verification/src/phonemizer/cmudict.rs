//! English phonemes from the CMU pronouncing dictionary, written in IPA.
use vstd::prelude::*;
use vstd::string::*;

use crate::text::{chars_of, lowercase, push_char, push_str, to_lowercase};

verus! {

#[verifier::external_type_specification]
#[verifier::external_body]
pub struct ExCmudict(cmudict_fast::Cmudict);

#[verifier::external_type_specification]
#[verifier::external_body]
pub struct ExCmudictError(cmudict_fast::Error);

/// What a dictionary holds: for each word, its pronunciations in order, each
/// a sequence of ARPAbet codes as `cmudict_fast::Symbol` displays them
/// (`"AH0"`, `"B"`, ...).
pub uninterp spec fn cmudict_entries(dict: cmudict_fast::Cmudict) -> Map<
    Seq<char>,
    Seq<Seq<Seq<char>>>,
>;

/// The dictionary that `Cmudict::from_str` builds from a dictionary text, or
/// `None` where the text does not parse.
pub uninterp spec fn cmudict_from_text(text: Seq<char>) -> Option<Map<Seq<char>, Seq<Seq<Seq<char>>>>>;

/// The views of pronunciations given as vectors of code strings.
pub open spec fn rules_view(rules: Seq<Vec<String>>) -> Seq<Seq<Seq<char>>> {
    rules.map_values(|r: Vec<String>| r@.map_values(|c: String| c@))
}

/// `Cmudict::from_str`: the result holds what `cmudict_from_text` names, and
/// is an error exactly where that name is `None`.
#[verifier::external_body]
fn parse_cmudict(text: &str) -> (r: Result<cmudict_fast::Cmudict, cmudict_fast::Error>)
    ensures
        match r {
            Ok(d) => cmudict_from_text(text@) == Some(cmudict_entries(d)),
            Err(_) => cmudict_from_text(text@) is None,
        },
{
    <cmudict_fast::Cmudict as std::str::FromStr>::from_str(text)
}

/// `Cmudict::get`, each pronunciation rendered as its symbols' `Display`
/// codes: `None` exactly where the word is not in the dictionary, else all of
/// its pronunciations in dictionary order.
#[verifier::external_body]
fn cmudict_get(dict: &cmudict_fast::Cmudict, word: &str) -> (r: Option<Vec<Vec<String>>>)
    ensures
        match r {
            None => !cmudict_entries(*dict).contains_key(word@),
            Some(rules) => cmudict_entries(*dict).contains_key(word@) && rules_view(rules@)
                == cmudict_entries(*dict)[word@],
        },
{
    dict.get(word).map(
        |rules| rules.iter().map(|r| r.pronunciation().iter().map(|s| s.to_string()).collect()).collect(),
    )
}

/// Stress marker of an ARPAbet vowel.
#[derive(PartialEq, Eq, Structural, Clone, Copy, Debug)]
pub enum Stress {
    Unstressed,
    Primary,
    Secondary,
}

/// One ARPAbet phoneme.
#[derive(PartialEq, Eq, Structural, Clone, Copy, Debug)]
pub enum Phone {
    AA(Stress),
    AE(Stress),
    AH(Stress),
    AO(Stress),
    AW(Stress),
    AY(Stress),
    B,
    CH,
    D,
    DH,
    EH(Stress),
    ER(Stress),
    EY(Stress),
    F,
    G,
    HH,
    IH(Stress),
    IY(Stress),
    JH,
    K,
    L,
    M,
    N,
    NG,
    OW(Stress),
    OY(Stress),
    P,
    R,
    S,
    SH,
    T,
    TH,
    UH(Stress),
    UW(Stress),
    V,
    W,
    Y,
    Z,
    ZH,
}

/// The stress that a trailing digit marks.
pub open spec fn stress_of_digit(c: char) -> Option<Stress> {
    if c == '0' {
        Some(Stress::Unstressed)
    } else if c == '1' {
        Some(Stress::Primary)
    } else if c == '2' {
        Some(Stress::Secondary)
    } else {
        None
    }
}

/// The vowel written with the two letters `a b`, with stress `s`.
pub open spec fn vowel_of(a: char, b: char, s: Stress) -> Option<Phone> {
    match (a, b) {
        ('A', 'A') => Some(Phone::AA(s)),
        ('A', 'E') => Some(Phone::AE(s)),
        ('A', 'H') => Some(Phone::AH(s)),
        ('A', 'O') => Some(Phone::AO(s)),
        ('A', 'W') => Some(Phone::AW(s)),
        ('A', 'Y') => Some(Phone::AY(s)),
        ('E', 'H') => Some(Phone::EH(s)),
        ('E', 'R') => Some(Phone::ER(s)),
        ('E', 'Y') => Some(Phone::EY(s)),
        ('I', 'H') => Some(Phone::IH(s)),
        ('I', 'Y') => Some(Phone::IY(s)),
        ('O', 'W') => Some(Phone::OW(s)),
        ('O', 'Y') => Some(Phone::OY(s)),
        ('U', 'H') => Some(Phone::UH(s)),
        ('U', 'W') => Some(Phone::UW(s)),
        _ => None,
    }
}

/// The consonant written with the one letter `a`.
pub open spec fn consonant_of_one(a: char) -> Option<Phone> {
    match a {
        'B' => Some(Phone::B),
        'D' => Some(Phone::D),
        'F' => Some(Phone::F),
        'G' => Some(Phone::G),
        'K' => Some(Phone::K),
        'L' => Some(Phone::L),
        'M' => Some(Phone::M),
        'N' => Some(Phone::N),
        'P' => Some(Phone::P),
        'R' => Some(Phone::R),
        'S' => Some(Phone::S),
        'T' => Some(Phone::T),
        'V' => Some(Phone::V),
        'W' => Some(Phone::W),
        'Y' => Some(Phone::Y),
        'Z' => Some(Phone::Z),
        _ => None,
    }
}

/// The consonant written with the two letters `a b`.
pub open spec fn consonant_of_two(a: char, b: char) -> Option<Phone> {
    match (a, b) {
        ('C', 'H') => Some(Phone::CH),
        ('D', 'H') => Some(Phone::DH),
        ('H', 'H') => Some(Phone::HH),
        ('J', 'H') => Some(Phone::JH),
        ('N', 'G') => Some(Phone::NG),
        ('S', 'H') => Some(Phone::SH),
        ('T', 'H') => Some(Phone::TH),
        ('Z', 'H') => Some(Phone::ZH),
        _ => None,
    }
}

/// The phoneme an ARPAbet code names: a vowel is two letters and a stress
/// digit, a consonant one or two letters.
pub open spec fn phone_of_code(code: Seq<char>) -> Option<Phone> {
    if code.len() == 3 && stress_of_digit(code[2]) is Some {
        vowel_of(code[0], code[1], stress_of_digit(code[2])->0)
    } else if code.len() == 2 {
        consonant_of_two(code[0], code[1])
    } else if code.len() == 1 {
        consonant_of_one(code[0])
    } else {
        None
    }
}

/// Reads an ARPAbet code.
pub fn parse_phone(code: &str) -> (r: Option<Phone>)
    ensures
        r == phone_of_code(code@),
{
    let v = chars_of(code);
    if v.len() == 3 {
        let s = match v[2] {
            '0' => Stress::Unstressed,
            '1' => Stress::Primary,
            '2' => Stress::Secondary,
            _ => {
                return None;
            },
        };
        match (v[0], v[1]) {
            ('A', 'A') => Some(Phone::AA(s)),
            ('A', 'E') => Some(Phone::AE(s)),
            ('A', 'H') => Some(Phone::AH(s)),
            ('A', 'O') => Some(Phone::AO(s)),
            ('A', 'W') => Some(Phone::AW(s)),
            ('A', 'Y') => Some(Phone::AY(s)),
            ('E', 'H') => Some(Phone::EH(s)),
            ('E', 'R') => Some(Phone::ER(s)),
            ('E', 'Y') => Some(Phone::EY(s)),
            ('I', 'H') => Some(Phone::IH(s)),
            ('I', 'Y') => Some(Phone::IY(s)),
            ('O', 'W') => Some(Phone::OW(s)),
            ('O', 'Y') => Some(Phone::OY(s)),
            ('U', 'H') => Some(Phone::UH(s)),
            ('U', 'W') => Some(Phone::UW(s)),
            _ => None,
        }
    } else if v.len() == 2 {
        match (v[0], v[1]) {
            ('C', 'H') => Some(Phone::CH),
            ('D', 'H') => Some(Phone::DH),
            ('H', 'H') => Some(Phone::HH),
            ('J', 'H') => Some(Phone::JH),
            ('N', 'G') => Some(Phone::NG),
            ('S', 'H') => Some(Phone::SH),
            ('T', 'H') => Some(Phone::TH),
            ('Z', 'H') => Some(Phone::ZH),
            _ => None,
        }
    } else if v.len() == 1 {
        match v[0] {
            'B' => Some(Phone::B),
            'D' => Some(Phone::D),
            'F' => Some(Phone::F),
            'G' => Some(Phone::G),
            'K' => Some(Phone::K),
            'L' => Some(Phone::L),
            'M' => Some(Phone::M),
            'N' => Some(Phone::N),
            'P' => Some(Phone::P),
            'R' => Some(Phone::R),
            'S' => Some(Phone::S),
            'T' => Some(Phone::T),
            'V' => Some(Phone::V),
            'W' => Some(Phone::W),
            'Y' => Some(Phone::Y),
            'Z' => Some(Phone::Z),
            _ => None,
        }
    } else {
        None
    }
}

/// IPA of a phoneme, and whether it carries primary stress.
pub open spec fn ipa_of_phone(p: Phone) -> (Seq<char>, bool) {
    match p {
        Phone::AA(s) => ("ɑ"@, s == Stress::Primary),
        Phone::AE(s) => ("æ"@, s == Stress::Primary),
        Phone::AH(s) => if s == Stress::Unstressed {
            ("ə"@, false)
        } else {
            ("ʌ"@, s == Stress::Primary)
        },
        Phone::AO(s) => ("ɔ"@, s == Stress::Primary),
        Phone::AW(s) => ("aʊ"@, s == Stress::Primary),
        Phone::AY(s) => ("aɪ"@, s == Stress::Primary),
        Phone::EH(s) => ("ɛ"@, s == Stress::Primary),
        Phone::ER(s) => ("ɜɹ"@, s == Stress::Primary),
        Phone::EY(s) => ("eɪ"@, s == Stress::Primary),
        Phone::IH(s) => ("ɪ"@, s == Stress::Primary),
        Phone::IY(s) => if s == Stress::Unstressed {
            ("ɪ"@, false)
        } else {
            ("i"@, s == Stress::Primary)
        },
        Phone::OW(s) => ("oʊ"@, s == Stress::Primary),
        Phone::OY(s) => ("ɔɪ"@, s == Stress::Primary),
        Phone::UH(s) => ("ʊ"@, s == Stress::Primary),
        Phone::UW(s) => ("u"@, s == Stress::Primary),
        Phone::B => ("b"@, false),
        Phone::CH => ("tʃ"@, false),
        Phone::D => ("d"@, false),
        Phone::DH => ("ð"@, false),
        Phone::F => ("f"@, false),
        Phone::G => ("ɡ"@, false),
        Phone::HH => ("h"@, false),
        Phone::JH => ("dʒ"@, false),
        Phone::K => ("k"@, false),
        Phone::L => ("l"@, false),
        Phone::M => ("m"@, false),
        Phone::N => ("n"@, false),
        Phone::NG => ("ŋ"@, false),
        Phone::P => ("p"@, false),
        Phone::R => ("ɹ"@, false),
        Phone::S => ("s"@, false),
        Phone::SH => ("ʃ"@, false),
        Phone::T => ("t"@, false),
        Phone::TH => ("θ"@, false),
        Phone::V => ("v"@, false),
        Phone::W => ("w"@, false),
        Phone::Y => ("j"@, false),
        Phone::Z => ("z"@, false),
        Phone::ZH => ("ʒ"@, false),
    }
}

/// Whether a phoneme is a consonant (it carries no stress).
pub open spec fn is_consonant(p: Phone) -> bool {
    match p {
        Phone::AA(_) | Phone::AE(_) | Phone::AH(_) | Phone::AO(_) | Phone::AW(_) | Phone::AY(_)
        | Phone::EH(_) | Phone::ER(_) | Phone::EY(_) | Phone::IH(_) | Phone::IY(_) | Phone::OW(_)
        | Phone::OY(_) | Phone::UH(_) | Phone::UW(_) => false,
        _ => true,
    }
}

/// Whether an IPA text is one character, and its first and last character.
spec fn ipa_key(s: Seq<char>) -> (bool, char, char) {
    (s.len() == 1, s[0], s[s.len() - 1])
}

/// The consonant whose IPA has the given key.
spec fn consonant_of_ipa_key(k: (bool, char, char)) -> Option<Phone> {
    match k {
        (true, 'b', 'b') => Some(Phone::B),
        (false, 't', 'ʃ') => Some(Phone::CH),
        (true, 'd', 'd') => Some(Phone::D),
        (true, 'ð', 'ð') => Some(Phone::DH),
        (true, 'f', 'f') => Some(Phone::F),
        (true, 'ɡ', 'ɡ') => Some(Phone::G),
        (true, 'h', 'h') => Some(Phone::HH),
        (false, 'd', 'ʒ') => Some(Phone::JH),
        (true, 'k', 'k') => Some(Phone::K),
        (true, 'l', 'l') => Some(Phone::L),
        (true, 'm', 'm') => Some(Phone::M),
        (true, 'n', 'n') => Some(Phone::N),
        (true, 'ŋ', 'ŋ') => Some(Phone::NG),
        (true, 'p', 'p') => Some(Phone::P),
        (true, 'ɹ', 'ɹ') => Some(Phone::R),
        (true, 's', 's') => Some(Phone::S),
        (true, 'ʃ', 'ʃ') => Some(Phone::SH),
        (true, 't', 't') => Some(Phone::T),
        (true, 'θ', 'θ') => Some(Phone::TH),
        (true, 'v', 'v') => Some(Phone::V),
        (true, 'w', 'w') => Some(Phone::W),
        (true, 'j', 'j') => Some(Phone::Y),
        (true, 'z', 'z') => Some(Phone::Z),
        (true, 'ʒ', 'ʒ') => Some(Phone::ZH),
        _ => None,
    }
}

/// The key of a consonant's IPA leads back to the consonant.
proof fn lemma_consonant_ipa_key(p: Phone)
    requires
        is_consonant(p),
    ensures
        ipa_of_phone(p).0.len() > 0,
        consonant_of_ipa_key(ipa_key(ipa_of_phone(p).0)) == Some(p),
        !ipa_of_phone(p).1,
{
    match p {
        Phone::B => reveal_strlit("b"),
        Phone::CH => reveal_strlit("tʃ"),
        Phone::D => reveal_strlit("d"),
        Phone::DH => reveal_strlit("ð"),
        Phone::F => reveal_strlit("f"),
        Phone::G => reveal_strlit("ɡ"),
        Phone::HH => reveal_strlit("h"),
        Phone::JH => reveal_strlit("dʒ"),
        Phone::K => reveal_strlit("k"),
        Phone::L => reveal_strlit("l"),
        Phone::M => reveal_strlit("m"),
        Phone::N => reveal_strlit("n"),
        Phone::NG => reveal_strlit("ŋ"),
        Phone::P => reveal_strlit("p"),
        Phone::R => reveal_strlit("ɹ"),
        Phone::S => reveal_strlit("s"),
        Phone::SH => reveal_strlit("ʃ"),
        Phone::T => reveal_strlit("t"),
        Phone::TH => reveal_strlit("θ"),
        Phone::V => reveal_strlit("v"),
        Phone::W => reveal_strlit("w"),
        Phone::Y => reveal_strlit("j"),
        Phone::Z => reveal_strlit("z"),
        Phone::ZH => reveal_strlit("ʒ"),
        _ => {},
    }
}

/// Distinct ARPAbet consonants are written with distinct IPA, so no two
/// consonants (such as the voiceless `TH` and the voiced `DH`) are confused,
/// and no consonant carries stress.
pub proof fn law_consonant_ipa_distinct(a: Phone, b: Phone)
    requires
        is_consonant(a),
        is_consonant(b),
    ensures
        ipa_of_phone(a).0 == ipa_of_phone(b).0 <==> a == b,
        !ipa_of_phone(a).1,
{
    lemma_consonant_ipa_key(a);
    lemma_consonant_ipa_key(b);
}

/// The lower-case ASCII form of an upper-case ASCII letter.
pub open spec fn ascii_lower(c: char) -> char {
    ((c as u32) + 32) as char
}

/// A consonant ARPAbet writes with one Latin letter other than `G`, `R`
/// and `Y` is written in IPA with that same letter in lower case (`B` is
/// `b`, `T` is `t`, ...): IPA writes `ɡ`, `ɹ` and `j` for the other three.
pub proof fn law_single_letter_consonants(c: char)
    requires
        consonant_of_one(c) is Some,
        c != 'G' && c != 'R' && c != 'Y',
    ensures
        ipa_of_phone(consonant_of_one(c)->0).0 == seq![ascii_lower(c)],
{
    match consonant_of_one(c) {
        Some(p) => {
            match p {
                Phone::B => { reveal_strlit("b"); },
                Phone::D => { reveal_strlit("d"); },
                Phone::F => { reveal_strlit("f"); },
                Phone::K => { reveal_strlit("k"); },
                Phone::L => { reveal_strlit("l"); },
                Phone::M => { reveal_strlit("m"); },
                Phone::N => { reveal_strlit("n"); },
                Phone::P => { reveal_strlit("p"); },
                Phone::S => { reveal_strlit("s"); },
                Phone::T => { reveal_strlit("t"); },
                Phone::V => { reveal_strlit("v"); },
                Phone::W => { reveal_strlit("w"); },
                Phone::Z => { reveal_strlit("z"); },
                _ => {},
            }
            assert(ipa_of_phone(p).0 =~= seq![ascii_lower(c)]);
        },
        None => {},
    }
}

/// The fricatives come in voiceless/voiced pairs, and each pair is written
/// with the IPA pair for the same place of articulation: `F`/`V` as `f`/`v`,
/// `S`/`Z` as `s`/`z`, `SH`/`ZH` as `ʃ`/`ʒ` (U+0283/U+0292) and `TH`/`DH`
/// as `θ`/`ð` (U+03B8/U+00F0).
pub proof fn law_fricative_pairs()
    ensures
        ipa_of_phone(Phone::F).0 == seq!['f'] && ipa_of_phone(Phone::V).0 == seq!['v'],
        ipa_of_phone(Phone::S).0 == seq!['s'] && ipa_of_phone(Phone::Z).0 == seq!['z'],
        ipa_of_phone(Phone::SH).0 == seq!['\u{283}'] && ipa_of_phone(Phone::ZH).0 == seq!['\u{292}'],
        ipa_of_phone(Phone::TH).0 == seq!['\u{3b8}'] && ipa_of_phone(Phone::DH).0 == seq!['\u{f0}'],
{
    reveal_strlit("f");
    reveal_strlit("v");
    reveal_strlit("s");
    reveal_strlit("z");
    reveal_strlit("ʃ");
    reveal_strlit("ʒ");
    reveal_strlit("θ");
    reveal_strlit("ð");
    assert(ipa_of_phone(Phone::F).0 =~= seq!['f']);
    assert(ipa_of_phone(Phone::V).0 =~= seq!['v']);
    assert(ipa_of_phone(Phone::S).0 =~= seq!['s']);
    assert(ipa_of_phone(Phone::Z).0 =~= seq!['z']);
    assert(ipa_of_phone(Phone::SH).0 =~= seq!['\u{283}']);
    assert(ipa_of_phone(Phone::ZH).0 =~= seq!['\u{292}']);
    assert(ipa_of_phone(Phone::TH).0 =~= seq!['\u{3b8}']);
    assert(ipa_of_phone(Phone::DH).0 =~= seq!['\u{f0}']);
}

/// The IPA of an ARPAbet phoneme, with whether it is the primary stressed one.
pub fn convert_symbol_to_ipa(symbol: &Phone) -> (r: (&'static str, bool))
    ensures
        r.0@ == ipa_of_phone(*symbol).0,
        r.1 == ipa_of_phone(*symbol).1,
{
    match symbol {
        Phone::AA(s) => ("ɑ", *s == Stress::Primary),
        Phone::AE(s) => ("æ", *s == Stress::Primary),
        Phone::AH(s) => {
            if *s == Stress::Unstressed {
                ("ə", false)
            } else {
                ("ʌ", *s == Stress::Primary)
            }
        },
        Phone::AO(s) => ("ɔ", *s == Stress::Primary),
        Phone::AW(s) => ("aʊ", *s == Stress::Primary),
        Phone::AY(s) => ("aɪ", *s == Stress::Primary),
        Phone::EH(s) => ("ɛ", *s == Stress::Primary),
        Phone::ER(s) => ("ɜɹ", *s == Stress::Primary),
        Phone::EY(s) => ("eɪ", *s == Stress::Primary),
        Phone::IH(s) => ("ɪ", *s == Stress::Primary),
        Phone::IY(s) => {
            if *s == Stress::Unstressed {
                ("ɪ", false)
            } else {
                ("i", *s == Stress::Primary)
            }
        },
        Phone::OW(s) => ("oʊ", *s == Stress::Primary),
        Phone::OY(s) => ("ɔɪ", *s == Stress::Primary),
        Phone::UH(s) => ("ʊ", *s == Stress::Primary),
        Phone::UW(s) => ("u", *s == Stress::Primary),
        Phone::B => ("b", false),
        Phone::CH => ("tʃ", false),
        Phone::D => ("d", false),
        Phone::DH => ("ð", false),
        Phone::F => ("f", false),
        Phone::G => ("ɡ", false),
        Phone::HH => ("h", false),
        Phone::JH => ("dʒ", false),
        Phone::K => ("k", false),
        Phone::L => ("l", false),
        Phone::M => ("m", false),
        Phone::N => ("n", false),
        Phone::NG => ("ŋ", false),
        Phone::P => ("p", false),
        Phone::R => ("ɹ", false),
        Phone::S => ("s", false),
        Phone::SH => ("ʃ", false),
        Phone::T => ("t", false),
        Phone::TH => ("θ", false),
        Phone::V => ("v", false),
        Phone::W => ("w", false),
        Phone::Y => ("j", false),
        Phone::Z => ("z", false),
        Phone::ZH => ("ʒ", false),
    }
}

/// IPA of one ARPAbet code: the stress mark `ˈ` before a primary stressed
/// vowel, then its IPA; nothing for a code that names no phoneme.
pub open spec fn ipa_of_code(code: Seq<char>) -> Seq<char> {
    match phone_of_code(code) {
        Some(p) => if ipa_of_phone(p).1 {
            seq!['ˈ'] + ipa_of_phone(p).0
        } else {
            ipa_of_phone(p).0
        },
        None => Seq::empty(),
    }
}

/// IPA of a pronunciation: the IPA of its codes, one after the other.
pub open spec fn ipa_of_codes(codes: Seq<Seq<char>>) -> Seq<char>
    decreases codes.len(),
{
    if codes.len() == 0 {
        Seq::empty()
    } else {
        ipa_of_codes(codes.drop_last()) + ipa_of_code(codes.last())
    }
}

/// IPA of a word given its dictionary pronunciations: the first one, or
/// nothing where the entry lists none.
pub open spec fn ipa_of_entry(rules: Seq<Seq<Seq<char>>>) -> Seq<char> {
    if rules.len() == 0 {
        Seq::empty()
    } else {
        ipa_of_codes(rules[0])
    }
}

/// IPA of a pronunciation given as ARPAbet codes.
pub fn pronunciation_to_ipa(codes: &Vec<String>) -> (r: String)
    ensures
        r@ == ipa_of_codes(codes@.map_values(|c: String| c@)),
{
    let ghost cv = codes@.map_values(|c: String| c@);
    let mut word_ipa = String::new();
    let mut i: usize = 0;
    while i < codes.len()
        invariant
            i <= codes.len(),
            cv == codes@.map_values(|c: String| c@),
            word_ipa@ == ipa_of_codes(cv.take(i as int)),
        decreases codes.len() - i,
    {
        assert(cv.take(i + 1).drop_last() =~= cv.take(i as int));
        assert(cv[i as int] == codes@[i as int]@);
        match parse_phone(codes[i].as_str()) {
            Some(symbol) => {
                let (ipa_char, is_primary_stress) = convert_symbol_to_ipa(&symbol);
                let ghost before = word_ipa@;
                if is_primary_stress {
                    push_char(&mut word_ipa, 'ˈ');
                }
                push_str(&mut word_ipa, ipa_char);
                assert(word_ipa@ =~= before + ipa_of_code(cv[i as int]));
            },
            None => {
                assert(ipa_of_code(cv[i as int]) =~= Seq::<char>::empty());
                assert(word_ipa@ =~= word_ipa@ + ipa_of_code(cv[i as int]));
            },
        }
        i = i + 1;
    }
    assert(cv.take(codes.len() as int) =~= cv);
    word_ipa
}

/// The IPA of `word` (looked up in lower case) after the dictionary
/// `entries`, or `None` where it does not hold the word.
pub open spec fn cmudict_ipa(entries: Map<Seq<char>, Seq<Seq<Seq<char>>>>, word: Seq<char>) -> Option<Seq<char>> {
    let key = lowercase(word);
    if entries.contains_key(key) {
        Some(ipa_of_entry(entries[key]))
    } else {
        None
    }
}

/// The English dictionary phonemizer.
pub struct CmudictPhonemizer {
    dict: cmudict_fast::Cmudict,
}

/// Why a dictionary text could not be loaded.
pub enum CmudictLoadError {
    /// The text is not a valid CMU dictionary.
    InvalidDictionary,
}

impl CmudictPhonemizer {
    /// What the phonemizer's dictionary holds.
    pub closed spec fn entries(&self) -> Map<Seq<char>, Seq<Seq<Seq<char>>>> {
        cmudict_entries(self.dict)
    }

    /// Loads a phonemizer from a CMU dictionary text; fails exactly where the
    /// text does not parse.
    pub fn new(dictionary_text: &str) -> (r: Result<CmudictPhonemizer, CmudictLoadError>)
        ensures
            match r {
                Ok(p) => cmudict_from_text(dictionary_text@) == Some(p.entries()),
                Err(_) => cmudict_from_text(dictionary_text@) is None,
            },
    {
        match parse_cmudict(dictionary_text) {
            Ok(dict) => Ok(CmudictPhonemizer { dict }),
            Err(_) => Err(CmudictLoadError::InvalidDictionary),
        }
    }

    /// The IPA of `word` (looked up in lower case) after this dictionary, or
    /// `None` where the dictionary does not hold it.
    pub open spec fn spec_lookup(&self, word: Seq<char>) -> Option<Seq<char>> {
        cmudict_ipa(self.entries(), word)
    }

    /// Looks `word` up in lower case and writes its first pronunciation in
    /// IPA, with `ˈ` before the primary stressed vowel.
    pub fn lookup(&self, word: &str) -> (r: Option<String>)
        ensures
            r matches Some(s) ==> self.spec_lookup(word@) == Some(s@),
            r is None ==> self.spec_lookup(word@) is None,
    {
        let key = to_lowercase(word);
        match cmudict_get(&self.dict, key.as_str()) {
            Some(rules) => {
                if rules.len() > 0 {
                    let ipa = pronunciation_to_ipa(&rules[0]);
                    proof {
                        assert(rules_view(rules@)[0] == rules@[0]@.map_values(|c: String| c@));
                    }
                    Some(ipa)
                } else {
                    Some(String::new())
                }
            },
            None => None,
        }
    }
}

} // verus!
