//! Languages of the Epitran transliterator and how language tags map to them.
use vstd::prelude::*;
use vstd::string::*;

use crate::text::{chars_of, lowercase, to_lowercase, two_byte_prefix, two_byte_prefix_of};

verus! {

/// A language (and script) that Epitran transliterates.
#[derive(PartialEq, Eq, Structural, Clone, Copy, Debug)]
pub enum EpitranLang {
    /// Amharic (Ethiopic)
    AmhEthi,
    /// Arabic (Perso-Arabic)
    AraArab,
    /// Azerbaijani (Cyrillic)
    AzeCyrl,
    /// Azerbaijani (Latin)
    AzeLatn,
    /// Bengali (Bengali)
    BenBeng,
    /// Mandarin Chinese (Simplified)
    CmnHans,
    /// Mandarin Chinese (Traditional)
    CmnHant,
    /// German
    DeuLatn,
    /// Greek
    EllGrek,
    /// English
    EngLatn,
    /// Farsi/Persian (Perso-Arabic)
    FasArab,
    /// French
    FraLatn,
    /// Gujarati
    GujGujr,
    /// Hausa
    HauLatn,
    /// Hindi (Devanagari)
    HinDeva,
    /// Hungarian
    HunLatn,
    /// Indonesian
    IndLatn,
    /// Italian
    ItaLatn,
    /// Javanese
    JavLatn,
    /// Kannada
    KanKnda,
    /// Kazakh (Cyrillic)
    KazCyrl,
    /// Khmer
    KhmKhmr,
    /// Kinyarwanda
    KinLatn,
    /// Kyrgyz
    KirCyrl,
    /// Lao
    LaoLaoo,
    /// Marathi
    MarDeva,
    /// Malay
    MsaLatn,
    /// Burmese
    MyaMymr,
    /// Nepali
    NepDeva,
    /// Odia
    OriOrya,
    /// Punjabi
    PanGuru,
    /// Polish
    PolLatn,
    /// Portuguese
    PorLatn,
    /// Romanian
    RonLatn,
    /// Russian
    RusCyrl,
    /// Sinhala
    SinSinh,
    /// Somali
    SomLatn,
    /// Spanish
    SpaLatn,
    /// Swahili
    SwaLatn,
    /// Tamil
    TamTaml,
    /// Telugu
    TelTelu,
    /// Tagalog
    TglLatn,
    /// Thai
    ThaThai,
    /// Turkish
    TurLatn,
    /// Uyghur
    UigArab,
    /// Ukrainian
    UkrCyrl,
    /// Urdu
    UrdArab,
    /// Uzbek
    Uzblatn,
    /// Vietnamese
    VieLatn,
    /// Yoruba
    YorLatn,
    /// Zulu
    ZulLatn,
}

impl EpitranLang {
    /// Epitran's code of the language, such as `"eng_Latn"`.
    pub open spec fn code(self) -> Seq<char> {
        match self {
            EpitranLang::AmhEthi => "amh_Ethi"@,
            EpitranLang::AraArab => "ara_Arab"@,
            EpitranLang::AzeCyrl => "aze_Cyrl"@,
            EpitranLang::AzeLatn => "aze_Latn"@,
            EpitranLang::BenBeng => "ben_Beng"@,
            EpitranLang::CmnHans => "cmn_Hans"@,
            EpitranLang::CmnHant => "cmn_Hant"@,
            EpitranLang::DeuLatn => "deu_Latn"@,
            EpitranLang::EllGrek => "ell_Grek"@,
            EpitranLang::EngLatn => "eng_Latn"@,
            EpitranLang::FasArab => "fas_Arab"@,
            EpitranLang::FraLatn => "fra_Latn"@,
            EpitranLang::GujGujr => "guj_Gujr"@,
            EpitranLang::HauLatn => "hau_Latn"@,
            EpitranLang::HinDeva => "hin_Deva"@,
            EpitranLang::HunLatn => "hun_Latn"@,
            EpitranLang::IndLatn => "ind_Latn"@,
            EpitranLang::ItaLatn => "ita_Latn"@,
            EpitranLang::JavLatn => "jav_Latn"@,
            EpitranLang::KanKnda => "kan_Knda"@,
            EpitranLang::KazCyrl => "kaz_Cyrl"@,
            EpitranLang::KhmKhmr => "khm_Khmr"@,
            EpitranLang::KinLatn => "kin_Latn"@,
            EpitranLang::KirCyrl => "kir_Cyrl"@,
            EpitranLang::LaoLaoo => "lao_Laoo"@,
            EpitranLang::MarDeva => "mar_Deva"@,
            EpitranLang::MsaLatn => "msa_Latn"@,
            EpitranLang::MyaMymr => "mya_Mymr"@,
            EpitranLang::NepDeva => "nep_Deva"@,
            EpitranLang::OriOrya => "ori_Orya"@,
            EpitranLang::PanGuru => "pan_Guru"@,
            EpitranLang::PolLatn => "pol_Latn"@,
            EpitranLang::PorLatn => "por_Latn"@,
            EpitranLang::RonLatn => "ron_Latn"@,
            EpitranLang::RusCyrl => "rus_Cyrl"@,
            EpitranLang::SinSinh => "sin_Sinh"@,
            EpitranLang::SomLatn => "som_Latn"@,
            EpitranLang::SpaLatn => "spa_Latn"@,
            EpitranLang::SwaLatn => "swa_Latn"@,
            EpitranLang::TamTaml => "tam_Taml"@,
            EpitranLang::TelTelu => "tel_Telu"@,
            EpitranLang::TglLatn => "tgl_Latn"@,
            EpitranLang::ThaThai => "tha_Thai"@,
            EpitranLang::TurLatn => "tur_Latn"@,
            EpitranLang::UigArab => "uig_Arab"@,
            EpitranLang::UkrCyrl => "ukr_Cyrl"@,
            EpitranLang::UrdArab => "urd_Arab"@,
            EpitranLang::Uzblatn => "uzb_Latn"@,
            EpitranLang::VieLatn => "vie_Latn"@,
            EpitranLang::YorLatn => "yor_Latn"@,
            EpitranLang::ZulLatn => "zul_Latn"@,
        }
    }

    /// Epitran's code of the language, such as `"eng_Latn"`.
    pub fn as_str(&self) -> (s: &'static str)
        ensures
            s@ == self.code(),
    {
        match self {
            EpitranLang::AmhEthi => "amh_Ethi",
            EpitranLang::AraArab => "ara_Arab",
            EpitranLang::AzeCyrl => "aze_Cyrl",
            EpitranLang::AzeLatn => "aze_Latn",
            EpitranLang::BenBeng => "ben_Beng",
            EpitranLang::CmnHans => "cmn_Hans",
            EpitranLang::CmnHant => "cmn_Hant",
            EpitranLang::DeuLatn => "deu_Latn",
            EpitranLang::EllGrek => "ell_Grek",
            EpitranLang::EngLatn => "eng_Latn",
            EpitranLang::FasArab => "fas_Arab",
            EpitranLang::FraLatn => "fra_Latn",
            EpitranLang::GujGujr => "guj_Gujr",
            EpitranLang::HauLatn => "hau_Latn",
            EpitranLang::HinDeva => "hin_Deva",
            EpitranLang::HunLatn => "hun_Latn",
            EpitranLang::IndLatn => "ind_Latn",
            EpitranLang::ItaLatn => "ita_Latn",
            EpitranLang::JavLatn => "jav_Latn",
            EpitranLang::KanKnda => "kan_Knda",
            EpitranLang::KazCyrl => "kaz_Cyrl",
            EpitranLang::KhmKhmr => "khm_Khmr",
            EpitranLang::KinLatn => "kin_Latn",
            EpitranLang::KirCyrl => "kir_Cyrl",
            EpitranLang::LaoLaoo => "lao_Laoo",
            EpitranLang::MarDeva => "mar_Deva",
            EpitranLang::MsaLatn => "msa_Latn",
            EpitranLang::MyaMymr => "mya_Mymr",
            EpitranLang::NepDeva => "nep_Deva",
            EpitranLang::OriOrya => "ori_Orya",
            EpitranLang::PanGuru => "pan_Guru",
            EpitranLang::PolLatn => "pol_Latn",
            EpitranLang::PorLatn => "por_Latn",
            EpitranLang::RonLatn => "ron_Latn",
            EpitranLang::RusCyrl => "rus_Cyrl",
            EpitranLang::SinSinh => "sin_Sinh",
            EpitranLang::SomLatn => "som_Latn",
            EpitranLang::SpaLatn => "spa_Latn",
            EpitranLang::SwaLatn => "swa_Latn",
            EpitranLang::TamTaml => "tam_Taml",
            EpitranLang::TelTelu => "tel_Telu",
            EpitranLang::TglLatn => "tgl_Latn",
            EpitranLang::ThaThai => "tha_Thai",
            EpitranLang::TurLatn => "tur_Latn",
            EpitranLang::UigArab => "uig_Arab",
            EpitranLang::UkrCyrl => "ukr_Cyrl",
            EpitranLang::UrdArab => "urd_Arab",
            EpitranLang::Uzblatn => "uzb_Latn",
            EpitranLang::VieLatn => "vie_Latn",
            EpitranLang::YorLatn => "yor_Latn",
            EpitranLang::ZulLatn => "zul_Latn",
        }
    }

    /// The language whose two-letter ISO 639-1 code is `a b` (lower case).
    pub open spec fn of_iso_letters(a: char, b: char) -> Option<EpitranLang> {
        match (a, b) {
            ('a', 'm') => Some(EpitranLang::AmhEthi),
            ('a', 'r') => Some(EpitranLang::AraArab),
            ('a', 'z') => Some(EpitranLang::AzeCyrl),
            ('b', 'n') => Some(EpitranLang::BenBeng),
            ('z', 'h') => Some(EpitranLang::CmnHans),
            ('d', 'e') => Some(EpitranLang::DeuLatn),
            ('e', 'l') => Some(EpitranLang::EllGrek),
            ('e', 'n') => Some(EpitranLang::EngLatn),
            ('f', 'a') => Some(EpitranLang::FasArab),
            ('f', 'r') => Some(EpitranLang::FraLatn),
            ('g', 'u') => Some(EpitranLang::GujGujr),
            ('h', 'a') => Some(EpitranLang::HauLatn),
            ('h', 'i') => Some(EpitranLang::HinDeva),
            ('h', 'u') => Some(EpitranLang::HunLatn),
            ('i', 'd') => Some(EpitranLang::IndLatn),
            ('i', 't') => Some(EpitranLang::ItaLatn),
            ('j', 'v') => Some(EpitranLang::JavLatn),
            ('k', 'n') => Some(EpitranLang::KanKnda),
            ('k', 'k') => Some(EpitranLang::KazCyrl),
            ('k', 'm') => Some(EpitranLang::KhmKhmr),
            ('r', 'w') => Some(EpitranLang::KinLatn),
            ('k', 'y') => Some(EpitranLang::KirCyrl),
            ('l', 'o') => Some(EpitranLang::LaoLaoo),
            ('m', 'r') => Some(EpitranLang::MarDeva),
            ('m', 's') => Some(EpitranLang::MsaLatn),
            ('m', 'y') => Some(EpitranLang::MyaMymr),
            ('n', 'e') => Some(EpitranLang::NepDeva),
            ('o', 'r') => Some(EpitranLang::OriOrya),
            ('p', 'a') => Some(EpitranLang::PanGuru),
            ('p', 'l') => Some(EpitranLang::PolLatn),
            ('p', 't') => Some(EpitranLang::PorLatn),
            ('r', 'o') => Some(EpitranLang::RonLatn),
            ('r', 'u') => Some(EpitranLang::RusCyrl),
            ('s', 'i') => Some(EpitranLang::SinSinh),
            ('s', 'o') => Some(EpitranLang::SomLatn),
            ('e', 's') => Some(EpitranLang::SpaLatn),
            ('s', 'w') => Some(EpitranLang::SwaLatn),
            ('t', 'a') => Some(EpitranLang::TamTaml),
            ('t', 'e') => Some(EpitranLang::TelTelu),
            ('t', 'l') => Some(EpitranLang::TglLatn),
            ('t', 'h') => Some(EpitranLang::ThaThai),
            ('t', 'r') => Some(EpitranLang::TurLatn),
            ('u', 'g') => Some(EpitranLang::UigArab),
            ('u', 'k') => Some(EpitranLang::UkrCyrl),
            ('u', 'r') => Some(EpitranLang::UrdArab),
            ('u', 'z') => Some(EpitranLang::Uzblatn),
            ('v', 'i') => Some(EpitranLang::VieLatn),
            ('y', 'o') => Some(EpitranLang::YorLatn),
            ('z', 'u') => Some(EpitranLang::ZulLatn),
            _ => None,
        }
    }

    /// The language a two-character code names.
    pub open spec fn of_iso_code(code: Seq<char>) -> Option<EpitranLang> {
        if code.len() == 2 {
            EpitranLang::of_iso_letters(code[0], code[1])
        } else {
            None
        }
    }

    /// The key a language tag is read by: its first two bytes, after lower
    /// casing and writing `_` as `-`.
    pub open spec fn tag_key(tag: Seq<char>) -> Option<Seq<char>> {
        two_byte_prefix(dashes_for_underscores(lowercase(tag)))
    }

    /// Whether reading the tag does not panic: its lower case form has a
    /// first two bytes that can be sliced.
    pub open spec fn tag_readable(tag: Seq<char>) -> bool {
        two_byte_prefix(lowercase(tag)) is Some
    }

    /// The language a readable tag names.
    pub open spec fn of_tag(tag: Seq<char>) -> Option<EpitranLang> {
        EpitranLang::of_iso_code(EpitranLang::tag_key(tag)->0)
    }

    /// Reads a language tag such as `"en-US"` or `"pt_BR"`: its first two bytes,
    /// lower cased and with `_` written `-`, are taken as an ISO 639-1 code.
    /// A tag that names no language is refused with a message that quotes it.
    pub fn from_str(s: &str) -> (r: Result<EpitranLang, String>)
        requires
            EpitranLang::tag_readable(s@),
        ensures
            match r {
                Ok(l) => EpitranLang::of_tag(s@) == Some(l),
                Err(m) => EpitranLang::of_tag(s@) is None && m@ == "Unknown Epitran code representation entry: "@ + s@,
            },
    {
        let lowered = to_lowercase(s);
        let v = chars_of(lowered.as_str());
        let replaced = replace_underscores(&v);
        proof {
            lemma_dashes_keep_prefix(lowercase(s@));
        }
        let key = match two_byte_prefix_of(&replaced) {
            Some(k) => k,
            None => {
                return Err(String::new());
            },
        };
        let found = if key.len() == 2 {
            match (key[0], key[1]) {
                ('a', 'm') => Some(EpitranLang::AmhEthi),
                ('a', 'r') => Some(EpitranLang::AraArab),
                ('a', 'z') => Some(EpitranLang::AzeCyrl),
                ('b', 'n') => Some(EpitranLang::BenBeng),
                ('z', 'h') => Some(EpitranLang::CmnHans),
                ('d', 'e') => Some(EpitranLang::DeuLatn),
                ('e', 'l') => Some(EpitranLang::EllGrek),
                ('e', 'n') => Some(EpitranLang::EngLatn),
                ('f', 'a') => Some(EpitranLang::FasArab),
                ('f', 'r') => Some(EpitranLang::FraLatn),
                ('g', 'u') => Some(EpitranLang::GujGujr),
                ('h', 'a') => Some(EpitranLang::HauLatn),
                ('h', 'i') => Some(EpitranLang::HinDeva),
                ('h', 'u') => Some(EpitranLang::HunLatn),
                ('i', 'd') => Some(EpitranLang::IndLatn),
                ('i', 't') => Some(EpitranLang::ItaLatn),
                ('j', 'v') => Some(EpitranLang::JavLatn),
                ('k', 'n') => Some(EpitranLang::KanKnda),
                ('k', 'k') => Some(EpitranLang::KazCyrl),
                ('k', 'm') => Some(EpitranLang::KhmKhmr),
                ('r', 'w') => Some(EpitranLang::KinLatn),
                ('k', 'y') => Some(EpitranLang::KirCyrl),
                ('l', 'o') => Some(EpitranLang::LaoLaoo),
                ('m', 'r') => Some(EpitranLang::MarDeva),
                ('m', 's') => Some(EpitranLang::MsaLatn),
                ('m', 'y') => Some(EpitranLang::MyaMymr),
                ('n', 'e') => Some(EpitranLang::NepDeva),
                ('o', 'r') => Some(EpitranLang::OriOrya),
                ('p', 'a') => Some(EpitranLang::PanGuru),
                ('p', 'l') => Some(EpitranLang::PolLatn),
                ('p', 't') => Some(EpitranLang::PorLatn),
                ('r', 'o') => Some(EpitranLang::RonLatn),
                ('r', 'u') => Some(EpitranLang::RusCyrl),
                ('s', 'i') => Some(EpitranLang::SinSinh),
                ('s', 'o') => Some(EpitranLang::SomLatn),
                ('e', 's') => Some(EpitranLang::SpaLatn),
                ('s', 'w') => Some(EpitranLang::SwaLatn),
                ('t', 'a') => Some(EpitranLang::TamTaml),
                ('t', 'e') => Some(EpitranLang::TelTelu),
                ('t', 'l') => Some(EpitranLang::TglLatn),
                ('t', 'h') => Some(EpitranLang::ThaThai),
                ('t', 'r') => Some(EpitranLang::TurLatn),
                ('u', 'g') => Some(EpitranLang::UigArab),
                ('u', 'k') => Some(EpitranLang::UkrCyrl),
                ('u', 'r') => Some(EpitranLang::UrdArab),
                ('u', 'z') => Some(EpitranLang::Uzblatn),
                ('v', 'i') => Some(EpitranLang::VieLatn),
                ('y', 'o') => Some(EpitranLang::YorLatn),
                ('z', 'u') => Some(EpitranLang::ZulLatn),
                _ => None,
            }
        } else {
            None
        };
        match found {
            Some(l) => Ok(l),
            None => {
                let mut m = String::from_str("Unknown Epitran code representation entry: ");
                m.append(s);
                Err(m)
            },
        }
    }
}

/// Whether `c` has the shape of an Epitran code: three lower-case ASCII
/// letters, `_`, an upper-case ASCII letter and three lower-case ASCII
/// letters, as in `"deu_Latn"`.
pub open spec fn is_code_shape(c: Seq<char>) -> bool {
    &&& c.len() == 8
    &&& forall|i: int| 0 <= i < 8 && i != 3 && i != 4 ==> 'a' <= #[trigger] c[i] <= 'z'
    &&& c[3] == '_'
    &&& 'A' <= c[4] <= 'Z'
}

/// The characters of a code that tell the languages apart: the language's
/// three letters and the script's last letter.
spec fn code_key(c: Seq<char>) -> (char, char, char, char) {
    (c[0], c[1], c[2], c[7])
}

/// The language whose code has the given key.
spec fn of_code_key(k: (char, char, char, char)) -> Option<EpitranLang> {
    match k {
        ('a', 'm', 'h', 'i') => Some(EpitranLang::AmhEthi),
        ('a', 'r', 'a', 'b') => Some(EpitranLang::AraArab),
        ('a', 'z', 'e', 'l') => Some(EpitranLang::AzeCyrl),
        ('a', 'z', 'e', 'n') => Some(EpitranLang::AzeLatn),
        ('b', 'e', 'n', 'g') => Some(EpitranLang::BenBeng),
        ('c', 'm', 'n', 's') => Some(EpitranLang::CmnHans),
        ('c', 'm', 'n', 't') => Some(EpitranLang::CmnHant),
        ('d', 'e', 'u', 'n') => Some(EpitranLang::DeuLatn),
        ('e', 'l', 'l', 'k') => Some(EpitranLang::EllGrek),
        ('e', 'n', 'g', 'n') => Some(EpitranLang::EngLatn),
        ('f', 'a', 's', 'b') => Some(EpitranLang::FasArab),
        ('f', 'r', 'a', 'n') => Some(EpitranLang::FraLatn),
        ('g', 'u', 'j', 'r') => Some(EpitranLang::GujGujr),
        ('h', 'a', 'u', 'n') => Some(EpitranLang::HauLatn),
        ('h', 'i', 'n', 'a') => Some(EpitranLang::HinDeva),
        ('h', 'u', 'n', 'n') => Some(EpitranLang::HunLatn),
        ('i', 'n', 'd', 'n') => Some(EpitranLang::IndLatn),
        ('i', 't', 'a', 'n') => Some(EpitranLang::ItaLatn),
        ('j', 'a', 'v', 'n') => Some(EpitranLang::JavLatn),
        ('k', 'a', 'n', 'a') => Some(EpitranLang::KanKnda),
        ('k', 'a', 'z', 'l') => Some(EpitranLang::KazCyrl),
        ('k', 'h', 'm', 'r') => Some(EpitranLang::KhmKhmr),
        ('k', 'i', 'n', 'n') => Some(EpitranLang::KinLatn),
        ('k', 'i', 'r', 'l') => Some(EpitranLang::KirCyrl),
        ('l', 'a', 'o', 'o') => Some(EpitranLang::LaoLaoo),
        ('m', 'a', 'r', 'a') => Some(EpitranLang::MarDeva),
        ('m', 's', 'a', 'n') => Some(EpitranLang::MsaLatn),
        ('m', 'y', 'a', 'r') => Some(EpitranLang::MyaMymr),
        ('n', 'e', 'p', 'a') => Some(EpitranLang::NepDeva),
        ('o', 'r', 'i', 'a') => Some(EpitranLang::OriOrya),
        ('p', 'a', 'n', 'u') => Some(EpitranLang::PanGuru),
        ('p', 'o', 'l', 'n') => Some(EpitranLang::PolLatn),
        ('p', 'o', 'r', 'n') => Some(EpitranLang::PorLatn),
        ('r', 'o', 'n', 'n') => Some(EpitranLang::RonLatn),
        ('r', 'u', 's', 'l') => Some(EpitranLang::RusCyrl),
        ('s', 'i', 'n', 'h') => Some(EpitranLang::SinSinh),
        ('s', 'o', 'm', 'n') => Some(EpitranLang::SomLatn),
        ('s', 'p', 'a', 'n') => Some(EpitranLang::SpaLatn),
        ('s', 'w', 'a', 'n') => Some(EpitranLang::SwaLatn),
        ('t', 'a', 'm', 'l') => Some(EpitranLang::TamTaml),
        ('t', 'e', 'l', 'u') => Some(EpitranLang::TelTelu),
        ('t', 'g', 'l', 'n') => Some(EpitranLang::TglLatn),
        ('t', 'h', 'a', 'i') => Some(EpitranLang::ThaThai),
        ('t', 'u', 'r', 'n') => Some(EpitranLang::TurLatn),
        ('u', 'i', 'g', 'b') => Some(EpitranLang::UigArab),
        ('u', 'k', 'r', 'l') => Some(EpitranLang::UkrCyrl),
        ('u', 'r', 'd', 'b') => Some(EpitranLang::UrdArab),
        ('u', 'z', 'b', 'n') => Some(EpitranLang::Uzblatn),
        ('v', 'i', 'e', 'n') => Some(EpitranLang::VieLatn),
        ('y', 'o', 'r', 'n') => Some(EpitranLang::YorLatn),
        ('z', 'u', 'l', 'n') => Some(EpitranLang::ZulLatn),
        _ => None,
    }
}

/// Each code has the code shape, and its key leads back to its language.
proof fn lemma_code_literal(l: EpitranLang)
    ensures
        is_code_shape(l.code()),
        of_code_key(code_key(l.code())) == Some(l),
{
    match l {
        EpitranLang::AmhEthi => reveal_strlit("amh_Ethi"),
        EpitranLang::AraArab => reveal_strlit("ara_Arab"),
        EpitranLang::AzeCyrl => reveal_strlit("aze_Cyrl"),
        EpitranLang::AzeLatn => reveal_strlit("aze_Latn"),
        EpitranLang::BenBeng => reveal_strlit("ben_Beng"),
        EpitranLang::CmnHans => reveal_strlit("cmn_Hans"),
        EpitranLang::CmnHant => reveal_strlit("cmn_Hant"),
        EpitranLang::DeuLatn => reveal_strlit("deu_Latn"),
        EpitranLang::EllGrek => reveal_strlit("ell_Grek"),
        EpitranLang::EngLatn => reveal_strlit("eng_Latn"),
        EpitranLang::FasArab => reveal_strlit("fas_Arab"),
        EpitranLang::FraLatn => reveal_strlit("fra_Latn"),
        EpitranLang::GujGujr => reveal_strlit("guj_Gujr"),
        EpitranLang::HauLatn => reveal_strlit("hau_Latn"),
        EpitranLang::HinDeva => reveal_strlit("hin_Deva"),
        EpitranLang::HunLatn => reveal_strlit("hun_Latn"),
        EpitranLang::IndLatn => reveal_strlit("ind_Latn"),
        EpitranLang::ItaLatn => reveal_strlit("ita_Latn"),
        EpitranLang::JavLatn => reveal_strlit("jav_Latn"),
        EpitranLang::KanKnda => reveal_strlit("kan_Knda"),
        EpitranLang::KazCyrl => reveal_strlit("kaz_Cyrl"),
        EpitranLang::KhmKhmr => reveal_strlit("khm_Khmr"),
        EpitranLang::KinLatn => reveal_strlit("kin_Latn"),
        EpitranLang::KirCyrl => reveal_strlit("kir_Cyrl"),
        EpitranLang::LaoLaoo => reveal_strlit("lao_Laoo"),
        EpitranLang::MarDeva => reveal_strlit("mar_Deva"),
        EpitranLang::MsaLatn => reveal_strlit("msa_Latn"),
        EpitranLang::MyaMymr => reveal_strlit("mya_Mymr"),
        EpitranLang::NepDeva => reveal_strlit("nep_Deva"),
        EpitranLang::OriOrya => reveal_strlit("ori_Orya"),
        EpitranLang::PanGuru => reveal_strlit("pan_Guru"),
        EpitranLang::PolLatn => reveal_strlit("pol_Latn"),
        EpitranLang::PorLatn => reveal_strlit("por_Latn"),
        EpitranLang::RonLatn => reveal_strlit("ron_Latn"),
        EpitranLang::RusCyrl => reveal_strlit("rus_Cyrl"),
        EpitranLang::SinSinh => reveal_strlit("sin_Sinh"),
        EpitranLang::SomLatn => reveal_strlit("som_Latn"),
        EpitranLang::SpaLatn => reveal_strlit("spa_Latn"),
        EpitranLang::SwaLatn => reveal_strlit("swa_Latn"),
        EpitranLang::TamTaml => reveal_strlit("tam_Taml"),
        EpitranLang::TelTelu => reveal_strlit("tel_Telu"),
        EpitranLang::TglLatn => reveal_strlit("tgl_Latn"),
        EpitranLang::ThaThai => reveal_strlit("tha_Thai"),
        EpitranLang::TurLatn => reveal_strlit("tur_Latn"),
        EpitranLang::UigArab => reveal_strlit("uig_Arab"),
        EpitranLang::UkrCyrl => reveal_strlit("ukr_Cyrl"),
        EpitranLang::UrdArab => reveal_strlit("urd_Arab"),
        EpitranLang::Uzblatn => reveal_strlit("uzb_Latn"),
        EpitranLang::VieLatn => reveal_strlit("vie_Latn"),
        EpitranLang::YorLatn => reveal_strlit("yor_Latn"),
        EpitranLang::ZulLatn => reveal_strlit("zul_Latn"),
    }
}

/// Every language has an Epitran code of the form `xxx_Yyyy`, and distinct
/// languages have distinct codes, so a code names one language.
pub proof fn law_codes_distinct_and_shaped(a: EpitranLang, b: EpitranLang)
    ensures
        is_code_shape(a.code()),
        a.code() == b.code() <==> a == b,
{
    lemma_code_literal(a);
    lemma_code_literal(b);
}

/// The three-letter ISO 639-2/T code (the ISO 639-3 code) of the language
/// whose two-letter ISO 639-1 code is `a b`, for the languages Epitran
/// covers.
pub open spec fn iso_639_3(a: char, b: char) -> Option<Seq<char>> {
    match (a, b) {
        ('a', 'm') => Some(seq!['a', 'm', 'h']),
        ('a', 'r') => Some(seq!['a', 'r', 'a']),
        ('a', 'z') => Some(seq!['a', 'z', 'e']),
        ('b', 'n') => Some(seq!['b', 'e', 'n']),
        ('z', 'h') => Some(seq!['z', 'h', 'o']),
        ('d', 'e') => Some(seq!['d', 'e', 'u']),
        ('e', 'l') => Some(seq!['e', 'l', 'l']),
        ('e', 'n') => Some(seq!['e', 'n', 'g']),
        ('f', 'a') => Some(seq!['f', 'a', 's']),
        ('f', 'r') => Some(seq!['f', 'r', 'a']),
        ('g', 'u') => Some(seq!['g', 'u', 'j']),
        ('h', 'a') => Some(seq!['h', 'a', 'u']),
        ('h', 'i') => Some(seq!['h', 'i', 'n']),
        ('h', 'u') => Some(seq!['h', 'u', 'n']),
        ('i', 'd') => Some(seq!['i', 'n', 'd']),
        ('i', 't') => Some(seq!['i', 't', 'a']),
        ('j', 'v') => Some(seq!['j', 'a', 'v']),
        ('k', 'n') => Some(seq!['k', 'a', 'n']),
        ('k', 'k') => Some(seq!['k', 'a', 'z']),
        ('k', 'm') => Some(seq!['k', 'h', 'm']),
        ('r', 'w') => Some(seq!['k', 'i', 'n']),
        ('k', 'y') => Some(seq!['k', 'i', 'r']),
        ('l', 'o') => Some(seq!['l', 'a', 'o']),
        ('m', 'r') => Some(seq!['m', 'a', 'r']),
        ('m', 's') => Some(seq!['m', 's', 'a']),
        ('m', 'y') => Some(seq!['m', 'y', 'a']),
        ('n', 'e') => Some(seq!['n', 'e', 'p']),
        ('o', 'r') => Some(seq!['o', 'r', 'i']),
        ('p', 'a') => Some(seq!['p', 'a', 'n']),
        ('p', 'l') => Some(seq!['p', 'o', 'l']),
        ('p', 't') => Some(seq!['p', 'o', 'r']),
        ('r', 'o') => Some(seq!['r', 'o', 'n']),
        ('r', 'u') => Some(seq!['r', 'u', 's']),
        ('s', 'i') => Some(seq!['s', 'i', 'n']),
        ('s', 'o') => Some(seq!['s', 'o', 'm']),
        ('e', 's') => Some(seq!['s', 'p', 'a']),
        ('s', 'w') => Some(seq!['s', 'w', 'a']),
        ('t', 'a') => Some(seq!['t', 'a', 'm']),
        ('t', 'e') => Some(seq!['t', 'e', 'l']),
        ('t', 'l') => Some(seq!['t', 'g', 'l']),
        ('t', 'h') => Some(seq!['t', 'h', 'a']),
        ('t', 'r') => Some(seq!['t', 'u', 'r']),
        ('u', 'g') => Some(seq!['u', 'i', 'g']),
        ('u', 'k') => Some(seq!['u', 'k', 'r']),
        ('u', 'r') => Some(seq!['u', 'r', 'd']),
        ('u', 'z') => Some(seq!['u', 'z', 'b']),
        ('v', 'i') => Some(seq!['v', 'i', 'e']),
        ('y', 'o') => Some(seq!['y', 'o', 'r']),
        ('z', 'u') => Some(seq!['z', 'u', 'l']),
        _ => None,
    }
}

/// Whether `l` is the language of the ISO 639-1 code `a b`: its Epitran code
/// begins with the code's ISO 639-3 form. Chinese (`zh`, ISO 639-3 `zho`, a
/// macrolanguage) is the one exception: Epitran transliterates it as its
/// individual language Mandarin, `cmn`.
pub open spec fn names_iso_language(a: char, b: char, l: EpitranLang) -> bool {
    if a == 'z' && b == 'h' {
        l.code().take(3) == seq!['c', 'm', 'n']
    } else {
        iso_639_3(a, b) matches Some(c) && l.code().take(3) == c
    }
}

/// Each ISO code names the language the standard gives it, whose code
/// begins with the ISO 639-3 letters.
proof fn lemma_iso_prefix(a: char, b: char)
    ensures
        EpitranLang::of_iso_letters(a, b) matches Some(l) ==> names_iso_language(a, b, l),
{
    match (a, b) {
        ('a', 'm') => {
            reveal_strlit("amh_Ethi");
            assert(EpitranLang::AmhEthi.code().take(3) =~= seq!['a', 'm', 'h']);
        },
        ('a', 'r') => {
            reveal_strlit("ara_Arab");
            assert(EpitranLang::AraArab.code().take(3) =~= seq!['a', 'r', 'a']);
        },
        ('a', 'z') => {
            reveal_strlit("aze_Cyrl");
            assert(EpitranLang::AzeCyrl.code().take(3) =~= seq!['a', 'z', 'e']);
        },
        ('b', 'n') => {
            reveal_strlit("ben_Beng");
            assert(EpitranLang::BenBeng.code().take(3) =~= seq!['b', 'e', 'n']);
        },
        ('z', 'h') => {
            reveal_strlit("cmn_Hans");
            assert(EpitranLang::CmnHans.code().take(3) =~= seq!['c', 'm', 'n']);
        },
        ('d', 'e') => {
            reveal_strlit("deu_Latn");
            assert(EpitranLang::DeuLatn.code().take(3) =~= seq!['d', 'e', 'u']);
        },
        ('e', 'l') => {
            reveal_strlit("ell_Grek");
            assert(EpitranLang::EllGrek.code().take(3) =~= seq!['e', 'l', 'l']);
        },
        ('e', 'n') => {
            reveal_strlit("eng_Latn");
            assert(EpitranLang::EngLatn.code().take(3) =~= seq!['e', 'n', 'g']);
        },
        ('f', 'a') => {
            reveal_strlit("fas_Arab");
            assert(EpitranLang::FasArab.code().take(3) =~= seq!['f', 'a', 's']);
        },
        ('f', 'r') => {
            reveal_strlit("fra_Latn");
            assert(EpitranLang::FraLatn.code().take(3) =~= seq!['f', 'r', 'a']);
        },
        ('g', 'u') => {
            reveal_strlit("guj_Gujr");
            assert(EpitranLang::GujGujr.code().take(3) =~= seq!['g', 'u', 'j']);
        },
        ('h', 'a') => {
            reveal_strlit("hau_Latn");
            assert(EpitranLang::HauLatn.code().take(3) =~= seq!['h', 'a', 'u']);
        },
        ('h', 'i') => {
            reveal_strlit("hin_Deva");
            assert(EpitranLang::HinDeva.code().take(3) =~= seq!['h', 'i', 'n']);
        },
        ('h', 'u') => {
            reveal_strlit("hun_Latn");
            assert(EpitranLang::HunLatn.code().take(3) =~= seq!['h', 'u', 'n']);
        },
        ('i', 'd') => {
            reveal_strlit("ind_Latn");
            assert(EpitranLang::IndLatn.code().take(3) =~= seq!['i', 'n', 'd']);
        },
        ('i', 't') => {
            reveal_strlit("ita_Latn");
            assert(EpitranLang::ItaLatn.code().take(3) =~= seq!['i', 't', 'a']);
        },
        ('j', 'v') => {
            reveal_strlit("jav_Latn");
            assert(EpitranLang::JavLatn.code().take(3) =~= seq!['j', 'a', 'v']);
        },
        ('k', 'n') => {
            reveal_strlit("kan_Knda");
            assert(EpitranLang::KanKnda.code().take(3) =~= seq!['k', 'a', 'n']);
        },
        ('k', 'k') => {
            reveal_strlit("kaz_Cyrl");
            assert(EpitranLang::KazCyrl.code().take(3) =~= seq!['k', 'a', 'z']);
        },
        ('k', 'm') => {
            reveal_strlit("khm_Khmr");
            assert(EpitranLang::KhmKhmr.code().take(3) =~= seq!['k', 'h', 'm']);
        },
        ('r', 'w') => {
            reveal_strlit("kin_Latn");
            assert(EpitranLang::KinLatn.code().take(3) =~= seq!['k', 'i', 'n']);
        },
        ('k', 'y') => {
            reveal_strlit("kir_Cyrl");
            assert(EpitranLang::KirCyrl.code().take(3) =~= seq!['k', 'i', 'r']);
        },
        ('l', 'o') => {
            reveal_strlit("lao_Laoo");
            assert(EpitranLang::LaoLaoo.code().take(3) =~= seq!['l', 'a', 'o']);
        },
        ('m', 'r') => {
            reveal_strlit("mar_Deva");
            assert(EpitranLang::MarDeva.code().take(3) =~= seq!['m', 'a', 'r']);
        },
        ('m', 's') => {
            reveal_strlit("msa_Latn");
            assert(EpitranLang::MsaLatn.code().take(3) =~= seq!['m', 's', 'a']);
        },
        ('m', 'y') => {
            reveal_strlit("mya_Mymr");
            assert(EpitranLang::MyaMymr.code().take(3) =~= seq!['m', 'y', 'a']);
        },
        ('n', 'e') => {
            reveal_strlit("nep_Deva");
            assert(EpitranLang::NepDeva.code().take(3) =~= seq!['n', 'e', 'p']);
        },
        ('o', 'r') => {
            reveal_strlit("ori_Orya");
            assert(EpitranLang::OriOrya.code().take(3) =~= seq!['o', 'r', 'i']);
        },
        ('p', 'a') => {
            reveal_strlit("pan_Guru");
            assert(EpitranLang::PanGuru.code().take(3) =~= seq!['p', 'a', 'n']);
        },
        ('p', 'l') => {
            reveal_strlit("pol_Latn");
            assert(EpitranLang::PolLatn.code().take(3) =~= seq!['p', 'o', 'l']);
        },
        ('p', 't') => {
            reveal_strlit("por_Latn");
            assert(EpitranLang::PorLatn.code().take(3) =~= seq!['p', 'o', 'r']);
        },
        ('r', 'o') => {
            reveal_strlit("ron_Latn");
            assert(EpitranLang::RonLatn.code().take(3) =~= seq!['r', 'o', 'n']);
        },
        ('r', 'u') => {
            reveal_strlit("rus_Cyrl");
            assert(EpitranLang::RusCyrl.code().take(3) =~= seq!['r', 'u', 's']);
        },
        ('s', 'i') => {
            reveal_strlit("sin_Sinh");
            assert(EpitranLang::SinSinh.code().take(3) =~= seq!['s', 'i', 'n']);
        },
        ('s', 'o') => {
            reveal_strlit("som_Latn");
            assert(EpitranLang::SomLatn.code().take(3) =~= seq!['s', 'o', 'm']);
        },
        ('e', 's') => {
            reveal_strlit("spa_Latn");
            assert(EpitranLang::SpaLatn.code().take(3) =~= seq!['s', 'p', 'a']);
        },
        ('s', 'w') => {
            reveal_strlit("swa_Latn");
            assert(EpitranLang::SwaLatn.code().take(3) =~= seq!['s', 'w', 'a']);
        },
        ('t', 'a') => {
            reveal_strlit("tam_Taml");
            assert(EpitranLang::TamTaml.code().take(3) =~= seq!['t', 'a', 'm']);
        },
        ('t', 'e') => {
            reveal_strlit("tel_Telu");
            assert(EpitranLang::TelTelu.code().take(3) =~= seq!['t', 'e', 'l']);
        },
        ('t', 'l') => {
            reveal_strlit("tgl_Latn");
            assert(EpitranLang::TglLatn.code().take(3) =~= seq!['t', 'g', 'l']);
        },
        ('t', 'h') => {
            reveal_strlit("tha_Thai");
            assert(EpitranLang::ThaThai.code().take(3) =~= seq!['t', 'h', 'a']);
        },
        ('t', 'r') => {
            reveal_strlit("tur_Latn");
            assert(EpitranLang::TurLatn.code().take(3) =~= seq!['t', 'u', 'r']);
        },
        ('u', 'g') => {
            reveal_strlit("uig_Arab");
            assert(EpitranLang::UigArab.code().take(3) =~= seq!['u', 'i', 'g']);
        },
        ('u', 'k') => {
            reveal_strlit("ukr_Cyrl");
            assert(EpitranLang::UkrCyrl.code().take(3) =~= seq!['u', 'k', 'r']);
        },
        ('u', 'r') => {
            reveal_strlit("urd_Arab");
            assert(EpitranLang::UrdArab.code().take(3) =~= seq!['u', 'r', 'd']);
        },
        ('u', 'z') => {
            reveal_strlit("uzb_Latn");
            assert(EpitranLang::Uzblatn.code().take(3) =~= seq!['u', 'z', 'b']);
        },
        ('v', 'i') => {
            reveal_strlit("vie_Latn");
            assert(EpitranLang::VieLatn.code().take(3) =~= seq!['v', 'i', 'e']);
        },
        ('y', 'o') => {
            reveal_strlit("yor_Latn");
            assert(EpitranLang::YorLatn.code().take(3) =~= seq!['y', 'o', 'r']);
        },
        ('z', 'u') => {
            reveal_strlit("zul_Latn");
            assert(EpitranLang::ZulLatn.code().take(3) =~= seq!['z', 'u', 'l']);
        },
        _ => {},
    }
}

/// The language read from a two-letter ISO 639-1 code is the language the
/// code stands for (`es` Spanish `spa_Latn`, `pt` Portuguese `por_Latn`,
/// `fr` French `fra_Latn`, ...), and distinct codes name distinct languages.
pub proof fn law_iso_codes_name_their_language(a: char, b: char, c: char, d: char)
    ensures
        EpitranLang::of_iso_letters(a, b) matches Some(l) ==> names_iso_language(a, b, l),
        EpitranLang::of_iso_letters(a, b) is Some && EpitranLang::of_iso_letters(a, b)
            == EpitranLang::of_iso_letters(c, d) ==> a == c && b == d,
{
    lemma_iso_prefix(a, b);
}

/// A language tag is read as the language its first two letters (lower
/// cased) stand for in ISO 639-1.
pub proof fn law_tag_names_its_language(tag: Seq<char>)
    ensures
        EpitranLang::of_tag(tag) matches Some(l) ==> {
            let k = EpitranLang::tag_key(tag)->0;
            k.len() == 2 && names_iso_language(k[0], k[1], l)
        },
{
    let k = EpitranLang::tag_key(tag)->0;
    if k.len() == 2 {
        lemma_iso_prefix(k[0], k[1]);
    }
}

/// `s` with every `_` written as `-`.
pub open spec fn dashes_for_underscores(s: Seq<char>) -> Seq<char> {
    s.map_values(|c: char| if c == '_' { '-' } else { c })
}

/// Writes every `_` of `v` as `-`.
fn replace_underscores(v: &Vec<char>) -> (r: Vec<char>)
    ensures
        r@ == dashes_for_underscores(v@),
{
    let mut r: Vec<char> = Vec::new();
    let mut i: usize = 0;
    while i < v.len()
        invariant
            i <= v.len(),
            r@ == dashes_for_underscores(v@.take(i as int)),
        decreases v.len() - i,
    {
        let c = v[i];
        r.push(if c == '_' { '-' } else { c });
        assert(dashes_for_underscores(v@.take(i + 1)) =~= dashes_for_underscores(v@.take(i as int)).push(
            if c == '_' { '-' } else { c },
        ));
        i = i + 1;
    }
    assert(v@.take(v@.len() as int) =~= v@);
    r
}

/// Writing `_` as `-` keeps every character's width, so the first two bytes
/// can be sliced before exactly when after.
proof fn lemma_dashes_keep_prefix(s: Seq<char>)
    ensures
        (two_byte_prefix(dashes_for_underscores(s)) is Some) == (two_byte_prefix(s) is Some),
{
    let d = dashes_for_underscores(s);
    assert(crate::text::char_utf8_len('_') == 1) by {
        crate::text::lemma_encode_utf8_single('_');
    }
    assert(crate::text::char_utf8_len('-') == 1) by {
        crate::text::lemma_encode_utf8_single('-');
    }
    if s.len() >= 1 {
        assert(crate::text::char_utf8_len(d[0]) == crate::text::char_utf8_len(s[0]));
    }
    if s.len() >= 2 {
        assert(crate::text::char_utf8_len(d[1]) == crate::text::char_utf8_len(s[1]));
    }
}

} // verus!
