//! The parts of a voice's configuration that the library reads.
use vstd::prelude::*;
use vstd::string::*;

use crate::text::{chars_of, push_char};

verus! {

/// The `language` section of a voice configuration.
#[derive(Debug)]
pub struct LanguageConfig {
    /// The voice's language tag, such as `"en_US"`.
    pub code: Option<String>,
}

/// The language tag a configuration gives: its code, `"en"` where it has
/// none, with `_` written as `-`.
pub open spec fn language_tag_of(code: Option<Seq<char>>) -> Seq<char> {
    let c = match code {
        Some(c) => c,
        None => "en"@,
    };
    c.map_values(|ch: char| if ch == '_' { '-' } else { ch })
}

/// A language tag never holds `_`.
pub proof fn law_language_tag_has_no_underscore(code: Option<Seq<char>>)
    ensures
        !language_tag_of(code).contains('_'),
{
    let t = language_tag_of(code);
    if t.contains('_') {
        let k = choose|k: int| 0 <= k < t.len() && t[k] == '_';
        assert(t[k] != '_');
    }
}

impl LanguageConfig {
    /// The code, if any, as text.
    pub open spec fn code_view(&self) -> Option<Seq<char>> {
        match self.code {
            Some(c) => Some(c@),
            None => None,
        }
    }

    /// The language tag to phonemize with: the code, or `"en"` where there is
    /// none, with `_` written as `-`.
    pub fn language_tag(&self) -> (r: String)
        ensures
            r@ == language_tag_of(self.code_view()),
    {
        let v = match &self.code {
            Some(c) => chars_of(c.as_str()),
            None => chars_of("en"),
        };
        let mut r = String::new();
        let mut i: usize = 0;
        let ghost c = match self.code_view() {
            Some(c) => c,
            None => "en"@,
        };
        while i < v.len()
            invariant
                i <= v.len(),
                v@ == c,
                r@ == c.take(i as int).map_values(|ch: char| if ch == '_' { '-' } else { ch }),
            decreases v.len() - i,
        {
            let ch = v[i];
            push_char(&mut r, if ch == '_' { '-' } else { ch });
            assert(c.take(i + 1).map_values(|ch: char| if ch == '_' { '-' } else { ch }) =~= c.take(
                i as int,
            ).map_values(|ch: char| if ch == '_' { '-' } else { ch }).push(if ch == '_' { '-' } else { ch }));
            i = i + 1;
        }
        assert(c.take(v.len() as int) =~= c);
        r
    }
}

} // verus!
