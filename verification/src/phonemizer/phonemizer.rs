//! Splitting text into words and symbols, and the phonemization strategies
//! that turn the words into IPA.
use vstd::prelude::*;
use vstd::string::*;

use crate::phonemizer::cmudict::{CmudictPhonemizer, cmudict_ipa};
use crate::phonemizer::epitran::EpitranLang;
use crate::text::{
    chars_of, is_white_space, is_whitespace, join, join_strings,
    lemma_utf8_len_prefix_mono, lemma_utf8_len_push, len_utf8, lowercase, push_str, str_eq,
    string_from_chars, string_from_range, to_lowercase, unaccent_text, unaccented, two_byte_prefix, two_byte_prefix_of, utf8_len,
    views,
};

verus! {

/// The regular expression text is tokenized by: group 1 a run of letters and
/// marks, group 2 one symbol (neither letter, mark, digit nor white space),
/// group 3 a run of white space.
pub const TOKEN_PATTERN: &'static str = r"(?P<word>[\p{L}\p{M}]+)|(?P<single_sym>[^\p{L}\p{M}\d\s])|(?P<whitespace>\s+)";

/// Byte spans of the groups of one capture (`None` for a group that did not
/// take part), group 0 being the whole match.
pub type GroupSpans = Vec<Option<(usize, usize)>>;

/// What compiling `pattern` and iterating its captures over `text` yields:
/// `None` where the pattern does not compile, else the captures in order,
/// each as the byte spans of its groups.
pub uninterp spec fn regex_captures(pattern: Seq<char>, text: Seq<char>) -> Option<
    Seq<Seq<Option<(usize, usize)>>>,
>;

/// The views of captures.
pub open spec fn captures_view(caps: Seq<GroupSpans>) -> Seq<Seq<Option<(usize, usize)>>> {
    caps.map_values(|c: GroupSpans| c@)
}

/// Whether byte offset `off` of the UTF-8 encoding of `text` falls between
/// two characters (or at either end).
pub open spec fn on_char_boundary(text: Seq<char>, off: int) -> bool {
    exists|k: int| 0 <= k <= text.len() && #[trigger] utf8_len(text.take(k)) == off
}

/// A span that slices `text` without panicking.
pub open spec fn valid_span(text: Seq<char>, span: (usize, usize)) -> bool {
    &&& span.0 <= span.1
    &&& on_char_boundary(text, span.0 as int)
    &&& on_char_boundary(text, span.1 as int)
}

/// What the `regex` crate documents of captures over a haystack: group 0 of
/// every capture is the whole match, every span lies on character boundaries
/// with its start before its end, and the matches are successive and do not
/// overlap.
pub open spec fn well_formed_captures(text: Seq<char>, caps: Seq<Seq<Option<(usize, usize)>>>) -> bool {
    &&& forall|i: int| 0 <= i < caps.len() ==> (#[trigger] caps[i]).len() >= 1 && caps[i][0] is Some
    &&& forall|i: int, g: int|
        0 <= i < caps.len() && 0 <= g < caps[i].len() && (#[trigger] caps[i][g]) is Some
            ==> valid_span(text, caps[i][g]->0)
    &&& forall|i: int, j: int|
        0 <= i < j < caps.len() ==> (#[trigger] caps[i][0]).unwrap().1 <= (#[trigger] caps[j][0]).unwrap().0
}

/// `Regex::new(pattern)` and, where it compiles, `captures_iter(text)`, each
/// capture given as the byte spans of its groups. The result is what
/// `regex_captures` names, and has the properties the crate documents for
/// the offsets it returns. The token pattern is valid syntax for the crate
/// (with its default Unicode features), so it compiles.
#[verifier::external_body]
fn captures_of(pattern: &str, text: &str) -> (r: Option<Vec<GroupSpans>>)
    ensures
        pattern@ == TOKEN_PATTERN@ ==> r is Some,
        match r {
            None => regex_captures(pattern@, text@) is None,
            Some(caps) => regex_captures(pattern@, text@) == Some(captures_view(caps@))
                && well_formed_captures(text@, captures_view(caps@)),
        },
{
    regex::Regex::new(pattern).ok().map(
        |re| re.captures_iter(text).map(|c| c.iter().map(|m| m.map(|m| (m.start(), m.end()))).collect()).collect(),
    )
}

/// A piece of text: a word to phonemize, or a symbol (punctuation, white
/// space, anything else) that is kept as it stands.
#[derive(Debug)]
pub enum TextToken {
    Word(String),
    Symbol(String),
}

impl View for TextToken {
    /// Whether the token is a word, and its text.
    type V = (bool, Seq<char>);

    open spec fn view(&self) -> (bool, Seq<char>) {
        match self {
            TextToken::Word(s) => (true, s@),
            TextToken::Symbol(s) => (false, s@),
        }
    }
}

/// The views of tokens.
pub open spec fn token_views(tokens: Seq<TextToken>) -> Seq<(bool, Seq<char>)> {
    tokens.map_values(|t: TextToken| t@)
}

/// The index of the character that starts at byte offset `off`.
pub open spec fn char_index(text: Seq<char>, off: int) -> int {
    choose|k: int| 0 <= k <= text.len() && #[trigger] utf8_len(text.take(k)) == off
}

/// The characters between byte offsets `start` and `end`.
pub open spec fn span_text(text: Seq<char>, start: int, end: int) -> Seq<char> {
    text.subrange(char_index(text, start), char_index(text, end))
}

/// A symbol is kept only if it holds sentence punctuation.
pub open spec fn keeps_symbol(sym: Seq<char>) -> bool {
    sym.contains('.') || sym.contains(',') || sym.contains('?') || sym.contains('!')
}

/// The token one capture gives: a word for group 1, a kept symbol for group
/// 2, white space for group 3.
pub open spec fn capture_tokens(text: Seq<char>, cap: Seq<Option<(usize, usize)>>) -> Seq<(bool, Seq<char>)> {
    if cap.len() > 1 && cap[1] is Some {
        seq![(true, span_text(text, cap[1].unwrap().0 as int, cap[1].unwrap().1 as int))]
    } else if cap.len() > 2 && cap[2] is Some {
        let sym = span_text(text, cap[2].unwrap().0 as int, cap[2].unwrap().1 as int);
        if keeps_symbol(sym) {
            seq![(false, sym)]
        } else {
            seq![]
        }
    } else if cap.len() > 3 && cap[3] is Some {
        seq![(false, span_text(text, cap[3].unwrap().0 as int, cap[3].unwrap().1 as int))]
    } else {
        seq![]
    }
}

/// Tokens of `text` from byte offset `last` on, given the captures that
/// remain: the unmatched text before each match is a symbol, then the
/// capture's token; unmatched text after the last match is a symbol too.
pub open spec fn tokens_after(text: Seq<char>, caps: Seq<Seq<Option<(usize, usize)>>>, last: int) -> Seq<(bool, Seq<char>)>
    decreases caps.len(),
{
    if caps.len() == 0 {
        if last < utf8_len(text) {
            seq![(false, span_text(text, last, utf8_len(text) as int))]
        } else {
            seq![]
        }
    } else {
        let m = caps[0][0]->0;
        let gap: Seq<(bool, Seq<char>)> = if m.0 > last {
            seq![(false, span_text(text, last, m.0 as int))]
        } else {
            seq![]
        };
        gap + capture_tokens(text, caps[0]) + tokens_after(text, caps.drop_first(), m.1 as int)
    }
}

/// The tokens of `text` given the captures of the token pattern over it.
pub open spec fn tokens_of(text: Seq<char>, caps: Seq<Seq<Option<(usize, usize)>>>) -> Seq<(bool, Seq<char>)> {
    tokens_after(text, caps, 0)
}

/// Byte offsets of the characters of `v`: entry `k` is the UTF-8 length of
/// the first `k` characters.
fn prefix_offsets(v: &Vec<char>, bytes_len: usize) -> (offs: Vec<usize>)
    requires
        utf8_len(v@) == bytes_len,
    ensures
        offs@.len() == v@.len() + 1,
        forall|k: int| 0 <= k <= v@.len() ==> #[trigger] offs@[k] == utf8_len(v@.take(k)),
{
    let mut offs: Vec<usize> = Vec::new();
    offs.push(0);
    assert(v@.take(0) =~= Seq::<char>::empty());
    let mut acc: usize = 0;
    let mut i: usize = 0;
    while i < v.len()
        invariant
            i <= v@.len(),
            utf8_len(v@) == bytes_len,
            offs@.len() == i + 1,
            acc == utf8_len(v@.take(i as int)),
            forall|k: int| 0 <= k <= i ==> #[trigger] offs@[k] == utf8_len(v@.take(k)),
        decreases v.len() - i,
    {
        proof {
            lemma_utf8_len_push(v@.take(i as int), v@[i as int]);
            assert(v@.take(i + 1) =~= v@.take(i as int).push(v@[i as int]));
            lemma_utf8_len_prefix_mono(v@, i + 1, v@.len() as int);
            assert(v@.take(v@.len() as int) =~= v@);
        }
        acc = acc + len_utf8(v[i]);
        offs.push(acc);
        i = i + 1;
    }
    offs
}

/// The index of the character starting at byte offset `off`, searching from
/// character `from` on.
fn char_index_of(offs: &Vec<usize>, Ghost(text): Ghost<Seq<char>>, from: usize, off: usize) -> (k: usize)
    requires
        offs@.len() == text.len() + 1,
        forall|j: int| 0 <= j <= text.len() ==> #[trigger] offs@[j] == utf8_len(text.take(j)),
        from <= text.len(),
        offs@[from as int] <= off,
        on_char_boundary(text, off as int),
    ensures
        from <= k <= text.len(),
        offs@[k as int] == off,
        k == char_index(text, off as int),
{
    let ghost target = choose|j: int| 0 <= j <= text.len() && #[trigger] utf8_len(text.take(j)) == off;
    proof {
        if target < from {
            lemma_utf8_len_prefix_mono(text, target, from as int);
        }
    }
    let len = offs.len();
    let mut k = from;
    while offs[k] < off
        invariant
            len == offs@.len(),
            offs@.len() == text.len() + 1,
            forall|j: int| 0 <= j <= text.len() ==> #[trigger] offs@[j] == utf8_len(text.take(j)),
            from <= k <= target <= text.len(),
            utf8_len(text.take(target)) == off,
        decreases target - k,
    {
        proof {
            if k == target {
                assert(false);
            }
        }
        k = k + 1;
    }
    proof {
        if k < target {
            lemma_utf8_len_prefix_mono(text, k as int, target);
        }
    }
    k
}

/// The character index of the start of character `k` is `k`.
proof fn lemma_char_index(text: Seq<char>, k: int)
    requires
        0 <= k <= text.len(),
    ensures
        char_index(text, utf8_len(text.take(k)) as int) == k,
{
    let off = utf8_len(text.take(k)) as int;
    assert(utf8_len(text.take(k)) == off);
    let c = char_index(text, off);
    if c < k {
        lemma_utf8_len_prefix_mono(text, c, k);
    } else if k < c {
        lemma_utf8_len_prefix_mono(text, k, c);
    }
}

/// The token that one capture gives, if any.
fn capture_token(
    tv: &Vec<char>,
    offs: &Vec<usize>,
    cap: &GroupSpans,
) -> (r: Option<TextToken>)
    requires
        offs@.len() == tv@.len() + 1,
        forall|j: int| 0 <= j <= tv@.len() ==> #[trigger] offs@[j] == utf8_len(tv@.take(j)),
        forall|g: int| 0 <= g < cap@.len() && (#[trigger] cap@[g]) is Some ==> valid_span(tv@, cap@[g]->0),
    ensures
        match r {
            Some(t) => capture_tokens(tv@, cap@) == seq![t@],
            None => capture_tokens(tv@, cap@) == Seq::<(bool, Seq<char>)>::empty(),
        },
{
    assert(utf8_len(tv@.take(0)) == 0) by {
        assert(tv@.take(0) =~= Seq::<char>::empty());
    }
    if cap.len() > 1 && cap[1].is_some() {
        let g = cap[1].unwrap();
        assert(valid_span(tv@, cap@[1]->0));
        let a = char_index_of(offs, Ghost(tv@), 0, g.0);
        let b = char_index_of(offs, Ghost(tv@), a, g.1);
        Some(TextToken::Word(string_from_range(tv, a, b)))
    } else if cap.len() > 2 && cap[2].is_some() {
        let g = cap[2].unwrap();
        assert(valid_span(tv@, cap@[2]->0));
        let a = char_index_of(offs, Ghost(tv@), 0, g.0);
        let b = char_index_of(offs, Ghost(tv@), a, g.1);
        if has_sentence_punctuation(tv, a, b) {
            Some(TextToken::Symbol(string_from_range(tv, a, b)))
        } else {
            None
        }
    } else if cap.len() > 3 && cap[3].is_some() {
        let g = cap[3].unwrap();
        assert(valid_span(tv@, cap@[3]->0));
        let a = char_index_of(offs, Ghost(tv@), 0, g.0);
        let b = char_index_of(offs, Ghost(tv@), a, g.1);
        Some(TextToken::Symbol(string_from_range(tv, a, b)))
    } else {
        None
    }
}

/// Whether `v[a..b]` holds one of `.`, `,`, `?`, `!`.
fn has_sentence_punctuation(v: &Vec<char>, a: usize, b: usize) -> (r: bool)
    requires
        a <= b <= v.len(),
    ensures
        r == keeps_symbol(v@.subrange(a as int, b as int)),
{
    let ghost sub = v@.subrange(a as int, b as int);
    let mut i = a;
    while i < b
        invariant
            a <= i <= b <= v.len(),
            sub == v@.subrange(a as int, b as int),
            forall|j: int| a <= j < i ==> v@[j] != '.' && v@[j] != ',' && v@[j] != '?' && v@[j] != '!',
        decreases b - i,
    {
        let c = v[i];
        if c == '.' || c == ',' || c == '?' || c == '!' {
            assert(sub[i - a] == c);
            return true;
        }
        i = i + 1;
    }
    assert forall|c: char| c == '.' || c == ',' || c == '?' || c == '!' implies !sub.contains(c) by {
        if sub.contains(c) {
            let j = choose|j: int| 0 <= j < sub.len() && sub[j] == c;
            assert(v@[a + j] == c);
        }
    }
    false
}

/// The tokens of `text` given the captures of the token pattern over it.
#[verifier::rlimit(50)]
pub fn tokens_from_captures(text: &str, caps: &Vec<GroupSpans>) -> (tokens: Vec<TextToken>)
    requires
        well_formed_captures(text@, captures_view(caps@)),
    ensures
        token_views(tokens@) == tokens_of(text@, captures_view(caps@)),
{
    let ghost cv = captures_view(caps@);
    let tv = chars_of(text);
    let bytes = text.as_bytes();
    let n_bytes = bytes.len();
    let offs = prefix_offsets(&tv, n_bytes);
    let n = tv.len();
    proof {
        assert(tv@.take(n as int) =~= tv@);
    }
    let mut tokens: Vec<TextToken> = Vec::new();
    let mut last: usize = 0;
    let mut last_k: usize = 0;
    proof {
        lemma_char_index(tv@, 0);
        assert(tv@.take(0) =~= Seq::<char>::empty());
        assert(cv.skip(0) =~= cv);
        assert(token_views(tokens@) + tokens_after(tv@, cv.skip(0), 0) =~= tokens_of(tv@, cv));
    }
    let mut i: usize = 0;
    while i < caps.len()
        invariant
            cv == captures_view(caps@),
            well_formed_captures(tv@, cv),
            tv@ == text@,
            n == tv@.len(),
            n_bytes == utf8_len(tv@),
            offs@.len() == n + 1,
            forall|j: int| 0 <= j <= n ==> #[trigger] offs@[j] == utf8_len(tv@.take(j)),
            i <= caps@.len(),
            last_k <= n,
            offs@[last_k as int] == last,
            last_k == char_index(tv@, last as int),
            i > 0 ==> last == cv[i - 1][0].unwrap().1,
            i == 0 ==> last == 0,
            token_views(tokens@) + tokens_after(tv@, cv.skip(i as int), last as int) == tokens_of(tv@, cv),
        decreases caps.len() - i,
    {
        let ghost old_last = last;
        let cap = &caps[i];
        assert(cap@ == cv[i as int]);
        assert(cv.skip(i as int)[0] == cv[i as int]);
        assert(cv.skip(i as int).drop_first() =~= cv.skip(i + 1));
        let whole = cap[0].unwrap();
        let (start, end) = whole;
        proof {
            assert(cap@[0] == cv[i as int][0]);
            assert(whole == cv[i as int][0].unwrap());
            assert(valid_span(tv@, cv[i as int][0]->0));
            if i > 0 {
                assert(cv[i - 1][0].unwrap().1 <= cv[i as int][0].unwrap().0);
            }
            assert(last <= start);
        }
        let ghost before = token_views(tokens@);
        let ghost gap: Seq<(bool, Seq<char>)> = if start > last {
            seq![(false, span_text(tv@, last as int, start as int))]
        } else {
            seq![]
        };
        let ghost cap_tokens = capture_tokens(tv@, cv[i as int]);
        let start_k = char_index_of(&offs, Ghost(tv@), last_k, start);
        if start > last {
            tokens.push(TextToken::Symbol(string_from_range(&tv, last_k, start_k)));
        }
        assert(token_views(tokens@) =~= before + gap);
        let ghost mid = token_views(tokens@);
        proof {
            assert forall|g: int| 0 <= g < cap@.len() && (#[trigger] cap@[g]) is Some implies valid_span(
                tv@,
                cap@[g]->0,
            ) by {
                assert(cv[i as int][g] == cap@[g]);
            }
        }
        match capture_token(&tv, &offs, cap) {
            Some(t) => tokens.push(t),
            None => {},
        }
        assert(token_views(tokens@) =~= mid + cap_tokens);
        let end_k = char_index_of(&offs, Ghost(tv@), start_k, end);
        last = end;
        last_k = end_k;
        proof {
            assert(tokens_after(tv@, cv.skip(i as int), old_last as int) == gap + cap_tokens
                + tokens_after(tv@, cv.skip(i + 1), end as int));
            assert(token_views(tokens@) + tokens_after(tv@, cv.skip(i + 1), end as int) =~= before + (
            gap + cap_tokens + tokens_after(tv@, cv.skip(i + 1), end as int)));
        }
        i = i + 1;
    }
    assert(cv.skip(caps.len() as int) =~= Seq::<Seq<Option<(usize, usize)>>>::empty());
    if last < n_bytes {
        proof {
            assert(on_char_boundary(tv@, n_bytes as int)) by {
                assert(utf8_len(tv@.take(n as int)) == n_bytes);
            }
        }
        let end_k = char_index_of(&offs, Ghost(tv@), last_k, n_bytes);
        tokens.push(TextToken::Symbol(string_from_range(&tv, last_k, end_k)));
    }
    tokens
}

/// Splits `text` into words and symbols with the token pattern.
pub fn tokenize(text: &str) -> (r: Vec<TextToken>)
    ensures
        regex_captures(TOKEN_PATTERN@, text@) matches Some(caps) && token_views(r@) == tokens_of(text@, caps),
{
    match captures_of(TOKEN_PATTERN, text) {
        Some(caps) => tokens_from_captures(text, &caps),
        None => {
            assert(false);
            Vec::new()
        },
    }
}

/// The words of `s`, the maximal runs of characters other than white space,
/// scanning from index `i` with `cur` the word read so far.
pub open spec fn split_ws_from(s: Seq<char>, i: int, cur: Seq<char>) -> Seq<Seq<char>>
    decreases s.len() - i,
{
    if i >= s.len() {
        if cur.len() > 0 {
            seq![cur]
        } else {
            seq![]
        }
    } else if is_white_space(s[i]) {
        (if cur.len() > 0 {
            seq![cur]
        } else {
            seq![]
        }) + split_ws_from(s, i + 1, seq![])
    } else {
        split_ws_from(s, i + 1, cur.push(s[i]))
    }
}

/// The words of `s` (`str::split_whitespace`).
pub open spec fn split_white_space(s: Seq<char>) -> Seq<Seq<char>> {
    split_ws_from(s, 0, seq![])
}

/// A word: non-empty, without white space.
pub open spec fn is_ws_free_word(w: Seq<char>) -> bool {
    w.len() > 0 && forall|j: int| 0 <= j < w.len() ==> !is_white_space(#[trigger] w[j])
}

/// The words from index `i` on are non-empty and hold no white space, given
/// that the word read so far holds none.
proof fn lemma_split_ws_words(s: Seq<char>, i: int, cur: Seq<char>)
    requires
        0 <= i,
        forall|j: int| 0 <= j < cur.len() ==> !is_white_space(#[trigger] cur[j]),
    ensures
        forall|k: int| 0 <= k < split_ws_from(s, i, cur).len() ==> is_ws_free_word(#[trigger] split_ws_from(s, i, cur)[k]),
    decreases s.len() - i,
{
    if i >= s.len() {
        if cur.len() > 0 {
            assert(split_ws_from(s, i, cur) =~= seq![cur]);
        }
    } else if is_white_space(s[i]) {
        lemma_split_ws_words(s, i + 1, seq![]);
        let head: Seq<Seq<char>> = if cur.len() > 0 { seq![cur] } else { seq![] };
        let rest = split_ws_from(s, i + 1, seq![]);
        assert forall|k: int| 0 <= k < split_ws_from(s, i, cur).len() implies is_ws_free_word(
            #[trigger] split_ws_from(s, i, cur)[k],
        ) by {
            if k >= head.len() {
                assert(split_ws_from(s, i, cur)[k] == rest[k - head.len()]);
            } else {
                assert(split_ws_from(s, i, cur)[k] == cur);
            }
        }
    } else {
        let c2 = cur.push(s[i]);
        assert forall|j: int| 0 <= j < c2.len() implies !is_white_space(#[trigger] c2[j]) by {
            if j < cur.len() {
                assert(c2[j] == cur[j]);
            }
        }
        lemma_split_ws_words(s, i + 1, c2);
        assert(split_ws_from(s, i, cur) == split_ws_from(s, i + 1, c2));
    }
}

/// Splitting at white space gives non-empty words without white space.
pub proof fn law_split_whitespace_words(s: Seq<char>)
    ensures
        forall|k: int| 0 <= k < split_white_space(s).len() ==> is_ws_free_word(#[trigger] split_white_space(s)[k]),
{
    lemma_split_ws_words(s, 0, seq![]);
}

/// Splits `s` at white space, dropping the white space (`str::split_whitespace`).
pub fn split_whitespace(s: &str) -> (r: Vec<String>)
    ensures
        views(r@) == split_white_space(s@),
{
    let v = chars_of(s);
    let mut r: Vec<String> = Vec::new();
    let mut cur: Vec<char> = Vec::new();
    let mut i: usize = 0;
    while i < v.len()
        invariant
            i <= v.len(),
            v@ == s@,
            views(r@) + split_ws_from(v@, i as int, cur@) == split_white_space(v@),
        decreases v.len() - i,
    {
        let c = v[i];
        if is_whitespace(c) {
            let ghost rest = split_ws_from(v@, i + 1, seq![]);
            if cur.len() > 0 {
                let w = string_from_chars(&cur);
                let ghost before = views(r@);
                r.push(w);
                assert(views(r@) =~= before.push(w@));
                assert(views(r@) + rest =~= before + (seq![cur@] + rest));
            } else {
                assert(views(r@) + rest =~= views(r@) + (Seq::<Seq<char>>::empty() + rest));
            }
            cur = Vec::new();
            assert(cur@ =~= Seq::<char>::empty());
        } else {
            cur.push(c);
        }
        i = i + 1;
    }
    if cur.len() > 0 {
        let w = string_from_chars(&cur);
        let ghost before = views(r@);
        r.push(w);
        assert(views(r@) =~= before.push(w@));
    } else {
        assert(views(r@) =~= views(r@) + Seq::<Seq<char>>::empty());
    }
    r
}

/// How text becomes phonemes.
#[derive(PartialEq, Eq, Structural, Clone, Copy, Debug)]
pub enum PhonemizationStrategy {
    /// The model phonemizes all the words of the text at once.
    NeuralSentence,
    /// The model phonemizes each word on its own.
    NeuralWord,
    /// The dictionaries phonemize each word, the model the words they lack.
    DictionaryWithNeuralFallback,
    /// The dictionaries phonemize each word; words they lack are left out.
    DictionaryWithOmitUnknown,
}

impl PhonemizationStrategy {
    /// The strategy a name selects; unknown names select
    /// `DictionaryWithNeuralFallback`.
    pub open spec fn of_name(name: Seq<char>) -> PhonemizationStrategy {
        if name == "neural_sentence"@ {
            PhonemizationStrategy::NeuralSentence
        } else if name == "neural_word"@ {
            PhonemizationStrategy::NeuralWord
        } else if name == "dict_neural"@ {
            PhonemizationStrategy::DictionaryWithNeuralFallback
        } else if name == "dict_omit"@ {
            PhonemizationStrategy::DictionaryWithOmitUnknown
        } else {
            PhonemizationStrategy::DictionaryWithNeuralFallback
        }
    }

    /// Reads a strategy name: `neural_sentence`, `neural_word`,
    /// `dict_neural`, `dict_omit`; any other name reads as `dict_neural`.
    pub fn from_str(s: &str) -> (r: PhonemizationStrategy)
        ensures
            r == PhonemizationStrategy::of_name(s@),
    {
        if str_eq(s, "neural_sentence") {
            PhonemizationStrategy::NeuralSentence
        } else if str_eq(s, "neural_word") {
            PhonemizationStrategy::NeuralWord
        } else if str_eq(s, "dict_neural") {
            PhonemizationStrategy::DictionaryWithNeuralFallback
        } else if str_eq(s, "dict_omit") {
            PhonemizationStrategy::DictionaryWithOmitUnknown
        } else {
            PhonemizationStrategy::DictionaryWithNeuralFallback
        }
    }

    /// Whether the strategy looks words up in the dictionaries.
    pub open spec fn uses_dictionaries(self) -> bool {
        self == PhonemizationStrategy::DictionaryWithNeuralFallback || self
            == PhonemizationStrategy::DictionaryWithOmitUnknown
    }
}

/// The texts of the words among `toks`, in order.
pub open spec fn word_texts(toks: Seq<(bool, Seq<char>)>) -> Seq<Seq<char>>
    decreases toks.len(),
{
    if toks.len() == 0 {
        seq![]
    } else if toks.last().0 {
        word_texts(toks.drop_last()).push(toks.last().1)
    } else {
        word_texts(toks.drop_last())
    }
}

/// The texts of all of `toks`, one after the other.
pub open spec fn concat_texts(toks: Seq<(bool, Seq<char>)>) -> Seq<char>
    decreases toks.len(),
{
    if toks.len() == 0 {
        seq![]
    } else {
        concat_texts(toks.drop_last()) + toks.last().1
    }
}

/// The text of `toks[i..]` with the `k`-th word and those after it replaced
/// by `blocks[k]`, `blocks[k + 1]`, ... (by nothing once the blocks run out).
pub open spec fn reassemble_from(toks: Seq<(bool, Seq<char>)>, i: int, blocks: Seq<Seq<char>>, k: int) -> Seq<char>
    decreases toks.len() - i,
{
    if i >= toks.len() || i < 0 {
        seq![]
    } else if toks[i].0 {
        (if 0 <= k < blocks.len() {
            blocks[k]
        } else {
            seq![]
        }) + reassemble_from(toks, i + 1, blocks, k + 1)
    } else {
        toks[i].1 + reassemble_from(toks, i + 1, blocks, k)
    }
}

/// The text of `toks` with its words replaced, in order, by `blocks`.
pub open spec fn reassemble(toks: Seq<(bool, Seq<char>)>, blocks: Seq<Seq<char>>) -> Seq<char> {
    reassemble_from(toks, 0, blocks, 0)
}

/// The words among `tokens`.
fn collect_words(tokens: &Vec<TextToken>) -> (r: Vec<String>)
    ensures
        views(r@) == word_texts(token_views(tokens@)),
{
    let ghost tv = token_views(tokens@);
    let mut r: Vec<String> = Vec::new();
    let mut i: usize = 0;
    while i < tokens.len()
        invariant
            i <= tokens.len(),
            tv == token_views(tokens@),
            views(r@) == word_texts(tv.take(i as int)),
        decreases tokens.len() - i,
    {
        assert(tv.take(i + 1).drop_last() =~= tv.take(i as int));
        assert(tv.take(i + 1).last() == tokens@[i as int]@);
        match &tokens[i] {
            TextToken::Word(w) => {
                let ghost before = views(r@);
                r.push(w.clone());
                assert(views(r@) =~= before.push(w@));
            },
            TextToken::Symbol(_) => {},
        }
        i = i + 1;
    }
    assert(tv.take(tokens.len() as int) =~= tv);
    r
}

/// The texts of all tokens, one after the other.
fn concat_tokens(tokens: &Vec<TextToken>) -> (r: String)
    ensures
        r@ == concat_texts(token_views(tokens@)),
{
    let ghost tv = token_views(tokens@);
    let mut r = String::new();
    let mut i: usize = 0;
    while i < tokens.len()
        invariant
            i <= tokens.len(),
            tv == token_views(tokens@),
            r@ == concat_texts(tv.take(i as int)),
        decreases tokens.len() - i,
    {
        assert(tv.take(i + 1).drop_last() =~= tv.take(i as int));
        assert(tv.take(i + 1).last() == tokens@[i as int]@);
        match &tokens[i] {
            TextToken::Word(w) => push_str(&mut r, w.as_str()),
            TextToken::Symbol(w) => push_str(&mut r, w.as_str()),
        }
        i = i + 1;
    }
    assert(tv.take(tokens.len() as int) =~= tv);
    r
}

/// The text of `tokens` with its words replaced, in order, by `blocks`.
fn reassemble_tokens(tokens: &Vec<TextToken>, blocks: &Vec<String>) -> (r: String)
    ensures
        r@ == reassemble(token_views(tokens@), views(blocks@)),
{
    let ghost tv = token_views(tokens@);
    let ghost bv = views(blocks@);
    let mut r = String::new();
    let mut i: usize = 0;
    let mut k: usize = 0;
    while i < tokens.len()
        invariant
            i <= tokens.len(),
            k <= i,
            tv == token_views(tokens@),
            bv == views(blocks@),
            r@ + reassemble_from(tv, i as int, bv, k as int) == reassemble(tv, bv),
        decreases tokens.len() - i,
    {
        assert(tv[i as int] == tokens@[i as int]@);
        let ghost before = r@;
        match &tokens[i] {
            TextToken::Word(_) => {
                if k < blocks.len() {
                    push_str(&mut r, blocks[k].as_str());
                }
                k = k + 1;
            },
            TextToken::Symbol(sym) => push_str(&mut r, sym.as_str()),
        }
        assert(before + reassemble_from(tv, i as int, bv, if tv[i as int].0 { k - 1 } else { k as int })
            =~= r@ + reassemble_from(tv, i + 1, bv, k as int));
        i = i + 1;
    }
    assert(r@ =~= r@ + reassemble_from(tv, tokens.len() as int, bv, k as int));
    r
}

/// What phonemizing leads to, given the replies received so far: a question
/// for the model or the transliterator, or the finished phonemes.
pub enum Outcome {
    /// The model is to phonemize this text.
    AskNeural(Seq<char>),
    /// Epitran is to transliterate this word in this language.
    AskTransliteration(EpitranLang, Seq<char>),
    /// The phonemes of the whole text.
    Finished(Seq<char>),
}

/// What one word leads to: its phonemes and the number of replies used up
/// after it, or a question.
pub enum WordStep {
    Emit(Seq<char>, int),
    AskNeural(Seq<char>),
    AskTransliteration(EpitranLang, Seq<char>),
}

/// `out` written before whatever `o` finishes with.
pub open spec fn prepend(out: Seq<char>, o: Outcome) -> Outcome {
    match o {
        Outcome::Finished(x) => Outcome::Finished(out + x),
        other => other,
    }
}

/// A reply read as the model's phonemes (an absent reply as no text).
pub open spec fn neural_reply(replies: Seq<Option<Seq<char>>>, u: int) -> Seq<char> {
    match replies[u] {
        Some(t) => t,
        None => seq![],
    }
}

/// The phonemes the dictionary phonemizer gives a word, if it is there and
/// holds the word.
pub open spec fn dictionary_ipa(cmu: Option<Map<Seq<char>, Seq<Seq<Seq<char>>>>>, w: Seq<char>) -> Option<Seq<char>> {
    match cmu {
        Some(entries) => cmudict_ipa(entries, w),
        None => None,
    }
}

/// Whether a language tag is English: its first two bytes, lower cased, are
/// `en`.
pub open spec fn is_english(lang: Seq<char>) -> bool {
    two_byte_prefix(lowercase(lang)) == Some("en"@)
}

/// A word the dictionaries lack: the model phonemizes it, or it is left out.
pub open spec fn fallback_step(strategy: PhonemizationStrategy, w: Seq<char>, replies: Seq<Option<Seq<char>>>, u: int) -> WordStep {
    if strategy == PhonemizationStrategy::DictionaryWithNeuralFallback {
        if u < replies.len() {
            WordStep::Emit(neural_reply(replies, u), u + 1)
        } else {
            WordStep::AskNeural(w)
        }
    } else {
        WordStep::Emit(seq![], u)
    }
}

/// What word `w` leads to, replies from index `u` on being the ones still
/// unused: the model's phonemes under `NeuralWord`; else the English
/// dictionary for an English tag, Epitran for the language the tag names
/// otherwise, and the fallback where these give nothing.
pub open spec fn word_step(
    lang: Seq<char>,
    strategy: PhonemizationStrategy,
    cmu: Option<Map<Seq<char>, Seq<Seq<Seq<char>>>>>,
    w: Seq<char>,
    replies: Seq<Option<Seq<char>>>,
    u: int,
) -> WordStep {
    if strategy == PhonemizationStrategy::NeuralWord {
        if u < replies.len() {
            WordStep::Emit(neural_reply(replies, u), u + 1)
        } else {
            WordStep::AskNeural(w)
        }
    } else if is_english(lang) {
        match dictionary_ipa(cmu, w) {
            Some(ipa) => WordStep::Emit(ipa, u),
            None => fallback_step(strategy, w, replies, u),
        }
    } else {
        match EpitranLang::of_tag(lang) {
            Some(l) => if u < replies.len() {
                match replies[u] {
                    Some(t) => WordStep::Emit(t, u + 1),
                    None => fallback_step(strategy, w, replies, u + 1),
                }
            } else {
                WordStep::AskTransliteration(l, w)
            },
            None => fallback_step(strategy, w, replies, u),
        }
    }
}

/// What `toks[i..]` leads to, word by word, replies from `u` on being unused.
pub open spec fn words_outcome(
    lang: Seq<char>,
    strategy: PhonemizationStrategy,
    cmu: Option<Map<Seq<char>, Seq<Seq<Seq<char>>>>>,
    toks: Seq<(bool, Seq<char>)>,
    i: int,
    replies: Seq<Option<Seq<char>>>,
    u: int,
) -> Outcome
    decreases toks.len() - i,
{
    if i >= toks.len() || i < 0 {
        Outcome::Finished(seq![])
    } else if !toks[i].0 {
        prepend(toks[i].1, words_outcome(lang, strategy, cmu, toks, i + 1, replies, u))
    } else {
        match word_step(lang, strategy, cmu, toks[i].1, replies, u) {
            WordStep::Emit(out, u2) => prepend(out, words_outcome(lang, strategy, cmu, toks, i + 1, replies, u2)),
            WordStep::AskNeural(q) => Outcome::AskNeural(q),
            WordStep::AskTransliteration(l, q) => Outcome::AskTransliteration(l, q),
        }
    }
}

/// What the whole-sentence strategy leads to: text without words is its own
/// phonemes; else the model phonemizes the words joined by spaces, and the
/// blocks of its reply replace the words in order.
pub open spec fn sentence_outcome(toks: Seq<(bool, Seq<char>)>, replies: Seq<Option<Seq<char>>>) -> Outcome {
    if word_texts(toks).len() == 0 {
        Outcome::Finished(concat_texts(toks))
    } else if replies.len() == 0 {
        Outcome::AskNeural(join(word_texts(toks), " "@))
    } else {
        Outcome::Finished(reassemble(toks, split_white_space(neural_reply(replies, 0))))
    }
}

/// What phonemizing the tokens leads to under a strategy, given the replies.
pub open spec fn phonemize_outcome(
    lang: Seq<char>,
    strategy: PhonemizationStrategy,
    cmu: Option<Map<Seq<char>, Seq<Seq<Seq<char>>>>>,
    toks: Seq<(bool, Seq<char>)>,
    replies: Seq<Option<Seq<char>>>,
) -> Outcome {
    if strategy == PhonemizationStrategy::NeuralSentence {
        sentence_outcome(toks, replies)
    } else {
        words_outcome(lang, strategy, cmu, toks, 0, replies, 0)
    }
}

/// Whether the tokens hold a word.
pub open spec fn has_word(toks: Seq<(bool, Seq<char>)>) -> bool {
    exists|i: int| 0 <= i < toks.len() && (#[trigger] toks[i]).0
}

/// Why a text could not be set up for phonemizing.
#[derive(PartialEq, Eq, Structural, Clone, Copy, Debug)]
pub enum PhonemizeSetupError {
    /// The dictionaries are to be used but the language tag's first two bytes
    /// cannot be sliced after lower casing.
    UnreadableLanguageTag,
}

/// What the phonemizer asks of its caller next.
#[derive(Debug)]
pub enum PhonemizeRequest {
    /// Phonemize this text with the model and answer with
    /// `answer_neural`.
    Neural(String),
    /// Transliterate this word with Epitran and answer with
    /// `answer_transliteration` (`None` where Epitran fails).
    Transliterate(EpitranLang, String),
    /// The phonemes of the whole text.
    Done(String),
}

/// Phonemizing one text. Words go to the dictionaries, or to the model and
/// the transliterator, which run outside: `advance` says what it needs next,
/// and the caller answers until it says `Done`.
pub struct Phonemizer<'a> {
    lang: String,
    strategy: PhonemizationStrategy,
    cmudict: Option<&'a CmudictPhonemizer>,
    tokens: Vec<TextToken>,
    english: bool,
    epitran_lang: Option<EpitranLang>,
    replies: Vec<Option<String>>,
    next_token: usize,
    used: usize,
    out: String,
}

/// The views of replies.
pub open spec fn reply_views(replies: Seq<Option<String>>) -> Seq<Option<Seq<char>>> {
    replies.map_values(|r: Option<String>| match r {
        Some(s) => Some(s@),
        None => None,
    })
}

/// `a2` begins with `a`.
pub open spec fn extends<A>(a2: Seq<A>, a: Seq<A>) -> bool {
    a.len() <= a2.len() && a2.take(a.len() as int) == a
}

impl<'a> Phonemizer<'a> {
    /// The language tag.
    pub closed spec fn lang(&self) -> Seq<char> {
        self.lang@
    }

    /// The strategy.
    pub closed spec fn strategy(&self) -> PhonemizationStrategy {
        self.strategy
    }

    /// The English dictionary, if there is one.
    pub closed spec fn dictionary(&self) -> Option<Map<Seq<char>, Seq<Seq<Seq<char>>>>> {
        match self.cmudict {
            Some(p) => Some(p.entries()),
            None => None,
        }
    }

    /// The words and symbols of the text.
    pub closed spec fn tokens(&self) -> Seq<(bool, Seq<char>)> {
        token_views(self.tokens@)
    }

    /// The replies received so far.
    pub closed spec fn replies(&self) -> Seq<Option<Seq<char>>> {
        reply_views(self.replies@)
    }

    /// What phonemizing leads to with the replies received so far.
    pub open spec fn outcome(&self) -> Outcome {
        phonemize_outcome(self.lang(), self.strategy(), self.dictionary(), self.tokens(), self.replies())
    }

    /// The state's invariant.
    pub closed spec fn wf(&self) -> bool {
        let toks = self.tokens();
        &&& self.strategy.uses_dictionaries() && has_word(toks) ==> {
            &&& EpitranLang::tag_readable(self.lang@)
            &&& self.english == is_english(self.lang@)
            &&& self.epitran_lang == EpitranLang::of_tag(self.lang@)
        }
        &&& self.next_token <= self.tokens@.len()
        &&& self.used <= self.replies@.len()
        &&& self.strategy != PhonemizationStrategy::NeuralSentence ==> forall|r2: Seq<Option<Seq<char>>>|
            extends(r2, self.replies()) ==> #[trigger] words_outcome(
                self.lang@,
                self.strategy,
                self.dictionary(),
                toks,
                0,
                r2,
                0,
            ) == prepend(
                self.out@,
                words_outcome(self.lang@, self.strategy, self.dictionary(), toks, self.next_token as int, r2, self.used as int),
            )
    }

    /// Sets up phonemizing `text` (accents removed first) in language `lang`.
    /// Fails where the strategy uses the dictionaries, the text has a word and
    /// the tag's first two bytes cannot be sliced after lower casing.
    pub fn new(
        lang: &str,
        text: &str,
        strategy: PhonemizationStrategy,
        cmudict: Option<&'a CmudictPhonemizer>,
    ) -> (r: Result<Phonemizer<'a>, PhonemizeSetupError>)
        ensures
            regex_captures(TOKEN_PATTERN@, unaccented(text@)) is Some,
            match regex_captures(TOKEN_PATTERN@, unaccented(text@)) {
                None => false,
                Some(caps) => {
                    let toks = tokens_of(unaccented(text@), caps);
                    if strategy.uses_dictionaries() && has_word(toks) && !EpitranLang::tag_readable(lang@) {
                        r == Err::<Phonemizer<'a>, PhonemizeSetupError>(PhonemizeSetupError::UnreadableLanguageTag)
                    } else {
                        r matches Ok(p) && p.wf() && p.tokens() == toks && p.lang() == lang@
                            && p.strategy() == strategy && p.replies().len() == 0
                            && p.dictionary() == match cmudict {
                            Some(c) => Some(c.entries()),
                            None => None::<Map<Seq<char>, Seq<Seq<Seq<char>>>>>,
                        }
                    }
                },
            },
    {
        let plain = unaccent_text(text);
        let tokens = tokenize(plain.as_str());
        let mut english = false;
        let mut epitran_lang: Option<EpitranLang> = None;
        let dictionaries = strategy == PhonemizationStrategy::DictionaryWithNeuralFallback || strategy
            == PhonemizationStrategy::DictionaryWithOmitUnknown;
        if dictionaries && contains_word(&tokens) {
            let lowered = to_lowercase(lang);
            let lv = chars_of(lowered.as_str());
            match two_byte_prefix_of(&lv) {
                None => {
                    return Err(PhonemizeSetupError::UnreadableLanguageTag);
                },
                Some(p) => {
                    english = p.len() == 2 && p[0] == 'e' && p[1] == 'n';
                    proof {
                        reveal_strlit("en");
                        if english {
                            assert(p@ =~= "en"@);
                        } else {
                            assert(p@ != "en"@);
                        }
                    }
                },
            }
            epitran_lang = match EpitranLang::from_str(lang) {
                Ok(l) => Some(l),
                Err(_) => None,
            };
        }
        let mut lang_owned = String::new();
        push_str(&mut lang_owned, lang);
        let p = Phonemizer {
            lang: lang_owned,
            strategy,
            cmudict,
            tokens,
            english,
            epitran_lang,
            replies: Vec::new(),
            next_token: 0,
            used: 0,
            out: String::new(),
        };
        proof {
            assert(p.replies@ =~= Seq::<Option<String>>::empty());
            assert forall|r2: Seq<Option<Seq<char>>>| extends(r2, p.replies()) implies #[trigger] words_outcome(
                p.lang@,
                p.strategy,
                p.dictionary(),
                p.tokens(),
                0,
                r2,
                0,
            ) == prepend(
                p.out@,
                words_outcome(p.lang@, p.strategy, p.dictionary(), p.tokens(), 0, r2, 0),
            ) by {
                lemma_prepend_empty(words_outcome(p.lang@, p.strategy, p.dictionary(), p.tokens(), 0, r2, 0));
            }
        }
        Ok(p)
    }
}

/// One word's result as the phonemizer computes it.
enum ResolvedWord {
    Emit(String, usize),
    AskNeural,
    AskTransliteration(EpitranLang),
}

impl<'a> Phonemizer<'a> {
    /// The text of reply `u`, an absent reply read as no text.
    fn reply_text(&self, u: usize) -> (r: String)
        requires
            u < self.replies@.len(),
        ensures
            r@ == neural_reply(self.replies(), u as int),
    {
        match &self.replies[u] {
            Some(t) => t.clone(),
            None => String::new(),
        }
    }

    /// A word the dictionaries lack, replies from `u` on unused.
    fn fallback(&self, w: &String, u: usize) -> (r: ResolvedWord)
        requires
            u <= self.replies@.len(),
        ensures
            match r {
                ResolvedWord::Emit(o, u2) => fallback_step(self.strategy, w@, self.replies(), u as int)
                    == WordStep::Emit(o@, u2 as int) && u2 <= self.replies@.len(),
                ResolvedWord::AskNeural => fallback_step(self.strategy, w@, self.replies(), u as int)
                    == WordStep::AskNeural(w@),
                ResolvedWord::AskTransliteration(_) => false,
            },
    {
        if self.strategy == PhonemizationStrategy::DictionaryWithNeuralFallback {
            if u < self.replies.len() {
                ResolvedWord::Emit(self.reply_text(u), u + 1)
            } else {
                ResolvedWord::AskNeural
            }
        } else {
            ResolvedWord::Emit(String::new(), u)
        }
    }

    /// What word `w` leads to with the replies received so far.
    fn resolve_word(&self, w: &String) -> (r: ResolvedWord)
        requires
            self.wf(),
            self.strategy != PhonemizationStrategy::NeuralSentence,
            has_word(self.tokens()),
        ensures
            match r {
                ResolvedWord::Emit(o, u2) => word_step(
                    self.lang@,
                    self.strategy,
                    self.dictionary(),
                    w@,
                    self.replies(),
                    self.used as int,
                ) == WordStep::Emit(o@, u2 as int) && u2 <= self.replies@.len(),
                ResolvedWord::AskNeural => word_step(
                    self.lang@,
                    self.strategy,
                    self.dictionary(),
                    w@,
                    self.replies(),
                    self.used as int,
                ) == WordStep::AskNeural(w@),
                ResolvedWord::AskTransliteration(l) => word_step(
                    self.lang@,
                    self.strategy,
                    self.dictionary(),
                    w@,
                    self.replies(),
                    self.used as int,
                ) == WordStep::AskTransliteration(l, w@),
            },
    {
        let u = self.used;
        if self.strategy == PhonemizationStrategy::NeuralWord {
            if u < self.replies.len() {
                ResolvedWord::Emit(self.reply_text(u), u + 1)
            } else {
                ResolvedWord::AskNeural
            }
        } else if self.english {
            match self.cmudict {
                Some(c) => match c.lookup(w.as_str()) {
                    Some(ipa) => ResolvedWord::Emit(ipa, u),
                    None => self.fallback(w, u),
                },
                None => self.fallback(w, u),
            }
        } else {
            match self.epitran_lang {
                Some(l) => {
                    if u < self.replies.len() {
                        match &self.replies[u] {
                            Some(t) => ResolvedWord::Emit(t.clone(), u + 1),
                            None => self.fallback(w, u + 1),
                        }
                    } else {
                        ResolvedWord::AskTransliteration(l)
                    }
                },
                None => self.fallback(w, u),
            }
        }
    }

    /// Phonemizes as far as the replies received so far allow, and says what
    /// is needed next: a reply from the model or from Epitran, or nothing
    /// more, with the phonemes of the whole text. The request is exactly what
    /// `outcome` names for the replies received so far.
    pub fn advance(&mut self) -> (r: PhonemizeRequest)
        requires
            old(self).wf(),
        ensures
            final(self).wf(),
            final(self).lang() == old(self).lang(),
            final(self).strategy() == old(self).strategy(),
            final(self).dictionary() == old(self).dictionary(),
            final(self).tokens() == old(self).tokens(),
            final(self).replies() == old(self).replies(),
            match r {
                PhonemizeRequest::Neural(q) => old(self).outcome() == Outcome::AskNeural(q@),
                PhonemizeRequest::Transliterate(l, w) => old(self).outcome()
                    == Outcome::AskTransliteration(l, w@),
                PhonemizeRequest::Done(s) => old(self).outcome() == Outcome::Finished(s@),
            },
    {
        if self.strategy == PhonemizationStrategy::NeuralSentence {
            let words = collect_words(&self.tokens);
            if words.len() == 0 {
                return PhonemizeRequest::Done(concat_tokens(&self.tokens));
            }
            if self.replies.len() == 0 {
                return PhonemizeRequest::Neural(join_strings(&words, " "));
            }
            let reply = self.reply_text(0);
            let blocks = split_whitespace(reply.as_str());
            return PhonemizeRequest::Done(reassemble_tokens(&self.tokens, &blocks));
        }
        let ghost toks = self.tokens();
        while self.next_token < self.tokens.len()
            invariant
                self.wf(),
                self.strategy != PhonemizationStrategy::NeuralSentence,
                toks == self.tokens(),
                self.lang() == old(self).lang(),
                self.strategy() == old(self).strategy(),
                self.dictionary() == old(self).dictionary(),
                self.tokens() == old(self).tokens(),
                self.replies() == old(self).replies(),
            decreases self.tokens@.len() - self.next_token,
        {
            let i = self.next_token;
            let (is_word, t) = token_at(&self.tokens, i);
            if is_word {
                proof {
                    assert(has_word(toks)) by {
                        assert(toks[i as int].0);
                    }
                }
                match self.resolve_word(&t) {
                    ResolvedWord::Emit(o, u2) => {
                        proof {
                            lemma_advance_word(
                                self.lang@,
                                self.strategy,
                                self.dictionary(),
                                toks,
                                i as int,
                                self.replies(),
                                self.used as int,
                                o@,
                                u2 as int,
                                self.out@,
                            );
                        }
                        push_str(&mut self.out, o.as_str());
                        self.used = u2;
                        self.next_token = i + 1;
                    },
                    ResolvedWord::AskNeural => {
                        proof {
                            self.lemma_outcome_now();
                        }
                        return PhonemizeRequest::Neural(t);
                    },
                    ResolvedWord::AskTransliteration(l) => {
                        proof {
                            self.lemma_outcome_now();
                        }
                        return PhonemizeRequest::Transliterate(l, t);
                    },
                }
            } else {
                proof {
                    lemma_advance_symbol(
                        self.lang@,
                        self.strategy,
                        self.dictionary(),
                        toks,
                        i as int,
                        self.replies(),
                        self.used as int,
                        self.out@,
                    );
                }
                push_str(&mut self.out, t.as_str());
                self.next_token = i + 1;
            }
        }
        proof {
            self.lemma_outcome_now();
            assert(self.out@ + Seq::<char>::empty() =~= self.out@);
        }
        PhonemizeRequest::Done(self.out.clone())
    }

    /// The outcome with the replies so far, from where the phonemizer stands.
    proof fn lemma_outcome_now(&self)
        requires
            self.wf(),
            self.strategy != PhonemizationStrategy::NeuralSentence,
        ensures
            self.outcome() == prepend(
                self.out@,
                words_outcome(self.lang@, self.strategy, self.dictionary(), self.tokens(), self.next_token as int, self.replies(), self.used as int),
            ),
    {
        assert(self.replies().take(self.replies().len() as int) =~= self.replies());
        assert(extends(self.replies(), self.replies()));
        assert(words_outcome(self.lang@, self.strategy, self.dictionary(), self.tokens(), 0, self.replies(), 0)
            == prepend(
            self.out@,
            words_outcome(self.lang@, self.strategy, self.dictionary(), self.tokens(), self.next_token as int, self.replies(), self.used as int),
        ));
    }

    /// Hands over the model's phonemes for the text last asked for.
    pub fn answer_neural(&mut self, phonemes: String)
        requires
            old(self).wf(),
        ensures
            final(self).wf(),
            final(self).lang() == old(self).lang(),
            final(self).strategy() == old(self).strategy(),
            final(self).dictionary() == old(self).dictionary(),
            final(self).tokens() == old(self).tokens(),
            final(self).replies() == old(self).replies().push(Some(phonemes@)),
    {
        self.receive(Some(phonemes));
    }

    /// Hands over Epitran's transliteration of the word last asked for
    /// (`None` where it failed).
    pub fn answer_transliteration(&mut self, ipa: Option<String>)
        requires
            old(self).wf(),
        ensures
            final(self).wf(),
            final(self).lang() == old(self).lang(),
            final(self).strategy() == old(self).strategy(),
            final(self).dictionary() == old(self).dictionary(),
            final(self).tokens() == old(self).tokens(),
            final(self).replies() == old(self).replies().push(
                match ipa {
                    Some(s) => Some(s@),
                    None => None,
                },
            ),
    {
        self.receive(ipa);
    }

    /// Records a reply.
    fn receive(&mut self, reply: Option<String>)
        requires
            old(self).wf(),
        ensures
            final(self).wf(),
            final(self).lang() == old(self).lang(),
            final(self).strategy() == old(self).strategy(),
            final(self).dictionary() == old(self).dictionary(),
            final(self).tokens() == old(self).tokens(),
            final(self).replies() == old(self).replies().push(
                match reply {
                    Some(s) => Some(s@),
                    None => None,
                },
            ),
    {
        let ghost before = self.replies();
        let ghost rv = reply_views(seq![reply])[0];
        self.replies.push(reply);
        proof {
            assert(self.replies() =~= before.push(rv));
            assert forall|r2: Seq<Option<Seq<char>>>| extends(r2, self.replies()) implies extends(r2, before) by {
                assert(r2.take(before.len() as int) =~= r2.take(self.replies().len() as int).take(
                    before.len() as int,
                ));
                assert(self.replies().take(before.len() as int) =~= before);
            }
        }
    }
}

/// The kind and text of token `i`.
fn token_at(tokens: &Vec<TextToken>, i: usize) -> (r: (bool, String))
    requires
        i < tokens@.len(),
    ensures
        (r.0, r.1@) == token_views(tokens@)[i as int],
{
    match &tokens[i] {
        TextToken::Word(w) => (true, w.clone()),
        TextToken::Symbol(w) => (false, w.clone()),
    }
}

/// A word step that gives phonemes reads only replies already received, so
/// more replies do not change it.
proof fn lemma_word_step_extends(
    lang: Seq<char>,
    strategy: PhonemizationStrategy,
    cmu: Option<Map<Seq<char>, Seq<Seq<Seq<char>>>>>,
    w: Seq<char>,
    r: Seq<Option<Seq<char>>>,
    r2: Seq<Option<Seq<char>>>,
    u: int,
)
    requires
        extends(r2, r),
        0 <= u <= r.len(),
        word_step(lang, strategy, cmu, w, r, u) is Emit,
    ensures
        word_step(lang, strategy, cmu, w, r2, u) == word_step(lang, strategy, cmu, w, r, u),
{
    assert forall|k: int| 0 <= k < r.len() implies r2[k] == r[k] by {
        assert(r2.take(r.len() as int)[k] == r2[k]);
    }
}

/// Advancing over a word that gives phonemes.
proof fn lemma_advance_word(
    lang: Seq<char>,
    strategy: PhonemizationStrategy,
    cmu: Option<Map<Seq<char>, Seq<Seq<Seq<char>>>>>,
    toks: Seq<(bool, Seq<char>)>,
    i: int,
    r: Seq<Option<Seq<char>>>,
    u: int,
    o: Seq<char>,
    u2: int,
    out: Seq<char>,
)
    requires
        0 <= i < toks.len(),
        toks[i].0,
        0 <= u <= r.len(),
        word_step(lang, strategy, cmu, toks[i].1, r, u) == WordStep::Emit(o, u2),
    ensures
        forall|r2: Seq<Option<Seq<char>>>|
            extends(r2, r) ==> prepend(out, #[trigger] words_outcome(lang, strategy, cmu, toks, i, r2, u))
                == prepend(out + o, words_outcome(lang, strategy, cmu, toks, i + 1, r2, u2)),
{
    assert forall|r2: Seq<Option<Seq<char>>>| extends(r2, r) implies prepend(
        out,
        #[trigger] words_outcome(lang, strategy, cmu, toks, i, r2, u),
    ) == prepend(out + o, words_outcome(lang, strategy, cmu, toks, i + 1, r2, u2)) by {
        lemma_word_step_extends(lang, strategy, cmu, toks[i].1, r, r2, u);
        lemma_prepend_twice(out, o, words_outcome(lang, strategy, cmu, toks, i + 1, r2, u2));
    }
}

/// Advancing over a symbol.
proof fn lemma_advance_symbol(
    lang: Seq<char>,
    strategy: PhonemizationStrategy,
    cmu: Option<Map<Seq<char>, Seq<Seq<Seq<char>>>>>,
    toks: Seq<(bool, Seq<char>)>,
    i: int,
    r: Seq<Option<Seq<char>>>,
    u: int,
    out: Seq<char>,
)
    requires
        0 <= i < toks.len(),
        !toks[i].0,
    ensures
        forall|r2: Seq<Option<Seq<char>>>|
            prepend(out, #[trigger] words_outcome(lang, strategy, cmu, toks, i, r2, u)) == prepend(
                out + toks[i].1,
                words_outcome(lang, strategy, cmu, toks, i + 1, r2, u),
            ),
{
    assert forall|r2: Seq<Option<Seq<char>>>|
        prepend(out, #[trigger] words_outcome(lang, strategy, cmu, toks, i, r2, u)) == prepend(
            out + toks[i].1,
            words_outcome(lang, strategy, cmu, toks, i + 1, r2, u),
        ) by {
        lemma_prepend_twice(out, toks[i].1, words_outcome(lang, strategy, cmu, toks, i + 1, r2, u));
    }
}

/// The replies read as the model's phonemes.
pub open spec fn reply_texts(replies: Seq<Option<Seq<char>>>) -> Seq<Seq<char>> {
    Seq::new(replies.len(), |k: int| neural_reply(replies, k))
}

/// The words among the first `j` tokens begin the words among the first `k`.
proof fn lemma_word_texts_prefix(toks: Seq<(bool, Seq<char>)>, j: int, k: int)
    requires
        0 <= j <= k <= toks.len(),
    ensures
        word_texts(toks.take(j)).len() <= word_texts(toks.take(k)).len(),
        word_texts(toks.take(k)).take(word_texts(toks.take(j)).len() as int) == word_texts(toks.take(j)),
    decreases k - j,
{
    if j < k {
        lemma_word_texts_prefix(toks, j, k - 1);
        assert(toks.take(k).drop_last() =~= toks.take(k - 1));
        let a = word_texts(toks.take(j));
        let b = word_texts(toks.take(k - 1));
        let c = word_texts(toks.take(k));
        if toks[k - 1].0 {
            assert(c == b.push(toks[k - 1].1));
            assert(c.take(a.len() as int) =~= b.take(a.len() as int));
        } else {
            assert(c == b);
        }
    } else {
        assert(word_texts(toks.take(k)).take(word_texts(toks.take(k)).len() as int) =~= word_texts(toks.take(k)));
    }
}

/// Under `NeuralWord`, from token `i` on with `u` the number of words before
/// it: the words are asked for in order, and once all are answered the
/// replies replace them.
proof fn lemma_neural_word_from(
    lang: Seq<char>,
    cmu: Option<Map<Seq<char>, Seq<Seq<Seq<char>>>>>,
    toks: Seq<(bool, Seq<char>)>,
    i: int,
    r: Seq<Option<Seq<char>>>,
)
    requires
        0 <= i <= toks.len(),
        word_texts(toks.take(i)).len() <= r.len(),
    ensures
        words_outcome(lang, PhonemizationStrategy::NeuralWord, cmu, toks, i, r, word_texts(toks.take(i)).len() as int)
            == if word_texts(toks).len() <= r.len() {
            Outcome::Finished(reassemble_from(toks, i, reply_texts(r), word_texts(toks.take(i)).len() as int))
        } else {
            Outcome::AskNeural(word_texts(toks)[r.len() as int])
        },
    decreases toks.len() - i,
{
    let u = word_texts(toks.take(i)).len() as int;
    assert(toks.take(toks.len() as int) =~= toks);
    if i < toks.len() {
        assert(toks.take(i + 1).drop_last() =~= toks.take(i));
        lemma_word_texts_prefix(toks, i + 1, toks.len() as int);
        if toks[i].0 {
            if u < r.len() {
                lemma_neural_word_from(lang, cmu, toks, i + 1, r);
            } else {
                assert(word_texts(toks.take(i + 1)) == word_texts(toks.take(i)).push(toks[i].1));
                assert(word_texts(toks)[u] == word_texts(toks.take(i + 1))[u]);
            }
        } else {
            lemma_neural_word_from(lang, cmu, toks, i + 1, r);
        }
    } else {
        assert(reassemble_from(toks, i, reply_texts(r), u) =~= Seq::<char>::empty());
        assert(Seq::<char>::empty() + Seq::<char>::empty() =~= Seq::<char>::empty());
    }
}

/// `NeuralWord` phonemizes every word on its own: with `k` replies received,
/// it asks the model for the word after the first `k`, and once every word
/// has its reply the phonemes are the text with each word replaced by its
/// reply.
pub proof fn law_neural_word_asks_each_word(
    lang: Seq<char>,
    cmu: Option<Map<Seq<char>, Seq<Seq<Seq<char>>>>>,
    toks: Seq<(bool, Seq<char>)>,
    r: Seq<Option<Seq<char>>>,
)
    ensures
        phonemize_outcome(lang, PhonemizationStrategy::NeuralWord, cmu, toks, r) == if word_texts(toks).len()
            <= r.len() {
            Outcome::Finished(reassemble(toks, reply_texts(r)))
        } else {
            Outcome::AskNeural(word_texts(toks)[r.len() as int])
        },
{
    assert(toks.take(0) =~= Seq::<(bool, Seq<char>)>::empty());
    lemma_neural_word_from(lang, cmu, toks, 0, r);
}

/// Under `DictionaryWithOmitUnknown`, from token `i` on: the model is never
/// asked.
proof fn lemma_omit_from(
    lang: Seq<char>,
    cmu: Option<Map<Seq<char>, Seq<Seq<Seq<char>>>>>,
    toks: Seq<(bool, Seq<char>)>,
    i: int,
    r: Seq<Option<Seq<char>>>,
    u: int,
)
    ensures
        !(words_outcome(lang, PhonemizationStrategy::DictionaryWithOmitUnknown, cmu, toks, i, r, u) is AskNeural),
    decreases toks.len() - i,
{
    if 0 <= i < toks.len() {
        if toks[i].0 {
            match word_step(lang, PhonemizationStrategy::DictionaryWithOmitUnknown, cmu, toks[i].1, r, u) {
                WordStep::Emit(_, u2) => lemma_omit_from(lang, cmu, toks, i + 1, r, u2),
                _ => {},
            }
        } else {
            lemma_omit_from(lang, cmu, toks, i + 1, r, u);
        }
    }
}

/// `DictionaryWithOmitUnknown` never asks the model: a word neither
/// dictionary holds is left out.
pub proof fn law_omit_unknown_never_asks_model(
    lang: Seq<char>,
    cmu: Option<Map<Seq<char>, Seq<Seq<Seq<char>>>>>,
    toks: Seq<(bool, Seq<char>)>,
    r: Seq<Option<Seq<char>>>,
)
    ensures
        !(phonemize_outcome(lang, PhonemizationStrategy::DictionaryWithOmitUnknown, cmu, toks, r) is AskNeural),
{
    lemma_omit_from(lang, cmu, toks, 0, r, 0);
}

/// The text of `toks[i..]` with every word replaced by its dictionary IPA.
pub open spec fn dictionary_text(cmu: Option<Map<Seq<char>, Seq<Seq<Seq<char>>>>>, toks: Seq<(bool, Seq<char>)>, i: int) -> Seq<char>
    decreases toks.len() - i,
{
    if i >= toks.len() || i < 0 {
        seq![]
    } else if toks[i].0 {
        dictionary_ipa(cmu, toks[i].1).unwrap() + dictionary_text(cmu, toks, i + 1)
    } else {
        toks[i].1 + dictionary_text(cmu, toks, i + 1)
    }
}

/// Whether the English dictionary holds every word among `toks`.
pub open spec fn dictionary_knows_all(cmu: Option<Map<Seq<char>, Seq<Seq<Seq<char>>>>>, toks: Seq<(bool, Seq<char>)>) -> bool {
    forall|k: int| 0 <= k < toks.len() && (#[trigger] toks[k]).0 ==> dictionary_ipa(cmu, toks[k].1) is Some
}

/// From token `i` on, with every word in the dictionary.
proof fn lemma_dictionary_from(
    lang: Seq<char>,
    strategy: PhonemizationStrategy,
    cmu: Option<Map<Seq<char>, Seq<Seq<Seq<char>>>>>,
    toks: Seq<(bool, Seq<char>)>,
    i: int,
    r: Seq<Option<Seq<char>>>,
    u: int,
)
    requires
        strategy.uses_dictionaries(),
        is_english(lang),
        dictionary_knows_all(cmu, toks),
    ensures
        words_outcome(lang, strategy, cmu, toks, i, r, u) == Outcome::Finished(dictionary_text(cmu, toks, i)),
    decreases toks.len() - i,
{
    if 0 <= i < toks.len() {
        lemma_dictionary_from(lang, strategy, cmu, toks, i + 1, r, u);
        if toks[i].0 {
            assert(dictionary_ipa(cmu, toks[i].1) is Some);
        }
    }
}

/// For English text, the dictionary strategies give every word the English
/// dictionary holds its dictionary IPA: where it holds them all, the model
/// and the transliterator are never asked, and the phonemes are the text
/// with each word replaced by its dictionary IPA.
pub proof fn law_dictionary_words_need_no_model(
    lang: Seq<char>,
    strategy: PhonemizationStrategy,
    cmu: Option<Map<Seq<char>, Seq<Seq<Seq<char>>>>>,
    toks: Seq<(bool, Seq<char>)>,
    r: Seq<Option<Seq<char>>>,
)
    requires
        strategy.uses_dictionaries(),
        is_english(lang),
        dictionary_knows_all(cmu, toks),
    ensures
        phonemize_outcome(lang, strategy, cmu, toks, r) == Outcome::Finished(dictionary_text(cmu, toks, 0)),
{
    lemma_dictionary_from(lang, strategy, cmu, toks, 0, r, 0);
}

/// Before word `i`, every word is English and in the English dictionary.
pub open spec fn known_before(
    lang: Seq<char>,
    cmu: Option<Map<Seq<char>, Seq<Seq<Seq<char>>>>>,
    toks: Seq<(bool, Seq<char>)>,
    i: int,
) -> bool {
    forall|k: int| 0 <= k < i && (#[trigger] toks[k]).0 ==> is_english(lang) && dictionary_ipa(cmu, toks[k].1) is Some
}

/// From token `j` up to the unknown word `i`, with no reply received, the
/// model is asked for word `i`.
proof fn lemma_fallback_from(
    lang: Seq<char>,
    cmu: Option<Map<Seq<char>, Seq<Seq<Seq<char>>>>>,
    toks: Seq<(bool, Seq<char>)>,
    i: int,
    j: int,
)
    requires
        0 <= j <= i < toks.len(),
        toks[i].0,
        known_before(lang, cmu, toks, i),
        is_english(lang) ==> dictionary_ipa(cmu, toks[i].1) is None,
        !is_english(lang) ==> EpitranLang::of_tag(lang) is None,
    ensures
        words_outcome(
            lang,
            PhonemizationStrategy::DictionaryWithNeuralFallback,
            cmu,
            toks,
            j,
            Seq::<Option<Seq<char>>>::empty(),
            0,
        ) == Outcome::AskNeural(toks[i].1),
    decreases i - j,
{
    if j < i {
        lemma_fallback_from(lang, cmu, toks, i, j + 1);
        if toks[j].0 {
            assert(is_english(lang) && dictionary_ipa(cmu, toks[j].1) is Some);
        }
    }
}

/// Under `DictionaryWithNeuralFallback`, a word no dictionary gives
/// phonemes for goes to the model: with no reply received yet, the first
/// word that is not an English word of the English dictionary (for a
/// non-English tag naming no Epitran language, simply the first word) is
/// asked of the model, never left out.
pub proof fn law_unknown_word_goes_to_model(
    lang: Seq<char>,
    cmu: Option<Map<Seq<char>, Seq<Seq<Seq<char>>>>>,
    toks: Seq<(bool, Seq<char>)>,
    i: int,
)
    requires
        0 <= i < toks.len(),
        toks[i].0,
        known_before(lang, cmu, toks, i),
        is_english(lang) ==> dictionary_ipa(cmu, toks[i].1) is None,
        !is_english(lang) ==> EpitranLang::of_tag(lang) is None,
    ensures
        phonemize_outcome(
            lang,
            PhonemizationStrategy::DictionaryWithNeuralFallback,
            cmu,
            toks,
            Seq::<Option<Seq<char>>>::empty(),
        ) == Outcome::AskNeural(toks[i].1),
{
    lemma_fallback_from(lang, cmu, toks, i, 0);
}

/// Token `i` is the first word.
pub open spec fn first_word(toks: Seq<(bool, Seq<char>)>, i: int) -> bool {
    &&& 0 <= i < toks.len()
    &&& toks[i].0
    &&& forall|k: int| 0 <= k < i ==> !(#[trigger] toks[k]).0
}

/// From token `j` up to the first word `i`, the outcome is the first word's.
proof fn lemma_first_word_from(
    lang: Seq<char>,
    strategy: PhonemizationStrategy,
    cmu: Option<Map<Seq<char>, Seq<Seq<Seq<char>>>>>,
    toks: Seq<(bool, Seq<char>)>,
    i: int,
    j: int,
    r: Seq<Option<Seq<char>>>,
)
    requires
        first_word(toks, i),
        0 <= j <= i,
        !(words_outcome(lang, strategy, cmu, toks, i, r, 0) is Finished),
    ensures
        words_outcome(lang, strategy, cmu, toks, j, r, 0) == words_outcome(lang, strategy, cmu, toks, i, r, 0),
    decreases i - j,
{
    if j < i {
        lemma_first_word_from(lang, strategy, cmu, toks, i, j + 1, r);
        assert(!toks[j].0);
    }
}

/// For a language Epitran knows, the dictionary strategies send each word
/// to Epitran first; where Epitran gives nothing for it, the word goes to
/// the model under `DictionaryWithNeuralFallback` (and is left out under
/// `DictionaryWithOmitUnknown`).
pub proof fn law_epitran_then_model(
    lang: Seq<char>,
    strategy: PhonemizationStrategy,
    cmu: Option<Map<Seq<char>, Seq<Seq<Seq<char>>>>>,
    toks: Seq<(bool, Seq<char>)>,
    i: int,
)
    requires
        strategy.uses_dictionaries(),
        first_word(toks, i),
        !is_english(lang),
        EpitranLang::of_tag(lang) is Some,
    ensures
        phonemize_outcome(lang, strategy, cmu, toks, Seq::<Option<Seq<char>>>::empty())
            == Outcome::AskTransliteration(EpitranLang::of_tag(lang)->0, toks[i].1),
        strategy == PhonemizationStrategy::DictionaryWithNeuralFallback ==> phonemize_outcome(
            lang,
            strategy,
            cmu,
            toks,
            seq![None::<Seq<char>>],
        ) == Outcome::AskNeural(toks[i].1),
{
    lemma_first_word_from(lang, strategy, cmu, toks, i, 0, Seq::<Option<Seq<char>>>::empty());
    if strategy == PhonemizationStrategy::DictionaryWithNeuralFallback {
        let r = seq![None::<Seq<char>>];
        assert(r[0] is None);
        assert(words_outcome(lang, strategy, cmu, toks, i, r, 0) == Outcome::AskNeural(toks[i].1));
        lemma_first_word_from(lang, strategy, cmu, toks, i, 0, r);
    }
}

/// `NeuralSentence` asks the model once, for all the words of the text
/// joined by spaces; its reply finishes the phonemes. Text without words
/// needs no model at all.
pub proof fn law_neural_sentence_asks_once(toks: Seq<(bool, Seq<char>)>, r: Seq<Option<Seq<char>>>, lang: Seq<char>, cmu: Option<Map<Seq<char>, Seq<Seq<Seq<char>>>>>)
    ensures
        word_texts(toks).len() > 0 && r.len() == 0 ==> phonemize_outcome(lang, PhonemizationStrategy::NeuralSentence, cmu, toks, r)
            == Outcome::AskNeural(join(word_texts(toks), " "@)),
        word_texts(toks).len() == 0 || r.len() > 0 ==> phonemize_outcome(lang, PhonemizationStrategy::NeuralSentence, cmu, toks, r) is Finished,
{
}

/// Prepending nothing changes nothing.
proof fn lemma_prepend_empty(o: Outcome)
    ensures
        prepend(seq![], o) == o,
{
    match o {
        Outcome::Finished(x) => {
            assert(Seq::<char>::empty() + x =~= x);
        },
        _ => {},
    }
}

/// Prepending twice is prepending the concatenation.
proof fn lemma_prepend_twice(a: Seq<char>, b: Seq<char>, o: Outcome)
    ensures
        prepend(a, prepend(b, o)) == prepend(a + b, o),
{
    match o {
        Outcome::Finished(x) => {
            assert(a + (b + x) =~= (a + b) + x);
        },
        _ => {},
    }
}

/// Whether some token is a word.
fn contains_word(tokens: &Vec<TextToken>) -> (r: bool)
    ensures
        r == has_word(token_views(tokens@)),
{
    let mut i: usize = 0;
    while i < tokens.len()
        invariant
            i <= tokens.len(),
            forall|j: int| 0 <= j < i ==> !(#[trigger] token_views(tokens@)[j]).0,
        decreases tokens.len() - i,
    {
        match &tokens[i] {
            TextToken::Word(_) => {
                assert(token_views(tokens@)[i as int].0);
                return true;
            },
            TextToken::Symbol(_) => {},
        }
        i = i + 1;
    }
    false
}

} // verus!
