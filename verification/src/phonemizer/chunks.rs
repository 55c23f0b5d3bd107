//! Preparing text for the model a sentence chunk at a time: the text is
//! cleaned of everything but letters, digits and sentence punctuation, cut
//! into chunks, and each chunk's final punctuation mark is held back from the
//! model and put back after its phonemes.
use vstd::prelude::*;
use vstd::string::*;

use crate::phonemizer::neural::{chunk_text, sentence_chunks, unicode_sentences_of};
use crate::phonemizer::phonemizer::{split_white_space, split_whitespace, split_ws_from};
use crate::text::{
    chars_of, is_ascii_punct, is_ascii_punctuation, is_white_space, join, join_strings,
    lemma_filter_filter, lemma_join_cons, push_char, push_str, without_white_space,
    string_from_chars, string_from_range, trim, trim_bounds, unaccent_text, unaccented, views,
};

verus! {

/// Whether `char::is_alphanumeric` holds of `c` (Unicode `Alphabetic` or
/// `Numeric`).
pub uninterp spec fn is_alphanumeric_char(c: char) -> bool;

/// `char::is_alphanumeric`.
#[verifier::external_body]
fn is_alphanumeric(c: char) -> (b: bool)
    ensures
        b == is_alphanumeric_char(c),
{
    c.is_alphanumeric()
}

/// The characters the model is shown: letters, digits, `.`, `!`, `?` and
/// space.
pub open spec fn kept_for_model(c: char) -> bool {
    is_alphanumeric_char(c) || c == '.' || c == '!' || c == '?' || c == ' '
}

/// `text` without accents, with only the characters the model is shown,
/// its words separated by single spaces.
pub open spec fn cleaned(text: Seq<char>) -> Seq<char> {
    join(split_white_space(unaccented(text).filter(|c: char| kept_for_model(c))), " "@)
}

/// Removes accents and every character but letters, digits, `.`, `!`, `?`
/// and spaces, and separates the words by single spaces.
pub fn clean_text(text: &str) -> (r: String)
    ensures
        r@ == cleaned(text@),
{
    let plain = unaccent_text(text);
    let v = chars_of(plain.as_str());
    let mut kept: Vec<char> = Vec::new();
    let mut i: usize = 0;
    while i < v.len()
        invariant
            i <= v.len(),
            v@ == unaccented(text@),
            kept@ == v@.take(i as int).filter(|c: char| kept_for_model(c)),
        decreases v.len() - i,
    {
        let c = v[i];
        proof {
            reveal_with_fuel(Seq::filter, 1);
            assert(v@.take(i + 1).drop_last() =~= v@.take(i as int));
        }
        if is_alphanumeric(c) || c == '.' || c == '!' || c == '?' || c == ' ' {
            kept.push(c);
        }
        i = i + 1;
    }
    assert(v@.take(v.len() as int) =~= v@);
    let s = string_from_chars(&kept);
    let words = split_whitespace(s.as_str());
    join_strings(&words, " ")
}

/// The characters other than white space of the words of `s[i..]` joined
/// by single spaces, `cur` being the word read so far, are those of `cur`
/// followed by `s[i..]`.
proof fn lemma_join_words_visible(s: Seq<char>, i: int, cur: Seq<char>)
    requires
        0 <= i <= s.len(),
    ensures
        without_white_space(join(split_ws_from(s, i, cur), " "@)) == without_white_space(cur + s.skip(i)),
    decreases s.len() - i,
{
    let pred = |c: char| !is_white_space(c);
    reveal_strlit(" ");
    reveal_with_fuel(Seq::filter, 2);
    assert(without_white_space(" "@) =~= Seq::<char>::empty());
    if i >= s.len() {
        assert(s.skip(i) =~= Seq::<char>::empty());
        assert(cur + s.skip(i) =~= cur);
        if cur.len() > 0 {
            assert(split_ws_from(s, i, cur) =~= seq![cur]);
        } else {
            assert(cur =~= Seq::<char>::empty());
            assert(split_ws_from(s, i, cur) =~= Seq::<Seq<char>>::empty());
        }
    } else {
        let c = s[i];
        assert(cur + s.skip(i) =~= cur + seq![c] + s.skip(i + 1));
        assert(cur + seq![c] + s.skip(i + 1) =~= cur.push(c) + s.skip(i + 1));
        if is_white_space(c) {
            lemma_join_words_visible(s, i + 1, seq![]);
            let rest = split_ws_from(s, i + 1, seq![]);
            assert(without_white_space(seq![c]) =~= Seq::<char>::empty());
            Seq::filter_distributes_over_add(cur + seq![c], s.skip(i + 1), pred);
            Seq::filter_distributes_over_add(cur, seq![c], pred);
            assert(Seq::<char>::empty() + s.skip(i + 1) =~= s.skip(i + 1));
            if cur.len() > 0 {
                assert(split_ws_from(s, i, cur) == seq![cur] + rest);
                lemma_join_cons(cur, rest, " "@);
                if rest.len() > 0 {
                    Seq::filter_distributes_over_add(cur + " "@, join(rest, " "@), pred);
                    Seq::filter_distributes_over_add(cur, " "@, pred);
                } else {
                    assert(without_white_space(join(rest, " "@)) =~= Seq::<char>::empty());
                }
            } else {
                assert(split_ws_from(s, i, cur) =~= rest);
                assert(cur =~= Seq::<char>::empty());
            }
        } else {
            lemma_join_words_visible(s, i + 1, cur.push(c));
        }
    }
}

/// Cleaning keeps every sentence mark and every letter or digit of the
/// unaccented text, in order: for each of `.`, `!`, `?` and each
/// alphanumeric character other than white space, the cleaned text holds
/// exactly the occurrences the unaccented text holds.
pub proof fn law_cleaning_keeps_marks_and_letters(text: Seq<char>, c: char)
    requires
        c == '.' || c == '!' || c == '?' || (is_alphanumeric_char(c) && !is_white_space(c)),
    ensures
        cleaned(text).filter(|x: char| x == c) == unaccented(text).filter(|x: char| x == c),
{
    let u = unaccented(text);
    let keep = |x: char| kept_for_model(x);
    let visible = |x: char| !is_white_space(x);
    let same = |x: char| x == c;
    let k = u.filter(keep);
    let cl = cleaned(text);
    assert(!is_white_space(c));
    assert(forall|x: char| #[trigger] same(x) ==> visible(x));
    assert(forall|x: char| #[trigger] same(x) ==> keep(x));
    lemma_filter_filter(cl, visible, same);
    lemma_join_words_visible(k, 0, seq![]);
    assert(Seq::<char>::empty() + k.skip(0) =~= k);
    lemma_filter_filter(k, visible, same);
    lemma_filter_filter(u, keep, same);
}

/// Whether every character of `x` is kept for the model.
spec fn all_kept(x: Seq<char>) -> bool {
    forall|j: int| 0 <= j < x.len() ==> kept_for_model(#[trigger] x[j])
}

/// Joining with spaces words cut from kept characters gives kept
/// characters only.
proof fn lemma_join_words_kept(s: Seq<char>, i: int, cur: Seq<char>)
    requires
        0 <= i <= s.len(),
        all_kept(s),
        all_kept(cur),
    ensures
        all_kept(join(split_ws_from(s, i, cur), " "@)),
    decreases s.len() - i,
{
    reveal_strlit(" ");
    if i >= s.len() {
        if cur.len() > 0 {
            assert(split_ws_from(s, i, cur) =~= seq![cur]);
        } else {
            assert(split_ws_from(s, i, cur) =~= Seq::<Seq<char>>::empty());
        }
    } else {
        let c = s[i];
        if is_white_space(c) {
            lemma_join_words_kept(s, i + 1, seq![]);
            let rest = split_ws_from(s, i + 1, seq![]);
            if cur.len() > 0 {
                assert(split_ws_from(s, i, cur) == seq![cur] + rest);
                lemma_join_cons(cur, rest, " "@);
                if rest.len() > 0 {
                    let j = join(rest, " "@);
                    let all = cur + " "@ + j;
                    assert forall|k: int| 0 <= k < all.len() implies kept_for_model(#[trigger] all[k]) by {
                        if k < cur.len() {
                            assert(all[k] == cur[k]);
                        } else if k == cur.len() {
                            assert(all[k] == ' ');
                        } else {
                            assert(all[k] == j[k - cur.len() - 1]);
                        }
                    }
                }
            } else {
                assert(split_ws_from(s, i, cur) =~= rest);
            }
        } else {
            let c2 = cur.push(c);
            assert forall|k: int| 0 <= k < c2.len() implies kept_for_model(#[trigger] c2[k]) by {
                if k < cur.len() {
                    assert(c2[k] == cur[k]);
                }
            }
            lemma_join_words_kept(s, i + 1, c2);
        }
    }
}

/// The cleaned text holds letters, digits, `.`, `!`, `?` and spaces only.
pub proof fn law_cleaned_characters(text: Seq<char>)
    ensures
        forall|j: int|
            0 <= j < cleaned(text).len() ==> {
                let c = #[trigger] cleaned(text)[j];
                is_alphanumeric_char(c) || c == '.' || c == '!' || c == '?' || c == ' '
            },
{
    let u = unaccented(text);
    let keep = |x: char| kept_for_model(x);
    let k = u.filter(keep);
    assert forall|j: int| 0 <= j < k.len() implies kept_for_model(#[trigger] k[j]) by {
        u.lemma_filter_pred(keep, j);
    }
    lemma_join_words_kept(k, 0, seq![]);
}

/// One chunk of model input: its text without its final punctuation mark,
/// and that mark.
#[derive(Debug)]
pub struct PhonemeChunk {
    /// The trimmed chunk without its final ASCII punctuation mark.
    pub text_for_model: String,
    /// The final ASCII punctuation mark of the trimmed chunk, or nothing.
    pub original_punctuation: String,
}

/// The text of a chunk the model is given: trimmed, without a final ASCII
/// punctuation mark.
pub open spec fn model_part(text: Seq<char>) -> Seq<char> {
    let t = trim(text);
    if t.len() > 0 && is_ascii_punct(t.last()) {
        t.drop_last()
    } else {
        t
    }
}

/// The final ASCII punctuation mark of the trimmed chunk, if any.
pub open spec fn punctuation_part(text: Seq<char>) -> Seq<char> {
    let t = trim(text);
    if t.len() > 0 && is_ascii_punct(t.last()) {
        seq![t.last()]
    } else {
        seq![]
    }
}

impl PhonemeChunk {
    /// Splits a chunk into what the model is given and its final
    /// punctuation mark.
    pub fn new(text: &str) -> (r: PhonemeChunk)
        ensures
            r.text_for_model@ == model_part(text@),
            r.original_punctuation@ == punctuation_part(text@),
    {
        let v = chars_of(text);
        let (a, b) = trim_bounds(&v);
        if b > a && is_ascii_punctuation(v[b - 1]) {
            let mut mark = String::new();
            push_char(&mut mark, v[b - 1]);
            assert(mark@ =~= seq![trim(text@).last()]);
            assert(v@.subrange(a as int, b - 1) =~= trim(text@).drop_last());
            PhonemeChunk { text_for_model: string_from_range(&v, a, b - 1), original_punctuation: mark }
        } else {
            PhonemeChunk { text_for_model: string_from_range(&v, a, b), original_punctuation: String::new() }
        }
    }

    /// The chunk's phonemes followed by its punctuation mark.
    pub fn with_punctuation(&self, phonemes: &str) -> (r: String)
        ensures
            r@ == phonemes@ + self.original_punctuation@,
    {
        let mut r = String::new();
        push_str(&mut r, phonemes);
        push_str(&mut r, self.original_punctuation.as_str());
        r
    }
}

/// Splitting a chunk loses nothing: the model's text followed by the
/// punctuation mark is the trimmed chunk.
pub proof fn law_chunk_split_restores(text: Seq<char>)
    ensures
        model_part(text) + punctuation_part(text) == trim(text),
{
    let t = trim(text);
    if t.len() > 0 && is_ascii_punct(t.last()) {
        assert(t.drop_last() + seq![t.last()] =~= t);
    } else {
        assert(t + Seq::<char>::empty() =~= t);
    }
}

/// The chunks of `text` (of at most `max_chars` bytes, whole sentences),
/// each split into model text and punctuation mark.
pub fn phoneme_chunks(text: &str, max_chars: usize) -> (r: Vec<PhonemeChunk>)
    ensures
        r@.len() == sentence_chunks(unicode_sentences_of(text@), max_chars as int).len(),
        forall|k: int|
            0 <= k < r@.len() ==> {
                let c = sentence_chunks(unicode_sentences_of(text@), max_chars as int)[k];
                &&& (#[trigger] r@[k]).text_for_model@ == model_part(c)
                &&& r@[k].original_punctuation@ == punctuation_part(c)
            },
{
    let chunks = chunk_text(text, max_chars);
    let ghost cv = views(chunks@);
    let mut r: Vec<PhonemeChunk> = Vec::new();
    let mut i: usize = 0;
    while i < chunks.len()
        invariant
            i <= chunks.len(),
            cv == views(chunks@),
            cv == sentence_chunks(unicode_sentences_of(text@), max_chars as int),
            r@.len() == i,
            forall|k: int|
                0 <= k < i ==> {
                    &&& (#[trigger] r@[k]).text_for_model@ == model_part(cv[k])
                    &&& r@[k].original_punctuation@ == punctuation_part(cv[k])
                },
        decreases chunks.len() - i,
    {
        r.push(PhonemeChunk::new(chunks[i].as_str()));
        i = i + 1;
    }
    r
}

} // verus!
