//! Input and output handling of the ByT5 grapheme-to-phoneme model: the text
//! is cut into chunks of whole sentences, each chunk encoded as
//! `"<lang>: chunk"`, and the generated ids decoded back to IPA.
use vstd::prelude::*;
use vstd::string::*;
use vstd::utf8::*;

use crate::text::{
    is_white_space, lemma_flatten_cons, lemma_trim_keeps_visible, lemma_utf8_len_bound,
    lemma_utf8_len_concat, trim, trim_bounds, string_from_range, chars_of, utf8_len, utf8_len_of,
    views, without_white_space,
};
use crate::tokenizer::{byte_ids, byte_tokens, model_input, token_byte, utf8_lossy};

verus! {

/// Chunk size, in bytes, used when none is given.
pub const DEFAULT_CHUNK_SIZE: usize = 100;

/// The sentences of `text` after UAX#29 (`unicode_sentences`), those without
/// any alphanumeric character left out.
pub uninterp spec fn unicode_sentences_of(text: Seq<char>) -> Seq<Seq<char>>;

/// `UnicodeSegmentation::unicode_sentences`, each sentence copied out.
#[verifier::external_body]
pub(crate) fn unicode_sentences(text: &str) -> (r: Vec<String>)
    ensures
        views(r@) == unicode_sentences_of(text@),
{
    unicode_segmentation::UnicodeSegmentation::unicode_sentences(text).map(|s| s.to_string()).collect()
}

/// Chunks of sentences `sents[i..]`, `cur` being the chunk being filled: a
/// sentence that would take a non-empty chunk past `max` bytes starts a new
/// one; every sentence is followed by a space; chunks are trimmed.
pub open spec fn chunk_fold(sents: Seq<Seq<char>>, i: int, cur: Seq<char>, max: int) -> Seq<Seq<char>>
    decreases sents.len() - i,
{
    if i >= sents.len() || i < 0 {
        if cur.len() > 0 {
            seq![trim(cur)]
        } else {
            seq![]
        }
    } else if utf8_len(cur) + utf8_len(sents[i]) > max && cur.len() > 0 {
        seq![trim(cur)] + chunk_fold(sents, i + 1, sents[i].push(' '), max)
    } else {
        chunk_fold(sents, i + 1, cur + sents[i].push(' '), max)
    }
}

/// The chunks sentences are grouped into, at most `max` bytes each where a
/// single sentence does not exceed it.
pub open spec fn sentence_chunks(sents: Seq<Seq<char>>, max: int) -> Seq<Seq<char>> {
    chunk_fold(sents, 0, seq![], max)
}

/// The largest UTF-8 length of the sentences, or `max` if that is larger.
pub open spec fn chunk_bound(sents: Seq<Seq<char>>, max: int) -> int
    decreases sents.len(),
{
    if sents.len() == 0 {
        max
    } else {
        let rest = chunk_bound(sents.drop_last(), max);
        let l = utf8_len(sents.last()) as int;
        if l > rest {
            l
        } else {
            rest
        }
    }
}

/// Every sentence fits the bound.
proof fn lemma_chunk_bound(sents: Seq<Seq<char>>, max: int)
    ensures
        chunk_bound(sents, max) >= max,
        forall|k: int| 0 <= k < sents.len() ==> utf8_len(#[trigger] sents[k]) <= chunk_bound(sents, max),
    decreases sents.len(),
{
    if sents.len() > 0 {
        lemma_chunk_bound(sents.drop_last(), max);
        assert forall|k: int| 0 <= k < sents.len() implies utf8_len(#[trigger] sents[k]) <= chunk_bound(sents, max) by {
            if k < sents.len() - 1 {
                assert(sents[k] == sents.drop_last()[k]);
            }
        }
    }
}

/// The chunk being filled is empty, or ends with a space and exceeds the
/// bound by at most that space.
pub open spec fn fill_ok(cur: Seq<char>, bound: int) -> bool {
    cur.len() == 0 || (cur.last() == ' ' && utf8_len(cur) <= bound + 1)
}

/// The chunks from sentence `i` on are at most `bound` bytes.
proof fn lemma_chunk_fold_bounded(sents: Seq<Seq<char>>, i: int, cur: Seq<char>, max: int, bound: int)
    requires
        0 <= i,
        bound >= max,
        forall|k: int| 0 <= k < sents.len() ==> utf8_len(#[trigger] sents[k]) <= bound,
        fill_ok(cur, bound),
    ensures
        forall|k: int|
            0 <= k < chunk_fold(sents, i, cur, max).len() ==> utf8_len(#[trigger] chunk_fold(sents, i, cur, max)[k]) <= bound,
    decreases sents.len() - i,
{
    crate::text::lemma_encode_utf8_single(' ');
    if cur.len() > 0 {
        crate::text::lemma_trim_shortens(cur);
    }
    if i >= sents.len() {
        if cur.len() > 0 {
            assert(chunk_fold(sents, i, cur, max) =~= seq![trim(cur)]);
        }
    } else {
        let s = sents[i];
        crate::text::lemma_utf8_len_push(s, ' ');
        if utf8_len(cur) + utf8_len(s) > max && cur.len() > 0 {
            lemma_chunk_fold_bounded(sents, i + 1, s.push(' '), max, bound);
            let rest = chunk_fold(sents, i + 1, s.push(' '), max);
            assert forall|k: int| 0 <= k < chunk_fold(sents, i, cur, max).len() implies utf8_len(
                #[trigger] chunk_fold(sents, i, cur, max)[k],
            ) <= bound by {
                if k > 0 {
                    assert(chunk_fold(sents, i, cur, max)[k] == rest[k - 1]);
                }
            }
        } else {
            let next = cur + s.push(' ');
            lemma_utf8_len_concat(cur, s.push(' '));
            assert(next.last() == ' ');
            lemma_chunk_fold_bounded(sents, i + 1, next, max, bound);
            assert(chunk_fold(sents, i, cur, max) == chunk_fold(sents, i + 1, next, max));
        }
    }
}

/// No chunk is longer than `max` bytes, except where a single sentence is
/// longer: then no chunk is longer than the longest sentence.
pub proof fn law_chunks_bounded(sents: Seq<Seq<char>>, max: int)
    ensures
        forall|k: int|
            0 <= k < sentence_chunks(sents, max).len() ==> utf8_len(#[trigger] sentence_chunks(sents, max)[k])
                <= chunk_bound(sents, max),
{
    lemma_chunk_bound(sents, max);
    lemma_chunk_fold_bounded(sents, 0, seq![], max, chunk_bound(sents, max));
}

/// The chunks from sentence `i` on hold the characters other than white
/// space of `cur` and of the sentences from `i` on, in order.
proof fn lemma_chunk_fold_visible(sents: Seq<Seq<char>>, i: int, cur: Seq<char>, max: int)
    requires
        0 <= i <= sents.len(),
    ensures
        without_white_space(chunk_fold(sents, i, cur, max).flatten()) == without_white_space(
            cur + sents.skip(i).flatten(),
        ),
    decreases sents.len() - i,
{
    let pred = |c: char| !is_white_space(c);
    lemma_trim_keeps_visible(cur);
    if i >= sents.len() {
        assert(sents.skip(i) =~= Seq::<Seq<char>>::empty());
        assert(cur + sents.skip(i).flatten() =~= cur);
        if cur.len() > 0 {
            lemma_flatten_cons(trim(cur), Seq::<Seq<char>>::empty());
            assert(seq![trim(cur)] + Seq::<Seq<char>>::empty() =~= seq![trim(cur)]);
            assert(trim(cur) + Seq::<Seq<char>>::empty().flatten() =~= trim(cur));
        } else {
            assert(cur =~= Seq::<char>::empty());
        }
    } else {
        let s = sents[i];
        let rest_sents = sents.skip(i + 1).flatten();
        assert(sents.skip(i).first() == s);
        assert(sents.skip(i).drop_first() =~= sents.skip(i + 1));
        assert(cur + sents.skip(i).flatten() =~= cur + s + rest_sents);
        let sp = seq![' '];
        assert(s.push(' ') =~= s + sp);
        reveal_with_fuel(Seq::filter, 2);
        assert(without_white_space(sp) =~= Seq::<char>::empty());
        Seq::filter_distributes_over_add(s, sp, pred);
        assert(without_white_space(s.push(' ')) =~= without_white_space(s));
        Seq::filter_distributes_over_add(cur + s, rest_sents, pred);
        Seq::filter_distributes_over_add(cur, s, pred);
        if utf8_len(cur) + utf8_len(s) > max && cur.len() > 0 {
            lemma_chunk_fold_visible(sents, i + 1, s.push(' '), max);
            let rest = chunk_fold(sents, i + 1, s.push(' '), max);
            lemma_flatten_cons(trim(cur), rest);
            Seq::filter_distributes_over_add(trim(cur), rest.flatten(), pred);
            Seq::filter_distributes_over_add(s.push(' '), rest_sents, pred);
        } else {
            lemma_chunk_fold_visible(sents, i + 1, cur + s.push(' '), max);
            Seq::filter_distributes_over_add(cur + s.push(' '), rest_sents, pred);
            Seq::filter_distributes_over_add(cur, s.push(' '), pred);
        }
    }
}

/// Grouping sentences into chunks loses nothing but white space: the
/// chunks, one after the other, hold the characters of the sentences other
/// than white space, all of them and in the same order.
pub proof fn law_sentence_chunks_keep_text(sents: Seq<Seq<char>>, max: int)
    ensures
        without_white_space(sentence_chunks(sents, max).flatten()) == without_white_space(sents.flatten()),
{
    lemma_chunk_fold_visible(sents, 0, seq![], max);
    assert(sents.skip(0) =~= sents);
    assert(Seq::<char>::empty() + sents.flatten() =~= sents.flatten());
}

/// Groups sentences into trimmed chunks of at most `max_chars` bytes (a
/// longer sentence makes a chunk of its own).
pub fn chunk_sentences(sentences: &Vec<String>, max_chars: usize) -> (r: Vec<String>)
    ensures
        views(r@) == sentence_chunks(views(sentences@), max_chars as int),
{
    let ghost sv = views(sentences@);
    let mut chunks: Vec<String> = Vec::new();
    let mut cur: Vec<char> = Vec::new();
    let mut cur_bytes: u128 = 0;
    let mut i: usize = 0;
    proof {
        assert(utf8_len(Seq::<char>::empty()) == 0);
    }
    while i < sentences.len()
        invariant
            i <= sentences.len(),
            sv == views(sentences@),
            cur_bytes == utf8_len(cur@),
            views(chunks@) + chunk_fold(sv, i as int, cur@, max_chars as int) == sentence_chunks(sv, max_chars as int),
        decreases sentences.len() - i,
    {
        let sentence = chars_of(sentences[i].as_str());
        let s_bytes = utf8_len_of(&sentence);
        let cur_len = cur.len();
        let s_len = sentence.len();
        proof {
            assert(sentence@ == sv[i as int]);
            lemma_utf8_len_bound(cur@);
            assert(cur_bytes + s_bytes <= 4 * (cur_len as int) + 4 * (s_len as int));
        }
        let ghost before = views(chunks@);
        if cur_bytes + s_bytes > max_chars as u128 && cur_len > 0 {
            let (a, b) = trim_bounds(&cur);
            chunks.push(string_from_range(&cur, a, b));
            assert(views(chunks@) =~= before + seq![trim(cur@)]);
            cur = Vec::new();
            cur_bytes = 0;
            proof {
                assert(cur@ =~= Seq::<char>::empty());
            }
        }
        let ghost cur0 = cur@;
        let mut k: usize = 0;
        while k < sentence.len()
            invariant
                k <= sentence@.len(),
                cur@ == cur0 + sentence@.take(k as int),
            decreases sentence.len() - k,
        {
            cur.push(sentence[k]);
            assert(cur0 + sentence@.take(k + 1) =~= (cur0 + sentence@.take(k as int)).push(sentence@[k as int]));
            k = k + 1;
        }
        cur.push(' ');
        proof {
            assert(sentence@.take(sentence@.len() as int) =~= sentence@);
            assert(cur@ =~= cur0 + sentence@.push(' '));
            assert(sentence@.push(' ') =~= sentence@ + seq![' ']);
            lemma_utf8_len_concat(cur0, sentence@.push(' '));
            lemma_utf8_len_concat(sentence@, seq![' ']);
            crate::text::lemma_encode_utf8_single(' ');
            assert(utf8_len(seq![' ']) == 1);
            if cur0.len() == 0 {
                assert(cur0 + sentence@.push(' ') =~= sentence@.push(' '));
            }
        }
        cur_bytes = cur_bytes + s_bytes + 1;
        i = i + 1;
    }
    if cur.len() > 0 {
        let ghost before = views(chunks@);
        let (a, b) = trim_bounds(&cur);
        chunks.push(string_from_range(&cur, a, b));
        assert(views(chunks@) =~= before + seq![trim(cur@)]);
    } else {
        assert(views(chunks@) =~= views(chunks@) + Seq::<Seq<char>>::empty());
    }
    chunks
}

/// Splits `text` into trimmed chunks of whole sentences of at most
/// `max_chars` bytes each (a longer sentence makes a chunk of its own).
pub fn chunk_text(text: &str, max_chars: usize) -> (r: Vec<String>)
    ensures
        views(r@) == sentence_chunks(unicode_sentences_of(text@), max_chars as int),
{
    let sentences = unicode_sentences(text);
    chunk_sentences(&sentences, max_chars)
}

/// Encodes `"<lang>: text"` into ByT5 token ids.
pub fn encode(lang: &str, text: &str) -> (ids: Vec<i64>)
    ensures
        ids@ == byte_tokens(encode_utf8(model_input(lang@, text@))),
{
    crate::tokenizer::encode(lang, text)
}

/// Decodes generated ids back to text, skipping the special tokens.
pub fn decode(token_ids: &[i64]) -> (s: String)
    ensures
        s@ == utf8_lossy(byte_ids(token_ids@).map_values(|t: i64| token_byte(t))),
{
    crate::tokenizer::decode(token_ids)
}

} // verus!
