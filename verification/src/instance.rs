//! The speech worker's text handling and decisions: phonemes are cut into
//! chunks for synthesis, and the player state decides what happens to each
//! task and chunk.
use vstd::prelude::*;

use crate::text::{
    chars_of, is_white_space, lemma_flatten_cons, lemma_trim_edges, lemma_trim_end_prefix, lemma_trim_keeps_visible,
    lemma_utf8_len_concat, trimmed_non_empty, trim,
    trim_bounds, trim_end, trim_end_len, trim_start, string_from_range, utf8_len, views, without_white_space,
};

verus! {

/// Largest chunk of phonemes, in bytes, that goes to synthesis at once.
pub const MAX_CHUNK_CHARS: usize = 80;

/// The pieces of `s[i..]` after splitting after every space
/// (`str::split_inclusive(' ')`), `cur` being the piece read so far.
pub open spec fn split_incl_from(s: Seq<char>, i: int, cur: Seq<char>) -> Seq<Seq<char>>
    decreases s.len() - i,
{
    if i >= s.len() || i < 0 {
        if cur.len() > 0 {
            seq![cur]
        } else {
            seq![]
        }
    } else if s[i] == ' ' {
        seq![cur.push(' ')] + split_incl_from(s, i + 1, seq![])
    } else {
        split_incl_from(s, i + 1, cur.push(s[i]))
    }
}

/// The pieces of `s`, each ending with a space except perhaps the last.
pub open spec fn split_after_spaces(s: Seq<char>) -> Seq<Seq<char>> {
    split_incl_from(s, 0, seq![])
}

/// Whether a piece, without its trailing white space, ends a sentence.
pub open spec fn ends_sentence(piece: Seq<char>) -> bool {
    let t = trim_end(piece);
    t.len() > 0 && (t.last() == '.' || t.last() == '!' || t.last() == '?')
}

/// Chunks of `pieces[i..]`, `cur` being the chunk being filled: a chunk is
/// closed after a piece that ends a sentence or once it reaches `max` bytes,
/// unless it is only white space; chunks are trimmed.
pub open spec fn chunk_pieces(pieces: Seq<Seq<char>>, i: int, cur: Seq<char>, max: int) -> Seq<Seq<char>>
    decreases pieces.len() - i,
{
    if i >= pieces.len() || i < 0 {
        if trim(cur).len() > 0 {
            seq![trim(cur)]
        } else {
            seq![]
        }
    } else {
        let next = cur + pieces[i];
        if (ends_sentence(pieces[i]) || utf8_len(next) >= max) && trim(next).len() > 0 {
            seq![trim(next)] + chunk_pieces(pieces, i + 1, seq![], max)
        } else {
            chunk_pieces(pieces, i + 1, next, max)
        }
    }
}

/// The chunks `text` is cut into for synthesis.
pub open spec fn speech_chunks(text: Seq<char>, max: int) -> Seq<Seq<char>> {
    chunk_pieces(split_after_spaces(text), 0, seq![], max)
}

/// Splits after every space.
fn split_after_space_chars(v: &Vec<char>) -> (r: Vec<Vec<char>>)
    ensures
        r@.map_values(|p: Vec<char>| p@) == split_after_spaces(v@),
{
    let mut r: Vec<Vec<char>> = Vec::new();
    let mut cur: Vec<char> = Vec::new();
    let mut i: usize = 0;
    while i < v.len()
        invariant
            i <= v.len(),
            r@.map_values(|p: Vec<char>| p@) + split_incl_from(v@, i as int, cur@) == split_after_spaces(v@),
        decreases v.len() - i,
    {
        let c = v[i];
        cur.push(c);
        if c == ' ' {
            let ghost before = r@.map_values(|p: Vec<char>| p@);
            r.push(cur);
            assert(r@.map_values(|p: Vec<char>| p@) =~= before.push(r@.last()@));
            cur = Vec::new();
            assert(cur@ =~= Seq::<char>::empty());
        }
        i = i + 1;
    }
    if cur.len() > 0 {
        let ghost before = r@.map_values(|p: Vec<char>| p@);
        r.push(cur);
        assert(r@.map_values(|p: Vec<char>| p@) =~= before.push(r@.last()@));
    } else {
        assert(r@.map_values(|p: Vec<char>| p@) =~= r@.map_values(|p: Vec<char>| p@) + Seq::<Seq<char>>::empty());
    }
    r
}

/// Cuts phonemes into trimmed chunks for synthesis: after a sentence's final
/// `.`, `!` or `?`, or once a chunk reaches `max_chars` bytes, cutting only
/// after spaces.
pub fn split_into_chunks(text: &str, max_chars: usize) -> (r: Vec<String>)
    ensures
        views(r@) == speech_chunks(text@, max_chars as int),
{
    let v = chars_of(text);
    let pieces = split_after_space_chars(&v);
    let ghost pv = pieces@.map_values(|p: Vec<char>| p@);
    let mut chunks: Vec<String> = Vec::new();
    let mut current: Vec<char> = Vec::new();
    let mut i: usize = 0;
    while i < pieces.len()
        invariant
            i <= pieces.len(),
            pv == pieces@.map_values(|p: Vec<char>| p@),
            pv == split_after_spaces(text@),
            views(chunks@) + chunk_pieces(pv, i as int, current@, max_chars as int) == speech_chunks(
                text@,
                max_chars as int,
            ),
        decreases pieces.len() - i,
    {
        let piece = &pieces[i];
        assert(piece@ == pv[i as int]);
        let ghost cur0 = current@;
        let mut k: usize = 0;
        while k < piece.len()
            invariant
                k <= piece@.len(),
                current@ == cur0 + piece@.take(k as int),
            decreases piece.len() - k,
        {
            current.push(piece[k]);
            assert(cur0 + piece@.take(k + 1) =~= (cur0 + piece@.take(k as int)).push(piece@[k as int]));
            k = k + 1;
        }
        assert(piece@.take(piece@.len() as int) =~= piece@);
        let n = trim_end_len(piece);
        let ends = n > 0 && (piece[n - 1] == '.' || piece[n - 1] == '!' || piece[n - 1] == '?');
        let long_enough = crate::text::utf8_len_of(&current) >= max_chars as u128;
        let (a, b) = trim_bounds(&current);
        if (ends || long_enough) && b > a {
            let ghost before = views(chunks@);
            chunks.push(string_from_range(&current, a, b));
            assert(views(chunks@) =~= before + seq![trim(current@)]);
            current = Vec::new();
            assert(current@ =~= Seq::<char>::empty());
        }
        i = i + 1;
    }
    let (a, b) = trim_bounds(&current);
    if b > a {
        let ghost before = views(chunks@);
        chunks.push(string_from_range(&current, a, b));
        assert(views(chunks@) =~= before + seq![trim(current@)]);
    } else {
        assert(views(chunks@) =~= views(chunks@) + Seq::<Seq<char>>::empty());
    }
    chunks
}

/// The chunks from piece `i` on are non-empty and start and end with
/// something other than white space.
proof fn lemma_chunk_pieces_trimmed(pieces: Seq<Seq<char>>, i: int, cur: Seq<char>, max: int)
    ensures
        forall|k: int|
            0 <= k < chunk_pieces(pieces, i, cur, max).len() ==> trimmed_non_empty(
                #[trigger] chunk_pieces(pieces, i, cur, max)[k],
            ),
    decreases pieces.len() - i,
{
    if i >= pieces.len() || i < 0 {
        lemma_trim_edges(cur);
        if trim(cur).len() > 0 {
            assert(chunk_pieces(pieces, i, cur, max) =~= seq![trim(cur)]);
        }
    } else {
        let next = cur + pieces[i];
        if (ends_sentence(pieces[i]) || utf8_len(next) >= max) && trim(next).len() > 0 {
            lemma_trim_edges(next);
            lemma_chunk_pieces_trimmed(pieces, i + 1, seq![], max);
            let rest = chunk_pieces(pieces, i + 1, seq![], max);
            assert forall|k: int| 0 <= k < chunk_pieces(pieces, i, cur, max).len() implies trimmed_non_empty(
                #[trigger] chunk_pieces(pieces, i, cur, max)[k],
            ) by {
                if k > 0 {
                    assert(chunk_pieces(pieces, i, cur, max)[k] == rest[k - 1]);
                }
            }
        } else {
            lemma_chunk_pieces_trimmed(pieces, i + 1, next, max);
            assert(chunk_pieces(pieces, i, cur, max) == chunk_pieces(pieces, i + 1, next, max));
        }
    }
}

/// Every chunk that goes to synthesis has text: none is empty, and none
/// starts or ends with white space.
pub proof fn law_speech_chunks_trimmed(text: Seq<char>, max: int)
    ensures
        forall|k: int|
            0 <= k < speech_chunks(text, max).len() ==> trimmed_non_empty(#[trigger] speech_chunks(text, max)[k]),
{
    lemma_chunk_pieces_trimmed(split_after_spaces(text), 0, seq![], max);
}

/// The pieces from index `i` on, put back together, are `cur` followed by
/// the rest of `s`.
proof fn lemma_split_incl_flatten(s: Seq<char>, i: int, cur: Seq<char>)
    requires
        0 <= i <= s.len(),
    ensures
        split_incl_from(s, i, cur).flatten() == cur + s.skip(i),
    decreases s.len() - i,
{
    if i >= s.len() {
        assert(s.skip(i) =~= Seq::<char>::empty());
        if cur.len() > 0 {
            lemma_flatten_cons(cur, Seq::<Seq<char>>::empty());
            assert(seq![cur] + Seq::<Seq<char>>::empty() =~= seq![cur]);
        }
        assert(cur + s.skip(i) =~= cur);
    } else if s[i] == ' ' {
        lemma_split_incl_flatten(s, i + 1, seq![]);
        lemma_flatten_cons(cur.push(' '), split_incl_from(s, i + 1, seq![]));
        assert(cur.push(' ') + (Seq::<char>::empty() + s.skip(i + 1)) =~= cur + s.skip(i));
    } else {
        lemma_split_incl_flatten(s, i + 1, cur.push(s[i]));
        assert(cur.push(s[i]) + s.skip(i + 1) =~= cur + s.skip(i));
    }
}

/// The chunks from piece `i` on hold the characters other than white space
/// of `cur` and of the pieces from `i` on, in order.
proof fn lemma_chunk_pieces_visible(pieces: Seq<Seq<char>>, i: int, cur: Seq<char>, max: int)
    requires
        0 <= i <= pieces.len(),
    ensures
        without_white_space(chunk_pieces(pieces, i, cur, max).flatten()) == without_white_space(
            cur + pieces.skip(i).flatten(),
        ),
    decreases pieces.len() - i,
{
    let pred = |c: char| !crate::text::is_white_space(c);
    lemma_trim_keeps_visible(cur);
    if i >= pieces.len() {
        assert(pieces.skip(i) =~= Seq::<Seq<char>>::empty());
        assert(cur + pieces.skip(i).flatten() =~= cur);
        if trim(cur).len() > 0 {
            lemma_flatten_cons(trim(cur), Seq::<Seq<char>>::empty());
            assert(seq![trim(cur)] + Seq::<Seq<char>>::empty() =~= seq![trim(cur)]);
            assert(trim(cur) + Seq::<Seq<char>>::empty().flatten() =~= trim(cur));
        } else {
            assert(trim(cur) =~= Seq::<char>::empty());
            reveal_with_fuel(Seq::filter, 1);
            assert(without_white_space(Seq::<char>::empty()) =~= Seq::<char>::empty());
        }
    } else {
        let next = cur + pieces[i];
        let rest_pieces = pieces.skip(i + 1).flatten();
        assert(pieces.skip(i).first() == pieces[i]);
        assert(pieces.skip(i).drop_first() =~= pieces.skip(i + 1));
        assert(cur + pieces.skip(i).flatten() =~= next + rest_pieces);
        Seq::filter_distributes_over_add(next, rest_pieces, pred);
        if (ends_sentence(pieces[i]) || utf8_len(next) >= max) && trim(next).len() > 0 {
            lemma_chunk_pieces_visible(pieces, i + 1, seq![], max);
            let rest = chunk_pieces(pieces, i + 1, seq![], max);
            lemma_flatten_cons(trim(next), rest);
            Seq::filter_distributes_over_add(trim(next), rest.flatten(), pred);
            lemma_trim_keeps_visible(next);
            assert(Seq::<char>::empty() + rest_pieces =~= rest_pieces);
        } else {
            lemma_chunk_pieces_visible(pieces, i + 1, next, max);
        }
    }
}

/// Cutting phonemes into chunks loses nothing but white space: the chunks,
/// one after the other, hold the characters of the text other than white
/// space, all of them and in the same order.
pub proof fn law_speech_chunks_keep_text(text: Seq<char>, max: int)
    ensures
        without_white_space(speech_chunks(text, max).flatten()) == without_white_space(text),
{
    let pieces = split_after_spaces(text);
    lemma_split_incl_flatten(text, 0, seq![]);
    assert(text.skip(0) =~= text);
    assert(pieces.skip(0) =~= pieces);
    lemma_chunk_pieces_visible(pieces, 0, seq![], max);
    assert(Seq::<char>::empty() + pieces.flatten() =~= pieces.flatten());
    assert(Seq::<char>::empty() + text =~= text);
}

/// Whether `c` ends a sentence: `.`, `!` or `?`.
pub open spec fn is_sentence_mark(c: char) -> bool {
    c == '.' || c == '!' || c == '?'
}

/// Whether no character of `x` ends a sentence.
pub open spec fn no_sentence_mark(x: Seq<char>) -> bool {
    forall|j: int| 0 <= j < x.len() ==> !is_sentence_mark(#[trigger] x[j])
}

/// The one chunk a text makes when it is not cut: the trimmed text, or no
/// chunk where it is only white space.
pub open spec fn single_chunk(x: Seq<char>) -> Seq<Seq<char>> {
    if trim(x).len() > 0 {
        seq![trim(x)]
    } else {
        seq![]
    }
}

/// Every piece but the last holds no sentence mark, given that `cur` holds
/// none and neither does `s[i..]` short of its last character.
proof fn lemma_split_incl_no_mark(s: Seq<char>, i: int, cur: Seq<char>)
    requires
        0 <= i <= s.len(),
        no_sentence_mark(cur),
        forall|j: int| i <= j < s.len() - 1 ==> !is_sentence_mark(#[trigger] s[j]),
    ensures
        forall|k: int|
            0 <= k < split_incl_from(s, i, cur).len() - 1 ==> no_sentence_mark(
                #[trigger] split_incl_from(s, i, cur)[k],
            ),
    decreases s.len() - i,
{
    if i < s.len() {
        if s[i] == ' ' {
            lemma_split_incl_no_mark(s, i + 1, seq![]);
            let rest = split_incl_from(s, i + 1, seq![]);
            let all = split_incl_from(s, i, cur);
            assert(all == seq![cur.push(' ')] + rest);
            assert forall|k: int| 0 <= k < all.len() - 1 implies no_sentence_mark(#[trigger] all[k]) by {
                if k == 0 {
                    assert(all[0] == cur.push(' '));
                    assert forall|j: int| 0 <= j < all[0].len() implies !is_sentence_mark(#[trigger] all[0][j]) by {
                        if j < cur.len() {
                            assert(all[0][j] == cur[j]);
                        }
                    }
                } else {
                    assert(all[k] == rest[k - 1]);
                }
            }
        } else if i < s.len() - 1 {
            let c2 = cur.push(s[i]);
            assert forall|j: int| 0 <= j < c2.len() implies !is_sentence_mark(#[trigger] c2[j]) by {
                if j < cur.len() {
                    assert(c2[j] == cur[j]);
                }
            }
            lemma_split_incl_no_mark(s, i + 1, c2);
            assert(split_incl_from(s, i, cur) == split_incl_from(s, i + 1, c2));
        } else {
            assert(split_incl_from(s, i + 1, cur.push(s[i])) =~= seq![cur.push(s[i])]);
            assert(split_incl_from(s, i, cur) == split_incl_from(s, i + 1, cur.push(s[i])));
            assert(split_incl_from(s, i, cur).len() == 1);
        }
    } else {
        assert(split_incl_from(s, i, cur).len() <= 1);
    }
}

/// A piece without sentence marks does not end a sentence.
proof fn lemma_no_mark_no_end(p: Seq<char>)
    requires
        no_sentence_mark(p),
    ensures
        !ends_sentence(p),
{
    lemma_trim_end_prefix(p);
    let t = trim_end(p);
    if t.len() > 0 {
        assert(t.last() == p[t.len() - 1]);
    }
}

/// Pieces that end no sentence before the last, and that are shorter than
/// `max` altogether with `cur`, make one chunk.
proof fn lemma_chunk_pieces_uncut(pieces: Seq<Seq<char>>, i: int, cur: Seq<char>, max: int)
    requires
        0 <= i <= pieces.len(),
        forall|k: int| i <= k < pieces.len() - 1 ==> !ends_sentence(#[trigger] pieces[k]),
        utf8_len(cur + pieces.skip(i).flatten()) < max,
    ensures
        chunk_pieces(pieces, i, cur, max) == single_chunk(cur + pieces.skip(i).flatten()),
    decreases pieces.len() - i,
{
    if i >= pieces.len() {
        assert(pieces.skip(i) =~= Seq::<Seq<char>>::empty());
        assert(cur + pieces.skip(i).flatten() =~= cur);
    } else {
        let next = cur + pieces[i];
        let rest = pieces.skip(i + 1).flatten();
        assert(pieces.skip(i).first() == pieces[i]);
        assert(pieces.skip(i).drop_first() =~= pieces.skip(i + 1));
        assert(cur + pieces.skip(i).flatten() =~= next + rest);
        lemma_utf8_len_concat(next, rest);
        if i == pieces.len() - 1 {
            assert(pieces.skip(i + 1) =~= Seq::<Seq<char>>::empty());
            assert(next + rest =~= next);
            if ends_sentence(pieces[i]) && trim(next).len() > 0 {
                lemma_chunk_pieces_uncut(pieces, i + 1, seq![], max);
                assert(trim(Seq::<char>::empty()) =~= Seq::<char>::empty());
                assert(Seq::<char>::empty() + pieces.skip(i + 1).flatten() =~= Seq::<char>::empty());
                assert(chunk_pieces(pieces, i, cur, max) =~= seq![trim(next)] + Seq::<Seq<char>>::empty());
            } else {
                lemma_chunk_pieces_uncut(pieces, i + 1, next, max);
                assert(next + pieces.skip(i + 1).flatten() =~= next);
            }
        } else {
            lemma_chunk_pieces_uncut(pieces, i + 1, next, max);
        }
    }
}

/// A chunk is cut only at a sentence end or once it reaches `max` bytes: a
/// text shorter than `max` bytes whose `.`, `!` and `?` (if any) stand only
/// at its very end is spoken as one chunk, the trimmed text (none where the
/// text is only white space).
pub proof fn law_short_sentence_is_one_chunk(text: Seq<char>, max: int)
    requires
        utf8_len(text) < max,
        forall|j: int| 0 <= j < text.len() - 1 ==> !is_sentence_mark(#[trigger] text[j]),
    ensures
        speech_chunks(text, max) == single_chunk(text),
{
    let pieces = split_after_spaces(text);
    lemma_split_incl_no_mark(text, 0, seq![]);
    assert forall|k: int| 0 <= k < pieces.len() - 1 implies !ends_sentence(#[trigger] pieces[k]) by {
        lemma_no_mark_no_end(pieces[k]);
    }
    lemma_split_incl_flatten(text, 0, seq![]);
    assert(text.skip(0) =~= text);
    assert(pieces.skip(0) =~= pieces);
    assert(Seq::<char>::empty() + pieces.flatten() =~= text);
    lemma_chunk_pieces_uncut(pieces, 0, seq![], max);
}

/// Splitting from a position past `a` splits what follows `a`.
proof fn lemma_split_incl_shift(a: Seq<char>, b: Seq<char>, j: int, cur: Seq<char>)
    requires
        0 <= j <= b.len(),
    ensures
        split_incl_from(a + b, a.len() + j, cur) == split_incl_from(b, j, cur),
    decreases b.len() - j,
{
    if j < b.len() {
        assert((a + b)[a.len() + j] == b[j]);
        if b[j] == ' ' {
            lemma_split_incl_shift(a, b, j + 1, seq![]);
        } else {
            lemma_split_incl_shift(a, b, j + 1, cur.push(b[j]));
        }
    }
}

/// A word without spaces followed by a space is one piece.
proof fn lemma_split_word_then_space(x: Seq<char>, y: Seq<char>, i: int)
    requires
        0 <= i <= x.len(),
        forall|k: int| 0 <= k < x.len() ==> #[trigger] x[k] != ' ',
    ensures
        split_incl_from(x + " "@ + y, i, x.take(i)) == seq![x + " "@] + split_incl_from(y, 0, seq![]),
    decreases x.len() - i,
{
    reveal_strlit(" ");
    let s = x + " "@ + y;
    if i < x.len() {
        assert(s[i] == x[i]);
        assert(x.take(i).push(x[i]) =~= x.take(i + 1));
        lemma_split_word_then_space(x, y, i + 1);
    } else {
        assert(s[i] == ' ');
        assert(x.take(i).push(' ') =~= x + " "@);
        assert(s =~= (x + " "@) + y);
        lemma_split_incl_shift(x + " "@, y, 0, seq![]);
    }
}

/// Cutting from a piece past `q` cuts what follows `q`.
proof fn lemma_chunk_pieces_shift(q: Seq<Seq<char>>, p: Seq<Seq<char>>, j: int, cur: Seq<char>, max: int)
    requires
        0 <= j <= p.len(),
    ensures
        chunk_pieces(q + p, q.len() + j, cur, max) == chunk_pieces(p, j, cur, max),
    decreases p.len() - j,
{
    if j < p.len() {
        assert((q + p)[q.len() + j] == p[j]);
        let next = cur + p[j];
        lemma_chunk_pieces_shift(q, p, j + 1, seq![], max);
        lemma_chunk_pieces_shift(q, p, j + 1, next, max);
    }
}

/// Trailing text after a non-white-space character survives `trim_start`.
proof fn lemma_trim_start_append(x: Seq<char>, z: Seq<char>)
    requires
        x.len() > 0,
        !is_white_space(x.last()),
    ensures
        trim_start(x + z) == trim_start(x) + z,
        trim_start(x).len() > 0,
        trim_start(x).last() == x.last(),
    decreases x.len(),
{
    if is_white_space(x[0]) {
        assert(x.len() > 1);
        assert((x + z).drop_first() =~= x.drop_first() + z);
        assert(x.drop_first().last() == x.last());
        lemma_trim_start_append(x.drop_first(), z);
    } else {
        assert((x + z)[0] == x[0]);
    }
}

/// A word without spaces that ends with `.`, `!` or `?`, followed by a
/// space, ends its chunk there: the text after it is cut as on its own.
pub proof fn law_sentence_end_closes_chunk(x: Seq<char>, y: Seq<char>, max: int)
    requires
        x.len() > 0,
        is_sentence_mark(x.last()),
        forall|k: int| 0 <= k < x.len() ==> #[trigger] x[k] != ' ',
    ensures
        speech_chunks(x + " "@ + y, max) == seq![trim(x)] + speech_chunks(y, max),
{
    reveal_strlit(" ");
    let piece = x + " "@;
    let py = split_after_spaces(y);
    assert(x.take(0) =~= Seq::<char>::empty());
    lemma_split_word_then_space(x, y, 0);
    let pieces = seq![piece] + py;
    assert(split_after_spaces(x + " "@ + y) == pieces);
    // the piece ends a sentence, and trims to the trimmed word
    assert(!is_white_space(x.last()));
    assert(piece.drop_last() =~= x);
    assert(trim_end(piece) == trim_end(x));
    assert(trim_end(x) == x);
    assert(ends_sentence(piece));
    lemma_trim_start_append(x, " "@);
    let ts = trim_start(x);
    assert((ts + " "@).drop_last() =~= ts);
    assert(trim(piece) == trim(x));
    assert(Seq::<char>::empty() + piece =~= piece);
    assert(pieces[0] == piece);
    assert(trim_end(ts) == ts);
    assert(trim(x).len() > 0);
    lemma_chunk_pieces_shift(seq![piece], py, 0, seq![], max);
}

/// Playback state of a speaking instance.
#[derive(PartialEq, Eq, Structural, Clone, Copy, Debug)]
pub enum InstanceState {
    Play,
    Pause,
    Stop,
}

impl InstanceState {
    /// The state's code, as kept in the shared atomic: 1, 2, 3.
    pub open spec fn spec_code(self) -> u8 {
        match self {
            InstanceState::Play => 1,
            InstanceState::Pause => 2,
            InstanceState::Stop => 3,
        }
    }

    /// The state's code, as kept in the shared atomic.
    pub fn code(&self) -> (c: u8)
        ensures
            c == self.spec_code(),
    {
        match self {
            InstanceState::Play => 1,
            InstanceState::Pause => 2,
            InstanceState::Stop => 3,
        }
    }

    /// The state a code stands for, if any.
    pub fn from_code(c: u8) -> (r: Option<InstanceState>)
        ensures
            match r {
                Some(s) => s.spec_code() == c,
                None => c != 1 && c != 2 && c != 3,
            },
    {
        if c == 1 {
            Some(InstanceState::Play)
        } else if c == 2 {
            Some(InstanceState::Pause)
        } else if c == 3 {
            Some(InstanceState::Stop)
        } else {
            None
        }
    }
}

/// Distinct states have distinct codes, so the state read back from the
/// shared code is the state stored.
pub proof fn law_state_code_round_trip(s: InstanceState, t: InstanceState)
    ensures
        s.spec_code() == t.spec_code() ==> s == t,
{
}

/// What the worker does with a speech task or a synthesized chunk.
#[derive(PartialEq, Eq, Structural, Clone, Copy, Debug)]
pub enum WorkerAction {
    /// Go on with it.
    Proceed,
    /// Yield the thread once, then go on with it.
    YieldThenProceed,
    /// Drop it (a task), or stop speaking the task (a chunk).
    Halt,
}

/// The action for a state code: stopped halts, paused yields once and goes
/// on, anything else goes on.
pub open spec fn action_for(state_code: u8) -> WorkerAction {
    if state_code == 3 {
        WorkerAction::Halt
    } else if state_code == 2 {
        WorkerAction::YieldThenProceed
    } else {
        WorkerAction::Proceed
    }
}

/// What to do with a speech task taken from the queue, or with a chunk
/// just synthesized, given the state: a stopped instance drops the task
/// (reporting no completion for it) or plays no more of its chunks (its
/// completion is still reported); a paused one yields once and goes on.
pub fn worker_action(state_code: u8) -> (a: WorkerAction)
    ensures
        a == action_for(state_code),
{
    if state_code == 3 {
        WorkerAction::Halt
    } else if state_code == 2 {
        WorkerAction::YieldThenProceed
    } else {
        WorkerAction::Proceed
    }
}

/// What speaking one task's phonemes needs next from the worker.
#[derive(PartialEq, Eq, Structural, Clone, Copy, Debug)]
pub enum SpeechRequest {
    /// Synthesize the chunk with this index and answer with `synthesized`.
    Synthesize(usize),
    /// Mark the end of the task's speech for this port and answer with
    /// `end_marked`.
    MarkEnd(i64),
    /// Nothing is left to do for the task.
    Finished,
}

/// What the worker does with a chunk once its synthesis has been tried.
#[derive(PartialEq, Eq, Structural, Clone, Copy, Debug)]
pub enum ChunkAction {
    /// Synthesis failed: the chunk is left out.
    Skip,
    /// Play the chunk's samples.
    Play,
    /// Yield the thread once, then play the chunk's samples.
    YieldThenPlay,
    /// Stop: nothing more of the speech is played.
    StopPlaying,
}

/// Speaking one task: its phonemes are cut into chunks, each chunk is
/// synthesized and played in order (a chunk whose synthesis fails is left
/// out, and nothing more is played once the instance is stopped), and then
/// the end of the task's speech is marked once.
pub struct SpeechJob {
    chunks: Vec<String>,
    port: i64,
    next: usize,
    halted: bool,
    marked: bool,
    played: Ghost<Seq<int>>,
}

impl SpeechJob {
    /// The chunks of the task, in order.
    pub closed spec fn chunks(&self) -> Seq<Seq<char>> {
        views(self.chunks@)
    }

    /// The port whose speech end is marked.
    pub closed spec fn port(&self) -> i64 {
        self.port
    }

    /// The index of the next chunk to synthesize.
    pub closed spec fn next(&self) -> int {
        self.next as int
    }

    /// Whether the instance was seen stopped.
    pub closed spec fn halted(&self) -> bool {
        self.halted
    }

    /// Whether the end of speech has been marked.
    pub closed spec fn marked(&self) -> bool {
        self.marked
    }

    /// The indices of the chunks handed to playback so far, in order.
    pub closed spec fn played(&self) -> Seq<int> {
        self.played@
    }

    /// What the job asks for next.
    pub open spec fn spec_request(&self) -> SpeechRequest {
        if !self.halted() && self.next() < self.chunks().len() {
            SpeechRequest::Synthesize(self.next() as usize)
        } else if !self.marked() {
            SpeechRequest::MarkEnd(self.port())
        } else {
            SpeechRequest::Finished
        }
    }

    /// The job's invariant: chunks are taken in order, the played ones are
    /// among those already taken, in increasing order, and the end is marked
    /// only after the last chunk or a stop.
    pub closed spec fn wf(&self) -> bool {
        &&& self.next <= self.chunks@.len()
        &&& forall|i: int, k: int| 0 <= i < k < self.played@.len() ==> self.played@[i] < self.played@[k]
        &&& forall|k: int| 0 <= k < self.played@.len() ==> 0 <= #[trigger] self.played@[k] < self.next
        &&& self.marked ==> self.halted || self.next == self.chunks@.len()
    }

    /// Starts speaking `phonemes` for `port`, cut into chunks of about
    /// `max_chars` bytes.
    pub fn new(phonemes: &str, max_chars: usize, port: i64) -> (r: SpeechJob)
        ensures
            r.wf(),
            r.chunks() == speech_chunks(phonemes@, max_chars as int),
            r.port() == port,
            r.next() == 0,
            !r.halted(),
            !r.marked(),
            r.played() == Seq::<int>::empty(),
    {
        let chunks = split_into_chunks(phonemes, max_chars);
        SpeechJob { chunks, port, next: 0, halted: false, marked: false, played: Ghost(Seq::empty()) }
    }

    /// The chunk with index `i`.
    pub fn chunk(&self, i: usize) -> (r: &String)
        requires
            i < self.chunks().len(),
        ensures
            r@ == self.chunks()[i as int],
    {
        &self.chunks[i]
    }

    /// What the job asks for next.
    pub fn request(&self) -> (r: SpeechRequest)
        ensures
            r == self.spec_request(),
    {
        if !self.halted && self.next < self.chunks.len() {
            SpeechRequest::Synthesize(self.next)
        } else if !self.marked {
            SpeechRequest::MarkEnd(self.port)
        } else {
            SpeechRequest::Finished
        }
    }

    /// Takes the outcome of synthesizing the requested chunk (whether it
    /// succeeded) and the player state read after it, and says what to do
    /// with the chunk.
    pub fn synthesized(&mut self, succeeded: bool, state_code: u8) -> (a: ChunkAction)
        requires
            old(self).wf(),
            old(self).spec_request() is Synthesize,
        ensures
            final(self).wf(),
            final(self).chunks() == old(self).chunks(),
            final(self).port() == old(self).port(),
            !final(self).marked(),
            a == (if !succeeded {
                ChunkAction::Skip
            } else {
                match action_for(state_code) {
                    WorkerAction::Halt => ChunkAction::StopPlaying,
                    WorkerAction::YieldThenProceed => ChunkAction::YieldThenPlay,
                    WorkerAction::Proceed => ChunkAction::Play,
                }
            }),
            a == ChunkAction::StopPlaying ==> {
                &&& final(self).halted()
                &&& final(self).next() == old(self).next()
                &&& final(self).played() == old(self).played()
            },
            a == ChunkAction::Skip ==> {
                &&& !final(self).halted()
                &&& final(self).next() == old(self).next() + 1
                &&& final(self).played() == old(self).played()
            },
            (a == ChunkAction::Play || a == ChunkAction::YieldThenPlay) ==> {
                &&& !final(self).halted()
                &&& final(self).next() == old(self).next() + 1
                &&& final(self).played() == old(self).played().push(old(self).next())
            },
    {
        let n = self.chunks.len();
        assert(views(self.chunks@).len() == self.chunks@.len());
        assert(self.next < n);
        if !succeeded {
            self.next = self.next + 1;
            return ChunkAction::Skip;
        }
        match worker_action(state_code) {
            WorkerAction::Halt => {
                self.halted = true;
                ChunkAction::StopPlaying
            },
            WorkerAction::YieldThenProceed => {
                proof {
                    self.played@ = self.played@.push(self.next as int);
                }
                self.next = self.next + 1;
                ChunkAction::YieldThenPlay
            },
            WorkerAction::Proceed => {
                proof {
                    self.played@ = self.played@.push(self.next as int);
                }
                self.next = self.next + 1;
                ChunkAction::Play
            },
        }
    }

    /// Records that the end of speech was marked.
    pub fn end_marked(&mut self)
        requires
            old(self).wf(),
            old(self).spec_request() is MarkEnd,
        ensures
            final(self).wf(),
            final(self).marked(),
            final(self).chunks() == old(self).chunks(),
            final(self).port() == old(self).port(),
            final(self).next() == old(self).next(),
            final(self).halted() == old(self).halted(),
            final(self).played() == old(self).played(),
            final(self).spec_request() == SpeechRequest::Finished,
    {
        self.marked = true;
    }
}

/// Speaking a task plays its chunks in order, each at most once, plays none
/// after the instance is seen stopped, and marks the end of speech once: the
/// end is asked for only after the last chunk or a stop, and once it is
/// marked nothing more is asked.
pub proof fn law_speech_job_order(j: SpeechJob)
    requires
        j.wf(),
    ensures
        forall|i: int, k: int| 0 <= i < k < j.played().len() ==> j.played()[i] < j.played()[k],
        forall|k: int| 0 <= k < j.played().len() ==> 0 <= #[trigger] j.played()[k] < j.chunks().len(),
        j.halted() ==> !(j.spec_request() is Synthesize),
        j.spec_request() is MarkEnd ==> j.halted() || j.next() == j.chunks().len(),
        j.marked() ==> j.spec_request() == SpeechRequest::Finished,
{
}

} // verus!
