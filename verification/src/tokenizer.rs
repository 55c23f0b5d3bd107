//! ByT5 tokenizer.
//! Token IDs: 0 = PAD, 1 = EOS, 2 = UNK, 3..258 = UTF-8 byte values 0..255.
use vstd::prelude::*;
use vstd::string::*;
use vstd::utf8::*;

verus! {

/// Padding token, the first input of the decoder.
pub const PAD_TOKEN_ID: i64 = 0;

/// End-of-sequence token: generation stops when the model emits it.
pub const EOS_TOKEN_ID: i64 = 1;

/// Largest number of tokens generated for one chunk.
pub const MAX_GENERATED_TOKENS: usize = 512;

/// The text the model reads: `"<lang>: text"`.
pub open spec fn model_input(lang: Seq<char>, text: Seq<char>) -> Seq<char> {
    "<"@ + lang + ">: "@ + text
}

/// Token ids of a byte sequence: each byte shifted past the special tokens.
pub open spec fn byte_tokens(bytes: Seq<u8>) -> Seq<i64> {
    bytes.map_values(|b: u8| (b as i64 + 3) as i64)
}

/// What `String::from_utf8_lossy` makes of a byte sequence that is not valid
/// UTF-8 (it puts replacement characters in place of the invalid parts).
pub uninterp spec fn lossy_replacement(bytes: Seq<u8>) -> Seq<char>;

/// The text `String::from_utf8_lossy` makes of `bytes`: valid UTF-8 decoded as
/// is, anything else as `lossy_replacement` names it.
pub open spec fn utf8_lossy(bytes: Seq<u8>) -> Seq<char> {
    if valid_utf8(bytes) {
        decode_utf8(bytes)
    } else {
        lossy_replacement(bytes)
    }
}

/// `String::from_utf8_lossy(bytes).into_owned()`. Its documentation states that
/// valid UTF-8 is decoded as is; how invalid sequences are replaced is left to
/// the name `lossy_replacement`.
#[verifier::external_body]
fn from_utf8_lossy(bytes: &[u8]) -> (s: String)
    ensures
        valid_utf8(bytes@) ==> s@ == decode_utf8(bytes@),
        !valid_utf8(bytes@) ==> s@ == lossy_replacement(bytes@),
{
    String::from_utf8_lossy(bytes).into_owned()
}

/// Builds the model text `"<lang>: text"`.
pub fn model_text(lang: &str, text: &str) -> (s: String)
    ensures
        s@ == model_input(lang@, text@),
{
    let mut s = String::from_str("<");
    s.append(lang);
    s.append(">: ");
    s.append(text);
    s
}

/// Encodes `"<lang>: text"` into ByT5 token ids.
pub fn encode(lang: &str, text: &str) -> (ids: Vec<i64>)
    ensures
        ids@ == byte_tokens(encode_utf8(model_input(lang@, text@))),
{
    let input = model_text(lang, text);
    let bytes = input.as_str().as_bytes();
    let mut ids: Vec<i64> = Vec::new();
    let mut i: usize = 0;
    while i < bytes.len()
        invariant
            i <= bytes@.len(),
            bytes@ == encode_utf8(input@),
            ids@ == byte_tokens(bytes@.take(i as int)),
        decreases bytes.len() - i,
    {
        ids.push(bytes[i] as i64 + 3);
        assert(byte_tokens(bytes@.take(i + 1)) =~= byte_tokens(bytes@.take(i as int)).push(
            (bytes@[i as int] as i64 + 3) as i64,
        ));
        i = i + 1;
    }
    assert(bytes@.take(bytes@.len() as int) =~= bytes@);
    ids
}

/// The number of generation steps allowed: `max_len` (512 where not given)
/// clamped to `1..=512`.
pub open spec fn step_limit(max_len: Option<usize>) -> int {
    let m = match max_len {
        Some(m) => m as int,
        None => MAX_GENERATED_TOKENS as int,
    };
    if m < 1 {
        1
    } else if m > MAX_GENERATED_TOKENS {
        MAX_GENERATED_TOKENS as int
    } else {
        m
    }
}

/// Greedy generation of one chunk's ids: the decoder reads the padding token
/// followed by the ids generated so far; generation ends at the
/// end-of-sequence token or after the step limit. The model, run outside,
/// picks each next id.
pub struct GreedyDecoder {
    decoder_ids: Vec<i64>,
    generated: Vec<i64>,
    steps_left: usize,
    ended: bool,
    limit: usize,
}

impl GreedyDecoder {
    /// The ids generated so far.
    pub closed spec fn spec_generated(&self) -> Seq<i64> {
        self.generated@
    }

    /// The number of steps still allowed.
    pub closed spec fn spec_steps_left(&self) -> int {
        self.steps_left as int
    }

    /// Whether the model has emitted the end-of-sequence token.
    pub closed spec fn spec_ended(&self) -> bool {
        self.ended
    }

    /// The step limit.
    pub closed spec fn spec_limit(&self) -> int {
        self.limit as int
    }

    /// The state's invariant.
    pub closed spec fn wf(&self) -> bool {
        &&& self.decoder_ids@ == seq![PAD_TOKEN_ID] + self.generated@
        &&& self.generated@.len() + self.steps_left == self.limit
        &&& 1 <= self.limit <= MAX_GENERATED_TOKENS
        &&& forall|k: int| 0 <= k < self.generated@.len() ==> self.generated@[k] != EOS_TOKEN_ID
    }

    /// Starts generation with at most `max_len` steps (512 where not given,
    /// clamped to `1..=512`).
    pub fn new(max_len: Option<usize>) -> (r: GreedyDecoder)
        ensures
            r.wf(),
            r.spec_generated() == Seq::<i64>::empty(),
            r.spec_steps_left() == step_limit(max_len),
            r.spec_limit() == step_limit(max_len),
            !r.spec_ended(),
    {
        let m = match max_len {
            Some(m) => m,
            None => MAX_GENERATED_TOKENS,
        };
        let limit = if m < 1 {
            1
        } else if m > MAX_GENERATED_TOKENS {
            MAX_GENERATED_TOKENS
        } else {
            m
        };
        let mut decoder_ids: Vec<i64> = Vec::new();
        decoder_ids.push(PAD_TOKEN_ID);
        let generated: Vec<i64> = Vec::new();
        assert(decoder_ids@ =~= seq![PAD_TOKEN_ID] + generated@);
        GreedyDecoder { decoder_ids, generated, steps_left: limit, ended: false, limit }
    }

    /// What the decoder reads at the next step: the padding token followed by
    /// the ids generated so far.
    pub fn decoder_input(&self) -> (r: &Vec<i64>)
        requires
            self.wf(),
        ensures
            r@ == seq![PAD_TOKEN_ID] + self.spec_generated(),
    {
        &self.decoder_ids
    }

    /// Whether generation is over: the end-of-sequence token came, or no step
    /// is left.
    pub fn is_finished(&self) -> (r: bool)
        ensures
            r == (self.spec_ended() || self.spec_steps_left() == 0),
    {
        self.ended || self.steps_left == 0
    }

    /// Takes the model's next id: the end-of-sequence token ends generation,
    /// any other id is appended and uses up a step.
    pub fn push_token(&mut self, next_token_id: i64)
        requires
            old(self).wf(),
            !old(self).spec_ended(),
            old(self).spec_steps_left() > 0,
        ensures
            final(self).wf(),
            final(self).spec_limit() == old(self).spec_limit(),
            next_token_id == EOS_TOKEN_ID ==> {
                &&& final(self).spec_ended()
                &&& final(self).spec_generated() == old(self).spec_generated()
                &&& final(self).spec_steps_left() == old(self).spec_steps_left()
            },
            next_token_id != EOS_TOKEN_ID ==> {
                &&& !final(self).spec_ended()
                &&& final(self).spec_generated() == old(self).spec_generated().push(next_token_id)
                &&& final(self).spec_steps_left() == old(self).spec_steps_left() - 1
            },
    {
        if next_token_id == EOS_TOKEN_ID {
            self.ended = true;
        } else {
            self.generated.push(next_token_id);
            self.decoder_ids.push(next_token_id);
            self.steps_left = self.steps_left - 1;
            assert(self.decoder_ids@ =~= seq![PAD_TOKEN_ID] + self.generated@);
        }
    }

    /// The ids generated so far.
    pub fn generated(&self) -> (r: &Vec<i64>)
        ensures
            r@ == self.spec_generated(),
    {
        &self.generated
    }
}

/// Generation never goes past its step limit, never keeps the
/// end-of-sequence token, and the decoder always reads the padding token
/// followed by what was generated.
pub proof fn law_greedy_decoder_bounds(d: GreedyDecoder)
    requires
        d.wf(),
    ensures
        d.spec_generated().len() <= d.spec_limit() <= MAX_GENERATED_TOKENS,
        d.spec_generated().len() + d.spec_steps_left() == d.spec_limit(),
        forall|k: int| 0 <= k < d.spec_generated().len() ==> d.spec_generated()[k] != EOS_TOKEN_ID,
{
}

/// The byte a token id stands for (ids are shifted by three, then truncated).
pub open spec fn token_byte(t: i64) -> u8 {
    (t - 3) as u8
}

/// The ids that stand for bytes (id 3 and above), in order.
pub open spec fn byte_ids(ids: Seq<i64>) -> Seq<i64> {
    ids.filter(|t: i64| t >= 3)
}

/// Decodes ByT5 token ids back to text. The special tokens (ids 0, 1 and 2)
/// stand for no byte and are skipped; every other id gives the byte it stands
/// for.
pub fn decode(token_ids: &[i64]) -> (s: String)
    ensures
        s@ == utf8_lossy(byte_ids(token_ids@).map_values(|t: i64| token_byte(t))),
{
    let mut bytes: Vec<u8> = Vec::new();
    let mut i: usize = 0;
    while i < token_ids.len()
        invariant
            i <= token_ids@.len(),
            bytes@ == byte_ids(token_ids@.take(i as int)).map_values(|t: i64| token_byte(t)),
        decreases token_ids.len() - i,
    {
        let t = token_ids[i];
        proof {
            reveal_with_fuel(Seq::filter, 1);
            assert(token_ids@.take(i + 1).drop_last() =~= token_ids@.take(i as int));
        }
        if t >= 3 {
            bytes.push((t - 3) as u8);
            assert(byte_ids(token_ids@.take(i + 1)).map_values(|t: i64| token_byte(t))
                =~= byte_ids(token_ids@.take(i as int)).map_values(|t: i64| token_byte(t)).push(
                token_byte(t),
            ));
        } else {
            assert(byte_ids(token_ids@.take(i + 1)) =~= byte_ids(token_ids@.take(i as int)));
        }
        i = i + 1;
    }
    assert(token_ids@.take(token_ids@.len() as int) =~= token_ids@);
    from_utf8_lossy(bytes.as_slice())
}

/// Shifting bytes into ids and back gives the bytes again.
proof fn lemma_byte_tokens_round_trip(bytes: Seq<u8>)
    ensures
        byte_tokens(bytes).map_values(|t: i64| token_byte(t)) == bytes,
        byte_ids(byte_tokens(bytes)) == byte_tokens(bytes),
        forall|k: int|
            0 <= k < byte_tokens(bytes).len() ==> #[trigger] byte_tokens(bytes)[k] >= 3,
{
    assert forall|k: int| 0 <= k < bytes.len() implies token_byte(
        #[trigger] byte_tokens(bytes)[k],
    ) == bytes[k] by {
        let b = bytes[k];
        assert(((b as i64 + 3) - 3) as u8 == b);
    }
    assert(byte_tokens(bytes).map_values(|t: i64| token_byte(t)) =~= bytes);
    let ids = byte_tokens(bytes);
    assert(forall|k: int| 0 <= k < ids.len() ==> ids[k] >= 3);
    lemma_byte_ids_keep_all(ids);
}

/// Filtering ids that are all at least three keeps them all.
proof fn lemma_byte_ids_keep_all(ids: Seq<i64>)
    requires
        forall|k: int| 0 <= k < ids.len() ==> ids[k] >= 3,
    ensures
        byte_ids(ids) == ids,
    decreases ids.len(),
{
    reveal_with_fuel(Seq::filter, 1);
    if ids.len() > 0 {
        lemma_byte_ids_keep_all(ids.drop_last());
        assert(ids.drop_last().push(ids.last()) =~= ids);
    }
}

/// Decoding the tokens of `"<lang>: text"` gives `"<lang>: text"` back: the
/// tokenizer loses nothing.
pub proof fn law_decode_encode(lang: Seq<char>, text: Seq<char>)
    ensures
        utf8_lossy(
            byte_ids(byte_tokens(encode_utf8(model_input(lang, text)))).map_values(
                |t: i64| token_byte(t),
            ),
        ) == model_input(lang, text),
{
    let bytes = encode_utf8(model_input(lang, text));
    lemma_byte_tokens_round_trip(bytes);
    encode_utf8_valid_utf8(model_input(lang, text));
    encode_utf8_decode_utf8(model_input(lang, text));
}

} // verus!
