//! Character-level text utilities shared by the tokenizers and chunkers:
//! Unicode white space, trimming, UTF-8 byte lengths and string building.
use vstd::prelude::*;
use vstd::string::*;
use vstd::utf8::*;

verus! {

broadcast use vstd::utf8::char_is_scalar;

/// Unicode `White_Space` property, the notion of white space that `str::trim`,
/// `char::is_whitespace` and `str::split_whitespace` use.
pub open spec fn is_white_space(c: char) -> bool {
    let v = c as u32;
    ||| 0x9 <= v <= 0xD
    ||| v == 0x20
    ||| v == 0x85
    ||| v == 0xA0
    ||| v == 0x1680
    ||| 0x2000 <= v <= 0x200A
    ||| v == 0x2028
    ||| v == 0x2029
    ||| v == 0x202F
    ||| v == 0x205F
    ||| v == 0x3000
}

/// Whether `c` is white space (the Unicode `White_Space` property).
pub fn is_whitespace(c: char) -> (b: bool)
    ensures
        b == is_white_space(c),
{
    let v = c as u32;
    (0x9 <= v && v <= 0xD) || v == 0x20 || v == 0x85 || v == 0xA0 || v == 0x1680 || (0x2000 <= v
        && v <= 0x200A) || v == 0x2028 || v == 0x2029 || v == 0x202F || v == 0x205F || v == 0x3000
}

/// ASCII punctuation: the printable ASCII characters that are neither letters,
/// digits nor space (`char::is_ascii_punctuation`).
pub open spec fn is_ascii_punct(c: char) -> bool {
    let v = c as u32;
    ||| 0x21 <= v <= 0x2F
    ||| 0x3A <= v <= 0x40
    ||| 0x5B <= v <= 0x60
    ||| 0x7B <= v <= 0x7E
}

/// Whether `c` is ASCII punctuation.
pub fn is_ascii_punctuation(c: char) -> (b: bool)
    ensures
        b == is_ascii_punct(c),
{
    let v = c as u32;
    (0x21 <= v && v <= 0x2F) || (0x3A <= v && v <= 0x40) || (0x5B <= v && v <= 0x60) || (0x7B <= v
        && v <= 0x7E)
}

/// `s` without its leading white space.
pub open spec fn trim_start(s: Seq<char>) -> Seq<char>
    decreases s.len(),
{
    if s.len() > 0 && is_white_space(s[0]) {
        trim_start(s.drop_first())
    } else {
        s
    }
}

/// `s` without its trailing white space.
pub open spec fn trim_end(s: Seq<char>) -> Seq<char>
    decreases s.len(),
{
    if s.len() > 0 && is_white_space(s.last()) {
        trim_end(s.drop_last())
    } else {
        s
    }
}

/// `s` without leading and trailing white space (`str::trim`).
pub open spec fn trim(s: Seq<char>) -> Seq<char> {
    trim_end(trim_start(s))
}

/// The characters of `s` other than white space, in order.
pub open spec fn without_white_space(s: Seq<char>) -> Seq<char> {
    s.filter(|c: char| !is_white_space(c))
}

/// Flattening a sequence that starts with `x` gives `x` followed by the
/// flattened rest.
pub proof fn lemma_flatten_cons(x: Seq<char>, rest: Seq<Seq<char>>)
    ensures
        (seq![x] + rest).flatten() == x + rest.flatten(),
{
    let l = seq![x] + rest;
    assert(l.first() == x);
    assert(l.drop_first() =~= rest);
}

/// Trimming removes only white space.
pub proof fn lemma_trim_keeps_visible(x: Seq<char>)
    ensures
        without_white_space(trim(x)) == without_white_space(x),
{
    lemma_trim_start_keeps_visible(x);
    lemma_trim_end_keeps_visible(trim_start(x));
}

/// Leading white space holds nothing else.
proof fn lemma_trim_start_keeps_visible(x: Seq<char>)
    ensures
        without_white_space(trim_start(x)) == without_white_space(x),
    decreases x.len(),
{
    if x.len() > 0 && is_white_space(x[0]) {
        lemma_trim_start_keeps_visible(x.drop_first());
        let head = seq![x[0]];
        assert(head + x.drop_first() =~= x);
        Seq::filter_distributes_over_add(head, x.drop_first(), |c: char| !is_white_space(c));
        reveal_with_fuel(Seq::filter, 2);
        assert(without_white_space(head) =~= Seq::<char>::empty());
        assert(without_white_space(head) + without_white_space(x.drop_first()) =~= without_white_space(
            x.drop_first(),
        ));
    }
}

/// Trailing white space holds nothing else.
proof fn lemma_trim_end_keeps_visible(x: Seq<char>)
    ensures
        without_white_space(trim_end(x)) == without_white_space(x),
    decreases x.len(),
{
    if x.len() > 0 && is_white_space(x.last()) {
        lemma_trim_end_keeps_visible(x.drop_last());
        let tail = seq![x.last()];
        assert(x.drop_last() + tail =~= x);
        Seq::filter_distributes_over_add(x.drop_last(), tail, |c: char| !is_white_space(c));
        reveal_with_fuel(Seq::filter, 2);
        assert(without_white_space(tail) =~= Seq::<char>::empty());
        assert(without_white_space(x.drop_last()) + without_white_space(tail) =~= without_white_space(
            x.drop_last(),
        ));
    }
}

/// A non-empty text that neither starts nor ends with white space.
pub open spec fn trimmed_non_empty(s: Seq<char>) -> bool {
    s.len() > 0 && !is_white_space(s[0]) && !is_white_space(s.last())
}

/// What `trim_start` leaves does not start with white space.
pub proof fn lemma_trim_start_first(s: Seq<char>)
    ensures
        trim_start(s).len() > 0 ==> !is_white_space(trim_start(s)[0]),
    decreases s.len(),
{
    if s.len() > 0 && is_white_space(s[0]) {
        lemma_trim_start_first(s.drop_first());
    }
}

/// What `trim_end` leaves is a prefix that does not end with white space.
pub proof fn lemma_trim_end_prefix(s: Seq<char>)
    ensures
        trim_end(s).len() <= s.len(),
        trim_end(s) == s.take(trim_end(s).len() as int),
        trim_end(s).len() > 0 ==> !is_white_space(trim_end(s).last()),
    decreases s.len(),
{
    if s.len() > 0 && is_white_space(s.last()) {
        lemma_trim_end_prefix(s.drop_last());
        assert(s.drop_last().take(trim_end(s).len() as int) =~= s.take(trim_end(s).len() as int));
    } else {
        assert(s.take(s.len() as int) =~= s);
    }
}

/// What `trim_start` leaves is a suffix.
pub proof fn lemma_trim_start_suffix(s: Seq<char>)
    ensures
        trim_start(s).len() <= s.len(),
        trim_start(s) == s.skip(s.len() - trim_start(s).len()),
    decreases s.len(),
{
    if s.len() > 0 && is_white_space(s[0]) {
        lemma_trim_start_suffix(s.drop_first());
        assert(s.drop_first().skip(s.drop_first().len() - trim_start(s).len()) =~= s.skip(
            s.len() - trim_start(s).len(),
        ));
    } else {
        assert(s.skip(0) =~= s);
    }
}

/// Trimming a text that ends with white space removes at least one byte.
pub proof fn lemma_trim_shortens(x: Seq<char>)
    requires
        x.len() > 0,
        is_white_space(x.last()),
    ensures
        utf8_len(trim(x)) + 1 <= utf8_len(x),
{
    let y = trim_start(x);
    lemma_trim_start_suffix(x);
    let k = x.len() - y.len();
    assert(x =~= x.take(k) + x.skip(k));
    lemma_utf8_len_concat(x.take(k), x.skip(k));
    lemma_trim_end_prefix(y);
    if y.len() > 0 {
        assert(y.last() == x.last());
        let j = trim_end(y).len() as int;
        if j == y.len() {
            assert(trim_end(y) == y);
            assert(false);
        }
        lemma_utf8_len_prefix_mono(y, j, y.len() as int);
        assert(y.take(y.len() as int) =~= y);
    } else {
        assert(trim(x) =~= Seq::<char>::empty());
        assert(x =~= x.take(x.len() - 1).push(x.last()));
        lemma_utf8_len_push(x.take(x.len() - 1), x.last());
    }
}

/// What `trim` leaves, if anything, neither starts nor ends with white space.
pub proof fn lemma_trim_edges(s: Seq<char>)
    ensures
        trim(s).len() > 0 ==> trimmed_non_empty(trim(s)),
{
    lemma_trim_start_first(s);
    lemma_trim_end_prefix(trim_start(s));
    if trim(s).len() > 0 {
        assert(trim(s)[0] == trim_start(s)[0]);
    }
}

/// Number of bytes of the UTF-8 encoding of `s` (what `str::len` returns).
pub open spec fn utf8_len(s: Seq<char>) -> nat {
    encode_utf8(s).len()
}

/// Number of bytes of the UTF-8 encoding of one character.
pub open spec fn char_utf8_len(c: char) -> nat {
    encode_scalar(c as u32).len()
}

/// The encoding of a concatenation is the concatenation of the encodings.
pub proof fn lemma_encode_utf8_concat(a: Seq<char>, b: Seq<char>)
    ensures
        encode_utf8(a + b) == encode_utf8(a) + encode_utf8(b),
    decreases a.len(),
{
    if a.len() == 0 {
        assert(a + b =~= b);
        assert(encode_utf8(a) + encode_utf8(b) =~= encode_utf8(b));
    } else {
        assert((a + b).drop_first() =~= a.drop_first() + b);
        lemma_encode_utf8_concat(a.drop_first(), b);
        assert(encode_utf8(a + b) =~= encode_utf8(a) + encode_utf8(b));
    }
}

/// The encoding of a single character.
pub proof fn lemma_encode_utf8_single(c: char)
    ensures
        encode_utf8(seq![c]) == encode_scalar(c as u32),
        1 <= char_utf8_len(c) <= 4,
{
    assert(seq![c].drop_first() =~= Seq::<char>::empty());
    assert(encode_utf8(seq![c]) =~= encode_scalar(c as u32) + encode_utf8(Seq::<char>::empty()));
}

/// Byte length of `s` followed by `c`.
pub proof fn lemma_utf8_len_push(s: Seq<char>, c: char)
    ensures
        utf8_len(s.push(c)) == utf8_len(s) + char_utf8_len(c),
        utf8_len(s.push(c)) > utf8_len(s),
{
    lemma_encode_utf8_concat(s, seq![c]);
    lemma_encode_utf8_single(c);
    assert(s.push(c) =~= s + seq![c]);
}

/// Byte length of a concatenation.
pub proof fn lemma_utf8_len_concat(a: Seq<char>, b: Seq<char>)
    ensures
        utf8_len(a + b) == utf8_len(a) + utf8_len(b),
{
    lemma_encode_utf8_concat(a, b);
}

/// Byte lengths of prefixes grow strictly with the prefix.
pub proof fn lemma_utf8_len_prefix_mono(s: Seq<char>, i: int, j: int)
    requires
        0 <= i <= j <= s.len(),
    ensures
        utf8_len(s.take(i)) <= utf8_len(s.take(j)),
        i < j ==> utf8_len(s.take(i)) < utf8_len(s.take(j)),
        j - i <= utf8_len(s.take(j)) - utf8_len(s.take(i)),
    decreases j - i,
{
    if i < j {
        lemma_utf8_len_prefix_mono(s, i, j - 1);
        assert(s.take(j) =~= s.take(j - 1).push(s[j - 1]));
        lemma_utf8_len_push(s.take(j - 1), s[j - 1]);
    }
}

/// Number of UTF-8 bytes of `c` (`char::len_utf8`).
pub fn len_utf8(c: char) -> (n: usize)
    ensures
        n == char_utf8_len(c),
        1 <= n <= 4,
{
    let v = c as u32;
    if v <= 0x7F {
        1
    } else if v <= 0x7FF {
        2
    } else if v <= 0xFFFF {
        3
    } else {
        4
    }
}

/// Number of UTF-8 bytes of the characters of `v`.
pub fn utf8_len_of(v: &Vec<char>) -> (n: u128)
    ensures
        n == utf8_len(v@),
        n <= 4 * v@.len(),
{
    let len = v.len();
    let mut n: u128 = 0;
    let mut i: usize = 0;
    proof {
        assert(v@.take(0) =~= Seq::<char>::empty());
    }
    while i < len
        invariant
            len == v@.len(),
            i <= len,
            n == utf8_len(v@.take(i as int)),
            n <= 4 * i,
        decreases len - i,
    {
        proof {
            assert(v@.take(i + 1) =~= v@.take(i as int).push(v@[i as int]));
            lemma_utf8_len_push(v@.take(i as int), v@[i as int]);
        }
        n = n + len_utf8(v[i]) as u128;
        i = i + 1;
    }
    assert(v@.take(len as int) =~= v@);
    n
}

/// Appends one character to a string (`String::push`).
#[verifier::external_body]
pub(crate) fn push_char(s: &mut String, c: char)
    ensures
        final(s)@ == old(s)@.push(c),
{
    s.push(c);
}

/// Appends a string slice to a string.
pub fn push_str(s: &mut String, t: &str)
    ensures
        final(s)@ == old(s)@ + t@,
{
    s.append(t);
}

/// The characters of `s`, in order.
pub fn chars_of(s: &str) -> (r: Vec<char>)
    ensures
        r@ == s@,
{
    let mut r: Vec<char> = Vec::new();
    for c in it: s.chars()
        invariant
            r@ == it.seq().take(it.index() as int),
            it.seq() == s@,
    {
        r.push(c);
    }
    r
}

/// A string holding the characters `v[from..to]`.
pub fn string_from_range(v: &Vec<char>, from: usize, to: usize) -> (s: String)
    requires
        from <= to <= v.len(),
    ensures
        s@ == v@.subrange(from as int, to as int),
{
    let mut s = String::new();
    let mut i = from;
    while i < to
        invariant
            from <= i <= to <= v.len(),
            s@ == v@.subrange(from as int, i as int),
        decreases to - i,
    {
        push_char(&mut s, v[i]);
        assert(v@.subrange(from as int, i + 1) =~= v@.subrange(from as int, i as int).push(v@[i as int]));
        i = i + 1;
    }
    s
}

/// A string holding the characters of `v`.
pub fn string_from_chars(v: &Vec<char>) -> (s: String)
    ensures
        s@ == v@,
{
    let s = string_from_range(v, 0, v.len());
    assert(v@.subrange(0, v@.len() as int) =~= v@);
    s
}

/// Whether two strings hold the same characters.
pub fn str_eq(a: &str, b: &str) -> (r: bool)
    ensures
        r == (a@ == b@),
{
    let x = chars_of(a);
    let y = chars_of(b);
    if x.len() != y.len() {
        return false;
    }
    let mut i: usize = 0;
    while i < x.len()
        invariant
            x@ == a@,
            y@ == b@,
            x.len() == y.len(),
            i <= x.len(),
            forall|k: int| 0 <= k < i ==> x@[k] == y@[k],
        decreases x.len() - i,
    {
        if x[i] != y[i] {
            return false;
        }
        i = i + 1;
    }
    assert(x@ =~= y@);
    true
}

/// A UTF-8 encoding takes at most four bytes a character.
pub proof fn lemma_utf8_len_bound(s: Seq<char>)
    ensures
        utf8_len(s) <= 4 * s.len(),
    decreases s.len(),
{
    if s.len() > 0 {
        lemma_utf8_len_bound(s.drop_last());
        assert(s.drop_last().push(s.last()) =~= s);
        lemma_utf8_len_push(s.drop_last(), s.last());
        lemma_encode_utf8_single(s.last());
    } else {
        assert(s =~= Seq::<char>::empty());
    }
}

/// Bounds `(a, b)` such that `v[a..b]` is `v` with leading and trailing white
/// space removed.
pub fn trim_bounds(v: &Vec<char>) -> (r: (usize, usize))
    ensures
        r.0 <= r.1 <= v.len(),
        v@.subrange(r.0 as int, r.1 as int) == trim(v@),
{
    let n = v.len();
    let mut a: usize = 0;
    assert(v@.subrange(0, n as int) =~= v@);
    while a < n && is_whitespace(v[a])
        invariant
            a <= n == v.len(),
            trim_start(v@) == trim_start(v@.subrange(a as int, n as int)),
        decreases n - a,
    {
        assert(v@.subrange(a as int, n as int).drop_first() =~= v@.subrange(a + 1, n as int));
        a = a + 1;
    }
    assert(trim_start(v@.subrange(a as int, n as int)) == v@.subrange(a as int, n as int));
    let mut b: usize = n;
    while b > a && is_whitespace(v[b - 1])
        invariant
            a <= b <= n == v.len(),
            trim(v@) == trim_end(v@.subrange(a as int, b as int)),
        decreases b - a,
    {
        assert(v@.subrange(a as int, b as int).drop_last() =~= v@.subrange(a as int, b - 1));
        b = b - 1;
    }
    (a, b)
}

/// The length of `v` without its trailing white space.
pub fn trim_end_len(v: &Vec<char>) -> (n: usize)
    ensures
        n <= v.len(),
        v@.take(n as int) == trim_end(v@),
{
    let mut b: usize = v.len();
    assert(v@.take(b as int) =~= v@);
    while b > 0 && is_whitespace(v[b - 1])
        invariant
            b <= v.len(),
            trim_end(v@) == trim_end(v@.take(b as int)),
        decreases b,
    {
        assert(v@.take(b as int).drop_last() =~= v@.take(b - 1));
        b = b - 1;
    }
    b
}

/// `s` with leading and trailing white space removed (`str::trim`).
pub fn trim_string(s: &str) -> (r: String)
    ensures
        r@ == trim(s@),
{
    let v = chars_of(s);
    let (a, b) = trim_bounds(&v);
    string_from_range(&v, a, b)
}

/// Joins `parts` with `sep` between consecutive parts.
pub open spec fn join(parts: Seq<Seq<char>>, sep: Seq<char>) -> Seq<char>
    decreases parts.len(),
{
    if parts.len() == 0 {
        Seq::empty()
    } else if parts.len() == 1 {
        parts[0]
    } else {
        join(parts.drop_last(), sep) + sep + parts.last()
    }
}

/// Joining `x` followed by more parts gives `x`, the separator and the
/// join of the rest.
pub proof fn lemma_join_cons(x: Seq<char>, r: Seq<Seq<char>>, sep: Seq<char>)
    ensures
        join(seq![x] + r, sep) == if r.len() == 0 {
            x
        } else {
            x + sep + join(r, sep)
        },
    decreases r.len(),
{
    let l = seq![x] + r;
    if r.len() == 0 {
        assert(l.len() == 1 && l[0] == x);
        assert(join(l, sep) == l[0]);
    } else if r.len() == 1 {
        assert(l.drop_last() =~= seq![x]);
        assert(l.last() == r[0]);
        assert(join(seq![x], sep) == x);
        assert(join(r, sep) == r[0]);
        assert(join(l, sep) == join(l.drop_last(), sep) + sep + l.last());
    } else {
        lemma_join_cons(x, r.drop_last(), sep);
        assert(l.drop_last() =~= seq![x] + r.drop_last());
        assert(l.last() == r.last());
        assert(join(l, sep) == join(l.drop_last(), sep) + sep + l.last());
        assert(join(r, sep) == join(r.drop_last(), sep) + sep + r.last());
        assert(x + sep + join(r.drop_last(), sep) + sep + r.last() =~= x + sep + (join(r.drop_last(), sep)
            + sep + r.last()));
    }
}

/// Filtering by `q` after filtering by a weaker `p` is filtering by `q`.
pub proof fn lemma_filter_filter(s: Seq<char>, p: spec_fn(char) -> bool, q: spec_fn(char) -> bool)
    requires
        forall|c: char| #[trigger] q(c) ==> p(c),
    ensures
        s.filter(p).filter(q) == s.filter(q),
    decreases s.len(),
{
    reveal_with_fuel(Seq::filter, 1);
    if s.len() > 0 {
        lemma_filter_filter(s.drop_last(), p, q);
        let sub = s.drop_last().filter(p);
        if p(s.last()) {
            assert(sub.push(s.last()).drop_last() =~= sub);
        }
    }
}

/// The views of a vector of strings.
pub open spec fn views(v: Seq<String>) -> Seq<Seq<char>> {
    v.map_values(|s: String| s@)
}

/// Joins `parts` with `sep` (`[String]::join`).
pub fn join_strings(parts: &Vec<String>, sep: &str) -> (r: String)
    ensures
        r@ == join(views(parts@), sep@),
{
    let mut r = String::new();
    let mut i: usize = 0;
    while i < parts.len()
        invariant
            i <= parts.len(),
            r@ == join(views(parts@).take(i as int), sep@),
        decreases parts.len() - i,
    {
        if i > 0 {
            push_str(&mut r, sep);
        }
        push_str(&mut r, parts[i].as_str());
        assert(views(parts@).take(i + 1).drop_last() =~= views(parts@).take(i as int));
        i = i + 1;
    }
    assert(views(parts@).take(parts.len() as int) =~= views(parts@));
    r
}

/// What text yields after accents are removed (`unaccent::unaccent`).
pub uninterp spec fn unaccented(text: Seq<char>) -> Seq<char>;

/// `unaccent::unaccent`: decomposes the text, drops combining marks and
/// recomposes it.
#[verifier::external_body]
pub(crate) fn unaccent_text(text: &str) -> (r: String)
    ensures
        r@ == unaccented(text@),
{
    unaccent::unaccent(text)
}

/// What `str::to_lowercase` makes of `s` (lowercase by the Unicode
/// `Lowercase` mapping, which may change the number of characters).
pub uninterp spec fn lowercase(s: Seq<char>) -> Seq<char>;

/// `str::to_lowercase`.
#[verifier::external_body]
pub(crate) fn to_lowercase(s: &str) -> (r: String)
    ensures
        r@ == lowercase(s@),
{
    s.to_lowercase()
}

/// The characters of `&s[..2]`: the text of the first two bytes of `s`, or
/// `None` where that slice would panic (fewer than two bytes, or byte 2 in
/// the middle of a character).
pub open spec fn two_byte_prefix(s: Seq<char>) -> Option<Seq<char>> {
    if s.len() >= 1 && char_utf8_len(s[0]) == 2 {
        Some(s.take(1))
    } else if s.len() >= 2 && char_utf8_len(s[0]) == 1 && char_utf8_len(s[1]) == 1 {
        Some(s.take(2))
    } else {
        None
    }
}

/// The first two bytes of the text `v` as text, `None` where slicing them
/// would panic.
pub fn two_byte_prefix_of(v: &Vec<char>) -> (r: Option<Vec<char>>)
    ensures
        match r {
            Some(p) => two_byte_prefix(v@) == Some(p@),
            None => two_byte_prefix(v@) is None,
        },
{
    if v.len() >= 1 && len_utf8(v[0]) == 2 {
        let mut p: Vec<char> = Vec::new();
        p.push(v[0]);
        assert(p@ =~= v@.take(1));
        Some(p)
    } else if v.len() >= 2 && len_utf8(v[0]) == 1 && len_utf8(v[1]) == 1 {
        let mut p: Vec<char> = Vec::new();
        p.push(v[0]);
        p.push(v[1]);
        assert(p@ =~= v@.take(2));
        Some(p)
    } else {
        None
    }
}

} // verus!
