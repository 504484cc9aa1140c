//! Byte offsets into UTF-8 text, related to the character sequence that the text denotes.
//!
//! A `&str` is viewed as a `Seq<char>`, but it is sliced by byte offset. The functions here
//! slice at the byte offset of a known character index, and say what comes out in characters.

use vstd::prelude::*;
use vstd::string::*;
use vstd::utf8::*;

verus! {

/// Number of bytes that `s` occupies when encoded as UTF-8.
pub open spec fn byte_len(s: Seq<char>) -> nat {
    encode_utf8(s).len()
}

/// Number of bytes that the single character `c` occupies when encoded as UTF-8.
pub open spec fn char_width(c: char) -> nat {
    encode_scalar(c as u32).len()
}

/// Every character takes between one and four bytes.
pub proof fn lemma_char_width_bounds(c: char)
    ensures
        1 <= char_width(c) <= 4,
{
}

/// Encoding distributes over concatenation.
pub proof fn lemma_encode_concat(a: Seq<char>, b: Seq<char>)
    ensures
        encode_utf8(a + b) == encode_utf8(a) + encode_utf8(b),
    decreases a.len(),
{
    if a.len() == 0 {
        assert(a + b =~= b);
        assert(encode_utf8(a) + encode_utf8(b) =~= encode_utf8(b));
    } else {
        lemma_encode_concat(a.drop_first(), b);
        assert((a + b).drop_first() =~= a.drop_first() + b);
        assert(encode_utf8(a + b) =~= encode_utf8(a) + encode_utf8(b));
    }
}

/// The byte length of a concatenation is the sum of the byte lengths.
pub proof fn lemma_byte_len_concat(a: Seq<char>, b: Seq<char>)
    ensures
        byte_len(a + b) == byte_len(a) + byte_len(b),
{
    lemma_encode_concat(a, b);
}

/// A text has at least as many bytes as characters.
pub proof fn lemma_byte_len_lower(s: Seq<char>)
    ensures
        s.len() <= byte_len(s),
    decreases s.len(),
{
    if s.len() > 0 {
        lemma_char_width_bounds(s[0]);
        lemma_byte_len_lower(s.drop_first());
    }
}

/// Taking one more character adds that character's width to the byte length.
pub proof fn lemma_byte_len_step(s: Seq<char>, i: int)
    requires
        0 <= i < s.len(),
    ensures
        byte_len(s.take(i + 1)) == byte_len(s.take(i)) + char_width(s[i]),
{
    let one = seq![s[i]];
    assert(s.take(i + 1) =~= s.take(i) + one);
    lemma_byte_len_concat(s.take(i), one);
    assert(one.drop_first() =~= Seq::<char>::empty());
    assert(encode_utf8(one) =~= encode_scalar(s[i] as u32)) by {
        reveal_with_fuel(encode_utf8, 2);
    }
}

/// A prefix and the matching suffix share out the bytes of the text.
pub proof fn lemma_byte_len_split(s: Seq<char>, i: int)
    requires
        0 <= i <= s.len(),
    ensures
        byte_len(s.take(i)) + byte_len(s.skip(i)) == byte_len(s),
        i < s.len() <==> byte_len(s.take(i)) < byte_len(s),
{
    assert(s =~= s.take(i) + s.skip(i));
    lemma_byte_len_concat(s.take(i), s.skip(i));
    lemma_byte_len_lower(s.skip(i));
}

/// The byte offset of a character index is a character boundary of the encoded text.
pub proof fn lemma_offset_is_boundary(s: Seq<char>, i: int)
    requires
        0 <= i <= s.len(),
    ensures
        is_char_boundary(encode_utf8(s), byte_len(s.take(i)) as int),
    decreases i,
{
    let bytes = encode_utf8(s);
    encode_utf8_valid_utf8(s);
    if i == 0 {
        assert(s.take(0) =~= Seq::<char>::empty());
    } else {
        let tail = s.drop_first();
        encode_utf8_first_scalar(s);
        assert(pop_first_scalar(bytes) =~= encode_utf8(tail));
        lemma_offset_is_boundary(tail, i - 1);
        assert(s.take(i) =~= seq![s[0]] + tail.take(i - 1));
        lemma_byte_len_concat(seq![s[0]], tail.take(i - 1));
        assert(s.take(1) =~= seq![s[0]]);
        assert(s.take(0) =~= Seq::<char>::empty());
        lemma_byte_len_step(s, 0);
        lemma_byte_len_split(s, i);
        lemma_char_width_bounds(s[0]);
    }
}

/// Two texts with the same encoding are the same text.
pub proof fn lemma_encode_injective(a: Seq<char>, b: Seq<char>)
    requires
        encode_utf8(a) == encode_utf8(b),
    ensures
        a == b,
{
    encode_utf8_decode_utf8(a);
    encode_utf8_decode_utf8(b);
}

/// The texts that a list of strings holds.
pub open spec fn texts_of(strings: Seq<String>) -> Seq<Seq<char>> {
    strings.map_values(|s: String| s@)
}

/// The length of `s` in bytes.
pub fn len_bytes(s: &str) -> (n: usize)
    ensures
        n == byte_len(s@),
{
    broadcast use vstd::slice::axiom_spec_len;
    s.as_bytes().len()
}

/// Whether two strings hold the same text.
pub fn same_text(a: &str, b: &str) -> (same: bool)
    ensures
        same == (a@ == b@),
{
    broadcast use vstd::slice::axiom_spec_len;
    let x = a.as_bytes();
    let y = b.as_bytes();
    if x.len() != y.len() {
        return false;
    }
    let mut i: usize = 0;
    while i < x.len()
        invariant
            0 <= i <= x.len(),
            x.len() == y.len(),
            x@ == encode_utf8(a@),
            y@ == encode_utf8(b@),
            forall|j: int| 0 <= j < i ==> x@[j] == y@[j],
        decreases x.len() - i,
    {
        if x[i] != y[i] {
            return false;
        }
        i = i + 1;
    }
    proof {
        assert(x@ =~= y@);
        lemma_encode_injective(a@, b@);
    }
    true
}

/// Splits `s` at byte offset `at`, which is where the character with index `i` starts.
pub fn split<'a>(s: &'a str, at: usize, Ghost(i): Ghost<int>) -> (r: (&'a str, &'a str))
    requires
        0 <= i <= s@.len(),
        at == byte_len(s@.take(i)),
    ensures
        r.0@ == s@.take(i),
        r.1@ == s@.skip(i),
{
    proof {
        lemma_offset_is_boundary(s@, i);
    }
    let r = s.split_at(at);
    proof {
        assert(s@ =~= s@.take(i) + s@.skip(i));
        lemma_encode_concat(s@.take(i), s@.skip(i));
        let bytes = encode_utf8(s@);
        assert(bytes.subrange(0, at as int) =~= encode_utf8(s@.take(i)));
        assert(bytes.subrange(at as int, bytes.len() as int) =~= encode_utf8(s@.skip(i)));
        lemma_encode_injective(r.0@, s@.take(i));
        lemma_encode_injective(r.1@, s@.skip(i));
    }
    r
}

/// The character of `s` that starts at byte offset `at`; it has index `i`.
pub fn char_at(s: &str, at: usize, Ghost(i): Ghost<int>) -> (c: char)
    requires
        0 <= i < s@.len(),
        at == byte_len(s@.take(i)),
    ensures
        c == s@[i],
{
    broadcast use vstd::string::group_string_axioms;
    let (_, tail) = split(s, at, Ghost(i));
    let mut chars = tail.chars();
    let first = chars.next();
    first.unwrap()
}

/// The part of `s` between byte offsets `from` and `to`, where the characters with
/// indices `i` and `j` start.
pub fn slice<'a>(
    s: &'a str,
    from: usize,
    to: usize,
    Ghost(i): Ghost<int>,
    Ghost(j): Ghost<int>,
) -> (r: &'a str)
    requires
        0 <= i <= j <= s@.len(),
        from == byte_len(s@.take(i)),
        to == byte_len(s@.take(j)),
    ensures
        r@ == s@.subrange(i, j),
{
    let (head, _) = split(s, to, Ghost(j));
    proof {
        assert(s@.take(j).take(i) =~= s@.take(i));
    }
    let (_, r) = split(head, from, Ghost(i));
    proof {
        assert(s@.take(j).skip(i) =~= s@.subrange(i, j));
    }
    r
}

} // verus!
