//! UTF-8 widths of code points and sequences, and the facts about them that
//! the cursor's byte accounting rests on.
use vstd::prelude::*;
use vstd::string::StringSliceAdditionalSpecFns;
use vstd::utf8::{
    encode_scalar, encode_utf8, encode_utf8_decode_utf8, encode_utf8_first_scalar,
    encode_utf8_valid_utf8, is_char_boundary, pop_first_scalar,
};

verus! {

broadcast use vstd::string::group_string_axioms;

/// Number of bytes that `s` occupies in UTF-8.
pub open spec fn utf8_len(s: Seq<char>) -> nat {
    encode_utf8(s).len()
}

/// Number of bytes that the code point `c` occupies in UTF-8.
pub open spec fn char_utf8_len(c: char) -> nat {
    encode_scalar(c as u32).len()
}

/// Width in bytes of the UTF-8 encoding of `c`.
pub(crate) fn char_width(c: char) -> (n: usize)
    ensures
        n == char_utf8_len(c),
{
    let v = c as u32;
    if v <= 0x7F {
        1
    } else if v <= 0x7FF {
        2
    } else if v <= 0xFFFF {
        3
    } else {
        4
    }
}

/// Splitting the encoding of a non-empty sequence after its first code point
/// gives the encoding of the remaining code points.
proof fn lemma_split_first(s: Seq<char>)
    requires
        s.len() > 0,
    ensures
        encode_utf8(s).len() == char_utf8_len(s[0]) + utf8_len(s.drop_first()),
        is_char_boundary(encode_utf8(s), char_utf8_len(s[0]) as int),
        encode_utf8(s).subrange(char_utf8_len(s[0]) as int, encode_utf8(s).len() as int)
            == encode_utf8(s.drop_first()),
{
    encode_utf8_first_scalar(s);
    encode_utf8_valid_utf8(s);
    reveal_with_fuel(is_char_boundary, 2);
    let b = encode_utf8(s);
    assert(pop_first_scalar(b) =~= encode_utf8(s.drop_first()));
    assert(b.subrange(char_utf8_len(s[0]) as int, b.len() as int) =~= pop_first_scalar(b));
}

/// Two code point sequences with the same encoding are equal.
proof fn lemma_decode_unique(a: Seq<char>, b: Seq<char>)
    requires
        encode_utf8(a) == encode_utf8(b),
    ensures
        a == b,
{
    encode_utf8_decode_utf8(a);
    encode_utf8_decode_utf8(b);
}

/// The encoding of a prefix grows by one code point's width when the prefix
/// takes one more code point.
pub(crate) proof fn lemma_take_one_more(s: Seq<char>, i: int)
    requires
        0 <= i < s.len(),
    ensures
        utf8_len(s.take(i + 1)) == utf8_len(s.take(i)) + char_utf8_len(s[i]),
        s.skip(i + 1) == s.skip(i).drop_first(),
        s.skip(i)[0] == s[i],
        utf8_len(s.take(i + 1)) <= utf8_len(s),
{
    lemma_utf8_len_concat(s.take(i), seq![s[i]]);
    lemma_utf8_len_concat(s.take(i + 1), s.skip(i + 1));
    assert(s.take(i + 1) + s.skip(i + 1) =~= s);
    assert(s.take(i + 1) =~= s.take(i) + seq![s[i]]);
    assert(s.skip(i + 1) =~= s.skip(i).drop_first());
    assert(encode_utf8(seq![s[i]]) =~= encode_scalar(s[i] as u32)) by {
        reveal_with_fuel(encode_utf8, 2);
        assert(seq![s[i]].drop_first() =~= Seq::<char>::empty());
    }
}

/// The encoding of a concatenation is the concatenation of the encodings.
pub(crate) proof fn lemma_encode_concat(a: Seq<char>, b: Seq<char>)
    ensures
        encode_utf8(a + b) == encode_utf8(a) + encode_utf8(b),
    decreases a.len(),
{
    if a.len() == 0 {
        assert(a + b =~= b);
        assert(encode_utf8(a) + encode_utf8(b) =~= encode_utf8(b));
    } else {
        assert((a + b).drop_first() =~= a.drop_first() + b);
        lemma_encode_concat(a.drop_first(), b);
        assert((a + b)[0] == a[0]);
        assert(encode_utf8(a + b) =~= encode_utf8(a) + encode_utf8(b));
    }
}

/// The byte length of a concatenation is the sum of the byte lengths.
pub(crate) proof fn lemma_utf8_len_concat(a: Seq<char>, b: Seq<char>)
    ensures
        utf8_len(a + b) == utf8_len(a) + utf8_len(b),
{
    lemma_encode_concat(a, b);
}

/// Splits off the first code point of `s`, if there is one.
pub(crate) fn split_first<'b>(s: &'b str) -> (r: Option<(char, &'b str)>)
    ensures
        r is None <==> s@.len() == 0,
        r matches Some((c, t)) ==> c == s@[0] && t@ == s@.drop_first(),
{
    match s.chars().next() {
        Some(c) => {
            let width = char_width(c);
            proof { lemma_split_first(s@); }
            let (_, tail) = s.split_at(width);
            proof { lemma_decode_unique(tail@, s@.drop_first()); }
            Some((c, tail))
        },
        None => None,
    }
}

/// The bytes before and after a code point position add up to the whole text.
pub(crate) proof fn lemma_prefix_suffix(s: Seq<char>, i: int)
    requires
        0 <= i <= s.len(),
    ensures
        utf8_len(s.take(i)) + utf8_len(s.skip(i)) == utf8_len(s),
{
    lemma_utf8_len_concat(s.take(i), s.skip(i));
    assert(s.take(i) + s.skip(i) =~= s);
}

/// A longer prefix takes at least as many bytes.
pub(crate) proof fn lemma_take_monotonic(s: Seq<char>, i: int, j: int)
    requires
        0 <= i <= j <= s.len(),
    ensures
        utf8_len(s.take(i)) <= utf8_len(s.take(j)),
{
    lemma_utf8_len_concat(s.take(i), s.subrange(i, j));
    assert(s.take(i) + s.subrange(i, j) =~= s.take(j));
}

}
