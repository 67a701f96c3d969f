//! The length in bytes of text once encoded as UTF-8, and the wrapper that
//! reads bytes as UTF-8 text.
use vstd::prelude::*;

use vstd::utf8::{
    char_is_scalar, decode_utf8, encode_scalar, encode_utf8, has_width_1_encoding,
    has_width_2_encoding, has_width_3_encoding, has_width_4_encoding, valid_utf8,
};

verus! {

/// The number of bytes that UTF-8 takes for `c`.
pub open spec fn utf8_width(c: char) -> nat {
    let u = c as u32;
    if u <= 0x7f {
        1
    } else if u <= 0x7ff {
        2
    } else if u <= 0xffff {
        3
    } else {
        4
    }
}

/// The number of bytes of the UTF-8 encoding of `s`.
pub open spec fn utf8_len(s: Seq<char>) -> nat
    decreases s.len(),
{
    if s.len() == 0 {
        0
    } else {
        utf8_len(s.drop_last()) + utf8_width(s.last())
    }
}

proof fn lemma_encode_utf8_concat(a: Seq<char>, b: Seq<char>)
    ensures
        encode_utf8(a + b) == encode_utf8(a) + encode_utf8(b),
    decreases a.len(),
{
    if a.len() == 0 {
        assert(a + b =~= b);
        assert(encode_utf8(a) =~= Seq::<u8>::empty());
        assert(encode_utf8(a) + encode_utf8(b) =~= encode_utf8(b));
    } else {
        lemma_encode_utf8_concat(a.drop_first(), b);
        assert((a + b).drop_first() =~= a.drop_first() + b);
        assert((a + b)[0] == a[0]);
        assert(encode_utf8(a + b) =~= encode_utf8(a) + encode_utf8(b));
    }
}

proof fn lemma_encode_scalar_len(c: char)
    ensures
        encode_scalar(c as u32).len() == utf8_width(c),
{
    char_is_scalar(c);
    let u = c as u32;
    if has_width_1_encoding(u) {
    } else if has_width_2_encoding(u) {
    } else if has_width_3_encoding(u) {
    } else {
        assert(has_width_4_encoding(u));
    }
}

/// `utf8_len` counts the bytes of the UTF-8 encoding.
pub proof fn lemma_utf8_len_encode(s: Seq<char>)
    ensures
        utf8_len(s) == encode_utf8(s).len(),
    decreases s.len(),
{
    if s.len() > 0 {
        let c = s.last();
        lemma_utf8_len_encode(s.drop_last());
        lemma_encode_utf8_concat(s.drop_last(), seq![c]);
        assert(s.drop_last() + seq![c] =~= s);
        assert(seq![c].drop_first() =~= Seq::<char>::empty());
        assert(encode_utf8(seq![c]) == encode_scalar(c as u32) + encode_utf8(
            seq![c].drop_first(),
        ));
        assert(encode_utf8(Seq::<char>::empty()) =~= Seq::<u8>::empty());
        lemma_encode_scalar_len(c);
    }
}

pub proof fn lemma_utf8_len_append(a: Seq<char>, b: Seq<char>)
    ensures
        utf8_len(a + b) == utf8_len(a) + utf8_len(b),
    decreases b.len(),
{
    if b.len() == 0 {
        assert(a + b =~= a);
    } else {
        lemma_utf8_len_append(a, b.drop_last());
        assert((a + b).drop_last() =~= a + b.drop_last());
        assert((a + b).last() == b.last());
    }
}

/// A prefix is never longer, in bytes, than the whole.
pub proof fn lemma_utf8_len_prefix(s: Seq<char>, i: int)
    requires
        0 <= i <= s.len(),
    ensures
        utf8_len(s.take(i)) <= utf8_len(s),
{
    lemma_utf8_len_append(s.take(i), s.skip(i));
    assert(s.take(i) + s.skip(i) =~= s);
}

/// The number of UTF-8 bytes of `c`.
pub fn utf8_width_exec(c: char) -> (n: usize)
    ensures
        n == utf8_width(c),
{
    let u = c as u32;
    if u <= 0x7f {
        1
    } else if u <= 0x7ff {
        2
    } else if u <= 0xffff {
        3
    } else {
        4
    }
}

/// The number of UTF-8 bytes of `s`.
pub fn utf8_len_exec(s: &[char]) -> (n: usize)
    requires
        utf8_len(s@) <= usize::MAX,
    ensures
        n == utf8_len(s@),
{
    let mut n: usize = 0;
    let mut i: usize = 0;
    while i < s.len()
        invariant
            i <= s@.len(),
            n == utf8_len(s@.take(i as int)),
            utf8_len(s@) <= usize::MAX,
        decreases s.len() - i,
    {
        proof {
            assert(s@.take(i + 1).drop_last() =~= s@.take(i as int));
            lemma_utf8_len_prefix(s@, i + 1);
        }
        n = n + utf8_width_exec(s[i]);
        i = i + 1;
    }
    assert(s@.take(i as int) =~= s@);
    n
}

/// `std::str::from_utf8`: the text that `bytes` encode, when they are
/// valid UTF-8 (no overlong form, no surrogate, nothing above U+10FFFF);
/// `None` otherwise. The text's UTF-8 encoding is `bytes` itself.
#[verifier::external_body]
pub(crate) fn str_from_utf8(bytes: &[u8]) -> (r: Option<&str>)
    ensures
        r is Some <==> valid_utf8(bytes@),
        r matches Some(s) ==> encode_utf8(s@) == bytes@,
{
    std::str::from_utf8(bytes).ok()
}

/// The text of valid UTF-8 bytes is their decoding.
pub proof fn lemma_from_utf8_text(s: Seq<char>, b: Seq<u8>)
    requires
        encode_utf8(s) == b,
    ensures
        s == decode_utf8(b),
        utf8_len(s) == b.len(),
{
    vstd::utf8::encode_utf8_decode_utf8(s);
    lemma_utf8_len_encode(s);
}

} // verus!
