//! Character positions and UTF-8 byte offsets.
use vstd::prelude::*;
use vstd::std_specs::iter::IteratorSpec;
use vstd::utf8::{char_is_scalar, encode_scalar, encode_utf8};

verus! {

/// Byte offset of character position `k` in the UTF-8 encoding of `s`.
pub open spec fn byte_offset(s: Seq<char>, k: int) -> int {
    encode_utf8(s.take(k)).len() as int
}

/// Encoding a concatenation encodes each part.
pub proof fn lemma_encode_concat(a: Seq<char>, b: Seq<char>)
    ensures
        encode_utf8(a + b) == encode_utf8(a) + encode_utf8(b),
    decreases a.len(),
{
    if a.len() == 0 {
        assert(a + b =~= b);
        assert(encode_utf8(a) + encode_utf8(b) =~= encode_utf8(b));
    } else {
        assert((a + b).drop_first() =~= a.drop_first() + b);
        lemma_encode_concat(a.drop_first(), b);
        assert(encode_utf8(a + b) =~= encode_utf8(a) + encode_utf8(b));
    }
}

/// The encoding of a non-empty sequence is not empty.
pub proof fn lemma_encode_nonempty(s: Seq<char>)
    requires
        s.len() > 0,
    ensures
        encode_utf8(s).len() >= 1,
{
}

/// The offset of `k + 1` is the offset of `k` and the width of `s[k]`.
pub proof fn lemma_byte_offset_step(s: Seq<char>, k: int)
    requires
        0 <= k < s.len(),
    ensures
        byte_offset(s, k + 1) == byte_offset(s, k) + encode_scalar(s[k] as u32).len(),
{
    let one = seq![s[k]];
    assert(s.take(k + 1) =~= s.take(k) + one);
    lemma_encode_concat(s.take(k), one);
    assert(one[0] == s[k]);
    assert(one.drop_first().len() == 0);
    assert(encode_utf8(one.drop_first()) =~= Seq::<u8>::empty());
    assert(encode_utf8(one) =~= encode_scalar(s[k] as u32) + encode_utf8(one.drop_first()));
    assert(encode_utf8(one) =~= encode_scalar(s[k] as u32));
}

/// The bytes between the offsets of `a` and `b` encode the characters
/// between `a` and `b`.
pub proof fn lemma_bytes_between(s: Seq<char>, a: int, b: int)
    requires
        0 <= a <= b <= s.len(),
    ensures
        byte_offset(s, a) <= byte_offset(s, b) <= encode_utf8(s).len(),
        a < b ==> byte_offset(s, a) < byte_offset(s, b),
        encode_utf8(s).subrange(byte_offset(s, a), byte_offset(s, b)) == encode_utf8(
            s.subrange(a, b),
        ),
{
    let mid = s.subrange(a, b);
    assert(s.take(b) =~= s.take(a) + mid);
    assert(s =~= s.take(b) + s.skip(b));
    lemma_encode_concat(s.take(a), mid);
    lemma_encode_concat(s.take(b), s.skip(b));
    if a < b {
        lemma_encode_nonempty(mid);
    }
    assert(encode_utf8(s).subrange(byte_offset(s, a), byte_offset(s, b)) =~= encode_utf8(mid));
}

/// The number of bytes that encode `c` in UTF-8.
pub fn utf8_width(c: char) -> (r: usize)
    ensures
        r == encode_scalar(c as u32).len(),
        1 <= r <= 4,
{
    proof {
        char_is_scalar(c);
    }
    let u = c as u32;
    if u <= 0x7F {
        1
    } else if u <= 0x7FF {
        2
    } else if u <= 0xFFFF {
        3
    } else {
        4
    }
}

/// The byte offset of every character position of `s`, and of its end.
pub fn byte_offsets(s: &[char], total: usize) -> (r: Vec<usize>)
    requires
        encode_utf8(s@).len() == total,
    ensures
        r@.len() == s@.len() + 1,
        forall|k: int| 0 <= k <= s@.len() ==> #[trigger] r@[k] as int == byte_offset(s@, k),
{
    let mut r: Vec<usize> = Vec::new();
    let mut acc: usize = 0;
    r.push(0);
    proof {
        assert(s@.take(0) =~= Seq::<char>::empty());
    }
    let mut k: usize = 0;
    while k < s.len()
        invariant
            k <= s@.len(),
            encode_utf8(s@).len() == total,
            r@.len() == k + 1,
            acc as int == byte_offset(s@, k as int),
            forall|j: int| 0 <= j <= k ==> #[trigger] r@[j] as int == byte_offset(s@, j),
        decreases s.len() - k,
    {
        let w = utf8_width(s[k]);
        proof {
            lemma_byte_offset_step(s@, k as int);
            lemma_bytes_between(s@, k as int + 1, s@.len() as int);
            assert(s@.take(s@.len() as int) =~= s@);
        }
        acc = acc + w;
        r.push(acc);
        k = k + 1;
    }
    r
}

/// The characters of `text`.
pub fn text_chars(text: &str) -> (r: Vec<char>)
    ensures
        r@ == text@,
{
    let mut it = text.chars();
    let mut r: Vec<char> = Vec::new();
    loop
        invariant_except_break
            r@ + it.remaining() == text@,
            it.decrease() is Some,
        ensures
            r@ == text@,
        decreases it.decrease()->0,
    {
        match it.next() {
            Some(c) => {
                r.push(c);
            },
            None => {
                assert(r@ + it.remaining() =~= r@);
                break;
            },
        }
    }
    r
}

} // verus!
