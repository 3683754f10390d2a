//! Characters, byte offsets and slices of the UTF-8 source.

use vstd::prelude::*;
use vstd::utf8::*;
use vstd::string::StringSliceAdditionalSpecFns;

verus! {

broadcast use vstd::string::group_string_axioms;

/// Byte offset of character position `i` in the UTF-8 encoding of `s`.
pub open spec fn byte_offset(s: Seq<char>, i: int) -> nat {
    encode_utf8(s.subrange(0, i)).len()
}

pub proof fn lemma_encode_concat(a: Seq<char>, b: Seq<char>)
    ensures
        encode_utf8(a + b) == encode_utf8(a) + encode_utf8(b),
    decreases a.len(),
{
    if a.len() == 0 {
        assert(a + b =~= b);
        assert(encode_utf8(a) =~= Seq::<u8>::empty());
        assert(encode_utf8(a) + encode_utf8(b) =~= encode_utf8(b));
    } else {
        lemma_encode_concat(a.drop_first(), b);
        assert((a + b).drop_first() =~= a.drop_first() + b);
        assert((a + b)[0] == a[0]);
        assert(encode_utf8(a + b) =~= encode_scalar(a[0] as u32) + (encode_utf8(a.drop_first())
            + encode_utf8(b)));
    }
}

pub proof fn lemma_encode_single(c: char)
    ensures
        encode_utf8(seq![c]) == encode_scalar(c as u32),
{
    assert(seq![c].drop_first() =~= Seq::<char>::empty());
    assert(encode_utf8(Seq::<char>::empty()) =~= Seq::<u8>::empty());
    assert(encode_utf8(seq![c]) =~= encode_scalar(c as u32) + Seq::<u8>::empty());
}

/// Byte offsets grow by the width of each character.
pub proof fn lemma_byte_offset_step(s: Seq<char>, i: int)
    requires
        0 <= i < s.len(),
    ensures
        byte_offset(s, i + 1) == byte_offset(s, i) + encode_scalar(s[i] as u32).len(),
{
    assert(s.subrange(0, i + 1) =~= s.subrange(0, i) + seq![s[i]]);
    lemma_encode_concat(s.subrange(0, i), seq![s[i]]);
    lemma_encode_single(s[i]);
}

/// The encoding of a slice is the matching slice of the encoding.
pub proof fn lemma_encode_slice(s: Seq<char>, i: int, j: int)
    requires
        0 <= i <= j <= s.len(),
    ensures
        byte_offset(s, i) <= byte_offset(s, j) <= encode_utf8(s).len(),
        encode_utf8(s).subrange(byte_offset(s, i) as int, byte_offset(s, j) as int)
            == encode_utf8(s.subrange(i, j)),
{
    assert(s =~= s.subrange(0, i) + s.subrange(i, j) + s.subrange(j, s.len() as int));
    lemma_encode_concat(s.subrange(0, i) + s.subrange(i, j), s.subrange(j, s.len() as int));
    lemma_encode_concat(s.subrange(0, i), s.subrange(i, j));
    assert(s.subrange(0, j) =~= s.subrange(0, i) + s.subrange(i, j));
    let e = encode_utf8(s);
    assert(e.subrange(byte_offset(s, i) as int, byte_offset(s, j) as int) =~= encode_utf8(
        s.subrange(i, j),
    ));
}

/// Every character position falls on a character boundary of the encoding.
pub proof fn lemma_char_boundary(s: Seq<char>, i: int)
    requires
        0 <= i <= s.len(),
    ensures
        is_char_boundary(encode_utf8(s), byte_offset(s, i) as int),
    decreases s.len(),
{
    broadcast use encode_utf8_valid_utf8;

    let bytes = encode_utf8(s);
    if i == 0 {
        assert(s.subrange(0, 0) =~= Seq::<char>::empty());
        assert(encode_utf8(Seq::<char>::empty()) =~= Seq::<u8>::empty());
    } else {
        encode_utf8_first_scalar(s);
        let rest = s.drop_first();
        lemma_encode_slice(s, 0, i);
        assert(pop_first_scalar(bytes) =~= encode_utf8(rest));
        assert(s.subrange(0, i) =~= seq![s[0]] + rest.subrange(0, i - 1));
        lemma_encode_concat(seq![s[0]], rest.subrange(0, i - 1));
        lemma_encode_single(s[0]);
        lemma_char_boundary(rest, i - 1);
    }
}

/// Width in bytes of the UTF-8 encoding of `c`.
pub fn utf8_width(c: char) -> (w: usize)
    ensures
        w == encode_scalar(c as u32).len(),
{
    proof {
        char_is_scalar(c);
    }
    let v = c as u32;
    if v <= 0x7F {
        1
    } else if v <= 0x7FF {
        2
    } else if v <= 0xFFFF {
        3
    } else {
        4
    }
}

/// The characters of `source`.
pub fn chars_of(source: &str) -> (v: Vec<char>)
    ensures
        v@ == source@,
{
    let mut v: Vec<char> = Vec::new();
    for c in it: source.chars()
        invariant
            v@ == it.seq().take(it.index() as int),
    {
        v.push(c);
        assert(v@ =~= it.seq().take(it.index() + 1));
    }
    v
}

/// The part of `source` between two character positions, cut at their byte
/// offsets.
pub fn slice_str<'a>(source: &'a str, b0: usize, b1: usize, Ghost(i0): Ghost<int>, Ghost(i1): Ghost<int>) -> (r: &'a str)
    requires
        0 <= i0 <= i1 <= source@.len(),
        b0 == byte_offset(source@, i0),
        b1 == byte_offset(source@, i1),
    ensures
        r@ == source@.subrange(i0, i1),
{
    let ghost s = source@;
    proof {
        lemma_char_boundary(s, i1);
        lemma_encode_slice(s, 0, i1);
        assert(s.subrange(0, 0) =~= Seq::<char>::empty());
        assert(encode_utf8(Seq::<char>::empty()) =~= Seq::<u8>::empty());
    }
    let (head, _) = source.split_at(b1);
    proof {
        let h = s.subrange(0, i1);
        assert(head.spec_bytes() == encode_utf8(h));
        assert(h.subrange(0, i0) =~= s.subrange(0, i0));
        lemma_char_boundary(h, i0);
        lemma_encode_slice(h, i0, i1);
        assert(h.subrange(0, i1) =~= h);
    }
    let (_, mid) = head.split_at(b0);
    proof {
        let h = s.subrange(0, i1);
        assert(h.subrange(i0, i1) =~= s.subrange(i0, i1));
        assert(encode_utf8(mid@) == encode_utf8(s.subrange(i0, i1)));
        encode_utf8_decode_utf8(mid@);
        encode_utf8_decode_utf8(s.subrange(i0, i1));
    }
    mid
}

} // verus!
