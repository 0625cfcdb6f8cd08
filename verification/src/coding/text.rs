use vstd::prelude::*;
use vstd::utf8::{
    encode_scalar, encode_utf8, encode_utf8_decode_utf8, encode_utf8_valid_utf8,
    has_width_1_encoding, last_continuation_byte, leading_byte_width_1, leading_byte_width_2,
    leading_byte_width_3, leading_byte_width_4, second_last_continuation_byte,
    third_last_continuation_byte,
};

use super::string::lenient_utf8;

verus! {

/// The pieces of `s` between `sep` bytes (an empty string is one empty piece).
pub open spec fn split_bytes(s: Seq<u8>, sep: u8) -> Seq<Seq<u8>>
    decreases s.len(),
{
    if s.len() == 0 {
        seq![Seq::<u8>::empty()]
    } else {
        let p = split_bytes(s.drop_last(), sep);
        if s.last() == sep {
            p.push(Seq::<u8>::empty())
        } else {
            p.update(p.len() - 1, p.last().push(s.last()))
        }
    }
}

/// The pieces of a text between `sep` characters (an empty text is one empty piece).
pub open spec fn split_text(t: Seq<char>, sep: char) -> Seq<Seq<char>>
    decreases t.len(),
{
    if t.len() == 0 {
        seq![Seq::<char>::empty()]
    } else {
        let p = split_text(t.drop_last(), sep);
        if t.last() == sep {
            p.push(Seq::<char>::empty())
        } else {
            p.update(p.len() - 1, p.last().push(t.last()))
        }
    }
}

/// There is always at least one piece.
pub proof fn lemma_split_bytes_nonempty(s: Seq<u8>, sep: u8)
    ensures
        split_bytes(s, sep).len() >= 1,
    decreases s.len(),
{
    if s.len() > 0 {
        lemma_split_bytes_nonempty(s.drop_last(), sep);
    }
}

/// There is always at least one piece.
pub proof fn lemma_split_text_nonempty(t: Seq<char>, sep: char)
    ensures
        split_text(t, sep).len() >= 1,
    decreases t.len(),
{
    if t.len() > 0 {
        lemma_split_text_nonempty(t.drop_last(), sep);
    }
}

/// Appending bytes with no separator among them extends the last piece.
pub proof fn lemma_split_bytes_append(s: Seq<u8>, b: Seq<u8>, sep: u8)
    requires
        !b.contains(sep),
    ensures
        split_bytes(s + b, sep) == split_bytes(s, sep).update(
            split_bytes(s, sep).len() - 1,
            split_bytes(s, sep).last() + b,
        ),
    decreases b.len(),
{
    let p = split_bytes(s, sep);
    lemma_split_bytes_nonempty(s, sep);
    if b.len() == 0 {
        assert(s + b =~= s);
        assert(p.last() + b =~= p.last());
        assert(p.update(p.len() - 1, p.last() + b) =~= p);
    } else {
        let b0 = b.drop_last();
        assert(!b0.contains(sep)) by {
            if b0.contains(sep) {
                let i = choose|i: int| 0 <= i < b0.len() && b0[i] == sep;
                assert(b[i] == sep);
            }
        }
        lemma_split_bytes_append(s, b0, sep);
        assert((s + b).drop_last() =~= s + b0);
        assert((s + b).last() == b.last());
        assert(b.last() != sep) by {
            assert(b[b.len() - 1] == b.last());
        }
        assert((p.last() + b0).push(b.last()) =~= p.last() + b);
        assert(split_bytes(s + b, sep) =~= p.update(p.len() - 1, p.last() + b));
    }
}

/// The encoding of a concatenation is the concatenation of the encodings.
pub proof fn lemma_encode_concat(a: Seq<char>, b: Seq<char>)
    ensures
        encode_utf8(a + b) == encode_utf8(a) + encode_utf8(b),
    decreases a.len(),
{
    if a.len() == 0 {
        assert(a + b =~= b);
        assert(encode_utf8(a) + encode_utf8(b) =~= encode_utf8(b));
    } else {
        assert((a + b).drop_first() =~= a.drop_first() + b);
        assert((a + b)[0] == a[0]);
        lemma_encode_concat(a.drop_first(), b);
        assert(encode_utf8(a + b) =~= encode_utf8(a) + encode_utf8(b));
    }
}

/// Encoding one more character appends its encoding.
pub proof fn lemma_encode_push(a: Seq<char>, c: char)
    ensures
        encode_utf8(a.push(c)) == encode_utf8(a) + encode_scalar(c as u32),
{
    let one = seq![c];
    assert(a.push(c) =~= a + one);
    lemma_encode_concat(a, one);
    assert(one.drop_first() =~= Seq::<char>::empty());
    assert(one[0] == c);
    assert(encode_utf8(Seq::<char>::empty()) =~= Seq::<u8>::empty());
    assert(encode_utf8(one) == encode_scalar(c as u32) + encode_utf8(one.drop_first()));
    assert(encode_utf8(one) =~= encode_scalar(c as u32));
}

/// An ASCII character encodes as its own byte.
pub proof fn lemma_encode_ascii(c: char, b: u8)
    requires
        c as u32 == b as u32,
        b < 0x80,
    ensures
        encode_scalar(c as u32) == seq![b],
{
    let v = c as u32;
    assert(has_width_1_encoding(v));
    assert(leading_byte_width_1(v) == b) by (bit_vector)
        requires
            v == b as u32,
            b < 0x80u8,
    ;
}

/// The encoding of a character other than the ASCII character `sep` holds no `b`, the
/// byte of `sep`.
pub proof fn lemma_scalar_avoids(c: char, sep: char, b: u8)
    requires
        sep as u32 == b as u32,
        b < 0x80,
        c != sep,
    ensures
        !encode_scalar(c as u32).contains(b),
{
    let v = c as u32;
    vstd::utf8::char_is_scalar(c);
    let e = encode_scalar(v);
    if has_width_1_encoding(v) {
        assert(v != b as u32) by {
            if v == b as u32 {
                vstd::utf8::char_u32_cast(c, v);
                vstd::utf8::char_u32_cast(sep, v);
            }
        }
        assert(leading_byte_width_1(v) != b) by (bit_vector)
            requires
                v <= 0x7Fu32,
                v != b as u32,
        ;
        assert(e =~= seq![leading_byte_width_1(v)]);
    } else {
        assert(b < 0x80u8);
        assert(last_continuation_byte(v) >= 0x80u8) by (bit_vector);
        assert(second_last_continuation_byte(v) >= 0x80u8) by (bit_vector);
        assert(third_last_continuation_byte(v) >= 0x80u8) by (bit_vector);
        assert(leading_byte_width_2(v) >= 0x80u8) by (bit_vector);
        assert(leading_byte_width_3(v) >= 0x80u8) by (bit_vector);
        assert(leading_byte_width_4(v) >= 0x80u8) by (bit_vector);
        assert forall|i: int| 0 <= i < e.len() implies e[i] >= 0x80u8 by {}
    }
}

/// A text without the ASCII character `sep` encodes to bytes without its byte `b`.
pub proof fn lemma_encode_avoids(t: Seq<char>, sep: char, b: u8)
    requires
        sep as u32 == b as u32,
        b < 0x80,
        !t.contains(sep),
    ensures
        !encode_utf8(t).contains(b),
    decreases t.len(),
{
    if t.len() > 0 {
        let rest = t.drop_first();
        assert(!rest.contains(sep)) by {
            if rest.contains(sep) {
                let i = choose|i: int| 0 <= i < rest.len() && rest[i] == sep;
                assert(t[i + 1] == sep);
            }
        }
        lemma_encode_avoids(rest, sep, b);
        assert(t[0] != sep);
        lemma_scalar_avoids(t[0], sep, b);
        let e = encode_utf8(t);
        let h = encode_scalar(t[0] as u32);
        assert(e =~= h + encode_utf8(rest));
        assert forall|i: int| 0 <= i < e.len() implies e[i] != b by {
            if i < h.len() {
                assert(e[i] == h[i]);
            } else {
                assert(e[i] == encode_utf8(rest)[i - h.len()]);
            }
        }
    }
}

/// Splitting the encoding of a text at the byte of an ASCII separator splits the text
/// at the separator, piece by piece.
pub proof fn lemma_split_encode(t: Seq<char>, sep: char, b: u8)
    requires
        sep as u32 == b as u32,
        b < 0x80,
    ensures
        split_bytes(encode_utf8(t), b) == split_text(t, sep).map_values(|x: Seq<char>| encode_utf8(x)),
    decreases t.len(),
{
    if t.len() == 0 {
        assert(split_text(t, sep).map_values(|x: Seq<char>| encode_utf8(x)) =~= seq![Seq::<u8>::empty()]);
    } else {
        let t0 = t.drop_last();
        let c = t.last();
        lemma_split_encode(t0, sep, b);
        lemma_split_text_nonempty(t0, sep);
        assert(t0.push(c) =~= t);
        lemma_encode_push(t0, c);
        let p = split_text(t0, sep);
        let pe = p.map_values(|x: Seq<char>| encode_utf8(x));
        if c == sep {
            lemma_encode_ascii(c, b);
            assert(encode_utf8(t) =~= encode_utf8(t0).push(b));
            assert(encode_utf8(t).drop_last() =~= encode_utf8(t0));
            assert(split_text(t, sep) == p.push(Seq::<char>::empty()));
            assert(split_text(t, sep).map_values(|x: Seq<char>| encode_utf8(x)) =~= pe.push(Seq::<u8>::empty()));
        } else {
            lemma_scalar_avoids(c, sep, b);
            lemma_split_bytes_append(encode_utf8(t0), encode_scalar(c as u32), b);
            lemma_encode_push(p.last(), c);
            assert(split_text(t, sep) == p.update(p.len() - 1, p.last().push(c)));
            assert(pe.last() == encode_utf8(p.last()));
            assert(split_text(t, sep).map_values(|x: Seq<char>| encode_utf8(x)) =~= pe.update(
                pe.len() - 1,
                pe.last() + encode_scalar(c as u32),
            ));
        }
    }
}

/// Reading the encoding of a text leniently gives the text back.
pub proof fn lemma_lenient_encode(t: Seq<char>)
    ensures
        lenient_utf8(encode_utf8(t)) == t,
{
    encode_utf8_valid_utf8(t);
    encode_utf8_decode_utf8(t);
}

} // verus!
