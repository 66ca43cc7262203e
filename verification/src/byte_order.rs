//! The order of texts by code points is the order of their UTF-8 bytes.

use vstd::prelude::*;
use vstd::utf8::*;

verus! {

/// Whether `a` and `b` agree before `k`, and there `a` ends or holds the
/// smaller byte.
pub open spec fn smaller_byte_at(a: Seq<u8>, b: Seq<u8>, k: int) -> bool {
    &&& 0 <= k <= a.len()
    &&& k < b.len()
    &&& a.take(k) == b.take(k)
    &&& k == a.len() || a[k] < b[k]
}

/// Whether `a` comes strictly before `b` in the lexicographic order of bytes.
pub open spec fn bytes_precede(a: Seq<u8>, b: Seq<u8>) -> bool {
    exists|k: int| #[trigger] smaller_byte_at(a, b, k)
}

/// One text comes before another just when its UTF-8 bytes do.
pub proof fn law_order_of_texts_is_order_of_bytes(a: Seq<char>, b: Seq<char>)
    ensures
        crate::text::precedes(a, b) <==> bytes_precede(encode_utf8(a), encode_utf8(b)),
{
    if crate::text::precedes(a, b) {
        lemma_bytes_follow(a, b);
    } else {
        crate::text::lemma_precedes_total(a, b);
        if a != b {
            lemma_bytes_follow(b, a);
        }
        if bytes_precede(encode_utf8(a), encode_utf8(b)) {
            lemma_bytes_not_both(encode_utf8(a), encode_utf8(b));
        }
    }
}

/// Of two byte strings at most one comes before the other.
proof fn lemma_bytes_not_both(a: Seq<u8>, b: Seq<u8>)
    requires
        bytes_precede(a, b),
    ensures
        !bytes_precede(b, a),
        a != b,
{
    let i = choose|i: int| #[trigger] smaller_byte_at(a, b, i);
    assert forall|j: int| !#[trigger] smaller_byte_at(b, a, j) by {
        if smaller_byte_at(b, a, j) {
            if i < j {
                assert(a.take(j)[i] == a[i]);
                assert(b.take(j)[i] == b[i]);
            } else if j < i {
                assert(a.take(i)[j] == a[j]);
                assert(b.take(i)[j] == b[j]);
            }
        }
    }
}

proof fn lemma_bytes_follow(a: Seq<char>, b: Seq<char>)
    requires
        crate::text::precedes(a, b),
    ensures
        bytes_precede(encode_utf8(a), encode_utf8(b)),
{
    let k = choose|k: int| #[trigger] crate::text::smaller_at(a, b, k);
    let common = a.take(k);
    assert(a == common + a.skip(k));
    assert(b == common + b.skip(k));
    lemma_encode_concat(common, a.skip(k));
    lemma_encode_concat(common, b.skip(k));
    let head = encode_utf8(common);
    let x = encode_utf8(a.skip(k));
    let y = encode_utf8(b.skip(k));
    let d = b[k] as u32;
    let y_rest = encode_utf8(b.skip(k).drop_first());
    assert(y == encode_scalar(d) + y_rest);
    if k == a.len() {
        assert(x == Seq::<u8>::empty());
        assert(smaller_byte_at(head + x, head + y, head.len() as int)) by {
            assert((head + x).take(head.len() as int) == head);
            assert((head + y).take(head.len() as int) == head);
        }
    } else {
        let c = a[k] as u32;
        let x_rest = encode_utf8(a.skip(k).drop_first());
        assert(x == encode_scalar(c) + x_rest);
        char_is_scalar(a[k]);
        char_is_scalar(b[k]);
        lemma_char_order(a[k], b[k]);
        let j = lemma_scalar_order(c, d);
        let at = head.len() + j;
        let xs = encode_scalar(c);
        let ys = encode_scalar(d);
        assert((head + x).take(at) == head + xs.take(j));
        assert((head + y).take(at) == head + ys.take(j));
        assert(smaller_byte_at(head + x, head + y, at));
    }
}

/// Characters are ordered by their scalars.
proof fn lemma_char_order(c: char, d: char)
    requires
        (c as int) < (d as int),
    ensures
        (c as u32) < (d as u32),
{
}

/// The encoding of a concatenation is the concatenation of the encodings.
pub proof fn lemma_encode_concat(a: Seq<char>, b: Seq<char>)
    ensures
        encode_utf8(a + b) == encode_utf8(a) + encode_utf8(b),
    decreases a.len(),
{
    if a.len() == 0 {
        assert(a + b == b);
    } else {
        assert((a + b).drop_first() == a.drop_first() + b);
        lemma_encode_concat(a.drop_first(), b);
    }
}

/// The encodings of two scalars differ first in a byte that both have, and
/// the smaller scalar has the smaller one.
proof fn lemma_scalar_order(c: u32, d: u32) -> (j: int)
    requires
        is_scalar(c),
        is_scalar(d),
        c < d,
    ensures
        0 <= j < encode_scalar(c).len(),
        j < encode_scalar(d).len(),
        encode_scalar(c).take(j) == encode_scalar(d).take(j),
        encode_scalar(c)[j] < encode_scalar(d)[j],
{
    let x = encode_scalar(c);
    let y = encode_scalar(d);
    lemma_leading_bytes(c);
    lemma_leading_bytes(d);
    if x[0] < y[0] {
        assert(x.take(0) == y.take(0));
        0
    } else {
        lemma_same_width(c, d);
        if has_width_1_encoding(c) {
            0
        } else if has_width_2_encoding(c) {
            assert(x.take(1) == y.take(1));
            1
        } else if has_width_3_encoding(c) {
            if x[1] < y[1] {
                assert(x.take(1) == y.take(1));
                1
            } else {
                assert(x.take(2) == y.take(2));
                2
            }
        } else if x[1] < y[1] {
            assert(x.take(1) == y.take(1));
            1
        } else if x[2] < y[2] {
            assert(x.take(2) == y.take(2));
            2
        } else {
            assert(x.take(3) == y.take(3));
            3
        }
    }
}

/// The leading byte tells the width of an encoding.
proof fn lemma_leading_bytes(c: u32)
    requires
        is_scalar(c),
    ensures
        has_width_1_encoding(c) ==> leading_byte_width_1(c) < 0x80,
        has_width_2_encoding(c) ==> 0xC0 <= leading_byte_width_2(c) < 0xE0,
        has_width_3_encoding(c) ==> 0xE0 <= leading_byte_width_3(c) < 0xF0,
        has_width_4_encoding(c) ==> 0xF0 <= leading_byte_width_4(c),
{
    assert(((c & 0x7F) as u8) < 0x80u8) by (bit_vector);
    assert(0xC0u8 <= 0xC0u8 | ((c >> 6) & 0x1F) as u8) by (bit_vector);
    assert(0xC0u8 | ((c >> 6) & 0x1F) as u8 <= 0xDFu8) by (bit_vector);
    assert(0xE0u8 <= 0xE0u8 | ((c >> 12) & 0x0F) as u8) by (bit_vector);
    assert(0xE0u8 | ((c >> 12) & 0x0F) as u8 <= 0xEFu8) by (bit_vector);
    assert(0xF0u8 <= 0xF0u8 | ((c >> 18) & 0x7) as u8) by (bit_vector);
}

/// Two scalars of one width are ordered by their first bytes that differ.
proof fn lemma_same_width(c: u32, d: u32)
    requires
        is_scalar(c),
        is_scalar(d),
        c < d,
        encode_scalar(c)[0] >= encode_scalar(d)[0],
    ensures
        encode_scalar(c).len() == encode_scalar(d).len(),
        encode_scalar(c)[0] == encode_scalar(d)[0],
        !has_width_1_encoding(c),
        has_width_2_encoding(c) ==> encode_scalar(c)[1] < encode_scalar(d)[1],
        has_width_3_encoding(c) ==> encode_scalar(c)[1] < encode_scalar(d)[1] || (encode_scalar(
            c,
        )[1] == encode_scalar(d)[1] && encode_scalar(c)[2] < encode_scalar(d)[2]),
        has_width_4_encoding(c) ==> encode_scalar(c)[1] < encode_scalar(d)[1] || (encode_scalar(
            c,
        )[1] == encode_scalar(d)[1] && (encode_scalar(c)[2] < encode_scalar(d)[2] || (
        encode_scalar(c)[2] == encode_scalar(d)[2] && encode_scalar(c)[3] < encode_scalar(d)[3]))),
{
    lemma_leading_bytes(c);
    lemma_leading_bytes(d);
    if has_width_1_encoding(c) {
        assert(c <= 0x7F && d <= 0x7F && c < d ==> ((c & 0x7F) as u8) < ((d & 0x7F) as u8))
            by (bit_vector);
    } else if has_width_2_encoding(c) {
        assert(c <= 0x7FF && d <= 0x7FF && c < d ==> {
            let c0 = 0xC0u8 | ((c >> 6) & 0x1F) as u8;
            let d0 = 0xC0u8 | ((d >> 6) & 0x1F) as u8;
            let c1 = 0x80u8 | (c & 0x3F) as u8;
            let d1 = 0x80u8 | (d & 0x3F) as u8;
            c0 < d0 || (c0 == d0 && c1 < d1)
        }) by (bit_vector);
    } else if has_width_3_encoding(c) {
        assert(c <= 0xFFFF && d <= 0xFFFF && c < d ==> {
            let c0 = 0xE0u8 | ((c >> 12) & 0x0F) as u8;
            let d0 = 0xE0u8 | ((d >> 12) & 0x0F) as u8;
            let c1 = 0x80u8 | ((c >> 6) & 0x3F) as u8;
            let d1 = 0x80u8 | ((d >> 6) & 0x3F) as u8;
            let c2 = 0x80u8 | (c & 0x3F) as u8;
            let d2 = 0x80u8 | (d & 0x3F) as u8;
            c0 < d0 || (c0 == d0 && (c1 < d1 || (c1 == d1 && c2 < d2)))
        }) by (bit_vector);
    } else {
        assert(c <= 0x10FFFF && d <= 0x10FFFF && c < d ==> {
            let c0 = 0xF0u8 | ((c >> 18) & 0x7) as u8;
            let d0 = 0xF0u8 | ((d >> 18) & 0x7) as u8;
            let c1 = 0x80u8 | ((c >> 12) & 0x3F) as u8;
            let d1 = 0x80u8 | ((d >> 12) & 0x3F) as u8;
            let c2 = 0x80u8 | ((c >> 6) & 0x3F) as u8;
            let d2 = 0x80u8 | ((d >> 6) & 0x3F) as u8;
            let c3 = 0x80u8 | (c & 0x3F) as u8;
            let d3 = 0x80u8 | (d & 0x3F) as u8;
            c0 < d0 || (c0 == d0 && (c1 < d1 || (c1 == d1 && (c2 < d2 || (c2 == d2 && c3 < d3)))))
        }) by (bit_vector);
    }
}

} // verus!
