//! The order of texts is the order of their UTF-8 bytes, by which strings compare.

use vstd::prelude::*;
use vstd::utf8::{
    char_is_scalar, encode_scalar, encode_utf8, has_width_1_encoding, has_width_2_encoding,
    has_width_3_encoding, has_width_4_encoding, is_scalar, last_continuation_byte,
    leading_byte_width_1, leading_byte_width_2, leading_byte_width_3, leading_byte_width_4,
    second_last_continuation_byte, third_last_continuation_byte,
};

use crate::order::{falls_behind_at, law_order_total, text_less};

verus! {

/// Where one sequence of bytes first falls behind another: they agree before `at`, and there the
/// first ends or has the smaller byte.
pub open spec fn bytes_fall_behind_at(a: Seq<u8>, b: Seq<u8>, at: int) -> bool {
    &&& 0 <= at <= a.len()
    &&& at < b.len()
    &&& forall|i: int| 0 <= i < at ==> #[trigger] a[i] == b[i]
    &&& at == a.len() || a[at] < b[at]
}

/// The lexicographic order of bytes.
pub open spec fn bytes_less(a: Seq<u8>, b: Seq<u8>) -> bool {
    exists|at: int| bytes_fall_behind_at(a, b, at)
}

proof fn lemma_leading_bytes(u: u32)
    by (bit_vector)
    ensures
        has_width_1_encoding(u) ==> leading_byte_width_1(u) <= 0x7f,
        has_width_2_encoding(u) ==> 0xc0 <= leading_byte_width_2(u) <= 0xdf,
        has_width_3_encoding(u) ==> 0xe0 <= leading_byte_width_3(u) <= 0xef,
        has_width_4_encoding(u) ==> 0xf0 <= leading_byte_width_4(u),
{
}

proof fn lemma_width_1_order(u: u32, v: u32)
    by (bit_vector)
    requires
        has_width_1_encoding(u),
        has_width_1_encoding(v),
        u < v,
    ensures
        leading_byte_width_1(u) < leading_byte_width_1(v),
{
}

proof fn lemma_width_2_order(u: u32, v: u32)
    by (bit_vector)
    requires
        has_width_2_encoding(u),
        has_width_2_encoding(v),
        u < v,
    ensures
        leading_byte_width_2(u) < leading_byte_width_2(v) || (leading_byte_width_2(u)
            == leading_byte_width_2(v) && last_continuation_byte(u) < last_continuation_byte(v)),
{
}

proof fn lemma_width_3_order(u: u32, v: u32)
    by (bit_vector)
    requires
        has_width_3_encoding(u),
        has_width_3_encoding(v),
        u < v,
    ensures
        leading_byte_width_3(u) < leading_byte_width_3(v) || (leading_byte_width_3(u)
            == leading_byte_width_3(v) && (second_last_continuation_byte(u)
            < second_last_continuation_byte(v) || (second_last_continuation_byte(u)
            == second_last_continuation_byte(v) && last_continuation_byte(u)
            < last_continuation_byte(v)))),
{
}

proof fn lemma_width_4_order(u: u32, v: u32)
    by (bit_vector)
    requires
        has_width_4_encoding(u),
        has_width_4_encoding(v),
        u < v,
    ensures
        leading_byte_width_4(u) < leading_byte_width_4(v) || (leading_byte_width_4(u)
            == leading_byte_width_4(v) && (third_last_continuation_byte(u)
            < third_last_continuation_byte(v) || (third_last_continuation_byte(u)
            == third_last_continuation_byte(v) && (second_last_continuation_byte(u)
            < second_last_continuation_byte(v) || (second_last_continuation_byte(u)
            == second_last_continuation_byte(v) && last_continuation_byte(u)
            < last_continuation_byte(v)))))),
{
}

/// The encoding of a smaller code point has the smaller byte where the two first differ, and
/// neither ends before.
proof fn lemma_scalar_order(u: u32, v: u32) -> (at: int)
    requires
        is_scalar(u),
        is_scalar(v),
        u < v,
    ensures
        bytes_fall_behind_at(encode_scalar(u), encode_scalar(v), at),
        at < encode_scalar(u).len(),
{
    let a = encode_scalar(u);
    let b = encode_scalar(v);
    lemma_leading_bytes(u);
    lemma_leading_bytes(v);
    if has_width_1_encoding(u) && has_width_1_encoding(v) {
        lemma_width_1_order(u, v);
    } else if has_width_2_encoding(u) && has_width_2_encoding(v) {
        lemma_width_2_order(u, v);
    } else if has_width_3_encoding(u) && has_width_3_encoding(v) {
        lemma_width_3_order(u, v);
    } else if has_width_4_encoding(u) && has_width_4_encoding(v) {
        lemma_width_4_order(u, v);
    }
    if a[0] != b[0] {
        0
    } else if a[1] != b[1] {
        1
    } else if a[2] != b[2] {
        2
    } else {
        3
    }
}

proof fn lemma_char_order(c: char, d: char) -> (at: int)
    requires
        c < d,
    ensures
        bytes_fall_behind_at(encode_scalar(c as u32), encode_scalar(d as u32), at),
        at < encode_scalar(c as u32).len(),
{
    char_is_scalar(c);
    char_is_scalar(d);
    lemma_scalar_order(c as u32, d as u32)
}

proof fn lemma_bytes_follow(a: Seq<char>, b: Seq<char>, at: int) -> (byte: int)
    requires
        falls_behind_at(a, b, at),
    ensures
        bytes_fall_behind_at(encode_utf8(a), encode_utf8(b), byte),
    decreases at,
{
    let x = encode_utf8(a);
    let y = encode_utf8(b);
    char_is_scalar(b[0]);
    if a.len() == 0 {
        0
    } else {
        char_is_scalar(a[0]);
        let first = encode_scalar(a[0] as u32);
        let rest_a = a.drop_first();
        let rest_b = b.drop_first();
        if at == 0 {
            lemma_char_order(a[0], b[0])
        } else {
            assert(a[0] == b[0]);
            assert forall|i: int| 0 <= i < at - 1 implies #[trigger] rest_a[i] == rest_b[i] by {
                assert(a[i + 1] == b[i + 1]);
            }
            let byte = lemma_bytes_follow(rest_a, rest_b, at - 1);
            let whole = first.len() + byte;
            assert forall|i: int| 0 <= i < whole implies #[trigger] x[i] == y[i] by {
                if i >= first.len() {
                    assert(encode_utf8(rest_a)[i - first.len()] == encode_utf8(
                        rest_b,
                    )[i - first.len()]);
                }
            }
            whole
        }
    }
}

proof fn lemma_bytes_not_both(a: Seq<u8>, b: Seq<u8>)
    requires
        bytes_less(a, b),
    ensures
        !bytes_less(b, a),
{
    let i = choose|at: int| bytes_fall_behind_at(a, b, at);
    if bytes_less(b, a) {
        let j = choose|at: int| bytes_fall_behind_at(b, a, at);
        if i < j {
            assert(b[i] == a[i]);
        } else if j < i {
            assert(a[j] == b[j]);
        }
    }
}

/// One text comes before another by code point exactly where its UTF-8 bytes come first.
pub proof fn law_order_is_byte_order(a: Seq<char>, b: Seq<char>)
    ensures
        text_less(a, b) <==> bytes_less(encode_utf8(a), encode_utf8(b)),
{
    if text_less(a, b) {
        let at = choose|at: int| falls_behind_at(a, b, at);
        let byte = lemma_bytes_follow(a, b, at);
        assert(bytes_less(encode_utf8(a), encode_utf8(b)));
    } else {
        law_order_total(a, b);
        if text_less(b, a) {
            let at = choose|at: int| falls_behind_at(b, a, at);
            let byte = lemma_bytes_follow(b, a, at);
            assert(bytes_less(encode_utf8(b), encode_utf8(a)));
            lemma_bytes_not_both(encode_utf8(b), encode_utf8(a));
        } else if bytes_less(encode_utf8(a), encode_utf8(a)) {
            lemma_bytes_not_both(encode_utf8(a), encode_utf8(a));
        }
    }
}

} // verus!
