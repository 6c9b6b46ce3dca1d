//! Regrouping of a 160-bit account identifier between 20 groups of eight
//! bits and 32 groups of five bits, most significant bit first.

use vstd::prelude::*;

verus! {

/// Bit `k` of the stream that `data` spells when each element contributes
/// `width` bits, most significant first.
#[verifier::opaque]
pub open spec fn stream_bit(data: Seq<u8>, width: int, k: int) -> u8 {
    (data[k / width] >> ((width - 1 - k % width) as u8)) & 1u8
}

/// The `i`-th group of five bits of a byte stream, as a number below 32.
pub open spec fn group_of_5(data: Seq<u8>, i: int) -> u8 {
    (stream_bit(data, 8, 5 * i) << 4u8) | (stream_bit(data, 8, 5 * i + 1) << 3u8) | (stream_bit(
        data,
        8,
        5 * i + 2,
    ) << 2u8) | (stream_bit(data, 8, 5 * i + 3) << 1u8) | stream_bit(data, 8, 5 * i + 4)
}

/// The `i`-th byte of a stream of five-bit groups. Only the low five bits of
/// each group take part.
pub open spec fn group_of_8(data: Seq<u8>, i: int) -> u8 {
    (stream_bit(data, 5, 8 * i) << 7u8) | (stream_bit(data, 5, 8 * i + 1) << 6u8) | (stream_bit(
        data,
        5,
        8 * i + 2,
    ) << 5u8) | (stream_bit(data, 5, 8 * i + 3) << 4u8) | (stream_bit(data, 5, 8 * i + 4) << 3u8)
        | (stream_bit(data, 5, 8 * i + 5) << 2u8) | (stream_bit(data, 5, 8 * i + 6) << 1u8)
        | stream_bit(data, 5, 8 * i + 7)
}

proof fn lemma_split_5(a: u8, b: u8, c: u8, d: u8, e: u8)
    ensures
        (a & 0b11111000) >> 3 == (((a >> 7) & 1) << 4) | (((a >> 6) & 1) << 3) | (((a >> 5) & 1)
            << 2) | (((a >> 4) & 1) << 1) | ((a >> 3) & 1),
        ((a & 0b00000111) << 2) | ((b & 0b11000000) >> 6) == (((a >> 2) & 1) << 4) | (((a >> 1)
            & 1) << 3) | (((a >> 0) & 1) << 2) | (((b >> 7) & 1) << 1) | ((b >> 6) & 1),
        (b & 0b00111110) >> 1 == (((b >> 5) & 1) << 4) | (((b >> 4) & 1) << 3) | (((b >> 3) & 1)
            << 2) | (((b >> 2) & 1) << 1) | ((b >> 1) & 1),
        ((b & 0b00000001) << 4) | ((c & 0b11110000) >> 4) == (((b >> 0) & 1) << 4) | (((c >> 7)
            & 1) << 3) | (((c >> 6) & 1) << 2) | (((c >> 5) & 1) << 1) | ((c >> 4) & 1),
        ((c & 0b00001111) << 1) | ((d & 0b10000000) >> 7) == (((c >> 3) & 1) << 4) | (((c >> 2)
            & 1) << 3) | (((c >> 1) & 1) << 2) | (((c >> 0) & 1) << 1) | ((d >> 7) & 1),
        (d & 0b01111100) >> 2 == (((d >> 6) & 1) << 4) | (((d >> 5) & 1) << 3) | (((d >> 4) & 1)
            << 2) | (((d >> 3) & 1) << 1) | ((d >> 2) & 1),
        ((d & 0b00000011) << 3) | ((e & 0b11100000) >> 5) == (((d >> 1) & 1) << 4) | (((d >> 0)
            & 1) << 3) | (((e >> 7) & 1) << 2) | (((e >> 6) & 1) << 1) | ((e >> 5) & 1),
        (e & 0b00011111) >> 0 == (((e >> 4) & 1) << 4) | (((e >> 3) & 1) << 3) | (((e >> 2) & 1)
            << 2) | (((e >> 1) & 1) << 1) | ((e >> 0) & 1),
        (a & 0b11111000) >> 3 < 32,
        ((a & 0b00000111) << 2) | ((b & 0b11000000) >> 6) < 32,
        (b & 0b00111110) >> 1 < 32,
        ((b & 0b00000001) << 4) | ((c & 0b11110000) >> 4) < 32,
        ((c & 0b00001111) << 1) | ((d & 0b10000000) >> 7) < 32,
        (d & 0b01111100) >> 2 < 32,
        ((d & 0b00000011) << 3) | ((e & 0b11100000) >> 5) < 32,
        (e & 0b00011111) >> 0 < 32,
{
    assert((a & 0b11111000) >> 3 == (((a >> 7) & 1) << 4) | (((a >> 6) & 1) << 3) | (((a >> 5) & 1)
        << 2) | (((a >> 4) & 1) << 1) | ((a >> 3) & 1) && (a & 0b11111000) >> 3 < 32)
        by (bit_vector);
    assert(((a & 0b00000111) << 2) | ((b & 0b11000000) >> 6) == (((a >> 2) & 1) << 4) | (((a >> 1)
        & 1) << 3) | (((a >> 0) & 1) << 2) | (((b >> 7) & 1) << 1) | ((b >> 6) & 1) && ((a
        & 0b00000111) << 2) | ((b & 0b11000000) >> 6) < 32) by (bit_vector);
    assert((b & 0b00111110) >> 1 == (((b >> 5) & 1) << 4) | (((b >> 4) & 1) << 3) | (((b >> 3) & 1)
        << 2) | (((b >> 2) & 1) << 1) | ((b >> 1) & 1) && (b & 0b00111110) >> 1 < 32)
        by (bit_vector);
    assert(((b & 0b00000001) << 4) | ((c & 0b11110000) >> 4) == (((b >> 0) & 1) << 4) | (((c >> 7)
        & 1) << 3) | (((c >> 6) & 1) << 2) | (((c >> 5) & 1) << 1) | ((c >> 4) & 1) && ((b
        & 0b00000001) << 4) | ((c & 0b11110000) >> 4) < 32) by (bit_vector);
    assert(((c & 0b00001111) << 1) | ((d & 0b10000000) >> 7) == (((c >> 3) & 1) << 4) | (((c >> 2)
        & 1) << 3) | (((c >> 1) & 1) << 2) | (((c >> 0) & 1) << 1) | ((d >> 7) & 1) && ((c
        & 0b00001111) << 1) | ((d & 0b10000000) >> 7) < 32) by (bit_vector);
    assert((d & 0b01111100) >> 2 == (((d >> 6) & 1) << 4) | (((d >> 5) & 1) << 3) | (((d >> 4) & 1)
        << 2) | (((d >> 3) & 1) << 1) | ((d >> 2) & 1) && (d & 0b01111100) >> 2 < 32)
        by (bit_vector);
    assert(((d & 0b00000011) << 3) | ((e & 0b11100000) >> 5) == (((d >> 1) & 1) << 4) | (((d >> 0)
        & 1) << 3) | (((e >> 7) & 1) << 2) | (((e >> 6) & 1) << 1) | ((e >> 5) & 1) && ((d
        & 0b00000011) << 3) | ((e & 0b11100000) >> 5) < 32) by (bit_vector);
    assert((e & 0b00011111) >> 0 == (((e >> 4) & 1) << 4) | (((e >> 3) & 1) << 3) | (((e >> 2) & 1)
        << 2) | (((e >> 1) & 1) << 1) | ((e >> 0) & 1) && (e & 0b00011111) >> 0 < 32)
        by (bit_vector);
}

#[verifier::rlimit(60)]
proof fn lemma_row_of_5_at_0(s: Seq<u8>)
    requires
        s.len() == 20,
    ensures
        group_of_5(s, 0) == (s[0] & 0b11111000) >> 3,
        group_of_5(s, 1) == ((s[0] & 0b00000111) << 2) | ((s[1] & 0b11000000) >> 6),
        group_of_5(s, 2) == (s[1] & 0b00111110) >> 1,
        group_of_5(s, 3) == ((s[1] & 0b00000001) << 4) | ((s[2] & 0b11110000) >> 4),
        group_of_5(s, 4) == ((s[2] & 0b00001111) << 1) | ((s[3] & 0b10000000) >> 7),
        group_of_5(s, 5) == (s[3] & 0b01111100) >> 2,
        group_of_5(s, 6) == ((s[3] & 0b00000011) << 3) | ((s[4] & 0b11100000) >> 5),
        group_of_5(s, 7) == (s[4] & 0b00011111) >> 0,
{
    reveal(stream_bit);
    lemma_split_5(s[0], s[1], s[2], s[3], s[4]);
}

#[verifier::rlimit(60)]
proof fn lemma_row_of_5_at_1(s: Seq<u8>)
    requires
        s.len() == 20,
    ensures
        group_of_5(s, 8) == (s[5] & 0b11111000) >> 3,
        group_of_5(s, 9) == ((s[5] & 0b00000111) << 2) | ((s[6] & 0b11000000) >> 6),
        group_of_5(s, 10) == (s[6] & 0b00111110) >> 1,
        group_of_5(s, 11) == ((s[6] & 0b00000001) << 4) | ((s[7] & 0b11110000) >> 4),
        group_of_5(s, 12) == ((s[7] & 0b00001111) << 1) | ((s[8] & 0b10000000) >> 7),
        group_of_5(s, 13) == (s[8] & 0b01111100) >> 2,
        group_of_5(s, 14) == ((s[8] & 0b00000011) << 3) | ((s[9] & 0b11100000) >> 5),
        group_of_5(s, 15) == (s[9] & 0b00011111) >> 0,
{
    reveal(stream_bit);
    lemma_split_5(s[5], s[6], s[7], s[8], s[9]);
}

#[verifier::rlimit(60)]
proof fn lemma_row_of_5_at_2(s: Seq<u8>)
    requires
        s.len() == 20,
    ensures
        group_of_5(s, 16) == (s[10] & 0b11111000) >> 3,
        group_of_5(s, 17) == ((s[10] & 0b00000111) << 2) | ((s[11] & 0b11000000) >> 6),
        group_of_5(s, 18) == (s[11] & 0b00111110) >> 1,
        group_of_5(s, 19) == ((s[11] & 0b00000001) << 4) | ((s[12] & 0b11110000) >> 4),
        group_of_5(s, 20) == ((s[12] & 0b00001111) << 1) | ((s[13] & 0b10000000) >> 7),
        group_of_5(s, 21) == (s[13] & 0b01111100) >> 2,
        group_of_5(s, 22) == ((s[13] & 0b00000011) << 3) | ((s[14] & 0b11100000) >> 5),
        group_of_5(s, 23) == (s[14] & 0b00011111) >> 0,
{
    reveal(stream_bit);
    lemma_split_5(s[10], s[11], s[12], s[13], s[14]);
}

#[verifier::rlimit(60)]
proof fn lemma_row_of_5_at_3(s: Seq<u8>)
    requires
        s.len() == 20,
    ensures
        group_of_5(s, 24) == (s[15] & 0b11111000) >> 3,
        group_of_5(s, 25) == ((s[15] & 0b00000111) << 2) | ((s[16] & 0b11000000) >> 6),
        group_of_5(s, 26) == (s[16] & 0b00111110) >> 1,
        group_of_5(s, 27) == ((s[16] & 0b00000001) << 4) | ((s[17] & 0b11110000) >> 4),
        group_of_5(s, 28) == ((s[17] & 0b00001111) << 1) | ((s[18] & 0b10000000) >> 7),
        group_of_5(s, 29) == (s[18] & 0b01111100) >> 2,
        group_of_5(s, 30) == ((s[18] & 0b00000011) << 3) | ((s[19] & 0b11100000) >> 5),
        group_of_5(s, 31) == (s[19] & 0b00011111) >> 0,
{
    reveal(stream_bit);
    lemma_split_5(s[15], s[16], s[17], s[18], s[19]);
}

proof fn lemma_row_of_5(s: Seq<u8>, x: int)
    requires
        s.len() == 20,
        0 <= x < 4,
    ensures
        group_of_5(s, 8 * x + 0) == (s[5 * x] & 0b11111000) >> 3,
        group_of_5(s, 8 * x + 1) == ((s[5 * x] & 0b00000111) << 2) | ((s[5 * x + 1] & 0b11000000) >> 6),
        group_of_5(s, 8 * x + 2) == (s[5 * x + 1] & 0b00111110) >> 1,
        group_of_5(s, 8 * x + 3) == ((s[5 * x + 1] & 0b00000001) << 4) | ((s[5 * x + 2] & 0b11110000) >> 4),
        group_of_5(s, 8 * x + 4) == ((s[5 * x + 2] & 0b00001111) << 1) | ((s[5 * x + 3] & 0b10000000) >> 7),
        group_of_5(s, 8 * x + 5) == (s[5 * x + 3] & 0b01111100) >> 2,
        group_of_5(s, 8 * x + 6) == ((s[5 * x + 3] & 0b00000011) << 3) | ((s[5 * x + 4] & 0b11100000) >> 5),
        group_of_5(s, 8 * x + 7) == (s[5 * x + 4] & 0b00011111) >> 0,
{
    if x == 0 {
        lemma_row_of_5_at_0(s);
    } else if x == 1 {
        lemma_row_of_5_at_1(s);
    } else if x == 2 {
        lemma_row_of_5_at_2(s);
    } else {
        lemma_row_of_5_at_3(s);
    }
}

/// Splits 20 bytes into 32 groups of five bits, most significant bit first.
pub fn rearrange_bits_into_group_of_5(data: &[u8; 20]) -> (vec: Vec<u8>)
    ensures
        vec@.len() == 32,
        forall|i: int| 0 <= i < 32 ==> #[trigger] vec@[i] == group_of_5(data@, i),
        forall|i: int| 0 <= i < 32 ==> #[trigger] vec@[i] < 32,
{
    let mut vec: Vec<u8> = Vec::new();
    let mut x: usize = 0;
    while x < 4
        invariant
            x <= 4,
            vec@.len() == 8 * x,
            forall|i: int| 0 <= i < 8 * x ==> #[trigger] vec@[i] == group_of_5(data@, i),
            forall|i: int| 0 <= i < 8 * x ==> #[trigger] vec@[i] < 32,
        decreases 4 - x,
    {
        let a: u8 = data[x * 5];
        let b: u8 = data[x * 5 + 1];
        let c: u8 = data[x * 5 + 2];
        let d: u8 = data[x * 5 + 3];
        let e: u8 = data[x * 5 + 4];
        proof {
            lemma_split_5(a, b, c, d, e);
            lemma_row_of_5(data@, x as int);
        }
        let ghost before = vec@;
        vec.push((a & 0b11111000) >> 3);
        vec.push(((a & 0b00000111) << 2) | ((b & 0b11000000) >> 6));
        vec.push((b & 0b00111110) >> 1);
        vec.push(((b & 0b00000001) << 4) | ((c & 0b11110000) >> 4));
        vec.push(((c & 0b00001111) << 1) | ((d & 0b10000000) >> 7));
        vec.push((d & 0b01111100) >> 2);
        vec.push(((d & 0b00000011) << 3) | ((e & 0b11100000) >> 5));
        vec.push((e & 0b00011111) >> 0);
        proof {
            let s = data@;
            let base = 8 * x as int;
            assert forall|i: int| 0 <= i < base + 8 implies #[trigger] vec@[i] == group_of_5(s, i)
                && vec@[i] < 32 by {
                if i < base {
                    assert(vec@[i] == before[i]);
                }
            }
        }
        x = x + 1;
    }
    vec
}

proof fn lemma_join_8(g0: u8, g1: u8, g2: u8, g3: u8, g4: u8, g5: u8, g6: u8, g7: u8)
    ensures
        ((g0 & 0b00011111) << 3) | ((g1 & 0b00011100) >> 2) == (((g0 >> 4) & 1) << 7) | (((g0 >> 3) & 1) << 6) | (((g0 >> 2) & 1) << 5) | (((g0 >> 1) & 1) << 4) | (((g0 >> 0) & 1) << 3) | (((g1 >> 4) & 1) << 2) | (((g1 >> 3) & 1) << 1) | ((g1 >> 2) & 1),
        ((g1 & 0b00000011) << 6) | ((g2 & 0b00011111) << 1) | ((g3 & 0b00010000) >> 4) == (((g1 >> 1) & 1) << 7) | (((g1 >> 0) & 1) << 6) | (((g2 >> 4) & 1) << 5) | (((g2 >> 3) & 1) << 4) | (((g2 >> 2) & 1) << 3) | (((g2 >> 1) & 1) << 2) | (((g2 >> 0) & 1) << 1) | ((g3 >> 4) & 1),
        ((g3 & 0b00001111) << 4) | ((g4 & 0b00011110) >> 1) == (((g3 >> 3) & 1) << 7) | (((g3 >> 2) & 1) << 6) | (((g3 >> 1) & 1) << 5) | (((g3 >> 0) & 1) << 4) | (((g4 >> 4) & 1) << 3) | (((g4 >> 3) & 1) << 2) | (((g4 >> 2) & 1) << 1) | ((g4 >> 1) & 1),
        ((g4 & 0b00000001) << 7) | ((g5 & 0b00011111) << 2) | ((g6 & 0b00011000) >> 3) == (((g4 >> 0) & 1) << 7) | (((g5 >> 4) & 1) << 6) | (((g5 >> 3) & 1) << 5) | (((g5 >> 2) & 1) << 4) | (((g5 >> 1) & 1) << 3) | (((g5 >> 0) & 1) << 2) | (((g6 >> 4) & 1) << 1) | ((g6 >> 3) & 1),
        ((g6 & 0b00000111) << 5) | ((g7 & 0b00011111) >> 0) == (((g6 >> 2) & 1) << 7) | (((g6 >> 1) & 1) << 6) | (((g6 >> 0) & 1) << 5) | (((g7 >> 4) & 1) << 4) | (((g7 >> 3) & 1) << 3) | (((g7 >> 2) & 1) << 2) | (((g7 >> 1) & 1) << 1) | ((g7 >> 0) & 1),
{
    assert(((g0 & 0b00011111) << 3) | ((g1 & 0b00011100) >> 2) == (((g0 >> 4) & 1) << 7) | (((g0 >> 3) & 1) << 6) | (((g0 >> 2) & 1) << 5) | (((g0 >> 1) & 1) << 4) | (((g0 >> 0) & 1) << 3) | (((g1 >> 4) & 1) << 2) | (((g1 >> 3) & 1) << 1) | ((g1 >> 2) & 1)) by (bit_vector);
    assert(((g1 & 0b00000011) << 6) | ((g2 & 0b00011111) << 1) | ((g3 & 0b00010000) >> 4) == (((g1 >> 1) & 1) << 7) | (((g1 >> 0) & 1) << 6) | (((g2 >> 4) & 1) << 5) | (((g2 >> 3) & 1) << 4) | (((g2 >> 2) & 1) << 3) | (((g2 >> 1) & 1) << 2) | (((g2 >> 0) & 1) << 1) | ((g3 >> 4) & 1)) by (bit_vector);
    assert(((g3 & 0b00001111) << 4) | ((g4 & 0b00011110) >> 1) == (((g3 >> 3) & 1) << 7) | (((g3 >> 2) & 1) << 6) | (((g3 >> 1) & 1) << 5) | (((g3 >> 0) & 1) << 4) | (((g4 >> 4) & 1) << 3) | (((g4 >> 3) & 1) << 2) | (((g4 >> 2) & 1) << 1) | ((g4 >> 1) & 1)) by (bit_vector);
    assert(((g4 & 0b00000001) << 7) | ((g5 & 0b00011111) << 2) | ((g6 & 0b00011000) >> 3) == (((g4 >> 0) & 1) << 7) | (((g5 >> 4) & 1) << 6) | (((g5 >> 3) & 1) << 5) | (((g5 >> 2) & 1) << 4) | (((g5 >> 1) & 1) << 3) | (((g5 >> 0) & 1) << 2) | (((g6 >> 4) & 1) << 1) | ((g6 >> 3) & 1)) by (bit_vector);
    assert(((g6 & 0b00000111) << 5) | ((g7 & 0b00011111) >> 0) == (((g6 >> 2) & 1) << 7) | (((g6 >> 1) & 1) << 6) | (((g6 >> 0) & 1) << 5) | (((g7 >> 4) & 1) << 4) | (((g7 >> 3) & 1) << 3) | (((g7 >> 2) & 1) << 2) | (((g7 >> 1) & 1) << 1) | ((g7 >> 0) & 1)) by (bit_vector);
}

#[verifier::rlimit(60)]
proof fn lemma_row_of_8_at_0(s: Seq<u8>)
    requires
        s.len() >= 32,
    ensures
        group_of_8(s, 0) == ((s[0] & 0b00011111) << 3) | ((s[1] & 0b00011100) >> 2),
        group_of_8(s, 1) == ((s[1] & 0b00000011) << 6) | ((s[2] & 0b00011111) << 1) | ((s[3] & 0b00010000) >> 4),
        group_of_8(s, 2) == ((s[3] & 0b00001111) << 4) | ((s[4] & 0b00011110) >> 1),
        group_of_8(s, 3) == ((s[4] & 0b00000001) << 7) | ((s[5] & 0b00011111) << 2) | ((s[6] & 0b00011000) >> 3),
        group_of_8(s, 4) == ((s[6] & 0b00000111) << 5) | ((s[7] & 0b00011111) >> 0),
{
    reveal(stream_bit);
    lemma_join_8(s[0], s[1], s[2], s[3], s[4], s[5], s[6], s[7]);
}

#[verifier::rlimit(60)]
proof fn lemma_row_of_8_at_1(s: Seq<u8>)
    requires
        s.len() >= 32,
    ensures
        group_of_8(s, 5) == ((s[8] & 0b00011111) << 3) | ((s[9] & 0b00011100) >> 2),
        group_of_8(s, 6) == ((s[9] & 0b00000011) << 6) | ((s[10] & 0b00011111) << 1) | ((s[11] & 0b00010000) >> 4),
        group_of_8(s, 7) == ((s[11] & 0b00001111) << 4) | ((s[12] & 0b00011110) >> 1),
        group_of_8(s, 8) == ((s[12] & 0b00000001) << 7) | ((s[13] & 0b00011111) << 2) | ((s[14] & 0b00011000) >> 3),
        group_of_8(s, 9) == ((s[14] & 0b00000111) << 5) | ((s[15] & 0b00011111) >> 0),
{
    reveal(stream_bit);
    lemma_join_8(s[8], s[9], s[10], s[11], s[12], s[13], s[14], s[15]);
}

#[verifier::rlimit(60)]
proof fn lemma_row_of_8_at_2(s: Seq<u8>)
    requires
        s.len() >= 32,
    ensures
        group_of_8(s, 10) == ((s[16] & 0b00011111) << 3) | ((s[17] & 0b00011100) >> 2),
        group_of_8(s, 11) == ((s[17] & 0b00000011) << 6) | ((s[18] & 0b00011111) << 1) | ((s[19] & 0b00010000) >> 4),
        group_of_8(s, 12) == ((s[19] & 0b00001111) << 4) | ((s[20] & 0b00011110) >> 1),
        group_of_8(s, 13) == ((s[20] & 0b00000001) << 7) | ((s[21] & 0b00011111) << 2) | ((s[22] & 0b00011000) >> 3),
        group_of_8(s, 14) == ((s[22] & 0b00000111) << 5) | ((s[23] & 0b00011111) >> 0),
{
    reveal(stream_bit);
    lemma_join_8(s[16], s[17], s[18], s[19], s[20], s[21], s[22], s[23]);
}

#[verifier::rlimit(60)]
proof fn lemma_row_of_8_at_3(s: Seq<u8>)
    requires
        s.len() >= 32,
    ensures
        group_of_8(s, 15) == ((s[24] & 0b00011111) << 3) | ((s[25] & 0b00011100) >> 2),
        group_of_8(s, 16) == ((s[25] & 0b00000011) << 6) | ((s[26] & 0b00011111) << 1) | ((s[27] & 0b00010000) >> 4),
        group_of_8(s, 17) == ((s[27] & 0b00001111) << 4) | ((s[28] & 0b00011110) >> 1),
        group_of_8(s, 18) == ((s[28] & 0b00000001) << 7) | ((s[29] & 0b00011111) << 2) | ((s[30] & 0b00011000) >> 3),
        group_of_8(s, 19) == ((s[30] & 0b00000111) << 5) | ((s[31] & 0b00011111) >> 0),
{
    reveal(stream_bit);
    lemma_join_8(s[24], s[25], s[26], s[27], s[28], s[29], s[30], s[31]);
}

proof fn lemma_row_of_8(s: Seq<u8>, x: int)
    requires
        s.len() >= 32,
        0 <= x < 4,
    ensures
        group_of_8(s, 5 * x + 0) == ((s[8 * x] & 0b00011111) << 3) | ((s[8 * x + 1] & 0b00011100) >> 2),
        group_of_8(s, 5 * x + 1) == ((s[8 * x + 1] & 0b00000011) << 6) | ((s[8 * x + 2] & 0b00011111) << 1) | ((s[8 * x + 3] & 0b00010000) >> 4),
        group_of_8(s, 5 * x + 2) == ((s[8 * x + 3] & 0b00001111) << 4) | ((s[8 * x + 4] & 0b00011110) >> 1),
        group_of_8(s, 5 * x + 3) == ((s[8 * x + 4] & 0b00000001) << 7) | ((s[8 * x + 5] & 0b00011111) << 2) | ((s[8 * x + 6] & 0b00011000) >> 3),
        group_of_8(s, 5 * x + 4) == ((s[8 * x + 6] & 0b00000111) << 5) | ((s[8 * x + 7] & 0b00011111) >> 0),
{
    if x == 0 {
        lemma_row_of_8_at_0(s);
    } else if x == 1 {
        lemma_row_of_8_at_1(s);
    } else if x == 2 {
        lemma_row_of_8_at_2(s);
    } else {
        lemma_row_of_8_at_3(s);
    }
}

/// Joins the first 32 five-bit groups of `data` into 20 bytes, most
/// significant bit first. Bits above the low five of a group are ignored, and
/// so are groups past the first 32.
pub fn rearrange_bits_into_group_of_8(data: &Vec<u8>) -> (arr: [u8; 20])
    requires
        data@.len() >= 32,
    ensures
        forall|i: int| 0 <= i < 20 ==> #[trigger] arr@[i] == group_of_8(data@, i),
{
    let mut arr: [u8; 20] = [0u8; 20];
    let mut x: usize = 0;
    while x < 4
        invariant
            x <= 4,
            data@.len() >= 32,
            forall|i: int| 0 <= i < 5 * x ==> #[trigger] arr@[i] == group_of_8(data@, i),
        decreases 4 - x,
    {
        proof {
            lemma_row_of_8(data@, x as int);
        }
        arr[x * 5] = ((data[x * 8] & 0b00011111) << 3) | ((data[x * 8 + 1] & 0b00011100) >> 2);
        arr[x * 5 + 1] = ((data[x * 8 + 1] & 0b00000011) << 6) | ((data[x * 8 + 2] & 0b00011111) << 1) | ((data[x * 8 + 3] & 0b00010000) >> 4);
        arr[x * 5 + 2] = ((data[x * 8 + 3] & 0b00001111) << 4) | ((data[x * 8 + 4] & 0b00011110) >> 1);
        arr[x * 5 + 3] = ((data[x * 8 + 4] & 0b00000001) << 7) | ((data[x * 8 + 5] & 0b00011111) << 2) | ((data[x * 8 + 6] & 0b00011000) >> 3);
        arr[x * 5 + 4] = ((data[x * 8 + 6] & 0b00000111) << 5) | ((data[x * 8 + 7] & 0b00011111) >> 0);
        x = x + 1;
    }
    arr
}

/// Joining what was split gives the bytes back.
proof fn lemma_join_of_split(a: u8, b: u8, c: u8, d: u8, e: u8)
    ensures
        ((((a & 0b11111000) >> 3) & 0b00011111) << 3) | (((((a & 0b00000111) << 2) | ((b & 0b11000000) >> 6)) & 0b00011100) >> 2) == a,
        (((((a & 0b00000111) << 2) | ((b & 0b11000000) >> 6)) & 0b00000011) << 6) | ((((b & 0b00111110) >> 1) & 0b00011111) << 1) | (((((b & 0b00000001) << 4) | ((c & 0b11110000) >> 4)) & 0b00010000) >> 4) == b,
        (((((b & 0b00000001) << 4) | ((c & 0b11110000) >> 4)) & 0b00001111) << 4) | (((((c & 0b00001111) << 1) | ((d & 0b10000000) >> 7)) & 0b00011110) >> 1) == c,
        (((((c & 0b00001111) << 1) | ((d & 0b10000000) >> 7)) & 0b00000001) << 7) | ((((d & 0b01111100) >> 2) & 0b00011111) << 2) | (((((d & 0b00000011) << 3) | ((e & 0b11100000) >> 5)) & 0b00011000) >> 3) == d,
        (((((d & 0b00000011) << 3) | ((e & 0b11100000) >> 5)) & 0b00000111) << 5) | ((((e & 0b00011111) >> 0) & 0b00011111) >> 0) == e,
{
    assert(((((a & 0b11111000) >> 3) & 0b00011111) << 3) | (((((a & 0b00000111) << 2) | ((b & 0b11000000) >> 6)) & 0b00011100) >> 2) == a) by (bit_vector);
    assert((((((a & 0b00000111) << 2) | ((b & 0b11000000) >> 6)) & 0b00000011) << 6) | ((((b & 0b00111110) >> 1) & 0b00011111) << 1) | (((((b & 0b00000001) << 4) | ((c & 0b11110000) >> 4)) & 0b00010000) >> 4) == b) by (bit_vector);
    assert((((((b & 0b00000001) << 4) | ((c & 0b11110000) >> 4)) & 0b00001111) << 4) | (((((c & 0b00001111) << 1) | ((d & 0b10000000) >> 7)) & 0b00011110) >> 1) == c) by (bit_vector);
    assert((((((c & 0b00001111) << 1) | ((d & 0b10000000) >> 7)) & 0b00000001) << 7) | ((((d & 0b01111100) >> 2) & 0b00011111) << 2) | (((((d & 0b00000011) << 3) | ((e & 0b11100000) >> 5)) & 0b00011000) >> 3) == d) by (bit_vector);
    assert((((((d & 0b00000011) << 3) | ((e & 0b11100000) >> 5)) & 0b00000111) << 5) | ((((e & 0b00011111) >> 0) & 0b00011111) >> 0) == e) by (bit_vector);
}

/// Splitting 20 bytes into groups of five bits and joining the groups gives
/// the bytes back.
pub proof fn lemma_regroup_round_trip(data: Seq<u8>, groups: Seq<u8>)
    requires
        data.len() == 20,
        groups.len() >= 32,
        forall|i: int| 0 <= i < 32 ==> #[trigger] groups[i] == group_of_5(data, i),
    ensures
        forall|i: int| 0 <= i < 20 ==> group_of_8(groups, i) == #[trigger] data[i],
{
    assert forall|i: int| 0 <= i < 20 implies group_of_8(groups, i) == #[trigger] data[i] by {
        let x = i / 5;
        lemma_row_of_5(data, x);
        lemma_row_of_8(groups, x);
        lemma_join_of_split(data[5 * x], data[5 * x + 1], data[5 * x + 2], data[5 * x + 3], data[5 * x + 4]);
        assert(groups[8 * x] == group_of_5(data, 8 * x));
        assert(groups[8 * x + 1] == group_of_5(data, 8 * x + 1));
        assert(groups[8 * x + 2] == group_of_5(data, 8 * x + 2));
        assert(groups[8 * x + 3] == group_of_5(data, 8 * x + 3));
        assert(groups[8 * x + 4] == group_of_5(data, 8 * x + 4));
        assert(groups[8 * x + 5] == group_of_5(data, 8 * x + 5));
        assert(groups[8 * x + 6] == group_of_5(data, 8 * x + 6));
        assert(groups[8 * x + 7] == group_of_5(data, 8 * x + 7));
        assert(i == 5 * x || i == 5 * x + 1 || i == 5 * x + 2 || i == 5 * x + 3 || i == 5 * x + 4);
    }
}

} // verus!
