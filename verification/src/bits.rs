//! Bitwise operations on numbers expressed through bit ranges: reading and
//! replacing the bits `[range.start, range.end)` of a word.

use crate::bitmap::{low_mask, word_bit};
use core::ops::Range;
use vstd::prelude::*;

verus! {

/// Returns bit `pos` of `number`: one when set, zero when clear.
pub fn get_single(number: u64, pos: usize) -> (r: u64)
    requires
        pos < 64,
    ensures
        r == if word_bit(number, pos as u64) {
            1u64
        } else {
            0u64
        },
{
    let r = get_range(number, pos..pos + 1);
    proof {
        let p = pos as u64;
        assert((number >> p) & low_mask(1) == (if word_bit(number, p) {
            1u64
        } else {
            0u64
        })) by (bit_vector)
            requires
                p < 64,
        ;
    }
    r
}

/// Returns the bits `[range.start, range.end)` of `number`, shifted down to
/// the low end of the result; all higher result bits are zero.
pub fn get_range(number: u64, range: Range<usize>) -> (r: u64)
    requires
        range.start < range.end,
        range.end <= 64,
        range.end - range.start < 64,
    ensures
        r == (number >> (range.start as u64)) & low_mask((range.end - range.start) as u64),
        forall|t: u64|
            t < range.end - range.start ==> #[trigger] word_bit(r, t) == word_bit(
                number,
                (range.start + t) as u64,
            ),
        forall|t: u64| range.end - range.start <= t < 64 ==> !(#[trigger] word_bit(r, t)),
{
    let bits_count = range.end - range.start;
    proof {
        let c = bits_count as u64;
        assert(c < 64 ==> 1u64 << c >= 1) by (bit_vector);
    }
    let mask = (1u64 << (bits_count as u64)) - 1;
    let r = (number >> (range.start as u64)) & mask;
    proof {
        lemma_get_range_bits(number, range.start as u64, bits_count as u64);
    }
    r
}

/// Returns `number` with bit `pos` replaced by the low bit of `value`.
pub fn set_single(number: u64, pos: usize, value: u64) -> (r: u64)
    requires
        pos < 64,
    ensures
        r == (number & !(low_mask(1) << (pos as u64))) | ((value & low_mask(1)) << (pos as u64)),
        word_bit(r, pos as u64) == word_bit(value, 0),
        forall|t: u64| t < 64 && t != pos ==> #[trigger] word_bit(r, t) == word_bit(number, t),
{
    set_range(number, pos..pos + 1, value)
}

/// Returns `number` with its bits `[range.start, range.end)` replaced by the
/// low bits of `value`; every bit outside the range is unchanged.
pub fn set_range(number: u64, range: Range<usize>, value: u64) -> (r: u64)
    requires
        range.start < range.end,
        range.end <= 64,
        range.end - range.start < 64,
    ensures
        r == (number & !(low_mask((range.end - range.start) as u64) << (range.start as u64))) | (
        (value & low_mask((range.end - range.start) as u64)) << (range.start as u64)),
        forall|t: u64|
            range.start <= t < range.end ==> #[trigger] word_bit(r, t) == word_bit(
                value,
                (t - range.start) as u64,
            ),
        forall|t: u64|
            t < 64 && !(range.start <= t < range.end) ==> #[trigger] word_bit(r, t) == word_bit(
                number,
                t,
            ),
{
    let bits_count = range.end - range.start;
    proof {
        let c = bits_count as u64;
        assert(c < 64 ==> 1u64 << c >= 1) by (bit_vector);
    }
    let mask = (1u64 << (bits_count as u64)) - 1;
    let r = (number & !(mask << (range.start as u64))) | ((value & mask) << (range.start as u64));
    proof {
        lemma_set_range_bits(number, value, range.start as u64, bits_count as u64);
    }
    r
}

/// Bits of a masked-and-shifted read: bit `t` of the result is bit
/// `start + t` of the source while `t` lies under the width, zero above it.
proof fn lemma_get_range_bits(number: u64, start: u64, count: u64)
    requires
        1 <= count < 64,
        start + count <= 64,
    ensures
        forall|t: u64|
            t < count ==> #[trigger] word_bit(
                ((number >> start) & low_mask(count)) as u64,
                t,
            ) == word_bit(number, (start + t) as u64),
        forall|t: u64|
            count <= t < 64 ==> !(#[trigger] word_bit(
                ((number >> start) & low_mask(count)) as u64,
                t,
            )),
        ((number >> start) & low_mask(count)) as u64 == (number >> start) & low_mask(count),
{
    assert forall|t: u64| t < count implies #[trigger] word_bit(
        ((number >> start) & low_mask(count)) as u64,
        t,
    ) == word_bit(number, (start + t) as u64) by {
        let s2 = (start + t) as u64;
        assert(t < count && count < 64 && start + count <= 64 && s2 == start + t ==> word_bit(
            ((number >> start) & low_mask(count)) as u64,
            t,
        ) == word_bit(number, s2)) by (bit_vector);
    }
    assert forall|t: u64| count <= t < 64 implies !(#[trigger] word_bit(
        ((number >> start) & low_mask(count)) as u64,
        t,
    )) by {
        assert(count <= t < 64 && count < 64 ==> !word_bit(
            ((number >> start) & low_mask(count)) as u64,
            t,
        )) by (bit_vector);
    }
}

/// Bits of a masked write: inside the window the result takes `value`'s low
/// bits, outside it keeps `number`'s.
proof fn lemma_set_range_bits(number: u64, value: u64, start: u64, count: u64)
    requires
        1 <= count < 64,
        start + count <= 64,
    ensures
        forall|t: u64|
            start <= t < start + count ==> #[trigger] word_bit(
                ((number & !(low_mask(count) << start)) | ((value & low_mask(count))
                    << start)) as u64,
                t,
            ) == word_bit(value, (t - start) as u64),
        forall|t: u64|
            t < 64 && !(start <= t < start + count) ==> #[trigger] word_bit(
                ((number & !(low_mask(count) << start)) | ((value & low_mask(count))
                    << start)) as u64,
                t,
            ) == word_bit(number, t),
{
    assert forall|t: u64| start <= t < start + count implies #[trigger] word_bit(
        ((number & !(low_mask(count) << start)) | ((value & low_mask(count))
            << start)) as u64,
        t,
    ) == word_bit(value, (t - start) as u64) by {
        let d = (t - start) as u64;
        assert(start <= t && t < start + count && count < 64 && start + count <= 64 && d == t
            - start ==> word_bit(
            ((number & !(low_mask(count) << start)) | ((value & low_mask(count))
                << start)) as u64,
            t,
        ) == word_bit(value, d)) by (bit_vector);
    }
    assert forall|t: u64| t < 64 && !(start <= t < start + count) implies #[trigger] word_bit(
        ((number & !(low_mask(count) << start)) | ((value & low_mask(count))
            << start)) as u64,
        t,
    ) == word_bit(number, t) by {
        assert(t < 64 && !(start <= t && t < start + count) && count < 64 && start + count <= 64
            ==> word_bit(
            ((number & !(low_mask(count) << start)) | ((value & low_mask(count))
                << start)) as u64,
            t,
        ) == word_bit(number, t)) by (bit_vector);
    }
}

/// Exercises the range operations on a concrete word; every check is
/// discharged statically from the contracts above.
pub fn tests() {
    let num: u64 = 0b10101010;

    /* get bits */
    let g1 = get_range(num, 0..3);
    assert(g1 == 0b010) by {
        assert((0b10101010u64 >> 0) & low_mask(3) == 0b010) by (bit_vector);
    }
    let g2 = get_range(num, 1..4);
    assert(g2 == 0b101) by {
        assert((0b10101010u64 >> 1) & low_mask(3) == 0b101) by (bit_vector);
    }
    let g3 = get_range(num, 1..64);
    assert(g3 == 0b1010101) by {
        assert((0b10101010u64 >> 1) & low_mask(63) == 0b1010101) by (bit_vector);
    }
    let g4 = get_single(num, 5);
    assert(g4 == 1) by {
        assert(word_bit(0b10101010u64, 5)) by (bit_vector);
    }
    let g5 = get_single(num, 6);
    assert(g5 == 0) by {
        assert(!word_bit(0b10101010u64, 6)) by (bit_vector);
    }

    /* set bits */
    let s1 = set_range(num, 0..16, 0b11001100);
    assert(s1 == 0b11001100) by {
        assert((0b10101010u64 & !(low_mask(16) << 0)) | ((0b11001100u64 & low_mask(16)) << 0)
            == 0b11001100u64) by (bit_vector);
    }
    let s2 = set_range(num, 0..3, 0b011);
    assert(s2 == 0b10101011) by {
        assert((0b10101010u64 & !(low_mask(3) << 0)) | ((0b011u64 & low_mask(3)) << 0)
            == 0b10101011u64) by (bit_vector);
    }
    let s3 = set_range(num, 1..4, 0b011);
    assert(s3 == 0b10100110) by {
        assert((0b10101010u64 & !(low_mask(3) << 1)) | ((0b011u64 & low_mask(3)) << 1)
            == 0b10100110u64) by (bit_vector);
    }
    let s4 = set_range(num, 2..6, 0b1001);
    assert(s4 == 0b10100110) by {
        assert((0b10101010u64 & !(low_mask(4) << 2)) | ((0b1001u64 & low_mask(4)) << 2)
            == 0b10100110u64) by (bit_vector);
    }
    let s5 = set_single(num, 4, 1);
    assert(s5 == 0b10111010) by {
        assert((0b10101010u64 & !(low_mask(1) << 4)) | ((0b1u64 & low_mask(1)) << 4)
            == 0b10111010u64) by (bit_vector);
    }
}

} // verus!
