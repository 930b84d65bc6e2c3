//! Samples are unpacked as they were packed.
use super::{
    depth, level, levels_of, pow, refused_filter, row_bytes, row_levels, sample_of, shape_of,
    unpacked, Shape, Space,
};
use vstd::prelude::*;
use vstd::utf8::encode_utf8;

verus! {

broadcast use vstd::string::group_string_axioms;

proof fn rows_hold(samples: Seq<u8>, row: int, n: nat, bits: u32, inverted: bool, i: int)
    requires
        row_levels(samples, row, n, bits, inverted) is Some,
        0 <= i < n,
    ensures
        ({
            let levels = row_levels(samples, row, n, bits, inverted)->0;
            &&& levels.len() == n
            &&& sample_of(samples, row, i, bits) is Some
            &&& levels[i] == level(sample_of(samples, row, i, bits)->0, bits, inverted)
        }),
    decreases n,
{
    rows_are_long(samples, row, n, bits, inverted);
    if i < n - 1 {
        rows_hold(samples, row, (n - 1) as nat, bits, inverted, i);
        rows_are_long(samples, row, (n - 1) as nat, bits, inverted);
    } else {
        rows_are_long(samples, row, (n - 1) as nat, bits, inverted);
    }
}

proof fn rows_are_long(samples: Seq<u8>, row: int, n: nat, bits: u32, inverted: bool)
    ensures
        row_levels(samples, row, n, bits, inverted) matches Some(levels) ==> levels.len() == n,
    decreases n,
{
    if n > 0 {
        rows_are_long(samples, row, (n - 1) as nat, bits, inverted);
    }
}

proof fn all_rows_hold(
    samples: Seq<u8>,
    rows: nat,
    wide: nat,
    n: nat,
    bits: u32,
    inverted: bool,
    r: int,
)
    requires
        levels_of(samples, rows, wide, n, bits, inverted) is Some,
    ensures
        ({
            let all = levels_of(samples, rows, wide, n, bits, inverted)->0;
            &&& all.len() == rows
            &&& 0 <= r < rows ==> row_levels(samples, r * wide, n, bits, inverted) == Some(all[r])
        }),
    decreases rows,
{
    if rows > 0 {
        all_rows_hold(samples, (rows - 1) as nat, wide, n, bits, inverted, r);
    }
}

/// A picture of whole bytes is its bytes, row behind row, one to each level.
pub proof fn bytes_are_levels(
    samples: Seq<u8>,
    width: u32,
    height: u32,
    space: Space,
    r: int,
    c: int,
)
    requires
        unpacked(samples, width, height, 8, space, false) is Some,
        0 <= r < height,
        0 <= c < width * space.count(),
    ensures
        ({
            let rows = unpacked(samples, width, height, 8, space, false)->0;
            let wide = width * space.count();
            &&& rows.len() == height
            &&& rows[r].len() == wide
            &&& rows[r][c] == samples[r * wide + c] as int
        }),
{
    let n = width as nat * space.count();
    let wide = row_bytes(width as nat, space.count(), 8);
    assert(wide == n) by {
        assert((n * 8 + 7) / 8 == n);
    }
    all_rows_hold(samples, height as nat, wide, n, 8, false, r);
    rows_are_long(samples, r * wide, n, 8, false);
    rows_hold(samples, r * wide, n, 8, false, c);
}

/// A level that runs the other way round is as far from the darkest as the other is from
/// the lightest.
pub proof fn turned_levels_mirror(value: int, bits: u32)
    requires
        0 <= value < pow(bits as nat),
    ensures
        level(value, bits, true) + level(value, bits, false) == pow(bits as nat) - 1,
        level(value, bits, false) == value,
        level(level(value, bits, true), bits, true) == value,
{
}

/// Two levels to a byte are its two halves, and together they are the byte.
pub proof fn halves_make_the_byte(samples: Seq<u8>, row: int, i: int)
    requires
        0 <= i,
        0 <= row,
        row + i < samples.len(),
    ensures
        sample_of(samples, row, 2 * i, 4) is Some,
        sample_of(samples, row, 2 * i + 1, 4) is Some,
        16 * sample_of(samples, row, 2 * i, 4)->0 + sample_of(samples, row, 2 * i + 1, 4)->0
            == samples[row + i],
{
    reveal_with_fuel(pow, 6);
    assert((2 * i * 4) / 8 == i && (2 * i * 4) % 8 == 0);
    assert(((2 * i + 1) * 4) / 8 == i && ((2 * i + 1) * 4) % 8 == 4);
    assert(pow(4) == 16 && pow(0) == 1);
}

/// What cannot be read is refused by name, and so is a picture of no size or of too
/// great a one; a photograph is carried as it is.
pub proof fn what_cannot_be_read_is_refused(
    filters: Seq<Seq<u8>>,
    width: Option<u32>,
    height: Option<u32>,
    bits: Option<u32>,
    space: Option<Space>,
    i: int,
)
    ensures
        0 <= i < filters.len() && (filters[i] == encode_utf8("JPXDecode"@) || filters[i]
            == encode_utf8("JBIG2Decode"@) || filters[i] == encode_utf8("CCITTFaxDecode"@))
            ==> shape_of(filters, width, height, bits, space) is None,
        width is None || height is None ==> shape_of(filters, width, height, bits, space) is None,
        (width matches Some(w) && height matches Some(h) && (w == 0 || h == 0 || w * h > 40000000))
            ==> shape_of(filters, width, height, bits, space) is None,
        shape_of(filters, width, height, bits, space) matches Some(
            Shape::Samples { width: w, height: h, bits: b, space: s },
        ) ==> width == Some(w) && height == Some(h) && space == Some(s) && (bits is Some ==> bits
            == Some(b)) && (bits is None ==> b == 8) && depth(b),
{
    if 0 <= i < filters.len() && (filters[i] == encode_utf8("JPXDecode"@) || filters[i]
        == encode_utf8("JBIG2Decode"@) || filters[i] == encode_utf8("CCITTFaxDecode"@)) {
        assert(refused_filter(filters[i]));
    }
}

proof fn powers()
    ensures
        pow(0) == 1,
        pow(1) == 2,
        pow(2) == 4,
        pow(3) == 8,
        pow(4) == 16,
        pow(5) == 32,
        pow(6) == 64,
        pow(7) == 128,
        pow(8) == 256,
{
    reveal_with_fuel(pow, 9);
}

/// Samples of four bits stand in a byte two by two, the greater place first: the byte is
/// the number that they write.
pub proof fn two_samples_share_a_byte(samples: Seq<u8>, row: int, k: int)
    requires
        0 <= row,
        0 <= k,
        row + k < samples.len(),
    ensures
        samples[row + k] == 16 * sample_of(samples, row, 2 * k, 4)->0 + sample_of(
            samples,
            row,
            2 * k + 1,
            4,
        )->0,
{
    powers();
    let b = samples[row + k] as int;
    assert((8 * k) / 8 == k && (8 * k + 4) / 8 == k);
    assert((8 * k) % 8 == 0 && (8 * k + 4) % 8 == 4);
    assert(sample_of(samples, row, 2 * k, 4) == Some((b / 16) % 16));
    assert(sample_of(samples, row, 2 * k + 1, 4) == Some((b / 1) % 16));
}

/// Samples of two bits stand in a byte four by four, the greatest place first.
pub proof fn four_samples_share_a_byte(samples: Seq<u8>, row: int, k: int)
    requires
        0 <= row,
        0 <= k,
        row + k < samples.len(),
    ensures
        samples[row + k] == 64 * sample_of(samples, row, 4 * k, 2)->0 + 16 * sample_of(
            samples,
            row,
            4 * k + 1,
            2,
        )->0 + 4 * sample_of(samples, row, 4 * k + 2, 2)->0 + sample_of(
            samples,
            row,
            4 * k + 3,
            2,
        )->0,
{
    powers();
    let b = samples[row + k] as int;
    assert((8 * k) / 8 == k && (8 * k + 2) / 8 == k);
    assert((8 * k + 4) / 8 == k && (8 * k + 6) / 8 == k);
    assert((8 * k) % 8 == 0 && (8 * k + 2) % 8 == 2);
    assert((8 * k + 4) % 8 == 4 && (8 * k + 6) % 8 == 6);
    assert(sample_of(samples, row, 4 * k, 2) == Some((b / 64) % 4));
    assert(sample_of(samples, row, 4 * k + 1, 2) == Some((b / 16) % 4));
    assert(sample_of(samples, row, 4 * k + 2, 2) == Some((b / 4) % 4));
    assert(sample_of(samples, row, 4 * k + 3, 2) == Some((b / 1) % 4));
    assert(b / 16 == (b / 4) / 4 && b / 64 == (b / 16) / 4);
}

/// What the bit of a byte at a place is worth, counted from the greatest.
pub open spec fn place_of(i: int) -> int {
    if i == 0 {
        128
    } else if i == 1 {
        64
    } else if i == 2 {
        32
    } else if i == 3 {
        16
    } else if i == 4 {
        8
    } else if i == 5 {
        4
    } else if i == 6 {
        2
    } else {
        1
    }
}

proof fn bit_at(b: int, m: int)
    requires
        0 <= b < 256,
        m > 0,
    ensures
        (b / m) % 2 == 1 <==> b % (2 * m) >= m,
{
    let q = b / m;
    let r = b % m;
    let h = q / 2;
    let l = q % 2;
    assert(b == m * q + r && 0 <= r < m) by (nonlinear_arith)
        requires
            m > 0,
            q == b / m,
            r == b % m,
    ;
    assert(b == (2 * m) * h + (m * l + r) && (l == 0 || l == 1)) by (nonlinear_arith)
        requires
            b == m * q + r,
            h == q / 2,
            l == q % 2,
    ;
    assert(m * l == if l == 1 {
        m
    } else {
        0
    }) by (nonlinear_arith)
        requires
            l == 0 || l == 1,
    ;
    vstd::arithmetic::div_mod::lemma_fundamental_div_mod_converse(b, 2 * m, h, m * l + r);
}

/// A sample of one bit is the bit at its place.
pub proof fn eight_samples_share_a_byte(samples: Seq<u8>, row: int, k: int, i: int)
    requires
        0 <= row,
        0 <= k,
        row + k < samples.len(),
        0 <= i < 8,
    ensures
        sample_of(samples, row, 8 * k + i, 1) == Some(
            if samples[row + k] as int % (2 * place_of(i)) >= place_of(i) {
                1int
            } else {
                0
            },
        ),
{
    powers();
    assert((8 * k + i) / 8 == k);
    assert((8 * k + i) % 8 == i);
    let b = samples[row + k] as int;
    assert(pow((7 - i) as nat) == place_of(i));
    bit_at(b, place_of(i));
    assert(sample_of(samples, row, 8 * k + i, 1) == Some((b / place_of(i)) % 2));
}

/// A sample of two bytes has the greater byte first.
pub proof fn wide_samples_are_two_bytes(samples: Seq<u8>, row: int, i: int)
    requires
        0 <= row,
        0 <= i,
        row + 2 * i + 1 < samples.len(),
    ensures
        sample_of(samples, row, i, 16) == Some(
            256 * (samples[row + 2 * i] as int) + samples[row + 2 * i + 1],
        ),
{
}

} // verus!
