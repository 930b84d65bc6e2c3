//! Carrying a PDF's pictures into the EPUB.
//!
//! A picture in a PDF is a stream of samples plus a description of how to read
//! them, and the description is where the work is. What cannot be read is
//! refused by name rather than guessed at.
use vstd::prelude::*;
use vstd::utf8::encode_utf8;

pub mod laws;

verus! {

broadcast use vstd::string::group_string_axioms;

/// Enough pixels for any figure on a reader's screen, and a bound on what a
/// malformed stream can ask to be allocated.
pub const MAX_PIXELS: u64 = 40000000;

/// A colour space, reduced to what is needed to turn samples into pixels.
#[derive(Clone, Copy, Debug, PartialEq, Eq, Structural)]
pub enum Space {
    Gray,
    Rgb,
    Cmyk,
    /// A palette, whose table is kept elsewhere.
    Indexed,
}

impl Space {
    /// How many samples a pixel has.
    pub open spec fn count(self) -> nat {
        match self {
            Space::Gray => 1,
            Space::Rgb => 3,
            Space::Cmyk => 4,
            Space::Indexed => 1,
        }
    }

    pub fn samples(self) -> (r: usize)
        ensures
            r == self.count(),
    {
        match self {
            Space::Gray => 1,
            Space::Rgb => 3,
            Space::Cmyk => 4,
            Space::Indexed => 1,
        }
    }
}

/// The colour space of a name.
pub open spec fn named(name: Seq<u8>) -> Option<Space> {
    if name == encode_utf8("DeviceGray"@) || name == encode_utf8("CalGray"@) || name == encode_utf8(
        "G"@,
    ) {
        Some(Space::Gray)
    } else if name == encode_utf8("DeviceRGB"@) || name == encode_utf8("CalRGB"@) || name
        == encode_utf8("RGB"@) {
        Some(Space::Rgb)
    } else if name == encode_utf8("DeviceCMYK"@) || name == encode_utf8("CMYK"@) {
        Some(Space::Cmyk)
    } else {
        None
    }
}

fn is(name: &[u8], wanted: &str) -> (r: bool)
    ensures
        r == (name@ == encode_utf8(wanted@)),
{
    crate::epub::same_bytes(name, wanted.as_bytes())
}

/// The colour space of a name, if it is one that can be read back.
pub fn space(name: &[u8]) -> (r: Option<Space>)
    ensures
        r == named(name@),
{
    if is(name, "DeviceGray") || is(name, "CalGray") || is(name, "G") {
        Some(Space::Gray)
    } else if is(name, "DeviceRGB") || is(name, "CalRGB") || is(name, "RGB") {
        Some(Space::Rgb)
    } else if is(name, "DeviceCMYK") || is(name, "CMYK") {
        Some(Space::Cmyk)
    } else {
        None
    }
}

/// The device space that a profile of so many components stands in for. The
/// profile itself is not read.
pub fn profile_space(components: i64) -> (r: Option<Space>)
    ensures
        r == if components == 1 {
            Some(Space::Gray)
        } else if components == 3 {
            Some(Space::Rgb)
        } else if components == 4 {
            Some(Space::Cmyk)
        } else {
            None
        },
{
    if components == 1 {
        Some(Space::Gray)
    } else if components == 3 {
        Some(Space::Rgb)
    } else if components == 4 {
        Some(Space::Cmyk)
    } else {
        None
    }
}

/// What a picture is, as far as it can be read.
#[derive(Clone, Copy, Debug, PartialEq, Eq, Structural)]
pub enum Shape {
    /// Already a JPEG file; `outer` says whether anything is wrapped round it.
    Jpeg { outer: bool },
    Samples { width: u32, height: u32, bits: u32, space: Space },
}

/// Sample depths that are read back. Anything else is refused rather than
/// guessed at.
pub open spec fn depth(bits: u32) -> bool {
    bits == 1 || bits == 2 || bits == 4 || bits == 8 || bits == 16
}

pub fn supported_depth(bits: u32) -> (r: bool)
    ensures
        r == depth(bits),
{
    bits == 1 || bits == 2 || bits == 4 || bits == 8 || bits == 16
}

/// Whether a filter is one whose pictures are refused.
pub open spec fn refused_filter(name: Seq<u8>) -> bool {
    name == encode_utf8("JPXDecode"@) || name == encode_utf8("JBIG2Decode"@) || name == encode_utf8(
        "CCITTFaxDecode"@,
    )
}

/// The shape of a picture whose filters, outermost first, measures, depth and
/// colour space are these; nothing if it is one that cannot be read.
pub open spec fn shape_of(
    filters: Seq<Seq<u8>>,
    width: Option<u32>,
    height: Option<u32>,
    bits: Option<u32>,
    space: Option<Space>,
) -> Option<Shape> {
    if (exists|i: int| 0 <= i < filters.len() && refused_filter(#[trigger] filters[i])) {
        None
    } else if width is None || height is None || width->0 == 0 || height->0 == 0 || width->0
        * height->0 > MAX_PIXELS {
        None
    } else if filters.len() > 0 && filters.last() == encode_utf8("DCTDecode"@) {
        Some(Shape::Jpeg { outer: filters.len() > 1 })
    } else {
        let bits = match bits {
            Some(bits) => bits,
            None => 8,
        };
        if depth(bits) && space is Some {
            Some(Shape::Samples { width: width->0, height: height->0, bits, space: space->0 })
        } else {
            None
        }
    }
}

/// The shape of a picture, or nothing if it is one that cannot be read.
///
/// One gate for both judging and decoding: if these disagreed, a book could
/// be called perfect and then come out with a picture quietly missing.
pub fn readable(
    filters: &Vec<Vec<u8>>,
    width: Option<u32>,
    height: Option<u32>,
    bits: Option<u32>,
    space: Option<Space>,
) -> (r: Option<Shape>)
    ensures
        r == shape_of(filters.deep_view(), width, height, bits, space),
{
    let ghost all = filters.deep_view();
    for i in 0..filters.len()
        invariant
            all == filters.deep_view(),
            forall|j: int| 0 <= j < i ==> !refused_filter(#[trigger] all[j]),
    {
        let filter = filters[i].as_slice();
        assert(all[i as int] =~= filter@);
        if is(filter, "JPXDecode") || is(filter, "JBIG2Decode") || is(filter, "CCITTFaxDecode") {
            assert(refused_filter(all[i as int]));
            return None;
        }
    }
    let (width, height) = match (width, height) {
        (Some(width), Some(height)) => (width, height),
        _ => return None,
    };
    if width == 0 || height == 0 {
        return None;
    }
    assert(width * height <= 4294967295 * 4294967295) by (nonlinear_arith)
        requires
            width <= 4294967295,
            height <= 4294967295,
    ;
    if width as u64 * height as u64 > MAX_PIXELS {
        return None;
    }
    if filters.len() > 0 {
        assert(all.last() =~= filters@[filters@.len() - 1]@);
        if is(filters[filters.len() - 1].as_slice(), "DCTDecode") {
            return Some(Shape::Jpeg { outer: filters.len() > 1 });
        }
    }
    let bits = match bits {
        Some(bits) => bits,
        None => 8,
    };
    if !supported_depth(bits) {
        return None;
    }
    match space {
        Some(space) => Some(Shape::Samples { width, height, bits, space }),
        None => None,
    }
}

/// The bytes of a row. Rows are padded to a byte boundary, which matters for
/// anything under 8 bits: a 1-bit scan read without the padding shears by a
/// pixel a row.
pub open spec fn row_bytes(width: nat, per_pixel: nat, bits: nat) -> nat {
    (width * per_pixel * bits + 7) / 8
}

/// One sample of a row, which below 8 bits is a run of bits inside a byte;
/// nothing where the samples end before it.
pub open spec fn sample_of(samples: Seq<u8>, row: int, index: int, bits: u32) -> Option<int> {
    if bits == 8 {
        if row + index < samples.len() {
            Some(samples[row + index] as int)
        } else {
            None
        }
    } else if bits == 16 {
        if row + 2 * index + 1 < samples.len() {
            Some(samples[row + 2 * index] * 256 + samples[row + 2 * index + 1])
        } else {
            None
        }
    } else if bits == 1 || bits == 2 || bits == 4 {
        let offset = index * bits;
        if row + offset / 8 < samples.len() {
            Some(
                (samples[row + offset / 8] as int / pow((8 - bits - offset % 8) as nat)) % pow(
                    bits as nat,
                ),
            )
        } else {
            None
        }
    } else {
        None
    }
}

/// A power of two.
pub open spec fn pow(n: nat) -> int
    decreases n,
{
    if n == 0 {
        1
    } else {
        2 * pow((n - 1) as nat)
    }
}

fn power(n: u32) -> (r: u32)
    requires
        n <= 16,
    ensures
        r == pow(n as nat),
        r <= 65536,
        r >= 1,
{
    let mut out: u32 = 1;
    let mut i: u32 = 0;
    proof {
        assert(pow(16) == 65536) by {
            reveal_with_fuel(pow, 17);
        }
        assert(pow(0) == 1);
    }
    while i < n
        invariant
            i <= n <= 16,
            out == pow(i as nat),
            1 <= out,
            out as int * pow((16 - i) as nat) == pow(16),
            pow(16) == 65536,
        decreases n - i,
    {
        proof {
            assert(pow((16 - i) as nat) == 2 * pow((16 - i - 1) as nat));
            assert(out * (2 * pow((16 - i - 1) as nat)) == (2 * out) * pow((16 - i - 1) as nat))
                by (nonlinear_arith);
            pow_is_positive((16 - i - 1) as nat);
            assert(2 * out <= 65536) by (nonlinear_arith)
                requires
                    (2 * out) * pow((16 - i - 1) as nat) == 65536,
                    pow((16 - i - 1) as nat) >= 1,
            ;
        }
        out = out * 2;
        i += 1;
    }
    proof {
        pow_is_positive((16 - n) as nat);
        assert(out <= 65536) by (nonlinear_arith)
            requires
                out as int * pow((16 - n) as nat) == 65536,
                pow((16 - n) as nat) >= 1,
        ;
    }
    out
}

proof fn pow_is_positive(n: nat)
    ensures
        pow(n) >= 1,
    decreases n,
{
    if n > 0 {
        pow_is_positive((n - 1) as nat);
    }
}

fn read(samples: &[u8], row: u128, index: u64, bits: u32) -> (r: Option<u32>)
    requires
        row <= u64::MAX,
        index <= u64::MAX / 16,
    ensures
        match (r, sample_of(samples@, row as int, index as int, bits)) {
            (Some(value), Some(wanted)) => value == wanted,
            (None, None) => true,
            _ => false,
        },
{
    let length: u128 = samples.len() as u128;
    if bits == 8 {
        let at: u128 = row + index as u128;
        if at < length {
            Some(samples[at as usize] as u32)
        } else {
            None
        }
    } else if bits == 16 {
        // Both bytes, or the value lands in the range of one while the range it
        // is measured against is that of two, and every picture comes out black.
        let at: u128 = row + index as u128 * 2;
        if at + 1 < length {
            Some(samples[at as usize] as u32 * 256 + samples[at as usize + 1] as u32)
        } else {
            None
        }
    } else if bits == 1 || bits == 2 || bits == 4 {
        assert(0 <= index * bits <= u64::MAX) by (nonlinear_arith)
            requires
                0 <= index <= u64::MAX / 16,
                0 <= bits <= 4,
        ;
        let offset: u64 = index * bits as u64;
        let at: u128 = row + (offset / 8) as u128;
        if at < length {
            let inside: u32 = (offset % 8) as u32;
            assert(inside + bits <= 8) by {
                assert(offset == index * bits);
                if bits == 1 {
                } else if bits == 2 {
                    assert(offset % 2 == 0);
                } else {
                    assert(offset % 4 == 0);
                }
            }
            let divisor = power(8 - bits - inside);
            let levels = power(bits);
            Some((samples[at as usize] as u32 / divisor) % levels)
        } else {
            None
        }
    } else {
        None
    }
}

/// A sample as a level: turned around where the samples run from light to dark.
pub open spec fn level(value: int, bits: u32, inverted: bool) -> int {
    if inverted {
        if value < pow(bits as nat) {
            pow(bits as nat) - 1 - value
        } else {
            0
        }
    } else {
        value
    }
}

/// The first `n` levels of a row that starts at a byte.
pub open spec fn row_levels(samples: Seq<u8>, row: int, n: nat, bits: u32, inverted: bool) -> Option<
    Seq<int>,
>
    decreases n,
{
    if n == 0 {
        Some(Seq::empty())
    } else {
        match (
            row_levels(samples, row, (n - 1) as nat, bits, inverted),
            sample_of(samples, row, n - 1, bits),
        ) {
            (Some(before), Some(value)) => Some(before.push(level(value, bits, inverted))),
            _ => None,
        }
    }
}

/// The levels of the first `rows` rows, each padded to a byte boundary.
pub open spec fn levels_of(
    samples: Seq<u8>,
    rows: nat,
    wide: nat,
    n: nat,
    bits: u32,
    inverted: bool,
) -> Option<Seq<Seq<int>>>
    decreases rows,
{
    if rows == 0 {
        Some(Seq::empty())
    } else {
        match (
            levels_of(samples, (rows - 1) as nat, wide, n, bits, inverted),
            row_levels(samples, (rows - 1) * wide, n, bits, inverted),
        ) {
            (Some(before), Some(row)) => Some(before.push(row)),
            _ => None,
        }
    }
}

/// Values read as mathematical numbers.
pub open spec fn numbers(row: Seq<u32>) -> Seq<int> {
    Seq::new(row.len(), |i: int| row[i] as int)
}

pub open spec fn grid(rows: Seq<Vec<u32>>) -> Seq<Seq<int>> {
    Seq::new(rows.len(), |i: int| numbers(rows[i]@))
}

/// Every level of a picture, row by row.
pub open spec fn unpacked(
    samples: Seq<u8>,
    width: u32,
    height: u32,
    bits: u32,
    space: Space,
    inverted: bool,
) -> Option<Seq<Seq<int>>> {
    let n = width as nat * space.count();
    let wide = row_bytes(width as nat, space.count(), bits as nat);
    if samples.len() < wide * height as nat {
        None
    } else {
        levels_of(
            samples,
            height as nat,
            wide,
            n,
            bits,
            inverted && space != Space::Indexed,
        )
    }
}

proof fn rows_stop(
    samples: Seq<u8>,
    rows: nat,
    more: nat,
    wide: nat,
    n: nat,
    bits: u32,
    inverted: bool,
)
    requires
        rows <= more,
        levels_of(samples, rows, wide, n, bits, inverted) is None,
    ensures
        levels_of(samples, more, wide, n, bits, inverted) is None,
    decreases more,
{
    if rows < more {
        rows_stop(samples, rows, (more - 1) as nat, wide, n, bits, inverted);
    }
}

proof fn row_stops(samples: Seq<u8>, row: int, n: nat, more: nat, bits: u32, inverted: bool)
    requires
        n <= more,
        row_levels(samples, row, n, bits, inverted) is None,
    ensures
        row_levels(samples, row, more, bits, inverted) is None,
    decreases more,
{
    if n < more {
        row_stops(samples, row, n, (more - 1) as nat, bits, inverted);
    }
}

fn unpack_row(samples: &[u8], row: u128, n: u64, bits: u32, inverted: bool) -> (r: Option<Vec<u32>>)
    requires
        row <= u64::MAX,
        n <= u64::MAX / 16,
        depth(bits),
    ensures
        match (r, row_levels(samples@, row as int, n as nat, bits, inverted)) {
            (Some(out), Some(wanted)) => numbers(out@) == wanted,
            (None, None) => true,
            _ => false,
        },
{
    let mut out: Vec<u32> = Vec::new();
    let levels = power(bits);
    let mut i: u64 = 0;
    proof {
        assert(numbers(out@) =~= Seq::<int>::empty());
    }
    while i < n
        invariant
            i <= n <= u64::MAX / 16,
            row <= u64::MAX,
            levels == pow(bits as nat),
            levels >= 1,
            row_levels(samples@, row as int, i as nat, bits, inverted) == Some(numbers(out@)),
        decreases n - i,
    {
        let ghost before = numbers(out@);
        let value = match read(samples, row, i, bits) {
            Some(value) => value,
            None => {
                proof {
                    row_stops(samples@, row as int, (i + 1) as nat, n as nat, bits, inverted);
                }
                return None;
            },
        };
        let value: u32 = if inverted {
            if value < levels {
                levels - 1 - value
            } else {
                0
            }
        } else {
            value
        };
        out.push(value);
        proof {
            assert(numbers(out@) =~= before.push(value as int));
        }
        i += 1;
    }
    Some(out)
}

/// The levels of a picture's samples, row by row: what every pixel is made of,
/// as far as the samples reach. An index into a palette is a position, not a
/// level, so it is never turned around.
pub fn unpack(
    samples: &[u8],
    width: u32,
    height: u32,
    bits: u32,
    space: Space,
    inverted: bool,
) -> (r: Option<Vec<Vec<u32>>>)
    requires
        depth(bits),
    ensures
        match (r, unpacked(samples@, width, height, bits, space, inverted)) {
            (Some(rows), Some(wanted)) => grid(rows@) == wanted,
            (None, None) => true,
            _ => false,
        },
{
    let turned = inverted && space != Space::Indexed;
    let per_pixel: u64 = space.samples() as u64;
    assert(0 <= width * per_pixel <= 4294967295 * 4) by (nonlinear_arith)
        requires
            0 <= width <= 4294967295,
            0 <= per_pixel <= 4,
    ;
    let n: u64 = width as u64 * per_pixel;
    assert(0 <= n * bits <= 4294967295 * 64) by (nonlinear_arith)
        requires
            0 <= n <= 4294967295 * 4,
            0 <= bits <= 16,
    ;
    let wide: u64 = (n * bits as u64 + 7) / 8;
    let ghost broad = row_bytes(width as nat, space.count(), bits as nat);
    assert(wide == broad);
    assert(0 <= wide * height <= 137438953472 * 4294967295) by (nonlinear_arith)
        requires
            0 <= wide <= 137438953472,
            0 <= height <= 4294967295,
    ;
    if (samples.len() as u128) < wide as u128 * height as u128 {
        return None;
    }
    let mut out: Vec<Vec<u32>> = Vec::new();
    let mut row: u32 = 0;
    proof {
        assert(grid(out@) =~= Seq::<Seq<int>>::empty());
    }
    while row < height
        invariant
            row <= height,
            depth(bits),
            n <= 4294967295 * 4,
            wide <= 137438953472,
            wide == broad,
            n == width as nat * space.count(),
            broad == row_bytes(width as nat, space.count(), bits as nat),
            turned == (inverted && space != Space::Indexed),
            wide * height <= samples@.len() <= u64::MAX,
            levels_of(samples@, row as nat, broad, n as nat, bits, turned) == Some(grid(out@)),
        decreases height - row,
    {
        let ghost before = grid(out@);
        proof {
            assert(0 <= row * wide <= wide * height) by (nonlinear_arith)
                requires
                    0 <= row <= height,
                    0 <= wide,
            ;
        }
        let start: u128 = row as u128 * wide as u128;
        match unpack_row(samples, start, n, bits, turned) {
            Some(levels) => {
                let ghost shown = numbers(levels@);
                out.push(levels);
                proof {
                    assert(grid(out@) =~= before.push(shown));
                }
            },
            None => {
                proof {
                    rows_stop(
                        samples@,
                        (row + 1) as nat,
                        height as nat,
                        broad,
                        n as nat,
                        bits,
                        turned,
                    );
                    assert(start == row * broad);
                }
                return None;
            },
        }
        row += 1;
    }
    Some(out)
}

} // verus!
