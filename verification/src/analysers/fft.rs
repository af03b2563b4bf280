//! The spectrogram: windows of samples go out to the spectral transform,
//! its log-power values come back and are laid out as two pictures.
//!
//! The transform itself is floating-point work and happens outside this
//! library. What is decided here is which samples form a window, in which
//! order the values of a time slice stand, how they are encoded as bytes,
//! which of them bound the colour scale, and where each pixel of the rotated
//! picture goes.

use vstd::prelude::*;
use crate::cli::Cli;
use crate::cli::StreamInfo;
use crate::level::Level;

verus! {

/// The eight bytes of `x`, least significant first.
pub open spec fn le_bytes(x: u64) -> Seq<u8> {
    seq![
        (x % 0x100) as u8,
        (x / 0x100 % 0x100) as u8,
        (x / 0x1_0000 % 0x100) as u8,
        (x / 0x100_0000 % 0x100) as u8,
        (x / 0x1_0000_0000 % 0x100) as u8,
        (x / 0x100_0000_0000 % 0x100) as u8,
        (x / 0x1_0000_0000_0000 % 0x100) as u8,
        (x / 0x100_0000_0000_0000 % 0x100) as u8,
    ]
}

/// The number whose eight little-endian bytes are `bytes`.
pub open spec fn from_le_bytes(bytes: Seq<u8>) -> int {
    bytes[0] + bytes[1] * 0x100 + bytes[2] * 0x1_0000 + bytes[3] * 0x100_0000 + bytes[4]
        * 0x1_0000_0000 + bytes[5] * 0x100_0000_0000 + bytes[6] * 0x1_0000_0000_0000 + bytes[7]
        * 0x100_0000_0000_0000
}

/// The encoding loses nothing: the bytes give the number back.
pub proof fn lemma_le_bytes_round_trip(x: u64)
    ensures
        le_bytes(x).len() == 8,
        from_le_bytes(le_bytes(x)) == x,
{
    let q0 = x as int;
    let q1 = q0 / 0x100;
    let q2 = q1 / 0x100;
    let q3 = q2 / 0x100;
    let q4 = q3 / 0x100;
    let q5 = q4 / 0x100;
    let q6 = q5 / 0x100;
    let q7 = q6 / 0x100;
    assert(q1 == x / 0x100);
    assert(q2 == x / 0x1_0000);
    assert(q3 == x / 0x100_0000);
    assert(q4 == x / 0x1_0000_0000);
    assert(q5 == x / 0x100_0000_0000);
    assert(q6 == x / 0x1_0000_0000_0000);
    assert(q7 == x / 0x100_0000_0000_0000);
    assert(q7 < 0x100);
    assert(q0 == q0 % 0x100 + 0x100 * q1);
    assert(q1 == q1 % 0x100 + 0x100 * q2);
    assert(q2 == q2 % 0x100 + 0x100 * q3);
    assert(q3 == q3 % 0x100 + 0x100 * q4);
    assert(q4 == q4 % 0x100 + 0x100 * q5);
    assert(q5 == q5 % 0x100 + 0x100 * q6);
    assert(q6 == q6 % 0x100 + 0x100 * q7);
    let b = le_bytes(x);
    assert(b[0] == q0 % 0x100);
    assert(b[1] == q1 % 0x100);
    assert(b[2] == q2 % 0x100);
    assert(b[3] == q3 % 0x100);
    assert(b[4] == q4 % 0x100);
    assert(b[5] == q5 % 0x100);
    assert(b[6] == q6 % 0x100);
    assert(b[7] == q7);
}

/// The values one after the other, each as its eight little-endian bytes.
pub open spec fn encoded(values: Seq<Level>) -> Seq<u8>
    decreases values.len(),
{
    if values.len() == 0 {
        Seq::empty()
    } else {
        encoded(values.drop_last()) + le_bytes(values.last().bits)
    }
}

/// Eight bytes per value.
pub proof fn lemma_encoded_len(values: Seq<Level>)
    ensures
        encoded(values).len() == 8 * values.len(),
    decreases values.len(),
{
    if values.len() > 0 {
        lemma_encoded_len(values.drop_last());
    }
}

/// The encoding of a list followed by another is the two encodings in a row.
pub proof fn lemma_encoded_concat(a: Seq<Level>, b: Seq<Level>)
    ensures
        encoded(a + b) == encoded(a) + encoded(b),
    decreases b.len(),
{
    if b.len() == 0 {
        assert(a + b =~= a);
        assert(encoded(a) + encoded(b) =~= encoded(a));
    } else {
        lemma_encoded_concat(a, b.drop_last());
        assert((a + b).drop_last() =~= a + b.drop_last());
        assert((a + b).last() == b.last());
        assert(encoded(a + b) =~= encoded(a) + encoded(b));
    }
}

/// Appends the eight little-endian bytes of `x` to `out`.
pub fn push_le_bytes(out: &mut Vec<u8>, x: u64)
    ensures
        final(out)@ == old(out)@ + le_bytes(x),
{
    let mut rest: u64 = x;
    let mut k: usize = 0;
    let ghost mut scale: int = 1;
    while k < 8
        invariant
            k <= 8,
            rest == x as int / scale,
            scale == if k == 0 {
                1int
            } else if k == 1 {
                0x100
            } else if k == 2 {
                0x1_0000
            } else if k == 3 {
                0x100_0000
            } else if k == 4 {
                0x1_0000_0000
            } else if k == 5 {
                0x100_0000_0000
            } else if k == 6 {
                0x1_0000_0000_0000
            } else if k == 7 {
                0x100_0000_0000_0000
            } else {
                0x1_0000_0000_0000_0000
            },
            out@ == old(out)@ + le_bytes(x).take(k as int),
        decreases 8 - k,
    {
        let byte: u8 = (rest % 0x100) as u8;
        out.push(byte);
        proof {
            assert(le_bytes(x).take(k + 1) =~= le_bytes(x).take(k as int).push(le_bytes(x)[k as int]));
            assert(byte == le_bytes(x)[k as int]);
            scale = scale * 0x100;
        }
        rest = rest / 0x100;
        k += 1;
    }
    proof {
        assert(le_bytes(x).take(8) =~= le_bytes(x));
    }
}

/// Whether a value counts for the colour scale: a number that is not the
/// negative-infinity sentinel of padding.
pub open spec fn counts(v: Level) -> bool {
    !v.spec_is_nan() && !v.spec_is_sentinel()
}

/// The least value so far after `v`.
pub open spec fn min_with(least: Option<Level>, v: Level) -> Option<Level> {
    if !counts(v) {
        least
    } else {
        match least {
            Some(m) => if v.spec_lt(m) {
                Some(v)
            } else {
                Some(m)
            },
            None => Some(v),
        }
    }
}

/// The greatest value so far after `v`.
pub open spec fn max_with(greatest: Option<Level>, v: Level) -> Option<Level> {
    if !counts(v) {
        greatest
    } else {
        match greatest {
            Some(m) => if m.spec_lt(v) {
                Some(v)
            } else {
                Some(m)
            },
            None => Some(v),
        }
    }
}

/// The least value after a list of values, first to last.
pub open spec fn running_min(least: Option<Level>, values: Seq<Level>) -> Option<Level>
    decreases values.len(),
{
    if values.len() == 0 {
        least
    } else {
        min_with(running_min(least, values.drop_last()), values.last())
    }
}

/// The greatest value after a list of values, first to last.
pub open spec fn running_max(greatest: Option<Level>, values: Seq<Level>) -> Option<Level>
    decreases values.len(),
{
    if values.len() == 0 {
        greatest
    } else {
        max_with(running_max(greatest, values.drop_last()), values.last())
    }
}

/// The least of the values that count is one of them, and none that counts
/// is below it. There is none exactly where no value counts.
pub proof fn lemma_running_min_is_least(values: Seq<Level>)
    ensures
        running_min(None, values) is None <==> forall|i: int|
            0 <= i < values.len() ==> !counts(#[trigger] values[i]),
        running_min(None, values) matches Some(m) ==> {
            &&& counts(m)
            &&& exists|i: int| 0 <= i < values.len() && #[trigger] values[i] == m
            &&& forall|i: int|
                0 <= i < values.len() && counts(#[trigger] values[i]) ==> !values[i].spec_lt(m)
        },
    decreases values.len(),
{
    if values.len() > 0 {
        let front = values.drop_last();
        lemma_running_min_is_least(front);
        assert forall|i: int| 0 <= i < front.len() implies #[trigger] front[i] == values[i] by {}
        match running_min(None, values) {
            Some(m) => {
                if running_min(None, front) == Some(m) {
                    let w = choose|i: int| 0 <= i < front.len() && #[trigger] front[i] == m;
                    assert(values[w] == m);
                } else {
                    assert(values[values.len() - 1] == m);
                }
                assert forall|i: int|
                    0 <= i < values.len() && counts(#[trigger] values[i]) implies !values[i].spec_lt(
                    m,
                ) by {
                    if i < front.len() {
                        assert(front[i] == values[i]);
                    }
                }
            },
            None => {
                assert forall|i: int| 0 <= i < values.len() implies !counts(
                    #[trigger] values[i],
                ) by {
                    if i < front.len() {
                        assert(front[i] == values[i]);
                    }
                }
            },
        }
        if running_min(None, values) is Some {
            assert(counts(values.last()) || running_min(None, front) is Some);
            if counts(values.last()) {
                assert(counts(values[values.len() - 1]));
            } else {
                let j = choose|j: int| 0 <= j < front.len() && counts(#[trigger] front[j]);
                assert(counts(values[j]));
            }
        }
    }
}

/// The greatest of the values that count is one of them, and none that
/// counts is above it. There is none exactly where no value counts.
pub proof fn lemma_running_max_is_greatest(values: Seq<Level>)
    ensures
        running_max(None, values) is None <==> forall|i: int|
            0 <= i < values.len() ==> !counts(#[trigger] values[i]),
        running_max(None, values) matches Some(m) ==> {
            &&& counts(m)
            &&& exists|i: int| 0 <= i < values.len() && #[trigger] values[i] == m
            &&& forall|i: int|
                0 <= i < values.len() && counts(#[trigger] values[i]) ==> !m.spec_lt(values[i])
        },
    decreases values.len(),
{
    if values.len() > 0 {
        let front = values.drop_last();
        lemma_running_max_is_greatest(front);
        assert forall|i: int| 0 <= i < front.len() implies #[trigger] front[i] == values[i] by {}
        match running_max(None, values) {
            Some(m) => {
                if running_max(None, front) == Some(m) {
                    let w = choose|i: int| 0 <= i < front.len() && #[trigger] front[i] == m;
                    assert(values[w] == m);
                } else {
                    assert(values[values.len() - 1] == m);
                }
                assert forall|i: int|
                    0 <= i < values.len() && counts(#[trigger] values[i]) implies !m.spec_lt(
                    values[i],
                ) by {
                    if i < front.len() {
                        assert(front[i] == values[i]);
                    }
                }
            },
            None => {
                assert forall|i: int| 0 <= i < values.len() implies !counts(
                    #[trigger] values[i],
                ) by {
                    if i < front.len() {
                        assert(front[i] == values[i]);
                    }
                }
            },
        }
        if running_max(None, values) is Some {
            if counts(values.last()) {
                assert(counts(values[values.len() - 1]));
            } else {
                let j = choose|j: int| 0 <= j < front.len() && counts(#[trigger] front[j]);
                assert(counts(values[j]));
            }
        }
    }
}

/// The bounds after two lists in a row are the bounds after the second,
/// begun with those after the first.
pub proof fn lemma_running_bounds_concat(start: Option<Level>, a: Seq<Level>, b: Seq<Level>)
    ensures
        running_min(start, a + b) == running_min(running_min(start, a), b),
        running_max(start, a + b) == running_max(running_max(start, a), b),
    decreases b.len(),
{
    if b.len() == 0 {
        assert(a + b =~= a);
    } else {
        lemma_running_bounds_concat(start, a, b.drop_last());
        assert((a + b).drop_last() =~= a + b.drop_last());
        assert((a + b).last() == b.last());
    }
}

/// A colour of the picture.
#[derive(Clone, Copy, Debug, PartialEq, Eq, Structural)]
pub struct Rgb {
    pub red: u8,
    pub green: u8,
    pub blue: u8,
}

/// Where the value with index `i` of a picture `width` values wide and
/// `height` rows high goes when the picture is turned a quarter
/// counter-clockwise: the value of column `x` and row `y` lands in column
/// `y` of row `width - 1 - x`, in a picture `height` pixels wide.
pub open spec fn rotated_index(i: int, width: int, height: int) -> int {
    (width - 1 - i % width) * height + i / width
}

/// The turn moves every value of the picture to a pixel of its own inside
/// the turned picture.
pub proof fn lemma_rotation_is_injective(i: int, j: int, width: int, height: int)
    requires
        width > 0,
        0 <= i < width * height,
        0 <= j < width * height,
    ensures
        0 <= rotated_index(i, width, height) < width * height,
        0 <= i / width < height,
        rotated_index(i, width, height) == rotated_index(j, width, height) ==> i == j,
{
    lemma_cell(i, width, height);
    lemma_cell(j, width, height);
    let xi = i % width;
    let yi = i / width;
    let xj = j % width;
    let yj = j / width;
    lemma_place(width - 1 - xi, yi, width, height);
    lemma_place(width - 1 - xj, yj, width, height);
    if rotated_index(i, width, height) == rotated_index(j, width, height) {
        lemma_place_unique(width - 1 - xi, yi, width - 1 - xj, yj, height);
        assert(i == yi * width + xi) by (nonlinear_arith)
            requires
                width > 0,
                xi == i % width,
                yi == i / width,
        ;
        assert(j == yj * width + xj) by (nonlinear_arith)
            requires
                width > 0,
                xj == j % width,
                yj == j / width,
        ;
    }
}

/// Column and row of the value with index `i`.
proof fn lemma_cell(i: int, width: int, height: int)
    by (nonlinear_arith)
    requires
        width > 0,
        0 <= i < width * height,
    ensures
        0 <= i % width < width,
        0 <= i / width < height,
{
}

/// A cell of a grid lies inside the grid.
proof fn lemma_place(row: int, column: int, rows: int, columns: int)
    by (nonlinear_arith)
    requires
        0 <= row < rows,
        0 <= column < columns,
    ensures
        0 <= row * columns + column < rows * columns,
{
}

/// Two cells with the same index are the same cell.
proof fn lemma_place_unique(r1: int, c1: int, r2: int, c2: int, columns: int)
    by (nonlinear_arith)
    requires
        0 <= c1 < columns,
        0 <= c2 < columns,
        0 <= r1,
        0 <= r2,
        r1 * columns + c1 == r2 * columns + c2,
    ensures
        r1 == r2,
        c1 == c2,
{
}

/// Whether the pixel of each value, after the turn, has the value's colour.
pub open spec fn coloured(pixels: Seq<u8>, colours: Seq<Rgb>, width: int, height: int) -> bool {
    forall|i: int|
        0 <= i < colours.len() ==> {
            let at = #[trigger] rotated_index(i, width, height);
            &&& pixels[3 * at] == colours[i].red
            &&& pixels[3 * at + 1] == colours[i].green
            &&& pixels[3 * at + 2] == colours[i].blue
        }
}

/// Whether every pixel to which none of the first `count` values goes is
/// black.
pub open spec fn black_elsewhere(pixels: Seq<u8>, count: int, width: int, height: int) -> bool {
    forall|p: int|
        0 <= p < width * height && (forall|i: int|
            0 <= i < count ==> #[trigger] rotated_index(i, width, height) != p) ==> {
            &&& #[trigger] pixels[3 * p] == 0
            &&& pixels[3 * p + 1] == 0
            &&& pixels[3 * p + 2] == 0
        }
}

/// The false-colour picture of a spectrogram: its values in the order of
/// the raster, and the least and the greatest of those that count.
#[derive(Debug)]
pub struct FftVisualizer {
    pub min: Option<Level>,
    pub max: Option<Level>,
    pub path: String,
    pub data: Vec<Level>,
}

impl FftVisualizer {
    /// An empty picture that will be written to `path`.
    pub fn new(path: String) -> (r: Self)
        ensures
            r.min is None,
            r.max is None,
            r.data@.len() == 0,
            r.path == path,
    {
        FftVisualizer { min: None, max: None, data: Vec::new(), path }
    }

    /// Finds the bounds of the colour scale anew from all values.
    pub fn find_min_max(&mut self)
        ensures
            final(self).min == running_min(None, old(self).data@),
            final(self).max == running_max(None, old(self).data@),
            final(self).data == old(self).data,
            final(self).path == old(self).path,
    {
        let mut min: Option<Level> = None;
        let mut max: Option<Level> = None;
        let mut i: usize = 0;
        while i < self.data.len()
            invariant
                i <= self.data@.len(),
                min == running_min(None, self.data@.take(i as int)),
                max == running_max(None, self.data@.take(i as int)),
            decreases self.data@.len() - i,
        {
            let value = self.data[i];
            proof {
                assert(self.data@.take(i + 1).drop_last() =~= self.data@.take(i as int));
            }
            min = lower(min, value);
            max = upper(max, value);
            i += 1;
        }
        proof {
            assert(self.data@.take(self.data@.len() as int) =~= self.data@);
        }
        self.min = min;
        self.max = max;
    }

    /// Appends values in raster order and widens the bounds by those of
    /// them that count.
    pub fn extend(&mut self, values: &[Level])
        ensures
            final(self).data@ == old(self).data@ + values@,
            final(self).min == running_min(old(self).min, values@),
            final(self).max == running_max(old(self).max, values@),
            final(self).path == old(self).path,
    {
        let mut i: usize = 0;
        while i < values.len()
            invariant
                i <= values@.len(),
                self.data@ == old(self).data@ + values@.take(i as int),
                self.min == running_min(old(self).min, values@.take(i as int)),
                self.max == running_max(old(self).max, values@.take(i as int)),
                self.path == old(self).path,
            decreases values@.len() - i,
        {
            let value = values[i];
            proof {
                assert(values@.take(i + 1).drop_last() =~= values@.take(i as int));
                assert(values@.take(i + 1) =~= values@.take(i as int).push(value));
            }
            self.min = lower(self.min, value);
            self.max = upper(self.max, value);
            self.data.push(value);
            i += 1;
        }
        proof {
            assert(values@.take(values@.len() as int) =~= values@);
        }
    }

    /// Lays the picture out, turned a quarter counter-clockwise, as the
    /// bytes of an 8-bit RGB raster `height` pixels wide and `width` pixels
    /// high. `colours` holds the colour of each value. There is no picture
    /// where no value counted.
    pub fn visualize(&self, width: usize, height: usize, colours: &[Rgb]) -> (r: Option<Vec<u8>>)
        requires
            width > 0,
            self.data@.len() <= width * height,
            width * height * 3 <= usize::MAX,
            colours@.len() == self.data@.len(),
        ensures
            r is None <==> self.min is None || self.max is None,
            r matches Some(pixels) ==> {
                &&& pixels@.len() == width * height * 3
                &&& coloured(pixels@, colours@, width as int, height as int)
                &&& black_elsewhere(pixels@, colours@.len() as int, width as int, height as int)
            },
    {
        if self.min.is_none() || self.max.is_none() {
            return None;
        }
        let area: usize = width * height;
        let mut pixels: Vec<u8> = Vec::new();
        let mut n: usize = 0;
        while n < area * 3
            invariant
                n <= area * 3,
                area * 3 <= usize::MAX,
                pixels@.len() == n,
                forall|k: int| 0 <= k < n ==> pixels@[k] == 0,
            decreases area * 3 - n,
        {
            pixels.push(0);
            n += 1;
        }
        let mut i: usize = 0;
        while i < self.data.len()
            invariant
                width > 0,
                area == width * height,
                area * 3 <= usize::MAX,
                i <= self.data@.len() <= area,
                colours@.len() == self.data@.len(),
                pixels@.len() == area * 3,
                forall|k: int|
                    0 <= k < i ==> {
                        let at = #[trigger] rotated_index(k, width as int, height as int);
                        &&& pixels@[3 * at] == colours@[k].red
                        &&& pixels@[3 * at + 1] == colours@[k].green
                        &&& pixels@[3 * at + 2] == colours@[k].blue
                    },
                forall|p: int|
                    0 <= p < area && (forall|k: int|
                        0 <= k < i ==> #[trigger] rotated_index(k, width as int, height as int)
                            != p) ==> {
                        &&& #[trigger] pixels@[3 * p] == 0
                        &&& pixels@[3 * p + 1] == 0
                        &&& pixels@[3 * p + 2] == 0
                    },
            decreases self.data@.len() - i,
        {
            let x = i % width;
            let y = i / width;
            proof {
                lemma_rotation_is_injective(i as int, i as int, width as int, height as int);
                lemma_place((width - 1 - x) as int, y as int, width as int, height as int);
            }
            let new_x = y;
            let new_y = (width - 1) - x;
            let at = new_y * height + new_x;
            assert(at == rotated_index(i as int, width as int, height as int));
            let ghost before = pixels@;
            let colour = colours[i];
            pixels[3 * at] = colour.red;
            pixels[3 * at + 1] = colour.green;
            pixels[3 * at + 2] = colour.blue;
            proof {
                assert forall|k: int| 0 <= k < i + 1 implies ({
                    let to = #[trigger] rotated_index(k, width as int, height as int);
                    &&& pixels@[3 * to] == colours@[k].red
                    &&& pixels@[3 * to + 1] == colours@[k].green
                    &&& pixels@[3 * to + 2] == colours@[k].blue
                }) by {
                    if k < i {
                        lemma_rotation_is_injective(k, i as int, width as int, height as int);
                        let to = rotated_index(k, width as int, height as int);
                        assert(to != at);
                        assert(pixels@[3 * to] == before[3 * to]);
                        assert(pixels@[3 * to + 1] == before[3 * to + 1]);
                        assert(pixels@[3 * to + 2] == before[3 * to + 2]);
                    }
                }
                assert forall|p: int|
                    0 <= p < area && (forall|k: int|
                        0 <= k < i + 1 ==> #[trigger] rotated_index(k, width as int, height as int)
                            != p) implies ({
                    &&& #[trigger] pixels@[3 * p] == 0
                    &&& pixels@[3 * p + 1] == 0
                    &&& pixels@[3 * p + 2] == 0
                }) by {
                    assert(rotated_index(i as int, width as int, height as int) != p);
                    assert(pixels@[3 * p] == before[3 * p]);
                    assert(pixels@[3 * p + 1] == before[3 * p + 1]);
                    assert(pixels@[3 * p + 2] == before[3 * p + 2]);
                }
            }
            i += 1;
        }
        proof {
            assert forall|p: int|
                0 <= p < width * height && (forall|k: int|
                    0 <= k < colours@.len() ==> #[trigger] rotated_index(
                        k,
                        width as int,
                        height as int,
                    ) != p) implies ({
                &&& #[trigger] pixels@[3 * p] == 0
                &&& pixels@[3 * p + 1] == 0
                &&& pixels@[3 * p + 2] == 0
            }) by {
                assert(forall|k: int|
                    0 <= k < i ==> #[trigger] rotated_index(k, width as int, height as int) != p);
            }
            assert(black_elsewhere(pixels@, colours@.len() as int, width as int, height as int));
            assert(coloured(pixels@, colours@, width as int, height as int));
        }
        Some(pixels)
    }
}

/// The lesser of the least value so far and `value`, where `value` counts.
pub fn lower(least: Option<Level>, value: Level) -> (r: Option<Level>)
    ensures
        r == min_with(least, value),
{
    if value.is_nan() || value.is_sentinel() {
        return least;
    }
    match least {
        Some(m) => if value.lt(&m) {
            Some(value)
        } else {
            Some(m)
        },
        None => Some(value),
    }
}

/// The greater of the greatest value so far and `value`, where `value`
/// counts.
pub fn upper(greatest: Option<Level>, value: Level) -> (r: Option<Level>)
    ensures
        r == max_with(greatest, value),
{
    if value.is_nan() || value.is_sentinel() {
        return greatest;
    }
    match greatest {
        Some(m) => if m.lt(&value) {
            Some(value)
        } else {
            Some(m)
        },
        None => Some(value),
    }
}

/// The raw sink: the values of the spectrogram as bytes, and where they go.
#[derive(Debug)]
pub struct FftOutput {
    pub results: Vec<u8>,
    pub path: String,
}

/// The analyser's section of the report.
#[derive(Debug)]
pub struct FftReport {
    /// Size of the transform.
    pub size: usize,
    /// Where the raw spectrogram was written.
    pub output: Option<String>,
    /// Where the picture was written.
    pub visualization: Option<String>,
}

/// The spectra of all channels as sequences: `[channel][slice][bin]`.
pub open spec fn spectra_view(spectra: &Vec<Vec<Vec<Level>>>) -> Seq<Seq<Seq<Level>>> {
    Seq::new(
        spectra@.len(),
        |c: int| Seq::new(spectra@[c]@.len(), |s: int| spectra@[c]@[s]@),
    )
}

/// The samples of all channels as sequences: `[channel][sample]`.
pub open spec fn signals_view(signals: &Vec<Vec<i32>>) -> Seq<Seq<i32>> {
    Seq::new(signals@.len(), |c: int| signals@[c]@)
}

/// Whether there is one spectrogram per channel, all of one number of time
/// slices, and every slice has `bins` values.
pub open spec fn well_shaped(spectra: Seq<Seq<Seq<Level>>>, channels: nat, bins: nat) -> bool {
    &&& spectra.len() == channels
    &&& channels >= 1
    &&& forall|c: int|
        0 <= c < spectra.len() ==> (#[trigger] spectra[c]).len() == spectra[0].len()
    &&& forall|c: int, s: int|
        0 <= c < spectra.len() && 0 <= s < spectra[c].len() ==> (#[trigger] spectra[c][s]).len()
            == bins
}

/// The first `upto` channels of time slice `s`, one after the other.
pub open spec fn slice_row(spectra: Seq<Seq<Seq<Level>>>, s: int, upto: int) -> Seq<Level>
    decreases upto,
{
    if upto <= 0 {
        Seq::empty()
    } else {
        slice_row(spectra, s, upto - 1) + spectra[upto - 1][s]
    }
}

/// The first `upto` time slices, each with all its channels, one after the
/// other: the order of the raster.
pub open spec fn interleaved(spectra: Seq<Seq<Seq<Level>>>, upto: int) -> Seq<Level>
    decreases upto,
{
    if upto <= 0 {
        Seq::empty()
    } else {
        interleaved(spectra, upto - 1) + slice_row(spectra, upto - 1, spectra.len() as int)
    }
}

/// A row of `upto` channels has `upto` times the bins.
pub proof fn lemma_slice_row_len(spectra: Seq<Seq<Seq<Level>>>, bins: nat, s: int, upto: int)
    requires
        well_shaped(spectra, spectra.len(), bins),
        0 <= s < spectra[0].len(),
        0 <= upto <= spectra.len(),
    ensures
        slice_row(spectra, s, upto).len() == upto * bins,
    decreases upto,
{
    if upto > 0 {
        lemma_slice_row_len(spectra, bins, s, upto - 1);
        assert(spectra[upto - 1].len() == spectra[0].len());
        assert(spectra[upto - 1][s].len() == bins);
        assert(upto * bins == (upto - 1) * bins + bins) by (nonlinear_arith);
    } else {
        assert(0 * bins == 0) by (nonlinear_arith);
    }
}

/// `upto` time slices hold `upto` rows of all channels.
pub proof fn lemma_interleaved_len(spectra: Seq<Seq<Seq<Level>>>, bins: nat, upto: int)
    requires
        well_shaped(spectra, spectra.len(), bins),
        0 <= upto <= spectra[0].len(),
    ensures
        interleaved(spectra, upto).len() == upto * (spectra.len() * bins),
    decreases upto,
{
    let row = spectra.len() * bins;
    if upto > 0 {
        lemma_interleaved_len(spectra, bins, upto - 1);
        lemma_slice_row_len(spectra, bins, upto - 1, spectra.len() as int);
        assert(upto * row == (upto - 1) * row + row) by (nonlinear_arith);
    } else {
        assert(0 * row == 0) by (nonlinear_arith);
    }
}

/// Number of time slices that window-by-window analysis makes of `frames`
/// frames: one per whole window, and one more for what is left over.
pub open spec fn framewise_slices(frames: nat, fft_size: nat) -> nat {
    if frames % fft_size == 0 {
        frames / fft_size
    } else {
        frames / fft_size + 1
    }
}

/// Number of time slices of one overlapped transform of `frames` frames
/// with hops of `hop` frames: windows start every `hop` frames until one
/// reaches the end of the signal; there is always one.
pub open spec fn overlapped_slices(frames: nat, fft_size: nat, hop: nat) -> nat {
    if frames <= fft_size {
        1
    } else {
        ((frames - fft_size + hop - 1) / (hop as int) + 1) as nat
    }
}

/// Number of time slices that a stream of `frames` frames makes.
pub open spec fn stream_slices(frames: nat, fft_size: nat, framewise: bool) -> nat {
    if framewise {
        framewise_slices(frames, fft_size)
    } else {
        overlapped_slices(frames, fft_size, fft_size / 2)
    }
}

/// Number of time slices that a stream of `frames` frames makes: window by
/// window, or with hops of half a window.
pub fn slices_of(frames: usize, fft_size: usize, framewise: bool) -> (r: usize)
    requires
        fft_size >= 2,
    ensures
        r == stream_slices(frames as nat, fft_size as nat, framewise),
{
    if framewise {
        let whole = frames / fft_size;
        assert(whole <= frames / 2) by (nonlinear_arith)
            requires
                whole == frames / fft_size,
                fft_size >= 2,
        ;
        if frames % fft_size == 0 {
            whole
        } else {
            whole + 1
        }
    } else if frames <= fft_size {
        1
    } else {
        let hop = fft_size / 2;
        (frames - fft_size + (hop - 1)) / hop + 1
    }
}

/// A stream of whole windows makes one time slice per window, and one
/// sample more makes exactly one slice more.
pub proof fn lemma_framewise_one_more(windows: nat, fft_size: nat)
    requires
        fft_size >= 2,
    ensures
        framewise_slices(windows * fft_size, fft_size) == windows,
        framewise_slices(windows * fft_size + 1, fft_size) == windows + 1,
{
    let n = windows * fft_size;
    assert(n % fft_size == 0 && n / fft_size == windows) by (nonlinear_arith)
        requires
            n == windows * fft_size,
            fft_size >= 2,
    ;
    assert((n + 1) % fft_size == 1 && (n + 1) / fft_size == windows) by (nonlinear_arith)
        requires
            n == windows * fft_size,
            fft_size >= 2,
    ;
}

/// With hops of half a window, a signal of one whole window or more has one
/// time slice more when it is one sample longer.
pub proof fn lemma_overlapped_one_more(windows: nat, hop: nat)
    requires
        windows >= 1,
        hop >= 1,
    ensures
        overlapped_slices(windows * (2 * hop), 2 * hop, hop) == 2 * windows - 1,
        overlapped_slices(windows * (2 * hop) + 1, 2 * hop, hop) == 2 * windows,
{
    let fft_size = 2 * hop;
    let n = windows * fft_size;
    let h = hop as int;
    assert(n - fft_size == (2 * windows - 2) * h) by (nonlinear_arith)
        requires
            n == windows * fft_size,
            fft_size == 2 * hop,
            h == hop,
    ;
    assert(((2 * windows - 2) * h + h - 1) / h == 2 * windows - 2) by (nonlinear_arith)
        requires
            h >= 1,
            windows >= 1,
    ;
    assert(((2 * windows - 2) * h + 1 + h - 1) / h == 2 * windows - 1) by (nonlinear_arith)
        requires
            h >= 1,
            windows >= 1,
    ;
    if windows == 1 {
        assert(n == fft_size) by (nonlinear_arith)
            requires
                n == windows * fft_size,
                windows == 1,
        ;
    } else {
        assert(n > fft_size) by (nonlinear_arith)
            requires
                n == windows * fft_size,
                windows >= 2,
                fft_size >= 2,
        ;
    }
}

/// The abstract state of the spectrogram analyser.
pub struct FftModel {
    /// Size of the transform.
    pub fft_size: nat,
    /// Samples per frame.
    pub channels: nat,
    /// Window by window, or the whole signal in one overlapped transform.
    pub framewise: bool,
    /// Length of the stream.
    pub num_frames: nat,
    /// Frames analysed so far.
    pub frames_seen: nat,
    /// The samples of each channel that were not handed out yet.
    pub pending: Seq<Seq<i32>>,
    /// Times that samples were handed out for a transform.
    pub requested: nat,
    /// Time slices taken back.
    pub slices: nat,
    /// The bytes of the raw sink, where there is one.
    pub raw: Option<Seq<u8>>,
    /// The values of the picture, where there is one.
    pub picture: Option<Seq<Level>>,
    /// The least value of the picture that counts.
    pub least: Option<Level>,
    /// The greatest value of the picture that counts.
    pub greatest: Option<Level>,
}

impl FftModel {
    /// Values per channel in one time slice.
    pub open spec fn bins(self) -> nat {
        self.fft_size / 2 + 1
    }

    /// Values in one time slice, and pixels in one row of the raw raster.
    pub open spec fn width(self) -> nat {
        self.channels * self.bins()
    }

    /// Samples per channel that were not handed out yet.
    pub open spec fn buffered(self) -> nat {
        self.pending[0].len()
    }

    pub open spec fn initial(
        fft_size: nat,
        channels: nat,
        framewise: bool,
        num_frames: nat,
        raw: bool,
        picture: bool,
    ) -> FftModel {
        FftModel {
            fft_size,
            channels,
            framewise,
            num_frames,
            frames_seen: 0,
            pending: Seq::new(channels, |c: int| Seq::empty()),
            requested: 0,
            slices: 0,
            raw: if raw {
                Some(Seq::empty())
            } else {
                None
            },
            picture: if picture {
                Some(Seq::empty())
            } else {
                None
            },
            least: None,
            greatest: None,
        }
    }

    /// The invariant. Every channel holds the same number of samples: all
    /// of the stream so far for the overlapped transform, and what came
    /// after the last whole window otherwise. Both sinks hold whole time
    /// slices.
    pub open spec fn wf(self) -> bool {
        &&& self.laid_out()
        &&& self.frames_seen <= self.num_frames <= usize::MAX
        &&& forall|c: int|
            0 <= c < self.pending.len() ==> (#[trigger] self.pending[c]).len() == self.buffered()
        &&& self.framewise ==> self.buffered() < self.fft_size && self.frames_seen
            == self.requested * self.fft_size + self.buffered()
        &&& !self.framewise ==> self.buffered() == self.frames_seen && self.requested == 0
    }

    /// The part of the invariant that outlasts the end of the stream: both
    /// sinks hold whole time slices, one row of the raster each.
    pub open spec fn laid_out(self) -> bool {
        &&& self.fft_size >= 2
        &&& self.channels >= 1
        &&& self.width() * 8 <= usize::MAX
        &&& self.pending.len() == self.channels
        &&& self.raw matches Some(bytes) ==> bytes.len() == self.slices * (self.width() * 8)
        &&& self.picture matches Some(values) ==> values.len() == self.slices * self.width()
        &&& self.picture is None ==> self.least is None && self.greatest is None
    }

    /// Each channel with its sample of `frame` appended.
    pub open spec fn appended(self, frame: Seq<i32>) -> Seq<Seq<i32>> {
        Seq::new(self.pending.len(), |c: int| self.pending[c].push(frame[c]))
    }

    /// Every channel empty.
    pub open spec fn emptied(self) -> Seq<Seq<i32>> {
        Seq::new(self.pending.len(), |c: int| Seq::empty())
    }

    /// Whether the next frame completes a window that is handed out.
    pub open spec fn fills(self) -> bool {
        self.framewise && self.buffered() + 1 == self.fft_size
    }

    /// The windows that the next frame completes, one per channel.
    pub open spec fn handed_out(self, frame: Seq<i32>) -> Option<Seq<Seq<i32>>> {
        if self.fills() {
            Some(self.appended(frame))
        } else {
            None
        }
    }

    /// The state after the next frame.
    pub open spec fn step(self, frame: Seq<i32>) -> FftModel {
        if self.fills() {
            FftModel {
                frames_seen: self.frames_seen + 1,
                pending: self.emptied(),
                requested: self.requested + 1,
                ..self
            }
        } else {
            FftModel { frames_seen: self.frames_seen + 1, pending: self.appended(frame), ..self }
        }
    }

    /// Each channel filled up with zeros to the size of the transform.
    pub open spec fn padded(self) -> Seq<Seq<i32>> {
        Seq::new(
            self.pending.len(),
            |c: int|
                self.pending[c] + Seq::new(
                    (self.fft_size - self.pending[c].len()) as nat,
                    |i: int| 0i32,
                ),
        )
    }

    /// What is handed out at the end of the stream: the whole signal of
    /// each channel for the overlapped transform; otherwise the samples left
    /// over, filled up with zeros to a whole window, if there are any.
    pub open spec fn last_request(self) -> Option<Seq<Seq<i32>>> {
        if !self.framewise {
            Some(self.pending)
        } else if self.buffered() > 0 {
            Some(self.padded())
        } else {
            None
        }
    }

    /// The state after the end of the stream.
    pub open spec fn finished(self) -> FftModel {
        if self.last_request() is Some {
            FftModel { pending: self.emptied(), requested: self.requested + 1, ..self }
        } else {
            self
        }
    }

    /// The state after the time slices of `spectra` were taken back: their
    /// values go to both sinks in raster order, as bytes to the raw one,
    /// and widen the bounds of the picture.
    pub open spec fn accepted(self, spectra: Seq<Seq<Seq<Level>>>) -> FftModel {
        let values = interleaved(spectra, spectra[0].len() as int);
        FftModel {
            slices: self.slices + spectra[0].len(),
            raw: match self.raw {
                Some(bytes) => Some(bytes + encoded(values)),
                None => None,
            },
            picture: match self.picture {
                Some(old) => Some(old + values),
                None => None,
            },
            least: if self.picture is Some {
                running_min(self.least, values)
            } else {
                self.least
            },
            greatest: if self.picture is Some {
                running_max(self.greatest, values)
            } else {
                self.greatest
            },
            ..self
        }
    }
}

/// Window by window, the number of requests after the end of a stream is
/// the number of its time slices: none is dropped and none is doubled.
pub proof fn lemma_framewise_requests(m: FftModel)
    requires
        m.wf(),
        m.framewise,
    ensures
        m.requested == m.frames_seen / m.fft_size,
        m.finished().requested == framewise_slices(m.frames_seen, m.fft_size),
{
    let r = m.requested as int;
    let f = m.fft_size as int;
    let b = m.buffered() as int;
    assert((r * f + b) / f == r && (r * f + b) % f == b) by (nonlinear_arith)
        requires
            0 <= b < f,
            r >= 0,
    ;
}

/// Appends the values to `out`, eight little-endian bytes each.
pub fn push_encoded(out: &mut Vec<u8>, values: &[Level])
    ensures
        final(out)@ == old(out)@ + encoded(values@),
{
    let mut i: usize = 0;
    while i < values.len()
        invariant
            i <= values@.len(),
            out@ == old(out)@ + encoded(values@.take(i as int)),
        decreases values@.len() - i,
    {
        proof {
            assert(values@.take(i + 1).drop_last() =~= values@.take(i as int));
        }
        push_le_bytes(out, values[i].to_bits());
        proof {
            assert(out@ =~= old(out)@ + encoded(values@.take(i + 1)));
        }
        i += 1;
    }
    proof {
        assert(values@.take(values@.len() as int) =~= values@);
        assert(encoded(values@.take(0)) =~= Seq::<u8>::empty());
    }
}

/// Collects the samples of a stream for the spectral transform and lays
/// the spectrogram out for its two sinks.
pub struct FftAnalyser {
    fft_size: usize,
    channels: usize,
    bins: Vec<Vec<i32>>,
    raw: Option<FftOutput>,
    vis: Option<FftVisualizer>,
    framewise: bool,
    num_frames: usize,
    frames_seen: usize,
    requested: Ghost<nat>,
    slices: Ghost<nat>,
}

impl View for FftAnalyser {
    type V = FftModel;

    closed spec fn view(&self) -> FftModel {
        FftModel {
            fft_size: self.fft_size as nat,
            channels: self.channels as nat,
            framewise: self.framewise,
            num_frames: self.num_frames as nat,
            frames_seen: self.frames_seen as nat,
            pending: signals_view(&self.bins),
            requested: self.requested@,
            slices: self.slices@,
            raw: match self.raw {
                Some(out) => Some(out.results@),
                None => None,
            },
            picture: match self.vis {
                Some(v) => Some(v.data@),
                None => None,
            },
            least: match self.vis {
                Some(v) => v.min,
                None => None,
            },
            greatest: match self.vis {
                Some(v) => v.max,
                None => None,
            },
        }
    }
}

/// Whether a transform of `fft_bins` samples on `channels` channels can be
/// laid out: the transform has a hop, there is a channel, and a row of the
/// raw raster can be counted in bytes.
pub open spec fn spec_supports(fft_bins: usize, channels: u16) -> bool {
    &&& fft_bins >= 2
    &&& channels >= 1
    &&& channels * (fft_bins / 2 + 1) * 8 <= usize::MAX
}

impl FftAnalyser {
    /// Whether a transform of `fft_bins` samples on `channels` channels can
    /// be laid out.
    pub fn supports(fft_bins: usize, channels: u16) -> (r: bool)
        ensures
            r == spec_supports(fft_bins, channels),
    {
        if fft_bins < 2 || channels < 1 {
            return false;
        }
        let bins = fft_bins / 2 + 1;
        let wide: u128 = channels as u128;
        let deep: u128 = bins as u128;
        assert(wide * deep * 8 <= u128::MAX) by (nonlinear_arith)
            requires
                wide <= u16::MAX,
                deep <= u64::MAX,
        ;
        let per_row: u128 = wide * deep * 8;
        per_row <= usize::MAX as u128
    }

    /// An analyser for a stream as `stream` describes it. It has a raw
    /// sink where `path` is given and a picture where `args.fft_vis` is.
    pub fn new(args: &Cli, stream: &StreamInfo, path: Option<String>) -> (r: Self)
        requires
            spec_supports(args.fft_bins, stream.channels),
        ensures
            r@ == FftModel::initial(
                args.fft_bins as nat,
                stream.channels as nat,
                args.fft_framewise,
                stream.num_frames as nat,
                path is Some,
                args.fft_vis is Some,
            ),
            r@.wf(),
            r.spec_raw_path() == path,
            r.spec_vis_path() == args.fft_vis,
    {
        let channels = stream.channels as usize;
        let mut bins: Vec<Vec<i32>> = Vec::new();
        let mut c: usize = 0;
        while c < channels
            invariant
                c <= channels,
                bins@.len() == c,
                forall|k: int| 0 <= k < c ==> (#[trigger] bins@[k])@.len() == 0,
            decreases channels - c,
        {
            bins.push(Vec::new());
            c += 1;
        }
        let raw = match path {
            Some(path) => Some(FftOutput { results: Vec::new(), path }),
            None => None,
        };
        let vis = match &args.fft_vis {
            Some(p) => Some(FftVisualizer::new(p.clone())),
            None => None,
        };
        let r = FftAnalyser {
            fft_size: args.fft_bins,
            channels,
            bins,
            raw,
            vis,
            framewise: args.fft_framewise,
            num_frames: stream.num_frames,
            frames_seen: 0,
            requested: Ghost(0),
            slices: Ghost(0),
        };
        proof {
            let m = FftModel::initial(
                args.fft_bins as nat,
                stream.channels as nat,
                args.fft_framewise,
                stream.num_frames as nat,
                path is Some,
                args.fft_vis is Some,
            );
            assert(r@.pending =~= m.pending) by {
                assert forall|k: int| 0 <= k < r@.pending.len() implies r@.pending[k] =~= m.pending[k] by {}
            }
            assert(0 * r@.fft_size == 0) by (nonlinear_arith);
            assert(r@.raw matches Some(b) ==> b =~= Seq::<u8>::empty());
            assert(r@.picture matches Some(b) ==> b =~= Seq::<Level>::empty());
            assert(r@ == m);
            let w8 = (r@.width() * 8) as int;
            let w = r@.width() as int;
            assert(0 * w8 == 0) by (nonlinear_arith);
            assert(0 * w == 0) by (nonlinear_arith);
            assert(r@.width() * 8 == stream.channels * (args.fft_bins / 2 + 1) * 8)
                by (nonlinear_arith)
                requires
                    r@.width() == stream.channels * (args.fft_bins / 2 + 1),
            ;
        }
        r
    }

    /// Whether `report` is the analyser's section of the report.
    pub open spec fn reported(&self, report: FftReport) -> bool {
        &&& report.size == self@.fft_size
        &&& report.output == self.spec_raw_path()
        &&& report.visualization == self.spec_vis_path()
    }

    pub closed spec fn spec_raw_path(&self) -> Option<String> {
        match self.raw {
            Some(out) => Some(out.path),
            None => None,
        }
    }

    pub closed spec fn spec_vis_path(&self) -> Option<String> {
        match self.vis {
            Some(v) => Some(v.path),
            None => None,
        }
    }

    /// Frames analysed so far.
    pub fn frames_seen(&self) -> (r: usize)
        ensures
            r == self@.frames_seen,
    {
        self.frames_seen
    }

    /// Size of the transform.
    pub fn fft_size(&self) -> (r: usize)
        ensures
            r == self@.fft_size,
    {
        self.fft_size
    }

    /// Samples per frame.
    pub fn channels(&self) -> (r: usize)
        ensures
            r == self@.channels,
    {
        self.channels
    }

    /// Number of time slices that the frames analysed so far make as a
    /// whole stream.
    pub fn expected_slices(&self) -> (r: usize)
        requires
            self@.laid_out(),
        ensures
            r == stream_slices(self@.frames_seen, self@.fft_size, self@.framewise),
    {
        slices_of(self.frames_seen, self.fft_size, self.framewise)
    }

    /// Whether the stream is analysed window by window.
    pub fn framewise(&self) -> (r: bool)
        ensures
            r == self@.framewise,
    {
        self.framewise
    }

    /// The raw sink, where there is one.
    pub fn raw(&self) -> (r: &Option<FftOutput>)
        ensures
            match *r {
                Some(out) => self@.raw == Some(out.results@) && self.spec_raw_path() == Some(
                    out.path,
                ),
                None => self@.raw is None && self.spec_raw_path() is None,
            },
    {
        &self.raw
    }

    /// The picture, where there is one.
    pub fn vis(&self) -> (r: &Option<FftVisualizer>)
        ensures
            match *r {
                Some(v) => {
                    &&& self@.picture == Some(v.data@)
                    &&& self@.least == v.min
                    &&& self@.greatest == v.max
                    &&& self.spec_vis_path() == Some(v.path)
                },
                None => self@.picture is None && self.spec_vis_path() is None,
            },
    {
        &self.vis
    }

    /// Values in one time slice: the width of the raw raster in pixels.
    pub fn raster_width(&self) -> (r: usize)
        requires
            self@.laid_out(),
        ensures
            r == self@.width(),
    {
        let bins = self.fft_size / 2 + 1;
        proof {
            let c = self.channels as int;
            let b = bins as int;
            assert(c * b <= c * b * 8) by (nonlinear_arith)
                requires
                    c >= 0,
                    b >= 0,
            ;
        }
        self.channels * bins
    }

    /// Rows of the raw raster: the bytes of the raw sink, eight to a pixel,
    /// in rows of the raster's width. It is the number of time slices.
    pub fn raw_height(&self) -> (r: Option<usize>)
        requires
            self@.laid_out(),
        ensures
            r is Some <==> self@.raw is Some,
            r matches Some(h) ==> h == self@.slices,
    {
        let width = self.raster_width();
        match &self.raw {
            Some(out) => {
                proof {
                    let n = self@.slices as int;
                    let w = (width * 8) as int;
                    assert(self@.width() * 8 >= 8) by (nonlinear_arith)
                        requires
                            self@.channels >= 1,
                            self@.bins() >= 1,
                            self@.width() == self@.channels * self@.bins(),
                    ;
                    assert((n * w) / w == n) by (nonlinear_arith)
                        requires
                            w >= 1,
                            n >= 0,
                    ;
                }
                Some(out.results.len() / (width * 8))
            },
            None => None,
        }
    }

    /// Rows of the picture before it is turned: its values in rows of one
    /// time slice. It is the number of time slices.
    pub fn vis_height(&self) -> (r: Option<usize>)
        requires
            self@.laid_out(),
        ensures
            r is Some <==> self@.picture is Some,
            r matches Some(h) ==> h == self@.slices,
    {
        let width = self.raster_width();
        match &self.vis {
            Some(v) => {
                proof {
                    let n = self@.slices as int;
                    let w = width as int;
                    assert(self@.width() >= 1) by (nonlinear_arith)
                        requires
                            self@.channels >= 1,
                            self@.bins() >= 1,
                            self@.width() == self@.channels * self@.bins(),
                    ;
                    assert((n * w) / w == n) by (nonlinear_arith)
                        requires
                            w >= 1,
                            n >= 0,
                    ;
                }
                Some(v.data.len() / width)
            },
            None => None,
        }
    }

    /// The analyser's section of the report: the size of the transform and
    /// where the sinks go.
    pub fn json(&self) -> (r: FftReport)
        ensures
            self.reported(r),
    {
        FftReport {
            size: self.fft_size,
            output: match &self.raw {
                Some(out) => Some(out.path.clone()),
                None => None,
            },
            visualization: match &self.vis {
                Some(v) => Some(v.path.clone()),
                None => None,
            },
        }
    }
    /// Hands the samples of all channels out and leaves every channel empty.
    fn take_pending(&mut self) -> (out: Vec<Vec<i32>>)
        ensures
            signals_view(&out) == old(self)@.pending,
            final(self)@ == (FftModel { pending: old(self)@.emptied(), ..old(self)@ }),
            final(self).spec_raw_path() == old(self).spec_raw_path(),
            final(self).spec_vis_path() == old(self).spec_vis_path(),
    {
        let mut fresh: Vec<Vec<i32>> = Vec::new();
        let mut c: usize = 0;
        while c < self.bins.len()
            invariant
                c <= self.bins@.len(),
                fresh@.len() == c,
                forall|k: int| 0 <= k < c ==> (#[trigger] fresh@[k])@.len() == 0,
                *self == *old(self),
            decreases self.bins@.len() - c,
        {
            fresh.push(Vec::new());
            c += 1;
        }
        core::mem::swap(&mut self.bins, &mut fresh);
        proof {
            assert(self@.pending =~= old(self)@.emptied()) by {
                assert forall|k: int| 0 <= k < self@.pending.len() implies self@.pending[k]
                    =~= old(self)@.emptied()[k] by {}
            }
        }
        fresh
    }

    /// Takes the next frame of the stream, one sample per channel. Window
    /// by window, the frame that completes a window hands the window of
    /// each channel out for the transform.
    pub fn analyse(&mut self, frame_counter: usize, frame: &[i32]) -> (windows: Option<
        Vec<Vec<i32>>,
    >)
        requires
            old(self)@.wf(),
            frame_counter == old(self)@.frames_seen,
            frame_counter < old(self)@.num_frames,
            frame@.len() == old(self)@.channels,
        ensures
            final(self)@ == old(self)@.step(frame@),
            final(self)@.wf(),
            final(self).spec_raw_path() == old(self).spec_raw_path(),
            final(self).spec_vis_path() == old(self).spec_vis_path(),
            match windows {
                Some(w) => old(self)@.handed_out(frame@) == Some(signals_view(&w)),
                None => old(self)@.handed_out(frame@) is None,
            },
    {
        let mut c: usize = 0;
        while c < self.channels
            invariant
                c <= self.channels,
                self.channels == old(self).channels,
                self.channels == self.bins@.len(),
                self.channels == frame@.len(),
                self.bins@.len() == old(self).bins@.len(),
                forall|k: int| 0 <= k < c ==> (#[trigger] self.bins@[k])@ == old(self).bins@[k]@.push(frame@[k]),
                forall|k: int| c <= k < self.channels ==> (#[trigger] self.bins@[k])@ == old(self).bins@[k]@,
                self.fft_size == old(self).fft_size,
                self.raw == old(self).raw,
                self.vis == old(self).vis,
                self.framewise == old(self).framewise,
                self.num_frames == old(self).num_frames,
                self.frames_seen == old(self).frames_seen,
                self.requested == old(self).requested,
                self.slices == old(self).slices,
            decreases self.channels - c,
        {
            let channel = &mut self.bins[c];
            channel.push(frame[c]);
            c += 1;
        }
        self.frames_seen = frame_counter + 1;
        proof {
            assert(self@.pending =~= old(self)@.appended(frame@)) by {
                assert forall|k: int| 0 <= k < self@.pending.len() implies self@.pending[k]
                    =~= old(self)@.appended(frame@)[k] by {}
            }
            assert(old(self)@.pending[0].len() == old(self)@.buffered());
        }
        if self.framewise && self.bins[0].len() == self.fft_size {
            let out = self.take_pending();
            proof {
                self.requested = Ghost(self.requested@ + 1);
                let r = old(self)@.requested as int;
                let f = old(self)@.fft_size as int;
                assert((r + 1) * f == r * f + f) by (nonlinear_arith);
                assert(self@.pending =~= old(self)@.emptied());
            }
            Some(out)
        } else {
            None
        }
    }

    /// Ends the stream and hands out what is still to be transformed: the
    /// whole signal of each channel for the overlapped transform; window by
    /// window the samples left over, filled up with zeros to a whole window.
    /// The analyser raises no status bit.
    pub fn finish(&mut self) -> (r: (u8, Option<Vec<Vec<i32>>>))
        requires
            old(self)@.wf(),
        ensures
            final(self)@ == old(self)@.finished(),
            final(self)@.laid_out(),
            final(self).spec_raw_path() == old(self).spec_raw_path(),
            final(self).spec_vis_path() == old(self).spec_vis_path(),
            r.0 == 0,
            match r.1 {
                Some(w) => old(self)@.last_request() == Some(signals_view(&w)),
                None => old(self)@.last_request() is None,
            },
    {
        if self.framewise {
            if self.bins[0].len() == 0 {
                return (0, None);
            }
            let mut c: usize = 0;
            while c < self.channels
                invariant
                    c <= self.channels,
                    old(self)@.wf(),
                    old(self)@.framewise,
                    self.channels == old(self).channels,
                    self.channels == self.bins@.len(),
                    self.bins@.len() == old(self).bins@.len(),
                    forall|k: int|
                        0 <= k < c ==> (#[trigger] self.bins@[k])@ == old(self)@.padded()[k],
                    forall|k: int|
                        c <= k < self.channels ==> (#[trigger] self.bins@[k])@ == old(self).bins@[k]@,
                    self.fft_size == old(self).fft_size,
                    self.raw == old(self).raw,
                    self.vis == old(self).vis,
                    self.framewise == old(self).framewise,
                    self.num_frames == old(self).num_frames,
                    self.frames_seen == old(self).frames_seen,
                    self.requested == old(self).requested,
                    self.slices == old(self).slices,
                decreases self.channels - c,
            {
                let size = self.fft_size;
                let channel = &mut self.bins[c];
                let ghost start = channel@;
                assert(start == old(self)@.pending[c as int]);
                assert(start.len() == old(self)@.buffered());
                while channel.len() < size
                    invariant
                        start.len() <= channel@.len() <= size,
                        channel@ == start + Seq::new(
                            (channel@.len() - start.len()) as nat,
                            |i: int| 0i32,
                        ),
                    decreases size - channel@.len(),
                {
                    channel.push(0);
                    assert(channel@ =~= start + Seq::new(
                        (channel@.len() - start.len()) as nat,
                        |i: int| 0i32,
                    ));
                }
                c += 1;
            }
            proof {
                assert(self@.pending =~= old(self)@.padded());
            }
        }
        let out = self.take_pending();
        proof {
            self.requested = Ghost(self.requested@ + 1);
            assert(self@.pending =~= old(self)@.emptied());
            assert(old(self)@.pending[0].len() == old(self)@.buffered());
        }
        (0, Some(out))
    }

    /// Whether the spectra have the shape of this analyser's time slices.
    pub fn fits(&self, spectra: &Vec<Vec<Vec<Level>>>) -> (r: bool)
        requires
            self@.laid_out(),
        ensures
            r == well_shaped(spectra_view(spectra), self@.channels, self@.bins()),
    {
        let ghost view = spectra_view(spectra);
        if self.channels == 0 || spectra.len() != self.channels {
            return false;
        }
        let bins = self.fft_size / 2 + 1;
        let slices = spectra[0].len();
        let mut c: usize = 0;
        while c < spectra.len()
            invariant
                c <= spectra@.len(),
                view == spectra_view(spectra),
                slices == view[0].len(),
                spectra@.len() >= 1,
                bins == self@.bins(),
                forall|k: int| 0 <= k < c ==> (#[trigger] view[k]).len() == view[0].len(),
                forall|k: int, s: int|
                    0 <= k < c && 0 <= s < view[k].len() ==> (#[trigger] view[k][s]).len() == bins,
            decreases spectra@.len() - c,
        {
            let channel = &spectra[c];
            if channel.len() != slices {
                assert(view[c as int].len() != view[0].len());
                return false;
            }
            let mut s: usize = 0;
            while s < channel.len()
                invariant
                    s <= channel@.len(),
                    c < spectra@.len(),
                    channel@ == spectra@[c as int]@,
                    view == spectra_view(spectra),
                    bins == self@.bins(),
                    forall|t: int| 0 <= t < s ==> (#[trigger] view[c as int][t]).len() == bins,
                decreases channel@.len() - s,
            {
                if channel[s].len() != bins {
                    proof {
                        assert(view[c as int].len() == channel@.len());
                        assert(view[c as int][s as int] == channel@[s as int]@);
                        assert(view[c as int][s as int].len() != self@.bins());
                    }
                    return false;
                }
                s += 1;
            }
            c += 1;
        }
        true
    }

    /// Takes time slices back from the transform: `spectra[c][s]` holds the
    /// values of channel `c` in time slice `s`. Spectra of the wrong shape
    /// are skipped as a whole. Otherwise every time slice goes to both
    /// sinks, channel after channel.
    pub fn accept(&mut self, spectra: &Vec<Vec<Vec<Level>>>) -> (taken: bool)
        requires
            old(self)@.laid_out(),
        ensures
            taken == well_shaped(spectra_view(spectra), old(self)@.channels, old(self)@.bins()),
            taken ==> final(self)@ == old(self)@.accepted(spectra_view(spectra)),
            !taken ==> final(self)@ == old(self)@,
            final(self)@.laid_out(),
            old(self)@.wf() ==> final(self)@.wf(),
            final(self).spec_raw_path() == old(self).spec_raw_path(),
            final(self).spec_vis_path() == old(self).spec_vis_path(),
    {
        if !self.fits(spectra) {
            return false;
        }
        let ghost view = spectra_view(spectra);
        let ghost bins = old(self)@.bins();
        let slices = spectra[0].len();
        let mut s: usize = 0;
        while s < slices
            invariant
                s <= slices,
                slices == view[0].len(),
                view == spectra_view(spectra),
                well_shaped(view, old(self)@.channels, bins),
                self.channels == old(self).channels,
                self.channels == spectra@.len(),
                self.fft_size == old(self).fft_size,
                self.bins == old(self).bins,
                self.framewise == old(self).framewise,
                self.num_frames == old(self).num_frames,
                self.frames_seen == old(self).frames_seen,
                self.requested == old(self).requested,
                self.slices == old(self).slices,
                self.carries(old(self), interleaved(view, s as int)),
            decreases slices - s,
        {
            let mut c: usize = 0;
            while c < self.channels
                invariant
                    c <= self.channels,
                    s < slices,
                    slices == view[0].len(),
                    view == spectra_view(spectra),
                    well_shaped(view, old(self)@.channels, bins),
                    self.channels == old(self).channels,
                    self.channels == spectra@.len(),
                    self.fft_size == old(self).fft_size,
                    self.bins == old(self).bins,
                    self.framewise == old(self).framewise,
                    self.num_frames == old(self).num_frames,
                    self.frames_seen == old(self).frames_seen,
                    self.requested == old(self).requested,
                    self.slices == old(self).slices,
                    self.carries(
                        old(self),
                        interleaved(view, s as int) + slice_row(view, s as int, c as int),
                    ),
                decreases self.channels - c,
            {
                let ghost so_far = interleaved(view, s as int) + slice_row(view, s as int, c as int);
                assert(view[c as int].len() == view[0].len());
                let row = &spectra[c][s];
                assert(row@ == view[c as int][s as int]);
                match &mut self.raw {
                    Some(out) => {
                        push_encoded(&mut out.results, row.as_slice());
                    },
                    None => {},
                }
                match &mut self.vis {
                    Some(v) => {
                        v.extend(row.as_slice());
                    },
                    None => {},
                }
                proof {
                    lemma_encoded_concat(so_far, row@);
                    lemma_running_bounds_concat(old(self)@.least, so_far, row@);
                    lemma_running_bounds_concat(old(self)@.greatest, so_far, row@);
                    assert(so_far + row@ =~= interleaved(view, s as int) + slice_row(
                        view,
                        s as int,
                        c + 1,
                    ));
                    if self.raw is Some && old(self).raw is Some {
                        assert(self.raw->0.results@ =~= old(self).raw->0.results@ + encoded(
                            so_far + row@,
                        ));
                    }
                    if self.vis is Some && old(self).vis is Some {
                        assert(self.vis->0.data@ =~= old(self).vis->0.data@ + (so_far + row@));
                    }
                }
                c += 1;
            }
            proof {
                assert(interleaved(view, s as int) + slice_row(view, s as int, self.channels as int)
                    =~= interleaved(view, s + 1));
            }
            s += 1;
        }
        proof {
            assert(interleaved(view, 0) =~= Seq::<Level>::empty());
            let values = interleaved(view, slices as int);
            self.slices = Ghost(self.slices@ + slices as nat);
            lemma_interleaved_len(view, bins, slices as int);
            lemma_encoded_len(values);
            let n = old(self)@.slices as int;
            let k = slices as int;
            let w = old(self)@.width() as int;
            assert((n + k) * w == n * w + k * w) by (nonlinear_arith);
            assert((n + k) * (w * 8) == n * (w * 8) + 8 * (k * w)) by (nonlinear_arith);
        }
        true
    }

    /// Whether the sinks hold what `before` held and then `values`.
    pub closed spec fn carries(&self, before: &FftAnalyser, values: Seq<Level>) -> bool {
        &&& match (self.raw, before.raw) {
            (Some(now), Some(then)) => now.results@ == then.results@ + encoded(values) && now.path
                == then.path,
            (None, None) => true,
            _ => false,
        }
        &&& match (self.vis, before.vis) {
            (Some(now), Some(then)) => {
                &&& now.data@ == then.data@ + values
                &&& now.min == running_min(then.min, values)
                &&& now.max == running_max(then.max, values)
                &&& now.path == then.path
            },
            (None, None) => true,
            _ => false,
        }
    }
}

} // verus!
