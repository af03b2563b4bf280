//! The level map: the level of every sample, channel by channel, each
//! channel laid out as a square.
//!
//! The level of a sample in dBFS is floating-point work and is computed
//! outside this library. What is decided here is the side of the square,
//! the padding that fills it, and the order of the bytes.

use vstd::prelude::*;
use crate::analysers::fft::encoded;
use crate::analysers::fft::lemma_encoded_concat;
use crate::analysers::fft::lemma_encoded_len;
use crate::analysers::fft::push_encoded;
use crate::analysers::fft::push_le_bytes;
use crate::analysers::fft::signals_view;
use crate::cli::Cli;
use crate::cli::StreamInfo;
use crate::level::Level;
use crate::level::NEG_INFINITY_BITS;

verus! {

/// Whether `side` is the least number whose square is at least `n`.
pub open spec fn is_square_side(n: nat, side: nat) -> bool {
    &&& side * side >= n
    &&& side > 0 ==> (side - 1) * (side - 1) < n
}

/// Of two sides of `n`, neither is less than the other: the side is unique.
pub proof fn lemma_square_side_unique(n: nat, a: nat, b: nat)
    requires
        is_square_side(n, a),
        is_square_side(n, b),
    ensures
        a == b,
{
    if a < b {
        assert(a * a <= (b - 1) * (b - 1)) by (nonlinear_arith)
            requires
                a <= b - 1,
        ;
    }
    if b < a {
        assert(b * b <= (a - 1) * (a - 1)) by (nonlinear_arith)
            requires
                b <= a - 1,
        ;
    }
}

/// The side of the least square that holds `n` values.
pub fn square_side(n: usize) -> (side: usize)
    ensures
        is_square_side(n as nat, side as nat),
        side <= 0x1_0000_0000,
        side <= n,
{
    if n == 0 {
        return 0;
    }
    let mut lo: u64 = 0;
    let mut hi: u64 = if n as u64 > 0x1_0000_0000 {
        0x1_0000_0000
    } else {
        n as u64
    };
    assert(hi * hi >= n) by (nonlinear_arith)
        requires
            n >= 1,
            n <= u64::MAX,
            hi == if n > 0x1_0000_0000 {
                0x1_0000_0000
            } else {
                n as int
            },
    ;
    while hi - lo > 1
        invariant
            lo < hi <= 0x1_0000_0000,
            hi <= n,
            lo * lo < n,
            hi * hi >= n,
        decreases hi - lo,
    {
        let mid: u64 = lo + (hi - lo) / 2;
        assert(mid * mid <= 0x1_0000_0000 * 0x1_0000_0000) by (nonlinear_arith)
            requires
                mid <= 0x1_0000_0000,
        ;
        let square: u128 = (mid as u128) * (mid as u128);
        if square >= n as u128 {
            hi = mid;
        } else {
            lo = mid;
        }
    }
    assert((hi - 1) * (hi - 1) < n) by {
        assert(hi - 1 == lo);
    }
    hi as usize
}

/// `count` times the padding sentinel.
pub open spec fn padding(count: nat) -> Seq<Level> {
    Seq::new(count, |i: int| Level { bits: NEG_INFINITY_BITS })
}

/// The values of one channel, padded to a square of side `side`.
pub open spec fn square_of(levels: Seq<Level>, side: nat) -> Seq<Level> {
    levels + padding((side * side - levels.len()) as nat)
}

/// The squares of the first `upto` channels, one after the other.
pub open spec fn squares(levels: Seq<Seq<Level>>, side: nat, upto: int) -> Seq<Level>
    decreases upto,
{
    if upto <= 0 {
        Seq::empty()
    } else {
        squares(levels, side, upto - 1) + square_of(levels[upto - 1], side)
    }
}

/// `upto` channels of `count` values each fill `upto` squares.
pub proof fn lemma_squares_len(levels: Seq<Seq<Level>>, count: nat, side: nat, upto: int)
    requires
        0 <= upto <= levels.len(),
        side * side >= count,
        forall|c: int| 0 <= c < levels.len() ==> (#[trigger] levels[c]).len() == count,
    ensures
        squares(levels, side, upto).len() == upto * (side * side),
    decreases upto,
{
    let area = side * side;
    if upto > 0 {
        lemma_squares_len(levels, count, side, upto - 1);
        assert(levels[upto - 1].len() == count);
        assert(upto * area == (upto - 1) * area + area) by (nonlinear_arith);
    } else {
        assert(0 * area == 0) by (nonlinear_arith);
    }
}

/// The levels of all channels as sequences: `[channel][sample]`.
pub open spec fn levels_view(levels: &Vec<Vec<Level>>) -> Seq<Seq<Level>> {
    Seq::new(levels@.len(), |c: int| levels@[c]@)
}

/// The analyser's section of the report.
#[derive(Debug)]
pub struct PeaksReport {
    /// Where the map was written.
    pub output: String,
    /// Samples per channel.
    pub channel_size: usize,
    /// Values in the square of one channel.
    pub square_size: u128,
    /// Padding values in the square of one channel.
    pub padding: u128,
}

/// The level map as it is written: a 16-bit RGBA raster, one pixel of
/// eight bytes per value.
#[derive(Debug)]
pub struct PeakMap {
    pub bytes: Vec<u8>,
    pub width: usize,
    pub height: usize,
}

/// The abstract state of the level analyser.
pub struct PeaksModel {
    /// Samples per frame.
    pub channels: nat,
    /// Length of the stream.
    pub num_frames: nat,
    /// Frames analysed so far.
    pub frames_seen: nat,
    /// The samples of each channel.
    pub samples: Seq<Seq<i32>>,
}

impl PeaksModel {
    pub open spec fn initial(channels: nat, num_frames: nat) -> PeaksModel {
        PeaksModel {
            channels,
            num_frames,
            frames_seen: 0,
            samples: Seq::new(channels, |c: int| Seq::empty()),
        }
    }

    /// Every channel holds one sample of every frame so far.
    pub open spec fn wf(self) -> bool {
        &&& self.frames_seen <= self.num_frames <= usize::MAX
        &&& self.samples.len() == self.channels
        &&& forall|c: int|
            0 <= c < self.samples.len() ==> (#[trigger] self.samples[c]).len() == self.frames_seen
    }

    /// The state after the next frame: each channel gets its sample.
    pub open spec fn step(self, frame: Seq<i32>) -> PeaksModel {
        PeaksModel {
            frames_seen: self.frames_seen + 1,
            samples: Seq::new(self.samples.len(), |c: int| self.samples[c].push(frame[c])),
            ..self
        }
    }

    /// Whether `levels` holds one level for every sample.
    pub open spec fn matches_samples(self, levels: Seq<Seq<Level>>) -> bool {
        &&& levels.len() == self.channels
        &&& forall|c: int| 0 <= c < levels.len() ==> (#[trigger] levels[c]).len() == self.frames_seen
    }
}

/// Collects the samples of a stream and lays their levels out as a map.
pub struct PeaksAnalyzer {
    channels: usize,
    path: String,
    peaks: Vec<Vec<i32>>,
    num_frames: usize,
    frames_seen: usize,
}

impl View for PeaksAnalyzer {
    type V = PeaksModel;

    closed spec fn view(&self) -> PeaksModel {
        PeaksModel {
            channels: self.channels as nat,
            num_frames: self.num_frames as nat,
            frames_seen: self.frames_seen as nat,
            samples: signals_view(&self.peaks),
        }
    }
}

impl PeaksAnalyzer {
    /// Whether `report` is the analyser's section of the report.
    pub open spec fn reported(&self, report: PeaksReport) -> bool {
        &&& report.output == self.spec_path()
        &&& report.channel_size == self@.frames_seen
        &&& exists|side: nat| #[trigger]
            is_square_side(self@.frames_seen, side) && report.square_size == side * side
        &&& report.padding == report.square_size - report.channel_size
    }

    pub closed spec fn spec_path(&self) -> String {
        self.path
    }

    /// An analyser for a stream as `stream` describes it, whose map goes to
    /// `path`.
    pub fn new(_args: &Cli, stream: &StreamInfo, path: String) -> (r: Self)
        ensures
            r@ == PeaksModel::initial(stream.channels as nat, stream.num_frames as nat),
            r@.wf(),
            r.spec_path() == path,
    {
        let channels = stream.channels as usize;
        let mut peaks: Vec<Vec<i32>> = Vec::new();
        let mut c: usize = 0;
        while c < channels
            invariant
                c <= channels,
                peaks@.len() == c,
                forall|k: int| 0 <= k < c ==> (#[trigger] peaks@[k])@.len() == 0,
            decreases channels - c,
        {
            peaks.push(Vec::new());
            c += 1;
        }
        let r = PeaksAnalyzer {
            channels,
            path,
            peaks,
            num_frames: stream.num_frames,
            frames_seen: 0,
        };
        proof {
            let m = PeaksModel::initial(stream.channels as nat, stream.num_frames as nat);
            assert(r@.samples =~= m.samples) by {
                assert forall|k: int| 0 <= k < r@.samples.len() implies r@.samples[k]
                    =~= m.samples[k] by {}
            }
        }
        r
    }

    /// Where the map goes.
    pub fn path(&self) -> (r: &String)
        ensures
            *r == self.spec_path(),
    {
        &self.path
    }

    /// Frames analysed so far.
    pub fn frames_seen(&self) -> (r: usize)
        ensures
            r == self@.frames_seen,
    {
        self.frames_seen
    }

    /// Samples per frame.
    pub fn channels(&self) -> (r: usize)
        ensures
            r == self@.channels,
    {
        self.channels
    }

    /// The samples of each channel, whose levels make the map.
    pub fn samples(&self) -> (r: &Vec<Vec<i32>>)
        ensures
            signals_view(r) == self@.samples,
    {
        &self.peaks
    }

    /// Takes the next frame of the stream, one sample per channel.
    pub fn analyse(&mut self, frame_counter: usize, frame: &[i32])
        requires
            old(self)@.wf(),
            frame_counter == old(self)@.frames_seen,
            frame_counter < old(self)@.num_frames,
            frame@.len() == old(self)@.channels,
        ensures
            final(self)@ == old(self)@.step(frame@),
            final(self)@.wf(),
            final(self).spec_path() == old(self).spec_path(),
    {
        let mut c: usize = 0;
        while c < self.channels
            invariant
                c <= self.channels,
                self.channels == old(self).channels,
                self.channels == self.peaks@.len(),
                self.channels == frame@.len(),
                self.peaks@.len() == old(self).peaks@.len(),
                forall|k: int|
                    0 <= k < c ==> (#[trigger] self.peaks@[k])@ == old(self).peaks@[k]@.push(
                        frame@[k],
                    ),
                forall|k: int|
                    c <= k < self.channels ==> (#[trigger] self.peaks@[k])@ == old(self).peaks@[k]@,
                self.path == old(self).path,
                self.num_frames == old(self).num_frames,
                self.frames_seen == old(self).frames_seen,
            decreases self.channels - c,
        {
            let channel = &mut self.peaks[c];
            channel.push(frame[c]);
            c += 1;
        }
        self.frames_seen = frame_counter + 1;
        proof {
            assert(self@.samples =~= old(self)@.step(frame@).samples) by {
                assert forall|k: int| 0 <= k < self@.samples.len() implies self@.samples[k]
                    =~= old(self)@.step(frame@).samples[k] by {}
            }
        }
    }

    /// Ends the stream. The analyser raises no status bit.
    pub fn finish(&mut self) -> (status: u8)
        ensures
            final(self)@ == old(self)@,
            final(self).spec_path() == old(self).spec_path(),
            status == 0,
    {
        0
    }

    /// Lays the map out from the level of every sample: `levels[c][i]` is
    /// the level of sample `i` of channel `c`. Each channel fills a square
    /// of the least side that holds it, padded with negative infinity, and
    /// the squares stand one below the other. There is no map without a
    /// channel, nor where `levels` does not hold one level per sample.
    pub fn render(&self, levels: &Vec<Vec<Level>>) -> (r: Option<PeakMap>)
        requires
            self@.wf(),
        ensures
            r is Some <==> self@.channels > 0 && self@.matches_samples(levels_view(levels)),
            r matches Some(map) ==> {
                &&& is_square_side(self@.frames_seen, map.width as nat)
                &&& map.height == map.width * self@.channels
                &&& map.bytes@ == encoded(
                    squares(levels_view(levels), map.width as nat, self@.channels as int),
                )
                &&& map.bytes@.len() == map.width * map.height * 8
            },
    {
        let ghost view = levels_view(levels);
        if self.channels == 0 || levels.len() != self.channels {
            return None;
        }
        let mut c: usize = 0;
        while c < levels.len()
            invariant
                c <= levels@.len(),
                view == levels_view(levels),
                forall|k: int| 0 <= k < c ==> (#[trigger] view[k]).len() == self@.frames_seen,
            decreases levels@.len() - c,
        {
            if levels[c].len() != self.frames_seen {
                assert(view[c as int].len() != self@.frames_seen);
                return None;
            }
            c += 1;
        }
        let side = square_side(self.frames_seen);
        let ghost area = (side as nat) * (side as nat);
        assert(side * side <= 0x1_0000_0000 * 0x1_0000_0000) by (nonlinear_arith)
            requires
                side <= 0x1_0000_0000,
        ;
        let square: u128 = (side as u128) * (side as u128);
        let missing: u128 = square - self.frames_seen as u128;
        let mut bytes: Vec<u8> = Vec::new();
        let mut c: usize = 0;
        while c < self.channels
            invariant
                c <= self.channels,
                self.channels == levels@.len(),
                view == levels_view(levels),
                self@.matches_samples(view),
                area == side * side,
                square == area,
                missing == area - self@.frames_seen,
                is_square_side(self@.frames_seen, side as nat),
                bytes@ == encoded(squares(view, side as nat, c as int)),
            decreases self.channels - c,
        {
            let ghost done = squares(view, side as nat, c as int);
            let channel = &levels[c];
            assert(channel@ == view[c as int]);
            push_encoded(&mut bytes, channel.as_slice());
            let mut p: u128 = 0;
            while p < missing
                invariant
                    p <= missing,
                    bytes@ == encoded(done) + encoded(channel@ + padding(p as nat)),
                decreases missing - p,
            {
                push_le_bytes(&mut bytes, NEG_INFINITY_BITS);
                proof {
                    let longer = channel@ + padding((p + 1) as nat);
                    assert(longer.drop_last() =~= channel@ + padding(p as nat));
                    assert(longer.last().bits == NEG_INFINITY_BITS);
                    assert(bytes@ =~= encoded(done) + encoded(longer));
                }
                p += 1;
            }
            proof {
                assert(channel@ + padding(0) =~= channel@);
                lemma_encoded_concat(done, square_of(channel@, side as nat));
                assert(squares(view, side as nat, c + 1) == done + square_of(channel@, side as nat));
            }
            c += 1;
        }
        proof {
            let all = squares(view, side as nat, self.channels as int);
            lemma_squares_len(view, self@.frames_seen, side as nat, self.channels as int);
            lemma_encoded_len(all);
            assert(encoded(squares(view, side as nat, 0)) =~= Seq::<u8>::empty());
        }
        proof {
            assert(bytes.len() <= usize::MAX);
            let s = side as int;
            let ch = self.channels as int;
            assert(s * (s * ch) * 8 == 8 * (ch * (s * s))) by (nonlinear_arith);
            assert(s * ch <= 8 * (ch * (s * s))) by (nonlinear_arith)
                requires
                    s >= 0,
                    ch >= 1,
            ;
        }
        let height = side * self.channels;
        Some(PeakMap { bytes, width: side, height })
    }

    /// The analyser's section of the report, where there is a channel: the
    /// samples of a channel, the values of its square and its padding.
    pub fn json(&self) -> (r: Option<PeaksReport>)
        requires
            self@.wf(),
        ensures
            r is Some <==> self@.channels > 0,
            r matches Some(report) ==> self.reported(report),
    {
        if self.channels == 0 {
            return None;
        }
        let channel_size = self.frames_seen;
        let side = square_side(channel_size);
        assert(side * side <= 0x1_0000_0000 * 0x1_0000_0000) by (nonlinear_arith)
            requires
                side <= 0x1_0000_0000,
        ;
        let square_size: u128 = (side as u128) * (side as u128);
        Some(
            PeaksReport {
                output: self.path.clone(),
                channel_size,
                square_size,
                padding: square_size - channel_size as u128,
            },
        )
    }
}

} // verus!
