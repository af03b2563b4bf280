//! Loudness tracking and detection of silence.
//!
//! The samples of the stream are collected into windows of a fixed size.
//! Each full window is measured once, and the sequence of measurements
//! drives two trackers: one records the loudness of every window, the other
//! turns the crossings of a threshold into segments of silence.

use vstd::prelude::*;
use ebur128::EbuR128;
use crate::analysers::meter::meter_accepts;
use crate::analysers::meter::meter_add_frames;
use crate::analysers::meter::meter_global;
use crate::analysers::meter::meter_reset;
use crate::analysers::meter::meter_shortterm;
use crate::analysers::meter::new_meter;
use crate::cli::Cli;
use crate::cli::StreamInfo;
use crate::level::Level;
use crate::level::NEG_INFINITY_BITS;
use crate::segment::Segment;
use crate::segment::all_closed;
use crate::status::ERR_CONTAINS_SILENCE;

verus! {

/// What the silence tracker remembers between two windows.
#[derive(Clone, Copy, Debug)]
pub struct SilenceState {
    /// Loudness of the window measured last.
    pub previous_lufs: Level,
    /// Frame at which the latest silence began.
    pub silence_start_frame: usize,
    /// Frame at which the latest silence ended.
    pub silence_end_frame: usize,
}

impl SilenceState {
    /// The state before the first window: a loudness of zero, which is at or
    /// above every threshold that is not positive.
    pub fn new() -> (r: Self)
        ensures
            r.previous_lufs.bits == 0,
            r.silence_start_frame == 0,
            r.silence_end_frame == 0,
    {
        SilenceState {
            previous_lufs: Level::zero(),
            silence_start_frame: 0,
            silence_end_frame: 0,
        }
    }
}

/// One passage of silence in the report: the frames
/// `[start_sample, end_sample)`.
#[derive(Clone, Copy, Debug, PartialEq, Eq, Structural)]
pub struct SilenceSegment {
    pub start_sample: usize,
    pub end_sample: usize,
    pub duration_samples: usize,
}

/// What a measurement did to the state of silence.
#[derive(Clone, Copy, Debug, PartialEq, Eq, Structural)]
pub enum Edge {
    /// The stream stayed on its side of the threshold.
    Steady,
    /// The stream fell below the threshold.
    SilenceStart,
    /// The stream came back to the threshold or above it.
    SilenceEnd,
}

/// Whether `count` silent frames out of `total` reach `percentage` percent.
/// Of an empty stream no share is reached.
pub open spec fn reaches_share(count: nat, total: nat, percentage: nat) -> bool {
    total > 0 && count * 100 >= percentage * total
}

/// The abstract state of the silence tracker.
pub struct SilenceModel {
    /// A window below this level is silent.
    pub threshold: Level,
    /// Share of silence, in percent, from which the stream fails.
    pub percentage: nat,
    /// Frames of silence counted so far.
    pub count: nat,
    /// The passages of silence, oldest first.
    pub segments: Seq<Segment>,
    pub state: SilenceState,
}

impl SilenceModel {
    pub open spec fn initial(threshold: Level, percentage: nat) -> SilenceModel {
        SilenceModel {
            threshold,
            percentage,
            count: 0,
            segments: Seq::empty(),
            state: SilenceState {
                previous_lufs: Level { bits: 0 },
                silence_start_frame: 0,
                silence_end_frame: 0,
            },
        }
    }

    /// Whether the window measured last was silent.
    pub open spec fn in_silence(self) -> bool {
        self.state.previous_lufs.spec_lt(self.threshold)
    }

    /// The frame of the latest edge.
    pub open spec fn latest_edge(self) -> int {
        if self.state.silence_start_frame >= self.state.silence_end_frame {
            self.state.silence_start_frame as int
        } else {
            self.state.silence_end_frame as int
        }
    }

    /// Every segment but the last is closed, none ends before it starts,
    /// and none belongs to a single channel.
    pub open spec fn segments_ok(self) -> bool {
        forall|i: int|
            0 <= i < self.segments.len() ==> {
                &&& (#[trigger] self.segments[i]).ordered()
                &&& self.segments[i].channel is None
                &&& i < self.segments.len() - 1 ==> self.segments[i].is_closed()
            }
    }

    /// The invariant of the running tracker. In silence the last segment,
    /// if there is one, is open and began at `silence_start_frame`; out of
    /// silence every segment is closed. The silence counted so far lies
    /// before the latest edge.
    pub open spec fn wf(self) -> bool {
        &&& !self.state.previous_lufs.spec_is_nan()
        &&& self.percentage <= u16::MAX
        &&& self.segments_ok()
        &&& self.in_silence() ==> {
            &&& self.state.silence_start_frame >= self.state.silence_end_frame
            &&& self.count <= self.state.silence_start_frame
            &&& self.segments.len() > 0 ==> {
                &&& !self.segments.last().is_closed()
                &&& self.segments.last().start == self.state.silence_start_frame
            }
        }
        &&& !self.in_silence() ==> {
            &&& self.state.silence_end_frame >= self.state.silence_start_frame
            &&& self.count <= self.state.silence_end_frame
            &&& all_closed(self.segments)
        }
    }

    /// The edge that a window of loudness `measured` makes. A NaN counts as
    /// unmeasurable, which is below every threshold.
    pub open spec fn edge(self, measured: Level) -> Edge {
        let lufs = measured.spec_or_unmeasurable();
        if lufs.spec_lt(self.threshold) && !self.in_silence() {
            Edge::SilenceStart
        } else if !lufs.spec_lt(self.threshold) && self.in_silence() {
            Edge::SilenceEnd
        } else {
            Edge::Steady
        }
    }

    /// The list with its last segment, if any, closed at `frame`.
    pub open spec fn close_last(segments: Seq<Segment>, frame: usize) -> Seq<Segment> {
        if segments.len() > 0 {
            segments.update(
                segments.len() - 1,
                Segment { end: Some(frame), ..segments.last() },
            )
        } else {
            segments
        }
    }

    /// The state after the window that filled at `frame` was measured.
    ///
    /// Falling below the threshold opens a segment at `frame`. Coming back to
    /// it closes the open segment at `frame` and adds the frames since the
    /// start of the silence to the count. Otherwise only the loudness is
    /// remembered.
    pub open spec fn observe(self, frame: usize, measured: Level) -> SilenceModel {
        let lufs = measured.spec_or_unmeasurable();
        match self.edge(measured) {
            Edge::SilenceStart => SilenceModel {
                segments: self.segments.push(Segment { start: frame, end: None, channel: None }),
                state: SilenceState {
                    previous_lufs: lufs,
                    silence_start_frame: frame,
                    silence_end_frame: self.state.silence_end_frame,
                },
                ..self
            },
            Edge::SilenceEnd => SilenceModel {
                count: (self.count + frame - self.state.silence_start_frame) as nat,
                segments: Self::close_last(self.segments, frame),
                state: SilenceState {
                    previous_lufs: lufs,
                    silence_start_frame: self.state.silence_start_frame,
                    silence_end_frame: frame,
                },
                ..self
            },
            Edge::Steady => SilenceModel {
                state: SilenceState { previous_lufs: lufs, ..self.state },
                ..self
            },
        }
    }

    /// The state after the end of a stream of `num_frames` frames: a silence
    /// that is still going ends with the stream and is added to the count.
    pub open spec fn finished(self, num_frames: usize) -> SilenceModel {
        if self.in_silence() {
            SilenceModel {
                count: (self.count + num_frames - self.state.silence_start_frame) as nat,
                segments: Self::close_last(self.segments, num_frames),
                ..self
            }
        } else {
            self
        }
    }

    /// The status byte at the end of the stream. The share of silence is
    /// held against the limit only where the stream ends in silence.
    pub open spec fn status(self, num_frames: usize) -> u8 {
        if self.in_silence() && reaches_share(
            self.finished(num_frames).count,
            num_frames as nat,
            self.percentage,
        ) {
            ERR_CONTAINS_SILENCE
        } else {
            0
        }
    }
}

/// One measurement: the loudness of the window that filled at `frame`, and
/// the samples of that window as they were handed to the meter.
pub struct Observation {
    pub frame: usize,
    pub block: Seq<i32>,
    pub loudness: Level,
}

/// The frames of the observations never go back.
pub open spec fn in_stream_order(observations: Seq<Observation>) -> bool {
    forall|i: int, j: int|
        0 <= i <= j < observations.len() ==> (#[trigger] observations[i]).frame
            <= (#[trigger] observations[j]).frame
}

impl SilenceModel {
    /// The state after a sequence of measurements, first to last.
    pub open spec fn observe_all(self, observations: Seq<Observation>) -> SilenceModel
        decreases observations.len(),
    {
        if observations.len() == 0 {
            self
        } else {
            self.observe_all(observations.drop_last()).observe(
                observations.last().frame,
                observations.last().loudness,
            )
        }
    }
}

/// A tracker that is fed in stream order keeps its invariant, and its latest
/// edge is no later than the last measurement.
pub proof fn lemma_observe_all_wf(start: SilenceModel, observations: Seq<Observation>)
    requires
        start.wf(),
        in_stream_order(observations),
        observations.len() > 0 ==> start.latest_edge() <= observations[0].frame,
    ensures
        start.observe_all(observations).wf(),
        start.observe_all(observations).threshold == start.threshold,
        start.observe_all(observations).percentage == start.percentage,
        observations.len() > 0 ==> start.observe_all(observations).latest_edge()
            <= observations.last().frame,
        observations.len() == 0 ==> start.observe_all(observations) == start,
    decreases observations.len(),
{
    if observations.len() > 0 {
        let front = observations.drop_last();
        lemma_observe_all_wf(start, front);
        if front.len() > 0 {
            assert(front.last() == observations[front.len() - 1]);
            assert(front[0] == observations[0]);
        }
    }
}

/// Threshold exactness: windows that are at the threshold or above it,
/// a window exactly at the threshold among them, never make a segment.
pub proof fn lemma_no_silence_at_or_above_threshold(
    threshold: Level,
    percentage: nat,
    observations: Seq<Observation>,
    num_frames: usize,
)
    requires
        forall|i: int|
            0 <= i < observations.len() ==> !(#[trigger] observations[i]).loudness.spec_or_unmeasurable().spec_lt(
                threshold,
            ),
    ensures
        SilenceModel::initial(threshold, percentage).observe_all(observations).segments.len() == 0,
        observations.len() > 0 ==> !SilenceModel::initial(threshold, percentage).observe_all(
            observations,
        ).in_silence(),
        observations.len() > 0 ==> SilenceModel::initial(threshold, percentage).observe_all(
            observations,
        ).status(num_frames) == 0,
    decreases observations.len(),
{
    if observations.len() > 0 {
        lemma_no_silence_at_or_above_threshold(
            threshold,
            percentage,
            observations.drop_last(),
            num_frames,
        );
        let before = SilenceModel::initial(threshold, percentage).observe_all(
            observations.drop_last(),
        );
        assert(before.threshold == threshold) by {
            lemma_observe_all_keeps_limits(
                SilenceModel::initial(threshold, percentage),
                observations.drop_last(),
            );
        }
        let last = observations[observations.len() - 1];
        assert(!last.loudness.spec_or_unmeasurable().spec_lt(threshold));
    }
}

/// Measurements change neither the threshold nor the limit.
pub proof fn lemma_observe_all_keeps_limits(start: SilenceModel, observations: Seq<Observation>)
    ensures
        start.observe_all(observations).threshold == start.threshold,
        start.observe_all(observations).percentage == start.percentage,
    decreases observations.len(),
{
    if observations.len() > 0 {
        lemma_observe_all_keeps_limits(start, observations.drop_last());
    }
}

/// A stream whose every window is below the threshold, under a threshold
/// that is not above zero, has one segment. It begins at the frame of the
/// first measurement and ends with the stream, and the silence counted is
/// its length.
pub proof fn lemma_silent_stream_one_segment(
    threshold: Level,
    percentage: nat,
    observations: Seq<Observation>,
    num_frames: usize,
)
    requires
        percentage <= u16::MAX,
        !(Level { bits: 0 }).spec_lt(threshold),
        observations.len() > 0,
        in_stream_order(observations),
        observations.last().frame <= num_frames,
        forall|i: int|
            0 <= i < observations.len() ==> (#[trigger] observations[i]).loudness.spec_or_unmeasurable().spec_lt(
                threshold,
            ),
    ensures
        ({
            let running = SilenceModel::initial(threshold, percentage).observe_all(observations);
            let end = running.finished(num_frames);
            &&& running.in_silence()
            &&& running.count == 0
            &&& running.segments =~= seq![
                Segment { start: observations[0].frame, end: None, channel: None },
            ]
            &&& end.segments =~= seq![
                Segment { start: observations[0].frame, end: Some(num_frames), channel: None },
            ]
            &&& end.count == num_frames - observations[0].frame
            &&& running.status(num_frames) == if reaches_share(
                end.count,
                num_frames as nat,
                percentage,
            ) {
                ERR_CONTAINS_SILENCE
            } else {
                0
            }
        }),
    decreases observations.len(),
{
    let start = SilenceModel::initial(threshold, percentage);
    let front = observations.drop_last();
    lemma_observe_all_keeps_limits(start, front);
    if front.len() > 0 {
        assert(front[0] == observations[0]);
        assert(front.last() == observations[front.len() - 1]);
        assert forall|i: int| 0 <= i < front.len() implies (#[trigger] front[i]).loudness.spec_or_unmeasurable().spec_lt(
            threshold,
        ) by {
            assert(front[i] == observations[i]);
        }
        lemma_silent_stream_one_segment(threshold, percentage, front, num_frames);
    } else {
        assert(start.observe_all(front) == start);
    }
}

/// A silent stream whose first window fills at frame 0 is silent as a whole:
/// its one segment spans `[0, num_frames)`, the silence counted is the whole
/// stream, and every limit of at most 100 percent is reached.
pub proof fn lemma_silent_stream_is_all_silence(
    threshold: Level,
    percentage: nat,
    observations: Seq<Observation>,
    num_frames: usize,
)
    requires
        percentage <= 100,
        num_frames > 0,
        !(Level { bits: 0 }).spec_lt(threshold),
        observations.len() > 0,
        observations[0].frame == 0,
        in_stream_order(observations),
        observations.last().frame <= num_frames,
        forall|i: int|
            0 <= i < observations.len() ==> (#[trigger] observations[i]).loudness.spec_or_unmeasurable().spec_lt(
                threshold,
            ),
    ensures
        ({
            let running = SilenceModel::initial(threshold, percentage).observe_all(observations);
            let end = running.finished(num_frames);
            &&& end.segments =~= seq![Segment { start: 0, end: Some(num_frames), channel: None }]
            &&& end.count == num_frames
            &&& end.count * 100 == 100 * num_frames
            &&& running.status(num_frames) == ERR_CONTAINS_SILENCE
        }),
{
    lemma_silent_stream_one_segment(threshold, percentage, observations, num_frames);
    let total = num_frames as nat;
    assert(percentage * total <= 100 * total) by (nonlinear_arith)
        requires
            percentage <= 100,
    ;
}

/// The frames of the closed segments together.
pub open spec fn total_duration(segments: Seq<Segment>) -> int
    decreases segments.len(),
{
    if segments.len() == 0 {
        0
    } else {
        total_duration(segments.drop_last()) + match segments.last().end {
            Some(end) => end - segments.last().start,
            None => 0,
        }
    }
}

/// Whether the silence counted is that of the closed segments, and every
/// silence has its segment.
pub open spec fn accounted(m: SilenceModel) -> bool {
    &&& m.count == total_duration(m.segments)
    &&& m.in_silence() ==> m.segments.len() > 0
}

/// A measurement keeps the count equal to the frames of the closed
/// segments.
pub proof fn lemma_observe_accounts(m: SilenceModel, frame: usize, measured: Level)
    requires
        m.wf(),
        accounted(m),
        frame >= m.latest_edge(),
    ensures
        accounted(m.observe(frame, measured)),
{
    let n = m.observe(frame, measured);
    match m.edge(measured) {
        Edge::SilenceStart => {
            assert(n.segments.drop_last() =~= m.segments);
        },
        Edge::SilenceEnd => {
            assert(n.segments.drop_last() =~= m.segments.drop_last());
        },
        Edge::Steady => {},
    }
}

/// The silence counted never exceeds the stream: under a threshold that is
/// not above zero, the count after the end of the stream is the number of
/// frames of all segments together, every segment is closed, and the count
/// is at most the length of the stream.
pub proof fn lemma_count_is_total_duration(
    threshold: Level,
    percentage: nat,
    observations: Seq<Observation>,
    num_frames: usize,
)
    requires
        percentage <= u16::MAX,
        !(Level { bits: 0 }).spec_lt(threshold),
        in_stream_order(observations),
        observations.len() > 0 ==> observations.last().frame <= num_frames,
    ensures
        ({
            let running = SilenceModel::initial(threshold, percentage).observe_all(observations);
            let end = running.finished(num_frames);
            &&& accounted(running)
            &&& end.count == total_duration(end.segments)
            &&& all_closed(end.segments)
            &&& end.count <= num_frames
        }),
{
    let start = SilenceModel::initial(threshold, percentage);
    lemma_observe_all_accounts(start, observations);
    lemma_observe_all_wf(start, observations);
    let running = start.observe_all(observations);
    let end = running.finished(num_frames);
    if running.in_silence() {
        assert(end.segments.drop_last() =~= running.segments.drop_last());
    }
}

/// Measurements in stream order keep the count equal to the frames of the
/// closed segments.
pub proof fn lemma_observe_all_accounts(start: SilenceModel, observations: Seq<Observation>)
    requires
        start.wf(),
        accounted(start),
        in_stream_order(observations),
        observations.len() > 0 ==> start.latest_edge() <= observations[0].frame,
    ensures
        accounted(start.observe_all(observations)),
    decreases observations.len(),
{
    if observations.len() > 0 {
        let front = observations.drop_last();
        if front.len() > 0 {
            assert(front.last() == observations[front.len() - 1]);
            assert(front[0] == observations[0]);
        }
        lemma_observe_all_accounts(start, front);
        lemma_observe_all_wf(start, front);
        lemma_observe_accounts(
            start.observe_all(front),
            observations.last().frame,
            observations.last().loudness,
        );
    }
}

/// The silence tracker: a threshold, the passages found so far and the
/// count of silent frames.
pub struct Silence {
    count: usize,
    lufs: Level,
    percentage: u16,
    segments: Vec<Segment>,
    state: SilenceState,
}

impl View for Silence {
    type V = SilenceModel;

    closed spec fn view(&self) -> SilenceModel {
        SilenceModel {
            threshold: self.lufs,
            percentage: self.percentage as nat,
            count: self.count as nat,
            segments: self.segments@,
            state: self.state,
        }
    }
}

impl Silence {
    /// A tracker that has seen no window yet.
    pub fn new(threshold: Level, percentage: u16) -> (r: Self)
        ensures
            r@ == SilenceModel::initial(threshold, percentage as nat),
            r@.wf(),
    {
        Silence {
            count: 0,
            lufs: threshold,
            percentage,
            segments: Vec::new(),
            state: SilenceState::new(),
        }
    }

    pub fn threshold(&self) -> (r: Level)
        ensures
            r == self@.threshold,
    {
        self.lufs
    }

    /// Frames of silence counted so far.
    pub fn count(&self) -> (r: usize)
        ensures
            r == self@.count,
    {
        self.count
    }

    pub fn state(&self) -> (r: SilenceState)
        ensures
            r == self@.state,
    {
        self.state
    }

    pub fn segments(&self) -> (r: &Vec<Segment>)
        ensures
            r@ == self@.segments,
    {
        &self.segments
    }

    /// Whether the window measured last was silent.
    pub fn in_silence(&self) -> (r: bool)
        ensures
            r == self@.in_silence(),
    {
        self.state.previous_lufs.lt(&self.lufs)
    }

    fn close_last(&mut self, frame: usize)
        ensures
            final(self)@ == (SilenceModel {
                segments: SilenceModel::close_last(old(self)@.segments, frame),
                ..old(self)@
            }),
    {
        let n = self.segments.len();
        if n > 0 {
            let last = self.segments[n - 1];
            self.segments[n - 1] = Segment { start: last.start, end: Some(frame), channel: last.channel };
        }
        assert(self@.segments =~= SilenceModel::close_last(old(self)@.segments, frame));
    }

    /// Takes the loudness of the window that filled at `frame_counter` and
    /// says which edge it made.
    pub fn observe(&mut self, frame_counter: usize, measured: Level) -> (edge: Edge)
        requires
            old(self)@.wf(),
            frame_counter >= old(self)@.latest_edge(),
        ensures
            edge == old(self)@.edge(measured),
            final(self)@ == old(self)@.observe(frame_counter, measured),
            final(self)@.wf(),
            final(self)@.latest_edge() <= frame_counter,
    {
        let lufs = measured.or_unmeasurable();
        let was_silent = self.state.previous_lufs.lt(&self.lufs);
        let is_silent = lufs.lt(&self.lufs);
        let mut edge = Edge::Steady;
        if is_silent && !was_silent {
            edge = Edge::SilenceStart;
            self.state.silence_start_frame = frame_counter;
            self.segments.push(Segment { start: frame_counter, end: None, channel: None });
        }
        if !is_silent && was_silent {
            edge = Edge::SilenceEnd;
            self.state.silence_end_frame = frame_counter;
            self.count += self.state.silence_end_frame - self.state.silence_start_frame;
            self.close_last(self.state.silence_end_frame);
        }
        self.state.previous_lufs = lufs;
        proof {
            assert(self@.segments =~= old(self)@.observe(frame_counter, measured).segments);
        }
        edge
    }

    /// Ends a stream of `num_frames` frames and returns the status byte.
    pub fn finish(&mut self, num_frames: usize) -> (status: u8)
        requires
            old(self)@.wf(),
            num_frames >= old(self)@.latest_edge(),
        ensures
            final(self)@ == old(self)@.finished(num_frames),
            status == old(self)@.status(num_frames),
            all_closed(final(self)@.segments),
            final(self)@.count <= num_frames,
    {
        if self.state.previous_lufs.lt(&self.lufs) {
            self.count += num_frames - self.state.silence_start_frame;
            self.close_last(num_frames);
            if share_reached(self.count, num_frames, self.percentage) {
                return ERR_CONTAINS_SILENCE;
            }
        }
        0
    }

    /// The rows of the report, one per segment; a segment that is still open
    /// is reported up to the end of the stream.
    pub fn rows(&self, num_frames: usize) -> (r: Vec<SilenceSegment>)
        requires
            forall|i: int|
                0 <= i < self@.segments.len() ==> (#[trigger] self@.segments[i]).start
                    <= self@.segments[i].end_or(num_frames),
        ensures
            r@.len() == self@.segments.len(),
            forall|i: int|
                0 <= i < r@.len() ==> r@[i] == silence_row(#[trigger] self@.segments[i], num_frames),
    {
        let mut rows: Vec<SilenceSegment> = Vec::new();
        let mut i: usize = 0;
        while i < self.segments.len()
            invariant
                i <= self.segments@.len(),
                rows@.len() == i,
                self@.segments == self.segments@,
                forall|k: int|
                    0 <= k < self@.segments.len() ==> (#[trigger] self@.segments[k]).start
                        <= self@.segments[k].end_or(num_frames),
                forall|k: int|
                    0 <= k < i ==> rows@[k] == silence_row(#[trigger] self@.segments[k], num_frames),
            decreases self.segments@.len() - i,
        {
            let seg = self.segments[i];
            assert(self@.segments[i as int].start <= self@.segments[i as int].end_or(num_frames));
            let end_frame = seg.resolve_end(num_frames);
            rows.push(
                SilenceSegment {
                    start_sample: seg.start,
                    end_sample: end_frame,
                    duration_samples: end_frame - seg.start,
                },
            );
            i += 1;
        }
        rows
    }
}

/// The row of the report for a segment of a stream of `num_frames` frames.
pub open spec fn silence_row(s: Segment, num_frames: usize) -> SilenceSegment {
    SilenceSegment {
        start_sample: s.start,
        end_sample: s.end_or(num_frames),
        duration_samples: (s.end_or(num_frames) - s.start) as usize,
    }
}

/// Whether `count` silent frames out of `total` reach `percentage` percent.
pub fn share_reached(count: usize, total: usize, percentage: u16) -> (r: bool)
    ensures
        r == reaches_share(count as nat, total as nat, percentage as nat),
{
    if total == 0 {
        return false;
    }
    let silent: u128 = count as u128;
    let limit: u128 = percentage as u128;
    let all: u128 = total as u128;
    assert(silent * 100 <= u128::MAX && limit * all <= u128::MAX) by (nonlinear_arith)
        requires
            silent <= u64::MAX,
            limit <= u16::MAX,
            all <= u64::MAX,
    ;
    silent * 100 >= limit * all
}

/// The loudness of one window: the frames `[start, end)`. `end` is `None`
/// for the window that is being filled.
#[derive(Clone, Copy, Debug, PartialEq, Eq, Structural)]
pub struct LoudnessWindow {
    pub start: usize,
    pub end: Option<usize>,
    pub loudness: Level,
}

/// The list with its last window, if any, closed at `frame` with a loudness.
pub open spec fn close_window(windows: Seq<LoudnessWindow>, frame: usize, lufs: Level) -> Seq<
    LoudnessWindow,
> {
    if windows.len() > 0 {
        windows.update(
            windows.len() - 1,
            LoudnessWindow { start: windows.last().start, end: Some(frame), loudness: lufs },
        )
    } else {
        windows
    }
}

/// The windows after the one that filled at `frame` was measured: it is
/// closed there, and the next one opens there.
pub open spec fn next_window(windows: Seq<LoudnessWindow>, frame: usize, lufs: Level) -> Seq<
    LoudnessWindow,
> {
    close_window(windows, frame, lufs).push(
        LoudnessWindow { start: frame, end: None, loudness: Level { bits: 0 } },
    )
}

/// The windows after a sequence of measurements: one closed window for each,
/// and the open one.
pub open spec fn windows_after(observations: Seq<Observation>) -> Seq<LoudnessWindow>
    decreases observations.len(),
{
    if observations.len() == 0 {
        seq![LoudnessWindow { start: 0, end: None, loudness: Level { bits: 0 } }]
    } else {
        next_window(
            windows_after(observations.drop_last()),
            observations.last().frame,
            observations.last().loudness,
        )
    }
}

/// There is one more window than measurements; the window of each
/// measurement ends at its frame with its loudness, and every window but the
/// first starts where the one before it ends.
pub proof fn lemma_windows_after(observations: Seq<Observation>)
    ensures
        windows_after(observations).len() == observations.len() + 1,
        windows_after(observations).last().end is None,
        windows_after(observations)[0].start == 0,
        forall|k: int|
            0 <= k < observations.len() ==> {
                &&& (#[trigger] windows_after(observations)[k]).end == Some(observations[k].frame)
                &&& windows_after(observations)[k].loudness == observations[k].loudness
                &&& windows_after(observations)[k + 1].start == observations[k].frame
            },
    decreases observations.len(),
{
    if observations.len() > 0 {
        let front = observations.drop_last();
        lemma_windows_after(front);
        let w = windows_after(front);
        assert forall|k: int| 0 <= k < observations.len() implies {
            &&& (#[trigger] windows_after(observations)[k]).end == Some(observations[k].frame)
            &&& windows_after(observations)[k].loudness == observations[k].loudness
            &&& windows_after(observations)[k + 1].start == observations[k].frame
        } by {
            if k < front.len() {
                assert(front[k] == observations[k]);
                assert(windows_after(observations)[k] == w[k]);
            }
        }
    }
}

/// A passage of silence began or ended.
#[derive(Clone, Copy, Debug, PartialEq, Eq, Structural)]
pub struct SilenceEvent {
    /// `SilenceStart` or `SilenceEnd`.
    pub edge: Edge,
    /// The frame of the edge.
    pub frame: usize,
    /// Short-term loudness at the edge.
    pub short_term: Level,
    /// Integrated loudness of the window, as the meter gave it.
    pub integrated: Level,
    /// Frames of silence counted so far, this passage included where it ended.
    pub silent_frames: usize,
    /// Length of the stream.
    pub total_frames: usize,
}

/// Why a loudness analyser cannot be made.
#[derive(Clone, Copy, Debug, PartialEq, Eq, Structural)]
pub enum LoudnessError {
    /// The meter takes no stream of this channel count and sample rate.
    Meter,
    /// The window holds no whole, positive number of frames.
    Window,
}

/// The windows of the report.
#[derive(Debug)]
pub struct LoudnessSection {
    pub results: Vec<LoudnessWindow>,
    /// Size of a window in interleaved samples.
    pub window_size: usize,
}

/// The silence of the report.
#[derive(Debug)]
pub struct SilenceSection {
    pub results: Vec<SilenceSegment>,
    pub threshold: Level,
    /// Size of a window in interleaved samples.
    pub window_size: usize,
}

/// The analyser's sections of the report.
#[derive(Debug)]
pub struct LoudnessReport {
    pub loudness: Option<LoudnessSection>,
    pub silence: Option<SilenceSection>,
}

/// The abstract state of the loudness analyser.
pub struct LoudnessModel {
    /// Samples per frame.
    pub channels: nat,
    /// Frames per window.
    pub frames_per_window: nat,
    /// Length of the stream.
    pub num_frames: nat,
    /// Frames analysed so far.
    pub frames_seen: nat,
    /// The samples of the window that is being filled.
    pub buffer: Seq<i32>,
    /// Every measurement made so far, oldest first.
    pub observations: Seq<Observation>,
    /// The loudness of every window, where it is tracked.
    pub windows: Option<Seq<LoudnessWindow>>,
    /// The silence tracker, where silence is detected.
    pub silence: Option<SilenceModel>,
}

impl LoudnessModel {
    /// Samples per window.
    pub open spec fn window_size(self) -> nat {
        self.frames_per_window * self.channels
    }

    /// Frames in the window that is being filled.
    pub open spec fn buffered_frames(self) -> int {
        self.frames_seen - self.observations.len() * self.frames_per_window
    }

    /// The state before the first frame.
    pub open spec fn initial(
        channels: nat,
        frames_per_window: nat,
        num_frames: nat,
        track_windows: bool,
        silence: Option<SilenceModel>,
    ) -> LoudnessModel {
        LoudnessModel {
            channels,
            frames_per_window,
            num_frames,
            frames_seen: 0,
            buffer: Seq::empty(),
            observations: Seq::empty(),
            windows: if track_windows {
                Some(windows_after(Seq::empty()))
            } else {
                None
            },
            silence,
        }
    }

    /// The invariant of the running analyser.
    ///
    /// The stream so far is cut into whole windows and the frames of the one
    /// that is being filled. Every whole window was measured once, at the
    /// frame that filled it, and the trackers hold what those measurements
    /// make of their initial state.
    pub open spec fn wf(self) -> bool {
        &&& self.channels >= 1
        &&& self.frames_per_window >= 1
        &&& self.window_size() <= usize::MAX
        &&& self.frames_seen <= self.num_frames <= usize::MAX
        &&& 0 <= self.buffered_frames() < self.frames_per_window
        &&& self.buffer.len() == self.buffered_frames() * self.channels
        &&& forall|k: int|
            0 <= k < self.observations.len() ==> {
                &&& (#[trigger] self.observations[k]).frame == (k + 1) * self.frames_per_window - 1
                &&& self.observations[k].block.len() == self.window_size()
                &&& !self.observations[k].loudness.spec_is_nan()
            }
        &&& self.windows matches Some(w) ==> w == windows_after(self.observations)
        &&& self.silence matches Some(s) ==> {
            &&& s.wf()
            &&& s == SilenceModel::initial(s.threshold, s.percentage).observe_all(self.observations)
            &&& s.latest_edge() <= self.frames_seen
        }
    }

    /// Whether the next frame fills the window.
    pub open spec fn fills(self) -> bool {
        self.buffer.len() + self.channels >= self.window_size()
    }

    /// The state after the next frame, where a window that it fills is
    /// measured as `measured`.
    ///
    /// The samples of the frame are appended to the window. A window that is
    /// full is measured as a whole and emptied; the measurement, with a NaN
    /// taken as negative infinity, is recorded against the index of the
    /// frame and passed to both trackers.
    pub open spec fn step(self, frame: Seq<i32>, measured: Level) -> LoudnessModel {
        if self.fills() {
            let at = self.frames_seen as usize;
            let lufs = measured.spec_or_unmeasurable();
            LoudnessModel {
                frames_seen: self.frames_seen + 1,
                buffer: Seq::empty(),
                observations: self.observations.push(
                    Observation { frame: at, block: self.buffer + frame, loudness: lufs },
                ),
                windows: match self.windows {
                    Some(w) => Some(next_window(w, at, lufs)),
                    None => None,
                },
                silence: match self.silence {
                    Some(s) => Some(s.observe(at, lufs)),
                    None => None,
                },
                ..self
            }
        } else {
            LoudnessModel { frames_seen: self.frames_seen + 1, buffer: self.buffer + frame, ..self }
        }
    }

    /// The event that the next frame makes, if any.
    pub open spec fn step_edge(self, measured: Level) -> Edge {
        match self.silence {
            Some(s) => if self.fills() {
                s.edge(measured)
            } else {
                Edge::Steady
            },
            None => Edge::Steady,
        }
    }

    /// The state after the end of the stream, where the loudness of the
    /// samples left in the window is `trailing`: the open window is closed
    /// at the end of the stream with that loudness, and a silence that is
    /// still going ends there.
    pub open spec fn finished(self, trailing: Level) -> LoudnessModel {
        LoudnessModel {
            windows: match self.windows {
                Some(w) => Some(close_window(w, self.num_frames as usize, trailing)),
                None => None,
            },
            silence: match self.silence {
                Some(s) => Some(s.finished(self.num_frames as usize)),
                None => None,
            },
            ..self
        }
    }

    /// The status byte at the end of the stream.
    pub open spec fn status(self) -> u8 {
        match self.silence {
            Some(s) => s.status(self.num_frames as usize),
            None => 0,
        }
    }

    /// The loudness measured last.
    pub open spec fn last_measured(self) -> Level {
        if self.observations.len() > 0 {
            self.observations.last().loudness
        } else {
            Level { bits: NEG_INFINITY_BITS }
        }
    }

    /// The loudness of the window tracked last.
    pub open spec fn last_window_loudness(self) -> Level {
        match self.windows {
            Some(w) => if w.len() > 0 {
                w.last().loudness
            } else {
                Level { bits: NEG_INFINITY_BITS }
            },
            None => Level { bits: NEG_INFINITY_BITS },
        }
    }

    /// Whether every window and every segment can be reported: none starts
    /// after its end, or after the end of the stream where it is open.
    pub open spec fn reportable(self) -> bool {
        &&& self.num_frames <= usize::MAX
        &&& self.windows matches Some(w) ==> forall|i: int|
            0 <= i < w.len() ==> (#[trigger] w[i]).start <= window_end(w[i], self.num_frames as usize)
        &&& self.silence matches Some(s) ==> forall|i: int|
            0 <= i < s.segments.len() ==> (#[trigger] s.segments[i]).start <= s.segments[i].end_or(
                self.num_frames as usize,
            )
    }

    /// Whether there are windows to report.
    pub open spec fn has_windows(self) -> bool {
        self.windows matches Some(w) && w.len() > 0
    }

    /// Whether there is silence to report.
    pub open spec fn has_silence(self) -> bool {
        self.silence matches Some(s) && s.segments.len() > 0
    }

    /// Whether `section` reports the windows: one row per window, oldest
    /// first, the open one up to the end of the stream, and the window size.
    pub open spec fn windows_reported(self, section: LoudnessSection) -> bool {
        &&& self.windows matches Some(w)
        &&& w.len() > 0
        &&& section.results@.len() == w.len()
        &&& forall|i: int|
            0 <= i < w.len() ==> section.results@[i] == window_row(
                #[trigger] w[i],
                self.num_frames as usize,
            )
        &&& section.window_size == self.window_size()
    }

    /// Whether `section` reports the silence: one row per segment, oldest
    /// first, an open one up to the end of the stream, the threshold and
    /// the window size.
    pub open spec fn silence_reported(self, section: SilenceSection) -> bool {
        &&& self.silence matches Some(s)
        &&& s.segments.len() > 0
        &&& section.results@.len() == s.segments.len()
        &&& forall|i: int|
            0 <= i < s.segments.len() ==> section.results@[i] == silence_row(
                #[trigger] s.segments[i],
                self.num_frames as usize,
            )
        &&& section.threshold == s.threshold
        &&& section.window_size == self.window_size()
    }

    /// Whether no window and no segment is left open.
    pub open spec fn closed(self) -> bool {
        &&& self.windows matches Some(w) ==> forall|i: int|
            0 <= i < w.len() ==> (#[trigger] w[i]).end is Some
        &&& self.silence matches Some(s) ==> all_closed(s.segments)
    }
}

/// The end of a window in a stream of `num_frames` frames.
pub open spec fn window_end(w: LoudnessWindow, num_frames: usize) -> usize {
    match w.end {
        Some(e) => e,
        None => num_frames,
    }
}

/// The row of the report for a window of a stream of `num_frames` frames.
pub open spec fn window_row(w: LoudnessWindow, num_frames: usize) -> LoudnessWindow {
    LoudnessWindow { start: w.start, end: Some(window_end(w, num_frames)), loudness: w.loudness }
}

/// The windows of measurements in stream order can be reported.
pub proof fn lemma_windows_reportable(observations: Seq<Observation>, num_frames: usize)
    requires
        in_stream_order(observations),
        forall|k: int| 0 <= k < observations.len() ==> (#[trigger] observations[k]).frame <= num_frames,
    ensures
        forall|i: int|
            0 <= i < windows_after(observations).len() ==> (#[trigger] windows_after(
                observations,
            )[i]).start <= window_end(windows_after(observations)[i], num_frames),
{
    lemma_windows_after(observations);
    let w = windows_after(observations);
    assert forall|i: int| 0 <= i < w.len() implies (#[trigger] w[i]).start <= window_end(
        w[i],
        num_frames,
    ) by {
        if i > 0 {
            assert(w[i - 1].end == Some(observations[i - 1].frame));
            assert(w[(i - 1) + 1].start == observations[i - 1].frame);
        }
        if i < observations.len() {
            assert(w[i].end == Some(observations[i].frame));
        }
    }
}

/// What a running analyser holds can be reported.
pub proof fn lemma_running_is_reportable(m: LoudnessModel)
    requires
        m.wf(),
    ensures
        m.reportable(),
{
    lemma_frames_in_order(m);
    if m.windows is Some {
        lemma_windows_reportable(m.observations, m.num_frames as usize);
    }
    match m.silence {
        Some(s) => {
            assert forall|i: int| 0 <= i < s.segments.len() implies (#[trigger] s.segments[i]).start
                <= s.segments[i].end_or(m.num_frames as usize) by {
                assert(s.segments[i].ordered());
            }
        },
        None => {},
    }
}

/// The measurements of a running analyser lie in stream order, before the
/// frame that comes next.
pub proof fn lemma_frames_in_order(m: LoudnessModel)
    requires
        m.wf(),
    ensures
        in_stream_order(m.observations),
        forall|k: int| 0 <= k < m.observations.len() ==> (#[trigger] m.observations[k]).frame < m.frames_seen,
{
    let f = m.frames_per_window;
    let n = m.observations.len();
    assert forall|i: int, j: int| 0 <= i <= j < n implies (#[trigger] m.observations[i]).frame <= (
    #[trigger] m.observations[j]).frame by {
        assert((i + 1) * f <= (j + 1) * f) by (nonlinear_arith)
            requires
                0 <= i <= j,
                f >= 1,
        ;
    }
    assert forall|k: int| 0 <= k < n implies (#[trigger] m.observations[k]).frame < m.frames_seen by {
        assert((k + 1) * f <= n * f) by (nonlinear_arith)
            requires
                0 <= k < n,
                f >= 1,
        ;
    }
}

/// Every whole window is measured once and none is dropped: of the frames
/// seen so far, the measurements number the whole windows and the window
/// that is being filled holds the rest.
pub proof fn lemma_one_measurement_per_window(m: LoudnessModel)
    requires
        m.wf(),
    ensures
        m.observations.len() == m.frames_seen / m.frames_per_window,
        m.buffered_frames() == m.frames_seen % m.frames_per_window,
{
    let n = m.observations.len() as int;
    let f = m.frames_per_window as int;
    let b = m.buffered_frames();
    assert((n * f + b) / f == n && (n * f + b) % f == b) by (nonlinear_arith)
        requires
            0 <= b < f,
            n >= 0,
    ;
}

/// Filling a window frame by frame: with `buffered` of `per_window` frames
/// in it, one more frame fits, and fills it exactly if it is the last one.
pub proof fn lemma_window_fill(buffered: nat, per_window: nat, channels: nat)
    requires
        buffered < per_window,
        channels >= 1,
    ensures
        (buffered + 1) * channels == buffered * channels + channels,
        buffered * channels + channels <= per_window * channels,
        buffered + 1 == per_window <==> buffered * channels + channels >= per_window * channels,
        buffered + 1 == per_window ==> buffered * channels + channels == per_window * channels,
{
    assert((buffered + 1) * channels == buffered * channels + channels) by (nonlinear_arith);
    assert((buffered + 1) * channels <= per_window * channels) by (nonlinear_arith)
        requires
            buffered + 1 <= per_window,
    ;
    if buffered + 1 < per_window {
        assert((buffered + 1) * channels < per_window * channels) by (nonlinear_arith)
            requires
                buffered + 1 < per_window,
                channels >= 1,
        ;
    }
}

/// Why no loudness analyser can be made for the stream, if so: the meter
/// refuses its channel count or sample rate, or the window holds no whole,
/// positive number of frames.
pub open spec fn loudness_error(args: &Cli, stream: &StreamInfo) -> Option<LoudnessError> {
    if !(stream.sample_rate >= 0 && meter_accepts(
        stream.channels as u32,
        stream.sample_rate as u32,
    )) {
        Some(LoudnessError::Meter)
    } else if !(args.window_size > 0 && args.window_size % (stream.channels as usize) == 0) {
        Some(LoudnessError::Window)
    } else {
        None
    }
}

/// The state of a new loudness analyser.
pub open spec fn loudness_start(args: &Cli, stream: &StreamInfo) -> LoudnessModel {
    LoudnessModel::initial(
        stream.channels as nat,
        (args.window_size / (stream.channels as usize)) as nat,
        stream.num_frames as nat,
        args.loudness,
        if args.silence {
            Some(SilenceModel::initial(args.lufs, args.silence_percentage as nat))
        } else {
            None
        },
    )
}

/// The integrated loudness of what the meter took since its last reset,
/// negative infinity where the meter cannot tell.
fn integrated(meter: &EbuR128) -> (lufs: Level) {
    reading_level(meter_global(meter))
}

/// Tracks the loudness of a stream window by window and detects silence.
pub struct LoudnessAnalyser {
    frame_buf: Vec<i32>,
    loudness: EbuR128,
    loudness_windows: Option<Vec<LoudnessWindow>>,
    num_frames: usize,
    sample_rate: i32,
    window_size: usize,
    silence: Option<Silence>,
    channels: usize,
    frames_per_window: usize,
    frames_seen: usize,
    observations: Ghost<Seq<Observation>>,
}

impl View for LoudnessAnalyser {
    type V = LoudnessModel;

    closed spec fn view(&self) -> LoudnessModel {
        LoudnessModel {
            channels: self.channels as nat,
            frames_per_window: self.frames_per_window as nat,
            num_frames: self.num_frames as nat,
            frames_seen: self.frames_seen as nat,
            buffer: self.frame_buf@,
            observations: self.observations@,
            windows: match self.loudness_windows {
                Some(w) => Some(w@),
                None => None,
            },
            silence: match self.silence {
                Some(s) => Some(s@),
                None => None,
            },
        }
    }
}

impl LoudnessAnalyser {
    /// The part of the state that the view does not show.
    pub closed spec fn inv(&self) -> bool {
        &&& self.window_size == self.frames_per_window * self.channels
    }

    pub closed spec fn spec_sample_rate(&self) -> i32 {
        self.sample_rate
    }

    /// An analyser for a stream as `stream` describes it.
    ///
    /// It has a silence tracker where `args.silence` is set and tracks the
    /// windows where `args.loudness` is set. It cannot be made where the
    /// meter refuses the stream, or where `args.window_size` is no positive
    /// multiple of the channel count.
    pub fn new(args: &Cli, stream: &StreamInfo) -> (r: Result<Self, LoudnessError>)
        ensures
            match r {
                Ok(a) => {
                    &&& loudness_error(args, stream) is None
                    &&& a@.wf()
                    &&& a.inv()
                    &&& a@ == loudness_start(args, stream)
                    &&& a.spec_sample_rate() == stream.sample_rate
                },
                Err(e) => loudness_error(args, stream) == Some(e),
            },
    {
        if stream.sample_rate < 0 {
            return Err(LoudnessError::Meter);
        }
        let rate: u32 = stream.sample_rate as u32;
        let loudness = match new_meter(stream.channels as u32, rate) {
            Ok(meter) => meter,
            Err(_) => {
                return Err(LoudnessError::Meter);
            },
        };
        let channels: usize = stream.channels as usize;
        let window_size = args.window_size;
        if window_size == 0 || window_size % channels != 0 {
            return Err(LoudnessError::Window);
        }
        let frames_per_window = window_size / channels;
        assert(window_size == frames_per_window * channels && frames_per_window >= 1)
            by (nonlinear_arith)
            requires
                window_size > 0,
                channels >= 1,
                window_size % channels == 0,
                frames_per_window == window_size / channels,
        ;
        let silence = if args.silence {
            Some(Silence::new(args.lufs, args.silence_percentage))
        } else {
            None
        };
        let loudness_windows = if args.loudness {
            let mut windows: Vec<LoudnessWindow> = Vec::new();
            windows.push(LoudnessWindow { start: 0, end: None, loudness: Level::zero() });
            assert(windows@ =~= windows_after(Seq::empty()));
            Some(windows)
        } else {
            None
        };
        let r = LoudnessAnalyser {
            frame_buf: Vec::new(),
            loudness,
            loudness_windows,
            num_frames: stream.num_frames,
            sample_rate: stream.sample_rate,
            window_size,
            silence,
            channels,
            frames_per_window,
            frames_seen: 0,
            observations: Ghost(Seq::empty()),
        };
        proof {
            assert(0 * r@.frames_per_window == 0) by (nonlinear_arith);
            assert(0 * r@.channels == 0) by (nonlinear_arith);
        }
        Ok(r)
    }

    /// Frames per second of the stream.
    pub fn sample_rate(&self) -> (r: i32)
        ensures
            r == self.spec_sample_rate(),
    {
        self.sample_rate
    }

    /// Size of a window in interleaved samples.
    pub fn window_size(&self) -> (r: usize)
        requires
            self.inv(),
        ensures
            r == self@.window_size(),
    {
        self.window_size
    }

    /// Frames analysed so far.
    pub fn frames_seen(&self) -> (r: usize)
        ensures
            r == self@.frames_seen,
    {
        self.frames_seen
    }

    /// Length of the stream, as announced.
    pub fn num_frames(&self) -> (r: usize)
        ensures
            r == self@.num_frames,
    {
        self.num_frames
    }

    /// Samples per frame.
    pub fn channels(&self) -> (r: usize)
        ensures
            r == self@.channels,
    {
        self.channels
    }

    /// Number of windows measured so far.
    pub fn windows_measured(&self) -> (r: usize)
        requires
            self@.wf(),
        ensures
            r == self@.observations.len(),
    {
        proof {
            let n = self@.observations.len();
            let f = self@.frames_per_window;
            assert(n <= n * f) by (nonlinear_arith)
                requires
                    f >= 1,
            ;
        }
        let done = self.frames_seen / self.frames_per_window;
        proof {
            let n = self@.observations.len();
            let f = self@.frames_per_window;
            let b = self@.buffered_frames();
            assert((n * f + b) / f as int == n) by (nonlinear_arith)
                requires
                    0 <= b < f,
                    f >= 1,
            ;
        }
        done
    }

    /// The passages of silence found so far, where silence is detected.
    pub fn silence(&self) -> (r: &Option<Silence>)
        ensures
            match *r {
                Some(s) => self@.silence == Some(s@),
                None => self@.silence is None,
            },
    {
        &self.silence
    }

    /// The loudness of the windows, where it is tracked.
    pub fn windows(&self) -> (r: &Option<Vec<LoudnessWindow>>)
        ensures
            match *r {
                Some(w) => self@.windows == Some(w@),
                None => self@.windows is None,
            },
    {
        &self.loudness_windows
    }
    /// Measures the samples in the window and returns their short-term
    /// loudness. Where the meter refuses the samples or cannot tell, the
    /// loudness is negative infinity.
    fn measure(&mut self) -> (lufs: Level)
        ensures
            final(self)@ == old(self)@,
            final(self).inv() == old(self).inv(),
            final(self).spec_sample_rate() == old(self).spec_sample_rate(),
            !lufs.spec_is_nan(),
    {
        meter_reset(&mut self.loudness);
        let reading = if meter_add_frames(&mut self.loudness, self.frame_buf.as_slice()) {
            meter_shortterm(&self.loudness)
        } else {
            None
        };
        reading_level(reading).or_unmeasurable()
    }

    /// Takes the next frame of the stream, one sample per channel. Returns
    /// the event where the frame filled a window whose loudness began or
    /// ended a passage of silence.
    pub fn analyse(&mut self, frame_counter: usize, frame: &[i32]) -> (event: Option<SilenceEvent>)
        requires
            old(self)@.wf(),
            old(self).inv(),
            frame_counter == old(self)@.frames_seen,
            frame_counter < old(self)@.num_frames,
            frame@.len() == old(self)@.channels,
        ensures
            final(self)@.wf(),
            final(self).inv(),
            final(self).spec_sample_rate() == old(self).spec_sample_rate(),
            final(self)@ == old(self)@.step(frame@, final(self)@.last_measured()),
            match event {
                Some(e) => {
                    &&& e.edge != Edge::Steady
                    &&& e.edge == old(self)@.step_edge(final(self)@.last_measured())
                    &&& e.frame == frame_counter
                    &&& e.short_term == final(self)@.last_measured()
                    &&& e.total_frames == final(self)@.num_frames
                    &&& final(self)@.silence matches Some(after)
                    &&& e.silent_frames == after.count
                },
                None => old(self)@.step_edge(final(self)@.last_measured()) == Edge::Steady,
            },
    {
        proof {
            lemma_window_fill(
                old(self)@.buffered_frames() as nat,
                old(self)@.frames_per_window,
                old(self)@.channels,
            );
        }
        let mut i: usize = 0;
        while i < frame.len()
            invariant
                i <= frame@.len(),
                self.frame_buf@ == old(self).frame_buf@ + frame@.take(i as int),
                self.channels == old(self).channels,
                self.frames_per_window == old(self).frames_per_window,
                self.window_size == old(self).window_size,
                self.num_frames == old(self).num_frames,
                self.sample_rate == old(self).sample_rate,
                self.frames_seen == old(self).frames_seen,
                self.observations == old(self).observations,
                self.loudness_windows == old(self).loudness_windows,
                self.silence == old(self).silence,
            decreases frame@.len() - i,
        {
            self.frame_buf.push(frame[i]);
            proof {
                assert(frame@.take(i + 1) =~= frame@.take(i as int).push(frame@[i as int]));
            }
            i += 1;
        }
        proof {
            assert(frame@.take(frame@.len() as int) =~= frame@);
        }
        self.frames_seen = frame_counter + 1;
        let mut event: Option<SilenceEvent> = None;
        if self.frame_buf.len() >= self.window_size {
            let lufs = self.measure();
            let ghost block = self.frame_buf@;
            let ghost earlier = self.observations@;
            self.frame_buf.clear();
            proof {
                self.observations = Ghost(
                    earlier.push(Observation { frame: frame_counter, block, loudness: lufs }),
                );
                assert(self.observations@.drop_last() =~= earlier);
                let n = earlier.len() as int;
                let f = old(self)@.frames_per_window as int;
                assert((n + 1) * f == n * f + f) by (nonlinear_arith);
                let c = old(self)@.channels as int;
                assert(0 * c == 0) by (nonlinear_arith);
            }
            match &mut self.loudness_windows {
                Some(windows) => {
                    let ghost before = windows@;
                    let n = windows.len();
                    if n > 0 {
                        let last = windows[n - 1];
                        windows[n - 1] = LoudnessWindow {
                            start: last.start,
                            end: Some(frame_counter),
                            loudness: lufs,
                        };
                    }
                    windows.push(
                        LoudnessWindow { start: frame_counter, end: None, loudness: Level::zero() },
                    );
                    assert(windows@ =~= next_window(before, frame_counter, lufs));
                },
                None => {},
            }
            match &mut self.silence {
                Some(silence) => {
                    let edge = silence.observe(frame_counter, lufs);
                    if edge != Edge::Steady {
                        event = Some(
                            SilenceEvent {
                                edge,
                                frame: frame_counter,
                                short_term: lufs,
                                integrated: integrated(&self.loudness),
                                silent_frames: silence.count(),
                                total_frames: self.num_frames,
                            },
                        );
                    }
                },
                None => {},
            }
        }
        event
    }

    /// Ends the stream. Where the windows are tracked, the samples left in
    /// the window are measured and the open window is closed at the end of
    /// the stream. A silence that is still going ends there too, and its
    /// share of the stream decides the status byte.
    pub fn finish(&mut self) -> (r: (u8, Option<SilenceEvent>))
        requires
            old(self)@.wf(),
            old(self).inv(),
        ensures
            final(self).inv(),
            final(self).spec_sample_rate() == old(self).spec_sample_rate(),
            final(self)@ == old(self)@.finished(final(self)@.last_window_loudness()),
            final(self)@.reportable(),
            final(self)@.closed(),
            r.0 == old(self)@.status(),
            match r.1 {
                Some(e) => {
                    &&& e.edge == Edge::SilenceEnd
                    &&& e.frame == final(self)@.num_frames
                    &&& e.total_frames == final(self)@.num_frames
                    &&& old(self)@.silence matches Some(before)
                    &&& before.in_silence()
                    &&& e.short_term == before.state.previous_lufs
                    &&& final(self)@.silence matches Some(after)
                    &&& e.silent_frames == after.count
                },
                None => !(old(self)@.silence matches Some(s) && s.in_silence()),
            },
    {
        proof {
            lemma_running_is_reportable(old(self)@);
            lemma_windows_after(old(self)@.observations);
        }
        if self.loudness_windows.is_some() {
            let trailing = if self.frame_buf.len() > 0 {
                self.measure()
            } else {
                Level::neg_infinity()
            };
            match &mut self.loudness_windows {
                Some(windows) => {
                    let ghost before = windows@;
                    let n = windows.len();
                    if n > 0 {
                        let last = windows[n - 1];
                        windows[n - 1] = LoudnessWindow {
                            start: last.start,
                            end: Some(self.num_frames),
                            loudness: trailing,
                        };
                    }
                    assert(windows@ =~= close_window(before, self.num_frames, trailing));
                },
                None => {},
            }
        }
        let mut status: u8 = 0;
        let mut event: Option<SilenceEvent> = None;
        match &mut self.silence {
            Some(silence) => {
                if silence.in_silence() {
                    let short_term = silence.state().previous_lufs;
                    status = silence.finish(self.num_frames);
                    event = Some(
                        SilenceEvent {
                            edge: Edge::SilenceEnd,
                            frame: self.num_frames,
                            short_term,
                            integrated: integrated(&self.loudness),
                            silent_frames: silence.count(),
                            total_frames: self.num_frames,
                        },
                    );
                }
            },
            None => {},
        }
        (status, event)
    }

    /// The analyser's sections of the report: the windows where they are
    /// tracked, and the silence where any was found. What is still open is
    /// reported up to the end of the stream.
    pub fn json(&self) -> (r: LoudnessReport)
        requires
            self@.reportable(),
            self.inv(),
        ensures
            match r.loudness {
                Some(section) => self@.windows_reported(section),
                None => !self@.has_windows(),
            },
            match r.silence {
                Some(section) => self@.silence_reported(section),
                None => !self@.has_silence(),
            },
    {
        let mut report = LoudnessReport { loudness: None, silence: None };
        match &self.loudness_windows {
            Some(windows) => {
                if windows.len() > 0 {
                    let mut results: Vec<LoudnessWindow> = Vec::new();
                    let mut i: usize = 0;
                    while i < windows.len()
                        invariant
                            i <= windows@.len(),
                            results@.len() == i,
                            forall|k: int|
                                0 <= k < i ==> results@[k] == window_row(
                                    #[trigger] windows@[k],
                                    self.num_frames,
                                ),
                        decreases windows@.len() - i,
                    {
                        let win = windows[i];
                        let end = match win.end {
                            Some(e) => e,
                            None => self.num_frames,
                        };
                        results.push(
                            LoudnessWindow { start: win.start, end: Some(end), loudness: win.loudness },
                        );
                        i += 1;
                    }
                    report.loudness = Some(
                        LoudnessSection { results, window_size: self.window_size },
                    );
                }
            },
            None => {},
        }
        match &self.silence {
            Some(silence) => {
                if silence.segments().len() > 0 {
                    let results = silence.rows(self.num_frames);
                    report.silence = Some(
                        SilenceSection {
                            results,
                            threshold: silence.threshold(),
                            window_size: self.window_size,
                        },
                    );
                }
            },
            None => {},
        }
        report
    }
}

/// The level that a reading of the meter stands for: the number whose bits
/// the meter gave, and negative infinity where it gave none.
pub open spec fn spec_reading_level(reading: Option<u64>) -> Level {
    match reading {
        Some(bits) => Level { bits },
        None => Level { bits: NEG_INFINITY_BITS },
    }
}

/// The level that a reading of the meter stands for.
pub fn reading_level(reading: Option<u64>) -> (r: Level)
    ensures
        r == spec_reading_level(reading),
{
    match reading {
        Some(bits) => Level::from_bits(bits),
        None => Level::neg_infinity(),
    }
}

} // verus!
