//! Detection of signal underruns: runs of exact-zero samples on one channel.

use vstd::prelude::*;
use crate::cli::Cli;
use crate::cli::StreamInfo;
use crate::segment::Segment;
use crate::segment::all_closed;
use crate::status::ERR_CONTAINS_UNDERRUN;

verus! {

/// The running state of one channel.
#[derive(Clone, Copy, Debug)]
pub struct DetectorState {
    /// Length of the zero run that ends at the last frame seen; 0 if that
    /// frame's sample was not zero.
    pub underrun_count: usize,
    /// Index of the last frame whose sample was zero.
    pub underrun_prev_index: usize,
}

/// One underrun of the report: the frames `[start_sample, end_sample)` of
/// `channel`.
#[derive(Clone, Copy, Debug, PartialEq, Eq, Structural)]
pub struct UnderrunSegment {
    pub start_sample: usize,
    pub end_sample: usize,
    pub duration_samples: usize,
    pub channel: usize,
}

/// The detector's section of the report.
#[derive(Debug)]
pub struct UnderrunReport {
    pub results: Vec<UnderrunSegment>,
    pub threshold: usize,
}

/// The abstract state of the detector.
pub struct UnderrunModel {
    /// Shortest zero run that is reported.
    pub min_run: nat,
    /// Length of the whole stream.
    pub num_frames: nat,
    /// Number of frames analysed so far; the index of the next one.
    pub frames_seen: nat,
    /// One running state per channel.
    pub runs: Seq<DetectorState>,
    /// The underruns found so far, in the order in which they ended.
    pub segments: Seq<Segment>,
    pub contains_underrun: bool,
}

impl UnderrunModel {
    /// The state before the first frame.
    pub open spec fn initial(channels: nat, num_frames: nat, min_run: nat) -> UnderrunModel {
        UnderrunModel {
            min_run,
            num_frames,
            frames_seen: 0,
            runs: Seq::new(channels, |c: int| DetectorState { underrun_count: 0, underrun_prev_index: 0 }),
            segments: Seq::empty(),
            contains_underrun: false,
        }
    }

    /// No run is longer than `limit`, and no zero was seen after frame `limit`.
    pub open spec fn runs_within(self, limit: nat) -> bool {
        forall|c: int|
            0 <= c < self.runs.len() ==> (#[trigger] self.runs[c]).underrun_count <= limit
                && self.runs[c].underrun_prev_index <= limit
    }

    pub open spec fn segment_ok(self, s: Segment) -> bool {
        &&& s.end matches Some(e) && s.start <= e <= self.num_frames
        &&& s.channel matches Some(c) && c < self.runs.len()
    }

    pub open spec fn segments_ok(self) -> bool {
        forall|i: int| 0 <= i < self.segments.len() ==> self.segment_ok(#[trigger] self.segments[i])
    }

    pub open spec fn wf(self) -> bool {
        &&& self.frames_seen <= self.num_frames <= usize::MAX
        &&& self.min_run <= usize::MAX
        &&& self.runs.len() <= usize::MAX
        &&& self.runs_within(self.frames_seen)
        &&& self.segments_ok()
        &&& self.contains_underrun <==> self.segments.len() > 0
    }

    /// What the sample of channel `c` in frame `frames_seen` does.
    ///
    /// A zero lengthens the run, which starts anew where the previous zero
    /// is more than one frame back. Any other sample ends the run, and a run
    /// of at least `min_run` zeros becomes a segment.
    pub open spec fn step_sample(self, c: int, sample: i32) -> UnderrunModel {
        let run = self.runs[c];
        let frame = self.frames_seen;
        if sample == 0 {
            let kept = if frame - run.underrun_prev_index > 1 {
                0
            } else {
                run.underrun_count as int
            };
            UnderrunModel {
                runs: self.runs.update(
                    c,
                    DetectorState {
                        underrun_count: (kept + 1) as usize,
                        underrun_prev_index: frame as usize,
                    },
                ),
                ..self
            }
        } else {
            let cleared = self.runs.update(
                c,
                DetectorState { underrun_count: 0, underrun_prev_index: run.underrun_prev_index },
            );
            if run.underrun_count >= self.min_run {
                UnderrunModel {
                    runs: cleared,
                    segments: self.segments.push(
                        Segment {
                            start: (frame - run.underrun_count) as usize,
                            end: Some(frame as usize),
                            channel: Some(c as usize),
                        },
                    ),
                    contains_underrun: true,
                    ..self
                }
            } else {
                UnderrunModel { runs: cleared, ..self }
            }
        }
    }

    /// The first `upto` channels of `frame`, taken in order.
    pub open spec fn step_channels(self, frame: Seq<i32>, upto: int) -> UnderrunModel
        decreases upto,
    {
        if upto <= 0 {
            self
        } else {
            self.step_channels(frame, upto - 1).step_sample(upto - 1, frame[upto - 1])
        }
    }

    /// One whole frame.
    pub open spec fn step(self, frame: Seq<i32>) -> UnderrunModel {
        UnderrunModel {
            frames_seen: self.frames_seen + 1,
            ..self.step_channels(frame, frame.len() as int)
        }
    }

    /// A sequence of frames, first to last.
    pub open spec fn feed(self, frames: Seq<Seq<i32>>) -> UnderrunModel
        decreases frames.len(),
    {
        if frames.len() == 0 {
            self
        } else {
            self.feed(frames.drop_last()).step(frames.last())
        }
    }

    /// The end of the stream for channel `c`: a run of at least `min_run`
    /// zeros that is still going becomes a segment that ends with the stream.
    pub open spec fn close_channel(self, c: int) -> UnderrunModel {
        let run = self.runs[c];
        if run.underrun_count >= self.min_run {
            UnderrunModel {
                segments: self.segments.push(
                    Segment {
                        start: (self.num_frames - run.underrun_count) as usize,
                        end: Some(self.num_frames as usize),
                        channel: Some(c as usize),
                    },
                ),
                contains_underrun: true,
                ..self
            }
        } else {
            self
        }
    }

    pub open spec fn close_channels(self, upto: int) -> UnderrunModel
        decreases upto,
    {
        if upto <= 0 {
            self
        } else {
            self.close_channels(upto - 1).close_channel(upto - 1)
        }
    }

    /// The state after the end of the stream.
    pub open spec fn finished(self) -> UnderrunModel {
        self.close_channels(self.runs.len() as int)
    }

    /// Whether `report` is the detector's section of the report: one row
    /// per segment, in the order in which they ended, and the threshold.
    pub open spec fn reported(self, report: UnderrunReport) -> bool {
        &&& report.threshold == self.min_run
        &&& report.results@.len() == self.segments.len()
        &&& forall|i: int|
            0 <= i < report.results@.len() ==> report.results@[i] == report_row(
                #[trigger] self.segments[i],
                self.num_frames as usize,
            )
    }

    /// The status byte: the underrun bit if any segment was found.
    pub open spec fn status(self) -> u8 {
        if self.segments.len() > 0 {
            ERR_CONTAINS_UNDERRUN
        } else {
            0
        }
    }
}

/// The row of the report for a segment of a stream of `num_frames` frames.
pub open spec fn report_row(s: Segment, num_frames: usize) -> UnderrunSegment {
    UnderrunSegment {
        start_sample: s.start,
        end_sample: s.end_or(num_frames),
        duration_samples: (s.end_or(num_frames) - s.start) as usize,
        channel: match s.channel {
            Some(c) => c,
            None => 0,
        },
    }
}

/// Detects runs of zero samples, channel by channel.
pub struct UnderrunAnalyser {
    contains_underrun: bool,
    num_frames: usize,
    states: Vec<DetectorState>,
    sample_rate: i32,
    samples: usize,
    segments: Vec<Segment>,
    frames_seen: usize,
}

impl View for UnderrunAnalyser {
    type V = UnderrunModel;

    closed spec fn view(&self) -> UnderrunModel {
        UnderrunModel {
            min_run: self.samples as nat,
            num_frames: self.num_frames as nat,
            frames_seen: self.frames_seen as nat,
            runs: self.states@,
            segments: self.segments@,
            contains_underrun: self.contains_underrun,
        }
    }
}

impl UnderrunAnalyser {
    /// A detector for a stream as `stream` describes it, which reports zero
    /// runs of at least `args.samples` samples.
    pub fn new(args: &Cli, stream: &StreamInfo) -> (r: Self)
        ensures
            r@ == UnderrunModel::initial(
                stream.channels as nat,
                stream.num_frames as nat,
                args.samples as nat,
            ),
            r@.wf(),
            r.spec_sample_rate() == stream.sample_rate,
    {
        let mut states: Vec<DetectorState> = Vec::new();
        let mut c: u16 = 0;
        while c < stream.channels
            invariant
                c <= stream.channels,
                states@.len() == c,
                forall|i: int|
                    0 <= i < c ==> states@[i] == (DetectorState {
                        underrun_count: 0,
                        underrun_prev_index: 0,
                    }),
            decreases stream.channels - c,
        {
            states.push(DetectorState { underrun_count: 0, underrun_prev_index: 0 });
            c += 1;
        }
        let r = UnderrunAnalyser {
            contains_underrun: false,
            num_frames: stream.num_frames,
            states,
            sample_rate: stream.sample_rate,
            samples: args.samples,
            segments: Vec::new(),
            frames_seen: 0,
        };
        assert(r@.runs =~= UnderrunModel::initial(
            stream.channels as nat,
            stream.num_frames as nat,
            args.samples as nat,
        ).runs);
        r
    }

    pub closed spec fn spec_sample_rate(&self) -> i32 {
        self.sample_rate
    }

    /// Frames per second of the stream.
    pub fn sample_rate(&self) -> (r: i32)
        ensures
            r == self.spec_sample_rate(),
    {
        self.sample_rate
    }

    /// Number of frames analysed so far.
    pub fn frames_seen(&self) -> (r: usize)
        ensures
            r == self@.frames_seen,
    {
        self.frames_seen
    }

    /// Length of the stream, as announced.
    pub fn num_frames(&self) -> (r: usize)
        ensures
            r == self@.num_frames,
    {
        self.num_frames
    }

    /// Number of channels.
    pub fn channels(&self) -> (r: usize)
        ensures
            r == self@.runs.len(),
    {
        self.states.len()
    }

    /// The running state of each channel.
    pub fn states(&self) -> (r: &Vec<DetectorState>)
        ensures
            r@ == self@.runs,
    {
        &self.states
    }

    /// The segments found so far.
    pub fn segments(&self) -> (r: &Vec<Segment>)
        ensures
            r@ == self@.segments,
    {
        &self.segments
    }

    /// Takes the next frame of the stream, one sample per channel, and
    /// returns the segments that it ended.
    pub fn analyse(&mut self, frame_counter: usize, frame: &[i32]) -> (found: Vec<Segment>)
        requires
            old(self)@.wf(),
            frame_counter == old(self)@.frames_seen,
            frame_counter < old(self)@.num_frames,
            frame@.len() == old(self)@.runs.len(),
        ensures
            final(self)@ == old(self)@.step(frame@),
            final(self)@.wf(),
            final(self)@.segments == old(self)@.segments + found@,
            all_closed(final(self)@.segments),
    {
        let mut found: Vec<Segment> = Vec::new();
        let channels = frame.len();
        let mut channel_index: usize = 0;
        while channel_index < channels
            invariant
                channels == frame@.len(),
                channels == self@.runs.len(),
                channels == old(self)@.runs.len(),
                channel_index <= channels,
                self@.frames_seen == frame_counter,
                self@.num_frames == old(self)@.num_frames,
                self@.min_run == old(self)@.min_run,
                frame_counter == old(self)@.frames_seen,
                frame_counter < old(self)@.num_frames,
                old(self)@.wf(),
                self@ == old(self)@.step_channels(frame@, channel_index as int),
                self@.runs_within((frame_counter + 1) as nat),
                self@.segments_ok(),
                self@.contains_underrun <==> self@.segments.len() > 0,
                self@.segments == old(self)@.segments + found@,
                forall|c: int|
                    channel_index <= c < channels ==> self@.runs[c] == old(self)@.runs[c],
            decreases channels - channel_index,
        {
            let sample = frame[channel_index];
            let ghost before = self@;
            let state = self.states[channel_index];
            assert(state == old(self)@.runs[channel_index as int]);
            if sample == 0 {
                let kept: usize = if frame_counter - state.underrun_prev_index > 1 {
                    0
                } else {
                    state.underrun_count
                };
                self.states[channel_index] = DetectorState {
                    underrun_count: kept + 1,
                    underrun_prev_index: frame_counter,
                };
            } else {
                self.states[channel_index] = DetectorState {
                    underrun_count: 0,
                    underrun_prev_index: state.underrun_prev_index,
                };
                if state.underrun_count >= self.samples {
                    self.contains_underrun = true;
                    let segment = Segment {
                        start: frame_counter - state.underrun_count,
                        end: Some(frame_counter),
                        channel: Some(channel_index),
                    };
                    self.segments.push(segment);
                    found.push(segment);
                }
            }
            proof {
                let after = before.step_sample(channel_index as int, sample);
                assert(self@.runs =~= after.runs);
                assert(self@.segments =~= after.segments);
                assert(self@ == after);
                assert(self@.segments =~= old(self)@.segments + found@);
            }
            channel_index += 1;
        }
        self.frames_seen = frame_counter + 1;
        found
    }

    /// Ends the stream: every channel that is still inside a run of at least
    /// the threshold gets a segment that ends with the stream. Returns the
    /// status byte and the segments that were added.
    pub fn finish(&mut self) -> (r: (u8, Vec<Segment>))
        requires
            old(self)@.wf(),
        ensures
            final(self)@ == old(self)@.finished(),
            final(self)@.wf(),
            r.0 == final(self)@.status(),
            final(self)@.segments == old(self)@.segments + r.1@,
            all_closed(final(self)@.segments),
    {
        let mut found: Vec<Segment> = Vec::new();
        let channels = self.states.len();
        let mut channel_index: usize = 0;
        while channel_index < channels
            invariant
                channels == self@.runs.len(),
                channel_index <= channels,
                old(self)@.wf(),
                self@ == old(self)@.close_channels(channel_index as int),
                self@.runs == old(self)@.runs,
                self@.wf(),
                self@.segments == old(self)@.segments + found@,
            decreases channels - channel_index,
        {
            let ghost before = self@;
            let count = self.states[channel_index].underrun_count;
            if count >= self.samples {
                self.contains_underrun = true;
                let segment = Segment {
                    start: self.num_frames - count,
                    end: Some(self.num_frames),
                    channel: Some(channel_index),
                };
                self.segments.push(segment);
                found.push(segment);
            }
            proof {
                assert(self@.segments =~= before.close_channel(channel_index as int).segments);
                assert(self@ == before.close_channel(channel_index as int));
                assert(self@.segments =~= old(self)@.segments + found@);
            }
            channel_index += 1;
        }
        let status = if self.segments.len() > 0 {
            ERR_CONTAINS_UNDERRUN
        } else {
            0
        };
        (status, found)
    }

    /// The detector's section of the report, if it found anything: one row
    /// per segment, in the order in which they ended, and the threshold.
    pub fn json(&self) -> (r: Option<UnderrunReport>)
        requires
            self@.wf(),
        ensures
            self@.segments.len() == 0 <==> r is None,
            r matches Some(report) ==> self@.reported(report),
    {
        if self.segments.len() == 0 {
            return None;
        }
        let mut results: Vec<UnderrunSegment> = Vec::new();
        let mut i: usize = 0;
        while i < self.segments.len()
            invariant
                self@.wf(),
                i <= self.segments@.len(),
                results@.len() == i,
                forall|k: int|
                    0 <= k < i ==> results@[k] == report_row(
                        #[trigger] self.segments@[k],
                        self.num_frames,
                    ),
            decreases self.segments@.len() - i,
        {
            let seg = self.segments[i];
            assert(self@.segment_ok(self@.segments[i as int]));
            let end_frame = seg.resolve_end(self.num_frames);
            let duration_samples = end_frame - seg.start;
            let channel = match seg.channel {
                Some(c) => c,
                None => 0,
            };
            results.push(
                UnderrunSegment {
                    start_sample: seg.start,
                    end_sample: end_frame,
                    duration_samples,
                    channel,
                },
            );
            i += 1;
        }
        Some(UnderrunReport { results, threshold: self.samples })
    }
}

/// A frame changes the running states of the channels, not their number.
pub proof fn lemma_step_keeps_channels(m: UnderrunModel, frame: Seq<i32>)
    requires
        frame.len() == m.runs.len(),
    ensures
        m.step(frame).runs.len() == m.runs.len(),
        m.step(frame).num_frames == m.num_frames,
        m.step(frame).min_run == m.min_run,
{
    lemma_step_channels_keeps(m, frame, frame.len() as int);
}

/// The samples of some channels change the running states of the channels,
/// not their number.
pub proof fn lemma_step_channels_keeps(m: UnderrunModel, frame: Seq<i32>, upto: int)
    requires
        upto <= m.runs.len(),
    ensures
        m.step_channels(frame, upto).runs.len() == m.runs.len(),
        m.step_channels(frame, upto).num_frames == m.num_frames,
        m.step_channels(frame, upto).min_run == m.min_run,
        m.step_channels(frame, upto).frames_seen == m.frames_seen,
    decreases upto,
{
    if upto > 0 {
        lemma_step_channels_keeps(m, frame, upto - 1);
    }
}

/// The samples of channel `c`, frame by frame.
pub open spec fn column(frames: Seq<Seq<i32>>, c: int) -> Seq<i32> {
    Seq::new(frames.len(), |k: int| frames[k][c])
}

/// Whether every frame has `channels` samples.
pub open spec fn uniform(frames: Seq<Seq<i32>>, channels: nat) -> bool {
    forall|k: int| 0 <= k < frames.len() ==> (#[trigger] frames[k]).len() == channels
}

/// Length of the run of zeros at the end of `samples`.
pub open spec fn trailing_zeros(samples: Seq<i32>) -> nat
    decreases samples.len(),
{
    if samples.len() == 0 || samples.last() != 0 {
        0
    } else {
        1 + trailing_zeros(samples.drop_last())
    }
}

/// The run at the end of `samples` is made of zeros, and the sample before
/// it, if there is one, is not zero.
pub proof fn lemma_trailing_zeros(samples: Seq<i32>)
    ensures
        trailing_zeros(samples) <= samples.len(),
        forall|k: int|
            samples.len() - trailing_zeros(samples) <= k < samples.len() ==> #[trigger] samples[k]
                == 0,
        trailing_zeros(samples) < samples.len() ==> samples[samples.len() - trailing_zeros(samples)
            - 1] != 0,
    decreases samples.len(),
{
    if samples.len() > 0 && samples.last() == 0 {
        let front = samples.drop_last();
        lemma_trailing_zeros(front);
        assert forall|k: int|
            samples.len() - trailing_zeros(samples) <= k < samples.len() implies #[trigger] samples[k]
            == 0 by {
            if k < front.len() {
                assert(front[k] == samples[k]);
            }
        }
        if trailing_zeros(samples) < samples.len() {
            assert(front[front.len() - trailing_zeros(front) - 1] == samples[samples.len()
                - trailing_zeros(samples) - 1]);
        }
    }
}

/// Whether a run of at least `min_run` zeros on channel `c` ends at frame
/// `end`: the sample of that frame is not zero, and the samples before it
/// end in that many zeros.
pub open spec fn underrun_ends_at(frames: Seq<Seq<i32>>, c: int, end: int, min_run: nat) -> bool {
    &&& 0 <= end < frames.len()
    &&& frames[end][c] != 0
    &&& trailing_zeros(column(frames.take(end), c)) >= min_run
}

/// The segment of the run of zeros on channel `c` that ends at frame `end`.
pub open spec fn underrun_at(frames: Seq<Seq<i32>>, c: int, end: int) -> Segment {
    Segment {
        start: (end - trailing_zeros(column(frames.take(end), c))) as usize,
        end: Some(end as usize),
        channel: Some(c as usize),
    }
}

/// Whether `s` is the segment of a run of at least `min_run` zeros that a
/// sample other than zero ended.
pub open spec fn is_underrun(frames: Seq<Seq<i32>>, channels: nat, min_run: nat, s: Segment) -> bool {
    &&& s.channel matches Some(c)
    &&& s.end matches Some(end)
    &&& c < channels
    &&& underrun_ends_at(frames, c as int, end as int, min_run)
    &&& s == underrun_at(frames, c as int, end as int)
}

/// Whether the detector holds what the frames `frames` show: each channel
/// counts the zeros at its end, and the segments are the runs of at least
/// `min_run` zeros that ended, each once.
pub open spec fn shows(m: UnderrunModel, frames: Seq<Seq<i32>>) -> bool {
    &&& m.frames_seen == frames.len()
    &&& forall|c: int|
        0 <= c < m.runs.len() ==> {
            &&& (#[trigger] m.runs[c]).underrun_count == trailing_zeros(column(frames, c))
            &&& m.runs[c].underrun_count > 0 ==> m.runs[c].underrun_prev_index + 1 == frames.len()
        }
    &&& forall|i: int|
        0 <= i < m.segments.len() ==> is_underrun(
            frames,
            m.runs.len(),
            m.min_run,
            #[trigger] m.segments[i],
        )
    &&& forall|c: int, end: int|
        0 <= c < m.runs.len() && #[trigger] underrun_ends_at(frames, c, end, m.min_run)
            ==> m.segments.contains(underrun_at(frames, c, end))
    &&& forall|i: int, j: int|
        0 <= i < j < m.segments.len() ==> #[trigger] m.segments[i] != #[trigger] m.segments[j]
}

/// What was true of the frames so far is true of them with one more frame.
proof fn lemma_earlier_frames(frames: Seq<Seq<i32>>, frame: Seq<i32>, c: int, end: int)
    requires
        0 <= end <= frames.len(),
    ensures
        column(frames.push(frame).take(end), c) == column(frames.take(end), c),
        end < frames.len() ==> frames.push(frame)[end] == frames[end],
        column(frames.push(frame), c).drop_last() == column(frames, c),
        column(frames.push(frame), c).last() == frame[c],
        frames.push(frame).take(frames.len() as int) == frames,
{
    assert(frames.push(frame).take(end) =~= frames.take(end));
    assert(column(frames.push(frame), c).drop_last() =~= column(frames, c));
    assert(frames.push(frame).take(frames.len() as int) =~= frames);
}

/// The samples of the first `upto` channels of a frame, taken after the
/// frames `frames`, leave the detector showing those channels with the
/// frame and the others without it.
proof fn lemma_step_channels_shows(
    m: UnderrunModel,
    frames: Seq<Seq<i32>>,
    frame: Seq<i32>,
    upto: int,
)
    requires
        m.wf(),
        shows(m, frames),
        uniform(frames, m.runs.len()),
        frame.len() == m.runs.len(),
        frames.len() < m.num_frames,
        0 <= upto <= m.runs.len(),
    ensures
        ({
            let n = m.step_channels(frame, upto);
            let longer = frames.push(frame);
            &&& n.runs.len() == m.runs.len()
            &&& n.frames_seen == m.frames_seen
            &&& n.min_run == m.min_run
            &&& n.num_frames == m.num_frames
            &&& forall|c: int| upto <= c < m.runs.len() ==> #[trigger] n.runs[c] == m.runs[c]
            &&& forall|c: int|
                0 <= c < upto ==> {
                    &&& (#[trigger] n.runs[c]).underrun_count == trailing_zeros(column(longer, c))
                    &&& n.runs[c].underrun_count > 0 ==> n.runs[c].underrun_prev_index
                        == frames.len()
                }
            &&& forall|i: int|
                0 <= i < n.segments.len() ==> is_underrun(
                    longer,
                    m.runs.len(),
                    m.min_run,
                    #[trigger] n.segments[i],
                )
            &&& forall|i: int|
                0 <= i < n.segments.len() && n.segments[i].end == Some(frames.len() as usize) ==> (
                #[trigger] n.segments[i]).channel is Some && n.segments[i].channel->0 < upto
            &&& forall|c: int, end: int|
                0 <= c < m.runs.len() && end < frames.len() && #[trigger] underrun_ends_at(
                    longer,
                    c,
                    end,
                    m.min_run,
                ) ==> n.segments.contains(underrun_at(longer, c, end))
            &&& forall|c: int|
                0 <= c < upto && #[trigger] underrun_ends_at(
                    longer,
                    c,
                    frames.len() as int,
                    m.min_run,
                ) ==> n.segments.contains(underrun_at(longer, c, frames.len() as int))
            &&& forall|i: int, j: int|
                0 <= i < j < n.segments.len() ==> #[trigger] n.segments[i] != #[trigger] n.segments[j]
        }),
    decreases upto,
{
    let longer = frames.push(frame);
    let now = frames.len() as int;
    if upto == 0 {
        let n = m.step_channels(frame, 0);
        assert(n == m);
        assert forall|i: int| 0 <= i < n.segments.len() implies is_underrun(
            longer,
            m.runs.len(),
            m.min_run,
            #[trigger] n.segments[i],
        ) by {
            let s = m.segments[i];
            assert(is_underrun(frames, m.runs.len(), m.min_run, s));
            lemma_earlier_frames(frames, frame, s.channel->0 as int, s.end->0 as int);
        }
        assert forall|i: int|
            0 <= i < n.segments.len() && n.segments[i].end == Some(frames.len() as usize) implies (
        #[trigger] n.segments[i]).channel is Some && n.segments[i].channel->0 < upto by {
            assert(is_underrun(frames, m.runs.len(), m.min_run, m.segments[i]));
        }
        assert forall|c: int, end: int|
            0 <= c < m.runs.len() && end < frames.len() && #[trigger] underrun_ends_at(
                longer,
                c,
                end,
                m.min_run,
            ) implies n.segments.contains(underrun_at(longer, c, end)) by {
            lemma_earlier_frames(frames, frame, c, end);
            assert(underrun_ends_at(frames, c, end, m.min_run));
        }
    } else {
        let c = upto - 1;
        lemma_step_channels_shows(m, frames, frame, c);
        let before = m.step_channels(frame, c);
        let n = before.step_sample(c, frame[c]);
        assert(n == m.step_channels(frame, upto));
        let run = before.runs[c];
        assert(run == m.runs[c]);
        lemma_earlier_frames(frames, frame, c, now);
        lemma_trailing_zeros(column(frames, c));
        assert(run.underrun_count == trailing_zeros(column(frames, c)));
        assert(trailing_zeros(column(longer, c)) == if frame[c] == 0 {
            run.underrun_count + 1
        } else {
            0
        });
        if frame[c] != 0 && run.underrun_count >= m.min_run {
            let added = underrun_at(longer, c, now);
            assert(n.segments == before.segments.push(added));
            assert(longer[now] == frame);
            assert(underrun_ends_at(longer, c, now, m.min_run));
            assert(is_underrun(longer, m.runs.len(), m.min_run, added));
            assert(n.segments[before.segments.len() as int] == added);
            assert forall|i: int| 0 <= i < n.segments.len() implies is_underrun(
                longer,
                m.runs.len(),
                m.min_run,
                #[trigger] n.segments[i],
            ) by {
                if i < before.segments.len() {
                    assert(n.segments[i] == before.segments[i]);
                }
            }
            assert forall|i: int|
                0 <= i < n.segments.len() && n.segments[i].end == Some(
                    frames.len() as usize,
                ) implies (#[trigger] n.segments[i]).channel is Some && n.segments[i].channel->0
                < upto by {
                if i < before.segments.len() {
                    assert(n.segments[i] == before.segments[i]);
                }
            }
            assert forall|k: int, end: int|
                0 <= k < m.runs.len() && end < frames.len() && #[trigger] underrun_ends_at(
                    longer,
                    k,
                    end,
                    m.min_run,
                ) implies n.segments.contains(underrun_at(longer, k, end)) by {
                let w = choose|i: int|
                    0 <= i < before.segments.len() && before.segments[i] == underrun_at(
                        longer,
                        k,
                        end,
                    );
                assert(n.segments[w] == underrun_at(longer, k, end));
            }
            assert forall|k: int|
                0 <= k < upto && #[trigger] underrun_ends_at(
                    longer,
                    k,
                    now,
                    m.min_run,
                ) implies n.segments.contains(underrun_at(longer, k, now)) by {
                if k < c {
                    let w = choose|i: int|
                        0 <= i < before.segments.len() && before.segments[i] == underrun_at(
                            longer,
                            k,
                            now,
                        );
                    assert(n.segments[w] == underrun_at(longer, k, now));
                }
            }
            assert forall|i: int, j: int| 0 <= i < j < n.segments.len() implies #[trigger] n.segments[i]
                != #[trigger] n.segments[j] by {
                if j < before.segments.len() {
                    assert(n.segments[i] == before.segments[i]);
                    assert(n.segments[j] == before.segments[j]);
                } else {
                    assert(n.segments[i] == before.segments[i]);
                    if before.segments[i].end == Some(frames.len() as usize) {
                        assert(before.segments[i].channel->0 < c);
                    }
                }
            }
        } else {
            assert(n.segments == before.segments);
            if frame[c] != 0 {
                assert(!underrun_ends_at(longer, c, now, m.min_run));
            } else {
                assert(longer[now] == frame);
                assert(!underrun_ends_at(longer, c, now, m.min_run));
            }
        }
    }
}

/// One more frame leaves the detector showing all frames.
pub proof fn lemma_step_shows(m: UnderrunModel, frames: Seq<Seq<i32>>, frame: Seq<i32>)
    requires
        m.wf(),
        shows(m, frames),
        uniform(frames, m.runs.len()),
        frame.len() == m.runs.len(),
        frames.len() < m.num_frames,
    ensures
        shows(m.step(frame), frames.push(frame)),
        m.step(frame).runs.len() == m.runs.len(),
        m.step(frame).min_run == m.min_run,
        m.step(frame).num_frames == m.num_frames,
        uniform(frames.push(frame), m.runs.len()),
{
    lemma_step_channels_shows(m, frames, frame, frame.len() as int);
    let n = m.step(frame);
    let longer = frames.push(frame);
    assert forall|c: int, end: int|
        0 <= c < n.runs.len() && #[trigger] underrun_ends_at(
            longer,
            c,
            end,
            n.min_run,
        ) implies n.segments.contains(underrun_at(longer, c, end)) by {
        if end < frames.len() {
        } else {
            assert(end == frames.len());
        }
    }
}

/// What the frames of a stream make of a detector: after any number of
/// frames, each channel counts the zeros at the end of its samples, and the
/// segments are exactly the runs of at least `min_run` zeros that a sample
/// other than zero ended, each once. A shorter run makes no segment, and a
/// sample other than zero always begins a new run.
pub proof fn lemma_feed_shows(channels: nat, num_frames: nat, min_run: nat, frames: Seq<Seq<i32>>)
    requires
        channels <= usize::MAX,
        uniform(frames, channels),
        frames.len() <= num_frames <= usize::MAX,
        min_run <= usize::MAX,
    ensures
        shows(UnderrunModel::initial(channels, num_frames, min_run).feed(frames), frames),
        UnderrunModel::initial(channels, num_frames, min_run).feed(frames).wf(),
        UnderrunModel::initial(channels, num_frames, min_run).feed(frames).runs.len() == channels,
        UnderrunModel::initial(channels, num_frames, min_run).feed(frames).min_run == min_run,
        UnderrunModel::initial(channels, num_frames, min_run).feed(frames).num_frames == num_frames,
    decreases frames.len(),
{
    let start = UnderrunModel::initial(channels, num_frames, min_run);
    if frames.len() == 0 {
        assert forall|c: int| 0 <= c < start.runs.len() implies (#[trigger] start.runs[c]).underrun_count
            == trailing_zeros(column(frames, c)) by {}
    } else {
        let front = frames.drop_last();
        lemma_feed_shows(channels, num_frames, min_run, front);
        let m = start.feed(front);
        assert(frames.last().len() == channels);
        lemma_step_shows(m, front, frames.last());
        lemma_step_wf(m, frames.last());
        assert(front.push(frames.last()) =~= frames);
    }
}

/// A frame keeps the invariant of the detector.
pub proof fn lemma_step_wf(m: UnderrunModel, frame: Seq<i32>)
    requires
        m.wf(),
        frame.len() == m.runs.len(),
        m.frames_seen < m.num_frames,
    ensures
        m.step(frame).wf(),
{
    lemma_step_channels_wf(m, frame, frame.len() as int);
}

/// The samples of some channels of a frame keep the runs within the frames
/// seen, the frame included, and the segments within the stream.
proof fn lemma_step_channels_wf(m: UnderrunModel, frame: Seq<i32>, upto: int)
    requires
        m.wf(),
        frame.len() == m.runs.len(),
        m.frames_seen < m.num_frames,
        0 <= upto <= m.runs.len(),
    ensures
        ({
            let n = m.step_channels(frame, upto);
            &&& n.runs.len() == m.runs.len()
            &&& n.frames_seen == m.frames_seen
            &&& n.num_frames == m.num_frames
            &&& n.min_run == m.min_run
            &&& n.runs_within(m.frames_seen + 1)
            &&& n.segments_ok()
            &&& n.contains_underrun <==> n.segments.len() > 0
            &&& forall|c: int| upto <= c < m.runs.len() ==> #[trigger] n.runs[c] == m.runs[c]
        }),
    decreases upto,
{
    if upto > 0 {
        lemma_step_channels_wf(m, frame, upto - 1);
        let before = m.step_channels(frame, upto - 1);
        let n = before.step_sample(upto - 1, frame[upto - 1]);
        assert(before.runs[upto - 1] == m.runs[upto - 1]);
        assert forall|i: int| 0 <= i < n.segments.len() implies n.segment_ok(
            #[trigger] n.segments[i],
        ) by {
            if i < before.segments.len() {
                assert(before.segment_ok(before.segments[i]));
            }
        }
    }
}

} // verus!
