//! The pipeline driver: it owns the detectors of a run, hands every frame to
//! each of them once and in order, and ends them all when the stream ends.

use vstd::prelude::*;
use crate::analysers::Analyser;
use crate::analysers::Detector;
use crate::analysers::DetectorModel;
use crate::analysers::Event;
use crate::analysers::Section;
use crate::analysers::fft::FftAnalyser;
use crate::analysers::fft::FftModel;
use crate::analysers::fft::spec_supports;
use crate::analysers::fft::spectra_view;
use crate::analysers::fft::well_shaped;
use crate::level::Level;
use crate::analysers::loudness::LoudnessAnalyser;
use crate::analysers::loudness::LoudnessError;
use crate::analysers::loudness::loudness_error;
use crate::analysers::loudness::loudness_start;
use crate::analysers::peaks::PeaksAnalyzer;
use crate::analysers::peaks::PeaksModel;
use crate::analysers::underruns::UnderrunAnalyser;
use crate::analysers::underruns::UnderrunModel;
use crate::cli::Cli;
use crate::cli::StreamInfo;
use crate::json::JsonOutput;
use crate::json::write_json;
use crate::paths::calculate_png_path;
use crate::status::ERR_CONTAINS_SILENCE;
use crate::status::ERR_CONTAINS_UNDERRUN;

verus! {

/// Why a run cannot begin.
#[derive(Clone, Copy, Debug, PartialEq, Eq, Structural)]
pub enum ConfigError {
    /// The raw spectrogram is wanted, but neither its path nor that of the
    /// report is given.
    NoFftPath,
    /// The level map is wanted, but neither its path nor that of the report
    /// is given.
    NoPeaksPath,
    /// No detection is active.
    NoDetection,
    /// The loudness analyser cannot be made.
    Loudness(LoudnessError),
    /// The spectral transform is too small or too large to lay out.
    FftSize,
}

/// Whether the options ask for the loudness analyser.
pub open spec fn wants_loudness(args: &Cli) -> bool {
    args.silence || args.loudness
}

/// Whether the options ask for the spectrogram.
pub open spec fn wants_fft(args: &Cli) -> bool {
    args.fft || args.fft_vis is Some
}

/// Why a run with these options cannot begin, if so. `fft_path` and
/// `peaks_path` are the paths found for the raw spectrogram and the level
/// map. The checks are made in the order of the detectors; the first that
/// fails decides.
pub open spec fn config_error(
    args: &Cli,
    stream: &StreamInfo,
    fft_path: Option<String>,
    peaks_path: Option<String>,
) -> Option<ConfigError> {
    if wants_loudness(args) && loudness_error(args, stream) is Some {
        Some(ConfigError::Loudness(loudness_error(args, stream)->0))
    } else if wants_fft(args) && args.fft && fft_path is None {
        Some(ConfigError::NoFftPath)
    } else if wants_fft(args) && !spec_supports(args.fft_bins, stream.channels) {
        Some(ConfigError::FftSize)
    } else if args.peaks && peaks_path is None {
        Some(ConfigError::NoPeaksPath)
    } else if !wants_loudness(args) && !args.underrun && !wants_fft(args) && !args.peaks {
        Some(ConfigError::NoDetection)
    } else {
        None
    }
}

/// The loudness analyser, where the options ask for it.
pub open spec fn planned_loudness(args: &Cli, stream: &StreamInfo) -> Seq<DetectorModel> {
    if wants_loudness(args) {
        seq![DetectorModel::Loudness(loudness_start(args, stream))]
    } else {
        Seq::empty()
    }
}

/// The underrun detector, where the options ask for it.
pub open spec fn planned_underruns(args: &Cli, stream: &StreamInfo) -> Seq<DetectorModel> {
    if args.underrun {
        seq![
            DetectorModel::Underrun(
                UnderrunModel::initial(
                    stream.channels as nat,
                    stream.num_frames as nat,
                    args.samples as nat,
                ),
            ),
        ]
    } else {
        Seq::empty()
    }
}

/// The spectrogram, where the options ask for it. It has a raw sink where
/// the raw spectrogram is wanted and has a path.
pub open spec fn planned_fft(args: &Cli, stream: &StreamInfo, fft_path: Option<String>) -> Seq<
    DetectorModel,
> {
    if wants_fft(args) {
        seq![
            DetectorModel::Fft(
                FftModel::initial(
                    args.fft_bins as nat,
                    stream.channels as nat,
                    args.fft_framewise,
                    stream.num_frames as nat,
                    args.fft && fft_path is Some,
                    args.fft_vis is Some,
                ),
            ),
        ]
    } else {
        Seq::empty()
    }
}

/// The level map, where the options ask for it.
pub open spec fn planned_peaks(args: &Cli, stream: &StreamInfo) -> Seq<DetectorModel> {
    if args.peaks {
        seq![DetectorModel::Peaks(PeaksModel::initial(stream.channels as nat, stream.num_frames as nat))]
    } else {
        Seq::empty()
    }
}

/// The detectors of a run in the order of their registration: loudness,
/// underruns, spectrogram, level map, each where the options ask for it.
pub open spec fn planned(args: &Cli, stream: &StreamInfo, fft_path: Option<String>) -> Seq<
    DetectorModel,
> {
    planned_loudness(args, stream) + planned_underruns(args, stream) + planned_fft(
        args,
        stream,
        fft_path,
    ) + planned_peaks(args, stream)
}

/// Whether every detector is ready for the first frame of the stream.
pub open spec fn at_start(detectors: Seq<Detector>, stream: &StreamInfo) -> bool {
    forall|i: int|
        0 <= i < detectors.len() ==> {
            &&& (#[trigger] detectors[i]).inv()
            &&& detectors[i]@.wf()
            &&& detectors[i]@.frames_seen() == 0
            &&& detectors[i]@.num_frames() == stream.num_frames
            &&& detectors[i]@.channels() == stream.channels
        }
}

/// Adds a detector to those of a run.
fn register(analysers: &mut Vec<Detector>, detector: Detector, stream: &StreamInfo)
    requires
        at_start(old(analysers)@, stream),
        detector.inv(),
        detector@.wf(),
        detector@.frames_seen() == 0,
        detector@.num_frames() == stream.num_frames,
        detector@.channels() == stream.channels,
    ensures
        at_start(final(analysers)@, stream),
        models(final(analysers)@) == models(old(analysers)@) + seq![detector@],
{
    analysers.push(detector);
    assert(models(analysers@) =~= models(old(analysers)@) + seq![detector@]);
}

/// The abstract state of the pipeline.
pub struct PipelineModel {
    /// The detectors in the order of their registration.
    pub detectors: Seq<DetectorModel>,
    /// Samples per frame.
    pub channels: nat,
    /// Length of the stream.
    pub num_frames: nat,
    /// Frames handed out so far: the index of the frame that comes next.
    pub frames_seen: nat,
    /// Whether the stream has ended. There is no way back.
    pub finished: bool,
}

impl PipelineModel {
    /// While the stream runs, every detector is at the same frame of the
    /// same stream as the pipeline. After its end every detector can report.
    pub open spec fn wf(self) -> bool {
        &&& self.frames_seen <= self.num_frames <= usize::MAX
        &&& !self.finished ==> forall|i: int|
            0 <= i < self.detectors.len() ==> {
                &&& (#[trigger] self.detectors[i]).wf()
                &&& self.detectors[i].frames_seen() == self.frames_seen
                &&& self.detectors[i].num_frames() == self.num_frames
                &&& self.detectors[i].channels() == self.channels
            }
        &&& self.finished ==> forall|i: int|
            0 <= i < self.detectors.len() ==> (#[trigger] self.detectors[i]).reportable()
                && self.detectors[i].closed()
    }

    /// Whether `next` is this pipeline after the frame `frame`: every
    /// detector took the frame, once, at the index `frames_seen`.
    pub open spec fn advanced(self, frame: Seq<i32>, next: PipelineModel) -> bool {
        &&& !self.finished && !next.finished
        &&& next.frames_seen == self.frames_seen + 1
        &&& next.num_frames == self.num_frames
        &&& next.channels == self.channels
        &&& next.detectors.len() == self.detectors.len()
        &&& forall|i: int|
            0 <= i < self.detectors.len() ==> (#[trigger] self.detectors[i]).stepped(
                frame,
                next.detectors[i],
            )
    }

    /// Whether `events` holds, detector by detector, what was told at the
    /// step from this state to `next`.
    pub open spec fn told(self, frame: Seq<i32>, next: PipelineModel, events: Seq<Vec<Event>>) -> bool {
        &&& events.len() == self.detectors.len()
        &&& forall|i: int|
            0 <= i < self.detectors.len() ==> (#[trigger] self.detectors[i]).emitted(
                frame,
                next.detectors[i],
                events[i]@,
            )
    }

    /// Whether `next` is this pipeline after the end of the stream.
    pub open spec fn ended(self, next: PipelineModel) -> bool {
        &&& !self.finished && next.finished
        &&& next.frames_seen == self.frames_seen
        &&& next.num_frames == self.num_frames
        &&& next.channels == self.channels
        &&& next.detectors.len() == self.detectors.len()
        &&& forall|i: int|
            0 <= i < self.detectors.len() ==> (#[trigger] self.detectors[i]).ended(
                next.detectors[i],
            )
    }

    /// Whether `events` holds, detector by detector, what was told at the
    /// end of the stream.
    pub open spec fn told_at_end(self, next: PipelineModel, events: Seq<Vec<Event>>) -> bool {
        &&& events.len() == self.detectors.len()
        &&& forall|i: int|
            0 <= i < self.detectors.len() ==> (#[trigger] self.detectors[i]).closing(
                next.detectors[i],
                events[i]@,
            )
    }

    /// The status bytes of the first `upto` detectors, OR-ed together.
    pub open spec fn combined(self, upto: int) -> u8
        decreases upto,
    {
        if upto <= 0 {
            0
        } else {
            self.combined(upto - 1) | self.detectors[upto - 1].status()
        }
    }

    /// The status byte of the run.
    pub open spec fn status(self) -> u8 {
        self.combined(self.detectors.len() as int)
    }

    /// Whether `trace` leads from this pipeline to `next` frame by frame:
    /// it begins here, ends there, and each of its states follows from the
    /// one before by the next frame of `frames`.
    pub open spec fn follows(
        self,
        frames: Seq<Seq<i32>>,
        trace: Seq<PipelineModel>,
        next: PipelineModel,
    ) -> bool {
        &&& trace.len() == frames.len() + 1
        &&& trace[0] == self
        &&& trace.last() == next
        &&& forall|k: int|
            0 <= k < frames.len() ==> (#[trigger] trace[k]).advanced(frames[k], trace[k + 1])
    }

    /// Whether `next` is this pipeline after the frames `frames`, each
    /// handed to every detector once, first to last.
    pub open spec fn fed(self, frames: Seq<Seq<i32>>, next: PipelineModel) -> bool {
        exists|trace: Seq<PipelineModel>| #[trigger] self.follows(frames, trace, next)
    }

    /// Whether `next` is this pipeline after the frames `frames`, and
    /// `events` holds, frame by frame and detector by detector, what was
    /// told on the way.
    pub open spec fn fed_telling(
        self,
        frames: Seq<Seq<i32>>,
        next: PipelineModel,
        events: Seq<Vec<Vec<Event>>>,
    ) -> bool {
        exists|trace: Seq<PipelineModel>| #[trigger]
            self.follows(frames, trace, next) && told_along(frames, trace, events)
    }
}

/// Whether `events` holds, frame by frame and detector by detector, what
/// was told along the trace.
pub open spec fn told_along(
    frames: Seq<Seq<i32>>,
    trace: Seq<PipelineModel>,
    events: Seq<Vec<Vec<Event>>>,
) -> bool {
    &&& events.len() == frames.len()
    &&& forall|k: int|
        0 <= k < frames.len() ==> (#[trigger] trace[k]).told(frames[k], trace[k + 1], events[k]@)
}

/// The index of the first spectrogram among the detectors, or their number
/// if there is none.
pub open spec fn first_fft(detectors: Seq<DetectorModel>) -> int
    decreases detectors.len(),
{
    if detectors.len() == 0 {
        0
    } else if detectors[0] is Fft {
        0
    } else {
        1 + first_fft(detectors.skip(1))
    }
}

/// `first_fft` finds the first spectrogram: no detector before it is one,
/// and it is one, unless there is none.
pub proof fn lemma_first_fft(detectors: Seq<DetectorModel>)
    ensures
        0 <= first_fft(detectors) <= detectors.len(),
        forall|k: int| 0 <= k < first_fft(detectors) ==> !((#[trigger] detectors[k]) is Fft),
        first_fft(detectors) < detectors.len() ==> detectors[first_fft(detectors)] is Fft,
    decreases detectors.len(),
{
    if detectors.len() > 0 && !(detectors[0] is Fft) {
        let rest = detectors.skip(1);
        lemma_first_fft(rest);
        assert forall|k: int| 0 <= k < first_fft(detectors) implies !((#[trigger] detectors[k])
            is Fft) by {
            if k > 0 {
                assert(rest[k - 1] == detectors[k]);
            }
        }
        if first_fft(detectors) < detectors.len() {
            assert(rest[first_fft(rest)] == detectors[first_fft(detectors)]);
        }
    }
}

/// The frames of a stream as sequences.
pub open spec fn frames_view(frames: &Vec<Vec<i32>>) -> Seq<Seq<i32>> {
    Seq::new(frames@.len(), |k: int| frames@[k]@)
}

/// The views of the detectors.
pub open spec fn models(detectors: Seq<Detector>) -> Seq<DetectorModel> {
    Seq::new(detectors.len(), |i: int| detectors[i]@)
}

/// The driver of one run.
pub struct Pipeline {
    analysers: Vec<Detector>,
    channels: usize,
    num_frames: usize,
    frames_seen: usize,
    finished: bool,
}

impl View for Pipeline {
    type V = PipelineModel;

    closed spec fn view(&self) -> PipelineModel {
        PipelineModel {
            detectors: models(self.analysers@),
            channels: self.channels as nat,
            num_frames: self.num_frames as nat,
            frames_seen: self.frames_seen as nat,
            finished: self.finished,
        }
    }
}

impl Pipeline {
    /// What of the pipeline's state its view does not show.
    pub closed spec fn inv(&self) -> bool {
        forall|i: int| 0 <= i < self.analysers@.len() ==> (#[trigger] self.analysers@[i]).inv()
    }

    /// The pipeline of a run with the options `args` on a stream as
    /// `stream` describes it, where `fft_path` and `peaks_path` are the
    /// paths found for the raw spectrogram and the level map.
    pub fn assemble(
        args: &Cli,
        stream: &StreamInfo,
        fft_path: Option<String>,
        peaks_path: Option<String>,
    ) -> (r: Result<Pipeline, ConfigError>)
        ensures
            match r {
                Ok(p) => {
                    &&& config_error(args, stream, fft_path, peaks_path) is None
                    &&& p@.wf()
                    &&& p.inv()
                    &&& p@.detectors == planned(args, stream, fft_path)
                    &&& p@.channels == stream.channels
                    &&& p@.num_frames == stream.num_frames
                    &&& p@.frames_seen == 0
                    &&& !p@.finished
                },
                Err(e) => config_error(args, stream, fft_path, peaks_path) == Some(e),
            },
    {
        let mut analysers: Vec<Detector> = Vec::new();
        assert(models(analysers@) =~= Seq::<DetectorModel>::empty());
        if args.silence || args.loudness {
            match LoudnessAnalyser::new(args, stream) {
                Ok(a) => {
                    register(&mut analysers, Detector::Loudness(a), stream);
                },
                Err(e) => {
                    return Err(ConfigError::Loudness(e));
                },
            }
        }
        assert(models(analysers@) =~= planned_loudness(args, stream));
        if args.underrun {
            register(&mut analysers, Detector::Underrun(UnderrunAnalyser::new(args, stream)), stream);
        }
        assert(models(analysers@) =~= planned_loudness(args, stream) + planned_underruns(
            args,
            stream,
        ));
        if args.fft || args.fft_vis.is_some() {
            let path = if args.fft {
                fft_path
            } else {
                None
            };
            if args.fft && path.is_none() {
                return Err(ConfigError::NoFftPath);
            }
            if !FftAnalyser::supports(args.fft_bins, stream.channels) {
                return Err(ConfigError::FftSize);
            }
            register(&mut analysers, Detector::Fft(FftAnalyser::new(args, stream, path)), stream);
        }
        assert(models(analysers@) =~= planned_loudness(args, stream) + planned_underruns(
            args,
            stream,
        ) + planned_fft(args, stream, fft_path));
        if args.peaks {
            match peaks_path {
                Some(path) => {
                    register(
                        &mut analysers,
                        Detector::Peaks(PeaksAnalyzer::new(args, stream, path)),
                        stream,
                    );
                },
                None => {
                    return Err(ConfigError::NoPeaksPath);
                },
            }
        }
        assert(models(analysers@) =~= planned(args, stream, fft_path));
        if analysers.len() == 0 {
            return Err(ConfigError::NoDetection);
        }
        Ok(Pipeline::started(analysers, stream))
    }

    /// The pipeline of detectors that are ready for the first frame.
    fn started(analysers: Vec<Detector>, stream: &StreamInfo) -> (p: Pipeline)
        requires
            at_start(analysers@, stream),
        ensures
            p@.wf(),
            p.inv(),
            p@.detectors == models(analysers@),
            p@.channels == stream.channels,
            p@.num_frames == stream.num_frames,
            p@.frames_seen == 0,
            !p@.finished,
    {
        Pipeline {
            analysers,
            channels: stream.channels as usize,
            num_frames: stream.num_frames,
            frames_seen: 0,
            finished: false,
        }
    }

    /// The pipeline of a run with the options `args`. The pictures go where
    /// the options say, or beside the report.
    pub fn new(args: &Cli, stream: &StreamInfo) -> (r: Result<Pipeline, ConfigError>)
        ensures
            r matches Ok(p) ==> {
                &&& p@.wf()
                &&& p.inv()
                &&& !p@.finished
                &&& p@.frames_seen == 0
                &&& p@.channels == stream.channels
                &&& p@.num_frames == stream.num_frames
                &&& exists|fft_path: Option<String>| p@.detectors == #[trigger] planned(args, stream, fft_path)
            },
            r matches Err(ConfigError::NoFftPath) ==> args.fft && args.fft_file is None,
            r matches Err(ConfigError::NoPeaksPath) ==> args.peaks && args.peaks_file is None,
            r matches Err(ConfigError::NoDetection) ==> !wants_loudness(args) && !args.underrun
                && !wants_fft(args) && !args.peaks,
            r matches Err(ConfigError::Loudness(e)) ==> wants_loudness(args) && loudness_error(
                args,
                stream,
            ) == Some(e),
            r matches Err(ConfigError::FftSize) ==> wants_fft(args) && !spec_supports(
                args.fft_bins,
                stream.channels,
            ),
            wants_loudness(args) && loudness_error(args, stream) is Some ==> r is Err,
            !wants_loudness(args) && !args.underrun && !wants_fft(args) && !args.peaks ==> r
                is Err,
            args.fft && args.fft_file is None && args.json is None ==> r is Err,
            args.peaks && args.peaks_file is None && args.json is None ==> r is Err,
            wants_fft(args) && !spec_supports(args.fft_bins, stream.channels) ==> r is Err,
    {
        let fft_path = if args.fft {
            calculate_png_path(&args.json, &args.fft_file, "fft")
        } else {
            None
        };
        let peaks_path = if args.peaks {
            calculate_png_path(&args.json, &args.peaks_file, "peaks")
        } else {
            None
        };
        Pipeline::assemble(args, stream, fft_path, peaks_path)
    }

    /// Frames handed out so far.
    pub fn frames_seen(&self) -> (r: usize)
        ensures
            r == self@.frames_seen,
    {
        self.frames_seen
    }

    /// Length of the stream, as announced.
    pub fn num_frames(&self) -> (r: usize)
        ensures
            r == self@.num_frames,
    {
        self.num_frames
    }

    /// Samples per frame.
    pub fn channels(&self) -> (r: usize)
        ensures
            r == self@.channels,
    {
        self.channels
    }

    /// Whether the stream has ended.
    pub fn finished(&self) -> (r: bool)
        ensures
            r == self@.finished,
    {
        self.finished
    }

    /// The detectors in the order of their registration.
    pub closed spec fn spec_detectors(&self) -> Seq<Detector> {
        self.analysers@
    }

    /// The detectors in the order of their registration.
    pub fn detectors(&self) -> (r: &Vec<Detector>)
        ensures
            r@ == self.spec_detectors(),
            models(r@) == self@.detectors,
    {
        &self.analysers
    }

    /// Hands the next frame of the stream to every detector, in the order
    /// of their registration, and returns what each of them tells.
    pub fn analyse(&mut self, frame: &[i32]) -> (events: Vec<Vec<Event>>)
        requires
            old(self)@.wf(),
            old(self).inv(),
            !old(self)@.finished,
            old(self)@.frames_seen < old(self)@.num_frames,
            frame@.len() == old(self)@.channels,
        ensures
            final(self)@.wf(),
            final(self).inv(),
            old(self)@.advanced(frame@, final(self)@),
            old(self)@.told(frame@, final(self)@, events@),
    {
        let frame_counter = self.frames_seen;
        let mut events: Vec<Vec<Event>> = Vec::new();
        let mut i: usize = 0;
        while i < self.analysers.len()
            invariant
                i <= self.analysers@.len(),
                self.analysers@.len() == old(self).analysers@.len(),
                self.channels == old(self).channels,
                self.num_frames == old(self).num_frames,
                self.frames_seen == old(self).frames_seen,
                self.finished == old(self).finished,
                !self.finished,
                frame_counter == self.frames_seen,
                frame_counter < self.num_frames,
                frame@.len() == self.channels,
                old(self)@.wf(),
                events@.len() == i,
                forall|k: int|
                    i <= k < self.analysers@.len() ==> (#[trigger] self.analysers@[k])
                        == old(self).analysers@[k],
                forall|k: int| 0 <= k < self.analysers@.len() ==> (#[trigger] self.analysers@[k]).inv(),
                forall|k: int|
                    0 <= k < i ==> {
                        &&& (#[trigger] self.analysers@[k])@.wf()
                        &&& self.analysers@[k]@.frames_seen() == frame_counter + 1
                        &&& self.analysers@[k]@.num_frames() == self.num_frames
                        &&& self.analysers@[k]@.channels() == self.channels
                        &&& old(self).analysers@[k]@.stepped(frame@, self.analysers@[k]@)
                        &&& old(self).analysers@[k]@.emitted(
                            frame@,
                            self.analysers@[k]@,
                            events@[k]@,
                        )
                    },
            decreases self.analysers@.len() - i,
        {
            assert(old(self)@.detectors[i as int] == old(self).analysers@[i as int]@);
            let detector = &mut self.analysers[i];
            let told = detector.analyse(frame_counter, frame);
            events.push(told);
            i += 1;
        }
        self.frames_seen = frame_counter + 1;
        proof {
            assert forall|k: int| 0 <= k < old(self)@.detectors.len() implies (
            #[trigger] old(self)@.detectors[k]).stepped(frame@, self@.detectors[k]) by {
                assert(old(self).analysers@[k]@.stepped(frame@, self.analysers@[k]@));
            }
            assert forall|k: int| 0 <= k < old(self)@.detectors.len() implies (
            #[trigger] old(self)@.detectors[k]).emitted(frame@, self@.detectors[k], events@[k]@) by {
                assert(old(self).analysers@[k]@.emitted(frame@, self.analysers@[k]@, events@[k]@));
            }
            assert forall|k: int| 0 <= k < self@.detectors.len() implies {
                &&& (#[trigger] self@.detectors[k]).wf()
                &&& self@.detectors[k].frames_seen() == self@.frames_seen
                &&& self@.detectors[k].num_frames() == self@.num_frames
                &&& self@.detectors[k].channels() == self@.channels
            } by {
                assert(self.analysers@[k]@.wf());
            }
        }
        events
    }

    /// Ends the stream: every detector is ended once, in the order of their
    /// registration. Returns the status byte of the run, the status bytes
    /// of the detectors OR-ed together, and what each detector tells.
    pub fn finish(&mut self) -> (r: (u8, Vec<Vec<Event>>))
        requires
            old(self)@.wf(),
            old(self).inv(),
            !old(self)@.finished,
        ensures
            final(self)@.wf(),
            final(self).inv(),
            old(self)@.ended(final(self)@),
            old(self)@.told_at_end(final(self)@, r.1@),
            r.0 == old(self)@.status(),
    {
        let mut return_code: u8 = 0;
        let mut events: Vec<Vec<Event>> = Vec::new();
        let mut i: usize = 0;
        while i < self.analysers.len()
            invariant
                i <= self.analysers@.len(),
                self.analysers@.len() == old(self).analysers@.len(),
                self.channels == old(self).channels,
                self.num_frames == old(self).num_frames,
                self.frames_seen == old(self).frames_seen,
                self.finished == old(self).finished,
                !self.finished,
                old(self)@.wf(),
                events@.len() == i,
                return_code == old(self)@.combined(i as int),
                forall|k: int|
                    i <= k < self.analysers@.len() ==> (#[trigger] self.analysers@[k])
                        == old(self).analysers@[k],
                forall|k: int| 0 <= k < self.analysers@.len() ==> (#[trigger] self.analysers@[k]).inv(),
                forall|k: int|
                    0 <= k < i ==> {
                        &&& (#[trigger] self.analysers@[k])@.reportable()
                        &&& self.analysers@[k]@.closed()
                        &&& old(self).analysers@[k]@.ended(self.analysers@[k]@)
                        &&& old(self).analysers@[k]@.closing(self.analysers@[k]@, events@[k]@)
                    },
            decreases self.analysers@.len() - i,
        {
            assert(old(self)@.detectors[i as int] == old(self).analysers@[i as int]@);
            let detector = &mut self.analysers[i];
            let (status, told) = detector.finish();
            return_code |= status;
            events.push(told);
            i += 1;
        }
        self.finished = true;
        proof {
            assert forall|k: int| 0 <= k < old(self)@.detectors.len() implies (
            #[trigger] old(self)@.detectors[k]).ended(self@.detectors[k]) by {
                assert(old(self).analysers@[k]@.ended(self.analysers@[k]@));
            }
            assert forall|k: int| 0 <= k < old(self)@.detectors.len() implies (
            #[trigger] old(self)@.detectors[k]).closing(self@.detectors[k], events@[k]@) by {
                assert(old(self).analysers@[k]@.closing(self.analysers@[k]@, events@[k]@));
            }
            assert forall|k: int| 0 <= k < self@.detectors.len() implies (
            #[trigger] self@.detectors[k]).reportable() && self@.detectors[k].closed() by {
                assert(self.analysers@[k]@.reportable());
            }
        }
        (return_code, events)
    }

    /// Hands the frames of a stream to every detector, first to last, and
    /// returns, frame by frame, what each detector tells.
    pub fn run(&mut self, frames: &Vec<Vec<i32>>) -> (events: Vec<Vec<Vec<Event>>>)
        requires
            old(self)@.wf(),
            old(self).inv(),
            !old(self)@.finished,
            old(self)@.frames_seen + frames@.len() <= old(self)@.num_frames,
            forall|k: int| 0 <= k < frames@.len() ==> (#[trigger] frames@[k])@.len() == old(self)@.channels,
        ensures
            final(self)@.wf(),
            final(self).inv(),
            !final(self)@.finished,
            final(self)@.frames_seen == old(self)@.frames_seen + frames@.len(),
            old(self)@.fed(frames_view(frames), final(self)@),
            old(self)@.fed_telling(frames_view(frames), final(self)@, events@),
            events@.len() == frames@.len(),
    {
        let mut events: Vec<Vec<Vec<Event>>> = Vec::new();
        let ghost mut trace: Seq<PipelineModel> = seq![self@];
        let mut k: usize = 0;
        while k < frames.len()
            invariant
                k <= frames@.len(),
                self@.wf(),
                self.inv(),
                !self@.finished,
                self@.frames_seen == old(self)@.frames_seen + k,
                self@.num_frames == old(self)@.num_frames,
                self@.channels == old(self)@.channels,
                old(self)@.frames_seen + frames@.len() <= old(self)@.num_frames,
                forall|j: int| 0 <= j < frames@.len() ==> (#[trigger] frames@[j])@.len() == old(self)@.channels,
                events@.len() == k,
                old(self)@.follows(frames_view(frames).take(k as int), trace, self@),
                told_along(frames_view(frames).take(k as int), trace, events@),
            decreases frames@.len() - k,
        {
            let ghost before = self@;
            let ghost earlier = trace;
            let ghost heard = events@;
            let frame = &frames[k];
            let told = self.analyse(frame.as_slice());
            events.push(told);
            proof {
                trace = earlier.push(self@);
                let taken = frames_view(frames).take(k + 1);
                assert(taken[k as int] == frame@);
                assert forall|j: int| 0 <= j < taken.len() implies (#[trigger] trace[j]).told(
                    taken[j],
                    trace[j + 1],
                    events@[j]@,
                ) by {
                    if j < k {
                        assert(trace[j] == earlier[j]);
                        assert(trace[j + 1] == earlier[j + 1]);
                        assert(frames_view(frames).take(k as int)[j] == taken[j]);
                        assert(events@[j] == heard[j]);
                        assert(earlier[j].told(
                            frames_view(frames).take(k as int)[j],
                            earlier[j + 1],
                            heard[j]@,
                        ));
                    } else {
                        assert(trace[j] == before);
                    }
                }
                assert forall|j: int| 0 <= j < taken.len() implies (#[trigger] trace[j]).advanced(
                    taken[j],
                    trace[j + 1],
                ) by {
                    if j < k {
                        assert(trace[j] == earlier[j]);
                        assert(trace[j + 1] == earlier[j + 1]);
                        assert(frames_view(frames).take(k as int)[j] == taken[j]);
                        assert(earlier[j].advanced(frames_view(frames).take(k as int)[j], earlier[j + 1]));
                    } else {
                        assert(trace[j] == before);
                    }
                }
            }
            k += 1;
        }
        proof {
            assert(frames_view(frames).take(frames@.len() as int) =~= frames_view(frames));
        }
        events
    }

    /// Hands time slices from the spectral transform to the spectrogram:
    /// `spectra[c][s]` holds the values of channel `c` in time slice `s`.
    /// They are taken unless there is no spectrogram or they have the wrong
    /// shape; no other detector changes.
    pub fn accept(&mut self, spectra: &Vec<Vec<Vec<Level>>>) -> (taken: bool)
        requires
            old(self)@.wf(),
            old(self).inv(),
        ensures
            final(self)@.wf(),
            final(self).inv(),
            final(self)@.frames_seen == old(self)@.frames_seen,
            final(self)@.num_frames == old(self)@.num_frames,
            final(self)@.channels == old(self)@.channels,
            final(self)@.finished == old(self)@.finished,
            ({
                let at = first_fft(old(self)@.detectors);
                if at < old(self)@.detectors.len() {
                    let fft = old(self)@.detectors[at]->Fft_0;
                    &&& taken == well_shaped(spectra_view(spectra), fft.channels, fft.bins())
                    &&& final(self)@.detectors == old(self)@.detectors.update(
                        at,
                        DetectorModel::Fft(
                            if taken {
                                fft.accepted(spectra_view(spectra))
                            } else {
                                fft
                            },
                        ),
                    )
                } else {
                    !taken && final(self)@.detectors == old(self)@.detectors
                }
            }),
    {
        proof {
            lemma_first_fft(self@.detectors);
        }
        let mut i: usize = 0;
        while i < self.analysers.len()
            invariant
                i <= self.analysers@.len(),
                *self == *old(self),
                old(self)@.wf(),
                old(self).inv(),
                i <= first_fft(self@.detectors) <= self@.detectors.len(),
                forall|k: int| 0 <= k < i ==> !((#[trigger] self@.detectors[k]) is Fft),
            decreases self.analysers@.len() - i,
        {
            proof {
                lemma_first_fft(self@.detectors);
                assert(self@.detectors[i as int] == self.analysers@[i as int]@);
            }
            let found = match &self.analysers[i] {
                Detector::Fft(_) => true,
                _ => false,
            };
            if found {
                proof {
                    if first_fft(old(self)@.detectors) > i {
                        assert(!(old(self)@.detectors[i as int] is Fft));
                    }
                    if !old(self)@.finished {
                        assert(old(self)@.detectors[i as int].wf());
                    } else {
                        assert(old(self)@.detectors[i as int].reportable());
                        assert(old(self)@.detectors[i as int].closed());
                    }
                }
                let taken = match &mut self.analysers[i] {
                    Detector::Fft(a) => a.accept(spectra),
                    _ => false,
                };
                proof {
                    assert(self@.detectors =~= old(self)@.detectors.update(
                        i as int,
                        self.analysers@[i as int]@,
                    ));
                    assert forall|k: int| 0 <= k < self.analysers@.len() implies (
                    #[trigger] self.analysers@[k]).inv() by {
                        if k != i {
                            assert(self.analysers@[k] == old(self).analysers@[k]);
                        }
                    }
                    assert forall|k: int| 0 <= k < self@.detectors.len() implies {
                        &&& !self@.finished ==> {
                            &&& (#[trigger] self@.detectors[k]).wf()
                            &&& self@.detectors[k].frames_seen() == self@.frames_seen
                            &&& self@.detectors[k].num_frames() == self@.num_frames
                            &&& self@.detectors[k].channels() == self@.channels
                        }
                        &&& self@.finished ==> self@.detectors[k].reportable()
                            && self@.detectors[k].closed()
                    } by {
                        if k != i {
                            assert(self@.detectors[k] == old(self)@.detectors[k]);
                        } else {
                            assert(old(self)@.detectors[i as int] == old(self).analysers@[i as int]@);
                        }
                    }
                }
                return taken;
            }
            proof {
                if first_fft(self@.detectors) == i {
                    assert(self@.detectors[first_fft(self@.detectors)] is Fft);
                }
            }
            i += 1;
        }
        false
    }

    /// The sections of the report, detector by detector in the order of
    /// their registration.
    pub fn json(&self) -> (sections: Vec<Vec<Section>>)
        requires
            self@.wf(),
            self.inv(),
        ensures
            sections@.len() == self@.detectors.len(),
            forall|i: int|
                0 <= i < sections@.len() ==> (#[trigger] self.spec_detectors()[i]).describes(
                    sections@[i]@,
                ),
    {
        let mut sections: Vec<Vec<Section>> = Vec::new();
        let mut i: usize = 0;
        while i < self.analysers.len()
            invariant
                i <= self.analysers@.len(),
                self@.wf(),
                self.inv(),
                sections@.len() == i,
                forall|k: int|
                    0 <= k < i ==> (#[trigger] self.analysers@[k]).describes(sections@[k]@),
            decreases self.analysers@.len() - i,
        {
            proof {
                assert(self@.detectors[i as int] == self.analysers@[i as int]@);
                if !self@.finished {
                    lemma_running_detector_reports(self@.detectors[i as int]);
                }
            }
            sections.push(self.analysers[i].json());
            i += 1;
        }
        sections
    }
}

/// What a run leaves behind.
pub struct Analysis {
    /// The status byte of the run.
    pub return_code: u8,
    /// What each detector told, frame by frame.
    pub events: Vec<Vec<Vec<Event>>>,
    /// What each detector told at the end of the stream.
    pub closing: Vec<Vec<Event>>,
    /// The report, where one is wanted and there is anything to report.
    pub report: Option<JsonOutput>,
    /// The pipeline after the end of the stream, with the sinks of its
    /// detectors.
    pub pipeline: Pipeline,
}

/// Whether `a` is what a run with the options `args` over the frames
/// `frames` leaves behind, by way of `begin` and `end`: `begin` holds the
/// detectors that the options ask for, before the first frame; `end` is what
/// the frames make of it, each handed to every detector once and in order;
/// the pipeline of `a` is `end` after every detector was ended; the events
/// are what the detectors told on the way and at the end, and the status is
/// that of `end`.
pub open spec fn ran(
    args: &Cli,
    stream: &StreamInfo,
    frames: Seq<Seq<i32>>,
    begin: PipelineModel,
    end: PipelineModel,
    a: Analysis,
) -> bool {
    &&& begin.frames_seen == 0
    &&& begin.num_frames == stream.num_frames
    &&& begin.channels == stream.channels
    &&& exists|fft_path: Option<String>| begin.detectors == #[trigger] planned(args, stream, fft_path)
    &&& begin.fed_telling(frames, end, a.events@)
    &&& end.ended(a.pipeline@)
    &&& end.told_at_end(a.pipeline@, a.closing@)
    &&& a.return_code == end.status()
}

/// One whole run: makes the detectors that the options ask for, hands them
/// every frame of the stream once and in order, ends them, and gathers the
/// status byte and the report.
pub fn analyse(args: &Cli, stream: &StreamInfo, frames: &Vec<Vec<i32>>) -> (r: Result<
    Analysis,
    ConfigError,
>)
    requires
        frames@.len() <= stream.num_frames,
        forall|k: int| 0 <= k < frames@.len() ==> (#[trigger] frames@[k])@.len() == stream.channels,
    ensures
        r matches Ok(a) ==> {
            &&& a.pipeline@.wf()
            &&& a.pipeline.inv()
            &&& a.events@.len() == frames@.len()
            &&& exists|begin: PipelineModel, end: PipelineModel| #[trigger]
                ran(args, stream, frames_view(frames), begin, end, a)
            &&& a.report is Some ==> args.json is Some
        },
        r matches Err(ConfigError::NoFftPath) ==> args.fft && args.fft_file is None,
        r matches Err(ConfigError::NoPeaksPath) ==> args.peaks && args.peaks_file is None,
        r matches Err(ConfigError::NoDetection) ==> !wants_loudness(args) && !args.underrun
            && !wants_fft(args) && !args.peaks,
        r matches Err(ConfigError::Loudness(e)) ==> wants_loudness(args) && loudness_error(
            args,
            stream,
        ) == Some(e),
        r matches Err(ConfigError::FftSize) ==> wants_fft(args) && !spec_supports(
            args.fft_bins,
            stream.channels,
        ),
        wants_loudness(args) && loudness_error(args, stream) is Some ==> r is Err,
        !wants_loudness(args) && !args.underrun && !wants_fft(args) && !args.peaks ==> r is Err,
        args.fft && args.fft_file is None && args.json is None ==> r is Err,
        args.peaks && args.peaks_file is None && args.json is None ==> r is Err,
        wants_fft(args) && !spec_supports(args.fft_bins, stream.channels) ==> r is Err,
{
    let mut pipeline = match Pipeline::new(args, stream) {
        Ok(p) => p,
        Err(e) => {
            return Err(e);
        },
    };
    let ghost begin = pipeline@;
    let events = pipeline.run(frames);
    let ghost end = pipeline@;
    let (return_code, closing) = pipeline.finish();
    let report = write_json(args, stream, pipeline.json());
    let a = Analysis { return_code, events, closing, report, pipeline };
    proof {
        assert(ran(args, stream, frames_view(frames), begin, end, a));
    }
    Ok(a)
}

/// A running detector can report.
pub proof fn lemma_running_detector_reports(d: DetectorModel)
    requires
        d.wf(),
    ensures
        d.reportable(),
{
    match d {
        DetectorModel::Loudness(m) => {
            crate::analysers::loudness::lemma_running_is_reportable(m);
        },
        _ => {},
    }
}

/// OR keeps each bit apart: a bit is set in `a | b` exactly where it is set
/// in `a` or in `b`.
proof fn lemma_or_bit(a: u8, b: u8, bit: u8)
    by (bit_vector)
    ensures
        (a | b) & bit == (a & bit) | (b & bit),
        (a | b) == 0 <==> a == 0 && b == 0,
        (a & bit) | (b & bit) == 0 <==> a & bit == 0 && b & bit == 0,
{
}

/// The two status bits do not overlap.
proof fn lemma_status_bits_apart()
    by (bit_vector)
    ensures
        0u8 & 1u8 == 0u8,
        0u8 & 2u8 == 0u8,
        1u8 & 1u8 == 1u8,
        1u8 & 2u8 == 0u8,
        2u8 & 1u8 == 0u8,
        2u8 & 2u8 == 2u8,
{
}

/// A detector returns no status bit or its own: the loudness analyser the
/// silence bit, the underrun detector the underrun bit.
pub proof fn lemma_detector_status(d: DetectorModel)
    ensures
        d.status() == 0 || d.status() == ERR_CONTAINS_UNDERRUN || d.status()
            == ERR_CONTAINS_SILENCE,
        d.status() == ERR_CONTAINS_UNDERRUN ==> d is Underrun,
        d.status() == ERR_CONTAINS_SILENCE ==> d is Loudness,
{
}

/// Status combination: a bit of the run's status byte is set exactly where
/// some detector returned it. So a run that found both too much silence and
/// an underrun has both bits set, and a run whose detectors all return 0
/// has the status 0.
pub proof fn lemma_status_combines(p: PipelineModel, upto: int)
    requires
        0 <= upto <= p.detectors.len(),
    ensures
        p.combined(upto) & ERR_CONTAINS_UNDERRUN != 0 <==> exists|i: int|
            0 <= i < upto && (#[trigger] p.detectors[i]).status() == ERR_CONTAINS_UNDERRUN,
        p.combined(upto) & ERR_CONTAINS_SILENCE != 0 <==> exists|i: int|
            0 <= i < upto && (#[trigger] p.detectors[i]).status() == ERR_CONTAINS_SILENCE,
        p.combined(upto) == 0 <==> forall|i: int|
            0 <= i < upto ==> (#[trigger] p.detectors[i]).status() == 0,
    decreases upto,
{
    lemma_status_bits_apart();
    if upto > 0 {
        lemma_status_combines(p, upto - 1);
        let before = p.combined(upto - 1);
        let last = p.detectors[upto - 1].status();
        lemma_detector_status(p.detectors[upto - 1]);
        lemma_or_bit(before, last, ERR_CONTAINS_UNDERRUN);
        lemma_or_bit(before, last, ERR_CONTAINS_SILENCE);
        if before & ERR_CONTAINS_UNDERRUN != 0 {
            let w = choose|i: int|
                0 <= i < upto - 1 && (#[trigger] p.detectors[i]).status() == ERR_CONTAINS_UNDERRUN;
            assert(0 <= w < upto && p.detectors[w].status() == ERR_CONTAINS_UNDERRUN);
        }
        if before & ERR_CONTAINS_SILENCE != 0 {
            let w = choose|i: int|
                0 <= i < upto - 1 && (#[trigger] p.detectors[i]).status() == ERR_CONTAINS_SILENCE;
            assert(0 <= w < upto && p.detectors[w].status() == ERR_CONTAINS_SILENCE);
        }
        if last == ERR_CONTAINS_UNDERRUN {
            assert(p.detectors[upto - 1].status() == ERR_CONTAINS_UNDERRUN);
        }
        if last == ERR_CONTAINS_SILENCE {
            assert(p.detectors[upto - 1].status() == ERR_CONTAINS_SILENCE);
        }
        if before == 0 && last == 0 {
            assert forall|i: int| 0 <= i < upto implies (#[trigger] p.detectors[i]).status() == 0 by {
                if i == upto - 1 {
                } else {
                    assert(p.detectors[i].status() == 0);
                }
            }
        }
    }
}

/// A run in which the loudness analyser found too much silence and the
/// underrun detector found an underrun has both bits in its status byte and
/// no other.
pub proof fn lemma_status_of_both(p: PipelineModel, silent: int, underrun: int)
    requires
        0 <= silent < p.detectors.len(),
        0 <= underrun < p.detectors.len(),
        p.detectors[silent].status() == ERR_CONTAINS_SILENCE,
        p.detectors[underrun].status() == ERR_CONTAINS_UNDERRUN,
    ensures
        p.status() == ERR_CONTAINS_SILENCE | ERR_CONTAINS_UNDERRUN,
        p.status() == 3,
{
    lemma_status_combines(p, p.detectors.len() as int);
    lemma_status_at_most_both(p, p.detectors.len() as int);
    let s = p.status();
    assert(s & 1 != 0 && s & 2 != 0 && s & 0xfc == 0 ==> s == 3 && (2u8 | 1u8) == 3u8)
        by (bit_vector);
}

/// No bit but the two status bits is ever set.
pub proof fn lemma_status_at_most_both(p: PipelineModel, upto: int)
    requires
        0 <= upto <= p.detectors.len(),
    ensures
        p.combined(upto) & 0xfc == 0,
    decreases upto,
{
    assert(0u8 & 0xfc == 0 && 1u8 & 0xfc == 0 && 2u8 & 0xfc == 0) by (bit_vector);
    if upto > 0 {
        lemma_status_at_most_both(p, upto - 1);
        lemma_detector_status(p.detectors[upto - 1]);
        lemma_or_bit(p.combined(upto - 1), p.detectors[upto - 1].status(), 0xfc);
    }
}

/// Along a trace the index of the next frame goes up by one with each frame
/// and the detectors stay the same in number; an underrun detector ends in
/// the state that the frames make of its state at the beginning, taken one
/// by one in their order.
pub proof fn lemma_trace(
    start: PipelineModel,
    frames: Seq<Seq<i32>>,
    trace: Seq<PipelineModel>,
    next: PipelineModel,
)
    requires
        start.follows(frames, trace, next),
    ensures
        next.detectors.len() == start.detectors.len(),
        next.frames_seen == start.frames_seen + frames.len(),
        next.num_frames == start.num_frames,
        next.channels == start.channels,
        forall|i: int|
            0 <= i < start.detectors.len() && (#[trigger] start.detectors[i]) is Underrun
                ==> next.detectors[i] == DetectorModel::Underrun(
                start.detectors[i]->Underrun_0.feed(frames),
            ),
    decreases frames.len(),
{
    if frames.len() > 0 {
        let front = frames.drop_last();
        let shorter = trace.drop_last();
        let middle = trace[trace.len() - 2];
        assert(start.follows(front, shorter, middle)) by {
            assert forall|k: int| 0 <= k < front.len() implies (#[trigger] shorter[k]).advanced(
                front[k],
                shorter[k + 1],
            ) by {
                assert(trace[k].advanced(frames[k], trace[k + 1]));
            }
        }
        lemma_trace(start, front, shorter, middle);
        let last = frames.len() - 1;
        assert(trace[last].advanced(frames[last], trace[last + 1]));
        assert forall|i: int|
            0 <= i < start.detectors.len() && (#[trigger] start.detectors[i])
                is Underrun implies next.detectors[i] == DetectorModel::Underrun(
            start.detectors[i]->Underrun_0.feed(frames),
        ) by {
            assert(middle.detectors[i].stepped(frames[last], next.detectors[i]));
        }
    }
}

/// Single pass, exact coverage: after a run over the frames of a stream
/// every detector has taken each frame once, in the order of the stream.
/// The index of the next frame has gone up by the number of frames, and an
/// underrun detector is in the state that the frames make of its state
/// before, taken one by one in their order.
pub proof fn lemma_single_pass(start: PipelineModel, frames: Seq<Seq<i32>>, next: PipelineModel)
    requires
        start.fed(frames, next),
    ensures
        next.detectors.len() == start.detectors.len(),
        next.frames_seen == start.frames_seen + frames.len(),
        forall|i: int|
            0 <= i < start.detectors.len() && (#[trigger] start.detectors[i]) is Underrun
                ==> next.detectors[i] == DetectorModel::Underrun(
                start.detectors[i]->Underrun_0.feed(frames),
            ),
{
    let trace = choose|trace: Seq<PipelineModel>| #[trigger] start.follows(frames, trace, next);
    lemma_trace(start, frames, trace, next);
}

} // verus!
