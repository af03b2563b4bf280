//! The detectors. Each consumes the frames of one stream in order, keeps its
//! own running state, and reports at the end of the stream.

pub mod fft;
pub mod loudness;
pub mod meter;
pub mod peaks;
pub mod underruns;

use vstd::prelude::*;
use crate::analysers::fft::FftAnalyser;
use crate::analysers::fft::FftModel;
use crate::analysers::fft::FftReport;
use crate::analysers::fft::signals_view;
use crate::analysers::loudness::Edge;
use crate::analysers::loudness::LoudnessAnalyser;
use crate::analysers::loudness::LoudnessModel;
use crate::analysers::loudness::LoudnessSection;
use crate::analysers::loudness::SilenceEvent;
use crate::analysers::loudness::SilenceSection;
use crate::analysers::peaks::PeaksAnalyzer;
use crate::analysers::peaks::PeaksModel;
use crate::analysers::peaks::PeaksReport;
use crate::analysers::underruns::UnderrunAnalyser;
use crate::analysers::underruns::UnderrunModel;
use crate::analysers::underruns::UnderrunReport;
use crate::analysers::underruns::lemma_step_keeps_channels;
use crate::segment::Segment;
use crate::segment::all_closed;

verus! {

/// What a detector tells while the stream runs.
#[derive(Debug)]
pub enum Event {
    /// An underrun ended.
    Underrun(Segment),
    /// A passage of silence began or ended.
    Silence(SilenceEvent),
    /// Samples are handed out for the spectral transform, one list per
    /// channel.
    Transform(Vec<Vec<i32>>),
}

/// One named section of the report.
#[derive(Debug)]
pub enum Section {
    Loudness(LoudnessSection),
    Silence(SilenceSection),
    Underruns(UnderrunReport),
    Fft(FftReport),
    Peaks(PeaksReport),
}

/// The kinds of section. A report holds at most one of each.
#[derive(Clone, Copy, Debug, PartialEq, Eq, Structural)]
pub enum SectionKind {
    Loudness,
    Silence,
    Underruns,
    Fft,
    Peaks,
}

/// The kind of a section.
pub open spec fn spec_kind(section: Section) -> SectionKind {
    match section {
        Section::Loudness(_) => SectionKind::Loudness,
        Section::Silence(_) => SectionKind::Silence,
        Section::Underruns(_) => SectionKind::Underruns,
        Section::Fft(_) => SectionKind::Fft,
        Section::Peaks(_) => SectionKind::Peaks,
    }
}

/// The key of a section in the report.
pub open spec fn spec_key(section: Section) -> Seq<char> {
    match section {
        Section::Loudness(_) => "loudness"@,
        Section::Silence(_) => "silence"@,
        Section::Underruns(_) => "underruns"@,
        Section::Fft(_) => "fft"@,
        Section::Peaks(_) => "peaks"@,
    }
}

impl Section {
    /// The kind of the section.
    pub fn kind(&self) -> (r: SectionKind)
        ensures
            r == spec_kind(*self),
    {
        match self {
            Section::Loudness(_) => SectionKind::Loudness,
            Section::Silence(_) => SectionKind::Silence,
            Section::Underruns(_) => SectionKind::Underruns,
            Section::Fft(_) => SectionKind::Fft,
            Section::Peaks(_) => SectionKind::Peaks,
        }
    }

    /// The key of the section in the report.
    pub fn key(&self) -> (r: &'static str)
        ensures
            r@ == spec_key(*self),
    {
        match self {
            Section::Loudness(_) => "loudness",
            Section::Silence(_) => "silence",
            Section::Underruns(_) => "underruns",
            Section::Fft(_) => "fft",
            Section::Peaks(_) => "peaks",
        }
    }
}

/// A detector of the closed set that a pipeline is made of.
pub enum Detector {
    Loudness(LoudnessAnalyser),
    Underrun(UnderrunAnalyser),
    Fft(FftAnalyser),
    Peaks(PeaksAnalyzer),
}

/// The abstract state of a detector.
pub enum DetectorModel {
    Loudness(LoudnessModel),
    Underrun(UnderrunModel),
    Fft(FftModel),
    Peaks(PeaksModel),
}

impl DetectorModel {
    /// The invariant of the running detector.
    pub open spec fn wf(self) -> bool {
        match self {
            DetectorModel::Loudness(m) => m.wf(),
            DetectorModel::Underrun(m) => m.wf(),
            DetectorModel::Fft(m) => m.wf(),
            DetectorModel::Peaks(m) => m.wf(),
        }
    }

    /// Frames taken so far: the index of the frame that comes next.
    pub open spec fn frames_seen(self) -> nat {
        match self {
            DetectorModel::Loudness(m) => m.frames_seen,
            DetectorModel::Underrun(m) => m.frames_seen,
            DetectorModel::Fft(m) => m.frames_seen,
            DetectorModel::Peaks(m) => m.frames_seen,
        }
    }

    /// Length of the stream.
    pub open spec fn num_frames(self) -> nat {
        match self {
            DetectorModel::Loudness(m) => m.num_frames,
            DetectorModel::Underrun(m) => m.num_frames,
            DetectorModel::Fft(m) => m.num_frames,
            DetectorModel::Peaks(m) => m.num_frames,
        }
    }

    /// Samples per frame.
    pub open spec fn channels(self) -> nat {
        match self {
            DetectorModel::Loudness(m) => m.channels,
            DetectorModel::Underrun(m) => m.runs.len(),
            DetectorModel::Fft(m) => m.channels,
            DetectorModel::Peaks(m) => m.channels,
        }
    }

    /// Whether `next` is this detector after the frame `frame`. The state
    /// of the loudness detector depends on what the meter measured, which
    /// `next` records; the other detectors have one next state.
    pub open spec fn stepped(self, frame: Seq<i32>, next: DetectorModel) -> bool {
        match (self, next) {
            (DetectorModel::Loudness(m), DetectorModel::Loudness(n)) => n == m.step(
                frame,
                n.last_measured(),
            ),
            (DetectorModel::Underrun(m), DetectorModel::Underrun(n)) => n == m.step(frame),
            (DetectorModel::Fft(m), DetectorModel::Fft(n)) => n == m.step(frame),
            (DetectorModel::Peaks(m), DetectorModel::Peaks(n)) => n == m.step(frame),
            _ => false,
        }
    }

    /// Whether `events` is what the detector tells at the step from this
    /// state to `next`.
    pub open spec fn emitted(self, frame: Seq<i32>, next: DetectorModel, events: Seq<Event>) -> bool {
        match (self, next) {
            (DetectorModel::Loudness(m), DetectorModel::Loudness(n)) => {
                let edge = m.step_edge(n.last_measured());
                if edge == Edge::Steady {
                    events.len() == 0
                } else {
                    &&& events.len() == 1
                    &&& events[0] matches Event::Silence(e)
                    &&& e.edge == edge
                    &&& e.frame == m.frames_seen
                    &&& e.short_term == n.last_measured()
                    &&& e.total_frames == m.num_frames
                    &&& n.silence matches Some(after)
                    &&& e.silent_frames == after.count
                }
            },
            (DetectorModel::Underrun(m), DetectorModel::Underrun(n)) => {
                &&& n.segments.len() == m.segments.len() + events.len()
                &&& forall|k: int|
                    0 <= k < events.len() ==> #[trigger] events[k] == Event::Underrun(
                        n.segments[m.segments.len() + k],
                    )
            },
            (DetectorModel::Fft(m), DetectorModel::Fft(n)) => match m.handed_out(frame) {
                Some(windows) => {
                    &&& events.len() == 1
                    &&& events[0] matches Event::Transform(w)
                    &&& signals_view(&w) == windows
                },
                None => events.len() == 0,
            },
            (DetectorModel::Peaks(m), DetectorModel::Peaks(n)) => events.len() == 0,
            _ => false,
        }
    }

    /// The status byte that the detector returns at the end of the stream.
    pub open spec fn status(self) -> u8 {
        match self {
            DetectorModel::Loudness(m) => m.status(),
            DetectorModel::Underrun(m) => m.finished().status(),
            DetectorModel::Fft(m) => 0,
            DetectorModel::Peaks(m) => 0,
        }
    }

    /// Whether `next` is this detector after the end of the stream.
    pub open spec fn ended(self, next: DetectorModel) -> bool {
        match (self, next) {
            (DetectorModel::Loudness(m), DetectorModel::Loudness(n)) => n == m.finished(
                n.last_window_loudness(),
            ) && n.closed(),
            (DetectorModel::Underrun(m), DetectorModel::Underrun(n)) => n == m.finished(),
            (DetectorModel::Fft(m), DetectorModel::Fft(n)) => n == m.finished(),
            (DetectorModel::Peaks(m), DetectorModel::Peaks(n)) => n == m,
            _ => false,
        }
    }

    /// Whether `events` is what the detector tells at the end of the stream.
    pub open spec fn closing(self, next: DetectorModel, events: Seq<Event>) -> bool {
        match (self, next) {
            (DetectorModel::Loudness(m), DetectorModel::Loudness(n)) => {
                if m.silence is Some && m.silence->0.in_silence() {
                    &&& events.len() == 1
                    &&& events[0] matches Event::Silence(e)
                    &&& e.edge == Edge::SilenceEnd
                    &&& e.frame == m.num_frames
                    &&& e.short_term == m.silence->0.state.previous_lufs
                    &&& e.total_frames == m.num_frames
                    &&& n.silence matches Some(after)
                    &&& e.silent_frames == after.count
                } else {
                    events.len() == 0
                }
            },
            (DetectorModel::Underrun(m), DetectorModel::Underrun(n)) => {
                &&& n.segments.len() == m.segments.len() + events.len()
                &&& forall|k: int|
                    0 <= k < events.len() ==> #[trigger] events[k] == Event::Underrun(
                        n.segments[m.segments.len() + k],
                    )
            },
            (DetectorModel::Fft(m), DetectorModel::Fft(n)) => match m.last_request() {
                Some(signals) => {
                    &&& events.len() == 1
                    &&& events[0] matches Event::Transform(w)
                    &&& signals_view(&w) == signals
                },
                None => events.len() == 0,
            },
            (DetectorModel::Peaks(m), DetectorModel::Peaks(n)) => events.len() == 0,
            _ => false,
        }
    }

    /// Whether the detector holds no open segment and no open window.
    pub open spec fn closed(self) -> bool {
        match self {
            DetectorModel::Loudness(m) => m.closed(),
            DetectorModel::Underrun(m) => all_closed(m.segments),
            DetectorModel::Fft(m) => true,
            DetectorModel::Peaks(m) => true,
        }
    }

    /// Whether the detector can report: true of a running detector and of
    /// one that has ended.
    pub open spec fn reportable(self) -> bool {
        match self {
            DetectorModel::Loudness(m) => m.reportable(),
            DetectorModel::Underrun(m) => m.wf(),
            DetectorModel::Fft(m) => m.laid_out(),
            DetectorModel::Peaks(m) => m.wf(),
        }
    }
}

/// What every detector can do: take the frames of a stream one by one,
/// end with the stream, and report.
pub trait Analyser {
    /// The abstract state of the detector.
    spec fn model(&self) -> DetectorModel;

    /// What of the detector's state its model does not show.
    spec fn sound(&self) -> bool;

    /// Whether `sections` holds the detector's sections of the report.
    spec fn reports(&self, sections: Seq<Section>) -> bool;

    /// Takes the next frame of the stream, one sample per channel, and
    /// returns what the detector has to tell.
    fn analyse(&mut self, frame_counter: usize, frame: &[i32]) -> (events: Vec<Event>)
        requires
            old(self).model().wf(),
            old(self).sound(),
            frame_counter == old(self).model().frames_seen(),
            frame_counter < old(self).model().num_frames(),
            frame@.len() == old(self).model().channels(),
        ensures
            final(self).model().wf(),
            final(self).sound(),
            old(self).model().stepped(frame@, final(self).model()),
            old(self).model().emitted(frame@, final(self).model(), events@),
            final(self).model().frames_seen() == old(self).model().frames_seen() + 1,
            final(self).model().num_frames() == old(self).model().num_frames(),
            final(self).model().channels() == old(self).model().channels(),
    ;

    /// Ends the stream: returns the detector's status byte and what it has
    /// to tell at the end.
    fn finish(&mut self) -> (r: (u8, Vec<Event>))
        requires
            old(self).model().wf(),
            old(self).sound(),
        ensures
            final(self).sound(),
            final(self).model().reportable(),
            final(self).model().closed(),
            old(self).model().ended(final(self).model()),
            old(self).model().closing(final(self).model(), r.1@),
            r.0 == old(self).model().status(),
    ;

    /// The detector's sections of the report.
    fn json(&self) -> (sections: Vec<Section>)
        requires
            self.model().reportable(),
            self.sound(),
        ensures
            self.reports(sections@),
    ;
}

impl View for Detector {
    type V = DetectorModel;

    open spec fn view(&self) -> DetectorModel {
        match self {
            Detector::Loudness(a) => DetectorModel::Loudness(a@),
            Detector::Underrun(a) => DetectorModel::Underrun(a@),
            Detector::Fft(a) => DetectorModel::Fft(a@),
            Detector::Peaks(a) => DetectorModel::Peaks(a@),
        }
    }
}

/// The events of the segments `found`, in their order.
fn underrun_events(found: Vec<Segment>) -> (events: Vec<Event>)
    ensures
        events@.len() == found@.len(),
        forall|k: int| 0 <= k < events@.len() ==> #[trigger] events@[k] == Event::Underrun(found@[k]),
{
    let mut events: Vec<Event> = Vec::new();
    let mut k: usize = 0;
    while k < found.len()
        invariant
            k <= found@.len(),
            events@.len() == k,
            forall|j: int| 0 <= j < k ==> #[trigger] events@[j] == Event::Underrun(found@[j]),
        decreases found@.len() - k,
    {
        events.push(Event::Underrun(found[k]));
        k += 1;
    }
    events
}

impl Detector {
    /// What of the detector's state its view does not show.
    pub open spec fn inv(&self) -> bool {
        match self {
            Detector::Loudness(a) => a.inv(),
            _ => true,
        }
    }

    /// Whether `sections` holds the detector's sections of the report.
    pub open spec fn describes(&self, sections: Seq<Section>) -> bool {
        match self {
            Detector::Loudness(a) => a.reports(sections),
            Detector::Underrun(a) => a.reports(sections),
            Detector::Fft(a) => a.reports(sections),
            Detector::Peaks(a) => a.reports(sections),
        }
    }
}

impl Analyser for LoudnessAnalyser {
    open spec fn model(&self) -> DetectorModel {
        DetectorModel::Loudness(self@)
    }

    open spec fn sound(&self) -> bool {
        self.inv()
    }

    /// The windows and then the silence, each where there is something to
    /// report.
    open spec fn reports(&self, sections: Seq<Section>) -> bool {
        let first: int = if self@.has_windows() {
            1
        } else {
            0
        };
        let second: int = if self@.has_silence() {
            1
        } else {
            0
        };
        &&& sections.len() == first + second
        &&& self@.has_windows() ==> (sections[0] matches Section::Loudness(section)
            && self@.windows_reported(section))
        &&& self@.has_silence() ==> (sections[first] matches Section::Silence(section)
            && self@.silence_reported(section))
    }

    fn analyse(&mut self, frame_counter: usize, frame: &[i32]) -> (events: Vec<Event>) {
        let mut events: Vec<Event> = Vec::new();
        match LoudnessAnalyser::analyse(self, frame_counter, frame) {
            Some(e) => {
                events.push(Event::Silence(e));
            },
            None => {},
        }
        events
    }

    fn finish(&mut self) -> (r: (u8, Vec<Event>)) {
        let mut events: Vec<Event> = Vec::new();
        let (status, event) = LoudnessAnalyser::finish(self);
        match event {
            Some(e) => {
                events.push(Event::Silence(e));
            },
            None => {},
        }
        (status, events)
    }

    fn json(&self) -> (sections: Vec<Section>) {
        let mut sections: Vec<Section> = Vec::new();
        let report = LoudnessAnalyser::json(self);
        match report.loudness {
            Some(section) => {
                sections.push(Section::Loudness(section));
            },
            None => {},
        }
        match report.silence {
            Some(section) => {
                sections.push(Section::Silence(section));
            },
            None => {},
        }
        sections
    }
}

impl Analyser for UnderrunAnalyser {
    open spec fn model(&self) -> DetectorModel {
        DetectorModel::Underrun(self@)
    }

    open spec fn sound(&self) -> bool {
        true
    }

    /// The underruns, where any were found.
    open spec fn reports(&self, sections: Seq<Section>) -> bool {
        if self@.segments.len() > 0 {
            &&& sections.len() == 1
            &&& sections[0] matches Section::Underruns(report)
            &&& self@.reported(report)
        } else {
            sections.len() == 0
        }
    }

    fn analyse(&mut self, frame_counter: usize, frame: &[i32]) -> (events: Vec<Event>) {
        let ghost before = self@;
        let found = UnderrunAnalyser::analyse(self, frame_counter, frame);
        proof {
            lemma_step_keeps_channels(before, frame@);
            assert forall|k: int| 0 <= k < found@.len() implies found@[k]
                == self@.segments[before.segments.len() + k] by {}
        }
        underrun_events(found)
    }

    fn finish(&mut self) -> (r: (u8, Vec<Event>)) {
        let ghost before = self@;
        let (status, found) = UnderrunAnalyser::finish(self);
        proof {
            assert forall|k: int| 0 <= k < found@.len() implies found@[k]
                == self@.segments[before.segments.len() + k] by {}
        }
        (status, underrun_events(found))
    }

    fn json(&self) -> (sections: Vec<Section>) {
        let mut sections: Vec<Section> = Vec::new();
        match UnderrunAnalyser::json(self) {
            Some(report) => {
                sections.push(Section::Underruns(report));
            },
            None => {},
        }
        sections
    }
}

impl Analyser for FftAnalyser {
    open spec fn model(&self) -> DetectorModel {
        DetectorModel::Fft(self@)
    }

    open spec fn sound(&self) -> bool {
        true
    }

    /// The section of the spectrogram.
    open spec fn reports(&self, sections: Seq<Section>) -> bool {
        &&& sections.len() == 1
        &&& sections[0] matches Section::Fft(report)
        &&& self.reported(report)
    }

    fn analyse(&mut self, frame_counter: usize, frame: &[i32]) -> (events: Vec<Event>) {
        let mut events: Vec<Event> = Vec::new();
        match FftAnalyser::analyse(self, frame_counter, frame) {
            Some(w) => {
                events.push(Event::Transform(w));
            },
            None => {},
        }
        events
    }

    fn finish(&mut self) -> (r: (u8, Vec<Event>)) {
        let mut events: Vec<Event> = Vec::new();
        let (status, request) = FftAnalyser::finish(self);
        match request {
            Some(w) => {
                events.push(Event::Transform(w));
            },
            None => {},
        }
        (status, events)
    }

    fn json(&self) -> (sections: Vec<Section>) {
        let mut sections: Vec<Section> = Vec::new();
        sections.push(Section::Fft(FftAnalyser::json(self)));
        sections
    }
}

impl Analyser for PeaksAnalyzer {
    open spec fn model(&self) -> DetectorModel {
        DetectorModel::Peaks(self@)
    }

    open spec fn sound(&self) -> bool {
        true
    }

    /// The section of the level map, where the stream has a channel.
    open spec fn reports(&self, sections: Seq<Section>) -> bool {
        if self@.channels > 0 {
            &&& sections.len() == 1
            &&& sections[0] matches Section::Peaks(report)
            &&& self.reported(report)
        } else {
            sections.len() == 0
        }
    }

    fn analyse(&mut self, frame_counter: usize, frame: &[i32]) -> (events: Vec<Event>) {
        PeaksAnalyzer::analyse(self, frame_counter, frame);
        Vec::new()
    }

    fn finish(&mut self) -> (r: (u8, Vec<Event>)) {
        let status = PeaksAnalyzer::finish(self);
        (status, Vec::new())
    }

    fn json(&self) -> (sections: Vec<Section>) {
        let mut sections: Vec<Section> = Vec::new();
        match PeaksAnalyzer::json(self) {
            Some(report) => {
                sections.push(Section::Peaks(report));
            },
            None => {},
        }
        sections
    }
}

impl Analyser for Detector {
    open spec fn model(&self) -> DetectorModel {
        self@
    }

    open spec fn sound(&self) -> bool {
        self.inv()
    }

    open spec fn reports(&self, sections: Seq<Section>) -> bool {
        self.describes(sections)
    }

    fn analyse(&mut self, frame_counter: usize, frame: &[i32]) -> (events: Vec<Event>) {
        match self {
            Detector::Loudness(a) => Analyser::analyse(a, frame_counter, frame),
            Detector::Underrun(a) => Analyser::analyse(a, frame_counter, frame),
            Detector::Fft(a) => Analyser::analyse(a, frame_counter, frame),
            Detector::Peaks(a) => Analyser::analyse(a, frame_counter, frame),
        }
    }

    fn finish(&mut self) -> (r: (u8, Vec<Event>)) {
        match self {
            Detector::Loudness(a) => Analyser::finish(a),
            Detector::Underrun(a) => Analyser::finish(a),
            Detector::Fft(a) => Analyser::finish(a),
            Detector::Peaks(a) => Analyser::finish(a),
        }
    }

    fn json(&self) -> (sections: Vec<Section>) {
        match self {
            Detector::Loudness(a) => Analyser::json(a),
            Detector::Underrun(a) => Analyser::json(a),
            Detector::Fft(a) => Analyser::json(a),
            Detector::Peaks(a) => Analyser::json(a),
        }
    }
}

} // verus!
