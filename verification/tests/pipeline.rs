use analwave::analysers::loudness::{Edge, LoudnessError};
use analwave::analysers::underruns::UnderrunAnalyser;
use analwave::analysers::{Analyser, Detector, Event, Section, SectionKind};
use analwave::cli::{Cli, StreamInfo};
use analwave::json::{merge, merge_all, write_json};
use analwave::level::Level;
use analwave::pipeline::{analyse, ConfigError, Pipeline};
use analwave::segment::Segment;
use analwave::status::{ERR_CONTAINS_SILENCE, ERR_CONTAINS_UNDERRUN};

fn options() -> Cli {
    Cli {
        input: String::from("in.wav"),
        underrun: false,
        samples: 16,
        silence: false,
        lufs: level(-70.0),
        silence_percentage: 99,
        no_progress: true,
        debug: false,
        silent: true,
        json: None,
        window_size: 48000,
        loudness: false,
        fft: false,
        fft_file: None,
        fft_vis: None,
        fft_bins: 8,
        fft_framewise: false,
        peaks: false,
        peaks_file: None,
    }
}

fn level(value: f64) -> Level {
    Level::from_bits(value.to_bits())
}

fn stream(channels: u16, num_frames: usize) -> StreamInfo {
    StreamInfo { channels, sample_rate: 48000, num_frames }
}

fn kinds(pipeline: &Pipeline) -> Vec<&'static str> {
    pipeline
        .detectors()
        .iter()
        .map(|d| match d {
            Detector::Loudness(_) => "loudness",
            Detector::Underrun(_) => "underrun",
            Detector::Fft(_) => "fft",
            Detector::Peaks(_) => "peaks",
        })
        .collect()
}

#[test]
fn no_detection_is_an_error() {
    assert_eq!(Pipeline::new(&options(), &stream(2, 10)).err(), Some(ConfigError::NoDetection));
    assert_eq!(analyse(&options(), &stream(2, 0), &vec![]).err(), Some(ConfigError::NoDetection));
}

#[test]
fn a_raw_spectrogram_needs_a_path() {
    let mut args = options();
    args.fft = true;
    assert_eq!(Pipeline::new(&args, &stream(2, 10)).err(), Some(ConfigError::NoFftPath));
    args.json = Some(String::from("report.json"));
    let p = Pipeline::new(&args, &stream(2, 10)).unwrap();
    match &p.detectors()[0] {
        Detector::Fft(a) => {
            assert_eq!(a.raw().as_ref().unwrap().path, "report_fft.png");
            assert!(a.vis().is_none());
        }
        _ => panic!("the spectrogram is missing"),
    }
    args.json = None;
    args.fft_file = Some(String::from("s.png"));
    assert!(Pipeline::new(&args, &stream(2, 10)).is_ok());
}

#[test]
fn a_picture_alone_needs_no_raw_path() {
    let mut args = options();
    args.fft_vis = Some(String::from("v.png"));
    args.fft_file = Some(String::from("ignored.png"));
    let p = Pipeline::new(&args, &stream(1, 10)).unwrap();
    match &p.detectors()[0] {
        Detector::Fft(a) => {
            assert!(a.raw().is_none());
            assert_eq!(a.vis().as_ref().unwrap().path, "v.png");
        }
        _ => panic!("the spectrogram is missing"),
    }
}

#[test]
fn a_level_map_needs_a_path() {
    let mut args = options();
    args.peaks = true;
    assert_eq!(Pipeline::new(&args, &stream(2, 10)).err(), Some(ConfigError::NoPeaksPath));
    args.peaks_file = Some(String::from("p.png"));
    assert_eq!(kinds(&Pipeline::new(&args, &stream(2, 10)).unwrap()), vec!["peaks"]);
}

#[test]
fn a_transform_without_a_hop_is_an_error() {
    let mut args = options();
    args.fft_vis = Some(String::from("v.png"));
    args.fft_bins = 1;
    assert_eq!(Pipeline::new(&args, &stream(2, 10)).err(), Some(ConfigError::FftSize));
}

#[test]
fn the_loudness_analyser_decides_first() {
    let mut args = options();
    args.silence = true;
    args.fft = true;
    args.window_size = 3;
    assert_eq!(
        Pipeline::new(&args, &stream(2, 10)).err(),
        Some(ConfigError::Loudness(LoudnessError::Window))
    );
    assert_eq!(
        Pipeline::new(&args, &stream(0, 10)).err(),
        Some(ConfigError::Loudness(LoudnessError::Meter))
    );
}

#[test]
fn detectors_are_registered_in_order() {
    let mut args = options();
    args.peaks = true;
    args.peaks_file = Some(String::from("p.png"));
    args.fft_vis = Some(String::from("v.png"));
    args.underrun = true;
    args.loudness = true;
    args.window_size = 2;
    let p = Pipeline::new(&args, &stream(2, 10)).unwrap();
    assert_eq!(kinds(&p), vec!["loudness", "underrun", "fft", "peaks"]);
    assert_eq!(p.frames_seen(), 0);
    assert_eq!(p.num_frames(), 10);
    assert_eq!(p.channels(), 2);
    assert!(!p.finished());
}

#[test]
fn every_detector_sees_every_frame_once() {
    let mut args = options();
    args.underrun = true;
    args.samples = 2;
    args.peaks = true;
    args.peaks_file = Some(String::from("p.png"));
    args.fft_vis = Some(String::from("v.png"));
    args.fft_bins = 2;
    args.fft_framewise = true;
    let frames = vec![vec![1], vec![0], vec![0], vec![5], vec![6]];
    let mut p = Pipeline::new(&args, &stream(1, 5)).unwrap();
    let events = p.run(&frames);
    assert_eq!(p.frames_seen(), 5);
    assert_eq!(events.len(), 5);
    for per_frame in &events {
        assert_eq!(per_frame.len(), 3);
    }
    match &events[3][0][..] {
        [Event::Underrun(s)] => assert_eq!(*s, Segment { start: 1, end: Some(3), channel: Some(0) }),
        other => panic!("unexpected events {:?}", other),
    }
    match &events[1][1][..] {
        [Event::Transform(w)] => assert_eq!(w, &vec![vec![1, 0]]),
        other => panic!("unexpected events {:?}", other),
    }
    match &events[3][1][..] {
        [Event::Transform(w)] => assert_eq!(w, &vec![vec![0, 5]]),
        other => panic!("unexpected events {:?}", other),
    }
    assert!(events[0].iter().all(|e| e.is_empty()));
    assert!(events[2].iter().all(|e| e.is_empty()));
    match &p.detectors()[2] {
        Detector::Peaks(a) => assert_eq!(a.samples(), &vec![vec![1, 0, 0, 5, 6]]),
        _ => panic!("the level map is missing"),
    }
    match &p.detectors()[0] {
        Detector::Underrun(a) => assert_eq!(a.frames_seen(), 5),
        _ => panic!("the underrun detector is missing"),
    }
    let (status, closing) = p.finish();
    assert!(p.finished());
    assert_eq!(status, ERR_CONTAINS_UNDERRUN);
    assert!(closing[0].is_empty());
    match &closing[1][..] {
        [Event::Transform(w)] => assert_eq!(w, &vec![vec![6, 0]]),
        other => panic!("unexpected events {:?}", other),
    }
    assert!(closing[2].is_empty());
}

#[test]
fn silence_and_underrun_set_both_bits() {
    let mut args = options();
    args.silence = true;
    args.underrun = true;
    args.samples = 16;
    args.window_size = 1;
    args.json = Some(String::from("report.json"));
    let frames = vec![vec![0]; 40];
    let done = analyse(&args, &stream(1, 40), &frames).unwrap();
    assert_eq!(done.return_code, ERR_CONTAINS_SILENCE | ERR_CONTAINS_UNDERRUN);
    assert_eq!(done.return_code, 3);
    assert_eq!(done.events.len(), 40);
    match &done.events[0][0][..] {
        [Event::Silence(e)] => {
            assert_eq!(e.edge, Edge::SilenceStart);
            assert_eq!(e.frame, 0);
        }
        other => panic!("unexpected events {:?}", other),
    }
    match &done.closing[0][..] {
        [Event::Silence(e)] => {
            assert_eq!(e.edge, Edge::SilenceEnd);
            assert_eq!((e.frame, e.silent_frames, e.total_frames), (40, 40, 40));
        }
        other => panic!("unexpected events {:?}", other),
    }
    match &done.closing[1][..] {
        [Event::Underrun(s)] => assert_eq!(*s, Segment { start: 0, end: Some(40), channel: Some(0) }),
        other => panic!("unexpected events {:?}", other),
    }
    let report = done.report.unwrap();
    assert_eq!(report.num_channels, 1);
    assert_eq!(report.num_samples, 40);
    assert_eq!(report.sample_rate, 48000);
    let keys: Vec<&str> = report.analysis.iter().map(|s| s.key()).collect();
    assert_eq!(keys, vec!["silence", "underruns"]);
    assert!(done.pipeline.finished());
}

#[test]
fn a_clean_stream_has_status_zero() {
    let mut args = options();
    args.silence = true;
    args.underrun = true;
    args.window_size = 4800;
    args.json = Some(String::from("report.json"));
    let frames: Vec<Vec<i32>> = (0..9600)
        .map(|i| vec![if (i / 24) % 2 == 0 { 1_000_000_000 } else { -1_000_000_000 }])
        .collect();
    let done = analyse(&args, &stream(1, 9600), &frames).unwrap();
    assert_eq!(done.return_code, 0);
    assert!(done.events.iter().all(|f| f.iter().all(|d| d.is_empty())));
    assert!(done.closing.iter().all(|d| d.is_empty()));
    assert!(done.report.is_none());
}

#[test]
fn underrun_alone_sets_its_bit_only() {
    let mut args = options();
    args.silence = true;
    args.underrun = true;
    args.samples = 4;
    args.window_size = 4800;
    let mut frames: Vec<Vec<i32>> = (0..9600)
        .map(|i| vec![if (i / 24) % 2 == 0 { 1_000_000_000 } else { -1_000_000_000 }])
        .collect();
    for frame in frames.iter_mut().skip(100).take(4) {
        frame[0] = 0;
    }
    let done = analyse(&args, &stream(1, 9600), &frames).unwrap();
    assert_eq!(done.return_code, ERR_CONTAINS_UNDERRUN);
    assert!(done.report.is_none());
}

#[test]
fn no_report_without_a_path_or_without_findings() {
    let mut args = options();
    args.underrun = true;
    args.samples = 1;
    let mut p = Pipeline::new(&args, &stream(1, 3)).unwrap();
    p.run(&vec![vec![1], vec![0], vec![1]]);
    p.finish();
    assert!(write_json(&args, &stream(1, 3), p.json()).is_none());
    args.json = Some(String::from("r.json"));
    let out = write_json(&args, &stream(1, 3), p.json()).unwrap();
    assert_eq!(out.analysis.len(), 1);
    assert_eq!(out.analysis[0].kind(), SectionKind::Underruns);
    match &out.analysis[0] {
        Section::Underruns(report) => {
            assert_eq!(report.threshold, 1);
            assert_eq!(report.results.len(), 1);
            assert_eq!(report.results[0].start_sample, 1);
            assert_eq!(report.results[0].end_sample, 2);
        }
        other => panic!("unexpected section {:?}", other),
    }
    assert!(write_json(&args, &stream(1, 3), vec![vec![], vec![]]).is_none());
}

#[test]
fn sections_are_merged_by_key() {
    let mut args = options();
    args.underrun = true;
    args.samples = 1;
    args.fft_vis = Some(String::from("v.png"));
    let section = |frames: &Vec<Vec<i32>>| {
        let mut p = Pipeline::new(&args, &stream(1, frames.len())).unwrap();
        p.run(frames);
        p.finish();
        p.json()
    };
    let first = section(&vec![vec![0], vec![1]]);
    let second = section(&vec![vec![1], vec![0], vec![0]]);
    let mut lists = first;
    lists.extend(second);
    let merged = merge_all(lists);
    let keys: Vec<&str> = merged.iter().map(|s| s.key()).collect();
    assert_eq!(keys, vec!["underruns", "fft"]);
    match &merged[0] {
        Section::Underruns(report) => assert_eq!(report.results[0].start_sample, 1),
        other => panic!("unexpected section {:?}", other),
    }
    let mut analysis = merged;
    let again = section(&vec![vec![0], vec![0], vec![3]]);
    for list in again {
        for s in list {
            merge(&mut analysis, s);
        }
    }
    assert_eq!(analysis.len(), 2);
    match &analysis[0] {
        Section::Underruns(report) => assert_eq!(report.results[0].duration_samples, 2),
        other => panic!("unexpected section {:?}", other),
    }
}

#[test]
fn detectors_answer_through_one_interface() {
    let mut args = options();
    args.underrun = true;
    args.samples = 2;
    let info = stream(1, 4);
    let mut underruns = UnderrunAnalyser::new(&args, &info);
    let mut told = Vec::new();
    for (index, sample) in [0, 0, 7, 0].iter().enumerate() {
        told.extend(Analyser::analyse(&mut underruns, index, &[*sample]));
    }
    match &told[..] {
        [Event::Underrun(s)] => assert_eq!(*s, Segment { start: 0, end: Some(2), channel: Some(0) }),
        other => panic!("unexpected events {:?}", other),
    }
    let (status, last) = Analyser::finish(&mut underruns);
    assert_eq!(status, ERR_CONTAINS_UNDERRUN);
    assert!(last.is_empty());
    let sections = Analyser::json(&underruns);
    assert_eq!(sections.len(), 1);
    assert_eq!(sections[0].key(), "underruns");

    let mut detector = Detector::Underrun(UnderrunAnalyser::new(&args, &info));
    assert!(detector.analyse(0, &[5]).is_empty());
    let (status, _) = detector.finish();
    assert_eq!(status, 0);
    assert!(detector.json().is_empty());
}
