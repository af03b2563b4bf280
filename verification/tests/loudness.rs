use analwave::analysers::loudness::{
    reading_level, share_reached, Edge, LoudnessAnalyser, LoudnessError, LoudnessWindow, Silence,
    SilenceSegment, SilenceState,
};
use analwave::cli::{Cli, StreamInfo};
use analwave::level::Level;
use analwave::segment::Segment;
use analwave::status::ERR_CONTAINS_SILENCE;

fn options() -> Cli {
    Cli {
        input: String::from("in.wav"),
        underrun: false,
        samples: 16,
        silence: false,
        lufs: level(-70.0),
        silence_percentage: 99,
        no_progress: true,
        debug: false,
        silent: true,
        json: None,
        window_size: 48000,
        loudness: false,
        fft: false,
        fft_file: None,
        fft_vis: None,
        fft_bins: 8,
        fft_framewise: false,
        peaks: false,
        peaks_file: None,
    }
}

fn level(value: f64) -> Level {
    Level::from_bits(value.to_bits())
}

fn tone(frames: usize) -> Vec<Vec<i32>> {
    (0..frames).map(|i| vec![if (i / 24) % 2 == 0 { 1_000_000_000 } else { -1_000_000_000 }]).collect()
}

fn silence(frames: usize) -> Vec<Vec<i32>> {
    vec![vec![0]; frames]
}

#[test]
fn state_starts_at_zero() {
    let state = SilenceState::new();
    assert_eq!(state.previous_lufs, level(0.0));
    assert_eq!(state.silence_start_frame, 0);
    assert_eq!(state.silence_end_frame, 0);
}

#[test]
fn loudness_at_the_threshold_is_not_silence() {
    let mut tracker = Silence::new(level(-70.0), 99);
    for frame in [10, 20, 30, 40] {
        assert_eq!(tracker.observe(frame, level(-70.0)), Edge::Steady);
    }
    assert!(!tracker.in_silence());
    assert_eq!(tracker.finish(50), 0);
    assert!(tracker.segments().is_empty());
    assert_eq!(tracker.count(), 0);
}

#[test]
fn crossing_the_threshold_opens_and_closes_a_segment() {
    let mut tracker = Silence::new(level(-70.0), 50);
    assert_eq!(tracker.observe(9, level(-20.0)), Edge::Steady);
    assert_eq!(tracker.observe(19, level(-70.5)), Edge::SilenceStart);
    assert_eq!(tracker.segments(), &vec![Segment { start: 19, end: None, channel: None }]);
    assert_eq!(tracker.observe(29, level(-90.0)), Edge::Steady);
    assert_eq!(tracker.observe(39, level(-70.0)), Edge::SilenceEnd);
    assert_eq!(tracker.segments(), &vec![Segment { start: 19, end: Some(39), channel: None }]);
    assert_eq!(tracker.count(), 20);
    assert_eq!(tracker.state().silence_start_frame, 19);
    assert_eq!(tracker.state().silence_end_frame, 39);
    assert_eq!(tracker.state().previous_lufs, level(-70.0));
    assert_eq!(tracker.threshold(), level(-70.0));
    assert_eq!(tracker.finish(40), 0);
    assert_eq!(tracker.count(), 20);
    assert_eq!(
        tracker.rows(40),
        vec![SilenceSegment { start_sample: 19, end_sample: 39, duration_samples: 20 }]
    );
}

#[test]
fn a_stream_that_ends_in_silence_is_held_against_the_limit() {
    let mut tracker = Silence::new(level(-70.0), 50);
    assert_eq!(tracker.observe(9, level(-10.0)), Edge::Steady);
    assert_eq!(tracker.observe(19, level(f64::NEG_INFINITY)), Edge::SilenceStart);
    assert_eq!(tracker.finish(40), ERR_CONTAINS_SILENCE);
    assert_eq!(tracker.count(), 21);
    assert_eq!(tracker.segments(), &vec![Segment { start: 19, end: Some(40), channel: None }]);

    let mut short = Silence::new(level(-70.0), 50);
    assert_eq!(short.observe(29, level(-10.0)), Edge::Steady);
    assert_eq!(short.observe(39, level(-80.0)), Edge::SilenceStart);
    assert_eq!(short.finish(60), 0);
    assert_eq!(short.count(), 21);
}

#[test]
fn silence_that_ended_is_not_held_against_the_limit() {
    let mut tracker = Silence::new(level(-70.0), 10);
    assert_eq!(tracker.observe(0, level(-80.0)), Edge::SilenceStart);
    assert_eq!(tracker.observe(90, level(-10.0)), Edge::SilenceEnd);
    assert_eq!(tracker.count(), 90);
    assert_eq!(tracker.finish(100), 0);
}

#[test]
fn a_nan_counts_as_unmeasurable() {
    let mut tracker = Silence::new(level(-70.0), 99);
    assert_eq!(tracker.observe(4, level(f64::NAN)), Edge::SilenceStart);
    assert_eq!(tracker.state().previous_lufs, Level::neg_infinity());
    assert!(tracker.in_silence());
}

#[test]
fn a_threshold_that_is_no_number_is_never_crossed() {
    let mut tracker = Silence::new(level(f64::NAN), 0);
    assert_eq!(tracker.observe(4, level(f64::NEG_INFINITY)), Edge::Steady);
    assert_eq!(tracker.observe(9, level(0.0)), Edge::Steady);
    assert_eq!(tracker.finish(10), 0);
    assert!(tracker.segments().is_empty());
}

#[test]
fn the_share_is_compared_exactly() {
    assert!(share_reached(99, 100, 99));
    assert!(!share_reached(98, 100, 99));
    assert!(share_reached(1, 3, 33));
    assert!(!share_reached(1, 3, 34));
    assert!(share_reached(100, 100, 100));
    assert!(share_reached(0, 5, 0));
    assert!(!share_reached(0, 0, 0));
    assert!(!share_reached(usize::MAX - 1, usize::MAX, 100));
    assert!(share_reached(usize::MAX, usize::MAX, 100));
}

#[test]
fn a_silent_stream_is_one_segment_of_the_whole_stream() {
    let mut args = options();
    args.silence = true;
    args.window_size = 1;
    let stream = StreamInfo { channels: 1, sample_rate: 48000, num_frames: 100 };
    let mut analyser = LoudnessAnalyser::new(&args, &stream).unwrap();
    let mut events = Vec::new();
    for (index, frame) in silence(100).iter().enumerate() {
        events.extend(analyser.analyse(index, frame));
    }
    assert_eq!(events.len(), 1);
    assert_eq!(events[0].edge, Edge::SilenceStart);
    assert_eq!(events[0].frame, 0);
    assert_eq!(events[0].short_term, Level::neg_infinity());
    assert_eq!(analyser.windows_measured(), 100);
    let (status, last) = analyser.finish();
    assert_eq!(status, ERR_CONTAINS_SILENCE);
    let last = last.unwrap();
    assert_eq!(last.edge, Edge::SilenceEnd);
    assert_eq!(last.frame, 100);
    assert_eq!(last.silent_frames, 100);
    assert_eq!(last.total_frames, 100);
    let report = analyser.json();
    assert!(report.loudness.is_none());
    let section = report.silence.unwrap();
    assert_eq!(
        section.results,
        vec![SilenceSegment { start_sample: 0, end_sample: 100, duration_samples: 100 }]
    );
    assert_eq!(section.threshold, level(-70.0));
    assert_eq!(section.window_size, 1);
}

#[test]
fn a_loud_stream_has_no_silence() {
    let mut args = options();
    args.silence = true;
    args.loudness = true;
    args.window_size = 4800;
    let stream = StreamInfo { channels: 1, sample_rate: 48000, num_frames: 9600 };
    let mut analyser = LoudnessAnalyser::new(&args, &stream).unwrap();
    for (index, frame) in tone(9600).iter().enumerate() {
        assert!(analyser.analyse(index, frame).is_none());
    }
    assert_eq!(analyser.frames_seen(), 9600);
    assert_eq!(analyser.windows_measured(), 2);
    let (status, last) = analyser.finish();
    assert_eq!(status, 0);
    assert!(last.is_none());
    let report = analyser.json();
    assert!(report.silence.is_none());
    let windows = report.loudness.unwrap();
    assert_eq!(windows.window_size, 4800);
    assert_eq!(windows.results.len(), 3);
    assert_eq!((windows.results[0].start, windows.results[0].end), (0, Some(4799)));
    assert_eq!((windows.results[1].start, windows.results[1].end), (4799, Some(9599)));
    assert_eq!((windows.results[2].start, windows.results[2].end), (9599, Some(9600)));
    assert!(level(-70.0).lt(&windows.results[0].loudness));
    assert!(windows.results[0].loudness.lt(&level(0.0)));
    assert_eq!(windows.results[2].loudness, Level::neg_infinity());
}

#[test]
fn silence_after_a_tone_starts_and_ends_with_the_windows() {
    let mut args = options();
    args.silence = true;
    args.window_size = 4800;
    let stream = StreamInfo { channels: 1, sample_rate: 48000, num_frames: 14400 };
    let mut analyser = LoudnessAnalyser::new(&args, &stream).unwrap();
    let mut frames = tone(4800);
    frames.extend(silence(4800));
    frames.extend(tone(4800));
    let mut edges = Vec::new();
    for (index, frame) in frames.iter().enumerate() {
        if let Some(event) = analyser.analyse(index, frame) {
            edges.push((event.edge, event.frame, event.silent_frames));
        }
    }
    assert_eq!(edges, vec![(Edge::SilenceStart, 9599, 0), (Edge::SilenceEnd, 14399, 4800)]);
    let (status, last) = analyser.finish();
    assert_eq!(status, 0);
    assert!(last.is_none());
    let silence = analyser.silence().as_ref().unwrap();
    assert_eq!(silence.segments(), &vec![Segment { start: 9599, end: Some(14399), channel: None }]);
}

#[test]
fn a_partial_window_is_measured_at_the_end() {
    let mut args = options();
    args.loudness = true;
    args.window_size = 9600;
    let stream = StreamInfo { channels: 2, sample_rate: 48000, num_frames: 4801 };
    let mut analyser = LoudnessAnalyser::new(&args, &stream).unwrap();
    assert_eq!(analyser.window_size(), 9600);
    assert_eq!(analyser.channels(), 2);
    assert_eq!(analyser.num_frames(), 4801);
    assert_eq!(analyser.sample_rate(), 48000);
    for index in 0..4801 {
        let sample = if (index / 24) % 2 == 0 { 900_000_000 } else { -900_000_000 };
        assert!(analyser.analyse(index, &[sample, sample]).is_none());
    }
    assert_eq!(analyser.windows_measured(), 1);
    let (status, _) = analyser.finish();
    assert_eq!(status, 0);
    let windows = analyser.windows().as_ref().unwrap();
    assert_eq!(windows.len(), 2);
    assert_eq!(windows[0].start, 0);
    assert_eq!(windows[0].end, Some(4799));
    assert_eq!(
        windows[1],
        LoudnessWindow { start: 4799, end: Some(4801), loudness: windows[1].loudness }
    );
    assert!(level(-70.0).lt(&windows[1].loudness));
}

#[test]
fn the_meter_refuses_streams_out_of_its_range() {
    let mut args = options();
    args.silence = true;
    args.window_size = 4;
    let no_channel = StreamInfo { channels: 0, sample_rate: 48000, num_frames: 10 };
    assert_eq!(LoudnessAnalyser::new(&args, &no_channel).err(), Some(LoudnessError::Meter));
    let many = StreamInfo { channels: 65, sample_rate: 48000, num_frames: 10 };
    assert_eq!(LoudnessAnalyser::new(&args, &many).err(), Some(LoudnessError::Meter));
    let slow = StreamInfo { channels: 2, sample_rate: 15, num_frames: 10 };
    assert_eq!(LoudnessAnalyser::new(&args, &slow).err(), Some(LoudnessError::Meter));
    let fast = StreamInfo { channels: 2, sample_rate: 2822401, num_frames: 10 };
    assert_eq!(LoudnessAnalyser::new(&args, &fast).err(), Some(LoudnessError::Meter));
    let negative = StreamInfo { channels: 2, sample_rate: -1, num_frames: 10 };
    assert_eq!(LoudnessAnalyser::new(&args, &negative).err(), Some(LoudnessError::Meter));
    let edge = StreamInfo { channels: 64, sample_rate: 16, num_frames: 10 };
    args.window_size = 64;
    assert!(LoudnessAnalyser::new(&args, &edge).is_ok());
}

#[test]
fn the_window_must_hold_whole_frames() {
    let mut args = options();
    args.silence = true;
    let stream = StreamInfo { channels: 2, sample_rate: 48000, num_frames: 10 };
    args.window_size = 0;
    assert_eq!(LoudnessAnalyser::new(&args, &stream).err(), Some(LoudnessError::Window));
    args.window_size = 3;
    assert_eq!(LoudnessAnalyser::new(&args, &stream).err(), Some(LoudnessError::Window));
    args.window_size = 4;
    assert!(LoudnessAnalyser::new(&args, &stream).is_ok());
}

#[test]
fn no_silence_is_left_open_after_the_end() {
    let mut args = options();
    args.silence = true;
    args.loudness = true;
    args.window_size = 2;
    let stream = StreamInfo { channels: 2, sample_rate: 48000, num_frames: 7 };
    let mut analyser = LoudnessAnalyser::new(&args, &stream).unwrap();
    for index in 0..7 {
        analyser.analyse(index, &[0, 0]);
    }
    let open = analyser.silence().as_ref().unwrap().segments().clone();
    assert_eq!(open, vec![Segment { start: 0, end: None, channel: None }]);
    let (status, _) = analyser.finish();
    assert_eq!(status, ERR_CONTAINS_SILENCE);
    let closed = analyser.silence().as_ref().unwrap().segments().clone();
    assert_eq!(closed, vec![Segment { start: 0, end: Some(7), channel: None }]);
    assert!(analyser.windows().as_ref().unwrap().iter().all(|w| w.end.is_some()));
    assert_eq!(analyser.windows().as_ref().unwrap().len(), 8);
}

#[test]
fn a_reading_is_its_number_and_no_reading_is_negative_infinity() {
    assert_eq!(reading_level(Some((-23.5f64).to_bits())), level(-23.5));
    assert_eq!(reading_level(Some(0)), level(0.0));
    assert_eq!(reading_level(None), Level::neg_infinity());
    assert_eq!(reading_level(None), level(f64::NEG_INFINITY));
    assert!(reading_level(Some(f64::NAN.to_bits())).is_nan());
    assert_eq!(reading_level(Some(f64::NAN.to_bits())).or_unmeasurable(), Level::neg_infinity());
}
