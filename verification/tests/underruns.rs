use analwave::analysers::underruns::UnderrunAnalyser;
use analwave::cli::{Cli, StreamInfo};
use analwave::level::Level;
use analwave::segment::Segment;
use analwave::status::ERR_CONTAINS_UNDERRUN;

fn options(samples: usize) -> Cli {
    Cli {
        input: String::from("in.wav"),
        underrun: true,
        samples,
        silence: false,
        lufs: Level::from_bits((-70.0f64).to_bits()),
        silence_percentage: 99,
        no_progress: true,
        debug: false,
        silent: true,
        json: None,
        window_size: 48000,
        loudness: false,
        fft: false,
        fft_file: None,
        fft_vis: None,
        fft_bins: 2048,
        fft_framewise: false,
        peaks: false,
        peaks_file: None,
    }
}

fn run(samples: usize, channels: u16, frames: &[Vec<i32>]) -> (UnderrunAnalyser, u8, Vec<Segment>) {
    let stream = StreamInfo { channels, sample_rate: 48000, num_frames: frames.len() };
    let mut analyser = UnderrunAnalyser::new(&options(samples), &stream);
    let mut found = Vec::new();
    for (index, frame) in frames.iter().enumerate() {
        found.extend(analyser.analyse(index, frame));
    }
    let (status, last) = analyser.finish();
    found.extend(last);
    (analyser, status, found)
}

fn mono(samples: &[i32]) -> Vec<Vec<i32>> {
    samples.iter().map(|s| vec![*s]).collect()
}

#[test]
fn two_short_runs_make_no_segment() {
    let mut samples = vec![5];
    samples.extend(vec![0; 8]);
    samples.push(7);
    samples.extend(vec![0; 8]);
    samples.push(3);
    let (analyser, status, found) = run(16, 1, &mono(&samples));
    assert!(found.is_empty());
    assert_eq!(status, 0);
    assert!(analyser.json().is_none());
}

#[test]
fn one_run_of_sixteen_makes_one_segment() {
    let mut samples = vec![5, 6];
    samples.extend(vec![0; 16]);
    samples.push(9);
    let (analyser, status, found) = run(16, 1, &mono(&samples));
    assert_eq!(found, vec![Segment { start: 2, end: Some(18), channel: Some(0) }]);
    assert_eq!(status, ERR_CONTAINS_UNDERRUN);
    let report = analyser.json().unwrap();
    assert_eq!(report.threshold, 16);
    assert_eq!(report.results.len(), 1);
    assert_eq!(report.results[0].start_sample, 2);
    assert_eq!(report.results[0].end_sample, 18);
    assert_eq!(report.results[0].duration_samples, 16);
    assert_eq!(report.results[0].channel, 0);
}

#[test]
fn run_that_ends_with_the_stream_is_closed_by_finish() {
    let mut samples = vec![1];
    samples.extend(vec![0; 4]);
    let (analyser, status, found) = run(3, 1, &mono(&samples));
    assert_eq!(found, vec![Segment { start: 1, end: Some(5), channel: Some(0) }]);
    assert_eq!(status, ERR_CONTAINS_UNDERRUN);
    assert_eq!(analyser.segments().len(), 1);
    assert_eq!(analyser.states()[0].underrun_count, 4);
    assert_eq!(analyser.states()[0].underrun_prev_index, 4);
}

#[test]
fn channels_are_independent() {
    let frames = vec![vec![0, 1], vec![0, 2], vec![0, 0], vec![4, 0], vec![5, 0], vec![6, 7]];
    let (_, status, found) = run(3, 2, &frames);
    assert_eq!(
        found,
        vec![
            Segment { start: 0, end: Some(3), channel: Some(0) },
            Segment { start: 2, end: Some(5), channel: Some(1) },
        ]
    );
    assert_eq!(status, ERR_CONTAINS_UNDERRUN);
}

#[test]
fn clean_stream_has_status_zero() {
    let (analyser, status, found) = run(2, 2, &[vec![1, 2], vec![3, 4]]);
    assert!(found.is_empty());
    assert_eq!(status, 0);
    assert_eq!(analyser.frames_seen(), 2);
    assert_eq!(analyser.num_frames(), 2);
    assert_eq!(analyser.channels(), 2);
    assert_eq!(analyser.sample_rate(), 48000);
}

#[test]
fn no_segment_is_left_open() {
    let frames = vec![vec![0, 0], vec![0, 0], vec![1, 0], vec![0, 0], vec![0, 0], vec![0, 0]];
    let (analyser, status, found) = run(2, 2, &frames);
    assert_eq!(status, ERR_CONTAINS_UNDERRUN);
    assert_eq!(found.len(), 3);
    assert!(analyser.segments().iter().all(|s| s.end.is_some()));
    assert!(analyser.segments().iter().all(|s| s.start <= s.end.unwrap() && s.end.unwrap() <= 6));
    assert_eq!(
        found,
        vec![
            Segment { start: 0, end: Some(2), channel: Some(0) },
            Segment { start: 3, end: Some(6), channel: Some(0) },
            Segment { start: 0, end: Some(6), channel: Some(1) },
        ]
    );
}

#[test]
fn a_run_of_one_less_than_the_threshold_is_no_underrun() {
    let mut samples = vec![9];
    samples.extend(vec![0; 15]);
    samples.push(9);
    let (_, status, found) = run(16, 1, &mono(&samples));
    assert!(found.is_empty());
    assert_eq!(status, 0);
}
