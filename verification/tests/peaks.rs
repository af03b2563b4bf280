use analwave::analysers::peaks::{square_side, PeaksAnalyzer};
use analwave::cli::{Cli, StreamInfo};
use analwave::level::Level;

fn options() -> Cli {
    Cli {
        input: String::from("in.wav"),
        underrun: false,
        samples: 16,
        silence: false,
        lufs: level(-70.0),
        silence_percentage: 99,
        no_progress: true,
        debug: false,
        silent: true,
        json: None,
        window_size: 48000,
        loudness: false,
        fft: false,
        fft_file: None,
        fft_vis: None,
        fft_bins: 8,
        fft_framewise: false,
        peaks: false,
        peaks_file: None,
    }
}

fn level(value: f64) -> Level {
    Level::from_bits(value.to_bits())
}

fn analyser(channels: u16, frames: usize) -> PeaksAnalyzer {
    let stream = StreamInfo { channels, sample_rate: 48000, num_frames: frames };
    let mut a = PeaksAnalyzer::new(&options(), &stream, String::from("peaks.png"));
    for index in 0..frames {
        let frame: Vec<i32> = (0..channels).map(|c| (index as i32 + 1) * (c as i32 + 1)).collect();
        a.analyse(index, &frame);
    }
    a
}

#[test]
fn side_is_the_least_whose_square_holds_the_values() {
    let expected = [
        (0usize, 0usize),
        (1, 1),
        (2, 2),
        (3, 2),
        (4, 2),
        (5, 3),
        (9, 3),
        (10, 4),
        (16, 4),
        (17, 5),
        (1_000_000, 1000),
        (1_000_001, 1001),
        (4_294_836_225, 65535),
        (4_294_836_226, 65536),
    ];
    for (n, side) in expected {
        assert_eq!(square_side(n), side, "side of {}", n);
    }
    assert_eq!(square_side(usize::MAX), 4_294_967_296);
}

#[test]
fn samples_are_kept_channel_by_channel() {
    let a = analyser(2, 3);
    assert_eq!(a.samples(), &vec![vec![1, 2, 3], vec![2, 4, 6]]);
    assert_eq!(a.frames_seen(), 3);
    assert_eq!(a.channels(), 2);
    assert_eq!(a.path(), "peaks.png");
}

#[test]
fn each_channel_fills_a_padded_square() {
    let mut a = analyser(2, 5);
    assert_eq!(a.finish(), 0);
    let levels: Vec<Vec<Level>> = vec![
        (0..5).map(|i| level(-(i as f64))).collect(),
        (0..5).map(|i| level(-10.0 - i as f64)).collect(),
    ];
    let map = a.render(&levels).unwrap();
    assert_eq!(map.width, 3);
    assert_eq!(map.height, 6);
    assert_eq!(map.bytes.len(), 3 * 6 * 8);
    let mut expected = Vec::new();
    for channel in &levels {
        for value in channel {
            expected.extend(value.to_bits().to_le_bytes());
        }
        for _ in 0..4 {
            expected.extend(f64::NEG_INFINITY.to_le_bytes());
        }
    }
    assert_eq!(map.bytes, expected);
    let report = a.json().unwrap();
    assert_eq!(report.output, "peaks.png");
    assert_eq!(report.channel_size, 5);
    assert_eq!(report.square_size, 9);
    assert_eq!(report.padding, 4);
}

#[test]
fn a_full_square_has_no_padding() {
    let a = analyser(1, 4);
    let levels = vec![vec![level(-1.0), level(-2.0), level(-3.0), level(-4.0)]];
    let map = a.render(&levels).unwrap();
    assert_eq!((map.width, map.height), (2, 2));
    let expected: Vec<u8> =
        [-1.0f64, -2.0, -3.0, -4.0].iter().flat_map(|v| v.to_le_bytes()).collect();
    assert_eq!(map.bytes, expected);
    assert_eq!(a.json().unwrap().padding, 0);
}

#[test]
fn levels_must_match_the_samples() {
    let a = analyser(2, 3);
    let short = vec![vec![level(0.0); 3], vec![level(0.0); 2]];
    assert!(a.render(&short).is_none());
    let one = vec![vec![level(0.0); 3]];
    assert!(a.render(&one).is_none());
    let empty = analyser(0, 0);
    assert!(empty.render(&vec![]).is_none());
    assert!(empty.json().is_none());
    let nothing = analyser(1, 0);
    let map = nothing.render(&vec![vec![]]).unwrap();
    assert_eq!((map.width, map.height, map.bytes.len()), (0, 0, 0));
}
