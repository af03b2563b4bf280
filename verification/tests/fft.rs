use analwave::analysers::fft::{
    lower, push_encoded, push_le_bytes, slices_of, upper, FftAnalyser, FftVisualizer, Rgb,
};
use aus::spectrum::rstft;
use aus::WindowType;
use analwave::cli::{Cli, StreamInfo};
use analwave::level::Level;

fn options() -> Cli {
    Cli {
        input: String::from("in.wav"),
        underrun: false,
        samples: 16,
        silence: false,
        lufs: level(-70.0),
        silence_percentage: 99,
        no_progress: true,
        debug: false,
        silent: true,
        json: None,
        window_size: 48000,
        loudness: false,
        fft: false,
        fft_file: None,
        fft_vis: None,
        fft_bins: 8,
        fft_framewise: false,
        peaks: false,
        peaks_file: None,
    }
}

fn level(value: f64) -> Level {
    Level::from_bits(value.to_bits())
}

fn analyser(fft_bins: usize, channels: u16, framewise: bool, raw: bool, vis: bool) -> FftAnalyser {
    let mut args = options();
    args.fft = raw;
    args.fft_bins = fft_bins;
    args.fft_framewise = framewise;
    args.fft_vis = if vis { Some(String::from("vis.png")) } else { None };
    let stream = StreamInfo { channels, sample_rate: 48000, num_frames: 1000 };
    let path = if raw { Some(String::from("raw.png")) } else { None };
    FftAnalyser::new(&args, &stream, path)
}

fn requests(fft_bins: usize, frames: usize) -> usize {
    let mut a = analyser(fft_bins, 1, true, true, false);
    let mut count = 0;
    for index in 0..frames {
        if a.analyse(index, &[index as i32 + 1]).is_some() {
            count += 1;
        }
    }
    let (status, last) = a.finish();
    assert_eq!(status, 0);
    if last.is_some() {
        count += 1;
    }
    count
}

#[test]
fn bytes_are_little_endian() {
    let mut out = vec![7u8];
    push_le_bytes(&mut out, 0x0102_0304_0506_0708);
    assert_eq!(out, vec![7, 8, 7, 6, 5, 4, 3, 2, 1]);
    let mut plain = Vec::new();
    push_le_bytes(&mut plain, (-70.25f64).to_bits());
    assert_eq!(plain, (-70.25f64).to_le_bytes().to_vec());
    let mut two = Vec::new();
    push_encoded(&mut two, &[level(1.5), level(-2.0)]);
    let mut expected = 1.5f64.to_le_bytes().to_vec();
    expected.extend((-2.0f64).to_le_bytes());
    assert_eq!(two, expected);
}

#[test]
fn bounds_skip_the_sentinel_and_nan() {
    assert_eq!(lower(None, level(f64::NEG_INFINITY)), None);
    assert_eq!(lower(None, level(f64::NAN)), None);
    assert_eq!(lower(None, level(3.0)), Some(level(3.0)));
    assert_eq!(lower(Some(level(3.0)), level(2.0)), Some(level(2.0)));
    assert_eq!(lower(Some(level(3.0)), level(4.0)), Some(level(3.0)));
    assert_eq!(lower(Some(level(3.0)), level(f64::NEG_INFINITY)), Some(level(3.0)));
    assert_eq!(upper(None, level(f64::NEG_INFINITY)), None);
    assert_eq!(upper(Some(level(3.0)), level(4.0)), Some(level(4.0)));
    assert_eq!(upper(Some(level(3.0)), level(2.0)), Some(level(3.0)));
    assert_eq!(upper(Some(level(3.0)), level(f64::NAN)), Some(level(3.0)));
    assert_eq!(upper(Some(level(3.0)), level(f64::INFINITY)), Some(level(f64::INFINITY)));
}

#[test]
fn visualizer_tracks_the_bounds() {
    let mut vis = FftVisualizer::new(String::from("out.png"));
    assert_eq!(vis.path, "out.png");
    assert!(vis.min.is_none() && vis.max.is_none() && vis.data.is_empty());
    vis.extend(&[level(-3.0), level(f64::NEG_INFINITY), level(5.0)]);
    vis.extend(&[level(-7.5), level(f64::NAN)]);
    assert_eq!(vis.data.len(), 5);
    assert_eq!(vis.min, Some(level(-7.5)));
    assert_eq!(vis.max, Some(level(5.0)));
    vis.min = None;
    vis.max = None;
    vis.find_min_max();
    assert_eq!(vis.min, Some(level(-7.5)));
    assert_eq!(vis.max, Some(level(5.0)));
}

#[test]
fn picture_without_values_that_count_is_none() {
    let mut vis = FftVisualizer::new(String::from("out.png"));
    assert!(vis.visualize(2, 0, &[]).is_none());
    vis.extend(&[level(f64::NEG_INFINITY), level(f64::NEG_INFINITY)]);
    let black = Rgb { red: 0, green: 0, blue: 0 };
    assert!(vis.visualize(2, 1, &[black, black]).is_none());
}

#[test]
fn picture_is_turned_a_quarter_counter_clockwise() {
    let mut vis = FftVisualizer::new(String::from("out.png"));
    vis.extend(&[level(0.0), level(1.0), level(2.0), level(3.0), level(4.0), level(5.0)]);
    let colours: Vec<Rgb> =
        (0..6u8).map(|i| Rgb { red: 10 + i, green: 20 + i, blue: 30 + i }).collect();
    // Three values wide and two rows high:   0 1 2
    //                                        3 4 5
    // turned, two pixels wide, three high:   2 5
    //                                        1 4
    //                                        0 3
    let pixels = vis.visualize(3, 2, &colours).unwrap();
    let order = [2u8, 5, 1, 4, 0, 3];
    let mut expected = Vec::new();
    for i in order {
        expected.extend([10 + i, 20 + i, 30 + i]);
    }
    assert_eq!(pixels, expected);
}

#[test]
fn pixels_without_a_value_stay_black() {
    let mut vis = FftVisualizer::new(String::from("out.png"));
    vis.extend(&[level(0.0), level(1.0), level(2.0)]);
    let white = Rgb { red: 255, green: 255, blue: 255 };
    let pixels = vis.visualize(2, 2, &[white, white, white]).unwrap();
    // 0 1      1 .
    // 2 .  ->  0 2
    assert_eq!(pixels, vec![255, 255, 255, 0, 0, 0, 255, 255, 255, 255, 255, 255]);
}

#[test]
fn overlapped_analysis_hands_the_whole_signal_out_at_the_end() {
    let mut a = analyser(4, 2, false, true, true);
    for index in 0..5 {
        assert!(a.analyse(index, &[index as i32, -(index as i32)]).is_none());
    }
    assert_eq!(a.frames_seen(), 5);
    let (status, signals) = a.finish();
    assert_eq!(status, 0);
    assert_eq!(signals, Some(vec![vec![0, 1, 2, 3, 4], vec![0, -1, -2, -3, -4]]));
}

#[test]
fn framewise_analysis_hands_out_every_full_window() {
    let mut a = analyser(4, 2, true, true, false);
    assert!(a.framewise());
    assert_eq!(a.fft_size(), 4);
    assert_eq!(a.channels(), 2);
    let mut handed = Vec::new();
    for index in 0..9 {
        if let Some(w) = a.analyse(index, &[index as i32, 10 * index as i32]) {
            handed.push((index, w));
        }
    }
    assert_eq!(
        handed,
        vec![
            (3, vec![vec![0, 1, 2, 3], vec![0, 10, 20, 30]]),
            (7, vec![vec![4, 5, 6, 7], vec![40, 50, 60, 70]]),
        ]
    );
    let (_, last) = a.finish();
    assert_eq!(last, Some(vec![vec![8, 0, 0, 0], vec![80, 0, 0, 0]]));
}

#[test]
fn whole_windows_make_no_padded_slice_and_one_sample_more_makes_one() {
    assert_eq!(requests(4, 0), 0);
    assert_eq!(requests(4, 12), 3);
    assert_eq!(requests(4, 13), 4);
    assert_eq!(requests(4, 15), 4);
    assert_eq!(requests(4, 16), 4);
    assert_eq!(requests(2, 7), 4);
}

#[test]
fn slices_are_interleaved_channel_after_channel() {
    let mut a = analyser(2, 2, false, true, true);
    assert_eq!(a.raster_width(), 4);
    // [channel][slice][bin], two bins per channel
    let spectra = vec![
        vec![vec![level(1.0), level(2.0)], vec![level(5.0), level(6.0)]],
        vec![vec![level(3.0), level(4.0)], vec![level(7.0), level(8.0)]],
    ];
    assert!(a.fits(&spectra));
    assert!(a.accept(&spectra));
    let expected: Vec<Level> = (1..=8).map(|v| level(v as f64)).collect();
    let vis = a.vis().as_ref().unwrap();
    assert_eq!(vis.data, expected);
    assert_eq!(vis.min, Some(level(1.0)));
    assert_eq!(vis.max, Some(level(8.0)));
    assert_eq!(vis.path, "vis.png");
    let raw = a.raw().as_ref().unwrap();
    let bytes: Vec<u8> = (1..=8).flat_map(|v| (v as f64).to_le_bytes()).collect();
    assert_eq!(raw.results, bytes);
    assert_eq!(raw.path, "raw.png");
    assert_eq!(a.raw_height(), Some(2));
    assert_eq!(a.vis_height(), Some(2));
    let more = vec![vec![vec![level(-1.0), level(9.0)]], vec![vec![level(0.5), level(0.25)]]];
    assert!(a.accept(&more));
    assert_eq!(a.raw_height(), Some(3));
    let vis = a.vis().as_ref().unwrap();
    assert_eq!(vis.data.len(), 12);
    assert_eq!(vis.min, Some(level(-1.0)));
    assert_eq!(vis.max, Some(level(9.0)));
}

#[test]
fn spectra_of_the_wrong_shape_are_skipped() {
    let mut a = analyser(2, 2, false, true, true);
    let one_channel = vec![vec![vec![level(1.0), level(2.0)]]];
    assert!(!a.accept(&one_channel));
    let uneven = vec![
        vec![vec![level(1.0), level(2.0)], vec![level(1.0), level(2.0)]],
        vec![vec![level(3.0), level(4.0)]],
    ];
    assert!(!a.accept(&uneven));
    let wide = vec![
        vec![vec![level(1.0), level(2.0), level(3.0)]],
        vec![vec![level(3.0), level(4.0), level(5.0)]],
    ];
    assert!(!a.accept(&wide));
    assert_eq!(a.raw_height(), Some(0));
    assert!(a.raw().as_ref().unwrap().results.is_empty());
    assert!(a.vis().as_ref().unwrap().data.is_empty());
    let none: Vec<Vec<Vec<Level>>> = vec![vec![], vec![]];
    assert!(a.accept(&none));
    assert_eq!(a.raw_height(), Some(0));
}

#[test]
fn sinks_are_there_where_they_are_asked_for() {
    let a = analyser(8, 1, false, false, true);
    assert!(a.raw().is_none());
    assert!(a.vis().is_some());
    assert_eq!(a.raw_height(), None);
    assert_eq!(a.vis_height(), Some(0));
    assert_eq!(a.raster_width(), 5);
    let report = a.json();
    assert_eq!(report.size, 8);
    assert_eq!(report.output, None);
    assert_eq!(report.visualization, Some(String::from("vis.png")));
    let b = analyser(8, 3, false, true, false);
    assert_eq!(b.raster_width(), 15);
    assert_eq!(b.json().output, Some(String::from("raw.png")));
    assert_eq!(b.json().visualization, None);
}

#[test]
fn transform_needs_a_hop_and_a_channel() {
    assert!(!FftAnalyser::supports(0, 2));
    assert!(!FftAnalyser::supports(1, 2));
    assert!(FftAnalyser::supports(2, 1));
    assert!(FftAnalyser::supports(2048, 2));
    assert!(!FftAnalyser::supports(2048, 0));
    assert!(!FftAnalyser::supports(usize::MAX, 2));
}

#[test]
fn slice_counts_of_whole_streams() {
    assert_eq!(slices_of(0, 4, true), 0);
    assert_eq!(slices_of(12, 4, true), 3);
    assert_eq!(slices_of(13, 4, true), 4);
    assert_eq!(slices_of(0, 4, false), 1);
    assert_eq!(slices_of(4, 4, false), 1);
    assert_eq!(slices_of(5, 4, false), 2);
    assert_eq!(slices_of(12, 4, false), 5);
    assert_eq!(slices_of(13, 4, false), 6);
    assert_eq!(slices_of(48000, 2048, false), 46);
    let mut a = analyser(4, 1, false, true, false);
    for index in 0..13 {
        a.analyse(index, &[1]);
    }
    assert_eq!(a.expected_slices(), 6);
}

#[test]
fn the_overlapped_transform_makes_the_expected_slices() {
    for fft_size in [2usize, 3, 4, 8, 9, 64] {
        for frames in [0usize, 1, 2, 3, 7, 8, 9, 15, 16, 17, 63, 64, 65, 128, 129, 200] {
            let signal: Vec<f64> = (0..frames).map(|i| ((i % 7) as f64) - 3.0).collect();
            let spectrogram = rstft(&signal, fft_size, fft_size / 2, WindowType::Hanning);
            assert_eq!(
                spectrogram.len(),
                slices_of(frames, fft_size, false),
                "{} frames, size {}",
                frames,
                fft_size
            );
            assert!(spectrogram.iter().all(|slice| slice.len() == fft_size / 2 + 1));
        }
    }
}

#[test]
fn one_window_makes_one_slice() {
    for fft_size in [2usize, 4, 8, 64] {
        let window: Vec<f64> = (0..fft_size).map(|i| i as f64).collect();
        assert_eq!(rstft(&window, fft_size, fft_size / 2, WindowType::Hanning).len(), 1);
        assert_eq!(slices_of(fft_size, fft_size, true), 1);
    }
}
