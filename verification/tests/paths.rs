use analwave::paths::{calculate_png_path, derived_png_name};

#[test]
fn a_given_file_is_taken_as_it_is() {
    let json = Some(String::from("out/report.json"));
    let file = Some(String::from("pictures/spectrum.png"));
    assert_eq!(calculate_png_path(&json, &file, "fft"), file);
    assert_eq!(calculate_png_path(&None, &file, "fft"), file);
}

#[test]
fn the_picture_goes_beside_the_report() {
    let json = Some(String::from("out/report.json"));
    assert_eq!(calculate_png_path(&json, &None, "fft"), Some(String::from("out/report_fft.png")));
    assert_eq!(
        calculate_png_path(&json, &None, "peaks"),
        Some(String::from("out/report_peaks.png"))
    );
    let bare = Some(String::from("report.json"));
    assert_eq!(calculate_png_path(&bare, &None, "fft"), Some(String::from("report_fft.png")));
}

#[test]
fn without_file_and_report_there_is_no_path() {
    assert_eq!(calculate_png_path(&None, &None, "fft"), None);
}

#[test]
fn a_report_without_a_file_name_gives_no_path() {
    assert_eq!(calculate_png_path(&Some(String::from("")), &None, "fft"), None);
    assert_eq!(calculate_png_path(&Some(String::from("..")), &None, "fft"), None);
}

#[test]
fn the_name_is_stem_underscore_suffix_png() {
    assert_eq!(derived_png_name("report", "fft"), "report_fft.png");
    assert_eq!(derived_png_name("", "peaks"), "_peaks.png");
}
