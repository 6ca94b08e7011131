use dg::elements::{ensure_nonzero, validate_http_url};
use dg::error::Error;
use dg::graph::cycle::has_cycle;
use dg::graph::error::GraphError;
use dg::media::color::{clamp_u8, i420_to_rgb, rgb_to_i420};

fn edges(pairs: &[(&str, &str)]) -> Vec<(String, String)> {
    pairs.iter().map(|(a, b)| (a.to_string(), b.to_string())).collect()
}

#[test]
fn chains_and_diamonds_have_no_cycle() {
    assert!(!has_cycle(&[]));
    assert!(!has_cycle(&edges(&[("source", "decode"), ("decode", "sink")])));
    assert!(!has_cycle(&edges(&[("a", "b"), ("a", "c"), ("b", "d"), ("c", "d")])));
}

#[test]
fn loops_of_any_length_are_cycles() {
    assert!(has_cycle(&edges(&[("a", "a")])));
    assert!(has_cycle(&edges(&[("a", "b"), ("b", "a")])));
    assert!(has_cycle(&edges(&[("s", "a"), ("a", "b"), ("b", "c"), ("c", "a"), ("c", "t")])));
}

#[test]
fn adding_a_back_edge_creates_a_cycle() {
    let mut graph = edges(&[("a", "b"), ("b", "c")]);
    assert!(!has_cycle(&graph));
    graph.push(("c".to_string(), "a".to_string()));
    assert!(has_cycle(&graph));
}

#[test]
fn clamp_saturates_into_a_byte() {
    assert_eq!(clamp_u8(-5), 0);
    assert_eq!(clamp_u8(128), 128);
    assert_eq!(clamp_u8(300), 255);
}

#[test]
fn rgb_to_i420_of_grey_pixels() {
    // A 2x2 mid-grey image: luma (66+129+25)*128/256 + 16 = 126, neutral chroma.
    let rgb = vec![128u8; 12];
    let i420 = rgb_to_i420(&rgb, 2, 2).expect("convert");
    assert_eq!(i420, vec![126, 126, 126, 126, 128, 128]);
}

#[test]
fn rgb_to_i420_rounds_chroma_planes_up() {
    let rgb = vec![0u8; 3 * 3 * 3];
    let i420 = rgb_to_i420(&rgb, 3, 3).expect("convert");
    assert_eq!(i420.len(), 9 + 2 * 4);
    assert_eq!(i420[0], 16);
    assert_eq!(i420[9], 128);
}

#[test]
fn color_conversions_reject_wrong_sizes() {
    assert!(matches!(rgb_to_i420(&[0u8; 5], 1, 2), Err(Error::Media(_))));
    assert!(matches!(i420_to_rgb(&[0u8; 5], 2, 2), Err(Error::Media(_))));
    assert!(matches!(rgb_to_i420(&[], usize::MAX, 2), Err(Error::Media(_))));
}

#[test]
fn i420_to_rgb_of_black_and_white() {
    let black = i420_to_rgb(&[16, 128, 128], 1, 1).expect("convert");
    assert_eq!(black, vec![0, 0, 0]);
    let white = i420_to_rgb(&[235, 128, 128], 1, 1).expect("convert");
    assert_eq!(white, vec![255, 255, 255]);
}

#[test]
fn grey_survives_a_color_round_trip() {
    let rgb = vec![100u8; 2 * 2 * 3];
    let back = i420_to_rgb(&rgb_to_i420(&rgb, 2, 2).expect("to i420"), 2, 2).expect("to rgb");
    for value in back {
        assert!((value as i32 - 100).abs() <= 2);
    }
}

#[test]
fn nonzero_parameters_are_checked() {
    assert_eq!(ensure_nonzero(3, "input_width"), Ok(3));
    assert_eq!(
        ensure_nonzero(0, "input_width"),
        Err(GraphError::Config("field input_width must be non-zero".to_string()))
    );
}

#[test]
fn http_urls_need_scheme_and_target() {
    assert!(validate_http_url("http://example.com/push").is_ok());
    assert!(validate_http_url("HTTPS://example.com").is_ok());
    assert_eq!(
        validate_http_url("example.com"),
        Err(GraphError::Config("field url must use the http:// or https:// scheme".to_string()))
    );
    assert!(matches!(validate_http_url("ftp://example.com"), Err(GraphError::Config(m)) if m.contains("non-empty")));
    assert!(validate_http_url("http://").is_err());
    assert!(validate_http_url("http://exa mple.com").is_err());
}
