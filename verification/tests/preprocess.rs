use dg::graph::error::GraphError;
use dg::preprocess::{
    channel_last_values, classifier_input_layout, detector_input_layout, letterbox_check, place_letterboxed, to_channels_first,
    to_channels_last,
};
use dg::types::DataFormat;

#[test]
fn channel_first_images_become_channel_last() {
    // Two channels of a 1x3 image: R = [1, 2, 3], G = [4, 5, 6].
    let planes = vec![1, 2, 3, 4, 5, 6];
    let interleaved = to_channels_last(&planes, 2, 1, 3);
    assert_eq!(interleaved, vec![1, 4, 2, 5, 3, 6]);
    assert_eq!(to_channels_first(&interleaved, 2, 1, 3), planes);
}

#[test]
fn layout_round_trips_on_a_larger_image() {
    let values: Vec<u32> = (0..24).collect();
    let last = to_channels_last(&values, 3, 2, 4);
    assert_eq!(last[..6], [0, 8, 16, 1, 9, 17]);
    assert_eq!(to_channels_first(&last, 3, 2, 4), values);
}

#[test]
fn detector_input_layouts_are_recognised() {
    assert_eq!(detector_input_layout(DataFormat::NCHW, &vec![1, 3, 4, 5]), Ok((3, 4, 5, true)));
    assert_eq!(detector_input_layout(DataFormat::NCHW, &vec![3, 4, 5]), Ok((3, 4, 5, true)));
    assert_eq!(detector_input_layout(DataFormat::NHWC, &vec![1, 4, 5, 3]), Ok((3, 4, 5, false)));
    assert_eq!(detector_input_layout(DataFormat::NHWC, &vec![4, 5, 3]), Ok((3, 4, 5, false)));
    assert_eq!(
        detector_input_layout(DataFormat::NC, &vec![1, 3]),
        Err(GraphError::Config("yolo preprocess expects NCHW or NHWC rank 3/4 input".to_string()))
    );
    assert_eq!(
        detector_input_layout(DataFormat::NCHW, &vec![2, 3, 4, 5]),
        Err(GraphError::Config("yolo preprocess expects NCHW or NHWC rank 3/4 input".to_string()))
    );
    assert_eq!(
        detector_input_layout(DataFormat::NHWC, &vec![4, 5, 1]),
        Err(GraphError::Config("yolo preprocess currently expects three channels".to_string()))
    );
}

#[test]
fn channel_last_values_check_the_value_count() {
    assert_eq!(channel_last_values(&vec![1, 2, 3, 4, 5, 6], 2, 1, 3, true), Ok(vec![1, 4, 2, 5, 3, 6]));
    assert_eq!(channel_last_values(&vec![1, 2, 3], 3, 1, 1, false), Ok(vec![1, 2, 3]));
    assert_eq!(
        channel_last_values(&vec![1, 2], 3, 1, 1, false),
        Err(GraphError::Runtime("input tensor size does not match its descriptor".to_string()))
    );
    assert_eq!(
        channel_last_values::<u8>(&vec![], usize::MAX, 2, 0, true),
        Err(GraphError::Runtime("input dimensions overflow".to_string()))
    );
}

#[test]
fn letterbox_sizes_are_checked() {
    assert_eq!(letterbox_check(12, 3, 2, 2, 4, 4), Ok(()));
    assert_eq!(letterbox_check(12, 0, 2, 2, 4, 4), Err("resize channels must be non-zero".to_string()));
    assert_eq!(
        letterbox_check(11, 3, 2, 2, 4, 4),
        Err("resize source length does not match dimensions".to_string())
    );
    assert_eq!(letterbox_check(0, 3, 0, 2, 4, 4), Err("letterbox dimensions must be non-zero".to_string()));
    assert_eq!(letterbox_check(0, 3, usize::MAX, 2, 4, 4), Err("resize source size overflow".to_string()));
}

#[test]
fn letterboxing_scales_by_nearest_pixel_and_centres() {
    // A 2x2 one-channel image doubled onto a 4x4 canvas fills it.
    let source = vec![1, 2, 3, 4];
    let doubled = place_letterboxed(&source, 1, 2, 2, 4, 4, 4, 4, 0).expect("fits");
    assert_eq!(doubled, vec![1, 1, 2, 2, 1, 1, 2, 2, 3, 3, 4, 4, 3, 3, 4, 4]);
    // The same image kept at 2x2 on a 4x2 canvas gets a padded column on each side.
    let padded = place_letterboxed(&source, 1, 2, 2, 4, 2, 2, 2, 9).expect("fits");
    assert_eq!(padded, vec![9, 1, 2, 9, 9, 3, 4, 9]);
    // Channels move together.
    let rgb = vec![1, 2, 3, 4, 5, 6];
    let canvas = place_letterboxed(&rgb, 3, 2, 1, 2, 3, 2, 1, 0).expect("fits");
    assert_eq!(canvas, vec![0, 0, 0, 0, 0, 0, 1, 2, 3, 4, 5, 6, 0, 0, 0, 0, 0, 0]);
    assert_eq!(
        place_letterboxed(&vec![1u8], 1, 1, 1, usize::MAX, 2, 1, 1, 0),
        Err("resize target size overflow".to_string())
    );
}

#[test]
fn classifier_input_must_be_channel_first_with_three_channels() {
    assert_eq!(classifier_input_layout(DataFormat::NCHW, &vec![1, 3, 224, 224]), Ok((3, 224, 224)));
    assert_eq!(classifier_input_layout(DataFormat::NCHW, &vec![3, 8, 8]), Ok((3, 8, 8)));
    assert_eq!(
        classifier_input_layout(DataFormat::NHWC, &vec![1, 8, 8, 3]),
        Err(GraphError::Config("resnet preprocess expects NCHW rank 3/4 input".to_string()))
    );
    assert_eq!(
        classifier_input_layout(DataFormat::NCHW, &vec![1, 1, 8, 8]),
        Err(GraphError::Config("resnet expects three channels".to_string()))
    );
}
