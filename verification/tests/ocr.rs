use dg::graph::error::GraphError;
use dg::ocr::{ctc_class_count, ctc_collapse, score_map_size, text_regions};

fn mask(values: &[f32], threshold: f32) -> Vec<bool> {
    values.iter().map(|value| *value >= threshold).collect()
}

#[test]
fn a_square_of_lit_pixels_is_one_region() {
    let values = [0.0, 0.8, 0.8, 0.0, 0.0, 0.8, 0.8, 0.0, 0.0, 0.0, 0.0, 0.0];
    let (height, width) = score_map_size(&vec![1, 1, 3, 4]).expect("score map shape");
    let regions = text_regions(&mask(&values, 0.5), width, height).expect("regions");
    assert_eq!(regions.len(), 1);
    let region = &regions[0];
    assert_eq!(region.points, vec![1, 2, 5, 6]);
    assert_eq!((region.min_x, region.max_x, region.min_y, region.max_y), (1, 2, 0, 1));
}

#[test]
fn regions_do_not_join_across_row_ends_or_diagonals() {
    // 1 0 1
    // 1 0 0
    // 0 1 1
    let lit = vec![true, false, true, true, false, false, false, true, true];
    let regions = text_regions(&lit, 3, 3).expect("regions");
    let firsts: Vec<usize> = regions.iter().map(|region| region.points[0]).collect();
    assert_eq!(firsts, vec![0, 2, 7]);
    assert_eq!(regions[0].points, vec![0, 3]);
    assert_eq!(regions[1].points, vec![2]);
    assert_eq!(regions[2].points, vec![7, 8]);
    assert_eq!((regions[2].min_x, regions[2].max_x, regions[2].min_y, regions[2].max_y), (1, 2, 2, 2));
}

#[test]
fn a_winding_region_is_found_whole_and_once() {
    // 1 1 1 1
    // 0 0 0 1
    // 1 1 0 1
    // 1 0 0 1
    // 1 1 1 1
    let lit = vec![
        true, true, true, true, false, false, false, true, true, true, false, true, true, false, false, true, true,
        true, true, true,
    ];
    let regions = text_regions(&lit, 4, 5).expect("regions");
    assert_eq!(regions.len(), 1);
    let mut points = regions[0].points.clone();
    points.sort_unstable();
    let expected: Vec<usize> = (0..20).filter(|index| lit[*index]).collect();
    assert_eq!(points, expected);
    assert_eq!((regions[0].min_x, regions[0].max_x, regions[0].min_y, regions[0].max_y), (0, 3, 0, 4));
}

#[test]
fn an_unlit_map_has_no_regions() {
    assert!(text_regions(&vec![false; 6], 3, 2).expect("regions").is_empty());
    assert!(text_regions(&Vec::new(), 0, 5).expect("regions").is_empty());
}

#[test]
fn score_maps_must_match_their_shape() {
    assert_eq!(score_map_size(&vec![1, 7, 9]), Ok((7, 9)));
    assert_eq!(
        score_map_size(&vec![2, 1, 3, 4]),
        Err(GraphError::Config("ppocr det expects [1,1,H,W] or [1,H,W]".to_string()))
    );
    assert_eq!(
        text_regions(&vec![true; 5], 2, 3).err(),
        Some(GraphError::Runtime("ocr map size mismatch".to_string()))
    );
    assert_eq!(
        text_regions(&Vec::new(), usize::MAX, 2).err(),
        Some(GraphError::Runtime("ocr map dimensions overflow".to_string()))
    );
}

#[test]
fn ctc_decodes_repeated_symbols_and_blank() {
    let rows: Vec<Vec<f32>> = vec![vec![0.9, 0.1, 0.0], vec![0.8, 0.1, 0.0], vec![0.1, 0.9, 0.0], vec![0.1, 0.9, 0.0]];
    let best: Vec<Option<usize>> = rows
        .iter()
        .map(|row| {
            row.iter().enumerate().max_by(|left, right| left.1.total_cmp(right.1)).map(|(index, _)| index)
        })
        .collect();
    let text: String = ctc_collapse(&best, &vec!['a', 'b'], 2).expect("decode").into_iter().collect();
    assert_eq!(text, "ab");
}

#[test]
fn ctc_collapse_skips_blanks_and_repeats_and_reports_bad_steps() {
    let alphabet = vec!['x', 'y', 'z'];
    let decode = |best: Vec<Option<usize>>| ctc_collapse(&best, &alphabet, 3);
    let text: String = decode(vec![Some(0), Some(0), Some(3), Some(0), Some(1), Some(1), Some(2)])
        .expect("decode")
        .into_iter()
        .collect();
    assert_eq!(text, "xxyz");
    assert_eq!(decode(vec![Some(0), None, Some(9)]), Err(GraphError::Runtime("empty CTC row".to_string())));
    assert_eq!(decode(vec![Some(7), None]), Err(GraphError::Runtime("CTC class exceeds alphabet".to_string())));
    assert_eq!(ctc_class_count(12, 2), Ok(3));
    assert_eq!(ctc_class_count(10, 2), Err(GraphError::Runtime("ocr logits do not match alphabet size".to_string())));
    assert_eq!(ctc_class_count(0, usize::MAX), Err(GraphError::Runtime("ocr alphabet size overflow".to_string())));
}
