use dg::tracking::{TrackBook, TrackState};

#[test]
fn tracks_keep_their_numbers_and_expire_after_max_lost_frames() {
    let mut book = TrackBook::new(1);
    let first = book.update(&vec![vec![]]);
    assert_eq!(first.reported, vec![(1, TrackState::New)]);
    // The same object again: it may continue track slot 0.
    let second = book.update(&vec![vec![0]]);
    assert_eq!(second.reported, vec![(1, TrackState::Continued)]);
    assert!(book.update(&vec![]).reported.is_empty());
    let gone = book.update(&vec![]);
    assert_eq!(gone.kept, vec![false]);
    assert!(book.ids.is_empty());
    let replacement = book.update(&vec![vec![]]);
    assert_eq!(replacement.reported, vec![(2, TrackState::New)]);
}

#[test]
fn each_track_is_continued_by_one_detection_per_frame() {
    let mut book = TrackBook::new(3);
    book.update(&vec![vec![], vec![]]);
    assert_eq!(book.ids, vec![1, 2]);
    let frame = book.update(&vec![vec![1, 0], vec![1, 0], vec![1, 0]]);
    assert_eq!(
        frame.reported,
        vec![(2, TrackState::Continued), (1, TrackState::Continued), (3, TrackState::New)]
    );
    assert_eq!(book.lost, vec![0, 0, 0]);
}
