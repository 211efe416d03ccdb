use spotdl::errors::DlErrors;
use spotdl::resolver::{ResourceId, ResourceKind};
use spotdl::selector::{
    FileRef, QualityTier, SelectStart, TrackInfo, best_representation, consider_substitute,
    start_selection,
};

fn rid(n: u128) -> ResourceId {
    ResourceId { kind: ResourceKind::Track, id: n }
}

fn track(
    n: u128,
    available: bool,
    tiers: &[QualityTier],
    alternatives: Option<Vec<ResourceId>>,
) -> TrackInfo {
    let files = tiers
        .iter()
        .enumerate()
        .map(|(i, t)| (*t, FileRef { raw: vec![i as u8; 4] }))
        .collect();
    TrackInfo {
        id: rid(n),
        uri: format!("spotify:track:{n}"),
        name: format!("track {n}"),
        available,
        files,
        alternatives,
    }
}

#[test]
fn highest_tier_wins() {
    let files = vec![
        (QualityTier::OggVorbis96, FileRef { raw: vec![1] }),
        (QualityTier::OggVorbis320, FileRef { raw: vec![2] }),
        (QualityTier::OggVorbis160, FileRef { raw: vec![3] }),
    ];
    assert_eq!(best_representation(&files), Some((1, 320)));
}

#[test]
fn lower_tiers_fall_back() {
    let files = vec![
        (QualityTier::Unrecognized, FileRef { raw: vec![1] }),
        (QualityTier::OggVorbis96, FileRef { raw: vec![2] }),
        (QualityTier::OggVorbis160, FileRef { raw: vec![3] }),
    ];
    assert_eq!(best_representation(&files), Some((2, 160)));

    let files = vec![
        (QualityTier::Unrecognized, FileRef { raw: vec![1] }),
        (QualityTier::OggVorbis96, FileRef { raw: vec![2] }),
    ];
    assert_eq!(best_representation(&files), Some((1, 96)));
}

#[test]
fn unrecognized_tiers_are_never_selected() {
    let files = vec![(QualityTier::Unrecognized, FileRef { raw: vec![1] })];
    assert_eq!(best_representation(&files), None);
}

#[test]
fn qualifying_primary_never_consults_substitutes() {
    // the substitutes would offer nothing anyway; a qualifying primary is
    // chosen at once
    let t = track(
        7,
        true,
        &[QualityTier::OggVorbis160],
        Some(vec![rid(8), rid(9)]),
    );
    match start_selection(&t) {
        SelectStart::Chosen(i, b) => {
            assert_eq!(i, 0);
            assert_eq!(b, 160);
        }
        _ => panic!("a qualifying primary must be chosen at once"),
    }
}

#[test]
fn unavailable_primary_searches_substitutes_in_order() {
    let t = track(
        7,
        false,
        &[QualityTier::OggVorbis320],
        Some(vec![rid(8), rid(9), rid(10)]),
    );
    let mut search = match start_selection(&t) {
        SelectStart::Search(s) => s,
        _ => panic!("an unavailable primary with substitutes starts a search"),
    };
    assert_eq!(search.pop_next(), Some(rid(8)));
    assert_eq!(search.pop_next(), Some(rid(9)));
    assert_eq!(search.pop_next(), Some(rid(10)));
    assert_eq!(search.pop_next(), None);
    assert_eq!(search.failure(), DlErrors::TrackUnavailable);
}

#[test]
fn first_qualifying_substitute_is_taken() {
    // the first qualifying substitute wins even though a later one holds a
    // higher tier
    let low = track(8, true, &[QualityTier::OggVorbis96], None);
    let high = track(9, true, &[QualityTier::OggVorbis320], None);
    let first = consider_substitute(&low).expect("the low substitute qualifies");
    assert_eq!(first, (0, 96));
    // the later, higher-tier substitute would have qualified too
    assert_eq!(consider_substitute(&high), Some((0, 320)));
}

#[test]
fn non_qualifying_substitutes_are_passed_over() {
    let unavailable = track(8, false, &[QualityTier::OggVorbis320], None);
    let unrecognized = track(9, true, &[QualityTier::Unrecognized], None);
    assert_eq!(consider_substitute(&unavailable), None);
    assert_eq!(consider_substitute(&unrecognized), None);
}

#[test]
fn no_substitutes_fails_at_once() {
    let t = track(7, false, &[QualityTier::OggVorbis320], None);
    match start_selection(&t) {
        SelectStart::Failed(e) => assert_eq!(e, DlErrors::TrackUnavailable),
        _ => panic!("no substitutes must fail at once"),
    }
    let t = track(7, false, &[QualityTier::OggVorbis320], Some(vec![]));
    match start_selection(&t) {
        SelectStart::Failed(e) => assert_eq!(e, DlErrors::TrackUnavailable),
        _ => panic!("an empty substitute list must fail at once"),
    }
}

#[test]
fn primary_without_recognized_tiers_reports_no_audio_files() {
    let t = track(7, true, &[QualityTier::Unrecognized], None);
    match start_selection(&t) {
        SelectStart::Failed(e) => assert_eq!(e, DlErrors::NoAudioFiles),
        _ => panic!("an item without recognized tiers has no audio files"),
    }
    // the same with an exhausted search
    let t = track(7, true, &[], Some(vec![rid(8)]));
    let mut search = match start_selection(&t) {
        SelectStart::Search(s) => s,
        _ => panic!("substitutes must be searched"),
    };
    assert_eq!(search.pop_next(), Some(rid(8)));
    assert_eq!(search.pop_next(), None);
    assert_eq!(search.failure(), DlErrors::NoAudioFiles);
}
