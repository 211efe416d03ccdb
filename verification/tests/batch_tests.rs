use spotdl::batch::BatchState;
use spotdl::errors::DlErrors;
use spotdl::resolver::{ResourceId, ResourceKind};
use spotdl::retrieval::RetrievalResult;

fn rid(n: u128) -> ResourceId {
    ResourceId { kind: ResourceKind::Track, id: n }
}

#[test]
fn every_item_is_processed_and_failures_are_counted() {
    let mut batch = BatchState::new(4, 5000, 0);
    batch.record(rid(1), "one".to_string(), RetrievalResult::Success("one.ogg".to_string()));
    batch.record(rid(2), "two".to_string(), RetrievalResult::Failure(DlErrors::TrackExists));
    batch.record(
        rid(3),
        "three".to_string(),
        RetrievalResult::Failure(DlErrors::TrackUnavailable),
    );
    batch.record(
        rid(4),
        "four".to_string(),
        RetrievalResult::Failure(DlErrors::NoEncryptedAudio),
    );
    assert_eq!(batch.processed, 4);
    assert_eq!(batch.succeeded, 1);
    assert_eq!(batch.skipped, 1);
    assert_eq!(batch.failures.len(), 2);
    assert_eq!(batch.failures[0], (rid(3), "three".to_string()));
    assert_eq!(batch.failures[1], (rid(4), "four".to_string()));
    assert!(!batch.more_to_come());
}

#[test]
fn a_skip_is_not_a_failure() {
    let mut batch = BatchState::new(1, 5000, 0);
    batch.record(rid(1), "one".to_string(), RetrievalResult::Failure(DlErrors::TrackExists));
    assert_eq!(batch.skipped, 1);
    assert!(batch.failures.is_empty());
}

#[test]
fn other_failure_kinds_enter_the_list() {
    for e in [
        DlErrors::TrackNotFound,
        DlErrors::TrackUnavailable,
        DlErrors::NoAudioFiles,
        DlErrors::NoEncryptedAudio,
        DlErrors::BufferWrite,
        DlErrors::Decrypting,
        DlErrors::NoKey,
    ] {
        let mut batch = BatchState::new(1, 5000, 0);
        batch.record(rid(9), "nine".to_string(), RetrievalResult::Failure(e));
        assert_eq!(batch.failures.len(), 1, "{e:?} must count as a failure");
    }
}

#[test]
fn pacing_waits_out_the_remainder() {
    let mut batch = BatchState::new(2, 5000, 1000);
    // 2 seconds of the interval elapsed: 3 remain
    assert_eq!(batch.pacing_wait(3000), 3000);
    // the item itself took longer than the interval: no pause
    assert_eq!(batch.pacing_wait(6000), 0);
    assert_eq!(batch.pacing_wait(1000), 5000);
    batch.mark_started(10_000);
    assert_eq!(batch.pacing_wait(12_500), 2500);
}

#[test]
fn only_non_final_items_pause() {
    let mut batch = BatchState::new(2, 5000, 0);
    batch.record(rid(1), "one".to_string(), RetrievalResult::Success("a".to_string()));
    assert!(batch.more_to_come());
    batch.record(rid(2), "two".to_string(), RetrievalResult::Success("b".to_string()));
    assert!(!batch.more_to_come());
}
