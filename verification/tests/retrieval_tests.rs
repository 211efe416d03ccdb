use spotdl::errors::DlErrors;
use spotdl::resolver::{ResourceId, ResourceKind};
use spotdl::retrieval::{
    HEADER_LEN, confirm_fresh, decrypt_track, make_filename, plan_download,
    strip_container_header,
};
use spotdl::selector::{FileRef, QualityTier, TrackInfo};

#[test]
fn filename_has_the_fixed_shape() {
    assert_eq!(
        make_filename("spotify:track:abc", "Some Song"),
        "spotify:track:abc - Some Song.ogg"
    );
    assert_eq!(make_filename("", ""), " - .ogg");
}

#[test]
fn header_is_stripped_exactly() {
    let mut data: Vec<u8> = vec![0xAA; HEADER_LEN];
    data.extend_from_slice(&[1, 2, 3, 4, 5]);
    assert_eq!(strip_container_header(&data), vec![1, 2, 3, 4, 5]);
}

#[test]
fn missing_key_passes_the_stream_through() {
    let mut data: Vec<u8> = (0..HEADER_LEN as u32).map(|i| (i % 251) as u8).collect();
    data.extend_from_slice(b"playable bytes");
    let out = decrypt_track(None, data).unwrap();
    assert_eq!(out, b"playable bytes".to_vec());
}

#[test]
fn a_key_changes_the_bytes() {
    let mut data: Vec<u8> = vec![0u8; HEADER_LEN];
    data.extend_from_slice(&[0u8; 16]);
    let plain = decrypt_track(None, data.clone()).unwrap();
    let decrypted = decrypt_track(Some([7u8; 16]), data).unwrap();
    assert_eq!(plain.len(), decrypted.len());
    assert_ne!(plain, decrypted, "decryption must transform the bytes");
}

#[test]
fn decryption_is_deterministic() {
    let mut data: Vec<u8> = vec![3u8; HEADER_LEN];
    data.extend_from_slice(&[9, 8, 7, 6]);
    let once = decrypt_track(Some([5u8; 16]), data.clone()).unwrap();
    let twice = decrypt_track(Some([5u8; 16]), data).unwrap();
    assert_eq!(once, twice);
}

#[test]
fn short_streams_cannot_be_decoded() {
    let data: Vec<u8> = vec![0u8; HEADER_LEN - 1];
    assert!(matches!(decrypt_track(None, data), Err(DlErrors::Decrypting)));
    assert!(matches!(decrypt_track(Some([1u8; 16]), vec![]), Err(DlErrors::Decrypting)));
}

#[test]
fn existing_destination_is_a_skip() {
    assert!(matches!(confirm_fresh(true), Err(DlErrors::TrackExists)));
    assert!(confirm_fresh(false).is_ok());
}

#[test]
fn plan_picks_representation_and_name() {
    let t = TrackInfo {
        id: ResourceId { kind: ResourceKind::Track, id: 1 },
        uri: "spotify:track:one".to_string(),
        name: "One".to_string(),
        available: true,
        files: vec![
            (QualityTier::OggVorbis96, FileRef { raw: vec![1] }),
            (QualityTier::OggVorbis160, FileRef { raw: vec![2] }),
        ],
        alternatives: None,
    };
    let plan = plan_download(&t).unwrap();
    assert_eq!(plan.file_index, 1);
    assert_eq!(plan.bitrate, 160);
    assert_eq!(plan.filename, "spotify:track:one - One.ogg");
}

#[test]
fn plan_fails_without_recognized_tiers() {
    let t = TrackInfo {
        id: ResourceId { kind: ResourceKind::Track, id: 1 },
        uri: "spotify:track:one".to_string(),
        name: "One".to_string(),
        available: true,
        files: vec![(QualityTier::Unrecognized, FileRef { raw: vec![1] })],
        alternatives: None,
    };
    assert!(matches!(plan_download(&t), Err(DlErrors::NoAudioFiles)));
}
