use spotdl::errors::Errors;
use spotdl::resolver::{Args, ResourceId, ResourceKind};

const TRACK_ID: &str = "6rqhFgbbKwnb9MLmUQDhG6";
const TRACK_ID_VALUE: u128 = 281363587415969826517075833868007328126;

fn resolve(source: &str) -> Result<ResourceId, Errors> {
    let args = Args { source: source.to_string(), path: None, timeout: 5000 };
    args.get_source()
}

#[test]
fn canonical_track_resolves() {
    let r = resolve("spotify:track:6rqhFgbbKwnb9MLmUQDhG6").unwrap();
    assert_eq!(r.kind, ResourceKind::Track);
    assert_eq!(r.id, TRACK_ID_VALUE);
}

#[test]
fn canonical_playlist_resolves() {
    let r = resolve("spotify:playlist:6rqhFgbbKwnb9MLmUQDhG6").unwrap();
    assert_eq!(r.kind, ResourceKind::Playlist);
    assert_eq!(r.id, TRACK_ID_VALUE);
}

#[test]
fn named_playlist_resolves() {
    let r = resolve("spotify:user:somebody:playlist:6rqhFgbbKwnb9MLmUQDhG6").unwrap();
    assert_eq!(r.kind, ResourceKind::Playlist);
    assert_eq!(r.id, TRACK_ID_VALUE);
}

#[test]
fn zero_and_one_identifiers() {
    let r = resolve("spotify:track:0000000000000000000000").unwrap();
    assert_eq!(r.id, 0);
    let r = resolve("spotify:track:0000000000000000000001").unwrap();
    assert_eq!(r.id, 1);
}

#[test]
fn share_link_matches_canonical() {
    let canonical = resolve("spotify:track:6rqhFgbbKwnb9MLmUQDhG6").unwrap();
    for share in [
        "https://open.spotify.com/track/6rqhFgbbKwnb9MLmUQDhG6",
        "http://open.spotify.com/track/6rqhFgbbKwnb9MLmUQDhG6",
        "open.spotify.com/track/6rqhFgbbKwnb9MLmUQDhG6",
        "https://www.open.spotify.com/track/6rqhFgbbKwnb9MLmUQDhG6",
        "www.open.spotify.com/track/6rqhFgbbKwnb9MLmUQDhG6",
        "https://open.spotify.com/track/6rqhFgbbKwnb9MLmUQDhG6?si=abc123",
    ] {
        let r = resolve(share).unwrap();
        assert_eq!(r, canonical, "share form {share} must match the canonical form");
    }
}

#[test]
fn share_playlist_resolves() {
    let r = resolve("https://open.spotify.com/playlist/6rqhFgbbKwnb9MLmUQDhG6?si=xyz").unwrap();
    assert_eq!(r.kind, ResourceKind::Playlist);
    assert_eq!(r.id, TRACK_ID_VALUE);
}

#[test]
fn trailing_segments_are_ignored() {
    // the canonical parser reads the segments it needs and ignores the rest
    let r = resolve("spotify:track:6rqhFgbbKwnb9MLmUQDhG6:extra").unwrap();
    assert_eq!(r.id, TRACK_ID_VALUE);
}

#[test]
fn unsupported_kinds_are_rejected() {
    for s in [
        "spotify:artist:6rqhFgbbKwnb9MLmUQDhG6",
        "spotify:album:6rqhFgbbKwnb9MLmUQDhG6",
        "spotify:show:6rqhFgbbKwnb9MLmUQDhG6",
        "https://open.spotify.com/artist/6rqhFgbbKwnb9MLmUQDhG6",
        "https://open.spotify.com/episode/6rqhFgbbKwnb9MLmUQDhG6",
    ] {
        assert_eq!(resolve(s), Err(Errors::InvalidArguments), "{s} names an unsupported kind");
    }
}

#[test]
fn malformed_sources_are_rejected() {
    for s in [
        "",
        "nonsense",
        "spotify",
        "spotify:track",
        "spotify:track:",
        "spotify:track:tooshort",
        "spotify:track:6rqhFgbbKwnb9MLmUQDhG6X",  // 23 characters
        "spotify:track:6rqhFgbbKwnb9MLmUQDhG_",  // underscore is not base62
        "spotify:user:someone:playlist",
        "notspotify:track:6rqhFgbbKwnb9MLmUQDhG6",
        "https://open.spotify.com/track/",
        "https://open.spotify.com/track",
        "https://open.spotify.com//6rqhFgbbKwnb9MLmUQDhG6",
        "https://open.spotify.com/track/6rqhFgbbKwnb9MLmUQDhG6/more",
        "https://open.spotify.com/track/6rqhFgbbKwnb9MLmUQDhG6?",
        "https://elsewhere.example.com/track/6rqhFgbbKwnb9MLmUQDhG6",
    ] {
        assert_eq!(resolve(s), Err(Errors::InvalidArguments), "{s:?} must be rejected");
    }
}

#[test]
fn share_form_must_cover_the_whole_string() {
    // the share syntax is anchored: surrounding text is not picked out
    assert_eq!(
        resolve("see https://open.spotify.com/track/6rqhFgbbKwnb9MLmUQDhG6"),
        Err(Errors::InvalidArguments)
    );
}

#[test]
fn named_form_works_for_tracks_too() {
    // the user segment is read and ignored whatever kind follows it
    let r = resolve("spotify:user:alice:track:6rqhFgbbKwnb9MLmUQDhG6").unwrap();
    assert_eq!(r.kind, ResourceKind::Track);
    assert_eq!(r.id, TRACK_ID_VALUE);
}

#[test]
fn overflowing_identifier_is_rejected() {
    // 22 digits of the highest base62 value overflow 128 bits
    assert_eq!(resolve("spotify:track:ZZZZZZZZZZZZZZZZZZZZZZ"), Err(Errors::InvalidArguments));
}

#[test]
fn share_identifier_is_still_validated() {
    assert_eq!(
        resolve("https://open.spotify.com/track/short"),
        Err(Errors::InvalidArguments)
    );
}

#[test]
fn writing_an_identifier_out_is_the_inverse_of_resolving() {
    let rid = resolve(&format!("spotify:track:{TRACK_ID}")).unwrap();
    let written = rid.to_uri_bytes();
    assert_eq!(written, format!("spotify:track:{TRACK_ID}").into_bytes());
    let back = resolve(std::str::from_utf8(&written).unwrap()).unwrap();
    assert_eq!(back, rid);

    let plist = ResourceId { kind: ResourceKind::Playlist, id: 1 };
    assert_eq!(
        plist.to_uri_bytes(),
        b"spotify:playlist:0000000000000000000001".to_vec()
    );
}

#[test]
fn agrees_with_the_service_library() {
    // the canonical grammar matches the one the service library parses
    let ours = resolve("spotify:track:6rqhFgbbKwnb9MLmUQDhG6").unwrap();
    let theirs = librespot_core::SpotifyUri::from_uri("spotify:track:6rqhFgbbKwnb9MLmUQDhG6")
        .unwrap();
    match theirs {
        librespot_core::SpotifyUri::Track { id } => assert_eq!(id.id, ours.id),
        _ => panic!("the service library read another kind"),
    }
    assert!(librespot_core::SpotifyUri::from_uri("spotify:track:tooshort").is_err());
}
