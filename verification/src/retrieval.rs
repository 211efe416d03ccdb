use vstd::prelude::*;

use crate::errors::DlErrors;
use crate::resolver::subvec;
use crate::selector::{
    TrackInfo, best_representation, has_recognized, select_idx, tier_bitrate,
};

verus! {

// ---------------------------------------------------------------------------
// Destination names
// ---------------------------------------------------------------------------

/// The destination file name of an item: `{uri} - {name}.ogg`.
pub open spec fn filename_spec(uri: Seq<char>, name: Seq<char>) -> Seq<char> {
    uri + seq![' ', '-', ' '] + name + seq!['.', 'o', 'g', 'g']
}

/// Builds the destination file name of an item.
pub fn make_filename(uri: &str, name: &str) -> (r: String)
    ensures
        r@ == filename_spec(uri@, name@),
{
    proof {
        reveal_strlit(" - ");
        reveal_strlit(".ogg");
    }
    let mut s = uri.to_owned();
    s.append(" - ");
    s.append(name);
    s.append(".ogg");
    proof {
        assert(" - "@ =~= seq![' ', '-', ' ']);
        assert(".ogg"@ =~= seq!['.', 'o', 'g', 'g']);
        assert(s@ =~= filename_spec(uri@, name@));
    }
    s
}

// ---------------------------------------------------------------------------
// Planning a download
// ---------------------------------------------------------------------------

/// Everything about one download that is fixed before any byte moves: the
/// chosen representation, its bitrate hint, and the destination file name.
pub struct DownloadPlan {
    pub file_index: usize,
    pub bitrate: u16,
    pub filename: String,
}

/// Plans the download of a chosen item: picks the best recognized
/// representation of its set and fixes the destination name; an item whose
/// set holds no recognized tier has no audio files to download.
pub fn plan_download(t: &TrackInfo) -> (r: Result<DownloadPlan, DlErrors>)
    ensures
        match r {
            Ok(p) => {
                &&& has_recognized(t.files@)
                &&& select_idx(t.files@) == Some(p.file_index as int)
                &&& p.file_index < t.files@.len()
                &&& p.bitrate == tier_bitrate(t.files@[p.file_index as int].0)
                &&& p.filename@ == filename_spec(t.uri@, t.name@)
            },
            Err(e) => e == DlErrors::NoAudioFiles && !has_recognized(t.files@),
        },
{
    match best_representation(&t.files) {
        Some(p) => Ok(
            DownloadPlan {
                file_index: p.0,
                bitrate: p.1,
                filename: make_filename(t.uri.as_str(), t.name.as_str()),
            },
        ),
        None => Err(DlErrors::NoAudioFiles),
    }
}

/// The skip-if-exists gate: a destination that is already present ends the
/// item with `TrackExists` — a skip, never an overwrite.
pub fn confirm_fresh(exists: bool) -> (r: Result<(), DlErrors>)
    ensures
        r is Err <==> exists,
        exists ==> r == Err::<(), DlErrors>(DlErrors::TrackExists),
{
    if exists {
        Err(DlErrors::TrackExists)
    } else {
        Ok(())
    }
}

// ---------------------------------------------------------------------------
// The container header
// ---------------------------------------------------------------------------

/// Size of the fixed container header that precedes the playable bytes of
/// a decrypted stream.
pub const HEADER_LEN: usize = 0x7a;

/// Strips the fixed-size container header off a fully decrypted buffer,
/// leaving the playable bytes.
pub fn strip_container_header(data: &Vec<u8>) -> (r: Vec<u8>)
    requires
        data@.len() >= HEADER_LEN,
    ensures
        r@ == data@.skip(HEADER_LEN as int),
{
    let r = subvec(data, HEADER_LEN, data.len());
    proof {
        assert(data@.subrange(HEADER_LEN as int, data@.len() as int) =~= data@.skip(
            HEADER_LEN as int,
        ));
    }
    r
}

// ---------------------------------------------------------------------------
// Decryption
// ---------------------------------------------------------------------------

/// What decrypting a fully fetched stream yields for a given key: the
/// AES-CTR keystream for the key, applied to the bytes. A function of the
/// key and the bytes alone.
pub uninterp spec fn decrypt_of(key: Seq<u8>, data: Seq<u8>) -> Seq<u8>;

/// Relies on librespot_audio::AudioDecrypt: reading through it applies the
/// keystream of the key to the bytes read, without changing their number,
/// and a missing key makes it pass the bytes through unaltered. Reading
/// here is from memory and cannot fail.
#[verifier::external_body]
fn decrypt_bytes(key: Option<[u8; 16]>, data: Vec<u8>) -> (r: Vec<u8>)
    ensures
        match key {
            Some(k) => r@ == decrypt_of(k@, data@),
            None => r@ == data@,
        },
        r@.len() == data@.len(),
{
    let audio_key = key.map(librespot_core::audio_key::AudioKey);
    let mut decryptor = librespot_audio::AudioDecrypt::new(audio_key, std::io::Cursor::new(data));
    let mut out: Vec<u8> = Vec::new();
    std::io::Read::read_to_end(&mut decryptor, &mut out).expect(
        "reading from an in-memory cursor cannot fail",
    );
    out
}

/// Decrypts a fully fetched stream with the negotiated key and strips the
/// container header off the result. A missing key is tolerated: the stream
/// then passes through undecrypted — the deliberate degraded mode — and is
/// stripped all the same. A stream too short to hold the header cannot be
/// decoded.
pub fn decrypt_track(key: Option<[u8; 16]>, data: Vec<u8>) -> (r: Result<Vec<u8>, DlErrors>)
    ensures
        match r {
            Ok(out) => data@.len() >= HEADER_LEN && out@ == (match key {
                Some(k) => decrypt_of(k@, data@).skip(HEADER_LEN as int),
                None => data@.skip(HEADER_LEN as int),
            }),
            Err(e) => e == DlErrors::Decrypting && data@.len() < HEADER_LEN,
        },
{
    if data.len() < HEADER_LEN {
        return Err(DlErrors::Decrypting);
    }
    let decrypted = decrypt_bytes(key, data);
    Ok(strip_container_header(&decrypted))
}

// ---------------------------------------------------------------------------
// The per-item pipeline, one run of it
// ---------------------------------------------------------------------------

/// What the outside world answers during one item's retrieval: whether the
/// key request succeeded, whether the encrypted stream could be opened and
/// read, whether decryption succeeded, and whether the final write went
/// through.
#[derive(Debug, Clone, Copy, PartialEq, Eq, Structural)]
pub struct ItemEvents {
    pub key_present: bool,
    pub stream_ok: bool,
    pub decrypt_ok: bool,
    pub write_ok: bool,
}

/// The outcome of one item: the destination path on success, or the kind
/// of failure. Produced once per item per run; never retried.
pub enum RetrievalResult {
    Success(String),
    Failure(DlErrors),
}

/// One run of the retrieval pipeline against a directory holding the file
/// names in `dir`: the skip-if-exists gate first, then the transport, the
/// decryption and the write, each failing with its own kind; the file
/// appears only when everything succeeded — no partial file is ever left.
pub open spec fn item_run(dir: Set<Seq<char>>, filename: Seq<char>, ev: ItemEvents) -> (Set<
    Seq<char>,
>, Result<Seq<char>, DlErrors>) {
    if dir.contains(filename) {
        (dir, Err(DlErrors::TrackExists))
    } else if !ev.stream_ok {
        (dir, Err(DlErrors::NoEncryptedAudio))
    } else if !ev.decrypt_ok {
        (dir, Err(DlErrors::Decrypting))
    } else if !ev.write_ok {
        (dir, Err(DlErrors::BufferWrite))
    } else {
        (dir.insert(filename), Ok(filename))
    }
}

/// Running the pipeline a second time against the same directory for the
/// same item writes nothing more: the first success leaves exactly the one
/// file, and every later run ends in `TrackExists`, whatever the outside
/// world answers that time.
pub proof fn lemma_pipeline_idempotent(
    dir: Set<Seq<char>>,
    filename: Seq<char>,
    ev1: ItemEvents,
    ev2: ItemEvents,
)
    ensures
        ({
            let (d1, r1) = item_run(dir, filename, ev1);
            r1 is Ok ==> {
                &&& d1 == dir.insert(filename)
                &&& item_run(d1, filename, ev2) == (d1, Err::<Seq<char>, DlErrors>(
                    DlErrors::TrackExists,
                ))
            }
        }),
{
}

/// A missing decryption key never fails an item: retrieval proceeds the
/// same with and without one, the stream then passing through undecrypted.
pub proof fn lemma_key_absence_tolerated(
    dir: Set<Seq<char>>,
    filename: Seq<char>,
    ev1: ItemEvents,
    ev2: ItemEvents,
)
    requires
        ev1.stream_ok == ev2.stream_ok,
        ev1.decrypt_ok == ev2.decrypt_ok,
        ev1.write_ok == ev2.write_ok,
    ensures
        item_run(dir, filename, ev1) == item_run(dir, filename, ev2),
{
}

} // verus!
