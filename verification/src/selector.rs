use vstd::prelude::*;

use crate::errors::DlErrors;
use crate::resolver::ResourceId;

verus! {

// ---------------------------------------------------------------------------
// Representations and items
// ---------------------------------------------------------------------------

/// A quality tier of an encoded representation. The three Vorbis tiers are
/// the recognized ones, in falling preference; everything else the service
/// may offer is unrecognized and never selected.
#[derive(Debug, Clone, Copy, PartialEq, Eq, Structural)]
pub enum QualityTier {
    OggVorbis320,
    OggVorbis160,
    OggVorbis96,
    Unrecognized,
}

/// An opaque reference to the encrypted bytes of one representation, as the
/// metadata collaborator hands it out.
pub struct FileRef {
    pub raw: Vec<u8>,
}

/// One downloadable item as fetched from the metadata collaborator: its
/// identifier, display strings, availability, keyed representations, and
/// the ordered substitute items that may stand in for it.
pub struct TrackInfo {
    pub id: ResourceId,
    pub uri: String,
    pub name: String,
    pub available: bool,
    pub files: Vec<(QualityTier, FileRef)>,
    pub alternatives: Option<Vec<ResourceId>>,
}

pub open spec fn is_recognized(t: QualityTier) -> bool {
    t != QualityTier::Unrecognized
}

/// The advertised bitrate of a recognized tier.
pub open spec fn tier_bitrate(t: QualityTier) -> u16 {
    match t {
        QualityTier::OggVorbis320 => 320,
        QualityTier::OggVorbis160 => 160,
        QualityTier::OggVorbis96 => 96,
        QualityTier::Unrecognized => 0,
    }
}

pub open spec fn has_tier(files: Seq<(QualityTier, FileRef)>, t: QualityTier) -> bool {
    exists|i: int| 0 <= i < files.len() && (#[trigger] files[i]).0 == t
}

/// The highest-preference recognized tier present, if any.
pub open spec fn best_tier(files: Seq<(QualityTier, FileRef)>) -> Option<QualityTier> {
    if has_tier(files, QualityTier::OggVorbis320) {
        Some(QualityTier::OggVorbis320)
    } else if has_tier(files, QualityTier::OggVorbis160) {
        Some(QualityTier::OggVorbis160)
    } else if has_tier(files, QualityTier::OggVorbis96) {
        Some(QualityTier::OggVorbis96)
    } else {
        None
    }
}

pub open spec fn has_recognized(files: Seq<(QualityTier, FileRef)>) -> bool {
    best_tier(files) is Some
}

/// Index of the first entry carrying tier `t`.
pub open spec fn first_idx(files: Seq<(QualityTier, FileRef)>, t: QualityTier) -> int
    decreases files.len(),
{
    if files.len() == 0 {
        0
    } else if files[0].0 == t {
        0
    } else {
        1 + first_idx(files.drop_first(), t)
    }
}

/// The entry the selector picks from a representation set: the first entry
/// of the highest-preference recognized tier present.
pub open spec fn select_idx(files: Seq<(QualityTier, FileRef)>) -> Option<int> {
    match best_tier(files) {
        Some(t) => Some(first_idx(files, t)),
        None => None,
    }
}

/// An item qualifies when it is available and offers a recognized tier.
pub open spec fn qualifies(t: TrackInfo) -> bool {
    t.available && has_recognized(t.files@)
}

pub proof fn lemma_first_idx(files: Seq<(QualityTier, FileRef)>, t: QualityTier)
    requires
        has_tier(files, t),
    ensures
        0 <= first_idx(files, t) < files.len(),
        files[first_idx(files, t)].0 == t,
        forall|j: int| 0 <= j < first_idx(files, t) ==> (#[trigger] files[j]).0 != t,
    decreases files.len(),
{
    if files.len() != 0 && files[0].0 != t {
        assert(has_tier(files.drop_first(), t)) by {
            let i = choose|i: int| 0 <= i < files.len() && (#[trigger] files[i]).0 == t;
            assert(files.drop_first()[i - 1].0 == t);
        }
        lemma_first_idx(files.drop_first(), t);
        assert forall|j: int| 0 <= j < first_idx(files, t) implies (#[trigger] files[j]).0
            != t by {
            if j > 0 {
                assert(files.drop_first()[j - 1].0 != t);
            }
        }
    }
}

// ---------------------------------------------------------------------------
// Executable selection from one representation set
// ---------------------------------------------------------------------------

fn find_tier(files: &Vec<(QualityTier, FileRef)>, t: QualityTier) -> (r: Option<usize>)
    requires
        is_recognized(t),
    ensures
        match r {
            Some(i) => has_tier(files@, t) && i == first_idx(files@, t),
            None => !has_tier(files@, t),
        },
{
    let mut i: usize = 0;
    while i < files.len()
        invariant
            0 <= i <= files@.len(),
            forall|j: int| 0 <= j < i ==> (#[trigger] files@[j]).0 != t,
        decreases files@.len() - i,
    {
        if files[i].0 == t {
            proof {
                lemma_first_idx(files@, t);
            }
            return Some(i);
        }
        i = i + 1;
    }
    None
}

/// Picks the representation to download from one set: the first entry of
/// the highest-preference recognized tier, together with its bitrate.
pub fn best_representation(files: &Vec<(QualityTier, FileRef)>) -> (r: Option<(usize, u16)>)
    ensures
        match r {
            Some(p) => {
                &&& select_idx(files@) == Some(p.0 as int)
                &&& 0 <= p.0 < files@.len()
                &&& best_tier(files@) == Some(files@[p.0 as int].0)
                &&& p.1 == tier_bitrate(files@[p.0 as int].0)
            },
            None => !has_recognized(files@),
        },
{
    if let Some(i) = find_tier(files, QualityTier::OggVorbis320) {
        proof {
            lemma_first_idx(files@, QualityTier::OggVorbis320);
        }
        return Some((i, 320));
    }
    if let Some(i) = find_tier(files, QualityTier::OggVorbis160) {
        proof {
            lemma_first_idx(files@, QualityTier::OggVorbis160);
        }
        return Some((i, 160));
    }
    if let Some(i) = find_tier(files, QualityTier::OggVorbis96) {
        proof {
            lemma_first_idx(files@, QualityTier::OggVorbis96);
        }
        return Some((i, 96));
    }
    None
}

fn has_recognized_exec(files: &Vec<(QualityTier, FileRef)>) -> (r: bool)
    ensures
        r == has_recognized(files@),
{
    match best_representation(files) {
        Some(_) => true,
        None => false,
    }
}

// ---------------------------------------------------------------------------
// The selection walk: primary first, then substitutes in listed order
// ---------------------------------------------------------------------------

/// The failure kind when nothing qualifies: an item whose own
/// representations held no recognized tier reports that no audio files
/// exist; one that merely was not available reports unavailability.
pub open spec fn exhausted_error(primary_had_recognized: bool) -> DlErrors {
    if primary_had_recognized {
        DlErrors::TrackUnavailable
    } else {
        DlErrors::NoAudioFiles
    }
}

/// The walk over the substitute list once the primary item has been ruled
/// out: the identifiers still to try, in listed order, and what the
/// primary's representations held, which decides the final failure kind.
pub struct SubstituteSearch {
    pub remaining: Vec<ResourceId>,
    pub primary_had_recognized: bool,
}

/// How the selection of an item starts: a representation of the primary
/// item itself, a walk over its substitutes, or an immediate failure when
/// it has none.
pub enum SelectStart {
    Chosen(usize, u16),
    Search(SubstituteSearch),
    Failed(DlErrors),
}

fn copy_ids(src: &Vec<ResourceId>) -> (r: Vec<ResourceId>)
    ensures
        r@ == src@,
{
    let mut r: Vec<ResourceId> = Vec::new();
    let mut i: usize = 0;
    while i < src.len()
        invariant
            0 <= i <= src@.len(),
            r@ == src@.take(i as int),
        decreases src@.len() - i,
    {
        r.push(src[i]);
        proof {
            assert(src@.take(i + 1) =~= src@.take(i as int).push(src@[i as int]));
        }
        i = i + 1;
    }
    proof {
        assert(src@.take(src@.len() as int) =~= src@);
    }
    r
}

/// Starts the selection for a primary item. A qualifying primary is chosen
/// at once and its substitutes are never consulted; otherwise the walk
/// covers the substitute list in listed order, and an item without
/// substitutes fails at once.
pub fn start_selection(t: &TrackInfo) -> (r: SelectStart)
    ensures
        qualifies(*t) ==> (r matches SelectStart::Chosen(i, b) && select_idx(t.files@) == Some(
            i as int,
        ) && i < t.files@.len() && b == tier_bitrate(t.files@[i as int].0)),
        !qualifies(*t) ==> match r {
            SelectStart::Chosen(i, b) => false,
            SelectStart::Search(s) => {
                &&& t.alternatives matches Some(alts) && alts@.len() > 0 && s.remaining@ == alts@
                &&& s.primary_had_recognized == has_recognized(t.files@)
            },
            SelectStart::Failed(e) => (match t.alternatives {
                Some(alts) => alts@.len() == 0,
                None => true,
            }) && e == exhausted_error(has_recognized(t.files@)),
        },
{
    let primary_recognized = has_recognized_exec(&t.files);
    if t.available {
        if let Some(p) = best_representation(&t.files) {
            return SelectStart::Chosen(p.0, p.1);
        }
    }
    match &t.alternatives {
        Some(alts) => {
            if alts.len() == 0 {
                SelectStart::Failed(
                    if primary_recognized {
                        DlErrors::TrackUnavailable
                    } else {
                        DlErrors::NoAudioFiles
                    },
                )
            } else {
                SelectStart::Search(
                    SubstituteSearch {
                        remaining: copy_ids(alts),
                        primary_had_recognized: primary_recognized,
                    },
                )
            }
        },
        None => SelectStart::Failed(
            if primary_recognized {
                DlErrors::TrackUnavailable
            } else {
                DlErrors::NoAudioFiles
            },
        ),
    }
}

impl SubstituteSearch {
    /// The next substitute to fetch, removed from the front of the list;
    /// `None` once the list is exhausted.
    pub fn pop_next(&mut self) -> (r: Option<ResourceId>)
        ensures
            final(self).primary_had_recognized == old(self).primary_had_recognized,
            match r {
                Some(id) => old(self).remaining@.len() > 0 && id == old(self).remaining@[0]
                    && final(self).remaining@ == old(self).remaining@.drop_first(),
                None => old(self).remaining@.len() == 0 && final(self).remaining@ == old(
                    self,
                ).remaining@,
            },
    {
        if self.remaining.len() == 0 {
            None
        } else {
            let id = self.remaining.remove(0);
            proof {
                assert(old(self).remaining@.remove(0) =~= old(self).remaining@.drop_first());
            }
            Some(id)
        }
    }

    /// The failure the walk ends in when no substitute qualified.
    pub fn failure(&self) -> (r: DlErrors)
        ensures
            r == exhausted_error(self.primary_had_recognized),
    {
        if self.primary_had_recognized {
            DlErrors::TrackUnavailable
        } else {
            DlErrors::NoAudioFiles
        }
    }
}

/// Judges one fetched substitute: the representation to use when it
/// qualifies, `None` when the walk must go on.
pub fn consider_substitute(t: &TrackInfo) -> (r: Option<(usize, u16)>)
    ensures
        qualifies(*t) ==> (r matches Some(p) && select_idx(t.files@) == Some(p.0 as int) && p.0
            < t.files@.len() && p.1 == tier_bitrate(t.files@[p.0 as int].0)),
        !qualifies(*t) ==> r is None,
{
    if t.available {
        best_representation(&t.files)
    } else {
        None
    }
}

// ---------------------------------------------------------------------------
// Laws of the walk
// ---------------------------------------------------------------------------

/// What the walk returns for a substitute list whose fetches came out as
/// `subs` (a failed fetch is `None`): the first qualifying substitute, or
/// the exhaustion failure.
pub open spec fn substitute_outcome(subs: Seq<Option<TrackInfo>>, primary_had_recognized: bool) -> Result<
    TrackInfo,
    DlErrors,
>
    decreases subs.len(),
{
    if subs.len() == 0 {
        Err(exhausted_error(primary_had_recognized))
    } else {
        match subs[0] {
            Some(t) => if qualifies(t) {
                Ok(t)
            } else {
                substitute_outcome(subs.drop_first(), primary_had_recognized)
            },
            None => substitute_outcome(subs.drop_first(), primary_had_recognized),
        }
    }
}

/// Substitutes are tried strictly in listed order: the first qualifying
/// one is the outcome, whatever later entries — possibly of higher tiers —
/// would have offered.
pub proof fn lemma_first_substitute_wins(
    subs: Seq<Option<TrackInfo>>,
    primary_had_recognized: bool,
    i: int,
)
    requires
        0 <= i < subs.len(),
        subs[i] matches Some(t) && qualifies(t),
        forall|j: int| 0 <= j < i ==> !(#[trigger] subs[j] matches Some(t) && qualifies(t)),
    ensures
        substitute_outcome(subs, primary_had_recognized) == Ok::<TrackInfo, DlErrors>(
            subs[i]->Some_0,
        ),
    decreases i,
{
    if i > 0 {
        assert(subs[0] is Some ==> !qualifies(subs[0]->Some_0));
        lemma_first_substitute_wins(subs.drop_first(), primary_had_recognized, i - 1);
        assert(subs.drop_first()[i - 1] == subs[i]);
        assert forall|j: int| 0 <= j < i - 1 implies !(#[trigger] subs.drop_first()[j] matches Some(
            t,
        ) && qualifies(t)) by {
            assert(subs.drop_first()[j] == subs[j + 1]);
        }
    }
}

/// A walk with no qualifying substitute ends in the exhaustion failure.
pub proof fn lemma_no_substitute_qualifies(subs: Seq<Option<TrackInfo>>, primary_had_recognized: bool)
    requires
        forall|j: int|
            0 <= j < subs.len() ==> !(#[trigger] subs[j] matches Some(t) && qualifies(t)),
    ensures
        substitute_outcome(subs, primary_had_recognized) == Err::<TrackInfo, DlErrors>(
            exhausted_error(primary_had_recognized),
        ),
    decreases subs.len(),
{
    if subs.len() > 0 {
        assert(subs[0] is Some ==> !qualifies(subs[0]->Some_0));
        lemma_no_substitute_qualifies(subs.drop_first(), primary_had_recognized);
        assert(forall|j: int|
            0 <= j < subs.len() - 1 ==> !(#[trigger] subs.drop_first()[j] matches Some(t)
                && qualifies(t))) by {
            assert forall|j: int| 0 <= j < subs.len() - 1 implies !(#[trigger] subs.drop_first()[j] matches Some(
                t,
            ) && qualifies(t)) by {
                assert(subs.drop_first()[j] == subs[j + 1]);
            }
        }
    }
}

} // verus!
