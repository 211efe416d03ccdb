use vstd::prelude::*;

use crate::errors::Errors;
use crate::resolver::ResourceId;

verus! {

/// What the metadata collaborator answered for a resolved source: the
/// single item itself, confirmed fetchable, or the ordered members of a
/// collection. `None` stands for a failed fetch.
pub enum FetchedSource {
    Single(ResourceId),
    Members(Vec<ResourceId>),
}

/// Turns a fetched source into the ordered batch of items to download: a
/// single item expands to itself, a collection to its members in order,
/// duplicates kept. A failed fetch and an empty expansion are always the
/// invalid-playlist error, never a silent empty batch.
pub fn expand(fetched: Option<FetchedSource>) -> (r: Result<Vec<ResourceId>, Errors>)
    ensures
        match r {
            Ok(items) => match fetched {
                Some(FetchedSource::Single(id)) => items@ =~= seq![id],
                Some(FetchedSource::Members(m)) => items@ == m@ && m@.len() > 0,
                None => false,
            },
            Err(e) => e == Errors::InvalidPlaylist && match fetched {
                Some(FetchedSource::Single(_)) => false,
                Some(FetchedSource::Members(m)) => m@.len() == 0,
                None => true,
            },
        },
{
    match fetched {
        Some(FetchedSource::Single(id)) => {
            let mut items: Vec<ResourceId> = Vec::new();
            items.push(id);
            Ok(items)
        },
        Some(FetchedSource::Members(m)) => {
            if m.len() == 0 {
                Err(Errors::InvalidPlaylist)
            } else {
                Ok(m)
            }
        },
        None => Err(Errors::InvalidPlaylist),
    }
}

} // verus!
