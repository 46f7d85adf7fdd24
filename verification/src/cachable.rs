//! The contract that every cached piece of work keeps: look at the place that
//! the fingerprint names, take what lies there, and compute only when
//! nothing does or when the caller insists.

use crate::bucket::Aggregate;
use crate::canvas::RenderError;
use crate::codec::{decoded, deserialize_buckets, encoded, lemma_round_trip};
use crate::histogram::DataError;
use vstd::prelude::*;

verus! {

/// What is to be done about an artifact once its place in the cache has been
/// looked at.
#[derive(Clone, Copy, Debug, PartialEq, Eq, Structural)]
pub enum CacheStep {
    /// The artifact lies in the cache: take it from there.
    Load,
    /// Compute the artifact and put it into the cache, over what lies there.
    Compute,
}

/// A cached artifact is loaded when it is present and the caller does not
/// force a fresh one; in every other case it is computed.
pub open spec fn spec_plan(present: bool, forced: bool) -> CacheStep {
    if present && !forced {
        CacheStep::Load
    } else {
        CacheStep::Compute
    }
}

/// Decides between the cache and a computation.
pub fn plan(present: bool, forced: bool) -> (step: CacheStep)
    ensures
        step == spec_plan(present, forced),
{
    if present && !forced {
        CacheStep::Load
    } else {
        CacheStep::Compute
    }
}

/// Where an image lies in the cache, and whether it has to be rendered
/// first.
#[derive(Debug)]
pub struct Resolution {
    pub path: String,
    pub step: CacheStep,
}

/// Why a cache entry could not be used.
#[derive(Clone, Copy, Debug, PartialEq, Eq, Structural)]
pub enum CacheError {
    /// The entry is there, but its bytes hold no bucket array.
    Corrupt,
}

/// What a look into the cache owes: nothing for an empty place, the stored
/// bucket array for a sound entry, and an error for any other entry.
pub open spec fn is_lookup(
    found: Result<Option<Vec<u64>>, CacheError>,
    stored: Option<Seq<u8>>,
) -> bool {
    match stored {
        None => found == Ok::<Option<Vec<u64>>, CacheError>(None),
        Some(bytes) => match found {
            Ok(Some(values)) => decoded(bytes) == Some(values@),
            Ok(None) => false,
            Err(CacheError::Corrupt) => decoded(bytes) is None,
        },
    }
}

/// The place in the cache is empty, or what lies there holds a bucket array.
pub open spec fn is_usable(stored: Option<Seq<u8>>) -> bool {
    stored matches Some(bytes) ==> decoded(bytes) is Some
}

/// The view of the bytes found in the cache, if any were.
pub open spec fn stored_view(stored: Option<&[u8]>) -> Option<Seq<u8>> {
    match stored {
        Some(bytes) => Some(bytes@),
        None => None,
    }
}

/// Reads a bucket array out of what the cache holds at its place: `stored`
/// is `None` where nothing lies there. `Ok(None)` is a miss.
pub fn lookup_buckets(stored: Option<&[u8]>) -> (found: Result<Option<Vec<u64>>, CacheError>)
    ensures
        is_lookup(found, stored_view(stored)),
{
    match stored {
        None => Ok(None),
        Some(bytes) => match deserialize_buckets(bytes) {
            Some(values) => Ok(Some(values)),
            None => Err(CacheError::Corrupt),
        },
    }
}

/// A source of bucket arrays that can be taken from the cache.
pub trait CachableData {
    /// What `data_uncached` owes for a table.
    spec fn is_data(&self, computed: Result<Aggregate, DataError>, table: Seq<u8>) -> bool;

    /// Returns the data if the cache holds it: `stored` is what lies at the
    /// cache path, and `None` says that the data has to be computed. An
    /// entry that holds no bucket array is fatal: it is no miss, and it must
    /// not be handed in. `lookup_buckets` tells such an entry.
    fn data_cached(&self, stored: Option<&[u8]>) -> (found: Option<Vec<u64>>)
        requires
            is_usable(stored_view(stored)),
        ensures
            is_lookup(Ok(found), stored_view(stored)),
    ;

    /// Computes the data afresh from the record source's table.
    fn data_uncached(&self, table: &[u8]) -> (computed: Result<Aggregate, DataError>)
        ensures
            self.is_data(computed, table@),
    ;
}

/// A producer of images that can be taken from the cache.
pub trait CachablePNG {
    /// What the collaborators hand over for rendering.
    type Material;

    /// The place of the image in the cache.
    spec fn spec_cache_path(&self) -> Seq<char>;

    /// What `png_uncached` owes for the material.
    spec fn is_file(&self, file: Result<Vec<u8>, RenderError>, material: &Self::Material) -> bool;

    /// Returns the place of the image, and whether it lies there already:
    /// `present` says whether a file exists at the cache path.
    fn png_cached(&self, present: bool) -> (resolution: Resolution)
        ensures
            resolution.path@ == self.spec_cache_path(),
            resolution.step == spec_plan(present, false),
    ;

    /// Renders the image afresh and returns the bytes of its file.
    fn png_uncached(&self, material: &Self::Material) -> (file: Result<Vec<u8>, RenderError>)
        ensures
            self.is_file(file, material),
    ;
}

/// The cache directory as a mathematical value: the bytes that lie at each
/// path.
pub type Store = Map<Seq<char>, Seq<u8>>;

/// What lies in the store at a path, if anything does.
pub open spec fn stored_at(store: Store, path: Seq<char>) -> Option<Seq<u8>> {
    if store.dom().contains(path) {
        Some(store[path])
    } else {
        None
    }
}

/// The store after a miss at `path` has been made good: the stored form of
/// the computed array lies there, over what lay there before.
pub open spec fn store_after_miss(store: Store, path: Seq<char>, values: Seq<u64>) -> Store {
    store.insert(path, encoded(values))
}

/// Cache correctness for bucket arrays: once a computed array has been
/// stored at its place, the next look at that place is a hit and gives the
/// same array back, whatever else the store holds, so that nothing is
/// computed a second time.
pub proof fn lemma_second_lookup_is_hit(
    store: Store,
    path: Seq<char>,
    values: Seq<u64>,
    found: Result<Option<Vec<u64>>, CacheError>,
)
    requires
        values.len() <= usize::MAX,
        is_lookup(found, stored_at(store_after_miss(store, path, values), path)),
    ensures
        found matches Ok(Some(again)) && again@ == values,
{
    lemma_round_trip(values);
}

/// Cache correctness for images: an image that is present is loaded and
/// not rendered again, unless the caller forces a fresh one; one that is
/// absent is rendered.
pub proof fn lemma_present_image_is_loaded()
    ensures
        spec_plan(true, false) == CacheStep::Load,
        spec_plan(false, false) == CacheStep::Compute,
        forall|present: bool| #[trigger] spec_plan(present, true) == CacheStep::Compute,
{
}

} // verus!
