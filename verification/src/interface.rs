//! What every storage backend can do: list its plugins, hand out the
//! archive of a version and the image of a plugin, and report how often its
//! archives were asked for.

use bytes::Bytes;
use vstd::prelude::*;
use crate::keyed_map::{KeyedMap, TextMap};
use crate::store_plugin::{plugins_of, Plugin, StorePluginList};

verus! {

/// `bytes::Bytes`: a run of bytes that is cheap to hand on. Only
/// [`contents`] says anything of a value of it.
#[verifier::external_type_specification]
#[verifier::external_body]
pub struct ExBytes(bytes::Bytes);

/// The bytes that a `Bytes` value holds.
pub uninterp spec fn contents(blob: bytes::Bytes) -> Seq<u8>;

/// `Bytes::from` takes a vector over without changing what it holds.
#[verifier::external_body]
pub(crate) fn blob_from(buffer: Vec<u8>) -> (blob: Bytes)
    ensures
        contents(blob) == buffer@,
{
    Bytes::from(buffer)
}

/// `Bytes::clone` hands out a second handle on the same bytes.
#[verifier::external_body]
pub(crate) fn blob_copy(blob: &Bytes) -> (copy: Bytes)
    ensures
        contents(copy) == contents(*blob),
{
    blob.clone()
}

/// Why a backend could not serve a request.
#[derive(Clone, Copy, Debug, PartialEq, Eq, Structural)]
pub enum StorageError {
    /// The backend does not serve this kind of request at all.
    Unsupported,
    /// The backend does not know what was asked for.
    NotFound,
    /// The disk or the network failed.
    IoFailure,
    /// What was read could not be understood.
    DecodeFailure,
}

/// Usage counts by label. A label is a plugin's name, or a plugin's name, a
/// space and a version's name.
pub type Statistics = TextMap<u64>;

/// The answer of a backend that does not serve what was asked for.
pub fn unsupported() -> (r: Result<Bytes, StorageError>)
    ensures
        r == Err::<Bytes, StorageError>(StorageError::Unsupported),
{
    Err(StorageError::Unsupported)
}

/// The usage counts of a backend that keeps none.
pub fn no_statistics() -> (r: Statistics)
    ensures
        r@ == Map::<Seq<char>, u64>::empty(),
{
    KeyedMap::new()
}

/// A storage backend.
///
/// Each of the four requests comes with a relation that says what the
/// backend promises of its answer: it holds of the backend before the
/// request, the backend after it, and the answer. A backend that does not
/// say otherwise promises nothing, so nothing is taken for granted of a
/// backend that was written without proof. A backend in front of another
/// one says what it makes of the other one's answer, whatever that answer
/// is.
///
/// A request may change the backend that answers it: a cache fills, a
/// routing table is drawn up, a hit is counted. Whoever shares a backend
/// among several callers puts one lock around it.
pub trait IStorage: Send + Sync {
    /// What the backend promises of a listing.
    open spec fn lists(&self, after: &Self, catalog: Seq<Plugin>) -> bool {
        true
    }

    /// What the backend promises of the archive it is asked for.
    open spec fn serves_artifact(
        &self,
        after: &Self,
        name: Seq<char>,
        version: Seq<char>,
        hash: Seq<char>,
        r: Result<Bytes, StorageError>,
    ) -> bool {
        true
    }

    /// What the backend promises of the image it is asked for.
    open spec fn serves_image(
        &self,
        after: &Self,
        name: Seq<char>,
        r: Result<Bytes, StorageError>,
    ) -> bool {
        true
    }

    /// What the backend promises of its usage counts.
    open spec fn counts(&self, after: &Self, statistics: Map<Seq<char>, u64>) -> bool {
        true
    }

    /// The catalog as it is now. A backend that cannot read its source
    /// returns what it could read, or nothing; it never fails.
    fn plugins(&mut self) -> (r: StorePluginList)
        ensures
            old(self).lists(final(self), plugins_of(r@)),
    ;

    /// The archive of one version of a plugin. A backend that serves no
    /// archives answers with [`unsupported`].
    fn get_artifact(&mut self, name: &str, version: &str, hash: &str) -> (r: Result<
        Bytes,
        StorageError,
    >)
        ensures
            old(self).serves_artifact(final(self), name@, version@, hash@, r),
    ;

    /// The image of a plugin. A backend that serves no images answers with
    /// [`unsupported`].
    fn get_image(&mut self, name: &str) -> (r: Result<Bytes, StorageError>)
        ensures
            old(self).serves_image(final(self), name@, r),
    ;

    /// The usage counts. A backend that keeps none answers with
    /// [`no_statistics`].
    fn get_statistics(&mut self) -> (r: Statistics)
        ensures
            old(self).counts(final(self), r@),
    ;
}

/// A backend that offers nothing.
pub struct EmptyStorage;

impl IStorage for EmptyStorage {
    /// The catalog is empty.
    open spec fn lists(&self, after: &Self, catalog: Seq<Plugin>) -> bool {
        catalog.len() == 0
    }

    /// Archives are not served.
    open spec fn serves_artifact(
        &self,
        after: &Self,
        name: Seq<char>,
        version: Seq<char>,
        hash: Seq<char>,
        r: Result<Bytes, StorageError>,
    ) -> bool {
        r == Err::<Bytes, StorageError>(StorageError::Unsupported)
    }

    /// Images are not served.
    open spec fn serves_image(
        &self,
        after: &Self,
        name: Seq<char>,
        r: Result<Bytes, StorageError>,
    ) -> bool {
        r == Err::<Bytes, StorageError>(StorageError::Unsupported)
    }

    /// No usage is counted.
    open spec fn counts(&self, after: &Self, statistics: Map<Seq<char>, u64>) -> bool {
        statistics == Map::<Seq<char>, u64>::empty()
    }

    fn plugins(&mut self) -> (r: StorePluginList) {
        Vec::new()
    }

    fn get_artifact(&mut self, name: &str, version: &str, hash: &str) -> (r: Result<
        Bytes,
        StorageError,
    >) {
        unsupported()
    }

    fn get_image(&mut self, name: &str) -> (r: Result<Bytes, StorageError>) {
        unsupported()
    }

    fn get_statistics(&mut self) -> (r: Statistics) {
        no_statistics()
    }
}

} // verus!
