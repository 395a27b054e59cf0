//! A backend that passes on the catalog of another store.
//!
//! The catalog of the remote store comes first, the catalog of the inner
//! backend behind it. The two are not combined: a plugin that both list is
//! listed twice. Archives, images and usage counts come from the inner
//! backend alone.

use bytes::Bytes;
use vstd::prelude::*;
use vstd::string::StringExecFns;
use crate::interface::{IStorage, Statistics, StorageError};
use crate::store_plugin::{
    clone_texts, plugins_of, Plugin, StorePlugin, StorePluginList, StorePluginVersion, Version,
};

verus! {

/// The address under which a store lists its plugins.
pub open spec fn listing_url(store_url: Seq<char>) -> Seq<char> {
    store_url + "/plugins"@
}

/// The address at which the archive with a digest is held by convention.
pub open spec fn default_url(hash: Seq<char>) -> Seq<char> {
    "https://cdn.tzatzikiweeb.moe/file/steam-deck-homebrew/versions/"@ + hash + ".zip"@
}

/// The address that a digest gives holds the digest, letter for letter.
pub proof fn lemma_default_url_holds_hash(hash: Seq<char>)
    ensures
        exists|at: int|
            0 <= at && at + hash.len() <= default_url(hash).len() && #[trigger] default_url(
                hash,
            ).subrange(at, at + hash.len()) == hash,
{
    let prefix = "https://cdn.tzatzikiweeb.moe/file/steam-deck-homebrew/versions/"@;
    let at = prefix.len() as int;
    assert(default_url(hash).subrange(at, at + hash.len()) =~= hash);
}

/// A version with an address: its own where it has one, else the one that
/// its digest gives.
pub open spec fn addressed(version: Version) -> Version {
    Version {
        artifact: match version.artifact {
            Some(url) => Some(url),
            None => Some(default_url(version.hash)),
        },
        ..version
    }
}

/// A plugin whose versions all have an address.
pub open spec fn addressed_plugin(plugin: Plugin) -> Plugin {
    Plugin {
        versions: Seq::new(plugin.versions.len(), |i: int| addressed(plugin.versions[i])),
        ..plugin
    }
}

/// A catalog whose versions all have an address.
pub open spec fn addressed_catalog(catalog: Seq<Plugin>) -> Seq<Plugin> {
    Seq::new(catalog.len(), |i: int| addressed_plugin(catalog[i]))
}

/// The catalog that a listing of the remote store stands for: a listing
/// that failed stands for an empty catalog.
pub open spec fn listed(fetched: Result<StorePluginList, StorageError>) -> Seq<Plugin> {
    match fetched {
        Ok(list) => plugins_of(list@),
        Err(_) => Seq::empty(),
    }
}

/// A backend in front of a remote store.
pub struct ProxiedStorage<S: IStorage> {
    store_url: String,
    fallback: S,
}

/// The address at which the archive of a version is held by convention.
pub fn default_artifact_url(ver: &StorePluginVersion) -> (r: String)
    ensures
        r@ == default_url(ver@.hash),
{
    let mut url = "https://cdn.tzatzikiweeb.moe/file/steam-deck-homebrew/versions/".to_owned();
    url.append(ver.hash.as_str());
    url.append(".zip");
    url
}

/// Gives every version of a remote catalog that has no address the one
/// that its digest gives.
pub fn fill_artifact_urls(remote: &Vec<StorePlugin>) -> (r: StorePluginList)
    ensures
        plugins_of(r@) == addressed_catalog(plugins_of(remote@)),
{
    let mut out: Vec<StorePlugin> = Vec::new();
    let mut i: usize = 0;
    while i < remote.len()
        invariant
            i <= remote.len(),
            out.len() == i,
            forall|k: int| 0 <= k < i ==> (#[trigger] out[k])@ == addressed_plugin(remote[k]@),
        decreases remote.len() - i,
    {
        let plugin = &remote[i];
        let mut versions: Vec<StorePluginVersion> = Vec::new();
        let mut j: usize = 0;
        while j < plugin.versions.len()
            invariant
                j <= plugin.versions.len(),
                versions.len() == j,
                forall|k: int|
                    0 <= k < j ==> (#[trigger] versions[k])@ == addressed(plugin.versions[k]@),
            decreases plugin.versions.len() - j,
        {
            let version = &plugin.versions[j];
            let artifact = match &version.artifact {
                Some(url) => Some(url.clone()),
                None => Some(default_artifact_url(version)),
            };
            versions.push(
                StorePluginVersion {
                    name: version.name.clone(),
                    hash: version.hash.clone(),
                    artifact: artifact,
                },
            );
            j += 1;
        }
        let filled = StorePlugin {
            id: plugin.id,
            name: plugin.name.clone(),
            versions: versions,
            author: plugin.author.clone(),
            description: plugin.description.clone(),
            tags: clone_texts(&plugin.tags),
            image_url: plugin.image_url.clone(),
        };
        assert(filled@.versions =~= addressed_plugin(plugin@).versions);
        out.push(filled);
        i += 1;
    }
    assert(plugins_of(out@) =~= addressed_catalog(plugins_of(remote@)));
    out
}

/// The remote catalog with all addresses filled in, followed by the local
/// catalog as it is. Plugins of one name in both stay apart.
pub fn combine(remote: &Vec<StorePlugin>, local: StorePluginList) -> (r: StorePluginList)
    ensures
        plugins_of(r@) == addressed_catalog(plugins_of(remote@)) + plugins_of(local@),
{
    let mut out = fill_artifact_urls(remote);
    let mut local = local;
    let ghost first = out@;
    let ghost second = local@;
    out.append(&mut local);
    assert(out@ =~= first + second);
    assert(plugins_of(out@) =~= plugins_of(first) + plugins_of(second));
    out
}

impl<S: IStorage> ProxiedStorage<S> {
    /// The address of the remote store.
    pub closed spec fn store_url(self) -> Seq<char> {
        self.store_url@
    }

    /// The inner backend.
    pub closed spec fn fallback(self) -> S {
        self.fallback
    }

    /// A backend in front of the store at `target_store`, with `fallback`
    /// behind it.
    pub fn new(target_store: String, fallback: S) -> (r: Self)
        ensures
            r.store_url() == target_store@,
            r.fallback() == fallback,
    {
        ProxiedStorage { store_url: target_store, fallback: fallback }
    }

    /// The address under which the remote store lists its plugins.
    pub fn plugins_url(&self) -> (r: String)
        ensures
            r@ == listing_url(self.store_url()),
    {
        let mut url = self.store_url.clone();
        url.append("/plugins");
        url
    }

    /// The remote catalog as it was fetched; nothing where the fetch or
    /// the decoding failed.
    pub fn proxy_plugins(&self, fetched: Result<StorePluginList, StorageError>) -> (r:
        StorePluginList)
        ensures
            plugins_of(r@) == listed(fetched),
    {
        match fetched {
            Ok(list) => list,
            Err(_) => {
                let none: Vec<StorePlugin> = Vec::new();
                assert(plugins_of(none@) =~= Seq::<Plugin>::empty());
                none
            },
        }
    }

    /// The catalog of the backend: the remote catalog that was fetched,
    /// each version with an address, followed by the catalog of the inner
    /// backend.
    pub fn plugins(&mut self, fetched: Result<StorePluginList, StorageError>) -> (r:
        StorePluginList)
        ensures
            final(self).store_url() == old(self).store_url(),
            exists|local: Seq<Plugin>|
                #[trigger] old(self).fallback().lists(&final(self).fallback(), local)
                    && plugins_of(r@) == addressed_catalog(listed(fetched)) + local,
    {
        let remote = self.proxy_plugins(fetched);
        let local = self.fallback.plugins();
        let ghost listing = plugins_of(local@);
        let r = combine(&remote, local);
        assert(old(self).fallback().lists(&self.fallback(), listing));
        r
    }

    /// The archive of a version, as the inner backend has it.
    pub fn get_artifact(&mut self, name: &str, version: &str, hash: &str) -> (r: Result<
        Bytes,
        StorageError,
    >)
        ensures
            final(self).store_url() == old(self).store_url(),
            old(self).fallback().serves_artifact(
                &final(self).fallback(),
                name@,
                version@,
                hash@,
                r,
            ),
    {
        self.fallback.get_artifact(name, version, hash)
    }

    /// The image of a plugin, as the inner backend has it.
    pub fn get_image(&mut self, name: &str) -> (r: Result<Bytes, StorageError>)
        ensures
            final(self).store_url() == old(self).store_url(),
            old(self).fallback().serves_image(&final(self).fallback(), name@, r),
    {
        self.fallback.get_image(name)
    }

    /// The usage counts of the inner backend.
    pub fn get_statistics(&mut self) -> (r: Statistics)
        ensures
            final(self).store_url() == old(self).store_url(),
            old(self).fallback().counts(&final(self).fallback(), r@),
    {
        self.fallback.get_statistics()
    }
}

} // verus!
