//! From settings to backends.
//!
//! The settings are walked from the leaves up. What comes out says, for
//! every place in the tree, which backend stands there and with what it is
//! set up; whoever opens the backends wires them together in that shape.

use vstd::prelude::*;
use crate::cli::{DescriptorError, MergeArgs, StorageArgs};
use crate::filesystem::FileStorage;
use crate::grammar::{well_formed, Descriptor, Failure};
use crate::interface::EmptyStorage;
use crate::proxy::ProxiedStorage;

verus! {

/// A tree of backends, set up and not yet opened.
pub enum StorageBox {
    /// A store in a directory.
    File(FileStorage),
    /// The store at an address, passed on, with nothing behind it.
    Proxy(ProxiedStorage<EmptyStorage>),
    /// Nothing.
    Empty,
    /// Several backends served as one, in this order.
    Merge(Vec<StorageBox>),
}

/// A tree of backends, as mathematics.
pub ghost enum Blueprint {
    File { root: Seq<char>, domain_root: Seq<char>, counters: Option<Map<Seq<char>, u64>> },
    Proxy { store_url: Seq<char> },
    Empty,
    Merge { children: Seq<Blueprint> },
}

impl View for StorageBox {
    type V = Blueprint;

    open spec fn view(&self) -> Blueprint
        decreases self,
    {
        match self {
            StorageBox::File(store) => Blueprint::File {
                root: store.root(),
                domain_root: store.domain_root(),
                counters: store.counters(),
            },
            StorageBox::Proxy(proxy) => Blueprint::Proxy { store_url: proxy.store_url() },
            StorageBox::Empty => Blueprint::Empty,
            StorageBox::Merge(children) => Blueprint::Merge {
                children: Seq::new(
                    children.len() as nat,
                    |i: int|
                        if 0 <= i < children.len() {
                            children[i]@
                        } else {
                            Blueprint::Empty
                        },
                ),
            },
        }
    }
}

/// The counters of a store that has just been set up: none yet where hits
/// are counted.
pub open spec fn fresh_counters(counts_hits: bool) -> Option<Map<Seq<char>, u64>> {
    if counts_hits {
        Some(Map::empty())
    } else {
        None
    }
}

/// The backends that settings describe. The default storage is the
/// directory `./store`, served under `http://192.168.0.128:22252`, with
/// hits counted.
pub open spec fn blueprint(d: Descriptor) -> Blueprint
    decreases d,
{
    match d {
        Descriptor::Default => Blueprint::File {
            root: "./store"@,
            domain_root: "http://192.168.0.128:22252"@,
            counters: fresh_counters(true),
        },
        Descriptor::Filesystem { root, domain_root, enable_stats } => Blueprint::File {
            root,
            domain_root,
            counters: fresh_counters(enable_stats),
        },
        Descriptor::Proxy { proxy_store } => Blueprint::Proxy { store_url: proxy_store },
        Descriptor::Empty => Blueprint::Empty,
        Descriptor::Merge { settings } => Blueprint::Merge {
            children: Seq::new(
                settings.len(),
                |i: int|
                    if 0 <= i < settings.len() {
                        blueprint(settings[i])
                    } else {
                        Blueprint::Empty
                    },
            ),
        },
    }
}

/// Sets up the backends that the settings describe. Settings that combine
/// fewer than two backends anywhere are refused. A remote store gets the
/// empty backend to fall back on.
pub fn build_storage_box(storage: &StorageArgs) -> (r: Result<StorageBox, DescriptorError>)
    ensures
        well_formed(storage@) ==> (r matches Ok(built) && built@ == blueprint(storage@)),
        !well_formed(storage@) ==> (r matches Err(e) && e@ == Failure::TooFewChildren),
    decreases storage,
{
    match storage {
        StorageArgs::Default => Ok(
            StorageBox::File(
                FileStorage::new(
                    "./store".to_owned(),
                    "http://192.168.0.128:22252".to_owned(),
                    true,
                ),
            ),
        ),
        StorageArgs::Filesystem(fs) => Ok(
            StorageBox::File(
                FileStorage::new(fs.root.clone(), fs.domain_root.clone(), fs.enable_stats),
            ),
        ),
        StorageArgs::Proxy(px) => Ok(
            StorageBox::Proxy(ProxiedStorage::new(px.proxy_store.clone(), EmptyStorage)),
        ),
        StorageArgs::Empty => Ok(StorageBox::Empty),
        StorageArgs::Merge(ls) => build_merge(ls),
    }
}

/// Sets up the children of a combination, in order.
fn build_merge(ls: &MergeArgs) -> (r: Result<StorageBox, DescriptorError>)
    ensures
        well_formed(ls@) ==> (r matches Ok(built) && built@ == blueprint(ls@)),
        !well_formed(ls@) ==> (r matches Err(e) && e@ == Failure::TooFewChildren),
    decreases ls,
{
    if ls.settings.len() < 2 {
        return Err(DescriptorError::TooFewChildren);
    }
    let ghost settings = ls@->settings;
    let mut children: Vec<StorageBox> = Vec::new();
    let mut i: usize = 0;
    while i < ls.settings.len()
        invariant
            i <= ls.settings.len(),
            settings == ls@->settings,
            settings.len() == ls.settings.len(),
            children.len() == i,
            forall|k: int| 0 <= k < i ==> well_formed(#[trigger] settings[k]),
            forall|k: int| 0 <= k < i ==> (#[trigger] children[k])@ == blueprint(settings[k]),
        decreases ls.settings.len() - i,
    {
        assert(settings[i as int] == ls.settings[i as int]@);
        match build_storage_box(&ls.settings[i]) {
            Ok(child) => { children.push(child); },
            Err(e) => { return Err(e); },
        }
        i += 1;
    }
    let built = StorageBox::Merge(children);
    assert(built@->children =~= blueprint(ls@)->children);
    Ok(built)
}

} // verus!
