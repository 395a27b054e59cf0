//! The entries of a plugin catalog.

use vstd::prelude::*;

verus! {

/// One installable version of a plugin.
#[derive(Debug, PartialEq, Eq)]
pub struct StorePluginVersion {
    pub name: String,
    /// The digest of the version's archive.
    pub hash: String,
    /// Where the archive can be had, if that is known.
    pub artifact: Option<String>,
}

/// A plugin as a catalog lists it. Its name, not its id, says which plugin
/// it is.
#[derive(Debug, PartialEq, Eq)]
pub struct StorePlugin {
    pub id: usize,
    pub name: String,
    pub versions: Vec<StorePluginVersion>,
    pub author: String,
    pub description: String,
    pub tags: Vec<String>,
    pub image_url: String,
}

/// A catalog: the plugins of a store, in no particular order.
pub type StorePluginList = Vec<StorePlugin>;

/// A version, as mathematics.
pub ghost struct Version {
    pub name: Seq<char>,
    pub hash: Seq<char>,
    pub artifact: Option<Seq<char>>,
}

/// A plugin, as mathematics.
pub ghost struct Plugin {
    pub id: usize,
    pub name: Seq<char>,
    pub versions: Seq<Version>,
    pub author: Seq<char>,
    pub description: Seq<char>,
    pub tags: Seq<Seq<char>>,
    pub image_url: Seq<char>,
}

impl View for StorePluginVersion {
    type V = Version;

    open spec fn view(&self) -> Version {
        Version {
            name: self.name@,
            hash: self.hash@,
            artifact: match self.artifact {
                Some(url) => Some(url@),
                None => None,
            },
        }
    }
}

/// The versions of a list, one by one.
pub open spec fn versions_of(list: Seq<StorePluginVersion>) -> Seq<Version> {
    Seq::new(list.len(), |i: int| list[i]@)
}

/// The texts of a list, one by one.
pub open spec fn texts_of(list: Seq<String>) -> Seq<Seq<char>> {
    Seq::new(list.len(), |i: int| list[i]@)
}

impl View for StorePlugin {
    type V = Plugin;

    open spec fn view(&self) -> Plugin {
        Plugin {
            id: self.id,
            name: self.name@,
            versions: versions_of(self.versions@),
            author: self.author@,
            description: self.description@,
            tags: texts_of(self.tags@),
            image_url: self.image_url@,
        }
    }
}

/// The plugins of a catalog, one by one.
pub open spec fn plugins_of(list: Seq<StorePlugin>) -> Seq<Plugin> {
    Seq::new(list.len(), |i: int| list[i]@)
}

/// The catalogs of a list, one by one.
pub open spec fn catalogs_of(lists: Seq<StorePluginList>) -> Seq<Seq<Plugin>> {
    Seq::new(lists.len(), |i: int| plugins_of(lists[i]@))
}

impl Clone for StorePluginVersion {
    fn clone(&self) -> (r: Self)
        ensures
            r@ == self@,
    {
        StorePluginVersion {
            name: self.name.clone(),
            hash: self.hash.clone(),
            artifact: match &self.artifact {
                Some(url) => Some(url.clone()),
                None => None,
            },
        }
    }
}

/// A copy of a list of versions.
pub fn clone_versions(list: &Vec<StorePluginVersion>) -> (r: Vec<StorePluginVersion>)
    ensures
        versions_of(r@) == versions_of(list@),
{
    let mut out: Vec<StorePluginVersion> = Vec::new();
    let mut i: usize = 0;
    while i < list.len()
        invariant
            i <= list.len(),
            out.len() == i,
            forall|j: int| 0 <= j < i ==> out[j]@ == list[j]@,
        decreases list.len() - i,
    {
        out.push(list[i].clone());
        i += 1;
    }
    assert(versions_of(out@) =~= versions_of(list@));
    out
}

/// A copy of a list of texts.
pub fn clone_texts(list: &Vec<String>) -> (r: Vec<String>)
    ensures
        texts_of(r@) == texts_of(list@),
{
    let mut out: Vec<String> = Vec::new();
    let mut i: usize = 0;
    while i < list.len()
        invariant
            i <= list.len(),
            out.len() == i,
            forall|j: int| 0 <= j < i ==> out[j]@ == list[j]@,
        decreases list.len() - i,
    {
        out.push(list[i].clone());
        i += 1;
    }
    assert(texts_of(out@) =~= texts_of(list@));
    out
}

impl Clone for StorePlugin {
    fn clone(&self) -> (r: Self)
        ensures
            r@ == self@,
    {
        StorePlugin {
            id: self.id,
            name: self.name.clone(),
            versions: clone_versions(&self.versions),
            author: self.author.clone(),
            description: self.description.clone(),
            tags: clone_texts(&self.tags),
            image_url: self.image_url.clone(),
        }
    }
}

/// A copy of a catalog.
pub fn clone_plugins(list: &Vec<StorePlugin>) -> (r: StorePluginList)
    ensures
        plugins_of(r@) == plugins_of(list@),
{
    let mut out: Vec<StorePlugin> = Vec::new();
    let mut i: usize = 0;
    while i < list.len()
        invariant
            i <= list.len(),
            out.len() == i,
            forall|j: int| 0 <= j < i ==> out[j]@ == list[j]@,
        decreases list.len() - i,
    {
        out.push(list[i].clone());
        i += 1;
    }
    assert(plugins_of(out@) =~= plugins_of(list@));
    out
}

} // verus!
