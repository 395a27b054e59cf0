//! Several backends served as one.
//!
//! The catalogs of the inner backends are combined by plugin name. While
//! they are combined, two routing tables are drawn up anew: one says which
//! backend serves the archive of a version, the other which backends may
//! have a plugin's image. Requests for archives and images go by these
//! tables, so they find nothing before the first listing.

use bytes::Bytes;
use vstd::prelude::*;
use crate::interface::{contents, IStorage, Statistics, StorageError};
use crate::keyed_map::{KeyedMap, Label, TextMap};
use crate::store_plugin::{
    catalogs_of, plugins_of, versions_of, Plugin, StorePlugin, StorePluginList, Version,
};

verus! {

/// Whether a list holds a plugin of that name.
pub open spec fn named(list: Seq<Plugin>, name: Seq<char>) -> bool {
    exists|i: int| 0 <= i < list.len() && #[trigger] list[i].name == name
}

/// The place of a plugin of that name.
pub open spec fn slot(list: Seq<Plugin>, name: Seq<char>) -> int {
    choose|i: int| 0 <= i < list.len() && #[trigger] list[i].name == name
}

/// Whether no two plugins of a list share a name.
pub open spec fn distinct_names(list: Seq<Plugin>) -> bool {
    forall|i: int, j: int|
        0 <= i < j < list.len() ==> #[trigger] list[i].name != #[trigger] list[j].name
}

/// Takes one plugin into a combined list. The first plugin of a name makes
/// the entry. A later one of the same name adds its versions behind those
/// of the entry; the rest of it is dropped.
pub open spec fn absorb(list: Seq<Plugin>, plugin: Plugin) -> Seq<Plugin> {
    if named(list, plugin.name) {
        let at = slot(list, plugin.name);
        list.update(at, Plugin { versions: list[at].versions + plugin.versions, ..list[at] })
    } else {
        list.push(plugin)
    }
}

/// Takes the plugins of a catalog into a combined list, first to last.
pub open spec fn absorb_all(list: Seq<Plugin>, source: Seq<Plugin>) -> Seq<Plugin>
    decreases source.len(),
{
    if source.len() == 0 {
        list
    } else {
        absorb(absorb_all(list, source.drop_last()), source.last())
    }
}

/// The combined catalog of several catalogs, taken in their order.
pub open spec fn merged(catalogs: Seq<Seq<Plugin>>) -> Seq<Plugin>
    decreases catalogs.len(),
{
    if catalogs.len() == 0 {
        Seq::empty()
    } else {
        absorb_all(merged(catalogs.drop_last()), catalogs.last())
    }
}

/// The versions that the plugins of a name bring along in one catalog, in
/// the catalog's order.
pub open spec fn versions_named(source: Seq<Plugin>, name: Seq<char>) -> Seq<Version>
    decreases source.len(),
{
    if source.len() == 0 {
        Seq::empty()
    } else {
        versions_named(source.drop_last(), name) + if source.last().name == name {
            source.last().versions
        } else {
            Seq::empty()
        }
    }
}

/// The versions that the plugins of a name bring along in all catalogs, in
/// the order of the catalogs.
pub open spec fn versions_across(catalogs: Seq<Seq<Plugin>>, name: Seq<char>) -> Seq<Version>
    decreases catalogs.len(),
{
    if catalogs.len() == 0 {
        Seq::empty()
    } else {
        versions_across(catalogs.drop_last(), name) + versions_named(catalogs.last(), name)
    }
}

/// Whether some catalog holds a plugin of that name.
pub open spec fn named_across(catalogs: Seq<Seq<Plugin>>, name: Seq<char>) -> bool {
    exists|k: int| 0 <= k < catalogs.len() && named(#[trigger] catalogs[k], name)
}

/// The versions of the plugin of that name in a list, if there is one.
pub open spec fn held_versions(list: Seq<Plugin>, name: Seq<char>) -> Seq<Version> {
    if named(list, name) {
        list[slot(list, name)].versions
    } else {
        Seq::empty()
    }
}

proof fn lemma_absorb(list: Seq<Plugin>, plugin: Plugin, name: Seq<char>)
    requires
        distinct_names(list),
    ensures
        distinct_names(absorb(list, plugin)),
        named(absorb(list, plugin), name) <==> named(list, name) || plugin.name == name,
        held_versions(absorb(list, plugin), name) == held_versions(list, name) + if plugin.name
            == name {
            plugin.versions
        } else {
            Seq::empty()
        },
{
    let next = absorb(list, plugin);
    if named(list, plugin.name) {
        let at = slot(list, plugin.name);
        assert forall|i: int| 0 <= i < list.len() implies #[trigger] next[i].name
            == list[i].name by {}
        if named(list, name) {
            let i = slot(list, name);
            assert(next[i].name == name);
            let j = slot(next, name);
            assert(next[j].name == list[j].name);
            assert(i == j);
        }
        if named(next, name) {
            let j = slot(next, name);
            assert(list[j].name == name);
        }
        if plugin.name == name {
            assert(held_versions(next, name) == list[at].versions + plugin.versions);
        } else {
            assert(held_versions(next, name) =~= held_versions(list, name) + Seq::<
                Version,
            >::empty());
        }
    } else {
        let n = list.len() as int;
        assert(next[n].name == plugin.name);
        assert forall|i: int, j: int| 0 <= i < j < next.len() implies #[trigger] next[i].name
            != #[trigger] next[j].name by {
            if j == n {
                assert(list[i].name == next[i].name);
            }
        }
        if named(list, name) {
            let i = slot(list, name);
            assert(next[i].name == name);
            let j = slot(next, name);
            if j < n {
                assert(list[j].name == name);
            }
            assert(i == j);
        }
        if named(next, name) && plugin.name != name {
            let j = slot(next, name);
            assert(list[j].name == name);
        }
        if plugin.name == name {
            let j = slot(next, name);
            if j < n {
                assert(list[j].name == name);
            }
            assert(j == n);
            assert(held_versions(next, name) =~= Seq::<Version>::empty() + plugin.versions);
        } else {
            assert(held_versions(next, name) =~= held_versions(list, name) + Seq::<
                Version,
            >::empty());
        }
    }
}

proof fn lemma_absorb_all(list: Seq<Plugin>, source: Seq<Plugin>, name: Seq<char>)
    requires
        distinct_names(list),
    ensures
        distinct_names(absorb_all(list, source)),
        named(absorb_all(list, source), name) <==> named(list, name) || named(source, name),
        held_versions(absorb_all(list, source), name) == held_versions(list, name)
            + versions_named(source, name),
    decreases source.len(),
{
    if source.len() == 0 {
        assert(held_versions(list, name) + Seq::<Version>::empty() =~= held_versions(list, name));
    } else {
        let earlier = source.drop_last();
        let before = absorb_all(list, earlier);
        lemma_absorb_all(list, earlier, name);
        lemma_absorb(before, source.last(), name);
        if named(earlier, name) {
            let i = choose|i: int| 0 <= i < earlier.len() && #[trigger] earlier[i].name == name;
            assert(source[i].name == name);
        }
        if source.last().name == name {
            assert(source[source.len() - 1].name == name);
        }
        if named(source, name) && source.last().name != name {
            let i = choose|i: int| 0 <= i < source.len() && #[trigger] source[i].name == name;
            assert(earlier[i].name == name);
        }
        let tail = if source.last().name == name {
            source.last().versions
        } else {
            Seq::empty()
        };
        assert(held_versions(list, name) + versions_named(earlier, name) + tail =~= held_versions(
            list,
            name,
        ) + versions_named(source, name));
    }
}

/// One entry for each name: the combined catalog holds a plugin of a name
/// exactly if some catalog does, it holds no name twice, and the versions of
/// its entry are the versions that the catalogs list under that name, one
/// catalog after the other in the order of the catalogs.
pub proof fn lemma_merge_concatenates(catalogs: Seq<Seq<Plugin>>, name: Seq<char>)
    ensures
        distinct_names(merged(catalogs)),
        named(merged(catalogs), name) <==> named_across(catalogs, name),
        held_versions(merged(catalogs), name) == versions_across(catalogs, name),
    decreases catalogs.len(),
{
    if catalogs.len() == 0 {
    } else {
        let earlier = catalogs.drop_last();
        lemma_merge_concatenates(earlier, name);
        lemma_absorb_all(merged(earlier), catalogs.last(), name);
        if named_across(earlier, name) {
            let k = choose|k: int| 0 <= k < earlier.len() && named(#[trigger] earlier[k], name);
            assert(named(catalogs[k], name));
        }
        if named(catalogs.last(), name) {
            assert(named(catalogs[catalogs.len() - 1], name));
        }
        if named_across(catalogs, name) && !named(catalogs.last(), name) {
            let k = choose|k: int| 0 <= k < catalogs.len() && named(#[trigger] catalogs[k], name);
            assert(named(earlier[k], name));
        }
    }
}

/// Two catalogs that both list a plugin of one name come to one entry of
/// that name, whose versions are those that the first catalog lists under
/// the name, followed by those that the second one lists under it.
pub proof fn lemma_two_sources(first: Seq<Plugin>, second: Seq<Plugin>, name: Seq<char>)
    requires
        named(first, name),
        named(second, name),
    ensures
        distinct_names(merged(seq![first, second])),
        named(merged(seq![first, second]), name),
        held_versions(merged(seq![first, second]), name) == versions_named(first, name)
            + versions_named(second, name),
{
    let both = seq![first, second];
    lemma_merge_concatenates(both, name);
    assert(named(both[0], name));
    assert(both.drop_last() =~= seq![first]);
    assert(seq![first].drop_last() =~= Seq::<Seq<Plugin>>::empty());
    assert(versions_across(seq![first], name) =~= versions_named(first, name)) by {
        reveal_with_fuel(versions_across, 2);
    }
    assert(versions_across(both, name) == versions_across(seq![first], name) + versions_named(
        second,
        name,
    ));
}

/// The place of the plugin of that name in a list.
fn find_plugin(list: &Vec<StorePlugin>, name: &str) -> (r: Option<usize>)
    ensures
        match r {
            Some(at) => at < list.len() && list[at as int].name@ == name@,
            None => !named(plugins_of(list@), name@),
        },
{
    let mut i: usize = 0;
    while i < list.len()
        invariant
            i <= list.len(),
            forall|j: int| 0 <= j < i ==> list[j].name@ != name@,
        decreases list.len() - i,
    {
        if crate::text::same_text(list[i].name.as_str(), name) {
            return Some(i);
        }
        i += 1;
    }
    None
}

/// Takes the plugins of `source` into the combined list `dest`, first to
/// last: a plugin whose name `dest` holds adds its versions to that entry,
/// any other becomes a new entry at the end.
pub fn merge_plugins_into(dest: &mut Vec<StorePlugin>, source: StorePluginList)
    requires
        distinct_names(plugins_of(old(dest)@)),
    ensures
        plugins_of(final(dest)@) == absorb_all(plugins_of(old(dest)@), plugins_of(source@)),
        distinct_names(plugins_of(final(dest)@)),
{
    absorb_catalog(dest, &source);
}

/// Takes copies of the plugins of `source` into the combined list `dest`.
fn absorb_catalog(dest: &mut Vec<StorePlugin>, source: &Vec<StorePlugin>)
    requires
        distinct_names(plugins_of(old(dest)@)),
    ensures
        plugins_of(final(dest)@) == absorb_all(plugins_of(old(dest)@), plugins_of(source@)),
        distinct_names(plugins_of(final(dest)@)),
{
    let ghost start = plugins_of(dest@);
    let ghost all = plugins_of(source@);
    let mut i: usize = 0;
    assert(all.take(0) =~= Seq::<Plugin>::empty());
    while i < source.len()
        invariant
            i <= source.len(),
            all == plugins_of(source@),
            distinct_names(plugins_of(dest@)),
            plugins_of(dest@) == absorb_all(start, all.take(i as int)),
        decreases source.len() - i,
    {
        let ghost before = plugins_of(dest@);
        let plugin = source[i].clone();
        proof {
            assert(all.take(i + 1).drop_last() =~= all.take(i as int));
            assert(all.take(i + 1).last() == plugin@);
            lemma_absorb(before, plugin@, plugin@.name);
        }
        match find_plugin(dest, plugin.name.as_str()) {
            Some(at) => {
                let mut entry = dest[at].clone();
                let mut extra = plugin.versions;
                entry.versions.append(&mut extra);
                proof {
                    assert(before[at as int].name == plugin@.name);
                    assert(slot(before, plugin@.name) == at);
                    assert(versions_of(entry.versions@) =~= before[at as int].versions
                        + plugin@.versions);
                }
                dest.set(at, entry);
                assert(plugins_of(dest@) =~= absorb(before, plugin@));
            },
            None => {
                dest.push(plugin);
                assert(plugins_of(dest@) =~= absorb(before, plugin@));
            },
        }
        i += 1;
    }
    assert(all.take(source.len() as int) =~= all);
}

/// What names an archive: the plugin's name, the version's name and the
/// digest of the archive.
pub type Route = (Seq<char>, Seq<char>, Seq<char>);

/// The key of an archive in the routing table.
#[derive(Debug, PartialEq, Eq)]
pub struct ArtifactKey {
    pub plugin_name: String,
    pub version_name: String,
    pub hash: String,
}

impl View for ArtifactKey {
    type V = Route;

    open spec fn view(&self) -> Route {
        (self.plugin_name@, self.version_name@, self.hash@)
    }
}

impl Label for ArtifactKey {
    fn same(&self, other: &Self) -> (r: bool) {
        self.plugin_name == other.plugin_name && self.version_name == other.version_name
            && self.hash == other.hash
    }
}

/// Enters the versions of one plugin for the backend `store`.
pub open spec fn route_versions(
    table: Map<Route, usize>,
    name: Seq<char>,
    versions: Seq<Version>,
    store: usize,
) -> Map<Route, usize>
    decreases versions.len(),
{
    if versions.len() == 0 {
        table
    } else {
        route_versions(table, name, versions.drop_last(), store).insert(
            (name, versions.last().name, versions.last().hash),
            store,
        )
    }
}

/// Enters the versions of a catalog for the backend `store`.
pub open spec fn route_catalog(table: Map<Route, usize>, catalog: Seq<Plugin>, store: usize) -> Map<
    Route,
    usize,
>
    decreases catalog.len(),
{
    if catalog.len() == 0 {
        table
    } else {
        route_versions(
            route_catalog(table, catalog.drop_last(), store),
            catalog.last().name,
            catalog.last().versions,
            store,
        )
    }
}

/// The table of archives for the catalogs of the backends, taken in their
/// order: each archive goes to the backend that listed it; where several
/// did, to the last of them.
pub open spec fn artifact_index_of(catalogs: Seq<Seq<Plugin>>) -> Map<Route, usize>
    decreases catalogs.len(),
{
    if catalogs.len() == 0 {
        Map::empty()
    } else {
        route_catalog(
            artifact_index_of(catalogs.drop_last()),
            catalogs.last(),
            (catalogs.len() - 1) as usize,
        )
    }
}

/// Whether a catalog lists that archive.
pub open spec fn offers(catalog: Seq<Plugin>, route: Route) -> bool {
    exists|i: int, j: int|
        0 <= i < catalog.len() && 0 <= j < catalog[i].versions.len() && catalog[i].name == route.0
            && (#[trigger] catalog[i].versions[j]).name == route.1 && catalog[i].versions[j].hash
            == route.2
}

/// Notes that the backend `store` listed a plugin of that name.
pub open spec fn note_image(table: Map<Seq<char>, Seq<usize>>, name: Seq<char>, store: usize) -> Map<
    Seq<char>,
    Seq<usize>,
> {
    table.insert(
        name,
        if table.contains_key(name) {
            table[name].push(store)
        } else {
            seq![store]
        },
    )
}

/// Notes the plugins of a catalog for the backend `store`.
pub open spec fn image_catalog(
    table: Map<Seq<char>, Seq<usize>>,
    catalog: Seq<Plugin>,
    store: usize,
) -> Map<Seq<char>, Seq<usize>>
    decreases catalog.len(),
{
    if catalog.len() == 0 {
        table
    } else {
        note_image(image_catalog(table, catalog.drop_last(), store), catalog.last().name, store)
    }
}

/// The table of images for the catalogs of the backends, taken in their
/// order: under each name the backends that listed it, in the order in
/// which they did.
pub open spec fn image_index_of(catalogs: Seq<Seq<Plugin>>) -> Map<Seq<char>, Seq<usize>>
    decreases catalogs.len(),
{
    if catalogs.len() == 0 {
        Map::empty()
    } else {
        image_catalog(
            image_index_of(catalogs.drop_last()),
            catalogs.last(),
            (catalogs.len() - 1) as usize,
        )
    }
}

/// The table of images that a map of lists stands for.
pub open spec fn image_table(held: Map<Seq<char>, Vec<usize>>) -> Map<Seq<char>, Seq<usize>> {
    held.map_values(|list: Vec<usize>| list@)
}

/// A copy of a list of backends.
fn copy_ordinals(list: &Vec<usize>) -> (r: Vec<usize>)
    ensures
        r@ == list@,
{
    let mut out: Vec<usize> = Vec::new();
    let mut i: usize = 0;
    while i < list.len()
        invariant
            i <= list.len(),
            out@ == list@.take(i as int),
        decreases list.len() - i,
    {
        out.push(list[i]);
        assert(list@.take(i + 1) =~= list@.take(i as int).push(list[i as int]));
        i += 1;
    }
    assert(list@.take(list.len() as int) =~= list@);
    out
}

/// Enters the archives of a catalog into the table for the backend `store`.
fn route_catalog_into(table: &mut KeyedMap<ArtifactKey, usize>, catalog: &Vec<StorePlugin>, store: usize)
    ensures
        final(table)@ == route_catalog(old(table)@, plugins_of(catalog@), store),
{
    let ghost start = table@;
    let ghost all = plugins_of(catalog@);
    assert(all.take(0) =~= Seq::<Plugin>::empty());
    let mut i: usize = 0;
    while i < catalog.len()
        invariant
            i <= catalog.len(),
            all == plugins_of(catalog@),
            table@ == route_catalog(start, all.take(i as int), store),
        decreases catalog.len() - i,
    {
        let plugin = &catalog[i];
        let ghost before = table@;
        let ghost versions = plugin@.versions;
        assert(versions.take(0) =~= Seq::<Version>::empty());
        let mut j: usize = 0;
        while j < plugin.versions.len()
            invariant
                j <= plugin.versions.len(),
                versions == plugin@.versions,
                versions.len() == plugin.versions.len(),
                table@ == route_versions(before, plugin@.name, versions.take(j as int), store),
            decreases plugin.versions.len() - j,
        {
            let version = &plugin.versions[j];
            let key = ArtifactKey {
                plugin_name: plugin.name.clone(),
                version_name: version.name.clone(),
                hash: version.hash.clone(),
            };
            proof {
                assert(versions.take(j + 1).drop_last() =~= versions.take(j as int));
                assert(versions.take(j + 1).last() == version@);
            }
            table.insert(key, store);
            j += 1;
        }
        proof {
            assert(versions.take(plugin.versions.len() as int) =~= versions);
            assert(all.take(i + 1).drop_last() =~= all.take(i as int));
            assert(all.take(i + 1).last() == plugin@);
        }
        i += 1;
    }
    assert(all.take(catalog.len() as int) =~= all);
}

/// Notes the plugins of a catalog in the table for the backend `store`.
fn image_catalog_into(table: &mut TextMap<Vec<usize>>, catalog: &Vec<StorePlugin>, store: usize)
    ensures
        image_table(final(table)@) == image_catalog(
            image_table(old(table)@),
            plugins_of(catalog@),
            store,
        ),
{
    let ghost start = image_table(table@);
    let ghost all = plugins_of(catalog@);
    assert(all.take(0) =~= Seq::<Plugin>::empty());
    let mut i: usize = 0;
    while i < catalog.len()
        invariant
            i <= catalog.len(),
            all == plugins_of(catalog@),
            image_table(table@) == image_catalog(start, all.take(i as int), store),
        decreases catalog.len() - i,
    {
        let plugin = &catalog[i];
        let ghost before = table@;
        let name = plugin.name.clone();
        let mut stores = match table.get(&name) {
            Some(list) => copy_ordinals(list),
            None => Vec::new(),
        };
        stores.push(store);
        proof {
            assert(all.take(i + 1).drop_last() =~= all.take(i as int));
            assert(all.take(i + 1).last() == plugin@);
            if !before.contains_key(name@) {
                assert(stores@ =~= seq![store]);
            }
        }
        table.insert(name, stores);
        assert(image_table(table@) =~= note_image(image_table(before), plugin@.name, store));
        i += 1;
    }
    assert(all.take(catalog.len() as int) =~= all);
}

/// The sum of two counts; a sum that a count cannot hold is capped at the
/// largest count.
pub open spec fn capped_sum(a: u64, b: u64) -> u64 {
    if a + b > u64::MAX {
        u64::MAX
    } else {
        (a + b) as u64
    }
}

/// Two sets of counts in one: a label that both hold has the sum of its two
/// counts.
pub open spec fn combined(dest: Map<Seq<char>, u64>, source: Map<Seq<char>, u64>) -> Map<
    Seq<char>,
    u64,
> {
    Map::new(
        |label: Seq<char>| dest.contains_key(label) || source.contains_key(label),
        |label: Seq<char>|
            if dest.contains_key(label) && source.contains_key(label) {
                capped_sum(dest[label], source[label])
            } else if dest.contains_key(label) {
                dest[label]
            } else {
                source[label]
            },
    )
}

/// The counts of several backends in one.
pub open spec fn combined_all(sources: Seq<Map<Seq<char>, u64>>) -> Map<Seq<char>, u64>
    decreases sources.len(),
{
    if sources.len() == 0 {
        Map::empty()
    } else {
        combined(combined_all(sources.drop_last()), sources.last())
    }
}

/// The part of a set of counts that lies under the first `upto` labels.
spec fn counted(source: Statistics, upto: int) -> Map<Seq<char>, u64> {
    Map::new(
        |label: Seq<char>|
            exists|j: int| 0 <= j < upto && j < source.labels().len() && source.labels()[j] == label,
        |label: Seq<char>| source@[label],
    )
}

/// Adds the counts of `source` to those of `dest`, label by label.
pub fn merge_statistics_into(dest: &mut Statistics, source: Statistics)
    ensures
        final(dest)@ == combined(old(dest)@, source@),
{
    let ghost start = dest@;
    let n = source.len();
    assert(dest@ =~= combined(start, counted(source, 0)));
    let mut i: usize = 0;
    while i < n
        invariant
            i <= n,
            n == source.labels().len(),
            source.consistent(),
            dest@ == combined(start, counted(source, i as int)),
        decreases n - i,
    {
        let label = source.label(i).clone();
        let count = *source.item(i);
        let ghost before = dest@;
        proof {
            assert(source.labels()[i as int] == label@);
            assert(!counted(source, i as int).contains_key(label@)) by {
                if counted(source, i as int).contains_key(label@) {
                    let j = choose|j: int|
                        0 <= j < i && j < source.labels().len() && source.labels()[j] == label@;
                    assert(source.labels()[j] == source.labels()[i as int]);
                }
            }
        }
        let total = match dest.get(&label) {
            Some(held) => held.saturating_add(count),
            None => count,
        };
        dest.insert(label, total);
        proof {
            let next = counted(source, i + 1);
            let prev = counted(source, i as int);
            assert forall|k: Seq<char>| #[trigger] next.contains_key(k) == (prev.contains_key(k)
                || k == label@) by {
                if prev.contains_key(k) {
                    let j = choose|j: int|
                        0 <= j < i && j < source.labels().len() && source.labels()[j] == k;
                    assert(0 <= j < i + 1 && source.labels()[j] == k);
                }
                if k == label@ {
                    assert(0 <= i < i + 1 && source.labels()[i as int] == k);
                }
            }
            assert(dest@ =~= combined(start, next));
        }
        i += 1;
    }
    proof {
        assert(counted(source, n as int) =~= source@) by {
            assert forall|k: Seq<char>| source@.contains_key(k) implies counted(
                source,
                n as int,
            ).contains_key(k) by {
                assert(source.labels().contains(k));
                let j = choose|j: int| 0 <= j < source.labels().len() && source.labels()[j] == k;
                assert(0 <= j < n && source.labels()[j] == k);
            }
            assert forall|k: Seq<char>| counted(source, n as int).contains_key(
                k,
            ) implies source@.contains_key(k) by {
                let j = choose|j: int|
                    0 <= j < n && j < source.labels().len() && source.labels()[j] == k;
                assert(source@.contains_key(source.labels()[j]));
            }
        }
    }
}

/// Whether a list of versions holds one of that name and digest.
pub open spec fn lists_version(versions: Seq<Version>, name: Seq<char>, hash: Seq<char>) -> bool {
    exists|j: int|
        0 <= j < versions.len() && (#[trigger] versions[j]).name == name && versions[j].hash
            == hash
}

proof fn lemma_route_versions(
    table: Map<Route, usize>,
    name: Seq<char>,
    versions: Seq<Version>,
    store: usize,
    route: Route,
)
    ensures
        ({
            let next = route_versions(table, name, versions, store);
            let hit = route.0 == name && lists_version(versions, route.1, route.2);
            &&& next.contains_key(route) <==> table.contains_key(route) || hit
            &&& hit ==> next[route] == store
            &&& !hit && table.contains_key(route) ==> next[route] == table[route]
        }),
    decreases versions.len(),
{
    if versions.len() > 0 {
        let earlier = versions.drop_last();
        lemma_route_versions(table, name, earlier, store, route);
        if lists_version(earlier, route.1, route.2) {
            let j = choose|j: int|
                0 <= j < earlier.len() && (#[trigger] earlier[j]).name == route.1
                    && earlier[j].hash == route.2;
            assert(versions[j].name == route.1 && versions[j].hash == route.2);
        }
        if lists_version(versions, route.1, route.2) {
            let j = choose|j: int|
                0 <= j < versions.len() && (#[trigger] versions[j]).name == route.1
                    && versions[j].hash == route.2;
            if j < earlier.len() {
                assert(earlier[j].name == route.1 && earlier[j].hash == route.2);
            }
        }
        if versions.last().name == route.1 && versions.last().hash == route.2 {
            assert(versions[versions.len() - 1].name == route.1);
        }
    }
}

proof fn lemma_route_catalog(
    table: Map<Route, usize>,
    catalog: Seq<Plugin>,
    store: usize,
    route: Route,
)
    ensures
        ({
            let next = route_catalog(table, catalog, store);
            &&& next.contains_key(route) <==> table.contains_key(route) || offers(catalog, route)
            &&& offers(catalog, route) ==> next[route] == store
            &&& !offers(catalog, route) && table.contains_key(route) ==> next[route]
                == table[route]
        }),
    decreases catalog.len(),
{
    if catalog.len() > 0 {
        let earlier = catalog.drop_last();
        let last = catalog.last();
        lemma_route_catalog(table, earlier, store, route);
        lemma_route_versions(
            route_catalog(table, earlier, store),
            last.name,
            last.versions,
            store,
            route,
        );
        let hit = route.0 == last.name && lists_version(last.versions, route.1, route.2);
        if offers(earlier, route) {
            let (i, j) = choose|i: int, j: int|
                0 <= i < earlier.len() && 0 <= j < earlier[i].versions.len() && earlier[i].name
                    == route.0 && (#[trigger] earlier[i].versions[j]).name == route.1
                    && earlier[i].versions[j].hash == route.2;
            assert(catalog[i].versions[j].name == route.1);
        }
        if hit {
            let j = choose|j: int|
                0 <= j < last.versions.len() && (#[trigger] last.versions[j]).name == route.1
                    && last.versions[j].hash == route.2;
            let i = catalog.len() - 1;
            assert(catalog[i].versions[j].name == route.1);
        }
        if offers(catalog, route) {
            let (i, j) = choose|i: int, j: int|
                0 <= i < catalog.len() && 0 <= j < catalog[i].versions.len() && catalog[i].name
                    == route.0 && (#[trigger] catalog[i].versions[j]).name == route.1
                    && catalog[i].versions[j].hash == route.2;
            if i < earlier.len() {
                assert(earlier[i].versions[j].name == route.1);
            } else {
                assert(last.versions[j].name == route.1);
            }
        }
    }
}

/// What the table of archives holds: an archive is in the table exactly if
/// some catalog lists it, and the table sends it to the last backend whose
/// catalog does.
pub proof fn lemma_artifact_index(catalogs: Seq<Seq<Plugin>>, route: Route)
    requires
        catalogs.len() <= usize::MAX,
    ensures
        artifact_index_of(catalogs).contains_key(route) <==> exists|k: int|
            0 <= k < catalogs.len() && offers(#[trigger] catalogs[k], route),
        artifact_index_of(catalogs).contains_key(route) ==> {
            let store = artifact_index_of(catalogs)[route] as int;
            &&& 0 <= store < catalogs.len()
            &&& offers(catalogs[store], route)
            &&& forall|k: int| store < k < catalogs.len() ==> !offers(#[trigger] catalogs[k], route)
        },
    decreases catalogs.len(),
{
    if catalogs.len() > 0 {
        let earlier = catalogs.drop_last();
        let last = catalogs.len() - 1;
        lemma_artifact_index(earlier, route);
        lemma_route_catalog(artifact_index_of(earlier), catalogs.last(), last as usize, route);
        if exists|k: int| 0 <= k < earlier.len() && offers(#[trigger] earlier[k], route) {
            let k = choose|k: int| 0 <= k < earlier.len() && offers(#[trigger] earlier[k], route);
            assert(offers(catalogs[k], route));
        }
        if offers(catalogs.last(), route) {
            assert(offers(catalogs[last], route));
        }
        if exists|k: int| 0 <= k < catalogs.len() && offers(#[trigger] catalogs[k], route) {
            let k = choose|k: int| 0 <= k < catalogs.len() && offers(#[trigger] catalogs[k], route);
            if k < last {
                assert(offers(earlier[k], route));
            }
        }
        if artifact_index_of(catalogs).contains_key(route) {
            let store = artifact_index_of(catalogs)[route] as int;
            if !offers(catalogs.last(), route) {
                assert(offers(earlier[store], route));
                assert forall|k: int| store < k < catalogs.len() implies !offers(
                    #[trigger] catalogs[k],
                    route,
                ) by {
                    if k < last {
                        assert(catalogs[k] == earlier[k]);
                    }
                }
            }
        }
    }
}

/// The number of plugins of that name in a catalog.
pub open spec fn count_named(catalog: Seq<Plugin>, name: Seq<char>) -> nat
    decreases catalog.len(),
{
    if catalog.len() == 0 {
        0
    } else {
        count_named(catalog.drop_last(), name) + if catalog.last().name == name {
            1nat
        } else {
            0nat
        }
    }
}

/// The backends that list a plugin of that name, in their order, each as
/// often as its catalog lists the name.
pub open spec fn listing_stores(catalogs: Seq<Seq<Plugin>>, name: Seq<char>) -> Seq<usize>
    decreases catalogs.len(),
{
    if catalogs.len() == 0 {
        Seq::empty()
    } else {
        listing_stores(catalogs.drop_last(), name) + Seq::new(
            count_named(catalogs.last(), name),
            |i: int| (catalogs.len() - 1) as usize,
        )
    }
}

/// The list that a table holds under a name, empty where it holds none.
pub open spec fn noted(table: Map<Seq<char>, Seq<usize>>, name: Seq<char>) -> Seq<usize> {
    if table.contains_key(name) {
        table[name]
    } else {
        Seq::empty()
    }
}

proof fn lemma_image_catalog(
    table: Map<Seq<char>, Seq<usize>>,
    catalog: Seq<Plugin>,
    store: usize,
    name: Seq<char>,
)
    ensures
        ({
            let next = image_catalog(table, catalog, store);
            &&& next.contains_key(name) <==> table.contains_key(name) || named(catalog, name)
            &&& noted(next, name) == noted(table, name) + Seq::new(
                count_named(catalog, name),
                |i: int| store,
            )
        }),
    decreases catalog.len(),
{
    let next = image_catalog(table, catalog, store);
    if catalog.len() == 0 {
        assert(noted(next, name) =~= noted(table, name) + Seq::new(0, |i: int| store));
    } else {
        let earlier = catalog.drop_last();
        let last = catalog.last();
        lemma_image_catalog(table, earlier, store, name);
        if named(earlier, name) {
            let i = choose|i: int| 0 <= i < earlier.len() && #[trigger] earlier[i].name == name;
            assert(catalog[i].name == name);
        }
        if last.name == name {
            assert(catalog[catalog.len() - 1].name == name);
        }
        if named(catalog, name) && last.name != name {
            let i = choose|i: int| 0 <= i < catalog.len() && #[trigger] catalog[i].name == name;
            assert(earlier[i].name == name);
        }
        assert(noted(next, name) =~= noted(table, name) + Seq::new(
            count_named(catalog, name),
            |i: int| store,
        ));
    }
}

/// What the table of images holds: a name is in the table exactly if some
/// catalog lists it, and under it stand the backends that list it, in the
/// order in which the listing met them.
pub proof fn lemma_image_index(catalogs: Seq<Seq<Plugin>>, name: Seq<char>)
    ensures
        image_index_of(catalogs).contains_key(name) <==> named_across(catalogs, name),
        noted(image_index_of(catalogs), name) == listing_stores(catalogs, name),
    decreases catalogs.len(),
{
    if catalogs.len() > 0 {
        let earlier = catalogs.drop_last();
        lemma_image_index(earlier, name);
        lemma_image_catalog(
            image_index_of(earlier),
            catalogs.last(),
            (catalogs.len() - 1) as usize,
            name,
        );
        if named_across(earlier, name) {
            let k = choose|k: int| 0 <= k < earlier.len() && named(#[trigger] earlier[k], name);
            assert(named(catalogs[k], name));
        }
        if named(catalogs.last(), name) {
            assert(named(catalogs[catalogs.len() - 1], name));
        }
        if named_across(catalogs, name) && !named(catalogs.last(), name) {
            let k = choose|k: int| 0 <= k < catalogs.len() && named(#[trigger] catalogs[k], name);
            assert(named(earlier[k], name));
        }
    }
}

/// Several backends behind one, with the routing tables of the last
/// listing.
pub struct MergedStorage<S: IStorage> {
    stores: Vec<S>,
    store_artifact_map: KeyedMap<ArtifactKey, usize>,
    store_image_map: TextMap<Vec<usize>>,
}

/// Whether each backend of `stores` answered a listing with its catalog in
/// `catalogs` and is left as it stands in `after`.
pub open spec fn all_list<S: IStorage>(
    stores: Seq<S>,
    after: Seq<S>,
    catalogs: Seq<Seq<Plugin>>,
) -> bool {
    &&& after.len() == stores.len()
    &&& catalogs.len() == stores.len()
    &&& forall|i: int|
        0 <= i < stores.len() ==> (#[trigger] stores[i]).lists(&after[i], catalogs[i])
}

/// Whether each backend of `stores` answered with its usage counts in
/// `sources` and is left as it stands in `after`.
pub open spec fn all_count<S: IStorage>(
    stores: Seq<S>,
    after: Seq<S>,
    sources: Seq<Map<Seq<char>, u64>>,
) -> bool {
    &&& after.len() == stores.len()
    &&& sources.len() == stores.len()
    &&& forall|i: int|
        0 <= i < stores.len() ==> (#[trigger] stores[i]).counts(&after[i], sources[i])
}

/// What asking the backends at the places `candidates`, one after the
/// other, for an image comes to: the first answer that is an image is the
/// answer of the search, and no backend behind it is asked; a failure is
/// passed over; when no backend is left, the image is not found. A place
/// that holds no backend is passed over. Each backend that is asked
/// answers as it promises, and is left as it then stands; `after` is how
/// the backends are left in the end.
pub open spec fn image_search<S: IStorage>(
    stores: Seq<S>,
    after: Seq<S>,
    candidates: Seq<usize>,
    name: Seq<char>,
    r: Result<Bytes, StorageError>,
) -> bool
    decreases candidates.len(),
{
    if candidates.len() == 0 {
        r == Err::<Bytes, StorageError>(StorageError::NotFound) && after == stores
    } else {
        let at = candidates[0] as int;
        if at >= stores.len() {
            image_search(stores, after, candidates.drop_first(), name, r)
        } else {
            exists|asked: S, attempt: Result<Bytes, StorageError>|
                #![trigger stores[at].serves_image(&asked, name, attempt)]
                stores[at].serves_image(&asked, name, attempt) && match attempt {
                    Ok(image) => r == Ok::<Bytes, StorageError>(image) && after == stores.update(
                        at,
                        asked,
                    ),
                    Err(_) => image_search(
                        stores.update(at, asked),
                        after,
                        candidates.drop_first(),
                        name,
                        r,
                    ),
                }
        }
    }
}

/// Where two backends are named for a plugin, the first of which can only
/// fail and the second of which can only answer with one image, the search
/// answers with that image.
pub proof fn lemma_image_falls_back<S: IStorage>(
    stores: Seq<S>,
    after: Seq<S>,
    first: usize,
    second: usize,
    name: Seq<char>,
    image: Seq<u8>,
    r: Result<Bytes, StorageError>,
)
    requires
        first < stores.len(),
        second < stores.len(),
        first != second,
        forall|asked: S, attempt: Result<Bytes, StorageError>| #[trigger]
            stores[first as int].serves_image(&asked, name, attempt) ==> attempt is Err,
        forall|asked: S, attempt: Result<Bytes, StorageError>| #[trigger]
            stores[second as int].serves_image(&asked, name, attempt) ==> (attempt matches Ok(
                blob,
            ) && contents(blob) == image),
        image_search(stores, after, seq![first, second], name, r),
    ensures
        r matches Ok(blob) && contents(blob) == image,
{
    let both = seq![first, second];
    let (asked, attempt) = choose|asked: S, attempt: Result<Bytes, StorageError>|
        #![trigger stores[first as int].serves_image(&asked, name, attempt)]
        stores[first as int].serves_image(&asked, name, attempt) && match attempt {
            Ok(found) => r == Ok::<Bytes, StorageError>(found) && after == stores.update(
                first as int,
                asked,
            ),
            Err(_) => image_search(
                stores.update(first as int, asked),
                after,
                both.drop_first(),
                name,
                r,
            ),
        };
    let next = stores.update(first as int, asked);
    assert(both.drop_first() =~= seq![second]);
    assert(next[second as int] == stores[second as int]);
    let (again, answer) = choose|again: S, answer: Result<Bytes, StorageError>|
        #![trigger next[second as int].serves_image(&again, name, answer)]
        next[second as int].serves_image(&again, name, answer) && match answer {
            Ok(found) => r == Ok::<Bytes, StorageError>(found) && after == next.update(
                second as int,
                again,
            ),
            Err(_) => image_search(
                next.update(second as int, again),
                after,
                seq![second].drop_first(),
                name,
                r,
            ),
        };
}

/// An archive that the table of archives does not hold is not found,
/// whatever else the table holds of the plugin, and no backend is asked.
pub proof fn lemma_artifact_miss<S: IStorage>(
    before: MergedStorage<S>,
    after: MergedStorage<S>,
    name: Seq<char>,
    version: Seq<char>,
    hash: Seq<char>,
    r: Result<Bytes, StorageError>,
)
    requires
        before.serves_artifact(&after, name, version, hash, r),
        !before.artifact_index().contains_key((name, version, hash)),
    ensures
        r == Err::<Bytes, StorageError>(StorageError::NotFound),
        after.stores() == before.stores(),
{
}

impl<S: IStorage> MergedStorage<S> {
    /// The inner backends, in the order in which they are asked.
    pub closed spec fn stores(self) -> Seq<S> {
        self.stores@
    }

    /// The backend that serves each archive.
    pub closed spec fn artifact_index(self) -> Map<Route, usize> {
        self.store_artifact_map@
    }

    /// The backends that may have each plugin's image.
    pub closed spec fn image_index(self) -> Map<Seq<char>, Seq<usize>> {
        image_table(self.store_image_map@)
    }

    /// Whether the backend, asked for its catalog, is left as `after` when
    /// the inner backends answer with `catalogs`: both tables are drawn up
    /// anew from the catalogs.
    pub open spec fn rebuilt_from(self, after: Self, catalogs: Seq<Seq<Plugin>>) -> bool {
        &&& all_list(self.stores(), after.stores(), catalogs)
        &&& after.artifact_index() == artifact_index_of(catalogs)
        &&& after.image_index() == image_index_of(catalogs)
    }

    /// Combines the given backends. The routing tables start empty.
    pub fn new(inner: Vec<S>) -> (r: Self)
        ensures
            r.stores() == inner@,
            r.artifact_index() == Map::<Route, usize>::empty(),
            r.image_index() == Map::<Seq<char>, Seq<usize>>::empty(),
    {
        let r = MergedStorage {
            stores: inner,
            store_artifact_map: KeyedMap::new(),
            store_image_map: KeyedMap::new(),
        };
        assert(r.image_index() =~= Map::<Seq<char>, Seq<usize>>::empty());
        r
    }

    /// Asks every inner backend for its catalog, in order.
    fn gather(&mut self) -> (r: Vec<StorePluginList>)
        ensures
            all_list(old(self).stores(), final(self).stores(), catalogs_of(r@)),
            final(self).artifact_index() == old(self).artifact_index(),
            final(self).image_index() == old(self).image_index(),
    {
        let mut catalogs: Vec<StorePluginList> = Vec::new();
        let mut i: usize = 0;
        while i < self.stores.len()
            invariant
                i <= self.stores.len(),
                catalogs.len() == i,
                self.stores.len() == old(self).stores.len(),
                self.store_artifact_map == old(self).store_artifact_map,
                self.store_image_map == old(self).store_image_map,
                forall|j: int|
                    0 <= j < i ==> (#[trigger] old(self).stores[j]).lists(
                        &self.stores[j],
                        plugins_of(catalogs[j]@),
                    ),
                forall|j: int|
                    i <= j < self.stores.len() ==> self.stores[j] == #[trigger] old(self).stores[j],
            decreases self.stores.len() - i,
        {
            let catalog = self.stores[i].plugins();
            catalogs.push(catalog);
            i += 1;
        }
        catalogs
    }

    /// Combines the catalogs that the inner backends gave, in their order,
    /// and draws up both routing tables anew from them.
    pub fn rebuild(&mut self, catalogs: &Vec<StorePluginList>) -> (r: StorePluginList)
        ensures
            plugins_of(r@) == merged(catalogs_of(catalogs@)),
            final(self).artifact_index() == artifact_index_of(catalogs_of(catalogs@)),
            final(self).image_index() == image_index_of(catalogs_of(catalogs@)),
            final(self).stores() == old(self).stores(),
    {
        let ghost all = catalogs_of(catalogs@);
        let mut merged_plugins: Vec<StorePlugin> = Vec::new();
        self.store_artifact_map = KeyedMap::new();
        self.store_image_map = KeyedMap::new();
        proof {
            assert(all.take(0) =~= Seq::<Seq<Plugin>>::empty());
            assert(plugins_of(merged_plugins@) =~= Seq::<Plugin>::empty());
            assert(image_table(self.store_image_map@) =~= Map::<Seq<char>, Seq<usize>>::empty());
        }
        let mut index: usize = 0;
        while index < catalogs.len()
            invariant
                index <= catalogs.len(),
                all == catalogs_of(catalogs@),
                self.stores == old(self).stores,
                distinct_names(plugins_of(merged_plugins@)),
                plugins_of(merged_plugins@) == merged(all.take(index as int)),
                self.store_artifact_map@ == artifact_index_of(all.take(index as int)),
                image_table(self.store_image_map@) == image_index_of(all.take(index as int)),
            decreases catalogs.len() - index,
        {
            let catalog = &catalogs[index];
            proof {
                assert(all.take(index + 1).drop_last() =~= all.take(index as int));
                assert(all.take(index + 1).last() == plugins_of(catalog@));
                assert(all.take(index + 1).len() - 1 == index);
            }
            route_catalog_into(&mut self.store_artifact_map, catalog, index);
            image_catalog_into(&mut self.store_image_map, catalog, index);
            absorb_catalog(&mut merged_plugins, catalog);
            index += 1;
        }
        assert(all.take(catalogs.len() as int) =~= all);
        merged_plugins
    }
}

impl<S: IStorage> IStorage for MergedStorage<S> {
    /// The catalog is the combination of the catalogs that the inner
    /// backends answer with, and both routing tables are drawn up anew
    /// from those catalogs.
    open spec fn lists(&self, after: &Self, catalog: Seq<Plugin>) -> bool {
        exists|catalogs: Seq<Seq<Plugin>>|
            #[trigger] self.rebuilt_from(*after, catalogs) && catalog == merged(catalogs)
    }

    /// An archive that the table of archives holds is what the backend
    /// that the table names answers, and no other backend is asked. An
    /// archive that the table does not hold is not found, whatever else the
    /// table holds of the plugin. The tables stay as they are.
    open spec fn serves_artifact(
        &self,
        after: &Self,
        name: Seq<char>,
        version: Seq<char>,
        hash: Seq<char>,
        r: Result<Bytes, StorageError>,
    ) -> bool {
        let route = (name, version, hash);
        &&& after.artifact_index() == self.artifact_index()
        &&& after.image_index() == self.image_index()
        &&& after.stores().len() == self.stores().len()
        &&& if self.artifact_index().contains_key(route) && self.artifact_index()[route]
            < self.stores().len() {
            let at = self.artifact_index()[route] as int;
            &&& self.stores()[at].serves_artifact(&after.stores()[at], name, version, hash, r)
            &&& after.stores() == self.stores().update(at, after.stores()[at])
        } else {
            &&& r == Err::<Bytes, StorageError>(StorageError::NotFound)
            &&& after.stores() == self.stores()
        }
    }

    /// The image is the outcome of [`image_search`] among the backends
    /// that the table of images names for the plugin; a plugin that the
    /// table does not hold is not found. The tables stay as they are.
    open spec fn serves_image(
        &self,
        after: &Self,
        name: Seq<char>,
        r: Result<Bytes, StorageError>,
    ) -> bool {
        &&& after.artifact_index() == self.artifact_index()
        &&& after.image_index() == self.image_index()
        &&& image_search(
            self.stores(),
            after.stores(),
            noted(self.image_index(), name),
            name,
            r,
        )
    }

    /// The usage counts are the counts that the inner backends answer
    /// with, added up label by label. The tables stay as they are.
    open spec fn counts(&self, after: &Self, statistics: Map<Seq<char>, u64>) -> bool {
        &&& after.artifact_index() == self.artifact_index()
        &&& after.image_index() == self.image_index()
        &&& exists|sources: Seq<Map<Seq<char>, u64>>|
            #[trigger] all_count(self.stores(), after.stores(), sources) && statistics
                == combined_all(sources)
    }

    /// Asks every inner backend for its catalog, in order, combines the
    /// catalogs and draws up both routing tables anew.
    fn plugins(&mut self) -> (r: StorePluginList) {
        let catalogs = self.gather();
        let r = self.rebuild(&catalogs);
        proof {
            let given = catalogs_of(catalogs@);
            assert(old(self).rebuilt_from(*self, given));
        }
        r
    }

    /// Looks the archive up in the table of archives and asks the backend
    /// that the table names.
    fn get_artifact(&mut self, name: &str, version: &str, hash: &str) -> (r: Result<
        Bytes,
        StorageError,
    >) {
        let key = ArtifactKey {
            plugin_name: name.to_owned(),
            version_name: version.to_owned(),
            hash: hash.to_owned(),
        };
        let found = match self.store_artifact_map.get(&key) {
            Some(index) => Some(*index),
            None => None,
        };
        match found {
            Some(index) => {
                if index < self.stores.len() {
                    let r = self.stores[index].get_artifact(name, version, hash);
                    assert(self.stores@ =~= old(self).stores@.update(
                        index as int,
                        self.stores@[index as int],
                    ));
                    r
                } else {
                    Err(StorageError::NotFound)
                }
            },
            None => Err(StorageError::NotFound),
        }
    }

    /// Asks the backends that the table of images names for the plugin,
    /// in the table's order, until one hands out the image.
    fn get_image(&mut self, name: &str) -> (r: Result<Bytes, StorageError>) {
        let key = name.to_owned();
        let candidates = match self.store_image_map.get(&key) {
            Some(list) => copy_ordinals(list),
            None => Vec::new(),
        };
        let ghost wanted = candidates@;
        assert(wanted == noted(old(self).image_index(), name@));
        assert(wanted.skip(0) =~= wanted);
        let mut at: usize = 0;
        while at < candidates.len()
            invariant
                at <= candidates.len(),
                wanted == candidates@,
                wanted == noted(old(self).image_index(), name@),
                self.store_artifact_map == old(self).store_artifact_map,
                self.store_image_map == old(self).store_image_map,
                forall|after: Seq<S>, r: Result<Bytes, StorageError>| #[trigger]
                    image_search(self.stores@, after, wanted.skip(at as int), name@, r)
                        ==> image_search(old(self).stores@, after, wanted, name@, r),
            decreases candidates.len() - at,
        {
            let index = candidates[at];
            let ghost before = self.stores@;
            let ghost rest = wanted.skip(at as int);
            proof {
                assert(rest.len() > 0 && rest[0] == index);
                assert(rest.drop_first() =~= wanted.skip(at + 1));
            }
            if index < self.stores.len() {
                let attempt = self.stores[index].get_image(name);
                let ghost asked = self.stores@[index as int];
                proof {
                    assert(self.stores@ =~= before.update(index as int, asked));
                    assert(before[index as int].serves_image(&asked, name@, attempt));
                }
                match attempt {
                    Ok(image) => {
                        proof {
                            let found = Ok::<Bytes, StorageError>(image);
                            assert(image_search(before, self.stores@, rest, name@, found));
                            assert(image_search(
                                old(self).stores@,
                                self.stores@,
                                wanted,
                                name@,
                                found,
                            ));
                        }
                        return Ok(image);
                    },
                    Err(_) => {
                        proof {
                            assert forall|after: Seq<S>, r: Result<Bytes, StorageError>| #[trigger]
                                image_search(
                                    self.stores@,
                                    after,
                                    wanted.skip(at + 1),
                                    name@,
                                    r,
                                ) implies image_search(old(self).stores@, after, wanted, name@, r) by {
                                assert(image_search(before, after, rest, name@, r));
                            }
                        }
                    },
                }
            } else {
                proof {
                    assert forall|after: Seq<S>, r: Result<Bytes, StorageError>| #[trigger]
                        image_search(
                            self.stores@,
                            after,
                            wanted.skip(at + 1),
                            name@,
                            r,
                        ) implies image_search(old(self).stores@, after, wanted, name@, r) by {
                        assert(image_search(before, after, rest, name@, r));
                    }
                }
            }
            at += 1;
        }
        proof {
            assert(wanted.skip(candidates.len() as int) =~= Seq::<usize>::empty());
            assert(image_search(
                self.stores@,
                self.stores@,
                wanted.skip(candidates.len() as int),
                name@,
                Err::<Bytes, StorageError>(StorageError::NotFound),
            ));
        }
        Err(StorageError::NotFound)
    }

    /// Asks every inner backend for its usage counts, in order, and adds
    /// them up.
    fn get_statistics(&mut self) -> (r: Statistics) {
        let mut stats: Statistics = KeyedMap::new();
        let ghost mut sources: Seq<Map<Seq<char>, u64>> = Seq::empty();
        let mut i: usize = 0;
        while i < self.stores.len()
            invariant
                i <= self.stores.len(),
                self.stores.len() == old(self).stores.len(),
                self.store_artifact_map == old(self).store_artifact_map,
                self.store_image_map == old(self).store_image_map,
                sources.len() == i,
                stats@ == combined_all(sources),
                forall|j: int|
                    0 <= j < i ==> (#[trigger] old(self).stores[j]).counts(
                        &self.stores[j],
                        sources[j],
                    ),
                forall|j: int|
                    i <= j < self.stores.len() ==> self.stores[j] == #[trigger] old(self).stores[j],
            decreases self.stores.len() - i,
        {
            let new_stats = self.stores[i].get_statistics();
            proof {
                let longer = sources.push(new_stats@);
                assert(longer.drop_last() =~= sources);
                sources = longer;
            }
            merge_statistics_into(&mut stats, new_stats);
            i += 1;
        }
        proof {
            assert(all_count(old(self).stores(), self.stores(), sources));
        }
        stats
    }
}

} // verus!
