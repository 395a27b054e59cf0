//! A store kept in a directory: one folder per plugin, holding the
//! plugin's description, one archive per version and an image.
//!
//! Nothing here touches the disk. The caller reads what the paths below
//! name and hands over what it found; what is made of it is decided here.

use bytes::Bytes;
use vstd::prelude::*;
use vstd::std_specs::iter::IteratorSpec;
use vstd::string::{StrSliceExecFns, StringExecFns};
use crate::interface::{blob_from, contents, Statistics, StorageError};
use crate::keyed_map::{KeyedMap, TextMap};
use crate::store_plugin::{
    plugins_of, texts_of, versions_of, Plugin, StorePlugin, StorePluginList, StorePluginVersion,
    Version,
};
use crate::text::{budget, finite};

verus! {

/// Whether text `a` comes before text `b` when the two are compared
/// character by character; a text comes after every text it starts with.
pub open spec fn text_before(a: Seq<char>, b: Seq<char>) -> bool
    decreases a.len(),
{
    if b.len() == 0 {
        false
    } else if a.len() == 0 {
        true
    } else if a[0] != b[0] {
        (a[0] as u32) < (b[0] as u32)
    } else {
        text_before(a.drop_first(), b.drop_first())
    }
}

/// Whether `a` comes before `b` in the order of [`text_before`].
pub fn comes_before(a: &str, b: &str) -> (r: bool)
    ensures
        r == text_before(a@, b@),
{
    let mut left = a.chars();
    let mut right = b.chars();
    loop
        invariant
            finite(left),
            finite(right),
            text_before(a@, b@) == text_before(left.remaining(), right.remaining()),
        decreases budget(right),
    {
        match right.next() {
            None => { return false; },
            Some(y) => {
                match left.next() {
                    None => { return true; },
                    Some(x) => {
                        if x != y {
                            return (x as u32) < (y as u32);
                        }
                    },
                }
            },
        }
    }
}

proof fn lemma_text_before_transitive(a: Seq<char>, b: Seq<char>, c: Seq<char>)
    requires
        text_before(a, b),
        text_before(b, c),
    ensures
        text_before(a, c),
    decreases a.len(),
{
    if a.len() > 0 && a[0] == b[0] && b[0] == c[0] {
        lemma_text_before_transitive(a.drop_first(), b.drop_first(), c.drop_first());
    }
}

proof fn lemma_text_before_irreflexive(a: Seq<char>)
    ensures
        !text_before(a, a),
    decreases a.len(),
{
    if a.len() > 0 {
        lemma_text_before_irreflexive(a.drop_first());
    }
}

proof fn lemma_codes_differ(x: char, y: char)
    ensures
        x != y ==> x as u32 != y as u32,
{
}

proof fn lemma_text_before_total(a: Seq<char>, b: Seq<char>)
    ensures
        a == b || text_before(a, b) || text_before(b, a),
    decreases a.len(),
{
    if a.len() > 0 && b.len() > 0 && a[0] == b[0] {
        lemma_text_before_total(a.drop_first(), b.drop_first());
        if a.drop_first() == b.drop_first() {
            assert(a =~= seq![a[0]] + a.drop_first());
            assert(b =~= seq![b[0]] + b.drop_first());
        }
    } else if a.len() == 0 && b.len() == 0 {
        assert(a =~= b);
    } else if a.len() > 0 && b.len() > 0 {
        lemma_codes_differ(a[0], b[0]);
    }
}

/// [`text_before`] puts all texts in one line: of two different texts one
/// comes before the other, never both ways round, and what comes before a
/// text comes before everything behind that text.
pub proof fn lemma_text_order(a: Seq<char>, b: Seq<char>, c: Seq<char>)
    ensures
        !text_before(a, a),
        a != b ==> text_before(a, b) || text_before(b, a),
        text_before(a, b) ==> !text_before(b, a),
        text_before(a, b) && text_before(b, c) ==> text_before(a, c),
{
    lemma_text_before_irreflexive(a);
    lemma_text_before_total(a, b);
    if text_before(a, b) && text_before(b, a) {
        lemma_text_before_transitive(a, b, a);
    }
    if text_before(a, b) && text_before(b, c) {
        lemma_text_before_transitive(a, b, c);
    }
}

/// Puts a version into a list that runs from the last name to the first:
/// behind every version whose name does not come before its own.
pub open spec fn place(ordered: Seq<Version>, version: Version) -> Seq<Version>
    decreases ordered.len(),
{
    if ordered.len() == 0 {
        seq![version]
    } else if text_before(ordered[0].name, version.name) {
        seq![version] + ordered
    } else {
        seq![ordered[0]] + place(ordered.drop_first(), version)
    }
}

/// The versions of a list by name, last name first. Versions of one name
/// keep the order they had.
pub open spec fn ordered_versions(list: Seq<Version>) -> Seq<Version>
    decreases list.len(),
{
    if list.len() == 0 {
        Seq::empty()
    } else {
        place(ordered_versions(list.drop_last()), list.last())
    }
}

/// Whether no version of a list stands before one whose name comes after
/// its own.
pub open spec fn descending(list: Seq<Version>) -> bool {
    forall|i: int, j: int|
        0 <= i < j < list.len() ==> !text_before(#[trigger] list[i].name, #[trigger] list[j].name)
}

/// The place at which [`place`] puts a version.
spec fn place_at(ordered: Seq<Version>, version: Version) -> int
    decreases ordered.len(),
{
    if ordered.len() == 0 {
        0
    } else if text_before(ordered[0].name, version.name) {
        0
    } else {
        1 + place_at(ordered.drop_first(), version)
    }
}

proof fn lemma_place(ordered: Seq<Version>, version: Version)
    ensures
        0 <= place_at(ordered, version) <= ordered.len(),
        place(ordered, version) == ordered.insert(place_at(ordered, version), version),
        forall|i: int|
            0 <= i < place_at(ordered, version) ==> !text_before(
                (#[trigger] ordered[i]).name,
                version.name,
            ),
        place_at(ordered, version) < ordered.len() ==> text_before(
            ordered[place_at(ordered, version)].name,
            version.name,
        ),
    decreases ordered.len(),
{
    if ordered.len() == 0 {
        assert(seq![version] =~= ordered.insert(0, version));
    } else if text_before(ordered[0].name, version.name) {
        assert(seq![version] + ordered =~= ordered.insert(0, version));
    } else {
        let rest = ordered.drop_first();
        lemma_place(rest, version);
        let at = place_at(rest, version);
        assert(seq![ordered[0]] + rest.insert(at, version) =~= ordered.insert(at + 1, version));
        assert forall|i: int| 0 <= i < at + 1 implies !text_before(
            (#[trigger] ordered[i]).name,
            version.name,
        ) by {
            if i > 0 {
                assert(ordered[i] == rest[i - 1]);
            }
        }
        if at < rest.len() {
            assert(ordered[at + 1] == rest[at]);
        }
    }
}

proof fn lemma_place_keeps_order(ordered: Seq<Version>, version: Version)
    requires
        descending(ordered),
    ensures
        descending(place(ordered, version)),
        place(ordered, version).to_multiset() == ordered.to_multiset().insert(version),
{
    lemma_place(ordered, version);
    let at = place_at(ordered, version);
    let next = place(ordered, version);
    assert forall|i: int, j: int| 0 <= i < j < next.len() implies !text_before(
        #[trigger] next[i].name,
        #[trigger] next[j].name,
    ) by {
        if j == at {
            assert(next[i] == ordered[i]);
        } else if i == at {
            assert(next[j] == ordered[j - 1]);
            if text_before(version.name, ordered[j - 1].name) {
                lemma_text_before_transitive(ordered[at].name, version.name, ordered[j - 1].name);
                lemma_text_before_irreflexive(ordered[at].name);
            }
        } else {
            let a = if i < at { i } else { i - 1 };
            let b = if j < at { j } else { j - 1 };
            assert(next[i] == ordered[a]);
            assert(next[j] == ordered[b]);
        }
    }
    vstd::seq_lib::to_multiset_insert(ordered, at, version);
}

/// The ordered list holds the versions of the list it was made from, each
/// as often, and none of them stands before one whose name comes after its
/// own.
pub proof fn lemma_ordered_versions(list: Seq<Version>)
    ensures
        descending(ordered_versions(list)),
        ordered_versions(list).to_multiset() == list.to_multiset(),
    decreases list.len(),
{
    if list.len() == 0 {
        assert(list =~= Seq::<Version>::empty());
    } else {
        lemma_ordered_versions(list.drop_last());
        lemma_place_keeps_order(ordered_versions(list.drop_last()), list.last());
        assert(list.drop_last().push(list.last()) =~= list);
        vstd::seq_lib::to_multiset_build(list.drop_last(), list.last());
        assert(list.to_multiset() =~= list.drop_last().to_multiset().insert(list.last()));
    }
}

/// Orders versions by name, last name first; versions of one name keep
/// their order.
pub fn sort_versions(list: Vec<StorePluginVersion>) -> (r: Vec<StorePluginVersion>)
    ensures
        versions_of(r@) == ordered_versions(versions_of(list@)),
{
    let ghost all = versions_of(list@);
    let mut out: Vec<StorePluginVersion> = Vec::new();
    let mut i: usize = 0;
    proof {
        assert(all.take(0) =~= Seq::<Version>::empty());
        assert(versions_of(out@) =~= Seq::<Version>::empty());
    }
    while i < list.len()
        invariant
            i <= list.len(),
            all == versions_of(list@),
            versions_of(out@) == ordered_versions(all.take(i as int)),
        decreases list.len() - i,
    {
        let version = list[i].clone();
        let ghost before = versions_of(out@);
        proof {
            assert(all.take(i + 1).drop_last() =~= all.take(i as int));
            assert(all.take(i + 1).last() == version@);
            lemma_place(before, version@);
        }
        let mut at: usize = 0;
        while at < out.len() && !comes_before(out[at].name.as_str(), version.name.as_str())
            invariant
                at <= out.len(),
                before == versions_of(out@),
                at <= place_at(before, version@),
                forall|k: int|
                    0 <= k < place_at(before, version@) ==> !text_before(
                        (#[trigger] before[k]).name,
                        version@.name,
                    ),
                place_at(before, version@) < before.len() ==> text_before(
                    before[place_at(before, version@)].name,
                    version@.name,
                ),
            decreases out.len() - at,
        {
            assert(before[at as int].name == out[at as int].name@);
            at += 1;
        }
        proof {
            if at < out.len() {
                assert(before[at as int].name == out[at as int].name@);
            }
            assert(at == place_at(before, version@));
        }
        out.insert(at, version);
        assert(versions_of(out@) =~= before.insert(at as int, version@));
        i += 1;
    }
    assert(all.take(list.len() as int) =~= all);
    out
}

/// What a plugin's description file says.
#[derive(Debug, PartialEq, Eq)]
pub struct PluginMetadata {
    pub id: usize,
    pub author: String,
    pub description: String,
    pub tags: Vec<String>,
}

/// A plugin's description, as mathematics.
pub ghost struct Metadata {
    pub id: usize,
    pub author: Seq<char>,
    pub description: Seq<char>,
    pub tags: Seq<Seq<char>>,
}

impl View for PluginMetadata {
    type V = Metadata;

    open spec fn view(&self) -> Metadata {
        Metadata {
            id: self.id,
            author: self.author@,
            description: self.description@,
            tags: texts_of(self.tags@),
        }
    }
}

impl Clone for PluginMetadata {
    fn clone(&self) -> (r: Self)
        ensures
            r@ == self@,
    {
        PluginMetadata {
            id: self.id,
            author: self.author.clone(),
            description: self.description.clone(),
            tags: crate::store_plugin::clone_texts(&self.tags),
        }
    }
}

impl PluginMetadata {
    /// The catalog entry of the plugin that the description belongs to.
    pub fn complete(self, name: String, versions: Vec<StorePluginVersion>, image: String) -> (r:
        StorePlugin)
        ensures
            r@ == (Plugin {
                id: self@.id,
                name: name@,
                versions: versions_of(versions@),
                author: self@.author,
                description: self@.description,
                tags: self@.tags,
                image_url: image@,
            }),
    {
        StorePlugin {
            id: self.id,
            name: name,
            versions: versions,
            author: self.author,
            description: self.description,
            tags: self.tags,
            image_url: image,
        }
    }
}

/// A regular file of a plugin's folder, read whole.
#[derive(Debug, PartialEq, Eq)]
pub struct FolderFile {
    pub file_name: String,
    pub contents: Vec<u8>,
}

/// A plugin's folder as it was found on disk.
#[derive(Debug, PartialEq, Eq)]
pub struct PluginFolder {
    /// The folder's own name, which is the plugin's name.
    pub name: String,
    pub metadata: PluginMetadata,
    /// The regular files of the folder, in the order of the listing.
    pub files: Vec<FolderFile>,
}

/// A file, as mathematics.
pub ghost struct File {
    pub file_name: Seq<char>,
    pub contents: Seq<u8>,
}

/// A folder, as mathematics.
pub ghost struct Folder {
    pub name: Seq<char>,
    pub metadata: Metadata,
    pub files: Seq<File>,
}

impl View for FolderFile {
    type V = File;

    open spec fn view(&self) -> File {
        File { file_name: self.file_name@, contents: self.contents@ }
    }
}

/// The files of a list, one by one.
pub open spec fn files_of(list: Seq<FolderFile>) -> Seq<File> {
    Seq::new(list.len(), |i: int| list[i]@)
}

impl View for PluginFolder {
    type V = Folder;

    open spec fn view(&self) -> Folder {
        Folder { name: self.name@, metadata: self.metadata@, files: files_of(self.files@) }
    }
}

/// The folders of a list, one by one.
pub open spec fn folders_of(list: Seq<PluginFolder>) -> Seq<Folder> {
    Seq::new(list.len(), |i: int| list[i]@)
}

/// The SHA-256 digest of some bytes, written as 64 hexadecimal digits.
pub uninterp spec fn sha256_hex(data: Seq<u8>) -> Seq<char>;

/// `sha256::digest` on a byte vector: the digest of the bytes in lower-case
/// hexadecimal digits.
#[verifier::external_body]
pub(crate) fn digest(data: &Vec<u8>) -> (r: String)
    ensures
        r@ == sha256_hex(data@),
{
    sha256::digest(data)
}

/// Whether a file name is that of a version's archive: it ends in `.zip`
/// and has something before that.
pub open spec fn is_archive(file_name: Seq<char>) -> bool {
    file_name.len() > 4 && file_name.subrange(file_name.len() - 4, file_name.len() as int)
        == seq!['.', 'z', 'i', 'p']
}

/// The name of the version that an archive holds: the file name without
/// its `.zip`.
pub open spec fn archive_version_name(file_name: Seq<char>) -> Seq<char> {
    file_name.take(file_name.len() - 4)
}

/// The version that a file name stands for, if it is an archive's.
pub fn archive_version(file_name: &str) -> (r: Option<String>)
    ensures
        match r {
            Some(version) => is_archive(file_name@) && version@ == archive_version_name(
                file_name@,
            ),
            None => !is_archive(file_name@),
        },
{
    let n = file_name.unicode_len();
    if n <= 4 {
        return None;
    }
    let ending = file_name.substring_char(n - 4, n);
    proof {
        reveal_strlit(".zip");
        assert(".zip"@ =~= seq!['.', 'z', 'i', 'p']);
    }
    if crate::text::same_text(ending, ".zip") {
        let stem = file_name.substring_char(0, n - 4);
        assert(stem@ =~= archive_version_name(file_name@));
        Some(stem.to_owned())
    } else {
        None
    }
}

/// Where the archive of a version can be had.
pub open spec fn artifact_url(
    domain_root: Seq<char>,
    plugin: Seq<char>,
    version: Seq<char>,
    hash: Seq<char>,
) -> Seq<char> {
    domain_root + "/plugins/"@ + plugin + "/"@ + version + "/"@ + hash + ".zip"@
}

/// Where the image of a plugin can be had.
pub open spec fn image_url(domain_root: Seq<char>, plugin: Seq<char>) -> Seq<char> {
    domain_root + "/plugins/"@ + plugin + ".png"@
}

/// The version that an archive of a plugin's folder holds.
pub open spec fn version_in(domain_root: Seq<char>, plugin: Seq<char>, file: File) -> Version {
    Version {
        name: archive_version_name(file.file_name),
        hash: sha256_hex(file.contents),
        artifact: Some(
            artifact_url(
                domain_root,
                plugin,
                archive_version_name(file.file_name),
                sha256_hex(file.contents),
            ),
        ),
    }
}

/// The versions that the archives among some files hold, in the order of
/// the files.
pub open spec fn archived_versions(domain_root: Seq<char>, plugin: Seq<char>, files: Seq<File>) -> Seq<
    Version,
>
    decreases files.len(),
{
    if files.len() == 0 {
        Seq::empty()
    } else {
        let earlier = archived_versions(domain_root, plugin, files.drop_last());
        if is_archive(files.last().file_name) {
            earlier.push(version_in(domain_root, plugin, files.last()))
        } else {
            earlier
        }
    }
}

/// The catalog entry that a folder stands for.
pub open spec fn plugin_in(domain_root: Seq<char>, folder: Folder) -> Plugin {
    Plugin {
        id: folder.metadata.id,
        name: folder.name,
        versions: ordered_versions(archived_versions(domain_root, folder.name, folder.files)),
        author: folder.metadata.author,
        description: folder.metadata.description,
        tags: folder.metadata.tags,
        image_url: image_url(domain_root, folder.name),
    }
}

/// The catalog that a list of folders stands for.
pub open spec fn plugins_in(domain_root: Seq<char>, folders: Seq<Folder>) -> Seq<Plugin> {
    Seq::new(folders.len(), |i: int| plugin_in(domain_root, folders[i]))
}

/// Starts a count at zero for each digest that has none yet.
pub open spec fn register_versions(counters: Map<Seq<char>, u64>, versions: Seq<Version>) -> Map<
    Seq<char>,
    u64,
>
    decreases versions.len(),
{
    if versions.len() == 0 {
        counters
    } else {
        let earlier = register_versions(counters, versions.drop_last());
        if earlier.contains_key(versions.last().hash) {
            earlier
        } else {
            earlier.insert(versions.last().hash, 0)
        }
    }
}

/// Starts a count at zero for each digest of the catalog that has none yet.
pub open spec fn register_plugins(counters: Map<Seq<char>, u64>, plugins: Seq<Plugin>) -> Map<
    Seq<char>,
    u64,
>
    decreases plugins.len(),
{
    if plugins.len() == 0 {
        counters
    } else {
        register_versions(register_plugins(counters, plugins.drop_last()), plugins.last().versions)
    }
}

/// Whether a catalog lists a version with that digest.
pub open spec fn lists_hash(plugins: Seq<Plugin>, hash: Seq<char>) -> bool {
    exists|i: int, j: int|
        0 <= i < plugins.len() && 0 <= j < plugins[i].versions.len() && (
        #[trigger] plugins[i].versions[j]).hash == hash
}

proof fn lemma_register_versions(counters: Map<Seq<char>, u64>, versions: Seq<Version>, hash: Seq<char>)
    ensures
        ({
            let next = register_versions(counters, versions);
            let listed = exists|j: int| 0 <= j < versions.len() && (#[trigger] versions[j]).hash == hash;
            &&& next.contains_key(hash) <==> counters.contains_key(hash) || listed
            &&& counters.contains_key(hash) ==> next[hash] == counters[hash]
            &&& !counters.contains_key(hash) && listed ==> next[hash] == 0
        }),
    decreases versions.len(),
{
    if versions.len() > 0 {
        let earlier = versions.drop_last();
        lemma_register_versions(counters, earlier, hash);
        if exists|j: int| 0 <= j < earlier.len() && (#[trigger] earlier[j]).hash == hash {
            let j = choose|j: int| 0 <= j < earlier.len() && (#[trigger] earlier[j]).hash == hash;
            assert(versions[j].hash == hash);
        }
        if versions.last().hash == hash {
            assert(versions[versions.len() - 1].hash == hash);
        }
        if exists|j: int| 0 <= j < versions.len() && (#[trigger] versions[j]).hash == hash {
            let j = choose|j: int| 0 <= j < versions.len() && (#[trigger] versions[j]).hash == hash;
            if j < earlier.len() {
                assert(earlier[j].hash == hash);
            }
        }
    }
}

/// What a listing does to the counters: every counter that was there
/// keeps its count, and every digest of the catalog that had no counter
/// has one that stands at zero. No other counter appears.
pub proof fn lemma_register_plugins(counters: Map<Seq<char>, u64>, plugins: Seq<Plugin>, hash: Seq<char>)
    ensures
        register_plugins(counters, plugins).contains_key(hash) <==> counters.contains_key(hash)
            || lists_hash(plugins, hash),
        counters.contains_key(hash) ==> register_plugins(counters, plugins)[hash]
            == counters[hash],
        !counters.contains_key(hash) && lists_hash(plugins, hash) ==> register_plugins(
            counters,
            plugins,
        )[hash] == 0,
    decreases plugins.len(),
{
    if plugins.len() > 0 {
        let earlier = plugins.drop_last();
        let last = plugins.last();
        lemma_register_plugins(counters, earlier, hash);
        lemma_register_versions(register_plugins(counters, earlier), last.versions, hash);
        if lists_hash(earlier, hash) {
            let (i, j) = choose|i: int, j: int|
                0 <= i < earlier.len() && 0 <= j < earlier[i].versions.len() && (
                #[trigger] earlier[i].versions[j]).hash == hash;
            assert(plugins[i].versions[j].hash == hash);
        }
        if exists|j: int| 0 <= j < last.versions.len() && (#[trigger] last.versions[j]).hash == hash {
            let j = choose|j: int|
                0 <= j < last.versions.len() && (#[trigger] last.versions[j]).hash == hash;
            assert(plugins[plugins.len() - 1].versions[j].hash == hash);
        }
        if lists_hash(plugins, hash) {
            let (i, j) = choose|i: int, j: int|
                0 <= i < plugins.len() && 0 <= j < plugins[i].versions.len() && (
                #[trigger] plugins[i].versions[j]).hash == hash;
            if i < earlier.len() {
                assert(earlier[i].versions[j].hash == hash);
            } else {
                assert(last.versions[j].hash == hash);
            }
        }
    }
}

/// The label of a version in the usage counts.
pub open spec fn version_label(plugin: Seq<char>, version: Seq<char>) -> Seq<char> {
    plugin + " "@ + version
}

/// The usage counts and the running total of a plugin after its first
/// versions: each version that has a counter is reported under its label
/// and added to the total.
pub open spec fn report_versions(
    counters: Map<Seq<char>, u64>,
    report: Map<Seq<char>, u64>,
    plugin: Seq<char>,
    versions: Seq<Version>,
) -> (Map<Seq<char>, u64>, u64)
    decreases versions.len(),
{
    if versions.len() == 0 {
        (report, 0)
    } else {
        let (earlier, total) = report_versions(counters, report, plugin, versions.drop_last());
        let last = versions.last();
        if counters.contains_key(last.hash) {
            (
                earlier.insert(version_label(plugin, last.name), counters[last.hash]),
                crate::merge::capped_sum(total, counters[last.hash]),
            )
        } else {
            (earlier, total)
        }
    }
}

/// The usage counts of a catalog: each version under its label, and each
/// plugin under its name with the total of its versions.
pub open spec fn report_plugins(
    counters: Map<Seq<char>, u64>,
    report: Map<Seq<char>, u64>,
    plugins: Seq<Plugin>,
) -> Map<Seq<char>, u64>
    decreases plugins.len(),
{
    if plugins.len() == 0 {
        report
    } else {
        let earlier = report_plugins(counters, report, plugins.drop_last());
        let last = plugins.last();
        let (listed, total) = report_versions(counters, earlier, last.name, last.versions);
        listed.insert(last.name, total)
    }
}

/// The count after one more hit. A full counter starts over.
pub open spec fn bumped(count: u64) -> u64 {
    if count == u64::MAX {
        0
    } else {
        (count + 1) as u64
    }
}

/// The counters after a hit on a digest: only a digest that has a counter
/// is counted.
pub open spec fn record_hit(counters: Map<Seq<char>, u64>, hash: Seq<char>) -> Map<Seq<char>, u64> {
    if counters.contains_key(hash) {
        counters.insert(hash, bumped(counters[hash]))
    } else {
        counters
    }
}

/// A store in a directory.
pub struct FileStorage {
    stats: Option<TextMap<u64>>,
    root: String,
    domain_root: String,
}

impl FileStorage {
    /// The directory that holds the store.
    pub closed spec fn root(self) -> Seq<char> {
        self.root@
    }

    /// The address under which the store is served.
    pub closed spec fn domain_root(self) -> Seq<char> {
        self.domain_root@
    }

    /// The hit counters by digest, if hits are counted.
    pub closed spec fn counters(self) -> Option<Map<Seq<char>, u64>> {
        match self.stats {
            Some(held) => Some(held@),
            None => None,
        }
    }

    /// A store in the directory `root`, served under `domain_root`. With
    /// `enable_stats` hits are counted, from nothing.
    pub fn new(root: String, domain_root: String, enable_stats: bool) -> (r: Self)
        ensures
            r.root() == root@,
            r.domain_root() == domain_root@,
            r.counters() == if enable_stats {
                Some(Map::<Seq<char>, u64>::empty())
            } else {
                None
            },
    {
        FileStorage {
            root: root,
            domain_root: domain_root,
            stats: if enable_stats {
                Some(KeyedMap::new())
            } else {
                None
            },
        }
    }

    /// The folder that holds the plugins' folders, as the parts of its
    /// path.
    pub fn plugins_path(&self) -> (r: Vec<String>)
        ensures
            texts_of(r@) == seq![self.root(), "plugins"@],
    {
        let mut path: Vec<String> = Vec::new();
        path.push(self.root.clone());
        path.push("plugins".to_owned());
        assert(texts_of(path@) =~= seq![self.root(), "plugins"@]);
        path
    }

    /// The description file of the plugin whose folder is `plugin_root`.
    pub fn plugin_json_path(&self, plugin_root: &Vec<String>) -> (r: Vec<String>)
        ensures
            texts_of(r@) == texts_of(plugin_root@).push("plugin.json"@),
    {
        let mut path = crate::store_plugin::clone_texts(plugin_root);
        path.push("plugin.json".to_owned());
        assert(texts_of(path@) =~= texts_of(plugin_root@).push("plugin.json"@));
        path
    }

    /// The folder of a plugin.
    pub fn plugin_root_path(&self, plugin_name: &str) -> (r: Vec<String>)
        ensures
            texts_of(r@) == seq![self.root(), "plugins"@, plugin_name@],
    {
        let mut path = self.plugins_path();
        let ghost folder = texts_of(path@);
        path.push(plugin_name.to_owned());
        assert(texts_of(path@) =~= folder.push(plugin_name@));
        assert(texts_of(path@) =~= seq![self.root(), "plugins"@, plugin_name@]);
        path
    }

    /// The archive of a version of a plugin. The digest plays no part in
    /// the path.
    pub fn plugin_artifact_path(&self, plugin_name: &str, version_name: &str, _hash: &str) -> (r:
        Vec<String>)
        ensures
            texts_of(r@) == seq![
                self.root(),
                "plugins"@,
                plugin_name@,
                version_name@ + ".zip"@,
            ],
    {
        let mut path = self.plugin_root_path(plugin_name);
        let ghost folder = texts_of(path@);
        let mut file = version_name.to_owned();
        file.append(".zip");
        path.push(file);
        assert(texts_of(path@) =~= folder.push(version_name@ + ".zip"@));
        assert(texts_of(path@) =~= seq![
            self.root(),
            "plugins"@,
            plugin_name@,
            version_name@ + ".zip"@,
        ]);
        path
    }

    /// The image of a plugin.
    pub fn plugin_image_path(&self, plugin_name: &str) -> (r: Vec<String>)
        ensures
            texts_of(r@) == seq![self.root(), "plugins"@, plugin_name@, "image.png"@],
    {
        let mut path = self.plugin_root_path(plugin_name);
        let ghost folder = texts_of(path@);
        path.push("image.png".to_owned());
        assert(texts_of(path@) =~= folder.push("image.png"@));
        assert(texts_of(path@) =~= seq![self.root(), "plugins"@, plugin_name@, "image.png"@]);
        path
    }

    /// The catalog entry of the plugin in a folder: one version for each
    /// archive among the folder's files, with the digest of the archive and
    /// the address it is served under, the versions ordered by name from
    /// the last to the first.
    pub fn read_single_plugin(&self, folder: &PluginFolder) -> (r: StorePlugin)
        ensures
            r@ == plugin_in(self.domain_root(), folder@),
    {
        let name = folder.name.clone();
        let metadata = folder.metadata.clone();
        let files = &folder.files;
        let ghost all = files_of(files@);
        let mut versions: Vec<StorePluginVersion> = Vec::new();
        proof {
            assert(all.take(0) =~= Seq::<File>::empty());
            assert(versions_of(versions@) =~= Seq::<Version>::empty());
        }
        let mut i: usize = 0;
        while i < files.len()
            invariant
                i <= files.len(),
                all == files_of(files@),
                versions_of(versions@) == archived_versions(
                    self.domain_root@,
                    name@,
                    all.take(i as int),
                ),
            decreases files.len() - i,
        {
            let file = &files[i];
            let ghost before = versions_of(versions@);
            proof {
                assert(all.take(i + 1).drop_last() =~= all.take(i as int));
                assert(all.take(i + 1).last() == file@);
            }
            match archive_version(file.file_name.as_str()) {
                Some(version_name) => {
                    let hash = digest(&file.contents);
                    let mut url = self.domain_root.clone();
                    url.append("/plugins/");
                    url.append(name.as_str());
                    url.append("/");
                    url.append(version_name.as_str());
                    url.append("/");
                    url.append(hash.as_str());
                    url.append(".zip");
                    versions.push(
                        StorePluginVersion { name: version_name, hash: hash, artifact: Some(url) },
                    );
                    assert(versions_of(versions@) =~= before.push(
                        version_in(self.domain_root@, name@, file@),
                    ));
                },
                None => {},
            }
            i += 1;
        }
        assert(all.take(files.len() as int) =~= all);
        let versions = sort_versions(versions);
        let mut image = self.domain_root.clone();
        image.append("/plugins/");
        image.append(name.as_str());
        image.append(".png");
        metadata.complete(name, versions, image)
    }

    /// Starts a counter for each digest of the catalog that has none, if
    /// hits are counted.
    fn register(&mut self, plugins: &Vec<StorePlugin>)
        ensures
            final(self).root() == old(self).root(),
            final(self).domain_root() == old(self).domain_root(),
            final(self).counters() == match old(self).counters() {
                Some(held) => Some(register_plugins(held, plugins_of(plugins@))),
                None => None,
            },
    {
        let mut stats = match self.stats.take() {
            Some(stats) => stats,
            None => { return ; },
        };
        let ghost start = stats@;
        let ghost all = plugins_of(plugins@);
        assert(all.take(0) =~= Seq::<Plugin>::empty());
        let mut i: usize = 0;
        while i < plugins.len()
            invariant
                i <= plugins.len(),
                all == plugins_of(plugins@),
                stats@ == register_plugins(start, all.take(i as int)),
            decreases plugins.len() - i,
        {
            let plugin = &plugins[i];
            let ghost before = stats@;
            let ghost versions = plugin@.versions;
            assert(versions.take(0) =~= Seq::<Version>::empty());
            let mut j: usize = 0;
            while j < plugin.versions.len()
                invariant
                    j <= plugin.versions.len(),
                    versions == plugin@.versions,
                    versions.len() == plugin.versions.len(),
                    stats@ == register_versions(before, versions.take(j as int)),
                decreases plugin.versions.len() - j,
            {
                let version = &plugin.versions[j];
                proof {
                    assert(versions.take(j + 1).drop_last() =~= versions.take(j as int));
                    assert(versions.take(j + 1).last() == version@);
                }
                if stats.get(&version.hash).is_none() {
                    stats.insert(version.hash.clone(), 0);
                }
                j += 1;
            }
            proof {
                assert(versions.take(plugin.versions.len() as int) =~= versions);
                assert(all.take(i + 1).drop_last() =~= all.take(i as int));
                assert(all.take(i + 1).last() == plugin@);
            }
            i += 1;
        }
        assert(all.take(plugins.len() as int) =~= all);
        self.stats = Some(stats);
    }

    /// The catalog that the folders of a scan stand for, one plugin for
    /// each folder in the order of the scan. A scan that failed is passed
    /// on as the failure it was. Where hits are counted, every digest of
    /// the catalog gets a counter.
    pub fn read_all_plugins(&mut self, scan: Result<Vec<PluginFolder>, StorageError>) -> (r: Result<
        StorePluginList,
        StorageError,
    >)
        ensures
            final(self).root() == old(self).root(),
            final(self).domain_root() == old(self).domain_root(),
            match scan {
                Ok(folders) => r matches Ok(list) && plugins_of(list@) == plugins_in(
                    old(self).domain_root(),
                    folders_of(folders@),
                ) && final(self).counters() == match old(self).counters() {
                    Some(held) => Some(register_plugins(held, plugins_of(list@))),
                    None => None,
                },
                Err(e) => r == Err::<StorePluginList, StorageError>(e) && final(self).counters()
                    == old(self).counters(),
            },
    {
        let folders = match scan {
            Ok(folders) => folders,
            Err(e) => { return Err(e); },
        };
        let ghost all = folders_of(folders@);
        let mut results: Vec<StorePlugin> = Vec::new();
        let mut i: usize = 0;
        while i < folders.len()
            invariant
                i <= folders.len(),
                all == folders_of(folders@),
                *self == *old(self),
                results.len() == i,
                forall|k: int|
                    0 <= k < i ==> (#[trigger] results[k])@ == plugin_in(self.domain_root@, all[k]),
            decreases folders.len() - i,
        {
            let plugin = self.read_single_plugin(&folders[i]);
            results.push(plugin);
            i += 1;
        }
        assert(plugins_of(results@) =~= plugins_in(self.domain_root@, all));
        self.register(&results);
        Ok(results)
    }

    /// The catalog of the store: what [`FileStorage::read_all_plugins`]
    /// makes of the scan, and nothing where the scan failed.
    pub fn plugins(&mut self, scan: Result<Vec<PluginFolder>, StorageError>) -> (r: StorePluginList)
        ensures
            final(self).root() == old(self).root(),
            final(self).domain_root() == old(self).domain_root(),
            match scan {
                Ok(folders) => plugins_of(r@) == plugins_in(
                    old(self).domain_root(),
                    folders_of(folders@),
                ) && final(self).counters() == match old(self).counters() {
                    Some(held) => Some(register_plugins(held, plugins_of(r@))),
                    None => None,
                },
                Err(_) => r@.len() == 0 && final(self).counters() == old(self).counters(),
            },
    {
        match self.read_all_plugins(scan) {
            Ok(list) => list,
            Err(_) => Vec::new(),
        }
    }

    /// Hands out an archive that was read from disk and counts the hit
    /// under the digest that was asked for. An archive that could not be
    /// read is not counted.
    pub fn get_artifact(&mut self, hash: &str, read: Result<Vec<u8>, StorageError>) -> (r: Result<
        Bytes,
        StorageError,
    >)
        ensures
            final(self).root() == old(self).root(),
            final(self).domain_root() == old(self).domain_root(),
            match read {
                Ok(buffer) => r matches Ok(blob) && contents(blob) == buffer@ && final(self).counters() == match old(self).counters() {
                    Some(held) => Some(record_hit(held, hash@)),
                    None => None,
                },
                Err(e) => r == Err::<Bytes, StorageError>(e) && final(self).counters() == old(self).counters(),
            },
    {
        let buffer = match read {
            Ok(buffer) => buffer,
            Err(e) => { return Err(e); },
        };
        match self.stats.take() {
            Some(mut stats) => {
                let key = hash.to_owned();
                let found = match stats.get(&key) {
                    Some(count) => Some(*count),
                    None => None,
                };
                match found {
                    Some(count) => {
                        let next = if count == u64::MAX {
                            0
                        } else {
                            count + 1
                        };
                        stats.insert(key, next);
                    },
                    None => {},
                }
                self.stats = Some(stats);
            },
            None => {},
        }
        Ok(blob_from(buffer))
    }

    /// Hands out an image that was read from disk.
    pub fn get_image(&self, read: Result<Vec<u8>, StorageError>) -> (r: Result<Bytes, StorageError>)
        ensures
            match read {
                Ok(buffer) => r matches Ok(blob) && contents(blob) == buffer@,
                Err(e) => r == Err::<Bytes, StorageError>(e),
            },
    {
        match read {
            Ok(buffer) => Ok(blob_from(buffer)),
            Err(e) => Err(e),
        }
    }

    /// The usage counts of the store, for the catalog that the scan stands
    /// for: each version that has a counter under the plugin's name, a
    /// space and the version's name, and each plugin under its name with
    /// the total of its versions. Where hits are not counted, or the scan
    /// failed, there are no counts.
    pub fn get_statistics(&mut self, scan: Result<Vec<PluginFolder>, StorageError>) -> (r: Statistics)
        ensures
            final(self).root() == old(self).root(),
            final(self).domain_root() == old(self).domain_root(),
            match (old(self).counters(), scan) {
                (Some(held), Ok(folders)) => {
                    let plugins = plugins_in(old(self).domain_root(), folders_of(folders@));
                    let counters = register_plugins(held, plugins);
                    &&& final(self).counters() == Some(counters)
                    &&& r@ == report_plugins(counters, Map::empty(), plugins)
                },
                _ => r@ == Map::<Seq<char>, u64>::empty() && final(self).counters() == old(self).counters(),
            },
    {
        if self.stats.is_none() {
            return KeyedMap::new();
        }
        let plugins = match self.read_all_plugins(scan) {
            Ok(plugins) => plugins,
            Err(_) => { return KeyedMap::new(); },
        };
        let mut report: Statistics = KeyedMap::new();
        let stats = match &self.stats {
            Some(stats) => stats,
            None => { return report; },
        };
        let ghost counters = stats@;
        let ghost all = plugins_of(plugins@);
        assert(all.take(0) =~= Seq::<Plugin>::empty());
        let mut i: usize = 0;
        while i < plugins.len()
            invariant
                i <= plugins.len(),
                all == plugins_of(plugins@),
                counters == stats@,
                report@ == report_plugins(counters, Map::empty(), all.take(i as int)),
            decreases plugins.len() - i,
        {
            let plugin = &plugins[i];
            let ghost before = report@;
            let ghost versions = plugin@.versions;
            assert(versions.take(0) =~= Seq::<Version>::empty());
            let mut total: u64 = 0;
            let mut j: usize = 0;
            while j < plugin.versions.len()
                invariant
                    j <= plugin.versions.len(),
                    versions == plugin@.versions,
                    versions.len() == plugin.versions.len(),
                    counters == stats@,
                    (report@, total) == report_versions(
                        counters,
                        before,
                        plugin@.name,
                        versions.take(j as int),
                    ),
                decreases plugin.versions.len() - j,
            {
                let version = &plugin.versions[j];
                proof {
                    assert(versions.take(j + 1).drop_last() =~= versions.take(j as int));
                    assert(versions.take(j + 1).last() == version@);
                }
                match stats.get(&version.hash) {
                    Some(count) => {
                        let count = *count;
                        total = total.saturating_add(count);
                        let mut label = plugin.name.clone();
                        label.append(" ");
                        label.append(version.name.as_str());
                        report.insert(label, count);
                    },
                    None => {},
                }
                j += 1;
            }
            proof {
                assert(versions.take(plugin.versions.len() as int) =~= versions);
                assert(all.take(i + 1).drop_last() =~= all.take(i as int));
                assert(all.take(i + 1).last() == plugin@);
            }
            report.insert(plugin.name.clone(), total);
            i += 1;
        }
        assert(all.take(plugins.len() as int) =~= all);
        report
    }
}

} // verus!
