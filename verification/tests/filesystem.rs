use bytes::Bytes;
use plugin_store::filesystem::{
    archive_version, comes_before, sort_versions, FileStorage, FolderFile, PluginFolder,
    PluginMetadata,
};
use plugin_store::interface::{Statistics, StorageError};
use plugin_store::store_plugin::{StorePlugin, StorePluginVersion};

const HELLO: &str = "2cf24dba5fb0a30e26e83b2ac5b9e29e1b161e5c1fa7425e73043362938b9824";
const EMPTY: &str = "e3b0c44298fc1c149afbf4c8996fb92427ae41e4649b934ca495991b7852b855";

fn metadata(id: usize) -> PluginMetadata {
    PluginMetadata {
        id,
        author: "someone".to_owned(),
        description: "does things".to_owned(),
        tags: vec!["tool".to_owned(), "demo".to_owned()],
    }
}

fn file(name: &str, contents: &[u8]) -> FolderFile {
    FolderFile { file_name: name.to_owned(), contents: contents.to_vec() }
}

fn folder(name: &str, id: usize, files: Vec<FolderFile>) -> PluginFolder {
    PluginFolder { name: name.to_owned(), metadata: metadata(id), files }
}

fn version(name: &str) -> StorePluginVersion {
    StorePluginVersion { name: name.to_owned(), hash: String::new(), artifact: None }
}

fn names(versions: &[StorePluginVersion]) -> Vec<&str> {
    versions.iter().map(|v| v.name.as_str()).collect()
}

fn count_of(stats: &Statistics, label: &str) -> Option<u64> {
    stats.get(&label.to_owned()).copied()
}

fn store(stats: bool) -> FileStorage {
    FileStorage::new("/srv/store".to_owned(), "http://host:1".to_owned(), stats)
}

#[test]
fn paths_follow_the_layout() {
    let fs = store(false);
    assert_eq!(fs.plugins_path(), vec!["/srv/store", "plugins"]);
    assert_eq!(fs.plugin_root_path("P"), vec!["/srv/store", "plugins", "P"]);
    assert_eq!(
        fs.plugin_json_path(&fs.plugin_root_path("P")),
        vec!["/srv/store", "plugins", "P", "plugin.json"]
    );
    assert_eq!(
        fs.plugin_artifact_path("P", "1.0", "ignored"),
        vec!["/srv/store", "plugins", "P", "1.0.zip"]
    );
    assert_eq!(fs.plugin_image_path("P"), vec!["/srv/store", "plugins", "P", "image.png"]);
}

#[test]
fn archives_are_the_zip_files() {
    assert_eq!(archive_version("1.0.zip"), Some("1.0".to_owned()));
    assert_eq!(archive_version("a.zip"), Some("a".to_owned()));
    assert_eq!(archive_version("..zip"), Some(".".to_owned()));
    assert_eq!(archive_version("ü.zip"), Some("ü".to_owned()));
    assert_eq!(archive_version(".zip"), None);
    assert_eq!(archive_version("zip"), None);
    assert_eq!(archive_version(""), None);
    assert_eq!(archive_version("plugin.json"), None);
    assert_eq!(archive_version("a.ZIP"), None);
    assert_eq!(archive_version("a.zip.bak"), None);
}

#[test]
fn texts_compare_character_by_character() {
    assert!(comes_before("v1", "v2"));
    assert!(comes_before("v10", "v2"));
    assert!(comes_before("v1", "v10"));
    assert!(comes_before("", "a"));
    assert!(!comes_before("a", ""));
    assert!(!comes_before("a", "a"));
    assert!(!comes_before("b", "a"));
    assert!(comes_before("z", "é"));
    assert!(!comes_before("", ""));
}

#[test]
fn versions_are_ordered_from_last_to_first_name() {
    let sorted = sort_versions(vec![version("v1"), version("v10"), version("v2")]);
    assert_eq!(names(&sorted), vec!["v2", "v10", "v1"]);
    let sorted = sort_versions(vec![]);
    assert_eq!(sorted.len(), 0);
}

#[test]
fn versions_of_one_name_keep_their_order() {
    let mut first = version("a");
    first.hash = "1".to_owned();
    let mut second = version("a");
    second.hash = "2".to_owned();
    let sorted = sort_versions(vec![first, version("b"), second]);
    assert_eq!(names(&sorted), vec!["b", "a", "a"]);
    assert_eq!(sorted[1].hash, "1");
    assert_eq!(sorted[2].hash, "2");
}

#[test]
fn a_folder_becomes_a_catalog_entry() {
    let fs = store(false);
    let plugin = fs.read_single_plugin(&folder(
        "P",
        42,
        vec![
            file("plugin.json", b"{}"),
            file("1.0.zip", b"hello"),
            file("image.png", b"png"),
            file("2.0.zip", b""),
        ],
    ));
    assert_eq!(
        plugin,
        StorePlugin {
            id: 42,
            name: "P".to_owned(),
            versions: vec![
                StorePluginVersion {
                    name: "2.0".to_owned(),
                    hash: EMPTY.to_owned(),
                    artifact: Some(format!("http://host:1/plugins/P/2.0/{}.zip", EMPTY)),
                },
                StorePluginVersion {
                    name: "1.0".to_owned(),
                    hash: HELLO.to_owned(),
                    artifact: Some(format!("http://host:1/plugins/P/1.0/{}.zip", HELLO)),
                },
            ],
            author: "someone".to_owned(),
            description: "does things".to_owned(),
            tags: vec!["tool".to_owned(), "demo".to_owned()],
            image_url: "http://host:1/plugins/P.png".to_owned(),
        }
    );
}

#[test]
fn complete_fills_in_the_entry() {
    let plugin = metadata(3).complete("N".to_owned(), vec![version("1")], "img".to_owned());
    assert_eq!(plugin.id, 3);
    assert_eq!(plugin.name, "N");
    assert_eq!(plugin.versions, vec![version("1")]);
    assert_eq!(plugin.author, "someone");
    assert_eq!(plugin.description, "does things");
    assert_eq!(plugin.tags, vec!["tool".to_owned(), "demo".to_owned()]);
    assert_eq!(plugin.image_url, "img");
}

#[test]
fn a_scan_becomes_a_catalog_in_scan_order() {
    let mut fs = store(false);
    let scan = Ok(vec![
        folder("B", 1, vec![file("1.zip", b"hello")]),
        folder("A", 2, vec![]),
    ]);
    let catalog = fs.read_all_plugins(scan).expect("the scan did not fail");
    assert_eq!(catalog.len(), 2);
    assert_eq!(catalog[0].name, "B");
    assert_eq!(catalog[1].name, "A");
    assert_eq!(catalog[1].versions.len(), 0);
}

#[test]
fn a_failed_scan_is_an_empty_catalog() {
    let mut fs = store(true);
    assert_eq!(fs.read_all_plugins(Err(StorageError::IoFailure)), Err(StorageError::IoFailure));
    assert_eq!(
        fs.read_all_plugins(Err(StorageError::DecodeFailure)),
        Err(StorageError::DecodeFailure)
    );
    assert_eq!(fs.plugins(Err(StorageError::DecodeFailure)).len(), 0);
    assert_eq!(fs.plugins(Ok(vec![folder("A", 1, vec![])])).len(), 1);
}

#[test]
fn fetched_files_are_handed_out_unchanged() {
    let mut fs = store(false);
    assert_eq!(fs.get_artifact("h", Ok(vec![1, 2, 3])), Ok(Bytes::from(vec![1u8, 2, 3])));
    assert_eq!(fs.get_artifact("h", Err(StorageError::NotFound)), Err(StorageError::NotFound));
    assert_eq!(fs.get_image(Ok(vec![7])), Ok(Bytes::from(vec![7u8])));
    assert_eq!(fs.get_image(Err(StorageError::IoFailure)), Err(StorageError::IoFailure));
}

#[test]
fn hits_are_counted_per_version_and_summed_per_plugin() {
    let mut fs = store(true);
    let scan = || {
        Ok(vec![
            folder("P", 1, vec![file("1.zip", b"hello"), file("2.zip", b"")]),
            folder("Q", 2, vec![file("1.zip", b"q")]),
        ])
    };
    fs.plugins(scan());
    fs.get_artifact(HELLO, Ok(vec![0])).expect("read");
    fs.get_artifact(HELLO, Ok(vec![0])).expect("read");
    fs.get_artifact(EMPTY, Ok(vec![0])).expect("read");
    fs.get_artifact(HELLO, Err(StorageError::NotFound)).expect_err("not read");
    fs.get_artifact("unknown", Ok(vec![0])).expect("read");
    let stats = fs.get_statistics(scan());
    assert_eq!(stats.len(), 5);
    assert_eq!(count_of(&stats, "P 1"), Some(2));
    assert_eq!(count_of(&stats, "P 2"), Some(1));
    assert_eq!(count_of(&stats, "P"), Some(3));
    assert_eq!(count_of(&stats, "Q 1"), Some(0));
    assert_eq!(count_of(&stats, "Q"), Some(0));
    assert_eq!(count_of(&stats, "unknown"), None);
}

#[test]
fn hits_before_the_first_listing_are_not_counted() {
    let mut fs = store(true);
    fs.get_artifact(HELLO, Ok(vec![0])).expect("read");
    let stats = fs.get_statistics(Ok(vec![folder("P", 1, vec![file("1.zip", b"hello")])]));
    assert_eq!(count_of(&stats, "P 1"), Some(0));
    assert_eq!(count_of(&stats, "P"), Some(0));
}

#[test]
fn no_statistics_without_counting_or_without_a_scan() {
    let mut fs = store(false);
    let scan = || Ok(vec![folder("P", 1, vec![file("1.zip", b"hello")])]);
    fs.plugins(scan());
    fs.get_artifact(HELLO, Ok(vec![0])).expect("read");
    assert_eq!(fs.get_statistics(scan()).len(), 0);
    let mut fs = store(true);
    fs.plugins(scan());
    assert_eq!(fs.get_statistics(Err(StorageError::IoFailure)).len(), 0);
}
