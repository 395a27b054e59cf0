use bytes::Bytes;
use plugin_store::interface::{EmptyStorage, IStorage, StorageError};
use plugin_store::keyed_map::KeyedMap;
use plugin_store::interface::Statistics;
use plugin_store::proxy::{combine, default_artifact_url, fill_artifact_urls, ProxiedStorage};
use plugin_store::store_plugin::{StorePlugin, StorePluginList, StorePluginVersion};

fn version(name: &str, hash: &str, artifact: Option<&str>) -> StorePluginVersion {
    StorePluginVersion {
        name: name.to_owned(),
        hash: hash.to_owned(),
        artifact: artifact.map(|a| a.to_owned()),
    }
}

fn plugin(id: usize, name: &str, versions: Vec<StorePluginVersion>) -> StorePlugin {
    StorePlugin {
        id,
        name: name.to_owned(),
        versions,
        author: "a".to_owned(),
        description: "d".to_owned(),
        tags: vec!["t".to_owned()],
        image_url: "i".to_owned(),
    }
}

struct Local;

impl IStorage for Local {
    fn plugins(&mut self) -> StorePluginList {
        vec![plugin(9, "P", vec![version("local", "l1", None)])]
    }

    fn get_artifact(&mut self, _name: &str, _version: &str, _hash: &str) -> Result<Bytes, StorageError> {
        Ok(Bytes::from(vec![1u8]))
    }

    fn get_image(&mut self, _name: &str) -> Result<Bytes, StorageError> {
        Ok(Bytes::from(vec![2u8]))
    }

    fn get_statistics(&mut self) -> Statistics {
        let mut stats: Statistics = KeyedMap::new();
        stats.insert("P".to_owned(), 3);
        stats
    }
}

#[test]
fn the_listing_address_is_under_the_store() {
    let proxy = ProxiedStorage::new("https://remote.example".to_owned(), EmptyStorage);
    assert_eq!(proxy.plugins_url(), "https://remote.example/plugins");
}

#[test]
fn the_default_address_holds_the_digest() {
    let url = default_artifact_url(&version("1", "abc123", None));
    assert_eq!(
        url,
        "https://cdn.tzatzikiweeb.moe/file/steam-deck-homebrew/versions/abc123.zip"
    );
    assert!(url.contains("abc123"));
}

#[test]
fn missing_addresses_are_filled_in() {
    let remote = vec![plugin(
        1,
        "P",
        vec![version("1", "h1", None), version("2", "h2", Some("http://own/2.zip"))],
    )];
    let filled = fill_artifact_urls(&remote);
    assert_eq!(
        filled,
        vec![plugin(
            1,
            "P",
            vec![
                version(
                    "1",
                    "h1",
                    Some("https://cdn.tzatzikiweeb.moe/file/steam-deck-homebrew/versions/h1.zip")
                ),
                version("2", "h2", Some("http://own/2.zip")),
            ],
        )]
    );
}

#[test]
fn proxied_entries_precede_fallback_entries_and_stay_apart() {
    let mut proxy = ProxiedStorage::new("https://remote.example".to_owned(), Local);
    let remote = vec![plugin(1, "P", vec![version("1", "h1", None)]), plugin(2, "Q", vec![])];
    let catalog = proxy.plugins(Ok(remote));
    assert_eq!(catalog.len(), 3);
    assert_eq!(catalog[0].name, "P");
    assert_eq!(catalog[0].id, 1);
    assert_eq!(
        catalog[0].versions[0].artifact,
        Some("https://cdn.tzatzikiweeb.moe/file/steam-deck-homebrew/versions/h1.zip".to_owned())
    );
    assert_eq!(catalog[1].name, "Q");
    assert_eq!(catalog[2].name, "P");
    assert_eq!(catalog[2].id, 9);
    assert_eq!(catalog[2].versions, vec![version("local", "l1", None)]);
}

#[test]
fn a_failed_fetch_is_an_empty_remote_catalog() {
    let mut proxy = ProxiedStorage::new("https://remote.example".to_owned(), Local);
    assert_eq!(proxy.proxy_plugins(Err(StorageError::IoFailure)).len(), 0);
    assert_eq!(proxy.proxy_plugins(Err(StorageError::DecodeFailure)).len(), 0);
    assert_eq!(proxy.proxy_plugins(Ok(vec![plugin(1, "P", vec![])])).len(), 1);
    let catalog = proxy.plugins(Err(StorageError::IoFailure));
    assert_eq!(catalog.len(), 1);
    assert_eq!(catalog[0].id, 9);
}

#[test]
fn combine_keeps_both_sides_whole() {
    let remote = vec![plugin(1, "P", vec![])];
    let local = vec![plugin(2, "P", vec![]), plugin(3, "R", vec![])];
    let all = combine(&remote, local);
    let ids: Vec<usize> = all.iter().map(|p| p.id).collect();
    assert_eq!(ids, vec![1, 2, 3]);
}

#[test]
fn fetches_and_counts_come_from_the_fallback() {
    let mut proxy = ProxiedStorage::new("https://remote.example".to_owned(), Local);
    assert_eq!(proxy.get_artifact("P", "1", "h"), Ok(Bytes::from(vec![1u8])));
    assert_eq!(proxy.get_image("P"), Ok(Bytes::from(vec![2u8])));
    assert_eq!(proxy.get_statistics().get(&"P".to_owned()), Some(&3));
    let mut bare = ProxiedStorage::new("https://remote.example".to_owned(), EmptyStorage);
    assert_eq!(bare.get_artifact("P", "1", "h"), Err(StorageError::Unsupported));
    assert_eq!(bare.get_image("P"), Err(StorageError::Unsupported));
    assert_eq!(bare.get_statistics().len(), 0);
}
