use bytes::Bytes;
use plugin_store::cache::{copy_statistics, Cached, CachedStorage};
use plugin_store::interface::{IStorage, Statistics, StorageError};
use plugin_store::keyed_map::KeyedMap;
use plugin_store::store_plugin::{StorePlugin, StorePluginList};

/// A backend whose answers tell how often it has been asked.
struct Counting {
    listings: usize,
    statistics: u64,
    archives: u8,
    images: u8,
    fails: bool,
}

impl Counting {
    fn new() -> Self {
        Counting { listings: 0, statistics: 0, archives: 0, images: 0, fails: false }
    }
}

impl IStorage for Counting {
    fn plugins(&mut self) -> StorePluginList {
        self.listings += 1;
        vec![StorePlugin {
            id: self.listings,
            name: "P".to_owned(),
            versions: vec![],
            author: String::new(),
            description: String::new(),
            tags: vec![],
            image_url: String::new(),
        }]
    }

    fn get_artifact(&mut self, _name: &str, _version: &str, _hash: &str) -> Result<Bytes, StorageError> {
        if self.fails {
            return Err(StorageError::NotFound);
        }
        self.archives += 1;
        Ok(Bytes::from(vec![self.archives]))
    }

    fn get_image(&mut self, _name: &str) -> Result<Bytes, StorageError> {
        if self.fails {
            return Err(StorageError::Unsupported);
        }
        self.images += 1;
        Ok(Bytes::from(vec![self.images]))
    }

    fn get_statistics(&mut self) -> Statistics {
        self.statistics += 1;
        let mut stats: Statistics = KeyedMap::new();
        stats.insert("asked".to_owned(), self.statistics);
        stats
    }
}

fn asked(stats: &Statistics) -> Option<u64> {
    stats.get(&"asked".to_owned()).copied()
}

#[test]
fn a_value_is_fresh_up_to_its_deadline() {
    let cached = Cached::new(7u32, 100, 10);
    assert_eq!(cached.get(100), Some(&7));
    assert_eq!(cached.get(105), Some(&7));
    assert_eq!(cached.get(110), Some(&7));
    assert_eq!(cached.get(111), None);
    assert_eq!(cached.get(99), Some(&7));
}

#[test]
fn refresh_replaces_the_value_and_moves_the_deadline() {
    let mut cached = Cached::new(7u32, 100, 10);
    cached.refresh(200, 8);
    assert_eq!(cached.get(210), Some(&8));
    assert_eq!(cached.get(211), None);
}

#[test]
fn a_deadline_beyond_the_last_moment_is_the_last_moment() {
    let cached = Cached::new(1u8, i64::MAX - 1, 10);
    assert_eq!(cached.get(i64::MAX), Some(&1));
    let cached = Cached::new(1u8, i64::MIN + 1, -10);
    assert_eq!(cached.get(i64::MIN), Some(&1));
    assert_eq!(cached.get(i64::MIN + 1), None);
}

#[test]
fn a_negative_duration_is_never_fresh() {
    let cached = Cached::new(1u8, 100, -1);
    assert_eq!(cached.get(100), None);
    assert_eq!(cached.get(99), Some(&1));
}

#[test]
fn reads_within_ttl_do_not_ask_the_loader_again() {
    let mut cache = CachedStorage::new_at(1000, 60, Counting::new());
    let first = cache.plugins_at(1000);
    let second = cache.plugins_at(1030);
    let third = cache.plugins_at(1060);
    assert_eq!(first[0].id, 1);
    assert_eq!(second, first);
    assert_eq!(third, first);
}

#[test]
fn a_read_after_ttl_asks_the_loader_again() {
    let mut cache = CachedStorage::new_at(1000, 60, Counting::new());
    assert_eq!(cache.plugins_at(1060)[0].id, 1);
    assert_eq!(cache.plugins_at(1061)[0].id, 2);
    assert_eq!(cache.plugins_at(1121)[0].id, 2);
    assert_eq!(cache.plugins_at(1122)[0].id, 3);
}

#[test]
fn statistics_are_kept_like_the_catalog() {
    let mut cache = CachedStorage::new_at(1000, 60, Counting::new());
    assert_eq!(asked(&cache.get_statistics_at(1010)), Some(1));
    assert_eq!(asked(&cache.get_statistics_at(1060)), Some(1));
    assert_eq!(asked(&cache.get_statistics_at(1061)), Some(2));
    assert_eq!(asked(&cache.get_statistics_at(1100)), Some(2));
}

#[test]
fn the_four_caches_expire_independently() {
    let mut cache = CachedStorage::new_at(1000, 60, Counting::new());
    assert_eq!(cache.plugins_at(1061)[0].id, 2);
    assert_eq!(asked(&cache.get_statistics_at(1100)), Some(2));
    assert_eq!(cache.plugins_at(1100)[0].id, 2);
    assert_eq!(asked(&cache.get_statistics_at(1160)), Some(2));
    assert_eq!(cache.plugins_at(1122)[0].id, 3);
}

#[test]
fn an_archive_is_fetched_once_per_digest() {
    let mut cache = CachedStorage::new_at(1000, 60, Counting::new());
    assert_eq!(cache.get_artifact_at(1000, "P", "1", "h1"), Ok(Bytes::from(vec![1u8])));
    assert_eq!(cache.get_artifact_at(1010, "P", "1", "h1"), Ok(Bytes::from(vec![1u8])));
    assert_eq!(cache.get_artifact_at(1010, "other", "9", "h1"), Ok(Bytes::from(vec![1u8])));
    assert_eq!(cache.get_artifact_at(1020, "P", "2", "h2"), Ok(Bytes::from(vec![2u8])));
    assert_eq!(cache.get_artifact_at(1030, "P", "1", "h1"), Ok(Bytes::from(vec![1u8])));
}

#[test]
fn a_miss_renews_the_whole_map() {
    let mut cache = CachedStorage::new_at(1000, 60, Counting::new());
    assert_eq!(cache.get_artifact_at(1000, "P", "1", "h1"), Ok(Bytes::from(vec![1u8])));
    assert_eq!(cache.get_artifact_at(1050, "P", "2", "h2"), Ok(Bytes::from(vec![2u8])));
    assert_eq!(cache.get_artifact_at(1110, "P", "1", "h1"), Ok(Bytes::from(vec![1u8])));
    assert_eq!(cache.get_artifact_at(1111, "P", "1", "h1"), Ok(Bytes::from(vec![3u8])));
}

#[test]
fn all_archives_are_forgotten_at_once() {
    let mut cache = CachedStorage::new_at(1000, 60, Counting::new());
    assert_eq!(cache.get_artifact_at(1000, "P", "1", "h1"), Ok(Bytes::from(vec![1u8])));
    assert_eq!(cache.get_artifact_at(1000, "P", "2", "h2"), Ok(Bytes::from(vec![2u8])));
    assert_eq!(cache.get_artifact_at(1061, "P", "2", "h2"), Ok(Bytes::from(vec![3u8])));
    assert_eq!(cache.get_artifact_at(1061, "P", "1", "h1"), Ok(Bytes::from(vec![4u8])));
}

#[test]
fn images_are_kept_by_plugin_name() {
    let mut cache = CachedStorage::new_at(1000, 60, Counting::new());
    assert_eq!(cache.get_image_at(1000, "P"), Ok(Bytes::from(vec![1u8])));
    assert_eq!(cache.get_image_at(1001, "P"), Ok(Bytes::from(vec![1u8])));
    assert_eq!(cache.get_image_at(1002, "Q"), Ok(Bytes::from(vec![2u8])));
    assert_eq!(cache.get_image_at(1063, "P"), Ok(Bytes::from(vec![3u8])));
}

#[test]
fn failures_are_passed_on_and_not_kept() {
    let mut inner = Counting::new();
    inner.fails = true;
    let mut cache = CachedStorage::new_at(1000, 60, inner);
    assert_eq!(cache.get_artifact_at(1000, "P", "1", "h1"), Err(StorageError::NotFound));
    assert_eq!(cache.get_image_at(1000, "P"), Err(StorageError::Unsupported));
    assert_eq!(cache.get_artifact_at(1001, "P", "1", "h1"), Err(StorageError::NotFound));
}

#[test]
fn the_clock_drives_the_trait_methods() {
    let mut cache = CachedStorage::new(3600, Counting::new());
    assert_eq!(cache.plugins()[0].id, 1);
    assert_eq!(cache.plugins()[0].id, 1);
    assert_eq!(asked(&cache.get_statistics()), Some(1));
    assert_eq!(cache.get_artifact("P", "1", "h1"), Ok(Bytes::from(vec![1u8])));
    assert_eq!(cache.get_artifact("P", "1", "h1"), Ok(Bytes::from(vec![1u8])));
    assert_eq!(cache.get_image("P"), Ok(Bytes::from(vec![1u8])));
    assert_eq!(cache.get_image("P"), Ok(Bytes::from(vec![1u8])));
    let mut stale = CachedStorage::new(-3600, Counting::new());
    assert_eq!(stale.plugins()[0].id, 2);
    assert_eq!(stale.plugins()[0].id, 3);
}

#[test]
fn copies_of_statistics_are_equal() {
    let mut stats: Statistics = KeyedMap::new();
    stats.insert("a".to_owned(), 1);
    stats.insert("b".to_owned(), 2);
    let copy = copy_statistics(&stats);
    assert_eq!(copy.len(), 2);
    assert_eq!(copy.get(&"a".to_owned()), Some(&1));
    assert_eq!(copy.get(&"b".to_owned()), Some(&2));
}
