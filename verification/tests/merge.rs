use bytes::Bytes;
use plugin_store::interface::{
    no_statistics, unsupported, EmptyStorage, IStorage, Statistics, StorageError,
};
use plugin_store::keyed_map::KeyedMap;
use plugin_store::merge::{merge_plugins_into, merge_statistics_into, MergedStorage};
use plugin_store::store_plugin::{StorePlugin, StorePluginList, StorePluginVersion};

fn version(name: &str, hash: &str) -> StorePluginVersion {
    StorePluginVersion { name: name.to_owned(), hash: hash.to_owned(), artifact: None }
}

fn plugin(id: usize, name: &str, author: &str, versions: Vec<StorePluginVersion>) -> StorePlugin {
    StorePlugin {
        id,
        name: name.to_owned(),
        versions,
        author: author.to_owned(),
        description: format!("{} by {}", name, author),
        tags: vec![author.to_owned()],
        image_url: format!("http://{}/{}.png", author, name),
    }
}

fn counts(entries: &[(&str, u64)]) -> Statistics {
    let mut stats: Statistics = KeyedMap::new();
    for (label, count) in entries {
        stats.insert((*label).to_owned(), *count);
    }
    stats
}

fn count_of(stats: &Statistics, label: &str) -> Option<u64> {
    stats.get(&label.to_owned()).copied()
}

/// A backend with a fixed catalog that serves what it is given to serve and
/// notes how often it was asked.
struct Fixed {
    catalog: StorePluginList,
    image: Option<Vec<u8>>,
    archive: Option<Vec<u8>>,
    stats: Vec<(String, u64)>,
    asked_for_images: usize,
    asked_for_archives: usize,
}

impl Fixed {
    fn new(catalog: StorePluginList) -> Self {
        Fixed {
            catalog,
            image: None,
            archive: None,
            stats: Vec::new(),
            asked_for_images: 0,
            asked_for_archives: 0,
        }
    }
}

impl IStorage for Fixed {
    fn plugins(&mut self) -> StorePluginList {
        self.catalog.clone()
    }

    fn get_artifact(&mut self, _name: &str, _version: &str, _hash: &str) -> Result<Bytes, StorageError> {
        self.asked_for_archives += 1;
        match &self.archive {
            Some(bytes) => Ok(Bytes::from(bytes.clone())),
            None => Err(StorageError::IoFailure),
        }
    }

    fn get_image(&mut self, _name: &str) -> Result<Bytes, StorageError> {
        self.asked_for_images += 1;
        match &self.image {
            Some(bytes) => Ok(Bytes::from(bytes.clone())),
            None => Err(StorageError::IoFailure),
        }
    }

    fn get_statistics(&mut self) -> Statistics {
        let mut stats: Statistics = KeyedMap::new();
        for (label, count) in &self.stats {
            stats.insert(label.clone(), *count);
        }
        stats
    }
}

#[test]
fn same_name_from_two_sources_is_one_entry() {
    let a = vec![plugin(1, "P", "a", vec![version("1.0", "h1"), version("1.1", "h2")])];
    let b = vec![plugin(7, "P", "b", vec![version("2.0", "h3")])];
    let mut merged = MergedStorage::new(vec![Fixed::new(a), Fixed::new(b)]);
    let catalog = merged.plugins();
    assert_eq!(catalog.len(), 1);
    let entry = &catalog[0];
    assert_eq!(entry.name, "P");
    assert_eq!(entry.id, 1);
    assert_eq!(entry.author, "a");
    assert_eq!(entry.description, "P by a");
    assert_eq!(entry.tags, vec!["a".to_owned()]);
    assert_eq!(entry.image_url, "http://a/P.png");
    assert_eq!(
        entry.versions,
        vec![version("1.0", "h1"), version("1.1", "h2"), version("2.0", "h3")]
    );
}

#[test]
fn merged_entries_keep_the_order_of_first_appearance() {
    let a = vec![
        plugin(1, "X", "a", vec![version("1", "x1")]),
        plugin(2, "Y", "a", vec![version("1", "y1")]),
    ];
    let b = vec![
        plugin(3, "Z", "b", vec![version("1", "z1")]),
        plugin(4, "X", "b", vec![version("2", "x2")]),
        plugin(5, "X", "b", vec![]),
    ];
    let mut merged = MergedStorage::new(vec![Fixed::new(a), Fixed::new(b)]);
    let catalog = merged.plugins();
    let names: Vec<&str> = catalog.iter().map(|p| p.name.as_str()).collect();
    assert_eq!(names, vec!["X", "Y", "Z"]);
    assert_eq!(catalog[0].versions, vec![version("1", "x1"), version("2", "x2")]);
    assert_eq!(catalog[0].id, 1);
    assert_eq!(catalog[2].id, 3);
}

#[test]
fn merge_plugins_into_appends_versions() {
    let mut dest = vec![plugin(1, "P", "a", vec![version("1", "h1")])];
    let source = vec![
        plugin(2, "Q", "b", vec![version("1", "q1")]),
        plugin(3, "P", "b", vec![version("2", "h2")]),
    ];
    merge_plugins_into(&mut dest, source);
    assert_eq!(
        dest,
        vec![
            plugin(1, "P", "a", vec![version("1", "h1"), version("2", "h2")]),
            plugin(2, "Q", "b", vec![version("1", "q1")]),
        ]
    );
}

#[test]
fn merge_of_no_sources_is_empty() {
    let mut merged: MergedStorage<EmptyStorage> = MergedStorage::new(vec![]);
    assert_eq!(merged.plugins().len(), 0);
    let mut merged = MergedStorage::new(vec![EmptyStorage, EmptyStorage]);
    assert_eq!(merged.plugins().len(), 0);
    assert_eq!(merged.get_statistics().len(), 0);
}

#[test]
fn fetches_find_nothing_before_the_first_listing() {
    let mut a = Fixed::new(vec![plugin(1, "P", "a", vec![version("1", "h1")])]);
    a.image = Some(vec![1]);
    a.archive = Some(vec![2]);
    let mut merged = MergedStorage::new(vec![a]);
    assert_eq!(merged.get_artifact("P", "1", "h1"), Err(StorageError::NotFound));
    assert_eq!(merged.get_image("P"), Err(StorageError::NotFound));
    merged.plugins();
    assert_eq!(merged.get_artifact("P", "1", "h1"), Ok(Bytes::from(vec![2u8])));
    assert_eq!(merged.get_image("P"), Ok(Bytes::from(vec![1u8])));
}

#[test]
fn artifact_miss_is_not_found_even_when_the_plugin_is_known() {
    let mut a = Fixed::new(vec![plugin(1, "P", "a", vec![version("1", "h1")])]);
    a.archive = Some(vec![9]);
    let mut merged = MergedStorage::new(vec![a]);
    merged.plugins();
    assert_eq!(merged.get_artifact("P", "2", "h1"), Err(StorageError::NotFound));
    assert_eq!(merged.get_artifact("P", "1", "h2"), Err(StorageError::NotFound));
    assert_eq!(merged.get_artifact("Q", "1", "h1"), Err(StorageError::NotFound));
    assert_eq!(merged.get_artifact("P", "1", "h1"), Ok(Bytes::from(vec![9u8])));
}

#[test]
fn artifact_goes_to_the_last_source_that_lists_it() {
    let shared = || vec![plugin(1, "P", "a", vec![version("1", "h1")])];
    let mut a = Fixed::new(shared());
    a.archive = Some(vec![1]);
    let mut b = Fixed::new(shared());
    b.archive = Some(vec![2]);
    let mut merged = MergedStorage::new(vec![a, b]);
    merged.plugins();
    assert_eq!(merged.get_artifact("P", "1", "h1"), Ok(Bytes::from(vec![2u8])));
}

#[test]
fn artifact_failure_of_the_routed_source_is_passed_on() {
    let a = Fixed::new(vec![plugin(1, "P", "a", vec![version("1", "h1")])]);
    let mut merged = MergedStorage::new(vec![a]);
    merged.plugins();
    assert_eq!(merged.get_artifact("P", "1", "h1"), Err(StorageError::IoFailure));
}

#[test]
fn image_falls_back_to_the_next_source() {
    let a = Fixed::new(vec![plugin(1, "P", "a", vec![])]);
    let mut b = Fixed::new(vec![plugin(2, "P", "b", vec![])]);
    b.image = Some(vec![4, 2]);
    let mut merged = MergedStorage::new(vec![a, b]);
    merged.plugins();
    assert_eq!(merged.get_image("P"), Ok(Bytes::from(vec![4u8, 2u8])));
}

#[test]
fn image_comes_from_the_first_source_that_has_it() {
    let mut a = Fixed::new(vec![plugin(1, "P", "a", vec![])]);
    a.image = Some(vec![1]);
    let mut b = Fixed::new(vec![plugin(2, "P", "b", vec![])]);
    b.image = Some(vec![2]);
    let mut merged = MergedStorage::new(vec![a, b]);
    merged.plugins();
    assert_eq!(merged.get_image("P"), Ok(Bytes::from(vec![1u8])));
}

#[test]
fn image_is_not_found_when_every_source_fails() {
    let a = Fixed::new(vec![plugin(1, "P", "a", vec![])]);
    let b = Fixed::new(vec![plugin(2, "P", "b", vec![])]);
    let mut merged = MergedStorage::new(vec![a, b]);
    merged.plugins();
    assert_eq!(merged.get_image("P"), Err(StorageError::NotFound));
    assert_eq!(merged.get_image("unknown"), Err(StorageError::NotFound));
}

#[test]
fn image_is_only_asked_of_sources_that_list_the_plugin() {
    let mut a = Fixed::new(vec![plugin(1, "Other", "a", vec![])]);
    a.image = Some(vec![1]);
    let b = Fixed::new(vec![plugin(2, "P", "b", vec![])]);
    let mut merged = MergedStorage::new(vec![a, b]);
    merged.plugins();
    assert_eq!(merged.get_image("P"), Err(StorageError::NotFound));
}

#[test]
fn a_new_listing_replaces_the_routing_tables() {
    let mut a = Fixed::new(vec![plugin(1, "P", "a", vec![version("1", "h1")])]);
    a.image = Some(vec![1]);
    a.archive = Some(vec![2]);
    let mut inner = MergedStorage::new(vec![a]);
    inner.plugins();
    let catalogs: Vec<StorePluginList> = vec![vec![plugin(1, "Q", "a", vec![version("1", "q1")])]];
    let rebuilt = inner.rebuild(&catalogs);
    assert_eq!(rebuilt.len(), 1);
    assert_eq!(rebuilt[0].name, "Q");
    assert_eq!(inner.get_artifact("P", "1", "h1"), Err(StorageError::NotFound));
    assert_eq!(inner.get_image("P"), Err(StorageError::NotFound));
    assert_eq!(inner.get_artifact("Q", "1", "q1"), Ok(Bytes::from(vec![2u8])));
    assert_eq!(inner.get_image("Q"), Ok(Bytes::from(vec![1u8])));
}

#[test]
fn statistics_add_up_by_label() {
    let mut dest = counts(&[("P", 3), ("P 1", 3)]);
    merge_statistics_into(&mut dest, counts(&[("P", 4), ("Q", 1)]));
    assert_eq!(dest.len(), 3);
    assert_eq!(count_of(&dest, "P"), Some(7));
    assert_eq!(count_of(&dest, "P 1"), Some(3));
    assert_eq!(count_of(&dest, "Q"), Some(1));
    assert_eq!(count_of(&dest, "R"), None);
}

#[test]
fn a_sum_that_does_not_fit_is_capped() {
    let mut dest = counts(&[("P", u64::MAX - 1)]);
    merge_statistics_into(&mut dest, counts(&[("P", 5)]));
    assert_eq!(count_of(&dest, "P"), Some(u64::MAX));
}

#[test]
fn merged_statistics_are_the_sum_of_all_sources() {
    let mut a = Fixed::new(vec![]);
    a.stats = vec![("P".to_owned(), 2), ("P 1".to_owned(), 2)];
    let mut b = Fixed::new(vec![]);
    b.stats = vec![("P".to_owned(), 5), ("Q".to_owned(), 1)];
    let mut merged = MergedStorage::new(vec![a, b]);
    let stats = merged.get_statistics();
    assert_eq!(count_of(&stats, "P"), Some(7));
    assert_eq!(count_of(&stats, "P 1"), Some(2));
    assert_eq!(count_of(&stats, "Q"), Some(1));
    assert_eq!(stats.len(), 3);
}

#[test]
fn the_empty_backend_serves_nothing() {
    let mut empty = EmptyStorage;
    assert_eq!(empty.plugins().len(), 0);
    assert_eq!(empty.get_artifact("P", "1", "h"), Err(StorageError::Unsupported));
    assert_eq!(empty.get_image("P"), Err(StorageError::Unsupported));
    assert_eq!(empty.get_statistics().len(), 0);
}

#[test]
fn the_answers_of_a_backend_that_serves_nothing() {
    assert_eq!(unsupported(), Err(StorageError::Unsupported));
    assert_eq!(no_statistics().len(), 0);
}

#[test]
fn a_source_listed_twice_is_asked_twice_for_the_image() {
    let a = Fixed::new(vec![plugin(1, "P", "a", vec![]), plugin(2, "P", "a", vec![])]);
    let mut merged = MergedStorage::new(vec![a]);
    let catalog = merged.plugins();
    assert_eq!(catalog.len(), 1);
    assert_eq!(merged.get_image("P"), Err(StorageError::NotFound));
}

#[test]
fn keyed_map_keeps_first_come_order() {
    let mut map: KeyedMap<String, u64> = KeyedMap::new();
    assert_eq!(map.len(), 0);
    map.insert("b".to_owned(), 1);
    map.insert("a".to_owned(), 2);
    map.insert("b".to_owned(), 3);
    assert_eq!(map.len(), 2);
    assert_eq!(map.label(0), "b");
    assert_eq!(map.label(1), "a");
    assert_eq!(*map.item(0), 3);
    assert_eq!(*map.item(1), 2);
    assert_eq!(map.find(&"a".to_owned()), Some(1));
    assert_eq!(map.find(&"c".to_owned()), None);
    assert_eq!(map.get(&"b".to_owned()), Some(&3));
    assert_eq!(map.get(&"c".to_owned()), None);
}
