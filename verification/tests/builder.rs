use plugin_store::builder::{build_storage_box, StorageBox};
use plugin_store::cli::{DescriptorError, FilesystemArgs, MergeArgs, ProxyArgs, StorageArgs};

fn read(text: &str) -> StorageArgs {
    StorageArgs::from_descriptor(&mut text.chars()).expect("a descriptor")
}

fn root_of(built: &StorageBox) -> Vec<String> {
    match built {
        StorageBox::File(store) => store.plugins_path(),
        _ => panic!("not a directory store"),
    }
}

#[test]
fn the_default_storage_is_a_directory_store() {
    let built = build_storage_box(&StorageArgs::Default).expect("built");
    assert_eq!(root_of(&built), vec!["./store", "plugins"]);
    match built {
        StorageBox::File(mut store) => {
            let folder = plugin_store::filesystem::PluginFolder {
                name: "P".to_owned(),
                metadata: plugin_store::filesystem::PluginMetadata {
                    id: 1,
                    author: String::new(),
                    description: String::new(),
                    tags: vec![],
                },
                files: vec![],
            };
            let catalog = store.plugins(Ok(vec![folder]));
            assert_eq!(catalog[0].image_url, "http://192.168.0.128:22252/plugins/P.png");
            assert_eq!(store.get_statistics(Ok(vec![])).len(), 0);
        }
        _ => panic!("not a directory store"),
    }
}

#[test]
fn settings_are_carried_into_the_backends() {
    let built = build_storage_box(&StorageArgs::Filesystem(FilesystemArgs {
        root: "/srv".to_owned(),
        domain_root: "http://d".to_owned(),
        enable_stats: false,
    }))
    .expect("built");
    assert_eq!(root_of(&built), vec!["/srv", "plugins"]);
    let built = build_storage_box(&StorageArgs::Proxy(ProxyArgs { proxy_store: "u".to_owned() }))
        .expect("built");
    match built {
        StorageBox::Proxy(mut proxy) => {
            assert_eq!(proxy.plugins_url(), "u/plugins");
            assert_eq!(proxy.plugins(Ok(vec![])).len(), 0);
        }
        _ => panic!("not a remote store"),
    }
    assert!(matches!(build_storage_box(&StorageArgs::Empty), Ok(StorageBox::Empty)));
}

#[test]
fn a_combination_is_built_child_by_child() {
    let built = build_storage_box(&read("m[(e),(p{u}),(m[(d),(f{r=/x})])]")).expect("built");
    match built {
        StorageBox::Merge(children) => {
            assert_eq!(children.len(), 3);
            assert!(matches!(children[0], StorageBox::Empty));
            assert!(
                matches!(&children[1], StorageBox::Proxy(proxy) if proxy.plugins_url() == "u/plugins")
            );
            match &children[2] {
                StorageBox::Merge(inner) => {
                    assert_eq!(inner.len(), 2);
                    assert_eq!(root_of(&inner[0]), vec!["./store", "plugins"]);
                    assert_eq!(root_of(&inner[1]), vec!["/x", "plugins"]);
                }
                _ => panic!("not a combination"),
            }
        }
        _ => panic!("not a combination"),
    }
}

#[test]
fn a_combination_of_fewer_than_two_is_refused() {
    let single = StorageArgs::Merge(MergeArgs { settings: vec![StorageArgs::Empty] });
    assert!(matches!(build_storage_box(&single), Err(DescriptorError::TooFewChildren)));
    let nested = StorageArgs::Merge(MergeArgs {
        settings: vec![
            StorageArgs::Empty,
            StorageArgs::Merge(MergeArgs { settings: vec![] }),
        ],
    });
    assert!(matches!(build_storage_box(&nested), Err(DescriptorError::TooFewChildren)));
}
