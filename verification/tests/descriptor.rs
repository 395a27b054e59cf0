use plugin_store::cli::{DescriptorError, FilesystemArgs, MergeArgs, ProxyArgs, StorageArgs};
use plugin_store::grammar::Section;

fn read(text: &str) -> Result<StorageArgs, DescriptorError> {
    StorageArgs::from_descriptor(&mut text.chars())
}

fn filesystem(root: &str, domain_root: &str, enable_stats: bool) -> StorageArgs {
    StorageArgs::Filesystem(FilesystemArgs {
        root: root.to_owned(),
        domain_root: domain_root.to_owned(),
        enable_stats,
    })
}

fn proxy(address: &str) -> StorageArgs {
    StorageArgs::Proxy(ProxyArgs { proxy_store: address.to_owned() })
}

fn merge(settings: Vec<StorageArgs>) -> StorageArgs {
    StorageArgs::Merge(MergeArgs { settings })
}

#[test]
fn storage_descriptor() {
    let descriptor = "f{root='',domain='',stats:0}";
    let parsed = StorageArgs::from_descriptor(&mut descriptor.chars());
    parsed.expect("StorageArgs parse error");
    let descriptor = "p{}";
    let parsed = StorageArgs::from_descriptor(&mut descriptor.chars());
    parsed.expect("StorageArgs parse error");
    let descriptor = "m[(p{}),(d)]";
    let parsed = StorageArgs::from_descriptor(&mut descriptor.chars());
    parsed.expect("StorageArgs parse error");
    let descriptor = "d";
    let parsed = StorageArgs::from_descriptor(&mut descriptor.chars());
    parsed.expect("StorageArgs parse error");
}

#[test]
fn filesys_descriptor() {
    let descriptor = "{root='',domain='',stats:0}";
    let parsed = FilesystemArgs::from_descriptor(&mut descriptor.chars());
    parsed.expect("FilesystemArgs parse error");
}

#[test]
fn proxy_descriptor() {
    let descriptor = "{}";
    let parsed = ProxyArgs::from_descriptor(&mut descriptor.chars());
    parsed.expect("ProxyArgs parse error");
}

#[test]
fn merge_descriptor() {
    let descriptor = "[(f{}),(p{}),( )]";
    let parsed = MergeArgs::from_descriptor(&mut descriptor.chars());
    parsed.expect("MergeArgs parse error");
}

#[test]
fn prefixes_select_the_variant() {
    assert_eq!(read("d"), Ok(StorageArgs::Default));
    assert_eq!(read("_"), Ok(StorageArgs::Default));
    assert_eq!(read("e"), Ok(StorageArgs::Empty));
    assert_eq!(read(" "), Ok(StorageArgs::Empty));
    assert_eq!(read("+[(d),(e)]"), Ok(merge(vec![StorageArgs::Default, StorageArgs::Empty])));
    assert_eq!(read("x"), Err(DescriptorError::UnknownPrefix { found: 'x' }));
    assert_eq!(read(""), Err(DescriptorError::EmptyDescriptor));
}

#[test]
fn filesystem_defaults_apply_to_missing_keys() {
    assert_eq!(read("f{}"), Ok(filesystem("./store", "http://localhost:22252", false)));
    assert_eq!(
        read("f{root='',domain='',stats:0}"),
        Ok(filesystem("", "", false))
    );
}

#[test]
fn filesystem_keys_have_a_short_and_a_long_form() {
    let long = read("f{root=/srv,domain=http://a,stats=1}");
    let short = read("f{r=/srv,d=http://a,s=y}");
    assert_eq!(long, Ok(filesystem("/srv", "http://a", true)));
    assert_eq!(short, long);
    assert_eq!(read("f{s=0}"), Ok(filesystem("./store", "http://localhost:22252", false)));
    assert_eq!(read("f{ root =/srv}"), Ok(filesystem("/srv", "http://localhost:22252", false)));
}

#[test]
fn quotes_let_reserved_characters_through() {
    assert_eq!(
        read("f{root='a{b}c=d,e',domain='x'}"),
        Ok(filesystem("a{b}c=d,e", "x", false))
    );
}

#[test]
fn a_later_pair_replaces_an_earlier_one() {
    assert_eq!(read("f{r=a,r=b}"), Ok(filesystem("b", "http://localhost:22252", false)));
}

#[test]
fn filesystem_failures() {
    assert_eq!(
        read("f"),
        Err(DescriptorError::TooShort { section: Section::Filesystem })
    );
    assert_eq!(read("f["), Err(DescriptorError::Expected { wanted: '{', found: '[' }));
    assert_eq!(read("f{root=a"), Err(DescriptorError::UnexpectedEnd));
    assert_eq!(read("f{a=b=c}"), Err(DescriptorError::UnexpectedAssign));
    assert_eq!(read("f{abc,}"), Err(DescriptorError::UnexpectedSeparator));
    assert_eq!(
        read("f{ colour =red}"),
        Err(DescriptorError::UnknownKey { name: "colour".to_owned() })
    );
    assert_eq!(
        read("f{colour=red,root=a}"),
        Err(DescriptorError::UnknownKey { name: "colour".to_owned() })
    );
}

#[test]
fn proxy_body_is_the_address() {
    assert_eq!(read("p{}"), Ok(proxy("https://plugins.deckbrew.xyz")));
    assert_eq!(read("p{http://a.example}"), Ok(proxy("http://a.example")));
    assert_eq!(read("p{a'b,c=d}"), Ok(proxy("a'b,c=d")));
    assert_eq!(read("p"), Err(DescriptorError::TooShort { section: Section::Proxy }));
    assert_eq!(read("p("), Err(DescriptorError::Expected { wanted: '{', found: '(' }));
    assert_eq!(read("p{http://a"), Err(DescriptorError::UnexpectedEnd));
}

#[test]
fn merge_needs_two_children() {
    assert_eq!(read("m[(d)]"), Err(DescriptorError::TooFewChildren));
    assert_eq!(
        read("m[(d),(e)]"),
        Ok(merge(vec![StorageArgs::Default, StorageArgs::Empty]))
    );
}

#[test]
fn merge_failures() {
    assert_eq!(read("m"), Err(DescriptorError::TooShort { section: Section::Merge }));
    assert_eq!(read("m{"), Err(DescriptorError::Expected { wanted: '[', found: '{' }));
    assert_eq!(read("m["), Err(DescriptorError::EmptyDescriptor));
    assert_eq!(read("m[]"), Err(DescriptorError::Expected { wanted: '(', found: ']' }));
    assert_eq!(read("m[("), Err(DescriptorError::EmptyDescriptor));
    assert_eq!(read("m[(d"), Err(DescriptorError::UnexpectedEnd));
    assert_eq!(read("m[(d]"), Err(DescriptorError::Expected { wanted: ')', found: ']' }));
    assert_eq!(read("m[(d)"), Err(DescriptorError::UnexpectedEnd));
    assert_eq!(read("m[(d);(e)]"), Err(DescriptorError::UnexpectedInMerge { found: ';' }));
    assert_eq!(read("m[(d),(x)]"), Err(DescriptorError::UnknownPrefix { found: 'x' }));
    assert_eq!(read("m[(d),(m[(e)])]"), Err(DescriptorError::TooFewChildren));
}

#[test]
fn a_child_takes_exactly_its_own_characters() {
    let mut chars = "m[(d),(p{a)b,c]d})]tail".chars();
    let parsed = StorageArgs::from_descriptor(&mut chars);
    assert_eq!(parsed, Ok(merge(vec![StorageArgs::Default, proxy("a)b,c]d")])));
    assert_eq!(chars.as_str(), "tail");
    let mut chars = "dd".chars();
    assert_eq!(StorageArgs::from_descriptor(&mut chars), Ok(StorageArgs::Default));
    assert_eq!(chars.as_str(), "d");
}

#[test]
fn serialized_forms() {
    assert_eq!(StorageArgs::Default.to_descriptor(), "d");
    assert_eq!(StorageArgs::Empty.to_descriptor(), "e");
    assert_eq!(
        filesystem("/srv", "http://a", true).to_descriptor(),
        "f{root='/srv',domain='http://a',stats=1}"
    );
    assert_eq!(
        filesystem("", "", false).to_descriptor(),
        "f{root='',domain='',stats=0}"
    );
    assert_eq!(proxy("http://a").to_descriptor(), "p{http://a}");
    assert_eq!(
        merge(vec![proxy("u"), StorageArgs::Default, StorageArgs::Empty]).to_descriptor(),
        "m[(p{u}),(d),(e)]"
    );
    let body = FilesystemArgs {
        root: "r".to_owned(),
        domain_root: "d".to_owned(),
        enable_stats: false,
    };
    assert_eq!(body.to_descriptor(), "{root='r',domain='d',stats=0}");
    assert_eq!(ProxyArgs { proxy_store: "u".to_owned() }.to_descriptor(), "{u}");
    let list = MergeArgs { settings: vec![StorageArgs::Default, StorageArgs::Empty] };
    assert_eq!(list.to_descriptor(), "[(d),(e)]");
}

#[test]
fn round_trip_of_every_variant() {
    let nested = merge(vec![
        StorageArgs::Default,
        filesystem("a{b}c=d,e)]", "http://x/y", true),
        proxy("https://remote.example/store"),
        StorageArgs::Empty,
        merge(vec![
            filesystem("", "", false),
            merge(vec![StorageArgs::Empty, proxy("p)q],(r")]),
        ]),
    ]);
    let samples = vec![
        StorageArgs::Default,
        StorageArgs::Empty,
        filesystem("./store", "http://localhost:22252", false),
        filesystem("with space", "d", true),
        proxy("https://plugins.deckbrew.xyz"),
        nested,
    ];
    for sample in samples {
        let text = sample.clone().to_descriptor();
        let mut chars = text.chars();
        assert_eq!(StorageArgs::from_descriptor(&mut chars), Ok(sample));
        assert_eq!(chars.as_str(), "");
    }
}

#[test]
fn round_trip_fails_outside_the_representable_trees() {
    let empty_address = proxy("");
    assert_eq!(
        read(&empty_address.to_descriptor()),
        Ok(proxy("https://plugins.deckbrew.xyz"))
    );
    let quoted = filesystem("it's", "d", false);
    assert_ne!(read(&quoted.clone().to_descriptor()), Ok(quoted));
}

#[test]
fn generate_args_hands_out_the_children() {
    let list = MergeArgs { settings: vec![proxy("u"), StorageArgs::Default] };
    assert_eq!(list.generate_args(), Ok(vec![proxy("u"), StorageArgs::Default]));
    let single = MergeArgs { settings: vec![StorageArgs::Default] };
    assert_eq!(single.generate_args(), Err(DescriptorError::TooFewChildren));
    let none = MergeArgs { settings: vec![] };
    assert_eq!(none.generate_args(), Err(DescriptorError::TooFewChildren));
}

#[test]
fn clones_are_equal() {
    let tree = merge(vec![filesystem("a", "b", true), proxy("u"), StorageArgs::Empty]);
    assert_eq!(tree.clone(), tree);
}

#[test]
fn failure_messages() {
    assert_eq!(DescriptorError::EmptyDescriptor.message(), "Empty storage descriptor");
    assert_eq!(
        DescriptorError::UnknownPrefix { found: 'x' }.message(),
        "Unexpected char x, expected a descriptor prefix from {d f p e m}"
    );
    assert_eq!(
        DescriptorError::TooShort { section: Section::Filesystem }.message(),
        "Filesystem descriptor too short"
    );
    assert_eq!(
        DescriptorError::TooShort { section: Section::Proxy }.message(),
        "Proxy descriptor too short"
    );
    assert_eq!(
        DescriptorError::TooShort { section: Section::Merge }.message(),
        "Merge descriptor too short"
    );
    assert_eq!(
        DescriptorError::Expected { wanted: '{', found: 'q' }.message(),
        "Expected {, got q"
    );
    assert_eq!(
        DescriptorError::UnexpectedAssign.message(),
        "Unexpected = in filesystem descriptor"
    );
    assert_eq!(
        DescriptorError::UnexpectedSeparator.message(),
        "Unexpected , in filesystem descriptor"
    );
    assert_eq!(
        DescriptorError::UnknownKey { name: "colour".to_owned() }.message(),
        "Unexpected variable name colour in filesystem descriptor"
    );
    assert_eq!(DescriptorError::UnexpectedEnd.message(), "Unexpected end of descriptor");
    assert_eq!(
        DescriptorError::TooFewChildren.message(),
        "Merge args too short (0-1 descriptors is useless!)"
    );
    assert_eq!(
        DescriptorError::UnexpectedInMerge { found: ';' }.message(),
        "Unexpected char ;, expected ] or ,"
    );
}
