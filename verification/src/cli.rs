//! Storage settings and their compact text form.
//!
//! The types here are the settings as a program holds them; what their text
//! form is, and how it is read, is laid down in [`crate::grammar`].

use std::str::Chars;
use vstd::prelude::*;
use vstd::std_specs::iter::IteratorSpec;
use vstd::string::StringExecFns;
use crate::grammar::{
    fs_assign, fs_result, fs_start, key_of, literal_key, open_body, parse, parse_children,
    parse_filesystem, parse_merge, parse_proxy, report, scan_filesystem, scan_proxy, serialize,
    serialize_body, serialize_children, truthy, Descriptor, Failure, FsScan, Key, Section,
};
use crate::text::{budget, finite, same_text, trim};

verus! {

/// What the program was started with.
#[derive(Debug)]
pub struct CliArgs {
    /// For how many seconds results are kept, if they are kept at all.
    pub cache_duration: Option<i64>,
    /// The storage to serve from.
    pub storage: StorageArgs,
}

/// A tree of storage backends.
#[derive(Debug, PartialEq, Eq)]
pub enum StorageArgs {
    /// The default storage: a directory on disk with the default settings.
    Default,
    /// A directory on disk.
    Filesystem(FilesystemArgs),
    /// An existing online store.
    Proxy(ProxyArgs),
    /// No storage at all.
    Empty,
    /// Several storages combined.
    Merge(MergeArgs),
}

/// The settings of a directory on disk.
#[derive(Debug, PartialEq, Eq)]
pub struct FilesystemArgs {
    /// The directory that holds the store.
    pub root: String,
    /// The address under which the store is served.
    pub domain_root: String,
    /// Whether hits are counted.
    pub enable_stats: bool,
}

/// The settings of an online store that is passed on.
#[derive(Debug, PartialEq, Eq)]
pub struct ProxyArgs {
    /// The address of the store whose offerings are passed on.
    pub proxy_store: String,
}

/// The settings of a combination of storages.
#[derive(Debug, PartialEq, Eq)]
pub struct MergeArgs {
    /// The storages to combine, in the order in which they are asked.
    pub settings: Vec<StorageArgs>,
}

/// Why a text could not be read as storage settings. Each variant stands
/// for the [`Failure`] of the same name.
#[derive(Debug, PartialEq, Eq)]
pub enum DescriptorError {
    /// There was no text at all where a descriptor should start.
    EmptyDescriptor,
    /// The first character selects no kind of backend.
    UnknownPrefix { found: char },
    /// The text ended where the body of a section should open.
    TooShort { section: Section },
    /// One particular character was due and another one stood there.
    Expected { wanted: char, found: char },
    /// A second `=` before the pair was closed.
    UnexpectedAssign,
    /// A `,` closed a pair that has no `=`.
    UnexpectedSeparator,
    /// The name before `=` is none of the known ones.
    UnknownKey { name: String },
    /// The text ended inside a body.
    UnexpectedEnd,
    /// A combination of fewer than two backends.
    TooFewChildren,
    /// Something other than `,` or `]` followed a child.
    UnexpectedInMerge { found: char },
}

impl View for DescriptorError {
    type V = Failure;

    open spec fn view(&self) -> Failure {
        match self {
            DescriptorError::EmptyDescriptor => Failure::EmptyDescriptor,
            DescriptorError::UnknownPrefix { found } => Failure::UnknownPrefix { found: *found },
            DescriptorError::TooShort { section } => Failure::TooShort { section: *section },
            DescriptorError::Expected { wanted, found } => Failure::Expected {
                wanted: *wanted,
                found: *found,
            },
            DescriptorError::UnexpectedAssign => Failure::UnexpectedAssign,
            DescriptorError::UnexpectedSeparator => Failure::UnexpectedSeparator,
            DescriptorError::UnknownKey { name } => Failure::UnknownKey { name: name@ },
            DescriptorError::UnexpectedEnd => Failure::UnexpectedEnd,
            DescriptorError::TooFewChildren => Failure::TooFewChildren,
            DescriptorError::UnexpectedInMerge { found } => Failure::UnexpectedInMerge {
                found: *found,
            },
        }
    }
}

impl Clone for DescriptorError {
    fn clone(&self) -> (r: Self)
        ensures
            r@ == self@,
    {
        match self {
            DescriptorError::EmptyDescriptor => DescriptorError::EmptyDescriptor,
            DescriptorError::UnknownPrefix { found } => DescriptorError::UnknownPrefix {
                found: *found,
            },
            DescriptorError::TooShort { section } => DescriptorError::TooShort {
                section: *section,
            },
            DescriptorError::Expected { wanted, found } => DescriptorError::Expected {
                wanted: *wanted,
                found: *found,
            },
            DescriptorError::UnexpectedAssign => DescriptorError::UnexpectedAssign,
            DescriptorError::UnexpectedSeparator => DescriptorError::UnexpectedSeparator,
            DescriptorError::UnknownKey { name } => DescriptorError::UnknownKey {
                name: name.clone(),
            },
            DescriptorError::UnexpectedEnd => DescriptorError::UnexpectedEnd,
            DescriptorError::TooFewChildren => DescriptorError::TooFewChildren,
            DescriptorError::UnexpectedInMerge { found } => DescriptorError::UnexpectedInMerge {
                found: *found,
            },
        }
    }
}

impl DescriptorError {
    /// The failure in words.
    pub fn message(&self) -> (r: String)
        ensures
            r@ == report(self@),
    {
        match self {
            DescriptorError::EmptyDescriptor => "Empty storage descriptor".to_owned(),
            DescriptorError::UnknownPrefix { found } => {
                let mut out = "Unexpected char ".to_owned();
                out.push(*found);
                out.append(", expected a descriptor prefix from {d f p e m}");
                assert(out@ =~= report(self@));
                out
            },
            DescriptorError::TooShort { section } => {
                let mut out = match section {
                    Section::Filesystem => "Filesystem".to_owned(),
                    Section::Proxy => "Proxy".to_owned(),
                    Section::Merge => "Merge".to_owned(),
                };
                out.append(" descriptor too short");
                out
            },
            DescriptorError::Expected { wanted, found } => {
                let mut out = "Expected ".to_owned();
                out.push(*wanted);
                out.append(", got ");
                out.push(*found);
                assert(out@ =~= report(self@));
                out
            },
            DescriptorError::UnexpectedAssign => "Unexpected = in filesystem descriptor".to_owned(),
            DescriptorError::UnexpectedSeparator => {
                "Unexpected , in filesystem descriptor".to_owned()
            },
            DescriptorError::UnknownKey { name } => {
                let mut out = "Unexpected variable name ".to_owned();
                out.append(name.as_str());
                out.append(" in filesystem descriptor");
                out
            },
            DescriptorError::UnexpectedEnd => "Unexpected end of descriptor".to_owned(),
            DescriptorError::TooFewChildren => {
                "Merge args too short (0-1 descriptors is useless!)".to_owned()
            },
            DescriptorError::UnexpectedInMerge { found } => {
                let mut out = "Unexpected char ".to_owned();
                out.push(*found);
                out.append(", expected ] or ,");
                assert(out@ =~= report(self@));
                out
            },
        }
    }
}

impl View for FilesystemArgs {
    type V = Descriptor;

    open spec fn view(&self) -> Descriptor {
        Descriptor::Filesystem {
            root: self.root@,
            domain_root: self.domain_root@,
            enable_stats: self.enable_stats,
        }
    }
}

impl View for ProxyArgs {
    type V = Descriptor;

    open spec fn view(&self) -> Descriptor {
        Descriptor::Proxy { proxy_store: self.proxy_store@ }
    }
}

impl View for MergeArgs {
    type V = Descriptor;

    open spec fn view(&self) -> Descriptor
        decreases self,
    {
        Descriptor::Merge {
            settings: Seq::new(
                self.settings.len() as nat,
                |i: int|
                    if 0 <= i < self.settings.len() {
                        self.settings[i]@
                    } else {
                        Descriptor::Empty
                    },
            ),
        }
    }
}

impl View for StorageArgs {
    type V = Descriptor;

    open spec fn view(&self) -> Descriptor
        decreases self,
    {
        match self {
            StorageArgs::Default => Descriptor::Default,
            StorageArgs::Filesystem(fs) => fs@,
            StorageArgs::Proxy(px) => px@,
            StorageArgs::Empty => Descriptor::Empty,
            StorageArgs::Merge(ls) => ls@,
        }
    }
}

impl Clone for CliArgs {
    fn clone(&self) -> (r: Self)
        ensures
            r.cache_duration == self.cache_duration,
            r.storage@ == self.storage@,
    {
        CliArgs { cache_duration: self.cache_duration, storage: self.storage.clone() }
    }
}

impl Clone for FilesystemArgs {
    fn clone(&self) -> (r: Self)
        ensures
            r@ == self@,
    {
        FilesystemArgs {
            root: self.root.clone(),
            domain_root: self.domain_root.clone(),
            enable_stats: self.enable_stats,
        }
    }
}

impl Clone for ProxyArgs {
    fn clone(&self) -> (r: Self)
        ensures
            r@ == self@,
    {
        ProxyArgs { proxy_store: self.proxy_store.clone() }
    }
}

impl Clone for StorageArgs {
    fn clone(&self) -> (r: Self)
        ensures
            r@ == self@,
        decreases self,
    {
        match self {
            StorageArgs::Default => StorageArgs::Default,
            StorageArgs::Filesystem(fs) => StorageArgs::Filesystem(fs.clone()),
            StorageArgs::Proxy(px) => StorageArgs::Proxy(px.clone()),
            StorageArgs::Empty => StorageArgs::Empty,
            StorageArgs::Merge(ls) => StorageArgs::Merge(ls.clone()),
        }
    }
}

impl Clone for MergeArgs {
    fn clone(&self) -> (r: Self)
        ensures
            r@ == self@,
        decreases self,
    {
        let mut settings: Vec<StorageArgs> = Vec::new();
        let mut i: usize = 0;
        while i < self.settings.len()
            invariant
                i <= self.settings.len(),
                settings.len() == i,
                forall|j: int| 0 <= j < i ==> settings[j]@ == self.settings[j]@,
            decreases self.settings.len() - i,
        {
            let child = self.settings[i].clone();
            settings.push(child);
            i += 1;
        }
        let copy = MergeArgs { settings };
        assert(copy@->settings =~= self@->settings);
        copy
    }
}

/// The trees of a list of settings, one by one.
pub open spec fn trees(settings: Seq<StorageArgs>) -> Seq<Descriptor> {
    Seq::new(settings.len(), |i: int| settings[i]@)
}

/// Reads the character that opens a body.
fn open_section(chars: &mut Chars, wanted: char, section: Section) -> (r: Result<
    (),
    DescriptorError,
>)
    requires
        finite(*old(chars)),
    ensures
        finite(*final(chars)),
        match open_body((*old(chars)).remaining(), wanted, section) {
            Ok(body) => r is Ok && (*final(chars)).remaining() == body && budget(*final(chars))
                < budget(*old(chars)),
            Err(e) => r matches Err(x) && x@ == e,
        },
{
    match chars.next() {
        None => Err(DescriptorError::TooShort { section }),
        Some(c) => {
            if c != wanted {
                Err(DescriptorError::Expected { wanted, found: c })
            } else {
                Ok(())
            }
        },
    }
}

/// The view of a text that may be missing.
pub open spec fn text_view(text: Option<String>) -> Option<Seq<char>> {
    match text {
        Some(t) => Some(t@),
        None => None,
    }
}

/// The setting that a name stands for letter for letter, if any.
fn literal(name: &str) -> (r: Option<Key>)
    ensures
        r == literal_key(name@),
{
    proof {
        reveal_strlit("r");
        reveal_strlit("root");
        reveal_strlit("d");
        reveal_strlit("domain");
        reveal_strlit("s");
        reveal_strlit("stats");
        assert("r"@ =~= seq!['r']);
        assert("root"@ =~= seq!['r', 'o', 'o', 't']);
        assert("d"@ =~= seq!['d']);
        assert("domain"@ =~= seq!['d', 'o', 'm', 'a', 'i', 'n']);
        assert("s"@ =~= seq!['s']);
        assert("stats"@ =~= seq!['s', 't', 'a', 't', 's']);
    }
    if same_text(name, "r") || same_text(name, "root") {
        Some(Key::Root)
    } else if same_text(name, "d") || same_text(name, "domain") {
        Some(Key::Domain)
    } else if same_text(name, "s") || same_text(name, "stats") {
        Some(Key::Stats)
    } else {
        None
    }
}

/// The setting that a name stands for, or the name without the white space
/// around it where it stands for none.
fn classify(name: &str) -> (r: Result<Key, String>)
    ensures
        match key_of(name@) {
            Some(key) => r == Ok::<Key, String>(key),
            None => r matches Err(bare) && bare@ == crate::text::trimmed(name@),
        },
{
    match literal(name) {
        Some(key) => Ok(key),
        None => {
            let bare = trim(name);
            match literal(bare.as_str()) {
                Some(key) => Ok(key),
                None => Err(bare),
            }
        },
    }
}

/// Whether a value switches usage statistics on.
fn is_truthy(value: &str) -> (r: bool)
    ensures
        r == truthy(value@),
{
    proof {
        reveal_strlit("1");
        reveal_strlit("y");
        assert("1"@ =~= seq!['1']);
        assert("y"@ =~= seq!['y']);
    }
    same_text(value, "1") || same_text(value, "y")
}

/// The reader's place inside a directory body.
struct FsReader {
    root: Option<String>,
    domain: Option<String>,
    stats: bool,
    key: Option<String>,
    buffer: String,
    quoted: bool,
}

impl View for FsReader {
    type V = FsScan;

    closed spec fn view(&self) -> FsScan {
        FsScan {
            root: text_view(self.root),
            domain: text_view(self.domain),
            stats: self.stats,
            key: text_view(self.key),
            buffer: self.buffer@,
            quoted: self.quoted,
        }
    }
}

impl FsReader {
    fn new() -> (r: Self)
        ensures
            r@ == fs_start(),
    {
        FsReader {
            root: None,
            domain: None,
            stats: false,
            key: None,
            buffer: String::new(),
            quoted: false,
        }
    }

    /// Closes the pair whose name is `name` and whose value has been
    /// gathered.
    fn assign(self, name: String) -> (r: Result<Self, DescriptorError>)
        ensures
            match fs_assign(self@, name@, self@.buffer) {
                Ok(next) => r matches Ok(v) && v@ == next,
                Err(e) => r matches Err(x) && x@ == e,
            },
    {
        let FsReader { root, domain, stats, key, buffer, quoted } = self;
        match classify(name.as_str()) {
            Ok(Key::Root) => Ok(
                FsReader {
                    root: Some(buffer),
                    domain,
                    stats,
                    key: None,
                    buffer: String::new(),
                    quoted,
                },
            ),
            Ok(Key::Domain) => Ok(
                FsReader {
                    root,
                    domain: Some(buffer),
                    stats,
                    key: None,
                    buffer: String::new(),
                    quoted,
                },
            ),
            Ok(Key::Stats) => Ok(
                FsReader {
                    root,
                    domain,
                    stats: is_truthy(buffer.as_str()),
                    key: None,
                    buffer: String::new(),
                    quoted,
                },
            ),
            Err(bare) => Err(DescriptorError::UnknownKey { name: bare }),
        }
    }

    /// The settings that the pairs read so far describe.
    fn finish(self) -> (r: FilesystemArgs)
        ensures
            r@ == fs_result(self@),
    {
        FilesystemArgs {
            root: match self.root {
                Some(r) => r,
                None => "./store".to_owned(),
            },
            domain_root: match self.domain {
                Some(d) => d,
                None => "http://localhost:22252".to_owned(),
            },
            enable_stats: self.stats,
        }
    }
}

impl FilesystemArgs {
    /// Reads the body of a directory backend, `{` included, from the stream,
    /// and leaves the stream behind the closing `}`.
    pub fn from_descriptor(chars: &mut Chars) -> (r: Result<Self, DescriptorError>)
        requires
            finite(*old(chars)),
        ensures
            finite(*final(chars)),
            match parse_filesystem((*old(chars)).remaining()) {
                Ok((tree, rest)) => r matches Ok(v) && v@ == tree && (*final(chars)).remaining()
                    == rest && budget(*final(chars)) < budget(*old(chars)),
                Err(e) => r matches Err(x) && x@ == e,
            },
    {
        let ghost text = (*chars).remaining();
        match open_section(chars, '{', Section::Filesystem) {
            Err(e) => { return Err(e); },
            Ok(()) => {},
        }
        let ghost body = (*chars).remaining();
        let mut st = FsReader::new();
        loop
            invariant
                finite(*chars),
                budget(*chars) < budget(*old(chars)),
                text == (*old(chars)).remaining(),
                parse_filesystem(text) == scan_filesystem(body, fs_start()),
                scan_filesystem((*chars).remaining(), st@) == scan_filesystem(body, fs_start()),
            decreases budget(*chars),
        {
            match chars.next() {
                None => { return Err(DescriptorError::UnexpectedEnd); },
                Some(c) => {
                    if c == '\'' {
                        st.quoted = !st.quoted;
                    } else if st.quoted {
                        st.buffer.push(c);
                    } else if c == '}' {
                        match st.key.take() {
                            Some(name) => {
                                match st.assign(name) {
                                    Ok(done) => { return Ok(done.finish()); },
                                    Err(e) => { return Err(e); },
                                }
                            },
                            None => { return Ok(st.finish()); },
                        }
                    } else if c == '=' {
                        if st.key.is_some() {
                            return Err(DescriptorError::UnexpectedAssign);
                        }
                        let mut name = String::new();
                        std::mem::swap(&mut name, &mut st.buffer);
                        st.key = Some(name);
                    } else if c == ',' {
                        match st.key.take() {
                            Some(name) => {
                                match st.assign(name) {
                                    Ok(next) => { st = next; },
                                    Err(e) => { return Err(e); },
                                }
                            },
                            None => { return Err(DescriptorError::UnexpectedSeparator); },
                        }
                    } else {
                        st.buffer.push(c);
                    }
                },
            }
        }
    }

    /// The body of a directory backend as text.
    pub fn to_descriptor(self) -> (r: String)
        ensures
            r@ == serialize_body(self@),
    {
        proof {
            reveal_strlit("{root='");
            reveal_strlit("',domain='");
            reveal_strlit("',stats=");
            assert("{root='"@ =~= seq!['{', 'r', 'o', 'o', 't', '=', '\'']);
            assert("',domain='"@ =~= seq!['\'', ',', 'd', 'o', 'm', 'a', 'i', 'n', '=', '\'']);
            assert("',stats="@ =~= seq!['\'', ',', 's', 't', 'a', 't', 's', '=']);
        }
        let mut out = String::new();
        out.append("{root='");
        out.append(self.root.as_str());
        out.append("',domain='");
        out.append(self.domain_root.as_str());
        out.append("',stats=");
        out.push(if self.enable_stats { '1' } else { '0' });
        out.push('}');
        assert(seq!['f'] + out@ =~= serialize(self@));
        assert(out@ =~= serialize_body(self@));
        out
    }
}

impl ProxyArgs {
    /// Reads the body of a remote store, `{` included, from the stream, and
    /// leaves the stream behind the closing `}`.
    pub fn from_descriptor(chars: &mut Chars) -> (r: Result<Self, DescriptorError>)
        requires
            finite(*old(chars)),
        ensures
            finite(*final(chars)),
            match parse_proxy((*old(chars)).remaining()) {
                Ok((tree, rest)) => r matches Ok(v) && v@ == tree && (*final(chars)).remaining()
                    == rest && budget(*final(chars)) < budget(*old(chars)),
                Err(e) => r matches Err(x) && x@ == e,
            },
    {
        let ghost text = (*chars).remaining();
        match open_section(chars, '{', Section::Proxy) {
            Err(e) => { return Err(e); },
            Ok(()) => {},
        }
        let ghost body = (*chars).remaining();
        let mut buffer = String::new();
        loop
            invariant
                finite(*chars),
                budget(*chars) < budget(*old(chars)),
                text == (*old(chars)).remaining(),
                parse_proxy(text) == scan_proxy(body, Seq::empty()),
                scan_proxy((*chars).remaining(), buffer@) == scan_proxy(body, Seq::empty()),
            decreases budget(*chars),
        {
            match chars.next() {
                None => { return Err(DescriptorError::UnexpectedEnd); },
                Some(c) => {
                    if c == '}' {
                        let proxy_store = if buffer.as_str().is_empty() {
                            "https://plugins.deckbrew.xyz".to_owned()
                        } else {
                            buffer
                        };
                        return Ok(ProxyArgs { proxy_store });
                    }
                    buffer.push(c);
                },
            }
        }
    }

    /// The body of a remote store as text.
    pub fn to_descriptor(self) -> (r: String)
        ensures
            r@ == serialize_body(self@),
    {
        let mut out = String::new();
        out.push('{');
        out.append(self.proxy_store.as_str());
        out.push('}');
        assert(seq!['p'] + out@ =~= serialize(self@));
        assert(out@ =~= serialize_body(self@));
        out
    }
}

impl MergeArgs {
    /// Reads the body of a combination, `[` included, from the stream, and
    /// leaves the stream behind the closing `]`. Each child is read as a
    /// whole descriptor from the same stream.
    pub fn from_descriptor(chars: &mut Chars) -> (r: Result<Self, DescriptorError>)
        requires
            finite(*old(chars)),
        ensures
            finite(*final(chars)),
            match parse_merge((*old(chars)).remaining()) {
                Ok((tree, rest)) => r matches Ok(v) && v@ == tree && (*final(chars)).remaining()
                    == rest && budget(*final(chars)) < budget(*old(chars)),
                Err(e) => r matches Err(x) && x@ == e,
            },
        decreases budget(*old(chars)),
    {
        let ghost text = (*chars).remaining();
        match open_section(chars, '[', Section::Merge) {
            Err(e) => { return Err(e); },
            Ok(()) => {},
        }
        let mut others: Vec<StorageArgs> = Vec::new();
        assert(trees(others@) =~= Seq::empty());
        loop
            invariant
                finite(*chars),
                budget(*chars) < budget(*old(chars)),
                text == (*old(chars)).remaining(),
                parse_children((*chars).remaining(), trees(others@)) == parse_merge(text),
            decreases budget(*chars),
        {
            let ghost here = (*chars).remaining();
            match chars.next() {
                None => { return Err(DescriptorError::EmptyDescriptor); },
                Some(c) => {
                    if c != '(' {
                        return Err(DescriptorError::Expected { wanted: '(', found: c });
                    }
                },
            }
            let child = match StorageArgs::from_descriptor(chars) {
                Ok(child) => child,
                Err(e) => { return Err(e); },
            };
            let ghost after = (*chars).remaining();
            proof {
                crate::round_trip::lemma_parse_advances(here.drop_first());
            }
            match chars.next() {
                None => { return Err(DescriptorError::UnexpectedEnd); },
                Some(c) => {
                    if c != ')' {
                        return Err(DescriptorError::Expected { wanted: ')', found: c });
                    }
                },
            }
            match chars.next() {
                None => { return Err(DescriptorError::UnexpectedEnd); },
                Some(c) => {
                    proof {
                        assert(after.drop_first().drop_first() =~= after.skip(2));
                        assert(trees(others@.push(child)) =~= trees(others@).push(child@));
                    }
                    if c == ',' {
                        others.push(child);
                    } else if c == ']' {
                        others.push(child);
                        if others.len() < 2 {
                            return Err(DescriptorError::TooFewChildren);
                        }
                        let merged = MergeArgs { settings: others };
                        assert(merged@->settings =~= trees(others@));
                        return Ok(merged);
                    } else {
                        return Err(DescriptorError::UnexpectedInMerge { found: c });
                    }
                },
            }
        }
    }

    /// Appends the body of the combination to `out`.
    fn write_to(&self, out: &mut String)
        ensures
            final(out)@ == old(out)@ + seq!['['] + serialize_children(self@->settings, 0) + seq![
                ']',
            ],
        decreases self, 1nat,
    {
        out.push('[');
        let ghost start = out@;
        let ghost children = self@->settings;
        let mut i: usize = 0;
        while i < self.settings.len()
            invariant
                i <= self.settings.len(),
                children == self@->settings,
                children.len() == self.settings.len(),
                start + serialize_children(children, 0) == out@ + serialize_children(
                    children,
                    i as int,
                ),
            decreases self.settings.len() - i,
        {
            let ghost before = out@;
            out.push('(');
            self.settings[i].write_to(out);
            out.push(')');
            if i + 1 < self.settings.len() {
                out.push(',');
            }
            proof {
                assert(children[i as int] == self.settings[i as int]@);
                assert(out@ + serialize_children(children, i + 1) =~= before + serialize_children(
                    children,
                    i as int,
                ));
            }
            i += 1;
        }
        out.push(']');
    }

    /// The body of the combination as text.
    pub fn to_descriptor(self) -> (r: String)
        ensures
            r@ == serialize_body(self@),
    {
        let mut out = String::new();
        self.write_to(&mut out);
        assert(seq!['m'] + out@ =~= serialize(self@));
        assert(out@ =~= serialize_body(self@));
        out
    }

    /// The storages to combine, each as settings of its own. A combination
    /// of fewer than two is refused.
    pub fn generate_args(&self) -> (r: Result<Vec<StorageArgs>, DescriptorError>)
        ensures
            self.settings.len() >= 2 ==> (r matches Ok(v) && trees(v@) == self@->settings),
            self.settings.len() < 2 ==> (r matches Err(e) && e@ == Failure::TooFewChildren),
    {
        if self.settings.len() < 2 {
            return Err(DescriptorError::TooFewChildren);
        }
        let copy = self.clone();
        assert(trees(copy.settings@) =~= copy@->settings);
        Ok(copy.settings)
    }
}

impl StorageArgs {
    /// Reads one descriptor from the stream and leaves the stream behind
    /// its last character.
    ///
    /// The text is read by the rules of [`crate::grammar::parse`]: the
    /// settings returned are the tree that those rules give, and a text
    /// that they refuse is refused here with the same reason.
    pub fn from_descriptor(chars: &mut Chars) -> (r: Result<Self, DescriptorError>)
        requires
            finite(*old(chars)),
        ensures
            finite(*final(chars)),
            match parse((*old(chars)).remaining()) {
                Ok((tree, rest)) => r matches Ok(v) && v@ == tree && (*final(chars)).remaining()
                    == rest && budget(*final(chars)) < budget(*old(chars)),
                Err(e) => r matches Err(x) && x@ == e,
            },
        decreases budget(*old(chars)),
    {
        match chars.next() {
            None => Err(DescriptorError::EmptyDescriptor),
            Some(c) => {
                if c == 'd' || c == '_' {
                    Ok(StorageArgs::Default)
                } else if c == 'f' {
                    match FilesystemArgs::from_descriptor(chars) {
                        Ok(fs) => Ok(StorageArgs::Filesystem(fs)),
                        Err(e) => Err(e),
                    }
                } else if c == 'p' {
                    match ProxyArgs::from_descriptor(chars) {
                        Ok(px) => Ok(StorageArgs::Proxy(px)),
                        Err(e) => Err(e),
                    }
                } else if c == 'e' || c == ' ' {
                    Ok(StorageArgs::Empty)
                } else if c == 'm' || c == '+' {
                    match MergeArgs::from_descriptor(chars) {
                        Ok(ls) => Ok(StorageArgs::Merge(ls)),
                        Err(e) => Err(e),
                    }
                } else {
                    Err(DescriptorError::UnknownPrefix { found: c })
                }
            },
        }
    }

    /// Appends the text of the settings to `out`.
    fn write_to(&self, out: &mut String)
        ensures
            final(out)@ == old(out)@ + serialize(self@),
        decreases self, 0nat,
    {
        let ghost before = out@;
        match self {
            StorageArgs::Default => { out.push('d'); },
            StorageArgs::Filesystem(fs) => {
                out.push('f');
                let body = fs.clone().to_descriptor();
                out.append(body.as_str());
                assert(serialize(fs@) =~= seq!['f'] + serialize_body(fs@));
                assert(out@ =~= before + (seq!['f'] + body@));
            },
            StorageArgs::Proxy(px) => {
                out.push('p');
                let body = px.clone().to_descriptor();
                out.append(body.as_str());
                assert(serialize(px@) =~= seq!['p'] + serialize_body(px@));
                assert(out@ =~= before + (seq!['p'] + body@));
            },
            StorageArgs::Empty => { out.push('e'); },
            StorageArgs::Merge(ls) => {
                out.push('m');
                ls.write_to(out);
            },
        }
        assert(out@ =~= before + serialize(self@));
    }

    /// The settings as text: the form that [`StorageArgs::from_descriptor`]
    /// reads back.
    pub fn to_descriptor(self) -> (r: String)
        ensures
            r@ == serialize(self@),
    {
        let mut out = String::new();
        self.write_to(&mut out);
        out
    }
}

} // verus!
