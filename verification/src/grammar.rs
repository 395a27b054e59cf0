//! The descriptor language, as mathematics.
//!
//! A descriptor is a short text that describes a tree of storage backends.
//! Its first character selects the kind of backend; a body follows for the
//! kinds that take settings:
//!
//! ```text
//! d | _                      the default backend
//! e | ' '                    the empty backend
//! f{key=value,...}           a directory on disk
//! p{url}                     a remote store
//! m[(child),(child),...]     several backends combined (also `+[...]`)
//! ```
//!
//! A directory body names its settings as `root` (or `r`), `domain` (or
//! `d`) and `stats` (or `s`); a setting that is not named keeps its
//! default. A value may stand between single quotes.
//!
//! The text is read one character at a time, left to right, and never
//! re-read. A child of a combination is read by the same rules as a whole
//! descriptor and takes exactly the characters of its own form, so the
//! brackets and commas of the combination have no meaning inside a child.
//! Inside a quoted value of a directory body every character but the quote
//! itself stands for itself, `{ } = ,` included; there is no way to write
//! a quote inside quotes. A remote store's address is not quoted: it ends
//! at the first `}`, and every other character stands for itself.
//!
//! [`serialize`] writes the one text form of a tree that [`parse`] reads
//! back as the same tree. It exists for the trees that are
//! [`representable`]: a value of a directory body holds no quote, an
//! address is not empty and holds no `}`, and a combination has two
//! children or more.

use vstd::prelude::*;
use crate::text::trimmed;

verus! {

/// The tree that a descriptor text stands for.
pub ghost enum Descriptor {
    Default,
    Filesystem { root: Seq<char>, domain_root: Seq<char>, enable_stats: bool },
    Proxy { proxy_store: Seq<char> },
    Empty,
    Merge { settings: Seq<Descriptor> },
}

/// The part of a descriptor in which reading stopped.
#[derive(Clone, Copy, Debug, PartialEq, Eq, Structural)]
pub enum Section {
    Filesystem,
    Proxy,
    Merge,
}

/// Why a text is not a descriptor.
pub ghost enum Failure {
    /// There was no text at all where a descriptor should start.
    EmptyDescriptor,
    /// The first character selects no kind of backend.
    UnknownPrefix { found: char },
    /// The text ended where the body of a section should open.
    TooShort { section: Section },
    /// One particular character was due and another one stood there.
    Expected { wanted: char, found: char },
    /// A second `=` before the pair was closed.
    UnexpectedAssign,
    /// A `,` closed a pair that has no `=`.
    UnexpectedSeparator,
    /// The name before `=` is none of the known ones.
    UnknownKey { name: Seq<char> },
    /// The text ended inside a body.
    UnexpectedEnd,
    /// A combination of fewer than two backends.
    TooFewChildren,
    /// Something other than `,` or `]` followed a child.
    UnexpectedInMerge { found: char },
}

/// The name of a section in a report.
pub open spec fn section_name(section: Section) -> Seq<char> {
    match section {
        Section::Filesystem => "Filesystem"@,
        Section::Proxy => "Proxy"@,
        Section::Merge => "Merge"@,
    }
}

/// The report of a failure, for a person to read: it names the character
/// that was not expected and the part of the descriptor it stood in.
pub open spec fn report(failure: Failure) -> Seq<char> {
    match failure {
        Failure::EmptyDescriptor => "Empty storage descriptor"@,
        Failure::UnknownPrefix { found } => "Unexpected char "@ + seq![found]
            + ", expected a descriptor prefix from {d f p e m}"@,
        Failure::TooShort { section } => section_name(section) + " descriptor too short"@,
        Failure::Expected { wanted, found } => "Expected "@ + seq![wanted] + ", got "@ + seq![
            found,
        ],
        Failure::UnexpectedAssign => "Unexpected = in filesystem descriptor"@,
        Failure::UnexpectedSeparator => "Unexpected , in filesystem descriptor"@,
        Failure::UnknownKey { name } => "Unexpected variable name "@ + name
            + " in filesystem descriptor"@,
        Failure::UnexpectedEnd => "Unexpected end of descriptor"@,
        Failure::TooFewChildren => "Merge args too short (0-1 descriptors is useless!)"@,
        Failure::UnexpectedInMerge { found } => "Unexpected char "@ + seq![found]
            + ", expected ] or ,"@,
    }
}

/// A tree and the text that follows it, or the reason there is none.
pub type Reading = Result<(Descriptor, Seq<char>), Failure>;

/// The settings a directory body can name.
#[derive(Clone, Copy, Debug, PartialEq, Eq, Structural)]
pub enum Key {
    Root,
    Domain,
    Stats,
}

pub open spec fn default_root() -> Seq<char> {
    "./store"@
}

pub open spec fn default_domain() -> Seq<char> {
    "http://localhost:22252"@
}

pub open spec fn default_store() -> Seq<char> {
    "https://plugins.deckbrew.xyz"@
}

/// The names of the settings, letter for letter.
pub open spec fn literal_key(name: Seq<char>) -> Option<Key> {
    if name == seq!['r'] || name == seq!['r', 'o', 'o', 't'] {
        Some(Key::Root)
    } else if name == seq!['d'] || name == seq!['d', 'o', 'm', 'a', 'i', 'n'] {
        Some(Key::Domain)
    } else if name == seq!['s'] || name == seq!['s', 't', 'a', 't', 's'] {
        Some(Key::Stats)
    } else {
        None
    }
}

/// The setting that a name stands for; white space around the name does
/// not count.
pub open spec fn key_of(name: Seq<char>) -> Option<Key> {
    match literal_key(name) {
        Some(key) => Some(key),
        None => literal_key(trimmed(name)),
    }
}

/// The values that switch usage statistics on.
pub open spec fn truthy(value: Seq<char>) -> bool {
    value == seq!['1'] || value == seq!['y']
}

/// Where the reader stands inside a directory body.
pub ghost struct FsScan {
    pub root: Option<Seq<char>>,
    pub domain: Option<Seq<char>>,
    pub stats: bool,
    /// The name of the pair being read, once its `=` has been seen.
    pub key: Option<Seq<char>>,
    /// The characters gathered since the last `=` or `,`.
    pub buffer: Seq<char>,
    /// Whether the reader is between two quotes.
    pub quoted: bool,
}

pub open spec fn fs_start() -> FsScan {
    FsScan {
        root: None,
        domain: None,
        stats: false,
        key: None,
        buffer: Seq::empty(),
        quoted: false,
    }
}

/// Closes the pair `name=value`.
pub open spec fn fs_assign(st: FsScan, name: Seq<char>, value: Seq<char>) -> Result<
    FsScan,
    Failure,
> {
    match key_of(name) {
        Some(Key::Root) => Ok(FsScan { root: Some(value), key: None, buffer: Seq::empty(), ..st }),
        Some(Key::Domain) => Ok(
            FsScan { domain: Some(value), key: None, buffer: Seq::empty(), ..st },
        ),
        Some(Key::Stats) => Ok(
            FsScan { stats: truthy(value), key: None, buffer: Seq::empty(), ..st },
        ),
        None => Err(Failure::UnknownKey { name: trimmed(name) }),
    }
}

/// The backend that a finished directory body describes.
pub open spec fn fs_result(st: FsScan) -> Descriptor {
    Descriptor::Filesystem {
        root: match st.root {
            Some(r) => r,
            None => default_root(),
        },
        domain_root: match st.domain {
            Some(d) => d,
            None => default_domain(),
        },
        enable_stats: st.stats,
    }
}

/// Reads a directory body from behind its `{` up to and including its `}`.
///
/// A quote switches quoting on or off and is itself dropped. Between quotes
/// every character is gathered as it is. Elsewhere `=` ends a name, `,` ends
/// a pair, and `}` ends the last pair and the body; what stands before `}`
/// without a `=` is passed over.
pub open spec fn scan_filesystem(s: Seq<char>, st: FsScan) -> Reading
    decreases s.len(),
{
    if s.len() == 0 {
        Err(Failure::UnexpectedEnd)
    } else {
        let c = s[0];
        let rest = s.drop_first();
        if c == '\'' {
            scan_filesystem(rest, FsScan { quoted: !st.quoted, ..st })
        } else if st.quoted {
            scan_filesystem(rest, FsScan { buffer: st.buffer.push(c), ..st })
        } else if c == '}' {
            match st.key {
                Some(name) => match fs_assign(st, name, st.buffer) {
                    Ok(done) => Ok((fs_result(done), rest)),
                    Err(e) => Err(e),
                },
                None => Ok((fs_result(st), rest)),
            }
        } else if c == '=' {
            if st.key is Some {
                Err(Failure::UnexpectedAssign)
            } else {
                scan_filesystem(
                    rest,
                    FsScan { key: Some(st.buffer), buffer: Seq::empty(), ..st },
                )
            }
        } else if c == ',' {
            match st.key {
                Some(name) => match fs_assign(st, name, st.buffer) {
                    Ok(next) => scan_filesystem(rest, next),
                    Err(e) => Err(e),
                },
                None => Err(Failure::UnexpectedSeparator),
            }
        } else {
            scan_filesystem(rest, FsScan { buffer: st.buffer.push(c), ..st })
        }
    }
}

/// Reads the opening character of a body.
pub open spec fn open_body(s: Seq<char>, wanted: char, section: Section) -> Result<
    Seq<char>,
    Failure,
> {
    if s.len() == 0 {
        Err(Failure::TooShort { section })
    } else if s[0] != wanted {
        Err(Failure::Expected { wanted, found: s[0] })
    } else {
        Ok(s.drop_first())
    }
}

/// Reads a directory body, `{` included.
pub open spec fn parse_filesystem(s: Seq<char>) -> Reading {
    match open_body(s, '{', Section::Filesystem) {
        Ok(body) => scan_filesystem(body, fs_start()),
        Err(e) => Err(e),
    }
}

/// The remote store that an address stands for: an empty address is the
/// public default.
pub open spec fn proxy_result(address: Seq<char>) -> Descriptor {
    Descriptor::Proxy {
        proxy_store: if address.len() == 0 {
            default_store()
        } else {
            address
        },
    }
}

/// Reads a remote store's address up to and including the first `}`.
pub open spec fn scan_proxy(s: Seq<char>, buffer: Seq<char>) -> Reading
    decreases s.len(),
{
    if s.len() == 0 {
        Err(Failure::UnexpectedEnd)
    } else if s[0] == '}' {
        Ok((proxy_result(buffer), s.drop_first()))
    } else {
        scan_proxy(s.drop_first(), buffer.push(s[0]))
    }
}

/// Reads a remote store's body, `{` included.
pub open spec fn parse_proxy(s: Seq<char>) -> Reading {
    match open_body(s, '{', Section::Proxy) {
        Ok(body) => scan_proxy(body, Seq::empty()),
        Err(e) => Err(e),
    }
}

/// Reads a whole descriptor from the start of `s`.
pub open spec fn parse(s: Seq<char>) -> Reading
    decreases s.len(), 1nat,
{
    if s.len() == 0 {
        Err(Failure::EmptyDescriptor)
    } else {
        let c = s[0];
        let rest = s.drop_first();
        if c == 'd' || c == '_' {
            Ok((Descriptor::Default, rest))
        } else if c == 'f' {
            parse_filesystem(rest)
        } else if c == 'p' {
            parse_proxy(rest)
        } else if c == 'e' || c == ' ' {
            Ok((Descriptor::Empty, rest))
        } else if c == 'm' || c == '+' {
            parse_merge(rest)
        } else {
            Err(Failure::UnknownPrefix { found: c })
        }
    }
}

/// Reads the body of a combination, `[` included.
pub open spec fn parse_merge(s: Seq<char>) -> Reading
    decreases s.len(), 1nat,
{
    match open_body(s, '[', Section::Merge) {
        Ok(body) => parse_children(body, Seq::empty()),
        Err(e) => Err(e),
    }
}

/// Reads the children of a combination, one `(child)` after the other, with
/// `found` holding those already read. A `,` asks for one more child and a
/// `]` ends the list.
pub open spec fn parse_children(s: Seq<char>, found: Seq<Descriptor>) -> Reading
    decreases s.len(), 0nat,
{
    if s.len() == 0 {
        Err(Failure::EmptyDescriptor)
    } else if s[0] != '(' {
        Err(Failure::Expected { wanted: '(', found: s[0] })
    } else {
        match parse(s.drop_first()) {
            Err(e) => Err(e),
            Ok((child, after)) => {
                if after.len() >= s.len() {
                    Err(Failure::UnexpectedEnd)
                } else if after.len() == 0 {
                    Err(Failure::UnexpectedEnd)
                } else if after[0] != ')' {
                    Err(Failure::Expected { wanted: ')', found: after[0] })
                } else if after.len() == 1 {
                    Err(Failure::UnexpectedEnd)
                } else if after[1] == ',' {
                    parse_children(after.skip(2), found.push(child))
                } else if after[1] == ']' {
                    if found.len() + 1 < 2 {
                        Err(Failure::TooFewChildren)
                    } else {
                        Ok((Descriptor::Merge { settings: found.push(child) }, after.skip(2)))
                    }
                } else {
                    Err(Failure::UnexpectedInMerge { found: after[1] })
                }
            },
        }
    }
}

/// The text of a tree: the one form of it that [`parse`] reads back.
pub open spec fn serialize(d: Descriptor) -> Seq<char>
    decreases d, 0nat,
{
    match d {
        Descriptor::Default => seq!['d'],
        Descriptor::Filesystem { root, domain_root, enable_stats } => seq!['f', '{']
            + seq!['r', 'o', 'o', 't', '=', '\''] + root
            + seq!['\'', ',', 'd', 'o', 'm', 'a', 'i', 'n', '=', '\''] + domain_root
            + seq!['\'', ',', 's', 't', 'a', 't', 's', '=']
            + seq![if enable_stats { '1' } else { '0' }, '}'],
        Descriptor::Proxy { proxy_store } => seq!['p', '{'] + proxy_store + seq!['}'],
        Descriptor::Empty => seq!['e'],
        Descriptor::Merge { settings } => seq!['m', '['] + serialize_children(settings, 0)
            + seq![']'],
    }
}

/// The body of a tree's text: the text without its first character, which
/// says of what kind the tree is.
pub open spec fn serialize_body(d: Descriptor) -> Seq<char> {
    serialize(d).drop_first()
}

/// The text of the children from the one at `from` on: each in round
/// brackets, with a comma between two of them.
pub open spec fn serialize_children(children: Seq<Descriptor>, from: int) -> Seq<char>
    decreases children, children.len() - from,
{
    if 0 <= from < children.len() {
        seq!['('] + serialize(children[from]) + seq![')'] + if from + 1 < children.len() {
            seq![','] + serialize_children(children, from + 1)
        } else {
            Seq::empty()
        }
    } else {
        Seq::empty()
    }
}

/// The trees whose text reads back as the same tree. A quoted value cannot
/// hold a quote, an address cannot hold `}` nor be empty, and a combination
/// has at least two children.
pub open spec fn representable(d: Descriptor) -> bool
    decreases d,
{
    match d {
        Descriptor::Default => true,
        Descriptor::Filesystem { root, domain_root, enable_stats } => !root.contains('\'')
            && !domain_root.contains('\''),
        Descriptor::Proxy { proxy_store } => proxy_store.len() > 0 && !proxy_store.contains('}'),
        Descriptor::Empty => true,
        Descriptor::Merge { settings } => settings.len() >= 2 && forall|i: int|
            0 <= i < settings.len() ==> representable(#[trigger] settings[i]),
    }
}

/// Whether every combination in the tree has at least two children.
pub open spec fn well_formed(d: Descriptor) -> bool
    decreases d,
{
    match d {
        Descriptor::Merge { settings } => settings.len() >= 2 && forall|i: int|
            0 <= i < settings.len() ==> well_formed(#[trigger] settings[i]),
        _ => true,
    }
}

} // verus!
