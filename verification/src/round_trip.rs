//! What holds of the descriptor language: reading takes characters away,
//! and the text written for a tree reads back as that tree.

use vstd::prelude::*;
use crate::grammar::{
    fs_assign, fs_result, fs_start, parse, parse_children, proxy_result, representable,
    scan_filesystem, scan_proxy, serialize, serialize_children, well_formed, Descriptor, Failure,
    FsScan,
};

verus! {

/// Whether `rest` is what is left of `s` when some characters, at least
/// one, are taken from its front.
pub open spec fn left_of(rest: Seq<char>, s: Seq<char>) -> bool {
    rest.len() < s.len() && rest == s.skip(s.len() - rest.len())
}

proof fn lemma_left_of_tail(rest: Seq<char>, s: Seq<char>)
    requires
        s.len() > 0,
        rest == s.drop_first() || left_of(rest, s.drop_first()),
    ensures
        left_of(rest, s),
{
    let tail = s.drop_first();
    assert(tail.skip(tail.len() - rest.len()) =~= s.skip(s.len() - rest.len()));
    assert(tail.skip(0) =~= tail);
}

proof fn lemma_left_of_left(rest: Seq<char>, mid: Seq<char>, s: Seq<char>)
    requires
        left_of(rest, mid),
        left_of(mid, s),
    ensures
        left_of(rest, s),
{
    assert(mid.skip(mid.len() - rest.len()) =~= s.skip(s.len() - rest.len()));
}

proof fn lemma_scan_filesystem_advances(s: Seq<char>, st: FsScan)
    ensures
        scan_filesystem(s, st) matches Ok((_, rest)) ==> left_of(rest, s),
    decreases s.len(),
{
    if s.len() > 0 {
        lemma_scan_filesystem_steps(s, st);
        match scan_filesystem(s, st) {
            Ok((_, rest)) => {
                lemma_left_of_tail(rest, s);
            },
            Err(_) => {},
        }
    }
}

proof fn lemma_scan_filesystem_steps(s: Seq<char>, st: FsScan)
    requires
        s.len() > 0,
    ensures
        scan_filesystem(s, st) matches Ok((_, rest)) ==> rest == s.drop_first() || left_of(
            rest,
            s.drop_first(),
        ),
    decreases s.len(), 0nat,
{
    if s.len() > 0 {
        let c = s[0];
        let rest = s.drop_first();
        lemma_scan_filesystem_advances(rest, FsScan { quoted: !st.quoted, ..st });
        lemma_scan_filesystem_advances(rest, FsScan { buffer: st.buffer.push(c), ..st });
        lemma_scan_filesystem_advances(
            rest,
            FsScan { key: Some(st.buffer), buffer: Seq::empty(), ..st },
        );
        match st.key {
            Some(name) => match fs_assign(st, name, st.buffer) {
                Ok(next) => {
                    lemma_scan_filesystem_advances(rest, next);
                },
                Err(_) => {},
            },
            None => {},
        }
    }
}

proof fn lemma_scan_proxy_advances(s: Seq<char>, buffer: Seq<char>)
    ensures
        scan_proxy(s, buffer) matches Ok((_, rest)) ==> left_of(rest, s),
    decreases s.len(),
{
    if s.len() > 0 {
        if s[0] != '}' {
            lemma_scan_proxy_advances(s.drop_first(), buffer.push(s[0]));
        }
        match scan_proxy(s, buffer) {
            Ok((_, rest)) => {
                lemma_left_of_tail(rest, s);
            },
            Err(_) => {},
        }
    }
}

/// Reading a descriptor takes characters from the front of the text, at
/// least one, and leaves the rest of the text as it is.
pub proof fn lemma_parse_advances(s: Seq<char>)
    ensures
        parse(s) matches Ok((_, rest)) ==> left_of(rest, s),
    decreases s.len(), 1nat,
{
    if s.len() > 0 {
        let tail = s.drop_first();
        match parse(s) {
            Ok((_, rest)) => {
                if tail.len() > 0 {
                    lemma_scan_filesystem_advances(tail.drop_first(), fs_start());
                    lemma_scan_proxy_advances(tail.drop_first(), Seq::empty());
                    lemma_parse_children_advances(tail.drop_first(), Seq::empty());
                    if rest != tail {
                        lemma_left_of_tail(rest, tail);
                    }
                }
                lemma_left_of_tail(rest, s);
            },
            Err(_) => {},
        }
    }
}

proof fn lemma_parse_children_advances(s: Seq<char>, found: Seq<Descriptor>)
    ensures
        parse_children(s, found) matches Ok((_, rest)) ==> left_of(rest, s),
    decreases s.len(), 0nat,
{
    if s.len() > 0 && s[0] == '(' {
        let tail = s.drop_first();
        lemma_parse_advances(tail);
        match parse(tail) {
            Ok((child, after)) => {
                if after.len() >= 2 && after.len() < s.len() {
                    let next = after.skip(2);
                    lemma_left_of_tail(after, s);
                    assert(left_of(next, after)) by {
                        assert(after.skip(after.len() - next.len()) =~= next);
                    }
                    lemma_left_of_left(next, after, s);
                    lemma_parse_children_advances(next, found.push(child));
                    match parse_children(next, found.push(child)) {
                        Ok((_, rest)) => {
                            if rest != next {
                                lemma_left_of_left(rest, next, s);
                            }
                        },
                        Err(_) => {},
                    }
                }
            },
            Err(_) => {},
        }
    }
}

proof fn lemma_scan_filesystem_kind(s: Seq<char>, st: FsScan)
    ensures
        scan_filesystem(s, st) matches Ok((tree, _)) ==> tree is Filesystem,
    decreases s.len(),
{
    if s.len() > 0 {
        let c = s[0];
        let rest = s.drop_first();
        lemma_scan_filesystem_kind(rest, FsScan { quoted: !st.quoted, ..st });
        lemma_scan_filesystem_kind(rest, FsScan { buffer: st.buffer.push(c), ..st });
        lemma_scan_filesystem_kind(
            rest,
            FsScan { key: Some(st.buffer), buffer: Seq::empty(), ..st },
        );
        match st.key {
            Some(name) => match fs_assign(st, name, st.buffer) {
                Ok(next) => {
                    lemma_scan_filesystem_kind(rest, next);
                },
                Err(_) => {},
            },
            None => {},
        }
    }
}

proof fn lemma_scan_proxy_kind(s: Seq<char>, buffer: Seq<char>)
    ensures
        scan_proxy(s, buffer) matches Ok((tree, _)) ==> tree is Proxy,
    decreases s.len(),
{
    if s.len() > 0 && s[0] != '}' {
        lemma_scan_proxy_kind(s.drop_first(), buffer.push(s[0]));
    }
}

/// No text reads as a combination of fewer than two backends, at any depth
/// of the tree.
pub proof fn lemma_parse_well_formed(s: Seq<char>)
    ensures
        parse(s) matches Ok((tree, _)) ==> well_formed(tree),
    decreases s.len(), 1nat,
{
    if s.len() > 0 {
        let rest = s.drop_first();
        lemma_scan_filesystem_kind(rest.drop_first(), fs_start());
        lemma_scan_proxy_kind(rest.drop_first(), Seq::empty());
        if rest.len() > 0 {
            lemma_parse_children_well_formed(rest.drop_first(), Seq::empty());
        }
    }
}

proof fn lemma_parse_children_well_formed(s: Seq<char>, found: Seq<Descriptor>)
    requires
        forall|i: int| 0 <= i < found.len() ==> well_formed(#[trigger] found[i]),
    ensures
        parse_children(s, found) matches Ok((tree, _)) ==> well_formed(tree),
    decreases s.len(), 0nat,
{
    if s.len() > 0 && s[0] == '(' {
        lemma_parse_well_formed(s.drop_first());
        match parse(s.drop_first()) {
            Ok((child, after)) => {
                if after.len() >= 2 && after.len() < s.len() {
                    lemma_parse_children_well_formed(after.skip(2), found.push(child));
                }
            },
            Err(_) => {},
        }
    }
}

/// The first character of a text that is put together from one character
/// and a tail, and what follows it.
proof fn lemma_first(c: char, tail: Seq<char>)
    ensures
        (seq![c] + tail).len() > 0,
        (seq![c] + tail)[0] == c,
        (seq![c] + tail).drop_first() == tail,
{
    assert((seq![c] + tail).drop_first() =~= tail);
}

/// An address without `}` is gathered whole, up to the `}` behind it.
proof fn lemma_scan_proxy_address(address: Seq<char>, buffer: Seq<char>, tail: Seq<char>)
    requires
        !address.contains('}'),
    ensures
        scan_proxy(address + seq!['}'] + tail, buffer) == Ok::<(Descriptor, Seq<char>), Failure>(
            (proxy_result(buffer + address), tail),
        ),
    decreases address.len(),
{
    let s = address + seq!['}'] + tail;
    if address.len() == 0 {
        assert(s.drop_first() =~= tail);
        assert(buffer + address =~= buffer);
    } else {
        let shorter = address.drop_first();
        assert(address.contains(address[0]));
        assert forall|i: int| 0 <= i < shorter.len() implies shorter[i] != '}' by {
            assert(address.contains(address[i + 1]));
        }
        assert(s.drop_first() =~= shorter + seq!['}'] + tail);
        lemma_scan_proxy_address(shorter, buffer.push(address[0]), tail);
        assert(buffer.push(address[0]) + shorter =~= buffer + address);
    }
}

/// Whether the reader gathers every character of `word` as it stands.
spec fn gathered(word: Seq<char>, quoted: bool) -> bool {
    forall|i: int|
        0 <= i < word.len() ==> {
            &&& #[trigger] word[i] != '\''
            &&& quoted || (word[i] != '}' && word[i] != '=' && word[i] != ',')
        }
}

proof fn lemma_scan_gathers(word: Seq<char>, st: FsScan, tail: Seq<char>)
    requires
        gathered(word, st.quoted),
    ensures
        scan_filesystem(word + tail, st) == scan_filesystem(
            tail,
            FsScan { buffer: st.buffer + word, ..st },
        ),
    decreases word.len(),
{
    let s = word + tail;
    if word.len() == 0 {
        assert(s =~= tail);
        assert(st.buffer + word =~= st.buffer);
    } else {
        let shorter = word.drop_first();
        assert(word[0] != '\'');
        assert forall|i: int| 0 <= i < shorter.len() implies #[trigger] shorter[i] != '\'' && (
        st.quoted || (shorter[i] != '}' && shorter[i] != '=' && shorter[i] != ',')) by {
            assert(shorter[i] == word[i + 1]);
        }
        assert(s.drop_first() =~= shorter + tail);
        let next = FsScan { buffer: st.buffer.push(word[0]), ..st };
        lemma_scan_gathers(shorter, next, tail);
        assert(next.buffer + shorter =~= st.buffer + word);
    }
}

/// Reads `name='value'` and the character `close` behind it, given that the
/// reader stands at the start of a pair.
proof fn lemma_scan_pair(name: Seq<char>, value: Seq<char>, st: FsScan, tail: Seq<char>)
    requires
        gathered(name, false),
        !value.contains('\''),
        !st.quoted,
        st.key is None,
        st.buffer.len() == 0,
    ensures
        scan_filesystem(name + seq!['=', '\''] + value + seq!['\''] + tail, st)
            == scan_filesystem(
            tail,
            FsScan { key: Some(name), buffer: value, ..st },
        ),
{
    let after_value = seq!['\''] + tail;
    let after_open = value + after_value;
    let after_assign = seq!['\''] + after_open;
    let after_name = seq!['='] + after_assign;
    assert(name + seq!['=', '\''] + value + seq!['\''] + tail =~= name + after_name);
    lemma_scan_gathers(name, st, after_name);
    assert(st.buffer + name =~= name);
    let st1 = FsScan { buffer: name, ..st };
    lemma_first('=', after_assign);
    let st2 = FsScan { key: Some(name), buffer: Seq::empty(), ..st };
    assert(scan_filesystem(after_name, st1) == scan_filesystem(after_assign, st2));
    lemma_first('\'', after_open);
    let st3 = FsScan { quoted: true, ..st2 };
    assert(scan_filesystem(after_assign, st2) == scan_filesystem(after_open, st3));
    assert forall|i: int| 0 <= i < value.len() implies #[trigger] value[i] != '\'' by {
        assert(value.contains(value[i]));
    }
    lemma_scan_gathers(value, st3, after_value);
    assert(st3.buffer + value =~= value);
    let st4 = FsScan { buffer: value, ..st3 };
    lemma_first('\'', tail);
    assert(scan_filesystem(after_value, st4) == scan_filesystem(
        tail,
        FsScan { quoted: false, ..st4 },
    ));
}

/// The text of a directory backend reads back as that backend.
proof fn lemma_filesystem_round_trip(
    root: Seq<char>,
    domain_root: Seq<char>,
    enable_stats: bool,
    rest: Seq<char>,
)
    requires
        !root.contains('\''),
        !domain_root.contains('\''),
    ensures
        parse(serialize(Descriptor::Filesystem { root, domain_root, enable_stats }) + rest) == Ok::<
            (Descriptor, Seq<char>),
            Failure,
        >((Descriptor::Filesystem { root, domain_root, enable_stats }, rest)),
{
    let d = Descriptor::Filesystem { root, domain_root, enable_stats };
    let flag = if enable_stats { '1' } else { '0' };
    let k_root = seq!['r', 'o', 'o', 't'];
    let k_domain = seq!['d', 'o', 'm', 'a', 'i', 'n'];
    let k_stats = seq!['s', 't', 'a', 't', 's'];
    let t5 = seq!['}'] + rest;
    let t4 = seq![flag] + t5;
    let t3 = seq!['='] + t4;
    let t2 = seq![','] + (k_stats + t3);
    let t1 = seq![','] + (k_domain + seq!['=', '\''] + domain_root + seq!['\''] + t2);
    let body = k_root + seq!['=', '\''] + root + seq!['\''] + t1;
    let text = serialize(d) + rest;
    assert(text =~= seq!['f'] + (seq!['{'] + body));
    lemma_first('f', seq!['{'] + body);
    lemma_first('{', body);
    assert(parse(text) == scan_filesystem(body, fs_start()));
    let s0 = fs_start();
    assert(gathered(k_root, false));
    assert(gathered(k_domain, false));
    assert(gathered(k_stats, false));
    lemma_scan_pair(k_root, root, s0, t1);
    let s1 = FsScan { key: Some(k_root), buffer: root, ..s0 };
    lemma_first(',', k_domain + seq!['=', '\''] + domain_root + seq!['\''] + t2);
    let s2 = FsScan { root: Some(root), ..s0 };
    assert(fs_assign(s1, k_root, root) == Ok::<FsScan, Failure>(s2));
    lemma_scan_pair(k_domain, domain_root, s2, t2);
    let s3 = FsScan { key: Some(k_domain), buffer: domain_root, ..s2 };
    lemma_first(',', k_stats + t3);
    let s4 = FsScan { domain: Some(domain_root), ..s2 };
    assert(fs_assign(s3, k_domain, domain_root) == Ok::<FsScan, Failure>(s4));
    lemma_scan_gathers(k_stats, s4, t3);
    assert(s4.buffer + k_stats =~= k_stats);
    let s5 = FsScan { buffer: k_stats, ..s4 };
    lemma_first('=', t4);
    let s6 = FsScan { key: Some(k_stats), buffer: Seq::empty(), ..s4 };
    assert(scan_filesystem(t3, s5) == scan_filesystem(t4, s6));
    lemma_first(flag, t5);
    let s7 = FsScan { buffer: seq![flag], ..s6 };
    assert(Seq::<char>::empty().push(flag) =~= seq![flag]);
    assert(scan_filesystem(t4, s6) == scan_filesystem(t5, s7));
    lemma_first('}', rest);
    let s8 = FsScan { stats: enable_stats, key: None, buffer: Seq::empty(), ..s7 };
    assert(seq!['1'] =~= seq!['y'] ==> seq!['1'][0] == seq!['y'][0]);
    assert(seq!['0'] =~= seq!['1'] ==> seq!['0'][0] == seq!['1'][0]);
    assert(seq!['0'] =~= seq!['y'] ==> seq!['0'][0] == seq!['y'][0]);
    assert(fs_assign(s7, k_stats, seq![flag]) == Ok::<FsScan, Failure>(s8));
    assert(fs_result(s8) == d);
}

/// The text that [`serialize`] writes for a tree reads back as that tree,
/// whatever text follows it, and what follows is left unread.
pub proof fn lemma_round_trip_within(d: Descriptor, rest: Seq<char>)
    requires
        representable(d),
    ensures
        parse(serialize(d) + rest) == Ok::<(Descriptor, Seq<char>), Failure>((d, rest)),
    decreases d, 0nat,
{
    let text = serialize(d) + rest;
    match d {
        Descriptor::Default => {
            lemma_first('d', rest);
        },
        Descriptor::Empty => {
            lemma_first('e', rest);
        },
        Descriptor::Filesystem { root, domain_root, enable_stats } => {
            lemma_filesystem_round_trip(root, domain_root, enable_stats, rest);
        },
        Descriptor::Proxy { proxy_store } => {
            let body = proxy_store + seq!['}'] + rest;
            assert(text =~= seq!['p'] + (seq!['{'] + body));
            lemma_first('p', seq!['{'] + body);
            lemma_first('{', body);
            lemma_scan_proxy_address(proxy_store, Seq::empty(), rest);
            assert(Seq::<char>::empty() + proxy_store =~= proxy_store);
        },
        Descriptor::Merge { settings } => {
            let body = serialize_children(settings, 0) + seq![']'] + rest;
            assert(text =~= seq!['m'] + (seq!['['] + body));
            lemma_first('m', seq!['['] + body);
            lemma_first('[', body);
            assert(settings.take(0) =~= Seq::empty());
            lemma_children_round_trip(settings, 0, rest);
        },
    }
}

/// The text of the children from `from` on, with the closing `]` behind
/// it, completes the combination whose earlier children have been read.
proof fn lemma_children_round_trip(children: Seq<Descriptor>, from: int, rest: Seq<char>)
    requires
        children.len() >= 2,
        0 <= from < children.len(),
        forall|i: int| 0 <= i < children.len() ==> representable(#[trigger] children[i]),
    ensures
        parse_children(
            serialize_children(children, from) + seq![']'] + rest,
            children.take(from),
        ) == Ok::<(Descriptor, Seq<char>), Failure>(
            (Descriptor::Merge { settings: children }, rest),
        ),
    decreases children, children.len() - from,
{
    let child = children[from];
    let last = from + 1 == children.len();
    let more = if last {
        Seq::<char>::empty()
    } else {
        seq![','] + serialize_children(children, from + 1)
    };
    let closing = more + seq![']'] + rest;
    let after = seq![')'] + closing;
    let inner = serialize(child) + after;
    let text = serialize_children(children, from) + seq![']'] + rest;
    assert(text =~= seq!['('] + inner);
    lemma_first('(', inner);
    lemma_round_trip_within(child, after);
    lemma_parse_advances(inner);
    lemma_first(')', closing);
    assert(children.take(from).push(child) =~= children.take(from + 1));
    if last {
        assert(closing =~= seq![']'] + rest);
        lemma_first(']', rest);
        assert(after.skip(2) =~= rest);
        assert(children.take(from + 1) =~= children);
    } else {
        let tail = serialize_children(children, from + 1) + seq![']'] + rest;
        assert(closing =~= seq![','] + tail);
        lemma_first(',', tail);
        assert(after.skip(2) =~= tail);
        lemma_children_round_trip(children, from + 1, rest);
    }
}

/// Writing a tree and reading the text back gives the tree again, with no
/// text left over.
pub proof fn lemma_round_trip(d: Descriptor)
    requires
        representable(d),
    ensures
        parse(serialize(d)) == Ok::<(Descriptor, Seq<char>), Failure>((d, Seq::empty())),
{
    lemma_round_trip_within(d, Seq::empty());
    assert(serialize(d) + Seq::<char>::empty() =~= serialize(d));
}

} // verus!
