//! Loading lists: format detection, domain maps and the addresses that a list's
//! URL may name.
use vstd::prelude::*;
use vstd::slice::*;
use vstd::string::*;
use vstd::utf8::encode_utf8;

use crate::blocklist::fst_map;
use crate::blocklist::fst_map::{byte_texts, file_of, file_or_refused, fst_opens, is_file, set_file, FstMap};
use crate::blocklist::parser;
use crate::blocklist::parser::{
    adblock_allowed, adblock_domains, adblock_stats, adblock_syntax, allow_stats, hosts_domains, plain_domains,
    AdblockStats,
};
use crate::blocklist::refresh::ListPolarity;
use crate::error::{config_error, FeriteError, Result};
use crate::ip::{ip_of_text, parse_ip_chars, IpAddr, Ipv4, Ipv6};
use crate::order;
use crate::order::{bytes_lt, sorted_unique, text_lt};
use crate::text;
use crate::text::{lines, texts, trim, trim_end_char};

verus! {

/// The formats of a list.
pub enum ListFormat {
    Adblock,
    Hosts,
    Plain,
    Empty,
}

/// The line that heads a filter list.
pub open spec fn adblock_header(line: Seq<char>) -> bool {
    "[Adblock"@.is_prefix_of(trim(line))
}

/// Some line heads a filter list.
pub open spec fn has_adblock_header(ls: Seq<Seq<char>>) -> bool {
    exists|i: int| 0 <= i < ls.len() && adblock_header(#[trigger] ls[i])
}

/// The format that one line of data reveals; none for an empty line or a comment.
pub open spec fn line_format(line: Seq<char>) -> Option<ListFormat> {
    let l = trim(line);
    if l.len() == 0 || l[0] == '!' || l[0] == '#' {
        None
    } else if "0.0.0.0"@.is_prefix_of(l) || "127.0.0.1"@.is_prefix_of(l) || "::1"@.is_prefix_of(l) {
        Some(ListFormat::Hosts)
    } else if adblock_syntax(l) {
        Some(ListFormat::Adblock)
    } else {
        Some(ListFormat::Plain)
    }
}

/// What the first line of data says of the format.
pub open spec fn first_format(ls: Seq<Seq<char>>) -> ListFormat
    decreases ls.len(),
{
    if ls.len() == 0 {
        ListFormat::Empty
    } else {
        match line_format(ls[0]) {
            Some(f) => f,
            None => first_format(ls.skip(1)),
        }
    }
}

/// The format of a list: a filter list where some line heads one, and else what the
/// first line of data says.
pub open spec fn list_format(ls: Seq<Seq<char>>) -> ListFormat {
    if has_adblock_header(ls) {
        ListFormat::Adblock
    } else {
        first_format(ls)
    }
}

/// What a list's content yields.
pub open spec fn parsed_as(content: Seq<char>, r: (Vec<String>, Option<AdblockStats>)) -> bool {
    match list_format(lines(content)) {
        ListFormat::Adblock => texts(r.0@) == adblock_domains(content) && r.1 is Some && adblock_stats(content, r.1->0),
        ListFormat::Hosts => texts(r.0@) == hosts_domains(content) && r.1 is None,
        ListFormat::Plain => texts(r.0@) == plain_domains(content) && r.1 is None,
        ListFormat::Empty => r.0@.len() == 0 && r.1 is None,
    }
}

/// Whether some line of a list heads a filter list.
fn finds_adblock_header(s: &[char]) -> (r: bool)
    ensures
        r == has_adblock_header(lines(s@)),
{
    let mut pos: usize = 0;
    let ghost mut done: Seq<Seq<char>> = seq![];
    assert(s@.skip(0) == s@);
    assert(done + lines(s@) == lines(s@));
    while pos < s.len()
        invariant
            pos <= s@.len(),
            lines(s@) == done + lines(s@.skip(pos as int)),
            forall|i: int| 0 <= i < done.len() ==> !adblock_header(#[trigger] done[i]),
        decreases s@.len() - pos,
    {
        let (end, next) = text::next_line(s, pos);
        let raw = slice_subrange(s, pos, end);
        proof {
            assert(done.push(raw@) + lines(s@.skip(next as int)) == done + (seq![raw@] + lines(s@.skip(next as int))));
            assert(lines(s@)[done.len() as int] == raw@);
        }
        if text::starts_with(text::trimmed(raw), "[Adblock") {
            assert(adblock_header(lines(s@)[done.len() as int]));
            return true;
        }
        proof {
            done = done.push(raw@);
        }
        pos = next;
    }
    assert(s@.skip(s@.len() as int) == Seq::<char>::empty());
    assert(done + lines(Seq::<char>::empty()) == done);
    false
}

/// Detects the format of a list and parses it into domain names.
///
/// A line `[Adblock ...]` anywhere marks a filter list. Otherwise the first line that
/// is neither empty nor a comment decides: a leading sink address means a hosts file,
/// filter syntax means a filter list, and anything else a plain list.
pub fn parse_content(content: &str) -> (r: (Vec<String>, Option<AdblockStats>))
    ensures
        parsed_as(content@, r),
{
    let cs = text::chars_of(content);
    let s = cs.as_slice();
    if finds_adblock_header(s) {
        let (domains, stats) = parser::parse_adblock(content);
        return (domains, Some(stats));
    }
    let mut pos: usize = 0;
    assert(s@.skip(0) == s@);
    while pos < s.len()
        invariant
            pos <= s@.len(),
            s@ == content@,
            !has_adblock_header(lines(s@)),
            first_format(lines(s@)) == first_format(lines(s@.skip(pos as int))),
        decreases s@.len() - pos,
    {
        let (end, next) = text::next_line(s, pos);
        let raw = slice_subrange(s, pos, end);
        let line = text::trimmed(raw);
        proof {
            let ls = lines(s@.skip(pos as int));
            assert(ls[0] == raw@);
            assert(ls.skip(1) == lines(s@.skip(next as int)));
        }
        pos = next;
        if line.len() == 0 || line[0] == '!' || line[0] == '#' {
            continue;
        }
        if text::starts_with(line, "0.0.0.0") || text::starts_with(line, "127.0.0.1") || text::starts_with(line, "::1") {
            return (parser::parse_hosts(content), None);
        }
        if parser::adblock_syntax_chars(line) {
            let (domains, stats) = parser::parse_adblock(content);
            return (domains, Some(stats));
        }
        return (parser::parse_plain(content), None);
    }
    assert(s@.skip(s@.len() as int) == Seq::<char>::empty());
    (Vec::new(), None)
}

/// What the content of an allow list yields: the exceptions of a filter list, and
/// the domains of a list in another format.
pub open spec fn allowed_as(content: Seq<char>, r: (Vec<String>, Option<AdblockStats>)) -> bool {
    match list_format(lines(content)) {
        ListFormat::Adblock => texts(r.0@) == adblock_allowed(content) && r.1 is Some && allow_stats(content, r.1->0),
        _ => parsed_as(content, r),
    }
}

/// Parses the content of a list that blocks or allows.
pub fn parse_content_for(content: &str, polarity: ListPolarity) -> (r: (Vec<String>, Option<AdblockStats>))
    ensures
        polarity is Block ==> parsed_as(content@, r),
        polarity is Allow ==> allowed_as(content@, r),
{
    let (domains, stats) = parse_content(content);
    match polarity {
        ListPolarity::Block => (domains, stats),
        ListPolarity::Allow => match stats {
            Some(_) => {
                let (domains, stats) = parser::parse_adblock_exceptions(content);
                (domains, Some(stats))
            },
            None => (domains, None),
        },
    }
}

/// The key of a listed domain: without trailing dots, encoded.
pub open spec fn domain_key(d: Seq<char>) -> Seq<u8> {
    encode_utf8(trim_end_char(d, '.'))
}

/// The keys of listed domains.
pub open spec fn domain_keys(ds: Seq<Seq<char>>) -> Set<Seq<u8>> {
    ds.map_values(|d: Seq<char>| domain_key(d)).to_set()
}

/// Builds the map file of domain names, in increasing order and each with the value
/// one. Trailing root dots are dropped and equal names collapse.
pub fn build_fst(domains: Vec<String>) -> (r: Result<Vec<u8>>)
    ensures
        r is Ok,
        set_file(r->Ok_0@, domain_keys(texts(domains@))),
{
    let mut names: Vec<String> = Vec::new();
    let mut i: usize = 0;
    while i < domains.len()
        invariant
            i <= domains@.len(),
            texts(names@) == texts(domains@).take(i as int).map_values(|d: Seq<char>| trim_end_char(d, '.')),
        decreases domains@.len() - i,
    {
        let cs = text::chars_of(domains[i].as_str());
        let name = text::string_of(text::trimmed_end_char(cs.as_slice(), '.'));
        let ghost before = names@;
        let ghost strip = |d: Seq<char>| trim_end_char(d, '.');
        names.push(name);
        proof {
            text::lemma_texts_push(before, name);
            assert(texts(domains@).take(i + 1) == texts(domains@).take(i as int).push(domains@[i as int]@));
            assert(texts(domains@).take(i + 1).map_values(strip) == texts(domains@).take(i as int).map_values(
                strip,
            ).push(strip(domains@[i as int]@)));
        }
        i = i + 1;
    }
    let ghost stripped = texts(names@);
    assert(texts(domains@).take(domains@.len() as int) == texts(domains@));
    let names = sorted_unique(names);
    let ghost sorted = texts(names@);
    let mut keys: Vec<Vec<u8>> = Vec::new();
    let mut k: usize = 0;
    while k < names.len()
        invariant
            k <= names@.len(),
            sorted == texts(names@),
            keys@.len() == k,
            forall|j: int| 0 <= j < k ==> (#[trigger] keys@[j])@ == encode_utf8(sorted[j]),
        decreases names@.len() - k,
    {
        keys.push(slice_to_vec(names[k].as_str().as_bytes()));
        k = k + 1;
    }
    proof {
        assert forall|i: int| 0 <= i < keys@.len() - 1 implies bytes_lt((#[trigger] keys@[i])@, keys@[i + 1]@) by {
            assert(text_lt(sorted[i], sorted[i + 1]));
        }
        let enc = |d: Seq<char>| encode_utf8(d);
        assert(byte_texts(keys@) =~= sorted.map_values(enc));
        lemma_mapped_sets(sorted, stripped, enc);
        assert(stripped.map_values(enc) =~= texts(domains@).map_values(|d: Seq<char>| domain_key(d)));
    }
    fst_map::write_keys(&keys)
}

/// Lists of the same texts have the same images.
proof fn lemma_mapped_sets(a: Seq<Seq<char>>, b: Seq<Seq<char>>, f: spec_fn(Seq<char>) -> Seq<u8>)
    requires
        a.to_set() == b.to_set(),
    ensures
        a.map_values(f).to_set() == b.map_values(f).to_set(),
{
    a.lemma_to_set_map_commutes(f);
    b.lemma_to_set_map_commutes(f);
}

/// Each of the slices is a map file with the keys of the same index.
pub open spec fn files_of(slices: Seq<Vec<u8>>, keys: Seq<Set<Seq<u8>>>) -> bool {
    keys.len() == slices.len() && forall|i: int| 0 <= i < slices.len() ==> file_of(slices[i]@, #[trigger] keys[i])
}

/// The union of some sets.
pub open spec fn union_of(keys: Seq<Set<Seq<u8>>>) -> Set<Seq<u8>> {
    Set::new(|k: Seq<u8>| exists|i: int| 0 <= i < keys.len() && (#[trigger] keys[i]).contains(k))
}

/// Merges map files into one. A single file is returned as it is; of several,
/// each must open.
pub fn merge_fsts(fst_slices: &Vec<Vec<u8>>) -> (r: Result<Vec<u8>>)
    requires
        fst_slices@.len() > 1 ==> forall|i: int|
            0 <= i < fst_slices@.len() ==> file_or_refused((#[trigger] fst_slices@[i])@),
    ensures
        fst_slices@.len() == 0 ==> r is Ok && set_file(r->Ok_0@, Set::<Seq<u8>>::empty()),
        fst_slices@.len() == 1 ==> r is Ok && r->Ok_0@ == fst_slices@[0]@,
        fst_slices@.len() > 1 ==> (r is Ok <==> forall|i: int|
            0 <= i < fst_slices@.len() ==> fst_opens((#[trigger] fst_slices@[i])@)),
        (forall|i: int| 0 <= i < fst_slices@.len() ==> is_file((#[trigger] fst_slices@[i])@)) ==> r is Ok,
        fst_slices@.len() > 1 && r is Ok ==> forall|keys: Seq<Set<Seq<u8>>>| #[trigger]
            files_of(fst_slices@, keys) ==> set_file(r->Ok_0@, union_of(keys)),
        r is Err ==> r->Err_0 is Fst,
{
    if fst_slices.len() == 1 {
        return Ok(slice_to_vec(fst_slices[0].as_slice()));
    }
    let mut maps: Vec<FstMap> = Vec::new();
    let mut i: usize = 0;
    while i < fst_slices.len()
        invariant
            i <= fst_slices@.len(),
            fst_slices@.len() != 1,
            fst_slices@.len() > 1 ==> forall|i: int|
                0 <= i < fst_slices@.len() ==> file_or_refused((#[trigger] fst_slices@[i])@),
            maps@.len() == i,
            forall|j: int| 0 <= j < i ==> fst_opens((#[trigger] fst_slices@[j])@),
            forall|j: int, keys: Set<Seq<u8>>|
                #![trigger maps@[j], file_of(fst_slices@[j]@, keys)]
                0 <= j < i && file_of(fst_slices@[j]@, keys) ==> maps@[j].keys() == keys,
        decreases fst_slices@.len() - i,
    {
        match fst_map::ram_fst(slice_to_vec(fst_slices[i].as_slice())) {
            Ok(m) => {
                maps.push(m);
            },
            Err(e) => {
                assert(!fst_opens(fst_slices@[i as int]@));
                assert(!is_file(fst_slices@[i as int]@));
                return Err(e);
            },
        }
        i = i + 1;
    }
    let r = fst_map::merge_maps(&maps);
    proof {
        let got = fst_map::union_keys(maps@);
        if fst_slices@.len() == 0 {
            assert(got =~= Set::<Seq<u8>>::empty());
        }
        assert forall|keys: Seq<Set<Seq<u8>>>| #[trigger] files_of(fst_slices@, keys) implies got == union_of(keys) by {
            assert forall|j: int| 0 <= j < maps@.len() implies (#[trigger] maps@[j]).keys() == keys[j] by {
                assert(file_of(fst_slices@[j]@, keys[j]));
            }
            assert forall|k: Seq<u8>| got.contains(k) == union_of(keys).contains(k) by {
                if got.contains(k) {
                    let j = choose|j: int| 0 <= j < maps@.len() && (#[trigger] maps@[j]).keys().contains(k);
                    assert(keys[j].contains(k));
                }
                if union_of(keys).contains(k) {
                    let j = choose|j: int| 0 <= j < keys.len() && (#[trigger] keys[j]).contains(k);
                    assert(maps@[j].keys().contains(k));
                }
            }
            assert(got =~= union_of(keys));
        }
    }
    r
}

/// Listed names as they are stored: without trailing dots.
pub open spec fn stored_names(ds: Seq<Seq<char>>) -> Set<Seq<char>> {
    ds.map_values(|d: Seq<char>| trim_end_char(d, '.')).to_set()
}

/// The file of a list is known from its names: neither their order, nor repeats, nor
/// trailing dots change a byte of it.
pub proof fn equal_names_build_equal_files(a: Seq<Seq<char>>, b: Seq<Seq<char>>, x: Seq<u8>, y: Seq<u8>)
    requires
        stored_names(a) == stored_names(b),
        set_file(x, domain_keys(a)),
        set_file(y, domain_keys(b)),
    ensures
        x == y,
{
    let strip = |d: Seq<char>| trim_end_char(d, '.');
    let enc = |d: Seq<char>| encode_utf8(d);
    let key = |d: Seq<char>| domain_key(d);
    lemma_mapped_sets(a.map_values(strip), b.map_values(strip), enc);
    assert(a.map_values(strip).map_values(enc) =~= a.map_values(key));
    assert(b.map_values(strip).map_values(enc) =~= b.map_values(key));
    fst_map::sets_have_one_file(x, y, domain_keys(a));
}

/// Listing names in another order, listing one of them again, or writing one with a
/// dot behind it changes nothing of the names that are stored.
pub proof fn listing_changes_no_names(a: Seq<Seq<char>>, b: Seq<Seq<char>>, i: int)
    requires
        0 <= i < a.len(),
        ({
            ||| a.to_multiset() == b.to_multiset()
            ||| b == a.push(a[i])
            ||| b == a.update(i, a[i].push('.'))
        }),
    ensures
        stored_names(a) == stored_names(b),
{
    let strip = |d: Seq<char>| trim_end_char(d, '.');
    let sa = a.map_values(strip);
    let sb = b.map_values(strip);
    if a.to_multiset() == b.to_multiset() {
        order::lemma_same_multiset(a, b);
        a.lemma_to_set_map_commutes(strip);
        b.lemma_to_set_map_commutes(strip);
    } else if b == a.push(a[i]) {
        assert(sb =~= sa.push(sa[i]));
        order::lemma_push_set(sa, sa[i]);
        assert(sa.contains(sa[i]));
        assert(sa.to_set().insert(sa[i]) =~= sa.to_set());
    } else {
        assert(a[i].push('.').drop_last() =~= a[i]);
        assert(sb =~= sa);
    }
}

/// Merging the files of two lists gives the very bytes of building both lists
/// together.
pub proof fn merging_is_building_together(
    a: Seq<Seq<char>>,
    b: Seq<Seq<char>>,
    merged: Seq<u8>,
    together: Seq<u8>,
)
    requires
        set_file(merged, union_of(seq![domain_keys(a), domain_keys(b)])),
        set_file(together, domain_keys(a + b)),
    ensures
        merged == together,
{
    let key = |d: Seq<char>| domain_key(d);
    let ks = seq![domain_keys(a), domain_keys(b)];
    let ka = a.map_values(key);
    let kb = b.map_values(key);
    let kab = (a + b).map_values(key);
    assert(kab =~= ka + kb);
    assert forall|k: Seq<u8>| union_of(ks).contains(k) == kab.to_set().contains(k) by {
        assert(ka.to_set().contains(k) == ka.contains(k));
        assert(kb.to_set().contains(k) == kb.contains(k));
        assert(kab.to_set().contains(k) == kab.contains(k));
        if ka.contains(k) {
            assert(ks[0].contains(k));
            let i = choose|i: int| 0 <= i < ka.len() && ka[i] == k;
            assert(kab[i] == k);
        }
        if kb.contains(k) {
            assert(ks[1].contains(k));
            let i = choose|i: int| 0 <= i < kb.len() && kb[i] == k;
            assert(kab[ka.len() + i] == k);
        }
        if kab.contains(k) {
            let i = choose|i: int| 0 <= i < kab.len() && kab[i] == k;
            if i < ka.len() {
                assert(ka[i] == k);
            } else {
                assert(kb[i - ka.len()] == k);
            }
        }
    }
    assert(union_of(ks) =~= domain_keys(a + b));
    fst_map::sets_have_one_file(merged, together, domain_keys(a + b));
}

/// The names of each of some lists, encoded.
pub open spec fn list_keys(lists: Seq<Vec<String>>) -> Seq<Set<Seq<u8>>> {
    lists.map_values(|l: Vec<String>| domain_keys(texts(l@)))
}

/// One map file of the domain names of several lists.
pub fn merge_domain_lists(lists: Vec<Vec<String>>) -> (r: Result<Vec<u8>>)
    ensures
        r is Ok,
        set_file(r->Ok_0@, union_of(list_keys(lists@))),
{
    let ghost all = lists@;
    let ghost keys = list_keys(lists@);
    let n = lists.len();
    let mut rest = lists;
    let mut files: Vec<Vec<u8>> = Vec::new();
    let mut i: usize = 0;
    while i < n
        invariant
            i <= n,
            n == all.len(),
            keys == list_keys(all),
            rest@.len() == n - i,
            forall|j: int| 0 <= j < n - i ==> #[trigger] rest@[j] == all[j],
            files@.len() == i,
            forall|j: int| 0 <= j < i ==> set_file((#[trigger] files@[j])@, keys[n - 1 - j]),
        decreases n - i,
    {
        if let Some(l) = rest.pop() {
            assert(l == all[n - 1 - i]);
            assert(keys[n - 1 - i] == domain_keys(texts(l@)));
            files.push(build_fst(l)?);
        }
        i = i + 1;
    }
    proof {
        let turned = keys.reverse();
        assert forall|j: int| 0 <= j < files@.len() implies is_file((#[trigger] files@[j])@) && file_of(
            files@[j]@,
            turned[j],
        ) by {
            fst_map::set_files_are_files(files@[j]@, keys[n - 1 - j]);
        }
        assert(files_of(files@, turned));
        assert forall|k: Seq<u8>| union_of(turned).contains(k) == union_of(keys).contains(k) by {
            if union_of(turned).contains(k) {
                let j = choose|j: int| 0 <= j < turned.len() && (#[trigger] turned[j]).contains(k);
                assert(keys[n - 1 - j].contains(k));
            }
            if union_of(keys).contains(k) {
                let j = choose|j: int| 0 <= j < keys.len() && (#[trigger] keys[j]).contains(k);
                assert(turned[n - 1 - j].contains(k));
            }
        }
        assert(union_of(turned) =~= union_of(keys));
        if n == 0 {
            assert(union_of(keys) =~= Set::<Seq<u8>>::empty());
        }
        if n == 1 {
            assert(set_file(files@[0]@, keys[0]));
            assert forall|k: Seq<u8>| keys[0].contains(k) == union_of(keys).contains(k) by {
                if keys[0].contains(k) {
                    assert(union_of(keys).contains(k));
                }
            }
            assert(union_of(keys) =~= keys[0]);
        }
    }
    merge_fsts(&files)
}

/// The set of the given domain names.
pub fn map_of_domains(domains: Vec<String>) -> (r: Result<FstMap>)
    ensures
        r is Ok,
        r->Ok_0.keys() == domain_keys(texts(domains@)),
{
    let ghost keys = domain_keys(texts(domains@));
    let bytes = build_fst(domains)?;
    proof {
        fst_map::set_files_are_files(bytes@, keys);
    }
    fst_map::ram_fst(bytes)
}

/// IPv4 addresses that a list's URL must not reach: loopback, private, link-local,
/// carrier-grade NAT, multicast, unspecified and broadcast.
pub open spec fn blocked_v4(v: Ipv4) -> bool {
    ||| v.a == 127
    ||| v.a == 10
    ||| (v.a == 172 && 16 <= v.b <= 31)
    ||| (v.a == 192 && v.b == 168)
    ||| (v.a == 169 && v.b == 254)
    ||| v == (Ipv4 { a: 0, b: 0, c: 0, d: 0 })
    ||| v == (Ipv4 { a: 255, b: 255, c: 255, d: 255 })
    ||| 224 <= v.a <= 239
    ||| (v.a == 100 && 64 <= v.b <= 127)
}

/// The IPv4 address inside an IPv4-mapped or IPv4-compatible address.
pub open spec fn embedded_v4(v: Ipv6) -> Option<Ipv4> {
    if v.s0 == 0 && v.s1 == 0 && v.s2 == 0 && v.s3 == 0 && v.s4 == 0 && (v.s5 == 0 || v.s5 == 0xffff) {
        Some(v.low_v4())
    } else {
        None
    }
}

/// Addresses that a list's URL must not reach.
pub open spec fn blocked_ip(ip: IpAddr) -> bool {
    match ip {
        IpAddr::V4(v) => blocked_v4(v),
        IpAddr::V6(v) => {
            ||| v == (Ipv6 { s0: 0, s1: 0, s2: 0, s3: 0, s4: 0, s5: 0, s6: 0, s7: 1 })
            ||| v == (Ipv6 { s0: 0, s1: 0, s2: 0, s3: 0, s4: 0, s5: 0, s6: 0, s7: 0 })
            ||| v.s0 >= 0xff00
            ||| 0xfc00 <= v.s0 <= 0xfdff
            ||| 0xfe80 <= v.s0 <= 0xfebf
            ||| (embedded_v4(v) is Some && blocked_v4(embedded_v4(v)->0))
        },
    }
}

fn is_blocked_v4(v: &Ipv4) -> (r: bool)
    ensures
        r == blocked_v4(*v),
{
    v.a == 127 || v.a == 10 || (v.a == 172 && 16 <= v.b && v.b <= 31) || (v.a == 192 && v.b == 168) || (v.a == 169
        && v.b == 254) || (v.a == 0 && v.b == 0 && v.c == 0 && v.d == 0) || (v.a == 255 && v.b == 255 && v.c == 255
        && v.d == 255) || (224 <= v.a && v.a <= 239) || (v.a == 100 && 64 <= v.b && v.b <= 127)
}

/// Whether the address is in a range that a submitted list URL must never reach.
pub fn is_blocked_ip(ip: &IpAddr) -> (r: bool)
    ensures
        r == blocked_ip(*ip),
{
    match ip {
        IpAddr::V4(v) => is_blocked_v4(v),
        IpAddr::V6(v) => {
            let high_zero = v.s0 == 0 && v.s1 == 0 && v.s2 == 0 && v.s3 == 0 && v.s4 == 0;
            (high_zero && v.s5 == 0 && v.s6 == 0 && v.s7 <= 1) || v.s0 >= 0xff00 || is_unique_local_v6(v)
                || is_unicast_link_local_v6(v) || (high_zero && (v.s5 == 0 || v.s5 == 0xffff) && is_blocked_v4(
                &v.low_ipv4(),
            ))
        },
    }
}

/// Whether the address lies in fc00::/7.
pub fn is_unique_local_v6(v: &Ipv6) -> (r: bool)
    ensures
        r == (0xfc00 <= v.s0 <= 0xfdff),
{
    0xfc00 <= v.s0 && v.s0 <= 0xfdff
}

/// Whether the address lies in fe80::/10.
pub fn is_unicast_link_local_v6(v: &Ipv6) -> (r: bool)
    ensures
        r == (0xfe80 <= v.s0 <= 0xfebf),
{
    0xfe80 <= v.s0 && v.s0 <= 0xfebf
}

/// What is said of a URL that is not acceptable.
pub open spec fn invalid_url_message() -> Seq<char> {
    "blocklist URL must be http(s) and must not point to a private or local address"@
}

fn invalid_url() -> (r: FeriteError)
    ensures
        config_error(r, invalid_url_message()),
{
    FeriteError::Config(
        "blocklist URL must be http(s) and must not point to a private or local address".to_string(),
    )
}

/// Scheme and host of a URL; none for text that is not a URL.
pub uninterp spec fn url_scheme_and_host(url: Seq<char>) -> Option<(Seq<char>, Option<Seq<char>>)>;

/// The view of an optional string.
pub open spec fn opt_text(s: Option<String>) -> Option<Seq<char>> {
    match s {
        Some(t) => Some(t@),
        None => None,
    }
}

/// `reqwest::Url::parse` takes a URL apart by the URL standard; `scheme` and
/// `host_str` read its parts. All three depend on the text alone.
#[verifier::external_body]
fn url_parse(url: &str) -> (r: Option<(String, Option<String>)>)
    ensures
        match r {
            Some(p) => url_scheme_and_host(url@) == Some((p.0@, opt_text(p.1))),
            None => url_scheme_and_host(url@) is None,
        },
{
    let u = reqwest::Url::parse(url).ok()?;
    Some((u.scheme().to_string(), u.host_str().map(|h| h.to_string())))
}

/// What is to be done with a list URL.
pub enum UrlCheck {
    /// The host is a public address.
    Accepted,
    /// The URL is refused.
    Refused,
    /// The host is a name, in lower case, that has to be resolved first.
    Resolve(String),
}

/// A host without the brackets of an IPv6 literal.
pub open spec fn unbracketed(host: Seq<char>) -> Seq<char> {
    if host.len() >= 2 && host[0] == '[' && host.last() == ']' {
        host.subrange(1, host.len() - 1)
    } else {
        host
    }
}

/// The rule for a URL with these parts.
pub open spec fn url_rule(parts: Option<(Seq<char>, Option<Seq<char>>)>, r: UrlCheck) -> bool {
    match parts {
        Some((scheme, Some(host))) if scheme == "http"@ || scheme == "https"@ => {
            let h = unbracketed(host);
            match ip_of_text(h) {
                Some(ip) => if blocked_ip(ip) {
                    r is Refused
                } else {
                    r is Accepted
                },
                None => if text::lower(h) == "localhost"@ || ".localhost"@.is_suffix_of(text::lower(h)) {
                    r is Refused
                } else {
                    r is Resolve && r->Resolve_0@ == text::lower(h)
                },
            }
        },
        _ => r is Refused,
    }
}

/// The view of a URL's parts.
pub open spec fn parts_view(parts: Option<(String, Option<String>)>) -> Option<(Seq<char>, Option<Seq<char>>)> {
    match parts {
        Some(p) => Some((p.0@, opt_text(p.1))),
        None => None,
    }
}

/// Decides on the parts of a list URL: only `http` and `https`, no private or
/// local address, and no `localhost`.
pub fn check_url_parts(parts: Option<(String, Option<String>)>) -> (r: UrlCheck)
    ensures
        url_rule(parts_view(parts), r),
{
    match parts {
        Some((scheme, Some(host))) => {
            if !text::str_same(scheme.as_str(), "http") && !text::str_same(scheme.as_str(), "https") {
                return UrlCheck::Refused;
            }
            let cs = text::chars_of(host.as_str());
            let n: usize = cs.len();
            let h = if n >= 2 && cs[0] == '[' && cs[n - 1] == ']' {
                slice_subrange(cs.as_slice(), 1, n - 1)
            } else {
                cs.as_slice()
            };
            assert(h@ == unbracketed(host@));
            match parse_ip_chars(h) {
                Some(ip) => if is_blocked_ip(&ip) {
                    UrlCheck::Refused
                } else {
                    UrlCheck::Accepted
                },
                None => {
                    let low = text::to_lower(h);
                    if text::is_text(low.as_slice(), "localhost") || text::ends_with(low.as_slice(), ".localhost") {
                        UrlCheck::Refused
                    } else {
                        UrlCheck::Resolve(text::string_of(low.as_slice()))
                    }
                },
            }
        },
        _ => UrlCheck::Refused,
    }
}

/// Checks a list URL that was submitted through the API, as far as that goes
/// without resolving a name: `None` where the URL is acceptable, or the name that
/// has to be resolved and then checked with [`check_resolved`].
pub fn validate_remote_list_url(url: &str) -> (r: Result<Option<String>>)
    ensures
        exists|c: UrlCheck| #[trigger]
            url_rule(url_scheme_and_host(url@), c) && match c {
                UrlCheck::Accepted => r is Ok && r->Ok_0 is None,
                UrlCheck::Refused => r is Err && config_error(r->Err_0, invalid_url_message()),
                UrlCheck::Resolve(name) => r is Ok && opt_text(r->Ok_0) == Some(name@),
            },
{
    let c = check_url_parts(url_parse(url));
    assert(url_rule(url_scheme_and_host(url@), c));
    match c {
        UrlCheck::Accepted => Ok(None),
        UrlCheck::Refused => Err(invalid_url()),
        UrlCheck::Resolve(name) => Ok(Some(name)),
    }
}

/// Some address of the list is in a blocked range.
pub open spec fn some_blocked(addrs: Seq<IpAddr>) -> bool {
    exists|i: int| 0 <= i < addrs.len() && blocked_ip(#[trigger] addrs[i])
}

fn any_blocked(addrs: &Vec<IpAddr>) -> (r: bool)
    ensures
        r == some_blocked(addrs@),
{
    let mut i: usize = 0;
    while i < addrs.len()
        invariant
            i <= addrs@.len(),
            forall|j: int| 0 <= j < i ==> !blocked_ip(#[trigger] addrs@[j]),
        decreases addrs@.len() - i,
    {
        if is_blocked_ip(&addrs[i]) {
            assert(some_blocked(addrs@));
            return true;
        }
        i = i + 1;
    }
    false
}

/// Checks the addresses that the host of a list URL resolved to: there must be
/// one, and every one of them must be public.
pub fn check_resolved(host: &str, lookup: core::result::Result<Vec<IpAddr>, String>) -> (r: Result<()>)
    ensures
        r is Ok <==> lookup is Ok && lookup->Ok_0@.len() > 0 && !some_blocked(lookup->Ok_0@),
        lookup is Err ==> config_error(
            r->Err_0,
            "could not resolve blocklist URL host '"@ + host@ + "': "@ + lookup->Err_0@,
        ),
        lookup is Ok && lookup->Ok_0@.len() == 0 ==> config_error(
            r->Err_0,
            "could not resolve blocklist URL host '"@ + host@ + "'"@,
        ),
        lookup is Ok && some_blocked(lookup->Ok_0@) ==> config_error(r->Err_0, invalid_url_message()),
{
    let mut message = "could not resolve blocklist URL host '".to_string();
    message.append(host);
    match lookup {
        Err(e) => {
            message.append("': ");
            message.append(e.as_str());
            Err(FeriteError::Config(message))
        },
        Ok(addrs) => {
            if addrs.len() == 0 {
                message.append("'");
                return Err(FeriteError::Config(message));
            }
            if any_blocked(&addrs) {
                return Err(invalid_url());
            }
            Ok(())
        },
    }
}

}
