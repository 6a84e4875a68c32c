//! Domain maps: immutable sets of encoded names, built and searched by the
//! `fst` crate.
use fst::Streamer;
use vstd::prelude::*;
use vstd::slice::*;
use vstd::string::*;
use vstd::utf8::encode_utf8;

use crate::error::{FeriteError, Result};
use crate::order;
use crate::order::{bytes_lt, rising};

verus! {

/// A searchable map of the `fst` crate.
#[verifier::external_type_specification]
#[verifier::external_body]
#[verifier::reject_recursive_types(D)]
pub struct ExFstMap<D>(fst::Map<D>);

/// A map under construction.
#[verifier::external_type_specification]
#[verifier::external_body]
#[verifier::reject_recursive_types(W)]
pub struct ExFstMapBuilder<W>(fst::MapBuilder<W>);

/// The reason for which the `fst` crate refused an operation.
#[verifier::external_type_specification]
#[verifier::external_body]
pub struct ExFstError(fst::Error);

/// The keys of a map.
pub uninterp spec fn fst_keys(m: fst::Map<Vec<u8>>) -> Set<Seq<u8>>;

/// The map was read from bytes that a builder wrote.
pub uninterp spec fn fst_intact(m: fst::Map<Vec<u8>>) -> bool;

/// What was inserted into a builder, in order.
pub uninterp spec fn fst_builder_entries(b: fst::MapBuilder<Vec<u8>>) -> Seq<(Seq<u8>, u64)>;

/// The bytes that a builder writes for the entries inserted into it.
pub uninterp spec fn fst_file(entries: Seq<(Seq<u8>, u64)>) -> Seq<u8>;

/// Whether bytes have the frame of a map file.
pub uninterp spec fn fst_opens(bytes: Seq<u8>) -> bool;

/// Each entry's key is greater than the one before it.
pub open spec fn increasing(entries: Seq<(Seq<u8>, u64)>) -> bool {
    forall|i: int| 0 <= i < entries.len() - 1 ==> bytes_lt((#[trigger] entries[i]).0, entries[i + 1].0)
}

/// The keys of a list of entries.
pub open spec fn entry_keys(entries: Seq<(Seq<u8>, u64)>) -> Set<Seq<u8>> {
    entries.map_values(|e: (Seq<u8>, u64)| e.0).to_set()
}

/// The bytes are a map file with exactly these keys.
pub open spec fn file_of(bytes: Seq<u8>, keys: Set<Seq<u8>>) -> bool {
    exists|entries: Seq<(Seq<u8>, u64)>|
        increasing(entries) && entry_keys(entries) == keys && bytes == #[trigger] fst_file(entries)
}

/// The entries that a list of keys stands for: each key with the value one.
pub open spec fn keyed_entries(keys: Seq<Seq<u8>>) -> Seq<(Seq<u8>, u64)> {
    keys.map_values(|k: Seq<u8>| (k, 1u64))
}

/// The bytes are the map file of a set: that of its members in increasing order, each
/// with the value one.
pub open spec fn set_file(bytes: Seq<u8>, keys: Set<Seq<u8>>) -> bool {
    exists|ks: Seq<Seq<u8>>| rising(ks) && ks.to_set() == keys && bytes == fst_file(#[trigger] keyed_entries(ks))
}

/// The bytes are a map file.
pub open spec fn is_file(bytes: Seq<u8>) -> bool {
    exists|keys: Set<Seq<u8>>| #[trigger] file_of(bytes, keys)
}

/// The number that eight bytes from `i` on hold, the least significant first.
pub open spec fn le64(bytes: Seq<u8>, i: int) -> int {
    bytes[i] + 0x100 * bytes[i + 1] + 0x1_0000 * bytes[i + 2] + 0x100_0000 * bytes[i + 3] + 0x1_0000_0000 * bytes[i + 4]
        + 0x100_0000_0000 * bytes[i + 5] + 0x1_0000_0000_0000 * bytes[i + 6] + 0x100_0000_0000_0000 * bytes[i + 7]
}

/// The two numbers at the end of the frame of a map file, the count of keys and the
/// address of the root, fit the machine's pointers. Before its third version the
/// frame ends the file; since then a checksum of four bytes follows.
pub open spec fn frame_fits(bytes: Seq<u8>) -> bool {
    bytes.len() >= 36 && 1 <= le64(bytes, 0) <= 3 ==> {
        let end = if le64(bytes, 0) <= 2 {
            bytes.len() as int
        } else {
            bytes.len() - 4
        };
        le64(bytes, end - 8) <= usize::MAX && le64(bytes, end - 16) <= usize::MAX
    }
}

/// The bytes are a map file, or bytes that are plainly none.
pub open spec fn file_or_refused(bytes: Seq<u8>) -> bool {
    is_file(bytes) || (frame_fits(bytes) && !fst_opens(bytes))
}

/// `MapBuilder::memory` starts a map without entries.
#[verifier::external_body]
fn builder_new() -> (b: fst::MapBuilder<Vec<u8>>)
    ensures
        fst_builder_entries(b) == Seq::<(Seq<u8>, u64)>::empty(),
{
    fst::MapBuilder::memory()
}

/// `MapBuilder::insert` appends an entry. It refuses a key that is not greater
/// than the last one, and then changes nothing; writing to memory does not fail.
#[verifier::external_body]
fn builder_insert(b: &mut fst::MapBuilder<Vec<u8>>, key: &[u8], value: u64) -> (r: core::result::Result<
    (),
    fst::Error,
>)
    ensures
        r is Ok <==> fst_builder_entries(*old(b)).len() == 0 || bytes_lt(fst_builder_entries(*old(b)).last().0, key@),
        r is Ok ==> fst_builder_entries(*final(b)) == fst_builder_entries(*old(b)).push((key@, value)),
        r is Err ==> fst_builder_entries(*final(b)) == fst_builder_entries(*old(b)),
{
    b.insert(key, value)
}

/// `MapBuilder::into_inner` writes the map file of the entries. Writing to memory
/// does not fail.
#[verifier::external_body]
fn builder_finish(b: fst::MapBuilder<Vec<u8>>) -> (r: core::result::Result<Vec<u8>, fst::Error>)
    ensures
        r is Ok,
        r->Ok_0@ == fst_file(fst_builder_entries(b)),
{
    b.into_inner()
}

/// `Map::new` opens a map file. Of bytes that a builder wrote it makes a map with
/// the keys that were inserted. Of other bytes it checks the frame only: where
/// that fits, nothing is said of the map, and searching it could go wrong. It panics
/// where a number of the frame does not fit the machine's pointers; in what a builder
/// wrote they do.
#[verifier::external_body]
fn map_new(bytes: Vec<u8>) -> (r: core::result::Result<fst::Map<Vec<u8>>, fst::Error>)
    requires
        is_file(bytes@) || frame_fits(bytes@),
    ensures
        r is Ok <==> fst_opens(bytes@),
        forall|keys: Set<Seq<u8>>| #[trigger]
            file_of(bytes@, keys) ==> r is Ok && fst_intact(r->Ok_0) && fst_keys(r->Ok_0) == keys,
{
    fst::Map::new(bytes)
}

/// `Map::contains_key` is true of the keys of the map.
#[verifier::external_body]
fn map_contains(m: &fst::Map<Vec<u8>>, key: &[u8]) -> (r: bool)
    requires
        fst_intact(*m),
    ensures
        r == fst_keys(*m).contains(key@),
{
    m.contains_key(key)
}

/// `Map::len` is the number of keys.
#[verifier::external_body]
fn map_len(m: &fst::Map<Vec<u8>>) -> (r: usize)
    requires
        fst_intact(*m),
    ensures
        r == fst_keys(*m).len(),
{
    m.len()
}

/// `Map::clone` makes a map with the same keys.
#[verifier::external_body]
fn map_clone(m: &fst::Map<Vec<u8>>) -> (r: fst::Map<Vec<u8>>)
    requires
        fst_intact(*m),
    ensures
        fst_intact(r),
        fst_keys(r) == fst_keys(*m),
{
    m.clone()
}

/// The views of a vector of byte strings.
pub open spec fn byte_texts(v: Seq<Vec<u8>>) -> Seq<Seq<u8>> {
    v.map_values(|b: Vec<u8>| b@)
}

/// The keys that stand in at least one of the maps.
pub open spec fn union_keys(maps: Seq<FstMap>) -> Set<Seq<u8>> {
    Set::new(|k: Seq<u8>| exists|j: int| 0 <= j < maps.len() && (#[trigger] maps[j]).keys().contains(k))
}

/// `OpBuilder::union` streams the keys of all the maps in lexicographic order,
/// each of them once.
#[verifier::external_body]
fn map_union(maps: &Vec<FstMap>) -> (r: Vec<Vec<u8>>)
    ensures
        forall|i: int| 0 <= i < r@.len() - 1 ==> bytes_lt((#[trigger] r@[i])@, r@[i + 1]@),
        byte_texts(r@).to_set() == union_keys(maps@),
{
    let mut op = fst::map::OpBuilder::new();
    for m in maps.iter() {
        op = op.add(&m.map);
    }
    let mut stream = op.union();
    let mut out = Vec::new();
    while let Some((key, _)) = stream.next() {
        out.push(key.to_vec());
    }
    out
}

/// An immutable set of encoded names.
pub struct FstMap {
    map: fst::Map<Vec<u8>>,
}

impl FstMap {
    /// The names in the set, encoded.
    pub closed spec fn keys(&self) -> Set<Seq<u8>> {
        fst_keys(self.map)
    }

    #[verifier::type_invariant]
    spec fn inv(&self) -> bool {
        fst_intact(self.map) && fst_keys(self.map).finite()
    }

    /// Whether the name is in the set.
    pub fn contains_key(&self, key: &str) -> (r: bool)
        ensures
            r == self.keys().contains(encode_utf8(key@)),
    {
        proof {
            use_type_invariant(self);
        }
        map_contains(&self.map, key.as_bytes())
    }

    /// How many names there are.
    pub fn len(&self) -> (r: usize)
        ensures
            r == self.keys().len(),
            self.keys().finite(),
    {
        proof {
            use_type_invariant(self);
        }
        map_len(&self.map)
    }
}

impl Clone for FstMap {
    fn clone(&self) -> (r: FstMap)
        ensures
            r.keys() == self.keys(),
    {
        proof {
            use_type_invariant(self);
        }
        FstMap { map: map_clone(&self.map) }
    }
}

/// Opens a map file that is held in memory. Bytes without the frame of a map file
/// are refused.
pub fn ram_fst(bytes: Vec<u8>) -> (r: Result<FstMap>)
    requires
        file_or_refused(bytes@),
    ensures
        r is Ok <==> fst_opens(bytes@),
        r is Err ==> r->Err_0 is Fst,
        forall|keys: Set<Seq<u8>>| #[trigger] file_of(bytes@, keys) ==> r is Ok && r->Ok_0.keys() == keys,
{
    let ghost image = bytes@;
    match map_new(bytes) {
        Ok(map) => {
            proof {
                let keys = choose|keys: Set<Seq<u8>>| #[trigger] file_of(image, keys);
                let entries = choose|entries: Seq<(Seq<u8>, u64)>|
                    increasing(entries) && entry_keys(entries) == keys && image == #[trigger] fst_file(entries);
                assert(file_of(image, keys));
                vstd::seq_lib::seq_to_set_is_finite(entries.map_values(|e: (Seq<u8>, u64)| e.0));
            }
            Ok(FstMap { map })
        },
        Err(e) => Err(FeriteError::Fst(e.to_string())),
    }
}

/// The map file of a set is a map file with the members of the set as its keys.
pub proof fn set_files_are_files(bytes: Seq<u8>, keys: Set<Seq<u8>>)
    requires
        set_file(bytes, keys),
    ensures
        file_of(bytes, keys),
        is_file(bytes),
{
    let ks = choose|ks: Seq<Seq<u8>>|
        rising(ks) && ks.to_set() == keys && bytes == fst_file(#[trigger] keyed_entries(ks));
    let entries = keyed_entries(ks);
    assert forall|j: int| 0 <= j < entries.len() - 1 implies bytes_lt((#[trigger] entries[j]).0, entries[j + 1].0) by {
        assert(bytes_lt(ks[j], ks[j + 1]));
    }
    assert(entries.map_values(|e: (Seq<u8>, u64)| e.0) =~= ks);
    assert(increasing(entries) && entry_keys(entries) == keys && bytes == fst_file(entries));
    assert(file_of(bytes, keys));
}

/// A set has one map file: the same members give the same bytes.
pub proof fn sets_have_one_file(x: Seq<u8>, y: Seq<u8>, keys: Set<Seq<u8>>)
    requires
        set_file(x, keys),
        set_file(y, keys),
    ensures
        x == y,
{
    let a = choose|ks: Seq<Seq<u8>>|
        rising(ks) && ks.to_set() == keys && x == fst_file(#[trigger] keyed_entries(ks));
    let b = choose|ks: Seq<Seq<u8>>|
        rising(ks) && ks.to_set() == keys && y == fst_file(#[trigger] keyed_entries(ks));
    order::lemma_rising_unique(a, b);
}

/// Writes the map file of keys in increasing order, each with the value one.
pub fn write_keys(keys: &Vec<Vec<u8>>) -> (r: Result<Vec<u8>>)
    requires
        forall|i: int| 0 <= i < keys@.len() - 1 ==> bytes_lt((#[trigger] keys@[i])@, keys@[i + 1]@),
    ensures
        r is Ok,
        r->Ok_0@ == fst_file(keyed_entries(byte_texts(keys@))),
        set_file(r->Ok_0@, byte_texts(keys@).to_set()),
{
    let mut b = builder_new();
    let ghost kv = byte_texts(keys@);
    let mut i: usize = 0;
    while i < keys.len()
        invariant
            i <= keys@.len(),
            kv == byte_texts(keys@),
            forall|j: int| 0 <= j < keys@.len() - 1 ==> bytes_lt((#[trigger] keys@[j])@, keys@[j + 1]@),
            fst_builder_entries(b) == keyed_entries(kv.take(i as int)),
        decreases keys@.len() - i,
    {
        proof {
            if i > 0 {
                assert(bytes_lt(keys@[i - 1]@, keys@[i - 1 + 1]@));
                assert(fst_builder_entries(b).last().0 == keys@[i - 1]@);
            }
        }
        match builder_insert(&mut b, keys[i].as_slice(), 1) {
            Ok(_) => {},
            Err(e) => {
                return Err(FeriteError::Fst(e.to_string()));
            },
        }
        i = i + 1;
        assert(kv.take(i as int) == kv.take(i - 1).push(keys@[i - 1]@));
        assert(fst_builder_entries(b) == keyed_entries(kv.take(i as int)));
    }
    proof {
        assert(kv.take(kv.len() as int) == kv);
        assert forall|j: int| 0 <= j < kv.len() - 1 implies bytes_lt(#[trigger] kv[j], kv[j + 1]) by {
            assert(bytes_lt(keys@[j]@, keys@[j + 1]@));
        }
        assert(rising(kv));
        assert(fst_builder_entries(b) == keyed_entries(kv));
    }
    match builder_finish(b) {
        Ok(bytes) => Ok(bytes),
        Err(e) => Err(FeriteError::Fst(e.to_string())),
    }
}

/// The set without names.
pub fn empty_fst() -> (r: FstMap)
    ensures
        r.keys() == Set::<Seq<u8>>::empty(),
{
    let b = builder_new();
    let ghost entries = fst_builder_entries(b);
    proof {
        assert(entries.map_values(|e: (Seq<u8>, u64)| e.0).to_set() == Set::<Seq<u8>>::empty());
    }
    let bytes = builder_finish(b).unwrap();
    assert(file_of(bytes@, Set::<Seq<u8>>::empty())) by {
        assert(bytes@ == fst_file(entries));
        assert(increasing(entries));
    }
    ram_fst(bytes).unwrap()
}

/// Merges maps into the map file of the keys that stand in any of them.
pub fn merge_maps(maps: &Vec<FstMap>) -> (r: Result<Vec<u8>>)
    ensures
        r is Ok,
        set_file(r->Ok_0@, union_keys(maps@)),
{
    let keys = map_union(maps);
    write_keys(&keys)
}

pub proof fn lemma_union_push(maps: Seq<FstMap>, m: FstMap)
    ensures
        union_keys(maps.push(m)) == union_keys(maps).union(m.keys()),
{
    let w = maps.push(m);
    assert forall|k: Seq<u8>| union_keys(w).contains(k) == union_keys(maps).union(
        m.keys(),
    ).contains(k) by {
        if union_keys(maps).contains(k) {
            let j = choose|j: int| 0 <= j < maps.len() && (#[trigger] maps[j]).keys().contains(k);
            assert(w[j].keys().contains(k));
        }
        if m.keys().contains(k) {
            assert(w[maps.len() as int].keys().contains(k));
        }
        if union_keys(w).contains(k) {
            let j = choose|j: int| 0 <= j < w.len() && (#[trigger] w[j]).keys().contains(k);
            if j < maps.len() {
                assert(maps[j].keys().contains(k));
            }
        }
    }
    assert(union_keys(w) =~= union_keys(maps).union(m.keys()));
}

}
