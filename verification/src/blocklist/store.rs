//! The domain maps of single lists, by the name of the file that each is kept in.
use vstd::prelude::*;
use vstd::string::*;

use crate::blocklist::fst_map::FstMap;
use crate::text;

verus! {

/// A list's file name and the encoded names in it.
pub ghost struct StoredList {
    pub stem: Seq<char>,
    pub keys: Set<Seq<u8>>,
}

/// The names stored under a file name, if there are any.
pub open spec fn stored_keys(files: Seq<StoredList>, stem: Seq<char>) -> Option<Set<Seq<u8>>>
    decreases files.len(),
{
    if files.len() == 0 {
        None
    } else if files[0].stem == stem {
        Some(files[0].keys)
    } else {
        stored_keys(files.skip(1), stem)
    }
}

/// Domain maps by file name.
pub struct ListStore {
    files: Vec<(String, FstMap)>,
}

impl View for ListStore {
    type V = Seq<StoredList>;

    closed spec fn view(&self) -> Seq<StoredList> {
        self.files@.map_values(|f: (String, FstMap)| StoredList { stem: f.0@, keys: f.1.keys() })
    }
}

impl ListStore {
    /// No maps.
    pub fn new() -> (r: ListStore)
        ensures
            r@ == Seq::<StoredList>::empty(),
    {
        let r = ListStore { files: Vec::new() };
        assert(r@ =~= Seq::<StoredList>::empty());
        r
    }

    /// Adds a map; one that was added before under the same name goes first.
    pub fn push(&mut self, stem: String, map: FstMap)
        ensures
            final(self)@ == old(self)@.push(StoredList { stem: stem@, keys: map.keys() }),
    {
        let ghost before = self@;
        let ghost item = StoredList { stem: stem@, keys: map.keys() };
        self.files.push((stem, map));
        assert(self@ =~= before.push(item));
    }

    /// The map stored under a file name.
    pub fn find(&self, stem: &str) -> (r: Option<&FstMap>)
        ensures
            match r {
                Some(m) => stored_keys(self@, stem@) == Some(m.keys()),
                None => stored_keys(self@, stem@) is None,
            },
    {
        let mut i: usize = 0;
        assert(self@.skip(0) =~= self@);
        while i < self.files.len()
            invariant
                i <= self.files@.len(),
                self.files@.len() == self@.len(),
                stored_keys(self@, stem@) == stored_keys(self@.skip(i as int), stem@),
            decreases self.files@.len() - i,
        {
            proof {
                assert(self@.skip(i as int)[0] == self@[i as int]);
                assert(self@.skip(i as int).skip(1) =~= self@.skip(i + 1));
            }
            if text::str_same(self.files[i].0.as_str(), stem) {
                return Some(&self.files[i].1);
            }
            i = i + 1;
        }
        None
    }
}

}
