//! The map in which the reader keeps what it has evaluated.
use vortex_utils::aliases::dash_map::DashMap;
use vstd::prelude::*;

verus! {

/// A map from keys to positions, held in a `DashMap`.
#[verifier::external_body]
pub struct EvalCache {
    map: DashMap<Vec<u64>, usize>,
}

/// What the map holds.
pub uninterp spec fn cache_entries(cache: EvalCache) -> Map<Seq<u64>, usize>;

impl EvalCache {
    /// `DashMap::default`: a map that holds nothing.
    #[verifier::external_body]
    pub(crate) fn new() -> (r: EvalCache)
        ensures
            cache_entries(r).dom() == Set::<Seq<u64>>::empty(),
    {
        EvalCache { map: DashMap::default() }
    }

    /// `DashMap::get`: the position that the map holds for `key`, if it holds one.
    #[verifier::external_body]
    pub(crate) fn get(&self, key: &Vec<u64>) -> (r: Option<usize>)
        ensures
            r == (if cache_entries(*self).dom().contains(key@) {
                Some(cache_entries(*self)[key@])
            } else {
                None
            }),
    {
        self.map.get(key).map(|position| *position)
    }

    /// `DashMap::entry` with `Entry::or_insert`: the position that the map holds for `key`;
    /// where it holds none, it holds `position` from then on.
    #[verifier::external_body]
    pub(crate) fn get_or_insert(&mut self, key: Vec<u64>, position: usize) -> (r: usize)
        ensures
            cache_entries(*final(self)) == (if cache_entries(*old(self)).dom().contains(key@) {
                cache_entries(*old(self))
            } else {
                cache_entries(*old(self)).insert(key@, position)
            }),
            r == cache_entries(*final(self))[key@],
    {
        *self.map.entry(key).or_insert(position)
    }
}

} // verus!
