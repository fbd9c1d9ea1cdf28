//! Pools kept under names.
use vstd::prelude::*;
use crate::error::Error;
use crate::pool::{Pool, PoolModel, PoolOptions};

verus! {

/// Pools kept under names, each name once.
pub struct PoolManager {
    pools: Vec<(String, Pool)>,
}

impl PoolManager {
    /// The names of the pools, in the order they were created.
    pub closed spec fn names(&self) -> Seq<Seq<char>> {
        self.pools@.map_values(|e: (String, Pool)| e.0@)
    }

    /// The pool under the `i`-th name.
    pub closed spec fn pool_at(&self, i: int) -> PoolModel {
        self.pools@[i].1@
    }

    pub closed spec fn wf(&self) -> bool {
        &&& self.names().no_duplicates()
        &&& forall|k: int| 0 <= k < self.pools@.len() ==> (#[trigger] self.pools@[k]).1.wf()
    }

    pub fn new() -> (r: Self)
        ensures
            r.wf(),
            r.names().len() == 0,
    {
        let r = PoolManager { pools: Vec::new() };
        assert(r.names() =~= Seq::<Seq<char>>::empty());
        r
    }

    fn position(&self, name: &str) -> (r: Option<usize>)
        ensures
            match r {
                Some(i) => i < self.pools@.len() && self.names()[i as int] == name@,
                None => !self.names().contains(name@),
            },
    {
        let w = name.to_owned();
        let mut i: usize = 0;
        while i < self.pools.len()
            invariant
                i <= self.pools@.len(),
                w@ == name@,
                forall|k: int| 0 <= k < i ==> self.names()[k] != name@,
            decreases self.pools@.len() - i,
        {
            if self.pools[i].0 == w {
                return Some(i);
            }
            i = i + 1;
        }
        None
    }

    /// Creates an empty pool under `name`; fails with `Configuration` when
    /// that name is taken.
    pub fn create_pool(&mut self, name: &str, options: PoolOptions) -> (r: Result<(), Error>)
        requires
            old(self).wf(),
        ensures
            final(self).wf(),
            old(self).names().contains(name@) ==> (r matches Err(Error::Configuration(_))) && final(self).names() == old(self).names(),
            !old(self).names().contains(name@) ==> r is Ok && final(self).names() == old(self).names().push(name@)
                && final(self).pool_at(old(self).names().len() as int).entries.len() == 0
                && final(self).pool_at(old(self).names().len() as int).options == options,
            forall|i: int| 0 <= i < old(self).names().len() ==> final(self).pool_at(i) == old(self).pool_at(i),
    {
        match self.position(name) {
            Some(_) => Err(Error::Configuration(name.to_owned())),
            None => {
                let ghost before = self.pools@;
                self.pools.push((name.to_owned(), Pool::new(options)));
                assert(self.names() =~= before.map_values(|e: (String, Pool)| e.0@).push(name@));
                proof {
                    let ns = self.names();
                    assert forall|a: int, b: int| 0 <= a < ns.len() && 0 <= b < ns.len() && a != b implies ns[a] != ns[b] by {
                        if a < ns.len() - 1 && b < ns.len() - 1 {
                            assert(ns[a] == before.map_values(|e: (String, Pool)| e.0@)[a]);
                            assert(ns[b] == before.map_values(|e: (String, Pool)| e.0@)[b]);
                        } else if a == ns.len() - 1 {
                            assert(!before.map_values(|e: (String, Pool)| e.0@).contains(name@));
                            assert(ns[b] == before.map_values(|e: (String, Pool)| e.0@)[b]);
                        } else {
                            assert(ns[a] == before.map_values(|e: (String, Pool)| e.0@)[a]);
                        }
                    }
                }
                Ok(())
            },
        }
    }

    /// The pool under `name`, if any.
    pub fn get_pool(&self, name: &str) -> (r: Option<&Pool>)
        requires
            self.wf(),
        ensures
            r is Some <==> self.names().contains(name@),
            r matches Some(p) ==> p.wf() && exists|i: int|
                0 <= i < self.names().len() && self.names()[i] == name@ && p@ == self.pool_at(i),
    {
        match self.position(name) {
            Some(i) => {
                let p = &self.pools[i].1;
                assert(p@ == self.pool_at(i as int));
                assert(p.wf());
                Some(p)
            },
            None => None,
        }
    }
}

} // verus!
