//! The pool of upstream entries.
//!
//! Entries are kept in ascending order of (latency, id), so the available
//! entries, read in storage order, form the latency-sorted view that
//! selection and rotation work on.
use vstd::prelude::*;
use crate::error::Error;
use crate::proxy::{Proxy, ProxyInfo, ProxyStatus, LATENCY_UNMEASURED};
use crate::tester::TestResult;
use crate::config::ProxyConfig;
use crate::listfile::{
    clean_line, is_blank, join_lines, lemma_address_parses_back, lemma_list_round_trip,
    parse_address_spec, parse_list_spec,
};
use crate::text::{decimal, is_digit, lemma_decimal_digits, id_less, id_lt, lemma_id_lt_asymmetric, lemma_id_lt_irreflexive, lemma_id_lt_total, lemma_id_lt_transitive};

verus! {

/// Settings of a pool.
#[derive(Debug, Clone, Copy, PartialEq, Eq, Structural)]
pub struct PoolOptions {
    /// Most entries the pool holds.
    pub max_size: usize,
    /// Whether entries are probed periodically.
    pub auto_test: bool,
    /// Seconds between probe cycles.
    pub test_interval: u64,
    /// Consecutive failed health checks after which an entry is evicted.
    pub max_failures: u32,
    /// Seconds a startup probe may take.
    pub probe_timeout: u64,
}

impl Default for PoolOptions {
    fn default() -> (r: Self)
        ensures
            r == (PoolOptions {
                max_size: 100,
                auto_test: true,
                test_interval: 300,
                max_failures: 3,
                probe_timeout: 10,
            }),
    {
        PoolOptions { max_size: 100, auto_test: true, test_interval: 300, max_failures: 3, probe_timeout: 10 }
    }
}

/// The mathematical value of a pool.
pub struct PoolModel {
    pub entries: Seq<Proxy>,
    pub cursor: nat,
    pub options: PoolOptions,
}

/// The order of entries: by latency, then by id.
pub open spec fn key_lt(a: Proxy, b: Proxy) -> bool {
    a.latency < b.latency || (a.latency == b.latency && id_lt(a.id@, b.id@))
}

pub open spec fn is_available(p: Proxy) -> bool {
    p.status == ProxyStatus::Available
}

/// The available entries, in the order of the pool.
pub open spec fn available_view(s: Seq<Proxy>) -> Seq<Proxy>
    decreases s.len(),
{
    if s.len() == 0 {
        Seq::empty()
    } else if is_available(s.last()) {
        available_view(s.drop_last()).push(s.last())
    } else {
        available_view(s.drop_last())
    }
}

pub open spec fn ids_unique(s: Seq<Proxy>) -> bool {
    forall|i: int, j: int| 0 <= i < s.len() && 0 <= j < s.len() && i != j ==> s[i].id@ != s[j].id@
}

pub open spec fn sorted_by_key(s: Seq<Proxy>) -> bool {
    forall|i: int, j: int| 0 <= i < j < s.len() ==> key_lt(s[i], s[j])
}

pub open spec fn has_id(s: Seq<Proxy>, id: Seq<char>) -> bool {
    exists|i: int| 0 <= i < s.len() && s[i].id@ == id
}

/// Where the cursor goes when the available view has `k` entries.
pub open spec fn settle_cursor(c: nat, k: nat) -> nat {
    if c < k {
        c
    } else {
        0
    }
}

impl PoolModel {
    pub open spec fn wf(self) -> bool {
        &&& ids_unique(self.entries)
        &&& sorted_by_key(self.entries)
        &&& forall|i: int| 0 <= i < self.entries.len() ==> (#[trigger] self.entries[i]).wf()
        &&& (self.cursor < available_view(self.entries).len() || self.cursor == 0)
    }
}

/// What `next` does to a pool and returns.
pub open spec fn next_spec(m: PoolModel) -> (PoolModel, Option<Proxy>) {
    let v = available_view(m.entries);
    if v.len() == 0 {
        (m, None)
    } else {
        let c = ((m.cursor + 1) % v.len()) as nat;
        (PoolModel { cursor: c, ..m }, Some(v[c as int]))
    }
}

/// The entry under the cursor.
pub open spec fn current_spec(m: PoolModel) -> Option<Proxy> {
    let v = available_view(m.entries);
    if v.len() == 0 {
        None
    } else {
        Some(v[m.cursor as int])
    }
}

pub proof fn lemma_key_irreflexive(a: Proxy)
    ensures
        !key_lt(a, a),
{
    lemma_id_lt_irreflexive(a.id@);
}

pub proof fn lemma_key_asymmetric(a: Proxy, b: Proxy)
    ensures
        !(key_lt(a, b) && key_lt(b, a)),
{
    lemma_id_lt_asymmetric(a.id@, b.id@);
}

pub proof fn lemma_key_transitive(a: Proxy, b: Proxy, c: Proxy)
    requires
        key_lt(a, b),
        key_lt(b, c),
    ensures
        key_lt(a, c),
{
    if a.latency == b.latency && b.latency == c.latency {
        lemma_id_lt_transitive(a.id@, b.id@, c.id@);
    }
}

pub proof fn lemma_key_total(a: Proxy, b: Proxy)
    requires
        a.id@ != b.id@,
    ensures
        key_lt(a, b) || key_lt(b, a),
{
    lemma_id_lt_total(a.id@, b.id@);
}

/// Each available entry of the view is an available entry of the sequence.
proof fn lemma_available_from(s: Seq<Proxy>)
    ensures
        available_view(s).len() <= s.len(),
        forall|k: int|
            0 <= k < available_view(s).len() ==> is_available(#[trigger] available_view(s)[k])
                && s.contains(available_view(s)[k]),
    decreases s.len(),
{
    if s.len() > 0 {
        let rest = s.drop_last();
        lemma_available_from(rest);
        let v = available_view(s);
        assert forall|k: int| 0 <= k < v.len() implies is_available(#[trigger] v[k]) && s.contains(
            v[k],
        ) by {
            if k < available_view(rest).len() {
                assert(v[k] == available_view(rest)[k]);
                let t = choose|t: int| 0 <= t < rest.len() && rest[t] == v[k];
                assert(s[t] == v[k]);
            } else {
                assert(s[s.len() - 1] == v[k]);
            }
        }
    }
}

/// The available entries of a sorted sequence are sorted too.
proof fn lemma_available_sorted(s: Seq<Proxy>)
    requires
        sorted_by_key(s),
    ensures
        sorted_by_key(available_view(s)),
    decreases s.len(),
{
    if s.len() > 0 {
        let rest = s.drop_last();
        assert(sorted_by_key(rest));
        lemma_available_sorted(rest);
        lemma_available_from(rest);
        let v = available_view(rest);
        if is_available(s.last()) {
            assert forall|k: int| 0 <= k < v.len() implies key_lt(v[k], s.last()) by {
                assert(is_available(v[k]));
                let t = choose|t: int| 0 <= t < rest.len() && rest[t] == v[k];
                assert(s[t] == rest[t]);
            }
            let w = available_view(s);
            assert forall|a: int, b: int| 0 <= a < b < w.len() implies key_lt(w[a], w[b]) by {
                if b < v.len() {
                    assert(w[a] == v[a] && w[b] == v[b]);
                } else {
                    assert(w[a] == v[a]);
                }
            }
        }
    }
}

/// Every available entry of the sequence is in the view.
proof fn lemma_available_complete(s: Seq<Proxy>)
    ensures
        forall|i: int| 0 <= i < s.len() && is_available(#[trigger] s[i]) ==> available_view(s).contains(s[i]),
    decreases s.len(),
{
    if s.len() > 0 {
        let rest = s.drop_last();
        lemma_available_complete(rest);
        let v = available_view(s);
        assert forall|i: int| 0 <= i < s.len() && is_available(#[trigger] s[i]) implies v.contains(s[i]) by {
            if i == s.len() - 1 {
                assert(v[v.len() - 1] == s[i]);
            } else {
                assert(rest[i] == s[i]);
                let k = choose|k: int| 0 <= k < available_view(rest).len() && available_view(rest)[k] == s[i];
                assert(v[k] == s[i]);
            }
        }
    }
}

proof fn lemma_available_of_push(s: Seq<Proxy>, i: int)
    requires
        0 <= i < s.len(),
    ensures
        available_view(s.subrange(0, i + 1)) == if is_available(s[i]) {
            available_view(s.subrange(0, i)).push(s[i])
        } else {
            available_view(s.subrange(0, i))
        },
{
    assert(s.subrange(0, i + 1).drop_last() =~= s.subrange(0, i));
    assert(s.subrange(0, i + 1).last() == s[i]);
}

/// A pool of upstream entries with a rotation cursor.
pub struct Pool {
    entries: Vec<Proxy>,
    cursor: usize,
    options: PoolOptions,
}

impl View for Pool {
    type V = PoolModel;

    closed spec fn view(&self) -> PoolModel {
        PoolModel { entries: self.entries@, cursor: self.cursor as nat, options: self.options }
    }
}

impl Pool {
    pub open spec fn wf(&self) -> bool {
        self@.wf()
    }

    /// An empty pool.
    pub fn new(options: PoolOptions) -> (r: Self)
        ensures
            r.wf(),
            r@.entries.len() == 0,
            r@.cursor == 0,
            r@.options == options,
    {
        let r = Pool { entries: Vec::new(), cursor: 0, options };
        assert(available_view(r@.entries).len() == 0);
        r
    }

    pub fn options(&self) -> (r: PoolOptions)
        ensures
            r == self@.options,
    {
        self.options
    }

    pub fn len(&self) -> (r: usize)
        ensures
            r == self@.entries.len(),
    {
        self.entries.len()
    }

    /// Index of the entry with the given id.
    fn find(&self, id: &String) -> (r: Option<usize>)
        ensures
            match r {
                Some(i) => i < self@.entries.len() && self@.entries[i as int].id@ == id@,
                None => !has_id(self@.entries, id@),
            },
    {
        let mut i: usize = 0;
        while i < self.entries.len()
            invariant
                i <= self.entries@.len(),
                forall|k: int| 0 <= k < i ==> self.entries@[k].id@ != id@,
            decreases self.entries@.len() - i,
        {
            if self.entries[i].id == *id {
                return Some(i);
            }
            i = i + 1;
        }
        None
    }

    /// Whether an entry with the given id is in the pool.
    pub fn contains(&self, id: &String) -> (r: bool)
        ensures
            r == has_id(self@.entries, id@),
    {
        self.find(id).is_some()
    }

    /// Where an entry goes to keep the order: after every entry that is
    /// below it and before every other.
    fn insertion_point(&self, p: &Proxy) -> (r: usize)
        requires
            sorted_by_key(self@.entries),
            !has_id(self@.entries, p.id@),
        ensures
            r <= self@.entries.len(),
            forall|k: int| 0 <= k < r ==> key_lt(self@.entries[k], *p),
            forall|k: int| r <= k < self@.entries.len() ==> key_lt(*p, self@.entries[k]),
    {
        let mut i: usize = 0;
        while i < self.entries.len()
            invariant
                sorted_by_key(self@.entries),
                !has_id(self@.entries, p.id@),
                i <= self.entries@.len(),
                forall|k: int| 0 <= k < i ==> key_lt(self.entries@[k], *p),
            decreases self.entries@.len() - i,
        {
            let e = &self.entries[i];
            let below = e.latency < p.latency || (e.latency == p.latency && id_less(&e.id, &p.id));
            if !below {
                proof {
                    let s = self.entries@;
                    assert(s == self@.entries);
                    assert(s[i as int].id@ != p.id@);
                    lemma_key_total(s[i as int], *p);
                    assert forall|k: int| i <= k < s.len() implies key_lt(*p, s[k]) by {
                        if k > i {
                            lemma_key_transitive(*p, s[i as int], s[k]);
                        }
                    }
                }
                return i;
            }
            i = i + 1;
        }
        i
    }

    /// Inserts an entry with a new id at its place in the order.
    fn insert_sorted(&mut self, p: Proxy)
        requires
            ids_unique(old(self)@.entries),
            sorted_by_key(old(self)@.entries),
            !has_id(old(self)@.entries, p.id@),
        ensures
            ids_unique(final(self)@.entries),
            sorted_by_key(final(self)@.entries),
            final(self)@.cursor == old(self)@.cursor,
            final(self)@.options == old(self)@.options,
            exists|j: int|
                0 <= j <= old(self)@.entries.len() && final(self)@.entries == old(self)@.entries.insert(
                    j,
                    p,
                ),
    {
        let j = self.insertion_point(&p);
        let ghost s = self.entries@;
        let ghost q = p;
        self.entries.insert(j, p);
        proof {
            let t = self.entries@;
            assert(t == s.insert(j as int, q));
            assert forall|a: int, b: int| 0 <= a < b < t.len() implies key_lt(t[a], t[b]) by {
                if b < j {
                } else if a < j && b == j {
                } else if a < j && b > j {
                    lemma_key_transitive(s[a], q, s[b - 1]);
                } else if a == j {
                } else {
                }
            }
            assert forall|a: int, b: int|
                0 <= a < t.len() && 0 <= b < t.len() && a != b implies t[a].id@ != t[b].id@ by {
                if a == j {
                    assert(s[if b < j { b } else { b - 1 }].id@ != q.id@);
                } else if b == j {
                    assert(s[if a < j { a } else { a - 1 }].id@ != q.id@);
                }
            }
        }
    }

    /// Removes and returns the entry at `i`.
    fn take_out(&mut self, i: usize) -> (p: Proxy)
        requires
            i < old(self)@.entries.len(),
            ids_unique(old(self)@.entries),
            sorted_by_key(old(self)@.entries),
            forall|k: int| 0 <= k < old(self)@.entries.len() ==> (#[trigger] old(self)@.entries[k]).wf(),
        ensures
            p == old(self)@.entries[i as int],
            final(self)@.entries == old(self)@.entries.remove(i as int),
            final(self)@.cursor == old(self)@.cursor,
            final(self)@.options == old(self)@.options,
            ids_unique(final(self)@.entries),
            sorted_by_key(final(self)@.entries),
            forall|k: int| 0 <= k < final(self)@.entries.len() ==> (#[trigger] final(self)@.entries[k]).wf(),
            !has_id(final(self)@.entries, p.id@),
    {
        let ghost s = self.entries@;
        let p = self.entries.remove(i);
        proof {
            let t = self.entries@;
            assert(t == s.remove(i as int));
            assert forall|a: int, b: int| 0 <= a < b < t.len() implies key_lt(t[a], t[b]) by {
                let a0 = if a < i { a } else { a + 1 };
                let b0 = if b < i { b } else { b + 1 };
                assert(t[a] == s[a0] && t[b] == s[b0]);
            }
            assert forall|a: int, b: int|
                0 <= a < t.len() && 0 <= b < t.len() && a != b implies t[a].id@ != t[b].id@ by {
                let a0 = if a < i { a } else { a + 1 };
                let b0 = if b < i { b } else { b + 1 };
                assert(t[a] == s[a0] && t[b] == s[b0]);
            }
            assert forall|k: int| 0 <= k < t.len() implies (#[trigger] t[k]).wf() by {
                let k0 = if k < i { k } else { k + 1 };
                assert(t[k] == s[k0]);
            }
            if has_id(t, p.id@) {
                let k = choose|k: int| 0 <= k < t.len() && t[k].id@ == p.id@;
                let k0 = if k < i { k } else { k + 1 };
                assert(t[k] == s[k0]);
            }
        }
        p
    }

    /// Adds an entry under its id, replacing any entry with that id. Fails
    /// with `Capacity` when the id is new and the pool is full.
    pub fn add(&mut self, proxy: Proxy) -> (r: Result<(), Error>)
        requires
            old(self).wf(),
            proxy.wf(),
        ensures
            final(self).wf(),
            final(self)@.options == old(self)@.options,
            has_id(old(self)@.entries, proxy.id@) ==> {
                &&& r is Ok
                &&& exists|i: int, j: int|
                    0 <= i < old(self)@.entries.len() && 0 <= j < old(self)@.entries.len()
                        && old(self)@.entries[i].id@ == proxy.id@ && final(self)@.entries == old(self)@.entries.remove(i).insert(j, proxy)
            },
            !has_id(old(self)@.entries, proxy.id@) && old(self)@.entries.len()
                >= old(self)@.options.max_size ==> r == Err::<(), Error>(
                Error::Capacity(old(self)@.options.max_size),
            ) && final(self)@ == old(self)@,
            !has_id(old(self)@.entries, proxy.id@) && old(self)@.entries.len()
                < old(self)@.options.max_size ==> {
                &&& r is Ok
                &&& exists|j: int|
                    0 <= j <= old(self)@.entries.len() && final(self)@.entries == old(self)@.entries.insert(j, proxy)
            },
            final(self)@.cursor == settle_cursor(
                old(self)@.cursor,
                available_view(final(self)@.entries).len(),
            ),
    {
        match self.find(&proxy.id) {
            Some(i) => {
                self.take_out(i);
                self.insert_sorted(proxy);
                self.settle();
                Ok(())
            },
            None => {
                if self.entries.len() >= self.options.max_size {
                    return Err(Error::Capacity(self.options.max_size));
                }
                self.insert_sorted(proxy);
                self.settle();
                Ok(())
            },
        }
    }

    /// Puts the cursor back to zero if it left the available view.
    fn settle(&mut self)
        requires
            ids_unique(old(self)@.entries),
            sorted_by_key(old(self)@.entries),
            forall|i: int| 0 <= i < old(self)@.entries.len() ==> (#[trigger] old(self)@.entries[i]).wf(),
        ensures
            final(self).wf(),
            final(self)@.entries == old(self)@.entries,
            final(self)@.options == old(self)@.options,
            final(self)@.cursor == settle_cursor(
                old(self)@.cursor,
                available_view(old(self)@.entries).len(),
            ),
    {
        let k = self.count_available();
        if self.cursor >= k {
            self.cursor = 0;
        }
    }

    fn count_available(&self) -> (r: usize)
        ensures
            r == available_view(self@.entries).len(),
    {
        let mut n: usize = 0;
        let mut i: usize = 0;
        let ghost s = self.entries@;
        while i < self.entries.len()
            invariant
                s == self.entries@,
                i <= s.len(),
                n == available_view(s.subrange(0, i as int)).len(),
                n <= i,
            decreases s.len() - i,
        {
            proof {
                lemma_available_of_push(s, i as int);
            }
            if self.entries[i].status == ProxyStatus::Available {
                n = n + 1;
            }
            i = i + 1;
        }
        assert(s.subrange(0, s.len() as int) =~= s);
        n
    }

    /// Snapshots of the available entries, fastest first.
    pub fn available_entries(&self) -> (r: Vec<Proxy>)
        ensures
            r@ == available_view(self@.entries),
    {
        let mut out: Vec<Proxy> = Vec::new();
        let mut i: usize = 0;
        let ghost s = self.entries@;
        while i < self.entries.len()
            invariant
                s == self.entries@,
                i <= s.len(),
                out@ == available_view(s.subrange(0, i as int)),
            decreases s.len() - i,
        {
            proof {
                lemma_available_of_push(s, i as int);
            }
            if self.entries[i].status == ProxyStatus::Available {
                out.push(self.entries[i].duplicate());
            }
            i = i + 1;
        }
        assert(s.subrange(0, s.len() as int) =~= s);
        out
    }

    /// Snapshots of every entry, whatever its status, in the order of the pool.
    pub fn get_all_proxies(&self) -> (r: Vec<Proxy>)
        ensures
            r@ == self@.entries,
    {
        let mut out: Vec<Proxy> = Vec::new();
        let mut i: usize = 0;
        while i < self.entries.len()
            invariant
                i <= self.entries@.len(),
                out@ == self.entries@.subrange(0, i as int),
            decreases self.entries@.len() - i,
        {
            out.push(self.entries[i].duplicate());
            assert(out@ =~= self.entries@.subrange(0, i + 1));
            i = i + 1;
        }
        assert(out@ =~= self.entries@);
        out
    }

    /// The available entry of least latency, ties going to the smaller id;
    /// nothing when no entry is available.
    pub fn get_available(&self) -> (r: Option<Proxy>)
        requires
            self.wf(),
        ensures
            match r {
                None => forall|i: int|
                    0 <= i < self@.entries.len() ==> !is_available(#[trigger] self@.entries[i]),
                Some(p) => {
                    &&& is_available(p)
                    &&& self@.entries.contains(p)
                    &&& forall|i: int|
                        0 <= i < self@.entries.len() && is_available(#[trigger] self@.entries[i])
                            && self@.entries[i].id@ != p.id@ ==> key_lt(p, self@.entries[i])
                            && p.latency <= self@.entries[i].latency
                },
            },
    {
        let mut i: usize = 0;
        while i < self.entries.len()
            invariant
                self.wf(),
                i <= self.entries@.len(),
                forall|k: int| 0 <= k < i ==> !is_available(#[trigger] self.entries@[k]),
            decreases self.entries@.len() - i,
        {
            if self.entries[i].status == ProxyStatus::Available {
                let p = self.entries[i].duplicate();
                proof {
                    let s = self.entries@;
                    assert(s == self@.entries);
                    assert(sorted_by_key(s));
                    assert(s[i as int] == p);
                    assert forall|k: int|
                        0 <= k < s.len() && is_available(#[trigger] s[k]) && s[k].id@
                            != p.id@ implies key_lt(p, s[k]) && p.latency <= s[k].latency by {
                        if k < i {
                        } else if k == i {
                        } else {
                        }
                    }
                }
                return Some(p);
            }
            i = i + 1;
        }
        None
    }

    /// The entry under the rotation cursor; nothing when no entry is available.
    pub fn current(&self) -> (r: Option<Proxy>)
        requires
            self.wf(),
        ensures
            r == current_spec(self@),
    {
        let v = self.available_entries();
        if v.len() == 0 {
            None
        } else {
            Some(v[self.cursor].duplicate())
        }
    }

    /// Advances the rotation cursor over the available entries, wrapping
    /// around, and returns the entry it lands on; nothing when no entry is
    /// available.
    pub fn next(&mut self) -> (r: Option<Proxy>)
        requires
            old(self).wf(),
        ensures
            final(self).wf(),
            (final(self)@, r) == next_spec(old(self)@),
    {
        let v = self.available_entries();
        if v.len() == 0 {
            return None;
        }
        self.cursor = (self.cursor + 1) % v.len();
        Some(v[self.cursor].duplicate())
    }
}

/// The pool after `n` successive calls of `next`.
pub open spec fn rotate(m: PoolModel, n: nat) -> PoolModel
    decreases n,
{
    if n == 0 {
        m
    } else {
        next_spec(rotate(m, (n - 1) as nat)).0
    }
}

/// What the `n`-th of successive calls of `next` returns, counting from 1.
pub open spec fn nth_next(m: PoolModel, n: nat) -> Option<Proxy> {
    next_spec(rotate(m, (n - 1) as nat)).1
}

proof fn lemma_rotate_cursor(m: PoolModel, n: nat)
    requires
        m.wf(),
        available_view(m.entries).len() > 0,
    ensures
        rotate(m, n).entries == m.entries,
        rotate(m, n).options == m.options,
        rotate(m, n).cursor == (m.cursor as int + n as int) % (available_view(m.entries).len() as int),
    decreases n,
{
    let k = available_view(m.entries).len() as int;
    if n == 0 {
        vstd::arithmetic::div_mod::lemma_small_mod(m.cursor, k as nat);
    } else {
        lemma_rotate_cursor(m, (n - 1) as nat);
        let c = (m.cursor as int + n as int - 1) % k;
        vstd::arithmetic::div_mod::lemma_add_mod_noop(m.cursor as int + n as int - 1, 1, k);
        if k > 1 {
            vstd::arithmetic::div_mod::lemma_small_mod(1, k as nat);
        }
        if k == 1 {
            assert((m.cursor as int + n as int) % k == 0);
        }
        assert((c + 1) % k == ((m.cursor as int + n as int - 1) % k + 1int % k) % k);
    }
}

/// Successive calls of `next` go round the available entries: the `n`-th
/// call returns the entry `n` places after the cursor, so the returned
/// entries repeat with a period of the number of available entries.
pub proof fn lemma_rotation_period(m: PoolModel, n: nat)
    requires
        m.wf(),
        available_view(m.entries).len() > 0,
        n >= 1,
    ensures
        nth_next(m, n) == Some(
            available_view(m.entries)[(m.cursor as int + n as int) % (available_view(m.entries).len() as int)],
        ),
        nth_next(m, n + available_view(m.entries).len()) == nth_next(m, n),
{
    let k = available_view(m.entries).len() as int;
    lemma_rotate_cursor(m, (n - 1) as nat);
    lemma_rotate_cursor(m, (n - 1 + k) as nat);
    let c1 = (m.cursor as int + n as int - 1) % k;
    let c2 = (m.cursor as int + n as int - 1 + k) % k;
    vstd::arithmetic::div_mod::lemma_mod_add_multiples_vanish(m.cursor as int + n as int - 1, k);
    assert(c1 == c2);
    vstd::arithmetic::div_mod::lemma_add_mod_noop(m.cursor as int + n as int - 1, 1, k);
    if k > 1 {
        vstd::arithmetic::div_mod::lemma_small_mod(1, k as nat);
    }
    if k == 1 {
        assert((m.cursor as int + n as int) % k == 0);
        assert((c1 + 1) % k == 0);
    }
    assert((c1 + 1) % k == (m.cursor as int + n as int) % k);
}

/// With a single available entry, every call of `next` returns it.
pub proof fn lemma_single_entry_rotation(m: PoolModel, n: nat)
    requires
        m.wf(),
        available_view(m.entries).len() == 1,
        n >= 1,
    ensures
        nth_next(m, n) == Some(available_view(m.entries)[0]),
{
    lemma_rotation_period(m, n);
    assert((m.cursor as int + n as int) % 1 == 0);
}

/// An entry after a probe with result `r`: a success makes it available
/// with the measured latency and clears its failure count; a failure marks
/// it failed and leaves its failure count.
pub open spec fn tested(p: Proxy, r: TestResult) -> Proxy {
    if r.success {
        Proxy {
            status: ProxyStatus::Available,
            latency: r.latency->Some_0,
            fail_count: 0,
            last_tested: Some(r.timestamp),
            info: ProxyInfo {
                status: ProxyStatus::Available,
                last_latency: r.latency,
                last_checked: Some(r.timestamp),
                ..p.info
            },
            ..p
        }
    } else {
        Proxy {
            status: ProxyStatus::Failed,
            last_tested: Some(r.timestamp),
            info: ProxyInfo { status: ProxyStatus::Failed, ..p.info },
            ..p
        }
    }
}

/// An entry after a health check that answered in `latency` milliseconds.
pub open spec fn checked_ok(p: Proxy, latency: u64, at: i64) -> Proxy {
    Proxy {
        status: ProxyStatus::Available,
        latency,
        fail_count: 0,
        last_tested: Some(at),
        info: ProxyInfo {
            status: ProxyStatus::Available,
            last_latency: Some(latency),
            last_checked: Some(at),
            ..p.info
        },
        ..p
    }
}

/// Whether one more failed health check evicts an entry.
pub open spec fn evicts(p: Proxy, max_failures: u32) -> bool {
    p.fail_count as int + 1 >= max_failures as int
}

/// Outcome of one health check on the pool.
#[derive(Debug, Clone, Copy, PartialEq, Eq, Structural)]
pub enum HealthVerdict {
    /// No entry has that id.
    Missing,
    /// The entry stays.
    Kept,
    /// The entry reached the failure limit and was removed.
    Evicted,
}

/// The answer of one health check: the latency, or nothing on failure.
#[derive(Debug, Clone)]
pub struct HealthProbe {
    pub id: String,
    pub latency: Option<u64>,
}

/// Taking an entry out and putting a same-id entry back keeps the ids and
/// the length, and brings in no other entry.
proof fn lemma_reinsert(s: Seq<Proxy>, i: int, j: int, x: Proxy)
    requires
        0 <= i < s.len(),
        0 <= j < s.len(),
        x.id@ == s[i].id@,
    ensures
        s.remove(i).insert(j, x).len() == s.len(),
        forall|id: Seq<char>| has_id(s.remove(i).insert(j, x), id) == has_id(s, id),
        forall|k: int|
            0 <= k < s.len() ==> s.remove(i).insert(j, x)[k] == x || exists|m: int|
                0 <= m < s.len() && m != i && s.remove(i).insert(j, x)[k] == s[m],
{
    let t = s.remove(i).insert(j, x);
    assert forall|k: int| 0 <= k < s.len() implies t[k] == x || exists|m: int|
        0 <= m < s.len() && m != i && t[k] == s[m] by {
        if k != j {
            let k1 = if k < j { k } else { k - 1 };
            let m = if k1 < i { k1 } else { k1 + 1 };
            assert(t[k] == s[m]);
        }
    }
    assert forall|id: Seq<char>| has_id(t, id) == has_id(s, id) by {
        if has_id(t, id) {
            let k = choose|k: int| 0 <= k < t.len() && t[k].id@ == id;
            if k == j {
                assert(s[i].id@ == id);
            } else {
                let k1 = if k < j { k } else { k - 1 };
                let m = if k1 < i { k1 } else { k1 + 1 };
                assert(t[k] == s[m]);
            }
        }
        if has_id(s, id) {
            let m = choose|m: int| 0 <= m < s.len() && s[m].id@ == id;
            if m == i {
                assert(t[j] == x);
            } else {
                let m1 = if m < i { m } else { m - 1 };
                let k = if m1 < j { m1 } else { m1 + 1 };
                assert(t[k] == s[m]);
            }
        }
    }
}

impl Pool {
    /// Applies a probe result to the entry it names; returns whether the
    /// pool has such an entry.
    pub fn apply_test_result(&mut self, result: &TestResult) -> (r: bool)
        requires
            old(self).wf(),
            result.wf(),
        ensures
            final(self).wf(),
            final(self)@.options == old(self)@.options,
            r == has_id(old(self)@.entries, result.proxy_id@),
            !r ==> final(self)@ == old(self)@,
            r ==> exists|i: int, j: int|
                0 <= i < old(self)@.entries.len() && 0 <= j < old(self)@.entries.len()
                    && old(self)@.entries[i].id@ == result.proxy_id@
                    && final(self)@.entries == old(self)@.entries.remove(i).insert(
                    j,
                    tested(old(self)@.entries[i], *result),
                ),
            r ==> final(self)@.cursor == settle_cursor(
                old(self)@.cursor,
                available_view(final(self)@.entries).len(),
            ),
    {
        match self.find(&result.proxy_id) {
            None => false,
            Some(i) => {
                let ghost s = self.entries@;
                let mut p = self.take_out(i);
                let ghost p0 = p;
                match result.latency {
                    Some(l) => {
                        p.status = ProxyStatus::Available;
                        p.info.status = ProxyStatus::Available;
                        p.latency = l;
                        p.info.last_latency = Some(l);
                        p.info.last_checked = Some(result.timestamp);
                        p.fail_count = 0;
                    },
                    None => {
                        p.status = ProxyStatus::Failed;
                        p.info.status = ProxyStatus::Failed;
                    },
                }
                p.last_tested = Some(result.timestamp);
                assert(p == tested(p0, *result));
                self.insert_sorted(p);
                self.settle();
                proof {
                    let j = choose|j: int|
                        0 <= j <= s.len() - 1 && self.entries@ == s.remove(i as int).insert(j, p);
                    assert(self.entries@ == s.remove(i as int).insert(j, tested(s[i as int], *result)));
                }
                true
            },
        }
    }

    /// Applies every probe result in turn. No entry is added or removed;
    /// afterwards each entry that a result names reflects the last such
    /// result, and every other entry is as it was. An entry named by exactly
    /// one result is that result applied to it: its address, credentials and,
    /// on failure, its failure count and latency stay.
    pub fn apply_test_results(&mut self, results: &Vec<TestResult>)
        requires
            old(self).wf(),
            forall|k: int| 0 <= k < results@.len() ==> (#[trigger] results@[k]).wf(),
        ensures
            final(self).wf(),
            final(self)@.options == old(self)@.options,
            final(self)@.entries.len() == old(self)@.entries.len(),
            forall|id: Seq<char>| has_id(final(self)@.entries, id) == has_id(old(self)@.entries, id),
            forall|k: int|
                0 <= k < final(self)@.entries.len() ==> reflects_last(
                    #[trigger] final(self)@.entries[k],
                    results@,
                    results@.len() as int,
                    old(self)@.entries,
                ),            forall|m: int|
                0 <= m < old(self)@.entries.len() && result_count(
                    results@,
                    results@.len() as int,
                    (#[trigger] old(self)@.entries[m]).id@,
                ) == 0 ==> final(self)@.entries.contains(old(self)@.entries[m]),
            forall|m: int|
                0 <= m < old(self)@.entries.len() && result_count(
                    results@,
                    results@.len() as int,
                    (#[trigger] old(self)@.entries[m]).id@,
                ) == 1 ==> final(self)@.entries.contains(
                    tested(
                        old(self)@.entries[m],
                        last_result(results@, results@.len() as int, old(self)@.entries[m].id@)->Some_0,
                    ),
                ),
    {
        let ghost s0 = self@.entries;
        let mut n: usize = 0;
        while n < results.len()
            invariant
                self.wf(),
                self@.options == old(self)@.options,
                s0 == old(self)@.entries,
                n <= results@.len(),
                forall|k: int| 0 <= k < results@.len() ==> (#[trigger] results@[k]).wf(),
                self@.entries.len() == s0.len(),
                forall|id: Seq<char>| has_id(self@.entries, id) == has_id(s0, id),
                forall|k: int|
                    0 <= k < self@.entries.len() ==> reflects_last(
                        #[trigger] self@.entries[k],
                        results@,
                        n as int,
                        s0,
                    ),
                forall|m: int|
                    0 <= m < s0.len() && result_count(results@, n as int, (#[trigger] s0[m]).id@) == 0
                        ==> self@.entries.contains(s0[m]),
                forall|m: int|
                    0 <= m < s0.len() && result_count(results@, n as int, (#[trigger] s0[m]).id@) == 1
                        ==> self@.entries.contains(
                        tested(s0[m], last_result(results@, n as int, s0[m].id@)->Some_0),
                    ),
            decreases results@.len() - n,
        {
            let ghost before = self@.entries;
            let applied = self.apply_test_result(&results[n]);
            proof {
                let r = results@[n as int];
                let t = self@.entries;
                if applied {
                    let (i, j) = choose|i: int, j: int|
                        0 <= i < before.len() && 0 <= j < before.len() && before[i].id@
                            == r.proxy_id@ && self@.entries == before.remove(i).insert(j, tested(before[i], r));
                    lemma_reinsert(before, i, j, tested(before[i], r));
                    assert forall|k: int| 0 <= k < t.len() implies reflects_last(
                        #[trigger] t[k],
                        results@,
                        n + 1,
                        s0,
                    ) by {
                        if t[k] == tested(before[i], r) {
                            assert(last_result(results@, n + 1, t[k].id@) == Some(r));
                        } else {
                            let m = choose|m: int| 0 <= m < before.len() && m != i && t[k] == before[m];
                            assert(before[m].id@ != r.proxy_id@);
                            assert(reflects_last(before[m], results@, n as int, s0));
                        }
                    }
                } else {
                    assert forall|k: int| 0 <= k < t.len() implies reflects_last(
                        #[trigger] t[k],
                        results@,
                        n + 1,
                        s0,
                    ) by {
                        assert(t[k].id@ != r.proxy_id@) by {
                            if t[k].id@ == r.proxy_id@ {
                                assert(has_id(before, r.proxy_id@));
                            }
                        }
                        assert(reflects_last(before[k], results@, n as int, s0));
                    }
                }
            }
            proof {
                let r = results@[n as int];
                let t = self@.entries;
                let y = r.proxy_id@;
                assert forall|m: int|
                    0 <= m < s0.len() && result_count(results@, n + 1, (#[trigger] s0[m]).id@) == 0
                        implies t.contains(s0[m]) by {
                    assert(before.contains(s0[m]));
                    let b = choose|b: int| 0 <= b < before.len() && before[b] == s0[m];
                    keeps_other(before, t, r, applied, b);
                }
                assert forall|m: int|
                    0 <= m < s0.len() && result_count(results@, n + 1, (#[trigger] s0[m]).id@) == 1
                        implies t.contains(tested(s0[m], last_result(results@, n + 1, s0[m].id@)->Some_0)) by {
                    let x = s0[m].id@;
                    if x != y {
                        let e = tested(s0[m], last_result(results@, n as int, x)->Some_0);
                        assert(before.contains(e));
                        let b = choose|b: int| 0 <= b < before.len() && before[b] == e;
                        keeps_other(before, t, r, applied, b);
                    } else {
                        assert(before.contains(s0[m]));
                        let b = choose|b: int| 0 <= b < before.len() && before[b] == s0[m];
                        assert(has_id(before, y));
                        assert(ids_unique(before));
                        assert(exists|i: int, j: int|
                            0 <= i < before.len() && 0 <= j < before.len() && before[i].id@ == y && t
                                == before.remove(i).insert(j, tested(before[i], r)));
                        let (i, j) = choose|i: int, j: int|
                            0 <= i < before.len() && 0 <= j < before.len() && before[i].id@ == y && t
                                == before.remove(i).insert(j, tested(before[i], r));
                        assert(i == b);
                        assert(t[j] == tested(s0[m], r));
                    }
                }
            }
            n = n + 1;
        }
    }
}

/// How many of the first `n` results name `id`.
pub open spec fn result_count(results: Seq<TestResult>, n: int, id: Seq<char>) -> nat
    decreases n,
{
    if n <= 0 {
        0
    } else {
        result_count(results, n - 1, id) + if results[n - 1].proxy_id@ == id {
            1nat
        } else {
            0nat
        }
    }
}

/// Applying result `r` keeps every entry that `r` does not name.
proof fn keeps_other(before: Seq<Proxy>, t: Seq<Proxy>, r: TestResult, applied: bool, b: int)
    requires
        0 <= b < before.len(),
        before[b].id@ != r.proxy_id@,
        !applied ==> t == before,
        applied ==> exists|i: int, j: int|
            0 <= i < before.len() && 0 <= j < before.len() && before[i].id@ == r.proxy_id@ && t
                == before.remove(i).insert(j, tested(before[i], r)),
    ensures
        t.contains(before[b]),
{
    if !applied {
        assert(t[b] == before[b]);
    } else {
        let (i, j) = choose|i: int, j: int|
            0 <= i < before.len() && 0 <= j < before.len() && before[i].id@ == r.proxy_id@ && t
                == before.remove(i).insert(j, tested(before[i], r));
        let b1 = if b < i { b } else { b - 1 };
        let k = if b1 < j { b1 } else { b1 + 1 };
        assert(t[k] == before[b]);
    }
}

/// The last of the first `n` results that names `id`.
pub open spec fn last_result(results: Seq<TestResult>, n: int, id: Seq<char>) -> Option<TestResult>
    decreases n,
{
    if n <= 0 {
        None
    } else if results[n - 1].proxy_id@ == id {
        Some(results[n - 1])
    } else {
        last_result(results, n - 1, id)
    }
}

/// After the first `n` results, `e` is available with the measured latency
/// when the last result naming it succeeded, failed when it failed, and one
/// of `before` when none names it.
pub open spec fn reflects_last(e: Proxy, results: Seq<TestResult>, n: int, before: Seq<Proxy>) -> bool {
    match last_result(results, n, e.id@) {
        Some(r) => if r.success {
            e.status == ProxyStatus::Available && Some(e.latency) == r.latency && e.fail_count == 0
        } else {
            e.status == ProxyStatus::Failed
        },
        None => before.contains(e),
    }
}

impl Pool {
    /// Applies one health check to the entry with id `id`. A success makes
    /// it available with the new latency and clears its failure count; a
    /// failure counts one more, and removes the entry once the count reaches
    /// the pool's failure limit.
    pub fn record_health(&mut self, id: &String, latency: Option<u64>, at: i64) -> (r: HealthVerdict)
        requires
            old(self).wf(),
            latency matches Some(l) ==> l < LATENCY_UNMEASURED,
        ensures
            final(self).wf(),
            final(self)@.options == old(self)@.options,
            !has_id(old(self)@.entries, id@) ==> r == HealthVerdict::Missing && final(self)@ == old(self)@,
            has_id(old(self)@.entries, id@) ==> exists|i: int|
                0 <= i < old(self)@.entries.len() && old(self)@.entries[i].id@ == id@ && match latency {
                    Some(l) => r == HealthVerdict::Kept && exists|j: int|
                        0 <= j < old(self)@.entries.len() && final(self)@.entries == old(self)@.entries.remove(i).insert(j, checked_ok(old(self)@.entries[i], l, at)),
                    None => if evicts(old(self)@.entries[i], old(self)@.options.max_failures) {
                        r == HealthVerdict::Evicted && final(self)@.entries == old(self)@.entries.remove(i)
                    } else {
                        r == HealthVerdict::Kept && final(self)@.entries == old(self)@.entries.update(
                            i,
                            Proxy {
                                fail_count: (old(self)@.entries[i].fail_count + 1) as u32,
                                ..old(self)@.entries[i]
                            },
                        )
                    },
                },
            r != HealthVerdict::Missing ==> final(self)@.cursor == settle_cursor(
                old(self)@.cursor,
                available_view(final(self)@.entries).len(),
            ),
            forall|k: int|
                0 <= k < final(self)@.entries.len() && final(self)@.entries[k].id@ == id@
                    && old(self)@.options.max_failures >= 1 ==> (#[trigger] final(self)@.entries[k]).fail_count < old(self)@.options.max_failures,
            forall|k: int|
                0 <= k < final(self)@.entries.len() && final(self)@.entries[k].id@ != id@
                    ==> old(self)@.entries.contains(#[trigger] final(self)@.entries[k]),
            forall|k: int|
                0 <= k < final(self)@.entries.len() ==> has_id(
                    old(self)@.entries,
                    (#[trigger] final(self)@.entries[k]).id@,
                ),
            forall|m: int|
                0 <= m < old(self)@.entries.len() && (#[trigger] old(self)@.entries[m]).id@ != id@
                    ==> final(self)@.entries.contains(old(self)@.entries[m]),
    {
        let ghost s = self.entries@;
        match self.find(id) {
            None => HealthVerdict::Missing,
            Some(i) => {
                match latency {
                    Some(l) => {
                        let mut p = self.take_out(i);
                        let ghost p0 = p;
                        p.status = ProxyStatus::Available;
                        p.info.status = ProxyStatus::Available;
                        p.latency = l;
                        p.info.last_latency = Some(l);
                        p.info.last_checked = Some(at);
                        p.fail_count = 0;
                        p.last_tested = Some(at);
                        assert(p == checked_ok(p0, l, at));
                        self.insert_sorted(p);
                        self.settle();
                        proof {
                            let j = choose|j: int|
                                0 <= j <= s.len() - 1 && self.entries@ == s.remove(i as int).insert(j, p);
                            lemma_reinsert(s, i as int, j, p);
                            let t = self.entries@;
                            assert forall|k: int|
                                0 <= k < t.len() && t[k].id@ != id@ implies s.contains(
                                #[trigger] t[k],
                            ) by {
                                let m = choose|m: int| 0 <= m < s.len() && m != i && t[k] == s[m];
                            }
                            assert forall|k: int| 0 <= k < t.len() implies has_id(s, (#[trigger] t[k]).id@) by {
                                assert(has_id(t, t[k].id@));
                            }
                            assert forall|m: int| 0 <= m < s.len() && (#[trigger] s[m]).id@ != id@ implies t.contains(s[m]) by {
                                let m1 = if m < i { m } else { m - 1 };
                                let k = if m1 < j { m1 } else { m1 + 1 };
                                assert(t[k] == s[m]);
                            }
                        }
                        HealthVerdict::Kept
                    },
                    None => {
                        let fails = self.entries[i].fail_count;
                        if fails as u64 + 1 >= self.options.max_failures as u64 {
                            self.take_out(i);
                            self.settle();
                            proof {
                                let t = self.entries@;
                                assert forall|k: int| 0 <= k < t.len() implies s.contains(#[trigger] t[k])
                                    && has_id(s, t[k].id@) by {
                                    let m = if k < i { k } else { k + 1 };
                                    assert(t[k] == s[m]);
                                }
                                assert forall|m: int| 0 <= m < s.len() && (#[trigger] s[m]).id@ != id@ implies t.contains(s[m]) by {
                                    let k = if m < i { m } else { m - 1 };
                                    assert(t[k] == s[m]);
                                }
                            }
                            HealthVerdict::Evicted
                        } else {
                            let ghost s = self.entries@;
                            let mut p = self.take_out(i);
                            p.fail_count = fails + 1;
                            self.entries.insert(i, p);
                            proof {
                                let t = self.entries@;
                                assert(t =~= s.update(i as int, p));
                                assert forall|a: int, b: int| 0 <= a < b < t.len() implies key_lt(
                                    t[a],
                                    t[b],
                                ) by {
                                    assert(key_lt(s[a], s[b]));
                                }
                                assert forall|a: int, b: int|
                                    0 <= a < t.len() && 0 <= b < t.len() && a != b implies t[a].id@
                                    != t[b].id@ by {
                                    assert(s[a].id@ != s[b].id@);
                                }
                                assert forall|k: int| 0 <= k < t.len() implies (#[trigger] t[k]).wf() by {
                                    assert(s[k].wf());
                                }
                                assert forall|k: int| 0 <= k < t.len() && t[k].id@ != id@ implies s.contains(
                                    #[trigger] t[k],
                                ) by {
                                    assert(t[k] == s[k]);
                                }
                                assert forall|k: int| 0 <= k < t.len() implies has_id(s, (#[trigger] t[k]).id@) by {
                                    assert(t[k].id@ == s[k].id@);
                                }
                                assert forall|k: int| 0 <= k < t.len() && t[k].id@ == id@ implies t[k].fail_count
                                    < self.options.max_failures by {
                                    assert(k == i);
                                }
                                assert forall|m: int| 0 <= m < s.len() && (#[trigger] s[m]).id@ != id@ implies t.contains(s[m]) by {
                                    assert(t[m] == s[m]);
                                }
                            }
                            self.settle();
                            HealthVerdict::Kept
                        }
                    },
                }
            },
        }
    }
}

/// `host:port` of an entry.
pub open spec fn address_of(p: Proxy) -> Seq<char> {
    p.info.host@ + ":"@ + decimal(p.info.port as nat)
}

pub open spec fn probed(probes: Seq<HealthProbe>, n: int, id: Seq<char>) -> bool {
    exists|t: int| 0 <= t < n && (#[trigger] probes[t]).id@ == id
}

/// The last of the first `n` probes that names `id`.
pub open spec fn last_probe(probes: Seq<HealthProbe>, n: int, id: Seq<char>) -> Option<HealthProbe>
    decreases n,
{
    if n <= 0 {
        None
    } else if probes[n - 1].id@ == id {
        Some(probes[n - 1])
    } else {
        last_probe(probes, n - 1, id)
    }
}

/// After the first `n` probes, `e` is available with the new latency and no
/// failures when the last probe naming it answered, has failures counted
/// when it did not, and is one of `before` when none names it.
pub open spec fn checked_last(e: Proxy, probes: Seq<HealthProbe>, n: int, before: Seq<Proxy>) -> bool {
    match last_probe(probes, n, e.id@) {
        Some(pr) => match pr.latency {
            Some(l) => e.status == ProxyStatus::Available && e.latency == l && e.fail_count == 0,
            None => e.fail_count >= 1,
        },
        None => before.contains(e),
    }
}

/// How many of the first `n` probes name `id`.
pub open spec fn probe_count(probes: Seq<HealthProbe>, n: int, id: Seq<char>) -> nat
    decreases n,
{
    if n <= 0 {
        0
    } else {
        probe_count(probes, n - 1, id) + if probes[n - 1].id@ == id {
            1nat
        } else {
            0nat
        }
    }
}

/// What a single health check with answer `latency` did to the entry that
/// was `e0`: an answer makes it available with that latency and no
/// failures; a failure below the limit counts one more; a failure that
/// reaches the limit removes it.
pub open spec fn single_check_effect(
    entries: Seq<Proxy>,
    e0: Proxy,
    latency: Option<u64>,
    max_failures: u32,
    at: i64,
) -> bool {
    match latency {
        Some(l) => entries.contains(checked_ok(e0, l, at)),
        None => if evicts(e0, max_failures) {
            !has_id(entries, e0.id@)
        } else {
            entries.contains(Proxy { fail_count: (e0.fail_count + 1) as u32, ..e0 })
        },
    }
}

/// Some probe among the first `n` failed for `id`.
pub open spec fn failed_probe(probes: Seq<HealthProbe>, n: int, id: Seq<char>) -> bool {
    exists|t: int| 0 <= t < n && (#[trigger] probes[t]).id@ == id && probes[t].latency is None
}

impl Pool {
    /// Applies one cycle of health checks, in order, and returns the ids of
    /// the evicted entries. No entry is added. When the cycle checked every
    /// entry and the failure limit is at least one, every entry left is under
    /// the limit. An entry checked exactly once ends as that check leaves it:
    /// available with the new latency, one failure more, or removed once its
    /// failures reach the limit.
    pub fn health_cycle(&mut self, probes: &Vec<HealthProbe>, at: i64) -> (evicted: Vec<String>)
        requires
            old(self).wf(),
            forall|t: int|
                0 <= t < probes@.len() ==> ((#[trigger] probes@[t]).latency matches Some(l) ==> l
                    < LATENCY_UNMEASURED),
        ensures
            final(self).wf(),
            final(self)@.options == old(self)@.options,
            final(self)@.entries.len() + evicted@.len() == old(self)@.entries.len(),
            forall|k: int|
                0 <= k < final(self)@.entries.len() ==> has_id(
                    old(self)@.entries,
                    (#[trigger] final(self)@.entries[k]).id@,
                ),
            forall|k: int|
                0 <= k < final(self)@.entries.len() && old(self)@.options.max_failures >= 1
                    && probed(probes@, probes@.len() as int, final(self)@.entries[k].id@) ==> (
                #[trigger] final(self)@.entries[k]).fail_count < old(self)@.options.max_failures,
            (forall|k: int|
                0 <= k < old(self)@.entries.len() ==> probed(
                    probes@,
                    probes@.len() as int,
                    (#[trigger] old(self)@.entries[k]).id@,
                )) && old(self)@.options.max_failures >= 1 ==> forall|k: int|
                0 <= k < final(self)@.entries.len() ==> (#[trigger] final(self)@.entries[k]).fail_count
                    < old(self)@.options.max_failures,
            forall|k: int|
                0 <= k < evicted@.len() ==> failed_probe(
                    probes@,
                    probes@.len() as int,
                    (#[trigger] evicted@[k])@,
                ),
            forall|m: int|
                0 <= m < old(self)@.entries.len() && !probed(
                    probes@,
                    probes@.len() as int,
                    (#[trigger] old(self)@.entries[m]).id@,
                ) ==> final(self)@.entries.contains(old(self)@.entries[m]),            forall|k: int|
                0 <= k < final(self)@.entries.len() ==> checked_last(
                    #[trigger] final(self)@.entries[k],
                    probes@,
                    probes@.len() as int,
                    old(self)@.entries,
                ),            forall|m: int|
                0 <= m < old(self)@.entries.len() && probe_count(
                    probes@,
                    probes@.len() as int,
                    (#[trigger] old(self)@.entries[m]).id@,
                ) == 1 ==> single_check_effect(
                    final(self)@.entries,
                    old(self)@.entries[m],
                    last_probe(probes@, probes@.len() as int, old(self)@.entries[m].id@)->Some_0.latency,
                    old(self)@.options.max_failures,
                    at,
                ),
    {
        let mut evicted: Vec<String> = Vec::new();
        let ghost s0 = self@.entries;
        let ghost max = self@.options.max_failures;
        let mut n: usize = 0;
        while n < probes.len()
            invariant
                self.wf(),
                self@.options == old(self)@.options,
                s0 == old(self)@.entries,
                max == old(self)@.options.max_failures,
                n <= probes@.len(),
                forall|t: int|
                    0 <= t < probes@.len() ==> ((#[trigger] probes@[t]).latency matches Some(l)
                        ==> l < LATENCY_UNMEASURED),
                self@.entries.len() + evicted@.len() == s0.len(),
                forall|k: int|
                    0 <= k < self@.entries.len() ==> has_id(s0, (#[trigger] self@.entries[k]).id@),
                forall|k: int|
                    0 <= k < self@.entries.len() && max >= 1 && probed(
                        probes@,
                        n as int,
                        self@.entries[k].id@,
                    ) ==> (#[trigger] self@.entries[k]).fail_count < max,
                forall|k: int|
                    0 <= k < evicted@.len() ==> failed_probe(probes@, n as int, (#[trigger] evicted@[k])@),
                forall|m: int|
                    0 <= m < s0.len() && !probed(probes@, n as int, (#[trigger] s0[m]).id@)
                        ==> self@.entries.contains(s0[m]),
                forall|k: int|
                    0 <= k < self@.entries.len() ==> checked_last(
                        #[trigger] self@.entries[k],
                        probes@,
                        n as int,
                        s0,
                    ),
                forall|m: int|
                    0 <= m < s0.len() && probe_count(probes@, n as int, (#[trigger] s0[m]).id@) == 0
                        ==> self@.entries.contains(s0[m]),
                forall|m: int|
                    0 <= m < s0.len() && probe_count(probes@, n as int, (#[trigger] s0[m]).id@) == 1
                        ==> single_check_effect(
                        self@.entries,
                        s0[m],
                        last_probe(probes@, n as int, s0[m].id@)->Some_0.latency,
                        max,
                        at,
                    ),
            decreases probes@.len() - n,
        {
            let ghost before = self@.entries;
            let ghost ev_before = evicted@;
            let probe = &probes[n];
            let verdict = self.record_health(&probe.id, probe.latency, at);
            if verdict == HealthVerdict::Evicted {
                evicted.push(probe.id.clone());
            }
            proof {
                let t = self@.entries;
                assert forall|k: int| 0 <= k < evicted@.len() implies failed_probe(probes@, n + 1, (#[trigger] evicted@[k])@) by {
                    if k < ev_before.len() {
                        assert(evicted@[k] == ev_before[k]);
                        assert(failed_probe(probes@, n as int, ev_before[k]@));
                        let w = choose|w: int| 0 <= w < n && (#[trigger] probes@[w]).id@ == ev_before[k]@ && probes@[w].latency is None;
                    } else {
                        assert(probes@[n as int].id@ == evicted@[k]@);
                        if probe.latency is Some {
                            let i = choose|i: int| 0 <= i < before.len() && before[i].id@ == probe.id@;
                        }
                        assert(probes@[n as int].latency is None);
                    }
                }
                assert forall|k: int| 0 <= k < t.len() implies checked_last(
                    #[trigger] t[k],
                    probes@,
                    n + 1,
                    s0,
                ) by {
                    if t[k].id@ != probe.id@ {
                        assert(before.contains(t[k]));
                        let m = choose|m: int| 0 <= m < before.len() && before[m] == t[k];
                        assert(checked_last(before[m], probes@, n as int, s0));
                    } else {
                        assert(last_probe(probes@, n + 1, t[k].id@) == Some(probes@[n as int]));
                        let i = choose|i: int| 0 <= i < before.len() && before[i].id@ == probe.id@;
                        match probe.latency {
                            Some(l) => {
                                let j = choose|j: int|
                                    0 <= j < before.len() && t == before.remove(i).insert(
                                        j,
                                        checked_ok(before[i], l, at),
                                    );
                                lemma_reinsert(before, i, j, checked_ok(before[i], l, at));
                                if t[k] != checked_ok(before[i], l, at) {
                                    let m = choose|m: int| 0 <= m < before.len() && m != i && t[k] == before[m];
                                    assert(before[m].id@ != before[i].id@);
                                }
                            },
                            None => {
                                if evicts(before[i], max) {
                                    let k0 = if k < i { k } else { k + 1 };
                                    assert(t[k] == before[k0]);
                                    assert(before[k0].id@ != before[i].id@);
                                } else {
                                    if k != i {
                                        assert(t[k] == before[k]);
                                        assert(before[k].id@ != before[i].id@);
                                    }
                                }
                            },
                        }
                    }
                }
                assert forall|m: int| 0 <= m < s0.len() && !probed(probes@, n + 1, (#[trigger] s0[m]).id@) implies t.contains(s0[m]) by {
                    if !probed(probes@, n as int, s0[m].id@) {
                        assert(before.contains(s0[m]));
                        let b = choose|b: int| 0 <= b < before.len() && before[b] == s0[m];
                        assert(s0[m].id@ != probe.id@) by {
                            if s0[m].id@ == probe.id@ {
                                assert(probed(probes@, n + 1, s0[m].id@));
                            }
                        }
                    } else {
                        let w = choose|w: int| 0 <= w < n && (#[trigger] probes@[w]).id@ == s0[m].id@;
                        assert(probed(probes@, n + 1, s0[m].id@));
                    }
                }
                if verdict == HealthVerdict::Missing {
                    assert forall|k: int|
                        0 <= k < t.len() && max >= 1 && probed(probes@, n + 1, t[k].id@) implies (
                        #[trigger] t[k]).fail_count < max by {
                        if !probed(probes@, n as int, t[k].id@) {
                            assert(t[k].id@ == probe.id@);
                            assert(has_id(before, probe.id@));
                        }
                    }
                } else {
                    let i = choose|i: int| 0 <= i < before.len() && before[i].id@ == probe.id@;
                    if verdict == HealthVerdict::Evicted {
                        assert(t.len() + 1 == before.len());
                    } else {
                        assert(t.len() == before.len());
                    }
                    assert forall|k: int|
                        0 <= k < t.len() && max >= 1 && probed(probes@, n + 1, t[k].id@) implies (
                        #[trigger] t[k]).fail_count < max by {
                        if t[k].id@ != probe.id@ {
                            assert(before.contains(t[k]));
                            let m = choose|m: int| 0 <= m < before.len() && before[m] == t[k];
                            let w = choose|w: int| 0 <= w < n + 1 && (#[trigger] probes@[w]).id@ == t[k].id@;
                            assert(w != n);
                            assert(probed(probes@, n as int, before[m].id@));
                        }
                    }
                }
                assert forall|k: int| 0 <= k < t.len() implies has_id(s0, (#[trigger] t[k]).id@) by {
                    let m = choose|m: int| 0 <= m < before.len() && before[m].id@ == t[k].id@;
                    assert(has_id(s0, before[m].id@));
                }
            }
            proof {
                let t = self@.entries;
                let y = probe.id@;
                assert forall|m: int|
                    0 <= m < s0.len() && probe_count(probes@, n + 1, (#[trigger] s0[m]).id@) == 0
                        implies t.contains(s0[m]) by {
                    assert(s0[m].id@ != y);
                    assert(before.contains(s0[m]));
                    let b = choose|b: int| 0 <= b < before.len() && before[b] == s0[m];
                    assert(before[b].id@ != y);
                }
                assert forall|m: int|
                    0 <= m < s0.len() && probe_count(probes@, n + 1, (#[trigger] s0[m]).id@) == 1
                        implies single_check_effect(
                        t,
                        s0[m],
                        last_probe(probes@, n + 1, s0[m].id@)->Some_0.latency,
                        max,
                        at,
                    ) by {
                    let x = s0[m].id@;
                    if x != y {
                        assert(last_probe(probes@, n + 1, x) == last_probe(probes@, n as int, x));
                        let lat = last_probe(probes@, n as int, x)->Some_0.latency;
                        assert(single_check_effect(before, s0[m], lat, max, at));
                        match lat {
                            Some(l) => {
                                let e = checked_ok(s0[m], l, at);
                                let b = choose|b: int| 0 <= b < before.len() && before[b] == e;
                                assert(before[b].id@ != y);
                            },
                            None => {
                                if evicts(s0[m], max) {
                                    if has_id(t, x) {
                                        let k = choose|k: int| 0 <= k < t.len() && t[k].id@ == x;
                                        assert(has_id(before, t[k].id@));
                                    }
                                } else {
                                    let e = Proxy { fail_count: (s0[m].fail_count + 1) as u32, ..s0[m] };
                                    let b = choose|b: int| 0 <= b < before.len() && before[b] == e;
                                    assert(before[b].id@ != y);
                                }
                            },
                        }
                    } else {
                        assert(probe_count(probes@, n as int, x) == 0);
                        assert(last_probe(probes@, n + 1, x) == Some(probes@[n as int]));
                        assert(before.contains(s0[m]));
                        let b = choose|b: int| 0 <= b < before.len() && before[b] == s0[m];
                        assert(has_id(before, y));
                        assert(ids_unique(before));
                        let i = b;
                        match probe.latency {
                            Some(l) => {
                                assert(exists|j: int|
                                    0 <= j < before.len() && t == before.remove(i).insert(j, checked_ok(before[i], l, at)));
                                let j = choose|j: int|
                                    0 <= j < before.len() && t == before.remove(i).insert(j, checked_ok(before[i], l, at));
                                assert(t[j] == checked_ok(s0[m], l, at));
                            },
                            None => {
                                if evicts(before[i], max) {
                                    assert(t == before.remove(i));
                                    if has_id(t, x) {
                                        let k = choose|k: int| 0 <= k < t.len() && t[k].id@ == x;
                                        let k0 = if k < i { k } else { k + 1 };
                                        assert(t[k] == before[k0]);
                                    }
                                } else {
                                    assert(t == before.update(
                                        i,
                                        Proxy { fail_count: (before[i].fail_count + 1) as u32, ..before[i] },
                                    ));
                                    assert(t[i] == Proxy { fail_count: (s0[m].fail_count + 1) as u32, ..s0[m] });
                                }
                            },
                        }
                    }
                }
            }
            n = n + 1;
        }
        proof {
            let t = self@.entries;
            if (forall|k: int| 0 <= k < s0.len() ==> probed(probes@, probes@.len() as int, (#[trigger] s0[k]).id@)) && max >= 1 {
                assert forall|k: int| 0 <= k < t.len() implies (#[trigger] t[k]).fail_count < max by {
                    let m = choose|m: int| 0 <= m < s0.len() && s0[m].id@ == t[k].id@;
                    assert(probed(probes@, probes@.len() as int, s0[m].id@));
                }
            }
        }
        evicted
    }

    /// `host:port` of every entry, fastest first: what the upstream list
    /// file holds.
    pub fn addresses(&self) -> (r: Vec<String>)
        ensures
            r@.len() == self@.entries.len(),
            forall|k: int| 0 <= k < r@.len() ==> (#[trigger] r@[k])@ == address_of(self@.entries[k]),
    {
        let mut out: Vec<String> = Vec::new();
        let mut i: usize = 0;
        while i < self.entries.len()
            invariant
                i <= self.entries@.len(),
                out@.len() == i,
                forall|k: int| 0 <= k < i ==> (#[trigger] out@[k])@ == address_of(self.entries@[k]),
            decreases self.entries@.len() - i,
        {
            out.push(self.entries[i].address());
            i = i + 1;
        }
        out
    }
}

/// `e` is the fresh untested entry for upstream `c` under id `id`.
pub open spec fn fresh_from(e: Proxy, id: Seq<char>, c: ProxyConfig) -> bool {
    &&& e.id@ == id
    &&& e.info.host == c.host
    &&& e.info.port == c.port
    &&& e.info.username == c.username
    &&& e.info.password == c.password
    &&& e.status == ProxyStatus::Untested
    &&& e.latency == LATENCY_UNMEASURED
    &&& e.fail_count == 0
}

/// `e` is the fresh entry of one of the first `n` upstreams.
pub open spec fn from_one_of(e: Proxy, ids: Seq<String>, proxies: Seq<ProxyConfig>, n: int) -> bool {
    exists|c: int| 0 <= c < n && fresh_from(e, ids[c]@, proxies[c])
}

/// Some entry is the fresh entry of upstream `c`.
pub open spec fn holds_fresh(entries: Seq<Proxy>, ids: Seq<String>, proxies: Seq<ProxyConfig>, c: int) -> bool {
    exists|k: int| 0 <= k < entries.len() && fresh_from(entries[k], ids[c]@, proxies[c])
}

/// `e` is a fresh untested entry for upstream `c`, under whatever id.
pub open spec fn fresh_for(e: Proxy, c: ProxyConfig) -> bool {
    fresh_from(e, e.id@, c)
}

/// `e` is the fresh entry of one of `proxies`.
pub open spec fn fresh_for_one_of(e: Proxy, proxies: Seq<ProxyConfig>) -> bool {
    exists|c: int| 0 <= c < proxies.len() && fresh_for(e, proxies[c])
}

/// Some entry is a fresh entry for upstream `c`.
pub open spec fn holds_fresh_for(entries: Seq<Proxy>, c: ProxyConfig) -> bool {
    exists|k: int| 0 <= k < entries.len() && fresh_for(entries[k], c)
}

pub open spec fn id_views(ids: Seq<String>) -> Seq<Seq<char>> {
    ids.map_values(|s: String| s@)
}

pub open spec fn min_len(a: int, b: int) -> int {
    if a < b {
        a
    } else {
        b
    }
}

impl Pool {
    /// A pool holding a fresh untested entry for each configured upstream,
    /// under the id at the same position, as far as capacity allows. With
    /// distinct ids, the first upstreams up to the capacity are all there.
    pub fn with_ids(proxies: &Vec<ProxyConfig>, ids: &Vec<String>, options: PoolOptions) -> (r: Self)
        requires
            ids@.len() == proxies@.len(),
        ensures
            r.wf(),
            r@.options == options,
            r@.cursor == 0,
            r@.entries.len() <= proxies@.len(),
            r@.entries.len() <= options.max_size,
            forall|k: int|
                0 <= k < r@.entries.len() ==> from_one_of(
                    #[trigger] r@.entries[k],
                    ids@,
                    proxies@,
                    proxies@.len() as int,
                ),
            proxies@.len() > 0 && options.max_size > 0 ==> r@.entries.len() > 0,
            id_views(ids@).no_duplicates() ==> r@.entries.len() == min_len(
                proxies@.len() as int,
                options.max_size as int,
            ),
            id_views(ids@).no_duplicates() ==> forall|c: int|
                0 <= c < min_len(proxies@.len() as int, options.max_size as int) ==> #[trigger] holds_fresh(
                    r@.entries,
                    ids@,
                    proxies@,
                    c,
                ),
    {
        let ghost distinct = id_views(ids@).no_duplicates();
        let mut pool = Pool::new(options);
        let mut i: usize = 0;
        while i < proxies.len()
            invariant
                pool.wf(),
                pool@.options == options,
                pool@.cursor == 0,
                ids@.len() == proxies@.len(),
                distinct == id_views(ids@).no_duplicates(),
                i <= proxies@.len(),
                pool@.entries.len() <= i,
                pool@.entries.len() <= options.max_size,
                forall|k: int|
                    0 <= k < pool@.entries.len() ==> from_one_of(
                        #[trigger] pool@.entries[k],
                        ids@,
                        proxies@,
                        i as int,
                    ),
                i > 0 && options.max_size > 0 ==> pool@.entries.len() > 0,
                distinct ==> pool@.entries.len() == min_len(i as int, options.max_size as int),
                distinct ==> forall|c: int|
                    0 <= c < min_len(i as int, options.max_size as int) ==> #[trigger] holds_fresh(
                        pool@.entries,
                        ids@,
                        proxies@,
                        c,
                    ),
            decreases proxies@.len() - i,
        {
            let c = &proxies[i];
            let p = Proxy::with_id(
                ids[i].clone(),
                c.host.clone(),
                c.port,
                crate::proxy::clone_opt_string(&c.username),
                crate::proxy::clone_opt_string(&c.password),
            );
            let ghost q = p;
            assert(fresh_from(q, ids@[i as int]@, proxies@[i as int]));
            if pool.len() < pool.options.max_size {
                let ghost before = pool@.entries;
                let ghost had = has_id(before, q.id@);
                let _ = pool.add(p);
                proof {
                    let t = pool@.entries;
                    if had {
                        let (i0, j) = choose|i0: int, j: int|
                            0 <= i0 < before.len() && 0 <= j < before.len() && before[i0].id@ == q.id@
                                && t == before.remove(i0).insert(j, q);
                        lemma_reinsert(before, i0, j, q);
                        assert forall|k: int| 0 <= k < t.len() implies from_one_of(
                            #[trigger] t[k],
                            ids@,
                            proxies@,
                            i + 1,
                        ) by {
                            if t[k] != q {
                                let m = choose|m: int| 0 <= m < before.len() && m != i0 && t[k] == before[m];
                                assert(from_one_of(before[m], ids@, proxies@, i as int));
                                let c0 = choose|c0: int| 0 <= c0 < i && fresh_from(before[m], ids@[c0]@, proxies@[c0]);
                                assert(fresh_from(t[k], ids@[c0]@, proxies@[c0]));
                            } else {
                                assert(fresh_from(t[k], ids@[i as int]@, proxies@[i as int]));
                            }
                        }
                        if distinct {
                            assert(from_one_of(before[i0], ids@, proxies@, i as int));
                            let c0 = choose|c0: int| 0 <= c0 < i && fresh_from(before[i0], ids@[c0]@, proxies@[c0]);
                            assert(id_views(ids@)[c0] == id_views(ids@)[i as int]);
                        }
                    } else {
                        let j = choose|j: int| 0 <= j <= before.len() && t == before.insert(j, q);
                        assert forall|k: int| 0 <= k < t.len() implies from_one_of(
                            #[trigger] t[k],
                            ids@,
                            proxies@,
                            i + 1,
                        ) by {
                            if k < j {
                                assert(t[k] == before[k]);
                                assert(from_one_of(before[k], ids@, proxies@, i as int));
                                let c0 = choose|c0: int| 0 <= c0 < i && fresh_from(before[k], ids@[c0]@, proxies@[c0]);
                                assert(fresh_from(t[k], ids@[c0]@, proxies@[c0]));
                            } else if k > j {
                                assert(t[k] == before[k - 1]);
                                assert(from_one_of(before[k - 1], ids@, proxies@, i as int));
                                let c0 = choose|c0: int| 0 <= c0 < i && fresh_from(before[k - 1], ids@[c0]@, proxies@[c0]);
                                assert(fresh_from(t[k], ids@[c0]@, proxies@[c0]));
                            } else {
                                assert(fresh_from(t[k], ids@[i as int]@, proxies@[i as int]));
                            }
                        }
                        if distinct {
                            assert forall|c: int| 0 <= c < min_len(i + 1, options.max_size as int) implies #[trigger] holds_fresh(
                                t,
                                ids@,
                                proxies@,
                                c,
                            ) by {
                                if c < i {
                                    assert(holds_fresh(before, ids@, proxies@, c));
                                    let k0 = choose|k0: int| 0 <= k0 < before.len() && fresh_from(before[k0], ids@[c]@, proxies@[c]);
                                    let k1 = if k0 < j { k0 } else { k0 + 1 };
                                    assert(t[k1] == before[k0]);
                                    assert(fresh_from(t[k1], ids@[c]@, proxies@[c]));
                                } else {
                                    assert(t[j] == q);
                                    assert(fresh_from(t[j], ids@[c]@, proxies@[c]));
                                }
                            }
                        }
                    }
                }
            } else {
                proof {
                    assert(pool@.entries.len() >= options.max_size);
                    if distinct {
                        assert(min_len(i as int, options.max_size as int) == options.max_size as int);
                        assert(min_len(i + 1, options.max_size as int) == options.max_size as int);
                    }
                }
            }
            i = i + 1;
        }
        proof {
            assert(i == proxies@.len());
        }
        pool
    }

    /// A pool holding a fresh untested entry, under a new random id, for each
    /// configured upstream, as far as capacity allows: one entry for each of
    /// the first upstreams up to the capacity. Should two drawn ids coincide,
    /// the entries are numbered instead, so that ids stay distinct.
    pub fn new_with_proxies(proxies: Vec<ProxyConfig>, options: PoolOptions) -> (r: Self)
        ensures
            r.wf(),
            r@.options == options,
            r@.cursor == 0,
            r@.entries.len() == min_len(proxies@.len() as int, options.max_size as int),
            forall|k: int|
                0 <= k < r@.entries.len() ==> fresh_for_one_of(#[trigger] r@.entries[k], proxies@),
            forall|c: int|
                0 <= c < min_len(proxies@.len() as int, options.max_size as int) ==> holds_fresh_for(
                    r@.entries,
                    #[trigger] proxies@[c],
                ),
    {
        let mut ids: Vec<String> = Vec::new();
        let mut i: usize = 0;
        while i < proxies.len()
            invariant
                i <= proxies@.len(),
                ids@.len() == i,
            decreases proxies@.len() - i,
        {
            ids.push(crate::proxy::fresh_id());
            i = i + 1;
        }
        if !ids_distinct(&ids) {
            ids = numbered_ids(proxies.len());
        }
        let r = Pool::with_ids(&proxies, &ids, options);
        proof {
            assert forall|k: int| 0 <= k < r@.entries.len() implies fresh_for_one_of(
                #[trigger] r@.entries[k],
                proxies@,
            ) by {
                assert(from_one_of(r@.entries[k], ids@, proxies@, proxies@.len() as int));
                let c = choose|c: int| 0 <= c < proxies@.len() && fresh_from(r@.entries[k], ids@[c]@, proxies@[c]);
                assert(fresh_from(r@.entries[k], r@.entries[k].id@, proxies@[c]));
            }
            assert forall|c: int|
                0 <= c < min_len(proxies@.len() as int, options.max_size as int) implies holds_fresh_for(
                    r@.entries,
                    #[trigger] proxies@[c],
                ) by {
                assert(holds_fresh(r@.entries, ids@, proxies@, c));
                let k = choose|k: int| 0 <= k < r@.entries.len() && fresh_from(r@.entries[k], ids@[c]@, proxies@[c]);
                assert(fresh_from(r@.entries[k], r@.entries[k].id@, proxies@[c]));
            }
        }
        r
    }
}

/// The first of the first `n` results that succeeded and names `id`.
pub open spec fn first_success(results: Seq<TestResult>, n: int, id: Seq<char>) -> Option<TestResult>
    decreases n,
{
    if n <= 0 {
        None
    } else {
        match first_success(results, n - 1, id) {
            Some(r) => Some(r),
            None => if results[n - 1].success && results[n - 1].proxy_id@ == id {
                Some(results[n - 1])
            } else {
                None
            },
        }
    }
}

proof fn lemma_first_success(results: Seq<TestResult>, n: int, id: Seq<char>)
    ensures
        first_success(results, n, id) matches Some(r) ==> r.success && r.proxy_id@ == id,
    decreases n,
{
    if n > 0 {
        lemma_first_success(results, n - 1, id);
    }
}

/// What re-probing makes of the entry `e0`: a failed entry named by a
/// successful result takes the first such result; any other stays.
pub open spec fn retried(e0: Proxy, results: Seq<TestResult>, n: int) -> Proxy {
    if e0.status == ProxyStatus::Failed && first_success(results, n, e0.id@) is Some {
        tested(e0, first_success(results, n, e0.id@)->Some_0)
    } else {
        e0
    }
}

/// The lines of the list file written for a pool, fastest first.
pub open spec fn pool_addresses(m: PoolModel) -> Seq<Seq<char>> {
    m.entries.map_values(|p: Proxy| address_of(p))
}

/// A host that reads back from the list file as written.
pub open spec fn listable_host(h: Seq<char>) -> bool {
    &&& !h.contains('\n')
    &&& (h.len() > 0 ==> !is_blank(h[0]))
}

proof fn lemma_address_clean(p: Proxy)
    requires
        listable_host(p.info.host@),
    ensures
        clean_line(address_of(p)),
{
    let h = p.info.host@;
    let d = decimal(p.info.port as nat);
    lemma_decimal_digits(p.info.port as nat);
    let a = address_of(p);
    reveal_strlit(":");
    assert(a =~= h + seq![':'] + d);
    assert(a.last() == d.last());
    assert(is_digit(d[d.len() - 1]));
    if a.contains('\n') {
        let k = choose|k: int| 0 <= k < a.len() && a[k] == '\n';
        if k < h.len() {
            assert(h[k] == '\n');
        } else if k > h.len() {
            assert(d[k - h.len() - 1] == '\n');
        }
    }
    if h.len() > 0 {
        assert(a[0] == h[0]);
    }
}

/// Writing a pool's list file and reading it back gives the same set of
/// `host:port` addresses, and each line splits back into the host and port
/// of its entry.
pub proof fn lemma_persist_round_trip(m: PoolModel)
    requires
        forall|k: int| 0 <= k < m.entries.len() ==> listable_host((#[trigger] m.entries[k]).info.host@),
    ensures
        parse_list_spec(join_lines(pool_addresses(m))).to_set() == pool_addresses(m).to_set(),
        forall|k: int|
            0 <= k < m.entries.len() && m.entries[k].info.host@.len() > 0 && m.entries[k].info.port
                != 0 ==> parse_address_spec(#[trigger] pool_addresses(m)[k]) == Some(
                (m.entries[k].info.host@, m.entries[k].info.port),
            ),
{
    let ls = pool_addresses(m);
    assert forall|k: int| 0 <= k < ls.len() implies clean_line(#[trigger] ls[k]) by {
        lemma_address_clean(m.entries[k]);
    }
    lemma_list_round_trip(ls);
    reveal_strlit(":");
    assert forall|k: int|
        0 <= k < m.entries.len() && m.entries[k].info.host@.len() > 0 && m.entries[k].info.port
            != 0 implies parse_address_spec(#[trigger] ls[k]) == Some(
        (m.entries[k].info.host@, m.entries[k].info.port),
    ) by {
        let p = m.entries[k];
        assert(ls[k] == p.info.host@ + seq![':'] + decimal(p.info.port as nat));
        lemma_address_parses_back(p.info.host@, p.info.port);
    }
}

impl Pool {
    /// What `show` prints: the entry under the rotation cursor when the
    /// cursor advances on its own, else the fastest available entry.
    pub fn shown(&self, auto_switch: bool) -> (r: Option<Proxy>)
        requires
            self.wf(),
        ensures
            auto_switch ==> r == current_spec(self@),
            !auto_switch ==> (r is None <==> available_view(self@.entries).len() == 0),
            !auto_switch && r is Some ==> r == Some(available_view(self@.entries)[0]),
    {
        if auto_switch {
            self.current()
        } else {
            let r = self.get_available();
            proof {
                lemma_available_from(self@.entries);
                lemma_available_sorted(self@.entries);
                lemma_available_complete(self@.entries);
                let v = available_view(self@.entries);
                if r is None {
                    if v.len() > 0 {
                        assert(self@.entries.contains(v[0]));
                    }
                } else {
                    let p = r->Some_0;
                    assert(v.contains(p));
                    let k = choose|k: int| 0 <= k < v.len() && v[k] == p;
                    if k != 0 {
                        let t = choose|t: int| 0 <= t < self@.entries.len() && self@.entries[t] == v[0];
                        let i = choose|i: int| 0 <= i < self@.entries.len() && self@.entries[i] == p;
                        assert(key_lt(v[0], v[k]));
                        lemma_key_irreflexive(p);
                        assert(t != i);
                        assert(self@.entries[t].id@ != p.id@);
                        assert(key_lt(p, v[0]));
                        assert(key_lt(v[0], v[k]));
                        lemma_key_asymmetric(p, v[0]);
                    }
                }
            }
            r
        }
    }

    /// Snapshots of the entries that are failed, in the order of the pool.
    pub fn failed_entries(&self) -> (r: Vec<Proxy>)
        ensures
            forall|k: int| 0 <= k < r@.len() ==> (#[trigger] r@[k]).status == ProxyStatus::Failed
                && self@.entries.contains(r@[k]),
            forall|i: int|
                0 <= i < self@.entries.len() && (#[trigger] self@.entries[i]).status
                    == ProxyStatus::Failed ==> r@.contains(self@.entries[i]),
    {
        let mut out: Vec<Proxy> = Vec::new();
        let mut i: usize = 0;
        while i < self.entries.len()
            invariant
                i <= self.entries@.len(),
                forall|k: int| 0 <= k < out@.len() ==> (#[trigger] out@[k]).status
                    == ProxyStatus::Failed && self.entries@.contains(out@[k]),
                forall|j: int|
                    0 <= j < i && (#[trigger] self.entries@[j]).status == ProxyStatus::Failed
                        ==> out@.contains(self.entries@[j]),
            decreases self.entries@.len() - i,
        {
            if self.entries[i].status == ProxyStatus::Failed {
                let p = self.entries[i].duplicate();
                let ghost before = out@;
                out.push(p);
                proof {
                    assert(out@[out@.len() - 1] == self.entries@[i as int]);
                    assert forall|j: int|
                        0 <= j < i + 1 && (#[trigger] self.entries@[j]).status == ProxyStatus::Failed
                            implies out@.contains(self.entries@[j]) by {
                        if j < i {
                            let m = choose|m: int| 0 <= m < before.len() && before[m] == self.entries@[j];
                            assert(out@[m] == before[m]);
                        }
                    }
                }
            }
            i = i + 1;
        }
        out
    }

    /// Applies the results of re-probing failed entries: a failed entry
    /// named by a successful result takes the first such result and becomes
    /// available; every other entry stays as it was. Returns whether any
    /// entry changed.
    #[verifier::rlimit(60)]
    pub fn apply_retry_results(&mut self, results: &Vec<TestResult>) -> (changed: bool)
        requires
            old(self).wf(),
            forall|k: int| 0 <= k < results@.len() ==> (#[trigger] results@[k]).wf(),
        ensures
            final(self).wf(),
            final(self)@.options == old(self)@.options,
            final(self)@.entries.len() == old(self)@.entries.len(),
            forall|id: Seq<char>| has_id(final(self)@.entries, id) == has_id(old(self)@.entries, id),
            forall|m: int|
                0 <= m < old(self)@.entries.len() ==> final(self)@.entries.contains(
                    retried(#[trigger] old(self)@.entries[m], results@, results@.len() as int),
                ),
            !changed ==> final(self)@ == old(self)@,
            changed == exists|m: int|
                0 <= m < old(self)@.entries.len() && (#[trigger] old(self)@.entries[m]).status
                    == ProxyStatus::Failed && first_success(
                    results@,
                    results@.len() as int,
                    old(self)@.entries[m].id@,
                ) is Some,
    {
        let ghost s0 = self@.entries;
        let mut changed = false;
        let mut n: usize = 0;
        while n < results.len()
            invariant
                self.wf(),
                self@.options == old(self)@.options,
                s0 == old(self)@.entries,
                ids_unique(s0),
                n <= results@.len(),
                forall|k: int| 0 <= k < results@.len() ==> (#[trigger] results@[k]).wf(),
                self@.entries.len() == s0.len(),
                forall|id: Seq<char>| has_id(self@.entries, id) == has_id(s0, id),
                forall|m: int|
                    0 <= m < s0.len() ==> self@.entries.contains(
                        retried(#[trigger] s0[m], results@, n as int),
                    ),
                !changed ==> self@ == old(self)@,
                changed == exists|m: int|
                    0 <= m < s0.len() && (#[trigger] s0[m]).status == ProxyStatus::Failed
                        && first_success(results@, n as int, s0[m].id@) is Some,
            decreases results@.len() - n,
        {
            let ghost before = self@.entries;
            let ghost changed_before = changed;
            let r = &results[n];
            let mut applied = false;
            if r.success {
                match self.find(&r.proxy_id) {
                    Some(i) => {
                        if self.entries[i].status == ProxyStatus::Failed {
                            proof {
                                assert(self@.entries[i as int].status == ProxyStatus::Failed);
                            }
                            applied = self.apply_test_result(r);
                            changed = true;
                        }
                    },
                    None => {},
                }
            }
            proof {
                let rr = results@[n as int];
                let y = rr.proxy_id@;
                let t = self@.entries;
                assert(ids_unique(before));
                // the entries a result could change are those with id y
                assert forall|m: int| 0 <= m < s0.len() && (#[trigger] s0[m]).id@ != y implies retried(
                    s0[m],
                    results@,
                    n + 1,
                ) == retried(s0[m], results@, n as int) by {
                    assert(first_success(results@, n + 1, s0[m].id@) == first_success(results@, n as int, s0[m].id@));
                }
                if applied {
                    let (i, j) = choose|i: int, j: int|
                        0 <= i < before.len() && 0 <= j < before.len() && before[i].id@ == y && t
                            == before.remove(i).insert(j, tested(before[i], rr));
                    assert(before[i].status == ProxyStatus::Failed);
                    assert(has_id(s0, y));
                    let m0 = choose|m0: int| 0 <= m0 < s0.len() && s0[m0].id@ == y;
                    let e0 = retried(s0[m0], results@, n as int);
                    let b = choose|b: int| 0 <= b < before.len() && before[b] == e0;
                    assert(e0.id@ == y);
                    assert(b == i);
                    lemma_first_success(results@, n as int, y);
                    assert(first_success(results@, n as int, y) is None);
                    assert(before[i] == s0[m0]);
                    assert(first_success(results@, n + 1, y) == Some(rr));
                    assert(t[j] == retried(s0[m0], results@, n + 1));
                    assert forall|m: int| 0 <= m < s0.len() implies t.contains(
                        retried(#[trigger] s0[m], results@, n + 1),
                    ) by {
                        if s0[m].id@ == y {
                            assert(s0.len() == s0.len());
                            assert(m == m0) by {
                                assert(ids_unique(s0));
                            }
                        } else {
                            let e = retried(s0[m], results@, n as int);
                            let c = choose|c: int| 0 <= c < before.len() && before[c] == e;
                            keeps_other(before, t, rr, true, c);
                        }
                    }
                    assert(s0[m0].status == ProxyStatus::Failed && first_success(results@, n + 1, s0[m0].id@) is Some);
                    lemma_reinsert(before, i, j, tested(before[i], rr));
                } else {
                    assert(t == before);
                    assert forall|m: int| 0 <= m < s0.len() && (#[trigger] s0[m]).id@ == y implies retried(
                        s0[m],
                        results@,
                        n + 1,
                    ) == retried(s0[m], results@, n as int) by {
                        if rr.success && s0[m].status == ProxyStatus::Failed && first_success(results@, n as int, y) is None {
                            let e0 = retried(s0[m], results@, n as int);
                            assert(e0 == s0[m]);
                            let b = choose|b: int| 0 <= b < before.len() && before[b] == e0;
                            assert(has_id(before, y));
                        }
                    }
                    assert forall|m: int| 0 <= m < s0.len() implies t.contains(
                        retried(#[trigger] s0[m], results@, n + 1),
                    ) by {
                        assert(retried(s0[m], results@, n + 1) == retried(s0[m], results@, n as int));
                    }
                    assert forall|m: int| 0 <= m < s0.len() && (#[trigger] s0[m]).status == ProxyStatus::Failed implies
                        (first_success(results@, n + 1, s0[m].id@) is Some <==> first_success(results@, n as int, s0[m].id@) is Some) by {
                        if s0[m].id@ == y {
                            assert(retried(s0[m], results@, n + 1) == retried(s0[m], results@, n as int));
                            if first_success(results@, n + 1, y) is Some && first_success(results@, n as int, y) is None {
                                lemma_first_success(results@, n + 1, y);
                                assert(retried(s0[m], results@, n + 1) != s0[m]) by {
                                    assert(tested(s0[m], first_success(results@, n + 1, y)->Some_0).status == ProxyStatus::Available);
                                }
                            }
                        } else {
                            assert(first_success(results@, n + 1, s0[m].id@) == first_success(results@, n as int, s0[m].id@));
                        }
                    }
                }
            }
            n = n + 1;
        }
        changed
    }
}

/// In every pool, the first entry of the available view has the least
/// latency of all available entries, ties going to the smaller id.
pub proof fn lemma_fastest_first(m: PoolModel)
    requires
        m.wf(),
        available_view(m.entries).len() > 0,
    ensures
        forall|k: int|
            0 < k < available_view(m.entries).len() ==> key_lt(
                available_view(m.entries)[0],
                #[trigger] available_view(m.entries)[k],
            ) && available_view(m.entries)[0].latency <= available_view(m.entries)[k].latency,
{
    lemma_available_sorted(m.entries);
    let v = available_view(m.entries);
    assert forall|k: int| 0 < k < v.len() implies key_lt(v[0], #[trigger] v[k]) && v[0].latency <= v[k].latency by {
        assert(sorted_by_key(v));
        assert(key_lt(v[0], v[k]));
    }
}

/// Whether no two of `ids` are equal.
fn ids_distinct(ids: &Vec<String>) -> (r: bool)
    ensures
        r == id_views(ids@).no_duplicates(),
{
    let ghost v = id_views(ids@);
    let mut i: usize = 0;
    while i < ids.len()
        invariant
            v == id_views(ids@),
            i <= ids@.len(),
            forall|a: int, b: int| 0 <= a < i && 0 <= b < ids@.len() && a != b ==> v[a] != v[b],
        decreases ids@.len() - i,
    {
        let mut j: usize = 0;
        while j < ids.len()
            invariant
                v == id_views(ids@),
                i < ids@.len(),
                j <= ids@.len(),
                forall|a: int, b: int| 0 <= a < i && 0 <= b < ids@.len() && a != b ==> v[a] != v[b],
                forall|b: int| 0 <= b < j && b != i ==> v[i as int] != v[b],
            decreases ids@.len() - j,
        {
            if j != i && ids[i] == ids[j] {
                assert(v[i as int] == v[j as int]);
                return false;
            }
            j = j + 1;
        }
        i = i + 1;
    }
    true
}

/// The ids `0`, `1`, ... up to `n - 1`, in decimal.
fn numbered_ids(n: usize) -> (r: Vec<String>)
    ensures
        r@.len() == n,
        id_views(r@).no_duplicates(),
{
    let mut out: Vec<String> = Vec::new();
    let mut i: usize = 0;
    while i < n
        invariant
            i <= n,
            out@.len() == i,
            forall|k: int| 0 <= k < i ==> (#[trigger] out@[k])@ == decimal(k as nat),
        decreases n - i,
    {
        let mut s = String::new();
        crate::text::push_decimal(&mut s, i as u64);
        assert(s@ =~= decimal(i as nat));
        out.push(s);
        i = i + 1;
    }
    proof {
        let v = id_views(out@);
        assert forall|a: int, b: int| 0 <= a < v.len() && 0 <= b < v.len() && a != b implies v[a] != v[b] by {
            crate::listfile::lemma_decimal_value(a as nat);
            crate::listfile::lemma_decimal_value(b as nat);
            assert(v[a] == decimal(a as nat));
            assert(v[b] == decimal(b as nat));
        }
    }
    out
}

} // verus!
