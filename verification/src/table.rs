//! Keyed rows: the part of the store that an operation works on.
use crate::names::{Names, in_order, lemma_take_set};
use crate::text::same;
use vstd::prelude::*;
use vstd::string::*;

verus! {

/// A row that can be copied out of a table.
pub trait Row: View + Sized {
    /// A copy with the same contents.
    fn dup(&self) -> (r: Self)
        ensures
            r@ == self@,
    ;
}

impl Row for String {
    fn dup(&self) -> (r: Self) {
        self.clone()
    }
}

impl Row for u64 {
    fn dup(&self) -> (r: Self) {
        *self
    }
}

/// The views of a list of rows.
pub open spec fn views<R: Row>(v: Seq<R>) -> Seq<R::V> {
    v.map_values(|r: R| r@)
}

/// The view of an optional row.
pub open spec fn opt_view<R: Row>(o: Option<R>) -> Option<R::V> {
    match o {
        Some(r) => Some(r@),
        None => None,
    }
}

/// A copy of a list of rows.
pub fn dup_list<R: Row>(v: &Vec<R>) -> (r: Vec<R>)
    ensures
        views(r@) == views(v@),
        r.len() == v.len(),
{
    let mut r: Vec<R> = Vec::new();
    let mut i: usize = 0;
    while i < v.len()
        invariant
            i <= v.len(),
            views(r@) == views(v@).take(i as int),
        decreases v.len() - i,
    {
        let ghost was = views(r@);
        r.push(v[i].dup());
        i = i + 1;
        assert(views(r@) =~= was.push(v@[i - 1]@));
        assert(views(r@) =~= views(v@).take(i as int));
    }
    assert(views(v@).take(i as int) =~= views(v@));
    assert(views(r@).len() == r.len());
    r
}

/// A copy of an optional row.
pub fn dup_opt<R: Row>(o: &Option<R>) -> (r: Option<R>)
    ensures
        opt_view(r) == opt_view(*o),
{
    match o {
        Some(x) => Some(x.dup()),
        None => None,
    }
}

/// Rows by key. No key occurs twice.
pub struct Table<R: Row> {
    entries: Vec<(String, R)>,
}

/// No two entries have the same key.
pub open spec fn distinct_keys<V>(s: Seq<(Seq<char>, V)>) -> bool {
    forall|i: int, j: int| 0 <= i < j < s.len() ==> (#[trigger] s[i]).0 != (#[trigger] s[j]).0
}

/// An entry of `s` has the key `k`.
pub open spec fn keyed<V>(s: Seq<(Seq<char>, V)>, k: Seq<char>) -> bool {
    exists|i: int| 0 <= i < s.len() && (#[trigger] s[i]).0 == k
}

/// The position of the entry with the key `k`.
pub open spec fn position<V>(s: Seq<(Seq<char>, V)>, k: Seq<char>) -> int {
    choose|i: int| 0 <= i < s.len() && (#[trigger] s[i]).0 == k
}

/// The map that the entries of `s` make.
pub open spec fn as_map<V>(s: Seq<(Seq<char>, V)>) -> Map<Seq<char>, V> {
    Map::new(|k: Seq<char>| keyed(s, k), |k: Seq<char>| s[position(s, k)].1)
}

pub proof fn lemma_as_map<V>(s: Seq<(Seq<char>, V)>)
    requires
        distinct_keys(s),
    ensures
        forall|k: Seq<char>| #[trigger] as_map(s).dom().contains(k) <==> keyed(s, k),
        forall|i: int|
            0 <= i < s.len() ==> as_map(s).dom().contains((#[trigger] s[i]).0) && as_map(s)[s[i].0]
                == s[i].1,
{
    assert forall|i: int| 0 <= i < s.len() implies as_map(s).dom().contains((#[trigger] s[i]).0)
        && as_map(s)[s[i].0] == s[i].1 by {
        assert(keyed(s, s[i].0));
        let j = position(s, s[i].0);
        assert(s[j].0 == s[i].0);
        assert(i == j) by {
            if i < j {
                assert(s[i].0 != s[j].0);
            } else if j < i {
                assert(s[j].0 != s[i].0);
            }
        }
    }
}

/// A map is made by `s` when it has its keys and its rows.
proof fn lemma_map_eq<V>(s: Seq<(Seq<char>, V)>, m: Map<Seq<char>, V>)
    requires
        distinct_keys(s),
        forall|k: Seq<char>| #[trigger] m.dom().contains(k) ==> keyed(s, k),
        forall|i: int|
            0 <= i < s.len() ==> m.dom().contains((#[trigger] s[i]).0) && m[s[i].0] == s[i].1,
    ensures
        as_map(s) == m,
{
    lemma_as_map(s);
    assert(as_map(s) =~= m) by {
        assert forall|k: Seq<char>| as_map(s).dom().contains(k) <==> m.dom().contains(k) by {
            if keyed(s, k) {
                let i = position(s, k);
                assert(s[i].0 == k);
            }
        }
        assert forall|k: Seq<char>| as_map(s).dom().contains(k) implies as_map(s)[k] == m[k] by {
            let i = position(s, k);
            assert(s[i].0 == k);
        }
    }
}

impl<R: Row> View for Table<R> {
    type V = Map<Seq<char>, R::V>;

    closed spec fn view(&self) -> Map<Seq<char>, R::V> {
        as_map(self.entries())
    }
}

impl<R: Row> Row for Table<R> {
    fn dup(&self) -> (t: Self) {
        let mut t: Table<R> = Table::new();
        let mut i: usize = 0;
        self.listing();
        while i < self.len()
            invariant
                i <= self.entries().len(),
                distinct_keys(self.entries()),
                t.entries() == self.entries().take(i as int),
                forall|k: Seq<char>| #[trigger] t@.dom().contains(k) <==> keyed(t.entries(), k),
            decreases self.entries().len() - i,
        {
            let ghost was = t.entries();
            proof {
                let k = self.entries()[i as int].0;
                if keyed(was, k) {
                    let j = position(was, k);
                    assert(was[j].0 == k);
                    assert(was[j] == self.entries()[j]);
                }
            }
            t.put(self.key_at(i).as_str(), self.row_at(i).dup());
            i = i + 1;
            assert(t.entries() =~= self.entries().take(i as int));
            t.listing();
        }
        t.listing();
        assert(self.entries().take(i as int) =~= self.entries());
        t
    }
}

/// The rows of the keys that are in `keep`, in order.
pub open spec fn rows_in<V>(m: Map<Seq<char>, V>, keys: Seq<Seq<char>>, keep: Set<Seq<char>>) -> Seq<V>
    decreases keys.len(),
{
    if keys.len() == 0 {
        Seq::empty()
    } else if keep.contains(keys.last()) {
        rows_in(m, keys.drop_last(), keep).push(m[keys.last()])
    } else {
        rows_in(m, keys.drop_last(), keep)
    }
}

impl<R: Row> Table<R> {
    /// The keys and rows in the order in which the table lists them.
    pub closed spec fn entries(&self) -> Seq<(Seq<char>, R::V)> {
        listed(self.entries@)
    }

    #[verifier::type_invariant]
    spec fn inv(&self) -> bool {
        distinct_keys(self.entries())
    }

    /// The listing and the map say the same: each listed key is in the map with its row,
    /// each key of the map is listed, and no key is listed twice.
    pub fn listing(&self)
        ensures
            distinct_keys(self.entries()),
            self@ == as_map(self.entries()),
            forall|k: Seq<char>| #[trigger] self@.dom().contains(k) <==> keyed(self.entries(), k),
            forall|i: int|
                0 <= i < self.entries().len() ==> self@.dom().contains(
                    (#[trigger] self.entries()[i]).0,
                ) && self@[self.entries()[i].0] == self.entries()[i].1,
    {
        proof {
            use_type_invariant(self);
            lemma_as_map(self.entries());
        }
    }

    /// A table without rows.
    pub fn new() -> (t: Self)
        ensures
            t@ == Map::<Seq<char>, R::V>::empty(),
            t.entries().len() == 0,
    {
        let t = Table { entries: Vec::new() };
        proof {
            lemma_map_eq(t.entries(), Map::empty());
        }
        t
    }

    pub fn len(&self) -> (n: usize)
        ensures
            n == self.entries().len(),
    {
        self.entries.len()
    }

    /// The key of the entry at `i`.
    pub fn key_at(&self, i: usize) -> (k: &String)
        requires
            i < self.entries().len(),
        ensures
            k@ == self.entries()[i as int].0,
    {
        &self.entries[i].0
    }

    /// The row of the entry at `i`.
    pub fn row_at(&self, i: usize) -> (r: &R)
        requires
            i < self.entries().len(),
        ensures
            r@ == self.entries()[i as int].1,
    {
        &self.entries[i].1
    }

    fn find(&self, key: &str) -> (r: Option<usize>)
        ensures
            match r {
                Some(i) => i < self.entries().len() && self.entries()[i as int].0 == key@,
                None => !keyed(self.entries(), key@),
            },
    {
        let mut i: usize = 0;
        while i < self.entries.len()
            invariant
                i <= self.entries.len(),
                forall|j: int| 0 <= j < i ==> (#[trigger] self.entries()[j]).0 != key@,
            decreases self.entries.len() - i,
        {
            if same(self.entries[i].0.as_str(), key) {
                return Some(i);
            }
            assert(self.entries()[i as int].0 != key@);
            i = i + 1;
        }
        None
    }

    /// The row with the key `key`.
    pub fn get(&self, key: &str) -> (r: Option<&R>)
        ensures
            r is Some == self@.dom().contains(key@),
            r matches Some(v) ==> v@ == self@[key@],
    {
        self.listing();
        match self.find(key) {
            Some(i) => Some(&self.entries[i].1),
            None => None,
        }
    }

    pub fn has(&self, key: &str) -> (r: bool)
        ensures
            r == self@.dom().contains(key@),
    {
        self.get(key).is_some()
    }

    /// The keys.
    pub fn keys(&self) -> (r: Names)
        ensures
            r@ == self@.dom(),
    {
        let mut r = Names::new();
        let mut i: usize = 0;
        self.listing();
        while i < self.len()
            invariant
                i <= self.entries().len(),
                forall|j: int| 0 <= j < i ==> r@.contains((#[trigger] self.entries()[j]).0),
                forall|k: Seq<char>| #[trigger] r@.contains(k) ==> keyed(self.entries(), k),
            decreases self.entries().len() - i,
        {
            let _ = r.insert(self.key_at(i).as_str());
            assert(keyed(self.entries(), self.entries()[i as int].0));
            i = i + 1;
        }
        proof {
            assert forall|k: Seq<char>| self@.dom().contains(k) implies r@.contains(k) by {
                let j = position(self.entries(), k);
                assert(self.entries()[j].0 == k);
            }
            assert(r@ =~= self@.dom());
        }
        r
    }

    /// Replaces the row of the entry at `i`.
    pub fn set_row(&mut self, i: usize, row: R)
        requires
            i < old(self).entries().len(),
        ensures
            final(self).entries() == old(self).entries().update(
                i as int,
                (old(self).entries()[i as int].0, row@),
            ),
            final(self)@ == old(self)@.insert(old(self).entries()[i as int].0, row@),
    {
        self.listing();
        let ghost was = self.entries();
        let ghost m = self@;
        let ghost key = was[i as int].0;
        let k = self.entries[i].0.clone();
        let mut all: Vec<(String, R)> = Vec::new();
        core::mem::swap(&mut all, &mut self.entries);
        all[i] = (k, row);
        let ghost now = listed(all@);
        proof {
            assert(now =~= was.update(i as int, (key, row@)));
            assert forall|k: Seq<char>| #[trigger] m.insert(key, row@).dom().contains(k) implies keyed(
                now,
                k,
            ) by {
                assert(keyed(was, k) || k == key);
                let j = if k == key {
                    i as int
                } else {
                    position(was, k)
                };
                assert(now[j].0 == k);
            }
            lemma_map_eq(now, m.insert(key, row@));
        }
        core::mem::swap(&mut all, &mut self.entries);
    }

    /// Stores `row` under `key`, in place of what was there. A new key is listed last.
    pub fn put(&mut self, key: &str, row: R)
        ensures
            final(self)@ == old(self)@.insert(key@, row@),
            !old(self)@.dom().contains(key@) ==> final(self).entries() == old(
                self,
            ).entries().push((key@, row@)),
    {
        self.listing();
        match self.find(key) {
            Some(i) => {
                self.set_row(i, row);
            },
            None => {
                let ghost was = self.entries();
                let ghost m = self@;
                let mut all: Vec<(String, R)> = Vec::new();
                core::mem::swap(&mut all, &mut self.entries);
                all.push((key.to_owned(), row));
                let ghost now = listed(all@);
                proof {
                    assert(now =~= was.push((key@, row@)));
                    assert forall|i: int, j: int| 0 <= i < j < now.len() implies (
                    #[trigger] now[i]).0 != (#[trigger] now[j]).0 by {
                        assert(now[i] == was[i]);
                    }
                    assert forall|k: Seq<char>| #[trigger] m.insert(key@, row@).dom().contains(
                        k,
                    ) implies keyed(now, k) by {
                        if k != key@ {
                            let j = position(was, k);
                            assert(now[j].0 == k);
                        } else {
                            assert(now[was.len() as int].0 == k);
                        }
                    }
                    assert forall|i: int| 0 <= i < now.len() implies m.insert(
                        key@,
                        row@,
                    ).dom().contains((#[trigger] now[i]).0) && m.insert(key@, row@)[now[i].0]
                        == now[i].1 by {
                        if i < was.len() {
                            assert(now[i] == was[i]);
                        }
                    }
                    lemma_map_eq(now, m.insert(key@, row@));
                }
                core::mem::swap(&mut all, &mut self.entries);
            },
        }
    }

    /// Removes the entry at `i`; the entries behind it move up.
    pub fn remove_at(&mut self, i: usize)
        requires
            i < old(self).entries().len(),
        ensures
            final(self).entries() == old(self).entries().remove(i as int),
            final(self)@ == old(self)@.remove(old(self).entries()[i as int].0),
    {
        self.listing();
        let ghost was = self.entries();
        let ghost m = self@;
        let ghost key = was[i as int].0;
        let mut all: Vec<(String, R)> = Vec::new();
        core::mem::swap(&mut all, &mut self.entries);
        let _ = all.remove(i);
        let ghost now = listed(all@);
        proof {
            assert(now =~= was.remove(i as int));
            assert forall|a: int, b: int| 0 <= a < b < now.len() implies (#[trigger] now[a]).0 != (
            #[trigger] now[b]).0 by {
                let c = if a < i {
                    a
                } else {
                    a + 1
                };
                let d = if b < i {
                    b
                } else {
                    b + 1
                };
                assert(now[a] == was[c] && now[b] == was[d]);
            }
            assert forall|k: Seq<char>| #[trigger] m.remove(key).dom().contains(k) implies keyed(
                now,
                k,
            ) by {
                let j = position(was, k);
                assert(was[j].0 == k);
                assert(now[if j < i {
                    j
                } else {
                    j - 1
                }].0 == k);
            }
            assert forall|a: int| 0 <= a < now.len() implies m.remove(key).dom().contains(
                (#[trigger] now[a]).0,
            ) && m.remove(key)[now[a].0] == now[a].1 by {
                let c = if a < i {
                    a
                } else {
                    a + 1
                };
                assert(now[a] == was[c]);
                if c < i {
                    assert(was[c].0 != was[i as int].0);
                } else {
                    assert(was[i as int].0 != was[c].0);
                }
            }
            lemma_map_eq(now, m.remove(key));
        }
        core::mem::swap(&mut all, &mut self.entries);
    }

    /// Removes the row with the key `key`, if there is one.
    pub fn delete(&mut self, key: &str)
        ensures
            final(self)@ == old(self)@.remove(key@),
    {
        self.listing();
        match self.find(key) {
            Some(i) => {
                self.remove_at(i);
            },
            None => {
                assert(self@ =~= self@.remove(key@));
            },
        }
    }

    /// The keys of the rows that `pick` picks.
    pub fn keys_where<F: Fn(&R) -> bool>(&self, pick: F, Ghost(p): Ghost<spec_fn(R::V) -> bool>) -> (r: Names)
        requires
            forall|r: &R| call_requires(pick, (r,)),
            forall|r: &R, b: bool| call_ensures(pick, (r,), b) ==> b == p(r@),
        ensures
            r@ == self@.dom().filter(|k: Seq<char>| p(self@[k])),
    {
        let keys = self.keys();
        keys.listing();
        let ghost all = in_order(keys@);
        let ghost q = |k: Seq<char>| p(self@[k]);
        let n: usize = keys.len();
        let mut out = Names::new();
        let mut i: usize = 0;
        assert(all.take(0).to_set().filter(q) =~= Set::<Seq<char>>::empty());
        while i < n
            invariant
                i <= n,
                n == all.len(),
                all == in_order(keys@),
                keys@ == self@.dom(),
                q == (|k: Seq<char>| p(self@[k])),
                forall|r: &R| call_requires(pick, (r,)),
                forall|r: &R, b: bool| call_ensures(pick, (r,), b) ==> b == p(r@),
                out@ == all.take(i as int).to_set().filter(q),
            decreases n - i,
        {
            let key = keys.at(i).as_str();
            proof {
                lemma_take_set(all, i as int);
            }
            if let Some(row) = self.get(key) {
                if pick(row) {
                    out.insert(key);
                }
            }
            assert(out@ =~= all.take(i + 1).to_set().filter(q));
            i = i + 1;
        }
        proof {
            assert(all.take(n as int) =~= all);
            assert(all.to_set() =~= keys@);
        }
        out
    }

    /// The rows of the keys among `keep`, in the order of their keys.
    pub fn rows_among(&self, keep: &Names) -> (r: Vec<R>)
        ensures
            views(r@) == rows_in(self@, in_order(self@.dom()), keep@),
    {
        let keys = self.keys();
        keys.listing();
        let ghost all = in_order(keys@);
        let n: usize = keys.len();
        let mut out: Vec<R> = Vec::new();
        let mut i: usize = 0;
        assert(views(out@) =~= rows_in(self@, all.take(0), keep@));
        while i < n
            invariant
                i <= n,
                n == all.len(),
                all == in_order(keys@),
                keys@ == self@.dom(),
                views(out@) == rows_in(self@, all.take(i as int), keep@),
            decreases n - i,
        {
            let key = keys.at(i).as_str();
            proof {
                assert(all.take(i + 1).drop_last() =~= all.take(i as int));
            }
            if keep.contains(key) {
                if let Some(row) = self.get(key) {
                    let ghost was = views(out@);
                    let x = row.dup();
                    let ghost xm = x@;
                    out.push(x);
                    assert(views(out@) =~= was.push(xm));
                }
            }
            i = i + 1;
        }
        assert(all.take(n as int) =~= all);
        out
    }

    /// Removes the rows of these keys.
    pub fn remove_all(&mut self, keys: &Names)
        ensures
            final(self)@ == old(self)@.remove_keys(keys@),
    {
        let ghost m0 = self@;
        let ghost all = in_order(keys@);
        keys.listing();
        let n: usize = keys.len();
        let mut i: usize = 0;
        assert(m0.remove_keys(all.take(0).to_set()) =~= m0);
        while i < n
            invariant
                i <= n,
                n == all.len(),
                all == in_order(keys@),
                self@ == m0.remove_keys(all.take(i as int).to_set()),
            decreases n - i,
        {
            let ghost before = all.take(i as int);
            let ghost after = all.take(i + 1);
            self.delete(keys.at(i).as_str());
            proof {
                assert(after =~= before.push(all[i as int]));
                assert forall|k: Seq<char>| #[trigger] after.to_set().contains(k) <==> before.to_set().contains(k)
                    || k == all[i as int] by {
                    if before.contains(k) {
                        let j = before.index_of(k);
                        assert(after[j] == k);
                    }
                    if after.contains(k) {
                        let j = after.index_of(k);
                        if j < i {
                            assert(before[j] == k);
                        }
                    }
                    assert(after[i as int] == all[i as int]);
                }
                assert(self@ =~= m0.remove_keys(after.to_set()));
            }
            i = i + 1;
        }
        proof {
            assert(all.take(n as int) =~= all);
            assert(all.to_set() =~= keys@);
        }
    }

    /// Removes every row that `drop` selects at the time `at`.
    pub fn purge<F: Fn(&R, u64) -> bool>(&mut self, at: u64, drop: F, Ghost(p): Ghost<spec_fn(R::V) -> bool>)
        requires
            forall|r: &R| call_requires(drop, (r, at)),
            forall|r: &R, b: bool| call_ensures(drop, (r, at), b) ==> b == p(r@),
        ensures
            final(self)@ == without(old(self)@, p),
    {
        let ghost m = self@;
        let mut i: usize = 0;
        self.listing();
        while i < self.len()
            invariant
                i <= self.entries().len(),
                forall|r: &R| call_requires(drop, (r, at)),
                forall|r: &R, b: bool| call_ensures(drop, (r, at), b) ==> b == p(r@),
                forall|k: Seq<char>| #[trigger]
                    self@.dom().contains(k) ==> m.dom().contains(k) && self@[k] == m[k],
                forall|k: Seq<char>| #[trigger]
                    m.dom().contains(k) && !self@.dom().contains(k) ==> p(m[k]),
                forall|j: int| 0 <= j < i ==> !p((#[trigger] self.entries()[j]).1),
            decreases self.entries().len() - i,
        {
            self.listing();
            let out = drop(self.row_at(i), at);
            if out {
                let ghost was = self.entries();
                self.remove_at(i);
                proof {
                    assert forall|j: int| 0 <= j < i implies !p((#[trigger] self.entries()[j]).1) by {
                        assert(self.entries()[j] == was[j]);
                    }
                }
            } else {
                i = i + 1;
            }
        }
        self.listing();
        proof {
            assert forall|k: Seq<char>| #[trigger] self@.dom().contains(k) implies !p(m[k]) by {
                let j = position(self.entries(), k);
                assert(self.entries()[j].0 == k);
            }
            assert(self@ =~= without(m, p));
        }
    }
}

/// The entries of a table as keys and views.
spec fn listed<R: Row>(s: Seq<(String, R)>) -> Seq<(Seq<char>, R::V)> {
    s.map_values(|e: (String, R)| (e.0@, e.1@))
}

/// `m` without the rows for which `p` holds.
pub open spec fn without<V>(m: Map<Seq<char>, V>, p: spec_fn(V) -> bool) -> Map<Seq<char>, V> {
    Map::new(|k: Seq<char>| m.dom().contains(k) && !p(m[k]), |k: Seq<char>| m[k])
}

/// What a purge leaves is what does not match, unchanged.
pub proof fn purges_leave_what_does_not_match<V>(
    m: Map<Seq<char>, V>,
    p: spec_fn(V) -> bool,
    k: Seq<char>,
)
    ensures
        without(m, p).dom().contains(k) <==> m.dom().contains(k) && !p(m[k]),
        without(m, p).dom().contains(k) ==> without(m, p)[k] == m[k],
{
}

/// The rows of some keys are those that are kept, in the order of the keys.
pub proof fn rows_follow_their_keys<V>(
    m: Map<Seq<char>, V>,
    a: Seq<Seq<char>>,
    b: Seq<Seq<char>>,
    k: Seq<char>,
    keep: Set<Seq<char>>,
)
    ensures
        rows_in(m, a + b, keep) == rows_in(m, a, keep) + rows_in(m, b, keep),
        rows_in(m, seq![k], keep) == (if keep.contains(k) {
            seq![m[k]]
        } else {
            Seq::<V>::empty()
        }),
    decreases b.len(),
{
    reveal_with_fuel(rows_in, 2);
    assert(seq![k].drop_last() =~= Seq::<Seq<char>>::empty());
    assert(rows_in(m, seq![k].drop_last(), keep) =~= Seq::<V>::empty());
    assert(rows_in(m, seq![k], keep) =~= (if keep.contains(k) {
        seq![m[k]]
    } else {
        Seq::<V>::empty()
    }));
    if b.len() == 0 {
        assert(a + b =~= a);
        assert(rows_in(m, a, keep) + rows_in(m, b, keep) =~= rows_in(m, a, keep));
    } else {
        rows_follow_their_keys(m, a, b.drop_last(), k, keep);
        assert((a + b).drop_last() =~= a + b.drop_last());
        assert((a + b).last() == b.last());
        assert(rows_in(m, a + b, keep) =~= rows_in(m, a, keep) + rows_in(m, b, keep));
    }
}

} // verus!
