//! Sets of names, kept in order.
use crate::table::Row;
use crate::text::{before, same, text_lt, texts};
use vstd::prelude::*;
use vstd::string::*;

verus! {

/// Each text comes before the next one.
pub open spec fn ascending(s: Seq<Seq<char>>) -> bool {
    forall|i: int, j: int| 0 <= i < j < s.len() ==> text_lt(#[trigger] s[i], #[trigger] s[j])
}

pub proof fn lemma_lt_irreflexive(a: Seq<char>)
    ensures
        !text_lt(a, a),
    decreases a.len(),
{
    if a.len() > 0 {
        lemma_lt_irreflexive(a.drop_first());
    }
}

pub proof fn lemma_lt_transitive(a: Seq<char>, b: Seq<char>, c: Seq<char>)
    requires
        text_lt(a, b),
        text_lt(b, c),
    ensures
        text_lt(a, c),
    decreases a.len(),
{
    if a.len() > 0 && b.len() > 0 && c.len() > 0 && a[0] == b[0] && b[0] == c[0] {
        lemma_lt_transitive(a.drop_first(), b.drop_first(), c.drop_first());
    }
}

pub proof fn lemma_lt_total(a: Seq<char>, b: Seq<char>)
    ensures
        text_lt(a, b) || text_lt(b, a) || a == b,
    decreases a.len(),
{
    if a.len() > 0 && b.len() > 0 && a[0] == b[0] {
        lemma_lt_total(a.drop_first(), b.drop_first());
        if a.drop_first() == b.drop_first() {
            assert(a.len() == a.drop_first().len() + 1);
            assert(b.len() == b.drop_first().len() + 1);
            assert(a =~= b) by {
                assert forall|i: int| 0 <= i < a.len() implies a[i] == b[i] by {
                    if i > 0 {
                        assert(a[i] == a.drop_first()[i - 1]);
                        assert(b[i] == b.drop_first()[i - 1]);
                    }
                }
            }
        }
    } else if a.len() == 0 && b.len() == 0 {
        assert(a =~= b);
    }
}

/// The texts of a set in ascending order.
pub open spec fn in_order(s: Set<Seq<char>>) -> Seq<Seq<char>> {
    choose|q: Seq<Seq<char>>| #[trigger] ascending(q) && q.to_set() == s
}

proof fn lemma_ascending_unique(a: Seq<Seq<char>>, b: Seq<Seq<char>>)
    requires
        ascending(a),
        ascending(b),
        a.to_set() == b.to_set(),
    ensures
        a == b,
    decreases a.len(),
{
    if a.len() == 0 {
        if b.len() > 0 {
            assert(b.to_set().contains(b[0]));
            assert(a.contains(b[0]));
        }
        assert(a =~= b);
    } else {
        assert(a.to_set().contains(a.last()));
        assert(b.contains(a.last()));
        assert(b.to_set().contains(b.last()));
        assert(a.contains(b.last()));
        let i = b.index_of(a.last());
        let j = a.index_of(b.last());
        if i < b.len() - 1 && j < a.len() - 1 {
            assert(text_lt(b[i], b[b.len() - 1]));
            assert(text_lt(a[j], a[a.len() - 1]));
            lemma_lt_transitive(a.last(), b.last(), a.last());
            lemma_lt_irreflexive(a.last());
        }
        assert(a.last() == b.last());
        let c = a.drop_last();
        let d = b.drop_last();
        assert forall|s: Seq<char>| c.to_set().contains(s) <==> d.to_set().contains(s) by {
            if c.contains(s) {
                let k = c.index_of(s);
                assert(a[k] == s);
                lemma_lt_irreflexive(s);
                assert(text_lt(a[k], a[a.len() - 1]));
                assert(a.to_set().contains(s));
                assert(b.contains(s));
                let l = b.index_of(s);
                assert(d[l] == s);
            }
            if d.contains(s) {
                let k = d.index_of(s);
                assert(b[k] == s);
                lemma_lt_irreflexive(s);
                assert(text_lt(b[k], b[b.len() - 1]));
                assert(b.to_set().contains(s));
                assert(a.contains(s));
                let l = a.index_of(s);
                assert(c[l] == s);
            }
        }
        assert(c.to_set() =~= d.to_set());
        assert(ascending(c)) by {
            assert forall|x: int, y: int| 0 <= x < y < c.len() implies text_lt(
                #[trigger] c[x],
                #[trigger] c[y],
            ) by {
                assert(text_lt(a[x], a[y]));
            }
        }
        assert(ascending(d)) by {
            assert forall|x: int, y: int| 0 <= x < y < d.len() implies text_lt(
                #[trigger] d[x],
                #[trigger] d[y],
            ) by {
                assert(text_lt(b[x], b[y]));
            }
        }
        lemma_ascending_unique(c, d);
        assert(a =~= c.push(a.last()));
        assert(b =~= d.push(b.last()));
    }
}

/// The listing with one more text, in its place.
spec fn placed(q: Seq<Seq<char>>, x: Seq<char>) -> Seq<Seq<char>>
    decreases q.len(),
{
    if q.len() == 0 {
        seq![x]
    } else if text_lt(q.last(), x) {
        q.push(x)
    } else {
        placed(q.drop_last(), x).push(q.last())
    }
}

proof fn lemma_placed(q: Seq<Seq<char>>, x: Seq<char>)
    requires
        ascending(q),
        !q.contains(x),
    ensures
        ascending(placed(q, x)),
        forall|y: Seq<char>| #[trigger] placed(q, x).contains(y) <==> q.contains(y) || y == x,
    decreases q.len(),
{
    let p = placed(q, x);
    if q.len() == 0 {
        assert(p[0] == x);
    } else if text_lt(q.last(), x) {
        assert forall|y: Seq<char>| #[trigger] p.contains(y) <==> q.contains(y) || y == x by {
            if q.contains(y) {
                assert(p[q.index_of(y)] == y);
            }
            assert(p[q.len() as int] == x);
        }
        assert forall|i: int, j: int| 0 <= i < j < p.len() implies text_lt(
            #[trigger] p[i],
            #[trigger] p[j],
        ) by {
            if j == q.len() && i < q.len() - 1 {
                assert(text_lt(q[i], q[q.len() - 1]));
                lemma_lt_transitive(q[i], q.last(), x);
            }
        }
    } else {
        let d = q.drop_last();
        let r = placed(d, x);
        assert(ascending(d)) by {
            assert forall|i: int, j: int| 0 <= i < j < d.len() implies text_lt(
                #[trigger] d[i],
                #[trigger] d[j],
            ) by {
                assert(text_lt(q[i], q[j]));
            }
        }
        if d.contains(x) {
            assert(q[d.index_of(x)] == x);
        }
        lemma_placed(d, x);
        assert(q.contains(q.last()));
        lemma_lt_total(q.last(), x);
        assert forall|y: Seq<char>| #[trigger] p.contains(y) <==> q.contains(y) || y == x by {
            if p.contains(y) {
                let k = p.index_of(y);
                if k < r.len() {
                    assert(r.contains(r[k]));
                    if d.contains(y) {
                        assert(q[d.index_of(y)] == y);
                    }
                }
            }
            if q.contains(y) {
                let k = q.index_of(y);
                if k < d.len() {
                    assert(d[k] == y);
                    assert(r.contains(y));
                    assert(p[r.index_of(y)] == y);
                } else {
                    assert(p[r.len() as int] == y);
                }
            }
            assert(r.contains(x));
            assert(p[r.index_of(x)] == x);
        }
        assert forall|i: int, j: int| 0 <= i < j < p.len() implies text_lt(
            #[trigger] p[i],
            #[trigger] p[j],
        ) by {
            if j < r.len() {
                assert(text_lt(r[i], r[j]));
            } else {
                assert(r.contains(r[i]));
                if r[i] != x {
                    let k = d.index_of(r[i]);
                    assert(text_lt(q[k], q[q.len() - 1]));
                }
            }
        }
    }
}

/// Every finite set has its listing: each text once, in ascending order.
pub proof fn finite_sets_are_listed(s: Set<Seq<char>>)
    requires
        s.finite(),
    ensures
        ascending(in_order(s)),
        in_order(s).to_set() == s,
    decreases s.len(),
{
    if s.len() == 0 {
        let q = Seq::<Seq<char>>::empty();
        assert(ascending(q));
        assert(q.to_set() =~= s) by {
            assert(s =~= Set::empty());
        }
    } else {
        let x = s.choose();
        assert(s.contains(x));
        let r = s.remove(x);
        finite_sets_are_listed(r);
        let q = in_order(r);
        assert(!q.contains(x)) by {
            assert(q.contains(x) == q.to_set().contains(x));
        }
        lemma_placed(q, x);
        let p = placed(q, x);
        assert(p.to_set() =~= s) by {
            assert forall|y: Seq<char>| p.to_set().contains(y) == s.contains(y) by {
                assert(p.contains(y) == (q.contains(y) || y == x));
                assert(q.contains(y) == q.to_set().contains(y));
            }
        }
        assert(ascending(p));
    }
}

/// A set of names.
pub struct Names {
    items: Vec<String>,
}

impl View for Names {
    type V = Set<Seq<char>>;

    closed spec fn view(&self) -> Set<Seq<char>> {
        texts(self.items@).to_set()
    }
}

impl Row for Names {
    fn dup(&self) -> (r: Self) {
        self.copy()
    }
}

impl Names {
    /// The names in ascending order.
    pub closed spec fn listed(&self) -> Seq<Seq<char>> {
        texts(self.items@)
    }

    #[verifier::type_invariant]
    spec fn inv(&self) -> bool {
        ascending(self.listed())
    }

    /// The listing holds each name of the set once, in ascending order.
    pub fn listing(&self)
        ensures
            ascending(self.listed()),
            self.listed().no_duplicates(),
            self.listed().to_set() == self@,
            self.listed() == in_order(self@),
            self@.finite(),
            self@.len() == self.listed().len(),
            forall|s: Seq<char>| self@.contains(s) <==> self.listed().contains(s),
    {
        proof {
            use_type_invariant(self);
            let s = self.listed();
            assert forall|i: int, j: int| 0 <= i < s.len() && 0 <= j < s.len() && i != j implies s[i]
                != s[j] by {
                lemma_lt_irreflexive(s[i]);
                if i < j {
                    assert(text_lt(s[i], s[j]));
                } else {
                    assert(text_lt(s[j], s[i]));
                }
            }
            s.unique_seq_to_set();
            assert(ascending(s) && s.to_set() == self@);
            lemma_ascending_unique(s, in_order(self@));
            vstd::seq_lib::seq_to_set_is_finite(s);
        }
    }

    pub fn new() -> (r: Names)
        ensures
            r@ == Set::<Seq<char>>::empty(),
            r.listed() == Seq::<Seq<char>>::empty(),
    {
        let r = Names { items: Vec::new() };
        assert(r.listed() =~= Seq::<Seq<char>>::empty());
        assert(r@ =~= Set::<Seq<char>>::empty());
        r
    }

    pub fn copy(&self) -> (r: Names)
        ensures
            r@ == self@,
            r.listed() == self.listed(),
    {
        self.listing();
        let items = crate::text::copy_list(&self.items);
        assert(texts(items@) == self.listed());
        Names { items }
    }

    pub fn len(&self) -> (n: usize)
        ensures
            n == self@.len(),
            n == in_order(self@).len(),
            n == self.listed().len(),
    {
        self.listing();
        self.items.len()
    }

    pub fn is_empty(&self) -> (r: bool)
        ensures
            r == (self@ == Set::<Seq<char>>::empty()),
            r == (self@.len() == 0),
    {
        self.listing();
        let r = self.items.len() == 0;
        proof {
            if r {
                assert(self@ =~= Set::<Seq<char>>::empty());
            } else {
                assert(self.listed().contains(self.listed()[0]));
                assert(self@.contains(self.listed()[0]));
            }
        }
        r
    }

    /// The name at `i` in ascending order.
    pub fn at(&self, i: usize) -> (s: &String)
        requires
            i < in_order(self@).len(),
        ensures
            s@ == in_order(self@)[i as int],
            self@.contains(s@),
    {
        self.listing();
        assert(self.listed().contains(self.listed()[i as int]));
        &self.items[i]
    }

    pub fn contains(&self, s: &str) -> (r: bool)
        ensures
            r == self@.contains(s@),
    {
        self.listing();
        crate::text::among(s, &self.items)
    }

    /// Adds `s`; says whether it was new.
    pub fn insert(&mut self, s: &str) -> (added: bool)
        ensures
            final(self)@ == old(self)@.insert(s@),
            added == !old(self)@.contains(s@),
    {
        self.listing();
        let ghost was = self.listed();
        let ghost set = self@;
        let mut i: usize = 0;
        while i < self.items.len() && before(self.items[i].as_str(), s)
            invariant
                i <= self.items.len(),
                self.listed() == was,
                forall|j: int| 0 <= j < i ==> text_lt(#[trigger] was[j], s@),
            decreases self.items.len() - i,
        {
            assert(was[i as int] == self.items@[i as int]@);
            i = i + 1;
        }
        if i < self.items.len() && same(self.items[i].as_str(), s) {
            proof {
                assert(was[i as int] == s@);
                assert(was.contains(s@));
                assert(self@ =~= set.insert(s@));
            }
            return false;
        }
        let mut all: Vec<String> = Vec::new();
        assert(texts(all@) =~= Seq::<Seq<char>>::empty());
        core::mem::swap(&mut all, &mut self.items);
        all.insert(i, s.to_owned());
        let ghost now = texts(all@);
        proof {
            assert(now =~= was.insert(i as int, s@));
            if i < was.len() {
                lemma_lt_total(was[i as int], s@);
            }
            assert forall|j: int| i <= j < was.len() implies text_lt(s@, #[trigger] was[j]) by {
                if j > i {
                    assert(text_lt(was[i as int], was[j]));
                    lemma_lt_transitive(s@, was[i as int], was[j]);
                }
            }
            assert forall|a: int, b: int| 0 <= a < b < now.len() implies text_lt(
                #[trigger] now[a],
                #[trigger] now[b],
            ) by {
                let c = if a < i { a } else { a - 1 };
                let d = if b < i { b } else { b - 1 };
                if a != i && b != i {
                    assert(now[a] == was[c] && now[b] == was[d]);
                }
            }
            assert forall|t: Seq<char>| #[trigger] now.to_set().contains(t) <==> set.insert(s@).contains(
                t,
            ) by {
                if was.contains(t) {
                    let j = was.index_of(t);
                    assert(now[if j < i { j } else { j + 1 }] == t);
                }
                if t == s@ {
                    assert(now[i as int] == t);
                }
                if now.contains(t) && t != s@ {
                    let j = now.index_of(t);
                    assert(was[if j < i { j } else { j - 1 }] == t);
                }
            }
            assert(now.to_set() =~= set.insert(s@));
            if set.contains(s@) {
                let j = was.index_of(s@);
                lemma_lt_irreflexive(s@);
                assert(text_lt(was[j], s@) || text_lt(s@, was[j]));
            }
        }
        core::mem::swap(&mut all, &mut self.items);
        true
    }

    pub fn is_subset(&self, other: &Names) -> (r: bool)
        ensures
            r == self@.subset_of(other@),
    {
        self.listing();
        let mut i: usize = 0;
        while i < self.items.len()
            invariant
                i <= self.items.len(),
                forall|j: int| 0 <= j < i ==> other@.contains(#[trigger] self.listed()[j]),
            decreases self.items.len() - i,
        {
            if !other.contains(self.items[i].as_str()) {
                assert(self.listed().contains(self.listed()[i as int]));
                assert(self@.contains(self.listed()[i as int]));
                return false;
            }
            assert(other@.contains(self.listed()[i as int]));
            i = i + 1;
        }
        proof {
            assert forall|s: Seq<char>| self@.contains(s) implies other@.contains(s) by {
                let j = self.listed().index_of(s);
                assert(self.listed()[j] == s);
            }
        }
        true
    }

    pub fn same_names(&self, other: &Names) -> (r: bool)
        ensures
            r == (self@ == other@),
    {
        let r = self.is_subset(other) && other.is_subset(self);
        proof {
            if r {
                assert(self@ =~= other@);
            }
        }
        r
    }

    /// The set of the names in `v`.
    pub fn from_list(v: &Vec<String>) -> (r: Names)
        ensures
            r@ == texts(v@).to_set(),
    {
        let mut r = Names::new();
        let mut i: usize = 0;
        assert(texts(v@).take(0).to_set() =~= r@);
        while i < v.len()
            invariant
                i <= v.len(),
                r@ == texts(v@).take(i as int).to_set(),
            decreases v.len() - i,
        {
            let ghost was = r@;
            let _ = r.insert(v[i].as_str());
            proof {
                let a = texts(v@).take(i as int);
                let b = texts(v@).take(i + 1);
                assert(b =~= a.push(v@[i as int]@));
                assert forall|s: Seq<char>| b.to_set().contains(s) <==> was.insert(v@[i as int]@).contains(s) by {
                    if a.contains(s) {
                        assert(b[a.index_of(s)] == s);
                    }
                    if s == v@[i as int]@ {
                        assert(b[i as int] == s);
                    }
                    if b.contains(s) && s != v@[i as int]@ {
                        assert(a[b.index_of(s)] == s);
                    }
                }
                assert(b.to_set() =~= r@);
            }
            i = i + 1;
        }
        assert(texts(v@).take(i as int) =~= texts(v@));
        r
    }

    /// The names in ascending order.
    pub fn to_list(&self) -> (v: Vec<String>)
        ensures
            texts(v@) == in_order(self@),
    {
        self.listing();
        crate::text::copy_list(&self.items)
    }

    /// The names in ascending order with `sep` between them.
    pub fn join(&self, sep: &str) -> (r: String)
        ensures
            r@ == crate::text::joined(in_order(self@), sep@),
    {
        self.listing();
        crate::text::join(&self.items, sep)
    }
}

/// One more item makes a set of one more name.
pub proof fn lemma_take_set(all: Seq<Seq<char>>, i: int)
    requires
        0 <= i < all.len(),
    ensures
        all.take(i + 1).to_set() =~= all.take(i).to_set().insert(all[i]),
{
    let before = all.take(i);
    let after = all.take(i + 1);
    assert(after =~= before.push(all[i]));
    assert forall|k: Seq<char>| after.to_set().contains(k) <==> #[trigger] before.to_set().insert(
        all[i],
    ).contains(k) by {
        if before.contains(k) {
            let j = before.index_of(k);
            assert(after[j] == k);
        }
        if after.contains(k) {
            let j = after.index_of(k);
            if j < i {
                assert(before[j] == k);
            }
        }
        assert(after[i] == all[i]);
    }
}

/// Adds every name of `more`.
pub fn add_all(set: &mut Names, more: &Names)
    ensures
        final(set)@ == old(set)@.union(more@),
{
    let ghost s0 = set@;
    let ghost all = in_order(more@);
    more.listing();
    let n: usize = more.len();
    let mut i: usize = 0;
    assert(s0.union(all.take(0).to_set()) =~= s0);
    while i < n
        invariant
            i <= n,
            n == all.len(),
            all == in_order(more@),
            set@ == s0.union(all.take(i as int).to_set()),
        decreases n - i,
    {
        set.insert(more.at(i).as_str());
        proof {
            lemma_take_set(all, i as int);
            assert(set@ =~= s0.union(all.take(i + 1).to_set()));
        }
        i = i + 1;
    }
    proof {
        assert(all.take(n as int) =~= all);
        assert(all.to_set() =~= more@);
    }
}

/// The names that both sets hold.
pub fn common(a: &Names, b: &Names) -> (r: Names)
    ensures
        r@ == a@.intersect(b@),
{
    let ghost all = in_order(a@);
    a.listing();
    let n: usize = a.len();
    let mut out = Names::new();
    let mut i: usize = 0;
    assert(all.take(0).to_set().intersect(b@) =~= Set::<Seq<char>>::empty());
    while i < n
        invariant
            i <= n,
            n == all.len(),
            all == in_order(a@),
            out@ == all.take(i as int).to_set().intersect(b@),
        decreases n - i,
    {
        let x = a.at(i).as_str();
        if b.contains(x) {
            out.insert(x);
        }
        proof {
            lemma_take_set(all, i as int);
            assert(out@ =~= all.take(i + 1).to_set().intersect(b@));
        }
        i = i + 1;
    }
    proof {
        assert(all.take(n as int) =~= all);
        assert(all.to_set() =~= a@);
    }
    out
}

} // verus!
