//! Ids in the order of a time, and of their text where the times are equal.
use crate::names::{lemma_lt_irreflexive, lemma_lt_total, lemma_lt_transitive};
use crate::text::{before, text_lt};
use vstd::prelude::*;

verus! {

/// An id and its time.
pub struct Moment {
    pub at: u64,
    pub id: String,
}

/// What a list of moments holds.
pub open spec fn moments(v: Seq<Moment>) -> Seq<(u64, Seq<char>)> {
    v.map_values(|m: Moment| (m.at, m.id@))
}

pub open spec fn is_earlier(a: (u64, Seq<char>), b: (u64, Seq<char>)) -> bool {
    a.0 < b.0 || (a.0 == b.0 && text_lt(a.1, b.1))
}

/// The list with `m` behind everything that does not come after it.
pub open spec fn entered(v: Seq<(u64, Seq<char>)>, m: (u64, Seq<char>)) -> Seq<(u64, Seq<char>)>
    decreases v.len(),
{
    if v.len() > 0 && is_earlier(m, v.last()) {
        entered(v.drop_last(), m).push(v.last())
    } else {
        v.push(m)
    }
}

/// All of them, entered in turn.
pub open spec fn timeline(v: Seq<(u64, Seq<char>)>) -> Seq<(u64, Seq<char>)>
    decreases v.len(),
{
    if v.len() == 0 {
        Seq::empty()
    } else {
        entered(timeline(v.drop_last()), v.last())
    }
}

proof fn lemma_entered(v: Seq<(u64, Seq<char>)>, m: (u64, Seq<char>), i: int)
    requires
        0 <= i <= v.len(),
        forall|k: int| i <= k < v.len() ==> is_earlier(m, #[trigger] v[k]),
        i > 0 ==> !is_earlier(m, v[i - 1]),
    ensures
        entered(v, m) == v.insert(i, m),
    decreases v.len(),
{
    if i < v.len() {
        assert(is_earlier(m, v[v.len() - 1]));
        let w = v.drop_last();
        assert forall|k: int| i <= k < w.len() implies is_earlier(m, #[trigger] w[k]) by {
            assert(w[k] == v[k]);
        }
        lemma_entered(w, m, i);
        assert(entered(v, m) =~= v.insert(i, m));
    } else {
        assert(entered(v, m) =~= v.insert(i, m));
    }
}

/// Enters a moment.
#[verifier::loop_isolation(false)]
pub fn enter(v: &mut Vec<Moment>, at: u64, id: &str)
    ensures
        moments(final(v)@) == entered(moments(old(v)@), (at, id@)),
{
    let ghost all = moments(v@);
    let mut i: usize = v.len();
    while i > 0 && (at < v[i - 1].at || (at == v[i - 1].at && before(id, v[i - 1].id.as_str())))
        invariant
            i <= v.len(),
            all == moments(v@),
            forall|k: int| i <= k < v.len() ==> is_earlier((at, id@), #[trigger] all[k]),
        decreases i,
    {
        assert(all[i - 1] == (v[i - 1].at, v[i - 1].id@));
        i = i - 1;
    }
    proof {
        if i > 0 {
            assert(all[i - 1] == (v[i - 1].at, v[i - 1].id@));
        }
        lemma_entered(all, (at, id@), i as int);
    }
    v.insert(i, Moment { at, id: id.to_owned() });
    assert(moments(v@) =~= all.insert(i as int, (at, id@)));
}

/// Nothing comes before what stands before it.
pub open spec fn chronological(v: Seq<(u64, Seq<char>)>) -> bool {
    forall|a: int, b: int| 0 <= a < b < v.len() ==> !is_earlier(#[trigger] v[b], #[trigger] v[a])
}

proof fn lemma_entered_order(v: Seq<(u64, Seq<char>)>, m: (u64, Seq<char>))
    requires
        chronological(v),
    ensures
        chronological(entered(v, m)),
        entered(v, m).to_multiset() == v.to_multiset().insert(m),
        forall|k: int|
            0 <= k < entered(v, m).len() ==> (#[trigger] entered(v, m)[k]) == m || v.contains(
                entered(v, m)[k],
            ),
    decreases v.len(),
{
    broadcast use vstd::seq_lib::group_to_multiset_ensures;

    if v.len() > 0 && is_earlier(m, v.last()) {
        let w = v.drop_last();
        let last = v.last();
        assert forall|a: int, b: int| 0 <= a < b < w.len() implies !is_earlier(
            #[trigger] w[b],
            #[trigger] w[a],
        ) by {
            assert(w[a] == v[a] && w[b] == v[b]);
        }
        lemma_entered_order(w, m);
        let x = entered(w, m);
        let all = entered(v, m);
        assert(w.push(last) =~= v);
        assert(v.to_multiset() == w.to_multiset().insert(last));
        assert(all.to_multiset() == x.to_multiset().insert(last));
        assert(all.to_multiset() =~= v.to_multiset().insert(m));
        assert forall|k: int| 0 <= k < all.len() implies (#[trigger] all[k]) == m || v.contains(all[k]) by {
            if k < x.len() {
                assert(all[k] == x[k]);
                if x[k] != m {
                    let j = w.index_of(x[k]);
                    assert(v[j] == x[k]);
                }
            } else {
                assert(all[k] == v[v.len() - 1]);
            }
        }
        assert forall|a: int, b: int| 0 <= a < b < all.len() implies !is_earlier(
            #[trigger] all[b],
            #[trigger] all[a],
        ) by {
            if b == x.len() {
                assert(all[a] == x[a]);
                if x[a] == m {
                    if text_lt(m.1, last.1) && text_lt(last.1, m.1) {
                        lemma_lt_transitive(m.1, last.1, m.1);
                        lemma_lt_irreflexive(m.1);
                    }
                } else {
                    let j = w.index_of(x[a]);
                    assert(w[j] == v[j]);
                    assert(!is_earlier(v[v.len() - 1], v[j]));
                }
            } else {
                assert(all[a] == x[a] && all[b] == x[b]);
            }
        }
    } else {
        let all = v.push(m);
        assert forall|k: int| 0 <= k < all.len() implies (#[trigger] all[k]) == m || v.contains(all[k]) by {
            if k < v.len() {
                assert(all[k] == v[k]);
            }
        }
        assert forall|a: int, b: int| 0 <= a < b < all.len() implies !is_earlier(
            #[trigger] all[b],
            #[trigger] all[a],
        ) by {
            if b == v.len() && a < v.len() - 1 && is_earlier(m, v[a]) {
                let last = v.last();
                assert(!is_earlier(v[v.len() - 1], v[a]));
                lemma_lt_total(v[a].1, last.1);
                if v[a].0 == last.0 && m.0 == v[a].0 && v[a].1 != last.1 {
                    lemma_lt_transitive(m.1, v[a].1, last.1);
                }
            }
        }
    }
}

/// A timeline holds what was entered, in order.
pub proof fn timelines_are_chronological(v: Seq<(u64, Seq<char>)>)
    ensures
        chronological(timeline(v)),
        timeline(v).to_multiset() == v.to_multiset(),
    decreases v.len(),
{
    broadcast use vstd::seq_lib::group_to_multiset_ensures;

    if v.len() > 0 {
        timelines_are_chronological(v.drop_last());
        lemma_entered_order(timeline(v.drop_last()), v.last());
        assert(v.drop_last().push(v.last()) =~= v);
    } else {
        assert(v =~= Seq::<(u64, Seq<char>)>::empty());
    }
}

/// What a list holds once a moment was entered.
pub proof fn lemma_entered_members(v: Seq<(u64, Seq<char>)>, m: (u64, Seq<char>))
    ensures
        entered(v, m).len() == v.len() + 1,
        forall|k: int|
            0 <= k < entered(v, m).len() ==> (#[trigger] entered(v, m)[k]) == m || v.contains(
                entered(v, m)[k],
            ),
    decreases v.len(),
{
    if v.len() > 0 && is_earlier(m, v.last()) {
        let w = v.drop_last();
        lemma_entered_members(w, m);
        let x = entered(w, m);
        let all = entered(v, m);
        assert forall|k: int| 0 <= k < all.len() implies (#[trigger] all[k]) == m || v.contains(all[k]) by {
            if k < x.len() {
                assert(all[k] == x[k]);
                if x[k] != m {
                    let j = w.index_of(x[k]);
                    assert(v[j] == x[k]);
                }
            } else {
                assert(all[k] == v[v.len() - 1]);
            }
        }
    } else {
        let all = v.push(m);
        assert forall|k: int| 0 <= k < all.len() implies (#[trigger] all[k]) == m || v.contains(all[k]) by {
            if k < v.len() {
                assert(all[k] == v[k]);
            }
        }
    }
}

/// A timeline holds the same moments, in the order of their times; moments of one time stand in the
/// order of their texts.
pub proof fn later_moments_stand_later(v: Seq<(u64, Seq<char>)>, a: int, b: int)
    requires
        0 <= a < b < timeline(v).len(),
    ensures
        timeline(v)[a].0 <= timeline(v)[b].0,
        timeline(v)[a].0 == timeline(v)[b].0 ==> timeline(v)[a].1 == timeline(v)[b].1 || text_lt(
            timeline(v)[a].1,
            timeline(v)[b].1,
        ),
        timeline(v).len() == v.len(),
        timeline(v).to_multiset() == v.to_multiset(),
{
    broadcast use vstd::seq_lib::group_to_multiset_ensures;

    timelines_are_chronological(v);
    timeline(v).to_multiset_ensures();
    v.to_multiset_ensures();
    assert(timeline(v).to_multiset().len() == timeline(v).len());
    assert(v.to_multiset().len() == v.len());
    let x = timeline(v)[a];
    let y = timeline(v)[b];
    assert(!is_earlier(y, x));
    lemma_lt_total(x.1, y.1);
}

} // verus!
