//! A bounded history of password hashes. Passwords themselves are never stored.
use crate::error::{Error, Failure, agrees};
use crate::names::Names;
use crate::store::{Tx, TxModel};
use crate::table::Row;
use crate::text::{among, same, texts};
use vstd::prelude::*;
use vstd::string::*;

verus! {

/// The hashes of a user's recent passwords, the oldest first.
pub struct History {
    pub hashes: Vec<String>,
}

/// What a [`History`] holds.
pub struct HistoryModel {
    pub hashes: Seq<Seq<char>>,
}

impl View for History {
    type V = HistoryModel;

    open spec fn view(&self) -> HistoryModel {
        HistoryModel {
            hashes: crate::text::texts(self.hashes@),
        }
    }
}

impl Row for History {
    fn dup(&self) -> (r: Self) {
        History {
            hashes: crate::text::copy_list(&self.hashes),
        }
    }
}

pub open spec fn not_empty() -> spec_fn(Seq<char>) -> bool {
    |h: Seq<char>| h.len() > 0
}

pub open spec fn other_than(x: Seq<char>) -> spec_fn(Seq<char>) -> bool {
    |h: Seq<char>| h != x
}

/// The stored history of a user.
pub open spec fn history_of(t: TxModel, user_id: Seq<char>) -> Seq<Seq<char>> {
    if t.password_history.dom().contains(user_id) {
        t.password_history[user_id].hashes.filter(not_empty())
    } else {
        Seq::empty()
    }
}

/// The last `limit` items.
pub open spec fn last_of(h: Seq<Seq<char>>, limit: nat) -> Seq<Seq<char>> {
    if h.len() > limit {
        h.skip(h.len() - limit)
    } else {
        h
    }
}

/// The password is the current one or among the last `limit`. `matching` are the hashes that the
/// password matches.
pub open spec fn is_reused(
    h: Seq<Seq<char>>,
    current: Seq<char>,
    matching: Set<Seq<char>>,
    limit: nat,
) -> bool {
    (current.len() > 0 && matching.contains(current)) || exists|i: int|
        0 <= i < last_of(h, limit).len() && (#[trigger] last_of(h, limit)[i]).len() > 0
            && matching.contains(last_of(h, limit)[i])
}

/// The history with the current hash, if it is not in it.
pub open spec fn with_current(h: Seq<Seq<char>>, current: Seq<char>, hash: Seq<char>) -> Seq<
    Seq<char>,
> {
    if current.len() > 0 && current != hash && !h.contains(current) {
        h.push(current)
    } else {
        h
    }
}

/// The history with `hash` as its latest item.
pub open spec fn with_latest(h: Seq<Seq<char>>, hash: Seq<char>) -> Seq<Seq<char>> {
    if h.len() > 0 && h.last() == hash {
        h
    } else {
        h.filter(other_than(hash)).push(hash)
    }
}

/// The history after `hash` replaced `current`.
pub open spec fn history_with(
    h: Seq<Seq<char>>,
    current: Seq<char>,
    hash: Seq<char>,
    limit: nat,
) -> Seq<Seq<char>> {
    last_of(with_latest(with_current(h, current, hash), hash), limit)
}

/// The store with a user's history.
pub open spec fn saved(t: TxModel, user_id: Seq<char>, h: Seq<Seq<char>>) -> TxModel {
    TxModel {
        password_history: if h.len() == 0 {
            t.password_history.remove(user_id)
        } else {
            t.password_history.insert(user_id, HistoryModel { hashes: h })
        },
        ..t
    }
}

fn push_text(v: &mut Vec<String>, s: &str)
    ensures
        texts(final(v)@) == texts(old(v)@).push(s@),
{
    let ghost was = texts(v@);
    v.push(s.to_owned());
    assert(texts(v@) =~= was.push(s@));
}

#[verifier::loop_isolation(false)]
fn load(tx: &Tx, user_id: &str) -> (r: Vec<String>)
    ensures
        texts(r@) == history_of(tx@, user_id@),
{
    let mut out: Vec<String> = Vec::new();
    assert(texts(out@) =~= Seq::<Seq<char>>::empty());
    if let Some(h) = tx.password_history.get(user_id) {
        let ghost all = texts(h.hashes@);
        let ghost p = not_empty();
        let mut i: usize = 0;
        assert(all.take(0).filter(p) =~= Seq::<Seq<char>>::empty());
        while i < h.hashes.len()
            invariant
                i <= h.hashes.len(),
                texts(out@) == all.take(i as int).filter(p),
            decreases h.hashes.len() - i,
        {
            proof {
                assert(all[i as int] == h.hashes[i as int]@);
                assert(all.take(i + 1) =~= all.take(i as int).push(all[i as int]));
                all.take(i as int).lemma_filter_push(all[i as int], p);
            }
            if !h.hashes[i].as_str().is_empty() {
                push_text(&mut out, h.hashes[i].as_str());
            }
            i = i + 1;
        }
        assert(all.take(i as int) =~= all);
    }
    out
}

fn save(tx: &mut Tx, user_id: &str, history: Vec<String>)
    ensures
        final(tx)@ == saved(old(tx)@, user_id@, texts(history@)),
{
    assert(texts(history@).len() == history.len());
    if history.len() == 0 {
        tx.password_history.delete(user_id);
    } else {
        tx.password_history.put(user_id, History { hashes: history });
    }
}

#[verifier::loop_isolation(false)]
fn trim(history: &Vec<String>, limit: u32) -> (r: Vec<String>)
    ensures
        texts(r@) == last_of(texts(history@), limit as nat),
{
    let ghost all = texts(history@);
    let n: usize = limit as usize;
    let start: usize = if history.len() > n {
        history.len() - n
    } else {
        0
    };
    let mut out: Vec<String> = Vec::new();
    let mut i: usize = start;
    assert(texts(out@) =~= all.subrange(start as int, i as int));
    while i < history.len()
        invariant
            start <= i <= history.len(),
            texts(out@) == all.subrange(start as int, i as int),
        decreases history.len() - i,
    {
        assert(all[i as int] == history[i as int]@);
        push_text(&mut out, history[i].as_str());
        assert(all.subrange(start as int, i + 1) =~= all.subrange(start as int, i as int).push(
            all[i as int],
        ));
        i = i + 1;
    }
    assert(texts(out@) =~= last_of(all, limit as nat));
    out
}

#[verifier::loop_isolation(false)]
fn reused(history: &Vec<String>, current: &str, matching: &Names, limit: u32) -> (r: bool)
    ensures
        r == is_reused(texts(history@), current@, matching@, limit as nat),
{
    if !current.is_empty() && matching.contains(current) {
        return true;
    }
    let recent = trim(history, limit);
    let ghost all = texts(recent@);
    let mut i: usize = 0;
    while i < recent.len()
        invariant
            i <= recent.len(),
            forall|j: int| 0 <= j < i ==> (#[trigger] all[j]).len() == 0 || !matching@.contains(all[j]),
        decreases recent.len() - i,
    {
        assert(all[i as int] == recent[i as int]@);
        if !recent[i].as_str().is_empty() && matching.contains(recent[i].as_str()) {
            assert(all[i as int].len() > 0 && matching@.contains(all[i as int]));
            return true;
        }
        i = i + 1;
    }
    false
}

#[verifier::loop_isolation(false)]
fn retain(history: Vec<String>, current: &str, hash: &str, limit: u32) -> (r: Vec<String>)
    ensures
        texts(r@) == history_with(texts(history@), current@, hash@, limit as nat),
{
    let mut h = history;
    if !current.is_empty() && !same(current, hash) && !among(current, &h) {
        push_text(&mut h, current);
    }
    let ghost all = texts(h@);
    assert(all.len() == h.len());
    if h.len() > 0 {
        assert(all[h.len() - 1] == h[h.len() - 1]@);
        if same(h[h.len() - 1].as_str(), hash) {
            return trim(&h, limit);
        }
    }
    let ghost p = other_than(hash@);
    let mut out: Vec<String> = Vec::new();
    let mut i: usize = 0;
    assert(all.take(0).filter(p) =~= Seq::<Seq<char>>::empty());
    assert(texts(out@) =~= Seq::<Seq<char>>::empty());
    while i < h.len()
        invariant
            i <= h.len(),
            texts(out@) == all.take(i as int).filter(p),
        decreases h.len() - i,
    {
        proof {
            assert(all[i as int] == h[i as int]@);
            assert(all.take(i + 1) =~= all.take(i as int).push(all[i as int]));
            all.take(i as int).lemma_filter_push(all[i as int], p);
        }
        if !same(h[i].as_str(), hash) {
            push_text(&mut out, h[i].as_str());
        }
        i = i + 1;
    }
    assert(all.take(i as int) =~= all);
    push_text(&mut out, hash);
    trim(&out, limit)
}

/// What accepting a new password does to the history.
pub open spec fn password_accepted(
    t: TxModel,
    limit: u32,
    user_id: Seq<char>,
    current: Seq<char>,
    matching: Set<Seq<char>>,
    hash: Seq<char>,
) -> (TxModel, Result<(), Failure>) {
    if hash.len() == 0 || limit == 0 {
        (t, Ok(()))
    } else {
        let h = history_of(t, user_id);
        if is_reused(h, current, matching, limit as nat) {
            (t, Err(Failure::Bad("Password was used recently"@)))
        } else {
            (saved(t, user_id, history_with(h, current, hash, limit as nat)), Ok(()))
        }
    }
}

/// Accepts a new password that is none of the recent ones. `matching` are the hashes that it
/// matches.
pub fn accept(
    tx: &mut Tx,
    limit: u32,
    user_id: &str,
    current_hash: &str,
    matching: &Names,
    new_hash: &str,
) -> (r: Result<(), Error>)
    ensures
        ({
            let out = password_accepted(
                old(tx)@,
                limit,
                user_id@,
                current_hash@,
                matching@,
                new_hash@,
            );
            final(tx)@ == out.0 && agrees(r, out.1)
        }),
{
    if new_hash.is_empty() || limit == 0 {
        return Ok(());
    }
    let h = load(tx, user_id);
    if reused(&h, current_hash, matching, limit) {
        return Err(Error::bad("Password was used recently"));
    }
    let next = retain(h, current_hash, new_hash, limit);
    save(tx, user_id, next);
    Ok(())
}

/// Takes note of a hash that was imported.
pub fn record_imported_hash(
    tx: &mut Tx,
    limit: u32,
    user_id: &str,
    current_hash: &str,
    hash: &str,
)
    ensures
        final(tx)@ == if hash@.len() == 0 || limit == 0 {
            old(tx)@
        } else {
            saved(
                old(tx)@,
                user_id@,
                history_with(
                    history_of(old(tx)@, user_id@),
                    current_hash@,
                    hash@,
                    limit as nat,
                ),
            )
        },
{
    if hash.is_empty() || limit == 0 {
        return;
    }
    let h = load(tx, user_id);
    let next = retain(h, current_hash, hash, limit);
    save(tx, user_id, next);
}

/// The items, each at its first place only.
pub open spec fn distinct(h: Seq<Seq<char>>) -> Seq<Seq<char>>
    decreases h.len(),
{
    if h.len() == 0 {
        Seq::empty()
    } else {
        let rest = distinct(h.drop_last());
        if rest.contains(h.last()) {
            rest
        } else {
            rest.push(h.last())
        }
    }
}

/// Where an item stands first.
pub open spec fn first_index(h: Seq<Seq<char>>, x: Seq<char>) -> int
    decreases h.len(),
{
    if h.len() == 0 {
        0
    } else if h[0] == x {
        0
    } else {
        1 + first_index(h.drop_first(), x)
    }
}

proof fn lemma_first_index(h: Seq<Seq<char>>, x: Seq<char>, i: int)
    requires
        0 <= i <= h.len(),
        forall|j: int| 0 <= j < i ==> #[trigger] h[j] != x,
        i < h.len() ==> h[i] == x,
    ensures
        first_index(h, x) == i,
    decreases h.len(),
{
    if h.len() > 0 && i > 0 {
        let rest = h.drop_first();
        assert(h[0] != x);
        assert forall|j: int| 0 <= j < i - 1 implies #[trigger] rest[j] != x by {
            assert(rest[j] == h[j + 1]);
        }
        if i < h.len() {
            assert(rest[i - 1] == h[i]);
        }
        lemma_first_index(rest, x, i - 1);
    }
}

/// The history after the same password was hashed anew.
pub open spec fn rehashed(h: Seq<Seq<char>>, was: Seq<char>, hash: Seq<char>, limit: nat) -> Seq<
    Seq<char>,
> {
    if h.contains(was) {
        last_of(distinct(h.update(first_index(h, was), hash)), limit)
    } else {
        history_with(h, ""@, hash, limit)
    }
}

#[verifier::loop_isolation(false)]
fn make_distinct(h: &Vec<String>) -> (r: Vec<String>)
    ensures
        texts(r@) == distinct(texts(h@)),
{
    let ghost all = texts(h@);
    let mut out: Vec<String> = Vec::new();
    let mut i: usize = 0;
    assert(all.take(0) =~= Seq::<Seq<char>>::empty());
    assert(texts(out@) =~= Seq::<Seq<char>>::empty());
    while i < h.len()
        invariant
            i <= h.len(),
            texts(out@) == distinct(all.take(i as int)),
        decreases h.len() - i,
    {
        proof {
            assert(all.take(i + 1).drop_last() =~= all.take(i as int));
            assert(all.take(i + 1).last() == h[i as int]@);
        }
        if !among(h[i].as_str(), &out) {
            push_text(&mut out, h[i].as_str());
        }
        i = i + 1;
    }
    assert(all.take(i as int) =~= all);
    out
}

/// Takes note that the same password has a new hash.
#[verifier::loop_isolation(false)]
pub fn note_rehash(tx: &mut Tx, limit: u32, user_id: &str, old_hash: &str, new_hash: &str)
    ensures
        final(tx)@ == if new_hash@.len() == 0 || limit == 0 || old_hash@ == new_hash@ {
            old(tx)@
        } else {
            saved(
                old(tx)@,
                user_id@,
                rehashed(
                    history_of(old(tx)@, user_id@),
                    old_hash@,
                    new_hash@,
                    limit as nat,
                ),
            )
        },
{
    if new_hash.is_empty() || limit == 0 || same(old_hash, new_hash) {
        return;
    }
    let mut h = load(tx, user_id);
    let ghost all = texts(h@);
    let mut i: usize = 0;
    while i < h.len() && !same(h[i].as_str(), old_hash)
        invariant
            i <= h.len(),
            texts(h@) == all,
            forall|j: int| 0 <= j < i ==> #[trigger] all[j] != old_hash@,
        decreases h.len() - i,
    {
        assert(all[i as int] == h[i as int]@);
        i = i + 1;
    }
    let next = if i < h.len() {
        proof {
            assert(all[i as int] == h[i as int]@);
            lemma_first_index(all, old_hash@, i as int);
        }
        h.set(i, new_hash.to_owned());
        assert(texts(h@) =~= all.update(i as int, new_hash@));
        let d = make_distinct(&h);
        trim(&d, limit)
    } else {
        assert(!all.contains(old_hash@));
        retain(h, "", new_hash, limit)
    };
    save(tx, user_id, next);
}

/// The history never outgrows its limit, its latest item is the password that was accepted, and the
/// accepted password was none of the remembered ones.
pub proof fn history_is_bounded_and_current(
    t: TxModel,
    limit: u32,
    user_id: Seq<char>,
    current: Seq<char>,
    matching: Set<Seq<char>>,
    hash: Seq<char>,
)
    requires
        hash.len() > 0,
        limit > 0,
        password_accepted(t, limit, user_id, current, matching, hash).1 is Ok,
    ensures
        ({
            let u = password_accepted(t, limit, user_id, current, matching, hash).0;
            let h = u.password_history[user_id].hashes;
            &&& u.password_history.dom().contains(user_id)
            &&& 0 < h.len() <= limit
            &&& h.last() == hash
        }),
        current.len() > 0 ==> !matching.contains(current),
{
    let h = history_of(t, user_id);
    let a = with_latest(with_current(h, current, hash), hash);
    assert(a.len() > 0 && a.last() == hash);
    assert(last_of(a, limit as nat).last() == hash);
}

/// A password that was accepted is refused while it is the current one.
pub proof fn accepted_passwords_cannot_be_repeated(
    t: TxModel,
    limit: u32,
    user_id: Seq<char>,
    matching: Set<Seq<char>>,
    hash: Seq<char>,
    next: Seq<char>,
)
    requires
        hash.len() > 0,
        next.len() > 0,
        limit > 0,
        matching.contains(hash),
    ensures
        password_accepted(t, limit, user_id, hash, matching, next) == (
            t,
            Err::<(), Failure>(Failure::Bad("Password was used recently"@)),
        ),
{
}

/// A password is refused exactly where it is the current one or one of the last that were used, as many
/// as the provider remembers.
pub proof fn recent_passwords_are_refused(
    t: TxModel,
    limit: u32,
    user_id: Seq<char>,
    current: Seq<char>,
    matching: Set<Seq<char>>,
    hash: Seq<char>,
)
    requires
        hash.len() > 0,
        limit > 0,
        current.len() > 0,
        t.password_history.dom().contains(user_id),
        forall|i: int|
            0 <= i < t.password_history[user_id].hashes.len() ==> (
            #[trigger] t.password_history[user_id].hashes[i]).len() > 0,
    ensures
        ({
            let h = t.password_history[user_id].hashes;
            password_accepted(t, limit, user_id, current, matching, hash).1 is Err <==> (
            matching.contains(current) || exists|i: int|
                0 <= i < h.len() && i >= h.len() - limit && matching.contains(#[trigger] h[i]))
        }),
{
    let h = t.password_history[user_id].hashes;
    lemma_all_kept(h);
    let l = last_of(h, limit as nat);
    assert forall|i: int| 0 <= i < h.len() && i >= h.len() - limit && matching.contains(#[trigger] h[i])
        implies is_reused(h, current, matching, limit as nat) by {
        let j = if h.len() > limit {
            i - (h.len() - limit)
        } else {
            i
        };
        assert(l[j] == h[i]);
    }
    if exists|i: int| 0 <= i < l.len() && (#[trigger] l[i]).len() > 0 && matching.contains(l[i]) {
        let i = choose|i: int| 0 <= i < l.len() && (#[trigger] l[i]).len() > 0 && matching.contains(l[i]);
        let j = if h.len() > limit {
            i + (h.len() - limit)
        } else {
            i
        };
        assert(h[j] == l[i]);
    }
}

proof fn lemma_all_kept(h: Seq<Seq<char>>)
    requires
        forall|i: int| 0 <= i < h.len() ==> (#[trigger] h[i]).len() > 0,
    ensures
        h.filter(not_empty()) == h,
    decreases h.len(),
{
    reveal(Seq::filter);
    if h.len() > 0 {
        let d = h.drop_last();
        assert forall|i: int| 0 <= i < d.len() implies (#[trigger] d[i]).len() > 0 by {
            assert(d[i] == h[i]);
        }
        lemma_all_kept(d);
        assert(h.last() == h[h.len() - 1]);
        assert(d.push(h.last()) =~= h);
    }
}

/// The password that was replaced is remembered, as are those before it that still count.
pub proof fn replaced_passwords_are_remembered(
    h: Seq<Seq<char>>,
    current: Seq<char>,
    hash: Seq<char>,
    limit: nat,
    i: int,
)
    requires
        current.len() > 0,
        current != hash,
        !h.contains(current),
        !h.contains(hash),
        limit >= 2,
        0 <= i < h.len(),
        h.len() - i <= limit - 2,
    ensures
        history_with(h, current, hash, limit).contains(current),
        history_with(h, current, hash, limit).contains(h[i]),
        history_with(h, current, hash, limit).last() == hash,
        history_with(h, current, hash, limit).len() <= limit,
{
    let a = h.push(current);
    assert(with_current(h, current, hash) == a);
    assert forall|j: int| 0 <= j < a.len() implies other_than(hash)(#[trigger] a[j]) by {
        if j < h.len() {
            assert(h.contains(h[j]));
        }
    }
    lemma_filter_all(a, hash);
    assert(a.last() != hash);
    let b = a.push(hash);
    assert(with_latest(a, hash) == b);
    let out = last_of(b, limit);
    let cut = b.len() - out.len();
    assert(out[h.len() - cut] == current);
    assert(out[i - cut] == h[i]);
}

proof fn lemma_filter_all(a: Seq<Seq<char>>, hash: Seq<char>)
    requires
        forall|j: int| 0 <= j < a.len() ==> other_than(hash)(#[trigger] a[j]),
    ensures
        a.filter(other_than(hash)) == a,
    decreases a.len(),
{
    reveal(Seq::filter);
    if a.len() > 0 {
        let w = a.drop_last();
        assert forall|j: int| 0 <= j < w.len() implies other_than(hash)(#[trigger] w[j]) by {
            assert(w[j] == a[j]);
        }
        lemma_filter_all(w, hash);
        assert(other_than(hash)(a[a.len() - 1]));
        assert(w.push(a.last()) =~= a);
    } else {
        assert(a.filter(other_than(hash)) =~= a);
    }
}

/// A hash that is renewed takes the place of the old one: the old hash is gone from the history.
pub proof fn renewed_hashes_replace_the_old(h: Seq<Seq<char>>, was: Seq<char>, hash: Seq<char>, limit: nat)
    requires
        h.contains(was),
        h.no_duplicates(),
        was != hash,
        !h.contains(hash),
        h.len() <= limit,
    ensures
        rehashed(h, was, hash, limit).contains(hash),
        !rehashed(h, was, hash, limit).contains(was),
        rehashed(h, was, hash, limit).len() == h.len(),
        forall|x: Seq<char>| x != was && #[trigger] h.contains(x) ==> rehashed(h, was, hash, limit).contains(x),
{
    let n = first_index(h, was);
    lemma_index_found(h, was);
    let u = h.update(n, hash);
    assert(u.no_duplicates()) by {
        assert forall|i: int, j: int| 0 <= i < u.len() && 0 <= j < u.len() && i != j implies u[i] != u[j] by {
            if i == n {
                assert(h.contains(h[j]));
            } else if j == n {
                assert(h.contains(h[i]));
            }
        }
    }
    lemma_distinct_already(u);
    assert(u[n] == hash);
    assert forall|x: Seq<char>| x != was && #[trigger] h.contains(x) implies u.contains(x) by {
        let i = h.index_of(x);
        assert(i != n);
        assert(u[i] == x);
    }
    if u.contains(was) {
        let i = u.index_of(was);
        assert(i != n);
        assert(h[i] == was && h[n] == was);
    }
}

proof fn lemma_index_found(h: Seq<Seq<char>>, x: Seq<char>)
    requires
        h.contains(x),
    ensures
        0 <= first_index(h, x) < h.len(),
        h[first_index(h, x)] == x,
    decreases h.len(),
{
    if h[0] != x {
        let d = h.drop_first();
        let i = h.index_of(x);
        assert(d[i - 1] == x);
        lemma_index_found(d, x);
    }
}

proof fn lemma_distinct_already(h: Seq<Seq<char>>)
    requires
        h.no_duplicates(),
    ensures
        distinct(h) == h,
    decreases h.len(),
{
    if h.len() > 0 {
        let d = h.drop_last();
        assert(d.no_duplicates()) by {
            assert forall|i: int, j: int| 0 <= i < d.len() && 0 <= j < d.len() && i != j implies d[i] != d[j] by {
                assert(d[i] == h[i] && d[j] == h[j]);
            }
        }
        lemma_distinct_already(d);
        if d.contains(h.last()) {
            let i = d.index_of(h.last());
            assert(h[i] == h[h.len() - 1]);
        }
        assert(d.push(h.last()) =~= h);
    } else {
        assert(distinct(h) =~= h);
    }
}

} // verus!
