//! Exported groups and their hierarchy.
use crate::error::{Error, Failure, agrees_with, fails};
use crate::json::{Json, JsonModel, items_of};
use crate::migration::{GroupSpec, GroupSpecModel, field, field_of, holds, id_in, identifier, ids, ids_of, is_set};
use crate::names::{Names, finite_sets_are_listed, in_order, lemma_take_set};
use crate::table::{Row, Table, views};
use crate::text::{among, same, texts};
use vstd::prelude::*;
use vstd::string::*;

verus! {

/// The most groups that one group may descend from.
pub const MAX_GROUP_ANCESTORS: usize = 1024;

/// The groups found so far, with those of `list` that are new, in the order of their discovery.
/// The first one is where the search started.
pub open spec fn visited(order: Seq<Seq<char>>, list: Seq<Seq<char>>) -> Result<
    Seq<Seq<char>>,
    Failure,
>
    decreases list.len(),
{
    if list.len() == 0 {
        Ok(order)
    } else {
        match visited(order, list.drop_last()) {
            Err(f) => Err(f),
            Ok(o) => if list.last() == order[0] {
                Err(Failure::Bad("Cycle in exported group hierarchy"@))
            } else if o.contains(list.last()) {
                Ok(o)
            } else if o.len() > MAX_GROUP_ANCESTORS {
                Err(Failure::Bad("Exported group has more than 1024 ancestors"@))
            } else {
                Ok(o.push(list.last()))
            },
        }
    }
}

/// The direct parents of a group.
pub open spec fn parents_of(parents: Map<Seq<char>, Set<Seq<char>>>, id: Seq<char>) -> Set<Seq<char>> {
    if parents.dom().contains(id) {
        parents[id]
    } else {
        Set::empty()
    }
}

/// The search, once the groups before `at` have shown their parents.
pub open spec fn walked(
    parents: Map<Seq<char>, Set<Seq<char>>>,
    order: Seq<Seq<char>>,
    at: nat,
) -> Result<Seq<Seq<char>>, Failure>
    decreases MAX_GROUP_ANCESTORS + 2 - at,
{
    if at >= order.len() || at > MAX_GROUP_ANCESTORS {
        Ok(order)
    } else {
        match visited(order, in_order(parents_of(parents, order[at as int]))) {
            Err(f) => Err(f),
            Ok(o) => walked(parents, o, at + 1),
        }
    }
}

/// The groups that a group descends from, nearest first.
pub open spec fn ancestors_of(parents: Map<Seq<char>, Set<Seq<char>>>, start: Seq<char>) -> Result<
    Set<Seq<char>>,
    Failure,
> {
    match walked(parents, seq![start], 0) {
        Err(f) => Err(f),
        Ok(o) => Ok(o.skip(1).to_set()),
    }
}

proof fn lemma_visit_fails(order: Seq<Seq<char>>, list: Seq<Seq<char>>, n: int)
    requires
        0 <= n <= list.len(),
        visited(order, list.take(n)) is Err,
    ensures
        visited(order, list) == visited(order, list.take(n)),
    decreases list.len() - n,
{
    if n < list.len() {
        assert(list.take(n + 1).drop_last() =~= list.take(n));
        lemma_visit_fails(order, list, n + 1);
    } else {
        assert(list.take(n) =~= list);
    }
}

/// What one visit keeps and adds.
proof fn lemma_visited(order: Seq<Seq<char>>, list: Seq<Seq<char>>)
    requires
        order.len() >= 1,
        order.len() <= MAX_GROUP_ANCESTORS + 1,
        visited(order, list) is Ok,
    ensures
        ({
            let o = visited(order, list)->Ok_0;
            &&& order.len() <= o.len() <= MAX_GROUP_ANCESTORS + 1
            &&& forall|i: int| 0 <= i < order.len() ==> #[trigger] o[i] == order[i]
            &&& forall|i: int| order.len() <= i < o.len() ==> list.contains(#[trigger] o[i])
            &&& forall|i: int| order.len() <= i < o.len() ==> #[trigger] o[i] != order[0]
            &&& forall|i: int| 0 <= i < list.len() ==> o.contains(#[trigger] list[i]) && list[i] != order[0]
        }),
    decreases list.len(),
{
    if list.len() > 0 {
        let rest = list.drop_last();
        lemma_visited(order, rest);
        let p = visited(order, rest)->Ok_0;
        let o = visited(order, list)->Ok_0;
        assert forall|i: int| order.len() <= i < o.len() implies list.contains(#[trigger] o[i]) && o[i]
            != order[0] by {
            if i < p.len() {
                assert(o[i] == p[i]);
                assert(rest.contains(p[i]));
                let j = rest.index_of(p[i]);
                assert(list[j] == p[i]);
            } else {
                assert(o[i] == list[list.len() - 1]);
            }
        }
        assert forall|i: int| 0 <= i < list.len() implies o.contains(#[trigger] list[i]) && list[i]
            != order[0] by {
            if i < rest.len() {
                assert(rest[i] == list[i]);
                assert(p.contains(rest[i]));
                let j = p.index_of(rest[i]);
                assert(o[j] == list[i]);
            } else if p.contains(list.last()) {
                let j = p.index_of(list.last());
                assert(o[j] == list[i]);
            } else {
                assert(o[p.len() as int] == list[i]);
            }
        }
    }
}

#[verifier::loop_isolation(false)]
fn visit(order: Vec<String>, list: &Names) -> (r: Result<Vec<String>, Error>)
    requires
        1 <= order.len() <= MAX_GROUP_ANCESTORS + 1,
    ensures
        match visited(texts(order@), in_order(list@)) {
            Ok(o) => r is Ok && texts(r->Ok_0@) == o,
            Err(f) => fails(r, f),
        },
{
    let ghost all = in_order(list@);
    let ghost o0 = texts(order@);
    let start = order[0].clone();
    let mut out = order;
    let n: usize = list.len();
    let mut i: usize = 0;
    assert(all.take(0) =~= Seq::<Seq<char>>::empty());
    while i < n
        invariant
            i <= n,
            visited(o0, all.take(i as int)) == Ok::<Seq<Seq<char>>, Failure>(texts(out@)),
        decreases n - i,
    {
        let ghost was = texts(out@);
        proof {
            assert(all.take(i + 1).drop_last() =~= all.take(i as int));
        }
        let parent = list.at(i);
        if same(parent.as_str(), start.as_str()) {
            proof {
                lemma_visit_fails(o0, all, i + 1);
            }
            return Err(Error::bad("Cycle in exported group hierarchy"));
        }
        if !among(parent.as_str(), &out) {
            if out.len() > MAX_GROUP_ANCESTORS {
                proof {
                    lemma_visit_fails(o0, all, i + 1);
                }
                return Err(Error::bad("Exported group has more than 1024 ancestors"));
            }
            out.push(parent.clone());
            assert(texts(out@) =~= was.push(parent@));
        }
        i = i + 1;
    }
    assert(all.take(n as int) =~= all);
    Ok(out)
}

/// The groups that `start` descends from. Two ways to the same group are fine; only a way back to
/// `start` is a cycle.
#[verifier::loop_isolation(false)]
pub fn group_ancestors(parents: &Table<Names>, start: &str) -> (r: Result<Names, Error>)
    ensures
        agrees_with(r, ancestors_of(parents@, start@)),
{
    let mut order: Vec<String> = Vec::new();
    order.push(start.to_owned());
    let mut at: usize = 0;
    let ghost want = walked(parents@, seq![start@], 0);
    assert(texts(order@) =~= seq![start@]);
    while at < order.len()
        invariant
            at <= order.len(),
            1 <= order.len() <= MAX_GROUP_ANCESTORS + 1,
            want == walked(parents@, texts(order@), at as nat),
        decreases MAX_GROUP_ANCESTORS + 2 - at,
    {
        let empty = Names::new();
        let list = match parents.get(order[at].as_str()) {
            Some(p) => p,
            None => &empty,
        };
        let ghost before = texts(order@);
        assert(before[at as int] == order[at as int]@);
        assert(list@ =~= parents_of(parents@, before[at as int]));
        match visit(order, list) {
            Err(e) => {
                return Err(e);
            },
            Ok(o) => {
                proof {
                    lemma_visited(before, in_order(list@));
                    assert(texts(o@).len() == o.len());
                }
                order = o;
            },
        }
        at = at + 1;
    }
    let mut out = Names::new();
    let ghost all = texts(order@).skip(1);
    let mut i: usize = 1;
    assert(all.take(0).to_set() =~= Set::<Seq<char>>::empty());
    while i < order.len()
        invariant
            1 <= i <= order.len(),
            out@ == all.take(i - 1).to_set(),
        decreases order.len() - i,
    {
        assert(all[i - 1] == order[i as int]@);
        proof {
            lemma_take_set(all, i - 1);
        }
        out.insert(order[i].as_str());
        i = i + 1;
    }
    assert(all.take(all.len() as int) =~= all);
    Ok(out)
}

/// `path` goes up the hierarchy, one direct parent after the other.
pub open spec fn goes_up(parents: Map<Seq<char>, Set<Seq<char>>>, path: Seq<Seq<char>>) -> bool {
    path.len() > 0 && forall|i: int|
        0 <= i < path.len() - 1 ==> parents_of(parents, #[trigger] path[i]).contains(path[i + 1])
}

/// `to` can be reached from `from` by going up at least once.
pub open spec fn descends(parents: Map<Seq<char>, Set<Seq<char>>>, from: Seq<char>, to: Seq<char>) -> bool {
    exists|path: Seq<Seq<char>>| #[trigger]
        goes_up(parents, path) && path.len() > 1 && path[0] == from && path.last() == to
}

/// Every discovered group is reached from the start.
spec fn reached(parents: Map<Seq<char>, Set<Seq<char>>>, order: Seq<Seq<char>>) -> bool {
    forall|i: int| 1 <= i < order.len() ==> descends(parents, order[0], #[trigger] order[i])
}

/// The groups before `at` have shown all of their parents.
spec fn expanded(parents: Map<Seq<char>, Set<Seq<char>>>, order: Seq<Seq<char>>, at: int) -> bool {
    forall|i: int, p: Seq<char>|
        0 <= i < at && i < order.len() && #[trigger] parents_of(parents, order[i]).contains(p) ==> p
            != order[0] && order.contains(p)
}

proof fn lemma_walked(parents: Map<Seq<char>, Set<Seq<char>>>, order: Seq<Seq<char>>, at: nat)
    requires
        1 <= order.len() <= MAX_GROUP_ANCESTORS + 1,
        at <= order.len(),
        reached(parents, order),
        expanded(parents, order, at as int),
        forall|i: int| 1 <= i < order.len() ==> #[trigger] order[i] != order[0],
        forall|k: Seq<char>| #[trigger]
            parents.dom().contains(k) ==> in_order(parents[k]).to_set() == parents[k],
        in_order(Set::<Seq<char>>::empty()).to_set() == Set::<Seq<char>>::empty(),
        walked(parents, order, at) is Ok,
    ensures
        ({
            let o = walked(parents, order, at)->Ok_0;
            &&& o.len() >= 1
            &&& o[0] == order[0]
            &&& reached(parents, o)
            &&& expanded(parents, o, o.len() as int)
            &&& forall|i: int| 1 <= i < o.len() ==> #[trigger] o[i] != o[0]
        }),
    decreases MAX_GROUP_ANCESTORS + 2 - at,
{
    if !(at >= order.len() || at > MAX_GROUP_ANCESTORS) {
        let here = order[at as int];
        let set = parents_of(parents, here);
        let list = in_order(set);
        lemma_visited(order, list);
        let o = visited(order, list)->Ok_0;
        assert(list.to_set() == set);
        assert forall|i: int| 1 <= i < o.len() implies descends(parents, o[0], #[trigger] o[i]) by {
            if i < order.len() {
                assert(o[i] == order[i]);
                assert(o[0] == order[0]);
            } else {
                assert(list.contains(o[i]));
                assert(list.to_set().contains(o[i]));
                if at == 0 {
                    let path = seq![here, o[i]];
                    assert(goes_up(parents, path)) by {
                        assert(parents_of(parents, path[0]).contains(path[1]));
                    }
                } else {
                    assert(descends(parents, order[0], order[at as int]));
                    let up = choose|path: Seq<Seq<char>>| #[trigger]
                        goes_up(parents, path) && path.len() > 1 && path[0] == order[0]
                            && path.last() == here;
                    let path = up.push(o[i]);
                    assert forall|j: int| 0 <= j < path.len() - 1 implies parents_of(
                        parents,
                        #[trigger] path[j],
                    ).contains(path[j + 1]) by {
                        if j < up.len() - 1 {
                            assert(parents_of(parents, up[j]).contains(up[j + 1]));
                        }
                    }
                    assert(goes_up(parents, path));
                }
            }
        }
        assert forall|i: int, p: Seq<char>|
            0 <= i < at + 1 && i < o.len() && #[trigger] parents_of(parents, o[i]).contains(p) implies p
            != o[0] && o.contains(p) by {
            if i < at {
                assert(o[i] == order[i]);
                assert(parents_of(parents, order[i]).contains(p));
                assert(order.contains(p));
                let j = order.index_of(p);
                assert(o[j] == p);
            } else {
                assert(list.to_set().contains(p));
                assert(list.contains(p));
                let j = list.index_of(p);
                assert(o.contains(list[j]));
            }
        }
        assert forall|i: int| 1 <= i < o.len() implies #[trigger] o[i] != o[0] by {
            if i < order.len() {
                assert(o[i] == order[i]);
            }
        }
        lemma_walked(parents, o, at + 1);
    } else {
        // At most one group more than the allowed ancestors is ever listed.
        assert(at >= order.len());
    }
}

proof fn lemma_up_stays(
    parents: Map<Seq<char>, Set<Seq<char>>>,
    o: Seq<Seq<char>>,
    path: Seq<Seq<char>>,
    n: int,
)
    requires
        o.len() >= 1,
        expanded(parents, o, o.len() as int),
        goes_up(parents, path),
        path[0] == o[0],
        0 <= n < path.len(),
    ensures
        o.contains(path[n]),
        n > 0 ==> path[n] != o[0],
    decreases n,
{
    if n == 0 {
        assert(o[0] == path[0]);
    } else {
        lemma_up_stays(parents, o, path, n - 1);
        let i = o.index_of(path[n - 1]);
        assert(o[i] == path[n - 1]);
        assert(parents_of(parents, path[n - 1]).contains(path[n - 1 + 1]));
        assert(parents_of(parents, o[i]).contains(path[n]));
    }
}

proof fn lemma_reached_are_found(
    parents: Map<Seq<char>, Set<Seq<char>>>,
    o: Seq<Seq<char>>,
    t: Seq<char>,
)
    requires
        o.len() >= 1,
        expanded(parents, o, o.len() as int),
        descends(parents, o[0], t),
    ensures
        o.skip(1).to_set().contains(t),
        t != o[0],
{
    let path = choose|path: Seq<Seq<char>>| #[trigger]
        goes_up(parents, path) && path.len() > 1 && path[0] == o[0] && path.last() == t;
    lemma_up_stays(parents, o, path, path.len() - 1);
    let j = o.index_of(t);
    assert(o[j] == t);
    assert(j != 0);
    assert(o.skip(1)[j - 1] == t);
}

proof fn lemma_found(parents: Map<Seq<char>, Set<Seq<char>>>, o: Seq<Seq<char>>, t: Seq<char>)
    requires
        o.len() >= 1,
        reached(parents, o),
        o.skip(1).to_set().contains(t),
    ensures
        descends(parents, o[0], t),
{
    let rest = o.skip(1);
    assert(rest.contains(t));
    let j = rest.index_of(t);
    assert(rest[j] == t);
    assert(o[j + 1] == t);
}

/// The search finds exactly the groups that can be reached by going up, and it succeeds only where
/// no way leads back to the start.
pub proof fn ancestors_are_what_can_be_reached(
    parents: Map<Seq<char>, Set<Seq<char>>>,
    start: Seq<char>,
    to: Seq<char>,
)
    requires
        ancestors_of(parents, start) is Ok,
        forall|k: Seq<char>| #[trigger] parents.dom().contains(k) ==> parents[k].finite(),
    ensures
        (ancestors_of(parents, start)->Ok_0).contains(to) <==> descends(parents, start, to),
        !descends(parents, start, start),
{
    assert forall|k: Seq<char>| #[trigger] parents.dom().contains(k) implies in_order(
        parents[k],
    ).to_set() == parents[k] by {
        finite_sets_are_listed(parents[k]);
    }
    finite_sets_are_listed(Set::<Seq<char>>::empty());
    let first = seq![start];
    lemma_walked(parents, first, 0);
    let o = walked(parents, first, 0)->Ok_0;
    if o.skip(1).to_set().contains(to) {
        lemma_found(parents, o, to);
    }
    if descends(parents, start, to) {
        lemma_reached_are_found(parents, o, to);
    }
    if descends(parents, start, start) {
        lemma_reached_are_found(parents, o, start);
    }
}

/// What the exported groups say.
pub struct Hierarchy {
    /// The name of each exported group, by its id.
    pub names: Table<String>,
    pub parents: Table<Names>,
    pub groups: Vec<GroupSpec>,
}

/// What a [`Hierarchy`] holds.
pub struct HierarchyModel {
    pub names: Map<Seq<char>, Seq<char>>,
    pub parents: Map<Seq<char>, Set<Seq<char>>>,
    pub groups: Seq<GroupSpecModel>,
}

impl View for Hierarchy {
    type V = HierarchyModel;

    open spec fn view(&self) -> HierarchyModel {
        HierarchyModel {
            names: self.names@,
            parents: self.parents@,
            groups: crate::table::views(self.groups@),
        }
    }
}

impl Row for Hierarchy {
    fn dup(&self) -> (r: Self) {
        Hierarchy {
            names: self.names.dup(),
            parents: self.parents.dup(),
            groups: crate::table::dup_list(&self.groups),
        }
    }
}

/// The direct parents that a row names.
pub open spec fn row_parents(row: JsonModel) -> Result<Set<Seq<char>>, Failure> {
    match if is_set(row, "parents"@) {
        ids_of(row.member("parents"@))
    } else {
        Ok(Set::empty())
    } {
        Err(f) => Err(f),
        Ok(direct) => if is_set(row, "parent"@) {
            match id_in(row.member("parent"@)) {
                Err(f) => Err(f),
                Ok(x) => Ok(direct.insert(x)),
            }
        } else {
            Ok(direct)
        },
    }
}

/// One more exported group.
pub open spec fn group_added(h: HierarchyModel, row: JsonModel) -> Result<HierarchyModel, Failure> {
    match id_in(row.member("pk"@)) {
        Err(f) => Err(f),
        Ok(id) => match field_of(row, "name"@) {
            Err(f) => Err(f),
            Ok(name) => if h.names.dom().contains(id) {
                Err(Failure::Bad("Duplicate exported group ID"@))
            } else {
                match row_parents(row) {
                    Err(f) => Err(f),
                    Ok(direct) => Ok(
                        HierarchyModel {
                            names: h.names.insert(id, name),
                            parents: if direct == Set::<Seq<char>>::empty() {
                                h.parents
                            } else {
                                h.parents.insert(id, direct)
                            },
                            groups: h.groups.push(GroupSpecModel { name, members: Set::empty() }),
                        },
                    ),
                }
            },
        },
    }
}

pub open spec fn groups_read(rows: Seq<JsonModel>) -> Result<HierarchyModel, Failure>
    decreases rows.len(),
{
    if rows.len() == 0 {
        Ok(HierarchyModel { names: Map::empty(), parents: Map::empty(), groups: Seq::empty() })
    } else {
        match groups_read(rows.drop_last()) {
            Err(f) => Err(f),
            Ok(h) => group_added(h, rows.last()),
        }
    }
}

proof fn lemma_groups_fail(rows: Seq<JsonModel>, n: int)
    requires
        0 <= n <= rows.len(),
        groups_read(rows.take(n)) is Err,
    ensures
        groups_read(rows) == groups_read(rows.take(n)),
    decreases rows.len() - n,
{
    if n < rows.len() {
        assert(rows.take(n + 1).drop_last() =~= rows.take(n));
        lemma_groups_fail(rows, n + 1);
    } else {
        assert(rows.take(n) =~= rows);
    }
}

fn read_parents(row: &Json) -> (r: Result<Names, Error>)
    ensures
        agrees_with(r, row_parents(row@)),
{
    let mut direct = if holds(row, "parents") {
        match ids(row.get("parents")) {
            Err(e) => return Err(e),
            Ok(s) => s,
        }
    } else {
        Names::new()
    };
    if holds(row, "parent") {
        match identifier(row.get("parent")) {
            Err(e) => return Err(e),
            Ok(x) => {
                direct.insert(x.as_str());
            },
        }
    }
    Ok(direct)
}

fn add_group(h: &mut Hierarchy, row: &Json) -> (r: Result<(), Error>)
    ensures
        match group_added(old(h)@, row@) {
            Ok(x) => r is Ok && final(h)@ == x,
            Err(f) => fails(r, f),
        },
{
    let id = match identifier(row.get("pk")) {
        Err(e) => return Err(e),
        Ok(s) => s,
    };
    let name = match field(row, "name") {
        Err(e) => return Err(e),
        Ok(s) => s,
    };
    if h.names.has(id.as_str()) {
        return Err(Error::bad("Duplicate exported group ID"));
    }
    let direct = match read_parents(row) {
        Err(e) => return Err(e),
        Ok(s) => s,
    };
    h.names.put(id.as_str(), name.clone());
    if !direct.is_empty() {
        h.parents.put(id.as_str(), direct);
    }
    let ghost was = views(h.groups@);
    let g = GroupSpec { name, members: Names::new() };
    let ghost gm = g@;
    h.groups.push(g);
    assert(views(h.groups@) =~= was.push(gm));
    Ok(())
}

/// Reads the exported groups.
#[verifier::loop_isolation(false)]
pub fn read_groups(rows: &Vec<Json>) -> (r: Result<Hierarchy, Error>)
    ensures
        agrees_with(r, groups_read(items_of(rows@))),
{
    let ghost all = items_of(rows@);
    let mut h = Hierarchy { names: Table::new(), parents: Table::new(), groups: Vec::new() };
    assert(views(h.groups@) =~= Seq::<GroupSpecModel>::empty());
    assert(all.take(0) =~= Seq::<JsonModel>::empty());
    let mut i: usize = 0;
    while i < rows.len()
        invariant
            i <= rows.len(),
            groups_read(all.take(i as int)) == Ok::<HierarchyModel, Failure>(h@),
        decreases rows.len() - i,
    {
        proof {
            assert(all.take(i + 1).drop_last() =~= all.take(i as int));
            assert(all.take(i + 1).last() == rows[i as int]@);
        }
        if let Err(e) = add_group(&mut h, &rows[i]) {
            proof {
                lemma_groups_fail(all, i + 1);
            }
            return Err(e);
        }
        i = i + 1;
    }
    assert(all.take(i as int) =~= all);
    Ok(h)
}

/// The ancestors of every exported group. All are walked, so a cycle fails even where no user
/// reaches it.
pub open spec fn all_ancestors(
    parents: Map<Seq<char>, Set<Seq<char>>>,
    ids: Seq<Seq<char>>,
) -> Result<Map<Seq<char>, Set<Seq<char>>>, Failure>
    decreases ids.len(),
{
    if ids.len() == 0 {
        Ok(Map::empty())
    } else {
        match all_ancestors(parents, ids.drop_last()) {
            Err(f) => Err(f),
            Ok(m) => match ancestors_of(parents, ids.last()) {
                Err(f) => Err(f),
                Ok(s) => Ok(m.insert(ids.last(), s)),
            },
        }
    }
}

proof fn lemma_ancestors_fail(
    parents: Map<Seq<char>, Set<Seq<char>>>,
    ids: Seq<Seq<char>>,
    n: int,
)
    requires
        0 <= n <= ids.len(),
        all_ancestors(parents, ids.take(n)) is Err,
    ensures
        all_ancestors(parents, ids) == all_ancestors(parents, ids.take(n)),
    decreases ids.len() - n,
{
    if n < ids.len() {
        assert(ids.take(n + 1).drop_last() =~= ids.take(n));
        lemma_ancestors_fail(parents, ids, n + 1);
    } else {
        assert(ids.take(n) =~= ids);
    }
}

#[verifier::loop_isolation(false)]
pub fn find_ancestors(h: &Hierarchy) -> (r: Result<Table<Names>, Error>)
    ensures
        agrees_with(r, all_ancestors(h@.parents, in_order(h@.names.dom()))),
{
    let keys = h.names.keys();
    let ghost all = in_order(keys@);
    let n: usize = keys.len();
    let mut out: Table<Names> = Table::new();
    let mut i: usize = 0;
    assert(all.take(0) =~= Seq::<Seq<char>>::empty());
    while i < n
        invariant
            i <= n,
            all_ancestors(h@.parents, all.take(i as int)) == Ok::<
                Map<Seq<char>, Set<Seq<char>>>,
                Failure,
            >(out@),
        decreases n - i,
    {
        proof {
            assert(all.take(i + 1).drop_last() =~= all.take(i as int));
        }
        let id = keys.at(i).as_str();
        match group_ancestors(&h.parents, id) {
            Err(e) => {
                proof {
                    lemma_ancestors_fail(h@.parents, all, i + 1);
                }
                return Err(e);
            },
            Ok(s) => {
                out.put(id, s);
            },
        }
        i = i + 1;
    }
    assert(all.take(n as int) =~= all);
    Ok(out)
}

/// A group of the export keeps its name and the parents that were given for it, under its own number;
/// what was read before stays. A number that comes twice is refused.
pub proof fn exported_groups_are_kept_by_number(h: HierarchyModel, row: JsonModel)
    ensures
        group_added(h, row) matches Ok(u) ==> ({
            let id = id_in(row.member("pk"@))->Ok_0;
            &&& id_in(row.member("pk"@)) is Ok
            &&& !h.names.dom().contains(id)
            &&& u.names.dom().contains(id)
            &&& row.member("name"@) == Some(JsonModel::Text(u.names[id]))
            &&& u.groups.len() == h.groups.len() + 1
            &&& u.groups.last().name == u.names[id]
            &&& u.groups.last().members == Set::<Seq<char>>::empty()
            &&& row_parents(row) is Ok
            &&& row_parents(row)->Ok_0 != Set::<Seq<char>>::empty() ==> u.parents.dom().contains(id)
                && u.parents[id] == row_parents(row)->Ok_0
            &&& forall|k: Seq<char>|
                h.names.dom().contains(k) ==> u.names.dom().contains(k) && (#[trigger] u.names[k])
                    == h.names[k]
            &&& forall|i: int| 0 <= i < h.groups.len() ==> u.groups[i] == #[trigger] h.groups[i]
        }),
        id_in(row.member("pk"@)) is Ok && h.names.dom().contains(id_in(row.member("pk"@))->Ok_0)
            ==> group_added(h, row) is Err,
{
}

} // verus!
