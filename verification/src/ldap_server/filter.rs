//! Search filters and how they match entries.
use crate::error::{Error, Failure, fails};
use crate::table::Row;
use crate::text::{byte_count, byte_len, chars_of, contains_text, ends_with, has_prefix, has_suffix, lower, same, same_ignoring_case, slice_of, strip_prefix, texts};
use vstd::prelude::*;
use vstd::string::*;

verus! {

/// The pieces of a substring assertion.
pub struct Substrings {
    pub initial: Option<String>,
    pub any: Vec<String>,
    pub last: Option<String>,
}

/// What a [`Substrings`] holds.
pub struct SubstringsModel {
    pub initial: Option<Seq<char>>,
    pub any: Seq<Seq<char>>,
    pub last: Option<Seq<char>>,
}

impl View for Substrings {
    type V = SubstringsModel;

    open spec fn view(&self) -> SubstringsModel {
        SubstringsModel {
            initial: crate::text::opt_text(self.initial),
            any: crate::text::texts(self.any@),
            last: crate::text::opt_text(self.last),
        }
    }
}

impl Row for Substrings {
    fn dup(&self) -> (r: Self) {
        Substrings {
            initial: crate::text::copy_opt(&self.initial),
            any: crate::text::copy_list(&self.any),
            last: crate::text::copy_opt(&self.last),
        }
    }
}

/// A search filter. Kinds of assertion that this profile does not serve are told apart no further.
pub enum Filter {
    And(Vec<Filter>),
    Or(Vec<Filter>),
    Not(Box<Filter>),
    Equality(String, String),
    Present(String),
    Substring(String, Substrings),
    Other,
}

/// What a [`Filter`] holds.
pub enum FilterModel {
    And(Seq<FilterModel>),
    Or(Seq<FilterModel>),
    Not(Box<FilterModel>),
    Equality(Seq<char>, Seq<char>),
    Present(Seq<char>),
    Substring(Seq<char>, SubstringsModel),
    Other,
}

/// The contents of `f`.
pub open spec fn filter_model(f: Filter) -> FilterModel
    decreases f, 0nat,
{
    match f {
        Filter::And(v) => FilterModel::And(filter_models(v, v.len() as nat)),
        Filter::Or(v) => FilterModel::Or(filter_models(v, v.len() as nat)),
        Filter::Not(g) => FilterModel::Not(Box::new(filter_model(*g))),
        Filter::Equality(a, v) => FilterModel::Equality(a@, v@),
        Filter::Present(a) => FilterModel::Present(a@),
        Filter::Substring(a, s) => FilterModel::Substring(a@, s@),
        Filter::Other => FilterModel::Other,
    }
}

/// The contents of the first `n` filters of `v`.
pub open spec fn filter_models(v: Vec<Filter>, n: nat) -> Seq<FilterModel>
    decreases v, n,
{
    if n == 0 || n > v.len() {
        Seq::empty()
    } else {
        filter_models(v, (n - 1) as nat).push(filter_model(v[n - 1]))
    }
}

proof fn lemma_filters(v: Vec<Filter>, n: nat)
    requires
        n <= v.len(),
    ensures
        filter_models(v, n).len() == n,
        forall|i: int| 0 <= i < n ==> #[trigger] filter_models(v, n)[i] == filter_model(v[i]),
    decreases n,
{
    if n > 0 {
        lemma_filters(v, (n - 1) as nat);
    }
}

impl View for Filter {
    type V = FilterModel;

    open spec fn view(&self) -> FilterModel {
        filter_model(*self)
    }
}

/// A directory entry.
pub struct Entry {
    pub dn: String,
    pub attributes: Vec<EntryAttribute>,
}

/// What a [`Entry`] holds.
pub struct EntryModel {
    pub dn: Seq<char>,
    pub attributes: Seq<EntryAttributeModel>,
}

impl View for Entry {
    type V = EntryModel;

    open spec fn view(&self) -> EntryModel {
        EntryModel {
            dn: self.dn@,
            attributes: crate::table::views(self.attributes@),
        }
    }
}

impl Row for Entry {
    fn dup(&self) -> (r: Self) {
        Entry {
            dn: self.dn.clone(),
            attributes: crate::table::dup_list(&self.attributes),
        }
    }
}

/// An attribute of an entry.
pub struct EntryAttribute {
    pub name: String,
    pub vals: Vec<String>,
}

/// What a [`EntryAttribute`] holds.
pub struct EntryAttributeModel {
    pub name: Seq<char>,
    pub vals: Seq<Seq<char>>,
}

impl View for EntryAttribute {
    type V = EntryAttributeModel;

    open spec fn view(&self) -> EntryAttributeModel {
        EntryAttributeModel {
            name: self.name@,
            vals: crate::text::texts(self.vals@),
        }
    }
}

impl Row for EntryAttribute {
    fn dup(&self) -> (r: Self) {
        EntryAttribute {
            name: self.name.clone(),
            vals: crate::text::copy_list(&self.vals),
        }
    }
}

/// The text in lower case, by the Unicode rules.
pub uninterp spec fn folded(s: Seq<char>) -> Seq<char>;

/// `str::to_lowercase`.
#[verifier::external_body]
pub(crate) fn fold(s: &str) -> (r: String)
    ensures
        r@ == folded(s@),
{
    s.to_lowercase()
}

/// The value of an attribute named `name` among the first `n` attributes satisfies `p`.
pub open spec fn some_value(e: EntryModel, name: Seq<char>, p: spec_fn(Seq<char>) -> bool) -> bool {
    exists|i: int, j: int|
        0 <= i < e.attributes.len() && 0 <= j < (#[trigger] e.attributes[i]).vals.len() && lower(
            e.attributes[i].name,
        ) == lower(name) && p(#[trigger] e.attributes[i].vals[j])
}

/// The position of the first `p` in `s`, or -1.
pub open spec fn find_text(s: Seq<char>, p: Seq<char>) -> int
    decreases s.len(),
{
    if has_prefix(s, p) {
        0
    } else if s.len() == 0 {
        -1
    } else {
        let rest = find_text(s.drop_first(), p);
        if rest < 0 {
            -1
        } else {
            rest + 1
        }
    }
}

/// What follows the pieces in `s`, each taken at its first place after the one before.
pub open spec fn after_pieces(s: Seq<char>, pieces: Seq<Seq<char>>) -> Option<Seq<char>>
    decreases pieces.len(),
{
    if pieces.len() == 0 {
        Some(s)
    } else {
        match after_pieces(s, pieces.drop_last()) {
            None => None,
            Some(rest) => {
                let p = folded(pieces.last());
                let at = find_text(rest, p);
                if at < 0 {
                    None
                } else {
                    Some(rest.skip(at + p.len()))
                }
            },
        }
    }
}

/// The value starts with the first piece, holds the middle ones in order, and ends with the last.
pub open spec fn substring_matches(value: Seq<char>, s: SubstringsModel) -> bool {
    let v = folded(value);
    let start = match s.initial {
        None => Some(v),
        Some(first) => if has_prefix(v, folded(first)) {
            Some(v.skip(folded(first).len() as int))
        } else {
            None
        },
    };
    start is Some && after_pieces(start->0, s.any) is Some && (s.last matches Some(l) ==> has_suffix(
        after_pieces(start->0, s.any)->0,
        folded(l),
    ))
}

pub open spec fn equality_rule(expected: Seq<char>) -> spec_fn(Seq<char>) -> bool {
    |v: Seq<char>| folded(v) == folded(expected)
}

pub open spec fn any_rule() -> spec_fn(Seq<char>) -> bool {
    |v: Seq<char>| true
}

pub open spec fn substring_rule(s: SubstringsModel) -> spec_fn(Seq<char>) -> bool {
    |v: Seq<char>| substring_matches(v, s)
}

/// The entry satisfies the filter.
pub open spec fn filter_matches(f: FilterModel, e: EntryModel) -> bool
    decreases f, 0nat,
{
    match f {
        FilterModel::And(v) => all_match(v, v.len(), e),
        FilterModel::Or(v) => any_match(v, v.len(), e),
        FilterModel::Not(g) => !filter_matches(*g, e),
        FilterModel::Equality(a, v) => some_value(e, a, equality_rule(v)),
        FilterModel::Present(a) => some_value(e, a, any_rule()),
        FilterModel::Substring(a, s) => some_value(e, a, substring_rule(s)),
        FilterModel::Other => false,
    }
}

/// The entry satisfies each of the first `n` filters.
pub open spec fn all_match(v: Seq<FilterModel>, n: nat, e: EntryModel) -> bool
    decreases v, n,
{
    n == 0 || n > v.len() || (all_match(v, (n - 1) as nat, e) && filter_matches(v[n - 1], e))
}

/// The entry satisfies one of the first `n` filters.
pub open spec fn any_match(v: Seq<FilterModel>, n: nat, e: EntryModel) -> bool
    decreases v, n,
{
    0 < n <= v.len() && (any_match(v, (n - 1) as nat, e) || filter_matches(v[n - 1], e))
}

proof fn lemma_all_fails(v: Seq<FilterModel>, n: nat, e: EntryModel)
    requires
        n <= v.len(),
        !all_match(v, n, e),
    ensures
        !all_match(v, v.len(), e),
    decreases v.len() - n,
{
    if n < v.len() {
        assert(!all_match(v, n + 1, e));
        lemma_all_fails(v, n + 1, e);
    }
}

proof fn lemma_any_holds(v: Seq<FilterModel>, n: nat, e: EntryModel)
    requires
        n <= v.len(),
        any_match(v, n, e),
    ensures
        any_match(v, v.len(), e),
    decreases v.len() - n,
{
    if n < v.len() {
        assert(any_match(v, n + 1, e));
        lemma_any_holds(v, n + 1, e);
    }
}

/// The values of the attributes of `e` that are named `name`, whatever the case.
pub open spec fn values_named(e: EntryModel, name: Seq<char>) -> Seq<Seq<char>> {
    values_upto(e, name, e.attributes.len() as int)
}

pub open spec fn values_upto(e: EntryModel, name: Seq<char>, n: int) -> Seq<Seq<char>>
    decreases n,
{
    if n <= 0 || n > e.attributes.len() {
        Seq::empty()
    } else {
        let rest = values_upto(e, name, n - 1);
        if lower(e.attributes[n - 1].name) == lower(name) {
            rest + e.attributes[n - 1].vals
        } else {
            rest
        }
    }
}

proof fn lemma_values(e: EntryModel, name: Seq<char>, p: spec_fn(Seq<char>) -> bool, n: int)
    requires
        0 <= n <= e.attributes.len(),
    ensures
        (exists|k: int| 0 <= k < values_upto(e, name, n).len() && p(#[trigger] values_upto(e, name, n)[k]))
            <==> exists|i: int, j: int|
            0 <= i < n && 0 <= j < (#[trigger] e.attributes[i]).vals.len() && lower(
                e.attributes[i].name,
            ) == lower(name) && p(#[trigger] e.attributes[i].vals[j]),
    decreases n,
{
    if n > 0 {
        lemma_values(e, name, p, n - 1);
        let rest = values_upto(e, name, n - 1);
        let now = values_upto(e, name, n);
        let a = e.attributes[n - 1];
        if exists|k: int| 0 <= k < now.len() && p(#[trigger] now[k]) {
            let k = choose|k: int| 0 <= k < now.len() && p(#[trigger] now[k]);
            if k < rest.len() {
                assert(rest[k] == now[k]);
                let (i, j) = choose|i: int, j: int|
                    0 <= i < n - 1 && 0 <= j < (#[trigger] e.attributes[i]).vals.len() && lower(
                        e.attributes[i].name,
                    ) == lower(name) && p(#[trigger] e.attributes[i].vals[j]);
                assert(p(e.attributes[i].vals[j]));
            } else {
                assert(now[k] == a.vals[k - rest.len()]);
                assert(p(e.attributes[n - 1].vals[k - rest.len()]));
            }
        }
        if exists|i: int, j: int|
            0 <= i < n && 0 <= j < (#[trigger] e.attributes[i]).vals.len() && lower(
                e.attributes[i].name,
            ) == lower(name) && p(#[trigger] e.attributes[i].vals[j]) {
            let (i, j) = choose|i: int, j: int|
                0 <= i < n && 0 <= j < (#[trigger] e.attributes[i]).vals.len() && lower(
                    e.attributes[i].name,
                ) == lower(name) && p(#[trigger] e.attributes[i].vals[j]);
            if i == n - 1 {
                assert(now[rest.len() + j] == a.vals[j]);
            } else {
                assert(p(e.attributes[i].vals[j]));
                let k = choose|k: int| 0 <= k < rest.len() && p(#[trigger] rest[k]);
                assert(now[k] == rest[k]);
            }
        }
    }
}

fn collect_values(row: &Entry, name: &str) -> (r: Vec<String>)
    ensures
        texts(r@) == values_named(row@, name@),
{
    let mut r: Vec<String> = Vec::new();
    let mut i: usize = 0;
    assert(texts(r@) =~= Seq::<Seq<char>>::empty());
    while i < row.attributes.len()
        invariant
            i <= row.attributes.len(),
            texts(r@) == values_upto(row@, name@, i as int),
        decreases row.attributes.len() - i,
    {
        let a = &row.attributes[i];
        assert(row@.attributes[i as int] == row.attributes@[i as int]@);
        let ghost start = texts(r@);
        if same_ignoring_case(a.name.as_str(), name) {
            let mut j: usize = 0;
            assert(start + texts(a.vals@).take(0) =~= start);
            while j < a.vals.len()
                invariant
                    j <= a.vals.len(),
                    texts(r@) == start + texts(a.vals@).take(j as int),
                decreases a.vals.len() - j,
            {
                let ghost was = texts(r@);
                r.push(a.vals[j].clone());
                j = j + 1;
                assert(texts(r@) =~= was.push(a.vals@[j - 1]@));
                assert(texts(r@) =~= start + texts(a.vals@).take(j as int));
            }
            assert(texts(a.vals@).take(j as int) =~= texts(a.vals@));
        }
        i = i + 1;
    }
    r
}

proof fn lemma_find(s: Seq<char>, p: Seq<char>, i: int)
    requires
        0 <= i <= s.len(),
        forall|j: int| 0 <= j < i ==> !has_prefix(#[trigger] s.skip(j), p),
    ensures
        has_prefix(s.skip(i), p) ==> find_text(s, p) == i,
        i == s.len() && !has_prefix(s.skip(i), p) ==> find_text(s, p) == -1,
    decreases s.len(),
{
    assert(s.skip(0) =~= s);
    if i > 0 {
        assert(!has_prefix(s.skip(0), p));
        let t = s.drop_first();
        assert forall|j: int| 0 <= j < i - 1 implies !has_prefix(#[trigger] t.skip(j), p) by {
            assert(t.skip(j) =~= s.skip(j + 1));
        }
        assert(t.skip(i - 1) =~= s.skip(i));
        lemma_find(t, p, i - 1);
    }
}

/// The text behind the first `p` in `s`.
fn skip_past(s: &str, p: &str) -> (r: Option<String>)
    ensures
        r is Some == (find_text(s@, p@) >= 0),
        r matches Some(t) ==> t@ == s@.skip(find_text(s@, p@) + p@.len()),
{
    let v = chars_of(s);
    let n = v.len();
    let mut i: usize = 0;
    loop
        invariant
            i <= n,
            n == v.len(),
            v@ == s@,
            forall|j: int| 0 <= j < i ==> !has_prefix(#[trigger] s@.skip(j), p@),
        decreases n - i,
    {
        let rest = slice_of(&v, i, n);
        proof {
            assert(rest@ =~= s@.skip(i as int));
        }
        if let Some(t) = strip_prefix(rest.as_str(), p) {
            proof {
                lemma_find(s@, p@, i as int);
                assert(t@ =~= s@.skip(i + p@.len()));
            }
            return Some(t);
        }
        if i == n {
            proof {
                lemma_find(s@, p@, i as int);
            }
            return None;
        }
        i = i + 1;
    }
}

fn is_substring_match(value: &str, s: &Substrings) -> (r: bool)
    ensures
        r == substring_matches(value@, s@),
{
    let v = fold(value);
    let mut rest = v.clone();
    if let Some(first) = &s.initial {
        let f = fold(first.as_str());
        match strip_prefix(v.as_str(), f.as_str()) {
            Some(t) => {
                rest = t;
            },
            None => return false,
        }
    }
    let ghost start = rest@;
    let ghost all = s@.any;
    let mut i: usize = 0;
    assert(all.take(0) =~= Seq::<Seq<char>>::empty());
    while i < s.any.len()
        invariant
            i <= s.any.len(),
            all == texts(s.any@),
            after_pieces(start, all.take(i as int)) == Some(rest@),
            substring_matches(value@, s@) == (after_pieces(start, all) is Some && (s@.last matches Some(l)
                ==> has_suffix(after_pieces(start, all)->0, folded(l)))),
        decreases s.any.len() - i,
    {
        proof {
            assert(all.take(i + 1).drop_last() =~= all.take(i as int));
            assert(all.take(i + 1).last() == s.any@[i as int]@);
        }
        let m = fold(s.any[i].as_str());
        match skip_past(rest.as_str(), m.as_str()) {
            Some(t) => {
                rest = t;
            },
            None => {
                proof {
                    lemma_pieces_fail(start, all, i + 1);
                }
                return false;
            },
        }
        i = i + 1;
    }
    assert(all.take(i as int) =~= all);
    match &s.last {
        None => true,
        Some(l) => {
            let f = fold(l.as_str());
            ends_with(rest.as_str(), f.as_str())
        },
    }
}

proof fn lemma_pieces_fail(s: Seq<char>, pieces: Seq<Seq<char>>, n: int)
    requires
        0 <= n <= pieces.len(),
        after_pieces(s, pieces.take(n)) is None,
    ensures
        after_pieces(s, pieces) is None,
    decreases pieces.len() - n,
{
    if n < pieces.len() {
        assert(pieces.take(n + 1).drop_last() =~= pieces.take(n));
        lemma_pieces_fail(s, pieces, n + 1);
    } else {
        assert(pieces.take(n) =~= pieces);
    }
}

/// Whether an entry satisfies a filter.
pub fn matches_filter(filter: &Filter, row: &Entry) -> (r: bool)
    ensures
        r == filter_matches(filter@, row@),
    decreases *filter,
{
    match filter {
        Filter::And(v) => {
            let mut i: usize = 0;
            proof {
                lemma_filters(*v, v.len() as nat);
            }
            let ghost m = filter_models(*v, v.len() as nat);
            while i < v.len()
                invariant
                    i <= v.len(),
                    *filter == Filter::And(*v),
                    filter@ == FilterModel::And(m),
                    m == filter_models(*v, v.len() as nat),
                    m.len() == v.len(),
                    forall|j: int| 0 <= j < v.len() ==> #[trigger] m[j] == filter_model(v[j]),
                    all_match(m, i as nat, row@),
                decreases v.len() - i,
            {
                assert(*v == filter->And_0);
                assert(decreases_to!(*filter => filter->And_0));
                assert(decreases_to!(*v => v[i as int]));
                if !matches_filter(&v[i], row) {
                    assert(!filter_matches(m[i as int], row@));
                    proof {
                        lemma_all_fails(m, (i + 1) as nat, row@);
                    }
                    return false;
                }
                assert(filter_matches(m[i as int], row@));
                assert(all_match(m, (i + 1) as nat, row@));
                i = i + 1;
            }
            true
        },
        Filter::Or(v) => {
            let mut i: usize = 0;
            proof {
                lemma_filters(*v, v.len() as nat);
            }
            let ghost m = filter_models(*v, v.len() as nat);
            while i < v.len()
                invariant
                    i <= v.len(),
                    *filter == Filter::Or(*v),
                    filter@ == FilterModel::Or(m),
                    m == filter_models(*v, v.len() as nat),
                    m.len() == v.len(),
                    forall|j: int| 0 <= j < v.len() ==> #[trigger] m[j] == filter_model(v[j]),
                    !any_match(m, i as nat, row@),
                decreases v.len() - i,
            {
                assert(*v == filter->Or_0);
                assert(decreases_to!(*filter => filter->Or_0));
                assert(decreases_to!(*v => v[i as int]));
                if matches_filter(&v[i], row) {
                    assert(filter_matches(m[i as int], row@));
                    proof {
                        lemma_any_holds(m, (i + 1) as nat, row@);
                    }
                    return true;
                }
                assert(!filter_matches(m[i as int], row@));
                assert(!any_match(m, (i + 1) as nat, row@));
                i = i + 1;
            }
            false
        },
        Filter::Not(g) => {
            assert(decreases_to!(*filter => filter->Not_0));
            !matches_filter(g, row)
        },
        Filter::Equality(a, expected) => {
            let values = collect_values(row, a.as_str());
            let want = fold(expected.as_str());
            let ghost p = equality_rule(expected@);
            let ghost all = values_named(row@, a@);
            proof {
                lemma_values(row@, a@, p, row@.attributes.len() as int);
            }
            let mut i: usize = 0;
            while i < values.len()
                invariant
                    i <= values.len(),
                    all == texts(values@),
                    p == equality_rule(expected@),
                    want@ == folded(expected@),
                    filter@ == FilterModel::Equality(a@, expected@),
                    some_value(row@, a@, p) == exists|k: int| 0 <= k < all.len() && p(#[trigger] all[k]),
                    forall|j: int| 0 <= j < i ==> !p(#[trigger] all[j]),
                decreases values.len() - i,
            {
                assert(all[i as int] == values@[i as int]@);
                let v = fold(values[i].as_str());
                if same(v.as_str(), want.as_str()) {
                    assert(p(all[i as int]));
                    return true;
                }
                assert(!p(all[i as int]));
                i = i + 1;
            }
            false
        },
        Filter::Present(a) => {
            let values = collect_values(row, a.as_str());
            let ghost p = any_rule();
            let ghost all = values_named(row@, a@);
            proof {
                lemma_values(row@, a@, p, row@.attributes.len() as int);
                assert(texts(values@).len() == values.len());
                if all.len() > 0 {
                    assert(p(all[0]));
                }
            }
            values.len() > 0
        },
        Filter::Substring(a, s) => {
            let values = collect_values(row, a.as_str());
            let ghost p = substring_rule(s@);
            let ghost all = values_named(row@, a@);
            proof {
                lemma_values(row@, a@, p, row@.attributes.len() as int);
            }
            let mut i: usize = 0;
            while i < values.len()
                invariant
                    i <= values.len(),
                    all == texts(values@),
                    p == substring_rule(s@),
                    filter@ == FilterModel::Substring(a@, s@),
                    some_value(row@, a@, p) == exists|k: int| 0 <= k < all.len() && p(#[trigger] all[k]),
                    forall|j: int| 0 <= j < i ==> !p(#[trigger] all[j]),
                decreases values.len() - i,
            {
                assert(all[i as int] == values@[i as int]@);
                if is_substring_match(values[i].as_str(), s) {
                    assert(p(all[i as int]));
                    return true;
                }
                assert(!p(all[i as int]));
                i = i + 1;
            }
            false
        },
        Filter::Other => false,
    }
}

/// A piece of a substring assertion is too long.
pub open spec fn long_piece(s: SubstringsModel) -> bool {
    (s.initial matches Some(v) && byte_count(v) > 2048) || (s.last matches Some(v) && byte_count(v)
        > 2048) || exists|i: int| 0 <= i < s.any.len() && byte_count(#[trigger] s.any[i]) > 2048
}

/// How many nodes were counted after a filter, or why the filter is refused: at most 12 levels and
/// 128 nodes, bounded assertions, and only the kinds that this profile serves.
pub open spec fn filter_check(f: FilterModel, depth: nat, nodes: nat) -> Result<nat, Failure>
    decreases f, 0nat,
{
    if depth > 12 || nodes + 1 > 128 {
        Err(Failure::Bad("LDAP filter exceeds complexity limits"@))
    } else {
        match f {
            FilterModel::And(v) => if v.len() == 0 {
                Err(Failure::Bad("Empty LDAP boolean filter"@))
            } else {
                filters_check(v, v.len(), depth + 1, nodes + 1)
            },
            FilterModel::Or(v) => if v.len() == 0 {
                Err(Failure::Bad("Empty LDAP boolean filter"@))
            } else {
                filters_check(v, v.len(), depth + 1, nodes + 1)
            },
            FilterModel::Not(g) => filter_check(*g, depth + 1, nodes + 1),
            FilterModel::Equality(a, v) => if byte_count(a) > 128 || byte_count(v) > 2048 {
                Err(Failure::Bad("Oversized LDAP assertion"@))
            } else {
                Ok(nodes + 1)
            },
            FilterModel::Present(a) => if byte_count(a) > 128 {
                Err(Failure::Bad("Oversized LDAP attribute"@))
            } else {
                Ok(nodes + 1)
            },
            FilterModel::Substring(a, s) => if byte_count(a) > 128 || s.any.len() > 16 || long_piece(
                s,
            ) {
                Err(Failure::Bad("Oversized LDAP substring filter"@))
            } else {
                Ok(nodes + 1)
            },
            FilterModel::Other => Err(
                Failure::Bad(
                    "This LDAP profile supports equality, presence, substring and boolean filters"@,
                ),
            ),
        }
    }
}

/// The first `n` filters of a list, one after the other.
pub open spec fn filters_check(v: Seq<FilterModel>, n: nat, depth: nat, nodes: nat) -> Result<
    nat,
    Failure,
>
    decreases v, n,
{
    if n == 0 || n > v.len() {
        Ok(nodes)
    } else {
        match filters_check(v, (n - 1) as nat, depth, nodes) {
            Err(f) => Err(f),
            Ok(k) => filter_check(v[n - 1], depth, k),
        }
    }
}

proof fn lemma_filters_fail(v: Seq<FilterModel>, n: nat, depth: nat, nodes: nat)
    requires
        n <= v.len(),
        filters_check(v, n, depth, nodes) is Err,
    ensures
        filters_check(v, v.len(), depth, nodes) == filters_check(v, n, depth, nodes),
    decreases v.len() - n,
{
    if n < v.len() {
        assert(filters_check(v, n + 1, depth, nodes) == filters_check(v, n, depth, nodes));
        lemma_filters_fail(v, n + 1, depth, nodes);
    }
}

fn check_list(v: &Vec<Filter>, depth: usize, nodes: usize) -> (r: Result<usize, Error>)
    requires
        depth <= 13,
        nodes <= 128,
    ensures
        match filters_check(filter_models(*v, v.len() as nat), v.len() as nat, depth as nat, nodes as nat) {
            Ok(k) => r == Ok::<usize, Error>(k as usize) && k <= 128,
            Err(f) => fails(r, f),
        },
    decreases *v,
{
    proof {
        lemma_filters(*v, v.len() as nat);
    }
    let ghost m = filter_models(*v, v.len() as nat);
    let mut k: usize = nodes;
    let mut i: usize = 0;
    while i < v.len()
        invariant
            i <= v.len(),
            m == filter_models(*v, v.len() as nat),
            m.len() == v.len(),
            depth <= 13,
            k <= 128,
            forall|j: int| 0 <= j < v.len() ==> #[trigger] m[j] == filter_model(v[j]),
            filters_check(m, i as nat, depth as nat, nodes as nat) == Ok::<nat, Failure>(k as nat),
        decreases v.len() - i,
    {
        assert(decreases_to!(*v => v[i as int]));
        assert(m[i as int] == filter_model(v[i as int]));
        match count_nodes(&v[i], depth, k) {
            Ok(n) => {
                k = n;
            },
            Err(e) => {
                proof {
                    lemma_filters_fail(m, (i + 1) as nat, depth as nat, nodes as nat);
                }
                return Err(e);
            },
        }
        i = i + 1;
    }
    Ok(k)
}

fn has_long_piece(s: &Substrings) -> (r: bool)
    ensures
        r == long_piece(s@),
{
    if let Some(v) = &s.initial {
        if byte_len(v.as_str()) > 2048 {
            return true;
        }
    }
    if let Some(v) = &s.last {
        if byte_len(v.as_str()) > 2048 {
            return true;
        }
    }
    let mut i: usize = 0;
    while i < s.any.len()
        invariant
            i <= s.any.len(),
            !(s@.initial matches Some(v) && byte_count(v) > 2048),
            !(s@.last matches Some(v) && byte_count(v) > 2048),
            forall|j: int| 0 <= j < i ==> byte_count(#[trigger] s@.any[j]) <= 2048,
        decreases s.any.len() - i,
    {
        assert(s@.any[i as int] == s.any@[i as int]@);
        if byte_len(s.any[i].as_str()) > 2048 {
            return true;
        }
        i = i + 1;
    }
    false
}

fn count_nodes(filter: &Filter, depth: usize, nodes: usize) -> (r: Result<usize, Error>)
    requires
        depth <= 13,
        nodes <= 128,
    ensures
        match filter_check(filter@, depth as nat, nodes as nat) {
            Ok(k) => r == Ok::<usize, Error>(k as usize) && k <= 128,
            Err(f) => fails(r, f),
        },
    decreases *filter,
{
    if depth > 12 || nodes + 1 > 128 {
        return Err(Error::bad("LDAP filter exceeds complexity limits"));
    }
    match filter {
        Filter::And(v) => {
            proof {
                lemma_filters(*v, v.len() as nat);
            }
            if v.len() == 0 {
                return Err(Error::bad("Empty LDAP boolean filter"));
            }
            assert(decreases_to!(*filter => filter->And_0));
            check_list(v, depth + 1, nodes + 1)
        },
        Filter::Or(v) => {
            proof {
                lemma_filters(*v, v.len() as nat);
            }
            if v.len() == 0 {
                return Err(Error::bad("Empty LDAP boolean filter"));
            }
            assert(decreases_to!(*filter => filter->Or_0));
            check_list(v, depth + 1, nodes + 1)
        },
        Filter::Not(g) => {
            assert(decreases_to!(*filter => filter->Not_0));
            count_nodes(g, depth + 1, nodes + 1)
        },
        Filter::Equality(a, v) => {
            if byte_len(a.as_str()) > 128 || byte_len(v.as_str()) > 2048 {
                return Err(Error::bad("Oversized LDAP assertion"));
            }
            Ok(nodes + 1)
        },
        Filter::Present(a) => {
            if byte_len(a.as_str()) > 128 {
                return Err(Error::bad("Oversized LDAP attribute"));
            }
            Ok(nodes + 1)
        },
        Filter::Substring(a, s) => {
            if byte_len(a.as_str()) > 128 || s.any.len() > 16 || has_long_piece(s) {
                return Err(Error::bad("Oversized LDAP substring filter"));
            }
            Ok(nodes + 1)
        },
        Filter::Other => Err(
            Error::bad(
                "This LDAP profile supports equality, presence, substring and boolean filters",
            ),
        ),
    }
}

/// Accepts a filter of bounded depth, size and kinds.
pub fn validate_filter(filter: &Filter) -> (r: Result<(), Error>)
    ensures
        match filter_check(filter@, 0, 0) {
            Ok(_) => r is Ok,
            Err(f) => fails(r, f),
        },
{
    match count_nodes(filter, 0, 0) {
        Ok(_) => Ok(()),
        Err(e) => Err(e),
    }
}

/// What a filter matches: all of its parts, one of its parts, or not its part; and of a single attribute,
/// an equal value whatever its case, or any value.
pub proof fn filters_match_by_their_kind(
    v: Seq<FilterModel>,
    g: FilterModel,
    a: Seq<char>,
    x: Seq<char>,
    e: EntryModel,
)
    ensures
        filter_matches(FilterModel::And(v), e) <==> forall|i: int|
            0 <= i < v.len() ==> filter_matches(#[trigger] v[i], e),
        filter_matches(FilterModel::Or(v), e) <==> exists|i: int|
            0 <= i < v.len() && filter_matches(#[trigger] v[i], e),
        filter_matches(FilterModel::Not(Box::new(g)), e) <==> !filter_matches(g, e),
        filter_matches(FilterModel::Equality(a, x), e) <==> exists|i: int, j: int|
            0 <= i < e.attributes.len() && 0 <= j < (#[trigger] e.attributes[i]).vals.len() && lower(
                e.attributes[i].name,
            ) == lower(a) && folded(#[trigger] e.attributes[i].vals[j]) == folded(x),
        filter_matches(FilterModel::Present(a), e) <==> exists|i: int|
            0 <= i < e.attributes.len() && lower((#[trigger] e.attributes[i]).name) == lower(a)
                && e.attributes[i].vals.len() > 0,
        !filter_matches(FilterModel::Other, e),
{
    lemma_all_match(v, v.len(), e);
    lemma_any_match(v, v.len(), e);
    if filter_matches(FilterModel::Present(a), e) {
        let (i, j) = choose|i: int, j: int|
            0 <= i < e.attributes.len() && 0 <= j < (#[trigger] e.attributes[i]).vals.len() && lower(
                e.attributes[i].name,
            ) == lower(a) && any_rule()(#[trigger] e.attributes[i].vals[j]);
        assert(e.attributes[i].vals.len() > 0);
    }
    if exists|i: int|
        0 <= i < e.attributes.len() && lower((#[trigger] e.attributes[i]).name) == lower(a)
            && e.attributes[i].vals.len() > 0 {
        let i = choose|i: int|
            0 <= i < e.attributes.len() && lower((#[trigger] e.attributes[i]).name) == lower(a)
                && e.attributes[i].vals.len() > 0;
        assert(any_rule()(e.attributes[i].vals[0]));
    }
    if filter_matches(FilterModel::Equality(a, x), e) {
        let (i, j) = choose|i: int, j: int|
            0 <= i < e.attributes.len() && 0 <= j < (#[trigger] e.attributes[i]).vals.len() && lower(
                e.attributes[i].name,
            ) == lower(a) && equality_rule(x)(#[trigger] e.attributes[i].vals[j]);
        assert(folded(e.attributes[i].vals[j]) == folded(x));
    }
    if exists|i: int, j: int|
        0 <= i < e.attributes.len() && 0 <= j < (#[trigger] e.attributes[i]).vals.len() && lower(
            e.attributes[i].name,
        ) == lower(a) && folded(#[trigger] e.attributes[i].vals[j]) == folded(x) {
        let (i, j) = choose|i: int, j: int|
            0 <= i < e.attributes.len() && 0 <= j < (#[trigger] e.attributes[i]).vals.len() && lower(
                e.attributes[i].name,
            ) == lower(a) && folded(#[trigger] e.attributes[i].vals[j]) == folded(x);
        assert(equality_rule(x)(e.attributes[i].vals[j]));
    }
}

proof fn lemma_all_match(v: Seq<FilterModel>, n: nat, e: EntryModel)
    requires
        n <= v.len(),
    ensures
        all_match(v, n, e) <==> forall|i: int| 0 <= i < n ==> filter_matches(#[trigger] v[i], e),
    decreases n,
{
    if n > 0 {
        lemma_all_match(v, (n - 1) as nat, e);
    }
}

proof fn lemma_any_match(v: Seq<FilterModel>, n: nat, e: EntryModel)
    requires
        n <= v.len(),
    ensures
        any_match(v, n, e) <==> exists|i: int| 0 <= i < n && filter_matches(#[trigger] v[i], e),
    decreases n,
{
    if n > 0 {
        lemma_any_match(v, (n - 1) as nat, e);
        if filter_matches(v[n - 1], e) {
            assert(any_match(v, n, e));
        }
    }
}

/// A value matches a pattern where it begins with the pattern's first piece, ends with its last, and holds
/// those between them.
pub proof fn patterns_match_their_ends(value: Seq<char>, first: Seq<char>, last: Seq<char>)
    ensures
        substring_matches(
            value,
            SubstringsModel { initial: Some(first), any: Seq::empty(), last: None },
        ) <==> has_prefix(folded(value), folded(first)),
        substring_matches(
            value,
            SubstringsModel { initial: None, any: Seq::empty(), last: Some(last) },
        ) <==> has_suffix(folded(value), folded(last)),
        substring_matches(value, SubstringsModel { initial: None, any: Seq::empty(), last: None }),
        substring_matches(
            value,
            SubstringsModel { initial: None, any: seq![first], last: None },
        ) <==> contains_text(folded(value), folded(first)),
{
    reveal_with_fuel(after_pieces, 2);
    assert(seq![first].drop_last() =~= Seq::<Seq<char>>::empty());
    assert(seq![first].last() == first);
    lemma_found_text(folded(value), folded(first));
}

proof fn lemma_found_text(s: Seq<char>, p: Seq<char>)
    ensures
        find_text(s, p) >= 0 <==> contains_text(s, p),
    decreases s.len(),
{
    if has_prefix(s, p) {
        assert(s.subrange(0, p.len() as int) =~= s.take(p.len() as int));
        assert(crate::text::occurs_at(s, p, 0));
    } else if s.len() == 0 {
        if contains_text(s, p) {
            let i = choose|i: int| #[trigger] crate::text::occurs_at(s, p, i);
            assert(p.len() == 0);
            assert(s.take(0) =~= p);
        }
    } else {
        let r = s.drop_first();
        lemma_found_text(r, p);
        if contains_text(r, p) {
            let i = choose|i: int| #[trigger] crate::text::occurs_at(r, p, i);
            assert(s.subrange(i + 1, i + 1 + p.len()) =~= r.subrange(i, i + p.len()));
            assert(crate::text::occurs_at(s, p, i + 1));
        }
        if contains_text(s, p) {
            let i = choose|i: int| #[trigger] crate::text::occurs_at(s, p, i);
            if i == 0 {
                assert(s.take(p.len() as int) =~= s.subrange(0, p.len() as int));
            } else {
                assert(r.subrange(i - 1, i - 1 + p.len()) =~= s.subrange(i, i + p.len()));
                assert(crate::text::occurs_at(r, p, i - 1));
            }
        }
    }
}

/// Filters are bounded: twelve levels, a hundred and twenty-eight nodes, no empty lists, and short
/// names and values.
pub proof fn filters_are_bounded(a: Seq<char>, v: Seq<char>, s: SubstringsModel, depth: nat, nodes: nat)
    ensures
        forall|f: FilterModel|
            depth > 12 || nodes >= 128 ==> (#[trigger] filter_check(f, depth, nodes)) is Err,
        filter_check(FilterModel::Other, depth, nodes) is Err,
        filter_check(FilterModel::And(Seq::empty()), depth, nodes) is Err,
        filter_check(FilterModel::Or(Seq::empty()), depth, nodes) is Err,
        depth <= 12 && nodes < 128 ==> {
            &&& filter_check(FilterModel::Equality(a, v), depth, nodes) is Ok <==> byte_count(a) <= 128
                && byte_count(v) <= 2048
            &&& filter_check(FilterModel::Present(a), depth, nodes) is Ok <==> byte_count(a) <= 128
            &&& filter_check(FilterModel::Substring(a, s), depth, nodes) is Ok <==> byte_count(a) <= 128
                && s.any.len() <= 16 && (s.initial matches Some(x) ==> byte_count(x) <= 2048) && (
            s.last matches Some(x) ==> byte_count(x) <= 2048) && forall|i: int|
                0 <= i < s.any.len() ==> byte_count(#[trigger] s.any[i]) <= 2048
        },
{
}

/// What stands inside another filter stands one level deeper, and every node counts once.
pub proof fn inner_filters_count(f: FilterModel, g: FilterModel, depth: nat, nodes: nat)
    requires
        depth <= 12,
        nodes < 128,
    ensures
        filter_check(FilterModel::Not(Box::new(f)), depth, nodes) == filter_check(f, depth + 1, nodes + 1),
        filter_check(FilterModel::And(seq![f]), depth, nodes) == filter_check(f, depth + 1, nodes + 1),
        filter_check(FilterModel::Or(seq![f]), depth, nodes) == filter_check(f, depth + 1, nodes + 1),
        filter_check(FilterModel::And(seq![f, g]), depth, nodes) is Ok <==> (filter_check(
            f,
            depth + 1,
            nodes + 1,
        ) is Ok && filter_check(g, depth + 1, filter_check(f, depth + 1, nodes + 1)->Ok_0) is Ok),
        filter_check(FilterModel::Or(seq![f, g]), depth, nodes) == filter_check(
            FilterModel::And(seq![f, g]),
            depth,
            nodes,
        ),
{
    reveal_with_fuel(crate::ldap_server::filter::filters_check, 3);
    reveal_with_fuel(crate::ldap_server::filter::filter_check, 3);
    let one = seq![f];
    let two = seq![f, g];
    assert(one.len() == 1 && one[0] == f);
    assert(two.len() == 2 && two[0] == f && two[1] == g);
    assert(filters_check(one, 0, depth + 1, nodes + 1) == Ok::<nat, Failure>(nodes + 1));
    assert(filters_check(two, 0, depth + 1, nodes + 1) == Ok::<nat, Failure>(nodes + 1));
    assert(filters_check(two, 1, depth + 1, nodes + 1) == filter_check(f, depth + 1, nodes + 1));
}

/// The values of a name are those of every attribute of that name, in any case, and no others.
pub proof fn values_are_found_by_name(e: EntryModel, name: Seq<char>, v: Seq<char>)
    ensures
        values_named(e, name).contains(v) <==> exists|i: int|
            0 <= i < e.attributes.len() && lower((#[trigger] e.attributes[i]).name) == lower(name)
                && e.attributes[i].vals.contains(v),
{
    lemma_values_upto(e, name, v, e.attributes.len() as int);
}

proof fn lemma_values_upto(e: EntryModel, name: Seq<char>, v: Seq<char>, n: int)
    requires
        0 <= n <= e.attributes.len(),
    ensures
        values_upto(e, name, n).contains(v) <==> exists|i: int|
            0 <= i < n && lower((#[trigger] e.attributes[i]).name) == lower(name)
                && e.attributes[i].vals.contains(v),
    decreases n,
{
    if n > 0 {
        lemma_values_upto(e, name, v, n - 1);
        let rest = values_upto(e, name, n - 1);
        let all = values_upto(e, name, n);
        let own = e.attributes[n - 1].vals;
        if lower(e.attributes[n - 1].name) == lower(name) {
            if all.contains(v) {
                let k = all.index_of(v);
                if k < rest.len() {
                    assert(rest[k] == v);
                } else {
                    assert(own[k - rest.len()] == v);
                }
            }
            if rest.contains(v) {
                assert(all[rest.index_of(v)] == v);
            }
            if own.contains(v) {
                assert(all[rest.len() + own.index_of(v)] == v);
            }
        }
    }
}

} // verus!
