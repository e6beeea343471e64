//! JSON values as the rules read them.
use crate::names::{lemma_lt_irreflexive, lemma_lt_total, lemma_lt_transitive};
use crate::outside::{json_quoted, quote_json};
use crate::table::Row;
use crate::text::{before, concat, concat3, decimal, decimal_text, joined, same, text_lt};
use vstd::prelude::*;
use vstd::string::*;

verus! {

/// A JSON value. A number with a fraction or an exponent is kept as its text.
pub enum Json {
    Null,
    Bool(bool),
    Unsigned(u64),
    Negative(i64),
    Fraction(String),
    Text(String),
    Array(Vec<Json>),
    Object(Vec<Member>),
}

/// A member of a JSON object.
pub struct Member {
    pub key: String,
    pub value: Json,
}

/// What a [`Json`] value holds.
pub enum JsonModel {
    Null,
    Bool(bool),
    Unsigned(u64),
    Negative(i64),
    Fraction(Seq<char>),
    Text(Seq<char>),
    Array(Seq<JsonModel>),
    Object(Seq<(Seq<char>, JsonModel)>),
}

/// The contents of `j`.
pub open spec fn json_model(j: Json) -> JsonModel
    decreases j, 0nat,
{
    match j {
        Json::Null => JsonModel::Null,
        Json::Bool(b) => JsonModel::Bool(b),
        Json::Unsigned(n) => JsonModel::Unsigned(n),
        Json::Negative(n) => JsonModel::Negative(n),
        Json::Fraction(t) => JsonModel::Fraction(t@),
        Json::Text(t) => JsonModel::Text(t@),
        Json::Array(v) => JsonModel::Array(item_models(v, v.len() as nat)),
        Json::Object(v) => JsonModel::Object(member_models(v, v.len() as nat)),
    }
}

/// The contents of the first `n` items of `v`.
pub open spec fn item_models(v: Vec<Json>, n: nat) -> Seq<JsonModel>
    decreases v, n,
{
    if n == 0 || n > v.len() {
        Seq::empty()
    } else {
        item_models(v, (n - 1) as nat).push(json_model(v[n - 1]))
    }
}

/// The contents of the first `n` members of `v`.
pub open spec fn member_models(v: Vec<Member>, n: nat) -> Seq<(Seq<char>, JsonModel)>
    decreases v, n,
{
    if n == 0 || n > v.len() {
        Seq::empty()
    } else {
        member_models(v, (n - 1) as nat).push((v[n - 1].key@, json_model(v[n - 1].value)))
    }
}

pub proof fn lemma_items(v: Vec<Json>, n: nat)
    requires
        n <= v.len(),
    ensures
        item_models(v, n).len() == n,
        forall|i: int| 0 <= i < n ==> #[trigger] item_models(v, n)[i] == json_model(v[i]),
    decreases n,
{
    if n > 0 {
        lemma_items(v, (n - 1) as nat);
    }
}

pub proof fn lemma_members(v: Vec<Member>, n: nat)
    requires
        n <= v.len(),
    ensures
        member_models(v, n).len() == n,
        forall|i: int|
            0 <= i < n ==> #[trigger] member_models(v, n)[i] == (v[i].key@, json_model(v[i].value)),
    decreases n,
{
    if n > 0 {
        lemma_members(v, (n - 1) as nat);
    }
}

impl View for Json {
    type V = JsonModel;

    open spec fn view(&self) -> JsonModel {
        json_model(*self)
    }
}

impl Row for Json {
    fn dup(&self) -> (r: Self) {
        copy_json(self)
    }
}

fn copy_json(j: &Json) -> (r: Json)
    ensures
        r@ == j@,
    decreases *j,
{
    match j {
        Json::Null => Json::Null,
        Json::Bool(b) => Json::Bool(*b),
        Json::Unsigned(n) => Json::Unsigned(*n),
        Json::Negative(n) => Json::Negative(*n),
        Json::Fraction(t) => Json::Fraction(t.clone()),
        Json::Text(t) => Json::Text(t.clone()),
        Json::Array(v) => {
            let mut w: Vec<Json> = Vec::new();
            let mut i: usize = 0;
            while i < v.len()
                invariant
                    i <= v.len(),
                    w.len() == i,
                    *j == Json::Array(*v),
                    forall|k: int| 0 <= k < i ==> (#[trigger] w[k])@ == v[k]@,
                decreases v.len() - i,
            {
                assert(*v == j->Array_0);
                assert(decreases_to!(*j => j->Array_0));
                assert(decreases_to!(*v => v[i as int]));
                assert(decreases_to!(*j => v[i as int]));
                let x = copy_json(&v[i]);
                w.push(x);
                i = i + 1;
            }
            proof {
                lemma_items(*v, v.len() as nat);
                lemma_items(w, w.len() as nat);
                assert(item_models(w, w.len() as nat) =~= item_models(*v, v.len() as nat));
            }
            Json::Array(w)
        },
        Json::Object(v) => {
            let mut w: Vec<Member> = Vec::new();
            let mut i: usize = 0;
            while i < v.len()
                invariant
                    i <= v.len(),
                    w.len() == i,
                    *j == Json::Object(*v),
                    forall|k: int| 0 <= k < i ==> (#[trigger] w[k]).key@ == v[k].key@ && w[k].value@ == v[k].value@,
                decreases v.len() - i,
            {
                assert(*v == j->Object_0);
                assert(decreases_to!(*j => j->Object_0));
                assert(decreases_to!(*v => v[i as int]));
                assert(decreases_to!(*j => v[i as int]));
                assert(decreases_to!(v[i as int] => v[i as int].value));
                let x = copy_json(&v[i].value);
                w.push(Member { key: v[i].key.clone(), value: x });
                i = i + 1;
            }
            proof {
                lemma_members(*v, v.len() as nat);
                lemma_members(w, w.len() as nat);
                assert(member_models(w, w.len() as nat) =~= member_models(*v, v.len() as nat));
            }
            Json::Object(w)
        },
    }
}

impl JsonModel {
    /// The value of the member `key` of an object; objects hold each key once.
    pub open spec fn member(self, key: Seq<char>) -> Option<JsonModel> {
        match self {
            JsonModel::Object(m) => lookup(m, key),
            _ => None,
        }
    }

    /// The text of a string value.
    pub open spec fn text(self) -> Option<Seq<char>> {
        match self {
            JsonModel::Text(t) => Some(t),
            _ => None,
        }
    }

    /// The value of an unsigned number.
    pub open spec fn number(self) -> Option<u64> {
        match self {
            JsonModel::Unsigned(n) => Some(n),
            _ => None,
        }
    }
}

/// The value of the first member with the key `key`.
pub open spec fn lookup(m: Seq<(Seq<char>, JsonModel)>, key: Seq<char>) -> Option<JsonModel>
    decreases m.len(),
{
    if m.len() == 0 {
        None
    } else if m[0].0 == key {
        Some(m[0].1)
    } else {
        lookup(m.drop_first(), key)
    }
}

/// The text of the member `key` of `j`, where `j` is an object with such a member.
pub open spec fn text_of(j: JsonModel, key: Seq<char>) -> Option<Seq<char>> {
    match j.member(key) {
        Some(v) => v.text(),
        None => None,
    }
}

proof fn lemma_lookup(m: Seq<(Seq<char>, JsonModel)>, key: Seq<char>, i: int)
    requires
        0 <= i <= m.len(),
        forall|j: int| 0 <= j < i ==> (#[trigger] m[j]).0 != key,
        i < m.len() ==> m[i].0 == key,
    ensures
        lookup(m, key) == if i < m.len() {
            Some(m[i].1)
        } else {
            None
        },
    decreases m.len(),
{
    if m.len() > 0 && m[0].0 != key {
        assert forall|j: int| 0 <= j < i - 1 implies (#[trigger] m.drop_first()[j]).0 != key by {
            assert(m.drop_first()[j] == m[j + 1]);
        }
        lemma_lookup(m.drop_first(), key, i - 1);
    }
}

impl Json {
    pub fn get(&self, key: &str) -> (r: Option<&Json>)
        ensures
            match r {
                Some(v) => self@.member(key@) == Some(v@) && decreases_to!(*self => *v),
                None => self@.member(key@) is None,
            },
    {
        match self {
            Json::Object(v) => {
                let mut i: usize = 0;
                while i < v.len()
                    invariant
                        i <= v.len(),
                        *self == Json::Object(*v),
                        forall|j: int| 0 <= j < i ==> (#[trigger] v[j]).key@ != key@,
                    decreases v.len() - i,
                {
                    if same(v[i].key.as_str(), key) {
                        proof {
                            lemma_members(*v, v.len() as nat);
                            lemma_lookup(member_models(*v, v.len() as nat), key@, i as int);
                            assert(decreases_to!(*v => v[i as int]));
                        }
                        return Some(&v[i].value);
                    }
                    i = i + 1;
                }
                proof {
                    lemma_members(*v, v.len() as nat);
                    lemma_lookup(member_models(*v, v.len() as nat), key@, v.len() as int);
                }
                None
            },
            _ => None,
        }
    }

    pub fn as_text(&self) -> (r: Option<&String>)
        ensures
            match r {
                Some(t) => self@.text() == Some(t@),
                None => self@.text() is None,
            },
    {
        match self {
            Json::Text(t) => Some(t),
            _ => None,
        }
    }

    pub fn as_number(&self) -> (r: Option<u64>)
        ensures
            r == self@.number(),
    {
        match self {
            Json::Unsigned(n) => Some(*n),
            _ => None,
        }
    }

    /// The text of the member `key`.
    pub fn get_text(&self, key: &str) -> (r: Option<&String>)
        ensures
            match r {
                Some(t) => text_of(self@, key@) == Some(t@),
                None => text_of(self@, key@) is None,
            },
    {
        match self.get(key) {
            Some(v) => v.as_text(),
            None => None,
        }
    }
}

/// The array of these texts.
pub open spec fn texts_array(v: Seq<Seq<char>>) -> JsonModel {
    JsonModel::Array(v.map_values(|t: Seq<char>| JsonModel::Text(t)))
}

pub fn text_array(v: &Vec<String>) -> (r: Json)
    ensures
        r@ == texts_array(crate::text::texts(v@)),
{
    let mut items: Vec<Json> = Vec::new();
    let mut i: usize = 0;
    while i < v.len()
        invariant
            i <= v.len(),
            items.len() == i,
            forall|k: int| 0 <= k < i ==> (#[trigger] items[k])@ == JsonModel::Text(v[k]@),
        decreases v.len() - i,
    {
        items.push(Json::Text(v[i].clone()));
        i = i + 1;
    }
    proof {
        lemma_items(items, items.len() as nat);
        assert(item_models(items, items.len() as nat) =~= crate::text::texts(v@).map_values(
            |t: Seq<char>| JsonModel::Text(t),
        ));
    }
    Json::Array(items)
}

/// An object with one member.
pub fn single(key: &str, value: Json) -> (r: Json)
    ensures
        r@ == JsonModel::Object(seq![(key@, value@)]),
{
    let mut v: Vec<Member> = Vec::new();
    v.push(Member { key: key.to_owned(), value });
    proof {
        lemma_members(v, 1);
        assert(member_models(v, 1) =~= seq![(key@, value@)]);
    }
    Json::Object(v)
}

/// A string value.
pub fn text(s: &str) -> (r: Json)
    ensures
        r@ == JsonModel::Text(s@),
{
    Json::Text(s.to_owned())
}

/// The members with `value` for `key`: in place of the first one, or as a new last one.
pub open spec fn with_member(m: Seq<(Seq<char>, JsonModel)>, key: Seq<char>, value: JsonModel) -> Seq<
    (Seq<char>, JsonModel),
>
    decreases m.len(),
{
    if m.len() == 0 {
        seq![(key, value)]
    } else if m[0].0 == key {
        seq![(key, value)] + m.drop_first()
    } else {
        seq![m[0]] + with_member(m.drop_first(), key, value)
    }
}

proof fn lemma_with_member(m: Seq<(Seq<char>, JsonModel)>, key: Seq<char>, value: JsonModel, i: int)
    requires
        0 <= i <= m.len(),
        forall|j: int| 0 <= j < i ==> (#[trigger] m[j]).0 != key,
        i < m.len() ==> m[i].0 == key,
    ensures
        with_member(m, key, value) == if i < m.len() {
            m.update(i, (key, value))
        } else {
            m.push((key, value))
        },
    decreases m.len(),
{
    if m.len() == 0 {
        assert(with_member(m, key, value) =~= m.push((key, value)));
    } else if m[0].0 == key {
        assert(with_member(m, key, value) =~= m.update(0, (key, value)));
    } else {
        let t = m.drop_first();
        assert forall|j: int| 0 <= j < i - 1 implies (#[trigger] t[j]).0 != key by {
            assert(t[j] == m[j + 1]);
        }
        lemma_with_member(t, key, value, i - 1);
        if i < m.len() {
            assert(with_member(m, key, value) =~= m.update(i, (key, value)));
        } else {
            assert(with_member(m, key, value) =~= m.push((key, value)));
        }
    }
}

impl Json {
    /// Sets the member `key` of an object; other values stay as they are.
    pub fn set(&mut self, key: &str, value: Json)
        ensures
            final(self)@ == match old(self)@ {
                JsonModel::Object(m) => JsonModel::Object(with_member(m, key@, value@)),
                other => other,
            },
    {
        let mut taken = Json::Null;
        core::mem::swap(&mut taken, self);
        let ghost vm = value@;
        match taken {
            Json::Object(v) => {
                let mut v = v;
                let ghost m = member_models(v, v.len() as nat);
                proof {
                    lemma_members(v, v.len() as nat);
                }
                let mut i: usize = 0;
                while i < v.len() && !same(v[i].key.as_str(), key)
                    invariant
                        i <= v.len(),
                        forall|j: int| 0 <= j < i ==> (#[trigger] v[j]).key@ != key@,
                    decreases v.len() - i,
                {
                    i = i + 1;
                }
                proof {
                    assert forall|j: int| 0 <= j < i implies (#[trigger] m[j]).0 != key@ by {
                        assert(m[j] == (v[j].key@, json_model(v[j].value)));
                    }
                    lemma_with_member(m, key@, vm, i as int);
                }
                let row = Member { key: key.to_owned(), value };
                if i < v.len() {
                    v[i] = row;
                    proof {
                        lemma_members(v, v.len() as nat);
                        assert(member_models(v, v.len() as nat) =~= m.update(i as int, (key@, vm)));
                    }
                } else {
                    v.push(row);
                    proof {
                        lemma_members(v, v.len() as nat);
                        assert(member_models(v, v.len() as nat) =~= m.push((key@, vm)));
                    }
                }
                *self = Json::Object(v);
            },
            other => {
                *self = other;
            },
        }
    }

    /// An object with these members.
    pub fn object(members: Vec<Member>) -> (r: Json)
        ensures
            r@ == JsonModel::Object(member_models(members, members.len() as nat)),
    {
        Json::Object(members)
    }
}

/// The members of a list.
pub open spec fn members_of(v: Seq<Member>) -> Seq<(Seq<char>, JsonModel)> {
    v.map_values(|m: Member| (m.key@, m.value@))
}

pub proof fn lemma_members_of(v: Vec<Member>)
    ensures
        member_models(v, v.len() as nat) == members_of(v@),
{
    lemma_members(v, v.len() as nat);
    assert(member_models(v, v.len() as nat) =~= members_of(v@));
}

/// The items of a list.
pub open spec fn items_of(v: Seq<Json>) -> Seq<JsonModel> {
    v.map_values(|j: Json| j@)
}

pub proof fn lemma_items_of(v: Vec<Json>)
    ensures
        item_models(v, v.len() as nat) == items_of(v@),
{
    lemma_items(v, v.len() as nat);
    assert(item_models(v, v.len() as nat) =~= items_of(v@));
}

/// A member of an object.
pub fn member(key: &str, value: Json) -> (r: Member)
    ensures
        (r.key@, r.value@) == (key@, value@),
{
    Member { key: key.to_owned(), value }
}

/// Whether a scalar value equals another value.
pub fn same_scalar(a: &Json, b: &Json) -> (r: bool)
    requires
        !(a is Array) && !(a is Object),
    ensures
        r == (a@ == b@),
{
    match (a, b) {
        (Json::Null, Json::Null) => true,
        (Json::Bool(x), Json::Bool(y)) => *x == *y,
        (Json::Unsigned(x), Json::Unsigned(y)) => *x == *y,
        (Json::Negative(x), Json::Negative(y)) => *x == *y,
        (Json::Fraction(x), Json::Fraction(y)) => same(x.as_str(), y.as_str()),
        (Json::Text(x), Json::Text(y)) => same(x.as_str(), y.as_str()),
        _ => false,
    }
}

/// A member of another name.
pub open spec fn named_otherwise(key: Seq<char>) -> spec_fn((Seq<char>, JsonModel)) -> bool {
    |m: (Seq<char>, JsonModel)| m.0 != key
}

impl Json {
    /// Removes a member.
    #[verifier::loop_isolation(false)]
    pub fn remove(&mut self, key: &str)
        ensures
            final(self)@ == match old(self)@ {
                JsonModel::Object(m) => JsonModel::Object(m.filter(named_otherwise(key@))),
                other => other,
            },
    {
        if let Json::Object(v) = self {
            proof {
                lemma_members_of(*v);
            }
            let ghost all = members_of(v@);
            let ghost p = named_otherwise(key@);
            let mut out: Vec<Member> = Vec::new();
            let mut i: usize = 0;
            assert(all.take(0).filter(p) =~= Seq::<(Seq<char>, JsonModel)>::empty());
            assert(members_of(out@) =~= Seq::<(Seq<char>, JsonModel)>::empty());
            while i < v.len()
                invariant
                    i <= v.len(),
                    all == members_of(v@),
                    members_of(out@) == all.take(i as int).filter(p),
                decreases v.len() - i,
            {
                proof {
                    assert(all[i as int] == (v[i as int].key@, v[i as int].value@));
                    assert(all.take(i + 1) =~= all.take(i as int).push(all[i as int]));
                    all.take(i as int).lemma_filter_push(all[i as int], p);
                }
                if !crate::text::same(v[i].key.as_str(), key) {
                    let ghost was = members_of(out@);
                    let x = Member { key: v[i].key.clone(), value: v[i].value.dup() };
                    let ghost xm = (x.key@, x.value@);
                    out.push(x);
                    assert(members_of(out@) =~= was.push(xm));
                }
                i = i + 1;
            }
            proof {
                assert(all.take(i as int) =~= all);
                lemma_members_of(out);
            }
            *self = Json::Object(out);
        }
    }
}

/// The first `n` items are the same.
spec fn same_items(a: Seq<JsonModel>, b: Seq<JsonModel>, n: nat) -> bool {
    forall|i: int| 0 <= i < n && i < a.len() && i < b.len() ==> #[trigger] a[i] == b[i]
}

/// Whether two values are the same, members in the same order.
#[verifier::loop_isolation(false)]
pub fn same_json(a: &Json, b: &Json) -> (r: bool)
    ensures
        r == (a@ == b@),
    decreases a,
{
    match a {
        Json::Array(x) => match b {
            Json::Array(y) => {
                assert(*x == a->Array_0);
                assert(decreases_to!(*a => a->Array_0));
                proof {
                    lemma_items_of(*x);
                    lemma_items_of(*y);
                    assert(items_of(x@).len() == x.len());
                    assert(items_of(y@).len() == y.len());
                }
                if x.len() != y.len() {
                    return false;
                }
                let mut i: usize = 0;
                while i < x.len()
                    invariant
                        i <= x.len(),
                        x.len() == y.len(),
                        decreases_to!(*a => *x),
                        same_items(items_of(x@), items_of(y@), i as nat),
                    decreases x.len() - i,
                {
                    assert(decreases_to!(*x => x[i as int]));
                    assert(items_of(x@)[i as int] == x[i as int]@);
                    assert(items_of(y@)[i as int] == y[i as int]@);
                    if !same_json(&x[i], &y[i]) {
                        proof {
                            lemma_items_of(*x);
                            lemma_items_of(*y);
                            assert(items_of(x@) != items_of(y@));
                        }
                        return false;
                    }
                    i = i + 1;
                }
                proof {
                    lemma_items_of(*x);
                    lemma_items_of(*y);
                    assert(items_of(x@) =~= items_of(y@));
                }
                true
            },
            _ => false,
        },
        Json::Object(x) => match b {
            Json::Object(y) => {
                assert(*x == a->Object_0);
                assert(decreases_to!(*a => a->Object_0));
                proof {
                    lemma_members_of(*x);
                    lemma_members_of(*y);
                    assert(members_of(x@).len() == x.len());
                    assert(members_of(y@).len() == y.len());
                }
                if x.len() != y.len() {
                    return false;
                }
                let mut i: usize = 0;
                while i < x.len()
                    invariant
                        i <= x.len(),
                        x.len() == y.len(),
                        decreases_to!(*a => *x),
                        forall|j: int|
                            0 <= j < i ==> #[trigger] members_of(x@)[j] == members_of(y@)[j],
                    decreases x.len() - i,
                {
                    assert(decreases_to!(*x => x[i as int]));
                    assert(decreases_to!(x[i as int] => x[i as int].value));
                    assert(members_of(x@)[i as int] == (x[i as int].key@, x[i as int].value@));
                    assert(members_of(y@)[i as int] == (y[i as int].key@, y[i as int].value@));
                    if !crate::text::same(x[i].key.as_str(), y[i].key.as_str()) || !same_json(
                        &x[i].value,
                        &y[i].value,
                    ) {
                        proof {
                            lemma_members_of(*x);
                            lemma_members_of(*y);
                            assert(members_of(x@)[i as int] != members_of(y@)[i as int]);
                            assert(members_of(x@) != members_of(y@));
                        }
                        return false;
                    }
                    i = i + 1;
                }
                proof {
                    lemma_members_of(*x);
                    lemma_members_of(*y);
                    assert(members_of(x@) =~= members_of(y@));
                }
                true
            },
            _ => false,
        },
        _ => same_scalar(a, b),
    }
}

/// A replaced member is found, and the others are as they were.
pub proof fn lemma_lookup_with(
    m: Seq<(Seq<char>, JsonModel)>,
    key: Seq<char>,
    value: JsonModel,
    k: Seq<char>,
)
    ensures
        lookup(with_member(m, key, value), k) == if k == key {
            Some(value)
        } else {
            lookup(m, k)
        },
    decreases m.len(),
{
    reveal_with_fuel(lookup, 2);
    let w = with_member(m, key, value);
    if m.len() == 0 {
        assert(w.drop_first() =~= Seq::<(Seq<char>, JsonModel)>::empty());
        assert(lookup(w.drop_first(), k) is None);
    } else if m[0].0 == key {
        assert(w.drop_first() =~= m.drop_first());
    } else {
        lemma_lookup_with(m.drop_first(), key, value, k);
        assert(w.drop_first() =~= with_member(m.drop_first(), key, value));
    }
}

/// What was filtered out is not found.
pub proof fn lemma_lookup_without(m: Seq<(Seq<char>, JsonModel)>, key: Seq<char>)
    ensures
        lookup(m.filter(named_otherwise(key)), key) is None,
{
    let f = m.filter(named_otherwise(key));
    assert forall|j: int| 0 <= j < f.len() implies (#[trigger] f[j]).0 != key by {
        m.lemma_filter_pred(named_otherwise(key), j);
    }
    lemma_lookup(f, key, f.len() as int);
}

/// The text of a number that may be negative.
pub open spec fn signed_decimal(n: i64) -> Seq<char> {
    if n < 0 {
        "-"@ + decimal((-n) as nat)
    } else {
        decimal(n as nat)
    }
}

/// A value as compact JSON text, members as they stand.
pub open spec fn json_text(j: JsonModel) -> Seq<char>
    decreases j, 0nat,
{
    match j {
        JsonModel::Null => "null"@,
        JsonModel::Bool(b) => if b {
            "true"@
        } else {
            "false"@
        },
        JsonModel::Unsigned(n) => decimal(n as nat),
        JsonModel::Negative(n) => signed_decimal(n),
        JsonModel::Fraction(t) => t,
        JsonModel::Text(t) => json_quoted(t),
        JsonModel::Array(v) => "["@ + items_text(v, v.len()) + "]"@,
        JsonModel::Object(m) => "{"@ + members_text(m, m.len()) + "}"@,
    }
}

/// The first `n` items, with commas between them.
pub open spec fn items_text(v: Seq<JsonModel>, n: nat) -> Seq<char>
    decreases v, n,
{
    if n == 0 || n > v.len() {
        Seq::empty()
    } else if n == 1 {
        json_text(v[0])
    } else {
        items_text(v, (n - 1) as nat) + ","@ + json_text(v[n - 1])
    }
}

/// The first `n` members, with commas between them.
pub open spec fn members_text(m: Seq<(Seq<char>, JsonModel)>, n: nat) -> Seq<char>
    decreases m, n,
{
    if n == 0 || n > m.len() {
        Seq::empty()
    } else if n == 1 {
        json_quoted(m[0].0) + ":"@ + json_text(m[0].1)
    } else {
        members_text(m, (n - 1) as nat) + ","@ + (json_quoted(m[n - 1].0) + ":"@ + json_text(
            m[n - 1].1,
        ))
    }
}

fn signed_text(n: i64) -> (r: String)
    ensures
        r@ == signed_decimal(n),
{
    if n < 0 {
        let m: u64 = (-(n as i128)) as u64;
        let t = decimal_text(m);
        concat("-", t.as_str())
    } else {
        decimal_text(n as u64)
    }
}

/// Writes a value as compact JSON text.
#[verifier::loop_isolation(false)]
pub fn to_text(j: &Json) -> (r: String)
    ensures
        r@ == json_text(j@),
    decreases *j,
{
    match j {
        Json::Null => "null".to_owned(),
        Json::Bool(b) => if *b {
            "true".to_owned()
        } else {
            "false".to_owned()
        },
        Json::Unsigned(n) => decimal_text(*n),
        Json::Negative(n) => signed_text(*n),
        Json::Fraction(t) => t.clone(),
        Json::Text(t) => quote_json(t.as_str()),
        Json::Array(v) => {
            proof {
                lemma_items_of(*v);
            }
            let ghost m = items_of(v@);
            assert(j@ == JsonModel::Array(m));
            assert(*v == j->Array_0);
            assert(decreases_to!(*j => j->Array_0));
            let mut inner = String::new();
            let mut i: usize = 0;
            assert(inner@ =~= items_text(m, 0));
            while i < v.len()
                invariant
                    i <= v.len(),
                    inner@ == items_text(m, i as nat),
                decreases v.len() - i,
            {
                assert(decreases_to!(*v => v[i as int]));
                assert(m[i as int] == v[i as int]@);
                let t = to_text(&v[i]);
                if i > 0 {
                    inner.append(",");
                }
                inner.append(t.as_str());
                assert(inner@ =~= items_text(m, (i + 1) as nat));
                i = i + 1;
            }
            concat3("[", inner.as_str(), "]")
        },
        Json::Object(v) => {
            proof {
                lemma_members_of(*v);
            }
            let ghost m = members_of(v@);
            assert(j@ == JsonModel::Object(m));
            assert(*v == j->Object_0);
            assert(decreases_to!(*j => j->Object_0));
            let mut inner = String::new();
            let mut i: usize = 0;
            assert(inner@ =~= members_text(m, 0));
            while i < v.len()
                invariant
                    i <= v.len(),
                    inner@ == members_text(m, i as nat),
                decreases v.len() - i,
            {
                assert(decreases_to!(*v => v[i as int]));
                assert(decreases_to!(v[i as int] => v[i as int].value));
                assert(m[i as int] == (v[i as int].key@, v[i as int].value@));
                let k = quote_json(v[i].key.as_str());
                let t = to_text(&v[i].value);
                let one = concat3(k.as_str(), ":", t.as_str());
                if i > 0 {
                    inner.append(",");
                }
                inner.append(one.as_str());
                assert(inner@ =~= members_text(m, (i + 1) as nat));
                i = i + 1;
            }
            concat3("{", inner.as_str(), "}")
        },
    }
}

/// The members with one more, in the order of the keys; a member of the same key is replaced.
pub open spec fn with_sorted(m: Seq<(Seq<char>, JsonModel)>, key: Seq<char>, value: JsonModel) -> Seq<
    (Seq<char>, JsonModel),
>
    decreases m.len(),
{
    if m.len() == 0 {
        seq![(key, value)]
    } else if m.last().0 == key {
        m.drop_last().push((key, value))
    } else if text_lt(m.last().0, key) {
        m.push((key, value))
    } else {
        with_sorted(m.drop_last(), key, value).push(m.last())
    }
}

/// The value with the members of every object in the order of their keys.
pub open spec fn canonical(j: JsonModel) -> JsonModel
    decreases j, 0nat,
{
    match j {
        JsonModel::Array(v) => JsonModel::Array(canonical_items(v, v.len())),
        JsonModel::Object(m) => JsonModel::Object(canonical_members(m, m.len())),
        other => other,
    }
}

pub open spec fn canonical_items(v: Seq<JsonModel>, n: nat) -> Seq<JsonModel>
    decreases v, n,
{
    if n == 0 || n > v.len() {
        Seq::empty()
    } else {
        canonical_items(v, (n - 1) as nat).push(canonical(v[n - 1]))
    }
}

pub open spec fn canonical_members(m: Seq<(Seq<char>, JsonModel)>, n: nat) -> Seq<
    (Seq<char>, JsonModel),
>
    decreases m, n,
{
    if n == 0 || n > m.len() {
        Seq::empty()
    } else {
        with_sorted(canonical_members(m, (n - 1) as nat), m[n - 1].0, canonical(m[n - 1].1))
    }
}

proof fn lemma_with_sorted(m: Seq<(Seq<char>, JsonModel)>, key: Seq<char>, value: JsonModel, i: int)
    requires
        0 <= i <= m.len(),
        forall|k: int| i <= k < m.len() ==> (#[trigger] m[k]).0 != key && !text_lt(m[k].0, key),
        i > 0 ==> m[i - 1].0 == key || text_lt(m[i - 1].0, key),
    ensures
        with_sorted(m, key, value) == if i > 0 && m[i - 1].0 == key {
            m.update(i - 1, (key, value))
        } else {
            m.insert(i, (key, value))
        },
    decreases m.len(),
{
    let w = with_sorted(m, key, value);
    if i == m.len() {
        if i == 0 {
            assert(w =~= m.insert(0, (key, value)));
        } else if m[i - 1].0 == key {
            assert(w =~= m.update(i - 1, (key, value)));
        } else {
            assert(w =~= m.insert(i, (key, value)));
        }
    } else {
        assert(m[m.len() - 1].0 != key);
        let d = m.drop_last();
        assert forall|k: int| i <= k < d.len() implies (#[trigger] d[k]).0 != key && !text_lt(
            d[k].0,
            key,
        ) by {
            assert(d[k] == m[k]);
        }
        lemma_with_sorted(d, key, value, i);
        if i > 0 && m[i - 1].0 == key {
            assert(w =~= m.update(i - 1, (key, value)));
        } else {
            assert(w =~= m.insert(i, (key, value)));
        }
    }
}

#[verifier::loop_isolation(false)]
fn place_member(v: &mut Vec<Member>, key: &str, value: Json)
    ensures
        members_of(final(v)@) == with_sorted(members_of(old(v)@), key@, value@),
{
    let ghost m = members_of(v@);
    let ghost vm = value@;
    proof {
        lemma_members_of(*v);
    }
    assert(m.len() == v.len());
    let mut i: usize = v.len();
    while 0 < i && !crate::text::same(v[i - 1].key.as_str(), key) && !before(v[i - 1].key.as_str(), key)
        invariant
            i <= v.len(),
            forall|k: int| i <= k < m.len() ==> (#[trigger] m[k]).0 != key@ && !text_lt(m[k].0, key@),
        decreases i,
    {
        assert(m[i - 1] == (v[i - 1].key@, v[i - 1].value@));
        i = i - 1;
    }
    proof {
        if i > 0 {
            assert(m[i - 1] == (v[i - 1].key@, v[i - 1].value@));
        }
        lemma_with_sorted(m, key@, vm, i as int);
    }
    if 0 < i && crate::text::same(v[i - 1].key.as_str(), key) {
        v.set(i - 1, Member { key: key.to_owned(), value });
        assert(members_of(v@) =~= m.update(i - 1, (key@, vm)));
    } else {
        v.insert(i, Member { key: key.to_owned(), value });
        assert(members_of(v@) =~= m.insert(i as int, (key@, vm)));
    }
}

/// Sorts the members of every object in a value by their keys.
#[verifier::loop_isolation(false)]
pub fn to_canonical(j: &Json) -> (r: Json)
    ensures
        r@ == canonical(j@),
    decreases *j,
{
    match j {
        Json::Array(v) => {
            proof {
                lemma_items_of(*v);
            }
            let ghost m = items_of(v@);
            assert(j@ == JsonModel::Array(m));
            assert(*v == j->Array_0);
            assert(decreases_to!(*j => j->Array_0));
            let mut out: Vec<Json> = Vec::new();
            let mut i: usize = 0;
            assert(items_of(out@) =~= canonical_items(m, 0));
            while i < v.len()
                invariant
                    i <= v.len(),
                    items_of(out@) == canonical_items(m, i as nat),
                decreases v.len() - i,
            {
                assert(decreases_to!(*v => v[i as int]));
                assert(m[i as int] == v[i as int]@);
                let x = to_canonical(&v[i]);
                let ghost was = items_of(out@);
                let ghost xm = x@;
                out.push(x);
                assert(items_of(out@) =~= was.push(xm));
                i = i + 1;
            }
            proof {
                lemma_items_of(out);
            }
            Json::Array(out)
        },
        Json::Object(v) => {
            proof {
                lemma_members_of(*v);
            }
            let ghost m = members_of(v@);
            assert(j@ == JsonModel::Object(m));
            assert(*v == j->Object_0);
            assert(decreases_to!(*j => j->Object_0));
            let mut out: Vec<Member> = Vec::new();
            let mut i: usize = 0;
            assert(members_of(out@) =~= canonical_members(m, 0));
            while i < v.len()
                invariant
                    i <= v.len(),
                    members_of(out@) == canonical_members(m, i as nat),
                decreases v.len() - i,
            {
                assert(decreases_to!(*v => v[i as int]));
                assert(decreases_to!(v[i as int] => v[i as int].value));
                assert(m[i as int] == (v[i as int].key@, v[i as int].value@));
                let x = to_canonical(&v[i].value);
                place_member(&mut out, v[i].key.as_str(), x);
                i = i + 1;
            }
            proof {
                lemma_members_of(out);
            }
            Json::Object(out)
        },
        _ => j.dup(),
    }
}

/// A member that is set is found with its new value, and every other one as it was.
pub proof fn a_member_that_is_set_is_found(
    m: Seq<(Seq<char>, JsonModel)>,
    key: Seq<char>,
    value: JsonModel,
    other: Seq<char>,
)
    ensures
        lookup(with_member(m, key, value), key) == Some(value),
        other != key ==> lookup(with_member(m, key, value), other) == lookup(m, other),
    decreases m.len(),
{
    let w = with_member(m, key, value);
    if m.len() == 0 {
        assert(w[0] == (key, value));
        assert(w.drop_first() =~= Seq::<(Seq<char>, JsonModel)>::empty());
        assert(lookup(w.drop_first(), other) is None);
    } else if m[0].0 == key {
        assert(w[0] == (key, value));
        assert(w.drop_first() =~= m.drop_first());
    } else {
        assert(w[0] == m[0]);
        a_member_that_is_set_is_found(m.drop_first(), key, value, other);
        assert(w.drop_first() =~= with_member(m.drop_first(), key, value));
    }
}

proof fn lemma_items_joined(v: Seq<JsonModel>, n: nat)
    requires
        n <= v.len(),
    ensures
        items_text(v, n) == joined(
            v.take(n as int).map_values(|j: JsonModel| json_text(j)),
            ","@,
        ),
    decreases n,
{
    let f = |j: JsonModel| json_text(j);
    let w = v.take(n as int).map_values(f);
    if n > 1 {
        lemma_items_joined(v, (n - 1) as nat);
        assert(w.drop_last() =~= v.take(n - 1).map_values(f));
        assert(w.last() == json_text(v[n - 1]));
    } else if n == 1 {
        assert(w[0] == json_text(v[0]));
    }
}

/// A list is written as its items in their order, with commas between them and brackets around them.
pub proof fn lists_are_written_item_by_item(v: Seq<JsonModel>)
    ensures
        json_text(JsonModel::Array(v)) == "["@ + joined(
            v.map_values(|j: JsonModel| json_text(j)),
            ","@,
        ) + "]"@,
{
    lemma_items_joined(v, v.len());
    assert(v.take(v.len() as int) =~= v);
}

proof fn lemma_members_joined(m: Seq<(Seq<char>, JsonModel)>, n: nat)
    requires
        n <= m.len(),
    ensures
        members_text(m, n) == joined(
            m.take(n as int).map_values(
                |x: (Seq<char>, JsonModel)| json_quoted(x.0) + ":"@ + json_text(x.1),
            ),
            ","@,
        ),
    decreases n,
{
    let f = |x: (Seq<char>, JsonModel)| json_quoted(x.0) + ":"@ + json_text(x.1);
    let w = m.take(n as int).map_values(f);
    if n > 1 {
        lemma_members_joined(m, (n - 1) as nat);
        assert(w.drop_last() =~= m.take(n - 1).map_values(f));
        assert(w.last() == json_quoted(m[n - 1].0) + ":"@ + json_text(m[n - 1].1));
    } else if n == 1 {
        assert(w[0] == json_quoted(m[0].0) + ":"@ + json_text(m[0].1));
    }
}

/// An object is written as its members in their order: the quoted key, a colon, the value, with commas
/// between the members and braces around them.
pub proof fn objects_are_written_member_by_member(m: Seq<(Seq<char>, JsonModel)>)
    ensures
        json_text(JsonModel::Object(m)) == "{"@ + joined(
            m.map_values(|x: (Seq<char>, JsonModel)| json_quoted(x.0) + ":"@ + json_text(x.1)),
            ","@,
        ) + "}"@,
{
    lemma_members_joined(m, m.len());
    assert(m.take(m.len() as int) =~= m);
}

/// The keys stand in strictly rising order.
pub open spec fn keys_rise(m: Seq<(Seq<char>, JsonModel)>) -> bool {
    forall|a: int, b: int| 0 <= a < b < m.len() ==> text_lt((#[trigger] m[a]).0, (#[trigger] m[b]).0)
}

proof fn lemma_sorted_member(m: Seq<(Seq<char>, JsonModel)>, key: Seq<char>, value: JsonModel)
    requires
        keys_rise(m),
    ensures
        keys_rise(with_sorted(m, key, value)),
        forall|x: (Seq<char>, JsonModel)| #[trigger]
            with_sorted(m, key, value).contains(x) <==> x == (key, value) || (m.contains(x) && x.0 != key),
    decreases m.len(),
{
    let w = with_sorted(m, key, value);
    if m.len() == 0 {
        assert(w =~= seq![(key, value)]);
        assert(w[0] == (key, value));
    } else {
        let d = m.drop_last();
        let last = m.last();
        assert forall|a: int, b: int| 0 <= a < b < d.len() implies text_lt(
            (#[trigger] d[a]).0,
            (#[trigger] d[b]).0,
        ) by {
            assert(d[a] == m[a] && d[b] == m[b]);
        }
        assert forall|a: int| 0 <= a < d.len() implies text_lt((#[trigger] m[a]).0, last.0) by {
            assert(m[m.len() - 1] == last);
        }
        lemma_lt_irreflexive(key);
        assert forall|x: (Seq<char>, JsonModel)| m.contains(x) implies x == last || d.contains(x) by {
            let i = m.index_of(x);
            if i < d.len() {
                assert(d[i] == x);
            }
        }
        assert forall|x: (Seq<char>, JsonModel)| x == last || d.contains(x) implies m.contains(x) by {
            if d.contains(x) {
                assert(m[d.index_of(x)] == x);
            } else {
                assert(m[m.len() - 1] == x);
            }
        }
        if last.0 == key {
            assert forall|x: (Seq<char>, JsonModel)| #[trigger]
                w.contains(x) <==> x == (key, value) || (m.contains(x) && x.0 != key) by {
                if w.contains(x) {
                    let i = w.index_of(x);
                    if i < d.len() {
                        assert(m[i] == x);
                        assert(text_lt(m[i].0, last.0));
                    }
                }
                if x == (key, value) {
                    assert(w[d.len() as int] == x);
                } else if m.contains(x) && x.0 != key {
                    let i = m.index_of(x);
                    assert(w[i] == x);
                }
            }
        } else if text_lt(last.0, key) {
            assert forall|a: int, b: int| 0 <= a < b < w.len() implies text_lt(
                (#[trigger] w[a]).0,
                (#[trigger] w[b]).0,
            ) by {
                if b == m.len() {
                    assert(w[a] == m[a]);
                    if a < d.len() {
                        lemma_lt_transitive(m[a].0, last.0, key);
                    }
                } else {
                    assert(w[a] == m[a] && w[b] == m[b]);
                }
            }
            assert forall|x: (Seq<char>, JsonModel)| #[trigger]
                w.contains(x) <==> x == (key, value) || (m.contains(x) && x.0 != key) by {
                if w.contains(x) {
                    let i = w.index_of(x);
                    if i < m.len() {
                        assert(m[i] == x);
                        if i < d.len() {
                            lemma_lt_transitive(m[i].0, last.0, key);
                        }
                    }
                }
                if x == (key, value) {
                    assert(w[m.len() as int] == x);
                } else if m.contains(x) {
                    assert(w[m.index_of(x)] == x);
                }
            }
        } else {
            lemma_lt_total(last.0, key);
            assert(text_lt(key, last.0));
            lemma_sorted_member(d, key, value);
            let s = with_sorted(d, key, value);
            assert(w == s.push(last));
            assert forall|a: int, b: int| 0 <= a < b < w.len() implies text_lt(
                (#[trigger] w[a]).0,
                (#[trigger] w[b]).0,
            ) by {
                if b < s.len() {
                    assert(w[a] == s[a] && w[b] == s[b]);
                } else {
                    assert(w[a] == s[a]);
                    assert(s.contains(s[a]));
                    if s[a] != (key, value) {
                        let i = d.index_of(s[a]);
                        assert(m[i] == s[a]);
                    }
                }
            }
            assert forall|x: (Seq<char>, JsonModel)| #[trigger]
                w.contains(x) <==> x == (key, value) || (m.contains(x) && x.0 != key) by {
                if w.contains(x) {
                    let i = w.index_of(x);
                    if i < s.len() {
                        assert(s[i] == x);
                        assert(s.contains(x));
                    }
                }
                if x == last {
                    assert(w[s.len() as int] == x);
                } else if s.contains(x) {
                    assert(w[s.index_of(x)] == x);
                }
            }
        }
    }
}

proof fn lemma_canonical_members(m: Seq<(Seq<char>, JsonModel)>, n: nat)
    requires
        n <= m.len(),
        forall|a: int, b: int| 0 <= a < b < m.len() ==> (#[trigger] m[a]).0 != (#[trigger] m[b]).0,
    ensures
        keys_rise(canonical_members(m, n)),
        forall|i: int|
            0 <= i < n ==> canonical_members(m, n).contains(((#[trigger] m[i]).0, canonical(m[i].1))),
        forall|x: (Seq<char>, JsonModel)| #[trigger]
            canonical_members(m, n).contains(x) ==> exists|i: int|
                0 <= i < n && x == ((#[trigger] m[i]).0, canonical(m[i].1)),
    decreases n,
{
    if n > 0 {
        let was = canonical_members(m, (n - 1) as nat);
        let now = canonical_members(m, n);
        lemma_canonical_members(m, (n - 1) as nat);
        lemma_sorted_member(was, m[n - 1].0, canonical(m[n - 1].1));
        assert forall|i: int| 0 <= i < n implies now.contains(((#[trigger] m[i]).0, canonical(m[i].1))) by {
            if i < n - 1 {
                assert(m[i].0 != m[n - 1].0);
                assert(was.contains((m[i].0, canonical(m[i].1))));
            }
        }
        assert forall|x: (Seq<char>, JsonModel)| #[trigger] now.contains(x) implies exists|i: int|
            0 <= i < n && x == ((#[trigger] m[i]).0, canonical(m[i].1)) by {
            if x != (m[n - 1].0, canonical(m[n - 1].1)) {
                assert(was.contains(x));
                let i = choose|i: int| 0 <= i < n - 1 && x == ((#[trigger] m[i]).0, canonical(m[i].1));
                assert(x == (m[i].0, canonical(m[i].1)));
            } else {
                assert(x == (m[n - 1].0, canonical(m[n - 1].1)));
            }
        }
    }
}

/// An object in its canonical form has its keys in rising order and the members that it had.
pub proof fn canonical_objects_have_their_keys_in_order(m: Seq<(Seq<char>, JsonModel)>)
    requires
        forall|a: int, b: int| 0 <= a < b < m.len() ==> (#[trigger] m[a]).0 != (#[trigger] m[b]).0,
    ensures
        ({
            let c = canonical(JsonModel::Object(m))->Object_0;
            &&& canonical(JsonModel::Object(m)) is Object
            &&& forall|a: int, b: int|
                0 <= a < b < c.len() ==> text_lt((#[trigger] c[a]).0, (#[trigger] c[b]).0)
            &&& forall|i: int| 0 <= i < m.len() ==> c.contains(((#[trigger] m[i]).0, canonical(m[i].1)))
            &&& forall|x: (Seq<char>, JsonModel)| #[trigger]
                c.contains(x) ==> exists|i: int|
                    0 <= i < m.len() && x == ((#[trigger] m[i]).0, canonical(m[i].1))
        }),
{
    lemma_canonical_members(m, m.len());
}

} // verus!
