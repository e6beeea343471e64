//! Signing keys by domain.
use crate::engine::{Core, Principal, PrincipalModel, audit, audited, extended};
use crate::error::{Error, Failure, fails};
use crate::logout::RpSessionModel;
use crate::model::{Client, ClientModel};
use crate::names::{Names, finite_sets_are_listed, in_order};
use crate::store::{Tx, TxModel};
use crate::table::{Row, position, views};
use crate::text::{same, texts};
use vstd::prelude::*;
use vstd::string::*;

verus! {

/// A request to set a signing key.
pub struct KeyInput {
    pub remote_signer: Option<String>,
    pub id: String,
    pub algorithm: String,
    pub private_key_pem: Option<String>,
    pub kid: Option<String>,
}

/// What a [`KeyInput`] holds.
pub struct KeyInputModel {
    pub remote_signer: Option<Seq<char>>,
    pub id: Seq<char>,
    pub algorithm: Seq<char>,
    pub private_key_pem: Option<Seq<char>>,
    pub kid: Option<Seq<char>>,
}

impl View for KeyInput {
    type V = KeyInputModel;

    open spec fn view(&self) -> KeyInputModel {
        KeyInputModel {
            remote_signer: crate::text::opt_text(self.remote_signer),
            id: self.id@,
            algorithm: self.algorithm@,
            private_key_pem: crate::text::opt_text(self.private_key_pem),
            kid: crate::text::opt_text(self.kid),
        }
    }
}

impl Row for KeyInput {
    fn dup(&self) -> (r: Self) {
        KeyInput {
            remote_signer: crate::text::copy_opt(&self.remote_signer),
            id: self.id.clone(),
            algorithm: self.algorithm.clone(),
            private_key_pem: crate::text::copy_opt(&self.private_key_pem),
            kid: crate::text::copy_opt(&self.kid),
        }
    }
}

/// A signing key; its secret stays with the signer.
pub struct SigningKey {
    pub kid: String,
    pub algorithm: String,
}

/// What a [`SigningKey`] holds.
pub struct SigningKeyModel {
    pub kid: Seq<char>,
    pub algorithm: Seq<char>,
}

impl View for SigningKey {
    type V = SigningKeyModel;

    open spec fn view(&self) -> SigningKeyModel {
        SigningKeyModel {
            kid: self.kid@,
            algorithm: self.algorithm@,
        }
    }
}

impl Row for SigningKey {
    fn dup(&self) -> (r: Self) {
        SigningKey {
            kid: self.kid.clone(),
            algorithm: self.algorithm.clone(),
        }
    }
}

/// A key that no longer signs but still verifies.
pub struct RetiredKey {
    pub kid: String,
    pub expires_at: u64,
}

/// What a [`RetiredKey`] holds.
pub struct RetiredKeyModel {
    pub kid: Seq<char>,
    pub expires_at: u64,
}

impl View for RetiredKey {
    type V = RetiredKeyModel;

    open spec fn view(&self) -> RetiredKeyModel {
        RetiredKeyModel {
            kid: self.kid@,
            expires_at: self.expires_at,
        }
    }
}

impl Row for RetiredKey {
    fn dup(&self) -> (r: Self) {
        RetiredKey {
            kid: self.kid.clone(),
            expires_at: self.expires_at,
        }
    }
}

/// The keys of a signing domain.
pub struct Keys {
    pub active: SigningKey,
    pub retired: Vec<RetiredKey>,
}

/// What a [`Keys`] holds.
pub struct KeysModel {
    pub active: SigningKeyModel,
    pub retired: Seq<RetiredKeyModel>,
}

impl View for Keys {
    type V = KeysModel;

    open spec fn view(&self) -> KeysModel {
        KeysModel {
            active: self.active@,
            retired: crate::table::views(self.retired@),
        }
    }
}

impl Row for Keys {
    fn dup(&self) -> (r: Self) {
        Keys {
            active: self.active.dup(),
            retired: crate::table::dup_list(&self.retired),
        }
    }
}

/// The keys that sign for a client: those of its domain, or the shared ones.
pub open spec fn client_keys(t: TxModel, c: ClientModel) -> Result<KeysModel, Failure> {
    match c.settings.signing_key {
        None => Ok(t.keys),
        Some(id) => if id == "signing"@ {
            Ok(t.keys)
        } else if t.key_domains.dom().contains(id) {
            Ok(t.key_domains[id])
        } else {
            Err(Failure::Bad("Client signing domain is missing"@))
        },
    }
}

pub fn for_client<'a>(tx: &'a Tx, client: &Client) -> (r: Result<&'a Keys, Error>)
    ensures
        match client_keys(tx@, client@) {
            Ok(k) => r is Ok && r->Ok_0@ == k,
            Err(f) => r is Err && r->Err_0@ == f,
        },
{
    match &client.settings.signing_key {
        None => Ok(&tx.keys),
        Some(id) => {
            if same(id.as_str(), "signing") {
                return Ok(&tx.keys);
            }
            match tx.key_domains.get(id.as_str()) {
                Some(k) => Ok(k),
                None => Err(Error::bad("Client signing domain is missing")),
            }
        },
    }
}

/// The retired keys of a ring that still verify, in order.
pub open spec fn still_verifying(retired: Seq<RetiredKeyModel>, now: u64) -> Seq<RetiredKeyModel> {
    retired.filter(|k: RetiredKeyModel| k.expires_at > now)
}

/// The ids of the keys of a ring that verify: the active one first.
pub open spec fn ring_ids(k: KeysModel, now: u64) -> Seq<Seq<char>> {
    seq![k.active.kid] + still_verifying(k.retired, now).map_values(|r: RetiredKeyModel| r.kid)
}

/// The retired keys of `v` that still verify.
pub fn live_keys(v: &Vec<RetiredKey>, now: u64) -> (r: Vec<RetiredKey>)
    ensures
        views(r@) == still_verifying(views(v@), now),
{
    let ghost all = views(v@);
    let ghost p = |k: RetiredKeyModel| k.expires_at > now;
    let mut r: Vec<RetiredKey> = Vec::new();
    let mut i: usize = 0;
    assert(views(r@) =~= all.take(0).filter(p));
    while i < v.len()
        invariant
            i <= v.len(),
            all == views(v@),
            p == (|k: RetiredKeyModel| k.expires_at > now),
            views(r@) == all.take(i as int).filter(p),
        decreases v.len() - i,
    {
        let ghost was = views(r@);
        proof {
            assert(all.take(i + 1) =~= all.take(i as int).push(v@[i as int]@));
            all.take(i as int).lemma_filter_push(v@[i as int]@, p);
        }
        if v[i].expires_at > now {
            r.push(v[i].dup());
            assert(views(r@) =~= was.push(v@[i as int]@));
        }
        i = i + 1;
    }
    assert(all.take(i as int) =~= all);
    r
}

/// The ids of the keys of these domains that verify, domain after domain.
pub open spec fn domain_ids(m: Map<Seq<char>, KeysModel>, names: Seq<Seq<char>>, now: u64) -> Seq<
    Seq<char>,
>
    decreases names.len(),
{
    if names.len() == 0 {
        Seq::empty()
    } else {
        domain_ids(m, names.drop_last(), now) + ring_ids(m[names.last()], now)
    }
}

/// The ids of all keys that verify: those of the shared ring first.
pub open spec fn public_ids(t: TxModel) -> Seq<Seq<char>> {
    ring_ids(t.keys, t.now) + domain_ids(t.key_domains, in_order(t.key_domains.dom()), t.now)
}

#[verifier::loop_isolation(false)]
fn push_ring(out: &mut Vec<String>, ring: &Keys, now: u64)
    ensures
        texts(final(out)@) == texts(old(out)@) + ring_ids(ring@, now),
{
    let ghost was = texts(out@);
    let live = live_keys(&ring.retired, now);
    let ghost rest = still_verifying(ring@.retired, now).map_values(|r: RetiredKeyModel| r.kid);
    out.push(ring.active.kid.clone());
    assert(texts(out@) =~= was + seq![ring@.active.kid] + rest.take(0));
    let mut i: usize = 0;
    while i < live.len()
        invariant
            i <= live.len(),
            texts(out@) == was + seq![ring@.active.kid] + rest.take(i as int),
        decreases live.len() - i,
    {
        let ghost before = texts(out@);
        assert(views(live@)[i as int] == live[i as int]@);
        out.push(live[i].kid.clone());
        assert(texts(out@) =~= before.push(rest[i as int]));
        assert(rest.take(i + 1) =~= rest.take(i as int).push(rest[i as int]));
        assert(texts(out@) =~= was + seq![ring@.active.kid] + rest.take(i + 1));
        i = i + 1;
    }
    assert(rest.take(i as int) =~= rest);
    assert(texts(out@) =~= was + ring_ids(ring@, now));
}

/// The ids of the published keys.
#[verifier::loop_isolation(false)]
pub fn public_keys(tx: &Tx) -> (r: Vec<String>)
    ensures
        texts(r@) == public_ids(tx@),
{
    let mut out: Vec<String> = Vec::new();
    assert(texts(out@) =~= Seq::<Seq<char>>::empty());
    push_ring(&mut out, &tx.keys, tx.now);
    let names = tx.key_domains.keys();
    let ghost all = in_order(names@);
    let ghost first = ring_ids(tx@.keys, tx@.now);
    let n: usize = names.len();
    let mut i: usize = 0;
    assert(texts(out@) =~= first + domain_ids(tx@.key_domains, all.take(0), tx@.now));
    while i < n
        invariant
            i <= n,
            texts(out@) == first + domain_ids(tx@.key_domains, all.take(i as int), tx@.now),
        decreases n - i,
    {
        proof {
            assert(all.take(i + 1).drop_last() =~= all.take(i as int));
        }
        if let Some(ring) = tx.key_domains.get(names.at(i).as_str()) {
            push_ring(&mut out, ring, tx.now);
            assert(texts(out@) =~= first + domain_ids(tx@.key_domains, all.take(i + 1), tx@.now));
        }
        i = i + 1;
    }
    assert(all.take(n as int) =~= all);
    out
}

/// A signing domain as it is shown.
pub struct KeyDomain {
    pub id: String,
    pub active: String,
    pub retained_verification_keys: usize,
}

/// What a [`KeyDomain`] holds.
pub struct KeyDomainModel {
    pub id: Seq<char>,
    pub active: Seq<char>,
    pub retained_verification_keys: usize,
}

impl View for KeyDomain {
    type V = KeyDomainModel;

    open spec fn view(&self) -> KeyDomainModel {
        KeyDomainModel {
            id: self.id@,
            active: self.active@,
            retained_verification_keys: self.retained_verification_keys,
        }
    }
}

impl Row for KeyDomain {
    fn dup(&self) -> (r: Self) {
        KeyDomain {
            id: self.id.clone(),
            active: self.active.clone(),
            retained_verification_keys: self.retained_verification_keys,
        }
    }
}

pub open spec fn domain_view(id: Seq<char>, k: KeysModel) -> KeyDomainModel {
    KeyDomainModel {
        id,
        active: k.active.kid,
        retained_verification_keys: k.retired.len() as usize,
    }
}

/// The domains among `names` that may be seen, in order.
pub open spec fn domain_views(
    m: Map<Seq<char>, KeysModel>,
    names: Seq<Seq<char>>,
    readable: Set<Seq<char>>,
) -> Seq<KeyDomainModel>
    decreases names.len(),
{
    if names.len() == 0 {
        Seq::empty()
    } else {
        let rest = domain_views(m, names.drop_last(), readable);
        if readable.contains(names.last()) {
            rest.push(domain_view(names.last(), m[names.last()]))
        } else {
            rest
        }
    }
}

/// The shared domain first, where it may be seen, then the others.
pub open spec fn shown_domains(t: TxModel, readable: Set<Seq<char>>) -> Seq<KeyDomainModel> {
    (if readable.contains("signing"@) {
        seq![domain_view("signing"@, t.keys)]
    } else {
        Seq::empty()
    }) + domain_views(t.key_domains, in_order(t.key_domains.dom()), readable)
}

fn show_domain(id: &str, keys: &Keys) -> (r: KeyDomain)
    ensures
        r@ == domain_view(id@, keys@),
{
    assert(keys@.retired.len() == keys.retired.len());
    KeyDomain {
        id: id.to_owned(),
        active: keys.active.kid.clone(),
        retained_verification_keys: keys.retired.len(),
    }
}

impl Core {
    /// Lists the signing domains that the caller may see: those whose names are in `readable`.
    #[verifier::loop_isolation(false)]
    pub fn key_domains(&self, tx: &Tx, readable: &Names) -> (r: Vec<KeyDomain>)
        ensures
            views(r@) == shown_domains(tx@, readable@),
    {
        let mut out: Vec<KeyDomain> = Vec::new();
        if readable.contains("signing") {
            let d = show_domain("signing", &tx.keys);
            let ghost dm = d@;
            out.push(d);
            assert(views(out@) =~= seq![dm]);
        } else {
            assert(views(out@) =~= Seq::<KeyDomainModel>::empty());
        }
        let ghost first = views(out@);
        let names = tx.key_domains.keys();
        let ghost all = in_order(names@);
        let n: usize = names.len();
        let mut i: usize = 0;
        assert(views(out@) =~= first + domain_views(tx@.key_domains, all.take(0), readable@));
        while i < n
            invariant
                i <= n,
                views(out@) == first + domain_views(tx@.key_domains, all.take(i as int), readable@),
            decreases n - i,
        {
            let id = names.at(i).as_str();
            proof {
                assert(all.take(i + 1).drop_last() =~= all.take(i as int));
            }
            if readable.contains(id) {
                if let Some(keys) = tx.key_domains.get(id) {
                    let ghost was = views(out@);
                    let d = show_domain(id, keys);
                    let ghost dm = d@;
                    out.push(d);
                    assert(views(out@) =~= was.push(dm));
                    assert(views(out@) =~= first + domain_views(
                        tx@.key_domains,
                        all.take(i + 1),
                        readable@,
                    ));
                }
            }
            i = i + 1;
        }
        assert(all.take(n as int) =~= all);
        out
    }
}

/// Whether a key of the ring that still verifies has the id `kid`.
pub open spec fn ring_uses(k: KeysModel, kid: Seq<char>, now: u64) -> bool {
    k.active.kid == kid || exists|i: int|
        0 <= i < k.retired.len() && (#[trigger] k.retired[i]).kid == kid && k.retired[i].expires_at
            > now
}

/// Whether a key that verifies anywhere has the id `kid`.
pub open spec fn kid_in_use(t: TxModel, kid: Seq<char>) -> bool {
    ring_uses(t.keys, kid, t.now) || exists|d: Seq<char>| #[trigger]
        t.key_domains.dom().contains(d) && ring_uses(t.key_domains[d], kid, t.now)
}

fn ring_has(k: &Keys, kid: &str, now: u64) -> (r: bool)
    ensures
        r == ring_uses(k@, kid@, now),
{
    if same(k.active.kid.as_str(), kid) {
        return true;
    }
    let mut i: usize = 0;
    while i < k.retired.len()
        invariant
            i <= k.retired.len(),
            forall|j: int|
                0 <= j < i ==> !((#[trigger] k@.retired[j]).kid == kid@ && k@.retired[j].expires_at > now),
            k@.active.kid != kid@,
        decreases k.retired.len() - i,
    {
        assert(k@.retired[i as int] == k.retired@[i as int]@);
        if same(k.retired[i].kid.as_str(), kid) && k.retired[i].expires_at > now {
            return true;
        }
        i = i + 1;
    }
    false
}

#[verifier::loop_isolation(false)]
fn has_kid(tx: &Tx, kid: &str) -> (r: bool)
    ensures
        r == kid_in_use(tx@, kid@),
{
    if ring_has(&tx.keys, kid, tx.now) {
        return true;
    }
    tx.key_domains.listing();
    let mut i: usize = 0;
    while i < tx.key_domains.len()
        invariant
            i <= tx.key_domains.entries().len(),
            forall|j: int|
                0 <= j < i ==> !ring_uses(
                    (#[trigger] tx.key_domains.entries()[j]).1,
                    kid@,
                    tx.now,
                ),
        decreases tx.key_domains.entries().len() - i,
    {
        let ghost d = tx.key_domains.entries()[i as int].0;
        if ring_has(tx.key_domains.row_at(i), kid, tx.now) {
            assert(tx@.key_domains.dom().contains(d));
            return true;
        }
        i = i + 1;
    }
    proof {
        assert forall|d: Seq<char>| #[trigger] tx@.key_domains.dom().contains(d) implies !ring_uses(
            tx@.key_domains[d],
            kid@,
            tx.now,
        ) by {
            let j = position(tx.key_domains.entries(), d);
            assert(tx.key_domains.entries()[j].0 == d);
        }
    }
    false
}

/// How long the last key of a ring must verify: until no recorded session can still present a
/// token that it signed.
pub open spec fn latest_session(keys: Seq<Seq<char>>, rps: Map<Seq<char>, RpSessionModel>) -> u64
    decreases keys.len(),
{
    if keys.len() == 0 {
        0
    } else {
        let rest = latest_session(keys.drop_last(), rps);
        let end = extended(rps[keys.last()].expires_at, 3600);
        if end > rest {
            end
        } else {
            rest
        }
    }
}

/// The ring that a replacement leaves, or why it is refused.
pub open spec fn replaced_ring(t: TxModel, id: Seq<char>, key: SigningKeyModel) -> Result<
    KeysModel,
    Failure,
> {
    let existing = if id == "signing"@ {
        Some(t.keys)
    } else if t.key_domains.dom().contains(id) {
        Some(t.key_domains[id])
    } else {
        None
    };
    let retired = match existing {
        Some(k) => still_verifying(k.retired, t.now),
        None => Seq::empty(),
    };
    let sessions_end = latest_session(in_order(t.rp_sessions.dom()), t.rp_sessions);
    let expiry = if sessions_end > extended(t.now, 3720) {
        sessions_end
    } else {
        extended(t.now, 3720)
    };
    if kid_in_use(t, key.kid) {
        Err(Failure::Conflict("Signing key id is already in use"@))
    } else if retired.len() >= 32 {
        Err(Failure::Conflict("Too many retained keys; wait for their retention windows"@))
    } else {
        Ok(
            KeysModel {
                active: key,
                retired: match existing {
                    Some(k) => retired.push(
                        RetiredKeyModel { kid: k.active.kid, expires_at: expiry },
                    ),
                    None => retired,
                },
            },
        )
    }
}

#[verifier::loop_isolation(false)]
fn sessions_until(tx: &Tx) -> (r: u64)
    ensures
        r == latest_session(in_order(tx@.rp_sessions.dom()), tx@.rp_sessions),
{
    let keys = tx.rp_sessions.keys();
    let ghost all = in_order(keys@);
    let n: usize = keys.len();
    let mut r: u64 = 0;
    let mut i: usize = 0;
    assert(all.take(0) =~= Seq::<Seq<char>>::empty());
    while i < n
        invariant
            i <= n,
            r == latest_session(all.take(i as int), tx@.rp_sessions),
        decreases n - i,
    {
        proof {
            assert(all.take(i + 1).drop_last() =~= all.take(i as int));
        }
        if let Some(rp) = tx.rp_sessions.get(keys.at(i).as_str()) {
            let end = rp.expires_at.saturating_add(3600);
            if end > r {
                r = end;
            }
        }
        i = i + 1;
    }
    assert(all.take(i as int) =~= all);
    r
}

impl Core {
    /// Makes `key` the active key of the domain `input.id`. The previous key verifies on until the
    /// sessions that it signed for have ended.
    pub fn configure_key(&self, tx: &mut Tx, actor: &Principal, input: &KeyInput, key: SigningKey) -> (r:
        Result<usize, Error>)
        ensures
            ({
                let out = key_configured(old(tx)@, actor@, input@.id, key@);
                final(tx)@ == out.0 && match out.1 {
                    Ok(n) => r is Ok && r->Ok_0 == n,
                    Err(f) => fails(r, f),
                }
            }),
    {
        if has_kid(tx, key.kid.as_str()) {
            return Err(Error::conflict("Signing key id is already in use"));
        }
        let primary = same(input.id.as_str(), "signing");
        let existing: Option<Keys> = if primary {
            Some(tx.keys.dup())
        } else {
            match tx.key_domains.get(input.id.as_str()) {
                Some(k) => Some(k.dup()),
                None => None,
            }
        };
        let mut retired: Vec<RetiredKey> = match &existing {
            Some(k) => live_keys(&k.retired, tx.now),
            None => Vec::new(),
        };
        proof {
            if existing is None {
                assert(views(retired@) =~= Seq::<RetiredKeyModel>::empty());
            }
            assert(views(retired@).len() == retired.len());
        }
        if retired.len() >= 32 {
            return Err(
                Error::conflict("Too many retained keys; wait for their retention windows"),
            );
        }
        if let Some(k) = &existing {
            let sessions_end = sessions_until(tx);
            let soonest = tx.now.saturating_add(3720);
            let expiry = if sessions_end > soonest {
                sessions_end
            } else {
                soonest
            };
            let ghost was = views(retired@);
            retired.push(RetiredKey { kid: k.active.kid.clone(), expires_at: expiry });
            assert(views(retired@) =~= was.push(
                RetiredKeyModel { kid: k@.active.kid, expires_at: expiry },
            ));
        }
        let count = retired.len();
        let ring = Keys { active: key, retired };
        if primary {
            tx.keys = ring;
        } else {
            tx.key_domains.put(input.id.as_str(), ring);
        }
        audit(tx, actor.id.as_str(), "signing_key.configure", input.id.as_str());
        Ok(count)
    }
}

/// The source of a new key that a request describes.
pub enum KeySource {
    /// The pinned key of the external signer of this name.
    External(String),
    /// The private key in this PEM text, with the id that the request gives.
    Imported(String),
    /// A new key of the requested algorithm.
    Generated,
}

impl KeyInput {
    /// Where the key comes from. Only an imported key can be given an id.
    pub fn source(&self) -> (r: Result<KeySource, Error>)
        ensures
            match r {
                Ok(KeySource::External(name)) => self@.remote_signer == Some(name@)
                    && self@.private_key_pem is None && self@.kid is None,
                Ok(KeySource::Imported(pem)) => self@.remote_signer is None && self@.private_key_pem
                    == Some(pem@),
                Ok(KeySource::Generated) => self@.remote_signer is None && self@.private_key_pem is None
                    && self@.kid is None,
                Err(e) => if self@.remote_signer is Some {
                    (self@.private_key_pem is Some || self@.kid is Some) && e@ == Failure::Bad(
                        "External keys use the pinned public key and kid from server configuration"@,
                    )
                } else {
                    self@.private_key_pem is None && self@.kid is Some && e@ == Failure::Bad(
                        "Explicit kid is supported when importing a private key"@,
                    )
                },
            },
    {
        if let Some(name) = &self.remote_signer {
            if self.private_key_pem.is_some() || self.kid.is_some() {
                return Err(
                    Error::bad(
                        "External keys use the pinned public key and kid from server configuration",
                    ),
                );
            }
            return Ok(KeySource::External(name.clone()));
        }
        match &self.private_key_pem {
            Some(pem) => Ok(KeySource::Imported(pem.clone())),
            None => {
                if self.kid.is_some() {
                    return Err(Error::bad("Explicit kid is supported when importing a private key"));
                }
                Ok(KeySource::Generated)
            },
        }
    }
}

/// A replaced key verifies for at least as long as the tokens of every recorded session.
pub proof fn replaced_key_outlives_sessions(
    t: TxModel,
    id: Seq<char>,
    key: SigningKeyModel,
    sid: Seq<char>,
)
    requires
        replaced_ring(t, id, key) is Ok,
        (replaced_ring(t, id, key)->Ok_0).retired.len() > 0,
        id == "signing"@ || t.key_domains.dom().contains(id),
        t.rp_sessions.dom().contains(sid),
        t.rp_sessions.dom().finite(),
        in_order(t.rp_sessions.dom()).contains(sid),
    ensures
        (replaced_ring(t, id, key)->Ok_0).retired.last().expires_at >= t.rp_sessions[sid].expires_at,
{
    let all = in_order(t.rp_sessions.dom());
    lemma_latest_bounds(all, t.rp_sessions, all.index_of(sid));
}

proof fn lemma_latest_bounds(
    keys: Seq<Seq<char>>,
    rps: Map<Seq<char>, RpSessionModel>,
    i: int,
)
    requires
        0 <= i < keys.len(),
    ensures
        latest_session(keys, rps) >= rps[keys[i]].expires_at,
    decreases keys.len(),
{
    if i < keys.len() - 1 {
        lemma_latest_bounds(keys.drop_last(), rps, i);
    }
}

impl Core {
    /// The ids of the keys that the provider publishes.
    pub fn jwks(&self, tx: &Tx) -> (r: Vec<String>)
        ensures
            texts(r@) == public_ids(tx@),
    {
        public_keys(tx)
    }
}

/// What it does to set a signing key: the new key signs, and the one before it is kept for verifying.
pub open spec fn key_configured(
    t: TxModel,
    actor: PrincipalModel,
    id: Seq<char>,
    key: SigningKeyModel,
) -> (TxModel, Result<nat, Failure>) {
    match replaced_ring(t, id, key) {
        Err(f) => (t, Err(f)),
        Ok(k) => (
            audited(
                if id == "signing"@ {
                    TxModel { keys: k, ..t }
                } else {
                    TxModel { key_domains: t.key_domains.insert(id, k), ..t }
                },
                actor.id,
                "signing_key.configure"@,
                id,
            ),
            Ok(k.retired.len()),
        ),
    }
}

/// A new signing key takes over at once. The key before it verifies for at least an hour and two minutes
/// more, so that what it signed still stands; and no key id is used twice.
pub proof fn replaced_keys_still_verify(
    t: TxModel,
    actor: PrincipalModel,
    key: SigningKeyModel,
)
    requires
        key_configured(t, actor, "signing"@, key).1 is Ok,
        t.now + 3720 <= u64::MAX,
    ensures
        ({
            let out = key_configured(t, actor, "signing"@, key);
            let k = out.0.keys;
            &&& k.active == key
            &&& !kid_in_use(t, key.kid)
            &&& k.retired.len() == out.1->Ok_0
            &&& k.retired.len() >= 1 && k.retired.last().kid == t.keys.active.kid
            &&& k.retired.last().expires_at >= t.now + 3720
            &&& k.retired.len() <= 32
            &&& out.0.key_domains == t.key_domains
        }),
{
}

/// A key of a domain signs for that domain, and changes no other.
pub proof fn domains_have_keys_of_their_own(
    t: TxModel,
    actor: PrincipalModel,
    id: Seq<char>,
    key: SigningKeyModel,
)
    requires
        key_configured(t, actor, id, key).1 is Ok,
        id != "signing"@,
    ensures
        ({
            let out = key_configured(t, actor, id, key);
            &&& out.0.keys == t.keys
            &&& out.0.key_domains.dom().contains(id) && out.0.key_domains[id].active == key
            &&& forall|k: Seq<char>| k != id ==> #[trigger] out.0.key_domains[k] == t.key_domains[k]
            &&& t.key_domains.dom().contains(id) ==> out.0.key_domains[id].retired.last().kid
                == t.key_domains[id].active.kid
        }),
{
}

/// A client's tokens are signed with the key of its domain, or with the provider's.
pub proof fn clients_sign_with_their_key(t: TxModel, c: ClientModel)
    ensures
        c.settings.signing_key is None ==> client_keys(t, c) == Ok::<KeysModel, Failure>(t.keys),
        c.settings.signing_key == Some("signing"@) ==> client_keys(t, c) == Ok::<KeysModel, Failure>(
            t.keys,
        ),
        c.settings.signing_key matches Some(id) ==> (id != "signing"@ && t.key_domains.dom().contains(id)
            ==> client_keys(t, c) == Ok::<KeysModel, Failure>(t.key_domains[id])) && (id != "signing"@
            && !t.key_domains.dom().contains(id) ==> client_keys(t, c) is Err),
{
}

/// A key verifies while it is the active one, and after that until its time is over.
pub proof fn retired_keys_verify_until_they_expire(k: KeysModel, kid: Seq<char>, now: u64)
    ensures
        ring_ids(k, now).contains(kid) <==> kid == k.active.kid || exists|i: int|
            0 <= i < k.retired.len() && (#[trigger] k.retired[i]).kid == kid
                && k.retired[i].expires_at > now,
{
    let live = still_verifying(k.retired, now);
    let names = live.map_values(|r: RetiredKeyModel| r.kid);
    let all = ring_ids(k, now);
    assert(all[0] == k.active.kid);
    lemma_still_verifying(k.retired, now, kid);
    if all.contains(kid) && kid != k.active.kid {
        let j = all.index_of(kid);
        assert(names[j - 1] == kid);
        assert(live[j - 1].kid == kid);
    }
    if exists|j: int| 0 <= j < live.len() && (#[trigger] live[j]).kid == kid {
        let j = choose|j: int| 0 <= j < live.len() && (#[trigger] live[j]).kid == kid;
        assert(all[j + 1] == kid);
    }
}

proof fn lemma_still_verifying(retired: Seq<RetiredKeyModel>, now: u64, kid: Seq<char>)
    ensures
        (exists|j: int|
            0 <= j < still_verifying(retired, now).len() && (#[trigger] still_verifying(
                retired,
                now,
            )[j]).kid == kid) <==> exists|i: int|
            0 <= i < retired.len() && (#[trigger] retired[i]).kid == kid && retired[i].expires_at > now,
    decreases retired.len(),
{
    reveal(Seq::filter);
    if retired.len() > 0 {
        let d = retired.drop_last();
        let x = retired.last();
        lemma_still_verifying(d, now, kid);
        let rest = still_verifying(d, now);
        let all = still_verifying(retired, now);
        if exists|j: int| 0 <= j < rest.len() && (#[trigger] rest[j]).kid == kid {
            let j = choose|j: int| 0 <= j < rest.len() && (#[trigger] rest[j]).kid == kid;
            assert(all[j].kid == kid);
            let i = choose|i: int|
                0 <= i < d.len() && (#[trigger] d[i]).kid == kid && d[i].expires_at > now;
            assert(retired[i].kid == kid);
        }
        if exists|j: int| 0 <= j < all.len() && (#[trigger] all[j]).kid == kid {
            let j = choose|j: int| 0 <= j < all.len() && (#[trigger] all[j]).kid == kid;
            if j < rest.len() {
                assert(rest[j].kid == kid);
            } else {
                assert(retired[retired.len() - 1].kid == kid);
            }
        }
        if exists|i: int|
            0 <= i < retired.len() && (#[trigger] retired[i]).kid == kid && retired[i].expires_at > now {
            let i = choose|i: int|
                0 <= i < retired.len() && (#[trigger] retired[i]).kid == kid && retired[i].expires_at
                    > now;
            if i < d.len() {
                assert(d[i].kid == kid);
            } else {
                assert(all[rest.len() as int].kid == kid);
            }
        }
    }
}

/// The published keys are the shared ones and those of every domain.
pub proof fn every_ring_is_published(t: TxModel, names: Seq<Seq<char>>, i: int, id: Seq<char>)
    requires
        0 <= i < names.len(),
        ring_ids(t.key_domains[names[i]], t.now).contains(id),
    ensures
        domain_ids(t.key_domains, names, t.now).contains(id),
        names == in_order(t.key_domains.dom()) ==> public_ids(t).contains(id),
        public_ids(t).contains(t.keys.active.kid),
    decreases names.len(),
{
    let d = names.drop_last();
    let rest = domain_ids(t.key_domains, d, t.now);
    let own = ring_ids(t.key_domains[names.last()], t.now);
    let all = domain_ids(t.key_domains, names, t.now);
    let shared = ring_ids(t.keys, t.now);
    if i < d.len() {
        assert(d[i] == names[i]);
        every_ring_is_published(t, d, i, id);
        assert(all[rest.index_of(id)] == id);
    } else {
        assert(all[rest.len() + own.index_of(id)] == id);
    }
    if names == in_order(t.key_domains.dom()) {
        assert(public_ids(t)[shared.len() + all.index_of(id)] == id);
    }
    assert(shared[0] == t.keys.active.kid);
    assert(public_ids(t)[0] == t.keys.active.kid);
}

/// A domain is shown by its name, its present key and how many it still verifies with; the shared ring
/// is shown as signing.
pub proof fn domains_show_their_keys(t: TxModel, readable: Set<Seq<char>>, id: Seq<char>, k: KeysModel)
    requires
        k.retired.len() <= usize::MAX,
    ensures
        domain_view(id, k).id == id,
        domain_view(id, k).active == k.active.kid,
        domain_view(id, k).retained_verification_keys == k.retired.len(),
        readable.contains("signing"@) ==> shown_domains(t, readable).len() > 0 && shown_domains(t, readable)[0].id
            == "signing"@ && shown_domains(t, readable)[0].active == t.keys.active.kid,
        t.key_domains == Map::<Seq<char>, KeysModel>::empty().insert(id, k) ==> (shown_domains(
            t,
            readable,
        ).contains(domain_view(id, k)) <== readable.contains(id)),
{
    if t.key_domains == Map::<Seq<char>, KeysModel>::empty().insert(id, k) && readable.contains(id) {
        let names = in_order(t.key_domains.dom());
        finite_sets_are_listed(t.key_domains.dom());
        assert(names.to_set().contains(id));
        let i = names.index_of(id);
        lemma_domain_shown(t.key_domains, names, readable, i);
        let rest = domain_views(t.key_domains, names, readable);
        let front = if readable.contains("signing"@) {
            seq![domain_view("signing"@, t.keys)]
        } else {
            Seq::<KeyDomainModel>::empty()
        };
        assert(shown_domains(t, readable)[front.len() + rest.index_of(domain_view(id, k))] == domain_view(id, k));
    }
}

proof fn lemma_domain_shown(
    m: Map<Seq<char>, KeysModel>,
    names: Seq<Seq<char>>,
    readable: Set<Seq<char>>,
    i: int,
)
    requires
        0 <= i < names.len(),
        readable.contains(names[i]),
    ensures
        domain_views(m, names, readable).contains(domain_view(names[i], m[names[i]])),
    decreases names.len(),
{
    let d = names.drop_last();
    let rest = domain_views(m, d, readable);
    let all = domain_views(m, names, readable);
    let v = domain_view(names[i], m[names[i]]);
    if i < d.len() {
        assert(d[i] == names[i]);
        lemma_domain_shown(m, d, readable, i);
        assert(all[rest.index_of(v)] == v);
    } else {
        assert(all[rest.len() as int] == v);
    }
}

/// Keys are kept until every login that they signed is over by an hour: the time is that of one of the
/// logins, and none is later.
pub proof fn keys_outlive_the_logins_they_signed(
    keys: Seq<Seq<char>>,
    rps: Map<Seq<char>, RpSessionModel>,
    i: int,
)
    requires
        0 <= i < keys.len(),
    ensures
        rps[keys[i]].expires_at <= u64::MAX - 3600 ==> latest_session(keys, rps) >= rps[keys[i]].expires_at + 3600,
        latest_session(keys, rps) == 0 || exists|j: int|
            0 <= j < keys.len() && latest_session(keys, rps) == extended(rps[#[trigger] keys[j]].expires_at, 3600),
    decreases keys.len(),
{
    let d = keys.drop_last();
    let rest = latest_session(d, rps);
    assert(keys[keys.len() - 1] == keys.last());
    if d.len() > 0 {
        let k = if i < d.len() {
            i
        } else {
            0
        };
        keys_outlive_the_logins_they_signed(d, rps, k);
        assert(d[k] == keys[k]);
        if rest != 0 && latest_session(keys, rps) == rest {
            let j = choose|j: int| 0 <= j < d.len() && rest == extended(rps[#[trigger] d[j]].expires_at, 3600);
            assert(keys[j] == d[j]);
        }
    }
}

} // verus!
