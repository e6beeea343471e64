//! The certificates that users are bound to for EAP-TLS, and the identities that they give.
use crate::engine::{Core, Principal, PrincipalModel, audit, audited, drawn, earlier, extended, next_id};
use crate::error::{Error, Failure, agrees, agrees_with, and_also, copy_error, fails, opt_failure};
use crate::model::{Identity, IdentityModel, Session, SessionModel, User, UserModel};
use crate::mtls::{named_user, user_by_name};
use crate::names::{Names, in_order, lemma_take_set};
use crate::outside::{base64url, base64url_of, byte_lists, certificate_of, digest, digest_of, parse_certificate, pem_certificates, pem_certs, sha256, sha256_of};
use crate::radius::cache::{find_client, radius_client};
use crate::rules::{Rules, RulesModel, name_check};
use crate::store::{Tx, TxModel};
use crate::table::{Row, Table, purges_leave_what_does_not_match, views, without};
use crate::text::{among, byte_count, byte_len, concat3, copy_bytes, same, texts};
use vstd::utf8::encode_utf8;
use vstd::prelude::*;
use vstd::string::*;

verus! {

/// A certificate to bind to a user.
pub struct CertificateInput {
    pub username: String,
    pub listener: String,
    pub certificate_chain_pem: String,
}

/// What a [`CertificateInput`] holds.
pub struct CertificateInputModel {
    pub username: Seq<char>,
    pub listener: Seq<char>,
    pub certificate_chain_pem: Seq<char>,
}

impl View for CertificateInput {
    type V = CertificateInputModel;

    open spec fn view(&self) -> CertificateInputModel {
        CertificateInputModel {
            username: self.username@,
            listener: self.listener@,
            certificate_chain_pem: self.certificate_chain_pem@,
        }
    }
}

impl Row for CertificateInput {
    fn dup(&self) -> (r: Self) {
        CertificateInput {
            username: self.username.clone(),
            listener: self.listener.clone(),
            certificate_chain_pem: self.certificate_chain_pem.clone(),
        }
    }
}

/// A certificate that is bound to a user at a listener.
pub struct Certificate {
    pub id: String,
    pub username: String,
    pub user_id: String,
    pub listener: String,
    pub fingerprint: String,
    pub expires_at: u64,
}

/// What a [`Certificate`] holds.
pub struct CertificateModel {
    pub id: Seq<char>,
    pub username: Seq<char>,
    pub user_id: Seq<char>,
    pub listener: Seq<char>,
    pub fingerprint: Seq<char>,
    pub expires_at: u64,
}

impl View for Certificate {
    type V = CertificateModel;

    open spec fn view(&self) -> CertificateModel {
        CertificateModel {
            id: self.id@,
            username: self.username@,
            user_id: self.user_id@,
            listener: self.listener@,
            fingerprint: self.fingerprint@,
            expires_at: self.expires_at,
        }
    }
}

impl Row for Certificate {
    fn dup(&self) -> (r: Self) {
        Certificate {
            id: self.id.clone(),
            username: self.username.clone(),
            user_id: self.user_id.clone(),
            listener: self.listener.clone(),
            fingerprint: self.fingerprint.clone(),
            expires_at: self.expires_at,
        }
    }
}

/// The certificate and the trust material behind an identity.
pub struct IdentityBinding {
    pub certificate_key: String,
    pub certificate_id: String,
    pub listener: String,
    pub profile_fingerprint: String,
    pub expires_at: u64,
}

/// What a [`IdentityBinding`] holds.
pub struct IdentityBindingModel {
    pub certificate_key: Seq<char>,
    pub certificate_id: Seq<char>,
    pub listener: Seq<char>,
    pub profile_fingerprint: Seq<char>,
    pub expires_at: u64,
}

impl View for IdentityBinding {
    type V = IdentityBindingModel;

    open spec fn view(&self) -> IdentityBindingModel {
        IdentityBindingModel {
            certificate_key: self.certificate_key@,
            certificate_id: self.certificate_id@,
            listener: self.listener@,
            profile_fingerprint: self.profile_fingerprint@,
            expires_at: self.expires_at,
        }
    }
}

impl Row for IdentityBinding {
    fn dup(&self) -> (r: Self) {
        IdentityBinding {
            certificate_key: self.certificate_key.clone(),
            certificate_id: self.certificate_id.clone(),
            listener: self.listener.clone(),
            profile_fingerprint: self.profile_fingerprint.clone(),
            expires_at: self.expires_at,
        }
    }
}

pub open spec fn certificate_key_of(listener: Seq<char>, fingerprint: Seq<char>) -> Seq<char> {
    digest_of(listener + "\0"@ + fingerprint)
}

pub fn certificate_key(listener: &str, fingerprint: &str) -> (r: String)
    ensures
        r@ == certificate_key_of(listener@, fingerprint@),
{
    let t = concat3(listener, "\0", fingerprint);
    digest(t.as_str())
}

pub open spec fn fingerprint_of(der: Seq<u8>) -> Seq<char> {
    base64url_of(sha256_of(der))
}

pub fn certificate_fingerprint(der: &Vec<u8>) -> (r: String)
    ensures
        r@ == fingerprint_of(der@),
{
    let h = sha256(der.as_slice());
    base64url(h.as_slice())
}

/// The leaf of a chain and when it expires. `trust` is why the listener's private authority does
/// not vouch for the chain, if it does not.
pub open spec fn leaf_of(pem: Seq<char>, profile: bool, trust: Option<Failure>) -> Result<
    (Seq<u8>, u64),
    Failure,
> {
    if byte_count(pem) > 32768 {
        Err(Failure::Bad("EAP certificate chain exceeds 32 KiB"@))
    } else {
        match pem_certs(vstd::utf8::encode_utf8(pem)) {
            None => Err(Failure::Bad("Invalid EAP certificate chain"@)),
            Some(chain) => if chain.len() == 0 {
                Err(Failure::Bad("Missing EAP client certificate"@))
            } else if chain.len() > 8 {
                Err(Failure::Bad("EAP client chain exceeds eight certificates"@))
            } else if !profile {
                Err(Failure::Bad("RADIUS listener has no EAP-TLS trust profile"@))
            } else if trust is Some {
                Err(trust->0)
            } else {
                match certificate_of(chain[0]) {
                    None => Err(Failure::Bad("Invalid EAP X.509 certificate"@)),
                    Some(c) => if c.not_after < 0 {
                        Err(Failure::Bad("Invalid certificate expiry"@))
                    } else {
                        Ok((chain[0], c.not_after as u64))
                    },
                }
            },
        }
    }
}

fn read_leaf(pem: &str, profile: bool, trust: &Option<Error>) -> (r: Result<(Vec<u8>, u64), Error>)
    ensures
        match leaf_of(pem@, profile, opt_failure(*trust)) {
            Ok(p) => r is Ok && (r->Ok_0).0@ == p.0 && (r->Ok_0).1 == p.1,
            Err(f) => fails(r, f),
        },
{
    if byte_len(pem) > 32768 {
        return Err(Error::bad("EAP certificate chain exceeds 32 KiB"));
    }
    let chain = match pem_certificates(pem.as_bytes()) {
        None => return Err(Error::bad("Invalid EAP certificate chain")),
        Some(c) => c,
    };
    assert(byte_lists(chain@).len() == chain.len());
    if chain.len() == 0 {
        return Err(Error::bad("Missing EAP client certificate"));
    }
    assert(byte_lists(chain@)[0] == chain[0]@);
    if chain.len() > 8 {
        return Err(Error::bad("EAP client chain exceeds eight certificates"));
    }
    if !profile {
        return Err(Error::bad("RADIUS listener has no EAP-TLS trust profile"));
    }
    if let Some(e) = trust {
        return Err(copy_error(e));
    }
    match parse_certificate(chain[0].as_slice()) {
        None => Err(Error::bad("Invalid EAP X.509 certificate")),
        Some(c) => {
            if c.not_after < 0 {
                Err(Error::bad("Invalid certificate expiry"))
            } else {
                Ok((copy_bytes(&chain[0]), c.not_after as u64))
            }
        },
    }
}

/// The certificates of a user.
pub open spec fn certificates_of(m: Map<Seq<char>, CertificateModel>, user_id: Seq<char>) -> Set<
    Seq<char>,
> {
    m.dom().filter(|k: Seq<char>| m[k].user_id == user_id)
}

#[verifier::loop_isolation(false)]
fn count_certificates(table: &Table<Certificate>, user_id: &str) -> (r: usize)
    ensures
        r == certificates_of(table@, user_id@).len(),
{
    let keys = table.keys();
    keys.listing();
    let ghost all = in_order(keys@);
    let ghost m = table@;
    let ghost p = |k: Seq<char>| m[k].user_id == user_id@;
    let n: usize = keys.len();
    let mut out = Names::new();
    let mut i: usize = 0;
    assert(all.take(0).to_set().filter(p) =~= Set::<Seq<char>>::empty());
    while i < n
        invariant
            i <= n,
            out@ == all.take(i as int).to_set().filter(p),
        decreases n - i,
    {
        let key = keys.at(i).as_str();
        proof {
            lemma_take_set(all, i as int);
        }
        if let Some(c) = table.get(key) {
            if same(c.user_id.as_str(), user_id) {
                out.insert(key);
            }
        }
        assert(out@ =~= all.take(i + 1).to_set().filter(p));
        i = i + 1;
    }
    proof {
        assert(all.take(n as int) =~= all);
        assert(all.to_set() =~= m.dom());
        assert(out@ =~= certificates_of(m, user_id@));
    }
    out.len()
}

/// The binding of a certificate: binding it again to the same user gives the first binding.
pub open spec fn certificate_bound(
    t: TxModel,
    actor: PrincipalModel,
    input: CertificateInputModel,
    profile: bool,
    trust: Option<Failure>,
    rules: RulesModel,
) -> (TxModel, Result<CertificateModel, Failure>) {
    match and_also(name_check(rules, input.username), name_check(rules, input.listener)) {
        Err(f) => (t, Err(f)),
        Ok(_) => match named_user(t, input.username) {
            None => (t, Err(Failure::Missing("User not found"@))),
            Some(user) => if actor.agent && user.admin {
                (t, Err(Failure::Forbidden))
            } else {
                match leaf_of(input.certificate_chain_pem, profile, trust) {
                    Err(f) => (t, Err(f)),
                    Ok(leaf) => {
                        let fingerprint = fingerprint_of(leaf.0);
                        let key = certificate_key_of(input.listener, fingerprint);
                        if t.radius_certificates.dom().contains(key) {
                            if t.radius_certificates[key].user_id != user.id {
                                (
                                    t,
                                    Err(
                                        Failure::Conflict(
                                            "Certificate is already bound to another identity"@,
                                        ),
                                    ),
                                )
                            } else {
                                (t, Ok(t.radius_certificates[key]))
                            }
                        } else if certificates_of(t.radius_certificates, user.id).len() >= 32 {
                            (t, Err(Failure::Conflict("User has too many EAP certificates"@)))
                        } else {
                            let c = CertificateModel {
                                id: next_id(t),
                                username: user.username,
                                user_id: user.id,
                                listener: input.listener,
                                fingerprint,
                                expires_at: leaf.1,
                            };
                            (
                                audited(
                                    TxModel {
                                        radius_certificate_ids: t.radius_certificate_ids.insert(
                                            c.id,
                                            key,
                                        ),
                                        radius_certificates: t.radius_certificates.insert(key, c),
                                        ..drawn(t)
                                    },
                                    actor.id,
                                    "certificate.bind"@,
                                    c.id,
                                ),
                                Ok(c),
                            )
                        }
                    },
                }
            },
        },
    }
}

/// What a revocation does.
pub open spec fn certificate_revoked(
    t: TxModel,
    actor: PrincipalModel,
    id: Seq<char>,
    permitted: bool,
) -> (TxModel, Result<(), Failure>) {
    let key = t.radius_certificate_ids[id];
    if !t.radius_certificate_ids.dom().contains(id) || !t.radius_certificates.dom().contains(key) {
        (t, Err(Failure::Missing("Certificate not found"@)))
    } else {
        let c = t.radius_certificates[key];
        if !t.users.dom().contains(c.user_id) || !permitted || (actor.agent
            && t.users[c.user_id].admin) {
            (t, Err(Failure::Forbidden))
        } else {
            (
                audited(
                    TxModel {
                        radius_certificates: t.radius_certificates.remove(key),
                        radius_certificate_ids: t.radius_certificate_ids.remove(id),
                        ..t
                    },
                    actor.id,
                    "certificate.revoke"@,
                    id,
                ),
                Ok(()),
            )
        }
    }
}

/// The certificates that the reader may see, with their users' present names. `visible` are the
/// ids of those that the reader's permissions cover.
pub open spec fn certificates_listed(
    t: TxModel,
    keys: Seq<Seq<char>>,
    visible: Set<Seq<char>>,
) -> Seq<CertificateModel>
    decreases keys.len(),
{
    if keys.len() == 0 {
        Seq::empty()
    } else {
        let rest = certificates_listed(t, keys.drop_last(), visible);
        let c = t.radius_certificates[keys.last()];
        if t.users.dom().contains(c.user_id) && visible.contains(c.id) {
            rest.push(CertificateModel { username: t.users[c.user_id].username, ..c })
        } else {
            rest
        }
    }
}

impl Core {
    /// Binds a certificate to a user at a listener. `profile` tells whether the listener has an
    /// EAP-TLS profile, `trust` why its private authority does not vouch for the chain.
    pub fn radius_certificate_bind(
        &self,
        tx: &mut Tx,
        actor: &Principal,
        input: &CertificateInput,
        profile: bool,
        trust: &Option<Error>,
        rules: &Rules,
    ) -> (r: Result<Certificate, Error>)
        ensures
            ({
                let out = certificate_bound(
                    old(tx)@,
                    actor@,
                    input@,
                    profile,
                    opt_failure(*trust),
                    rules@,
                );
                final(tx)@ == out.0 && agrees_with(r, out.1)
            }),
    {
        if let Err(e) = rules.check_name(input.username.as_str()) {
            return Err(e);
        }
        if let Err(e) = rules.check_name(input.listener.as_str()) {
            return Err(e);
        }
        let user = match user_by_name(tx, input.username.as_str()) {
            Err(e) => return Err(e),
            Ok(u) => u,
        };
        if actor.agent && user.admin {
            return Err(Error::Forbidden);
        }
        let (der, expires_at) = match read_leaf(
            input.certificate_chain_pem.as_str(),
            profile,
            trust,
        ) {
            Err(e) => return Err(e),
            Ok(p) => p,
        };
        let fingerprint = certificate_fingerprint(&der);
        let key = certificate_key(input.listener.as_str(), fingerprint.as_str());
        if let Some(existing) = tx.radius_certificates.get(key.as_str()) {
            if !same(existing.user_id.as_str(), user.id.as_str()) {
                return Err(
                    Error::conflict("Certificate is already bound to another identity"),
                );
            }
            return Ok(existing.dup());
        }
        if count_certificates(&tx.radius_certificates, user.id.as_str()) >= 32 {
            return Err(Error::conflict("User has too many EAP certificates"));
        }
        let id = tx.id();
        let c = Certificate {
            id: id.clone(),
            username: user.username,
            user_id: user.id,
            listener: input.listener.clone(),
            fingerprint,
            expires_at,
        };
        tx.radius_certificate_ids.put(id.as_str(), key.clone());
        tx.radius_certificates.put(key.as_str(), c.dup());
        audit(tx, actor.id.as_str(), "certificate.bind", id.as_str());
        Ok(c)
    }

    #[verifier::loop_isolation(false)]
    pub fn radius_certificates(&self, tx: &Tx, visible: &Names) -> (r: Vec<Certificate>)
        ensures
            views(r@) == certificates_listed(
                tx@,
                in_order(tx@.radius_certificates.dom()),
                visible@,
            ),
    {
        let keys = tx.radius_certificates.keys();
        let ghost all = in_order(keys@);
        let n: usize = keys.len();
        let mut out: Vec<Certificate> = Vec::new();
        let mut i: usize = 0;
        assert(views(out@) =~= Seq::<CertificateModel>::empty());
        while i < n
            invariant
                i <= n,
                views(out@) == certificates_listed(tx@, all.take(i as int), visible@),
            decreases n - i,
        {
            proof {
                assert(all.take(i + 1).drop_last() =~= all.take(i as int));
            }
            if let Some(c) = tx.radius_certificates.get(keys.at(i).as_str()) {
                if let Some(u) = tx.users.get(c.user_id.as_str()) {
                    if visible.contains(c.id.as_str()) {
                        let ghost was = views(out@);
                        let mut x = c.dup();
                        x.username = u.username.clone();
                        let ghost xm = x@;
                        out.push(x);
                        assert(views(out@) =~= was.push(xm));
                    }
                }
            }
            i = i + 1;
        }
        assert(all.take(n as int) =~= all);
        out
    }

    /// Ends a binding. `permitted` tells whether the actor may manage the certificate's user and
    /// listener.
    pub fn radius_certificate_revoke(
        &self,
        tx: &mut Tx,
        actor: &Principal,
        id: &str,
        permitted: bool,
    ) -> (r: Result<(), Error>)
        ensures
            ({
                let out = certificate_revoked(old(tx)@, actor@, id@, permitted);
                final(tx)@ == out.0 && agrees(r, out.1)
            }),
    {
        let key = match tx.radius_certificate_ids.get(id) {
            None => return Err(Error::missing("Certificate not found")),
            Some(k) => k.clone(),
        };
        let admin = match tx.radius_certificates.get(key.as_str()) {
            None => return Err(Error::missing("Certificate not found")),
            Some(c) => match tx.users.get(c.user_id.as_str()) {
                None => return Err(Error::Forbidden),
                Some(u) => u.admin,
            },
        };
        if !permitted || (actor.agent && admin) {
            return Err(Error::Forbidden);
        }
        tx.radius_certificates.delete(key.as_str());
        tx.radius_certificate_ids.delete(id);
        audit(tx, actor.id.as_str(), "certificate.revoke", id);
        Ok(())
    }
}

/// What the rules outside the library say of an identity: whether it may use the client, whether it
/// has to authenticate more strongly, and whether its claims are allowed.
pub struct Judgement {
    pub authorization: Option<Error>,
    pub step_up: bool,
    pub claims: Option<Error>,
}

/// What a [`Judgement`] holds.
pub struct JudgementModel {
    pub authorization: Option<Failure>,
    pub step_up: bool,
    pub claims: Option<Failure>,
}

impl View for Judgement {
    type V = JudgementModel;

    open spec fn view(&self) -> JudgementModel {
        JudgementModel {
            authorization: opt_failure(self.authorization),
            step_up: self.step_up,
            claims: opt_failure(self.claims),
        }
    }
}

/// Why an identity whose session ends at `expires_at` does not stand, if it does not.
pub open spec fn judged(j: JudgementModel, expires_at: Option<u64>, now: u64) -> Result<
    (),
    Failure,
> {
    if j.authorization is Some {
        Err(j.authorization->0)
    } else if expires_at is None || expires_at->0 <= now || j.step_up {
        Err(Failure::Forbidden)
    } else if j.claims is Some {
        Err(j.claims->0)
    } else {
        Ok(())
    }
}

pub fn judge(j: &Judgement, expires_at: Option<u64>, now: u64) -> (r: Result<(), Error>)
    ensures
        agrees(r, judged(j@, expires_at, now)),
{
    if let Some(e) = &j.authorization {
        return Err(copy_error(e));
    }
    let live = match expires_at {
        Some(t) => t > now,
        None => false,
    };
    if !live || j.step_up {
        return Err(Error::Forbidden);
    }
    if let Some(e) = &j.claims {
        return Err(copy_error(e));
    }
    Ok(())
}

/// The user behind an identity that stands.
pub open spec fn radius_user(t: TxModel, i: IdentityModel, j: JudgementModel) -> Result<
    UserModel,
    Failure,
> {
    let expires_at = if t.sessions.dom().contains(i.session_id) {
        Some(t.sessions[i.session_id].expires_at)
    } else {
        None
    };
    match judged(j, expires_at, t.now) {
        Err(f) => Err(f),
        Ok(_) => if t.users.dom().contains(i.user_id) {
            Ok(t.users[i.user_id])
        } else {
            Err(Failure::Unauthorized)
        },
    }
}

impl Core {
    pub fn radius_identity(&self, tx: &Tx, identity: &Identity, judgement: &Judgement) -> (r: Result<
        User,
        Error,
    >)
        ensures
            agrees_with(r, radius_user(tx@, identity@, judgement@)),
    {
        let expires_at: Option<u64> = match tx.sessions.get(identity.session_id.as_str()) {
            Some(s) => Some(s.expires_at),
            None => None,
        };
        if let Err(e) = judge(judgement, expires_at, tx.now) {
            return Err(e);
        }
        match tx.users.get(identity.user_id.as_str()) {
            Some(u) => Ok(u.dup()),
            None => Err(Error::Unauthorized),
        }
    }
}

/// The identity that a certificate gives for three minutes at most, and its session, which no
/// bearer token leads to.
pub open spec fn certificate_identity(
    t: TxModel,
    client: Seq<char>,
    unchanged: bool,
    listener: Seq<char>,
    profile_fingerprint: Seq<char>,
    der: Seq<u8>,
    judgement: JudgementModel,
    rules: RulesModel,
) -> (TxModel, Result<IdentityModel, Failure>) {
    let key = certificate_key_of(listener, fingerprint_of(der));
    match radius_client(t, client, rules) {
        Err(f) => (t, Err(f)),
        Ok(p) => if !p.1.eap_tls || !unchanged || !t.radius_certificates.dom().contains(key)
            || t.radius_certificates[key].expires_at <= t.now || !t.users.dom().contains(
            t.radius_certificates[key].user_id,
        ) || !t.users[t.radius_certificates[key].user_id].enabled {
            (t, Err(Failure::Forbidden))
        } else {
            let c = t.radius_certificates[key];
            let user = t.users[c.user_id];
            let sid = next_id(t);
            let expires_at = if extended(t.now, 180) <= c.expires_at {
                extended(t.now, 180)
            } else {
                c.expires_at
            };
            let identity = IdentityModel {
                amr: seq!["x509"@],
                source: None,
                user_id: user.id,
                epoch: user.epoch,
                mfa: false,
                auth_time: t.now,
                session_id: sid,
            };
            match judged(judgement, Some(expires_at), t.now) {
                Err(f) => (t, Err(f)),
                Ok(_) => (
                    TxModel {
                        sessions: t.sessions.insert(
                            sid,
                            SessionModel {
                                id: sid,
                                token_hash: digest_of(next_id(drawn(t))),
                                identity,
                                expires_at,
                                revoked: false,
                            },
                        ),
                        radius_eap_identities: t.radius_eap_identities.insert(
                            sid,
                            IdentityBindingModel {
                                certificate_key: key,
                                certificate_id: c.id,
                                listener,
                                profile_fingerprint,
                                expires_at,
                            },
                        ),
                        ..drawn(drawn(t))
                    },
                    Ok(identity),
                ),
            }
        },
    }
}

impl Core {
    /// The identity of the certificate that a handshake ended with. `unchanged` tells whether the
    /// client is still as it was when the conversation started.
    pub fn eap_identity(
        &self,
        tx: &mut Tx,
        client: &str,
        unchanged: bool,
        listener: &str,
        profile_fingerprint: &str,
        der: &Vec<u8>,
        judgement: &Judgement,
        rules: &Rules,
    ) -> (r: Result<Identity, Error>)
        ensures
            ({
                let out = certificate_identity(
                    old(tx)@,
                    client@,
                    unchanged,
                    listener@,
                    profile_fingerprint@,
                    der@,
                    judgement@,
                    rules@,
                );
                final(tx)@ == out.0 && agrees_with(r, out.1)
            }),
    {
        let fingerprint = certificate_fingerprint(der);
        let key = certificate_key(listener, fingerprint.as_str());
        let (_, settings) = match find_client(tx, client, rules) {
            Err(e) => return Err(e),
            Ok(p) => p,
        };
        if !settings.eap_tls || !unchanged {
            return Err(Error::Forbidden);
        }
        let c = match tx.radius_certificates.get(key.as_str()) {
            Some(c) => c.dup(),
            None => return Err(Error::Forbidden),
        };
        if c.expires_at <= tx.now {
            return Err(Error::Forbidden);
        }
        let (user_id, epoch) = match tx.users.get(c.user_id.as_str()) {
            Some(u) => {
                if !u.enabled {
                    return Err(Error::Forbidden);
                }
                (u.id.clone(), u.epoch)
            },
            None => return Err(Error::Forbidden),
        };
        let expires_at = earlier(tx.now.saturating_add(180), c.expires_at);
        if let Err(e) = judge(judgement, Some(expires_at), tx.now) {
            return Err(e);
        }
        let sid = tx.id();
        let token = tx.random_token("");
        assert(""@ + next_id(drawn(old(tx)@)) =~= next_id(drawn(old(tx)@))) by {
            reveal_strlit("");
        }
        let mut amr: Vec<String> = Vec::new();
        amr.push("x509".to_owned());
        assert(texts(amr@) =~= seq!["x509"@]);
        let identity = Identity {
            amr,
            source: None,
            user_id,
            epoch,
            mfa: false,
            auth_time: tx.now,
            session_id: sid.clone(),
        };
        let session = Session {
            id: sid.clone(),
            token_hash: digest(token.as_str()),
            identity: identity.dup(),
            expires_at,
            revoked: false,
        };
        tx.sessions.put(sid.as_str(), session);
        tx.radius_eap_identities.put(
            sid.as_str(),
            IdentityBinding {
                certificate_key: key,
                certificate_id: c.id,
                listener: listener.to_owned(),
                profile_fingerprint: profile_fingerprint.to_owned(),
                expires_at,
            },
        );
        Ok(identity)
    }
}

/// A certificate identity stands while its binding, its certificate and the listener's trust
/// material do. `profiles` are the fingerprints of the listeners' present trust material.
pub open spec fn certificate_identity_check(
    t: TxModel,
    i: IdentityModel,
    profiles: Map<Seq<char>, Seq<char>>,
) -> Result<(), Failure> {
    if i.source is None && i.amr.contains("x509"@) {
        if !t.radius_eap_identities.dom().contains(i.session_id)
            || t.radius_eap_identities[i.session_id].expires_at <= t.now {
            Err(Failure::Unauthorized)
        } else {
            let b = t.radius_eap_identities[i.session_id];
            if !t.radius_certificates.dom().contains(b.certificate_key) {
                Err(Failure::Unauthorized)
            } else {
                let c = t.radius_certificates[b.certificate_key];
                if c.id != b.certificate_id || c.user_id != i.user_id || c.expires_at <= t.now
                    || c.listener != b.listener {
                    Err(Failure::Unauthorized)
                } else if !profiles.dom().contains(b.listener) {
                    Err(Failure::Bad("RADIUS listener has no EAP-TLS trust profile"@))
                } else if profiles[b.listener] != b.profile_fingerprint {
                    Err(Failure::Unauthorized)
                } else {
                    Ok(())
                }
            }
        }
    } else {
        Ok(())
    }
}

pub fn validate_identity(tx: &Tx, identity: &Identity, profiles: &Table<String>) -> (r: Result<
    (),
    Error,
>)
    ensures
        agrees(r, certificate_identity_check(tx@, identity@, profiles@)),
{
    if identity.source.is_some() || !among("x509", &identity.amr) {
        return Ok(());
    }
    let b = match tx.radius_eap_identities.get(identity.session_id.as_str()) {
        None => return Err(Error::Unauthorized),
        Some(b) => b,
    };
    if b.expires_at <= tx.now {
        return Err(Error::Unauthorized);
    }
    let c = match tx.radius_certificates.get(b.certificate_key.as_str()) {
        None => return Err(Error::Unauthorized),
        Some(c) => c,
    };
    if !same(c.id.as_str(), b.certificate_id.as_str()) || !same(
        c.user_id.as_str(),
        identity.user_id.as_str(),
    ) || c.expires_at <= tx.now || !same(c.listener.as_str(), b.listener.as_str()) {
        return Err(Error::Unauthorized);
    }
    match profiles.get(b.listener.as_str()) {
        None => Err(Error::bad("RADIUS listener has no EAP-TLS trust profile")),
        Some(p) => {
            if same(p.as_str(), b.profile_fingerprint.as_str()) {
                Ok(())
            } else {
                Err(Error::Unauthorized)
            }
        },
    }
}

/// An identity that a certificate gave falls with the certificate's binding: once it is revoked,
/// the identity does not stand.
pub proof fn identities_fall_with_their_certificate(
    t: TxModel,
    actor: PrincipalModel,
    id: Seq<char>,
    i: IdentityModel,
    profiles: Map<Seq<char>, Seq<char>>,
)
    requires
        certificate_identity_check(t, i, profiles) is Ok,
        i.source is None,
        i.amr.contains("x509"@),
        certificate_revoked(t, actor, id, true).1 is Ok,
        t.radius_certificate_ids[id] == t.radius_eap_identities[i.session_id].certificate_key,
    ensures
        certificate_identity_check(certificate_revoked(t, actor, id, true).0, i, profiles)
            == Err::<(), Failure>(Failure::Unauthorized),
{
}

/// A fresh certificate identity stands.
pub proof fn fresh_identities_stand(
    t: TxModel,
    client: Seq<char>,
    listener: Seq<char>,
    profiles: Map<Seq<char>, Seq<char>>,
    der: Seq<u8>,
    judgement: JudgementModel,
    rules: RulesModel,
)
    requires
        profiles.dom().contains(listener),
        ({
            let key = certificate_key_of(listener, fingerprint_of(der));
            t.radius_certificates.dom().contains(key) ==> t.radius_certificates[key].listener
                == listener && t.users[t.radius_certificates[key].user_id].id
                == t.radius_certificates[key].user_id
        }),
        certificate_identity(
            t,
            client,
            true,
            listener,
            profiles[listener],
            der,
            judgement,
            rules,
        ).1 is Ok,
    ensures
        ({
            let out = certificate_identity(
                t,
                client,
                true,
                listener,
                profiles[listener],
                der,
                judgement,
                rules,
            );
            certificate_identity_check(out.0, out.1->Ok_0, profiles) is Ok
        }),
{
}

pub open spec fn binding_over(at: u64) -> spec_fn(IdentityBindingModel) -> bool {
    |b: IdentityBindingModel| b.expires_at <= at
}

fn is_binding_over(b: &IdentityBinding, at: u64) -> (r: bool)
    ensures
        r == binding_over(at)(b@),
{
    b.expires_at <= at
}

/// Drops the bindings of identities that expired.
pub fn cleanup(tx: &mut Tx, at: u64)
    ensures
        final(tx)@ == (TxModel {
            radius_eap_identities: without(old(tx)@.radius_eap_identities, binding_over(at)),
            ..old(tx)@
        }),
{
    tx.radius_eap_identities.purge(at, is_binding_over, Ghost(binding_over(at)));
}

/// A certificate that is bound proves its user's identity at its listener, with one factor, for three
/// minutes and not beyond its own end; a certificate of a disabled user proves nothing.
pub proof fn bound_certificates_prove_their_user(
    t: TxModel,
    client: Seq<char>,
    listener: Seq<char>,
    profile_fingerprint: Seq<char>,
    der: Seq<u8>,
    j: JudgementModel,
    rules: RulesModel,
)
    requires
        radius_client(t, client, rules) is Ok,
        (radius_client(t, client, rules)->Ok_0).1.eap_tls,
        t.radius_certificates.dom().contains(
            digest_of(listener + "\0"@ + base64url_of(sha256_of(der))),
        ),
        t.users.dom().contains(
            t.radius_certificates[digest_of(listener + "\0"@ + base64url_of(sha256_of(der)))].user_id,
        ),
        j.authorization is None && !j.step_up && j.claims is None,
        t.now + 180 <= u64::MAX,
    ensures
        ({
            let c = t.radius_certificates[digest_of(
                listener + "\0"@ + base64url_of(sha256_of(der)),
            )];
            let user = t.users[c.user_id];
            let out = certificate_identity(
                t,
                client,
                true,
                listener,
                profile_fingerprint,
                der,
                j,
                rules,
            );
            let i = out.1->Ok_0;
            let s = out.0.sessions[i.session_id];
            &&& out.1 is Ok <==> user.enabled && c.expires_at > t.now
            &&& out.1 is Ok ==> {
                &&& i.user_id == user.id && i.epoch == user.epoch && !i.mfa
                &&& i.amr == seq!["x509"@] && i.source is None && i.auth_time == t.now
                &&& out.0.sessions.dom().contains(i.session_id)
                &&& s.identity == i && !s.revoked
                &&& s.expires_at <= t.now + 180 && s.expires_at <= c.expires_at
                &&& s.expires_at == t.now + 180 || s.expires_at == c.expires_at
                &&& out.0.radius_eap_identities[i.session_id].certificate_id == c.id
                &&& out.0.radius_eap_identities[i.session_id].expires_at == s.expires_at
            }
            &&& out.1 is Err ==> out.0 == t
        }),
        certificate_identity(
            t,
            client,
            false,
            listener,
            profile_fingerprint,
            der,
            j,
            rules,
        ).1 is Err,
{
}

/// A bound certificate is kept for its user at its listener until it expires; it can be bound to nobody
/// else.
pub proof fn certificates_are_bound_to_one_user(
    t: TxModel,
    actor: PrincipalModel,
    input: CertificateInputModel,
    rules: RulesModel,
    user: UserModel,
)
    requires
        named_user(t, input.username) == Some(user),
        certificate_bound(t, actor, input, true, None, rules).1 is Ok,
    ensures
        ({
            let out = certificate_bound(t, actor, input, true, None, rules);
            let c = out.1->Ok_0;
            let der = (pem_certs(encode_utf8(input.certificate_chain_pem))->0)[0];
            let key = digest_of(input.listener + "\0"@ + base64url_of(sha256_of(der)));
            &&& !(actor.agent && user.admin)
            &&& out.0.radius_certificates.dom().contains(key)
            &&& out.0.radius_certificates[key] == c
            &&& t.radius_certificates.dom().contains(key) ==> out.0 == t
            &&& c.user_id == user.id
            &&& !t.radius_certificates.dom().contains(key) ==> {
                &&& c.listener == input.listener && c.username == user.username
                &&& c.fingerprint == base64url_of(sha256_of(der))
                &&& c.expires_at == (certificate_of(der)->0).not_after
                &&& out.0.radius_certificate_ids[c.id] == key
            }
        }),
{
}

/// A revoked certificate is gone.
pub proof fn revoked_certificates_are_gone(t: TxModel, actor: PrincipalModel, id: Seq<char>)
    requires
        certificate_revoked(t, actor, id, true).1 is Ok,
    ensures
        ({
            let out = certificate_revoked(t, actor, id, true);
            &&& !out.0.radius_certificates.dom().contains(t.radius_certificate_ids[id])
            &&& !out.0.radius_certificate_ids.dom().contains(id)
            &&& !(actor.agent && t.users[t.radius_certificates[t.radius_certificate_ids[id]].user_id].admin)
        }),
        certificate_revoked(t, actor, id, false).1 is Err,
{
}

/// Who asks at a listener is let in where every policy admits them while their session lives.
pub proof fn admitted_users_are_let_in(t: TxModel, i: IdentityModel, j: JudgementModel)
    ensures
        radius_user(t, i, j) is Ok <==> {
            &&& j.authorization is None && !j.step_up && j.claims is None
            &&& t.sessions.dom().contains(i.session_id)
            &&& t.sessions[i.session_id].expires_at > t.now
            &&& t.users.dom().contains(i.user_id)
        },
        radius_user(t, i, j) matches Ok(u) ==> u == t.users[i.user_id],
{
}

/// A certificate is taken from the front of a chain of at most eight that the listener trusts, together
/// with the time until which it is valid.
pub proof fn trusted_chains_give_their_leaf(pem: Seq<char>, profile: bool, trust: Option<Failure>)
    requires
        leaf_of(pem, profile, trust) is Ok,
    ensures
        ({
            let chain = pem_certs(vstd::utf8::encode_utf8(pem))->0;
            let (leaf, until) = leaf_of(pem, profile, trust)->Ok_0;
            &&& profile
            &&& trust is None
            &&& byte_count(pem) <= 32768
            &&& pem_certs(vstd::utf8::encode_utf8(pem)) is Some
            &&& 1 <= chain.len() <= 8
            &&& leaf == chain[0]
            &&& certificate_of(leaf) is Some
            &&& (certificate_of(leaf)->0).not_after == until
        }),
{
}

/// The list shows the certificates that may be seen, under their users' names.
pub proof fn listed_certificates_name_their_user(
    t: TxModel,
    keys: Seq<Seq<char>>,
    visible: Set<Seq<char>>,
    i: int,
)
    requires
        0 <= i < keys.len(),
        t.users.dom().contains(t.radius_certificates[keys[i]].user_id),
        visible.contains(t.radius_certificates[keys[i]].id),
    ensures
        certificates_listed(t, keys, visible).contains(
            (CertificateModel {
                username: t.users[t.radius_certificates[keys[i]].user_id].username,
                ..t.radius_certificates[keys[i]]
            }),
        ),
        forall|j: int|
            0 <= j < certificates_listed(t, keys, visible).len() ==> visible.contains(
                (#[trigger] certificates_listed(t, keys, visible)[j]).id,
            ),
    decreases keys.len(),
{
    let want = CertificateModel {
        username: t.users[t.radius_certificates[keys[i]].user_id].username,
        ..t.radius_certificates[keys[i]]
    };
    lemma_listed_visible(t, keys, visible);
    let d = keys.drop_last();
    let rest = certificates_listed(t, d, visible);
    let all = certificates_listed(t, keys, visible);
    if i < d.len() {
        assert(d[i] == keys[i]);
        listed_certificates_name_their_user(t, d, visible, i);
        let k = rest.index_of(want);
        assert(all[k] == want);
    } else {
        assert(all[rest.len() as int] == want);
    }
}

proof fn lemma_listed_visible(t: TxModel, keys: Seq<Seq<char>>, visible: Set<Seq<char>>)
    ensures
        forall|j: int|
            0 <= j < certificates_listed(t, keys, visible).len() ==> visible.contains(
                (#[trigger] certificates_listed(t, keys, visible)[j]).id,
            ),
    decreases keys.len(),
{
    if keys.len() > 0 {
        let rest = certificates_listed(t, keys.drop_last(), visible);
        let all = certificates_listed(t, keys, visible);
        lemma_listed_visible(t, keys.drop_last(), visible);
        assert forall|j: int| 0 <= j < all.len() implies visible.contains((#[trigger] all[j]).id) by {
            if j < rest.len() {
                assert(all[j] == rest[j]);
            }
        }
    }
}

/// Identities of finished exchanges are forgotten when they are over.
pub proof fn old_identities_are_forgotten(t: TxModel, at: u64, k: Seq<char>)
    ensures
        without(t.radius_eap_identities, binding_over(at)).dom().contains(k)
            <==> t.radius_eap_identities.dom().contains(k) && t.radius_eap_identities[k].expires_at > at,
{
    purges_leave_what_does_not_match(t.radius_eap_identities, binding_over(at), k);
}

/// Nothing but what is named stops a chain: a readable chain of at most eight, in at most thirty-two
/// kibibytes, that is trusted and not over gives its certificate.
pub proof fn good_chains_give_their_leaf(pem: Seq<char>)
    requires
        byte_count(pem) <= 32768,
        pem_certs(vstd::utf8::encode_utf8(pem)) is Some,
        1 <= (pem_certs(vstd::utf8::encode_utf8(pem))->0).len() <= 8,
        certificate_of((pem_certs(vstd::utf8::encode_utf8(pem))->0)[0]) is Some,
        (certificate_of((pem_certs(vstd::utf8::encode_utf8(pem))->0)[0])->0).not_after >= 0,
    ensures
        leaf_of(pem, true, None) is Ok,
        leaf_of(pem, false, None) is Err,
{
}

} // verus!
