//! Answers to requests, each decided once and repeated to duplicates while it stands.
use crate::engine::{Core, audit, audited, extended};
use crate::error::{Error, Failure, agrees_with, fails, status_of};
use crate::ldap_server::connection::last_at;
use crate::model::{AuditModel, Client, ClientModel, Identity, IdentityModel, Session, SessionModel, User, UserModel};
use crate::mtls::{named_user, user_by_name};
use crate::names::in_order;
use crate::outside::{attributes_json, attributes_to_json, base64url, base64url_of, digest, digest_of, opt_bytes, string_from_bytes, wire_pairs};
use crate::passkey::ceremony::Challenge;
use crate::radius::eap::{failure, failure_attributes};
use crate::radius::enrollment::{Judgement, JudgementModel, binding_over, radius_user};
use crate::radius::packet::{Packet, PacketModel, answered_with, copy_pairs, first_value, password_bytes, push_attribute};
use crate::radius::requests::{utf8_of, wire_attributes};
use crate::rules::{Rules, RulesModel, name_check};
use crate::store::{Tx, TxModel};
use crate::table::{Row, Table, opt_view, without};
use crate::text::{chars_of, concat3, copy_bytes, joined, opt_is, opt_text, same, slice_of};
use vstd::utf8::{decode_utf8, encode_utf8, encode_utf8_decode_utf8, valid_utf8};
use crate::radius::{Settings, SettingsModel, settings_check};
use vstd::prelude::*;
use vstd::string::*;

verus! {

/// The answer to a request, once it is decided.
pub struct Cached {
    pub expires_at: u64,
    pub client_id: String,
    pub client_fingerprint: String,
    pub attributes_fingerprint: Option<String>,
    pub answered: bool,
    pub response: Vec<u8>,
    pub identity: Option<Identity>,
}

/// What a [`Cached`] holds.
pub struct CachedModel {
    pub expires_at: u64,
    pub client_id: Seq<char>,
    pub client_fingerprint: Seq<char>,
    pub attributes_fingerprint: Option<Seq<char>>,
    pub answered: bool,
    pub response: Seq<u8>,
    pub identity: Option<IdentityModel>,
}

impl View for Cached {
    type V = CachedModel;

    open spec fn view(&self) -> CachedModel {
        CachedModel {
            expires_at: self.expires_at,
            client_id: self.client_id@,
            client_fingerprint: self.client_fingerprint@,
            attributes_fingerprint: crate::text::opt_text(self.attributes_fingerprint),
            answered: self.answered,
            response: self.response@,
            identity: crate::table::opt_view(self.identity),
        }
    }
}

impl Row for Cached {
    fn dup(&self) -> (r: Self) {
        Cached {
            expires_at: self.expires_at,
            client_id: self.client_id.clone(),
            client_fingerprint: self.client_fingerprint.clone(),
            attributes_fingerprint: crate::text::copy_opt(&self.attributes_fingerprint),
            answered: self.answered,
            response: crate::text::copy_bytes(&self.response),
            identity: crate::table::dup_opt(&self.identity),
        }
    }
}

/// The key of a request. The same bytes under the same secret are the same request.
pub open spec fn request_key_of(
    listener: Seq<char>,
    nas_id: Seq<char>,
    secret: Seq<char>,
    bytes: Seq<u8>,
) -> Seq<char> {
    digest_of(
        listener + "\0"@ + nas_id + "\0"@ + digest_of(secret) + "\0"@ + base64url_of(bytes),
    )
}

pub fn request_key(listener: &str, nas_id: &str, secret: &str, bytes: &Vec<u8>) -> (r: String)
    ensures
        r@ == request_key_of(listener@, nas_id@, secret@, bytes@),
{
    let mut t = concat3(listener, "\0", nas_id);
    t.append("\0");
    let d = digest(secret);
    t.append(d.as_str());
    t.append("\0");
    let b = base64url(bytes.as_slice());
    t.append(b.as_str());
    digest(t.as_str())
}

/// An enabled client with acceptable RADIUS settings.
pub open spec fn radius_client(t: TxModel, id: Seq<char>, rules: RulesModel) -> Result<
    (ClientModel, SettingsModel),
    Failure,
> {
    if !t.clients.dom().contains(id) || !t.clients[id].enabled || t.clients[id].settings.radius is None {
        Err(Failure::Forbidden)
    } else {
        let c = t.clients[id];
        match settings_check(c.settings.radius->0, c, rules) {
            Err(f) => Err(f),
            Ok(_) => Ok((c, c.settings.radius->0)),
        }
    }
}

pub fn find_client(tx: &Tx, id: &str, rules: &Rules) -> (r: Result<(Client, Settings), Error>)
    ensures
        match radius_client(tx@, id@, rules@) {
            Ok(p) => r is Ok && (r->Ok_0).0@ == p.0 && (r->Ok_0).1@ == p.1,
            Err(f) => fails(r, f),
        },
{
    let c = match tx.clients.get(id) {
        None => return Err(Error::Forbidden),
        Some(c) => c,
    };
    if !c.enabled {
        return Err(Error::Forbidden);
    }
    let s = match &c.settings.radius {
        None => return Err(Error::Forbidden),
        Some(s) => s,
    };
    if let Err(e) = s.validate(c, rules) {
        return Err(e);
    }
    Ok((c.dup(), s.dup()))
}

/// The sessions with this identity's session revoked.
pub open spec fn closed_session(m: Map<Seq<char>, SessionModel>, i: Option<IdentityModel>) -> Map<
    Seq<char>,
    SessionModel,
> {
    match i {
        None => m,
        Some(x) => if m.dom().contains(x.session_id) {
            m.insert(
                m[x.session_id].id,
                SessionModel { revoked: true, ..m[x.session_id] },
            )
        } else {
            m
        },
    }
}

/// Revokes the session of an identity.
pub fn close(sessions: &mut Table<Session>, identity: &Option<Identity>)
    ensures
        final(sessions)@ == closed_session(old(sessions)@, opt_view(*identity)),
{
    if let Some(i) = identity {
        let found = match sessions.get(i.session_id.as_str()) {
            Some(s) => Some(s.dup()),
            None => None,
        };
        if let Some(s) = found {
            let id = s.id.clone();
            let mut s = s;
            s.revoked = true;
            sessions.put(id.as_str(), s);
        }
    }
}

/// The attributes that an accepted request is answered with. EAP also tells the user's name.
pub open spec fn accepted_attributes(s: SettingsModel, user: UserModel, eap: bool) -> Result<
    Seq<(u8, Seq<u8>)>,
    Failure,
> {
    match wire_attributes(s.reply, user) {
        Err(f) => Err(f),
        Ok(a) => Ok(
            if eap {
                a.push((1u8, encode_utf8(user.username)))
            } else {
                a
            },
        ),
    }
}

fn make_attributes(s: &Settings, user: &User, eap: bool) -> (r: Result<Vec<(u8, Vec<u8>)>, Error>)
    ensures
        match accepted_attributes(s@, user@, eap) {
            Ok(a) => r is Ok && wire_pairs(r->Ok_0@) == a,
            Err(f) => fails(r, f),
        },
{
    let mut a = match s.attributes(user) {
        Err(e) => return Err(e),
        Ok(a) => a,
    };
    if eap {
        let name = utf8_of(user.username.as_str());
        push_attribute(&mut a, 1, name);
    }
    Ok(a)
}

/// The digest of attributes.
pub open spec fn attributes_digest(a: Seq<(u8, Seq<u8>)>) -> Seq<char> {
    digest_of(attributes_json(a))
}

fn digest_attributes(a: &Vec<(u8, Vec<u8>)>) -> (r: String)
    ensures
        r@ == attributes_digest(wire_pairs(a@)),
{
    let t = attributes_to_json(a);
    digest(t.as_str())
}

/// Failures of the server itself are not answers.
pub open spec fn server_failure(f: Failure) -> bool {
    status_of(f) >= 500
}

/// Whether a decided answer does not stand any more.
pub open spec fn outdated(
    t: TxModel,
    c: CachedModel,
    client_id: Seq<char>,
    s: SettingsModel,
    fingerprint: Seq<char>,
    eap: bool,
    j: JudgementModel,
) -> Result<bool, Failure> {
    if c.client_id != client_id || c.client_fingerprint != fingerprint {
        Ok(true)
    } else {
        match c.identity {
            None => Ok(false),
            Some(i) => match radius_user(t, i, j) {
                Err(f) => if server_failure(f) {
                    Err(f)
                } else {
                    Ok(true)
                },
                Ok(user) => match accepted_attributes(s, user, eap) {
                    Err(f) => Err(f),
                    Ok(a) => Ok(c.attributes_fingerprint != Some(attributes_digest(a))),
                },
            },
        }
    }
}

/// How a request stands.
pub enum Claim {
    /// It was seen before; its answer, once it is decided.
    Seen(Option<Vec<u8>>),
    /// It is new, and is to be decided.
    Fresh,
}

/// What a [`Claim`] holds.
pub enum ClaimModel {
    Seen(Option<Seq<u8>>),
    Fresh,
}

impl View for Claim {
    type V = ClaimModel;

    open spec fn view(&self) -> ClaimModel {
        match *self {
            Claim::Seen(o) => ClaimModel::Seen(opt_bytes(o)),
            Claim::Fresh => ClaimModel::Fresh,
        }
    }
}

/// What the arrival of a request does.
pub open spec fn arrived(
    t: TxModel,
    p: PacketModel,
    secret: Seq<u8>,
    key: Seq<char>,
    client_id: Seq<char>,
    fingerprint: Seq<char>,
    j: JudgementModel,
    rules: RulesModel,
) -> (TxModel, Result<ClaimModel, Failure>) {
    match radius_client(t, client_id, rules) {
        Err(f) => (t, Err(f)),
        Ok(found) => {
            let known = t.radius_requests.dom().contains(key);
            let c = t.radius_requests[key];
            if known && c.expires_at > t.now {
                match outdated(
                    t,
                    c,
                    client_id,
                    found.1,
                    fingerprint,
                    first_value(p.attrs, 79) is Some,
                    j,
                ) {
                    Err(f) => (t, Err(f)),
                    Ok(false) => (
                        t,
                        Ok(
                            ClaimModel::Seen(
                                if c.answered {
                                    Some(c.response)
                                } else {
                                    None
                                },
                            ),
                        ),
                    ),
                    Ok(true) => match answered_with(p, 3, secret, failure_attributes(p.attrs)) {
                        Err(f) => (t, Err(f)),
                        Ok(reply) => (
                            TxModel {
                                sessions: closed_session(t.sessions, c.identity),
                                radius_requests: t.radius_requests.insert(
                                    key,
                                    CachedModel {
                                        identity: None,
                                        answered: true,
                                        response: reply,
                                        ..c
                                    },
                                ),
                                ..t
                            },
                            Ok(ClaimModel::Seen(Some(reply))),
                        ),
                    },
                }
            } else if t.radius_requests.dom().len() >= 10000 {
                (t, Err(Failure::Conflict("RADIUS duplicate cache is full"@)))
            } else {
                (
                    TxModel {
                        sessions: if known {
                            closed_session(t.sessions, c.identity)
                        } else {
                            t.sessions
                        },
                        radius_requests: t.radius_requests.insert(
                            key,
                            CachedModel {
                                expires_at: extended(t.now, 90),
                                client_id,
                                client_fingerprint: fingerprint,
                                attributes_fingerprint: None,
                                answered: false,
                                response: Seq::empty(),
                                identity: None,
                            },
                        ),
                        ..t
                    },
                    Ok(ClaimModel::Fresh),
                )
            }
        },
    }
}

impl Core {
    fn is_outdated(
        &self,
        tx: &Tx,
        c: &Cached,
        client_id: &str,
        s: &Settings,
        fingerprint: &str,
        eap: bool,
        j: &Judgement,
    ) -> (r: Result<bool, Error>)
        ensures
            match outdated(tx@, c@, client_id@, s@, fingerprint@, eap, j@) {
                Ok(b) => r is Ok && r->Ok_0 == b,
                Err(f) => fails(r, f),
            },
    {
        if !same(c.client_id.as_str(), client_id) || !same(
            c.client_fingerprint.as_str(),
            fingerprint,
        ) {
            return Ok(true);
        }
        let i = match &c.identity {
            None => return Ok(false),
            Some(i) => i,
        };
        match self.radius_identity(tx, i, j) {
            Err(e) => {
                if e.status() >= 500 {
                    Err(e)
                } else {
                    Ok(true)
                }
            },
            Ok(user) => match make_attributes(s, &user, eap) {
                Err(e) => Err(e),
                Ok(a) => {
                    let d = digest_attributes(&a);
                    Ok(!opt_is(&c.attributes_fingerprint, d.as_str()))
                },
            },
        }
    }

    /// Takes note of a request. `fingerprint` is that of the client's present form; `judgement`
    /// speaks of the identity that a decided answer is for.
    pub fn radius_arrival(
        &self,
        tx: &mut Tx,
        packet: &Packet,
        secret: &Vec<u8>,
        key: &str,
        client_id: &str,
        fingerprint: &str,
        judgement: &Judgement,
        rules: &Rules,
    ) -> (r: Result<Claim, Error>)
        ensures
            ({
                let out = arrived(
                    old(tx)@,
                    packet@,
                    secret@,
                    key@,
                    client_id@,
                    fingerprint@,
                    judgement@,
                    rules@,
                );
                final(tx)@ == out.0 && agrees_with(r, out.1)
            }),
    {
        let (_, settings) = match find_client(tx, client_id, rules) {
            Err(e) => return Err(e),
            Ok(p) => p,
        };
        let known = match tx.radius_requests.get(key) {
            Some(c) => Some(c.dup()),
            None => None,
        };
        if let Some(c) = &known {
            if c.expires_at > tx.now {
                let eap = packet.attr(79).is_some();
                let over = match self.is_outdated(
                    tx,
                    c,
                    client_id,
                    &settings,
                    fingerprint,
                    eap,
                    judgement,
                ) {
                    Err(e) => return Err(e),
                    Ok(b) => b,
                };
                if !over {
                    return Ok(
                        Claim::Seen(
                            if c.answered {
                                Some(copy_bytes(&c.response))
                            } else {
                                None
                            },
                        ),
                    );
                }
                let attrs = failure(packet);
                let reply = match packet.response(3, secret, &attrs) {
                    Err(e) => return Err(e),
                    Ok(b) => b,
                };
                close(&mut tx.sessions, &c.identity);
                let mut next = c.dup();
                next.identity = None;
                next.answered = true;
                next.response = copy_bytes(&reply);
                tx.radius_requests.put(key, next);
                return Ok(Claim::Seen(Some(reply)));
            }
        }
        let count = tx.radius_requests.keys();
        if count.len() >= 10000 {
            return Err(Error::conflict("RADIUS duplicate cache is full"));
        }
        if let Some(c) = &known {
            close(&mut tx.sessions, &c.identity);
        }
        let none: Vec<u8> = Vec::new();
        assert(none@ =~= Seq::<u8>::empty());
        tx.radius_requests.put(
            key,
            Cached {
                expires_at: tx.now.saturating_add(90),
                client_id: client_id.to_owned(),
                client_fingerprint: fingerprint.to_owned(),
                attributes_fingerprint: None,
                answered: false,
                response: none,
                identity: None,
            },
        );
        Ok(Claim::Fresh)
    }
}

/// A request that is still to be decided.
pub open spec fn undecided(t: TxModel, key: Seq<char>) -> bool {
    t.radius_requests.dom().contains(key) && t.radius_requests[key].expires_at > t.now
        && !t.radius_requests[key].answered
}

/// What a request is answered.
pub enum Decision {
    Accept(Identity, Vec<(u8, Vec<u8>)>),
    Challenge(Vec<(u8, Vec<u8>)>),
    Reject(Vec<(u8, Vec<u8>)>),
}

/// What a [`Decision`] holds.
pub enum DecisionModel {
    Accept(IdentityModel, Seq<(u8, Seq<u8>)>),
    Challenge(Seq<(u8, Seq<u8>)>),
    Reject(Seq<(u8, Seq<u8>)>),
}

impl View for Decision {
    type V = DecisionModel;

    open spec fn view(&self) -> DecisionModel {
        match *self {
            Decision::Accept(i, a) => DecisionModel::Accept(i@, wire_pairs(a@)),
            Decision::Challenge(a) => DecisionModel::Challenge(wire_pairs(a@)),
            Decision::Reject(a) => DecisionModel::Reject(wire_pairs(a@)),
        }
    }
}

/// The answer to a password request. `login` is who the password logged in.
pub open spec fn password_decision(
    t: TxModel,
    c: CachedModel,
    client_id: Seq<char>,
    fingerprint: Seq<char>,
    login: Option<IdentityModel>,
    j: JudgementModel,
    rules: RulesModel,
) -> Result<DecisionModel, Failure> {
    let allowed = match radius_client(t, client_id, rules) {
        Err(f) => Err(f),
        Ok(p) => if fingerprint != c.client_fingerprint {
            Err(Failure::Forbidden)
        } else {
            match login {
                None => Err(Failure::Unauthorized),
                Some(i) => match radius_user(t, i, j) {
                    Err(f) => Err(f),
                    Ok(user) => match accepted_attributes(p.1, user, false) {
                        Err(f) => Err(f),
                        Ok(a) => Ok(DecisionModel::Accept(i, a)),
                    },
                },
            }
        },
    };
    match allowed {
        Ok(d) => Ok(d),
        Err(f) => if server_failure(f) {
            Err(f)
        } else {
            Ok(DecisionModel::Reject(Seq::empty()))
        },
    }
}

/// What an EAP conversation came to with one request.
pub enum Outcome {
    Challenge(Vec<(u8, Vec<u8>)>),
    Accept(Identity, Vec<(u8, Vec<u8>)>),
    Reject(Vec<(u8, Vec<u8>)>),
}

/// What an [`Outcome`] holds.
pub enum OutcomeModel {
    Challenge(Seq<(u8, Seq<u8>)>),
    Accept(IdentityModel, Seq<(u8, Seq<u8>)>),
    Reject(Seq<(u8, Seq<u8>)>),
}

impl View for Outcome {
    type V = OutcomeModel;

    open spec fn view(&self) -> OutcomeModel {
        match *self {
            Outcome::Challenge(a) => OutcomeModel::Challenge(wire_pairs(a@)),
            Outcome::Accept(i, a) => OutcomeModel::Accept(i@, wire_pairs(a@)),
            Outcome::Reject(a) => OutcomeModel::Reject(wire_pairs(a@)),
        }
    }
}

/// What one step of a conversation came to.
pub open spec fn step_view(r: Result<Outcome, Error>) -> Result<OutcomeModel, Failure> {
    match r {
        Ok(o) => Ok(o@),
        Err(e) => Err(e@),
    }
}

/// What follows a step of a conversation of `identity`: the sessions, the outcome, and whether the
/// conversation goes on. A step that failed ends the session that the conversation opened, and is
/// reported only where the server is at fault.
pub open spec fn step_settled(
    sessions: Map<Seq<char>, SessionModel>,
    identity: Option<IdentityModel>,
    attrs: Seq<(u8, Seq<u8>)>,
    step: Result<OutcomeModel, Failure>,
) -> (Map<Seq<char>, SessionModel>, Result<OutcomeModel, Failure>, bool) {
    match step {
        Ok(o) => (sessions, Ok(o), o is Challenge),
        Err(f) => (
            closed_session(sessions, identity),
            if server_failure(f) {
                Err(f)
            } else {
                Ok(OutcomeModel::Reject(failure_attributes(attrs)))
            },
            false,
        ),
    }
}

/// Settles a step of a conversation: the outcome, and whether the conversation is kept.
pub fn settle_step(
    sessions: &mut Table<Session>,
    identity: &Option<Identity>,
    request: &Packet,
    step: Result<Outcome, Error>,
) -> (r: (Result<Outcome, Error>, bool))
    ensures
        ({
            let out = step_settled(
                old(sessions)@,
                opt_view(*identity),
                wire_pairs(request.attrs@),
                step_view(step),
            );
            final(sessions)@ == out.0 && step_view(r.0) == out.1 && r.1 == out.2
        }),
{
    match step {
        Ok(Outcome::Challenge(a)) => (Ok(Outcome::Challenge(a)), true),
        Ok(other) => (Ok(other), false),
        Err(e) => {
            close(sessions, identity);
            if e.status() >= 500 {
                (Err(e), false)
            } else {
                (Ok(Outcome::Reject(failure(request))), false)
            }
        },
    }
}

/// The answer to an EAP request, with the attributes whose digest is kept.
pub open spec fn eap_decision(
    t: TxModel,
    c: CachedModel,
    attrs: Seq<(u8, Seq<u8>)>,
    client_id: Seq<char>,
    fingerprint: Seq<char>,
    outcome: OutcomeModel,
    j: JudgementModel,
    rules: RulesModel,
) -> Result<(DecisionModel, Seq<(u8, Seq<u8>)>), Failure> {
    let nothing = Seq::<(u8, Seq<u8>)>::empty();
    match radius_client(t, client_id, rules) {
        Err(f) => Err(f),
        Ok(p) => if !p.1.eap_tls || fingerprint != c.client_fingerprint {
            Ok((DecisionModel::Reject(failure_attributes(attrs)), nothing))
        } else {
            match outcome {
                OutcomeModel::Challenge(a) => Ok((DecisionModel::Challenge(a), nothing)),
                OutcomeModel::Reject(a) => Ok((DecisionModel::Reject(a), nothing)),
                OutcomeModel::Accept(i, protocol) => match radius_user(t, i, j) {
                    Err(f) => if server_failure(f) {
                        Err(f)
                    } else {
                        Ok((DecisionModel::Reject(failure_attributes(attrs)), nothing))
                    },
                    Ok(user) => match accepted_attributes(p.1, user, true) {
                        Err(f) => Err(f),
                        Ok(a) => Ok((DecisionModel::Accept(i, a + protocol), a)),
                    },
                },
            }
        },
    }
}

/// The store once a request is answered, and the answer with whether it accepts.
pub open spec fn decided(
    t: TxModel,
    p: PacketModel,
    secret: Seq<u8>,
    key: Seq<char>,
    place: Seq<char>,
    d: DecisionModel,
    kept: Seq<(u8, Seq<u8>)>,
) -> (TxModel, Result<(Seq<u8>, bool), Failure>) {
    let (code, attrs) = match d {
        DecisionModel::Accept(_, a) => (2u8, a),
        DecisionModel::Reject(a) => (3u8, a),
        DecisionModel::Challenge(a) => (11u8, a),
    };
    match answered_with(p, code, secret, attrs) {
        Err(f) => (t, Err(f)),
        Ok(reply) => {
            let was = t.radius_requests[key];
            let c = match d {
                DecisionModel::Accept(i, _) => CachedModel {
                    identity: Some(i),
                    attributes_fingerprint: Some(attributes_digest(kept)),
                    answered: true,
                    response: reply,
                    ..was
                },
                _ => CachedModel { answered: true, response: reply, ..was },
            };
            let u = TxModel { radius_requests: t.radius_requests.insert(key, c), ..t };
            (
                if code == 11 {
                    u
                } else {
                    audited(
                        u,
                        match c.identity {
                            Some(i) => i.user_id,
                            None => "anonymous"@,
                        },
                        if code == 2 {
                            "radius.accept"@
                        } else {
                            "radius.reject"@
                        },
                        place,
                    )
                },
                Ok((reply, code == 2)),
            )
        },
    }
}

/// What a password request comes to.
pub open spec fn password_answered(
    t: TxModel,
    p: PacketModel,
    secret: Seq<u8>,
    key: Seq<char>,
    place: Seq<char>,
    client_id: Seq<char>,
    fingerprint: Seq<char>,
    login: Option<IdentityModel>,
    j: JudgementModel,
    rules: RulesModel,
) -> (TxModel, Result<(Seq<u8>, bool), Failure>) {
    if !undecided(t, key) {
        (t, Err(Failure::Conflict("RADIUS request expired"@)))
    } else {
        match password_decision(
            t,
            t.radius_requests[key],
            client_id,
            fingerprint,
            login,
            j,
            rules,
        ) {
            Err(f) => (t, Err(f)),
            Ok(d) => decided(
                t,
                p,
                secret,
                key,
                place,
                d,
                match d {
                    DecisionModel::Accept(_, a) => a,
                    _ => Seq::empty(),
                },
            ),
        }
    }
}

/// What an EAP request comes to.
pub open spec fn eap_answered(
    t: TxModel,
    p: PacketModel,
    secret: Seq<u8>,
    key: Seq<char>,
    place: Seq<char>,
    client_id: Seq<char>,
    fingerprint: Seq<char>,
    outcome: OutcomeModel,
    j: JudgementModel,
    rules: RulesModel,
) -> (TxModel, Result<(Seq<u8>, bool), Failure>) {
    if !undecided(t, key) {
        (t, Err(Failure::Conflict("RADIUS request expired"@)))
    } else {
        match eap_decision(
            t,
            t.radius_requests[key],
            p.attrs,
            client_id,
            fingerprint,
            outcome,
            j,
            rules,
        ) {
            Err(f) => (t, Err(f)),
            Ok(x) => decided(t, p, secret, key, place, x.0, x.1),
        }
    }
}

/// An answer and whether it accepts agree with what they should be.
pub open spec fn answer_agrees(
    r: Result<(Vec<u8>, bool), Error>,
    s: Result<(Seq<u8>, bool), Failure>,
) -> bool {
    match s {
        Ok(p) => r is Ok && (r->Ok_0).0@ == p.0 && (r->Ok_0).1 == p.1,
        Err(f) => fails(r, f),
    }
}

fn no_attributes() -> (r: Vec<(u8, Vec<u8>)>)
    ensures
        wire_pairs(r@) == Seq::<(u8, Seq<u8>)>::empty(),
{
    let out: Vec<(u8, Vec<u8>)> = Vec::new();
    assert(wire_pairs(out@) =~= Seq::<(u8, Seq<u8>)>::empty());
    out
}

#[verifier::loop_isolation(false)]
fn append_attributes(out: &mut Vec<(u8, Vec<u8>)>, more: &Vec<(u8, Vec<u8>)>)
    ensures
        wire_pairs(final(out)@) == wire_pairs(old(out)@) + wire_pairs(more@),
{
    let ghost was = wire_pairs(out@);
    let ghost all = wire_pairs(more@);
    let mut i: usize = 0;
    assert(was + all.take(0) =~= was);
    while i < more.len()
        invariant
            i <= more.len(),
            wire_pairs(out@) == was + all.take(i as int),
        decreases more.len() - i,
    {
        assert(all[i as int] == (more[i as int].0, more[i as int].1@));
        let x = copy_bytes(&more[i].1);
        push_attribute(out, more[i].0, x);
        assert(was + all.take(i + 1) =~= (was + all.take(i as int)).push(all[i as int]));
        i = i + 1;
    }
    assert(all.take(i as int) =~= all);
}

impl Core {
    fn is_undecided(&self, tx: &Tx, key: &str) -> (r: bool)
        ensures
            r == undecided(tx@, key@),
    {
        match tx.radius_requests.get(key) {
            Some(c) => c.expires_at > tx.now && !c.answered,
            None => false,
        }
    }

    fn decide_password(
        &self,
        tx: &Tx,
        c: &Cached,
        client_id: &str,
        fingerprint: &str,
        login: &Option<Identity>,
        j: &Judgement,
        rules: &Rules,
    ) -> (r: Result<Decision, Error>)
        ensures
            agrees_with(
                r,
                password_decision(
                    tx@,
                    c@,
                    client_id@,
                    fingerprint@,
                    opt_view(*login),
                    j@,
                    rules@,
                ),
            ),
    {
        let settings = match find_client(tx, client_id, rules) {
            Err(e) => {
                return if e.status() >= 500 {
                    Err(e)
                } else {
                    Ok(Decision::Reject(no_attributes()))
                };
            },
            Ok(p) => p.1,
        };
        if !same(fingerprint, c.client_fingerprint.as_str()) {
            return Ok(Decision::Reject(no_attributes()));
        }
        let i = match login {
            None => return Ok(Decision::Reject(no_attributes())),
            Some(i) => i,
        };
        let user = match self.radius_identity(tx, i, j) {
            Err(e) => {
                return if e.status() >= 500 {
                    Err(e)
                } else {
                    Ok(Decision::Reject(no_attributes()))
                };
            },
            Ok(u) => u,
        };
        match make_attributes(&settings, &user, false) {
            Err(e) => {
                if e.status() >= 500 {
                    Err(e)
                } else {
                    Ok(Decision::Reject(no_attributes()))
                }
            },
            Ok(a) => Ok(Decision::Accept(i.dup(), a)),
        }
    }

    fn decide_eap(
        &self,
        tx: &Tx,
        c: &Cached,
        packet: &Packet,
        client_id: &str,
        fingerprint: &str,
        outcome: &Outcome,
        j: &Judgement,
        rules: &Rules,
    ) -> (r: Result<(Decision, Vec<(u8, Vec<u8>)>), Error>)
        ensures
            match eap_decision(
                tx@,
                c@,
                packet@.attrs,
                client_id@,
                fingerprint@,
                outcome@,
                j@,
                rules@,
            ) {
                Ok(p) => r is Ok && (r->Ok_0).0@ == p.0 && wire_pairs((r->Ok_0).1@) == p.1,
                Err(f) => fails(r, f),
            },
    {
        let settings = match find_client(tx, client_id, rules) {
            Err(e) => return Err(e),
            Ok(p) => p.1,
        };
        if !settings.eap_tls || !same(fingerprint, c.client_fingerprint.as_str()) {
            return Ok((Decision::Reject(failure(packet)), no_attributes()));
        }
        match outcome {
            Outcome::Challenge(a) => Ok((Decision::Challenge(copy_pairs(a)), no_attributes())),
            Outcome::Reject(a) => Ok((Decision::Reject(copy_pairs(a)), no_attributes())),
            Outcome::Accept(i, protocol) => {
                let user = match self.radius_identity(tx, i, j) {
                    Err(e) => {
                        return if e.status() >= 500 {
                            Err(e)
                        } else {
                            Ok((Decision::Reject(failure(packet)), no_attributes()))
                        };
                    },
                    Ok(u) => u,
                };
                match make_attributes(&settings, &user, true) {
                    Err(e) => Err(e),
                    Ok(a) => {
                        let mut all = copy_pairs(&a);
                        append_attributes(&mut all, protocol);
                        Ok((Decision::Accept(i.dup(), all), a))
                    },
                }
            },
        }
    }

    fn settle(
        &self,
        tx: &mut Tx,
        packet: &Packet,
        secret: &Vec<u8>,
        key: &str,
        place: &str,
        d: Decision,
        kept: &Vec<(u8, Vec<u8>)>,
    ) -> (r: Result<(Vec<u8>, bool), Error>)
        requires
            undecided(old(tx)@, key@),
        ensures
            ({
                let out = decided(
                    old(tx)@,
                    packet@,
                    secret@,
                    key@,
                    place@,
                    d@,
                    wire_pairs(kept@),
                );
                final(tx)@ == out.0 && answer_agrees(r, out.1)
            }),
    {
        let mut c = match tx.radius_requests.get(key) {
            Some(c) => c.dup(),
            None => return Err(Error::conflict("RADIUS request expired")),
        };
        let code: u8 = match &d {
            Decision::Accept(_, _) => 2,
            Decision::Reject(_) => 3,
            Decision::Challenge(_) => 11,
        };
        let answer = match &d {
            Decision::Accept(_, a) => packet.response(2, secret, a),
            Decision::Reject(a) => packet.response(3, secret, a),
            Decision::Challenge(a) => packet.response(11, secret, a),
        };
        let reply = match answer {
            Err(e) => return Err(e),
            Ok(b) => b,
        };
        if let Decision::Accept(i, _) = d {
            c.identity = Some(i);
            c.attributes_fingerprint = Some(digest_attributes(kept));
        }
        c.answered = true;
        c.response = copy_bytes(&reply);
        let who = match &c.identity {
            Some(i) => i.user_id.clone(),
            None => "anonymous".to_owned(),
        };
        tx.radius_requests.put(key, c);
        if code == 2 {
            audit(tx, who.as_str(), "radius.accept", place);
        } else if code == 3 {
            audit(tx, who.as_str(), "radius.reject", place);
        }
        Ok((reply, code == 2))
    }

    /// Answers a password request. `login` is who the password logged in, `place` the listener and
    /// the server. The answer comes with whether it accepts; a login that was not accepted is to
    /// be ended.
    pub fn radius_password_finish(
        &self,
        tx: &mut Tx,
        packet: &Packet,
        secret: &Vec<u8>,
        key: &str,
        place: &str,
        client_id: &str,
        fingerprint: &str,
        login: &Option<Identity>,
        judgement: &Judgement,
        rules: &Rules,
    ) -> (r: Result<(Vec<u8>, bool), Error>)
        ensures
            ({
                let out = password_answered(
                    old(tx)@,
                    packet@,
                    secret@,
                    key@,
                    place@,
                    client_id@,
                    fingerprint@,
                    opt_view(*login),
                    judgement@,
                    rules@,
                );
                final(tx)@ == out.0 && answer_agrees(r, out.1)
            }),
    {
        if !self.is_undecided(tx, key) {
            return Err(Error::conflict("RADIUS request expired"));
        }
        let c = match tx.radius_requests.get(key) {
            Some(c) => c.dup(),
            None => return Err(Error::conflict("RADIUS request expired")),
        };
        let d = match self.decide_password(
            tx,
            &c,
            client_id,
            fingerprint,
            login,
            judgement,
            rules,
        ) {
            Err(e) => return Err(e),
            Ok(d) => d,
        };
        let kept = match &d {
            Decision::Accept(_, a) => copy_pairs(a),
            _ => no_attributes(),
        };
        self.settle(tx, packet, secret, key, place, d, &kept)
    }

    /// Answers an EAP request.
    pub fn radius_eap_finish(
        &self,
        tx: &mut Tx,
        packet: &Packet,
        secret: &Vec<u8>,
        key: &str,
        place: &str,
        client_id: &str,
        fingerprint: &str,
        outcome: &Outcome,
        judgement: &Judgement,
        rules: &Rules,
    ) -> (r: Result<(Vec<u8>, bool), Error>)
        ensures
            ({
                let out = eap_answered(
                    old(tx)@,
                    packet@,
                    secret@,
                    key@,
                    place@,
                    client_id@,
                    fingerprint@,
                    outcome@,
                    judgement@,
                    rules@,
                );
                final(tx)@ == out.0 && answer_agrees(r, out.1)
            }),
    {
        if !self.is_undecided(tx, key) {
            return Err(Error::conflict("RADIUS request expired"));
        }
        let c = match tx.radius_requests.get(key) {
            Some(c) => c.dup(),
            None => return Err(Error::conflict("RADIUS request expired")),
        };
        let (d, kept) = match self.decide_eap(
            tx,
            &c,
            packet,
            client_id,
            fingerprint,
            outcome,
            judgement,
            rules,
        ) {
            Err(e) => return Err(e),
            Ok(p) => p,
        };
        self.settle(tx, packet, secret, key, place, d, &kept)
    }
}

/// A decided request is never decided again: a second decision is refused and changes nothing.
pub proof fn requests_are_decided_once(
    t: TxModel,
    p: PacketModel,
    secret: Seq<u8>,
    key: Seq<char>,
    place: Seq<char>,
    client_id: Seq<char>,
    fingerprint: Seq<char>,
    login: Option<IdentityModel>,
    j: JudgementModel,
    rules: RulesModel,
    later: OutcomeModel,
)
    requires
        password_answered(
            t,
            p,
            secret,
            key,
            place,
            client_id,
            fingerprint,
            login,
            j,
            rules,
        ).1 is Ok,
    ensures
        ({
            let u = password_answered(
                t,
                p,
                secret,
                key,
                place,
                client_id,
                fingerprint,
                login,
                j,
                rules,
            ).0;
            password_answered(u, p, secret, key, place, client_id, fingerprint, login, j, rules).0 == u
                && eap_answered(u, p, secret, key, place, client_id, fingerprint, later, j, rules).0
                == u && !undecided(u, key)
        }),
{
}

/// A password request is accepted only for a login whose identity stands, under the client that the
/// request was taken for.
pub proof fn acceptance_needs_a_standing_identity(
    t: TxModel,
    p: PacketModel,
    secret: Seq<u8>,
    key: Seq<char>,
    place: Seq<char>,
    client_id: Seq<char>,
    fingerprint: Seq<char>,
    login: Option<IdentityModel>,
    j: JudgementModel,
    rules: RulesModel,
)
    requires
        password_answered(
            t,
            p,
            secret,
            key,
            place,
            client_id,
            fingerprint,
            login,
            j,
            rules,
        ).1 matches Ok(x) && x.1,
    ensures
        login is Some,
        radius_user(t, login->0, j) is Ok,
        radius_client(t, client_id, rules) is Ok,
        fingerprint == t.radius_requests[key].client_fingerprint,
{
}

/// The store once the expired answers among `keys` were dropped and their sessions revoked.
pub open spec fn swept(t: TxModel, keys: Seq<Seq<char>>, at: u64) -> TxModel
    decreases keys.len(),
{
    if keys.len() == 0 {
        t
    } else {
        let u = swept(t, keys.drop_last(), at);
        let k = keys.last();
        if u.radius_requests.dom().contains(k) && u.radius_requests[k].expires_at < at {
            TxModel {
                sessions: closed_session(u.sessions, u.radius_requests[k].identity),
                radius_requests: u.radius_requests.remove(k),
                ..u
            }
        } else {
            u
        }
    }
}

/// Drops what expired. The session of a dropped answer is revoked.
#[verifier::loop_isolation(false)]
pub fn cleanup(tx: &mut Tx, at: u64)
    ensures
        final(tx)@ == swept(
            TxModel {
                radius_eap_identities: without(old(tx)@.radius_eap_identities, binding_over(at)),
                ..old(tx)@
            },
            in_order(old(tx)@.radius_requests.dom()),
            at,
        ),
{
    crate::radius::enrollment::cleanup(tx, at);
    let ghost t0 = tx@;
    let keys = tx.radius_requests.keys();
    let ghost all = in_order(keys@);
    let n: usize = keys.len();
    let mut i: usize = 0;
    assert(all.take(0) =~= Seq::<Seq<char>>::empty());
    while i < n
        invariant
            i <= n,
            tx@ == swept(t0, all.take(i as int), at),
        decreases n - i,
    {
        proof {
            assert(all.take(i + 1).drop_last() =~= all.take(i as int));
        }
        let key = keys.at(i).as_str();
        let over = match tx.radius_requests.get(key) {
            Some(c) => if c.expires_at < at {
                Some(c.dup())
            } else {
                None
            },
            None => None,
        };
        if let Some(c) = over {
            close(&mut tx.sessions, &c.identity);
            tx.radius_requests.delete(key);
        }
        i = i + 1;
    }
    assert(all.take(n as int) =~= all);
}

/// The name, the password and the one-time code of a password request. A user with a second factor
/// appends the code after the last semicolon.
pub open spec fn credentials_of(p: PacketModel, secret: Seq<u8>, rules: RulesModel) -> Result<
    (Seq<char>, Seq<char>),
    Failure,
> {
    if first_value(p.attrs, 3) is Some || first_value(p.attrs, 24) is Some || first_value(p.attrs, 79) is Some {
        Err(Failure::Bad("This RADIUS profile requires PAP"@))
    } else {
        match first_value(p.attrs, 1) {
            None => Err(Failure::Bad("Missing RADIUS username"@)),
            Some(b) => if !valid_utf8(b) {
                Err(Failure::Bad("Invalid RADIUS username"@))
            } else {
                match name_check(rules, decode_utf8(b)) {
                    Err(f) => Err(f),
                    Ok(_) => match password_bytes(p, secret) {
                        Err(f) => Err(f),
                        Ok(x) => Ok((decode_utf8(b), decode_utf8(x))),
                    },
                }
            },
        }
    }
}

/// Reads the name and the password of a request.
pub fn read_credentials(packet: &Packet, secret: &Vec<u8>, rules: &Rules) -> (r: Result<
    (String, String),
    Error,
>)
    ensures
        match credentials_of(packet@, secret@, rules@) {
            Ok(p) => r is Ok && (r->Ok_0).0@ == p.0 && (r->Ok_0).1@ == p.1,
            Err(f) => fails(r, f),
        },
{
    if packet.attr(3).is_some() || packet.attr(24).is_some() || packet.attr(79).is_some() {
        return Err(Error::bad("This RADIUS profile requires PAP"));
    }
    let name = match packet.attr(1) {
        None => return Err(Error::bad("Missing RADIUS username")),
        Some(b) => match string_from_bytes(copy_bytes(b)) {
            None => return Err(Error::bad("Invalid RADIUS username")),
            Some(s) => {
                proof {
                    encode_utf8_decode_utf8(s@);
                }
                s
            },
        },
    };
    if let Err(e) = rules.check_name(name.as_str()) {
        return Err(e);
    }
    match packet.password(secret) {
        Err(e) => Err(e),
        Ok(s) => {
            proof {
                encode_utf8_decode_utf8(s@);
            }
            Ok((name, s))
        },
    }
}

/// The password and the one-time code of an account with a second factor: what stands before and
/// after the last semicolon.
pub open spec fn pap_parts(password: Seq<char>, mfa: bool) -> (Seq<char>, Option<Seq<char>>) {
    let at = last_at(password, ';');
    if mfa && at >= 0 {
        (password.take(at), Some(password.skip(at + 1)))
    } else {
        (password, None)
    }
}

/// Splits the one-time code off the password of a request, where the account has a second factor.
pub fn split_pap(tx: &Tx, username: &str, password: &str) -> (r: (String, Option<String>))
    ensures
        ({
            let want = pap_parts(
                password@,
                named_user(tx@, username@) matches Some(u) && u.totp_secret is Some,
            );
            r.0@ == want.0 && opt_text(r.1) == want.1
        }),
{
    let mfa = match user_by_name(tx, username) {
        Ok(u) => u.totp_secret.is_some(),
        Err(_) => false,
    };
    let v = chars_of(password);
    let mut i: usize = v.len();
    assert(password@.take(i as int) =~= password@);
    while 0 < i && v[i - 1] != ';'
        invariant
            i <= v.len(),
            v@ == password@,
            last_at(password@, ';') == last_at(password@.take(i as int), ';'),
        decreases i,
    {
        proof {
            assert(password@.take(i as int).drop_last() =~= password@.take(i - 1));
        }
        i = i - 1;
    }
    if mfa && 0 < i {
        let otp = slice_of(&v, i, v.len());
        let bare = slice_of(&v, 0, i - 1);
        assert(otp@ =~= password@.skip(i as int));
        assert(bare@ =~= password@.take(i - 1));
        return (bare, Some(otp));
    }
    (password.to_owned(), None)
}

/// A password request is accepted where it should be: the request waits for its decision, the
/// client that it was taken for stands unchanged, nothing speaks against the identity that logged in,
/// and the attributes of the answer can be written. The answer is an acceptance that carries these
/// attributes, it is kept for the request, and the acceptance is noted.
pub proof fn right_passwords_are_accepted(
    t: TxModel,
    p: PacketModel,
    secret: Seq<u8>,
    key: Seq<char>,
    place: Seq<char>,
    client_id: Seq<char>,
    fingerprint: Seq<char>,
    i: IdentityModel,
    j: JudgementModel,
    rules: RulesModel,
    attrs: Seq<(u8, Seq<u8>)>,
    reply: Seq<u8>,
)
    requires
        t.radius_requests.dom().contains(key),
        !t.radius_requests[key].answered,
        t.radius_requests[key].expires_at > t.now,
        t.radius_requests[key].client_fingerprint == fingerprint,
        radius_client(t, client_id, rules) is Ok,
        t.users.dom().contains(i.user_id),
        t.sessions.dom().contains(i.session_id),
        t.sessions[i.session_id].expires_at > t.now,
        j.authorization is None && !j.step_up && j.claims is None,
        wire_attributes(
            (t.clients[client_id].settings.radius->0).reply,
            t.users[i.user_id],
        ) == Ok::<Seq<(u8, Seq<u8>)>, Failure>(attrs),
        answered_with(p, 2, secret, attrs) == Ok::<Seq<u8>, Failure>(reply),
    ensures
        ({
            let out = password_answered(
                t,
                p,
                secret,
                key,
                place,
                client_id,
                fingerprint,
                Some(i),
                j,
                rules,
            );
            &&& out.1 == Ok::<(Seq<u8>, bool), Failure>((reply, true))
            &&& out.0.radius_requests[key].answered
            &&& out.0.radius_requests[key].response == reply
            &&& out.0.radius_requests[key].identity == Some(i)
            &&& out.0.audit.last() == (AuditModel {
                actor: i.user_id,
                action: "radius.accept"@,
                target: place,
            })
            &&& out.0.sessions == t.sessions
        }),
{
}

/// A password request whose login failed, or whose client was changed meanwhile, is rejected: the
/// answer says so, opens nothing and names nobody.
pub proof fn other_passwords_are_rejected(
    t: TxModel,
    p: PacketModel,
    secret: Seq<u8>,
    key: Seq<char>,
    place: Seq<char>,
    client_id: Seq<char>,
    fingerprint: Seq<char>,
    login: Option<IdentityModel>,
    j: JudgementModel,
    rules: RulesModel,
    reply: Seq<u8>,
)
    requires
        t.radius_requests.dom().contains(key),
        !t.radius_requests[key].answered,
        t.radius_requests[key].expires_at > t.now,
        t.radius_requests[key].identity is None,
        radius_client(t, client_id, rules) is Ok,
        login is None || t.radius_requests[key].client_fingerprint != fingerprint,
        answered_with(p, 3, secret, Seq::empty()) == Ok::<Seq<u8>, Failure>(reply),
    ensures
        ({
            let out = password_answered(
                t,
                p,
                secret,
                key,
                place,
                client_id,
                fingerprint,
                login,
                j,
                rules,
            );
            &&& out.1 == Ok::<(Seq<u8>, bool), Failure>((reply, false))
            &&& out.0.radius_requests[key].answered
            &&& out.0.radius_requests[key].response == reply
            &&& out.0.radius_requests[key].identity is None
            &&& out.0.audit.last() == (AuditModel {
                actor: "anonymous"@,
                action: "radius.reject"@,
                target: place,
            })
        }),
{
}

/// What an EAP conversation came to is what is answered: a challenge with its attributes, a
/// rejection with its attributes, an acceptance with the attributes of the client, the user's name and
/// those of the protocol.
pub proof fn conversations_are_answered_as_they_went(
    t: TxModel,
    p: PacketModel,
    secret: Seq<u8>,
    key: Seq<char>,
    place: Seq<char>,
    client_id: Seq<char>,
    fingerprint: Seq<char>,
    outcome: OutcomeModel,
    j: JudgementModel,
    rules: RulesModel,
    attrs: Seq<(u8, Seq<u8>)>,
    reply: Seq<u8>,
)
    requires
        t.radius_requests.dom().contains(key),
        !t.radius_requests[key].answered,
        t.radius_requests[key].expires_at > t.now,
        t.radius_requests[key].client_fingerprint == fingerprint,
        radius_client(t, client_id, rules) is Ok,
        (t.clients[client_id].settings.radius->0).eap_tls,
        match outcome {
            OutcomeModel::Challenge(a) => answered_with(p, 11, secret, a) == Ok::<Seq<u8>, Failure>(
                reply,
            ),
            OutcomeModel::Reject(a) => answered_with(p, 3, secret, a) == Ok::<Seq<u8>, Failure>(reply),
            OutcomeModel::Accept(i, a) => {
                &&& t.users.dom().contains(i.user_id)
                &&& t.sessions.dom().contains(i.session_id)
                &&& t.sessions[i.session_id].expires_at > t.now
                &&& j.authorization is None && !j.step_up && j.claims is None
                &&& wire_attributes(
                    (t.clients[client_id].settings.radius->0).reply,
                    t.users[i.user_id],
                ) == Ok::<Seq<(u8, Seq<u8>)>, Failure>(attrs)
                &&& answered_with(
                    p,
                    2,
                    secret,
                    attrs + seq![(1u8, encode_utf8(t.users[i.user_id].username))] + a,
                ) == Ok::<Seq<u8>, Failure>(reply)
            },
        },
    ensures
        ({
            let out = eap_answered(
                t,
                p,
                secret,
                key,
                place,
                client_id,
                fingerprint,
                outcome,
                j,
                rules,
            );
            &&& out.1 == Ok::<(Seq<u8>, bool), Failure>((reply, outcome is Accept))
            &&& out.0.radius_requests[key].answered
            &&& out.0.radius_requests[key].response == reply
            &&& outcome matches OutcomeModel::Accept(i, _) ==> out.0.radius_requests[key].identity
                == Some(i) && out.0.audit.last() == (AuditModel {
                actor: i.user_id,
                action: "radius.accept"@,
                target: place,
            })
            &&& outcome is Challenge ==> out.0.audit == t.audit
        }),
{
    if let OutcomeModel::Accept(i, a) = outcome {
        let name = (1u8, encode_utf8(t.users[i.user_id].username));
        assert(attrs + seq![name] =~= attrs.push(name));
    }
}

/// A request that comes again is answered as before, byte by byte, while the answer stands: its
/// client is unchanged and it opened no session. A new one waits for its decision for ninety seconds.
pub proof fn repeated_requests_get_the_same_answer(
    t: TxModel,
    p: PacketModel,
    secret: Seq<u8>,
    key: Seq<char>,
    client_id: Seq<char>,
    fingerprint: Seq<char>,
    j: JudgementModel,
    rules: RulesModel,
)
    requires
        radius_client(t, client_id, rules) is Ok,
    ensures
        t.radius_requests.dom().contains(key) && t.radius_requests[key].expires_at > t.now
            && t.radius_requests[key].client_id == client_id
            && t.radius_requests[key].client_fingerprint == fingerprint
            && t.radius_requests[key].identity is None ==> arrived(
            t,
            p,
            secret,
            key,
            client_id,
            fingerprint,
            j,
            rules,
        ) == (
            t,
            Ok::<ClaimModel, Failure>(
                ClaimModel::Seen(
                    if t.radius_requests[key].answered {
                        Some(t.radius_requests[key].response)
                    } else {
                        None
                    },
                ),
            ),
        ),
        !t.radius_requests.dom().contains(key) && t.radius_requests.dom().len() < 10000 ==> {
            let out = arrived(t, p, secret, key, client_id, fingerprint, j, rules);
            let c = out.0.radius_requests[key];
            &&& out.1 == Ok::<ClaimModel, Failure>(ClaimModel::Fresh)
            &&& out.0.radius_requests.dom().contains(key)
            &&& !c.answered
            &&& c.client_id == client_id
            &&& c.client_fingerprint == fingerprint
            &&& c.identity is None
            &&& t.now + 90 <= u64::MAX ==> c.expires_at == t.now + 90
        },
        t.radius_requests.dom().contains(key) && t.radius_requests[key].expires_at > t.now && (
        t.radius_requests[key].client_id != client_id || t.radius_requests[key].client_fingerprint
            != fingerprint) ==> match answered_with(p, 3, secret, failure_attributes(p.attrs)) {
            Ok(reply) => arrived(t, p, secret, key, client_id, fingerprint, j, rules).1 == Ok::<
                ClaimModel,
                Failure,
            >(ClaimModel::Seen(Some(reply))),
            Err(_) => true,
        },
{
}

/// A name and a password are taken from a packet that carries them plainly and nothing of another
/// method.
pub proof fn plain_credentials_are_taken(p: PacketModel, secret: Seq<u8>, rules: RulesModel)
    ensures
        credentials_of(p, secret, rules) matches Ok((name, password)) ==> {
            &&& first_value(p.attrs, 3) is None
            &&& first_value(p.attrs, 24) is None
            &&& first_value(p.attrs, 79) is None
            &&& first_value(p.attrs, 1) is Some && valid_utf8(first_value(p.attrs, 1)->0)
            &&& name == decode_utf8(first_value(p.attrs, 1)->0)
            &&& !rules.bad_names.contains(name)
            &&& password_bytes(p, secret) is Ok && password == decode_utf8(password_bytes(p, secret)->Ok_0)
        },
        first_value(p.attrs, 3) is None && first_value(p.attrs, 24) is None && first_value(p.attrs, 79) is None
            && first_value(p.attrs, 1) is Some && valid_utf8(first_value(p.attrs, 1)->0)
            && !rules.bad_names.contains(decode_utf8(first_value(p.attrs, 1)->0)) && password_bytes(
            p,
            secret,
        ) is Ok ==> credentials_of(p, secret, rules) is Ok,
{
}

/// What follows the last semicolon of a password is the second factor, where one is asked for; where
/// none is, the password is whole.
pub proof fn second_factors_follow_the_last_semicolon(password: Seq<char>, code: Seq<char>)
    requires
        !code.contains(';'),
    ensures
        pap_parts(password + seq![';'] + code, true) == (password, Some(code)),
        pap_parts(password + seq![';'] + code, false) == (
            password + seq![';'] + code,
            None::<Seq<char>>,
        ),
        !password.contains(';') ==> pap_parts(password, true) == (password, None::<Seq<char>>),
{
    let s = password + seq![';'] + code;
    lemma_last_semicolon(s, password.len() as int);
    assert(s.take(password.len() as int) =~= password);
    assert(s.skip(password.len() as int + 1) =~= code);
    if !password.contains(';') {
        lemma_no_semicolon(password);
    }
}

proof fn lemma_last_semicolon(s: Seq<char>, n: int)
    requires
        0 <= n < s.len(),
        s[n] == ';',
        forall|i: int| n < i < s.len() ==> s[i] != ';',
    ensures
        last_at(s, ';') == n,
    decreases s.len(),
{
    if n < s.len() - 1 {
        assert(s.last() != ';');
        lemma_last_semicolon(s.drop_last(), n);
    }
}

proof fn lemma_no_semicolon(s: Seq<char>)
    requires
        !s.contains(';'),
    ensures
        last_at(s, ';') < 0,
    decreases s.len(),
{
    if s.len() > 0 {
        assert(s[s.len() - 1] != ';');
        let w = s.drop_last();
        assert forall|i: int| 0 <= i < w.len() implies w[i] != ';' by {
            assert(s[i] == w[i]);
        }
        lemma_no_semicolon(w);
    }
}

/// A step that fails ends the session that it would have used; the peer is told of the failure unless
/// it was ours.
pub proof fn failed_steps_end_the_session(
    sessions: Map<Seq<char>, SessionModel>,
    i: IdentityModel,
    attrs: Seq<(u8, Seq<u8>)>,
    f: Failure,
    o: OutcomeModel,
)
    requires
        sessions.dom().contains(i.session_id),
        sessions[i.session_id].id == i.session_id,
    ensures
        ({
            let (after, r, goes_on) = step_settled(sessions, Some(i), attrs, Err(f));
            &&& after[i.session_id].revoked
            &&& !goes_on
            &&& status_of(f) >= 500 ==> r == Err::<OutcomeModel, Failure>(f)
            &&& status_of(f) < 500 ==> r == Ok::<OutcomeModel, Failure>(
                OutcomeModel::Reject(failure_attributes(attrs)),
            )
        }),
        step_settled(sessions, Some(i), attrs, Ok(o)) == (
            sessions,
            Ok::<OutcomeModel, Failure>(o),
            o is Challenge,
        ),
{
}

/// Requests that are over are swept out; those that are not stay as they are.
pub proof fn old_requests_are_swept(t: TxModel, keys: Seq<Seq<char>>, at: u64, k: Seq<char>)
    ensures
        ({
            let u = swept(t, keys, at);
            &&& t.radius_requests.dom().contains(k) && t.radius_requests[k].expires_at >= at
                ==> u.radius_requests.dom().contains(k)
            &&& keys.contains(k) && u.radius_requests.dom().contains(k) ==> u.radius_requests[k].expires_at >= at
            &&& u.radius_requests.dom().contains(k) ==> t.radius_requests.dom().contains(k)
                && u.radius_requests[k] == t.radius_requests[k]
        }),
    decreases keys.len(),
{
    if keys.len() > 0 {
        let d = keys.drop_last();
        old_requests_are_swept(t, d, at, k);
        old_requests_are_swept(t, d, at, keys.last());
        if keys.contains(k) && k != keys.last() {
            assert(d[keys.index_of(k)] == k);
        }
    }
}

/// Requests of different listeners, servers, secrets or bytes are remembered apart wherever their
/// digests are.
pub proof fn requests_are_told_apart_by_everything(
    listener: Seq<char>,
    nas_id: Seq<char>,
    secret: Seq<char>,
    bytes: Seq<u8>,
)
    ensures
        request_key_of(listener, nas_id, secret, bytes) == digest_of(
            joined(seq![listener, nas_id, digest_of(secret), base64url_of(bytes)], "\0"@),
        ),
{
    reveal_with_fuel(crate::text::joined, 5);
    let v = seq![listener, nas_id, digest_of(secret), base64url_of(bytes)];
    let a = v.drop_last();
    let b = a.drop_last();
    let c = b.drop_last();
    assert(a.last() == digest_of(secret) && b.last() == nas_id && c[0] == listener);
    assert(joined(v, "\0"@) =~= listener + "\0"@ + nas_id + "\0"@ + digest_of(secret) + "\0"@ + base64url_of(
        bytes,
    ));
}

} // verus!
