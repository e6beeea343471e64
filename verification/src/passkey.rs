//! Passkeys: which ceremonies may start, what they leave on the server, and what a verified
//! response changes.
pub mod ceremony;
pub mod login;

use crate::engine::{ConfigModel, Core, audit, audited, drawn, extended, next_id};
use crate::error::{Error, Failure, agrees, agrees_with, and_also, copy_error, fails, opt_failure};
use crate::json::{Json, JsonModel, Member, a_member_that_is_set_is_found, items_of, lemma_items_of, lemma_lookup_with, lemma_lookup_without, lemma_members_of, member, members_of, named_otherwise, text, with_member};
use crate::logout::{SelectionModel, ended_all, queue_user, queued};
use crate::model::{Identity, IdentityModel, Session, SessionModel, User, UserModel};
use crate::names::{Names, finite_sets_are_listed, in_order, lemma_take_set};
use crate::outside::{base64url, base64url_of, digest, digest_of, sha256, sha256_of};
use crate::radius::packet::bytes_between;
use crate::radius::requests::utf8_of;
use crate::rules::{Rules, RulesModel, rule_check};
use crate::store::{Tx, TxModel};
use crate::table::{Row, Table, opt_view, purges_leave_what_does_not_match, views, without};
use crate::text::{concat, concat3, same};
use vstd::utf8::encode_utf8;
use vstd::prelude::*;
use vstd::string::*;

verus! {

/// An enrolled passkey. Its key is what the WebAuthn library keeps of it, as JSON text.
pub struct Credential {
    pub id: String,
    pub user_id: String,
    pub name: String,
    pub created_at: u64,
    pub counter: u32,
    pub key: String,
}

/// What a [`Credential`] holds.
pub struct CredentialModel {
    pub id: Seq<char>,
    pub user_id: Seq<char>,
    pub name: Seq<char>,
    pub created_at: u64,
    pub counter: u32,
    pub key: Seq<char>,
}

impl View for Credential {
    type V = CredentialModel;

    open spec fn view(&self) -> CredentialModel {
        CredentialModel {
            id: self.id@,
            user_id: self.user_id@,
            name: self.name@,
            created_at: self.created_at,
            counter: self.counter,
            key: self.key@,
        }
    }
}

impl Row for Credential {
    fn dup(&self) -> (r: Self) {
        Credential {
            id: self.id.clone(),
            user_id: self.user_id.clone(),
            name: self.name.clone(),
            created_at: self.created_at,
            counter: self.counter,
            key: self.key.clone(),
        }
    }
}

/// An enrollment that was started.
pub struct Registration {
    pub identity: Identity,
    pub name: String,
    pub expires_at: u64,
    pub state: String,
}

/// What a [`Registration`] holds.
pub struct RegistrationModel {
    pub identity: IdentityModel,
    pub name: Seq<char>,
    pub expires_at: u64,
    pub state: Seq<char>,
}

impl View for Registration {
    type V = RegistrationModel;

    open spec fn view(&self) -> RegistrationModel {
        RegistrationModel {
            identity: self.identity@,
            name: self.name@,
            expires_at: self.expires_at,
            state: self.state@,
        }
    }
}

impl Row for Registration {
    fn dup(&self) -> (r: Self) {
        Registration {
            identity: self.identity.dup(),
            name: self.name.clone(),
            expires_at: self.expires_at,
            state: self.state.clone(),
        }
    }
}

/// A login that was started.
pub struct Authentication {
    pub user_id: Option<String>,
    pub epoch: u64,
    pub expires_at: u64,
    /// The state of a ceremony with the user's keys; none for a decoy.
    pub state: Option<String>,
    pub transaction: Option<String>,
    /// The interaction that a browser ceremony belongs to.
    pub interaction: Option<String>,
    /// The digest of the browser binding that started the ceremony.
    pub binding_hash: Option<String>,
    /// The state of a ceremony in which the credential names its user.
    pub discoverable: Option<String>,
}

/// What a [`Authentication`] holds.
pub struct AuthenticationModel {
    pub user_id: Option<Seq<char>>,
    pub epoch: u64,
    pub expires_at: u64,
    pub state: Option<Seq<char>>,
    pub transaction: Option<Seq<char>>,
    pub interaction: Option<Seq<char>>,
    pub binding_hash: Option<Seq<char>>,
    pub discoverable: Option<Seq<char>>,
}

impl View for Authentication {
    type V = AuthenticationModel;

    open spec fn view(&self) -> AuthenticationModel {
        AuthenticationModel {
            user_id: crate::text::opt_text(self.user_id),
            epoch: self.epoch,
            expires_at: self.expires_at,
            state: crate::text::opt_text(self.state),
            transaction: crate::text::opt_text(self.transaction),
            interaction: crate::text::opt_text(self.interaction),
            binding_hash: crate::text::opt_text(self.binding_hash),
            discoverable: crate::text::opt_text(self.discoverable),
        }
    }
}

impl Row for Authentication {
    fn dup(&self) -> (r: Self) {
        Authentication {
            user_id: crate::text::copy_opt(&self.user_id),
            epoch: self.epoch,
            expires_at: self.expires_at,
            state: crate::text::copy_opt(&self.state),
            transaction: crate::text::copy_opt(&self.transaction),
            interaction: crate::text::copy_opt(&self.interaction),
            binding_hash: crate::text::copy_opt(&self.binding_hash),
            discoverable: crate::text::copy_opt(&self.discoverable),
        }
    }
}

/// What the WebAuthn library made of a response.
pub struct PasskeyOutcome {
    /// Why the server cannot verify any response, if it cannot.
    pub site: Option<Error>,
    /// The response names its user.
    pub has_handle: bool,
    pub handle: Vec<u8>,
    /// The credential that the response names.
    pub claimed_id: Vec<u8>,
    pub verified: bool,
    pub user_verified: bool,
    /// The credential that was verified.
    pub raw_id: Vec<u8>,
    pub counter: u32,
    /// The key as it is kept from then on.
    pub key: Option<String>,
}

/// What a [`PasskeyOutcome`] holds.
pub struct PasskeyOutcomeModel {
    pub site: Option<Failure>,
    pub has_handle: bool,
    pub handle: Seq<u8>,
    pub claimed_id: Seq<u8>,
    pub verified: bool,
    pub user_verified: bool,
    pub raw_id: Seq<u8>,
    pub counter: u32,
    pub key: Option<Seq<char>>,
}

impl View for PasskeyOutcome {
    type V = PasskeyOutcomeModel;

    open spec fn view(&self) -> PasskeyOutcomeModel {
        PasskeyOutcomeModel {
            site: crate::table::opt_view(self.site),
            has_handle: self.has_handle,
            handle: self.handle@,
            claimed_id: self.claimed_id@,
            verified: self.verified,
            user_verified: self.user_verified,
            raw_id: self.raw_id@,
            counter: self.counter,
            key: crate::text::opt_text(self.key),
        }
    }
}

impl Row for PasskeyOutcome {
    fn dup(&self) -> (r: Self) {
        PasskeyOutcome {
            site: crate::table::dup_opt(&self.site),
            has_handle: self.has_handle,
            handle: crate::text::copy_bytes(&self.handle),
            claimed_id: crate::text::copy_bytes(&self.claimed_id),
            verified: self.verified,
            user_verified: self.user_verified,
            raw_id: crate::text::copy_bytes(&self.raw_id),
            counter: self.counter,
            key: crate::text::copy_opt(&self.key),
        }
    }
}

/// A key that the WebAuthn library accepted.
pub struct NewKey {
    pub raw_id: Vec<u8>,
    pub key: String,
}

/// What a [`NewKey`] holds.
pub struct NewKeyModel {
    pub raw_id: Seq<u8>,
    pub key: Seq<char>,
}

impl View for NewKey {
    type V = NewKeyModel;

    open spec fn view(&self) -> NewKeyModel {
        NewKeyModel {
            raw_id: self.raw_id@,
            key: self.key@,
        }
    }
}

impl Row for NewKey {
    fn dup(&self) -> (r: Self) {
        NewKey {
            raw_id: crate::text::copy_bytes(&self.raw_id),
            key: self.key.clone(),
        }
    }
}

pub open spec fn credential_key_of(raw: Seq<u8>) -> Seq<char> {
    digest_of(base64url_of(raw))
}

pub fn credential_key(raw: &Vec<u8>) -> (r: String)
    ensures
        r@ == credential_key_of(raw@),
{
    let t = base64url(raw.as_slice());
    digest(t.as_str())
}

/// The handle under which authenticators know a user.
pub open spec fn handle_of(user_id: Seq<char>) -> Seq<u8> {
    sha256_of(encode_utf8("riauth.webauthn-user/v1\0"@ + user_id)).take(16)
}

pub fn handle(user_id: &str) -> (r: Vec<u8>)
    ensures
        r@ == handle_of(user_id@),
{
    let t = concat("riauth.webauthn-user/v1\0", user_id);
    let b = utf8_of(t.as_str());
    let h = sha256(b.as_slice());
    assert(h@.subrange(0, 16) =~= h@.take(16));
    bytes_between(&h, 0, 16)
}

/// The passkeys of a user, in the order of their ids.
pub open spec fn keys_of(m: Map<Seq<char>, CredentialModel>, keys: Seq<Seq<char>>, user_id: Seq<char>) -> Seq<
    CredentialModel,
>
    decreases keys.len(),
{
    if keys.len() == 0 {
        Seq::empty()
    } else {
        let rest = keys_of(m, keys.drop_last(), user_id);
        if m[keys.last()].user_id == user_id {
            rest.push(m[keys.last()])
        } else {
            rest
        }
    }
}

pub open spec fn user_keys_of(t: TxModel, user_id: Seq<char>) -> Seq<CredentialModel> {
    keys_of(t.passkeys, in_order(t.passkeys.dom()), user_id)
}

#[verifier::loop_isolation(false)]
pub fn user_keys(tx: &Tx, user_id: &str) -> (r: Vec<Credential>)
    ensures
        views(r@) == user_keys_of(tx@, user_id@),
        r.len() == user_keys_of(tx@, user_id@).len(),
{
    let keys = tx.passkeys.keys();
    let ghost all = in_order(keys@);
    let n: usize = keys.len();
    let mut out: Vec<Credential> = Vec::new();
    let mut i: usize = 0;
    assert(views(out@) =~= Seq::<CredentialModel>::empty());
    while i < n
        invariant
            i <= n,
            views(out@) == keys_of(tx@.passkeys, all.take(i as int), user_id@),
        decreases n - i,
    {
        proof {
            assert(all.take(i + 1).drop_last() =~= all.take(i as int));
        }
        if let Some(c) = tx.passkeys.get(keys.at(i).as_str()) {
            if same(c.user_id.as_str(), user_id) {
                let ghost was = views(out@);
                let x = c.dup();
                let ghost xm = x@;
                out.push(x);
                assert(views(out@) =~= was.push(xm));
            }
        }
        i = i + 1;
    }
    proof {
        assert(all.take(n as int) =~= all);
        assert(views(out@).len() == out.len());
    }
    out
}

/// A member of an object, without those of the inner name.
pub open spec fn cleared(v: JsonModel, key: Seq<char>) -> JsonModel {
    match v {
        JsonModel::Object(m) => JsonModel::Object(m.filter(named_otherwise(key))),
        other => other,
    }
}

/// The value with the member `key` replaced, where it is an object that has it.
pub open spec fn replaced(v: JsonModel, key: Seq<char>, value: JsonModel) -> JsonModel {
    match v {
        JsonModel::Object(m) => JsonModel::Object(with_member(m, key, value)),
        other => other,
    }
}

/// A request as it is sent: without hints, extensions or transports, so that it does not tell how
/// a key was enrolled.
pub open spec fn public_form(v: JsonModel) -> JsonModel {
    let a = cleared(v, "mediation"@);
    match a.member("publicKey"@) {
        None => a,
        Some(options) => {
            let b = cleared(options, "extensions"@);
            replaced(
                a,
                "publicKey"@,
                match b.member("allowCredentials"@) {
                    Some(JsonModel::Array(list)) => replaced(
                        b,
                        "allowCredentials"@,
                        JsonModel::Array(
                            list.map_values(|x: JsonModel| cleared(x, "transports"@)),
                        ),
                    ),
                    _ => b,
                },
            )
        },
    }
}

#[verifier::loop_isolation(false)]
fn clear_transports(list: &Vec<Json>) -> (r: Json)
    ensures
        r@ == JsonModel::Array(
            items_of(list@).map_values(|x: JsonModel| cleared(x, "transports"@)),
        ),
{
    let ghost want = items_of(list@).map_values(|x: JsonModel| cleared(x, "transports"@));
    let mut out: Vec<Json> = Vec::new();
    let mut i: usize = 0;
    assert(items_of(out@) =~= want.take(0));
    while i < list.len()
        invariant
            i <= list.len(),
            items_of(out@) == want.take(i as int),
        decreases list.len() - i,
    {
        assert(items_of(list@)[i as int] == list[i as int]@);
        let mut x = list[i].dup();
        x.remove("transports");
        let ghost was = items_of(out@);
        let ghost xm = x@;
        out.push(x);
        assert(items_of(out@) =~= was.push(xm));
        assert(want.take(i + 1) =~= want.take(i as int).push(xm));
        i = i + 1;
    }
    proof {
        assert(want.take(i as int) =~= want);
        lemma_items_of(out);
    }
    Json::Array(out)
}

pub fn public_request(challenge: &Json) -> (r: Json)
    ensures
        r@ == public_form(challenge@),
{
    let mut v = challenge.dup();
    v.remove("mediation");
    let options = match v.get("publicKey") {
        None => None,
        Some(o) => Some(o.dup()),
    };
    if let Some(o) = options {
        let mut b = o;
        b.remove("extensions");
        let list = match b.get("allowCredentials") {
            Some(Json::Array(l)) => {
                proof {
                    lemma_items_of(*l);
                }
                Some(clear_transports(l))
            },
            _ => None,
        };
        if let Some(l) = list {
            b.set("allowCredentials", l);
        }
        v.set("publicKey", b);
    }
    v
}

proof fn lemma_cleared(v: JsonModel, key: Seq<char>)
    ensures
        cleared(v, key).member(key) is None,
{
    if let JsonModel::Object(m) = v {
        lemma_lookup_without(m, key);
    }
}

/// A challenge as it is sent does not tell how a key was enrolled: it has no mediation and no
/// extensions, and no listed credential has transports.
pub proof fn challenges_tell_no_enrollment(v: JsonModel)
    ensures
        public_form(v).member("mediation"@) is None,
        public_form(v).member("publicKey"@) matches Some(o) ==> o.member("extensions"@) is None && (
        o.member("allowCredentials"@) matches Some(JsonModel::Array(list)) ==> forall|i: int|
            0 <= i < list.len() ==> (#[trigger] list[i]).member("transports"@) is None),
{
    reveal_strlit("mediation");
    reveal_strlit("publicKey");
    reveal_strlit("extensions");
    reveal_strlit("allowCredentials");
    assert("mediation"@[0] != "publicKey"@[0]);
    assert("extensions"@.len() != "allowCredentials"@.len());
    let a = cleared(v, "mediation"@);
    lemma_cleared(v, "mediation"@);
    if let Some(options) = a.member("publicKey"@) {
        let b = cleared(options, "extensions"@);
        lemma_cleared(options, "extensions"@);
        let am = a->Object_0;
        match b.member("allowCredentials"@) {
            Some(JsonModel::Array(list)) => {
                let shown = list.map_values(|x: JsonModel| cleared(x, "transports"@));
                let o = replaced(b, "allowCredentials"@, JsonModel::Array(shown));
                let bm = b->Object_0;
                lemma_lookup_with(
                    bm,
                    "allowCredentials"@,
                    JsonModel::Array(shown),
                    "allowCredentials"@,
                );
                lemma_lookup_with(bm, "allowCredentials"@, JsonModel::Array(shown), "extensions"@);
                lemma_lookup_with(am, "publicKey"@, o, "publicKey"@);
                lemma_lookup_with(am, "publicKey"@, o, "mediation"@);
                assert forall|i: int| 0 <= i < shown.len() implies (#[trigger] shown[i]).member(
                    "transports"@,
                ) is None by {
                    lemma_cleared(list[i], "transports"@);
                }
            },
            _ => {
                lemma_lookup_with(am, "publicKey"@, b, "publicKey"@);
                lemma_lookup_with(am, "publicKey"@, b, "mediation"@);
            },
        }
    }
}

/// The credential that a name without keys is shown: always the same one.
pub open spec fn decoy_id(secret: Seq<char>, username: Seq<char>) -> Seq<char> {
    base64url_of(
        sha256_of(
            encode_utf8("riauth.passkey-decoy/v1\0"@ + secret + "\0"@ + username),
        ),
    )
}

/// The decoy request: the shape of a real one, with the stable credential.
pub open spec fn decoy_form(challenge: JsonModel, secret: Seq<char>, username: Seq<char>) -> JsonModel {
    let a = public_form(challenge);
    match a.member("publicKey"@) {
        None => a,
        Some(options) => replaced(
            a,
            "publicKey"@,
            replaced(
                options,
                "allowCredentials"@,
                JsonModel::Array(
                    seq![
                        JsonModel::Object(
                            seq![
                                ("type"@, JsonModel::Text("public-key"@)),
                                ("id"@, JsonModel::Text(decoy_id(secret, username))),
                            ],
                        ),
                    ],
                ),
            ),
        ),
    }
}

pub fn passkey_decoy(challenge: &Json, secret: &str, username: &str) -> (r: Json)
    ensures
        r@ == decoy_form(challenge@, secret@, username@),
{
    let mut a = public_request(challenge);
    let t = concat3("riauth.passkey-decoy/v1\0", secret, "\0");
    let u = concat(t.as_str(), username);
    let b = utf8_of(u.as_str());
    let h = sha256(b.as_slice());
    let id = base64url(h.as_slice());
    let mut entry: Vec<Member> = Vec::new();
    entry.push(member("type", text("public-key")));
    entry.push(member("id", text(id.as_str())));
    proof {
        lemma_members_of(entry);
        assert(members_of(entry@) =~= seq![
            ("type"@, JsonModel::Text("public-key"@)),
            ("id"@, JsonModel::Text(id@)),
        ]);
    }
    let mut list: Vec<Json> = Vec::new();
    let x = Json::Object(entry);
    let ghost xm = x@;
    list.push(x);
    proof {
        lemma_items_of(list);
        assert(items_of(list@) =~= seq![xm]);
    }
    let options = match a.get("publicKey") {
        None => None,
        Some(o) => Some(o.dup()),
    };
    if let Some(o) = options {
        let mut o = o;
        o.set("allowCredentials", Json::Array(list));
        a.set("publicKey", o);
    }
    a
}

/// The factors of an account may be changed now. `factor` is why the rule on factor sessions refuses,
/// if it does.
pub open spec fn factor_check(
    config: ConfigModel,
    now: u64,
    session: SessionModel,
    factor: Option<Failure>,
) -> Result<(), Failure> {
    if now >= session.identity.auth_time && now - session.identity.auth_time > config.fresh_seconds {
        Err(Failure::Refused("reauthentication_required"@))
    } else if factor is Some {
        Err(factor->0)
    } else {
        Ok(())
    }
}

/// Whether an enrollment may start.
pub open spec fn enrollment_check(
    t: TxModel,
    config: ConfigModel,
    user: UserModel,
    session: SessionModel,
    factor: Option<Failure>,
    rules: RulesModel,
) -> Result<(), Failure> {
    match and_also(
        rule_check(rules, "display name"@),
        factor_check(config, t.now, session, factor),
    ) {
        Err(f) => Err(f),
        Ok(_) => if user_keys_of(t, user.id).len() >= 16 {
            Err(Failure::Conflict("At most sixteen passkeys can be enrolled"@))
        } else {
            Ok(())
        },
    }
}

/// The name of the next enrollment.
pub open spec fn enrollment_name(t: TxModel) -> Seq<char> {
    "ri_passkey_enroll_"@ + next_id(t)
}

/// The store once an enrollment was started.
pub open spec fn registration_started(
    t: TxModel,
    session: SessionModel,
    name: Seq<char>,
    state: Seq<char>,
) -> TxModel {
    TxModel {
        passkey_registration: t.passkey_registration.insert(
            digest_of(enrollment_name(t)),
            RegistrationModel {
                identity: session.identity,
                name,
                expires_at: extended(t.now, 300),
                state,
            },
        ),
        ..drawn(t)
    }
}

impl Core {
    fn check_factor(&self, now: u64, session: &Session, factor: &Option<Error>) -> (r: Result<(), Error>)
        ensures
            agrees(r, factor_check(self@.config, now, session@, opt_failure(*factor))),
    {
        if now.saturating_sub(session.identity.auth_time) > self.config.fresh_seconds {
            return Err(Error::Refused("reauthentication_required".to_owned()));
        }
        match factor {
            Some(e) => Err(copy_error(e)),
            None => Ok(()),
        }
    }

    /// Whether the user may enroll another passkey; the keys that a new one must differ from.
    pub fn passkey_register_check(
        &self,
        tx: &Tx,
        user: &User,
        session: &Session,
        factor: &Option<Error>,
        rules: &Rules,
    ) -> (r: Result<Vec<Credential>, Error>)
        ensures
            match enrollment_check(
                tx@,
                self@.config,
                user@,
                session@,
                opt_failure(*factor),
                rules@,
            ) {
                Ok(_) => r is Ok && views(r->Ok_0@) == user_keys_of(tx@, user@.id),
                Err(f) => fails(r, f),
            },
    {
        if let Err(e) = rules.check_rule("display name") {
            return Err(e);
        }
        if let Err(e) = self.check_factor(tx.now, session, factor) {
            return Err(e);
        }
        let keys = user_keys(tx, user.id.as_str());
        if keys.len() >= 16 {
            return Err(Error::conflict("At most sixteen passkeys can be enrolled"));
        }
        Ok(keys)
    }

    /// Starts an enrollment whose challenge has the private `state`; the ceremony's name.
    pub fn passkey_register_start_with(
        &self,
        tx: &mut Tx,
        user: &User,
        session: &Session,
        name: &str,
        state: &str,
        factor: &Option<Error>,
        rules: &Rules,
    ) -> (r: Result<String, Error>)
        ensures
            match enrollment_check(
                old(tx)@,
                self@.config,
                user@,
                session@,
                opt_failure(*factor),
                rules@,
            ) {
                Err(f) => fails(r, f) && final(tx)@ == old(tx)@,
                Ok(_) => r is Ok && r->Ok_0@ == enrollment_name(old(tx)@) && final(tx)@
                    == registration_started(old(tx)@, session@, name@, state@),
            },
    {
        if let Err(e) = self.passkey_register_check(tx, user, session, factor, rules) {
            return Err(e);
        }
        let ceremony = tx.random_token("ri_passkey_enroll_");
        let key = digest(ceremony.as_str());
        tx.passkey_registration.put(
            key.as_str(),
            Registration {
                identity: session.identity.dup(),
                name: name.to_owned(),
                expires_at: tx.now.saturating_add(300),
                state: state.to_owned(),
            },
        );
        Ok(ceremony)
    }
}

/// The enrollment that the user started in this session.
pub open spec fn pending_registration(
    t: TxModel,
    user: UserModel,
    session: SessionModel,
    ceremony: Seq<char>,
) -> Option<RegistrationModel> {
    let key = digest_of(ceremony);
    if t.passkey_registration.dom().contains(key) && t.passkey_registration[key].expires_at > t.now
        && t.passkey_registration[key].identity.user_id == user.id
        && t.passkey_registration[key].identity.session_id == session.id
        && t.passkey_registration[key].identity.epoch == user.epoch {
        Some(t.passkey_registration[key])
    } else {
        None
    }
}

/// The user with a new epoch, which ends their sessions, and their relying parties told.
pub open spec fn factors_changed(t: TxModel, user: UserModel, has_passkeys: bool) -> TxModel {
    queued(
        TxModel {
            users: t.users.insert(
                user.id,
                UserModel { has_passkeys, epoch: extended(user.epoch, 1), ..user },
            ),
            ..t
        },
        SelectionModel::User(user.id),
    )
}

/// What the end of an enrollment does. Once the ceremony is found it is used up.
pub open spec fn enrolled_passkey(
    t: TxModel,
    user: UserModel,
    session: SessionModel,
    ceremony: Seq<char>,
    key: Option<NewKeyModel>,
) -> (TxModel, Result<CredentialModel, Failure>) {
    match pending_registration(t, user, session, ceremony) {
        None => (t, Err(Failure::Unauthorized)),
        Some(pending) => if user_keys_of(t, user.id).len() >= 16 {
            (t, Err(Failure::Conflict("Passkey limit reached"@)))
        } else {
            let u = TxModel {
                passkey_registration: t.passkey_registration.remove(digest_of(ceremony)),
                ..t
            };
            match key {
                None => (
                    u,
                    Err(Failure::Bad("Passkey registration verification failed"@)),
                ),
                Some(k) => {
                    let id = credential_key_of(k.raw_id);
                    if u.passkeys.dom().contains(id) {
                        (u, Err(Failure::Conflict("Credential is already enrolled"@)))
                    } else {
                        let c = CredentialModel {
                            id,
                            user_id: user.id,
                            name: pending.name,
                            created_at: t.now,
                            counter: 0,
                            key: k.key,
                        };
                        (
                            audited(
                                factors_changed(
                                    TxModel { passkeys: u.passkeys.insert(id, c), ..u },
                                    user,
                                    true,
                                ),
                                user.id,
                                "passkey.enroll"@,
                                id,
                            ),
                            Ok(c),
                        )
                    }
                },
            }
        },
    }
}

fn change_factors(tx: &mut Tx, user: &User, has_passkeys: bool)
    ensures
        final(tx)@ == factors_changed(old(tx)@, user@, has_passkeys),
{
    let mut u = user.dup();
    u.has_passkeys = has_passkeys;
    u.epoch = u.epoch.saturating_add(1);
    tx.users.put(user.id.as_str(), u);
    queue_user(tx, user.id.as_str());
}

impl Core {
    /// The private state of the enrollment that the user started.
    pub fn passkey_register_state(&self, tx: &Tx, user: &User, session: &Session, ceremony: &str) -> (r: Option<
        Registration,
    >)
        ensures
            opt_view(r) == pending_registration(tx@, user@, session@, ceremony@),
    {
        let key = digest(ceremony);
        match tx.passkey_registration.get(key.as_str()) {
            None => None,
            Some(p) => {
                if p.expires_at > tx.now && same(p.identity.user_id.as_str(), user.id.as_str())
                    && same(p.identity.session_id.as_str(), session.id.as_str())
                    && p.identity.epoch == user.epoch {
                    Some(p.dup())
                } else {
                    None
                }
            },
        }
    }

    /// Ends an enrollment. `key` is the key that the WebAuthn library accepted, if it did.
    pub fn passkey_register_finish_with(
        &self,
        tx: &mut Tx,
        user: &User,
        session: &Session,
        ceremony: &str,
        key: &Option<NewKey>,
    ) -> (r: Result<Credential, Error>)
        ensures
            ({
                let out = enrolled_passkey(
                    old(tx)@,
                    user@,
                    session@,
                    ceremony@,
                    opt_view(*key),
                );
                final(tx)@ == out.0 && agrees_with(r, out.1)
            }),
    {
        let pending = match self.passkey_register_state(tx, user, session, ceremony) {
            None => return Err(Error::Unauthorized),
            Some(p) => p,
        };
        let keys = user_keys(tx, user.id.as_str());
        if keys.len() >= 16 {
            return Err(Error::conflict("Passkey limit reached"));
        }
        let hash = digest(ceremony);
        tx.passkey_registration.delete(hash.as_str());
        let k = match key {
            None => return Err(Error::bad("Passkey registration verification failed")),
            Some(k) => k,
        };
        let id = credential_key(&k.raw_id);
        if tx.passkeys.has(id.as_str()) {
            return Err(Error::conflict("Credential is already enrolled"));
        }
        let c = Credential {
            id: id.clone(),
            user_id: user.id.clone(),
            name: pending.name,
            created_at: tx.now,
            counter: 0,
            key: k.key.clone(),
        };
        tx.passkeys.put(id.as_str(), c.dup());
        change_factors(tx, user, true);
        audit(tx, user.id.as_str(), "passkey.enroll", id.as_str());
        Ok(c)
    }
}

/// An enrollment ends with its first answer: a second one is refused and changes nothing, unless the
/// first was refused because the user has as many passkeys as they can have.
pub proof fn enrollments_are_answered_once(
    t: TxModel,
    user: UserModel,
    session: SessionModel,
    ceremony: Seq<char>,
    key: Option<NewKeyModel>,
    now_user: UserModel,
    now_session: SessionModel,
    second: Option<NewKeyModel>,
)
    requires
        user_keys_of(t, user.id).len() < 16,
        pending_registration(t, user, session, ceremony) is Some,
    ensures
        ({
            let u = enrolled_passkey(t, user, session, ceremony, key).0;
            enrolled_passkey(u, now_user, now_session, ceremony, second) == (
                u,
                Err::<CredentialModel, Failure>(Failure::Unauthorized),
            )
        }),
{
    let id = match key {
        Some(k) => credential_key_of(k.raw_id),
        None => Seq::empty(),
    };
    let base = TxModel {
        passkey_registration: t.passkey_registration.remove(digest_of(ceremony)),
        ..t
    };
    let c = CredentialModel {
        id,
        user_id: user.id,
        name: pending_registration(t, user, session, ceremony)->0.name,
        created_at: t.now,
        counter: 0,
        key: (key->0).key,
    };
    let w = TxModel { passkeys: base.passkeys.insert(id, c), ..base };
    let v = TxModel {
        users: w.users.insert(
            user.id,
            UserModel { has_passkeys: true, epoch: extended(user.epoch, 1), ..user },
        ),
        ..w
    };
    lemma_queue_keeps_registrations(v, in_order(v.rp_sessions.dom()), SelectionModel::User(user.id));
}

proof fn lemma_queue_keeps_registrations(t: TxModel, keys: Seq<Seq<char>>, s: SelectionModel)
    ensures
        ended_all(t, keys, s).passkey_registration == t.passkey_registration,
    decreases keys.len(),
{
    if keys.len() > 0 {
        lemma_queue_keeps_registrations(t, keys.drop_last(), s);
    }
}

/// What the removal of a passkey does.
pub open spec fn passkey_removed(
    t: TxModel,
    config: ConfigModel,
    user: UserModel,
    session: SessionModel,
    factor: Option<Failure>,
    id: Seq<char>,
) -> (TxModel, Result<(), Failure>) {
    match factor_check(config, t.now, session, factor) {
        Err(f) => (t, Err(f)),
        Ok(_) => if !t.passkeys.dom().contains(id) || t.passkeys[id].user_id != user.id {
            (t, Err(Failure::Missing("Passkey not found"@)))
        } else {
            let count = user_keys_of(t, user.id).len();
            if count == 1 && user.password_hash.len() == 0 {
                (
                    t,
                    Err(
                        Failure::Conflict(
                            "Establish another local credential before removing the last passkey"@,
                        ),
                    ),
                )
            } else {
                (
                    audited(
                        factors_changed(
                            TxModel { passkeys: t.passkeys.remove(id), ..t },
                            user,
                            count > 1,
                        ),
                        user.id,
                        "passkey.remove"@,
                        t.passkeys[id].id,
                    ),
                    Ok(()),
                )
            }
        },
    }
}

impl Core {
    pub fn passkey_remove(
        &self,
        tx: &mut Tx,
        user: &User,
        session: &Session,
        factor: &Option<Error>,
        id: &str,
    ) -> (r: Result<(), Error>)
        ensures
            ({
                let out = passkey_removed(
                    old(tx)@,
                    self@.config,
                    user@,
                    session@,
                    opt_failure(*factor),
                    id@,
                );
                final(tx)@ == out.0 && agrees(r, out.1)
            }),
    {
        if let Err(e) = self.check_factor(tx.now, session, factor) {
            return Err(e);
        }
        let shown = match tx.passkeys.get(id) {
            None => return Err(Error::missing("Passkey not found")),
            Some(c) => {
                if !same(c.user_id.as_str(), user.id.as_str()) {
                    return Err(Error::missing("Passkey not found"));
                }
                c.id.clone()
            },
        };
        let count = user_keys(tx, user.id.as_str()).len();
        if count == 1 && user.password_hash.as_str().is_empty() {
            return Err(
                Error::conflict(
                    "Establish another local credential before removing the last passkey",
                ),
            );
        }
        tx.passkeys.delete(id);
        change_factors(tx, user, count > 1);
        audit(tx, user.id.as_str(), "passkey.remove", shown.as_str());
        Ok(())
    }
}

/// The last way to log in is never removed: an account without a password keeps a passkey.
pub proof fn the_last_credential_stays(
    t: TxModel,
    config: ConfigModel,
    user: UserModel,
    session: SessionModel,
    factor: Option<Failure>,
    id: Seq<char>,
)
    requires
        passkey_removed(t, config, user, session, factor, id).1 is Ok,
    ensures
        user.password_hash.len() > 0 || user_keys_of(t, user.id).len() != 1,
        t.passkeys[id].user_id == user.id,
{
}

/// Removes every passkey of a user.
pub fn clear(tx: &mut Tx, user_id: &str)
    ensures
        final(tx)@ == (TxModel {
            passkeys: old(tx)@.passkeys.remove_keys(
                old(tx)@.passkeys.dom().filter(
                    |k: Seq<char>| old(tx)@.passkeys[k].user_id == user_id@,
                ),
            ),
            ..old(tx)@
        }),
{
    let keys = find_keys(&tx.passkeys, user_id);
    tx.passkeys.remove_all(&keys);
}

#[verifier::loop_isolation(false)]
fn find_keys(table: &Table<Credential>, user_id: &str) -> (r: Names)
    ensures
        r@ == table@.dom().filter(|k: Seq<char>| table@[k].user_id == user_id@),
{
    let keys = table.keys();
    keys.listing();
    let ghost all = in_order(keys@);
    let ghost q = |k: Seq<char>| table@[k].user_id == user_id@;
    let n: usize = keys.len();
    let mut out = Names::new();
    let mut i: usize = 0;
    assert(all.take(0).to_set().filter(q) =~= Set::<Seq<char>>::empty());
    while i < n
        invariant
            i <= n,
            out@ == all.take(i as int).to_set().filter(q),
        decreases n - i,
    {
        let key = keys.at(i).as_str();
        proof {
            lemma_take_set(all, i as int);
        }
        if let Some(c) = table.get(key) {
            if same(c.user_id.as_str(), user_id) {
                out.insert(key);
            }
        }
        assert(out@ =~= all.take(i + 1).to_set().filter(q));
        i = i + 1;
    }
    proof {
        assert(all.take(n as int) =~= all);
        assert(all.to_set() =~= keys@);
    }
    out
}

pub open spec fn registration_over(at: u64) -> spec_fn(RegistrationModel) -> bool {
    |p: RegistrationModel| p.expires_at <= at
}

pub open spec fn authentication_over(at: u64) -> spec_fn(AuthenticationModel) -> bool {
    |p: AuthenticationModel| p.expires_at <= at
}

fn is_registration_over(p: &Registration, at: u64) -> (b: bool)
    ensures
        b == registration_over(at)(p@),
{
    p.expires_at <= at
}

fn is_authentication_over(p: &Authentication, at: u64) -> (b: bool)
    ensures
        b == authentication_over(at)(p@),
{
    p.expires_at <= at
}

/// Drops ceremonies that expired.
pub fn cleanup(tx: &mut Tx, at: u64)
    ensures
        final(tx)@ == (TxModel {
            passkey_registration: without(old(tx)@.passkey_registration, registration_over(at)),
            passkey_authentication: without(
                old(tx)@.passkey_authentication,
                authentication_over(at),
            ),
            ..old(tx)@
        }),
{
    tx.passkey_registration.purge(at, is_registration_over, Ghost(registration_over(at)));
    tx.passkey_authentication.purge(at, is_authentication_over, Ghost(authentication_over(at)));
}

/// A key that was registered in the ceremony of this session is kept for its user, under the name that
/// was given; from then on the user has a second factor and what was issued before stands no longer.
pub proof fn enrolled_passkeys_belong_to_their_user(
    t: TxModel,
    user: UserModel,
    session: SessionModel,
    ceremony: Seq<char>,
    key: NewKeyModel,
)
    requires
        t.passkey_registration.dom().contains(digest_of(ceremony)),
        t.passkey_registration[digest_of(ceremony)].expires_at > t.now,
        t.passkey_registration[digest_of(ceremony)].identity.user_id == user.id,
        t.passkey_registration[digest_of(ceremony)].identity.session_id == session.id,
        t.passkey_registration[digest_of(ceremony)].identity.epoch == user.epoch,
        user_keys_of(t, user.id).len() < 16,
        !t.passkeys.dom().contains(credential_key_of(key.raw_id)),
        user.epoch < u64::MAX,
    ensures
        ({
            let out = enrolled_passkey(t, user, session, ceremony, Some(key));
            let c = out.1->Ok_0;
            &&& out.1 is Ok
            &&& c.user_id == user.id && c.key == key.key && c.counter == 0 && c.created_at == t.now
            &&& c.name == t.passkey_registration[digest_of(ceremony)].name
            &&& c.id == digest_of(base64url_of(key.raw_id))
            &&& out.0.passkeys == t.passkeys.insert(c.id, c)
            &&& out.0.users[user.id] == (UserModel {
                has_passkeys: true,
                epoch: (user.epoch + 1) as u64,
                ..user
            })
            &&& forall|k: Seq<char>| k != user.id ==> #[trigger] out.0.users[k] == t.users[k]
            &&& !out.0.passkey_registration.dom().contains(digest_of(ceremony))
        }),
{
    let u = TxModel {
        passkey_registration: t.passkey_registration.remove(digest_of(ceremony)),
        ..t
    };
    let id = credential_key_of(key.raw_id);
    let c = CredentialModel {
        id,
        user_id: user.id,
        name: t.passkey_registration[digest_of(ceremony)].name,
        created_at: t.now,
        counter: 0,
        key: key.key,
    };
    lemma_queued_keeps_keys(
        TxModel {
            passkeys: u.passkeys.insert(id, c),
            users: u.users.insert(
                user.id,
                UserModel { has_passkeys: true, epoch: extended(user.epoch, 1), ..user },
            ),
            ..u
        },
        SelectionModel::User(user.id),
    );
}

proof fn lemma_queued_keeps_keys(t: TxModel, s: SelectionModel)
    ensures
        queued(t, s).users == t.users,
        queued(t, s).passkeys == t.passkeys,
        queued(t, s).passkey_registration == t.passkey_registration,
{
    lemma_ended_all_keeps_keys(t, in_order(t.rp_sessions.dom()), s);
}

proof fn lemma_ended_all_keeps_keys(t: TxModel, keys: Seq<Seq<char>>, s: SelectionModel)
    ensures
        ended_all(t, keys, s).users == t.users,
        ended_all(t, keys, s).passkeys == t.passkeys,
        ended_all(t, keys, s).passkey_registration == t.passkey_registration,
    decreases keys.len(),
{
    if keys.len() > 0 {
        lemma_ended_all_keeps_keys(t, keys.drop_last(), s);
    }
}

/// Who registers a key has five minutes, in the session that asked for it.
pub proof fn registrations_are_for_their_session(
    t: TxModel,
    session: SessionModel,
    name: Seq<char>,
    state: Seq<char>,
)
    requires
        t.now + 300 <= u64::MAX,
    ensures
        ({
            let u = registration_started(t, session, name, state);
            let p = u.passkey_registration[digest_of("ri_passkey_enroll_"@ + next_id(t))];
            &&& u.passkey_registration.dom().contains(
                digest_of("ri_passkey_enroll_"@ + next_id(t)),
            )
            &&& p.identity == session.identity && p.name == name && p.state == state
            &&& p.expires_at == t.now + 300
        }),
{
}

/// A user removes a key of their own after a fresh login, unless it is the last way in. Every other key
/// stays, and what was issued before stands no longer.
pub proof fn users_remove_their_own_passkeys(
    t: TxModel,
    config: ConfigModel,
    user: UserModel,
    session: SessionModel,
    id: Seq<char>,
)
    requires
        t.passkeys.dom().contains(id),
        session.identity.auth_time <= t.now,
        user.epoch < u64::MAX,
    ensures
        ({
            let out = passkey_removed(t, config, user, session, None, id);
            let n = user_keys_of(t, user.id).len();
            &&& out.1 is Ok <==> {
                &&& t.now - session.identity.auth_time <= config.fresh_seconds
                &&& t.passkeys[id].user_id == user.id
                &&& n != 1 || user.password_hash.len() > 0
            }
            &&& out.1 is Ok ==> out.0.passkeys == t.passkeys.remove(id) && out.0.users[user.id]
                == (UserModel { has_passkeys: n > 1, epoch: (user.epoch + 1) as u64, ..user })
            &&& out.1 is Err ==> out.0 == t
        }),
{
    let n = user_keys_of(t, user.id).len();
    lemma_queued_keeps_keys(
        TxModel {
            passkeys: t.passkeys.remove(id),
            users: t.users.insert(
                user.id,
                UserModel { has_passkeys: n > 1, epoch: extended(user.epoch, 1), ..user },
            ),
            ..t
        },
        SelectionModel::User(user.id),
    );
}

/// The keys of a user are those that are kept for them.
pub proof fn keys_are_listed_by_their_owner(t: TxModel, user_id: Seq<char>, c: CredentialModel)
    requires
        t.passkeys.dom().finite(),
    ensures
        user_keys_of(t, user_id).contains(c) <==> c.user_id == user_id && exists|k: Seq<char>| #[trigger]
            t.passkeys.dom().contains(k) && t.passkeys[k] == c,
{
    finite_sets_are_listed(t.passkeys.dom());
    let list = in_order(t.passkeys.dom());
    lemma_keys_of(t.passkeys, list, user_id, c);
    if exists|k: Seq<char>| #[trigger] t.passkeys.dom().contains(k) && t.passkeys[k] == c {
        let k = choose|k: Seq<char>| #[trigger] t.passkeys.dom().contains(k) && t.passkeys[k] == c;
        assert(list.to_set().contains(k));
        assert(list.contains(k));
        let i = list.index_of(k);
        assert(t.passkeys[list[i]] == c);
    }
    if exists|i: int| 0 <= i < list.len() && t.passkeys[#[trigger] list[i]] == c {
        let i = choose|i: int| 0 <= i < list.len() && t.passkeys[#[trigger] list[i]] == c;
        assert(list.to_set().contains(list[i]));
        assert(t.passkeys.dom().contains(list[i]));
    }
}

proof fn lemma_keys_of(
    m: Map<Seq<char>, CredentialModel>,
    keys: Seq<Seq<char>>,
    user_id: Seq<char>,
    c: CredentialModel,
)
    ensures
        keys_of(m, keys, user_id).contains(c) <==> c.user_id == user_id && exists|i: int|
            0 <= i < keys.len() && m[#[trigger] keys[i]] == c,
    decreases keys.len(),
{
    if keys.len() > 0 {
        let front = keys.drop_last();
        let rest = keys_of(m, front, user_id);
        lemma_keys_of(m, front, user_id, c);
        let all = keys_of(m, keys, user_id);
        if rest.contains(c) {
            let j = rest.index_of(c);
            assert(all[j] == c);
            let i = choose|i: int| 0 <= i < front.len() && m[#[trigger] front[i]] == c;
            assert(keys[i] == front[i]);
        }
        if all.contains(c) && !rest.contains(c) {
            let j = all.index_of(c);
            if j < rest.len() {
                assert(rest[j] == c);
            }
            assert(m[keys[keys.len() - 1]] == c);
        }
        if c.user_id == user_id && exists|i: int| 0 <= i < keys.len() && m[#[trigger] keys[i]] == c {
            let i = choose|i: int| 0 <= i < keys.len() && m[#[trigger] keys[i]] == c;
            if i < front.len() {
                assert(front[i] == keys[i]);
            } else {
                assert(all[rest.len() as int] == c);
            }
        }
    }
}

/// Ceremonies that are over are forgotten.
pub proof fn old_ceremonies_are_forgotten(t: TxModel, at: u64, k: Seq<char>)
    ensures
        without(t.passkey_registration, registration_over(at)).dom().contains(k)
            <==> t.passkey_registration.dom().contains(k) && t.passkey_registration[k].expires_at > at,
        without(t.passkey_authentication, authentication_over(at)).dom().contains(k)
            <==> t.passkey_authentication.dom().contains(k) && t.passkey_authentication[k].expires_at > at,
{
    purges_leave_what_does_not_match(t.passkey_registration, registration_over(at), k);
    purges_leave_what_does_not_match(t.passkey_authentication, authentication_over(at), k);
}

/// A decoy offers one key, which is the same every time for a name and tells nothing of it.
pub proof fn decoys_offer_one_key(challenge: JsonModel, secret: Seq<char>, username: Seq<char>)
    requires
        public_form(challenge) is Object,
        public_form(challenge).member("publicKey"@) matches Some(JsonModel::Object(_)),
    ensures
        ({
            let options = decoy_form(challenge, secret, username).member("publicKey"@)->0;
            &&& decoy_form(challenge, secret, username).member("publicKey"@) is Some
            &&& options.member("allowCredentials"@) matches Some(JsonModel::Array(v)) && v.len() == 1
                && v[0].member("type"@) == Some(JsonModel::Text("public-key"@)) && v[0].member("id"@) == Some(
                JsonModel::Text(decoy_id(secret, username)),
            )
        }),
{
    reveal_with_fuel(crate::json::lookup, 3);
    reveal_strlit("type");
    reveal_strlit("id");
    assert("type"@.len() == 4 && "id"@.len() == 2);
    let a = public_form(challenge);
    let options = a.member("publicKey"@)->0;
    let one = JsonModel::Object(
        seq![
            ("type"@, JsonModel::Text("public-key"@)),
            ("id"@, JsonModel::Text(decoy_id(secret, username))),
        ],
    );
    let offered = JsonModel::Array(seq![one]);
    assert(one.member("type"@) == Some(JsonModel::Text("public-key"@)));
    assert(one.member("id"@) == Some(JsonModel::Text(decoy_id(secret, username))));
    a_member_that_is_set_is_found(
        options->Object_0,
        "allowCredentials"@,
        offered,
        "allowCredentials"@,
    );
    a_member_that_is_set_is_found(
        a->Object_0,
        "publicKey"@,
        replaced(options, "allowCredentials"@, offered),
        "publicKey"@,
    );
}

/// A second factor is changed within the time that a login counts as fresh, and if nothing else speaks
/// against it.
pub proof fn factors_are_changed_after_a_fresh_login(
    config: ConfigModel,
    now: u64,
    session: SessionModel,
    factor: Option<Failure>,
)
    requires
        session.identity.auth_time <= now,
    ensures
        factor_check(config, now, session, factor) is Ok <==> now - session.identity.auth_time
            <= config.fresh_seconds && factor is None,
{
}

} // verus!
