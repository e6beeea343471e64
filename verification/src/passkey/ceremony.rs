//! The WebAuthn ceremonies. What the WebAuthn library keeps of them is carried as JSON text.
use crate::engine::{ConfigModel, Core};
use crate::error::{Error, Failure, agrees_with, fails, opt_failure};
use crate::json::{Json, JsonModel, Member, a_member_that_is_set_is_found, lemma_members_of, member, members_of, text};
use crate::model::{Session, SessionModel, User, UserModel};
use crate::outside::{digest, digest_of, parse_url, url_of};
use crate::passkey::{Authentication, AuthenticationModel, Credential, CredentialModel, NewKey, NewKeyModel, PasskeyOutcome, PasskeyOutcomeModel, credential_key, credential_key_of, enrolled_passkey, enrollment_check, enrollment_name, handle, pending_registration, registration_started, replaced, user_keys, user_keys_of};
use crate::passkey::login::{StagedLogin, browser_keys, browser_login_finished, browser_login_started, browser_passkey_keys, enabled_user, login_finished, login_started, passkey_login_keys};
use crate::rules::{Rules, RulesModel, name_check};
use crate::store::{Tx, TxModel};
use crate::table::{Row, opt_view, views};
use crate::text::{copy_bytes, has_suffix, opt_text, texts};
use crate::mtls::{LoginReply, LoginReplyModel};
use vstd::prelude::*;
use vstd::string::*;
use serde_json::{from_str, to_string};
use url::Url;
use webauthn_rs::prelude::{Passkey, PublicKeyCredential, Uuid};
use webauthn_rs::WebauthnBuilder;

verus! {

/// The site that credentials are scoped to.
pub struct RelyingParty {
    pub id: String,
    pub origin: String,
    pub name: String,
}

/// What a [`RelyingParty`] holds.
pub struct RelyingPartyModel {
    pub id: Seq<char>,
    pub origin: Seq<char>,
    pub name: Seq<char>,
}

impl View for RelyingParty {
    type V = RelyingPartyModel;

    open spec fn view(&self) -> RelyingPartyModel {
        RelyingPartyModel {
            id: self.id@,
            origin: self.origin@,
            name: self.name@,
        }
    }
}

impl Row for RelyingParty {
    fn dup(&self) -> (r: Self) {
        RelyingParty {
            id: self.id.clone(),
            origin: self.origin.clone(),
            name: self.name.clone(),
        }
    }
}

/// Whether a name and an origin make a relying party: the origin is at the domain of that name, or
/// below it.
pub open spec fn site_valid(id: Seq<char>, origin: Seq<char>) -> bool {
    url_of(origin) matches Some(u) && (u.domain matches Some(d) && (d == id || has_suffix(d, "."@ + id)))
}

/// `WebauthnBuilder::new` of the webauthn-rs crate: whether it takes the name and the origin. It asks
/// that the origin parses and that its domain is the name or ends in a dot and the name.
#[verifier::external_body]
fn site_ok(id: &str, origin: &str) -> (r: bool)
    ensures
        r == site_valid(id@, origin@),
{
    Url::parse(origin).is_ok_and(|url| WebauthnBuilder::new(id, &url).is_ok())
}

/// What the issuer's origin gives as a relying party.
pub open spec fn relying_party_of(issuer: Seq<char>) -> Result<RelyingPartyModel, Failure> {
    match url_of(issuer) {
        None => Err(Failure::Internal("issuer"@)),
        Some(u) => match u.host {
            None => Err(Failure::Bad("WebAuthn RP host missing"@)),
            Some(host) => if site_valid(host, u.origin) {
                Ok(RelyingPartyModel { id: host, origin: u.origin, name: "riAuth"@ })
            } else {
                Err(Failure::Bad("Invalid WebAuthn relying-party origin"@))
            },
        },
    }
}

/// The relying party of an issuer.
pub fn webauthn(issuer: &str) -> (r: Result<RelyingParty, Error>)
    ensures
        agrees_with(r, relying_party_of(issuer@)),
{
    let url = match parse_url(issuer) {
        None => return Err(Error::internal("issuer")),
        Some(u) => u,
    };
    match url.host {
        None => Err(Error::bad("WebAuthn RP host missing")),
        Some(host) => {
            if site_ok(host.as_str(), url.origin.as_str()) {
                Ok(RelyingParty { id: host, origin: url.origin, name: "riAuth".to_owned() })
            } else {
                Err(Error::bad("Invalid WebAuthn relying-party origin"))
            }
        },
    }
}

/// A challenge for the browser and what the server keeps of it, both as JSON text.
pub struct Challenge {
    pub challenge: String,
    pub state: String,
}

/// What a [`Challenge`] holds.
pub struct ChallengeModel {
    pub challenge: Seq<char>,
    pub state: Seq<char>,
}

impl View for Challenge {
    type V = ChallengeModel;

    open spec fn view(&self) -> ChallengeModel {
        ChallengeModel {
            challenge: self.challenge@,
            state: self.state@,
        }
    }
}

impl Row for Challenge {
    fn dup(&self) -> (r: Self) {
        Challenge {
            challenge: self.challenge.clone(),
            state: self.state.clone(),
        }
    }
}

/// `Webauthn::start_passkey_registration` of the webauthn-rs crate, which draws a random challenge:
/// nothing is promised of it. A handle of other than 16 bytes and a key that does not parse give
/// `None`.
#[verifier::external_body]
fn begin_registration(rp: &RelyingParty, handle: &Vec<u8>, username: &str, display: &str, keys: &Vec<String>) -> (r: Option<Challenge>) {
    let origin = Url::parse(&rp.origin).ok()?;
    let site = WebauthnBuilder::new(&rp.id, &origin).ok()?.rp_name(&rp.name).build().ok()?;
    let keys: Vec<Passkey> = keys.iter().map(|k| from_str(k)).collect::<Result<_, _>>().ok()?;
    let excluded = keys.iter().map(|k| k.cred_id().clone()).collect();
    let (challenge, state) = site.start_passkey_registration(Uuid::from_slice(handle).ok()?, username, display, Some(excluded)).ok()?;
    Some(Challenge { challenge: to_string(&challenge).ok()?, state: to_string(&state).ok()? })
}

/// `Webauthn::start_passkey_authentication` of the webauthn-rs crate, which draws a random
/// challenge: nothing is promised of it.
#[verifier::external_body]
fn begin_authentication(rp: &RelyingParty, keys: &Vec<String>) -> (r: Option<Challenge>) {
    let origin = Url::parse(&rp.origin).ok()?;
    let site = WebauthnBuilder::new(&rp.id, &origin).ok()?.rp_name(&rp.name).build().ok()?;
    let keys: Vec<Passkey> = keys.iter().map(|k| from_str(k)).collect::<Result<_, _>>().ok()?;
    let (challenge, state) = site.start_passkey_authentication(&keys).ok()?;
    Some(Challenge { challenge: to_string(&challenge).ok()?, state: to_string(&state).ok()? })
}

/// `Webauthn::start_discoverable_authentication` of the webauthn-rs crate, which draws a random
/// challenge: nothing is promised of it.
#[verifier::external_body]
fn begin_discoverable(rp: &RelyingParty) -> (r: Option<Challenge>) {
    let origin = Url::parse(&rp.origin).ok()?;
    let site = WebauthnBuilder::new(&rp.id, &origin).ok()?.rp_name(&rp.name).build().ok()?;
    let (challenge, state) = site.start_discoverable_authentication().ok()?;
    Some(Challenge { challenge: to_string(&challenge).ok()?, state: to_string(&state).ok()? })
}

/// The key that a response to an enrollment brings, or `None` where it does not verify.
pub uninterp spec fn registered_key(
    rp: RelyingPartyModel,
    response: Seq<char>,
    state: Seq<char>,
) -> Option<NewKeyModel>;

/// `Webauthn::finish_passkey_registration` of the webauthn-rs crate: the response against the kept
/// state. Its result is decided by its arguments.
#[verifier::external_body]
fn finish_registration(rp: &RelyingParty, response: &str, state: &str) -> (r: Option<NewKey>)
    ensures
        opt_view(r) == registered_key(rp@, response@, state@),
{
    let origin = Url::parse(&rp.origin).ok()?;
    let site = WebauthnBuilder::new(&rp.id, &origin).ok()?.rp_name(&rp.name).build().ok()?;
    let response = from_str(response).ok()?;
    let state = from_str(state).ok()?;
    let key = site.finish_passkey_registration(&response, &state).ok()?;
    Some(NewKey { raw_id: key.cred_id().to_vec(), key: to_string(&key).ok()? })
}

/// What a response says of itself.
pub struct ResponseParts {
    pub has_handle: bool,
    pub handle: Vec<u8>,
    pub raw_id: Vec<u8>,
}

/// What a [`ResponseParts`] holds.
pub struct ResponsePartsModel {
    pub has_handle: bool,
    pub handle: Seq<u8>,
    pub raw_id: Seq<u8>,
}

impl View for ResponseParts {
    type V = ResponsePartsModel;

    open spec fn view(&self) -> ResponsePartsModel {
        ResponsePartsModel {
            has_handle: self.has_handle,
            handle: self.handle@,
            raw_id: self.raw_id@,
        }
    }
}

impl Row for ResponseParts {
    fn dup(&self) -> (r: Self) {
        ResponseParts {
            has_handle: self.has_handle,
            handle: crate::text::copy_bytes(&self.handle),
            raw_id: crate::text::copy_bytes(&self.raw_id),
        }
    }
}

/// What a response says of itself, or `None` where it is malformed.
pub uninterp spec fn response_of(response: Seq<char>) -> Option<ResponsePartsModel>;

/// `PublicKeyCredential` of the webauthn-rs crate, parsed: `get_user_unique_id` and
/// `get_credential_id`.
#[verifier::external_body]
fn read_response(response: &str) -> (r: Option<ResponseParts>)
    ensures
        opt_view(r) == response_of(response@),
{
    let response: PublicKeyCredential = from_str(response).ok()?;
    let handle = response.get_user_unique_id();
    let raw_id = response.get_credential_id().to_vec();
    Some(ResponseParts { has_handle: handle.is_some(), handle: handle.unwrap_or_default().to_vec(), raw_id })
}

/// What a verified response proves. `result` is what a key is updated with.
pub struct Possession {
    pub user_verified: bool,
    pub raw_id: Vec<u8>,
    pub counter: u32,
    pub result: String,
}

/// What a [`Possession`] holds.
pub struct PossessionModel {
    pub user_verified: bool,
    pub raw_id: Seq<u8>,
    pub counter: u32,
    pub result: Seq<char>,
}

impl View for Possession {
    type V = PossessionModel;

    open spec fn view(&self) -> PossessionModel {
        PossessionModel {
            user_verified: self.user_verified,
            raw_id: self.raw_id@,
            counter: self.counter,
            result: self.result@,
        }
    }
}

impl Row for Possession {
    fn dup(&self) -> (r: Self) {
        Possession {
            user_verified: self.user_verified,
            raw_id: crate::text::copy_bytes(&self.raw_id),
            counter: self.counter,
            result: self.result.clone(),
        }
    }
}

/// What a response to a login with the user's keys proves, or `None` where it does not verify.
pub uninterp spec fn possession_shown(
    rp: RelyingPartyModel,
    response: Seq<char>,
    state: Seq<char>,
) -> Option<PossessionModel>;

/// `Webauthn::finish_passkey_authentication` of the webauthn-rs crate: the response against the kept
/// state. Its result is decided by its arguments.
#[verifier::external_body]
fn finish_authentication(rp: &RelyingParty, response: &str, state: &str) -> (r: Option<Possession>)
    ensures
        opt_view(r) == possession_shown(rp@, response@, state@),
{
    let origin = Url::parse(&rp.origin).ok()?;
    let site = WebauthnBuilder::new(&rp.id, &origin).ok()?.rp_name(&rp.name).build().ok()?;
    let response = from_str(response).ok()?;
    let state = from_str(state).ok()?;
    let r = site.finish_passkey_authentication(&response, &state).ok()?;
    let result = to_string(&r).ok()?;
    Some(Possession { user_verified: r.user_verified(), raw_id: r.cred_id().to_vec(), counter: r.counter(), result })
}

/// What a response in which the credential names its user proves of that credential's key, or `None`
/// where it does not verify.
pub uninterp spec fn discovery_shown(
    rp: RelyingPartyModel,
    response: Seq<char>,
    state: Seq<char>,
    key: Seq<char>,
) -> Option<PossessionModel>;

/// `Webauthn::finish_discoverable_authentication` of the webauthn-rs crate: the response against the
/// kept state and one key. Its result is decided by its arguments.
#[verifier::external_body]
fn finish_discoverable(rp: &RelyingParty, response: &str, state: &str, key: &str) -> (r: Option<Possession>)
    ensures
        opt_view(r) == discovery_shown(rp@, response@, state@, key@),
{
    let origin = Url::parse(&rp.origin).ok()?;
    let site = WebauthnBuilder::new(&rp.id, &origin).ok()?.rp_name(&rp.name).build().ok()?;
    let response = from_str(response).ok()?;
    let state = from_str(state).ok()?;
    let key: Passkey = from_str(key).ok()?;
    let r = site.finish_discoverable_authentication(&response, state, &[(&key).into()]).ok()?;
    let result = to_string(&r).ok()?;
    Some(Possession { user_verified: r.user_verified(), raw_id: r.cred_id().to_vec(), counter: r.counter(), result })
}

/// A key after a use, or `None` where the use was of another key.
pub uninterp spec fn updated_key(key: Seq<char>, result: Seq<char>) -> Option<Seq<char>>;

/// `Passkey::update_credential` of the webauthn-rs crate.
#[verifier::external_body]
fn update_key(key: &str, result: &str) -> (r: Option<String>)
    ensures
        opt_text(r) == updated_key(key@, result@),
{
    let mut key: Passkey = from_str(key).ok()?;
    let result = from_str(result).ok()?;
    key.update_credential(&result)?;
    to_string(&key).ok()
}

/// The algorithm of a key.
pub uninterp spec fn algorithm_of_key(key: Seq<char>) -> Option<Seq<char>>;

/// `Passkey::cred_algorithm` of the webauthn-rs crate, by its name.
#[verifier::external_body]
fn key_algorithm(key: &str) -> (r: Option<String>)
    ensures
        opt_text(r) == algorithm_of_key(key@),
{
    let key: Passkey = from_str(key).ok()?;
    let name = serde_json::to_value(key.cred_algorithm()).ok()?;
    name.as_str().map(str::to_owned)
}

/// A passkey as its owner sees it.
pub struct PasskeyView {
    pub id: String,
    pub name: String,
    pub created_at: u64,
    pub algorithm: Option<String>,
}

/// What a [`PasskeyView`] holds.
pub struct PasskeyViewModel {
    pub id: Seq<char>,
    pub name: Seq<char>,
    pub created_at: u64,
    pub algorithm: Option<Seq<char>>,
}

impl View for PasskeyView {
    type V = PasskeyViewModel;

    open spec fn view(&self) -> PasskeyViewModel {
        PasskeyViewModel {
            id: self.id@,
            name: self.name@,
            created_at: self.created_at,
            algorithm: crate::text::opt_text(self.algorithm),
        }
    }
}

impl Row for PasskeyView {
    fn dup(&self) -> (r: Self) {
        PasskeyView {
            id: self.id.clone(),
            name: self.name.clone(),
            created_at: self.created_at,
            algorithm: crate::text::copy_opt(&self.algorithm),
        }
    }
}

pub open spec fn passkey_view(c: CredentialModel) -> PasskeyViewModel {
    PasskeyViewModel {
        id: c.id,
        name: c.name,
        created_at: c.created_at,
        algorithm: algorithm_of_key(c.key),
    }
}

impl Core {
    /// The passkeys of a user, as they see them.
    #[verifier::loop_isolation(false)]
    pub fn passkeys(&self, tx: &Tx, user_id: &str) -> (r: Vec<PasskeyView>)
        ensures
            views(r@) == user_keys_of(tx@, user_id@).map_values(|c: CredentialModel| passkey_view(c)),
    {
        let keys = user_keys(tx, user_id);
        let ghost want = user_keys_of(tx@, user_id@).map_values(|c: CredentialModel| passkey_view(c));
        let mut out: Vec<PasskeyView> = Vec::new();
        let mut i: usize = 0;
        assert(views(out@) =~= want.take(0));
        while i < keys.len()
            invariant
                i <= keys.len(),
                views(out@) == want.take(i as int),
            decreases keys.len() - i,
        {
            let c = &keys[i];
            let x = PasskeyView {
                id: c.id.clone(),
                name: c.name.clone(),
                created_at: c.created_at,
                algorithm: key_algorithm(c.key.as_str()),
            };
            let ghost was = views(out@);
            let ghost xm = x@;
            assert(views(keys@)[i as int] == keys[i as int]@);
            out.push(x);
            assert(views(out@) =~= was.push(xm));
            assert(want.take(i + 1) =~= want.take(i as int).push(xm));
            i = i + 1;
        }
        assert(want.take(i as int) =~= want);
        out
    }
}

fn key_texts(keys: &Vec<Credential>) -> (r: Vec<String>)
    ensures
        texts(r@) == views(keys@).map_values(|c: CredentialModel| c.key),
{
    let ghost want = views(keys@).map_values(|c: CredentialModel| c.key);
    let mut out: Vec<String> = Vec::new();
    let mut i: usize = 0;
    assert(texts(out@) =~= want.take(0));
    while i < keys.len()
        invariant
            i <= keys.len(),
            want == views(keys@).map_values(|c: CredentialModel| c.key),
            texts(out@) == want.take(i as int),
        decreases keys.len() - i,
    {
        let ghost was = texts(out@);
        assert(views(keys@)[i as int] == keys[i as int]@);
        out.push(keys[i].key.clone());
        assert(texts(out@) =~= was.push(want[i as int]));
        assert(want.take(i + 1) =~= want.take(i as int).push(want[i as int]));
        i = i + 1;
    }
    assert(want.take(i as int) =~= want);
    out
}

/// A ceremony that was started: its name, and the challenge for the browser as JSON text.
pub struct Started {
    pub ceremony: String,
    pub challenge: String,
}

/// What a [`Started`] holds.
pub struct StartedModel {
    pub ceremony: Seq<char>,
    pub challenge: Seq<char>,
}

impl View for Started {
    type V = StartedModel;

    open spec fn view(&self) -> StartedModel {
        StartedModel {
            ceremony: self.ceremony@,
            challenge: self.challenge@,
        }
    }
}

impl Row for Started {
    fn dup(&self) -> (r: Self) {
        Started {
            ceremony: self.ceremony.clone(),
            challenge: self.challenge.clone(),
        }
    }
}

/// An enrollment fails before a challenge is drawn.
pub open spec fn enrollment_refused(
    t: TxModel,
    config: ConfigModel,
    user: UserModel,
    session: SessionModel,
    factor: Option<Failure>,
    rules: RulesModel,
) -> Result<(), Failure> {
    match enrollment_check(t, config, user, session, factor, rules) {
        Err(f) => Err(f),
        Ok(_) => match relying_party_of(config.issuer) {
            Err(f) => Err(f),
            Ok(_) => Ok(()),
        },
    }
}

impl Core {
    /// Starts an enrollment. Which challenge is drawn, and whether one is, rests with the WebAuthn
    /// library.
    pub fn passkey_register_start(
        &self,
        tx: &mut Tx,
        user: &User,
        session: &Session,
        name: &str,
        factor: &Option<Error>,
        rules: &Rules,
    ) -> (r: Result<Started, Error>)
        ensures
            match enrollment_refused(
                old(tx)@,
                self@.config,
                user@,
                session@,
                opt_failure(*factor),
                rules@,
            ) {
                Err(f) => fails(r, f) && final(tx)@ == old(tx)@,
                Ok(_) => match r {
                    Err(e) => e@ == Failure::Bad("Cannot start passkey enrollment"@) && final(tx)@
                        == old(tx)@,
                    Ok(x) => x@.ceremony == enrollment_name(old(tx)@) && exists|state: Seq<char>|
                        final(tx)@ == #[trigger] registration_started(
                            old(tx)@,
                            session@,
                            name@,
                            state,
                        ),
                },
            },
    {
        let keys = match self.passkey_register_check(tx, user, session, factor, rules) {
            Err(e) => return Err(e),
            Ok(k) => k,
        };
        let rp = match webauthn(self.config.issuer.as_str()) {
            Err(e) => return Err(e),
            Ok(x) => x,
        };
        let id = handle(user.id.as_str());
        let known = key_texts(&keys);
        let c = match begin_registration(
            &rp,
            &id,
            user.username.as_str(),
            user.display_name.as_str(),
            &known,
        ) {
            None => return Err(Error::bad("Cannot start passkey enrollment")),
            Some(c) => c,
        };
        match self.passkey_register_start_with(
            tx,
            user,
            session,
            name,
            c.state.as_str(),
            factor,
            rules,
        ) {
            Err(e) => Err(e),
            Ok(ceremony) => Ok(Started { ceremony, challenge: c.challenge }),
        }
    }

    /// Ends an enrollment with the response of the browser.
    pub fn passkey_register_finish(
        &self,
        tx: &mut Tx,
        user: &User,
        session: &Session,
        ceremony: &str,
        response: &str,
    ) -> (r: Result<Credential, Error>)
        ensures
            ({
                let out = registration_answered(
                    old(tx)@,
                    self@.config,
                    user@,
                    session@,
                    ceremony@,
                    response@,
                );
                final(tx)@ == out.0 && agrees_with(r, out.1)
            }),
    {
        let none: Option<NewKey> = None;
        let pending = match self.passkey_register_state(tx, user, session, ceremony) {
            None => return self.passkey_register_finish_with(tx, user, session, ceremony, &none),
            Some(p) => p,
        };
        if user_keys(tx, user.id.as_str()).len() >= 16 {
            return self.passkey_register_finish_with(tx, user, session, ceremony, &none);
        }
        let rp = match webauthn(self.config.issuer.as_str()) {
            Err(e) => return Err(e),
            Ok(x) => x,
        };
        let key = finish_registration(&rp, response, pending.state.as_str());
        self.passkey_register_finish_with(tx, user, session, ceremony, &key)
    }
}

/// What the end of an enrollment does with the response of the browser.
pub open spec fn registration_answered(
    t: TxModel,
    config: ConfigModel,
    user: UserModel,
    session: SessionModel,
    ceremony: Seq<char>,
    response: Seq<char>,
) -> (TxModel, Result<CredentialModel, Failure>) {
    match pending_registration(t, user, session, ceremony) {
        None => (t, Err(Failure::Unauthorized)),
        Some(pending) => if user_keys_of(t, user.id).len() >= 16 {
            (t, Err(Failure::Conflict("Passkey limit reached"@)))
        } else {
            match relying_party_of(config.issuer) {
                Err(f) => (t, Err(f)),
                Ok(rp) => enrolled_passkey(
                    t,
                    user,
                    session,
                    ceremony,
                    registered_key(rp, response, pending.state),
                ),
            }
        },
    }
}

/// What is verified of a response.
pub open spec fn shown(
    t: TxModel,
    rp: Result<RelyingPartyModel, Failure>,
    response: Seq<char>,
    claimed: Seq<u8>,
    p: AuthenticationModel,
) -> Option<PossessionModel> {
    match rp {
        Err(_) => None,
        Ok(x) => match p.discoverable {
            Some(state) => if t.passkeys.dom().contains(credential_key_of(claimed)) {
                discovery_shown(x, response, state, t.passkeys[credential_key_of(claimed)].key)
            } else {
                None
            },
            None => match p.state {
                Some(state) => possession_shown(x, response, state),
                None => None,
            },
        },
    }
}

/// What the WebAuthn library makes of a response to a ceremony.
pub open spec fn outcome_of(
    t: TxModel,
    rp: Result<RelyingPartyModel, Failure>,
    response: Seq<char>,
    p: AuthenticationModel,
) -> PasskeyOutcomeModel {
    let parts = match response_of(response) {
        Some(q) => q,
        None => ResponsePartsModel { has_handle: false, handle: Seq::empty(), raw_id: Seq::empty() },
    };
    let proved = if response_of(response) is Some {
        shown(t, rp, response, parts.raw_id, p)
    } else {
        None
    };
    PasskeyOutcomeModel {
        site: match rp {
            Err(f) => Some(f),
            Ok(_) => None,
        },
        has_handle: parts.has_handle,
        handle: parts.handle,
        claimed_id: parts.raw_id,
        verified: proved is Some,
        user_verified: proved is Some && (proved->0).user_verified,
        raw_id: match proved {
            Some(a) => a.raw_id,
            None => parts.raw_id,
        },
        counter: match proved {
            Some(a) => a.counter,
            None => 0,
        },
        key: match proved {
            Some(a) => if t.passkeys.dom().contains(credential_key_of(a.raw_id)) {
                updated_key(t.passkeys[credential_key_of(a.raw_id)].key, a.result)
            } else {
                None
            },
            None => None,
        },
    }
}

impl Core {
    fn verify_response(
        &self,
        tx: &Tx,
        rp: &Result<RelyingParty, Error>,
        response: &str,
        claimed: &Vec<u8>,
        p: &Authentication,
    ) -> (r: Option<Possession>)
        ensures
            opt_view(r) == shown(
                tx@,
                match *rp {
                    Ok(x) => Ok(x@),
                    Err(e) => Err(e@),
                },
                response@,
                claimed@,
                p@,
            ),
    {
        let x = match rp {
            Err(_) => return None,
            Ok(x) => x,
        };
        match &p.discoverable {
            Some(state) => {
                let id = credential_key(claimed);
                match tx.passkeys.get(id.as_str()) {
                    None => None,
                    Some(c) => finish_discoverable(x, response, state.as_str(), c.key.as_str()),
                }
            },
            None => match &p.state {
                Some(state) => finish_authentication(x, response, state.as_str()),
                None => None,
            },
        }
    }

    /// Hands a response to the WebAuthn library.
    fn read_outcome(&self, tx: &Tx, response: &str, p: &Authentication) -> (r: PasskeyOutcome)
        ensures
            r@ == outcome_of(tx@, relying_party_of(self@.config.issuer), response@, p@),
    {
        let rp = webauthn(self.config.issuer.as_str());
        let known = read_response(response);
        let malformed = known.is_none();
        let parts = match known {
            Some(q) => q,
            None => {
                let none: Vec<u8> = Vec::new();
                let no_id: Vec<u8> = Vec::new();
                assert(none@ =~= Seq::<u8>::empty());
                assert(no_id@ =~= Seq::<u8>::empty());
                ResponseParts { has_handle: false, handle: none, raw_id: no_id }
            },
        };
        let proved = if malformed {
            None
        } else {
            self.verify_response(tx, &rp, response, &parts.raw_id, p)
        };
        let site = match rp {
            Err(e) => Some(e),
            Ok(_) => None,
        };
        match proved {
            None => {
                let raw_id = copy_bytes(&parts.raw_id);
                PasskeyOutcome {
                    site,
                    has_handle: parts.has_handle,
                    handle: parts.handle,
                    claimed_id: parts.raw_id,
                    verified: false,
                    user_verified: false,
                    raw_id,
                    counter: 0,
                    key: None,
                }
            },
            Some(a) => {
                let id = credential_key(&a.raw_id);
                let key = match tx.passkeys.get(id.as_str()) {
                    None => None,
                    Some(c) => update_key(c.key.as_str(), a.result.as_str()),
                };
                PasskeyOutcome {
                    site,
                    has_handle: parts.has_handle,
                    handle: parts.handle,
                    claimed_id: parts.raw_id,
                    verified: true,
                    user_verified: a.user_verified,
                    raw_id: a.raw_id,
                    counter: a.counter,
                    key,
                }
            },
        }
    }

    /// Starts a login. A name without keys gets a challenge for a decoy, and no state is kept of it;
    /// which challenge is drawn rests with the WebAuthn library.
    pub fn passkey_login_start(
        &self,
        tx: &mut Tx,
        username: &str,
        transaction: &Option<String>,
        rules: &Rules,
    ) -> (r: Result<Started, Error>)
        ensures
            match login_refused(old(tx)@, self@.config, username@, rules@) {
                Err(f) => fails(r, f) && final(tx)@ == old(tx)@,
                Ok(decoy) => {
                    ||| {
                        &&& fails(r, undrawn(decoy))
                        &&& final(tx)@ == old(tx)@
                    }
                    ||| exists|state: Option<Seq<char>>|
                        state is None == decoy && login_start_agrees(
                            final(tx)@,
                            r,
                            #[trigger] login_started(
                                old(tx)@,
                                username@,
                                opt_text(*transaction),
                                state,
                                rules@,
                            ),
                        )
                },
            },
    {
        if let Err(e) = rules.check_name(username) {
            return Err(e);
        }
        let keys = passkey_login_keys(tx, username);
        assert(views(keys@).len() == keys.len());
        let rp = match webauthn(self.config.issuer.as_str()) {
            Err(e) => return Err(e),
            Ok(x) => x,
        };
        let mut state: Option<String> = None;
        let challenge = if keys.len() == 0 {
            match begin_discoverable(&rp) {
                None => return Err(Error::internal("passkey decoy")),
                Some(c) => c.challenge,
            }
        } else {
            let known = key_texts(&keys);
            match begin_authentication(&rp, &known) {
                None => return Err(Error::Unauthorized),
                Some(c) => {
                    state = Some(c.state);
                    c.challenge
                },
            }
        };
        match self.passkey_login_start_with(tx, username, transaction, &state, rules) {
            Err(e) => Err(e),
            Ok(ceremony) => Ok(Started { ceremony, challenge }),
        }
    }

    /// Ends a login with the response of the browser.
    pub fn passkey_login_finish(&self, tx: &mut Tx, ceremony: &str, response: &str) -> (r: Result<
        LoginReply,
        Error,
    >)
        ensures
            ({
                let out = login_finished(
                    old(tx)@,
                    self@.config,
                    ceremony@,
                    outcome_of(
                        old(tx)@,
                        relying_party_of(self@.config.issuer),
                        response@,
                        old(tx)@.passkey_authentication[digest_of(ceremony@)],
                    ),
                );
                final(tx)@ == out.0 && agrees_with(r, out.1)
            }),
    {
        let key = digest(ceremony);
        let p = match tx.passkey_authentication.get(key.as_str()) {
            None => return Err(Error::Unauthorized),
            Some(p) => p.dup(),
        };
        let outcome = self.read_outcome(tx, response, &p);
        self.passkey_login_finish_with(tx, ceremony, &outcome)
    }

    /// Starts a browser ceremony. Which challenge is drawn rests with the WebAuthn library.
    pub fn browser_passkey_start(
        &self,
        tx: &mut Tx,
        pinned: &Option<String>,
        interaction: &str,
        binding_hash: &str,
    ) -> (r: Result<Started, Error>)
        ensures
            match relying_party_of(self@.config.issuer) {
                Err(f) => fails(r, f) && final(tx)@ == old(tx)@,
                Ok(_) => {
                    ||| {
                        &&& browser_keys(old(tx)@, opt_text(*pinned)) is Ok
                        &&& fails(r, Failure::Internal("passkey challenge"@))
                        &&& final(tx)@ == old(tx)@
                    }
                    ||| exists|state: Seq<char>|
                        login_start_agrees(
                            final(tx)@,
                            r,
                            #[trigger] browser_login_started(
                                old(tx)@,
                                opt_text(*pinned),
                                interaction@,
                                binding_hash@,
                                state,
                            ),
                        )
                },
            },
    {
        let rp = match webauthn(self.config.issuer.as_str()) {
            Err(e) => return Err(e),
            Ok(x) => x,
        };
        let ghost none = browser_login_started(
            tx@,
            opt_text(*pinned),
            interaction@,
            binding_hash@,
            Seq::empty(),
        );
        let keys = match browser_passkey_keys(tx, pinned) {
            Err(e) => return Err(e),
            Ok(k) => k,
        };
        let drawn = match &keys {
            None => begin_discoverable(&rp),
            Some(k) => {
                let known = key_texts(k);
                begin_authentication(&rp, &known)
            },
        };
        match drawn {
            None => Err(Error::internal("passkey challenge")),
            Some(c) => {
                match self.browser_passkey_start_with(
                    tx,
                    pinned,
                    interaction,
                    binding_hash,
                    c.state.as_str(),
                ) {
                    Err(e) => Err(e),
                    Ok(ceremony) => Ok(Started { ceremony, challenge: c.challenge }),
                }
            },
        }
    }

    /// Ends a browser ceremony with the response of the browser; the login that is then staged.
    pub fn browser_passkey_finish(
        &self,
        tx: &mut Tx,
        ceremony: &str,
        response: &str,
        interaction: &str,
        binding: &Option<String>,
        pinned: &Option<String>,
    ) -> (r: Result<StagedLogin, Error>)
        ensures
            ({
                let out = browser_login_finished(
                    old(tx)@,
                    self@.config,
                    ceremony@,
                    interaction@,
                    opt_text(*binding),
                    opt_text(*pinned),
                    outcome_of(
                        old(tx)@,
                        relying_party_of(self@.config.issuer),
                        response@,
                        old(tx)@.passkey_authentication[digest_of(ceremony@)],
                    ),
                );
                final(tx)@ == out.0 && agrees_with(r, out.1)
            }),
    {
        let key = digest(ceremony);
        let p = match tx.passkey_authentication.get(key.as_str()) {
            None => return Err(Error::Unauthorized),
            Some(p) => p.dup(),
        };
        let outcome = self.read_outcome(tx, response, &p);
        self.browser_passkey_finish_with(tx, ceremony, interaction, binding, pinned, &outcome)
    }
}

/// Whether a login can start, and whether it is a decoy.
pub open spec fn login_refused(t: TxModel, config: ConfigModel, username: Seq<char>, rules: RulesModel) -> Result<
    bool,
    Failure,
> {
    match name_check(rules, username) {
        Err(f) => Err(f),
        Ok(_) => match relying_party_of(config.issuer) {
            Err(f) => Err(f),
            Ok(_) => Ok(
                match enabled_user(t, username) {
                    Some(u) => user_keys_of(t, u.id).len() == 0,
                    None => true,
                },
            ),
        },
    }
}

/// No challenge was drawn.
pub open spec fn undrawn(decoy: bool) -> Failure {
    if decoy {
        Failure::Internal("passkey decoy"@)
    } else {
        Failure::Unauthorized
    }
}

/// The store and the ceremony's name are as stated.
pub open spec fn login_start_agrees(
    after: TxModel,
    r: Result<Started, Error>,
    want: (TxModel, Result<Seq<char>, Failure>),
) -> bool {
    after == want.0 && match want.1 {
        Ok(ceremony) => r is Ok && r->Ok_0@.ceremony == ceremony,
        Err(f) => fails(r, f),
    }
}

/// An enrollment that asks for a credential which the authenticator itself remembers.
pub open spec fn resident_form(challenge: JsonModel) -> JsonModel {
    match challenge.member("publicKey"@) {
        None => challenge,
        Some(options) => replaced(
            challenge,
            "publicKey"@,
            replaced(
                options,
                "authenticatorSelection"@,
                JsonModel::Object(
                    seq![
                        ("residentKey"@, JsonModel::Text("required"@)),
                        ("requireResidentKey"@, JsonModel::Bool(true)),
                        ("userVerification"@, JsonModel::Text("required"@)),
                    ],
                ),
            ),
        ),
    }
}

pub fn ask_resident(challenge: &Json) -> (r: Json)
    ensures
        r@ == resident_form(challenge@),
{
    let mut v = challenge.dup();
    let mut m: Vec<Member> = Vec::new();
    m.push(member("residentKey", text("required")));
    m.push(member("requireResidentKey", Json::Bool(true)));
    m.push(member("userVerification", text("required")));
    proof {
        lemma_members_of(m);
        assert(members_of(m@) =~= seq![
            ("residentKey"@, JsonModel::Text("required"@)),
            ("requireResidentKey"@, JsonModel::Bool(true)),
            ("userVerification"@, JsonModel::Text("required"@)),
        ]);
    }
    let options = match v.get("publicKey") {
        None => None,
        Some(o) => Some(o.dup()),
    };
    if let Some(o) = options {
        let mut o = o;
        o.set("authenticatorSelection", Json::Object(m));
        v.set("publicKey", o);
    }
    v
}

/// Passkeys are for the host of the issuer, at the issuer's origin.
pub proof fn passkeys_are_for_the_issuer(issuer: Seq<char>)
    ensures
        relying_party_of(issuer) matches Ok(rp) ==> url_of(issuer) is Some && (url_of(issuer)->0).host
            == Some(rp.id) && (url_of(issuer)->0).origin == rp.origin && rp.name == "riAuth"@ && (url_of(
            rp.origin,
        ) matches Some(o) && o.domain is Some && (o.domain->0 == rp.id || has_suffix(
            o.domain->0,
            "."@ + rp.id,
        ))),
        url_of(issuer) is None ==> relying_party_of(issuer) is Err,
{
}

/// A user has at most sixteen passkeys: the seventeenth is neither begun nor kept.
pub proof fn passkeys_are_limited(
    t: TxModel,
    config: ConfigModel,
    user: UserModel,
    session: SessionModel,
    factor: Option<Failure>,
    rules: RulesModel,
    ceremony: Seq<char>,
    response: Seq<char>,
)
    requires
        user_keys_of(t, user.id).len() >= 16,
    ensures
        enrollment_refused(t, config, user, session, factor, rules) is Err,
        registration_answered(t, config, user, session, ceremony, response).0 == t,
        registration_answered(t, config, user, session, ceremony, response).1 is Err,
{
}

/// What a response shows is what was proved: without a proof nothing is verified, and with one the
/// user, the counter and the key are those of the proof.
pub proof fn proofs_are_taken_as_given(
    t: TxModel,
    rp: RelyingPartyModel,
    response: Seq<char>,
    state: Seq<char>,
    p: AuthenticationModel,
)
    requires
        p.discoverable is None,
        p.state == Some(state),
        response_of(response) is Some,
    ensures
        ({
            let o = outcome_of(t, Ok(rp), response, p);
            let proved = possession_shown(rp, response, state);
            &&& o.verified <==> proved is Some
            &&& proved is None ==> !o.user_verified && o.key is None
            &&& proved matches Some(a) ==> o.user_verified == a.user_verified && o.raw_id == a.raw_id
                && o.counter == a.counter
            &&& o.claimed_id == (response_of(response)->0).raw_id
            &&& o.handle == (response_of(response)->0).handle
            &&& o.has_handle == (response_of(response)->0).has_handle
            &&& o.site is None
        }),
{
}

/// A login for a name that has no passkey, or that nobody enabled has, is answered like any other.
pub proof fn unknown_names_are_answered_with_a_decoy(
    t: TxModel,
    config: ConfigModel,
    username: Seq<char>,
    rules: RulesModel,
)
    ensures
        login_refused(t, config, username, rules) is Err <==> rules.bad_names.contains(username)
            || relying_party_of(config.issuer) is Err,
        enabled_user(t, username) is None && login_refused(t, config, username, rules) is Ok
            ==> login_refused(t, config, username, rules)->Ok_0,
        enabled_user(t, username) is Some && login_refused(t, config, username, rules) is Ok ==> (
        login_refused(t, config, username, rules)->Ok_0 <==> user_keys_of(
            t,
            (enabled_user(t, username)->0).id,
        ).len() == 0),
{
}

/// A key that is asked for must stay on the device and check its user, whatever else the challenge
/// says.
pub proof fn resident_keys_check_their_user(challenge: JsonModel)
    requires
        challenge is Object,
        challenge.member("publicKey"@) matches Some(JsonModel::Object(_)),
    ensures
        ({
            let options = resident_form(challenge).member("publicKey"@)->0;
            let selection = options.member("authenticatorSelection"@)->0;
            &&& resident_form(challenge).member("publicKey"@) is Some
            &&& options.member("authenticatorSelection"@) is Some
            &&& selection.member("residentKey"@) == Some(JsonModel::Text("required"@))
            &&& selection.member("requireResidentKey"@) == Some(JsonModel::Bool(true))
            &&& selection.member("userVerification"@) == Some(JsonModel::Text("required"@))
        }),
{
    reveal_with_fuel(crate::json::lookup, 4);
    reveal_strlit("residentKey");
    reveal_strlit("requireResidentKey");
    reveal_strlit("userVerification");
    assert("residentKey"@.len() == 11);
    assert("requireResidentKey"@.len() == 18);
    assert("userVerification"@.len() == 16);
    let own = JsonModel::Object(
        seq![
            ("residentKey"@, JsonModel::Text("required"@)),
            ("requireResidentKey"@, JsonModel::Bool(true)),
            ("userVerification"@, JsonModel::Text("required"@)),
        ],
    );
    let m = own->Object_0;
    assert(m.drop_first().drop_first() =~= seq![m[2]]);
    assert(own.member("residentKey"@) == Some(m[0].1));
    assert(own.member("requireResidentKey"@) == Some(m[1].1));
    assert(own.member("userVerification"@) == Some(m[2].1));
    let options = challenge.member("publicKey"@)->0;
    a_member_that_is_set_is_found(
        options->Object_0,
        "authenticatorSelection"@,
        own,
        "authenticatorSelection"@,
    );
    a_member_that_is_set_is_found(
        challenge->Object_0,
        "publicKey"@,
        replaced(options, "authenticatorSelection"@, own),
        "publicKey"@,
    );
}

/// A registration that is pending, within the limit and for a site that can have passkeys enrolls the
/// key that the response shows, under the name that was given when it began.
pub proof fn shown_keys_are_enrolled(
    t: TxModel,
    config: ConfigModel,
    user: UserModel,
    session: SessionModel,
    ceremony: Seq<char>,
    response: Seq<char>,
    k: NewKeyModel,
)
    requires
        pending_registration(t, user, session, ceremony) is Some,
        user_keys_of(t, user.id).len() < 16,
        relying_party_of(config.issuer) is Ok,
        registered_key(
            relying_party_of(config.issuer)->Ok_0,
            response,
            t.passkey_registration[digest_of(ceremony)].state,
        ) == Some(k),
        !t.passkeys.dom().contains(credential_key_of(k.raw_id)),
    ensures
        registration_answered(t, config, user, session, ceremony, response).1 matches Ok(c) && c.id
            == credential_key_of(k.raw_id) && c.user_id == user.id && c.key == k.key && c.counter == 0
            && c.created_at == t.now && c.name == t.passkey_registration[digest_of(ceremony)].name,
{
}

/// A response that cannot be read shows nothing: no handle, no key and no proof. So does any response at
/// a site that cannot have passkeys.
pub proof fn unreadable_responses_show_nothing(
    t: TxModel,
    rp: Result<RelyingPartyModel, Failure>,
    response: Seq<char>,
    p: AuthenticationModel,
)
    ensures
        response_of(response) is None ==> {
            let o = outcome_of(t, rp, response, p);
            !o.verified && !o.user_verified && !o.has_handle && o.handle.len() == 0 && o.raw_id.len() == 0
                && o.claimed_id.len() == 0 && o.key is None && o.counter == 0
        },
        rp matches Err(f) ==> {
            let o = outcome_of(t, rp, response, p);
            !o.verified && !o.user_verified && o.key is None && o.site == Some(f)
        },
{
}

/// Where the key was not named beforehand, the proof is that of the key that the response claims, and
/// there is none for a key that is not enrolled.
pub proof fn discovered_keys_are_the_claimed_ones(
    t: TxModel,
    rp: RelyingPartyModel,
    response: Seq<char>,
    state: Seq<char>,
    p: AuthenticationModel,
)
    requires
        p.discoverable == Some(state),
        response_of(response) is Some,
    ensures
        ({
            let o = outcome_of(t, Ok(rp), response, p);
            let id = credential_key_of((response_of(response)->0).raw_id);
            &&& !t.passkeys.dom().contains(id) ==> !o.verified
            &&& t.passkeys.dom().contains(id) ==> (o.verified <==> discovery_shown(
                rp,
                response,
                state,
                t.passkeys[id].key,
            ) is Some)
        }),
{
}

} // verus!
