//! Pinned public keys. No address that a token names is ever fetched.
use crate::error::{Error, Failure, agrees, agrees_with, and_also, fails};
use crate::json::{Json, JsonModel, Member};
use crate::names::Names;
use crate::outside::{base64url, base64url_bytes, base64url_decode, base64url_of, digest, digest_of};
use crate::radius::enrollment::judge;
use crate::store::{Tx, TxModel};
use crate::table::{Row, opt_view, views};
use crate::text::{all_graphic, byte_count, byte_len, concat3, is_graphic, opt_is, opt_text, same, same_list, same_opt, texts};
use jsonwebtoken::{DecodingKey, Validation};
use serde_json::Value;
use std::collections::HashSet;
use vstd::prelude::*;
use vstd::string::*;

verus! {

pub const ASSERTION_TYPE: &'static str = "urn:ietf:params:oauth:client-assertion-type:jwt-bearer";

pub const JWT_GRANT: &'static str = "urn:ietf:params:oauth:grant-type:jwt-bearer";

/// How a client authenticates at the token endpoint.
#[derive(Clone, Copy, PartialEq, Eq, Structural, Debug)]
pub enum ClientAuthMethod {
    /// No authentication: a public client (`none`).
    Public,
    ClientSecretBasic,
    ClientSecretPost,
    PrivateKeyJwt,
}

/// A signature algorithm of a public key.
#[derive(Clone, Copy, PartialEq, Eq, Structural, Debug)]
pub enum Algorithm {
    RS256,
    ES256,
    EdDSA,
}

/// A public signing key.
pub struct PublicJwk {
    pub kty: String,
    pub kid: String,
    pub alg: String,
    pub usage: Option<String>,
    pub key_ops: Vec<String>,
    pub n: Option<String>,
    pub e: Option<String>,
    pub crv: Option<String>,
    pub x: Option<String>,
    pub y: Option<String>,
}

/// What a [`PublicJwk`] holds.
pub struct PublicJwkModel {
    pub kty: Seq<char>,
    pub kid: Seq<char>,
    pub alg: Seq<char>,
    pub usage: Option<Seq<char>>,
    pub key_ops: Seq<Seq<char>>,
    pub n: Option<Seq<char>>,
    pub e: Option<Seq<char>>,
    pub crv: Option<Seq<char>>,
    pub x: Option<Seq<char>>,
    pub y: Option<Seq<char>>,
}

impl View for PublicJwk {
    type V = PublicJwkModel;

    open spec fn view(&self) -> PublicJwkModel {
        PublicJwkModel {
            kty: self.kty@,
            kid: self.kid@,
            alg: self.alg@,
            usage: crate::text::opt_text(self.usage),
            key_ops: crate::text::texts(self.key_ops@),
            n: crate::text::opt_text(self.n),
            e: crate::text::opt_text(self.e),
            crv: crate::text::opt_text(self.crv),
            x: crate::text::opt_text(self.x),
            y: crate::text::opt_text(self.y),
        }
    }
}

impl Row for PublicJwk {
    fn dup(&self) -> (r: Self) {
        PublicJwk {
            kty: self.kty.clone(),
            kid: self.kid.clone(),
            alg: self.alg.clone(),
            usage: crate::text::copy_opt(&self.usage),
            key_ops: crate::text::copy_list(&self.key_ops),
            n: crate::text::copy_opt(&self.n),
            e: crate::text::copy_opt(&self.e),
            crv: crate::text::copy_opt(&self.crv),
            x: crate::text::copy_opt(&self.x),
            y: crate::text::copy_opt(&self.y),
        }
    }
}

/// A set of public signing keys.
pub struct PublicJwks {
    pub keys: Vec<PublicJwk>,
}

/// What a [`PublicJwks`] holds.
pub struct PublicJwksModel {
    pub keys: Seq<PublicJwkModel>,
}

impl View for PublicJwks {
    type V = PublicJwksModel;

    open spec fn view(&self) -> PublicJwksModel {
        PublicJwksModel {
            keys: crate::table::views(self.keys@),
        }
    }
}

impl Row for PublicJwks {
    fn dup(&self) -> (r: Self) {
        PublicJwks {
            keys: crate::table::dup_list(&self.keys),
        }
    }
}

/// A workload whose assertions a service client accepts.
pub struct MachineTrust {
    pub issuer: String,
    pub subject: String,
    pub jwks: PublicJwks,
    pub scopes: Names,
}

/// What a [`MachineTrust`] holds.
pub struct MachineTrustModel {
    pub issuer: Seq<char>,
    pub subject: Seq<char>,
    pub jwks: PublicJwksModel,
    pub scopes: Set<Seq<char>>,
}

impl View for MachineTrust {
    type V = MachineTrustModel;

    open spec fn view(&self) -> MachineTrustModel {
        MachineTrustModel {
            issuer: self.issuer@,
            subject: self.subject@,
            jwks: self.jwks@,
            scopes: self.scopes@,
        }
    }
}

impl Row for MachineTrust {
    fn dup(&self) -> (r: Self) {
        MachineTrust {
            issuer: self.issuer.clone(),
            subject: self.subject.clone(),
            jwks: self.jwks.dup(),
            scopes: self.scopes.copy(),
        }
    }
}

/// The algorithm that the type, the name and the curve of a key fix.
pub open spec fn algorithm_of(k: PublicJwkModel) -> Option<Algorithm> {
    if k.kty == "RSA"@ && k.alg == "RS256"@ && k.crv is None {
        Some(Algorithm::RS256)
    } else if k.kty == "EC"@ && k.alg == "ES256"@ && k.crv == Some("P-256"@) {
        Some(Algorithm::ES256)
    } else if k.kty == "OKP"@ && k.alg == "EdDSA"@ && k.crv == Some("Ed25519"@) {
        Some(Algorithm::EdDSA)
    } else {
        None
    }
}

/// The bytes of a key component: canonical base64url, or why not.
pub open spec fn component(c: Option<Seq<char>>) -> Result<Seq<u8>, Failure> {
    match c {
        None => Err(Failure::Bad("Missing JWK component"@)),
        Some(t) => match base64url_bytes(t) {
            None => Err(Failure::Bad("Invalid JWK component"@)),
            Some(b) => if base64url_of(b) == t {
                Ok(b)
            } else {
                Err(Failure::Bad("Noncanonical JWK component"@))
            },
        },
    }
}

pub open spec fn usage_check(k: PublicJwkModel) -> Result<(), Failure> {
    if k.kid.len() == 0 || byte_count(k.kid) > 128 || !all_graphic(k.kid) || (k.usage is Some
        && k.usage != Some("sig"@)) || (exists|i: int|
        0 <= i < k.key_ops.len() && #[trigger] k.key_ops[i] != "verify"@) || k.key_ops.len() > 1 {
        Err(Failure::Bad("A public signing JWK requires a unique kid and verification-only usage"@))
    } else {
        Ok(())
    }
}

/// A modulus of 2048 to 4096 bits, odd and without a leading zero bit, and an odd exponent of at
/// most four bytes that is at least three.
pub open spec fn rsa_sound(n: Seq<u8>, e: Seq<u8>) -> bool {
    &&& 256 <= n.len() <= 512
    &&& n[0] >= 128
    &&& n.last() % 2 == 1
    &&& 1 <= e.len() <= 4
    &&& e[0] != 0
    &&& e.last() % 2 == 1
    &&& !(e.len() == 1 && e[0] < 3)
}

pub open spec fn components_check(k: PublicJwkModel) -> Result<(), Failure> {
    match algorithm_of(k) {
        None => Err(
            Failure::Bad("Supported public signing keys: RS256, ES256/P-256, EdDSA/Ed25519"@),
        ),
        Some(Algorithm::RS256) => match (component(k.n), component(k.e)) {
            (Err(f), _) => Err(f),
            (Ok(_), Err(f)) => Err(f),
            (Ok(n), Ok(e)) => if rsa_sound(n, e) && k.x is None && k.y is None {
                Ok(())
            } else {
                Err(
                    Failure::Bad(
                        "RSA verification keys must have a 2048–4096 bit modulus and valid exponent"@,
                    ),
                )
            },
        },
        Some(Algorithm::ES256) => match component(k.x) {
            Err(f) => Err(f),
            Ok(x) => if x.len() != 32 {
                Err(Failure::Bad("Invalid P-256 public key"@))
            } else {
                match component(k.y) {
                    Err(f) => Err(f),
                    Ok(y) => if y.len() == 32 && k.n is None && k.e is None {
                        Ok(())
                    } else {
                        Err(Failure::Bad("Invalid P-256 public key"@))
                    },
                }
            },
        },
        Some(Algorithm::EdDSA) => match component(k.x) {
            Err(f) => Err(f),
            Ok(x) => if x.len() == 32 && k.y is None && k.n is None && k.e is None {
                Ok(())
            } else {
                Err(Failure::Bad("Invalid Ed25519 public key"@))
            },
        },
    }
}

/// The curves that the verification library knows.
pub open spec fn known_curve(crv: Option<Seq<char>>) -> bool {
    crv == Some("P-256"@) || crv == Some("P-384"@) || crv == Some("P-521"@) || crv == Some(
        "Ed25519"@,
    )
}

/// A component is there, in base64url.
pub open spec fn readable(c: Option<Seq<char>>) -> bool {
    c is Some && base64url_bytes(c->0) is Some
}

/// Whether the verification library makes a key of these components. It goes by the type of the key,
/// not by the algorithm that it names.
pub open spec fn decodable(k: PublicJwkModel) -> bool {
    if k.kty == "RSA"@ {
        readable(k.n) && readable(k.e)
    } else if k.kty == "EC"@ {
        known_curve(k.crv) && readable(k.x) && readable(k.y)
    } else {
        k.kty == "OKP"@ && known_curve(k.crv) && readable(k.x)
    }
}

pub open spec fn jwk_check(k: PublicJwkModel) -> Result<(), Failure> {
    and_also(
        usage_check(k),
        and_also(
            components_check(k),
            if decodable(k) {
                Ok(())
            } else {
                Err(Failure::Bad("Invalid public JWK"@))
            },
        ),
    )
}

/// A key of the verification library.
#[verifier::external_type_specification]
#[verifier::external_body]
pub struct ExternalDecodingKey(jsonwebtoken::DecodingKey);

/// `DecodingKey::from_rsa_components` of the jsonwebtoken crate: a key of any two texts in base64url.
#[verifier::external_body]
fn rsa_decoding_key(n: &str, e: &str) -> (r: Option<jsonwebtoken::DecodingKey>)
    ensures
        r is Some == (base64url_bytes(n@) is Some && base64url_bytes(e@) is Some),
{
    jsonwebtoken::DecodingKey::from_rsa_components(n, e).ok()
}

/// `DecodingKey::from_ec_components` of the jsonwebtoken crate: a key of any two texts in base64url.
#[verifier::external_body]
fn ec_decoding_key(x: &str, y: &str) -> (r: Option<jsonwebtoken::DecodingKey>)
    ensures
        r is Some == (base64url_bytes(x@) is Some && base64url_bytes(y@) is Some),
{
    jsonwebtoken::DecodingKey::from_ec_components(x, y).ok()
}

/// `DecodingKey::from_ed_components` of the jsonwebtoken crate: a key of any text in base64url.
#[verifier::external_body]
fn ed_decoding_key(x: &str) -> (r: Option<jsonwebtoken::DecodingKey>)
    ensures
        r is Some == base64url_bytes(x@) is Some,
{
    jsonwebtoken::DecodingKey::from_ed_components(x).ok()
}

fn decode_component(c: &Option<String>) -> (r: Result<Vec<u8>, Error>)
    ensures
        match component(opt_text(*c)) {
            Ok(b) => r is Ok && r->Ok_0@ == b,
            Err(f) => r is Err && r->Err_0@ == f,
        },
{
    match c {
        None => Err(Error::bad("Missing JWK component")),
        Some(t) => match base64url_decode(t.as_str()) {
            None => Err(Error::bad("Invalid JWK component")),
            Some(b) => {
                let again = base64url(b.as_slice());
                if same(again.as_str(), t.as_str()) {
                    Ok(b)
                } else {
                    Err(Error::bad("Noncanonical JWK component"))
                }
            },
        },
    }
}

impl PublicJwk {
    /// The algorithm that the key is registered for.
    pub fn algorithm(&self) -> (r: Result<Algorithm, Error>)
        ensures
            match algorithm_of(self@) {
                Some(a) => r == Ok::<Algorithm, Error>(a),
                None => r is Err && r->Err_0@ == Failure::Bad(
                    "Supported public signing keys: RS256, ES256/P-256, EdDSA/Ed25519"@,
                ),
            },
    {
        if same(self.kty.as_str(), "RSA") && same(self.alg.as_str(), "RS256") && self.crv.is_none() {
            return Ok(Algorithm::RS256);
        }
        if same(self.kty.as_str(), "EC") && same(self.alg.as_str(), "ES256") && opt_is(
            &self.crv,
            "P-256",
        ) {
            return Ok(Algorithm::ES256);
        }
        if same(self.kty.as_str(), "OKP") && same(self.alg.as_str(), "EdDSA") && opt_is(
            &self.crv,
            "Ed25519",
        ) {
            return Ok(Algorithm::EdDSA);
        }
        Err(Error::bad("Supported public signing keys: RS256, ES256/P-256, EdDSA/Ed25519"))
    }

    /// The key in the form that the verification library takes.
    pub fn decoding_key(&self) -> (r: Result<jsonwebtoken::DecodingKey, Error>)
        ensures
            r is Ok == decodable(self@),
            r is Err ==> r->Err_0@ == Failure::Bad("Invalid public JWK"@),
    {
        let curve = opt_is(&self.crv, "P-256") || opt_is(&self.crv, "P-384") || opt_is(
            &self.crv,
            "P-521",
        ) || opt_is(&self.crv, "Ed25519");
        let key = if same(self.kty.as_str(), "RSA") {
            match (&self.n, &self.e) {
                (Some(n), Some(e)) => rsa_decoding_key(n.as_str(), e.as_str()),
                _ => None,
            }
        } else if same(self.kty.as_str(), "EC") {
            match (&self.x, &self.y) {
                (Some(x), Some(y)) => if curve {
                    ec_decoding_key(x.as_str(), y.as_str())
                } else {
                    None
                },
                _ => None,
            }
        } else if same(self.kty.as_str(), "OKP") && curve {
            match &self.x {
                Some(x) => ed_decoding_key(x.as_str()),
                None => None,
            }
        } else {
            None
        };
        match key {
            Some(k) => Ok(k),
            None => Err(Error::bad("Invalid public JWK")),
        }
    }

    /// Accepts a key that names itself, only verifies, and has sound canonical components.
    pub fn validate(&self) -> (r: Result<(), Error>)
        ensures
            agrees(r, jwk_check(self@)),
    {
        let mut other: bool = false;
        let mut i: usize = 0;
        while i < self.key_ops.len()
            invariant
                i <= self.key_ops.len(),
                other == exists|j: int|
                    0 <= j < i && #[trigger] texts(self.key_ops@)[j] != "verify"@,
            decreases self.key_ops.len() - i,
        {
            if !same(self.key_ops[i].as_str(), "verify") {
                other = true;
                assert(texts(self.key_ops@)[i as int] != "verify"@);
            }
            i = i + 1;
        }
        let usage_wrong = match &self.usage {
            Some(u) => !same(u.as_str(), "sig"),
            None => false,
        };
        if self.kid.as_str().is_empty() || byte_len(self.kid.as_str()) > 128 || !is_graphic(
            self.kid.as_str(),
        ) || usage_wrong || other || self.key_ops.len() > 1 {
            return Err(
                Error::bad(
                    "A public signing JWK requires a unique kid and verification-only usage",
                ),
            );
        }
        assert(usage_check(self@) is Ok);
        match self.algorithm() {
            Err(e) => {
                return Err(e);
            },
            Ok(Algorithm::RS256) => {
                let n = match decode_component(&self.n) {
                    Ok(b) => b,
                    Err(e) => return Err(e),
                };
                let e = match decode_component(&self.e) {
                    Ok(b) => b,
                    Err(e) => return Err(e),
                };
                if n.len() < 256 || n.len() > 512 || n[0] < 128 || n[n.len() - 1] % 2 == 0
                    || e.len() == 0 || e.len() > 4 || e[0] == 0 || e[e.len() - 1] % 2 == 0 || (
                e.len() == 1 && e[0] < 3) || self.x.is_some() || self.y.is_some() {
                    return Err(
                        Error::bad(
                            "RSA verification keys must have a 2048–4096 bit modulus and valid exponent",
                        ),
                    );
                }
            },
            Ok(Algorithm::ES256) => {
                match decode_component(&self.x) {
                    Ok(b) => {
                        if b.len() != 32 {
                            return Err(Error::bad("Invalid P-256 public key"));
                        }
                    },
                    Err(e) => return Err(e),
                }
                match decode_component(&self.y) {
                    Ok(b) => {
                        if b.len() != 32 {
                            return Err(Error::bad("Invalid P-256 public key"));
                        }
                    },
                    Err(e) => return Err(e),
                }
                if self.n.is_some() || self.e.is_some() {
                    return Err(Error::bad("Invalid P-256 public key"));
                }
            },
            Ok(Algorithm::EdDSA) => {
                match decode_component(&self.x) {
                    Ok(b) => {
                        if b.len() != 32 {
                            return Err(Error::bad("Invalid Ed25519 public key"));
                        }
                    },
                    Err(e) => return Err(e),
                }
                if self.y.is_some() || self.n.is_some() || self.e.is_some() {
                    return Err(Error::bad("Invalid Ed25519 public key"));
                }
            },
        }
        assert(components_check(self@) is Ok);
        match self.decoding_key() {
            Ok(_) => Ok(()),
            Err(e) => Err(e),
        }
    }
}

/// The keys before `i` have the key id of the key at `i`.
pub open spec fn repeated_kid(keys: Seq<PublicJwkModel>, i: int) -> bool {
    exists|j: int| 0 <= j < i && (#[trigger] keys[j]).kid == keys[i].kid
}

/// Each key is acceptable and none repeats the id of an earlier one.
pub open spec fn keys_check(keys: Seq<PublicJwkModel>) -> Result<(), Failure>
    decreases keys.len(),
{
    if keys.len() == 0 {
        Ok(())
    } else {
        and_also(
            keys_check(keys.drop_last()),
            and_also(
                jwk_check(keys.last()),
                if repeated_kid(keys, keys.len() - 1) {
                    Err(Failure::Bad("Duplicate public key id"@))
                } else {
                    Ok(())
                },
            ),
        )
    }
}

pub open spec fn jwks_check(s: PublicJwksModel) -> Result<(), Failure> {
    if s.keys.len() == 0 || s.keys.len() > 8 {
        Err(Failure::Bad("Provide 1–8 pinned public signing keys"@))
    } else {
        keys_check(s.keys)
    }
}

proof fn lemma_keys_fail(keys: Seq<PublicJwkModel>, n: int)
    requires
        0 <= n <= keys.len(),
        keys_check(keys.take(n)) is Err,
    ensures
        keys_check(keys) == keys_check(keys.take(n)),
    decreases keys.len() - n,
{
    if n < keys.len() {
        assert(keys.take(n + 1).drop_last() =~= keys.take(n));
        lemma_keys_fail(keys, n + 1);
    } else {
        assert(keys.take(n) =~= keys);
    }
}

impl PublicJwks {
    /// Accepts one to eight acceptable keys with distinct ids.
    #[verifier::loop_isolation(false)]
    pub fn validate(&self) -> (r: Result<(), Error>)
        ensures
            agrees(r, jwks_check(self@)),
    {
        if self.keys.len() == 0 || self.keys.len() > 8 {
            return Err(Error::bad("Provide 1–8 pinned public signing keys"));
        }
        let ghost all = self@.keys;
        let mut kids = Names::new();
        let mut i: usize = 0;
        while i < self.keys.len()
            invariant
                i <= self.keys.len(),
                all == views(self.keys@),
                keys_check(all.take(i as int)) is Ok,
                forall|s: Seq<char>| #[trigger]
                    kids@.contains(s) <==> exists|j: int| 0 <= j < i && (#[trigger] all[j]).kid == s,
            decreases self.keys.len() - i,
        {
            proof {
                let next = all.take(i + 1);
                assert(next.drop_last() =~= all.take(i as int));
                assert(next.last() == all[i as int]);
                assert(kids@.contains(all[i as int].kid) == repeated_kid(next, i as int)) by {
                    if kids@.contains(all[i as int].kid) {
                        let j = choose|j: int| 0 <= j < i && (#[trigger] all[j]).kid == all[i as int].kid;
                        assert(next[j].kid == next[i as int].kid);
                    }
                    if repeated_kid(next, i as int) {
                        let j = choose|j: int| 0 <= j < i && (#[trigger] next[j]).kid == next[i as int].kid;
                        assert(all[j].kid == all[i as int].kid);
                    }
                }
            }
            if let Err(e) = self.keys[i].validate() {
                proof {
                    lemma_keys_fail(all, i + 1);
                }
                return Err(e);
            }
            let ghost was = kids@;
            if !kids.insert(self.keys[i].kid.as_str()) {
                proof {
                    lemma_keys_fail(all, i + 1);
                }
                return Err(Error::bad("Duplicate public key id"));
            }
            proof {
                assert forall|s: Seq<char>| #[trigger] kids@.contains(s) <==> exists|j: int|
                    0 <= j < i + 1 && (#[trigger] all[j]).kid == s by {
                    if was.contains(s) {
                        let j = choose|j: int| 0 <= j < i && (#[trigger] all[j]).kid == s;
                        assert(all[j].kid == s);
                    }
                    if s == all[i as int].kid {
                        assert(all[i as int].kid == s);
                    }
                }
            }
            i = i + 1;
        }
        assert(all.take(i as int) =~= all);
        Ok(())
    }

    /// The registered key with the id `kid`.
    pub fn find(&self, kid: &str) -> (r: Option<&PublicJwk>)
        ensures
            match r {
                Some(k) => key_for(self@.keys, kid@) == Some(k@),
                None => key_for(self@.keys, kid@) is None,
            },
    {
        let mut i: usize = 0;
        while i < self.keys.len()
            invariant
                i <= self.keys.len(),
                forall|j: int| 0 <= j < i ==> (#[trigger] self@.keys[j]).kid != kid@,
            decreases self.keys.len() - i,
        {
            assert(self@.keys[i as int] == self.keys@[i as int]@);
            if same(self.keys[i].kid.as_str(), kid) {
                proof {
                    lemma_key_for(self@.keys, kid@, i as int);
                }
                return Some(&self.keys[i]);
            }
            i = i + 1;
        }
        proof {
            lemma_key_for(self@.keys, kid@, self@.keys.len() as int);
        }
        None
    }
}

/// What a token claims. `iss` is the issuer claim as JSON text, `issuer` that claim where it is a
/// single name; `aud` is the audience where it is a single name.
pub struct AssertionClaims {
    pub iss: String,
    pub issuer: Option<String>,
    pub aud: Option<String>,
    pub sub: Option<String>,
    pub sid: Option<String>,
    pub iat: Option<u64>,
    pub exp: Option<u64>,
    pub jti: Option<String>,
}

/// What a [`AssertionClaims`] holds.
pub struct AssertionClaimsModel {
    pub iss: Seq<char>,
    pub issuer: Option<Seq<char>>,
    pub aud: Option<Seq<char>>,
    pub sub: Option<Seq<char>>,
    pub sid: Option<Seq<char>>,
    pub iat: Option<u64>,
    pub exp: Option<u64>,
    pub jti: Option<Seq<char>>,
}

impl View for AssertionClaims {
    type V = AssertionClaimsModel;

    open spec fn view(&self) -> AssertionClaimsModel {
        AssertionClaimsModel {
            iss: self.iss@,
            issuer: crate::text::opt_text(self.issuer),
            aud: crate::text::opt_text(self.aud),
            sub: crate::text::opt_text(self.sub),
            sid: crate::text::opt_text(self.sid),
            iat: self.iat,
            exp: self.exp,
            jti: crate::text::opt_text(self.jti),
        }
    }
}

impl Row for AssertionClaims {
    fn dup(&self) -> (r: Self) {
        AssertionClaims {
            iss: self.iss.clone(),
            issuer: crate::text::copy_opt(&self.issuer),
            aud: crate::text::copy_opt(&self.aud),
            sub: crate::text::copy_opt(&self.sub),
            sid: crate::text::copy_opt(&self.sid),
            iat: self.iat,
            exp: self.exp,
            jti: crate::text::copy_opt(&self.jti),
        }
    }
}

/// The assertion is at most five minutes long and current, up to half a minute of clock skew.
pub open spec fn short_lived(iat: u64, exp: u64, at: u64) -> bool {
    iat <= at + 30 && exp > at && exp > iat && exp - iat <= 300 && at - iat <= 300
}

/// Under which key the use of an assertion is remembered.
pub open spec fn replay_key(namespace: Seq<char>, c: AssertionClaimsModel) -> Seq<char> {
    digest_of(namespace + "\0"@ + c.iss + "\0"@ + c.jti->0)
}

/// Whether an assertion can be used now.
pub open spec fn assertion_check(t: TxModel, c: AssertionClaimsModel, namespace: Seq<char>) -> Result<
    (),
    Failure,
> {
    if c.iat is None {
        Err(Failure::Bad("Assertion requires iat"@))
    } else if c.exp is None {
        Err(Failure::Bad("Assertion requires exp"@))
    } else if c.jti is None || (c.jti->0).len() == 0 || byte_count(c.jti->0) > 256 {
        Err(Failure::Bad("Assertion requires a bounded unique jti"@))
    } else if !short_lived(c.iat->0, c.exp->0, t.now) {
        Err(Failure::Bad("Assertion lifetime must be at most five minutes"@))
    } else if t.assertion_replays.dom().contains(replay_key(namespace, c))
        && t.assertion_replays[replay_key(namespace, c)] > t.now {
        Err(Failure::Bad("Assertion already used"@))
    } else {
        Ok(())
    }
}

/// The store after the assertion was used.
pub open spec fn assertion_used(t: TxModel, c: AssertionClaimsModel, namespace: Seq<char>) -> TxModel {
    TxModel {
        assertion_replays: t.assertion_replays.insert(replay_key(namespace, c), c.exp->0),
        ..t
    }
}

/// The key under which the use of an assertion is remembered, where it can be used now.
pub fn check_assertion(tx: &Tx, claims: &AssertionClaims, namespace: &str) -> (r: Result<String, Error>)
    ensures
        match assertion_check(tx@, claims@, namespace@) {
            Ok(_) => r is Ok && r->Ok_0@ == replay_key(namespace@, claims@),
            Err(f) => r is Err && r->Err_0@ == f,
        },
{
    let at = tx.now;
    let iat = match claims.iat {
        Some(v) => v,
        None => return Err(Error::bad("Assertion requires iat")),
    };
    let exp = match claims.exp {
        Some(v) => v,
        None => return Err(Error::bad("Assertion requires exp")),
    };
    let jti = match &claims.jti {
        Some(v) => v.as_str(),
        None => return Err(Error::bad("Assertion requires a bounded unique jti")),
    };
    if jti.is_empty() || byte_len(jti) > 256 {
        return Err(Error::bad("Assertion requires a bounded unique jti"));
    }
    if iat > at.saturating_add(30) || exp <= at || exp <= iat || exp - iat > 300 || at.saturating_sub(iat) > 300 {
        return Err(Error::bad("Assertion lifetime must be at most five minutes"));
    }
    let mut text = concat3(namespace, "\0", claims.iss.as_str());
    text.append("\0");
    text.append(jti);
    let key = digest(text.as_str());
    if let Some(until) = tx.assertion_replays.get(key.as_str()) {
        if *until > at {
            return Err(Error::bad("Assertion already used"));
        }
    }
    Ok(key)
}

/// Remembers the use of an assertion until it ends.
pub fn note_assertion(tx: &mut Tx, claims: &AssertionClaims, namespace: &str)
    requires
        claims@.exp is Some,
        claims@.jti is Some,
    ensures
        final(tx)@ == assertion_used(old(tx)@, claims@, namespace@),
{
    if let (Some(exp), Some(jti)) = (claims.exp, &claims.jti) {
        let mut text = concat3(namespace, "\0", claims.iss.as_str());
        text.append("\0");
        text.append(jti.as_str());
        let key = digest(text.as_str());
        tx.assertion_replays.put(key.as_str(), exp);
    }
}

/// Consumes a short-lived assertion in the same transaction as its result.
pub fn consume_assertion(tx: &mut Tx, claims: &AssertionClaims, namespace: &str) -> (r: Result<
    (),
    Error,
>)
    ensures
        agrees(r, assertion_check(old(tx)@, claims@, namespace@)),
        final(tx)@ == if r is Ok {
            assertion_used(old(tx)@, claims@, namespace@)
        } else {
            old(tx)@
        },
{
    match check_assertion(tx, claims, namespace) {
        Ok(_) => {
            note_assertion(tx, claims, namespace);
            Ok(())
        },
        Err(e) => Err(e),
    }
}

/// An assertion that was used is refused for as long as it would be current.
pub proof fn assertions_are_used_once(
    t: TxModel,
    c: AssertionClaimsModel,
    namespace: Seq<char>,
    later: u64,
)
    requires
        assertion_check(t, c, namespace) is Ok,
        later >= t.now,
    ensures
        assertion_check(
            TxModel { now: later, ..assertion_used(t, c, namespace) },
            c,
            namespace,
        ) is Err,
{
}

/// The header of a token.
pub struct JwtHeader {
    pub algorithm: Option<Algorithm>,
    pub kid: Option<String>,
    /// The header names or carries a key of its own.
    pub own_key: bool,
    /// The header lists critical extensions.
    pub critical: bool,
}

/// What a [`JwtHeader`] holds.
pub struct JwtHeaderModel {
    pub algorithm: Option<Algorithm>,
    pub kid: Option<Seq<char>>,
    pub own_key: bool,
    pub critical: bool,
}

impl View for JwtHeader {
    type V = JwtHeaderModel;

    open spec fn view(&self) -> JwtHeaderModel {
        JwtHeaderModel {
            algorithm: self.algorithm,
            kid: crate::text::opt_text(self.kid),
            own_key: self.own_key,
            critical: self.critical,
        }
    }
}

impl Row for JwtHeader {
    fn dup(&self) -> (r: Self) {
        JwtHeader {
            algorithm: self.algorithm,
            kid: crate::text::copy_opt(&self.kid),
            own_key: self.own_key,
            critical: self.critical,
        }
    }
}

/// The first key with the id `kid`.
pub open spec fn key_for(keys: Seq<PublicJwkModel>, kid: Seq<char>) -> Option<PublicJwkModel>
    decreases keys.len(),
{
    if keys.len() == 0 {
        None
    } else if keys[0].kid == kid {
        Some(keys[0])
    } else {
        key_for(keys.drop_first(), kid)
    }
}

proof fn lemma_key_for(keys: Seq<PublicJwkModel>, kid: Seq<char>, i: int)
    requires
        0 <= i <= keys.len(),
        forall|j: int| 0 <= j < i ==> (#[trigger] keys[j]).kid != kid,
        i < keys.len() ==> keys[i].kid == kid,
    ensures
        key_for(keys, kid) == if i < keys.len() {
            Some(keys[i])
        } else {
            None
        },
    decreases keys.len(),
{
    if keys.len() > 0 && keys[0].kid != kid {
        assert forall|j: int| 0 <= j < i - 1 implies (#[trigger] keys.drop_first()[j]).kid != kid by {
            assert(keys.drop_first()[j] == keys[j + 1]);
        }
        lemma_key_for(keys.drop_first(), kid, i - 1);
    }
}

/// The pinned key that a token must verify under, or why it is refused before its signature is
/// looked at.
pub open spec fn pinned_key(
    s: PublicJwksModel,
    token: Seq<char>,
    header: Option<JwtHeaderModel>,
) -> Result<PublicJwkModel, Failure> {
    if byte_count(token) > 16_384 {
        Err(Failure::Bad("JWT exceeds size limit"@))
    } else {
        match header {
            None => Err(Failure::Bad("Malformed JWT header"@)),
            Some(h) => if h.own_key || h.critical {
                Err(Failure::Bad("JWT must use pinned keys and supported headers"@))
            } else if h.kid is None || key_for(s.keys, h.kid->0) is None {
                Err(Failure::Bad("Unknown JWT key"@))
            } else {
                let k = key_for(s.keys, h.kid->0)->0;
                match algorithm_of(k) {
                    None => Err(
                        Failure::Bad(
                            "Supported public signing keys: RS256, ES256/P-256, EdDSA/Ed25519"@,
                        ),
                    ),
                    Some(a) => if h.algorithm == Some(a) {
                        Ok(k)
                    } else {
                        Err(Failure::Bad("JWT algorithm does not match its registered key"@))
                    },
                }
            },
        }
    }
}

impl PublicJwks {
    /// The pinned key that `token`, whose header is `header`, must verify under. No address or key
    /// that the token names is ever used.
    pub fn verification_key(&self, token: &str, header: &Option<JwtHeader>) -> (r: Result<
        &PublicJwk,
        Error,
    >)
        ensures
            match pinned_key(self@, token@, opt_view(*header)) {
                Ok(k) => r is Ok && r->Ok_0@ == k,
                Err(f) => r is Err && r->Err_0@ == f,
            },
    {
        if byte_len(token) > 16_384 {
            return Err(Error::bad("JWT exceeds size limit"));
        }
        let h = match header {
            None => return Err(Error::bad("Malformed JWT header")),
            Some(h) => h,
        };
        if h.own_key || h.critical {
            return Err(Error::bad("JWT must use pinned keys and supported headers"));
        }
        let kid = match &h.kid {
            None => return Err(Error::bad("Unknown JWT key")),
            Some(k) => k.as_str(),
        };
        let key = match self.find(kid) {
            None => return Err(Error::bad("Unknown JWT key")),
            Some(k) => k,
        };
        match key.algorithm() {
            Err(e) => Err(e),
            Ok(a) => {
                let matches_key = match h.algorithm {
                    Some(b) => a == b,
                    None => false,
                };
                if matches_key {
                    Ok(key)
                } else {
                    Err(Error::bad("JWT algorithm does not match its registered key"))
                }
            },
        }
    }
}

/// What the header of a token says, as it stands.
pub struct TokenHeader {
    pub algorithm: Option<Algorithm>,
    pub kid: Option<String>,
    pub typ: Option<String>,
    pub jku: Option<String>,
    pub x5u: Option<String>,
    /// The header carries a key.
    pub jwk: bool,
    pub crit: Vec<String>,
}

/// What a [`TokenHeader`] holds.
pub struct TokenHeaderModel {
    pub algorithm: Option<Algorithm>,
    pub kid: Option<Seq<char>>,
    pub typ: Option<Seq<char>>,
    pub jku: Option<Seq<char>>,
    pub x5u: Option<Seq<char>>,
    pub jwk: bool,
    pub crit: Seq<Seq<char>>,
}

impl View for TokenHeader {
    type V = TokenHeaderModel;

    open spec fn view(&self) -> TokenHeaderModel {
        TokenHeaderModel {
            algorithm: self.algorithm,
            kid: crate::text::opt_text(self.kid),
            typ: crate::text::opt_text(self.typ),
            jku: crate::text::opt_text(self.jku),
            x5u: crate::text::opt_text(self.x5u),
            jwk: self.jwk,
            crit: crate::text::texts(self.crit@),
        }
    }
}

impl Row for TokenHeader {
    fn dup(&self) -> (r: Self) {
        TokenHeader {
            algorithm: self.algorithm,
            kid: crate::text::copy_opt(&self.kid),
            typ: crate::text::copy_opt(&self.typ),
            jku: crate::text::copy_opt(&self.jku),
            x5u: crate::text::copy_opt(&self.x5u),
            jwk: self.jwk,
            crit: crate::text::copy_list(&self.crit),
        }
    }
}

/// The header of a token, or `None` where it is malformed.
pub uninterp spec fn token_header(token: Seq<char>) -> Option<TokenHeaderModel>;

/// `jsonwebtoken::decode_header`: the header alone, with nothing verified. An algorithm that the
/// library does not know is `None`.
#[verifier::external_body]
pub(crate) fn decode_token_header(token: &str) -> (r: Option<TokenHeader>)
    ensures
        opt_view(r) == token_header(token@),
{
    let h = jsonwebtoken::decode_header(token).ok()?;
    let algorithm = match h.alg {
        jsonwebtoken::Algorithm::RS256 => Some(Algorithm::RS256),
        jsonwebtoken::Algorithm::ES256 => Some(Algorithm::ES256),
        jsonwebtoken::Algorithm::EdDSA => Some(Algorithm::EdDSA),
        _ => None,
    };
    let crit = h.crit.unwrap_or_default();
    Some(TokenHeader { algorithm, kid: h.kid, typ: h.typ, jku: h.jku, x5u: h.x5u, jwk: h.jwk.is_some(), crit })
}

/// The claims of a token's payload, or `None` where it is malformed.
pub uninterp spec fn token_claims(token: Seq<char>) -> Option<AssertionClaimsModel>;

/// `jsonwebtoken::dangerous::insecure_decode`: the claims that the payload carries, with nothing
/// verified.
#[verifier::external_body]
pub(crate) fn decode_token_claims(token: &str) -> (r: Option<AssertionClaims>)
    ensures
        opt_view(r) == token_claims(token@),
{
    let c = jsonwebtoken::dangerous::insecure_decode::<serde_json::Value>(token).ok()?.claims;
    Some(AssertionClaims {
        iss: c["iss"].to_string(),
        issuer: c["iss"].as_str().map(str::to_owned),
        aud: c["aud"].as_str().map(str::to_owned),
        sub: c["sub"].as_str().map(str::to_owned),
        sid: c["sid"].as_str().map(str::to_owned),
        iat: c["iat"].as_u64(),
        exp: c["exp"].as_u64(),
        jti: c["jti"].as_str().map(str::to_owned),
    })
}

/// Whether a token is signed, under an algorithm, by the key with these components in base64url: the
/// modulus and the exponent, or the coordinates (the second one is ignored where there is one).
pub uninterp spec fn token_signed(token: Seq<char>, algorithm: Algorithm, a: Seq<char>, b: Seq<char>) -> bool;

/// A text in base64url has the bytes of an Edwards curve key.
pub open spec fn ed_bytes(x: Seq<char>) -> bool {
    base64url_bytes(x) is Some && base64url_bytes(x)->0.len() >= 32
}

/// `jsonwebtoken::decode` with every validation of claims switched off: the payload parses and the
/// signature is that of the key, under the algorithm that the header names. It takes 32 bytes of an
/// Edwards curve key without looking, so shorter ones are left out.
#[verifier::external_body]
fn signature_stands(token: &str, algorithm: Algorithm, a: &str, b: &str) -> (r: bool)
    requires
        algorithm == Algorithm::EdDSA ==> ed_bytes(a@),
    ensures
        r == token_signed(token@, algorithm, a@, b@),
{
    let (alg, key) = match algorithm {
        Algorithm::RS256 => (jsonwebtoken::Algorithm::RS256, DecodingKey::from_rsa_components(a, b)),
        Algorithm::ES256 => (jsonwebtoken::Algorithm::ES256, DecodingKey::from_ec_components(a, b)),
        Algorithm::EdDSA => (jsonwebtoken::Algorithm::EdDSA, DecodingKey::from_ed_components(a)),
    };
    let mut v = Validation::new(alg);
    v.required_spec_claims.clear();
    v.validate_aud = false;
    v.validate_exp = false;
    v.validate_nbf = false;
    key.is_ok_and(|k| jsonwebtoken::decode::<Value>(token, &k, &v).is_ok())
}

/// What the claims of a token are held to.
pub struct ClaimRules {
    pub issuer: String,
    /// The audience, where it is looked at.
    pub audience: Option<String>,
    /// The claims that must be there.
    pub required: Vec<String>,
    /// An expired token is refused.
    pub expiring: bool,
    /// A token that is not valid yet is refused.
    pub starting: bool,
    /// By how many seconds the clocks may differ.
    pub leeway: u64,
}

/// What a [`ClaimRules`] holds.
pub struct ClaimRulesModel {
    pub issuer: Seq<char>,
    pub audience: Option<Seq<char>>,
    pub required: Seq<Seq<char>>,
    pub expiring: bool,
    pub starting: bool,
    pub leeway: u64,
}

impl View for ClaimRules {
    type V = ClaimRulesModel;

    open spec fn view(&self) -> ClaimRulesModel {
        ClaimRulesModel {
            issuer: self.issuer@,
            audience: crate::text::opt_text(self.audience),
            required: crate::text::texts(self.required@),
            expiring: self.expiring,
            starting: self.starting,
            leeway: self.leeway,
        }
    }
}

impl Row for ClaimRules {
    fn dup(&self) -> (r: Self) {
        ClaimRules {
            issuer: self.issuer.clone(),
            audience: crate::text::copy_opt(&self.audience),
            required: crate::text::copy_list(&self.required),
            expiring: self.expiring,
            starting: self.starting,
            leeway: self.leeway,
        }
    }
}

/// What a short-lived assertion is held to, or a security event, which has no expiry.
pub open spec fn claim_rules_of(issuer: Seq<char>, audience: Seq<char>, security_event: bool) -> ClaimRulesModel {
    ClaimRulesModel {
        issuer,
        audience: Some(audience),
        required: if security_event {
            seq!["iss"@, "aud"@, "iat"@, "jti"@]
        } else {
            seq!["iss"@, "aud"@, "exp"@]
        },
        expiring: !security_event,
        starting: true,
        leeway: 0,
    }
}

pub fn claim_rules(issuer: &str, audience: &str, security_event: bool) -> (r: ClaimRules)
    ensures
        r@ == claim_rules_of(issuer@, audience@, security_event),
{
    let mut required: Vec<String> = Vec::new();
    required.push("iss".to_owned());
    required.push("aud".to_owned());
    if security_event {
        required.push("iat".to_owned());
        required.push("jti".to_owned());
    } else {
        required.push("exp".to_owned());
    }
    assert(texts(required@) =~= claim_rules_of(issuer@, audience@, security_event).required);
    ClaimRules {
        issuer: issuer.to_owned(),
        audience: Some(audience.to_owned()),
        required,
        expiring: !security_event,
        starting: true,
        leeway: 0,
    }
}

/// A claim names a party: it is the name, or a list that holds it.
pub open spec fn names_party(v: Option<JsonModel>, name: Seq<char>) -> bool {
    match v {
        Some(JsonModel::Text(t)) => t == name,
        Some(JsonModel::Array(a)) => a.contains(JsonModel::Text(name)),
        _ => false,
    }
}

/// A claim is a time.
pub open spec fn is_time(v: Option<JsonModel>) -> bool {
    v matches Some(x) && (x is Unsigned || x is Fraction)
}

/// The required claims of a payload are there, and name the parties that the rules ask for. Of the
/// claims that may be required, the verification library looks at these five.
pub open spec fn claims_hold(p: JsonModel, rules: ClaimRulesModel) -> bool {
    &&& rules.required.contains("iss"@) ==> names_party(p.member("iss"@), rules.issuer)
    &&& rules.required.contains("aud"@) && rules.audience is Some ==> names_party(
        p.member("aud"@),
        rules.audience->0,
    )
    &&& rules.required.contains("exp"@) ==> is_time(p.member("exp"@))
    &&& rules.required.contains("nbf"@) ==> is_time(p.member("nbf"@))
    &&& rules.required.contains("sub"@) ==> (p.member("sub"@) matches Some(x) && x is Text)
}

/// What holds of the payload of a token that was accepted under `rules`. The verification library
/// reads the claims of a payload that is a list by their places: nothing is said of one.
pub open spec fn meets(token: Seq<char>, rules: ClaimRulesModel) -> bool {
    token_payload(token) matches Some(p) && (p is Object ==> claims_hold(p, rules))
}

/// `jsonwebtoken::decode` under a `Validation` made of `rules`. What it accepts depends on the time:
/// an expired token, and one that is not valid yet, is refused where the rules say so. Of every
/// outcome it holds that what is accepted is signed by the key, that its payload parses, that an
/// issuer or an audience that is a single name is the one asked for, and that the required claims of
/// a payload that is an object are there. It takes 32 bytes of an Edwards curve key without looking,
/// and the leeway from the present time without looking: both are left out where that fails. The
/// clock has to stand after 1970.
#[verifier::external_body]
fn claims_stand(token: &str, algorithm: Algorithm, a: &str, b: &str, rules: &ClaimRules) -> (r: bool)
    requires
        algorithm == Algorithm::EdDSA ==> ed_bytes(a@),
        rules.leeway <= 3600,
        rules.expiring ==> rules.leeway == 0,
    ensures
        r ==> token_signed(token@, algorithm, a@, b@),
        r ==> meets(token@, rules@),
        r ==> (token_claims(token@) matches Some(c) && (c.issuer matches Some(i) ==> i == rules@.issuer)
            && (c.aud is Some && rules@.audience is Some ==> c.aud == rules@.audience)),
{
    let (alg, key) = match algorithm {
        Algorithm::RS256 => (jsonwebtoken::Algorithm::RS256, DecodingKey::from_rsa_components(a, b)),
        Algorithm::ES256 => (jsonwebtoken::Algorithm::ES256, DecodingKey::from_ec_components(a, b)),
        Algorithm::EdDSA => (jsonwebtoken::Algorithm::EdDSA, DecodingKey::from_ed_components(a)),
    };
    let mut v = Validation::new(alg);
    v.set_issuer(&[&rules.issuer]);
    v.validate_aud = rules.audience.is_some();
    v.aud = rules.audience.clone().map(|a| HashSet::from([a]));
    v.set_required_spec_claims(&rules.required);
    v.validate_exp = rules.expiring;
    v.leeway = rules.leeway;
    v.validate_nbf = rules.starting;
    key.is_ok_and(|k| jsonwebtoken::decode::<Value>(token, &k, &v).is_ok())
}

/// What of a header decides about the key.
pub open spec fn header_of(token: Seq<char>) -> Option<JwtHeaderModel> {
    match token_header(token) {
        None => None,
        Some(h) => Some(
            JwtHeaderModel {
                algorithm: h.algorithm,
                kid: h.kid,
                own_key: h.jku is Some || h.jwk || h.x5u is Some,
                critical: h.crit.len() > 0,
            },
        ),
    }
}

/// Reads what of a token's header decides about the key.
pub fn read_header(token: &str) -> (r: Option<JwtHeader>)
    ensures
        opt_view(r) == header_of(token@),
{
    match decode_token_header(token) {
        None => None,
        Some(h) => {
            let ghost m = h@;
            assert(m.crit.len() == h.crit.len());
            Some(
                JwtHeader {
                    algorithm: h.algorithm,
                    kid: h.kid,
                    own_key: h.jku.is_some() || h.jwk || h.x5u.is_some(),
                    critical: h.crit.len() > 0,
                },
            )
        },
    }
}

/// A token is signed by a key of the right kind.
pub open spec fn signed_by(token: Seq<char>, k: PublicJwkModel) -> bool {
    match algorithm_of(k) {
        Some(Algorithm::RS256) => token_signed(token, Algorithm::RS256, k.n->0, k.e->0),
        Some(Algorithm::ES256) => token_signed(token, Algorithm::ES256, k.x->0, k.y->0),
        Some(Algorithm::EdDSA) => ed_bytes(k.x->0) && token_signed(token, Algorithm::EdDSA, k.x->0, ""@),
        None => false,
    }
}

/// A token's claims name no other issuer or audience than the one asked for.
pub open spec fn addressed(token: Seq<char>, issuer: Seq<char>, audience: Option<Seq<char>>) -> bool {
    token_claims(token) matches Some(c) && (c.issuer matches Some(i) ==> i == issuer) && (c.aud is Some && audience is Some
        ==> c.aud == audience)
}

/// A text, or the empty one.
fn text_or_empty(t: &Option<String>) -> (r: &str)
    ensures
        t is Some ==> r@ == t->0@,
{
    match t {
        Some(s) => s.as_str(),
        None => "",
    }
}

/// A key that can be made, of a supported algorithm, has the components of that algorithm.
proof fn lemma_components_there(k: PublicJwkModel)
    requires
        decodable(k),
    ensures
        algorithm_of(k) == Some(Algorithm::RS256) ==> k.n is Some && k.e is Some,
        algorithm_of(k) == Some(Algorithm::ES256) ==> k.x is Some && k.y is Some,
        algorithm_of(k) == Some(Algorithm::EdDSA) ==> k.x is Some,
{
    reveal_strlit("RSA");
    reveal_strlit("EC");
    reveal_strlit("OKP");
    assert("RSA"@[0] == 'R' && "EC"@[0] == 'E' && "OKP"@[0] == 'O');
}

/// Whether a text in base64url has the bytes of an Edwards curve key.
fn has_ed_bytes(x: &str) -> (r: bool)
    ensures
        r == ed_bytes(x@),
{
    match base64url_decode(x) {
        Some(b) => b.len() >= 32,
        None => false,
    }
}

impl PublicJwk {
    /// Whether this key signed a token.
    pub fn signed(&self, token: &str) -> (r: bool)
        ensures
            r == (decodable(self@) && signed_by(token@, self@)),
    {
        if self.decoding_key().is_err() {
            return false;
        }
        proof {
            lemma_components_there(self@);
        }
        match self.algorithm() {
            Err(_) => false,
            Ok(Algorithm::RS256) => signature_stands(
                token,
                Algorithm::RS256,
                text_or_empty(&self.n),
                text_or_empty(&self.e),
            ),
            Ok(Algorithm::ES256) => signature_stands(
                token,
                Algorithm::ES256,
                text_or_empty(&self.x),
                text_or_empty(&self.y),
            ),
            Ok(Algorithm::EdDSA) => has_ed_bytes(text_or_empty(&self.x)) && signature_stands(
                token,
                Algorithm::EdDSA,
                text_or_empty(&self.x),
                "",
            ),
        }
    }

    /// Whether this key signed a token whose claims meet `rules` at this time.
    pub(crate) fn accepts(&self, token: &str, rules: &ClaimRules) -> (r: bool)
        requires
            rules.leeway <= 3600,
            rules.expiring ==> rules.leeway == 0,
        ensures
            r ==> decodable(self@) && signed_by(token@, self@) && addressed(
                token@,
                rules@.issuer,
                rules@.audience,
            ) && meets(token@, rules@),
    {
        if self.decoding_key().is_err() {
            return false;
        }
        proof {
            lemma_components_there(self@);
        }
        match self.algorithm() {
            Err(_) => false,
            Ok(Algorithm::RS256) => claims_stand(
                token,
                Algorithm::RS256,
                text_or_empty(&self.n),
                text_or_empty(&self.e),
                rules,
            ),
            Ok(Algorithm::ES256) => claims_stand(
                token,
                Algorithm::ES256,
                text_or_empty(&self.x),
                text_or_empty(&self.y),
                rules,
            ),
            Ok(Algorithm::EdDSA) => has_ed_bytes(text_or_empty(&self.x)) && claims_stand(
                token,
                Algorithm::EdDSA,
                text_or_empty(&self.x),
                "",
                rules,
            ),
        }
    }
}

/// A claim is there.
pub open spec fn has_claim(p: JsonModel, name: Seq<char>) -> bool {
    p.member(name) matches Some(v) && v != JsonModel::Null
}

/// A security event says when it was issued and which one it is. The verification library does not
/// look at these two claims.
pub open spec fn event_named(token: Seq<char>) -> bool {
    token_payload(token) matches Some(p) && has_claim(p, "iat"@) && has_claim(p, "jti"@)
}

fn claims(p: &Json, name: &str) -> (r: bool)
    ensures
        r == has_claim(p@, name@),
{
    match p.get(name) {
        None => false,
        Some(Json::Null) => false,
        Some(_) => true,
    }
}

fn names_event(token: &str) -> (r: bool)
    ensures
        r == event_named(token@),
{
    match decode_payload(token) {
        None => false,
        Some(p) => claims(&p, "iat") && claims(&p, "jti"),
    }
}

/// What the verification of a token comes to, where `accepted` says whether its signature and its
/// claims stand at the time.
pub open spec fn verification(
    s: PublicJwksModel,
    token: Seq<char>,
    security_event: bool,
    accepted: bool,
) -> Result<AssertionClaimsModel, Failure> {
    match pinned_key(s, token, header_of(token)) {
        Err(f) => Err(f),
        Ok(k) => if !decodable(k) {
            Err(Failure::Bad("Invalid public JWK"@))
        } else if accepted && token_claims(token) is Some && (security_event ==> event_named(token)) {
            Ok(token_claims(token)->0)
        } else {
            Err(Failure::Bad("JWT signature or claims validation failed"@))
        },
    }
}

/// A verification fails before the time matters, or succeeds only for a token that the pinned key
/// signed for this issuer and audience, with the claims that an assertion or a security event needs.
pub open spec fn verified_claims(
    s: PublicJwksModel,
    token: Seq<char>,
    issuer: Seq<char>,
    audience: Seq<char>,
    security_event: bool,
    r: Result<AssertionClaims, Error>,
) -> bool {
    ||| agrees_with(r, verification(s, token, security_event, false))
    ||| {
        &&& agrees_with(r, verification(s, token, security_event, true))
        &&& r is Ok ==> signed_by(token, pinned_key(s, token, header_of(token))->Ok_0) && addressed(
            token,
            issuer,
            Some(audience),
        ) && meets(token, claim_rules_of(issuer, audience, security_event))
    }
}

/// Whether a key signed a token whose claims meet `rules` at this time.
pub(crate) fn judge_now(key: &PublicJwk, token: &str, rules: &ClaimRules) -> (r: bool)
    requires
        rules.leeway <= 3600,
        rules.expiring ==> rules.leeway == 0,
    ensures
        r ==> decodable(key@) && signed_by(token@, key@) && addressed(
            token@,
            rules@.issuer,
            rules@.audience,
        ) && meets(token@, rules@),
{
    key.accepts(token, rules)
}

impl PublicJwks {
    /// What the verification of a token comes to, where `accepted` says whether its signature and its
    /// claims stand at the time.
    pub fn finish_verification(&self, token: &str, security_event: bool, accepted: bool) -> (r: Result<
        AssertionClaims,
        Error,
    >)
        ensures
            agrees_with(r, verification(self@, token@, security_event, accepted)),
    {
        let header = read_header(token);
        let key = match self.verification_key(token, &header) {
            Err(e) => return Err(e),
            Ok(k) => k,
        };
        if let Err(e) = key.decoding_key() {
            return Err(e);
        }
        if !accepted || (security_event && !names_event(token)) {
            return Err(Error::bad("JWT signature or claims validation failed"));
        }
        match decode_token_claims(token) {
            Some(c) => Ok(c),
            None => Err(Error::bad("JWT signature or claims validation failed")),
        }
    }

    /// The claims of a token, once `judge` found that the pinned key signed it and that its claims
    /// stand. It is asked about this token alone, under the rules for an assertion or a security
    /// event, and whatever it answers decides; it is not asked where no pinned key fits.
    pub fn verify_claims<F: FnOnce(&PublicJwk, &str, &ClaimRules) -> bool>(
        &self,
        token: &str,
        issuer: &str,
        audience: &str,
        security_event: bool,
        judge: F,
    ) -> (r: Result<AssertionClaims, Error>)
        requires
            forall|k: &PublicJwk, t: &str, c: &ClaimRules|
                t@ == token@ && c@ == claim_rules_of(issuer@, audience@, security_event)
                    ==> #[trigger] judge.requires((k, t, c)),
        ensures
            match pinned_key(self@, token@, header_of(token@)) {
                Err(f) => fails(r, f),
                Ok(key) => if !decodable(key) {
                    fails(r, Failure::Bad("Invalid public JWK"@))
                } else {
                    exists|k: &PublicJwk, t: &str, c: &ClaimRules, accepted: bool|
                        {
                            &&& #[trigger] judge.ensures((k, t, c), accepted)
                            &&& k@ == key
                            &&& t@ == token@
                            &&& c@ == claim_rules_of(issuer@, audience@, security_event)
                            &&& agrees_with(
                                r,
                                verification(self@, token@, security_event, accepted),
                            )
                        }
                },
            },
    {
        let header = read_header(token);
        let key = match self.verification_key(token, &header) {
            Err(e) => return Err(e),
            Ok(k) => k,
        };
        if let Err(e) = key.decoding_key() {
            return Err(e);
        }
        let rules = claim_rules(issuer, audience, security_event);
        let accepted = judge(key, token, &rules);
        self.finish_verification(token, security_event, accepted)
    }

    /// Verifies a short-lived assertion: signature, issuer, audience and expiry.
    pub fn verify(&self, token: &str, issuer: &str, audience: &str) -> (r: Result<
        AssertionClaims,
        Error,
    >)
        ensures
            verified_claims(self@, token@, issuer@, audience@, false, r),
    {
        self.verify_claims(token, issuer, audience, false, judge_now)
    }

    /// Verifies a security event, which has no expiry but a time and an id of its own.
    pub fn verify_set(&self, token: &str, issuer: &str, audience: &str) -> (r: Result<
        AssertionClaims,
        Error,
    >)
        ensures
            verified_claims(self@, token@, issuer@, audience@, true, r),
    {
        self.verify_claims(token, issuer, audience, true, judge_now)
    }

    /// Whether a security event is signed by a key of this set, whatever it claims.
    pub fn verify_set_signature(&self, token: &str) -> (r: bool)
        ensures
            r == set_signed(self@, token@),
    {
        let h = match decode_token_header(token) {
            None => return false,
            Some(h) => h,
        };
        let kid = match &h.kid {
            None => return false,
            Some(k) => k.as_str(),
        };
        let key = match self.find(kid) {
            None => return false,
            Some(k) => k,
        };
        let fits = match (key.algorithm(), h.algorithm) {
            (Ok(a), Some(b)) => a == b,
            _ => false,
        };
        fits && key.signed(token)
    }
}

/// The key of this set that the header names signed the token, under the algorithm that it names.
pub open spec fn set_signed(s: PublicJwksModel, token: Seq<char>) -> bool {
    token_header(token) matches Some(h) && h.kid is Some && (key_for(s.keys, h.kid->0) matches Some(k)
        && algorithm_of(k) is Some && h.algorithm == algorithm_of(k) && decodable(k) && signed_by(token, k))
}

/// A token that verifies was signed by a registered key: no key that the token itself names or
/// carries is used.
pub proof fn tokens_verify_under_pinned_keys(
    s: PublicJwksModel,
    token: Seq<char>,
    issuer: Seq<char>,
    audience: Seq<char>,
    security_event: bool,
    r: Result<AssertionClaims, Error>,
)
    requires
        verified_claims(s, token, issuer, audience, security_event, r),
        r is Ok,
    ensures
        exists|i: int|
            0 <= i < s.keys.len() && signed_by(token, #[trigger] s.keys[i]) && token_header(token)->0.kid
                == Some(s.keys[i].kid) && token_header(token)->0.jku is None && !token_header(token)->0.jwk
                && token_header(token)->0.x5u is None,
{
    lemma_key_for_is_in(s.keys, token_header(token)->0.kid->0);
}

/// An assertion that verifies names its issuer, its audience and its expiry, and a security event
/// the first two, its time and its id.
pub proof fn verified_tokens_have_their_claims(
    s: PublicJwksModel,
    token: Seq<char>,
    issuer: Seq<char>,
    audience: Seq<char>,
    security_event: bool,
    r: Result<AssertionClaims, Error>,
)
    requires
        verified_claims(s, token, issuer, audience, security_event, r),
        r is Ok,
        token_payload(token)->0 is Object,
    ensures
        ({
            let p = token_payload(token)->0;
            &&& token_payload(token) is Some
            &&& names_party(p.member("iss"@), issuer)
            &&& names_party(p.member("aud"@), audience)
            &&& if security_event {
                has_claim(p, "iat"@) && has_claim(p, "jti"@)
            } else {
                is_time(p.member("exp"@))
            }
        }),
{
    let required = claim_rules_of(issuer, audience, security_event).required;
    assert(required[0] == "iss"@);
    assert(required[1] == "aud"@);
    assert(!security_event ==> required[2] == "exp"@);
}

proof fn lemma_key_for_is_in(keys: Seq<PublicJwkModel>, kid: Seq<char>)
    requires
        key_for(keys, kid) is Some,
    ensures
        exists|i: int| 0 <= i < keys.len() && #[trigger] keys[i] == key_for(keys, kid)->0 && keys[i].kid
            == kid,
    decreases keys.len(),
{
    if keys[0].kid == kid {
        assert(keys[0] == key_for(keys, kid)->0);
    } else {
        lemma_key_for_is_in(keys.drop_first(), kid);
        let i = choose|i: int|
            0 <= i < keys.drop_first().len() && #[trigger] keys.drop_first()[i] == key_for(
                keys.drop_first(),
                kid,
            )->0 && keys.drop_first()[i].kid == kid;
        assert(keys[i + 1] == keys.drop_first()[i]);
    }
}


fn same_key(a: &PublicJwk, b: &PublicJwk) -> (r: bool)
    ensures
        r == (a@ == b@),
{
    same(a.kty.as_str(), b.kty.as_str()) && same(a.kid.as_str(), b.kid.as_str()) && same(
        a.alg.as_str(),
        b.alg.as_str(),
    ) && same_opt(&a.usage, &b.usage) && same_list(&a.key_ops, &b.key_ops) && same_opt(&a.n, &b.n)
        && same_opt(&a.e, &b.e) && same_opt(&a.crv, &b.crv) && same_opt(&a.x, &b.x) && same_opt(
        &a.y,
        &b.y,
    )
}

#[verifier::loop_isolation(false)]
pub fn same_keys(a: &PublicJwks, b: &PublicJwks) -> (r: bool)
    ensures
        r == (a@ == b@),
{
    let ghost x = a@.keys;
    let ghost y = b@.keys;
    assert(x.len() == a.keys.len() && y.len() == b.keys.len());
    if a.keys.len() != b.keys.len() {
        return false;
    }
    let mut i: usize = 0;
    while i < a.keys.len()
        invariant
            i <= a.keys.len(),
            forall|j: int| 0 <= j < i ==> #[trigger] x[j] == y[j],
        decreases a.keys.len() - i,
    {
        assert(x[i as int] == a.keys[i as int]@ && y[i as int] == b.keys[i as int]@);
        if !same_key(&a.keys[i], &b.keys[i]) {
            return false;
        }
        i = i + 1;
    }
    assert(x =~= y);
    true
}

fn same_trust(a: &MachineTrust, b: &MachineTrust) -> (r: bool)
    ensures
        r == (a@ == b@),
{
    same(a.issuer.as_str(), b.issuer.as_str()) && same(a.subject.as_str(), b.subject.as_str())
        && same_keys(&a.jwks, &b.jwks) && a.scopes.same_names(&b.scopes)
}

#[verifier::loop_isolation(false)]
pub fn same_trusts(a: &Vec<MachineTrust>, b: &Vec<MachineTrust>) -> (r: bool)
    ensures
        r == (views(a@) == views(b@)),
{
    let ghost x = views(a@);
    let ghost y = views(b@);
    assert(x.len() == a.len() && y.len() == b.len());
    if a.len() != b.len() {
        return false;
    }
    let mut i: usize = 0;
    while i < a.len()
        invariant
            i <= a.len(),
            forall|j: int| 0 <= j < i ==> #[trigger] x[j] == y[j],
        decreases a.len() - i,
    {
        assert(x[i as int] == a[i as int]@ && y[i as int] == b[i as int]@);
        if !same_trust(&a[i], &b[i]) {
            return false;
        }
        i = i + 1;
    }
    assert(x =~= y);
    true
}

/// A JSON value of the serialization library.
#[verifier::external_type_specification]
#[verifier::external_body]
pub struct ExternalValue(serde_json::Value);

/// A `serde_json::Value`, converted variant by variant; an object's members come in the order of
/// their keys. The value is opaque here, so nothing is promised of the result.
#[verifier::external_body]
fn json_of(value: &serde_json::Value) -> (r: Json) {
    match value {
        Value::Null => Json::Null,
        Value::Bool(b) => Json::Bool(*b),
        Value::Number(n) => match (n.as_u64(), n.as_i64()) {
            (Some(u), _) => Json::Unsigned(u),
            (None, Some(i)) => Json::Negative(i),
            _ => Json::Fraction(n.to_string()),
        },
        Value::String(t) => Json::Text(t.clone()),
        Value::Array(v) => Json::Array(v.iter().map(json_of).collect()),
        Value::Object(m) => Json::Object(m.iter().map(|(k, v)| Member { key: k.clone(), value: json_of(v) }).collect()),
    }
}

/// The payload of a token, or `None` where it is malformed.
pub uninterp spec fn token_payload(token: Seq<char>) -> Option<JsonModel>;

/// `jsonwebtoken::dangerous::insecure_decode`: the whole payload, with nothing verified.
#[verifier::external_body]
pub(crate) fn decode_payload(token: &str) -> (r: Option<Json>)
    ensures
        opt_view(r) == token_payload(token@),
{
    jsonwebtoken::dangerous::insecure_decode::<Value>(token).ok().map(|data| json_of(&data.claims))
}

/// A registered key of this set signed the token for this issuer and audience, it has the claims of
/// an assertion, and these are they.
pub open spec fn token_stands(
    s: PublicJwksModel,
    token: Seq<char>,
    issuer: Seq<char>,
    audience: Seq<char>,
    c: AssertionClaimsModel,
) -> bool {
    (pinned_key(s, token, header_of(token)) matches Ok(k) && decodable(k) && signed_by(token, k))
        && addressed(token, issuer, Some(audience)) && meets(
        token,
        claim_rules_of(issuer, audience, false),
    ) && token_claims(token) == Some(c)
}

/// A signed assertion is taken where it says when it was made and ends, within five minutes, and carries
/// an id that was not used before.
pub proof fn fresh_assertions_are_taken(
    t: TxModel,
    c: AssertionClaimsModel,
    namespace: Seq<char>,
    iat: u64,
    exp: u64,
    jti: Seq<char>,
)
    requires
        c.iat == Some(iat),
        c.exp == Some(exp),
        c.jti == Some(jti),
        !t.assertion_replays.dom().contains(digest_of(namespace + "\0"@ + c.iss + "\0"@ + jti)),
    ensures
        assertion_check(t, c, namespace) is Ok <==> {
            &&& jti.len() > 0 && byte_count(jti) <= 256
            &&& iat <= t.now + 30
            &&& exp > t.now && exp > iat
            &&& exp - iat <= 300
            &&& t.now <= iat + 300
        },
        assertion_used(t, c, namespace).assertion_replays[digest_of(
            namespace + "\0"@ + c.iss + "\0"@ + jti,
        )] == exp,
{
}

/// A key says which algorithm it is for, and each algorithm has its own kind of key.
pub proof fn keys_are_for_one_algorithm(k: PublicJwkModel)
    ensures
        algorithm_of(k) == Some(Algorithm::RS256) <==> k.kty == "RSA"@ && k.alg == "RS256"@ && k.crv
            is None,
        algorithm_of(k) == Some(Algorithm::ES256) <==> k.kty == "EC"@ && k.alg == "ES256"@ && k.crv
            == Some("P-256"@),
        algorithm_of(k) == Some(Algorithm::EdDSA) <==> k.kty == "OKP"@ && k.alg == "EdDSA"@ && k.crv
            == Some("Ed25519"@),
{
    reveal_strlit("RSA");
    reveal_strlit("EC");
    reveal_strlit("OKP");
    assert("RSA"@[0] == 'R' && "EC"@[0] == 'E' && "OKP"@[0] == 'O');
}

/// A token is read with the registered key that its header names, of the algorithm of that key, and with
/// no key of its own.
pub proof fn tokens_name_a_registered_key(
    s: PublicJwksModel,
    token: Seq<char>,
    h: JwtHeaderModel,
)
    requires
        pinned_key(s, token, Some(h)) is Ok,
    ensures
        ({
            let k = pinned_key(s, token, Some(h))->Ok_0;
            &&& byte_count(token) <= 16384
            &&& !h.own_key && !h.critical
            &&& h.kid == Some(k.kid)
            &&& s.keys.contains(k)
            &&& h.algorithm is Some && h.algorithm == algorithm_of(k)
        }),
{
    lemma_the_key_for(s.keys, h.kid->0);
}

proof fn lemma_the_key_for(keys: Seq<PublicJwkModel>, kid: Seq<char>)
    requires
        key_for(keys, kid) is Some,
    ensures
        keys.contains(key_for(keys, kid)->0),
        (key_for(keys, kid)->0).kid == kid,
    decreases keys.len(),
{
    if keys[0].kid != kid {
        let r = keys.drop_first();
        lemma_the_key_for(r, kid);
        let i = r.index_of(key_for(r, kid)->0);
        assert(keys[i + 1] == r[i]);
    } else {
        assert(keys.contains(keys[0]));
    }
}

/// Registered keys can be told apart, and each is fit for its algorithm.
pub proof fn registered_keys_are_fit(keys: Seq<PublicJwkModel>, i: int, j: int)
    requires
        keys_check(keys) is Ok,
        0 <= i < keys.len(),
        0 <= j < i,
    ensures
        keys[i].kid != keys[j].kid,
        jwk_check(keys[i]) is Ok,
        algorithm_of(keys[i]) is Some,
        keys[i].kid.len() > 0,
    decreases keys.len(),
{
    if i < keys.len() - 1 {
        let d = keys.drop_last();
        registered_keys_are_fit(d, i, j);
        assert(d[i] == keys[i] && d[j] == keys[j]);
    } else {
        assert(keys.last() == keys[i]);
    }
}

/// A key has the parts of its algorithm and no others, each of the right size and written in the one
/// proper way.
pub proof fn keys_have_their_parts(k: PublicJwkModel)
    requires
        components_check(k) is Ok,
    ensures
        algorithm_of(k) is Some,
        algorithm_of(k) == Some(Algorithm::RS256) ==> {
            let n = base64url_bytes(k.n->0)->0;
            let e = base64url_bytes(k.e->0)->0;
            &&& k.n is Some && k.e is Some && k.x is None && k.y is None
            &&& base64url_of(n) == k.n->0 && base64url_of(e) == k.e->0
            &&& 2048 <= 8 * n.len() <= 4096
            &&& n[0] >= 128 && n.last() % 2 == 1
            &&& 1 <= e.len() <= 4 && e.last() % 2 == 1 && e != seq![1u8]
        },
        algorithm_of(k) == Some(Algorithm::ES256) ==> {
            let x = base64url_bytes(k.x->0)->0;
            let y = base64url_bytes(k.y->0)->0;
            &&& k.x is Some && k.y is Some && k.n is None && k.e is None
            &&& base64url_of(x) == k.x->0 && base64url_of(y) == k.y->0
            &&& x.len() == 32 && y.len() == 32
        },
        algorithm_of(k) == Some(Algorithm::EdDSA) ==> {
            let x = base64url_bytes(k.x->0)->0;
            &&& k.x is Some && k.y is None && k.n is None && k.e is None
            &&& base64url_of(x) == k.x->0
            &&& x.len() == 32
        },
{
}

/// A token stands if the key that it names is registered and signed it, it is by the issuer and for the
/// audience, and it says what is told of it.
pub proof fn standing_tokens_are_signed_and_addressed(
    s: PublicJwksModel,
    token: Seq<char>,
    issuer: Seq<char>,
    audience: Seq<char>,
    c: AssertionClaimsModel,
)
    requires
        token_stands(s, token, issuer, audience, c),
    ensures
        ({
            let k = pinned_key(s, token, header_of(token))->Ok_0;
            &&& pinned_key(s, token, header_of(token)) is Ok
            &&& signed_by(token, k)
            &&& decodable(k)
            &&& addressed(token, issuer, Some(audience))
            &&& token_claims(token) == Some(c)
        }),
{
}

/// A token is signed by a set of keys if the key that it names is in it, is for the token's algorithm
/// and signed it.
pub proof fn sets_sign_with_the_named_key(s: PublicJwksModel, token: Seq<char>)
    ensures
        set_signed(s, token) ==> ({
            let h = token_header(token)->0;
            let k = key_for(s.keys, h.kid->0)->0;
            &&& token_header(token) is Some
            &&& h.kid is Some
            &&& key_for(s.keys, h.kid->0) is Some
            &&& h.algorithm == algorithm_of(k) && algorithm_of(k) is Some
            &&& signed_by(token, k)
        }),
{
}

/// A key has a short printed name and is for verifying alone.
pub proof fn keys_are_for_verifying(k: PublicJwkModel)
    ensures
        usage_check(k) is Ok <==> {
            &&& 0 < k.kid.len() && byte_count(k.kid) <= 128 && all_graphic(k.kid)
            &&& k.usage is None || k.usage == Some("sig"@)
            &&& k.key_ops.len() == 0 || (k.key_ops.len() == 1 && k.key_ops[0] == "verify"@)
        },
{
    if k.key_ops.len() == 1 && k.key_ops[0] != "verify"@ {
        assert(exists|i: int| 0 <= i < k.key_ops.len() && #[trigger] k.key_ops[i] != "verify"@);
    }
}

/// A key with sound parts is accepted: a modulus of two to four thousand and ninety-six bits whose ends
/// are set, and an odd exponent of at most four bytes that is not one.
pub proof fn sound_parts_are_accepted(n: Seq<u8>, e: Seq<u8>)
    ensures
        rsa_sound(n, e) <==> {
            &&& 2048 <= 8 * n.len() <= 4096
            &&& n[0] as int / 128 == 1
            &&& n.last() as int % 2 == 1
            &&& 1 <= e.len() <= 4
            &&& e[0] != 0
            &&& e.last() as int % 2 == 1
            &&& e.len() == 1 ==> e[0] != 1
        },
{
}

/// An assertion is fresh: made by now, give or take half a minute, not over, and for at most five minutes
/// in all.
pub proof fn assertions_are_short_lived(iat: u64, exp: u64, at: u64)
    ensures
        short_lived(iat, exp, at) ==> iat as int - at as int <= 30 && at < exp && exp as int - iat as int <= 300,
        iat <= at && at < exp && exp - iat <= 300 ==> short_lived(iat, exp, at),
        at < iat && iat - at <= 30 && iat < exp && exp - iat <= 300 ==> short_lived(iat, exp, at),
        exp <= at || iat as int > at + 30 || exp as int - iat as int > 300 ==> !short_lived(iat, exp, at),
{
}

} // verus!
