//! Signing by an outside service, with pinned key versions and public keys.
use crate::engine::{ConfigModel, Core};
use crate::error::{Error, Failure, agrees, agrees_with, and_also, fails};
use crate::jose::{PublicJwk, PublicJwkModel, algorithm_of, decodable, decode_payload, jwk_check, signed_by, token_payload};
use crate::json::{Json, JsonModel, Member, canonical, json_text, lemma_members_of, member, members_of, same_json, text, text_of, to_canonical, to_text};
use crate::outside::{base64, base64_bytes, base64_decode, base64_of, base64url, base64url_bytes, base64url_decode, base64url_of, base64url_padded_bytes, base64url_padded_decode};
use crate::radius::requests::utf8_of;
use crate::rules::{Rules, RulesModel, name_check};
use crate::table::{Row, opt_view};
use crate::text::{all_graphic, byte_count, byte_len, concat3, decimal, decimal_text, has_control, has_prefix, is_graphic, same, same_list, same_opt, some_control, strip_prefix, trim, trim_end_char, trim_end_of, trimmed};
use vstd::utf8::encode_utf8;
use vstd::prelude::*;
use vstd::string::*;

verus! {

/// A signing service.
pub struct VaultSigner {
    pub address: String,
    pub mount: String,
    pub key_name: String,
    pub key_version: u32,
    pub public_jwk: PublicJwk,
    pub token_file: String,
    pub ca_file: Option<String>,
    pub namespace: Option<String>,
}

/// What a [`VaultSigner`] holds.
pub struct VaultSignerModel {
    pub address: Seq<char>,
    pub mount: Seq<char>,
    pub key_name: Seq<char>,
    pub key_version: u32,
    pub public_jwk: PublicJwkModel,
    pub token_file: Seq<char>,
    pub ca_file: Option<Seq<char>>,
    pub namespace: Option<Seq<char>>,
}

impl View for VaultSigner {
    type V = VaultSignerModel;

    open spec fn view(&self) -> VaultSignerModel {
        VaultSignerModel {
            address: self.address@,
            mount: self.mount@,
            key_name: self.key_name@,
            key_version: self.key_version,
            public_jwk: self.public_jwk@,
            token_file: self.token_file@,
            ca_file: crate::text::opt_text(self.ca_file),
            namespace: crate::text::opt_text(self.namespace),
        }
    }
}

impl Row for VaultSigner {
    fn dup(&self) -> (r: Self) {
        VaultSigner {
            address: self.address.clone(),
            mount: self.mount.clone(),
            key_name: self.key_name.clone(),
            key_version: self.key_version,
            public_jwk: self.public_jwk.dup(),
            token_file: self.token_file.clone(),
            ca_file: crate::text::copy_opt(&self.ca_file),
            namespace: crate::text::copy_opt(&self.namespace),
        }
    }
}

/// A key whose private half is held by a signing service.
pub struct RemoteKey {
    pub signer: String,
    pub key_version: u32,
    pub public_jwk: PublicJwk,
}

/// What a [`RemoteKey`] holds.
pub struct RemoteKeyModel {
    pub signer: Seq<char>,
    pub key_version: u32,
    pub public_jwk: PublicJwkModel,
}

impl View for RemoteKey {
    type V = RemoteKeyModel;

    open spec fn view(&self) -> RemoteKeyModel {
        RemoteKeyModel {
            signer: self.signer@,
            key_version: self.key_version,
            public_jwk: self.public_jwk@,
        }
    }
}

impl Row for RemoteKey {
    fn dup(&self) -> (r: Self) {
        RemoteKey {
            signer: self.signer.clone(),
            key_version: self.key_version,
            public_jwk: self.public_jwk.dup(),
        }
    }
}

pub open spec fn namespace_ok(n: Option<Seq<char>>) -> bool {
    match n {
        None => true,
        Some(s) => s.len() > 0 && byte_count(s) <= 256 && !some_control(s),
    }
}

pub open spec fn signer_check(s: VaultSignerModel, rules: RulesModel) -> Result<(), Failure> {
    if !rules.server_urls.contains(s.address) {
        Err(Failure::Bad("Vault address must use HTTPS or HTTP loopback"@))
    } else {
        and_also(
            name_check(rules, s.mount),
            and_also(
                name_check(rules, s.key_name),
                and_also(
                    jwk_check(s.public_jwk),
                    if s.key_version == 0 || !namespace_ok(s.namespace) {
                        Err(
                            Failure::Bad(
                                "Vault requires an explicit key_version and valid namespace"@,
                            ),
                        )
                    } else {
                        Ok(())
                    },
                ),
            ),
        )
    }
}

/// The prefix of the signatures of a key version.
pub open spec fn signature_prefix(version: u32) -> Seq<char> {
    "vault:v"@ + decimal(version as nat) + ":"@
}

pub open spec fn signer_failure() -> Failure {
    Failure::Reply(
        503,
        "signer_unavailable"@,
        "Configured signing service failed; no token was issued"@,
    )
}

fn unavailable() -> (e: Error)
    ensures
        e@ == signer_failure(),
{
    Error::reply(
        503,
        "signer_unavailable",
        "Configured signing service failed; no token was issued",
    )
}

/// The bytes of a signature: standard, then URL-safe, then unpadded base64.
pub open spec fn signature_bytes(s: Seq<char>) -> Option<Seq<u8>> {
    if base64_bytes(s) is Some {
        base64_bytes(s)
    } else if base64url_padded_bytes(s) is Some {
        base64url_padded_bytes(s)
    } else {
        base64url_bytes(s)
    }
}

/// The text of the signature in the service's reply.
pub open spec fn signature_text(reply: JsonModel, version: u32) -> Option<Seq<char>> {
    match reply.member("data"@) {
        None => None,
        Some(d) => match text_of(d, "signature"@) {
            None => None,
            Some(s) => if has_prefix(s, signature_prefix(version)) {
                Some(s.skip(signature_prefix(version).len() as int))
            } else {
                None
            },
        },
    }
}

/// The signature in the service's reply. One by another version of the key does not count.
pub open spec fn signature_of(reply: JsonModel, version: u32) -> Result<Seq<u8>, Failure> {
    match signature_text(reply, version) {
        None => Err(signer_failure()),
        Some(s) => match signature_bytes(s) {
            None => Err(signer_failure()),
            Some(b) => Ok(b),
        },
    }
}

pub open spec fn sign_url(s: VaultSignerModel) -> Seq<char> {
    trim_end_char(s.address, '/') + "/v1/"@ + s.mount + "/sign/"@ + s.key_name
}

/// The request for a signature.
pub open spec fn sign_body(s: VaultSignerModel, input: Seq<char>) -> JsonModel {
    JsonModel::Object(
        seq![
            ("input"@, JsonModel::Text(base64_of(encode_utf8(input)))),
            ("key_version"@, JsonModel::Unsigned(s.key_version as u64)),
            ("hash_algorithm"@, JsonModel::Text("sha2-256"@)),
            ("prehashed"@, JsonModel::Bool(false)),
            ("signature_algorithm"@, JsonModel::Text("pkcs1v15"@)),
            ("marshaling_algorithm"@, JsonModel::Text("jws"@)),
        ],
    )
}

/// The service's credential, as its private file holds it.
pub open spec fn vault_credential(text: Seq<char>) -> Result<Seq<char>, Failure> {
    let t = trimmed(text);
    if t.len() == 0 || byte_count(t) > 4096 || !all_graphic(t) {
        Err(Failure::Bad("Invalid Vault credential file"@))
    } else {
        Ok(t)
    }
}

pub fn read_vault_credential(text: &str) -> (r: Result<String, Error>)
    ensures
        agrees_with(r, vault_credential(text@)),
{
    let t = trim(text);
    if t.as_str().is_empty() || byte_len(t.as_str()) > 4096 || !is_graphic(t.as_str()) {
        return Err(Error::bad("Invalid Vault credential file"));
    }
    Ok(t)
}

impl VaultSigner {
    pub fn validate(&self, rules: &Rules) -> (r: Result<(), Error>)
        ensures
            agrees(r, signer_check(self@, rules@)),
    {
        if !rules.server_urls.contains(self.address.as_str()) {
            return Err(Error::bad("Vault address must use HTTPS or HTTP loopback"));
        }
        if let Err(e) = rules.check_name(self.mount.as_str()) {
            return Err(e);
        }
        if let Err(e) = rules.check_name(self.key_name.as_str()) {
            return Err(e);
        }
        if let Err(e) = self.public_jwk.validate() {
            return Err(e);
        }
        let named = match &self.namespace {
            None => true,
            Some(s) => !s.as_str().is_empty() && byte_len(s.as_str()) <= 256 && !has_control(
                s.as_str(),
            ),
        };
        if self.key_version == 0 || !named {
            return Err(
                Error::bad("Vault requires an explicit key_version and valid namespace"),
            );
        }
        Ok(())
    }

    /// Where and what to ask for a signature of `input`.
    pub fn sign_request(&self, input: &str) -> (r: (String, Json))
        ensures
            r.0@ == sign_url(self@),
            r.1@ == sign_body(self@, input@),
    {
        let base = trim_end_of(self.address.as_str(), '/');
        let mut url = concat3(base.as_str(), "/v1/", self.mount.as_str());
        url.append("/sign/");
        url.append(self.key_name.as_str());
        let bytes = utf8_of(input);
        let encoded = base64(bytes.as_slice());
        let mut m: Vec<Member> = Vec::new();
        m.push(member("input", text(encoded.as_str())));
        m.push(member("key_version", Json::Unsigned(self.key_version as u64)));
        m.push(member("hash_algorithm", text("sha2-256")));
        m.push(member("prehashed", Json::Bool(false)));
        m.push(member("signature_algorithm", text("pkcs1v15")));
        m.push(member("marshaling_algorithm", text("jws")));
        proof {
            lemma_members_of(m);
            assert(members_of(m@) =~= sign_body(self@, input@)->Object_0);
        }
        (url, Json::Object(m))
    }

    /// Takes the signature from the service's reply.
    pub fn take_signature(&self, reply: &Json) -> (r: Result<Vec<u8>, Error>)
        ensures
            match signature_of(reply@, self@.key_version) {
                Ok(b) => r is Ok && r->Ok_0@ == b,
                Err(f) => fails(r, f),
            },
    {
        let n = decimal_text(self.key_version as u64);
        let prefix = concat3("vault:v", n.as_str(), ":");
        let s = match reply.get("data") {
            None => return Err(unavailable()),
            Some(d) => match d.get_text("signature") {
                None => return Err(unavailable()),
                Some(s) => match strip_prefix(s.as_str(), prefix.as_str()) {
                    None => return Err(unavailable()),
                    Some(x) => x,
                },
            },
        };
        if let Some(b) = base64_decode(s.as_str()) {
            return Ok(b);
        }
        if let Some(b) = base64url_padded_decode(s.as_str()) {
            return Ok(b);
        }
        match base64url_decode(s.as_str()) {
            Some(b) => Ok(b),
            None => Err(unavailable()),
        }
    }
}

fn same_jwk(a: &PublicJwk, b: &PublicJwk) -> (r: bool)
    ensures
        r == (a@ == b@),
{
    same(a.kty.as_str(), b.kty.as_str()) && same(a.kid.as_str(), b.kid.as_str()) && same(
        a.alg.as_str(),
        b.alg.as_str(),
    ) && same_opt(&a.usage, &b.usage) && same_list(&a.key_ops, &b.key_ops) && same_opt(&a.n, &b.n)
        && same_opt(&a.e, &b.e) && same_opt(&a.crv, &b.crv) && same_opt(&a.x, &b.x) && same_opt(
        &a.y,
        &b.y,
    )
}

/// The service that signs for a remote key: its pinned version and public key are the key's.
pub open spec fn pinned_signer(config: ConfigModel, key: RemoteKeyModel) -> Result<
    VaultSignerModel,
    Failure,
> {
    if config.signers.dom().contains(key.signer) && config.signers[key.signer].key_version
        == key.key_version && config.signers[key.signer].public_jwk == key.public_jwk {
        Ok(config.signers[key.signer])
    } else {
        Err(signer_failure())
    }
}

/// What a token is signed over: its header and its claims.
pub open spec fn jwt_input(header: Seq<u8>, claims: Seq<u8>) -> Seq<char> {
    base64url_of(header) + "."@ + base64url_of(claims)
}

pub open spec fn jwt_text(input: Seq<char>, signature: Seq<u8>) -> Seq<char> {
    input + "."@ + base64url_of(signature)
}

/// The input of a signature over these serialized parts.
pub fn signing_input(header: &Vec<u8>, claims: &Vec<u8>) -> (r: String)
    ensures
        r@ == jwt_input(header@, claims@),
{
    let a = base64url(header.as_slice());
    let b = base64url(claims.as_slice());
    concat3(a.as_str(), ".", b.as_str())
}

/// The signed token.
pub fn signed_token(input: &str, signature: &Vec<u8>) -> (r: String)
    ensures
        r@ == jwt_text(input@, signature@),
{
    let s = base64url(signature.as_slice());
    concat3(input, ".", s.as_str())
}

/// What becomes of a token that a service signed.
pub open spec fn accepted_token(
    remote: RemoteKeyModel,
    token: Seq<char>,
    claims: JsonModel,
    carried: Option<JsonModel>,
) -> Result<Seq<char>, Failure> {
    if algorithm_of(remote.public_jwk) is None {
        Err(
            Failure::Bad("Supported public signing keys: RS256, ES256/P-256, EdDSA/Ed25519"@),
        )
    } else if !decodable(remote.public_jwk) {
        Err(Failure::Bad("Invalid public JWK"@))
    } else if signed_by(token, remote.public_jwk) && carried == Some(claims) {
        Ok(token)
    } else {
        Err(signer_failure())
    }
}

impl Core {
    /// The service that signs for a remote key.
    pub fn find_signer(&self, key: &RemoteKey) -> (r: Result<VaultSigner, Error>)
        ensures
            agrees_with(r, pinned_signer(self@.config, key@)),
    {
        match self.config.signers.get(key.signer.as_str()) {
            None => Err(unavailable()),
            Some(s) => {
                if s.key_version == key.key_version && same_jwk(&s.public_jwk, &key.public_jwk) {
                    Ok(s.dup())
                } else {
                    Err(unavailable())
                }
            },
        }
    }

    /// Takes a token only once it verified under the pinned public key with the claims that were
    /// signed: `carried` are the claims that its payload carries.
    fn accept_signed(&self, remote: &RemoteKey, token: String, claims: &Json, carried: &Option<Json>) -> (r:
        Result<String, Error>)
        ensures
            agrees_with(r, accepted_token(remote@, token@, claims@, opt_view(*carried))),
    {
        if let Err(e) = remote.public_jwk.algorithm() {
            return Err(e);
        }
        if let Err(e) = remote.public_jwk.decoding_key() {
            return Err(e);
        }
        if !remote.public_jwk.signed(token.as_str()) {
            return Err(unavailable());
        }
        match carried {
            None => Err(unavailable()),
            Some(v) => {
                if same_json(v, claims) {
                    Ok(token)
                } else {
                    Err(unavailable())
                }
            },
        }
    }

    /// The key that a configured service holds.
    pub fn external_signing_key(&self, name: &str, rules: &Rules) -> (r: Result<RemoteKey, Error>)
        ensures
            agrees_with(
                r,
                if !self@.config.signers.dom().contains(name@) {
                    Err(Failure::Bad("Unknown configured external signer"@))
                } else {
                    match signer_check(self@.config.signers[name@], rules@) {
                        Err(f) => Err(f),
                        Ok(_) => Ok(
                            RemoteKeyModel {
                                signer: name@,
                                key_version: self@.config.signers[name@].key_version,
                                public_jwk: self@.config.signers[name@].public_jwk,
                            },
                        ),
                    }
                },
            ),
    {
        let s = match self.config.signers.get(name) {
            None => return Err(Error::bad("Unknown configured external signer")),
            Some(s) => s,
        };
        if let Err(e) = s.validate(rules) {
            return Err(e);
        }
        Ok(
            RemoteKey {
                signer: name.to_owned(),
                key_version: s.key_version,
                public_jwk: s.public_jwk.dup(),
            },
        )
    }
}

/// The key of a configured service is signed for by that service, as long as it stays configured the
/// same way.
pub proof fn external_keys_find_their_signer(config: ConfigModel, name: Seq<char>)
    requires
        config.signers.dom().contains(name),
    ensures
        pinned_signer(
            config,
            RemoteKeyModel {
                signer: name,
                key_version: config.signers[name].key_version,
                public_jwk: config.signers[name].public_jwk,
            },
        ) == Ok::<VaultSignerModel, Failure>(config.signers[name]),
{
}

/// What a service signed is taken only once it verified under the pinned key, with the claims that
/// were to be signed.
pub proof fn signatures_are_taken_verified(
    remote: RemoteKeyModel,
    token: Seq<char>,
    claims: JsonModel,
    carried: Option<JsonModel>,
)
    requires
        accepted_token(remote, token, claims, carried) is Ok,
    ensures
        accepted_token(remote, token, claims, carried) == Ok::<Seq<char>, Failure>(token),
        signed_by(token, remote.public_jwk),
        carried == Some(claims),
{
}

/// The header of a token that a key signs.
pub open spec fn header_model(algorithm: Seq<char>, kid: Seq<char>, typ: Seq<char>) -> JsonModel {
    JsonModel::Object(
        seq![
            ("alg"@, JsonModel::Text(algorithm)),
            ("kid"@, JsonModel::Text(kid)),
            ("typ"@, JsonModel::Text(typ)),
        ],
    )
}

/// The header of a token of a type that this key signs.
pub fn signing_header(remote: &RemoteKey, typ: &str) -> (r: Json)
    ensures
        r@ == header_model(remote@.public_jwk.alg, remote@.public_jwk.kid, typ@),
{
    let mut m: Vec<Member> = Vec::new();
    m.push(member("alg", text(remote.public_jwk.alg.as_str())));
    m.push(member("kid", text(remote.public_jwk.kid.as_str())));
    m.push(member("typ", text(typ)));
    proof {
        lemma_members_of(m);
        assert(members_of(m@) =~= header_model(
            remote@.public_jwk.alg,
            remote@.public_jwk.kid,
            typ@,
        )->Object_0);
    }
    Json::Object(m)
}

/// What a service signs for a header and claims: their JSON texts, members by key.
pub open spec fn input_of(header: JsonModel, claims: JsonModel) -> Seq<char> {
    jwt_input(
        encode_utf8(json_text(canonical(header))),
        encode_utf8(json_text(canonical(claims))),
    )
}

/// The text that a service is to sign for a header and claims.
pub fn write_input(header: &Json, claims: &Json) -> (r: String)
    ensures
        r@ == input_of(header@, claims@),
{
    let h = to_canonical(header);
    let c = to_canonical(claims);
    let ht = to_text(&h);
    let ct = to_text(&c);
    let hb = utf8_of(ht.as_str());
    let cb = utf8_of(ct.as_str());
    signing_input(&hb, &cb)
}

impl Core {
    /// Makes the token of a header, claims and the signature that a service gave, and takes it only
    /// once it verified under the pinned key and was found to carry these claims.
    pub fn finish_signed(
        &self,
        remote: &RemoteKey,
        header: &Json,
        claims: &Json,
        signature: &Vec<u8>,
    ) -> (r: Result<String, Error>)
        ensures
            ({
                let token = jwt_text(input_of(header@, claims@), signature@);
                agrees_with(
                    r,
                    accepted_token(remote@, token, canonical(claims@), token_payload(token)),
                )
            }),
    {
        let input = write_input(header, claims);
        let token = signed_token(input.as_str(), signature);
        let carried = decode_payload(token.as_str());
        let wanted = to_canonical(claims);
        self.accept_signed(remote, token, &wanted, &carried)
    }
}

/// A request to sign goes to the pinned key of the signer, with the text that is to be signed and the
/// version that is pinned.
pub proof fn signing_requests_name_the_pinned_key(s: VaultSignerModel, input: Seq<char>)
    ensures
        sign_url(s) == trim_end_char(s.address, '/') + "/v1/"@ + s.mount + "/sign/"@ + s.key_name,
        sign_body(s, input).member("input"@) == Some(JsonModel::Text(base64_of(encode_utf8(input)))),
        sign_body(s, input).member("key_version"@) == Some(JsonModel::Unsigned(s.key_version as u64)),
        sign_body(s, input).member("hash_algorithm"@) == Some(JsonModel::Text("sha2-256"@)),
        sign_body(s, input).member("prehashed"@) == Some(JsonModel::Bool(false)),
{
    reveal_strlit("input");
    reveal_strlit("key_version");
    reveal_strlit("hash_algorithm");
    reveal_strlit("prehashed");
    assert("input"@.len() == 5 && "key_version"@.len() == 11 && "hash_algorithm"@.len() == 14
        && "prehashed"@.len() == 9);
    reveal_with_fuel(crate::json::lookup, 6);
    let m = sign_body(s, input)->Object_0;
    assert(m.len() == 6);
}

/// A signature is taken from a reply under the version that was asked for, and no other.
pub proof fn signatures_are_of_the_pinned_version(reply: JsonModel, version: u32)
    requires
        signature_of(reply, version) is Ok,
    ensures
        reply.member("data"@) is Some,
        text_of(reply.member("data"@)->0, "signature"@) is Some,
        ({
            let text = text_of(reply.member("data"@)->0, "signature"@)->0;
            let prefix = "vault:v"@ + decimal(version as nat) + ":"@;
            &&& has_prefix(text, prefix)
            &&& base64_bytes(text.skip(prefix.len() as int)) matches Some(b) ==> signature_of(
                reply,
                version,
            ) == Ok::<Seq<u8>, Failure>(b)
        }),
{
}

/// A signed token is its header, its claims and its signature, each encoded, with dots between them.
pub proof fn tokens_have_three_parts(header: Seq<u8>, claims: Seq<u8>, signature: Seq<u8>)
    ensures
        jwt_text(jwt_input(header, claims), signature) == base64url_of(header) + "."@ + base64url_of(
            claims,
        ) + "."@ + base64url_of(signature),
{
}

/// A configured signer names a server, a key and its version.
pub proof fn signers_are_pinned(s: VaultSignerModel, rules: RulesModel)
    requires
        signer_check(s, rules) is Ok,
    ensures
        rules.server_urls.contains(s.address),
        s.key_version > 0,
        jwk_check(s.public_jwk) is Ok,
        s.namespace matches Some(n) ==> n.len() > 0 && byte_count(n) <= 256,
{
}

/// A credential of the signer is one line of printed characters, blanks around it aside.
pub proof fn vault_credentials_are_printed(text: Seq<char>)
    ensures
        vault_credential(text) is Ok <==> 0 < trimmed(text).len() && byte_count(trimmed(text)) <= 4096
            && all_graphic(trimmed(text)),
        vault_credential(text) matches Ok(t) ==> t == trimmed(text),
{
}

/// A token's header names its algorithm, key and type.
pub proof fn headers_name_their_key(algorithm: Seq<char>, kid: Seq<char>, typ: Seq<char>)
    ensures
        header_model(algorithm, kid, typ).member("alg"@) == Some(JsonModel::Text(algorithm)),
        header_model(algorithm, kid, typ).member("kid"@) == Some(JsonModel::Text(kid)),
        header_model(algorithm, kid, typ).member("typ"@) == Some(JsonModel::Text(typ)),
{
    reveal_with_fuel(crate::json::lookup, 4);
    reveal_strlit("alg");
    reveal_strlit("kid");
    reveal_strlit("typ");
    assert("alg"@[0] == 'a' && "kid"@[0] == 'k' && "typ"@[0] == 't');
    let m = header_model(algorithm, kid, typ)->Object_0;
    assert(m.drop_first()[0] == m[1]);
    assert(m.drop_first().drop_first()[0] == m[2]);
}

/// A namespace is left out or is a short text without control characters.
pub proof fn namespaces_are_short(s: Seq<char>)
    ensures
        namespace_ok(None),
        namespace_ok(Some(s)) <==> 0 < s.len() && byte_count(s) <= 256 && !some_control(s),
{
}

} // verus!
