//! Login with a client certificate. Enrollment is an explicit fingerprint or SAN binding.
use crate::engine::{Config, ConfigModel, Core, Principal, PrincipalModel, audit, audited, drawn, earlier, extended, next_id};
use crate::error::{Error, Failure, agrees, agrees_with, and_also, copy_error, fails};
use crate::logout::{SelectionModel, queue_session, queued};
use crate::model::{AuthenticationTransaction, AuthenticationTransactionModel, Identity, IdentityModel, Session, SessionModel, User, UserModel, UserView, UserViewModel, user_view};
use crate::names::{Names, in_order};
use crate::oidc::authorize::{reject_embedded_stage, stage_check};
use crate::outside::{SanName, SanNameModel, base64url, base64url_of, byte_lists, certificate_of, digest, digest_of, opt_bytes, parse_certificate, pem_certificates, pem_certs, sha256, sha256_of, string_from_bytes};
use crate::rules::{Rules, RulesModel, name_check, rule_check};
use crate::store::{Tx, TxModel};
use crate::table::{Row, Table, opt_view, purges_leave_what_does_not_match, views, without};
use crate::text::{among, ascii_alphanumeric, byte_count, byte_len, chars_of, concat3, copy_bytes, has_char, has_control, has_prefix, has_whitespace, is_alphanumeric, lower, lowercase, opt_is, opt_text, same, same_opt, some_control, some_whitespace, starts_with, texts, trim, trimmed};
use crate::trust::{chain_result, material_check, profile_chain, verify_presented};
use vstd::utf8::{decode_utf8, encode_utf8, encode_utf8_decode_utf8, valid_utf8};
use vstd::prelude::*;
use vstd::string::*;

verus! {

/// Whether the certificate login is offered beside others. Neither mode asks for a certificate on
/// other routes.
#[derive(Clone, Copy, PartialEq, Eq, Structural, Debug)]
pub enum ClientCertMode {
    Optional,
    Required,
}

/// Where client certificates are trusted from.
pub struct ClientCertAuth {
    pub trust_anchors_file: String,
    pub mode: ClientCertMode,
    pub crl_file: Option<String>,
    /// PEM client certificate header, ignored unless the immediate peer is a trusted proxy.
    pub forwarded_header: Option<String>,
}

/// What a [`ClientCertAuth`] holds.
pub struct ClientCertAuthModel {
    pub trust_anchors_file: Seq<char>,
    pub mode: ClientCertMode,
    pub crl_file: Option<Seq<char>>,
    pub forwarded_header: Option<Seq<char>>,
}

impl View for ClientCertAuth {
    type V = ClientCertAuthModel;

    open spec fn view(&self) -> ClientCertAuthModel {
        ClientCertAuthModel {
            trust_anchors_file: self.trust_anchors_file@,
            mode: self.mode,
            crl_file: crate::text::opt_text(self.crl_file),
            forwarded_header: crate::text::opt_text(self.forwarded_header),
        }
    }
}

impl Row for ClientCertAuth {
    fn dup(&self) -> (r: Self) {
        ClientCertAuth {
            trust_anchors_file: self.trust_anchors_file.clone(),
            mode: self.mode,
            crl_file: crate::text::copy_opt(&self.crl_file),
            forwarded_header: crate::text::copy_opt(&self.forwarded_header),
        }
    }
}

/// The certificates of a TLS connection.
pub struct TlsClientCerts {
    pub ders: Vec<Vec<u8>>,
}

/// A request to enroll a certificate identity.
pub struct BindInput {
    pub username: String,
    pub certificate_pem: Option<String>,
    pub san_uri: Option<String>,
    pub san_email: Option<String>,
}

/// What a [`BindInput`] holds.
pub struct BindInputModel {
    pub username: Seq<char>,
    pub certificate_pem: Option<Seq<char>>,
    pub san_uri: Option<Seq<char>>,
    pub san_email: Option<Seq<char>>,
}

impl View for BindInput {
    type V = BindInputModel;

    open spec fn view(&self) -> BindInputModel {
        BindInputModel {
            username: self.username@,
            certificate_pem: crate::text::opt_text(self.certificate_pem),
            san_uri: crate::text::opt_text(self.san_uri),
            san_email: crate::text::opt_text(self.san_email),
        }
    }
}

impl Row for BindInput {
    fn dup(&self) -> (r: Self) {
        BindInput {
            username: self.username.clone(),
            certificate_pem: crate::text::copy_opt(&self.certificate_pem),
            san_uri: crate::text::copy_opt(&self.san_uri),
            san_email: crate::text::copy_opt(&self.san_email),
        }
    }
}

/// A user's enrolled certificate identity.
pub struct Binding {
    pub id: String,
    pub username: String,
    pub user_id: String,
    pub fingerprint: Option<String>,
    pub san_uri: Option<String>,
    pub san_email: Option<String>,
    pub not_after: Option<u64>,
    pub created_at: u64,
}

/// What a [`Binding`] holds.
pub struct BindingModel {
    pub id: Seq<char>,
    pub username: Seq<char>,
    pub user_id: Seq<char>,
    pub fingerprint: Option<Seq<char>>,
    pub san_uri: Option<Seq<char>>,
    pub san_email: Option<Seq<char>>,
    pub not_after: Option<u64>,
    pub created_at: u64,
}

impl View for Binding {
    type V = BindingModel;

    open spec fn view(&self) -> BindingModel {
        BindingModel {
            id: self.id@,
            username: self.username@,
            user_id: self.user_id@,
            fingerprint: crate::text::opt_text(self.fingerprint),
            san_uri: crate::text::opt_text(self.san_uri),
            san_email: crate::text::opt_text(self.san_email),
            not_after: self.not_after,
            created_at: self.created_at,
        }
    }
}

impl Row for Binding {
    fn dup(&self) -> (r: Self) {
        Binding {
            id: self.id.clone(),
            username: self.username.clone(),
            user_id: self.user_id.clone(),
            fingerprint: crate::text::copy_opt(&self.fingerprint),
            san_uri: crate::text::copy_opt(&self.san_uri),
            san_email: crate::text::copy_opt(&self.san_email),
            not_after: self.not_after,
            created_at: self.created_at,
        }
    }
}

/// The binding that a session was opened with.
pub struct LoginLink {
    pub binding_id: String,
    pub selector: String,
    pub expires_at: u64,
}

/// What a [`LoginLink`] holds.
pub struct LoginLinkModel {
    pub binding_id: Seq<char>,
    pub selector: Seq<char>,
    pub expires_at: u64,
}

impl View for LoginLink {
    type V = LoginLinkModel;

    open spec fn view(&self) -> LoginLinkModel {
        LoginLinkModel {
            binding_id: self.binding_id@,
            selector: self.selector@,
            expires_at: self.expires_at,
        }
    }
}

impl Row for LoginLink {
    fn dup(&self) -> (r: Self) {
        LoginLink {
            binding_id: self.binding_id.clone(),
            selector: self.selector.clone(),
            expires_at: self.expires_at,
        }
    }
}

/// The identity that a verified certificate carries.
pub struct Leaf {
    pub fingerprint: String,
    pub emails: Vec<String>,
    pub uris: Vec<String>,
    pub not_after: u64,
}

/// What a [`Leaf`] holds.
pub struct LeafModel {
    pub fingerprint: Seq<char>,
    pub emails: Seq<Seq<char>>,
    pub uris: Seq<Seq<char>>,
    pub not_after: u64,
}

impl View for Leaf {
    type V = LeafModel;

    open spec fn view(&self) -> LeafModel {
        LeafModel {
            fingerprint: self.fingerprint@,
            emails: crate::text::texts(self.emails@),
            uris: crate::text::texts(self.uris@),
            not_after: self.not_after,
        }
    }
}

impl Row for Leaf {
    fn dup(&self) -> (r: Self) {
        Leaf {
            fingerprint: self.fingerprint.clone(),
            emails: crate::text::copy_list(&self.emails),
            uris: crate::text::copy_list(&self.uris),
            not_after: self.not_after,
        }
    }
}

/// A single HTTP header token of at most 64 letters, digits and inner hyphens.
pub open spec fn header_token(s: Seq<char>) -> bool {
    &&& 1 <= s.len() <= 64
    &&& forall|i: int| 0 <= i < s.len() ==> ascii_alphanumeric(#[trigger] s[i]) || s[i] == '-'
    &&& s[0] != '-'
    &&& s.last() != '-'
}

/// A header that requests already use for something else.
pub open spec fn reserved_header(s: Seq<char>) -> bool {
    s == "authorization"@ || s == "cookie"@ || s == "host"@ || s == "content-type"@ || s
        == "content-length"@ || s == "x-forwarded-for"@ || s == "forwarded"@ || s == "connection"@ || s
        == "transfer-encoding"@
}

pub open spec fn header_check(name: Seq<char>) -> Result<(), Failure> {
    if !header_token(name) {
        Err(Failure::Bad("forwarded_header must be one HTTP header token"@))
    } else if reserved_header(lower(name)) {
        Err(Failure::Bad("forwarded_header cannot replace an existing request header"@))
    } else {
        Ok(())
    }
}

fn is_header_token(name: &str) -> (r: bool)
    ensures
        r == header_token(name@),
{
    let v = chars_of(name);
    let mut i: usize = 0;
    while i < v.len()
        invariant
            i <= v.len(),
            v@ == name@,
            forall|j: int| 0 <= j < i ==> ascii_alphanumeric(#[trigger] name@[j]) || name@[j] == '-',
        decreases v.len() - i,
    {
        if !(is_alphanumeric(v[i]) || v[i] == '-') {
            assert(!(ascii_alphanumeric(name@[i as int]) || name@[i as int] == '-'));
            return false;
        }
        i = i + 1;
    }
    v.len() >= 1 && v.len() <= 64 && v[0] != '-' && v[v.len() - 1] != '-'
}

pub fn validate_header_name(name: &str) -> (r: Result<(), Error>)
    ensures
        agrees(r, header_check(name@)),
{
    if !is_header_token(name) {
        return Err(Error::bad("forwarded_header must be one HTTP header token"));
    }
    let low = lowercase(name);
    let s = low.as_str();
    if same(s, "authorization") || same(s, "cookie") || same(s, "host") || same(s, "content-type")
        || same(s, "content-length") || same(s, "x-forwarded-for") || same(s, "forwarded") || same(
        s,
        "connection",
    ) || same(s, "transfer-encoding") {
        return Err(Error::bad("forwarded_header cannot replace an existing request header"));
    }
    Ok(())
}

pub open spec fn profile_check(a: ClientCertAuthModel, cfg: ConfigModel) -> Result<(), Failure> {
    if a.trust_anchors_file.len() == 0 || (a.crl_file matches Some(f) && f.len() == 0) {
        Err(Failure::Bad("Client certificate trust files must be set"@))
    } else {
        and_also(
            match a.forwarded_header {
                None => Ok(()),
                Some(h) => and_also(
                    header_check(h),
                    if cfg.trusted_proxies.len() == 0 {
                        Err(
                            Failure::Bad(
                                "forwarded_header requires at least one trusted proxy address"@,
                            ),
                        )
                    } else {
                        Ok(())
                    },
                ),
            },
            if !cfg.native_tls && a.forwarded_header is None {
                Err(
                    Failure::Bad(
                        "Client certificate authentication without native TLS requires forwarded_header"@,
                    ),
                )
            } else {
                Ok(())
            },
        )
    }
}

impl ClientCertAuth {
    pub fn validate(&self, config: &Config) -> (r: Result<(), Error>)
        ensures
            agrees(r, profile_check(self@, config@)),
    {
        let no_crl = match &self.crl_file {
            Some(f) => f.as_str().is_empty(),
            None => false,
        };
        if self.trust_anchors_file.as_str().is_empty() || no_crl {
            return Err(Error::bad("Client certificate trust files must be set"));
        }
        if let Some(header) = &self.forwarded_header {
            if let Err(e) = validate_header_name(header.as_str()) {
                return Err(e);
            }
            if config.trusted_proxies.is_empty() {
                return Err(
                    Error::bad("forwarded_header requires at least one trusted proxy address"),
                );
            }
        }
        if !config.native_tls && self.forwarded_header.is_none() {
            return Err(
                Error::bad(
                    "Client certificate authentication without native TLS requires forwarded_header",
                ),
            );
        }
        Ok(())
    }
}

pub open spec fn rejection(message: Seq<char>) -> Failure {
    Failure::Reply(401, "invalid_credentials"@, message)
}

pub open spec fn no_certificate() -> Failure {
    Failure::Reply(401, "certificate_required"@, "Client certificate required"@)
}

fn missing_certificate() -> (e: Error)
    ensures
        e@ == no_certificate(),
{
    Error::reply(401, "certificate_required", "Client certificate required")
}

fn rejected(message: &str) -> (e: Error)
    ensures
        e@ == rejection(message@),
{
    Error::reply(401, "invalid_credentials", message)
}

/// SHA-256 of the leaf DER in base64url. The subject's common name is not an identity.
pub open spec fn fingerprint_of(der: Seq<u8>) -> Seq<char> {
    base64url_of(sha256_of(der))
}

pub fn fingerprint(der: &[u8]) -> (r: String)
    ensures
        r@ == fingerprint_of(der@),
{
    let hash = sha256(der);
    base64url(hash.as_slice())
}

/// The value of a hexadecimal digit.
pub open spec fn nibble(b: u8) -> Option<u8> {
    if 48 <= b <= 57 {
        Some((b - 48) as u8)
    } else if 97 <= b <= 102 {
        Some((b - 97 + 10) as u8)
    } else if 65 <= b <= 70 {
        Some((b - 65 + 10) as u8)
    } else {
        None
    }
}

/// The bytes that a percent-encoded text stands for, from position `i` on.
pub open spec fn percent_bytes(s: Seq<u8>, i: int) -> Option<Seq<u8>>
    decreases s.len() - i,
{
    if i < 0 || i >= s.len() {
        Some(Seq::empty())
    } else if s[i] == 37 {
        if i + 2 >= s.len() || nibble(s[i + 1]) is None || nibble(s[i + 2]) is None {
            None
        } else {
            match percent_bytes(s, i + 3) {
                None => None,
                Some(rest) => Some(
                    seq![(16 * nibble(s[i + 1])->0 + nibble(s[i + 2])->0) as u8] + rest,
                ),
            }
        }
    } else {
        match percent_bytes(s, i + 1) {
            None => None,
            Some(rest) => Some(seq![s[i]] + rest),
        }
    }
}

fn hex_nibble(byte: u8) -> (r: Option<u8>)
    ensures
        r == nibble(byte),
        r matches Some(n) ==> n < 16,
{
    if 48 <= byte && byte <= 57 {
        Some(byte - 48)
    } else if 97 <= byte && byte <= 102 {
        Some(byte - 97 + 10)
    } else if 65 <= byte && byte <= 70 {
        Some(byte - 65 + 10)
    } else {
        None
    }
}

/// Decodes a percent-encoded text.
pub fn percent_decode(value: &str) -> (r: Result<String, Error>)
    ensures
        match percent_bytes(encode_utf8(value@), 0) {
            Some(b) => if valid_utf8(b) {
                r is Ok && encode_utf8(r->Ok_0@) == b
            } else {
                fails(r, Failure::Bad("Invalid forwarded certificate encoding"@))
            },
            None => fails(r, Failure::Bad("Invalid forwarded certificate encoding"@)),
        },
{
    let bytes = value.as_bytes();
    let ghost s = bytes@;
    let mut out: Vec<u8> = Vec::new();
    let mut index: usize = 0;
    let ghost whole = percent_bytes(s, 0);
    while index < bytes.len()
        invariant
            index <= bytes.len(),
            s == bytes@,
            s == encode_utf8(value@),
            whole == percent_bytes(s, 0),
            match percent_bytes(s, index as int) {
                Some(rest) => whole == Some(out@ + rest),
                None => whole is None,
            },
        decreases bytes.len() - index,
    {
        if bytes[index] == 37 {
            if bytes.len() - index < 3 {
                return Err(Error::bad("Invalid forwarded certificate encoding"));
            }
            let high = match hex_nibble(bytes[index + 1]) {
                Some(n) => n,
                None => return Err(Error::bad("Invalid forwarded certificate encoding")),
            };
            let low = match hex_nibble(bytes[index + 2]) {
                Some(n) => n,
                None => return Err(Error::bad("Invalid forwarded certificate encoding")),
            };
            let ghost was = out@;
            let byte: u8 = high * 16 + low;
            out.push(byte);
            proof {
                if let Some(rest) = percent_bytes(s, index + 3) {
                    assert(was + (seq![byte] + rest) =~= out@ + rest);
                }
            }
            index = index + 3;
        } else {
            let ghost was = out@;
            out.push(bytes[index]);
            proof {
                if let Some(rest) = percent_bytes(s, index + 1) {
                    assert(was + (seq![s[index as int]] + rest) =~= out@ + rest);
                }
            }
            index = index + 1;
        }
    }
    assert(out@ + Seq::<u8>::empty() =~= out@);
    match string_from_bytes(out) {
        Some(t) => Ok(t),
        None => Err(Error::bad("Invalid forwarded certificate encoding")),
    }
}

pub open spec fn pem_check(text: Seq<char>) -> Result<Seq<Seq<u8>>, Failure> {
    if byte_count(text) > 32768 {
        Err(Failure::Bad("Certificate chain exceeds 32 KiB"@))
    } else {
        match pem_certs(vstd::utf8::encode_utf8(text)) {
            None => Err(rejection("Client certificate is not trusted"@)),
            Some(chain) => if chain.len() == 0 || chain.len() > 8 {
                Err(rejection("Client certificate is not trusted"@))
            } else {
                Ok(chain)
            },
        }
    }
}

/// One to eight certificates in PEM.
pub fn parse_pem(pem: &str) -> (r: Result<Vec<Vec<u8>>, Error>)
    ensures
        match pem_check(pem@) {
            Ok(c) => r is Ok && byte_lists(r->Ok_0@) == c,
            Err(f) => fails(r, f),
        },
{
    if byte_len(pem) > 32768 {
        return Err(Error::bad("Certificate chain exceeds 32 KiB"));
    }
    match pem_certificates(pem.as_bytes()) {
        None => Err(rejected("Client certificate is not trusted")),
        Some(chain) => {
            assert(byte_lists(chain@).len() == chain.len());
            if chain.len() == 0 || chain.len() > 8 {
                Err(rejected("Client certificate is not trusted"))
            } else {
                Ok(chain)
            }
        },
    }
}

/// What a forwarded certificate header holds, decoded; `decoded` is what percent-decoding gave.
pub open spec fn forwarded_check(value: Seq<char>, decoded: Option<Seq<char>>) -> Result<
    Seq<Seq<u8>>,
    Failure,
> {
    if byte_count(value) > 49152 {
        Err(Failure::Bad("Forwarded certificate exceeds 32 KiB"@))
    } else {
        match decoded {
            None => Err(Failure::Bad("Invalid forwarded certificate encoding"@)),
            Some(text) => if byte_count(text) > 32768 || text.contains('\0') {
                Err(Failure::Bad("Forwarded certificate exceeds 32 KiB"@))
            } else if trimmed(text).len() == 0 {
                Err(no_certificate())
            } else {
                pem_check(text)
            },
        }
    }
}

/// The text of a header value: percent-decoded where it holds a percent sign.
pub open spec fn header_text(value: Seq<char>) -> Option<Seq<char>> {
    if value.contains('%') {
        match percent_bytes(encode_utf8(value), 0) {
            Some(b) => if valid_utf8(b) {
                Some(decode_utf8(b))
            } else {
                None
            },
            None => None,
        }
    } else {
        Some(value)
    }
}

pub fn parse_forwarded(value: &str) -> (r: Result<Vec<Vec<u8>>, Error>)
    ensures
        match forwarded_check(value@, header_text(value@)) {
            Ok(c) => r is Ok && byte_lists(r->Ok_0@) == c,
            Err(f) => fails(r, f),
        },
{
    if byte_len(value) > 49152 {
        return Err(Error::bad("Forwarded certificate exceeds 32 KiB"));
    }
    let decoded = if has_char(value, '%') {
        match percent_decode(value) {
            Ok(t) => {
                proof {
                    encode_utf8_decode_utf8(t@);
                }
                t
            },
            Err(e) => return Err(e),
        }
    } else {
        value.to_owned()
    };
    if byte_len(decoded.as_str()) > 32768 || has_char(decoded.as_str(), '\0') {
        return Err(Error::bad("Forwarded certificate exceeds 32 KiB"));
    }
    let bare = trim(decoded.as_str());
    if bare.as_str().is_empty() {
        return Err(missing_certificate());
    }
    parse_pem(decoded.as_str())
}

/// A presented DER chain: one to eight certificates of at most 16 KiB.
pub open spec fn der_check(ders: Seq<Seq<u8>>) -> Result<Seq<Seq<u8>>, Failure> {
    if ders.len() == 0 || ders.len() > 8 || exists|i: int|
        0 <= i < ders.len() && ((#[trigger] ders[i]).len() == 0 || ders[i].len() > 16384) {
        Err(rejection("Client certificate is not trusted"@))
    } else {
        Ok(ders)
    }
}

fn parse_ders(ders: &Vec<Vec<u8>>) -> (r: Result<Vec<Vec<u8>>, Error>)
    ensures
        match der_check(byte_lists(ders@)) {
            Ok(c) => r is Ok && byte_lists(r->Ok_0@) == c,
            Err(f) => fails(r, f),
        },
{
    let ghost all = byte_lists(ders@);
    if ders.len() == 0 || ders.len() > 8 {
        return Err(rejected("Client certificate is not trusted"));
    }
    let mut out: Vec<Vec<u8>> = Vec::new();
    let mut i: usize = 0;
    while i < ders.len()
        invariant
            i <= ders.len(),
            1 <= ders.len() <= 8,
            all == byte_lists(ders@),
            byte_lists(out@) == all.take(i as int),
            forall|j: int| 0 <= j < i ==> 1 <= (#[trigger] all[j]).len() <= 16384,
        decreases ders.len() - i,
    {
        assert(all[i as int] == ders@[i as int]@);
        let ghost was = byte_lists(out@);
        if ders[i].len() == 0 || ders[i].len() > 16384 {
            return Err(rejected("Client certificate is not trusted"));
        }
        out.push(copy_bytes(&ders[i]));
        i = i + 1;
        assert(byte_lists(out@) =~= was.push(all[i - 1]));
        assert(byte_lists(out@) =~= all.take(i as int));
    }
    assert(all.take(i as int) =~= all);
    Ok(out)
}

/// The chain that a request presents. Only a trusted proxy's header is read, and then only it.
pub open spec fn presented_check(
    a: ClientCertAuthModel,
    trusted: bool,
    forwarded: Seq<Seq<char>>,
    ders: Seq<Seq<u8>>,
) -> Result<Seq<Seq<u8>>, Failure> {
    if a.forwarded_header is Some && trusted {
        if forwarded.len() > 1 {
            Err(Failure::Bad("Duplicate forwarded client certificate"@))
        } else if forwarded.len() == 0 {
            Err(no_certificate())
        } else {
            forwarded_check(forwarded[0], header_text(forwarded[0]))
        }
    } else if ders.len() == 0 {
        Err(no_certificate())
    } else {
        der_check(ders)
    }
}

/// The certificate chain that a request presents; `trusted` says whether the immediate peer is a
/// trusted proxy.
pub fn presented_chain(
    profile: &ClientCertAuth,
    trusted: bool,
    forwarded: &Vec<String>,
    tls_ders: &Vec<Vec<u8>>,
) -> (r: Result<Vec<Vec<u8>>, Error>)
    ensures
        match presented_check(profile@, trusted, texts(forwarded@), byte_lists(tls_ders@)) {
            Ok(c) => r is Ok && byte_lists(r->Ok_0@) == c,
            Err(f) => fails(r, f),
        },
{
    if profile.forwarded_header.is_some() && trusted {
        if forwarded.len() > 1 {
            return Err(Error::bad("Duplicate forwarded client certificate"));
        }
        if forwarded.len() == 0 {
            return Err(missing_certificate());
        }
        assert(texts(forwarded@)[0] == forwarded@[0]@);
        return parse_forwarded(forwarded[0].as_str());
    }
    assert(byte_lists(tls_ders@).len() == tls_ders.len());
    if tls_ders.len() == 0 {
        return Err(missing_certificate());
    }
    parse_ders(tls_ders)
}

/// The e-mail addresses among subject alternative names.
pub open spec fn san_emails(names: Seq<SanNameModel>) -> Seq<Seq<char>>
    decreases names.len(),
{
    if names.len() == 0 {
        Seq::empty()
    } else {
        match names.last() {
            SanNameModel::Email(t) => san_emails(names.drop_last()).push(t),
            _ => san_emails(names.drop_last()),
        }
    }
}

/// The URIs among subject alternative names.
pub open spec fn san_uris(names: Seq<SanNameModel>) -> Seq<Seq<char>>
    decreases names.len(),
{
    if names.len() == 0 {
        Seq::empty()
    } else {
        match names.last() {
            SanNameModel::Uri(t) => san_uris(names.drop_last()).push(t),
            _ => san_uris(names.drop_last()),
        }
    }
}

proof fn lemma_sans_grow(names: Seq<SanNameModel>, n: int)
    requires
        0 <= n <= names.len(),
    ensures
        san_emails(names.take(n)).len() + san_uris(names.take(n)).len() <= san_emails(names).len()
            + san_uris(names).len(),
    decreases names.len() - n,
{
    if n < names.len() {
        assert(names.take(n + 1).drop_last() =~= names.take(n));
        lemma_sans_grow(names, n + 1);
    } else {
        assert(names.take(n) =~= names);
    }
}

/// The identity of a leaf certificate at a time, or why it has none: it must be no authority, be
/// current, and carry at most 32 e-mail addresses and URIs.
pub open spec fn leaf_check(der: Seq<u8>, at: u64) -> Result<LeafModel, Failure> {
    match certificate_of(der) {
        None => Err(rejection("Client certificate is not trusted"@)),
        Some(c) => if c.ca {
            Err(rejection("Client certificate is not trusted"@))
        } else if c.not_before > at || c.not_after <= at {
            Err(rejection("Client certificate is expired or not yet valid"@))
        } else {
            match c.names {
                None => Err(rejection("Client certificate is not trusted"@)),
                Some(names) => if san_emails(names).len() + san_uris(names).len() > 32 {
                    Err(rejection("Client certificate is not trusted"@))
                } else {
                    Ok(
                        LeafModel {
                            fingerprint: fingerprint_of(der),
                            emails: san_emails(names),
                            uris: san_uris(names),
                            not_after: c.not_after as u64,
                        },
                    )
                },
            }
        },
    }
}

/// The identity that a verified leaf certificate carries at the time `at`.
#[verifier::loop_isolation(false)]
pub fn leaf_identity(der: &[u8], at: u64) -> (r: Result<Leaf, Error>)
    ensures
        agrees_with(r, leaf_check(der@, at)),
{
    let parsed = match parse_certificate(der) {
        None => return Err(rejected("Client certificate is not trusted")),
        Some(c) => c,
    };
    if parsed.ca {
        return Err(rejected("Client certificate is not trusted"));
    }
    let now: i128 = at as i128;
    if parsed.not_before as i128 > now || parsed.not_after as i128 <= now {
        return Err(rejected("Client certificate is expired or not yet valid"));
    }
    let names = match &parsed.names {
        None => return Err(rejected("Client certificate is not trusted")),
        Some(n) => n,
    };
    let ghost all = names@.map_values(|n: SanName| n@);
    assert(certificate_of(der@)->0.names == Some(all));
    let mut emails: Vec<String> = Vec::new();
    let mut uris: Vec<String> = Vec::new();
    let mut i: usize = 0;
    assert(all.take(0) =~= Seq::<SanNameModel>::empty());
    assert(texts(emails@) =~= Seq::<Seq<char>>::empty());
    assert(texts(uris@) =~= Seq::<Seq<char>>::empty());
    while i < names.len()
        invariant
            i <= names.len(),
            texts(emails@) == san_emails(all.take(i as int)),
            texts(uris@) == san_uris(all.take(i as int)),
            emails.len() + uris.len() <= 32,
        decreases names.len() - i,
    {
        proof {
            assert(all.take(i + 1).drop_last() =~= all.take(i as int));
            assert(all.take(i + 1).last() == names@[i as int]@);
            assert(texts(emails@).len() == emails.len());
            assert(texts(uris@).len() == uris.len());
            lemma_sans_grow(all, i + 1);
        }
        let ghost e0 = texts(emails@);
        let ghost u0 = texts(uris@);
        match &names[i] {
            SanName::Email(t) => {
                if emails.len() + uris.len() >= 32 {
                    return Err(rejected("Client certificate is not trusted"));
                }
                emails.push(t.clone());
                assert(texts(emails@) =~= e0.push(t@));
            },
            SanName::Uri(t) => {
                if emails.len() + uris.len() >= 32 {
                    return Err(rejected("Client certificate is not trusted"));
                }
                uris.push(t.clone());
                assert(texts(uris@) =~= u0.push(t@));
            },
            SanName::Other => {},
        }
        i = i + 1;
    }
    assert(all.take(i as int) =~= all);
    Ok(Leaf { fingerprint: fingerprint(der), emails, uris, not_after: parsed.not_after as u64 })
}

/// An exact `urn:` or `https://` identifier of 6 to 512 bytes without user information.
pub open spec fn san_uri_ok(s: Seq<char>) -> bool {
    &&& 6 <= byte_count(s) <= 512
    &&& !some_control(s)
    &&& !some_whitespace(s)
    &&& has_prefix(s, "urn:"@) || has_prefix(s, "https://"@)
    &&& !s.contains('\\')
    &&& !s.contains('@')
}

pub fn validate_san_uri(uri: &str) -> (r: Result<(), Error>)
    ensures
        r is Ok == san_uri_ok(uri@),
        r is Err ==> r->Err_0@ == Failure::Bad(
            "SAN URI must be an exact urn: or https:// identifier without userinfo"@,
        ),
{
    let n = byte_len(uri);
    if n < 6 || n > 512 || has_control(uri) || has_whitespace(uri) || !(starts_with(uri, "urn:")
        || starts_with(uri, "https://")) || has_char(uri, '\\') || has_char(uri, '@') {
        return Err(
            Error::bad("SAN URI must be an exact urn: or https:// identifier without userinfo"),
        );
    }
    Ok(())
}

/// The text, or nothing.
pub open spec fn or_empty(o: Option<Seq<char>>) -> Seq<char> {
    match o {
        Some(s) => s,
        None => ""@,
    }
}

/// What a binding selects, as one digest.
pub open spec fn selector_of(b: BindingModel) -> Seq<char> {
    digest_of(
        or_empty(b.fingerprint) + "\0"@ + or_empty(b.san_uri) + "\0"@ + or_empty(b.san_email),
    )
}

fn text_or_empty(o: &Option<String>) -> (r: &str)
    ensures
        r@ == or_empty(opt_text(*o)),
{
    match o {
        Some(s) => s.as_str(),
        None => "",
    }
}

pub fn selector(binding: &Binding) -> (r: String)
    ensures
        r@ == selector_of(binding@),
{
    let mut t = concat3(text_or_empty(&binding.fingerprint), "\0", text_or_empty(&binding.san_uri));
    t.append("\0");
    t.append(text_or_empty(&binding.san_email));
    digest(t.as_str())
}

/// The certificate has everything that the binding names, and the binding names something.
pub open spec fn matches_leaf(b: BindingModel, leaf: LeafModel) -> bool {
    &&& b.fingerprint matches Some(f) ==> f == leaf.fingerprint
    &&& b.san_email matches Some(e) ==> leaf.emails.contains(e)
    &&& b.san_uri matches Some(u) ==> leaf.uris.contains(u)
    &&& b.fingerprint is Some || b.san_email is Some || b.san_uri is Some
}

pub fn binding_matches(binding: &Binding, leaf: &Leaf) -> (r: bool)
    ensures
        r == matches_leaf(binding@, leaf@),
{
    let mut constrained: bool = false;
    if let Some(f) = &binding.fingerprint {
        constrained = true;
        if !same(f.as_str(), leaf.fingerprint.as_str()) {
            return false;
        }
    }
    if let Some(e) = &binding.san_email {
        constrained = true;
        if !among(e.as_str(), &leaf.emails) {
            return false;
        }
    }
    if let Some(u) = &binding.san_uri {
        constrained = true;
        if !among(u.as_str(), &leaf.uris) {
            return false;
        }
    }
    constrained
}

/// The profile for certificate logins.
pub fn profile(core: &Core) -> (r: Result<&ClientCertAuth, Error>)
    ensures
        match core@.config.client_certificates {
            Some(p) => r is Ok && r->Ok_0@ == p,
            None => fails(
                r,
                Failure::Missing("Client certificate authentication is not configured"@),
            ),
        },
{
    match &core.config.client_certificates {
        Some(p) => Ok(p),
        None => Err(Error::missing("Client certificate authentication is not configured")),
    }
}

/// The index names a binding of another user.
pub open spec fn taken(
    bindings: Map<Seq<char>, BindingModel>,
    index: Map<Seq<char>, Seq<char>>,
    key: Seq<char>,
    user_id: Seq<char>,
) -> bool {
    index.dom().contains(key) && bindings.dom().contains(index[key]) && bindings[index[key]].user_id
        != user_id
}

pub fn index_conflict(
    bindings: &Table<Binding>,
    index: &Table<String>,
    key: &str,
    user_id: &str,
) -> (r: Result<(), Error>)
    ensures
        r is Err == taken(bindings@, index@, key@, user_id@),
        r is Err ==> r->Err_0@ == Failure::Conflict(
            "Certificate identity is already bound to another user"@,
        ),
{
    if let Some(id) = index.get(key) {
        if let Some(b) = bindings.get(id.as_str()) {
            if !same(b.user_id.as_str(), user_id) {
                return Err(
                    Error::conflict("Certificate identity is already bound to another user"),
                );
            }
        }
    }
    Ok(())
}

/// The store without a binding and everything that leads to it.
pub open spec fn cleared(t: TxModel, b: BindingModel) -> TxModel {
    TxModel {
        mtls_fingerprints: match b.fingerprint {
            Some(v) => t.mtls_fingerprints.remove(v),
            None => t.mtls_fingerprints,
        },
        mtls_san_emails: match b.san_email {
            Some(v) => t.mtls_san_emails.remove(digest_of(v)),
            None => t.mtls_san_emails,
        },
        mtls_san_uris: match b.san_uri {
            Some(v) => t.mtls_san_uris.remove(digest_of(v)),
            None => t.mtls_san_uris,
        },
        mtls_users: t.mtls_users.remove(b.user_id),
        mtls_bindings: t.mtls_bindings.remove(b.id),
        ..t
    }
}

pub fn clear_binding(tx: &mut Tx, binding: &Binding)
    ensures
        final(tx)@ == cleared(old(tx)@, binding@),
{
    if let Some(v) = &binding.fingerprint {
        tx.mtls_fingerprints.delete(v.as_str());
    }
    if let Some(v) = &binding.san_email {
        let k = digest(v.as_str());
        tx.mtls_san_emails.delete(k.as_str());
    }
    if let Some(v) = &binding.san_uri {
        let k = digest(v.as_str());
        tx.mtls_san_uris.delete(k.as_str());
    }
    tx.mtls_users.delete(binding.user_id.as_str());
    tx.mtls_bindings.delete(binding.id.as_str());
}

/// A live session that was opened with the binding.
pub open spec fn linked(t: TxModel, sid: Seq<char>, binding_id: Seq<char>) -> bool {
    !t.sessions[sid].revoked && t.mtls_logins.dom().contains(sid) && t.mtls_logins[sid].binding_id
        == binding_id
}

/// The store after one session was ended.
pub open spec fn session_ended(t: TxModel, sid: Seq<char>, s: SessionModel) -> TxModel {
    queued(
        TxModel {
            sessions: t.sessions.insert(sid, SessionModel { revoked: true, ..s }),
            mtls_logins: t.mtls_logins.remove(sid),
            ..t
        },
        SelectionModel::Session(sid),
    )
}

/// The store after the sessions of a binding among `keys` were ended; `t0` is what was listed.
pub open spec fn sessions_ended(t0: TxModel, keys: Seq<Seq<char>>, binding_id: Seq<char>) -> TxModel
    decreases keys.len(),
{
    if keys.len() == 0 {
        t0
    } else {
        let t = sessions_ended(t0, keys.drop_last(), binding_id);
        let sid = keys.last();
        if !t0.sessions[sid].revoked && t.mtls_logins.dom().contains(sid)
            && t.mtls_logins[sid].binding_id == binding_id {
            session_ended(t, sid, t0.sessions[sid])
        } else {
            t
        }
    }
}

/// Ends every session that was opened with the binding.
#[verifier::loop_isolation(false)]
pub fn end_binding_sessions(tx: &mut Tx, binding_id: &str)
    ensures
        final(tx)@ == sessions_ended(
            old(tx)@,
            in_order(old(tx)@.sessions.dom()),
            binding_id@,
        ),
{
    let keys = tx.sessions.keys();
    let rows = tx.sessions.dup();
    let ghost t0 = tx@;
    let ghost all = in_order(keys@);
    let n: usize = keys.len();
    let mut i: usize = 0;
    assert(all.take(0) =~= Seq::<Seq<char>>::empty());
    while i < n
        invariant
            i <= n,
            tx@ == sessions_ended(t0, all.take(i as int), binding_id@),
        decreases n - i,
    {
        proof {
            assert(all.take(i + 1).drop_last() =~= all.take(i as int));
        }
        let sid = keys.at(i);
        if let Some(s) = rows.get(sid.as_str()) {
            let ours = match tx.mtls_logins.get(sid.as_str()) {
                Some(link) => same(link.binding_id.as_str(), binding_id),
                None => false,
            };
            if !s.revoked && ours {
                let mut row = s.dup();
                row.revoked = true;
                tx.sessions.put(sid.as_str(), row);
                tx.mtls_logins.delete(sid.as_str());
                queue_session(tx, sid.as_str());
            }
        }
        i = i + 1;
    }
    assert(all.take(i as int) =~= all);
}

/// The user of this name.
pub open spec fn named_user(t: TxModel, username: Seq<char>) -> Option<UserModel> {
    if t.usernames.dom().contains(username) && t.users.dom().contains(t.usernames[username]) {
        Some(t.users[t.usernames[username]])
    } else {
        None
    }
}

pub fn user_by_name(tx: &Tx, username: &str) -> (r: Result<User, Error>)
    ensures
        match named_user(tx@, username@) {
            Some(u) => r is Ok && r->Ok_0@ == u,
            None => fails(r, Failure::Missing("User not found"@)),
        },
{
    match tx.usernames.get(username) {
        Some(id) => match tx.users.get(id.as_str()) {
            Some(u) => Ok(u.dup()),
            None => Err(Error::missing("User not found")),
        },
        None => Err(Error::missing("User not found")),
    }
}

/// What an enrollment selects.
pub struct Chosen {
    pub fingerprint: Option<String>,
    pub san_uri: Option<String>,
    pub san_email: Option<String>,
    pub not_after: Option<u64>,
}

/// What a [`Chosen`] holds.
pub struct ChosenModel {
    pub fingerprint: Option<Seq<char>>,
    pub san_uri: Option<Seq<char>>,
    pub san_email: Option<Seq<char>>,
    pub not_after: Option<u64>,
}

impl View for Chosen {
    type V = ChosenModel;

    open spec fn view(&self) -> ChosenModel {
        ChosenModel {
            fingerprint: crate::text::opt_text(self.fingerprint),
            san_uri: crate::text::opt_text(self.san_uri),
            san_email: crate::text::opt_text(self.san_email),
            not_after: self.not_after,
        }
    }
}

impl Row for Chosen {
    fn dup(&self) -> (r: Self) {
        Chosen {
            fingerprint: crate::text::copy_opt(&self.fingerprint),
            san_uri: crate::text::copy_opt(&self.san_uri),
            san_email: crate::text::copy_opt(&self.san_email),
            not_after: self.not_after,
        }
    }
}

/// A field without the whitespace around it, where anything is left.
pub open spec fn filled(o: Option<Seq<char>>) -> Option<Seq<char>> {
    match o {
        Some(s) => if trimmed(s).len() > 0 {
            Some(trimmed(s))
        } else {
            None
        },
        None => None,
    }
}

fn fill(o: &Option<String>) -> (r: Option<String>)
    ensures
        opt_text(r) == filled(opt_text(*o)),
{
    match o {
        Some(s) => {
            let t = trim(s.as_str());
            if t.as_str().is_empty() {
                None
            } else {
                Some(t)
            }
        },
        None => None,
    }
}

/// What a request enrolls, or why it is refused. `leaf` is the identity of the request's
/// certificate, or why that does not verify; it is looked at where the request has one.
pub open spec fn choice_check(input: BindInputModel, leaf: Result<LeafModel, Failure>, rules: RulesModel) -> Result<
    ChosenModel,
    Failure,
> {
    let email = filled(input.san_email);
    let uri = filled(input.san_uri);
    if email is Some && rule_check(rules, "email"@) is Err {
        Err(rule_check(rules, "email"@)->Err_0)
    } else if uri is Some && !san_uri_ok(uri->0) {
        Err(
            Failure::Bad("SAN URI must be an exact urn: or https:// identifier without userinfo"@),
        )
    } else if filled(input.certificate_pem) is None {
        if email is None && uri is None {
            Err(Failure::Bad("Bind a certificate PEM, SAN URI, SAN email, or a combination"@))
        } else {
            Ok(
                ChosenModel {
                    fingerprint: None,
                    san_uri: uri,
                    san_email: email,
                    not_after: None,
                },
            )
        }
    } else {
        match leaf {
            Err(f) => Err(f),
            Ok(l) => if (email is Some && !l.emails.contains(email->0)) || (uri is Some
                && !l.uris.contains(uri->0)) {
                Err(Failure::Bad("Certificate does not contain the enrolled SAN URI or email"@))
            } else {
                Ok(
                    ChosenModel {
                        fingerprint: Some(l.fingerprint),
                        san_uri: uri,
                        san_email: email,
                        not_after: Some(l.not_after),
                    },
                )
            },
        }
    }
}

/// The identity of a leaf, or why there is none, as it is stated.
pub open spec fn leaf_view(r: Result<Leaf, Error>) -> Result<LeafModel, Failure> {
    match r {
        Ok(l) => Ok(l@),
        Err(e) => Err(e@),
    }
}

fn choose_identity(input: &BindInput, leaf: &Result<Leaf, Error>, rules: &Rules) -> (r: Result<Chosen, Error>)
    ensures
        agrees_with(r, choice_check(input@, leaf_view(*leaf), rules@)),
{
    let pem = fill(&input.certificate_pem);
    let san_email = fill(&input.san_email);
    if san_email.is_some() {
        if let Err(e) = rules.check_rule("email") {
            return Err(e);
        }
    }
    let san_uri = fill(&input.san_uri);
    if let Some(uri) = &san_uri {
        if let Err(e) = validate_san_uri(uri.as_str()) {
            return Err(e);
        }
    }
    if pem.is_none() {
        if san_email.is_none() && san_uri.is_none() {
            return Err(
                Error::bad("Bind a certificate PEM, SAN URI, SAN email, or a combination"),
            );
        }
        return Ok(Chosen { fingerprint: None, san_uri, san_email, not_after: None });
    }
    let l = match leaf {
        Ok(l) => l,
        Err(e) => return Err(copy_error(e)),
    };
    let no_email = match &san_email {
        Some(e) => !among(e.as_str(), &l.emails),
        None => false,
    };
    let no_uri = match &san_uri {
        Some(u) => !among(u.as_str(), &l.uris),
        None => false,
    };
    if no_email || no_uri {
        return Err(Error::bad("Certificate does not contain the enrolled SAN URI or email"));
    }
    Ok(
        Chosen {
            fingerprint: Some(l.fingerprint.clone()),
            san_uri,
            san_email,
            not_after: Some(l.not_after),
        },
    )
}

/// An index entry of the choice leads to another user.
pub open spec fn choice_taken(t: TxModel, c: ChosenModel, user_id: Seq<char>) -> bool {
    ||| c.fingerprint is Some && taken(t.mtls_bindings, t.mtls_fingerprints, c.fingerprint->0, user_id)
    ||| c.san_email is Some && taken(
        t.mtls_bindings,
        t.mtls_san_emails,
        digest_of(c.san_email->0),
        user_id,
    )
    ||| c.san_uri is Some && taken(
        t.mtls_bindings,
        t.mtls_san_uris,
        digest_of(c.san_uri->0),
        user_id,
    )
}

/// The binding that a user has.
pub open spec fn users_binding(t: TxModel, user_id: Seq<char>) -> Option<BindingModel> {
    if t.mtls_users.dom().contains(user_id) && t.mtls_bindings.dom().contains(t.mtls_users[user_id]) {
        Some(t.mtls_bindings[t.mtls_users[user_id]])
    } else {
        None
    }
}

/// The binding selects just what was chosen.
pub open spec fn selects(b: BindingModel, c: ChosenModel) -> bool {
    b.fingerprint == c.fingerprint && b.san_email == c.san_email && b.san_uri == c.san_uri
        && b.not_after == c.not_after
}

/// The store with a new binding and the indexes that lead to it.
pub open spec fn bound(t: TxModel, b: BindingModel) -> TxModel {
    TxModel {
        mtls_fingerprints: match b.fingerprint {
            Some(v) => t.mtls_fingerprints.insert(v, b.id),
            None => t.mtls_fingerprints,
        },
        mtls_san_emails: match b.san_email {
            Some(v) => t.mtls_san_emails.insert(digest_of(v), b.id),
            None => t.mtls_san_emails,
        },
        mtls_san_uris: match b.san_uri {
            Some(v) => t.mtls_san_uris.insert(digest_of(v), b.id),
            None => t.mtls_san_uris,
        },
        mtls_users: t.mtls_users.insert(b.user_id, b.id),
        mtls_bindings: t.mtls_bindings.insert(b.id, b),
        ..t
    }
}

/// The store without the binding that a user had, and without the sessions opened with it.
pub open spec fn unbound(t: TxModel, old_binding: Option<BindingModel>) -> TxModel {
    match old_binding {
        None => t,
        Some(b) => cleared(
            sessions_ended(t, in_order(t.sessions.dom()), b.id),
            b,
        ),
    }
}

/// What an enrollment leaves in the store and answers.
pub open spec fn enrollment(
    t: TxModel,
    cfg: ConfigModel,
    actor: PrincipalModel,
    input: BindInputModel,
    leaf: Result<LeafModel, Failure>,
    rules: RulesModel,
) -> (TxModel, Result<BindingModel, Failure>) {
    if name_check(rules, input.username) is Err {
        (t, Err(name_check(rules, input.username)->Err_0))
    } else if cfg.client_certificates is None {
        (t, Err(Failure::Missing("Client certificate authentication is not configured"@)))
    } else {
        match named_user(t, input.username) {
            None => (t, Err(Failure::Missing("User not found"@))),
            Some(user) => if actor.agent && user.admin {
                (t, Err(Failure::Forbidden))
            } else {
                match choice_check(input, leaf, rules) {
                    Err(f) => (t, Err(f)),
                    Ok(c) => if choice_taken(t, c, user.id) {
                        (
                            t,
                            Err(
                                Failure::Conflict(
                                    "Certificate identity is already bound to another user"@,
                                ),
                            ),
                        )
                    } else {
                        let existing = users_binding(t, user.id);
                        if existing is Some && selects(existing->0, c) {
                            (t, Ok(existing->0))
                        } else {
                            let t1 = unbound(t, existing);
                            let b = BindingModel {
                                id: next_id(t1),
                                username: user.username,
                                user_id: user.id,
                                fingerprint: c.fingerprint,
                                san_uri: c.san_uri,
                                san_email: c.san_email,
                                not_after: c.not_after,
                                created_at: t1.now,
                            };
                            (audited(bound(drawn(t1), b), actor.id, "mtls.bind"@, b.id), Ok(b))
                        }
                    },
                }
            },
        }
    }
}

impl Core {
    /// Enrolls a certificate identity for a user, in place of the one that the user had. `leaf` is
    /// the identity of the request's certificate, or why it does not verify.
    pub fn client_certificate_bind_with(
        &self,
        tx: &mut Tx,
        actor: &Principal,
        input: &BindInput,
        leaf: &Result<Leaf, Error>,
        rules: &Rules,
    ) -> (r: Result<Binding, Error>)
        ensures
            ({
                let out = enrollment(
                    old(tx)@,
                    self@.config,
                    actor@,
                    input@,
                    leaf_view(*leaf),
                    rules@,
                );
                final(tx)@ == out.0 && agrees_with(r, out.1)
            }),
    {
        if let Err(e) = rules.check_name(input.username.as_str()) {
            return Err(e);
        }
        if let Err(e) = profile(self) {
            return Err(e);
        }
        let user = match user_by_name(tx, input.username.as_str()) {
            Ok(u) => u,
            Err(e) => return Err(e),
        };
        if actor.agent && user.admin {
            return Err(Error::Forbidden);
        }
        let chosen = match choose_identity(input, leaf, rules) {
            Ok(c) => c,
            Err(e) => return Err(e),
        };
        if let Some(v) = &chosen.fingerprint {
            if let Err(e) = index_conflict(
                &tx.mtls_bindings,
                &tx.mtls_fingerprints,
                v.as_str(),
                user.id.as_str(),
            ) {
                return Err(e);
            }
        }
        if let Some(v) = &chosen.san_email {
            let k = digest(v.as_str());
            if let Err(e) = index_conflict(
                &tx.mtls_bindings,
                &tx.mtls_san_emails,
                k.as_str(),
                user.id.as_str(),
            ) {
                return Err(e);
            }
        }
        if let Some(v) = &chosen.san_uri {
            let k = digest(v.as_str());
            if let Err(e) = index_conflict(
                &tx.mtls_bindings,
                &tx.mtls_san_uris,
                k.as_str(),
                user.id.as_str(),
            ) {
                return Err(e);
            }
        }
        let existing: Option<Binding> = match tx.mtls_users.get(user.id.as_str()) {
            Some(id) => match tx.mtls_bindings.get(id.as_str()) {
                Some(b) => Some(b.dup()),
                None => None,
            },
            None => None,
        };
        if let Some(b) = &existing {
            let same_end = match (b.not_after, chosen.not_after) {
                (Some(x), Some(y)) => x == y,
                (None, None) => true,
                _ => false,
            };
            if same_opt(&b.fingerprint, &chosen.fingerprint) && same_opt(
                &b.san_email,
                &chosen.san_email,
            ) && same_opt(&b.san_uri, &chosen.san_uri) && same_end {
                return Ok(b.dup());
            }
            end_binding_sessions(tx, b.id.as_str());
            clear_binding(tx, b);
        }
        let id = tx.id();
        let binding = Binding {
            id,
            username: user.username,
            user_id: user.id,
            fingerprint: chosen.fingerprint,
            san_uri: chosen.san_uri,
            san_email: chosen.san_email,
            not_after: chosen.not_after,
            created_at: tx.now,
        };
        if let Some(v) = &binding.fingerprint {
            tx.mtls_fingerprints.put(v.as_str(), binding.id.clone());
        }
        if let Some(v) = &binding.san_email {
            let k = digest(v.as_str());
            tx.mtls_san_emails.put(k.as_str(), binding.id.clone());
        }
        if let Some(v) = &binding.san_uri {
            let k = digest(v.as_str());
            tx.mtls_san_uris.put(k.as_str(), binding.id.clone());
        }
        tx.mtls_users.put(binding.user_id.as_str(), binding.id.clone());
        tx.mtls_bindings.put(binding.id.as_str(), binding.dup());
        audit(tx, actor.id.as_str(), "mtls.bind", binding.id.as_str());
        Ok(binding)
    }

    /// Removes a binding and ends the sessions that were opened with it.
    pub fn client_certificate_revoke(&self, tx: &mut Tx, actor: &Principal, id: &str) -> (r: Result<
        (),
        Error,
    >)
        ensures
            ({
                let out = binding_revoked(old(tx)@, actor@, id@);
                final(tx)@ == out.0 && agrees(r, out.1)
            }),
    {
        let binding = match tx.mtls_bindings.get(id) {
            Some(b) => b.dup(),
            None => return Err(Error::missing("Certificate binding not found")),
        };
        match tx.users.get(binding.user_id.as_str()) {
            Some(u) => {
                if actor.agent && u.admin {
                    return Err(Error::Forbidden);
                }
            },
            None => return Err(Error::missing("Certificate binding not found")),
        }
        end_binding_sessions(tx, binding.id.as_str());
        clear_binding(tx, &binding);
        audit(tx, actor.id.as_str(), "mtls.revoke", id);
        Ok(())
    }
}

/// The index entries of a list of names, by digest.
pub open spec fn indexed(index: Map<Seq<char>, Seq<char>>, names: Seq<Seq<char>>) -> Set<Seq<char>>
    decreases names.len(),
{
    if names.len() == 0 {
        Set::empty()
    } else {
        let rest = indexed(index, names.drop_last());
        let k = digest_of(names.last());
        if index.dom().contains(k) {
            rest.insert(index[k])
        } else {
            rest
        }
    }
}

/// The bindings that the identities of a certificate lead to.
pub open spec fn candidates(t: TxModel, leaf: LeafModel) -> Set<Seq<char>> {
    let by_print = if t.mtls_fingerprints.dom().contains(leaf.fingerprint) {
        Set::<Seq<char>>::empty().insert(t.mtls_fingerprints[leaf.fingerprint])
    } else {
        Set::<Seq<char>>::empty()
    };
    by_print.union(indexed(t.mtls_san_emails, leaf.emails)).union(
        indexed(t.mtls_san_uris, leaf.uris),
    )
}

/// The stored bindings among the candidates that the certificate satisfies.
pub open spec fn matching(t: TxModel, leaf: LeafModel) -> Seq<Seq<char>> {
    in_order(candidates(t, leaf)).filter(matching_rule(t, leaf))
}

pub open spec fn matching_rule(t: TxModel, leaf: LeafModel) -> spec_fn(Seq<char>) -> bool {
    |id: Seq<char>| t.mtls_bindings.dom().contains(id) && matches_leaf(t.mtls_bindings[id], leaf)
}

/// The binding that a certificate logs in with: some binding matches, and all that match are of one
/// user.
pub open spec fn login_binding(t: TxModel, leaf: LeafModel) -> Option<BindingModel> {
    let m = matching(t, leaf);
    if m.len() > 0 && forall|i: int|
        0 <= i < m.len() ==> t.mtls_bindings[#[trigger] m[i]].user_id
            == t.mtls_bindings[m.last()].user_id {
        Some(t.mtls_bindings[m.last()])
    } else {
        None
    }
}

fn add_indexed(index: &Table<String>, names: &Vec<String>, ids: &mut Names)
    ensures
        final(ids)@ == old(ids)@.union(indexed(index@, texts(names@))),
{
    let ghost all = texts(names@);
    let ghost start = ids@;
    let mut i: usize = 0;
    assert(all.take(0) =~= Seq::<Seq<char>>::empty());
    assert(start.union(indexed(index@, all.take(0))) =~= start);
    while i < names.len()
        invariant
            i <= names.len(),
            all == texts(names@),
            ids@ == start.union(indexed(index@, all.take(i as int))),
        decreases names.len() - i,
    {
        proof {
            assert(all.take(i + 1).drop_last() =~= all.take(i as int));
            assert(all.take(i + 1).last() == names@[i as int]@);
        }
        let k = digest(names[i].as_str());
        if let Some(id) = index.get(k.as_str()) {
            let _ = ids.insert(id.as_str());
        }
        i = i + 1;
        assert(ids@ =~= start.union(indexed(index@, all.take(i as int))));
    }
    assert(all.take(i as int) =~= all);
}

#[verifier::loop_isolation(false)]
fn find_binding(tx: &Tx, leaf: &Leaf) -> (r: Option<Binding>)
    ensures
        opt_view(r) == login_binding(tx@, leaf@),
{
    let mut ids = Names::new();
    if let Some(id) = tx.mtls_fingerprints.get(leaf.fingerprint.as_str()) {
        let _ = ids.insert(id.as_str());
    }
    add_indexed(&tx.mtls_san_emails, &leaf.emails, &mut ids);
    add_indexed(&tx.mtls_san_uris, &leaf.uris, &mut ids);
    assert(ids@ =~= candidates(tx@, leaf@));
    let ghost all = in_order(ids@);
    let ghost p = matching_rule(tx@, leaf@);
    let n: usize = ids.len();
    let mut found: Vec<String> = Vec::new();
    let mut last: Option<Binding> = None;
    let mut agree: bool = true;
    let mut i: usize = 0;
    assert(texts(found@) =~= all.take(0).filter(p));
    while i < n
        invariant
            i <= n,
            texts(found@) == all.take(i as int).filter(p),
            found.len() > 0 ==> last is Some && last->0@ == tx@.mtls_bindings[texts(found@).last()],
            found.len() == 0 ==> last is None,
            agree == (forall|a: int, b: int|
                0 <= a < b < texts(found@).len() ==> tx@.mtls_bindings[#[trigger] texts(
                    found@,
                )[a]].user_id == tx@.mtls_bindings[#[trigger] texts(found@)[b]].user_id),
        decreases n - i,
    {
        let id = ids.at(i);
        let ghost was = texts(found@);
        proof {
            assert(all.take(i + 1) =~= all.take(i as int).push(id@));
            all.take(i as int).lemma_filter_push(id@, p);
        }
        if let Some(b) = tx.mtls_bindings.get(id.as_str()) {
            if binding_matches(b, leaf) {
                let ghost old_agree = agree;
                let differs = match &last {
                    Some(x) => !same(x.user_id.as_str(), b.user_id.as_str()),
                    None => false,
                };
                found.push(id.clone());
                proof {
                    let now = texts(found@);
                    assert(now =~= was.push(id@));
                    let m = tx@.mtls_bindings;
                    if old_agree && !differs {
                        assert forall|x: int, y: int| 0 <= x < y < now.len() implies m[#[trigger] now[x]].user_id
                            == m[#[trigger] now[y]].user_id by {
                            if y < was.len() {
                                assert(m[was[x]].user_id == m[was[y]].user_id);
                            } else if x < was.len() - 1 {
                                assert(m[was[x]].user_id == m[was[was.len() - 1]].user_id);
                            }
                        }
                    } else if !old_agree {
                        let (x, y) = choose|x: int, y: int|
                            0 <= x < y < was.len() && m[#[trigger] was[x]].user_id
                                != m[#[trigger] was[y]].user_id;
                        assert(m[now[x]].user_id != m[now[y]].user_id);
                    } else {
                        assert(m[now[was.len() - 1]].user_id != m[now[was.len() as int]].user_id);
                    }
                }
                if differs {
                    agree = false;
                }
                last = Some(b.dup());
            }
        }
        i = i + 1;
    }
    assert(all.take(i as int) =~= all);
    proof {
        let m = matching(tx@, leaf@);
        assert(m == texts(found@));
        let rows = tx@.mtls_bindings;
        if m.len() > 0 {
            if agree {
                assert forall|k: int| 0 <= k < m.len() implies rows[#[trigger] m[k]].user_id
                    == rows[m.last()].user_id by {
                    if k < m.len() - 1 {
                        assert(rows[m[k]].user_id == rows[m[m.len() - 1]].user_id);
                    }
                }
            } else {
                let (x, y) = choose|x: int, y: int|
                    0 <= x < y < m.len() && rows[#[trigger] m[x]].user_id != rows[#[trigger] m[y]].user_id;
                assert(!(rows[m[x]].user_id == rows[m.last()].user_id && rows[m[y]].user_id
                    == rows[m.last()].user_id));
            }
        }
    }
    if agree {
        last
    } else {
        None
    }
}

/// The transaction that a login completes, or why it cannot.
pub open spec fn login_challenge(t: TxModel, token: Option<Seq<char>>, user_id: Seq<char>) -> Result<
    (),
    Failure,
> {
    match token {
        None => Ok(()),
        Some(tk) => {
            let key = digest_of(tk);
            if !t.authentication.dom().contains(key) || t.authentication[key].expires_at <= t.now
                || t.authentication[key].authenticated_session is Some {
                Err(Failure::Bad("Authentication transaction expired or used"@))
            } else if stage_check(t.authentication[key]) is Err {
                stage_check(t.authentication[key])
            } else if t.authentication[key].user_id is Some && t.authentication[key].user_id != Some(
                user_id,
            ) {
                Err(Failure::Forbidden)
            } else {
                Ok(())
            }
        },
    }
}

/// The time at which a certificate session ends.
pub open spec fn login_expiry(t: TxModel, cfg: ConfigModel, leaf: LeafModel) -> u64 {
    let end = extended(t.now, cfg.session_ttl);
    if end <= leaf.not_after {
        end
    } else {
        leaf.not_after
    }
}

/// The session that a certificate login opens: the token is drawn first, then the session id.
pub open spec fn certificate_session(t: TxModel, user: UserModel, expires_at: u64) -> SessionModel {
    let sid = next_id(drawn(t));
    SessionModel {
        id: sid,
        token_hash: digest_of("ri_session_"@ + next_id(t)),
        identity: IdentityModel {
            amr: seq!["cert"@],
            source: None,
            user_id: user.id,
            epoch: user.epoch,
            mfa: false,
            auth_time: t.now,
            session_id: sid,
        },
        expires_at,
        revoked: false,
    }
}

/// What a login is answered.
pub struct LoginReply {
    pub session_token: String,
    pub expires_at: u64,
    pub user: UserView,
}

/// What a [`LoginReply`] holds.
pub struct LoginReplyModel {
    pub session_token: Seq<char>,
    pub expires_at: u64,
    pub user: UserViewModel,
}

impl View for LoginReply {
    type V = LoginReplyModel;

    open spec fn view(&self) -> LoginReplyModel {
        LoginReplyModel {
            session_token: self.session_token@,
            expires_at: self.expires_at,
            user: self.user@,
        }
    }
}

impl Row for LoginReply {
    fn dup(&self) -> (r: Self) {
        LoginReply {
            session_token: self.session_token.clone(),
            expires_at: self.expires_at,
            user: self.user.dup(),
        }
    }
}

/// The store after a failed login was noted.
pub open spec fn login_failed(t: TxModel, target: Seq<char>) -> TxModel {
    audited(t, "anonymous"@, "login.failed"@, target)
}

/// What a certificate login leaves in the store and answers.
pub open spec fn certificate_login(
    t: TxModel,
    cfg: ConfigModel,
    leaf: LeafModel,
    token: Option<Seq<char>>,
) -> (TxModel, Result<LoginReplyModel, Failure>) {
    let unknown = (
        login_failed(t, "client-certificate"@),
        Err(rejection("Client certificate is not enrolled"@)),
    );
    match login_binding(t, leaf) {
        None => unknown,
        Some(b) => if !t.users.dom().contains(b.user_id) {
            unknown
        } else {
            let user = t.users[b.user_id];
            let end = login_expiry(t, cfg, leaf);
            if !user.enabled {
                (login_failed(t, user.username), Err(rejection("Account is disabled"@)))
            } else if end <= t.now {
                (
                    login_failed(t, user.username),
                    Err(rejection("Client certificate is expired or not yet valid"@)),
                )
            } else if login_challenge(t, token, user.id) is Err {
                (t, Err(login_challenge(t, token, user.id)->Err_0))
            } else {
                let s = certificate_session(t, user, end);
                let t1 = drawn(drawn(t));
                let t2 = TxModel {
                    sessions: t1.sessions.insert(s.id, s),
                    session_tokens: t1.session_tokens.insert(s.token_hash, s.id),
                    mtls_logins: t1.mtls_logins.insert(
                        s.id,
                        LoginLinkModel {
                            binding_id: b.id,
                            selector: selector_of(b),
                            expires_at: end,
                        },
                    ),
                    authentication: match token {
                        Some(tk) => t1.authentication.insert(
                            digest_of(tk),
                            AuthenticationTransactionModel {
                                authenticated_session: Some(s.id),
                                ..t1.authentication[digest_of(tk)]
                            },
                        ),
                        None => t1.authentication,
                    },
                    ..t1
                };
                (
                    audited(t2, user.id, "login.succeeded"@, s.id),
                    Ok(
                        LoginReplyModel {
                            session_token: "ri_session_"@ + next_id(t),
                            expires_at: end,
                            user: user_view(user),
                        },
                    ),
                )
            }
        },
    }
}

impl Core {
    /// Opens a session for the user whose binding the certificate satisfies. `leaf` is the identity
    /// of the presented chain, once that was verified against the trust anchors. A refused login is
    /// noted; the session ends no later than the certificate.
    pub fn login_with_leaf(
        &self,
        tx: &mut Tx,
        leaf: &Leaf,
        transaction: &Option<String>,
    ) -> (r: Result<LoginReply, Error>)
        ensures
            ({
                let out = certificate_login(
                    old(tx)@,
                    self@.config,
                    leaf@,
                    opt_text(*transaction),
                );
                final(tx)@ == out.0 && agrees_with(r, out.1)
            }),
    {
        let binding = match find_binding(tx, leaf) {
            Some(b) => b,
            None => {
                audit(tx, "anonymous", "login.failed", "client-certificate");
                return Err(rejected("Client certificate is not enrolled"));
            },
        };
        let user = match tx.users.get(binding.user_id.as_str()) {
            Some(u) => u.dup(),
            None => {
                audit(tx, "anonymous", "login.failed", "client-certificate");
                return Err(rejected("Client certificate is not enrolled"));
            },
        };
        if !user.enabled {
            audit(tx, "anonymous", "login.failed", user.username.as_str());
            return Err(rejected("Account is disabled"));
        }
        let at = tx.now;
        let expires_at = earlier(at.saturating_add(self.config.session_ttl), leaf.not_after);
        if expires_at <= at {
            audit(tx, "anonymous", "login.failed", user.username.as_str());
            return Err(rejected("Client certificate is expired or not yet valid"));
        }
        let mut challenge: Option<(String, AuthenticationTransaction)> = None;
        if let Some(token) = transaction {
            let key = digest(token.as_str());
            let item = match tx.authentication.get(key.as_str()) {
                Some(a) => a.dup(),
                None => return Err(Error::bad("Authentication transaction expired or used")),
            };
            if item.expires_at <= at || item.authenticated_session.is_some() {
                return Err(Error::bad("Authentication transaction expired or used"));
            }
            if let Err(e) = reject_embedded_stage(&item) {
                return Err(e);
            }
            if item.user_id.is_some() && !opt_is(&item.user_id, user.id.as_str()) {
                return Err(Error::Forbidden);
            }
            challenge = Some((key, item));
        }
        let token = tx.random_token("ri_session_");
        let sid = tx.id();
        let mut amr: Vec<String> = Vec::new();
        amr.push("cert".to_owned());
        assert(texts(amr@) =~= seq!["cert"@]);
        let identity = Identity {
            amr,
            source: None,
            user_id: user.id.clone(),
            epoch: user.epoch,
            mfa: false,
            auth_time: at,
            session_id: sid.clone(),
        };
        let token_hash = digest(token.as_str());
        let session = Session {
            id: sid.clone(),
            token_hash: token_hash.clone(),
            identity,
            expires_at,
            revoked: false,
        };
        tx.sessions.put(sid.as_str(), session);
        tx.session_tokens.put(token_hash.as_str(), sid.clone());
        let link = LoginLink { binding_id: binding.id.clone(), selector: selector(&binding), expires_at };
        tx.mtls_logins.put(sid.as_str(), link);
        if let Some((key, item)) = challenge {
            let mut item = item;
            item.authenticated_session = Some(sid.clone());
            tx.authentication.put(key.as_str(), item);
        }
        audit(tx, user.id.as_str(), "login.succeeded", sid.as_str());
        Ok(LoginReply { session_token: token, expires_at, user: user.shown() })
    }
}

/// A certificate identity is still the enrolled one that its session was opened with.
pub open spec fn certificate_stands(t: TxModel, i: IdentityModel) -> bool {
    i.amr.contains("cert"@) ==> t.mtls_logins.dom().contains(i.session_id) && {
        let link = t.mtls_logins[i.session_id];
        &&& link.expires_at > t.now
        &&& t.mtls_bindings.dom().contains(link.binding_id)
        &&& t.mtls_bindings[link.binding_id].user_id == i.user_id
        &&& selector_of(t.mtls_bindings[link.binding_id]) == link.selector
    }
}

pub fn validate_identity(tx: &Tx, identity: &Identity) -> (r: Result<(), Error>)
    ensures
        r is Ok == certificate_stands(tx@, identity@),
        r is Err ==> r->Err_0@ == Failure::Unauthorized,
{
    if !among("cert", &identity.amr) {
        return Ok(());
    }
    let link = match tx.mtls_logins.get(identity.session_id.as_str()) {
        Some(l) => l,
        None => return Err(Error::Unauthorized),
    };
    if link.expires_at <= tx.now {
        return Err(Error::Unauthorized);
    }
    match tx.mtls_bindings.get(link.binding_id.as_str()) {
        None => Err(Error::Unauthorized),
        Some(b) => {
            let s = selector(b);
            if same(b.user_id.as_str(), identity.user_id.as_str()) && same(
                s.as_str(),
                link.selector.as_str(),
            ) {
                Ok(())
            } else {
                Err(Error::Unauthorized)
            }
        },
    }
}

/// The link of a session ended at `at` or before.
pub open spec fn ended_link(at: u64) -> spec_fn(LoginLinkModel) -> bool {
    |l: LoginLinkModel| l.expires_at <= at
}

fn is_ended_link(l: &LoginLink, at: u64) -> (b: bool)
    ensures
        b == ended_link(at)(l@),
{
    l.expires_at <= at
}

/// Drops the links of sessions that ended.
pub fn cleanup(tx: &mut Tx, at: u64)
    ensures
        final(tx)@ == (TxModel {
            mtls_logins: without(old(tx)@.mtls_logins, ended_link(at)),
            ..old(tx)@
        }),
{
    tx.mtls_logins.purge(at, is_ended_link, Ghost(ended_link(at)));
}

/// The bindings of the users that may be seen, with their names as they are now, in the order of
/// their ids.
pub open spec fn shown_bindings(t: TxModel, ids: Seq<Seq<char>>, readable: Set<Seq<char>>) -> Seq<
    BindingModel,
>
    decreases ids.len(),
{
    if ids.len() == 0 {
        Seq::empty()
    } else {
        let rest = shown_bindings(t, ids.drop_last(), readable);
        let b = t.mtls_bindings[ids.last()];
        if t.users.dom().contains(b.user_id) && readable.contains(t.users[b.user_id].username) {
            rest.push(BindingModel { username: t.users[b.user_id].username, ..b })
        } else {
            rest
        }
    }
}

impl Core {
    /// Lists the bindings of the users whose names are in `readable`: those that the caller may see.
    #[verifier::loop_isolation(false)]
    pub fn client_certificate_list(&self, tx: &Tx, readable: &Names) -> (r: Vec<Binding>)
        ensures
            views(r@) == shown_bindings(tx@, in_order(tx@.mtls_bindings.dom()), readable@),
    {
        let ids = tx.mtls_bindings.keys();
        let ghost all = in_order(ids@);
        let n: usize = ids.len();
        let mut out: Vec<Binding> = Vec::new();
        let mut i: usize = 0;
        assert(views(out@) =~= Seq::<BindingModel>::empty());
        while i < n
            invariant
                i <= n,
                views(out@) == shown_bindings(tx@, all.take(i as int), readable@),
            decreases n - i,
        {
            proof {
                assert(all.take(i + 1).drop_last() =~= all.take(i as int));
            }
            if let Some(b) = tx.mtls_bindings.get(ids.at(i).as_str()) {
                if let Some(u) = tx.users.get(b.user_id.as_str()) {
                    if readable.contains(u.username.as_str()) {
                        let ghost was = views(out@);
                        let mut x = b.dup();
                        x.username = u.username.clone();
                        let ghost xm = x@;
                        out.push(x);
                        assert(views(out@) =~= was.push(xm));
                    }
                }
            }
            i = i + 1;
        }
        assert(all.take(n as int) =~= all);
        out
    }
}

/// A session that a certificate opened ends no later than the certificate, and its identity stands
/// at once.
pub proof fn certificate_sessions_end_with_the_certificate(
    t: TxModel,
    cfg: ConfigModel,
    leaf: LeafModel,
    token: Option<Seq<char>>,
)
    requires
        certificate_login(t, cfg, leaf, token).1 is Ok,
        login_binding(t, leaf) is Some,
        t.mtls_bindings.dom().contains((login_binding(t, leaf)->0).id),
        t.mtls_bindings[(login_binding(t, leaf)->0).id] == login_binding(t, leaf)->0,
        t.users[(login_binding(t, leaf)->0).user_id].id == (login_binding(t, leaf)->0).user_id,
    ensures
        ({
            let u = certificate_login(t, cfg, leaf, token).0;
            let sid = next_id(drawn(t));
            &&& u.sessions[sid].expires_at <= leaf.not_after
            &&& certificate_stands(u, u.sessions[sid].identity)
        }),
{
    let u = certificate_login(t, cfg, leaf, token).0;
    let sid = next_id(drawn(t));
    assert(u.sessions[sid].identity.amr[0] == "cert"@);
}

/// Only a certificate that was bound to an account logs in: that a trusted authority issued it is
/// not enough.
pub proof fn only_bound_certificates_log_in(
    t: TxModel,
    cfg: ConfigModel,
    leaf: LeafModel,
    token: Option<Seq<char>>,
)
    requires
        login_binding(t, leaf) is None,
    ensures
        certificate_login(t, cfg, leaf, token).1 == Err::<LoginReplyModel, Failure>(
            rejection("Client certificate is not enrolled"@),
        ),
        certificate_login(t, cfg, leaf, token).0.sessions == t.sessions,
{
}

/// The identity of the certificate in a request to bind one, as the configured anchors vouch for it.
pub open spec fn bind_leaf(
    cfg: ConfigModel,
    input: BindInputModel,
    anchors: Option<Seq<u8>>,
    lists: Option<Seq<u8>>,
    now: u64,
) -> Result<LeafModel, Failure> {
    match cfg.client_certificates {
        None => Err(Failure::Missing("Client certificate authentication is not configured"@)),
        Some(p) => match filled(input.certificate_pem) {
            None => Err(no_certificate()),
            Some(pem) => match pem_check(pem) {
                Err(f) => Err(f),
                Ok(chain) => profile_chain(p, anchors, lists, chain, now),
            },
        },
    }
}

/// The identity of the certificate that a request presents, as the configured anchors vouch for it.
pub open spec fn login_leaf(
    cfg: ConfigModel,
    anchors: Option<Seq<u8>>,
    lists: Option<Seq<u8>>,
    peer: Seq<char>,
    forwarded: Seq<Seq<char>>,
    ders: Seq<Seq<u8>>,
    now: u64,
) -> Result<LeafModel, Failure> {
    match cfg.client_certificates {
        None => Err(Failure::Missing("Client certificate authentication is not configured"@)),
        Some(p) => match presented_check(p, cfg.trusted_proxies.contains(peer), forwarded, ders) {
            Err(f) => Err(f),
            Ok(chain) => profile_chain(p, anchors, lists, chain, now),
        },
    }
}

/// What a request to log in with a certificate does.
pub open spec fn presented_login(
    t: TxModel,
    cfg: ConfigModel,
    leaf: Result<LeafModel, Failure>,
    token: Option<Seq<char>>,
) -> (TxModel, Result<LoginReplyModel, Failure>) {
    match leaf {
        Err(f) => (t, Err(f)),
        Ok(l) => certificate_login(t, cfg, l, token),
    }
}

impl Core {
    fn read_bind_leaf(
        &self,
        input: &BindInput,
        anchors: &Option<Vec<u8>>,
        lists: &Option<Vec<u8>>,
        now: u64,
    ) -> (r: Result<Leaf, Error>)
        ensures
            leaf_view(r) == bind_leaf(self@.config, input@, opt_bytes(*anchors), opt_bytes(*lists), now),
    {
        let p = match profile(self) {
            Err(e) => return Err(e),
            Ok(p) => p,
        };
        let pem = match fill(&input.certificate_pem) {
            None => return Err(missing_certificate()),
            Some(t) => t,
        };
        match parse_pem(pem.as_str()) {
            Err(e) => Err(e),
            Ok(chain) => {
                assert(byte_lists(chain@).len() == chain.len());
                verify_presented(p, anchors, lists, &chain, now)
            },
        }
    }

    /// Enrolls a certificate identity for a user. A certificate in the request counts only once the
    /// configured anchors vouched for it; `anchors` and `lists` are what their files hold, where they
    /// could be read.
    pub fn client_certificate_bind(
        &self,
        tx: &mut Tx,
        actor: &Principal,
        input: &BindInput,
        anchors: &Option<Vec<u8>>,
        lists: &Option<Vec<u8>>,
        rules: &Rules,
    ) -> (r: Result<Binding, Error>)
        ensures
            ({
                let out = enrollment(
                    old(tx)@,
                    self@.config,
                    actor@,
                    input@,
                    bind_leaf(
                        self@.config,
                        input@,
                        opt_bytes(*anchors),
                        opt_bytes(*lists),
                        old(tx)@.now,
                    ),
                    rules@,
                );
                final(tx)@ == out.0 && agrees_with(r, out.1)
            }),
    {
        let leaf = self.read_bind_leaf(input, anchors, lists, tx.now);
        self.client_certificate_bind_with(tx, actor, input, &leaf, rules)
    }

    /// Logs in whoever presents a certificate that the configured anchors vouch for and that is
    /// bound to an account. `anchors` and `lists` are what their files hold, where they could be
    /// read.
    pub fn login_with_client_certificate(
        &self,
        tx: &mut Tx,
        anchors: &Option<Vec<u8>>,
        lists: &Option<Vec<u8>>,
        peer: &str,
        forwarded: &Vec<String>,
        tls_ders: &Vec<Vec<u8>>,
        transaction: &Option<String>,
    ) -> (r: Result<LoginReply, Error>)
        ensures
            ({
                let out = presented_login(
                    old(tx)@,
                    self@.config,
                    login_leaf(
                        self@.config,
                        opt_bytes(*anchors),
                        opt_bytes(*lists),
                        peer@,
                        texts(forwarded@),
                        byte_lists(tls_ders@),
                        old(tx)@.now,
                    ),
                    opt_text(*transaction),
                );
                final(tx)@ == out.0 && agrees_with(r, out.1)
            }),
    {
        let p = match profile(self) {
            Err(e) => return Err(e),
            Ok(p) => p,
        };
        let trusted = self.config.trusted_proxies.contains(peer);
        let chain = match presented_chain(p, trusted, forwarded, tls_ders) {
            Err(e) => return Err(e),
            Ok(c) => c,
        };
        assert(byte_lists(chain@).len() == chain.len());
        match verify_presented(p, anchors, lists, &chain, tx.now) {
            Err(e) => Err(e),
            Ok(leaf) => self.login_with_leaf(tx, &leaf, transaction),
        }
    }
}

/// Nobody logs in with a certificate that was not verified: a login implies that the presented chain
/// was vouched for by the configured anchors, and that its leaf is bound to an account.
pub proof fn presented_certificates_are_verified(
    t: TxModel,
    cfg: ConfigModel,
    anchors: Option<Seq<u8>>,
    lists: Option<Seq<u8>>,
    peer: Seq<char>,
    forwarded: Seq<Seq<char>>,
    ders: Seq<Seq<u8>>,
    token: Option<Seq<char>>,
)
    requires
        presented_login(
            t,
            cfg,
            login_leaf(cfg, anchors, lists, peer, forwarded, ders, t.now),
            token,
        ).1 is Ok,
    ensures
        cfg.client_certificates is Some,
        anchors is Some,
        ({
            let p = cfg.client_certificates->0;
            let chain = presented_check(p, cfg.trusted_proxies.contains(peer), forwarded, ders);
            let used = if p.crl_file is Some {
                lists
            } else {
                None
            };
            &&& chain is Ok
            &&& chain_result(material_check(anchors->0, used, t.now), chain->Ok_0, t.now) is Ok
            &&& login_binding(
                t,
                chain_result(material_check(anchors->0, used, t.now), chain->Ok_0, t.now)->Ok_0,
            ) is Some
        }),
{
}

/// A certificate logs in the user that it is bound to. The session begins now, is for one factor, ends
/// with the provider's time or with the certificate, whichever comes first, and remembers the binding.
pub proof fn bound_certificates_begin_a_session(
    t: TxModel,
    cfg: ConfigModel,
    leaf: LeafModel,
    b: BindingModel,
)
    requires
        login_binding(t, leaf) == Some(b),
        t.users.dom().contains(b.user_id),
        t.now + cfg.session_ttl <= u64::MAX,
    ensures
        ({
            let user = t.users[b.user_id];
            let out = certificate_login(t, cfg, leaf, None);
            let reply = out.1->Ok_0;
            let s = out.0.sessions[out.0.session_tokens[digest_of(reply.session_token)]];
            let link = out.0.mtls_logins[s.id];
            &&& out.1 is Ok <==> user.enabled && leaf.not_after > t.now && cfg.session_ttl > 0
            &&& out.1 is Ok ==> {
                &&& s.identity.user_id == user.id && s.identity.epoch == user.epoch
                &&& s.identity.amr == seq!["cert"@] && !s.identity.mfa
                &&& s.identity.auth_time == t.now && s.identity.session_id == s.id
                &&& s.identity.source is None
                &&& s.token_hash == digest_of(reply.session_token)
                &&& !s.revoked
                &&& s.expires_at <= leaf.not_after && s.expires_at <= t.now + cfg.session_ttl
                &&& s.expires_at == leaf.not_after || s.expires_at == t.now + cfg.session_ttl
                &&& reply.expires_at == s.expires_at && reply.user == user_view(user)
                &&& link.binding_id == b.id && link.expires_at == s.expires_at
                &&& out.0.audit.last().action == "login.succeeded"@
            }
            &&& out.1 is Err ==> out.0.sessions == t.sessions && out.0.session_tokens
                == t.session_tokens && out.0.audit.last().action == "login.failed"@
        }),
{
}

/// A binding names its certificates by everything that it fixes: the certificate itself, an address and
/// an identifier, as far as each is set, and at least one of them.
pub proof fn bindings_match_all_that_they_fix(b: BindingModel, leaf: LeafModel)
    ensures
        matches_leaf(b, leaf) <==> {
            &&& b.fingerprint is None || b.fingerprint == Some(leaf.fingerprint)
            &&& b.san_email is None || leaf.emails.contains(b.san_email->0)
            &&& b.san_uri is None || leaf.uris.contains(b.san_uri->0)
            &&& !(b.fingerprint is None && b.san_email is None && b.san_uri is None)
        },
{
}

/// The binding that a certificate logs in with matches it.
pub proof fn certificates_log_in_by_a_matching_binding(t: TxModel, leaf: LeafModel)
    requires
        login_binding(t, leaf) is Some,
    ensures
        exists|id: Seq<char>| #[trigger]
            t.mtls_bindings.dom().contains(id) && t.mtls_bindings[id] == login_binding(t, leaf)->0
                && matches_leaf(t.mtls_bindings[id], leaf),
{
    let list = in_order(candidates(t, leaf));
    let m = matching(t, leaf);
    list.lemma_filter_contains_rev(matching_rule(t, leaf), m.last());
    lemma_filtered_meet_the_rule(list, matching_rule(t, leaf), m.len() - 1);
    assert(t.mtls_bindings.dom().contains(m.last()));
}

proof fn lemma_filtered_meet_the_rule(
    list: Seq<Seq<char>>,
    rule: spec_fn(Seq<char>) -> bool,
    i: int,
)
    requires
        0 <= i < list.filter(rule).len(),
    ensures
        rule(list.filter(rule)[i]),
    decreases list.len(),
{
    reveal(Seq::filter);
    if list.len() > 0 {
        let d = list.drop_last();
        if i < d.filter(rule).len() {
            lemma_filtered_meet_the_rule(d, rule, i);
        }
    }
}

/// Enrolling a certificate binds it to the named user, as it was chosen; an administrator is not bound
/// by an agent, nor a certificate of another user.
pub proof fn enrolled_certificates_are_bound_to_their_user(
    t: TxModel,
    cfg: ConfigModel,
    actor: PrincipalModel,
    input: BindInputModel,
    leaf: LeafModel,
    rules: RulesModel,
    user: UserModel,
)
    requires
        name_check(rules, input.username) is Ok,
        cfg.client_certificates is Some,
        named_user(t, input.username) == Some(user),
        filled(input.certificate_pem) is Some,
        filled(input.san_uri) is None && filled(input.san_email) is None,
        users_binding(t, user.id) is None,
    ensures
        ({
            let out = enrollment(t, cfg, actor, input, Ok(leaf), rules);
            let b = out.1->Ok_0;
            &&& out.1 is Ok <==> {
                &&& !(actor.agent && user.admin)
                &&& !taken(t.mtls_bindings, t.mtls_fingerprints, leaf.fingerprint, user.id)
            }
            &&& out.1 is Ok ==> {
                &&& b.user_id == user.id && b.username == user.username
                &&& b.fingerprint == Some(leaf.fingerprint) && b.not_after == Some(leaf.not_after)
                &&& b.san_uri is None && b.san_email is None
                &&& b.created_at == t.now
                &&& out.0.mtls_bindings[b.id] == b
                &&& out.0.mtls_fingerprints[leaf.fingerprint] == b.id
                &&& out.0.mtls_users[user.id] == b.id
                &&& matches_leaf(b, leaf)
            }
            &&& out.1 is Err ==> out.0 == t
        }),
{
}

/// A certificate is good for logging in while it is valid, and never where it may issue others.
pub proof fn valid_leaves_are_read(der: Seq<u8>, at: u64)
    requires
        certificate_of(der) is Some,
        (certificate_of(der)->0).names is Some,
        (certificate_of(der)->0).names->0 == Seq::<SanNameModel>::empty(),
        (certificate_of(der)->0).not_after <= u64::MAX,
    ensures
        leaf_check(der, at) is Ok <==> {
            let c = certificate_of(der)->0;
            !c.ca && c.not_before <= at && at < c.not_after
        },
        leaf_check(der, at) matches Ok(l) ==> l.fingerprint == base64url_of(sha256_of(der))
            && l.not_after == (certificate_of(der)->0).not_after,
{
}

/// What a proxy forwards is believed only where the proxy is trusted; anybody else shows a certificate of
/// their own.
pub proof fn only_trusted_proxies_forward_certificates(
    a: ClientCertAuthModel,
    forwarded: Seq<Seq<char>>,
    ders: Seq<Seq<u8>>,
)
    ensures
        presented_check(a, false, forwarded, ders) == presented_check(a, false, Seq::empty(), ders),
        presented_check(a, false, forwarded, ders) matches Ok(c) ==> c == ders,
        a.forwarded_header is None ==> presented_check(a, true, forwarded, ders) == presented_check(
            a,
            false,
            forwarded,
            ders,
        ),
        a.forwarded_header is Some ==> presented_check(a, true, forwarded, ders) == presented_check(
            a,
            true,
            forwarded,
            Seq::empty(),
        ),
{
}

/// What it does to revoke a binding: the sessions that began with it end, and its certificates log in no
/// more.
pub open spec fn binding_revoked(t: TxModel, actor: PrincipalModel, id: Seq<char>) -> (
    TxModel,
    Result<(), Failure>,
) {
    let b = t.mtls_bindings[id];
    if !t.mtls_bindings.dom().contains(id) || !t.users.dom().contains(b.user_id) {
        (t, Err(Failure::Missing("Certificate binding not found"@)))
    } else if actor.agent && t.users[b.user_id].admin {
        (t, Err(Failure::Forbidden))
    } else {
        (audited(unbound(t, Some(b)), actor.id, "mtls.revoke"@, id), Ok(()))
    }
}

/// A revoked binding is gone, under every name that it had; an agent revokes none of an administrator.
pub proof fn revoked_bindings_are_gone(t: TxModel, actor: PrincipalModel, id: Seq<char>)
    requires
        t.mtls_bindings.dom().contains(id),
        t.mtls_bindings[id].id == id,
        t.users.dom().contains(t.mtls_bindings[id].user_id),
    ensures
        ({
            let b = t.mtls_bindings[id];
            let out = binding_revoked(t, actor, id);
            &&& out.1 is Ok <==> !(actor.agent && t.users[b.user_id].admin)
            &&& out.1 is Ok ==> {
                &&& !out.0.mtls_bindings.dom().contains(id)
                &&& !out.0.mtls_users.dom().contains(b.user_id)
                &&& b.fingerprint is Some ==> !out.0.mtls_fingerprints.dom().contains(b.fingerprint->0)
                &&& b.san_email is Some ==> !out.0.mtls_san_emails.dom().contains(
                    digest_of(b.san_email->0),
                )
                &&& b.san_uri is Some ==> !out.0.mtls_san_uris.dom().contains(digest_of(b.san_uri->0))
                &&& out.0.audit.last().action == "mtls.revoke"@
            }
            &&& out.1 is Err ==> out.0 == t
        }),
{
}

/// A login by certificate stands while its binding does: the login was remembered and is not over, and
/// its binding is still there, is that user's, and matches what it matched. Other logins need none.
pub proof fn certificate_logins_stand_with_their_binding(t: TxModel, i: IdentityModel)
    ensures
        !i.amr.contains("cert"@) ==> certificate_stands(t, i),
        i.amr.contains("cert"@) ==> (certificate_stands(t, i) <==> {
            let link = t.mtls_logins[i.session_id];
            &&& t.mtls_logins.dom().contains(i.session_id)
            &&& link.expires_at > t.now
            &&& t.mtls_bindings.dom().contains(link.binding_id)
            &&& t.mtls_bindings[link.binding_id].user_id == i.user_id
            &&& link.selector == selector_of(t.mtls_bindings[link.binding_id])
        }),
        i.amr.contains("cert"@) && !t.mtls_logins.dom().contains(i.session_id) ==> !certificate_stands(t, i),
{
}

/// Certificates are taken from the connection itself, or from a header that a trusted proxy sets and
/// that has no other meaning.
pub proof fn certificates_come_from_tls_or_a_proxy(a: ClientCertAuthModel, cfg: ConfigModel)
    ensures
        profile_check(a, cfg) is Ok <==> {
            &&& a.trust_anchors_file.len() > 0
            &&& a.crl_file matches Some(f) ==> f.len() > 0
            &&& a.forwarded_header is None ==> cfg.native_tls
            &&& a.forwarded_header matches Some(h) ==> header_token(h) && !reserved_header(lower(h))
                && cfg.trusted_proxies.len() > 0
        },
{
}

/// A binding fixes a certificate, an address or a name, and what it fixes stands in the certificate if
/// one is given.
pub proof fn bindings_fix_what_was_given(
    input: BindInputModel,
    leaf: Result<LeafModel, Failure>,
    rules: RulesModel,
)
    requires
        choice_check(input, leaf, rules) is Ok,
    ensures
        ({
            let c = choice_check(input, leaf, rules)->Ok_0;
            &&& c.fingerprint is Some || c.san_uri is Some || c.san_email is Some
            &&& c.san_email is Some ==> input.san_email is Some && c.san_email->0 == trimmed(input.san_email->0)
                && !rules.refused.contains("email"@)
            &&& c.san_uri is Some ==> input.san_uri is Some && c.san_uri->0 == trimmed(input.san_uri->0)
                && san_uri_ok(c.san_uri->0)
            &&& input.san_email is Some && trimmed(input.san_email->0).len() > 0 ==> c.san_email is Some
            &&& input.san_uri is Some && trimmed(input.san_uri->0).len() > 0 ==> c.san_uri is Some
            &&& c.fingerprint is Some <==> (input.certificate_pem matches Some(p) && trimmed(p).len() > 0)
            &&& c.fingerprint matches Some(f) ==> leaf is Ok && f == (leaf->Ok_0).fingerprint && c.not_after
                == Some((leaf->Ok_0).not_after) && (c.san_email is Some ==> (leaf->Ok_0).emails.contains(
                c.san_email->0,
            )) && (c.san_uri is Some ==> (leaf->Ok_0).uris.contains(c.san_uri->0))
            &&& c.fingerprint is None ==> c.not_after is None
        }),
{
}

/// A login goes on where it began: the transaction is still open, was not used, and is nobody else's.
pub proof fn certificate_logins_continue_their_transaction(t: TxModel, token: Seq<char>, user_id: Seq<char>)
    ensures
        login_challenge(t, None, user_id) is Ok,
        login_challenge(t, Some(token), user_id) is Ok ==> {
            let x = t.authentication[digest_of(token)];
            &&& t.authentication.dom().contains(digest_of(token))
            &&& x.expires_at > t.now
            &&& x.authenticated_session is None
            &&& x.user_id is Some ==> x.user_id->0 == user_id
        },
        t.authentication.dom().contains(digest_of(token)) && t.authentication[digest_of(token)].expires_at
            > t.now && t.authentication[digest_of(token)].authenticated_session is None && stage_check(
            t.authentication[digest_of(token)],
        ) is Ok && t.authentication[digest_of(token)].user_id is None ==> login_challenge(
            t,
            Some(token),
            user_id,
        ) is Ok,
{
}

/// A forwarded certificate is bounded, readable text with something in it.
pub proof fn forwarded_certificates_are_bounded(value: Seq<char>, decoded: Option<Seq<char>>)
    ensures
        forwarded_check(value, decoded) is Ok ==> byte_count(value) <= 49152 && decoded is Some && byte_count(
            decoded->0,
        ) <= 32768 && !(decoded->0).contains('\0') && trimmed(decoded->0).len() > 0 && pem_check(decoded->0)
            == forwarded_check(value, decoded),
        byte_count(value) <= 49152 && decoded is Some && byte_count(decoded->0) <= 32768 && !(
        decoded->0).contains('\0') && trimmed(decoded->0).len() > 0 ==> forwarded_check(value, decoded)
            == pem_check(decoded->0),
{
}

/// Bytes without a percent sign are taken as they are; a percent sign stands for the byte whose two
/// hexadecimal digits follow it.
pub proof fn percent_signs_stand_for_bytes(s: Seq<u8>, i: int)
    requires
        0 <= i < s.len(),
        percent_bytes(s, i) is Some,
    ensures
        s[i] != '%' as u8 ==> percent_bytes(s, i + 1) is Some && percent_bytes(s, i)->0 == seq![s[i]]
            + percent_bytes(s, i + 1)->0,
        s[i] == '%' as u8 ==> i + 2 < s.len() && nibble(s[i + 1]) is Some && nibble(s[i + 2]) is Some
            && percent_bytes(s, i + 3) is Some && (percent_bytes(s, i)->0)[0] as int == nibble(s[i + 1])->0
            * 16 + nibble(s[i + 2])->0 && (percent_bytes(s, i)->0).skip(1) == percent_bytes(s, i + 3)->0,
{
    reveal_with_fuel(crate::mtls::percent_bytes, 2);
    if s[i] == 37 {
        let rest = percent_bytes(s, i + 3)->0;
        assert((percent_bytes(s, i)->0).skip(1) =~= rest);
    }
}

/// Logins by certificate are forgotten when they are over.
pub proof fn ended_certificate_logins_are_forgotten(t: TxModel, at: u64, k: Seq<char>)
    ensures
        without(t.mtls_logins, ended_link(at)).dom().contains(k) <==> t.mtls_logins.dom().contains(k)
            && t.mtls_logins[k].expires_at > at,
{
    purges_leave_what_does_not_match(t.mtls_logins, ended_link(at), k);
}

/// The list shows the bindings of the users that may be seen, under their present names.
pub proof fn listed_bindings_name_their_user(
    t: TxModel,
    ids: Seq<Seq<char>>,
    readable: Set<Seq<char>>,
    b: BindingModel,
)
    ensures
        shown_bindings(t, ids, readable).contains(b) <==> exists|i: int|
            0 <= i < ids.len() && t.users.dom().contains(t.mtls_bindings[#[trigger] ids[i]].user_id)
                && readable.contains(t.users[t.mtls_bindings[ids[i]].user_id].username) && b == (BindingModel {
                username: t.users[t.mtls_bindings[ids[i]].user_id].username,
                ..t.mtls_bindings[ids[i]]
            }),
    decreases ids.len(),
{
    if ids.len() > 0 {
        let d = ids.drop_last();
        let rest = shown_bindings(t, d, readable);
        let all = shown_bindings(t, ids, readable);
        listed_bindings_name_their_user(t, d, readable, b);
        let fits = |i: int|
            t.users.dom().contains(t.mtls_bindings[ids[i]].user_id) && readable.contains(
                t.users[t.mtls_bindings[ids[i]].user_id].username,
            ) && b == (BindingModel {
                username: t.users[t.mtls_bindings[ids[i]].user_id].username,
                ..t.mtls_bindings[ids[i]]
            });
        if all.contains(b) {
            let k = all.index_of(b);
            if k < rest.len() {
                assert(rest[k] == b);
                let i = choose|i: int|
                    0 <= i < d.len() && t.users.dom().contains(t.mtls_bindings[#[trigger] d[i]].user_id)
                        && readable.contains(t.users[t.mtls_bindings[d[i]].user_id].username) && b == (
                    BindingModel {
                        username: t.users[t.mtls_bindings[d[i]].user_id].username,
                        ..t.mtls_bindings[d[i]]
                    });
                assert(d[i] == ids[i]);
                assert(fits(i));
            } else {
                assert(ids[ids.len() - 1] == ids.last());
                assert(fits(ids.len() - 1));
            }
        }
        if exists|i: int| 0 <= i < ids.len() && #[trigger] fits(i) {
            let i = choose|i: int| 0 <= i < ids.len() && #[trigger] fits(i);
            if i < d.len() {
                assert(d[i] == ids[i]);
                assert(rest.contains(b));
                assert(all[rest.index_of(b)] == b);
            } else {
                assert(all[rest.len() as int] == b);
            }
        }
        if exists|i: int|
            0 <= i < ids.len() && t.users.dom().contains(t.mtls_bindings[#[trigger] ids[i]].user_id)
                && readable.contains(t.users[t.mtls_bindings[ids[i]].user_id].username) && b == (BindingModel {
                username: t.users[t.mtls_bindings[ids[i]].user_id].username,
                ..t.mtls_bindings[ids[i]]
            }) {
            let i = choose|i: int|
                0 <= i < ids.len() && t.users.dom().contains(t.mtls_bindings[#[trigger] ids[i]].user_id)
                    && readable.contains(t.users[t.mtls_bindings[ids[i]].user_id].username) && b == (
                BindingModel {
                    username: t.users[t.mtls_bindings[ids[i]].user_id].username,
                    ..t.mtls_bindings[ids[i]]
                });
            assert(fits(i));
        }
    }
}

/// A certificate is bound from the text that was given, under the trust that is configured.
pub proof fn bound_certificates_are_trusted(
    cfg: ConfigModel,
    input: BindInputModel,
    anchors: Option<Seq<u8>>,
    lists: Option<Seq<u8>>,
    now: u64,
)
    requires
        bind_leaf(cfg, input, anchors, lists, now) is Ok,
    ensures
        ({
            let pem = trimmed(input.certificate_pem->0);
            &&& cfg.client_certificates is Some
            &&& input.certificate_pem is Some && pem.len() > 0
            &&& pem_check(pem) is Ok
            &&& profile_chain(cfg.client_certificates->0, anchors, lists, pem_check(pem)->Ok_0, now)
                == bind_leaf(cfg, input, anchors, lists, now)
        }),
{
}

/// A chain that came with the connection has one to eight certificates, none empty and none larger than
/// sixteen kibibytes; it is taken as it came.
pub proof fn presented_chains_are_bounded(ders: Seq<Seq<u8>>)
    ensures
        der_check(ders) is Ok <==> 1 <= ders.len() <= 8 && forall|i: int|
            0 <= i < ders.len() ==> 1 <= (#[trigger] ders[i]).len() <= 16384,
        der_check(ders) matches Ok(v) ==> v == ders,
{
}

/// A selector is taken if a binding of somebody else has it; one's own binding and a binding that is gone
/// do not count.
pub proof fn selectors_belong_to_one_user(t: TxModel, c: ChosenModel, user_id: Seq<char>)
    ensures
        c.san_email is None && c.san_uri is None && c.fingerprint is Some ==> (choice_taken(t, c, user_id) <==> {
            let k = t.mtls_fingerprints[c.fingerprint->0];
            &&& t.mtls_fingerprints.dom().contains(c.fingerprint->0)
            &&& t.mtls_bindings.dom().contains(k)
            &&& t.mtls_bindings[k].user_id != user_id
        }),
        c.fingerprint is None && c.san_uri is None && c.san_email is Some ==> (choice_taken(t, c, user_id) <==> {
            let k = t.mtls_san_emails[digest_of(c.san_email->0)];
            &&& t.mtls_san_emails.dom().contains(digest_of(c.san_email->0))
            &&& t.mtls_bindings.dom().contains(k)
            &&& t.mtls_bindings[k].user_id != user_id
        }),
        c.fingerprint is None && c.san_email is None && c.san_uri is Some ==> (choice_taken(t, c, user_id) <==> {
            let k = t.mtls_san_uris[digest_of(c.san_uri->0)];
            &&& t.mtls_san_uris.dom().contains(digest_of(c.san_uri->0))
            &&& t.mtls_bindings.dom().contains(k)
            &&& t.mtls_bindings[k].user_id != user_id
        }),
        c.fingerprint is None && c.san_email is None && c.san_uri is None ==> !choice_taken(t, c, user_id),
{
}

} // verus!
