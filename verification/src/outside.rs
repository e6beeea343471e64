//! Calls into outside crates. Each contract here is believed, not proved.
use crate::text::opt_text;
use vstd::utf8::{encode_utf8, valid_utf8};
use rustls::pki_types::pem::PemObject;
use rustls::pki_types::CertificateDer;
use vstd::prelude::*;
use vstd::string::*;
use x509_parser::extensions::GeneralName;

verus! {

/// The parts of an absolute URL.
pub struct UrlParts {
    pub text: String,
    pub scheme: String,
    pub username: String,
    pub password: Option<String>,
    pub host: Option<String>,
    /// The host, where it is a domain and no address.
    pub domain: Option<String>,
    pub port: Option<u16>,
    pub path: String,
    pub query: Option<String>,
    pub fragment: Option<String>,
    /// The origin in its ASCII form.
    pub origin: String,
    /// The host and, where it is not the default one, the port.
    pub authority: String,
    /// Everything from the path on.
    pub tail: String,
}

/// What [`UrlParts`] holds.
pub struct UrlModel {
    pub text: Seq<char>,
    pub scheme: Seq<char>,
    pub username: Seq<char>,
    pub password: Option<Seq<char>>,
    pub host: Option<Seq<char>>,
    pub domain: Option<Seq<char>>,
    pub port: Option<u16>,
    pub path: Seq<char>,
    pub query: Option<Seq<char>>,
    pub fragment: Option<Seq<char>>,
    pub origin: Seq<char>,
    pub authority: Seq<char>,
    pub tail: Seq<char>,
}

impl View for UrlParts {
    type V = UrlModel;

    open spec fn view(&self) -> UrlModel {
        UrlModel {
            text: self.text@,
            scheme: self.scheme@,
            username: self.username@,
            password: opt_text(self.password),
            host: opt_text(self.host),
            domain: opt_text(self.domain),
            port: self.port,
            path: self.path@,
            query: opt_text(self.query),
            fragment: opt_text(self.fragment),
            origin: self.origin@,
            authority: self.authority@,
            tail: self.tail@,
        }
    }
}

/// The parts of the URL that `text` is, or `None` where it is no absolute URL.
pub uninterp spec fn url_of(text: Seq<char>) -> Option<UrlModel>;

/// `url::Url::parse`, with the parts of what it returns. The result depends on the text alone.
#[verifier::external_body]
pub(crate) fn parse_url(text: &str) -> (r: Option<UrlParts>)
    ensures
        r is Some == url_of(text@) is Some,
        r matches Some(u) ==> url_of(text@) == Some(u@),
{
    url::Url::parse(text).ok().map(|url| UrlParts {
        text: url.to_string(),
        scheme: url.scheme().into(),
        username: url.username().into(),
        password: url.password().map(String::from),
        host: url.host_str().map(String::from),
        domain: url.domain().map(String::from),
        port: url.port(),
        path: url.path().into(),
        query: url.query().map(String::from),
        fragment: url.fragment().map(String::from),
        origin: url.origin().ascii_serialization(),
        authority: url[url::Position::BeforeHost..url::Position::AfterPort].into(),
        tail: url[url::Position::BeforePath..].into(),
    })
}

/// The text of a URL with its port removed, or `None` where `text` is no absolute URL.
pub uninterp spec fn url_without_port(text: Seq<char>) -> Option<Seq<char>>;

/// `url::Url::parse` and `set_port(None)`, which leaves a URL that can have no port as it is.
#[verifier::external_body]
pub(crate) fn without_port(text: &str) -> (r: Option<String>)
    ensures
        opt_text(r) == url_without_port(text@),
{
    let mut url = url::Url::parse(text).ok()?;
    let _ = url.set_port(None);
    Some(url.to_string())
}

/// The views of a list of pairs of strings.
pub open spec fn pair_texts(v: Seq<(String, String)>) -> Seq<(Seq<char>, Seq<char>)> {
    v.map_values(|p: (String, String)| (p.0@, p.1@))
}

/// The pairs of a form-encoded text.
pub uninterp spec fn form_pairs(text: Seq<char>) -> Seq<(Seq<char>, Seq<char>)>;

/// `url::form_urlencoded::parse` on the bytes of `text`.
#[verifier::external_body]
pub(crate) fn parse_form(text: &str) -> (r: Vec<(String, String)>)
    ensures
        pair_texts(r@) == form_pairs(text@),
{
    url::form_urlencoded::parse(text.as_bytes()).map(|(k, v)| (k.into_owned(), v.into_owned())).collect()
}

/// `base` with `pairs` appended to its query, or `None` where it is no absolute URL.
pub uninterp spec fn url_with_pairs(base: Seq<char>, pairs: Seq<(Seq<char>, Seq<char>)>) -> Option<
    Seq<char>,
>;

/// `url::Url::parse`, then `query_pairs_mut().extend_pairs`, which succeeds on every URL.
#[verifier::external_body]
pub(crate) fn append_query(base: &str, pairs: &Vec<(String, String)>) -> (r: Option<String>)
    ensures
        r is Some == url_of(base@) is Some,
        opt_text(r) == url_with_pairs(base@, pair_texts(pairs@)),
{
    let mut url = url::Url::parse(base).ok()?;
    url.query_pairs_mut().extend_pairs(pairs.iter());
    Some(url.to_string())
}

/// The URL `base` with one more path segment, or `None` where it has no path to extend.
pub uninterp spec fn url_with_segment(base: Seq<char>, segment: Seq<char>) -> Option<Seq<char>>;

/// `url::Url::parse`, then `path_segments_mut().push`.
#[verifier::external_body]
pub(crate) fn append_segment(base: &str, segment: &str) -> (r: Option<String>)
    ensures
        opt_text(r) == url_with_segment(base@, segment@),
{
    let mut url = url::Url::parse(base).ok()?;
    url.path_segments_mut().ok()?.push(segment);
    Some(url.to_string())
}

/// A text as a JSON string.
pub uninterp spec fn json_quoted(text: Seq<char>) -> Seq<char>;

/// `serde_json::to_string` on a string, which cannot fail.
#[verifier::external_body]
pub(crate) fn quote_json(text: &str) -> (r: String)
    ensures
        r@ == json_quoted(text@),
{
    serde_json::Value::from(text).to_string()
}

/// The registrable domain of a host name, by the public suffix list.
pub uninterp spec fn registrable(host: Seq<char>) -> Option<Seq<char>>;

/// `psl::domain_str`.
#[verifier::external_body]
pub(crate) fn registrable_domain(host: &str) -> (r: Option<String>)
    ensures
        opt_text(r) == registrable(host@),
{
    psl::domain_str(host).map(String::from)
}

/// The SHA-256 hash of `data`.
pub uninterp spec fn sha256_of(data: Seq<u8>) -> Seq<u8>;

/// `sha2::Sha256::digest`: a hash of 32 bytes.
#[verifier::external_body]
pub(crate) fn sha256(data: &[u8]) -> (r: Vec<u8>)
    ensures
        r@ == sha256_of(data@),
        r.len() == 32,
{
    <sha2::Sha256 as sha2::Digest>::digest(data).to_vec()
}

/// The SHA-512 hash of `data`.
pub uninterp spec fn sha512_of(data: Seq<u8>) -> Seq<u8>;

/// `sha2::Sha512::digest`: a hash of 64 bytes.
#[verifier::external_body]
pub(crate) fn sha512(data: &[u8]) -> (r: Vec<u8>)
    ensures
        r@ == sha512_of(data@),
        r.len() == 64,
{
    <sha2::Sha512 as sha2::Digest>::digest(data).to_vec()
}

/// `data` in base64 with the URL alphabet and without padding.
pub uninterp spec fn base64url_of(data: Seq<u8>) -> Seq<char>;

/// `URL_SAFE_NO_PAD.encode` of the base64 crate: four characters for each three bytes, and one
/// more than the bytes that remain.
#[verifier::external_body]
pub(crate) fn base64url(data: &[u8]) -> (r: String)
    ensures
        r@ == base64url_of(data@),
        r@.len() == (data@.len() * 4 + 2) / 3,
{
    base64::Engine::encode(&base64::engine::general_purpose::URL_SAFE_NO_PAD, data)
}

/// The bytes that `text` encodes in base64 with the URL alphabet, or `None` where it encodes none.
pub uninterp spec fn base64url_bytes(text: Seq<char>) -> Option<Seq<u8>>;

/// The view of optional bytes.
pub open spec fn opt_bytes(o: Option<Vec<u8>>) -> Option<Seq<u8>> {
    match o {
        Some(v) => Some(v@),
        None => None,
    }
}

/// `URL_SAFE_NO_PAD.decode` of the base64 crate. It reads back what `encode` wrote.
#[verifier::external_body]
pub(crate) fn base64url_decode(text: &str) -> (r: Option<Vec<u8>>)
    ensures
        opt_bytes(r) == base64url_bytes(text@),
        forall|data: Seq<u8>| #[trigger] base64url_of(data) == text@ ==> opt_bytes(r) == Some(data),
{
    base64::Engine::decode(&base64::engine::general_purpose::URL_SAFE_NO_PAD, text).ok()
}

/// The bytes that `text` encodes in padded base64 with the standard alphabet.
pub uninterp spec fn base64_bytes(text: Seq<char>) -> Option<Seq<u8>>;

/// `STANDARD.decode` of the base64 crate.
#[verifier::external_body]
pub(crate) fn base64_decode(text: &str) -> (r: Option<Vec<u8>>)
    ensures
        opt_bytes(r) == base64_bytes(text@),
{
    base64::Engine::decode(&base64::engine::general_purpose::STANDARD, text).ok()
}

/// `data` in padded base64 with the standard alphabet.
pub uninterp spec fn base64_of(data: Seq<u8>) -> Seq<char>;

/// `STANDARD.encode` of the base64 crate.
#[verifier::external_body]
pub(crate) fn base64(data: &[u8]) -> (r: String)
    ensures
        r@ == base64_of(data@),
{
    base64::Engine::encode(&base64::engine::general_purpose::STANDARD, data)
}

/// The SHA-1 hash of `data`.
pub uninterp spec fn sha1_of(data: Seq<u8>) -> Seq<u8>;

/// `sha1::Sha1::digest`: a hash of 20 bytes.
#[verifier::external_body]
pub(crate) fn sha1(data: &[u8]) -> (r: Vec<u8>)
    ensures
        r@ == sha1_of(data@),
        r.len() == 20,
{
    <sha1::Sha1 as sha1::Digest>::digest(data).to_vec()
}

/// The certificates of a PEM text, as DER, or `None` where it is malformed.
pub uninterp spec fn pem_certs(text: Seq<u8>) -> Option<Seq<Seq<u8>>>;

/// The views of a list of byte strings.
pub open spec fn byte_lists(v: Seq<Vec<u8>>) -> Seq<Seq<u8>> {
    v.map_values(|b: Vec<u8>| b@)
}

/// `CertificateDer::pem_slice_iter` of the rustls crate, collected.
#[verifier::external_body]
pub(crate) fn pem_certificates(text: &[u8]) -> (r: Option<Vec<Vec<u8>>>)
    ensures
        r is Some == pem_certs(text@) is Some,
        r matches Some(v) ==> pem_certs(text@) == Some(byte_lists(v@)),
{
    <CertificateDer<'_> as PemObject>::pem_slice_iter(text)
        .map(|item| item.map(|der| der.as_ref().to_vec()))
        .collect::<Result<Vec<Vec<u8>>, _>>()
        .ok()
}

/// What a certificate says of its holder.
pub struct CertificateParts {
    pub ca: bool,
    pub not_before: i64,
    pub not_after: i64,
    /// The subject alternative names, in order; `None` where the extension is malformed.
    pub names: Option<Vec<SanName>>,
}

/// A subject alternative name.
pub enum SanName {
    Email(String),
    Uri(String),
    Other,
}

/// What a [`SanName`] holds.
pub enum SanNameModel {
    Email(Seq<char>),
    Uri(Seq<char>),
    Other,
}

/// What [`CertificateParts`] holds.
pub struct CertificateModel {
    pub ca: bool,
    pub not_before: i64,
    pub not_after: i64,
    pub names: Option<Seq<SanNameModel>>,
}

impl View for SanName {
    type V = SanNameModel;

    open spec fn view(&self) -> SanNameModel {
        match *self {
            SanName::Email(t) => SanNameModel::Email(t@),
            SanName::Uri(t) => SanNameModel::Uri(t@),
            SanName::Other => SanNameModel::Other,
        }
    }
}

impl View for CertificateParts {
    type V = CertificateModel;

    open spec fn view(&self) -> CertificateModel {
        CertificateModel {
            ca: self.ca,
            not_before: self.not_before,
            not_after: self.not_after,
            names: match self.names {
                Some(v) => Some(v@.map_values(|n: SanName| n@)),
                None => None,
            },
        }
    }
}

/// What the certificate in `der` says, or `None` where it is malformed.
pub uninterp spec fn certificate_of(der: Seq<u8>) -> Option<CertificateModel>;

/// `x509_parser::parse_x509_certificate`, with what its accessors return.
#[verifier::external_body]
pub(crate) fn parse_certificate(der: &[u8]) -> (r: Option<CertificateParts>)
    ensures
        r is Some == certificate_of(der@) is Some,
        r matches Some(c) ==> certificate_of(der@) == Some(c@),
{
    let (_, cert) = x509_parser::parse_x509_certificate(der).ok()?;
    let names = cert.subject_alternative_name().ok().map(|san| {
        san.iter().flat_map(|found| found.value.general_names.iter()).map(|name| match name {
            GeneralName::RFC822Name(value) => SanName::Email((*value).to_owned()),
            GeneralName::URI(value) => SanName::Uri((*value).to_owned()),
            _ => SanName::Other,
        }).collect()
    });
    let not_before = cert.validity().not_before.timestamp();
    let not_after = cert.validity().not_after.timestamp();
    Some(CertificateParts { ca: cert.is_ca(), not_before, not_after, names })
}

/// The MD5 hash of a byte string.
pub uninterp spec fn md5_of(data: Seq<u8>) -> Seq<u8>;

/// `md5::Md5::digest`: a hash of 16 bytes.
#[verifier::external_body]
pub(crate) fn md5(data: &[u8]) -> (r: Vec<u8>)
    ensures
        r@ == md5_of(data@),
        r.len() == 16,
{
    <md5::Md5 as md5::Digest>::digest(data).to_vec()
}

/// The HMAC-MD5 of a byte string under a key.
pub uninterp spec fn hmac_md5_of(key: Seq<u8>, data: Seq<u8>) -> Seq<u8>;

/// `hmac::Hmac::<md5::Md5>`: `new_from_slice`, which takes keys of every length, then `update` and
/// `finalize`. The code has 16 bytes.
#[verifier::external_body]
pub(crate) fn hmac_md5(key: &[u8], data: &[u8]) -> (r: Vec<u8>)
    ensures
        r@ == hmac_md5_of(key@, data@),
        r.len() == 16,
{
    let mut mac = <hmac::Hmac<md5::Md5> as hmac::KeyInit>::new_from_slice(key).unwrap();
    hmac::Mac::update(&mut mac, data);
    hmac::Mac::finalize(mac).into_bytes().to_vec()
}

/// `hmac::Mac::verify_slice` on `hmac::Hmac::<md5::Md5>`: whether `tag` is the code of the data.
#[verifier::external_body]
pub(crate) fn hmac_md5_verify(key: &[u8], data: &[u8], tag: &[u8]) -> (r: bool)
    ensures
        r == (tag@ == hmac_md5_of(key@, data@)),
{
    let mut mac = <hmac::Hmac<md5::Md5> as hmac::KeyInit>::new_from_slice(key).unwrap();
    hmac::Mac::update(&mut mac, data);
    hmac::Mac::verify_slice(mac, tag).is_ok()
}

/// Wire attributes in JSON.
pub uninterp spec fn attributes_json(attrs: Seq<(u8, Seq<u8>)>) -> Seq<char>;

/// The views of wire attributes.
pub open spec fn wire_pairs(v: Seq<(u8, Vec<u8>)>) -> Seq<(u8, Seq<u8>)> {
    v.map_values(|p: (u8, Vec<u8>)| (p.0, p.1@))
}

/// `serde_json::to_string` on pairs of a number and bytes, which cannot fail.
#[verifier::external_body]
pub(crate) fn attributes_to_json(attrs: &Vec<(u8, Vec<u8>)>) -> (r: String)
    ensures
        r@ == attributes_json(wire_pairs(attrs@)),
{
    serde_json::to_string(attrs).unwrap()
}

/// The instant that an RFC 3339 text writes, in seconds since 1970.
pub uninterp spec fn rfc3339_seconds(text: Seq<char>) -> Option<i64>;

/// `time::OffsetDateTime::parse` with the RFC 3339 format, then `unix_timestamp`.
#[verifier::external_body]
pub(crate) fn parse_instant(text: &str) -> (r: Option<i64>)
    ensures
        r == rfc3339_seconds(text@),
{
    time::OffsetDateTime::parse(text, &time::format_description::well_known::Rfc3339)
        .ok()
        .map(|t| t.unix_timestamp())
}

/// The RFC 3339 text of an instant at an offset of whole hours.
pub uninterp spec fn instant_text(seconds: i64, hours: i8) -> Option<Seq<char>>;

/// `time::OffsetDateTime::from_unix_timestamp`, which takes the years -9999 to 9999, `to_offset`,
/// which panics outside of them, and `format`, which refuses offsets of more than 23 hours.
#[verifier::external_body]
pub(crate) fn format_instant(seconds: i64, hours: i8) -> (r: Option<String>)
    requires
        0 <= seconds <= 253402300799,
        -25 <= hours <= 25,
        seconds + hours * 3600 <= 253402300799,
    ensures
        opt_text(r) == instant_text(seconds, hours),
        r is Some == (-23 <= hours <= 23),
{
    let offset = time::UtcOffset::from_hms(hours, 0, 0).ok()?;
    let instant = time::OffsetDateTime::from_unix_timestamp(seconds).ok()?.to_offset(offset);
    instant.format(&time::format_description::well_known::Rfc3339).ok()
}

/// An email address that mail can be sent to.
pub uninterp spec fn mail_address(text: Seq<char>) -> bool;

/// `text.parse::<lettre::Address>()`.
#[verifier::external_body]
pub(crate) fn address_ok(text: &str) -> (r: bool)
    ensures
        r == mail_address(text@),
{
    text.parse::<lettre::Address>().is_ok()
}

/// A mailbox: an address, perhaps with a name.
pub uninterp spec fn mail_box(text: Seq<char>) -> bool;

/// `text.parse::<lettre::message::Mailbox>()`.
#[verifier::external_body]
pub(crate) fn mailbox_ok(text: &str) -> (r: bool)
    ensures
        r == mail_box(text@),
{
    text.parse::<lettre::message::Mailbox>().is_ok()
}

/// A text as a form writes it.
pub uninterp spec fn form_encoded(text: Seq<char>) -> Seq<char>;

/// `url::form_urlencoded::byte_serialize` on the bytes of the text, collected.
#[verifier::external_body]
pub(crate) fn encode_form(text: &str) -> (r: String)
    ensures
        r@ == form_encoded(text@),
{
    url::form_urlencoded::byte_serialize(text.as_bytes()).collect()
}

/// The bytes that `text` encodes in padded base64 with the URL-safe alphabet.
pub uninterp spec fn base64url_padded_bytes(text: Seq<char>) -> Option<Seq<u8>>;

/// `URL_SAFE.decode` of the base64 crate.
#[verifier::external_body]
pub(crate) fn base64url_padded_decode(text: &str) -> (r: Option<Vec<u8>>)
    ensures
        opt_bytes(r) == base64url_padded_bytes(text@),
{
    base64::Engine::decode(&base64::engine::general_purpose::URL_SAFE, text).ok()
}

/// `String::from_utf8`: the string that these bytes encode.
#[verifier::external_body]
pub(crate) fn string_from_bytes(bytes: Vec<u8>) -> (r: Option<String>)
    ensures
        r is Some == valid_utf8(bytes@),
        r matches Some(s) ==> encode_utf8(s@) == bytes@,
{
    String::from_utf8(bytes).ok()
}

/// The digest under which a secret text is stored: its SHA-256 hash in base64url.
pub open spec fn digest_of(text: Seq<char>) -> Seq<char> {
    base64url_of(sha256_of(vstd::utf8::encode_utf8(text)))
}

/// The digest of `text`.
pub fn digest(text: &str) -> (r: String)
    ensures
        r@ == digest_of(text@),
        r@.len() == 43,
{
    let hash = sha256(text.as_bytes());
    base64url(hash.as_slice())
}

} // verus!
