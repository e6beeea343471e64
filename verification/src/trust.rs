//! Trust in client certificates: private anchors, current revocation lists, and the verdict on a
//! chain.
use crate::error::{Error, Failure, agrees_with, fails};
use crate::mtls::{ClientCertAuth, ClientCertAuthModel, Leaf, LeafModel, leaf_check, leaf_identity, rejection};
use crate::outside::{byte_lists, opt_bytes, pem_certificates, pem_certs};
use crate::table::{Row, opt_view};
use rustls::pki_types::pem::PemObject;
use rustls::pki_types::{CertificateDer, CertificateRevocationListDer, UnixTime};
use rustls::crypto::aws_lc_rs::default_provider;
use rustls::server::WebPkiClientVerifier;
use rustls::CertificateError;
use rustls::Error::InvalidCertificate;
use rustls::RootCertStore;
use std::time::Duration;
use vstd::prelude::*;
use vstd::string::*;

verus! {

/// The revocation lists of a PEM text, as DER, or `None` where it is malformed.
pub uninterp spec fn pem_lists(text: Seq<u8>) -> Option<Seq<Seq<u8>>>;

/// `CertificateRevocationListDer::pem_slice_iter` of the rustls crate, collected.
#[verifier::external_body]
fn pem_revocation_lists(text: &[u8]) -> (r: Option<Vec<Vec<u8>>>)
    ensures
        r is Some == pem_lists(text@) is Some,
        r matches Some(v) ==> pem_lists(text@) == Some(byte_lists(v@)),
{
    <CertificateRevocationListDer<'_> as PemObject>::pem_slice_iter(text)
        .map(|item| item.map(|der| der.as_ref().to_vec()))
        .collect::<Result<Vec<Vec<u8>>, _>>()
        .ok()
}

/// When a revocation list was made and when the next one is due.
pub struct ListTimes {
    /// Bytes follow the list.
    pub trailing: bool,
    pub last: i64,
    pub next: Option<i64>,
}

/// What a [`ListTimes`] holds.
pub struct ListTimesModel {
    pub trailing: bool,
    pub last: i64,
    pub next: Option<i64>,
}

impl View for ListTimes {
    type V = ListTimesModel;

    open spec fn view(&self) -> ListTimesModel {
        ListTimesModel {
            trailing: self.trailing,
            last: self.last,
            next: self.next,
        }
    }
}

impl Row for ListTimes {
    fn dup(&self) -> (r: Self) {
        ListTimes {
            trailing: self.trailing,
            last: self.last,
            next: self.next,
        }
    }
}

/// The times of the revocation list in `der`, or `None` where it is malformed.
pub uninterp spec fn list_times(der: Seq<u8>) -> Option<ListTimesModel>;

/// `x509_parser::parse_x509_crl`, with what its accessors return.
#[verifier::external_body]
fn parse_list(der: &[u8]) -> (r: Option<ListTimes>)
    ensures
        opt_view(r) == list_times(der@),
{
    let (rest, list) = x509_parser::parse_x509_crl(der).ok()?;
    let last = list.last_update().timestamp();
    let next = list.next_update().map(|time| time.timestamp());
    Some(ListTimes { trailing: !rest.is_empty(), last, next })
}

/// Whether anchors and revocation lists make a verifier.
pub uninterp spec fn trust_usable(roots: Seq<Seq<u8>>, lists: Seq<Seq<u8>>) -> bool;

/// What the verification library has against a certificate, by the variant of its error.
#[derive(Clone, Copy, PartialEq, Eq, Structural, Debug)]
pub enum Complaint {
    Revoked,
    Expired,
    ExpiredContext,
    NotValidYet,
    NotValidYetContext,
    UnknownRevocationStatus,
    ExpiredRevocationList,
    ExpiredRevocationListContext,
    /// Any other error.
    Other,
}

/// An error of the verification library on a certificate.
#[verifier::external_type_specification]
#[verifier::external_body]
pub struct ExternalCertificateError(rustls::CertificateError);

/// A `rustls::CertificateError`, converted variant by variant. The error is opaque here, so nothing is
/// promised of the result.
#[verifier::external_body]
fn complaint_of(e: &rustls::CertificateError) -> (r: Complaint) {
    match e {
        CertificateError::Revoked => Complaint::Revoked,
        CertificateError::Expired => Complaint::Expired,
        CertificateError::ExpiredContext { .. } => Complaint::ExpiredContext,
        CertificateError::NotValidYet => Complaint::NotValidYet,
        CertificateError::NotValidYetContext { .. } => Complaint::NotValidYetContext,
        CertificateError::UnknownRevocationStatus => Complaint::UnknownRevocationStatus,
        CertificateError::ExpiredRevocationList => Complaint::ExpiredRevocationList,
        CertificateError::ExpiredRevocationListContext { .. } => Complaint::ExpiredRevocationListContext,
        _ => Complaint::Other,
    }
}

/// What the verification library has against a chain, its leaf first, at a time, or `None` where it
/// vouches for the chain.
pub uninterp spec fn chain_complaint(
    roots: Seq<Seq<u8>>,
    lists: Seq<Seq<u8>>,
    chain: Seq<Seq<u8>>,
    now: u64,
) -> Option<Complaint>;

/// `WebPkiClientVerifier` of the rustls crate, with `aws_lc_rs` as its provider: `RootCertStore::add` of
/// each anchor, `builder_with_provider` with the lists and enforced list expiry, `build`, then
/// `verify_client_cert` at the given time. `None` where no verifier can be made. An error on a
/// certificate is told by its variant, any other one is `Other`.
#[verifier::external_body]
fn verify_client_chain(
    roots: &Vec<Vec<u8>>,
    lists: &Vec<Vec<u8>>,
    chain: &Vec<Vec<u8>>,
    now: u64,
) -> (r: Option<Option<Complaint>>)
    requires
        chain.len() >= 1,
    ensures
        r is Some == trust_usable(byte_lists(roots@), byte_lists(lists@)),
        r matches Some(v) ==> v == chain_complaint(
            byte_lists(roots@),
            byte_lists(lists@),
            byte_lists(chain@),
            now,
        ),
{
    let mut store = RootCertStore::empty();
    for root in roots {
        store.add(root.clone().into()).ok()?;
    }
    let verifier = WebPkiClientVerifier::builder_with_provider(store.into(), default_provider().into())
        .with_crls(lists.iter().map(|list| list.clone().into()))
        .enforce_revocation_expiration().build().ok()?;
    let certs: Vec<CertificateDer> = chain.iter().map(|cert| cert.clone().into()).collect();
    let at = UnixTime::since_unix_epoch(Duration::from_secs(now));
    Some(verifier.verify_client_cert(&certs[0], &certs[1..], at).err().map(|e| match e {
        InvalidCertificate(c) => complaint_of(&c),
        _ => Complaint::Other,
    }))
}

/// Why a chain is not vouched for.
#[derive(Clone, Copy, PartialEq, Eq, Structural, Debug)]
pub enum ChainFault {
    Revoked,
    OutsideValidity,
    NoRevocationStatus,
    Untrusted,
}

/// Why a chain with this complaint is not vouched for.
pub open spec fn fault_of(c: Complaint) -> ChainFault {
    match c {
        Complaint::Revoked => ChainFault::Revoked,
        Complaint::Expired => ChainFault::OutsideValidity,
        Complaint::ExpiredContext => ChainFault::OutsideValidity,
        Complaint::NotValidYet => ChainFault::OutsideValidity,
        Complaint::NotValidYetContext => ChainFault::OutsideValidity,
        Complaint::UnknownRevocationStatus => ChainFault::NoRevocationStatus,
        Complaint::ExpiredRevocationList => ChainFault::NoRevocationStatus,
        Complaint::ExpiredRevocationListContext => ChainFault::NoRevocationStatus,
        Complaint::Other => ChainFault::Untrusted,
    }
}

pub fn read_fault(complaint: Complaint) -> (r: ChainFault)
    ensures
        r == fault_of(complaint),
{
    match complaint {
        Complaint::Revoked => ChainFault::Revoked,
        Complaint::Expired => ChainFault::OutsideValidity,
        Complaint::ExpiredContext => ChainFault::OutsideValidity,
        Complaint::NotValidYet => ChainFault::OutsideValidity,
        Complaint::NotValidYetContext => ChainFault::OutsideValidity,
        Complaint::UnknownRevocationStatus => ChainFault::NoRevocationStatus,
        Complaint::ExpiredRevocationList => ChainFault::NoRevocationStatus,
        Complaint::ExpiredRevocationListContext => ChainFault::NoRevocationStatus,
        Complaint::Other => ChainFault::Untrusted,
    }
}

/// The trust material cannot be had.
pub open spec fn no_material(message: Seq<char>) -> Failure {
    Failure::Reply(503, "temporarily_unavailable"@, message)
}

fn unavailable(message: &str) -> (e: Error)
    ensures
        e@ == no_material(message@),
{
    Error::reply(503, "temporarily_unavailable", message)
}

/// What is answered to a chain that is not vouched for.
pub open spec fn fault_failure(f: ChainFault) -> Failure {
    match f {
        ChainFault::Revoked => rejection("Client certificate is revoked"@),
        ChainFault::OutsideValidity => rejection("Client certificate is expired or not yet valid"@),
        ChainFault::NoRevocationStatus => no_material(
            "Client certificate revocation data is unavailable"@,
        ),
        ChainFault::Untrusted => rejection("Client certificate is not trusted"@),
    }
}

/// Tells the holder why their chain is not vouched for.
pub fn classify_verification(fault: ChainFault) -> (e: Error)
    ensures
        e@ == fault_failure(fault),
{
    match fault {
        ChainFault::Revoked => Error::reply(
            401,
            "invalid_credentials",
            "Client certificate is revoked",
        ),
        ChainFault::OutsideValidity => Error::reply(
            401,
            "invalid_credentials",
            "Client certificate is expired or not yet valid",
        ),
        ChainFault::NoRevocationStatus => unavailable(
            "Client certificate revocation data is unavailable",
        ),
        ChainFault::Untrusted => Error::reply(
            401,
            "invalid_credentials",
            "Client certificate is not trusted",
        ),
    }
}

/// The anchors in a file: one to sixteen certificates.
pub open spec fn anchors_check(file: Seq<u8>) -> Result<Seq<Seq<u8>>, Failure> {
    if file.len() == 0 || file.len() > 65_536 || pem_certs(file) is None {
        Err(no_material("Client certificate trust material is invalid"@))
    } else if pem_certs(file)->0.len() == 0 || pem_certs(file)->0.len() > 16 {
        Err(
            no_material(
                "Client certificate trust anchors must contain 1..=16 PEM certificates"@,
            ),
        )
    } else {
        Ok(pem_certs(file)->0)
    }
}

pub fn read_certs(file: &Vec<u8>) -> (r: Result<Vec<Vec<u8>>, Error>)
    ensures
        match anchors_check(file@) {
            Ok(c) => r is Ok && byte_lists(r->Ok_0@) == c,
            Err(f) => fails(r, f),
        },
{
    if file.len() == 0 || file.len() > 65_536 {
        return Err(unavailable("Client certificate trust material is invalid"));
    }
    match pem_certificates(file.as_slice()) {
        None => Err(unavailable("Client certificate trust material is invalid")),
        Some(certs) => {
            assert(byte_lists(certs@).len() == certs.len());
            if certs.len() == 0 || certs.len() > 16 {
                Err(
                    unavailable(
                        "Client certificate trust anchors must contain 1..=16 PEM certificates",
                    ),
                )
            } else {
                Ok(certs)
            }
        },
    }
}

/// How a revocation list stands at a time.
#[derive(Clone, Copy, PartialEq, Eq, Structural, Debug)]
pub enum ListState {
    Current,
    Malformed,
    Stale,
}

/// A list counts from when it was made until the next one is due; one that names no next one never
/// counts.
pub open spec fn list_state(der: Seq<u8>, now: u64) -> ListState {
    match list_times(der) {
        None => ListState::Malformed,
        Some(t) => if t.trailing || t.last > now || t.next is None || t.next->0 <= now {
            ListState::Stale
        } else {
            ListState::Current
        },
    }
}

/// The first state that is not [`ListState::Current`], if any.
pub open spec fn lists_state(lists: Seq<Seq<u8>>, now: u64) -> ListState
    decreases lists.len(),
{
    if lists.len() == 0 {
        ListState::Current
    } else if list_state(lists[0], now) != ListState::Current {
        list_state(lists[0], now)
    } else {
        lists_state(lists.drop_first(), now)
    }
}

proof fn lemma_lists_state(lists: Seq<Seq<u8>>, now: u64, i: int)
    requires
        0 <= i <= lists.len(),
        forall|j: int| 0 <= j < i ==> #[trigger] list_state(lists[j], now) == ListState::Current,
    ensures
        i == lists.len() ==> lists_state(lists, now) == ListState::Current,
        i < lists.len() && list_state(lists[i], now) != ListState::Current ==> lists_state(lists, now)
            == list_state(lists[i], now),
    decreases i,
{
    if i > 0 {
        let rest = lists.drop_first();
        assert(list_state(lists[0], now) == ListState::Current);
        assert forall|j: int| 0 <= j < i - 1 implies #[trigger] list_state(rest[j], now)
            == ListState::Current by {
            assert(rest[j] == lists[j + 1]);
        }
        if i < lists.len() {
            assert(rest[i - 1] == lists[i]);
        }
        lemma_lists_state(rest, now, i - 1);
    }
}

/// How one revocation list stands.
fn state_of_list(der: &Vec<u8>, now: u64) -> (r: ListState)
    ensures
        r == list_state(der@, now),
{
    match parse_list(der.as_slice()) {
        None => ListState::Malformed,
        Some(t) => {
            let at: i128 = now as i128;
            let over = match t.next {
                None => true,
                Some(n) => n as i128 <= at,
            };
            if t.trailing || t.last as i128 > at || over {
                ListState::Stale
            } else {
                ListState::Current
            }
        },
    }
}

/// How a set of revocation lists stands.
#[verifier::loop_isolation(false)]
pub fn state_of_lists(lists: &Vec<Vec<u8>>, now: u64) -> (r: ListState)
    ensures
        r == lists_state(byte_lists(lists@), now),
{
    let ghost all = byte_lists(lists@);
    let mut i: usize = 0;
    while i < lists.len()
        invariant
            i <= lists.len(),
            forall|j: int| 0 <= j < i ==> #[trigger] list_state(all[j], now) == ListState::Current,
        decreases lists.len() - i,
    {
        let state = state_of_list(&lists[i], now);
        assert(all[i as int] == lists[i as int]@);
        if state != ListState::Current {
            proof {
                lemma_lists_state(all, now, i as int);
            }
            return state;
        }
        i = i + 1;
    }
    proof {
        lemma_lists_state(all, now, i as int);
    }
    ListState::Current
}

/// The revocation lists in a file: one to sixteen current ones.
pub open spec fn revocation_check(file: Seq<u8>, now: u64) -> Result<Seq<Seq<u8>>, Failure> {
    if file.len() == 0 || file.len() > 1_048_576 {
        Err(no_material("Client certificate trust material is invalid"@))
    } else {
        match pem_lists(file) {
            None => Err(no_material("Client certificate revocation data is unavailable"@)),
            Some(lists) => if lists.len() == 0 || lists.len() > 16 {
                Err(
                    no_material(
                        "Client certificate revocation data must contain 1..=16 PEM CRLs"@,
                    ),
                )
            } else {
                match lists_state(lists, now) {
                    ListState::Current => Ok(lists),
                    ListState::Malformed => Err(
                        no_material("Client certificate revocation data is unavailable"@),
                    ),
                    ListState::Stale => Err(
                        no_material(
                            "Client certificate revocation data is stale or not yet valid"@,
                        ),
                    ),
                }
            },
        }
    }
}

pub fn read_crls(file: &Vec<u8>, now: u64) -> (r: Result<Vec<Vec<u8>>, Error>)
    ensures
        match revocation_check(file@, now) {
            Ok(c) => r is Ok && byte_lists(r->Ok_0@) == c,
            Err(f) => fails(r, f),
        },
{
    if file.len() == 0 || file.len() > 1_048_576 {
        return Err(unavailable("Client certificate trust material is invalid"));
    }
    let lists = match pem_revocation_lists(file.as_slice()) {
        None => return Err(unavailable("Client certificate revocation data is unavailable")),
        Some(l) => l,
    };
    assert(byte_lists(lists@).len() == lists.len());
    if lists.len() == 0 || lists.len() > 16 {
        return Err(
            unavailable("Client certificate revocation data must contain 1..=16 PEM CRLs"),
        );
    }
    match state_of_lists(&lists, now) {
        ListState::Current => Ok(lists),
        ListState::Malformed => Err(
            unavailable("Client certificate revocation data is unavailable"),
        ),
        ListState::Stale => Err(
            unavailable("Client certificate revocation data is stale or not yet valid"),
        ),
    }
}

/// What a chain is held against.
pub open spec fn material_check(anchors: Seq<u8>, lists: Option<Seq<u8>>, now: u64) -> Result<
    (Seq<Seq<u8>>, Seq<Seq<u8>>),
    Failure,
> {
    match anchors_check(anchors) {
        Err(f) => Err(f),
        Ok(roots) => match lists {
            None => Ok((roots, Seq::empty())),
            Some(file) => match revocation_check(file, now) {
                Err(f) => Err(f),
                Ok(l) => Ok((roots, l)),
            },
        },
    }
}

/// The identity of a chain that was presented.
pub open spec fn chain_result(
    material: Result<(Seq<Seq<u8>>, Seq<Seq<u8>>), Failure>,
    chain: Seq<Seq<u8>>,
    now: u64,
) -> Result<LeafModel, Failure> {
    match material {
        Err(f) => Err(f),
        Ok((roots, lists)) => if !trust_usable(roots, lists) {
            Err(no_material("Client certificate trust material is invalid"@))
        } else {
            match chain_complaint(roots, lists, chain, now) {
                Some(c) => Err(fault_failure(fault_of(c))),
                None => leaf_check(chain[0], now),
            }
        },
    }
}

/// The identity that a presented chain carries, once the configured anchors vouch for it. `anchors`
/// and `lists` are the contents of the configured files. No other anchors are looked at.
pub fn verify_chain(anchors: &Vec<u8>, lists: &Option<Vec<u8>>, chain: &Vec<Vec<u8>>, now: u64) -> (r:
    Result<Leaf, Error>)
    requires
        chain.len() >= 1,
    ensures
        agrees_with(
            r,
            chain_result(
                material_check(anchors@, opt_bytes(*lists), now),
                byte_lists(chain@),
                now,
            ),
        ),
{
    let roots = match read_certs(anchors) {
        Err(e) => return Err(e),
        Ok(c) => c,
    };
    let crls: Vec<Vec<u8>> = match lists {
        None => Vec::new(),
        Some(file) => match read_crls(file, now) {
            Err(e) => return Err(e),
            Ok(l) => l,
        },
    };
    assert(lists is None ==> byte_lists(crls@) =~= Seq::<Seq<u8>>::empty());
    assert(byte_lists(chain@)[0] == chain[0]@);
    match verify_client_chain(&roots, &crls, chain, now) {
        None => Err(unavailable("Client certificate trust material is invalid")),
        Some(None) => leaf_identity(chain[0].as_slice(), now),
        Some(Some(complaint)) => Err(classify_verification(read_fault(complaint))),
    }
}

/// Whether the anchors vouch for a chain; `None` where they make no verifier.
pub(crate) fn vouched(
    roots: &Vec<Vec<u8>>,
    lists: &Vec<Vec<u8>>,
    chain: &Vec<Vec<u8>>,
    now: u64,
) -> (r: Option<bool>)
    requires
        chain.len() >= 1,
    ensures
        r == if trust_usable(byte_lists(roots@), byte_lists(lists@)) {
            Some(
                chain_complaint(
                    byte_lists(roots@),
                    byte_lists(lists@),
                    byte_lists(chain@),
                    now,
                ) is None,
            )
        } else {
            None
        },
{
    match verify_client_chain(roots, lists, chain, now) {
        None => None,
        Some(None) => Some(true),
        Some(Some(_)) => Some(false),
    }
}

/// The revocation lists of a PEM text, however they stand.
pub(crate) fn lists_in(file: &Vec<u8>) -> (r: Option<Vec<Vec<u8>>>)
    ensures
        r is Some == pem_lists(file@) is Some,
        r matches Some(v) ==> pem_lists(file@) == Some(byte_lists(v@)),
{
    pem_revocation_lists(file.as_slice())
}

/// A certificate is accepted only under a configured anchor, and where revocation lists are
/// configured only while every one of them is current.
pub proof fn only_current_trust_accepts(
    anchors: Seq<u8>,
    lists: Option<Seq<u8>>,
    chain: Seq<Seq<u8>>,
    now: u64,
)
    requires
        chain_result(material_check(anchors, lists, now), chain, now) is Ok,
    ensures
        anchors_check(anchors) is Ok,
        chain_complaint(
            anchors_check(anchors)->Ok_0,
            match lists {
                Some(file) => pem_lists(file)->0,
                None => Seq::empty(),
            },
            chain,
            now,
        ) is None,
        lists matches Some(file) ==> pem_lists(file) is Some && forall|i: int|
            0 <= i < pem_lists(file)->0.len() ==> list_state(#[trigger] pem_lists(file)->0[i], now)
                == ListState::Current,
{
    if let Some(file) = lists {
        lemma_all_current(pem_lists(file)->0, now);
    }
}

proof fn lemma_all_current(lists: Seq<Seq<u8>>, now: u64)
    requires
        lists_state(lists, now) == ListState::Current,
    ensures
        forall|i: int| 0 <= i < lists.len() ==> list_state(#[trigger] lists[i], now)
            == ListState::Current,
    decreases lists.len(),
{
    if lists.len() > 0 {
        lemma_all_current(lists.drop_first(), now);
        assert forall|i: int| 0 <= i < lists.len() implies list_state(#[trigger] lists[i], now)
            == ListState::Current by {
            if i > 0 {
                assert(lists[i] == lists.drop_first()[i - 1]);
            }
        }
    }
}

/// The identity of a chain under a profile, whose files hold `anchors` and `lists` where they could
/// be read. Lists that are not configured are not looked at.
pub open spec fn profile_chain(
    p: ClientCertAuthModel,
    anchors: Option<Seq<u8>>,
    lists: Option<Seq<u8>>,
    chain: Seq<Seq<u8>>,
    now: u64,
) -> Result<LeafModel, Failure> {
    match anchors {
        None => Err(no_material("Client certificate trust material is unavailable"@)),
        Some(a) => if p.crl_file is None {
            chain_result(material_check(a, None, now), chain, now)
        } else if lists is None && anchors_check(a) is Ok {
            Err(no_material("Client certificate trust material is unavailable"@))
        } else {
            chain_result(material_check(a, lists, now), chain, now)
        },
    }
}

/// The identity of a chain under a profile.
pub fn verify_presented(
    profile: &ClientCertAuth,
    anchors: &Option<Vec<u8>>,
    lists: &Option<Vec<u8>>,
    chain: &Vec<Vec<u8>>,
    now: u64,
) -> (r: Result<Leaf, Error>)
    requires
        chain.len() >= 1,
    ensures
        agrees_with(
            r,
            profile_chain(profile@, opt_bytes(*anchors), opt_bytes(*lists), byte_lists(chain@), now),
        ),
{
    let a = match anchors {
        None => return Err(unavailable("Client certificate trust material is unavailable")),
        Some(a) => a,
    };
    if profile.crl_file.is_none() {
        let none: Option<Vec<u8>> = None;
        return verify_chain(a, &none, chain, now);
    }
    if lists.is_none() {
        return match read_certs(a) {
            Err(e) => Err(e),
            Ok(_) => Err(unavailable("Client certificate trust material is unavailable")),
        };
    }
    verify_chain(a, lists, chain, now)
}

/// A revocation list counts from when it was made until its successor is due.
pub proof fn lists_count_until_their_successor(der: Seq<u8>, now: u64, t: ListTimesModel)
    requires
        list_times(der) == Some(t),
    ensures
        list_state(der, now) == ListState::Current <==> !t.trailing && t.last <= now && t.next is Some
            && t.next->0 > now,
{
}

/// Each complaint about a chain is told as what it means to its holder.
pub proof fn complaints_are_told_apart()
    ensures
        fault_of(Complaint::Revoked) == ChainFault::Revoked,
        fault_of(Complaint::Expired) == ChainFault::OutsideValidity,
        fault_of(Complaint::NotValidYet) == ChainFault::OutsideValidity,
        fault_of(Complaint::UnknownRevocationStatus) == ChainFault::NoRevocationStatus,
        fault_of(Complaint::Other) == ChainFault::Untrusted,
        fault_failure(ChainFault::Revoked) matches Failure::Reply(401, code, message) && message
            == "Client certificate is revoked"@,
        fault_failure(ChainFault::NoRevocationStatus) matches Failure::Reply(503, _, _),
        fault_failure(ChainFault::OutsideValidity) matches Failure::Reply(401, _, _),
        fault_failure(ChainFault::Untrusted) matches Failure::Reply(401, _, _),
{
}

/// Revocation lists are taken from a file of at most a mebibyte with one to sixteen current ones; lists
/// that are asked for and missing refuse every chain.
pub proof fn missing_lists_refuse(
    p: ClientCertAuthModel,
    anchors: Seq<u8>,
    file: Seq<u8>,
    chain: Seq<Seq<u8>>,
    now: u64,
)
    ensures
        revocation_check(file, now) matches Ok(lists) ==> 0 < file.len() <= 1_048_576 && pem_lists(file)
            == Some(lists) && 1 <= lists.len() <= 16 && lists_state(lists, now) == ListState::Current,
        p.crl_file is Some && anchors_check(anchors) is Ok ==> profile_chain(
            p,
            Some(anchors),
            None,
            chain,
            now,
        ) is Err,
        profile_chain(p, None, Some(file), chain, now) is Err,
{
}

} // verus!
