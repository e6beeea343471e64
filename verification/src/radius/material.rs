//! The trust material of an EAP-TLS listener.
use crate::error::{Error, Failure, agrees_with, fails, opt_failure};
use crate::outside::{base64url, base64url_of, byte_lists, digest, digest_of, pem_certificates, pem_certs};
use crate::radius::eap::eap_config_check;
use crate::text::{concat3, texts};
use crate::trust::{ListState, chain_complaint, lists_in, lists_state, pem_lists, state_of_lists, trust_usable, vouched};
use crate::radius::eap::{Config, ConfigModel};
use crate::text::{join, joined};
use vstd::prelude::*;
use vstd::string::*;
use vstd::utf8::encode_utf8;

verus! {

/// The certificates in a file: one to sixteen.
pub open spec fn eap_certs(file: Seq<u8>) -> Result<Seq<Seq<u8>>, Failure> {
    if file.len() > 65_536 {
        Err(Failure::Bad("EAP certificate file exceeds 64 KiB"@))
    } else {
        match pem_certs(file) {
            None => Err(Failure::Internal("Malformed PEM"@)),
            Some(certs) => if certs.len() == 0 || certs.len() > 16 {
                Err(Failure::Bad("EAP certificate file needs 1..16 certificates"@))
            } else {
                Ok(certs)
            },
        }
    }
}

fn read_eap_certs(file: &Vec<u8>) -> (r: Result<Vec<Vec<u8>>, Error>)
    ensures
        match eap_certs(file@) {
            Ok(c) => r is Ok && byte_lists(r->Ok_0@) == c,
            Err(f) => fails(r, f),
        },
{
    if file.len() > 65_536 {
        return Err(Error::bad("EAP certificate file exceeds 64 KiB"));
    }
    match pem_certificates(file.as_slice()) {
        None => Err(Error::internal("Malformed PEM")),
        Some(certs) => {
            assert(byte_lists(certs@).len() == certs.len());
            if certs.len() == 0 || certs.len() > 16 {
                Err(Error::bad("EAP certificate file needs 1..16 certificates"))
            } else {
                Ok(certs)
            }
        },
    }
}

/// The revocation lists in a file: one to sixteen current ones.
pub open spec fn eap_lists(file: Seq<u8>, now: u64) -> Result<Seq<Seq<u8>>, Failure> {
    if file.len() == 0 || file.len() > 1_048_576 {
        Err(Failure::Bad("Invalid EAP trust material size"@))
    } else {
        match pem_lists(file) {
            None => Err(Failure::Internal("Malformed PEM"@)),
            Some(lists) => if lists.len() == 0 || lists.len() > 16 {
                Err(Failure::Bad("EAP requires 1..16 current PEM CRLs covering the client chain"@))
            } else {
                match lists_state(lists, now) {
                    ListState::Current => Ok(lists),
                    ListState::Malformed => Err(Failure::Bad("Invalid EAP CRL"@)),
                    ListState::Stale => Err(
                        Failure::Bad("EAP CRL is stale, not yet valid or has no nextUpdate"@),
                    ),
                }
            },
        }
    }
}

fn read_eap_lists(file: &Vec<u8>, now: u64) -> (r: Result<Vec<Vec<u8>>, Error>)
    ensures
        match eap_lists(file@, now) {
            Ok(c) => r is Ok && byte_lists(r->Ok_0@) == c,
            Err(f) => fails(r, f),
        },
{
    if file.len() == 0 || file.len() > 1_048_576 {
        return Err(Error::bad("Invalid EAP trust material size"));
    }
    let lists = match lists_in(file) {
        None => return Err(Error::internal("Malformed PEM")),
        Some(l) => l,
    };
    assert(byte_lists(lists@).len() == lists.len());
    if lists.len() == 0 || lists.len() > 16 {
        return Err(Error::bad("EAP requires 1..16 current PEM CRLs covering the client chain"));
    }
    match state_of_lists(&lists, now) {
        ListState::Current => Ok(lists),
        ListState::Malformed => Err(Error::bad("Invalid EAP CRL")),
        ListState::Stale => Err(
            Error::bad("EAP CRL is stale, not yet valid or has no nextUpdate"),
        ),
    }
}

/// The contents of the files that a listener's profile names.
pub struct TrustFiles {
    pub certificates: Vec<u8>,
    pub client_ca: Vec<u8>,
    pub client_crl: Vec<u8>,
}

/// What [`TrustFiles`] holds.
pub struct TrustFilesModel {
    pub certificates: Seq<u8>,
    pub client_ca: Seq<u8>,
    pub client_crl: Seq<u8>,
}

impl View for TrustFiles {
    type V = TrustFilesModel;

    open spec fn view(&self) -> TrustFilesModel {
        TrustFilesModel {
            certificates: self.certificates@,
            client_ca: self.client_ca@,
            client_crl: self.client_crl@,
        }
    }
}

/// The trust material of a listener.
pub struct Material {
    pub certs: Vec<Vec<u8>>,
    pub roots: Vec<Vec<u8>>,
    pub lists: Vec<Vec<u8>>,
    pub fingerprint: String,
}

/// What [`Material`] holds.
pub struct MaterialModel {
    pub certs: Seq<Seq<u8>>,
    pub roots: Seq<Seq<u8>>,
    pub lists: Seq<Seq<u8>>,
    pub fingerprint: Seq<char>,
}

impl View for Material {
    type V = MaterialModel;

    open spec fn view(&self) -> MaterialModel {
        MaterialModel {
            certs: byte_lists(self.certs@),
            roots: byte_lists(self.roots@),
            lists: byte_lists(self.lists@),
            fingerprint: self.fingerprint@,
        }
    }
}

/// Byte strings in base64url.
pub open spec fn encoded_all(v: Seq<Seq<u8>>) -> Seq<Seq<char>> {
    v.map_values(|b: Seq<u8>| base64url_of(b))
}

/// What stands for a profile: its settings as JSON, its certificates and its revocation data.
pub open spec fn material_fingerprint(
    settings: Seq<char>,
    certs: Seq<Seq<u8>>,
    roots: Seq<Seq<u8>>,
    lists: Seq<u8>,
) -> Seq<char> {
    digest_of(
        settings + "\0"@ + joined(encoded_all(certs + roots), "."@) + "\0"@ + digest_of(
            base64url_of(lists),
        ),
    )
}

#[verifier::loop_isolation(false)]
fn push_encoded(out: &mut Vec<String>, v: &Vec<Vec<u8>>)
    ensures
        texts(final(out)@) == texts(old(out)@) + encoded_all(byte_lists(v@)),
{
    let ghost was = texts(out@);
    let ghost all = encoded_all(byte_lists(v@));
    let mut i: usize = 0;
    assert(texts(out@) =~= was + all.take(0));
    while i < v.len()
        invariant
            i <= v.len(),
            texts(out@) == was + all.take(i as int),
        decreases v.len() - i,
    {
        let ghost before = texts(out@);
        out.push(base64url(v[i].as_slice()));
        assert(texts(out@) =~= before.push(all[i as int]));
        assert(before.push(all[i as int]) =~= was + all.take(i + 1));
        i = i + 1;
    }
    assert(all.take(i as int) =~= all);
}

fn make_fingerprint(settings: &str, certs: &Vec<Vec<u8>>, roots: &Vec<Vec<u8>>, lists: &Vec<u8>) -> (r:
    String)
    ensures
        r@ == material_fingerprint(settings@, byte_lists(certs@), byte_lists(roots@), lists@),
{
    let mut parts: Vec<String> = Vec::new();
    assert(texts(parts@) =~= Seq::<Seq<char>>::empty());
    push_encoded(&mut parts, certs);
    push_encoded(&mut parts, roots);
    assert(texts(parts@) =~= encoded_all(byte_lists(certs@) + byte_lists(roots@)));
    let all = join(&parts, ".");
    let data = base64url(lists.as_slice());
    let revocation = digest(data.as_str());
    let mut text = concat3(settings, "\0", all.as_str());
    text.append("\0");
    text.append(revocation.as_str());
    digest(text.as_str())
}

/// The trust material of a profile, or why it cannot be used at this time.
pub open spec fn material_of(c: ConfigModel, settings: Seq<char>, files: TrustFilesModel, now: u64) -> Result<
    MaterialModel,
    Failure,
> {
    match eap_config_check(c) {
        Err(f) => Err(f),
        Ok(_) => match eap_certs(files.certificates) {
            Err(f) => Err(f),
            Ok(certs) => match eap_certs(files.client_ca) {
                Err(f) => Err(f),
                Ok(roots) => match eap_lists(files.client_crl, now) {
                    Err(f) => Err(f),
                    Ok(lists) => Ok(
                        MaterialModel {
                            certs,
                            roots,
                            lists,
                            fingerprint: material_fingerprint(
                                settings,
                                certs,
                                roots,
                                files.client_crl,
                            ),
                        },
                    ),
                },
            },
        },
    }
}

impl Config {
    /// The trust material of this profile. `settings` is the profile as JSON text, `files` what its
    /// files hold.
    pub fn material(&self, settings: &str, files: &TrustFiles, now: u64) -> (r: Result<Material, Error>)
        ensures
            agrees_with(r, material_of(self@, settings@, files@, now)),
    {
        if let Err(e) = self.validate() {
            return Err(e);
        }
        let certs = match read_eap_certs(&files.certificates) {
            Err(e) => return Err(e),
            Ok(c) => c,
        };
        let roots = match read_eap_certs(&files.client_ca) {
            Err(e) => return Err(e),
            Ok(c) => c,
        };
        let lists = match read_eap_lists(&files.client_crl, now) {
            Err(e) => return Err(e),
            Ok(l) => l,
        };
        let fingerprint = make_fingerprint(settings, &certs, &roots, &files.client_crl);
        Ok(Material { certs, roots, lists, fingerprint })
    }

    /// Why the private authority of this profile does not vouch for a chain in PEM, if it does not.
    /// A chain that is no chain is left to its reader.
    pub fn chain_trust(&self, settings: &str, files: &TrustFiles, pem: &str, now: u64) -> (r: Option<Error>)
        ensures
            opt_failure(r) == trust_of(material_of(self@, settings@, files@, now), pem@, now),
    {
        let m = match self.material(settings, files, now) {
            Err(e) => return Some(e),
            Ok(m) => m,
        };
        let chain = match pem_certificates(pem.as_bytes()) {
            None => return None,
            Some(c) => c,
        };
        assert(byte_lists(chain@).len() == chain.len());
        if chain.len() == 0 {
            return None;
        }
        match vouched(&m.roots, &m.lists, &chain, now) {
            None => Some(Error::internal("EAP trust material")),
            Some(true) => None,
            Some(false) => Some(
                Error::bad(
                    "EAP client certificate is not valid under this listener's private CA",
                ),
            ),
        }
    }
}

/// What the private authority says of a chain.
pub open spec fn trust_of(material: Result<MaterialModel, Failure>, pem: Seq<char>, now: u64) -> Option<
    Failure,
> {
    match material {
        Err(f) => Some(f),
        Ok(m) => match pem_certs(encode_utf8(pem)) {
            None => None,
            Some(chain) => if chain.len() == 0 {
                None
            } else if !trust_usable(m.roots, m.lists) {
                Some(Failure::Internal("EAP trust material"@))
            } else if chain_complaint(m.roots, m.lists, chain, now) is None {
                None
            } else {
                Some(
                    Failure::Bad(
                        "EAP client certificate is not valid under this listener's private CA"@,
                    ),
                )
            },
        },
    }
}

/// Trust material is read from a file with one to sixteen certificates, another with one to sixteen
/// authorities, and one to sixteen current revocation lists. It is told apart by all of them and by
/// its settings.
pub proof fn trust_material_is_complete(c: ConfigModel, settings: Seq<char>, files: TrustFilesModel, now: u64)
    requires
        material_of(c, settings, files, now) is Ok,
    ensures
        ({
            let m = material_of(c, settings, files, now)->Ok_0;
            &&& eap_config_check(c) is Ok
            &&& files.certificates.len() <= 65_536
            &&& files.client_ca.len() <= 65_536
            &&& 0 < files.client_crl.len() <= 1_048_576
            &&& pem_certs(files.certificates) == Some(m.certs)
            &&& pem_certs(files.client_ca) == Some(m.roots)
            &&& pem_lists(files.client_crl) == Some(m.lists)
            &&& 1 <= m.certs.len() <= 16
            &&& 1 <= m.roots.len() <= 16
            &&& 1 <= m.lists.len() <= 16
            &&& lists_state(m.lists, now) == ListState::Current
        }),
{
}

/// A chain is trusted if the material can be read and the chain has no fault under it; a chain with a
/// fault is refused.
pub proof fn only_faultless_chains_are_trusted(m: MaterialModel, pem: Seq<char>, chain: Seq<Seq<u8>>, now: u64)
    requires
        pem_certs(encode_utf8(pem)) == Some(chain),
        chain.len() > 0,
    ensures
        trust_of(Ok(m), pem, now) is None <==> trust_usable(m.roots, m.lists) && chain_complaint(
            m.roots,
            m.lists,
            chain,
            now,
        ) is None,
        forall|f: Failure| #[trigger]
            trust_of(Err(f), pem, now) == Some(f),
{
}

} // verus!
