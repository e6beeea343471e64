//! Per-provider issuers, which share identities and keep protocol identifiers apart.
use crate::engine::Core;
use crate::error::{Error, Failure, agrees, agrees_with};
use crate::model::{Client, ClientModel};
use crate::names::in_order;
use crate::outside::{UrlModel, UrlParts, parse_url, url_of};
use crate::rules::{Rules, RulesModel};
use crate::store::{Tx, TxModel};
use crate::table::position;
use crate::text::{concat, concat3, contains, contains_text, has_prefix, opt_is, same, starts_with, trim_end_char, trim_end_of};
use vstd::prelude::*;
use vstd::string::*;

verus! {

/// The issuer that a client's tokens name: its own, or the shared one.
pub open spec fn issuer_of(shared: Seq<char>, c: ClientModel) -> Seq<char> {
    match c.settings.issuer {
        Some(i) => i,
        None => shared,
    }
}

pub fn for_client<'a>(default: &'a str, client: &'a Client) -> (r: &'a str)
    ensures
        r@ == issuer_of(default@, client@),
{
    match &client.settings.issuer {
        Some(i) => i.as_str(),
        None => default,
    }
}

/// Another client has this issuer.
pub open spec fn issuer_taken(t: TxModel, c: ClientModel, issuer: Seq<char>) -> bool {
    exists|k: Seq<char>| #[trigger]
        t.clients.dom().contains(k) && t.clients[k].id != c.id && t.clients[k].settings.issuer == Some(
            issuer,
        )
}

/// A path that the protocol endpoints use.
pub open spec fn reserved_path(path: Seq<char>) -> bool {
    contains_text(path, "/.well-known/"@) || has_prefix(path, "/api/"@) || has_prefix(path, "/oauth/"@)
}

pub open spec fn issuer_check(t: TxModel, c: ClientModel, rules: RulesModel) -> Result<(), Failure> {
    match c.settings.issuer {
        None => Ok(()),
        Some(issuer) => if !rules.server_urls.contains(issuer) || url_of(issuer) is None {
            Err(Failure::Bad("Invalid provider issuer"@))
        } else if t.issuer is None {
            Err(Failure::Internal("Missing issuer"@))
        } else if t.issuer == Some(issuer) {
            Ok(())
        } else if issuer_taken(t, c, issuer) {
            Err(Failure::Conflict("Provider issuer already belongs to another client"@))
        } else if reserved_path((url_of(issuer)->0).path) {
            Err(Failure::Bad("Provider issuer overlaps a reserved protocol path"@))
        } else {
            Ok(())
        },
    }
}

#[verifier::loop_isolation(false)]
fn is_taken(tx: &Tx, client: &Client, issuer: &str) -> (r: bool)
    ensures
        r == issuer_taken(tx@, client@, issuer@),
{
    tx.clients.listing();
    let mut i: usize = 0;
    while i < tx.clients.len()
        invariant
            i <= tx.clients.entries().len(),
            forall|j: int|
                0 <= j < i ==> !((#[trigger] tx.clients.entries()[j]).1.id != client@.id
                    && tx.clients.entries()[j].1.settings.issuer == Some(issuer@)),
        decreases tx.clients.entries().len() - i,
    {
        let ghost k = tx.clients.entries()[i as int].0;
        let c = tx.clients.row_at(i);
        if !same(c.id.as_str(), client.id.as_str()) && opt_is(&c.settings.issuer, issuer) {
            assert(tx@.clients.dom().contains(k));
            return true;
        }
        i = i + 1;
    }
    proof {
        assert forall|k: Seq<char>| #[trigger] tx@.clients.dom().contains(k) implies !(
        tx@.clients[k].id != client@.id && tx@.clients[k].settings.issuer == Some(issuer@)) by {
            let j = position(tx.clients.entries(), k);
            assert(tx.clients.entries()[j].0 == k);
        }
    }
    false
}

/// Accepts a client without an issuer of its own, with the shared one, or with one that no other
/// client has and that overlaps no protocol path.
pub fn validate(tx: &Tx, client: &Client, rules: &Rules) -> (r: Result<(), Error>)
    ensures
        agrees(r, issuer_check(tx@, client@, rules@)),
{
    let issuer = match &client.settings.issuer {
        None => return Ok(()),
        Some(i) => i.as_str(),
    };
    if !rules.server_urls.contains(issuer) {
        return Err(Error::bad("Invalid provider issuer"));
    }
    let target = match parse_url(issuer) {
        None => return Err(Error::bad("Invalid provider issuer")),
        Some(u) => u,
    };
    match &tx.issuer {
        None => return Err(Error::internal("Missing issuer")),
        Some(primary) => {
            if same(issuer, primary.as_str()) {
                return Ok(());
            }
        },
    }
    if is_taken(tx, client, issuer) {
        return Err(Error::conflict("Provider issuer already belongs to another client"));
    }
    let path = target.path.as_str();
    if contains(path, "/.well-known/") || starts_with(path, "/api/") || starts_with(path, "/oauth/") {
        return Err(Error::bad("Provider issuer overlaps a reserved protocol path"));
    }
    Ok(())
}

/// Where a client's own discovery documents are served.
pub open spec fn discovery_path(issuer: UrlModel, path: Seq<char>) -> bool {
    let prefix = trim_end_char(issuer.path, '/');
    path == prefix + "/.well-known/openid-configuration"@ || path
        == "/.well-known/oauth-authorization-server"@ + prefix
}

/// The request for `path` at `host` asks for the discovery document of a client with this issuer.
pub open spec fn discovers(issuer: UrlModel, host: Seq<char>, path: Seq<char>) -> Result<
    bool,
    Failure,
> {
    match url_of(issuer.scheme + "://"@ + host + path) {
        None => Err(Failure::Bad("Invalid host"@)),
        Some(requested) => Ok(requested.origin == issuer.origin && discovery_path(issuer, path)),
    }
}

/// Whether a request for `path` at `host` asks for the discovery document of `issuer`. Opaque
/// origins, which no accepted issuer has, are all taken as one.
pub fn serves_discovery(issuer: &UrlParts, host: &str, path: &str) -> (r: Result<bool, Error>)
    ensures
        match discovers(issuer@, host@, path@) {
            Ok(b) => r == Ok::<bool, Error>(b),
            Err(f) => r is Err && r->Err_0@ == f,
        },
{
    let mut text = concat3(issuer.scheme.as_str(), "://", host);
    text.append(path);
    match parse_url(text.as_str()) {
        None => Err(Error::bad("Invalid host")),
        Some(requested) => {
            let prefix = trim_end_of(issuer.path.as_str(), '/');
            let openid = concat(prefix.as_str(), "/.well-known/openid-configuration");
            let oauth = concat("/.well-known/oauth-authorization-server", prefix.as_str());
            Ok(
                same(requested.origin.as_str(), issuer.origin.as_str()) && (same(path, openid.as_str())
                    || same(path, oauth.as_str())),
            )
        },
    }
}

/// The first of these clients whose own discovery document is asked for.
pub open spec fn discovered(
    t: TxModel,
    keys: Seq<Seq<char>>,
    host: Seq<char>,
    path: Seq<char>,
) -> Result<Option<Seq<char>>, Failure>
    decreases keys.len(),
{
    if keys.len() == 0 {
        Ok(None)
    } else {
        match discovered(t, keys.drop_last(), host, path) {
            Err(f) => Err(f),
            Ok(Some(id)) => Ok(Some(id)),
            Ok(None) => {
                let c = t.clients[keys.last()];
                if c.settings.issuer is None || !c.enabled {
                    Ok(None)
                } else {
                    match url_of(c.settings.issuer->0) {
                        None => Err(Failure::Internal("Invalid provider issuer"@)),
                        Some(u) => match discovers(u, host, path) {
                            Err(f) => Err(f),
                            Ok(b) => Ok(
                                if b {
                                    Some(c.id)
                                } else {
                                    None
                                },
                            ),
                        },
                    }
                }
            },
        }
    }
}

proof fn lemma_discovered(t: TxModel, keys: Seq<Seq<char>>, host: Seq<char>, path: Seq<char>, n: int)
    requires
        0 <= n <= keys.len(),
        discovered(t, keys.take(n), host, path) != Ok::<Option<Seq<char>>, Failure>(None),
    ensures
        discovered(t, keys, host, path) == discovered(t, keys.take(n), host, path),
    decreases keys.len() - n,
{
    if n < keys.len() {
        assert(keys.take(n + 1).drop_last() =~= keys.take(n));
        lemma_discovered(t, keys, host, path, n + 1);
    } else {
        assert(keys.take(n) =~= keys);
    }
}

impl Core {
    /// The client whose own discovery document a request asks for.
    #[verifier::loop_isolation(false)]
    pub fn discover_provider_path(&self, tx: &Tx, host: &str, path: &str) -> (r: Result<String, Error>)
        ensures
            agrees_with(
                r,
                match discovered(tx@, in_order(tx@.clients.dom()), host@, path@) {
                    Err(f) => Err(f),
                    Ok(Some(id)) => Ok(id),
                    Ok(None) => Err(Failure::Missing("Endpoint not found"@)),
                },
            ),
    {
        let keys = tx.clients.keys();
        let ghost all = in_order(keys@);
        let n: usize = keys.len();
        let mut i: usize = 0;
        assert(all.take(0) =~= Seq::<Seq<char>>::empty());
        while i < n
            invariant
                i <= n,
                discovered(tx@, all.take(i as int), host@, path@) == Ok::<Option<Seq<char>>, Failure>(
                    None,
                ),
            decreases n - i,
        {
            proof {
                assert(all.take(i + 1).drop_last() =~= all.take(i as int));
            }
            if let Some(c) = tx.clients.get(keys.at(i).as_str()) {
                if c.enabled {
                    if let Some(issuer) = &c.settings.issuer {
                        let u = match parse_url(issuer.as_str()) {
                            None => {
                                proof {
                                    lemma_discovered(tx@, all, host@, path@, i + 1);
                                }
                                return Err(Error::internal("Invalid provider issuer"));
                            },
                            Some(u) => u,
                        };
                        match serves_discovery(&u, host, path) {
                            Err(e) => {
                                proof {
                                    lemma_discovered(tx@, all, host@, path@, i + 1);
                                }
                                return Err(e);
                            },
                            Ok(b) => {
                                if b {
                                    proof {
                                        lemma_discovered(tx@, all, host@, path@, i + 1);
                                    }
                                    return Ok(c.id.clone());
                                }
                            },
                        }
                    }
                }
            }
            i = i + 1;
        }
        assert(all.take(n as int) =~= all);
        Err(Error::missing("Endpoint not found"))
    }
}

/// A client speaks in its own name where it has one, and otherwise in the provider's.
pub proof fn clients_have_an_issuer(shared: Seq<char>, c: ClientModel)
    ensures
        c.settings.issuer is None ==> issuer_of(shared, c) == shared,
        c.settings.issuer matches Some(i) ==> issuer_of(shared, c) == i,
{
}

/// An issuer belongs to one client, and lies on no path of the protocol.
pub proof fn issuers_belong_to_one_client(
    t: TxModel,
    c: ClientModel,
    rules: RulesModel,
    issuer: Seq<char>,
    other: Seq<char>,
)
    requires
        issuer_check(t, c, rules) is Ok,
        c.settings.issuer == Some(issuer),
        t.issuer != Some(issuer),
        t.clients.dom().contains(other),
        t.clients[other].id != c.id,
    ensures
        t.clients[other].settings.issuer != Some(issuer),
        rules.server_urls.contains(issuer),
        url_of(issuer) matches Some(u) && !contains_text(u.path, "/.well-known/"@) && !has_prefix(
            u.path,
            "/api/"@,
        ) && !has_prefix(u.path, "/oauth/"@),
{
}

/// A client is discovered at its issuer's address, while it is enabled.
pub proof fn clients_are_discovered_at_their_issuer(
    t: TxModel,
    k: Seq<char>,
    host: Seq<char>,
    path: Seq<char>,
    u: UrlModel,
    asked: UrlModel,
)
    requires
        t.clients[k].settings.issuer is Some,
        url_of(t.clients[k].settings.issuer->0) == Some(u),
        url_of(u.scheme + "://"@ + host + path) == Some(asked),
    ensures
        ({
            let prefix = trim_end_char(u.path, '/');
            discovered(t, seq![k], host, path) == Ok::<Option<Seq<char>>, Failure>(
                if t.clients[k].enabled && asked.origin == u.origin && (path == prefix
                    + "/.well-known/openid-configuration"@ || path
                    == "/.well-known/oauth-authorization-server"@ + prefix) {
                    Some(t.clients[k].id)
                } else {
                    None
                },
            )
        }),
{
    reveal_with_fuel(discovered, 2);
    assert(seq![k].drop_last() =~= Seq::<Seq<char>>::empty());
    assert(seq![k].last() == k);
}

/// A client's own issuer is an address of this server that nobody else has and that is none of the
/// server's own paths; the shared one is always good.
pub proof fn own_issuers_are_free_addresses(t: TxModel, c: ClientModel, issuer: Seq<char>, rules: RulesModel)
    requires
        c.settings.issuer == Some(issuer),
        t.issuer is Some,
    ensures
        issuer_check(t, c, rules) is Ok <==> {
            &&& rules.server_urls.contains(issuer)
            &&& url_of(issuer) is Some
            &&& issuer != t.issuer->0 ==> !issuer_taken(t, c, issuer) && !contains_text(
                (url_of(issuer)->0).path,
                "/.well-known/"@,
            ) && !has_prefix((url_of(issuer)->0).path, "/api/"@) && !has_prefix(
                (url_of(issuer)->0).path,
                "/oauth/"@,
            )
        },
{
}

} // verus!
