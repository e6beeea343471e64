//! The browser catalogue of applications.
pub mod apps;
pub mod pages;
pub mod passkeys;
pub mod sign_in;

use crate::error::{Error, Failure, agrees};
use crate::model::{Client, ClientModel};
use crate::names::Names;
use crate::outside::{UrlModel, parse_url, url_of};
use crate::table::Row;
use crate::text::{byte_count, byte_len, contains, contains_text, has_char, has_control, has_whitespace, opt_is, opt_text, same, some_control, some_whitespace};
use vstd::prelude::*;
use vstd::string::*;

verus! {

/// How an application appears in the catalogue.
pub struct Settings {
    pub description: String,
    pub category: String,
    /// Application home or login URL, never an OAuth callback URL.
    pub launch_url: Option<String>,
    pub hidden: bool,
    /// Built-in icon; the portal requests no remote images.
    pub icon: String,
    pub accent: String,
    /// Scopes the application's login requests, in addition to protocol minimums.
    pub launch_scopes: Names,
}

/// What a [`Settings`] holds.
pub struct SettingsModel {
    pub description: Seq<char>,
    pub category: Seq<char>,
    pub launch_url: Option<Seq<char>>,
    pub hidden: bool,
    pub icon: Seq<char>,
    pub accent: Seq<char>,
    pub launch_scopes: Set<Seq<char>>,
}

impl View for Settings {
    type V = SettingsModel;

    open spec fn view(&self) -> SettingsModel {
        SettingsModel {
            description: self.description@,
            category: self.category@,
            launch_url: crate::text::opt_text(self.launch_url),
            hidden: self.hidden,
            icon: self.icon@,
            accent: self.accent@,
            launch_scopes: self.launch_scopes@,
        }
    }
}

impl Row for Settings {
    fn dup(&self) -> (r: Self) {
        Settings {
            description: self.description.clone(),
            category: self.category.clone(),
            launch_url: crate::text::copy_opt(&self.launch_url),
            hidden: self.hidden,
            icon: self.icon.clone(),
            accent: self.accent.clone(),
            launch_scopes: self.launch_scopes.copy(),
        }
    }
}

/// A host that names this machine.
pub open spec fn loopback(host: Option<Seq<char>>) -> bool {
    host == Some("localhost"@) || host == Some("127.0.0.1"@) || host == Some("[::1]"@)
}

pub fn is_loopback(host: &Option<String>) -> (r: bool)
    ensures
        r == loopback(opt_text(*host)),
{
    opt_is(host, "localhost") || opt_is(host, "127.0.0.1") || opt_is(host, "[::1]")
}

pub open spec fn known_icon(s: Seq<char>) -> bool {
    s == ""@ || s == "app"@ || s == "code"@ || s == "chart"@ || s == "files"@ || s == "messages"@ || s
        == "book"@ || s == "cloud"@ || s == "terminal"@ || s == "shield"@ || s == "globe"@
}

pub open spec fn known_accent(s: Seq<char>) -> bool {
    s == ""@ || s == "violet"@ || s == "blue"@ || s == "teal"@ || s == "amber"@ || s == "rose"@ || s
        == "slate"@
}

/// The URL may be opened from the catalogue.
pub open spec fn launchable(value: Seq<char>, u: UrlModel) -> bool {
    &&& byte_count(value) <= 2048
    &&& !some_control(value)
    &&& !some_whitespace(value)
    &&& u.scheme == "https"@ || u.scheme == "http"@ && loopback(u.host)
    &&& u.host is Some
    &&& u.username.len() == 0
    &&& u.password is None
    &&& !contains_text(value, "%("@)
    &&& !value.contains('*')
}

pub open spec fn settings_check(s: SettingsModel, c: ClientModel) -> Result<(), Failure> {
    if byte_count(s.description) > 500 || some_control(s.description) || byte_count(s.category) > 64
        || some_control(s.category) {
        Err(
            Failure::Bad(
                "Application description/category is too long or contains control characters"@,
            ),
        )
    } else if !known_icon(s.icon) || !known_accent(s.accent) {
        Err(Failure::Bad("Unknown application icon or accent"@))
    } else if !s.launch_scopes.subset_of(c.scopes) {
        Err(Failure::Bad("Application launch scopes must be registered client scopes"@))
    } else {
        match s.launch_url {
            None => Ok(()),
            Some(value) => match url_of(value) {
                None => Err(Failure::Bad("Invalid application launch URL"@)),
                Some(u) => if launchable(value, u) {
                    Ok(())
                } else {
                    Err(
                        Failure::Bad(
                            "Application launch URL requires HTTPS (HTTP loopback allowed), without credentials or templates"@,
                        ),
                    )
                },
            },
        }
    }
}

impl Settings {
    pub fn validate(&self, client: &Client) -> (r: Result<(), Error>)
        ensures
            agrees(r, settings_check(self@, client@)),
    {
        if byte_len(self.description.as_str()) > 500 || has_control(self.description.as_str())
            || byte_len(self.category.as_str()) > 64 || has_control(self.category.as_str()) {
            return Err(
                Error::bad(
                    "Application description/category is too long or contains control characters",
                ),
            );
        }
        let icon = self.icon.as_str();
        let accent = self.accent.as_str();
        let icon_known = same(icon, "") || same(icon, "app") || same(icon, "code") || same(icon, "chart")
            || same(icon, "files") || same(icon, "messages") || same(icon, "book") || same(
            icon,
            "cloud",
        ) || same(icon, "terminal") || same(icon, "shield") || same(icon, "globe");
        let accent_known = same(accent, "") || same(accent, "violet") || same(accent, "blue") || same(
            accent,
            "teal",
        ) || same(accent, "amber") || same(accent, "rose") || same(accent, "slate");
        if !icon_known || !accent_known {
            return Err(Error::bad("Unknown application icon or accent"));
        }
        if !self.launch_scopes.is_subset(&client.scopes) {
            return Err(Error::bad("Application launch scopes must be registered client scopes"));
        }
        if let Some(value) = &self.launch_url {
            let text = value.as_str();
            match parse_url(text) {
                None => {
                    return Err(Error::bad("Invalid application launch URL"));
                },
                Some(url) => {
                    let secure = same(url.scheme.as_str(), "https") || same(url.scheme.as_str(), "http")
                        && is_loopback(&url.host);
                    if byte_len(text) > 2048 || has_control(text) || has_whitespace(text) || !secure
                        || url.host.is_none() || !url.username.as_str().is_empty()
                        || url.password.is_some() || contains(text, "%(") || has_char(text, '*') {
                        return Err(
                            Error::bad(
                                "Application launch URL requires HTTPS (HTTP loopback allowed), without credentials or templates",
                            ),
                        );
                    }
                },
            }
        }
        Ok(())
    }
}

/// What an application may say of itself: short texts, an icon and an accent that the portal has, scopes
/// of its own, and an https address.
pub proof fn application_settings_are_checked(s: SettingsModel, c: ClientModel)
    requires
        s.launch_url is Some && url_of(s.launch_url->0) is Some,
        (url_of(s.launch_url->0)->0).scheme == "https"@,
    ensures
        settings_check(s, c) is Ok <==> {
            let value = s.launch_url->0;
            let u = url_of(value)->0;
            &&& byte_count(s.description) <= 500 && !some_control(s.description)
            &&& byte_count(s.category) <= 64 && !some_control(s.category)
            &&& known_icon(s.icon) && known_accent(s.accent)
            &&& s.launch_scopes.subset_of(c.scopes)
            &&& byte_count(value) <= 2048 && !some_control(value) && !some_whitespace(value)
            &&& u.host is Some && u.username.len() == 0 && u.password is None
            &&& !contains_text(value, "%("@) && !value.contains('*')
        },
{
}

/// An application opens at an encrypted or local address without credentials, blanks or placeholders.
pub proof fn launch_addresses_are_plain(value: Seq<char>, u: UrlModel)
    ensures
        launchable(value, u) <==> {
            &&& byte_count(value) <= 2048
            &&& !some_control(value) && !some_whitespace(value)
            &&& u.host is Some
            &&& u.scheme == "https"@ || (u.scheme == "http"@ && loopback(u.host))
            &&& u.username.len() == 0 && u.password is None
            &&& !contains_text(value, "%("@)
            &&& !value.contains('*')
        },
{
}

} // verus!
