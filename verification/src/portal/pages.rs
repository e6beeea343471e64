//! The pages of the portal: what is safe to show, and who may write.
use crate::error::{Error, Failure, agrees, status_of};
use crate::headers::{Header, HeaderModel, all_values, has_header, header_values, opt_texts};
use crate::outside::{parse_url, url_of};
use crate::table::views;
use crate::text::{chars_of, concat, opt_is, opt_text};
use vstd::prelude::*;
use vstd::string::*;

verus! {

/// A character as it is written in a page.
pub open spec fn escaped_char(c: char) -> Seq<char> {
    if c == '&' {
        "&amp;"@
    } else if c == '<' {
        "&lt;"@
    } else if c == '>' {
        "&gt;"@
    } else if c == '"' {
        "&quot;"@
    } else if c == '\'' {
        "&#39;"@
    } else {
        seq![c]
    }
}

/// A text as it is written in a page.
pub open spec fn escaped(s: Seq<char>) -> Seq<char>
    decreases s.len(),
{
    if s.len() == 0 {
        Seq::empty()
    } else {
        escaped(s.drop_last()) + escaped_char(s.last())
    }
}

pub fn escape(value: &str) -> (r: String)
    ensures
        r@ == escaped(value@),
{
    let v = chars_of(value);
    let mut out = String::new();
    let mut i: usize = 0;
    assert(value@.take(0) =~= Seq::<char>::empty());
    assert(out@ =~= escaped(value@.take(0)));
    while i < v.len()
        invariant
            i <= v.len(),
            v@ == value@,
            out@ == escaped(value@.take(i as int)),
        decreases v.len() - i,
    {
        let c = v[i];
        proof {
            assert(value@.take(i + 1).drop_last() =~= value@.take(i as int));
            assert(value@.take(i + 1).last() == c);
        }
        if c == '&' {
            out.append("&amp;");
        } else if c == '<' {
            out.append("&lt;");
        } else if c == '>' {
            out.append("&gt;");
        } else if c == '"' {
            out.append("&quot;");
        } else if c == '\'' {
            out.append("&#39;");
        } else {
            let ghost was = out@;
            out.push(c);
            assert(out@ =~= was + seq![c]);
        }
        i = i + 1;
    }
    assert(value@.take(i as int) =~= value@);
    out
}

/// A character that could end a text or start a tag.
pub open spec fn markup(c: char) -> bool {
    c == '<' || c == '>' || c == '"' || c == '\''
}

/// An escaped text holds no markup, whatever was in it.
pub proof fn escaped_texts_hold_no_markup(s: Seq<char>)
    ensures
        forall|i: int| 0 <= i < escaped(s).len() ==> !markup(#[trigger] escaped(s)[i]),
    decreases s.len(),
{
    if s.len() > 0 {
        escaped_texts_hold_no_markup(s.drop_last());
        reveal_strlit("&amp;");
        reveal_strlit("&lt;");
        reveal_strlit("&gt;");
        reveal_strlit("&quot;");
        reveal_strlit("&#39;");
        let a = escaped(s.drop_last());
        let b = escaped_char(s.last());
        assert forall|i: int| 0 <= i < escaped(s).len() implies !markup(#[trigger] escaped(s)[i]) by {
            if i < a.len() {
                assert(escaped(s)[i] == a[i]);
            } else {
                assert(escaped(s)[i] == b[i - a.len()]);
            }
        }
    }
}

/// A page without scripts for errors and notices.
pub open spec fn standalone(
    base: Seq<char>,
    title: Seq<char>,
    text: Seq<char>,
    link: Option<(Seq<char>, Seq<char>)>,
) -> Seq<char> {
    "<!doctype html><html lang=\"en\"><meta charset=\"utf-8\"><meta name=\"viewport\" content=\"width=device-width,initial-scale=1\"><title>"@
        + escaped(title) + " · riAuth</title><link rel=\"stylesheet\" href=\""@ + escaped(
        base + "portal/assets/app.css"@,
    )
        + "\"><body><main class=\"standalone\"><div class=\"auth-panel\"><span class=\"eyebrow\">riAuth</span><h1>"@
        + escaped(title) + "</h1><p>"@ + escaped(text) + "</p>"@ + match link {
        Some(l) => "<a class=\"button primary\" href=\""@ + escaped(l.0) + "\">"@ + escaped(l.1)
            + "</a>"@,
        None => ""@,
    } + "</div></main></body></html>"@
}

pub fn standalone_page(base: &str, title: &str, text: &str, link: &Option<(String, String)>) -> (r: String)
    ensures
        r@ == standalone(
            base@,
            title@,
            text@,
            match *link {
                Some(l) => Some((l.0@, l.1@)),
                None => None,
            },
        ),
{
    let css = concat(base, "portal/assets/app.css");
    let shown = escape(title);
    let anchor = match link {
        Some(l) => {
            let mut a = "<a class=\"button primary\" href=\"".to_owned();
            let href = escape(l.0.as_str());
            let label = escape(l.1.as_str());
            a.append(href.as_str());
            a.append("\">");
            a.append(label.as_str());
            a.append("</a>");
            a
        },
        None => "".to_owned(),
    };
    let mut out =
        "<!doctype html><html lang=\"en\"><meta charset=\"utf-8\"><meta name=\"viewport\" content=\"width=device-width,initial-scale=1\"><title>".to_owned();
    out.append(shown.as_str());
    out.append(" · riAuth</title><link rel=\"stylesheet\" href=\"");
    let sheet = escape(css.as_str());
    out.append(sheet.as_str());
    out.append(
        "\"><body><main class=\"standalone\"><div class=\"auth-panel\"><span class=\"eyebrow\">riAuth</span><h1>",
    );
    out.append(shown.as_str());
    out.append("</h1><p>");
    let body = escape(text);
    out.append(body.as_str());
    out.append("</p>");
    out.append(anchor.as_str());
    out.append("</div></main></body></html>");
    out
}

/// What the page on a failed launch says.
pub open spec fn launch_notice(status: u16) -> (Seq<char>, Seq<char>) {
    if status == 401 {
        (
            "Sign in to open this application"@,
            "Your session has ended. Return to your applications to sign in again."@,
        )
    } else {
        (
            "This application is unavailable"@,
            "Your access may have changed, or the application is still being configured. Refresh your applications or contact your administrator."@,
        )
    }
}

/// The page on a failed launch.
pub fn launch_failure(base: &str, error: &Error) -> (r: String)
    ensures
        ({
            let n = launch_notice(status_of(error@));
            r@ == standalone(base@, n.0, n.1, Some((base@ + "apps"@, "Back to applications"@)))
        }),
{
    let home = concat(base, "apps");
    let link = Some((home, "Back to applications".to_owned()));
    if error.status() == 401 {
        standalone_page(
            base,
            "Sign in to open this application",
            "Your session has ended. Return to your applications to sign in again.",
            &link,
        )
    } else {
        standalone_page(
            base,
            "This application is unavailable",
            "Your access may have changed, or the application is still being configured. Refresh your applications or contact your administrator.",
            &link,
        )
    }
}

/// A single header with this value.
pub open spec fn only_value(h: Seq<HeaderModel>, name: Seq<char>, value: Seq<char>) -> bool {
    header_values(h, name) == seq![Some(value)]
}

/// Writes with a browser's cookie come from the portal's own pages: from the same origin, with the
/// portal's header, and without a report of another site.
pub open spec fn write_check(h: Seq<HeaderModel>, issuer: Seq<char>) -> Result<(), Failure> {
    match url_of(issuer) {
        None => Err(Failure::Internal("Invalid issuer"@)),
        Some(u) => {
            let sites = header_values(h, "sec-fetch-site"@);
            if only_value(h, "origin"@, u.origin) && only_value(h, "x-riauth-portal"@, "1"@) && (
            sites.len() == 0 || only_value(h, "sec-fetch-site"@, "same-origin"@)) {
                Ok(())
            } else {
                Err(Failure::Forbidden)
            }
        },
    }
}

fn has_only(headers: &Vec<Header>, name: &str, value: &str) -> (r: bool)
    ensures
        r == only_value(views(headers@), name@, value@),
{
    let v = all_values(headers, name);
    let ghost all = header_values(views(headers@), name@);
    assert(opt_texts(v@) == all);
    if v.len() != 1 {
        return false;
    }
    assert(all[0] == opt_text(v[0]));
    let r = opt_is(&v[0], value);
    proof {
        if r {
            assert(all =~= seq![Some(value@)]);
        }
    }
    r
}

pub fn browser_write_guard(headers: &Vec<Header>, issuer: &str) -> (r: Result<(), Error>)
    ensures
        agrees(r, write_check(views(headers@), issuer@)),
{
    let u = match parse_url(issuer) {
        None => return Err(Error::internal("Invalid issuer")),
        Some(u) => u,
    };
    let sites = has_header(headers, "sec-fetch-site");
    if !has_only(headers, "origin", u.origin.as_str()) || !has_only(headers, "x-riauth-portal", "1")
        || (sites && !has_only(headers, "sec-fetch-site", "same-origin")) {
        return Err(Error::Forbidden);
    }
    Ok(())
}

/// A page takes a write only from its own site: from the issuer's origin, with the portal's own header,
/// and never across sites.
pub proof fn writes_come_from_the_portal(h: Seq<HeaderModel>, issuer: Seq<char>)
    requires
        url_of(issuer) is Some,
    ensures
        write_check(h, issuer) is Ok <==> {
            &&& header_values(h, "origin"@) == seq![Some((url_of(issuer)->0).origin)]
            &&& header_values(h, "x-riauth-portal"@) == seq![Some("1"@)]
            &&& header_values(h, "sec-fetch-site"@).len() == 0 || header_values(
                h,
                "sec-fetch-site"@,
            ) == seq![Some("same-origin"@)]
        },
{
}

/// Escaping changes only the five characters that mean something to a browser.
pub proof fn plain_texts_are_shown_as_they_are(s: Seq<char>)
    requires
        forall|i: int| 0 <= i < s.len() ==> !markup(#[trigger] s[i]) && s[i] != '&',
    ensures
        escaped(s) == s,
    decreases s.len(),
{
    if s.len() > 0 {
        let d = s.drop_last();
        assert forall|i: int| 0 <= i < d.len() implies !markup(#[trigger] d[i]) && d[i] != '&' by {
            assert(d[i] == s[i]);
        }
        plain_texts_are_shown_as_they_are(d);
        assert(s.last() == s[s.len() - 1]);
        assert(d + seq![s.last()] =~= s);
    }
}

} // verus!
