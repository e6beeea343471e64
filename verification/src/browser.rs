//! What a browser-facing operation answers.
use crate::json::{Json, JsonModel};
use crate::table::Row;
use crate::text::texts;
use vstd::prelude::*;
use vstd::string::*;

verus! {

/// An answer to a browser: a body or a redirect, with the cookies to set.
pub struct BrowserReply {
    pub form_post: bool,
    pub body: Json,
    pub location: Option<String>,
    pub refresh: Option<String>,
    pub cookies: Vec<String>,
}

/// What a [`BrowserReply`] holds.
pub struct BrowserReplyModel {
    pub form_post: bool,
    pub body: JsonModel,
    pub location: Option<Seq<char>>,
    pub refresh: Option<Seq<char>>,
    pub cookies: Seq<Seq<char>>,
}

impl View for BrowserReply {
    type V = BrowserReplyModel;

    open spec fn view(&self) -> BrowserReplyModel {
        BrowserReplyModel {
            form_post: self.form_post,
            body: self.body@,
            location: crate::text::opt_text(self.location),
            refresh: crate::text::opt_text(self.refresh),
            cookies: crate::text::texts(self.cookies@),
        }
    }
}

impl Row for BrowserReply {
    fn dup(&self) -> (r: Self) {
        BrowserReply {
            form_post: self.form_post,
            body: self.body.dup(),
            location: crate::text::copy_opt(&self.location),
            refresh: crate::text::copy_opt(&self.refresh),
            cookies: crate::text::copy_list(&self.cookies),
        }
    }
}

/// A redirect that sets cookies.
pub open spec fn redirect_model(location: Seq<char>, cookies: Seq<Seq<char>>) -> BrowserReplyModel {
    BrowserReplyModel {
        form_post: false,
        body: JsonModel::Null,
        location: Some(location),
        refresh: None,
        cookies,
    }
}

pub fn redirect_reply(location: String, cookies: Vec<String>) -> (r: BrowserReply)
    ensures
        r@ == redirect_model(location@, texts(cookies@)),
{
    BrowserReply {
        form_post: false,
        body: Json::Null,
        location: Some(location),
        refresh: None,
        cookies,
    }
}

/// A body that sets cookies.
pub open spec fn body_model(body: JsonModel, cookies: Seq<Seq<char>>) -> BrowserReplyModel {
    BrowserReplyModel { form_post: false, body, location: None, refresh: None, cookies }
}

pub fn body_reply(body: Json, cookies: Vec<String>) -> (r: BrowserReply)
    ensures
        r@ == body_model(body@, texts(cookies@)),
{
    BrowserReply { form_post: false, body, location: None, refresh: None, cookies }
}

/// A reply leads on or shows something, never both, and carries the cookies that it was given.
pub proof fn replies_lead_on_or_show(location: Seq<char>, body: JsonModel, cookies: Seq<Seq<char>>)
    ensures
        redirect_model(location, cookies).location == Some(location),
        redirect_model(location, cookies).body == JsonModel::Null,
        redirect_model(location, cookies).cookies == cookies,
        body_model(body, cookies).location is None,
        body_model(body, cookies).body == body,
        body_model(body, cookies).cookies == cookies,
        redirect_model(location, cookies).refresh is None && body_model(body, cookies).refresh is None,
        !redirect_model(location, cookies).form_post && !body_model(body, cookies).form_post,
{
}

} // verus!
