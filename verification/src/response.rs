//! What a controller answers besides its body.

use vstd::prelude::*;

verus! {

/// Redirect struct.
#[derive(Debug)]
pub struct Redirect {
    /// Url.
    pub url: String,
    /// Permanently redirect.
    pub permanently: bool,
}

/// Response parameters.
#[derive(Debug)]
pub struct Response {
    /// Redirect.
    pub redirect: Option<Redirect>,
    /// Content type.
    pub content_type: Option<String>,
    /// Additional headers.
    pub headers: Vec<(String, String)>,
    /// Http code.
    pub http_code: Option<u16>,
    /// Addition css.
    pub css: Vec<String>,
    /// Addition js.
    pub js: Vec<String>,
    /// Addition meta.
    pub meta: Vec<String>,
}

impl Response {
    /// A response with nothing set.
    pub fn new() -> (res: Response)
        ensures
            res.redirect is None,
            res.content_type is None,
            res.headers@.len() == 0,
            res.http_code is None,
            res.css@.len() == 0,
            res.js@.len() == 0,
            res.meta@.len() == 0,
    {
        Response {
            redirect: None,
            content_type: None,
            headers: Vec::new(),
            http_code: None,
            css: Vec::new(),
            js: Vec::new(),
            meta: Vec::new(),
        }
    }
}

} // verus!
