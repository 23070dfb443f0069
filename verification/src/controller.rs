//! What a controller works with while it answers a request: the values it
//! hands to its template, the translations of its class, its templates, and
//! the access rights read from the cache or the database.

use std::collections::BTreeMap;
use vstd::prelude::*;
use vstd::string::StringSliceAdditionalSpecFns;

use crate::action::Answer;
use crate::cache::CacheSys;
use crate::data::Data;
use crate::html::{render_list, Html, Node};
use crate::response::Response;
use crate::{fnv1a_64, spec_fnv1a_64};

verus! {

broadcast use {vstd::std_specs::btree::group_btree_axioms, vstd::laws_cmp::group_laws_cmp};

/// The key of a name: its FNV-1a hash.
pub open spec fn key_of(name: &str) -> i64 {
    spec_fnv1a_64(name.spec_bytes())
}

/// The state of a controller.
#[derive(Debug)]
pub struct Action {
    /// The response being made.
    pub response: Response,
    /// Values for the template, by key.
    pub data: BTreeMap<i64, Data>,
    /// Translations of the current class, by key.
    pub lang: Option<BTreeMap<i64, String>>,
    /// Templates of the current class, by key.
    pub html: Option<BTreeMap<i64, Vec<Node>>>,
}

/// The texts of a list of strings as template values.
pub open spec fn string_values(v: Seq<String>) -> Seq<Data> {
    v.map_values(|s: String| Data::String(s))
}

/// The translation of a key, if the class has one.
pub open spec fn translation(lang: Option<BTreeMap<i64, String>>, k: i64) -> Option<Seq<char>> {
    match lang {
        Some(l) => if l@.contains_key(k) {
            Some(l@[k]@)
        } else {
            None
        },
        None => None,
    }
}

/// Whether the templates hold one under a key.
pub open spec fn has_template(html: Option<BTreeMap<i64, Vec<Node>>>, k: i64) -> bool {
    html matches Some(h) && h@.contains_key(k)
}

/// The nodes of the template under a key.
pub open spec fn template_nodes(html: Option<BTreeMap<i64, Vec<Node>>>, k: i64) -> Seq<Node> {
    match html {
        Some(h) => h@[k]@,
        None => Seq::empty(),
    }
}

/// Whether no text before position `i` has the key `k`.
pub open spec fn absent(keys: Seq<&str>, k: i64, i: int) -> bool {
    forall|j: int| 0 <= j < i ==> key_of(#[trigger] keys[j]) != k
}

/// Whether no text between positions `j` and `i` has the key of the text at `j`.
pub open spec fn last_at(keys: Seq<&str>, j: int, i: int) -> bool {
    forall|m: int| j < m < i ==> key_of(#[trigger] keys[m]) != key_of(keys[j])
}

/// The translation of a text, or the text itself.
pub open spec fn lang_text(lang: Option<BTreeMap<i64, String>>, t: &str) -> Seq<char> {
    match translation(lang, key_of(t)) {
        Some(x) => x,
        None => t@,
    }
}

/// Whether the values hold the translation (or the text) under its key.
pub open spec fn holds_text(data: Map<i64, Data>, lang: Option<BTreeMap<i64, String>>, t: &str) -> bool {
    data.contains_key(key_of(t)) && is_text(data[key_of(t)], lang_text(lang, t))
}

/// Whether a value is the given text.
pub open spec fn is_text(d: Data, t: Seq<char>) -> bool {
    d matches Data::String(s) && s@ == t
}

/// Whether a value is the list of the texts.
pub open spec fn is_list_of(d: Data, list: Seq<String>) -> bool {
    d matches Data::Vec(items) && items@ == string_values(list)
}

/// Whether a non-empty list of texts stands under `k` as a list value.
pub open spec fn moved(list: Seq<String>, data: Map<i64, Data>, k: i64) -> bool {
    list.len() > 0 ==> data.contains_key(k) && is_list_of(data[k], list)
}

/// Whether the value under `k` is as it was.
pub open spec fn kept(before: Map<i64, Data>, after: Map<i64, Data>, k: i64) -> bool {
    before.contains_key(k) == after.contains_key(k) && (before.contains_key(k) ==> after[k] == before[k])
}

/// Whether an answer is the given output (`Nothing` for none).
pub open spec fn rendered(res: Answer, out: Option<Seq<char>>) -> bool {
    match out {
        Some(t) => res matches Answer::String(s) && s@ == t,
        None => res is Nothing,
    }
}

fn string_list(v: &Vec<String>) -> (res: Data)
    ensures
        res matches Data::Vec(items) && items@ == string_values(v@),
{
    let mut out: Vec<Data> = Vec::new();
    let mut i: usize = 0;
    while i < v.len()
        invariant
            i <= v@.len(),
            out@ == string_values(v@.subrange(0, i as int)),
        decreases v@.len() - i,
    {
        out.push(Data::String(v[i].clone()));
        assert(out@ =~= string_values(v@.subrange(0, i + 1)));
        i = i + 1;
    }
    assert(v@.subrange(0, v@.len() as int) =~= v@);
    Data::Vec(out)
}

impl Action {
    /// A controller state with nothing set yet.
    pub fn new(lang: Option<BTreeMap<i64, String>>, html: Option<BTreeMap<i64, Vec<Node>>>) -> (res: Action)
        ensures
            res.data@ == Map::<i64, Data>::empty(),
            res.lang == lang,
            res.html == html,
            res.response.redirect is None,
            res.response.http_code is None,
            res.response.headers@.len() == 0,
    {
        Action { response: Response::new(), data: BTreeMap::new(), lang, html }
    }

    /// Sets a value for the template under the key of a name.
    pub fn set(&mut self, key: &str, value: Data)
        ensures
            final(self).data@ == old(self).data@.insert(key_of(key), value),
            final(self).lang == old(self).lang,
            final(self).html == old(self).html,
            final(self).response == old(self).response,
    {
        let k = fnv1a_64(key.as_bytes());
        self.data.insert(k, value);
    }

    /// The value set under the key of a name.
    pub fn get(&self, key: &str) -> (res: Option<&Data>)
        ensures
            match res {
                Some(v) => self.data@.contains_key(key_of(key)) && self.data@[key_of(key)] == *v,
                None => !self.data@.contains_key(key_of(key)),
            },
    {
        let k = fnv1a_64(key.as_bytes());
        self.data.get(&k)
    }

    /// Takes (removes) the value set under the key of a name.
    pub fn take(&mut self, key: &str) -> (res: Option<Data>)
        ensures
            final(self).data@ == old(self).data@.remove(key_of(key)),
            match res {
                Some(v) => old(self).data@.contains_key(key_of(key)) && old(self).data@[key_of(key)] == v,
                None => !old(self).data@.contains_key(key_of(key)),
            },
            final(self).lang == old(self).lang,
            final(self).html == old(self).html,
            final(self).response == old(self).response,
    {
        let k = fnv1a_64(key.as_bytes());
        self.data.remove(&k)
    }

    /// Keeps what an internal call of another action answered: a text is
    /// set as the value under the key of a name; any other answer is
    /// dropped.
    pub fn load(&mut self, key: &str, answer: Answer)
        ensures
            final(self).data@ == match answer {
                Answer::String(t) => old(self).data@.insert(key_of(key), Data::String(t)),
                _ => old(self).data@,
            },
            final(self).lang == old(self).lang,
            final(self).html == old(self).html,
            final(self).response == old(self).response,
    {
        if let Answer::String(value) = answer {
            self.set(key, Data::String(value));
        }
    }

    /// The translation of a text, or the text itself when there is none.
    pub fn lang(&self, text: &str) -> (res: String)
        ensures
            res@ == match translation(self.lang, key_of(text)) {
                Some(t) => t,
                None => text@,
            },
    {
        let k = fnv1a_64(text.as_bytes());
        match &self.lang {
            Some(l) => match l.get(&k) {
                Some(s) => {
                    return s.clone();
                },
                None => {},
            },
            None => {},
        }
        text.to_owned()
    }

    /// Sets the translation of a text (or the text itself) as the value
    /// under its key.
    pub fn set_lang(&mut self, key: &str)
        ensures
            final(self).data@.contains_key(key_of(key)),
            is_text(
                final(self).data@[key_of(key)],
                match translation(old(self).lang, key_of(key)) {
                    Some(t) => t,
                    None => key@,
                },
            ),
            forall|k: i64| k != key_of(key) ==> kept(old(self).data@, final(self).data@, k),
            final(self).lang == old(self).lang,
            final(self).html == old(self).html,
            final(self).response == old(self).response,
    {
        let text = self.lang(key);
        let k = fnv1a_64(key.as_bytes());
        self.data.insert(k, Data::String(text));
    }

    /// `set_lang` for each text in order: each key holds the translation
    /// (or the text) of the last text with that key; other keys are kept.
    pub fn set_lang_arr(&mut self, keys: &[&str])
        ensures
            forall|k: i64| absent(keys@, k, keys@.len() as int) ==> #[trigger] kept(old(self).data@, final(self).data@, k),
            forall|j: int|
                0 <= j < keys@.len() && last_at(keys@, j, keys@.len() as int) ==> #[trigger] holds_text(
                    final(self).data@,
                    old(self).lang,
                    keys@[j],
                ),
            final(self).lang == old(self).lang,
            final(self).html == old(self).html,
            final(self).response == old(self).response,
    {
        let mut i: usize = 0;
        while i < keys.len()
            invariant
                i <= keys@.len(),
                forall|k: i64| absent(keys@, k, i as int) ==> #[trigger] kept(old(self).data@, self.data@, k),
                forall|j: int|
                    0 <= j < i && last_at(keys@, j, i as int) ==> #[trigger] holds_text(self.data@, old(self).lang, keys@[j]),
                self.lang == old(self).lang,
                self.html == old(self).html,
                self.response == old(self).response,
            decreases keys@.len() - i,
        {
            let ghost prev = self.data@;
            self.set_lang(keys[i]);
            let ghost cur = self.data@;
            let ghost kk = key_of(keys@[i as int]);
            assert forall|k: i64| absent(keys@, k, i + 1) implies #[trigger] kept(old(self).data@, cur, k) by {
                assert(key_of(keys@[i as int]) != k);
                assert(absent(keys@, k, i as int));
                assert(kept(old(self).data@, prev, k));
                assert(kept(prev, cur, k));
            }
            assert forall|j: int| 0 <= j < i + 1 && last_at(keys@, j, i + 1) implies #[trigger] holds_text(
                cur,
                old(self).lang,
                keys@[j],
            ) by {
                if j < i {
                    assert(key_of(keys@[i as int]) != key_of(keys@[j]));
                    assert(last_at(keys@, j, i as int));
                    assert(holds_text(prev, old(self).lang, keys@[j]));
                    assert(kept(prev, cur, key_of(keys@[j])));
                }
            }
            i = i + 1;
        }
    }

    /// Moves a list of texts of the response into the values, under `key`,
    /// when it is not empty.
    fn move_list(data: &mut BTreeMap<i64, Data>, key: &str, list: &mut Vec<String>)
        ensures
            old(list)@.len() > 0 ==> final(data)@ == old(data)@.insert(key_of(key), final(data)@[key_of(key)])
                && is_list_of(final(data)@[key_of(key)], old(list)@) && final(list)@.len() == 0,
            old(list)@.len() == 0 ==> final(data)@ == old(data)@ && final(list)@ == old(list)@,
    {
        if list.len() > 0 {
            let v = string_list(list);
            let k = fnv1a_64(key.as_bytes());
            data.insert(k, v);
            list.clear();
        }
    }

    /// Renders a template of the class with the values set: the style
    /// sheets, scripts and meta tags of the response are moved into the
    /// values (`css`, `js`, `meta`) first. `Nothing` without such a template.
    pub fn render(&mut self, template: &str) -> (res: Answer)
        ensures
            final(self).lang == old(self).lang,
            final(self).html == old(self).html,
            !has_template(old(self).html, key_of(template)) ==> res is Nothing && final(self).data@ == old(self).data@
                && final(self).response == old(self).response,
            has_template(old(self).html, key_of(template)) ==> {
                &&& final(self).response.redirect == old(self).response.redirect
                &&& final(self).response.content_type == old(self).response.content_type
                &&& final(self).response.headers == old(self).response.headers
                &&& final(self).response.http_code == old(self).response.http_code
                &&& (key_of("css") != key_of("js") && key_of("css") != key_of("meta") ==> moved(
                    old(self).response.css@,
                    final(self).data@,
                    key_of("css"),
                ))
                &&& (key_of("js") != key_of("meta") ==> moved(old(self).response.js@, final(self).data@, key_of("js")))
                &&& moved(old(self).response.meta@, final(self).data@, key_of("meta"))
                &&& forall|k: i64|
                    k != key_of("css") && k != key_of("js") && k != key_of("meta") ==> kept(old(self).data@, final(self).data@, k)
                &&& final(self).response.css@.len() == 0
                &&& final(self).response.js@.len() == 0
                &&& final(self).response.meta@.len() == 0
                &&& rendered(res, render_list(final(self).data@, template_nodes(old(self).html, key_of(template)), None))
            },
    {
        let k = fnv1a_64(template.as_bytes());
        let found = match &self.html {
            Some(h) => h.contains_key(&k),
            None => false,
        };
        if !found {
            return Answer::Nothing;
        }
        Action::move_list(&mut self.data, "css", &mut self.response.css);
        Action::move_list(&mut self.data, "js", &mut self.response.js);
        Action::move_list(&mut self.data, "meta", &mut self.response.meta);
        match &self.html {
            Some(h) => match h.get(&k) {
                Some(nodes) => Html::render(&self.data, nodes, None),
                None => Answer::Nothing,
            },
            None => Answer::Nothing,
        }
    }
}

/// Where an access check stands: answered, or waiting for the database.
#[derive(Debug)]
pub enum AccessStep {
    /// Whether access is granted.
    Done(bool),
    /// `lib_get_auth` is to be asked.
    Query,
}

/// The cache path of an access right: `auth`, the role, the module, the
/// class and the action.
pub open spec fn access_key(role_id: i64, m: i64, c: i64, a: i64) -> Seq<i64> {
    seq![spec_fnv1a_64("auth"@.map_values(|x: char| x as u8)), role_id, m, c, a]
}

/// What a database answer says of an access right: one row whose first
/// column is a 32-bit integer, not zero for granted; `None` for a row of
/// another shape.
pub open spec fn access_row(rows: Seq<Data>) -> Option<bool> {
    if rows.len() != 1 {
        Some(false)
    } else {
        match rows[0] {
            Data::Vec(row) => if row@.len() == 0 {
                None
            } else {
                match row@[0] {
                    Data::I32(v) => Some(v != 0),
                    _ => None,
                }
            },
            _ => None,
        }
    }
}

fn access_key_exec(role_id: i64, m: i64, c: i64, a: i64) -> (res: Vec<i64>)
    ensures
        res@ == access_key(role_id, m, c, a),
{
    let auth = "auth";
    proof {
        reveal_strlit("auth");
        assert(vstd::string::is_ascii(auth));
        vstd::string::is_ascii_spec_bytes(auth);
    }
    assert(auth.spec_bytes() =~= "auth"@.map_values(|x: char| x as u8));
    let mut v: Vec<i64> = Vec::new();
    v.push(fnv1a_64(auth.as_bytes()));
    v.push(role_id);
    v.push(m);
    v.push(c);
    v.push(a);
    assert(v@ =~= access_key(role_id, m, c, a));
    v
}

impl Action {
    /// Starts an access check of a role for an action: granted without a
    /// database; else the cached answer, or the query when none is cached.
    pub fn access_start(cache: &CacheSys, in_use: bool, role_id: i64, m: i64, c: i64, a: i64) -> (res: AccessStep)
        ensures
            !in_use ==> res matches AccessStep::Done(true),
            in_use ==> match cache.stored(access_key(role_id, m, c, a)) {
                Some(Data::Bool(b)) => res matches AccessStep::Done(r) && r == b,
                _ => res is Query,
            },
    {
        if !in_use {
            return AccessStep::Done(true);
        }
        let key = access_key_exec(role_id, m, c, a);
        match cache.get(key.as_slice()) {
            Some(Data::Bool(b)) => AccessStep::Done(*b),
            _ => AccessStep::Query,
        }
    }

    /// Ends an access check with the database's answer (`None` when the
    /// query failed): a failure or a row of another shape refuses and
    /// caches nothing; otherwise the answer (refused unless there is exactly
    /// one row) is cached and returned.
    pub fn access_answer(cache: &mut CacheSys, role_id: i64, m: i64, c: i64, a: i64, rows: Option<Vec<Data>>) -> (res: bool)
        ensures
            match rows {
                None => !res && *final(cache) == *old(cache),
                Some(v) => match access_row(v@) {
                    None => !res && *final(cache) == *old(cache),
                    Some(b) => {
                        &&& res == b
                        &&& final(cache).stored(access_key(role_id, m, c, a)) == Some(Data::Bool(b))
                        &&& forall|p: Seq<i64>| #[trigger] final(cache).stored(p) == crate::cache::after_set(
                            old(cache).stored(p),
                            access_key(role_id, m, c, a),
                            p,
                            Data::Bool(b),
                        )
                    },
                },
            },
    {
        let v = match rows {
            Some(v) => v,
            None => return false,
        };
        let granted = if v.len() != 1 {
            false
        } else {
            match &v[0] {
                Data::Vec(row) => {
                    if row.len() == 0 {
                        return false;
                    }
                    match &row[0] {
                        Data::I32(x) => *x != 0,
                        _ => return false,
                    }
                },
                _ => return false,
            }
        };
        let key = access_key_exec(role_id, m, c, a);
        cache.set(key.as_slice(), Data::Bool(granted));
        proof {
            crate::cache::law_get_after_set(*old(cache), *cache, key@, Data::Bool(granted));
        }
        granted
    }
}

/// Where finding a URL stands: found, or waiting for the database.
#[derive(Debug)]
pub enum UrlStep {
    /// The URL.
    Done(String),
    /// `lib_get_url` (or `lib_get_not_found`) is to be asked.
    Query,
}

/// The hash of a literal word.
pub open spec fn word_key(w: Seq<char>) -> i64 {
    spec_fnv1a_64(w.map_values(|x: char| x as u8))
}

/// Whether a step found the given URL.
pub open spec fn done_with(res: UrlStep, u: Seq<char>) -> bool {
    res matches UrlStep::Done(r) && r@ == u
}

/// The cache path of a route's URL: `route`, the names' hashes, the
/// parameter's hash (0 without), and the language (-1 without).
pub open spec fn url_key(m: &str, c: &str, a: &str, param: Option<&str>, lang_id: Option<i64>) -> Seq<i64> {
    seq![
        word_key("route"@),
        key_of(m),
        key_of(c),
        key_of(a),
        match param {
            Some(p) => key_of(p),
            None => 0i64,
        },
        match lang_id {
            Some(l) => l,
            None => -1i64,
        },
    ]
}

/// The URL `format_route` writes.
pub open spec fn formatted(m: Seq<char>, c: Seq<char>, a: Seq<char>, param: Option<Seq<char>>) -> Seq<char> {
    crate::action::route_url(m, c, a, param)
}

/// The text of an optional name.
pub open spec fn opt_text(p: Option<&str>) -> Option<Seq<char>> {
    match p {
        Some(x) => Some(x@),
        None => None,
    }
}

/// What a database answer says of a URL: one row whose first column is a
/// text gives it; no row or several give the route's own URL (`None` here);
/// a row of another shape is malformed (`Err`).
pub open spec fn url_row(rows: Seq<Data>) -> Result<Option<Seq<char>>, ()> {
    if rows.len() != 1 {
        Ok(None)
    } else {
        match rows[0] {
            Data::Vec(row) => if row@.len() == 0 {
                Err(())
            } else {
                match row@[0] {
                    Data::String(u) => Ok(Some(u@)),
                    _ => Err(()),
                }
            },
            _ => Err(()),
        }
    }
}

fn word_key_exec(w: &str) -> (res: i64)
    requires
        vstd::string::is_ascii(w),
    ensures
        res == word_key(w@),
{
    proof {
        vstd::string::is_ascii_spec_bytes(w);
    }
    assert(w.spec_bytes() =~= w@.map_values(|x: char| x as u8));
    fnv1a_64(w.as_bytes())
}

fn url_key_exec(m: &str, c: &str, a: &str, param: Option<&str>, lang_id: Option<i64>) -> (res: Vec<i64>)
    ensures
        res@ == url_key(m, c, a, param, lang_id),
{
    let route = "route";
    proof {
        reveal_strlit("route");
    }
    let mut v: Vec<i64> = Vec::new();
    v.push(word_key_exec(route));
    v.push(fnv1a_64(m.as_bytes()));
    v.push(fnv1a_64(c.as_bytes()));
    v.push(fnv1a_64(a.as_bytes()));
    v.push(
        match param {
            Some(p) => fnv1a_64(p.as_bytes()),
            None => 0,
        },
    );
    v.push(
        match lang_id {
            Some(l) => l,
            None => -1,
        },
    );
    assert(v@ =~= url_key(m, c, a, param, lang_id));
    v
}

/// The cache path of the URL for "not found" in a language.
pub open spec fn not_found_key(lang_id: i64) -> Seq<i64> {
    seq![word_key("404"@), lang_id]
}

/// What a database answer says of the URL for "not found": the first
/// column of the first row when it is a text.
pub open spec fn not_found_row(rows: Seq<Data>) -> Option<Seq<char>> {
    if rows.len() == 0 {
        None
    } else {
        match rows[0] {
            Data::Vec(row) => if row@.len() > 0 {
                match row@[0] {
                    Data::String(u) => Some(u@),
                    _ => None,
                }
            } else {
                None
            },
            _ => None,
        }
    }
}

/// The URL of a route (see `route_url`).
pub open spec fn route_text(r: crate::action::RouteView) -> Seq<char> {
    crate::action::route_url(r.module, r.class, r.action, r.param)
}

fn route_text_exec(r: &crate::action::Route) -> (res: String)
    ensures
        res@ == route_text(r.view()),
{
    let p = match &r.param {
        Some(p) => Some(p.as_str()),
        None => None,
    };
    crate::action::Route::format_route(r.module.as_str(), r.class.as_str(), r.action.as_str(), p)
}

fn not_found_key_exec(lang_id: i64) -> (res: Vec<i64>)
    ensures
        res@ == not_found_key(lang_id),
{
    let w = "404";
    proof {
        reveal_strlit("404");
    }
    let mut v: Vec<i64> = Vec::new();
    v.push(word_key_exec(w));
    v.push(lang_id);
    assert(v@ =~= not_found_key(lang_id));
    v
}

impl Action {
    /// Starts finding the URL of a route: without a database, or when the
    /// cache holds none, the route's own URL or the query.
    pub fn url_start(
        cache: &CacheSys,
        in_use: bool,
        m: &str,
        c: &str,
        a: &str,
        param: Option<&str>,
        lang_id: Option<i64>,
    ) -> (res: UrlStep)
        ensures
            !in_use ==> done_with(res, formatted(m@, c@, a@, opt_text(param))),
            in_use ==> match cache.stored(url_key(m, c, a, param, lang_id)) {
                Some(Data::String(u)) => res matches UrlStep::Done(r) && r@ == u@,
                _ => res is Query,
            },
    {
        if !in_use {
            return UrlStep::Done(crate::action::Route::format_route(m, c, a, param));
        }
        let key = url_key_exec(m, c, a, param, lang_id);
        match cache.get(key.as_slice()) {
            Some(Data::String(u)) => UrlStep::Done(u.clone()),
            _ => UrlStep::Query,
        }
    }

    /// Ends finding the URL of a route with the database's answer (`None`
    /// when the query failed): a failure or a malformed row gives the
    /// route's own URL and caches nothing; otherwise the URL found (or the
    /// route's own) is cached and returned.
    pub fn url_answer(
        cache: &mut CacheSys,
        m: &str,
        c: &str,
        a: &str,
        param: Option<&str>,
        lang_id: Option<i64>,
        rows: Option<Vec<Data>>,
    ) -> (res: String)
        ensures
            match rows {
                None => res@ == formatted(m@, c@, a@, opt_text(param)) && *final(cache) == *old(cache),
                Some(v) => match url_row(v@) {
                    Err(()) => res@ == formatted(m@, c@, a@, opt_text(param)) && *final(cache) == *old(cache),
                    Ok(found) => {
                        &&& res@ == match found {
                            Some(u) => u,
                            None => formatted(m@, c@, a@, opt_text(param)),
                        }
                        &&& final(cache).stored(url_key(m, c, a, param, lang_id)) matches Some(Data::String(s))
                        &&& final(cache).stored(url_key(m, c, a, param, lang_id)) == Some(Data::String(res))
                    },
                },
            },
    {
        let v = match rows {
            Some(v) => v,
            None => return crate::action::Route::format_route(m, c, a, param),
        };
        let url = if v.len() != 1 {
            crate::action::Route::format_route(m, c, a, param)
        } else {
            match &v[0] {
                Data::Vec(row) => {
                    if row.len() == 0 {
                        return crate::action::Route::format_route(m, c, a, param);
                    }
                    match &row[0] {
                        Data::String(u) => u.clone(),
                        _ => return crate::action::Route::format_route(m, c, a, param),
                    }
                },
                _ => return crate::action::Route::format_route(m, c, a, param),
            }
        };
        let key = url_key_exec(m, c, a, param, lang_id);
        cache.set(key.as_slice(), Data::String(url.clone()));
        proof {
            crate::cache::law_get_after_set(*old(cache), *cache, key@, Data::String(url));
        }
        url
    }

    /// Starts finding the URL for "not found": without a database, the
    /// installer's `not_found` action; else a cached URL, the route for
    /// "not found" when the cache holds anything else, or the query.
    pub fn not_found_start(cache: &CacheSys, in_use: bool, lang_id: i64, not_found: &crate::action::Route, install: &crate::action::Route) -> (res: UrlStep)
        ensures
            !in_use ==> done_with(res, formatted(install.module@, install.class@, "not_found"@, None)),
            in_use ==> match cache.stored(not_found_key(lang_id)) {
                Some(Data::String(u)) => res matches UrlStep::Done(r) && r@ == u@,
                Some(_) => res matches UrlStep::Done(r) && r@ == route_text(not_found.view()),
                None => res is Query,
            },
    {
        if !in_use {
            return UrlStep::Done(
                crate::action::Route::format_route(install.module.as_str(), install.class.as_str(), "not_found", None),
            );
        }
        let key = not_found_key_exec(lang_id);
        match cache.get(key.as_slice()) {
            Some(Data::String(u)) => UrlStep::Done(u.clone()),
            Some(_) => UrlStep::Done(route_text_exec(not_found)),
            None => UrlStep::Query,
        }
    }

    /// Ends finding the URL for "not found" with the database's answer
    /// (`None` when the query failed): a URL found is cached and returned;
    /// otherwise "nothing" is cached (not on a failure) and the route for
    /// "not found" gives the URL.
    pub fn not_found_answer(cache: &mut CacheSys, lang_id: i64, not_found: &crate::action::Route, rows: Option<Vec<Data>>) -> (res: String)
        ensures
            match rows {
                None => res@ == route_text(not_found.view()) && *final(cache) == *old(cache),
                Some(v) => match not_found_row(v@) {
                    Some(u) => res@ == u && final(cache).stored(not_found_key(lang_id)) == Some(Data::String(res)),
                    None => res@ == route_text(not_found.view()) && final(cache).stored(not_found_key(lang_id))
                        == Some(Data::Nothing),
                },
            },
    {
        let v = match rows {
            Some(v) => v,
            None => return route_text_exec(not_found),
        };
        let found: Option<String> = if v.len() == 0 {
            None
        } else {
            match &v[0] {
                Data::Vec(row) => {
                    if row.len() > 0 {
                        match &row[0] {
                            Data::String(u) => Some(u.clone()),
                            _ => None,
                        }
                    } else {
                        None
                    }
                },
                _ => None,
            }
        };
        let key = not_found_key_exec(lang_id);
        match found {
            Some(u) => {
                cache.set(key.as_slice(), Data::String(u.clone()));
                proof {
                    crate::cache::law_get_after_set(*old(cache), *cache, key@, Data::String(u));
                }
                u
            },
            None => {
                cache.set(key.as_slice(), Data::Nothing);
                proof {
                    crate::cache::law_get_after_set(*old(cache), *cache, key@, Data::Nothing);
                }
                route_text_exec(not_found)
            },
        }
    }
}

/// What a request gets when no action answered it.
#[derive(Debug)]
pub enum Fallback {
    /// Nothing more.
    Nothing,
    /// The code 404.
    NotFound,
    /// A redirect to the URL for "not found".
    Redirect,
}

impl Action {
    /// What a request gets when no action answered it (none was allowed or
    /// found): nothing for an internal call, the code 404 for an AJAX
    /// request, else a redirect to the page for "not found", unless the
    /// action asked for was that page.
    pub fn fallback(internal: bool, ajax: bool, module_id: i64, class_id: i64, action_id: i64, not_found: &crate::action::Route) -> (res: Fallback)
        ensures
            internal ==> res is Nothing,
            !internal && ajax ==> res is NotFound,
            !internal && !ajax ==> if module_id == not_found.module_id && class_id == not_found.class_id
                && action_id == not_found.action_id {
                res is Nothing
            } else {
                res is Redirect
            },
    {
        if internal {
            return Fallback::Nothing;
        }
        if ajax {
            return Fallback::NotFound;
        }
        if module_id == not_found.module_id && class_id == not_found.class_id && action_id == not_found.action_id {
            Fallback::Nothing
        } else {
            Fallback::Redirect
        }
    }
}


/// A value set under the key of a name is what `get` then gives and what
/// `take` then takes, after which nothing is under that key; the values of
/// other keys stay as they were.
pub proof fn law_set_then_get_take(before: Map<i64, Data>, after_set: Map<i64, Data>, after_take: Map<i64, Data>, key: &str, value: Data, other: i64)
    requires
        after_set == before.insert(key_of(key), value),
        after_take == after_set.remove(key_of(key)),
        other != key_of(key),
    ensures
        after_set.contains_key(key_of(key)) && after_set[key_of(key)] == value,
        !after_take.contains_key(key_of(key)),
        after_set.contains_key(other) == before.contains_key(other),
        after_set.contains_key(other) ==> after_set[other] == before[other],
        after_take.contains_key(other) == before.contains_key(other),
        after_take.contains_key(other) ==> after_take[other] == before[other],
{
}

} // verus!
