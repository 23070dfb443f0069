//! Routing: from a request URL or a stored route to the controller to run.

use vstd::prelude::*;
use vstd::string::StringExecFns;
use vstd::utf8::encode_utf8;

use crate::cache::CacheSys;
use crate::data::Data;
use crate::params::find_char;
use vstd::string::StringSliceAdditionalSpecFns;
use crate::response::Redirect;
use crate::text::push_char;
use crate::{fnv1a_64, spec_fnv1a_64};

verus! {

/// What a controller answers.
#[derive(Debug)]
pub enum Answer {
    /// Without answer.
    Nothing,
    /// Answer in the form of text.
    String(String),
    /// Answer in binary data.
    Raw(Vec<u8>),
}

/// The controller that serves a request: module, class and action, by name
/// and by the hash of the name, with an optional parameter and language.
#[derive(Debug)]
pub struct Route {
    /// Module name.
    pub module: String,
    /// Class name.
    pub class: String,
    /// Action name.
    pub action: String,
    /// Hash of the module name.
    pub module_id: i64,
    /// Hash of the class name.
    pub class_id: i64,
    /// Hash of the action name.
    pub action_id: i64,
    /// Parameter.
    pub param: Option<String>,
    /// Language.
    pub lang_id: Option<i64>,
}

} // verus!

verus! {

/// A route as a mathematical value.
pub struct RouteView {
    pub module: Seq<char>,
    pub class: Seq<char>,
    pub action: Seq<char>,
    pub module_id: i64,
    pub class_id: i64,
    pub action_id: i64,
    pub param: Option<Seq<char>>,
    pub lang_id: Option<i64>,
}

impl Route {
    pub open spec fn view(&self) -> RouteView {
        RouteView {
            module: self.module@,
            class: self.class@,
            action: self.action@,
            module_id: self.module_id,
            class_id: self.class_id,
            action_id: self.action_id,
            param: crate::request::opt_view(self.param),
            lang_id: self.lang_id,
        }
    }

    /// The route of an action by its names, with their hashes, no
    /// parameter and no language.
    pub fn new(module: &str, class: &str, action: &str) -> (res: Route)
        ensures
            res.view() == (RouteView {
                module: module@,
                class: class@,
                action: action@,
                module_id: name_hash(module@),
                class_id: name_hash(class@),
                action_id: name_hash(action@),
                param: None,
                lang_id: None,
            }),
    {
        Route {
            module: module.to_owned(),
            class: class.to_owned(),
            action: action.to_owned(),
            module_id: fnv1a_64(module.as_bytes()),
            class_id: fnv1a_64(class.as_bytes()),
            action_id: fnv1a_64(action.as_bytes()),
            param: None,
            lang_id: None,
        }
    }

    /// The language a request of this route is answered in: the route's
    /// own, else the default language.
    pub fn lang_or(&self, default: usize) -> (res: i64)
        ensures
            res == match self.lang_id {
                Some(l) => l,
                None => default as i64,
            },
    {
        match self.lang_id {
            Some(l) => l,
            None => default as i64,
        }
    }

    /// A copy of the route.
    pub fn copy(&self) -> (res: Route)
        ensures
            res.view() == self.view(),
    {
        Route {
            module: self.module.clone(),
            class: self.class.clone(),
            action: self.action.clone(),
            module_id: self.module_id,
            class_id: self.class_id,
            action_id: self.action_id,
            param: match &self.param {
                Some(p) => Some(p.clone()),
                None => None,
            },
            lang_id: self.lang_id,
        }
    }
}

impl Redirect {
    /// A copy of the redirect.
    pub fn copy(&self) -> (res: Redirect)
        ensures
            res.url@ == self.url@,
            res.permanently == self.permanently,
    {
        Redirect { url: self.url.clone(), permanently: self.permanently }
    }
}

/// `s` split at the first `n - 1` separators `c`.
pub open spec fn splitn_char(s: Seq<char>, c: char, n: nat) -> Seq<Seq<char>>
    decreases n,
{
    if n <= 1 {
        seq![s]
    } else {
        match find_char(s, 0, c) {
            None => seq![s],
            Some(p) => seq![s.subrange(0, p)] + splitn_char(s.subrange(p + 1, s.len() as int), c, (n - 1) as nat),
        }
    }
}

/// The non-empty pieces, in order.
pub open spec fn non_empty(ps: Seq<Seq<char>>) -> Seq<Seq<char>>
    decreases ps.len(),
{
    if ps.len() == 0 {
        Seq::empty()
    } else if ps[0].len() == 0 {
        non_empty(ps.drop_first())
    } else {
        seq![ps[0]] + non_empty(ps.drop_first())
    }
}

/// The segments of a URL path: its pieces between the first four `/`,
/// without the empty ones.
pub open spec fn url_segments(url: Seq<char>) -> Seq<Seq<char>> {
    non_empty(splitn_char(url, '/', 5))
}

/// The hash of a name.
pub open spec fn name_hash(s: Seq<char>) -> i64 {
    spec_fnv1a_64(encode_utf8(s))
}

/// The route a URL names: `/module/class/action/param`, with the missing
/// parts from the index route; without a database, the installer's module
/// and class with the URL's action and parameter.
pub open spec fn url_route(url: Seq<char>, in_use: bool, index: RouteView, install: RouteView) -> RouteView {
    let segs = url_segments(url);
    let k = segs.len();
    if in_use {
        if k == 1 {
            RouteView {
                module: segs[0],
                module_id: name_hash(segs[0]),
                param: None,
                lang_id: None,
                ..index
            }
        } else if k == 2 {
            RouteView {
                module: segs[0],
                class: segs[1],
                module_id: name_hash(segs[0]),
                class_id: name_hash(segs[1]),
                param: None,
                lang_id: None,
                ..index
            }
        } else if k == 3 || k == 4 {
            RouteView {
                module: segs[0],
                class: segs[1],
                action: segs[2],
                module_id: name_hash(segs[0]),
                class_id: name_hash(segs[1]),
                action_id: name_hash(segs[2]),
                param: if k == 4 {
                    Some(segs[3])
                } else {
                    None
                },
                lang_id: None,
            }
        } else {
            index
        }
    } else {
        if k == 3 || k == 4 {
            RouteView {
                action: segs[2],
                action_id: name_hash(segs[2]),
                param: if k == 4 {
                    Some(segs[3])
                } else {
                    None
                },
                lang_id: None,
                ..install
            }
        } else {
            install
        }
    }
}

proof fn lemma_splitn_step(s: Seq<char>, start: int, n: nat)
    requires
        0 <= start <= s.len(),
        n > 1,
    ensures
        splitn_char(s.subrange(start, s.len() as int), '/', n) == match find_char(s, start, '/') {
            None => seq![s.subrange(start, s.len() as int)],
            Some(p) => seq![s.subrange(start, p)] + splitn_char(s.subrange(p + 1, s.len() as int), '/', (n - 1) as nat),
        },
{
    let t = s.subrange(start, s.len() as int);
    crate::params::lemma_find_char_shift(s, start, 0, '/');
    crate::params::lemma_find_char(s, start, '/');
    match find_char(s, start, '/') {
        None => {},
        Some(p) => {
            assert(t.subrange(0, p - start) =~= s.subrange(start, p));
            assert(t.subrange(p - start + 1, t.len() as int) =~= s.subrange(p + 1, s.len() as int));
        },
    }
}

proof fn lemma_non_empty_append(a: Seq<Seq<char>>, b: Seq<Seq<char>>)
    ensures
        non_empty(a + b) == non_empty(a) + non_empty(b),
    decreases a.len(),
{
    if a.len() == 0 {
        assert(a + b =~= b);
        assert(Seq::<Seq<char>>::empty() + non_empty(b) =~= non_empty(b));
    } else {
        assert((a + b).drop_first() =~= a.drop_first() + b);
        lemma_non_empty_append(a.drop_first(), b);
        if a[0].len() > 0 {
            assert(seq![a[0]] + (non_empty(a.drop_first()) + non_empty(b)) =~= (seq![a[0]]
                + non_empty(a.drop_first())) + non_empty(b));
        }
    }
}

proof fn lemma_non_empty_one(x: Seq<char>)
    ensures
        non_empty(seq![x]) == if x.len() > 0 {
            seq![x]
        } else {
            Seq::<Seq<char>>::empty()
        },
{
    let one = seq![x];
    assert(one.len() == 1);
    assert(one[0] == x);
    assert(one.drop_first() =~= Seq::<Seq<char>>::empty());
    assert(non_empty(Seq::<Seq<char>>::empty()) == Seq::<Seq<char>>::empty());
    assert(seq![x] + Seq::<Seq<char>>::empty() =~= seq![x]);
}

/// The non-empty segments of a URL path, as the routing reads them.
fn segments(url: &str) -> (res: Vec<&str>)
    ensures
        res@.map_values(|s: &str| s@) == url_segments(url@),
{
    let n = url.unicode_len();
    let mut out: Vec<&str> = Vec::new();
    let mut start: usize = 0;
    let mut left: usize = 5;
    let ghost s = url@;
    assert(s.subrange(0, n as int) =~= s);
    assert(out@.map_values(|x: &str| x@) =~= Seq::<Seq<char>>::empty());
    assert(Seq::<Seq<char>>::empty() + url_segments(s) =~= url_segments(s));
    loop
        invariant
            n == s.len(),
            s == url@,
            start <= n,
            1 <= left <= 5,
            out@.map_values(|x: &str| x@) + non_empty(splitn_char(s.subrange(start as int, n as int), '/', left as nat))
                == url_segments(s),
        decreases n - start,
    {
        let ghost o0 = out@.map_values(|x: &str| x@);
        let found = if left > 1 {
            proof {
                lemma_splitn_step(s, start as int, left as nat);
            }
            crate::params::find_char_from(url, n, start, '/')
        } else {
            None
        };
        match found {
            None => {
                let piece = url.substring_char(start, n);
                let ghost ps = seq![piece@];
                proof {
                    lemma_non_empty_one(piece@);
                }
                assert(splitn_char(s.subrange(start as int, n as int), '/', left as nat) == ps);
                assert(ps.drop_first() =~= Seq::<Seq<char>>::empty());
                if piece.unicode_len() > 0 {
                    out.push(piece);
                    assert(out@.map_values(|x: &str| x@) =~= o0 + seq![piece@]);
                } else {
                    assert(o0 + Seq::<Seq<char>>::empty() =~= o0);
                }
                assert(out@.map_values(|x: &str| x@) =~= o0 + non_empty(ps));
                return out;
            },
            Some(p) => {
                let piece = url.substring_char(start, p);
                let ghost rest = splitn_char(s.subrange(p + 1, n as int), '/', (left - 1) as nat);
                proof {
                    lemma_non_empty_one(piece@);
                    lemma_non_empty_append(seq![piece@], rest);
                    assert(seq![piece@].drop_first() =~= Seq::<Seq<char>>::empty());
                }
                if piece.unicode_len() > 0 {
                    out.push(piece);
                    assert(out@.map_values(|x: &str| x@) =~= o0 + seq![piece@]);
                } else {
                    assert(o0 + Seq::<Seq<char>>::empty() =~= o0);
                }
                assert(out@.map_values(|x: &str| x@) + non_empty(rest) =~= o0 + (non_empty(
                    seq![piece@],
                ) + non_empty(rest)));
                start = p + 1;
                left = left - 1;
            },
        }
    }
}

fn hash_name(s: &str) -> (res: i64)
    ensures
        res == name_hash(s@),
{
    fnv1a_64(s.as_bytes())
}

impl Route {
    /// The route a URL names (see `url_route`).
    pub fn from_url(url: &str, in_use: bool, index: &Route, install: &Route) -> (res: Route)
        ensures
            res.view() == url_route(url@, in_use, index.view(), install.view()),
    {
        let segs = segments(url);
        let ghost sv = segs@.map_values(|x: &str| x@);
        let k = segs.len();
        if k >= 1 {
            assert(sv[0] == segs@[0]@);
        }
        if k >= 2 {
            assert(sv[1] == segs@[1]@);
        }
        if k >= 3 {
            assert(sv[2] == segs@[2]@);
        }
        if k >= 4 {
            assert(sv[3] == segs@[3]@);
        }
        if in_use {
            if k == 1 {
                Route {
                    module: segs[0].to_owned(),
                    class: index.class.clone(),
                    action: index.action.clone(),
                    module_id: hash_name(segs[0]),
                    class_id: index.class_id,
                    action_id: index.action_id,
                    param: None,
                    lang_id: None,
                }
            } else if k == 2 {
                Route {
                    module: segs[0].to_owned(),
                    class: segs[1].to_owned(),
                    action: index.action.clone(),
                    module_id: hash_name(segs[0]),
                    class_id: hash_name(segs[1]),
                    action_id: index.action_id,
                    param: None,
                    lang_id: None,
                }
            } else if k == 3 || k == 4 {
                Route {
                    module: segs[0].to_owned(),
                    class: segs[1].to_owned(),
                    action: segs[2].to_owned(),
                    module_id: hash_name(segs[0]),
                    class_id: hash_name(segs[1]),
                    action_id: hash_name(segs[2]),
                    param: if k == 4 {
                        Some(segs[3].to_owned())
                    } else {
                        None
                    },
                    lang_id: None,
                }
            } else {
                index.copy()
            }
        } else {
            if k == 3 || k == 4 {
                Route {
                    module: install.module.clone(),
                    class: install.class.clone(),
                    action: segs[2].to_owned(),
                    module_id: install.module_id,
                    class_id: install.class_id,
                    action_id: hash_name(segs[2]),
                    param: if k == 4 {
                        Some(segs[3].to_owned())
                    } else {
                        None
                    },
                    lang_id: None,
                }
            } else {
                install.copy()
            }
        }
    }

    /// The URL of a route: `/module/class/action`, then `/param` when given.
    pub fn format_route(module: &str, class: &str, action: &str, param: Option<&str>) -> (res: String)
        ensures
            res@ == seq!['/'] + module@ + seq!['/'] + class@ + seq!['/'] + action@ + match param {
                Some(p) => seq!['/'] + p@,
                None => Seq::<char>::empty(),
            },
    {
        let mut out = String::new();
        push_char(&mut out, '/');
        out.append(module);
        push_char(&mut out, '/');
        out.append(class);
        push_char(&mut out, '/');
        out.append(action);
        match param {
            Some(p) => {
                push_char(&mut out, '/');
                out.append(p);
            },
            None => {},
        }
        assert(out@ =~= seq!['/'] + module@ + seq!['/'] + class@ + seq!['/'] + action@ + match param {
            Some(p) => seq!['/'] + p@,
            None => Seq::<char>::empty(),
        });
        out
    }
}

} // verus!

verus! {

/// What a database answer gives.
pub enum RowDecode<T> {
    /// No row.
    Empty,
    /// A row of the expected shape.
    Found(T),
    /// A row of another shape.
    Bad,
}

/// The redirect a database answer holds: one row of a URL and a flag.
pub open spec fn redirect_row(rows: Seq<Data>) -> RowDecode<(Seq<char>, bool)> {
    if rows.len() == 0 {
        RowDecode::Empty
    } else {
        match rows[0] {
            Data::Vec(row) => if row@.len() == 2 {
                match (row@[0], row@[1]) {
                    (Data::String(url), Data::Bool(p)) => RowDecode::Found((url@, p)),
                    _ => RowDecode::Bad,
                }
            } else {
                RowDecode::Bad
            },
            _ => RowDecode::Bad,
        }
    }
}

/// The route a database answer holds: one row of module, class and action
/// names, their three ids, an optional parameter (empty means none) and an
/// optional language.
pub open spec fn route_row(rows: Seq<Data>) -> RowDecode<RouteView> {
    if rows.len() == 0 {
        RowDecode::Empty
    } else {
        match rows[0] {
            Data::Vec(row) => {
                let r = row@;
                if r.len() != 8 {
                    RowDecode::Bad
                } else {
                    match (r[0], r[1], r[2], r[3], r[4], r[5]) {
                        (
                            Data::String(m),
                            Data::String(c),
                            Data::String(a),
                            Data::I64(mi),
                            Data::I64(ci),
                            Data::I64(ai),
                        ) => {
                            let param = match r[6] {
                                Data::Nothing => Some(None),
                                Data::String(p) => Some(
                                    if p@.len() == 0 {
                                        None
                                    } else {
                                        Some(p@)
                                    },
                                ),
                                _ => None,
                            };
                            let lang = match r[7] {
                                Data::Nothing => Some(None),
                                Data::I64(l) => Some(Some(l)),
                                _ => None,
                            };
                            match (param, lang) {
                                (Some(p), Some(l)) => RowDecode::Found(
                                    RouteView {
                                        module: m@,
                                        class: c@,
                                        action: a@,
                                        module_id: mi,
                                        class_id: ci,
                                        action_id: ai,
                                        param: p,
                                        lang_id: l,
                                    },
                                ),
                                _ => RowDecode::Bad,
                            }
                        },
                        _ => RowDecode::Bad,
                    }
                }
            },
            _ => RowDecode::Bad,
        }
    }
}

fn decode_redirect(rows: &Vec<Data>) -> (res: RowDecode<Redirect>)
    ensures
        match redirect_row(rows@) {
            RowDecode::Empty => res is Empty,
            RowDecode::Bad => res is Bad,
            RowDecode::Found((u, p)) => res matches RowDecode::Found(r) && r.url@ == u && r.permanently == p,
        },
{
    if rows.len() == 0 {
        return RowDecode::Empty;
    }
    match &rows[0] {
        Data::Vec(row) => {
            if row.len() != 2 {
                return RowDecode::Bad;
            }
            match (&row[0], &row[1]) {
                (Data::String(url), Data::Bool(p)) => RowDecode::Found(
                    Redirect { url: url.clone(), permanently: *p },
                ),
                _ => RowDecode::Bad,
            }
        },
        _ => RowDecode::Bad,
    }
}

fn decode_route(rows: &Vec<Data>) -> (res: RowDecode<Route>)
    ensures
        match route_row(rows@) {
            RowDecode::Empty => res is Empty,
            RowDecode::Bad => res is Bad,
            RowDecode::Found(v) => res matches RowDecode::Found(r) && r.view() == v,
        },
{
    if rows.len() == 0 {
        return RowDecode::Empty;
    }
    let row = match &rows[0] {
        Data::Vec(row) => row,
        _ => return RowDecode::Bad,
    };
    if row.len() != 8 {
        return RowDecode::Bad;
    }
    let module = match &row[0] {
        Data::String(s) => s.clone(),
        _ => return RowDecode::Bad,
    };
    let class = match &row[1] {
        Data::String(s) => s.clone(),
        _ => return RowDecode::Bad,
    };
    let action = match &row[2] {
        Data::String(s) => s.clone(),
        _ => return RowDecode::Bad,
    };
    let param = match &row[6] {
        Data::Nothing => None,
        Data::String(p) => {
            if p.as_str().unicode_len() == 0 {
                None
            } else {
                Some(p.clone())
            }
        },
        _ => return RowDecode::Bad,
    };
    let module_id = match &row[3] {
        Data::I64(i) => *i,
        _ => return RowDecode::Bad,
    };
    let class_id = match &row[4] {
        Data::I64(i) => *i,
        _ => return RowDecode::Bad,
    };
    let action_id = match &row[5] {
        Data::I64(i) => *i,
        _ => return RowDecode::Bad,
    };
    let lang_id = match &row[7] {
        Data::Nothing => None,
        Data::I64(l) => Some(*l),
        _ => return RowDecode::Bad,
    };
    RowDecode::Found(Route { module, class, action, module_id, class_id, action_id, param, lang_id })
}

/// The cache path of a URL's redirect.
pub open spec fn redirect_key(url: Seq<char>) -> Seq<i64> {
    seq![spec_fnv1a_64("redirect".spec_bytes()), spec_fnv1a_64(encode_utf8(url))]
}

/// The cache path of a URL's route.
pub open spec fn route_key(url: Seq<char>) -> Seq<i64> {
    seq![spec_fnv1a_64("route".spec_bytes()), spec_fnv1a_64(encode_utf8(url))]
}

fn make_key(prefix: &str, url: &str) -> (res: Vec<i64>)
    ensures
        res@ == seq![spec_fnv1a_64(prefix.spec_bytes()), spec_fnv1a_64(encode_utf8(url@))],
{
    let mut v: Vec<i64> = Vec::new();
    v.push(fnv1a_64(prefix.as_bytes()));
    v.push(fnv1a_64(url.as_bytes()));
    assert(v@ =~= seq![spec_fnv1a_64(prefix.spec_bytes()), spec_fnv1a_64(encode_utf8(url@))]);
    v
}

/// The database query that routing waits for.
pub enum RouteQuery {
    /// `lib_get_redirect` with the URL.
    Redirect,
    /// `lib_get_route` with the URL.
    Route,
}

/// The next step of routing: a query to run, or the route (or redirect).
pub enum RouteStep {
    Query(RouteQuery),
    Done(Result<Route, Redirect>),
}

/// The next step of routing as a mathematical value.
pub enum StepView {
    Query(RouteQuery),
    Route(RouteView),
    Redirect(Seq<char>, bool),
}

pub open spec fn step_view(s: RouteStep) -> StepView {
    match s {
        RouteStep::Query(q) => StepView::Query(q),
        RouteStep::Done(Ok(r)) => StepView::Route(r.view()),
        RouteStep::Done(Err(r)) => StepView::Redirect(r.url@, r.permanently),
    }
}

/// Routing once no redirect applies: a cached route, the URL's own route
/// when the cache holds anything else, else the route query.
pub open spec fn after_redirect(route_entry: Option<Data>, url: Seq<char>, index: RouteView, install: RouteView) -> StepView {
    match route_entry {
        Some(Data::Route(r)) => StepView::Route(r.view()),
        Some(_) => StepView::Route(url_route(url, true, index, install)),
        None => StepView::Query(RouteQuery::Route),
    }
}

/// Where routing starts: without a database, the URL's route; else a cached
/// redirect, or (when the cache holds anything else for it) what comes
/// after redirects; else the redirect query.
pub open spec fn route_start_view(
    redirect_entry: Option<Data>,
    route_entry: Option<Data>,
    url: Seq<char>,
    in_use: bool,
    index: RouteView,
    install: RouteView,
) -> StepView {
    if !in_use {
        StepView::Route(url_route(url, false, index, install))
    } else {
        match redirect_entry {
            Some(Data::Redirect(r)) => StepView::Redirect(r.url@, r.permanently),
            Some(_) => after_redirect(route_entry, url, index, install),
            None => StepView::Query(RouteQuery::Redirect),
        }
    }
}

impl Route {
    fn after_redirect_exec(cache: &CacheSys, url: &str, index: &Route, install: &Route) -> (res: RouteStep)
        ensures
            step_view(res) == after_redirect(cache.stored(route_key(url@)), url@, index.view(), install.view()),
    {
        let key = make_key("route", url);
        match cache.get(key.as_slice()) {
            Some(Data::Route(r)) => RouteStep::Done(Ok(r.copy())),
            Some(_) => RouteStep::Done(Ok(Route::from_url(url, true, index, install))),
            None => RouteStep::Query(RouteQuery::Route),
        }
    }

    /// Starts routing a request (see `route_start_view`).
    pub fn route_start(cache: &CacheSys, url: &str, in_use: bool, index: &Route, install: &Route) -> (res: RouteStep)
        ensures
            step_view(res) == route_start_view(
                cache.stored(redirect_key(url@)),
                cache.stored(route_key(url@)),
                url@,
                in_use,
                index.view(),
                install.view(),
            ),
    {
        if !in_use {
            return RouteStep::Done(Ok(Route::from_url(url, false, index, install)));
        }
        let key = make_key("redirect", url);
        match cache.get(key.as_slice()) {
            Some(Data::Redirect(r)) => RouteStep::Done(Err(r.copy())),
            Some(_) => Route::after_redirect_exec(cache, url, index, install),
            None => RouteStep::Query(RouteQuery::Redirect),
        }
    }

    /// Goes on with routing once the redirect query answered (`None` when it
    /// failed): a failure or a row of another shape gives the error route;
    /// no row is cached as "no redirect"; a redirect is cached and returned.
    pub fn route_redirect_answer(
        cache: &mut CacheSys,
        url: &str,
        rows: Option<Vec<Data>>,
        index: &Route,
        install: &Route,
        err: &Route,
    ) -> (res: RouteStep)
        ensures
            match rows {
                None => step_view(res) == StepView::Route(err.view()),
                Some(v) => match redirect_row(v@) {
                    RowDecode::Bad => step_view(res) == StepView::Route(err.view())
                        && *final(cache) == *old(cache),
                    RowDecode::Empty => {
                        &&& final(cache).stored(redirect_key(url@)) == Some(Data::Nothing)
                        &&& forall|p: Seq<i64>| #[trigger] final(cache).stored(p) == crate::cache::after_set(
                            old(cache).stored(p),
                            redirect_key(url@),
                            p,
                            Data::Nothing,
                        )
                        &&& step_view(res) == after_redirect(
                            final(cache).stored(route_key(url@)),
                            url@,
                            index.view(),
                            install.view(),
                        )
                    },
                    RowDecode::Found((u, p)) => {
                        &&& final(cache).stored(redirect_key(url@)) matches Some(Data::Redirect(r))
                            && r.url@ == u && r.permanently == p
                        &&& step_view(res) == StepView::Redirect(u, p)
                    },
                },
            },
    {
        let v = match rows {
            Some(v) => v,
            None => return RouteStep::Done(Ok(err.copy())),
        };
        match decode_redirect(&v) {
            RowDecode::Empty => {
                let key = make_key("redirect", url);
                cache.set(key.as_slice(), Data::Nothing);
                proof {
                    crate::cache::law_get_after_set(*old(cache), *cache, key@, Data::Nothing);
                }
                Route::after_redirect_exec(cache, url, index, install)
            },
            RowDecode::Found(r) => {
                let key = make_key("redirect", url);
                let ghost rv = r;
                cache.set(key.as_slice(), Data::Redirect(r.copy()));
                proof {
                    assert(cache.stored(key@) is Some);
                }
                RouteStep::Done(Err(r))
            },
            RowDecode::Bad => RouteStep::Done(Ok(err.copy())),
        }
    }

    /// Goes on with routing once the route query answered (`None` when it
    /// failed): a failure or a row of another shape gives the error route;
    /// no row is cached as "no route" and gives the URL's own route; a route
    /// is cached and returned.
    pub fn route_route_answer(
        cache: &mut CacheSys,
        url: &str,
        rows: Option<Vec<Data>>,
        index: &Route,
        install: &Route,
        err: &Route,
    ) -> (res: RouteStep)
        ensures
            match rows {
                None => step_view(res) == StepView::Route(err.view()),
                Some(v) => match route_row(v@) {
                    RowDecode::Bad => step_view(res) == StepView::Route(err.view())
                        && *final(cache) == *old(cache),
                    RowDecode::Empty => {
                        &&& final(cache).stored(route_key(url@)) == Some(Data::Nothing)
                        &&& step_view(res) == StepView::Route(url_route(url@, true, index.view(), install.view()))
                    },
                    RowDecode::Found(rv) => {
                        &&& final(cache).stored(route_key(url@)) matches Some(Data::Route(r)) && r.view() == rv
                        &&& step_view(res) == StepView::Route(rv)
                    },
                },
            },
    {
        let v = match rows {
            Some(v) => v,
            None => return RouteStep::Done(Ok(err.copy())),
        };
        match decode_route(&v) {
            RowDecode::Empty => {
                let key = make_key("route", url);
                cache.set(key.as_slice(), Data::Nothing);
                proof {
                    crate::cache::law_get_after_set(*old(cache), *cache, key@, Data::Nothing);
                }
                RouteStep::Done(Ok(Route::from_url(url, true, index, install)))
            },
            RowDecode::Found(r) => {
                let key = make_key("route", url);
                cache.set(key.as_slice(), Data::Route(r.copy()));
                RouteStep::Done(Ok(r))
            },
            RowDecode::Bad => RouteStep::Done(Ok(err.copy())),
        }
    }
}

} // verus!

verus! {

/// The URL that `format_route` writes for a route's names.
pub open spec fn route_url(m: Seq<char>, c: Seq<char>, a: Seq<char>, p: Option<Seq<char>>) -> Seq<char> {
    seq!['/'] + m + seq!['/'] + c + seq!['/'] + a + match p {
        Some(p) => seq!['/'] + p,
        None => Seq::<char>::empty(),
    }
}

/// A name that can stand between two `/` of a URL.
pub open spec fn url_name(s: Seq<char>) -> bool {
    s.len() > 0 && !s.contains('/')
}

proof fn lemma_find_slash(x: Seq<char>, y: Seq<char>, i: int)
    requires
        !x.contains('/'),
        0 <= i <= x.len(),
    ensures
        find_char(x + seq!['/'] + y, i, '/') == Some(x.len() as int),
    decreases x.len() - i,
{
    let s = x + seq!['/'] + y;
    if i < x.len() {
        assert(s[i] == x[i]);
        if s[i] == '/' {
            assert(x.contains('/'));
        }
        lemma_find_slash(x, y, i + 1);
    } else {
        assert(s[i] == '/');
    }
}

proof fn lemma_no_slash(x: Seq<char>, i: int)
    requires
        !x.contains('/'),
        0 <= i,
    ensures
        find_char(x, i, '/') is None,
    decreases x.len() - i,
{
    if i < x.len() {
        if x[i] == '/' {
            assert(x.contains('/'));
        }
        lemma_no_slash(x, i + 1);
    }
}

proof fn lemma_split_head(x: Seq<char>, y: Seq<char>, n: nat)
    requires
        !x.contains('/'),
        n > 1,
    ensures
        splitn_char(x + seq!['/'] + y, '/', n) == seq![x] + splitn_char(y, '/', (n - 1) as nat),
{
    let s = x + seq!['/'] + y;
    lemma_find_slash(x, y, 0);
    assert(s.subrange(0, x.len() as int) =~= x);
    assert(s.subrange(x.len() as int + 1, s.len() as int) =~= y);
}

/// What `from_url` reads from the URL that `format_route` writes is the
/// route itself: its names, their hashes and the parameter, for names that
/// hold no `/` and a non-empty parameter.
pub proof fn law_route_url_round_trip(
    m: Seq<char>,
    c: Seq<char>,
    a: Seq<char>,
    p: Option<Seq<char>>,
    index: RouteView,
    install: RouteView,
)
    requires
        url_name(m),
        url_name(c),
        url_name(a),
        p matches Some(q) ==> q.len() > 0,
    ensures
        url_route(route_url(m, c, a, p), true, index, install) == (RouteView {
            module: m,
            class: c,
            action: a,
            module_id: name_hash(m),
            class_id: name_hash(c),
            action_id: name_hash(a),
            param: p,
            lang_id: None,
        }),
{
    let tail = match p {
        Some(q) => seq!['/'] + q,
        None => Seq::<char>::empty(),
    };
    let url = route_url(m, c, a, p);
    assert(url =~= Seq::<char>::empty() + seq!['/'] + (m + seq!['/'] + (c + seq!['/'] + (a + tail))));
    assert(!Seq::<char>::empty().contains('/'));
    lemma_split_head(Seq::<char>::empty(), m + seq!['/'] + (c + seq!['/'] + (a + tail)), 5);
    lemma_split_head(m, c + seq!['/'] + (a + tail), 4);
    lemma_split_head(c, a + tail, 3);
    let pieces = match p {
        Some(q) => {
            assert(a + tail =~= a + seq!['/'] + q);
            lemma_split_head(a, q, 2);
            assert(splitn_char(q, '/', 1) == seq![q]);
            seq![Seq::<char>::empty(), m, c, a, q]
        },
        None => {
            assert(a + tail =~= a);
            lemma_no_slash(a, 0);
            seq![Seq::<char>::empty(), m, c, a]
        },
    };
    assert(splitn_char(url, '/', 5) =~= pieces);
    let segs = url_segments(url);
    reveal_with_fuel(non_empty, 6);
    match p {
        Some(q) => {
            assert(pieces.drop_first() =~= seq![m, c, a, q]);
            assert(seq![m, c, a, q].drop_first() =~= seq![c, a, q]);
            assert(seq![c, a, q].drop_first() =~= seq![a, q]);
            assert(seq![a, q].drop_first() =~= seq![q]);
            assert(seq![q].drop_first() =~= Seq::<Seq<char>>::empty());
            assert(segs =~= seq![m, c, a, q]);
        },
        None => {
            assert(pieces.drop_first() =~= seq![m, c, a]);
            assert(seq![m, c, a].drop_first() =~= seq![c, a]);
            assert(seq![c, a].drop_first() =~= seq![a]);
            assert(seq![a].drop_first() =~= Seq::<Seq<char>>::empty());
            assert(segs =~= seq![m, c, a]);
        },
    }
}

/// Whether the hashes of a route are those of its names.
pub open spec fn ids_match(r: RouteView) -> bool {
    &&& r.module_id == name_hash(r.module)
    &&& r.class_id == name_hash(r.class)
    &&& r.action_id == name_hash(r.action)
}

/// Routing a URL keeps each hash with its name: where the index and
/// installer routes have the hashes of their names, so has the route of
/// every URL, whichever names it takes from the URL.
pub proof fn law_url_route_ids(url: Seq<char>, in_use: bool, index: RouteView, install: RouteView)
    requires
        ids_match(index),
        ids_match(install),
    ensures
        ids_match(url_route(url, in_use, index, install)),
{
    let segs = url_segments(url);
    let r = url_route(url, in_use, index, install);
    if in_use {
        if segs.len() == 1 {
            assert(r.module == segs[0] && r.class == index.class && r.action == index.action);
        } else if segs.len() == 2 {
            assert(r.module == segs[0] && r.class == segs[1] && r.action == index.action);
        } else if segs.len() == 3 || segs.len() == 4 {
            assert(r.module == segs[0] && r.class == segs[1] && r.action == segs[2]);
        }
    } else if segs.len() == 3 || segs.len() == 4 {
        assert(r.module == install.module && r.class == install.class && r.action == segs[2]);
    }
}

} // verus!
