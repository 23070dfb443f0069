use tiny_web::action::{Route, RouteQuery, RouteStep};
use tiny_web::cache::CacheSys;
use tiny_web::data::Data;
use tiny_web::fnv1a_64;
use tiny_web::response::Redirect;

fn route(m: &str, c: &str, a: &str) -> Route {
    Route {
        module: m.to_string(),
        class: c.to_string(),
        action: a.to_string(),
        module_id: fnv1a_64(m.as_bytes()),
        class_id: fnv1a_64(c.as_bytes()),
        action_id: fnv1a_64(a.as_bytes()),
        param: None,
        lang_id: None,
    }
}

fn names(r: &Route) -> (String, String, String, Option<String>) {
    (r.module.clone(), r.class.clone(), r.action.clone(), r.param.clone())
}

fn t(m: &str, c: &str, a: &str, p: Option<&str>) -> (String, String, String, Option<String>) {
    (m.to_string(), c.to_string(), a.to_string(), p.map(|x| x.to_string()))
}

#[test]
fn url_with_all_parts() {
    let idx = route("index", "index", "index");
    let ins = route("index", "install", "index");
    let r = Route::from_url("/blog/post/view/42", true, &idx, &ins);
    assert_eq!(names(&r), t("blog", "post", "view", Some("42")));
    assert_eq!(r.module_id, fnv1a_64(b"blog"));
    assert_eq!(r.action_id, fnv1a_64(b"view"));
    let r = Route::from_url("/a/b/c/d/e", true, &idx, &ins);
    assert_eq!(names(&r), t("a", "b", "c", Some("d/e")));
}

#[test]
fn url_missing_parts_come_from_index() {
    let idx = route("index", "index", "index");
    let ins = route("index", "install", "index");
    assert_eq!(names(&Route::from_url("/blog", true, &idx, &ins)), t("blog", "index", "index", None));
    assert_eq!(names(&Route::from_url("/blog/post", true, &idx, &ins)), t("blog", "post", "index", None));
    assert_eq!(names(&Route::from_url("/", true, &idx, &ins)), t("index", "index", "index", None));
    assert_eq!(names(&Route::from_url("//blog//post/", true, &idx, &ins)), t("blog", "post/", "index", None));
}

#[test]
fn without_database_the_installer_answers() {
    let idx = route("index", "index", "index");
    let ins = route("index", "install", "index");
    assert_eq!(names(&Route::from_url("/x/y/save/2", false, &idx, &ins)), t("index", "install", "save", Some("2")));
    assert_eq!(names(&Route::from_url("/x", false, &idx, &ins)), t("index", "install", "index", None));
}

#[test]
fn format_route_builds_url() {
    assert_eq!(Route::format_route("a", "b", "c", None), "/a/b/c");
    assert_eq!(Route::format_route("a", "b", "c", Some("7")), "/a/b/c/7");
}

#[test]
fn routing_without_database_is_immediate() {
    let idx = route("index", "index", "index");
    let ins = route("index", "install", "index");
    let cache = CacheSys::new();
    match Route::route_start(&cache, "/m/c/a", false, &idx, &ins) {
        RouteStep::Done(Ok(r)) => assert_eq!(names(&r), t("index", "install", "a", None)),
        _ => panic!("expected a route"),
    }
}

#[test]
fn routing_asks_database_then_caches() {
    let idx = route("index", "index", "index");
    let ins = route("index", "install", "index");
    let err = route("index", "index", "not_found");
    let mut cache = CacheSys::new();
    assert!(matches!(Route::route_start(&cache, "/x", true, &idx, &ins), RouteStep::Query(RouteQuery::Redirect)));
    let step = Route::route_redirect_answer(&mut cache, "/x", Some(Vec::new()), &idx, &ins, &err);
    assert!(matches!(step, RouteStep::Query(RouteQuery::Route)));
    let row = Data::Vec(vec![
        Data::String("shop".to_string()),
        Data::String("cart".to_string()),
        Data::String("show".to_string()),
        Data::I64(1),
        Data::I64(2),
        Data::I64(3),
        Data::String(String::new()),
        Data::I64(5),
    ]);
    match Route::route_route_answer(&mut cache, "/x", Some(vec![row]), &idx, &ins, &err) {
        RouteStep::Done(Ok(r)) => {
            assert_eq!(names(&r), t("shop", "cart", "show", None));
            assert_eq!((r.module_id, r.class_id, r.action_id, r.lang_id), (1, 2, 3, Some(5)));
        }
        _ => panic!("expected a route"),
    }
    match Route::route_start(&cache, "/x", true, &idx, &ins) {
        RouteStep::Done(Ok(r)) => assert_eq!(names(&r), t("shop", "cart", "show", None)),
        _ => panic!("expected the cached route"),
    }
}

#[test]
fn redirect_is_cached() {
    let idx = route("index", "index", "index");
    let ins = route("index", "install", "index");
    let err = route("index", "index", "not_found");
    let mut cache = CacheSys::new();
    let row = Data::Vec(vec![Data::String("/new".to_string()), Data::Bool(true)]);
    match Route::route_redirect_answer(&mut cache, "/old", Some(vec![row]), &idx, &ins, &err) {
        RouteStep::Done(Err(r)) => assert_eq!((r.url.as_str(), r.permanently), ("/new", true)),
        _ => panic!("expected a redirect"),
    }
    match Route::route_start(&cache, "/old", true, &idx, &ins) {
        RouteStep::Done(Err(r)) => assert_eq!(r.url, "/new"),
        _ => panic!("expected the cached redirect"),
    }
}

#[test]
fn failed_or_malformed_answers_give_error_route() {
    let idx = route("index", "index", "index");
    let ins = route("index", "install", "index");
    let err = route("index", "index", "not_found");
    let mut cache = CacheSys::new();
    match Route::route_redirect_answer(&mut cache, "/x", None, &idx, &ins, &err) {
        RouteStep::Done(Ok(r)) => assert_eq!(r.action, "not_found"),
        _ => panic!("expected the error route"),
    }
    let bad = Data::Vec(vec![Data::I64(1)]);
    match Route::route_route_answer(&mut cache, "/x", Some(vec![bad]), &idx, &ins, &err) {
        RouteStep::Done(Ok(r)) => assert_eq!(r.action, "not_found"),
        _ => panic!("expected the error route"),
    }
}

#[test]
fn route_answer_without_row_uses_url() {
    let idx = route("index", "index", "index");
    let ins = route("index", "install", "index");
    let err = route("index", "index", "not_found");
    let mut cache = CacheSys::new();
    match Route::route_route_answer(&mut cache, "/m/c", Some(Vec::new()), &idx, &ins, &err) {
        RouteStep::Done(Ok(r)) => assert_eq!(names(&r), t("m", "c", "index", None)),
        _ => panic!("expected the URL's route"),
    }
    match Route::route_start(&cache, "/m/c", true, &idx, &ins) {
        RouteStep::Query(RouteQuery::Redirect) => {}
        _ => panic!("redirect still unknown"),
    }
}

#[test]
fn copies_keep_fields() {
    let r = Redirect { url: "/a".to_string(), permanently: false };
    let c = r.copy();
    assert_eq!(c.url, "/a");
    assert!(!c.permanently);
    let mut x = route("a", "b", "c");
    x.param = Some("p".to_string());
    let y = x.copy();
    assert_eq!(names(&y), t("a", "b", "c", Some("p")));
}

#[test]
fn formatted_url_reads_back() {
    let idx = route("index", "index", "index");
    let ins = route("index", "install", "index");
    let url = Route::format_route("shop", "cart", "add", Some("7/x"));
    let r = Route::from_url(&url, true, &idx, &ins);
    assert_eq!(names(&r), t("shop", "cart", "add", Some("7/x")));
    assert_eq!((r.module_id, r.class_id, r.action_id), (fnv1a_64(b"shop"), fnv1a_64(b"cart"), fnv1a_64(b"add")));
    let url = Route::format_route("shop", "cart", "add", None);
    assert_eq!(names(&Route::from_url(&url, true, &idx, &ins)), t("shop", "cart", "add", None));
}

#[test]
fn route_by_names_and_its_language() {
    let r = Route::new("blog", "post", "view");
    assert_eq!(r.module_id, fnv1a_64(b"blog"));
    assert_eq!(r.class_id, fnv1a_64(b"post"));
    assert_eq!(r.action_id, fnv1a_64(b"view"));
    assert!(r.param.is_none() && r.lang_id.is_none());
    assert_eq!(r.lang_or(3), 3);
    let mut r = r;
    r.lang_id = Some(7);
    assert_eq!(r.lang_or(3), 7);
}
