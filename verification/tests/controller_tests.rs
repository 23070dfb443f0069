use std::collections::BTreeMap;

use tiny_web::action::Answer;
use tiny_web::cache::CacheSys;
use tiny_web::controller::{AccessStep, Action, Fallback, UrlStep};
use tiny_web::data::Data;
use tiny_web::fnv1a_64;
use tiny_web::html::get_view;

fn text(d: Option<&Data>) -> Option<String> {
    match d {
        Some(Data::String(s)) => Some(s.clone()),
        _ => None,
    }
}

fn lang() -> BTreeMap<i64, String> {
    let mut l = BTreeMap::new();
    l.insert(fnv1a_64(b"hello"), "Привіт".to_string());
    l
}

#[test]
fn values_set_get_take() {
    let mut a = Action::new(None, None);
    assert!(a.get("x").is_none());
    a.set("x", Data::I64(5));
    assert!(matches!(a.get("x"), Some(Data::I64(5))));
    a.set("x", Data::I64(6));
    assert!(matches!(a.take("x"), Some(Data::I64(6))));
    assert!(a.get("x").is_none());
    assert!(a.take("x").is_none());
}

#[test]
fn translations_fall_back_to_text() {
    let a = Action::new(Some(lang()), None);
    assert_eq!(a.lang("hello"), "Привіт");
    assert_eq!(a.lang("bye"), "bye");
    let b = Action::new(None, None);
    assert_eq!(b.lang("hello"), "hello");
}

#[test]
fn set_lang_values() {
    let mut a = Action::new(Some(lang()), None);
    a.set("keep", Data::I64(1));
    a.set_lang("hello");
    assert_eq!(text(a.get("hello")).as_deref(), Some("Привіт"));
    a.set_lang_arr(&["bye", "hello"]);
    assert_eq!(text(a.get("bye")).as_deref(), Some("bye"));
    assert!(matches!(a.get("keep"), Some(Data::I64(1))));
}

#[test]
fn render_moves_assets_into_values() {
    let mut nodes = Vec::new();
    get_view("{%? ok %}<b>{% name %}</b>{%?%}[{%@ css %}{% href %}{%@%}]", &mut nodes);
    let mut html = BTreeMap::new();
    html.insert(fnv1a_64(b"page"), nodes);
    let mut a = Action::new(None, Some(html));
    a.set("ok", Data::Bool(true));
    a.set("name", Data::String("Ann".to_string()));
    a.response.css.push("a.css".to_string());
    match a.render("page") {
        Answer::String(s) => assert_eq!(s, "<b>Ann</b>[]"),
        _ => panic!("expected text"),
    }
    assert!(a.response.css.is_empty());
    assert!(matches!(a.get("css"), Some(Data::Vec(v)) if v.len() == 1));
    assert!(matches!(a.render("missing"), Answer::Nothing));
}

#[test]
fn access_without_database_is_granted() {
    let cache = CacheSys::new();
    assert!(matches!(Action::access_start(&cache, false, 1, 2, 3, 4), AccessStep::Done(true)));
    assert!(matches!(Action::access_start(&cache, true, 1, 2, 3, 4), AccessStep::Query));
}

#[test]
fn access_answers_are_cached() {
    let mut cache = CacheSys::new();
    assert!(Action::access_answer(&mut cache, 1, 2, 3, 4, Some(vec![Data::Vec(vec![Data::I32(1)])])));
    assert!(matches!(Action::access_start(&cache, true, 1, 2, 3, 4), AccessStep::Done(true)));
    assert!(!Action::access_answer(&mut cache, 9, 2, 3, 4, Some(vec![])));
    assert!(matches!(Action::access_start(&cache, true, 9, 2, 3, 4), AccessStep::Done(false)));
    assert!(!Action::access_answer(&mut cache, 7, 2, 3, 4, Some(vec![Data::Vec(vec![Data::I64(1)])])));
    assert!(matches!(Action::access_start(&cache, true, 7, 2, 3, 4), AccessStep::Query));
    assert!(!Action::access_answer(&mut cache, 7, 2, 3, 4, None));
    assert!(!Action::access_answer(&mut cache, 8, 2, 3, 4, Some(vec![Data::Vec(vec![Data::I32(0)])])));
    assert!(matches!(Action::access_start(&cache, true, 8, 2, 3, 4), AccessStep::Done(false)));
}

fn nf_route() -> tiny_web::action::Route {
    tiny_web::action::Route {
        module: "index".to_string(),
        class: "index".to_string(),
        action: "not_found".to_string(),
        module_id: 0,
        class_id: 0,
        action_id: 0,
        param: None,
        lang_id: None,
    }
}

#[test]
fn urls_of_routes() {
    let mut cache = CacheSys::new();
    assert!(matches!(Action::url_start(&cache, false, "a", "b", "c", Some("1"), None), UrlStep::Done(ref u) if u == "/a/b/c/1"));
    assert!(matches!(Action::url_start(&cache, true, "a", "b", "c", None, Some(2)), UrlStep::Query));
    let u = Action::url_answer(&mut cache, "a", "b", "c", None, Some(2), Some(vec![Data::Vec(vec![Data::String("/nice".to_string())])]));
    assert_eq!(u, "/nice");
    assert!(matches!(Action::url_start(&cache, true, "a", "b", "c", None, Some(2)), UrlStep::Done(ref u) if u == "/nice"));
    let u = Action::url_answer(&mut cache, "a", "b", "c", None, None, Some(vec![]));
    assert_eq!(u, "/a/b/c");
    assert!(matches!(Action::url_start(&cache, true, "a", "b", "c", None, None), UrlStep::Done(ref u) if u == "/a/b/c"));
    let u = Action::url_answer(&mut cache, "x", "y", "z", None, None, Some(vec![Data::I64(1)]));
    assert_eq!(u, "/x/y/z");
    assert!(matches!(Action::url_start(&cache, true, "x", "y", "z", None, None), UrlStep::Query));
}

#[test]
fn not_found_urls() {
    let nf = nf_route();
    let mut install = nf_route();
    install.class = "install".to_string();
    let mut cache = CacheSys::new();
    assert!(matches!(Action::not_found_start(&cache, false, 1, &nf, &install), UrlStep::Done(ref u) if u == "/index/install/not_found"));
    assert!(matches!(Action::not_found_start(&cache, true, 1, &nf, &install), UrlStep::Query));
    assert_eq!(Action::not_found_answer(&mut cache, 1, &nf, Some(vec![])), "/index/index/not_found");
    assert!(matches!(Action::not_found_start(&cache, true, 1, &nf, &install), UrlStep::Done(ref u) if u == "/index/index/not_found"));
    let row = Data::Vec(vec![Data::String("/404".to_string())]);
    assert_eq!(Action::not_found_answer(&mut cache, 2, &nf, Some(vec![row])), "/404");
    assert!(matches!(Action::not_found_start(&cache, true, 2, &nf, &install), UrlStep::Done(ref u) if u == "/404"));
    assert_eq!(Action::not_found_answer(&mut cache, 3, &nf, None), "/index/index/not_found");
}

#[test]
fn fallbacks() {
    let mut nf = nf_route();
    nf.module_id = 1;
    nf.class_id = 2;
    nf.action_id = 3;
    assert!(matches!(Action::fallback(true, true, 9, 9, 9, &nf), Fallback::Nothing));
    assert!(matches!(Action::fallback(false, true, 9, 9, 9, &nf), Fallback::NotFound));
    assert!(matches!(Action::fallback(false, false, 9, 9, 9, &nf), Fallback::Redirect));
    assert!(matches!(Action::fallback(false, false, 1, 2, 3, &nf), Fallback::Nothing));
    assert!(matches!(Action::fallback(false, false, 1, 2, 4, &nf), Fallback::Redirect));
}

#[test]
fn load_keeps_text_answers_only() {
    let mut a = Action::new(None, None);
    a.load("menu", Answer::String("<ul></ul>".to_string()));
    assert!(matches!(a.get("menu"), Some(Data::String(s)) if s == "<ul></ul>"));
    a.load("other", Answer::Nothing);
    assert!(a.get("other").is_none());
    a.load("menu", Answer::Raw(vec![1, 2]));
    assert!(matches!(a.get("menu"), Some(Data::String(s)) if s == "<ul></ul>"));
}
