use tiny_web::params::{check_ajax, parse_cookie, parse_form, parse_query, split_uri};

fn p(a: &str, b: &str) -> (String, String) {
    (a.to_string(), b.to_string())
}

#[test]
fn query_pairs_are_decoded() {
    assert_eq!(parse_query("a=1&b=%20x&c"), vec![p("a", "1"), p("b", " x"), p("c", "")]);
    assert_eq!(parse_query("k=v=w"), vec![p("k", "v=w")]);
}

#[test]
fn query_pieces_that_do_not_decode_are_dropped() {
    assert_eq!(parse_query("%ff=1&b=2"), vec![p("b", "2")]);
    assert_eq!(parse_query("a=%ff"), Vec::<(String, String)>::new());
}

#[test]
fn cookie_pairs_need_equals() {
    assert_eq!(parse_cookie("a=1; b=2; c"), vec![p("a", "1"), p("b", "2")]);
    assert_eq!(parse_cookie("x=%20"), vec![p("x", "%20")]);
}

#[test]
fn form_pairs_keep_text() {
    assert_eq!(parse_form("a=1&b"), vec![p("a", "1"), p("b", "")]);
    assert_eq!(parse_form("a=%20"), vec![p("a", "%20")]);
}

#[test]
fn uri_splits_at_question_mark() {
    assert_eq!(split_uri("/a%20b?x=1?y"), (Some("/a b".to_string()), Some("x=1".to_string())));
    assert_eq!(split_uri("/plain"), (Some("/plain".to_string()), None));
    assert_eq!(split_uri("/x?"), (Some("/x".to_string()), Some(String::new())));
    assert_eq!(split_uri("/%ff?q"), (None, Some("q".to_string())));
}

#[test]
fn ajax_is_case_insensitive() {
    assert!(check_ajax("XMLHttpRequest"));
    assert!(check_ajax("xmlhttprequest"));
    assert!(!check_ajax("xml"));
    assert!(!check_ajax(""));
}
