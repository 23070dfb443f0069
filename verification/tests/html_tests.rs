use std::collections::BTreeMap;
use std::sync::Arc;

use tiny_web::action::Answer;
use tiny_web::controller::Action;
use tiny_web::data::Data;
use tiny_web::fnv1a_64;
use tiny_web::html::{get_view, ConditionNode, Html, Node, TypeNode};

fn show(v: &[Node]) -> String {
    format!("{:?}", v)
}

fn parse(t: &str) -> (Vec<Node>, ConditionNode) {
    let mut v = Vec::new();
    let c = get_view(t, &mut v);
    (v, c)
}

fn text(a: Answer) -> Option<String> {
    match a {
        Answer::String(s) => Some(s),
        _ => None,
    }
}

#[test]
fn escape_replaces_markup() {
    assert_eq!(Html::escape("a<b>&\"'c"), "a&lt;b&gt;&amp;&quot;&apos;c");
    assert_eq!(Html::escape("plain text"), "plain text");
    assert_eq!(Html::escape(""), "");
}

#[test]
fn marker_kinds() {
    assert!(matches!(Html::get_type_node(b"{% name %}"), TypeNode::Value(3, 7)));
    assert!(matches!(Html::get_type_node(b"{%+ name %}"), TypeNode::ValueEscape(4, 8)));
    assert!(matches!(Html::get_type_node(b"{%? f %}"), TypeNode::If(4, 5)));
    assert!(matches!(Html::get_type_node(b"{%?~%}"), TypeNode::Else));
    assert!(matches!(Html::get_type_node(b"{%?%}"), TypeNode::EndIf));
    assert!(matches!(Html::get_type_node(b"{%@ l %}"), TypeNode::Loop(4, 5)));
    assert!(matches!(Html::get_type_node(b"{%@%}"), TypeNode::EndLoop));
    assert!(matches!(Html::get_type_node(b"{%# note %}"), TypeNode::Comment));
    assert!(matches!(Html::get_type_node(b"{%%}"), TypeNode::Error));
    assert!(matches!(Html::get_type_node(b"{%x%}"), TypeNode::Error));
}

#[test]
fn plain_template_is_one_text() {
    let (v, c) = parse("just text");
    assert!(matches!(c, ConditionNode::End));
    assert_eq!(show(&v), show(&[Node::Text("just text".to_string())]));
}

#[test]
fn values_and_comments() {
    let (v, c) = parse("Hi {% name %}{%# skip %}{%+ bio %}!");
    assert!(matches!(c, ConditionNode::End));
    let want = vec![
        Node::Text("Hi ".to_string()),
        Node::Value("name".to_string()),
        Node::ValueEscape("bio".to_string()),
        Node::Text("!".to_string()),
    ];
    assert_eq!(show(&v), show(&want));
}

#[test]
fn if_and_loop_blocks() {
    let (v, c) = parse("{%? ok %}yes{%?~%}no{%?%}[{%@ items %}<{% n %}>{%@%}]");
    assert!(matches!(c, ConditionNode::End));
    let want = vec![
        Node::If(
            fnv1a_64(b"ok"),
            Arc::new(vec![Node::Text("yes".to_string())]),
            Arc::new(vec![Node::Text("no".to_string())]),
        ),
        Node::Text("[".to_string()),
        Node::Loop(
            fnv1a_64(b"items"),
            Arc::new(vec![Node::Text("<".to_string()), Node::Value("n".to_string()), Node::Text(">".to_string())]),
        ),
        Node::Text("]".to_string()),
    ];
    assert_eq!(show(&v), show(&want));
}

#[test]
fn bad_markers_are_errors() {
    let (_, c) = parse("a{%%}b");
    assert!(matches!(c, ConditionNode::Error));
    let (_, c) = parse("{%? x %}never closed");
    assert!(matches!(c, ConditionNode::Error));
}

#[test]
fn unclosed_marker_keeps_text() {
    let (v, c) = parse("ab{%cd");
    assert!(matches!(c, ConditionNode::End));
    assert_eq!(show(&v), show(&[Node::Text("ab".to_string()), Node::Text("ab{%cd".to_string())]));
}

#[test]
fn closing_markers_report_position() {
    let (v, c) = parse("x{%?%}rest");
    assert!(matches!(c, ConditionNode::EndIf(6)));
    assert_eq!(show(&v), show(&[Node::Text("x".to_string())]));
}

#[test]
fn render_values() {
    let mut data = BTreeMap::new();
    data.insert(fnv1a_64(b"name"), Data::String("<b>".to_string()));
    data.insert(fnv1a_64(b"age"), Data::I64(-7));
    data.insert(fnv1a_64(b"count"), Data::Usize(3));
    let list = vec![
        Node::Text("Hi ".to_string()),
        Node::Value("name".to_string()),
        Node::ValueEscape("name".to_string()),
        Node::Text(" ".to_string()),
        Node::Value("age".to_string()),
        Node::Value("count".to_string()),
        Node::Value("missing".to_string()),
    ];
    assert_eq!(text(Html::render(&data, &list, None)).as_deref(), Some("Hi <b>&lt;b&gt; -73"));
}

#[test]
fn render_if_and_loop() {
    let mut row1 = BTreeMap::new();
    row1.insert(fnv1a_64(b"n"), Data::I64(1));
    let mut row2 = BTreeMap::new();
    row2.insert(fnv1a_64(b"n"), Data::I64(2));
    let mut data = BTreeMap::new();
    data.insert(fnv1a_64(b"ok"), Data::Bool(false));
    data.insert(fnv1a_64(b"items"), Data::Vec(vec![Data::KeyMap(row1), Data::I64(9), Data::KeyMap(row2)]));
    let (list, _) = parse("{%? ok %}yes{%?~%}no{%?%}[{%@ items %}<{% n %}>{%@%}]");
    assert_eq!(text(Html::render(&data, &list, None)).as_deref(), Some("no[<1><2>]"));
}

#[test]
fn render_of_nothing_is_nothing() {
    let data = BTreeMap::new();
    assert!(matches!(Html::render(&data, &Vec::new(), None), Answer::Nothing));
    let list = vec![Node::Value("missing".to_string())];
    assert!(matches!(Html::render(&data, &list, None), Answer::Nothing));
}

#[test]
fn render_uses_additional_values() {
    let data = BTreeMap::new();
    let mut add = BTreeMap::new();
    add.insert(fnv1a_64(b"x"), Data::String("from add".to_string()));
    let list = vec![Node::Value("x".to_string())];
    assert_eq!(text(Html::render(&data, &list, Some(&add))).as_deref(), Some("from add"));
}

#[test]
fn template_files() {
    let (k, v) = Html::template("index.html", "Hi {% name %}").unwrap();
    assert_eq!(k, fnv1a_64(b"index"));
    assert_eq!(show(&v), show(&[Node::Text("Hi ".to_string()), Node::Value("name".to_string())]));
    assert!(Html::template("index.htm", "x").is_none());
    assert!(Html::template(".html", "x").is_none());
    assert!(Html::template("bad.html", "{%%}").is_none());
}

fn class(name: &str, files: &[(&str, &str)]) -> (String, Vec<(String, String)>) {
    (name.to_string(), files.iter().map(|(n, t)| (n.to_string(), t.to_string())).collect())
}

#[test]
fn templates_of_directories() {
    let modules = vec![
        (
            "index".to_string(),
            vec![
                class("index", &[("index.html", "first"), ("bad.html", "{%%}"), ("note.txt", "x"), ("index.html", "Hi {% name %}")]),
                class("empty", &[]),
            ],
        ),
        ("blog".to_string(), vec![class("post", &[("view.html", "v")])]),
    ];
    let html = Html::new(&modules);
    assert_eq!(html.list.len(), 2);
    let index = html.list.get(&fnv1a_64(b"index")).unwrap();
    assert_eq!(index.len(), 2);
    let class_index = index.get(&fnv1a_64(b"index")).unwrap();
    assert_eq!(class_index.len(), 1);
    let nodes = class_index.get(&fnv1a_64(b"index")).unwrap();
    let mut data = BTreeMap::new();
    data.insert(fnv1a_64(b"name"), Data::String("Ann".to_string()));
    assert_eq!(text(Html::render(&data, nodes, None)).as_deref(), Some("Hi Ann"));
    assert!(index.get(&fnv1a_64(b"empty")).unwrap().is_empty());
    let post = html.list.get(&fnv1a_64(b"blog")).unwrap().get(&fnv1a_64(b"post")).unwrap();
    assert!(post.contains_key(&fnv1a_64(b"view")));
    assert!(Html::new(&Vec::new()).list.is_empty());
}

#[test]
fn view_file_names() {
    assert!(Html::is_view("index.html"));
    assert!(Html::is_view("a.html"));
    assert!(!Html::is_view(".html"));
    assert!(!Html::is_view("index.htm"));
    assert!(!Html::is_view("lang.en"));
}

#[test]
fn templates_of_one_class() {
    let modules = vec![("index".to_string(), vec![class("index", &[("index.html", "x")]), class("empty", &[])])];
    let html = Html::new(&modules);
    let views = html.class_views(fnv1a_64(b"index"), fnv1a_64(b"index")).unwrap();
    assert_eq!(views.len(), 1);
    assert!(views.contains_key(&fnv1a_64(b"index")));
    assert!(html.class_views(fnv1a_64(b"index"), fnv1a_64(b"empty")).unwrap().is_empty());
    assert!(html.class_views(fnv1a_64(b"index"), fnv1a_64(b"other")).is_none());
    assert!(html.class_views(fnv1a_64(b"blog"), fnv1a_64(b"index")).is_none());
}

#[test]
fn controller_renders_loaded_template() {
    let modules = vec![("index".to_string(), vec![class("index", &[("index.html", "old"), ("index.html", "Hello {% who %}")])])];
    let html = Html::new(&modules);
    let mut action = Action::new(None, html.class_views(fnv1a_64(b"index"), fnv1a_64(b"index")));
    action.set("who", Data::String("world".to_string()));
    assert_eq!(text(action.render("index")).as_deref(), Some("Hello world"));
    assert!(matches!(action.render("missing"), Answer::Nothing));
}

#[test]
fn if_and_loop_read_the_loop_item() {
    let k = fnv1a_64(b"ok");
    let list = vec![Node::If(k, Arc::new(vec![Node::Text("T".to_string())]), Arc::new(vec![Node::Text("F".to_string())]))];
    let mut m = BTreeMap::new();
    m.insert(k, Data::Bool(true));
    let data = BTreeMap::new();
    assert_eq!(text(Html::render(&data, &list, Some(&m))).as_deref(), Some("T"));
    assert!(matches!(Html::render(&data, &list, None), Answer::Nothing));
    let (nodes, c) = parse("{%@ items %}{%? ok %}T{%?~%}F{%?%}{%@%}");
    assert!(matches!(c, ConditionNode::End));
    let item = |b: bool| {
        let mut m = BTreeMap::new();
        m.insert(k, Data::Bool(b));
        Data::KeyMap(m)
    };
    let mut data = BTreeMap::new();
    data.insert(fnv1a_64(b"items"), Data::Vec(vec![item(true), item(false)]));
    assert_eq!(text(Html::render(&data, &nodes, None)).as_deref(), Some("TF"));
}

#[test]
fn escape_borrows_plain_text() {
    assert!(matches!(Html::escape("plain"), std::borrow::Cow::Borrowed("plain")));
    assert!(matches!(Html::escape("a<b"), std::borrow::Cow::Owned(_)));
    assert_eq!(Html::escape("a<b>&\"'"), "a&lt;b&gt;&amp;&quot;&apos;");
}
