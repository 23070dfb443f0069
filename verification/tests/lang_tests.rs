use tiny_web::controller::Action;
use tiny_web::data::Data;
use tiny_web::init::ConfValue;
use tiny_web::fnv1a_64;
use tiny_web::lang::{Lang, LangFile, LangItem, LangList, LoadWarning};

fn f(module: &str, class: &str, code: &str) -> (String, String, String, String) {
    (format!("/app/{}/{}/lang.{}", module, class, code), module.to_string(), class.to_string(), code.to_string())
}

#[test]
fn installer_languages() {
    let l = Lang::gelt_all_langs_install();
    assert_eq!(l.len(), 8);
    assert_eq!((l[0].id, l[0].code.as_str(), l[0].name.as_str()), (0, "en", "English"));
    assert_eq!(l[0].index, fnv1a_64(b"en"));
    assert_eq!((l[7].id, l[7].code.as_str()), (128, "pl"));
    assert_eq!(l[1].name, "Ukrainian (Українська)");
}

#[test]
fn installer_files_pick_known_languages_in_order() {
    let files = vec![
        f("index", "install", "uk"),
        f("index", "other", "en"),
        f("index", "install", "xx"),
        f("index", "install", "en"),
        f("blog", "install", "pl"),
    ];
    let l = Lang::get_langs_install(&files);
    assert_eq!(l.len(), 2);
    assert_eq!((l[0].id, l[0].code.as_str(), l[0].index), (1, "uk", 0));
    assert_eq!((l[1].id, l[1].code.as_str(), l[1].index), (0, "en", 1));
}

#[test]
fn installer_files_none() {
    assert!(Lang::get_langs_install(&Vec::new()).is_empty());
}

#[test]
fn language_codes_from_file_names() {
    assert_eq!(Lang::lang_code("lang.uk").as_deref(), Some("uk"));
    assert_eq!(Lang::lang_code("lang.é").as_deref(), Some("é"));
    assert_eq!(Lang::lang_code("lang.ukr"), None);
    assert_eq!(Lang::lang_code("text.uk"), None);
    assert_eq!(Lang::lang_code(""), None);
}

#[test]
fn translations_keep_texts() {
    let (t, skipped) = Lang::read_translations("title = \"Hello\"\ncount = 3\nbye = \"Bye\"\n").unwrap();
    assert_eq!(t, vec![(fnv1a_64(b"bye"), "Bye".to_string()), (fnv1a_64(b"title"), "Hello".to_string())]);
    assert_eq!(skipped, 1);
    assert!(Lang::read_translations("= nope").is_none());
    let (t, skipped) = Lang::read_translations("").unwrap();
    assert!(t.is_empty() && skipped == 0);
}

#[test]
fn languages_from_rows() {
    let row = |id: i64, code: &str, name: &str, index: i64| {
        Data::Vec(vec![Data::I64(id), Data::String(code.to_string()), Data::String(name.to_string()), Data::I64(index)])
    };
    let l = Lang::langs_from_rows(Some(vec![row(1, "en", "English", 0), row(2, "uk", "Українська", 1)])).unwrap();
    assert_eq!(l.len(), 2);
    assert_eq!((l[1].id, l[1].code.as_str(), l[1].index), (2, "uk", 1));
    assert_eq!(Lang::langs_from_rows(None).err(), Some(1150));
    assert_eq!(Lang::langs_from_rows(Some(vec![])).err(), Some(1151));
    assert_eq!(Lang::langs_from_rows(Some(vec![row(1, "en", "E", 0), Data::I64(3)])).err(), Some(1150));
    assert_eq!(Lang::code_id(&l, "uk"), Some(2));
    assert_eq!(Lang::code_id(&l, "pl"), None);
}

#[test]
fn default_language_index() {
    let l = Lang::gelt_all_langs_install();
    assert_eq!(Lang::default_index(&l, "pl"), 128);
    assert_eq!(Lang::default_index(&l, "en"), 0);
    assert_eq!(Lang::default_index(&l, "xx"), 0);
}

fn lf(module: &str, class: &str, code: &str, text: Option<&str>) -> LangFile {
    (module.to_string(), class.to_string(), code.to_string(), text.map(|t| t.to_string()))
}

fn item(id: i64, code: &str) -> LangItem {
    LangItem { id, code: code.to_string(), name: code.to_uppercase(), index: id }
}

fn text_at(list: &LangList, lang: i64, module: &str, class: &str, key: &str) -> Option<String> {
    list.get(&lang)?
        .get(&fnv1a_64(module.as_bytes()))?
        .get(&fnv1a_64(class.as_bytes()))?
        .get(&fnv1a_64(key.as_bytes()))
        .cloned()
}

#[test]
fn loading_translations_last_file_wins() {
    let langs = vec![item(0, "en"), item(1, "uk")];
    let files = vec![
        lf("index", "index", "en", Some("about = \"About\"\nn = 5\n")),
        lf("index", "index", "uk", Some("about = \"Про нас\"")),
        lf("index", "index", "xx", Some("about = \"?\"")),
        lf("blog", "post", "en", Some("not toml [[[")),
        lf("index", "index", "en", Some("about = \"About us\"\ncontact = \"Contact\"")),
        lf("index", "other", "en", Some("")),
        lf("index", "other", "uk", None),
    ];
    let (list, warnings) = Lang::load_list(&langs, &files);
    assert_eq!(text_at(&list, 0, "index", "index", "about").as_deref(), Some("About us"));
    assert_eq!(text_at(&list, 0, "index", "index", "contact").as_deref(), Some("Contact"));
    assert_eq!(text_at(&list, 1, "index", "index", "about").as_deref(), Some("Про нас"));
    assert_eq!(text_at(&list, 0, "index", "index", "n"), None);
    assert_eq!(text_at(&list, 0, "blog", "post", "about"), None);
    assert!(list.get(&0).unwrap().get(&fnv1a_64(b"index")).unwrap().get(&fnv1a_64(b"other")).is_none());
    assert_eq!(warnings, vec![LoadWarning::NotText(0), LoadWarning::NotToml(3)]);
    assert_eq!(warnings.iter().map(|w| w.number()).collect::<Vec<u16>>(), vec![20, 19]);
}

#[test]
fn new_lang_finds_default_and_loads() {
    let langs = vec![item(0, "en"), item(7, "uk")];
    let files = vec![lf("index", "index", "uk", Some("hi = \"Привіт\""))];
    let (lang, warnings) = Lang::new(langs, "uk", &files);
    assert_eq!(lang.default, 7);
    assert_eq!(lang.langs.len(), 2);
    assert_eq!(text_at(&lang.list, 7, "index", "index", "hi").as_deref(), Some("Привіт"));
    assert!(warnings.is_empty());
    let (lang, _) = Lang::new(vec![item(0, "en")], "pl", &files);
    assert_eq!(lang.default, 0);
    assert!(lang.list.is_empty());
}

#[test]
fn new_lang_without_languages() {
    let files = vec![lf("index", "index", "en", Some("bad [[["))];
    let (lang, warnings) = Lang::new(Vec::new(), "en", &files);
    assert!(lang.langs.is_empty() && lang.list.is_empty());
    assert_eq!(lang.default, 0);
    assert_eq!(warnings, vec![LoadWarning::NoLanguage]);
    assert_eq!(LoadWarning::NoLanguage.number(), 1151);
}

#[test]
fn translations_of_one_class() {
    let files = vec![lf("index", "index", "en", Some("a = \"A\""))];
    let (lang, _) = Lang::new(vec![item(0, "en")], "en", &files);
    let texts = lang.class_texts(0, fnv1a_64(b"index"), fnv1a_64(b"index")).unwrap();
    assert_eq!(texts.get(&fnv1a_64(b"a")).map(|s| s.as_str()), Some("A"));
    assert!(lang.class_texts(1, fnv1a_64(b"index"), fnv1a_64(b"index")).is_none());
    assert!(lang.class_texts(0, fnv1a_64(b"index"), fnv1a_64(b"other")).is_none());
}

#[test]
fn controller_sees_loaded_translation() {
    let files = vec![
        lf("index", "index", "en", Some("about = \"About\"")),
        lf("index", "index", "en", Some("about = \"About us\"")),
    ];
    let (lang, _) = Lang::new(vec![item(0, "en")], "en", &files);
    let action = Action::new(lang.class_texts(0, fnv1a_64(b"index"), fnv1a_64(b"index")), None);
    assert_eq!(action.lang("about"), "About us");
    assert_eq!(action.lang("contact"), "contact");
    let other = Action::new(lang.class_texts(0, fnv1a_64(b"index"), fnv1a_64(b"other")), None);
    assert_eq!(other.lang("about"), "about");
}

#[test]
fn current_language_and_list() {
    let (lang, _) = Lang::new(vec![item(0, "en"), item(1, "uk")], "uk", &Vec::new());
    assert_eq!(lang.lang_current(1).map(|l| l.code.as_str()), Some("uk"));
    assert!(lang.lang_current(2).is_none());
    assert_eq!(lang.lang_list().len(), 2);
}

#[test]
fn translations_from_parsed_values() {
    let entries = vec![
        ("a".to_string(), ConfValue::Str("A".to_string())),
        ("n".to_string(), ConfValue::Int(5)),
        ("b".to_string(), ConfValue::Str("B".to_string())),
    ];
    let (t, skipped) = Lang::translations_from(&entries);
    assert_eq!(t, vec![(fnv1a_64(b"a"), "A".to_string()), (fnv1a_64(b"b"), "B".to_string())]);
    assert_eq!(skipped, 1);
}
