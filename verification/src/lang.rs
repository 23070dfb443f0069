//! Languages and translations.

use std::collections::BTreeMap;
use std::sync::Arc;
use vstd::prelude::*;
use vstd::string::StringSliceAdditionalSpecFns;
use vstd::utf8::encode_utf8;

use crate::controller::translation;
use crate::data::Data;
use crate::init::{parse_toml, toml_table, ConfValue};
use crate::request::str_eq;
use crate::{fnv1a_64, spec_fnv1a_64};

verus! {

/// A language.
#[derive(Debug)]
pub struct LangItem {
    /// Language ID.
    pub id: i64,
    /// Language code, ISO 639-1.
    pub code: String,
    /// Native name of the language.
    pub name: String,
    /// Index in the JSON fields of the database.
    pub index: i64,
}

/// All languages and their translations.
#[derive(Debug)]
pub struct Lang {
    /// List of languages.
    pub langs: Vec<LangItem>,
    /// Translations by language ID, module ID, class ID and key ID.
    pub list: BTreeMap<i64, BTreeMap<i64, BTreeMap<i64, Arc<BTreeMap<i64, String>>>>>,
    /// Default language.
    pub default: usize,
}

/// A language as a mathematical value.
pub struct LangView {
    pub id: i64,
    pub code: Seq<char>,
    pub name: Seq<char>,
    pub index: i64,
}

pub open spec fn lang_view(l: LangItem) -> LangView {
    LangView { id: l.id, code: l.code@, name: l.name@, index: l.index }
}

/// A language of the installer: its ID, code and name; its index is the
/// hash of its code.
pub open spec fn install_lang(id: i64, code: &str, name: &str) -> LangView {
    LangView { id: id, code: code@, name: name@, index: spec_fnv1a_64(code.spec_bytes()) }
}

/// The languages of the installer.
pub open spec fn install_langs() -> Seq<LangView> {
    seq![
        install_lang(0, "en", "English"),
        install_lang(1, "uk", "Ukrainian (Українська)"),
        install_lang(28, "cs", "Czech (Čeština)"),
        install_lang(40, "et", "Estonian (Eesti)"),
        install_lang(97, "lt", "Lithuanian (Lietuvių kalba)"),
        install_lang(99, "lv", "Latvian (Latviešu valoda)"),
        install_lang(117, "no", "Norwegian (Norsk)"),
        install_lang(128, "pl", "Polish (Język polski)"),
    ]
}

fn make_lang(id: i64, code: &str, name: &str) -> (res: LangItem)
    ensures
        lang_view(res) == install_lang(id, code, name),
{
    LangItem { id, code: code.to_owned(), name: name.to_owned(), index: fnv1a_64(code.as_bytes()) }
}

/// The first language of `list` whose index is `h`.
pub open spec fn find_lang(list: Seq<LangView>, h: i64) -> Option<LangView>
    decreases list.len(),
{
    if list.len() == 0 {
        None
    } else if list[0].index == h {
        Some(list[0])
    } else {
        find_lang(list.drop_first(), h)
    }
}

/// The languages of the installer's own translation files, in order: each
/// file of the module `index` and class `install` names a language by its
/// code; a known language is taken, its index set to its position.
pub open spec fn install_files(list: Seq<LangView>, files: Seq<(String, String, String, String)>, next: int) -> Seq<LangView>
    decreases files.len(),
{
    if files.len() == 0 {
        Seq::empty()
    } else {
        let (_, module, class, code) = files[0];
        if module@ == "index"@ && class@ == "install"@ {
            match find_lang(list, spec_fnv1a_64(encode_utf8(code@))) {
                Some(l) => seq![LangView { index: next as i64, ..l }] + install_files(list, files.drop_first(), next + 1),
                None => install_files(list, files.drop_first(), next),
            }
        } else {
            install_files(list, files.drop_first(), next)
        }
    }
}

impl Lang {
    /// The languages of the installer.
    pub fn gelt_all_langs_install() -> (res: Vec<LangItem>)
        ensures
            res@.map_values(|l: LangItem| lang_view(l)) == install_langs(),
    {
        let mut v: Vec<LangItem> = Vec::new();
        v.push(make_lang(0, "en", "English"));
        v.push(make_lang(1, "uk", "Ukrainian (Українська)"));
        v.push(make_lang(28, "cs", "Czech (Čeština)"));
        v.push(make_lang(40, "et", "Estonian (Eesti)"));
        v.push(make_lang(97, "lt", "Lithuanian (Lietuvių kalba)"));
        v.push(make_lang(99, "lv", "Latvian (Latviešu valoda)"));
        v.push(make_lang(117, "no", "Norwegian (Norsk)"));
        v.push(make_lang(128, "pl", "Polish (Język polski)"));
        assert(v@.map_values(|l: LangItem| lang_view(l)) =~= install_langs());
        v
    }

    /// The languages of the installer's translation files (see
    /// `install_files`); each file is `(path, module, class, code)`.
    pub fn get_langs_install(files: &Vec<(String, String, String, String)>) -> (res: Vec<LangItem>)
        ensures
            res@.map_values(|l: LangItem| lang_view(l)) == install_files(install_langs(), files@, 0),
    {
        let list = Lang::gelt_all_langs_install();
        let ghost lv = list@.map_values(|l: LangItem| lang_view(l));
        let mut vec: Vec<LangItem> = Vec::new();
        let mut index: usize = 0;
        let mut i: usize = 0;
        assert(files@.subrange(0, files@.len() as int) =~= files@);
        assert(vec@.map_values(|l: LangItem| lang_view(l)) + install_files(lv, files@, 0) =~= install_files(lv, files@, 0));
        while i < files.len()
            invariant
                i <= files@.len(),
                lv == install_langs(),
                lv == list@.map_values(|l: LangItem| lang_view(l)),
                index <= i,
                vec@.map_values(|l: LangItem| lang_view(l)) + install_files(
                    lv,
                    files@.subrange(i as int, files@.len() as int),
                    index as int,
                ) == install_files(lv, files@, 0),
            decreases files@.len() - i,
        {
            let ghost rest = files@.subrange(i as int, files@.len() as int);
            assert(rest.drop_first() =~= files@.subrange(i + 1, files@.len() as int));
            let (_, module, class, code) = &files[i];
            if str_eq(module.as_str(), "index") && str_eq(class.as_str(), "install") {
                let h = fnv1a_64(code.as_str().as_bytes());
                match find_lang_exec(&list, h) {
                    Some(j) => {
                        let l = LangItem {
                            id: list[j].id,
                            code: list[j].code.clone(),
                            name: list[j].name.clone(),
                            index: index as i64,
                        };
                        let ghost o = vec@.map_values(|l: LangItem| lang_view(l));
                        vec.push(l);
                        assert(vec@.map_values(|l: LangItem| lang_view(l)) =~= o + seq![lang_view(l)]);
                        index = index + 1;
                    },
                    None => {},
                }
            }
            i = i + 1;
        }
        vec
    }
}

fn find_lang_exec(list: &Vec<LangItem>, h: i64) -> (res: Option<usize>)
    ensures
        match find_lang(list@.map_values(|l: LangItem| lang_view(l)), h) {
            Some(v) => res matches Some(j) && j < list@.len() && lang_view(list@[j as int]) == v,
            None => res is None,
        },
{
    let ghost lv = list@.map_values(|l: LangItem| lang_view(l));
    let mut j: usize = 0;
    assert(lv.subrange(0, lv.len() as int) =~= lv);
    while j < list.len()
        invariant
            j <= list@.len(),
            lv == list@.map_values(|l: LangItem| lang_view(l)),
            find_lang(lv.subrange(j as int, lv.len() as int), h) == find_lang(lv, h),
        decreases list@.len() - j,
    {
        assert(lv.subrange(j as int, lv.len() as int).drop_first() =~= lv.subrange(j + 1, lv.len() as int));
        if list[j].index == h {
            return Some(j);
        }
        j = j + 1;
    }
    assert(lv.subrange(j as int, lv.len() as int) =~= Seq::<LangView>::empty());
    None
}

/// The language code a translation file's name gives: `lang.xx` gives `xx`.
pub open spec fn lang_code_of(name: Seq<u8>) -> Option<Seq<u8>> {
    if name.len() == 7 && name.subrange(0, 5) == seq![108u8, 97u8, 110u8, 103u8, 46u8] {
        Some(name.subrange(5, 7))
    } else {
        None
    }
}

/// The translations of a file's values: each text value under the hash of
/// its key, in order.
pub open spec fn translations_of(entries: Seq<(String, ConfValue)>) -> Seq<(i64, Seq<char>)>
    decreases entries.len(),
{
    if entries.len() == 0 {
        Seq::empty()
    } else {
        let rest = translations_of(entries.drop_last());
        match entries.last().1 {
            ConfValue::Str(v) => rest.push((spec_fnv1a_64(encode_utf8(entries.last().0@)), v@)),
            _ => rest,
        }
    }
}

/// How many values of a file are not texts.
pub open spec fn skipped_of(entries: Seq<(String, ConfValue)>) -> nat
    decreases entries.len(),
{
    if entries.len() == 0 {
        0
    } else {
        skipped_of(entries.drop_last()) + match entries.last().1 {
            ConfValue::Str(_) => 0nat,
            _ => 1nat,
        }
    }
}

/// The views of translations.
pub open spec fn translations_view(v: Seq<(i64, String)>) -> Seq<(i64, Seq<char>)> {
    v.map_values(|t: (i64, String)| (t.0, t.1@))
}

impl Lang {
    /// The language code a translation file's name gives (see `lang_code_of`).
    pub fn lang_code(name: &str) -> (res: Option<String>)
        ensures
            match lang_code_of(name.spec_bytes()) {
                Some(c) => res matches Some(s) && encode_utf8(s@) == c,
                None => res is None,
            },
    {
        let b = name.as_bytes();
        if b.len() != 7 || b[0] != 108u8 || b[1] != 97u8 || b[2] != 110u8 || b[3] != 103u8 || b[4] != 46u8 {
            proof {
                if b@.len() == 7 {
                    if b@.subrange(0, 5) == seq![108u8, 97u8, 110u8, 103u8, 46u8] {
                        assert(b@.subrange(0, 5)[0] == b@[0]);
                        assert(b@.subrange(0, 5)[1] == b@[1]);
                        assert(b@.subrange(0, 5)[2] == b@[2]);
                        assert(b@.subrange(0, 5)[3] == b@[3]);
                        assert(b@.subrange(0, 5)[4] == b@[4]);
                    }
                }
            }
            return None;
        }
        assert(b@.subrange(0, 5) =~= seq![108u8, 97u8, 110u8, 103u8, 46u8]);
        proof {
            vstd::utf8::encode_utf8_valid_utf8(name@);
            crate::utf8_lemmas::lemma_after_ascii_is_boundary(b@, 4);
            vstd::utf8::is_char_boundary_start_end_of_seq(b@);
            crate::utf8_lemmas::lemma_piece_valid(b@, 5, 7);
            vstd::utf8::decode_utf8_encode_utf8(b@.subrange(5, 7));
        }
        match crate::text::string_from_utf8(vstd::slice::slice_to_vec(&b[5..7])) {
            Some(s) => Some(s),
            None => None,
        }
    }

    /// The translations of a translation file (see `translations_of`) and
    /// how many of its values are not texts; `None` when it is not TOML.
    pub fn read_translations(text: &str) -> (res: Option<(Vec<(i64, String)>, usize)>)
        ensures
            match toml_table(text@) {
                Some(es) => res matches Some((t, n)) && translations_view(t@) == translations_of(es)
                    && n == skipped_of(es),
                None => res is None,
            },
    {
        match parse_toml(text) {
            Some(entries) => Some(Lang::translations_from(&entries)),
            None => None,
        }
    }

    /// The translations among the values of a translation file (see
    /// `translations_of`) and how many of its values are not texts.
    pub fn translations_from(entries: &Vec<(String, ConfValue)>) -> (res: (Vec<(i64, String)>, usize))
        ensures
            translations_view(res.0@) == translations_of(entries@),
            res.1 == skipped_of(entries@),
    {
        let mut out: Vec<(i64, String)> = Vec::new();
        let mut skipped: usize = 0;
        let mut i: usize = 0;
        while i < entries.len()
            invariant
                i <= entries@.len(),
                translations_view(out@) == translations_of(entries@.subrange(0, i as int)),
                skipped == skipped_of(entries@.subrange(0, i as int)),
                skipped <= i,
            decreases entries@.len() - i,
        {
            assert(entries@.subrange(0, i + 1).drop_last() =~= entries@.subrange(0, i as int));
            let (k, v) = &entries[i];
            match v {
                ConfValue::Str(t) => {
                    let ghost before = out@;
                    out.push((fnv1a_64(k.as_str().as_bytes()), t.clone()));
                    assert(translations_view(out@) =~= translations_view(before).push(
                        (spec_fnv1a_64(encode_utf8(k@)), t@),
                    ));
                },
                _ => {
                    skipped = skipped + 1;
                },
            }
            i = i + 1;
        }
        assert(entries@.subrange(0, entries@.len() as int) =~= entries@);
        (out, skipped)
    }
}

/// A language in a database row: ID, code, name and index.
pub open spec fn lang_row(d: Data) -> Option<LangView> {
    match d {
        Data::Vec(row) => if row@.len() != 4 {
            None
        } else {
            match (row@[0], row@[1], row@[2], row@[3]) {
                (Data::I64(id), Data::String(code), Data::String(name), Data::I64(index)) => Some(
                    LangView { id, code: code@, name: name@, index },
                ),
                _ => None,
            }
        },
        _ => None,
    }
}

/// The languages of database rows; `None` when a row is malformed.
pub open spec fn langs_of_rows(rows: Seq<Data>) -> Option<Seq<LangView>>
    decreases rows.len(),
{
    if rows.len() == 0 {
        Some(Seq::empty())
    } else {
        match (langs_of_rows(rows.drop_last()), lang_row(rows.last())) {
            (Some(l), Some(x)) => Some(l.push(x)),
            _ => None,
        }
    }
}

/// What a languages query gives: the warning `1150` when it failed or a row
/// is malformed, `1151` when there is no language.
pub open spec fn langs_answer(rows: Option<Seq<Data>>) -> Result<Seq<LangView>, u16> {
    match rows {
        None => Err(1150),
        Some(r) => if r.len() == 0 {
            Err(1151)
        } else {
            match langs_of_rows(r) {
                Some(l) => Ok(l),
                None => Err(1150),
            }
        },
    }
}

/// The rows of a query answer, if it did not fail.
pub open spec fn rows_view(rows: Option<Vec<Data>>) -> Option<Seq<Data>> {
    match rows {
        Some(r) => Some(r@),
        None => None,
    }
}

/// The ID of the last language with a code.
pub open spec fn code_id(langs: Seq<LangView>, code: Seq<char>) -> Option<i64>
    decreases langs.len(),
{
    if langs.len() == 0 {
        None
    } else if langs.last().code == code {
        Some(langs.last().id)
    } else {
        code_id(langs.drop_last(), code)
    }
}

fn lang_row_exec(d: &Data) -> (res: Option<LangItem>)
    ensures
        match lang_row(*d) {
            Some(v) => res matches Some(x) && lang_view(x) == v,
            None => res is None,
        },
{
    match d {
        Data::Vec(row) => {
            if row.len() != 4 {
                return None;
            }
            match (&row[0], &row[1], &row[2], &row[3]) {
                (Data::I64(id), Data::String(code), Data::String(name), Data::I64(index)) => Some(
                    LangItem { id: *id, code: code.clone(), name: name.clone(), index: *index },
                ),
                _ => None,
            }
        },
        _ => None,
    }
}

impl Lang {
    /// The languages a query answered (see `langs_answer`).
    pub fn langs_from_rows(rows: Option<Vec<Data>>) -> (res: Result<Vec<LangItem>, u16>)
        ensures
            match langs_answer(rows_view(rows)) {
                Ok(l) => res matches Ok(v) && v@.map_values(|x: LangItem| lang_view(x)) == l,
                Err(e) => res == Err::<Vec<LangItem>, u16>(e),
            },
    {
        let rows = match rows {
            Some(r) => r,
            None => return Err(1150),
        };
        if rows.len() == 0 {
            return Err(1151);
        }
        match rows_to_langs(&rows) {
            Some(v) => Ok(v),
            None => Err(1150),
        }
    }

    /// The default language: the ID of the last language with the given
    /// code, as an index; 0 when none has it.
    pub fn default_index(langs: &Vec<LangItem>, code: &str) -> (res: usize)
        ensures
            res == match code_id(langs@.map_values(|x: LangItem| lang_view(x)), code@) {
                Some(id) => id as usize,
                None => 0usize,
            },
    {
        match Lang::code_id(langs, code) {
            Some(id) => id as usize,
            None => 0,
        }
    }

    /// The ID of the last language with a code, if any.
    pub fn code_id(langs: &Vec<LangItem>, code: &str) -> (res: Option<i64>)
        ensures
            res == code_id(langs@.map_values(|x: LangItem| lang_view(x)), code@),
    {
        let ghost lv = langs@.map_values(|x: LangItem| lang_view(x));
        let mut i = langs.len();
        assert(lv.subrange(0, lv.len() as int) =~= lv);
        while i > 0
            invariant
                i <= langs@.len(),
                lv == langs@.map_values(|x: LangItem| lang_view(x)),
                code_id(lv.subrange(0, i as int), code@) == code_id(lv, code@),
            decreases i,
        {
            assert(lv.subrange(0, i as int).drop_last() =~= lv.subrange(0, i - 1));
            if crate::request::str_eq(langs[i - 1].code.as_str(), code) {
                return Some(langs[i - 1].id);
            }
            i = i - 1;
        }
        assert(lv.subrange(0, 0) =~= Seq::<LangView>::empty());
        None
    }
}

fn rows_to_langs(rows: &Vec<Data>) -> (res: Option<Vec<LangItem>>)
    ensures
        match langs_of_rows(rows@) {
            Some(l) => res matches Some(v) && v@.map_values(|x: LangItem| lang_view(x)) == l,
            None => res is None,
        },
{
    let mut out: Vec<LangItem> = Vec::new();
    let mut i: usize = 0;
    while i < rows.len()
        invariant
            i <= rows@.len(),
            langs_of_rows(rows@.subrange(0, i as int)) == Some(out@.map_values(|x: LangItem| lang_view(x))),
        decreases rows@.len() - i,
    {
        assert(rows@.subrange(0, i + 1).drop_last() =~= rows@.subrange(0, i as int));
        match lang_row_exec(&rows[i]) {
            Some(x) => {
                let ghost before = out@;
                out.push(x);
                assert(out@.map_values(|y: LangItem| lang_view(y)) =~= before.map_values(|y: LangItem| lang_view(y)).push(
                    lang_view(x),
                ));
            },
            None => {
                proof {
                    assert(langs_of_rows(rows@.subrange(0, i + 1)) is None);
                    lemma_langs_none_extends(rows@, i as int + 1);
                }
                return None;
            },
        }
        i = i + 1;
    }
    assert(rows@.subrange(0, rows@.len() as int) =~= rows@);
    Some(out)
}

proof fn lemma_langs_none_extends(rows: Seq<Data>, i: int)
    requires
        0 <= i <= rows.len(),
        langs_of_rows(rows.subrange(0, i)) is None,
    ensures
        langs_of_rows(rows) is None,
    decreases rows.len() - i,
{
    if i < rows.len() {
        assert(rows.subrange(0, i + 1).drop_last() =~= rows.subrange(0, i));
        lemma_langs_none_extends(rows, i + 1);
    } else {
        assert(rows.subrange(0, i) =~= rows);
    }
}


/// The text stored last under the key `d` in translations `ts`.
pub open spec fn last_text(ts: Seq<(i64, Seq<char>)>, d: i64) -> Option<Seq<char>>
    decreases ts.len(),
{
    if ts.len() == 0 {
        None
    } else if ts.last().0 == d {
        Some(ts.last().1)
    } else {
        last_text(ts.drop_last(), d)
    }
}

/// A translation file as the loader sees it: module, class, language code
/// and the text read from it (`None` when it could not be read).
pub type LangFile = (String, String, String, Option<String>);

/// What a translation file gives: the ID of its language and its
/// translations, when its code is that of a language and its text is a
/// nonempty TOML table.
pub open spec fn file_translations(langs: Seq<LangView>, f: LangFile) -> Option<(i64, Seq<(i64, Seq<char>)>)> {
    match code_id(langs, f.2@) {
        None => None,
        Some(id) => match f.3 {
            None => None,
            Some(t) => if t@.len() == 0 {
                None
            } else {
                match toml_table(t@) {
                    Some(es) => Some((id, translations_of(es))),
                    None => None,
                }
            },
        },
    }
}

/// The translation of the key `d` of the class `c` of the module `m` in the
/// language `a` after loading `files` in order: the last file that gives
/// one wins.
pub open spec fn loaded_text(langs: Seq<LangView>, files: Seq<LangFile>, a: i64, m: i64, c: i64, d: i64) -> Option<
    Seq<char>,
>
    decreases files.len(),
{
    if files.len() == 0 {
        None
    } else {
        let f = files.last();
        let here = match file_translations(langs, f) {
            Some((id, ts)) => if id == a && spec_fnv1a_64(encode_utf8(f.0@)) == m && spec_fnv1a_64(
                encode_utf8(f.1@),
            ) == c {
                last_text(ts, d)
            } else {
                None
            },
            None => None,
        };
        match here {
            Some(t) => Some(t),
            None => loaded_text(langs, files.drop_last(), a, m, c, d),
        }
    }
}

/// A warning of loading translations.
#[derive(Debug, Clone, Copy, PartialEq, Eq, Structural)]
pub enum LoadWarning {
    /// There is no language (number 1151).
    NoLanguage,
    /// The text of the file at this index is not TOML (number 19).
    NotToml(usize),
    /// A value of the file at this index is not a text (number 20).
    NotText(usize),
}

impl LoadWarning {
    /// The number under which the warning is logged.
    pub fn number(&self) -> (res: u16)
        ensures
            res == match *self {
                LoadWarning::NoLanguage => 1151u16,
                LoadWarning::NotToml(_) => 19u16,
                LoadWarning::NotText(_) => 20u16,
            },
    {
        match self {
            LoadWarning::NoLanguage => 1151,
            LoadWarning::NotToml(_) => 19,
            LoadWarning::NotText(_) => 20,
        }
    }
}

/// The warnings of loading `files`, in order: `NotToml(i)` for a file `i`
/// of a known language whose text is not TOML, and `NotText(i)` for each of
/// its values that is not a text.
pub open spec fn load_warnings(langs: Seq<LangView>, files: Seq<LangFile>) -> Seq<LoadWarning>
    decreases files.len(),
{
    if files.len() == 0 {
        Seq::empty()
    } else {
        let i = (files.len() - 1) as usize;
        let f = files.last();
        let prev = load_warnings(langs, files.drop_last());
        match code_id(langs, f.2@) {
            None => prev,
            Some(_) => match f.3 {
                None => prev,
                Some(t) => if t@.len() == 0 {
                    prev
                } else {
                    match toml_table(t@) {
                        None => prev.push(LoadWarning::NotToml(i)),
                        Some(es) => prev + Seq::new(skipped_of(es), |j: int| LoadWarning::NotText(i)),
                    }
                },
            },
        }
    }
}

/// Translations by language ID, module ID, class ID and key ID.
pub type LangList = BTreeMap<i64, BTreeMap<i64, BTreeMap<i64, Arc<BTreeMap<i64, String>>>>>;

/// The translation stored in `list` for a language, module, class and key.
pub open spec fn list_text(list: LangList, a: i64, m: i64, c: i64, d: i64) -> Option<Seq<char>> {
    if list@.contains_key(a) && list@[a]@.contains_key(m) && list@[a]@[m]@.contains_key(c)
        && list@[a]@[m]@[c]@.contains_key(d) {
        Some(list@[a]@[m]@[c]@[d]@)
    } else {
        None
    }
}

/// Stores the translations `ts` for a language, module and class: each key
/// gets the last text given for it; every other entry is kept.
fn merge_translations(list: &mut LangList, a: i64, m: i64, c: i64, ts: &Vec<(i64, String)>)
    ensures
        forall|a2: i64, m2: i64, c2: i64, d: i64| #[trigger]
            list_text(*final(list), a2, m2, c2, d) == if a2 == a && m2 == m && c2 == c && last_text(
                translations_view(ts@),
                d,
            ) is Some {
                last_text(translations_view(ts@), d)
            } else {
                list_text(*old(list), a2, m2, c2, d)
            },
{
    let mut l1 = match list.remove(&a) {
        Some(x) => x,
        None => BTreeMap::new(),
    };
    let mut l2 = match l1.remove(&m) {
        Some(x) => x,
        None => BTreeMap::new(),
    };
    let mut l3: BTreeMap<i64, String> = match l2.remove(&c) {
        Some(x) => (*x).clone(),
        None => BTreeMap::new(),
    };
    let ghost start = l3@;
    let mut j: usize = 0;
    while j < ts.len()
        invariant
            j <= ts@.len(),
            forall|d: i64| #[trigger]
                l3@.contains_key(d) == (start.contains_key(d) || last_text(
                    translations_view(ts@.subrange(0, j as int)),
                    d,
                ) is Some),
            forall|d: i64| #[trigger]
                l3@.contains_key(d) ==> l3@[d]@ == match last_text(
                    translations_view(ts@.subrange(0, j as int)),
                    d,
                ) {
                    Some(t) => t,
                    None => start[d]@,
                },
        decreases ts@.len() - j,
    {
        assert(translations_view(ts@.subrange(0, j + 1)).drop_last() =~= translations_view(
            ts@.subrange(0, j as int),
        ));
        l3.insert(ts[j].0, ts[j].1.clone());
        j = j + 1;
    }
    assert(ts@.subrange(0, ts@.len() as int) =~= ts@);
    l2.insert(c, Arc::new(l3));
    l1.insert(m, l2);
    list.insert(a, l1);
}

impl Lang {
    /// Loads translation files in order (see `loaded_text`), with the
    /// warnings of loading them (see `load_warnings`).
    pub fn load_list(langs: &Vec<LangItem>, files: &Vec<LangFile>) -> (res: (LangList, Vec<LoadWarning>))
        ensures
            forall|a: i64, m: i64, c: i64, d: i64| #[trigger]
                list_text(res.0, a, m, c, d) == loaded_text(
                    langs@.map_values(|x: LangItem| lang_view(x)),
                    files@,
                    a,
                    m,
                    c,
                    d,
                ),
            res.1@ == load_warnings(langs@.map_values(|x: LangItem| lang_view(x)), files@),
    {
        let ghost lv = langs@.map_values(|x: LangItem| lang_view(x));
        let mut list: LangList = BTreeMap::new();
        let mut warn: Vec<LoadWarning> = Vec::new();
        let mut i: usize = 0;
        while i < files.len()
            invariant
                i <= files@.len(),
                lv == langs@.map_values(|x: LangItem| lang_view(x)),
                forall|a: i64, m: i64, c: i64, d: i64| #[trigger]
                    list_text(list, a, m, c, d) == loaded_text(lv, files@.subrange(0, i as int), a, m, c, d),
                warn@ == load_warnings(lv, files@.subrange(0, i as int)),
            decreases files@.len() - i,
        {
            let ghost pre = files@.subrange(0, i as int);
            assert(files@.subrange(0, i + 1).drop_last() =~= pre);
            let f = &files[i];
            if let Some(id) = Lang::code_id(langs, f.2.as_str()) {
                if let Some(text) = &f.3 {
                    if !text.as_str().is_empty() {
                        match Lang::read_translations(text.as_str()) {
                            None => {
                                warn.push(LoadWarning::NotToml(i));
                            },
                            Some((ts, n)) => {
                                let ghost w0 = warn@;
                                let mut k: usize = 0;
                                while k < n
                                    invariant
                                        k <= n,
                                        warn@ == w0 + Seq::new(k as nat, |j: int| LoadWarning::NotText(i)),
                                    decreases n - k,
                                {
                                    warn.push(LoadWarning::NotText(i));
                                    k = k + 1;
                                    assert(warn@ =~= w0 + Seq::new(k as nat, |j: int| LoadWarning::NotText(i)));
                                }
                                let mh = fnv1a_64(f.0.as_str().as_bytes());
                                let ch = fnv1a_64(f.1.as_str().as_bytes());
                                merge_translations(&mut list, id, mh, ch, &ts);
                            },
                        }
                    }
                }
            }
            i = i + 1;
        }
        assert(files@.subrange(0, files@.len() as int) =~= files@);
        (list, warn)
    }

    /// The language of an ID (an index into the list of languages), if
    /// there is one.
    pub fn lang_current(&self, lang_id: usize) -> (res: Option<&LangItem>)
        ensures
            lang_id < self.langs@.len() ==> res == Some(&self.langs@[lang_id as int]),
            lang_id >= self.langs@.len() ==> res is None,
    {
        if lang_id < self.langs.len() {
            Some(&self.langs[lang_id])
        } else {
            None
        }
    }

    /// The list of languages.
    pub fn lang_list(&self) -> (res: &Vec<LangItem>)
        ensures
            res == &self.langs,
    {
        &self.langs
    }

    /// The translations of a class in a language, when it has any.
    pub fn class_texts(&self, lang_id: i64, module_id: i64, class_id: i64) -> (res: Option<BTreeMap<i64, String>>)
        ensures
            if self.list@.contains_key(lang_id) && self.list@[lang_id]@.contains_key(module_id)
                && self.list@[lang_id]@[module_id]@.contains_key(class_id) {
                res matches Some(m) && m@ == self.list@[lang_id]@[module_id]@[class_id]@
            } else {
                res is None
            },
    {
        match self.list.get(&lang_id) {
            Some(l) => match l.get(&module_id) {
                Some(m) => match m.get(&class_id) {
                    Some(c) => Some((**c).clone()),
                    None => None,
                },
                None => None,
            },
            None => None,
        }
    }

    /// All languages and their translations: the languages given, the
    /// default one found by its code (see `default_index`), and the
    /// translation files loaded (see `load_list`). Without languages nothing
    /// is loaded and the only warning is `NoLanguage`.
    pub fn new(langs: Vec<LangItem>, default_lang: &str, files: &Vec<LangFile>) -> (res: (Lang, Vec<LoadWarning>))
        ensures
            res.0.langs@ == langs@,
            langs@.len() == 0 ==> res.0.list@ == Map::<i64, BTreeMap<i64, BTreeMap<i64, Arc<BTreeMap<i64, String>>>>>::empty()
                && res.0.default == 0 && res.1@ == seq![LoadWarning::NoLanguage],
            langs@.len() > 0 ==> {
                &&& res.0.default == match code_id(langs@.map_values(|x: LangItem| lang_view(x)), default_lang@) {
                    Some(id) => id as usize,
                    None => 0usize,
                }
                &&& forall|a: i64, m: i64, c: i64, d: i64| #[trigger]
                    list_text(res.0.list, a, m, c, d) == loaded_text(
                        langs@.map_values(|x: LangItem| lang_view(x)),
                        files@,
                        a,
                        m,
                        c,
                        d,
                    )
                &&& res.1@ == load_warnings(langs@.map_values(|x: LangItem| lang_view(x)), files@)
            },
    {
        if langs.len() == 0 {
            let mut w: Vec<LoadWarning> = Vec::new();
            w.push(LoadWarning::NoLanguage);
            assert(w@ =~= seq![LoadWarning::NoLanguage]);
            return (Lang { langs, list: BTreeMap::new(), default: 0 }, w);
        }
        let default = Lang::default_index(&langs, default_lang);
        let (list, w) = Lang::load_list(&langs, files);
        (Lang { langs, list, default }, w)
    }
}


/// A controller given the translations of a class (as `Lang::class_texts`
/// gives them) of a list loaded from files (as `Lang::load_list` loads it)
/// sees, for each key, the text that the last file of that language, module
/// and class gave for it, and nothing where none did.
pub proof fn law_loaded_translation_seen(
    list: LangList,
    langs: Seq<LangView>,
    files: Seq<LangFile>,
    a: i64,
    m: i64,
    c: i64,
    texts: Option<BTreeMap<i64, String>>,
    k: i64,
)
    requires
        forall|a2: i64, m2: i64, c2: i64, d: i64| #[trigger]
            list_text(list, a2, m2, c2, d) == loaded_text(langs, files, a2, m2, c2, d),
        if list@.contains_key(a) && list@[a]@.contains_key(m) && list@[a]@[m]@.contains_key(c) {
            texts matches Some(t) && t@ == list@[a]@[m]@[c]@
        } else {
            texts is None
        },
    ensures
        translation(texts, k) == loaded_text(langs, files, a, m, c, k),
{
    assert(list_text(list, a, m, c, k) == loaded_text(langs, files, a, m, c, k));
}

} // verus!
