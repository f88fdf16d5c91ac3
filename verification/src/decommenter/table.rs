//! Language tables written in TOML.
//!
//! A table maps each language's name, under the key `languages`, to its
//! definition: the lists `extensions`, `line_comment`,
//! `multi_line_comments` and `quotes`, and the flag `nested`. A list that is
//! absent is empty, and an absent flag is off.

use super::registry::{first_invalid, Registry};
use super::{definition_views, Definition, LanguageDefinition};
use vstd::prelude::*;

verus! {

/// The error of the TOML parser.
#[verifier::external_type_specification]
#[verifier::external_body]
pub struct ExTomlError(toml::de::Error);

/// A value of the TOML parser.
#[verifier::external_type_specification]
#[verifier::external_body]
pub struct ExTomlValue(toml::Value);

/// A TOML value, as far as a language table reads it.
#[derive(Debug)]
pub enum TomlValue {
    Text(String),
    Integer(i64),
    Boolean(bool),
    Array(Vec<TomlValue>),
    /// The entries of a table, in the order of their keys.
    Table(Vec<(String, TomlValue)>),
    /// A value of a kind that no language table holds.
    Other,
}

/// Why a language table was not accepted.
#[derive(Debug)]
pub enum TableError {
    /// The text is not TOML.
    Syntax(toml::de::Error),
    /// The document has no entry `languages`.
    MissingLanguages,
    /// The entry `languages` is not a table.
    NotATable,
    /// The entry of the named language has not the shape of a definition.
    Malformed(String),
    /// The named language has an empty delimiter, or a line-comment marker
    /// that begins with a newline.
    InvalidDelimiter(String),
}

/// A `TableError` as plain text.
pub enum Fault {
    Syntax,
    MissingLanguages,
    NotATable,
    Malformed(Seq<char>),
    InvalidDelimiter(Seq<char>),
}

impl View for TableError {
    type V = Fault;

    open spec fn view(&self) -> Fault {
        match self {
            TableError::Syntax(_) => Fault::Syntax,
            TableError::MissingLanguages => Fault::MissingLanguages,
            TableError::NotATable => Fault::NotATable,
            TableError::Malformed(name) => Fault::Malformed(name@),
            TableError::InvalidDelimiter(name) => Fault::InvalidDelimiter(name@),
        }
    }
}

/// The value of the first entry with the given key.
pub open spec fn field(entries: Seq<(String, TomlValue)>, key: Seq<char>) -> Option<TomlValue>
    decreases entries.len(),
{
    if entries.len() == 0 {
        None
    } else if entries[0].0@ == key {
        Some(entries[0].1)
    } else {
        field(entries.skip(1), key)
    }
}

/// Every item is a string.
pub open spec fn is_texts(items: Seq<TomlValue>) -> bool {
    forall|i: int| 0 <= i < items.len() ==> #[trigger] items[i] is Text
}

/// The strings of a list of strings.
pub open spec fn texts(items: Seq<TomlValue>) -> Seq<Seq<char>> {
    Seq::new(items.len(), |i: int| items[i]->Text_0@)
}

/// The value is a list of exactly two strings.
pub open spec fn is_pair(value: TomlValue) -> bool {
    &&& value is Array
    &&& value->Array_0@.len() == 2
    &&& value->Array_0@[0] is Text
    &&& value->Array_0@[1] is Text
}

/// The two strings of a pair.
pub open spec fn pair(value: TomlValue) -> (Seq<char>, Seq<char>) {
    (value->Array_0@[0]->Text_0@, value->Array_0@[1]->Text_0@)
}

/// Every item is a pair of strings.
pub open spec fn is_pairs(items: Seq<TomlValue>) -> bool {
    forall|i: int| 0 <= i < items.len() ==> is_pair(#[trigger] items[i])
}

/// The pairs of a list of pairs.
pub open spec fn pairs(items: Seq<TomlValue>) -> Seq<(Seq<char>, Seq<char>)> {
    Seq::new(items.len(), |i: int| pair(items[i]))
}

/// The list of strings under `key`: empty where the key is absent, none
/// where the value is anything but a list of strings.
pub open spec fn text_list(entries: Seq<(String, TomlValue)>, key: Seq<char>) -> Option<
    Seq<Seq<char>>,
> {
    match field(entries, key) {
        None => Some(Seq::empty()),
        Some(TomlValue::Array(items)) => if is_texts(items@) {
            Some(texts(items@))
        } else {
            None
        },
        Some(_) => None,
    }
}

/// The list of pairs under `key`: empty where the key is absent, none where
/// the value is anything but a list of pairs of strings.
pub open spec fn pair_list(entries: Seq<(String, TomlValue)>, key: Seq<char>) -> Option<
    Seq<(Seq<char>, Seq<char>)>,
> {
    match field(entries, key) {
        None => Some(Seq::empty()),
        Some(TomlValue::Array(items)) => if is_pairs(items@) {
            Some(pairs(items@))
        } else {
            None
        },
        Some(_) => None,
    }
}

/// The flag under `key`: off where the key is absent, none where the value
/// is no boolean.
pub open spec fn flag(entries: Seq<(String, TomlValue)>, key: Seq<char>) -> Option<bool> {
    match field(entries, key) {
        None => Some(false),
        Some(TomlValue::Boolean(on)) => Some(on),
        Some(_) => None,
    }
}

/// The definition that a value holds: a table whose known entries have the
/// shape the format asks for. Other entries are ignored.
pub open spec fn definition(value: TomlValue) -> Option<Definition> {
    match value {
        TomlValue::Table(entries) => {
            let extensions = text_list(entries@, "extensions"@);
            let line_comments = text_list(entries@, "line_comment"@);
            let multi_line_comments = pair_list(entries@, "multi_line_comments"@);
            let quotes = pair_list(entries@, "quotes"@);
            let nested = flag(entries@, "nested"@);
            if extensions is Some && line_comments is Some && multi_line_comments is Some
                && quotes is Some && nested is Some {
                Some(
                    Definition {
                        extensions: extensions->0,
                        line_comments: line_comments->0,
                        multi_line_comments: multi_line_comments->0,
                        quotes: quotes->0,
                        nested: nested->0,
                    },
                )
            } else {
                None
            }
        },
        _ => None,
    }
}

/// The name of the first language whose entry holds no definition.
pub open spec fn first_malformed(entries: Seq<(String, TomlValue)>) -> Option<Seq<char>>
    decreases entries.len(),
{
    if entries.len() == 0 {
        None
    } else if definition(entries[0].1) is None {
        Some(entries[0].0@)
    } else {
        first_malformed(entries.skip(1))
    }
}

/// The definitions that the entries hold, each under its language's name.
pub open spec fn decoded(entries: Seq<(String, TomlValue)>) -> Seq<(Seq<char>, Definition)> {
    Seq::new(entries.len(), |i: int| (entries[i].0@, definition(entries[i].1)->0))
}

/// The definitions of a document, in the order of its `languages` table,
/// or why it holds none.
pub open spec fn definitions(doc: TomlValue) -> Result<Seq<(Seq<char>, Definition)>, Fault> {
    match doc {
        TomlValue::Table(root) => match field(root@, "languages"@) {
            None => Err(Fault::MissingLanguages),
            Some(TomlValue::Table(languages)) => match first_malformed(languages@) {
                Some(name) => Err(Fault::Malformed(name)),
                None => Ok(decoded(languages@)),
            },
            Some(_) => Err(Fault::NotATable),
        },
        _ => Err(Fault::MissingLanguages),
    }
}

/// The registry that a document describes, or why it describes none.
pub open spec fn registry(doc: TomlValue) -> Result<Registry, Fault> {
    match definitions(doc) {
        Err(fault) => Err(fault),
        Ok(defs) => match first_invalid(defs) {
            Some(name) => Err(Fault::InvalidDelimiter(name)),
            None => Ok(Registry::of(defs)),
        },
    }
}

/// The registry that a TOML text describes, or why it describes none.
pub open spec fn loaded(text: Seq<char>) -> Result<Registry, Fault> {
    match toml_document(text) {
        Err(_) => Err(Fault::Syntax),
        Ok(doc) => registry(doc),
    }
}

/// What the TOML parser makes of a text: the document as a table, or the
/// parser's error.
pub uninterp spec fn toml_document(text: Seq<char>) -> Result<TomlValue, toml::de::Error>;

/// A `toml::Value` as a `TomlValue`, variant by variant. The entries of a
/// table come in the order in which `toml::map::Map` hands them out, which
/// is that of their keys. Of a number with a fraction and of a date only
/// the kind is kept.
#[verifier::external_body]
fn plain_value(value: toml::Value) -> TomlValue {
    match value {
        toml::Value::String(text) => TomlValue::Text(text),
        toml::Value::Integer(number) => TomlValue::Integer(number),
        toml::Value::Boolean(on) => TomlValue::Boolean(on),
        toml::Value::Array(items) => TomlValue::Array(items.into_iter().map(plain_value).collect()),
        toml::Value::Table(entries) => TomlValue::Table(
            entries.into_iter().map(|(key, value)| (key, plain_value(value))).collect(),
        ),
        toml::Value::Float(_) | toml::Value::Datetime(_) => TomlValue::Other,
    }
}

/// `toml::from_str`, asked for a table: parses a TOML document. The result
/// depends on the text alone.
#[verifier::external_body]
fn parse_document(text: &str) -> (parsed: Result<TomlValue, toml::de::Error>)
    ensures
        parsed == toml_document(text@),
{
    let table = toml::from_str::<toml::Table>(text)?;
    Ok(plain_value(toml::Value::Table(table)))
}

/// Parses a TOML text into the document it holds.
pub fn parse(text: &str) -> (parsed: Result<TomlValue, TableError>)
    ensures
        match parsed {
            Ok(doc) => toml_document(text@) == Ok::<_, toml::de::Error>(doc),
            Err(error) => toml_document(text@) is Err && error == TableError::Syntax(
                toml_document(text@)->Err_0,
            ),
        },
{
    match parse_document(text) {
        Ok(doc) => Ok(doc),
        Err(error) => Err(TableError::Syntax(error)),
    }
}

/// The value of the first entry with the given key.
fn lookup<'a>(entries: &'a Vec<(String, TomlValue)>, key: &str) -> (found: Option<&'a TomlValue>)
    ensures
        found == match field(entries@, key@) {
            Some(value) => Some(&value),
            None => None,
        },
{
    let wanted = key.to_owned();
    let mut k: usize = 0;
    assert(entries@.skip(0) =~= entries@);
    while k < entries.len()
        invariant
            k <= entries@.len(),
            wanted@ == key@,
            field(entries@, key@) == field(entries@.skip(k as int), key@),
        decreases entries@.len() - k,
    {
        assert(entries@.skip(k as int)[0] == entries@[k as int]);
        if entries[k].0 == wanted {
            return Some(&entries[k].1);
        }
        assert(entries@.skip(k as int).skip(1) =~= entries@.skip(k + 1));
        k += 1;
    }
    None
}

/// The strings of a list, where every item is one.
fn decode_texts(items: &Vec<TomlValue>) -> (decoded: Option<Vec<String>>)
    ensures
        match decoded {
            Some(strings) => is_texts(items@) && strings.deep_view() == texts(items@),
            None => !is_texts(items@),
        },
{
    let mut strings: Vec<String> = Vec::with_capacity(items.len());
    let mut k: usize = 0;
    while k < items.len()
        invariant
            k <= items@.len(),
            strings@.len() == k,
            forall|i: int|
                #![trigger items@[i]]
                #![trigger strings@[i]]
                0 <= i < k ==> items@[i] is Text && strings@[i]@ == items@[i]->Text_0@,
        decreases items@.len() - k,
    {
        let text = match &items[k] {
            TomlValue::Text(text) => text.clone(),
            _ => {
                return None;
            },
        };
        strings.push(text);
        k += 1;
    }
    assert(strings.deep_view() =~= texts(items@));
    Some(strings)
}

/// The two strings of a pair, where the value is one.
fn decode_pair(value: &TomlValue) -> (decoded: Option<(String, String)>)
    ensures
        match decoded {
            Some(both) => is_pair(*value) && both.deep_view() == pair(*value),
            None => !is_pair(*value),
        },
{
    match value {
        TomlValue::Array(items) => {
            if items.len() != 2 {
                return None;
            }
            match (&items[0], &items[1]) {
                (TomlValue::Text(start), TomlValue::Text(end)) => Some((start.clone(), end.clone())),
                _ => None,
            }
        },
        _ => None,
    }
}

/// The pairs of a list, where every item is one.
fn decode_pairs(items: &Vec<TomlValue>) -> (decoded: Option<Vec<(String, String)>>)
    ensures
        match decoded {
            Some(all) => is_pairs(items@) && all.deep_view() == pairs(items@),
            None => !is_pairs(items@),
        },
{
    let mut all: Vec<(String, String)> = Vec::with_capacity(items.len());
    let mut k: usize = 0;
    while k < items.len()
        invariant
            k <= items@.len(),
            all@.len() == k,
            forall|i: int|
                #![trigger items@[i]]
                #![trigger all@[i]]
                0 <= i < k ==> is_pair(items@[i]) && all@[i].deep_view() == pair(items@[i]),
        decreases items@.len() - k,
    {
        let both = match decode_pair(&items[k]) {
            Some(both) => both,
            None => {
                return None;
            },
        };
        all.push(both);
        k += 1;
    }
    assert(all.deep_view() =~= pairs(items@));
    Some(all)
}

/// The list of strings under `key`.
fn decode_text_list(entries: &Vec<(String, TomlValue)>, key: &str) -> (decoded: Option<Vec<String>>)
    ensures
        match decoded {
            Some(strings) => text_list(entries@, key@) == Some(strings.deep_view()),
            None => text_list(entries@, key@) is None,
        },
{
    match lookup(entries, key) {
        None => Some(Vec::new()),
        Some(TomlValue::Array(items)) => decode_texts(items),
        Some(_) => None,
    }
}

/// The list of pairs under `key`.
fn decode_pair_list(entries: &Vec<(String, TomlValue)>, key: &str) -> (decoded: Option<
    Vec<(String, String)>,
>)
    ensures
        match decoded {
            Some(all) => pair_list(entries@, key@) == Some(all.deep_view()),
            None => pair_list(entries@, key@) is None,
        },
{
    match lookup(entries, key) {
        None => Some(Vec::new()),
        Some(TomlValue::Array(items)) => decode_pairs(items),
        Some(_) => None,
    }
}

/// The flag under `key`.
fn decode_flag(entries: &Vec<(String, TomlValue)>, key: &str) -> (decoded: Option<bool>)
    ensures
        decoded == flag(entries@, key@),
{
    match lookup(entries, key) {
        None => Some(false),
        Some(TomlValue::Boolean(on)) => Some(*on),
        Some(_) => None,
    }
}

/// Reads one language's definition from its entry in the table.
pub fn decode_definition(value: &TomlValue) -> (decoded: Option<LanguageDefinition>)
    ensures
        match decoded {
            Some(def) => definition(*value) == Some(def@),
            None => definition(*value) is None,
        },
{
    match value {
        TomlValue::Table(entries) => {
            let extensions = decode_text_list(entries, "extensions");
            let line_comments = decode_text_list(entries, "line_comment");
            let multi_line_comments = decode_pair_list(entries, "multi_line_comments");
            let quotes = decode_pair_list(entries, "quotes");
            let nested = decode_flag(entries, "nested");
            match (extensions, line_comments, multi_line_comments, quotes, nested) {
                (
                    Some(extensions),
                    Some(line_comments),
                    Some(multi_line_comments),
                    Some(quotes),
                    Some(nested),
                ) => Some(
                    LanguageDefinition {
                        extensions,
                        line_comments,
                        multi_line_comments,
                        quotes,
                        nested,
                    },
                ),
                _ => None,
            }
        },
        _ => None,
    }
}

/// Reads the definitions of a document's `languages` table, in its order.
pub fn decode_definitions(doc: &TomlValue) -> (decoded: Result<
    Vec<(String, LanguageDefinition)>,
    TableError,
>)
    ensures
        match decoded {
            Ok(defs) => definitions(*doc) == Ok::<_, Fault>(definition_views(defs@)),
            Err(error) => !(error is Syntax) && !(error is InvalidDelimiter) && definitions(*doc)
                == Err::<Seq<(Seq<char>, Definition)>, _>(error@),
        },
{
    let root = match doc {
        TomlValue::Table(root) => root,
        _ => {
            return Err(TableError::MissingLanguages);
        },
    };
    let languages = match lookup(root, "languages") {
        None => {
            return Err(TableError::MissingLanguages);
        },
        Some(TomlValue::Table(languages)) => languages,
        Some(_) => {
            return Err(TableError::NotATable);
        },
    };
    let mut defs: Vec<(String, LanguageDefinition)> = Vec::with_capacity(languages.len());
    let mut k: usize = 0;
    assert(languages@.skip(0) =~= languages@);
    while k < languages.len()
        invariant
            k <= languages@.len(),
            *doc is Table,
            field(doc->Table_0@, "languages"@) == Some(TomlValue::Table(*languages)),
            first_malformed(languages@) == first_malformed(languages@.skip(k as int)),
            defs@.len() == k,
            forall|i: int|
                #![trigger languages@[i]]
                #![trigger defs@[i]]
                0 <= i < k ==> defs@[i].0@ == languages@[i].0@ && definition(languages@[i].1)
                    == Some(defs@[i].1@),
        decreases languages@.len() - k,
    {
        assert(languages@.skip(k as int)[0] == languages@[k as int]);
        assert(languages@.skip(k as int).skip(1) =~= languages@.skip(k + 1));
        let def = match decode_definition(&languages[k].1) {
            Some(def) => def,
            None => {
                return Err(TableError::Malformed(languages[k].0.clone()));
            },
        };
        defs.push((languages[k].0.clone(), def));
        k += 1;
    }
    assert(definition_views(defs@) =~= decoded(languages@));
    Ok(defs)
}

} // verus!
