use join_ai::decommenter::table::{
    decode_definition, decode_definitions, parse, TableError, TomlValue,
};
use join_ai::decommenter::{LanguageDB, LanguageDefinition};

fn text(value: &str) -> TomlValue {
    TomlValue::Text(value.to_string())
}

fn list(items: Vec<TomlValue>) -> TomlValue {
    TomlValue::Array(items)
}

fn table(entries: Vec<(&str, TomlValue)>) -> TomlValue {
    TomlValue::Table(
        entries
            .into_iter()
            .map(|(key, value)| (key.to_string(), value))
            .collect(),
    )
}

fn pair(start: &str, end: &str) -> TomlValue {
    list(vec![text(start), text(end)])
}

fn rust_entry() -> TomlValue {
    table(vec![
        ("extensions", list(vec![text("rs")])),
        ("line_comment", list(vec![text("//")])),
        ("multi_line_comments", list(vec![pair("/*", "*/")])),
        ("nested", TomlValue::Boolean(true)),
        ("quotes", list(vec![pair("\"", "\"")])),
    ])
}

fn document(languages: Vec<(&str, TomlValue)>) -> TomlValue {
    table(vec![("languages", table(languages))])
}

const TABLE: &str = r##"
# a small table
title = "languages"

[languages.Rust]
extensions = ["rs"]
line_comment = ["//"]
multi_line_comments = [["/*", "*/"]]
quotes = [["\"", "\""], ["#\"", "\"#"]]
nested = true

[languages.Ada]
extensions = ["ada", "adb"]
line_comment = ["--"]

[languages.Plain]
name = "ignored"
"##;

#[test]
fn a_table_in_toml_becomes_a_registry() {
    let db = LanguageDB::from_toml(TABLE).unwrap();
    let rust = db.find_by_extension("rs").unwrap();
    assert_eq!(rust.line_comments, vec!["//".to_string()]);
    assert_eq!(
        rust.multi_line_comments,
        vec![("/*".to_string(), "*/".to_string())]
    );
    assert_eq!(
        rust.quotes,
        vec![
            ("\"".to_string(), "\"".to_string()),
            ("#\"".to_string(), "\"#".to_string())
        ]
    );
    assert!(rust.allows_nested);

    let ada = db.find_by_extension("adb").unwrap();
    assert_eq!(ada.line_comments, vec!["--".to_string()]);
    assert!(ada.multi_line_comments.is_empty());
    assert!(ada.quotes.is_empty());
    assert!(!ada.allows_nested);

    assert!(db.find_by_extension("Plain").is_none());
    assert!(db.find_by_extension("txt").is_none());
    assert_eq!(
        db.strip_by_extension("ada", b"x := 1; -- one\n"),
        b"x := 1;\n".to_vec()
    );
}

#[test]
fn the_parser_hands_out_the_document_as_plain_values() {
    let doc = parse("b = [1, \"two\", true, 2.5]\na = { x = \"y\" }\n").unwrap();
    match doc {
        TomlValue::Table(entries) => {
            assert_eq!(entries.len(), 2);
            assert_eq!(entries[0].0, "a");
            assert_eq!(entries[1].0, "b");
            match &entries[0].1 {
                TomlValue::Table(inner) => {
                    assert_eq!(inner.len(), 1);
                    assert_eq!(inner[0].0, "x");
                    assert!(matches!(&inner[0].1, TomlValue::Text(y) if y == "y"));
                }
                other => panic!("unexpected value {:?}", other),
            }
            match &entries[1].1 {
                TomlValue::Array(items) => {
                    assert_eq!(items.len(), 4);
                    assert!(matches!(items[0], TomlValue::Integer(1)));
                    assert!(matches!(&items[1], TomlValue::Text(two) if two == "two"));
                    assert!(matches!(items[2], TomlValue::Boolean(true)));
                    assert!(matches!(items[3], TomlValue::Other));
                }
                other => panic!("unexpected value {:?}", other),
            }
        }
        other => panic!("unexpected document {:?}", other),
    }
}

#[test]
fn languages_come_in_the_order_of_their_names() {
    let doc = parse("[languages.b]\nextensions = [\"x\"]\nline_comment = [\";\"]\n[languages.a]\nextensions = [\"x\"]\nline_comment = [\"#\"]\n").unwrap();
    let defs = decode_definitions(&doc).unwrap();
    assert_eq!(defs.len(), 2);
    assert_eq!(defs[0].0, "a");
    assert_eq!(defs[1].0, "b");
    // The later definition takes the extension.
    let db = LanguageDB::from_document(&doc).unwrap();
    assert_eq!(
        db.find_by_extension("x").unwrap().line_comments,
        vec![";".to_string()]
    );
}

#[test]
fn text_that_is_no_toml_is_a_syntax_error() {
    let error = LanguageDB::from_toml("[languages\nRust = ").unwrap_err();
    assert!(matches!(error, TableError::Syntax(_)));
    let error = parse("a = 1\na = 2\n").unwrap_err();
    assert!(matches!(error, TableError::Syntax(_)));
}

#[test]
fn a_document_without_languages_is_refused() {
    let error = LanguageDB::from_toml("title = \"nothing\"\n").unwrap_err();
    assert!(matches!(error, TableError::MissingLanguages));
    let error = LanguageDB::from_toml("").unwrap_err();
    assert!(matches!(error, TableError::MissingLanguages));
    let error = LanguageDB::from_document(&text("languages")).unwrap_err();
    assert!(matches!(error, TableError::MissingLanguages));
}

#[test]
fn languages_has_to_be_a_table() {
    let error = LanguageDB::from_toml("languages = [\"Rust\"]\n").unwrap_err();
    assert!(matches!(error, TableError::NotATable));
    let error = LanguageDB::from_document(&table(vec![("languages", text("Rust"))])).unwrap_err();
    assert!(matches!(error, TableError::NotATable));
}

#[test]
fn an_empty_languages_table_gives_an_empty_registry() {
    let db = LanguageDB::from_toml("[languages]\n").unwrap();
    assert!(db.find_by_extension("rs").is_none());
}

fn malformed(entry: TomlValue) -> String {
    match LanguageDB::from_document(&document(vec![("Good", rust_entry()), ("Odd", entry)])) {
        Err(TableError::Malformed(name)) => name,
        other => panic!("unexpected result {:?}", other),
    }
}

#[test]
fn an_entry_of_the_wrong_shape_is_named() {
    assert_eq!(malformed(text("rs")), "Odd");
    assert_eq!(malformed(table(vec![("extensions", text("rs"))])), "Odd");
    assert_eq!(
        malformed(table(vec![(
            "extensions",
            list(vec![text("rs"), TomlValue::Integer(1)])
        )])),
        "Odd"
    );
    assert_eq!(
        malformed(table(vec![("line_comment", list(vec![pair("/", "/")]))])),
        "Odd"
    );
    assert_eq!(
        malformed(table(vec![("quotes", list(vec![text("\"")]))])),
        "Odd"
    );
    assert_eq!(
        malformed(table(vec![(
            "multi_line_comments",
            list(vec![list(vec![text("/*"), text("*/"), text("*/")])])
        )])),
        "Odd"
    );
    assert_eq!(
        malformed(table(vec![(
            "multi_line_comments",
            list(vec![list(vec![text("/*")])])
        )])),
        "Odd"
    );
    assert_eq!(malformed(table(vec![("nested", text("true"))])), "Odd");
    assert_eq!(malformed(table(vec![("nested", TomlValue::Other)])), "Odd");
}

#[test]
fn the_first_malformed_entry_is_the_one_named() {
    let doc = document(vec![
        ("A", rust_entry()),
        ("B", text("b")),
        ("C", text("c")),
    ]);
    match decode_definitions(&doc) {
        Err(TableError::Malformed(name)) => assert_eq!(name, "B"),
        other => panic!("unexpected result {:?}", other),
    }
}

#[test]
fn absent_fields_are_empty_and_unknown_ones_ignored() {
    let def: LanguageDefinition =
        decode_definition(&table(vec![("comment", text("none")), ("Nested", text("x"))]))
            .unwrap();
    assert!(def.extensions.is_empty());
    assert!(def.line_comments.is_empty());
    assert!(def.multi_line_comments.is_empty());
    assert!(def.quotes.is_empty());
    assert!(!def.nested);

    let def = decode_definition(&rust_entry()).unwrap();
    assert_eq!(def.extensions, vec!["rs".to_string()]);
    assert_eq!(def.line_comments, vec!["//".to_string()]);
    assert_eq!(
        def.multi_line_comments,
        vec![("/*".to_string(), "*/".to_string())]
    );
    assert_eq!(def.quotes, vec![("\"".to_string(), "\"".to_string())]);
    assert!(def.nested);
    assert!(decode_definition(&list(vec![])).is_none());
}

fn invalid(entry: TomlValue) -> String {
    match LanguageDB::from_document(&document(vec![("Good", rust_entry()), ("Void", entry)])) {
        Err(TableError::InvalidDelimiter(name)) => name,
        other => panic!("unexpected result {:?}", other),
    }
}

#[test]
fn a_language_with_an_invalid_delimiter_is_named() {
    assert_eq!(
        invalid(table(vec![("line_comment", list(vec![text("")]))])),
        "Void"
    );
    assert_eq!(
        invalid(table(vec![("line_comment", list(vec![text("\n")]))])),
        "Void"
    );
    assert_eq!(
        invalid(table(vec![("multi_line_comments", list(vec![pair("", "*/")]))])),
        "Void"
    );
    assert_eq!(
        invalid(table(vec![("quotes", list(vec![pair("'", "")]))])),
        "Void"
    );
    let error = LanguageDB::from_toml("[languages.Void]\nline_comment = [\"\"]\n").unwrap_err();
    assert!(matches!(error, TableError::InvalidDelimiter(name) if name == "Void"));
}

#[test]
fn a_malformed_entry_is_reported_before_an_invalid_delimiter() {
    let doc = document(vec![
        ("A", table(vec![("line_comment", list(vec![text("")]))])),
        ("B", text("b")),
    ]);
    let error = LanguageDB::from_document(&doc).unwrap_err();
    assert!(matches!(error, TableError::Malformed(name) if name == "B"));
}

fn definition(extensions: &[&str], marker: &str) -> LanguageDefinition {
    LanguageDefinition {
        extensions: extensions.iter().map(|ext| ext.to_string()).collect(),
        line_comments: vec![marker.to_string()],
        multi_line_comments: vec![],
        quotes: vec![],
        nested: false,
    }
}

fn marker_of(db: &LanguageDB, ext: &str) -> Option<String> {
    db.find_by_extension(ext)
        .map(|lang| lang.line_comments[0].clone())
}

#[test]
fn the_last_definition_that_lists_an_extension_takes_it() {
    let defs = vec![
        ("One".to_string(), definition(&["a", "b"], "#")),
        ("Two".to_string(), definition(&["b", "c"], ";")),
    ];
    let db = LanguageDB::from_definitions(&defs).unwrap();
    assert_eq!(marker_of(&db, "a"), Some("#".to_string()));
    assert_eq!(marker_of(&db, "b"), Some(";".to_string()));
    assert_eq!(marker_of(&db, "c"), Some(";".to_string()));
    assert_eq!(marker_of(&db, "d"), None);
}

#[test]
fn a_later_definition_of_the_same_name_replaces_the_language() {
    let defs = vec![
        ("One".to_string(), definition(&["a"], "#")),
        ("One".to_string(), definition(&["b"], ";")),
    ];
    let db = LanguageDB::from_definitions(&defs).unwrap();
    assert_eq!(marker_of(&db, "a"), Some(";".to_string()));
    assert_eq!(marker_of(&db, "b"), Some(";".to_string()));
}

#[test]
fn definitions_with_invalid_delimiters_are_refused() {
    let defs = vec![
        ("One".to_string(), definition(&["a"], "#")),
        ("Two".to_string(), definition(&["b"], "")),
        ("Three".to_string(), definition(&["c"], "\n")),
    ];
    match LanguageDB::from_definitions(&defs) {
        Err(TableError::InvalidDelimiter(name)) => assert_eq!(name, "Two"),
        other => panic!("unexpected result {:?}", other),
    }
    let db = LanguageDB::from_definitions(&Vec::new()).unwrap();
    assert!(db.find_by_extension("a").is_none());
}

#[test]
fn a_definition_gives_its_language() {
    let def = LanguageDefinition {
        extensions: vec!["x".to_string()],
        line_comments: vec!["#".to_string()],
        multi_line_comments: vec![("(*".to_string(), "*)".to_string())],
        quotes: vec![("'".to_string(), "'".to_string())],
        nested: true,
    };
    let lang = def.language();
    assert_eq!(lang.line_comments, def.line_comments);
    assert_eq!(lang.multi_line_comments, def.multi_line_comments);
    assert_eq!(lang.quotes, def.quotes);
    assert!(lang.allows_nested);
}
