use join_ai::decommenter::logic::{
    code_length, find_marker, find_pair, find_subsequence, remove_comments, starts_with_at,
    strip_comments,
};
use join_ai::decommenter::{Language, LanguageDB};
use std::sync::Arc;

fn pairs(items: &[(&str, &str)]) -> Vec<(String, String)> {
    items
        .iter()
        .map(|(start, end)| (start.to_string(), end.to_string()))
        .collect()
}

fn strings(items: &[&str]) -> Vec<String> {
    items.iter().map(|item| item.to_string()).collect()
}

fn c_like(nested: bool) -> Arc<Language> {
    Arc::new(Language {
        line_comments: strings(&["//"]),
        multi_line_comments: pairs(&[("/*", "*/")]),
        quotes: pairs(&[("\"", "\"")]),
        allows_nested: nested,
    })
}

/// Both strippers on one input: they have to agree.
fn strip(input: &[u8], lang: &Arc<Language>) -> Vec<u8> {
    let by_bytes = remove_comments(input, lang.clone());
    let by_delimiters = strip_comments(input, lang.clone());
    assert_eq!(by_bytes, by_delimiters);
    by_bytes
}

#[test]
fn nested_block_comments_close_level_by_level() {
    let out = strip(b"/* A /* B */ C */", &c_like(true));
    assert_eq!(out, b"".to_vec());
}

#[test]
fn without_nesting_the_first_end_closes_the_comment() {
    let out = strip(b"/* A /* B */ C */", &c_like(false));
    assert_eq!(out, b" C */".to_vec());
}

#[test]
fn line_comment_goes_with_the_blanks_before_it() {
    let out = strip(b"code   // comment\n", &c_like(false));
    assert_eq!(out, b"code\n".to_vec());
}

#[test]
fn tabs_before_a_line_comment_go_too_but_newlines_stay() {
    let out = strip(b"a\n \t \t// c\nb", &c_like(false));
    assert_eq!(out, b"a\n\nb".to_vec());
}

#[test]
fn line_comment_without_newline_runs_to_the_end() {
    let out = strip(b"x = 1; // never ends", &c_like(false));
    assert_eq!(out, b"x = 1;".to_vec());
}

#[test]
fn block_comment_leaves_exactly_its_newlines() {
    let out = strip(b"a/* one\ntwo\r\nthree\n*/b", &c_like(false));
    assert_eq!(out, b"a\n\n\nb".to_vec());
}

#[test]
fn unterminated_block_comment_is_dropped() {
    let out = strip(b"/* never closes", &c_like(false));
    assert_eq!(out, b"".to_vec());
    let out = strip(b"keep /* never\ncloses\n", &c_like(true));
    assert_eq!(out, b"keep \n\n".to_vec());
}

#[test]
fn unterminated_string_is_passed_through() {
    let out = strip(b"s = \"never // closes /* at all", &c_like(false));
    assert_eq!(out, b"s = \"never // closes /* at all".to_vec());
}

#[test]
fn empty_input_gives_empty_output() {
    assert_eq!(strip(b"", &c_like(false)), Vec::<u8>::new());
    assert_eq!(strip(b"", &c_like(true)), Vec::<u8>::new());
    let nothing = Arc::new(Language {
        line_comments: vec![],
        multi_line_comments: vec![],
        quotes: vec![],
        allows_nested: false,
    });
    assert_eq!(strip(b"", &nothing), Vec::<u8>::new());
}

#[test]
fn a_language_without_delimiters_changes_nothing() {
    let nothing = Arc::new(Language {
        line_comments: vec![],
        multi_line_comments: vec![],
        quotes: vec![],
        allows_nested: true,
    });
    let input = b"// not a comment /* here */ \"nor a string\"\n".to_vec();
    assert_eq!(strip(&input, &nothing), input);
}

#[test]
fn input_without_delimiters_comes_back_unchanged() {
    let input = b"let x = 1;\n  \t\nreturn x + 2;\n\x00\xff\xfe".to_vec();
    assert_eq!(strip(&input, &c_like(true)), input);
}

#[test]
fn stripping_twice_changes_nothing_more() {
    let lang = c_like(true);
    let once = strip(b"int a; // first\n/* block\n */ int b;\n", &lang);
    assert_eq!(once, b"int a;\n\n int b;\n".to_vec());
    let twice = strip(&once, &lang);
    assert_eq!(twice, once);
}

#[test]
fn markers_inside_a_string_are_kept() {
    let out = strip(b"u = \"http://x/*y*/\"; // gone\n", &c_like(false));
    assert_eq!(out, b"u = \"http://x/*y*/\";\n".to_vec());
}

#[test]
fn backslash_keeps_the_next_byte_inside_a_string() {
    let out = strip(b"s = \"a\\\"// still inside\" // outside", &c_like(false));
    assert_eq!(out, b"s = \"a\\\"// still inside\"".to_vec());
}

#[test]
fn backslash_at_the_very_end_of_a_string_is_copied_alone() {
    let out = strip(b"\"abc\\", &c_like(false));
    assert_eq!(out, b"\"abc\\".to_vec());
}

#[test]
fn backslash_outside_a_string_escapes_nothing() {
    let out = strip(b"a \\// comment\nb", &c_like(false));
    assert_eq!(out, b"a \\\nb".to_vec());
}

#[test]
fn end_delimiter_wins_over_backslash_inside_a_string() {
    let lang = Arc::new(Language {
        line_comments: strings(&["#"]),
        multi_line_comments: vec![],
        quotes: pairs(&[("<", "\\>")]),
        allows_nested: false,
    });
    let out = strip(b"<a\\>#b", &lang);
    assert_eq!(out, b"<a\\>".to_vec());
}

#[test]
fn line_comment_wins_over_block_comment_and_quote_at_one_place() {
    let lang = Arc::new(Language {
        line_comments: strings(&["#"]),
        multi_line_comments: pairs(&[("#[", "]#")]),
        quotes: pairs(&[("#\"", "\"")]),
        allows_nested: false,
    });
    assert_eq!(strip(b"a #[ b ]# c\nd", &lang), b"a\nd".to_vec());
    assert_eq!(strip(b"a #\"b\" c\nd", &lang), b"a\nd".to_vec());
}

#[test]
fn block_comment_wins_over_quote_at_one_place() {
    let lang = Arc::new(Language {
        line_comments: vec![],
        multi_line_comments: pairs(&[("'''", "'''")]),
        quotes: pairs(&[("'", "'")]),
        allows_nested: false,
    });
    assert_eq!(strip(b"x = '''doc'''y 'z'", &lang), b"x = y 'z'".to_vec());
}

#[test]
fn the_first_listed_pair_wins_within_one_kind() {
    let long_first = Arc::new(Language {
        line_comments: vec![],
        multi_line_comments: vec![],
        quotes: pairs(&[("\"\"\"", "\"\"\""), ("\"", "\"")]),
        allows_nested: false,
    });
    let short_first = Arc::new(Language {
        line_comments: strings(&["//"]),
        multi_line_comments: vec![],
        quotes: pairs(&[("\"", "\""), ("\"\"\"", "\"\"\"")]),
        allows_nested: false,
    });
    let input = b"\"\"\"a \" // b\"\"\" // c";
    assert_eq!(
        remove_comments(input, long_first),
        b"\"\"\"a \" // b\"\"\" // c".to_vec()
    );
    assert_eq!(
        remove_comments(input, short_first),
        b"\"\"\"a \"".to_vec()
    );
}

#[test]
fn nested_comment_may_open_with_another_pair() {
    let lang = Arc::new(Language {
        line_comments: vec![],
        multi_line_comments: pairs(&[("/*", "*/"), ("{-", "-}")]),
        quotes: vec![],
        allows_nested: true,
    });
    assert_eq!(strip(b"a/* {- */ -} */b", &lang), b"ab".to_vec());
    assert_eq!(strip(b"a/* {- -} b", &lang), b"a".to_vec());
}

#[test]
fn bytes_that_are_no_utf8_are_handled() {
    let out = strip(b"\xff\xfe // \xc3\n\x80/* \xf0 */\xc3", &c_like(false));
    assert_eq!(out, b"\xff\xfe\n\x80\xc3".to_vec());
}

#[test]
fn delimiters_beyond_ascii_work_by_their_bytes() {
    let lang = Arc::new(Language {
        line_comments: strings(&["§"]),
        multi_line_comments: pairs(&[("«", "»")]),
        quotes: vec![],
        allows_nested: false,
    });
    assert_eq!(
        strip("a «b\nc» d § e\nf".as_bytes(), &lang),
        "a \n d\nf".as_bytes().to_vec()
    );
}

#[test]
fn well_formedness_is_tested() {
    assert!(c_like(true).is_well_formed());
    let empty_marker = Language {
        line_comments: strings(&["//", ""]),
        multi_line_comments: vec![],
        quotes: vec![],
        allows_nested: false,
    };
    assert!(!empty_marker.is_well_formed());
    let newline_marker = Language {
        line_comments: strings(&["\n#"]),
        multi_line_comments: vec![],
        quotes: vec![],
        allows_nested: false,
    };
    assert!(!newline_marker.is_well_formed());
    let empty_end = Language {
        line_comments: vec![],
        multi_line_comments: pairs(&[("/*", "")]),
        quotes: vec![],
        allows_nested: false,
    };
    assert!(!empty_end.is_well_formed());
    let empty_quote = Language {
        line_comments: vec![],
        multi_line_comments: vec![],
        quotes: pairs(&[("\"", "\""), ("", "'")]),
        allows_nested: false,
    };
    assert!(!empty_quote.is_well_formed());
    let newline_in_pair = Language {
        line_comments: vec![],
        multi_line_comments: pairs(&[("\n=begin", "\n=end")]),
        quotes: vec![],
        allows_nested: false,
    };
    assert!(newline_in_pair.is_well_formed());
}

#[test]
fn find_subsequence_gives_the_first_occurrence() {
    assert_eq!(find_subsequence(b"abcabc", b"bc"), Some(1));
    assert_eq!(find_subsequence(b"abcabc", b"abcabc"), Some(0));
    assert_eq!(find_subsequence(b"abcabc", b"cb"), None);
    assert_eq!(find_subsequence(b"ab", b"abc"), None);
    assert_eq!(find_subsequence(b"", b"a"), None);
    assert_eq!(find_subsequence(b"aaab", b"ab"), Some(2));
}

#[test]
fn starts_with_at_looks_at_one_place() {
    assert!(starts_with_at(b"abcd", 1, b"bc"));
    assert!(!starts_with_at(b"abcd", 0, b"bc"));
    assert!(!starts_with_at(b"abcd", 3, b"de"));
    assert!(starts_with_at(b"abcd", 4, b""));
    assert!(!starts_with_at(b"abcd", 5, b""));
}

#[test]
fn finders_give_the_first_listed_match() {
    let markers = strings(&["--", "#", "-"]);
    assert_eq!(find_marker(&markers, b"a - b", 2), Some(2));
    assert_eq!(find_marker(&markers, b"a -- b", 2), Some(0));
    assert_eq!(find_marker(&markers, b"a -- b", 0), None);
    let table = pairs(&[("'", "'"), ("'''", "'''")]);
    assert_eq!(find_pair(&table, b"'''", 0), Some(0));
    assert_eq!(find_pair(&table, b"x", 0), None);
}

#[test]
fn code_reaches_to_the_earliest_delimiter() {
    let lang = c_like(false);
    assert_eq!(code_length(b"abc \"s\" // c /* d */", &lang), 4);
    assert_eq!(code_length(b"abc /* d */ \"s\" // c", &lang), 4);
    assert_eq!(code_length(b"// c", &lang), 0);
    assert_eq!(code_length(b"no delimiter / * here", &lang), 21);
    assert_eq!(code_length(b"", &lang), 0);
}

#[test]
fn unknown_extension_passes_the_bytes_through() {
    let db = LanguageDB::new();
    let input = b"# title // not stripped /* at all */\n".to_vec();
    assert!(db.find_by_extension("md").is_none());
    assert_eq!(db.strip_by_extension("md", &input), input);
    assert_eq!(db.strip_by_extension("", &input), input);
    assert_eq!(db.strip_by_extension("RS", &input), input);
}

#[test]
fn known_extension_strips_by_its_language() {
    let db = LanguageDB::new();
    let input = b"x = 1 # one\ny = '#' // two\n";
    assert_eq!(
        db.strip_by_extension("py", input),
        b"x = 1\ny = '#' // two\n".to_vec()
    );
    assert_eq!(
        db.strip_by_extension("rs", input),
        b"x = 1 # one\ny = '#'\n".to_vec()
    );
    assert_eq!(
        db.strip_by_extension("hs", b"a {- b {- c -} d -} e -- f\n"),
        b"a  e\n".to_vec()
    );
    assert_eq!(
        db.strip_by_extension("html", b"<p><!-- gone\n --> kept // too</p>"),
        b"<p>\n kept // too</p>".to_vec()
    );
}

#[test]
fn the_builtin_languages_are_found_and_well_formed() {
    let db = LanguageDB::default();
    for ext in [
        "c", "ec", "pgc", "h", "cs", "csx", "cc", "cpp", "cxx", "c++", "pcc", "tpp", "hh", "hpp",
        "hxx", "inl", "ipp", "css", "go", "hs", "html", "htm", "java", "js", "mjs", "cjs", "kt",
        "kts", "py", "pyw", "pyi", "rb", "rs", "sh", "bash", "zsh", "sql", "swift", "toml", "ts",
        "tsx", "yaml", "yml",
    ] {
        let lang = db
            .find_by_extension(ext)
            .unwrap_or_else(|| panic!("no language for {}", ext));
        assert!(lang.is_well_formed(), "{}", ext);
    }
    let rust = db.find_by_extension("rs").unwrap();
    assert_eq!(rust.line_comments, strings(&["//"]));
    assert_eq!(rust.multi_line_comments, pairs(&[("/*", "*/")]));
    assert_eq!(rust.quotes, pairs(&[("\"", "\""), ("#\"", "\"#")]));
    assert!(rust.allows_nested);
    let c = db.find_by_extension("c").unwrap();
    assert!(!c.allows_nested);
}

#[test]
fn stripping_never_makes_the_input_longer() {
    let db = LanguageDB::new();
    let inputs: [&[u8]; 5] = [
        b"",
        b"\"\"\"\"\"\"",
        b"a // b\n/* c */ d \"e\\\"f\" g",
        b"/*/*/*/ */ */",
        b"''' \\ ''' # x",
    ];
    for ext in ["rs", "c", "py", "hs", "html"] {
        let lang = db.find_by_extension(ext).unwrap();
        for input in inputs {
            assert!(strip(input, &lang).len() <= input.len());
        }
    }
}

#[test]
fn a_second_pass_may_find_what_the_first_put_together() {
    let db = LanguageDB::new();
    let haskell = db.find_by_extension("hs").unwrap();
    let once = strip(b"-{- x -}- c", &haskell);
    assert_eq!(once, b"-- c".to_vec());
    let twice = strip(&once, &haskell);
    assert_eq!(twice, b"".to_vec());
}

fn newlines_in(bytes: &[u8]) -> usize {
    bytes.iter().filter(|byte| **byte == b'\n').count()
}

fn is_left_of(part: &[u8], whole: &[u8]) -> bool {
    let mut rest = whole.iter();
    part.iter().all(|byte| rest.any(|other| other == byte))
}

#[test]
fn stripping_keeps_the_lines_and_only_takes_bytes_out() {
    let db = LanguageDB::new();
    let inputs: [&[u8]; 6] = [
        b"",
        b"a // b\n\n/* c\n\n */ d \"e\n\\\"f\" g\n",
        b"/*/*\n/*/ */\n */\n",
        b"x = ''' \\\n ''' # y\n--z\n",
        b"  \t// only a comment",
        b"<!-- a\n -- b\n -->\n{- c\n{- d\n -}\n",
    ];
    for ext in ["rs", "c", "py", "hs", "html", "sql"] {
        let lang = db.find_by_extension(ext).unwrap();
        for input in inputs {
            let output = strip(input, &lang);
            assert_eq!(newlines_in(&output), newlines_in(input), "{}", ext);
            assert!(is_left_of(&output, input), "{}", ext);
        }
    }
}
