use join_ai::cli::JoinArgs;
use join_ai::decommenter::LanguageDB;
use join_ai::processor::{file_block, is_binary, process_contents, FileAction};
use join_ai::walker::{
    build_overrides, classify, examine, is_candidate, override_globs, overrides_for, Matched,
    OverrideError, Verdict,
};
use std::path::PathBuf;

fn strings(items: &[&str]) -> Vec<String> {
    items.iter().map(|item| item.to_string()).collect()
}

#[test]
fn a_nul_byte_makes_a_file_binary() {
    assert!(is_binary(&[b'b', b'i', b'n', 0, b'a', b'r', b'y']));
    assert!(is_binary(&[0]));
    assert!(!is_binary(b"some text"));
    assert!(!is_binary(b""));
    assert!(!is_binary(&[1, 255, 10]));
}

#[test]
fn a_block_is_header_contents_and_newline() {
    assert_eq!(
        file_block("src/main.rs", b"fn main(){}"),
        b"// FILE: src/main.rs\nfn main(){}\n".to_vec()
    );
    assert_eq!(file_block("", b""), b"// FILE: \n\n".to_vec());
    assert_eq!(
        file_block("dir/é.txt", b"\xff\n"),
        b"// FILE: dir/\xc3\xa9.txt\n\xff\n\n".to_vec()
    );
}

fn appended(action: FileAction) -> Vec<u8> {
    match action {
        FileAction::Append(block) => block,
        FileAction::SkipBinary => panic!("the file was skipped"),
    }
}

#[test]
fn binary_files_are_skipped() {
    let db = LanguageDB::new();
    let action = process_contents(Some(&db), "binary.bin", Some("bin"), &[b'b', 0, b'n']);
    assert!(matches!(action, FileAction::SkipBinary));
    let action = process_contents(None, "lib.rs", Some("rs"), b"// \x00");
    assert!(matches!(action, FileAction::SkipBinary));
}

#[test]
fn known_languages_lose_their_comments_on_the_way() {
    let db = LanguageDB::new();
    let block = appended(process_contents(
        Some(&db),
        "src/lib.rs",
        Some("rs"),
        b"fn f() {} // comment\n",
    ));
    assert_eq!(block, b"// FILE: src/lib.rs\nfn f() {}\n\n".to_vec());
}

#[test]
fn other_files_pass_through_unchanged() {
    let db = LanguageDB::new();
    let contents = b"# Project // notes /* here */\n";
    let expected = b"// FILE: README.md\n# Project // notes /* here */\n\n".to_vec();
    assert_eq!(
        appended(process_contents(Some(&db), "README.md", Some("md"), contents)),
        expected
    );
    assert_eq!(
        appended(process_contents(Some(&db), "README.md", None, contents)),
        expected
    );
    assert_eq!(
        appended(process_contents(None, "README.md", Some("rs"), contents)),
        expected
    );
}

#[test]
fn globs_follow_the_patterns() {
    assert_eq!(override_globs(&None, &None, false), strings(&["*", "!.*"]));
    assert_eq!(override_globs(&None, &None, true), strings(&["*"]));
    assert_eq!(
        override_globs(
            &Some(strings(&["*.rs", "*.toml"])),
            &Some(strings(&["target/", "*.log"])),
            false
        ),
        strings(&["*.rs", "*.toml", "!target/", "!*.log", "!.*"])
    );
    assert_eq!(
        override_globs(&Some(Vec::new()), &Some(Vec::new()), true),
        Vec::<String>::new()
    );
    assert_eq!(
        override_globs(&None, &Some(strings(&["!x"])), true),
        strings(&["*", "!!x"])
    );
}

#[test]
fn verdicts_follow_the_globs() {
    assert!(matches!(
        classify(true, Matched::Whitelist("g".to_string()), true),
        Verdict::OutputFile
    ));
    assert!(matches!(
        classify(false, Matched::Whitelist("g".to_string()), true),
        Verdict::Included(glob) if glob == "g"
    ));
    assert!(matches!(
        classify(false, Matched::Ignore("h".to_string()), false),
        Verdict::Excluded(glob) if glob == "h"
    ));
    assert!(matches!(
        classify(false, Matched::Nothing, true),
        Verdict::NotIncluded
    ));
    assert!(matches!(
        classify(false, Matched::Nothing, false),
        Verdict::IncludedByDefault
    ));
    assert!(Verdict::IncludedByDefault.is_included());
    assert!(Verdict::Included(String::new()).is_included());
    assert!(!Verdict::Excluded(String::new()).is_included());
    assert!(!Verdict::NotIncluded.is_included());
    assert!(!Verdict::OutputFile.is_included());
}

#[test]
fn directories_and_the_output_file_are_not_handed_on() {
    assert!(is_candidate(false, false));
    assert!(!is_candidate(true, false));
    assert!(!is_candidate(false, true));
    assert!(!is_candidate(true, true));
}

#[test]
fn overrides_decide_by_the_globs() {
    let root = PathBuf::from("/project");
    let globs = strings(&["*.rs", "!tests/", "!.*"]);
    let overrides = build_overrides(&root, &globs).unwrap();
    assert!(matches!(
        examine(&overrides, &PathBuf::from("/project/src/main.rs"), false, true),
        Verdict::Included(_)
    ));
    assert!(matches!(
        examine(&overrides, &PathBuf::from("/project/src/main.rs"), true, true),
        Verdict::OutputFile
    ));
    assert!(matches!(
        examine(&overrides, &PathBuf::from("/project/.env"), false, true),
        Verdict::Excluded(_)
    ));
    assert!(matches!(
        examine(&overrides, &PathBuf::from("/project/README.md"), false, true),
        Verdict::Excluded(_)
    ));
    assert_eq!(overrides.num_whitelists(), 1);
    assert_eq!(overrides.num_ignores(), 2);

    let nothing = build_overrides(&root, &Vec::new()).unwrap();
    assert!(nothing.is_empty());
    assert!(matches!(
        examine(&nothing, &PathBuf::from("/project/a.txt"), false, false),
        Verdict::IncludedByDefault
    ));
    assert!(matches!(
        examine(&nothing, &PathBuf::from("/project/a.txt"), false, true),
        Verdict::NotIncluded
    ));
}

#[test]
fn the_first_glob_that_is_refused_is_named() {
    let root = PathBuf::from(".");
    let globs = strings(&["*.rs", "a[", "b{"]);
    match build_overrides(&root, &globs) {
        Err(OverrideError::Glob(glob, _)) => assert_eq!(glob, "a["),
        other => panic!("unexpected result {:?}", other),
    }
    // A line that holds no glob is taken.
    let overrides = build_overrides(&root, &strings(&["", "# note", "*.rs"])).unwrap();
    assert_eq!(overrides.num_whitelists(), 1);
}

fn arguments() -> JoinArgs {
    JoinArgs {
        input_folder: PathBuf::from("/project"),
        output_file: PathBuf::from("/project/output.txt"),
        patterns: None,
        exclude: None,
        clear_file: false,
        max_depth: None,
        hidden: false,
        no_follow: true,
        verbose: 0,
    }
}

#[test]
fn arguments_give_their_overrides() {
    let mut args = arguments();
    let overrides = overrides_for(&args).unwrap();
    assert_eq!(overrides.num_whitelists(), 1);
    assert_eq!(overrides.num_ignores(), 1);
    assert!(matches!(
        examine(&overrides, &PathBuf::from("/project/a/visible.txt"), false, false),
        Verdict::Included(_)
    ));
    assert!(matches!(
        examine(&overrides, &PathBuf::from("/project/.env"), false, false),
        Verdict::Excluded(_)
    ));

    args.hidden = true;
    args.exclude = Some(strings(&["target/", "*.log"]));
    let overrides = overrides_for(&args).unwrap();
    assert_eq!(overrides.num_ignores(), 2);
    assert!(matches!(
        examine(&overrides, &PathBuf::from("/project/.env"), false, false),
        Verdict::Included(_)
    ));
    assert!(matches!(
        examine(&overrides, &PathBuf::from("/project/src/error.log"), false, false),
        Verdict::Excluded(_)
    ));

    args.patterns = Some(strings(&["[z-a]"]));
    assert!(matches!(
        overrides_for(&args),
        Err(OverrideError::Glob(glob, _)) if glob == "[z-a]"
    ));
}

#[test]
fn an_empty_set_speaks_of_no_path() {
    let root = PathBuf::from("/project");
    let nothing = build_overrides(&root, &strings(&["", "# only a note"])).unwrap();
    assert!(nothing.is_empty());
    assert!(matches!(
        examine(&nothing, &PathBuf::from("/project/.hidden"), false, false),
        Verdict::IncludedByDefault
    ));
}

#[test]
fn the_set_holds_the_globs_of_the_arguments() {
    let mut args = arguments();
    args.patterns = Some(strings(&["*.rs", "*.toml"]));
    args.exclude = Some(strings(&["gen_*.rs"]));
    let overrides = overrides_for(&args).unwrap();
    assert_eq!(overrides.num_whitelists(), 2);
    assert_eq!(overrides.num_ignores(), 2);
    // Exclusion wins over inclusion, and hidden files stay out.
    assert!(matches!(
        examine(&overrides, &PathBuf::from("/project/src/lib.rs"), false, true),
        Verdict::Included(_)
    ));
    assert!(matches!(
        examine(&overrides, &PathBuf::from("/project/src/gen_table.rs"), false, true),
        Verdict::Excluded(_)
    ));
    assert!(matches!(
        examine(&overrides, &PathBuf::from("/project/.hidden.rs"), false, true),
        Verdict::Excluded(_)
    ));
    assert!(matches!(
        examine(&overrides, &PathBuf::from("/project/README.md"), false, true),
        Verdict::Excluded(_)
    ));
}
