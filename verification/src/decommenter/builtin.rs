//! The languages that the registry knows from the start.

use super::model::NEWLINE;
use super::registry::first_invalid;
use super::{definition_views, delimiter_bytes, Definition, LanguageDefinition};
use vstd::prelude::*;
use vstd::utf8::{is_ascii_chars, is_ascii_chars_encode_utf8};

verus! {

/// The text of each string of a list.
pub open spec fn texts(strings: Seq<&str>) -> Seq<Seq<char>> {
    Seq::new(strings.len(), |i: int| strings[i]@)
}

/// The text of each pair of a list.
pub open spec fn text_pairs(pairs: Seq<(&str, &str)>) -> Seq<(Seq<char>, Seq<char>)> {
    Seq::new(pairs.len(), |i: int| (pairs[i].0@, pairs[i].1@))
}

/// One entry of the table: a language's name and its definition.
pub open spec fn entry(
    name: &str,
    extensions: Seq<&str>,
    line_comments: Seq<&str>,
    multi_line_comments: Seq<(&str, &str)>,
    quotes: Seq<(&str, &str)>,
    nested: bool,
) -> (Seq<char>, Definition) {
    (
        name@,
        Definition {
            extensions: texts(extensions),
            line_comments: texts(line_comments),
            multi_line_comments: text_pairs(multi_line_comments),
            quotes: text_pairs(quotes),
            nested,
        },
    )
}

/// The table of the languages that every registry starts with.
pub open spec fn builtin_table() -> Seq<(Seq<char>, Definition)> {
    seq![
        entry(
            "C",
            seq!["c", "ec", "pgc"],
            seq!["//"],
            seq![("/*", "*/")],
            seq![("\"", "\"")],
            false,
        ),
        entry(
            "CHeader",
            seq!["h"],
            seq!["//"],
            seq![("/*", "*/")],
            seq![("\"", "\"")],
            false,
        ),
        entry(
            "CSharp",
            seq!["cs", "csx"],
            seq!["//"],
            seq![("/*", "*/")],
            seq![("\"", "\"")],
            false,
        ),
        entry(
            "Cpp",
            seq!["cc", "cpp", "cxx", "c++", "pcc", "tpp"],
            seq!["//"],
            seq![("/*", "*/")],
            seq![("\"", "\"")],
            false,
        ),
        entry(
            "CppHeader",
            seq!["hh", "hpp", "hxx", "inl", "ipp"],
            seq!["//"],
            seq![("/*", "*/")],
            seq![("\"", "\"")],
            false,
        ),
        entry(
            "Css",
            seq!["css"],
            seq![],
            seq![("/*", "*/")],
            seq![("\"", "\""), ("'", "'")],
            false,
        ),
        entry(
            "Go",
            seq!["go"],
            seq!["//"],
            seq![("/*", "*/")],
            seq![("\"", "\""), ("`", "`")],
            false,
        ),
        entry(
            "Haskell",
            seq!["hs"],
            seq!["--"],
            seq![("{-", "-}")],
            seq![("\"", "\"")],
            true,
        ),
        entry(
            "Html",
            seq!["html", "htm"],
            seq![],
            seq![("<!--", "-->")],
            seq![("\"", "\""), ("'", "'")],
            false,
        ),
        entry(
            "Java",
            seq!["java"],
            seq!["//"],
            seq![("/*", "*/")],
            seq![("\"", "\"")],
            false,
        ),
        entry(
            "JavaScript",
            seq!["js", "mjs", "cjs"],
            seq!["//"],
            seq![("/*", "*/")],
            seq![("\"", "\""), ("'", "'"), ("`", "`")],
            false,
        ),
        entry(
            "Kotlin",
            seq!["kt", "kts"],
            seq!["//"],
            seq![("/*", "*/")],
            seq![("\"\"\"", "\"\"\""), ("\"", "\"")],
            true,
        ),
        entry(
            "Python",
            seq!["py", "pyw", "pyi"],
            seq!["#"],
            seq![],
            seq![("\"\"\"", "\"\"\""), ("'''", "'''"), ("\"", "\""), ("'", "'")],
            false,
        ),
        entry(
            "Ruby",
            seq!["rb"],
            seq!["#"],
            seq![],
            seq![("\"", "\""), ("'", "'")],
            false,
        ),
        entry(
            "Rust",
            seq!["rs"],
            seq!["//"],
            seq![("/*", "*/")],
            seq![("\"", "\""), ("#\"", "\"#")],
            true,
        ),
        entry(
            "Sh",
            seq!["sh", "bash", "zsh"],
            seq!["#"],
            seq![],
            seq![("\"", "\""), ("'", "'")],
            false,
        ),
        entry(
            "Sql",
            seq!["sql"],
            seq!["--"],
            seq![("/*", "*/")],
            seq![("'", "'")],
            false,
        ),
        entry(
            "Swift",
            seq!["swift"],
            seq!["//"],
            seq![("/*", "*/")],
            seq![("\"", "\"")],
            true,
        ),
        entry(
            "Toml",
            seq!["toml"],
            seq!["#"],
            seq![],
            seq![("\"\"\"", "\"\"\""), ("'''", "'''"), ("\"", "\""), ("'", "'")],
            false,
        ),
        entry(
            "TypeScript",
            seq!["ts", "tsx"],
            seq!["//"],
            seq![("/*", "*/")],
            seq![("\"", "\""), ("'", "'"), ("`", "`")],
            false,
        ),
        entry(
            "Yaml",
            seq!["yaml", "yml"],
            seq!["#"],
            seq![],
            seq![("\"", "\""), ("'", "'")],
            false,
        ),
    ]
}

/// A text that can serve as a delimiter of any kind: it is not empty and
/// does not begin with a newline.
pub open spec fn is_delimiter(text: Seq<char>) -> bool {
    delimiter_bytes(text).len() > 0 && delimiter_bytes(text)[0] != NEWLINE
}

/// ASCII text that is not empty and does not begin with a newline is a
/// delimiter.
proof fn lemma_ascii_delimiter(text: Seq<char>)
    requires
        is_ascii_chars(text),
        text.len() > 0,
        text[0] != '\n',
    ensures
        is_delimiter(text),
{
    is_ascii_chars_encode_utf8(text);
    assert(text[0] as u8 != NEWLINE);
}

/// The delimiters of the table.
proof fn lemma_delimiters()
    ensures
        is_delimiter("//"@),
        is_delimiter("/*"@),
        is_delimiter("*/"@),
        is_delimiter("\""@),
        is_delimiter("'"@),
        is_delimiter("`"@),
        is_delimiter("--"@),
        is_delimiter("{-"@),
        is_delimiter("-}"@),
        is_delimiter("<!--"@),
        is_delimiter("-->"@),
        is_delimiter("\"\"\""@),
        is_delimiter("#"@),
        is_delimiter("'''"@),
        is_delimiter("#\""@),
        is_delimiter("\"#"@),
{
    reveal_strlit("//");
    lemma_ascii_delimiter("//"@);
    reveal_strlit("/*");
    lemma_ascii_delimiter("/*"@);
    reveal_strlit("*/");
    lemma_ascii_delimiter("*/"@);
    reveal_strlit("\"");
    lemma_ascii_delimiter("\""@);
    reveal_strlit("'");
    lemma_ascii_delimiter("'"@);
    reveal_strlit("`");
    lemma_ascii_delimiter("`"@);
    reveal_strlit("--");
    lemma_ascii_delimiter("--"@);
    reveal_strlit("{-");
    lemma_ascii_delimiter("{-"@);
    reveal_strlit("-}");
    lemma_ascii_delimiter("-}"@);
    reveal_strlit("<!--");
    lemma_ascii_delimiter("<!--"@);
    reveal_strlit("-->");
    lemma_ascii_delimiter("-->"@);
    reveal_strlit("\"\"\"");
    lemma_ascii_delimiter("\"\"\""@);
    reveal_strlit("#");
    lemma_ascii_delimiter("#"@);
    reveal_strlit("'''");
    lemma_ascii_delimiter("'''"@);
    reveal_strlit("#\"");
    lemma_ascii_delimiter("#\""@);
    reveal_strlit("\"#");
    lemma_ascii_delimiter("\"#"@);
}

/// Every definition of the list has well-formed delimiters.
pub open spec fn all_well_formed(defs: Seq<(Seq<char>, Definition)>) -> bool {
    forall|i: int| 0 <= i < defs.len() ==> (#[trigger] defs[i]).1.syntax().well_formed()
}

/// A list whose definitions are all well-formed holds no invalid one.
pub proof fn lemma_none_invalid(defs: Seq<(Seq<char>, Definition)>)
    requires
        all_well_formed(defs),
    ensures
        first_invalid(defs) is None,
    decreases defs.len(),
{
    if defs.len() > 0 {
        assert forall|i: int| 0 <= i < defs.skip(1).len() implies (#[trigger] defs.skip(
            1,
        )[i]).1.syntax().well_formed() by {
            assert(defs.skip(1)[i] == defs[i + 1]);
        }
        lemma_none_invalid(defs.skip(1));
    }
}

/// Every text of the list is a delimiter.
pub open spec fn are_delimiters(strings: Seq<&str>) -> bool {
    forall|i: int| 0 <= i < strings.len() ==> is_delimiter(#[trigger] strings[i]@)
}

/// Both texts of every pair of the list are delimiters.
pub open spec fn are_delimiter_pairs(pairs: Seq<(&str, &str)>) -> bool {
    forall|i: int|
        0 <= i < pairs.len() ==> is_delimiter((#[trigger] pairs[i]).0@) && is_delimiter(
            pairs[i].1@,
        )
}

fn owned(strings: &Vec<&str>) -> (copy: Vec<String>)
    ensures
        copy.deep_view() == texts(strings@),
{
    let mut copy: Vec<String> = Vec::with_capacity(strings.len());
    let mut k: usize = 0;
    while k < strings.len()
        invariant
            k <= strings@.len(),
            copy@.len() == k,
            forall|i: int| 0 <= i < k ==> (#[trigger] copy@[i])@ == strings@[i]@,
        decreases strings@.len() - k,
    {
        copy.push(strings[k].to_owned());
        k += 1;
    }
    assert(copy.deep_view() =~= texts(strings@));
    copy
}

fn owned_pairs(pairs: &Vec<(&str, &str)>) -> (copy: Vec<(String, String)>)
    ensures
        copy.deep_view() == text_pairs(pairs@),
{
    let mut copy: Vec<(String, String)> = Vec::with_capacity(pairs.len());
    let mut k: usize = 0;
    while k < pairs.len()
        invariant
            k <= pairs@.len(),
            copy@.len() == k,
            forall|i: int|
                0 <= i < k ==> (#[trigger] copy@[i]).0@ == pairs@[i].0@ && copy@[i].1@
                    == pairs@[i].1@,
        decreases pairs@.len() - k,
    {
        copy.push((pairs[k].0.to_owned(), pairs[k].1.to_owned()));
        k += 1;
    }
    assert(copy.deep_view() =~= text_pairs(pairs@));
    copy
}

/// Adds one language to the table: the entry `expected`, written out.
fn define(
    defs: &mut Vec<(String, LanguageDefinition)>,
    Ghost(expected): Ghost<(Seq<char>, Definition)>,
    name: &str,
    extensions: Vec<&str>,
    line_comments: Vec<&str>,
    multi_line_comments: Vec<(&str, &str)>,
    quotes: Vec<(&str, &str)>,
    nested: bool,
)
    requires
        all_well_formed(definition_views(old(defs)@)),
        are_delimiters(line_comments@),
        are_delimiter_pairs(multi_line_comments@),
        are_delimiter_pairs(quotes@),
        expected.0 == name@,
        expected.1.extensions =~= texts(extensions@),
        expected.1.line_comments =~= texts(line_comments@),
        expected.1.multi_line_comments =~= text_pairs(multi_line_comments@),
        expected.1.quotes =~= text_pairs(quotes@),
        expected.1.nested == nested,
    ensures
        all_well_formed(definition_views(final(defs)@)),
        definition_views(final(defs)@) == definition_views(old(defs)@).push(expected),
{
    let def = LanguageDefinition {
        extensions: owned(&extensions),
        line_comments: owned(&line_comments),
        multi_line_comments: owned_pairs(&multi_line_comments),
        quotes: owned_pairs(&quotes),
        nested,
    };
    proof {
        let syn = def@.syntax();
        assert forall|i: int| 0 <= i < syn.line_comments.len() implies (
        #[trigger] syn.line_comments[i]).len() > 0 && syn.line_comments[i][0] != NEWLINE by {
            assert(is_delimiter(line_comments@[i]@));
        }
        assert forall|i: int| 0 <= i < syn.multi_line_comments.len() implies (
        #[trigger] syn.multi_line_comments[i]).0.len() > 0 && syn.multi_line_comments[i].1.len()
            > 0 by {
            assert(is_delimiter(multi_line_comments@[i].0@));
        }
        assert forall|i: int| 0 <= i < syn.quotes.len() implies (#[trigger] syn.quotes[i]).0.len()
            > 0 && syn.quotes[i].1.len() > 0 by {
            assert(is_delimiter(quotes@[i].0@));
        }
        assert(syn.well_formed());
        assert(def@ == expected.1);
    }
    let ghost before = definition_views(defs@);
    defs.push((name.to_owned(), def));
    proof {
        let after = definition_views(defs@);
        assert(after =~= before.push(expected));
        assert forall|i: int| 0 <= i < after.len() implies (
        #[trigger] after[i]).1.syntax().well_formed() by {
            if i < before.len() {
                assert(after[i] == before[i]);
            }
        }
    }
}

/// The definitions of the languages that every registry starts with.
pub fn builtin_definitions() -> (defs: Vec<(String, LanguageDefinition)>)
    ensures
        definition_views(defs@) == builtin_table(),
        all_well_formed(builtin_table()),
{
    proof {
        lemma_delimiters();
    }
    let ghost table = builtin_table();
    let mut defs: Vec<(String, LanguageDefinition)> = Vec::new();
    define(
        &mut defs,
        Ghost(table[0]),
        "C",
        vec!["c", "ec", "pgc"],
        vec!["//"],
        vec![("/*", "*/")],
        vec![("\"", "\"")],
        false,
    );
    define(
        &mut defs,
        Ghost(table[1]),
        "CHeader",
        vec!["h"],
        vec!["//"],
        vec![("/*", "*/")],
        vec![("\"", "\"")],
        false,
    );
    define(
        &mut defs,
        Ghost(table[2]),
        "CSharp",
        vec!["cs", "csx"],
        vec!["//"],
        vec![("/*", "*/")],
        vec![("\"", "\"")],
        false,
    );
    define(
        &mut defs,
        Ghost(table[3]),
        "Cpp",
        vec!["cc", "cpp", "cxx", "c++", "pcc", "tpp"],
        vec!["//"],
        vec![("/*", "*/")],
        vec![("\"", "\"")],
        false,
    );
    define(
        &mut defs,
        Ghost(table[4]),
        "CppHeader",
        vec!["hh", "hpp", "hxx", "inl", "ipp"],
        vec!["//"],
        vec![("/*", "*/")],
        vec![("\"", "\"")],
        false,
    );
    define(
        &mut defs,
        Ghost(table[5]),
        "Css",
        vec!["css"],
        vec![],
        vec![("/*", "*/")],
        vec![("\"", "\""), ("'", "'")],
        false,
    );
    define(
        &mut defs,
        Ghost(table[6]),
        "Go",
        vec!["go"],
        vec!["//"],
        vec![("/*", "*/")],
        vec![("\"", "\""), ("`", "`")],
        false,
    );
    define(
        &mut defs,
        Ghost(table[7]),
        "Haskell",
        vec!["hs"],
        vec!["--"],
        vec![("{-", "-}")],
        vec![("\"", "\"")],
        true,
    );
    define(
        &mut defs,
        Ghost(table[8]),
        "Html",
        vec!["html", "htm"],
        vec![],
        vec![("<!--", "-->")],
        vec![("\"", "\""), ("'", "'")],
        false,
    );
    define(
        &mut defs,
        Ghost(table[9]),
        "Java",
        vec!["java"],
        vec!["//"],
        vec![("/*", "*/")],
        vec![("\"", "\"")],
        false,
    );
    define(
        &mut defs,
        Ghost(table[10]),
        "JavaScript",
        vec!["js", "mjs", "cjs"],
        vec!["//"],
        vec![("/*", "*/")],
        vec![("\"", "\""), ("'", "'"), ("`", "`")],
        false,
    );
    define(
        &mut defs,
        Ghost(table[11]),
        "Kotlin",
        vec!["kt", "kts"],
        vec!["//"],
        vec![("/*", "*/")],
        vec![("\"\"\"", "\"\"\""), ("\"", "\"")],
        true,
    );
    define(
        &mut defs,
        Ghost(table[12]),
        "Python",
        vec!["py", "pyw", "pyi"],
        vec!["#"],
        vec![],
        vec![("\"\"\"", "\"\"\""), ("'''", "'''"), ("\"", "\""), ("'", "'")],
        false,
    );
    define(
        &mut defs,
        Ghost(table[13]),
        "Ruby",
        vec!["rb"],
        vec!["#"],
        vec![],
        vec![("\"", "\""), ("'", "'")],
        false,
    );
    define(
        &mut defs,
        Ghost(table[14]),
        "Rust",
        vec!["rs"],
        vec!["//"],
        vec![("/*", "*/")],
        vec![("\"", "\""), ("#\"", "\"#")],
        true,
    );
    define(
        &mut defs,
        Ghost(table[15]),
        "Sh",
        vec!["sh", "bash", "zsh"],
        vec!["#"],
        vec![],
        vec![("\"", "\""), ("'", "'")],
        false,
    );
    define(
        &mut defs,
        Ghost(table[16]),
        "Sql",
        vec!["sql"],
        vec!["--"],
        vec![("/*", "*/")],
        vec![("'", "'")],
        false,
    );
    define(
        &mut defs,
        Ghost(table[17]),
        "Swift",
        vec!["swift"],
        vec!["//"],
        vec![("/*", "*/")],
        vec![("\"", "\"")],
        true,
    );
    define(
        &mut defs,
        Ghost(table[18]),
        "Toml",
        vec!["toml"],
        vec!["#"],
        vec![],
        vec![("\"\"\"", "\"\"\""), ("'''", "'''"), ("\"", "\""), ("'", "'")],
        false,
    );
    define(
        &mut defs,
        Ghost(table[19]),
        "TypeScript",
        vec!["ts", "tsx"],
        vec!["//"],
        vec![("/*", "*/")],
        vec![("\"", "\""), ("'", "'"), ("`", "`")],
        false,
    );
    define(
        &mut defs,
        Ghost(table[20]),
        "Yaml",
        vec!["yaml", "yml"],
        vec!["#"],
        vec![],
        vec![("\"", "\""), ("'", "'")],
        false,
    );
    assert(definition_views(defs@) =~= builtin_table());
    defs
}

} // verus!
