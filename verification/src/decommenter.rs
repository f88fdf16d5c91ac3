//! Language syntax descriptions and the registry that resolves a file
//! extension to one of them.

use std::sync::Arc;
use vstd::prelude::*;

pub mod builtin;
pub mod laws;
pub mod logic;
pub mod model;
pub mod registry;
pub mod table;

use builtin::{builtin_definitions, builtin_table, lemma_none_invalid};
use logic::remove_comments;
use registry::{bind, first_invalid, Registry};
use model::{markers_well_formed, pairs_well_formed, strip, Syntax, NEWLINE};
use vstd::pervasive::unreached;
use vstd::slice::slice_to_vec;
use table::{decode_definitions, loaded, parse, registry, Fault, TableError, TomlValue};

verus! {

/// The bytes a delimiter string stands for: its UTF-8 encoding.
pub open spec fn delimiter_bytes(s: Seq<char>) -> Seq<u8> {
    vstd::utf8::encode_utf8(s)
}

/// The byte form of a list of (start, end) delimiter pairs.
pub open spec fn pair_bytes(pairs: Seq<(Seq<char>, Seq<char>)>) -> Seq<(Seq<u8>, Seq<u8>)> {
    Seq::new(pairs.len(), |i: int| (delimiter_bytes(pairs[i].0), delimiter_bytes(pairs[i].1)))
}

/// The byte form of a list of markers.
pub open spec fn marker_bytes(markers: Seq<Seq<char>>) -> Seq<Seq<u8>> {
    Seq::new(markers.len(), |i: int| delimiter_bytes(markers[i]))
}

/// The lexical comment and string syntax of one language.
#[derive(Debug)]
pub struct Language {
    /// Markers that start a comment running to the end of the line.
    pub line_comments: Vec<String>,
    /// (start, end) delimiters of block comments, in priority order.
    pub multi_line_comments: Vec<(String, String)>,
    /// (start, end) delimiters of string and character literals, in priority order.
    pub quotes: Vec<(String, String)>,
    /// Whether a block comment may contain further block comments.
    pub allows_nested: bool,
}

impl View for Language {
    type V = Syntax;

    open spec fn view(&self) -> Syntax {
        Syntax {
            line_comments: marker_bytes(self.line_comments.deep_view()),
            multi_line_comments: pair_bytes(self.multi_line_comments.deep_view()),
            quotes: pair_bytes(self.quotes.deep_view()),
            allows_nested: self.allows_nested,
        }
    }
}

/// Whether both delimiters of every pair are non-empty.
fn pairs_are_well_formed(pairs: &Vec<(String, String)>) -> (ok: bool)
    ensures
        ok == pairs_well_formed(pair_bytes(pairs.deep_view())),
{
    let mut k: usize = 0;
    while k < pairs.len()
        invariant
            k <= pairs@.len(),
            pairs_well_formed(pair_bytes(pairs.deep_view()).take(k as int)),
        decreases pairs@.len() - k,
    {
        let start = pairs[k].0.as_str().as_bytes();
        let end = pairs[k].1.as_str().as_bytes();
        assert(pair_bytes(pairs.deep_view())[k as int] == (start@, end@));
        if start.len() == 0 || end.len() == 0 {
            return false;
        }
        k += 1;
    }
    assert(pair_bytes(pairs.deep_view()).take(k as int) =~= pair_bytes(pairs.deep_view()));
    true
}

/// Whether every marker is non-empty and begins with a byte other than a
/// newline.
fn markers_are_well_formed(markers: &Vec<String>) -> (ok: bool)
    ensures
        ok == markers_well_formed(marker_bytes(markers.deep_view())),
{
    let mut k: usize = 0;
    while k < markers.len()
        invariant
            k <= markers@.len(),
            markers_well_formed(marker_bytes(markers.deep_view()).take(k as int)),
        decreases markers@.len() - k,
    {
        let marker = markers[k].as_str().as_bytes();
        assert(marker_bytes(markers.deep_view())[k as int] == marker@);
        if marker.len() == 0 || marker[0] == NEWLINE {
            return false;
        }
        k += 1;
    }
    assert(marker_bytes(markers.deep_view()).take(k as int) =~= marker_bytes(markers.deep_view()));
    true
}

impl Language {
    /// Every delimiter is non-empty and no line-comment marker begins with a
    /// newline, so that each step of the scanner moves forward.
    pub open spec fn well_formed(&self) -> bool {
        self@.well_formed()
    }

    /// Tests the delimiters of the language.
    pub fn is_well_formed(&self) -> (ok: bool)
        ensures
            ok == self.well_formed(),
    {
        markers_are_well_formed(&self.line_comments) && pairs_are_well_formed(
            &self.multi_line_comments,
        ) && pairs_are_well_formed(&self.quotes)
    }
}

/// One entry of a language table: a language's syntax together with the
/// file extensions that select it.
#[derive(Debug)]
pub struct LanguageDefinition {
    /// File extensions, without the leading dot.
    pub extensions: Vec<String>,
    pub line_comments: Vec<String>,
    pub multi_line_comments: Vec<(String, String)>,
    pub quotes: Vec<(String, String)>,
    pub nested: bool,
}

/// A definition as plain text.
pub struct Definition {
    pub extensions: Seq<Seq<char>>,
    pub line_comments: Seq<Seq<char>>,
    pub multi_line_comments: Seq<(Seq<char>, Seq<char>)>,
    pub quotes: Seq<(Seq<char>, Seq<char>)>,
    pub nested: bool,
}

impl Definition {
    /// The syntax that the definition describes.
    pub open spec fn syntax(self) -> Syntax {
        Syntax {
            line_comments: marker_bytes(self.line_comments),
            multi_line_comments: pair_bytes(self.multi_line_comments),
            quotes: pair_bytes(self.quotes),
            allows_nested: self.nested,
        }
    }
}

impl View for LanguageDefinition {
    type V = Definition;

    open spec fn view(&self) -> Definition {
        Definition {
            extensions: self.extensions.deep_view(),
            line_comments: self.line_comments.deep_view(),
            multi_line_comments: self.multi_line_comments.deep_view(),
            quotes: self.quotes.deep_view(),
            nested: self.nested,
        }
    }
}

/// The definitions of a table as plain text, each with its language's name.
pub open spec fn definition_views(defs: Seq<(String, LanguageDefinition)>) -> Seq<
    (Seq<char>, Definition),
> {
    Seq::new(defs.len(), |i: int| (defs[i].0@, defs[i].1@))
}

impl LanguageDefinition {
    /// The language that the definition describes.
    pub fn language(&self) -> (lang: Language)
        ensures
            lang@ == self@.syntax(),
    {
        Language {
            line_comments: copy_strings(&self.line_comments),
            multi_line_comments: copy_pairs(&self.multi_line_comments),
            quotes: copy_pairs(&self.quotes),
            allows_nested: self.nested,
        }
    }
}

fn copy_strings(strings: &Vec<String>) -> (copy: Vec<String>)
    ensures
        copy@ == strings@,
{
    let mut copy: Vec<String> = Vec::with_capacity(strings.len());
    let mut k: usize = 0;
    while k < strings.len()
        invariant
            k <= strings@.len(),
            copy@ == strings@.take(k as int),
        decreases strings@.len() - k,
    {
        copy.push(strings[k].clone());
        assert(copy@ =~= strings@.take(k + 1));
        k += 1;
    }
    assert(strings@.take(k as int) =~= strings@);
    copy
}

fn copy_pairs(pairs: &Vec<(String, String)>) -> (copy: Vec<(String, String)>)
    ensures
        copy@ == pairs@,
{
    let mut copy: Vec<(String, String)> = Vec::with_capacity(pairs.len());
    let mut k: usize = 0;
    while k < pairs.len()
        invariant
            k <= pairs@.len(),
            copy@ == pairs@.take(k as int),
        decreases pairs@.len() - k,
    {
        copy.push((pairs[k].0.clone(), pairs[k].1.clone()));
        assert(copy@ =~= pairs@.take(k + 1));
        k += 1;
    }
    assert(pairs@.take(k as int) =~= pairs@);
    copy
}

/// The map that a list of entries stands for, each value seen through
/// `f`: a later entry replaces an earlier one with the same key.
spec fn entries_map<V, W>(entries: Seq<(String, V)>, f: spec_fn(V) -> W) -> Map<
    Seq<char>,
    W,
>
    decreases entries.len(),
{
    if entries.len() == 0 {
        Map::empty()
    } else {
        entries_map(entries.drop_last(), f).insert(entries.last().0@, f(entries.last().1))
    }
}

/// The last entry with a key decides what the key maps to.
proof fn lemma_entries_map_last<V, W>(
    entries: Seq<(String, V)>,
    f: spec_fn(V) -> W,
    key: Seq<char>,
    i: int,
)
    requires
        0 <= i < entries.len(),
        entries[i].0@ == key,
        forall|j: int| i < j < entries.len() ==> (#[trigger] entries[j]).0@ != key,
    ensures
        entries_map(entries, f).contains_key(key),
        entries_map(entries, f)[key] == f(entries[i].1),
    decreases entries.len(),
{
    if i < entries.len() - 1 {
        assert(entries.last() == entries[entries.len() - 1]);
        lemma_entries_map_last(entries.drop_last(), f, key, i);
    }
}

/// A key that no entry has is not mapped.
proof fn lemma_entries_map_none<V, W>(entries: Seq<(String, V)>, f: spec_fn(V) -> W, key: Seq<char>)
    requires
        forall|j: int| 0 <= j < entries.len() ==> (#[trigger] entries[j]).0@ != key,
    ensures
        !entries_map(entries, f).contains_key(key),
    decreases entries.len(),
{
    if entries.len() > 0 {
        assert(entries.last() == entries[entries.len() - 1]);
        lemma_entries_map_none(entries.drop_last(), f, key);
    }
}

/// The index of the last entry with the given key.
fn last_index<V>(entries: &Vec<(String, V)>, key: &String) -> (found: Option<usize>)
    ensures
        match found {
            Some(i) => i < entries@.len() && entries@[i as int].0@ == key@ && forall|j: int|
                i < j < entries@.len() ==> (#[trigger] entries@[j]).0@ != key@,
            None => forall|j: int| 0 <= j < entries@.len() ==> (#[trigger] entries@[j]).0@ != key@,
        },
{
    let mut k: usize = entries.len();
    while k > 0
        invariant
            k <= entries@.len(),
            forall|j: int| k <= j < entries@.len() ==> (#[trigger] entries@[j]).0@ != key@,
        decreases k,
    {
        k -= 1;
        if entries[k].0 == *key {
            return Some(k);
        }
    }
    None
}

/// The registry: which language each file extension names, and the syntax
/// of each language. It is built once and only read afterwards.
#[derive(Debug)]
pub struct LanguageDB {
    languages: Vec<(String, Arc<Language>)>,
    ext_map: Vec<(String, String)>,
}

spec fn name_view() -> spec_fn(String) -> Seq<char> {
    |name: String| name@
}

spec fn syntax_view() -> spec_fn(Arc<Language>) -> Syntax {
    |lang: Arc<Language>| lang@
}

/// What the two lists of a registry stand for.
spec fn registry_of(ext_map: Seq<(String, String)>, languages: Seq<(String, Arc<Language>)>) -> Registry {
    Registry {
        names: entries_map(ext_map, name_view()),
        languages: entries_map(languages, syntax_view()),
    }
}

impl View for LanguageDB {
    type V = Registry;

    closed spec fn view(&self) -> Registry {
        registry_of(self.ext_map@, self.languages@)
    }
}

impl LanguageDB {
    #[verifier::type_invariant]
    closed spec fn well_formed(&self) -> bool {
        &&& forall|i: int|
            0 <= i < self.languages@.len() ==> (#[trigger] self.languages@[i]).1.well_formed()
        &&& forall|i: int|
            0 <= i < self.ext_map@.len() ==> self@.languages.contains_key(
                (#[trigger] self.ext_map@[i]).1@,
            )
    }

    /// The registry of the built-in languages.
    pub fn new() -> (db: LanguageDB)
        ensures
            db@ == Registry::of(builtin_table()),
    {
        let defs = builtin_definitions();
        proof {
            lemma_none_invalid(builtin_table());
        }
        match LanguageDB::from_definitions(&defs) {
            Ok(db) => db,
            Err(_) => unreached(),
        }
    }

    /// The registry of a table's definitions, taken in order: each extension
    /// names the last definition that lists it. A definition whose
    /// delimiters are not well-formed is refused, the first one by name.
    pub fn from_definitions(defs: &Vec<(String, LanguageDefinition)>) -> (built: Result<
        LanguageDB,
        TableError,
    >)
        ensures
            match built {
                Ok(db) => first_invalid(definition_views(defs@)) is None && db@ == Registry::of(
                    definition_views(defs@),
                ),
                Err(TableError::InvalidDelimiter(name)) => first_invalid(definition_views(defs@))
                    == Some(name@),
                Err(_) => false,
            },
    {
        let mut languages: Vec<(String, Arc<Language>)> = Vec::new();
        let mut ext_map: Vec<(String, String)> = Vec::new();
        let ghost names = name_view();
        let ghost syntaxes = syntax_view();
        let mut k: usize = 0;
        assert(definition_views(defs@).skip(0) =~= definition_views(defs@));
        while k < defs.len()
            invariant
                k <= defs@.len(),
                names == name_view(),
                syntaxes == syntax_view(),
                first_invalid(definition_views(defs@)) == first_invalid(
                    definition_views(defs@).skip(k as int),
                ),
                forall|i: int|
                    0 <= i < languages@.len() ==> (#[trigger] languages@[i]).1.well_formed(),
                forall|i: int|
                    0 <= i < ext_map@.len() ==> entries_map(languages@, syntaxes).contains_key(
                        (#[trigger] ext_map@[i]).1@,
                    ),
                registry_of(ext_map@, languages@) == Registry::of(
                    definition_views(defs@).take(k as int),
                ),
            decreases defs@.len() - k,
        {
            let name = &defs[k].0;
            let def = &defs[k].1;
            let lang = def.language();
            let ghost views = definition_views(defs@);
            proof {
                assert(views.skip(k as int)[0] == views[k as int]);
                assert(views.skip(k as int).skip(1) =~= views.skip(k + 1));
            }
            if !lang.is_well_formed() {
                return Err(TableError::InvalidDelimiter(name.clone()));
            }
            let ghost names_before = entries_map(ext_map@, names);
            let ghost languages_before = languages@;
            languages.push((name.clone(), Arc::new(lang)));
            proof {
                assert(languages@.drop_last() =~= languages_before);
                assert forall|i: int| 0 <= i < ext_map@.len() implies entries_map(
                    languages@,
                    syntaxes,
                ).contains_key((#[trigger] ext_map@[i]).1@) by {}
            }
            let mut e: usize = 0;
            while e < def.extensions.len()
                invariant
                    e <= def.extensions@.len(),
                    names == name_view(),
                    syntaxes == syntax_view(),
                    entries_map(languages@, syntaxes).contains_key(name@),
                    forall|i: int|
                        0 <= i < ext_map@.len() ==> entries_map(languages@, syntaxes).contains_key(
                            (#[trigger] ext_map@[i]).1@,
                        ),
                    entries_map(ext_map@, names) == bind(
                        names_before,
                        def@.extensions.take(e as int),
                        name@,
                    ),
                decreases def.extensions@.len() - e,
            {
                let ghost ext_map_before = ext_map@;
                ext_map.push((def.extensions[e].clone(), name.clone()));
                proof {
                    assert(ext_map@.drop_last() =~= ext_map_before);
                    assert(def@.extensions.take(e + 1).drop_last() =~= def@.extensions.take(
                        e as int,
                    ));
                }
                e += 1;
            }
            proof {
                assert(def@.extensions.take(e as int) =~= def@.extensions);
                assert(views.take(k + 1).drop_last() =~= views.take(k as int));
            }
            k += 1;
        }
        proof {
            assert(definition_views(defs@).take(k as int) =~= definition_views(defs@));
        }
        Ok(LanguageDB { languages, ext_map })
    }

    /// The registry that a document describes.
    pub fn from_document(doc: &TomlValue) -> (built: Result<LanguageDB, TableError>)
        ensures
            match built {
                Ok(db) => registry(*doc) == Ok::<_, Fault>(db@),
                Err(error) => registry(*doc) == Err::<Registry, _>(error@),
            },
    {
        match decode_definitions(doc) {
            Ok(defs) => LanguageDB::from_definitions(&defs),
            Err(error) => Err(error),
        }
    }

    /// The registry that a language table written in TOML describes.
    pub fn from_toml(text: &str) -> (built: Result<LanguageDB, TableError>)
        ensures
            match built {
                Ok(db) => loaded(text@) == Ok::<_, Fault>(db@),
                Err(error) => loaded(text@) == Err::<Registry, _>(error@),
            },
    {
        match parse(text) {
            Ok(doc) => LanguageDB::from_document(&doc),
            Err(error) => Err(error),
        }
    }

    /// Strips the comments from a file's contents as the language that its
    /// extension names directs. The contents of a file whose extension the
    /// registry does not know come back unchanged.
    pub fn strip_by_extension(&self, ext: &str, contents: &[u8]) -> (output: Vec<u8>)
        ensures
            output@ == match self@.lookup(ext@) {
                Some(syntax) => strip(contents@, syntax),
                None => contents@,
            },
    {
        match self.find_by_extension(ext) {
            Some(lang) => remove_comments(contents, lang),
            None => slice_to_vec(contents),
        }
    }

    /// The language that a file extension names, if the registry knows it.
    pub fn find_by_extension(&self, ext: &str) -> (found: Option<Arc<Language>>)
        ensures
            match found {
                Some(lang) => self@.lookup(ext@) == Some(lang@) && lang.well_formed(),
                None => self@.lookup(ext@) is None,
            },
    {
        proof {
            use_type_invariant(self);
        }
        let key = ext.to_owned();
        let ghost names = name_view();
        let ghost syntaxes = syntax_view();
        match last_index(&self.ext_map, &key) {
            None => {
                proof {
                    lemma_entries_map_none(self.ext_map@, names, ext@);
                }
                None
            },
            Some(i) => {
                proof {
                    lemma_entries_map_last(self.ext_map@, names, ext@, i as int);
                }
                match last_index(&self.languages, &self.ext_map[i].1) {
                    None => {
                        proof {
                            lemma_entries_map_none(self.languages@, syntaxes, self.ext_map@[i as int].1@);
                        }
                        None
                    },
                    Some(j) => {
                        proof {
                            lemma_entries_map_last(
                                self.languages@,
                                syntaxes,
                                self.ext_map@[i as int].1@,
                                j as int,
                            );
                        }
                        Some(self.languages[j].1.clone())
                    },
                }
            },
        }
    }
}

impl Default for LanguageDB {
    fn default() -> (db: LanguageDB)
        ensures
            db@ == Registry::of(builtin_table()),
    {
        LanguageDB::new()
    }
}

} // verus!
