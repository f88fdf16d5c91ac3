//! Which files a traversal hands on: the override globs that the arguments
//! amount to, and what is decided of each entry that the traversal meets.

use crate::cli::JoinArgs;
use std::path::PathBuf;
use vstd::prelude::*;
use vstd::string::StringExecFns;

verus! {

/// A set of override globs, ready to match paths.
#[verifier::external_type_specification]
#[verifier::external_body]
pub struct ExOverride(ignore::overrides::Override);

/// A set of override globs in the making.
#[verifier::external_type_specification]
#[verifier::external_body]
pub struct ExOverrideBuilder(ignore::overrides::OverrideBuilder);

/// The error of the glob matcher.
#[verifier::external_type_specification]
#[verifier::external_body]
pub struct ExIgnoreError(ignore::Error);

/// The globs that include: the patterns given, or every file.
pub open spec fn includes(patterns: Option<Seq<Seq<char>>>) -> Seq<Seq<char>> {
    match patterns {
        Some(given) => given,
        None => seq!["*"@],
    }
}

/// The globs that exclude: each pattern given, behind a `!`.
pub open spec fn excludes(exclude: Option<Seq<Seq<char>>>) -> Seq<Seq<char>> {
    match exclude {
        Some(given) => Seq::new(given.len(), |i: int| "!"@ + given[i]),
        None => Seq::empty(),
    }
}

/// The override globs of a traversal, in the order in which they are added:
/// what is included, what is excluded, and last the glob that hides hidden
/// files unless they are asked for.
pub open spec fn globs_of(
    patterns: Option<Seq<Seq<char>>>,
    exclude: Option<Seq<Seq<char>>>,
    hidden: bool,
) -> Seq<Seq<char>> {
    includes(patterns) + excludes(exclude) + if hidden {
        Seq::empty()
    } else {
        seq!["!.*"@]
    }
}

/// The override globs that the arguments of `join` amount to.
pub open spec fn globs_for(args: JoinArgs) -> Seq<Seq<char>> {
    globs_of(texts(args.patterns), texts(args.exclude), args.hidden)
}

/// The text of each string of a list that may be absent.
pub open spec fn texts(strings: Option<Vec<String>>) -> Option<Seq<Seq<char>>> {
    match strings {
        Some(given) => Some(given.deep_view()),
        None => None,
    }
}

/// The override globs that the patterns of a command line amount to.
pub fn override_globs(
    patterns: &Option<Vec<String>>,
    exclude: &Option<Vec<String>>,
    hidden: bool,
) -> (globs: Vec<String>)
    ensures
        globs.deep_view() == globs_of(texts(*patterns), texts(*exclude), hidden),
{
    let ghost wanted = globs_of(texts(*patterns), texts(*exclude), hidden);
    let mut globs: Vec<String> = Vec::new();
    match patterns {
        Some(given) => {
            let mut k: usize = 0;
            while k < given.len()
                invariant
                    k <= given@.len(),
                    *patterns == Some(*given),
                    globs@.len() == k,
                    forall|i: int| 0 <= i < k ==> (#[trigger] globs@[i])@ == given@[i]@,
                decreases given@.len() - k,
            {
                globs.push(given[k].clone());
                k += 1;
            }
        },
        None => {
            globs.push("*".to_owned());
        },
    }
    let ghost included = includes(texts(*patterns));
    assert(globs.deep_view() =~= included);
    match exclude {
        Some(given) => {
            let mut k: usize = 0;
            while k < given.len()
                invariant
                    k <= given@.len(),
                    *exclude == Some(*given),
                    globs@.len() == included.len() + k,
                    forall|i: int| 0 <= i < included.len() ==> (#[trigger] globs@[i])@ == included[i],
                    forall|i: int|
                        0 <= i < k ==> (#[trigger] globs@[included.len() + i])@ == "!"@ + given@[i]@,
                decreases given@.len() - k,
            {
                globs.push("!".to_owned().concat(given[k].as_str()));
                k += 1;
            }
        },
        None => {},
    }
    let ghost filtered = included + excludes(texts(*exclude));
    assert(globs.deep_view() =~= filtered) by {
        assert forall|i: int| 0 <= i < globs@.len() implies globs.deep_view()[i] == filtered[i] by {
            if i >= included.len() {
                assert(globs@[included.len() + (i - included.len())] == globs@[i]);
            }
        }
    }
    if !hidden {
        globs.push("!.*".to_owned());
    }
    assert(globs.deep_view() =~= wanted);
    globs
}

/// Whether the glob matcher takes a glob: it takes a line that holds no
/// glob at all, and refuses one that it cannot parse.
pub uninterp spec fn glob_is_accepted(glob: Seq<char>) -> bool;

/// The lines that a set in the making holds, in the order in which they
/// were added.
pub uninterp spec fn lines_of(builder: ignore::overrides::OverrideBuilder) -> Seq<Seq<char>>;

/// The lines that a set of override globs holds, in the order in which they
/// were added.
pub uninterp spec fn globs_in(overrides: ignore::overrides::Override) -> Seq<Seq<char>>;

/// Whether the matcher can put the lines together into one set.
pub uninterp spec fn set_is_built(lines: Seq<Seq<char>>) -> bool;

/// A line that the matcher stores as it stands: it is no comment, and it
/// ends in a visible ASCII character, so that nothing is cut off its end.
pub open spec fn is_kept_as_is(glob: Seq<char>) -> bool {
    glob.len() > 0 && glob[0] != '#' && '!' <= glob.last() <= '~'
}

/// A line that the matcher takes and does not store: an empty line or a
/// comment.
pub open spec fn is_skipped(glob: Seq<char>) -> bool {
    glob.len() == 0 || glob[0] == '#'
}

/// Every line is either stored as it stands or skipped.
pub open spec fn all_plain(globs: Seq<Seq<char>>) -> bool {
    forall|i: int| 0 <= i < globs.len() ==> is_kept_as_is(#[trigger] globs[i]) || is_skipped(globs[i])
}

/// The lines of a list that the matcher stores: all but the skipped ones.
pub open spec fn stored(globs: Seq<Seq<char>>) -> Seq<Seq<char>>
    decreases globs.len(),
{
    if globs.len() == 0 {
        Seq::empty()
    } else if is_skipped(globs.last()) {
        stored(globs.drop_last())
    } else {
        stored(globs.drop_last()).push(globs.last())
    }
}

/// Every line is stored as it stands.
pub open spec fn all_kept_as_is(globs: Seq<Seq<char>>) -> bool {
    forall|i: int| 0 <= i < globs.len() ==> is_kept_as_is(#[trigger] globs[i])
}

/// Where every line is stored as it stands, the stored lines are the lines.
pub proof fn lemma_stored_all(globs: Seq<Seq<char>>)
    requires
        all_kept_as_is(globs),
    ensures
        all_plain(globs),
        stored(globs) == globs,
    decreases globs.len(),
{
    if globs.len() > 0 {
        let front = globs.drop_last();
        assert forall|i: int| 0 <= i < front.len() implies is_kept_as_is(#[trigger] front[i]) by {
            assert(front[i] == globs[i]);
        }
        lemma_stored_all(front);
        assert(is_kept_as_is(globs[globs.len() - 1]));
        assert(front.push(globs.last()) =~= globs);
    }
}

/// A pattern whose exclusion is stored as it stands: it is empty or ends in
/// a visible ASCII character.
pub open spec fn ends_visibly(pattern: Seq<char>) -> bool {
    pattern.len() == 0 || '!' <= pattern.last() <= '~'
}

/// The override globs of a command line are stored as they stand, where
/// every include pattern is and every exclude pattern ends visibly: the
/// matcher then holds exactly what the command line amounts to.
pub proof fn lemma_globs_are_kept(
    patterns: Option<Seq<Seq<char>>>,
    exclude: Option<Seq<Seq<char>>>,
    hidden: bool,
)
    requires
        patterns is Some ==> all_kept_as_is(patterns->0),
        exclude is Some ==> forall|i: int|
            0 <= i < exclude->0.len() ==> ends_visibly(#[trigger] exclude->0[i]),
    ensures
        all_kept_as_is(globs_of(patterns, exclude, hidden)),
        all_plain(globs_of(patterns, exclude, hidden)),
        stored(globs_of(patterns, exclude, hidden)) == globs_of(patterns, exclude, hidden),
{
    reveal_strlit("*");
    reveal_strlit("!");
    reveal_strlit("!.*");
    let globs = globs_of(patterns, exclude, hidden);
    let included = includes(patterns);
    let excluded = excludes(exclude);
    assert forall|i: int| 0 <= i < globs.len() implies is_kept_as_is(#[trigger] globs[i]) by {
        if i < included.len() {
            assert(globs[i] == included[i]);
        } else if i < included.len() + excluded.len() {
            let given = exclude->0[i - included.len()];
            assert(globs[i] == "!"@ + given);
            assert(ends_visibly(given));
            assert(globs[i][0] == '!');
            if given.len() > 0 {
                assert(globs[i].last() == given.last());
            } else {
                assert(globs[i] =~= "!"@);
            }
        } else {
            assert(globs[i] == "!.*"@);
        }
    }
    lemma_stored_all(globs);
}

/// `OverrideBuilder::new`: an empty set of globs that match relative to
/// `root`.
#[verifier::external_body]
fn new_builder(root: &PathBuf) -> (builder: ignore::overrides::OverrideBuilder)
    ensures
        lines_of(builder) == Seq::<Seq<char>>::empty(),
{
    ignore::overrides::OverrideBuilder::new(root)
}

/// `OverrideBuilder::add`: the set with one more glob, or the matcher's
/// error where it does not take the glob. Whether it takes a glob depends on
/// the glob alone. A line that it takes is stored behind the others, cut
/// of the white space at its end; an empty line and a comment are taken and
/// not stored.
#[verifier::external_body]
fn add_glob(builder: ignore::overrides::OverrideBuilder, glob: &str) -> (added: Result<
    ignore::overrides::OverrideBuilder,
    ignore::Error,
>)
    ensures
        added is Ok <==> glob_is_accepted(glob@),
        match added {
            Ok(extended) => (is_kept_as_is(glob@) ==> lines_of(extended) == lines_of(builder).push(
                glob@,
            )) && (is_skipped(glob@) ==> lines_of(extended) == lines_of(builder)),
            Err(_) => true,
        },
{
    let mut builder = builder;
    builder.add(glob)?;
    Ok(builder)
}

/// `OverrideBuilder::build`: the matcher of the globs added so far. It
/// holds the lines of the builder; whether it comes about depends on those
/// lines alone.
#[verifier::external_body]
fn build(builder: &ignore::overrides::OverrideBuilder) -> (built: Result<
    ignore::overrides::Override,
    ignore::Error,
>)
    ensures
        built is Ok <==> set_is_built(lines_of(*builder)),
        match built {
            Ok(overrides) => globs_in(overrides) == lines_of(*builder),
            Err(_) => true,
        },
{
    builder.build()
}

/// Why no set of override globs came about.
#[derive(Debug)]
pub enum OverrideError {
    /// The matcher does not take the glob.
    Glob(String, ignore::Error),
    /// The matcher took every glob and failed to put them together.
    Build(ignore::Error),
}

/// The first glob of the list that the matcher does not take.
pub open spec fn first_refused(globs: Seq<Seq<char>>) -> Option<Seq<char>>
    decreases globs.len(),
{
    if globs.len() == 0 {
        None
    } else if !glob_is_accepted(globs[0]) {
        Some(globs[0])
    } else {
        first_refused(globs.skip(1))
    }
}

/// Puts a list of globs together into a set that matches relative to
/// `root`. The globs are added in order, and the first one that the matcher
/// refuses ends the work. The set holds the globs in their order, without
/// the empty lines and the comments among them.
pub fn build_overrides(root: &PathBuf, globs: &Vec<String>) -> (built: Result<
    ignore::overrides::Override,
    OverrideError,
>)
    ensures
        match built {
            Ok(_) => first_refused(globs.deep_view()) is None,
            Err(OverrideError::Glob(glob, _)) => first_refused(globs.deep_view()) == Some(glob@),
            Err(OverrideError::Build(_)) => first_refused(globs.deep_view()) is None,
        },
        all_plain(globs.deep_view()) ==> (built is Ok <==> first_refused(globs.deep_view()) is None
            && set_is_built(stored(globs.deep_view()))),
        all_plain(globs.deep_view()) ==> match built {
            Ok(overrides) => globs_in(overrides) == stored(globs.deep_view()),
            Err(_) => true,
        },
{
    let mut builder = new_builder(root);
    let mut k: usize = 0;
    assert(globs.deep_view().skip(0) =~= globs.deep_view());
    assert(globs.deep_view().take(0) =~= Seq::<Seq<char>>::empty());
    while k < globs.len()
        invariant
            k <= globs@.len(),
            first_refused(globs.deep_view()) == first_refused(globs.deep_view().skip(k as int)),
            all_plain(globs.deep_view()) ==> lines_of(builder) == stored(
                globs.deep_view().take(k as int),
            ),
        decreases globs@.len() - k,
    {
        proof {
            let rest = globs.deep_view().skip(k as int);
            assert(rest[0] == globs@[k as int]@);
            assert(rest.skip(1) =~= globs.deep_view().skip(k + 1));
            let upto = globs.deep_view().take(k + 1);
            assert(upto.last() == globs@[k as int]@);
            assert(upto.drop_last() =~= globs.deep_view().take(k as int));
            assert(globs.deep_view()[k as int] == globs@[k as int]@);
        }
        builder = match add_glob(builder, globs[k].as_str()) {
            Ok(extended) => extended,
            Err(error) => {
                return Err(OverrideError::Glob(globs[k].clone(), error));
            },
        };
        k += 1;
    }
    assert(globs.deep_view().take(k as int) =~= globs.deep_view());
    match build(&builder) {
        Ok(overrides) => Ok(overrides),
        Err(error) => Err(OverrideError::Build(error)),
    }
}

/// The set of override globs for the arguments of `join`: it holds the
/// globs that the arguments amount to.
pub fn overrides_for(args: &JoinArgs) -> (built: Result<ignore::overrides::Override, OverrideError>)
    ensures
        match built {
            Ok(_) => first_refused(globs_for(*args)) is None,
            Err(OverrideError::Glob(glob, _)) => first_refused(globs_for(*args)) == Some(glob@),
            Err(OverrideError::Build(_)) => first_refused(globs_for(*args)) is None,
        },
        all_plain(globs_for(*args)) ==> (built is Ok <==> first_refused(globs_for(*args)) is None
            && set_is_built(stored(globs_for(*args)))),
        all_plain(globs_for(*args)) ==> match built {
            Ok(overrides) => globs_in(overrides) == stored(globs_for(*args)),
            Err(_) => true,
        },
{
    let globs = override_globs(&args.patterns, &args.exclude, args.hidden);
    build_overrides(&args.input_folder, &globs)
}

/// What a set of override globs says of a path.
#[derive(Debug)]
pub enum Matched {
    /// No glob speaks of the path.
    Nothing,
    /// The path is excluded; the glob that decided, as the matcher shows it.
    Ignore(String),
    /// The path is included; the glob that decided, as the matcher shows it.
    Whitelist(String),
}

/// What a set of override globs says of a path that is, or is not, a
/// directory.
pub uninterp spec fn match_of(
    overrides: ignore::overrides::Override,
    path: PathBuf,
    is_dir: bool,
) -> Matched;

/// `Override::matched`: what the globs say of a path. The answer depends on
/// the set, the path and the flag alone; nothing is looked up on disk. A set
/// that holds no glob speaks of no path.
#[verifier::external_body]
fn matched(overrides: &ignore::overrides::Override, path: &PathBuf, is_dir: bool) -> (found: Matched)
    ensures
        found == match_of(*overrides, *path, is_dir),
        globs_in(*overrides).len() == 0 ==> found is Nothing,
{
    match overrides.matched(path, is_dir) {
        ignore::Match::None => Matched::Nothing,
        ignore::Match::Ignore(glob) => Matched::Ignore(format!("{:?}", glob)),
        ignore::Match::Whitelist(glob) => Matched::Whitelist(format!("{:?}", glob)),
    }
}

/// What becomes of a file that the traversal meets, and why.
#[derive(Debug)]
pub enum Verdict {
    /// It is the output file itself and is skipped.
    OutputFile,
    /// An include pattern matched it: the glob.
    Included(String),
    /// An exclude pattern matched it: the glob.
    Excluded(String),
    /// There are include patterns, and none matched it.
    NotIncluded,
    /// There are no include patterns, and nothing excludes it.
    IncludedByDefault,
}

impl Verdict {
    /// Whether the file goes into the output.
    pub open spec fn includes(self) -> bool {
        self is Included || self is IncludedByDefault
    }

    /// Whether the file goes into the output.
    pub fn is_included(&self) -> (included: bool)
        ensures
            included == self.includes(),
    {
        match self {
            Verdict::Included(_) => true,
            Verdict::IncludedByDefault => true,
            _ => false,
        }
    }
}

/// The verdict on a file from what the globs say of it: the output file is
/// skipped; a glob that speaks of the file decides; and a file of which no
/// glob speaks is included unless there are include patterns.
pub open spec fn verdict_of(is_output_file: bool, found: Matched, has_patterns: bool) -> Verdict {
    if is_output_file {
        Verdict::OutputFile
    } else {
        match found {
            Matched::Whitelist(glob) => Verdict::Included(glob),
            Matched::Ignore(glob) => Verdict::Excluded(glob),
            Matched::Nothing => if has_patterns {
                Verdict::NotIncluded
            } else {
                Verdict::IncludedByDefault
            },
        }
    }
}

/// The verdict on a file from what the globs say of it.
pub fn classify(is_output_file: bool, found: Matched, has_patterns: bool) -> (verdict: Verdict)
    ensures
        verdict == verdict_of(is_output_file, found, has_patterns),
{
    if is_output_file {
        return Verdict::OutputFile;
    }
    match found {
        Matched::Whitelist(glob) => Verdict::Included(glob),
        Matched::Ignore(glob) => Verdict::Excluded(glob),
        Matched::Nothing => {
            if has_patterns {
                Verdict::NotIncluded
            } else {
                Verdict::IncludedByDefault
            }
        },
    }
}

/// The verdict on a file that the traversal met: the output file is
/// skipped, and of any other file the globs decide.
pub fn examine(
    overrides: &ignore::overrides::Override,
    path: &PathBuf,
    is_output_file: bool,
    has_patterns: bool,
) -> (verdict: Verdict)
    ensures
        verdict == verdict_of(is_output_file, match_of(*overrides, *path, false), has_patterns),
{
    if is_output_file {
        Verdict::OutputFile
    } else {
        classify(false, matched(overrides, path, false), has_patterns)
    }
}

/// Whether the traversal hands an entry on: every entry but a directory and
/// the output file itself.
pub fn is_candidate(is_dir: bool, is_output_file: bool) -> (handed_on: bool)
    ensures
        handed_on == (!is_dir && !is_output_file),
{
    !(is_dir || is_output_file)
}

} // verus!
