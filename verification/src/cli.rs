//! The command line: its subcommands and their arguments.
//!
//! The grammar is handed to `clap`, which parses. What `clap` found is read
//! out as plain values, and [`Cli::from_values`] decides what they amount to.

use std::path::PathBuf;
use vstd::prelude::*;
use vstd::string::StringExecFns;

verus! {

/// A path of the file system, as the command line gives it.
#[verifier::external_type_specification]
#[verifier::external_body]
pub struct ExPathBuf(PathBuf);

/// `PathBuf::clone`: a copy of the path.
pub assume_specification[ <PathBuf as Clone>::clone ](path: &PathBuf) -> (copy: PathBuf)
    ensures
        copy == *path,
;

/// The definition of a command or subcommand.
#[verifier::external_type_specification]
#[verifier::external_body]
pub struct ExCommand(clap::Command);

/// The definition of one argument.
#[verifier::external_type_specification]
#[verifier::external_body]
pub struct ExArg(clap::Arg);

/// What the parser found on a command line.
#[verifier::external_type_specification]
#[verifier::external_body]
pub struct ExArgMatches(clap::ArgMatches);

/// The kinds of the parser's errors.
#[verifier::external_type_specification]
#[verifier::external_body]
pub struct ExErrorKind(clap::error::ErrorKind);

/// The command line of the program.
#[derive(Debug, Clone)]
pub struct Cli {
    /// The subcommand to execute.
    pub command: Commands,
}

/// The subcommands.
#[derive(Debug, Clone)]
pub enum Commands {
    /// Concatenate files into a single text file.
    Join(JoinArgs),
    /// Update the application to the latest version.
    Update(UpdateArgs),
}

/// The arguments of the subcommand `join`.
#[derive(Debug, Clone)]
pub struct JoinArgs {
    /// The root folder to start traversing for files.
    pub input_folder: PathBuf,
    /// The file that the concatenated content is written to.
    pub output_file: PathBuf,
    /// Glob patterns for the files to include; all files where there is none.
    pub patterns: Option<Vec<String>>,
    /// Glob patterns for the files or folders to exclude.
    pub exclude: Option<Vec<String>>,
    /// Whether the output file is deleted before anything is written.
    pub clear_file: bool,
    /// How deep the traversal goes; 0 is the input folder alone.
    pub max_depth: Option<usize>,
    /// Whether hidden files and folders are included.
    pub hidden: bool,
    /// Whether symbolic links are left alone.
    pub no_follow: bool,
    /// How much is reported along the way.
    pub verbose: u8,
}

/// The arguments of the subcommand `update`: none.
#[derive(Debug, Clone)]
pub struct UpdateArgs {}

/// A command line that was not accepted.
#[derive(Debug)]
pub struct CliError {
    /// The parser's kind of the error.
    pub kind: clap::error::ErrorKind,
    /// The error in words.
    pub message: String,
}

impl CliError {
    /// The kind of the error.
    pub fn kind(&self) -> (kind: clap::error::ErrorKind)
        ensures
            kind == self.kind,
    {
        self.kind
    }
}

/// What the parser found for the arguments of `join`, each as it was handed
/// out: nothing where the parser holds no value for it.
#[derive(Debug)]
pub struct JoinValues {
    pub input_folder: Option<PathBuf>,
    pub output_file: Option<PathBuf>,
    pub patterns: Option<Vec<String>>,
    pub exclude: Option<Vec<String>>,
    pub clear_file: Option<bool>,
    pub max_depth: Option<usize>,
    pub hidden: Option<bool>,
    pub no_follow: Option<bool>,
    pub verbose: Option<u8>,
}

/// Why what the parser found is no command line of the program.
#[derive(Debug)]
pub enum CliFault {
    /// No subcommand was given.
    MissingSubcommand,
    /// The subcommand is none of the program's.
    InvalidSubcommand(String),
    /// The parser holds no value for the named argument, which needs one.
    MissingArgument(String),
}

/// A `CliFault` as plain text.
pub enum Fault {
    MissingSubcommand,
    InvalidSubcommand(Seq<char>),
    MissingArgument(Seq<char>),
}

impl View for CliFault {
    type V = Fault;

    open spec fn view(&self) -> Fault {
        match self {
            CliFault::MissingSubcommand => Fault::MissingSubcommand,
            CliFault::InvalidSubcommand(name) => Fault::InvalidSubcommand(name@),
            CliFault::MissingArgument(id) => Fault::MissingArgument(id@),
        }
    }
}

impl JoinValues {
    /// The first argument, in the order of their declaration, that needs a
    /// value and has none. The two lists of patterns and the depth need none.
    pub open spec fn first_missing(self) -> Option<Seq<char>> {
        if self.input_folder is None {
            Some("input_folder"@)
        } else if self.output_file is None {
            Some("output_file"@)
        } else if self.clear_file is None {
            Some("clear_file"@)
        } else if self.hidden is None {
            Some("hidden"@)
        } else if self.no_follow is None {
            Some("no_follow"@)
        } else if self.verbose is None {
            Some("verbose"@)
        } else {
            None
        }
    }

    /// The arguments that the values amount to, where none is missing.
    pub open spec fn arguments(self) -> JoinArgs {
        JoinArgs {
            input_folder: self.input_folder->0,
            output_file: self.output_file->0,
            patterns: self.patterns,
            exclude: self.exclude,
            clear_file: self.clear_file->0,
            max_depth: self.max_depth,
            hidden: self.hidden->0,
            no_follow: self.no_follow->0,
            verbose: self.verbose->0,
        }
    }
}

fn missing_argument(id: &str) -> (fault: CliFault)
    ensures
        fault@ == Fault::MissingArgument(id@),
{
    CliFault::MissingArgument(id.to_owned())
}

impl JoinArgs {
    /// The arguments of `join` from what the parser found: every argument
    /// but the two lists of patterns and the depth needs a value.
    pub fn from_values(values: JoinValues) -> (made: Result<JoinArgs, CliFault>)
        ensures
            match made {
                Ok(args) => values.first_missing() is None && args == values.arguments(),
                Err(fault) => values.first_missing() is Some && fault@ == Fault::MissingArgument(
                    values.first_missing()->0,
                ),
            },
    {
        let input_folder = match values.input_folder {
            Some(path) => path,
            None => {
                return Err(missing_argument("input_folder"));
            },
        };
        let output_file = match values.output_file {
            Some(path) => path,
            None => {
                return Err(missing_argument("output_file"));
            },
        };
        let clear_file = match values.clear_file {
            Some(on) => on,
            None => {
                return Err(missing_argument("clear_file"));
            },
        };
        let hidden = match values.hidden {
            Some(on) => on,
            None => {
                return Err(missing_argument("hidden"));
            },
        };
        let no_follow = match values.no_follow {
            Some(on) => on,
            None => {
                return Err(missing_argument("no_follow"));
            },
        };
        let verbose = match values.verbose {
            Some(count) => count,
            None => {
                return Err(missing_argument("verbose"));
            },
        };
        Ok(
            JoinArgs {
                input_folder,
                output_file,
                patterns: values.patterns,
                exclude: values.exclude,
                clear_file,
                max_depth: values.max_depth,
                hidden,
                no_follow,
                verbose,
            },
        )
    }
}

impl Cli {
    /// What a subcommand's name and the values found for `join` amount to.
    pub open spec fn outcome(found: Option<(String, JoinValues)>) -> Result<Cli, Fault> {
        match found {
            None => Err(Fault::MissingSubcommand),
            Some((name, values)) => if name@ == "join"@ {
                match values.first_missing() {
                    None => Ok(Cli { command: Commands::Join(values.arguments()) }),
                    Some(id) => Err(Fault::MissingArgument(id)),
                }
            } else if name@ == "update"@ {
                Ok(Cli { command: Commands::Update(UpdateArgs {  }) })
            } else {
                Err(Fault::InvalidSubcommand(name@))
            },
        }
    }

    /// The command line that the parser's findings amount to: the name of
    /// the subcommand, if one was given, and the values found for the
    /// arguments of `join`.
    pub fn from_values(found: Option<(String, JoinValues)>) -> (made: Result<Cli, CliFault>)
        ensures
            match made {
                Ok(cli) => Cli::outcome(found) == Ok::<_, Fault>(cli),
                Err(fault) => Cli::outcome(found) == Err::<Cli, _>(fault@),
            },
    {
        match found {
            None => Err(CliFault::MissingSubcommand),
            Some((name, values)) => {
                if name == "join".to_owned() {
                    match JoinArgs::from_values(values) {
                        Ok(args) => Ok(Cli { command: Commands::Join(args) }),
                        Err(fault) => Err(fault),
                    }
                } else if name == "update".to_owned() {
                    Ok(Cli { command: Commands::Update(UpdateArgs {  }) })
                } else {
                    Err(CliFault::InvalidSubcommand(name))
                }
            },
        }
    }
}

/// `Command::new`: a command of the given name, with nothing else defined.
#[verifier::external_body]
fn new_command(name: &'static str) -> clap::Command {
    clap::Command::new(name)
}

/// `Command::about`: the line that describes the command in its help.
#[verifier::external_body]
fn about(command: clap::Command, text: &'static str) -> clap::Command {
    command.about(text)
}

/// `Command::subcommand_required`: whether a command line without a
/// subcommand is an error.
#[verifier::external_body]
fn subcommand_required(command: clap::Command, yes: bool) -> clap::Command {
    command.subcommand_required(yes)
}

/// `Command::arg_required_else_help`: whether an empty command line is
/// answered with the help text.
#[verifier::external_body]
fn arg_required_else_help(command: clap::Command, yes: bool) -> clap::Command {
    command.arg_required_else_help(yes)
}

/// `Command::subcommand`: the command with one more subcommand.
#[verifier::external_body]
fn subcommand(command: clap::Command, sub: clap::Command) -> clap::Command {
    command.subcommand(sub)
}

/// `Command::arg`: the command with one more argument.
#[verifier::external_body]
fn argument(command: clap::Command, arg: clap::Arg) -> clap::Command {
    command.arg(arg)
}

/// `Arg::new`: an argument of the given id; positional until it gets a
/// short or a long name.
#[verifier::external_body]
fn new_arg(id: &'static str) -> clap::Arg {
    clap::Arg::new(id)
}

/// `Arg::short`: the letter that selects the argument. A hyphen is no
/// letter for an argument: clap refuses it.
#[verifier::external_body]
fn short(arg: clap::Arg, letter: char) -> clap::Arg
    requires
        letter != '-',
{
    arg.short(letter)
}

/// `Arg::long`: the word that selects the argument.
#[verifier::external_body]
fn long(arg: clap::Arg, word: &'static str) -> clap::Arg {
    arg.long(word)
}

/// `Arg::required`: whether a command line without the argument is an
/// error.
#[verifier::external_body]
fn required(arg: clap::Arg, yes: bool) -> clap::Arg {
    arg.required(yes)
}

/// `Arg::default_value`: the value of the argument where the command line
/// gives none.
#[verifier::external_body]
fn default_value(arg: clap::Arg, value: &'static str) -> clap::Arg {
    arg.default_value(value)
}

/// `Arg::value_name`: the name of the argument's value in the help.
#[verifier::external_body]
fn value_name(arg: clap::Arg, name: &'static str) -> clap::Arg {
    arg.value_name(name)
}

/// `Arg::help`: the line that describes the argument in the help.
#[verifier::external_body]
fn help(arg: clap::Arg, text: &'static str) -> clap::Arg {
    arg.help(text)
}

/// `Arg::action` with `ArgAction::Set`: the argument takes one value.
#[verifier::external_body]
fn takes_a_value(arg: clap::Arg) -> clap::Arg {
    arg.action(clap::ArgAction::Set)
}

/// `Arg::action` with `ArgAction::Append`: each occurrence of the argument
/// adds a value.
#[verifier::external_body]
fn collects_values(arg: clap::Arg) -> clap::Arg {
    arg.action(clap::ArgAction::Append)
}

/// `Arg::action` with `ArgAction::SetTrue`: the argument is a switch.
#[verifier::external_body]
fn switches_on(arg: clap::Arg) -> clap::Arg {
    arg.action(clap::ArgAction::SetTrue)
}

/// `Arg::action` with `ArgAction::Count`: the occurrences of the argument
/// are counted.
#[verifier::external_body]
fn counts(arg: clap::Arg) -> clap::Arg {
    arg.action(clap::ArgAction::Count)
}

/// `Arg::value_parser` with the parser of `PathBuf`: the value is a path.
#[verifier::external_body]
fn holds_a_path(arg: clap::Arg) -> clap::Arg {
    arg.value_parser(clap::builder::PathBufValueParser::new())
}

/// `Arg::value_parser` with `usize::from_str`: the value is a number that a
/// `usize` holds.
#[verifier::external_body]
fn holds_a_size(arg: clap::Arg) -> clap::Arg {
    let parse: fn(&str) -> Result<usize, std::num::ParseIntError> = std::str::FromStr::from_str;
    arg.value_parser(clap::builder::ValueParser::new(parse))
}

/// `Command::try_get_matches_from`: parses a command line, the program's
/// name first. Neither prints nor exits: a request for help comes back as
/// an error too. The error keeps its kind and its text.
#[verifier::external_body]
fn try_get_matches_from(command: clap::Command, args: Vec<&str>) -> Result<
    clap::ArgMatches,
    CliError,
> {
    match command.try_get_matches_from(args) {
        Ok(matches) => Ok(matches),
        Err(error) => Err(CliError { kind: error.kind(), message: error.to_string() }),
    }
}

/// The subcommand that the parser holds: its name and what was found for
/// it, or nothing where none was given.
pub uninterp spec fn subcommand_held(matches: clap::ArgMatches) -> Option<
    (String, clap::ArgMatches),
>;

/// `ArgMatches::subcommand`: the name of the subcommand that was given and
/// what was found for it. Reading changes nothing: the result depends on
/// what the parser holds alone.
#[verifier::external_body]
fn subcommand_of(matches: &clap::ArgMatches) -> (found: Option<(String, clap::ArgMatches)>)
    ensures
        found == subcommand_held(*matches),
{
    matches.subcommand().map(|(name, found)| (name.to_string(), found.clone()))
}

/// What the parser holds for one argument: its value by its type, or all
/// its values where they are strings.
pub enum Held {
    Path(PathBuf),
    Size(usize),
    Switch(bool),
    Count(u8),
    Strings(Vec<String>),
}

/// What the parser holds, argument by argument: an entry for each id for
/// which it hands out a value.
pub uninterp spec fn held(matches: clap::ArgMatches) -> Map<Seq<char>, Held>;

/// The path held under `id`.
pub open spec fn path_held(values: Map<Seq<char>, Held>, id: Seq<char>) -> Option<PathBuf> {
    if values.contains_key(id) && values[id] is Path {
        Some(values[id]->Path_0)
    } else {
        None
    }
}

/// The size held under `id`.
pub open spec fn size_held(values: Map<Seq<char>, Held>, id: Seq<char>) -> Option<usize> {
    if values.contains_key(id) && values[id] is Size {
        Some(values[id]->Size_0)
    } else {
        None
    }
}

/// The switch held under `id`.
pub open spec fn switch_held(values: Map<Seq<char>, Held>, id: Seq<char>) -> Option<bool> {
    if values.contains_key(id) && values[id] is Switch {
        Some(values[id]->Switch_0)
    } else {
        None
    }
}

/// The count held under `id`.
pub open spec fn count_held(values: Map<Seq<char>, Held>, id: Seq<char>) -> Option<u8> {
    if values.contains_key(id) && values[id] is Count {
        Some(values[id]->Count_0)
    } else {
        None
    }
}

/// The strings held under `id`.
pub open spec fn strings_held(values: Map<Seq<char>, Held>, id: Seq<char>) -> Option<Vec<String>> {
    if values.contains_key(id) && values[id] is Strings {
        Some(values[id]->Strings_0)
    } else {
        None
    }
}

/// `ArgMatches::try_get_one` for a path: the value of the argument, none
/// where the parser holds none, holds one of another type or knows no such
/// argument. Reading changes nothing: the result depends on what the parser
/// holds and on the id alone.
#[verifier::external_body]
fn path_of(matches: &clap::ArgMatches, id: &str) -> (found: Option<PathBuf>)
    ensures
        found == path_held(held(*matches), id@),
{
    matches.try_get_one::<PathBuf>(id).ok().flatten().cloned()
}

/// `ArgMatches::try_get_one` for a size.
#[verifier::external_body]
fn size_of(matches: &clap::ArgMatches, id: &str) -> (found: Option<usize>)
    ensures
        found == size_held(held(*matches), id@),
{
    matches.try_get_one::<usize>(id).ok().flatten().copied()
}

/// `ArgMatches::try_get_one` for a switch.
#[verifier::external_body]
fn switch_of(matches: &clap::ArgMatches, id: &str) -> (found: Option<bool>)
    ensures
        found == switch_held(held(*matches), id@),
{
    matches.try_get_one::<bool>(id).ok().flatten().copied()
}

/// `ArgMatches::try_get_one` for a count.
#[verifier::external_body]
fn count_of(matches: &clap::ArgMatches, id: &str) -> (found: Option<u8>)
    ensures
        found == count_held(held(*matches), id@),
{
    matches.try_get_one::<u8>(id).ok().flatten().copied()
}

/// `ArgMatches::try_get_many` for strings: the values of the argument in
/// the order of the command line, none where it did not occur.
#[verifier::external_body]
fn strings_of(matches: &clap::ArgMatches, id: &str) -> (found: Option<Vec<String>>)
    ensures
        found == strings_held(held(*matches), id@),
{
    matches.try_get_many::<String>(id).ok().flatten().map(|values| values.cloned().collect())
}

/// `ErrorKind::MissingSubcommand`.
#[verifier::external_body]
fn missing_subcommand() -> clap::error::ErrorKind {
    clap::error::ErrorKind::MissingSubcommand
}

/// `ErrorKind::InvalidSubcommand`.
#[verifier::external_body]
fn invalid_subcommand() -> clap::error::ErrorKind {
    clap::error::ErrorKind::InvalidSubcommand
}

/// `ErrorKind::MissingRequiredArgument`.
#[verifier::external_body]
fn missing_required_argument() -> clap::error::ErrorKind {
    clap::error::ErrorKind::MissingRequiredArgument
}

/// The subcommand `join` with its arguments.
fn join_command() -> clap::Command {
    let command = about(new_command("join"), "Concatenate files into a single text file");
    let command = argument(
        command,
        help(
            holds_a_path(
                takes_a_value(required(value_name(new_arg("input_folder"), "INPUT_FOLDER"), true)),
            ),
            "The root folder to start traversing for files. This is a required argument",
        ),
    );
    let command = argument(
        command,
        help(
            default_value(
                holds_a_path(
                    takes_a_value(
                        long(
                            short(value_name(new_arg("output_file"), "OUTPUT_FILE"), 'o'),
                            "output-file",
                        ),
                    ),
                ),
                "concatenated.txt",
            ),
            "The path to the output file where the concatenated content will be written",
        ),
    );
    let command = argument(
        command,
        help(
            collects_values(long(short(value_name(new_arg("patterns"), "PATTERN"), 'p'), "patterns")),
            "Glob patterns for files to *include*. Can be specified multiple times. If not provided, all files are considered (subject to exclusions). Example: -p \"*.rs\" -p \"*.md\"",
        ),
    );
    let command = argument(
        command,
        help(
            collects_values(long(short(value_name(new_arg("exclude"), "PATTERN"), 'x'), "exclude")),
            "Glob patterns for files or folders to *exclude*. Can be specified multiple times. This is a powerful way to filter out unwanted content like build artifacts or logs. Example: -x \"*.log\" -x \"target/\"",
        ),
    );
    let command = argument(
        command,
        help(
            switches_on(long(short(new_arg("clear_file"), 'c'), "clear-file")),
            "If set, the output file will be deleted before writing new content",
        ),
    );
    let command = argument(
        command,
        help(
            holds_a_size(takes_a_value(long(value_name(new_arg("max_depth"), "MAX_DEPTH"), "max-depth"))),
            "Sets the maximum depth for directory traversal. A depth of 0 means only the input folder itself will be scanned",
        ),
    );
    let command = argument(
        command,
        help(
            switches_on(long(new_arg("hidden"), "hidden")),
            "If set, hidden files and directories (those starting with a '.') will be included",
        ),
    );
    let command = argument(
        command,
        help(
            default_value(switches_on(long(new_arg("no_follow"), "no-follow")), "true"),
            "If set to false, the walker will follow symbolic links. Defaults to true (no-follow)",
        ),
    );
    argument(
        command,
        help(
            counts(long(short(new_arg("verbose"), 'v'), "verbose")),
            "Enable verbose output. Use -v for basic info, -vv for detailed debugging",
        ),
    )
}

/// The definition of the command line: the subcommands `join` and `update`,
/// one of which has to be given.
pub fn command() -> clap::Command {
    let command = about(
        new_command("join-ai"),
        "A CLI application to traverse files in a folder and concatenate them into a single text file, suitable for GenAI model input",
    );
    let command = arg_required_else_help(subcommand_required(command, true), true);
    let command = subcommand(command, join_command());
    subcommand(
        command,
        about(new_command("update"), "Update the application to the latest version [placeholder]"),
    )
}

impl JoinValues {
    /// The values for the arguments of `join` among what the parser holds:
    /// each under the id of its argument, by the type of that argument.
    pub open spec fn of(values: Map<Seq<char>, Held>) -> JoinValues {
        JoinValues {
            input_folder: path_held(values, "input_folder"@),
            output_file: path_held(values, "output_file"@),
            patterns: strings_held(values, "patterns"@),
            exclude: strings_held(values, "exclude"@),
            clear_file: switch_held(values, "clear_file"@),
            max_depth: size_held(values, "max_depth"@),
            hidden: switch_held(values, "hidden"@),
            no_follow: switch_held(values, "no_follow"@),
            verbose: count_held(values, "verbose"@),
        }
    }

    /// Reads out what the parser found for the arguments of `join`.
    fn read(matches: &clap::ArgMatches) -> (values: JoinValues)
        ensures
            values == JoinValues::of(held(*matches)),
    {
        JoinValues {
            input_folder: path_of(matches, "input_folder"),
            output_file: path_of(matches, "output_file"),
            patterns: strings_of(matches, "patterns"),
            exclude: strings_of(matches, "exclude"),
            clear_file: switch_of(matches, "clear_file"),
            max_depth: size_of(matches, "max_depth"),
            hidden: switch_of(matches, "hidden"),
            no_follow: switch_of(matches, "no_follow"),
            verbose: count_of(matches, "verbose"),
        }
    }
}

impl Fault {
    /// The fault in words.
    pub open spec fn text(self) -> Seq<char> {
        match self {
            Fault::MissingSubcommand => "A subcommand is required but one was not provided."@,
            Fault::InvalidSubcommand(name) => "The subcommand wasn't recognized: "@ + name,
            Fault::MissingArgument(id) => "The following required argument was not provided: "@
                + id,
        }
    }
}

impl CliFault {
    /// The parser's kind for the fault.
    pub fn kind(&self) -> clap::error::ErrorKind {
        match self {
            CliFault::MissingSubcommand => missing_subcommand(),
            CliFault::InvalidSubcommand(_) => invalid_subcommand(),
            CliFault::MissingArgument(_) => missing_required_argument(),
        }
    }

    /// The fault in words.
    pub fn message(&self) -> (text: String)
        ensures
            text@ == self@.text(),
    {
        match self {
            CliFault::MissingSubcommand => "A subcommand is required but one was not provided.".to_owned(),
            CliFault::InvalidSubcommand(name) => "The subcommand wasn't recognized: ".to_owned().concat(
                name.as_str(),
            ),
            CliFault::MissingArgument(id) => "The following required argument was not provided: ".to_owned().concat(
                id.as_str(),
            ),
        }
    }
}

impl Cli {
    /// What the parser found: the name of the subcommand, if one was given,
    /// and the values that the parser holds for it.
    pub open spec fn findings(matches: clap::ArgMatches) -> Option<(String, JoinValues)> {
        match subcommand_held(matches) {
            None => None,
            Some((name, sub)) => Some((name, JoinValues::of(held(sub)))),
        }
    }

    /// The command line that the parser's findings hold: what
    /// [`Cli::from_values`] makes of the subcommand's name and of the values
    /// that the parser hands out for it.
    pub fn from_arg_matches(matches: &clap::ArgMatches) -> (made: Result<Cli, CliError>)
        ensures
            match made {
                Ok(cli) => Cli::outcome(Cli::findings(*matches)) == Ok::<_, Fault>(cli),
                Err(error) => Cli::outcome(Cli::findings(*matches)) is Err && error.message@
                    == Cli::outcome(Cli::findings(*matches))->Err_0.text(),
            },
    {
        let found = match subcommand_of(matches) {
            None => None,
            Some((name, sub)) => Some((name, JoinValues::read(&sub))),
        };
        match Cli::from_values(found) {
            Ok(cli) => Ok(cli),
            Err(fault) => Err(CliError { kind: fault.kind(), message: fault.message() }),
        }
    }

    /// Parses a command line, the program's name first.
    pub fn try_parse_from(args: Vec<&str>) -> Result<Cli, CliError> {
        match try_get_matches_from(command(), args) {
            Ok(matches) => Cli::from_arg_matches(&matches),
            Err(error) => Err(error),
        }
    }
}

} // verus!
