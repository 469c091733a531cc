//! The options of one invocation and the rules for reading them from the
//! command line.

pub mod laws;

use vstd::prelude::*;
use vstd::std_specs::iter::IteratorSpec;
use vstd::string::StringExecFns;

verus! {

/// Everything the command line can ask of one listing.
#[derive(Clone, Debug, PartialEq, Eq)]
pub struct CliOptions {
    /// Show entries whose name begins with a period.
    pub all: bool,
    /// Show the table with the read-only flag and the size.
    pub long_format: bool,
    /// Show directories only.
    pub dirs_only: bool,
    /// The directory to list.
    pub directory: String,
    /// Order names descending.
    pub reverse_sorted: bool,
    /// Keep directories and other entries apart.
    pub group_by: bool,
}

/// The mathematical value of a [`CliOptions`].
pub struct OptionsView {
    pub all: bool,
    pub long_format: bool,
    pub dirs_only: bool,
    pub directory: Seq<char>,
    pub reverse_sorted: bool,
    pub group_by: bool,
}

impl View for CliOptions {
    type V = OptionsView;

    open spec fn view(&self) -> OptionsView {
        OptionsView {
            all: self.all,
            long_format: self.long_format,
            dirs_only: self.dirs_only,
            directory: self.directory@,
            reverse_sorted: self.reverse_sorted,
            group_by: self.group_by,
        }
    }
}

/// The options before any argument is read: every flag off, the current
/// directory.
pub open spec fn default_options() -> OptionsView {
    OptionsView {
        all: false,
        long_format: false,
        dirs_only: false,
        directory: seq!['.'],
        reverse_sorted: false,
        group_by: false,
    }
}

/// Directories-only excludes both the long format and show-all.
pub open spec fn compatible(o: OptionsView) -> bool {
    !(o.dirs_only && (o.long_format || o.all))
}

impl CliOptions {
    /// Checks that the chosen modes can be shown together.
    pub fn validate_options(&self) -> (r: Result<&CliOptions, CliError>)
        ensures
            compatible(self@) ==> r == Ok::<&CliOptions, CliError>(self),
            !compatible(self@) ==> r == Err::<&CliOptions, CliError>(CliError::ConfigError),
    {
        if (self.long_format || self.all) && self.dirs_only {
            Err(CliError::ConfigError)
        } else {
            Ok(self)
        }
    }

    /// The default options.
    pub fn new() -> (o: CliOptions)
        ensures
            o@ == default_options(),
    {
        proof {
            reveal_strlit(".");
        }
        let o = CliOptions {
            all: false,
            long_format: false,
            dirs_only: false,
            directory: ".".to_string(),
            reverse_sorted: false,
            group_by: false,
        };
        assert(o.directory@ =~= seq!['.']);
        o
    }
}

/// The errors that end a run of the tool.
#[derive(Clone, Debug, PartialEq, Eq)]
pub enum CliError {
    /// A flag letter that is not known, or a second directory; holds the
    /// offending text.
    InvalidArgument(String),
    /// A flag letter that was given twice.
    DuplicateArgument(char),
    /// Directories-only together with the long format or with show-all.
    ConfigError,
    /// The path to list does not exist or is no directory; holds the path.
    DirectoryNotFound(String),
    /// The directory may not be read; holds the path.
    PermissionDenied(String),
}

/// The mathematical value of a [`CliError`].
pub enum ErrorView {
    InvalidArgument(Seq<char>),
    DuplicateArgument(char),
    ConfigError,
    DirectoryNotFound(Seq<char>),
    PermissionDenied(Seq<char>),
}

impl View for CliError {
    type V = ErrorView;

    open spec fn view(&self) -> ErrorView {
        match *self {
            CliError::InvalidArgument(text) => ErrorView::InvalidArgument(text@),
            CliError::DuplicateArgument(ch) => ErrorView::DuplicateArgument(ch),
            CliError::ConfigError => ErrorView::ConfigError,
            CliError::DirectoryNotFound(path) => ErrorView::DirectoryNotFound(path@),
            CliError::PermissionDenied(path) => ErrorView::PermissionDenied(path@),
        }
    }
}

/// The line that tells the user of an error; it begins with the tool's name.
pub open spec fn diagnostic(e: ErrorView) -> Seq<char> {
    match e {
        ErrorView::InvalidArgument(text) => "neols: Error - Unknown argument: "@ + text,
        ErrorView::DuplicateArgument(ch) => "neols: Error - Argument already set: "@.push(ch),
        ErrorView::ConfigError => "neols: Error - Incompatible arguments: -a, -d and -l"@,
        ErrorView::DirectoryNotFound(path) => "neols: Error - No such directory: "@ + path,
        ErrorView::PermissionDenied(path) => "neols: Error - Permission denied: "@ + path,
    }
}

impl CliError {
    /// The line that tells the user of this error.
    pub fn message(&self) -> (text: String)
        ensures
            text@ == diagnostic(self@),
    {
        match self {
            CliError::InvalidArgument(given) => {
                let mut text = String::from_str("neols: Error - Unknown argument: ");
                text.append(given.as_str());
                text
            },
            CliError::DuplicateArgument(ch) => {
                let mut text = String::from_str("neols: Error - Argument already set: ");
                text.push(*ch);
                text
            },
            CliError::ConfigError => {
                String::from_str("neols: Error - Incompatible arguments: -a, -d and -l")
            },
            CliError::DirectoryNotFound(path) => {
                let mut text = String::from_str("neols: Error - No such directory: ");
                text.append(path.as_str());
                text
            },
            CliError::PermissionDenied(path) => {
                let mut text = String::from_str("neols: Error - Permission denied: ");
                text.append(path.as_str());
                text
            },
        }
    }
}

/// An argument that begins with a dash holds flag letters.
pub open spec fn holds_flags(arg: Seq<char>) -> bool {
    arg.len() > 0 && arg[0] == '-'
}

/// The argument without the dashes it begins with.
pub open spec fn strip_dashes(arg: Seq<char>) -> Seq<char>
    decreases arg.len(),
{
    if arg.len() > 0 && arg[0] == '-' {
        strip_dashes(arg.drop_first())
    } else {
        arg
    }
}

/// The letters that name a flag.
pub open spec fn is_flag(ch: char) -> bool {
    ch == 'a' || ch == 'l' || ch == 'd' || ch == 'r' || ch == 'g'
}

/// Whether the flag that `ch` names is on.
pub open spec fn flag_is_on(o: OptionsView, ch: char) -> bool {
    if ch == 'a' {
        o.all
    } else if ch == 'l' {
        o.long_format
    } else if ch == 'd' {
        o.dirs_only
    } else if ch == 'r' {
        o.reverse_sorted
    } else {
        ch == 'g' && o.group_by
    }
}

/// The options with the flag that `ch` names turned on.
pub open spec fn with_flag(o: OptionsView, ch: char) -> OptionsView {
    if ch == 'a' {
        OptionsView { all: true, ..o }
    } else if ch == 'l' {
        OptionsView { long_format: true, ..o }
    } else if ch == 'd' {
        OptionsView { dirs_only: true, ..o }
    } else if ch == 'r' {
        OptionsView { reverse_sorted: true, ..o }
    } else if ch == 'g' {
        OptionsView { group_by: true, ..o }
    } else {
        o
    }
}

/// What one flag letter does: an unknown letter is refused, a flag that is
/// on already is a duplicate, any other is turned on.
pub open spec fn apply_flag(o: OptionsView, ch: char) -> Result<OptionsView, ErrorView> {
    if !is_flag(ch) {
        Err(ErrorView::InvalidArgument(seq![ch]))
    } else if flag_is_on(o, ch) {
        Err(ErrorView::DuplicateArgument(ch))
    } else {
        Ok(with_flag(o, ch))
    }
}

/// What a run of flag letters does, read from the left; the first letter that
/// is refused ends the reading.
pub open spec fn apply_flags(o: OptionsView, letters: Seq<char>) -> Result<OptionsView, ErrorView>
    decreases letters.len(),
{
    if letters.len() == 0 {
        Ok(o)
    } else {
        match apply_flag(o, letters[0]) {
            Ok(next) => apply_flags(next, letters.drop_first()),
            Err(e) => Err(e),
        }
    }
}

/// How far a command line has been read.
pub struct Reading {
    /// The options as the arguments read so far leave them.
    pub options: OptionsView,
    /// Whether one of those arguments named the directory.
    pub directory_given: bool,
}

/// What one argument does: flag letters are applied; any other argument
/// names the directory, and a second one of them is refused.
pub open spec fn apply_arg(at: Reading, arg: Seq<char>) -> Result<Reading, ErrorView> {
    if holds_flags(arg) {
        match apply_flags(at.options, strip_dashes(arg)) {
            Ok(options) => Ok(Reading { options, ..at }),
            Err(e) => Err(e),
        }
    } else if at.directory_given {
        Err(ErrorView::InvalidArgument(arg))
    } else {
        Ok(Reading { options: OptionsView { directory: arg, ..at.options }, directory_given: true })
    }
}

/// What the arguments do, read from the left; the first one that is refused
/// ends the reading.
pub open spec fn apply_args(at: Reading, args: Seq<Seq<char>>) -> Result<Reading, ErrorView>
    decreases args.len(),
{
    if args.len() == 0 {
        Ok(at)
    } else {
        match apply_arg(at, args[0]) {
            Ok(next) => apply_args(next, args.drop_first()),
            Err(e) => Err(e),
        }
    }
}

/// The options that a command line asks for, or why it is refused.
pub open spec fn parse_args(args: Seq<Seq<char>>) -> Result<OptionsView, ErrorView> {
    match apply_args(Reading { options: default_options(), directory_given: false }, args) {
        Ok(at) => Ok(at.options),
        Err(e) => Err(e),
    }
}

/// Tells whether an argument begins with a dash.
pub fn is_flag_argument(arg: &str) -> (r: bool)
    ensures
        r == holds_flags(arg@),
{
    let mut letters = arg.chars();
    match letters.next() {
        Some(c) => c == '-',
        None => false,
    }
}

/// Refuses a flag letter whose flag is on already.
pub fn arg_already_set(condition: bool, ch: char) -> (r: Result<(), CliError>)
    ensures
        condition ==> r == Err::<(), CliError>(CliError::DuplicateArgument(ch)),
        !condition ==> r is Ok,
{
    if condition {
        Err(CliError::DuplicateArgument(ch))
    } else {
        Ok(())
    }
}

/// Turns on the flag that `ch` names.
pub fn set_flag(options: CliOptions, ch: char) -> (r: Result<CliOptions, CliError>)
    ensures
        match r {
            Ok(o) => apply_flag(options@, ch) == Ok::<OptionsView, ErrorView>(o@),
            Err(e) => apply_flag(options@, ch) == Err::<OptionsView, ErrorView>(e@),
        },
{
    let mut options = options;
    if ch == 'a' {
        arg_already_set(options.all, ch)?;
        options.all = true;
    } else if ch == 'l' {
        arg_already_set(options.long_format, ch)?;
        options.long_format = true;
    } else if ch == 'd' {
        arg_already_set(options.dirs_only, ch)?;
        options.dirs_only = true;
    } else if ch == 'r' {
        arg_already_set(options.reverse_sorted, ch)?;
        options.reverse_sorted = true;
    } else if ch == 'g' {
        arg_already_set(options.group_by, ch)?;
        options.group_by = true;
    } else {
        let mut letter = String::new();
        letter.push(ch);
        return Err(CliError::InvalidArgument(letter));
    }
    Ok(options)
}

/// Reads the flag letters of an argument that begins with a dash.
pub fn read_flags(options: CliOptions, arg: &str) -> (r: Result<CliOptions, CliError>)
    ensures
        match r {
            Ok(o) => apply_flags(options@, strip_dashes(arg@)) == Ok::<OptionsView, ErrorView>(o@),
            Err(e) => apply_flags(options@, strip_dashes(arg@)) == Err::<OptionsView, ErrorView>(
                e@,
            ),
        },
{
    let mut current = options;
    let mut letters = arg.chars();
    let mut in_dashes = true;
    loop
        invariant
            letters.decrease() is Some,
            in_dashes ==> current@ == options@ && strip_dashes(arg@) == strip_dashes(
                letters.remaining(),
            ),
            !in_dashes ==> apply_flags(options@, strip_dashes(arg@)) == apply_flags(
                current@,
                letters.remaining(),
            ),
        decreases letters.decrease()->0,
    {
        match letters.next() {
            None => {
                return Ok(current);
            },
            Some(ch) => {
                if !(in_dashes && ch == '-') {
                    in_dashes = false;
                    match set_flag(current, ch) {
                        Ok(next) => {
                            current = next;
                        },
                        Err(e) => {
                            return Err(e);
                        },
                    }
                }
            },
        }
    }
}

/// Reads the options from the arguments of the command line, that is from
/// what follows the name of the program.
pub fn build_options_from_args(args: Vec<String>) -> (r: Result<CliOptions, CliError>)
    ensures
        match r {
            Ok(o) => parse_args(args.deep_view()) == Ok::<OptionsView, ErrorView>(o@),
            Err(e) => parse_args(args.deep_view()) == Err::<OptionsView, ErrorView>(e@),
        },
{
    let ghost all = args.deep_view();
    let ghost start = Reading { options: default_options(), directory_given: false };
    let mut options = CliOptions::new();
    let mut dir_set = false;
    assert(all.skip(0) =~= all);
    for arg in it: args
        invariant
            it.seq() == args@,
            all == args.deep_view(),
            start == (Reading { options: default_options(), directory_given: false }),
            apply_args(start, all) == apply_args(
                Reading { options: options@, directory_given: dir_set },
                all.skip(it.index() as int),
            ),
    {
        proof {
            let k = it.index() as int;
            assert(all.skip(k).drop_first() =~= all.skip(k + 1));
        }
        if is_flag_argument(arg.as_str()) {
            match read_flags(options, arg.as_str()) {
                Ok(next) => {
                    options = next;
                },
                Err(e) => {
                    return Err(e);
                },
            }
        } else if !dir_set {
            options.directory = arg;
            dir_set = true;
        } else {
            return Err(CliError::InvalidArgument(arg));
        }
    }
    Ok(options)
}

} // verus!
