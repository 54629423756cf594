//! What the filter is asked to do, and how a command line says it.

use clap::{Arg, Command};
use vstd::prelude::*;
use vstd::string::StringExecFns;

verus! {

/// Where to read, where to write, and whether to count.
#[derive(Debug, PartialEq, Eq)]
pub struct Config {
    /// The path to read; `-` stands for standard input.
    pub in_file: String,
    /// The path to write; without one, standard output.
    pub out_file: Option<String>,
    /// Whether each line written carries the length of its run.
    pub show_count: bool,
}

/// A [`Config`] as contracts speak of it.
pub struct ConfigView {
    pub in_file: Seq<char>,
    pub out_file: Option<Seq<char>>,
    pub show_count: bool,
}

impl View for Config {
    type V = ConfigView;

    open spec fn view(&self) -> ConfigView {
        ConfigView {
            in_file: self.in_file@,
            out_file: self.out_file.deep_view(),
            show_count: self.show_count,
        }
    }
}

/// The input path that stands for standard input, and that is read where the
/// command line names none.
pub open spec fn standard_input() -> Seq<char> {
    "-"@
}

/// The name under which the program speaks of itself.
pub open spec fn program_name() -> Seq<char> {
    "unic"@
}

impl Config {
    /// Whether the input is standard input rather than a file.
    pub fn reads_standard_input(&self) -> (yes: bool)
        ensures
            yes == (self@.in_file == standard_input()),
    {
        let dash = String::from_str("-");
        self.in_file == dash
    }
}

/// What to say when the input at `path` cannot be opened: the program's
/// name, the path and the cause, with `: ` between them.
pub fn input_failure(path: &str, cause: &str) -> (message: String)
    ensures
        message@ == program_name() + ": "@ + path@ + ": "@ + cause@,
{
    let mut message = String::from_str("unic");
    message.append(": ");
    message.append(path);
    message.append(": ");
    message.append(cause);
    message
}

/// A command line that was not turned into a [`Config`].
#[derive(Debug, PartialEq, Eq)]
pub struct ArgsError {
    /// What to tell the user: the complaint, or the help or version text.
    pub message: String,
    /// Whether the command line was refused. Where it was not, it asked for
    /// the help or the version text.
    pub refused: bool,
}

impl ArgsError {
    /// The status to leave with: 2 for a command line that was refused, 0
    /// for one that asked for help or for the version.
    pub fn exit_status(&self) -> (status: i32)
        ensures
            status == if self.refused { 2i32 } else { 0i32 },
    {
        if self.refused {
            2
        } else {
            0
        }
    }
}

/// `clap::Error`, carried unopened from the parse to the functions that read
/// it.
#[verifier::external_type_specification]
#[verifier::external_body]
pub struct ExClapError(clap::Error);

/// What `clap` finds on a command line for this program: nothing where it
/// turns the command line down or answers it itself (help, version), else
/// the input path, the output path and whether counts were asked for.
pub uninterp spec fn matched_arguments(cmd_args: Seq<Seq<char>>) -> Option<
    (Option<Seq<char>>, Option<Seq<char>>, bool),
>;

/// `clap::Command::try_get_matches_from` on this program's command: two
/// positional values, INPUT (`-` where absent) and OUTPUT, and the flag
/// `-c`/`--count`. The first of `cmd_args` is the program's name. The values
/// are read with `ArgMatches::get_one` and `ArgMatches::is_present`, under
/// the names and with the type that the command gives them, so that neither
/// panics.
///
/// Believed, not proved: whether `clap` accepts the command line, and what it
/// finds on it, depends on `cmd_args` alone.
#[verifier::external_body]
fn match_arguments(cmd_args: Vec<String>) -> (found: Result<
    (Option<String>, Option<String>, bool),
    clap::Error,
>)
    ensures
        matched_arguments(cmd_args.deep_view()) == match found {
            Ok(values) => Some((values.0.deep_view(), values.1.deep_view(), values.2)),
            Err(_) => None,
        },
{
    let matches = Command::new("unic")
        .version("1.0.0")
        .author("sanjayts")
        .arg(Arg::new("in_file").value_name("INPUT").multiple_values(false).default_value("-"))
        .arg(Arg::new("out_file").value_name("OUTPUT").multiple_values(false))
        .arg(Arg::new("show_count").short('c').long("count").takes_value(false)
            .help("Prefix lines by the number of occurrences"))
        .try_get_matches_from(cmd_args)?;
    Ok((
        matches.get_one::<String>("in_file").cloned(),
        matches.get_one::<String>("out_file").cloned(),
        matches.is_present("show_count"),
    ))
}

/// `clap::Error`'s `to_string`: the text that `clap` would print for the
/// error. Nothing is claimed of it.
#[verifier::external_body]
fn error_text(error: &clap::Error) -> String {
    error.to_string()
}

/// `clap::Error::use_stderr`: whether `clap` would print the error to the
/// error stream, as it does for all but help and version. Nothing is claimed
/// of it.
#[verifier::external_body]
fn error_goes_to_stderr(error: &clap::Error) -> bool {
    error.use_stderr()
}

/// The configuration that matched values stand for: the values themselves,
/// with standard input where no input path was found.
pub open spec fn matched_config(
    values: (Option<Seq<char>>, Option<Seq<char>>, bool),
) -> ConfigView {
    ConfigView {
        in_file: match values.0 {
            Some(path) => path,
            None => standard_input(),
        },
        out_file: values.1,
        show_count: values.2,
    }
}

/// Makes the configuration from what was found on the command line.
pub fn config_from_matches(
    in_file: Option<String>,
    out_file: Option<String>,
    show_count: bool,
) -> (config: Config)
    ensures
        config@ == matched_config((in_file.deep_view(), out_file.deep_view(), show_count)),
{
    let in_file = match in_file {
        Some(path) => path,
        None => String::from_str("-"),
    };
    Config { in_file, out_file, show_count }
}

/// Reads the configuration from the command line, program name first.
///
/// Where `clap` accepts the command line, the configuration holds what it
/// found. Where it does not, the error holds what it has to say.
pub fn parse_config(cmd_args: Vec<String>) -> (res: Result<Config, ArgsError>)
    ensures
        match matched_arguments(cmd_args.deep_view()) {
            Some(values) => res matches Ok(config) && config@ == matched_config(values),
            None => res is Err,
        },
{
    match match_arguments(cmd_args) {
        Ok(values) => Ok(config_from_matches(values.0, values.1, values.2)),
        Err(error) => Err(
            ArgsError { message: error_text(&error), refused: error_goes_to_stderr(&error) },
        ),
    }
}

} // verus!
