use vstd::prelude::*;

use clap::{Arg, ArgGroup, ArgMatches, Command};

use crate::args::{
    parsed_as, AddArgs, Cli, Commands, EditArgs, EditOptsGroup, InitArgs, ListArgs, NewArgs, RemoveArgs,
};
use crate::table::{valid_filter, valid_filters};
use crate::text::str_is;

verus! {

#[verifier::external_type_specification]
#[verifier::external_body]
pub struct ExCommand(clap::Command);

#[verifier::external_type_specification]
#[verifier::external_body]
pub struct ExArg(clap::Arg);

#[verifier::external_type_specification]
#[verifier::external_body]
pub struct ExArgGroup(clap::ArgGroup);

#[verifier::external_type_specification]
#[verifier::external_body]
pub struct ExArgMatches(clap::ArgMatches);

/// Relies on `Command::new`: a command of this name with no arguments.
#[verifier::external_body]
fn command_new(name: &'static str) -> Command {
    Command::new(name)
}

/// Relies on `Command::arg`: the command with one more argument.
#[verifier::external_body]
fn command_arg(c: Command, a: Arg) -> Command {
    c.arg(a)
}

/// Relies on `Command::subcommand`: the command with one more subcommand.
#[verifier::external_body]
fn command_subcommand(c: Command, sub: Command) -> Command {
    c.subcommand(sub)
}

/// Relies on `Command::subcommand_required`.
#[verifier::external_body]
fn command_subcommand_required(c: Command, yes: bool) -> Command {
    c.subcommand_required(yes)
}

/// Relies on `Command::group`: the command with one more argument group.
#[verifier::external_body]
fn command_group(c: Command, g: ArgGroup) -> Command {
    c.group(g)
}

/// Relies on `Arg::new`: an argument with this id.
#[verifier::external_body]
fn arg_new(id: &'static str) -> Arg {
    Arg::new(id)
}

/// Relies on `Arg::long`: the argument's long name.
#[verifier::external_body]
fn arg_long(a: Arg, name: &'static str) -> Arg {
    a.long(name)
}

/// Relies on `Arg::short`: the argument's short name; it asserts that the name is not
/// `-`, which `requires` leaves out.
#[verifier::external_body]
fn arg_short(a: Arg, c: char) -> Arg
    requires
        c != '-',
{
    a.short(c)
}

/// Relies on `Arg::num_args`: how many values the argument takes (none: a flag).
#[verifier::external_body]
fn arg_num_args(a: Arg, n: usize) -> Arg {
    a.num_args(n)
}

/// Relies on `Arg::value_delimiter`: the character that splits one value into several.
#[verifier::external_body]
fn arg_value_delimiter(a: Arg, d: char) -> Arg {
    a.value_delimiter(d)
}

/// Relies on `Arg::require_equals`: the value must be given as `--name=value`.
#[verifier::external_body]
fn arg_require_equals(a: Arg, yes: bool) -> Arg {
    a.require_equals(yes)
}

/// Relies on `Arg::required`.
#[verifier::external_body]
fn arg_required(a: Arg, yes: bool) -> Arg {
    a.required(yes)
}

/// Relies on `Arg::required_unless_present`.
#[verifier::external_body]
fn arg_required_unless_present(a: Arg, other: &'static str) -> Arg {
    a.required_unless_present(other)
}

/// Relies on `Arg::requires`: the argument needs the argument or group `other`.
#[verifier::external_body]
fn arg_requires(a: Arg, other: &'static str) -> Arg {
    a.requires(other)
}

/// Relies on `ArgGroup::new`: a group with this id.
#[verifier::external_body]
fn group_new(id: &'static str) -> ArgGroup {
    ArgGroup::new(id)
}

/// Relies on `ArgGroup::arg`: the group with one more argument.
#[verifier::external_body]
fn group_arg(g: ArgGroup, id: &'static str) -> ArgGroup {
    g.arg(id)
}

/// Relies on `ArgGroup::multiple`: whether more than one argument of the group may be given.
#[verifier::external_body]
fn group_multiple(g: ArgGroup, yes: bool) -> ArgGroup {
    g.multiple(yes)
}

/// Relies on `ArgMatches::subcommand`: the name and matches of the subcommand given.
#[verifier::external_body]
fn matches_subcommand(m: &ArgMatches) -> Option<(String, &ArgMatches)> {
    m.subcommand().map(|(name, sub)| (name.to_string(), sub))
}

/// Relies on `ArgMatches::try_get_one::<bool>`: the value of a flag, or why it cannot
/// be read.
#[verifier::external_body]
fn matches_flag(m: &ArgMatches, id: &str) -> Result<Option<bool>, String> {
    m.try_get_one::<bool>(id).map(|v| v.copied()).map_err(|e| e.to_string())
}

/// Relies on `ArgMatches::try_get_many::<String>`: the values given to an argument, in
/// order, or why they cannot be read.
#[verifier::external_body]
fn matches_values(m: &ArgMatches, id: &str) -> Result<Option<Vec<String>>, String> {
    m.try_get_many::<String>(id).map(|v| v.map(|vals| vals.cloned().collect())).map_err(
        |e| e.to_string(),
    )
}

/// A flag: present or not.
fn flag(id: &'static str, long: &'static str, short: Option<char>) -> Arg
    requires
        short != Some('-'),
{
    let mut a = arg_long(arg_new(id), long);
    if let Some(c) = short {
        a = arg_short(a, c);
    }
    arg_num_args(a, 0)
}

/// An option that takes one value.
fn option(id: &'static str, long: &'static str, short: Option<char>) -> Arg
    requires
        short != Some('-'),
{
    let a = arg_long(arg_new(id), long);
    match short {
        Some(c) => arg_short(a, c),
        None => a,
    }
}

/// An option whose value is a comma-separated list.
fn list_option(id: &'static str, long: &'static str, short: Option<char>, equals: bool) -> Arg
    requires
        short != Some('-'),
{
    let a = arg_value_delimiter(option(id, long, short), ',');
    if equals {
        arg_require_equals(a, true)
    } else {
        a
    }
}

/// A positional value.
fn positional(id: &'static str, required: bool) -> Arg {
    arg_required(arg_new(id), required)
}

fn new_command() -> Command {
    let c = command_new("new");
    let c = command_arg(c, flag("temp", "temp", Some('t')));
    let c = command_arg(c, flag("project", "project", Some('D')));
    let c = command_arg(c, option("path", "path", Some('p')));
    let c = command_arg(c, option("prog_type", "type", Some('T')));
    let c = command_arg(c, option("description", "description", Some('d')));
    let c = command_arg(c, list_option("tags", "tags", Some('G'), false));
    command_arg(c, arg_required_unless_present(arg_new("name"), "temp"))
}

fn add_command() -> Command {
    let c = command_new("add");
    let c = command_arg(c, option("description", "description", Some('d')));
    let c = command_arg(c, list_option("tags", "tags", Some('t'), false));
    let c = command_arg(c, option("prog_type", "type", Some('T')));
    let c = command_arg(c, positional("name", true));
    command_arg(c, positional("path", true))
}

fn edit_command() -> Command {
    let c = command_new("edit");
    let c = command_arg(c, option("description", "description", Some('d')));
    let c = command_arg(c, list_option("tags", "add-tags", Some('t'), false));
    let c = command_arg(c, list_option("rm_tags", "rm-tags", Some('R'), false));
    let c = command_arg(c, option("prog_type", "prog-type", Some('p')));
    let g = group_new("EditOptsGroup");
    let g = group_arg(g, "description");
    let g = group_arg(g, "tags");
    let g = group_arg(g, "rm_tags");
    let g = group_arg(g, "prog_type");
    let c = command_group(c, group_multiple(g, true));
    command_arg(c, arg_requires(positional("name", true), "EditOptsGroup"))
}

fn list_command() -> Command {
    let c = command_new("list");
    let c = command_arg(c, list_option("format", "format", None, true));
    let c = command_arg(c, list_option("sort", "sort", None, true));
    let c = command_arg(c, list_option("filter", "filter", None, true));
    command_arg(c, flag("temp", "temp", Some('t')))
}

fn remove_command() -> Command {
    let c = command_new("remove");
    let c = command_arg(c, flag("force", "force", Some('f')));
    command_arg(c, positional("name", true))
}

fn init_command() -> Command {
    let c = command_new("init");
    let c = command_arg(c, flag("force", "force", Some('f')));
    command_arg(c, option("path", "path", Some('p')))
}

/// The command-line grammar: the global `--debug` flag and one command of `new`, `add`,
/// `edit`, `list`, `remove` and `init`, each with its options.
pub fn command() -> Command {
    let c = command_new("boil");
    let c = command_arg(c, flag("debug", "debug", None));
    let c = command_subcommand(c, new_command());
    let c = command_subcommand(c, add_command());
    let c = command_subcommand(c, edit_command());
    let c = command_subcommand(c, list_command());
    let c = command_subcommand(c, remove_command());
    let c = command_subcommand(c, init_command());
    command_subcommand_required(c, true)
}

fn flag_of(m: &ArgMatches, id: &str) -> Result<bool, String> {
    match matches_flag(m, id)? {
        Some(b) => Ok(b),
        None => Ok(false),
    }
}

/// The last value given to a single-valued argument.
fn one_of(m: &ArgMatches, id: &str) -> Result<Option<String>, String> {
    match matches_values(m, id)? {
        Some(mut v) => Ok(v.pop()),
        None => Ok(None),
    }
}

fn required_of(m: &ArgMatches, id: &str) -> Result<String, String> {
    match one_of(m, id)? {
        Some(v) => Ok(v),
        None => {
            let mut msg = String::from_str("missing value for ");
            msg.append(id);
            Err(msg)
        },
    }
}

/// A `list` command always has a field list, and its filter, if any, has only known
/// operators.
pub open spec fn list_ready(c: Commands) -> bool {
    match c {
        Commands::List(l) => l.format is Some && match l.filter {
            Some(fs) => valid_filters(fs@),
            None => true,
        },
        _ => true,
    }
}

impl Cli {
    /// The command line that clap matched against `command()`, in the library's types.
    /// The filter triples of `list` are parsed as `ListArgs::from_values` says.
    pub fn from_matches(m: &ArgMatches) -> (r: Result<Cli, String>)
        ensures
            r matches Ok(cli) ==> list_ready(cli.command),
    {
        let debug = flag_of(m, "debug")?;
        let (name, sub) = match matches_subcommand(m) {
            Some(pair) => pair,
            None => {
                return Err(String::from_str("a command is required"));
            },
        };
        let name = name.as_str();
        let command = if str_is(name, "new") {
            Commands::New(
                NewArgs {
                    temp: flag_of(sub, "temp")?,
                    project: flag_of(sub, "project")?,
                    path: one_of(sub, "path")?,
                    prog_type: one_of(sub, "prog_type")?,
                    description: one_of(sub, "description")?,
                    tags: matches_values(sub, "tags")?,
                    name: one_of(sub, "name")?,
                },
            )
        } else if str_is(name, "add") {
            Commands::Add(
                AddArgs {
                    description: one_of(sub, "description")?,
                    tags: matches_values(sub, "tags")?,
                    prog_type: one_of(sub, "prog_type")?,
                    name: required_of(sub, "name")?,
                    path: required_of(sub, "path")?,
                },
            )
        } else if str_is(name, "edit") {
            Commands::Edit(
                EditArgs {
                    eopts: EditOptsGroup {
                        description: one_of(sub, "description")?,
                        tags: matches_values(sub, "tags")?,
                        rm_tags: matches_values(sub, "rm_tags")?,
                        prog_type: one_of(sub, "prog_type")?,
                    },
                    name: required_of(sub, "name")?,
                },
            )
        } else if str_is(name, "list") {
            let filter_values = matches_values(sub, "filter")?;
            let ghost given = filter_values;
            let l = ListArgs::from_values(
                matches_values(sub, "format")?,
                matches_values(sub, "sort")?,
                filter_values,
                flag_of(sub, "temp")?,
            )?;
            proof {
                if l.filter is Some {
                    let fs = l.filter->Some_0;
                    let pieces = given->Some_0;
                    assert forall|i: int| 0 <= i < fs@.len() implies valid_filter(
                        #[trigger] fs@[i],
                    ) by {
                        assert(parsed_as(pieces@[i]@, fs@[i]));
                    }
                }
            }
            Commands::List(l)
        } else if str_is(name, "remove") {
            Commands::Remove(
                RemoveArgs { force: flag_of(sub, "force")?, name: required_of(sub, "name")? },
            )
        } else if str_is(name, "init") {
            Commands::Init(InitArgs { force: flag_of(sub, "force")?, path: one_of(sub, "path")? })
        } else {
            let mut msg = String::from_str("unrecognized subcommand '");
            msg.append(name);
            msg.append("'");
            return Err(msg);
        };
        Ok(Cli { command, debug })
    }
}

} // verus!
