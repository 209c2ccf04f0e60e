use boil::args::{
    AddArgs, Cli, Commands, EditArgs, EditOptsGroup, FilterOpt, InitArgs, ListArgs, ListOpts,
    NewArgs, RemoveArgs,
};
use boil::cli::command;

fn parse_from(items: &[&str]) -> Result<Cli, String> {
    let m = command().try_get_matches_from(items).map_err(|e| e.to_string())?;
    Cli::from_matches(&m)
}

fn create_new_args() -> NewArgs {
    let description = None;
    let tags = Some(vec!["Fun".to_string(), "Util".to_string()]);
    let prog_type: Option<String> = Some("Python".to_string());
    let name = Some(String::from("test"));
    let path: Option<String> = None;
    let temp = false;
    let project = true;

    NewArgs {
        description,
        tags,
        prog_type,
        name,
        temp,
        path,
        project,
    }
}

#[test]
fn args_test_args() {
    let args = parse_from(&["prog", "new", "-G", "one,two,three", "-t"]).unwrap();
    println!("{args:?}");
    assert!(true)
}

#[test]
fn main_test_args() {
    let args = parse_from(&["test", "--debug", "new", "something"]).unwrap();
    println!("{:?}", args);

    assert!(args.debug);
}

#[test]
fn test_list() {
    let args = parse_from(&[
        "prog",
        "list",
        "--format=n,p,d",
        "--sort=n,1,p",
        "--filter=my-program:eq:name,val2:in:d",
    ])
    .unwrap();
    let format = Some(vec!["n".to_string(), "p".to_string(), "d".to_string()]);
    let sort = Some(vec!["n".to_string(), "1".to_string(), "p".to_string()]);
    let filter: Option<Vec<FilterOpt>> = Some(vec![
        FilterOpt(ListOpts::Name, 0, String::from("my-program")),
        FilterOpt(ListOpts::Description, 2, String::from("val2")),
    ]);

    assert_eq!(
        args.command,
        Commands::List(ListArgs {
            format,
            sort,
            filter,
            temp: false
        })
    )
}

#[test]
fn test_add() {
    let args = parse_from(&[
        "prog",
        "add",
        "-d",
        "Fun little program",
        "--tags=Fun,Util",
        "test",
        "/tmp/something",
    ])
    .unwrap();
    let description = Some(String::from("Fun little program"));
    let tags = Some(vec!["Fun".to_string(), "Util".to_string()]);
    let prog_type: Option<String> = None;
    let name = String::from("test");
    let path = String::from("/tmp/something");

    assert_eq!(
        args.command,
        Commands::Add(AddArgs {
            description,
            tags,
            prog_type,
            name,
            path
        })
    )
}

#[test]
fn test_new() {
    let args = parse_from(&[
        "prog", "new", "-D", "-G", "Fun,Util", "-T", "Python", "test",
    ])
    .unwrap();
    let new_args = create_new_args();
    assert_eq!(args.command, Commands::New(new_args));
}

#[test]
fn test_new_no_name() {
    let args = parse_from(&["prog", "new", "-D", "-G", "Fun,Util", "-T", "Python", "-t"])
        .unwrap();
    let mut new_args = create_new_args();
    new_args.temp = true;
    new_args.name = None;
    assert_eq!(args.command, Commands::New(new_args));
}

#[test]
#[should_panic]
fn test_new_panic() {
    // Not a temporary program, yet no name
    parse_from(&["prog", "new", "-D", "-G", "Fun,Util", "-T", "Python"]).unwrap();
}

#[test]
fn test_edit() {
    let args = parse_from(&[
        "prog",
        "edit",
        "-d",
        "Fun little program",
        "--add-tags=Fun,Util",
        "-R",
        "Boring",
        "test",
    ])
    .unwrap();
    let description = Some(String::from("Fun little program"));
    let tags = Some(vec!["Fun".to_string(), "Util".to_string()]);
    let rm_tags = Some(vec!["Boring".to_string()]);
    let prog_type: Option<String> = None;
    let name = String::from("test");

    assert_eq!(
        args.command,
        Commands::Edit(EditArgs {
            name,
            eopts: EditOptsGroup {
                description,
                tags,
                rm_tags,
                prog_type
            }
        })
    )
}

#[test]
#[should_panic]
fn test_edit_panic() {
    // At least one change must be given to edit
    parse_from(&["prog", "edit", "test"]).unwrap();
}

#[test]
fn cli_remove_and_init() {
    let args = parse_from(&["prog", "remove", "-f", "old"]).unwrap();
    assert_eq!(
        args.command,
        Commands::Remove(RemoveArgs { force: true, name: "old".to_string() })
    );
    assert!(!args.debug);
    let args = parse_from(&["prog", "init", "--path", "/tmp/dev"]).unwrap();
    assert_eq!(
        args.command,
        Commands::Init(InitArgs { force: false, path: Some("/tmp/dev".to_string()) })
    );
}

#[test]
fn cli_list_defaults() {
    let args = parse_from(&["prog", "list"]).unwrap();
    let format = Some(
        ["name", "project", "type", "description", "tags"].iter().map(|s| s.to_string()).collect(),
    );
    assert_eq!(
        args.command,
        Commands::List(ListArgs { format, sort: None, filter: None, temp: false })
    );
}

#[test]
fn cli_rejects() {
    assert!(parse_from(&["prog"]).is_err());
    assert!(parse_from(&["prog", "--debug"]).is_err());
    assert!(parse_from(&["prog", "frobnicate"]).is_err());
    assert!(parse_from(&["prog", "add", "only-name"]).is_err());
    assert!(parse_from(&["prog", "list", "--sort", "n"]).is_err());
    assert!(parse_from(&["prog", "list", "--filter=a:b:c:d"]).is_err());
    assert!(parse_from(&["prog", "remove", "-x", "old"]).is_err());
}
