use boil::args::{AddArgs, NewArgs};
use boil::boil::{Boil, PathKind};
use boil::config::{Config, DefCfg, ProgType, Program};
use boil::error::BoilError;

fn boil() -> Boil {
    let mut c = Config::new(DefCfg { proj_path: "/home/me/dev".to_string() }, Program::default());
    for name in ["one", "two", "three"] {
        let p = Program { name: name.to_string(), ..Program::default() };
        c.insert(name.to_string(), p);
    }
    Boil::new(c, "/home/me/.boil/config.toml".to_string())
}

fn new_args(name: Option<&str>, project: bool, temp: bool, path: Option<&str>, ty: Option<&str>) -> NewArgs {
    NewArgs {
        temp,
        project,
        path: path.map(|p| p.to_string()),
        prog_type: ty.map(|t| t.to_string()),
        description: Some("Fun program".to_string()),
        tags: Some(vec!["Other".to_string()]),
        name: name.map(|n| n.to_string()),
    }
}

#[test]
fn new_script_under_default_place() {
    let b = boil();
    let p = b.parse_new(&new_args(Some("tool"), false, false, None, Some("Python")), &"/tmp".to_string()).unwrap();
    assert_eq!(p.path, "/home/me/dev/tool.py");
    assert_eq!(p.prog_type, ProgType::Python);
    assert_eq!(p.description, Some("Fun program".to_string()));
    assert_eq!(p.tags, Some(vec!["Other".to_string()]));
    assert!(!p.project);
}

#[test]
fn new_project_paths() {
    let b = boil();
    let tmp = "/tmp".to_string();
    let p = b.parse_new(&new_args(Some("proj"), true, false, None, Some("Bash")), &tmp).unwrap();
    assert_eq!(p.path, "/home/me/dev/proj");
    let p = b.parse_new(&new_args(Some("proj"), true, true, None, None), &tmp).unwrap();
    assert_eq!(p.path, "/tmp/proj");
    let p = b.parse_new(&new_args(Some("proj"), true, false, Some("/abs/place"), None), &tmp).unwrap();
    assert_eq!(p.path, "/abs/place");
    let p = b.parse_new(&new_args(Some("proj"), true, false, Some("rel/place"), None), &tmp).unwrap();
    assert_eq!(p.path, "/home/me/dev/rel/place");
    let p = b.parse_new(&new_args(Some("s"), false, true, None, Some("js")), &tmp).unwrap();
    assert_eq!(p.path, "/tmp/s.js");
}

#[test]
fn new_program_errors_and_default_name() {
    let b = boil();
    let tmp = "/tmp".to_string();
    assert_eq!(
        b.parse_new(&new_args(Some("two"), false, false, None, None), &tmp).err(),
        Some(BoilError::NameExists("two".to_string()))
    );
    assert_eq!(
        b.parse_new(&new_args(Some("p"), true, false, Some("/x/p.txt"), None), &tmp).err(),
        Some(BoilError::InvalidPath("/x/p.txt".to_string()))
    );
    let p = b.parse_new(&new_args(None, false, true, None, None), &tmp).unwrap();
    assert_eq!(p.name, "boil3");
    assert_eq!(p.path, "/tmp/boil3.sh");
}

#[test]
fn keeping_new_programs() {
    let mut b = boil();
    let p = Program { name: "fresh".to_string(), path: "/tmp/fresh.sh".to_string(), ..Program::default() };
    b.keep_new(p.clone(), true);
    assert_eq!(b.config.temp.path, "/tmp/fresh.sh");
    assert!(!b.config.contains("fresh"));
    b.keep_new(p, false);
    assert!(b.config.contains("fresh"));
}

#[test]
fn adding_existing_programs() {
    let mut b = boil();
    let args = |name: &str| AddArgs {
        description: None,
        tags: Some(vec!["Other".to_string()]),
        prog_type: Some("Rust".to_string()),
        name: name.to_string(),
        path: "/home/me/dev/test4".to_string(),
    };
    assert_eq!(b.add_existing(args("test4"), PathKind::Dir), Ok(()));
    let e = b.config.get("test4".to_string()).unwrap();
    assert!(e.project);
    assert_eq!(e.prog_type, ProgType::Rust);
    assert_eq!(e.path, "/home/me/dev/test4");
    assert_eq!(b.add_existing(args("test4"), PathKind::File), Err(BoilError::NameExists("test4".to_string())));
    assert_eq!(
        b.add_existing(args("test5"), PathKind::Other),
        Err(BoilError::InvalidPath("/home/me/dev/test4".to_string()))
    );
    assert_eq!(b.add_existing(args("test6"), PathKind::File), Ok(()));
    assert!(!b.config.get("test6".to_string()).unwrap().project);
}
