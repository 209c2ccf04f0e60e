use boil::args::{EditArgs, EditOptsGroup};
use boil::boil::{without_tags, Boil};
use boil::config::{Config, DefCfg, ProgType, Program};
use boil::error::BoilError;

fn prog(name: &str) -> Program {
    Program {
        name: name.to_string(),
        project: false,
        path: format!("/dev/{}", name),
        prog_type: ProgType::Python,
        description: Some("Fun program".to_string()),
        tags: Some(vec!["util".to_string(), "Other".to_string()]),
    }
}

fn config() -> Config {
    let mut c = Config::new(DefCfg { proj_path: "/dev".to_string() }, Program::default());
    for i in 0..3 {
        let name = format!("test{}", i);
        c.insert(name.clone(), prog(&name));
    }
    c
}

#[test]
fn prog_type_names() {
    assert_eq!(ProgType::from_string("PYTHON"), ProgType::Python);
    assert_eq!(ProgType::from_string("Rs"), ProgType::Rust);
    assert_eq!(ProgType::from_string("JavaScript"), ProgType::JavaScript);
    assert_eq!(ProgType::from_string("ruby"), ProgType::Bash);
    assert_eq!(ProgType::from_lowercase("js"), ProgType::JavaScript);
    assert_eq!(ProgType::from_lowercase("PY"), ProgType::Bash);
    assert_eq!(ProgType::new(), ProgType::Bash);
    assert_eq!(ProgType::Python.ext(), "py");
    assert_eq!(ProgType::Bash.ext(), "sh");
    assert_eq!(ProgType::Rust.label(), "Rust");
}

#[test]
fn store_insert_get_remove() {
    let mut c = config();
    assert_eq!(c.len(), 3);
    assert!(c.contains("test1"));
    assert!(!c.contains("test9"));
    assert_eq!(c.get("test2".to_string()).unwrap().path, "/dev/test2");
    let mut replaced = prog("test1");
    replaced.path = "/elsewhere".to_string();
    c.insert("test1".to_string(), replaced);
    assert_eq!(c.len(), 3);
    assert_eq!(c.get("test1".to_string()).unwrap().path, "/elsewhere");
    assert_eq!(c.remove("test1".to_string()), Ok(()));
    assert!(c.get("test1".to_string()).is_none());
    assert_eq!(c.remove("test1".to_string()), Err(BoilError::NotFound("test1".to_string())));
    assert_eq!(c.len(), 2);
    assert_eq!(c.values().len(), 2);
    assert_eq!(c.iter().count(), 2);
    c.get_mut("test0").project = true;
    assert!(c.get("test0".to_string()).unwrap().project);
    c.set_proj_path(&"/new".to_string());
    assert_eq!(c.defaults.proj_path, "/new");
}

#[test]
fn new_names_count_programs() {
    let b = Boil::new(config(), "/cfg.toml".to_string());
    assert_eq!(b.get_new_name(), "boil3");
    let mut big = Config::new(DefCfg { proj_path: String::new() }, Program::default());
    for i in 0..12 {
        big.insert(format!("p{}", i), prog("p"));
    }
    assert_eq!(Boil::new(big, String::new()).get_new_name(), "boil12");
}

#[test]
fn edit_changes_entry() {
    let mut b = Boil::new(config(), "/cfg.toml".to_string());
    let before = b.config.get("test2".to_string()).unwrap().clone();
    let args = EditArgs {
        name: String::from("test2"),
        eopts: EditOptsGroup {
            description: Some(String::from("Not fun program")),
            tags: Some(vec!["test".to_string()]),
            rm_tags: Some(vec!["util".to_string()]),
            prog_type: None,
        },
    };
    b.edit(args).unwrap();
    let after = b.config.get("test2".to_string()).unwrap().clone();
    assert_ne!(before.description, after.description);
    assert_eq!(after.tags, Some(vec!["Other".to_string(), "test".to_string()]));
    assert_eq!(before.prog_type, after.prog_type);

    let args = EditArgs {
        name: String::from("test0"),
        eopts: EditOptsGroup { description: None, tags: None, rm_tags: None, prog_type: Some("RUST".to_string()) },
    };
    b.edit(args).unwrap();
    assert_eq!(b.config.get("test0".to_string()).unwrap().prog_type, ProgType::Rust);

    let missing = EditArgs {
        name: String::from("nope"),
        eopts: EditOptsGroup { description: Some("x".to_string()), tags: None, rm_tags: None, prog_type: None },
    };
    assert_eq!(b.edit(missing), Err(BoilError::NotFound("nope".to_string())));
}

#[test]
fn removing_tags() {
    let tags = vec!["a".to_string(), "b".to_string(), "a".to_string(), "c".to_string()];
    assert_eq!(without_tags(&tags, &vec!["a".to_string()]), vec!["b".to_string(), "c".to_string()]);
    assert_eq!(without_tags(&tags, &Vec::new()), tags);
}
