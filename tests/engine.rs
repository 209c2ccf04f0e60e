use boil::args::{FilterOpt, ListArgs, ListOpts, SortOpt};
use boil::config::{Field, ProgType, Program};
use boil::error::BoilError;
use boil::table::{check_filter, filter_programs, get_sort_key, known_operators, run, sort_programs, TableOpts};

fn prog(name: &str, project: bool) -> Program {
    Program {
        name: name.to_string(),
        project,
        path: format!("/home/me/dev/{}", name),
        prog_type: ProgType::Bash,
        description: None,
        tags: None,
    }
}

fn names(ps: &[Program]) -> Vec<String> {
    ps.iter().map(|p| p.name.clone()).collect()
}

fn strings(items: &[&str]) -> Vec<String> {
    items.iter().map(|s| s.to_string()).collect()
}

#[test]
fn encoding_of_each_field() {
    let mut p = prog("tool", true);
    p.prog_type = ProgType::JavaScript;
    p.description = Some("Fun".to_string());
    p.tags = Some(strings(&["ab", "cd"]));
    assert_eq!(p.vals_to_bytes(&ListOpts::Name), b"tool".to_vec());
    assert_eq!(p.vals_to_bytes(&ListOpts::Path), b"/home/me/dev/tool".to_vec());
    assert_eq!(p.vals_to_bytes(&ListOpts::Project), vec![1u8]);
    assert_eq!(p.vals_to_bytes(&ListOpts::Type), b"JavaScript".to_vec());
    assert_eq!(p.vals_to_bytes(&ListOpts::Description), b"Fun".to_vec());
    assert_eq!(p.vals_to_bytes(&ListOpts::Tags), b"abcd".to_vec());
    let q = prog("x", false);
    assert_eq!(q.vals_to_bytes(&ListOpts::Project), vec![0u8]);
    assert_eq!(q.vals_to_bytes(&ListOpts::Description), Vec::<u8>::new());
    assert_eq!(q.vals_to_bytes(&ListOpts::Tags), Vec::<u8>::new());
    assert_eq!(q.vals_to_bytes(&ListOpts::Type), b"Bash".to_vec());
}

#[test]
fn encoding_twice_is_equal() {
    let mut p = prog("Ünï", false);
    p.tags = Some(strings(&["x", "yz"]));
    for f in [
        ListOpts::Name,
        ListOpts::Path,
        ListOpts::Project,
        ListOpts::Type,
        ListOpts::Description,
        ListOpts::Tags,
    ] {
        assert_eq!(p.vals_to_bytes(&f), p.vals_to_bytes(&f));
    }
    assert_eq!(p.vals_to_bytes(&ListOpts::Name), "Ünï".as_bytes().to_vec());
}

#[test]
fn typed_values() {
    let mut p = prog("tool", true);
    p.tags = Some(strings(&["a"]));
    match p.typed(&ListOpts::Project) {
        Field::Project(v) => assert!(v),
        other => panic!("{:?}", other),
    }
    match p.typed(&ListOpts::Tags) {
        Field::Tags(Some(t)) => assert_eq!(t, strings(&["a"])),
        other => panic!("{:?}", other),
    }
}

#[test]
fn case_sensitivity() {
    let mut p = prog("x", false);
    p.description = Some("foo bar".to_string());
    let sensitive = vec![FilterOpt(ListOpts::Description, 0, "*Foo".to_string())];
    assert!(!check_filter(&p, &sensitive));
    let sensitive_in = vec![FilterOpt(ListOpts::Description, 2, "*Foo".to_string())];
    assert!(!check_filter(&p, &sensitive_in));
    let insensitive_in = vec![FilterOpt(ListOpts::Description, 2, "Foo".to_string())];
    assert!(check_filter(&p, &insensitive_in));
    let insensitive_eq = vec![FilterOpt(ListOpts::Description, 0, "FOO BAR".to_string())];
    assert!(check_filter(&p, &insensitive_eq));
    let sensitive_ok = vec![FilterOpt(ListOpts::Description, 2, "*foo".to_string())];
    assert!(check_filter(&p, &sensitive_ok));
}

#[test]
fn project_flag_words() {
    let yes = prog("a", true);
    let no = prog("b", false);
    for word in ["true", "True", "1"] {
        let f = vec![FilterOpt(ListOpts::Project, 0, word.to_string())];
        assert!(check_filter(&yes, &f));
        assert!(!check_filter(&no, &f));
    }
    for word in ["false", "False", "0"] {
        let f = vec![FilterOpt(ListOpts::Project, 0, word.to_string())];
        assert!(!check_filter(&yes, &f));
        assert!(check_filter(&no, &f));
    }
    let f = vec![FilterOpt(ListOpts::Project, 0, "yes".to_string())];
    assert!(!check_filter(&yes, &f));
    let f = vec![FilterOpt(ListOpts::Project, 1, "false".to_string())];
    assert!(check_filter(&yes, &f));
}

#[test]
fn operators_on_tags() {
    let mut p = prog("x", false);
    p.tags = Some(strings(&["ab", "cd"]));
    let check = |op: u8, lit: &str| check_filter(&p, &vec![FilterOpt(ListOpts::Tags, op, lit.to_string())]);
    assert!(check(2, "bc"));
    assert!(!check(3, "bc"));
    assert!(check(0, "abcd"));
    assert!(check(1, "ab"));
    assert!(check(4, "zz+cd"));
    assert!(!check(4, "zz+yy"));
    assert!(check(5, "zz+yy"));
    assert!(!check(5, "zz+ab"));
    assert!(check(2, ""));
    assert!(!check(2, "abcde"));
}

#[test]
fn empty_filter_accepts_all() {
    assert!(check_filter(&prog("x", true), &Vec::new()));
    assert!(known_operators(&vec![FilterOpt(ListOpts::Name, 5, "a".to_string())]));
    assert!(!known_operators(&vec![FilterOpt(ListOpts::Name, 6, "a".to_string())]));
}

#[test]
fn all_predicates_must_hold() {
    let p = prog("alpha", true);
    let both = vec![
        FilterOpt(ListOpts::Name, 2, "ALP".to_string()),
        FilterOpt(ListOpts::Project, 0, "1".to_string()),
    ];
    assert!(check_filter(&p, &both));
    let one_fails = vec![
        FilterOpt(ListOpts::Name, 2, "alp".to_string()),
        FilterOpt(ListOpts::Project, 0, "0".to_string()),
    ];
    assert!(!check_filter(&p, &one_fails));
}

#[test]
fn sort_key_bytes() {
    let p = prog("b", true);
    let key = get_sort_key(&p, &vec![SortOpt(ListOpts::Name, 0), SortOpt(ListOpts::Name, 1), SortOpt(ListOpts::Project, 1)]);
    assert_eq!(key, vec![vec![98u8], vec![255 - 98], vec![254]]);
}

#[test]
fn sort_by_name_both_ways() {
    let ps = vec![prog("b", false), prog("a", false), prog("c", false)];
    let up = sort_programs(ps.clone(), &vec![SortOpt(ListOpts::Name, 0)]);
    assert_eq!(names(&up), strings(&["a", "b", "c"]));
    let down = sort_programs(ps, &vec![SortOpt(ListOpts::Name, 1)]);
    assert_eq!(names(&down), strings(&["c", "b", "a"]));
}

#[test]
fn descending_above_127() {
    let ps = vec![prog("a", false), prog("é", false), prog("z", false)];
    let down = sort_programs(ps, &vec![SortOpt(ListOpts::Name, 1)]);
    assert_eq!(names(&down), strings(&["é", "z", "a"]));
}

#[test]
fn multi_key_sort() {
    let ps = vec![prog("b", false), prog("a", true), prog("a", false)];
    let out = sort_programs(ps, &vec![SortOpt(ListOpts::Project, 0), SortOpt(ListOpts::Name, 0)]);
    let got: Vec<(bool, String)> = out.iter().map(|p| (p.project, p.name.clone())).collect();
    assert_eq!(
        got,
        vec![(false, "a".to_string()), (false, "b".to_string()), (true, "a".to_string())]
    );
}

#[test]
fn equal_keys_keep_input_order() {
    let mut first = prog("same", false);
    first.path = "/one".to_string();
    let mut second = prog("same", false);
    second.path = "/two".to_string();
    let ps = vec![prog("zed", false), first, prog("abc", false), second];
    let out = sort_programs(ps, &vec![SortOpt(ListOpts::Name, 0)]);
    let paths: Vec<String> = out.iter().map(|p| p.path.clone()).collect();
    assert_eq!(paths[1], "/one");
    assert_eq!(paths[2], "/two");
    let none = sort_programs(vec![prog("c", false), prog("a", false)], &Vec::new());
    assert_eq!(names(&none), strings(&["c", "a"]));
}

#[test]
fn empty_query() {
    let out = run(Vec::new(), &vec![FilterOpt(ListOpts::Name, 0, "x".to_string())], &vec![SortOpt(ListOpts::Name, 0)]);
    assert!(out.is_empty());
    assert!(filter_programs(Vec::new(), &Vec::new()).is_empty());
}

#[test]
fn query_filters_then_sorts() {
    let ps = vec![prog("pear", false), prog("apple", true), prog("plum", false), prog("fig", false)];
    let out = run(ps, &vec![FilterOpt(ListOpts::Name, 2, "P".to_string())], &vec![SortOpt(ListOpts::Name, 1)]);
    assert_eq!(names(&out), strings(&["plum", "pear", "apple"]));
}

#[test]
fn table_options() {
    let args = ListArgs {
        format: Some(strings(&["n", "P", "tags"])),
        sort: Some(strings(&["name", "desc", "p"])),
        filter: Some(vec![FilterOpt(ListOpts::Name, 3, "z".to_string())]),
        temp: false,
    };
    let t = TableOpts::from_args(args).unwrap();
    assert_eq!(t.list_args, vec![ListOpts::Name, ListOpts::Project, ListOpts::Tags]);
    assert_eq!(t.sort_arg, Some(vec![SortOpt(ListOpts::Name, 1), SortOpt(ListOpts::Path, 0)]));
    let out = t.entries(vec![prog("a", false), prog("zz", false), prog("b", false)]);
    assert_eq!(names(&out), strings(&["b", "a"]));

    let bad_format = ListArgs { format: Some(strings(&["n", "bogus"])), sort: Some(strings(&["nope"])), filter: None, temp: false };
    assert_eq!(TableOpts::from_args(bad_format).err(), Some(BoilError::ListFormat("bogus".to_string())));
    let bad_sort = ListArgs { format: Some(strings(&["n"])), sort: Some(strings(&["n", "1", "nope"])), filter: None, temp: false };
    assert_eq!(TableOpts::from_args(bad_sort).err(), Some(BoilError::SortFormat("nope".to_string())));
    let plain = ListArgs { format: Some(Vec::new()), sort: None, filter: None, temp: true };
    let t = TableOpts::from_args(plain).unwrap();
    assert!(t.sort_arg.is_none());
    let out = t.entries(vec![prog("b", false), prog("a", false)]);
    assert_eq!(names(&out), strings(&["b", "a"]));
}
