use boil::bytes::split_alternatives;
use boil::args::{parse_filter, ListArgs, parse_sort, FilterOpt, ListOpts, SortOpt};
use boil::error::BoilError;

#[test]
fn test_parse_filter() {
    assert_eq!(
        Ok(FilterOpt(ListOpts::Project, 1, String::from("false"))),
        parse_filter("false:neq:P")
    );
    assert_eq!(
        Ok(FilterOpt(ListOpts::Tags, 4, String::from("some+else"))),
        parse_filter("some+else:in:T")
    );
    assert_eq!(
        Ok(FilterOpt(ListOpts::Path, 3, String::from("some"))),
        parse_filter("some:nin:p")
    );
    assert_eq!(
        Err(String::from(
            "Input must be in format value:expression:field"
        )),
        parse_filter("too:many:args:in:this")
    );
    assert_eq!(
        Err(format!(
            "'{}' is not a valid option for 'expression'",
            String::from("xeq")
        )),
        parse_filter("some:xeq:n")
    );
    assert_eq!(
        Err(format!(
            "'{}' is not a valid option for 'field'",
            String::from("z")
        )),
        parse_filter("some:eq:z")
    )
}

#[test]
fn filter_name_eq_and_four_segments() {
    assert_eq!(
        parse_filter("x:eq:name"),
        Ok(FilterOpt(ListOpts::Name, 0, String::from("x")))
    );
    assert_eq!(
        parse_filter("x:y:z:w"),
        Err(String::from("Input must be in format value:expression:field"))
    );
    assert_eq!(
        parse_filter("x:eq"),
        Err(String::from("Input must be in format value:expression:field"))
    );
}

#[test]
fn filter_in_with_and_without_plus() {
    assert_eq!(
        parse_filter("a+b:in:tags"),
        Ok(FilterOpt(ListOpts::Tags, 4, String::from("a+b")))
    );
    assert_eq!(
        parse_filter("a:in:tags"),
        Ok(FilterOpt(ListOpts::Tags, 2, String::from("a")))
    );
    assert_eq!(
        parse_filter("a+b:notin:tag"),
        Ok(FilterOpt(ListOpts::Tags, 5, String::from("a+b")))
    );
}

#[test]
fn filter_aliases() {
    assert_eq!(parse_filter("v:equals:description").unwrap().0, ListOpts::Description);
    assert_eq!(parse_filter("v:ne:t").unwrap(), FilterOpt(ListOpts::Type, 1, "v".to_string()));
    assert_eq!(parse_filter("v:nequals:project").unwrap().1, 1);
    assert_eq!(parse_filter("v:eq:path").unwrap().0, ListOpts::Path);
}

#[test]
fn sort_terms_with_and_without_orders() {
    let toks: Vec<String> = ["P", "1", "t", "name", "0", "tag", "desc"]
        .iter()
        .map(|s| s.to_string())
        .collect();
    assert_eq!(
        parse_sort(&toks),
        Ok(vec![
            SortOpt(ListOpts::Project, 1),
            SortOpt(ListOpts::Type, 0),
            SortOpt(ListOpts::Name, 0),
            SortOpt(ListOpts::Tags, 1),
        ])
    );
    let toks: Vec<String> = ["n", "asc", "zz"].iter().map(|s| s.to_string()).collect();
    assert_eq!(parse_sort(&toks), Err(BoilError::SortFormat("zz".to_string())));
    assert_eq!(parse_sort(&Vec::new()), Ok(vec![]));
}

#[test]
fn plus_splits_alternatives() {
    assert_eq!(split_alternatives(&b"a+b".to_vec()), vec![b"a".to_vec(), b"b".to_vec()]);
    assert_eq!(split_alternatives(&b"a".to_vec()), vec![b"a".to_vec()]);
    assert_eq!(split_alternatives(&b"+".to_vec()), vec![Vec::new(), Vec::new()]);
}

#[test]
fn list_values_are_parsed() {
    let strings = |v: &[&str]| v.iter().map(|s| s.to_string()).collect::<Vec<String>>();
    let l = ListArgs::from_values(None, Some(strings(&["n", "1"])), Some(strings(&["x:in:tags"])), true)
        .unwrap();
    assert_eq!(l.format, Some(strings(&["name", "project", "type", "description", "tags"])));
    assert_eq!(l.sort, Some(strings(&["n", "1"])));
    assert_eq!(l.filter, Some(vec![FilterOpt(ListOpts::Tags, 2, "x".to_string())]));
    assert!(l.temp);
    let e = ListArgs::from_values(None, None, Some(strings(&["a:eq:n", "b:zz:n", "c:eq:q"])), false);
    assert_eq!(e, Err("'zz' is not a valid option for 'expression'".to_string()));
}
