use vstd::prelude::*;

use crate::bytes::split_on;
use crate::error::BoilError;
use crate::text::{has_char, split_str, str_is, string_views};

verus! {

/// The fields of a program record that can be shown, filtered and sorted on.
#[derive(PartialEq, Eq, Hash, Clone, Copy, Debug, Structural)]
pub enum ListOpts {
    Name,
    Path,
    Project,
    Type,
    Description,
    Tags,
}

/// Operator code: the field equals the value.
pub const EQ: u8 = 0;
/// Operator code: the field differs from the value.
pub const NE: u8 = 1;
/// Operator code: the value is a contiguous run of the field.
pub const CONTAINS: u8 = 2;
/// Operator code: the value is not a contiguous run of the field.
pub const NOT_CONTAINS: u8 = 3;
/// Operator code: some `+`-separated piece of the value is a run of the field.
pub const CONTAINS_ANY: u8 = 4;
/// Operator code: no `+`-separated piece of the value is a run of the field.
pub const NOT_CONTAINS_ANY: u8 = 5;

/// Sort order code: ascending.
pub const ASCENDING: u8 = 0;
/// Sort order code: descending.
pub const DESCENDING: u8 = 1;

/// One sort term: a field and its order (`ASCENDING` or `DESCENDING`).
#[derive(Clone, Copy, Debug, PartialEq, Eq, Structural)]
pub struct SortOpt(pub ListOpts, pub u8);

/// One filter predicate: a field, an operator code and the literal value as written.
#[derive(Clone, Debug, PartialEq)]
pub struct FilterOpt(pub ListOpts, pub u8, pub String);

/// The field that a token names, by its short or long alias.
pub open spec fn field_of(tok: Seq<char>) -> Option<ListOpts> {
    if tok == "n"@ || tok == "name"@ {
        Some(ListOpts::Name)
    } else if tok == "p"@ || tok == "path"@ {
        Some(ListOpts::Path)
    } else if tok == "P"@ || tok == "project"@ {
        Some(ListOpts::Project)
    } else if tok == "t"@ || tok == "type"@ {
        Some(ListOpts::Type)
    } else if tok == "d"@ || tok == "description"@ {
        Some(ListOpts::Description)
    } else if tok == "T"@ || tok == "tag"@ || tok == "tags"@ {
        Some(ListOpts::Tags)
    } else {
        None
    }
}

/// The operator code that an expression token names; `multi` tells whether the
/// value holds a `+`, which turns the containment operators into their any-of forms.
pub open spec fn expr_code(tok: Seq<char>, multi: bool) -> Option<u8> {
    if tok == "eq"@ || tok == "equals"@ {
        Some(EQ)
    } else if tok == "ne"@ || tok == "nequals"@ || tok == "neq"@ {
        Some(NE)
    } else if tok == "in"@ {
        Some(if multi { CONTAINS_ANY } else { CONTAINS })
    } else if tok == "nin"@ || tok == "notin"@ {
        Some(if multi { NOT_CONTAINS_ANY } else { NOT_CONTAINS })
    } else {
        None
    }
}

/// Why a `value:expression:field` triple is rejected, if it is.
pub open spec fn filter_error(s: Seq<char>) -> Option<Seq<char>> {
    let parts = split_on(s, ':');
    if parts.len() != 3 {
        Some("Input must be in format value:expression:field"@)
    } else if expr_code(parts[1], parts[0].contains('+')) is None {
        Some("'"@ + parts[1] + "' is not a valid option for 'expression'"@)
    } else if field_of(parts[2]) is None {
        Some("'"@ + parts[2] + "' is not a valid option for 'field'"@)
    } else {
        None
    }
}

/// The triple `s` is accepted and reads as the predicate `f`.
pub open spec fn parsed_as(s: Seq<char>, f: FilterOpt) -> bool {
    let parts = split_on(s, ':');
    &&& filter_error(s) is None
    &&& Some(f.0) == field_of(parts[2])
    &&& Some(f.1) == expr_code(parts[1], parts[0].contains('+'))
    &&& f.2@ == parts[0]
}

/// The field that `tok` names, if any.
pub fn parse_field(tok: &str) -> (r: Option<ListOpts>)
    ensures
        r == field_of(tok@),
{
    if str_is(tok, "n") || str_is(tok, "name") {
        Some(ListOpts::Name)
    } else if str_is(tok, "p") || str_is(tok, "path") {
        Some(ListOpts::Path)
    } else if str_is(tok, "P") || str_is(tok, "project") {
        Some(ListOpts::Project)
    } else if str_is(tok, "t") || str_is(tok, "type") {
        Some(ListOpts::Type)
    } else if str_is(tok, "d") || str_is(tok, "description") {
        Some(ListOpts::Description)
    } else if str_is(tok, "T") || str_is(tok, "tag") || str_is(tok, "tags") {
        Some(ListOpts::Tags)
    } else {
        None
    }
}

fn parse_expr(tok: &str, multi: bool) -> (r: Option<u8>)
    ensures
        r == expr_code(tok@, multi),
{
    if str_is(tok, "eq") || str_is(tok, "equals") {
        Some(EQ)
    } else if str_is(tok, "ne") || str_is(tok, "nequals") || str_is(tok, "neq") {
        Some(NE)
    } else if str_is(tok, "in") {
        Some(if multi { CONTAINS_ANY } else { CONTAINS })
    } else if str_is(tok, "nin") || str_is(tok, "notin") {
        Some(if multi { NOT_CONTAINS_ANY } else { NOT_CONTAINS })
    } else {
        None
    }
}

/// Parses one `value:expression:field` triple into a filter predicate, or says why
/// it cannot be one.
pub fn parse_filter(inp: &str) -> (r: Result<FilterOpt, String>)
    ensures
        match r {
            Ok(f) => parsed_as(inp@, f),
            Err(e) => filter_error(inp@) == Some(e@),
        },
{
    let parts = split_str(inp, ':');
    proof {
        assert(parts@.len() == split_on(inp@, ':').len());
    }
    if parts.len() != 3 {
        return Err(String::from_str("Input must be in format value:expression:field"));
    }
    proof {
        assert(parts@[0]@ == split_on(inp@, ':')[0]);
        assert(parts@[1]@ == split_on(inp@, ':')[1]);
        assert(parts@[2]@ == split_on(inp@, ':')[2]);
    }
    let val = parts[0].as_str();
    let exp = parts[1].as_str();
    let fld = parts[2].as_str();
    let code = match parse_expr(exp, has_char(val, '+')) {
        Some(c) => c,
        None => {
            let mut msg = String::from_str("'");
            msg.append(exp);
            msg.append("' is not a valid option for 'expression'");
            return Err(msg);
        },
    };
    let field = match parse_field(fld) {
        Some(f) => f,
        None => {
            let mut msg = String::from_str("'");
            msg.append(fld);
            msg.append("' is not a valid option for 'field'");
            return Err(msg);
        },
    };
    Ok(FilterOpt(field, code, String::from_str(val)))
}

/// Each triple of `tokens` is accepted and reads as the predicate at its place in `fs`.
pub open spec fn all_parsed_as(tokens: Seq<String>, fs: Seq<FilterOpt>) -> bool {
    fs.len() == tokens.len() && forall|i: int|
        0 <= i < tokens.len() ==> parsed_as(#[trigger] tokens[i]@, fs[i])
}

/// `e` is the error of the first triple of `tokens` that is rejected.
pub open spec fn first_filter_error(tokens: Seq<String>, e: Seq<char>) -> bool {
    exists|i: int|
        0 <= i < tokens.len() && filter_error(#[trigger] tokens[i]@) == Some(e) && forall|j: int|
            0 <= j < i ==> filter_error(#[trigger] tokens[j]@) is None
}

/// Parses each triple of `tokens` into a predicate, in order; the error of the first
/// triple that is rejected, if one is.
pub fn parse_filters(tokens: &Vec<String>) -> (r: Result<Vec<FilterOpt>, String>)
    ensures
        match r {
            Ok(fs) => all_parsed_as(tokens@, fs@),
            Err(e) => first_filter_error(tokens@, e@),
        },
{
    let mut out: Vec<FilterOpt> = Vec::new();
    let n = tokens.len();
    let mut i: usize = 0;
    while i < n
        invariant
            0 <= i <= n,
            n == tokens@.len(),
            out@.len() == i,
            forall|j: int| 0 <= j < i ==> parsed_as(#[trigger] tokens@[j]@, out@[j]),
        decreases n - i,
    {
        match parse_filter(tokens[i].as_str()) {
            Ok(f) => out.push(f),
            Err(e) => {
                assert forall|j: int| 0 <= j < i implies filter_error(#[trigger] tokens@[j]@) is None by {
                    assert(parsed_as(tokens@[j]@, out@[j]));
                }
                return Err(e);
            },
        }
        i = i + 1;
    }
    Ok(out)
}

/// The options of the `list` command.
#[derive(Debug, PartialEq, Clone)]
pub struct ListArgs {
    /// The fields to show, in order.
    pub format: Option<Vec<String>>,
    /// The sort terms: each field token, optionally followed by an order token.
    pub sort: Option<Vec<String>>,
    /// The filter predicates, all of which must hold.
    pub filter: Option<Vec<FilterOpt>>,
    /// Show the last temporary program instead of the list.
    pub temp: bool,
}

/// The fields that a listing shows when none are asked for.
pub open spec fn default_fields() -> Seq<Seq<char>> {
    seq!["name"@, "project"@, "type"@, "description"@, "tags"@]
}

impl ListArgs {
    /// The options of a listing from the values given on the command line: the field
    /// list (all fields when none is given), the sort tokens, the filter triples, each
    /// parsed, and the temporary flag. The error of the first rejected triple, if any.
    pub fn from_values(
        format: Option<Vec<String>>,
        sort: Option<Vec<String>>,
        filter: Option<Vec<String>>,
        temp: bool,
    ) -> (r: Result<ListArgs, String>)
        ensures
            match r {
                Ok(l) => {
                    &&& match format {
                        Some(f) => l.format == Some(f),
                        None => l.format matches Some(d) && string_views(d@) == default_fields(),
                    }
                    &&& l.sort == sort
                    &&& l.temp == temp
                    &&& match filter {
                        Some(pieces) => l.filter matches Some(fs) && all_parsed_as(pieces@, fs@),
                        None => l.filter is None,
                    }
                },
                Err(e) => filter matches Some(pieces) && first_filter_error(pieces@, e@),
            },
    {
        let filter = match filter {
            Some(pieces) => Some(parse_filters(&pieces)?),
            None => None,
        };
        let format = match format {
            Some(f) => f,
            None => {
                let mut v: Vec<String> = Vec::new();
                v.push(String::from_str("name"));
                v.push(String::from_str("project"));
                v.push(String::from_str("type"));
                v.push(String::from_str("description"));
                v.push(String::from_str("tags"));
                proof {
                    assert(string_views(v@) =~= default_fields());
                }
                v
            },
        };
        Ok(ListArgs { format: Some(format), sort, filter, temp })
    }
}

/// The sort order that a token names, if it names one.
pub open spec fn dir_of(tok: Seq<char>) -> Option<u8> {
    if tok == "0"@ || tok == "asc"@ {
        Some(ASCENDING)
    } else if tok == "1"@ || tok == "desc"@ {
        Some(DESCENDING)
    } else {
        None
    }
}

/// The sort terms that a token list spells, or the first token that names no field.
/// A field token takes the next token as its order when that one names an order, and
/// is ascending otherwise.
pub open spec fn sort_terms(toks: Seq<Seq<char>>) -> Result<Seq<SortOpt>, Seq<char>>
    decreases toks.len(),
{
    if toks.len() == 0 {
        Ok(Seq::empty())
    } else {
        match field_of(toks[0]) {
            None => Err(toks[0]),
            Some(f) => {
                if toks.len() > 1 && dir_of(toks[1]) is Some {
                    match sort_terms(toks.skip(2)) {
                        Ok(rest) => Ok(seq![SortOpt(f, dir_of(toks[1])->Some_0)] + rest),
                        Err(e) => Err(e),
                    }
                } else {
                    match sort_terms(toks.skip(1)) {
                        Ok(rest) => Ok(seq![SortOpt(f, ASCENDING)] + rest),
                        Err(e) => Err(e),
                    }
                }
            },
        }
    }
}

/// The fields that a token list names, or the first token that names no field.
pub open spec fn format_fields(toks: Seq<Seq<char>>) -> Result<Seq<ListOpts>, Seq<char>>
    decreases toks.len(),
{
    if toks.len() == 0 {
        Ok(Seq::empty())
    } else {
        match field_of(toks[0]) {
            None => Err(toks[0]),
            Some(f) => match format_fields(toks.drop_first()) {
                Ok(rest) => Ok(seq![f] + rest),
                Err(e) => Err(e),
            },
        }
    }
}

/// The sort order that `tok` names, if any.
pub fn parse_dir(tok: &str) -> (r: Option<u8>)
    ensures
        r == dir_of(tok@),
{
    if str_is(tok, "0") || str_is(tok, "asc") {
        Some(ASCENDING)
    } else if str_is(tok, "1") || str_is(tok, "desc") {
        Some(DESCENDING)
    } else {
        None
    }
}

spec fn prefixed<T>(acc: Seq<T>, r: Result<Seq<T>, Seq<char>>) -> Result<Seq<T>, Seq<char>> {
    match r {
        Ok(rest) => Ok(acc + rest),
        Err(e) => Err(e),
    }
}

/// Parses a flat list of sort tokens into sort terms; a token where a field is due
/// and that names none is the error.
pub fn parse_sort(tokens: &Vec<String>) -> (r: Result<Vec<SortOpt>, BoilError>)
    ensures
        match (r, sort_terms(string_views(tokens@))) {
            (Ok(t), Ok(spec)) => t@ == spec,
            (Err(BoilError::SortFormat(s)), Err(tok)) => s@ == tok,
            _ => false,
        },
{
    let ghost toks = string_views(tokens@);
    let n = tokens.len();
    let mut acc: Vec<SortOpt> = Vec::new();
    let mut i: usize = 0;
    proof {
        assert(toks.skip(0) =~= toks);
        assert(acc@ + Seq::<SortOpt>::empty() =~= acc@);
        match sort_terms(toks) {
            Ok(t) => assert(acc@ + t =~= t),
            Err(_) => {},
        }
    }
    while i < n
        invariant
            0 <= i <= n,
            n == tokens@.len(),
            toks == string_views(tokens@),
            sort_terms(toks) == prefixed(acc@, sort_terms(toks.skip(i as int))),
        decreases n - i,
    {
        let ghost rest = toks.skip(i as int);
        proof {
            assert(rest[0] == tokens@[i as int]@);
        }
        match parse_field(tokens[i].as_str()) {
            None => {
                return Err(BoilError::SortFormat(tokens[i].clone()));
            },
            Some(f) => {
                let mut d = ASCENDING;
                let mut used: usize = 1;
                if i + 1 < n {
                    proof {
                        assert(rest[1] == tokens@[i + 1]@);
                    }
                    match parse_dir(tokens[i + 1].as_str()) {
                        Some(x) => {
                            d = x;
                            used = 2;
                        },
                        None => {},
                    }
                }
                let ghost before = acc@;
                acc.push(SortOpt(f, d));
                proof {
                    assert(rest.skip(used as int) =~= toks.skip(i + used));
                    match sort_terms(toks.skip(i + used)) {
                        Ok(t) => {
                            assert(before + (seq![SortOpt(f, d)] + t) =~= acc@ + t);
                        },
                        Err(_) => {},
                    }
                }
                i = i + used;
            },
        }
    }
    proof {
        assert(toks.skip(n as int) =~= Seq::<Seq<char>>::empty());
        assert(acc@ + Seq::<SortOpt>::empty() =~= acc@);
    }
    Ok(acc)
}

/// Parses a list of field tokens; the first token that names no field is the error.
pub fn parse_format(tokens: &Vec<String>) -> (r: Result<Vec<ListOpts>, BoilError>)
    ensures
        match (r, format_fields(string_views(tokens@))) {
            (Ok(t), Ok(spec)) => t@ == spec,
            (Err(BoilError::ListFormat(s)), Err(tok)) => s@ == tok,
            _ => false,
        },
{
    let ghost toks = string_views(tokens@);
    let n = tokens.len();
    let mut acc: Vec<ListOpts> = Vec::new();
    let mut i: usize = 0;
    proof {
        assert(toks.skip(0) =~= toks);
        match format_fields(toks) {
            Ok(t) => assert(acc@ + t =~= t),
            Err(_) => {},
        }
    }
    while i < n
        invariant
            0 <= i <= n,
            n == tokens@.len(),
            toks == string_views(tokens@),
            format_fields(toks) == prefixed(acc@, format_fields(toks.skip(i as int))),
        decreases n - i,
    {
        let ghost rest = toks.skip(i as int);
        proof {
            assert(rest[0] == tokens@[i as int]@);
        }
        match parse_field(tokens[i].as_str()) {
            None => {
                return Err(BoilError::ListFormat(tokens[i].clone()));
            },
            Some(f) => {
                let ghost before = acc@;
                acc.push(f);
                proof {
                    assert(rest.drop_first() =~= toks.skip(i + 1));
                    match format_fields(toks.skip(i + 1)) {
                        Ok(t) => {
                            assert(before + (seq![f] + t) =~= acc@ + t);
                        },
                        Err(_) => {},
                    }
                }
                i = i + 1;
            },
        }
    }
    proof {
        assert(toks.skip(n as int) =~= Seq::<Seq<char>>::empty());
        assert(acc@ + Seq::<ListOpts>::empty() =~= acc@);
    }
    Ok(acc)
}

/// The parsed command line: the command and the global debug flag.
#[derive(Debug, PartialEq)]
pub struct Cli {
    pub command: Commands,
    pub debug: bool,
}

/// The commands of the registry.
#[derive(Debug, PartialEq)]
pub enum Commands {
    /// Create a new script or project.
    New(NewArgs),
    /// Register an existing script or project.
    Add(AddArgs),
    /// Change a registered program.
    Edit(EditArgs),
    /// List the registered programs.
    List(ListArgs),
    /// Take a program out of the registry.
    Remove(RemoveArgs),
    /// Make a new configuration.
    Init(InitArgs),
}

/// The options of the `add` command.
#[derive(Debug, PartialEq)]
pub struct AddArgs {
    pub description: Option<String>,
    pub tags: Option<Vec<String>>,
    pub prog_type: Option<String>,
    pub name: String,
    pub path: String,
}

/// The options of the `new` command.
#[derive(Debug, PartialEq, Clone)]
pub struct NewArgs {
    pub temp: bool,
    pub project: bool,
    pub path: Option<String>,
    pub prog_type: Option<String>,
    pub description: Option<String>,
    pub tags: Option<Vec<String>>,
    /// Needed unless a temporary program is made.
    pub name: Option<String>,
}

/// The options of the `edit` command.
#[derive(Debug, PartialEq)]
pub struct EditArgs {
    pub eopts: EditOptsGroup,
    pub name: String,
}

/// The changes that `edit` makes; at least one is given.
#[derive(Debug, PartialEq)]
pub struct EditOptsGroup {
    pub description: Option<String>,
    pub tags: Option<Vec<String>>,
    pub rm_tags: Option<Vec<String>>,
    pub prog_type: Option<String>,
}

/// The options of the `remove` command.
#[derive(Debug, PartialEq)]
pub struct RemoveArgs {
    pub force: bool,
    pub name: String,
}

/// The options of the `init` command.
#[derive(Debug, PartialEq)]
pub struct InitArgs {
    pub force: bool,
    pub path: Option<String>,
}

} // verus!
