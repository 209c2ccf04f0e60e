use vstd::prelude::*;
use vstd::utf8::encode_utf8;

use crate::args::{
    format_fields, parse_format, parse_sort, sort_terms, FilterOpt, ListArgs, ListOpts, SortOpt,
    ASCENDING, CONTAINS, CONTAINS_ANY, EQ, NE, NOT_CONTAINS, NOT_CONTAINS_ANY,
};
use crate::bytes::{
    ascii_lower, byte_views, bytes_equal, contains, contains_any, contains_any_of, contains_bytes,
    keys_less, keys_lt, lemma_keys_lt_total, lemma_keys_lt_transitive, push_str_bytes,
    split_alternatives, split_on, to_ascii_lower, PLUS,
};
use crate::config::{field_bytes, Program};
use crate::error::BoilError;
use crate::text::{str_is, string_views};

verus! {

/// The bytes that a filter value is compared with, and whether the comparison is
/// case-sensitive. The words for true and false stand for the one-byte encoding of
/// the project flag; a leading `*` asks for a case-sensitive comparison and is
/// dropped; any other value is compared in ASCII lowercase.
pub open spec fn check_value(lit: Seq<char>) -> (Seq<u8>, bool) {
    if lit == "False"@ || lit == "false"@ || lit == "0"@ {
        (seq![0u8], false)
    } else if lit == "True"@ || lit == "true"@ || lit == "1"@ {
        (seq![1u8], false)
    } else if lit.len() > 0 && lit[0] == '*' {
        (encode_utf8(lit.drop_first()), true)
    } else {
        (ascii_lower(encode_utf8(lit)), false)
    }
}

/// A filter predicate with a known operator code.
pub open spec fn valid_filter(f: FilterOpt) -> bool {
    f.1 <= NOT_CONTAINS_ANY
}

/// Whether the program `p` satisfies the predicate `f`.
pub open spec fn predicate_holds(p: Program, f: FilterOpt) -> bool {
    let cv = check_value(f.2@).0;
    let pv = if check_value(f.2@).1 {
        field_bytes(p, f.0)
    } else {
        ascii_lower(field_bytes(p, f.0))
    };
    if f.1 == EQ {
        pv == cv
    } else if f.1 == NE {
        pv != cv
    } else if f.1 == CONTAINS {
        contains_bytes(pv, cv)
    } else if f.1 == NOT_CONTAINS {
        !contains_bytes(pv, cv)
    } else if f.1 == CONTAINS_ANY {
        contains_any(pv, split_on(cv, PLUS))
    } else {
        !contains_any(pv, split_on(cv, PLUS))
    }
}

/// Whether the program `p` satisfies every predicate of `fs`.
pub open spec fn accepts(p: Program, fs: Seq<FilterOpt>) -> bool {
    forall|i: int| 0 <= i < fs.len() ==> predicate_holds(p, #[trigger] fs[i])
}

/// The bytes of one sort term: as they are for ascending order, each one taken from
/// 255 for descending order.
pub open spec fn term_bytes(b: Seq<u8>, dir: u8) -> Seq<u8> {
    if dir == ASCENDING {
        b
    } else {
        b.map_values(|x: u8| (255 - x) as u8)
    }
}

/// The composite sort key of `p`: one byte string per term, in term order.
pub open spec fn sort_key(p: Program, terms: Seq<SortOpt>) -> Seq<Seq<u8>> {
    terms.map_values(|t: SortOpt| term_bytes(field_bytes(p, t.0), t.1))
}

fn check_value_exec(lit: &String) -> (r: (Vec<u8>, bool))
    ensures
        r.0@ == check_value(lit@).0,
        r.1 == check_value(lit@).1,
{
    let s = lit.as_str();
    if str_is(s, "False") || str_is(s, "false") || str_is(s, "0") {
        (vec![0u8], false)
    } else if str_is(s, "True") || str_is(s, "true") || str_is(s, "1") {
        (vec![1u8], false)
    } else if s.unicode_len() > 0 && s.get_char(0) == '*' {
        let mut out: Vec<u8> = Vec::new();
        push_str_bytes(&mut out, s.substring_char(1, s.unicode_len()));
        proof {
            assert(s@.subrange(1, s@.len() as int) =~= s@.drop_first());
        }
        (out, true)
    } else {
        let mut out: Vec<u8> = Vec::new();
        push_str_bytes(&mut out, s);
        (to_ascii_lower(&out), false)
    }
}

fn predicate_holds_exec(prog: &Program, f: &FilterOpt) -> (r: bool)
    requires
        valid_filter(*f),
    ensures
        r == predicate_holds(*prog, *f),
{
    let (cv, case_sensitive) = check_value_exec(&f.2);
    let raw = prog.vals_to_bytes(&f.0);
    let pv = if case_sensitive {
        raw
    } else {
        to_ascii_lower(&raw)
    };
    if f.1 == EQ {
        bytes_equal(&pv, &cv)
    } else if f.1 == NE {
        !bytes_equal(&pv, &cv)
    } else if f.1 == CONTAINS {
        contains(&pv, &cv)
    } else if f.1 == NOT_CONTAINS {
        !contains(&pv, &cv)
    } else {
        let alts = split_alternatives(&cv);
        let any = contains_any_of(&pv, &alts);
        if f.1 == CONTAINS_ANY {
            any
        } else {
            !any
        }
    }
}

/// Whether `prog` satisfies every predicate of `filter_opts`; an empty list accepts
/// every program.
pub fn check_filter(prog: &Program, filter_opts: &Vec<FilterOpt>) -> (r: bool)
    requires
        forall|i: int| 0 <= i < filter_opts@.len() ==> valid_filter(#[trigger] filter_opts@[i]),
    ensures
        r == accepts(*prog, filter_opts@),
{
    let n = filter_opts.len();
    let mut i: usize = 0;
    while i < n
        invariant
            0 <= i <= n,
            n == filter_opts@.len(),
            forall|j: int| 0 <= j < n ==> valid_filter(#[trigger] filter_opts@[j]),
            forall|j: int| 0 <= j < i ==> predicate_holds(*prog, #[trigger] filter_opts@[j]),
        decreases n - i,
    {
        if !predicate_holds_exec(prog, &filter_opts[i]) {
            return false;
        }
        i = i + 1;
    }
    true
}

/// The composite sort key of `prog` under the terms `sort_opt`.
pub fn get_sort_key(prog: &Program, sort_opt: &Vec<SortOpt>) -> (r: Vec<Vec<u8>>)
    ensures
        byte_views(r@) == sort_key(*prog, sort_opt@),
{
    let mut key_order: Vec<Vec<u8>> = Vec::new();
    let n = sort_opt.len();
    let mut i: usize = 0;
    while i < n
        invariant
            0 <= i <= n,
            n == sort_opt@.len(),
            byte_views(key_order@) =~= sort_key(*prog, sort_opt@.subrange(0, i as int)),
        decreases n - i,
    {
        let opt = sort_opt[i];
        let bytes = prog.vals_to_bytes(&opt.0);
        let mut term: Vec<u8> = Vec::new();
        let m = bytes.len();
        let mut j: usize = 0;
        while j < m
            invariant
                0 <= j <= m,
                m == bytes@.len(),
                term@ =~= term_bytes(bytes@.subrange(0, j as int), opt.1),
            decreases m - j,
        {
            let b = bytes[j];
            term.push(if opt.1 == ASCENDING { b } else { 255 - b });
            j = j + 1;
            proof {
                assert(term@ =~= term_bytes(bytes@.subrange(0, j as int), opt.1));
            }
        }
        proof {
            assert(bytes@.subrange(0, m as int) =~= bytes@);
        }
        let ghost before = key_order@;
        key_order.push(term);
        proof {
            assert(key_order@ =~= before.push(term));
            assert(byte_views(key_order@) =~= byte_views(before).push(term@));
            assert(sort_opt@.subrange(0, i + 1) =~= sort_opt@.subrange(0, i as int).push(opt));
            assert(term@ == term_bytes(field_bytes(*prog, opt.0), opt.1));
        }
        i = i + 1;
        proof {
            assert(byte_views(key_order@) =~= sort_key(*prog, sort_opt@.subrange(0, i as int)));
        }
    }
    proof {
        assert(sort_opt@.subrange(0, n as int) =~= sort_opt@);
    }
    key_order
}

/// The sort key of each program.
pub open spec fn all_keys(ps: Seq<Program>, terms: Seq<SortOpt>) -> Seq<Seq<Seq<u8>>> {
    ps.map_values(|p: Program| sort_key(p, terms))
}

/// In a stable sort by `keys`, the item at input position `i` comes before the one at `j`.
pub open spec fn precedes(keys: Seq<Seq<Seq<u8>>>, i: int, j: int) -> bool {
    keys_lt(keys[i], keys[j]) || (keys[i] == keys[j] && i < j)
}

/// `out` holds the items of `inp` at the input positions `perm`, and those positions
/// are in stable sort order by key.
pub open spec fn arranged_by(
    out: Seq<Program>,
    inp: Seq<Program>,
    terms: Seq<SortOpt>,
    perm: Seq<int>,
) -> bool {
    &&& perm.len() == inp.len()
    &&& out.len() == inp.len()
    &&& forall|k: int|
        0 <= k < out.len() ==> 0 <= #[trigger] perm[k] < inp.len() && out[k] == inp[perm[k]]
    &&& forall|k: int, l: int|
        0 <= k < l < out.len() ==> precedes(all_keys(inp, terms), #[trigger] perm[k], #[trigger] perm[l])
}

/// `out` is `inp` sorted stably by the composite key of `terms`: ordered by key, and
/// in input order among equal keys.
pub open spec fn stably_sorted(out: Seq<Program>, inp: Seq<Program>, terms: Seq<SortOpt>) -> bool {
    exists|perm: Seq<int>| arranged_by(out, inp, terms, perm)
}

proof fn lemma_key_le_chain(a: Seq<Seq<u8>>, b: Seq<Seq<u8>>, c: Seq<Seq<u8>>)
    requires
        keys_lt(a, b) || a == b,
        keys_lt(b, c) || b == c,
    ensures
        keys_lt(a, c) || a == c,
{
    if keys_lt(a, b) && keys_lt(b, c) {
        lemma_keys_lt_transitive(a, b, c);
    }
}

/// The key views of a vector of keys.
spec fn key_views(ks: Seq<Vec<Vec<u8>>>) -> Seq<Seq<Seq<u8>>> {
    ks.map_values(|k: Vec<Vec<u8>>| byte_views(k@))
}

/// Sorts `entries` stably by the composite key of `terms`.
pub fn sort_programs(entries: Vec<Program>, terms: &Vec<SortOpt>) -> (r: Vec<Program>)
    ensures
        stably_sorted(r@, entries@, terms@),
{
    let ghost inp = entries@;
    let ghost keys_all = all_keys(inp, terms@);
    let n = entries.len();
    let mut rest = entries;
    let mut out: Vec<Program> = Vec::new();
    let mut keys: Vec<Vec<Vec<u8>>> = Vec::new();
    let ghost mut perm: Seq<int> = Seq::empty();
    let mut i: usize = n;
    while i > 0
        invariant
            0 <= i <= n,
            n == inp.len(),
            keys_all == all_keys(inp, terms@),
            rest@ == inp.subrange(0, i as int),
            out@.len() == n - i,
            keys@.len() == n - i,
            perm.len() == n - i,
            forall|k: int|
                0 <= k < out@.len() ==> i <= #[trigger] perm[k] < n && out@[k] == inp[perm[k]]
                    && key_views(keys@)[k] == keys_all[perm[k]],
            forall|k: int, l: int|
                0 <= k < l < out@.len() ==> precedes(keys_all, #[trigger] perm[k], #[trigger] perm[l]),
        decreases i,
    {
        let p = rest.pop().unwrap();
        i = i - 1;
        proof {
            assert(p == inp[i as int]);
            assert(rest@ =~= inp.subrange(0, i as int));
        }
        let key = get_sort_key(&p, terms);
        proof {
            assert(byte_views(key@) == keys_all[i as int]);
        }
        let mut pos: usize = 0;
        while pos < keys.len() && keys_less(&keys[pos], &key)
            invariant
                0 <= pos <= keys@.len(),
                keys@.len() == out@.len(),
                forall|k: int| 0 <= k < pos ==> keys_lt(#[trigger] key_views(keys@)[k], byte_views(key@)),
            decreases keys@.len() - pos,
        {
            pos = pos + 1;
        }
        let ghost old_perm = perm;
        let ghost old_keys = keys@;
        let ghost old_out = out@;
        proof {
            if pos < old_keys.len() {
                assert(!keys_lt(key_views(old_keys)[pos as int], byte_views(key@)));
                if key_views(old_keys)[pos as int] != byte_views(key@) {
                    lemma_keys_lt_total(key_views(old_keys)[pos as int], byte_views(key@));
                }
            }
        }
        out.insert(pos, p);
        keys.insert(pos, key);
        proof {
            perm = old_perm.insert(pos as int, i as int);
            assert(key_views(keys@) =~= key_views(old_keys).insert(pos as int, byte_views(key@)));
            assert forall|k: int| 0 <= k < out@.len() implies i <= #[trigger] perm[k] < n
                && out@[k] == inp[perm[k]] && key_views(keys@)[k] == keys_all[perm[k]] by {
                if k < pos {
                    assert(perm[k] == old_perm[k]);
                } else if k > pos {
                    assert(perm[k] == old_perm[k - 1]);
                }
            }
            assert forall|k: int, l: int| 0 <= k < l < out@.len() implies precedes(
                keys_all,
                #[trigger] perm[k],
                #[trigger] perm[l],
            ) by {
                let ki = keys_all[i as int];
                if l < pos {
                    assert(perm[k] == old_perm[k] && perm[l] == old_perm[l]);
                } else if l == pos {
                    assert(perm[k] == old_perm[k]);
                    assert(keys_lt(key_views(old_keys)[k], byte_views(key@)));
                } else if k > pos {
                    assert(perm[k] == old_perm[k - 1] && perm[l] == old_perm[l - 1]);
                } else if k == pos {
                    let q = old_perm[l - 1];
                    let first = old_perm[pos as int];
                    assert(perm[l] == q);
                    assert(keys_lt(ki, keys_all[first]) || ki == keys_all[first]);
                    if l - 1 > pos {
                        assert(precedes(keys_all, old_perm[pos as int], old_perm[l - 1]));
                        lemma_key_le_chain(ki, keys_all[first], keys_all[q]);
                    }
                    assert(i < q);
                } else {
                    assert(perm[k] == old_perm[k] && perm[l] == old_perm[l - 1]);
                    assert(precedes(keys_all, old_perm[k], old_perm[l - 1]));
                }
            }
        }
    }
    proof {
        assert(arranged_by(out@, inp, terms@, perm));
    }
    out
}

/// The programs of `ps` that satisfy every predicate of `fs`, in their order.
pub open spec fn filtered(ps: Seq<Program>, fs: Seq<FilterOpt>) -> Seq<Program> {
    ps.filter(|p: Program| accepts(p, fs))
}

/// Every predicate of `fs` has a known operator code.
pub open spec fn valid_filters(fs: Seq<FilterOpt>) -> bool {
    forall|i: int| 0 <= i < fs.len() ==> valid_filter(#[trigger] fs[i])
}

/// Keeps the programs of `entries` that satisfy every predicate, in their order.
pub fn filter_programs(entries: Vec<Program>, filter_opts: &Vec<FilterOpt>) -> (r: Vec<Program>)
    requires
        valid_filters(filter_opts@),
    ensures
        r@ == filtered(entries@, filter_opts@),
{
    let ghost inp = entries@;
    let n = entries.len();
    let mut rest = entries;
    let mut out: Vec<Program> = Vec::new();
    let mut i: usize = 0;
    proof {
        reveal(Seq::filter);
        assert(inp.take(0) =~= Seq::<Program>::empty());
        assert(inp.skip(0) =~= inp);
    }
    while i < n
        invariant
            0 <= i <= n,
            n == inp.len(),
            valid_filters(filter_opts@),
            rest@ == inp.skip(i as int),
            out@ == filtered(inp.take(i as int), filter_opts@),
        decreases n - i,
    {
        let p = rest.remove(0);
        proof {
            reveal(Seq::filter);
            assert(p == inp[i as int]);
            assert(rest@ =~= inp.skip(i + 1));
            assert(inp.take(i + 1).drop_last() =~= inp.take(i as int));
            assert(inp.take(i + 1).last() == p);
        }
        if check_filter(&p, filter_opts) {
            out.push(p);
        }
        i = i + 1;
    }
    proof {
        assert(inp.take(n as int) =~= inp);
    }
    out
}

/// The query pipeline: the programs of `records` that satisfy every predicate, sorted
/// stably by the composite key of `terms`.
pub fn run(records: Vec<Program>, predicates: &Vec<FilterOpt>, terms: &Vec<SortOpt>) -> (r: Vec<Program>)
    requires
        valid_filters(predicates@),
    ensures
        stably_sorted(r@, filtered(records@, predicates@), terms@),
{
    let kept = filter_programs(records, predicates);
    sort_programs(kept, terms)
}

/// The parsed options of a listing: the fields to show, the sort terms and the filter.
pub struct TableOpts {
    pub list_args: Vec<ListOpts>,
    pub sort_arg: Option<Vec<SortOpt>>,
    pub filter_args: Option<Vec<FilterOpt>>,
}

/// Whether every predicate of `fs` has a known operator code.
pub fn known_operators(fs: &Vec<FilterOpt>) -> (r: bool)
    ensures
        r == valid_filters(fs@),
{
    let n = fs.len();
    let mut i: usize = 0;
    while i < n
        invariant
            0 <= i <= n,
            n == fs@.len(),
            forall|j: int| 0 <= j < i ==> valid_filter(#[trigger] fs@[j]),
        decreases n - i,
    {
        if fs[i].1 > NOT_CONTAINS_ANY {
            assert(!valid_filter(fs@[i as int]));
            return false;
        }
        i = i + 1;
    }
    true
}

impl TableOpts {
    /// Reads the field list and the sort tokens of `args`; the filter is taken as it is.
    /// A bad field token is reported first, then a bad sort token.
    pub fn from_args(args: ListArgs) -> (r: Result<TableOpts, BoilError>)
        requires
            args.format is Some,
        ensures
            match r {
                Ok(t) => {
                    &&& match format_fields(string_views(args.format->Some_0@)) {
                        Ok(fields) => t.list_args@ == fields,
                        Err(_) => false,
                    }
                    &&& match (args.sort, t.sort_arg) {
                        (Some(s), Some(terms)) => match sort_terms(string_views(s@)) {
                            Ok(spec) => terms@ == spec,
                            Err(_) => false,
                        },
                        (None, None) => true,
                        _ => false,
                    }
                    &&& t.filter_args == args.filter
                },
                Err(e) => match format_fields(string_views(args.format->Some_0@)) {
                    Err(tok) => e matches BoilError::ListFormat(s) && s@ == tok,
                    Ok(_) => match args.sort {
                        Some(s) => match sort_terms(string_views(s@)) {
                            Err(tok) => e matches BoilError::SortFormat(t) && t@ == tok,
                            Ok(_) => false,
                        },
                        None => false,
                    },
                },
            },
    {
        let list_args = match &args.format {
            Some(f) => parse_format(f)?,
            None => Vec::new(),
        };
        let sort_arg = match &args.sort {
            Some(s) => Some(parse_sort(s)?),
            None => None,
        };
        Ok(TableOpts { list_args, sort_arg, filter_args: args.filter })
    }

    /// The programs of `entries` to show: those that pass the filter, if there is one,
    /// sorted stably by the sort terms, if there are any.
    pub fn entries(&self, entries: Vec<Program>) -> (r: Vec<Program>)
        requires
            match self.filter_args {
                Some(f) => valid_filters(f@),
                None => true,
            },
        ensures
            ({
                let kept = match self.filter_args {
                    Some(f) => filtered(entries@, f@),
                    None => entries@,
                };
                match self.sort_arg {
                    Some(terms) => stably_sorted(r@, kept, terms@),
                    None => r@ == kept,
                }
            }),
    {
        let kept = match &self.filter_args {
            Some(f) => filter_programs(entries, f),
            None => entries,
        };
        match &self.sort_arg {
            Some(terms) => sort_programs(kept, terms),
            None => kept,
        }
    }
}

} // verus!
