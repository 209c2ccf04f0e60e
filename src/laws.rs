use vstd::prelude::*;

use crate::args::{FilterOpt, ListOpts, SortOpt, EQ};
use crate::bytes::{ascii_lower, lemma_keys_lt_irreflexive, lower_byte};
use crate::config::{field_bytes, Program};
use crate::table::{
    all_keys, arranged_by, check_value, precedes, predicate_holds, sort_key, stably_sorted,
};

verus! {

/// The encoding of a field is a function of the program and the field alone: it asks
/// nothing of its input, and equal programs give equal bytes for every field, however
/// often it is computed.
pub proof fn encoding_is_deterministic(p: Program, q: Program, f: ListOpts)
    requires
        p == q,
    ensures
        field_bytes(p, f) == field_bytes(q, f),
{
}

/// An equality predicate on the project flag whose value is one of the words for
/// true (`true`, `True` or `1`) holds of exactly the programs that are projects.
pub proof fn project_flag_equals_true(p: Program, f: FilterOpt)
    requires
        f.0 == ListOpts::Project,
        f.1 == EQ,
        f.2@ == "true"@ || f.2@ == "True"@ || f.2@ == "1"@,
    ensures
        predicate_holds(p, f) == p.project,
{
    reveal_strlit("true");
    reveal_strlit("True");
    reveal_strlit("1");
    reveal_strlit("false");
    reveal_strlit("False");
    reveal_strlit("0");
    assert("1"@[0] != "0"@[0]);
    assert(f.2@.len() != "False"@.len() && f.2@.len() != "false"@.len());
    assert(f.2@ != "0"@);
    assert(check_value(f.2@) == (seq![1u8], false));
    let b: u8 = if p.project { 1 } else { 0 };
    assert(field_bytes(p, f.0) == seq![b]);
    assert(ascii_lower(seq![b]) =~= seq![lower_byte(b)]);
    assert(lower_byte(b) == b);
    if !p.project {
        assert(seq![b][0] != seq![1u8][0]);
    }
}

/// An equality predicate on the project flag whose value is one of the words for
/// false (`false`, `False` or `0`) holds of exactly the programs that are not projects.
pub proof fn project_flag_equals_false(p: Program, f: FilterOpt)
    requires
        f.0 == ListOpts::Project,
        f.1 == EQ,
        f.2@ == "false"@ || f.2@ == "False"@ || f.2@ == "0"@,
    ensures
        predicate_holds(p, f) == !p.project,
{
    let b: u8 = if p.project { 1 } else { 0 };
    assert(field_bytes(p, f.0) == seq![b]);
    assert(ascii_lower(seq![b]) =~= seq![lower_byte(b)]);
    assert(lower_byte(b) == b);
    if p.project {
        assert(seq![b][0] != seq![0u8][0]);
    }
}

/// A stable sort keeps the input order of programs with equal keys: where the output
/// holds at positions `k` and `l` the programs from input positions `perm[k] < perm[l]`,
/// and their keys are equal, `k < l`.
pub proof fn sorting_is_stable(
    out: Seq<Program>,
    inp: Seq<Program>,
    terms: Seq<SortOpt>,
    perm: Seq<int>,
    k: int,
    l: int,
)
    requires
        arranged_by(out, inp, terms, perm),
        0 <= k < out.len(),
        0 <= l < out.len(),
        perm[k] < perm[l],
        sort_key(out[k], terms) == sort_key(out[l], terms),
    ensures
        k < l,
{
    let keys = all_keys(inp, terms);
    assert(keys[perm[k]] == sort_key(out[k], terms));
    assert(keys[perm[l]] == sort_key(out[l], terms));
    if l < k {
        assert(precedes(keys, perm[l], perm[k]));
        lemma_keys_lt_irreflexive(keys[perm[l]]);
    }
}

proof fn lemma_increasing_positions(perm: Seq<int>, n: int, k: int)
    requires
        perm.len() == n,
        forall|i: int| 0 <= i < n ==> 0 <= #[trigger] perm[i] < n,
        forall|i: int, j: int| 0 <= i < j < n ==> #[trigger] perm[i] < #[trigger] perm[j],
        0 <= k < n,
    ensures
        perm[k] >= k,
        perm[k] <= k,
    decreases n - k,
{
    lemma_at_least_position(perm, n, k);
    if k < n - 1 {
        lemma_increasing_positions(perm, n, k + 1);
        assert(perm[k] < perm[k + 1]);
    }
}

proof fn lemma_at_least_position(perm: Seq<int>, n: int, k: int)
    requires
        perm.len() == n,
        forall|i: int| 0 <= i < n ==> 0 <= #[trigger] perm[i] < n,
        forall|i: int, j: int| 0 <= i < j < n ==> #[trigger] perm[i] < #[trigger] perm[j],
        0 <= k < n,
    ensures
        perm[k] >= k,
    decreases k,
{
    if k > 0 {
        lemma_at_least_position(perm, n, k - 1);
        assert(perm[k - 1] < perm[k]);
    }
}

/// Sorting by no terms changes nothing: every key is empty, so a stable sort keeps
/// the input order.
pub proof fn sorting_by_no_terms_keeps_order(
    out: Seq<Program>,
    inp: Seq<Program>,
    terms: Seq<SortOpt>,
)
    requires
        terms.len() == 0,
        stably_sorted(out, inp, terms),
    ensures
        out == inp,
{
    let perm = choose|perm: Seq<int>| arranged_by(out, inp, terms, perm);
    let n = inp.len() as int;
    let keys = all_keys(inp, terms);
    assert forall|i: int, j: int| 0 <= i < j < n implies #[trigger] perm[i] < #[trigger] perm[j] by {
        assert(precedes(keys, perm[i], perm[j]));
        assert(keys[perm[i]] =~= Seq::<Seq<u8>>::empty());
        assert(keys[perm[j]] =~= Seq::<Seq<u8>>::empty());
    }
    assert forall|k: int| 0 <= k < n implies out[k] == inp[k] by {
        lemma_increasing_positions(perm, n, k);
    }
    assert(out =~= inp);
}

} // verus!
