//! Orders: what comes before what.

use crate::order::{arranges, permutes, pick};
use crate::paths::{
    char_less, component_less, lex_less, path_before, path_components, path_file_name, text_less,
};
use vstd::prelude::*;

verus! {

/// Two lists are the same before `k`; there the first one ends, or has the lesser item.
pub open spec fn less_at<T>(a: Seq<T>, b: Seq<T>, less: spec_fn(T, T) -> bool, k: int) -> bool {
    &&& 0 <= k <= a.len()
    &&& k < b.len()
    &&& forall|i: int| 0 <= i < k ==> a[i] == b[i]
    &&& k == a.len() || (a[k] != b[k] && less(a[k], b[k]))
}

/// A list comes before another at the first place where they differ: there it ends, or has the
/// lesser item.
pub proof fn lists_differ_at_one_place<T>(a: Seq<T>, b: Seq<T>, less: spec_fn(T, T) -> bool)
    ensures
        lex_less(a, b, less) <==> exists|k: int| less_at(a, b, less, k),
    decreases a.len(),
{
    if b.len() > 0 && a.len() > 0 {
        let x = a.skip(1);
        let y = b.skip(1);
        lists_differ_at_one_place(x, y, less);
        if a[0] == b[0] {
            if lex_less(a, b, less) {
                let k = choose|k: int| less_at(x, y, less, k);
                assert forall|i: int| 0 <= i < k + 1 implies a[i] == b[i] by {
                    if i > 0 {
                        assert(x[i - 1] == y[i - 1]);
                    }
                }
                assert(less_at(a, b, less, k + 1));
            }
            if exists|k: int| less_at(a, b, less, k) {
                let k = choose|k: int| less_at(a, b, less, k);
                assert forall|i: int| 0 <= i < k - 1 implies x[i] == y[i] by {
                    assert(a[i + 1] == b[i + 1]);
                }
                assert(less_at(x, y, less, k - 1));
            }
        } else {
            if lex_less(a, b, less) {
                assert(less_at(a, b, less, 0));
            }
        }
    } else if b.len() > 0 {
        assert(less_at(a, b, less, 0));
    }
}

/// Texts are ordered by their characters, components by their kind and then by their text, and
/// paths by their components.
pub proof fn what_is_compared(
    a: Seq<char>,
    b: Seq<char>,
    x: (int, Seq<char>),
    y: (int, Seq<char>),
    c: char,
    d: char,
)
    ensures
        text_less(a, b) <==> lex_less(a, b, char_less()),
        path_before(a, b) <==> lex_less(path_components(a), path_components(b), component_less()),
        char_less()(c, d) <==> (c as int) < (d as int),
        component_less()(x, y) <==> x.0 < y.0 || (x.0 == y.0 && lex_less(x.1, y.1, char_less())),
{
}

/// The name of a path is its last component, where that is a name.
pub proof fn names_come_last(path: Seq<char>, name: Seq<char>)
    ensures
        path_file_name(path) == Some(name) <==> path_components(path).len() > 0 && path_components(
            path,
        ).last() == (4int, name),
{
}

/// To arrange is to put every item in one place, each before those that come after it; what has the
/// same path stays in the order in which it was.
pub proof fn arranging_orders_everything(paths: Seq<Seq<char>>, perm: Seq<int>)
    ensures
        arranges(paths, perm) ==> {
            &&& perm.len() == paths.len()
            &&& forall|i: int| 0 <= i < perm.len() ==> 0 <= #[trigger] perm[i] < paths.len()
            &&& forall|k: int| 0 <= k < paths.len() ==> #[trigger] perm.contains(k)
            &&& forall|i: int, j: int|
                0 <= i < j < perm.len() ==> {
                    ||| path_before(paths[#[trigger] perm[i]], paths[#[trigger] perm[j]])
                    ||| path_components(paths[perm[i]]) == path_components(paths[perm[j]])
                        && perm[i] < perm[j]
                }
        },
{
}

/// What is picked is the item at each place.
pub proof fn picking_takes_each<T>(s: Seq<T>, perm: Seq<int>)
    ensures
        pick(s, perm).len() == perm.len(),
        forall|i: int| 0 <= i < perm.len() ==> #[trigger] pick(s, perm)[i] == s[perm[i]],
        permutes(s.len(), perm) ==> forall|i: int, j: int|
            0 <= i < j < perm.len() ==> perm[i] != perm[j],
{
}

} // verus!
