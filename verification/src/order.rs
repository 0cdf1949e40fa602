//! Stable sorting by path.

use crate::paths::{
    order_paths, path_before, path_order_is_total, path_order_is_transitive, same_path, PathOrder,
};
use vstd::prelude::*;

verus! {

/// A value that has a place in the file system.
pub trait Located: Sized {
    /// The path of the value.
    spec fn place(&self) -> Seq<char>;

    /// The path of the value.
    fn place_text(&self) -> (r: &str)
        ensures
            r@ == self.place(),
    ;
}

/// The paths of a list of values.
pub open spec fn places<T: Located>(items: Seq<T>) -> Seq<Seq<char>> {
    Seq::new(items.len(), |i: int| items[i].place())
}

/// The items of `s` at the positions `perm`.
pub open spec fn pick<T>(s: Seq<T>, perm: Seq<int>) -> Seq<T> {
    Seq::new(perm.len(), |i: int| s[perm[i]])
}

/// `perm` lists every position below `n` once.
pub open spec fn permutes(n: nat, perm: Seq<int>) -> bool {
    &&& perm.len() == n
    &&& forall|i: int| 0 <= i < n ==> 0 <= #[trigger] perm[i] < n
    &&& forall|i: int, j: int| 0 <= i < j < n ==> perm[i] != perm[j]
    &&& forall|k: int| 0 <= k < n ==> #[trigger] perm.contains(k)
}

/// The path at position `a` comes before that at `b`, or is the same and stood
/// before it.
pub open spec fn ranks_before(paths: Seq<Seq<char>>, a: int, b: int) -> bool {
    path_before(paths[a], paths[b]) || (same_path(paths[a], paths[b]) && a < b)
}

/// `perm` lists the positions of `paths` in the order of the paths, the
/// positions of one path in the order in which they stand.
pub open spec fn arranges(paths: Seq<Seq<char>>, perm: Seq<int>) -> bool {
    &&& permutes(paths.len(), perm)
    &&& forall|i: int, j: int|
        0 <= i < j < perm.len() ==> ranks_before(paths, #[trigger] perm[i], #[trigger] perm[j])
}

proof fn lemma_ranks_exclusive(paths: Seq<Seq<char>>, a: int, b: int)
    ensures
        !(ranks_before(paths, a, b) && ranks_before(paths, b, a)),
        a != b ==> ranks_before(paths, a, b) || ranks_before(paths, b, a),
{
    path_order_is_total(paths[a], paths[b]);
}

/// There is one arrangement by path: two that a stable sort could give are
/// equal.
pub proof fn arrangement_is_unique(paths: Seq<Seq<char>>, p: Seq<int>, q: Seq<int>)
    requires
        arranges(paths, p),
        arranges(paths, q),
    ensures
        p == q,
{
    assert forall|i: int| 0 <= i < p.len() implies p[i] == q[i] by {
        lemma_arrangements_agree(paths, p, q, i);
    }
    assert(p =~= q);
}

proof fn lemma_arrangements_agree(paths: Seq<Seq<char>>, p: Seq<int>, q: Seq<int>, i: int)
    requires
        arranges(paths, p),
        arranges(paths, q),
        0 <= i < p.len(),
    ensures
        p[i] == q[i],
    decreases i,
{
    assert forall|j: int| 0 <= j < i implies p[j] == q[j] by {
        lemma_arrangements_agree(paths, p, q, j);
    }
    assert(q.contains(p[i]));
    assert(p.contains(q[i]));
    let m = choose|m: int| 0 <= m < q.len() && q[m] == p[i];
    let l = choose|l: int| 0 <= l < p.len() && p[l] == q[i];
    if m < i {
        assert(p[m] == q[m]);
        assert(false);
    }
    if l < i {
        assert(p[l] == q[l]);
        assert(false);
    }
    if m > i && l > i {
        assert(ranks_before(paths, q[i], q[m]));
        assert(ranks_before(paths, p[i], p[l]));
        lemma_ranks_exclusive(paths, p[i], q[i]);
        assert(false);
    }
}

/// Sorting by path forgets the order of the input: where no two paths are the
/// same, every order of one list is arranged to the same list.
pub proof fn arrangement_forgets_order(
    paths: Seq<Seq<char>>,
    shuffle: Seq<int>,
    p: Seq<int>,
    q: Seq<int>,
)
    requires
        forall|i: int, j: int|
            0 <= i < j < paths.len() ==> !same_path(#[trigger] paths[i], #[trigger] paths[j]),
        permutes(paths.len(), shuffle),
        arranges(paths, p),
        arranges(pick(paths, shuffle), q),
    ensures
        p == pick(shuffle, q),
{
    let shuffled = pick(paths, shuffle);
    let r = pick(shuffle, q);
    assert(shuffled.len() == paths.len());
    assert forall|k: int| 0 <= k < paths.len() implies #[trigger] r.contains(k) by {
        assert(shuffle.contains(k));
        let m = choose|m: int| 0 <= m < shuffle.len() && shuffle[m] == k;
        assert(q.contains(m));
        let i = choose|i: int| 0 <= i < q.len() && q[i] == m;
        assert(r[i] == k);
    }
    assert forall|i: int, j: int| 0 <= i < j < r.len() implies r[i] != r[j] && ranks_before(
        paths,
        #[trigger] r[i],
        #[trigger] r[j],
    ) by {
        let (a, b) = (q[i], q[j]);
        assert(a != b);
        assert(ranks_before(shuffled, a, b));
        assert(shuffle[a] != shuffle[b]);
        assert(shuffled[a] == paths[shuffle[a]] && shuffled[b] == paths[shuffle[b]]);
        if shuffle[a] < shuffle[b] {
            assert(!same_path(paths[shuffle[a]], paths[shuffle[b]]));
        } else {
            assert(!same_path(paths[shuffle[b]], paths[shuffle[a]]));
        }
    }
    assert(permutes(paths.len(), r));
    arrangement_is_unique(paths, p, r);
}

/// The first position below `n` whose item comes after the item at `n`, the
/// items below `n` being in order; `n` where there is none.
fn insertion_point<T: Located>(items: &Vec<T>, n: usize) -> (r: usize)
    requires
        n < items@.len(),
        forall|i: int, j: int|
            0 <= i < j < n ==> !path_before(#[trigger] items@[j].place(), #[trigger] items@[i].place()),
    ensures
        r <= n,
        forall|i: int| 0 <= i < r ==> !path_before(items@[n as int].place(), #[trigger] items@[i].place()),
        forall|i: int| r <= i < n ==> path_before(items@[n as int].place(), #[trigger] items@[i].place()),
{
    let mut lo: usize = 0;
    let mut hi: usize = n;
    while lo < hi
        invariant
            lo <= hi <= n < items@.len(),
            forall|i: int, j: int|
                0 <= i < j < n ==> !path_before(
                    #[trigger] items@[j].place(),
                    #[trigger] items@[i].place(),
                ),
            forall|i: int|
                0 <= i < lo ==> !path_before(items@[n as int].place(), #[trigger] items@[i].place()),
            forall|i: int|
                hi <= i < n ==> path_before(items@[n as int].place(), #[trigger] items@[i].place()),
        decreases hi - lo,
    {
        let mid: usize = lo + (hi - lo) / 2;
        let ghost x = items@[n as int].place();
        let ghost y = items@[mid as int].place();
        if matches!(order_paths(items[n].place_text(), items[mid].place_text()), PathOrder::Before) {
            assert forall|i: int| mid <= i < n implies path_before(
                x,
                #[trigger] items@[i].place(),
            ) by {
                if i > mid {
                    path_order_is_total(y, items@[i].place());
                    if path_before(y, items@[i].place()) {
                        path_order_is_transitive(x, y, items@[i].place());
                    }
                }
            }
            hi = mid;
        } else {
            assert forall|i: int| 0 <= i < mid + 1 implies !path_before(
                x,
                #[trigger] items@[i].place(),
            ) by {
                let z = items@[i].place();
                if i < mid && path_before(x, z) {
                    path_order_is_total(z, y);
                    if path_before(z, y) {
                        path_order_is_transitive(x, z, y);
                    }
                }
            }
            lo = mid + 1;
        }
    }
    lo
}

proof fn lemma_insert_arranges(paths: Seq<Seq<char>>, n: int, perm: Seq<int>, at: int)
    requires
        0 <= n < paths.len(),
        arranges(paths.take(n), perm),
        0 <= at <= n,
        forall|i: int| 0 <= i < at ==> !path_before(paths[n], paths[#[trigger] perm[i]]),
        forall|i: int| at <= i < n ==> path_before(paths[n], paths[#[trigger] perm[i]]),
    ensures
        arranges(paths.take(n + 1), perm.insert(at, n)),
{
    let keys = paths.take(n + 1);
    let next = perm.insert(at, n);
    assert forall|k: int| 0 <= k < n + 1 implies #[trigger] next.contains(k) by {
        if k == n {
            assert(next[at] == n);
        } else {
            assert(perm.contains(k));
            let i = choose|i: int| 0 <= i < perm.len() && perm[i] == k;
            if i < at {
                assert(next[i] == k);
            } else {
                assert(next[i + 1] == k);
            }
        }
    }
    assert forall|i: int, j: int| 0 <= i < j < next.len() implies ranks_before(
        keys,
        #[trigger] next[i],
        #[trigger] next[j],
    ) && next[i] != next[j] by {
        let pi = if i < at {
            i
        } else {
            i - 1
        };
        let pj = if j < at {
            j
        } else {
            j - 1
        };
        if i != at && j != at {
            assert(next[i] == perm[pi] && next[j] == perm[pj]);
            assert(ranks_before(paths.take(n), perm[pi], perm[pj]));
        } else if j == at {
            assert(next[i] == perm[i]);
            path_order_is_total(paths[n], paths[perm[i]]);
        } else {
            assert(next[j] == perm[j - 1]);
        }
    }
}

/// Sorts by path; items of one path keep their order.
pub fn sort_by_path<T: Located>(items: &mut Vec<T>)
    ensures
        exists|perm: Seq<int>|
            arranges(places(old(items)@), perm) && final(items)@ == #[trigger] pick(
                old(items)@,
                perm,
            ),
{
    let ghost start = items@;
    let ghost paths = places(start);
    let ghost mut perm: Seq<int> = Seq::empty();
    let mut n: usize = 0;
    while n < items.len()
        invariant
            n <= items@.len() == start.len(),
            paths == places(start),
            arranges(paths.take(n as int), perm),
            forall|i: int| 0 <= i < n ==> #[trigger] items@[i] == start[perm[i]],
            forall|i: int| n <= i < start.len() ==> #[trigger] items@[i] == start[i],
        decreases start.len() - n,
    {
        proof {
            assert forall|i: int, j: int| 0 <= i < j < n implies !path_before(
                #[trigger] items@[j].place(),
                #[trigger] items@[i].place(),
            ) by {
                assert(ranks_before(paths.take(n as int), perm[i], perm[j]));
                path_order_is_total(items@[i].place(), items@[j].place());
            }
        }
        let at: usize = insertion_point(items, n);
        let ghost before = items@;
        proof {
            assert forall|i: int| 0 <= i < at implies !path_before(
                paths[n as int],
                paths[#[trigger] perm[i]],
            ) by {
                assert(before[i] == start[perm[i]]);
            }
            assert forall|i: int| at <= i < n implies path_before(
                paths[n as int],
                paths[#[trigger] perm[i]],
            ) by {
                assert(before[i] == start[perm[i]]);
            }
            lemma_insert_arranges(paths, n as int, perm, at as int);
        }
        let item = items.remove(n);
        items.insert(at, item);
        proof {
            let next = perm.insert(at as int, n as int);
            assert forall|i: int| 0 <= i < n + 1 implies #[trigger] items@[i] == start[next[i]] by {
                if i < at {
                    assert(items@[i] == before[i]);
                } else if i > at {
                    assert(items@[i] == before[i - 1]);
                }
            }
            perm = next;
        }
        n += 1;
    }
    proof {
        assert(paths.take(paths.len() as int) =~= paths);
        assert(items@ =~= pick(start, perm));
    }
}

} // verus!
