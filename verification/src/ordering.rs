//! The order of paths: component by component, each component compared
//! byte by byte, a proper prefix coming first. Photos are listed in this
//! order.

use vstd::prelude::*;

verus! {

/// Strict lexicographic order on byte strings.
pub open spec fn bytes_lt(a: Seq<u8>, b: Seq<u8>) -> bool
    decreases a.len(),
{
    if a.len() == 0 {
        b.len() > 0
    } else if b.len() == 0 {
        false
    } else if a[0] != b[0] {
        (a[0] as int) < (b[0] as int)
    } else {
        bytes_lt(a.drop_first(), b.drop_first())
    }
}

/// Strict lexicographic order on paths given as their components.
pub open spec fn path_lt(a: Seq<Seq<u8>>, b: Seq<Seq<u8>>) -> bool
    decreases a.len(),
{
    if a.len() == 0 {
        b.len() > 0
    } else if b.len() == 0 {
        false
    } else if a[0] != b[0] {
        bytes_lt(a[0], b[0])
    } else {
        path_lt(a.drop_first(), b.drop_first())
    }
}

/// The components of a path as byte strings.
pub open spec fn path_view(p: Vec<Vec<u8>>) -> Seq<Seq<u8>> {
    p@.map_values(|c: Vec<u8>| c@)
}

/// Exactly one of `a < b`, `a == b`, `b < a` holds.
pub proof fn lemma_bytes_trichotomy(a: Seq<u8>, b: Seq<u8>)
    ensures
        !bytes_lt(a, a),
        a != b ==> bytes_lt(a, b) || bytes_lt(b, a),
        !(bytes_lt(a, b) && bytes_lt(b, a)),
    decreases a.len(),
{
    if a.len() > 0 {
        lemma_bytes_trichotomy(a.drop_first(), a.drop_first());
        if b.len() > 0 {
            lemma_bytes_trichotomy(a.drop_first(), b.drop_first());
            if a[0] != b[0] {
                assert((a[0] as int) != (b[0] as int));
            }
            if a[0] == b[0] && a != b {
                assert(a.drop_first() != b.drop_first()) by {
                    if a.drop_first() == b.drop_first() {
                        assert(a =~= b) by {
                            assert forall|i: int| 0 <= i < a.len() implies a[i] == b[i] by {
                                if i > 0 {
                                    assert(a[i] == a.drop_first()[i - 1]);
                                    assert(b[i] == b.drop_first()[i - 1]);
                                }
                            }
                        }
                    }
                }
            }
        }
    } else {
        if b.len() == 0 {
            assert(a =~= b);
        }
    }
}

/// `bytes_lt` is transitive.
pub proof fn lemma_bytes_transitive(a: Seq<u8>, b: Seq<u8>, c: Seq<u8>)
    requires
        bytes_lt(a, b),
        bytes_lt(b, c),
    ensures
        bytes_lt(a, c),
    decreases a.len(),
{
    if a.len() > 0 && a[0] == b[0] && b[0] == c[0] {
        lemma_bytes_transitive(a.drop_first(), b.drop_first(), c.drop_first());
    }
}

/// Exactly one of `a < b`, `a == b`, `b < a` holds for paths.
pub proof fn lemma_path_trichotomy(a: Seq<Seq<u8>>, b: Seq<Seq<u8>>)
    ensures
        !path_lt(a, a),
        a != b ==> path_lt(a, b) || path_lt(b, a),
        !(path_lt(a, b) && path_lt(b, a)),
    decreases a.len(),
{
    if a.len() > 0 {
        lemma_path_trichotomy(a.drop_first(), a.drop_first());
        if b.len() > 0 {
            lemma_bytes_trichotomy(a[0], b[0]);
            lemma_path_trichotomy(a.drop_first(), b.drop_first());
            if a[0] == b[0] && a != b {
                assert(a.drop_first() != b.drop_first()) by {
                    if a.drop_first() == b.drop_first() {
                        assert(a =~= b) by {
                            assert forall|i: int| 0 <= i < a.len() implies a[i] == b[i] by {
                                if i > 0 {
                                    assert(a[i] == a.drop_first()[i - 1]);
                                    assert(b[i] == b.drop_first()[i - 1]);
                                }
                            }
                        }
                    }
                }
            }
        }
    } else {
        if b.len() == 0 {
            assert(a =~= b);
        }
    }
}

/// `path_lt` is transitive.
pub proof fn lemma_path_transitive(a: Seq<Seq<u8>>, b: Seq<Seq<u8>>, c: Seq<Seq<u8>>)
    requires
        path_lt(a, b),
        path_lt(b, c),
    ensures
        path_lt(a, c),
    decreases a.len(),
{
    if a.len() > 0 && b.len() > 0 && c.len() > 0 {
        if a[0] == b[0] && b[0] == c[0] {
            lemma_path_transitive(a.drop_first(), b.drop_first(), c.drop_first());
        } else if a[0] != b[0] && b[0] != c[0] {
            lemma_bytes_transitive(a[0], b[0], c[0]);
            lemma_bytes_trichotomy(a[0], c[0]);
        }
    }
}

proof fn lemma_bytes_skip(a: Seq<u8>, b: Seq<u8>, i: int)
    requires
        0 <= i <= a.len(),
        i <= b.len(),
        a.take(i) =~= b.take(i),
    ensures
        bytes_lt(a, b) == bytes_lt(a.skip(i), b.skip(i)),
    decreases i,
{
    if i > 0 {
        assert(a[0] == a.take(i)[0]);
        assert(b[0] == b.take(i)[0]);
        assert(a.drop_first().take(i - 1) =~= b.drop_first().take(i - 1)) by {
            assert forall|k: int| 0 <= k < i - 1 implies a.drop_first()[k] == b.drop_first()[k] by {
                assert(a.take(i)[k + 1] == b.take(i)[k + 1]);
            }
        }
        lemma_bytes_skip(a.drop_first(), b.drop_first(), i - 1);
        assert(a.drop_first().skip(i - 1) =~= a.skip(i));
        assert(b.drop_first().skip(i - 1) =~= b.skip(i));
    } else {
        assert(a.skip(0) =~= a);
        assert(b.skip(0) =~= b);
    }
}

proof fn lemma_path_skip(a: Seq<Seq<u8>>, b: Seq<Seq<u8>>, i: int)
    requires
        0 <= i <= a.len(),
        i <= b.len(),
        a.take(i) =~= b.take(i),
    ensures
        path_lt(a, b) == path_lt(a.skip(i), b.skip(i)),
    decreases i,
{
    if i > 0 {
        assert(a[0] == a.take(i)[0]);
        assert(b[0] == b.take(i)[0]);
        assert(a.drop_first().take(i - 1) =~= b.drop_first().take(i - 1)) by {
            assert forall|k: int| 0 <= k < i - 1 implies a.drop_first()[k] == b.drop_first()[k] by {
                assert(a.take(i)[k + 1] == b.take(i)[k + 1]);
            }
        }
        lemma_path_skip(a.drop_first(), b.drop_first(), i - 1);
        assert(a.drop_first().skip(i - 1) =~= a.skip(i));
        assert(b.drop_first().skip(i - 1) =~= b.skip(i));
    } else {
        assert(a.skip(0) =~= a);
        assert(b.skip(0) =~= b);
    }
}

/// Byte strings are ordered at their first difference, by the bytes as
/// unsigned numbers; a proper prefix comes first; nothing comes before one
/// of its prefixes.
pub proof fn lemma_bytes_lt_first_difference(a: Seq<u8>, b: Seq<u8>, i: int)
    requires
        0 <= i <= a.len(),
        i <= b.len(),
        a.take(i) == b.take(i),
    ensures
        i < a.len() && i < b.len() && a[i] != b[i] ==> (bytes_lt(a, b) <==> (a[i] as int) < (
        b[i] as int)),
        i == a.len() && i < b.len() ==> bytes_lt(a, b),
        i == b.len() ==> !bytes_lt(a, b),
{
    lemma_bytes_skip(a, b, i);
    if i < a.len() {
        assert(a.skip(i)[0] == a[i]);
    }
    if i < b.len() {
        assert(b.skip(i)[0] == b[i]);
    }
}

/// Paths are ordered at their first differing component, by the order of
/// the components; a proper prefix comes first; nothing comes before one of
/// its prefixes.
pub proof fn lemma_path_lt_first_difference(a: Seq<Seq<u8>>, b: Seq<Seq<u8>>, i: int)
    requires
        0 <= i <= a.len(),
        i <= b.len(),
        a.take(i) == b.take(i),
    ensures
        i < a.len() && i < b.len() && a[i] != b[i] ==> (path_lt(a, b) <==> bytes_lt(a[i], b[i])),
        i == a.len() && i < b.len() ==> path_lt(a, b),
        i == b.len() ==> !path_lt(a, b),
{
    lemma_path_skip(a, b, i);
    if i < a.len() {
        assert(a.skip(i)[0] == a[i]);
    }
    if i < b.len() {
        assert(b.skip(i)[0] == b[i]);
    }
}

/// Whether the path component `a` (its bytes) comes strictly before `b`.
pub fn component_lt(a: &Vec<u8>, b: &Vec<u8>) -> (r: bool)
    ensures
        r == bytes_lt(a@, b@),
        forall|i: int|
            0 <= i < a@.len() && i < b@.len() && a@.take(i) == b@.take(i) && a@[i] != b@[i] ==> (r
                <==> a@[i] < b@[i]),
        a@.len() < b@.len() && a@ == b@.take(a@.len() as int) ==> r,
        b@.len() <= a@.len() && b@ == a@.take(b@.len() as int) ==> !r,
{
    let r = bytes_less(a, b);
    proof {
        assert forall|i: int|
            0 <= i < a@.len() && i < b@.len() && a@.take(i) == b@.take(i) && a@[i] != b@[i] implies (
            bytes_lt(a@, b@) <==> a@[i] < b@[i]) by {
            lemma_bytes_lt_first_difference(a@, b@, i);
        }
        if a@.len() < b@.len() && a@ == b@.take(a@.len() as int) {
            assert(a@.take(a@.len() as int) =~= a@);
            lemma_bytes_lt_first_difference(a@, b@, a@.len() as int);
        }
        if b@.len() <= a@.len() && b@ == a@.take(b@.len() as int) {
            assert(b@.take(b@.len() as int) =~= b@);
            lemma_bytes_lt_first_difference(a@, b@, b@.len() as int);
        }
    }
    r
}

fn bytes_less(a: &Vec<u8>, b: &Vec<u8>) -> (r: bool)
    ensures
        r == bytes_lt(a@, b@),
{
    let n = a.len();
    let m = b.len();
    let mut i: usize = 0;
    while i < n && i < m
        invariant
            n == a@.len(),
            m == b@.len(),
            i <= n,
            i <= m,
            a@.take(i as int) =~= b@.take(i as int),
        decreases n - i,
    {
        let ca = a[i];
        let cb = b[i];
        if ca != cb {
            proof {
                lemma_bytes_skip(a@, b@, i as int);
                assert(a@.skip(i as int)[0] == a@[i as int]);
                assert(b@.skip(i as int)[0] == b@[i as int]);
            }
            return ca < cb;
        }
        assert(a@.take(i + 1) =~= a@.take(i as int).push(a@[i as int]));
        assert(b@.take(i + 1) =~= b@.take(i as int).push(b@[i as int]));
        i = i + 1;
    }
    proof {
        lemma_bytes_skip(a@, b@, i as int);
    }
    i == n && i < m
}

/// Whether two path components are equal.
fn component_eq(a: &Vec<u8>, b: &Vec<u8>) -> (r: bool)
    ensures
        r == (a@ == b@),
{
    if a.len() != b.len() {
        return false;
    }
    let mut i: usize = 0;
    while i < a.len()
        invariant
            a@.len() == b@.len(),
            i <= a@.len(),
            forall|k: int| 0 <= k < i ==> a@[k] == b@[k],
        decreases a@.len() - i,
    {
        if a[i] != b[i] {
            return false;
        }
        i = i + 1;
    }
    assert(a@ =~= b@);
    true
}

/// Whether the path with components `a` comes strictly before `b`.
pub fn path_less(a: &Vec<Vec<u8>>, b: &Vec<Vec<u8>>) -> (r: bool)
    ensures
        r == path_lt(path_view(*a), path_view(*b)),
{
    let ghost pa = path_view(*a);
    let ghost pb = path_view(*b);
    let n = a.len();
    let m = b.len();
    let mut i: usize = 0;
    while i < n && i < m
        invariant
            pa == path_view(*a),
            pb == path_view(*b),
            n == pa.len(),
            m == pb.len(),
            i <= n,
            i <= m,
            pa.take(i as int) =~= pb.take(i as int),
        decreases n - i,
    {
        let ca = &a[i];
        let cb = &b[i];
        assert(pa[i as int] == ca@);
        assert(pb[i as int] == cb@);
        if !component_eq(ca, cb) {
            proof {
                lemma_path_skip(pa, pb, i as int);
                assert(pa.skip(i as int)[0] == pa[i as int]);
                assert(pb.skip(i as int)[0] == pb[i as int]);
            }
            return bytes_less(ca, cb);
        }
        assert(pa.take(i + 1) =~= pa.take(i as int).push(pa[i as int]));
        assert(pb.take(i + 1) =~= pb.take(i as int).push(pb[i as int]));
        i = i + 1;
    }
    proof {
        lemma_path_skip(pa, pb, i as int);
    }
    i == n && i < m
}

/// `order` lists every index below `n` exactly once.
pub open spec fn is_permutation(order: Seq<usize>, n: nat) -> bool {
    &&& order.len() == n
    &&& forall|k: int| 0 <= k < order.len() ==> #[trigger] order[k] < n
    &&& forall|a: int, b: int| 0 <= a < b < order.len() ==> order[a] != order[b]
    &&& forall|j: int| 0 <= j < n ==> #[trigger] order.contains(j as usize)
}

/// Listing the paths `keys` in the order `order` is ascending, and paths
/// that are equal keep their original relative order.
pub open spec fn is_stable_path_order(order: Seq<usize>, keys: Seq<Seq<Seq<u8>>>) -> bool {
    &&& forall|a: int, b: int|
        #![trigger order[a], order[b]]
        0 <= a < b < order.len() ==> !path_lt(keys[order[b] as int], keys[order[a] as int])
    &&& forall|a: int, b: int|
        #![trigger order[a], order[b]]
        0 <= a < b < order.len() && keys[order[a] as int] == keys[order[b] as int] ==> order[a]
            < order[b]
}

/// When no two paths are equal (as for the files of a directory walk), the
/// order lists them strictly ascending, so none appears twice.
pub proof fn lemma_distinct_paths_strictly_ordered(order: Seq<usize>, keys: Seq<Seq<Seq<u8>>>)
    requires
        is_permutation(order, keys.len()),
        is_stable_path_order(order, keys),
        forall|i: int, j: int| 0 <= i < keys.len() && 0 <= j < keys.len() && i != j ==> keys[i] != keys[j],
    ensures
        forall|a: int, b: int|
            #![trigger order[a], order[b]]
            0 <= a < b < order.len() ==> path_lt(keys[order[a] as int], keys[order[b] as int]),
{
    assert forall|a: int, b: int|
        #![trigger order[a], order[b]]
        0 <= a < b < order.len() implies path_lt(keys[order[a] as int], keys[order[b] as int]) by {
        let ka = keys[order[a] as int];
        let kb = keys[order[b] as int];
        assert(order[a] != order[b]);
        assert(order[a] < keys.len() && order[b] < keys.len());
        assert(ka != kb);
        assert(!path_lt(kb, ka));
        lemma_path_trichotomy(ka, kb);
    }
}

/// The paths of a list, each as its components.
pub open spec fn paths_view(keys: Seq<Vec<Vec<u8>>>) -> Seq<Seq<Seq<u8>>> {
    keys.map_values(|p: Vec<Vec<u8>>| path_view(p))
}

/// The order in which to list the paths `keys`: ascending path order, ties
/// in their original order (a stable sort).
pub fn path_order(keys: &Vec<Vec<Vec<u8>>>) -> (order: Vec<usize>)
    ensures
        is_permutation(order@, keys@.len()),
        is_stable_path_order(order@, paths_view(keys@)),
{
    let ghost ks = paths_view(keys@);
    let n = keys.len();
    let mut order: Vec<usize> = Vec::new();
    let mut i: usize = 0;
    while i < n
        invariant
            n == keys@.len(),
            ks == paths_view(keys@),
            ks.len() == n,
            i <= n,
            order@.len() == i,
            forall|k: int| 0 <= k < order@.len() ==> #[trigger] order@[k] < i,
            forall|a: int, b: int| 0 <= a < b < order@.len() ==> order@[a] != order@[b],
            forall|j: int| 0 <= j < i ==> #[trigger] order@.contains(j as usize),
            is_stable_path_order(order@, ks),
        decreases n - i,
    {
        let key = &keys[i];
        assert(ks[i as int] == path_view(*key));
        let mut p: usize = 0;
        while p < order.len() && !path_less(key, &keys[order[p]])
            invariant
                n == keys@.len(),
                ks == paths_view(keys@),
                ks.len() == n,
                i < n,
                ks[i as int] == path_view(*key),
                p <= order@.len(),
                forall|k: int| 0 <= k < order@.len() ==> #[trigger] order@[k] < i,
                forall|q: int| 0 <= q < p ==> !path_lt(ks[i as int], #[trigger] ks[order@[q] as int]),
            decreases order@.len() - p,
        {
            p = p + 1;
        }
        let ghost old_order = order@;
        proof {
            if p < old_order.len() {
                assert(path_lt(ks[i as int], ks[old_order[p as int] as int]));
            }
        }
        order.insert(p, i);
        proof {
            assert(order@ =~= old_order.insert(p as int, i));
            assert forall|k: int| 0 <= k < order@.len() implies #[trigger] order@[k] < i + 1 by {
                if k > p {
                    assert(order@[k] == old_order[k - 1]);
                } else if k < p {
                    assert(order@[k] == old_order[k]);
                }
            }
            assert forall|a: int, b: int| 0 <= a < b < order@.len() implies order@[a] != order@[b] by {
                if a < p && b < p {
                    assert(order@[a] == old_order[a] && order@[b] == old_order[b]);
                } else if a < p && b > p {
                    assert(order@[a] == old_order[a] && order@[b] == old_order[b - 1]);
                } else if a > p {
                    assert(order@[a] == old_order[a - 1] && order@[b] == old_order[b - 1]);
                } else if a == p {
                    assert(order@[b] == old_order[b - 1]);
                } else {
                    assert(order@[a] == old_order[a]);
                }
            }
            assert forall|j: int| 0 <= j < i + 1 implies #[trigger] order@.contains(j as usize) by {
                if j == i {
                    assert(order@[p as int] == i);
                } else {
                    assert(old_order.contains(j as usize));
                    let k = choose|k: int| 0 <= k < old_order.len() && old_order[k] == j as usize;
                    if k < p {
                        assert(order@[k] == old_order[k]);
                    } else {
                        assert(order@[k + 1] == old_order[k]);
                    }
                }
            }
            let ki = ks[i as int];
            assert forall|a: int, b: int|
                #![trigger order@[a], order@[b]]
                0 <= a < b < order@.len() implies !path_lt(
                ks[order@[b] as int],
                ks[order@[a] as int],
            ) && (ks[order@[a] as int] == ks[order@[b] as int] ==> order@[a] < order@[b]) by {
                if a < p && b < p {
                    assert(order@[a] == old_order[a] && order@[b] == old_order[b]);
                } else if a < p && b == p {
                    assert(order@[a] == old_order[a]);
                    assert(!path_lt(ki, ks[old_order[a] as int]));
                } else if a < p && b > p {
                    assert(order@[a] == old_order[a] && order@[b] == old_order[b - 1]);
                } else if a > p {
                    assert(order@[a] == old_order[a - 1] && order@[b] == old_order[b - 1]);
                } else {
                    // a == p: the new index, before an old entry at b - 1 >= p
                    assert(order@[b] == old_order[b - 1]);
                    let kp = ks[old_order[p as int] as int];
                    let kb = ks[old_order[b - 1] as int];
                    assert(path_lt(ki, kp));
                    if b - 1 > p {
                        assert(!path_lt(kb, kp));
                        lemma_path_trichotomy(kb, kp);
                        if kb != kp {
                            lemma_path_transitive(ki, kp, kb);
                        }
                    }
                    lemma_path_trichotomy(ki, kb);
                }
            }
        }
        i = i + 1;
    }
    order
}

} // verus!
