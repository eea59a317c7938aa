//! Grouping the listed photos into albums, one album per directory
//! (relative to the input directory) that holds photos.

use vstd::prelude::*;
use crate::ordering::path_lt;

verus! {

/// The photos of one directory: the directory relative to the input
/// directory (empty for the input directory itself) and the positions of its
/// photos in the list, ascending.
#[derive(Debug)]
pub struct DirGroup {
    pub rel_dir: String,
    pub members: Vec<usize>,
}

/// The texts of a list of strings.
pub open spec fn texts_view(v: Seq<String>) -> Seq<Seq<char>> {
    v.map_values(|s: String| s@)
}

/// `groups` partitions the positions of `dirs` by directory: one group per
/// distinct directory, none empty, each listing (ascending) exactly the
/// positions whose directory is its own.
pub open spec fn is_dir_partition(groups: Seq<DirGroup>, dirs: Seq<Seq<char>>) -> bool {
    &&& forall|a: int, b: int|
        #![trigger groups[a], groups[b]]
        0 <= a < b < groups.len() ==> groups[a].rel_dir@ != groups[b].rel_dir@
    &&& forall|g: int| 0 <= g < groups.len() ==> #[trigger] groups[g].members@.len() > 0
    &&& forall|g: int, k: int|
        #![trigger groups[g].members@[k]]
        0 <= g < groups.len() && 0 <= k < groups[g].members@.len() ==> {
            &&& groups[g].members@[k] < dirs.len()
            &&& dirs[groups[g].members@[k] as int] == groups[g].rel_dir@
        }
    &&& forall|g: int, k1: int, k2: int|
        #![trigger groups[g].members@[k1], groups[g].members@[k2]]
        0 <= g < groups.len() && 0 <= k1 < k2 < groups[g].members@.len()
            ==> groups[g].members@[k1] < groups[g].members@[k2]
    &&& forall|j: int| 0 <= j < dirs.len() ==> #[trigger] in_some_group(groups, j)
}

/// Position `j` is listed by one of the groups.
pub open spec fn in_some_group(groups: Seq<DirGroup>, j: int) -> bool {
    exists|g: int| 0 <= g < groups.len() && #[trigger] groups[g].members@.contains(j as usize)
}

/// The groups come in the order in which their directories first appear.
pub open spec fn in_first_appearance_order(groups: Seq<DirGroup>) -> bool {
    forall|a: int, b: int|
        #![trigger groups[a], groups[b]]
        0 <= a < b < groups.len() ==> groups[a].members@[0] < groups[b].members@[0]
}

/// When the listing is in path order (as `path_order` leaves it), the photos
/// of every group are in path order too, so an album's records follow the
/// path order of its photos.
pub proof fn lemma_members_in_path_order(
    listing: Seq<Seq<Seq<u8>>>,
    groups: Seq<DirGroup>,
    dirs: Seq<Seq<char>>,
    g: int,
)
    requires
        is_dir_partition(groups, dirs),
        listing.len() == dirs.len(),
        forall|a: int, b: int| 0 <= a < b < listing.len() ==> !path_lt(#[trigger] listing[b], #[trigger] listing[a]),
        0 <= g < groups.len(),
    ensures
        forall|k1: int, k2: int|
            0 <= k1 < k2 < groups[g].members@.len() ==> !path_lt(
                listing[groups[g].members@[k2] as int],
                listing[groups[g].members@[k1] as int],
            ),
{
    assert forall|k1: int, k2: int|
        0 <= k1 < k2 < groups[g].members@.len() implies !path_lt(
        listing[groups[g].members@[k2] as int],
        listing[groups[g].members@[k1] as int],
    ) by {
        let m1 = groups[g].members@[k1] as int;
        let m2 = groups[g].members@[k2] as int;
        assert(m1 < m2);
        assert(m2 < dirs.len());
        assert(!path_lt(listing[m2], listing[m1]));
    }
}

/// Some of the first `i` photos has directory number `g`.
spec fn has_member(assign: Seq<usize>, i: int, g: int) -> bool {
    exists|j: int| 0 <= j < i && #[trigger] assign[j] == g
}

/// Appending to the assignment keeps what earlier prefixes hold.
proof fn lemma_has_member_push(assign: Seq<usize>, v: usize, i: int)
    requires
        i == assign.len(),
    ensures
        forall|j: int, q: int| 0 <= j <= i ==> (has_member(assign.push(v), j, q) == has_member(assign, j, q)),
{
    assert forall|j: int, q: int| 0 <= j <= i implies (has_member(assign.push(v), j, q) == has_member(assign, j, q)) by {
        if has_member(assign, j, q) {
            let w = choose|w: int| 0 <= w < j && #[trigger] assign[w] == q;
            assert(assign.push(v)[w] == q);
        }
        if has_member(assign.push(v), j, q) {
            let w = choose|w: int| 0 <= w < j && #[trigger] assign.push(v)[w] == q;
            assert(assign[w] == q);
        }
    }
}

/// Position of `d` among `dirs`, if it is there.
fn find_dir(dirs: &Vec<String>, d: &String) -> (r: Option<usize>)
    ensures
        match r {
            Some(g) => g < dirs@.len() && dirs@[g as int]@ == d@,
            None => forall|g: int| 0 <= g < dirs@.len() ==> #[trigger] dirs@[g]@ != d@,
        },
{
    let mut g: usize = 0;
    while g < dirs.len()
        invariant
            g <= dirs@.len(),
            forall|q: int| 0 <= q < g ==> #[trigger] dirs@[q]@ != d@,
        decreases dirs@.len() - g,
    {
        if dirs[g] == *d {
            return Some(g);
        }
        g = g + 1;
    }
    None
}

/// Groups the photos by directory: `rel_dirs[i]` is the directory of the
/// photo at position `i` of the list.
pub fn group_by_dir(rel_dirs: &Vec<String>) -> (groups: Vec<DirGroup>)
    ensures
        is_dir_partition(groups@, texts_view(rel_dirs@)),
        in_first_appearance_order(groups@),
{
    let ghost ds = texts_view(rel_dirs@);
    let n = rel_dirs.len();
    // The distinct directories, and for each photo the index of its own.
    let mut dirs: Vec<String> = Vec::new();
    let mut assign: Vec<usize> = Vec::new();
    let mut i: usize = 0;
    while i < n
        invariant
            n == rel_dirs@.len(),
            ds == texts_view(rel_dirs@),
            ds.len() == n,
            i <= n,
            assign@.len() == i,
            forall|j: int| 0 <= j < i ==> #[trigger] assign@[j] < dirs@.len(),
            forall|j: int| 0 <= j < i ==> dirs@[#[trigger] assign@[j] as int]@ == ds[j],
            forall|a: int, b: int| 0 <= a < b < dirs@.len() ==> dirs@[a]@ != dirs@[b]@,
            forall|g: int| 0 <= g < dirs@.len() ==> #[trigger] has_member(assign@, i as int, g),
            forall|j: int, q: int|
                0 <= j < i && 0 <= q < assign@[j] ==> #[trigger] has_member(assign@, j, q),
        decreases n - i,
    {
        let d = &rel_dirs[i];
        assert(ds[i as int] == d@);
        let ghost old_assign = assign@;
        match find_dir(&dirs, d) {
            Some(g) => {
                assign.push(g);
                assert(assign@[i as int] == g);
                proof { lemma_has_member_push(old_assign, g, i as int); }
                assert forall|j: int, q: int| 0 <= j < i + 1 && 0 <= q < assign@[j] implies #[trigger] has_member(
                    assign@,
                    j,
                    q,
                ) by {
                    if j < i {
                        assert(assign@[j] == old_assign[j]);
                        assert(has_member(old_assign, j, q));
                    } else {
                        assert(has_member(old_assign, i as int, q));
                    }
                }
                assert forall|q: int| 0 <= q < dirs@.len() implies #[trigger] has_member(
                    assign@,
                    i + 1,
                    q,
                ) by {
                    assert(has_member(old_assign, i as int, q));
                    let j0 = choose|j: int| 0 <= j < i && #[trigger] old_assign[j] == q;
                    assert(assign@[j0] == q);
                }
            },
            None => {
                let g = dirs.len();
                dirs.push(d.clone());
                assign.push(g);
                assert(assign@[i as int] == g);
                proof { lemma_has_member_push(old_assign, g, i as int); }
                assert forall|j: int, q: int| 0 <= j < i + 1 && 0 <= q < assign@[j] implies #[trigger] has_member(
                    assign@,
                    j,
                    q,
                ) by {
                    if j < i {
                        assert(assign@[j] == old_assign[j]);
                        assert(has_member(old_assign, j, q));
                    } else {
                        assert(has_member(old_assign, i as int, q));
                    }
                }
                assert forall|q: int| 0 <= q < dirs@.len() implies #[trigger] has_member(
                    assign@,
                    i + 1,
                    q,
                ) by {
                    if q < g {
                        assert(has_member(old_assign, i as int, q));
                        let j0 = choose|j: int| 0 <= j < i && #[trigger] old_assign[j] == q;
                        assert(assign@[j0] == q);
                    } else {
                        assert(assign@[i as int] == q);
                    }
                }
            },
        }
        i = i + 1;
    }
    let mut groups: Vec<DirGroup> = Vec::new();
    let m = dirs.len();
    let mut g: usize = 0;
    while g < m
        invariant
            n == rel_dirs@.len(),
            ds == texts_view(rel_dirs@),
            ds.len() == n,
            m == dirs@.len(),
            assign@.len() == n,
            g <= m,
            groups@.len() == g,
            forall|j: int| 0 <= j < n ==> #[trigger] assign@[j] < m,
            forall|j: int| 0 <= j < n ==> dirs@[#[trigger] assign@[j] as int]@ == ds[j],
            forall|a: int, b: int| 0 <= a < b < m ==> dirs@[a]@ != dirs@[b]@,
            forall|q: int| 0 <= q < m ==> #[trigger] has_member(assign@, n as int, q),
            forall|j: int, q: int|
                0 <= j < n && 0 <= q < assign@[j] ==> #[trigger] has_member(assign@, j, q),
            forall|q: int| 0 <= q < g ==> #[trigger] groups@[q].rel_dir@ == dirs@[q]@,
            forall|q: int| 0 <= q < g ==> #[trigger] groups@[q].members@.len() > 0,
            forall|q: int, k: int|
                #![trigger groups@[q].members@[k]]
                0 <= q < g && 0 <= k < groups@[q].members@.len() ==> groups@[q].members@[k] < n
                    && assign@[groups@[q].members@[k] as int] == q,
            forall|q: int, k1: int, k2: int|
                #![trigger groups@[q].members@[k1], groups@[q].members@[k2]]
                0 <= q < g && 0 <= k1 < k2 < groups@[q].members@.len()
                    ==> groups@[q].members@[k1] < groups@[q].members@[k2],
            forall|j: int|
                0 <= j < n && #[trigger] assign@[j] < g ==> groups@[assign@[j] as int].members@.contains(
                    j as usize,
                ),
        decreases m - g,
    {
        let mut members: Vec<usize> = Vec::new();
        let mut j: usize = 0;
        while j < n
            invariant
                n == assign@.len(),
                g < m,
                j <= n,
                forall|k: int| 0 <= k < members@.len() ==> #[trigger] members@[k] < j,
                forall|k: int| 0 <= k < members@.len() ==> assign@[#[trigger] members@[k] as int] == g,
                forall|k1: int, k2: int|
                    #![trigger members@[k1], members@[k2]]
                    0 <= k1 < k2 < members@.len() ==> members@[k1] < members@[k2],
                forall|q: int| 0 <= q < j && #[trigger] assign@[q] == g ==> members@.contains(q as usize),
            decreases n - j,
        {
            let ghost old_members = members@;
            if assign[j] == g {
                members.push(j);
                assert(members@[members@.len() - 1] == j);
                assert forall|q: int| 0 <= q < j + 1 && #[trigger] assign@[q] == g implies members@.contains(
                    q as usize,
                ) by {
                    if q < j {
                        assert(old_members.contains(q as usize));
                        let k = choose|k: int| 0 <= k < old_members.len() && old_members[k] == q as usize;
                        assert(members@[k] == q as usize);
                    } else {
                        assert(members@[members@.len() - 1] == q as usize);
                    }
                }
            }
            j = j + 1;
        }
        proof {
            assert(has_member(assign@, n as int, g as int));
            let j0 = choose|j: int| 0 <= j < n && #[trigger] assign@[j] == g;
            assert(members@.contains(j0 as usize));
        }
        let ghost new_members = members@;
        assert(new_members.len() > 0);
        let ghost old_groups = groups@;
        groups.push(DirGroup { rel_dir: dirs[g].clone(), members });
        assert(groups@[g as int].members@ == new_members);
        proof {
            assert forall|q: int| 0 <= q < g + 1 implies #[trigger] groups@[q].rel_dir@ == dirs@[q]@ by {
                if q < g {
                    assert(groups@[q] == old_groups[q]);
                }
            }
            assert forall|q: int| 0 <= q < g + 1 implies #[trigger] groups@[q].members@.len() > 0 by {
                if q < g {
                    assert(groups@[q] == old_groups[q]);
                    assert(old_groups[q].members@.len() > 0);
                } else {
                    assert(groups@[q].members@ == new_members);
                }
            }
            assert forall|q: int, k: int|
                #![trigger groups@[q].members@[k]]
                0 <= q < g + 1 && 0 <= k < groups@[q].members@.len() implies groups@[q].members@[k] < n
                    && assign@[groups@[q].members@[k] as int] == q by {
                if q < g {
                    assert(groups@[q] == old_groups[q]);
                }
            }
            assert forall|jj: int|
                0 <= jj < n && #[trigger] assign@[jj] < g + 1 implies groups@[assign@[jj] as int].members@.contains(
                jj as usize,
            ) by {
                if assign@[jj] < g {
                    assert(groups@[assign@[jj] as int] == old_groups[assign@[jj] as int]);
                }
            }
        }
        g = g + 1;
    }
    proof {
        assert forall|a: int, b: int|
            #![trigger groups@[a], groups@[b]]
            0 <= a < b < groups@.len() implies groups@[a].rel_dir@ != groups@[b].rel_dir@ by {
            assert(groups@[a].rel_dir@ == dirs@[a]@);
            assert(groups@[b].rel_dir@ == dirs@[b]@);
        }
        assert forall|q: int, k: int|
            #![trigger groups@[q].members@[k]]
            0 <= q < groups@.len() && 0 <= k < groups@[q].members@.len() implies {
                &&& groups@[q].members@[k] < ds.len()
                &&& ds[groups@[q].members@[k] as int] == groups@[q].rel_dir@
            } by {
            let j = groups@[q].members@[k] as int;
            assert(assign@[j] == q);
            assert(dirs@[assign@[j] as int]@ == ds[j]);
            assert(groups@[q].rel_dir@ == dirs@[q]@);
        }
        assert forall|j: int| 0 <= j < ds.len() implies #[trigger] in_some_group(groups@, j) by {
            assert(assign@[j] < g);
            let q = assign@[j] as int;
            assert(0 <= q < groups@.len());
            assert(groups@[q].members@.contains(j as usize));
        }
        assert forall|a: int, b: int|
            #![trigger groups@[a], groups@[b]]
            0 <= a < b < groups@.len() implies groups@[a].members@[0] < groups@[b].members@[0] by {
            let jb = groups@[b].members@[0] as int;
            assert(assign@[jb] == b);
            assert(has_member(assign@, jb, a));
            let w = choose|w: int| 0 <= w < jb && #[trigger] assign@[w] == a;
            assert(assign@[w] < g);
            assert(groups@[a].members@.contains(w as usize));
            let k = choose|k: int| 0 <= k < groups@[a].members@.len() && groups@[a].members@[k] == w as usize;
            if k > 0 {
                assert(groups@[a].members@[0] < groups@[a].members@[k]);
            }
        }
    }
    groups
}

/// Each photo belongs to exactly one album: the positions of two groups of a
/// partition never overlap.
pub proof fn lemma_groups_disjoint(groups: Seq<DirGroup>, dirs: Seq<Seq<char>>, a: int, b: int, j: usize)
    requires
        is_dir_partition(groups, dirs),
        0 <= a < groups.len(),
        0 <= b < groups.len(),
        groups[a].members@.contains(j),
        groups[b].members@.contains(j),
    ensures
        a == b,
{
    let ka = choose|k: int| 0 <= k < groups[a].members@.len() && groups[a].members@[k] == j;
    let kb = choose|k: int| 0 <= k < groups[b].members@.len() && groups[b].members@[k] == j;
    assert(dirs[groups[a].members@[ka] as int] == groups[a].rel_dir@);
    assert(dirs[groups[b].members@[kb] as int] == groups[b].rel_dir@);
    if a < b {
        assert(groups[a].rel_dir@ != groups[b].rel_dir@);
    } else if b < a {
        assert(groups[b].rel_dir@ != groups[a].rel_dir@);
    }
}

} // verus!
