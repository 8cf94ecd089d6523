//! Ordering of the duplicate groups for reporting.
//!
//! Only groups with more than one occurrence are reported; they are sorted
//! ascending by one attribute — excess bytes, copies, or function size —
//! selected by configuration. The tie-break is the order the groups were
//! first seen in.

use vstd::prelude::*;
use vstd::multiset::Multiset;

use crate::groups::{GroupModel, SymInfo, excess_of, group_models};

verus! {

broadcast use vstd::seq_lib::group_to_multiset_ensures, vstd::multiset::group_multiset_axioms;

/// The attribute the report is ordered by.
#[derive(Clone, Copy, PartialEq, Eq, Structural, Debug)]
pub enum SortKey {
    /// Order by excess bytes of the group.
    ExcessBytes,
    /// Order by occurrence count.
    Copies,
    /// Order by function size.
    Size,
}

/// The value of the selected attribute for one group.
pub open spec fn measure(g: GroupModel, sort: SortKey) -> int {
    match sort {
        SortKey::ExcessBytes => excess_of(g.count, g.function_size) as int,
        SortKey::Copies => g.count as int,
        SortKey::Size => g.function_size as int,
    }
}

/// Reads the selected attribute of one group.
fn measure_exec(g: &SymInfo, sort: SortKey) -> (r: u64)
    ensures
        r as int == measure(g@, sort),
{
    match sort {
        SortKey::ExcessBytes => g.excess_bytes(),
        SortKey::Copies => g.count,
        SortKey::Size => g.function_size,
    }
}

/// The groups with more than one occurrence, in first-insertion order.
pub open spec fn dups_only(gs: Seq<GroupModel>) -> Seq<GroupModel>
    decreases gs.len(),
{
    if gs.len() == 0 {
        Seq::empty()
    } else {
        let p = dups_only(gs.drop_last());
        if gs.last().count > 1 {
            p.push(gs.last())
        } else {
            p
        }
    }
}

/// Non-decreasing in the selected attribute.
pub open spec fn sorted_by_measure(gs: Seq<GroupModel>, sort: SortKey) -> bool {
    forall|i: int, j: int|
        0 <= i <= j < gs.len() ==> measure(#[trigger] gs[i], sort) <= measure(
            #[trigger] gs[j],
            sort,
        )
}

/// Inserting anywhere adds one occurrence to a sequence's multiset.
proof fn lemma_to_multiset_insert(s: Seq<GroupModel>, j: int, x: GroupModel)
    requires
        0 <= j <= s.len(),
    ensures
        s.insert(j, x).to_multiset() =~= s.to_multiset().insert(x),
{
    let t = s.insert(j, x);
    assert(t.remove(j) =~= s);
    assert(t[j] == x);
    assert(t.contains(x));
    assert(t.remove(j).to_multiset() =~= t.to_multiset().remove(t[j]));
    assert forall|y: GroupModel| s.to_multiset().insert(x).count(y) == t.to_multiset().count(
        y,
    ) by {
        assert(s.to_multiset() == t.to_multiset().remove(x));
        assert(t.to_multiset().count(x) > 0);
    }
}

/// The first position of the sorted prefix `v[..i]` whose attribute exceeds
/// `mx`, or `i`.
fn find_insert_pos(v: &Vec<SymInfo>, i: usize, mx: u64, sort: SortKey) -> (r: usize)
    requires
        i <= v@.len(),
    ensures
        r <= i,
        forall|jj: int|
            0 <= jj < r ==> measure(#[trigger] group_models(v@)[jj], sort) <= mx as int,
        r < i ==> measure(group_models(v@)[r as int], sort) > mx as int,
{
    let mut j: usize = 0;
    while j < i
        invariant
            0 <= j <= i <= v@.len(),
            forall|jj: int|
                0 <= jj < j ==> measure(#[trigger] group_models(v@)[jj], sort) <= mx as int,
        decreases i - j,
    {
        let m = measure_exec(&v[j], sort);
        if m > mx {
            return j;
        }
        proof {
            assert(group_models(v@)[j as int] == v@[j as int]@);
        }
        j += 1;
    }
    i
}

/// Keeps only the groups with duplicates and sorts them ascending by the
/// selected attribute. The result is a permutation of the duplicate groups;
/// singleton groups are left out.
pub fn sorted_duplicates(groups: Vec<SymInfo>, sort: SortKey) -> (r: Vec<SymInfo>)
    ensures
        sorted_by_measure(group_models(r@), sort),
        group_models(r@).to_multiset() == dups_only(group_models(groups@)).to_multiset(),
        forall|i: int| 0 <= i < r@.len() ==> (#[trigger] group_models(r@)[i]).count > 1,
{
    let ghost gs0 = group_models(groups@);
    let mut rest = groups;
    let mut kept: Vec<SymInfo> = Vec::new();
    proof {
        assert(group_models(rest@) =~= gs0.take(rest@.len() as int));
        assert(group_models(kept@) =~= Seq::<GroupModel>::empty());
        assert(Seq::<GroupModel>::empty().to_multiset() =~= Multiset::<GroupModel>::empty());
    }
    while rest.len() > 0
        invariant
            rest@.len() <= gs0.len(),
            group_models(rest@) == gs0.take(rest@.len() as int),
            group_models(kept@).to_multiset().add(
                dups_only(gs0.take(rest@.len() as int)).to_multiset(),
            ) == dups_only(gs0).to_multiset(),
            forall|i: int| 0 <= i < kept@.len() ==> (#[trigger] group_models(kept@)[i]).count > 1,
        decreases rest@.len(),
    {
        let ghost m = rest@.len() as int;
        let g = match rest.pop() {
            Some(g) => g,
            None => {
                proof {
                    assert(false);
                }
                return kept;
            },
        };
        let ghost gv = g;
        proof {
            assert(group_models(rest@) =~= gs0.take(m).drop_last());
            assert(gs0.take(m).drop_last() =~= gs0.take(m - 1));
            assert(gs0.take(m).last() == gv@);
            assert(dups_only(gs0.take(m)) == if gv@.count > 1 {
                dups_only(gs0.take(m - 1)).push(gv@)
            } else {
                dups_only(gs0.take(m - 1))
            });
        }
        if g.count > 1 {
            let ghost km = group_models(kept@);
            kept.push(g);
            proof {
                assert(group_models(kept@) =~= km.push(gv@));
                assert(km.push(gv@).to_multiset() =~= km.to_multiset().insert(gv@));
                assert(dups_only(gs0.take(m - 1)).push(gv@).to_multiset() =~= dups_only(
                    gs0.take(m - 1),
                ).to_multiset().insert(gv@));
                assert(group_models(kept@).to_multiset().add(
                    dups_only(gs0.take(m - 1)).to_multiset(),
                ) =~= dups_only(gs0).to_multiset());
            }
        }
    }
    proof {
        assert(gs0.take(0) =~= Seq::<GroupModel>::empty());
        assert(dups_only(Seq::<GroupModel>::empty()).to_multiset() =~= Multiset::<
            GroupModel,
        >::empty());
        assert(group_models(kept@).to_multiset() =~= dups_only(gs0).to_multiset());
    }
    let ghost ms0 = group_models(kept@).to_multiset();
    let mut v = kept;
    if v.len() <= 1 {
        return v;
    }
    let mut i: usize = 1;
    while i < v.len()
        invariant
            1 <= i <= v@.len(),
            group_models(v@).to_multiset() == ms0,
            ms0 == dups_only(gs0).to_multiset(),
            sorted_by_measure(group_models(v@).take(i as int), sort),
            forall|x: int| 0 <= x < v@.len() ==> (#[trigger] group_models(v@)[x]).count > 1,
        decreases v@.len() - i,
    {
        let ghost pre = group_models(v@);
        let x = v.remove(i);
        let ghost xv = x@;
        let mx = measure_exec(&x, sort);
        proof {
            assert(group_models(v@) =~= pre.remove(i as int));
            assert(pre.remove(i as int).to_multiset() =~= pre.to_multiset().remove(pre[i as int]));
            assert(forall|t: int|
                0 <= t < i ==> group_models(v@)[t] == #[trigger] pre[t]);
        }
        let pos = find_insert_pos(&v, i, mx, sort);
        let ghost mid = group_models(v@);
        v.insert(pos, x);
        proof {
            assert(group_models(v@) =~= mid.insert(pos as int, xv));
            lemma_to_multiset_insert(mid, pos as int, xv);
            assert(mid.to_multiset().insert(xv) =~= pre.to_multiset());
            assert(group_models(v@).to_multiset() =~= ms0);
            let now = group_models(v@);
            assert forall|a: int, b: int| 0 <= a <= b < i + 1 implies measure(
                #[trigger] now[a],
                sort,
            ) <= measure(#[trigger] now[b], sort) by {
                if a == b {
                } else if b < pos as int {
                    assert(now[a] == mid[a] && now[b] == mid[b]);
                } else if b == pos as int {
                    if a < pos as int {
                        assert(now[a] == mid[a]);
                        assert(measure(mid[a], sort) <= mx as int);
                        assert(now[b] == xv);
                    }
                } else {
                    assert(now[b] == mid[b - 1]);
                    assert(pos as int <= b - 1 < i);
                    assert(pos < i);
                    assert(measure(mid[pos as int], sort) > mx as int);
                    assert(measure(mid[pos as int], sort) <= measure(mid[b - 1], sort));
                    if a < pos as int {
                        assert(now[a] == mid[a]);
                        assert(measure(mid[a], sort) <= mx as int);
                    } else if a == pos as int {
                        assert(now[a] == xv);
                    } else {
                        assert(now[a] == mid[a - 1]);
                        assert(measure(mid[a - 1], sort) <= measure(mid[b - 1], sort));
                    }
                }
            }
            assert(sorted_by_measure(group_models(v@).take(i + 1), sort));
        }
        i += 1;
    }
    proof {
        assert(group_models(v@).take(v@.len() as int) =~= group_models(v@));
    }
    v
}

} // verus!
