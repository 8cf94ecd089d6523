//! The library's stated laws: what the grouping pass guarantees about its
//! result, proved once and for all over the ghost model.

use vstd::prelude::*;

use crate::analyze::AnalysisModel;
use crate::analyze::analysis_model;
use crate::groups::{
    DemangleMode, GroupModel, bump_group, bump_names, excess_of, find_group, find_name,
    groups_of, init_names, key_is, name_is, new_group, spec_display_name,
};
use crate::keys::{KeyModel, KeyStrategy, spec_key};
use crate::model::{SectionModel, SymbolModel, eligible, find_first, lemma_find_first};
use crate::sorting::dups_only;
use crate::summary::{group_excess, total_excess};

verus! {

/// `find_first` is pinned by any witness index that is a first match.
proof fn lemma_find_first_unique<A>(s: Seq<A>, p: spec_fn(A) -> bool, i: int)
    requires
        0 <= i < s.len(),
        p(s[i]),
        forall|j: int| 0 <= j < i ==> !p(#[trigger] s[j]),
    ensures
        find_first(s, p) == i,
{
    lemma_find_first(s, p);
    let f = find_first(s, p);
    if f == -1 {
        assert(!p(s[i]));
        assert(false);
    } else if f < i {
        assert(!p(s[f]));
        assert(false);
    } else if f > i {
        assert(!p(s[i]));
        assert(false);
    }
}

/// `find_first` returns -1 where no element matches.
proof fn lemma_find_first_none<A>(s: Seq<A>, p: spec_fn(A) -> bool)
    requires
        forall|j: int| 0 <= j < s.len() ==> !p(#[trigger] s[j]),
    ensures
        find_first(s, p) == -1,
{
    lemma_find_first(s, p);
    let f = find_first(s, p);
    if f >= 0 {
        assert(p(s[f]));
        assert(false);
    }
}

/// How many symbols of the table are considered and derive exactly key `k`.
pub open spec fn count_with_key(
    secs: Seq<SectionModel>,
    max_addr: u64,
    strategy: KeyStrategy,
    syms: Seq<SymbolModel>,
    k: KeyModel,
) -> nat
    decreases syms.len(),
{
    if syms.len() == 0 {
        0nat
    } else {
        count_with_key(secs, max_addr, strategy, syms.drop_last(), k) + (
        if eligible(syms.last()) && spec_key(secs, max_addr, strategy, syms.last()) == Some(k) {
            1nat
        } else {
            0nat
        })
    }
}

/// No two groups of a pass share a key.
pub proof fn lemma_group_keys_distinct(
    secs: Seq<SectionModel>,
    max_addr: u64,
    strategy: KeyStrategy,
    mode: DemangleMode,
    syms: Seq<SymbolModel>,
)
    ensures
        ({
            let gs = groups_of(secs, max_addr, strategy, mode, syms);
            forall|a: int, b: int|
                0 <= a < b < gs.len() ==> (#[trigger] gs[a]).key != (#[trigger] gs[b]).key
        }),
    decreases syms.len(),
{
    if syms.len() == 0 {
    } else {
        lemma_group_keys_distinct(secs, max_addr, strategy, mode, syms.drop_last());
        let prev = groups_of(secs, max_addr, strategy, mode, syms.drop_last());
        let gs = groups_of(secs, max_addr, strategy, mode, syms);
        let s = syms.last();
        if eligible(s) && spec_key(secs, max_addr, strategy, s) is Some {
            let k = spec_key(secs, max_addr, strategy, s)->Some_0;
            lemma_find_first(prev, key_is(k));
            let f = find_group(prev, k);
            if f < 0 {
                assert forall|a: int, b: int| 0 <= a < b < gs.len() implies (
                #[trigger] gs[a]).key != (#[trigger] gs[b]).key by {
                    if b == prev.len() {
                        assert(!(key_is(k)(prev[a])));
                        assert(gs[a] == prev[a]);
                        assert(gs[b].key == k);
                    } else {
                        assert(gs[a] == prev[a] && gs[b] == prev[b]);
                    }
                }
            } else {
                assert forall|a: int, b: int| 0 <= a < b < gs.len() implies (
                #[trigger] gs[a]).key != (#[trigger] gs[b]).key by {
                    assert(gs[a].key == prev[a].key);
                    assert(gs[b].key == prev[b].key);
                }
            }
        }
    }
}

/// The group a key maps to counts exactly the considered symbols that
/// derive that key: there is a group for `k` exactly when some considered
/// symbol derives `k`, and its occurrence count is the number of them.
pub proof fn lemma_group_count(
    secs: Seq<SectionModel>,
    max_addr: u64,
    strategy: KeyStrategy,
    mode: DemangleMode,
    syms: Seq<SymbolModel>,
    k: KeyModel,
)
    ensures
        ({
            let gs = groups_of(secs, max_addr, strategy, mode, syms);
            let f = find_group(gs, k);
            let c = count_with_key(secs, max_addr, strategy, syms, k);
            &&& (f == -1 <==> c == 0)
            &&& (f >= 0 ==> f < gs.len() && gs[f].key == k && gs[f].count == c)
        }),
    decreases syms.len(),
{
    let gs = groups_of(secs, max_addr, strategy, mode, syms);
    let c = count_with_key(secs, max_addr, strategy, syms, k);
    if syms.len() == 0 {
        lemma_find_first_none(gs, key_is(k));
    } else {
        let tail = syms.drop_last();
        lemma_group_count(secs, max_addr, strategy, mode, tail, k);
        let prev = groups_of(secs, max_addr, strategy, mode, tail);
        let pf = find_group(prev, k);
        let pc = count_with_key(secs, max_addr, strategy, tail, k);
        let s = syms.last();
        if eligible(s) && spec_key(secs, max_addr, strategy, s) is Some {
            let ks = spec_key(secs, max_addr, strategy, s)->Some_0;
            lemma_find_first(prev, key_is(ks));
            let fs = find_group(prev, ks);
            if fs < 0 {
                // a fresh group for ks is appended
                let x = new_group(ks, s, crate::groups::spec_display_name(mode, s.name));
                assert(gs == prev.push(x));
                if ks == k {
                    assert forall|j: int| 0 <= j < prev.len() implies !(key_is(k)(
                        #[trigger] gs[j],
                    )) by {
                        assert(gs[j] == prev[j]);
                        assert(!(key_is(k)(prev[j])));
                    }
                    lemma_find_first_unique(gs, key_is(k), prev.len() as int);
                    assert(pf == -1 && pc == 0);
                    assert(gs[prev.len() as int].count == 1);
                } else {
                    lemma_find_first(prev, key_is(k));
                    if pf == -1 {
                        assert forall|j: int| 0 <= j < gs.len() implies !(key_is(k)(
                            #[trigger] gs[j],
                        )) by {
                            if j < prev.len() {
                                assert(gs[j] == prev[j]);
                                assert(!(key_is(k)(prev[j])));
                            } else {
                                assert(gs[j].key == ks);
                            }
                        }
                        lemma_find_first_none(gs, key_is(k));
                    } else {
                        lemma_find_first(prev, key_is(k));
                        assert(gs[pf] == prev[pf]);
                        assert forall|j: int| 0 <= j < pf implies !(key_is(k)(
                            #[trigger] gs[j],
                        )) by {
                            assert(gs[j] == prev[j]);
                        }
                        lemma_find_first_unique(gs, key_is(k), pf);
                    }
                }
            } else {
                // the first group with ks is bumped in place
                assert(gs == prev.update(
                    fs,
                    bump_group(prev[fs], crate::groups::spec_display_name(mode, s.name)),
                ));
                assert(gs.len() == prev.len());
                assert(forall|t: int|
                    0 <= t < gs.len() ==> (#[trigger] gs[t]).key == prev[t].key);
                if ks == k {
                    assert(key_is(k)(gs[fs]));
                    assert forall|j: int| 0 <= j < fs implies !(key_is(k)(#[trigger] gs[j])) by {
                        assert(!(key_is(ks)(prev[j])));
                        assert(gs[j].key == prev[j].key);
                    }
                    lemma_find_first_unique(gs, key_is(k), fs);
                    assert(pf == fs);
                    assert(gs[fs].count == prev[fs].count + 1);
                } else {
                    if pf == -1 {
                        lemma_find_first(prev, key_is(k));
                        assert forall|j: int| 0 <= j < gs.len() implies !(key_is(k)(
                            #[trigger] gs[j],
                        )) by {
                            assert(gs[j].key == prev[j].key);
                            assert(!(key_is(k)(prev[j])));
                        }
                        lemma_find_first_none(gs, key_is(k));
                    } else {
                        lemma_find_first(prev, key_is(k));
                        assert(key_is(k)(gs[pf]));
                        assert(pf != fs);
                        assert forall|j: int| 0 <= j < pf implies !(key_is(k)(
                            #[trigger] gs[j],
                        )) by {
                            assert(gs[j].key == prev[j].key);
                            assert(!(key_is(k)(prev[j])));
                        }
                        lemma_find_first_unique(gs, key_is(k), pf);
                        assert(gs[pf].count == prev[pf].count);
                    }
                }
            }
        } else {
            assert(gs == prev);
            assert(c == pc);
        }
    }
}

/// At least one considered symbol derives `k` where one index witnesses it.
proof fn lemma_count_at_least_one(
    secs: Seq<SectionModel>,
    max_addr: u64,
    strategy: KeyStrategy,
    syms: Seq<SymbolModel>,
    a: int,
    k: KeyModel,
)
    requires
        0 <= a < syms.len(),
        eligible(syms[a]),
        spec_key(secs, max_addr, strategy, syms[a]) == Some(k),
    ensures
        count_with_key(secs, max_addr, strategy, syms, k) >= 1,
    decreases syms.len(),
{
    if a == syms.len() - 1 {
    } else {
        assert(syms.drop_last()[a] == syms[a]);
        lemma_count_at_least_one(secs, max_addr, strategy, syms.drop_last(), a, k);
    }
}

/// At least two considered symbols derive `k` where two indices witness it.
proof fn lemma_count_at_least_two(
    secs: Seq<SectionModel>,
    max_addr: u64,
    strategy: KeyStrategy,
    syms: Seq<SymbolModel>,
    a: int,
    b: int,
    k: KeyModel,
)
    requires
        0 <= a < b < syms.len(),
        eligible(syms[a]),
        eligible(syms[b]),
        spec_key(secs, max_addr, strategy, syms[a]) == Some(k),
        spec_key(secs, max_addr, strategy, syms[b]) == Some(k),
    ensures
        count_with_key(secs, max_addr, strategy, syms, k) >= 2,
    decreases syms.len(),
{
    if b == syms.len() - 1 {
        assert(syms.drop_last()[a] == syms[a]);
        lemma_count_at_least_one(secs, max_addr, strategy, syms.drop_last(), a, k);
    } else {
        assert(syms.drop_last()[a] == syms[a]);
        assert(syms.drop_last()[b] == syms[b]);
        lemma_count_at_least_two(secs, max_addr, strategy, syms.drop_last(), a, b, k);
    }
}

/// Two considered symbols that derive the same comparison key — whatever
/// their original addresses — are counted by exactly one group of the pass:
/// it carries their key, no other group does, and it holds both occurrences.
pub proof fn lemma_duplicates_share_one_group(
    secs: Seq<SectionModel>,
    max_addr: u64,
    strategy: KeyStrategy,
    mode: DemangleMode,
    syms: Seq<SymbolModel>,
    a: int,
    b: int,
    k: KeyModel,
)
    requires
        0 <= a < syms.len(),
        0 <= b < syms.len(),
        a != b,
        eligible(syms[a]),
        eligible(syms[b]),
        spec_key(secs, max_addr, strategy, syms[a]) == Some(k),
        spec_key(secs, max_addr, strategy, syms[b]) == Some(k),
    ensures
        ({
            let gs = groups_of(secs, max_addr, strategy, mode, syms);
            let f = find_group(gs, k);
            &&& 0 <= f < gs.len()
            &&& gs[f].key == k
            &&& gs[f].count >= 2
            &&& forall|t: int| 0 <= t < gs.len() && t != f ==> (#[trigger] gs[t]).key != k
        }),
{
    let gs = groups_of(secs, max_addr, strategy, mode, syms);
    lemma_group_count(secs, max_addr, strategy, mode, syms, k);
    if a < b {
        lemma_count_at_least_two(secs, max_addr, strategy, syms, a, b, k);
    } else {
        lemma_count_at_least_two(secs, max_addr, strategy, syms, b, a, k);
    }
    lemma_group_keys_distinct(secs, max_addr, strategy, mode, syms);
    let f = find_group(gs, k);
    assert forall|t: int| 0 <= t < gs.len() && t != f implies (#[trigger] gs[t]).key != k by {
        if t < f {
            assert(gs[t].key != gs[f].key);
        } else {
            assert(gs[f].key != gs[t].key);
        }
    }
}

/// A group's excess bytes are exactly (occurrence count − 1) × function
/// size wherever that product fits the reported counter, and zero for a
/// group with a single occurrence.
pub proof fn lemma_excess_exact(count: nat, size: u64)
    requires
        count >= 1,
        (count - 1) * size < u64::MAX,
    ensures
        excess_of(count, size) == (count - 1) * size,
        count == 1 ==> excess_of(count, size) == 0,
{
    if count == 1 {
        assert((count - 1) * size == 0) by (nonlinear_arith)
            requires count == 1;
    }
}

/// Singleton groups contribute nothing: the total excess bytes over all
/// groups equal the total over the duplicate groups alone, so the reported
/// total covers the groups that are not individually printed.
pub proof fn lemma_total_excess_drops_singletons(gs: Seq<GroupModel>)
    ensures
        total_excess(gs) == total_excess(dups_only(gs)),
    decreases gs.len(),
{
    if gs.len() == 0 {
    } else {
        lemma_total_excess_drops_singletons(gs.drop_last());
        let p = dups_only(gs.drop_last());
        if gs.last().count > 1 {
            assert(dups_only(gs) == p.push(gs.last()));
            assert(p.push(gs.last()).drop_last() =~= p);
            assert(total_excess(p.push(gs.last())) == total_excess(p) + group_excess(
                gs.last(),
            ));
        } else {
            let g = gs.last();
            if g.count == 1 {
                assert(((g.count - 1) as nat) * (g.function_size as nat) == 0)
                    by (nonlinear_arith)
                    requires g.count == 1;
            }
            assert(group_excess(gs.last()) == 0);
        }
    }
}

/// Key derivation and aggregation are deterministic: two runs over the same
/// sections and symbols, with the same strategy and mode, return the same
/// groups, the same memberships and the same totals.
pub proof fn lemma_analysis_deterministic(
    secs: Seq<SectionModel>,
    syms: Seq<SymbolModel>,
    strategy: KeyStrategy,
    mode: DemangleMode,
    first_run: AnalysisModel,
    second_run: AnalysisModel,
)
    requires
        first_run == analysis_model(secs, syms, strategy, mode),
        second_run == analysis_model(secs, syms, strategy, mode),
    ensures
        first_run == second_run,
{
}

/// The sum of a histogram's per-name counts.
pub open spec fn names_total(names: Seq<(Seq<char>, nat)>) -> nat
    decreases names.len(),
{
    if names.len() == 0 {
        0nat
    } else {
        names_total(names.drop_last()) + names.last().1
    }
}

/// Replacing one entry moves the sum by the difference of the counts.
proof fn lemma_names_total_update(names: Seq<(Seq<char>, nat)>, j: int, e: (Seq<char>, nat))
    requires
        0 <= j < names.len(),
    ensures
        names_total(names.update(j, e)) + names[j].1 == names_total(names) + e.1,
    decreases names.len(),
{
    let u = names.update(j, e);
    if j == names.len() - 1 {
        assert(u.drop_last() =~= names.drop_last());
        assert(u.last() == e);
    } else {
        assert(u.drop_last() =~= names.drop_last().update(j, e));
        assert(u.last() == names.last());
        lemma_names_total_update(names.drop_last(), j, e);
    }
}

/// Recording one occurrence of a name raises the sum by one.
proof fn lemma_bump_names_total(names: Seq<(Seq<char>, nat)>, dn: Seq<char>)
    ensures
        names_total(bump_names(names, Some(dn))) == names_total(names) + 1,
{
    lemma_find_first(names, name_is(dn));
    let j = find_name(names, dn);
    if j < 0 {
        let u = names.push((dn, 1nat));
        assert(u.drop_last() =~= names);
        assert(u.last() == (dn, 1nat));
    } else {
        lemma_names_total_update(names, j, (names[j].0, (names[j].1 + 1) as nat));
    }
}

/// Where every symbol carries a readable name, each group's occurrence
/// count equals the sum of its per-name counts.
pub proof fn lemma_count_equals_name_total(
    secs: Seq<SectionModel>,
    max_addr: u64,
    strategy: KeyStrategy,
    mode: DemangleMode,
    syms: Seq<SymbolModel>,
)
    requires
        forall|i: int| 0 <= i < syms.len() ==> (#[trigger] syms[i]).name is Some,
    ensures
        ({
            let gs = groups_of(secs, max_addr, strategy, mode, syms);
            forall|g: int|
                0 <= g < gs.len() ==> names_total((#[trigger] gs[g]).names) == gs[g].count
        }),
    decreases syms.len(),
{
    if syms.len() == 0 {
    } else {
        let tail = syms.drop_last();
        assert(forall|i: int| 0 <= i < tail.len() ==> #[trigger] tail[i] == syms[i]);
        lemma_count_equals_name_total(secs, max_addr, strategy, mode, tail);
        let prev = groups_of(secs, max_addr, strategy, mode, tail);
        let gs = groups_of(secs, max_addr, strategy, mode, syms);
        let s = syms.last();
        if eligible(s) && spec_key(secs, max_addr, strategy, s) is Some {
            let dn = spec_display_name(mode, s.name);
            assert(s.name is Some);
            let dv = dn->Some_0;
            lemma_find_first(prev, key_is(spec_key(secs, max_addr, strategy, s)->Some_0));
            let fs = find_group(prev, spec_key(secs, max_addr, strategy, s)->Some_0);
            if fs < 0 {
                assert forall|g: int| 0 <= g < gs.len() implies names_total(
                    (#[trigger] gs[g]).names,
                ) == gs[g].count by {
                    if g < prev.len() {
                        assert(gs[g] == prev[g]);
                    } else {
                        let u = init_names(dn);
                        assert(u == Seq::<(Seq<char>, nat)>::empty().push((dv, 1nat)));
                        assert(u.len() == 1);
                        assert(u.last() == (dv, 1nat));
                        assert(u.drop_last() =~= Seq::<(Seq<char>, nat)>::empty());
                        assert(names_total(Seq::<(Seq<char>, nat)>::empty()) == 0);
                        assert(names_total(u) == names_total(u.drop_last()) + u.last().1);
                        assert(names_total(u) == 1);
                    }
                }
            } else {
                assert forall|g: int| 0 <= g < gs.len() implies names_total(
                    (#[trigger] gs[g]).names,
                ) == gs[g].count by {
                    if g == fs {
                        assert(gs[g] == bump_group(prev[fs], dn));
                        lemma_bump_names_total(prev[fs].names, dv);
                    } else {
                        assert(gs[g] == prev[g]);
                    }
                }
            }
        }
    }
}

} // verus!
