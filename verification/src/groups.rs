//! Grouping of symbols by comparison key.
//!
//! One `SymInfo` record exists per distinct key, in first-insertion order.
//! Consuming a symbol bumps its group's occurrence count and the per-name
//! occurrence count of its display name; the function size is set once, on
//! first insertion. The whole pass is specified by the recursive `groups_of`
//! model.

use vstd::prelude::*;

use crate::demangle::{demangle_display, demangle_display_no_hash, demangled_no_hash_of, demangled_of};
use crate::keys::{CanonKey, KeyModel, KeyStrategy, key_eq, key_for_symbol, spec_key};
use crate::model::{
    SectionModel, SectionRec, SymbolModel, SymbolRec, eligible, find_first, lemma_find_first,
    lemma_usize_fits_u64, name_model, sat64, sat_mul, section_models, symbol_models,
};

verus! {

/// How a symbol's display name (the name reported for its group) is
/// resolved. Independent of the key-derivation strategy.
#[derive(Clone, Copy, PartialEq, Eq, Structural, Debug)]
pub enum DemangleMode {
    /// Report the raw symbol name.
    Off,
    /// Report the demangled name.
    Full,
    /// Report the demangled name with the disambiguation hash stripped.
    NoHash,
}

/// One group of duplicate symbols: all symbols that share one comparison
/// key.
#[derive(Debug, PartialEq, Eq)]
pub struct SymInfo {
    /// The shared comparison key.
    pub key: CanonKey,
    /// Number of symbols in the group.
    pub count: u64,
    /// Distinct display names seen in the group, each with its occurrence
    /// count, in first-seen order.
    pub names: Vec<(String, u64)>,
    /// Function size in bytes, shared by all members; set on first
    /// insertion.
    pub function_size: u64,
}

/// Ghost model of a duplicate group.
pub ghost struct GroupModel {
    pub key: KeyModel,
    pub count: nat,
    pub names: Seq<(Seq<char>, nat)>,
    pub function_size: u64,
}

/// Ghost models of a name histogram.
pub open spec fn names_models(s: Seq<(String, u64)>) -> Seq<(Seq<char>, nat)> {
    s.map_values(|p: (String, u64)| (p.0@, p.1 as nat))
}

impl View for SymInfo {
    type V = GroupModel;

    open spec fn view(&self) -> GroupModel {
        GroupModel {
            key: self.key@,
            count: self.count as nat,
            names: names_models(self.names@),
            function_size: self.function_size,
        }
    }
}

/// Ghost models of a group list.
pub open spec fn group_models(s: Seq<SymInfo>) -> Seq<GroupModel> {
    s.map_values(|g: SymInfo| g@)
}

/// Bytes attributable to duplicate copies beyond the first occurrence of the
/// function: (occurrence count − 1) × function size, clamped to a 64-bit
/// counter.
pub open spec fn excess_of(count: nat, size: u64) -> u64 {
    if count == 0 {
        0u64
    } else {
        sat64((count - 1) * size)
    }
}

impl SymInfo {
    /// Bytes attributable to the duplicate copies in this group beyond the
    /// first: (occurrence count − 1) × function size. Zero where the group
    /// holds a single occurrence.
    pub fn excess_bytes(&self) -> (r: u64)
        ensures
            r == excess_of(self@.count, self.function_size),
            self@.count == 1 ==> r == 0,
    {
        let d = self.count.saturating_sub(1);
        proof {
            if self.count == 1 {
                assert(d as int * self.function_size as int == 0) by (nonlinear_arith)
                    requires d == 0;
            }
        }
        sat_mul(d, self.function_size)
    }
}

/// The display name the active mode resolves for a raw symbol name.
pub open spec fn spec_display_name(mode: DemangleMode, name: Option<Seq<char>>) -> Option<
    Seq<char>,
> {
    match name {
        None => None,
        Some(n) => Some(
            match mode {
                DemangleMode::Off => n,
                DemangleMode::Full => demangled_of(n),
                DemangleMode::NoHash => demangled_no_hash_of(n),
            },
        ),
    }
}

/// Resolves the display name of a symbol under the active mode, or `None`
/// where the symbol has no readable name.
pub fn display_name(mode: DemangleMode, name: &Option<String>) -> (r: Option<String>)
    ensures
        r is Some <==> spec_display_name(mode, name_model(*name)) is Some,
        r matches Some(s) ==> spec_display_name(mode, name_model(*name)) == Some(s@),
{
    match name {
        None => None,
        Some(n) => Some(
            match mode {
                DemangleMode::Off => n.clone(),
                DemangleMode::Full => demangle_display(n.as_str()),
                DemangleMode::NoHash => demangle_display_no_hash(n.as_str()),
            },
        ),
    }
}

/// Whether a group carries key `k`.
pub open spec fn key_is(k: KeyModel) -> spec_fn(GroupModel) -> bool {
    |g: GroupModel| g.key == k
}

/// Whether a histogram entry is for name `n`.
pub open spec fn name_is(n: Seq<char>) -> spec_fn((Seq<char>, nat)) -> bool {
    |p: (Seq<char>, nat)| p.0 == n
}

/// The first group of the list that carries key `k`, or -1.
pub open spec fn find_group(gs: Seq<GroupModel>, k: KeyModel) -> int {
    find_first(gs, key_is(k))
}

/// The first histogram entry for name `n`, or -1.
pub open spec fn find_name(names: Seq<(Seq<char>, nat)>, n: Seq<char>) -> int {
    find_first(names, name_is(n))
}

/// The histogram of a fresh group: one occurrence of the display name, or
/// empty where the symbol has none.
pub open spec fn init_names(dn: Option<Seq<char>>) -> Seq<(Seq<char>, nat)> {
    match dn {
        None => Seq::empty(),
        Some(n) => Seq::empty().push((n, 1nat)),
    }
}

/// One more occurrence of display name `dn` in a histogram: bumps the
/// first entry for the name, appends a fresh entry where there is none, and
/// leaves the histogram unchanged where the symbol has no name.
pub open spec fn bump_names(names: Seq<(Seq<char>, nat)>, dn: Option<Seq<char>>) -> Seq<
    (Seq<char>, nat),
> {
    match dn {
        None => names,
        Some(n) => {
            let j = find_name(names, n);
            if j < 0 {
                names.push((n, 1nat))
            } else {
                names.update(j, (names[j].0, (names[j].1 + 1) as nat))
            }
        },
    }
}

/// One more member of a group: the occurrence count grows by one and the
/// display name is recorded; key and size stay.
pub open spec fn bump_group(g: GroupModel, dn: Option<Seq<char>>) -> GroupModel {
    GroupModel { count: g.count + 1, names: bump_names(g.names, dn), ..g }
}

/// The group a first occurrence opens: count one, the symbol's size, its
/// display name.
pub open spec fn new_group(k: KeyModel, sym: SymbolModel, dn: Option<Seq<char>>) -> GroupModel {
    GroupModel { key: k, count: 1nat, names: init_names(dn), function_size: sym.size }
}

/// Consuming one symbol with key `k`: bumps the first group with that key,
/// or opens a new group at the end of the list.
pub open spec fn add_sym(
    gs: Seq<GroupModel>,
    k: KeyModel,
    sym: SymbolModel,
    mode: DemangleMode,
) -> Seq<GroupModel> {
    let dn = spec_display_name(mode, sym.name);
    let j = find_group(gs, k);
    if j < 0 {
        gs.push(new_group(k, sym, dn))
    } else {
        gs.update(j, bump_group(gs[j], dn))
    }
}

/// The group list after consuming a prefix of the symbol table, in order:
/// each eligible symbol whose key derivation succeeds is added; all others
/// are skipped.
pub open spec fn groups_of(
    secs: Seq<SectionModel>,
    max_addr: u64,
    strategy: KeyStrategy,
    mode: DemangleMode,
    syms: Seq<SymbolModel>,
) -> Seq<GroupModel>
    decreases syms.len(),
{
    if syms.len() == 0 {
        Seq::empty()
    } else {
        let prev = groups_of(secs, max_addr, strategy, mode, syms.drop_last());
        let s = syms.last();
        if eligible(s) {
            match spec_key(secs, max_addr, strategy, s) {
                None => prev,
                Some(k) => add_sym(prev, k, s, mode),
            }
        } else {
            prev
        }
    }
}

/// How many symbols of the table are considered: eligible and with a
/// successfully derived key.
pub open spec fn considered_of(
    secs: Seq<SectionModel>,
    max_addr: u64,
    strategy: KeyStrategy,
    syms: Seq<SymbolModel>,
) -> nat
    decreases syms.len(),
{
    if syms.len() == 0 {
        0nat
    } else {
        considered_of(secs, max_addr, strategy, syms.drop_last()) + (
        if eligible(syms.last()) && spec_key(secs, max_addr, strategy, syms.last()) is Some {
            1nat
        } else {
            0nat
        })
    }
}

/// Bumping a histogram raises no count above one more than the old bound.
proof fn lemma_bump_names_counts(names: Seq<(Seq<char>, nat)>, dn: Option<Seq<char>>, b: nat)
    requires
        forall|j: int| 0 <= j < names.len() ==> (#[trigger] names[j]).1 <= b,
    ensures
        forall|j: int|
            0 <= j < bump_names(names, dn).len() ==> (#[trigger] bump_names(names, dn)[j]).1 <= b
                + 1,
{
    match dn {
        None => {},
        Some(n) => {
            lemma_find_first(names, name_is(n));
        },
    }
}

/// Finds the first group with key `k`.
fn find_group_exec(groups: &Vec<SymInfo>, k: &CanonKey) -> (r: Option<usize>)
    ensures
        r is None ==> find_group(group_models(groups@), k@) == -1,
        r matches Some(j) ==> 0 <= j < groups@.len() && find_group(group_models(groups@), k@)
            == j,
{
    let ghost gm = group_models(groups@);
    let ghost p = key_is(k@);
    let mut i: usize = 0;
    while i < groups.len()
        invariant
            0 <= i <= groups@.len(),
            gm == group_models(groups@),
            gm.len() == groups@.len(),
            p == key_is(k@),
            forall|j: int| 0 <= j < i ==> !p(#[trigger] gm[j]),
        decreases groups@.len() - i,
    {
        if key_eq(&groups[i].key, k) {
            proof {
                assert(p(gm[i as int]));
                lemma_find_first(gm, p);
            }
            return Some(i);
        }
        proof {
            assert(gm[i as int].key == groups@[i as int]@.key);
        }
        i += 1;
    }
    proof {
        lemma_find_first(gm, p);
        if find_first(gm, p) >= 0 {
            assert(p(gm[find_first(gm, p)]));
            assert(false);
        }
    }
    None
}

/// Opens the histogram of a fresh group.
fn init_names_exec(dn: Option<String>) -> (r: Vec<(String, u64)>)
    ensures
        names_models(r@) == init_names(name_model(dn)),
        forall|j: int| 0 <= j < r@.len() ==> (#[trigger] r@[j]).1 <= 1,
{
    match dn {
        None => {
            let v: Vec<(String, u64)> = Vec::new();
            proof {
                assert(names_models(v@) =~= init_names(name_model(dn)));
            }
            v
        },
        Some(n) => {
            let mut v: Vec<(String, u64)> = Vec::new();
            v.push((n, 1u64));
            proof {
                assert(names_models(v@) =~= init_names(name_model(dn)));
            }
            v
        },
    }
}

/// Records one more occurrence of display name `dn` in a histogram.
fn bump_names_exec(names: &mut Vec<(String, u64)>, dn: &Option<String>)
    requires
        forall|j: int| 0 <= j < old(names)@.len() ==> (#[trigger] old(names)@[j]).1 < u64::MAX,
    ensures
        names_models(final(names)@) == bump_names(names_models(old(names)@), name_model(*dn)),
{
    let ghost nm = names_models(names@);
    let n = match dn {
        None => {
            proof {
                assert(name_model(*dn) is None);
            }
            return ;
        },
        Some(n) => {
            proof {
                assert(name_model(*dn) == Some(n@));
            }
            n
        },
    };
    let ghost nv = n@;
    let ghost p = name_is(n@);
    let mut i: usize = 0;
    while i < names.len()
        invariant
            0 <= i <= names@.len(),
            nm == names_models(names@),
            nm.len() == names@.len(),
            names@ == old(names)@,
            nv == n@,
            name_model(*dn) == Some(nv),
            p == name_is(n@),
            forall|j: int| 0 <= j < names@.len() ==> (#[trigger] names@[j]).1 < u64::MAX,
            forall|j: int| 0 <= j < i ==> !p(#[trigger] nm[j]),
        decreases names@.len() - i,
    {
        if names[i].0 == *n {
            proof {
                assert(p(nm[i as int]));
                lemma_find_first(nm, p);
                let f = find_first(nm, p);
                if f < i as int {
                    assert(!p(nm[f]));
                    assert(false);
                } else if f > i as int {
                    assert(!p(nm[i as int]));
                    assert(false);
                }
                assert(find_name(nm, n@) == i as int);
            }
            let (s, c) = names.remove(i);
            let entry = (s, c + 1);
            let ghost em = entry;
            names.insert(i, entry);
            proof {
                assert(names@ =~= old(names)@.update(i as int, em));
                assert((em.0@, em.1 as nat) == (nm[i as int].0, (nm[i as int].1 + 1) as nat));
                assert(name_model(*dn) == Some(n@));
                assert(bump_names(nm, name_model(*dn)) == nm.update(
                    i as int,
                    (nm[i as int].0, (nm[i as int].1 + 1) as nat),
                ));
                assert forall|x: int| 0 <= x < names@.len() implies names_models(names@)[x]
                    == bump_names(nm, name_model(*dn))[x] by {
                    assert(names_models(names@)[x] == (names@[x].0@, names@[x].1 as nat));
                    if x != i as int {
                        assert(names@[x] == old(names)@[x]);
                    }
                }
                assert(names_models(names@) =~= bump_names(nm, name_model(*dn)));
            }
            return ;
        }
        proof {
            assert(nm[i as int].0 == names@[i as int].0@);
        }
        i += 1;
    }
    proof {
        lemma_find_first(nm, p);
        if find_first(nm, p) >= 0 {
            assert(p(nm[find_first(nm, p)]));
            assert(false);
        }
    }
    names.push((n.clone(), 1u64));
    proof {
        assert(names_models(names@) =~= bump_names(nm, name_model(*dn)));
    }
}

/// One pass over the symbol table: groups every considered symbol by its
/// key, in first-insertion order, and counts the considered symbols.
pub fn aggregate(
    sections: &Vec<SectionRec>,
    symbols: &Vec<SymbolRec>,
    strategy: KeyStrategy,
    mode: DemangleMode,
    max_addr: u64,
) -> (r: (Vec<SymInfo>, u64))
    ensures
        group_models(r.0@) == groups_of(
            section_models(sections@),
            max_addr,
            strategy,
            mode,
            symbol_models(symbols@),
        ),
        r.1 as nat == considered_of(
            section_models(sections@),
            max_addr,
            strategy,
            symbol_models(symbols@),
        ),
{
    let ghost secs = section_models(sections@);
    let ghost models = symbol_models(symbols@);
    let mut groups: Vec<SymInfo> = Vec::new();
    let mut considered: u64 = 0;
    let mut i: usize = 0;
    proof {
        assert(group_models(groups@) =~= groups_of(secs, max_addr, strategy, mode, models.take(0)));
    }
    while i < symbols.len()
        invariant
            0 <= i <= symbols@.len(),
            secs == section_models(sections@),
            models == symbol_models(symbols@),
            models.len() == symbols@.len(),
            group_models(groups@) == groups_of(secs, max_addr, strategy, mode, models.take(i as int)),
            considered as nat == considered_of(secs, max_addr, strategy, models.take(i as int)),
            considered as int <= i,
            forall|gi: int|
                0 <= gi < groups@.len() ==> (#[trigger] groups@[gi])@.count <= considered as nat,
            forall|gi: int, nj: int|
                0 <= gi < groups@.len() && 0 <= nj < groups@[gi].names@.len() ==> (
                #[trigger] groups@[gi].names@[nj]).1 as nat <= groups@[gi]@.count,
        decreases symbols@.len() - i,
    {
        let sym = &symbols[i];
        proof {
            lemma_usize_fits_u64();
            assert(models.take(i + 1).drop_last() =~= models.take(i as int));
            assert(models.take(i + 1).last() == sym@);
        }
        let ghost prev_groups = group_models(groups@);
        let ghost prev_considered = considered as nat;
        if sym.is_code && sym.size > 0 {
            match key_for_symbol(sections, max_addr, strategy, sym) {
                None => {},
                Some(k) => {
                    considered = considered + 1;
                    let dn = display_name(mode, &sym.name);
                    let ghost dnm = spec_display_name(mode, sym@.name);
                    proof {
                        match dn {
                            Some(ref s) => assert(dnm == Some(s@)),
                            None => assert(dnm is None),
                        }
                    }
                    match find_group_exec(&groups, &k) {
                        None => {
                            let names0 = init_names_exec(dn);
                            let fresh = SymInfo {
                                key: k,
                                count: 1,
                                names: names0,
                                function_size: sym.size,
                            };
                            let ghost fv = fresh;
                            proof {
                                assert(fv@ == new_group(fv.key@, sym@, dnm));
                            }
                            groups.push(fresh);
                            proof {
                                assert(group_models(groups@) =~= prev_groups.push(fv@));
                                assert(forall|nj: int|
                                    0 <= nj < fv.names@.len() ==> (
                                    #[trigger] fv.names@[nj]).1 as nat <= fv@.count);
                            }
                        },
                        Some(j) => {
                            let ghost pre = groups@;
                            let mut g = groups.remove(j);
                            let ghost gm = g@;
                            proof {
                                assert(pre[j as int] == g);
                                assert(prev_groups[j as int] == gm);
                                assert(gm.count <= prev_considered);
                                assert(g.count < u64::MAX);
                                assert(forall|nj: int|
                                    0 <= nj < g.names@.len() ==> (#[trigger] g.names@[nj]).1
                                        as nat <= gm.count);
                            }
                            g.count = g.count + 1;
                            bump_names_exec(&mut g.names, &dn);
                            proof {
                                assert(g@.names == bump_names(gm.names, dnm));
                                assert(g@ == bump_group(gm, dnm));
                            }
                            let ghost gv = g;
                            groups.insert(j, g);
                            proof {
                                assert(groups@ =~= pre.update(j as int, gv));
                                assert(group_models(groups@) =~= prev_groups.update(
                                    j as int,
                                    gv@,
                                ));
                                lemma_bump_names_counts(gm.names, dnm, gm.count);
                                assert forall|nj: int| 0 <= nj < gv.names@.len() implies (
                                #[trigger] gv.names@[nj]).1 as nat <= gv@.count by {
                                    assert(gv@.names[nj] == (
                                        gv.names@[nj].0@,
                                        gv.names@[nj].1 as nat,
                                    ));
                                    assert(gv@.names[nj].1 <= gm.count + 1);
                                }
                            }
                        },
                    }
                },
            }
        }
        i += 1;
    }
    proof {
        assert(models.take(models.len() as int) =~= models);
    }
    (groups, considered)
}

} // verus!
