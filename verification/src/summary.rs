//! Global totals over the group list: total executable-section size, total
//! excess bytes, number of groups with duplicates, and total excess
//! instances. Each total is an exact mathematical sum, reported clamped to a
//! 64-bit counter.

use vstd::prelude::*;

use crate::groups::{GroupModel, SymInfo, excess_of, group_models};
use crate::model::{SectionModel, SectionRec, lemma_sat_add, sat64, sat_add, section_models};

verus! {

/// Results of a whole run, as reported: total executable-section size and
/// the three duplication totals.
#[derive(Clone, Copy, PartialEq, Eq, Structural, Debug)]
pub struct RunSummary {
    /// Sum of the sizes of all sections classified as code.
    pub text_size: u64,
    /// Sum over all groups of (occurrence count − 1) × function size.
    pub excess_bytes: u64,
    /// Number of groups with occurrence count above one.
    pub duplicated_functions: u64,
    /// Sum over all groups of (occurrence count − 1).
    pub excess_instances: u64,
}

/// Exact excess bytes of one group: (occurrence count − 1) × function size.
pub open spec fn group_excess(g: GroupModel) -> nat {
    if g.count == 0 {
        0nat
    } else {
        ((g.count - 1) as nat) * (g.function_size as nat)
    }
}

/// Exact excess instances of one group: occurrence count − 1.
pub open spec fn group_excess_instances(g: GroupModel) -> nat {
    if g.count == 0 {
        0nat
    } else {
        (g.count - 1) as nat
    }
}

/// Exact total excess bytes over all groups of the list.
pub open spec fn total_excess(gs: Seq<GroupModel>) -> nat
    decreases gs.len(),
{
    if gs.len() == 0 {
        0nat
    } else {
        total_excess(gs.drop_last()) + group_excess(gs.last())
    }
}

/// How many groups of the list hold duplicates (occurrence count above one).
pub open spec fn dup_group_count(gs: Seq<GroupModel>) -> nat
    decreases gs.len(),
{
    if gs.len() == 0 {
        0nat
    } else {
        dup_group_count(gs.drop_last()) + (if gs.last().count > 1 {
            1nat
        } else {
            0nat
        })
    }
}

/// Exact total excess instances over all groups of the list.
pub open spec fn excess_instance_count(gs: Seq<GroupModel>) -> nat
    decreases gs.len(),
{
    if gs.len() == 0 {
        0nat
    } else {
        excess_instance_count(gs.drop_last()) + group_excess_instances(gs.last())
    }
}

/// Exact total size of the sections classified as code.
pub open spec fn total_text(secs: Seq<SectionModel>) -> nat
    decreases secs.len(),
{
    if secs.len() == 0 {
        0nat
    } else {
        total_text(secs.drop_last()) + (if secs.last().is_text {
            secs.last().size as nat
        } else {
            0nat
        })
    }
}

/// Sums the sizes of all sections classified as code, clamped to a 64-bit
/// counter.
pub fn text_size(sections: &Vec<SectionRec>) -> (r: u64)
    ensures
        r == sat64(total_text(section_models(sections@)) as int),
{
    let ghost secs = section_models(sections@);
    let mut total: u64 = 0;
    let mut i: usize = 0;
    proof {
        assert(secs.take(0) =~= Seq::<SectionModel>::empty());
    }
    while i < sections.len()
        invariant
            0 <= i <= sections@.len(),
            secs == section_models(sections@),
            secs.len() == sections@.len(),
            total == sat64(total_text(secs.take(i as int)) as int),
        decreases sections@.len() - i,
    {
        let sec = &sections[i];
        proof {
            assert(secs.take(i + 1).drop_last() =~= secs.take(i as int));
            assert(secs.take(i + 1).last() == sec@);
            lemma_sat_add(total_text(secs.take(i as int)) as int, (if sec@.is_text {
                sec@.size as int
            } else {
                0
            }));
        }
        if sec.is_text {
            total = sat_add(total, sec.size);
        }
        i += 1;
    }
    proof {
        assert(secs.take(secs.len() as int) =~= secs);
    }
    total
}

/// Computes the reported totals over the whole group list, each clamped to
/// a 64-bit counter, together with the given executable-section size.
pub fn compute_summary(groups: &Vec<SymInfo>, text_size: u64) -> (r: RunSummary)
    ensures
        r.text_size == text_size,
        r.excess_bytes == sat64(total_excess(group_models(groups@)) as int),
        r.duplicated_functions == sat64(dup_group_count(group_models(groups@)) as int),
        r.excess_instances == sat64(excess_instance_count(group_models(groups@)) as int),
{
    let ghost gs = group_models(groups@);
    let mut excess: u64 = 0;
    let mut dup_fns: u64 = 0;
    let mut instances: u64 = 0;
    let mut i: usize = 0;
    proof {
        assert(gs.take(0) =~= Seq::<GroupModel>::empty());
    }
    while i < groups.len()
        invariant
            0 <= i <= groups@.len(),
            gs == group_models(groups@),
            gs.len() == groups@.len(),
            excess == sat64(total_excess(gs.take(i as int)) as int),
            dup_fns == sat64(dup_group_count(gs.take(i as int)) as int),
            instances == sat64(excess_instance_count(gs.take(i as int)) as int),
        decreases groups@.len() - i,
    {
        let g = &groups[i];
        proof {
            assert(gs.take(i + 1).drop_last() =~= gs.take(i as int));
            assert(gs.take(i + 1).last() == g@);
            lemma_sat_add(total_excess(gs.take(i as int)) as int, group_excess(g@) as int);
            lemma_sat_add(
                dup_group_count(gs.take(i as int)) as int,
                (if g@.count > 1 {
                    1
                } else {
                    0
                }),
            );
            lemma_sat_add(
                excess_instance_count(gs.take(i as int)) as int,
                group_excess_instances(g@) as int,
            );
            assert(excess_of(g@.count, g@.function_size) == sat64(group_excess(g@) as int));
        }
        excess = sat_add(excess, g.excess_bytes());
        if g.count > 1 {
            dup_fns = sat_add(dup_fns, 1);
        }
        instances = sat_add(instances, g.count.saturating_sub(1));
        i += 1;
    }
    proof {
        assert(gs.take(gs.len() as int) =~= gs);
    }
    RunSummary { text_size, excess_bytes: excess, duplicated_functions: dup_fns, excess_instances: instances }
}

} // verus!
