//! The run controller: one pass over a binary's sections and symbols,
//! producing the group list and the reported totals, or one of the two
//! run-aborting errors.

use vstd::prelude::*;

use crate::groups::{
    DemangleMode, GroupModel, SymInfo, aggregate, considered_of, group_models, groups_of,
};
use crate::keys::{KeyStrategy, spec_max_code_addr, max_code_address};
use crate::model::{SectionModel, SectionRec, SymbolModel, SymbolRec, sat64, section_models, symbol_models};
use crate::summary::{
    RunSummary, compute_summary, dup_group_count, excess_instance_count, text_size, total_excess,
    total_text,
};

verus! {

/// Why a whole run fails.
#[derive(Clone, Copy, PartialEq, Eq, Structural, Debug)]
pub enum AnalysisError {
    /// The binary carries no symbol at all.
    NoSymbolTable,
    /// The binary carries symbols, but no function passed key derivation.
    NoFunctionsConsidered,
}

/// Everything a completed run produces: the group list, in first-insertion
/// order, and the reported totals.
#[derive(Debug, PartialEq, Eq)]
pub struct Analysis {
    /// One group per distinct comparison key.
    pub groups: Vec<SymInfo>,
    /// The reported totals.
    pub summary: RunSummary,
}

/// Ghost model of a completed run.
pub ghost struct AnalysisModel {
    pub groups: Seq<GroupModel>,
    pub summary: RunSummary,
}

impl View for Analysis {
    type V = AnalysisModel;

    open spec fn view(&self) -> AnalysisModel {
        AnalysisModel { groups: group_models(self.groups@), summary: self.summary }
    }
}

/// The totals a group list and a section list yield.
pub open spec fn spec_summary(secs: Seq<SectionModel>, gs: Seq<GroupModel>) -> RunSummary {
    RunSummary {
        text_size: sat64(total_text(secs) as int),
        excess_bytes: sat64(total_excess(gs) as int),
        duplicated_functions: sat64(dup_group_count(gs) as int),
        excess_instances: sat64(excess_instance_count(gs) as int),
    }
}

/// What a completed run returns: the groups of the whole symbol table,
/// keyed at the run's canonical address, with their totals. A function of
/// the inputs alone.
pub open spec fn analysis_model(
    secs: Seq<SectionModel>,
    syms: Seq<SymbolModel>,
    strategy: KeyStrategy,
    mode: DemangleMode,
) -> AnalysisModel {
    let gs = groups_of(secs, spec_max_code_addr(syms), strategy, mode, syms);
    AnalysisModel { groups: gs, summary: spec_summary(secs, gs) }
}

/// How many symbols of the run are considered: eligible and with a derived
/// key.
pub open spec fn spec_considered(
    secs: Seq<SectionModel>,
    syms: Seq<SymbolModel>,
    strategy: KeyStrategy,
) -> nat {
    considered_of(secs, spec_max_code_addr(syms), strategy, syms)
}

/// Runs the whole analysis over a binary's sections and symbols.
///
/// Fails with `NoSymbolTable` exactly when the symbol list is empty, and
/// with `NoFunctionsConsidered` exactly when symbols exist but none passes
/// key derivation; otherwise returns the groups of the whole table and
/// their totals, a function of the inputs alone.
pub fn analyze(
    sections: &Vec<SectionRec>,
    symbols: &Vec<SymbolRec>,
    strategy: KeyStrategy,
    mode: DemangleMode,
) -> (r: Result<Analysis, AnalysisError>)
    ensures
        (symbols@.len() == 0) <==> r == Err::<Analysis, AnalysisError>(
            AnalysisError::NoSymbolTable,
        ),
        (symbols@.len() > 0 && spec_considered(
            section_models(sections@),
            symbol_models(symbols@),
            strategy,
        ) == 0) <==> r == Err::<Analysis, AnalysisError>(AnalysisError::NoFunctionsConsidered),
        r matches Ok(a) ==> a@ == analysis_model(
            section_models(sections@),
            symbol_models(symbols@),
            strategy,
            mode,
        ) && spec_considered(section_models(sections@), symbol_models(symbols@), strategy) > 0,
{
    let max_addr = max_code_address(symbols);
    let (groups, considered) = aggregate(sections, symbols, strategy, mode, max_addr);
    if considered == 0 {
        if symbols.len() == 0 {
            return Err(AnalysisError::NoSymbolTable);
        }
        return Err(AnalysisError::NoFunctionsConsidered);
    }
    let text = text_size(sections);
    let summary = compute_summary(&groups, text);
    Ok(Analysis { groups, summary })
}

} // verus!
