//! Comparison keys for candidate functions.
//!
//! A key is derived once per eligible symbol, by the strategy selected for
//! the run: either the function's instruction bytes re-encoded at the run's
//! canonical address, or the demangled name paired with the size. Two symbols
//! with equal keys are duplicates of one another, regardless of address.

use vstd::prelude::*;

use crate::canon::{canon_of, normalise_asm};
use crate::demangle::{
    demangled_no_hash_of, demangled_of, demangles, try_demangle_display, try_demangle_display_no_hash,
};
use crate::model::{SectionModel, SectionRec, SymbolModel, SymbolRec, eligible, section_models, symbol_models};

verus! {

/// How a comparison key is derived from a symbol. Exactly one strategy is
/// active per run; strategies are never mixed.
#[derive(Clone, Copy, PartialEq, Eq, Structural, Debug)]
pub enum KeyStrategy {
    /// Key by the canonicalized instruction bytes.
    Instructions,
    /// Key by demangled name and size.
    NameAndSize,
    /// Key by demangled name with the disambiguation hash stripped, and size.
    /// This may merge monomorphisations that are fundamentally different, so
    /// it is a lower-precision mode.
    NameWithoutRustHash,
}

/// A comparison key. Two symbols are duplicates exactly when their keys are
/// equal.
#[derive(Debug, PartialEq, Eq)]
pub enum CanonKey {
    /// The function's instruction bytes, re-encoded at the run's canonical
    /// address.
    Code { bytes: Vec<u8> },
    /// The demangled name (with or without its hash suffix, by strategy) and
    /// the function size.
    NameSize { name: String, size: u64 },
}

/// Ghost model of a comparison key.
pub ghost enum KeyModel {
    Code(Seq<u8>),
    NameSize(Seq<char>, u64),
}

impl View for CanonKey {
    type V = KeyModel;

    open spec fn view(&self) -> KeyModel {
        match self {
            CanonKey::Code { bytes } => KeyModel::Code(bytes@),
            CanonKey::NameSize { name, size } => KeyModel::NameSize(name@, *size),
        }
    }
}

/// Byte-for-byte equality of two buffers.
pub fn bytes_eq(x: &Vec<u8>, y: &Vec<u8>) -> (r: bool)
    ensures
        r == (x@ == y@),
{
    if x.len() != y.len() {
        return false;
    }
    let mut i: usize = 0;
    while i < x.len()
        invariant
            0 <= i <= x.len(),
            x@.len() == y@.len(),
            forall|j: int| 0 <= j < i ==> x@[j] == y@[j],
        decreases x.len() - i,
    {
        if x[i] != y[i] {
            return false;
        }
        i += 1;
    }
    proof {
        assert(x@ =~= y@);
    }
    true
}

/// Key equality, decided exactly as the ghost models compare.
pub fn key_eq(a: &CanonKey, b: &CanonKey) -> (r: bool)
    ensures
        r == (a@ == b@),
{
    match (a, b) {
        (CanonKey::Code { bytes: x }, CanonKey::Code { bytes: y }) => bytes_eq(x, y),
        (CanonKey::NameSize { name: nx, size: sx }, CanonKey::NameSize { name: ny, size: sy }) => {
            let r = *nx == *ny && *sx == *sy;
            r
        },
        _ => false,
    }
}

/// The bytes of `sym` within its originating section: defined when the
/// symbol names a section of the list and its `[address, address + size)`
/// range lies inside that section's contents.
pub open spec fn spec_section_bytes(secs: Seq<SectionModel>, sym: SymbolModel) -> Option<Seq<u8>> {
    match sym.section {
        None => None,
        Some(i) => if i < secs.len() {
            let sec = secs[i as int];
            if sec.address <= sym.address && sym.address - sec.address + sym.size
                <= sec.data.len() {
                Some(sec.data.subrange(
                    sym.address - sec.address,
                    sym.address - sec.address + sym.size,
                ))
            } else {
                None
            }
        } else {
            None
        },
    }
}

/// Extracts the bytes of `sym` from its originating section, or `None` when
/// they are not fully contained in it.
pub fn fn_bytes(sections: &Vec<SectionRec>, sym: &SymbolRec) -> (r: Option<Vec<u8>>)
    ensures
        r is Some <==> spec_section_bytes(section_models(sections@), sym@) is Some,
        r matches Some(v) ==> spec_section_bytes(section_models(sections@), sym@) == Some(v@),
{
    let idx = match sym.section {
        Some(i) => i,
        None => {
            return None;
        },
    };
    if idx >= sections.len() {
        return None;
    }
    let sec = &sections[idx];
    if sym.address < sec.address {
        return None;
    }
    let offset = sym.address - sec.address;
    let end = match offset.checked_add(sym.size) {
        Some(e) => e,
        None => {
            proof {
                crate::model::lemma_usize_fits_u64();
                assert(sec.data.len() == sec.data@.len());
            }
            return None;
        },
    };
    if end > sec.data.len() as u64 {
        return None;
    }
    let off_us = offset as usize;
    let end_us = end as usize;
    let mut out: Vec<u8> = Vec::new();
    let mut k = off_us;
    while k < end_us
        invariant
            off_us <= k <= end_us <= sec.data.len(),
            out@ =~= sec.data@.subrange(off_us as int, k as int),
        decreases end_us - k,
    {
        let b = sec.data[k];
        out.push(b);
        proof {
            assert(sec.data@.subrange(off_us as int, k + 1) =~= sec.data@.subrange(
                off_us as int,
                k as int,
            ).push(sec.data@[k as int]));
        }
        k += 1;
    }
    proof {
        assert(section_models(sections@)[idx as int] == sec@);
        assert(out@ =~= sec@.data.subrange(
            sym@.address - sec@.address,
            sym@.address - sec@.address + sym@.size,
        ));
    }
    Some(out)
}

/// The canonical relocation address of the run: the maximum address among
/// eligible code symbols, or zero where there is none.
pub open spec fn spec_max_code_addr(syms: Seq<SymbolModel>) -> u64
    decreases syms.len(),
{
    if syms.len() == 0 {
        0u64
    } else {
        let prev = spec_max_code_addr(syms.drop_last());
        let s = syms.last();
        if eligible(s) && s.address > prev {
            s.address
        } else {
            prev
        }
    }
}

/// Computes the run's canonical relocation address. Relocating every
/// function to the highest code address keeps every relocation delta
/// non-negative and within the encoder's displacement range.
pub fn max_code_address(symbols: &Vec<SymbolRec>) -> (r: u64)
    ensures
        r == spec_max_code_addr(symbol_models(symbols@)),
{
    let ghost models = symbol_models(symbols@);
    let mut m: u64 = 0;
    let mut i: usize = 0;
    while i < symbols.len()
        invariant
            0 <= i <= symbols.len(),
            models == symbol_models(symbols@),
            models.len() == symbols@.len(),
            m == spec_max_code_addr(models.take(i as int)),
        decreases symbols.len() - i,
    {
        let sym = &symbols[i];
        proof {
            assert(models.take(i + 1).drop_last() =~= models.take(i as int));
            assert(models.take(i + 1).last() == sym@);
        }
        if sym.is_code && sym.size > 0 && sym.address > m {
            m = sym.address;
        }
        i += 1;
    }
    proof {
        assert(models.take(symbols@.len() as int) =~= models);
    }
    m
}

/// The key the selected strategy derives for `sym`, or `None` where the
/// symbol is skipped: its bytes are not retrievable (instructions strategy),
/// canonicalization fails, or its name is absent or not demangleable
/// (name-and-size strategies).
pub open spec fn spec_key(
    secs: Seq<SectionModel>,
    max_addr: u64,
    strategy: KeyStrategy,
    sym: SymbolModel,
) -> Option<KeyModel> {
    match strategy {
        KeyStrategy::Instructions => match spec_section_bytes(secs, sym) {
            None => None,
            Some(b) => match canon_of(b, sym.address, max_addr) {
                None => None,
                Some(c) => Some(KeyModel::Code(c)),
            },
        },
        KeyStrategy::NameAndSize => match sym.name {
            None => None,
            Some(n) => if demangles(n) {
                Some(KeyModel::NameSize(demangled_of(n), sym.size))
            } else {
                None
            },
        },
        KeyStrategy::NameWithoutRustHash => match sym.name {
            None => None,
            Some(n) => if demangles(n) {
                Some(KeyModel::NameSize(demangled_no_hash_of(n), sym.size))
            } else {
                None
            },
        },
    }
}

/// Derives the comparison key for `sym` under the selected strategy, or
/// `None` where the symbol is skipped.
pub fn key_for_symbol(
    sections: &Vec<SectionRec>,
    max_addr: u64,
    strategy: KeyStrategy,
    sym: &SymbolRec,
) -> (r: Option<CanonKey>)
    ensures
        r is Some <==> spec_key(section_models(sections@), max_addr, strategy, sym@) is Some,
        r matches Some(k) ==> spec_key(section_models(sections@), max_addr, strategy, sym@)
            == Some(k@),
{
    match strategy {
        KeyStrategy::Instructions => {
            let bytes = match fn_bytes(sections, sym) {
                Some(b) => b,
                None => {
                    return None;
                },
            };
            match normalise_asm(bytes.as_slice(), sym.address, max_addr) {
                Some(c) => Some(CanonKey::Code { bytes: c }),
                None => None,
            }
        },
        KeyStrategy::NameAndSize => {
            match &sym.name {
                None => None,
                Some(n) => match try_demangle_display(n.as_str()) {
                    None => None,
                    Some(d) => Some(CanonKey::NameSize { name: d, size: sym.size }),
                },
            }
        },
        KeyStrategy::NameWithoutRustHash => {
            match &sym.name {
                None => None,
                Some(n) => match try_demangle_display_no_hash(n.as_str()) {
                    None => None,
                    Some(d) => Some(CanonKey::NameSize { name: d, size: sym.size }),
                },
            }
        },
    }
}

} // verus!
