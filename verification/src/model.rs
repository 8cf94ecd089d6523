//! Plain-value records for the parts of an object file that the analysis
//! reads: sections and symbols. The caller (whatever parses the container
//! format) hands these in; everything downstream is specified over their
//! ghost models.

use vstd::prelude::*;

verus! {

/// One section of the object file: its classification, mapped virtual
/// address, declared size, and raw contents.
pub struct SectionRec {
    /// Whether the section is classified as executable code.
    pub is_text: bool,
    /// Virtual address the section is mapped at.
    pub address: u64,
    /// Declared size of the section in bytes.
    pub size: u64,
    /// Raw contents of the section.
    pub data: Vec<u8>,
}

/// Ghost model of a section.
pub ghost struct SectionModel {
    pub is_text: bool,
    pub address: u64,
    pub size: u64,
    pub data: Seq<u8>,
}

impl View for SectionRec {
    type V = SectionModel;

    open spec fn view(&self) -> SectionModel {
        SectionModel {
            is_text: self.is_text,
            address: self.address,
            size: self.size,
            data: self.data@,
        }
    }
}

/// One symbol-table entry. `name` is `None` when the entry has no readable
/// name; `section` is `None` when the entry names no section.
pub struct SymbolRec {
    /// Raw (possibly mangled) symbol name, when present.
    pub name: Option<String>,
    /// Whether the symbol is classified as executable code.
    pub is_code: bool,
    /// Size of the symbol in bytes.
    pub size: u64,
    /// Virtual address of the symbol.
    pub address: u64,
    /// Index into the section list, when present.
    pub section: Option<usize>,
}

/// Ghost model of a symbol.
pub ghost struct SymbolModel {
    pub name: Option<Seq<char>>,
    pub is_code: bool,
    pub size: u64,
    pub address: u64,
    pub section: Option<usize>,
}

impl View for SymbolRec {
    type V = SymbolModel;

    open spec fn view(&self) -> SymbolModel {
        SymbolModel {
            name: match self.name {
                Some(n) => Some(n@),
                None => None,
            },
            is_code: self.is_code,
            size: self.size,
            address: self.address,
            section: self.section,
        }
    }
}

/// A symbol takes part in the analysis exactly when it is executable code of
/// strictly positive size.
pub open spec fn eligible(sym: SymbolModel) -> bool {
    sym.is_code && sym.size > 0
}

/// Ghost models of a sequence of sections.
pub open spec fn section_models(secs: Seq<SectionRec>) -> Seq<SectionModel> {
    secs.map_values(|s: SectionRec| s@)
}

/// Ghost models of a sequence of symbols.
pub open spec fn symbol_models(syms: Seq<SymbolRec>) -> Seq<SymbolModel> {
    syms.map_values(|s: SymbolRec| s@)
}

/// Ghost model of an optional raw name.
pub open spec fn name_model(name: Option<String>) -> Option<Seq<char>> {
    match name {
        Some(n) => Some(n@),
        None => None,
    }
}

/// The first index of the sequence whose element satisfies `p`, or -1.
pub open spec fn find_first<A>(s: Seq<A>, p: spec_fn(A) -> bool) -> int
    decreases s.len(),
{
    if s.len() == 0 {
        -1
    } else if p(s[0]) {
        0
    } else {
        let r = find_first(s.skip(1), p);
        if r < 0 {
            -1
        } else {
            r + 1
        }
    }
}

/// `find_first` returns -1 exactly when no element satisfies `p`, and
/// otherwise the least index of one that does.
pub proof fn lemma_find_first<A>(s: Seq<A>, p: spec_fn(A) -> bool)
    ensures
        find_first(s, p) == -1 ==> forall|j: int| 0 <= j < s.len() ==> !p(#[trigger] s[j]),
        find_first(s, p) >= 0 ==> find_first(s, p) < s.len() && p(s[find_first(s, p)]) && forall|
            j: int,
        | 0 <= j < find_first(s, p) ==> !p(#[trigger] s[j]),
    decreases s.len(),
{
    if s.len() == 0 {
    } else if p(s[0]) {
    } else {
        let t = s.skip(1);
        lemma_find_first(t, p);
        let r = find_first(t, p);
        if r < 0 {
            assert forall|j: int| 0 <= j < s.len() implies !p(#[trigger] s[j]) by {
                if j > 0 {
                    assert(s[j] == t[j - 1]);
                    assert(!p(t[j - 1]));
                }
            }
        } else {
            assert(s[r + 1] == t[r]);
            assert forall|j: int| 0 <= j < r + 1 implies !p(#[trigger] s[j]) by {
                if j > 0 {
                    assert(s[j] == t[j - 1]);
                    assert(!p(t[j - 1]));
                }
            }
        }
    }
}

/// A mathematical total clamped to the range of a 64-bit counter.
pub open spec fn sat64(x: int) -> u64 {
    if x <= 0 {
        0u64
    } else if x >= u64::MAX {
        u64::MAX
    } else {
        x as u64
    }
}

/// Saturating 64-bit addition, exact below the counter's ceiling.
pub fn sat_add(a: u64, b: u64) -> (r: u64)
    ensures
        r == sat64(a + b),
{
    if a > u64::MAX - b {
        u64::MAX
    } else {
        a + b
    }
}

/// Saturating 64-bit multiplication, exact below the counter's ceiling.
pub fn sat_mul(a: u64, b: u64) -> (r: u64)
    ensures
        r == sat64(a * b),
{
    match a.checked_mul(b) {
        Some(v) => v,
        None => u64::MAX,
    }
}

/// A 64-bit counter can hold any machine length.
pub proof fn lemma_usize_fits_u64()
    ensures
        usize::MAX as nat <= u64::MAX as nat,
{
}

/// Saturation composes with addition: adding a clamped term to a clamped
/// total clamps the mathematical total.
pub proof fn lemma_sat_add(a: int, b: int)
    requires
        a >= 0,
        b >= 0,
    ensures
        sat64(sat64(a) + sat64(b)) == sat64(a + b),
{
}

} // verus!
