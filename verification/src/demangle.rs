//! Demangling of compiler-encoded symbol names, through `rustc_demangle`.
//!
//! The demangled forms are functions of the raw name alone, so they are given
//! names here (`demangled_of`, `demangled_no_hash_of`, `demangles`) that the
//! wrappers' contracts and the callers' contracts share. Nothing is assumed
//! about what the demangled text looks like.

use vstd::prelude::*;

verus! {

/// The display form of `rustc_demangle::demangle(name)`: the demangled
/// signature, hash suffix included, or the (suffix-trimmed) input where it is
/// not a mangled name.
pub uninterp spec fn demangled_of(name: Seq<char>) -> Seq<char>;

/// The alternate display form of `rustc_demangle::demangle(name)`: the
/// demangled signature with the compiler-appended disambiguation hash
/// stripped.
pub uninterp spec fn demangled_no_hash_of(name: Seq<char>) -> Seq<char>;

/// Whether `rustc_demangle::try_demangle(name)` accepts `name` as a mangled
/// identifier.
pub uninterp spec fn demangles(name: Seq<char>) -> bool;

/// Relies on `rustc_demangle::demangle` and its `Display` impl: the result
/// depends on the name alone.
#[verifier::external_body]
pub fn demangle_display(name: &str) -> (r: String)
    ensures
        r@ == demangled_of(name@),
{
    rustc_demangle::demangle(name).to_string()
}

/// Relies on `rustc_demangle::demangle` and its alternate (`{:#}`) `Display`
/// impl, which omits the trailing disambiguation hash: the result depends on
/// the name alone.
#[verifier::external_body]
pub fn demangle_display_no_hash(name: &str) -> (r: String)
    ensures
        r@ == demangled_no_hash_of(name@),
{
    format!("{:#}", rustc_demangle::demangle(name))
}

/// Relies on `rustc_demangle::try_demangle`, which returns `Ok` exactly when
/// the name parses as a mangled identifier, and whose result then displays as
/// `rustc_demangle::demangle`'s does.
#[verifier::external_body]
pub fn try_demangle_display(name: &str) -> (r: Option<String>)
    ensures
        r is Some <==> demangles(name@),
        r matches Some(d) ==> d@ == demangled_of(name@),
{
    rustc_demangle::try_demangle(name).ok().map(|d| d.to_string())
}

/// Relies on `rustc_demangle::try_demangle` as `try_demangle_display` does,
/// formatted with the alternate (`{:#}`) `Display` impl.
#[verifier::external_body]
pub fn try_demangle_display_no_hash(name: &str) -> (r: Option<String>)
    ensures
        r is Some <==> demangles(name@),
        r matches Some(d) ==> d@ == demangled_no_hash_of(name@),
{
    rustc_demangle::try_demangle(name).ok().map(|d| format!("{:#}", d))
}

} // verus!
