//! Relocation-invariant re-encoding of a function's instruction bytes,
//! through `iced_x86`.
//!
//! Two functions whose code differs only in position-dependent operands
//! (relative branch displacements, instruction-pointer-relative memory
//! operands) have different bytes at different addresses. Re-encoding both at
//! one shared canonical address makes them comparable byte for byte. The
//! re-encoded buffer is a function of the bytes and the two addresses alone,
//! so it is given the name `canon_of` that the wrapper's contract and the
//! callers' contracts share.

use vstd::prelude::*;

verus! {

/// What decoding `bytes` as 64-bit instructions starting at `base_address`
/// and re-encoding the sequence at `new_address` yields: the re-encoded
/// buffer, or `None` where some byte range is not a complete valid
/// instruction or the sequence cannot be re-encoded at the new address.
pub uninterp spec fn canon_of(bytes: Seq<u8>, base_address: u64, new_address: u64) -> Option<
    Seq<u8>,
>;

/// Relies on `iced_x86::Decoder::with_ip` (strict decoding of 64-bit code at
/// a given instruction pointer) and `iced_x86::BlockEncoder::encode`
/// (re-encoding at a new instruction pointer, recomputing position-dependent
/// operands, failing on invalid instructions or unreachable targets): both
/// are functions of the bytes and the two addresses alone.
#[verifier::external_body]
pub fn normalise_asm(fn_bytes: &[u8], base_address: u64, new_address: u64) -> (r: Option<Vec<u8>>)
    ensures
        r is Some <==> canon_of(fn_bytes@, base_address, new_address) is Some,
        r matches Some(v) ==> canon_of(fn_bytes@, base_address, new_address) == Some(v@),
{
    let options = iced_x86::DecoderOptions::NONE;
    let decoder = iced_x86::Decoder::with_ip(64, fn_bytes, base_address, options);
    let instructions = decoder.into_iter().collect::<Vec<_>>();
    let block = iced_x86::InstructionBlock::new(&instructions, new_address);
    iced_x86::BlockEncoder::encode(64, block, iced_x86::BlockEncoderOptions::NONE)
        .ok()
        .map(|r| r.code_buffer)
}

} // verus!
