//! Pointer-chain resolver: from a matched signature address to the live
//! player-data address.
//!
//! The chain reads a 4-byte little-endian displacement at a fixed offset from
//! the signature address, adds the displacement and a fixed instruction-tail
//! constant to the signature address to get the address of a pointer slot,
//! and reads the 8-byte little-endian pointer stored there. A zero
//! displacement, a zero pointer, or any failed read leaves the chain
//! unresolved. The fixed offsets are bound to one specific target binary
//! layout, so they live in a configuration value rather than in the code.

use crate::memory::{bytes_at, read_ok, ProcessImage};
use vstd::bytes::{spec_u32_from_le_bytes, spec_u64_from_le_bytes};
use vstd::prelude::*;

verus! {

/// The fixed offsets of one target binary's layout.
#[derive(Clone, Copy, Debug, PartialEq, Eq, Structural)]
pub struct PointerChainConfig {
    /// Offset from the signature address to the 4-byte displacement field.
    pub displacement_offset: u64,
    /// Bytes between the displacement field and the end of the instruction.
    pub instruction_tail: u64,
    /// Offset from the player structure to its zero-terminated name.
    pub name_offset: u64,
    /// Offset from the player structure to its 4-byte job id.
    pub job_offset: u64,
}

impl Default for PointerChainConfig {
    /// The layout of the one game binary this tool targets.
    fn default() -> (c: Self)
        ensures
            c == (PointerChainConfig {
                displacement_offset: 0x07,
                instruction_tail: 11,
                name_offset: 0x0B10,
                job_offset: 0x3B1A,
            }),
    {
        PointerChainConfig {
            displacement_offset: 0x07,
            instruction_tail: 11,
            name_offset: 0x0B10,
            job_offset: 0x3B1A,
        }
    }
}

/// The address of the pointer slot the chain passes through:
/// `signature_address + displacement + instruction_tail`, provided the
/// displacement field is readable and non-zero.
pub open spec fn spec_pointer_addr(
    m: Map<u64, u8>,
    cfg: PointerChainConfig,
    signature_address: u64,
) -> Option<int> {
    let da = signature_address + cfg.displacement_offset;
    if da > u64::MAX || !read_ok(m, da as u64, 4) {
        None
    } else {
        let d = spec_u32_from_le_bytes(bytes_at(m, da as u64, 4));
        if d == 0 {
            None
        } else {
            Some(signature_address + d + cfg.instruction_tail)
        }
    }
}

/// The resolved player-data address: the non-zero 8-byte little-endian value
/// in the pointer slot, when the slot lies in the address space and reads.
pub open spec fn spec_resolve(
    m: Map<u64, u8>,
    cfg: PointerChainConfig,
    signature_address: u64,
) -> Option<u64> {
    match spec_pointer_addr(m, cfg, signature_address) {
        None => None,
        Some(pa) => if pa > u64::MAX || !read_ok(m, pa as u64, 8) {
            None
        } else {
            let v = spec_u64_from_le_bytes(bytes_at(m, pa as u64, 8));
            if v == 0 {
                None
            } else {
                Some(v)
            }
        },
    }
}

/// The address of the displacement field of a match at `signature_address`,
/// when it lies in the address space.
pub fn displacement_address(cfg: &PointerChainConfig, signature_address: u64) -> (r: Option<u64>)
    ensures
        match r {
            Some(a) => a == signature_address + cfg.displacement_offset,
            None => signature_address + cfg.displacement_offset > u64::MAX,
        },
{
    signature_address.checked_add(cfg.displacement_offset)
}

/// Reads the displacement field and computes the pointer-slot address, so
/// that the 8-byte slot itself can be fetched before the chain is finished.
pub fn resolve_pointer_address(
    mem: &ProcessImage,
    cfg: &PointerChainConfig,
    signature_address: u64,
) -> (r: Option<u64>)
    requires
        mem.wf(),
    ensures
        match r {
            Some(a) => spec_pointer_addr(mem@, *cfg, signature_address) == Some(a as int),
            None => match spec_pointer_addr(mem@, *cfg, signature_address) {
                Some(pa) => pa > u64::MAX,
                None => true,
            },
        },
{
    let da = match signature_address.checked_add(cfg.displacement_offset) {
        Some(a) => a,
        None => {
            return None;
        },
    };
    let d = match mem.read_u32(da) {
        Ok(d) => d,
        Err(_) => {
            return None;
        },
    };
    if d == 0 {
        return None;
    }
    let with_disp = match signature_address.checked_add(d as u64) {
        Some(a) => a,
        None => {
            return None;
        },
    };
    with_disp.checked_add(cfg.instruction_tail)
}

/// Follows the whole chain out of `mem`: displacement read, pointer-slot
/// address, pointer read. Returns exactly what [`spec_resolve`] describes;
/// every failure mode (zero displacement, zero pointer, unreadable or
/// out-of-space address) degrades to `None`.
pub fn resolve_player_address(
    mem: &ProcessImage,
    cfg: &PointerChainConfig,
    signature_address: u64,
) -> (r: Option<u64>)
    requires
        mem.wf(),
    ensures
        r == spec_resolve(mem@, *cfg, signature_address),
{
    let pa = match resolve_pointer_address(mem, cfg, signature_address) {
        Some(a) => a,
        None => {
            return None;
        },
    };
    let v = match mem.read_u64(pa) {
        Ok(v) => v,
        Err(_) => {
            return None;
        },
    };
    if v == 0 {
        return None;
    }
    Some(v)
}

} // verus!
