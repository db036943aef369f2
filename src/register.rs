//! Read-modify-write of the two-byte Link Control register.

use vstd::prelude::*;
use crate::capability::{CapError, find_pci_exp_link_control, link_control_of, range_is};

verus! {

/// Link Control bit that enables ASPM L0s.
pub const PCI_EXP_LNKCTL_ASPM_L0S: u16 = 0x0001;

/// Link Control bit that enables ASPM L1.
pub const PCI_EXP_LNKCTL_ASPM_L1: u16 = 0x0002;

/// The little-endian 16-bit value stored at `at` and `at + 1`.
pub open spec fn le16(buf: Seq<u8>, at: int) -> u16 {
    (buf[at] as int + 256 * buf[at + 1] as int) as u16
}

/// `buf` with the little-endian bytes of `v` stored at `at` and `at + 1`.
pub open spec fn store16(buf: Seq<u8>, at: int, v: u16) -> Seq<u8> {
    buf.update(at, (v % 256) as u8).update(at + 1, (v / 256) as u8)
}

/// The register value after the bits of `mask` are replaced by `flags`.
pub open spec fn patched(old: u16, mask: u16, flags: u16) -> u16 {
    (old & !mask) | flags
}

/// Whether patching the register at `at` changes its value, so that a
/// write is owed.
pub open spec fn writes(buf: Seq<u8>, at: int, mask: u16, flags: u16) -> bool {
    patched(le16(buf, at), mask, flags) != le16(buf, at)
}

/// The buffer after patching the register at `at`: rewritten only when the
/// value changes.
pub open spec fn patch_buffer(buf: Seq<u8>, at: int, mask: u16, flags: u16) -> Seq<u8> {
    if writes(buf, at, mask, flags) {
        store16(buf, at, patched(le16(buf, at), mask, flags))
    } else {
        buf
    }
}

proof fn lemma_store_then_read(buf: Seq<u8>, at: int, v: u16)
    requires
        0 <= at,
        at + 1 < buf.len(),
    ensures
        le16(store16(buf, at, v), at) == v,
        store16(buf, at, v).len() == buf.len(),
{
    let s = store16(buf, at, v);
    assert(s[at] == (v % 256) as u8);
    assert(s[at + 1] == (v / 256) as u8);
    assert((v % 256) + 256 * (v / 256) == v);
}

/// Reads the little-endian value of the register whose range is `reg`.
pub fn read_link_control(config_buffer: &[u8], reg: &std::ops::Range<usize>) -> (v: u16)
    requires
        reg.end == reg.start + 2,
        reg.end <= config_buffer@.len(),
    ensures
        v == le16(config_buffer@, reg.start as int),
{
    let lo = config_buffer[reg.start];
    let hi = config_buffer[reg.start + 1];
    let v = ((hi as u16) << 8) | (lo as u16);
    assert(((hi as u16) << 8) | (lo as u16) == lo as u16 + 256 * (hi as u16)) by (bit_vector);
    v
}

/// The new register value: the bits of `mask` take their values from
/// `flags`, the other bits keep theirs.
pub fn link_control_value(old: u16, mask: u16, flags: u16) -> (v: u16)
    ensures
        v == patched(old, mask, flags),
{
    (old & !mask) | flags
}

/// Patches the register whose range is `reg` in place and reports whether
/// it was written. Nothing is written when the value would stay the same.
pub fn apply_link_control_patch(
    config_buffer: &mut Vec<u8>,
    reg: &std::ops::Range<usize>,
    mask: u16,
    flags: u16,
) -> (written: bool)
    requires
        reg.end == reg.start + 2,
        reg.end <= old(config_buffer)@.len(),
    ensures
        written == writes(old(config_buffer)@, reg.start as int, mask, flags),
        final(config_buffer)@ == patch_buffer(old(config_buffer)@, reg.start as int, mask, flags),
        le16(final(config_buffer)@, reg.start as int) == patched(
            le16(old(config_buffer)@, reg.start as int),
            mask,
            flags,
        ),
{
    let old_value = read_link_control(config_buffer.as_slice(), reg);
    let new_value = link_control_value(old_value, mask, flags);
    if new_value == old_value {
        return false;
    }
    proof {
        lemma_store_then_read(config_buffer@, reg.start as int, new_value);
    }
    config_buffer.set(reg.start, (new_value % 256) as u8);
    config_buffer.set(reg.start + 1, (new_value / 256) as u8);
    true
}

/// Locates the Link Control register in `config_buffer` and patches it in
/// place. Returns the register's range when its value changed, so that the
/// caller writes those two bytes back, and `None` when nothing is to be
/// written. On failure the buffer is left as it was.
pub fn patch_config_space(config_buffer: &mut Vec<u8>, mask: u16, flags: u16) -> (r: Result<
    Option<std::ops::Range<usize>>,
    CapError,
>)
    ensures
        match link_control_of(old(config_buffer)@) {
            Err(e) => r == Err::<Option<std::ops::Range<usize>>, CapError>(e) && final(config_buffer)@
                == old(config_buffer)@,
            Ok((start, end)) => {
                &&& final(config_buffer)@ == patch_buffer(old(config_buffer)@, start, mask, flags)
                &&& r matches Ok(written)
                &&& (written is Some <==> writes(old(config_buffer)@, start, mask, flags))
                &&& (written matches Some(reg) ==> range_is(reg, start, end))
            },
        },
{
    let reg = match find_pci_exp_link_control(config_buffer.as_slice()) {
        Ok(reg) => reg,
        Err(e) => return Err(e),
    };
    if apply_link_control_patch(config_buffer, &reg, mask, flags) {
        Ok(Some(reg))
    } else {
        Ok(None)
    }
}

/// Patching is idempotent: a second application of the same patch finds
/// the value already in place, writes nothing, and leaves the buffer as the
/// first application left it.
pub proof fn lemma_patch_idempotent(buf: Seq<u8>, at: int, mask: u16, flags: u16)
    requires
        0 <= at,
        at + 1 < buf.len(),
    ensures
        patched(patched(le16(buf, at), mask, flags), mask, flags) == patched(le16(buf, at), mask, flags),
        !writes(patch_buffer(buf, at, mask, flags), at, mask, flags),
        patch_buffer(patch_buffer(buf, at, mask, flags), at, mask, flags) == patch_buffer(
            buf,
            at,
            mask,
            flags,
        ),
{
    let v = le16(buf, at);
    assert(((((v & !mask) | flags) & !mask) | flags) == ((v & !mask) | flags)) by (bit_vector);
    if writes(buf, at, mask, flags) {
        lemma_store_then_read(buf, at, patched(v, mask, flags));
    }
}

/// When `flags` sets no bit outside `mask`, the patched value carries
/// `flags` on the bits of `mask` and the old value on every other bit.
pub proof fn lemma_bits_outside_mask_kept(old: u16, mask: u16, flags: u16)
    requires
        flags & !mask == 0,
    ensures
        patched(old, mask, flags) & !mask == old & !mask,
        patched(old, mask, flags) & mask == flags,
{
    assert(((old & !mask) | flags) & !mask == old & !mask) by (bit_vector)
        requires
            flags & !mask == 0,
    ;
    assert(((old & !mask) | flags) & mask == flags) by (bit_vector)
        requires
            flags & !mask == 0,
    ;
}

/// Enabling L0s sets bit 0 and leaves bit 1 and every other bit as it was.
pub proof fn lemma_enable_l0s_isolated(old: u16)
    ensures
        patched(old, PCI_EXP_LNKCTL_ASPM_L0S, PCI_EXP_LNKCTL_ASPM_L0S) & 1 == 1,
        patched(old, PCI_EXP_LNKCTL_ASPM_L0S, PCI_EXP_LNKCTL_ASPM_L0S) & 0xfffe == old & 0xfffe,
{
    assert(((old & !1u16) | 1u16) & 1u16 == 1u16) by (bit_vector);
    assert(((old & !1u16) | 1u16) & 0xfffeu16 == old & 0xfffeu16) by (bit_vector);
}

} // verus!
