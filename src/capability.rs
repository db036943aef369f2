//! Walking the standard capability list of a configuration-space buffer.

use vstd::prelude::*;

verus! {

/// Offset of the Capabilities Pointer field in the standard header.
pub const PCI_CAPABILITY_LIST: usize = 0x34;

/// Capability identifier of the PCI Express capability structure.
pub const PCI_CAP_ID_EXP: u8 = 0x10;

/// Length in bytes of the PCI Express capability structure.
pub const PCI_CAP_ID_EXP_LEN: usize = 0x3c;

/// Offset of the Link Control register inside the PCI Express capability.
pub const PCI_EXP_LNKCTL: usize = 0x10;

/// Why a capability could not be located.
#[derive(Clone, Copy, Debug, PartialEq, Eq, Structural)]
pub enum CapError {
    /// A pointer or offset falls outside the buffer.
    OutOfBounds,
    /// A non-zero `next` pointer does not move past the entry's own header.
    MalformedList,
    /// The matching capability would overrun the next entry or the buffer end.
    LengthOverflow,
    /// The list ended without an entry of the wanted id.
    NotFound,
}

/// Result of visiting the entry at offset `p` and, when needed, the entries
/// after it. Offsets are bytes, so every entry lies below 256 and each step
/// strictly moves forward.
pub open spec fn walk(buf: Seq<u8>, p: int, id: u8, len: int) -> Result<(int, int), CapError>
    decreases 256 - p,
{
    if p < 0 || p + 1 >= buf.len() {
        Err(CapError::OutOfBounds)
    } else {
        let next = buf[p + 1] as int;
        if next != 0 && next < p + 2 {
            Err(CapError::MalformedList)
        } else if buf[p] == id {
            if (next != 0 && len > next - p) || len > buf.len() - p {
                Err(CapError::LengthOverflow)
            } else {
                Ok((p, p + len))
            }
        } else if next > p {
            walk(buf, next, id, len)
        } else {
            Err(CapError::NotFound)
        }
    }
}

/// The byte range `[start, end)` of the capability `id` of length `len`, as
/// found by following the list from the Capabilities Pointer.
pub open spec fn locate(buf: Seq<u8>, id: u8, len: int) -> Result<(int, int), CapError> {
    if buf.len() <= PCI_CAPABILITY_LIST {
        Err(CapError::OutOfBounds)
    } else {
        walk(buf, buf[PCI_CAPABILITY_LIST as int] as int, id, len)
    }
}

/// Whether an executable range stands for the pair `(start, end)`.
pub open spec fn range_is(r: std::ops::Range<usize>, start: int, end: int) -> bool {
    r.start as int == start && r.end as int == end
}

/// Whether an executable result agrees with a located pair or failure.
pub open spec fn result_is(
    r: Result<std::ops::Range<usize>, CapError>,
    s: Result<(int, int), CapError>,
) -> bool {
    match (r, s) {
        (Ok(a), Ok((start, end))) => range_is(a, start, end),
        (Err(e), Err(f)) => e == f,
        _ => false,
    }
}

/// Finds the capability `target_capability_id`, which must span
/// `target_capability_length` bytes, and returns its byte range.
pub fn find_pci_capability(
    config_buffer: &[u8],
    target_capability_id: u8,
    target_capability_length: usize,
) -> (r: Result<std::ops::Range<usize>, CapError>)
    ensures
        result_is(r, locate(config_buffer@, target_capability_id, target_capability_length as int)),
        r matches Ok(a) ==> a.start + target_capability_length == a.end && a.end
            <= config_buffer@.len(),
{
    let buf_len = config_buffer.len();
    if buf_len <= PCI_CAPABILITY_LIST {
        return Err(CapError::OutOfBounds);
    }
    let mut capability_pointer: usize = config_buffer[PCI_CAPABILITY_LIST] as usize;

    loop
        invariant
            buf_len == config_buffer@.len(),
            buf_len > PCI_CAPABILITY_LIST,
            capability_pointer < 256,
            walk(config_buffer@, capability_pointer as int, target_capability_id, target_capability_length as int)
                == locate(config_buffer@, target_capability_id, target_capability_length as int),
        decreases 256 - capability_pointer,
    {
        if capability_pointer + 1 >= buf_len {
            return Err(CapError::OutOfBounds);
        }
        let capability_id = config_buffer[capability_pointer];
        let next_capability_pointer = config_buffer[capability_pointer + 1] as usize;

        if next_capability_pointer != 0 && next_capability_pointer < capability_pointer + 2 {
            return Err(CapError::MalformedList);
        }

        if capability_id == target_capability_id {
            let overruns_next = next_capability_pointer != 0 && target_capability_length
                > next_capability_pointer - capability_pointer;
            let overruns_end = target_capability_length > buf_len - capability_pointer;
            if overruns_next || overruns_end {
                return Err(CapError::LengthOverflow);
            }
            return Ok(capability_pointer..capability_pointer + target_capability_length);
        }

        if next_capability_pointer > capability_pointer {
            capability_pointer = next_capability_pointer;
        } else {
            return Err(CapError::NotFound);
        }
    }
}

/// The byte range of the Link Control register, found through the PCI
/// Express capability structure.
pub open spec fn link_control_of(buf: Seq<u8>) -> Result<(int, int), CapError> {
    match locate(buf, PCI_CAP_ID_EXP, PCI_CAP_ID_EXP_LEN as int) {
        Ok((start, _)) => Ok((start + PCI_EXP_LNKCTL, start + PCI_EXP_LNKCTL + 2)),
        Err(e) => Err(e),
    }
}

/// Finds the two-byte Link Control register of the PCI Express capability.
pub fn find_pci_exp_link_control(config_buffer: &[u8]) -> (r: Result<std::ops::Range<usize>, CapError>)
    ensures
        result_is(r, link_control_of(config_buffer@)),
        r matches Ok(a) ==> a.end == a.start + 2 && a.end <= config_buffer@.len(),
{
    match find_pci_capability(config_buffer, PCI_CAP_ID_EXP, PCI_CAP_ID_EXP_LEN) {
        Ok(capability_range) => {
            let start = capability_range.start + PCI_EXP_LNKCTL;
            Ok(start..start + 2)
        },
        Err(e) => Err(e),
    }
}

/// The `next` pointer of the entry at `p`.
pub open spec fn next_of(buf: Seq<u8>, p: int) -> int {
    buf[p + 1] as int
}

/// `chain` holds the offsets of the entries met one after another when the
/// list is followed from the Capabilities Pointer: each entry lies in the
/// buffer, and each link but the last one's moves past the entry's header.
pub open spec fn is_forward_chain(buf: Seq<u8>, chain: Seq<int>) -> bool {
    &&& buf.len() > PCI_CAPABILITY_LIST
    &&& chain.len() > 0
    &&& chain[0] == buf[PCI_CAPABILITY_LIST as int] as int
    &&& forall|i: int|
        0 <= i < chain.len() ==> 0 <= #[trigger] chain[i] && chain[i] + 1 < buf.len()
    &&& forall|i: int|
        0 <= i < chain.len() - 1 ==> {
            &&& next_of(buf, #[trigger] chain[i]) == chain[i + 1]
            &&& chain[i + 1] >= chain[i] + 2
        }
}

/// No entry of `chain` before its last one has the id `id`.
pub open spec fn passes_over(buf: Seq<u8>, chain: Seq<int>, id: u8) -> bool {
    forall|i: int| 0 <= i < chain.len() - 1 ==> buf[#[trigger] chain[i]] != id
}

proof fn lemma_walk_along(buf: Seq<u8>, chain: Seq<int>, id: u8, len: int, k: int)
    requires
        is_forward_chain(buf, chain),
        passes_over(buf, chain, id),
        0 <= k < chain.len(),
    ensures
        walk(buf, chain[k], id, len) == walk(buf, chain.last(), id, len),
    decreases chain.len() - k,
{
    if k < chain.len() - 1 {
        assert(0 <= chain[k] && chain[k] + 1 < buf.len());
        assert(next_of(buf, chain[k]) == chain[k + 1]);
        assert(buf[chain[k]] != id);
        lemma_walk_along(buf, chain, id, len, k + 1);
    }
}

/// Following a list along a forward chain reaches the chain's last entry
/// with nothing decided yet: the search then goes as from that entry.
pub proof fn lemma_locate_along_chain(buf: Seq<u8>, chain: Seq<int>, id: u8, len: int)
    requires
        is_forward_chain(buf, chain),
        passes_over(buf, chain, id),
    ensures
        locate(buf, id, len) == walk(buf, chain.last(), id, len),
{
    lemma_walk_along(buf, chain, id, len, 0);
}

/// On a forward-only list that reaches a PCI Express capability with room
/// for its whole structure, the Link Control register is found at offset
/// 0x10 of that capability, two bytes long.
pub proof fn lemma_link_control_found(buf: Seq<u8>, chain: Seq<int>)
    requires
        is_forward_chain(buf, chain),
        passes_over(buf, chain, PCI_CAP_ID_EXP),
        buf[chain.last()] == PCI_CAP_ID_EXP,
        next_of(buf, chain.last()) == 0
            || next_of(buf, chain.last()) - chain.last() >= PCI_CAP_ID_EXP_LEN,
        buf.len() - chain.last() >= PCI_CAP_ID_EXP_LEN,
    ensures
        link_control_of(buf) == Ok::<(int, int), CapError>(
            (chain.last() + PCI_EXP_LNKCTL, chain.last() + PCI_EXP_LNKCTL + 2),
        ),
{
    lemma_locate_along_chain(buf, chain, PCI_CAP_ID_EXP, PCI_CAP_ID_EXP_LEN as int);
    assert(0 <= chain[chain.len() - 1]);
}

/// A list that ends without any PCI Express capability gives the not-found
/// failure, never an out-of-bounds or overflow one.
pub proof fn lemma_link_control_absent(buf: Seq<u8>, chain: Seq<int>)
    requires
        is_forward_chain(buf, chain),
        forall|i: int| 0 <= i < chain.len() ==> buf[#[trigger] chain[i]] != PCI_CAP_ID_EXP,
        next_of(buf, chain.last()) == 0,
    ensures
        link_control_of(buf) == Err::<(int, int), CapError>(CapError::NotFound),
{
    lemma_locate_along_chain(buf, chain, PCI_CAP_ID_EXP, PCI_CAP_ID_EXP_LEN as int);
    assert(0 <= chain[chain.len() - 1]);
}

/// An entry whose non-zero `next` does not move past its own header stops
/// the search as a malformed list, whatever its own id and whatever lies
/// beyond it.
pub proof fn lemma_backward_link_malformed(buf: Seq<u8>, chain: Seq<int>, id: u8, len: int)
    requires
        is_forward_chain(buf, chain),
        passes_over(buf, chain, id),
        0 < next_of(buf, chain.last()) < chain.last() + 2,
    ensures
        locate(buf, id, len) == Err::<(int, int), CapError>(CapError::MalformedList),
{
    lemma_locate_along_chain(buf, chain, id, len);
    assert(0 <= chain[chain.len() - 1]);
}

/// A PCI Express capability with less than its structure's length of room,
/// up to the next entry or up to the buffer's end, is refused as a length
/// overflow, and no range comes back.
pub proof fn lemma_link_control_overflow(buf: Seq<u8>, chain: Seq<int>)
    requires
        is_forward_chain(buf, chain),
        passes_over(buf, chain, PCI_CAP_ID_EXP),
        buf[chain.last()] == PCI_CAP_ID_EXP,
        next_of(buf, chain.last()) == 0 || next_of(buf, chain.last()) >= chain.last() + 2,
        (next_of(buf, chain.last()) != 0
            && next_of(buf, chain.last()) - chain.last() < PCI_CAP_ID_EXP_LEN)
            || buf.len() - chain.last() < PCI_CAP_ID_EXP_LEN,
    ensures
        link_control_of(buf) == Err::<(int, int), CapError>(CapError::LengthOverflow),
{
    lemma_locate_along_chain(buf, chain, PCI_CAP_ID_EXP, PCI_CAP_ID_EXP_LEN as int);
    assert(0 <= chain[chain.len() - 1]);
}

} // verus!
