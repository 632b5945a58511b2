//! Planning the contiguous load region.
//!
//! The loadable segments' virtual addresses span a range `[lo, hi)`.  The
//! loader reserves one contiguous host region of `hi - lo` bytes and places
//! the image inside it at a constant offset: the base address is the region
//! start minus `lo`, computed with wrapping arithmetic, so that base plus any
//! virtual address lands inside the region.

use crate::elf::{ProgramHeader, PT_LOAD};
use crate::LoadError;
use vstd::prelude::*;

verus! {

/// The virtual-address range `[lo, hi)` spanned by the loadable segments.
#[derive(Clone, Copy, PartialEq, Eq, Structural, Debug)]
pub struct LoadRange {
    pub lo: u64,
    pub hi: u64,
}

/// The header describes a loadable segment.
pub open spec fn is_load(ph: ProgramHeader) -> bool {
    ph.p_type == PT_LOAD
}

/// Some header is loadable.
pub open spec fn has_load(phs: Seq<ProgramHeader>) -> bool {
    exists|i: int| 0 <= i < phs.len() && is_load(phs[i])
}

/// Every loadable segment's end address fits the 64-bit address space.
pub open spec fn loads_fit(phs: Seq<ProgramHeader>) -> bool {
    forall|i: int|
        0 <= i < phs.len() && is_load(phs[i]) ==> phs[i].p_vaddr + phs[i].p_memsz <= u64::MAX
}

/// The range is exactly the span of the loadable segments: `lo` the least
/// `p_vaddr`, `hi` the greatest `p_vaddr + p_memsz`.
pub open spec fn is_span(rg: LoadRange, phs: Seq<ProgramHeader>) -> bool {
    &&& (forall|i: int|
        0 <= i < phs.len() && is_load(phs[i]) ==> rg.lo <= phs[i].p_vaddr && phs[i].p_vaddr
            + phs[i].p_memsz <= rg.hi)
    &&& (exists|i: int| 0 <= i < phs.len() && is_load(phs[i]) && rg.lo == phs[i].p_vaddr)
    &&& (exists|i: int|
        0 <= i < phs.len() && is_load(phs[i]) && rg.hi == phs[i].p_vaddr + phs[i].p_memsz)
}

/// Compute the virtual-address range spanned by the loadable segments.
pub fn load_range(phdrs: &Vec<ProgramHeader>) -> (r: Result<LoadRange, LoadError>)
    ensures
        r is Ok <==> has_load(phdrs@) && loads_fit(phdrs@),
        r matches Ok(rg) ==> is_span(rg, phdrs@) && rg.lo <= rg.hi,
        r == Err::<LoadRange, LoadError>(LoadError::NoLoadSegment) <==> !has_load(phdrs@),
        r is Err ==> r == Err::<LoadRange, LoadError>(LoadError::NoLoadSegment) || r
            == Err::<LoadRange, LoadError>(LoadError::SegmentOverflow),
{
    let count = phdrs.len();
    let mut lo: u64 = 0;
    let mut hi: u64 = 0;
    let mut found = false;
    let mut i: usize = 0;
    while i < count
        invariant
            i <= count,
            count == phdrs@.len(),
            found <==> has_load(phdrs@.take(i as int)),
            forall|j: int|
                0 <= j < i && is_load(phdrs@[j]) ==> phdrs@[j].p_vaddr + phdrs@[j].p_memsz
                    <= u64::MAX,
            found ==> is_span(LoadRange { lo, hi }, phdrs@.take(i as int)),
            found ==> lo <= hi,
        decreases count - i,
    {
        let ph = phdrs[i];
        if ph.p_type == PT_LOAD {
            if ph.p_memsz > u64::MAX - ph.p_vaddr {
                proof {
                    assert(has_load(phdrs@)) by {
                        assert(is_load(phdrs@[i as int]));
                    }
                }
                return Err(LoadError::SegmentOverflow);
            }
            let end = ph.p_vaddr + ph.p_memsz;
            if !found || ph.p_vaddr < lo {
                lo = ph.p_vaddr;
            }
            if !found || end > hi {
                hi = end;
            }
            found = true;
        }
        proof {
            let pre = phdrs@.take(i as int);
            let cur = phdrs@.take(i + 1);
            assert(cur.drop_last() =~= pre);
            assert(cur.last() == phdrs@[i as int]);
            assert forall|j: int| 0 <= j < cur.len() implies cur[j] == phdrs@[j] by {}
            if found {
                if is_load(phdrs@[i as int]) {
                    assert(has_load(cur)) by {
                        assert(is_load(cur[i as int]));
                    }
                } else {
                    assert(has_load(pre) ==> has_load(cur));
                }
            }
        }
        i = i + 1;
    }
    proof {
        assert(phdrs@.take(count as int) =~= phdrs@);
    }
    if !found {
        return Err(LoadError::NoLoadSegment);
    }
    Ok(LoadRange { lo, hi })
}

/// The base address: the reserved region's start pulled back by `lo`, so that
/// base plus a virtual address is the segment's host address.
pub open spec fn base_of(region_start: u64, lo: u64) -> u64 {
    region_start.wrapping_sub(lo)
}

/// The host address at which the byte at virtual address `v` is placed.
pub open spec fn image_addr(base: u64, v: u64) -> u64 {
    base.wrapping_add(v)
}

/// Compute the base address for a region reserved at `region_start`.
pub fn base_for(region_start: u64, lo: u64) -> (b: u64)
    ensures
        b == base_of(region_start, lo),
{
    region_start.wrapping_sub(lo)
}

/// Compute the host address of virtual address `v`.
pub fn host_addr(base: u64, v: u64) -> (a: u64)
    ensures
        a == image_addr(base, v),
{
    base.wrapping_add(v)
}

/// Within the planned span, base-relative addressing lands exactly at the
/// region offset: the host address of `v` is the region start plus `v - lo`.
pub proof fn lemma_image_addr_in_region(region_start: u64, lo: u64, hi: u64, v: u64)
    requires
        lo <= v <= hi,
        region_start + (hi - lo) <= u64::MAX,
    ensures
        image_addr(base_of(region_start, lo), v) == region_start + (v - lo),
{
}

/// Containment: every loadable segment's mapped host range lies inside the
/// reserved region's host range.
pub proof fn lemma_segment_containment(
    rg: LoadRange,
    phs: Seq<ProgramHeader>,
    region_start: u64,
    i: int,
)
    requires
        is_span(rg, phs),
        0 <= i < phs.len(),
        is_load(phs[i]),
        region_start + (rg.hi - rg.lo) <= u64::MAX,
    ensures
        region_start <= image_addr(base_of(region_start, rg.lo), phs[i].p_vaddr),
        image_addr(base_of(region_start, rg.lo), phs[i].p_vaddr) + phs[i].p_memsz <= region_start
            + (rg.hi - rg.lo),
{
    lemma_image_addr_in_region(region_start, rg.lo, rg.hi, phs[i].p_vaddr);
}

} // verus!
