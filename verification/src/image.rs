//! The contents of the mapped load region.
//!
//! The loader places every loadable segment inside the reserved region: the
//! segment's file bytes first, then zeroes up to its memory size.  This module
//! computes the whole region's bytes; the unverified shell only copies them
//! into the reserved memory, segment by segment.

use crate::elf::ProgramHeader;
use crate::layout::{is_load, is_span, LoadRange};
use crate::LoadError;
use vstd::prelude::*;

verus! {

/// The segment is actually mapped: loadable and of non-zero memory size.
pub open spec fn is_mapped(ph: ProgramHeader) -> bool {
    is_load(ph) && ph.p_memsz > 0
}

/// The segment's virtual-address window lies inside a region of `size` bytes
/// starting at virtual address `lo`.
pub open spec fn seg_in_span(lo: int, size: int, ph: ProgramHeader) -> bool {
    lo <= ph.p_vaddr && ph.p_vaddr + ph.p_memsz <= lo + size
}

/// The segment's file bytes exist: the file range lies inside the image and
/// does not exceed the memory size.
pub open spec fn seg_data_ok(img: Seq<u8>, ph: ProgramHeader) -> bool {
    ph.p_filesz <= ph.p_memsz && ph.p_offset + ph.p_filesz <= img.len()
}

/// One segment placed over region contents `r`: inside the segment's window
/// the file bytes, then zeroes up to the memory size; elsewhere `r` unchanged.
pub open spec fn place_segment(r: Seq<u8>, img: Seq<u8>, lo: int, ph: ProgramHeader) -> Seq<u8> {
    if is_mapped(ph) {
        Seq::new(
            r.len(),
            |j: int|
                {
                    let off = j - (ph.p_vaddr - lo);
                    if 0 <= off < ph.p_filesz {
                        img[ph.p_offset + off]
                    } else if 0 <= off < ph.p_memsz {
                        0u8
                    } else {
                        r[j]
                    }
                },
        )
    } else {
        r
    }
}

/// The region's bytes after every segment has been placed, in program-header
/// order, over an initially zeroed region of `size` bytes.
pub open spec fn region_model(img: Seq<u8>, phs: Seq<ProgramHeader>, lo: int, size: nat) -> Seq<u8>
    decreases phs.len(),
{
    if phs.len() == 0 {
        Seq::new(size, |j: int| 0u8)
    } else {
        place_segment(region_model(img, phs.drop_last(), lo, size), img, lo, phs.last())
    }
}

pub proof fn lemma_region_model_len(img: Seq<u8>, phs: Seq<ProgramHeader>, lo: int, size: nat)
    ensures
        region_model(img, phs, lo, size).len() == size,
    decreases phs.len(),
{
    if phs.len() > 0 {
        lemma_region_model_len(img, phs.drop_last(), lo, size);
    }
}

/// Copy one segment's window into the region: file bytes first, then zeroes.
pub fn place_segment_into(region: &mut Vec<u8>, img: &[u8], lo: u64, ph: &ProgramHeader)
    requires
        is_mapped(*ph),
        seg_data_ok(img@, *ph),
        seg_in_span(lo as int, old(region)@.len() as int, *ph),
    ensures
        final(region)@ == place_segment(old(region)@, img@, lo as int, *ph),
{
    let n = img.len();
    let rlen = region.len();
    let start = (ph.p_vaddr - lo) as usize;
    let foff = ph.p_offset as usize;
    let filesz = ph.p_filesz as usize;
    let memsz = ph.p_memsz as usize;
    let mut j: usize = 0;
    while j < memsz
        invariant
            j <= memsz,
            n == img@.len(),
            rlen == region@.len(),
            start == ph.p_vaddr - lo,
            foff == ph.p_offset,
            filesz == ph.p_filesz,
            memsz == ph.p_memsz,
            seg_data_ok(img@, *ph),
            start + memsz <= region@.len(),
            region@.len() == old(region)@.len(),
            forall|idx: int|
                0 <= idx < region@.len() && !(start <= idx < start + j) ==> region@[idx] == old(
                    region,
                )@[idx],
            forall|idx: int|
                start <= idx < start + j ==> #[trigger] region@[idx] == (if idx - start
                    < ph.p_filesz {
                    img@[ph.p_offset + (idx - start)]
                } else {
                    0u8
                }),
        decreases memsz - j,
    {
        if j < filesz {
            let b = img[foff + j];
            region.set(start + j, b);
        } else {
            region.set(start + j, 0);
        }
        j = j + 1;
    }
    proof {
        assert(region@ =~= place_segment(old(region)@, img@, lo as int, *ph));
    }
}

/// Build the whole region's bytes: a zeroed buffer of `hi - lo` bytes with
/// every loadable segment placed at its window, in program-header order.
pub fn build_region(img: &[u8], phdrs: &Vec<ProgramHeader>, rg: &LoadRange) -> (r: Result<
    Vec<u8>,
    LoadError,
>)
    requires
        is_span(*rg, phdrs@),
        rg.lo <= rg.hi,
        rg.hi - rg.lo <= usize::MAX,
    ensures
        r is Ok <==> (forall|i: int|
            0 <= i < phdrs@.len() && is_mapped(phdrs@[i]) ==> seg_data_ok(img@, phdrs@[i])),
        r matches Ok(v) ==> v@ == region_model(
            img@,
            phdrs@,
            rg.lo as int,
            (rg.hi - rg.lo) as nat,
        ),
        r is Err ==> r == Err::<Vec<u8>, LoadError>(LoadError::TruncatedSegment),
{
    let size = (rg.hi - rg.lo) as usize;
    let ghost gsize = (rg.hi - rg.lo) as nat;
    let mut region: Vec<u8> = Vec::new();
    let mut z: usize = 0;
    while z < size
        invariant
            z <= size,
            region@.len() == z,
            forall|j: int| 0 <= j < z ==> region@[j] == 0u8,
        decreases size - z,
    {
        region.push(0);
        z = z + 1;
    }
    proof {
        assert(region@ =~= region_model(img@, phdrs@.take(0), rg.lo as int, gsize));
    }
    let count = phdrs.len();
    let mut i: usize = 0;
    while i < count
        invariant
            i <= count,
            count == phdrs@.len(),
            size == rg.hi - rg.lo,
            gsize == size,
            is_span(*rg, phdrs@),
            region@.len() == size,
            forall|j: int| 0 <= j < i && is_mapped(phdrs@[j]) ==> seg_data_ok(img@, phdrs@[j]),
            region@ == region_model(img@, phdrs@.take(i as int), rg.lo as int, gsize),
        decreases count - i,
    {
        let ph = phdrs[i];
        if ph.p_type == crate::elf::PT_LOAD && ph.p_memsz > 0 {
            if ph.p_filesz > ph.p_memsz || ph.p_offset > img.len() as u64 || ph.p_filesz
                > img.len() as u64 - ph.p_offset {
                return Err(LoadError::TruncatedSegment);
            }
            place_segment_into(&mut region, img, rg.lo, &ph);
        }
        proof {
            let pre = phdrs@.take(i as int);
            let cur = phdrs@.take(i + 1);
            assert(cur.drop_last() =~= pre);
            assert(cur.last() == phdrs@[i as int]);
        }
        i = i + 1;
    }
    proof {
        assert(phdrs@.take(count as int) =~= phdrs@);
    }
    Ok(region)
}

/// The mapped windows of two distinct loadable segments never overlap.
pub open spec fn loads_disjoint(phs: Seq<ProgramHeader>) -> bool {
    forall|i: int, j: int|
        0 <= i < phs.len() && 0 <= j < phs.len() && i != j && is_mapped(phs[i]) && is_mapped(
            phs[j],
        ) ==> phs[i].p_vaddr + phs[i].p_memsz <= phs[j].p_vaddr || phs[j].p_vaddr + phs[j].p_memsz
            <= phs[i].p_vaddr
}

/// Zeroing: after mapping, every byte of a loadable segment's tail — the
/// range `[p_filesz, p_memsz)` relative to the segment — is zero, provided
/// the loadable segments' windows do not overlap.
pub proof fn lemma_bss_zeroed(
    img: Seq<u8>,
    phs: Seq<ProgramHeader>,
    lo: int,
    size: nat,
    i: int,
    k: int,
)
    requires
        0 <= i < phs.len(),
        is_mapped(phs[i]),
        forall|j: int|
            0 <= j < phs.len() && is_mapped(phs[j]) ==> seg_in_span(lo, size as int, phs[j]),
        forall|j: int|
            0 <= j < phs.len() && is_mapped(phs[j]) ==> phs[j].p_filesz <= phs[j].p_memsz,
        loads_disjoint(phs),
        phs[i].p_filesz <= k < phs[i].p_memsz,
    ensures
        region_model(img, phs, lo, size)[phs[i].p_vaddr - lo + k] == 0,
    decreases phs.len(),
{
    let pos = phs[i].p_vaddr - lo + k;
    let last = phs.last();
    let prev = region_model(img, phs.drop_last(), lo, size);
    lemma_region_model_len(img, phs.drop_last(), lo, size);
    lemma_region_model_len(img, phs, lo, size);
    assert(seg_in_span(lo, size as int, phs[i]));
    assert(0 <= pos < size);
    if i == phs.len() - 1 {
        assert(region_model(img, phs, lo, size)[pos] == 0);
    } else {
        assert(phs.drop_last()[i] == phs[i]);
        lemma_bss_zeroed(img, phs.drop_last(), lo, size, i, k);
        assert(region_model(img, phs, lo, size) == place_segment(prev, img, lo, last));
        if is_mapped(last) {
            assert(phs[i].p_vaddr + phs[i].p_memsz <= last.p_vaddr || last.p_vaddr + last.p_memsz
                <= phs[i].p_vaddr) by {
                assert(last == phs[phs.len() - 1]);
            }
            assert(last.p_filesz <= last.p_memsz) by {
                assert(last == phs[phs.len() - 1]);
            }
            let off = pos - (last.p_vaddr - lo);
            assert(!(0 <= off < last.p_memsz));
            assert(place_segment(prev, img, lo, last)[pos] == prev[pos]);
        }
    }
}

} // verus!
