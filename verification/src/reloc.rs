//! Applying the two supported relocation kinds to the region contents.
//!
//! A relative entry stores the 64-bit word `base + r_addend` at the target
//! `base + r_offset`; in region terms, at offset `r_offset - lo`.  An
//! irelative entry stores what the resolver at `base + r_addend` returns;
//! the resolver can only run once the region is mapped, so the relocator
//! hands the unverified shell the pair of host addresses to patch and keeps
//! every other byte of the region as it was.  All other kinds are ignored.

use crate::bytes::{le_bytes_of, le_value, lemma_le_bytes_of_value, write_le64};
use crate::elf::{spec_rela_kind, rela_kind, RelaEntry, R_X86_64_IRELATIVE, R_X86_64_RELATIVE};
use crate::layout::{image_addr, LoadRange};
use crate::LoadError;
use vstd::prelude::*;

verus! {

/// One irelative patch the shell must apply after mapping: call the resolver
/// and store the returned word at the target, both host addresses.
#[derive(Clone, Copy, PartialEq, Eq, Structural, Debug)]
pub struct IrelativeFix {
    pub target: u64,
    pub resolver: u64,
}

/// The entry's kind makes the loader write an eight-byte word at its target.
pub open spec fn writes_word(e: RelaEntry) -> bool {
    spec_rela_kind(e) == R_X86_64_RELATIVE || spec_rela_kind(e) == R_X86_64_IRELATIVE
}

/// The entry's eight-byte target lies inside the planned range.
pub open spec fn reloc_in_range(rg: LoadRange, e: RelaEntry) -> bool {
    rg.lo <= e.r_offset && e.r_offset + 8 <= rg.hi
}

/// The word a relative entry stores: base plus addend, wrapping.
pub open spec fn relative_value(base: u64, e: RelaEntry) -> u64 {
    base.wrapping_add(e.r_addend)
}

/// The patch an irelative entry asks for.
pub open spec fn fix_of(base: u64, e: RelaEntry) -> IrelativeFix {
    IrelativeFix { target: image_addr(base, e.r_offset), resolver: image_addr(base, e.r_addend) }
}

/// Region contents with the eight little-endian bytes of `v` at `off`.
pub open spec fn write_word(r: Seq<u8>, off: int, v: u64) -> Seq<u8> {
    Seq::new(
        r.len(),
        |j: int|
            if off <= j < off + 8 {
                le_bytes_of(v)[j - off]
            } else {
                r[j]
            },
    )
}

/// Region contents after one entry: a relative entry in range writes its
/// word; everything else leaves the region as it is.
pub open spec fn apply_one(r: Seq<u8>, rg: LoadRange, base: u64, e: RelaEntry) -> Seq<u8> {
    if spec_rela_kind(e) == R_X86_64_RELATIVE && reloc_in_range(rg, e) {
        write_word(r, e.r_offset - rg.lo, relative_value(base, e))
    } else {
        r
    }
}

/// Region contents after every entry, in table order.
pub open spec fn apply_all(r: Seq<u8>, rg: LoadRange, base: u64, relas: Seq<RelaEntry>) -> Seq<u8>
    decreases relas.len(),
{
    if relas.len() == 0 {
        r
    } else {
        apply_one(apply_all(r, rg, base, relas.drop_last()), rg, base, relas.last())
    }
}

/// The irelative patches of a relocation table, in table order.
pub open spec fn irelative_fixes(base: u64, relas: Seq<RelaEntry>) -> Seq<IrelativeFix>
    decreases relas.len(),
{
    if relas.len() == 0 {
        Seq::empty()
    } else {
        irelative_fixes(base, relas.drop_last()) + (if spec_rela_kind(relas.last())
            == R_X86_64_IRELATIVE {
            seq![fix_of(base, relas.last())]
        } else {
            Seq::empty()
        })
    }
}

pub proof fn lemma_apply_all_len(r: Seq<u8>, rg: LoadRange, base: u64, relas: Seq<RelaEntry>)
    ensures
        apply_all(r, rg, base, relas).len() == r.len(),
    decreases relas.len(),
{
    if relas.len() > 0 {
        lemma_apply_all_len(r, rg, base, relas.drop_last());
    }
}

/// Apply a relocation table to the region contents.  Relative entries are
/// written in place; irelative entries are returned as patches for the shell.
/// Any word-writing entry whose target falls outside the planned range is
/// refused, before anything is written.
pub fn apply_relocations(
    region: &mut Vec<u8>,
    rg: &LoadRange,
    base: u64,
    relas: &Vec<RelaEntry>,
) -> (r: Result<Vec<IrelativeFix>, LoadError>)
    requires
        rg.lo <= rg.hi,
        old(region)@.len() == rg.hi - rg.lo,
    ensures
        r is Ok <==> (forall|i: int|
            0 <= i < relas@.len() && writes_word(relas@[i]) ==> reloc_in_range(*rg, relas@[i])),
        r matches Ok(fixes) ==> final(region)@ == apply_all(old(region)@, *rg, base, relas@)
            && fixes@ == irelative_fixes(base, relas@),
        r is Err ==> r == Err::<Vec<IrelativeFix>, LoadError>(LoadError::RelocationOutOfRange)
            && final(region)@ == old(region)@,
{
    let count = relas.len();
    let mut i: usize = 0;
    while i < count
        invariant
            i <= count,
            count == relas@.len(),
            rg.lo <= rg.hi,
            forall|j: int|
                0 <= j < i && writes_word(relas@[j]) ==> reloc_in_range(*rg, relas@[j]),
        decreases count - i,
    {
        let e = relas[i];
        let k = rela_kind(&e);
        if k == R_X86_64_RELATIVE || k == R_X86_64_IRELATIVE {
            if e.r_offset < rg.lo || rg.hi - rg.lo < 8 || e.r_offset - rg.lo > rg.hi - rg.lo
                - 8 {
                return Err(LoadError::RelocationOutOfRange);
            }
        }
        i = i + 1;
    }
    let mut fixes: Vec<IrelativeFix> = Vec::new();
    let mut i: usize = 0;
    proof {
        assert(relas@.take(0) =~= Seq::<RelaEntry>::empty());
        assert(fixes@ =~= irelative_fixes(base, relas@.take(0)));
    }
    while i < count
        invariant
            i <= count,
            count == relas@.len(),
            region@.len() == rg.hi - rg.lo,
            forall|j: int|
                0 <= j < count && writes_word(relas@[j]) ==> reloc_in_range(*rg, relas@[j]),
            region@ == apply_all(old(region)@, *rg, base, relas@.take(i as int)),
            fixes@ == irelative_fixes(base, relas@.take(i as int)),
        decreases count - i,
    {
        let e = relas[i];
        let k = rela_kind(&e);
        if k == R_X86_64_RELATIVE {
            let rl = region.len();
            proof {
                assert(reloc_in_range(*rg, relas@[i as int]));
            }
            let off = (e.r_offset - rg.lo) as usize;
            let v = base.wrapping_add(e.r_addend);
            write_le64(region, off, v);
            proof {
                let pre = apply_all(old(region)@, *rg, base, relas@.take(i as int));
                let o = e.r_offset - rg.lo;
                let ww = write_word(pre, o, relative_value(base, e));
                assert forall|j: int| 0 <= j < region@.len() implies region@[j] == ww[j] by {
                    if o <= j < o + 8 {
                        assert(region@[j] == region@.subrange(o, o + 8)[j - o]);
                    }
                }
                assert(region@ =~= ww);
            }
        } else if k == R_X86_64_IRELATIVE {
            let target = base.wrapping_add(e.r_offset);
            let resolver = base.wrapping_add(e.r_addend);
            fixes.push(IrelativeFix { target, resolver });
        }
        proof {
            let pre = relas@.take(i as int);
            let cur = relas@.take(i + 1);
            assert(cur.drop_last() =~= pre);
            assert(cur.last() == relas@[i as int]);
            if spec_rela_kind(relas@[i as int]) == R_X86_64_IRELATIVE {
                assert(fixes@ =~= irelative_fixes(base, pre) + seq![
                    fix_of(base, relas@[i as int]),
                ]);
            }
        }
        i = i + 1;
    }
    proof {
        assert(relas@.take(count as int) =~= relas@);
    }
    Ok(fixes)
}

/// No two word-writing entries overlap: their eight-byte targets are disjoint.
pub open spec fn targets_disjoint(relas: Seq<RelaEntry>) -> bool {
    forall|i: int, j: int|
        0 <= i < relas.len() && 0 <= j < relas.len() && i != j && writes_word(relas[i])
            && writes_word(relas[j]) ==> relas[i].r_offset + 8 <= relas[j].r_offset
            || relas[j].r_offset + 8 <= relas[i].r_offset
}

/// Relocation fixed points: after the relocator has run, the word at each
/// relative entry's target reads back as base plus that entry's addend,
/// provided no two word-writing entries share target bytes.
pub proof fn lemma_relative_fixed_point(
    r: Seq<u8>,
    rg: LoadRange,
    base: u64,
    relas: Seq<RelaEntry>,
    i: int,
)
    requires
        r.len() == rg.hi - rg.lo,
        0 <= i < relas.len(),
        spec_rela_kind(relas[i]) == R_X86_64_RELATIVE,
        forall|j: int|
            0 <= j < relas.len() && writes_word(relas[j]) ==> reloc_in_range(rg, relas[j]),
        targets_disjoint(relas),
    ensures
        le_value(
            apply_all(r, rg, base, relas).subrange(
                relas[i].r_offset - rg.lo,
                relas[i].r_offset - rg.lo + 8,
            ),
        ) == relative_value(base, relas[i]),
    decreases relas.len(),
{
    let off = relas[i].r_offset - rg.lo;
    let last = relas.last();
    let prev = apply_all(r, rg, base, relas.drop_last());
    lemma_apply_all_len(r, rg, base, relas.drop_last());
    lemma_apply_all_len(r, rg, base, relas);
    assert(writes_word(relas[i]));
    assert(reloc_in_range(rg, relas[i]));
    if i == relas.len() - 1 {
        let w = write_word(prev, off, relative_value(base, last));
        assert(apply_all(r, rg, base, relas) == w);
        assert(w.subrange(off, off + 8) =~= le_bytes_of(relative_value(base, last)));
        lemma_le_bytes_of_value(relative_value(base, last));
    } else {
        assert(relas.drop_last()[i] == relas[i]);
        lemma_relative_fixed_point(r, rg, base, relas.drop_last(), i);
        if spec_rela_kind(last) == R_X86_64_RELATIVE && reloc_in_range(rg, last) {
            assert(writes_word(last) && writes_word(relas[i]));
            assert(relas[i].r_offset + 8 <= last.r_offset || last.r_offset + 8
                <= relas[i].r_offset) by {
                assert(last == relas[relas.len() - 1]);
            }
            let w = write_word(prev, last.r_offset - rg.lo, relative_value(base, last));
            assert(apply_all(r, rg, base, relas) == w);
            assert(w.subrange(off, off + 8) =~= prev.subrange(off, off + 8));
        } else {
            assert(apply_all(r, rg, base, relas) == prev);
        }
    }
}

} // verus!
