//! Page protections for loadable segments.
//!
//! A segment's flags word carries three permission bits (read = 4, write = 2,
//! execute = 1).  The loader derives from it the protection the segment must
//! finally get, as the same three bits OR-combined.

use crate::elf::{ProgramHeader, PT_LOAD};
use crate::image::{is_mapped, loads_disjoint};
use crate::layout::image_addr;
use vstd::prelude::*;

verus! {

/// Readable pages.
pub const PROT_READ: u8 = 4;

/// Writable pages.
pub const PROT_WRITE: u8 = 2;

/// Executable pages.
pub const PROT_EXEC: u8 = 1;

/// The protection bits a loadable segment asks for, derived from its flags
/// word: read = 4, write = 2, execute = 1, OR-combined.
pub open spec fn prot_of_flags(p_flags: u32) -> u8 {
    ((if p_flags & 4 != 0 {
        4int
    } else {
        0int
    }) + (if p_flags & 2 != 0 {
        2int
    } else {
        0int
    }) + (if p_flags & 1 != 0 {
        1int
    } else {
        0int
    })) as u8
}

/// Derive the final protection bits from a segment's flags word.
pub fn flags_to_prot(p_flags: u32) -> (r: u8)
    ensures
        r == prot_of_flags(p_flags),
{
    let mut r: u8 = 0;
    if p_flags & 4 != 0 {
        r = r + 4;
    }
    if p_flags & 2 != 0 {
        r = r + 2;
    }
    if p_flags & 1 != 0 {
        r = r + 1;
    }
    r
}

/// One protection change the unverified shell applies: `size` bytes at host
/// address `addr` get protection `prot`.
#[derive(Clone, Copy, PartialEq, Eq, Structural, Debug)]
pub struct ProtStep {
    pub addr: u64,
    pub size: u64,
    pub prot: u8,
}

/// The protection step that gives one segment's window the protection `prot`.
pub open spec fn step_for(base: u64, ph: ProgramHeader, prot: u8) -> ProtStep {
    ProtStep { addr: image_addr(base, ph.p_vaddr), size: ph.p_memsz, prot }
}

/// The protection steps for all mapped segments, in program-header order,
/// each segment getting the protection `which` derives from its flags.
pub open spec fn plan_with(phs: Seq<ProgramHeader>, base: u64, which: spec_fn(u32) -> u8) -> Seq<
    ProtStep,
>
    decreases phs.len(),
{
    if phs.len() == 0 {
        Seq::empty()
    } else {
        plan_with(phs.drop_last(), base, which) + (if is_mapped(phs.last()) {
            seq![step_for(base, phs.last(), which(phs.last().p_flags))]
        } else {
            Seq::empty()
        })
    }
}

/// The eager finalizer's plan: every mapped segment's final protection.
pub open spec fn eager_plan(phs: Seq<ProgramHeader>, base: u64) -> Seq<ProtStep> {
    plan_with(phs, base, |f: u32| prot_of_flags(f))
}

/// The lazy strategy's starting plan: every mapped segment with no access.
pub open spec fn lazy_initial_plan(phs: Seq<ProgramHeader>, base: u64) -> Seq<ProtStep> {
    plan_with(phs, base, |f: u32| 0u8)
}

/// Compute the eager finalizer's plan: one step per mapped segment, in
/// program-header order, with the flags-derived final protection.
pub fn eager_protect_plan(phdrs: &Vec<ProgramHeader>, base: u64) -> (r: Vec<ProtStep>)
    ensures
        r@ == eager_plan(phdrs@, base),
{
    protect_plan(phdrs, base, true)
}

/// Compute the lazy strategy's starting plan: one step per mapped segment,
/// in program-header order, with no access at all.
pub fn lazy_protect_plan(phdrs: &Vec<ProgramHeader>, base: u64) -> (r: Vec<ProtStep>)
    ensures
        r@ == lazy_initial_plan(phdrs@, base),
{
    protect_plan(phdrs, base, false)
}

fn protect_plan(phdrs: &Vec<ProgramHeader>, base: u64, eager: bool) -> (r: Vec<ProtStep>)
    ensures
        eager ==> r@ == eager_plan(phdrs@, base),
        !eager ==> r@ == lazy_initial_plan(phdrs@, base),
{
    let ghost which: spec_fn(u32) -> u8 = if eager {
        |f: u32| prot_of_flags(f)
    } else {
        |f: u32| 0u8
    };
    let count = phdrs.len();
    let mut r: Vec<ProtStep> = Vec::new();
    let mut i: usize = 0;
    proof {
        assert(r@ =~= plan_with(phdrs@.take(0), base, which));
    }
    while i < count
        invariant
            i <= count,
            count == phdrs@.len(),
            which == (if eager {
                |f: u32| prot_of_flags(f)
            } else {
                |f: u32| 0u8
            }),
            r@ == plan_with(phdrs@.take(i as int), base, which),
        decreases count - i,
    {
        let ph = phdrs[i];
        if ph.p_type == PT_LOAD && ph.p_memsz > 0 {
            let prot = if eager {
                flags_to_prot(ph.p_flags)
            } else {
                0
            };
            r.push(ProtStep { addr: base.wrapping_add(ph.p_vaddr), size: ph.p_memsz, prot });
        }
        proof {
            let pre = phdrs@.take(i as int);
            let cur = phdrs@.take(i + 1);
            assert(cur.drop_last() =~= pre);
            assert(cur.last() == phdrs@[i as int]);
            if is_mapped(phdrs@[i as int]) {
                assert(r@ =~= plan_with(pre, base, which) + seq![
                    step_for(base, phdrs@[i as int], which(phdrs@[i as int].p_flags)),
                ]);
            }
        }
        i = i + 1;
    }
    proof {
        assert(phdrs@.take(count as int) =~= phdrs@);
    }
    r
}

/// Protection finality: every mapped segment has its flags-derived final
/// protection in the eager plan.
pub proof fn lemma_eager_protection(phs: Seq<ProgramHeader>, base: u64, i: int)
    requires
        0 <= i < phs.len(),
        is_mapped(phs[i]),
    ensures
        exists|k: int|
            0 <= k < eager_plan(phs, base).len() && eager_plan(phs, base)[k] == step_for(
                base,
                phs[i],
                prot_of_flags(phs[i].p_flags),
            ),
    decreases phs.len(),
{
    let plan = eager_plan(phs, base);
    let which = |f: u32| prot_of_flags(f);
    if i == phs.len() - 1 {
        assert(phs.last() == phs[i]);
        assert(plan.last() == step_for(base, phs[i], prot_of_flags(phs[i].p_flags)));
        assert(plan[plan.len() - 1] == step_for(base, phs[i], prot_of_flags(phs[i].p_flags)));
    } else {
        assert(phs.drop_last()[i] == phs[i]);
        lemma_eager_protection(phs.drop_last(), base, i);
        let prev = eager_plan(phs.drop_last(), base);
        let k = choose|k: int|
            0 <= k < prev.len() && prev[k] == step_for(
                base,
                phs[i],
                prot_of_flags(phs[i].p_flags),
            );
        assert(plan[k] == prev[k]);
    }
}

/// The virtual address `v` falls inside the segment's mapped window.
pub open spec fn seg_contains(ph: ProgramHeader, v: u64) -> bool {
    ph.p_type == PT_LOAD && ph.p_vaddr <= v < ph.p_vaddr + ph.p_memsz
}

/// Decide the lazy fault handler's action.  The faulting host address is
/// pulled back to a virtual address; the first loadable segment whose window
/// contains it is upgraded to its final flags-derived protection.  A fault
/// outside every loadable segment is not handled.
pub fn fault_upgrade(phdrs: &Vec<ProgramHeader>, base: u64, fault_addr: u64) -> (r: Option<
    ProtStep,
>)
    ensures
        r is Some <==> (exists|i: int|
            0 <= i < phdrs@.len() && seg_contains(phdrs@[i], fault_addr.wrapping_sub(base))),
        r matches Some(st) ==> exists|i: int|
            0 <= i < phdrs@.len() && seg_contains(phdrs@[i], fault_addr.wrapping_sub(base)) && st
                == step_for(base, phdrs@[i], prot_of_flags(phdrs@[i].p_flags)) && (forall|j: int|
                0 <= j < i ==> !seg_contains(phdrs@[j], fault_addr.wrapping_sub(base))),
{
    let v = fault_addr.wrapping_sub(base);
    let count = phdrs.len();
    let mut i: usize = 0;
    while i < count
        invariant
            i <= count,
            count == phdrs@.len(),
            v == fault_addr.wrapping_sub(base),
            forall|j: int| 0 <= j < i ==> !seg_contains(phdrs@[j], v),
        decreases count - i,
    {
        let ph = phdrs[i];
        if ph.p_type == PT_LOAD && v >= ph.p_vaddr && v - ph.p_vaddr < ph.p_memsz {
            let prot = flags_to_prot(ph.p_flags);
            proof {
                assert(seg_contains(phdrs@[i as int], v));
            }
            return Some(
                ProtStep { addr: base.wrapping_add(ph.p_vaddr), size: ph.p_memsz, prot },
            );
        }
        i = i + 1;
    }
    None
}

/// Lazy upgrade: when the loadable segments' windows do not overlap, a fault
/// on an address inside one segment's window upgrades exactly that segment,
/// to its final flags-derived protection.
pub proof fn lemma_lazy_upgrade(
    phs: Seq<ProgramHeader>,
    base: u64,
    st: ProtStep,
    v: u64,
    i: int,
)
    requires
        loads_disjoint(phs),
        0 <= i < phs.len(),
        is_mapped(phs[i]),
        phs[i].p_vaddr <= v < phs[i].p_vaddr + phs[i].p_memsz,
        exists|j: int|
            0 <= j < phs.len() && seg_contains(phs[j], v) && st == step_for(
                base,
                phs[j],
                prot_of_flags(phs[j].p_flags),
            ),
    ensures
        st == step_for(base, phs[i], prot_of_flags(phs[i].p_flags)),
{
    let j = choose|j: int|
        0 <= j < phs.len() && seg_contains(phs[j], v) && st == step_for(
            base,
            phs[j],
            prot_of_flags(phs[j].p_flags),
        );
    if j != i {
        assert(is_mapped(phs[j]));
        assert(false);
    }
}

} // verus!
