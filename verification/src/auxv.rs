//! Fixing up the auxiliary vector for the loaded program.
//!
//! The shell queries the host for each candidate auxiliary type and hands the
//! raw pairs over.  Types the host reports as absent (value zero) are
//! dropped; for a fixed subset the host value is replaced with an
//! image-relative one; everything else passes through unchanged, in order.

use crate::elf::FileHeader;
use crate::layout::image_addr;
use vstd::prelude::*;

verus! {

/// Auxiliary type of the program-header table address.
pub const AT_PHDR: u64 = 3;

/// Auxiliary type of the size of one program header.
pub const AT_PHENT: u64 = 4;

/// Auxiliary type of the number of program headers.
pub const AT_PHNUM: u64 = 5;

/// Auxiliary type of the program entry point.
pub const AT_ENTRY: u64 = 9;

/// Auxiliary type of the executable's path string.
pub const AT_EXECFN: u64 = 31;

/// The least auxiliary type the loader asks the host about.
pub const AT_QUERY_FIRST: u64 = 2;

/// The greatest auxiliary type the loader asks the host about.
pub const AT_QUERY_LAST: u64 = 47;

/// One auxiliary-vector entry: a type and its value.
#[derive(Clone, Copy, PartialEq, Eq, Structural, Debug)]
pub struct AuxEntry {
    pub a_type: u64,
    pub a_val: u64,
}

/// The image-relative values that replace what the host reports.
#[derive(Clone, Copy, PartialEq, Eq, Structural, Debug)]
pub struct AuxOverrides {
    pub phdr: u64,
    pub phent: u64,
    pub phnum: u64,
    pub entry: u64,
    pub execfn: u64,
}

/// The value an entry of type `t` gets: the override for the fixed subset,
/// the host's value for everything else.
pub open spec fn override_value(ov: AuxOverrides, t: u64, host_val: u64) -> u64 {
    if t == AT_PHDR {
        ov.phdr
    } else if t == AT_PHENT {
        ov.phent
    } else if t == AT_PHNUM {
        ov.phnum
    } else if t == AT_ENTRY {
        ov.entry
    } else if t == AT_EXECFN {
        ov.execfn
    } else {
        host_val
    }
}

/// The auxiliary vector handed to the program: host entries with value zero
/// dropped, the fixed subset overridden, order kept.
pub open spec fn fixed_auxv(ov: AuxOverrides, host: Seq<AuxEntry>) -> Seq<AuxEntry>
    decreases host.len(),
{
    if host.len() == 0 {
        Seq::empty()
    } else {
        fixed_auxv(ov, host.drop_last()) + (if host.last().a_val != 0 {
            seq![
                AuxEntry {
                    a_type: host.last().a_type,
                    a_val: override_value(ov, host.last().a_type, host.last().a_val),
                },
            ]
        } else {
            Seq::empty()
        })
    }
}

/// The overrides for an image placed at `base`: table address and entry point
/// are base-relative, counts and sizes come from the file header, and the
/// path string lives at `execfn`.
pub fn make_overrides(base: u64, h: &FileHeader, execfn: u64) -> (ov: AuxOverrides)
    ensures
        ov.phdr == image_addr(base, h.e_phoff),
        ov.phent == h.e_phentsize,
        ov.phnum == h.e_phnum,
        ov.entry == image_addr(base, h.e_entry),
        ov.execfn == execfn,
{
    AuxOverrides {
        phdr: base.wrapping_add(h.e_phoff),
        phent: h.e_phentsize as u64,
        phnum: h.e_phnum as u64,
        entry: base.wrapping_add(h.e_entry),
        execfn,
    }
}

/// Filter and override the host's auxiliary pairs.
pub fn fix_auxv(host: &Vec<AuxEntry>, ov: &AuxOverrides) -> (r: Vec<AuxEntry>)
    ensures
        r@ == fixed_auxv(*ov, host@),
{
    let count = host.len();
    let mut r: Vec<AuxEntry> = Vec::new();
    let mut i: usize = 0;
    proof {
        assert(r@ =~= fixed_auxv(*ov, host@.take(0)));
    }
    while i < count
        invariant
            i <= count,
            count == host@.len(),
            r@ == fixed_auxv(*ov, host@.take(i as int)),
        decreases count - i,
    {
        let e = host[i];
        if e.a_val != 0 {
            let v = if e.a_type == AT_PHDR {
                ov.phdr
            } else if e.a_type == AT_PHENT {
                ov.phent
            } else if e.a_type == AT_PHNUM {
                ov.phnum
            } else if e.a_type == AT_ENTRY {
                ov.entry
            } else if e.a_type == AT_EXECFN {
                ov.execfn
            } else {
                e.a_val
            };
            r.push(AuxEntry { a_type: e.a_type, a_val: v });
        }
        proof {
            let pre = host@.take(i as int);
            let cur = host@.take(i + 1);
            assert(cur.drop_last() =~= pre);
            assert(cur.last() == host@[i as int]);
            if host@[i as int].a_val != 0 {
                assert(r@ =~= fixed_auxv(*ov, pre) + seq![
                    AuxEntry {
                        a_type: host@[i as int].a_type,
                        a_val: override_value(
                            *ov,
                            host@[i as int].a_type,
                            host@[i as int].a_val,
                        ),
                    },
                ]);
            }
        }
        i = i + 1;
    }
    proof {
        assert(host@.take(count as int) =~= host@);
    }
    r
}

/// Filtering: no entry of the fixed-up auxiliary vector carries value zero,
/// as long as the overriding values themselves are non-zero.
pub proof fn lemma_auxv_no_zero(ov: AuxOverrides, host: Seq<AuxEntry>)
    requires
        ov.phdr != 0,
        ov.phent != 0,
        ov.phnum != 0,
        ov.entry != 0,
        ov.execfn != 0,
    ensures
        forall|k: int|
            0 <= k < fixed_auxv(ov, host).len() ==> (#[trigger] fixed_auxv(ov, host)[k]).a_val
                != 0,
    decreases host.len(),
{
    if host.len() > 0 {
        lemma_auxv_no_zero(ov, host.drop_last());
        let prev = fixed_auxv(ov, host.drop_last());
        let whole = fixed_auxv(ov, host);
        assert forall|k: int| 0 <= k < whole.len() implies (#[trigger] whole[k]).a_val != 0 by {
            if k < prev.len() {
                assert(whole[k] == prev[k]);
            } else {
                assert(host.last().a_val != 0);
                assert(whole[k] == AuxEntry {
                    a_type: host.last().a_type,
                    a_val: override_value(ov, host.last().a_type, host.last().a_val),
                });
            }
        }
    }
}

/// Overriding: every entry of the fixed-up auxiliary vector whose type is in
/// the fixed subset carries the image-relative override value.
pub proof fn lemma_auxv_overridden(ov: AuxOverrides, host: Seq<AuxEntry>, k: int)
    requires
        0 <= k < fixed_auxv(ov, host).len(),
    ensures
        fixed_auxv(ov, host)[k].a_type == AT_PHDR ==> fixed_auxv(ov, host)[k].a_val == ov.phdr,
        fixed_auxv(ov, host)[k].a_type == AT_PHENT ==> fixed_auxv(ov, host)[k].a_val == ov.phent,
        fixed_auxv(ov, host)[k].a_type == AT_PHNUM ==> fixed_auxv(ov, host)[k].a_val == ov.phnum,
        fixed_auxv(ov, host)[k].a_type == AT_ENTRY ==> fixed_auxv(ov, host)[k].a_val == ov.entry,
        fixed_auxv(ov, host)[k].a_type == AT_EXECFN ==> fixed_auxv(ov, host)[k].a_val
            == ov.execfn,
    decreases host.len(),
{
    if host.len() > 0 {
        if k < fixed_auxv(ov, host.drop_last()).len() {
            lemma_auxv_overridden(ov, host.drop_last(), k);
        }
    }
}

} // verus!
