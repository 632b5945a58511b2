//! Building the initial stack image.
//!
//! The stack contents, from low to high addresses: the argument count, the
//! argument pointers, a null word, the environment pointers, a null word, the
//! auxiliary pairs flattened two words each, the two-word terminator, and —
//! if the total is odd — one zero pad word, so that a 16-byte-aligned buffer
//! end leaves the stack pointer 16-byte aligned.

use crate::auxv::AuxEntry;
use crate::LoadError;
use vstd::prelude::*;

verus! {

/// Word capacity of the fixed backing buffer the stack lands in.
pub const STACK_WORDS: usize = 10000;

/// The auxiliary pairs flattened: each entry two consecutive words.
pub open spec fn flat_auxv(auxv: Seq<AuxEntry>) -> Seq<u64>
    decreases auxv.len(),
{
    if auxv.len() == 0 {
        Seq::empty()
    } else {
        flat_auxv(auxv.drop_last()) + seq![auxv.last().a_type, auxv.last().a_val]
    }
}

/// The stack words before padding.
pub open spec fn stack_body(args: Seq<u64>, env: Seq<u64>, auxv: Seq<AuxEntry>) -> Seq<u64> {
    seq![args.len() as u64] + args + seq![0u64] + env + seq![0u64] + flat_auxv(auxv) + seq![
        0u64,
        0u64,
    ]
}

/// The complete stack words: the body, padded with one zero word when its
/// length is odd.
pub open spec fn stack_words(args: Seq<u64>, env: Seq<u64>, auxv: Seq<AuxEntry>) -> Seq<u64> {
    let body = stack_body(args, env, auxv);
    if body.len() % 2 == 1 {
        body + seq![0u64]
    } else {
        body
    }
}

pub proof fn lemma_flat_auxv_len(auxv: Seq<AuxEntry>)
    ensures
        flat_auxv(auxv).len() == 2 * auxv.len(),
    decreases auxv.len(),
{
    if auxv.len() > 0 {
        lemma_flat_auxv_len(auxv.drop_last());
    }
}

/// Stack alignment: the built stack always holds an even number of words.
pub proof fn lemma_stack_words_even(args: Seq<u64>, env: Seq<u64>, auxv: Seq<AuxEntry>)
    ensures
        stack_words(args, env, auxv).len() % 2 == 0,
{
    lemma_flat_auxv_len(auxv);
}

/// Build the initial stack words from the argument pointers, the environment
/// pointers and the fixed-up auxiliary vector.
pub fn build_stack(args: &Vec<u64>, env: &Vec<u64>, auxv: &Vec<AuxEntry>) -> (r: Vec<u64>)
    ensures
        r@ == stack_words(args@, env@, auxv@),
        r@.len() % 2 == 0,
{
    let mut r: Vec<u64> = Vec::new();
    r.push(args.len() as u64);
    let mut i: usize = 0;
    while i < args.len()
        invariant
            i <= args@.len(),
            r@ == seq![args@.len() as u64] + args@.take(i as int),
        decreases args@.len() - i,
    {
        r.push(args[i]);
        proof {
            assert(args@.take(i + 1) =~= args@.take(i as int) + seq![args@[i as int]]);
            assert(r@ =~= seq![args@.len() as u64] + args@.take(i + 1));
        }
        i = i + 1;
    }
    r.push(0);
    proof {
        assert(args@.take(args@.len() as int) =~= args@);
        assert(r@ =~= seq![args@.len() as u64] + args@ + seq![0u64]);
    }
    let ghost with_args = r@;
    let mut i: usize = 0;
    while i < env.len()
        invariant
            i <= env@.len(),
            r@ == with_args + env@.take(i as int),
        decreases env@.len() - i,
    {
        r.push(env[i]);
        proof {
            assert(env@.take(i + 1) =~= env@.take(i as int) + seq![env@[i as int]]);
            assert(r@ =~= with_args + env@.take(i + 1));
        }
        i = i + 1;
    }
    r.push(0);
    proof {
        assert(env@.take(env@.len() as int) =~= env@);
        assert(r@ =~= with_args + env@ + seq![0u64]);
    }
    let ghost with_env = r@;
    let mut i: usize = 0;
    proof {
        assert(flat_auxv(auxv@.take(0)) =~= Seq::<u64>::empty());
        assert(r@ =~= with_env + flat_auxv(auxv@.take(0)));
    }
    while i < auxv.len()
        invariant
            i <= auxv@.len(),
            r@ == with_env + flat_auxv(auxv@.take(i as int)),
        decreases auxv@.len() - i,
    {
        let e = auxv[i];
        r.push(e.a_type);
        r.push(e.a_val);
        proof {
            let pre = auxv@.take(i as int);
            let cur = auxv@.take(i + 1);
            assert(cur.drop_last() =~= pre);
            assert(cur.last() == auxv@[i as int]);
            assert(r@ =~= with_env + flat_auxv(cur));
        }
        i = i + 1;
    }
    r.push(0);
    r.push(0);
    proof {
        assert(auxv@.take(auxv@.len() as int) =~= auxv@);
        assert(r@ =~= stack_body(args@, env@, auxv@));
    }
    if r.len() % 2 == 1 {
        r.push(0);
        proof {
            assert(r@ =~= stack_body(args@, env@, auxv@) + seq![0u64]);
        }
    }
    r
}

/// Land the stack words at the high end of the fixed backing buffer; the
/// returned index is where the stack pointer goes: the argument-count word.
pub fn place_stack(words: &Vec<u64>) -> (r: Result<(Vec<u64>, usize), LoadError>)
    ensures
        r is Ok <==> words@.len() <= STACK_WORDS,
        r matches Ok(p) ==> {
            &&& p.0@.len() == STACK_WORDS
            &&& p.1 == STACK_WORDS - words@.len()
            &&& (forall|k: int| 0 <= k < words@.len() ==> p.0@[p.1 + k] == words@[k])
            &&& (forall|k: int| 0 <= k < p.1 ==> p.0@[k] == 0)
        },
        r is Err ==> r == Err::<(Vec<u64>, usize), LoadError>(LoadError::StackTooLarge),
{
    let len = words.len();
    if len > STACK_WORDS {
        return Err(LoadError::StackTooLarge);
    }
    let sp = STACK_WORDS - len;
    let mut buf: Vec<u64> = Vec::new();
    let mut i: usize = 0;
    while i < sp
        invariant
            i <= sp,
            buf@.len() == i,
            forall|k: int| 0 <= k < i ==> buf@[k] == 0,
        decreases sp - i,
    {
        buf.push(0);
        i = i + 1;
    }
    let mut j: usize = 0;
    while j < len
        invariant
            j <= len,
            len == words@.len(),
            sp == STACK_WORDS - len,
            buf@.len() == sp + j,
            forall|k: int| 0 <= k < sp ==> buf@[k] == 0,
            forall|k: int| 0 <= k < j ==> buf@[sp + k] == words@[k],
        decreases len - j,
    {
        buf.push(words[j]);
        j = j + 1;
    }
    Ok((buf, sp))
}

/// Stack alignment: with an even word count in an aligned buffer, the stack
/// pointer — the buffer address plus eight bytes per word of the landing
/// index — is 16-byte aligned.
pub proof fn lemma_stack_pointer_aligned(buf_addr: u64, nwords: int)
    requires
        buf_addr % 16 == 0,
        nwords % 2 == 0,
        0 <= nwords <= STACK_WORDS,
    ensures
        (buf_addr + 8 * (STACK_WORDS - nwords)) % 16 == 0,
{
    let pairs = (STACK_WORDS - nwords) / 2;
    assert(8 * (STACK_WORDS - nwords) == 16 * pairs);
    vstd::arithmetic::div_mod::lemma_mod_multiples_vanish(pairs, buf_addr as int, 16);
}

} // verus!
