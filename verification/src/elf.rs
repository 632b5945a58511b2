//! The ELF view of a raw byte image: file header, program headers, section
//! headers and relocation entries, all 64-bit little-endian.
//!
//! Every parser states exactly which bytes each field comes from, so that the
//! rest of the loader can reason about the image purely through the parsed
//! values.

use crate::bytes::{le_value, read_u16, read_u32, read_u64};
use crate::LoadError;
use vstd::prelude::*;

verus! {

/// Program-header type of a loadable segment.
pub const PT_LOAD: u32 = 1;

/// Section-header type of a relocation table with explicit addends.
pub const SHT_RELA: u32 = 4;

/// Relocation kind: store the base plus the addend.
pub const R_X86_64_RELATIVE: u32 = 8;

/// Relocation kind: store what the resolver at base plus addend returns.
pub const R_X86_64_IRELATIVE: u32 = 37;

/// Size in bytes of the file header.
pub const EHDR_SIZE: usize = 64;

/// Size in bytes of one program header.
pub const PHDR_SIZE: usize = 56;

/// Size in bytes of one section header.
pub const SHDR_SIZE: usize = 64;

/// Size in bytes of the consumed prefix of one relocation entry.
pub const RELA_SIZE: usize = 24;

/// The consumed fields of the ELF file header.
#[derive(Clone, Copy, PartialEq, Eq, Structural, Debug)]
pub struct FileHeader {
    pub e_entry: u64,
    pub e_phoff: u64,
    pub e_shoff: u64,
    pub e_phentsize: u16,
    pub e_phnum: u16,
    pub e_shentsize: u16,
    pub e_shnum: u16,
}

/// The consumed fields of one program header.
#[derive(Clone, Copy, PartialEq, Eq, Structural, Debug)]
pub struct ProgramHeader {
    pub p_type: u32,
    pub p_flags: u32,
    pub p_offset: u64,
    pub p_vaddr: u64,
    pub p_filesz: u64,
    pub p_memsz: u64,
}

/// The consumed fields of one section header.
#[derive(Clone, Copy, PartialEq, Eq, Structural, Debug)]
pub struct SectionHeader {
    pub sh_type: u32,
    pub sh_offset: u64,
    pub sh_size: u64,
    pub sh_entsize: u64,
}

/// One relocation entry.  The addend is kept as the raw 64-bit word; the
/// relocator adds it to the base with wrapping arithmetic, which treats it as
/// two's-complement.
#[derive(Clone, Copy, PartialEq, Eq, Structural, Debug)]
pub struct RelaEntry {
    pub r_offset: u64,
    pub r_info: u64,
    pub r_addend: u64,
}

/// The relocation kind: the low 32 bits of the info word.
pub open spec fn spec_rela_kind(e: RelaEntry) -> int {
    e.r_info as int % 0x1_0000_0000
}

/// Extract the relocation kind from an entry.
pub fn rela_kind(e: &RelaEntry) -> (r: u32)
    ensures
        r == spec_rela_kind(*e),
{
    (e.r_info % 0x1_0000_0000) as u32
}

/// The file header spelled by the image bytes.
pub open spec fn parsed_ehdr(img: Seq<u8>) -> FileHeader {
    FileHeader {
        e_entry: le_value(img.subrange(24, 32)) as u64,
        e_phoff: le_value(img.subrange(32, 40)) as u64,
        e_shoff: le_value(img.subrange(40, 48)) as u64,
        e_phentsize: le_value(img.subrange(54, 56)) as u16,
        e_phnum: le_value(img.subrange(56, 58)) as u16,
        e_shentsize: le_value(img.subrange(58, 60)) as u16,
        e_shnum: le_value(img.subrange(60, 62)) as u16,
    }
}

/// The program header spelled by the image bytes starting at `pos`.
pub open spec fn parsed_phdr(img: Seq<u8>, pos: int) -> ProgramHeader {
    ProgramHeader {
        p_type: le_value(img.subrange(pos, pos + 4)) as u32,
        p_flags: le_value(img.subrange(pos + 4, pos + 8)) as u32,
        p_offset: le_value(img.subrange(pos + 8, pos + 16)) as u64,
        p_vaddr: le_value(img.subrange(pos + 16, pos + 24)) as u64,
        p_filesz: le_value(img.subrange(pos + 32, pos + 40)) as u64,
        p_memsz: le_value(img.subrange(pos + 40, pos + 48)) as u64,
    }
}

/// The section header spelled by the image bytes starting at `pos`.
pub open spec fn parsed_shdr(img: Seq<u8>, pos: int) -> SectionHeader {
    SectionHeader {
        sh_type: le_value(img.subrange(pos + 4, pos + 8)) as u32,
        sh_offset: le_value(img.subrange(pos + 24, pos + 32)) as u64,
        sh_size: le_value(img.subrange(pos + 32, pos + 40)) as u64,
        sh_entsize: le_value(img.subrange(pos + 56, pos + 64)) as u64,
    }
}

/// The relocation entry spelled by the image bytes starting at `pos`.
pub open spec fn parsed_rela(img: Seq<u8>, pos: int) -> RelaEntry {
    RelaEntry {
        r_offset: le_value(img.subrange(pos, pos + 8)) as u64,
        r_info: le_value(img.subrange(pos + 8, pos + 16)) as u64,
        r_addend: le_value(img.subrange(pos + 16, pos + 24)) as u64,
    }
}

/// Parse the file header at the start of the image.
pub fn parse_ehdr(bytes: &[u8]) -> (r: Result<FileHeader, LoadError>)
    ensures
        r is Ok <==> bytes@.len() >= EHDR_SIZE,
        r matches Ok(h) ==> h == parsed_ehdr(bytes@),
        r is Err ==> r == Err::<FileHeader, LoadError>(LoadError::TruncatedHeader),
{
    if bytes.len() < EHDR_SIZE {
        return Err(LoadError::TruncatedHeader);
    }
    Ok(
        FileHeader {
            e_entry: read_u64(bytes, 24),
            e_phoff: read_u64(bytes, 32),
            e_shoff: read_u64(bytes, 40),
            e_phentsize: read_u16(bytes, 54),
            e_phnum: read_u16(bytes, 56),
            e_shentsize: read_u16(bytes, 58),
            e_shnum: read_u16(bytes, 60),
        },
    )
}

/// The program-header table described by `h` lies inside the image.
pub open spec fn phdr_table_fits(img: Seq<u8>, h: FileHeader) -> bool {
    h.e_phoff + h.e_phnum * PHDR_SIZE <= img.len()
}

/// Parse the program-header table at `e_phoff`, `e_phnum` entries long.
pub fn parse_phdrs(bytes: &[u8], h: &FileHeader) -> (r: Result<Vec<ProgramHeader>, LoadError>)
    ensures
        r is Ok <==> phdr_table_fits(bytes@, *h),
        r matches Ok(v) ==> v@.len() == h.e_phnum && forall|i: int|
            0 <= i < h.e_phnum ==> v@[i] == parsed_phdr(bytes@, h.e_phoff + i * PHDR_SIZE),
        r is Err ==> r == Err::<Vec<ProgramHeader>, LoadError>(LoadError::TruncatedProgramHeaders),
{
    let n = bytes.len();
    if h.e_phoff > n as u64 || (h.e_phnum as u64) * (PHDR_SIZE as u64) > n as u64 - h.e_phoff {
        return Err(LoadError::TruncatedProgramHeaders);
    }
    let phoff = h.e_phoff as usize;
    let count = h.e_phnum as usize;
    let mut v: Vec<ProgramHeader> = Vec::new();
    let mut i: usize = 0;
    while i < count
        invariant
            i <= count,
            count == h.e_phnum,
            phoff == h.e_phoff,
            n == bytes@.len(),
            phoff + count * PHDR_SIZE <= n,
            v@.len() == i,
            forall|j: int| 0 <= j < i ==> v@[j] == parsed_phdr(bytes@, phoff + j * PHDR_SIZE),
        decreases count - i,
    {
        proof {
            assert((i + 1) * PHDR_SIZE <= count * PHDR_SIZE) by {
                vstd::arithmetic::mul::lemma_mul_inequality(i + 1, count as int, PHDR_SIZE as int);
            }
        }
        let pos = phoff + i * PHDR_SIZE;
        let ph = ProgramHeader {
            p_type: read_u32(bytes, pos),
            p_flags: read_u32(bytes, pos + 4),
            p_offset: read_u64(bytes, pos + 8),
            p_vaddr: read_u64(bytes, pos + 16),
            p_filesz: read_u64(bytes, pos + 32),
            p_memsz: read_u64(bytes, pos + 40),
        };
        v.push(ph);
        i = i + 1;
    }
    Ok(v)
}

/// The section-header table described by `h` lies inside the image.
pub open spec fn shdr_table_fits(img: Seq<u8>, h: FileHeader) -> bool {
    h.e_shoff + h.e_shnum * SHDR_SIZE <= img.len()
}

/// Parse the section-header table at `e_shoff`, `e_shnum` entries long.
pub fn parse_shdrs(bytes: &[u8], h: &FileHeader) -> (r: Result<Vec<SectionHeader>, LoadError>)
    ensures
        r is Ok <==> shdr_table_fits(bytes@, *h),
        r matches Ok(v) ==> v@.len() == h.e_shnum && forall|i: int|
            0 <= i < h.e_shnum ==> v@[i] == parsed_shdr(bytes@, h.e_shoff + i * SHDR_SIZE),
        r is Err ==> r == Err::<Vec<SectionHeader>, LoadError>(LoadError::TruncatedSectionHeaders),
{
    let n = bytes.len();
    if h.e_shoff > n as u64 || (h.e_shnum as u64) * (SHDR_SIZE as u64) > n as u64 - h.e_shoff {
        return Err(LoadError::TruncatedSectionHeaders);
    }
    let shoff = h.e_shoff as usize;
    let count = h.e_shnum as usize;
    let mut v: Vec<SectionHeader> = Vec::new();
    let mut i: usize = 0;
    while i < count
        invariant
            i <= count,
            count == h.e_shnum,
            shoff == h.e_shoff,
            n == bytes@.len(),
            shoff + count * SHDR_SIZE <= n,
            v@.len() == i,
            forall|j: int| 0 <= j < i ==> v@[j] == parsed_shdr(bytes@, shoff + j * SHDR_SIZE),
        decreases count - i,
    {
        proof {
            assert((i + 1) * SHDR_SIZE <= count * SHDR_SIZE) by {
                vstd::arithmetic::mul::lemma_mul_inequality(i + 1, count as int, SHDR_SIZE as int);
            }
        }
        let pos = shoff + i * SHDR_SIZE;
        let sh = SectionHeader {
            sh_type: read_u32(bytes, pos + 4),
            sh_offset: read_u64(bytes, pos + 24),
            sh_size: read_u64(bytes, pos + 32),
            sh_entsize: read_u64(bytes, pos + 56),
        };
        v.push(sh);
        i = i + 1;
    }
    Ok(v)
}

/// A relocation section is usable: entries at least `RELA_SIZE` long, the
/// whole table inside the image.
pub open spec fn rela_section_ok(img: Seq<u8>, sh: SectionHeader) -> bool {
    &&& sh.sh_entsize >= RELA_SIZE
    &&& sh.sh_offset + sh.sh_size <= img.len()
}

/// The relocation entries a section holds, in table order: one per full
/// `sh_entsize` stride inside `sh_size` bytes at `sh_offset`.
pub open spec fn relas_of_section(img: Seq<u8>, sh: SectionHeader) -> Seq<RelaEntry> {
    Seq::new(
        (sh.sh_size as int / sh.sh_entsize as int) as nat,
        |i: int| parsed_rela(img, sh.sh_offset + i * sh.sh_entsize),
    )
}

/// All relocation entries of the image: those of every `SHT_RELA` section, in
/// section order.
pub open spec fn all_relas(img: Seq<u8>, shs: Seq<SectionHeader>) -> Seq<RelaEntry>
    decreases shs.len(),
{
    if shs.len() == 0 {
        Seq::empty()
    } else {
        all_relas(img, shs.drop_last()) + (if shs.last().sh_type == SHT_RELA {
            relas_of_section(img, shs.last())
        } else {
            Seq::empty()
        })
    }
}

/// Parse the relocation entries of one `SHT_RELA` section.
pub fn parse_rela_section(bytes: &[u8], sh: &SectionHeader) -> (r: Result<
    Vec<RelaEntry>,
    LoadError,
>)
    ensures
        r is Ok <==> rela_section_ok(bytes@, *sh),
        r matches Ok(v) ==> v@ == relas_of_section(bytes@, *sh),
        r is Err ==> r == Err::<Vec<RelaEntry>, LoadError>(LoadError::BadRelocationSection),
{
    let n = bytes.len();
    if sh.sh_entsize < RELA_SIZE as u64 || sh.sh_offset > n as u64 || sh.sh_size > n as u64
        - sh.sh_offset {
        return Err(LoadError::BadRelocationSection);
    }
    let count_64 = sh.sh_size / sh.sh_entsize;
    if count_64 == 0 {
        let v: Vec<RelaEntry> = Vec::new();
        proof {
            assert(v@ =~= relas_of_section(bytes@, *sh));
        }
        return Ok(v);
    }
    proof {
        vstd::arithmetic::div_mod::lemma_fundamental_div_mod(
            sh.sh_size as int,
            sh.sh_entsize as int,
        );
        assert(count_64 * sh.sh_entsize <= sh.sh_size) by {
            vstd::arithmetic::mul::lemma_mul_is_commutative(
                sh.sh_entsize as int,
                count_64 as int,
            );
        }
        assert(count_64 <= count_64 * sh.sh_entsize) by {
            vstd::arithmetic::mul::lemma_mul_increases(sh.sh_entsize as int, count_64 as int);
            vstd::arithmetic::mul::lemma_mul_is_commutative(
                sh.sh_entsize as int,
                count_64 as int,
            );
        }
        assert(sh.sh_entsize <= count_64 * sh.sh_entsize) by {
            vstd::arithmetic::mul::lemma_mul_increases(count_64 as int, sh.sh_entsize as int);
        }
    }
    let count = count_64 as usize;
    let shoff = sh.sh_offset as usize;
    let entsize = sh.sh_entsize as usize;
    let mut v: Vec<RelaEntry> = Vec::new();
    let mut i: usize = 0;
    while i < count
        invariant
            i <= count,
            count == sh.sh_size as int / sh.sh_entsize as int,
            count * entsize <= sh.sh_size,
            shoff == sh.sh_offset,
            entsize == sh.sh_entsize,
            RELA_SIZE <= entsize,
            n == bytes@.len(),
            shoff + sh.sh_size <= n,
            v@.len() == i,
            forall|j: int| 0 <= j < i ==> v@[j] == parsed_rela(bytes@, shoff + j * entsize),
        decreases count - i,
    {
        proof {
            assert((i + 1) * entsize <= count * entsize) by {
                vstd::arithmetic::mul::lemma_mul_inequality(i + 1, count as int, entsize as int);
            }
            assert(i * entsize + RELA_SIZE <= (i + 1) * entsize) by {
                vstd::arithmetic::mul::lemma_mul_is_distributive_add_other_way(
                    entsize as int,
                    i as int,
                    1,
                );
            }
        }
        let pos = shoff + i * entsize;
        let e = RelaEntry {
            r_offset: read_u64(bytes, pos),
            r_info: read_u64(bytes, pos + 8),
            r_addend: read_u64(bytes, pos + 16),
        };
        v.push(e);
        i = i + 1;
    }
    proof {
        assert(v@ =~= relas_of_section(bytes@, *sh));
    }
    Ok(v)
}

/// Collect the relocation entries of every `SHT_RELA` section, in section
/// order.
pub fn collect_relas(bytes: &[u8], shdrs: &Vec<SectionHeader>) -> (r: Result<
    Vec<RelaEntry>,
    LoadError,
>)
    ensures
        r is Ok <==> (forall|i: int|
            0 <= i < shdrs@.len() && shdrs@[i].sh_type == SHT_RELA ==> rela_section_ok(
                bytes@,
                shdrs@[i],
            )),
        r matches Ok(v) ==> v@ == all_relas(bytes@, shdrs@),
        r is Err ==> r == Err::<Vec<RelaEntry>, LoadError>(LoadError::BadRelocationSection),
{
    let mut v: Vec<RelaEntry> = Vec::new();
    let mut i: usize = 0;
    let count = shdrs.len();
    proof {
        assert(shdrs@.take(0) =~= Seq::<SectionHeader>::empty());
    }
    while i < count
        invariant
            i <= count,
            count == shdrs@.len(),
            forall|j: int|
                0 <= j < i && shdrs@[j].sh_type == SHT_RELA ==> rela_section_ok(
                    bytes@,
                    shdrs@[j],
                ),
            v@ == all_relas(bytes@, shdrs@.take(i as int)),
        decreases count - i,
    {
        let sh = shdrs[i];
        if sh.sh_type == SHT_RELA {
            let mut chunk = match parse_rela_section(bytes, &sh) {
                Ok(c) => c,
                Err(e) => {
                    return Err(e);
                },
            };
            v.append(&mut chunk);
        }
        proof {
            let pre = shdrs@.take(i as int);
            let cur = shdrs@.take(i + 1);
            assert(cur.drop_last() =~= pre);
            assert(cur.last() == shdrs@[i as int]);
        }
        i = i + 1;
    }
    proof {
        assert(shdrs@.take(count as int) =~= shdrs@);
    }
    Ok(v)
}

} // verus!
