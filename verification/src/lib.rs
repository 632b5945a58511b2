//! A verified core for a userspace ELF loader.
//!
//! The crate models the pure part of loading a statically linked 64-bit
//! little-endian ELF image into the loader's own address space: parsing the
//! headers out of the raw bytes, planning a contiguous load region, computing
//! the contents of every mapped segment, applying relative relocations,
//! deriving page protections, fixing up the auxiliary vector, and building the
//! initial stack image.  An unverified shell performs the actual system calls
//! (reserving memory, changing protections, installing the fault handler and
//! jumping to the entry point) using only values computed here.

pub mod auxv;
pub mod bytes;
pub mod elf;
pub mod image;
pub mod layout;
pub mod prot;
pub mod reloc;
pub mod stack;

use crate::elf::{
    all_relas, parse_ehdr, parse_phdrs, parse_shdrs, parsed_ehdr, parsed_phdr, parsed_shdr,
    phdr_table_fits, rela_section_ok, shdr_table_fits, FileHeader, ProgramHeader, RelaEntry,
    SectionHeader, EHDR_SIZE, PHDR_SIZE, SHDR_SIZE, SHT_RELA,
};
use vstd::prelude::*;

verus! {

/// Everything that can go wrong on the loader's side before the jump.
#[derive(Clone, Copy, PartialEq, Eq, Structural, Debug)]
pub enum LoadError {
    /// The image is too short to hold a file header.
    TruncatedHeader,
    /// The program-header table does not fit inside the image.
    TruncatedProgramHeaders,
    /// The section-header table does not fit inside the image.
    TruncatedSectionHeaders,
    /// A relocation section has a bad entry size or lies outside the image.
    BadRelocationSection,
    /// A loadable segment's file bytes lie outside the image.
    TruncatedSegment,
    /// No loadable segment: there is nothing to plan a region for.
    NoLoadSegment,
    /// A loadable segment's virtual address range overflows the address space.
    SegmentOverflow,
    /// A relocation's target does not fit inside the planned region.
    RelocationOutOfRange,
    /// The built stack does not fit the fixed-capacity stack buffer.
    StackTooLarge,
}

/// Everything the loader reads out of the image bytes: the file header, the
/// two header tables, and the relocation entries of every relocation section.
pub struct ParsedImage {
    pub ehdr: FileHeader,
    pub phdrs: Vec<ProgramHeader>,
    pub shdrs: Vec<SectionHeader>,
    pub relas: Vec<RelaEntry>,
}

/// The image bytes are well-formed enough to parse in full: they hold the
/// file header, both header tables, and every relocation section's table.
pub open spec fn image_parses(img: Seq<u8>) -> bool {
    &&& img.len() >= EHDR_SIZE
    &&& phdr_table_fits(img, parsed_ehdr(img))
    &&& shdr_table_fits(img, parsed_ehdr(img))
    &&& (forall|i: int|
        0 <= i < parsed_ehdr(img).e_shnum && (#[trigger] parsed_shdr(
            img,
            parsed_ehdr(img).e_shoff + i * SHDR_SIZE,
        )).sh_type == SHT_RELA ==> rela_section_ok(
            img,
            parsed_shdr(img, parsed_ehdr(img).e_shoff + i * SHDR_SIZE),
        ))
}

/// Parse the whole image: the file header, the program and section headers,
/// and the relocation entries, each field exactly what the bytes spell.
pub fn parse_image(bytes: &[u8]) -> (r: Result<ParsedImage, LoadError>)
    ensures
        r is Ok <==> image_parses(bytes@),
        r matches Ok(p) ==> {
            &&& p.ehdr == parsed_ehdr(bytes@)
            &&& p.phdrs@.len() == p.ehdr.e_phnum
            &&& (forall|i: int|
                0 <= i < p.ehdr.e_phnum ==> p.phdrs@[i] == parsed_phdr(
                    bytes@,
                    p.ehdr.e_phoff + i * PHDR_SIZE,
                ))
            &&& p.shdrs@.len() == p.ehdr.e_shnum
            &&& (forall|i: int|
                0 <= i < p.ehdr.e_shnum ==> p.shdrs@[i] == parsed_shdr(
                    bytes@,
                    p.ehdr.e_shoff + i * SHDR_SIZE,
                ))
            &&& p.relas@ == all_relas(bytes@, p.shdrs@)
        },
{
    let ehdr = match parse_ehdr(bytes) {
        Ok(h) => h,
        Err(e) => {
            return Err(e);
        },
    };
    let phdrs = match parse_phdrs(bytes, &ehdr) {
        Ok(v) => v,
        Err(e) => {
            return Err(e);
        },
    };
    let shdrs = match parse_shdrs(bytes, &ehdr) {
        Ok(v) => v,
        Err(e) => {
            return Err(e);
        },
    };
    let relas = match crate::elf::collect_relas(bytes, &shdrs) {
        Ok(v) => v,
        Err(e) => {
            proof {
                let j = choose|j: int|
                    0 <= j < shdrs@.len() && shdrs@[j].sh_type == SHT_RELA && !rela_section_ok(
                        bytes@,
                        shdrs@[j],
                    );
                assert(shdrs@[j] == parsed_shdr(bytes@, ehdr.e_shoff + j * SHDR_SIZE));
                assert(!image_parses(bytes@));
            }
            return Err(e);
        },
    };
    proof {
        assert forall|i: int|
            0 <= i < parsed_ehdr(bytes@).e_shnum && (#[trigger] parsed_shdr(
                bytes@,
                parsed_ehdr(bytes@).e_shoff + i * SHDR_SIZE,
            )).sh_type == SHT_RELA implies rela_section_ok(
            bytes@,
            parsed_shdr(bytes@, parsed_ehdr(bytes@).e_shoff + i * SHDR_SIZE),
        ) by {
            assert(shdrs@[i] == parsed_shdr(bytes@, ehdr.e_shoff + i * SHDR_SIZE));
        }
    }
    Ok(ParsedImage { ehdr, phdrs, shdrs, relas })
}

} // verus!
