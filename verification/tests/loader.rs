use elfload::auxv::{fix_auxv, make_overrides, AuxEntry, AuxOverrides};
use elfload::bytes::{read_u16, read_u32, read_u64, write_le64};
use elfload::elf::{
    collect_relas, parse_ehdr, parse_phdrs, parse_rela_section, parse_shdrs, rela_kind,
    ProgramHeader, RelaEntry, SectionHeader, PT_LOAD, R_X86_64_IRELATIVE,
    R_X86_64_RELATIVE, SHT_RELA,
};
use elfload::image::build_region;
use elfload::layout::{base_for, host_addr, load_range};
use elfload::prot::{eager_protect_plan, fault_upgrade, flags_to_prot, lazy_protect_plan};
use elfload::reloc::apply_relocations;
use elfload::stack::{build_stack, place_stack, STACK_WORDS};
use elfload::LoadError;

fn put_u16(buf: &mut [u8], off: usize, v: u16) {
    let b = v.to_le_bytes();
    buf[off..off + 2].copy_from_slice(&b);
}

fn put_u32(buf: &mut [u8], off: usize, v: u32) {
    let b = v.to_le_bytes();
    buf[off..off + 4].copy_from_slice(&b);
}

fn put_u64(buf: &mut [u8], off: usize, v: u64) {
    let b = v.to_le_bytes();
    buf[off..off + 8].copy_from_slice(&b);
}

struct Seg {
    p_type: u32,
    p_flags: u32,
    p_offset: u64,
    p_vaddr: u64,
    p_filesz: u64,
    p_memsz: u64,
}

/// Build a minimal 64-bit little-endian ELF image: file header, program
/// headers right after it, section headers after those, then raw data.
fn build_image(entry: u64, segs: &[Seg], sections: &[(u32, u64, u64, u64)], data: &[u8]) -> Vec<u8> {
    let phoff = 64u64;
    let shoff = phoff + 56 * segs.len() as u64;
    let dataoff = shoff + 64 * sections.len() as u64;
    let total = dataoff as usize + data.len();
    let mut img = vec![0u8; total];
    img[0] = 0x7f;
    img[1] = b'E';
    img[2] = b'L';
    img[3] = b'F';
    put_u64(&mut img, 24, entry);
    put_u64(&mut img, 32, phoff);
    put_u64(&mut img, 40, shoff);
    put_u16(&mut img, 54, 56);
    put_u16(&mut img, 56, segs.len() as u16);
    put_u16(&mut img, 58, 64);
    put_u16(&mut img, 60, sections.len() as u16);
    for (i, s) in segs.iter().enumerate() {
        let off = phoff as usize + 56 * i;
        put_u32(&mut img, off, s.p_type);
        put_u32(&mut img, off + 4, s.p_flags);
        put_u64(&mut img, off + 8, s.p_offset);
        put_u64(&mut img, off + 16, s.p_vaddr);
        put_u64(&mut img, off + 32, s.p_filesz);
        put_u64(&mut img, off + 40, s.p_memsz);
    }
    for (i, &(sh_type, sh_offset, sh_size, sh_entsize)) in sections.iter().enumerate() {
        let off = shoff as usize + 64 * i;
        put_u32(&mut img, off + 4, sh_type);
        put_u64(&mut img, off + 24, sh_offset);
        put_u64(&mut img, off + 32, sh_size);
        put_u64(&mut img, off + 56, sh_entsize);
    }
    img[dataoff as usize..].copy_from_slice(data);
    img
}

#[test]
fn read_le_fields() {
    let mut buf = vec![0u8; 16];
    put_u64(&mut buf, 0, 0x0123_4567_89ab_cdef);
    put_u32(&mut buf, 8, 0xdead_beef);
    put_u16(&mut buf, 12, 0xcafe);
    assert_eq!(read_u64(&buf, 0), 0x0123_4567_89ab_cdef);
    assert_eq!(read_u32(&buf, 8), 0xdead_beef);
    assert_eq!(read_u16(&buf, 12), 0xcafe);
}

#[test]
fn write_then_read_round_trip() {
    let mut buf = vec![0xaau8; 24];
    write_le64(&mut buf, 8, 0x1122_3344_5566_7788);
    assert_eq!(read_u64(&buf, 8), 0x1122_3344_5566_7788);
    assert_eq!(buf[7], 0xaa);
    assert_eq!(buf[16], 0xaa);
    assert_eq!(buf[8], 0x88);
    assert_eq!(buf[15], 0x11);
}

#[test]
fn ehdr_too_short() {
    let buf = vec![0u8; 63];
    assert_eq!(parse_ehdr(&buf), Err(LoadError::TruncatedHeader));
}

#[test]
fn ehdr_fields() {
    let img = build_image(0x401000, &[], &[], &[]);
    let h = parse_ehdr(&img).unwrap();
    assert_eq!(h.e_entry, 0x401000);
    assert_eq!(h.e_phoff, 64);
    assert_eq!(h.e_phentsize, 56);
    assert_eq!(h.e_phnum, 0);
    assert_eq!(h.e_shnum, 0);
}

#[test]
fn phdr_fields() {
    let segs = [
        Seg { p_type: PT_LOAD, p_flags: 5, p_offset: 176, p_vaddr: 0x1000, p_filesz: 3, p_memsz: 8 },
        Seg { p_type: 4, p_flags: 6, p_offset: 0, p_vaddr: 0x9000, p_filesz: 0, p_memsz: 0 },
    ];
    let img = build_image(0x1000, &segs, &[], b"abc");
    let h = parse_ehdr(&img).unwrap();
    let phdrs = parse_phdrs(&img, &h).unwrap();
    assert_eq!(phdrs.len(), 2);
    assert_eq!(phdrs[0].p_type, PT_LOAD);
    assert_eq!(phdrs[0].p_flags, 5);
    assert_eq!(phdrs[0].p_offset, 176);
    assert_eq!(phdrs[0].p_vaddr, 0x1000);
    assert_eq!(phdrs[0].p_filesz, 3);
    assert_eq!(phdrs[0].p_memsz, 8);
    assert_eq!(phdrs[1].p_type, 4);
}

#[test]
fn phdr_table_outside_image() {
    let mut img = build_image(0, &[], &[], &[]);
    put_u64(&mut img, 32, 60);
    put_u16(&mut img, 56, 2);
    let h = parse_ehdr(&img).unwrap();
    assert_eq!(parse_phdrs(&img, &h), Err(LoadError::TruncatedProgramHeaders));
}

#[test]
fn shdr_fields_and_truncation() {
    let img = build_image(0, &[], &[(SHT_RELA, 500, 48, 24)], &[0u8; 600]);
    let h = parse_ehdr(&img).unwrap();
    let shdrs = parse_shdrs(&img, &h).unwrap();
    assert_eq!(shdrs.len(), 1);
    assert_eq!(shdrs[0].sh_type, SHT_RELA);
    assert_eq!(shdrs[0].sh_offset, 500);
    assert_eq!(shdrs[0].sh_size, 48);
    assert_eq!(shdrs[0].sh_entsize, 24);

    let mut bad = img.clone();
    let bad_shoff = bad.len() as u64 - 10;
    put_u64(&mut bad, 40, bad_shoff);
    let h2 = parse_ehdr(&bad).unwrap();
    assert_eq!(parse_shdrs(&bad, &h2), Err(LoadError::TruncatedSectionHeaders));
}

#[test]
fn rela_entries_parsed() {
    let mut data = vec![0u8; 48];
    put_u64(&mut data, 0, 0x2000);
    put_u64(&mut data, 8, R_X86_64_RELATIVE as u64);
    put_u64(&mut data, 16, 0x88);
    put_u64(&mut data, 24, 0x2008);
    put_u64(&mut data, 32, R_X86_64_IRELATIVE as u64);
    put_u64(&mut data, 40, 0x90);
    let img = build_image(0, &[], &[(SHT_RELA, 128, 48, 24)], &data);
    let h = parse_ehdr(&img).unwrap();
    let shdrs = parse_shdrs(&img, &h).unwrap();
    let relas = collect_relas(&img, &shdrs).unwrap();
    assert_eq!(relas.len(), 2);
    assert_eq!(relas[0].r_offset, 0x2000);
    assert_eq!(rela_kind(&relas[0]), R_X86_64_RELATIVE);
    assert_eq!(relas[0].r_addend, 0x88);
    assert_eq!(relas[1].r_offset, 0x2008);
    assert_eq!(rela_kind(&relas[1]), R_X86_64_IRELATIVE);
    assert_eq!(relas[1].r_addend, 0x90);
}

#[test]
fn rela_section_bad_entsize() {
    let sh = SectionHeader { sh_type: SHT_RELA, sh_offset: 0, sh_size: 24, sh_entsize: 8 };
    let buf = vec![0u8; 64];
    assert_eq!(parse_rela_section(&buf, &sh), Err(LoadError::BadRelocationSection));
}

#[test]
fn rela_section_outside_image() {
    let sh = SectionHeader { sh_type: SHT_RELA, sh_offset: 50, sh_size: 24, sh_entsize: 24 };
    let buf = vec![0u8; 64];
    assert_eq!(parse_rela_section(&buf, &sh), Err(LoadError::BadRelocationSection));
}

#[test]
fn non_rela_sections_skipped() {
    let img = build_image(0, &[], &[(1, 0, 999_999, 0)], &[]);
    let h = parse_ehdr(&img).unwrap();
    let shdrs = parse_shdrs(&img, &h).unwrap();
    let relas = collect_relas(&img, &shdrs).unwrap();
    assert_eq!(relas.len(), 0);
}

#[test]
fn load_range_spans_segments() {
    let phdrs = vec![
        ProgramHeader { p_type: 4, p_flags: 0, p_offset: 0, p_vaddr: 0, p_filesz: 0, p_memsz: 99 },
        ProgramHeader {
            p_type: PT_LOAD,
            p_flags: 5,
            p_offset: 0,
            p_vaddr: 0x4000,
            p_filesz: 16,
            p_memsz: 16,
        },
        ProgramHeader {
            p_type: PT_LOAD,
            p_flags: 6,
            p_offset: 16,
            p_vaddr: 0x1000,
            p_filesz: 8,
            p_memsz: 0x100,
        },
    ];
    let rg = load_range(&phdrs).unwrap();
    assert_eq!(rg.lo, 0x1000);
    assert_eq!(rg.hi, 0x4010);
}

#[test]
fn load_range_no_load_segment() {
    let phdrs = vec![ProgramHeader {
        p_type: 2,
        p_flags: 0,
        p_offset: 0,
        p_vaddr: 0,
        p_filesz: 0,
        p_memsz: 4,
    }];
    assert_eq!(load_range(&phdrs), Err(LoadError::NoLoadSegment));
}

#[test]
fn load_range_overflowing_segment() {
    let phdrs = vec![ProgramHeader {
        p_type: PT_LOAD,
        p_flags: 5,
        p_offset: 0,
        p_vaddr: u64::MAX - 4,
        p_filesz: 0,
        p_memsz: 16,
    }];
    assert_eq!(load_range(&phdrs), Err(LoadError::SegmentOverflow));
}

#[test]
fn base_arithmetic_wraps() {
    let base = base_for(0x7f00_0000_0000, 0x40_0000);
    assert_eq!(host_addr(base, 0x40_0000), 0x7f00_0000_0000);
    assert_eq!(host_addr(base, 0x40_1000), 0x7f00_0000_1000);
    let wrapped = base_for(0x1000, 0x4000);
    assert_eq!(host_addr(wrapped, 0x4000), 0x1000);
}

#[test]
fn region_copies_file_bytes_and_zeroes_tail() {
    let segs = [Seg {
        p_type: PT_LOAD,
        p_flags: 6,
        p_offset: 120,
        p_vaddr: 0x1000,
        p_filesz: 4,
        p_memsz: 4 + 4096,
    }];
    let img = build_image(0x1000, &segs, &[], b"wxyz");
    let h = parse_ehdr(&img).unwrap();
    let phdrs = parse_phdrs(&img, &h).unwrap();
    let rg = load_range(&phdrs).unwrap();
    let region = build_region(&img, &phdrs, &rg).unwrap();
    assert_eq!(region.len(), 4 + 4096);
    assert_eq!(&region[0..4], b"wxyz");
    let first_nonzero = region[4..].iter().position(|&b| b != 0);
    assert_eq!(first_nonzero, None);
}

#[test]
fn region_rejects_truncated_segment() {
    let segs = [Seg {
        p_type: PT_LOAD,
        p_flags: 6,
        p_offset: 120,
        p_vaddr: 0x1000,
        p_filesz: 50,
        p_memsz: 64,
    }];
    let img = build_image(0x1000, &segs, &[], b"abc");
    let h = parse_ehdr(&img).unwrap();
    let phdrs = parse_phdrs(&img, &h).unwrap();
    let rg = load_range(&phdrs).unwrap();
    assert_eq!(build_region(&img, &phdrs, &rg), Err(LoadError::TruncatedSegment));
}

#[test]
fn relative_relocation_written() {
    let rg = elfload::layout::LoadRange { lo: 0x1000, hi: 0x1020 };
    let mut region = vec![0u8; 0x20];
    let base: u64 = 0x5000_0000;
    let relas = vec![RelaEntry {
        r_offset: 0x1008,
        r_info: R_X86_64_RELATIVE as u64,
        r_addend: 0x1234,
    }];
    let fixes = apply_relocations(&mut region, &rg, base, &relas).unwrap();
    assert_eq!(fixes.len(), 0);
    assert_eq!(read_u64(&region, 8), base + 0x1234);
    assert_eq!(read_u64(&region, 0), 0);
    assert_eq!(read_u64(&region, 16), 0);
}

#[test]
fn irelative_relocation_reported_not_written() {
    let rg = elfload::layout::LoadRange { lo: 0, hi: 0x20 };
    let mut region = vec![0u8; 0x20];
    let base: u64 = 0x7000_0000;
    let relas = vec![RelaEntry {
        r_offset: 0x10,
        r_info: R_X86_64_IRELATIVE as u64,
        r_addend: 0x18,
    }];
    let fixes = apply_relocations(&mut region, &rg, base, &relas).unwrap();
    assert_eq!(fixes.len(), 1);
    assert_eq!(fixes[0].target, base + 0x10);
    assert_eq!(fixes[0].resolver, base + 0x18);
    assert!(region.iter().all(|&b| b == 0));
}

#[test]
fn unknown_relocation_kinds_ignored() {
    let rg = elfload::layout::LoadRange { lo: 0, hi: 0x10 };
    let mut region = vec![0u8; 0x10];
    let relas = vec![RelaEntry { r_offset: 0xffff_0000, r_info: 7, r_addend: 1 }];
    let fixes = apply_relocations(&mut region, &rg, 0, &relas).unwrap();
    assert_eq!(fixes.len(), 0);
    assert!(region.iter().all(|&b| b == 0));
}

#[test]
fn relocation_out_of_range_refused() {
    let rg = elfload::layout::LoadRange { lo: 0x1000, hi: 0x1020 };
    let mut region = vec![0u8; 0x20];
    let relas = vec![
        RelaEntry { r_offset: 0x1000, r_info: R_X86_64_RELATIVE as u64, r_addend: 0 },
        RelaEntry { r_offset: 0x101c, r_info: R_X86_64_RELATIVE as u64, r_addend: 0 },
    ];
    let r = apply_relocations(&mut region, &rg, 0, &relas);
    assert_eq!(r, Err(LoadError::RelocationOutOfRange));
    assert!(region.iter().all(|&b| b == 0));
}

#[test]
fn prot_bits_from_flags() {
    assert_eq!(flags_to_prot(0), 0);
    assert_eq!(flags_to_prot(1), 1);
    assert_eq!(flags_to_prot(2), 2);
    assert_eq!(flags_to_prot(4), 4);
    assert_eq!(flags_to_prot(5), 5);
    assert_eq!(flags_to_prot(6), 6);
    assert_eq!(flags_to_prot(7), 7);
    assert_eq!(flags_to_prot(8), 0);
}

#[test]
fn eager_plan_final_protections() {
    let phdrs = vec![
        ProgramHeader {
            p_type: PT_LOAD,
            p_flags: 5,
            p_offset: 0,
            p_vaddr: 0x1000,
            p_filesz: 4,
            p_memsz: 8,
        },
        ProgramHeader { p_type: 2, p_flags: 7, p_offset: 0, p_vaddr: 0, p_filesz: 0, p_memsz: 8 },
        ProgramHeader {
            p_type: PT_LOAD,
            p_flags: 6,
            p_offset: 0,
            p_vaddr: 0x2000,
            p_filesz: 0,
            p_memsz: 16,
        },
    ];
    let base: u64 = 0x100000;
    let plan = eager_protect_plan(&phdrs, base);
    assert_eq!(plan.len(), 2);
    assert_eq!(plan[0].addr, base + 0x1000);
    assert_eq!(plan[0].size, 8);
    assert_eq!(plan[0].prot, 5);
    assert_eq!(plan[1].addr, base + 0x2000);
    assert_eq!(plan[1].size, 16);
    assert_eq!(plan[1].prot, 6);
}

#[test]
fn lazy_plan_no_access() {
    let phdrs = vec![ProgramHeader {
        p_type: PT_LOAD,
        p_flags: 7,
        p_offset: 0,
        p_vaddr: 0x1000,
        p_filesz: 4,
        p_memsz: 8,
    }];
    let plan = lazy_protect_plan(&phdrs, 0);
    assert_eq!(plan.len(), 1);
    assert_eq!(plan[0].prot, 0);
}

#[test]
fn fault_upgrade_first_touch() {
    let phdrs = vec![
        ProgramHeader {
            p_type: PT_LOAD,
            p_flags: 5,
            p_offset: 0,
            p_vaddr: 0x1000,
            p_filesz: 16,
            p_memsz: 0x1000,
        },
        ProgramHeader {
            p_type: PT_LOAD,
            p_flags: 6,
            p_offset: 0,
            p_vaddr: 0x2000,
            p_filesz: 0,
            p_memsz: 0x1000,
        },
    ];
    let base: u64 = 0x4000_0000;
    let st = fault_upgrade(&phdrs, base, base + 0x1008).unwrap();
    assert_eq!(st.addr, base + 0x1000);
    assert_eq!(st.size, 0x1000);
    assert_eq!(st.prot, 5);
    let st2 = fault_upgrade(&phdrs, base, base + 0x2fff).unwrap();
    assert_eq!(st2.addr, base + 0x2000);
    assert_eq!(st2.prot, 6);
    assert!(fault_upgrade(&phdrs, base, base + 0x3000).is_none());
    assert!(fault_upgrade(&phdrs, base, base.wrapping_sub(1)).is_none());
}

#[test]
fn auxv_zero_values_dropped() {
    let host = vec![
        AuxEntry { a_type: 6, a_val: 4096 },
        AuxEntry { a_type: 7, a_val: 0 },
        AuxEntry { a_type: 11, a_val: 1000 },
    ];
    let ov = AuxOverrides { phdr: 1, phent: 56, phnum: 2, entry: 3, execfn: 4 };
    let out = fix_auxv(&host, &ov);
    assert_eq!(out.len(), 2);
    assert_eq!(out[0].a_type, 6);
    assert_eq!(out[0].a_val, 4096);
    assert_eq!(out[1].a_type, 11);
    assert_eq!(out[1].a_val, 1000);
}

#[test]
fn auxv_overrides_applied() {
    let img = build_image(0x8840, &[], &[], &[]);
    let h = parse_ehdr(&img).unwrap();
    let base: u64 = 0x2000_0000;
    let ov = make_overrides(base, &h, 0x7777);
    assert_eq!(ov.phdr, base + 64);
    assert_eq!(ov.phent, 56);
    assert_eq!(ov.phnum, 0);
    assert_eq!(ov.entry, base + 0x8840);
    assert_eq!(ov.execfn, 0x7777);
    let host = vec![
        AuxEntry { a_type: 3, a_val: 111 },
        AuxEntry { a_type: 4, a_val: 222 },
        AuxEntry { a_type: 5, a_val: 333 },
        AuxEntry { a_type: 9, a_val: 444 },
        AuxEntry { a_type: 31, a_val: 555 },
        AuxEntry { a_type: 16, a_val: 666 },
    ];
    let out = fix_auxv(&host, &ov);
    assert_eq!(out.len(), 6);
    assert_eq!(out[0].a_val, ov.phdr);
    assert_eq!(out[1].a_val, 56);
    assert_eq!(out[2].a_val, 0);
    assert_eq!(out[3].a_val, ov.entry);
    assert_eq!(out[4].a_val, 0x7777);
    assert_eq!(out[5].a_val, 666);
}

#[test]
fn auxv_absent_override_type_stays_absent() {
    let host = vec![AuxEntry { a_type: 9, a_val: 0 }];
    let ov = AuxOverrides { phdr: 1, phent: 2, phnum: 3, entry: 4, execfn: 5 };
    let out = fix_auxv(&host, &ov);
    assert_eq!(out.len(), 0);
}

#[test]
fn stack_layout_exact() {
    let args = vec![0xa000, 0xa010];
    let env = vec![0xb000];
    let auxv = vec![AuxEntry { a_type: 6, a_val: 4096 }];
    let words = build_stack(&args, &env, &auxv);
    let expect = vec![2u64, 0xa000, 0xa010, 0, 0xb000, 0, 6, 4096, 0, 0];
    assert_eq!(words, expect);
    assert_eq!(words.len() % 2, 0);
}

#[test]
fn stack_odd_body_padded() {
    let args = vec![0xa000];
    let env = vec![];
    let auxv = vec![];
    let words = build_stack(&args, &env, &auxv);
    let expect = vec![1u64, 0xa000, 0, 0, 0, 0];
    assert_eq!(words, expect);
    assert_eq!(words.len() % 2, 0);
}

#[test]
fn stack_placed_at_buffer_end() {
    let words = vec![3u64, 7, 9, 11];
    let (buf, sp) = place_stack(&words).unwrap();
    assert_eq!(buf.len(), STACK_WORDS);
    assert_eq!(sp, STACK_WORDS - 4);
    assert_eq!(&buf[sp..], &words[..]);
    assert!(buf[..sp].iter().all(|&w| w == 0));
}

#[test]
fn stack_too_large_refused() {
    let words = vec![0u64; STACK_WORDS + 1];
    assert_eq!(place_stack(&words), Err(LoadError::StackTooLarge));
}

#[test]
fn static_image_end_to_end() {
    let code: &[u8] = b"\xb8\x3c\x00\x00\x00\x0f\x05";
    let segs = [Seg {
        p_type: PT_LOAD,
        p_flags: 5,
        p_offset: 120,
        p_vaddr: 0x40_0000,
        p_filesz: code.len() as u64,
        p_memsz: code.len() as u64,
    }];
    let img = build_image(0x40_0000, &segs, &[], code);
    let h = parse_ehdr(&img).unwrap();
    let phdrs = parse_phdrs(&img, &h).unwrap();
    let shdrs = parse_shdrs(&img, &h).unwrap();
    let relas = collect_relas(&img, &shdrs).unwrap();
    assert_eq!(relas.len(), 0);
    let rg = load_range(&phdrs).unwrap();
    assert_eq!(rg.lo, 0x40_0000);
    assert_eq!(rg.hi, 0x40_0000 + code.len() as u64);
    let region_start: u64 = 0x1_0000_0000;
    let base = base_for(region_start, rg.lo);
    let mut region = build_region(&img, &phdrs, &rg).unwrap();
    assert_eq!(&region[..], code);
    let fixes = apply_relocations(&mut region, &rg, base, &relas).unwrap();
    assert_eq!(fixes.len(), 0);
    let entry = host_addr(base, h.e_entry);
    assert_eq!(entry, region_start);
    let plan = eager_protect_plan(&phdrs, base);
    assert_eq!(plan.len(), 1);
    assert_eq!(plan[0].addr, region_start);
    assert_eq!(plan[0].prot, 5);
}

#[test]
fn irelative_resolver_value_lands_at_target() {
    // The shell calls the resolver and stores its value; the library names
    // where.  Simulate a resolver returning a known constant and check the
    // patched word through the verified reader.
    let rg = elfload::layout::LoadRange { lo: 0, hi: 0x20 };
    let mut region = vec![0u8; 0x20];
    let base: u64 = 0;
    let relas = vec![RelaEntry {
        r_offset: 0x8,
        r_info: R_X86_64_IRELATIVE as u64,
        r_addend: 0x10,
    }];
    let fixes = apply_relocations(&mut region, &rg, base, &relas).unwrap();
    assert_eq!(fixes.len(), 1);
    let resolver_result: u64 = 0x0042;
    let off = (fixes[0].target - base) as usize;
    write_le64(&mut region, off, resolver_result);
    assert_eq!(read_u64(&region, 8) & 0xff, 0x42);
}

#[test]
fn argv_and_env_pointers_pass_through() {
    let argv1_ptr: u64 = 0xdead_0010;
    let env_ptr: u64 = 0xbeef_0020;
    let args = vec![0xdead_0000, argv1_ptr];
    let env = vec![env_ptr];
    let auxv = vec![];
    let words = build_stack(&args, &env, &auxv);
    assert_eq!(words[0], 2);
    assert_eq!(words[2], argv1_ptr);
    assert_eq!(words[3], 0);
    assert_eq!(words[4], env_ptr);
    assert_eq!(words[5], 0);
}

#[test]
fn parse_image_drives_all_tables() {
    let mut data = vec![0u8; 24];
    put_u64(&mut data, 0, 0x1010);
    put_u64(&mut data, 8, R_X86_64_RELATIVE as u64);
    put_u64(&mut data, 16, 0x20);
    let segs = [Seg {
        p_type: PT_LOAD,
        p_flags: 6,
        p_offset: 0,
        p_vaddr: 0x1000,
        p_filesz: 0,
        p_memsz: 0x40,
    }];
    let img = build_image(0x1000, &segs, &[(SHT_RELA, 184, 24, 24)], &data);
    let p = elfload::parse_image(&img).unwrap();
    assert_eq!(p.ehdr.e_entry, 0x1000);
    assert_eq!(p.phdrs.len(), 1);
    assert_eq!(p.shdrs.len(), 1);
    assert_eq!(p.relas.len(), 1);
    assert_eq!(p.relas[0].r_offset, 0x1010);
}

#[test]
fn parse_image_propagates_bad_relocation_section() {
    let img = build_image(0, &[], &[(SHT_RELA, 0, 24, 4)], &[]);
    let r = elfload::parse_image(&img);
    assert!(matches!(r, Err(LoadError::BadRelocationSection)));
}
