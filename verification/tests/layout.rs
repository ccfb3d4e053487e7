//! Tests of the layout of the output file.

use elf_preload::{Arch, Layout, LayoutStrategy, ProgramHeader, PAGE_SIZE};
use goblin::elf::header::ET_EXEC;
use goblin::elf::program_header::{PT_LOAD, PT_PHDR};
use goblin::elf::{Elf, Header};
use goblin::container::Container;
use scroll::Pread;
use std::ops::Range;

fn create_arch() -> Arch {
    Arch {
        machine: 40,
        is_64: false,
        is_little_endian: true,
    }
}

fn make_fake_pt_phdr() -> ProgramHeader {
    ProgramHeader {
        p_type: PT_PHDR,
        p_flags: 0,
        p_offset: 0,
        p_vaddr: 0,
        p_paddr: 0,
        p_filesz: 0,
        p_memsz: 0,
        p_align: 2 << 20,
    }
}

fn make_load_header(file_range: Range<usize>, memsz: Option<u64>) -> ProgramHeader {
    let memsz = memsz.unwrap_or(file_range.len() as u64);
    ProgramHeader {
        p_type: PT_LOAD,
        p_flags: 0,
        p_offset: file_range.start as u64,
        p_vaddr: 0,
        p_paddr: 0,
        p_filesz: file_range.len() as u64,
        p_memsz: memsz,
        p_align: 2 << 20,
    }
}

#[test]
fn specified_layout_required_size_is_header_and_loadables() {
    let arch = create_arch();
    let memsz = 100;
    let offset = 100;
    let phdr = vec![ProgramHeader {
        p_type: PT_LOAD,
        p_flags: 0,
        p_memsz: memsz,
        p_align: PAGE_SIZE,
        p_vaddr: offset + 4 * PAGE_SIZE,
        p_offset: offset,
        p_paddr: 0,
        p_filesz: 0,
    }];
    let strategy = LayoutStrategy::SpecifiedStart(0);

    let sut = Layout::new(arch, &phdr, &[], 0, strategy).unwrap();
    let size = sut.required_size();

    assert_eq!(size, (PAGE_SIZE + offset + memsz) as usize);
}

#[test]
fn layout_segment_size_reads_n_plus_1_out_phdr_filesz() {
    let filesz = 500;

    let sut = Layout {
        in_phdr: Vec::new(),
        out_phdr: vec![make_fake_pt_phdr(), make_load_header(0..filesz, None)],
        arch: create_arch(),
        input: &[],
        entry: 0,
    };
    let result = sut.segment_size(0);

    assert_eq!(result, filesz);
}

#[test]
fn layout_write_segment_copies_bytes_for_second_segment() {
    let in_char = 0xdb;
    let size = 355;
    let in_start = 300;
    let out_start = 501;
    let in_phdr = vec![make_load_header(in_start..(in_start + size), None)];
    let out_phdr = vec![
        make_fake_pt_phdr(),
        make_load_header(0..500, None),
        make_load_header(out_start..(out_start + size), None),
    ];
    let input = vec![in_char; 2000];
    let mut output = vec![0xc0; 5000];

    let sut = Layout {
        in_phdr,
        out_phdr,
        input: &input,
        arch: create_arch(),
        entry: 0,
    };
    sut.write_segment(1, &mut output)
        .expect("write_segement failed unexpectedly");

    for out_char in &output[0..size] {
        assert_eq!(*out_char, in_char);
    }
}

#[test]
fn layout_write_segment_zeros_bss_for_second_segment() {
    let in_char = 0xdb;
    let in_size = 355;
    let in_start = 300;
    let out_start = 501;
    let out_size = in_size + 50;
    let in_phdr = vec![make_load_header(
        in_start..(in_start + in_size),
        Some(out_size as u64),
    )];
    let out_phdr = vec![
        make_fake_pt_phdr(),
        make_load_header(0..500, None),
        make_load_header(out_start..(out_start + out_size), None),
    ];
    let input = vec![in_char; 2000];
    let mut output = vec![0xc0; 5000];

    let sut = Layout {
        in_phdr,
        out_phdr,
        input: &input,
        arch: create_arch(),
        entry: 0,
    };
    sut.write_segment(1, &mut output)
        .expect("write_segement failed unexpectedly");

    for out_char in &output[in_size..out_size] {
        assert_eq!(*out_char, 0);
    }
}

#[test]
fn layout_write_first_segement_writes_elf_header() {
    let arch = create_arch();
    let size = 52 + 32;
    let out_phdr = vec![make_fake_pt_phdr(), make_load_header(0..size, None)];
    let mut output = vec![0xc0; 5000];

    let sut = Layout {
        out_phdr,
        arch,
        in_phdr: Vec::new(),
        input: &[],
        entry: 0,
    };
    sut.write_segment(0, &mut output)
        .expect("write_segement failed unexpectedly");

    let header = (&output[..]).pread::<Header>(0).expect("Invalid Elf Header");
    assert!(matches!(
        header.container().expect("Invalid Arch in Elf Header"),
        Container::Little
    ));
    assert!(header
        .endianness()
        .expect("Invalid Arch in Elf Header")
        .is_little());
    assert_eq!(header.e_machine, arch.machine);
    assert_eq!(header.e_type, ET_EXEC);
}

#[test]
fn layout_write_first_segment_includes_entry_in_elf_header() {
    let arch = create_arch();
    let entry = 0xd00dfeed;
    let size = 52 + 32;
    let out_phdr = vec![make_fake_pt_phdr(), make_load_header(0..size, None)];
    let mut output = vec![0xc0; 5000];

    let sut = Layout {
        out_phdr,
        arch,
        in_phdr: Vec::new(),
        input: &[],
        entry,
    };
    sut.write_segment(0, &mut output)
        .expect("write_segement failed unexpectedly");

    let header = (&output[..]).pread::<Header>(0).expect("Invalid Elf Header");
    assert_eq!(header.e_entry, entry);
}

#[test]
fn layout_write_first_segment_writes_phdrs() {
    let arch = create_arch();
    let size = 52 + 32;
    let out_phdr = vec![make_fake_pt_phdr(), make_load_header(0..size, None)];
    let mut output = vec![0xc0; 5000];

    let sut = Layout {
        out_phdr,
        arch,
        in_phdr: Vec::new(),
        input: &[],
        entry: 0,
    };
    sut.write_segment(0, &mut output)
        .expect("write_segement failed unexpectedly");

    let elf = Elf::parse(&output).expect("Invalid Elf file");
    assert_eq!(elf.program_headers.len(), 2);
    assert_eq!(elf.program_headers[0].p_type, PT_PHDR);
    assert_eq!(elf.program_headers[1].p_type, PT_LOAD);
    assert_eq!(elf.program_headers[1].p_offset, 0);
    assert_eq!(elf.program_headers[1].p_filesz, size as u64);
}
