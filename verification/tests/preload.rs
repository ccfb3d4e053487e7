//! End-to-end tests: preload a small ELF file and examine the output.
//!
//! The input files are synthesized in the tests: a 64-bit little-endian
//! executable with two loadable segments, dense enough in physical addresses
//! for either strategy.

use elf_preload::{Input, LayoutStrategy};
use goblin::container::{Container, Ctx, Endian};
use goblin::elf::header::{self, Header};
use goblin::elf::program_header::{self, ProgramHeader};
use goblin::elf::Elf;
use scroll::Pwrite;

const HELLO: &[u8] = b"Hello World!\0";

fn build_test_elf() -> Vec<u8> {
    let ctx = Ctx::new(Container::Big, Endian::Little);
    let mut buffer = vec![0u8; 512];
    let mut offset: usize = 0;
    buffer
        .gwrite(
            Header {
                e_type: header::ET_EXEC,
                e_entry: 0x11000,
                e_phoff: Header::size(ctx) as u64,
                e_phnum: 2,
                ..Header::new(ctx)
            },
            &mut offset,
        )
        .unwrap();
    buffer
        .gwrite_with(
            ProgramHeader {
                p_offset: 200,
                p_vaddr: 0x11000,
                p_paddr: 0x11000,
                p_filesz: HELLO.len() as u64,
                p_memsz: 100,
                p_align: 4096,
                ..ProgramHeader::new()
            },
            &mut offset,
            ctx,
        )
        .unwrap();
    buffer
        .gwrite_with(
            ProgramHeader {
                p_offset: 300,
                p_vaddr: 0x12000,
                p_paddr: 0x12000,
                p_filesz: 8,
                p_memsz: 50,
                p_align: 4096,
                ..ProgramHeader::new()
            },
            &mut offset,
            ctx,
        )
        .unwrap();
    buffer[200..200 + HELLO.len()].copy_from_slice(HELLO);
    buffer[300..308].copy_from_slice(&[1, 2, 3, 4, 5, 6, 7, 8]);
    buffer
}

fn run_preload(input: &[u8], strategy: LayoutStrategy) -> Vec<u8> {
    let input = Input::new(input).expect("Unable to read input file");
    let layout = input
        .layout(strategy)
        .expect("Unable to layout output file");
    let mut output = vec![0xd0; layout.required_size()];
    let writer = layout.output(&mut output).expect("Unable to create writer");
    writer.write().expect("Unable to write output file");

    output
}

#[test]
fn elf_preload_writes_valid_elf_for_specified_start() {
    let bytes = build_test_elf();
    let output = run_preload(&bytes, LayoutStrategy::SpecifiedStart(5000));

    Elf::parse(&output).expect("Output file is an invalid Elf file!");
}

#[test]
fn elf_preload_writes_valid_elf_for_from_input() {
    let bytes = build_test_elf();
    let output = run_preload(&bytes, LayoutStrategy::FromInput);

    Elf::parse(&output).expect("Output file is an invalid Elf file!");
}

#[test]
fn elf_preload_is_idempotent_for_specificed_start() {
    let bytes = build_test_elf();
    idempotent_test(&bytes, LayoutStrategy::SpecifiedStart(5000));
}

#[test]
fn elf_preload_is_idempotent_for_from_input() {
    let bytes = build_test_elf();
    idempotent_test(&bytes, LayoutStrategy::FromInput);
}

fn idempotent_test(input: &[u8], strategy: LayoutStrategy) {
    let output = run_preload(input, strategy);

    let elf = Elf::parse(&output).expect("Output file invalid");

    let mut offset = 0;
    for phdr in (&elf.program_headers)
        .iter()
        .filter(|p| p.p_type == program_header::PT_LOAD)
    {
        assert_eq!(phdr.p_offset, offset);
        offset += phdr.p_filesz;
    }
    assert_eq!(output.len(), offset as usize);
}

#[test]
fn elf_preload_has_expected_segments_for_specified_start() {
    let bytes = build_test_elf();
    expected_segments_test(&bytes, LayoutStrategy::SpecifiedStart(5000));
}

#[test]
fn elf_preload_has_expected_segment_for_from_input() {
    let bytes = build_test_elf();
    expected_segments_test(&bytes, LayoutStrategy::FromInput);
}

fn expected_segments_test(input: &[u8], strategy: LayoutStrategy) {
    let output = run_preload(input, strategy);

    let elf = Elf::parse(&output).expect("Output file invalid");

    assert!(elf.program_headers.len() >= 2);
    assert_eq!(elf.program_headers[0].p_type, program_header::PT_PHDR);
    for phdr in (&elf.program_headers).iter().skip(1) {
        assert_eq!(phdr.p_type, program_header::PT_LOAD);
    }
}

#[test]
fn elf_preload_has_no_sections_for_specified_start() {
    let bytes = build_test_elf();
    no_sections_test(&bytes, LayoutStrategy::SpecifiedStart(5000));
}

#[test]
fn elf_preload_has_no_sections_for_from_input() {
    let bytes = build_test_elf();
    no_sections_test(&bytes, LayoutStrategy::FromInput);
}

fn no_sections_test(input: &[u8], strategy: LayoutStrategy) {
    let output = run_preload(input, strategy);

    let elf = Elf::parse(&output).expect("Output file invalid");

    assert_eq!(elf.section_headers.len(), 0);
}

#[test]
fn elf_preload_copies_file_bytes_and_zeroes_bss() {
    let bytes = build_test_elf();
    let output = run_preload(&bytes, LayoutStrategy::SpecifiedStart(5000));

    let elf = Elf::parse(&output).expect("Output file invalid");
    // The second loadable output segment carries the first input segment:
    // its file bytes first, then zeros where the input had only memory.
    let seg = &elf.program_headers[2];
    let start = seg.p_offset as usize;
    assert_eq!(&output[start..start + HELLO.len()], HELLO);
    for b in &output[start + HELLO.len()..start + 100] {
        assert_eq!(*b, 0);
    }
}
