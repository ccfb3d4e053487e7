//! Scenario tests over the whole pipeline: exact sizes, header round
//! trips, and the rejection of unusable outputs and inputs.

use elf_preload::{Error, Input, LayoutStrategy};
use goblin::container::{Container, Ctx, Endian};
use goblin::elf::header::{self, Header};
use goblin::elf::program_header::ProgramHeader;
use scroll::Pread;
use scroll::Pwrite;

const HELLO: &[u8] = b"Hello World!\0";

fn build_one_segment_elf(entry: u64) -> Vec<u8> {
    let ctx = Ctx::new(Container::Big, Endian::Little);
    let mut buffer = vec![0u8; 512];
    let mut offset: usize = 0;
    buffer
        .gwrite(
            Header {
                e_type: header::ET_EXEC,
                e_entry: entry,
                e_phoff: Header::size(ctx) as u64,
                e_phnum: 1,
                ..Header::new(ctx)
            },
            &mut offset,
        )
        .unwrap();
    buffer
        .gwrite_with(
            ProgramHeader {
                p_offset: 200,
                p_vaddr: 0x1000,
                p_paddr: 0x1000,
                p_filesz: HELLO.len() as u64,
                p_memsz: 100,
                p_align: 4096,
                ..ProgramHeader::new()
            },
            &mut offset,
            ctx,
        )
        .unwrap();
    buffer[200..200 + HELLO.len()].copy_from_slice(HELLO);
    buffer
}

#[test]
fn required_size_is_page_plus_memsz_for_one_aligned_segment() {
    let bytes = build_one_segment_elf(0x1000);
    let input = Input::new(&bytes).unwrap();
    let layout = input.layout(LayoutStrategy::SpecifiedStart(0)).unwrap();

    assert_eq!(layout.required_size(), 4096 + 100);
}

#[test]
fn fresh_output_header_carries_entry_and_exec_type() {
    let entry = 0xd00dfeed;
    let bytes = build_one_segment_elf(entry);
    let input = Input::new(&bytes).unwrap();
    let layout = input.layout(LayoutStrategy::SpecifiedStart(0)).unwrap();
    let mut output = vec![0xd0; layout.required_size()];
    let writer = layout.output(&mut output).unwrap();
    writer.write().unwrap();

    let parsed = (&output[..]).pread::<Header>(0).expect("Invalid Elf Header");
    assert_eq!(parsed.e_entry, entry);
    assert_eq!(parsed.e_type, header::ET_EXEC);
}

#[test]
fn short_output_buffer_is_rejected() {
    let bytes = build_one_segment_elf(0x1000);
    let input = Input::new(&bytes).unwrap();
    let layout = input.layout(LayoutStrategy::SpecifiedStart(0)).unwrap();
    let mut output = vec![0u8; layout.required_size() - 1];

    let result = layout.output(&mut output);

    assert!(matches!(result, Err(Error::OutputTooSmall)));
}

#[test]
fn segment_reaching_past_the_file_is_rejected() {
    let ctx = Ctx::new(Container::Big, Endian::Little);
    let mut buffer = vec![0u8; 512];
    let mut offset: usize = 0;
    buffer
        .gwrite(
            Header {
                e_type: header::ET_EXEC,
                e_phoff: Header::size(ctx) as u64,
                e_phnum: 1,
                ..Header::new(ctx)
            },
            &mut offset,
        )
        .unwrap();
    buffer
        .gwrite_with(
            ProgramHeader {
                p_offset: 400,
                p_vaddr: 0x1000,
                p_paddr: 0x1000,
                p_filesz: 200,
                p_memsz: 200,
                p_align: 4096,
                ..ProgramHeader::new()
            },
            &mut offset,
            ctx,
        )
        .unwrap();

    let result = Input::new(&buffer);

    assert!(matches!(result, Err(Error::InvalidElf { message: _ })));
}

#[test]
fn split_writers_emit_the_same_output_as_one() {
    let bytes = build_one_segment_elf(0x1000);
    let input = Input::new(&bytes).unwrap();
    let layout = input.layout(LayoutStrategy::SpecifiedStart(0)).unwrap();

    let mut whole = vec![0xd0; layout.required_size()];
    layout.output(&mut whole).unwrap().write().unwrap();

    let mut parts = vec![0xd0; layout.required_size()];
    let writer = layout.output(&mut parts).unwrap();
    let (left, right) = writer.split();
    left.write().unwrap();
    if let Some(right) = right {
        right.write().unwrap();
    }

    assert_eq!(whole, parts);
}
