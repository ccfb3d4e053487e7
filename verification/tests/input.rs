//! Tests of parsing and validating the input ELF file.

use elf_preload::{Error, Input, LayoutStrategy};
use goblin::container::{Container, Ctx, Endian};
use goblin::elf::dynamic::{Dyn, DT_INIT, DT_NULL};
use goblin::elf::header::{self, Header};
use goblin::elf::program_header::{self, ProgramHeader};
use scroll::ctx::SizeWith;
use scroll::Pwrite;

const PAGE_SIZE: usize = 4096;
const HELLO: &[u8] = b"Hello World!\0";

fn get_ctx() -> Ctx {
    Ctx::new(Container::Little, Endian::Little)
}

fn write_header(ctx: &Ctx, input: &mut [u8], offset: &mut usize, phnum: u16) {
    input
        .gwrite(
            Header {
                e_type: header::ET_EXEC,
                e_phoff: Header::size(*ctx) as u64,
                e_phnum: phnum,
                ..Header::new(*ctx)
            },
            offset,
        )
        .unwrap();
}

fn write_bytes(input: &mut [u8], offset: &mut usize, bytes: &[u8]) {
    input[*offset..*offset + bytes.len()].copy_from_slice(bytes);
    *offset += bytes.len();
}

#[test]
fn new_input_on_bad_bytes_is_error() {
    let input = [0xba, 0xdd, 0x00, 0xd8, 0xde, 0xad, 0xbe, 0xef];

    let result = Input::new(&input);

    assert!(matches!(result, Err(Error::BadElf(_))));
}

#[test]
fn new_input_with_shared_library_is_error() {
    let mut input = vec![0; 512];
    let ctx = get_ctx();
    let mut offset: usize = 0;
    input
        .gwrite(
            Header {
                e_type: header::ET_DYN,
                e_phoff: Header::size(ctx) as u64,
                e_phnum: 1,
                ..Header::new(ctx)
            },
            &mut offset,
        )
        .unwrap();
    input
        .gwrite_with(
            ProgramHeader {
                p_offset: (Header::size(ctx) + ProgramHeader::size(ctx)) as u64,
                p_vaddr: 0x1000,
                p_filesz: 13,
                p_memsz: 16,
                ..ProgramHeader::new()
            },
            &mut offset,
            ctx,
        )
        .unwrap();
    write_bytes(&mut input, &mut offset, HELLO);

    let result = Input::new(&input);

    assert!(matches!(result, Err(Error::InvalidElf { message: _ })));
}

#[test]
fn new_input_with_dynamic_array_is_error() {
    let hello_len = HELLO.len();
    let mut input = vec![0; 512];
    let ctx = get_ctx();
    let mut offset: usize = 0;
    write_header(&ctx, &mut input, &mut offset, 2);
    input
        .gwrite_with(
            ProgramHeader {
                p_offset: (Header::size(ctx) + 2 * ProgramHeader::size(ctx)) as u64,
                p_vaddr: 0x1000,
                p_filesz: 100,
                p_memsz: 100,
                ..ProgramHeader::new()
            },
            &mut offset,
            ctx,
        )
        .unwrap();
    input
        .gwrite_with(
            ProgramHeader {
                p_type: program_header::PT_DYNAMIC,
                p_offset: (Header::size(ctx) + 2 * ProgramHeader::size(ctx) + hello_len) as u64,
                p_vaddr: 0x2000,
                p_filesz: 2 * Dyn::size_with(&ctx) as u64,
                p_memsz: 2 * Dyn::size_with(&ctx) as u64,
                ..ProgramHeader::new()
            },
            &mut offset,
            ctx,
        )
        .unwrap();
    write_bytes(&mut input, &mut offset, HELLO);
    input
        .gwrite_with(
            Dyn {
                d_tag: DT_INIT,
                d_val: 0x1000,
            },
            &mut offset,
            ctx,
        )
        .unwrap();
    input
        .gwrite_with(
            Dyn {
                d_tag: DT_NULL,
                d_val: 0,
            },
            &mut offset,
            ctx,
        )
        .unwrap();

    let result = Input::new(&input);

    assert!(matches!(result, Err(Error::InvalidElf { message: _ })));
}

#[test]
fn new_input_with_interpretor_is_error() {
    let hello_len = HELLO.len();
    let mut input = vec![0; 512];
    let ctx = get_ctx();
    let mut offset: usize = 0;
    write_header(&ctx, &mut input, &mut offset, 2);
    input
        .gwrite_with(
            ProgramHeader {
                p_type: program_header::PT_INTERP,
                p_offset: (Header::size(ctx) + 2 * ProgramHeader::size(ctx)) as u64,
                p_vaddr: 0x1000,
                p_filesz: hello_len as u64,
                p_memsz: hello_len as u64,
                ..ProgramHeader::new()
            },
            &mut offset,
            ctx,
        )
        .unwrap();
    input
        .gwrite_with(
            ProgramHeader {
                p_offset: (Header::size(ctx) + 2 * ProgramHeader::size(ctx)) as u64,
                p_vaddr: 0x1000,
                p_filesz: 100,
                p_memsz: 100,
                ..ProgramHeader::new()
            },
            &mut offset,
            ctx,
        )
        .unwrap();
    write_bytes(&mut input, &mut offset, HELLO);

    let result = Input::new(&input);

    assert!(matches!(result, Err(Error::InvalidElf { message: _ })));
}

#[test]
fn input_layout_with_from_input_start_and_sparse_segements_is_error() {
    let hello_len = HELLO.len();
    let mut buffer = vec![0; 4 * PAGE_SIZE];
    let ctx = get_ctx();
    let mut offset: usize = 0;
    write_header(&ctx, &mut buffer, &mut offset, 2);
    buffer
        .gwrite_with(
            ProgramHeader {
                p_offset: (Header::size(ctx) + 2 * ProgramHeader::size(ctx)) as u64,
                p_vaddr: 0x1000,
                p_paddr: 0x4000,
                p_filesz: hello_len as u64,
                p_memsz: 100,
                ..ProgramHeader::new()
            },
            &mut offset,
            ctx,
        )
        .unwrap();
    buffer
        .gwrite_with(
            ProgramHeader {
                p_offset: (Header::size(ctx) + 2 * ProgramHeader::size(ctx) + hello_len) as u64,
                p_vaddr: 0x1000 + 2 * PAGE_SIZE as u64,
                p_paddr: 0x4000 + 2 * PAGE_SIZE as u64,
                p_filesz: hello_len as u64,
                p_memsz: 100,
                ..ProgramHeader::new()
            },
            &mut offset,
            ctx,
        )
        .unwrap();
    write_bytes(&mut buffer, &mut offset, HELLO);
    write_bytes(&mut buffer, &mut offset, HELLO);

    let input = Input::new(&buffer).expect("Invalid ELF file passed to Input::new()");
    let result = input.layout(LayoutStrategy::FromInput);

    assert!(matches!(result, Err(Error::InvalidElf { message: _ })));
}

#[test]
fn input_layout_with_from_input_start_and_first_segment_near_zero_is_error() {
    let hello_len = HELLO.len();
    let mut buffer = vec![0; 4 * PAGE_SIZE];
    let ctx = get_ctx();
    let mut offset: usize = 0;
    write_header(&ctx, &mut buffer, &mut offset, 2);
    buffer
        .gwrite_with(
            ProgramHeader {
                p_offset: (Header::size(ctx) + ProgramHeader::size(ctx)) as u64,
                p_vaddr: 0x1000,
                p_paddr: 0x0010,
                p_filesz: hello_len as u64,
                p_memsz: 100,
                ..ProgramHeader::new()
            },
            &mut offset,
            ctx,
        )
        .unwrap();
    write_bytes(&mut buffer, &mut offset, HELLO);

    let input = Input::new(&buffer).expect("Invalid ELF file passed to Input::new()");
    let result = input.layout(LayoutStrategy::FromInput);

    assert!(matches!(result, Err(Error::InvalidElf { message: _ })));
}

#[test]
fn input_with_too_many_loadable_segments_is_error() {
    let ctx = get_ctx();
    let count: usize = 65534;
    let mut buffer = vec![0; Header::size(ctx) + count * ProgramHeader::size(ctx)];
    let mut offset: usize = 0;
    write_header(&ctx, &mut buffer, &mut offset, count as u16);
    for _ in 0..count {
        buffer
            .gwrite_with(ProgramHeader::new(), &mut offset, ctx)
            .unwrap();
    }

    let result = Input::new(&buffer);

    match result {
        Err(Error::InvalidElf { message }) => {
            assert_eq!(message, "Elf file contains too many loadable segments.");
        }
        other => panic!("expected InvalidElf, got {:?}", other),
    }
}
