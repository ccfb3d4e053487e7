//! Tests of the two layout strategies.

use elf_preload::{Arch, LayoutStrategy, ProgramHeader, PAGE_SIZE};
use goblin::elf::program_header::{PT_LOAD, PT_PHDR};

fn new_arch() -> Arch {
    Arch {
        machine: 40,
        is_64: true,
        is_little_endian: false,
    }
}

fn make_phdr(rel_offset: u64, memsz: u64) -> ProgramHeader {
    ProgramHeader {
        p_type: PT_LOAD,
        p_flags: 0,
        p_offset: rel_offset + PAGE_SIZE,
        p_vaddr: rel_offset + 4 * PAGE_SIZE,
        p_paddr: 0,
        p_filesz: 0,
        p_memsz: memsz,
        p_align: PAGE_SIZE,
    }
}

fn make_paddr_phdr(rel_offset: u64, memsz: u64, paddr: u64) -> ProgramHeader {
    ProgramHeader {
        p_paddr: paddr,
        ..make_phdr(rel_offset, memsz)
    }
}

#[test]
fn specified_start_layout_without_room_gives_gt_page_size_first_segment() {
    let phdr = vec![make_phdr(25, 100)];

    let sut = LayoutStrategy::SpecifiedStart(100);
    let out = sut.layout(&phdr, &new_arch()).unwrap();

    // out[1] is the first PT_LOAD segment
    assert!(out[1].p_filesz >= PAGE_SIZE);
}

#[test]
fn specified_start_layout_with_room_gives_lt_page_size_first_segment() {
    let phdr = vec![make_phdr(1000, 100)];

    let sut = LayoutStrategy::SpecifiedStart(100);
    let out = sut.layout(&phdr, &new_arch()).unwrap();

    // out[1] is the first PT_LOAD segment
    assert!(out[1].p_filesz < PAGE_SIZE);
}

#[test]
fn specified_start_layout_gives_phdr_and_load_segments() {
    let phdr = vec![make_phdr(1000, 100), make_phdr(1200, 50)];

    let sut = LayoutStrategy::SpecifiedStart(100);
    let out = sut.layout(&phdr, &new_arch()).unwrap();

    assert_eq!(out.len(), 4);
    assert_eq!(out[0].p_type, PT_PHDR);
    assert_eq!(out[1].p_type, PT_LOAD);
    assert_eq!(out[2].p_type, PT_LOAD);
    assert_eq!(out[3].p_type, PT_LOAD);
}

#[test]
fn specified_start_layout_gives_full_filesz_segments() {
    let phdr = vec![make_phdr(1000, 100), make_phdr(1200, 50)];

    let sut = LayoutStrategy::SpecifiedStart(100);
    let out = sut.layout(&phdr, &new_arch()).unwrap();

    for ph in out {
        assert_eq!(ph.p_memsz, ph.p_filesz);
    }
}

#[test]
fn specified_start_layout_gives_sorted_segments() {
    let phdr = vec![make_phdr(1000, 100), make_phdr(1200, 50)];

    let sut = LayoutStrategy::SpecifiedStart(100);
    let out = sut.layout(&phdr, &new_arch()).unwrap();

    for pair in out.windows(2) {
        let (l, r) = (&pair[0], &pair[1]);
        assert!(l.p_type != PT_LOAD || l.p_vaddr <= r.p_vaddr);
    }
}

#[test]
fn specified_start_layout_gives_plenum() {
    let phdr = vec![make_phdr(1000, 100), make_phdr(1200, 50)];

    let sut = LayoutStrategy::SpecifiedStart(100);
    let out = sut.layout(&phdr, &new_arch()).unwrap();

    for pair in out.windows(2) {
        let (l, r) = (&pair[0], &pair[1]);
        if l.p_type == PT_PHDR {
            // the PT_PHDR is within the first PT_LOAD segment
            assert!(l.p_paddr >= r.p_paddr);
            assert!(l.p_paddr + l.p_filesz <= r.p_paddr + r.p_filesz);
        } else {
            // the next PT_LOAD segment is exactly after the current one
            assert_eq!(l.p_paddr + l.p_filesz, r.p_paddr);
            assert_eq!(l.p_offset + l.p_filesz, r.p_offset);
        }
    }
}

#[test]
fn specified_start_layout_gives_specified_start() {
    let phdr = vec![make_phdr(1000, 100), make_phdr(1200, 50)];
    let start = 100;

    let sut = LayoutStrategy::SpecifiedStart(start);
    let out = sut.layout(&phdr, &new_arch()).unwrap();

    assert_eq!(out[1].p_paddr, start);
}

#[test]
fn from_input_layout_gives_phdr_and_load_segments() {
    let phdr = vec![
        make_paddr_phdr(100, 100, 5200),
        make_paddr_phdr(1200, 50, 5500),
    ];

    let sut = LayoutStrategy::FromInput;
    let out = sut.layout(&phdr, &new_arch()).unwrap();

    assert_eq!(out.len(), 4);
    assert_eq!(out[0].p_type, PT_PHDR);
    assert_eq!(out[1].p_type, PT_LOAD);
    assert_eq!(out[2].p_type, PT_LOAD);
    assert_eq!(out[3].p_type, PT_LOAD);
}

#[test]
fn from_input_layout_gives_full_filesz_segments() {
    let phdr = vec![
        make_paddr_phdr(100, 100, 5200),
        make_paddr_phdr(1200, 50, 5500),
    ];

    let sut = LayoutStrategy::FromInput;
    let out = sut.layout(&phdr, &new_arch()).unwrap();

    for ph in out {
        assert_eq!(ph.p_memsz, ph.p_filesz);
    }
}

#[test]
fn from_input_layout_gives_sorted_segments() {
    let phdr = vec![
        make_paddr_phdr(100, 100, 5200),
        make_paddr_phdr(1200, 50, 5500),
    ];

    let sut = LayoutStrategy::FromInput;
    let out = sut.layout(&phdr, &new_arch()).unwrap();

    for pair in out.windows(2) {
        let (l, r) = (&pair[0], &pair[1]);
        assert!(l.p_type != PT_LOAD || l.p_vaddr <= r.p_vaddr);
    }
}

#[test]
fn from_input_layout_gives_plenum() {
    let phdr = vec![
        make_paddr_phdr(100, 100, 5200),
        make_paddr_phdr(1200, 50, 5500),
    ];

    let sut = LayoutStrategy::FromInput;
    let out = sut.layout(&phdr, &new_arch()).unwrap();

    for pair in out.windows(2) {
        let (l, r) = (&pair[0], &pair[1]);
        if l.p_type == PT_PHDR {
            // The PT_PHDR is within the first PT_LOAD segment.
            assert!(l.p_paddr >= r.p_paddr);
            assert!(l.p_paddr + l.p_filesz <= r.p_paddr + r.p_filesz);
        } else {
            // The next PT_LOAD segment is exactly after the current one.
            // This does not check the p_paddr for a plenum constraint since
            // this strategy does not assign the p_paddr.
            assert_eq!(l.p_offset + l.p_filesz, r.p_offset);
        }
    }
}

#[test]
fn from_input_layout_gives_paddr_from_input() {
    let paddr1 = 5200;
    let paddr2 = 5500;
    let phdr = vec![
        make_paddr_phdr(100, 100, paddr1),
        make_paddr_phdr(1200, 50, paddr2),
    ];

    let sut = LayoutStrategy::FromInput;
    let out = sut.layout(&phdr, &new_arch()).unwrap();

    assert_eq!(out[2].p_paddr, paddr1);
    assert_eq!(out[3].p_paddr, paddr2);
}
