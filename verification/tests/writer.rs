//! Tests of the splittable segment writer against a recording fake.

use std::cell::RefCell;
use elf_preload::{ElfWriter, Error, SegmentWriter};

struct FakeWriter {
    segment_sizes: Vec<usize>,
    segments_sized: RefCell<Vec<usize>>,
    segments_writen: RefCell<Vec<usize>>,
    output_sizes: RefCell<Vec<usize>>,
}

impl FakeWriter {
    fn new(segment_sizes: Vec<usize>) -> FakeWriter {
        FakeWriter {
            segment_sizes,
            segments_sized: RefCell::new(Vec::new()),
            segments_writen: RefCell::new(Vec::new()),
            output_sizes: RefCell::new(Vec::new()),
        }
    }
}

impl SegmentWriter for FakeWriter {
    fn segment_size(&self, segment: usize) -> usize {
        self.segments_sized.borrow_mut().push(segment);
        self.segment_sizes[segment]
    }

    fn write_segment(&self, segment: usize, output: &mut [u8]) -> Result<(), Error> {
        self.segments_writen.borrow_mut().push(segment);
        self.output_sizes.borrow_mut().push(output.len());
        Ok(())
    }
}

#[test]
fn elf_writer_write_queries_segment_size() {
    let fw = FakeWriter::new(vec![3000, 4000]);
    let mut output = vec![0; 10000];

    let sut = ElfWriter {
        segments: 0..2,
        writer: &fw,
        output: &mut output,
    };
    sut.write().unwrap();

    assert!(fw.segments_sized.borrow().contains(&0));
    assert!(fw.segments_sized.borrow().contains(&1));
}

#[test]
fn elf_writer_write_writes_expected_segments() {
    let fw = FakeWriter::new(vec![3000, 4000]);
    let mut output = vec![0; 10000];

    let sut = ElfWriter {
        segments: 0..2,
        writer: &fw,
        output: &mut output,
    };
    sut.write().unwrap();

    assert!(fw.segments_writen.borrow().contains(&0));
    assert!(fw.segments_writen.borrow().contains(&1));
}

#[test]
fn elf_writer_write_writes_with_expected_size_output() {
    let size1 = 3000;
    let size2 = 4000;
    let fw = FakeWriter::new(vec![size1, size2]);
    let mut output = vec![0; 10000];

    let sut = ElfWriter {
        segments: 0..2,
        writer: &fw,
        output: &mut output,
    };
    sut.write().unwrap();

    assert!(fw.output_sizes.borrow().contains(&size1));
    assert!(fw.output_sizes.borrow().contains(&size2));
}

#[test]
fn elf_writer_split_single_segment_is_noop() {
    let fw = FakeWriter::new(vec![3000]);
    let mut output = vec![0; 10000];

    let sut = ElfWriter {
        segments: 0..1,
        writer: &fw,
        output: &mut output,
    };
    let (l, r) = sut.split();

    assert!(r.is_none());
    assert_eq!(l.segments, 0..1);
    assert_eq!(l.output.len(), 10000);
}

#[test]
fn elf_writer_split_queries_segment_sizes() {
    let fw = FakeWriter::new(vec![3000, 4000, 1000, 500]);
    let mut output = vec![0; 10000];

    let sut = ElfWriter {
        segments: 0..4,
        writer: &fw,
        output: &mut output,
    };
    let _ = sut.split();

    assert!(fw.segments_sized.borrow().contains(&0));
    assert!(fw.segments_sized.borrow().contains(&1));
}

#[test]
fn elf_writer_split_splits_segments() {
    let fw = FakeWriter::new(vec![3000, 4000, 1000, 500]);
    let mut output = vec![0; 10000];

    let sut = ElfWriter {
        segments: 0..4,
        writer: &fw,
        output: &mut output,
    };
    let (l, r) = sut.split();
    let r = r.expect("r is unexpectly None");

    assert_eq!(l.segments, 0..2);
    assert_eq!(r.segments, 2..4);
}

#[test]
fn elf_writer_split_splits_output() {
    let fw = FakeWriter::new(vec![3000, 4000, 1000, 500]);
    let mut output = vec![0; 10000];

    let sut = ElfWriter {
        segments: 0..4,
        writer: &fw,
        output: &mut output,
    };
    let (l, r) = sut.split();
    let r = r.expect("r is unexpectly None");

    // The first two segments hold 7000 bytes, so the slices divide there;
    // marking each half through its own writer must mark the whole buffer
    // once, with the halves meeting exactly at the boundary.
    assert_eq!(l.output.len(), 7000);
    assert_eq!(l.output.len() + r.output.len(), 10000);
    for b in l.output.iter_mut() {
        *b = 1;
    }
    for b in r.output.iter_mut() {
        *b = 2;
    }
    for (i, b) in output.iter().enumerate() {
        assert_eq!(*b, if i < 7000 { 1 } else { 2 });
    }
}
