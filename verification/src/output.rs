//! Writing the output file, in independently writable parts.

use vstd::prelude::*;
use core::ops::Range;
use crate::codec::{
    lemma_ehdr_bytes_len, lemma_ehdr_fields, lemma_parse_header_block, lemma_phdr_table_len,
    spec_header_block, spec_parse, spec_read_u16, spec_read_word, SpecElf,
};
use crate::error::Error;
use crate::layout::Layout;
use crate::phdr::ET_EXEC;

verus! {

/// A source of output segments: something that knows how many writable
/// parts the output has, how large each is, and how to materialize one into
/// the front of a byte slice.
pub trait SegmentWriter {
    /// The number of writable parts of the output.  The defaults describe a
    /// source with no parts at all: an implementation that keeps them makes
    /// no promises, and the verified writers rely on it for nothing.
    open spec fn sw_count(&self) -> int {
        0
    }

    /// The size in bytes of part `i`.
    open spec fn sw_size(&self, i: int) -> int {
        0
    }

    /// What writing part `i` relies on.
    open spec fn sw_pre(&self, i: int) -> bool {
        false
    }

    /// The bytes that writing part `i` leaves in a destination whose
    /// previous contents were `prev`: the part's bytes at the front, with
    /// anything past the part's determined span unchanged.
    open spec fn sw_bytes(&self, i: int, prev: Seq<u8>) -> Seq<u8> {
        prev
    }

    /// The size in bytes of part `segment`.
    fn segment_size(&self, segment: usize) -> (r: usize)
        requires
            segment < self.sw_count(),
            self.sw_pre(segment as int),
        ensures
            r == self.sw_size(segment as int),
    ;

    /// Write part `segment` into the front of `output`.
    fn write_segment(&self, segment: usize, output: &mut [u8]) -> (r: Result<(), Error>)
        requires
            segment < self.sw_count(),
            self.sw_pre(segment as int),
            self.sw_size(segment as int) <= old(output).len(),
        ensures
            r is Ok,
            final(output)@ == self.sw_bytes(segment as int, old(output)@),
    ;
}

/// The combined size of parts `lo` (inclusive) to `hi` (exclusive).
pub open spec fn spec_sum_sizes<S: SegmentWriter>(w: &S, lo: int, hi: int) -> int
    decreases hi - lo,
{
    if lo >= hi {
        0
    } else {
        w.sw_size(lo) + spec_sum_sizes(w, lo + 1, hi)
    }
}

/// The bytes that writing parts `lo` to `hi` consecutively leave in a
/// destination whose previous contents were `s`.
pub open spec fn spec_write_all<S: SegmentWriter>(w: &S, lo: int, hi: int, s: Seq<u8>) -> Seq<u8>
    decreases hi - lo,
{
    if lo >= hi {
        s
    } else {
        w.sw_bytes(lo, s.take(w.sw_size(lo))) + spec_write_all(
            w,
            lo + 1,
            hi,
            s.skip(w.sw_size(lo)),
        )
    }
}

/// Parts `lo` to `hi` behave like parts of a file: each part's size fits
/// the machine, and writing a part neither grows nor shrinks the
/// destination nor touches anything past the part's size.
pub open spec fn sw_regular<S: SegmentWriter>(w: &S, lo: int, hi: int) -> bool {
    &&& forall|i: int| lo <= i < hi ==> 0 <= #[trigger] w.sw_size(i) <= usize::MAX
    &&& forall|i: int, prev: Seq<u8>|
        lo <= i < hi && w.sw_size(i) <= prev.len() ==> (#[trigger] w.sw_bytes(i, prev)).len()
            == prev.len() && (forall|x: int|
            w.sw_size(i) <= x < prev.len() ==> #[trigger] w.sw_bytes(i, prev)[x] == prev[x])
}

/// A range of parts splits the sum of sizes at any midpoint.
pub proof fn lemma_sum_split<S: SegmentWriter>(w: &S, lo: int, mid: int, hi: int)
    requires
        lo <= mid <= hi,
    ensures
        spec_sum_sizes(w, lo, hi) == spec_sum_sizes(w, lo, mid) + spec_sum_sizes(w, mid, hi),
    decreases mid - lo,
{
    if lo < mid {
        lemma_sum_split(w, lo + 1, mid, hi);
    }
}

/// Every part's size is at most the sum, and the sum is nonnegative, when
/// each part in the range can be written.
pub proof fn lemma_sum_bounds<S: SegmentWriter>(w: &S, lo: int, hi: int)
    requires
        lo <= hi,
        sw_regular(w, lo, hi),
    ensures
        spec_sum_sizes(w, lo, hi) >= 0,
        forall|i: int|
            lo <= i < hi ==> 0 <= #[trigger] w.sw_size(i) && w.sw_size(i) <= spec_sum_sizes(
                w,
                lo,
                hi,
            ),
    decreases hi - lo,
{
    if lo < hi {
        lemma_sum_bounds(w, lo + 1, hi);
        assert forall|i: int| lo <= i < hi implies 0 <= #[trigger] w.sw_size(i) && w.sw_size(i)
            <= spec_sum_sizes(w, lo, hi) by {
            if i > lo {
                assert(w.sw_size(i) <= spec_sum_sizes(w, lo + 1, hi));
            }
        }
    }
}

/// A writer for a contiguous range of the output's parts: the parts'
/// indices, the byte slice they occupy, and the layout-like source that
/// materializes them.
pub struct ElfWriter<'a, 'b, S> {
    /// The half-open range of part indices this writer covers.
    pub segments: Range<usize>,
    /// The source of the parts' sizes and bytes.
    pub writer: &'a S,
    /// The bytes of the output that the covered parts occupy.
    pub output: &'b mut [u8],
}

impl<'a, 'b, S: SegmentWriter> ElfWriter<'a, 'b, S> {
    /// The writer covers parts that its source has, each part can be
    /// written, and the slice has room for all of them.
    pub open spec fn wf(self) -> bool {
        &&& self.segments.start <= self.segments.end <= self.writer.sw_count()
        &&& forall|i: int|
            self.segments.start <= i < self.segments.end ==> #[trigger] self.writer.sw_pre(i)
        &&& sw_regular(self.writer, self.segments.start as int, self.segments.end as int)
        &&& spec_sum_sizes(self.writer, self.segments.start as int, self.segments.end as int)
            <= self.output.len()
    }

    /// Write parts `lo` to `hi` consecutively into the front of `out`.
    fn write_range(w: &S, lo: usize, hi: usize, out: &mut [u8]) -> (r: Result<(), Error>)
        requires
            lo <= hi <= w.sw_count(),
            forall|i: int| lo <= i < hi ==> #[trigger] w.sw_pre(i),
            sw_regular(w, lo as int, hi as int),
            spec_sum_sizes(w, lo as int, hi as int) <= old(out).len(),
        ensures
            r is Ok,
            final(out)@ == spec_write_all(w, lo as int, hi as int, old(out)@),
        decreases hi - lo,
    {
        if lo == hi {
            return Ok(());
        }
        proof {
            lemma_sum_bounds(w, lo as int, hi as int);
            lemma_sum_split(w, lo as int, lo as int + 1, hi as int);
        }
        let size = w.segment_size(lo);
        let (cur, rest) = out.split_at_mut(size);
        let r1 = w.write_segment(lo, cur);
        let r2 = Self::write_range(w, lo + 1, hi, rest);
        proof {
            assert(w.sw_bytes(lo as int, old(out)@.take(size as int)).len() == size);
        }
        assert(final(out)@ == w.sw_bytes(lo as int, old(out)@.take(size as int))
            + spec_write_all(w, lo as int + 1, hi as int, old(out)@.skip(size as int)));
        match (r1, r2) {
            (Ok(_), Ok(_)) => Ok(()),
            (Err(e), _) => Err(e),
            (_, Err(e)) => Err(e),
        }
    }

    /// Write the parts this writer covers into its slice, in ascending
    /// index order.
    pub fn write(self) -> (r: Result<(), Error>)
        requires
            self.wf(),
        ensures
            r is Ok,
            final(self.output)@ == spec_write_all(
                self.writer,
                self.segments.start as int,
                self.segments.end as int,
                old(self.output)@,
            ),
    {
        Self::write_range(self.writer, self.segments.start, self.segments.end, self.output)
    }

    /// Potentially split this writer into two independent writers for
    /// separate parts of the output.
    ///
    /// A writer covering one part or none is handed back unsplit.
    /// Otherwise the parts are divided at their midpoint, and the slice is
    /// divided exactly where the lower parts end.
    #[verifier::loop_isolation(false)]
    pub fn split(self) -> (r: (Self, Option<Self>))
        requires
            self.wf(),
        ensures
            r.0.wf(),
            r.0.writer == self.writer,
            r.1 is None ==> {
                &&& r.0.segments == self.segments
                &&& r.0.output@ == old(self.output)@
                &&& final(self.output)@ == final(r.0.output)@
                &&& self.segments.end - self.segments.start <= 1
            },
            r.1 matches Some(rr) ==> {
                let mid = self.segments.start + (self.segments.end - self.segments.start) / 2;
                let mid_bytes = spec_sum_sizes(self.writer, self.segments.start as int, mid);
                &&& self.segments.end - self.segments.start > 1
                &&& rr.wf()
                &&& rr.writer == self.writer
                &&& r.0.segments.start == self.segments.start && r.0.segments.end == mid
                &&& rr.segments.start == mid && rr.segments.end == self.segments.end
                &&& r.0.output@ == old(self.output)@.take(mid_bytes)
                &&& rr.output@ == old(self.output)@.skip(mid_bytes)
                &&& final(self.output)@ == final(r.0.output)@ + final(rr.output)@
            },
    {
        let lo = self.segments.start;
        let hi = self.segments.end;
        if hi - lo <= 1 {
            (self, None)
        } else {
            let mid = lo + (hi - lo) / 2;
            proof {
                lemma_sum_bounds(self.writer, lo as int, hi as int);
                lemma_sum_split(self.writer, lo as int, mid as int, hi as int);
                lemma_sum_bounds(self.writer, lo as int, mid as int);
                lemma_sum_bounds(self.writer, mid as int, hi as int);
            }
            let mut mid_output: usize = 0;
            let mut segment = lo;
            while segment < mid
                invariant
                    lo <= segment <= mid,
                    mid_output == spec_sum_sizes(self.writer, lo as int, segment as int),
                    mid_output <= spec_sum_sizes(self.writer, lo as int, mid as int),
                decreases mid - segment,
            {
                proof {
                    lemma_sum_split(self.writer, lo as int, segment as int, mid as int);
                    lemma_sum_split(self.writer, segment as int, segment as int + 1, mid as int);
                    lemma_sum_bounds(self.writer, segment as int + 1, mid as int);
                    lemma_sum_bounds(self.writer, segment as int, mid as int);
                    lemma_sum_split(self.writer, lo as int, segment as int + 1, mid as int);
                }
                mid_output = mid_output + self.writer.segment_size(segment);
                segment += 1;
            }
            let writer = self.writer;
            let (lout, rout) = self.output.split_at_mut(mid_output);
            (
                ElfWriter { segments: lo..mid, writer, output: lout },
                Some(ElfWriter { segments: mid..hi, writer, output: rout }),
            )
        }
    }
}


/// The parts of a well-formed layout exactly cover its required size: the
/// sizes of parts `k` onward sum to what lies past part `k`'s start.
proof fn lemma_layout_sum_suffix(l: &Layout, k: int)
    requires
        l.wf(),
        0 <= k <= l.spec_out_segments(),
    ensures
        spec_sum_sizes(l, k, l.spec_out_segments()) == l.spec_required_size() - (if k == 0 {
            0int
        } else if k == l.spec_out_segments() {
            l.spec_required_size()
        } else {
            l.out_phdr@[k + 1].p_offset as int
        }),
    decreases l.spec_out_segments() - k,
{
    let count = l.spec_out_segments();
    if k < count {
        lemma_layout_sum_suffix(l, k + 1);
    }
}

/// A layout fit for writing is a regular source of parts.
pub proof fn lemma_layout_regular(l: &Layout)
    requires
        l.spec_wf(),
    ensures
        sw_regular(l, 0, l.spec_out_segments()),
{
    assert forall|i: int| 0 <= i < l.spec_out_segments() implies 0 <= #[trigger] l.sw_size(i)
        <= usize::MAX by {
        l.lemma_sizes_bounded(i);
    }
    assert forall|i: int, prev: Seq<u8>|
        0 <= i < l.spec_out_segments() && l.sw_size(i) <= prev.len() implies (
    #[trigger] l.sw_bytes(i, prev)).len() == prev.len() && (forall|x: int|
        l.sw_size(i) <= x < prev.len() ==> #[trigger] l.sw_bytes(i, prev)[x] == prev[x]) by {
        l.lemma_seg_bytes_props(i, prev);
    }
}

/// The sizes of all the parts of a well-formed layout sum to its required
/// size.
pub proof fn lemma_layout_sum(l: &Layout)
    requires
        l.wf(),
    ensures
        spec_sum_sizes(l, 0, l.spec_out_segments()) == l.spec_required_size(),
{
    lemma_layout_sum_suffix(l, 0);
}

impl<'a> SegmentWriter for Layout<'a> {
    open spec fn sw_count(&self) -> int {
        self.spec_out_segments()
    }

    open spec fn sw_size(&self, i: int) -> int {
        self.spec_segment_size(i)
    }

    open spec fn sw_pre(&self, i: int) -> bool {
        self.spec_wf() && 0 <= i < self.spec_out_segments()
    }

    open spec fn sw_bytes(&self, i: int, prev: Seq<u8>) -> Seq<u8> {
        self.spec_segment_bytes(i, prev)
    }

    fn segment_size(&self, segment: usize) -> (r: usize) {
        Layout::segment_size(self, segment)
    }

    fn write_segment(&self, segment: usize, output: &mut [u8]) -> (r: Result<(), Error>) {
        proof {
            self.lemma_sizes_bounded(segment as int);
            self.lemma_wf_write_pre(segment as int, output@.len() as int);
        }
        Layout::write_segment(self, segment, output)
    }
}

/// Writing parts into a destination neither grows nor shrinks it.
pub proof fn lemma_write_all_len<S: SegmentWriter>(w: &S, lo: int, hi: int, s: Seq<u8>)
    requires
        lo <= hi,
        sw_regular(w, lo, hi),
        spec_sum_sizes(w, lo, hi) <= s.len(),
    ensures
        spec_write_all(w, lo, hi, s).len() == s.len(),
    decreases hi - lo,
{
    if lo < hi {
        lemma_sum_bounds(w, lo, hi);
        lemma_sum_split(w, lo, lo + 1, hi);
        assert(w.sw_bytes(lo, s.take(w.sw_size(lo))).len() == w.sw_size(lo));
        lemma_write_all_len(w, lo + 1, hi, s.skip(w.sw_size(lo)));
    }
}

/// A fully written output begins with the serialized header block.
#[verifier::rlimit(100)]
#[verifier::spinoff_prover]
proof fn lemma_output_prefix(l: &Layout, prev: Seq<u8>)
    requires
        l.spec_wf(),
        prev.len() == l.spec_required_size(),
    ensures
        ({
            let bytes = spec_write_all(l, 0, l.spec_out_segments(), prev);
            let hb = spec_header_block(l.arch, l.entry, l.out_phdr@);
            &&& bytes.len() == prev.len()
            &&& hb.len() == l.arch.spec_ehdr_size() + l.out_phdr@.len()
                * l.arch.spec_phdr_size()
            &&& hb.len() <= bytes.len()
            &&& bytes.subrange(0, hb.len() as int) == hb
        }),
{
    let count = l.spec_out_segments();
    let bytes = spec_write_all(l, 0, count, prev);
    let hb = spec_header_block(l.arch, l.entry, l.out_phdr@);
    lemma_ehdr_bytes_len(l.arch, l.entry, l.out_phdr@.len() as u16);
    lemma_phdr_table_len(l.out_phdr@, l.arch);
    lemma_layout_sum(l);
    lemma_layout_regular(l);
    lemma_write_all_len(l, 0, count, prev);
    l.lemma_sizes_bounded(0);
    let size0 = l.spec_segment_size(0);
    let first = l.sw_bytes(0, prev.take(size0));
    l.lemma_seg_bytes_props(0, prev.take(size0));
    assert(hb.len() <= size0) by {
    }
    assert(first == hb + prev.take(size0).skip(hb.len() as int)) by {
    }
    assert(first.len() == size0) by {
    }
    assert(bytes == first + spec_write_all(l, 1, count, prev.skip(size0))) by {
    }
    assert(bytes.subrange(0, hb.len() as int) =~= hb) by {
        assert forall|i: int| 0 <= i < hb.len() implies bytes[i] == hb[i] by {
            assert(bytes[i] == first[i]);
            assert(first[i] == hb[i]);
        }
    }
}

/// Law: the produced bytes parse as a valid ELF file.  A buffer of exactly
/// the required size, once every part of the output is written into it,
/// parses back to the layout's own architecture, entry point, executable
/// file type, and output program-header table, whatever the buffer held
/// before.
pub proof fn lemma_output_parses(l: &Layout, prev: Seq<u8>)
    requires
        l.spec_wf(),
        prev.len() == l.spec_required_size(),
    ensures
        spec_parse(spec_write_all(l, 0, l.spec_out_segments(), prev)) == Some(
            SpecElf {
                is_64: l.arch.is_64,
                is_little_endian: l.arch.is_little_endian,
                e_type: ET_EXEC,
                machine: l.arch.machine,
                entry: l.entry,
                phdrs: l.out_phdr@,
            },
        ),
{
    let bytes = spec_write_all(l, 0, l.spec_out_segments(), prev);
    lemma_output_prefix(l, prev);
    lemma_parse_header_block(l.arch, l.entry, l.out_phdr@, bytes);
}

/// Law: the output has no section headers.  In a fully written output, the
/// ELF header's section-table offset, entry size, and entry count all read
/// back as zero.
pub proof fn lemma_output_no_sections(l: &Layout, prev: Seq<u8>)
    requires
        l.spec_wf(),
        prev.len() == l.spec_required_size(),
    ensures
        ({
            let bytes = spec_write_all(l, 0, l.spec_out_segments(), prev);
            let le = l.arch.is_little_endian;
            let w: int = if l.arch.is_64 {
                8
            } else {
                4
            };
            let shoff_at: int = if l.arch.is_64 {
                40
            } else {
                32
            };
            &&& spec_read_word(bytes, shoff_at, l.arch.is_64, le) == 0
            &&& spec_read_u16(bytes.subrange(34 + 3 * w, 36 + 3 * w), le) == 0
            &&& spec_read_u16(bytes.subrange(36 + 3 * w, 38 + 3 * w), le) == 0
        }),
{
    let bytes = spec_write_all(l, 0, l.spec_out_segments(), prev);
    lemma_output_prefix(l, prev);
    let hb = spec_header_block(l.arch, l.entry, l.out_phdr@);
    lemma_ehdr_bytes_len(l.arch, l.entry, l.out_phdr@.len() as u16);
    assert(bytes.subrange(0, l.arch.spec_ehdr_size()) =~= spec_header_block(
        l.arch,
        l.entry,
        l.out_phdr@,
    ).subrange(0, l.arch.spec_ehdr_size()));
    assert(bytes.subrange(0, l.arch.spec_ehdr_size()) =~= crate::codec::spec_ehdr_bytes(
        l.arch,
        l.entry,
        l.out_phdr@.len() as u16,
    ));
    lemma_ehdr_fields(l.arch, l.entry, l.out_phdr@.len() as u16, bytes);
}

/// A potentially parallelizable writer for the output file.  Created by the
/// [`output`][Layout::output] method.
pub struct OutputWriter<'a, 'b>(pub ElfWriter<'a, 'b, Layout<'a>>);

impl<'a, 'b> OutputWriter<'a, 'b> {
    /// A writer over the whole output of `layout`, into `output`.
    pub(crate) fn new(layout: &'a Layout<'a>, output: &'b mut [u8]) -> (r: OutputWriter<'a, 'b>)
        requires
            layout.spec_wf(),
            old(output).len() == layout.spec_required_size(),
        ensures
            r.0.wf(),
            r.0.writer == layout,
            r.0.segments.start == 0 && r.0.segments.end == layout.spec_out_segments(),
            r.0.output@ == old(output)@,
            final(output)@ == final(r.0.output)@,
    {
        proof {
            lemma_layout_sum(layout);
            lemma_layout_regular(layout);
        }
        OutputWriter(
            ElfWriter { segments: 0..layout.out_segments(), writer: layout, output },
        )
    }

    /// Potentially split this `OutputWriter` into two independent
    /// `OutputWriter`s for separate parts of the output.
    ///
    /// The shape of this function is intended to suit a split-based
    /// data-parallel scheduler: it hands back at most two disjoint
    /// sub-problems.
    #[verifier::loop_isolation(false)]
    pub fn split(self) -> (r: (Self, Option<Self>))
        requires
            self.0.wf(),
        ensures
            r.0.0.wf(),
            r.0.0.writer == self.0.writer,
            r.1 is None ==> {
                &&& r.0.0.segments == self.0.segments
                &&& r.0.0.output@ == old(self.0.output)@
                &&& final(self.0.output)@ == final(r.0.0.output)@
                &&& self.0.segments.end - self.0.segments.start <= 1
            },
            r.1 matches Some(rr) ==> {
                let mid = self.0.segments.start + (self.0.segments.end - self.0.segments.start)
                    / 2;
                let mid_bytes = spec_sum_sizes(self.0.writer, self.0.segments.start as int, mid);
                &&& self.0.segments.end - self.0.segments.start > 1
                &&& rr.0.wf()
                &&& rr.0.writer == self.0.writer
                &&& r.0.0.segments.start == self.0.segments.start && r.0.0.segments.end == mid
                &&& rr.0.segments.start == mid && rr.0.segments.end == self.0.segments.end
                &&& r.0.0.output@ == old(self.0.output)@.take(mid_bytes)
                &&& rr.0.output@ == old(self.0.output)@.skip(mid_bytes)
                &&& final(self.0.output)@ == final(r.0.0.output)@ + final(rr.0.output)@
            },
    {
        let OutputWriter(inner) = self;
        let (l, rest) = inner.split();
        match rest {
            Some(rr) => (OutputWriter(l), Some(OutputWriter(rr))),
            None => (OutputWriter(l), None),
        }
    }

    /// Write the portion of the output represented by this `OutputWriter`
    /// to the corresponding part of the output bytes passed to the
    /// [`output`][Layout::output] method.
    pub fn write(self) -> (r: Result<(), Error>)
        requires
            self.0.wf(),
        ensures
            r is Ok,
            final(self.0.output)@ == spec_write_all(
                self.0.writer,
                self.0.segments.start as int,
                self.0.segments.end as int,
                old(self.0.output)@,
            ),
    {
        let OutputWriter(inner) = self;
        inner.write()
    }
}

} // verus!
