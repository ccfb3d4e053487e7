//! The layout of the output file.

use vstd::prelude::*;
use crate::arch::Arch;
use crate::codec::{build_header_block, spec_header_block};
use crate::error::Error;
use crate::output::OutputWriter;
use crate::phdr::{ProgramHeader, PT_LOAD, PT_PHDR};
use strategy::{
    lemma_layout_wf, spec_layout_ok, spec_layout_pre, spec_out_phdrs,
};

pub mod strategy;

pub use strategy::LayoutStrategy;

verus! {

/// The layout of the output file.  Created by [`Input::layout`].
///
/// [`Input::layout`]: crate::Input::layout
#[derive(Debug)]
pub struct Layout<'a> {
    /// The loadable input program headers, in sorted order.
    pub in_phdr: Vec<ProgramHeader>,
    /// The computed output program headers: one `PT_PHDR`, the first
    /// loadable segment holding the headers, then one loadable segment per
    /// input header.
    pub out_phdr: Vec<ProgramHeader>,
    /// The architecture of the file.
    pub arch: Arch,
    /// The entry point of the file.
    pub entry: u64,
    /// The bytes of the input file.
    pub input: &'a [u8],
}

impl<'a> Layout<'a> {
    /// The shape on which writing the output relies: the output headers
    /// tile the file from offset zero, every loadable output segment is at
    /// least as large as its input segment's file bytes, the input file
    /// bytes lie inside the input, every written field fits one address
    /// field of the file's width, and the whole output fits the machine's
    /// address space.
    pub open spec fn wf(self) -> bool {
        let n = self.in_phdr@.len() as int;
        let outs = self.out_phdr@;
        &&& outs.len() == n + 2
        &&& n + 2 <= 0xffff
        &&& self.entry <= self.arch.spec_word_max()
        &&& outs[0].p_type == PT_PHDR
        &&& outs[1].p_offset == 0
        &&& forall|i: int| 1 <= i < n + 2 ==> (#[trigger] outs[i]).p_type == PT_LOAD
        &&& forall|i: int| 1 <= i < n + 2 ==> (#[trigger] outs[i]).p_filesz == outs[i].p_memsz
        &&& forall|i: int|
            1 <= i < n + 1 ==> (#[trigger] outs[i]).p_offset + outs[i].p_filesz == outs[i
                + 1].p_offset
        &&& outs[1].p_filesz >= self.arch.spec_ehdr_size() + (n + 2) * self.arch.spec_phdr_size()
        &&& forall|i: int|
            2 <= i < n + 2 ==> (#[trigger] outs[i]).p_filesz >= self.in_phdr@[i - 2].p_memsz
        &&& outs[n + 1].p_offset + outs[n + 1].p_filesz <= usize::MAX
        &&& forall|i: int| 0 <= i < n + 2 ==> !self.arch.is_64 ==> (#[trigger] outs[i]).fits_32()
    }

    /// The sum of the loadable output segments' file sizes: since they tile
    /// the file exactly, the end of the last one.
    pub open spec fn spec_required_size(self) -> int {
        let outs = self.out_phdr@;
        outs[outs.len() - 1].p_offset + outs[outs.len() - 1].p_filesz
    }

    /// The headers read and written by the writing stage lie inside their
    /// files: the well-formed shape together with the input headers' bounds.
    pub open spec fn spec_wf(self) -> bool {
        let n = self.in_phdr@.len() as int;
        &&& self.wf()
        &&& forall|i: int|
            0 <= i < n ==> (#[trigger] self.in_phdr@[i]).p_filesz <= self.in_phdr@[i].p_memsz
        &&& forall|i: int|
            0 <= i < n ==> (#[trigger] self.in_phdr@[i]).p_offset + self.in_phdr@[i].p_filesz
                <= self.input@.len()
    }

    /// Compute the layout of the output for the given input headers, bytes,
    /// entry point, and strategy.
    pub fn new(
        arch: Arch,
        phdr: &Vec<ProgramHeader>,
        input: &'a [u8],
        entry: u64,
        start: LayoutStrategy,
    ) -> (r: Result<Self, Error>)
        requires
            spec_layout_pre(phdr@, arch),
            entry <= arch.spec_word_max(),
        ensures
            r is Ok <==> spec_layout_ok(start, phdr@, arch),
            r matches Ok(l) ==> {
                &&& l.in_phdr@ == phdr@
                &&& l.out_phdr@ == spec_out_phdrs(start, phdr@, arch)
                &&& l.arch == arch
                &&& l.entry == entry
                &&& l.input@ == input@
                &&& l.wf()
            },
            r matches Err(e) ==> e matches Error::InvalidElf { message } && message@
                == "Elf file segments do not fit a valid output layout."@,
    {
        let out_phdr = match start.layout(phdr, &arch) {
            Ok(v) => v,
            Err(e) => {
                return Err(e);
            },
        };
        proof {
            lemma_layout_wf(start, phdr@, arch);
        }
        Ok(Layout { in_phdr: phdr.clone(), out_phdr, arch, entry, input })
    }

    /// The number of independently writable slices of the output: the
    /// header-carrying first segment, then one per input header.
    pub open spec fn spec_out_segments(self) -> int {
        self.out_phdr@.len() - 1
    }

    /// The number of independently writable slices of the output.
    pub fn out_segments(&self) -> (r: usize)
        requires
            self.wf(),
        ensures
            r == self.spec_out_segments(),
    {
        self.out_phdr.len() - 1
    }

    /// The output header that describes writable slice `segment`: the first
    /// loadable header for slice zero, and the loadable header of input
    /// segment `segment - 1` otherwise.
    pub open spec fn spec_out_index(segment: int) -> int {
        if segment == 0 {
            1
        } else {
            segment + 1
        }
    }

    /// The size in bytes of writable slice `segment` of the output.
    pub open spec fn spec_segment_size(self, segment: int) -> int {
        self.out_phdr@[Self::spec_out_index(segment)].p_filesz as int
    }

    /// The size in bytes of writable slice `segment` of the output.
    pub fn segment_size(&self, segment: usize) -> (r: usize)
        requires
            self.wf(),
            segment < self.spec_out_segments(),
        ensures
            r == self.spec_segment_size(segment as int),
    {
        let real_segment = if segment == 0 {
            1
        } else {
            segment + 1
        };
        proof {
            self.lemma_sizes_bounded(segment as int);
        }
        self.out_phdr[real_segment].p_filesz as usize
    }

    /// Every slice's size fits the machine's address space: each loadable
    /// segment lies inside the output, whose total size does.
    pub proof fn lemma_sizes_bounded(self, segment: int)
        requires
            self.wf(),
            0 <= segment < self.spec_out_segments(),
        ensures
            0 <= self.spec_segment_size(segment) <= usize::MAX,
            self.out_phdr@[Self::spec_out_index(segment)].p_offset + self.spec_segment_size(
                segment,
            ) <= self.spec_required_size(),
            self.spec_required_size() <= usize::MAX,
    {
        let outs = self.out_phdr@;
        let n = self.in_phdr@.len() as int;
        let i = Self::spec_out_index(segment);
        assert forall|j: int| 1 <= j < n + 2 implies (#[trigger] outs[j]).p_offset
            + outs[j].p_filesz <= outs[n + 1].p_offset + outs[n + 1].p_filesz by {
            self.lemma_ends_monotone(j, n + 1);
        }
    }

    /// The end of an earlier loadable segment is no later than the end of a
    /// later one.
    proof fn lemma_ends_monotone(self, i: int, j: int)
        requires
            self.wf(),
            1 <= i <= j < self.out_phdr@.len(),
        ensures
            self.out_phdr@[i].p_offset + self.out_phdr@[i].p_filesz <= self.out_phdr@[j].p_offset
                + self.out_phdr@[j].p_filesz,
        decreases j - i,
    {
        if i < j {
            self.lemma_ends_monotone(i + 1, j);
        }
    }

    /// The required size of the output represented by this layout.
    pub fn required_size(&self) -> (r: usize)
        requires
            self.wf(),
        ensures
            r == self.spec_required_size(),
    {
        let last = self.out_phdr.len() - 1;
        (self.out_phdr[last].p_offset + self.out_phdr[last].p_filesz) as usize
    }

    /// What writing slice `segment` requires of the layout and of the
    /// destination: the headers involved exist, the input bytes to copy lie
    /// inside the input, and the destination has room for the slice.
    pub open spec fn spec_write_pre(self, segment: int, out_len: int) -> bool {
        let n = self.in_phdr@.len() as int;
        &&& self.out_phdr@.len() == n + 2
        &&& 0 <= segment < n + 1
        &&& if segment == 0 {
            &&& n + 2 <= 0xffff
            &&& self.entry <= self.arch.spec_word_max()
            &&& (forall|i: int|
                0 <= i < n + 2 ==> !self.arch.is_64 ==> (#[trigger] self.out_phdr@[i]).fits_32())
            &&& self.arch.spec_ehdr_size() + (n + 2) * self.arch.spec_phdr_size() <= out_len
        } else {
            let ih = self.in_phdr@[segment - 1];
            let oh = self.out_phdr@[segment + 1];
            &&& ih.p_filesz <= oh.p_filesz
            &&& ih.p_offset + ih.p_filesz <= self.input@.len()
            &&& oh.p_filesz <= out_len
            &&& out_len <= usize::MAX
        }
    }

    /// The bytes that writing slice `segment` leaves in a destination whose
    /// previous contents were `prev`: slice zero holds the header block and
    /// keeps what follows it; a later slice holds its input segment's file
    /// bytes, then zeros up to the output segment's size, and keeps the
    /// rest.
    pub open spec fn spec_segment_bytes(self, segment: int, prev: Seq<u8>) -> Seq<u8> {
        if segment == 0 {
            let b = spec_header_block(self.arch, self.entry, self.out_phdr@);
            b + prev.skip(b.len() as int)
        } else {
            let ih = self.in_phdr@[segment - 1];
            let oh = self.out_phdr@[segment + 1];
            self.input@.subrange(ih.p_offset as int, ih.p_offset + ih.p_filesz) + Seq::new(
                (oh.p_filesz - ih.p_filesz) as nat,
                |i: int| 0u8,
            ) + prev.skip(oh.p_filesz as int)
        }
    }

    /// Write slice `segment` of the output into the front of `output`,
    /// leaving bytes past the slice's determined part unchanged.
    #[verifier::loop_isolation(false)]
    pub fn write_segment(&self, segment: usize, output: &mut [u8]) -> (r: Result<(), Error>)
        requires
            self.spec_write_pre(segment as int, old(output)@.len() as int),
        ensures
            r is Ok,
            final(output)@ == self.spec_segment_bytes(segment as int, old(output)@),
    {
        let n_out = self.out_phdr.len();
        let input_len = self.input.len();
        if segment == 0 {
            let block = build_header_block(&self.arch, self.entry, &self.out_phdr);
            proof {
                crate::codec::lemma_ehdr_bytes_len(
                    self.arch,
                    self.entry,
                    self.out_phdr@.len() as u16,
                );
                crate::codec::lemma_phdr_table_len(self.out_phdr@, self.arch);
            }
            let mut j: usize = 0;
            while j < block.len()
                invariant
                    j <= block@.len(),
                    output@.len() == old(output)@.len(),
                    forall|x: int| 0 <= x < j ==> output@[x] == block@[x],
                    forall|x: int| j <= x < output@.len() ==> output@[x] == old(output)@[x],
                decreases block@.len() - j,
            {
                output[j] = block[j];
                j += 1;
            }
            assert(output@ =~= block@ + old(output)@.skip(block@.len() as int));
        } else {
            let ih = self.in_phdr[segment - 1];
            let oh = self.out_phdr[segment + 1];
            let in_start = ih.p_offset as usize;
            let in_len = ih.p_filesz as usize;
            let out_len = oh.p_filesz as usize;
            let mut j: usize = 0;
            while j < in_len
                invariant
                    j <= in_len,
                    output@.len() == old(output)@.len(),
                    forall|x: int| 0 <= x < j ==> output@[x] == self.input@[in_start + x],
                    forall|x: int| j <= x < output@.len() ==> output@[x] == old(output)@[x],
                decreases in_len - j,
            {
                output[j] = self.input[in_start + j];
                j += 1;
            }
            while j < out_len
                invariant
                    in_len <= j <= out_len,
                    output@.len() == old(output)@.len(),
                    forall|x: int| 0 <= x < in_len ==> output@[x] == self.input@[in_start + x],
                    forall|x: int| in_len <= x < j ==> output@[x] == 0u8,
                    forall|x: int| j <= x < output@.len() ==> output@[x] == old(output)@[x],
                decreases out_len - j,
            {
                output[j] = 0;
                j += 1;
            }
            assert(output@ =~= self.input@.subrange(
                ih.p_offset as int,
                ih.p_offset + ih.p_filesz,
            ) + Seq::new((oh.p_filesz - ih.p_filesz) as nat, |i: int| 0u8) + old(output)@.skip(
                oh.p_filesz as int,
            ));
        }
        Ok(())
    }

    /// Prepare to write to the given output bytes, which must be at least
    /// [`required_size`][Layout::required_size] in length.  The writer
    /// covers exactly the first `required_size` bytes of `output`.
    pub fn output<'b>(&'a self, output: &'b mut [u8]) -> (r: Result<OutputWriter<'a, 'b>, Error>)
        requires
            self.spec_wf(),
        ensures
            old(output).len() < self.spec_required_size() <==> r is Err,
            r matches Err(e) ==> e is OutputTooSmall && final(output)@ == old(output)@,
            r matches Ok(w) ==> {
                &&& w.0.wf()
                &&& w.0.writer == self
                &&& w.0.segments.start == 0 && w.0.segments.end == self.spec_out_segments()
                &&& w.0.output@ == old(output)@.subrange(0, self.spec_required_size())
                &&& final(output)@ == final(w.0.output)@ + old(output)@.skip(
                    self.spec_required_size(),
                )
            },
    {
        let required = self.required_size();
        if output.len() < required {
            Err(Error::OutputTooSmall)
        } else {
            let (pre, rest) = output.split_at_mut(required);
            let w = OutputWriter::new(self, pre);
            proof {
                assert(final(rest)@ == old(output)@.skip(required as int));
            }
            Ok(w)
        }
    }

    /// Writing a slice neither grows nor shrinks its destination and leaves
    /// everything past the slice's determined size unchanged.
    pub proof fn lemma_seg_bytes_props(self, segment: int, prev: Seq<u8>)
        requires
            self.spec_wf(),
            0 <= segment < self.spec_out_segments(),
            self.spec_segment_size(segment) <= prev.len(),
        ensures
            self.spec_segment_bytes(segment, prev).len() == prev.len(),
            forall|x: int|
                self.spec_segment_size(segment) <= x < prev.len()
                    ==> #[trigger] self.spec_segment_bytes(segment, prev)[x] == prev[x],
    {
        self.lemma_sizes_bounded(segment);
        if segment == 0 {
            crate::codec::lemma_ehdr_bytes_len(self.arch, self.entry, self.out_phdr@.len() as u16);
            crate::codec::lemma_phdr_table_len(self.out_phdr@, self.arch);
        }
    }

    /// A layout fit for writing admits every slice's write into a
    /// destination with room for it.
    pub proof fn lemma_wf_write_pre(self, segment: int, out_len: int)
        requires
            self.spec_wf(),
            0 <= segment < self.spec_out_segments(),
            self.spec_segment_size(segment) <= out_len,
            out_len <= usize::MAX,
        ensures
            self.spec_write_pre(segment, out_len),
    {
    }
}

} // verus!
