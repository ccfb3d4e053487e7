//! The two strategies for laying out the output ELF file, and the walk that
//! turns the input program headers into the output program-header table.

use vstd::prelude::*;
use crate::arch::Arch;
use crate::error::Error;
use crate::phdr::{ProgramHeader, PF_R, PT_LOAD, PT_PHDR};
use crate::PAGE_SIZE;

verus! {

/// The strategy to use for laying out the output ELF file.
///
/// The strategy is mainly concerned with assigning the physical addresses
/// for the segments of the output file.
#[derive(Debug, Clone, Copy, PartialEq, Eq, Structural)]
pub enum LayoutStrategy {
    /// The physical addresses of the input segments are kept, and the
    /// starting physical address is derived so that the synthesized header
    /// segment ends exactly where the lowest input segment begins.
    FromInput,
    /// The starting physical address is the specified address, and each
    /// subsequent physical address exactly follows the end of the previous
    /// segment.
    SpecifiedStart(u64),
}

/// The distance from `input` up or down to `reference`, reduced modulo
/// `align`: how far `input` must advance so that `input` and `reference`
/// agree modulo `align`, whenever `input <= reference`.
pub open spec fn spec_align_adjustment(input: int, reference: int, align: int) -> int
    recommends
        align >= 1,
{
    (if input >= reference {
        input - reference
    } else {
        reference - input
    }) % align
}

/// `input` lowered by the adjustment toward `reference`.
pub open spec fn spec_align_down(input: int, reference: int, align: int) -> int
    recommends
        align >= 1,
{
    input - spec_align_adjustment(input, reference, align)
}

/// The distance from `input` up or down to `reference`, reduced modulo
/// `align`.
pub fn align_adjustment(input: u64, reference: u64, align: u64) -> (r: u64)
    requires
        align >= 1,
    ensures
        r == spec_align_adjustment(input as int, reference as int, align as int),
        r < align,
{
    (if input >= reference {
        input - reference
    } else {
        reference - input
    }) % align
}

/// `input` lowered by the adjustment toward `reference`.
pub fn align_down(input: u64, reference: u64, align: u64) -> (r: u64)
    requires
        align >= 1,
        spec_align_adjustment(input as int, reference as int, align as int) <= input,
    ensures
        r == spec_align_down(input as int, reference as int, align as int),
{
    input - align_adjustment(input, reference, align)
}

/// The size of the output program-header table, for `n_out` output headers.
pub open spec fn spec_phdr_block_size(arch: Arch, n_out: int) -> int {
    n_out * arch.spec_phdr_size()
}

/// The initial size of the first loadable segment of the output: the ELF
/// header followed by the program-header table.
pub open spec fn spec_first_load_size(arch: Arch, n_out: int) -> int {
    arch.spec_ehdr_size() + spec_phdr_block_size(arch, n_out)
}

/// The file-offset cursor of the layout walk after the first `k` input
/// headers are placed: the end of the data laid out so far.
pub open spec fn spec_cursor(inputs: Seq<ProgramHeader>, arch: Arch, k: int) -> int
    decreases k, 0int,
{
    if k <= 0 {
        spec_first_load_size(arch, inputs.len() as int + 2)
    } else {
        let h = inputs[k - 1];
        spec_seg_off(inputs, arch, k - 1) + h.p_memsz
    }
}

/// The file offset at which input header `k`'s segment is placed: the
/// cursor, advanced so that offset and virtual address agree modulo the
/// segment's alignment.
pub open spec fn spec_seg_off(inputs: Seq<ProgramHeader>, arch: Arch, k: int) -> int
    decreases k, 1int,
{
    let c = spec_cursor(inputs, arch, k);
    let h = inputs[k];
    c + spec_align_adjustment(c, h.p_vaddr as int, h.p_align as int)
}

/// The file offset at which output header `i` ends, for `1 <= i <= n + 1`:
/// each segment is extended to reach the next one, and the last ends at the
/// final cursor.
pub open spec fn spec_out_end(inputs: Seq<ProgramHeader>, arch: Arch, i: int) -> int {
    if i <= inputs.len() {
        spec_seg_off(inputs, arch, i - 1)
    } else {
        spec_cursor(inputs, arch, inputs.len() as int)
    }
}

/// The least virtual address among the input headers, or the largest
/// 64-bit value when there are none.
pub open spec fn spec_min_vaddr(inputs: Seq<ProgramHeader>) -> int
    decreases inputs.len(),
{
    if inputs.len() == 0 {
        u64::MAX as int
    } else {
        let m = spec_min_vaddr(inputs.drop_last());
        if inputs.last().p_vaddr < m {
            inputs.last().p_vaddr as int
        } else {
            m
        }
    }
}

/// The least physical address among the input headers, or the largest
/// 64-bit value when there are none.
pub open spec fn spec_min_paddr(inputs: Seq<ProgramHeader>) -> int
    decreases inputs.len(),
{
    if inputs.len() == 0 {
        u64::MAX as int
    } else {
        let m = spec_min_paddr(inputs.drop_last());
        if inputs.last().p_paddr < m {
            inputs.last().p_paddr as int
        } else {
            m
        }
    }
}

/// The size to which the first loadable output segment is extended.
pub open spec fn spec_ext_first(inputs: Seq<ProgramHeader>, arch: Arch) -> int {
    spec_out_end(inputs, arch, 1)
}

/// The amount by which the `FromInput` strategy raises the physical
/// addresses of the two synthesized headers, so that the first loadable
/// segment ends exactly where the lowest input segment begins.
pub open spec fn spec_paddr_adjust(inputs: Seq<ProgramHeader>, arch: Arch) -> int {
    spec_min_paddr(inputs) - spec_ext_first(inputs, arch)
}

/// The virtual address of the output `PT_PHDR` header: the least input
/// virtual address less the table size, aligned down to agree with the
/// header's file offset modulo the page size.
pub open spec fn spec_vaddr0(inputs: Seq<ProgramHeader>, arch: Arch) -> int {
    spec_align_down(
        spec_min_vaddr(inputs) - spec_phdr_block_size(arch, inputs.len() as int + 2),
        arch.spec_ehdr_size(),
        PAGE_SIZE as int,
    )
}

/// The virtual address of the first loadable output header: the least input
/// virtual address less the initial first-segment size, aligned down to
/// agree with file offset zero modulo the page size.
pub open spec fn spec_vaddr1(inputs: Seq<ProgramHeader>, arch: Arch) -> int {
    spec_align_down(
        spec_min_vaddr(inputs) - spec_first_load_size(arch, inputs.len() as int + 2),
        0,
        PAGE_SIZE as int,
    )
}

/// The physical address of output header `i`.
pub open spec fn spec_out_paddr(
    st: LayoutStrategy,
    inputs: Seq<ProgramHeader>,
    arch: Arch,
    i: int,
) -> int {
    match st {
        LayoutStrategy::SpecifiedStart(start) => if i == 0 {
            start + arch.spec_ehdr_size()
        } else if i == 1 {
            start as int
        } else {
            start + spec_seg_off(inputs, arch, i - 2)
        },
        LayoutStrategy::FromInput => if i == 0 {
            arch.spec_ehdr_size() + spec_paddr_adjust(inputs, arch)
        } else if i == 1 {
            spec_paddr_adjust(inputs, arch)
        } else {
            inputs[i - 2].p_paddr as int
        },
    }
}

/// Output header `i` of the layout, for `0 <= i < n + 2`.
pub open spec fn spec_out_phdr(
    st: LayoutStrategy,
    inputs: Seq<ProgramHeader>,
    arch: Arch,
    i: int,
) -> ProgramHeader {
    let n = inputs.len() as int;
    if i == 0 {
        ProgramHeader {
            p_type: PT_PHDR,
            p_flags: PF_R,
            p_offset: arch.spec_ehdr_size() as u64,
            p_vaddr: spec_vaddr0(inputs, arch) as u64,
            p_paddr: spec_out_paddr(st, inputs, arch, 0) as u64,
            p_filesz: spec_phdr_block_size(arch, n + 2) as u64,
            p_memsz: spec_phdr_block_size(arch, n + 2) as u64,
            p_align: PAGE_SIZE,
        }
    } else if i == 1 {
        ProgramHeader {
            p_type: PT_LOAD,
            p_flags: PF_R,
            p_offset: 0,
            p_vaddr: spec_vaddr1(inputs, arch) as u64,
            p_paddr: spec_out_paddr(st, inputs, arch, 1) as u64,
            p_filesz: spec_ext_first(inputs, arch) as u64,
            p_memsz: spec_ext_first(inputs, arch) as u64,
            p_align: PAGE_SIZE,
        }
    } else {
        let h = inputs[i - 2];
        let size = spec_out_end(inputs, arch, i) - spec_seg_off(inputs, arch, i - 2);
        ProgramHeader {
            p_type: PT_LOAD,
            p_flags: h.p_flags,
            p_offset: spec_seg_off(inputs, arch, i - 2) as u64,
            p_vaddr: h.p_vaddr,
            p_paddr: spec_out_paddr(st, inputs, arch, i) as u64,
            p_filesz: size as u64,
            p_memsz: size as u64,
            p_align: h.p_align,
        }
    }
}

/// The whole output program-header table of the layout.
pub open spec fn spec_out_phdrs(
    st: LayoutStrategy,
    inputs: Seq<ProgramHeader>,
    arch: Arch,
) -> Seq<ProgramHeader> {
    Seq::new((inputs.len() as int + 2) as nat, |i: int| spec_out_phdr(st, inputs, arch, i))
}

/// What the layout walk requires of each input header it consumes: the
/// placed offset and the segment's addresses and sizes fit one address
/// field of the file's width, and offset and virtual address agree modulo
/// the alignment.
pub open spec fn spec_walk_ok(inputs: Seq<ProgramHeader>, arch: Arch, k: int) -> bool
    decreases k,
{
    if k <= 0 {
        true
    } else {
        let h = inputs[k - 1];
        let s = spec_seg_off(inputs, arch, k - 1);
        &&& spec_walk_ok(inputs, arch, k - 1)
        &&& h.p_vaddr <= arch.spec_word_max()
        &&& h.p_align <= arch.spec_word_max()
        &&& s <= arch.spec_word_max()
        &&& s % (h.p_align as int) == h.p_vaddr as int % (h.p_align as int)
        &&& s + h.p_memsz <= arch.spec_word_max()
    }
}

/// When the layout succeeds: every placed segment fits the file's address
/// width and meets its alignment, the whole output fits the machine's
/// address space, the synthesized headers' virtual addresses exist below
/// the least input virtual address, and the strategy's own physical
/// addresses fit.
pub open spec fn spec_layout_ok(
    st: LayoutStrategy,
    inputs: Seq<ProgramHeader>,
    arch: Arch,
) -> bool {
    let n = inputs.len() as int;
    let mv = spec_min_vaddr(inputs);
    let block = spec_phdr_block_size(arch, n + 2);
    let first = spec_first_load_size(arch, n + 2);
    &&& spec_walk_ok(inputs, arch, n)
    &&& spec_cursor(inputs, arch, n) <= usize::MAX as int
    &&& mv >= block
    &&& spec_align_adjustment(mv - block, arch.spec_ehdr_size(), PAGE_SIZE as int) <= mv - block
    &&& spec_vaddr0(inputs, arch) <= arch.spec_word_max()
    &&& mv >= first
    &&& spec_vaddr1(inputs, arch) <= arch.spec_word_max()
    &&& match st {
        LayoutStrategy::SpecifiedStart(start) => start + spec_cursor(inputs, arch, n)
            <= arch.spec_word_max(),
        LayoutStrategy::FromInput => {
            &&& (forall|k: int|
                0 <= k < n ==> (#[trigger] inputs[k]).p_paddr <= arch.spec_word_max())
            &&& spec_min_paddr(inputs) >= spec_ext_first(inputs, arch)
            &&& arch.spec_ehdr_size() + spec_paddr_adjust(inputs, arch) <= arch.spec_word_max()
        },
    }
}

/// What the layout walk asks of its input table: few enough headers that
/// the output count fits its sixteen-bit field, and an alignment named on
/// every header.
pub open spec fn spec_layout_pre(inputs: Seq<ProgramHeader>, arch: Arch) -> bool {
    &&& inputs.len() <= 65533
    &&& forall|k: int| 0 <= k < inputs.len() ==> (#[trigger] inputs[k]).p_align >= 1
}

/// The cursor never moves backward, and never below the initial first-load
/// size.
pub proof fn lemma_cursor_monotone(inputs: Seq<ProgramHeader>, arch: Arch, j: int, k: int)
    requires
        spec_layout_pre(inputs, arch),
        0 <= j <= k <= inputs.len(),
    ensures
        spec_first_load_size(arch, inputs.len() as int + 2) <= spec_cursor(inputs, arch, j)
            <= spec_cursor(inputs, arch, k),
        j < k ==> spec_cursor(inputs, arch, j) <= spec_seg_off(inputs, arch, j) <= spec_cursor(
            inputs,
            arch,
            j + 1,
        ) <= spec_cursor(inputs, arch, k),
    decreases k,
{
    if k > 0 {
        let j2: int = if j <= k - 1 {
            j
        } else {
            k - 1
        };
        lemma_cursor_monotone(inputs, arch, j2, k - 1);
        let c = spec_cursor(inputs, arch, k - 1);
        let h = inputs[k - 1];
        vstd::arithmetic::div_mod::lemma_mod_bound(
            if c >= h.p_vaddr {
                c - h.p_vaddr
            } else {
                h.p_vaddr - c
            },
            h.p_align as int,
        );
    }
}

/// The header that the walk appends for input `k`, before any later
/// extension of its size.
pub open spec fn spec_fresh_load(
    st: LayoutStrategy,
    inputs: Seq<ProgramHeader>,
    arch: Arch,
    k: int,
) -> ProgramHeader {
    let h = inputs[k];
    ProgramHeader {
        p_type: PT_LOAD,
        p_flags: h.p_flags,
        p_offset: spec_seg_off(inputs, arch, k) as u64,
        p_vaddr: h.p_vaddr,
        p_paddr: spec_out_paddr(st, inputs, arch, k + 2) as u64,
        p_filesz: h.p_memsz,
        p_memsz: h.p_memsz,
        p_align: h.p_align,
    }
}

/// A walk that is valid through `k` steps is valid through any earlier
/// step.
pub proof fn lemma_walk_ok_monotone(inputs: Seq<ProgramHeader>, arch: Arch, j: int, k: int)
    requires
        0 <= j <= k,
        spec_walk_ok(inputs, arch, k),
    ensures
        spec_walk_ok(inputs, arch, j),
    decreases k,
{
    if j < k {
        lemma_walk_ok_monotone(inputs, arch, j, k - 1);
    }
}


/// The step conditions of a valid walk, at one step.
pub proof fn lemma_walk_ok_at(inputs: Seq<ProgramHeader>, arch: Arch, n: int, j: int)
    requires
        spec_walk_ok(inputs, arch, n),
        0 <= j < n <= inputs.len(),
    ensures
        inputs[j].p_vaddr <= arch.spec_word_max(),
        inputs[j].p_align <= arch.spec_word_max(),
        spec_seg_off(inputs, arch, j) <= arch.spec_word_max(),
        spec_seg_off(inputs, arch, j) % (inputs[j].p_align as int) == inputs[j].p_vaddr as int % (
        inputs[j].p_align as int),
        spec_seg_off(inputs, arch, j) + inputs[j].p_memsz <= arch.spec_word_max(),
{
    lemma_walk_ok_monotone(inputs, arch, j + 1, n);
}

/// Numeric bounds on the synthesized header block: it always fits a 32-bit
/// size field.
pub proof fn lemma_block_small(arch: Arch, n: int)
    requires
        0 <= n <= 65533,
    ensures
        0 <= spec_phdr_block_size(arch, n + 2) <= 0x7fffff,
        arch.spec_ehdr_size() <= spec_first_load_size(arch, n + 2) <= 0x800000,
        spec_first_load_size(arch, n + 2) <= arch.spec_word_max(),
{
    assert((n + 2) * arch.spec_phdr_size() <= 65535 * 56 && (n + 2) * arch.spec_phdr_size() >= 0)
        by (nonlinear_arith)
        requires
            0 <= n <= 65533,
            0 <= arch.spec_phdr_size() <= 56,
    ;
}

/// The final cursor bounds every placed offset and fits the file's address
/// width and the machine's address space.
pub proof fn lemma_final_cursor_bound(inputs: Seq<ProgramHeader>, arch: Arch)
    requires
        spec_layout_pre(inputs, arch),
        spec_walk_ok(inputs, arch, inputs.len() as int),
    ensures
        spec_cursor(inputs, arch, inputs.len() as int) <= arch.spec_word_max(),
{
    let n = inputs.len() as int;
    if n == 0 {
        lemma_block_small(arch, 0);
    } else {
        lemma_walk_ok_at(inputs, arch, n, n - 1);
    }
}

/// The shape of the output table of a layout that succeeded: the loadable
/// segments tile the file from offset zero, sizes on disk equal sizes in
/// memory, each loadable segment is at least as large as its input's memory
/// image, the first holds the whole header block, and every field fits one
/// address field of the file's width.
#[verifier::rlimit(100)]
#[verifier::spinoff_prover]
pub proof fn lemma_layout_wf(st: LayoutStrategy, inputs: Seq<ProgramHeader>, arch: Arch)
    requires
        spec_layout_pre(inputs, arch),
        spec_layout_ok(st, inputs, arch),
    ensures
        ({
            let outs = spec_out_phdrs(st, inputs, arch);
            let n = inputs.len() as int;
            &&& outs.len() == n + 2
            &&& outs[0].p_type == PT_PHDR
            &&& outs[0].p_offset == arch.spec_ehdr_size()
            &&& outs[0].p_filesz == spec_phdr_block_size(arch, n + 2)
            &&& outs[1].p_offset == 0
            &&& outs[1].p_filesz >= spec_first_load_size(arch, n + 2)
            &&& forall|i: int| 1 <= i < n + 2 ==> (#[trigger] outs[i]).p_type == PT_LOAD
            &&& forall|i: int| 1 <= i < n + 2 ==> (#[trigger] outs[i]).p_filesz == outs[i].p_memsz
            &&& forall|i: int|
                1 <= i < n + 1 ==> (#[trigger] outs[i]).p_offset + outs[i].p_filesz == outs[i
                    + 1].p_offset
            &&& forall|i: int|
                2 <= i < n + 2 ==> (#[trigger] outs[i]).p_filesz >= inputs[i - 2].p_memsz
            &&& outs[n + 1].p_offset + outs[n + 1].p_filesz == spec_cursor(inputs, arch, n)
            &&& spec_cursor(inputs, arch, n) <= usize::MAX
            &&& forall|i: int|
                0 <= i < n + 2 ==> !arch.is_64 ==> (#[trigger] outs[i]).fits_32()
            &&& forall|i: int| 2 <= i < n + 2 ==> (#[trigger] outs[i]).p_vaddr == inputs[i - 2].p_vaddr
            &&& forall|i: int| 2 <= i < n + 2 ==> (#[trigger] outs[i]).p_align == inputs[i - 2].p_align
            &&& forall|i: int| 2 <= i < n + 2 ==> (#[trigger] outs[i]).p_flags == inputs[i - 2].p_flags
        }),
{
    let outs = spec_out_phdrs(st, inputs, arch);
    let n = inputs.len() as int;
    let wmax = arch.spec_word_max();
    let mv = spec_min_vaddr(inputs);
    let block = spec_phdr_block_size(arch, n + 2);
    let first = spec_first_load_size(arch, n + 2);
    lemma_block_small(arch, n);
    lemma_final_cursor_bound(inputs, arch);
    let last = spec_cursor(inputs, arch, n);
    assert forall|j: int| 0 <= j < n implies 0 <= spec_cursor(inputs, arch, j) <= #[trigger]
    spec_seg_off(inputs, arch, j) <= spec_cursor(inputs, arch, j + 1) <= last by {
        lemma_cursor_monotone(inputs, arch, j, n);
    }
    assert forall|j: int| 0 <= j < n implies #[trigger] spec_seg_off(inputs, arch, j) <= wmax
        && spec_seg_off(inputs, arch, j) + inputs[j].p_memsz <= wmax && inputs[j].p_vaddr <= wmax
        && inputs[j].p_align <= wmax by {
        lemma_walk_ok_at(inputs, arch, n, j);
    }
    assert(spec_ext_first(inputs, arch) >= first && spec_ext_first(inputs, arch) <= last) by {
        if n >= 1 {
            lemma_cursor_monotone(inputs, arch, 0, n);
        }
    }
    assert(0 <= spec_vaddr0(inputs, arch) <= wmax);
    assert(0 <= spec_vaddr1(inputs, arch) <= wmax) by {
        let x1 = mv - first;
        vstd::arithmetic::div_mod::lemma_mod_bound(x1, PAGE_SIZE as int);
        if x1 < PAGE_SIZE {
            vstd::arithmetic::div_mod::lemma_small_mod(x1 as nat, PAGE_SIZE as nat);
        }
    }
    assert forall|i: int| 0 <= i < n + 2 implies 0 <= #[trigger] spec_out_paddr(st, inputs, arch, i)
        <= wmax by {
        match st {
            LayoutStrategy::SpecifiedStart(start) => {
                if i >= 2 {
                    assert(spec_seg_off(inputs, arch, i - 2) <= last);
                }
            },
            LayoutStrategy::FromInput => {
                if i >= 2 {
                    assert(inputs[i - 2].p_paddr <= wmax);
                }
            },
        }
    }
    assert forall|i: int| 0 <= i < n + 2 && !arch.is_64 implies (#[trigger] outs[i]).fits_32() by {
        if !arch.is_64 && i >= 2 {
            assert(outs[i].p_offset == spec_seg_off(inputs, arch, i - 2));
            assert(spec_out_end(inputs, arch, i) <= last);
            assert(spec_out_end(inputs, arch, i) >= spec_seg_off(inputs, arch, i - 2));
            assert(inputs[i - 2].p_vaddr <= wmax && inputs[i - 2].p_align <= wmax);
        }
    }
    assert forall|i: int| 1 <= i < n + 1 implies (#[trigger] outs[i]).p_offset + outs[i].p_filesz
        == outs[i + 1].p_offset by {
        if i == 1 {
            assert(spec_ext_first(inputs, arch) == spec_seg_off(inputs, arch, 0));
        } else {
            assert(spec_out_end(inputs, arch, i) == spec_seg_off(inputs, arch, i - 1));
        }
    }
}

/// The least virtual address is no greater than any header's.
proof fn lemma_min_vaddr_le(inputs: Seq<ProgramHeader>, k: int)
    requires
        0 <= k < inputs.len(),
    ensures
        spec_min_vaddr(inputs) <= inputs[k].p_vaddr,
    decreases inputs.len(),
{
    if k < inputs.len() - 1 {
        lemma_min_vaddr_le(inputs.drop_last(), k);
    }
}

/// Law: expected header shape.  A layout that succeeds has at least two
/// output program headers; the first is a `PT_PHDR`, and every other one is
/// a `PT_LOAD`.
pub proof fn lemma_output_header_shape(st: LayoutStrategy, inputs: Seq<ProgramHeader>, arch: Arch)
    requires
        spec_layout_pre(inputs, arch),
        spec_layout_ok(st, inputs, arch),
    ensures
        ({
            let outs = spec_out_phdrs(st, inputs, arch);
            &&& outs.len() == inputs.len() + 2 >= 2
            &&& outs[0].p_type == PT_PHDR
            &&& forall|i: int| 1 <= i < outs.len() ==> (#[trigger] outs[i]).p_type == PT_LOAD
        }),
{
    lemma_layout_wf(st, inputs, arch);
}

/// Law: plenum on disk.  In a layout that succeeds, every loadable output
/// segment's file size equals its memory size, the first begins at file
/// offset zero, each next one begins exactly where the previous ends, and
/// the last ends exactly at the total size of the output.
pub proof fn lemma_output_plenum(st: LayoutStrategy, inputs: Seq<ProgramHeader>, arch: Arch)
    requires
        spec_layout_pre(inputs, arch),
        spec_layout_ok(st, inputs, arch),
    ensures
        ({
            let outs = spec_out_phdrs(st, inputs, arch);
            let n = inputs.len() as int;
            &&& outs[1].p_offset == 0
            &&& forall|i: int| 1 <= i < n + 2 ==> (#[trigger] outs[i]).p_filesz == outs[i].p_memsz
            &&& forall|i: int|
                1 <= i < n + 1 ==> (#[trigger] outs[i]).p_offset + outs[i].p_filesz == outs[i
                    + 1].p_offset
            &&& outs[n + 1].p_offset + outs[n + 1].p_filesz == spec_cursor(inputs, arch, n)
        }),
{
    lemma_layout_wf(st, inputs, arch);
}

/// Law: alignment.  In a layout that succeeds, every loadable output
/// segment's file offset agrees with its virtual address modulo its
/// alignment.
pub proof fn lemma_output_alignment(st: LayoutStrategy, inputs: Seq<ProgramHeader>, arch: Arch)
    requires
        spec_layout_pre(inputs, arch),
        spec_layout_ok(st, inputs, arch),
    ensures
        ({
            let outs = spec_out_phdrs(st, inputs, arch);
            forall|i: int|
                1 <= i < outs.len() ==> (#[trigger] outs[i]).p_offset as int % (
                outs[i].p_align as int) == outs[i].p_vaddr as int % (outs[i].p_align as int)
        }),
{
    let outs = spec_out_phdrs(st, inputs, arch);
    let n = inputs.len() as int;
    let mv = spec_min_vaddr(inputs);
    let first = spec_first_load_size(arch, n + 2);
    lemma_layout_wf(st, inputs, arch);
    lemma_block_small(arch, n);
    assert forall|i: int| 1 <= i < outs.len() implies (#[trigger] outs[i]).p_offset as int % (
    outs[i].p_align as int) == outs[i].p_vaddr as int % (outs[i].p_align as int) by {
        if i == 1 {
            let x1 = mv - first;
            let p = PAGE_SIZE as int;
            vstd::arithmetic::div_mod::lemma_mod_bound(x1, p);
            if x1 < p {
                vstd::arithmetic::div_mod::lemma_small_mod(x1 as nat, p as nat);
            }
            assert(spec_vaddr1(inputs, arch) == x1 - x1 % p);
            assert(0 <= spec_vaddr1(inputs, arch) <= arch.spec_word_max());
            assert(outs[1].p_vaddr == spec_vaddr1(inputs, arch));
            vstd::arithmetic::div_mod::lemma_fundamental_div_mod(x1, p);
            assert(x1 - x1 % p == p * (x1 / p));
            vstd::arithmetic::div_mod::lemma_mod_multiples_basic(x1 / p, p);
            assert((p * (x1 / p)) % p == 0);
            assert(outs[1].p_offset == 0 && outs[1].p_align == PAGE_SIZE);
        } else {
            lemma_walk_ok_at(inputs, arch, n, i - 2);
            lemma_cursor_monotone(inputs, arch, i - 2, n);
            assert(outs[i].p_offset == spec_seg_off(inputs, arch, i - 2));
            assert(outs[i].p_align == inputs[i - 2].p_align);
            assert(outs[i].p_vaddr == inputs[i - 2].p_vaddr);
        }
    }
}

/// Law: `PT_PHDR` containment.  In a layout that succeeds, the physical
/// range of the `PT_PHDR` header lies inside the physical range of the
/// first loadable segment.
pub proof fn lemma_phdr_containment(st: LayoutStrategy, inputs: Seq<ProgramHeader>, arch: Arch)
    requires
        spec_layout_pre(inputs, arch),
        spec_layout_ok(st, inputs, arch),
    ensures
        ({
            let outs = spec_out_phdrs(st, inputs, arch);
            &&& outs[0].p_paddr >= outs[1].p_paddr
            &&& outs[0].p_paddr + outs[0].p_filesz <= outs[1].p_paddr + outs[1].p_filesz
        }),
{
    let n = inputs.len() as int;
    lemma_layout_wf(st, inputs, arch);
    lemma_block_small(arch, n);
    if n >= 1 {
        lemma_cursor_monotone(inputs, arch, 0, n);
    }
}

/// Law: sorted by virtual address.  When the input headers, in their
/// (physical address, virtual address) order, also carry non-decreasing
/// virtual addresses, the loadable output segments appear in non-decreasing
/// virtual-address order.  An input whose physical-address order reverses
/// two virtual addresses does not satisfy this law's premise.
pub proof fn lemma_output_sorted_by_vaddr(
    st: LayoutStrategy,
    inputs: Seq<ProgramHeader>,
    arch: Arch,
)
    requires
        spec_layout_pre(inputs, arch),
        spec_layout_ok(st, inputs, arch),
        forall|i: int, j: int|
            0 <= i < j < inputs.len() ==> (#[trigger] inputs[i]).p_vaddr <= (
            #[trigger] inputs[j]).p_vaddr,
    ensures
        ({
            let outs = spec_out_phdrs(st, inputs, arch);
            forall|i: int, j: int|
                1 <= i < j < outs.len() ==> (#[trigger] outs[i]).p_vaddr <= (
                #[trigger] outs[j]).p_vaddr
        }),
{
    let outs = spec_out_phdrs(st, inputs, arch);
    let n = inputs.len() as int;
    let mv = spec_min_vaddr(inputs);
    let first = spec_first_load_size(arch, n + 2);
    lemma_layout_wf(st, inputs, arch);
    lemma_block_small(arch, n);
    assert forall|i: int, j: int| 1 <= i < j < outs.len() implies (#[trigger] outs[i]).p_vaddr <= (
    #[trigger] outs[j]).p_vaddr by {
        let p = PAGE_SIZE as int;
        vstd::arithmetic::div_mod::lemma_mod_bound(mv - first, p);
        if i == 1 {
            lemma_min_vaddr_le(inputs, j - 2);
        }
    }
}

/// Law: a specified start is contiguous in physical addresses.  Under
/// `SpecifiedStart`, the first loadable output segment begins at the
/// specified address, and each next loadable segment begins exactly where
/// the previous one ends.
#[verifier::rlimit(100)]
#[verifier::spinoff_prover]
pub proof fn lemma_specified_start_contiguous(
    start: u64,
    inputs: Seq<ProgramHeader>,
    arch: Arch,
)
    requires
        spec_layout_pre(inputs, arch),
        spec_layout_ok(LayoutStrategy::SpecifiedStart(start), inputs, arch),
    ensures
        ({
            let outs = spec_out_phdrs(LayoutStrategy::SpecifiedStart(start), inputs, arch);
            let n = inputs.len() as int;
            &&& outs[1].p_paddr == start
            &&& forall|i: int|
                1 <= i < n + 1 ==> (#[trigger] outs[i]).p_paddr + outs[i].p_filesz == outs[i
                    + 1].p_paddr
        }),
{
    let st = LayoutStrategy::SpecifiedStart(start);
    let outs = spec_out_phdrs(st, inputs, arch);
    let n = inputs.len() as int;
    lemma_layout_wf(st, inputs, arch);
    lemma_block_small(arch, n);
    assert forall|i: int| 1 <= i < n + 1 implies (#[trigger] outs[i]).p_paddr + outs[i].p_filesz
        == outs[i + 1].p_paddr by {
        lemma_cursor_monotone(inputs, arch, 0, n);
        if i >= 2 {
            lemma_cursor_monotone(inputs, arch, i - 2, n);
            lemma_walk_ok_at(inputs, arch, n, i - 2);
        }
        lemma_cursor_monotone(inputs, arch, i - 1, n);
        lemma_walk_ok_at(inputs, arch, n, i - 1);
        assert(outs[i].p_offset + outs[i].p_filesz == outs[i + 1].p_offset);
        assert(outs[i].p_paddr == start + outs[i].p_offset);
        assert(outs[i + 1].p_paddr == start + outs[i + 1].p_offset);
    }
}

/// Law: `FromInput` preserves physical addresses.  Under `FromInput`, each
/// loadable output segment after the synthesized first one keeps the
/// physical address of the input segment it carries.
pub proof fn lemma_from_input_preserves_paddr(inputs: Seq<ProgramHeader>, arch: Arch)
    requires
        spec_layout_pre(inputs, arch),
        spec_layout_ok(LayoutStrategy::FromInput, inputs, arch),
    ensures
        ({
            let outs = spec_out_phdrs(LayoutStrategy::FromInput, inputs, arch);
            forall|k: int|
                0 <= k < inputs.len() ==> (#[trigger] outs[k + 2]).p_paddr == inputs[k].p_paddr
        }),
{
    lemma_layout_wf(LayoutStrategy::FromInput, inputs, arch);
}

/// The error with which the layout walk rejects its input.
fn layout_error() -> (r: Error)
    ensures
        r matches Error::InvalidElf { message } && message@
            == "Elf file segments do not fit a valid output layout."@,
{
    Error::InvalidElf { message: "Elf file segments do not fit a valid output layout.".to_string() }
}

impl LayoutStrategy {
    /// Transform the input program headers into the output program headers
    /// in accordance with this strategy.
    ///
    /// The input program headers should be sorted by `p_paddr` and then by
    /// `p_vaddr`.  An input whose segments cannot be laid out — an offset,
    /// address, or size would not fit an address field of the file's width,
    /// a placed offset cannot meet a segment's alignment, or the synthesized
    /// headers' addresses would lie below zero — is rejected.
    #[verifier::loop_isolation(false)]
    #[verifier::rlimit(100)]
    #[verifier::spinoff_prover]
    pub fn layout(&self, input: &Vec<ProgramHeader>, arch: &Arch) -> (r: Result<
        Vec<ProgramHeader>,
        Error,
    >)
        requires
            spec_layout_pre(input@, *arch),
        ensures
            r is Ok <==> spec_layout_ok(*self, input@, *arch),
            r matches Ok(v) ==> v@ == spec_out_phdrs(*self, input@, *arch),
            r matches Err(e) ==> e matches Error::InvalidElf { message } && message@
                == "Elf file segments do not fit a valid output layout."@,
    {
        broadcast use vstd::arithmetic::div_mod::lemma_mod_bound;

        let ghost st = *self;
        let ghost n_int = input@.len() as int;
        let n = input.len();
        let wmax = arch.word_max();
        let ehsize = arch.ehdr_size();
        let phsize = arch.phdr_size();
        let count = n + 2;
        assert(count as int * phsize as int <= 65535 * 56) by (nonlinear_arith)
            requires
                count <= 65535,
                phsize <= 56,
        ;
        let block = (count as u64) * phsize;
        let first_size = ehsize + block;
        assert(block == spec_phdr_block_size(*arch, n_int + 2));
        assert(first_size == spec_first_load_size(*arch, n_int + 2));
        assert(first_size <= wmax);
        let (is_ss, start) = match self {
            LayoutStrategy::SpecifiedStart(s) => (true, *s),
            LayoutStrategy::FromInput => (false, 0u64),
        };
        if is_ss && start > wmax - first_size {
            proof {
                if spec_layout_ok(st, input@, *arch) {
                    lemma_cursor_monotone(input@, *arch, 0, n_int);
                }
            }
            return Err(layout_error());
        }
        let mut phdrs: Vec<ProgramHeader> = Vec::new();
        phdrs.push(
            ProgramHeader {
                p_type: PT_PHDR,
                p_flags: PF_R,
                p_offset: ehsize,
                p_vaddr: 0,
                p_paddr: start + ehsize,
                p_filesz: block,
                p_memsz: block,
                p_align: PAGE_SIZE,
            },
        );
        phdrs.push(
            ProgramHeader {
                p_type: PT_LOAD,
                p_flags: PF_R,
                p_offset: 0,
                p_vaddr: 0,
                p_paddr: start,
                p_filesz: first_size,
                p_memsz: first_size,
                p_align: PAGE_SIZE,
            },
        );
        let mut offset: u64 = first_size;
        let mut min_vaddr: u64 = u64::MAX;
        let mut min_paddr: u64 = u64::MAX;
        let mut k: usize = 0;
        while k < n
            invariant
                k <= n,
                offset == spec_cursor(input@, *arch, k as int),
                offset <= wmax,
                spec_walk_ok(input@, *arch, k as int),
                is_ss ==> start + spec_cursor(input@, *arch, k as int) <= wmax,
                !is_ss ==> forall|j: int|
                    0 <= j < k ==> (#[trigger] input@[j]).p_paddr <= wmax,
                min_vaddr == spec_min_vaddr(input@.take(k as int)),
                min_paddr == spec_min_paddr(input@.take(k as int)),
                phdrs@.len() == k + 2,
                phdrs@[0] == (ProgramHeader {
                    p_type: PT_PHDR,
                    p_flags: PF_R,
                    p_offset: ehsize,
                    p_vaddr: 0,
                    p_paddr: (start + ehsize) as u64,
                    p_filesz: block,
                    p_memsz: block,
                    p_align: PAGE_SIZE,
                }),
                phdrs@[1] == (ProgramHeader {
                    p_type: PT_LOAD,
                    p_flags: PF_R,
                    p_offset: 0,
                    p_vaddr: 0,
                    p_paddr: start,
                    p_filesz: if k == 0 {
                        first_size
                    } else {
                        spec_seg_off(input@, *arch, 0) as u64
                    },
                    p_memsz: if k == 0 {
                        first_size
                    } else {
                        spec_seg_off(input@, *arch, 0) as u64
                    },
                    p_align: PAGE_SIZE,
                }),
                forall|i: int| 2 <= i <= k ==> phdrs@[i] == spec_out_phdr(st, input@, *arch, i),
                k >= 1 ==> phdrs@[k + 1] == spec_fresh_load(st, input@, *arch, k - 1),
            decreases n - k,
        {
            proof {
                lemma_cursor_monotone(input@, *arch, 0, k as int);
            }
            let h = input[k];
            let adj = align_adjustment(offset, h.p_vaddr, h.p_align);
            let fails = h.p_vaddr > wmax || h.p_align > wmax || offset > wmax - adj || h.p_memsz
                > wmax || offset + adj > wmax - h.p_memsz || (offset + adj) % h.p_align
                != h.p_vaddr % h.p_align;
            if fails {
                proof {
                    if spec_layout_ok(st, input@, *arch) {
                        lemma_walk_ok_monotone(input@, *arch, k as int + 1, n_int);
                        assert(spec_seg_off(input@, *arch, k as int) >= 0);
                        assert(false);
                    }
                }
                return Err(layout_error());
            }
            let seg = offset + adj;
            assert(seg == spec_seg_off(input@, *arch, k as int));
            if is_ss && seg + h.p_memsz > wmax - start {
                proof {
                    if spec_layout_ok(st, input@, *arch) {
                        lemma_cursor_monotone(input@, *arch, k as int + 1, n_int);
                        assert(spec_cursor(input@, *arch, k as int + 1) == seg + h.p_memsz);
                        assert(false);
                    }
                }
                return Err(layout_error());
            }
            if !is_ss && h.p_paddr > wmax {
                proof {
                    if spec_layout_ok(st, input@, *arch) {
                        assert(input@[k as int].p_paddr <= wmax);
                        assert(false);
                    }
                }
                return Err(layout_error());
            }
            let last = k + 1;
            let prev_off = phdrs[last].p_offset;
            proof {
                if k >= 1 {
                    lemma_cursor_monotone(input@, *arch, k - 1, k as int);
                    assert(prev_off == spec_seg_off(input@, *arch, k - 1));
                }
                assert(prev_off <= seg);
            }
            let ext = seg - prev_off;
            phdrs[last].p_filesz = ext;
            phdrs[last].p_memsz = ext;
            phdrs.push(
                ProgramHeader {
                    p_type: PT_LOAD,
                    p_flags: h.p_flags,
                    p_offset: seg,
                    p_vaddr: h.p_vaddr,
                    p_paddr: if is_ss {
                        start + seg
                    } else {
                        h.p_paddr
                    },
                    p_filesz: h.p_memsz,
                    p_memsz: h.p_memsz,
                    p_align: h.p_align,
                },
            );
            offset = seg + h.p_memsz;
            if h.p_vaddr < min_vaddr {
                min_vaddr = h.p_vaddr;
            }
            if h.p_paddr < min_paddr {
                min_paddr = h.p_paddr;
            }
            proof {
                assert(input@.take(k as int + 1).drop_last() =~= input@.take(k as int));
                assert(input@.take(k as int + 1).last() == input@[k as int]);
                assert(offset == spec_cursor(input@, *arch, k as int + 1));
                assert(phdrs@[k + 2] == spec_fresh_load(st, input@, *arch, k as int));
                if k >= 1 {
                    assert(phdrs@[k + 1] == spec_out_phdr(st, input@, *arch, k as int + 1)) by {
                        assert(spec_out_end(input@, *arch, k as int + 1) == seg);
                    }
                } else {
                    assert(phdrs@[1].p_filesz == spec_seg_off(input@, *arch, 0));
                }
            }
            k += 1;
        }
        proof {
            assert(input@.take(n_int) =~= input@);
            lemma_cursor_monotone(input@, *arch, 0, n_int);
        }
        let post_fails = offset > usize::MAX as u64 || min_vaddr < block || min_vaddr < first_size;
        if post_fails {
            return Err(layout_error());
        }
        let x0 = min_vaddr - block;
        let adj0 = align_adjustment(x0, ehsize, PAGE_SIZE);
        if adj0 > x0 {
            return Err(layout_error());
        }
        let v0 = x0 - adj0;
        if v0 > wmax {
            return Err(layout_error());
        }
        let x1 = min_vaddr - first_size;
        let adj1 = align_adjustment(x1, 0, PAGE_SIZE);
        assert(adj1 <= x1) by {
            assert(adj1 == x1 as int % (PAGE_SIZE as int));
            if x1 < PAGE_SIZE {
                vstd::arithmetic::div_mod::lemma_small_mod(x1 as nat, PAGE_SIZE as nat);
            }
        }
        let v1 = x1 - adj1;
        if v1 > wmax {
            return Err(layout_error());
        }
        assert(v0 == spec_vaddr0(input@, *arch));
        assert(v1 == spec_vaddr1(input@, *arch));
        if !is_ss {
            let ext_first = phdrs[1].p_filesz;
            assert(ext_first == spec_ext_first(input@, *arch));
            if min_paddr < ext_first {
                return Err(layout_error());
            }
            let adjust = min_paddr - ext_first;
            if adjust > wmax - ehsize {
                return Err(layout_error());
            }
            assert(adjust == spec_paddr_adjust(input@, *arch));
            phdrs[0].p_paddr = ehsize + adjust;
            phdrs[1].p_paddr = adjust;
        }
        phdrs[0].p_vaddr = v0;
        phdrs[1].p_vaddr = v1;
        proof {
            assert forall|i: int| 0 <= i < n_int + 2 implies phdrs@[i] == spec_out_phdr(
                st,
                input@,
                *arch,
                i,
            ) by {
                if i == n_int + 1 && n_int >= 1 {
                    assert(spec_out_end(input@, *arch, i) == spec_cursor(input@, *arch, n_int));
                }
            }
            assert(phdrs@ =~= spec_out_phdrs(st, input@, *arch));
        }
        Ok(phdrs)
    }
}

} // verus!
