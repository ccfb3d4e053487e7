//! Reading and writing the byte forms of the ELF format.
//!
//! The format is described here twice: once as specification functions on
//! byte sequences, and once as executable functions proved against them.
//! Multi-byte fields are written in the endianness of the file; 32-bit and
//! 64-bit files differ in the width of address and size fields and in the
//! order of the program-header fields.

use vstd::prelude::*;
use crate::arch::Arch;
use crate::phdr::ProgramHeader;

verus! {

/// The two bytes of `x`, least significant first when `le`.
pub open spec fn spec_u16_bytes(x: u16, le: bool) -> Seq<u8> {
    if le {
        seq![(x % 256) as u8, (x / 256) as u8]
    } else {
        seq![(x / 256) as u8, (x % 256) as u8]
    }
}

/// The four bytes of `x`, least significant first when `le`.
pub open spec fn spec_u32_bytes(x: u32, le: bool) -> Seq<u8> {
    let b0 = (x % 256) as u8;
    let b1 = ((x / 0x100) % 256) as u8;
    let b2 = ((x / 0x10000) % 256) as u8;
    let b3 = ((x / 0x1000000) % 256) as u8;
    if le {
        seq![b0, b1, b2, b3]
    } else {
        seq![b3, b2, b1, b0]
    }
}

/// The eight bytes of `x`, least significant first when `le`.
pub open spec fn spec_u64_bytes(x: u64, le: bool) -> Seq<u8> {
    let b0 = (x % 256) as u8;
    let b1 = ((x / 0x100) % 256) as u8;
    let b2 = ((x / 0x10000) % 256) as u8;
    let b3 = ((x / 0x1000000) % 256) as u8;
    let b4 = ((x / 0x100000000) % 256) as u8;
    let b5 = ((x / 0x10000000000) % 256) as u8;
    let b6 = ((x / 0x1000000000000) % 256) as u8;
    let b7 = ((x / 0x100000000000000) % 256) as u8;
    if le {
        seq![b0, b1, b2, b3, b4, b5, b6, b7]
    } else {
        seq![b7, b6, b5, b4, b3, b2, b1, b0]
    }
}

/// The value read from two bytes, least significant first when `le`.
pub open spec fn spec_read_u16(b: Seq<u8>, le: bool) -> u16
    recommends
        b.len() == 2,
{
    if le {
        (b[0] + b[1] * 0x100) as u16
    } else {
        (b[1] + b[0] * 0x100) as u16
    }
}

/// The value read from four bytes, least significant first when `le`.
pub open spec fn spec_read_u32(b: Seq<u8>, le: bool) -> u32
    recommends
        b.len() == 4,
{
    if le {
        (b[0] + b[1] * 0x100 + b[2] * 0x10000 + b[3] * 0x1000000) as u32
    } else {
        (b[3] + b[2] * 0x100 + b[1] * 0x10000 + b[0] * 0x1000000) as u32
    }
}

/// The value read from eight bytes, least significant first when `le`.
pub open spec fn spec_read_u64(b: Seq<u8>, le: bool) -> u64
    recommends
        b.len() == 8,
{
    if le {
        (b[0] + b[1] * 0x100 + b[2] * 0x10000 + b[3] * 0x1000000 + b[4] * 0x100000000
            + b[5] * 0x10000000000 + b[6] * 0x1000000000000 + b[7] * 0x100000000000000) as u64
    } else {
        (b[7] + b[6] * 0x100 + b[5] * 0x10000 + b[4] * 0x1000000 + b[3] * 0x100000000
            + b[2] * 0x10000000000 + b[1] * 0x1000000000000 + b[0] * 0x100000000000000) as u64
    }
}

/// Reading the two bytes of a value gives the value back.
pub proof fn lemma_u16_round_trip(x: u16, le: bool)
    ensures
        spec_read_u16(spec_u16_bytes(x, le), le) == x,
{
    assert(x == x % 256 + (x / 256) * 0x100) by (bit_vector);
}

/// Reading the four bytes of a value gives the value back.
pub proof fn lemma_u32_round_trip(x: u32, le: bool)
    ensures
        spec_read_u32(spec_u32_bytes(x, le), le) == x,
{
    assert(x == x % 256 + ((x / 0x100) % 256) * 0x100 + ((x / 0x10000) % 256) * 0x10000 + ((x
        / 0x1000000) % 256) * 0x1000000) by (bit_vector);
}

/// Reading the eight bytes of a value gives the value back.
pub proof fn lemma_u64_round_trip(x: u64, le: bool)
    ensures
        spec_read_u64(spec_u64_bytes(x, le), le) == x,
{
    assert(x == x % 256 + ((x / 0x100) % 256) * 0x100 + ((x / 0x10000) % 256) * 0x10000 + ((x
        / 0x1000000) % 256) * 0x1000000 + ((x / 0x100000000) % 256) * 0x100000000 + ((x
        / 0x10000000000) % 256) * 0x10000000000 + ((x / 0x1000000000000) % 256) * 0x1000000000000
        + ((x / 0x100000000000000) % 256) * 0x100000000000000) by (bit_vector);
}

/// Append the two bytes of `x` to `out`.
pub fn push_u16(out: &mut Vec<u8>, x: u16, le: bool)
    ensures
        final(out)@ == old(out)@ + spec_u16_bytes(x, le),
{
    if le {
        out.push((x % 256) as u8);
        out.push((x / 256) as u8);
    } else {
        out.push((x / 256) as u8);
        out.push((x % 256) as u8);
    }
    assert(out@ =~= old(out)@ + spec_u16_bytes(x, le));
}

/// Append the four bytes of `x` to `out`.
pub fn push_u32(out: &mut Vec<u8>, x: u32, le: bool)
    ensures
        final(out)@ == old(out)@ + spec_u32_bytes(x, le),
{
    let b0 = (x % 256) as u8;
    let b1 = ((x / 0x100) % 256) as u8;
    let b2 = ((x / 0x10000) % 256) as u8;
    let b3 = ((x / 0x1000000) % 256) as u8;
    if le {
        out.push(b0);
        out.push(b1);
        out.push(b2);
        out.push(b3);
    } else {
        out.push(b3);
        out.push(b2);
        out.push(b1);
        out.push(b0);
    }
    assert(out@ =~= old(out)@ + spec_u32_bytes(x, le));
}

/// Append the eight bytes of `x` to `out`.
pub fn push_u64(out: &mut Vec<u8>, x: u64, le: bool)
    ensures
        final(out)@ == old(out)@ + spec_u64_bytes(x, le),
{
    let b0 = (x % 256) as u8;
    let b1 = ((x / 0x100) % 256) as u8;
    let b2 = ((x / 0x10000) % 256) as u8;
    let b3 = ((x / 0x1000000) % 256) as u8;
    let b4 = ((x / 0x100000000) % 256) as u8;
    let b5 = ((x / 0x10000000000) % 256) as u8;
    let b6 = ((x / 0x1000000000000) % 256) as u8;
    let b7 = ((x / 0x100000000000000) % 256) as u8;
    if le {
        out.push(b0);
        out.push(b1);
        out.push(b2);
        out.push(b3);
        out.push(b4);
        out.push(b5);
        out.push(b6);
        out.push(b7);
    } else {
        out.push(b7);
        out.push(b6);
        out.push(b5);
        out.push(b4);
        out.push(b3);
        out.push(b2);
        out.push(b1);
        out.push(b0);
    }
    assert(out@ =~= old(out)@ + spec_u64_bytes(x, le));
}

/// The bytes of one address or size field: eight bytes for a 64-bit file,
/// four for a 32-bit file.
pub open spec fn spec_word_bytes(x: u64, arch: Arch) -> Seq<u8> {
    if arch.is_64 {
        spec_u64_bytes(x, arch.is_little_endian)
    } else {
        spec_u32_bytes(x as u32, arch.is_little_endian)
    }
}

/// Append one address or size field of the file's width to `out`.
pub fn push_word(out: &mut Vec<u8>, x: u64, arch: &Arch)
    requires
        x <= arch.spec_word_max(),
    ensures
        final(out)@ == old(out)@ + spec_word_bytes(x, *arch),
{
    if arch.is_64 {
        push_u64(out, x, arch.is_little_endian);
    } else {
        push_u32(out, x as u32, arch.is_little_endian);
    }
}

/// Read the value of two bytes of `b` starting at `off`.
pub fn read_u16(b: &[u8], off: usize, le: bool) -> (r: u16)
    requires
        off + 2 <= b.len(),
    ensures
        r == spec_read_u16(b@.subrange(off as int, off + 2), le),
{
    let lo: u16;
    let hi: u16;
    if le {
        lo = b[off] as u16;
        hi = b[off + 1] as u16;
    } else {
        lo = b[off + 1] as u16;
        hi = b[off] as u16;
    }
    lo + hi * 0x100
}

/// Read the value of four bytes of `b` starting at `off`.
pub fn read_u32(b: &[u8], off: usize, le: bool) -> (r: u32)
    requires
        off + 4 <= b.len(),
    ensures
        r == spec_read_u32(b@.subrange(off as int, off + 4), le),
{
    let b0 = b[off] as u32;
    let b1 = b[off + 1] as u32;
    let b2 = b[off + 2] as u32;
    let b3 = b[off + 3] as u32;
    if le {
        b0 + b1 * 0x100 + b2 * 0x10000 + b3 * 0x1000000
    } else {
        b3 + b2 * 0x100 + b1 * 0x10000 + b0 * 0x1000000
    }
}

/// Read the value of eight bytes of `b` starting at `off`.
pub fn read_u64(b: &[u8], off: usize, le: bool) -> (r: u64)
    requires
        off + 8 <= b.len(),
    ensures
        r == spec_read_u64(b@.subrange(off as int, off + 8), le),
{
    let b0 = b[off] as u64;
    let b1 = b[off + 1] as u64;
    let b2 = b[off + 2] as u64;
    let b3 = b[off + 3] as u64;
    let b4 = b[off + 4] as u64;
    let b5 = b[off + 5] as u64;
    let b6 = b[off + 6] as u64;
    let b7 = b[off + 7] as u64;
    if le {
        b0 + b1 * 0x100 + b2 * 0x10000 + b3 * 0x1000000 + b4 * 0x100000000 + b5 * 0x10000000000
            + b6 * 0x1000000000000 + b7 * 0x100000000000000
    } else {
        b7 + b6 * 0x100 + b5 * 0x10000 + b4 * 0x1000000 + b3 * 0x100000000 + b2 * 0x10000000000
            + b1 * 0x1000000000000 + b0 * 0x100000000000000
    }
}

/// Read one address or size field of the file's width at `off`.
pub open spec fn spec_read_word(b: Seq<u8>, off: int, is_64: bool, le: bool) -> u64 {
    if is_64 {
        spec_read_u64(b.subrange(off, off + 8), le)
    } else {
        spec_read_u32(b.subrange(off, off + 4), le) as u64
    }
}

/// Read one address or size field of the file's width at `off`.
pub fn read_word(b: &[u8], off: usize, is_64: bool, le: bool) -> (r: u64)
    requires
        off + if is_64 { 8int } else { 4int } <= b.len(),
    ensures
        r == spec_read_word(b@, off as int, is_64, le),
{
    if is_64 {
        read_u64(b, off, le)
    } else {
        read_u32(b, off, le) as u64
    }
}

/// The sixteen identification bytes at the start of an ELF header.
pub open spec fn spec_ident(arch: Arch) -> Seq<u8> {
    seq![
        0x7f,
        0x45,
        0x4c,
        0x46,
        if arch.is_64 {
            2
        } else {
            1
        },
        if arch.is_little_endian {
            1
        } else {
            2
        },
        1,
        0,
        0,
        0,
        0,
        0,
        0,
        0,
        0,
        0,
    ]
}

/// The bytes of the ELF header of the output file: type `ET_EXEC`, entry
/// point `entry`, `phnum` program headers starting right after the header,
/// and no section headers.
pub open spec fn spec_ehdr_bytes(arch: Arch, entry: u64, phnum: u16) -> Seq<u8> {
    let le = arch.is_little_endian;
    spec_ident(arch) + spec_u16_bytes(crate::phdr::ET_EXEC, le) + spec_u16_bytes(arch.machine, le)
        + spec_u32_bytes(1, le) + spec_word_bytes(entry, arch) + spec_word_bytes(
        arch.spec_ehdr_size() as u64,
        arch,
    ) + spec_word_bytes(0, arch) + spec_u32_bytes(0, le) + spec_u16_bytes(
        arch.spec_ehdr_size() as u16,
        le,
    ) + spec_u16_bytes(arch.spec_phdr_size() as u16, le) + spec_u16_bytes(phnum, le)
        + spec_u16_bytes(0, le) + spec_u16_bytes(0, le) + spec_u16_bytes(0, le)
}

/// The two-byte form has length two.
pub broadcast proof fn lemma_u16_bytes_len(x: u16, le: bool)
    ensures
        (#[trigger] spec_u16_bytes(x, le)).len() == 2,
{
}

/// The four-byte form has length four.
pub broadcast proof fn lemma_u32_bytes_len(x: u32, le: bool)
    ensures
        (#[trigger] spec_u32_bytes(x, le)).len() == 4,
{
}

/// The eight-byte form has length eight.
pub broadcast proof fn lemma_u64_bytes_len(x: u64, le: bool)
    ensures
        (#[trigger] spec_u64_bytes(x, le)).len() == 8,
{
}

/// A word field is eight bytes in a 64-bit file and four in a 32-bit file.
pub broadcast proof fn lemma_word_bytes_len(x: u64, arch: Arch)
    ensures
        (#[trigger] spec_word_bytes(x, arch)).len() == if arch.is_64 {
            8int
        } else {
            4int
        },
{
}

/// The ELF header has the size that the architecture gives it.
pub proof fn lemma_ehdr_bytes_len(arch: Arch, entry: u64, phnum: u16)
    ensures
        spec_ehdr_bytes(arch, entry, phnum).len() == arch.spec_ehdr_size(),
{
    broadcast use lemma_u16_bytes_len, lemma_u32_bytes_len, lemma_word_bytes_len;

}

/// The bytes of one program header of the output file.
pub open spec fn spec_phdr_bytes(h: ProgramHeader, arch: Arch) -> Seq<u8> {
    let le = arch.is_little_endian;
    if arch.is_64 {
        spec_u32_bytes(h.p_type, le) + spec_u32_bytes(h.p_flags, le) + spec_u64_bytes(
            h.p_offset,
            le,
        ) + spec_u64_bytes(h.p_vaddr, le) + spec_u64_bytes(h.p_paddr, le) + spec_u64_bytes(
            h.p_filesz,
            le,
        ) + spec_u64_bytes(h.p_memsz, le) + spec_u64_bytes(h.p_align, le)
    } else {
        spec_u32_bytes(h.p_type, le) + spec_u32_bytes(h.p_offset as u32, le) + spec_u32_bytes(
            h.p_vaddr as u32,
            le,
        ) + spec_u32_bytes(h.p_paddr as u32, le) + spec_u32_bytes(h.p_filesz as u32, le)
            + spec_u32_bytes(h.p_memsz as u32, le) + spec_u32_bytes(h.p_flags, le)
            + spec_u32_bytes(h.p_align as u32, le)
    }
}

/// A program header has the size that the architecture gives it.
pub proof fn lemma_phdr_bytes_len(h: ProgramHeader, arch: Arch)
    ensures
        spec_phdr_bytes(h, arch).len() == arch.spec_phdr_size(),
{
    broadcast use lemma_u32_bytes_len, lemma_u64_bytes_len;

}

/// The bytes of a whole program-header table.
pub open spec fn spec_phdr_table(hs: Seq<ProgramHeader>, arch: Arch) -> Seq<u8>
    decreases hs.len(),
{
    if hs.len() == 0 {
        Seq::empty()
    } else {
        spec_phdr_table(hs.drop_last(), arch) + spec_phdr_bytes(hs.last(), arch)
    }
}

/// The table's size is the count of headers times the size of one.
pub proof fn lemma_phdr_table_len(hs: Seq<ProgramHeader>, arch: Arch)
    ensures
        spec_phdr_table(hs, arch).len() == hs.len() * arch.spec_phdr_size(),
    decreases hs.len(),
{
    if hs.len() == 0 {
    } else {
        lemma_phdr_table_len(hs.drop_last(), arch);
        lemma_phdr_bytes_len(hs.last(), arch);
    }
}

/// Entry `i` of the table holds the bytes of header `i`.
pub proof fn lemma_phdr_table_slot(hs: Seq<ProgramHeader>, arch: Arch, i: int)
    requires
        0 <= i < hs.len(),
    ensures
        spec_phdr_table(hs, arch).subrange(
            i * arch.spec_phdr_size(),
            (i + 1) * arch.spec_phdr_size(),
        ) == spec_phdr_bytes(hs[i], arch),
    decreases hs.len(),
{
    let p = arch.spec_phdr_size();
    lemma_phdr_table_len(hs, arch);
    lemma_phdr_table_len(hs.drop_last(), arch);
    lemma_phdr_bytes_len(hs.last(), arch);
    if i == hs.len() - 1 {
        assert(spec_phdr_table(hs, arch).subrange(i * p, (i + 1) * p) =~= spec_phdr_bytes(
            hs[i],
            arch,
        ));
    } else {
        lemma_phdr_table_slot(hs.drop_last(), arch, i);
        assert(spec_phdr_table(hs, arch).subrange(i * p, (i + 1) * p) =~= spec_phdr_table(
            hs.drop_last(),
            arch,
        ).subrange(i * p, (i + 1) * p));
    }
}

/// The bytes at the head of the output file: the ELF header followed at once
/// by the program-header table.
pub open spec fn spec_header_block(arch: Arch, entry: u64, outs: Seq<ProgramHeader>) -> Seq<u8> {
    spec_ehdr_bytes(arch, entry, outs.len() as u16) + spec_phdr_table(outs, arch)
}

/// Append the sixteen identification bytes to `out`.
fn push_ident(out: &mut Vec<u8>, arch: &Arch)
    ensures
        final(out)@ == old(out)@ + spec_ident(*arch),
{
    out.push(0x7f);
    out.push(0x45);
    out.push(0x4c);
    out.push(0x46);
    out.push(if arch.is_64 { 2 } else { 1 });
    out.push(if arch.is_little_endian { 1 } else { 2 });
    out.push(1);
    let mut i: usize = 0;
    while i < 9
        invariant
            i <= 9,
            out@ == old(out)@ + spec_ident(*arch).take(7 + i),
        decreases 9 - i,
    {
        out.push(0);
        assert(out@ =~= old(out)@ + spec_ident(*arch).take(7 + i + 1));
        i += 1;
    }
    assert(out@ =~= old(out)@ + spec_ident(*arch));
}

/// Append the ELF header of the output file to `out`.
#[verifier::rlimit(100)]
#[verifier::spinoff_prover]
pub fn push_ehdr(out: &mut Vec<u8>, arch: &Arch, entry: u64, phnum: u16)
    requires
        entry <= arch.spec_word_max(),
    ensures
        final(out)@ == old(out)@ + spec_ehdr_bytes(*arch, entry, phnum),
{
    let le = arch.is_little_endian;
    push_ident(out, arch);
    push_u16(out, crate::phdr::ET_EXEC, le);
    push_u16(out, arch.machine, le);
    push_u32(out, 1, le);
    push_word(out, entry, arch);
    push_word(out, arch.ehdr_size(), arch);
    push_word(out, 0, arch);
    push_u32(out, 0, le);
    push_u16(out, arch.ehdr_size() as u16, le);
    push_u16(out, arch.phdr_size() as u16, le);
    push_u16(out, phnum, le);
    push_u16(out, 0, le);
    push_u16(out, 0, le);
    push_u16(out, 0, le);
    proof {
        broadcast use lemma_u16_bytes_len, lemma_u32_bytes_len, lemma_word_bytes_len;

        assert(out@ =~= old(out)@ + spec_ehdr_bytes(*arch, entry, phnum));
    }
}

/// Append one program header of the output file to `out`.
#[verifier::rlimit(100)]
#[verifier::spinoff_prover]
pub fn push_phdr(out: &mut Vec<u8>, h: &ProgramHeader, arch: &Arch)
    requires
        !arch.is_64 ==> h.fits_32(),
    ensures
        final(out)@ == old(out)@ + spec_phdr_bytes(*h, *arch),
{
    let le = arch.is_little_endian;
    if arch.is_64 {
        push_u32(out, h.p_type, le);
        push_u32(out, h.p_flags, le);
        push_u64(out, h.p_offset, le);
        push_u64(out, h.p_vaddr, le);
        push_u64(out, h.p_paddr, le);
        push_u64(out, h.p_filesz, le);
        push_u64(out, h.p_memsz, le);
        push_u64(out, h.p_align, le);
    } else {
        push_u32(out, h.p_type, le);
        push_u32(out, h.p_offset as u32, le);
        push_u32(out, h.p_vaddr as u32, le);
        push_u32(out, h.p_paddr as u32, le);
        push_u32(out, h.p_filesz as u32, le);
        push_u32(out, h.p_memsz as u32, le);
        push_u32(out, h.p_flags, le);
        push_u32(out, h.p_align as u32, le);
    }
    proof {
        broadcast use lemma_u32_bytes_len, lemma_u64_bytes_len;

        assert(out@ =~= old(out)@ + spec_phdr_bytes(*h, *arch));
    }
}

/// Build the whole header block of the output file as fresh bytes.
pub fn build_header_block(arch: &Arch, entry: u64, outs: &Vec<ProgramHeader>) -> (r: Vec<u8>)
    requires
        entry <= arch.spec_word_max(),
        forall|i: int| 0 <= i < outs@.len() ==> !arch.is_64 ==> outs@[i].fits_32(),
    ensures
        r@ == spec_header_block(*arch, entry, outs@),
{
    let mut out: Vec<u8> = Vec::new();
    push_ehdr(&mut out, arch, entry, outs.len() as u16);
    let mut i: usize = 0;
    while i < outs.len()
        invariant
            i <= outs@.len(),
            entry <= arch.spec_word_max(),
            forall|j: int| 0 <= j < outs@.len() ==> !arch.is_64 ==> outs@[j].fits_32(),
            out@ == spec_ehdr_bytes(*arch, entry, outs@.len() as u16) + spec_phdr_table(
                outs@.take(i as int),
                *arch,
            ),
        decreases outs@.len() - i,
    {
        push_phdr(&mut out, &outs[i], arch);
        proof {
            assert(outs@.take(i + 1).drop_last() =~= outs@.take(i as int));
            assert(outs@.take(i + 1).last() == outs@[i as int]);
            assert(out@ =~= spec_ehdr_bytes(*arch, entry, outs@.len() as u16) + spec_phdr_table(
                outs@.take(i + 1),
                *arch,
            ));
        }
        i += 1;
    }
    assert(outs@.take(outs@.len() as int) =~= outs@);
    out
}

/// What a parse of an ELF file yields: the architecture and entry point
/// from the header, and the program-header table.
pub struct SpecElf {
    /// True for a 64-bit file.
    pub is_64: bool,
    /// True for a little-endian file.
    pub is_little_endian: bool,
    /// The file type from the header.
    pub e_type: u16,
    /// The machine code from the header.
    pub machine: u16,
    /// The entry point from the header.
    pub entry: u64,
    /// The program headers, in table order.
    pub phdrs: Seq<ProgramHeader>,
}

/// The program header read from `b` at `off`.
pub open spec fn spec_parse_phdr(b: Seq<u8>, off: int, is_64: bool, le: bool) -> ProgramHeader {
    if is_64 {
        ProgramHeader {
            p_type: spec_read_u32(b.subrange(off, off + 4), le),
            p_flags: spec_read_u32(b.subrange(off + 4, off + 8), le),
            p_offset: spec_read_u64(b.subrange(off + 8, off + 16), le),
            p_vaddr: spec_read_u64(b.subrange(off + 16, off + 24), le),
            p_paddr: spec_read_u64(b.subrange(off + 24, off + 32), le),
            p_filesz: spec_read_u64(b.subrange(off + 32, off + 40), le),
            p_memsz: spec_read_u64(b.subrange(off + 40, off + 48), le),
            p_align: spec_read_u64(b.subrange(off + 48, off + 56), le),
        }
    } else {
        ProgramHeader {
            p_type: spec_read_u32(b.subrange(off, off + 4), le),
            p_offset: spec_read_u32(b.subrange(off + 4, off + 8), le) as u64,
            p_vaddr: spec_read_u32(b.subrange(off + 8, off + 12), le) as u64,
            p_paddr: spec_read_u32(b.subrange(off + 12, off + 16), le) as u64,
            p_filesz: spec_read_u32(b.subrange(off + 16, off + 20), le) as u64,
            p_memsz: spec_read_u32(b.subrange(off + 20, off + 24), le) as u64,
            p_flags: spec_read_u32(b.subrange(off + 24, off + 28), le),
            p_align: spec_read_u32(b.subrange(off + 28, off + 32), le) as u64,
        }
    }
}

/// The parse of `b` as an ELF file: `None` when the bytes are not one.
///
/// A file parses when it starts with the ELF magic number, names a valid
/// class and byte encoding, is long enough to hold the ELF header, and
/// holds its whole program-header table.
pub open spec fn spec_parse(b: Seq<u8>) -> Option<SpecElf> {
    if b.len() < 4 {
        None
    } else if !(b[0] == 0x7f && b[1] == 0x45 && b[2] == 0x4c && b[3] == 0x46) {
        None
    } else if b.len() < 6 {
        None
    } else if !(b[4] == 1 || b[4] == 2) {
        None
    } else if !(b[5] == 1 || b[5] == 2) {
        None
    } else {
        let is_64 = b[4] == 2;
        let le = b[5] == 1;
        let ehsize: int = if is_64 {
            64
        } else {
            52
        };
        let psize: int = if is_64 {
            56
        } else {
            32
        };
        if b.len() < ehsize {
            None
        } else {
            let e_phoff = spec_read_word(
                b,
                if is_64 {
                    32int
                } else {
                    28int
                },
                is_64,
                le,
            );
            let e_phnum = spec_read_u16(
                b.subrange(
                    if is_64 {
                        56int
                    } else {
                        44int
                    },
                    if is_64 {
                        58int
                    } else {
                        46int
                    },
                ),
                le,
            );
            if e_phoff + e_phnum * psize > b.len() {
                None
            } else {
                Some(
                    SpecElf {
                        is_64,
                        is_little_endian: le,
                        e_type: spec_read_u16(b.subrange(16, 18), le),
                        machine: spec_read_u16(b.subrange(18, 20), le),
                        entry: spec_read_word(b, 24, is_64, le),
                        phdrs: Seq::new(
                            e_phnum as nat,
                            |i: int| spec_parse_phdr(b, e_phoff + i * psize, is_64, le),
                        ),
                    },
                )
            }
        }
    }
}

/// A program header read back from its own 64-bit form is itself.
#[verifier::rlimit(100)]
#[verifier::spinoff_prover]
proof fn lemma_parse_phdr_round_trip_64(h: ProgramHeader, arch: Arch, b: Seq<u8>, off: int)
    requires
        arch.is_64,
        0 <= off,
        off + 56 <= b.len(),
        b.subrange(off, off + 56) == spec_phdr_bytes(h, arch),
    ensures
        spec_parse_phdr(b, off, arch.is_64, arch.is_little_endian) == h,
{
    broadcast use lemma_u32_bytes_len, lemma_u64_bytes_len;

    let le = arch.is_little_endian;
    let c = spec_phdr_bytes(h, arch);
    assert forall|k: int| off <= k < off + 56 implies #[trigger] b[k] == c[k - off] by {
        assert(b.subrange(off, off + 56)[k - off] == c[k - off]);
    }
    assert(b.subrange(off, off + 4) =~= spec_u32_bytes(h.p_type, le)) by {
    }
    assert(b.subrange(off + 4, off + 8) =~= spec_u32_bytes(h.p_flags, le)) by {
    }
    assert(b.subrange(off + 8, off + 16) =~= spec_u64_bytes(h.p_offset, le)) by {
    }
    assert(b.subrange(off + 16, off + 24) =~= spec_u64_bytes(h.p_vaddr, le)) by {
    }
    assert(b.subrange(off + 24, off + 32) =~= spec_u64_bytes(h.p_paddr, le)) by {
    }
    assert(b.subrange(off + 32, off + 40) =~= spec_u64_bytes(h.p_filesz, le)) by {
    }
    assert(b.subrange(off + 40, off + 48) =~= spec_u64_bytes(h.p_memsz, le)) by {
    }
    assert(b.subrange(off + 48, off + 56) =~= spec_u64_bytes(h.p_align, le)) by {
    }
    lemma_u32_round_trip(h.p_type, le);
    lemma_u32_round_trip(h.p_flags, le);
    lemma_u64_round_trip(h.p_offset, le);
    lemma_u64_round_trip(h.p_vaddr, le);
    lemma_u64_round_trip(h.p_paddr, le);
    lemma_u64_round_trip(h.p_filesz, le);
    lemma_u64_round_trip(h.p_memsz, le);
    lemma_u64_round_trip(h.p_align, le);
}

/// A program header read back from its own 32-bit form is itself.
#[verifier::rlimit(100)]
#[verifier::spinoff_prover]
proof fn lemma_parse_phdr_round_trip_32(h: ProgramHeader, arch: Arch, b: Seq<u8>, off: int)
    requires
        !arch.is_64,
        0 <= off,
        off + 32 <= b.len(),
        b.subrange(off, off + 32) == spec_phdr_bytes(h, arch),
        h.fits_32(),
    ensures
        spec_parse_phdr(b, off, arch.is_64, arch.is_little_endian) == h,
{
    broadcast use lemma_u32_bytes_len, lemma_u64_bytes_len;

    let le = arch.is_little_endian;
    let c = spec_phdr_bytes(h, arch);
    assert forall|k: int| off <= k < off + 32 implies #[trigger] b[k] == c[k - off] by {
        assert(b.subrange(off, off + 32)[k - off] == c[k - off]);
    }
    assert(b.subrange(off, off + 4) =~= spec_u32_bytes(h.p_type, le)) by {
    }
    assert(b.subrange(off + 4, off + 8) =~= spec_u32_bytes(h.p_offset as u32, le)) by {
    }
    assert(b.subrange(off + 8, off + 12) =~= spec_u32_bytes(h.p_vaddr as u32, le)) by {
    }
    assert(b.subrange(off + 12, off + 16) =~= spec_u32_bytes(h.p_paddr as u32, le)) by {
    }
    assert(b.subrange(off + 16, off + 20) =~= spec_u32_bytes(h.p_filesz as u32, le)) by {
    }
    assert(b.subrange(off + 20, off + 24) =~= spec_u32_bytes(h.p_memsz as u32, le)) by {
    }
    assert(b.subrange(off + 24, off + 28) =~= spec_u32_bytes(h.p_flags, le)) by {
    }
    assert(b.subrange(off + 28, off + 32) =~= spec_u32_bytes(h.p_align as u32, le)) by {
    }
    lemma_u32_round_trip(h.p_type, le);
    lemma_u32_round_trip(h.p_offset as u32, le);
    lemma_u32_round_trip(h.p_vaddr as u32, le);
    lemma_u32_round_trip(h.p_paddr as u32, le);
    lemma_u32_round_trip(h.p_filesz as u32, le);
    lemma_u32_round_trip(h.p_memsz as u32, le);
    lemma_u32_round_trip(h.p_flags, le);
    lemma_u32_round_trip(h.p_align as u32, le);
}

/// A program header read back from its own bytes is itself.
pub proof fn lemma_parse_phdr_round_trip(h: ProgramHeader, arch: Arch, b: Seq<u8>, off: int)
    requires
        0 <= off,
        off + arch.spec_phdr_size() <= b.len(),
        b.subrange(off, off + arch.spec_phdr_size()) == spec_phdr_bytes(h, arch),
        !arch.is_64 ==> h.fits_32(),
    ensures
        spec_parse_phdr(b, off, arch.is_64, arch.is_little_endian) == h,
{
    if arch.is_64 {
        lemma_parse_phdr_round_trip_64(h, arch, b, off);
    } else {
        lemma_parse_phdr_round_trip_32(h, arch, b, off);
    }
}

/// The fields that a parse reads from a serialized ELF header.
#[verifier::rlimit(100)]
#[verifier::spinoff_prover]
pub proof fn lemma_ehdr_fields(arch: Arch, entry: u64, phnum: u16, b: Seq<u8>)
    requires
        entry <= arch.spec_word_max(),
        arch.spec_ehdr_size() <= b.len(),
        b.subrange(0, arch.spec_ehdr_size()) == spec_ehdr_bytes(arch, entry, phnum),
    ensures
        b[0] == 0x7f && b[1] == 0x45 && b[2] == 0x4c && b[3] == 0x46,
        b[4] == if arch.is_64 {
            2u8
        } else {
            1u8
        },
        b[5] == if arch.is_little_endian {
            1u8
        } else {
            2u8
        },
        spec_read_u16(b.subrange(16, 18), arch.is_little_endian) == crate::phdr::ET_EXEC,
        spec_read_u16(b.subrange(18, 20), arch.is_little_endian) == arch.machine,
        spec_read_word(b, 24, arch.is_64, arch.is_little_endian) == entry,
        spec_read_word(
            b,
            if arch.is_64 {
                32int
            } else {
                28int
            },
            arch.is_64,
            arch.is_little_endian,
        ) == arch.spec_ehdr_size(),
        spec_read_word(
            b,
            if arch.is_64 {
                40int
            } else {
                32int
            },
            arch.is_64,
            arch.is_little_endian,
        ) == 0,
        spec_read_u16(
            b.subrange(
                if arch.is_64 {
                    56int
                } else {
                    44int
                },
                if arch.is_64 {
                    58int
                } else {
                    46int
                },
            ),
            arch.is_little_endian,
        ) == phnum,
        spec_read_u16(
            b.subrange(
                if arch.is_64 {
                    58int
                } else {
                    46int
                },
                if arch.is_64 {
                    60int
                } else {
                    48int
                },
            ),
            arch.is_little_endian,
        ) == 0,
        spec_read_u16(
            b.subrange(
                if arch.is_64 {
                    60int
                } else {
                    48int
                },
                if arch.is_64 {
                    62int
                } else {
                    50int
                },
            ),
            arch.is_little_endian,
        ) == 0,
{
    broadcast use lemma_u16_bytes_len, lemma_u32_bytes_len, lemma_word_bytes_len;

    let le = arch.is_little_endian;
    let w: int = if arch.is_64 {
        8
    } else {
        4
    };
    let ehsize = arch.spec_ehdr_size();
    let e = spec_ehdr_bytes(arch, entry, phnum);
    assert forall|k: int| 0 <= k < ehsize implies b[k] == e[k] by {
        assert(b.subrange(0, ehsize)[k] == e[k]);
    }
    assert(b.subrange(16, 18) =~= spec_u16_bytes(crate::phdr::ET_EXEC, le));
    assert(b.subrange(18, 20) =~= spec_u16_bytes(arch.machine, le));
    assert(b.subrange(24, 24 + w) =~= spec_word_bytes(entry, arch));
    assert(b.subrange(24 + w, 24 + 2 * w) =~= spec_word_bytes(arch.spec_ehdr_size() as u64, arch));
    assert(b.subrange(24 + 2 * w, 24 + 3 * w) =~= spec_word_bytes(0, arch));
    assert(b.subrange(28 + 3 * w, 30 + 3 * w) =~= spec_u16_bytes(arch.spec_ehdr_size() as u16, le));
    assert(b.subrange(30 + 3 * w, 32 + 3 * w) =~= spec_u16_bytes(arch.spec_phdr_size() as u16, le));
    assert(b.subrange(32 + 3 * w, 34 + 3 * w) =~= spec_u16_bytes(phnum, le));
    assert(b.subrange(34 + 3 * w, 36 + 3 * w) =~= spec_u16_bytes(0, le));
    assert(b.subrange(36 + 3 * w, 38 + 3 * w) =~= spec_u16_bytes(0, le));
    lemma_u16_round_trip(crate::phdr::ET_EXEC, le);
    lemma_u16_round_trip(arch.machine, le);
    lemma_u16_round_trip(phnum, le);
    lemma_u16_round_trip(0, le);
    if arch.is_64 {
        lemma_u64_round_trip(entry, le);
        lemma_u64_round_trip(arch.spec_ehdr_size() as u64, le);
        lemma_u64_round_trip(0, le);
    } else {
        lemma_u32_round_trip(entry as u32, le);
        lemma_u32_round_trip(arch.spec_ehdr_size() as u32, le);
        lemma_u32_round_trip(0, le);
    }
}

/// A serialized output file parses back to what was written: the same
/// architecture and entry point, the executable file type, the given
/// program headers, and no section headers.
#[verifier::rlimit(100)]
#[verifier::spinoff_prover]
pub proof fn lemma_parse_header_block(arch: Arch, entry: u64, outs: Seq<ProgramHeader>, b: Seq<u8>)
    requires
        entry <= arch.spec_word_max(),
        outs.len() <= 0xffff,
        forall|i: int| 0 <= i < outs.len() ==> !arch.is_64 ==> (#[trigger] outs[i]).fits_32(),
        arch.spec_ehdr_size() + outs.len() * arch.spec_phdr_size() <= b.len(),
        b.subrange(0, arch.spec_ehdr_size() + outs.len() * arch.spec_phdr_size())
            == spec_header_block(arch, entry, outs),
    ensures
        spec_parse(b) == Some(
            SpecElf {
                is_64: arch.is_64,
                is_little_endian: arch.is_little_endian,
                e_type: crate::phdr::ET_EXEC,
                machine: arch.machine,
                entry,
                phdrs: outs,
            },
        ),
{
    let le = arch.is_little_endian;
    let ehsize = arch.spec_ehdr_size();
    let psize = arch.spec_phdr_size();
    let n = outs.len() as int;
    let block = spec_header_block(arch, entry, outs);
    lemma_ehdr_bytes_len(arch, entry, outs.len() as u16);
    lemma_phdr_table_len(outs, arch);
    assert forall|k: int| 0 <= k < ehsize + n * psize implies b[k] == block[k] by {
        assert(b.subrange(0, ehsize + n * psize)[k] == block[k]);
    }
    assert(b.subrange(0, ehsize) =~= spec_ehdr_bytes(arch, entry, outs.len() as u16));
    lemma_ehdr_fields(arch, entry, outs.len() as u16, b);
    let parsed = spec_parse(b).unwrap();
    assert(parsed.phdrs.len() == n);
    assert forall|i: int| 0 <= i < n implies parsed.phdrs[i] == outs[i] by {
        lemma_phdr_table_slot(outs, arch, i);
        assert(b.subrange(ehsize + i * psize, ehsize + (i + 1) * psize) =~= spec_phdr_table(
            outs,
            arch,
        ).subrange(i * psize, (i + 1) * psize));
        assert(ehsize + (i + 1) * psize == ehsize + i * psize + psize) by (nonlinear_arith);
        lemma_parse_phdr_round_trip(outs[i], arch, b, ehsize + i * psize);
    }
    assert(parsed.phdrs =~= outs);
}

} // verus!
