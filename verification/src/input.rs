//! Parsing and validating the input ELF file.

use vstd::prelude::*;
use vstd::seq_lib::group_to_multiset_ensures;
use crate::arch::Arch;
use crate::codec::{
    spec_parse, spec_parse_phdr, read_u16, read_u32, read_u64, read_word, SpecElf,
};
use crate::error::{BadElfError, Error, ParseFault};
use crate::layout::{Layout, LayoutStrategy};
use crate::layout::strategy::{spec_layout_ok, spec_layout_pre, spec_out_phdrs};
use crate::phdr::{key_le, sorted_by_key, ProgramHeader, ET_EXEC, PT_DYNAMIC, PT_INTERP, PT_LOAD};
use crate::PAGE_SIZE;

verus! {

/// The fields drawn from a successful parse of an ELF file.
pub struct ParsedElf {
    /// True for a 64-bit file.
    pub is_64: bool,
    /// True for a little-endian file.
    pub is_little_endian: bool,
    /// The file type from the header.
    pub e_type: u16,
    /// The machine code from the header.
    pub machine: u16,
    /// The entry point from the header.
    pub entry: u64,
    /// The program headers, in table order.
    pub phdrs: Vec<ProgramHeader>,
}

impl View for ParsedElf {
    type V = SpecElf;

    open spec fn view(&self) -> SpecElf {
        SpecElf {
            is_64: self.is_64,
            is_little_endian: self.is_little_endian,
            e_type: self.e_type,
            machine: self.machine,
            entry: self.entry,
            phdrs: self.phdrs@,
        }
    }
}

/// Read the program header at `off`.
fn read_phdr(b: &[u8], off: usize, is_64: bool, le: bool) -> (r: ProgramHeader)
    requires
        off + if is_64 {
            56int
        } else {
            32int
        } <= b.len(),
    ensures
        r == spec_parse_phdr(b@, off as int, is_64, le),
{
    if is_64 {
        ProgramHeader {
            p_type: read_u32(b, off, le),
            p_flags: read_u32(b, off + 4, le),
            p_offset: read_u64(b, off + 8, le),
            p_vaddr: read_u64(b, off + 16, le),
            p_paddr: read_u64(b, off + 24, le),
            p_filesz: read_u64(b, off + 32, le),
            p_memsz: read_u64(b, off + 40, le),
            p_align: read_u64(b, off + 48, le),
        }
    } else {
        ProgramHeader {
            p_type: read_u32(b, off, le),
            p_offset: read_u32(b, off + 4, le) as u64,
            p_vaddr: read_u32(b, off + 8, le) as u64,
            p_paddr: read_u32(b, off + 12, le) as u64,
            p_filesz: read_u32(b, off + 16, le) as u64,
            p_memsz: read_u32(b, off + 20, le) as u64,
            p_flags: read_u32(b, off + 24, le),
            p_align: read_u32(b, off + 28, le) as u64,
        }
    }
}

/// Parse `input` as an ELF file.  Succeeds exactly when the specification
/// parser does, and returns what it reads.
#[verifier::loop_isolation(false)]
pub fn parse_elf(input: &[u8]) -> (r: Result<ParsedElf, ParseFault>)
    ensures
        match r {
            Ok(p) => spec_parse(input@) == Some(p@),
            Err(_) => spec_parse(input@) is None,
        },
        r matches Ok(p) ==> !p.is_64 ==> forall|i: int|
            0 <= i < p.phdrs@.len() ==> (#[trigger] p.phdrs@[i]).fits_32(),
{
    if input.len() < 4 {
        return Err(ParseFault::BadMagic);
    }
    if !(input[0] == 0x7f && input[1] == 0x45 && input[2] == 0x4c && input[3] == 0x46) {
        return Err(ParseFault::BadMagic);
    }
    if input.len() < 6 {
        return Err(ParseFault::HeaderOutOfBounds);
    }
    let class = input[4];
    let data = input[5];
    if !(class == 1 || class == 2) {
        return Err(ParseFault::BadClass);
    }
    if !(data == 1 || data == 2) {
        return Err(ParseFault::BadEncoding);
    }
    let is_64 = class == 2;
    let le = data == 1;
    let ehsize: usize = if is_64 { 64 } else { 52 };
    if input.len() < ehsize {
        return Err(ParseFault::HeaderOutOfBounds);
    }
    let e_type = read_u16(input, 16, le);
    let machine = read_u16(input, 18, le);
    let entry = read_word(input, 24, is_64, le);
    let e_phoff = read_word(input, if is_64 { 32 } else { 28 }, is_64, le);
    let e_phnum = read_u16(input, if is_64 { 56 } else { 44 }, le);
    let psize: usize = if is_64 { 56 } else { 32 };
    let len64 = input.len() as u64;
    let table_len = (e_phnum as u64) * (psize as u64);
    if e_phoff > len64 || table_len > len64 - e_phoff {
        return Err(ParseFault::PhdrsOutOfBounds);
    }
    let ghost target = Seq::new(
        e_phnum as nat,
        |i: int| spec_parse_phdr(input@, e_phoff + i * psize, is_64, le),
    );
    let phoff = e_phoff as usize;
    let n = e_phnum as usize;
    let mut phdrs: Vec<ProgramHeader> = Vec::new();
    let mut i: usize = 0;
    while i < n
        invariant
            i <= n,
            phoff + n * psize <= input.len(),
            psize == if is_64 {
                56int
            } else {
                32int
            },
            phdrs@.len() == i,
            target.len() == n,
            forall|j: int| 0 <= j < i ==> phdrs@[j] == target[j],
        decreases n - i,
    {
        assert(phoff + i * psize + psize <= phoff + n * psize) by (nonlinear_arith)
            requires
                i < n,
                psize > 0,
        ;
        let off = phoff + i * psize;
        let h = read_phdr(input, off, is_64, le);
        phdrs.push(h);
        proof {
            assert(off as int == e_phoff + i * psize);
            assert(target[i as int] == spec_parse_phdr(input@, e_phoff + i * psize, is_64, le));
            assert(phdrs@[i as int] == target[i as int]);
        }
        i += 1;
    }
    assert(phdrs@ =~= target);
    assert forall|j: int| !is_64 && 0 <= j < phdrs@.len() implies (
    #[trigger] phdrs@[j]).fits_32() by {
        assert(phdrs@[j] == spec_parse_phdr(input@, e_phoff + j * psize, is_64, le));
    }
    Ok(ParsedElf { is_64, is_little_endian: le, e_type, machine, entry, phdrs })
}

/// True when some header of the table has the given segment type.
pub open spec fn spec_has_ptype(phdrs: Seq<ProgramHeader>, t: u32) -> bool {
    exists|i: int| 0 <= i < phdrs.len() && phdrs[i].p_type == t
}

/// True when some header of the table has the given segment type.
fn has_ptype(phdrs: &Vec<ProgramHeader>, t: u32) -> (r: bool)
    ensures
        r == spec_has_ptype(phdrs@, t),
{
    let mut i: usize = 0;
    while i < phdrs.len()
        invariant
            i <= phdrs@.len(),
            forall|j: int| 0 <= j < i ==> phdrs@[j].p_type != t,
        decreases phdrs@.len() - i,
    {
        if phdrs[i].p_type == t {
            return true;
        }
        i += 1;
    }
    false
}

/// A loadable segment the library can write: its file bytes lie inside the
/// input, it is no larger on disk than in memory, and it names an alignment.
pub open spec fn segment_ok(h: ProgramHeader, len: int) -> bool {
    &&& h.p_filesz <= h.p_memsz
    &&& h.p_align >= 1
    &&& h.p_offset + h.p_filesz <= len
}

/// The loadable headers of the table are all writable.
pub open spec fn spec_segments_ok(phdrs: Seq<ProgramHeader>, len: int) -> bool {
    forall|i: int|
        0 <= i < phdrs.len() && phdrs[i].p_type == PT_LOAD ==> segment_ok(#[trigger] phdrs[i], len)
}

/// The loadable headers are few enough that the output's program-header
/// count fits its sixteen-bit field.
pub open spec fn spec_segments_few(phdrs: Seq<ProgramHeader>) -> bool {
    phdrs.filter(|h: ProgramHeader| h.p_type == PT_LOAD).len() <= 65533
}

/// The message with which the input is rejected after a successful parse,
/// or `None` when it is accepted.
pub open spec fn spec_reject_message(e: SpecElf, len: int) -> Option<Seq<char>> {
    if e.e_type != ET_EXEC {
        Some("Elf file not an executable file."@)
    } else if spec_has_ptype(e.phdrs, PT_DYNAMIC) {
        Some("Elf file contains a dynamic array."@)
    } else if spec_has_ptype(e.phdrs, PT_INTERP) {
        Some("Elf file contains an interpretor."@)
    } else if !spec_segments_ok(e.phdrs, len) {
        Some("Elf file contains a malformed loadable segment."@)
    } else if !spec_segments_few(e.phdrs) {
        Some("Elf file contains too many loadable segments."@)
    } else {
        None
    }
}

/// An element of a filtered sequence is an element of the sequence.
proof fn lemma_filter_subset<A>(s: Seq<A>, pred: spec_fn(A) -> bool, i: int)
    requires
        0 <= i < s.filter(pred).len(),
    ensures
        s.contains(s.filter(pred)[i]),
    decreases s.len(),
{
    reveal(Seq::filter);
    broadcast use vstd::seq_lib::group_filter_ensures;

    if s.len() > 0 {
        let sub = s.drop_last().filter(pred);
        if pred(s.last()) && i == s.filter(pred).len() - 1 {
            assert(s.filter(pred)[i] == s.last());
            assert(s[s.len() - 1] == s.last());
        } else {
            lemma_filter_subset(s.drop_last(), pred, i);
            let w = choose|w: int| 0 <= w < s.drop_last().len() && s.drop_last()[w] == sub[i];
            assert(s[w] == sub[i]);
        }
    }
}

/// `a` comes no later than `b` in the (physical address, virtual address)
/// order.
fn key_le_exec(a: &ProgramHeader, b: &ProgramHeader) -> (r: bool)
    ensures
        r == key_le(*a, *b),
{
    a.p_paddr < b.p_paddr || (a.p_paddr == b.p_paddr && a.p_vaddr <= b.p_vaddr)
}

/// Sort program headers ascending by (physical address, virtual address).
#[verifier::loop_isolation(false)]
fn sort_by_key(phdr: Vec<ProgramHeader>) -> (r: Vec<ProgramHeader>)
    ensures
        sorted_by_key(r@),
        r@.to_multiset() == phdr@.to_multiset(),
        r@.len() == phdr@.len(),
        forall|i: int| 0 <= i < r@.len() ==> phdr@.contains(#[trigger] r@[i]),
{
    broadcast use group_to_multiset_ensures;

    let n = phdr.len();
    let mut out: Vec<ProgramHeader> = Vec::new();
    let mut i: usize = 0;
    while i < n
        invariant
            n == phdr@.len(),
            i <= n,
            out@.len() == i,
            sorted_by_key(out@),
            out@.to_multiset() == phdr@.take(i as int).to_multiset(),
        decreases n - i,
    {
        let h = phdr[i];
        let mut pos: usize = 0;
        let mut scanning = true;
        while scanning
            invariant
                pos <= out@.len(),
                forall|j: int| 0 <= j < pos ==> key_le(#[trigger] out@[j], h),
                !scanning ==> pos == out@.len() || !key_le(out@[pos as int], h),
            decreases out@.len() - pos + if scanning {
                1int
            } else {
                0int
            },
        {
            if pos == out.len() {
                scanning = false;
            } else if !key_le_exec(&out[pos], &h) {
                scanning = false;
            } else {
                pos += 1;
            }
        }
        assert(pos == out@.len() || !key_le(out@[pos as int], h));
        let ghost prev = out@;
        out.insert(pos, h);
        proof {
            prev.insert_ensures(pos as int, h);
            assert(out@ == prev.insert(pos as int, h));
            assert forall|a: int, b: int| 0 <= a < b < out@.len() implies key_le(
                out@[a],
                out@[b],
            ) by {
                if b < pos {
                    assert(out@[a] == prev[a] && out@[b] == prev[b]);
                    assert(key_le(prev[a], prev[b]));
                } else if a < pos && b == pos {
                    assert(out@[a] == prev[a] && out@[b] == h);
                } else if a < pos && b > pos {
                    assert(out@[a] == prev[a] && out@[b] == prev[b - 1]);
                    assert(a == b - 1 || key_le(prev[a], prev[b - 1]));
                } else if a == pos {
                    assert(out@[a] == h && out@[b] == prev[b - 1]);
                    assert(pos < prev.len());
                    assert(!key_le(prev[pos as int], h));
                    assert(key_le(h, prev[pos as int]));
                    assert(pos as int == b - 1 || key_le(prev[pos as int], prev[b - 1]));
                } else {
                    assert(out@[a] == prev[a - 1] && out@[b] == prev[b - 1]);
                    assert(key_le(prev[a - 1], prev[b - 1]));
                }
            }
            vstd::seq_lib::to_multiset_insert(prev, pos as int, h);
            assert(out@.to_multiset() == prev.to_multiset().insert(h));
            assert(phdr@.take(i + 1).drop_last() =~= phdr@.take(i as int));
            assert(phdr@.take(i + 1) =~= phdr@.take(i as int).push(h));
        }
        i += 1;
    }
    assert(phdr@.take(n as int) =~= phdr@);
    assert forall|k: int| 0 <= k < out@.len() implies phdr@.contains(#[trigger] out@[k]) by {
        assert(out@.to_multiset().count(out@[k]) > 0);
    }
    out
}


/// Adjacent loadable segments leave no more than one page between the end
/// of one and the start of the next, in physical addresses.
pub open spec fn spec_dense(s: Seq<ProgramHeader>) -> bool {
    forall|i: int|
        0 <= i < s.len() - 1 ==> (#[trigger] s[i + 1]).p_paddr - (s[i].p_paddr + s[i].p_memsz)
            <= PAGE_SIZE
}

/// Every loadable segment's physical address leaves at least one page of
/// room below it.
pub open spec fn spec_headroom(s: Seq<ProgramHeader>) -> bool {
    forall|i: int| 0 <= i < s.len() ==> (#[trigger] s[i]).p_paddr >= PAGE_SIZE
}

/// Check that adjacent segments are dense in their physical layout.
#[verifier::loop_isolation(false)]
fn verify_dense_segments(phdr: &Vec<ProgramHeader>) -> (r: Result<(), Error>)
    ensures
        r is Ok <==> spec_dense(phdr@),
        r matches Err(e) ==> e matches Error::InvalidElf { message } && message@
            == "ELF file segments are sparse with large gaps in their physical layout"@,
{
    if phdr.len() == 0 {
        return Ok(());
    }
    let mut i: usize = 0;
    while i + 1 < phdr.len()
        invariant
            i < phdr@.len(),
            forall|j: int|
                0 <= j < i ==> (#[trigger] phdr@[j + 1]).p_paddr - (phdr@[j].p_paddr
                    + phdr@[j].p_memsz) <= PAGE_SIZE,
        decreases phdr@.len() - i,
    {
        let a = phdr[i];
        let b = phdr[i + 1];
        if a.p_paddr <= u64::MAX - a.p_memsz {
            let end = a.p_paddr + a.p_memsz;
            if b.p_paddr > end && b.p_paddr - end > PAGE_SIZE {
                return Err(
                    Error::InvalidElf {
                        message:
                            "ELF file segments are sparse with large gaps in their physical layout".to_string(),
                    },
                );
            }
        }
        i += 1;
    }
    Ok(())
}

/// Check that the least physical address leaves room for the headers.
#[verifier::loop_isolation(false)]
fn verify_first_segment_not_near_zero(phdr: &Vec<ProgramHeader>) -> (r: Result<(), Error>)
    ensures
        r is Ok <==> spec_headroom(phdr@),
        r matches Err(e) ==> e matches Error::InvalidElf { message } && message@
            == "ELF file's first segment physical address does not leave room for headers"@,
{
    let mut i: usize = 0;
    while i < phdr.len()
        invariant
            i <= phdr@.len(),
            forall|j: int| 0 <= j < i ==> (#[trigger] phdr@[j]).p_paddr >= PAGE_SIZE,
        decreases phdr@.len() - i,
    {
        if phdr[i].p_paddr < PAGE_SIZE {
            return Err(
                Error::InvalidElf {
                    message:
                        "ELF file's first segment physical address does not leave room for headers".to_string(),
                },
            );
        }
        i += 1;
    }
    Ok(())
}

/// An input ELF file that satisfies the constraints for direct loading.
///
/// The constraints that the input ELF file must satisfy are:
/// * it must be an executable ELF file (not a shared library);
/// * it must contain neither a dynamic array nor an interpreter reference;
/// * every loadable segment must lie inside the file, fit its memory size,
///   and name an alignment.
#[derive(Debug)]
pub struct Input<'a> {
    /// The architecture drawn from the ELF header.
    pub arch: Arch,
    /// The entry point drawn from the ELF header.
    pub entry: u64,
    /// The loadable program headers, sorted ascending by (physical address,
    /// virtual address).
    pub phdr: Vec<ProgramHeader>,
    /// The bytes of the input file.
    pub input: &'a [u8],
}

impl<'a> Input<'a> {
    /// The headers are sorted, loadable, writable from the input bytes, and
    /// each of their fields fits an address field of the file's width.
    pub open spec fn wf(self) -> bool {
        &&& sorted_by_key(self.phdr@)
        &&& self.phdr@.len() <= 65533
        &&& self.entry <= self.arch.spec_word_max()
        &&& forall|i: int|
            0 <= i < self.phdr@.len() ==> (#[trigger] self.phdr@[i]).p_type == PT_LOAD
                && segment_ok(self.phdr@[i], self.input@.len() as int) && (!self.arch.is_64
                ==> self.phdr@[i].fits_32())
    }

    /// Create a new `Input` from the given input bytes.
    ///
    /// # Errors
    /// `new()` can return the following errors:
    /// * `Error::BadElf`: `input` is not an ELF file;
    /// * `Error::InvalidElf`: `input` does not satisfy the required
    ///   constraints.
    #[verifier::loop_isolation(false)]
    #[verifier::rlimit(100)]
    #[verifier::spinoff_prover]
    pub fn new(input: &'a [u8]) -> (r: Result<Self, Error>)
        ensures
            spec_parse(input@) is None <==> (r matches Err(e) && e is BadElf),
            spec_parse(input@) is Some ==> (match spec_reject_message(
                spec_parse(input@)->Some_0,
                input@.len() as int,
            ) {
                Some(m) => r matches Err(e) && e matches Error::InvalidElf { message } && message@
                    == m,
                None => r is Ok,
            }),
            r matches Ok(inp) ==> {
                let e = spec_parse(input@)->Some_0;
                &&& inp.wf()
                &&& inp.arch == (Arch {
                    machine: e.machine,
                    is_64: e.is_64,
                    is_little_endian: e.is_little_endian,
                })
                &&& inp.entry == e.entry
                &&& inp.input@ == input@
                &&& inp.phdr@.to_multiset() == e.phdrs.filter(
                    |h: ProgramHeader| h.p_type == PT_LOAD,
                ).to_multiset()
            },
    {
        broadcast use group_to_multiset_ensures;

        let parsed = match parse_elf(input) {
            Ok(p) => p,
            Err(fault) => {
                return Err(Error::BadElf(BadElfError { fault }));
            },
        };
        if parsed.e_type != ET_EXEC {
            return Err(
                Error::InvalidElf { message: "Elf file not an executable file.".to_string() },
            );
        }
        if has_ptype(&parsed.phdrs, PT_DYNAMIC) {
            return Err(
                Error::InvalidElf { message: "Elf file contains a dynamic array.".to_string() },
            );
        }
        if has_ptype(&parsed.phdrs, PT_INTERP) {
            return Err(
                Error::InvalidElf { message: "Elf file contains an interpretor.".to_string() },
            );
        }
        let ghost e = parsed@;
        let ghost len = input@.len() as int;
        let ghost lfilter = |h: ProgramHeader| h.p_type == PT_LOAD;
        let mut loadable: Vec<ProgramHeader> = Vec::new();
        let mut ok = true;
        let mut i: usize = 0;
        while i < parsed.phdrs.len()
            invariant
                i <= parsed.phdrs@.len(),
                len == input@.len() as int,
                lfilter == (|h: ProgramHeader| h.p_type == PT_LOAD),
                loadable@ == parsed.phdrs@.take(i as int).filter(lfilter),
                ok <==> forall|j: int|
                    0 <= j < loadable@.len() ==> segment_ok(#[trigger] loadable@[j], len),
                forall|j: int|
                    0 <= j < loadable@.len() ==> (#[trigger] loadable@[j]).p_type == PT_LOAD && (
                !parsed.is_64 ==> loadable@[j].fits_32()),
            decreases parsed.phdrs@.len() - i,
        {
            let h = parsed.phdrs[i];
            let ghost prev = loadable@;
            proof {
                reveal(Seq::filter);
                assert(parsed.phdrs@.take(i + 1).drop_last() =~= parsed.phdrs@.take(i as int));
                assert(parsed.phdrs@.take(i + 1).last() == h);
            }
            if h.p_type == PT_LOAD {
                let fits = h.p_filesz <= h.p_memsz && h.p_align >= 1 && h.p_offset
                    <= input.len() as u64 && h.p_filesz <= input.len() as u64 - h.p_offset;
                if !fits {
                    ok = false;
                }
                loadable.push(h);
                proof {
                    assert(segment_ok(h, len) == (h.p_filesz <= h.p_memsz && h.p_align >= 1
                        && h.p_offset + h.p_filesz <= len));
                    assert(forall|j: int|
                        0 <= j < prev.len() ==> #[trigger] loadable@[j] == prev[j]);
                    if !ok {
                        if fits {
                            let w = choose|w: int|
                                0 <= w < prev.len() && !segment_ok(#[trigger] prev[w], len);
                            assert(loadable@[w] == prev[w]);
                            assert(!segment_ok(loadable@[w], len));
                        } else {
                            assert(!segment_ok(loadable@[prev.len() as int], len));
                        }
                    }
                }
            }
            assert(parsed.phdrs@.take(i + 1).filter(lfilter) =~= loadable@) by {
                reveal(Seq::filter);
            }
            i += 1;
        }
        assert(parsed.phdrs@.take(parsed.phdrs@.len() as int) =~= parsed.phdrs@);
        proof {
            broadcast use vstd::seq_lib::group_filter_ensures;

            if ok {
                assert forall|j: int|
                    0 <= j < e.phdrs.len() && e.phdrs[j].p_type == PT_LOAD implies segment_ok(
                    #[trigger] e.phdrs[j],
                    len,
                ) by {
                    assert(e.phdrs.filter(lfilter).contains(e.phdrs[j]));
                    let w = choose|w: int|
                        0 <= w < loadable@.len() && loadable@[w] == e.phdrs[j];
                    assert(segment_ok(loadable@[w], len));
                }
            } else {
                let w = choose|w: int|
                    0 <= w < loadable@.len() && !segment_ok(#[trigger] loadable@[w], len);
                lemma_filter_subset(e.phdrs, lfilter, w);
                let orig = choose|oi: int|
                    0 <= oi < e.phdrs.len() && e.phdrs[oi] == loadable@[w];
                assert(e.phdrs[orig].p_type == PT_LOAD && !segment_ok(e.phdrs[orig], len));
                assert(!spec_segments_ok(e.phdrs, len));
            }
        }
        if !ok {
            return Err(
                Error::InvalidElf {
                    message: "Elf file contains a malformed loadable segment.".to_string(),
                },
            );
        }
        if loadable.len() > 65533 {
            return Err(
                Error::InvalidElf {
                    message: "Elf file contains too many loadable segments.".to_string(),
                },
            );
        }
        let ghost lseq = loadable@;
        let sorted = sort_by_key(loadable);
        proof {
            assert forall|k: int| 0 <= k < sorted@.len() implies (#[trigger] sorted@[k]).p_type
                == PT_LOAD && segment_ok(sorted@[k], len) && (!parsed.is_64
                ==> sorted@[k].fits_32()) by {
                assert(lseq.contains(sorted@[k]));
                let w = choose|w: int| 0 <= w < lseq.len() && lseq[w] == sorted@[k];
                assert(segment_ok(lseq[w], len));
            }
        }
        Ok(
            Input {
                arch: Arch {
                    machine: parsed.machine,
                    is_64: parsed.is_64,
                    is_little_endian: parsed.is_little_endian,
                },
                entry: parsed.entry,
                phdr: sorted,
                input,
            },
        )
    }

    /// Layout the output file using the given strategy for selecting the
    /// starting physical address.
    ///
    /// # Errors
    /// `layout()` can return the following errors:
    /// * `Error::InvalidElf`: `start` is `FromInput` and the input contains
    ///   sparse segments with large gaps between their physical addresses,
    ///   or leaves no room for the headers below its least physical
    ///   address; or the segments cannot be laid out within the output's
    ///   address bounds.
    pub fn layout(&'a self, start: LayoutStrategy) -> (r: Result<Layout<'a>, Error>)
        requires
            self.wf(),
        ensures
            start == LayoutStrategy::FromInput && !spec_dense(self.phdr@) ==> (r matches Err(e)
                && e matches Error::InvalidElf { message } && message@
                == "ELF file segments are sparse with large gaps in their physical layout"@),
            start == LayoutStrategy::FromInput && spec_dense(self.phdr@) && !spec_headroom(
                self.phdr@,
            ) ==> (r matches Err(e) && e matches Error::InvalidElf { message } && message@
                == "ELF file's first segment physical address does not leave room for headers"@),
            (start != LayoutStrategy::FromInput || (spec_dense(self.phdr@) && spec_headroom(
                self.phdr@,
            ))) ==> {
                &&& r is Ok <==> spec_layout_ok(start, self.phdr@, self.arch)
                &&& r matches Err(e) ==> e matches Error::InvalidElf { message } && message@
                    == "Elf file segments do not fit a valid output layout."@
            },
            r matches Ok(l) ==> {
                &&& l.spec_wf()
                &&& l.in_phdr@ == self.phdr@
                &&& l.out_phdr@ == spec_out_phdrs(start, self.phdr@, self.arch)
                &&& l.arch == self.arch
                &&& l.entry == self.entry
                &&& l.input@ == self.input@
            },
    {
        if start == LayoutStrategy::FromInput {
            match verify_dense_segments(&self.phdr) {
                Ok(_) => (),
                Err(e) => {
                    return Err(e);
                },
            }
            match verify_first_segment_not_near_zero(&self.phdr) {
                Ok(_) => (),
                Err(e) => {
                    return Err(e);
                },
            }
        }
        Layout::new(self.arch, &self.phdr, self.input, self.entry, start)
    }

}

} // verus!
