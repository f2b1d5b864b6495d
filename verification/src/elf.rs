//! Programs in ELF files.

use crate::memory::{self, HecateMemory, MemoryModel};
use crate::text;
use vstd::prelude::*;

verus! {

/// The type of a segment that is loaded into memory.
pub const LOADABLE: u32 = 1;

/// The type of a section without bytes in the file.
pub const NOBITS: u32 = 8;

/// A segment of a program: where it goes, how long it is in the file and in memory, and its
/// bytes.
#[derive(Debug)]
pub struct ElfSegment {
    pub typ: u32,
    pub vaddr: u32,
    pub filesz: u32,
    pub memsz: u32,
    pub bytes: Vec<u8>,
}

/// What `ElfSegment` says.
#[verifier::ext_equal]
pub ghost struct SegmentModel {
    pub typ: u32,
    pub vaddr: u32,
    pub filesz: u32,
    pub memsz: u32,
    pub bytes: Seq<u8>,
}

impl View for ElfSegment {
    type V = SegmentModel;

    open spec fn view(&self) -> SegmentModel {
        SegmentModel {
            typ: self.typ,
            vaddr: self.vaddr,
            filesz: self.filesz,
            memsz: self.memsz,
            bytes: self.bytes@,
        }
    }
}

/// A program: where it starts, and its segments.
#[derive(Debug)]
pub struct ElfImage {
    pub entry: u32,
    pub segments: Vec<ElfSegment>,
}

/// The number of two bytes at `at`, the low byte first.
pub open spec fn u16_at(data: Seq<u8>, at: int) -> u16 {
    (data[at] + 0x100 * data[at + 1]) as u16
}

/// The number of four bytes at `at`, the low byte first.
pub open spec fn u32_at(data: Seq<u8>, at: int) -> u32 {
    (data[at] + 0x100 * data[at + 1] + 0x1_0000 * data[at + 2] + 0x100_0000 * data[at + 3]) as u32
}

/// Whether a file can be read as a program.
#[derive(Debug, Clone, Copy, PartialEq, Eq, Structural)]
pub enum ElfVerdict {
    /// The headers are those of a program, and everything they point to is in the file.
    Accepted,
    /// A header is not as it should be, or points behind the end of the file.
    Refused,
    /// Before any fault of that kind, a header speaks of a range that ends beyond the numbers
    /// of 32 bits.
    Unaddressable,
}

/// Whether `data` starts with the header of a 32-bit executable.
pub open spec fn has_header(data: Seq<u8>) -> bool {
    &&& data.len() >= 52
    &&& data[0] == 0x7f && data[1] == 0x45 && data[2] == 0x4c && data[3] == 0x46
    &&& data[4] == 1
    &&& data[6] == 1
    &&& u16_at(data, 16) == 2
    &&& u32_at(data, 20) == 1
}

/// The offset and the length in the file of what the entry at `at` of a header table describes.
pub open spec fn range_at(data: Seq<u8>, at: int, sections: bool) -> (u32, u32) {
    if !sections {
        (u32_at(data, at + 4), u32_at(data, at + 16))
    } else if u32_at(data, at + 4) == NOBITS {
        (u32_at(data, at + 16), 0)
    } else {
        (u32_at(data, at + 16), u32_at(data, at + 20))
    }
}

/// The verdict on the entries of a header table from number `next` on.
pub open spec fn entries_verdict(
    data: Seq<u8>,
    at: int,
    entsize: int,
    num: int,
    sections: bool,
    next: int,
) -> ElfVerdict
    decreases num - next,
{
    if next >= num {
        ElfVerdict::Accepted
    } else {
        let (offset, size) = range_at(data, at + next * entsize, sections);
        if size != 0 && offset + size > u32::MAX {
            ElfVerdict::Unaddressable
        } else if size != 0 && offset + size > data.len() {
            ElfVerdict::Refused
        } else {
            entries_verdict(data, at, entsize, num, sections, next + 1)
        }
    }
}

/// The verdict on a header table at `at`; there is none if `at` is zero.
pub open spec fn table_verdict(
    data: Seq<u8>,
    at: int,
    entsize: int,
    num: int,
    sections: bool,
) -> ElfVerdict {
    let needed = if sections {
        40int
    } else {
        32
    };
    if at == 0 {
        ElfVerdict::Accepted
    } else if entsize < needed {
        ElfVerdict::Refused
    } else if at + entsize * num > u32::MAX {
        ElfVerdict::Unaddressable
    } else if at + entsize * num > data.len() {
        ElfVerdict::Refused
    } else {
        entries_verdict(data, at, entsize, num, sections, 0)
    }
}

/// The verdict on the segments of a file.
pub open spec fn segments_verdict(data: Seq<u8>) -> ElfVerdict {
    table_verdict(
        data,
        u32_at(data, 28) as int,
        u16_at(data, 42) as int,
        u16_at(data, 44) as int,
        false,
    )
}

/// The verdict on a file: the header, then the segments, then the sections.
pub open spec fn verdict(data: Seq<u8>) -> ElfVerdict {
    if !has_header(data) {
        ElfVerdict::Refused
    } else if segments_verdict(data) != ElfVerdict::Accepted {
        segments_verdict(data)
    } else {
        table_verdict(
            data,
            u32_at(data, 32) as int,
            u16_at(data, 46) as int,
            u16_at(data, 48) as int,
            true,
        )
    }
}

/// How many segments a file has.
pub open spec fn segment_count(data: Seq<u8>) -> nat {
    if u32_at(data, 28) == 0 {
        0
    } else {
        u16_at(data, 44) as nat
    }
}

/// Segment number `i` of a file.
pub open spec fn segment(data: Seq<u8>, i: int) -> SegmentModel {
    let at = u32_at(data, 28) + i * u16_at(data, 42);
    let (offset, filesz) = range_at(data, at, false);
    SegmentModel {
        typ: u32_at(data, at),
        vaddr: u32_at(data, at + 8),
        filesz,
        memsz: u32_at(data, at + 20),
        bytes: if filesz == 0 {
            Seq::empty()
        } else {
            data.subrange(offset as int, offset + filesz)
        },
    }
}

/// The address at which the program of a file starts.
pub open spec fn entry(data: Seq<u8>) -> u32 {
    u32_at(data, 24)
}

/// The complaint about a header table that is refused.
pub open spec fn table_complaint(entsize: u16, sections: bool) -> Seq<char> {
    if entsize < (if sections {
        40int
    } else {
        32
    }) {
        "headers smaller than defined in specification"@
    } else {
        "reference to data beyond end of file"@
    }
}

/// The complaint about a file that is refused: the first fault counts.
pub open spec fn elf_complaint(data: Seq<u8>) -> Seq<char> {
    if data.len() < 52 {
        "file too short to contain headers"@
    } else if !(data[0] == 0x7f && data[1] == 0x45 && data[2] == 0x4c && data[3] == 0x46) {
        "magic mismatch, likely not an ELF"@
    } else if data[6] != 1 {
        "unsupported version "@ + text::dec(data[6] as nat)
    } else if data[4] != 1 {
        "only 32-bit class supported"@
    } else if u32_at(data, 20) != 1 {
        "unsupported version "@ + text::dec(u32_at(data, 20) as nat)
    } else if u16_at(data, 16) != 2 {
        "unsupported type "@ + text::dec(u16_at(data, 16) as nat)
    } else if segments_verdict(data) != ElfVerdict::Accepted {
        table_complaint(u16_at(data, 42), false)
    } else {
        table_complaint(u16_at(data, 46), true)
    }
}

/// Calls `rvsim::elf::Elf32::parse` and copies out what the program needs.
///
/// Claimed: which files are accepted, what entry point and segments come out, and the complaint
/// about a file that is refused, as the file lays its numbers out on a little-endian machine.
/// Files whose ranges do not fit into 32 bits are left out: `rvsim` adds their ends up without a
/// check.
#[verifier::external_body]
fn parse_elf(data: &[u8]) -> (result: Result<ElfImage, String>)
    requires
        verdict(data@) != ElfVerdict::Unaddressable,
    ensures
        result is Ok <==> verdict(data@) == ElfVerdict::Accepted,
        match result {
            Ok(image) => {
                &&& image.entry == entry(data@)
                &&& image.segments@.len() == segment_count(data@)
                &&& forall|i: int|
                    0 <= i < image.segments@.len() ==> (#[trigger] image.segments@[i])@ == segment(
                        data@,
                        i,
                    )
            },
            Err(complaint) => complaint@ == elf_complaint(data@),
        },
{
    let elf = rvsim::elf::Elf32::parse(data)?;
    let parts = elf.ph.iter().zip(elf.p.iter());
    let segments = parts.map(
        |(ph, part)|
            ElfSegment {
                typ: u32::from_le(ph.typ),
                vaddr: u32::from_le(ph.vaddr),
                filesz: u32::from_le(ph.filesz),
                memsz: u32::from_le(ph.memsz),
                bytes: part.to_vec(),
            },
    ).collect();
    Ok(ElfImage { entry: u32::from_le(elf.header.entry), segments })
}

fn get_u16(data: &[u8], at: usize) -> (value: u16)
    requires
        at + 2 <= data@.len(),
    ensures
        value == u16_at(data@, at as int),
{
    data[at] as u16 + 0x100 * data[at + 1] as u16
}

fn get_u32(data: &[u8], at: usize) -> (value: u32)
    requires
        at + 4 <= data@.len(),
    ensures
        value == u32_at(data@, at as int),
{
    data[at] as u32 + 0x100 * data[at + 1] as u32 + 0x1_0000 * data[at + 2] as u32 + 0x100_0000
        * data[at + 3] as u32
}

fn get_range(data: &[u8], at: usize, sections: bool) -> (range: (u32, u32))
    requires
        at + (if sections {
            40int
        } else {
            32
        }) <= data.len(),
    ensures
        range == range_at(data@, at as int, sections),
{
    if !sections {
        (get_u32(data, at + 4), get_u32(data, at + 16))
    } else if get_u32(data, at + 4) == NOBITS {
        (get_u32(data, at + 16), 0)
    } else {
        (get_u32(data, at + 16), get_u32(data, at + 20))
    }
}

fn check_table(data: &[u8], at: u32, entsize: u16, num: u16, sections: bool) -> (found: ElfVerdict)
    ensures
        found == table_verdict(data@, at as int, entsize as int, num as int, sections),
{
    if at == 0 {
        return ElfVerdict::Accepted;
    }
    let needed: u16 = if sections {
        40
    } else {
        32
    };
    if entsize < needed {
        return ElfVerdict::Refused;
    }
    proof {
        assert(0 <= entsize * num <= 0xffff * 0xffff) by (nonlinear_arith)
            requires
                0 <= entsize <= 0xffff,
                0 <= num <= 0xffff,
        ;
    }
    let end: u64 = at as u64 + entsize as u64 * num as u64;
    if end > u32::MAX as u64 {
        return ElfVerdict::Unaddressable;
    }
    if end > data.len() as u64 {
        return ElfVerdict::Refused;
    }
    let mut next: u16 = 0;
    let mut here: usize = at as usize;
    while next < num
        invariant
            next <= num,
            here == at + next * entsize,
            at + entsize * num <= data@.len(),
            at + entsize * num <= u32::MAX,
            entsize >= (if sections {
                40int
            } else {
                32
            }),
            entries_verdict(data@, at as int, entsize as int, num as int, sections, next as int)
                == table_verdict(data@, at as int, entsize as int, num as int, sections),
        decreases num - next,
    {
        proof {
            assert(next * entsize + entsize <= entsize * num) by (nonlinear_arith)
                requires
                    0 <= next < num,
                    0 <= entsize,
            ;
            assert((next + 1) * entsize == next * entsize + entsize) by (nonlinear_arith);
        }
        let (offset, size) = get_range(data, here, sections);
        if size != 0 {
            let last: u64 = offset as u64 + size as u64;
            if last > u32::MAX as u64 {
                return ElfVerdict::Unaddressable;
            }
            if last > data.len() as u64 {
                return ElfVerdict::Refused;
            }
        }
        here = here + entsize as usize;
        next = next + 1;
    }
    ElfVerdict::Accepted
}

/// Whether a file can be read as a program.
pub fn check_elf(data: &[u8]) -> (found: ElfVerdict)
    ensures
        found == verdict(data@),
{
    if data.len() < 52 {
        return ElfVerdict::Refused;
    }
    let magic: bool = data[0] == 0x7f && data[1] == 0x45 && data[2] == 0x4c && data[3] == 0x46;
    if !magic || data[4] != 1 || data[6] != 1 || get_u16(data, 16) != 2 || get_u32(data, 20) != 1 {
        return ElfVerdict::Refused;
    }
    let segments = check_table(
        data,
        get_u32(data, 28),
        get_u16(data, 42),
        get_u16(data, 44),
        false,
    );
    if segments != ElfVerdict::Accepted {
        return segments;
    }
    check_table(data, get_u32(data, 32), get_u16(data, 46), get_u16(data, 48), true)
}

/// Memory after a segment was put into it: its bytes, and zeros up to its length in memory.
pub open spec fn placed(memory: MemoryModel, segment: SegmentModel) -> MemoryModel {
    let with_bytes = memory.write_raw(segment.vaddr, segment.bytes);
    if segment.typ != LOADABLE {
        memory
    } else if segment.memsz > segment.filesz {
        with_bytes.write_raw(
            memory::wrap32(segment.vaddr, segment.filesz as int),
            memory::zeros((segment.memsz - segment.filesz) as u32),
        )
    } else {
        with_bytes
    }
}

/// Puts a segment into memory.
fn place(segment: &ElfSegment, memory: &mut HecateMemory)
    ensures
        final(memory)@ == placed(old(memory)@, segment@),
{
    if segment.typ != LOADABLE {
        return;
    }
    memory.write_bytes_raw(segment.vaddr, segment.bytes.as_slice());
    if segment.memsz > segment.filesz {
        memory.zero_fill(
            segment.vaddr.wrapping_add(segment.filesz),
            segment.memsz - segment.filesz,
        );
    }
}

/// Memory after the first `count` segments of a file were put into it.
pub open spec fn loaded(memory: MemoryModel, data: Seq<u8>, count: nat) -> MemoryModel
    decreases count,
{
    if count == 0 {
        memory
    } else {
        placed(loaded(memory, data, (count - 1) as nat), segment(data, count - 1))
    }
}

/// Why a program could not be loaded.
#[derive(Debug)]
pub enum ElfError {
    /// The file is not a program, for this reason.
    Refused(String),
    /// The file speaks of ranges that end beyond the numbers of 32 bits.
    Unaddressable,
}

/// Puts the program of a file into memory; gives the address at which it starts.
pub fn load_elf_bytes(data: &[u8], memory: &mut HecateMemory) -> (result: Result<u32, ElfError>)
    ensures
        match verdict(data@) {
            ElfVerdict::Accepted => {
                &&& result == Ok::<u32, ElfError>(entry(data@))
                &&& final(memory)@ == loaded(old(memory)@, data@, segment_count(data@))
            },
            ElfVerdict::Refused => {
                &&& result matches Err(ElfError::Refused(complaint)) && complaint@ == elf_complaint(
                    data@,
                )
                &&& final(memory)@ == old(memory)@
            },
            ElfVerdict::Unaddressable => {
                &&& result matches Err(ElfError::Unaddressable)
                &&& final(memory)@ == old(memory)@
            },
        },
{
    if check_elf(data) == ElfVerdict::Unaddressable {
        return Err(ElfError::Unaddressable);
    }
    let image = match parse_elf(data) {
        Ok(image) => image,
        Err(complaint) => return Err(ElfError::Refused(complaint)),
    };
    let mut next: usize = 0;
    while next < image.segments.len()
        invariant
            next <= image.segments@.len(),
            image.segments@.len() == segment_count(data@),
            forall|i: int|
                0 <= i < image.segments@.len() ==> (#[trigger] image.segments@[i])@ == segment(
                    data@,
                    i,
                ),
            memory@ == loaded(old(memory)@, data@, next as nat),
        decreases image.segments@.len() - next,
    {
        place(&image.segments[next], memory);
        next = next + 1;
    }
    Ok(image.entry)
}

/// Numbers in a file stand with their lowest byte first.
pub proof fn law_numbers_in_files(data: Seq<u8>, at: int, half: u16, word: u32)
    ensures
        data[at] == half % 256 && data[at + 1] == half / 256 ==> u16_at(data, at) == half,
        data[at] == word % 256 && data[at + 1] == word / 0x100 % 256 && data[at + 2] == word
            / 0x1_0000 % 256 && data[at + 3] == word / 0x100_0000 ==> u32_at(data, at) == word,
{
}

/// A file is refused if it is too short for a header, if the header does not start as it should,
/// is not that of a file of 32 bits in the first version, or is not that of a program.
pub proof fn law_headers(data: Seq<u8>)
    ensures
        data.len() < 52 ==> verdict(data) == ElfVerdict::Refused,
        data[0] != 0x7f || data[1] != 'E' as int || data[2] != 'L' as int || data[3] != 'F' as int
            ==> verdict(data) == ElfVerdict::Refused,
        data[4] != 1 || data[6] != 1 ==> verdict(data) == ElfVerdict::Refused,
        data[16] != 2 || data[17] != 0 ==> verdict(data) == ElfVerdict::Refused,
        data[20] != 1 || data[21] != 0 || data[22] != 0 || data[23] != 0 ==> verdict(data)
            == ElfVerdict::Refused,
        verdict(data) == ElfVerdict::Unaddressable ==> data.len() >= 52 && data[0] == 0x7f,
{
}

/// A program with a header and without tables is accepted, has no segments, and starts where its
/// header says.
pub proof fn law_programs_without_tables(data: Seq<u8>)
    requires
        data.len() >= 52,
        data[0] == 0x7f && data[1] == 'E' as int && data[2] == 'L' as int && data[3] == 'F' as int,
        data[4] == 1 && data[6] == 1,
        data[16] == 2 && data[17] == 0,
        data[20] == 1 && data[21] == 0 && data[22] == 0 && data[23] == 0,
        data[28] == 0 && data[29] == 0 && data[30] == 0 && data[31] == 0,
        data[32] == 0 && data[33] == 0 && data[34] == 0 && data[35] == 0,
    ensures
        verdict(data) == ElfVerdict::Accepted,
        segment_count(data) == 0,
        entry(data) == data[24] + 0x100 * data[25] + 0x1_0000 * data[26] + 0x100_0000 * data[27],
{
}

/// The first entry of a header table that speaks of bytes that are not there decides: of bytes
/// behind the last address, or behind the end of the file. Without such an entry a table is
/// accepted.
pub proof fn law_entries(
    data: Seq<u8>,
    at: int,
    entsize: int,
    num: int,
    sections: bool,
    next: int,
    bad: int,
)
    requires
        next <= bad <= num,
        forall|i: int|
            next <= i < bad ==> ({
                let (offset, size) = #[trigger] range_at(data, at + i * entsize, sections);
                size == 0 || (offset + size <= u32::MAX && offset + size <= data.len())
            }),
    ensures
        ({
            let (offset, size) = range_at(data, at + bad * entsize, sections);
            let found = entries_verdict(data, at, entsize, num, sections, next);
            &&& bad == num ==> found == ElfVerdict::Accepted
            &&& bad < num && size > 0 && offset + size > u32::MAX ==> found
                == ElfVerdict::Unaddressable
            &&& bad < num && size > 0 && offset + size <= u32::MAX && offset + size > data.len()
                ==> found == ElfVerdict::Refused
        }),
    decreases bad - next,
{
    if next < bad {
        let (offset, size) = range_at(data, at + next * entsize, sections);
        assert(size == 0 || (offset + size <= u32::MAX && offset + size <= data.len()));
        law_entries(data, at, entsize, num, sections, next + 1, bad);
    }
}

/// A header table has entries of a least size, and lies in the file as a whole; one at offset zero
/// is none.
pub proof fn law_tables(data: Seq<u8>, at: int, entsize: int, num: int)
    ensures
        table_verdict(data, 0, entsize, num, true) == ElfVerdict::Accepted,
        table_verdict(data, 0, entsize, num, false) == ElfVerdict::Accepted,
        at != 0 && entsize < 32 ==> table_verdict(data, at, entsize, num, false)
            == ElfVerdict::Refused,
        at != 0 && entsize < 40 ==> table_verdict(data, at, entsize, num, true)
            == ElfVerdict::Refused,
        at != 0 && entsize >= 32 && at + entsize * num > u32::MAX ==> table_verdict(
            data,
            at,
            entsize,
            num,
            false,
        ) == ElfVerdict::Unaddressable,
        at != 0 && entsize >= 40 && at + entsize * num > u32::MAX ==> table_verdict(
            data,
            at,
            entsize,
            num,
            true,
        ) == ElfVerdict::Unaddressable,
        at != 0 && entsize >= 32 && data.len() < at + entsize * num <= u32::MAX ==> table_verdict(
            data,
            at,
            entsize,
            num,
            false,
        ) == ElfVerdict::Refused,
        at != 0 && entsize >= 40 && data.len() < at + entsize * num <= u32::MAX ==> table_verdict(
            data,
            at,
            entsize,
            num,
            true,
        ) == ElfVerdict::Refused,
        at != 0 && entsize >= 32 && at + entsize * num <= u32::MAX && at + entsize * num
            <= data.len() ==> table_verdict(data, at, entsize, num, false) == entries_verdict(
            data,
            at,
            entsize,
            num,
            false,
            0,
        ),
        at != 0 && entsize >= 40 && at + entsize * num <= u32::MAX && at + entsize * num
            <= data.len() ==> table_verdict(data, at, entsize, num, true) == entries_verdict(
            data,
            at,
            entsize,
            num,
            true,
            0,
        ),
{
}

/// A segment is described by an entry of the table that the header points to: its type, where its
/// bytes stand in the file, where they go in memory, and how many there are in the file and in
/// memory. A section without bytes in the file has none.
pub proof fn law_segment_fields(data: Seq<u8>, i: int)
    ensures
        ({
            let at = u32_at(data, 28) + i * u16_at(data, 42);
            let s = segment(data, i);
            let offset = u32_at(data, at + 4);
            &&& s.typ == u32_at(data, at)
            &&& s.vaddr == u32_at(data, at + 8)
            &&& s.filesz == u32_at(data, at + 16)
            &&& s.memsz == u32_at(data, at + 20)
            &&& s.filesz > 0 ==> s.bytes == data.subrange(offset as int, offset + s.filesz)
            &&& s.filesz == 0 ==> s.bytes.len() == 0
        }),
        u32_at(data, 28) != 0 ==> segment_count(data) == u16_at(data, 44),
        u32_at(data, 28) == 0 ==> segment_count(data) == 0,
        entry(data) == u32_at(data, 24),
        forall|at: int| #[trigger]
            range_at(data, at, true) == (if u32_at(data, at + 4) == 8 {
                (u32_at(data, at + 16), 0u32)
            } else {
                (u32_at(data, at + 16), u32_at(data, at + 20))
            }),
{
}

/// The words of the complaint about a file: the first thing that is wrong with it.
pub proof fn law_complaints(data: Seq<u8>)
    requires
        verdict(data) == ElfVerdict::Refused,
    ensures
        ({
            let said = elf_complaint(data);
            let magic = data[0] == 0x7f && data[1] == 'E' as int && data[2] == 'L' as int && data[3]
                == 'F' as int;
            let sound = data.len() >= 52 && magic && data[6] == 1 && data[4] == 1 && u32_at(
                data,
                20,
            ) == 1 && u16_at(data, 16) == 2;
            let bad_segments = segments_verdict(data) == ElfVerdict::Refused;
            &&& data.len() < 52 ==> said == "file too short to contain headers"@
            &&& data.len() >= 52 && !magic ==> said == "magic mismatch, likely not an ELF"@
            &&& data.len() >= 52 && magic && data[6] != 1 ==> said == "unsupported version "@
                + text::dec(data[6] as nat)
            &&& data.len() >= 52 && magic && data[6] == 1 && data[4] != 1 ==> said
                == "only 32-bit class supported"@
            &&& data.len() >= 52 && magic && data[6] == 1 && data[4] == 1 && u32_at(data, 20) != 1
                ==> said == "unsupported version "@ + text::dec(u32_at(data, 20) as nat)
            &&& data.len() >= 52 && magic && data[6] == 1 && data[4] == 1 && u32_at(data, 20) == 1
                && u16_at(data, 16) != 2 ==> said == "unsupported type "@ + text::dec(
                u16_at(data, 16) as nat,
            )
            &&& sound && bad_segments && u16_at(data, 42) < 32 ==> said
                == "headers smaller than defined in specification"@
            &&& sound && bad_segments && u16_at(data, 42) >= 32 ==> said
                == "reference to data beyond end of file"@
            &&& sound && !bad_segments && u16_at(data, 46) < 40 ==> said
                == "headers smaller than defined in specification"@
            &&& sound && !bad_segments && u16_at(data, 46) >= 40 ==> said
                == "reference to data beyond end of file"@
        }),
{
}

/// A segment that is loaded takes its whole length in memory: each of its addresses has a byte,
/// and is in use up to the last address there is. Any other segment changes nothing.
pub proof fn law_segment_is_placed(memory: MemoryModel, s: SegmentModel, k: int)
    requires
        s.bytes.len() == s.filesz,
        0 <= k < s.filesz || 0 <= k < s.memsz,
    ensures
        s.typ != 1 ==> placed(memory, s) == memory,
        s.typ == 1 ==> placed(memory, s).bytes.contains_key(memory::wrap32(s.vaddr, k)),
        s.typ == 1 && k < s.filesz ==> placed(memory, s).bytes[memory::wrap32(s.vaddr, k)]
            == s.bytes[k],
        s.typ == 1 && k >= s.filesz ==> placed(memory, s).bytes[memory::wrap32(s.vaddr, k)] == 0,
        s.typ == 1 && s.vaddr + k <= u32::MAX ==> (placed(memory, s).bounds matches Some(range)
            && range.start <= s.vaddr + k <= range.end),
        placed(memory, s).caches == memory.caches,
{
    if s.typ == 1 {
        let with_bytes = memory.write_raw(s.vaddr, s.bytes);
        let n = s.filesz as int;
        if k < n {
            memory::lemma_written_at(memory.bytes, s.vaddr, s.bytes, k);
        }
        if s.memsz > s.filesz {
            let start = memory::wrap32(s.vaddr, n);
            let fill = memory::zeros((s.memsz - s.filesz) as u32);
            memory::lemma_wrap_twice(s.vaddr, n, k - n);
            if k >= n {
                memory::lemma_written_at(with_bytes.bytes, start, fill, k - n);
            } else {
                memory::lemma_wrap_twice(s.vaddr, n, k - n + 0x1_0000_0000);
                memory::lemma_wrap_twice(s.vaddr, k, 0);
                memory::lemma_written_beside(
                    with_bytes.bytes,
                    start,
                    fill,
                    k - n + 0x1_0000_0000,
                );
            }
        }
    }
}

/// A program is loaded segment by segment.
pub proof fn law_loaded_by_segments(memory: MemoryModel, data: Seq<u8>, count: nat)
    ensures
        loaded(memory, data, 0) == memory,
        loaded(memory, data, count + 1) == placed(
            loaded(memory, data, count),
            segment(data, count as int),
        ),
{
}

} // verus!
