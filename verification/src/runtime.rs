//! What programs on the machine use: output, the end of a program, and memory.

pub mod io;
pub mod process;

use crate::text;
use vstd::prelude::*;

verus! {

/// The number of the system call that writes bytes out.
pub const HECATE_SYS_WRITE: usize = 64;

/// The number of the system call that ends the program.
pub const HECATE_SYS_EXIT: usize = 93;

/// What a program ends with.
pub type ExitCode = i32;

/// A request to write bytes to a stream.
#[derive(Debug)]
pub struct SysWrite {
    pub fd: i32,
    pub bytes: Vec<u8>,
}

/// What `SysWrite` asks for.
#[verifier::ext_equal]
pub ghost struct WriteModel {
    pub fd: i32,
    pub bytes: Seq<u8>,
}

impl View for SysWrite {
    type V = WriteModel;

    open spec fn view(&self) -> WriteModel {
        WriteModel { fd: self.fd, bytes: self.bytes@ }
    }
}

/// The views of a list of writes.
pub open spec fn views(writes: Seq<SysWrite>) -> Seq<WriteModel> {
    writes.map_values(|write: SysWrite| write@)
}

/// A request to end the program.
#[derive(Debug, Clone, Copy, PartialEq, Eq, Structural)]
pub struct SysExit {
    pub code: i32,
}

/// A write of `bytes` to the output stream.
pub open spec fn to_stdout(bytes: Seq<u8>) -> WriteModel {
    WriteModel { fd: 1, bytes }
}

/// A write of `bytes` to the error stream.
pub open spec fn to_stderr(bytes: Seq<u8>) -> WriteModel {
    WriteModel { fd: 2, bytes }
}

/// The bytes of a text in UTF-8.
pub open spec fn utf8(text: Seq<char>) -> Seq<u8> {
    vstd::utf8::encode_utf8(text)
}

/// A line break.
pub open spec fn newline() -> Seq<u8> {
    seq![10u8]
}

/// Asks to write `bytes` to the output stream.
pub fn write_stdout(bytes: &[u8]) -> (write: SysWrite)
    ensures
        write@ == to_stdout(bytes@),
{
    SysWrite { fd: 1, bytes: crate::vm::copy_bytes(bytes) }
}

/// Asks to write `bytes` to the error stream.
pub fn write_stderr(bytes: &[u8]) -> (write: SysWrite)
    ensures
        write@ == to_stderr(bytes@),
{
    SysWrite { fd: 2, bytes: crate::vm::copy_bytes(bytes) }
}

/// Asks to write a text and a line break.
pub fn puts(s: &str) -> (writes: Vec<SysWrite>)
    ensures
        views(writes@) == seq![to_stdout(utf8(s@)), to_stdout(newline())],
{
    let line_end: Vec<u8> = vec![10];
    let writes = vec![write_stdout(s.as_bytes()), write_stdout(line_end.as_slice())];
    assert(line_end@ == newline());
    assert(views(writes@) == seq![to_stdout(utf8(s@)), to_stdout(newline())]);
    writes
}

/// Asks to end the program.
pub fn exit(code: i32) -> (end: SysExit)
    ensures
        end.code == code,
{
    SysExit { code }
}

/// The output stream as a place to write text to.
#[derive(Debug)]
pub struct Console;

impl Console {
    /// Asks to write a text.
    pub fn write_str(&mut self, s: &str) -> (write: SysWrite)
        ensures
            write@ == to_stdout(utf8(s@)),
    {
        write_stdout(s.as_bytes())
    }
}

/// Asks to write a text that comes in pieces, one write for each.
pub fn print(pieces: &Vec<String>) -> (writes: Vec<SysWrite>)
    ensures
        writes@.len() == pieces@.len(),
        forall|i: int|
            0 <= i < writes@.len() ==> (#[trigger] writes@[i])@ == to_stdout(utf8(pieces@[i]@)),
{
    let mut console = Console;
    let mut writes: Vec<SysWrite> = Vec::new();
    let mut next: usize = 0;
    while next < pieces.len()
        invariant
            next <= pieces@.len(),
            writes@.len() == next,
            forall|i: int|
                0 <= i < writes@.len() ==> (#[trigger] writes@[i])@ == to_stdout(
                    utf8(pieces@[i]@),
                ),
        decreases pieces@.len() - next,
    {
        writes.push(console.write_str(pieces[next].as_str()));
        next = next + 1;
    }
    writes
}

/// The bytes of a number in decimal.
pub open spec fn decimal(n: nat) -> Seq<u8> {
    text::dec(n).map_values(|c: char| c as u8)
}

/// The byte of a digit.
proof fn lemma_digit_byte(d: int)
    requires
        0 <= d < 10,
    ensures
        text::digit(d) as u8 == 48 + d,
{
    reveal_strlit("0123456789abcdef");
}

fn decimal_bytes(value: u32) -> (bytes: Vec<u8>)
    ensures
        bytes@ == decimal(value as nat),
    decreases value,
{
    let low: u32 = value % 10;
    proof {
        lemma_digit_byte(low as int);
    }
    if value < 10 {
        let bytes: Vec<u8> = vec![48 + low as u8];
        assert(bytes@ == decimal(value as nat));
        bytes
    } else {
        let mut bytes = decimal_bytes(value / 10);
        bytes.push(48 + low as u8);
        assert(bytes@ == decimal(value as nat));
        bytes
    }
}

/// Asks to write a number in decimal.
pub fn write_u32(value: u32) -> (write: SysWrite)
    ensures
        write@ == to_stdout(decimal(value as nat)),
{
    write_stdout(decimal_bytes(value).as_slice())
}

/// The writes of a number: its sign if it is negative, then its digits.
pub open spec fn signed_writes(value: int) -> Seq<WriteModel> {
    let digits = to_stdout(
        decimal(
            (if value < 0 {
                -value
            } else {
                value
            }) as nat,
        ),
    );
    if value < 0 {
        seq![to_stdout(seq![45u8]), digits]
    } else {
        seq![digits]
    }
}

/// Asks to write a number in decimal, behind its sign if it is negative.
pub fn write_i32(value: i32) -> (writes: Vec<SysWrite>)
    ensures
        views(writes@) == signed_writes(value as int),
{
    if value < 0 {
        let sign: Vec<u8> = vec![45];
        let digits = write_u32((-(value as i64)) as u32);
        let writes = vec![write_stdout(sign.as_slice()), digits];
        assert(sign@ == seq![45u8]);
        assert(views(writes@) == signed_writes(value as int));
        writes
    } else {
        let writes = vec![write_u32(value as u32)];
        assert(views(writes@) == signed_writes(value as int));
        writes
    }
}

/// How a program ends: with a code, behind some last output.
#[derive(Debug)]
pub struct MainEnd {
    pub code: ExitCode,
    pub writes: Vec<SysWrite>,
}

/// What `MainEnd` says.
#[verifier::ext_equal]
pub ghost struct EndModel {
    pub code: ExitCode,
    pub writes: Seq<WriteModel>,
}

impl View for MainEnd {
    type V = EndModel;

    open spec fn view(&self) -> EndModel {
        EndModel { code: self.code, writes: views(self.writes@) }
    }
}

/// What the main function of a program may return.
pub trait MainReturn: Sized {
    /// How a program ends that returned this.
    spec fn end(self) -> EndModel;

    fn into_exit_code(self) -> (end: MainEnd)
        ensures
            end@ == self.end(),
    ;
}

impl MainReturn for () {
    /// With success.
    open spec fn end(self) -> EndModel {
        EndModel { code: 0, writes: Seq::empty() }
    }

    fn into_exit_code(self) -> MainEnd {
        MainEnd { code: 0, writes: Vec::new() }
    }
}

impl MainReturn for ExitCode {
    /// With this code.
    open spec fn end(self) -> EndModel {
        EndModel { code: self, writes: Seq::empty() }
    }

    fn into_exit_code(self) -> MainEnd {
        MainEnd { code: self, writes: Vec::new() }
    }
}

/// The text that stands for an error in debugging, in the pieces in which it is formatted.
#[derive(Debug)]
pub struct DebugText {
    pub pieces: Vec<String>,
}

/// The views of the pieces of a text.
pub open spec fn piece_views(pieces: Seq<String>) -> Seq<Seq<char>> {
    pieces.map_values(|piece: String| piece@)
}

/// A write to the output stream for each piece of a text.
pub open spec fn piece_writes(pieces: Seq<Seq<char>>) -> Seq<WriteModel> {
    pieces.map_values(|piece: Seq<char>| to_stdout(utf8(piece)))
}

/// The writes that tell an error: one for each piece of its text, between one for what stands in
/// front and one for the end of the line.
pub open spec fn error_writes(error: Seq<Seq<char>>) -> Seq<WriteModel> {
    piece_writes(seq!["main error: "@] + error + seq!["\n"@])
}

impl<T: MainReturn> MainReturn for Result<T, DebugText> {
    /// As the value says; an error is told and ends the program with the code 1.
    open spec fn end(self) -> EndModel {
        match self {
            Ok(value) => value.end(),
            Err(error) => EndModel {
                code: 1,
                writes: error_writes(piece_views(error.pieces@)),
            },
        }
    }

    fn into_exit_code(self) -> MainEnd {
        match self {
            Ok(value) => value.into_exit_code(),
            Err(error) => {
                let mut error = error;
                let ghost told = error.pieces@;
                let mut pieces: Vec<String> = vec!["main error: ".to_owned()];
                pieces.append(&mut error.pieces);
                pieces.push("\n".to_owned());
                let writes = print(&pieces);
                assert(piece_views(pieces@) == seq!["main error: "@] + piece_views(told)
                    + seq!["\n"@]);
                assert(views(writes@) == error_writes(piece_views(told)));
                MainEnd { code: 1, writes }
            },
        }
    }
}

/// The size of the heap in bytes.
pub const HEAP_SIZE: usize = 262144;

/// An allocator that hands out the heap from front to back and takes nothing back.
#[derive(Debug)]
pub struct BumpAllocator {
    pub next: usize,
}

/// The first multiple of `align` that is not below `n`.
pub open spec fn aligned_up(n: nat, align: nat) -> nat {
    if n % align == 0 {
        n
    } else {
        (n - n % align + align) as nat
    }
}

/// Whether `size` bytes at a multiple of `align` are left of the heap, of which `next` bytes
/// are taken.
pub open spec fn fits(next: nat, size: nat, align: nat) -> bool {
    size > 0 && aligned_up(next, align) + size <= HEAP_SIZE
}

impl BumpAllocator {
    /// No more than the heap is taken.
    pub open spec fn wf(&self) -> bool {
        self.next <= HEAP_SIZE
    }

    pub fn new() -> (allocator: Self)
        ensures
            allocator.next == 0,
            allocator.wf(),
    {
        BumpAllocator { next: 0 }
    }

    /// Hands out `size` bytes at a multiple of `align`; gives where they start in the heap.
    pub fn allocate(&mut self, size: usize, align: usize) -> (place: Option<usize>)
        requires
            old(self).wf(),
            align > 0,
        ensures
            final(self).wf(),
            match place {
                Some(start) => {
                    &&& fits(old(self).next as nat, size as nat, align as nat)
                    &&& start == aligned_up(old(self).next as nat, align as nat)
                    &&& final(self).next == start + size
                },
                None => {
                    &&& !fits(old(self).next as nat, size as nat, align as nat)
                    &&& final(self).next == old(self).next
                },
            },
    {
        if size == 0 {
            return None;
        }
        let over: usize = self.next % align;
        proof {
            vstd::arithmetic::div_mod::lemma_mod_decreases(self.next as nat, align as nat);
        }
        let start: usize = if over == 0 {
            self.next
        } else {
            match (self.next - over).checked_add(align) {
                Some(start) => start,
                None => return None,
            }
        };
        if start > HEAP_SIZE || size > HEAP_SIZE - start {
            return None;
        }
        self.next = start + size;
        Some(start)
    }

    /// Takes nothing back.
    pub fn deallocate(&mut self, start: usize, size: usize)
        ensures
            *final(self) == *old(self),
    {
    }
}

/// What is done when there is no memory left: tell it, and end the program with the code 1.
pub fn alloc_error() -> (end: (SysWrite, SysExit))
    ensures
        end.0@ == to_stderr(utf8("alloc error\n"@)),
        end.1.code == 1,
{
    (write_stderr("alloc error\n".as_bytes()), exit(1))
}

/// The first multiple of a number that is not below another is a multiple, and less than that
/// number away.
proof fn lemma_aligned_up(n: nat, align: nat)
    requires
        align > 0,
    ensures
        aligned_up(n, align) % align == 0,
        n <= aligned_up(n, align) < n + align,
{
    vstd::arithmetic::div_mod::lemma_fundamental_div_mod(n as int, align as int);
    vstd::arithmetic::div_mod::lemma_mod_bound(n as int, align as int);
    let q = n as int / align as int;
    if n % align != 0 {
        assert(aligned_up(n, align) == align * q + align);
        assert(align * q + align == align * (q + 1)) by (nonlinear_arith);
        vstd::arithmetic::div_mod::lemma_mod_multiples_basic(q + 1, align as int);
        assert((q + 1) * align == align * (q + 1)) by (nonlinear_arith);
    }
}

/// What an allocator hands out is a multiple of the alignment, lies in the heap, and lies
/// behind everything that was handed out before: places of two allocations, the first of which
/// left `next` bytes taken, never overlap.
pub proof fn law_allocations_apart(next: nat, size: nat, align: nat)
    requires
        align > 0,
        fits(next, size, align),
    ensures
        aligned_up(next, align) % align == 0,
        next <= aligned_up(next, align),
        aligned_up(next, align) + size <= HEAP_SIZE,
{
    lemma_aligned_up(next, align);
}

/// Programs write and end by the calls that the machine serves; output goes to the first stream
/// and errors go to the second, and each write carries its bytes.
pub proof fn law_calls_of_programs(bytes: Seq<u8>)
    ensures
        HECATE_SYS_WRITE == 64 && HECATE_SYS_WRITE == crate::machine::SYS_WRITE,
        HECATE_SYS_EXIT == 93 && HECATE_SYS_EXIT == crate::machine::SYS_EXIT,
        to_stdout(bytes).fd == 1 && to_stdout(bytes).bytes == bytes,
        to_stderr(bytes).fd == 2 && to_stderr(bytes).bytes == bytes,
        newline() == seq![10u8],
{
}

/// Numbers are written digit by digit: ten times a number and another digit are the bytes of the
/// number and the byte of that digit.
pub proof fn law_decimal_bytes(n: nat, d: int)
    requires
        0 <= d < 10,
    ensures
        decimal(d as nat) == seq![(48 + d) as u8],
        n > 0 ==> decimal(10 * n + d as nat) == decimal(n).push((48 + d) as u8),
{
    lemma_digit_byte(d);
    text::law_decimal_places(n, d);
    assert(decimal(d as nat) =~= seq![(48 + d) as u8]);
    if n > 0 {
        assert(decimal(10 * n + d as nat) =~= decimal(n).push((48 + d) as u8));
    }
}

/// A number that is not negative is one write; its opposite is the same behind a write of the
/// sign.
pub proof fn law_signed_writes(n: nat)
    ensures
        signed_writes(n as int) == seq![to_stdout(decimal(n))],
        n > 0 ==> signed_writes(-(n as int)) == seq![to_stdout(seq![45u8]), to_stdout(decimal(n))],
{
}

/// A program that returns nothing ends with success, and one that returns a code with that code,
/// without further output.
pub proof fn law_returned_codes(code: ExitCode)
    ensures
        ().end().code == 0 && ().end().writes.len() == 0,
        code.end().code == code && code.end().writes.len() == 0,
{
}

/// A program that returns an error tells it and ends with the code 1; one that returns a value
/// ends as the value says.
pub proof fn law_returned_results<T: MainReturn>(value: T, error: DebugText, i: int)
    ensures
        Ok::<T, DebugText>(value).end() == value.end(),
        ({
            let end = Err::<T, DebugText>(error).end();
            let count = error.pieces@.len() as int;
            &&& end.code == 1
            &&& end.writes.len() == count + 2
            &&& end.writes[0] == to_stdout(utf8("main error: "@))
            &&& 0 <= i < count ==> end.writes[i + 1] == to_stdout(utf8(error.pieces@[i]@))
            &&& end.writes[count + 1] == to_stdout(utf8("\n"@))
        }),
{
}

/// An allocation goes to the first place with its alignment that is not taken, and is refused if
/// it is of nothing or would not end in the heap, which has 256 KiB.
pub proof fn law_allocations_are_tight(next: nat, size: nat, align: nat, other: nat)
    requires
        align > 0,
    ensures
        HEAP_SIZE == 256 * 1024,
        other % align == 0 && next <= other ==> aligned_up(next, align) <= other,
        next % align == 0 ==> aligned_up(next, align) == next,
        fits(next, size, align) <==> size > 0 && aligned_up(next, align) + size <= 262144,
{
    lemma_aligned_up(next, align);
    if other % align == 0 && next <= other {
        let start = aligned_up(next, align);
        if other < start {
            let q = start as int / align as int;
            let p = other as int / align as int;
            vstd::arithmetic::div_mod::lemma_fundamental_div_mod(start as int, align as int);
            vstd::arithmetic::div_mod::lemma_fundamental_div_mod(other as int, align as int);
            assert(p < q) by (nonlinear_arith)
                requires
                    align * p < align * q,
                    align > 0,
            ;
            assert(align * p + align <= align * q) by (nonlinear_arith)
                requires
                    p + 1 <= q,
                    align > 0,
            ;
            assert(start >= other + align);
            assert(start < next + align);
        }
    }
}

} // verus!
