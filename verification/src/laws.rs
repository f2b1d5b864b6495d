//! What holds of the virtual machine as a whole.

use crate::cache::CachesModel;
use crate::cpu::{CpuModel, CpuStop};
use crate::disasm::InstructionFlow;
use crate::elf::{self, ElfVerdict, SegmentModel};
use crate::machine::{MachineModel, RunEnd};
use crate::memory::{self, MemoryBounds, MemoryModel};
use crate::stats::StatsModel;
use crate::vm::{self, ResetMemoryPolicy, StopModel, VmModel};
use vstd::prelude::*;

verus! {

/// Restoring what was saved brings a machine back, but for its breakpoints and its output,
/// whatever machine it is restored into; and saving it again gives the same.
pub proof fn law_restore_after_dump(saved: VmModel, other: VmModel)
    requires
        saved.wf(),
    ensures
        other.restored(saved.dump()) == (VmModel {
            machine: MachineModel { output: other.machine.output, ..saved.machine },
            breakpoints: other.breakpoints,
            ..saved
        }),
        other.restored(saved.dump()).dump() == saved.dump(),
        other.restored(saved.dump()).state() == saved.state(),
        saved.restored(saved.dump()) == saved,
{
    assert(saved.machine.memory.caches == saved.machine.memory.caches.retimed(
        saved.options,
        saved.config,
    ));
}

/// A machine without a program does not move, whatever it is asked to do.
pub proof fn law_halted_does_not_move(machine: VmModel, count: u64)
    requires
        machine.halted,
    ensures
        machine.stepped(count) == machine,
        machine.stepped_over() == machine,
        machine.stepped_out() == machine,
        machine.started() == machine,
        machine.ticked(count) == (VmModel { running: false, ..machine }),
        machine.paused() == (VmModel { running: false, ..machine }),
{
}

/// A machine that is not running does not move when time passes.
pub proof fn law_paused_does_not_move(machine: VmModel, quantum: u64)
    ensures
        machine.paused().ticked(quantum) == machine.paused(),
{
}

/// A program that was loaded is ready to start: counters at zero, caches empty, registers zero,
/// execution at its entry point.
pub proof fn law_loaded_is_ready(machine: VmModel, name: Seq<char>, blob: Seq<u8>)
    requires
        elf::verdict(blob) == ElfVerdict::Accepted,
    ensures
        ({
            let after = machine.after_load(name, blob);
            &&& !after.halted && !after.running
            &&& after.stop_reason == StopModel::ProgramLoaded
            &&& after.entry_point == elf::entry(blob)
            &&& after.machine.cpu == CpuModel::start(elf::entry(blob))
            &&& after.machine.stats == StatsModel::zero()
            &&& after.machine.memory.caches == CachesModel::fresh(machine.options, machine.config)
            &&& after.loaded_binary matches Some(binary) && binary.name == name && binary.bytes
                == blob
        }),
{
    lemma_loading_keeps_caches(
        MemoryModel {
            bytes: Map::empty(),
            bounds: None,
            caches: CachesModel::fresh(machine.options, machine.config),
        },
        blob,
        elf::segment_count(blob),
    );
}

/// A reset makes the loaded program ready to start again, whatever becomes of the memory.
pub proof fn law_reset_is_ready(machine: VmModel, policy: ResetMemoryPolicy, seed: u64)
    requires
        machine.loaded_binary matches Some(binary) && elf::verdict(binary.bytes)
            == ElfVerdict::Accepted,
    ensures
        ({
            let after = machine.after_reset(policy, seed);
            let blob = machine.loaded_binary->0.bytes;
            &&& !after.halted && !after.running
            &&& after.stop_reason == StopModel::ProgramLoaded
            &&& after.entry_point == elf::entry(blob)
            &&& after.machine.cpu == CpuModel::start(elf::entry(blob))
            &&& after.machine.stats == StatsModel::zero()
            &&& after.machine.memory.caches == CachesModel::fresh(machine.options, machine.config)
            &&& after.loaded_binary == machine.loaded_binary
            &&& after.breakpoints == machine.breakpoints
        }),
{
    let wiped = VmModel { running: false, ..machine.cleared() }.wiped(policy, seed);
    let blob = machine.loaded_binary->0.bytes;
    lemma_loading_keeps_caches(wiped.machine.memory, blob, elf::segment_count(blob));
}

/// A reset without a program leaves the machine without one.
pub proof fn law_reset_without_program(machine: VmModel, policy: ResetMemoryPolicy, seed: u64)
    requires
        machine.loaded_binary is None,
    ensures
        machine.after_reset(policy, seed).halted,
        !machine.after_reset(policy, seed).running,
        machine.after_reset(policy, seed).stop_reason == StopModel::NoProgramLoaded,
        machine.after_reset(policy, seed).machine.cpu == CpuModel::start(0),
        machine.after_reset(policy, seed).machine.stats == StatsModel::zero(),
{
}

/// Steps end where they should: at a halt, at a breakpoint, or with the last one complete.
pub proof fn law_steps_end(machine: VmModel, count: u64)
    requires
        !machine.halted,
    ensures
        ({
            let after = machine.stepped(count);
            after.halted || after.at_breakpoint() || after.stop_reason == StopModel::StepComplete
        }),
{
    lemma_repeated_ends(
        VmModel { running: false, ..machine },
        vm::at_least_one(count) as nat,
    );
}

proof fn lemma_repeated_ends(machine: VmModel, count: nat)
    ensures
        ({
            let after = machine.repeated(count);
            after.halted || after.at_breakpoint() || after.stop_reason == StopModel::StepComplete
        }),
    decreases count,
{
    if count > 0 {
        lemma_repeated_ends(machine.executed_for(1), (count - 1) as nat);
    }
}

/// A machine whose quota is reached does not move any more, however many steps it is asked for:
/// steps over a call and out of a function that come to the quota would never end.
pub proof fn law_spent_does_not_move(machine: VmModel, count: u64)
    requires
        machine.options.max_instructions matches Some(max) && machine.machine.stats.instret >= max,
    ensures
        machine.stepped(count).machine == machine.machine,
        machine.stepped(count).halted == machine.halted,
        machine.ticked(count).machine == machine.machine,
{
    lemma_repeated_spent(
        VmModel { running: false, ..machine },
        vm::at_least_one(count) as nat,
    );
}

proof fn lemma_repeated_spent(machine: VmModel, count: nat)
    requires
        machine.options.max_instructions matches Some(max) && machine.machine.stats.instret >= max,
    ensures
        machine.repeated(count).machine == machine.machine,
        machine.repeated(count).halted == machine.halted,
    decreases count,
{
    if count > 0 {
        lemma_repeated_spent(machine.executed_for(1), (count - 1) as nat);
    }
}

/// A step over a call that is complete stands behind the call; otherwise the machine halted,
/// came to a breakpoint, or could not get on for its quota.
pub proof fn law_step_over_ends(machine: VmModel, return_pc: u32)
    requires
        !machine.halted,
        machine.flow() == (InstructionFlow::Call { return_pc }),
    ensures
        ({
            let after = machine.stepped_over();
            ||| after.halted
            ||| after.at_breakpoint()
            ||| after.stop_reason == StopModel::QuotaReached
            ||| after.stop_reason == StopModel::StepOverComplete && after.machine.cpu.pc
                == return_pc
        }),
{
    lemma_stepped_to_ends(machine.stepped(1), return_pc);
}

proof fn lemma_stepped_to_ends(machine: VmModel, return_pc: u32)
    ensures
        ({
            let after = machine.stepped_to(return_pc);
            ||| after.halted
            ||| after.at_breakpoint()
            ||| after.stop_reason == StopModel::QuotaReached
            ||| after.stop_reason == StopModel::StepOverComplete && after.machine.cpu.pc
                == return_pc
        }),
    decreases u64::MAX - machine.machine.stats.instret,
{
    let next = machine.stepped(1);
    if !machine.halted && next.machine.stats.instret > machine.machine.stats.instret {
        lemma_stepped_to_ends(next, return_pc);
    }
}

/// A step out of a function that is complete stands at the return address, with the stack no
/// deeper than before; otherwise the machine halted, came to a breakpoint, or could not get on
/// for its quota.
pub proof fn law_step_out_ends(machine: VmModel)
    requires
        !machine.halted,
        machine.machine.cpu.x[1] != 0,
    ensures
        ({
            let after = machine.stepped_out();
            ||| after.halted
            ||| after.at_breakpoint()
            ||| after.stop_reason == StopModel::QuotaReached
            ||| after.stop_reason == StopModel::StepOutComplete && after.machine.cpu.pc
                == machine.machine.cpu.x[1] && after.machine.cpu.x[2] >= machine.machine.cpu.x[2]
        }),
{
    lemma_stepped_up_ends(machine, machine.machine.cpu.x[1], machine.machine.cpu.x[2]);
}

proof fn lemma_stepped_up_ends(machine: VmModel, return_pc: u32, sp: u32)
    ensures
        ({
            let after = machine.stepped_up(return_pc, sp);
            ||| after.halted
            ||| after.at_breakpoint()
            ||| after.stop_reason == StopModel::QuotaReached
            ||| after.stop_reason == StopModel::StepOutComplete && after.machine.cpu.pc
                == return_pc && after.machine.cpu.x[2] >= sp
        }),
    decreases u64::MAX - machine.machine.stats.instret,
{
    let next = machine.stepped(1);
    if next.machine.stats.instret > machine.machine.stats.instret {
        lemma_stepped_up_ends(next, return_pc, sp);
    }
}

/// Loading a program does not touch the caches.
pub proof fn lemma_loading_keeps_caches(memory: MemoryModel, data: Seq<u8>, count: nat)
    ensures
        elf::loaded(memory, data, count).caches == memory.caches,
    decreases count,
{
    if count > 0 {
        lemma_loading_keeps_caches(memory, data, (count - 1) as nat);
    }
}

/// Whether the bytes that one and the same action made of `before` and `other` agree where the
/// action wrote, and are untouched elsewhere.
spec fn same_writes(
    before: Map<u32, u8>,
    after: Map<u32, u8>,
    other: Map<u32, u8>,
    other_after: Map<u32, u8>,
) -> bool {
    forall|a: u32|
        #![trigger after.contains_key(a)]
        #![trigger other_after.contains_key(a)]
        (after.contains_key(a) && other_after.contains_key(a) && after[a] == other_after[a]) || (
        after.contains_key(a) == before.contains_key(a) && after[a] == before[a]
            && other_after.contains_key(a) == other.contains_key(a) && other_after[a] == other[a])
}

proof fn lemma_written_alike(
    before: Map<u32, u8>,
    base: Map<u32, u8>,
    other: Map<u32, u8>,
    other_base: Map<u32, u8>,
    addr: u32,
    data: Seq<u8>,
)
    requires
        same_writes(before, base, other, other_base),
    ensures
        same_writes(
            before,
            memory::written(base, addr, data),
            other,
            memory::written(other_base, addr, data),
        ),
    decreases data.len(),
{
    if data.len() > 0 {
        lemma_written_alike(before, base, other, other_base, addr, data.drop_last());
        let one = memory::written(base, addr, data.drop_last());
        let two = memory::written(other_base, addr, data.drop_last());
        let at = memory::wrap32(addr, data.len() - 1);
        let after = one.insert(at, data.last());
        let other_after = two.insert(at, data.last());
        assert forall|a: u32|
            #![trigger after.contains_key(a)]
            #![trigger other_after.contains_key(a)]
            (after.contains_key(a) && other_after.contains_key(a) && after[a] == other_after[a])
                || (after.contains_key(a) == before.contains_key(a) && after[a] == before[a]
                && other_after.contains_key(a) == other.contains_key(a) && other_after[a]
                == other[a]) by {
            if a != at {
                assert(one.contains_key(a) == after.contains_key(a));
                assert(two.contains_key(a) == other_after.contains_key(a));
            }
        }
    }
}

proof fn lemma_loaded_alike(one: MemoryModel, two: MemoryModel, data: Seq<u8>, count: nat)
    ensures
        same_writes(
            one.bytes,
            elf::loaded(one, data, count).bytes,
            two.bytes,
            elf::loaded(two, data, count).bytes,
        ),
    decreases count,
{
    if count > 0 {
        lemma_loaded_alike(one, two, data, (count - 1) as nat);
        let a = elf::loaded(one, data, (count - 1) as nat);
        let b = elf::loaded(two, data, (count - 1) as nat);
        let s = elf::segment(data, count - 1);
        if s.typ == elf::LOADABLE {
            lemma_written_alike(one.bytes, a.bytes, two.bytes, b.bytes, s.vaddr, s.bytes);
            if s.memsz > s.filesz {
                lemma_written_alike(
                    one.bytes,
                    memory::written(a.bytes, s.vaddr, s.bytes),
                    two.bytes,
                    memory::written(b.bytes, s.vaddr, s.bytes),
                    memory::wrap32(s.vaddr, s.filesz as int),
                    memory::zeros((s.memsz - s.filesz) as u32),
                );
            }
        }
    }
}

/// Whether `outer` has everything that `inner` has.
pub open spec fn within(inner: Option<MemoryBounds>, outer: Option<MemoryBounds>) -> bool {
    match (inner, outer) {
        (None, _) => true,
        (Some(i), Some(o)) => o.start <= i.start && i.end <= o.end,
        (Some(_), None) => false,
    }
}

/// The range in use only grows when programs are loaded, by as much whatever it was before.
proof fn lemma_loaded_bounds(one: MemoryModel, two: MemoryModel, data: Seq<u8>, count: nat)
    requires
        within(elf::loaded(one, data, count).bounds, two.bounds),
    ensures
        elf::loaded(two, data, count).bounds == two.bounds,
    decreases count,
{
    if count > 0 {
        let before = elf::loaded(one, data, (count - 1) as nat);
        let s = elf::segment(data, count - 1);
        lemma_loaded_bounds(one, two, data, (count - 1) as nat);
    }
}

/// Loading a program over itself changes nothing.
pub proof fn law_loading_again(memory: MemoryModel, data: Seq<u8>, count: nat)
    ensures
        elf::loaded(elf::loaded(memory, data, count), data, count) == elf::loaded(
            memory,
            data,
            count,
        ),
{
    let once = elf::loaded(memory, data, count);
    let twice = elf::loaded(once, data, count);
    lemma_loaded_alike(memory, once, data, count);
    assert(twice.bytes == once.bytes) by {
        assert forall|a: u32| twice.bytes.contains_key(a) == once.bytes.contains_key(a) && (
        once.bytes.contains_key(a) ==> twice.bytes[a] == once.bytes[a]) by {
            assert(once.bytes.contains_key(a) || !once.bytes.contains_key(a));
        }
    }
    lemma_loaded_bounds(memory, once, data, count);
    lemma_loading_keeps_caches(once, data, count);
}

/// A reset that leaves memory alone does nothing to a machine into which a program was just
/// loaded.
pub proof fn law_reset_after_load(machine: VmModel, name: Seq<char>, blob: Seq<u8>, seed: u64)
    requires
        elf::verdict(blob) == ElfVerdict::Accepted,
    ensures
        machine.after_load(name, blob).after_reset(ResetMemoryPolicy::Ignore, seed)
            == machine.after_load(name, blob),
{
    let empty = MemoryModel {
        bytes: Map::empty(),
        bounds: None,
        caches: CachesModel::fresh(machine.options, machine.config),
    };
    lemma_loading_keeps_caches(empty, blob, elf::segment_count(blob));
    law_loading_again(empty, blob, elf::segment_count(blob));
}

/// What is written to the machine can be read back from it, and nothing else about the machine
/// changes.
pub proof fn law_read_after_write(machine: VmModel, addr: u32, data: Seq<u8>)
    requires
        data.len() <= u32::MAX,
        machine.machine.memory.write_refusal(addr, data.len() as u32) is None,
    ensures
        ({
            let after = machine.with_memory(machine.machine.memory.write_external(addr, data));
            &&& after.machine.memory.read_external(addr, data.len() as u32) == Ok::<
                memory::ReadModel,
                memory::AccessErrorModel,
            >(memory::ReadModel::Full { addr, len: data.len() as u32, bytes: data })
            &&& after.machine.cpu == machine.machine.cpu
            &&& after.machine.stats == machine.machine.stats
            &&& after.machine.memory.bounds == machine.machine.memory.bounds
            &&& after.machine.memory.caches == machine.machine.memory.caches
            &&& after.stop_reason == machine.stop_reason
        }),
{
    memory::law_read_after_write(machine.machine.memory, addr, data);
}

/// In a file that is accepted, the entries of a header table from `next` on lie in the file.
proof fn lemma_entries_in_file(
    data: Seq<u8>,
    at: int,
    entsize: int,
    num: int,
    sections: bool,
    next: int,
    i: int,
)
    requires
        elf::entries_verdict(data, at, entsize, num, sections, next) == ElfVerdict::Accepted,
        next <= i < num,
    ensures
        ({
            let (offset, size) = elf::range_at(data, at + i * entsize, sections);
            size == 0 || offset + size <= data.len()
        }),
    decreases num - next,
{
    if next < i {
        lemma_entries_in_file(data, at, entsize, num, sections, next + 1, i);
    }
}

/// Each segment of a program that is accepted has as many bytes as its header says.
pub proof fn law_segments_are_whole(data: Seq<u8>, i: int)
    requires
        elf::verdict(data) == ElfVerdict::Accepted,
        0 <= i < elf::segment_count(data),
    ensures
        elf::segment(data, i).bytes.len() == elf::segment(data, i).filesz,
{
    let at = elf::u32_at(data, 28) as int;
    let entsize = elf::u16_at(data, 42) as int;
    let num = elf::u16_at(data, 44) as int;
    lemma_entries_in_file(data, at, entsize, num, false, 0, i);
}

/// A segment of a program that was put into memory can be read there: its bytes, and behind
/// them zeros up to its length in memory.
pub proof fn law_segment_in_memory(before: MemoryModel, data: Seq<u8>, i: int, k: int)
    requires
        elf::verdict(data) == ElfVerdict::Accepted,
        0 <= i < elf::segment_count(data),
        elf::segment(data, i).typ == elf::LOADABLE,
        0 <= k < elf::segment(data, i).filesz || elf::segment(data, i).filesz <= k < elf::segment(
            data,
            i,
        ).memsz,
    ensures
        memory::byte_at(
            elf::loaded(before, data, (i + 1) as nat).bytes,
            memory::wrap32(elf::segment(data, i).vaddr, k),
        ) == (if k < elf::segment(data, i).filesz {
            elf::segment(data, i).bytes[k]
        } else {
            0
        }),
{
    law_segments_are_whole(data, i);
    lemma_placed(elf::loaded(before, data, i as nat), elf::segment(data, i), k);
}

proof fn lemma_placed(base: MemoryModel, s: SegmentModel, k: int)
    requires
        s.bytes.len() == s.filesz,
        s.typ == elf::LOADABLE,
        0 <= k < s.filesz || s.filesz <= k < s.memsz,
    ensures
        memory::byte_at(elf::placed(base, s).bytes, memory::wrap32(s.vaddr, k)) == (if k
            < s.filesz {
            s.bytes[k]
        } else {
            0
        }),
{
    let with_bytes = memory::written(base.bytes, s.vaddr, s.bytes);
    let placed = elf::placed(base, s).bytes;
    if k < s.filesz {
        memory::lemma_written_at(base.bytes, s.vaddr, s.bytes, k);
    }
    if s.memsz > s.filesz {
        let n = s.filesz as int;
        let start = memory::wrap32(s.vaddr, n);
        let fill = memory::zeros((s.memsz - s.filesz) as u32);
        assert(placed == memory::written(with_bytes, start, fill));
        if k < n {
            memory::lemma_wrap_twice(s.vaddr, n, k - n + 0x1_0000_0000);
            memory::lemma_wrap_twice(s.vaddr, k, 0);
            memory::lemma_written_beside(with_bytes, start, fill, k - n + 0x1_0000_0000);
        } else {
            memory::lemma_wrap_twice(s.vaddr, n, k - n);
            memory::lemma_written_at(with_bytes, start, fill, k - n);
        }
    } else {
        assert(placed == with_bytes);
    }
}

/// How far `addr` lies behind `start`; addresses wrap around.
pub open spec fn distance(start: u32, addr: u32) -> int {
    (addr - start) % 0x1_0000_0000
}

/// The byte that the first `count` segments of a program put at `addr`, if they put one there:
/// a later segment covers an earlier one.
pub open spec fn program_byte(data: Seq<u8>, count: nat, addr: u32) -> Option<u8>
    decreases count,
{
    if count == 0 {
        None
    } else {
        let s = elf::segment(data, count - 1);
        match segment_byte(s, addr) {
            Some(byte) => Some(byte),
            None => program_byte(data, (count - 1) as nat, addr),
        }
    }
}

/// The byte that a segment puts at `addr`, if it puts one there.
pub open spec fn segment_byte(s: SegmentModel, addr: u32) -> Option<u8> {
    let k = distance(s.vaddr, addr);
    if s.typ == elf::LOADABLE && k < s.filesz {
        Some(s.bytes[k])
    } else if s.typ == elf::LOADABLE && k < s.memsz {
        Some(0)
    } else {
        None
    }
}

proof fn lemma_distance(start: u32, addr: u32)
    ensures
        0 <= distance(start, addr) < 0x1_0000_0000,
        memory::wrap32(start, distance(start, addr)) == addr,
{
}

/// What a segment does to an address.
proof fn lemma_placed_at(base: MemoryModel, s: SegmentModel, addr: u32)
    requires
        s.bytes.len() == s.filesz,
    ensures
        match segment_byte(s, addr) {
            Some(byte) => memory::byte_at(elf::placed(base, s).bytes, addr) == byte,
            None => {
                &&& elf::placed(base, s).bytes.contains_key(addr) == base.bytes.contains_key(addr)
                &&& elf::placed(base, s).bytes[addr] == base.bytes[addr]
            },
        },
{
    lemma_distance(s.vaddr, addr);
    if segment_byte(s, addr) is Some {
        lemma_placed(base, s, distance(s.vaddr, addr));
    } else {
        lemma_placed_beside(base, s, addr);
    }
}

/// What a segment does to an address that it does not reach: nothing.
proof fn lemma_placed_beside(base: MemoryModel, s: SegmentModel, addr: u32)
    requires
        s.bytes.len() == s.filesz,
        s.typ == elf::LOADABLE ==> distance(s.vaddr, addr) >= s.filesz && distance(s.vaddr, addr)
            >= s.memsz,
    ensures
        elf::placed(base, s).bytes.contains_key(addr) == base.bytes.contains_key(addr),
        elf::placed(base, s).bytes[addr] == base.bytes[addr],
{
    if s.typ == elf::LOADABLE {
        let k = distance(s.vaddr, addr);
        let n = s.filesz as int;
        lemma_distance(s.vaddr, addr);
        memory::lemma_written_beside(base.bytes, s.vaddr, s.bytes, k);
        if s.memsz > s.filesz {
            let with_bytes = memory::written(base.bytes, s.vaddr, s.bytes);
            let start = memory::wrap32(s.vaddr, n);
            let fill = memory::zeros((s.memsz - s.filesz) as u32);
            memory::lemma_wrap_twice(s.vaddr, n, k - n);
            memory::lemma_written_beside(with_bytes, start, fill, k - n);
        }
    }
}

/// A program that was put into memory is there, and every other address is as it was.
pub proof fn law_loaded_at(before: MemoryModel, data: Seq<u8>, count: nat, addr: u32)
    requires
        elf::verdict(data) == ElfVerdict::Accepted,
        count <= elf::segment_count(data),
    ensures
        match program_byte(data, count, addr) {
            Some(byte) => memory::byte_at(elf::loaded(before, data, count).bytes, addr) == byte,
            None => {
                &&& elf::loaded(before, data, count).bytes.contains_key(addr)
                    == before.bytes.contains_key(addr)
                &&& elf::loaded(before, data, count).bytes[addr] == before.bytes[addr]
            },
        },
    decreases count,
{
    if count > 0 {
        let base = elf::loaded(before, data, (count - 1) as nat);
        let s = elf::segment(data, count - 1);
        law_loaded_at(before, data, (count - 1) as nat, addr);
        law_segments_are_whole(data, count - 1);
        lemma_placed_at(base, s, addr);
    }
}

/// Loading a program leaves every address in use that was.
pub proof fn law_loading_keeps_range(before: MemoryModel, data: Seq<u8>, count: nat)
    ensures
        within(before.bounds, elf::loaded(before, data, count).bounds),
    decreases count,
{
    if count > 0 {
        law_loading_keeps_range(before, data, (count - 1) as nat);
    }
}

/// After a reset the program is in memory again, whatever was written over it. Of the other
/// addresses, all keep their bytes if memory is left alone; those in use read as zero if it is
/// zeroed, and have a byte if it is filled at random. What was in use still is.
pub proof fn law_reset_memory(machine: VmModel, policy: ResetMemoryPolicy, seed: u64, addr: u32)
    requires
        machine.loaded_binary matches Some(binary) && elf::verdict(binary.bytes)
            == ElfVerdict::Accepted,
    ensures
        ({
            let before = machine.machine.memory;
            let after = machine.after_reset(policy, seed).machine.memory;
            let blob = machine.loaded_binary->0.bytes;
            let used = before.bounds matches Some(range) && range.has(addr);
            &&& within(before.bounds, after.bounds)
            &&& match program_byte(blob, elf::segment_count(blob), addr) {
                Some(byte) => memory::byte_at(after.bytes, addr) == byte,
                None => match policy {
                    ResetMemoryPolicy::Zero if used => memory::byte_at(after.bytes, addr) == 0,
                    ResetMemoryPolicy::Randomize if used => after.bytes.contains_key(addr),
                    _ => {
                        &&& after.bytes.contains_key(addr) == before.bytes.contains_key(addr)
                        &&& memory::byte_at(after.bytes, addr) == memory::byte_at(
                            before.bytes,
                            addr,
                        )
                    },
                },
            }
        }),
{
    let before = machine.machine.memory;
    let blob = machine.loaded_binary->0.bytes;
    let wiped = VmModel { running: false, ..machine.cleared() }.wiped(policy, seed);
    law_loading_keeps_range(wiped.machine.memory, blob, elf::segment_count(blob));
    law_loaded_at(wiped.machine.memory, blob, elf::segment_count(blob), addr);
    if let Some(range) = before.bounds {
        memory::law_zeroed(before.bytes, range, addr);
        memory::law_randomized(
            before.bytes,
            range.start as int,
            range.end,
            memory::first_state(seed, range),
        );
    }
}

/// A reset shows the machine as it was when its program had been loaded, but for the
/// instruction, which is that at the entry point.
pub proof fn law_reset_as_loaded(
    machine: VmModel,
    loader: VmModel,
    name: Seq<char>,
    blob: Seq<u8>,
    policy: ResetMemoryPolicy,
    seed: u64,
)
    requires
        elf::verdict(blob) == ElfVerdict::Accepted,
        machine.loaded_binary == loader.after_load(name, blob).loaded_binary,
    ensures
        ({
            let reset = machine.after_reset(policy, seed).state();
            let loaded = loader.after_load(name, blob).state();
            reset == vm::StateModel {
                current_instruction: reset.current_instruction,
                ..loaded
            }
        }),
{
    law_reset_is_ready(machine, policy, seed);
    law_loaded_is_ready(loader, name, blob);
}

/// Whether `after` has the program, the settings and the breakpoints of `before`.
pub open spec fn same_setup(before: VmModel, after: VmModel) -> bool {
    &&& after.loaded_binary == before.loaded_binary
    &&& after.entry_point == before.entry_point
    &&& after.options == before.options
    &&& after.config == before.config
    &&& after.breakpoints == before.breakpoints
}

/// Steps, runs, pauses and writes leave the program, the settings and the breakpoints alone.
pub proof fn law_setup_kept(machine: VmModel, count: u64, addr: u32, data: Seq<u8>)
    ensures
        same_setup(machine, machine.stepped(count)),
        same_setup(machine, machine.stepped_over()),
        same_setup(machine, machine.stepped_out()),
        same_setup(machine, machine.ticked(count)),
        same_setup(machine, machine.started()),
        same_setup(machine, machine.paused()),
        same_setup(
            machine,
            machine.with_memory(machine.machine.memory.write_external(addr, data)),
        ),
{
    lemma_stepped_setup(machine, count);
    lemma_stepped_setup(machine, 1);
    if let InstructionFlow::Call { return_pc } = machine.flow() {
        lemma_stepped_to_setup(machine.stepped(1), return_pc);
    }
    lemma_stepped_up_setup(machine, machine.machine.cpu.x[1], machine.machine.cpu.x[2]);
}

proof fn lemma_repeated_setup(machine: VmModel, count: nat)
    ensures
        same_setup(machine, machine.repeated(count)),
    decreases count,
{
    if count > 0 {
        lemma_repeated_setup(machine.executed_for(1), (count - 1) as nat);
    }
}

proof fn lemma_stepped_setup(machine: VmModel, count: u64)
    ensures
        same_setup(machine, machine.stepped(count)),
{
    lemma_repeated_setup(
        VmModel { running: false, ..machine },
        vm::at_least_one(count) as nat,
    );
}

proof fn lemma_stepped_to_setup(machine: VmModel, return_pc: u32)
    ensures
        same_setup(machine, machine.stepped_to(return_pc)),
    decreases u64::MAX - machine.machine.stats.instret,
{
    let next = machine.stepped(1);
    lemma_stepped_setup(machine, 1);
    if next.machine.stats.instret > machine.machine.stats.instret {
        lemma_stepped_to_setup(next, return_pc);
    }
}

proof fn lemma_stepped_up_setup(machine: VmModel, return_pc: u32, sp: u32)
    ensures
        same_setup(machine, machine.stepped_up(return_pc, sp)),
    decreases u64::MAX - machine.machine.stats.instret,
{
    let next = machine.stepped(1);
    lemma_stepped_setup(machine, 1);
    if next.machine.stats.instret > machine.machine.stats.instret {
        lemma_stepped_up_setup(next, return_pc, sp);
    }
}

/// What a settled machine shows: if it is halted it is not running, without a program it is
/// halted for that reason, and a program has both a name and a digest.
pub proof fn law_state_of_settled(machine: VmModel)
    requires
        machine.settled(),
    ensures
        ({
            let state = machine.state();
            &&& state.halted ==> !state.running
            &&& state.loaded_binary_name is None ==> state.halted && state.stop_reason
                == StopModel::NoProgramLoaded
            &&& state.loaded_binary_name is Some <==> state.loaded_binary_hash is Some
        }),
{
}

/// A machine stays settled whatever it is asked to do.
pub proof fn law_settled_kept(
    machine: VmModel,
    count: u64,
    name: Seq<char>,
    blob: Seq<u8>,
    policy: ResetMemoryPolicy,
    seed: u64,
    addr: u32,
    data: Seq<u8>,
)
    requires
        machine.settled(),
    ensures
        machine.after_load(name, blob).settled(),
        machine.stepped(count).settled(),
        machine.stepped_over().settled(),
        machine.stepped_out().settled(),
        machine.started().settled(),
        machine.paused().settled(),
        machine.ticked(count).settled(),
        machine.after_reset(policy, seed).settled(),
        machine.with_memory(machine.machine.memory.write_external(addr, data)).settled(),
{
    lemma_stepped_settled(machine, count);
    lemma_stepped_settled(machine, 1);
    if let InstructionFlow::Call { return_pc } = machine.flow() {
        lemma_stepped_to_settled(machine.stepped(1), return_pc);
    }
    if !machine.halted {
        lemma_stepped_up_settled(machine, machine.machine.cpu.x[1], machine.machine.cpu.x[2]);
    }
}

proof fn lemma_repeated_settled(machine: VmModel, count: nat)
    requires
        machine.settled(),
        !machine.halted,
    ensures
        machine.repeated(count).settled(),
    decreases count,
{
    if count > 0 && !machine.executed_for(1).halted {
        lemma_repeated_settled(machine.executed_for(1), (count - 1) as nat);
    }
}

proof fn lemma_stepped_settled(machine: VmModel, count: u64)
    requires
        machine.settled(),
    ensures
        machine.stepped(count).settled(),
{
    if !machine.halted {
        lemma_repeated_settled(
            VmModel { running: false, ..machine },
            vm::at_least_one(count) as nat,
        );
    }
}

proof fn lemma_stepped_to_settled(machine: VmModel, return_pc: u32)
    requires
        machine.settled(),
    ensures
        machine.stepped_to(return_pc).settled(),
    decreases u64::MAX - machine.machine.stats.instret,
{
    let next = machine.stepped(1);
    lemma_stepped_settled(machine, 1);
    if next.machine.stats.instret > machine.machine.stats.instret {
        lemma_stepped_to_settled(next, return_pc);
    }
}

proof fn lemma_stepped_up_settled(machine: VmModel, return_pc: u32, sp: u32)
    requires
        machine.settled(),
    ensures
        machine.stepped_up(return_pc, sp).settled(),
    decreases u64::MAX - machine.machine.stats.instret,
{
    let next = machine.stepped(1);
    lemma_stepped_settled(machine, 1);
    if next.machine.stats.instret > machine.machine.stats.instret {
        lemma_stepped_up_settled(next, return_pc, sp);
    }
}

/// A machine after `n` single steps, whatever became of them.
pub open spec fn single_steps(machine: VmModel, n: nat) -> VmModel
    decreases n,
{
    if n == 0 {
        machine
    } else {
        single_steps(machine, (n - 1) as nat).stepped(1)
    }
}

/// The steps after the first one are those of the machine as the first one left it.
proof fn lemma_single_steps_on(machine: VmModel, n: nat)
    ensures
        single_steps(machine, n + 1) == single_steps(machine.stepped(1), n),
    decreases n,
{
    if n > 0 {
        lemma_single_steps_on(machine, (n - 1) as nat);
    } else {
        assert(single_steps(machine, 1) == single_steps(machine, 0).stepped(1));
    }
}

/// A step out of a function stops with the first single step after which execution stands at the
/// return address with the stack pointer at or above where it was, and says that it is complete.
/// Where a step comes earlier that halts the machine or brings it to a breakpoint, it stops with
/// that step; and with the first one that counts no instruction, for the quota.
pub proof fn law_step_out_stops_first(machine: VmModel, n: nat)
    requires
        !machine.halted,
        machine.machine.cpu.x[1] != 0,
        n > 0,
        forall|k: nat|
            1 <= k < n ==> {
                let before = single_steps(machine, (k - 1) as nat);
                let after = #[trigger] single_steps(machine, k);
                &&& !after.halted && after.stop_reason !is Breakpoint
                &&& after.machine.cpu.pc != machine.machine.cpu.x[1] || after.machine.cpu.x[2]
                    < machine.machine.cpu.x[2]
                &&& after.machine.stats.instret > before.machine.stats.instret
            },
    ensures
        ({
            let before = single_steps(machine, (n - 1) as nat);
            let after = single_steps(machine, n);
            let returned = after.machine.cpu.pc == machine.machine.cpu.x[1]
                && after.machine.cpu.x[2] >= machine.machine.cpu.x[2];
            &&& after.halted || after.stop_reason is Breakpoint ==> machine.stepped_out() == after
            &&& !after.halted && after.stop_reason !is Breakpoint && returned
                ==> machine.stepped_out() == (VmModel {
                stop_reason: StopModel::StepOutComplete,
                ..after
            })
            &&& !after.halted && after.stop_reason !is Breakpoint && !returned
                && after.machine.stats.instret <= before.machine.stats.instret
                ==> machine.stepped_out() == (VmModel {
                stop_reason: StopModel::QuotaReached,
                ..after
            })
        }),
{
    lemma_stepped_up_first(
        machine,
        machine.machine.cpu.x[1],
        machine.machine.cpu.x[2],
        n,
    );
}

proof fn lemma_stepped_up_first(machine: VmModel, return_pc: u32, sp: u32, n: nat)
    requires
        n > 0,
        forall|k: nat|
            1 <= k < n ==> {
                let before = single_steps(machine, (k - 1) as nat);
                let after = #[trigger] single_steps(machine, k);
                &&& !after.halted && after.stop_reason !is Breakpoint
                &&& after.machine.cpu.pc != return_pc || after.machine.cpu.x[2] < sp
                &&& after.machine.stats.instret > before.machine.stats.instret
            },
    ensures
        ({
            let before = single_steps(machine, (n - 1) as nat);
            let after = single_steps(machine, n);
            let returned = after.machine.cpu.pc == return_pc && after.machine.cpu.x[2] >= sp;
            let result = machine.stepped_up(return_pc, sp);
            &&& after.halted || after.stop_reason is Breakpoint ==> result == after
            &&& !after.halted && after.stop_reason !is Breakpoint && returned ==> result == (
            VmModel { stop_reason: StopModel::StepOutComplete, ..after })
            &&& !after.halted && after.stop_reason !is Breakpoint && !returned
                && after.machine.stats.instret <= before.machine.stats.instret ==> result == (
            VmModel { stop_reason: StopModel::QuotaReached, ..after })
        }),
    decreases n,
{
    let next = machine.stepped(1);
    lemma_single_steps_on(machine, 0);
    assert(single_steps(machine, 0) == machine);
    assert(single_steps(next, 0) == next);
    if n > 1 {
        let m = (n - 1) as nat;
        assert(single_steps(machine, 1) == next);
        lemma_single_steps_on(machine, m);
        lemma_single_steps_on(machine, (m - 1) as nat);
        assert forall|k: nat| 1 <= k < m implies {
            let before = single_steps(next, (k - 1) as nat);
            let after = #[trigger] single_steps(next, k);
            &&& !after.halted && after.stop_reason !is Breakpoint
            &&& after.machine.cpu.pc != return_pc || after.machine.cpu.x[2] < sp
            &&& after.machine.stats.instret > before.machine.stats.instret
        } by {
            lemma_single_steps_on(machine, k);
            lemma_single_steps_on(machine, (k - 1) as nat);
            assert(single_steps(machine, k + 1) == single_steps(next, k));
        }
        lemma_stepped_up_first(next, return_pc, sp, m);
        assert(machine.stepped_up(return_pc, sp) == next.stepped_up(return_pc, sp));
    }
}

/// A step out of a function whose return address is not known is a single step.
pub proof fn law_step_out_without_return(machine: VmModel)
    requires
        machine.machine.cpu.x[1] == 0,
    ensures
        machine.stepped_out() == machine.stepped(1),
{
}

/// A step over a call stops with the first single step after which execution stands behind the
/// call, and says that it is complete. Where a step comes earlier that halts the machine it stops
/// with that step; and, once it is in the function, with the first one that brings it to a
/// breakpoint, or that counts no instruction, for the quota.
pub proof fn law_step_over_stops_first(machine: VmModel, return_pc: u32, n: nat)
    requires
        !machine.halted,
        machine.flow() == (InstructionFlow::Call { return_pc }),
        n > 0,
        forall|k: nat|
            1 <= k < n ==> {
                let before = single_steps(machine, (k - 1) as nat);
                let after = #[trigger] single_steps(machine, k);
                &&& !after.halted
                &&& after.machine.cpu.pc != return_pc
                &&& k > 1 ==> after.stop_reason !is Breakpoint && after.machine.stats.instret
                    > before.machine.stats.instret
            },
    ensures
        ({
            let before = single_steps(machine, (n - 1) as nat);
            let after = single_steps(machine, n);
            let stopped = after.halted || (n > 1 && after.stop_reason is Breakpoint);
            &&& stopped ==> machine.stepped_over() == after
            &&& !stopped && after.machine.cpu.pc == return_pc ==> machine.stepped_over() == (
            VmModel { stop_reason: StopModel::StepOverComplete, ..after })
            &&& !stopped && after.machine.cpu.pc != return_pc && n > 1
                && after.machine.stats.instret <= before.machine.stats.instret
                ==> machine.stepped_over() == (VmModel {
                stop_reason: StopModel::QuotaReached,
                ..after
            })
        }),
{
    let next = machine.stepped(1);
    lemma_single_steps_on(machine, 0);
    assert(single_steps(machine, 0) == machine);
    assert(single_steps(next, 0) == next);
    assert(single_steps(machine, 1) == next);
    assert(machine.stepped_over() == next.stepped_to(return_pc));
    if n > 1 {
        let m = (n - 1) as nat;
        lemma_single_steps_on(machine, m);
        lemma_single_steps_on(machine, (m - 1) as nat);
        assert forall|k: nat| 0 <= k < m implies {
            let before = single_steps(next, (k - 1) as nat);
            let after = #[trigger] single_steps(next, k);
            &&& !after.halted
            &&& after.machine.cpu.pc != return_pc
            &&& k > 0 ==> after.stop_reason !is Breakpoint && after.machine.stats.instret
                > before.machine.stats.instret
        } by {
            lemma_single_steps_on(machine, k);
            assert(single_steps(machine, k + 1) == single_steps(next, k));
            if k > 0 {
                lemma_single_steps_on(machine, (k - 1) as nat);
                assert(single_steps(machine, k) == single_steps(next, (k - 1) as nat));
            }
        }
        lemma_stepped_to_first(next, return_pc, m);
    }
}

proof fn lemma_stepped_to_first(machine: VmModel, return_pc: u32, n: nat)
    requires
        n > 0,
        forall|k: nat|
            0 <= k < n ==> {
                let before = single_steps(machine, (k - 1) as nat);
                let after = #[trigger] single_steps(machine, k);
                &&& !after.halted
                &&& after.machine.cpu.pc != return_pc
                &&& k > 0 ==> after.stop_reason !is Breakpoint && after.machine.stats.instret
                    > before.machine.stats.instret
            },
    ensures
        ({
            let before = single_steps(machine, (n - 1) as nat);
            let after = single_steps(machine, n);
            let stopped = after.halted || after.stop_reason is Breakpoint;
            let result = machine.stepped_to(return_pc);
            &&& stopped ==> result == after
            &&& !stopped && after.machine.cpu.pc == return_pc ==> result == (VmModel {
                stop_reason: StopModel::StepOverComplete,
                ..after
            })
            &&& !stopped && after.machine.cpu.pc != return_pc && after.machine.stats.instret
                <= before.machine.stats.instret ==> result == (VmModel {
                stop_reason: StopModel::QuotaReached,
                ..after
            })
        }),
    decreases n,
{
    let next = machine.stepped(1);
    lemma_single_steps_on(machine, 0);
    assert(single_steps(machine, 0) == machine);
    assert(single_steps(next, 0) == next);
    if n > 1 {
        let m = (n - 1) as nat;
        assert(single_steps(machine, 1) == next);
        lemma_single_steps_on(machine, m);
        lemma_single_steps_on(machine, (m - 1) as nat);
        assert forall|k: nat| 0 <= k < m implies {
            let before = single_steps(next, (k - 1) as nat);
            let after = #[trigger] single_steps(next, k);
            &&& !after.halted
            &&& after.machine.cpu.pc != return_pc
            &&& k > 0 ==> after.stop_reason !is Breakpoint && after.machine.stats.instret
                > before.machine.stats.instret
        } by {
            lemma_single_steps_on(machine, k);
            assert(single_steps(machine, k + 1) == single_steps(next, k));
            if k > 0 {
                lemma_single_steps_on(machine, (k - 1) as nat);
                assert(single_steps(machine, k) == single_steps(next, (k - 1) as nat));
            }
        }
        lemma_stepped_to_first(next, return_pc, m);
        assert(machine.stepped_to(return_pc) == next.stepped_to(return_pc));
    }
}

/// A step over an instruction that is no call is a single step.
pub proof fn law_step_over_linear(machine: VmModel)
    requires
        machine.flow() == InstructionFlow::Linear,
    ensures
        machine.stepped_over() == machine.stepped(1),
{
}

/// Where runs of one instruction lead does not depend on the reason for the last stop.
proof fn lemma_repeated_alike(machine: VmModel, other: VmModel, count: nat)
    requires
        other == (VmModel { stop_reason: other.stop_reason, ..machine }),
    ensures
        machine.repeated(count) == other.repeated(count),
    decreases count,
{
    if count > 0 {
        assert(machine.executed_for(1) == other.executed_for(1));
    }
}

/// Several steps are single steps one after the other, as long as none of them halts the machine
/// or brings it to a breakpoint: those end the steps. To ask for none is to ask for one.
pub proof fn law_steps_are_single_steps(machine: VmModel, count: u64)
    requires
        count > 1,
    ensures
        ({
            let one = machine.stepped(1);
            &&& one.halted || one.stop_reason is Breakpoint ==> machine.stepped(count) == one
            &&& !one.halted && one.stop_reason !is Breakpoint ==> machine.stepped(count)
                == one.stepped((count - 1) as u64)
        }),
        machine.stepped(0) == machine.stepped(1),
{
    if !machine.halted {
        let start = VmModel { running: false, ..machine };
        let next = start.executed_for(1);
        let one = machine.stepped(1);
        assert(start.repeated(1) == if next.halted || next.at_breakpoint() {
            next
        } else {
            next.repeated(0)
        });
        if !next.halted && !next.at_breakpoint() {
            assert(one == (VmModel { stop_reason: StopModel::StepComplete, ..next }));
            let again = VmModel { running: false, ..one };
            assert(again == (VmModel { stop_reason: again.stop_reason, ..next }));
            lemma_repeated_alike(next, again, (count - 1) as nat);
        }
    }
}

/// A single step is a run with room for one instruction more, or up to the quota of the machine
/// if that comes first. It says that it is complete unless the run ended for another reason than
/// the room it had.
pub proof fn law_single_step(machine: VmModel)
    requires
        !machine.halted,
    ensures
        ({
            let instret = machine.machine.stats.instret;
            let room: u64 = if instret == u64::MAX {
                u64::MAX
            } else {
                (instret + 1) as u64
            };
            let cap = if machine.options.max_instructions is Some
                && machine.options.max_instructions->0 < room {
                machine.options.max_instructions->0
            } else {
                room
            };
            let (after, end) = machine.machine.driven(machine.config, cap, machine.breakpoints);
            let one = machine.stepped(1);
            &&& one.machine == after
            &&& !one.running
            &&& end == RunEnd::Exited ==> one.halted && one.stop_reason == StopModel::ProgramExited
            &&& end == RunEnd::Breakpoint ==> !one.halted && one.stop_reason == (
            StopModel::Breakpoint { pc: after.cpu.pc })
            &&& end matches RunEnd::Stopped(stop) ==> match stop {
                CpuStop::Ebreak => !one.halted && one.stop_reason == (StopModel::Breakpoint {
                    pc: after.cpu.pc,
                }),
                CpuStop::QuotaExceeded => !one.halted && one.stop_reason
                    == StopModel::StepComplete,
                _ => one.halted && one.stop_reason == (StopModel::CpuError { error: stop.text() }),
            }
        }),
{
    let start = VmModel { running: false, ..machine };
    let next = start.executed_for(1);
    assert(start.repeated(1) == if next.halted || next.at_breakpoint() {
        next
    } else {
        next.repeated(0)
    });
}

/// A tick of a running machine is a run with room for as many instructions as the quantum says,
/// one at least, or up to the quota of the machine if that comes first. The machine is still
/// running, and says so, if the run ended for the room it had alone.
pub proof fn law_tick(machine: VmModel, quantum: u64)
    requires
        !machine.halted,
        machine.running,
    ensures
        ({
            let instret = machine.machine.stats.instret;
            let wanted = if quantum == 0 {
                instret + 1
            } else {
                instret + quantum
            };
            let room: u64 = if wanted > u64::MAX {
                u64::MAX
            } else {
                wanted as u64
            };
            let cap = if machine.options.max_instructions is Some
                && machine.options.max_instructions->0 < room {
                machine.options.max_instructions->0
            } else {
                room
            };
            let (after, end) = machine.machine.driven(machine.config, cap, machine.breakpoints);
            let next = machine.ticked(quantum);
            &&& next.machine == after
            &&& end == RunEnd::Exited ==> next.halted && !next.running && next.stop_reason
                == StopModel::ProgramExited
            &&& end == RunEnd::Breakpoint ==> !next.halted && !next.running && next.stop_reason == (
            StopModel::Breakpoint { pc: after.cpu.pc })
            &&& end matches RunEnd::Stopped(stop) ==> match stop {
                CpuStop::Ebreak => !next.halted && !next.running && next.stop_reason == (
                StopModel::Breakpoint { pc: after.cpu.pc }),
                CpuStop::QuotaExceeded => !next.halted && next.running && next.stop_reason
                    == StopModel::Running,
                _ => next.halted && !next.running && next.stop_reason == (StopModel::CpuError {
                    error: stop.text(),
                }),
            }
        }),
{
}

/// A machine with a program runs when it is told to, and stops running when it is told to pause;
/// neither moves it.
pub proof fn law_start_and_pause(machine: VmModel)
    requires
        !machine.halted,
    ensures
        machine.started() == (VmModel { running: true, stop_reason: StopModel::Running, ..machine }),
        machine.paused() == (VmModel { running: false, stop_reason: StopModel::Paused, ..machine }),
        machine.started().paused() == machine.paused(),
        machine.paused().started() == machine.started(),
{
}

/// A new machine has no program: it is halted at address zero, with nothing in memory, nothing in
/// its registers, nothing counted and no breakpoints.
pub proof fn law_new_machine(
    options: crate::config::VmRuntimeOptions,
    config: crate::config::ConfigModel,
)
    ensures
        ({
            let machine = VmModel::fresh(options, config);
            &&& machine.halted && !machine.running
            &&& machine.stop_reason == StopModel::NoProgramLoaded
            &&& machine.loaded_binary is None
            &&& machine.entry_point == 0
            &&& machine.options == options && machine.config == config
            &&& machine.machine.cpu.pc == 0
            &&& forall|i: int| 0 <= i < 32 ==> machine.machine.cpu.x[i] == 0
            &&& machine.machine.stats.instret == 0 && machine.machine.stats.cycles == 0
            &&& machine.machine.output.len() == 0
            &&& machine.machine.memory.bounds is None
            &&& forall|addr: u32| !machine.machine.memory.bytes.contains_key(addr)
            &&& forall|pc: u32| !machine.breakpoints.contains(pc)
        }),
{
}

/// What a machine shows of itself is what it is, each thing under its own name.
pub proof fn law_state_shows_machine(machine: VmModel)
    ensures
        ({
            let state = machine.state();
            &&& state.running == machine.running
            &&& state.halted == machine.halted
            &&& state.pc == machine.machine.cpu.pc
            &&& state.entry_point == machine.entry_point
            &&& machine.loaded_binary matches Some(binary) ==> state.loaded_binary_name == Some(
                binary.name,
            ) && state.loaded_binary_hash == Some(binary.sha256)
            &&& machine.loaded_binary is None ==> state.loaded_binary_name is None
                && state.loaded_binary_hash is None
            &&& state.stop_reason == machine.stop_reason
            &&& state.registers == machine.machine.cpu.x
            &&& state.floating_registers == machine.machine.cpu.f
            &&& state.fcsr == machine.machine.cpu.fcsr
            &&& state.reservation == machine.machine.cpu.reservation
            &&& state.stats == machine.machine.stats
            &&& state.current_instruction == crate::disasm::shown(
                crate::disasm::encoded(machine.machine.memory.bytes, machine.machine.cpu.pc),
                machine.machine.cpu.pc,
                true,
            )
        }),
{
}

/// What is saved of a machine is what it is, each thing under its own name.
pub proof fn law_dump_holds_machine(machine: VmModel)
    ensures
        ({
            let dump = machine.dump();
            &&& dump.options == machine.options
            &&& dump.config == machine.config
            &&& dump.loaded_binary == machine.loaded_binary
            &&& dump.entry_point == machine.entry_point
            &&& dump.running == machine.running
            &&& dump.halted == machine.halted
            &&& dump.stop_reason == machine.stop_reason
            &&& dump.cpu == machine.machine.cpu
            &&& dump.stats == machine.machine.stats
            &&& dump.memory == machine.machine.memory
        }),
{
}

/// A machine is restored from any dump: it gets everything that the dump holds, but its caches
/// have the line size and the costs that the settings of the dump say.
pub proof fn law_restored(machine: VmModel, dump: vm::DumpModel)
    ensures
        ({
            let after = machine.restored(dump);
            &&& after.options == dump.options
            &&& after.config == dump.config
            &&& after.loaded_binary == dump.loaded_binary
            &&& after.entry_point == dump.entry_point
            &&& after.running == dump.running
            &&& after.halted == dump.halted
            &&& after.stop_reason == dump.stop_reason
            &&& after.machine.cpu == dump.cpu
            &&& after.machine.stats == dump.stats
            &&& after.machine.memory.bytes == dump.memory.bytes
            &&& after.machine.memory.bounds == dump.memory.bounds
            &&& after.machine.memory.caches.line_size == dump.options.cache_line_size
            &&& after.machine.memory.caches.l1_latency == dump.config.l1_latency
            &&& after.machine.memory.caches.l2_latency == dump.config.l2_latency
            &&& after.machine.memory.caches.l3_latency == dump.config.l3_latency
            &&& after.machine.memory.caches.memory_latency == dump.config.memory_latency
            &&& after.machine.memory.caches.store_latency == dump.config.store_latency
            &&& after.machine.memory.caches.l1i == dump.memory.caches.l1i
            &&& after.machine.memory.caches.l1d == dump.memory.caches.l1d
            &&& after.machine.memory.caches.l2 == dump.memory.caches.l2
            &&& after.machine.memory.caches.l3 == dump.memory.caches.l3
        }),
{
}

/// A program that was loaded is known by its name, its digest and its bytes, and it alone is in
/// memory; settings, breakpoints and what was written out stay as they were.
pub proof fn law_loaded_program(machine: VmModel, name: Seq<char>, blob: Seq<u8>)
    requires
        elf::verdict(blob) == ElfVerdict::Accepted,
    ensures
        ({
            let after = machine.after_load(name, blob);
            &&& after.loaded_binary == Some(
                vm::BinaryModel { name, sha256: vm::hex_of(vm::sha256(blob)), bytes: blob },
            )
            &&& after.machine.memory == elf::loaded(
                MemoryModel {
                    bytes: Map::empty(),
                    bounds: None,
                    caches: CachesModel::fresh(machine.options, machine.config),
                },
                blob,
                elf::segment_count(blob),
            )
            &&& after.machine.cpu.pc == elf::entry(blob)
            &&& after.options == machine.options && after.config == machine.config
            &&& after.breakpoints == machine.breakpoints
            &&& after.machine.output == machine.machine.output
        }),
{
}

/// A file that is no program leaves a machine with empty memory, empty caches and nothing
/// counted; everything else stays as it was, the program that was loaded before with it.
pub proof fn law_refused_load(machine: VmModel, name: Seq<char>, blob: Seq<u8>)
    requires
        elf::verdict(blob) != ElfVerdict::Accepted,
    ensures
        machine.after_load(name, blob) == (VmModel {
            machine: MachineModel {
                memory: MemoryModel {
                    bytes: Map::empty(),
                    bounds: None,
                    caches: CachesModel::fresh(machine.options, machine.config),
                },
                stats: StatsModel::zero(),
                ..machine.machine
            },
            ..machine
        }),
{
}

/// A reset does to the memory in use what it was asked to do, and puts the program over that.
pub proof fn law_reset_loads_over(machine: VmModel, policy: ResetMemoryPolicy, seed: u64)
    requires
        machine.loaded_binary matches Some(binary) && elf::verdict(binary.bytes)
            == ElfVerdict::Accepted,
    ensures
        ({
            let kept = MemoryModel {
                caches: CachesModel::fresh(machine.options, machine.config),
                ..machine.machine.memory
            };
            let blob = machine.loaded_binary->0.bytes;
            let after = machine.after_reset(policy, seed);
            let count = elf::segment_count(blob);
            &&& policy == ResetMemoryPolicy::Ignore ==> after.machine.memory == elf::loaded(
                kept,
                blob,
                count,
            )
            &&& policy == ResetMemoryPolicy::Zero ==> after.machine.memory == elf::loaded(
                kept.zero(),
                blob,
                count,
            )
            &&& policy == ResetMemoryPolicy::Randomize ==> after.machine.memory == elf::loaded(
                kept.randomize(seed),
                blob,
                count,
            )
            &&& after.machine.output == machine.machine.output
            &&& after.options == machine.options && after.config == machine.config
        }),
{
}

} // verus!
