use hecate_vm::config::{SimConfig, VmRuntimeOptions};
use hecate_vm::debug_ui;
use hecate_vm::disasm::{
    decode_instruction, decode_rv32_mnemonic, decode_rvc_mnemonic, sign_extend, xreg,
    InstructionFlow,
};
use hecate_vm::memory::HecateMemory;

fn memory_with(addr: u32, bytes: &[u8]) -> HecateMemory {
    let options = VmRuntimeOptions {
        cache_line_size: 64,
        l1_size: 1024,
        l2_size: 4096,
        l3_size: 8192,
        max_instructions: None,
    };
    let mut memory = HecateMemory::new(options, &SimConfig::default());
    memory.write_bytes_raw(addr, bytes);
    memory
}

#[test]
fn registers_have_names() {
    assert_eq!(xreg(0), "x0");
    assert_eq!(xreg(31), "x31");
}

#[test]
fn signs_extend() {
    assert_eq!(sign_extend(0x7ff, 12), 2047);
    assert_eq!(sign_extend(0x800, 12), -2048);
    assert_eq!(sign_extend(0xfff, 12), -1);
    assert_eq!(sign_extend(0x1001, 12), 1);
    assert_eq!(sign_extend(1, 1), -1);
    assert_eq!(sign_extend(0x8000_0000, 32), i32::MIN);
}

#[test]
fn extension_keeps_the_low_bits() {
    for value in [0u32, 1, 0x7ff, 0x800, 0xabc, 0xffff_ffff] {
        let number = sign_extend(value, 12);
        assert!(number >= -2048 && number < 2048);
        assert_eq!((number as u32) & 0xfff, value & 0xfff);
    }
}

#[test]
fn upper_immediates_and_jumps() {
    assert_eq!(decode_rv32_mnemonic(0x0000_15b7, 0), "lui x11, 0x1000");
    assert_eq!(decode_rv32_mnemonic(0xffff_f097, 0), "auipc x1, 0xfffff000");
    assert_eq!(decode_rv32_mnemonic(0x0080_00ef, 0x1000), "jal x1, 8 -> 0x00001008");
    assert_eq!(decode_rv32_mnemonic(0xffdf_f0ef, 0x1000), "jal x1, -4 -> 0x00000ffc");
    assert_eq!(decode_rv32_mnemonic(0xffdf_f0ef, 0), "jal x1, -4 -> 0xfffffffc");
    assert_eq!(decode_rv32_mnemonic(0x0000_8067, 0), "jalr x0, 0(x1)");
}

#[test]
fn branches() {
    assert_eq!(decode_rv32_mnemonic(0xfe20_8ce3, 0x1000), "beq x1, x2, -8 -> 0x00000ff8");
    let branch = |funct3: u32| 0x0020_8463 | (funct3 << 12);
    let names = ["beq", "bne", "b?", "b?", "blt", "bge", "bltu", "bgeu"];
    for (funct3, name) in names.iter().enumerate() {
        assert_eq!(
            decode_rv32_mnemonic(branch(funct3 as u32), 0),
            format!("{name} x1, x2, 8 -> 0x00000008")
        );
    }
}

#[test]
fn loads_and_stores() {
    assert_eq!(decode_rv32_mnemonic(0xffc1_2283, 0), "lw x5, -4(x2)");
    assert_eq!(decode_rv32_mnemonic(0x0051_2423, 0), "sw x5, 8(x2)");
    let loads = ["lb", "lh", "lw", "l?", "lbu", "lhu", "l?", "l?"];
    for (funct3, name) in loads.iter().enumerate() {
        let inst = 0x0001_0283 | ((funct3 as u32) << 12);
        assert_eq!(decode_rv32_mnemonic(inst, 0), format!("{name} x5, 0(x2)"));
    }
    let stores = ["sb", "sh", "sw", "s?", "s?", "s?", "s?", "s?"];
    for (funct3, name) in stores.iter().enumerate() {
        let inst = 0xfe51_0fa3 | ((funct3 as u32) << 12);
        assert_eq!(decode_rv32_mnemonic(inst, 0), format!("{name} x5, -1(x2)"));
    }
}

#[test]
fn immediate_operations() {
    assert_eq!(decode_rv32_mnemonic(0x0010_0093, 0), "addi x1, x0, 1");
    assert_eq!(decode_rv32_mnemonic(0xfff1_0093, 0), "addi x1, x2, -1");
    let names = ["addi", "slli", "slti", "sltiu", "xori", "srli", "ori", "andi"];
    for (funct3, name) in names.iter().enumerate() {
        let inst = 0x0031_0093 | ((funct3 as u32) << 12);
        assert_eq!(decode_rv32_mnemonic(inst, 0), format!("{name} x1, x2, 3"));
    }
    assert_eq!(decode_rv32_mnemonic(0x4030_d093, 0), "srai x1, x1, 3");
}

#[test]
fn register_operations() {
    let inst = |funct7: u32, funct3: u32| 0x0031_00b3 | (funct7 << 25) | (funct3 << 12);
    let base = ["add", "sll", "slt", "sltu", "xor", "srl", "or", "and"];
    let multiply = ["mul", "mulh", "mulhsu", "mulhu", "div", "divu", "rem", "remu"];
    for funct3 in 0..8u32 {
        assert_eq!(
            decode_rv32_mnemonic(inst(0, funct3), 0),
            format!("{} x1, x2, x3", base[funct3 as usize])
        );
        assert_eq!(
            decode_rv32_mnemonic(inst(1, funct3), 0),
            format!("{} x1, x2, x3", multiply[funct3 as usize])
        );
    }
    assert_eq!(decode_rv32_mnemonic(inst(0x20, 0), 0), "sub x1, x2, x3");
    assert_eq!(decode_rv32_mnemonic(inst(0x20, 5), 0), "sra x1, x2, x3");
    assert_eq!(decode_rv32_mnemonic(inst(0x20, 1), 0), "r-unknown x1, x2, x3");
    assert_eq!(decode_rv32_mnemonic(inst(0x40, 0), 0), "r-unknown x1, x2, x3");
}

#[test]
fn system_and_others() {
    assert_eq!(decode_rv32_mnemonic(0x0000_0073, 0), "ecall");
    assert_eq!(decode_rv32_mnemonic(0x0010_0073, 0), "ebreak");
    assert_eq!(decode_rv32_mnemonic(0x3020_0073, 0), "system");
    assert_eq!(decode_rv32_mnemonic(0x0ff0_000f, 0), "fence");
    assert_eq!(decode_rv32_mnemonic(0xffff_ffff, 0), "unknown(opcode=0x7f)");
    assert_eq!(decode_rv32_mnemonic(0x0000_0003 + 4, 0), "unknown(opcode=0x07)");
}

#[test]
fn compressed_instructions() {
    let names = [
        "c.addi", "c.jal", "c.li", "c.lui/addi16sp", "c.misc-alu", "c.j", "c.beqz", "c.bnez",
    ];
    for (funct3, name) in names.iter().enumerate() {
        let inst = ((funct3 as u16) << 13) | 1;
        assert_eq!(decode_rvc_mnemonic(inst), *name);
        let shown = debug_ui::decode_rvc_mnemonic(inst);
        if funct3 == 1 {
            assert_eq!(shown, "c.unknown");
        } else {
            assert_eq!(shown, *name);
        }
    }
    assert_eq!(decode_rvc_mnemonic((4 << 13) | 2), "c.jr/mv/ebreak/jalr/add");
    assert_eq!(decode_rvc_mnemonic(2), "c.unknown");
    assert_eq!(decode_rvc_mnemonic(0), "c.unknown");
}

#[test]
fn instructions_in_memory() {
    let memory = memory_with(0x1000, &0x0010_0093u32.to_le_bytes());
    let decoded = decode_instruction(&memory, 0x1000);
    assert_eq!(decoded.snapshot.text, "addi x1, x0, 1 (93 00 10 00)");
    assert_eq!(decoded.snapshot.hex.as_deref(), Some("0x00100093"));
    assert_eq!(decoded.snapshot.size, Some(4));
    assert_eq!(decoded.snapshot.bytes.as_deref(), Some("93 00 10 00"));
    assert_eq!(decoded.flow, InstructionFlow::Linear);
}

#[test]
fn what_cannot_be_decoded() {
    let memory = memory_with(0x1000, &[0x93, 0x00, 0x10]);
    let cut = decode_instruction(&memory, 0x1000);
    assert_eq!(cut.snapshot.text, "Unavailable (incomplete 32-bit instruction at PC)");
    assert_eq!(cut.snapshot.bytes.as_deref(), Some("93 00"));
    assert_eq!((cut.snapshot.hex, cut.snapshot.size), (None, None));
    let unmapped = decode_instruction(&memory, 0x1002);
    assert_eq!(unmapped.snapshot.text, "Unavailable (memory unmapped at PC)");
    assert_eq!(unmapped.snapshot.bytes, None);
    assert_eq!(unmapped.flow, InstructionFlow::Linear);
}

#[test]
fn calls_return_behind_themselves() {
    let call = |bytes: &[u8]| decode_instruction(&memory_with(0x1000, bytes), 0x1000);
    let jal = call(&0x0080_00efu32.to_le_bytes());
    assert_eq!(jal.flow, InstructionFlow::Call { return_pc: 0x1004 });
    assert_eq!(jal.snapshot.size, Some(4));
    // Through the other link register, and without a link.
    let other = call(&0x0080_02efu32.to_le_bytes());
    assert_eq!(other.flow, InstructionFlow::Call { return_pc: 0x1004 });
    let jump = call(&0x0080_006fu32.to_le_bytes());
    assert_eq!(jump.flow, InstructionFlow::Linear);
    let jalr = call(&0x0000_80e7u32.to_le_bytes());
    assert_eq!(jalr.flow, InstructionFlow::Call { return_pc: 0x1004 });
    let ret = call(&0x0000_8067u32.to_le_bytes());
    assert_eq!(ret.flow, InstructionFlow::Linear);
    let c_jal = call(&0x2001u16.to_le_bytes());
    assert_eq!(c_jal.flow, InstructionFlow::Call { return_pc: 0x1002 });
    assert_eq!(c_jal.snapshot.size, Some(2));
    assert_eq!(c_jal.snapshot.text, "c.jal (01 20)");
    assert_eq!(c_jal.snapshot.hex.as_deref(), Some("0x2001"));
    // c.jalr x1, c.ebreak and c.jr x1.
    assert_eq!(call(&0x9082u16.to_le_bytes()).flow, InstructionFlow::Call { return_pc: 0x1002 });
    assert_eq!(call(&0x9002u16.to_le_bytes()).flow, InstructionFlow::Linear);
    assert_eq!(call(&0x8082u16.to_le_bytes()).flow, InstructionFlow::Linear);
}

#[test]
fn return_addresses_wrap_around() {
    let memory = memory_with(0xffff_fffe, &0x0080_00efu32.to_le_bytes());
    let decoded = decode_instruction(&memory, 0xffff_fffe);
    assert_eq!(decoded.flow, InstructionFlow::Call { return_pc: 2 });
}
