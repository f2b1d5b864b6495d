//! Instructions as text.

use crate::memory::{self, HecateMemory};
use crate::text;
use vstd::prelude::*;

verus! {

broadcast use vstd::std_specs::hash::group_hash_axioms;

/// An instruction as it is shown: its text, and as far as it could be read its number, its
/// size and its bytes.
#[derive(Debug)]
pub struct InstructionSnapshot {
    pub text: String,
    pub hex: Option<String>,
    pub size: Option<u32>,
    pub bytes: Option<String>,
}

/// What `InstructionSnapshot` says.
#[verifier::ext_equal]
pub ghost struct SnapshotModel {
    pub text: Seq<char>,
    pub hex: Option<Seq<char>>,
    pub size: Option<u32>,
    pub bytes: Option<Seq<char>>,
}

/// The view of an optional text.
pub open spec fn optional(text: Option<String>) -> Option<Seq<char>> {
    match text {
        Some(text) => Some(text@),
        None => None,
    }
}

impl View for InstructionSnapshot {
    type V = SnapshotModel;

    open spec fn view(&self) -> SnapshotModel {
        SnapshotModel {
            text: self.text@,
            hex: optional(self.hex),
            size: self.size,
            bytes: optional(self.bytes),
        }
    }
}

/// Whether an instruction calls a function, and where that function returns to.
#[derive(Debug, Clone, Copy, PartialEq, Eq, Structural)]
pub enum InstructionFlow {
    Linear,
    Call { return_pc: u32 },
}

/// An instruction as it is shown, and where it leads.
#[derive(Debug)]
pub struct DecodedInstruction {
    pub snapshot: InstructionSnapshot,
    pub flow: InstructionFlow,
}

/// The name of an integer register.
pub open spec fn reg(n: nat) -> Seq<char> {
    "x"@ + text::dec(n)
}

/// The number that the low `width` bits of `value` stand for in two's complement.
pub open spec fn extended(value: nat, width: nat) -> int {
    let low = value % vstd::arithmetic::power2::pow2(width);
    if low >= vstd::arithmetic::power2::pow2((width - 1) as nat) {
        low - vstd::arithmetic::power2::pow2(width)
    } else {
        low as int
    }
}

/// The address `offset` bytes from `pc`.
pub open spec fn target(pc: u32, offset: int) -> nat {
    ((pc + offset) % 0x1_0000_0000) as nat
}

/// The fields of an instruction of 32 bits.
pub ghost struct Fields {
    pub opcode: nat,
    pub rd: nat,
    pub funct3: nat,
    pub rs1: nat,
    pub rs2: nat,
    pub funct7: nat,
    pub imm_i: int,
    pub imm_s: int,
    pub imm_b: int,
    pub imm_u: nat,
    pub imm_j: int,
}

/// `width` bits of `inst` from bit `low` on.
pub open spec fn bits(inst: u32, low: nat, width: nat) -> nat {
    (inst as nat / vstd::arithmetic::power2::pow2(low)) % vstd::arithmetic::power2::pow2(width)
}

/// The fields of `inst`.
pub open spec fn fields(inst: u32) -> Fields {
    Fields {
        opcode: bits(inst, 0, 7),
        rd: bits(inst, 7, 5),
        funct3: bits(inst, 12, 3),
        rs1: bits(inst, 15, 5),
        rs2: bits(inst, 20, 5),
        funct7: bits(inst, 25, 7),
        imm_i: extended(bits(inst, 20, 12), 12),
        imm_s: extended(bits(inst, 25, 7) * 32 + bits(inst, 7, 5), 12),
        imm_b: extended(
            bits(inst, 31, 1) * 4096 + bits(inst, 7, 1) * 2048 + bits(inst, 25, 6) * 32 + bits(
                inst,
                8,
                4,
            ) * 2,
            13,
        ),
        imm_u: bits(inst, 12, 20) * 4096,
        imm_j: extended(
            bits(inst, 31, 1) * 0x10_0000 + bits(inst, 12, 8) * 4096 + bits(inst, 20, 1) * 2048
                + bits(inst, 21, 10) * 2,
            21,
        ),
    }
}

/// The names of the branches.
pub open spec fn branch_name(funct3: nat) -> Seq<char> {
    if funct3 == 0b000 {
        "beq"@
    } else if funct3 == 0b001 {
        "bne"@
    } else if funct3 == 0b100 {
        "blt"@
    } else if funct3 == 0b101 {
        "bge"@
    } else if funct3 == 0b110 {
        "bltu"@
    } else if funct3 == 0b111 {
        "bgeu"@
    } else {
        "b?"@
    }
}

/// The names of the loads.
pub open spec fn load_name(funct3: nat) -> Seq<char> {
    if funct3 == 0b000 {
        "lb"@
    } else if funct3 == 0b001 {
        "lh"@
    } else if funct3 == 0b010 {
        "lw"@
    } else if funct3 == 0b100 {
        "lbu"@
    } else if funct3 == 0b101 {
        "lhu"@
    } else {
        "l?"@
    }
}

/// The names of the stores.
pub open spec fn store_name(funct3: nat) -> Seq<char> {
    if funct3 == 0b000 {
        "sb"@
    } else if funct3 == 0b001 {
        "sh"@
    } else if funct3 == 0b010 {
        "sw"@
    } else {
        "s?"@
    }
}

/// The names of the operations with an immediate operand, with a space behind.
pub open spec fn immediate_name(funct3: nat, funct7: nat) -> Seq<char> {
    if funct3 == 0b000 {
        "addi "@
    } else if funct3 == 0b001 {
        "slli "@
    } else if funct3 == 0b010 {
        "slti "@
    } else if funct3 == 0b011 {
        "sltiu "@
    } else if funct3 == 0b100 {
        "xori "@
    } else if funct3 == 0b101 && funct7 == 0x20 {
        "srai "@
    } else if funct3 == 0b101 {
        "srli "@
    } else if funct3 == 0b110 {
        "ori "@
    } else {
        "andi "@
    }
}

/// The names of the operations on registers.
pub open spec fn register_name(funct7: nat, funct3: nat) -> Seq<char> {
    if funct7 == 0x00 {
        if funct3 == 0b000 {
            "add"@
        } else if funct3 == 0b001 {
            "sll"@
        } else if funct3 == 0b010 {
            "slt"@
        } else if funct3 == 0b011 {
            "sltu"@
        } else if funct3 == 0b100 {
            "xor"@
        } else if funct3 == 0b101 {
            "srl"@
        } else if funct3 == 0b110 {
            "or"@
        } else {
            "and"@
        }
    } else if funct7 == 0x01 {
        if funct3 == 0b000 {
            "mul"@
        } else if funct3 == 0b001 {
            "mulh"@
        } else if funct3 == 0b010 {
            "mulhsu"@
        } else if funct3 == 0b011 {
            "mulhu"@
        } else if funct3 == 0b100 {
            "div"@
        } else if funct3 == 0b101 {
            "divu"@
        } else if funct3 == 0b110 {
            "rem"@
        } else {
            "remu"@
        }
    } else if funct7 == 0x20 && funct3 == 0b000 {
        "sub"@
    } else if funct7 == 0x20 && funct3 == 0b101 {
        "sra"@
    } else {
        "r-unknown"@
    }
}

/// The text of an instruction of 32 bits at `pc`.
pub open spec fn rv32_text(inst: u32, pc: u32) -> Seq<char> {
    let f = fields(inst);
    if f.opcode == 0x37 {
        "lui "@ + reg(f.rd) + ", 0x"@ + text::hex(f.imm_u)
    } else if f.opcode == 0x17 {
        "auipc "@ + reg(f.rd) + ", 0x"@ + text::hex(f.imm_u)
    } else if f.opcode == 0x6f {
        "jal "@ + reg(f.rd) + ", "@ + text::signed(f.imm_j) + " -> 0x"@ + text::hex_padded(
            target(pc, f.imm_j),
            8,
        )
    } else if f.opcode == 0x67 {
        "jalr "@ + reg(f.rd) + ", "@ + text::signed(f.imm_i) + "("@ + reg(f.rs1) + ")"@
    } else if f.opcode == 0x63 {
        branch_name(f.funct3) + " "@ + reg(f.rs1) + ", "@ + reg(f.rs2) + ", "@ + text::signed(
            f.imm_b,
        ) + " -> 0x"@ + text::hex_padded(target(pc, f.imm_b), 8)
    } else if f.opcode == 0x03 {
        load_name(f.funct3) + " "@ + reg(f.rd) + ", "@ + text::signed(f.imm_i) + "("@ + reg(f.rs1)
            + ")"@
    } else if f.opcode == 0x23 {
        store_name(f.funct3) + " "@ + reg(f.rs2) + ", "@ + text::signed(f.imm_s) + "("@ + reg(
            f.rs1,
        ) + ")"@
    } else if f.opcode == 0x13 {
        immediate_name(f.funct3, f.funct7) + reg(f.rd) + ", "@ + reg(f.rs1) + ", "@ + (
        if f.funct3 == 0b001 || f.funct3 == 0b101 {
            text::dec(f.rs2)
        } else {
            text::signed(f.imm_i)
        })
    } else if f.opcode == 0x33 {
        register_name(f.funct7, f.funct3) + " "@ + reg(f.rd) + ", "@ + reg(f.rs1) + ", "@ + reg(
            f.rs2,
        )
    } else if f.opcode == 0x73 {
        if inst == 0x0000_0073 {
            "ecall"@
        } else if inst == 0x0010_0073 {
            "ebreak"@
        } else {
            "system"@
        }
    } else if f.opcode == 0x0f {
        "fence"@
    } else {
        "unknown(opcode=0x"@ + text::hex_padded(f.opcode, 2) + ")"@
    }
}

/// The text of a compressed instruction. One quadrant has a call that is only named `with_jal`.
pub open spec fn rvc_text(inst: u16, with_jal: bool) -> Seq<char> {
    let quadrant = inst % 4;
    let funct3 = inst / 0x2000;
    if quadrant == 0b01 && funct3 == 0b000 {
        "c.addi"@
    } else if quadrant == 0b01 && funct3 == 0b001 && with_jal {
        "c.jal"@
    } else if quadrant == 0b01 && funct3 == 0b010 {
        "c.li"@
    } else if quadrant == 0b01 && funct3 == 0b011 {
        "c.lui/addi16sp"@
    } else if quadrant == 0b01 && funct3 == 0b100 {
        "c.misc-alu"@
    } else if quadrant == 0b01 && funct3 == 0b101 {
        "c.j"@
    } else if quadrant == 0b01 && funct3 == 0b110 {
        "c.beqz"@
    } else if quadrant == 0b01 && funct3 == 0b111 {
        "c.bnez"@
    } else if quadrant == 0b10 && funct3 == 0b100 {
        "c.jr/mv/ebreak/jalr/add"@
    } else {
        "c.unknown"@
    }
}

/// Two bytes as a number, the low byte first.
pub open spec fn half_of(b0: u8, b1: u8) -> u16 {
    (b0 + 256 * b1) as u16
}

/// Four bytes as a number, the low byte first.
pub open spec fn word_of(b0: u8, b1: u8, b2: u8, b3: u8) -> u32 {
    (b0 + 0x100 * b1 + 0x1_0000 * b2 + 0x100_0000 * b3) as u32
}

/// A byte as two hexadecimal digits.
pub open spec fn byte_text(b: u8) -> Seq<char> {
    text::hex_padded(b as nat, 2)
}

/// What stands in memory at a program counter.
pub ghost enum Encoded {
    /// One of the first two bytes was never written.
    Unmapped,
    /// A compressed instruction.
    Short { b0: u8, b1: u8 },
    /// An instruction of which only half was written.
    Cut { b0: u8, b1: u8 },
    /// An instruction of 32 bits.
    Long { b0: u8, b1: u8, b2: u8, b3: u8 },
}

/// What stands at `pc`: the low two bits of an instruction tell its length.
pub open spec fn encoded(bytes: Map<u32, u8>, pc: u32) -> Encoded {
    let p1 = memory::wrap32(pc, 1);
    let p2 = memory::wrap32(pc, 2);
    let p3 = memory::wrap32(pc, 3);
    if !bytes.contains_key(pc) || !bytes.contains_key(p1) {
        Encoded::Unmapped
    } else if bytes[pc] % 4 != 3 {
        Encoded::Short { b0: bytes[pc], b1: bytes[p1] }
    } else if !bytes.contains_key(p2) || !bytes.contains_key(p3) {
        Encoded::Cut { b0: bytes[pc], b1: bytes[p1] }
    } else {
        Encoded::Long { b0: bytes[pc], b1: bytes[p1], b2: bytes[p2], b3: bytes[p3] }
    }
}

/// How what stands at `pc` is shown.
pub open spec fn shown(code: Encoded, pc: u32, with_jal: bool) -> SnapshotModel {
    match code {
        Encoded::Unmapped => SnapshotModel {
            text: "Unavailable (memory unmapped at PC)"@,
            hex: None,
            size: None,
            bytes: None,
        },
        Encoded::Short { b0, b1 } => {
            let half = half_of(b0, b1);
            let bytes = byte_text(b0) + " "@ + byte_text(b1);
            SnapshotModel {
                text: rvc_text(half, with_jal) + " ("@ + bytes + ")"@,
                hex: Some("0x"@ + text::hex_padded(half as nat, 4)),
                size: Some(2u32),
                bytes: Some(bytes),
            }
        },
        Encoded::Cut { b0, b1 } => SnapshotModel {
            text: "Unavailable (incomplete 32-bit instruction at PC)"@,
            hex: None,
            size: None,
            bytes: Some(byte_text(b0) + " "@ + byte_text(b1)),
        },
        Encoded::Long { b0, b1, b2, b3 } => {
            let raw = word_of(b0, b1, b2, b3);
            let bytes = byte_text(b0) + " "@ + byte_text(b1) + " "@ + byte_text(b2) + " "@
                + byte_text(b3);
            SnapshotModel {
                text: rv32_text(raw, pc) + " ("@ + bytes + ")"@,
                hex: Some("0x"@ + text::hex_padded(raw as nat, 8)),
                size: Some(4u32),
                bytes: Some(bytes),
            }
        },
    }
}

/// Where what stands at `pc` leads: a jump that links, through one of the two link registers
/// or in one of the two compressed forms, is a call.
pub open spec fn flow_of(code: Encoded, pc: u32) -> InstructionFlow {
    match code {
        Encoded::Short { b0, b1 } => {
            let half = half_of(b0, b1);
            let funct3 = half / 0x2000;
            let rs1 = half / 0x80 % 32;
            let rs2 = half / 4 % 32;
            let bit12 = half / 0x1000 % 2;
            if (half % 4 == 0b01 && funct3 == 0b001) || (half % 4 == 0b10 && funct3 == 0b100
                && bit12 == 1 && rs2 == 0 && rs1 != 0) {
                InstructionFlow::Call { return_pc: memory::wrap32(pc, 2) }
            } else {
                InstructionFlow::Linear
            }
        },
        Encoded::Long { b0, b1, b2, b3 } => {
            let f = fields(word_of(b0, b1, b2, b3));
            if (f.opcode == 0x6f || (f.opcode == 0x67 && f.funct3 == 0)) && (f.rd == 1 || f.rd
                == 5) {
                InstructionFlow::Call { return_pc: memory::wrap32(pc, 4) }
            } else {
                InstructionFlow::Linear
            }
        },
        _ => InstructionFlow::Linear,
    }
}

/// Two to the power of `exponent`.
fn power(exponent: u32) -> (value: u64)
    requires
        exponent <= 32,
    ensures
        value == vstd::arithmetic::power2::pow2(exponent as nat),
        value > 0,
{
    proof {
        vstd::arithmetic::power2::lemma2_to64();
        vstd::arithmetic::power2::lemma_pow2_pos(exponent as nat);
        if exponent < 32 {
            vstd::arithmetic::power2::lemma_pow2_strictly_increases(exponent as nat, 32);
        }
        vstd::bits::lemma_u64_shl_is_mul(1, exponent as u64);
    }
    1u64 << exponent
}

/// `width` bits of `inst` from bit `low` on.
fn take_bits(inst: u32, low: u32, width: u32) -> (value: u32)
    requires
        low <= 32,
        width <= 32,
    ensures
        value == bits(inst, low as nat, width as nat),
        value < vstd::arithmetic::power2::pow2(width as nat),
{
    let shifted: u64 = inst as u64 / power(low);
    proof {
        vstd::arithmetic::div_mod::lemma_div_is_ordered_by_denominator(
            inst as int,
            1,
            vstd::arithmetic::power2::pow2(low as nat) as int,
        );
        vstd::arithmetic::div_mod::lemma_div_basics(inst as int);
    }
    let modulus: u64 = power(width);
    proof {
        vstd::arithmetic::div_mod::lemma_mod_decreases(shifted as nat, modulus as nat);
    }
    (shifted % modulus) as u32
}

/// The number that the low `width` bits of `value` stand for in two's complement.
pub fn sign_extend(value: u32, width: u32) -> (number: i32)
    requires
        1 <= width <= 32,
    ensures
        number == extended(value as nat, width as nat),
{
    let modulus: u64 = power(width);
    let half: u64 = power(width - 1);
    let low: u64 = value as u64 % modulus;
    proof {
        vstd::arithmetic::power2::lemma_pow2_unfold(width as nat);
        vstd::arithmetic::power2::lemma2_to64();
        if width < 32 {
            vstd::arithmetic::power2::lemma_pow2_strictly_increases(width as nat, 32);
        }
    }
    if low >= half {
        (low as i64 - modulus as i64) as i32
    } else {
        low as i32
    }
}

/// The fields of an instruction of 32 bits, as `Fields` lists them.
struct Parts {
    opcode: u32,
    rd: u32,
    funct3: u32,
    rs1: u32,
    rs2: u32,
    funct7: u32,
    imm_i: i32,
    imm_s: i32,
    imm_b: i32,
    imm_u: u32,
    imm_j: i32,
}

impl Parts {
    spec fn view(&self) -> Fields {
        Fields {
            opcode: self.opcode as nat,
            rd: self.rd as nat,
            funct3: self.funct3 as nat,
            rs1: self.rs1 as nat,
            rs2: self.rs2 as nat,
            funct7: self.funct7 as nat,
            imm_i: self.imm_i as int,
            imm_s: self.imm_s as int,
            imm_b: self.imm_b as int,
            imm_u: self.imm_u as nat,
            imm_j: self.imm_j as int,
        }
    }
}

/// Takes an instruction apart.
fn split(inst: u32) -> (parts: Parts)
    ensures
        parts@ == fields(inst),
        parts.funct3 < 8,
{
    proof {
        vstd::arithmetic::power2::lemma2_to64();
    }
    let sign: u32 = take_bits(inst, 31, 1);
    Parts {
        opcode: take_bits(inst, 0, 7),
        rd: take_bits(inst, 7, 5),
        funct3: take_bits(inst, 12, 3),
        rs1: take_bits(inst, 15, 5),
        rs2: take_bits(inst, 20, 5),
        funct7: take_bits(inst, 25, 7),
        imm_i: sign_extend(take_bits(inst, 20, 12), 12),
        imm_s: sign_extend(take_bits(inst, 25, 7) * 32 + take_bits(inst, 7, 5), 12),
        imm_b: sign_extend(
            sign * 4096 + take_bits(inst, 7, 1) * 2048 + take_bits(inst, 25, 6) * 32 + take_bits(
                inst,
                8,
                4,
            ) * 2,
            13,
        ),
        imm_u: take_bits(inst, 12, 20) * 4096,
        imm_j: sign_extend(
            sign * 0x10_0000 + take_bits(inst, 12, 8) * 4096 + take_bits(inst, 20, 1) * 2048
                + take_bits(inst, 21, 10) * 2,
            21,
        ),
    }
}

/// The name of an integer register.
pub fn xreg(reg_number: u32) -> (name: String)
    ensures
        name@ == reg(reg_number as nat),
{
    "x".to_owned().concat(text::to_dec(reg_number as u64).as_str())
}

/// The address `offset` bytes from `pc`, in hexadecimal.
fn target_hex(pc: u32, offset: i32) -> (hex: String)
    ensures
        hex@ == text::hex_padded(target(pc, offset as int), 8),
{
    let moved: i64 = pc as i64 + offset as i64 + 0x1_0000_0000;
    text::to_hex_padded((moved % 0x1_0000_0000) as u32, 8)
}

fn branch_mnemonic(funct3: u32) -> (name: &'static str)
    ensures
        name@ == branch_name(funct3 as nat),
{
    match funct3 {
        0b000 => "beq",
        0b001 => "bne",
        0b100 => "blt",
        0b101 => "bge",
        0b110 => "bltu",
        0b111 => "bgeu",
        _ => "b?",
    }
}

fn load_mnemonic(funct3: u32) -> (name: &'static str)
    ensures
        name@ == load_name(funct3 as nat),
{
    match funct3 {
        0b000 => "lb",
        0b001 => "lh",
        0b010 => "lw",
        0b100 => "lbu",
        0b101 => "lhu",
        _ => "l?",
    }
}

fn store_mnemonic(funct3: u32) -> (name: &'static str)
    ensures
        name@ == store_name(funct3 as nat),
{
    match funct3 {
        0b000 => "sb",
        0b001 => "sh",
        0b010 => "sw",
        _ => "s?",
    }
}

fn immediate_mnemonic(funct3: u32, funct7: u32) -> (name: &'static str)
    ensures
        name@ == immediate_name(funct3 as nat, funct7 as nat),
{
    match funct3 {
        0b000 => "addi ",
        0b001 => "slli ",
        0b010 => "slti ",
        0b011 => "sltiu ",
        0b100 => "xori ",
        0b101 => if funct7 == 0x20 {
            "srai "
        } else {
            "srli "
        },
        0b110 => "ori ",
        _ => "andi ",
    }
}

fn register_mnemonic(funct7: u32, funct3: u32) -> (name: &'static str)
    requires
        funct3 < 8,
    ensures
        name@ == register_name(funct7 as nat, funct3 as nat),
{
    match (funct7, funct3) {
        (0x00, 0b000) => "add",
        (0x20, 0b000) => "sub",
        (0x00, 0b001) => "sll",
        (0x00, 0b010) => "slt",
        (0x00, 0b011) => "sltu",
        (0x00, 0b100) => "xor",
        (0x00, 0b101) => "srl",
        (0x20, 0b101) => "sra",
        (0x00, 0b110) => "or",
        (0x00, 0b111) => "and",
        (0x01, 0b000) => "mul",
        (0x01, 0b001) => "mulh",
        (0x01, 0b010) => "mulhsu",
        (0x01, 0b011) => "mulhu",
        (0x01, 0b100) => "div",
        (0x01, 0b101) => "divu",
        (0x01, 0b110) => "rem",
        (0x01, 0b111) => "remu",
        _ => "r-unknown",
    }
}

/// The text of an instruction of 32 bits at `pc`.
pub fn decode_rv32_mnemonic(inst: u32, pc: u32) -> (text: String)
    ensures
        text@ == rv32_text(inst, pc),
{
    let f = split(inst);
    match f.opcode {
        0x37 => "lui ".to_owned().concat(xreg(f.rd).as_str()).concat(", 0x").concat(
            text::to_hex(f.imm_u).as_str(),
        ),
        0x17 => "auipc ".to_owned().concat(xreg(f.rd).as_str()).concat(", 0x").concat(
            text::to_hex(f.imm_u).as_str(),
        ),
        0x6f => "jal ".to_owned().concat(xreg(f.rd).as_str()).concat(", ").concat(
            text::to_signed(f.imm_j).as_str(),
        ).concat(" -> 0x").concat(target_hex(pc, f.imm_j).as_str()),
        0x67 => "jalr ".to_owned().concat(xreg(f.rd).as_str()).concat(", ").concat(
            text::to_signed(f.imm_i).as_str(),
        ).concat("(").concat(xreg(f.rs1).as_str()).concat(")"),
        0x63 => branch_mnemonic(f.funct3).to_owned().concat(" ").concat(
            xreg(f.rs1).as_str(),
        ).concat(", ").concat(xreg(f.rs2).as_str()).concat(", ").concat(
            text::to_signed(f.imm_b).as_str(),
        ).concat(" -> 0x").concat(target_hex(pc, f.imm_b).as_str()),
        0x03 => load_mnemonic(f.funct3).to_owned().concat(" ").concat(xreg(f.rd).as_str()).concat(
            ", ",
        ).concat(text::to_signed(f.imm_i).as_str()).concat("(").concat(
            xreg(f.rs1).as_str(),
        ).concat(")"),
        0x23 => store_mnemonic(f.funct3).to_owned().concat(" ").concat(
            xreg(f.rs2).as_str(),
        ).concat(", ").concat(text::to_signed(f.imm_s).as_str()).concat("(").concat(
            xreg(f.rs1).as_str(),
        ).concat(")"),
        0x13 => {
            let operand = if f.funct3 == 0b001 || f.funct3 == 0b101 {
                text::to_dec(f.rs2 as u64)
            } else {
                text::to_signed(f.imm_i)
            };
            immediate_mnemonic(f.funct3, f.funct7).to_owned().concat(xreg(f.rd).as_str()).concat(
                ", ",
            ).concat(xreg(f.rs1).as_str()).concat(", ").concat(operand.as_str())
        },
        0x33 => register_mnemonic(f.funct7, f.funct3).to_owned().concat(" ").concat(
            xreg(f.rd).as_str(),
        ).concat(", ").concat(xreg(f.rs1).as_str()).concat(", ").concat(xreg(f.rs2).as_str()),
        0x73 => if inst == 0x0000_0073 {
            "ecall".to_owned()
        } else if inst == 0x0010_0073 {
            "ebreak".to_owned()
        } else {
            "system".to_owned()
        },
        0x0f => "fence".to_owned(),
        _ => "unknown(opcode=0x".to_owned().concat(
            text::to_hex_padded(f.opcode, 2).as_str(),
        ).concat(")"),
    }
}

fn rvc_mnemonic(inst: u16, with_jal: bool) -> (name: &'static str)
    ensures
        name@ == rvc_text(inst, with_jal),
{
    let funct3: u16 = inst / 0x2000;
    match inst % 4 {
        0b01 => match funct3 {
            0b000 => "c.addi",
            0b001 => if with_jal {
                "c.jal"
            } else {
                "c.unknown"
            },
            0b010 => "c.li",
            0b011 => "c.lui/addi16sp",
            0b100 => "c.misc-alu",
            0b101 => "c.j",
            0b110 => "c.beqz",
            _ => "c.bnez",
        },
        0b10 => if funct3 == 0b100 {
            "c.jr/mv/ebreak/jalr/add"
        } else {
            "c.unknown"
        },
        _ => "c.unknown",
    }
}

/// The text of a compressed instruction.
pub fn decode_rvc_mnemonic(inst: u16) -> (text: String)
    ensures
        text@ == rvc_text(inst, true),
{
    rvc_mnemonic(inst, true).to_owned()
}

fn byte_hex(b: u8) -> (hex: String)
    ensures
        hex@ == byte_text(b),
{
    text::to_hex_padded(b as u32, 2)
}

/// The byte at `addr`, if one was written.
fn fetch(memory: &HecateMemory, addr: u32) -> (byte: Option<u8>)
    ensures
        byte is Some <==> memory.bytes@.contains_key(addr),
        byte matches Some(b) ==> b == memory.bytes@[addr],
{
    match memory.bytes.get(&addr) {
        Some(byte) => Some(*byte),
        None => None,
    }
}

fn decode_short(b0: u8, b1: u8, pc: u32, with_jal: bool) -> (decoded: DecodedInstruction)
    ensures
        decoded.snapshot@ == shown(Encoded::Short { b0, b1 }, pc, with_jal),
        decoded.flow == flow_of(Encoded::Short { b0, b1 }, pc),
{
    let half: u16 = b0 as u16 + 256 * b1 as u16;
    let bytes = byte_hex(b0).concat(" ").concat(byte_hex(b1).as_str());
    let quadrant: u16 = half % 4;
    let funct3: u16 = half / 0x2000;
    let rs1: u16 = half / 0x80 % 32;
    let rs2: u16 = half / 4 % 32;
    let bit12: bool = half / 0x1000 % 2 == 1;
    let flow = if quadrant == 0b01 && funct3 == 0b001 {
        InstructionFlow::Call { return_pc: pc.wrapping_add(2) }
    } else if quadrant == 0b10 && funct3 == 0b100 && bit12 && rs2 == 0 && rs1 != 0 {
        InstructionFlow::Call { return_pc: pc.wrapping_add(2) }
    } else {
        InstructionFlow::Linear
    };
    DecodedInstruction {
        snapshot: InstructionSnapshot {
            text: rvc_mnemonic(half, with_jal).to_owned().concat(" (").concat(
                bytes.as_str(),
            ).concat(")"),
            hex: Some("0x".to_owned().concat(text::to_hex_padded(half as u32, 4).as_str())),
            size: Some(2),
            bytes: Some(bytes),
        },
        flow,
    }
}

fn decode_long(b0: u8, b1: u8, b2: u8, b3: u8, pc: u32) -> (decoded: DecodedInstruction)
    ensures
        forall|with_jal: bool| decoded.snapshot@ == #[trigger] shown(
            Encoded::Long { b0, b1, b2, b3 },
            pc,
            with_jal,
        ),
        decoded.flow == flow_of(Encoded::Long { b0, b1, b2, b3 }, pc),
{
    let raw: u32 = b0 as u32 + 0x100 * b1 as u32 + 0x1_0000 * b2 as u32 + 0x100_0000 * b3 as u32;
    let bytes = byte_hex(b0).concat(" ").concat(byte_hex(b1).as_str()).concat(" ").concat(
        byte_hex(b2).as_str(),
    ).concat(" ").concat(byte_hex(b3).as_str());
    let f = split(raw);
    let links: bool = f.rd == 1 || f.rd == 5;
    let flow = if f.opcode == 0x6f && links {
        InstructionFlow::Call { return_pc: pc.wrapping_add(4) }
    } else if f.opcode == 0x67 && f.funct3 == 0 && links {
        InstructionFlow::Call { return_pc: pc.wrapping_add(4) }
    } else {
        InstructionFlow::Linear
    };
    DecodedInstruction {
        snapshot: InstructionSnapshot {
            text: decode_rv32_mnemonic(raw, pc).concat(" (").concat(bytes.as_str()).concat(")"),
            hex: Some("0x".to_owned().concat(text::to_hex_padded(raw, 8).as_str())),
            size: Some(4),
            bytes: Some(bytes),
        },
        flow,
    }
}

/// What stands in memory at `pc`, as it is shown, and where it leads.
#[verifier::rlimit(50)]
#[verifier::spinoff_prover]
pub fn decode_at(memory: &HecateMemory, pc: u32, with_jal: bool) -> (decoded: DecodedInstruction)
    ensures
        decoded.snapshot@ == shown(encoded(memory.bytes@, pc), pc, with_jal),
        decoded.flow == flow_of(encoded(memory.bytes@, pc), pc),
{
    let (Some(b0), Some(b1)) = (fetch(memory, pc), fetch(memory, pc.wrapping_add(1))) else {
        return DecodedInstruction {
            snapshot: InstructionSnapshot {
                text: "Unavailable (memory unmapped at PC)".to_owned(),
                hex: None,
                size: None,
                bytes: None,
            },
            flow: InstructionFlow::Linear,
        };
    };
    if b0 % 4 != 3 {
        return decode_short(b0, b1, pc, with_jal);
    }
    let (Some(b2), Some(b3)) = (
        fetch(memory, pc.wrapping_add(2)),
        fetch(memory, pc.wrapping_add(3)),
    ) else {
        return DecodedInstruction {
            snapshot: InstructionSnapshot {
                text: "Unavailable (incomplete 32-bit instruction at PC)".to_owned(),
                hex: None,
                size: None,
                bytes: Some(byte_hex(b0).concat(" ").concat(byte_hex(b1).as_str())),
            },
            flow: InstructionFlow::Linear,
        };
    };
    decode_long(b0, b1, b2, b3, pc)
}

/// What stands in memory at `pc`, with every call named.
pub fn decode_instruction(memory: &HecateMemory, pc: u32) -> (decoded: DecodedInstruction)
    ensures
        decoded.snapshot@ == shown(encoded(memory.bytes@, pc), pc, true),
        decoded.flow == flow_of(encoded(memory.bytes@, pc), pc),
{
    decode_at(memory, pc, true)
}

/// A call returns to the instruction behind it.
pub proof fn law_calls_return_behind(code: Encoded, pc: u32, with_jal: bool)
    requires
        flow_of(code, pc) is Call,
    ensures
        shown(code, pc, with_jal).size matches Some(size) && flow_of(code, pc) == (
        InstructionFlow::Call { return_pc: memory::wrap32(pc, size as int) }),
{
}

/// What is shown with a size is a whole instruction of two or four bytes, and has a number; of
/// anything else no number is shown.
pub proof fn law_size_is_shown(code: Encoded, pc: u32, with_jal: bool)
    ensures
        shown(code, pc, with_jal).size is Some <==> shown(code, pc, with_jal).hex is Some,
        shown(code, pc, with_jal).size matches Some(size) ==> size == 2 || size == 4,
        shown(code, pc, with_jal).size == Some(2u32) <==> code is Short,
        shown(code, pc, with_jal).size == Some(4u32) <==> code is Long,
{
}

/// Sign extension gives the number with these low bits that lies around zero.
pub proof fn law_extended(value: nat, width: nat)
    requires
        width > 0,
    ensures
        -vstd::arithmetic::power2::pow2((width - 1) as nat) <= extended(value, width)
            < vstd::arithmetic::power2::pow2((width - 1) as nat),
        extended(value, width) % (vstd::arithmetic::power2::pow2(width) as int) == value as int % (
        vstd::arithmetic::power2::pow2(width) as int),
{
    let m = vstd::arithmetic::power2::pow2(width) as int;
    let low = value as int % m;
    vstd::arithmetic::power2::lemma_pow2_pos(width);
    vstd::arithmetic::power2::lemma_pow2_unfold(width);
    vstd::arithmetic::div_mod::lemma_mod_bound(value as int, m);
    vstd::arithmetic::div_mod::lemma_small_mod(low as nat, m as nat);
    vstd::arithmetic::div_mod::lemma_mod_multiples_vanish(-1, low, m);
    assert(m * -1 + low == low - m) by (nonlinear_arith);
}

/// An instruction word with an operation on registers: its fields from the low bits up.
pub open spec fn register_word(
    opcode: nat,
    rd: nat,
    funct3: nat,
    rs1: nat,
    rs2: nat,
    funct7: nat,
) -> u32 {
    (opcode + rd * 0x80 + funct3 * 0x1000 + rs1 * 0x8000 + rs2 * 0x10_0000 + funct7
        * 0x200_0000) as u32
}

/// An instruction word with an immediate operand of twelve bits.
pub open spec fn immediate_word(opcode: nat, rd: nat, funct3: nat, rs1: nat, imm: int) -> u32 {
    (opcode + rd * 0x80 + funct3 * 0x1000 + rs1 * 0x8000 + (imm % 0x1000) * 0x10_0000) as u32
}

/// The instruction word of a store: the low five bits of the offset stand where other
/// instructions have their destination.
pub open spec fn store_word(funct3: nat, rs1: nat, rs2: nat, imm: int) -> u32 {
    let u = imm % 0x1000;
    (0x23 + (u % 32) * 0x80 + funct3 * 0x1000 + rs1 * 0x8000 + rs2 * 0x10_0000 + (u / 32)
        * 0x200_0000) as u32
}

/// The instruction word of a branch over `imm` bytes.
pub open spec fn branch_word(funct3: nat, rs1: nat, rs2: nat, imm: int) -> u32 {
    let u = imm % 0x2000;
    (0x63 + (u / 0x800 % 2) * 0x80 + (u / 2 % 16) * 0x100 + funct3 * 0x1000 + rs1 * 0x8000 + rs2
        * 0x10_0000 + (u / 32 % 64) * 0x200_0000 + (u / 0x1000) * 0x8000_0000) as u32
}

/// The instruction word of a jump over `imm` bytes.
pub open spec fn jump_word(rd: nat, imm: int) -> u32 {
    let u = imm % 0x20_0000;
    (0x6f + rd * 0x80 + (u / 0x1000 % 256) * 0x1000 + (u / 0x800 % 2) * 0x10_0000 + (u / 2 % 1024)
        * 0x20_0000 + (u / 0x10_0000) * 0x8000_0000) as u32
}

/// An instruction word with an upper immediate of twenty bits.
pub open spec fn upper_word(opcode: nat, rd: nat, imm: nat) -> u32 {
    (opcode + rd * 0x80 + imm * 0x1000) as u32
}

/// The fields of a word that was put together from six of them.
#[verifier::rlimit(50)]
proof fn lemma_fields_apart(opcode: nat, rd: nat, funct3: nat, rs1: nat, rs2: nat, funct7: nat)
    requires
        opcode < 128,
        rd < 32,
        funct3 < 8,
        rs1 < 32,
        rs2 < 32,
        funct7 < 128,
    ensures
        ({
            let word = register_word(opcode, rd, funct3, rs1, rs2, funct7);
            &&& word == opcode + rd * 0x80 + funct3 * 0x1000 + rs1 * 0x8000 + rs2 * 0x10_0000
                + funct7 * 0x200_0000
            &&& bits(word, 0, 7) == opcode
            &&& bits(word, 7, 5) == rd
            &&& bits(word, 7, 1) == rd % 2
            &&& bits(word, 8, 4) == rd / 2
            &&& bits(word, 12, 3) == funct3
            &&& bits(word, 12, 8) == funct3 + 8 * rs1
            &&& bits(word, 12, 20) == funct3 + 8 * rs1 + 256 * rs2 + 8192 * funct7
            &&& bits(word, 15, 5) == rs1
            &&& bits(word, 20, 1) == rs2 % 2
            &&& bits(word, 20, 5) == rs2
            &&& bits(word, 20, 12) == rs2 + 32 * funct7
            &&& bits(word, 21, 10) == rs2 / 2 + 16 * (funct7 % 64)
            &&& bits(word, 25, 6) == funct7 % 64
            &&& bits(word, 25, 7) == funct7
            &&& bits(word, 31, 1) == funct7 / 64
        }),
{
    vstd::arithmetic::power2::lemma2_to64();
    let word = opcode + rd * 0x80 + funct3 * 0x1000 + rs1 * 0x8000 + rs2 * 0x10_0000 + funct7
        * 0x200_0000;
    assert(word <= u32::MAX);
    assert(word / 0x80 == rd + 32 * (funct3 + 8 * rs1 + 256 * rs2 + 8192 * funct7));
    assert(word / 0x100 == rd / 2 + 16 * (funct3 + 8 * rs1 + 256 * rs2 + 8192 * funct7));
    assert(word / 0x1000 == funct3 + 8 * (rs1 + 32 * rs2 + 1024 * funct7));
    assert(word / 0x8000 == rs1 + 32 * (rs2 + 32 * funct7));
    assert(word / 0x10_0000 == rs2 + 32 * funct7);
    assert(word / 0x20_0000 == rs2 / 2 + 16 * funct7);
    assert(word / 0x200_0000 == funct7);
    assert(word / 0x8000_0000 == funct7 / 64);
    assert(vstd::arithmetic::power2::pow2(21) == 0x20_0000);
    assert(vstd::arithmetic::power2::pow2(25) == 0x200_0000);
    assert(vstd::arithmetic::power2::pow2(31) == 0x8000_0000);
}

/// What extension of twelve, thirteen and twenty-one bits gives back.
proof fn lemma_extended_back(imm: int)
    ensures
        -0x800 <= imm < 0x800 ==> extended((imm % 0x1000) as nat, 12) == imm,
        -0x1000 <= imm < 0x1000 ==> extended((imm % 0x2000) as nat, 13) == imm,
        -0x10_0000 <= imm < 0x10_0000 ==> extended((imm % 0x20_0000) as nat, 21) == imm,
{
    vstd::arithmetic::power2::lemma2_to64();
    assert(vstd::arithmetic::power2::pow2(21) == 0x20_0000);
}

/// The name of a register is an `x` and its number.
pub proof fn law_register_names(n: nat)
    ensures
        reg(n) == seq!['x'] + text::dec(n),
{
    reveal_strlit("x");
    assert("x"@ == seq!['x']);
}

/// An operation on registers is shown by its name, the register it writes and the two it reads,
/// in that order.
pub proof fn law_register_operations_shown(
    rd: nat,
    funct3: nat,
    rs1: nat,
    rs2: nat,
    funct7: nat,
    pc: u32,
)
    requires
        rd < 32,
        funct3 < 8,
        rs1 < 32,
        rs2 < 32,
        funct7 < 128,
    ensures
        ({
            let shown = rv32_text(register_word(0x33, rd, funct3, rs1, rs2, funct7), pc);
            let operands = " "@ + reg(rd) + ", "@ + reg(rs1) + ", "@ + reg(rs2);
            &&& funct7 == 0 && funct3 == 0 ==> shown == "add"@ + operands
            &&& funct7 == 0 && funct3 == 1 ==> shown == "sll"@ + operands
            &&& funct7 == 0 && funct3 == 2 ==> shown == "slt"@ + operands
            &&& funct7 == 0 && funct3 == 3 ==> shown == "sltu"@ + operands
            &&& funct7 == 0 && funct3 == 4 ==> shown == "xor"@ + operands
            &&& funct7 == 0 && funct3 == 5 ==> shown == "srl"@ + operands
            &&& funct7 == 0 && funct3 == 6 ==> shown == "or"@ + operands
            &&& funct7 == 0 && funct3 == 7 ==> shown == "and"@ + operands
            &&& funct7 == 1 && funct3 == 0 ==> shown == "mul"@ + operands
            &&& funct7 == 1 && funct3 == 1 ==> shown == "mulh"@ + operands
            &&& funct7 == 1 && funct3 == 2 ==> shown == "mulhsu"@ + operands
            &&& funct7 == 1 && funct3 == 3 ==> shown == "mulhu"@ + operands
            &&& funct7 == 1 && funct3 == 4 ==> shown == "div"@ + operands
            &&& funct7 == 1 && funct3 == 5 ==> shown == "divu"@ + operands
            &&& funct7 == 1 && funct3 == 6 ==> shown == "rem"@ + operands
            &&& funct7 == 1 && funct3 == 7 ==> shown == "remu"@ + operands
            &&& funct7 == 32 && funct3 == 0 ==> shown == "sub"@ + operands
            &&& funct7 == 32 && funct3 == 5 ==> shown == "sra"@ + operands
            &&& funct7 > 1 && funct7 != 32 ==> shown == "r-unknown"@ + operands
            &&& funct7 == 32 && funct3 != 0 && funct3 != 5 ==> shown == "r-unknown"@ + operands
        }),
{
    lemma_fields_apart(0x33, rd, funct3, rs1, rs2, funct7);
    let operands = " "@ + reg(rd) + ", "@ + reg(rs1) + ", "@ + reg(rs2);
    let name = register_name(funct7, funct3);
    assert(name + " "@ + reg(rd) + ", "@ + reg(rs1) + ", "@ + reg(rs2) =~= name + operands);
}

/// The word of an instruction with an immediate operand, put together from its fields.
#[verifier::rlimit(50)]
proof fn lemma_immediate_word(opcode: nat, rd: nat, funct3: nat, rs1: nat, imm: int)
    requires
        opcode < 128,
        rd < 32,
        funct3 < 8,
        rs1 < 32,
        -0x800 <= imm < 0x800,
    ensures
        ({
            let word = immediate_word(opcode, rd, funct3, rs1, imm);
            let f = fields(word);
            &&& f.opcode == opcode && f.rd == rd && f.funct3 == funct3 && f.rs1 == rs1
            &&& f.imm_i == imm
        }),
{
    let u = imm % 0x1000;
    lemma_fields_apart(opcode, rd, funct3, rs1, (u % 32) as nat, (u / 32) as nat);
    assert(immediate_word(opcode, rd, funct3, rs1, imm) == register_word(
        opcode,
        rd,
        funct3,
        rs1,
        (u % 32) as nat,
        (u / 32) as nat,
    ));
    lemma_extended_back(imm);
}

/// An operation with an immediate operand is shown by its name, the register it writes, the
/// register it reads and the operand as it was encoded.
pub proof fn law_immediate_operations_shown(rd: nat, funct3: nat, rs1: nat, imm: int, pc: u32)
    requires
        rd < 32,
        funct3 < 8,
        rs1 < 32,
        -0x800 <= imm < 0x800,
    ensures
        ({
            let shown = rv32_text(immediate_word(0x13, rd, funct3, rs1, imm), pc);
            let operands = reg(rd) + ", "@ + reg(rs1) + ", "@ + text::signed(imm);
            &&& funct3 == 0 ==> shown == "addi "@ + operands
            &&& funct3 == 2 ==> shown == "slti "@ + operands
            &&& funct3 == 3 ==> shown == "sltiu "@ + operands
            &&& funct3 == 4 ==> shown == "xori "@ + operands
            &&& funct3 == 6 ==> shown == "ori "@ + operands
            &&& funct3 == 7 ==> shown == "andi "@ + operands
        }),
{
    lemma_immediate_word(0x13, rd, funct3, rs1, imm);
    let word = immediate_word(0x13, rd, funct3, rs1, imm);
    let name = immediate_name(funct3, fields(word).funct7);
    let operands = reg(rd) + ", "@ + reg(rs1) + ", "@ + text::signed(imm);
    assert(name + reg(rd) + ", "@ + reg(rs1) + ", "@ + text::signed(imm) =~= name + operands);
}

/// A shift by a fixed amount is shown by its name, the register it writes, the register it reads
/// and the amount; of the shifts to the right, the upper bits tell the arithmetic one.
pub proof fn law_shifts_shown(rd: nat, rs1: nat, amount: nat, funct7: nat, pc: u32)
    requires
        rd < 32,
        rs1 < 32,
        amount < 32,
        funct7 < 128,
    ensures
        ({
            let left = rv32_text(register_word(0x13, rd, 1, rs1, amount, funct7), pc);
            let right = rv32_text(register_word(0x13, rd, 5, rs1, amount, funct7), pc);
            let operands = reg(rd) + ", "@ + reg(rs1) + ", "@ + text::dec(amount);
            &&& left == "slli "@ + operands
            &&& funct7 == 32 ==> right == "srai "@ + operands
            &&& funct7 != 32 ==> right == "srli "@ + operands
        }),
{
    lemma_fields_apart(0x13, rd, 1, rs1, amount, funct7);
    lemma_fields_apart(0x13, rd, 5, rs1, amount, funct7);
    let operands = reg(rd) + ", "@ + reg(rs1) + ", "@ + text::dec(amount);
    let left = immediate_name(1, funct7);
    let right = immediate_name(5, funct7);
    assert(left + reg(rd) + ", "@ + reg(rs1) + ", "@ + text::dec(amount) =~= left + operands);
    assert(right + reg(rd) + ", "@ + reg(rs1) + ", "@ + text::dec(amount) =~= right + operands);
}

/// A load is shown by its name, the register it writes, and its offset and base as encoded.
pub proof fn law_loads_shown(rd: nat, funct3: nat, rs1: nat, imm: int, pc: u32)
    requires
        rd < 32,
        funct3 < 8,
        rs1 < 32,
        -0x800 <= imm < 0x800,
    ensures
        ({
            let shown = rv32_text(immediate_word(0x03, rd, funct3, rs1, imm), pc);
            let operands = " "@ + reg(rd) + ", "@ + text::signed(imm) + "("@ + reg(rs1) + ")"@;
            &&& funct3 == 0 ==> shown == "lb"@ + operands
            &&& funct3 == 1 ==> shown == "lh"@ + operands
            &&& funct3 == 2 ==> shown == "lw"@ + operands
            &&& funct3 == 4 ==> shown == "lbu"@ + operands
            &&& funct3 == 5 ==> shown == "lhu"@ + operands
            &&& funct3 == 3 || funct3 > 5 ==> shown == "l?"@ + operands
        }),
{
    lemma_immediate_word(0x03, rd, funct3, rs1, imm);
    let operands = " "@ + reg(rd) + ", "@ + text::signed(imm) + "("@ + reg(rs1) + ")"@;
    let name = load_name(funct3);
    assert(name + " "@ + reg(rd) + ", "@ + text::signed(imm) + "("@ + reg(rs1) + ")"@ =~= name
        + operands);
}

/// A store is shown by its name, the register it stores, and its offset and base as encoded.
pub proof fn law_stores_shown(funct3: nat, rs1: nat, rs2: nat, imm: int, pc: u32)
    requires
        funct3 < 8,
        rs1 < 32,
        rs2 < 32,
        -0x800 <= imm < 0x800,
    ensures
        ({
            let shown = rv32_text(store_word(funct3, rs1, rs2, imm), pc);
            let operands = " "@ + reg(rs2) + ", "@ + text::signed(imm) + "("@ + reg(rs1) + ")"@;
            &&& funct3 == 0 ==> shown == "sb"@ + operands
            &&& funct3 == 1 ==> shown == "sh"@ + operands
            &&& funct3 == 2 ==> shown == "sw"@ + operands
            &&& funct3 > 2 ==> shown == "s?"@ + operands
        }),
{
    let u = imm % 0x1000;
    lemma_fields_apart(0x23, (u % 32) as nat, funct3, rs1, rs2, (u / 32) as nat);
    lemma_extended_back(imm);
    let operands = " "@ + reg(rs2) + ", "@ + text::signed(imm) + "("@ + reg(rs1) + ")"@;
    let name = store_name(funct3);
    assert(name + " "@ + reg(rs2) + ", "@ + text::signed(imm) + "("@ + reg(rs1) + ")"@ =~= name
        + operands);
}

/// The parts of a distance of thirteen bits, as a branch holds them.
#[verifier::rlimit(50)]
proof fn lemma_branch_parts(u: int)
    requires
        0 <= u < 0x2000,
        u % 2 == 0,
    ensures
        0 <= u / 0x1000 < 2,
        u == (u / 0x1000) * 0x1000 + (u / 0x800 % 2) * 0x800 + (u / 32 % 64) * 32 + (u / 2 % 16) * 2,
{
    assert(u / 0x800 / 2 == u / 0x1000);
    assert(u / 32 / 64 == u / 0x800);
    assert(u / 2 / 16 == u / 32);
}

/// The fields of a word that holds the parts of a distance as a branch holds them.
#[verifier::rlimit(50)]
proof fn lemma_branch_fields(
    funct3: nat,
    rs1: nat,
    rs2: nat,
    high: nat,
    bit: nat,
    middle: nat,
    low: nat,
)
    requires
        funct3 < 8,
        rs1 < 32,
        rs2 < 32,
        high < 2,
        bit < 2,
        middle < 64,
        low < 16,
    ensures
        ({
            let word = (0x63 + bit * 0x80 + low * 0x100 + funct3 * 0x1000 + rs1 * 0x8000 + rs2
                * 0x10_0000 + middle * 0x200_0000 + high * 0x8000_0000) as u32;
            &&& bits(word, 0, 7) == 0x63
            &&& bits(word, 12, 3) == funct3
            &&& bits(word, 15, 5) == rs1
            &&& bits(word, 20, 5) == rs2
            &&& bits(word, 7, 1) == bit
            &&& bits(word, 8, 4) == low
            &&& bits(word, 25, 6) == middle
            &&& bits(word, 31, 1) == high
        }),
{
    let rd = bit + 2 * low;
    let funct7 = middle + 64 * high;
    lemma_fields_apart(0x63, rd, funct3, rs1, rs2, funct7);
    assert(rd * 0x80 == bit * 0x80 + low * 0x100);
    assert(funct7 * 0x200_0000 == middle * 0x200_0000 + high * 0x8000_0000);
}

/// The fields of a branch over `imm` bytes.
#[verifier::rlimit(50)]
proof fn lemma_branch_word(funct3: nat, rs1: nat, rs2: nat, imm: int)
    requires
        funct3 < 8,
        rs1 < 32,
        rs2 < 32,
        -0x1000 <= imm < 0x1000,
        imm % 2 == 0,
    ensures
        ({
            let f = fields(branch_word(funct3, rs1, rs2, imm));
            &&& f.opcode == 0x63 && f.funct3 == funct3 && f.rs1 == rs1 && f.rs2 == rs2
            &&& f.imm_b == imm
        }),
{
    let u = imm % 0x2000;
    assert(u % 2 == 0);
    lemma_branch_parts(u);
    lemma_branch_fields(
        funct3,
        rs1,
        rs2,
        (u / 0x1000) as nat,
        (u / 0x800 % 2) as nat,
        (u / 32 % 64) as nat,
        (u / 2 % 16) as nat,
    );
    lemma_extended_back(imm);
}

/// A branch is shown by its name, the two registers it compares, how far it goes, and where that
/// leads from where it stands.
pub proof fn law_branches_shown(funct3: nat, rs1: nat, rs2: nat, imm: int, pc: u32, goal: u32)
    requires
        funct3 < 8,
        rs1 < 32,
        rs2 < 32,
        -0x1000 <= imm < 0x1000,
        imm % 2 == 0,
        goal == pc + imm || goal == pc + imm - 0x1_0000_0000 || goal == pc + imm + 0x1_0000_0000,
    ensures
        ({
            let shown = rv32_text(branch_word(funct3, rs1, rs2, imm), pc);
            let operands = " "@ + reg(rs1) + ", "@ + reg(rs2) + ", "@ + text::signed(imm)
                + " -> 0x"@ + text::hex_padded(goal as nat, 8);
            &&& funct3 == 0 ==> shown == "beq"@ + operands
            &&& funct3 == 1 ==> shown == "bne"@ + operands
            &&& funct3 == 4 ==> shown == "blt"@ + operands
            &&& funct3 == 5 ==> shown == "bge"@ + operands
            &&& funct3 == 6 ==> shown == "bltu"@ + operands
            &&& funct3 == 7 ==> shown == "bgeu"@ + operands
            &&& funct3 == 2 || funct3 == 3 ==> shown == "b?"@ + operands
        }),
{
    lemma_branch_word(funct3, rs1, rs2, imm);
    assert(target(pc, imm) == goal);
    let goal_text = text::hex_padded(goal as nat, 8);
    let operands = " "@ + reg(rs1) + ", "@ + reg(rs2) + ", "@ + text::signed(imm) + " -> 0x"@
        + goal_text;
    let name = branch_name(funct3);
    assert(name + " "@ + reg(rs1) + ", "@ + reg(rs2) + ", "@ + text::signed(imm) + " -> 0x"@
        + goal_text =~= name + operands);
}

/// The parts of a distance of twenty-one bits, as a jump holds them.
#[verifier::rlimit(50)]
proof fn lemma_jump_parts(u: int)
    requires
        0 <= u < 0x20_0000,
        u % 2 == 0,
    ensures
        0 <= u / 0x10_0000 < 2,
        u == (u / 0x10_0000) * 0x10_0000 + (u / 0x1000 % 256) * 0x1000 + (u / 0x800 % 2) * 0x800 + (
        u / 2 % 1024) * 2,
{
    assert(u / 0x1000 / 256 == u / 0x10_0000);
    assert(u / 0x800 / 2 == u / 0x1000);
    assert(u / 2 / 1024 == u / 0x800);
}

/// The fields of a word that holds the parts of a distance as a jump holds them.
#[verifier::rlimit(50)]
proof fn lemma_jump_fields(rd: nat, high: nat, middle: nat, bit: nat, low: nat)
    requires
        rd < 32,
        high < 2,
        middle < 256,
        bit < 2,
        low < 1024,
    ensures
        ({
            let word = (0x6f + rd * 0x80 + middle * 0x1000 + bit * 0x10_0000 + low * 0x20_0000
                + high * 0x8000_0000) as u32;
            &&& bits(word, 0, 7) == 0x6f
            &&& bits(word, 7, 5) == rd
            &&& bits(word, 12, 8) == middle
            &&& bits(word, 20, 1) == bit
            &&& bits(word, 21, 10) == low
            &&& bits(word, 31, 1) == high
        }),
{
    let funct3 = middle % 8;
    let rs1 = middle / 8;
    let rs2 = bit + 2 * (low % 16);
    let funct7 = low / 16 + 64 * high;
    lemma_fields_apart(0x6f, rd, funct3, rs1, rs2, funct7);
    assert(middle == funct3 + 8 * rs1);
    assert(low == low % 16 + 16 * (low / 16));
    assert(middle * 0x1000 == funct3 * 0x1000 + rs1 * 0x8000);
    assert(bit * 0x10_0000 + low * 0x20_0000 + high * 0x8000_0000 == rs2 * 0x10_0000 + funct7
        * 0x200_0000);
}

/// The fields of a jump over `imm` bytes.
#[verifier::rlimit(50)]
proof fn lemma_jump_word(rd: nat, imm: int)
    requires
        rd < 32,
        -0x10_0000 <= imm < 0x10_0000,
        imm % 2 == 0,
    ensures
        ({
            let f = fields(jump_word(rd, imm));
            &&& f.opcode == 0x6f && f.rd == rd
            &&& f.imm_j == imm
        }),
{
    let u = imm % 0x20_0000;
    assert(u % 2 == 0);
    lemma_jump_parts(u);
    lemma_jump_fields(
        rd,
        (u / 0x10_0000) as nat,
        (u / 0x1000 % 256) as nat,
        (u / 0x800 % 2) as nat,
        (u / 2 % 1024) as nat,
    );
    lemma_extended_back(imm);
}

/// A jump is shown by the register that it links, how far it goes, and where that leads from where
/// it stands.
pub proof fn law_jumps_shown(rd: nat, imm: int, pc: u32, goal: u32)
    requires
        rd < 32,
        -0x10_0000 <= imm < 0x10_0000,
        imm % 2 == 0,
        goal == pc + imm || goal == pc + imm - 0x1_0000_0000 || goal == pc + imm + 0x1_0000_0000,
    ensures
        rv32_text(jump_word(rd, imm), pc) == "jal "@ + reg(rd) + ", "@ + text::signed(imm)
            + " -> 0x"@ + text::hex_padded(goal as nat, 8),
{
    lemma_jump_word(rd, imm);
    assert(target(pc, imm) == goal);
}

/// A jump to a register is shown by the register that it links, and its offset and base.
pub proof fn law_register_jumps_shown(rd: nat, funct3: nat, rs1: nat, imm: int, pc: u32)
    requires
        rd < 32,
        funct3 < 8,
        rs1 < 32,
        -0x800 <= imm < 0x800,
    ensures
        rv32_text(immediate_word(0x67, rd, funct3, rs1, imm), pc) == "jalr "@ + reg(rd) + ", "@
            + text::signed(imm) + "("@ + reg(rs1) + ")"@,
{
    lemma_immediate_word(0x67, rd, funct3, rs1, imm);
}

/// An upper immediate is shown as the number that it makes, in the upper twenty bits.
#[verifier::rlimit(50)]
pub proof fn law_upper_immediates_shown(rd: nat, imm: nat, pc: u32)
    requires
        rd < 32,
        imm < 0x10_0000,
    ensures
        rv32_text(upper_word(0x37, rd, imm), pc) == "lui "@ + reg(rd) + ", 0x"@ + text::hex(
            imm * 0x1000,
        ),
        rv32_text(upper_word(0x17, rd, imm), pc) == "auipc "@ + reg(rd) + ", 0x"@ + text::hex(
            imm * 0x1000,
        ),
{
    let funct3 = imm % 8;
    let rs1 = imm / 8 % 32;
    let rs2 = imm / 256 % 32;
    let funct7 = imm / 8192;
    lemma_fields_apart(0x37, rd, funct3, rs1, rs2, funct7);
    lemma_fields_apart(0x17, rd, funct3, rs1, rs2, funct7);
    assert(upper_word(0x37, rd, imm) == register_word(0x37, rd, funct3, rs1, rs2, funct7));
    assert(upper_word(0x17, rd, imm) == register_word(0x17, rd, funct3, rs1, rs2, funct7));
}

/// The calls to the system have names of their own, one word each; other words with their opcode,
/// fences and what has no known opcode are shown as such.
pub proof fn law_other_words_shown(
    opcode: nat,
    rd: nat,
    funct3: nat,
    rs1: nat,
    rs2: nat,
    funct7: nat,
    pc: u32,
)
    requires
        opcode < 128,
        rd < 32,
        funct3 < 8,
        rs1 < 32,
        rs2 < 32,
        funct7 < 128,
    ensures
        ({
            let shown = rv32_text(register_word(opcode, rd, funct3, rs1, rs2, funct7), pc);
            let zero = rd == 0 && funct3 == 0 && rs1 == 0 && funct7 == 0;
            &&& opcode == 0x73 && zero && rs2 == 0 ==> shown == "ecall"@
            &&& opcode == 0x73 && zero && rs2 == 1 ==> shown == "ebreak"@
            &&& opcode == 0x73 && !(zero && rs2 <= 1) ==> shown == "system"@
            &&& opcode == 0x0f ==> shown == "fence"@
            &&& !(set![0x37nat, 0x17, 0x6f, 0x67, 0x63, 0x03, 0x23, 0x13, 0x33, 0x73, 0x0f]
                .contains(opcode)) ==> shown == "unknown(opcode=0x"@ + text::hex_padded(opcode, 2)
                + ")"@
        }),
{
    lemma_fields_apart(opcode, rd, funct3, rs1, rs2, funct7);
}

/// The names of compressed instructions go by their lowest two bits and their highest three,
/// whatever stands between.
pub proof fn law_compressed_names(quadrant: nat, middle: nat, funct3: nat, with_jal: bool)
    requires
        quadrant < 4,
        middle < 0x800,
        funct3 < 8,
    ensures
        ({
            let name = rvc_text((quadrant + middle * 4 + funct3 * 0x2000) as u16, with_jal);
            &&& quadrant == 1 && funct3 == 0 ==> name == "c.addi"@
            &&& quadrant == 1 && funct3 == 1 && with_jal ==> name == "c.jal"@
            &&& quadrant == 1 && funct3 == 1 && !with_jal ==> name == "c.unknown"@
            &&& quadrant == 1 && funct3 == 2 ==> name == "c.li"@
            &&& quadrant == 1 && funct3 == 3 ==> name == "c.lui/addi16sp"@
            &&& quadrant == 1 && funct3 == 4 ==> name == "c.misc-alu"@
            &&& quadrant == 1 && funct3 == 5 ==> name == "c.j"@
            &&& quadrant == 1 && funct3 == 6 ==> name == "c.beqz"@
            &&& quadrant == 1 && funct3 == 7 ==> name == "c.bnez"@
            &&& quadrant == 2 && funct3 == 4 ==> name == "c.jr/mv/ebreak/jalr/add"@
            &&& quadrant == 2 && funct3 != 4 ==> name == "c.unknown"@
            &&& quadrant == 0 || quadrant == 3 ==> name == "c.unknown"@
        }),
{
    let half = (quadrant + middle * 4 + funct3 * 0x2000) as u16;
    assert(half == quadrant + middle * 4 + funct3 * 0x2000);
    assert(half % 4 == quadrant);
    assert(half / 0x2000 == funct3);
}

/// A number that was split into its bytes, the low byte first, is put together again.
pub proof fn law_bytes_make_words(word: u32, half: u16)
    ensures
        word_of(
            (word % 256) as u8,
            (word / 0x100 % 256) as u8,
            (word / 0x1_0000 % 256) as u8,
            (word / 0x100_0000) as u8,
        ) == word,
        half_of((half % 256) as u8, (half / 256) as u8) == half,
{
}

/// What stands at `pc`: the two low bits of its first byte tell whether it has two bytes or four;
/// it is cut off if one of the upper two was never written, and unmapped if one of the lower two
/// was not.
pub proof fn law_lengths(bytes: Map<u32, u8>, pc: u32, p1: u32, p2: u32, p3: u32)
    requires
        p1 == pc + 1 || (pc == 0xffff_ffff && p1 == 0),
        p2 == p1 + 1 || (p1 == 0xffff_ffff && p2 == 0),
        p3 == p2 + 1 || (p2 == 0xffff_ffff && p3 == 0),
    ensures
        encoded(bytes, pc) is Unmapped <==> !(bytes.contains_key(pc) && bytes.contains_key(p1)),
        encoded(bytes, pc) matches Encoded::Short { b0, b1 } ==> b0 == bytes[pc] && b1 == bytes[p1]
            && (b0 % 4 == 0 || b0 % 4 == 1 || b0 % 4 == 2),
        encoded(bytes, pc) matches Encoded::Cut { b0, b1 } ==> b0 == bytes[pc] && b1 == bytes[p1]
            && b0 % 4 == 3 && !(bytes.contains_key(p2) && bytes.contains_key(p3)),
        encoded(bytes, pc) matches Encoded::Long { b0, b1, b2, b3 } ==> b0 == bytes[pc] && b1
            == bytes[p1] && b2 == bytes[p2] && b3 == bytes[p3] && b0 % 4 == 3
            && bytes.contains_key(p2) && bytes.contains_key(p3),
{
}

/// An instruction is shown with its bytes behind its text in round brackets, in the order in which
/// they stand in memory, and with its number, which starts with the last of them.
pub proof fn law_bytes_are_shown(b0: u8, b1: u8, b2: u8, b3: u8, pc: u32, with_jal: bool)
    ensures
        ({
            let two = text::hex_padded(b0 as nat, 2) + " "@ + text::hex_padded(b1 as nat, 2);
            let four = two + " "@ + text::hex_padded(b2 as nat, 2) + " "@ + text::hex_padded(
                b3 as nat,
                2,
            );
            let short = shown(Encoded::Short { b0, b1 }, pc, with_jal);
            let long = shown(Encoded::Long { b0, b1, b2, b3 }, pc, with_jal);
            let cut = shown(Encoded::Cut { b0, b1 }, pc, with_jal);
            let none = shown(Encoded::Unmapped, pc, with_jal);
            &&& short.bytes == Some(two)
            &&& short.hex == Some("0x"@ + text::hex_padded((b0 + 256 * b1) as nat, 4))
            &&& short.text == rvc_text((b0 + 256 * b1) as u16, with_jal) + " ("@ + two + ")"@
            &&& long.bytes == Some(four)
            &&& long.hex == Some(
                "0x"@ + text::hex_padded(
                    (b0 + 0x100 * b1 + 0x1_0000 * b2 + 0x100_0000 * b3) as nat,
                    8,
                ),
            )
            &&& long.text == rv32_text(
                (b0 + 0x100 * b1 + 0x1_0000 * b2 + 0x100_0000 * b3) as u32,
                pc,
            ) + " ("@ + four + ")"@
            &&& cut.bytes == Some(two)
            &&& cut.text == "Unavailable (incomplete 32-bit instruction at PC)"@
            &&& none.text == "Unavailable (memory unmapped at PC)"@
            &&& none.bytes is None && none.size is None
            &&& cut.size is None
        }),
{
    assert((b0 + 256 * b1) as u16 as nat == b0 + 256 * b1);
    assert((b0 + 0x100 * b1 + 0x1_0000 * b2 + 0x100_0000 * b3) as u32 as nat == b0 + 0x100 * b1
        + 0x1_0000 * b2 + 0x100_0000 * b3);
}

/// A jump is a call if and only if it links one of the two link registers, whatever it jumps over;
/// it returns four bytes on.
pub proof fn law_jumps_that_call(code: Encoded, rd: nat, imm: int, pc: u32, behind: u32)
    requires
        rd < 32,
        -0x10_0000 <= imm < 0x10_0000,
        imm % 2 == 0,
        code matches Encoded::Long { b0, b1, b2, b3 } && word_of(b0, b1, b2, b3) == jump_word(
            rd,
            imm,
        ),
        behind == pc + 4 || behind == pc + 4 - 0x1_0000_0000,
    ensures
        rd == 1 || rd == 5 ==> flow_of(code, pc) == (InstructionFlow::Call { return_pc: behind }),
        rd != 1 && rd != 5 ==> flow_of(code, pc) == InstructionFlow::Linear,
{
    lemma_jump_word(rd, imm);
}

/// A jump to a register is a call if and only if it links one of the two link registers, whatever
/// register and offset it jumps to; it returns four bytes on.
pub proof fn law_register_jumps_that_call(
    code: Encoded,
    rd: nat,
    funct3: nat,
    rs1: nat,
    imm: int,
    pc: u32,
    behind: u32,
)
    requires
        rd < 32,
        funct3 < 8,
        rs1 < 32,
        -0x800 <= imm < 0x800,
        code matches Encoded::Long { b0, b1, b2, b3 } && word_of(b0, b1, b2, b3) == immediate_word(
            0x67,
            rd,
            funct3,
            rs1,
            imm,
        ),
        behind == pc + 4 || behind == pc + 4 - 0x1_0000_0000,
    ensures
        funct3 == 0 && (rd == 1 || rd == 5) ==> flow_of(code, pc) == (InstructionFlow::Call {
            return_pc: behind,
        }),
        funct3 != 0 || (rd != 1 && rd != 5) ==> flow_of(code, pc) == InstructionFlow::Linear,
{
    lemma_immediate_word(0x67, rd, funct3, rs1, imm);
}

/// Nothing but a jump is a call among the instructions of four bytes, and what is not there as a
/// whole is none either.
pub proof fn law_other_words_do_not_call(
    code: Encoded,
    opcode: nat,
    rd: nat,
    funct3: nat,
    rs1: nat,
    rs2: nat,
    funct7: nat,
    pc: u32,
)
    requires
        opcode < 128,
        opcode != 0x6f,
        opcode != 0x67,
        rd < 32,
        funct3 < 8,
        rs1 < 32,
        rs2 < 32,
        funct7 < 128,
        code matches Encoded::Long { b0, b1, b2, b3 } ==> word_of(b0, b1, b2, b3) == register_word(
            opcode,
            rd,
            funct3,
            rs1,
            rs2,
            funct7,
        ),
        code !is Short,
    ensures
        flow_of(code, pc) == InstructionFlow::Linear,
{
    lemma_fields_apart(opcode, rd, funct3, rs1, rs2, funct7);
}

/// Of the compressed instructions two call: the jump over a distance that links, and the jump to a
/// register that does. They return two bytes on.
#[verifier::rlimit(50)]
pub proof fn law_compressed_calls(
    b0: u8,
    b1: u8,
    quadrant: nat,
    rs2: nat,
    rs1: nat,
    bit: nat,
    funct3: nat,
    pc: u32,
    behind: u32,
)
    requires
        quadrant < 4,
        rs2 < 32,
        rs1 < 32,
        bit < 2,
        funct3 < 8,
        b0 + 256 * b1 == quadrant + rs2 * 4 + rs1 * 0x80 + bit * 0x1000 + funct3 * 0x2000,
        behind == pc + 2 || behind == pc + 2 - 0x1_0000_0000,
    ensures
        ({
            let flow = flow_of(Encoded::Short { b0, b1 }, pc);
            let links = quadrant == 1 && funct3 == 1;
            let links_register = quadrant == 2 && funct3 == 4 && bit == 1 && rs2 == 0 && rs1 > 0;
            &&& links || links_register ==> flow == (InstructionFlow::Call { return_pc: behind })
            &&& !links && !links_register ==> flow == InstructionFlow::Linear
        }),
{
    let half = half_of(b0, b1);
    assert(half == quadrant + rs2 * 4 + rs1 * 0x80 + bit * 0x1000 + funct3 * 0x2000);
    assert(half % 4 == quadrant);
    assert(half / 0x2000 == funct3);
    assert(half / 0x80 == rs1 + 32 * bit + 64 * funct3);
    assert(half / 4 == rs2 + 32 * rs1 + 1024 * bit + 2048 * funct3);
    assert(half / 0x1000 == bit + 2 * funct3);
}

} // verus!
