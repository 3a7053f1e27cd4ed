use crate::amd64::{Instruction, Operand};
use crate::errors::CargoAsmError;
use capstone::arch::x86::{ArchMode, ArchSyntax, X86OperandType};
use capstone::arch::{ArchDetail, BuildsCapstone, BuildsCapstoneSyntax, DetailsArchInsn};
use capstone::Capstone;
use vstd::prelude::*;

verus! {

/// Where an instruction stands, its bytes, and how the decoder prints it.
pub struct InsnText {
    pub address: u64,
    pub bytes: Vec<u8>,
    pub mnemonic: Option<String>,
    pub op_str: Option<String>,
}

/// The groups of an instruction, and the bytes of its opcode where it is an instruction of
/// x86.
pub struct InsnClass {
    pub groups: Vec<u8>,
    pub opcode: Option<Vec<u8>>,
}

/// What capstone, set to x86 with 64 bits, Intel syntax and details, prints for the
/// instructions that it decodes from `code` as it stands at `addr`, or nothing where it
/// fails.
pub uninterp spec fn decoded_texts(code: Seq<u8>, addr: u64) -> Option<Seq<InsnText>>;

/// The groups and the opcodes that capstone, set to x86 with 64 bits and details, gives for
/// the instructions that it decodes from `code` as it stands at `addr`, or nothing where it
/// fails.
pub uninterp spec fn decoded_classes(code: Seq<u8>, addr: u64) -> Option<Seq<InsnClass>>;

/// The operands that capstone, set to x86 with 64 bits and details, gives for the
/// instructions that it decodes from `code` as it stands at `addr`, for each instruction of
/// x86, or nothing where it fails.
pub uninterp spec fn decoded_operands(code: Seq<u8>, addr: u64) -> Option<
    Seq<Option<Vec<Operand>>>,
>;

/// The error of capstone.
#[verifier::external_type_specification]
#[verifier::external_body]
pub struct ExCapstoneError(capstone::Error);

/// Prints an error of capstone with its `Display`. Nothing is claimed of the text.
#[verifier::external_body]
fn capstone_error_message(error: &capstone::Error) -> String {
    error.to_string()
}

/// An error of the decoder, as capstone gave it.
#[derive(Debug)]
pub struct WCapstoneError(pub capstone::Error);

impl WCapstoneError {
    /// The text of the error, as capstone prints it.
    pub fn message(&self) -> String {
        capstone_error_message(&self.0)
    }
}

/// Builds a `Capstone` for x86 with 64 bits, Intel syntax and details, calls `disasm_all`,
/// and hands out the address, the bytes, the mnemonic and the operand text of each
/// instruction. Claims only that the result is the one named `decoded_texts`.
#[verifier::external_body]
fn capstone_texts(code: &[u8], addr: u64) -> (r: Result<Vec<InsnText>, capstone::Error>)
    ensures
        match r {
            Ok(texts) => decoded_texts(code@, addr) == Some(texts@),
            Err(_) => decoded_texts(code@, addr) is None,
        },
{
    let cs = Capstone::new().x86().mode(ArchMode::Mode64).syntax(ArchSyntax::Intel).detail(true)
        .build()?;
    let insns = cs.disasm_all(code, addr)?;
    Ok(insns.iter().map(|insn| InsnText {
        address: insn.address(),
        bytes: insn.bytes().to_vec(),
        mnemonic: insn.mnemonic().map(str::to_string),
        op_str: insn.op_str().map(str::to_string),
    }).collect())
}

/// Builds a `Capstone` for x86 with 64 bits and details, calls `disasm_all` and
/// `insn_detail`, and hands out the groups of each instruction and, of an instruction of x86, the opcode. Claims only that
/// the result is the one named `decoded_classes`.
#[verifier::external_body]
fn capstone_classes(code: &[u8], addr: u64) -> (r: Result<Vec<InsnClass>, capstone::Error>)
    ensures
        match r {
            Ok(classes) => decoded_classes(code@, addr) == Some(classes@),
            Err(_) => decoded_classes(code@, addr) is None,
        },
{
    let cs = Capstone::new().x86().mode(ArchMode::Mode64).detail(true).build()?;
    let insns = cs.disasm_all(code, addr)?;
    insns.iter().map(|insn| cs.insn_detail(insn).map(|detail| InsnClass {
        groups: detail.groups().iter().map(|group| group.0).collect(),
        opcode: match detail.arch_detail() {
            ArchDetail::X86Detail(x86) => Some(x86.opcode().to_vec()),
            _ => None,
        },
    })).collect()
}

/// Builds a `Capstone` for x86 with 64 bits and details, calls `disasm_all` and
/// `insn_detail`, and hands out the operands of each instruction of x86, registers by their numbers. Claims only that the
/// result is the one named `decoded_operands`.
#[verifier::external_body]
fn capstone_operands(code: &[u8], addr: u64) -> (r: Result<
    Vec<Option<Vec<Operand>>>,
    capstone::Error,
>)
    ensures
        match r {
            Ok(operands) => decoded_operands(code@, addr) == Some(operands@),
            Err(_) => decoded_operands(code@, addr) is None,
        },
{
    let cs = Capstone::new().x86().mode(ArchMode::Mode64).detail(true).build()?;
    let insns = cs.disasm_all(code, addr)?;
    insns.iter().map(|insn| Ok(match cs.insn_detail(insn)?.arch_detail() {
        ArchDetail::X86Detail(x86) => Some(x86.operands().map(|operand| match operand.op_type {
            X86OperandType::Reg(reg) => Operand::Reg(reg.0),
            X86OperandType::Imm(value) => Operand::Imm(value),
            X86OperandType::Mem(mem) => Operand::Mem { segment: mem.segment().0, base: mem.base().0, index: mem.index().0, disp: mem.disp() },
            _ => Operand::Invalid,
        }).collect()),
        _ => None,
    })).collect()
}

/// The instruction that the three parts describe: no mnemonic and no operand text are empty
/// texts, and an instruction that is not one of x86 has no opcode and no operands.
pub open spec fn is_instruction(
    instr: Instruction,
    text: InsnText,
    class: InsnClass,
    operands: Option<Vec<Operand>>,
) -> bool {
    &&& instr.address == text.address
    &&& instr.bytes@ == text.bytes@
    &&& instr.mnemonic@ == match text.mnemonic {
        Some(mnemonic) => mnemonic@,
        None => Seq::empty(),
    }
    &&& instr.op_str@ == match text.op_str {
        Some(op_str) => op_str@,
        None => Seq::empty(),
    }
    &&& instr.groups@ == class.groups@
    &&& instr.opcode@ == match class.opcode {
        Some(opcode) => opcode@,
        None => Seq::empty(),
    }
    &&& instr.operands@ == match operands {
        Some(list) => list@,
        None => Seq::empty(),
    }
}

/// The instructions that the three lists describe, one by one.
pub open spec fn are_instructions(
    instrs: Seq<Instruction>,
    texts: Seq<InsnText>,
    classes: Seq<InsnClass>,
    operands: Seq<Option<Vec<Operand>>>,
) -> bool {
    &&& instrs.len() == texts.len()
    &&& forall|i: int|
        0 <= i < instrs.len() ==> is_instruction(
            #[trigger] instrs[i],
            texts[i],
            classes[i],
            operands[i],
        )
}

/// A copy of `bytes`.
fn copy_bytes(bytes: &Vec<u8>) -> (r: Vec<u8>)
    ensures
        r@ == bytes@,
{
    let mut out: Vec<u8> = Vec::new();
    let mut i: usize = 0;
    while i < bytes.len()
        invariant
            i <= bytes@.len(),
            out@ == bytes@.take(i as int),
        decreases bytes@.len() - i,
    {
        out.push(bytes[i]);
        i += 1;
        proof {
            assert(out@ =~= bytes@.take(i as int));
        }
    }
    proof {
        assert(bytes@.take(bytes@.len() as int) =~= bytes@);
    }
    out
}

/// A copy of `operands`.
fn copy_operands(operands: &Vec<Operand>) -> (r: Vec<Operand>)
    ensures
        r@ == operands@,
{
    let mut out: Vec<Operand> = Vec::new();
    let mut i: usize = 0;
    while i < operands.len()
        invariant
            i <= operands@.len(),
            out@ == operands@.take(i as int),
        decreases operands@.len() - i,
    {
        out.push(operands[i]);
        i += 1;
        proof {
            assert(out@ =~= operands@.take(i as int));
        }
    }
    proof {
        assert(operands@.take(operands@.len() as int) =~= operands@);
    }
    out
}

/// The instructions that the three lists describe, one by one; nothing where the lists
/// differ in length.
pub fn assemble_instructions(
    texts: &Vec<InsnText>,
    classes: &Vec<InsnClass>,
    operands: &Vec<Option<Vec<Operand>>>,
) -> (r: Option<Vec<Instruction>>)
    ensures
        match r {
            Some(instrs) => texts@.len() == classes@.len() && texts@.len() == operands@.len()
                && are_instructions(instrs@, texts@, classes@, operands@),
            None => texts@.len() != classes@.len() || texts@.len() != operands@.len(),
        },
{
    let len = texts.len();
    if classes.len() != len || operands.len() != len {
        return None;
    }
    let mut instrs: Vec<Instruction> = Vec::new();
    let mut i: usize = 0;
    while i < len
        invariant
            i <= len,
            len == texts@.len(),
            len == classes@.len(),
            len == operands@.len(),
            instrs@.len() == i,
            forall|k: int|
                0 <= k < i ==> is_instruction(
                    #[trigger] instrs@[k],
                    texts@[k],
                    classes@[k],
                    operands@[k],
                ),
        decreases len - i,
    {
        let text = &texts[i];
        let class = &classes[i];
        let instr = Instruction {
            address: text.address,
            bytes: copy_bytes(&text.bytes),
            mnemonic: match &text.mnemonic {
                Some(mnemonic) => mnemonic.clone(),
                None => String::new(),
            },
            op_str: match &text.op_str {
                Some(op_str) => op_str.clone(),
                None => String::new(),
            },
            groups: copy_bytes(&class.groups),
            opcode: match &class.opcode {
                Some(opcode) => copy_bytes(opcode),
                None => Vec::new(),
            },
            operands: match &operands[i] {
                Some(list) => copy_operands(list),
                None => Vec::new(),
            },
        };
        instrs.push(instr);
        i += 1;
    }
    Some(instrs)
}

/// The decoder reads the bytes `code` as they stand at `addr`, and its answers agree in the
/// number of instructions.
pub open spec fn decodable(code: Seq<u8>, addr: u64) -> bool {
    match (decoded_texts(code, addr), decoded_classes(code, addr), decoded_operands(code, addr)) {
        (Some(texts), Some(classes), Some(operands)) => texts.len() == classes.len()
            && texts.len() == operands.len(),
        _ => false,
    }
}

/// `instrs` are the instructions that the decoder reads in the bytes `code` as they stand at
/// `addr`.
pub open spec fn decoded(code: Seq<u8>, addr: u64, instrs: Seq<Instruction>) -> bool {
    match (decoded_texts(code, addr), decoded_classes(code, addr), decoded_operands(code, addr)) {
        (Some(texts), Some(classes), Some(operands)) => texts.len() == classes.len()
            && texts.len() == operands.len() && are_instructions(
            instrs,
            texts,
            classes,
            operands,
        ),
        _ => false,
    }
}

/// The instructions of x86 with 64 bits that the bytes `code` hold as they stand at `addr`.
/// An error of the decoder is an error, and so are answers of the decoder that do not agree
/// in the number of instructions.
pub fn decode(code: &[u8], addr: u64) -> (r: Result<Vec<Instruction>, CargoAsmError>)
    ensures
        match r {
            Ok(instrs) => decoded(code@, addr, instrs@),
            Err(error) => error is Decoder && !decodable(code@, addr),
        },
{
    let texts = match capstone_texts(code, addr) {
        Ok(texts) => texts,
        Err(error) => {
            return Err(CargoAsmError::Decoder(WCapstoneError(error).message()));
        },
    };
    let classes = match capstone_classes(code, addr) {
        Ok(classes) => classes,
        Err(error) => {
            return Err(CargoAsmError::Decoder(WCapstoneError(error).message()));
        },
    };
    let operands = match capstone_operands(code, addr) {
        Ok(operands) => operands,
        Err(error) => {
            return Err(CargoAsmError::Decoder(WCapstoneError(error).message()));
        },
    };
    match assemble_instructions(&texts, &classes, &operands) {
        Some(instrs) => Ok(instrs),
        None => Err(CargoAsmError::Decoder("the decoder gave lists of different lengths".to_owned())),
    }
}

} // verus!
