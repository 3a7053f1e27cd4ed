use crate::arch::OperandPatches;
use crate::jumps::{InnerJump, InnerJumpTable};
use crate::symbol::{short_name, Symbol};
use vstd::prelude::*;
use vstd::wrapping::u64_specs;

verus! {

/// The group of the instructions that jump.
pub const X86_GRP_JUMP: u8 = 1;

/// The group of the instructions that call.
pub const X86_GRP_CALL: u8 = 2;

/// The number that stands for no register.
pub const X86_REG_INVALID: u16 = 0;

/// The number of the register EIP.
pub const X86_REG_EIP: u16 = 26;

/// The number of the register RIP.
pub const X86_REG_RIP: u16 = 41;

/// One operand of a decoded instruction; registers are given by their number.
#[derive(Clone, Copy, PartialEq, Eq, Debug, Structural)]
pub enum Operand {
    Reg(u16),
    Imm(i64),
    Mem { segment: u16, base: u16, index: u16, disp: i64 },
    Invalid,
}

/// One decoded instruction.
#[derive(Clone, Debug)]
pub struct Instruction {
    /// The address at which the instruction stands when the program runs.
    pub address: u64,
    /// The bytes of the instruction.
    pub bytes: Vec<u8>,
    pub mnemonic: String,
    /// The operands as the decoder prints them.
    pub op_str: String,
    /// The groups that the instruction belongs to.
    pub groups: Vec<u8>,
    /// The bytes of the opcode.
    pub opcode: Vec<u8>,
    pub operands: Vec<Operand>,
}

/// The opcode is one of a call.
pub open spec fn is_call_opcode(opcode: Seq<u8>) -> bool {
    opcode.len() > 0 && (opcode[0] == 0xE8 || opcode[0] == 0xFF || opcode[0] == 0x9A)
}

/// The opcode is one of a jump: a jump of one byte, or a conditional jump of two.
pub open spec fn is_jump_opcode(opcode: Seq<u8>) -> bool {
    opcode.len() > 0 && (opcode[0] == 0xEB || opcode[0] == 0xE9 || opcode[0] == 0xFF || opcode[0]
        == 0xEA || opcode[0] == 0xE3 || 0x70 <= opcode[0] <= 0x7F || (opcode.len() >= 2
        && opcode[0] == 0x0F && 0x80 <= opcode[1] <= 0x8F))
}

/// The address that an operand of a branch names, for an instruction of `length` bytes at
/// `address`: an immediate is the address; memory relative to the instruction pointer, with no
/// segment and no index, is the displacement from the end of the instruction, in 64 bit
/// arithmetic that wraps.
pub open spec fn operand_value(address: u64, length: u64, operand: Operand) -> Option<u64> {
    match operand {
        Operand::Imm(value) => Some(u64_specs::wrapping_add_signed(0, value)),
        Operand::Mem { segment, base, index, disp } => {
            if segment == 0 && (base == X86_REG_RIP || base == X86_REG_EIP) && index
                == X86_REG_INVALID {
                Some(
                    u64_specs::wrapping_add_signed(u64_specs::wrapping_add(address, length), disp),
                )
            } else {
                None
            }
        },
        _ => None,
    }
}

/// The address that the single operand of a branch names.
pub open spec fn single_operand_value(i: Instruction) -> Option<u64> {
    if i.operands@.len() == 1 {
        operand_value(i.address, i.bytes@.len() as u64, i.operands@[0])
    } else {
        None
    }
}

/// The address that an instruction branches to: that of a jump with the opcode of a jump, or
/// of a call with the opcode of a call.
pub open spec fn branch_target(i: Instruction) -> Option<u64> {
    if i.groups@.contains(X86_GRP_JUMP) {
        if is_jump_opcode(i.opcode@) {
            single_operand_value(i)
        } else {
            None
        }
    } else if i.groups@.contains(X86_GRP_CALL) {
        if is_call_opcode(i.opcode@) {
            single_operand_value(i)
        } else {
            None
        }
    } else {
        None
    }
}

/// The first place of `target` in `addrs`.
pub open spec fn first_index_of(addrs: Seq<u64>, target: u64) -> Option<int>
    decreases addrs.len(),
{
    if addrs.len() == 0 {
        None
    } else {
        match first_index_of(addrs.drop_last(), target) {
            Some(i) => Some(i),
            None => if addrs.last() == target {
                Some(addrs.len() - 1)
            } else {
                None
            },
        }
    }
}

/// The address of each instruction.
pub open spec fn instruction_addresses(instrs: Seq<Instruction>) -> Seq<u64> {
    Seq::new(instrs.len(), |i: int| instrs[i].address)
}

/// The address of each symbol.
pub open spec fn symbol_addresses(symbols: Seq<Symbol>) -> Seq<u64> {
    Seq::new(symbols.len(), |i: int| symbols[i].addr)
}

/// Each instruction stands at a higher address than the one before it.
pub open spec fn addresses_ascend(instrs: Seq<Instruction>) -> bool {
    forall|a: int, b: int| 0 <= a < b < instrs.len() ==> instrs[a].address < instrs[b].address
}

/// What the first place of an address is: the address stands there and nowhere before.
pub proof fn lemma_first_index_of(addrs: Seq<u64>, target: u64)
    ensures
        match first_index_of(addrs, target) {
            Some(i) => 0 <= i < addrs.len() && addrs[i] == target && forall|k: int|
                0 <= k < i ==> addrs[k] != target,
            None => forall|k: int| 0 <= k < addrs.len() ==> addrs[k] != target,
        },
    decreases addrs.len(),
{
    if addrs.len() > 0 {
        let front = addrs.drop_last();
        lemma_first_index_of(front, target);
        assert forall|k: int| 0 <= k < front.len() implies front[k] == addrs[k] by {}
    }
}

/// The place that is the first to hold an address is its first place.
proof fn lemma_first_index_is(addrs: Seq<u64>, target: u64, i: int)
    requires
        0 <= i < addrs.len(),
        addrs[i] == target,
        forall|k: int| 0 <= k < i ==> addrs[k] != target,
    ensures
        first_index_of(addrs, target) == Some(i),
{
    lemma_first_index_of(addrs, target);
}

/// The inner jumps of the first `n` instructions: for each instruction that branches to the
/// address of an instruction of the function, a jump from the one to the other.
pub open spec fn found_jumps(instrs: Seq<Instruction>, n: int) -> Seq<InnerJump>
    decreases n,
{
    if n <= 0 {
        Seq::empty()
    } else {
        let before = found_jumps(instrs, n - 1);
        match inner_target(instrs, n - 1) {
            Some(i) => before.push(
                InnerJump { source: (n - 1) as usize, target: i as usize, display_offset: 0 },
            ),
            None => before,
        }
    }
}

/// The instruction that instruction `idx` branches to.
pub open spec fn inner_target(instrs: Seq<Instruction>, idx: int) -> Option<int> {
    match branch_target(instrs[idx]) {
        Some(target) => first_index_of(instruction_addresses(instrs), target),
        None => None,
    }
}

/// The symbol whose name stands for the operand of instruction `idx`: the first symbol at the
/// address that the instruction branches to, where no instruction of the function stands at
/// that address.
pub open spec fn patched_symbol(symbols: Seq<Symbol>, instrs: Seq<Instruction>, idx: int) -> Option<
    int,
> {
    if 0 <= idx < instrs.len() {
        match branch_target(instrs[idx]) {
            Some(target) => if first_index_of(instruction_addresses(instrs), target) is None {
                first_index_of(symbol_addresses(symbols), target)
            } else {
                None
            },
            None => None,
        }
    } else {
        None
    }
}

/// The text that stands for the operands of instruction `idx`: the short name of the symbol
/// that the instruction refers to.
pub open spec fn patch_text(symbols: Seq<Symbol>, instrs: Seq<Instruction>, idx: int) -> Option<
    Seq<char>,
> {
    match patched_symbol(symbols, instrs, idx) {
        Some(k) => Some(short_name(symbols[k].demangled_name@)),
        None => None,
    }
}

/// Both ends of the jump are instructions of the function, and the instruction at its target
/// stands at the address that the instruction at its source branches to.
pub open spec fn jump_is_sound(instrs: Seq<Instruction>, j: InnerJump) -> bool {
    &&& j.source < instrs.len()
    &&& j.target < instrs.len()
    &&& branch_target(instrs[j.source as int]) == Some(instrs[j.target as int].address)
}

/// Every inner jump that the analysis finds leads from an instruction of the function to the
/// instruction at the address that the first one branches to.
pub proof fn lemma_found_jumps_sound(instrs: Seq<Instruction>, n: int)
    requires
        0 <= n <= instrs.len(),
        instrs.len() <= usize::MAX,
    ensures
        found_jumps(instrs, n).len() <= n,
        forall|k: int|
            0 <= k < found_jumps(instrs, n).len() ==> jump_is_sound(
                instrs,
                #[trigger] found_jumps(instrs, n)[k],
            ),
    decreases n,
{
    if n > 0 {
        lemma_found_jumps_sound(instrs, n - 1);
        match branch_target(instrs[n - 1]) {
            Some(target) => {
                lemma_first_index_of(instruction_addresses(instrs), target);
            },
            None => {},
        }
    }
}

pub fn amd64_is_call_opcode(opcode: &[u8]) -> (r: bool)
    ensures
        r == is_call_opcode(opcode@),
{
    if opcode.len() == 0 {
        return false;
    }
    opcode[0] == 0xE8 || opcode[0] == 0xFF || opcode[0] == 0x9A
}

pub fn amd64_is_jump_opcode(opcode: &[u8]) -> (r: bool)
    ensures
        r == is_jump_opcode(opcode@),
{
    if opcode.len() == 0 {
        return false;
    }
    let first = opcode[0];
    if first == 0xEB || first == 0xE9 || first == 0xFF || first == 0xEA || first == 0xE3 || (0x70
        <= first && first <= 0x7F) {
        return true;
    }
    if opcode.len() < 2 {
        return false;
    }
    first == 0x0F && 0x80 <= opcode[1] && opcode[1] <= 0x8F
}

/// The address that an operand of a branch names.
pub fn get_operand_value(address: u64, length: usize, operand: Operand) -> (r: Option<u64>)
    ensures
        r == operand_value(address, length as u64, operand),
{
    match operand {
        Operand::Imm(value) => Some(0u64.wrapping_add_signed(value)),
        Operand::Mem { segment, base, index, disp } => {
            // Scale is ignored because we don't use the index register.
            if segment == 0 && (base == X86_REG_RIP || base == X86_REG_EIP) && index
                == X86_REG_INVALID {
                let current_rip = address.wrapping_add(length as u64);
                Some(current_rip.wrapping_add_signed(disp))
            } else {
                None
            }
        },
        _ => None,
    }
}

/// The address that the single operand of `instr` names.
fn single_operand_target(instr: &Instruction) -> (r: Option<u64>)
    ensures
        r == single_operand_value(*instr),
{
    // If there is more than one operand for some reason, bail.
    if instr.operands.len() != 1 {
        return None;
    }
    get_operand_value(instr.address, instr.bytes.len(), instr.operands[0])
}

pub fn amd64_get_jump_target(instr: &Instruction) -> (r: Option<u64>)
    ensures
        r == if is_jump_opcode(instr.opcode@) {
            single_operand_value(*instr)
        } else {
            None
        },
{
    if amd64_is_jump_opcode(instr.opcode.as_slice()) {
        single_operand_target(instr)
    } else {
        None
    }
}

pub fn amd64_get_call_target(instr: &Instruction) -> (r: Option<u64>)
    ensures
        r == if is_call_opcode(instr.opcode@) {
            single_operand_value(*instr)
        } else {
            None
        },
{
    if amd64_is_call_opcode(instr.opcode.as_slice()) {
        single_operand_target(instr)
    } else {
        None
    }
}

/// Whether the instruction belongs to `group`.
fn in_group(groups: &Vec<u8>, group: u8) -> (r: bool)
    ensures
        r == groups@.contains(group),
{
    let mut i: usize = 0;
    while i < groups.len()
        invariant
            i <= groups@.len(),
            forall|k: int| 0 <= k < i ==> groups@[k] != group,
        decreases groups@.len() - i,
    {
        if groups[i] == group {
            return true;
        }
        i += 1;
    }
    false
}

/// The address that `instr` branches to.
pub fn get_branch_target(instr: &Instruction) -> (r: Option<u64>)
    ensures
        r == branch_target(*instr),
{
    if in_group(&instr.groups, X86_GRP_JUMP) {
        amd64_get_jump_target(instr)
    } else if in_group(&instr.groups, X86_GRP_CALL) {
        amd64_get_call_target(instr)
    } else {
        None
    }
}

/// Whether each instruction stands at a higher address than the one before it.
pub fn check_addresses_ascend(instrs: &[Instruction]) -> (r: bool)
    ensures
        r == addresses_ascend(instrs@),
{
    let len = instrs.len();
    let mut i: usize = 1;
    while i < len
        invariant
            1 <= i,
            len == instrs@.len(),
            forall|a: int, b: int| 0 <= a < b < i && b < len ==> instrs@[a].address < instrs@[b].address,
        decreases len - i,
    {
        if instrs[i - 1].address >= instrs[i].address {
            return false;
        }
        i += 1;
    }
    true
}

/// The first instruction at the address `target`. Where the addresses ascend this is a binary
/// search.
pub fn find_instruction(instrs: &[Instruction], target: u64, ascending: bool) -> (r: Option<usize>)
    requires
        ascending ==> addresses_ascend(instrs@),
    ensures
        match r {
            Some(k) => k < instrs@.len() && first_index_of(instruction_addresses(instrs@), target)
                == Some(k as int),
            None => first_index_of(instruction_addresses(instrs@), target) is None,
        },
{
    let len = instrs.len();
    let ghost addrs = instruction_addresses(instrs@);
    proof {
        lemma_first_index_of(addrs, target);
    }
    if ascending {
        let mut low: usize = 0;
        let mut high: usize = len;
        while low < high
            invariant
                low <= high <= len,
                len == instrs@.len(),
                addrs == instruction_addresses(instrs@),
                addresses_ascend(instrs@),
                forall|k: int| 0 <= k < low ==> instrs@[k].address < target,
                forall|k: int| high <= k < len ==> instrs@[k].address > target,
            decreases high - low,
        {
            let mid = low + (high - low) / 2;
            let address = instrs[mid].address;
            if address == target {
                proof {
                    assert(addrs[mid as int] == target);
                    assert forall|k: int| 0 <= k < mid implies addrs[k] != target by {
                        assert(instrs@[k].address < instrs@[mid as int].address);
                    }
                    lemma_first_index_is(addrs, target, mid as int);
                }
                return Some(mid);
            } else if address < target {
                proof {
                    assert forall|k: int| 0 <= k < mid + 1 implies instrs@[k].address < target by {
                        if k < mid {
                            assert(instrs@[k].address < instrs@[mid as int].address);
                        }
                    }
                }
                low = mid + 1;
            } else {
                proof {
                    assert forall|k: int| mid <= k < len implies instrs@[k].address > target by {
                        if k > mid {
                            assert(instrs@[mid as int].address < instrs@[k].address);
                        }
                    }
                }
                high = mid;
            }
        }
        proof {
            assert forall|k: int| 0 <= k < addrs.len() implies addrs[k] != target by {
                assert(addrs[k] == instrs@[k].address);
            }
        }
        None
    } else {
        let mut i: usize = 0;
        while i < len
            invariant
                i <= len,
                len == instrs@.len(),
                addrs == instruction_addresses(instrs@),
                forall|k: int| 0 <= k < i ==> addrs[k] != target,
            decreases len - i,
        {
            if instrs[i].address == target {
                proof {
                    lemma_first_index_is(addrs, target, i as int);
                }
                return Some(i);
            }
            i += 1;
        }
        None
    }
}

/// The first symbol at the address `target`.
pub fn find_symbol_at(symbols: &[Symbol], target: u64) -> (r: Option<usize>)
    ensures
        match r {
            Some(k) => k < symbols@.len() && first_index_of(symbol_addresses(symbols@), target)
                == Some(k as int),
            None => first_index_of(symbol_addresses(symbols@), target) is None,
        },
{
    let len = symbols.len();
    let ghost addrs = symbol_addresses(symbols@);
    proof {
        lemma_first_index_of(addrs, target);
    }
    let mut i: usize = 0;
    while i < len
        invariant
            i <= len,
            len == symbols@.len(),
            addrs == symbol_addresses(symbols@),
            forall|k: int| 0 <= k < i ==> addrs[k] != target,
        decreases len - i,
    {
        if symbols[i].addr == target {
            proof {
                lemma_first_index_is(addrs, target, i as int);
            }
            return Some(i);
        }
        i += 1;
    }
    None
}

/// Records, for each instruction that branches to an instruction of the function, an inner
/// jump, and for each one that branches to the address of a symbol instead, the symbol's
/// short name as the text of its operand.
pub fn analyze_instructions_amd64(
    symbols: &[Symbol],
    instrs: &[Instruction],
    jumps: &mut InnerJumpTable,
    op_patches: &mut OperandPatches,
)
    ensures
        final(jumps)@ == old(jumps)@ + found_jumps(instrs@, instrs@.len() as int),
        final(jumps).spec_max_display_offset() == old(jumps).spec_max_display_offset(),
        forall|i: int|
            #[trigger] final(op_patches).patch(i) == match patch_text(symbols@, instrs@, i) {
                Some(text) => Some(text),
                None => old(op_patches).patch(i),
            },
{
    let ghost jumps_before = jumps@;
    let ascending = check_addresses_ascend(instrs);
    let len = instrs.len();
    let mut idx: usize = 0;
    proof {
        assert(jumps@ =~= jumps_before + found_jumps(instrs@, 0));
    }
    while idx < len
        invariant
            idx <= len,
            len == instrs@.len(),
            ascending ==> addresses_ascend(instrs@),
            jumps@ == jumps_before + found_jumps(instrs@, idx as int),
            jumps.spec_max_display_offset() == old(jumps).spec_max_display_offset(),
            forall|i: int|
                #[trigger] op_patches.patch(i) == if i < idx && patch_text(symbols@, instrs@, i)
                    is Some {
                    patch_text(symbols@, instrs@, i)
                } else {
                    old(op_patches).patch(i)
                },
        decreases len - idx,
    {
        let ghost prev = *op_patches;
        let ghost here = idx as int;
        match get_branch_target(&instrs[idx]) {
            None => {
                proof {
                    assert(patch_text(symbols@, instrs@, here) is None);
                }
            },
            Some(target) => {
                // If it's a regular inner jump, then we just display the address and move on.
                match find_instruction(instrs, target, ascending) {
                    Some(target_index) => {
                        jumps.insert(idx, target_index);
                        proof {
                            assert(jumps@ =~= jumps_before + found_jumps(instrs@, idx + 1));
                            assert(patch_text(symbols@, instrs@, here) is None);
                        }
                    },
                    None => {
                        match find_symbol_at(symbols, target) {
                            Some(k) => {
                                op_patches.insert(idx, &symbols[k]);
                                proof {
                                    assert(patch_text(symbols@, instrs@, here) == Some(
                                        short_name(symbols@[k as int].demangled_name@),
                                    ));
                                }
                            },
                            None => {
                                proof {
                                    assert(patch_text(symbols@, instrs@, here) is None);
                                }
                            },
                        }
                    },
                }
            },
        }
        proof {
            assert forall|i: int|
                #[trigger] op_patches.patch(i) == if i < idx + 1 && patch_text(
                    symbols@,
                    instrs@,
                    i,
                ) is Some {
                    patch_text(symbols@, instrs@, i)
                } else {
                    old(op_patches).patch(i)
                } by {
                let before = prev.patch(i);
                if i != here {
                    assert(op_patches.patch(i) == before);
                }
            }
        }
        idx += 1;
    }
}

} // verus!
