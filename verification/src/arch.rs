use crate::amd64::{
    analyze_instructions_amd64, found_jumps, jump_is_sound, lemma_found_jumps_sound,
    patch_text, Instruction,
};
use crate::binary::BinaryArch;
use crate::jumps::{
    is_max_lane, lanes_assigned, lemma_sort_by_source, ordered_by_source, sort_by_source,
    spans_overlap, unplaced, unplaced_jump, InnerJump, InnerJumpTable,
};
use crate::symbol::{short_name, Symbol};
use vstd::prelude::*;

verus! {

/// For some instructions of a function, the text to show in place of the operands: the short
/// name of the symbol that the instruction refers to.
pub struct OperandPatches {
    patches: Vec<Option<String>>,
}

impl OperandPatches {
    /// The text that stands for the operands of instruction `index`, if any.
    pub closed spec fn patch(&self, index: int) -> Option<Seq<char>> {
        if 0 <= index < self.patches@.len() {
            match self.patches@[index] {
                Some(text) => Some(text@),
                None => None,
            }
        } else {
            None
        }
    }

    pub fn new() -> (r: OperandPatches)
        ensures
            forall|i: int| r.patch(i) is None,
    {
        OperandPatches { patches: Vec::new() }
    }

    pub fn clear(&mut self)
        ensures
            forall|i: int| final(self).patch(i) is None,
    {
        self.patches.clear();
    }

    /// Lets the short name of `symbol` stand for the operands of instruction `index`.
    pub fn insert(&mut self, index: usize, symbol: &Symbol)
        requires
            index < usize::MAX,
        ensures
            forall|i: int|
                #[trigger] final(self).patch(i) == if i == index {
                    Some(short_name(symbol.demangled_name@))
                } else {
                    old(self).patch(i)
                },
    {
        let ghost before = self.patches@;
        while self.patches.len() <= index
            invariant
                before.len() <= self.patches@.len(),
                forall|i: int| 0 <= i < before.len() ==> self.patches@[i] == before[i],
                forall|i: int| before.len() <= i < self.patches@.len() ==> self.patches@[i] is None,
            decreases index + 1 - self.patches@.len(),
        {
            self.patches.push(None);
        }
        self.patches.set(index, Some(symbol.short_demangled_name()));
    }

    /// The text that stands for the operands of instruction `index`, if any.
    pub fn get(&self, index: usize) -> (r: Option<&String>)
        ensures
            match r {
                Some(text) => self.patch(index as int) == Some(text@),
                None => self.patch(index as int) is None,
            },
    {
        if index < self.patches.len() {
            self.patches[index].as_ref()
        } else {
            None
        }
    }
}

/// The inner jumps that the analysis adds for a binary of architecture `arch`.
pub open spec fn added_jumps(arch: BinaryArch, instrs: Seq<Instruction>) -> Seq<InnerJump> {
    if arch == BinaryArch::AMD64 {
        found_jumps(instrs, instrs.len() as int)
    } else {
        Seq::empty()
    }
}

/// An element of an ordered copy of a sequence of jumps is an element of the sequence.
proof fn lemma_sorted_element_of(s: Seq<InnerJump>, i: int) -> (k: int)
    requires
        0 <= i < sort_by_source(s).len(),
    ensures
        0 <= k < s.len(),
        s[k] == sort_by_source(s)[i],
{
    let out = sort_by_source(s);
    lemma_sort_by_source(s);
    vstd::seq_lib::to_multiset_contains(out, out[i]);
    assert(out.contains(out[i]));
    vstd::seq_lib::to_multiset_contains(s, out[i]);
    choose|k: int| 0 <= k < s.len() && s[k] == out[i]
}

/// Finds the inner jumps and the operands that name a symbol, for the architectures whose
/// branches are known, then orders the jumps and gives each its lane.
pub fn analyze_instructions(
    symbols: &[Symbol],
    arch: BinaryArch,
    instrs: &[Instruction],
    jumps: &mut InnerJumpTable,
    op_patches: &mut OperandPatches,
)
    requires
        2 * (old(jumps)@.len() + instrs@.len()) <= usize::MAX,
    ensures
        unplaced(final(jumps)@) == sort_by_source(
            unplaced(old(jumps)@ + added_jumps(arch, instrs@)),
        ),
        ordered_by_source(final(jumps)@),
        lanes_assigned(final(jumps)@),
        is_max_lane(final(jumps)@, final(jumps).spec_max_display_offset() as int),
        final(jumps).spec_max_display_offset() <= 2 * final(jumps)@.len(),
        final(jumps)@.len() <= old(jumps)@.len() + instrs@.len(),
        forall|a: int, b: int|
            0 <= a < final(jumps)@.len() && 0 <= b < final(jumps)@.len() && a != b
                && spans_overlap(final(jumps)@[a], final(jumps)@[b]) ==> final(jumps)@[a].display_offset
                + 2 <= final(jumps)@[b].display_offset || final(jumps)@[b].display_offset + 2
                <= final(jumps)@[a].display_offset,
        (forall|k: int| 0 <= k < old(jumps)@.len() ==> jump_is_sound(instrs@, old(jumps)@[k]))
            ==> (forall|k: int|
            0 <= k < final(jumps)@.len() ==> jump_is_sound(instrs@, #[trigger] final(jumps)@[k])),
        forall|i: int|
            #[trigger] final(op_patches).patch(i) == if arch == BinaryArch::AMD64 && patch_text(
                symbols@,
                instrs@,
                i,
            ) is Some {
                patch_text(symbols@, instrs@, i)
            } else {
                old(op_patches).patch(i)
            },
{
    let len = instrs.len();
    proof {
        lemma_found_jumps_sound(instrs@, instrs@.len() as int);
    }
    match arch {
        BinaryArch::AMD64 => analyze_instructions_amd64(symbols, instrs, jumps, op_patches),
        _ => {
            proof {
                assert(jumps@ =~= old(jumps)@ + added_jumps(arch, instrs@));
            }
        },
    }
    let ghost gathered = jumps@;
    jumps.sort_and_calc_overlaps();
    proof {
        let done = jumps@;
        if forall|k: int| 0 <= k < old(jumps)@.len() ==> jump_is_sound(instrs@, old(jumps)@[k]) {
            assert forall|k: int| 0 <= k < done.len() implies jump_is_sound(
                instrs@,
                #[trigger] done[k],
            ) by {
                lemma_sort_by_source(unplaced(gathered));
                let w = lemma_sorted_element_of(unplaced(gathered), k);
                assert(unplaced(done)[k] == unplaced_jump(done[k]));
                assert(unplaced(gathered)[w] == unplaced_jump(gathered[w]));
                if w < old(jumps)@.len() {
                    assert(gathered[w] == old(jumps)@[w]);
                } else {
                    assert(gathered[w] == added_jumps(arch, instrs@)[w - old(jumps)@.len()]);
                }
                assert(jump_is_sound(instrs@, gathered[w]));
            }
        }
    }
}

} // verus!
