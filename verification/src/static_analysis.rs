//! What a static analysis tells about the code of a program.
use std::collections::BTreeSet;

use vstd::prelude::*;

verus! {

/// One instruction of a program
#[derive(Debug, PartialEq, Eq)]
pub struct AnalyzedInstruction {
    /// Program counter of the instruction
    pub ptr: usize,
    /// The instruction in assembly language
    pub disassembly: String,
}

/// Result of analysing the code of a program
#[derive(Debug)]
pub struct Analysis {
    /// All instructions in the order of their program counters
    pub instructions: Vec<AnalyzedInstruction>,
    /// Program counters at which a basic block starts
    pub cfg_nodes: BTreeSet<usize>,
}

/// Index of the instruction at the program counter `pc`: the last one that starts there, or one
/// before. Without such an instruction, it is the first of all.
pub open spec fn instruction_at(instructions: Seq<AnalyzedInstruction>, pc: int) -> int
    decreases instructions.len(),
{
    if instructions.len() == 0 {
        0
    } else if instructions.last().ptr == pc || instructions.last().ptr + 1 == pc {
        instructions.len() - 1
    } else {
        instruction_at(instructions.drop_last(), pc)
    }
}

/// Is the table of program counters well defined: no instruction lies behind the last one, and the
/// table fits in memory
pub open spec fn can_index(instructions: Seq<AnalyzedInstruction>) -> bool {
    instructions.len() > 0 ==> {
        &&& forall|i: int|
            0 <= i < instructions.len() ==> (#[trigger] instructions[i]).ptr
                <= instructions.last().ptr
        &&& (instructions.last().ptr + 2) * (usize::BITS / 8) <= isize::MAX
    }
}

/// Number of program counters that the table covers
pub open spec fn indexed_len(instructions: Seq<AnalyzedInstruction>) -> int {
    if instructions.len() == 0 {
        0
    } else {
        instructions.last().ptr + 2
    }
}

/// `instruction_at` gives an instruction if there is any.
pub proof fn lemma_instruction_at_bound(instructions: Seq<AnalyzedInstruction>, pc: int)
    ensures
        instructions.len() > 0 ==> 0 <= instruction_at(instructions, pc) < instructions.len(),
        instructions.len() == 0 ==> instruction_at(instructions, pc) == 0,
    decreases instructions.len(),
{
    if instructions.len() > 0 {
        lemma_instruction_at_bound(instructions.drop_last(), pc);
    }
}

/// At the start of an instruction, and in its second slot, that instruction is found, provided that
/// no two instructions overlap.
pub proof fn law_instruction_is_found(instructions: Seq<AnalyzedInstruction>, index: int, pc: int)
    requires
        0 <= index < instructions.len(),
        instructions[index].ptr == pc || instructions[index].ptr + 1 == pc,
        forall|i: int|
            index < i < instructions.len() ==> (#[trigger] instructions[i]).ptr != pc
                && instructions[i].ptr + 1 != pc,
    ensures
        instruction_at(instructions, pc) == index,
    decreases instructions.len(),
{
    if index < instructions.len() - 1 {
        assert(instructions.drop_last()[index] == instructions[index]);
        assert forall|i: int| index < i < instructions.drop_last().len() implies (
        #[trigger] instructions.drop_last()[i]).ptr != pc && instructions.drop_last()[i].ptr + 1
            != pc by {
            assert(instructions.drop_last()[i] == instructions[i]);
        }
        law_instruction_is_found(instructions.drop_last(), index, pc);
    }
}

impl Analysis {
    /// Table from program counters to indices of instructions
    pub fn index_instructions(&self) -> (table: Vec<usize>)
        requires
            can_index(self.instructions@),
        ensures
            table@.len() == indexed_len(self.instructions@),
            forall|pc: int|
                0 <= pc < table@.len() ==> #[trigger] table@[pc] == instruction_at(
                    self.instructions@,
                    pc,
                ),
    {
        let count: usize = self.instructions.len();
        if count == 0 {
            return Vec::new();
        }
        let ghost all = self.instructions@;
        proof {
            let end = all.last().ptr + 2;
            assert(end * (usize::BITS / 8) <= isize::MAX);
            assert(end <= usize::MAX) by (nonlinear_arith)
                requires
                    end * (usize::BITS / 8) <= isize::MAX,
                    usize::BITS / 8 >= 1,
                    isize::MAX <= usize::MAX,
                    end >= 0,
            ;
        }
        let mut table: Vec<usize> = vec![0; self.instructions[count - 1].ptr + 2];
        let mut index: usize = 0;
        while index < count
            invariant
                index <= count,
                count == all.len(),
                all == self.instructions@,
                can_index(all),
                count > 0,
                table@.len() == all.last().ptr + 2 <= usize::MAX,
                forall|pc: int|
                    0 <= pc < table@.len() ==> #[trigger] table@[pc] == instruction_at(
                        all.take(index as int),
                        pc,
                    ),
            decreases count - index,
        {
            let ptr: usize = self.instructions[index].ptr;
            assert(all[index as int].ptr <= all.last().ptr);
            table.set(ptr, index);
            table.set(ptr + 1, index);
            assert(all.take(index + 1).drop_last() =~= all.take(index as int));
            index = index + 1;
        }
        assert(all.take(index as int) =~= all);
        table
    }
}

/// A program counter at which no instruction starts, nor one before, belongs to the first one of all.
pub proof fn law_no_instruction_is_found(instructions: Seq<AnalyzedInstruction>, pc: int)
    requires
        forall|i: int|
            0 <= i < instructions.len() ==> (#[trigger] instructions[i]).ptr != pc
                && instructions[i].ptr + 1 != pc,
    ensures
        instruction_at(instructions, pc) == 0,
    decreases instructions.len(),
{
    if instructions.len() > 0 {
        let front = instructions.drop_last();
        assert forall|i: int| 0 <= i < front.len() implies (#[trigger] front[i]).ptr != pc
            && front[i].ptr + 1 != pc by {
            assert(front[i] == instructions[i]);
        }
        law_no_instruction_is_found(front, pc);
    }
}

/// The table leads from the program counter of each instruction, and from the one behind, to the last
/// instruction there. It ends behind the last instruction.
pub proof fn law_table_of_instructions(analysis: &Analysis, table: Vec<usize>, pc: int)
    requires
        call_ensures(Analysis::index_instructions, (analysis,), table),
        0 <= pc < table@.len(),
    ensures
        analysis.instructions@.len() > 0,
        table@.len() == analysis.instructions@.last().ptr + 2,
        ({
            let all = analysis.instructions@;
            let index = table@[pc] as int;
            ||| {
                &&& 0 <= index < all.len()
                &&& all[index].ptr == pc || all[index].ptr + 1 == pc
                &&& forall|i: int|
                    index < i < all.len() ==> (#[trigger] all[i]).ptr != pc && all[i].ptr + 1 != pc
            }
            ||| {
                &&& index == 0
                &&& forall|i: int|
                    0 <= i < all.len() ==> (#[trigger] all[i]).ptr != pc && all[i].ptr + 1 != pc
            }
        }),
{
    lemma_instruction_at(analysis.instructions@, pc);
}

proof fn lemma_instruction_at(all: Seq<AnalyzedInstruction>, pc: int)
    ensures
        ({
            let index = instruction_at(all, pc);
            ||| {
                &&& 0 <= index < all.len()
                &&& all[index].ptr == pc || all[index].ptr + 1 == pc
                &&& forall|i: int|
                    index < i < all.len() ==> (#[trigger] all[i]).ptr != pc && all[i].ptr + 1 != pc
            }
            ||| {
                &&& index == 0
                &&& forall|i: int|
                    0 <= i < all.len() ==> (#[trigger] all[i]).ptr != pc && all[i].ptr + 1 != pc
            }
        }),
    decreases all.len(),
{
    if all.len() > 0 && all.last().ptr != pc && all.last().ptr + 1 != pc {
        let front = all.drop_last();
        lemma_instruction_at(front, pc);
        let index = instruction_at(front, pc);
        assert forall|i: int|
            0 <= i < all.len() && (i < front.len() ==> front[i].ptr != pc && front[i].ptr + 1
                != pc) implies (#[trigger] all[i]).ptr != pc && all[i].ptr + 1 != pc by {
            if i < front.len() {
                assert(front[i] == all[i]);
            }
        }
    }
}

} // verus!
