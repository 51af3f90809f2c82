//! Recorded execution of programs.
use vstd::prelude::*;
use vstd::utf8::encode_utf8;

use crate::ebpf::ELF_INSN_DUMP_OFFSET;
use crate::static_analysis::{
    can_index, indexed_len, instruction_at, lemma_instruction_at_bound, Analysis,
    AnalyzedInstruction,
};
use crate::text::{
    decimal, hexadecimal, law_hexadecimal_digits, push_bytes, push_hexadecimal,
    push_right_aligned, right_aligned,
};

verus! {

/// Used for instruction tracing
pub struct Tracer {
    /// Contains the state at every instruction in order of execution: the registers and the program
    /// counter
    pub log: Vec<[u64; 12]>,
}

impl View for Tracer {
    type V = Seq<Seq<u64>>;

    /// The logged states
    open spec fn view(&self) -> Seq<Seq<u64>> {
        self.log@.map_values(|state: [u64; 12]| state@)
    }
}

impl Clone for Tracer {
    fn clone(&self) -> (tracer: Self)
        ensures
            tracer@ == self@,
    {
        let mut log: Vec<[u64; 12]> = Vec::new();
        let mut i: usize = 0;
        while i < self.log.len()
            invariant
                i <= self.log@.len(),
                log@ == self.log@.take(i as int),
            decreases self.log@.len() - i,
        {
            log.push(self.log[i]);
            i = i + 1;
            assert(log@ =~= self.log@.take(i as int));
        }
        assert(log@ =~= self.log@);
        Tracer { log }
    }
}

impl Default for Tracer {
    fn default() -> (tracer: Self)
        ensures
            tracer@ == Seq::<Seq<u64>>::empty(),
    {
        let tracer = Tracer { log: Vec::new() };
        assert(tracer@ =~= Seq::<Seq<u64>>::empty());
        tracer
    }
}

/// Program counter of a logged state
pub open spec fn pc_of(state: Seq<u64>) -> usize {
    state[11] as usize
}

/// The first `count` registers of a state, separated by commas
pub open spec fn registers_text(state: Seq<u64>, count: nat) -> Seq<u8>
    decreases count,
{
    if count == 0 {
        Seq::empty()
    } else if count == 1 {
        hexadecimal(state[0] as nat, 16)
    } else {
        registers_text(state, (count - 1) as nat) + seq![0x2cu8, 0x20] + hexadecimal(
            state[count - 1] as nat,
            16,
        )
    }
}

/// One line of a printed trace: the number of the step, the eleven registers, the program counter
/// and the instruction
pub open spec fn line_text(index: nat, state: Seq<u64>, pc: nat, disassembly: Seq<char>) -> Seq<u8> {
    right_aligned(decimal(index), 5) + seq![0x20u8, 0x5b] + registers_text(state, 11)
        + seq![0x5du8, 0x20] + right_aligned(decimal(pc), 5) + seq![0x3au8, 0x20] + encode_utf8(
        disassembly,
    ) + seq![0x0au8]
}

/// The line of a logged state in a printed trace
pub open spec fn trace_line(
    index: nat,
    state: Seq<u64>,
    instructions: Seq<AnalyzedInstruction>,
) -> Seq<u8> {
    line_text(
        index,
        state,
        (pc_of(state) + ELF_INSN_DUMP_OFFSET) as nat,
        instructions[instruction_at(instructions, pc_of(state) as int)].disassembly@,
    )
}

/// The first `count` lines of a printed trace
pub open spec fn trace_text(
    states: Seq<Seq<u64>>,
    instructions: Seq<AnalyzedInstruction>,
    count: nat,
) -> Seq<u8>
    decreases count,
{
    if count == 0 {
        Seq::empty()
    } else {
        trace_text(states, instructions, (count - 1) as nat) + trace_line(
            (count - 1) as nat,
            states[count - 1],
            instructions,
        )
    }
}

/// Does every logged program counter lie in the analysed code
pub open spec fn covers(instructions: Seq<AnalyzedInstruction>, states: Seq<Seq<u64>>) -> bool {
    forall|i: int|
        0 <= i < states.len() ==> {
            &&& pc_of(#[trigger] states[i]) < indexed_len(instructions)
            &&& pc_of(states[i]) + ELF_INSN_DUMP_OFFSET <= usize::MAX
        }
}

/// Is the trace of an interpreter that of a JIT compiled program, up to the steps that the latter
/// takes beyond
pub open spec fn traces_agree(interpreter: Seq<Seq<u64>>, jit: Seq<Seq<u64>>) -> bool {
    interpreter.is_prefix_of(jit)
}

/// Appends the eleven registers of a state
fn push_registers(output: &mut Vec<u8>, state: &[u64; 12])
    ensures
        final(output)@ == old(output)@ + registers_text(state@, 11),
{
    let ghost before = output@;
    let mut i: usize = 0;
    while i < 11
        invariant
            i <= 11,
            output@ == before + registers_text(state@, i as nat),
        decreases 11 - i,
    {
        if i > 0 {
            output.push(0x2c);
            output.push(0x20);
        }
        push_hexadecimal(output, state[i], 16);
        i = i + 1;
        assert(output@ =~= before + registers_text(state@, i as nat));
    }
}

/// Appends one line of a printed trace
fn push_line(output: &mut Vec<u8>, index: usize, state: &[u64; 12], pc: usize, disassembly: &str)
    ensures
        final(output)@ == old(output)@ + line_text(
            index as nat,
            state@,
            pc as nat,
            disassembly@,
        ),
{
    let ghost before = output@;
    push_right_aligned(output, index, 5);
    let ghost step = right_aligned(decimal(index as nat), 5);
    output.push(0x20);
    output.push(0x5b);
    let ghost opened = step + seq![0x20u8, 0x5b];
    assert(output@ =~= before + opened);
    push_registers(output, state);
    output.push(0x5d);
    output.push(0x20);
    let ghost closed = opened + registers_text(state@, 11) + seq![0x5du8, 0x20];
    assert(output@ =~= before + closed);
    push_right_aligned(output, pc, 5);
    output.push(0x3a);
    output.push(0x20);
    let ghost located = closed + right_aligned(decimal(pc as nat), 5) + seq![0x3au8, 0x20];
    assert(output@ =~= before + located);
    push_bytes(output, disassembly.as_bytes());
    output.push(0x0a);
    assert(output@ =~= before + (located + encode_utf8(disassembly@) + seq![0x0au8]));
}

/// Are two states the same
fn states_equal(a: &[u64; 12], b: &[u64; 12]) -> (equal: bool)
    ensures
        equal == (a@ == b@),
{
    let mut i: usize = 0;
    while i < 12
        invariant
            i <= 12,
            forall|k: int| 0 <= k < i ==> a@[k] == b@[k],
        decreases 12 - i,
    {
        if a[i] != b[i] {
            return false;
        }
        i = i + 1;
    }
    assert(a@ =~= b@);
    true
}

impl Tracer {
    /// Logs the state of a single instruction
    pub fn trace(&mut self, state: [u64; 12])
        ensures
            final(self)@ == old(self)@.push(state@),
    {
        self.log.push(state);
        assert(self@ =~= old(self)@.push(state@));
    }

    /// Use this method to print the log of this tracer
    pub fn write(&self, output: &mut Vec<u8>, analysis: &Analysis)
        requires
            can_index(analysis.instructions@),
            covers(analysis.instructions@, self@),
        ensures
            final(output)@ == old(output)@ + trace_text(
                self@,
                analysis.instructions@,
                self@.len(),
            ),
    {
        let pc_to_insn_index = analysis.index_instructions();
        let ghost before = output@;
        let ghost instructions = analysis.instructions@;
        let mut index: usize = 0;
        while index < self.log.len()
            invariant
                index <= self.log@.len(),
                instructions == analysis.instructions@,
                covers(instructions, self@),
                pc_to_insn_index@.len() == indexed_len(instructions),
                forall|pc: int|
                    0 <= pc < pc_to_insn_index@.len() ==> #[trigger] pc_to_insn_index@[pc]
                        == instruction_at(instructions, pc),
                output@ == before + trace_text(self@, instructions, index as nat),
            decreases self.log@.len() - index,
        {
            let entry = &self.log[index];
            assert(self@[index as int] == entry@);
            let pc: usize = entry[11] as usize;
            assert(pc == pc_of(self@[index as int]));
            proof {
                lemma_instruction_at_bound(instructions, pc as int);
            }
            let insn = &analysis.instructions[pc_to_insn_index[pc]];
            push_line(output, index, entry, pc + ELF_INSN_DUMP_OFFSET, insn.disassembly.as_str());
            index = index + 1;
            assert(output@ =~= before + trace_text(self@, instructions, index as nat));
        }
    }

    /// Compares an interpreter trace and a JIT trace.
    ///
    /// The log of the JIT can be longer because it only validates the instruction meter at branches.
    pub fn compare(interpreter: &Self, jit: &Self) -> (agree: bool)
        ensures
            agree == traces_agree(interpreter@, jit@),
    {
        if jit.log.len() < interpreter.log.len() {
            return false;
        }
        let mut i: usize = 0;
        while i < interpreter.log.len()
            invariant
                i <= interpreter.log@.len() <= jit.log@.len(),
                forall|k: int| 0 <= k < i ==> interpreter@[k] == jit@[k],
            decreases interpreter.log@.len() - i,
        {
            if !states_equal(&interpreter.log[i], &jit.log[i]) {
                assert(interpreter@[i as int] != jit@[i as int]);
                assert(traces_agree(interpreter@, jit@) ==> interpreter@[i as int] == jit@.subrange(
                    0,
                    interpreter@.len() as int,
                )[i as int]);
                return false;
            }
            i = i + 1;
        }
        assert(interpreter@ =~= jit@.subrange(0, interpreter@.len() as int));
        true
    }
}

/// A trace agrees with itself, and with every continuation of it.
pub proof fn law_traces_agree_with_continuations(trace: Seq<Seq<u64>>, rest: Seq<Seq<u64>>)
    ensures
        traces_agree(trace, trace + rest),
{
    assert(trace =~= (trace + rest).subrange(0, trace.len() as int));
}

/// A JIT trace that is shorter than the interpreter trace never agrees with it.
pub proof fn law_shorter_jit_trace_disagrees(interpreter: Seq<Seq<u64>>, jit: Seq<Seq<u64>>)
    requires
        jit.len() < interpreter.len(),
    ensures
        !traces_agree(interpreter, jit),
{
}

/// If the traces agree before both programs take one more step, they agree afterwards exactly if the
/// interpreter takes the step that the JIT compiled program took then.
pub proof fn law_traces_diverge_at_a_step(
    interpreter: Seq<Seq<u64>>,
    jit: Seq<Seq<u64>>,
    state: Seq<u64>,
)
    requires
        traces_agree(interpreter, jit),
        interpreter.len() < jit.len(),
    ensures
        traces_agree(interpreter.push(state), jit) <==> state == jit[interpreter.len() as int],
{
    let longer = interpreter.push(state);
    if state == jit[interpreter.len() as int] {
        assert forall|i: int| 0 <= i < longer.len() implies longer[i] == jit.subrange(
            0,
            longer.len() as int,
        )[i] by {
            if i < interpreter.len() {
                assert(interpreter[i] == jit.subrange(0, interpreter.len() as int)[i]);
            }
        }
        assert(longer =~= jit.subrange(0, longer.len() as int));
    }
    if traces_agree(longer, jit) {
        assert(longer[interpreter.len() as int] == jit.subrange(
            0,
            longer.len() as int,
        )[interpreter.len() as int]);
    }
}

/// Traces agree exactly if that of the compiled program is at least as long, and has the same state at
/// every step that the interpreter took.
pub proof fn law_agreement_of_traces(interpreter: &Tracer, jit: &Tracer, agree: bool)
    requires
        call_ensures(Tracer::compare, (interpreter, jit), agree),
    ensures
        agree <==> {
            &&& interpreter.log@.len() <= jit.log@.len()
            &&& forall|i: int|
                0 <= i < interpreter.log@.len() ==> (#[trigger] interpreter.log@[i])@
                    == jit.log@[i]@
        },
{
    let a = interpreter@;
    let b = jit@;
    if agree {
        assert forall|i: int| 0 <= i < interpreter.log@.len() implies (
        #[trigger] interpreter.log@[i])@ == jit.log@[i]@ by {
            assert(a[i] == b.subrange(0, a.len() as int)[i]);
        }
    } else if a.len() <= b.len() && forall|i: int|
        0 <= i < interpreter.log@.len() ==> (#[trigger] interpreter.log@[i])@ == jit.log@[i]@ {
        assert forall|i: int| 0 <= i < a.len() implies a[i] == b.subrange(0, a.len() as int)[i] by {
            assert(interpreter.log@[i]@ == jit.log@[i]@);
        }
        assert(a =~= b.subrange(0, a.len() as int));
    }
}

/// The registers of a state are printed with sixteen digits each, with a comma and a space between
/// them.
pub proof fn law_printed_registers(state: Seq<u64>, count: nat, k: int)
    requires
        0 <= k < count,
    ensures
        registers_text(state, count).len() == 18 * count - 2,
        registers_text(state, count).subrange(18 * k, 18 * k + 16) == hexadecimal(
            state[k] as nat,
            16,
        ),
        k + 1 < count ==> registers_text(state, count)[18 * k + 16] == 0x2c && registers_text(
            state,
            count,
        )[18 * k + 17] == 0x20,
    decreases count,
{
    let text = registers_text(state, count);
    law_hexadecimal_digits(state[count - 1] as nat, 16);
    if count > 1 {
        let front = registers_text(state, (count - 1) as nat);
        if k < count - 1 {
            law_printed_registers(state, (count - 1) as nat, k);
            assert(text.subrange(18 * k, 18 * k + 16) =~= front.subrange(18 * k, 18 * k + 16));
        } else {
            law_printed_registers(state, (count - 1) as nat, 0);
            assert(text.subrange(18 * k, 18 * k + 16) =~= hexadecimal(state[k] as nat, 16));
        }
    } else {
        assert(text.subrange(0, 16) =~= text);
    }
}

/// A line of a printed trace has the number of the step in five columns, the eleven registers in
/// brackets, the program counter in five columns, which counts from twenty nine, and the instruction
/// in assembly language.
#[verifier::spinoff_prover]
pub proof fn law_printed_line(
    index: nat,
    state: Seq<u64>,
    instructions: Seq<AnalyzedInstruction>,
    insn: int,
)
    requires
        0 <= insn < instructions.len(),
        insn == instruction_at(instructions, (state[11] as usize) as int),
    ensures
        ({
            let step = right_aligned(decimal(index), 5);
            let registers = registers_text(state, 11);
            let pc = right_aligned(decimal(((state[11] as usize) + 29) as nat), 5);
            let assembly = encode_utf8(instructions[insn].disassembly@);
            let line = trace_line(index, state, instructions);
            let opened = step.len() as int;
            let closed = opened + 198;
            let located = closed + 2 + pc.len();
            &&& registers.len() == 196
            &&& line.len() == located + 2 + assembly.len() + 1
            &&& line.subrange(0, opened) == step
            &&& line.subrange(opened, opened + 2) == seq![0x20u8, 0x5b]
            &&& line.subrange(opened + 2, closed) == registers
            &&& line.subrange(closed, closed + 2) == seq![0x5du8, 0x20]
            &&& line.subrange(closed + 2, located) == pc
            &&& line.subrange(located, located + 2) == seq![0x3au8, 0x20]
            &&& line.subrange(located + 2, line.len() - 1) == assembly
            &&& line.last() == 0x0a
        }),
{
    law_printed_registers(state, 11, 0);
    let step = right_aligned(decimal(index), 5);
    let registers = registers_text(state, 11);
    let pc = right_aligned(decimal(((state[11] as usize) + 29) as nat), 5);
    let assembly = encode_utf8(instructions[insn].disassembly@);
    let line = trace_line(index, state, instructions);
    let opened = step.len() as int;
    let closed = opened + 198;
    let located = closed + 2 + pc.len();
    assert(line.subrange(0, opened) =~= step);
    assert(line.subrange(opened, opened + 2) =~= seq![0x20u8, 0x5b]);
    assert(line.subrange(opened + 2, closed) =~= registers);
    assert(line.subrange(closed, closed + 2) =~= seq![0x5du8, 0x20]);
    assert(line.subrange(closed + 2, located) =~= pc);
    assert(line.subrange(located, located + 2) =~= seq![0x3au8, 0x20]);
    assert(line.subrange(located + 2, line.len() - 1) =~= assembly);
}

/// A printed trace has one line per logged state, in the order of the states. `before` are the lines
/// of the states in front of the one at `index`.
pub proof fn law_printed_trace(
    states: Seq<Seq<u64>>,
    instructions: Seq<AnalyzedInstruction>,
    count: nat,
    index: nat,
)
    requires
        index < count,
    ensures
        ({
            let text = trace_text(states, instructions, count);
            let before = trace_text(states, instructions, index);
            let line = trace_line(index, states[index as int], instructions);
            &&& before.len() + line.len() <= text.len()
            &&& text.take(before.len() as int) == before
            &&& text.subrange(before.len() as int, (before.len() + line.len()) as int) == line
            &&& index + 1 == count ==> text.len() == before.len() + line.len()
        }),
        trace_text(states, instructions, 0).len() == 0,
    decreases count,
{
    let text = trace_text(states, instructions, count);
    let before = trace_text(states, instructions, index);
    let line = trace_line(index, states[index as int], instructions);
    if index + 1 < count {
        let shorter = trace_text(states, instructions, (count - 1) as nat);
        law_printed_trace(states, instructions, (count - 1) as nat, index);
        assert(text.take(before.len() as int) =~= shorter.take(before.len() as int));
        assert(text.subrange(before.len() as int, (before.len() + line.len()) as int)
            =~= shorter.subrange(before.len() as int, (before.len() + line.len()) as int));
    } else {
        assert(text.take(before.len() as int) =~= before);
        assert(text.subrange(before.len() as int, (before.len() + line.len()) as int) =~= line);
    }
}

/// A state that is logged stands behind those that were logged before.
pub proof fn law_logged_state(tracer: &mut Tracer, state: [u64; 12], i: int)
    requires
        call_ensures(Tracer::trace, (tracer, state), ()),
    ensures
        final(tracer)@.len() == old(tracer)@.len() + 1,
        final(tracer)@.last() == state@,
        0 <= i < old(tracer)@.len() ==> final(tracer)@[i] == old(tracer)@[i],
{
}

/// What is printed stands behind what was printed before, and is one line per logged state.
pub proof fn law_printing_appends(tracer: &Tracer, output: &mut Vec<u8>, analysis: &Analysis)
    requires
        call_ensures(Tracer::write, (tracer, output, analysis), ()),
    ensures
        final(output)@.len() >= old(output)@.len(),
        final(output)@.take(old(output)@.len() as int) == old(output)@,
        final(output)@.skip(old(output)@.len() as int) == trace_text(
            tracer@,
            analysis.instructions@,
            tracer@.len(),
        ),
{
    assert(final(output)@.take(old(output)@.len() as int) =~= old(output)@);
    assert(final(output)@.skip(old(output)@.len() as int) =~= trace_text(
        tracer@,
        analysis.instructions@,
        tracer@.len(),
    ));
}

} // verus!
