//! The x86-64 backend: it lays out the code of a program instruction by instruction, and records
//! which code belongs to which RISC-V instruction.
//!
//! What an instruction does is encoded by the caller, who hands over machine code. The backend
//! adds what every instruction needs around it.

use crate::assembler;
use crate::assembler::Assembler;
use crate::bytes;
use crate::cache;
use crate::cache::{ArtifactModel, InstrMapEntry, JitArtifact};
use crate::debug_line;
use crate::elf_export;
use crate::function;
use crate::function::{FunctionModel, JitFunction};
use crate::payload;
use vstd::prelude::*;

verus! {

/// The machine code that the backend puts around instructions.
#[derive(Debug)]
pub struct Fragments {
    /// Handles the calling convention and saves what the code clobbers.
    pub prologue: Vec<u8>,
    /// Restores what was saved, and returns.
    pub epilogue: Vec<u8>,
    /// Adds the clock bump to the clock.
    pub bump_clk: Vec<u8>,
    /// Adds 4 to the PC.
    pub bump_pc: Vec<u8>,
    /// Leaves the function if the trace is larger than the maximum trace size.
    pub exit_if_trace_exceeds: Vec<u8>,
    /// Jumps to the code of the instruction at the PC, by the jump table.
    pub jump_to_pc: Vec<u8>,
}

/// The function that handles `ecall`.
#[derive(Debug, Clone, Copy)]
pub enum EcallHandler {
    /// The handler that is in place before one is registered.
    Dummy,
    /// The host function at an address.
    Host(u64),
}

/// Why a backend could not be made.
#[derive(Debug, Clone, Copy)]
pub enum BackendError {
    /// The starting PC lies before the base PC.
    PcStartBelowBase,
}

/// A backend in the course of a compilation.
#[derive(Debug)]
pub struct TranspilerBackend {
    inner: Assembler,
    jump_table: Vec<usize>,
    memory_size: usize,
    has_instructions: bool,
    pc_base: u64,
    pc_start: u64,
    ecall_handler: EcallHandler,
    control_flow_instruction_inserted: bool,
    instruction_started: bool,
    clk_bump: u64,
    max_trace_size: u64,
    may_early_exit: bool,
    instr_map: Vec<InstrMapEntry>,
    has_embedded_host_calls: bool,
    fragments: Fragments,
}

/// The machine code that the backend puts around instructions, as the proofs see it.
#[verifier::ext_equal]
pub struct FragmentsModel {
    /// Handles the calling convention and saves what the code clobbers.
    pub prologue: Seq<u8>,
    /// Restores what was saved, and returns.
    pub epilogue: Seq<u8>,
    /// Adds the clock bump to the clock.
    pub bump_clk: Seq<u8>,
    /// Adds 4 to the PC.
    pub bump_pc: Seq<u8>,
    /// Leaves the function if the trace is larger than the maximum trace size.
    pub exit_if_trace_exceeds: Seq<u8>,
    /// Jumps to the code of the instruction at the PC.
    pub jump_to_pc: Seq<u8>,
}

impl View for Fragments {
    type V = FragmentsModel;

    open spec fn view(&self) -> FragmentsModel {
        FragmentsModel {
            prologue: self.prologue@,
            epilogue: self.epilogue@,
            bump_clk: self.bump_clk@,
            bump_pc: self.bump_pc@,
            exit_if_trace_exceeds: self.exit_if_trace_exceeds@,
            jump_to_pc: self.jump_to_pc@,
        }
    }
}

/// A backend, as the proofs see it.
#[verifier::ext_equal]
pub struct BackendModel {
    /// The code so far.
    pub code: Seq<u8>,
    /// Where the code of each instruction starts.
    pub jump_table: Seq<usize>,
    /// VM memory buffer size in bytes.
    pub memory_size: usize,
    /// Whether an instruction was started.
    pub has_instructions: bool,
    /// Base PC for address calculations.
    pub pc_base: u64,
    /// Starting PC of the program.
    pub pc_start: u64,
    /// The function that handles `ecall`.
    pub ecall_handler: EcallHandler,
    /// Whether the current instruction sets the PC itself.
    pub control_flow_instruction_inserted: bool,
    /// Whether an instruction was started and not ended.
    pub instruction_started: bool,
    /// Clock bump per instruction.
    pub clk_bump: u64,
    /// Maximum trace size.
    pub max_trace_size: u64,
    /// Whether the function may be left after the current instruction.
    pub may_early_exit: bool,
    /// Which code belongs to which instruction.
    pub instr_map: Seq<InstrMapEntry>,
    /// Whether the code has embedded absolute host function pointers.
    pub has_embedded_host_calls: bool,
    /// The machine code that is put around instructions.
    pub fragments: FragmentsModel,
}

/// What a method does to a backend.
pub enum Step {
    /// Sets the function that handles `ecall`.
    RegisterEcallHandler(EcallHandler),
    /// Starts an instruction.
    Start,
    /// Appends machine code.
    Emit(Seq<u8>),
    /// Tells that the current instruction sets the PC itself.
    MarkControlFlow,
    /// Tells that the function may be left after the current instruction.
    MarkMayEarlyExit,
    /// Appends a call of a host function: the code that loads its argument, and the call.
    CallHost(Seq<u8>, Seq<u8>),
    /// Ends the current instruction.
    End,
}

/// The number of instructions that some steps start.
pub open spec fn starts(steps: Seq<Step>) -> nat
    decreases steps.len(),
{
    if steps.len() == 0 {
        0
    } else {
        starts(steps.drop_last()) + (if steps.last() is Start {
            1nat
        } else {
            0nat
        })
    }
}

/// A backend before the first instruction: the code is the prologue.
pub open spec fn new_backend(
    memory_size: usize,
    max_trace_size: u64,
    pc_start: u64,
    pc_base: u64,
    clk_bump: u64,
    fragments: FragmentsModel,
) -> BackendModel {
    BackendModel {
        code: fragments.prologue,
        jump_table: Seq::empty(),
        memory_size,
        has_instructions: false,
        pc_base,
        pc_start,
        ecall_handler: EcallHandler::Dummy,
        control_flow_instruction_inserted: false,
        instruction_started: false,
        clk_bump,
        max_trace_size,
        may_early_exit: false,
        instr_map: Seq::empty(),
        has_embedded_host_calls: false,
        fragments,
    }
}

impl BackendModel {
    /// What holds of every backend: the jump table and the instruction map speak of the same
    /// instructions, which are numbered from 0 and four bytes of PC apart; their code lies in
    /// the code so far, in order, and an instruction ends before the next one starts; and where
    /// the clock bump takes code, there are no more ended instructions than bytes of code.
    pub open spec fn wf(self) -> bool {
        &&& self.pc_base <= self.pc_start
        &&& self.code.len() <= usize::MAX
        &&& self.jump_table.len() == self.instr_map.len()
        &&& self.has_instructions <==> self.instr_map.len() > 0
        &&& self.instruction_started ==> self.has_instructions
        &&& function::offsets_in_code(self.jump_table, self.code)
        &&& forall|i: int|
            0 <= i < self.instr_map.len() ==> self.describes(i, #[trigger] self.instr_map[i])
        &&& forall|i: int, j: int|
            0 <= i <= j < self.jump_table.len() ==> self.jump_table[i] <= self.jump_table[j]
        &&& self.code.len() <= u32::MAX ==> self.ranges_in_order()
        &&& self.fragments.bump_clk.len() > 0 ==> self.ended_count() <= self.code.len()
    }

    /// The number of instructions that were started and ended.
    pub open spec fn ended_count(self) -> int {
        self.instr_map.len() - (if self.instruction_started {
            1int
        } else {
            0int
        })
    }

    /// Whether an entry is that of the instruction with the given number.
    pub open spec fn describes(self, i: int, entry: InstrMapEntry) -> bool {
        &&& entry.instr_index == i as u32
        &&& entry.riscv_pc == self.pc_base + 4 * (i as u32)
        &&& entry.start_offset == self.jump_table[i] as u32
    }

    /// Whether the byte ranges of the instructions lie in the code, in order and apart.
    pub open spec fn ranges_in_order(self) -> bool {
        &&& forall|i: int|
            0 <= i < self.instr_map.len() ==> (#[trigger] self.instr_map[i]).start_offset
                <= self.instr_map[i].end_offset <= self.code.len()
        &&& forall|i: int, j: int|
            0 <= i < j < self.instr_map.len() ==> (#[trigger] self.instr_map[i]).end_offset <= (
            #[trigger] self.instr_map[j]).start_offset
    }

    /// The backend after an instruction was started: it starts at the end of the code.
    pub open spec fn started(self) -> BackendModel {
        let index: u32 = self.jump_table.len() as u32;
        BackendModel {
            has_instructions: true,
            instruction_started: true,
            jump_table: self.jump_table.push(self.code.len() as usize),
            instr_map: self.instr_map.push(
                InstrMapEntry {
                    instr_index: index,
                    riscv_pc: (self.pc_base + 4 * index) as u64,
                    start_offset: self.code.len() as u32,
                    end_offset: self.code.len() as u32,
                },
            ),
            ..self
        }
    }

    /// The trace check of the current instruction, if it may leave the function.
    pub open spec fn trace_check(self) -> Seq<u8> {
        if self.may_early_exit {
            self.fragments.exit_if_trace_exceeds
        } else {
            Seq::empty()
        }
    }

    /// What is put at the end of the current instruction: the clock is bumped; an instruction
    /// that sets the PC then checks the trace and jumps, any other bumps the PC and then checks
    /// the trace.
    pub open spec fn instr_tail(self) -> Seq<u8> {
        if self.control_flow_instruction_inserted {
            self.fragments.bump_clk + self.trace_check() + self.fragments.jump_to_pc
        } else {
            self.fragments.bump_clk + self.fragments.bump_pc + self.trace_check()
        }
    }

    /// The backend after an instruction was ended: the last instruction ends at the end of the
    /// code.
    pub open spec fn ended(self) -> BackendModel {
        let code: Seq<u8> = self.code + self.instr_tail();
        BackendModel {
            code,
            instr_map: end_last_at(self.instr_map, code.len() as u32),
            may_early_exit: false,
            control_flow_instruction_inserted: false,
            instruction_started: false,
            ..self
        }
    }

    /// The backend after machine code was appended.
    pub open spec fn emitted(self, code: Seq<u8>) -> BackendModel {
        BackendModel { code: self.code + code, ..self }
    }

    /// The backend after a call of a host function was appended.
    pub open spec fn called_host(self, load: Seq<u8>, call: Seq<u8>) -> BackendModel {
        BackendModel { code: self.code + load + call, has_embedded_host_calls: true, ..self }
    }

    /// The backend after a step.
    pub open spec fn stepped(self, step: Step) -> BackendModel {
        match step {
            Step::RegisterEcallHandler(handler) => BackendModel { ecall_handler: handler, ..self },
            Step::Start => self.started(),
            Step::Emit(code) => self.emitted(code),
            Step::MarkControlFlow => BackendModel {
                control_flow_instruction_inserted: true,
                ..self
            },
            Step::MarkMayEarlyExit => BackendModel { may_early_exit: true, ..self },
            Step::CallHost(load, call) => self.called_host(load, call),
            Step::End => self.ended(),
        }
    }

    /// Whether a step may be taken: an instruction may be started where none is under way and
    /// there is a PC for it, and any other step at any time.
    pub open spec fn allows(self, step: Step) -> bool {
        step is Start ==> !self.instruction_started && self.pc_base + 4 * (
        self.jump_table.len() as u32) <= u64::MAX
    }

    /// The backend after some steps.
    pub open spec fn after(self, steps: Seq<Step>) -> BackendModel
        decreases steps.len(),
    {
        if steps.len() == 0 {
            self
        } else {
            self.after(steps.drop_last()).stepped(steps.last())
        }
    }

    /// Whether some steps may be taken one after another.
    pub open spec fn allows_all(self, steps: Seq<Step>) -> bool {
        forall|k: int|
            0 <= k < steps.len() ==> self.after(#[trigger] steps.take(k)).allows(steps[k])
    }

    /// The function that the finished code makes.
    pub open spec fn finalized(self) -> FunctionModel {
        function::unstarted(
            self.code + self.fragments.epilogue,
            self.jump_table,
            self.memory_size,
            self.pc_start,
        )
    }

    /// The artifact of the finished code.
    pub open spec fn artifact(self) -> ArtifactModel {
        function::artifact_of(
            self.finalized(),
            self.instr_map,
            self.pc_base,
            self.max_trace_size,
            self.clk_bump,
            self.has_embedded_host_calls,
        )
    }
}

/// The instruction `mov rdi, imm32`, which extends the sign of the low 32 bits of `imm`: `rdi` is
/// where a host function takes its argument.
pub open spec fn load_immediate(imm: u64) -> Seq<u8> {
    seq![0x48u8, 0xC7u8, 0xC7u8] + bytes::le_bytes((imm % 0x1_0000_0000) as nat, 4)
}

/// An instruction map whose last entry, if there is one, ends at `end`.
pub open spec fn end_last_at(map: Seq<InstrMapEntry>, end: u32) -> Seq<InstrMapEntry> {
    if map.len() == 0 {
        map
    } else {
        map.update(map.len() - 1, InstrMapEntry { end_offset: end, ..map.last() })
    }
}

impl TranspilerBackend {
    /// The backend, as the proofs see it.
    pub closed spec fn view(&self) -> BackendModel {
        BackendModel {
            code: assembler::assembled(self.inner),
            jump_table: self.jump_table@,
            memory_size: self.memory_size,
            has_instructions: self.has_instructions,
            pc_base: self.pc_base,
            pc_start: self.pc_start,
            ecall_handler: self.ecall_handler,
            control_flow_instruction_inserted: self.control_flow_instruction_inserted,
            instruction_started: self.instruction_started,
            clk_bump: self.clk_bump,
            max_trace_size: self.max_trace_size,
            may_early_exit: self.may_early_exit,
            instr_map: self.instr_map@,
            has_embedded_host_calls: self.has_embedded_host_calls,
            fragments: self.fragments@,
        }
    }

    /// Whether the code so far is complete in itself.
    pub closed spec fn is_self_contained(&self) -> bool {
        assembler::is_label_free(self.inner)
    }

    /// What holds of every backend.
    pub open spec fn inv(&self) -> bool {
        self.is_self_contained() && self@.wf()
    }

    /// A backend for a program: the code starts with the prologue. `program_size` is the number
    /// of instructions to make room for.
    pub fn new(
        program_size: usize,
        memory_size: usize,
        max_trace_size: u64,
        pc_start: u64,
        pc_base: u64,
        clk_bump: u64,
        fragments: Fragments,
    ) -> (backend: Result<TranspilerBackend, BackendError>)
        requires
            24 * program_size <= isize::MAX,
        ensures
            backend is Err <==> pc_start < pc_base,
            backend is Err ==> backend->Err_0 is PcStartBelowBase,
            backend matches Ok(made) ==> made.inv() && made@ == new_backend(
                memory_size,
                max_trace_size,
                pc_start,
                pc_base,
                clk_bump,
                fragments@,
            ),
    {
        if pc_start < pc_base {
            return Err(BackendError::PcStartBelowBase);
        }
        let mut inner: Assembler = Assembler::new(0);
        inner.extend(fragments.prologue.as_slice());
        assert(assembler::assembled(inner) =~= fragments@.prologue);
        Ok(
            TranspilerBackend {
                inner,
                jump_table: Vec::with_capacity(program_size),
                memory_size,
                has_instructions: false,
                pc_base,
                pc_start,
                ecall_handler: EcallHandler::Dummy,
                control_flow_instruction_inserted: false,
                instruction_started: false,
                clk_bump,
                max_trace_size,
                may_early_exit: false,
                instr_map: Vec::with_capacity(program_size),
                has_embedded_host_calls: false,
                fragments,
            },
        )
    }

    /// Sets the function that handles `ecall`.
    pub fn register_ecall_handler(&mut self, handler: EcallHandler)
        requires
            old(self).inv(),
        ensures
            final(self).inv(),
            final(self)@ == old(self)@.stepped(Step::RegisterEcallHandler(handler)),
    {
        self.ecall_handler = handler;
    }

    /// Starts an instruction at the end of the code.
    pub fn start_instr(&mut self)
        requires
            old(self).inv(),
            !old(self)@.instruction_started,
            old(self)@.pc_base + 4 * (old(self)@.jump_table.len() as u32) <= u64::MAX,
        ensures
            final(self).inv(),
            final(self)@ == old(self)@.stepped(Step::Start),
    {
        self.has_instructions = true;

        // Push the offset of the jump destination of this instruction.
        let offset: usize = self.inner.offset();
        let instr_index: u32 = self.jump_table.len() as u32;
        self.jump_table.push(offset);

        // Record the start of this instruction's byte range. The end is set in `end_instr`.
        self.instr_map.push(
            InstrMapEntry {
                instr_index,
                riscv_pc: self.pc_base + (instr_index as u64) * 4,
                start_offset: offset as u32,
                end_offset: offset as u32,
            },
        );

        self.instruction_started = true;
        assert(self@ =~= old(self)@.started());
    }

    /// Ends the current instruction: appends what every instruction needs at its end, and records
    /// where the instruction ends.
    pub fn end_instr(&mut self)
        requires
            old(self).inv(),
        ensures
            final(self).inv(),
            final(self)@ == old(self)@.stepped(Step::End),
    {
        // Add the base amount of cycles for the instruction.
        self.inner.extend(self.fragments.bump_clk.as_slice());

        if self.control_flow_instruction_inserted {
            // The PC is set: check the size of the trace, then jump.
            if self.may_early_exit {
                self.inner.extend(self.fragments.exit_if_trace_exceeds.as_slice());
            }
            self.inner.extend(self.fragments.jump_to_pc.as_slice());
        } else {
            // The PC has to be bumped before the function may be left.
            self.inner.extend(self.fragments.bump_pc.as_slice());
            if self.may_early_exit {
                self.inner.extend(self.fragments.exit_if_trace_exceeds.as_slice());
            }
        }

        // Record the end of this instruction's byte range.
        let end: u32 = self.inner.offset() as u32;
        let count: usize = self.instr_map.len();
        if count > 0 {
            let mut entry: InstrMapEntry = self.instr_map[count - 1];
            entry.end_offset = end;
            self.instr_map.set(count - 1, entry);
        }

        self.may_early_exit = false;
        self.control_flow_instruction_inserted = false;
        self.instruction_started = false;
        assert(self@.code =~= old(self)@.ended().code);
        assert(self@ =~= old(self)@.ended());
    }

    /// Appends machine code.
    pub fn emit(&mut self, code: &[u8])
        requires
            old(self).inv(),
        ensures
            final(self).inv(),
            final(self)@ == old(self)@.stepped(Step::Emit(code@)),
    {
        self.inner.extend(code);
        assert(self@ =~= old(self)@.emitted(code@));
    }

    /// Tells the backend that the current instruction sets the PC itself.
    pub fn mark_control_flow(&mut self)
        requires
            old(self).inv(),
        ensures
            final(self).inv(),
            final(self)@ == old(self)@.stepped(Step::MarkControlFlow),
    {
        self.control_flow_instruction_inserted = true;
    }

    /// Tells the backend that the function may be left after the current instruction.
    pub fn mark_may_early_exit(&mut self)
        requires
            old(self).inv(),
        ensures
            final(self).inv(),
            final(self)@ == old(self)@.stepped(Step::MarkMayEarlyExit),
    {
        self.may_early_exit = true;
    }

    /// Appends a call of a host function that takes the context: `load` brings the context into
    /// the argument register, `call` calls the function.
    pub fn call_extern_fn(&mut self, load: &[u8], call: &[u8])
        requires
            old(self).inv(),
        ensures
            final(self).inv(),
            final(self)@ == old(self)@.stepped(Step::CallHost(load@, call@)),
    {
        self.has_embedded_host_calls = true;
        self.inner.extend(load);
        self.inner.extend(call);
        assert(self@ =~= old(self)@.called_host(load@, call@));
    }

    /// Appends a call of a host function that takes the value of a register: `load` brings the
    /// value into the argument register, `call` calls the function.
    pub fn inspect_register(&mut self, load: &[u8], call: &[u8])
        requires
            old(self).inv(),
        ensures
            final(self).inv(),
            final(self)@ == old(self)@.stepped(Step::CallHost(load@, call@)),
    {
        self.has_embedded_host_calls = true;
        self.inner.extend(load);
        self.inner.extend(call);
        assert(self@ =~= old(self)@.called_host(load@, call@));
    }

    /// Appends a call of a host function that takes a number: the low 32 bits of `imm`, their
    /// sign extended, are brought into the argument register, and `call` calls the function.
    pub fn inspect_immediate(&mut self, imm: u64, call: &[u8])
        requires
            old(self).inv(),
        ensures
            final(self).inv(),
            final(self)@ == old(self)@.stepped(Step::CallHost(load_immediate(imm), call@)),
    {
        self.has_embedded_host_calls = true;
        let opcode: [u8; 3] = [0x48, 0xC7, 0xC7];
        self.inner.extend(opcode.as_slice());
        self.inner.push_i32(imm as i32);
        self.inner.extend(call);
        assert((imm as i32) as u32 == imm % 0x1_0000_0000) by (bit_vector);
        assert(opcode@ =~= seq![0x48u8, 0xC7u8, 0xC7u8]);
        assert(self@.code =~= old(self)@.called_host(load_immediate(imm), call@).code);
        assert(self@ =~= old(self)@.called_host(load_immediate(imm), call@));
    }

    /// The function that the finished code makes: the code ends with the epilogue.
    pub fn finalize(self) -> (function: JitFunction)
        requires
            self.inv(),
            self@.code.len() + self@.fragments.epilogue.len() > 0,
        ensures
            function@ == self@.finalized(),
    {
        let mut backend: TranspilerBackend = self;
        backend.inner.extend(backend.fragments.epilogue.as_slice());
        let code: Vec<u8> = backend.inner.finalize().unwrap();
        JitFunction::from_bytes(code, backend.jump_table, backend.memory_size, backend.pc_start)
    }

    /// The function that the finished code makes, and the artifact of that function.
    ///
    /// This is equivalent to calling [`TranspilerBackend::finalize`] and then
    /// [`JitFunction::to_artifact`].
    pub fn finalize_with_artifact(self) -> (finished: (JitFunction, JitArtifact))
        requires
            self.inv(),
            self@.code.len() + self@.fragments.epilogue.len() > 0,
        ensures
            finished.0@ == self@.finalized(),
            finished.1@ == self@.artifact(),
            finished.1.pc_base == self@.pc_base,
            finished.1.max_trace_size == self@.max_trace_size,
            finished.1.clk_bump == self@.clk_bump,
            finished.1.has_host_call_relocations == self@.has_embedded_host_calls,
    {
        let mut backend: TranspilerBackend = self;
        backend.inner.extend(backend.fragments.epilogue.as_slice());
        let code: Vec<u8> = backend.inner.finalize().unwrap();
        let function: JitFunction = JitFunction::from_bytes(
            code,
            backend.jump_table,
            backend.memory_size,
            backend.pc_start,
        );
        let artifact: JitArtifact = function.to_artifact(
            backend.instr_map,
            backend.pc_base,
            backend.max_trace_size,
            backend.clk_bump,
            backend.has_embedded_host_calls,
        );
        (function, artifact)
    }

    /// Get the instruction map (RISC-V PC to x86-64 byte range).
    pub fn instr_map(&self) -> (map: &[InstrMapEntry])
        ensures
            map@ == self@.instr_map,
    {
        self.instr_map.as_slice()
    }

    /// Whether the code has embedded absolute host function pointers.
    pub fn has_embedded_host_calls(&self) -> (has: bool)
        ensures
            has == self@.has_embedded_host_calls,
    {
        self.has_embedded_host_calls
    }

    /// The number of bytes that the code has so far.
    pub fn offset(&self) -> (offset: usize)
        ensures
            offset == self@.code.len(),
    {
        self.inner.offset()
    }

    /// The function that handles `ecall`.
    pub fn ecall_handler(&self) -> (handler: EcallHandler)
        ensures
            handler == self@.ecall_handler,
    {
        self.ecall_handler
    }

    /// Whether an instruction can be started: none is under way, and there is a PC for it.
    pub fn can_start_instr(&self) -> (can: bool)
        ensures
            can == self@.allows(Step::Start),
            can == (!self@.instruction_started && self@.pc_base + 4 * (self@.jump_table.len() as u32)
                <= u64::MAX),
    {
        let instr_index: u32 = self.jump_table.len() as u32;
        !self.instruction_started && self.pc_base <= u64::MAX - (instr_index as u64) * 4
    }

    /// Whether the finished code will not be empty.
    pub fn has_code(&self) -> (has: bool)
        ensures
            has == (self@.finalized().code.len() > 0),
            has == (self@.code.len() + self@.fragments.epilogue.len() > 0),
    {
        self.inner.offset() > 0 || self.fragments.epilogue.len() > 0
    }

    /// Whether an instruction was started and not ended.
    pub fn is_instruction_started(&self) -> (started: bool)
        ensures
            started == self@.instruction_started,
    {
        self.instruction_started
    }
}

/// The view of fragments shows each of them as it is.
pub proof fn law_fragments_view(fragments: Fragments)
    ensures
        fragments@.prologue == fragments.prologue@,
        fragments@.epilogue == fragments.epilogue@,
        fragments@.bump_clk == fragments.bump_clk@,
        fragments@.bump_pc == fragments.bump_pc@,
        fragments@.exit_if_trace_exceeds == fragments.exit_if_trace_exceeds@,
        fragments@.jump_to_pc == fragments.jump_to_pc@,
{
}

/// A new backend has the parameters that it was made with, the code of the prologue, and nothing
/// else.
pub proof fn law_new_backend_has_its_parameters(
    memory_size: usize,
    max_trace_size: u64,
    pc_start: u64,
    pc_base: u64,
    clk_bump: u64,
    fragments: FragmentsModel,
)
    ensures
        ({
            let made: BackendModel = new_backend(
                memory_size,
                max_trace_size,
                pc_start,
                pc_base,
                clk_bump,
                fragments,
            );
            &&& made.memory_size == memory_size
            &&& made.max_trace_size == max_trace_size
            &&& made.pc_start == pc_start
            &&& made.pc_base == pc_base
            &&& made.clk_bump == clk_bump
            &&& made.fragments == fragments
            &&& made.code == fragments.prologue
            &&& made.jump_table.len() == 0
            &&& made.instr_map.len() == 0
            &&& made.ecall_handler is Dummy
            &&& !made.has_instructions
            &&& !made.instruction_started
            &&& !made.control_flow_instruction_inserted
            &&& !made.may_early_exit
            &&& !made.has_embedded_host_calls
        }),
{
}

/// What is appended at the end of an instruction depends on its two marks alone. An instruction
/// that sets the PC bumps the clock, checks the trace if it may leave the function, and jumps to
/// the PC. Any other bumps the clock, bumps the PC, and then checks the trace if it may leave the
/// function.
pub proof fn law_end_completes_the_instruction(backend: BackendModel)
    ensures
        ({
            let parts: FragmentsModel = backend.fragments;
            let code: Seq<u8> = backend.stepped(Step::End).code;
            let check: Seq<u8> = parts.exit_if_trace_exceeds;
            match (backend.control_flow_instruction_inserted, backend.may_early_exit) {
                (true, true) => code == backend.code + (parts.bump_clk + (check
                    + parts.jump_to_pc)),
                (true, false) => code == backend.code + (parts.bump_clk + parts.jump_to_pc),
                (false, true) => code == backend.code + (parts.bump_clk + (parts.bump_pc
                    + check)),
                (false, false) => code == backend.code + (parts.bump_clk + parts.bump_pc),
            }
        }),
{
    let parts: FragmentsModel = backend.fragments;
    let code: Seq<u8> = backend.stepped(Step::End).code;
    let check: Seq<u8> = parts.exit_if_trace_exceeds;
    match (backend.control_flow_instruction_inserted, backend.may_early_exit) {
        (true, true) => {
            assert(code =~= backend.code + (parts.bump_clk + (check + parts.jump_to_pc)));
        },
        (true, false) => {
            assert(code =~= backend.code + (parts.bump_clk + parts.jump_to_pc));
        },
        (false, true) => {
            assert(code =~= backend.code + (parts.bump_clk + (parts.bump_pc + check)));
        },
        (false, false) => {
            assert(code =~= backend.code + (parts.bump_clk + parts.bump_pc));
        },
    }
}

/// Two backends of the same fragments append the same at the end of instructions of the same
/// marks, whatever else was done to them.
pub proof fn law_end_depends_on_marks_alone(a: BackendModel, b: BackendModel)
    requires
        a.fragments == b.fragments,
        a.control_flow_instruction_inserted == b.control_flow_instruction_inserted,
        a.may_early_exit == b.may_early_exit,
    ensures
        a.stepped(Step::End).code.skip(a.code.len() as int) == b.stepped(Step::End).code.skip(
            b.code.len() as int,
        ),
        a.stepped(Step::End).code.take(a.code.len() as int) == a.code,
{
    assert(a.stepped(Step::End).code.skip(a.code.len() as int) =~= b.stepped(Step::End).code.skip(
        b.code.len() as int,
    ));
    assert(a.stepped(Step::End).code.take(a.code.len() as int) =~= a.code);
}

/// Ending an instruction clears its marks, sets the end of the last entry of the instruction map
/// to the length of the code, and changes nothing else but the code.
pub proof fn law_end_closes_the_entry(backend: BackendModel)
    ensures
        ({
            let ended: BackendModel = backend.stepped(Step::End);
            let count: int = backend.instr_map.len() as int;
            &&& !ended.instruction_started
            &&& !ended.control_flow_instruction_inserted
            &&& !ended.may_early_exit
            &&& ended.jump_table == backend.jump_table
            &&& ended.instr_map.len() == count
            &&& forall|i: int|
                0 <= i < count - 1 ==> #[trigger] ended.instr_map[i] == backend.instr_map[i]
            &&& count > 0 ==> {
                let (new, old_entry): (InstrMapEntry, InstrMapEntry) = (
                    ended.instr_map[count - 1],
                    backend.instr_map[count - 1],
                );
                &&& new.instr_index == old_entry.instr_index
                &&& new.riscv_pc == old_entry.riscv_pc
                &&& new.start_offset == old_entry.start_offset
                &&& ended.code.len() <= u64::MAX ==> new.end_offset as int == ended.code.len() as int
                    % 0x1_0000_0000
            }
            &&& same_parameters(ended, backend)
            &&& ended.has_instructions == backend.has_instructions
            &&& ended.ecall_handler == backend.ecall_handler
            &&& ended.has_embedded_host_calls == backend.has_embedded_host_calls
        }),
{
    let ended: BackendModel = backend.stepped(Step::End);
    if ended.code.len() <= u64::MAX {
        bytes::lemma_low_32(ended.code.len() as u64);
    }
}

/// Whether two backends were made with the same parameters.
pub open spec fn same_parameters(a: BackendModel, b: BackendModel) -> bool {
    &&& a.memory_size == b.memory_size
    &&& a.max_trace_size == b.max_trace_size
    &&& a.pc_start == b.pc_start
    &&& a.pc_base == b.pc_base
    &&& a.clk_bump == b.clk_bump
    &&& a.fragments == b.fragments
}

/// Starting an instruction adds one destination to the jump table and one entry to the
/// instruction map, both at the end of the code, and changes nothing else but that an instruction
/// is under way.
pub proof fn law_start_opens_an_entry(backend: BackendModel)
    requires
        backend.code.len() <= usize::MAX,
        backend.jump_table.len() <= u32::MAX,
        backend.pc_base + 4 * backend.jump_table.len() <= u64::MAX,
    ensures
        ({
            let started: BackendModel = backend.stepped(Step::Start);
            let entry: InstrMapEntry = started.instr_map.last();
            &&& started.has_instructions
            &&& started.instruction_started
            &&& started.code == backend.code
            &&& started.jump_table.len() == backend.jump_table.len() + 1
            &&& started.jump_table.drop_last() == backend.jump_table
            &&& started.jump_table.last() == backend.code.len()
            &&& started.instr_map.len() == backend.instr_map.len() + 1
            &&& started.instr_map.drop_last() == backend.instr_map
            &&& entry.instr_index == backend.jump_table.len()
            &&& entry.riscv_pc - backend.pc_base == 4 * backend.jump_table.len()
            &&& entry.start_offset as int == backend.code.len() as int % 0x1_0000_0000
            &&& entry.end_offset == entry.start_offset
            &&& same_parameters(started, backend)
            &&& started.ecall_handler == backend.ecall_handler
            &&& started.control_flow_instruction_inserted
                == backend.control_flow_instruction_inserted
            &&& started.may_early_exit == backend.may_early_exit
            &&& started.has_embedded_host_calls == backend.has_embedded_host_calls
        }),
{
    let started: BackendModel = backend.stepped(Step::Start);
    assert(started.jump_table.drop_last() =~= backend.jump_table);
    assert(started.instr_map.drop_last() =~= backend.instr_map);
    bytes::lemma_low_32(backend.code.len() as u64);
}

/// An instruction may be started if and only if none is under way and its PC fits in 64 bits, and
/// every other step may be taken at any time.
pub proof fn law_steps_allowed(backend: BackendModel, step: Step)
    requires
        backend.jump_table.len() <= u32::MAX,
    ensures
        step is Start ==> (backend.allows(step) <==> !backend.instruction_started
            && backend.pc_base + 4 * backend.jump_table.len() <= u64::MAX),
        !(step is Start) ==> backend.allows(step),
{
}

/// The steps within an instruction append what they are given, set what they are named for, and
/// change nothing else.
pub proof fn law_other_steps_do_one_thing(backend: BackendModel, step: Step)
    requires
        !(step is Start),
        !(step is End),
    ensures
        ({
            let after: BackendModel = backend.stepped(step);
            &&& after.code == backend.code + (match step {
                Step::Emit(code) => code,
                Step::CallHost(load, call) => load + call,
                _ => Seq::<u8>::empty(),
            })
            &&& after.has_embedded_host_calls == (backend.has_embedded_host_calls
                || step is CallHost)
            &&& after.control_flow_instruction_inserted == (
            backend.control_flow_instruction_inserted || step is MarkControlFlow)
            &&& after.may_early_exit == (backend.may_early_exit || step is MarkMayEarlyExit)
            &&& after.ecall_handler == (match step {
                Step::RegisterEcallHandler(handler) => handler,
                _ => backend.ecall_handler,
            })
            &&& after.jump_table == backend.jump_table
            &&& after.instr_map == backend.instr_map
            &&& after.has_instructions == backend.has_instructions
            &&& after.instruction_started == backend.instruction_started
            &&& same_parameters(after, backend)
        }),
{
    let after: BackendModel = backend.stepped(step);
    match step {
        Step::CallHost(load, call) => {
            assert(after.code =~= backend.code + (load + call));
        },
        Step::Emit(code) => {
            assert(after.code =~= backend.code + code);
        },
        _ => {
            assert(after.code =~= backend.code + Seq::<u8>::empty());
        },
    }
}

/// The number that `mov rdi, imm32` brings into `rdi`: the four bytes behind the opcode, their
/// sign extended to 64 bits.
pub open spec fn loaded_immediate(code: Seq<u8>) -> int {
    let low: int = bytes::le_value(code.skip(3)) as int;
    if low < 0x8000_0000 {
        low
    } else {
        low + 0xffff_ffff_0000_0000
    }
}

/// The code that loads an immediate is one `mov rdi, imm32`, which brings the immediate into `rdi`
/// where it fits in 32 bits as a signed number, and in any case its low 32 bits.
pub proof fn law_immediate_is_loaded(imm: u64)
    ensures
        load_immediate(imm).len() == 7,
        load_immediate(imm).take(3) == seq![0x48u8, 0xC7u8, 0xC7u8],
        loaded_immediate(load_immediate(imm)) % 0x1_0000_0000 == imm % 0x1_0000_0000,
        imm < 0x8000_0000 || imm >= 0xffff_ffff_8000_0000 ==> loaded_immediate(load_immediate(imm))
            == imm,
{
    let low: nat = (imm % 0x1_0000_0000) as nat;
    bytes::lemma_le_bytes_len(low, 4);
    bytes::lemma_field_bounds();
    bytes::lemma_le_round_trip(low, 4);
    assert(load_immediate(imm).skip(3) =~= bytes::le_bytes(low, 4));
    assert(load_immediate(imm).take(3) =~= seq![0x48u8, 0xC7u8, 0xC7u8]);
}

/// The finished function has the code of the backend and then the epilogue, its destinations, its
/// memory size and starting PC, and has never been run.
pub proof fn law_finished_function(backend: BackendModel)
    ensures
        ({
            let function: FunctionModel = backend.finalized();
            let len: int = backend.code.len() as int;
            &&& function.code.len() == len + backend.fragments.epilogue.len()
            &&& function.code.take(len) == backend.code
            &&& function.code.skip(len) == backend.fragments.epilogue
            &&& function.jump_table == backend.jump_table
            &&& function.memory_size == backend.memory_size
            &&& function.pc_start == backend.pc_start
            &&& function.pc == backend.pc_start
            &&& function.clk == 1
            &&& function.global_clk == 0
            &&& function.registers.len() == 32
            &&& forall|i: int| 0 <= i < 32 ==> #[trigger] function.registers[i] == 0
            &&& function.initial_memory == Map::<u64, u64>::empty()
            &&& function.input_buffer.len() == 0
            &&& function.hints.len() == 0
            &&& function.public_values_stream.len() == 0
            &&& function.exit_code == 0
        }),
{
    let len: int = backend.code.len() as int;
    assert(backend.finalized().code.take(len) =~= backend.code);
    assert(backend.finalized().code.skip(len) =~= backend.fragments.epilogue);
}

/// The artifact of a finished backend has the code of the function and the backend's own
/// parameters, each in its place: the base PC is that of the backend, also where the program
/// starts elsewhere.
pub proof fn law_finished_artifact(backend: BackendModel)
    ensures
        ({
            let artifact: ArtifactModel = backend.artifact();
            &&& artifact.format_version == 1
            &&& artifact.code == backend.code + backend.fragments.epilogue
            &&& artifact.jump_table_offsets.len() == backend.jump_table.len()
            &&& forall|i: int|
                0 <= i < backend.jump_table.len() && backend.jump_table[i] <= u32::MAX
                    ==> #[trigger] artifact.jump_table_offsets[i] == backend.jump_table[i]
            &&& artifact.instr_map == backend.instr_map
            &&& artifact.memory_size == backend.memory_size
            &&& artifact.pc_start == backend.pc_start
            &&& artifact.pc_base == backend.pc_base
            &&& artifact.max_trace_size == backend.max_trace_size
            &&& artifact.clk_bump == backend.clk_bump
            &&& artifact.has_host_call_relocations == backend.has_embedded_host_calls
        }),
{
}

/// An artifact's instructions are counted from its own base PC: four bytes of PC for each
/// instruction. This holds of instructions that 32 bits can number.
pub proof fn law_artifact_pcs_count_from_base(backend: BackendModel, i: int)
    requires
        backend.wf(),
        0 <= i < backend.instr_map.len(),
        i <= u32::MAX,
    ensures
        backend.artifact().instr_map[i].riscv_pc == backend.artifact().pc_base + 4 * i,
        backend.artifact().instr_map[i].instr_index == i,
        backend.artifact().pc_base <= backend.artifact().pc_start,
{
    assert(backend.describes(i, backend.instr_map[i]));
}

/// No step changes the parameters.
proof fn lemma_parameters_stay(backend: BackendModel, steps: Seq<Step>)
    ensures
        same_parameters(backend.after(steps), backend),
    decreases steps.len(),
{
    if steps.len() > 0 {
        lemma_parameters_stay(backend, steps.drop_last());
    }
}

/// What a backend was made with reaches its function and its artifact unchanged, whatever was
/// done in between, and the code starts with the prologue and ends with the epilogue.
pub proof fn law_parameters_reach_the_artifact(
    memory_size: usize,
    max_trace_size: u64,
    pc_start: u64,
    pc_base: u64,
    clk_bump: u64,
    fragments: FragmentsModel,
    steps: Seq<Step>,
)
    ensures
        ({
            let last: BackendModel = new_backend(
                memory_size,
                max_trace_size,
                pc_start,
                pc_base,
                clk_bump,
                fragments,
            ).after(steps);
            let artifact: ArtifactModel = last.artifact();
            let len: int = artifact.code.len() as int;
            &&& artifact.memory_size == memory_size
            &&& artifact.max_trace_size == max_trace_size
            &&& artifact.pc_start == pc_start
            &&& artifact.pc_base == pc_base
            &&& artifact.clk_bump == clk_bump
            &&& artifact.has_host_call_relocations <==> has_host_call(steps)
            &&& len >= fragments.prologue.len() + fragments.epilogue.len()
            &&& artifact.code.take(fragments.prologue.len() as int) == fragments.prologue
            &&& artifact.code.skip(len - fragments.epilogue.len()) == fragments.epilogue
            &&& last.finalized().code == artifact.code
            &&& last.finalized().memory_size == memory_size
            &&& last.finalized().pc == pc_start
            &&& last.finalized().pc_start == pc_start
        }),
{
    let first: BackendModel = new_backend(
        memory_size,
        max_trace_size,
        pc_start,
        pc_base,
        clk_bump,
        fragments,
    );
    let last: BackendModel = first.after(steps);
    lemma_parameters_stay(first, steps);
    lemma_host_calls(first, steps);
    lemma_code_prefix(first, steps);
    let code: Seq<u8> = last.artifact().code;
    assert(code.take(fragments.prologue.len() as int) =~= last.code.take(
        fragments.prologue.len() as int,
    ));
    assert(code.skip(code.len() - fragments.epilogue.len()) =~= fragments.epilogue);
}

/// No steps change the code that is there.
proof fn lemma_code_prefix(backend: BackendModel, steps: Seq<Step>)
    ensures
        backend.code.len() <= backend.after(steps).code.len(),
        backend.after(steps).code.take(backend.code.len() as int) == backend.code,
    decreases steps.len(),
{
    let len: int = backend.code.len() as int;
    if steps.len() == 0 {
        assert(backend.code.take(len) =~= backend.code);
    } else {
        let before: BackendModel = backend.after(steps.drop_last());
        lemma_code_prefix(backend, steps.drop_last());
        lemma_code_grows(before, steps.last());
        assert(before.stepped(steps.last()).code.take(len) =~= before.code.take(len));
    }
}

/// A step that may be taken leaves the backend well-formed, and lets its code grow.
proof fn lemma_step(backend: BackendModel, step: Step)
    requires
        backend.wf(),
        backend.allows(step),
        backend.stepped(step).code.len() <= usize::MAX,
    ensures
        backend.stepped(step).wf(),
{
}

/// No step takes code away.
proof fn lemma_code_grows(backend: BackendModel, step: Step)
    ensures
        backend.code.len() <= backend.stepped(step).code.len(),
{
}

/// No steps take code away.
proof fn lemma_code_after(backend: BackendModel, steps: Seq<Step>)
    ensures
        backend.code.len() <= backend.after(steps).code.len(),
    decreases steps.len(),
{
    if steps.len() > 0 {
        lemma_code_after(backend, steps.drop_last());
        lemma_code_grows(backend.after(steps.drop_last()), steps.last());
    }
}

/// Steps that may be taken leave the backend well-formed and its parameters as they are, and add
/// an instruction for each start.
proof fn lemma_after(backend: BackendModel, steps: Seq<Step>)
    requires
        backend.wf(),
        backend.allows_all(steps),
        backend.after(steps).code.len() <= usize::MAX,
    ensures
        backend.after(steps).wf(),
        backend.after(steps).instr_map.len() == backend.instr_map.len() + starts(steps),
        backend.after(steps).pc_base == backend.pc_base,
        backend.after(steps).fragments == backend.fragments,
    decreases steps.len(),
{
    if steps.len() > 0 {
        let init: Seq<Step> = steps.drop_last();
        let before: BackendModel = backend.after(init);
        assert(steps.take(steps.len() - 1) =~= init);
        assert forall|k: int| 0 <= k < init.len() implies backend.after(
            #[trigger] init.take(k),
        ).allows(init[k]) by {
            assert(init.take(k) =~= steps.take(k));
            assert(backend.after(steps.take(k)).allows(steps[k]));
        }
        lemma_code_grows(before, steps.last());
        lemma_after(backend, init);
        assert(before.allows(steps.last())) by {
            assert(backend.after(steps.take(steps.len() - 1)).allows(steps[steps.len() - 1]));
        }
        lemma_step(before, steps.last());
    }
}

/// Whatever was done to a backend, its instruction map has an entry for each instruction that was
/// started, numbered from 0 and four bytes of PC apart from the base PC on; the byte ranges end
/// where they start or later, and are in order and apart. This holds of code of less than 2^32
/// bytes where the clock bump takes code, or where 32 bits can number the instructions.
pub proof fn law_instr_map_is_exact(
    memory_size: usize,
    max_trace_size: u64,
    pc_start: u64,
    pc_base: u64,
    clk_bump: u64,
    fragments: FragmentsModel,
    steps: Seq<Step>,
)
    requires
        pc_base <= pc_start,
        fragments.bump_clk.len() > 0 || starts(steps) <= 0x1_0000_0000,
        ({
            let first: BackendModel = new_backend(
                memory_size,
                max_trace_size,
                pc_start,
                pc_base,
                clk_bump,
                fragments,
            );
            first.allows_all(steps) && first.after(steps).code.len() <= u32::MAX
        }),
    ensures
        ({
            let map: Seq<InstrMapEntry> = new_backend(
                memory_size,
                max_trace_size,
                pc_start,
                pc_base,
                clk_bump,
                fragments,
            ).after(steps).instr_map;
            &&& map.len() == starts(steps)
            &&& forall|i: int|
                0 <= i < map.len() ==> (#[trigger] map[i]).instr_index == i && map[i].riscv_pc
                    == pc_base + 4 * i && map[i].start_offset <= map[i].end_offset
            &&& forall|i: int, j: int|
                0 <= i < j < map.len() ==> (#[trigger] map[i]).end_offset <= (
                #[trigger] map[j]).start_offset
        }),
{
    let first: BackendModel = new_backend(
        memory_size,
        max_trace_size,
        pc_start,
        pc_base,
        clk_bump,
        fragments,
    );
    let last: BackendModel = first.after(steps);
    lemma_code_after(first, steps);
    lemma_after(first, steps);
    assert forall|i: int| 0 <= i < last.instr_map.len() implies (
    #[trigger] last.instr_map[i]).instr_index == i && last.instr_map[i].riscv_pc == pc_base + 4
        * i by {
        assert(last.describes(i, last.instr_map[i]));
    }
}

/// Whether a call of a host function is among some steps.
pub open spec fn has_host_call(steps: Seq<Step>) -> bool {
    exists|k: int| 0 <= k < steps.len() && #[trigger] steps[k] is CallHost
}

/// A backend has embedded host function pointers if and only if a call of a host function is among
/// the steps that were taken, and none of the steps that follow changes that.
pub proof fn law_host_calls_are_remembered(
    memory_size: usize,
    max_trace_size: u64,
    pc_start: u64,
    pc_base: u64,
    clk_bump: u64,
    fragments: FragmentsModel,
    steps: Seq<Step>,
    later: Seq<Step>,
)
    ensures
        ({
            let first: BackendModel = new_backend(
                memory_size,
                max_trace_size,
                pc_start,
                pc_base,
                clk_bump,
                fragments,
            );
            &&& first.after(steps).has_embedded_host_calls <==> has_host_call(steps)
            &&& first.after(steps).has_embedded_host_calls ==> first.after(
                steps + later,
            ).has_embedded_host_calls
        }),
{
    let first: BackendModel = new_backend(
        memory_size,
        max_trace_size,
        pc_start,
        pc_base,
        clk_bump,
        fragments,
    );
    lemma_host_calls(first, steps);
    lemma_host_calls(first, steps + later);
    if has_host_call(steps) {
        let k: int = choose|k: int| 0 <= k < steps.len() && #[trigger] steps[k] is CallHost;
        assert((steps + later)[k] is CallHost);
    }
}

/// Whether there are embedded host function pointers after some steps.
proof fn lemma_host_calls(backend: BackendModel, steps: Seq<Step>)
    ensures
        backend.after(steps).has_embedded_host_calls == (backend.has_embedded_host_calls
            || has_host_call(steps)),
    decreases steps.len(),
{
    if steps.len() > 0 {
        let init: Seq<Step> = steps.drop_last();
        lemma_host_calls(backend, init);
        if has_host_call(init) {
            let k: int = choose|k: int| 0 <= k < init.len() && #[trigger] init[k] is CallHost;
            assert(steps[k] is CallHost);
        }
        if steps.last() is CallHost {
            assert(steps[steps.len() - 1] is CallHost);
        }
        if has_host_call(steps) && !(steps.last() is CallHost) {
            let k: int = choose|k: int| 0 <= k < steps.len() && #[trigger] steps[k] is CallHost;
            assert(init[k] is CallHost);
        }
    }
}

/// A function that is made of the artifact of a finished backend is the function that the
/// backend makes. This holds of code that 32-bit offsets can point into.
pub proof fn law_artifact_recreates_function(backend: BackendModel)
    requires
        backend.wf(),
        backend.code.len() + backend.fragments.epilogue.len() <= u32::MAX,
    ensures
        cache::captured_function(backend.artifact()) == backend.finalized(),
{
    cache::law_artifact_captures_function(
        backend.code + backend.fragments.epilogue,
        backend.jump_table,
        backend.memory_size,
        backend.pc_start,
        backend.instr_map,
        backend.pc_base,
        backend.max_trace_size,
        backend.clk_bump,
        backend.has_embedded_host_calls,
    );
}

/// A function that is made of what the cache file of a finished backend's artifact holds is the
/// function that the backend makes. This holds of code that 32-bit offsets can point into.
pub proof fn law_cache_recreates_function(backend: BackendModel, read: ArtifactModel)
    requires
        backend.wf(),
        backend.code.len() + backend.fragments.epilogue.len() <= u32::MAX,
        payload::lengths_fit(backend.artifact()),
        payload::lengths_fit(read),
        cache::holds_artifact(cache::cache_bytes(backend.artifact()), read),
    ensures
        cache::captured_function(read) == backend.finalized(),
{
    cache::law_cache_round_trip(backend.artifact(), read);
    law_artifact_recreates_function(backend);
}

/// The instructions of a backend are four bytes of PC apart, and have different symbols in an ELF
/// object. This holds of instructions that 32 bits can number.
pub proof fn law_instructions_are_told_apart(backend: BackendModel, i: int, j: int)
    requires
        backend.wf(),
        0 <= i < j < backend.instr_map.len(),
        j <= u32::MAX,
    ensures
        backend.instr_map[j].riscv_pc - backend.instr_map[i].riscv_pc == 4 * (j - i),
        elf_export::pc_name(backend.instr_map[i].riscv_pc) != elf_export::pc_name(
            backend.instr_map[j].riscv_pc,
        ),
{
    assert(backend.describes(i, backend.instr_map[i]));
    assert(backend.describes(j, backend.instr_map[j]));
    elf_export::law_pc_names_differ(backend.instr_map[i].riscv_pc, backend.instr_map[j].riscv_pc);
}

/// An instruction's byte range holds its code and what the backend puts at its end. This holds of
/// code that 32-bit offsets can point into.
pub proof fn law_range_holds_instruction(backend: BackendModel, body: Seq<u8>)
    requires
        backend.wf(),
        backend.started().emitted(body).ended().code.len() <= u32::MAX,
    ensures
        ({
            let open: BackendModel = backend.started().emitted(body);
            let entry: InstrMapEntry = open.ended().instr_map.last();
            open.ended().code.subrange(entry.start_offset as int, entry.end_offset as int) == body
                + open.instr_tail()
        }),
{
    let open: BackendModel = backend.started().emitted(body);
    let entry: InstrMapEntry = open.ended().instr_map.last();
    assert(open.ended().code.subrange(entry.start_offset as int, entry.end_offset as int) =~= body
        + open.instr_tail());
}

/// What comes after an instruction leaves its byte range and the code in it as they are.
pub proof fn law_later_instructions_keep_range(backend: BackendModel, body: Seq<u8>, i: int)
    requires
        backend.wf(),
        backend.code.len() <= u32::MAX,
        0 <= i < backend.instr_map.len(),
    ensures
        ({
            let later: BackendModel = backend.started().emitted(body).ended();
            let entry: InstrMapEntry = backend.instr_map[i];
            &&& later.instr_map[i] == entry
            &&& later.code.subrange(entry.start_offset as int, entry.end_offset as int)
                == backend.code.subrange(entry.start_offset as int, entry.end_offset as int)
        }),
{
    let later: BackendModel = backend.started().emitted(body).ended();
    let entry: InstrMapEntry = backend.instr_map[i];
    assert(later.code.subrange(entry.start_offset as int, entry.end_offset as int)
        =~= backend.code.subrange(entry.start_offset as int, entry.end_offset as int));
}

/// The line table of a backend's instructions maps the code of each instruction to the line that
/// stands for its PC. This holds of code that 32-bit offsets can point into.
pub proof fn law_code_is_mapped(backend: BackendModel, i: int, offset: nat)
    requires
        backend.wf(),
        backend.code.len() <= u32::MAX,
        0 <= i < backend.instr_map.len(),
        backend.instr_map[i].start_offset <= offset < backend.instr_map[i].end_offset,
    ensures
        debug_line::run_program(
            debug_line::line_program(backend.artifact().instr_map),
            0,
            1,
            1,
        ) matches Some(table) && {
            &&& table.rows[i].line == debug_line::line_of(backend.instr_map[i])
            &&& forall|j: int| table.finds(offset, j) <==> j == i
        },
{
    debug_line::law_ranges_are_mapped(backend.instr_map, i, offset);
}

/// The artifact of a finished backend can be written as an ELF object. This holds of code that
/// 32-bit offsets can point into, of PCs that all lie below `i64::MAX` or all above it, and of as
/// many instructions as a symbol table can name.
pub proof fn law_artifact_is_exportable(backend: BackendModel)
    requires
        backend.wf(),
        backend.code.len() <= u32::MAX,
        backend.instr_map.len() + 1 < u32::MAX,
        backend.pc_base > i64::MAX || backend.pc_base + 4 * (backend.instr_map.len() - 1)
            < i64::MAX,
    ensures
        elf_export::is_exportable(backend.artifact()),
{
    let map: Seq<InstrMapEntry> = backend.instr_map;
    assert forall|i: int| 0 <= i < map.len() implies debug_line::fits_i64(
        #[trigger] debug_line::line_of(map[i]),
    ) && (debug_line::line_of(map[i]) >= 1 <==> backend.pc_base <= i64::MAX) by {
        assert(backend.describes(i, map[i]));
    }
    assert forall|i: int| 0 <= i < map.len() implies debug_line::fits_i64(
        #[trigger] debug_line::line_of(map[i]) - debug_line::line_after(map.take(i)),
    ) by {
        if i > 0 {
            assert(map.take(i).last() == map[i - 1]);
        }
    }
}

} // verus!
