//! Compiled functions that are ready to run.

use crate::bytes;
use crate::cache::{ArtifactModel, InstrMapEntry, JitArtifact};
use crate::memory_image;
use crate::memory_image::MemoryImage;
use std::collections::VecDeque;
use std::sync::Arc;
use vstd::prelude::*;

verus! {

/// The version that artifacts are written with.
pub const FORMAT_VERSION: u32 = 1;

/// A compiled function and the state of its virtual machine.
///
/// The jump table holds, for each RISC-V instruction, the offset of its x86-64 code in `code`.
/// Once `code` is mapped into executable memory, [`JitFunction::jump_addresses`] turns the
/// offsets into the addresses that the code jumps to.
#[derive(Debug)]
pub struct JitFunction {
    /// Jump table as offsets into `code`.
    pub jump_table: Vec<usize>,
    /// The raw x86-64 machine code bytes.
    pub code: Vec<u8>,
    /// VM memory buffer size in bytes.
    pub memory_size: usize,
    /// The current PC.
    pub pc: u64,
    /// Starting PC of the program.
    pub pc_start: u64,
    /// The clock.
    pub clk: u64,
    /// The clock over all chunks of an execution.
    pub global_clk: u64,
    /// The RISC-V registers.
    pub registers: [u64; 32],
    /// What guest memory holds at the start.
    pub initial_memory_image: Arc<MemoryImage>,
    /// Input that the program has not read yet.
    pub input_buffer: VecDeque<Vec<u8>>,
    /// Hints that the program has given, each with the clock it was given at.
    pub hints: Vec<(u64, Vec<u8>)>,
    /// Public values that the program has written.
    pub public_values_stream: Vec<u8>,
    /// The exit code.
    pub exit_code: u32,
}

/// A compiled function, as the proofs see it.
#[verifier::ext_equal]
pub struct FunctionModel {
    /// Jump table as offsets into `code`.
    pub jump_table: Seq<usize>,
    /// The raw x86-64 machine code bytes.
    pub code: Seq<u8>,
    /// VM memory buffer size in bytes.
    pub memory_size: usize,
    /// The current PC.
    pub pc: u64,
    /// Starting PC of the program.
    pub pc_start: u64,
    /// The clock.
    pub clk: u64,
    /// The clock over all chunks of an execution.
    pub global_clk: u64,
    /// The RISC-V registers.
    pub registers: Seq<u64>,
    /// What guest memory holds at the start.
    pub initial_memory: Map<u64, u64>,
    /// Input that the program has not read yet.
    pub input_buffer: Seq<Vec<u8>>,
    /// Hints that the program has given.
    pub hints: Seq<(u64, Vec<u8>)>,
    /// Public values that the program has written.
    pub public_values_stream: Seq<u8>,
    /// The exit code.
    pub exit_code: u32,
}

impl View for JitFunction {
    type V = FunctionModel;

    open spec fn view(&self) -> FunctionModel {
        FunctionModel {
            jump_table: self.jump_table@,
            code: self.code@,
            memory_size: self.memory_size,
            pc: self.pc,
            pc_start: self.pc_start,
            clk: self.clk,
            global_clk: self.global_clk,
            registers: self.registers@,
            initial_memory: memory_image::image_words(*self.initial_memory_image),
            input_buffer: self.input_buffer@,
            hints: self.hints@,
            public_values_stream: self.public_values_stream@,
            exit_code: self.exit_code,
        }
    }
}

/// A function before its first run: at its starting PC, the clock at 1, the registers zero, and
/// no memory image, input or output.
pub open spec fn unstarted(
    code: Seq<u8>,
    jump_table: Seq<usize>,
    memory_size: usize,
    pc_start: u64,
) -> FunctionModel {
    FunctionModel {
        jump_table,
        code,
        memory_size,
        pc: pc_start,
        pc_start,
        clk: 1,
        global_clk: 0,
        registers: Seq::new(32, |i: int| 0u64),
        initial_memory: Map::empty(),
        input_buffer: Seq::empty(),
        hints: Seq::empty(),
        public_values_stream: Seq::empty(),
        exit_code: 0,
    }
}

/// Whether every offset of a jump table points into the code, or to its end.
pub open spec fn offsets_in_code(jump_table: Seq<usize>, code: Seq<u8>) -> bool {
    forall|i: int| 0 <= i < jump_table.len() ==> #[trigger] jump_table[i] <= code.len()
}

/// Whether every offset of a jump table, counted from `base`, is an address.
pub open spec fn offsets_fit(jump_table: Seq<usize>, base: usize) -> bool {
    forall|i: int| 0 <= i < jump_table.len() ==> base + #[trigger] jump_table[i] <= usize::MAX
}

/// The addresses that a jump table stands for when the code is mapped at `base`.
pub open spec fn addresses_at(jump_table: Seq<usize>, base: usize) -> Seq<usize> {
    jump_table.map_values(|offset: usize| (base + offset) as usize)
}

/// Each address lies as far behind the base as its offset says, whatever the base.
pub proof fn law_addresses_keep_offsets(jump_table: Seq<usize>, base: usize, other: usize, i: int)
    requires
        offsets_fit(jump_table, base),
        offsets_fit(jump_table, other),
        0 <= i < jump_table.len(),
    ensures
        addresses_at(jump_table, base).len() == jump_table.len(),
        addresses_at(jump_table, base)[i] - base == jump_table[i],
        addresses_at(jump_table, base)[i] - addresses_at(jump_table, other)[i] == base - other,
{
    assert(base + jump_table[i] <= usize::MAX);
    assert(other + jump_table[i] <= usize::MAX);
}

/// A jump table has addresses at a base if and only if each of its offsets has.
pub proof fn law_offsets_fit_one_by_one(jump_table: Seq<usize>, offset: usize, base: usize)
    ensures
        offsets_fit(Seq::<usize>::empty(), base),
        offsets_fit(jump_table.push(offset), base) <==> offsets_fit(jump_table, base) && base
            + offset <= usize::MAX,
{
    let longer: Seq<usize> = jump_table.push(offset);
    if offsets_fit(longer, base) {
        assert forall|i: int| 0 <= i < jump_table.len() implies base + #[trigger] jump_table[i]
            <= usize::MAX by {
            assert(base + longer[i] <= usize::MAX);
        }
        assert(base + longer[jump_table.len() as int] <= usize::MAX);
    }
}

/// The view of a function shows every field as it is.
pub proof fn law_function_view(function: JitFunction)
    ensures
        function@.jump_table == function.jump_table@,
        function@.code == function.code@,
        function@.memory_size == function.memory_size,
        function@.pc == function.pc,
        function@.pc_start == function.pc_start,
        function@.clk == function.clk,
        function@.global_clk == function.global_clk,
        function@.registers == function.registers@,
        function@.initial_memory == memory_image::image_words(*function.initial_memory_image),
        function@.input_buffer == function.input_buffer@,
        function@.hints == function.hints@,
        function@.public_values_stream == function.public_values_stream@,
        function@.exit_code == function.exit_code,
{
}

/// A function that was never run has the code, destinations, memory size and starting PC that it
/// was made of. It is at its starting PC, its clock at 1, and everything else is zero or empty.
pub proof fn law_unstarted_function(
    code: Seq<u8>,
    jump_table: Seq<usize>,
    memory_size: usize,
    pc_start: u64,
)
    ensures
        ({
            let function: FunctionModel = unstarted(code, jump_table, memory_size, pc_start);
            &&& function.code == code
            &&& function.jump_table == jump_table
            &&& function.memory_size == memory_size
            &&& function.pc_start == pc_start
            &&& function.pc == pc_start
            &&& function.clk == 1
            &&& function.global_clk == 0
            &&& function.registers.len() == 32
            &&& forall|i: int| 0 <= i < 32 ==> #[trigger] function.registers[i] == 0
            &&& function.initial_memory == Map::<u64, u64>::empty()
            &&& function.input_buffer.len() == 0
            &&& function.hints.len() == 0
            &&& function.public_values_stream.len() == 0
            &&& function.exit_code == 0
        }),
{
}

/// The artifact of a function has the function's code, memory size and starting PC, the low 32
/// bits of its destinations, and what the compiler knows besides, each in its place.
pub proof fn law_artifact_of_function(
    function: FunctionModel,
    instr_map: Seq<InstrMapEntry>,
    pc_base: u64,
    max_trace_size: u64,
    clk_bump: u64,
    has_host_call_relocations: bool,
)
    ensures
        ({
            let artifact: ArtifactModel = artifact_of(
                function,
                instr_map,
                pc_base,
                max_trace_size,
                clk_bump,
                has_host_call_relocations,
            );
            &&& artifact.format_version == 1
            &&& artifact.code == function.code
            &&& artifact.jump_table_offsets.len() == function.jump_table.len()
            &&& forall|i: int|
                0 <= i < function.jump_table.len() ==> (
                #[trigger] artifact.jump_table_offsets[i]) as int == function.jump_table[i] as int
                    % 0x1_0000_0000
            &&& artifact.instr_map == instr_map
            &&& artifact.memory_size == function.memory_size
            &&& artifact.pc_start == function.pc_start
            &&& artifact.pc_base == pc_base
            &&& artifact.max_trace_size == max_trace_size
            &&& artifact.clk_bump == clk_bump
            &&& artifact.has_host_call_relocations == has_host_call_relocations
        }),
{
    let artifact: ArtifactModel = artifact_of(
        function,
        instr_map,
        pc_base,
        max_trace_size,
        clk_bump,
        has_host_call_relocations,
    );
    assert forall|i: int| 0 <= i < function.jump_table.len() implies (
    #[trigger] artifact.jump_table_offsets[i]) as int == function.jump_table[i] as int
        % 0x1_0000_0000 by {
        bytes::lemma_low_32(function.jump_table[i] as u64);
    }
}

/// The artifact that captures a function: its code, its jump table in 32-bit offsets, the size of
/// its memory, its starting PC, and what the compiler knows besides.
pub open spec fn artifact_of(
    function: FunctionModel,
    instr_map: Seq<InstrMapEntry>,
    pc_base: u64,
    max_trace_size: u64,
    clk_bump: u64,
    has_host_call_relocations: bool,
) -> ArtifactModel {
    ArtifactModel {
        format_version: FORMAT_VERSION,
        code: function.code,
        jump_table_offsets: function.jump_table.map_values(|offset: usize| offset as u32),
        instr_map,
        memory_size: function.memory_size as u64,
        pc_start: function.pc_start,
        pc_base,
        max_trace_size,
        clk_bump,
        has_host_call_relocations,
    }
}

impl JitFunction {
    /// A function that was never run, of the given code.
    pub fn from_bytes(
        code: Vec<u8>,
        jump_table: Vec<usize>,
        memory_size: usize,
        pc_start: u64,
    ) -> (function: JitFunction)
        ensures
            function@ == unstarted(code@, jump_table@, memory_size, pc_start),
    {
        let registers: [u64; 32] = [0u64; 32];
        assert(registers@ =~= Seq::new(32, |i: int| 0u64));
        JitFunction {
            jump_table,
            code,
            memory_size,
            pc: pc_start,
            pc_start,
            clk: 1,
            global_clk: 0,
            registers,
            initial_memory_image: Arc::new(MemoryImage::new()),
            input_buffer: VecDeque::new(),
            hints: Vec::new(),
            public_values_stream: Vec::new(),
            exit_code: 0,
        }
    }

    /// Whether the jump table stands for addresses when the code is mapped at `base`.
    pub fn has_addresses_at(&self, base: usize) -> (has: bool)
        ensures
            has == offsets_fit(self@.jump_table, base),
    {
        let mut i: usize = 0;
        while i < self.jump_table.len()
            invariant
                i <= self.jump_table@.len(),
                forall|k: int| 0 <= k < i ==> base + #[trigger] self.jump_table@[k] <= usize::MAX,
            decreases self.jump_table@.len() - i,
        {
            if self.jump_table[i] > usize::MAX - base {
                assert(base + self.jump_table@[i as int] > usize::MAX);
                return false;
            }
            i = i + 1;
        }
        true
    }

    /// The addresses that the jump table stands for when the code is mapped at `base`.
    pub fn jump_addresses(&self, base: usize) -> (addresses: Vec<usize>)
        requires
            offsets_fit(self@.jump_table, base),
        ensures
            addresses@ == addresses_at(self@.jump_table, base),
    {
        let mut addresses: Vec<usize> = Vec::new();
        let mut i: usize = 0;
        while i < self.jump_table.len()
            invariant
                i <= self.jump_table@.len(),
                offsets_fit(self.jump_table@, base),
                addresses@.len() == i,
                forall|k: int| 0 <= k < i ==> #[trigger] addresses@[k] == base + self.jump_table@[k],
            decreases self.jump_table@.len() - i,
        {
            let offset: usize = self.jump_table[i];
            assert(base + self.jump_table@[i as int] <= usize::MAX);
            addresses.push(base + offset);
            i = i + 1;
        }
        assert(addresses@ =~= addresses_at(self@.jump_table, base));
        addresses
    }

    /// The artifact that captures this function, with what the compiler knows besides.
    pub fn to_artifact(
        &self,
        instr_map: Vec<InstrMapEntry>,
        pc_base: u64,
        max_trace_size: u64,
        clk_bump: u64,
        has_host_call_relocations: bool,
    ) -> (artifact: JitArtifact)
        ensures
            artifact@ == artifact_of(
                self@,
                instr_map@,
                pc_base,
                max_trace_size,
                clk_bump,
                has_host_call_relocations,
            ),
    {
        let mut jump_table_offsets: Vec<u32> = Vec::new();
        let mut i: usize = 0;
        while i < self.jump_table.len()
            invariant
                i <= self.jump_table@.len(),
                jump_table_offsets@.len() == i,
                forall|k: int|
                    0 <= k < i ==> #[trigger] jump_table_offsets@[k] == self.jump_table@[k] as u32,
            decreases self.jump_table@.len() - i,
        {
            jump_table_offsets.push(self.jump_table[i] as u32);
            i = i + 1;
        }
        let mut code: Vec<u8> = Vec::new();
        bytes::push_bytes(&mut code, self.code.as_slice());
        assert(code@ =~= self.code@);
        assert(jump_table_offsets@ =~= self@.jump_table.map_values(
            |offset: usize| offset as u32,
        ));
        JitArtifact {
            format_version: FORMAT_VERSION,
            code,
            jump_table_offsets,
            instr_map,
            memory_size: self.memory_size as u64,
            pc_start: self.pc_start,
            pc_base,
            max_trace_size,
            clk_bump,
            has_host_call_relocations,
        }
    }
}

} // verus!
