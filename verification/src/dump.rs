//! A backend that also hands out the code of each instruction, for inspection with a disassembler.

use crate::bytes;
use crate::cache::InstrMapEntry;
use crate::function::JitFunction;
use crate::text;
use crate::transpiler;
use crate::transpiler::{
    BackendError, BackendModel, EcallHandler, Fragments, Step, TranspilerBackend,
};
use vstd::prelude::*;
use vstd::slice::slice_subrange;

verus! {

/// A file to write.
#[derive(Debug)]
pub struct DumpFile {
    /// Where the file goes.
    pub path: String,
    /// What the file holds.
    pub contents: Vec<u8>,
}

/// A file to write, as the proofs see it.
#[verifier::ext_equal]
pub struct DumpFileModel {
    /// Where the file goes.
    pub path: Seq<char>,
    /// What the file holds.
    pub contents: Seq<u8>,
}

impl View for DumpFile {
    type V = DumpFileModel;

    open spec fn view(&self) -> DumpFileModel {
        DumpFileModel { path: self.path@, contents: self.contents@ }
    }
}

/// A backend that remembers where instructions start and end.
#[derive(Debug)]
pub struct DumpTransipler {
    inner: TranspilerBackend,
    start_offsets: Vec<usize>,
    end_offsets: Vec<usize>,
}

/// A backend that remembers where instructions start and end, as the proofs see it.
#[verifier::ext_equal]
pub struct DumpModel {
    /// The backend.
    pub backend: BackendModel,
    /// The offset at each start of an instruction.
    pub start_offsets: Seq<usize>,
    /// The offset at each end of an instruction.
    pub end_offsets: Seq<usize>,
}

/// The path of the dump of the whole code.
pub open spec fn full_path() -> Seq<char> {
    "/tmp/sp1_minimal_code_full.bin"@
}

/// The path of the dump of an instruction's code.
pub open spec fn instr_path(i: nat) -> Seq<char> {
    "/tmp/sp1_minimal_code_inst"@ + text::decimal(i) + ".bin"@
}

impl DumpModel {
    /// The number of starts that have an end.
    pub open spec fn dumped(self) -> nat {
        if self.start_offsets.len() <= self.end_offsets.len() {
            self.start_offsets.len()
        } else {
            self.end_offsets.len()
        }
    }

    /// Whether no instruction ended that was not started.
    pub open spec fn is_paired(self) -> bool {
        self.end_offsets.len() + (if self.backend.instruction_started {
            1int
        } else {
            0int
        }) == self.start_offsets.len()
    }

    /// Whether every start that has an end lies at or before that end.
    pub open spec fn has_ranges(self) -> bool {
        forall|i: int|
            0 <= i < self.dumped() ==> #[trigger] self.start_offsets[i] <= self.end_offsets[i]
    }

    /// What holds of every such backend: the starts are those of the jump table, and the ends lie
    /// in the code; and where no instruction ended that was not started, the ends are those of
    /// the instruction map.
    pub open spec fn wf(self) -> bool {
        &&& self.backend.wf()
        &&& self.start_offsets == self.backend.jump_table
        &&& forall|i: int|
            0 <= i < self.end_offsets.len() ==> #[trigger] self.end_offsets[i]
                <= self.backend.code.len()
        &&& self.end_offsets.len() + (if self.backend.instruction_started {
            1int
        } else {
            0int
        }) >= self.start_offsets.len()
        &&& self.is_paired() ==> self.has_ranges()
        &&& self.is_paired() ==> forall|i: int|
            0 <= i < self.end_offsets.len() ==> (#[trigger] self.backend.instr_map[i]).end_offset
                == self.end_offsets[i] as u32
    }

    /// After an instruction was started.
    pub open spec fn started(self) -> DumpModel {
        DumpModel {
            backend: self.backend.started(),
            start_offsets: self.start_offsets.push(self.backend.code.len() as usize),
            end_offsets: self.end_offsets,
        }
    }

    /// After an instruction was ended.
    pub open spec fn ended(self) -> DumpModel {
        DumpModel {
            backend: self.backend.ended(),
            start_offsets: self.start_offsets,
            end_offsets: self.end_offsets.push(self.backend.ended().code.len() as usize),
        }
    }

    /// The dump of the i-th instruction.
    pub open spec fn instr_file(self, i: int) -> DumpFileModel {
        DumpFileModel {
            path: instr_path(i as nat),
            contents: self.backend.finalized().code.subrange(
                self.start_offsets[i] as int,
                self.end_offsets[i] as int,
            ),
        }
    }

    /// All dumps: that of the whole code, then one for each instruction that was ended.
    pub open spec fn files(self) -> Seq<DumpFileModel> {
        seq![DumpFileModel { path: full_path(), contents: self.backend.finalized().code }]
            + Seq::new(self.dumped(), |i: int| self.instr_file(i))
    }
}

/// The dumps of two instructions go to different files, and to another than that of the whole
/// code.
pub proof fn law_instr_paths_differ(i: nat, j: nat)
    requires
        i != j,
    ensures
        instr_path(i) != instr_path(j),
        instr_path(i) != full_path(),
{
    let stem: Seq<char> = "/tmp/sp1_minimal_code_inst"@;
    let tail: Seq<char> = ".bin"@;
    if instr_path(i) == instr_path(j) {
        assert(instr_path(i).subrange(stem.len() as int, instr_path(i).len() - tail.len())
            =~= text::decimal(i));
        assert(instr_path(j).subrange(stem.len() as int, instr_path(j).len() - tail.len())
            =~= text::decimal(j));
        text::law_decimal_injective(i, j);
    }
    reveal_strlit("/tmp/sp1_minimal_code_inst");
    reveal_strlit("/tmp/sp1_minimal_code_full.bin");
    assert(instr_path(i)[22] == 'i');
    assert(full_path()[22] == 'f');
}

/// The dump of an instruction goes to `/tmp/sp1_minimal_code_inst`, digits that are read back as its
/// number, and `.bin`.
pub proof fn law_instr_path_holds_its_number(i: nat)
    ensures
        ({
            let path: Seq<char> = instr_path(i);
            let stem: Seq<char> = "/tmp/sp1_minimal_code_inst"@;
            &&& path.len() > 30
            &&& path.take(26) == stem
            &&& path.skip(path.len() - 4) == seq!['.', 'b', 'i', 'n']
            &&& text::read_decimal(path.subrange(26, path.len() - 4)) == Some(i)
            &&& path[26] == '0' <==> i == 0
        }),
{
    let path: Seq<char> = instr_path(i);
    reveal_strlit("/tmp/sp1_minimal_code_inst");
    reveal_strlit(".bin");
    text::law_decimal_reads_back(i);
    assert(path.take(26) =~= "/tmp/sp1_minimal_code_inst"@);
    assert(path.skip(path.len() - 4) =~= seq!['.', 'b', 'i', 'n']);
    assert(path.subrange(26, path.len() - 4) =~= text::decimal(i));
    assert(path[26] == text::decimal(i)[0]);
}

/// The dumps are the whole finished code, epilogue and all, and then for each start that has an end
/// the bytes from that start to that end.
pub proof fn law_dumps_cut_the_code(dump: DumpModel, i: int)
    requires
        dump.wf(),
        dump.has_ranges(),
        0 <= i < dump.start_offsets.len(),
        i < dump.end_offsets.len(),
    ensures
        ({
            let files: Seq<DumpFileModel> = dump.files();
            let (start, end): (int, int) = (
                dump.start_offsets[i] as int,
                dump.end_offsets[i] as int,
            );
            let count: int = files.len() - 1;
            &&& count == dump.start_offsets.len() || count == dump.end_offsets.len()
            &&& count <= dump.start_offsets.len() && count <= dump.end_offsets.len()
            &&& files[0].path == "/tmp/sp1_minimal_code_full.bin"@
            &&& files[0].contents == dump.backend.code + dump.backend.fragments.epilogue
            &&& files[i + 1].path == instr_path(i as nat)
            &&& files[i + 1].contents.len() == end - start
            &&& forall|k: int|
                0 <= k < end - start ==> #[trigger] files[i + 1].contents[k] == dump.backend.code[start
                    + k]
        }),
{
    assert(dump.files()[i + 1] == dump.instr_file(i));
    assert(dump.start_offsets[i] <= dump.end_offsets[i]);
    assert(dump.end_offsets[i] <= dump.backend.code.len());
}

/// Starting an instruction remembers where the code ends, ending one remembers where it then ends,
/// and both do to the backend what they do to any backend.
pub proof fn law_dump_remembers_offsets(dump: DumpModel)
    requires
        dump.backend.code.len() <= usize::MAX,
        dump.backend.stepped(Step::End).code.len() <= usize::MAX,
    ensures
        dump.started().backend == dump.backend.stepped(Step::Start),
        dump.started().start_offsets.len() == dump.start_offsets.len() + 1,
        dump.started().start_offsets.drop_last() == dump.start_offsets,
        dump.started().start_offsets.last() == dump.backend.code.len(),
        dump.started().end_offsets == dump.end_offsets,
        dump.ended().backend == dump.backend.stepped(Step::End),
        dump.ended().start_offsets == dump.start_offsets,
        dump.ended().end_offsets.len() == dump.end_offsets.len() + 1,
        dump.ended().end_offsets.drop_last() == dump.end_offsets,
        dump.ended().end_offsets.last() == dump.backend.stepped(Step::End).code.len(),
{
    assert(dump.started().start_offsets.drop_last() =~= dump.start_offsets);
    assert(dump.ended().end_offsets.drop_last() =~= dump.end_offsets);
}

/// The dumps can be cut if and only if no start lies behind the end of the same number.
pub proof fn law_ranges_exactly(dump: DumpModel)
    ensures
        dump.has_ranges() <==> !exists|i: int|
            0 <= i < dump.start_offsets.len() && i < dump.end_offsets.len()
                && #[trigger] dump.start_offsets[i] > dump.end_offsets[i],
{
}

/// The view of a file shows its path and its contents as they are.
pub proof fn law_dump_file_view(file: DumpFile)
    ensures
        file@.path == file.path@,
        file@.contents == file.contents@,
{
}

/// Where instructions are ended only when started, each dump holds the byte range that the
/// instruction map gives. This holds of code that 32-bit offsets can point into.
pub proof fn law_dump_matches_instr_map(dump: DumpModel, i: int)
    requires
        dump.wf(),
        dump.is_paired(),
        dump.backend.code.len() <= u32::MAX,
        0 <= i < dump.end_offsets.len(),
    ensures
        ({
            let entry: InstrMapEntry = dump.backend.instr_map[i];
            dump.files()[i + 1] == DumpFileModel {
                path: instr_path(i as nat),
                contents: dump.backend.code.subrange(
                    entry.start_offset as int,
                    entry.end_offset as int,
                ),
            }
        }),
{
    let entry: InstrMapEntry = dump.backend.instr_map[i];
    assert(dump.backend.describes(i, entry));
    assert(dump.end_offsets[i] <= dump.backend.code.len());
    assert(dump.files()[i + 1] == dump.instr_file(i));
    assert(dump.instr_file(i).contents =~= dump.backend.code.subrange(
        entry.start_offset as int,
        entry.end_offset as int,
    ));
}

impl DumpTransipler {
    /// The backend and the offsets, as the proofs see them.
    pub closed spec fn view(&self) -> DumpModel {
        DumpModel {
            backend: self.inner@,
            start_offsets: self.start_offsets@,
            end_offsets: self.end_offsets@,
        }
    }

    /// Whether the code so far is complete in itself.
    pub closed spec fn is_self_contained(&self) -> bool {
        self.inner.is_self_contained()
    }

    /// What holds of every such backend.
    pub open spec fn inv(&self) -> bool {
        self.is_self_contained() && self@.wf()
    }

    /// A backend for a program, with no instruction yet.
    pub fn new(
        program_size: usize,
        memory_size: usize,
        max_trace_size: u64,
        pc_start: u64,
        pc_base: u64,
        clk_bump: u64,
        fragments: Fragments,
    ) -> (dump: Result<DumpTransipler, BackendError>)
        requires
            24 * program_size <= isize::MAX,
        ensures
            dump is Err <==> pc_start < pc_base,
            dump is Err ==> dump->Err_0 is PcStartBelowBase,
            dump matches Ok(made) ==> made.inv() && made@ == (DumpModel {
                backend: transpiler::new_backend(
                    memory_size,
                    max_trace_size,
                    pc_start,
                    pc_base,
                    clk_bump,
                    fragments@,
                ),
                start_offsets: Seq::empty(),
                end_offsets: Seq::empty(),
            }),
    {
        match TranspilerBackend::new(
            program_size,
            memory_size,
            max_trace_size,
            pc_start,
            pc_base,
            clk_bump,
            fragments,
        ) {
            Ok(inner) => Ok(
                DumpTransipler { inner, start_offsets: Vec::new(), end_offsets: Vec::new() },
            ),
            Err(error) => Err(error),
        }
    }

    /// Starts an instruction at the end of the code, and remembers the offset.
    pub fn start_instr(&mut self)
        requires
            old(self).inv(),
            !old(self)@.backend.instruction_started,
            old(self)@.backend.pc_base + 4 * (old(self)@.backend.jump_table.len() as u32)
                <= u64::MAX,
        ensures
            final(self).inv(),
            final(self)@ == old(self)@.started(),
    {
        let offset: usize = self.inner.offset();
        self.start_offsets.push(offset);
        self.inner.start_instr();
        assert(self@ =~= old(self)@.started());
    }

    /// Ends the current instruction, and remembers the offset.
    pub fn end_instr(&mut self)
        requires
            old(self).inv(),
        ensures
            final(self).inv(),
            final(self)@ == old(self)@.ended(),
    {
        self.inner.end_instr();
        let offset: usize = self.inner.offset();
        self.end_offsets.push(offset);
        assert(self@ =~= old(self)@.ended());
    }

    /// Sets the function that handles `ecall`.
    pub fn register_ecall_handler(&mut self, handler: EcallHandler)
        requires
            old(self).inv(),
        ensures
            final(self).inv(),
            final(self)@ == (DumpModel {
                backend: old(self)@.backend.stepped(Step::RegisterEcallHandler(handler)),
                ..old(self)@
            }),
    {
        self.inner.register_ecall_handler(handler);
        assert(self@.backend.instr_map == old(self)@.backend.instr_map);
    }

    /// Appends machine code.
    pub fn emit(&mut self, code: &[u8])
        requires
            old(self).inv(),
        ensures
            final(self).inv(),
            final(self)@ == (DumpModel {
                backend: old(self)@.backend.stepped(Step::Emit(code@)),
                ..old(self)@
            }),
    {
        self.inner.emit(code);
        assert(self@.backend.instr_map == old(self)@.backend.instr_map);
    }

    /// Tells the backend that the current instruction sets the PC itself.
    pub fn mark_control_flow(&mut self)
        requires
            old(self).inv(),
        ensures
            final(self).inv(),
            final(self)@ == (DumpModel {
                backend: old(self)@.backend.stepped(Step::MarkControlFlow),
                ..old(self)@
            }),
    {
        self.inner.mark_control_flow();
        assert(self@.backend.instr_map == old(self)@.backend.instr_map);
    }

    /// Tells the backend that the function may be left after the current instruction.
    pub fn mark_may_early_exit(&mut self)
        requires
            old(self).inv(),
        ensures
            final(self).inv(),
            final(self)@ == (DumpModel {
                backend: old(self)@.backend.stepped(Step::MarkMayEarlyExit),
                ..old(self)@
            }),
    {
        self.inner.mark_may_early_exit();
        assert(self@.backend.instr_map == old(self)@.backend.instr_map);
    }

    /// Appends a call of a host function that takes the context.
    pub fn call_extern_fn(&mut self, load: &[u8], call: &[u8])
        requires
            old(self).inv(),
        ensures
            final(self).inv(),
            final(self)@ == (DumpModel {
                backend: old(self)@.backend.stepped(Step::CallHost(load@, call@)),
                ..old(self)@
            }),
    {
        self.inner.call_extern_fn(load, call);
        assert(self@.backend.instr_map == old(self)@.backend.instr_map);
    }

    /// Appends a call of a host function that takes the value of a register.
    pub fn inspect_register(&mut self, load: &[u8], call: &[u8])
        requires
            old(self).inv(),
        ensures
            final(self).inv(),
            final(self)@ == (DumpModel {
                backend: old(self)@.backend.stepped(Step::CallHost(load@, call@)),
                ..old(self)@
            }),
    {
        self.inner.inspect_register(load, call);
        assert(self@.backend.instr_map == old(self)@.backend.instr_map);
    }

    /// Appends a call of a host function that takes a number.
    pub fn inspect_immediate(&mut self, imm: u64, call: &[u8])
        requires
            old(self).inv(),
        ensures
            final(self).inv(),
            final(self)@ == (DumpModel {
                backend: old(self)@.backend.stepped(
                    Step::CallHost(transpiler::load_immediate(imm), call@),
                ),
                ..old(self)@
            }),
    {
        self.inner.inspect_immediate(imm, call);
        assert(self@.backend.instr_map == old(self)@.backend.instr_map);
    }

    /// Whether an instruction can be started: none is under way, and there is a PC for it.
    pub fn can_start_instr(&self) -> (can: bool)
        ensures
            can == (!self@.backend.instruction_started && self@.backend.pc_base + 4 * (
            self@.backend.jump_table.len() as u32) <= u64::MAX),
    {
        self.inner.can_start_instr()
    }

    /// Whether an instruction was started and not ended.
    pub fn is_instruction_started(&self) -> (started: bool)
        ensures
            started == self@.backend.instruction_started,
    {
        self.inner.is_instruction_started()
    }

    /// Whether the finished code will not be empty.
    pub fn has_code(&self) -> (has: bool)
        ensures
            has == (self@.backend.finalized().code.len() > 0),
            has == (self@.backend.code.len() + self@.backend.fragments.epilogue.len() > 0),
    {
        self.inner.has_code()
    }

    /// Whether every start that has an end lies at or before that end.
    pub fn has_ranges(&self) -> (has: bool)
        ensures
            has == self@.has_ranges(),
    {
        let mut i: usize = 0;
        while i < self.start_offsets.len() && i < self.end_offsets.len()
            invariant
                i <= self@.dumped(),
                forall|k: int|
                    0 <= k < i ==> #[trigger] self@.start_offsets[k] <= self@.end_offsets[k],
            decreases self@.dumped() - i,
        {
            if self.start_offsets[i] > self.end_offsets[i] {
                assert(self@.start_offsets[i as int] > self@.end_offsets[i as int]);
                return false;
            }
            i = i + 1;
        }
        true
    }

    /// The function that the finished code makes, and the files to write: the whole code, and
    /// the code of each instruction.
    pub fn finalize(self) -> (finished: (JitFunction, Vec<DumpFile>))
        requires
            self.inv(),
            self@.backend.code.len() + self@.backend.fragments.epilogue.len() > 0,
            self@.has_ranges(),
        ensures
            finished.0@ == self@.backend.finalized(),
            finished.1@.map_values(|file: DumpFile| file@) == self@.files(),
    {
        let ghost dump: DumpModel = self@;
        let starts: Vec<usize> = self.start_offsets;
        let ends: Vec<usize> = self.end_offsets;
        let function: JitFunction = self.inner.finalize();

        let mut files: Vec<DumpFile> = Vec::new();
        let mut whole: Vec<u8> = Vec::new();
        bytes::push_bytes(&mut whole, function.code.as_slice());
        assert(whole@ =~= function.code@);
        files.push(
            DumpFile { path: String::from_str("/tmp/sp1_minimal_code_full.bin"), contents: whole },
        );

        let mut i: usize = 0;
        while i < starts.len() && i < ends.len()
            invariant
                dump.wf(),
                dump.has_ranges(),
                starts@ == dump.start_offsets,
                ends@ == dump.end_offsets,
                function.code@ == dump.backend.finalized().code,
                i <= dump.dumped(),
                files@.len() == i + 1,
                files@[0]@ == dump.files()[0],
                forall|k: int| 0 <= k < i ==> (#[trigger] files@[k + 1])@ == dump.instr_file(k),
            decreases dump.dumped() - i,
        {
            let start: usize = starts[i];
            let end: usize = ends[i];
            assert(dump.start_offsets[i as int] <= dump.end_offsets[i as int]);
            assert(dump.end_offsets[i as int] <= dump.backend.code.len());
            let mut path: String = String::from_str("/tmp/sp1_minimal_code_inst");
            text::append_decimal(&mut path, i as u64);
            path.append(".bin");
            let mut contents: Vec<u8> = Vec::new();
            bytes::push_bytes(
                &mut contents,
                slice_subrange(function.code.as_slice(), start, end),
            );
            assert(contents@ =~= dump.instr_file(i as int).contents);
            files.push(DumpFile { path, contents });
            i = i + 1;
        }
        proof {
            let seen: Seq<DumpFileModel> = files@.map_values(|file: DumpFile| file@);
            assert forall|k: int| 0 <= k < seen.len() implies seen[k] == dump.files()[k] by {
                if k > 0 {
                    assert(files@[(k - 1) + 1]@ == dump.instr_file(k - 1));
                }
            }
            assert(seen =~= dump.files());
        }
        (function, files)
    }
}

} // verus!
