//! What a runner process is given, what it hands back, and when it is done.

use std::collections::VecDeque;
use std::sync::Arc;
use std::time::Duration;
use vstd::prelude::*;

verus! {

/// What a runner process is given: a program of type `P`, and how to run it.
#[derive(Debug, Clone)]
pub struct Input<P> {
    /// The program.
    pub program: Arc<P>,
    /// Whether to run in debug mode.
    pub is_debug: bool,
    /// The maximum trace size, if the run is traced.
    pub max_trace_size: Option<u64>,
    /// The input of the program.
    pub input: VecDeque<Vec<u8>>,
    /// The size of a slot of shared memory.
    pub shm_slot_size: usize,
    /// The name of the run.
    pub id: String,
    /// The maximum memory size.
    pub max_memory_size: usize,
    /// The memory limit.
    pub memory_limit: u64,
    /// Whether to print how long things took.
    pub print_perf: bool,
}

/// What a runner process hands back.
#[derive(Debug, Clone)]
pub struct Output {
    /// Public values that the program has written.
    pub public_values_stream: Vec<u8>,
    /// Hints that the program has given, each with the clock it was given at.
    pub hints: Vec<(u64, Vec<u8>)>,
    /// The clock over all chunks of the execution.
    pub global_clk: u64,
    /// The exit code.
    pub exit_code: u32,
    /// How long things took.
    pub perfs: Vec<(String, Duration)>,
}

/// How far a run has come.
#[derive(Debug, Clone)]
pub enum RunState<E> {
    /// There are more chunks to execute.
    Running,
    /// The run is over, with an error if it failed.
    Ended(Option<E>),
}

/// How far a run has come after a chunk: it goes on after a chunk, and is over where there was
/// none or an error.
pub open spec fn state_after<C, E>(chunk: Result<Option<C>, E>) -> RunState<E> {
    match chunk {
        Ok(Some(_)) => RunState::Running,
        Ok(None) => RunState::Ended(None),
        Err(error) => RunState::Ended(Some(error)),
    }
}

/// How far a run has come after some chunks: once over, it stays over.
pub open spec fn run_state<C, E>(chunks: Seq<Result<Option<C>, E>>) -> RunState<E>
    decreases chunks.len(),
{
    if chunks.len() == 0 {
        RunState::Running
    } else {
        match run_state(chunks.drop_last()) {
            RunState::Running => state_after(chunks.last()),
            RunState::Ended(error) => RunState::Ended(error),
        }
    }
}

/// How far a run has come after a chunk.
pub fn after_chunk<C, E>(chunk: Result<Option<C>, E>) -> (state: RunState<E>)
    ensures
        state == state_after(chunk),
{
    match chunk {
        Ok(Some(_)) => RunState::Running,
        Ok(None) => RunState::Ended(None),
        Err(error) => RunState::Ended(Some(error)),
    }
}

/// A run goes on after a chunk if and only if there was a chunk; it is over without an error if and
/// only if there was none, and with an error if and only if there was that error.
pub proof fn law_chunk_decides<C, E>(chunk: Result<Option<C>, E>, error: E)
    ensures
        state_after(chunk) is Running <==> chunk is Ok && chunk->Ok_0 is Some,
        state_after(chunk) == RunState::<E>::Ended(None) <==> chunk is Ok && chunk->Ok_0 is None,
        state_after(chunk) == RunState::Ended(Some(error)) <==> chunk is Err && chunk->Err_0
            == error,
{
}

/// A run goes on as long as every chunk leaves more to execute, and what ends it is the first
/// one that does not.
pub proof fn law_run_ends_at_first<C, E>(chunks: Seq<Result<Option<C>, E>>, k: int)
    requires
        0 <= k <= chunks.len(),
        forall|i: int| 0 <= i < k ==> state_after(#[trigger] chunks[i]) is Running,
        k < chunks.len() ==> state_after(chunks[k]) is Ended,
    ensures
        run_state(chunks) == (if k < chunks.len() {
            state_after(chunks[k])
        } else {
            RunState::<E>::Running
        }),
    decreases chunks.len(),
{
    if chunks.len() > 0 {
        let init: Seq<Result<Option<C>, E>> = chunks.drop_last();
        assert forall|i: int| 0 <= i < k && i < init.len() implies state_after(
            #[trigger] init[i],
        ) is Running by {
            assert(init[i] == chunks[i]);
        }
        if k == chunks.len() {
            law_run_ends_at_first(init, k - 1);
            assert(chunks.last() == chunks[k - 1]);
        } else {
            law_run_ends_at_first(init, k);
        }
    }
}

} // verus!
