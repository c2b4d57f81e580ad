//! What the VTune JIT profiling API is told of compiled functions.

use crate::bytes;
use vstd::prelude::*;

verus! {

/// The status of the profiling API when VTune is attached and sampling.
pub const SAMPLING_ON: u32 = 1;

/// The event that tells of a newly compiled function.
pub const METHOD_LOAD_FINISHED: u32 = 13;

/// The event that tells that a function is going away.
pub const METHOD_UNLOAD_START: u32 = 14;

/// A newly compiled function. There is no line table, and the names of class and source file are
/// not known.
#[derive(Debug)]
pub struct MethodLoad {
    /// The number of the function.
    pub method_id: u32,
    /// The name of the function, with a terminating 0 and no other.
    pub method_name: Vec<u8>,
    /// The address that the code starts at.
    pub method_load_address: u64,
    /// The length of the code.
    pub method_size: u32,
    /// The number of lines in the line table.
    pub line_number_size: u32,
    /// The number of the class.
    pub class_id: u32,
}

/// A newly compiled function, as the proofs see it.
#[verifier::ext_equal]
pub struct MethodModel {
    /// The number of the function.
    pub method_id: u32,
    /// The name of the function, with a terminating 0.
    pub method_name: Seq<u8>,
    /// The address that the code starts at.
    pub method_load_address: u64,
    /// The length of the code.
    pub method_size: u32,
    /// The number of lines in the line table.
    pub line_number_size: u32,
    /// The number of the class.
    pub class_id: u32,
}

impl View for MethodLoad {
    type V = MethodModel;

    open spec fn view(&self) -> MethodModel {
        MethodModel {
            method_id: self.method_id,
            method_name: self.method_name@,
            method_load_address: self.method_load_address,
            method_size: self.method_size,
            line_number_size: self.line_number_size,
            class_id: self.class_id,
        }
    }
}

/// What the profiling API is told of a function.
pub open spec fn method_of(
    method_id: u32,
    name: Seq<u8>,
    start_address: u64,
    size: usize,
) -> MethodModel {
    MethodModel {
        method_id,
        method_name: told_name(name),
        method_load_address: start_address,
        method_size: size as u32,
        line_number_size: 0,
        class_id: 0,
    }
}

/// Whether a status of the profiling API is that of an attached and sampling VTune.
pub open spec fn is_sampling(status: u32) -> bool {
    status == SAMPLING_ON
}

/// There is a profiler for the status 1 alone.
pub proof fn law_sampling_status(status: u32)
    ensures
        is_sampling(status) <==> status == 1,
{
}

/// A function is told under its own number, at its whole 64-bit address, with the low 32 bits of
/// its length, and without lines or a class.
pub proof fn law_method_is_told(method_id: u32, name: Seq<u8>, start_address: u64, size: usize)
    ensures
        ({
            let method: MethodModel = method_of(method_id, name, start_address, size);
            &&& method.method_id == method_id
            &&& method.method_load_address == start_address
            &&& method.method_size as int == size as int % 0x1_0000_0000
            &&& method.line_number_size == 0
            &&& method.class_id == 0
            &&& (forall|i: int| 0 <= i < name.len() ==> name[i] != 0)
                ==> method.method_name.drop_last() == name
        }),
{
    bytes::lemma_low_32(size as u64);
    law_told_name_is_the_name(name);
}

/// The view of a function shows every field as it is.
pub proof fn law_method_view(load: MethodLoad)
    ensures
        load@.method_id == load.method_id,
        load@.method_name == load.method_name@,
        load@.method_load_address == load.method_load_address,
        load@.method_size == load.method_size,
        load@.line_number_size == load.line_number_size,
        load@.class_id == load.class_id,
{
}

/// What the profiling API is told.
#[derive(Debug)]
pub enum Event {
    /// A function was compiled.
    Load(MethodLoad),
    /// The function of the given number is going away.
    Unload(u32),
}

impl Event {
    /// The number of the event.
    pub open spec fn number(self) -> u32 {
        match self {
            Event::Load(_) => METHOD_LOAD_FINISHED,
            Event::Unload(_) => METHOD_UNLOAD_START,
        }
    }

    /// The number of the event.
    pub fn event_type(&self) -> (number: u32)
        ensures
            number == self.number(),
    {
        match self {
            Event::Load(_) => METHOD_LOAD_FINISHED,
            Event::Unload(_) => METHOD_UNLOAD_START,
        }
    }
}

/// `unknown_jit_func`
pub open spec fn unknown_name() -> Seq<u8> {
    seq![
        117u8, 110u8, 107u8, 110u8, 111u8, 119u8, 110u8, 95u8,
        106u8, 105u8, 116u8, 95u8, 102u8, 117u8, 110u8, 99u8,
    ]
}

/// The name that a function goes by, with a terminating 0: a name that holds a 0 itself cannot be
/// told, and the function is unknown.
pub open spec fn told_name(name: Seq<u8>) -> Seq<u8> {
    (if name.contains(0u8) {
        unknown_name()
    } else {
        name
    }) + seq![0u8]
}

/// The only 0 in a name that is told is the one that ends it.
pub proof fn law_told_name_ends_at_zero(name: Seq<u8>, i: int)
    requires
        0 <= i < told_name(name).len(),
    ensures
        told_name(name)[i] == 0 <==> i == told_name(name).len() - 1,
{
    if i < told_name(name).len() - 1 && !name.contains(0u8) {
        assert(told_name(name)[i] == name[i]);
    }
}

/// A name without a 0 is told whole, whatever its length: what stands before the terminating 0 is
/// the name. A name with a 0 is told as `unknown_jit_func`.
pub proof fn law_told_name_is_the_name(name: Seq<u8>)
    ensures
        told_name(name).last() == 0,
        (forall|i: int| 0 <= i < name.len() ==> name[i] != 0) ==> told_name(name).drop_last()
            == name,
        (exists|i: int| 0 <= i < name.len() && name[i] == 0) ==> told_name(name).drop_last()
            == seq![
            'u' as u8,
            'n' as u8,
            'k' as u8,
            'n' as u8,
            'o' as u8,
            'w' as u8,
            'n' as u8,
            '_' as u8,
            'j' as u8,
            'i' as u8,
            't' as u8,
            '_' as u8,
            'f' as u8,
            'u' as u8,
            'n' as u8,
            'c' as u8,
        ],
{
    if name.contains(0u8) {
        assert(told_name(name).drop_last() =~= seq![
            'u' as u8,
            'n' as u8,
            'k' as u8,
            'n' as u8,
            'o' as u8,
            'w' as u8,
            'n' as u8,
            '_' as u8,
            'j' as u8,
            'i' as u8,
            't' as u8,
            '_' as u8,
            'f' as u8,
            'u' as u8,
            'n' as u8,
            'c' as u8,
        ]);
        assert(exists|i: int| 0 <= i < name.len() && name[i] == 0);
    } else {
        assert(told_name(name).drop_last() =~= name);
        assert forall|i: int| 0 <= i < name.len() implies name[i] != 0 by {
            if name[i] == 0 {
                assert(name.contains(name[i]));
            }
        }
    }
}

/// Different names without a 0 are told as different names.
pub proof fn law_told_names_differ(a: Seq<u8>, b: Seq<u8>)
    requires
        a != b,
        forall|i: int| 0 <= i < a.len() ==> a[i] != 0,
        forall|i: int| 0 <= i < b.len() ==> b[i] != 0,
    ensures
        told_name(a) != told_name(b),
{
    law_told_name_is_the_name(a);
    law_told_name_is_the_name(b);
}

/// A registration holds if and only if the profiling API answers 1, and under the number that was
/// asked for.
pub proof fn law_registration_needs_consent(method_id: u32, answer: i32)
    ensures
        registration_of(method_id, answer) is Some <==> answer == 1,
        registration_of(method_id, answer) is Some ==> registration_of(method_id, answer)->Some_0
            == method_id,
{
}

/// Loading and unloading are told as the events that the profiling API knows them by.
pub proof fn law_event_numbers(event: Event)
    ensures
        event is Load <==> event.number() == 13,
        event is Unload <==> event.number() == 14,
{
}

/// What became of a registration, by the answer of the profiling API.
pub open spec fn registration_of(method_id: u32, answer: i32) -> Option<u32> {
    if answer == 1 {
        Some(method_id)
    } else {
        None
    }
}

/// The interface to the profiler. The existence of this value guarantees that profiling is active.
#[derive(Debug)]
pub struct VtuneJitProfiler {
    active: (),
}

impl VtuneJitProfiler {
    /// Attempts to initialize the profiler, by the status of the profiling API: there is one if
    /// and only if VTune is attached and sampling.
    pub fn new(status: u32) -> (profiler: Option<VtuneJitProfiler>)
        ensures
            profiler is Some <==> is_sampling(status),
    {
        if status == SAMPLING_ON {
            Some(VtuneJitProfiler { active: () })
        } else {
            None
        }
    }

    /// Registers a newly compiled function, under a number that the profiling API gave: the event
    /// to notify it of.
    pub fn register_function(
        &self,
        method_id: u32,
        name: &str,
        start_address: u64,
        size: usize,
    ) -> (event: Event)
        ensures
            event is Load,
            event.number() == METHOD_LOAD_FINISHED,
            event->Load_0@ == method_of(
                method_id,
                vstd::utf8::encode_utf8(name@),
                start_address,
                size,
            ),
            event->Load_0.method_id == method_id,
            event->Load_0.method_name@ == told_name(vstd::utf8::encode_utf8(name@)),
            event->Load_0.method_load_address == start_address,
            event->Load_0.method_size as int == size as int % 0x1_0000_0000,
            event->Load_0.line_number_size == 0,
            event->Load_0.class_id == 0,
    {
        proof {
            bytes::lemma_low_32(size as u64);
        }
        Event::Load(
            MethodLoad {
                method_id,
                method_name: method_name(name.as_bytes()),
                method_load_address: start_address,
                method_size: size as u32,
                line_number_size: 0,
                class_id: 0,
            },
        )
    }

    /// What became of a registration, by the answer of the profiling API: the number of the
    /// function if it was accepted.
    pub fn registration(&self, method_id: u32, answer: i32) -> (registered: Option<u32>)
        ensures
            registered == registration_of(method_id, answer),
            registered is Some <==> answer == 1,
    {
        if answer == 1 {
            Some(method_id)
        } else {
            None
        }
    }

    /// Unregisters a compiled function: the event to notify the profiling API of.
    pub fn unregister_function(&self, method_id: u32) -> (event: Event)
        ensures
            event == Event::Unload(method_id),
            event.number() == METHOD_UNLOAD_START,
    {
        Event::Unload(method_id)
    }
}

/// The name that a function goes by.
fn method_name(name: &[u8]) -> (told: Vec<u8>)
    ensures
        told@ == told_name(name@),
{
    let mut told: Vec<u8> = Vec::new();
    if has_zero(name) {
        let unknown: [u8; 16] = [
            117, 110, 107, 110, 111, 119, 110, 95, 106, 105, 116, 95, 102, 117, 110, 99,
        ];
        bytes::push_bytes(&mut told, unknown.as_slice());
        assert(told@ =~= unknown_name());
    } else {
        bytes::push_bytes(&mut told, name);
    }
    told.push(0);
    assert(told@ =~= told_name(name@));
    told
}

/// Whether a 0 occurs in `name`.
fn has_zero(name: &[u8]) -> (has: bool)
    ensures
        has == name@.contains(0u8),
{
    let mut i: usize = 0;
    while i < name.len()
        invariant
            i <= name@.len(),
            forall|k: int| 0 <= k < i ==> name@[k] != 0,
        decreases name@.len() - i,
    {
        if name[i] == 0 {
            assert(name@[i as int] == 0u8);
            return true;
        }
        i = i + 1;
    }
    false
}

} // verus!
