//! The buffer that machine code is assembled into, kept by the `dynasmrt` crate.

use crate::bytes;
use vstd::prelude::*;

verus! {

/// An x86-64 assembler: the code that was assembled so far.
#[verifier::external_body]
#[derive(Debug)]
pub struct Assembler {
    inner: dynasmrt::VecAssembler<dynasmrt::x64::X64Relocation>,
}

/// Why assembled code could not be completed.
#[verifier::external_type_specification]
#[verifier::external_body]
pub struct ExDynasmError(dynasmrt::DynasmError);

/// The code that was assembled so far.
pub uninterp spec fn assembled(assembler: Assembler) -> Seq<u8>;

/// Whether the code refers to no label and defines none.
pub uninterp spec fn is_label_free(assembler: Assembler) -> bool;

impl Assembler {
    /// Calls `dynasmrt::VecAssembler::new`: nothing is assembled yet, and no label is referred
    /// to. The base address matters only to code that refers to labels.
    #[verifier::external_body]
    pub(crate) fn new(baseaddr: usize) -> (assembler: Self)
        ensures
            assembled(assembler) == Seq::<u8>::empty(),
            is_label_free(assembler),
    {
        Assembler { inner: dynasmrt::VecAssembler::new(baseaddr) }
    }

    /// Calls `dynasmrt::DynasmApi::offset`: the number of bytes that were assembled so far.
    #[verifier::external_body]
    pub(crate) fn offset(&self) -> (offset: usize)
        ensures
            offset == assembled(*self).len(),
    {
        dynasmrt::DynasmApi::offset(&self.inner).0
    }

    /// Calls `Extend::extend` of `dynasmrt::VecAssembler`: the bytes are appended, and refer to no
    /// label. The code is held in a `Vec`, so its length fits in `usize`.
    #[verifier::external_body]
    pub(crate) fn extend(&mut self, code: &[u8])
        ensures
            assembled(*final(self)) == assembled(*old(self)) + code@,
            assembled(*final(self)).len() <= usize::MAX,
            is_label_free(*final(self)) == is_label_free(*old(self)),
    {
        self.inner.extend(code);
    }

    /// Calls `dynasmrt::DynasmApi::push_i32`: the four bytes of the number are appended, least
    /// significant first. The code is held in a `Vec`, so its length fits in `usize`.
    #[verifier::external_body]
    pub(crate) fn push_i32(&mut self, value: i32)
        ensures
            assembled(*final(self)) == assembled(*old(self)) + bytes::le_bytes(
                (value as u32) as nat,
                4,
            ),
            assembled(*final(self)).len() <= usize::MAX,
            is_label_free(*final(self)) == is_label_free(*old(self)),
    {
        dynasmrt::DynasmApi::push_i32(&mut self.inner, value);
    }

    /// Calls `dynasmrt::VecAssembler::finalize`: where the code refers to no label, it comes out
    /// as it was assembled.
    #[verifier::external_body]
    pub(crate) fn finalize(self) -> (code: Result<Vec<u8>, dynasmrt::DynasmError>)
        ensures
            is_label_free(self) ==> code is Ok && code->Ok_0@ == assembled(self),
    {
        self.inner.finalize()
    }
}

} // verus!
