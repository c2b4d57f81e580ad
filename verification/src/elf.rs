//! Relocatable ELF objects, built and written by the `object` crate.
//!
//! The object under construction is a value of `object::write::Object`. To the proofs it is
//! the sequence of its sections and the sequence of its symbols.

use vstd::prelude::*;

verus! {

/// What a section holds.
#[derive(Debug, Clone, Copy)]
pub enum SectionKind {
    /// Executable code.
    Text,
    /// Debugging information.
    Debug,
}

/// What a symbol names.
#[derive(Debug, Clone, Copy)]
pub enum SymbolKind {
    /// Executable code.
    Text,
}

/// Who sees a symbol.
#[derive(Debug, Clone, Copy)]
pub enum SymbolScope {
    /// The object alone.
    Compilation,
    /// Every module that the object is linked with.
    Dynamic,
}

/// A section of an object, as the proofs see it.
#[verifier::ext_equal]
pub struct ElfSection {
    /// The name of its segment, empty in ELF.
    pub segment: Seq<u8>,
    /// Its name.
    pub name: Seq<u8>,
    /// What it holds.
    pub kind: SectionKind,
    /// Its alignment in bytes.
    pub align: nat,
    /// Its contents.
    pub data: Seq<u8>,
}

/// A symbol of an object, as the proofs see it.
#[verifier::ext_equal]
pub struct ElfSymbol {
    /// Its name.
    pub name: Seq<u8>,
    /// Its offset in its section.
    pub value: u64,
    /// Its size in bytes.
    pub size: u64,
    /// What it names.
    pub kind: SymbolKind,
    /// Who sees it.
    pub scope: SymbolScope,
    /// Whether it gives way to another definition.
    pub weak: bool,
    /// The position of its section.
    pub section: int,
}

/// An object file under construction.
#[verifier::external_type_specification]
#[verifier::external_body]
pub struct ExObject<'a>(object::write::Object<'a>);

/// A handle to a section of an object.
#[verifier::external_type_specification]
#[verifier::external_body]
pub struct ExSectionId(object::write::SectionId);

/// Why an object could not be written.
#[verifier::external_type_specification]
#[verifier::external_body]
pub struct ExWriteError(object::write::Error);

/// The sections of an object, in the order in which they were added.
pub uninterp spec fn object_sections(object: object::write::Object<'static>) -> Seq<ElfSection>;

/// The symbols of an object, in the order in which they were added.
pub uninterp spec fn object_symbols(object: object::write::Object<'static>) -> Seq<ElfSymbol>;

/// The position of a section among the sections of its object.
pub uninterp spec fn section_position(section: object::write::SectionId) -> int;

/// The file that `object::write::Object::write` makes of a little-endian x86-64 ELF object
/// with the given sections and symbols.
pub uninterp spec fn elf_image(sections: Seq<ElfSection>, symbols: Seq<ElfSymbol>) -> Seq<u8>;

/// `.text`.
pub open spec fn text_name() -> Seq<u8> {
    seq![0x2eu8, 0x74, 0x65, 0x78, 0x74]
}

/// A section that was just added: no contents, byte alignment.
pub open spec fn new_section(segment: Seq<u8>, name: Seq<u8>, kind: SectionKind) -> ElfSection {
    ElfSection { segment, name, kind, align: 1, data: Seq::empty() }
}

/// The zero bytes that bring `len` to a multiple of `align`.
pub open spec fn padding(len: nat, align: nat) -> nat
    recommends
        align > 0,
{
    if len % align == 0 {
        0
    } else {
        (align - len % align) as nat
    }
}

/// A section after `data` was appended to it at a multiple of `align`.
pub open spec fn appended(section: ElfSection, data: Seq<u8>, align: nat) -> ElfSection {
    ElfSection {
        align: if section.align < align {
            align
        } else {
            section.align
        },
        data: section.data + Seq::new(padding(section.data.len(), align), |i: int| 0u8) + data,
        ..section
    }
}

/// Whether a name can be kept in a string table: it holds no zero byte.
pub open spec fn is_table_string(name: Seq<u8>) -> bool {
    forall|i: int| 0 <= i < name.len() ==> name[i] != 0
}

/// Whether the sections and symbols fit in the tables of an ELF file.
pub open spec fn is_writable(sections: Seq<ElfSection>, symbols: Seq<ElfSymbol>) -> bool {
    &&& sections.len() < 0xff00
    &&& symbols.len() < u32::MAX
    &&& forall|i: int| 0 <= i < sections.len() ==> is_table_string(#[trigger] sections[i].name)
    &&& forall|i: int| 0 <= i < symbols.len() ==> is_table_string(#[trigger] symbols[i].name)
    &&& forall|i: int|
        0 <= i < symbols.len() ==> 0 <= (#[trigger] symbols[i]).section < sections.len()
}

/// Calls `object::write::Object::new` for a little-endian x86-64 ELF object: it has no section
/// and no symbol yet.
#[verifier::external_body]
pub(crate) fn new_object() -> (object: object::write::Object<'static>)
    ensures
        object_sections(object) == Seq::<ElfSection>::empty(),
        object_symbols(object) == Seq::<ElfSymbol>::empty(),
{
    object::write::Object::new(
        object::BinaryFormat::Elf,
        object::Architecture::X86_64,
        object::Endianness::Little,
    )
}

/// Calls `object::write::Object::section_id` for the standard code section. Where the object
/// has no section yet, that section is added: it is `.text`, of kind code, and empty.
#[verifier::external_body]
pub(crate) fn add_text_section(object: &mut object::write::Object<'static>) -> (section:
    object::write::SectionId)
    requires
        object_sections(*old(object)).len() == 0,
    ensures
        object_sections(*final(object)) == seq![
            new_section(Seq::empty(), text_name(), SectionKind::Text),
        ],
        object_symbols(*final(object)) == object_symbols(*old(object)),
        section_position(section) == 0,
{
    object.section_id(object::write::StandardSection::Text)
}

/// Calls `object::write::Object::add_section`: a new, empty section comes last.
#[verifier::external_body]
pub(crate) fn add_section(
    object: &mut object::write::Object<'static>,
    segment: Vec<u8>,
    name: Vec<u8>,
    kind: SectionKind,
) -> (section: object::write::SectionId)
    ensures
        object_sections(*final(object)) == object_sections(*old(object)).push(
            new_section(segment@, name@, kind),
        ),
        object_symbols(*final(object)) == object_symbols(*old(object)),
        section_position(section) == object_sections(*old(object)).len(),
{
    let kind = match kind {
        SectionKind::Text => object::SectionKind::Text,
        SectionKind::Debug => object::SectionKind::Debug,
    };
    object.add_section(segment, name, kind)
}

/// Calls `object::write::Object::append_section_data`: the contents are brought to a multiple
/// of `align` with zero bytes, `data` follows, and the offset of `data` is returned. The
/// section is at least as aligned as `align`, which is a power of two.
#[verifier::external_body]
pub(crate) fn append_section_data(
    object: &mut object::write::Object<'static>,
    section: object::write::SectionId,
    data: &[u8],
    align: u64,
) -> (offset: u64)
    requires
        0 <= section_position(section) < object_sections(*old(object)).len(),
        align == 1 || align == 2 || align == 4 || align == 8 || align == 16,
    ensures
        ({
            let before: Seq<ElfSection> = object_sections(*old(object));
            let at: int = section_position(section);
            &&& object_sections(*final(object)) == before.update(
                at,
                appended(before[at], data@, align as nat),
            )
            &&& offset == before[at].data.len() + padding(before[at].data.len(), align as nat)
        }),
        object_symbols(*final(object)) == object_symbols(*old(object)),
{
    object.append_section_data(section, data, align)
}

/// Calls `object::write::Object::add_symbol`: the symbol comes last, under its own name.
#[verifier::external_body]
pub(crate) fn add_symbol(
    object: &mut object::write::Object<'static>,
    name: Vec<u8>,
    value: u64,
    size: u64,
    kind: SymbolKind,
    scope: SymbolScope,
    weak: bool,
    section: object::write::SectionId,
)
    ensures
        object_sections(*final(object)) == object_sections(*old(object)),
        object_symbols(*final(object)) == object_symbols(*old(object)).push(
            (ElfSymbol {
                name: name@,
                value,
                size,
                kind,
                scope,
                weak,
                section: section_position(section),
            }),
        ),
{
    let kind = match kind {
        SymbolKind::Text => object::SymbolKind::Text,
    };
    let scope = match scope {
        SymbolScope::Compilation => object::SymbolScope::Compilation,
        SymbolScope::Dynamic => object::SymbolScope::Dynamic,
    };
    let section = object::write::SymbolSection::Section(section);
    let flags = object::SymbolFlags::None;
    object.add_symbol(
        object::write::Symbol { name, value, size, kind, scope, weak, section, flags },
    );
}

/// Calls `object::write::Object::write`: an object whose sections and symbols fit in the
/// tables of an ELF file is written, and the file depends on those sections and symbols alone.
#[verifier::external_body]
pub(crate) fn write_object(object: &object::write::Object<'static>) -> (file: Result<
    Vec<u8>,
    object::write::Error,
>)
    requires
        is_writable(object_sections(*object), object_symbols(*object)),
    ensures
        file is Ok,
        file->Ok_0@ == elf_image(object_sections(*object), object_symbols(*object)),
{
    object.write()
}

} // verus!
