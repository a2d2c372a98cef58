//! The section loader: the raw bytes of a named section of an object file,
//! with an absent or unreadable section reading as empty.
use vstd::prelude::*;
use object::{Object, ObjectSection};

verus! {

/// The decompressed contents of the section called `name` in the object file
/// `data`, if the file parses and holds such a section with readable data.
pub uninterp spec fn section_contents(data: Seq<u8>, name: Seq<char>) -> Option<Seq<u8>>;

/// Relies on object's `File::parse`, `Object::section_by_name` and
/// `ObjectSection::uncompressed_data`: the section's decompressed bytes, or
/// `None` where one of them fails.
#[verifier::external_body]
fn find_section(data: &[u8], name: &str) -> (r: Option<Vec<u8>>)
    ensures
        match r {
            Some(v) => section_contents(data@, name@) == Some(v@),
            None => section_contents(data@, name@) is None,
        },
{
    let file = object::File::parse(data).ok()?;
    let section = file.section_by_name(name)?;
    section.uncompressed_data().ok().map(|d| d.into_owned())
}

/// The bytes that a section lookup gave, or no bytes where it found none.
pub fn section_or_empty(found: Option<Vec<u8>>) -> (r: Vec<u8>)
    ensures
        match found {
            Some(v) => r@ == v@,
            None => r@.len() == 0,
        },
{
    match found {
        Some(v) => v,
        None => Vec::new(),
    }
}

/// The bytes of the section called `name` in the object file `data`; an
/// absent section reads as empty, never as an error.
pub fn load_section(data: &[u8], name: &str) -> (r: Vec<u8>)
    ensures
        match section_contents(data@, name@) {
            Some(b) => r@ == b,
            None => r@.len() == 0,
        },
{
    section_or_empty(find_section(data, name))
}

#[verifier::external_type_specification]
#[verifier::external_body]
pub struct ExSectionId(gimli::SectionId);

#[verifier::external_type_specification]
#[verifier::external_body]
#[verifier::reject_recursive_types(T)]
pub struct ExDwarfSections<T>(gimli::DwarfSections<T>);

/// The name, in an object file, of the debug section that `id` stands for.
pub uninterp spec fn section_id_name(id: gimli::SectionId) -> Seq<char>;

/// The bytes that `sections` holds for the debug section called `name`.
pub uninterp spec fn held_section(sections: gimli::DwarfSections<Vec<u8>>, name: Seq<char>) -> Seq<u8>;

/// The names of the debug sections that gimli's `DwarfSections` holds.
pub open spec fn dwarf_section_names() -> Seq<Seq<char>> {
    seq![
        ".debug_abbrev"@,
        ".debug_addr"@,
        ".debug_aranges"@,
        ".debug_info"@,
        ".debug_line"@,
        ".debug_line_str"@,
        ".debug_str"@,
        ".debug_str_offsets"@,
        ".debug_types"@,
        ".debug_loc"@,
        ".debug_loclists"@,
        ".debug_ranges"@,
        ".debug_rnglists"@,
    ]
}

/// What the section loader gives for the section called `name` of the object
/// file `data`: its contents, or no bytes where there are none.
pub open spec fn loaded_bytes(data: Seq<u8>, name: Seq<char>) -> Seq<u8> {
    match section_contents(data, name) {
        Some(b) => b,
        None => Seq::empty(),
    }
}

/// Relies on gimli's `SectionId::name`: the section's name in an object file.
#[verifier::external_body]
fn section_name(id: gimli::SectionId) -> (r: &'static str)
    ensures
        r@ == section_id_name(id),
{
    id.name()
}

/// The bytes of the debug section `id` in the object file `data`, empty where
/// it is absent.
pub fn load_debug_section(data: &[u8], id: gimli::SectionId) -> (r: Vec<u8>)
    ensures
        match section_contents(data@, section_id_name(id)) {
            Some(b) => r@ == b,
            None => r@.len() == 0,
        },
{
    load_section(data, section_name(id))
}

/// Relies on gimli's `DwarfSections::load`: it asks the loader once for each
/// section it holds (by the ids whose names `dwarf_section_names` lists) and
/// keeps the bytes it is given. The loader here is `load_debug_section`,
/// which never fails.
#[verifier::external_body]
fn load_sections_with_loader(data: &[u8]) -> (r: gimli::DwarfSections<Vec<u8>>)
    ensures
        forall|i: int|
            0 <= i < dwarf_section_names().len() ==> #[trigger] held_section(
                r,
                dwarf_section_names()[i],
            ) == loaded_bytes(data@, dwarf_section_names()[i]),
{
    let loaded = gimli::DwarfSections::load(
        |id| Ok::<Vec<u8>, core::convert::Infallible>(load_debug_section(data, id)),
    );
    match loaded {
        Ok(sections) => sections,
        Err(never) => match never {},
    }
}

/// Every debug section of the object file `data` that gimli reads, each
/// loaded as `load_section` does: its contents, or empty where absent.
pub fn load_dwarf_sections(data: &[u8]) -> (r: gimli::DwarfSections<Vec<u8>>)
    ensures
        forall|i: int|
            0 <= i < dwarf_section_names().len() ==> #[trigger] held_section(
                r,
                dwarf_section_names()[i],
            ) == loaded_bytes(data@, dwarf_section_names()[i]),
{
    load_sections_with_loader(data)
}

} // verus!
