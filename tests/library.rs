use dwarf_type_sizes::compare::compare;
use dwarf_type_sizes::extract::{
    entry_observation, extract, scan_attrs, Attr, AttrValue, Entry, DW_AT_BYTE_SIZE, DW_AT_NAME,
    DW_TAG_CLASS_TYPE, DW_TAG_STRUCTURE_TYPE,
};
use dwarf_type_sizes::names::normalize_name;
use dwarf_type_sizes::reference::{get_codeql_data, normalize_rows, rows_from_value, ReferenceError};
use dwarf_type_sizes::sections::{
    load_debug_section, load_dwarf_sections, load_section, section_or_empty,
};
use gimli::Section;
use dwarf_type_sizes::sizes::{insert_sorted, TypeSizes};

fn name_attr(s: &str) -> Attr {
    Attr { name: DW_AT_NAME, value: AttrValue::StrRef(Some(s.to_string())) }
}

fn size_attr(n: u64) -> Attr {
    Attr { name: DW_AT_BYTE_SIZE, value: AttrValue::Unsigned(n) }
}

fn structure(name: &str, size: u64) -> Entry {
    Entry { tag: DW_TAG_STRUCTURE_TYPE, attrs: vec![name_attr(name), size_attr(size)] }
}

fn sizes_of(map: &TypeSizes, name: &str) -> Option<Vec<u64>> {
    map.get(name).cloned()
}

fn mapping(rows: &[(&str, i64)]) -> TypeSizes {
    let v: Vec<(String, i64)> = rows.iter().map(|(n, s)| (n.to_string(), *s)).collect();
    normalize_rows(&v)
}

#[test]
fn normalize_collapses_space_before_angle() {
    assert_eq!(normalize_name("vector<int >"), "vector<int>");
}

#[test]
fn normalize_every_occurrence() {
    assert_eq!(normalize_name("map<pair<int, int >, int >"), "map<pair<int, int>, int>");
    assert_eq!(normalize_name("a  >"), "a >");
    assert_eq!(normalize_name(" >"), ">");
    assert_eq!(normalize_name(""), "");
}

#[test]
fn normalize_leaves_normalized_name() {
    for s in ["vector<int>", "Foo", "a > b", "x >y"] {
        let once = normalize_name(s);
        if !s.contains(" >") {
            assert_eq!(once, s);
        }
        assert_eq!(normalize_name(&normalize_name("vector<int >")), "vector<int>");
    }
}

#[test]
fn one_structure_round_trip() {
    let units = vec![vec![structure("Foo", 8)]];
    let map = extract(&units);
    assert_eq!(map.len(), 1);
    assert_eq!(map.name_at(0), "Foo");
    assert_eq!(sizes_of(&map, "Foo"), Some(vec![8]));
}

#[test]
fn sizes_across_units_sorted_and_deduplicated() {
    let units = vec![
        vec![structure("Foo", 16), structure("Foo", 8)],
        vec![structure("Foo", 8)],
    ];
    let map = extract(&units);
    assert_eq!(map.len(), 1);
    assert_eq!(sizes_of(&map, "Foo"), Some(vec![8, 16]));
}

#[test]
fn other_tags_give_nothing() {
    let base = Entry { tag: 0x24, attrs: vec![name_attr("int"), size_attr(4)] };
    let var = Entry { tag: 0x34, attrs: vec![name_attr("x"), size_attr(4)] };
    let map = extract(&vec![vec![base, var]]);
    assert_eq!(map.len(), 0);
    assert_eq!(sizes_of(&map, "int"), None);
}

#[test]
fn class_type_is_recorded_with_normalized_name() {
    let e = Entry { tag: DW_TAG_CLASS_TYPE, attrs: vec![name_attr("vector<int >"), size_attr(24)] };
    let map = extract(&vec![vec![e]]);
    assert_eq!(sizes_of(&map, "vector<int>"), Some(vec![24]));
    assert_eq!(sizes_of(&map, "vector<int >"), None);
}

#[test]
fn entry_needs_name_and_size() {
    let no_size = Entry { tag: DW_TAG_STRUCTURE_TYPE, attrs: vec![name_attr("A")] };
    let no_name = Entry { tag: DW_TAG_STRUCTURE_TYPE, attrs: vec![size_attr(4)] };
    let other_name = Entry {
        tag: DW_TAG_STRUCTURE_TYPE,
        attrs: vec![Attr { name: DW_AT_NAME, value: AttrValue::Other }, size_attr(4)],
    };
    let unresolved = Entry {
        tag: DW_TAG_STRUCTURE_TYPE,
        attrs: vec![Attr { name: DW_AT_NAME, value: AttrValue::StrRef(None) }, size_attr(4)],
    };
    assert!(entry_observation(&no_size).is_none());
    assert!(entry_observation(&no_name).is_none());
    assert!(entry_observation(&other_name).is_none());
    assert!(entry_observation(&unresolved).is_none());
    let map = extract(&vec![vec![no_size, no_name, other_name, unresolved]]);
    assert_eq!(map.len(), 0);
}

#[test]
fn last_attribute_of_a_role_wins() {
    let attrs = vec![
        name_attr("A"),
        size_attr(4),
        name_attr("B"),
        Attr { name: DW_AT_NAME, value: AttrValue::Other },
        size_attr(12),
    ];
    let (name, size) = scan_attrs(&attrs);
    assert_eq!(name.as_deref(), Some("B"));
    assert_eq!(size, Some(12));
    let reset = vec![name_attr("A"), size_attr(4), Attr { name: DW_AT_BYTE_SIZE, value: AttrValue::Other }];
    assert_eq!(scan_attrs(&reset).1, None);
}

#[test]
fn sizes_ascending_whatever_the_order() {
    let mut v: Vec<u64> = Vec::new();
    for x in [5u64, 1, 9, 5, 1, 3] {
        insert_sorted(&mut v, x);
    }
    assert_eq!(v, vec![1, 3, 5, 9]);
    let map = mapping(&[("T", 32), ("T", 4), ("T", 32), ("T", 16)]);
    assert_eq!(sizes_of(&map, "T"), Some(vec![4, 16, 32]));
}

#[test]
fn reference_and_extraction_match() {
    let reference = get_codeql_data(r##"{"#select":{"tuples":[["Foo",8]]}}"##).unwrap();
    let extracted = extract(&vec![vec![structure("Foo", 8)]]);
    let report = compare(&extracted, &reference);
    assert_eq!(report.matches, 1);
    assert!(report.mismatches.is_empty());
}

#[test]
fn reference_and_extraction_mismatch() {
    let reference = mapping(&[("Foo", 8)]);
    let extracted = mapping(&[("Foo", 16)]);
    let report = compare(&extracted, &reference);
    assert_eq!(report.matches, 0);
    assert_eq!(report.mismatches.len(), 1);
    assert_eq!(report.mismatches[0].name, "Foo");
    assert_eq!(report.mismatches[0].extracted, vec![16]);
    assert_eq!(report.mismatches[0].reference, vec![8]);
}

#[test]
fn unpaired_keys_are_not_reported() {
    let extracted = mapping(&[("OnlyHere", 8), ("Both", 4), ("Diff", 1)]);
    let reference = mapping(&[("OnlyThere", 8), ("Both", 4), ("Diff", 2)]);
    let report = compare(&extracted, &reference);
    assert_eq!(report.matches, 1);
    assert_eq!(report.mismatches.len(), 1);
    assert_eq!(report.mismatches[0].name, "Diff");
}

#[test]
fn reference_rows_gathered() {
    let text = r##"{"#select":{"columns":[{"kind":"String"},{"kind":"Integer"}],"tuples":[["NopCrashManager",8],["CrashManager",8],["CrashManager",4],["CrashManager",8]]}}"##;
    let map = get_codeql_data(text).unwrap();
    assert_eq!(map.len(), 2);
    assert_eq!(sizes_of(&map, "NopCrashManager"), Some(vec![8]));
    assert_eq!(sizes_of(&map, "CrashManager"), Some(vec![4, 8]));
}

#[test]
fn reference_names_not_normalized() {
    let map = get_codeql_data(r##"{"#select":{"tuples":[["vector<int >",24]]}}"##).unwrap();
    assert_eq!(sizes_of(&map, "vector<int >"), Some(vec![24]));
}

#[test]
fn reference_negative_size_cast() {
    let map = mapping(&[("N", -1)]);
    assert_eq!(sizes_of(&map, "N"), Some(vec![u64::MAX]));
}

#[test]
fn reference_errors() {
    assert_eq!(get_codeql_data("not json").err(), Some(ReferenceError::Syntax));
    assert_eq!(get_codeql_data(r##"{"tuples":[]}"##).err(), Some(ReferenceError::Shape));
    assert_eq!(get_codeql_data(r##"{"#select":{}}"##).err(), Some(ReferenceError::Shape));
    assert_eq!(get_codeql_data(r##"{"#select":{"tuples":3}}"##).err(), Some(ReferenceError::Shape));
    assert_eq!(get_codeql_data(r##"{"#select":{"tuples":[["A"]]}}"##).err(), Some(ReferenceError::Shape));
    assert_eq!(get_codeql_data(r##"{"#select":{"tuples":[["A",1,2]]}}"##).err(), Some(ReferenceError::Shape));
    assert_eq!(get_codeql_data(r##"{"#select":{"tuples":[[1,1]]}}"##).err(), Some(ReferenceError::Shape));
    assert_eq!(get_codeql_data(r##"{"#select":{"tuples":[["A","1"]]}}"##).err(), Some(ReferenceError::Shape));
    let empty = get_codeql_data(r##"{"#select":{"tuples":[]}}"##).unwrap();
    assert_eq!(empty.len(), 0);
}

#[test]
fn missing_section_reads_empty() {
    assert!(load_section(b"not an object file", ".debug_info").is_empty());
    assert!(load_section(&[], ".debug_str").is_empty());
    assert_eq!(section_or_empty(Some(vec![1, 2, 3])), vec![1, 2, 3]);
    assert!(section_or_empty(None).is_empty());
}

fn push_u16(v: &mut Vec<u8>, x: u16) {
    v.extend_from_slice(&x.to_le_bytes());
}

fn push_u32(v: &mut Vec<u8>, x: u32) {
    v.extend_from_slice(&x.to_le_bytes());
}

fn push_u64(v: &mut Vec<u8>, x: u64) {
    v.extend_from_slice(&x.to_le_bytes());
}

fn section_header(v: &mut Vec<u8>, name: u32, kind: u32, offset: u64, size: u64) {
    push_u32(v, name);
    push_u32(v, kind);
    push_u64(v, 0);
    push_u64(v, 0);
    push_u64(v, offset);
    push_u64(v, size);
    push_u32(v, 0);
    push_u32(v, 0);
    push_u64(v, 1);
    push_u64(v, 0);
}

/// A relocatable 64-bit little-endian ELF file with a `.debug_str` section
/// holding `Foo\0` and a section name table.
fn tiny_elf() -> Vec<u8> {
    let mut v: Vec<u8> = vec![0x7f, b'E', b'L', b'F', 2, 1, 1, 0];
    v.extend_from_slice(&[0; 8]);
    push_u16(&mut v, 1);
    push_u16(&mut v, 62);
    push_u32(&mut v, 1);
    push_u64(&mut v, 0);
    push_u64(&mut v, 0);
    push_u64(&mut v, 96);
    push_u32(&mut v, 0);
    push_u16(&mut v, 64);
    push_u16(&mut v, 0);
    push_u16(&mut v, 0);
    push_u16(&mut v, 64);
    push_u16(&mut v, 3);
    push_u16(&mut v, 2);
    assert_eq!(v.len(), 64);
    v.extend_from_slice(b"Foo\0");
    v.extend_from_slice(b"\0.debug_str\0.shstrtab\0");
    while v.len() < 96 {
        v.push(0);
    }
    section_header(&mut v, 0, 0, 0, 0);
    v.truncate(96);
    v.extend_from_slice(&[0; 64]);
    section_header(&mut v, 1, 1, 64, 4);
    section_header(&mut v, 12, 3, 68, 22);
    v
}

#[test]
fn present_section_is_read() {
    let elf = tiny_elf();
    assert_eq!(load_section(&elf, ".debug_str"), b"Foo\0".to_vec());
    assert!(load_section(&elf, ".debug_info").is_empty());
    assert!(load_section(&elf, ".debug_abbrev").is_empty());
}

#[test]
fn debug_section_by_id() {
    let elf = tiny_elf();
    assert_eq!(load_debug_section(&elf, gimli::SectionId::DebugStr), b"Foo\0".to_vec());
    assert!(load_debug_section(&elf, gimli::SectionId::DebugInfo).is_empty());
    let sections = load_dwarf_sections(&elf);
    let dwarf = sections
        .borrow(|s: &Vec<u8>| gimli::EndianSlice::new(s.as_slice(), gimli::RunTimeEndian::Little));
    assert_eq!(dwarf.debug_str.reader().slice(), b"Foo\0");
    assert!(dwarf.debug_info.reader().slice().is_empty());
}

#[test]
fn reference_repeats_sorted_and_deduplicated() {
    let text = r##"{"#select":{"tuples":[["Foo",16],["Foo",8],["Foo",8],["Bar",4]]}}"##;
    let map = get_codeql_data(text).unwrap();
    assert_eq!(map.len(), 2);
    assert_eq!(sizes_of(&map, "Foo"), Some(vec![8, 16]));
    assert_eq!(sizes_of(&map, "Bar"), Some(vec![4]));
}

#[test]
fn reference_only_and_extracted_only_keys() {
    let reference = get_codeql_data(r##"{"#select":{"tuples":[["Foo",8],["Baz",2]]}}"##).unwrap();
    let extracted = mapping(&[("Foo", 8), ("Bar", 4)]);
    let report = compare(&extracted, &reference);
    assert_eq!(report.matches, 1);
    assert!(report.mismatches.is_empty());
}

#[test]
fn reference_mismatch_from_text() {
    let reference = get_codeql_data(r##"{"#select":{"tuples":[["Foo",8]]}}"##).unwrap();
    let extracted = extract(&vec![vec![structure("Foo", 16)]]);
    let report = compare(&extracted, &reference);
    assert_eq!(report.matches, 0);
    assert_eq!(report.mismatches.len(), 1);
    assert_eq!(report.mismatches[0].extracted, vec![16]);
    assert_eq!(report.mismatches[0].reference, vec![8]);
}

#[test]
fn reference_more_bad_rows() {
    for text in [
        r##"{"#select":{"tuples":[[8,"Foo"]]}}"##,
        r##"{"#select":{"tuples":[["Foo",8.5]]}}"##,
        r##"{"#select":{"tuples":["Foo"]}}"##,
        r##"{"#select":{"tuples":[["Foo",8],["Bar"]]}}"##,
        r##"[1,2]"##,
    ] {
        assert_eq!(get_codeql_data(text).err(), Some(ReferenceError::Shape));
    }
}

#[test]
fn rows_read_from_parsed_value() {
    let v: serde_json::Value =
        serde_json::from_str(r##"{"#select":{"tuples":[["A",-1],["vector<int >",24]]}}"##).unwrap();
    let rows = rows_from_value(&v).unwrap();
    assert_eq!(rows, vec![("A".to_string(), -1), ("vector<int >".to_string(), 24)]);
    let bad: serde_json::Value = serde_json::from_str(r##"{"#select":{"tuples":{}}}"##).unwrap();
    assert_eq!(rows_from_value(&bad).err(), Some(ReferenceError::Shape));
    let map = get_codeql_data(r##"{"#select":{"tuples":[["A",-1],["vector<int >",24]]}}"##).unwrap();
    assert_eq!(sizes_of(&map, "A"), Some(vec![u64::MAX]));
    assert_eq!(sizes_of(&map, "vector<int >"), Some(vec![24]));
}
