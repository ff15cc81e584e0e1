use miden_logic::debug_info::DebugTypeIdx;
use miden_logic::debug_info::{DebugPrimitiveType, DebugSourcesSection, DebugTypesSection};

#[test]
fn test_debug_types_section_string_dedup() {
    let mut section = DebugTypesSection::new();

    let idx1 = section.add_string(String::from("test.rs"));
    let idx2 = section.add_string(String::from("main.rs"));
    let idx3 = section.add_string(String::from("test.rs")); // Duplicate

    assert_eq!(idx1, 0);
    assert_eq!(idx2, 1);
    assert_eq!(idx3, 0); // Should return same index
    assert_eq!(section.strings.len(), 2);
}

#[test]
fn test_debug_sources_section_string_dedup() {
    let mut section = DebugSourcesSection::new();

    let idx1 = section.add_string(String::from("test.rs"));
    let idx2 = section.add_string(String::from("main.rs"));
    let idx3 = section.add_string(String::from("test.rs")); // Duplicate

    assert_eq!(idx1, 0);
    assert_eq!(idx2, 1);
    assert_eq!(idx3, 0); // Should return same index
    assert_eq!(section.strings.len(), 2);
}

#[test]
fn test_primitive_type_roundtrip() {
    for discriminant in 0..=16 {
        let ty = DebugPrimitiveType::from_discriminant(discriminant).unwrap();
        assert_eq!(ty as u8, discriminant);
    }
    assert!(DebugPrimitiveType::from_discriminant(17).is_none());
}

#[test]
fn type_indices_convert_to_and_from_u32() {
    let idx = DebugTypeIdx::from(42u32);
    assert_eq!(idx.as_u32(), 42);
    assert_eq!(u32::from(idx), 42);
    assert_eq!(DebugTypeIdx::from(u32::from(DebugTypeIdx(7))), DebugTypeIdx(7));
}
