//! Tests of the type descriptor store and the export pipeline.

use rspc::export::{export_types, ExportError};
use rspc::store::{StoreError, TypeDescriptorStore};
use rspc::types::{Field, Location, TypeDefinition, TypeShape, Variant};

fn field(name: &str, ty: &str) -> Field {
    Field { name: name.to_string(), ty: ty.to_string() }
}

fn struct_def(name: &str, fields: Vec<Field>, file: &str, line: u64) -> TypeDefinition {
    TypeDefinition {
        name: name.to_string(),
        generics: Vec::new(),
        shape: TypeShape::Struct { fields },
        location: Location { file: file.to_string(), line },
    }
}

#[test]
fn store_insert_is_idempotent_for_identical_definitions() {
    let mut store = TypeDescriptorStore::new();
    let d1 = struct_def("User", vec![field("id", "i32")], "u.rs", 3);
    let d2 = struct_def("User", vec![field("id", "i32")], "u.rs", 3);
    assert!(store.insert(7, d1).is_ok());
    assert!(store.insert(7, d2).is_ok());
    assert_eq!(store.entries.len(), 1);
}

#[test]
fn store_insert_rejects_differing_definition_under_same_id() {
    let mut store = TypeDescriptorStore::new();
    let d1 = struct_def("User", vec![field("id", "i32")], "u.rs", 3);
    let d2 = struct_def("Account", vec![field("id", "i32")], "u.rs", 9);
    assert!(store.insert(7, d1).is_ok());
    match store.insert(7, d2) {
        Err(StoreError::TypeIdentityMismatch { id }) => assert_eq!(id, 7),
        _ => panic!("a differing definition under a present id must fail fast"),
    }
    assert_eq!(store.entries.len(), 1);
}

#[test]
fn export_merges_identical_same_named_types_and_sorts_by_name() {
    let mut store = TypeDescriptorStore::new();
    // "Zone" inserted first; "User" must still come first in the output.
    let zone = struct_def("Zone", vec![field("code", "u8")], "z.rs", 1);
    let user_a = struct_def("User", vec![field("id", "i32"), field("name", "string")], "a.rs", 10);
    let user_b = struct_def("User", vec![field("id", "i32"), field("name", "string")], "b.rs", 20);
    store.insert(1, zone).unwrap();
    store.insert(2, user_a).unwrap();
    store.insert(3, user_b).unwrap();
    let text = export_types(&store, "").unwrap();
    assert_eq!(
        text,
        "// Do not edit this file manually.\n\
         \n\
         export type User = { id: i32; name: string; }\n\
         \n\
         export type Zone = { code: u8; }\n"
    );
    // Exactly one User block.
    assert_eq!(text.matches("export type User").count(), 1);
}

#[test]
fn export_rejects_same_name_with_different_shapes() {
    let mut store = TypeDescriptorStore::new();
    let user_a = struct_def("User", vec![field("id", "i32")], "a.rs", 10);
    let user_b = struct_def("User", vec![field("id", "u64")], "b.rs", 20);
    store.insert(1, user_a).unwrap();
    store.insert(2, user_b).unwrap();
    match export_types(&store, "") {
        Err(ExportError::DuplicateTypeName { name, location_a, location_b }) => {
            assert_eq!(name, "User");
            assert_eq!(location_a.file, "a.rs");
            assert_eq!(location_a.line, 10);
            assert_eq!(location_b.file, "b.rs");
            assert_eq!(location_b.line, 20);
        },
        _ => panic!("same-named types with different shapes must fail the export"),
    }
}

#[test]
fn export_is_deterministic_across_identifier_and_order_churn() {
    // Two builds declaring the same types, with different build-local
    // identifiers and a different insertion order.
    let mut first = TypeDescriptorStore::new();
    first.insert(1, struct_def("Alpha", vec![field("a", "i8")], "x.rs", 1)).unwrap();
    first.insert(2, struct_def("Beta", vec![field("b", "i16")], "x.rs", 5)).unwrap();
    first.insert(3, struct_def("Gamma", vec![field("g", "i32")], "x.rs", 9)).unwrap();

    let mut second = TypeDescriptorStore::new();
    second.insert(900, struct_def("Gamma", vec![field("g", "i32")], "x.rs", 9)).unwrap();
    second.insert(17, struct_def("Alpha", vec![field("a", "i8")], "x.rs", 1)).unwrap();
    second.insert(42, struct_def("Beta", vec![field("b", "i16")], "x.rs", 5)).unwrap();

    let t1 = export_types(&first, "// my header").unwrap();
    let t2 = export_types(&second, "// my header").unwrap();
    assert_eq!(t1, t2);
}

#[test]
fn export_renders_header_enums_and_generics() {
    let mut store = TypeDescriptorStore::new();
    let outcome = TypeDefinition {
        name: "Outcome".to_string(),
        generics: vec!["T".to_string(), "E".to_string()],
        shape: TypeShape::Enum {
            variants: vec![
                Variant { name: "Hit".to_string(), fields: vec![field("value", "T")] },
                Variant { name: "Miss".to_string(), fields: Vec::new() },
            ],
        },
        location: Location { file: "o.rs".to_string(), line: 2 },
    };
    store.insert(5, outcome).unwrap();
    let text = export_types(&store, "// custom header").unwrap();
    assert_eq!(
        text,
        "// custom header\n\
         // Do not edit this file manually.\n\
         \n\
         export type Outcome<T, E> =  | Hit { value: T; } | Miss { }\n"
    );
}

#[test]
fn export_of_empty_store_is_just_the_banner() {
    let store = TypeDescriptorStore::new();
    let text = export_types(&store, "").unwrap();
    assert_eq!(text, "// Do not edit this file manually.\n");
}
