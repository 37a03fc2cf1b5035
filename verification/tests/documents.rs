//! Document-level behaviour: merging and whole-document conversion.
use std::collections::HashMap;

use schemars_zod::convert;
use schemars_zod::convert_joined;
use schemars_zod::merge_schemas;
use schemars_zod::schema::SchemaDocument;
use schemars_zod::schema::SchemaNode;
use schemars_zod::schema::SchemaType;
use schemars_zod::schema::TypeSet;

fn typed(t: SchemaType) -> SchemaNode {
    let mut n = SchemaNode::empty();
    n.instance_type = Some(TypeSet::Single(t));
    n
}

fn titled_doc(title: &str, defs: Vec<(&str, SchemaNode)>) -> SchemaDocument {
    let mut root = typed(SchemaType::Object);
    root.object = Some(schemars_zod::schema::ObjectShape {
        properties: Vec::new(),
        additional_properties: None,
    });
    root.title = Some(title.to_string());
    SchemaDocument {
        root,
        definitions: defs.into_iter().map(|(k, v)| (k.to_string(), v)).collect(),
    }
}

fn table(doc: &SchemaDocument) -> HashMap<String, Option<String>> {
    doc.definitions
        .iter()
        .map(|(k, n)| (k.clone(), n.title.clone()))
        .collect()
}

#[test]
fn merge_collects_definitions_and_titled_roots() {
    let a = titled_doc("A", vec![("Dep", typed(SchemaType::Str))]);
    let b = titled_doc("B", vec![]);
    let merged = merge_schemas(vec![a, b]);
    let keys: Vec<&str> = merged.definitions.iter().map(|(k, _)| k.as_str()).collect();
    assert_eq!(keys, vec!["Dep", "A", "B"]);
}

#[test]
fn merge_with_disjoint_titles_is_order_insensitive() {
    let a = || titled_doc("A", vec![("DepA", typed(SchemaType::Str))]);
    let b = || titled_doc("B", vec![("DepB", typed(SchemaType::Number))]);
    let ab = merge_schemas(vec![a(), b()]);
    let ba = merge_schemas(vec![b(), a()]);
    assert_eq!(table(&ab), table(&ba));
}

#[test]
fn merge_title_collision_later_wins() {
    let mut first = titled_doc("A", vec![]);
    first.root.format = Some("first".to_string());
    let mut second = titled_doc("A", vec![]);
    second.root.format = Some("second".to_string());
    let merged = merge_schemas(vec![first, second]);
    assert_eq!(merged.definitions.len(), 1);
    assert_eq!(merged.definitions[0].0, "A");
    assert_eq!(merged.definitions[0].1.format.as_deref(), Some("second"));
}

#[test]
fn merge_skips_untitled_document_entirely() {
    let mut untitled = titled_doc("X", vec![("Dep", typed(SchemaType::Str))]);
    untitled.root.title = None;
    let merged = merge_schemas(vec![untitled, titled_doc("B", vec![])]);
    let keys: Vec<&str> = merged.definitions.iter().map(|(k, _)| k.as_str()).collect();
    assert_eq!(keys, vec!["B"]);
}

#[test]
fn merge_of_nothing_is_empty() {
    let merged = merge_schemas(Vec::new());
    assert!(merged.definitions.is_empty());
    assert!(merged.root.title.is_none());
}

#[test]
fn convert_emits_binding_and_type_alias() {
    let doc = SchemaDocument {
        root: SchemaNode::empty(),
        definitions: vec![("Foo".to_string(), typed(SchemaType::Str))],
    };
    let out = convert(doc);
    assert_eq!(out.len(), 1);
    assert_eq!(out[0].0, "Foo");
    assert_eq!(
        out[0].1,
        "export const Foo = z.string();\nexport type Foo = z.infer<typeof Foo>;\n"
    );
}

#[test]
fn convert_ignores_document_root() {
    let mut root = typed(SchemaType::Str);
    root.title = Some("Root".to_string());
    let doc = SchemaDocument { root, definitions: Vec::new() };
    assert!(convert(doc).is_empty());
}

#[test]
fn convert_omits_unconvertible_definitions_silently() {
    let doc = SchemaDocument {
        root: SchemaNode::empty(),
        definitions: vec![
            ("Bad".to_string(), SchemaNode::empty()),
            ("Good".to_string(), typed(SchemaType::Boolean)),
        ],
    };
    let out = convert(doc);
    let keys: Vec<&str> = out.iter().map(|(k, _)| k.as_str()).collect();
    assert_eq!(keys, vec!["Good"]);
}

#[test]
fn convert_of_empty_document_is_empty_mapping() {
    let doc = SchemaDocument { root: SchemaNode::empty(), definitions: Vec::new() };
    assert!(convert(doc).is_empty());
}

#[test]
fn convert_joined_concatenates_blocks_with_newline() {
    let doc = SchemaDocument {
        root: SchemaNode::empty(),
        definitions: vec![
            ("A".to_string(), typed(SchemaType::Str)),
            ("B".to_string(), typed(SchemaType::Number)),
        ],
    };
    let out = convert_joined(doc);
    assert_eq!(
        out,
        "export const A = z.string();\nexport type A = z.infer<typeof A>;\n\n\
         export const B = z.number();\nexport type B = z.infer<typeof B>;\n"
    );
}

#[test]
fn merged_documents_convert_end_to_end() {
    let mut point = typed(SchemaType::Object);
    point.object = Some(schemars_zod::schema::ObjectShape {
        properties: vec![
            ("x".to_string(), typed(SchemaType::Number)),
            ("y".to_string(), typed(SchemaType::Number)),
        ],
        additional_properties: None,
    });
    point.title = Some("Point".to_string());
    let doc = SchemaDocument { root: point, definitions: Vec::new() };
    let merged = merge_schemas(vec![doc]);
    let out = convert(merged);
    assert_eq!(out.len(), 1);
    assert_eq!(
        out[0].1,
        "export const Point = z.object({x: z.number(), y: z.number(), });\n\
         export type Point = z.infer<typeof Point>;\n"
    );
}

#[test]
fn merge_definition_key_collision_later_wins() {
    let a = titled_doc("A", vec![("Dep", typed(SchemaType::Str))]);
    let b = titled_doc("B", vec![("Dep", typed(SchemaType::Number))]);
    let merged = merge_schemas(vec![a, b]);
    let dep = merged
        .definitions
        .iter()
        .find(|(k, _)| k == "Dep")
        .map(|(_, n)| n)
        .unwrap();
    assert!(matches!(
        dep.instance_type,
        Some(TypeSet::Single(SchemaType::Number))
    ));
}

#[test]
fn merge_keeps_first_position_on_overwrite() {
    let a = titled_doc("A", vec![("Dep", typed(SchemaType::Str))]);
    let b = titled_doc("B", vec![("Dep", typed(SchemaType::Number))]);
    let merged = merge_schemas(vec![a, b]);
    let keys: Vec<&str> = merged.definitions.iter().map(|(k, _)| k.as_str()).collect();
    assert_eq!(keys, vec!["Dep", "A", "B"]);
}
