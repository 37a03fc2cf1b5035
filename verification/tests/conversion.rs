//! Node-level conversion behaviour.
use schemars_zod::schema::ArrayShape;
use schemars_zod::schema::ItemSchemas;
use schemars_zod::schema::ObjectShape;
use schemars_zod::schema::SchemaNode;
use schemars_zod::schema::SchemaType;
use schemars_zod::schema::TypeSet;
use schemars_zod::zod::convert_schema_object_to_zod;

fn typed(t: SchemaType) -> SchemaNode {
    let mut n = SchemaNode::empty();
    n.instance_type = Some(TypeSet::Single(t));
    n
}

fn string_node() -> SchemaNode {
    typed(SchemaType::Str)
}

fn number_node() -> SchemaNode {
    typed(SchemaType::Number)
}

fn integer_node() -> SchemaNode {
    typed(SchemaType::Integer)
}

fn object_node(props: Vec<(&str, SchemaNode)>) -> SchemaNode {
    let mut n = typed(SchemaType::Object);
    n.object = Some(ObjectShape {
        properties: props.into_iter().map(|(k, v)| (k.to_string(), v)).collect(),
        additional_properties: None,
    });
    n
}

fn convert_node(n: &SchemaNode) -> Option<String> {
    convert_schema_object_to_zod(n)
}

#[test]
fn reference_strips_path_prefix() {
    let mut n = SchemaNode::empty();
    n.reference = Some("#/definitions/Foo".to_string());
    assert_eq!(convert_node(&n).unwrap(), "z.lazy(() => Foo)");
}

#[test]
fn reference_without_prefix_kept_whole() {
    let mut n = SchemaNode::empty();
    n.reference = Some("Bar".to_string());
    assert_eq!(convert_node(&n).unwrap(), "z.lazy(() => Bar)");
}

#[test]
fn single_value_enum_is_literal() {
    let mut n = SchemaNode::empty();
    n.enum_values = Some(vec!["5".to_string()]);
    assert_eq!(convert_node(&n).unwrap(), "z.literal(5)");
}

#[test]
fn multi_value_enum_lists_alternatives_in_order() {
    let mut n = SchemaNode::empty();
    n.enum_values = Some(vec!["1".to_string(), "2".to_string(), "3".to_string()]);
    assert_eq!(convert_node(&n).unwrap(), "z.enum([1, 2, 3, ])");
}

#[test]
fn primitive_types() {
    assert_eq!(convert_node(&typed(SchemaType::Null)).unwrap(), "z.null()");
    assert_eq!(convert_node(&typed(SchemaType::Boolean)).unwrap(), "z.boolean()");
    assert_eq!(convert_node(&number_node()).unwrap(), "z.number()");
    assert_eq!(convert_node(&integer_node()).unwrap(), "z.number().int()");
    assert_eq!(convert_node(&string_node()).unwrap(), "z.string()");
}

#[test]
fn date_time_format_coerces_date() {
    let mut n = string_node();
    n.format = Some("date-time".to_string());
    assert_eq!(convert_node(&n).unwrap(), "z.coerce.date()");
}

#[test]
fn other_format_is_plain_string() {
    let mut n = string_node();
    n.format = Some("email".to_string());
    assert_eq!(convert_node(&n).unwrap(), "z.string()");
}

#[test]
fn const_value_under_single_type_is_literal() {
    let mut n = string_node();
    n.const_value = Some("\"a\"".to_string());
    assert_eq!(convert_node(&n).unwrap(), "z.literal(\"a\")");
}

#[test]
fn object_with_only_additional_properties_is_record() {
    let mut n = typed(SchemaType::Object);
    n.object = Some(ObjectShape {
        properties: Vec::new(),
        additional_properties: Some(Box::new(string_node())),
    });
    assert_eq!(convert_node(&n).unwrap(), "z.record(z.string())");
}

#[test]
fn object_with_properties_is_record_shape_in_order() {
    let n = object_node(vec![("a", string_node()), ("b", integer_node())]);
    assert_eq!(
        convert_node(&n).unwrap(),
        "z.object({a: z.string(), b: z.number().int(), })"
    );
}

#[test]
fn object_with_unconvertible_property_fails() {
    let n = object_node(vec![("a", string_node()), ("b", SchemaNode::empty())]);
    assert_eq!(convert_node(&n), None);
}

#[test]
fn array_without_bounds_is_homogeneous() {
    let mut n = typed(SchemaType::Array);
    n.array = Some(ArrayShape {
        items: Some(ItemSchemas::Single(Box::new(number_node()))),
        min_items: None,
        max_items: None,
    });
    assert_eq!(convert_node(&n).unwrap(), "z.array(z.number())");
}

#[test]
fn array_with_equal_bounds_converts_single_item_directly() {
    let mut n = typed(SchemaType::Array);
    n.array = Some(ArrayShape {
        items: Some(ItemSchemas::Single(Box::new(number_node()))),
        min_items: Some(2),
        max_items: Some(2),
    });
    assert_eq!(convert_node(&n).unwrap(), "z.number()");
}

#[test]
fn array_with_equal_bounds_and_positional_items_is_tuple() {
    let mut n = typed(SchemaType::Array);
    n.array = Some(ArrayShape {
        items: Some(ItemSchemas::Many(vec![number_node(), string_node()])),
        min_items: Some(2),
        max_items: Some(2),
    });
    assert_eq!(convert_node(&n).unwrap(), "z.tuple([z.number(), z.string(), ])");
}

#[test]
fn array_with_several_item_shapes_is_union() {
    let mut n = typed(SchemaType::Array);
    n.array = Some(ArrayShape {
        items: Some(ItemSchemas::Many(vec![number_node(), string_node()])),
        min_items: None,
        max_items: None,
    });
    assert_eq!(
        convert_node(&n).unwrap(),
        "z.array(z.union([z.number(), z.string(), ]))"
    );
}

#[test]
fn array_with_one_listed_item_shape_converts_directly() {
    let mut n = typed(SchemaType::Array);
    n.array = Some(ArrayShape {
        items: Some(ItemSchemas::Many(vec![number_node()])),
        min_items: None,
        max_items: None,
    });
    assert_eq!(convert_node(&n).unwrap(), "z.array(z.number())");
}

#[test]
fn array_without_items_fails() {
    let mut n = typed(SchemaType::Array);
    n.array = Some(ArrayShape { items: None, min_items: None, max_items: None });
    assert_eq!(convert_node(&n), None);
}

#[test]
fn multiple_instance_types_union() {
    let mut n = SchemaNode::empty();
    n.instance_type = Some(TypeSet::Many(vec![SchemaType::Str, SchemaType::Null]));
    assert_eq!(convert_node(&n).unwrap(), "z.union([z.string(), z.null(), ])");
}

#[test]
fn multiple_instance_types_fail_when_one_fails() {
    let mut n = SchemaNode::empty();
    // the object category without an object shape cannot be expressed
    n.instance_type = Some(TypeSet::Many(vec![SchemaType::Str, SchemaType::Object]));
    assert_eq!(convert_node(&n), None);
}

#[test]
fn featureless_node_fails() {
    assert_eq!(convert_node(&SchemaNode::empty()), None);
}

#[test]
fn reference_beats_other_attributes() {
    let mut n = string_node();
    n.reference = Some("#/definitions/Foo".to_string());
    n.enum_values = Some(vec!["1".to_string()]);
    assert_eq!(convert_node(&n).unwrap(), "z.lazy(() => Foo)");
}

#[test]
fn enum_beats_instance_type() {
    let mut n = string_node();
    n.enum_values = Some(vec!["\"x\"".to_string()]);
    assert_eq!(convert_node(&n).unwrap(), "z.literal(\"x\")");
}

fn tagged_branch(tag_field: &str, tag: &str, extra: (&str, SchemaNode)) -> SchemaNode {
    let mut tag_node = string_node();
    tag_node.const_value = Some(format!("\"{}\"", tag));
    object_node(vec![(tag_field, tag_node), extra])
}

#[test]
fn one_of_with_shared_type_field_is_discriminated_union() {
    let mut n = SchemaNode::empty();
    n.one_of = Some(vec![
        tagged_branch("type", "a", ("x", number_node())),
        tagged_branch("type", "b", ("y", string_node())),
    ]);
    assert_eq!(
        convert_node(&n).unwrap(),
        "z.discriminatedUnion('type', [z.object({type: z.literal(\"a\"), x: z.number(), }), \
         z.object({type: z.literal(\"b\"), y: z.string(), }), ])"
    );
}

#[test]
fn one_of_prefers_kind_only_without_type() {
    let mut n = SchemaNode::empty();
    n.one_of = Some(vec![
        tagged_branch("kind", "a", ("x", number_node())),
        tagged_branch("kind", "b", ("y", string_node())),
    ]);
    let out = convert_node(&n).unwrap();
    assert!(out.starts_with("z.discriminatedUnion('kind', ["));
}

#[test]
fn one_of_falls_back_to_first_shared_field_in_declaration_order() {
    let mut n = SchemaNode::empty();
    n.one_of = Some(vec![
        object_node(vec![("b", string_node()), ("a", number_node())]),
        object_node(vec![("a", string_node()), ("b", number_node())]),
    ]);
    let out = convert_node(&n).unwrap();
    assert!(out.starts_with("z.discriminatedUnion('b', ["), "got: {out}");
}

#[test]
fn one_of_without_shared_field_is_plain_union() {
    let mut n = SchemaNode::empty();
    n.one_of = Some(vec![string_node(), number_node()]);
    assert_eq!(convert_node(&n).unwrap(), "z.union([z.string(), z.number(), ])");
}

#[test]
fn one_of_skips_unconvertible_branches() {
    let mut n = SchemaNode::empty();
    n.one_of = Some(vec![string_node(), SchemaNode::empty()]);
    assert_eq!(convert_node(&n).unwrap(), "z.union([z.string(), ])");
}

#[test]
fn one_of_shared_field_ignores_non_object_branches() {
    let mut n = SchemaNode::empty();
    n.one_of = Some(vec![
        tagged_branch("type", "a", ("x", number_node())),
        string_node(),
    ]);
    let out = convert_node(&n).unwrap();
    assert!(out.starts_with("z.union(["), "got: {out}");
}

#[test]
fn enum_with_no_values_is_empty_alternatives() {
    let mut n = SchemaNode::empty();
    n.enum_values = Some(Vec::new());
    assert_eq!(convert_node(&n).unwrap(), "z.enum([])");
}

#[test]
fn reference_prefix_is_stripped_only_at_the_start() {
    let mut n = SchemaNode::empty();
    n.reference = Some("xx#/definitions/Foo".to_string());
    assert_eq!(convert_node(&n).unwrap(), "z.lazy(() => xx#/definitions/Foo)");
}

#[test]
fn nested_shapes_convert_recursively() {
    let mut reference = SchemaNode::empty();
    reference.reference = Some("#/definitions/Item".to_string());
    let mut list = typed(SchemaType::Array);
    list.array = Some(ArrayShape {
        items: Some(ItemSchemas::Single(Box::new(reference))),
        min_items: None,
        max_items: None,
    });
    let n = object_node(vec![("items", list)]);
    assert_eq!(
        convert_node(&n).unwrap(),
        "z.object({items: z.array(z.lazy(() => Item)), })"
    );
}
