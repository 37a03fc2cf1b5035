//! The executable conversion engine: each function returns exactly the text
//! that the emission specification states, or `None` where the node is
//! inexpressible.
use vstd::prelude::*;
use vstd::string::*;

use crate::emit::emit_array;
use crate::emit::emit_items;
use crate::emit::emit_multi;
use crate::emit::emit_node;
use crate::emit::emit_object;
use crate::emit::emit_single;
use crate::emit::emit_typed;
use crate::emit::enum_items;
use crate::emit::first_candidate_from;
use crate::emit::infer_discriminant;
use crate::emit::is_candidate;
use crate::emit::branch_has_prop;
use crate::emit::lemma_emit_multi_none_extends;
use crate::emit::lemma_record_fields_none_extends;
use crate::emit::literal_expr;
use crate::emit::opt_text;
use crate::emit::record_fields;
use crate::emit::skip_list;
use crate::emit::strip_definitions_prefix;
use crate::schema::ArrayShape;
use crate::schema::ItemSchemas;
use crate::schema::ObjectShape;
use crate::schema::SchemaNode;
use crate::schema::SchemaType;
use crate::schema::TypeSet;

verus! {

/// Does this string equal the given literal, character for character?
fn str_eq(s: &String, lit: &str) -> (r: bool)
    ensures
        r == (s@ == lit@),
{
    let other: String = lit.to_owned();
    *s == other
}

/// Convert one schema node, resolving in order: reference, enumerated
/// literals, `one_of` union, `instance_type` dispatch; `None` when the node
/// cannot be expressed.
pub fn convert_schema_object_to_zod(schema: &SchemaNode) -> (r: Option<String>)
    ensures
        opt_text(r) == emit_node(*schema),
    decreases *schema, 4int, 0int,
{
    if let Some(reference) = &schema.reference {
        let mut rv = String::new();
        rv.append("z.lazy(() => ");
        let len = reference.as_str().unicode_len();
        let mut stripped = false;
        if len >= 14 {
            let head = reference.as_str().substring_char(0, 14);
            if str_eq(&head.to_owned(), "#/definitions/") {
                rv.append(reference.as_str().substring_char(14, len));
                stripped = true;
            }
        }
        if !stripped {
            rv.append(reference.as_str());
        }
        rv.append(")");
        proof {
            assert(rv@ =~= "z.lazy(() => "@ + strip_definitions_prefix(reference@) + ")"@);
        }
        return Some(rv);
    }
    if let Some(enum_values) = &schema.enum_values {
        if enum_values.len() == 1 {
            let mut rv = String::new();
            rv.append("z.literal(");
            rv.append(enum_values[0].as_str());
            rv.append(")");
            proof {
                assert(rv@ =~= literal_expr(enum_values@[0]@));
            }
            return Some(rv);
        }
        let mut rv = String::new();
        rv.append("z.enum([");
        let mut i: usize = 0;
        while i < enum_values.len()
            invariant
                i <= enum_values@.len(),
                rv@ == "z.enum(["@ + enum_items(enum_values@.take(i as int)),
            decreases enum_values@.len() - i,
        {
            rv.append(enum_values[i].as_str());
            rv.append(", ");
            proof {
                let pre = enum_values@.take(i as int);
                let post = enum_values@.take(i as int + 1);
                assert(post.drop_last() =~= pre);
                assert(post.last() == enum_values@[i as int]);
                assert(rv@ =~= "z.enum(["@ + enum_items(post));
            }
            i = i + 1;
        }
        rv.append("])");
        proof {
            assert(enum_values@.take(enum_values@.len() as int) =~= enum_values@);
            assert(rv@ =~= "z.enum(["@ + enum_items(enum_values@) + "])"@);
        }
        return Some(rv);
    }
    if let Some(one_of) = &schema.one_of {
        let mut rv = String::new();
        match all_schemas_share_a_field(one_of) {
            Some(field) => {
                rv.append("z.discriminatedUnion('");
                rv.append(field.as_str());
                rv.append("', [");
                proof {
                    assert(rv@ =~= "z.discriminatedUnion('"@ + field@ + "', ["@);
                }
            },
            None => {
                rv.append("z.union([");
                proof {
                    assert(rv@ =~= "z.union(["@);
                }
            },
        }
        let ghost head = rv@;
        let mut i: usize = 0;
        while i < one_of.len()
            invariant
                i <= one_of@.len(),
                rv@ == head + skip_list(one_of@.take(i as int)),
                head == match infer_discriminant(one_of@) {
                    Some(f) => "z.discriminatedUnion('"@ + f + "', ["@,
                    None => "z.union(["@,
                },
                schema.one_of == Some(*one_of),
            decreases one_of@.len() - i,
        {
            proof {
                assert(decreases_to!(*schema => schema.one_of));
                assert(decreases_to!(schema.one_of => schema.one_of->Some_0));
                assert(decreases_to!(schema.one_of->Some_0 => one_of@));
                assert(decreases_to!(one_of@ => one_of@[i as int]));
                assert(decreases_to!(*schema => one_of@[i as int]));
            }
            match convert_schema_object_to_zod(&one_of[i]) {
                Some(generated) => {
                    rv.append(generated.as_str());
                    rv.append(", ");
                },
                None => {},
            }
            proof {
                let pre = one_of@.take(i as int);
                let post = one_of@.take(i as int + 1);
                assert(post.drop_last() =~= pre);
                assert(post.last() == one_of@[i as int]);
                assert(rv@ =~= head + skip_list(post));
            }
            i = i + 1;
        }
        rv.append("])");
        proof {
            assert(one_of@.take(one_of@.len() as int) =~= one_of@);
            assert(rv@ =~= head + skip_list(one_of@) + "])"@);
        }
        return Some(rv);
    }
    match &schema.instance_type {
        Some(instance_type) => convert_schema_type_to_zod(instance_type, schema),
        None => None,
    }
}

/// Dispatch a typed node on the shape of its `instance_type`.
pub fn convert_schema_type_to_zod(instance_type: &TypeSet, schema: &SchemaNode) -> (r: Option<
    String,
>)
    ensures
        opt_text(r) == emit_typed(*instance_type, *schema),
    decreases *schema, 3int, 0int,
{
    match instance_type {
        TypeSet::Single(single_type) => convert_single_instance_type_schema_to_zod(
            single_type,
            schema,
        ),
        TypeSet::Many(multiple_types) => convert_union_type_schema_to_zod(multiple_types, schema),
    }
}

/// Convert a node tagged with one single category; a present `const_value`
/// short-circuits to a literal expression.
pub fn convert_single_instance_type_schema_to_zod(
    instance_type: &SchemaType,
    schema: &SchemaNode,
) -> (r: Option<String>)
    ensures
        opt_text(r) == emit_single(*instance_type, *schema),
    decreases *schema, 1int, 0int,
{
    if let Some(literal_value) = &schema.const_value {
        let mut rv = String::new();
        rv.append("z.literal(");
        rv.append(literal_value.as_str());
        rv.append(")");
        proof {
            assert(rv@ =~= literal_expr(literal_value@));
        }
        return Some(rv);
    }
    match instance_type {
        SchemaType::Null => Some("z.null()".to_owned()),
        SchemaType::Boolean => Some("z.boolean()".to_owned()),
        SchemaType::Object => match &schema.object {
            Some(shape) => convert_object_type_to_zod(shape),
            None => None,
        },
        SchemaType::Array => match &schema.array {
            Some(shape) => convert_array_type_to_zod(shape),
            None => None,
        },
        SchemaType::Number => Some("z.number()".to_owned()),
        SchemaType::Str => {
            if let Some(format) = &schema.format {
                if str_eq(format, "date-time") {
                    return Some("z.coerce.date()".to_owned());
                }
            }
            Some("z.string()".to_owned())
        },
        SchemaType::Integer => Some("z.number().int()".to_owned()),
    }
}

/// Convert an array-typed node's shape: a fixed-length tuple when equal
/// length bounds are both present, else a homogeneous array.
pub fn convert_array_type_to_zod(array_type: &ArrayShape) -> (r: Option<String>)
    ensures
        opt_text(r) == emit_array(*array_type),
    decreases *array_type, 1int, 0int,
{
    let items = match &array_type.items {
        Some(items) => items,
        None => {
            return None;
        },
    };
    let equal_bounds = match (&array_type.min_items, &array_type.max_items) {
        (Some(lo), Some(hi)) => *lo == *hi,
        _ => false,
    };
    if equal_bounds {
        convert_schema_or_ref_to_zod(items, true)
    } else {
        let mut rv = String::new();
        rv.append("z.array(");
        let generated = match convert_schema_or_ref_to_zod(items, false) {
            Some(generated) => generated,
            None => {
                return None;
            },
        };
        rv.append(generated.as_str());
        rv.append(")");
        proof {
            assert(rv@ =~= "z.array("@ + generated@ + ")"@);
        }
        Some(rv)
    }
}

/// Convert an array's item schema(s): one schema, or a sequence of exactly
/// one, converts directly; a longer sequence becomes a tuple or union
/// expression over the branches, skipping inexpressible ones.
pub fn convert_schema_or_ref_to_zod(schema: &ItemSchemas, tuple_mode: bool) -> (r: Option<String>)
    ensures
        opt_text(r) == emit_items(*schema, tuple_mode),
    decreases *schema, 1int, 0int,
{
    match schema {
        ItemSchemas::Single(schema_or_ref) => convert_schema_object_to_zod(&**schema_or_ref),
        ItemSchemas::Many(schemas) => {
            if schemas.len() == 1 {
                return convert_schema_object_to_zod(&schemas[0]);
            }
            let mut rv = String::new();
            rv.append("z.");
            if tuple_mode {
                rv.append("tuple");
            } else {
                rv.append("union");
            }
            rv.append("([");
            let ghost word: Seq<char> = if tuple_mode {
                "tuple"@
            } else {
                "union"@
            };
            let ghost head = "z."@ + word + "(["@;
            proof {
                assert(rv@ =~= head);
            }
            let mut i: usize = 0;
            while i < schemas.len()
                invariant
                    i <= schemas@.len(),
                    rv@ == head + skip_list(schemas@.take(i as int)),
                    *schema == ItemSchemas::Many(*schemas),
                decreases schemas@.len() - i,
            {
                proof {
                    assert(decreases_to!(*schema => schema->Many_0));
                    assert(decreases_to!(schema->Many_0 => schemas@));
                    assert(decreases_to!(schemas@ => schemas@[i as int]));
                    assert(decreases_to!(*schema => schemas@[i as int]));
                }
                match convert_schema_object_to_zod(&schemas[i]) {
                    Some(generated) => {
                        rv.append(generated.as_str());
                        rv.append(", ");
                    },
                    None => {},
                }
                proof {
                    let pre = schemas@.take(i as int);
                    let post = schemas@.take(i as int + 1);
                    assert(post.drop_last() =~= pre);
                    assert(post.last() == schemas@[i as int]);
                    assert(rv@ =~= head + skip_list(post));
                }
                i = i + 1;
            }
            rv.append("])");
            proof {
                assert(schemas@.take(schemas@.len() as int) =~= schemas@);
                assert(rv@ =~= head + skip_list(schemas@) + "])"@);
            }
            Some(rv)
        },
    }
}

/// Convert an object-typed node's shape: a homogeneous key-to-value map when
/// an additional-properties child stands alone, else a fixed-shape record
/// over the declared properties, failing when any property fails.
pub fn convert_object_type_to_zod(object_type: &ObjectShape) -> (r: Option<String>)
    ensures
        opt_text(r) == emit_object(*object_type),
    decreases *object_type, 1int, 0int,
{
    if object_type.properties.len() == 0 {
        if let Some(additional_properties) = &object_type.additional_properties {
            let generated = match convert_schema_object_to_zod(&**additional_properties) {
                Some(generated) => generated,
                None => {
                    return None;
                },
            };
            let mut rv = String::new();
            rv.append("z.record(");
            rv.append(generated.as_str());
            rv.append(")");
            proof {
                assert(rv@ =~= "z.record("@ + generated@ + ")"@);
            }
            return Some(rv);
        }
    }
    let mut rv = String::new();
    rv.append("z.object({");
    let mut i: usize = 0;
    while i < object_type.properties.len()
        invariant
            i <= object_type.properties@.len(),
            record_fields(object_type.properties@.take(i as int)) is Some,
            rv@ == "z.object({"@ + record_fields(object_type.properties@.take(i as int))->Some_0,
        decreases object_type.properties@.len() - i,
    {
        proof {
            assert(decreases_to!(*object_type => object_type.properties@));
            assert(decreases_to!(object_type.properties@ => object_type.properties@[i as int]));
            assert(decreases_to!(object_type.properties@[i as int]
                => object_type.properties@[i as int].1));
            assert(decreases_to!(*object_type => object_type.properties@[i as int].1));
        }
        let property_type = match convert_schema_object_to_zod(&object_type.properties[i].1) {
            Some(property_type) => property_type,
            None => {
                proof {
                    let post = object_type.properties@.take(i as int + 1);
                    assert(post.drop_last() =~= object_type.properties@.take(i as int));
                    assert(post.last() == object_type.properties@[i as int]);
                    assert(record_fields(post) is None);
                    lemma_record_fields_none_extends(object_type.properties@, i as int + 1);
                }
                return None;
            },
        };
        rv.append(object_type.properties[i].0.as_str());
        rv.append(": ");
        rv.append(property_type.as_str());
        rv.append(", ");
        proof {
            let pre = object_type.properties@.take(i as int);
            let post = object_type.properties@.take(i as int + 1);
            assert(post.drop_last() =~= pre);
            assert(post.last() == object_type.properties@[i as int]);
            assert(rv@ =~= "z.object({"@ + record_fields(post)->Some_0);
        }
        i = i + 1;
    }
    rv.append("})");
    proof {
        assert(object_type.properties@.take(object_type.properties@.len() as int)
            =~= object_type.properties@);
        assert(rv@ =~= "z.object({"@ + record_fields(object_type.properties@)->Some_0 + "})"@);
    }
    Some(rv)
}

/// Convert a node tagged with several categories into a union over the
/// categories, each converted against the same node; one inexpressible
/// category fails the whole node.
pub fn convert_union_type_schema_to_zod(
    instance_types: &Vec<SchemaType>,
    schema: &SchemaNode,
) -> (r: Option<String>)
    ensures
        opt_text(r) == match emit_multi(instance_types@, *schema) {
            Some(body) => Some("z.union(["@ + body + "])"@),
            None => None,
        },
    decreases *schema, 2int, 0int,
{
    let mut rv = String::new();
    rv.append("z.union([");
    let mut i: usize = 0;
    while i < instance_types.len()
        invariant
            i <= instance_types@.len(),
            emit_multi(instance_types@.take(i as int), *schema) is Some,
            rv@ == "z.union(["@ + emit_multi(instance_types@.take(i as int), *schema)->Some_0,
        decreases instance_types@.len() - i,
    {
        let generated = match convert_single_instance_type_schema_to_zod(
            &instance_types[i],
            schema,
        ) {
            Some(generated) => generated,
            None => {
                proof {
                    let post = instance_types@.take(i as int + 1);
                    assert(post.drop_last() =~= instance_types@.take(i as int));
                    assert(post.last() == instance_types@[i as int]);
                    assert(emit_multi(post, *schema) is None);
                    lemma_emit_multi_none_extends(instance_types@, *schema, i as int + 1);
                }
                return None;
            },
        };
        rv.append(generated.as_str());
        rv.append(", ");
        proof {
            let pre = instance_types@.take(i as int);
            let post = instance_types@.take(i as int + 1);
            assert(post.drop_last() =~= pre);
            assert(post.last() == instance_types@[i as int]);
            assert(rv@ =~= "z.union(["@ + emit_multi(post, *schema)->Some_0);
        }
        i = i + 1;
    }
    rv.append("])");
    proof {
        assert(instance_types@.take(instance_types@.len() as int) =~= instance_types@);
        assert(rv@ =~= "z.union(["@ + emit_multi(instance_types@, *schema)->Some_0 + "])"@);
    }
    Some(rv)
}

/// Does this branch declare a property named `name`? Only a branch tagged
/// with exactly the single object category contributes its property names.
fn props_contain(b: &SchemaNode, name: &str) -> (r: bool)
    ensures
        r == branch_has_prop(*b, name@),
{
    match &b.instance_type {
        Some(TypeSet::Single(SchemaType::Object)) => match &b.object {
            Some(shape) => {
                let mut i: usize = 0;
                while i < shape.properties.len()
                    invariant
                        i <= shape.properties@.len(),
                        b.instance_type matches Some(TypeSet::Single(SchemaType::Object)),
                        b.object == Some(*shape),
                        forall|k: int| 0 <= k < i ==> shape.properties@[k].0@ != name@,
                    decreases shape.properties@.len() - i,
                {
                    if str_eq(&shape.properties[i].0, name) {
                        proof {
                            let props = b.object->Some_0.properties@;
                            assert(props[i as int].0@ == name@);
                            assert(branch_has_prop(*b, name@));
                        }
                        return true;
                    }
                    i = i + 1;
                }
                false
            },
            None => false,
        },
        _ => false,
    }
}

/// Is `name` declared by the first branch and by every other branch?
fn shares_field(any_of: &Vec<SchemaNode>, name: &str) -> (r: bool)
    requires
        any_of@.len() > 0,
    ensures
        r == is_candidate(any_of@, name@),
{
    if !props_contain(&any_of[0], name) {
        return false;
    }
    let mut j: usize = 1;
    while j < any_of.len()
        invariant
            1 <= j <= any_of@.len(),
            branch_has_prop(any_of@[0], name@),
            forall|k: int| 1 <= k < j ==> branch_has_prop(any_of@[k], name@),
        decreases any_of@.len() - j,
    {
        if !props_contain(&any_of[j], name) {
            return false;
        }
        j = j + 1;
    }
    true
}

/// Infer a union discriminant: a field declared by every branch, preferring
/// `type`, then `kind`, then the first remaining candidate in the first
/// branch's declaration order; `None` when no candidate exists.
pub fn all_schemas_share_a_field(any_of: &Vec<SchemaNode>) -> (r: Option<String>)
    ensures
        opt_text(r) == infer_discriminant(any_of@),
{
    if any_of.len() == 0 {
        return None;
    }
    if shares_field(any_of, "type") {
        return Some("type".to_owned());
    }
    if shares_field(any_of, "kind") {
        return Some("kind".to_owned());
    }
    match &any_of[0].instance_type {
        Some(TypeSet::Single(SchemaType::Object)) => match &any_of[0].object {
            Some(shape) => {
                let mut i: usize = 0;
                while i < shape.properties.len()
                    invariant
                        i <= shape.properties@.len(),
                        any_of@.len() > 0,
                        any_of@[0].instance_type matches Some(TypeSet::Single(SchemaType::Object)),
                        any_of@[0].object == Some(*shape),
                        !is_candidate(any_of@, "type"@),
                        !is_candidate(any_of@, "kind"@),
                        first_candidate_from(any_of@, shape.properties@, 0)
                            == first_candidate_from(any_of@, shape.properties@, i as int),
                    decreases shape.properties@.len() - i,
                {
                    if shares_field(any_of, shape.properties[i].0.as_str()) {
                        proof {
                            assert(is_candidate(any_of@, shape.properties@[i as int].0@));
                            assert(first_candidate_from(any_of@, shape.properties@, i as int)
                                == Some(shape.properties@[i as int].0@));
                            assert(infer_discriminant(any_of@)
                                == Some(shape.properties@[i as int].0@));
                        }
                        return Some(shape.properties[i].0.clone());
                    }
                    i = i + 1;
                }
                None
            },
            None => None,
        },
        _ => None,
    }
}

} // verus!
