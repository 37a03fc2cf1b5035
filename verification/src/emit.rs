//! Classification and emission: decide which validator-construction
//! expression a schema node denotes and state its exact text.
use vstd::prelude::*;

use crate::schema::ArrayShape;
use crate::schema::ItemSchemas;
use crate::schema::ObjectShape;
use crate::schema::SchemaNode;
use crate::schema::SchemaType;
use crate::schema::TypeSet;

verus! {

/// Strip the document-local path prefix from a reference string, if present.
pub open spec fn strip_definitions_prefix(r: Seq<char>) -> Seq<char> {
    if r.len() >= 14 && r.subrange(0, 14) == "#/definitions/"@ {
        r.subrange(14, r.len() as int)
    } else {
        r
    }
}

/// The single-literal-value expression for an already rendered literal.
pub open spec fn literal_expr(text: Seq<char>) -> Seq<char> {
    "z.literal("@ + text + ")"@
}

/// The comma-separated body of an enumerated-alternatives expression.
pub open spec fn enum_items(vs: Seq<String>) -> Seq<char>
    decreases vs,
{
    if vs.len() == 0 {
        Seq::<char>::empty()
    } else {
        enum_items(vs.drop_last()) + vs.last()@ + ", "@
    }
}

/// Does some declared property of this node's object shape carry `name`?
/// Only nodes tagged with exactly the single object category contribute
/// their property names; every other node contributes none.
pub open spec fn branch_has_prop(b: SchemaNode, name: Seq<char>) -> bool {
    match b.instance_type {
        Some(TypeSet::Single(SchemaType::Object)) => match b.object {
            Some(shape) => exists|i: int|
                0 <= i < shape.properties@.len() && shape.properties@[i].0@ == name,
            None => false,
        },
        _ => false,
    }
}

/// Is `name` a discriminant candidate: declared by the first branch and by
/// every other branch as well? The intersection is anchored on the first
/// branch deliberately.
pub open spec fn is_candidate(branches: Seq<SchemaNode>, name: Seq<char>) -> bool {
    &&& branches.len() > 0
    &&& branch_has_prop(branches[0], name)
    &&& forall|j: int| 1 <= j < branches.len() ==> branch_has_prop(branches[j], name)
}

/// The first candidate at or after position `i` of the first branch's
/// property list, in declaration order.
pub open spec fn first_candidate_from(
    branches: Seq<SchemaNode>,
    props: Seq<(String, SchemaNode)>,
    i: int,
) -> Option<Seq<char>>
    decreases props.len() - i,
{
    if i < 0 || i >= props.len() {
        None
    } else if is_candidate(branches, props[i].0@) {
        Some(props[i].0@)
    } else {
        first_candidate_from(branches, props, i + 1)
    }
}

/// The inferred union discriminant: a field declared by every branch,
/// preferring `type`, then `kind`, then the first remaining candidate in
/// the first branch's declaration order; `None` when no candidate exists.
pub open spec fn infer_discriminant(branches: Seq<SchemaNode>) -> Option<Seq<char>> {
    if branches.len() == 0 {
        None
    } else if is_candidate(branches, "type"@) {
        Some("type"@)
    } else if is_candidate(branches, "kind"@) {
        Some("kind"@)
    } else {
        match branches[0].instance_type {
            Some(TypeSet::Single(SchemaType::Object)) => match branches[0].object {
                Some(shape) => first_candidate_from(branches, shape.properties@, 0),
                None => None,
            },
            _ => None,
        }
    }
}

/// The expression a node converts to, or `None` when the node cannot be
/// expressed. Resolution order: reference, then enumerated literals, then
/// `one_of` union, then `instance_type` dispatch.
pub open spec fn emit_node(n: SchemaNode) -> Option<Seq<char>>
    decreases n, 3int, 0int,
{
    if n.reference is Some {
        Some("z.lazy(() => "@ + strip_definitions_prefix(n.reference->Some_0@) + ")"@)
    } else if n.enum_values is Some {
        let vs = n.enum_values->Some_0;
        if vs@.len() == 1 {
            Some(literal_expr(vs@[0]@))
        } else {
            Some("z.enum(["@ + enum_items(vs@) + "])"@)
        }
    } else if n.one_of is Some {
        let bs = n.one_of->Some_0@;
        let head = match infer_discriminant(bs) {
            Some(f) => "z.discriminatedUnion('"@ + f + "', ["@,
            None => "z.union(["@,
        };
        Some(head + skip_list(bs) + "])"@)
    } else {
        match n.instance_type {
            Some(ts) => emit_typed(ts, n),
            None => None,
        }
    }
}

/// The expression for a node dispatched on its `instance_type`: a single
/// category converts directly; a category sequence becomes a union whose
/// branches are the categories converted independently, and one
/// inexpressible category fails the whole node.
pub open spec fn emit_typed(ts: TypeSet, n: SchemaNode) -> Option<Seq<char>>
    decreases n, 2int, 0int,
{
    match ts {
        TypeSet::Single(t) => emit_single(t, n),
        TypeSet::Many(many) => match emit_multi(many@, n) {
            Some(body) => Some("z.union(["@ + body + "])"@),
            None => None,
        },
    }
}

/// The comma-separated union body over a branch sequence: each branch that
/// converts contributes its expression, branches that do not are skipped.
pub open spec fn skip_list(s: Seq<SchemaNode>) -> Seq<char>
    decreases s, 0int, 0int,
{
    if s.len() == 0 {
        Seq::<char>::empty()
    } else {
        skip_list(s.drop_last()) + match emit_node(s.last()) {
            Some(t) => t + ", "@,
            None => Seq::<char>::empty(),
        }
    }
}

/// The expression for a node tagged with one single category. A present
/// `const_value` short-circuits to a literal expression.
pub open spec fn emit_single(t: SchemaType, n: SchemaNode) -> Option<Seq<char>>
    decreases n, 1int, 0int,
{
    if n.const_value is Some {
        Some(literal_expr(n.const_value->Some_0@))
    } else {
        match t {
            SchemaType::Null => Some("z.null()"@),
            SchemaType::Boolean => Some("z.boolean()"@),
            SchemaType::Object => match n.object {
                Some(shape) => emit_object(shape),
                None => None,
            },
            SchemaType::Array => match n.array {
                Some(shape) => emit_array(shape),
                None => None,
            },
            SchemaType::Number => Some("z.number()"@),
            SchemaType::Str => if n.format is Some && n.format->Some_0@ == "date-time"@ {
                Some("z.coerce.date()"@)
            } else {
                Some("z.string()"@)
            },
            SchemaType::Integer => Some("z.number().int()"@),
        }
    }
}

/// The comma-separated union body over a category sequence, each category
/// converted against the same node; one inexpressible category fails the
/// whole body.
pub open spec fn emit_multi(ts: Seq<SchemaType>, n: SchemaNode) -> Option<Seq<char>>
    decreases n, 1int, ts.len() + 1,
{
    if ts.len() == 0 {
        Some(Seq::<char>::empty())
    } else {
        match emit_multi(ts.drop_last(), n) {
            None => None,
            Some(acc) => match emit_single(ts.last(), n) {
                None => None,
                Some(t) => Some(acc + t + ", "@),
            },
        }
    }
}

/// The expression for an object-typed node: a homogeneous key-to-value map
/// when an additional-properties child stands alone, else a fixed-shape
/// record over the declared properties.
pub open spec fn emit_object(shape: ObjectShape) -> Option<Seq<char>>
    decreases shape, 1int, 0int,
{
    if shape.additional_properties is Some && shape.properties@.len() == 0 {
        match emit_node(*shape.additional_properties->Some_0) {
            Some(t) => Some("z.record("@ + t + ")"@),
            None => None,
        }
    } else {
        match record_fields(shape.properties@) {
            Some(body) => Some("z.object({"@ + body + "})"@),
            None => None,
        }
    }
}

/// The field list of a record expression, in declaration order; one
/// inexpressible property fails the whole record.
pub open spec fn record_fields(props: Seq<(String, SchemaNode)>) -> Option<Seq<char>>
    decreases props, 0int, 0int,
{
    if props.len() == 0 {
        Some(Seq::<char>::empty())
    } else {
        match record_fields(props.drop_last()) {
            None => None,
            Some(acc) => match emit_node(props.last().1) {
                None => None,
                Some(t) => Some(acc + props.last().0@ + ": "@ + t + ", "@),
            },
        }
    }
}

/// The expression for an array-typed node: a fixed-length tuple when equal
/// length bounds are both present, else a homogeneous array; no item schema
/// at all makes the node inexpressible.
pub open spec fn emit_array(shape: ArrayShape) -> Option<Seq<char>>
    decreases shape, 1int, 0int,
{
    match shape.items {
        None => None,
        Some(items) => if shape.min_items is Some && shape.min_items == shape.max_items {
            emit_items(items, true)
        } else {
            match emit_items(items, false) {
                Some(t) => Some("z.array("@ + t + ")"@),
                None => None,
            }
        },
    }
}

/// The expression for an array's item schema(s). A single schema, or a
/// sequence of exactly one, converts directly; a longer sequence becomes a
/// tuple or union expression over the branches, skipping inexpressible ones.
pub open spec fn emit_items(items: ItemSchemas, tuple_mode: bool) -> Option<Seq<char>>
    decreases items, 1int, 0int,
{
    match items {
        ItemSchemas::Single(child) => emit_node(*child),
        ItemSchemas::Many(children) => if children@.len() == 1 {
            emit_node(children@[0])
        } else {
            let word = if tuple_mode {
                "tuple"@
            } else {
                "union"@
            };
            Some("z."@ + word + "(["@ + skip_list(children@) + "])"@)
        },
    }
}

/// The view of an optional produced text.
pub open spec fn opt_text(r: Option<String>) -> Option<Seq<char>> {
    match r {
        Some(s) => Some(s@),
        None => None,
    }
}

/// Once a prefix of a property list fails to convert, the whole list does.
pub proof fn lemma_record_fields_none_extends(s: Seq<(String, SchemaNode)>, k: int)
    requires
        0 <= k <= s.len(),
        record_fields(s.take(k)) is None,
    ensures
        record_fields(s) is None,
    decreases s.len(),
{
    if k == s.len() {
        assert(s.take(k) =~= s);
    } else {
        assert(s.drop_last().take(k) =~= s.take(k));
        lemma_record_fields_none_extends(s.drop_last(), k);
    }
}

/// Once a prefix of a category list fails to convert, the whole list does.
pub proof fn lemma_emit_multi_none_extends(ts: Seq<SchemaType>, n: SchemaNode, k: int)
    requires
        0 <= k <= ts.len(),
        emit_multi(ts.take(k), n) is None,
    ensures
        emit_multi(ts, n) is None,
    decreases ts.len(),
{
    if k == ts.len() {
        assert(ts.take(k) =~= ts);
    } else {
        assert(ts.drop_last().take(k) =~= ts.take(k));
        lemma_emit_multi_none_extends(ts.drop_last(), n, k);
    }
}

} // verus!
