//! The schema document data model: one document holds a root node and a
//! definition table; a node is a structural description of one type.
use vstd::prelude::*;

verus! {

/// The primitive category a schema node may be tagged with.
pub enum SchemaType {
    Null,
    Boolean,
    Object,
    Array,
    Number,
    Str,
    Integer,
}

/// A node's `instance_type`: one category, or an ordered set of categories
/// denoting an implicit union over them.
pub enum TypeSet {
    Single(SchemaType),
    Many(Vec<SchemaType>),
}

/// The item schema(s) of an array-typed node: one child (homogeneous array)
/// or an ordered sequence of children (positional shapes).
pub enum ItemSchemas {
    Single(Box<SchemaNode>),
    Many(Vec<SchemaNode>),
}

/// Shape payload of an object-typed node.
pub struct ObjectShape {
    /// Declared properties, in declaration order.
    pub properties: Vec<(String, SchemaNode)>,
    /// The "additional properties" child; with no declared properties it
    /// signals a homogeneous key-to-value map.
    pub additional_properties: Option<Box<SchemaNode>>,
}

/// Shape payload of an array-typed node.
pub struct ArrayShape {
    pub items: Option<ItemSchemas>,
    pub min_items: Option<u32>,
    pub max_items: Option<u32>,
}

/// One structural schema node. All fields are optional; classification
/// resolves overlap in a fixed order (reference, then enum, then `one_of`,
/// then `instance_type`).
///
/// Literal values (`const_value`, `enum_values`) are carried as their
/// rendered JSON text, produced by whatever built the document.
pub struct SchemaNode {
    pub title: Option<String>,
    pub reference: Option<String>,
    pub const_value: Option<String>,
    pub enum_values: Option<Vec<String>>,
    pub one_of: Option<Vec<SchemaNode>>,
    pub instance_type: Option<TypeSet>,
    pub format: Option<String>,
    pub object: Option<ObjectShape>,
    pub array: Option<ArrayShape>,
}

/// A schema document: a root node plus a definition table keyed by name,
/// kept in a deterministic (insertion) order.
pub struct SchemaDocument {
    pub root: SchemaNode,
    pub definitions: Vec<(String, SchemaNode)>,
}

impl SchemaNode {
    /// The node with every field absent.
    pub open spec fn spec_empty() -> SchemaNode {
        SchemaNode {
            title: None,
            reference: None,
            const_value: None,
            enum_values: None,
            one_of: None,
            instance_type: None,
            format: None,
            object: None,
            array: None,
        }
    }

    /// Build the node with every field absent.
    pub fn empty() -> (n: SchemaNode)
        ensures
            n == SchemaNode::spec_empty(),
    {
        SchemaNode {
            title: None,
            reference: None,
            const_value: None,
            enum_values: None,
            one_of: None,
            instance_type: None,
            format: None,
            object: None,
            array: None,
        }
    }
}

/// Keys of a named-entry sequence are pairwise distinct.
pub open spec fn unique_keys<V>(s: Seq<(String, V)>) -> bool {
    forall|i: int, j: int| 0 <= i < j < s.len() ==> s[i].0@ != s[j].0@
}

} // verus!
