//! Laws relating the entry points: how merge order matters, what an
//! untitled document contributes, which names a conversion result binds,
//! and how a union discriminant is preferred.
use vstd::prelude::*;

use crate::api::converted_map;
use crate::api::block_text;
use crate::api::merge_step;
use crate::api::merged_map;
use crate::emit::emit_node;
use crate::emit::first_candidate_from;
use crate::emit::infer_discriminant;
use crate::emit::is_candidate;
use crate::schema::SchemaDocument;
use crate::schema::SchemaNode;
use crate::table::map_of;

verus! {

/// Everything one document contributes to a merge: nothing when its root
/// carries no title, else its definition table overlaid by its root under
/// the root's title.
pub open spec fn doc_contribution(d: SchemaDocument) -> Map<Seq<char>, SchemaNode> {
    match d.root.title {
        Some(t) => map_of(d.definitions@).insert(t@, d.root),
        None => Map::<Seq<char>, SchemaNode>::empty(),
    }
}

/// One merge step overlays the document's whole contribution.
pub proof fn lemma_merge_step_contribution(m: Map<Seq<char>, SchemaNode>, d: SchemaDocument)
    ensures
        merge_step(m, d) == m.union_prefer_right(doc_contribution(d)),
{
    if d.root.title is None {
        assert(merge_step(m, d) =~= m.union_prefer_right(doc_contribution(d)));
    }
}

/// Merging two documents whose contributions bind no common name yields
/// the same definition table in either order: merge order matters only
/// where names collide.
pub proof fn lemma_merge_order_insensitive(a: SchemaDocument, b: SchemaDocument)
    requires
        doc_contribution(a).dom().disjoint(doc_contribution(b).dom()),
    ensures
        merged_map(seq![a, b]) == merged_map(seq![b, a]),
{
    let ca = doc_contribution(a);
    let cb = doc_contribution(b);
    lemma_pair_merge(a, b);
    lemma_pair_merge(b, a);
    assert(ca.union_prefer_right(cb) =~= cb.union_prefer_right(ca));
}

/// Merging exactly two documents overlays their contributions in order.
pub proof fn lemma_pair_merge(a: SchemaDocument, b: SchemaDocument)
    ensures
        merged_map(seq![a, b]) == doc_contribution(a).union_prefer_right(doc_contribution(b)),
{
    let pair = seq![a, b];
    assert(pair.drop_last() =~= seq![a]);
    assert(seq![a].drop_last() =~= Seq::<SchemaDocument>::empty());
    lemma_merge_step_contribution(merged_map(Seq::<SchemaDocument>::empty()), a);
    lemma_merge_step_contribution(merged_map(seq![a]), b);
    assert(Map::<Seq<char>, SchemaNode>::empty().union_prefer_right(doc_contribution(a))
        =~= doc_contribution(a));
}

/// Where two titled documents collide on the same title, the later one in
/// the sequence wins: the merged table binds the title to the later root.
pub proof fn lemma_merge_later_title_wins(a: SchemaDocument, b: SchemaDocument, t: Seq<char>)
    requires
        a.root.title is Some,
        b.root.title is Some,
        a.root.title->Some_0@ == t,
        b.root.title->Some_0@ == t,
    ensures
        merged_map(seq![a, b]).dom().contains(t),
        merged_map(seq![a, b])[t] == b.root,
{
    lemma_pair_merge(a, b);
}

/// A document whose root carries no title contributes nothing to a merge.
pub proof fn lemma_untitled_root_contributes_nothing(docs: Seq<SchemaDocument>, d: SchemaDocument)
    requires
        d.root.title is None,
    ensures
        merged_map(docs.push(d)) == merged_map(docs),
{
    assert(docs.push(d).drop_last() =~= docs);
    assert(docs.push(d).last() == d);
}

/// A conversion result binds only names that stand in the definition table.
pub proof fn lemma_converted_map_dom(defs: Seq<(String, SchemaNode)>, k: Seq<char>)
    requires
        converted_map(defs).dom().contains(k),
    ensures
        exists|i: int| 0 <= i < defs.len() && defs[i].0@ == k,
    decreases defs.len(),
{
    if defs.len() > 0 {
        if defs.last().0@ == k {
            assert(defs[defs.len() - 1].0@ == k);
        } else {
            lemma_converted_map_dom(defs.drop_last(), k);
            let i = choose|i: int|
                0 <= i < defs.drop_last().len() && defs.drop_last()[i].0@ == k;
            assert(defs[i].0@ == k);
        }
    }
}

/// A definition whose node converts is bound in the conversion result to
/// exactly its two-statement block, provided no later entry reuses its name.
pub proof fn lemma_convertible_definition_included(defs: Seq<(String, SchemaNode)>, i: int)
    requires
        0 <= i < defs.len(),
        emit_node(defs[i].1) is Some,
        forall|j: int| i < j < defs.len() ==> defs[j].0@ != defs[i].0@,
    ensures
        converted_map(defs).dom().contains(defs[i].0@),
        converted_map(defs)[defs[i].0@] == block_text(defs[i].0@, emit_node(defs[i].1)->Some_0),
    decreases defs.len(),
{
    if i < defs.len() - 1 {
        assert(defs.drop_last()[i] == defs[i]);
        lemma_convertible_definition_included(defs.drop_last(), i);
    }
}

/// A definition whose node cannot be expressed is omitted from the
/// conversion result entirely, provided no other entry reuses its name.
pub proof fn lemma_unconvertible_definition_omitted(defs: Seq<(String, SchemaNode)>, i: int)
    requires
        0 <= i < defs.len(),
        emit_node(defs[i].1) is None,
        forall|j: int| 0 <= j < defs.len() && j != i ==> defs[j].0@ != defs[i].0@,
    ensures
        !converted_map(defs).dom().contains(defs[i].0@),
    decreases defs.len(),
{
    if converted_map(defs).dom().contains(defs[i].0@) {
        if i == defs.len() - 1 {
            lemma_converted_map_dom(defs.drop_last(), defs[i].0@);
            let j = choose|j: int|
                0 <= j < defs.drop_last().len() && defs.drop_last()[j].0@ == defs[i].0@;
            assert(defs[j].0@ == defs[i].0@);
        } else {
            assert(defs.drop_last()[i] == defs[i]);
            lemma_unconvertible_definition_omitted(defs.drop_last(), i);
        }
    }
}

/// A node carrying none of the classifying attributes (no reference, no
/// literal, no enumerated values, no union, no category tag) cannot be
/// expressed.
pub proof fn lemma_featureless_node_unconvertible(n: SchemaNode)
    requires
        n.reference is None,
        n.const_value is None,
        n.enum_values is None,
        n.one_of is None,
        n.instance_type is None,
    ensures
        emit_node(n) is None,
{
}

/// Discriminant preference: `type` wins whenever it is shared by every
/// branch; `kind` wins only where `type` is not; and whichever field is
/// inferred is indeed shared by every branch.
pub proof fn lemma_discriminant_preference(branches: Seq<SchemaNode>)
    ensures
        is_candidate(branches, "type"@) ==> infer_discriminant(branches) == Some("type"@),
        !is_candidate(branches, "type"@) && is_candidate(branches, "kind"@)
            ==> infer_discriminant(branches) == Some("kind"@),
        infer_discriminant(branches) is Some ==> is_candidate(
            branches,
            infer_discriminant(branches)->Some_0,
        ),
{
    if infer_discriminant(branches) is Some && !is_candidate(branches, "type"@)
        && !is_candidate(branches, "kind"@) {
        match branches[0].instance_type {
            Some(crate::schema::TypeSet::Single(crate::schema::SchemaType::Object)) => {
                match branches[0].object {
                    Some(shape) => {
                        lemma_first_candidate_is_candidate(branches, shape.properties@, 0);
                    },
                    None => {},
                }
            },
            _ => {},
        }
    }
}

/// A field found by the first-candidate scan is a candidate.
proof fn lemma_first_candidate_is_candidate(
    branches: Seq<SchemaNode>,
    props: Seq<(String, SchemaNode)>,
    i: int,
)
    requires
        first_candidate_from(branches, props, i) is Some,
    ensures
        is_candidate(branches, first_candidate_from(branches, props, i)->Some_0),
    decreases props.len() - i,
{
    if !(i < 0 || i >= props.len()) {
        if !is_candidate(branches, props[i].0@) {
            lemma_first_candidate_is_candidate(branches, props, i + 1);
        }
    }
}

} // verus!
