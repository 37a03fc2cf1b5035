//! The two library entry points: merging schema documents into one
//! definition table, and converting a document's definitions into named
//! validator-construction text blocks.
use vstd::prelude::*;
use vstd::string::*;

use crate::emit::emit_node;
use crate::schema::SchemaDocument;
use crate::schema::SchemaNode;
use crate::schema::unique_keys;
use crate::table::map_of;
use crate::table::table_insert;
use crate::zod::convert_schema_object_to_zod;

verus! {

/// Insert every binding of `entries` into `m`, left to right.
pub open spec fn insert_all(
    m: Map<Seq<char>, SchemaNode>,
    entries: Seq<(String, SchemaNode)>,
) -> Map<Seq<char>, SchemaNode>
    decreases entries.len(),
{
    if entries.len() == 0 {
        m
    } else {
        insert_all(m, entries.drop_last()).insert(entries.last().0@, entries.last().1)
    }
}

/// Inserting a table's bindings one by one overlays the table's map.
pub proof fn lemma_insert_all_union(m: Map<Seq<char>, SchemaNode>, entries: Seq<(String, SchemaNode)>)
    ensures
        insert_all(m, entries) == m.union_prefer_right(map_of(entries)),
    decreases entries.len(),
{
    if entries.len() == 0 {
        assert(insert_all(m, entries) =~= m.union_prefer_right(map_of(entries)));
    } else {
        lemma_insert_all_union(m, entries.drop_last());
        assert(insert_all(m, entries) =~= m.union_prefer_right(map_of(entries)));
    }
}

/// What one document contributes when merged onto `m`: nothing when its
/// root carries no title; otherwise its whole definition table, and then
/// its root under the root's own title, a later binding winning.
pub open spec fn merge_step(
    m: Map<Seq<char>, SchemaNode>,
    d: SchemaDocument,
) -> Map<Seq<char>, SchemaNode> {
    match d.root.title {
        Some(t) => m.union_prefer_right(map_of(d.definitions@).insert(t@, d.root)),
        None => m,
    }
}

/// The definition table denoted by merging a document sequence in order.
pub open spec fn merged_map(docs: Seq<SchemaDocument>) -> Map<Seq<char>, SchemaNode>
    decreases docs.len(),
{
    if docs.len() == 0 {
        Map::<Seq<char>, SchemaNode>::empty()
    } else {
        merge_step(merged_map(docs.drop_last()), docs.last())
    }
}

/// Merge several schema documents into a single one: each input whose root
/// node carries a title contributes its definition table and then its root
/// under that title; an untitled input contributes nothing. A later input
/// overwrites an earlier binding of the same name.
pub fn merge_schemas(schemas: Vec<SchemaDocument>) -> (merged: SchemaDocument)
    ensures
        merged.root == SchemaNode::spec_empty(),
        unique_keys(merged.definitions@),
        map_of(merged.definitions@) == merged_map(schemas@),
{
    let ghost all = schemas@;
    let mut schemas = schemas;
    let mut defs: Vec<(String, SchemaNode)> = Vec::new();
    let ghost done: int = 0;
    proof {
        assert(all.take(0) =~= Seq::<SchemaDocument>::empty());
        assert(map_of(defs@) =~= merged_map(all.take(0)));
    }
    while schemas.len() > 0
        invariant
            0 <= done <= all.len(),
            schemas@ == all.skip(done),
            unique_keys(defs@),
            map_of(defs@) == merged_map(all.take(done)),
        decreases schemas@.len(),
    {
        let doc = schemas.remove(0);
        proof {
            assert(doc == all.skip(done)[0]);
            assert(doc == all[done]);
            assert(schemas@ =~= all.skip(done + 1));
        }
        let SchemaDocument { root, definitions } = doc;
        let title = match &root.title {
            Some(id) => Some(id.clone()),
            None => None,
        };
        let ghost base = map_of(defs@);
        match title {
            Some(id) => {
                let mut definitions = definitions;
                let ghost dseq = definitions@;
                let ghost taken: int = 0;
                proof {
                    assert(dseq.take(0) =~= Seq::<(String, SchemaNode)>::empty());
                }
                while definitions.len() > 0
                    invariant
                        0 <= taken <= dseq.len(),
                        definitions@ == dseq.skip(taken),
                        unique_keys(defs@),
                        map_of(defs@) == insert_all(base, dseq.take(taken)),
                    decreases definitions@.len(),
                {
                    let entry = definitions.remove(0);
                    proof {
                        assert(entry == dseq.skip(taken)[0]);
                        assert(entry == dseq[taken]);
                        assert(definitions@ =~= dseq.skip(taken + 1));
                    }
                    let (k, v) = entry;
                    table_insert(&mut defs, k, v);
                    proof {
                        assert(dseq.take(taken + 1).drop_last() =~= dseq.take(taken));
                        assert(dseq.take(taken + 1).last() == dseq[taken]);
                        taken = taken + 1;
                    }
                }
                proof {
                    assert(dseq.take(dseq.len() as int) =~= dseq);
                }
                table_insert(&mut defs, id, root);
                proof {
                    lemma_insert_all_union(base, dseq);
                    assert(all[done].root.title is Some);
                    assert(all[done].root.title->Some_0@ == id@);
                    assert(map_of(defs@) =~= merge_step(base, all[done]));
                }
            },
            None => {
                proof {
                    assert(map_of(defs@) == merge_step(base, all[done]));
                }
            },
        }
        proof {
            assert(all.take(done + 1).drop_last() =~= all.take(done));
            assert(all.take(done + 1).last() == all[done]);
            done = done + 1;
        }
    }
    proof {
        assert(all.take(all.len() as int) =~= all);
    }
    SchemaDocument { root: SchemaNode::empty(), definitions: defs }
}

/// The two-statement text block emitted for one converted definition: a
/// named validator-construction binding, then a named static-type alias.
pub open spec fn block_text(id: Seq<char>, generated: Seq<char>) -> Seq<char> {
    "export const "@ + id + " = "@ + generated + ";\n"@ + "export type "@ + id
        + " = z.infer<typeof "@ + id + ">;\n"@
}

/// What one definition contributes to the conversion result: one named
/// block when its node converts, nothing when it does not.
pub open spec fn node_entry(id: Seq<char>, n: SchemaNode) -> Seq<(Seq<char>, Seq<char>)> {
    match emit_node(n) {
        Some(generated) => seq![(id, block_text(id, generated))],
        None => Seq::<(Seq<char>, Seq<char>)>::empty(),
    }
}

/// The conversion result over a definition table, in table order.
pub open spec fn converted_entries(defs: Seq<(String, SchemaNode)>) -> Seq<(Seq<char>, Seq<char>)>
    decreases defs.len(),
{
    if defs.len() == 0 {
        Seq::<(Seq<char>, Seq<char>)>::empty()
    } else {
        converted_entries(defs.drop_last()) + node_entry(defs.last().0@, defs.last().1)
    }
}

/// The views of a produced entry list.
pub open spec fn entry_views(entries: Seq<(String, String)>) -> Seq<(Seq<char>, Seq<char>)> {
    entries.map_values(|p: (String, String)| (p.0@, p.1@))
}

/// The map a view-level entry list denotes, a later binding winning.
pub open spec fn map_of_views(entries: Seq<(Seq<char>, Seq<char>)>) -> Map<Seq<char>, Seq<char>>
    decreases entries.len(),
{
    if entries.len() == 0 {
        Map::<Seq<char>, Seq<char>>::empty()
    } else {
        map_of_views(entries.drop_last()).insert(entries.last().0, entries.last().1)
    }
}

/// The mapping that converting a definition table denotes: each definition
/// whose node converts is bound to its block; the others are absent.
pub open spec fn converted_map(defs: Seq<(String, SchemaNode)>) -> Map<Seq<char>, Seq<char>>
    decreases defs.len(),
{
    if defs.len() == 0 {
        Map::<Seq<char>, Seq<char>>::empty()
    } else {
        let m = converted_map(defs.drop_last());
        match emit_node(defs.last().1) {
            Some(generated) => m.insert(
                defs.last().0@,
                block_text(defs.last().0@, generated),
            ),
            None => m,
        }
    }
}

/// The entry list of a conversion denotes the converted mapping.
pub proof fn lemma_converted_entries_map(defs: Seq<(String, SchemaNode)>)
    ensures
        map_of_views(converted_entries(defs)) == converted_map(defs),
    decreases defs.len(),
{
    if defs.len() > 0 {
        lemma_converted_entries_map(defs.drop_last());
        let prefix = converted_entries(defs.drop_last());
        match emit_node(defs.last().1) {
            Some(generated) => {
                let p = (defs.last().0@, block_text(defs.last().0@, generated));
                assert(converted_entries(defs) =~= prefix.push(p));
                assert(prefix.push(p).drop_last() =~= prefix);
            },
            None => {
                assert(converted_entries(defs) =~= prefix);
            },
        }
    }
}

/// Convert one definition and append the emitted block to the result; a
/// definition whose node cannot be expressed is omitted without error.
pub fn add_converted_schema(
    definitions: &mut Vec<(String, String)>,
    id: String,
    schema: SchemaNode,
) -> (converted: bool)
    ensures
        entry_views(final(definitions)@) == entry_views(old(definitions)@) + node_entry(
            id@,
            schema,
        ),
        converted == (emit_node(schema) is Some),
{
    let generated = match convert_schema_object_to_zod(&schema) {
        Some(generated) => generated,
        None => {
            proof {
                assert(entry_views(definitions@) =~= entry_views(definitions@) + node_entry(
                    id@,
                    schema,
                ));
            }
            return false;
        },
    };
    let mut rv = String::new();
    rv.append("export const ");
    rv.append(id.as_str());
    rv.append(" = ");
    rv.append(generated.as_str());
    rv.append(";\n");
    rv.append("export type ");
    rv.append(id.as_str());
    rv.append(" = z.infer<typeof ");
    rv.append(id.as_str());
    rv.append(">;\n");
    let ghost before = definitions@;
    definitions.push((id, rv));
    proof {
        assert(rv@ =~= block_text(id@, generated@));
        assert(entry_views(definitions@) =~= entry_views(before) + node_entry(id@, schema));
    }
    true
}

/// Convert every definition of a document into its two-statement block.
/// The result lists, in table order, each definition that converted,
/// keyed by its name; definitions that cannot be expressed are omitted.
/// The document's own root node is ignored.
pub fn convert(schema: SchemaDocument) -> (definitions: Vec<(String, String)>)
    ensures
        entry_views(definitions@) == converted_entries(schema.definitions@),
        map_of_views(entry_views(definitions@)) == converted_map(schema.definitions@),
{
    let ghost dseq = schema.definitions@;
    let SchemaDocument { root: _, definitions: input } = schema;
    let mut remaining = input;
    let mut definitions: Vec<(String, String)> = Vec::new();
    let ghost taken: int = 0;
    proof {
        assert(dseq.take(0) =~= Seq::<(String, SchemaNode)>::empty());
        assert(entry_views(definitions@) =~= converted_entries(dseq.take(0)));
    }
    while remaining.len() > 0
        invariant
            0 <= taken <= dseq.len(),
            remaining@ == dseq.skip(taken),
            entry_views(definitions@) == converted_entries(dseq.take(taken)),
        decreases remaining@.len(),
    {
        let entry = remaining.remove(0);
        proof {
            assert(entry == dseq.skip(taken)[0]);
            assert(entry == dseq[taken]);
            assert(remaining@ =~= dseq.skip(taken + 1));
        }
        let (id, definition) = entry;
        add_converted_schema(&mut definitions, id, definition);
        proof {
            assert(dseq.take(taken + 1).drop_last() =~= dseq.take(taken));
            assert(dseq.take(taken + 1).last() == dseq[taken]);
            taken = taken + 1;
        }
    }
    proof {
        assert(dseq.take(dseq.len() as int) =~= dseq);
        lemma_converted_entries_map(dseq);
    }
    definitions
}

/// The blocks of a conversion result concatenated, one newline between
/// consecutive blocks.
pub open spec fn joined_blocks(entries: Seq<(Seq<char>, Seq<char>)>) -> Seq<char>
    decreases entries.len(),
{
    if entries.len() == 0 {
        Seq::<char>::empty()
    } else if entries.len() == 1 {
        entries[0].1
    } else {
        joined_blocks(entries.drop_last()) + "\n"@ + entries.last().1
    }
}

/// Convert every definition of a document and join the emitted blocks into
/// one text body, a newline between consecutive blocks.
pub fn convert_joined(schema: SchemaDocument) -> (out: String)
    ensures
        out@ == joined_blocks(converted_entries(schema.definitions@)),
{
    let ghost goal = converted_entries(schema.definitions@);
    let blocks = convert(schema);
    let mut out = String::new();
    let mut i: usize = 0;
    proof {
        assert(out@ =~= joined_blocks(entry_views(blocks@).take(0)));
    }
    while i < blocks.len()
        invariant
            i <= blocks@.len(),
            entry_views(blocks@) == goal,
            entry_views(blocks@).len() == blocks@.len(),
            out@ == joined_blocks(entry_views(blocks@).take(i as int)),
        decreases blocks@.len() - i,
    {
        if i > 0 {
            out.append("\n");
        }
        out.append(blocks[i].1.as_str());
        proof {
            let views = entry_views(blocks@);
            assert(views.take(i as int + 1).drop_last() =~= views.take(i as int));
            assert(views.take(i as int + 1).last() == views[i as int]);
            assert(views[i as int].1 == blocks@[i as int].1@);
            assert(out@ =~= joined_blocks(views.take(i as int + 1)));
        }
        i = i + 1;
    }
    proof {
        assert(entry_views(blocks@).take(blocks@.len() as int) =~= entry_views(blocks@));
    }
    out
}

} // verus!
