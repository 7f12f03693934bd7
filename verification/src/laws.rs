//! The general laws of the emitter, each proved once for every schema: the
//! emitted definitions carry exactly the declared fields, types, directives
//! and aliases, and disjoint groups stay disjoint.

use vstd::prelude::*;
use crate::ast::{FieldView, GroupView, decl_of, dest_names, source_names};
use crate::alias::{alias_of_dir, extracted_schema, extracted_group, extracted_field, split_alias, lemma_split_alias_is_filter};
use crate::emit::{
    AliasDeclView, AssignView, FieldDefView, field_aliases, field_def_of, assign_of, init_of,
    inits_of, schema_aliases, type_def_of, type_defs_of,
};

verus! {

pub open spec fn field_def_names(fs: Seq<FieldDefView>) -> Seq<Seq<char>> {
    fs.map_values(|f: FieldDefView| f.name)
}

pub open spec fn assign_dests(v: Seq<AssignView>) -> Seq<Seq<char>> {
    v.map_values(|a: AssignView| a.dest)
}

pub open spec fn assign_sources(v: Seq<AssignView>) -> Seq<Seq<char>> {
    v.map_values(|a: AssignView| a.source)
}

/// The destination field set of each emitted group type exactly equals the
/// destination names the group declares: no more, no fewer, in order.
pub proof fn lemma_dest_fields_exact(gs: Seq<GroupView>, k: int)
    requires
        0 <= k < gs.len(),
    ensures
        field_def_names(type_defs_of(gs)[k].fields) == dest_names(gs[k]),
        field_def_names(type_defs_of(gs)[k].fields).to_set() == dest_names(gs[k]).to_set(),
{
    assert(type_defs_of(gs)[k] == type_def_of(gs[k]));
    assert(field_def_names(type_defs_of(gs)[k].fields) =~= dest_names(gs[k]));
}

/// Round-trip type identity: the emitted field is declared with exactly the
/// declaration rendering of the schema field's type, and the extraction
/// routine fills it from exactly the aggregate field the schema names, so
/// the value each destination receives is the source field's own. This holds
/// independently of any alias.
pub proof fn lemma_round_trip_types(gs: Seq<GroupView>, k: int, j: int)
    requires
        0 <= k < gs.len(),
        0 <= j < gs[k].fields.len(),
    ensures
        type_defs_of(gs)[k].fields[j].ty == decl_of(gs[k].fields[j].ty),
        inits_of(gs)[k].assigns[j] == (AssignView {
            dest: gs[k].fields[j].dest,
            source: gs[k].fields[j].source,
        }),
{
    assert(type_defs_of(gs)[k] == type_def_of(gs[k]));
    assert(type_def_of(gs[k]).fields[j] == field_def_of(gs[k].fields[j]));
    assert(inits_of(gs)[k] == init_of(gs[k]));
    assert(init_of(gs[k]).assigns[j] == assign_of(gs[k].fields[j]));
}

proof fn lemma_contains_prefix(a: Seq<AliasDeclView>, b: Seq<AliasDeclView>, x: AliasDeclView)
    requires
        a.contains(x),
    ensures
        (a + b).contains(x),
{
    let i = choose|i: int| 0 <= i < a.len() && a[i] == x;
    assert((a + b)[i] == x);
}

proof fn lemma_field_aliases_contains(fs: Seq<FieldView>, j: int)
    requires
        0 <= j < fs.len(),
        fs[j].alias is Some,
    ensures
        field_aliases(fs).contains(
            AliasDeclView { name: fs[j].alias.unwrap(), ty: fs[j].ty },
        ),
    decreases fs.len(),
{
    let x = AliasDeclView { name: fs[j].alias.unwrap(), ty: fs[j].ty };
    if j == fs.len() - 1 {
        let pre = field_aliases(fs.drop_last());
        assert(field_aliases(fs) == pre + seq![x]);
        assert(field_aliases(fs)[pre.len() as int] == x);
    } else {
        lemma_field_aliases_contains(fs.drop_last(), j);
        match fs.last().alias {
            Some(a) => {
                lemma_contains_prefix(
                    field_aliases(fs.drop_last()),
                    seq![AliasDeclView { name: a, ty: fs.last().ty }],
                    x,
                );
            },
            None => {
                lemma_contains_prefix(
                    field_aliases(fs.drop_last()),
                    Seq::<AliasDeclView>::empty(),
                    x,
                );
            },
        }
    }
}

/// Alias substitutability: a field that declares an alias yields exactly one
/// alias declaration binding that identifier to the field's own type
/// expression, so the alias is type-identical to the field's resolved type
/// wherever it is used.
pub proof fn lemma_alias_binds_field_type(gs: Seq<GroupView>, k: int, j: int)
    requires
        0 <= k < gs.len(),
        0 <= j < gs[k].fields.len(),
        gs[k].fields[j].alias is Some,
    ensures
        schema_aliases(gs).contains(
            AliasDeclView { name: gs[k].fields[j].alias.unwrap(), ty: gs[k].fields[j].ty },
        ),
    decreases gs.len(),
{
    let x = AliasDeclView { name: gs[k].fields[j].alias.unwrap(), ty: gs[k].fields[j].ty };
    if k == gs.len() - 1 {
        lemma_field_aliases_contains(gs.last().fields, j);
        let i = choose|i: int|
            0 <= i < field_aliases(gs.last().fields).len() && field_aliases(gs.last().fields)[i]
                == x;
        assert(schema_aliases(gs)[schema_aliases(gs.drop_last()).len() + i] == x);
    } else {
        lemma_alias_binds_field_type(gs.drop_last(), k, j);
        lemma_contains_prefix(schema_aliases(gs.drop_last()), field_aliases(gs.last().fields), x);
    }
}

/// Directive preservation: on the emitted definitions of the extracted
/// schema, each group keeps its outer directives verbatim, and each field
/// keeps exactly its non-alias directives, unmodified and in original order.
pub proof fn lemma_directives_preserved(gs: Seq<GroupView>, k: int, j: int)
    requires
        0 <= k < gs.len(),
        0 <= j < gs[k].fields.len(),
    ensures
        type_defs_of(extracted_schema(gs))[k].directives == gs[k].directives,
        type_defs_of(extracted_schema(gs))[k].fields[j].directives == gs[k].fields[j].directives.filter(
            |d: Seq<char>| alias_of_dir(d) is None,
        ),
{
    assert(extracted_schema(gs)[k] == extracted_group(gs[k]));
    assert(type_defs_of(extracted_schema(gs))[k] == type_def_of(extracted_group(gs[k])));
    assert(extracted_group(gs[k]).fields[j] == extracted_field(gs[k].fields[j]));
    assert(type_def_of(extracted_group(gs[k])).fields[j] == field_def_of(
        extracted_group(gs[k]).fields[j],
    ));
    assert(field_def_of(extracted_field(gs[k].fields[j])).directives == split_alias(
        gs[k].fields[j].directives,
    ).0);
    lemma_split_alias_is_filter(gs[k].fields[j].directives);
}

/// Disjointness: two groups that claim disjoint source field sets stay
/// disjoint through extraction — each is fully populated, one assignment per
/// declared destination, and no aggregate field is read for both.
pub proof fn lemma_disjoint_groups(gs: Seq<GroupView>, k1: int, k2: int)
    requires
        0 <= k1 < gs.len(),
        0 <= k2 < gs.len(),
        k1 != k2,
        source_names(gs[k1]).to_set().disjoint(source_names(gs[k2]).to_set()),
    ensures
        assign_dests(inits_of(gs)[k1].assigns) == dest_names(gs[k1]),
        assign_dests(inits_of(gs)[k2].assigns) == dest_names(gs[k2]),
        assign_sources(inits_of(gs)[k1].assigns).to_set().disjoint(
            assign_sources(inits_of(gs)[k2].assigns).to_set(),
        ),
{
    assert(inits_of(gs)[k1] == init_of(gs[k1]));
    assert(inits_of(gs)[k2] == init_of(gs[k2]));
    assert(assign_dests(init_of(gs[k1]).assigns) =~= dest_names(gs[k1]));
    assert(assign_dests(init_of(gs[k2]).assigns) =~= dest_names(gs[k2]));
    assert(assign_sources(init_of(gs[k1]).assigns) =~= source_names(gs[k1]));
    assert(assign_sources(init_of(gs[k2]).assigns) =~= source_names(gs[k2]));
}

} // verus!
