//! A schema-to-code compiler that partitions one flat aggregate value into
//! several smaller, non-overlapping group values.
//!
//! A schema names groups, the aggregate fields each group claims, and optional
//! per-field type aliases. From it the compiler emits group type definitions,
//! an aggregate-of-groups type, type aliases, and an extraction routine that
//! consumes one aggregate instance and populates every group, so that no two
//! groups can ever alias the same underlying field.
//!
//! Two schema shapes are accepted: a single annotated struct (one group per
//! run, its routine named by snake-casing the struct name), and a schema
//! block (any number of groups, one routine covering them all). Both run
//! through the same parse, alias-extraction, validation and emission core.

pub mod ast;
pub mod lexer;
pub mod parser;
pub mod alias;
pub mod emit;
pub mod render;
pub mod laws;

use vstd::prelude::*;
use crate::alias::{
    extract_group, extract_schema, extracted_group, extracted_schema, group_alias_ok,
    schema_alias_ok, lemma_extracted_group_wf, lemma_extracted_schema_wf,
};
use crate::ast::GroupView;
use crate::emit::{
    aggregate_of, collect_aliases, emit_aggregate, emit_init, emit_inits, emit_type_def,
    emit_type_defs, init_of, inits_of, schema_aliases, schema_valid, type_def_of, type_defs_of,
    validate_error, validate_schema,
};
use crate::parser::{
    groups_view, lemma_parse_annotated_wf, lemma_parse_block_wf, parse_annotated,
    parse_annotated_spec, parse_block_spec, parse_schema_block,
};
use crate::render::{annotated_text, block_text, render_annotated, render_block};

verus! {

/// The one error type of the compiler: every failure is fatal and nothing is
/// partially emitted.
#[derive(PartialEq, Eq, Structural, Clone, Copy, Debug)]
pub enum SchemaError {
    /// The schema text violates the grammar.
    Syntax,
    /// More than one alias request stands on a single field.
    ConflictingAlias,
    /// One alias identifier is declared by two different fields.
    DuplicateAlias,
    /// Two fields of one group share a destination name.
    DuplicateDest,
    /// Two groups share their name.
    DuplicateGroupName,
    /// Two groups share their type name.
    DuplicateGroupType,
}

/// What `to_snake_case` of the `inflector` crate returns: a pure function of
/// the characters alone.
pub uninterp spec fn snake_of(s: Seq<char>) -> Seq<char>;

/// Relies on `inflector::cases::snakecase::to_snake_case`: the snake-cased
/// name, a function of the characters alone.
#[verifier::external_body]
fn snake_case(s: &str) -> (r: String)
    ensures
        r@ == snake_of(s@),
{
    inflector::cases::snakecase::to_snake_case(s)
}

/// The single group an annotated-struct text compiles to, after alias
/// extraction.
pub open spec fn annotated_group(s: Seq<char>) -> GroupView {
    extracted_group(parse_annotated_spec(s).unwrap())
}

/// Whether an annotated-struct text compiles: it parses, no field carries two
/// alias requests, and the uniqueness invariants hold.
pub open spec fn annotated_ok(s: Seq<char>) -> bool {
    &&& parse_annotated_spec(s) is Some
    &&& group_alias_ok(parse_annotated_spec(s).unwrap())
    &&& schema_valid(seq![annotated_group(s)])
}

/// The diagnostic an annotated-struct text is rejected with.
pub open spec fn annotated_error(s: Seq<char>) -> SchemaError {
    if parse_annotated_spec(s) is None {
        SchemaError::Syntax
    } else if !group_alias_ok(parse_annotated_spec(s).unwrap()) {
        SchemaError::ConflictingAlias
    } else {
        validate_error(seq![annotated_group(s)])
    }
}

/// The text an annotated-struct schema compiles to: its alias declarations,
/// the group type, and one extraction routine named by snake-casing the
/// struct name.
pub open spec fn annotated_output(s: Seq<char>) -> Seq<char> {
    let g = annotated_group(s);
    annotated_text(schema_aliases(seq![g]), type_def_of(g), snake_of(g.ty_name), init_of(g))
}

/// Compile one annotated-struct schema: parse it, extract aliases, validate,
/// and emit the alias declarations, the group type and its extraction
/// routine, or reject the text with the first failure.
pub fn assigned_resources(text: &str) -> (r: Result<String, SchemaError>)
    requires
        text@.len() < usize::MAX,
    ensures
        r is Ok <==> annotated_ok(text@),
        r is Ok ==> r.unwrap()@ == annotated_output(text@),
        r is Err ==> r.unwrap_err() == annotated_error(text@),
{
    let g0 = match parse_annotated(text) {
        Ok(g) => g,
        Err(e) => {
            return Err(e);
        },
    };
    let g1 = match extract_group(g0) {
        Ok(h) => h,
        Err(e) => {
            return Err(e);
        },
    };
    proof {
        lemma_parse_annotated_wf(text@);
        lemma_extracted_group_wf(parse_annotated_spec(text@).unwrap());
    }
    let mut gs: Vec<crate::ast::GroupSpec> = Vec::new();
    gs.push(g1);
    proof {
        assert(groups_view(gs@) =~= seq![annotated_group(text@)]);
    }
    let aliases = collect_aliases(&gs);
    match validate_schema(&gs, &aliases) {
        Ok(()) => {},
        Err(e) => {
            return Err(e);
        },
    }
    let name = snake_case(gs[0].ty_name.as_str());
    let td = emit_type_def(&gs[0]);
    let init = emit_init(&gs[0]);
    let out = render_annotated(&aliases, &td, name.as_str(), &init);
    proof {
        assert(gs@[0]@ == annotated_group(text@));
    }
    Ok(out)
}

/// The groups a schema-block text compiles to, after alias extraction.
pub open spec fn block_groups(s: Seq<char>) -> Seq<GroupView> {
    extracted_schema(parse_block_spec(s).unwrap())
}

/// Whether a schema-block text compiles.
pub open spec fn block_ok(s: Seq<char>) -> bool {
    &&& parse_block_spec(s) is Some
    &&& schema_alias_ok(parse_block_spec(s).unwrap())
    &&& schema_valid(block_groups(s))
}

/// The diagnostic a schema-block text is rejected with.
pub open spec fn block_error(s: Seq<char>) -> SchemaError {
    if parse_block_spec(s) is None {
        SchemaError::Syntax
    } else if !schema_alias_ok(parse_block_spec(s).unwrap()) {
        SchemaError::ConflictingAlias
    } else {
        validate_error(block_groups(s))
    }
}

/// The text a schema-block schema compiles to: alias declarations, one type
/// per group, the aggregate-of-groups type, and the one extraction routine.
pub open spec fn block_output(s: Seq<char>) -> Seq<char> {
    let gs = block_groups(s);
    block_text(schema_aliases(gs), type_defs_of(gs), aggregate_of(gs), inits_of(gs))
}

/// Compile one schema-block schema covering any number of groups: parse it,
/// extract aliases, validate, and emit every definition and the single
/// extraction routine, or reject the text with the first failure.
pub fn assign_resources(text: &str) -> (r: Result<String, SchemaError>)
    requires
        text@.len() < usize::MAX,
    ensures
        r is Ok <==> block_ok(text@),
        r is Ok ==> r.unwrap()@ == block_output(text@),
        r is Err ==> r.unwrap_err() == block_error(text@),
{
    let gs0 = match parse_schema_block(text) {
        Ok(gs) => gs,
        Err(e) => {
            return Err(e);
        },
    };
    let gs = match extract_schema(gs0) {
        Ok(hs) => hs,
        Err(e) => {
            return Err(e);
        },
    };
    proof {
        lemma_parse_block_wf(text@);
        lemma_extracted_schema_wf(parse_block_spec(text@).unwrap());
        assert(groups_view(gs@) == block_groups(text@));
    }
    let aliases = collect_aliases(&gs);
    match validate_schema(&gs, &aliases) {
        Ok(()) => {},
        Err(e) => {
            return Err(e);
        },
    }
    let tds = emit_type_defs(&gs);
    let agg = emit_aggregate(&gs);
    let inits = emit_inits(&gs);
    let out = render_block(&aliases, &tds, &agg, &inits);
    Ok(out)
}

} // verus!
