//! The textual half of the code emitter: each structural piece is rendered
//! to source text, and every rendering function is proved to produce exactly
//! the text its mathematical counterpart describes.

use vstd::prelude::*;
use crate::ast::access_of;
use crate::emit::{
    AliasDecl, AliasDeclView, Assign, AssignView, FieldDef, FieldDefView, GroupInit, GroupInitView,
    TypeDef, TypeDefView, aliases_view,
};

verus! {

broadcast use vstd::seq::Seq::lemma_map_take_succ, vstd::seq::Seq::lemma_push_map_commute;

/// One alias declaration line.
pub open spec fn render_alias(a: AliasDeclView) -> Seq<char> {
    "pub type "@ + a.name + " = "@ + access_of(a.ty) + ";\n"@
}

pub open spec fn render_aliases(v: Seq<AliasDeclView>) -> Seq<char>
    decreases v.len(),
{
    if v.len() == 0 {
        Seq::<char>::empty()
    } else {
        render_aliases(v.drop_last()) + render_alias(v.last())
    }
}

/// Directive lines, one per directive, each indented and bracketed.
pub open spec fn render_dirs(ds: Seq<Seq<char>>, ind: Seq<char>) -> Seq<char>
    decreases ds.len(),
{
    if ds.len() == 0 {
        Seq::<char>::empty()
    } else {
        render_dirs(ds.drop_last(), ind) + ind + "#["@ + ds.last() + "]\n"@
    }
}

/// One field of an emitted type definition.
pub open spec fn render_field_def(f: FieldDefView) -> Seq<char> {
    render_dirs(f.directives, "    "@) + "    pub "@ + f.name + ": "@ + f.ty + ",\n"@
}

pub open spec fn render_field_defs(fs: Seq<FieldDefView>) -> Seq<char>
    decreases fs.len(),
{
    if fs.len() == 0 {
        Seq::<char>::empty()
    } else {
        render_field_defs(fs.drop_last()) + render_field_def(fs.last())
    }
}

/// One emitted type definition.
pub open spec fn render_type_def(t: TypeDefView) -> Seq<char> {
    render_dirs(t.directives, Seq::<char>::empty()) + "pub struct "@ + t.name + " {\n"@
        + render_field_defs(t.fields) + "}\n"@
}

/// One assignment line of the extraction routine.
pub open spec fn render_assign(a: AssignView, ind: Seq<char>) -> Seq<char> {
    ind + a.dest + ": p."@ + a.source + ",\n"@
}

pub open spec fn render_assigns(v: Seq<AssignView>, ind: Seq<char>) -> Seq<char>
    decreases v.len(),
{
    if v.len() == 0 {
        Seq::<char>::empty()
    } else {
        render_assigns(v.drop_last(), ind) + render_assign(v.last(), ind)
    }
}

/// The single-group extraction routine of the annotated-struct strategy:
/// named by the caller, taking one aggregate instance by value and returning
/// the one group instance.
pub open spec fn render_single_routine(name: Seq<char>, init: GroupInitView) -> Seq<char> {
    "pub fn "@ + name + "(p: Peripherals) -> "@ + init.ty_name + " {\n    "@ + init.ty_name
        + " {\n"@ + render_assigns(init.assigns, "        "@) + "    }\n}\n"@
}

/// One group initializer inside the whole-schema extraction routine.
pub open spec fn render_init(i: GroupInitView) -> Seq<char> {
    "        "@ + i.group + ": "@ + i.ty_name + " {\n"@ + render_assigns(
        i.assigns,
        "            "@,
    ) + "        },\n"@
}

pub open spec fn render_inits(v: Seq<GroupInitView>) -> Seq<char>
    decreases v.len(),
{
    if v.len() == 0 {
        Seq::<char>::empty()
    } else {
        render_inits(v.drop_last()) + render_init(v.last())
    }
}

/// The whole-schema extraction routine: one call consumes the aggregate and
/// populates every group.
pub open spec fn render_split_routine(inits: Seq<GroupInitView>) -> Seq<char> {
    "pub fn split_resources(p: Peripherals) -> AssignedResources {\n    AssignedResources {\n"@
        + render_inits(inits) + "    }\n}\n"@
}

fn push_path(out: &mut String, ty: &Vec<String>)
    ensures
        final(out)@ == old(out)@ + access_of(ty.deep_view()),
{
    let ghost tv: Seq<Seq<char>> = ty.deep_view();
    let mut i: usize = 0;
    proof {
        assert(tv.take(0) =~= Seq::<Seq<char>>::empty());
        assert(out@ =~= old(out)@ + access_of(tv.take(0)));
    }
    #[verifier::loop_isolation(false)]
    while i < ty.len()
        invariant
            0 <= i <= ty@.len(),
            ty@.len() == tv.len(),
            out@ == old(out)@ + access_of(tv.take(i as int)),
        decreases ty@.len() - i,
    {
        proof {
            assert(tv[i as int] == ty@[i as int]@);
            assert(tv.take(i as int + 1).drop_last() =~= tv.take(i as int));
            assert(tv.take(i as int + 1).last() == tv[i as int]);
        }
        if i > 0 {
            out.append("::");
        }
        out.append(ty[i].as_str());
        proof {
            if i == 0 {
                assert(access_of(tv.take(1)) =~= tv[0]);
            }
            assert(out@ =~= old(out)@ + access_of(tv.take(i as int + 1)));
        }
        i = i + 1;
    }
    proof {
        assert(tv.take(tv.len() as int) =~= tv);
    }
}

fn push_aliases(out: &mut String, v: &Vec<AliasDecl>)
    ensures
        final(out)@ == old(out)@ + render_aliases(aliases_view(v@)),
{
    let ghost av: Seq<AliasDeclView> = aliases_view(v@);
    let mut i: usize = 0;
    proof {
        assert(out@ =~= old(out)@ + render_aliases(av.take(0)));
    }
    #[verifier::loop_isolation(false)]
    while i < v.len()
        invariant
            0 <= i <= v@.len(),
            v@.len() == av.len(),
            out@ == old(out)@ + render_aliases(av.take(i as int)),
        decreases v@.len() - i,
    {
        proof {
            assert(av[i as int] == v@[i as int]@);
            assert(av.take(i as int + 1).drop_last() =~= av.take(i as int));
            assert(av.take(i as int + 1).last() == av[i as int]);
        }
        out.append("pub type ");
        out.append(v[i].name.as_str());
        out.append(" = ");
        push_path(out, &v[i].ty);
        out.append(";\n");
        proof {
            assert(out@ =~= old(out)@ + render_aliases(av.take(i as int + 1)));
        }
        i = i + 1;
    }
    proof {
        assert(av.take(av.len() as int) =~= av);
    }
}

fn push_dirs(out: &mut String, ds: &Vec<String>, ind: &str)
    ensures
        final(out)@ == old(out)@ + render_dirs(ds.deep_view(), ind@),
{
    let ghost dv: Seq<Seq<char>> = ds.deep_view();
    let mut i: usize = 0;
    proof {
        assert(out@ =~= old(out)@ + render_dirs(dv.take(0), ind@));
    }
    #[verifier::loop_isolation(false)]
    while i < ds.len()
        invariant
            0 <= i <= ds@.len(),
            ds@.len() == dv.len(),
            out@ == old(out)@ + render_dirs(dv.take(i as int), ind@),
        decreases ds@.len() - i,
    {
        proof {
            assert(dv[i as int] == ds@[i as int]@);
            assert(dv.take(i as int + 1).drop_last() =~= dv.take(i as int));
            assert(dv.take(i as int + 1).last() == dv[i as int]);
        }
        out.append(ind);
        out.append("#[");
        out.append(ds[i].as_str());
        out.append("]\n");
        proof {
            assert(out@ =~= old(out)@ + render_dirs(dv.take(i as int + 1), ind@));
        }
        i = i + 1;
    }
    proof {
        assert(dv.take(dv.len() as int) =~= dv);
    }
}

/// Render one emitted type definition as source text.
fn push_type_def(out: &mut String, t: &TypeDef)
    ensures
        final(out)@ == old(out)@ + render_type_def(t@),
{
    let ghost fv: Seq<FieldDefView> = t@.fields;
    push_dirs(out, &t.directives, "");
    proof {
        reveal_strlit("");
        assert(""@ =~= Seq::<char>::empty());
    }
    out.append("pub struct ");
    out.append(t.name.as_str());
    out.append(" {\n");
    let ghost mid = out@;
    let mut j: usize = 0;
    proof {
        assert(out@ =~= mid + render_field_defs(fv.take(0)));
    }
    #[verifier::loop_isolation(false)]
    while j < t.fields.len()
        invariant
            0 <= j <= t.fields@.len(),
            t.fields@.len() == fv.len(),
            out@ == mid + render_field_defs(fv.take(j as int)),
        decreases t.fields@.len() - j,
    {
        proof {
            assert(fv[j as int] == t.fields@[j as int]@);
            assert(fv.take(j as int + 1).drop_last() =~= fv.take(j as int));
            assert(fv.take(j as int + 1).last() == fv[j as int]);
        }
        push_dirs(out, &t.fields[j].directives, "    ");
        out.append("    pub ");
        out.append(t.fields[j].name.as_str());
        out.append(": ");
        out.append(t.fields[j].ty.as_str());
        out.append(",\n");
        proof {
            assert(out@ =~= mid + render_field_defs(fv.take(j as int + 1)));
        }
        j = j + 1;
    }
    out.append("}\n");
    proof {
        assert(fv.take(fv.len() as int) =~= fv);
        assert(out@ =~= old(out)@ + render_type_def(t@));
    }
}

fn push_assigns(out: &mut String, v: &Vec<Assign>, ind: &str)
    ensures
        final(out)@ == old(out)@ + render_assigns(v@.map_values(|a: Assign| a@), ind@),
{
    let ghost av: Seq<AssignView> = v@.map_values(|a: Assign| a@);
    let mut i: usize = 0;
    proof {
        assert(out@ =~= old(out)@ + render_assigns(av.take(0), ind@));
    }
    #[verifier::loop_isolation(false)]
    while i < v.len()
        invariant
            0 <= i <= v@.len(),
            v@.len() == av.len(),
            out@ == old(out)@ + render_assigns(av.take(i as int), ind@),
        decreases v@.len() - i,
    {
        proof {
            assert(av[i as int] == v@[i as int]@);
            assert(av.take(i as int + 1).drop_last() =~= av.take(i as int));
            assert(av.take(i as int + 1).last() == av[i as int]);
        }
        out.append(ind);
        out.append(v[i].dest.as_str());
        out.append(": p.");
        out.append(v[i].source.as_str());
        out.append(",\n");
        proof {
            assert(out@ =~= old(out)@ + render_assigns(av.take(i as int + 1), ind@));
        }
        i = i + 1;
    }
    proof {
        assert(av.take(av.len() as int) =~= av);
    }
}

/// Render the single-group extraction routine of the annotated-struct
/// strategy.
fn push_single_routine(out: &mut String, name: &str, init: &GroupInit)
    ensures
        final(out)@ == old(out)@ + render_single_routine(name@, init@),
{
    out.append("pub fn ");
    out.append(name);
    out.append("(p: Peripherals) -> ");
    out.append(init.ty_name.as_str());
    out.append(" {\n    ");
    out.append(init.ty_name.as_str());
    out.append(" {\n");
    push_assigns(out, &init.assigns, "        ");
    out.append("    }\n}\n");
    proof {
        assert(out@ =~= old(out)@ + render_single_routine(name@, init@));
    }
}

/// Render the whole-schema extraction routine.
fn push_split_routine(out: &mut String, inits: &Vec<GroupInit>)
    ensures
        final(out)@ == old(out)@ + render_split_routine(inits@.map_values(|i: GroupInit| i@)),
{
    let ghost iv: Seq<GroupInitView> = inits@.map_values(|i: GroupInit| i@);
    out.append("pub fn split_resources(p: Peripherals) -> AssignedResources {\n    AssignedResources {\n");
    let ghost mid = out@;
    let mut k: usize = 0;
    proof {
        assert(out@ =~= mid + render_inits(iv.take(0)));
    }
    #[verifier::loop_isolation(false)]
    while k < inits.len()
        invariant
            0 <= k <= inits@.len(),
            inits@.len() == iv.len(),
            out@ == mid + render_inits(iv.take(k as int)),
        decreases inits@.len() - k,
    {
        proof {
            assert(iv[k as int] == inits@[k as int]@);
            assert(iv.take(k as int + 1).drop_last() =~= iv.take(k as int));
            assert(iv.take(k as int + 1).last() == iv[k as int]);
        }
        out.append("        ");
        out.append(inits[k].group.as_str());
        out.append(": ");
        out.append(inits[k].ty_name.as_str());
        out.append(" {\n");
        push_assigns(out, &inits[k].assigns, "            ");
        out.append("        },\n");
        proof {
            assert(out@ =~= mid + render_inits(iv.take(k as int + 1)));
        }
        k = k + 1;
    }
    out.append("    }\n}\n");
    proof {
        assert(iv.take(iv.len() as int) =~= iv);
        assert(out@ =~= old(out)@ + render_split_routine(iv));
    }
}

/// The full text of the annotated-struct strategy: alias declarations, the
/// one group type, and its extraction routine under the given name.
pub open spec fn annotated_text(
    aliases: Seq<AliasDeclView>,
    td: TypeDefView,
    name: Seq<char>,
    init: GroupInitView,
) -> Seq<char> {
    render_aliases(aliases) + render_type_def(td) + render_single_routine(name, init)
}

/// Render the annotated-struct strategy's whole output.
pub fn render_annotated(aliases: &Vec<AliasDecl>, td: &TypeDef, name: &str, init: &GroupInit) -> (r:
    String)
    ensures
        r@ == annotated_text(aliases_view(aliases@), td@, name@, init@),
{
    let mut out = String::new();
    push_aliases(&mut out, aliases);
    push_type_def(&mut out, td);
    push_single_routine(&mut out, name, init);
    proof {
        assert(out@ =~= annotated_text(aliases_view(aliases@), td@, name@, init@));
    }
    out
}

/// The full text of the whole-schema strategy: alias declarations, every
/// group type, the aggregate-of-groups type, and the one extraction routine.
pub open spec fn block_text(
    aliases: Seq<AliasDeclView>,
    tds: Seq<TypeDefView>,
    agg: TypeDefView,
    inits: Seq<GroupInitView>,
) -> Seq<char> {
    render_aliases(aliases) + render_type_defs(tds) + render_type_def(agg) + render_split_routine(
        inits,
    )
}

pub open spec fn render_type_defs(ts: Seq<TypeDefView>) -> Seq<char>
    decreases ts.len(),
{
    if ts.len() == 0 {
        Seq::<char>::empty()
    } else {
        render_type_defs(ts.drop_last()) + render_type_def(ts.last())
    }
}

/// Render the whole-schema strategy's whole output.
pub fn render_block(
    aliases: &Vec<AliasDecl>,
    tds: &Vec<TypeDef>,
    agg: &TypeDef,
    inits: &Vec<GroupInit>,
) -> (r: String)
    ensures
        r@ == block_text(
            aliases_view(aliases@),
            tds@.map_values(|t: TypeDef| t@),
            agg@,
            inits@.map_values(|i: GroupInit| i@),
        ),
{
    let ghost tv: Seq<TypeDefView> = tds@.map_values(|t: TypeDef| t@);
    let mut out = String::new();
    push_aliases(&mut out, aliases);
    let ghost mid = out@;
    let mut k: usize = 0;
    proof {
        assert(out@ =~= mid + render_type_defs(tv.take(0)));
    }
    #[verifier::loop_isolation(false)]
    while k < tds.len()
        invariant
            0 <= k <= tds@.len(),
            tds@.len() == tv.len(),
            out@ == mid + render_type_defs(tv.take(k as int)),
        decreases tds@.len() - k,
    {
        proof {
            assert(tv[k as int] == tds@[k as int]@);
            assert(tv.take(k as int + 1).drop_last() =~= tv.take(k as int));
            assert(tv.take(k as int + 1).last() == tv[k as int]);
        }
        push_type_def(&mut out, &tds[k]);
        proof {
            assert(out@ =~= mid + render_type_defs(tv.take(k as int + 1)));
        }
        k = k + 1;
    }
    push_type_def(&mut out, agg);
    push_split_routine(&mut out, inits);
    proof {
        assert(tv.take(tv.len() as int) =~= tv);
        assert(out@ =~= block_text(
            aliases_view(aliases@),
            tv,
            agg@,
            inits@.map_values(|i: GroupInit| i@),
        ));
    }
    out
}

} // verus!
