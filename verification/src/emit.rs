//! The structural half of the code emitter: from an extracted schema it
//! builds the alias declarations, the group type definitions, the
//! aggregate-of-groups type, and the extraction routine's assignments, each
//! an exact function of the schema. Validation of the uniqueness invariants
//! stands here too.

use vstd::prelude::*;
use crate::SchemaError;
use crate::ast::{FieldView, GroupSpec, GroupView, decl_of, field_wf, group_wf, schema_wf, dest_names};
use crate::parser::groups_view;

verus! {

broadcast use vstd::seq::Seq::lemma_map_take_succ, vstd::seq::Seq::lemma_push_map_commute;

/// One emitted alias declaration: the alias identifier and the type
/// expression it binds to.
pub struct AliasDecl {
    pub name: String,
    pub ty: Vec<String>,
}

pub ghost struct AliasDeclView {
    pub name: Seq<char>,
    pub ty: Seq<Seq<char>>,
}

impl View for AliasDecl {
    type V = AliasDeclView;

    open spec fn view(&self) -> AliasDeclView {
        AliasDeclView { name: self.name@, ty: self.ty.deep_view() }
    }
}

/// One field of an emitted group type: kept directives, the destination
/// name, and the declaration rendering of its type.
pub struct FieldDef {
    pub directives: Vec<String>,
    pub name: String,
    pub ty: String,
}

pub ghost struct FieldDefView {
    pub directives: Seq<Seq<char>>,
    pub name: Seq<char>,
    pub ty: Seq<char>,
}

impl View for FieldDef {
    type V = FieldDefView;

    open spec fn view(&self) -> FieldDefView {
        FieldDefView { directives: self.directives.deep_view(), name: self.name@, ty: self.ty@ }
    }
}

/// One emitted type definition.
pub struct TypeDef {
    pub directives: Vec<String>,
    pub name: String,
    pub fields: Vec<FieldDef>,
}

pub ghost struct TypeDefView {
    pub directives: Seq<Seq<char>>,
    pub name: Seq<char>,
    pub fields: Seq<FieldDefView>,
}

impl View for TypeDef {
    type V = TypeDefView;

    open spec fn view(&self) -> TypeDefView {
        TypeDefView {
            directives: self.directives.deep_view(),
            name: self.name@,
            fields: field_defs_view(self.fields@),
        }
    }
}

/// One assignment of the extraction routine: destination field taken from
/// the aggregate field named by the source identifier.
pub struct Assign {
    pub dest: String,
    pub source: String,
}

pub ghost struct AssignView {
    pub dest: Seq<char>,
    pub source: Seq<char>,
}

impl View for Assign {
    type V = AssignView;

    open spec fn view(&self) -> AssignView {
        AssignView { dest: self.dest@, source: self.source@ }
    }
}

/// The assignments that populate one group inside the extraction routine.
pub struct GroupInit {
    pub group: String,
    pub ty_name: String,
    pub assigns: Vec<Assign>,
}

pub ghost struct GroupInitView {
    pub group: Seq<char>,
    pub ty_name: Seq<char>,
    pub assigns: Seq<AssignView>,
}

impl View for GroupInit {
    type V = GroupInitView;

    open spec fn view(&self) -> GroupInitView {
        GroupInitView {
            group: self.group@,
            ty_name: self.ty_name@,
            assigns: assigns_view(self.assigns@),
        }
    }
}

/// The field definition emitted for one schema field.
pub open spec fn field_def_of(f: FieldView) -> FieldDefView {
    FieldDefView { directives: f.directives, name: f.dest, ty: decl_of(f.ty) }
}

/// The type definition emitted for one group.
pub open spec fn type_def_of(g: GroupView) -> TypeDefView {
    TypeDefView {
        directives: g.directives,
        name: g.ty_name,
        fields: field_defs_of(g.fields),
    }
}

pub open spec fn assign_of(f: FieldView) -> AssignView {
    AssignView { dest: f.dest, source: f.source }
}

/// The extraction routine's assignments for one group.
pub open spec fn init_of(g: GroupView) -> GroupInitView {
    GroupInitView {
        group: g.name,
        ty_name: g.ty_name,
        assigns: assigns_of(g.fields),
    }
}

/// The aggregate-of-groups type: one field per group, named by the group,
/// typed by the group's type.
pub open spec fn aggregate_of(gs: Seq<GroupView>) -> TypeDefView {
    TypeDefView {
        directives: Seq::<Seq<char>>::empty(),
        name: "AssignedResources"@,
        fields: agg_fields_of(gs),
    }
}

/// The alias declarations a field list yields, in field order.
pub open spec fn field_aliases(fs: Seq<FieldView>) -> Seq<AliasDeclView>
    decreases fs.len(),
{
    if fs.len() == 0 {
        Seq::<AliasDeclView>::empty()
    } else {
        field_aliases(fs.drop_last()) + match fs.last().alias {
            Some(a) => seq![AliasDeclView { name: a, ty: fs.last().ty }],
            None => Seq::<AliasDeclView>::empty(),
        }
    }
}

/// The alias declarations a whole schema yields, in schema order.
pub open spec fn schema_aliases(gs: Seq<GroupView>) -> Seq<AliasDeclView>
    decreases gs.len(),
{
    if gs.len() == 0 {
        Seq::<AliasDeclView>::empty()
    } else {
        schema_aliases(gs.drop_last()) + field_aliases(gs.last().fields)
    }
}

pub open spec fn aliases_view(v: Seq<AliasDecl>) -> Seq<AliasDeclView> {
    v.map_values(|a: AliasDecl| a@)
}

pub open spec fn field_defs_view(v: Seq<FieldDef>) -> Seq<FieldDefView> {
    v.map_values(|f: FieldDef| f@)
}

pub open spec fn assigns_view(v: Seq<Assign>) -> Seq<AssignView> {
    v.map_values(|a: Assign| a@)
}

pub open spec fn field_defs_of(fs: Seq<FieldView>) -> Seq<FieldDefView> {
    fs.map_values(|f: FieldView| field_def_of(f))
}

pub open spec fn assigns_of(fs: Seq<FieldView>) -> Seq<AssignView> {
    fs.map_values(|f: FieldView| assign_of(f))
}

pub open spec fn agg_fields_of(gs: Seq<GroupView>) -> Seq<FieldDefView> {
    gs.map_values(
        |g: GroupView|
            FieldDefView { directives: Seq::<Seq<char>>::empty(), name: g.name, ty: g.ty_name },
    )
}

pub open spec fn alias_decl_names(v: Seq<AliasDeclView>) -> Seq<Seq<char>> {
    v.map_values(|a: AliasDeclView| a.name)
}

pub open spec fn dests_of(fs: Seq<FieldView>) -> Seq<Seq<char>> {
    fs.map_values(|f: FieldView| f.dest)
}

pub(crate) fn clone_strings(v: &Vec<String>) -> (r: Vec<String>)
    ensures
        r.deep_view() == v.deep_view(),
{
    let mut r: Vec<String> = Vec::new();
    let mut i: usize = 0;
    proof {
        assert(r.deep_view() =~= v.deep_view().take(0));
    }
    #[verifier::loop_isolation(false)]
    while i < v.len()
        invariant
            0 <= i <= v@.len(),
            r.deep_view() == v.deep_view().take(i as int),
        decreases v@.len() - i,
    {
        let s = v[i].clone();
        r.push(s);
        proof {
            assert(v.deep_view()[i as int] == v@[i as int]@);
            assert(r.deep_view() =~= v.deep_view().take(i as int + 1));
        }
        i = i + 1;
    }
    proof {
        assert(v.deep_view().take(v@.len() as int) =~= v.deep_view());
    }
    r
}

/// Collect the alias declaration of every aliased field, in schema order.
#[verifier::loop_isolation(false)]
pub fn collect_aliases(gs: &Vec<GroupSpec>) -> (r: Vec<AliasDecl>)
    ensures
        aliases_view(r@) == schema_aliases(groups_view(gs@)),
{
    let ghost gv: Seq<GroupView> = groups_view(gs@);
    let mut out: Vec<AliasDecl> = Vec::new();
    proof {
        assert(schema_aliases(gv.take(0)) =~= Seq::<AliasDeclView>::empty());
        assert(aliases_view(out@) =~= Seq::<AliasDeclView>::empty());
    }
    let mut k: usize = 0;
    while k < gs.len()
        invariant
            0 <= k <= gs@.len(),
            aliases_view(out@) == schema_aliases(gv.take(k as int)),
        decreases gs@.len() - k,
    {
        let g = &gs[k];
        let ghost fv: Seq<FieldView> = gv[k as int].fields;
        proof {
            assert(gv[k as int] == gs@[k as int]@);
            assert(field_aliases(fv.take(0)) =~= Seq::<AliasDeclView>::empty());
            assert(aliases_view(out@) =~= schema_aliases(gv.take(k as int)) + field_aliases(
                fv.take(0),
            ));
        }
        let mut j: usize = 0;
        while j < g.fields.len()
            invariant
                0 <= j <= g.fields@.len(),
                g.fields@.len() == fv.len(),
                aliases_view(out@) == schema_aliases(gv.take(k as int)) + field_aliases(
                    fv.take(j as int),
                ),
            decreases g.fields@.len() - j,
        {
            proof {
                assert(fv[j as int] == g.fields@[j as int]@);
                assert(fv.take(j as int + 1).drop_last() =~= fv.take(j as int));
                assert(fv.take(j as int + 1).last() == fv[j as int]);
            }
            match &g.fields[j].alias {
                Some(a) => {
                    let ty = clone_strings(&g.fields[j].ty);
                    let name = a.clone();
                    out.push(AliasDecl { name, ty });
                    proof {
                        assert(aliases_view(out@) =~= schema_aliases(gv.take(k as int))
                            + field_aliases(fv.take(j as int + 1)));
                    }
                },
                None => {
                    proof {
                        assert(field_aliases(fv.take(j as int + 1)) =~= field_aliases(
                            fv.take(j as int),
                        ));
                    }
                },
            }
            j = j + 1;
        }
        proof {
            assert(fv.take(fv.len() as int) =~= fv);
            assert(gv.take(k as int + 1).drop_last() =~= gv.take(k as int));
            assert(gv.take(k as int + 1).last() == gv[k as int]);
            assert(aliases_view(out@) =~= schema_aliases(gv.take(k as int + 1)));
        }
        k = k + 1;
    }
    proof {
        assert(gv.take(gv.len() as int) =~= gv);
    }
    out
}

/// Emit the type definition of one group.
#[verifier::loop_isolation(false)]
pub fn emit_type_def(g: &GroupSpec) -> (t: TypeDef)
    requires
        group_wf(g@),
    ensures
        t@ == type_def_of(g@),
{
    let ghost fv: Seq<FieldView> = g@.fields;
    let mut fds: Vec<FieldDef> = Vec::new();
    proof {
        assert(field_defs_view(fds@) =~= field_defs_of(fv.take(0)));
    }
    let mut j: usize = 0;
    while j < g.fields.len()
        invariant
            0 <= j <= g.fields@.len(),
            g.fields@.len() == fv.len(),
            field_defs_view(fds@) == field_defs_of(fv.take(j as int)),
        decreases g.fields@.len() - j,
    {
        proof {
            assert(fv[j as int] == g.fields@[j as int]@);
            assert(field_wf(fv[j as int]));
        }
        let dirs = clone_strings(&g.fields[j].directives);
        let name = g.fields[j].dest.clone();
        let tyv = &g.fields[j].ty;
        let ty = tyv[tyv.len() - 1].clone();
        proof {
            assert(tyv.deep_view()[tyv@.len() - 1] == tyv@[tyv@.len() - 1]@);
            assert(ty@ == decl_of(fv[j as int].ty));
        }
        let fd = FieldDef { directives: dirs, name, ty };
        proof {
            assert(fd@ == field_def_of(fv[j as int]));
        }
        fds.push(fd);
        proof {
            assert(field_defs_view(fds@) =~= field_defs_of(fv.take(j as int + 1)));
        }
        j = j + 1;
    }
    let dirs = clone_strings(&g.directives);
    let name = g.ty_name.clone();
    let t = TypeDef { directives: dirs, name, fields: fds };
    proof {
        assert(fv.take(fv.len() as int) =~= fv);
        assert(t@.fields =~= type_def_of(g@).fields);
        assert(t@ == type_def_of(g@));
    }
    t
}

/// Emit the extraction assignments of one group.
#[verifier::loop_isolation(false)]
pub fn emit_init(g: &GroupSpec) -> (t: GroupInit)
    ensures
        t@ == init_of(g@),
{
    let ghost fv: Seq<FieldView> = g@.fields;
    let mut assigns: Vec<Assign> = Vec::new();
    proof {
        assert(assigns_view(assigns@) =~= assigns_of(fv.take(0)));
    }
    let mut j: usize = 0;
    while j < g.fields.len()
        invariant
            0 <= j <= g.fields@.len(),
            g.fields@.len() == fv.len(),
            assigns_view(assigns@) == assigns_of(fv.take(j as int)),
        decreases g.fields@.len() - j,
    {
        proof {
            assert(fv[j as int] == g.fields@[j as int]@);
        }
        let dest = g.fields[j].dest.clone();
        let source = g.fields[j].source.clone();
        assigns.push(Assign { dest, source });
        proof {
            assert(assigns_view(assigns@) =~= assigns_of(fv.take(j as int + 1)));
        }
        j = j + 1;
    }
    let t = GroupInit { group: g.name.clone(), ty_name: g.ty_name.clone(), assigns };
    proof {
        assert(fv.take(fv.len() as int) =~= fv);
        assert(t@.assigns =~= init_of(g@).assigns);
        assert(t@ == init_of(g@));
    }
    t
}

/// Emit the aggregate-of-groups type definition.
#[verifier::loop_isolation(false)]
pub fn emit_aggregate(gs: &Vec<GroupSpec>) -> (t: TypeDef)
    ensures
        t@ == aggregate_of(groups_view(gs@)),
{
    let ghost gv: Seq<GroupView> = groups_view(gs@);
    let mut fds: Vec<FieldDef> = Vec::new();
    proof {
        assert(field_defs_view(fds@) =~= agg_fields_of(gv.take(0)));
    }
    let mut k: usize = 0;
    while k < gs.len()
        invariant
            0 <= k <= gs@.len(),
            gs@.len() == gv.len(),
            field_defs_view(fds@) == agg_fields_of(gv.take(k as int)),
        decreases gs@.len() - k,
    {
        proof {
            assert(gv[k as int] == gs@[k as int]@);
        }
        let name = gs[k].name.clone();
        let ty = gs[k].ty_name.clone();
        let fd = FieldDef { directives: Vec::new(), name, ty };
        proof {
            assert(fd@.directives =~= Seq::<Seq<char>>::empty());
            assert(fd@ == FieldDefView {
                directives: Seq::<Seq<char>>::empty(),
                name: gv[k as int].name,
                ty: gv[k as int].ty_name,
            });
        }
        fds.push(fd);
        proof {
            assert(field_defs_view(fds@) =~= agg_fields_of(gv.take(k as int + 1)));
        }
        k = k + 1;
    }
    let name = String::from_str("AssignedResources");
    let t = TypeDef { directives: Vec::new(), name, fields: fds };
    proof {
        assert(gv.take(gv.len() as int) =~= gv);
        assert(t@.fields =~= aggregate_of(gv).fields);
        assert(t@.directives =~= aggregate_of(gv).directives);
        assert(t@ == aggregate_of(gv));
    }
    t
}

/// No two entries of the list are the same text.
pub open spec fn distinct(xs: Seq<Seq<char>>) -> bool {
    forall|p: int, q: int| 0 <= p < q < xs.len() ==> xs[p] != xs[q]
}

pub open spec fn alias_names(gs: Seq<GroupView>) -> Seq<Seq<char>> {
    alias_decl_names(schema_aliases(gs))
}

pub open spec fn group_names(gs: Seq<GroupView>) -> Seq<Seq<char>> {
    gs.map_values(|g: GroupView| g.name)
}

pub open spec fn group_ty_names(gs: Seq<GroupView>) -> Seq<Seq<char>> {
    gs.map_values(|g: GroupView| g.ty_name)
}

pub open spec fn dests_ok(gs: Seq<GroupView>) -> bool {
    forall|k: int| 0 <= k < gs.len() ==> distinct(dest_names(#[trigger] gs[k]))
}

/// The uniqueness invariants a schema must meet before emission: alias
/// identifiers unique across the schema, destination names unique within
/// each group, group names and group type names unique across the schema.
pub open spec fn schema_valid(gs: Seq<GroupView>) -> bool {
    &&& distinct(alias_names(gs))
    &&& dests_ok(gs)
    &&& distinct(group_names(gs))
    &&& distinct(group_ty_names(gs))
}

/// The diagnostic reported for an invalid schema, checked in this order.
pub open spec fn validate_error(gs: Seq<GroupView>) -> SchemaError {
    if !distinct(alias_names(gs)) {
        SchemaError::DuplicateAlias
    } else if !dests_ok(gs) {
        SchemaError::DuplicateDest
    } else if !distinct(group_names(gs)) {
        SchemaError::DuplicateGroupName
    } else {
        SchemaError::DuplicateGroupType
    }
}

#[verifier::loop_isolation(false)]
fn distinct_names(v: &Vec<String>) -> (b: bool)
    ensures
        b == distinct(v.deep_view()),
{
    let ghost dv: Seq<Seq<char>> = v.deep_view();
    let mut p: usize = 0;
    while p < v.len()
        invariant
            0 <= p <= v@.len(),
            forall|a: int, b: int| 0 <= a < b < dv.len() && a < p ==> dv[a] != dv[b],
        decreases v@.len() - p,
    {
        let mut q: usize = p + 1;
        while q < v.len()
            invariant
                p < v@.len(),
                p + 1 <= q <= v@.len(),
                forall|b: int| p < b < q ==> dv[p as int] != dv[b],
            decreases v@.len() - q,
        {
            if v[p].eq(&v[q]) {
                proof {
                    assert(dv[p as int] == v@[p as int]@);
                    assert(dv[q as int] == v@[q as int]@);
                    assert(!distinct(dv));
                }
                return false;
            }
            proof {
                assert(dv[p as int] == v@[p as int]@);
                assert(dv[q as int] == v@[q as int]@);
            }
            q = q + 1;
        }
        p = p + 1;
    }
    true
}

#[verifier::loop_isolation(false)]
fn dest_name_vec(g: &GroupSpec) -> (v: Vec<String>)
    ensures
        v.deep_view() == dest_names(g@),
{
    let ghost fv: Seq<FieldView> = g@.fields;
    let mut v: Vec<String> = Vec::new();
    proof {
        assert(v.deep_view() =~= dests_of(fv.take(0)));
    }
    let mut j: usize = 0;
    while j < g.fields.len()
        invariant
            0 <= j <= g.fields@.len(),
            g.fields@.len() == fv.len(),
            v.deep_view() == dests_of(fv.take(j as int)),
        decreases g.fields@.len() - j,
    {
        proof {
            assert(fv[j as int] == g.fields@[j as int]@);
        }
        let d = g.fields[j].dest.clone();
        v.push(d);
        proof {
            assert(v.deep_view() =~= dests_of(fv.take(j as int + 1)));
        }
        j = j + 1;
    }
    proof {
        assert(fv.take(fv.len() as int) =~= fv);
        assert(v.deep_view() =~= dest_names(g@));
    }
    v
}

/// Check every uniqueness invariant of the schema, in the fixed diagnostic
/// order, over the already-collected alias declarations.
#[verifier::loop_isolation(false)]
pub fn validate_schema(gs: &Vec<GroupSpec>, aliases: &Vec<AliasDecl>) -> (r: Result<
    (),
    SchemaError,
>)
    requires
        aliases_view(aliases@) == schema_aliases(groups_view(gs@)),
    ensures
        match r {
            Ok(()) => schema_valid(groups_view(gs@)),
            Err(e) => !schema_valid(groups_view(gs@)) && e == validate_error(groups_view(gs@)),
        },
{
    let ghost gv: Seq<GroupView> = groups_view(gs@);
    let mut names: Vec<String> = Vec::new();
    let mut i: usize = 0;
    proof {
        assert(names.deep_view() =~= alias_decl_names(aliases_view(aliases@).take(0)));
    }
    while i < aliases.len()
        invariant
            0 <= i <= aliases@.len(),
            names.deep_view() == alias_decl_names(aliases_view(aliases@).take(i as int)),
        decreases aliases@.len() - i,
    {
        proof {
            assert(aliases_view(aliases@)[i as int] == aliases@[i as int]@);
        }
        let n = aliases[i].name.clone();
        names.push(n);
        proof {
            assert(names.deep_view() =~= alias_decl_names(
                aliases_view(aliases@).take(i as int + 1),
            ));
        }
        i = i + 1;
    }
    proof {
        assert(aliases_view(aliases@).take(aliases@.len() as int) =~= aliases_view(aliases@));
        assert(names.deep_view() =~= alias_names(gv));
    }
    if !distinct_names(&names) {
        return Err(SchemaError::DuplicateAlias);
    }
    let mut k: usize = 0;
    while k < gs.len()
        invariant
            0 <= k <= gs@.len(),
            distinct(alias_names(gv)),
            forall|k2: int| 0 <= k2 < k ==> distinct(dest_names(#[trigger] gv[k2])),
        decreases gs@.len() - k,
    {
        proof {
            assert(gv[k as int] == gs@[k as int]@);
        }
        let dests = dest_name_vec(&gs[k]);
        if !distinct_names(&dests) {
            proof {
                assert(!distinct(dest_names(gv[k as int])));
                assert(!dests_ok(gv));
            }
            return Err(SchemaError::DuplicateDest);
        }
        k = k + 1;
    }
    proof {
        assert(dests_ok(gv));
    }
    let mut gnames: Vec<String> = Vec::new();
    let mut tnames: Vec<String> = Vec::new();
    let mut m: usize = 0;
    proof {
        assert(gnames.deep_view() =~= group_names(gv.take(0)));
        assert(tnames.deep_view() =~= group_ty_names(gv.take(0)));
    }
    while m < gs.len()
        invariant
            0 <= m <= gs@.len(),
            gnames.deep_view() == group_names(gv.take(m as int)),
            tnames.deep_view() == group_ty_names(gv.take(m as int)),
        decreases gs@.len() - m,
    {
        proof {
            assert(gv[m as int] == gs@[m as int]@);
        }
        let gn = gs[m].name.clone();
        let tn = gs[m].ty_name.clone();
        gnames.push(gn);
        tnames.push(tn);
        proof {
            assert(gnames.deep_view() =~= group_names(gv.take(m as int + 1)));
            assert(tnames.deep_view() =~= group_ty_names(gv.take(m as int + 1)));
        }
        m = m + 1;
    }
    proof {
        assert(gv.take(gv.len() as int) =~= gv);
        assert(gnames.deep_view() =~= group_names(gv));
        assert(tnames.deep_view() =~= group_ty_names(gv));
    }
    if !distinct_names(&gnames) {
        return Err(SchemaError::DuplicateGroupName);
    }
    if !distinct_names(&tnames) {
        return Err(SchemaError::DuplicateGroupType);
    }
    Ok(())
}

pub open spec fn type_defs_of(gs: Seq<GroupView>) -> Seq<TypeDefView> {
    gs.map_values(|g: GroupView| type_def_of(g))
}

pub open spec fn inits_of(gs: Seq<GroupView>) -> Seq<GroupInitView> {
    gs.map_values(|g: GroupView| init_of(g))
}

pub open spec fn type_defs_view(v: Seq<TypeDef>) -> Seq<TypeDefView> {
    v.map_values(|t: TypeDef| t@)
}

pub open spec fn inits_view(v: Seq<GroupInit>) -> Seq<GroupInitView> {
    v.map_values(|i: GroupInit| i@)
}

/// Emit the type definition of every group, in schema order.
#[verifier::loop_isolation(false)]
pub fn emit_type_defs(gs: &Vec<GroupSpec>) -> (r: Vec<TypeDef>)
    requires
        schema_wf(groups_view(gs@)),
    ensures
        type_defs_view(r@) == type_defs_of(groups_view(gs@)),
{
    let ghost gv: Seq<GroupView> = groups_view(gs@);
    let mut out: Vec<TypeDef> = Vec::new();
    proof {
        assert(type_defs_view(out@) =~= type_defs_of(gv.take(0)));
    }
    let mut k: usize = 0;
    while k < gs.len()
        invariant
            0 <= k <= gs@.len(),
            gs@.len() == gv.len(),
            type_defs_view(out@) == type_defs_of(gv.take(k as int)),
        decreases gs@.len() - k,
    {
        proof {
            assert(gv[k as int] == gs@[k as int]@);
        }
        let td = emit_type_def(&gs[k]);
        out.push(td);
        proof {
            assert(type_defs_view(out@) =~= type_defs_of(gv.take(k as int + 1)));
        }
        k = k + 1;
    }
    proof {
        assert(gv.take(gv.len() as int) =~= gv);
    }
    out
}

/// Emit the extraction assignments of every group, in schema order.
#[verifier::loop_isolation(false)]
pub fn emit_inits(gs: &Vec<GroupSpec>) -> (r: Vec<GroupInit>)
    ensures
        inits_view(r@) == inits_of(groups_view(gs@)),
{
    let ghost gv: Seq<GroupView> = groups_view(gs@);
    let mut out: Vec<GroupInit> = Vec::new();
    proof {
        assert(inits_view(out@) =~= inits_of(gv.take(0)));
    }
    let mut k: usize = 0;
    while k < gs.len()
        invariant
            0 <= k <= gs@.len(),
            gs@.len() == gv.len(),
            inits_view(out@) == inits_of(gv.take(k as int)),
        decreases gs@.len() - k,
    {
        proof {
            assert(gv[k as int] == gs@[k as int]@);
        }
        let gi = emit_init(&gs[k]);
        out.push(gi);
        proof {
            assert(inits_view(out@) =~= inits_of(gv.take(k as int + 1)));
        }
        k = k + 1;
    }
    proof {
        assert(gv.take(gv.len() as int) =~= gv);
    }
    out
}

} // verus!
