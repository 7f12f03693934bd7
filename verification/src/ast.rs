//! The schema representation: groups of fields drawn from one aggregate value,
//! together with the mathematical view of each entity.

use vstd::prelude::*;

verus! {

/// One field of a group: a destination name, the identifier of the aggregate
/// field it is drawn from, the declared type expression (as path segments),
/// the directives attached to it, and an optional alias identifier.
pub struct FieldSpec {
    pub dest: String,
    pub source: String,
    pub ty: Vec<String>,
    pub directives: Vec<String>,
    pub alias: Option<String>,
}

/// One group: the name it carries on the aggregate-of-groups, its type name,
/// its outer directives, and its fields in declaration order.
pub struct GroupSpec {
    pub name: String,
    pub ty_name: String,
    pub directives: Vec<String>,
    pub fields: Vec<FieldSpec>,
}

/// Mathematical view of a `FieldSpec`.
pub ghost struct FieldView {
    pub dest: Seq<char>,
    pub source: Seq<char>,
    pub ty: Seq<Seq<char>>,
    pub directives: Seq<Seq<char>>,
    pub alias: Option<Seq<char>>,
}

/// Mathematical view of a `GroupSpec`.
pub ghost struct GroupView {
    pub name: Seq<char>,
    pub ty_name: Seq<char>,
    pub directives: Seq<Seq<char>>,
    pub fields: Seq<FieldView>,
}

impl View for FieldSpec {
    type V = FieldView;

    open spec fn view(&self) -> FieldView {
        FieldView {
            dest: self.dest@,
            source: self.source@,
            ty: self.ty.deep_view(),
            directives: self.directives.deep_view(),
            alias: match self.alias {
                Some(a) => Some(a@),
                None => None,
            },
        }
    }
}

impl View for GroupSpec {
    type V = GroupView;

    open spec fn view(&self) -> GroupView {
        GroupView {
            name: self.name@,
            ty_name: self.ty_name@,
            directives: self.directives.deep_view(),
            fields: self.fields@.map_values(|f: FieldSpec| f@),
        }
    }
}

/// The declaration rendering of a type expression: the bare last segment,
/// stripped of any path qualification.
pub open spec fn decl_of(ty: Seq<Seq<char>>) -> Seq<char> {
    if ty.len() == 0 {
        Seq::empty()
    } else {
        ty.last()
    }
}

/// The access rendering of a type expression: the segments joined by `::`,
/// i.e. the full expression as the author wrote it.
pub open spec fn access_of(ty: Seq<Seq<char>>) -> Seq<char>
    decreases ty.len(),
{
    if ty.len() == 0 {
        Seq::empty()
    } else if ty.len() == 1 {
        ty[0]
    } else {
        access_of(ty.drop_last()) + "::"@ + ty.last()
    }
}

/// A well-formed field names at least one type segment.
pub open spec fn field_wf(f: FieldView) -> bool {
    f.ty.len() > 0
}

pub open spec fn group_wf(g: GroupView) -> bool {
    forall|j: int| 0 <= j < g.fields.len() ==> field_wf(#[trigger] g.fields[j])
}

pub open spec fn schema_wf(groups: Seq<GroupView>) -> bool {
    forall|k: int| 0 <= k < groups.len() ==> group_wf(#[trigger] groups[k])
}

/// The destination names a group declares, in order.
pub open spec fn dest_names(g: GroupView) -> Seq<Seq<char>> {
    g.fields.map_values(|f: FieldView| f.dest)
}

/// The source field identifiers a group claims from the aggregate, in order.
pub open spec fn source_names(g: GroupView) -> Seq<Seq<char>> {
    g.fields.map_values(|f: FieldView| f.source)
}

} // verus!
