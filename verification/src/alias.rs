//! The alias extractor: scan each field's directives for an alias request in
//! either accepted form (`alias = Name`, or `alias(Name)`), strip every alias
//! directive from the field's emitted directive list, and collect one alias
//! declaration per aliased field.

use vstd::prelude::*;
use crate::SchemaError;
use crate::ast::{FieldSpec, FieldView, GroupSpec, GroupView};
use crate::lexer::{
    is_ws, is_ident_start, ident_end, lemma_ident_end, is_ws_exec, is_ident_start_exec, scan_ident,
};
use crate::parser::{fields_view, groups_view};

verus! {

/// The first position at or after `i` that holds no whitespace.
pub open spec fn ws_end(s: Seq<char>, i: int) -> int
    decreases s.len() - i
        when 0 <= i <= s.len()
{
    if i < s.len() && is_ws(s[i]) {
        ws_end(s, i + 1)
    } else {
        i
    }
}

pub(crate) fn scan_ws(s: &str, i: usize, n: usize) -> (j: usize)
    requires
        i <= n == s@.len(),
    ensures
        j == ws_end(s@, i as int),
        i <= j <= n,
    decreases n - i,
{
    if i < n && is_ws_exec(s.get_char(i)) {
        scan_ws(s, i + 1, n)
    } else {
        i
    }
}

/// The alias identifier a directive body requests, if the body is an alias
/// directive: `alias = Name` (the name/value form) or `alias(Name)` (the
/// standalone form), with any whitespace around the parts.
pub open spec fn alias_of_dir(d: Seq<char>) -> Option<Seq<char>> {
    let i = ws_end(d, 0);
    let j = ident_end(d, i);
    if i < d.len() && is_ident_start(d[i]) && d.subrange(i, j) == "alias"@ {
        let k = ws_end(d, j);
        if k < d.len() && d[k] == '=' {
            let m = ws_end(d, k + 1);
            if m < d.len() && is_ident_start(d[m]) {
                let e = ident_end(d, m);
                if ws_end(d, e) == d.len() {
                    Some(d.subrange(m, e))
                } else {
                    None
                }
            } else {
                None
            }
        } else if k < d.len() && d[k] == '(' {
            let m = ws_end(d, k + 1);
            if m < d.len() && is_ident_start(d[m]) {
                let e = ident_end(d, m);
                let c = ws_end(d, e);
                if c < d.len() && d[c] == ')' && ws_end(d, c + 1) == d.len() {
                    Some(d.subrange(m, e))
                } else {
                    None
                }
            } else {
                None
            }
        } else {
            None
        }
    } else {
        None
    }
}

fn str_eq(a: &str, b: &str) -> (r: bool)
    ensures
        r == (a@ == b@),
{
    let x = a.to_owned();
    let y = b.to_owned();
    x.eq(&y)
}

/// Decide whether one directive body is an alias directive, and of which
/// alias identifier.
pub fn alias_of_directive(d: &str) -> (r: Option<String>)
    ensures
        match r {
            Some(a) => alias_of_dir(d@) == Some(a@),
            None => alias_of_dir(d@) is None,
        },
{
    let n = d.unicode_len();
    let i = scan_ws(d, 0, n);
    if i < n && is_ident_start_exec(d.get_char(i)) {
        proof {
            lemma_ident_end(d@, i as int);
        }
        let j = scan_ident(d, i, n);
        let head = d.substring_char(i, j);
        if str_eq(head, "alias") {
            let k = scan_ws(d, j, n);
            if k < n && d.get_char(k) == '=' {
                let m = scan_ws(d, k + 1, n);
                if m < n && is_ident_start_exec(d.get_char(m)) {
                    proof {
                        lemma_ident_end(d@, m as int);
                    }
                    let e = scan_ident(d, m, n);
                    let z = scan_ws(d, e, n);
                    if z == n {
                        Some(d.substring_char(m, e).to_owned())
                    } else {
                        None
                    }
                } else {
                    None
                }
            } else if k < n && d.get_char(k) == '(' {
                let m = scan_ws(d, k + 1, n);
                if m < n && is_ident_start_exec(d.get_char(m)) {
                    proof {
                        lemma_ident_end(d@, m as int);
                    }
                    let e = scan_ident(d, m, n);
                    let c = scan_ws(d, e, n);
                    if c < n && d.get_char(c) == ')' {
                        let z = scan_ws(d, c + 1, n);
                        if z == n {
                            Some(d.substring_char(m, e).to_owned())
                        } else {
                            None
                        }
                    } else {
                        None
                    }
                } else {
                    None
                }
            } else {
                None
            }
        } else {
            None
        }
    } else {
        None
    }
}

/// Split a directive list into the directives kept for emission (the
/// non-alias ones, in original order) and the alias identifiers requested.
pub open spec fn split_alias(ds: Seq<Seq<char>>) -> (Seq<Seq<char>>, Seq<Seq<char>>)
    decreases ds.len(),
{
    if ds.len() == 0 {
        (Seq::<Seq<char>>::empty(), Seq::<Seq<char>>::empty())
    } else {
        let r = split_alias(ds.drop_last());
        match alias_of_dir(ds.last()) {
            Some(a) => (r.0, r.1.push(a)),
            None => (r.0.push(ds.last()), r.1),
        }
    }
}

/// The kept directives are exactly the non-alias ones, in original order.
pub proof fn lemma_split_alias_is_filter(ds: Seq<Seq<char>>)
    ensures
        split_alias(ds).0 == ds.filter(|d: Seq<char>| alias_of_dir(d) is None),
    decreases ds.len(),
{
    reveal(Seq::filter);
    if ds.len() > 0 {
        lemma_split_alias_is_filter(ds.drop_last());
    }
}

/// How many alias requests a field carries: alias directives plus the
/// `= alias` suffix if present. More than one is rejected.
pub open spec fn alias_count(f: FieldView) -> int {
    split_alias(f.directives).1.len() + if f.alias is Some {
        1int
    } else {
        0int
    }
}

/// The field as it is emitted: alias directives stripped, the alias request
/// (from the suffix or from the one alias directive) recorded.
pub open spec fn extracted_field(f: FieldView) -> FieldView {
    FieldView {
        dest: f.dest,
        source: f.source,
        ty: f.ty,
        directives: split_alias(f.directives).0,
        alias: if f.alias is Some {
            f.alias
        } else if split_alias(f.directives).1.len() > 0 {
            Some(split_alias(f.directives).1[0])
        } else {
            None
        },
    }
}

pub open spec fn extracted_fields(fs: Seq<FieldView>) -> Seq<FieldView> {
    fs.map_values(|f: FieldView| extracted_field(f))
}

pub open spec fn group_alias_ok(g: GroupView) -> bool {
    forall|j: int| 0 <= j < g.fields.len() ==> alias_count(#[trigger] g.fields[j]) <= 1
}

pub open spec fn schema_alias_ok(gs: Seq<GroupView>) -> bool {
    forall|k: int| 0 <= k < gs.len() ==> group_alias_ok(#[trigger] gs[k])
}

pub open spec fn extracted_group(g: GroupView) -> GroupView {
    GroupView {
        name: g.name,
        ty_name: g.ty_name,
        directives: g.directives,
        fields: extracted_fields(g.fields),
    }
}

pub open spec fn extracted_schema(gs: Seq<GroupView>) -> Seq<GroupView> {
    gs.map_values(|g: GroupView| extracted_group(g))
}

/// Run the alias extractor over one field.
pub fn extract_field(f: FieldSpec) -> (r: Result<FieldSpec, SchemaError>)
    ensures
        match r {
            Ok(g) => alias_count(f@) <= 1 && g@ == extracted_field(f@),
            Err(e) => alias_count(f@) > 1 && e == SchemaError::ConflictingAlias,
        },
{
    let ghost dv: Seq<Seq<char>> = f.directives.deep_view();
    let mut kept: Vec<String> = Vec::new();
    let mut found: Vec<String> = Vec::new();
    let n = f.directives.len();
    let mut idx: usize = 0;
    proof {
        assert(dv.take(0) =~= Seq::<Seq<char>>::empty());
    }
    while idx < n
        invariant
            n == f.directives@.len(),
            dv == f.directives.deep_view(),
            0 <= idx <= n,
            kept.deep_view() == split_alias(dv.take(idx as int)).0,
            found.deep_view() == split_alias(dv.take(idx as int)).1,
        decreases n - idx,
    {
        let ghost pre = dv.take(idx as int);
        let ghost cur = dv.take(idx as int + 1);
        proof {
            assert(cur.drop_last() =~= pre);
            assert(cur.last() == dv[idx as int]);
            assert(dv[idx as int] == f.directives@[idx as int]@);
        }
        match alias_of_directive(f.directives[idx].as_str()) {
            Some(a) => {
                found.push(a);
                proof {
                    assert(found.deep_view() =~= split_alias(cur).1);
                    assert(kept.deep_view() =~= split_alias(cur).0);
                }
            },
            None => {
                let d = f.directives[idx].clone();
                kept.push(d);
                proof {
                    assert(kept.deep_view() =~= split_alias(cur).0);
                    assert(found.deep_view() =~= split_alias(cur).1);
                }
            },
        }
        idx = idx + 1;
    }
    proof {
        assert(dv.take(n as int) =~= dv);
    }
    if (f.alias.is_some() && found.len() > 0) || found.len() > 1 {
        return Err(SchemaError::ConflictingAlias);
    }
    let alias = if f.alias.is_some() {
        f.alias
    } else if found.len() == 1 {
        let a = found.remove(0);
        Some(a)
    } else {
        None
    };
    Ok(FieldSpec { dest: f.dest, source: f.source, ty: f.ty, directives: kept, alias })
}

/// Run the alias extractor over every field of one group.
#[verifier::loop_isolation(false)]
pub fn extract_group(g: GroupSpec) -> (r: Result<GroupSpec, SchemaError>)
    ensures
        match r {
            Ok(h) => group_alias_ok(g@) && h@ == extracted_group(g@),
            Err(e) => !group_alias_ok(g@) && e == SchemaError::ConflictingAlias,
        },
{
    let ghost gv: GroupView = g@;
    let ghost orig: Seq<FieldSpec> = g.fields@;
    let mut rest = g.fields;
    let mut fs: Vec<FieldSpec> = Vec::new();
    proof {
        assert(gv.fields =~= fields_view(orig));
        assert(rest@ =~= orig.subrange(0, orig.len() as int));
        assert(fields_view(fs@) =~= Seq::<FieldView>::empty());
        assert(extracted_fields(fields_view(orig).take(0)) =~= Seq::<FieldView>::empty());
    }
    while rest.len() > 0
        invariant
            fs@.len() + rest@.len() == orig.len(),
            rest@ == orig.subrange(fs@.len() as int, orig.len() as int),
            fields_view(fs@) == extracted_fields(fields_view(orig).take(fs@.len() as int)),
            forall|j: int|
                0 <= j < fs@.len() ==> alias_count(#[trigger] fields_view(orig)[j]) <= 1,
        decreases rest@.len(),
    {
        let ghost i = fs@.len() as int;
        let f = rest.remove(0);
        proof {
            assert(f == orig[i]);
            assert(rest@ =~= orig.subrange(i + 1, orig.len() as int));
            assert(fields_view(orig)[i] == orig[i]@);
        }
        match extract_field(f) {
            Ok(h) => {
                let ghost fs_pre = fs@;
                fs.push(h);
                proof {
                    let pre = fields_view(orig).take(i);
                    let cur = fields_view(orig).take(i + 1);
                    assert(cur =~= pre.push(fields_view(orig)[i]));
                    assert(fs@ =~= fs_pre.push(h));
                    assert forall|j: int| 0 <= j < fs@.len() implies fields_view(fs@)[j]
                        == extracted_fields(cur)[j] by {
                        assert(fields_view(fs@)[j] == fs@[j]@);
                        assert(extracted_fields(cur)[j] == extracted_field(cur[j]));
                        if j < i {
                            assert(fields_view(fs_pre)[j] == fs_pre[j]@);
                            assert(extracted_fields(pre)[j] == extracted_field(pre[j]));
                        }
                    }
                    assert(fields_view(fs@) =~= extracted_fields(cur));
                }
            },
            Err(e) => {
                proof {
                    assert(gv.fields =~= fields_view(orig));
                    assert(alias_count(gv.fields[i]) > 1);
                }
                return Err(e);
            },
        }
    }
    proof {
        assert(fields_view(orig).take(orig.len() as int) =~= fields_view(orig));
        assert(gv.fields =~= fields_view(orig));
    }
    Ok(GroupSpec { name: g.name, ty_name: g.ty_name, directives: g.directives, fields: fs })
}

/// Run the alias extractor over every group of a schema.
#[verifier::loop_isolation(false)]
pub fn extract_schema(gs: Vec<GroupSpec>) -> (r: Result<Vec<GroupSpec>, SchemaError>)
    ensures
        match r {
            Ok(hs) => schema_alias_ok(groups_view(gs@)) && groups_view(hs@) == extracted_schema(
                groups_view(gs@),
            ),
            Err(e) => !schema_alias_ok(groups_view(gs@)) && e == SchemaError::ConflictingAlias,
        },
{
    let ghost orig: Seq<GroupSpec> = gs@;
    let mut rest = gs;
    let mut out: Vec<GroupSpec> = Vec::new();
    proof {
        assert(groups_view(gs@) =~= groups_view(orig));
        assert(rest@ =~= orig.subrange(0, orig.len() as int));
        assert(groups_view(out@) =~= Seq::<GroupView>::empty());
        assert(extracted_schema(groups_view(orig).take(0)) =~= Seq::<GroupView>::empty());
    }
    while rest.len() > 0
        invariant
            out@.len() + rest@.len() == orig.len(),
            rest@ == orig.subrange(out@.len() as int, orig.len() as int),
            groups_view(out@) == extracted_schema(groups_view(orig).take(out@.len() as int)),
            forall|k: int| 0 <= k < out@.len() ==> group_alias_ok(#[trigger] groups_view(orig)[k]),
        decreases rest@.len(),
    {
        let ghost i = out@.len() as int;
        let g = rest.remove(0);
        proof {
            assert(g == orig[i]);
            assert(rest@ =~= orig.subrange(i + 1, orig.len() as int));
            assert(groups_view(orig)[i] == orig[i]@);
        }
        match extract_group(g) {
            Ok(h) => {
                let ghost out_pre = out@;
                out.push(h);
                proof {
                    let pre = groups_view(orig).take(i);
                    let cur = groups_view(orig).take(i + 1);
                    assert(cur =~= pre.push(groups_view(orig)[i]));
                    assert(out@ =~= out_pre.push(h));
                    assert forall|k: int| 0 <= k < out@.len() implies groups_view(out@)[k]
                        == extracted_schema(cur)[k] by {
                        assert(groups_view(out@)[k] == out@[k]@);
                        assert(extracted_schema(cur)[k] == extracted_group(cur[k]));
                        if k < i {
                            assert(groups_view(out_pre)[k] == out_pre[k]@);
                            assert(extracted_schema(pre)[k] == extracted_group(pre[k]));
                        }
                    }
                    assert(groups_view(out@) =~= extracted_schema(cur));
                }
            },
            Err(e) => {
                proof {
                    assert(!group_alias_ok(groups_view(orig)[i]));
                    assert(!schema_alias_ok(groups_view(orig)));
                }
                return Err(e);
            },
        }
    }
    proof {
        assert(groups_view(orig).take(orig.len() as int) =~= groups_view(orig));
    }
    Ok(out)
}

/// Alias extraction leaves every field's type expression in place, so it
/// preserves well-formedness.
pub proof fn lemma_extracted_group_wf(g: GroupView)
    requires
        crate::ast::group_wf(g),
    ensures
        crate::ast::group_wf(extracted_group(g)),
{
    assert forall|j: int| 0 <= j < extracted_group(g).fields.len() implies crate::ast::field_wf(
        #[trigger] extracted_group(g).fields[j],
    ) by {
        assert(extracted_group(g).fields[j] == extracted_field(g.fields[j]));
    }
}

pub proof fn lemma_extracted_schema_wf(gs: Seq<GroupView>)
    requires
        crate::ast::schema_wf(gs),
    ensures
        crate::ast::schema_wf(extracted_schema(gs)),
{
    assert forall|k: int| 0 <= k < extracted_schema(gs).len() implies crate::ast::group_wf(
        #[trigger] extracted_schema(gs)[k],
    ) by {
        assert(extracted_schema(gs)[k] == extracted_group(gs[k]));
        lemma_extracted_group_wf(gs[k]);
    }
}

} // verus!
