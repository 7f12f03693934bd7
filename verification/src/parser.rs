//! The schema grammar over tokens, in two shapes: a single annotated struct
//! (one group, directives carried on the struct and its fields), and a schema
//! block (one or more named group blocks). Each executable parser is proved
//! equal to the mathematical grammar function it implements.

use vstd::prelude::*;
use crate::SchemaError;
use crate::ast::{FieldSpec, FieldView, GroupSpec, GroupView, field_wf, group_wf};
use crate::lexer::{Token, TokenView, lex_from, tokens_view, lex_schema};

verus! {

pub open spec fn fields_view(fs: Seq<FieldSpec>) -> Seq<FieldView> {
    fs.map_values(|f: FieldSpec| f@)
}

pub open spec fn groups_view(gs: Seq<GroupSpec>) -> Seq<GroupView> {
    gs.map_values(|g: GroupSpec| g@)
}

/// The run of directive tokens that starts at `i`: their bodies, and the
/// position of the first token after them.
pub open spec fn dirs_at(t: Seq<TokenView>, i: int) -> (Seq<Seq<char>>, int)
    decreases t.len() - i
        when 0 <= i <= t.len()
{
    if i < t.len() && (t[i] matches TokenView::Directive(_)) {
        match t[i] {
            TokenView::Directive(d) => {
                let r = dirs_at(t, i + 1);
                (seq![d] + r.0, r.1)
            },
            _ => (Seq::<Seq<char>>::empty(), i),
        }
    } else {
        (Seq::<Seq<char>>::empty(), i)
    }
}

pub proof fn lemma_dirs_at(t: Seq<TokenView>, i: int)
    requires
        0 <= i <= t.len(),
    ensures
        i <= dirs_at(t, i).1 <= t.len(),
    decreases t.len() - i,
{
    if i < t.len() && (t[i] matches TokenView::Directive(_)) {
        lemma_dirs_at(t, i + 1);
    }
}

/// A qualified type path at `i`: an identifier, then any number of
/// `::`-separated identifiers.
pub open spec fn path_at(t: Seq<TokenView>, i: int) -> Option<(Seq<Seq<char>>, int)>
    decreases t.len() - i
        when 0 <= i <= t.len()
{
    if i < t.len() && (t[i] matches TokenView::Ident(_)) {
        match t[i] {
            TokenView::Ident(seg) => {
                if i + 2 < t.len() && t[i + 1] is PathSep && (t[i + 2] matches TokenView::Ident(
                    _,
                )) {
                    match path_at(t, i + 2) {
                        None => None,
                        Some((rest, j)) => Some((seq![seg] + rest, j)),
                    }
                } else {
                    Some((seq![seg], i + 1))
                }
            },
            _ => None,
        }
    } else {
        None
    }
}

pub proof fn lemma_path_at(t: Seq<TokenView>, i: int)
    requires
        0 <= i <= t.len(),
        path_at(t, i) is Some,
    ensures
        i < path_at(t, i).unwrap().1 <= t.len(),
        path_at(t, i).unwrap().0.len() > 0,
    decreases t.len() - i,
{
    if i < t.len() && (t[i] matches TokenView::Ident(_)) {
        if i + 2 < t.len() && t[i + 1] is PathSep && (t[i + 2] matches TokenView::Ident(_)) {
            lemma_path_at(t, i + 2);
        }
    }
}

pub open spec fn mk_field(
    dirs: Seq<Seq<char>>,
    dest: Seq<char>,
    ty: Seq<Seq<char>>,
    alias: Option<Seq<char>>,
) -> FieldView {
    FieldView { dest, source: ty.last(), ty, directives: dirs, alias }
}

/// One field at `i`: directives, a destination name, `:`, a type path, and an
/// optional `= alias` suffix.
pub open spec fn field_at(t: Seq<TokenView>, i: int) -> Option<(FieldView, int)> {
    let dj = dirs_at(t, i);
    let j = dj.1;
    if j + 1 < t.len() && (t[j] matches TokenView::Ident(_)) && t[j + 1] is Colon {
        match t[j] {
            TokenView::Ident(dest) => match path_at(t, j + 2) {
                None => None,
                Some((ty, k)) => {
                    if k + 1 < t.len() && t[k] is Equals && (t[k + 1] matches TokenView::Ident(
                        _,
                    )) {
                        match t[k + 1] {
                            TokenView::Ident(a) => Some((mk_field(dj.0, dest, ty, Some(a)), k + 2)),
                            _ => None,
                        }
                    } else {
                        Some((mk_field(dj.0, dest, ty, None), k))
                    }
                },
            },
            _ => None,
        }
    } else {
        None
    }
}

pub proof fn lemma_field_at(t: Seq<TokenView>, i: int)
    requires
        0 <= i <= t.len(),
        field_at(t, i) is Some,
    ensures
        i < field_at(t, i).unwrap().1 <= t.len(),
        field_wf(field_at(t, i).unwrap().0),
{
    lemma_dirs_at(t, i);
    let j = dirs_at(t, i).1;
    if j + 1 < t.len() && (t[j] matches TokenView::Ident(_)) && t[j + 1] is Colon {
        if path_at(t, j + 2) is Some {
            lemma_path_at(t, j + 2);
        }
    }
}

/// The fields between a `{` already consumed and its `}`: comma separated,
/// one trailing comma permitted. Returns the position after the `}`.
pub open spec fn field_list_at(t: Seq<TokenView>, i: int) -> Option<(Seq<FieldView>, int)>
    decreases t.len() - i
        when 0 <= i <= t.len()
        via field_list_at_dec
{
    if i < t.len() && t[i] is RBrace {
        Some((Seq::<FieldView>::empty(), i + 1))
    } else {
        match field_at(t, i) {
            None => None,
            Some((f, j)) => {
                if j < t.len() && t[j] is Comma {
                    match field_list_at(t, j + 1) {
                        None => None,
                        Some((fs, k)) => Some((seq![f] + fs, k)),
                    }
                } else if j < t.len() && t[j] is RBrace {
                    Some((seq![f], j + 1))
                } else {
                    None
                }
            },
        }
    }
}

#[via_fn]
proof fn field_list_at_dec(t: Seq<TokenView>, i: int) {
    if 0 <= i <= t.len() && !(i < t.len() && t[i] is RBrace) {
        if field_at(t, i) is Some {
            lemma_field_at(t, i);
        }
    }
}

pub proof fn lemma_field_list_at(t: Seq<TokenView>, i: int)
    requires
        0 <= i <= t.len(),
        field_list_at(t, i) is Some,
    ensures
        i < field_list_at(t, i).unwrap().1 <= t.len(),
    decreases t.len() - i,
{
    if i < t.len() && t[i] is RBrace {
    } else {
        lemma_field_at(t, i);
        let (f, j) = field_at(t, i).unwrap();
        if j < t.len() && t[j] is Comma {
            lemma_field_list_at(t, j + 1);
        }
    }
}

/// One group block at `i`: directives, `name : TypeName { fields }`, with one
/// optional comma after the closing brace.
pub open spec fn group_at(t: Seq<TokenView>, i: int) -> Option<(GroupView, int)> {
    let dj = dirs_at(t, i);
    let j = dj.1;
    if j + 3 < t.len() && (t[j] matches TokenView::Ident(_)) && t[j + 1] is Colon && (t[j
        + 2] matches TokenView::Ident(_)) && t[j + 3] is LBrace {
        match (t[j], t[j + 2]) {
            (TokenView::Ident(name), TokenView::Ident(tn)) => match field_list_at(t, j + 4) {
                None => None,
                Some((fs, k)) => {
                    let g = GroupView { name, ty_name: tn, directives: dj.0, fields: fs };
                    if k < t.len() && t[k] is Comma {
                        Some((g, k + 1))
                    } else {
                        Some((g, k))
                    }
                },
            },
            _ => None,
        }
    } else {
        None
    }
}

pub proof fn lemma_group_at(t: Seq<TokenView>, i: int)
    requires
        0 <= i <= t.len(),
        group_at(t, i) is Some,
    ensures
        i < group_at(t, i).unwrap().1 <= t.len(),
{
    lemma_dirs_at(t, i);
    let j = dirs_at(t, i).1;
    if j + 3 < t.len() && field_list_at(t, j + 4) is Some {
        lemma_field_list_at(t, j + 4);
    }
}

/// One or more group blocks that together cover all tokens from `i` on.
pub open spec fn groups_at(t: Seq<TokenView>, i: int) -> Option<(Seq<GroupView>, int)>
    decreases t.len() - i
        when 0 <= i <= t.len()
        via groups_at_dec
{
    match group_at(t, i) {
        None => None,
        Some((g, j)) => {
            if j == t.len() {
                Some((seq![g], j))
            } else {
                match groups_at(t, j) {
                    None => None,
                    Some((gs, k)) => Some((seq![g] + gs, k)),
                }
            }
        },
    }
}

#[via_fn]
proof fn groups_at_dec(t: Seq<TokenView>, i: int) {
    if 0 <= i <= t.len() {
        if group_at(t, i) is Some {
            lemma_group_at(t, i);
        }
    }
}

/// The whole-schema block shape: one or more group blocks and nothing else.
pub open spec fn block_of_tokens(t: Seq<TokenView>) -> Option<Seq<GroupView>> {
    match groups_at(t, 0) {
        None => None,
        Some((gs, _)) => Some(gs),
    }
}

/// The annotated-struct shape: outer directives, `struct Name { fields }` and
/// nothing else. The group name is left empty; the caller derives it from the
/// struct name.
pub open spec fn annotated_of_tokens(t: Seq<TokenView>) -> Option<GroupView> {
    let dj = dirs_at(t, 0);
    let j = dj.1;
    if j + 2 < t.len() && (t[j] matches TokenView::Ident(_)) && (t[j + 1] matches TokenView::Ident(
        _,
    )) && t[j + 2] is LBrace {
        match (t[j], t[j + 1]) {
            (TokenView::Ident(kw), TokenView::Ident(tn)) => {
                if kw == "struct"@ {
                    match field_list_at(t, j + 3) {
                        None => None,
                        Some((fs, k)) => {
                            if k == t.len() {
                                Some(
                                    GroupView {
                                        name: Seq::<char>::empty(),
                                        ty_name: tn,
                                        directives: dj.0,
                                        fields: fs,
                                    },
                                )
                            } else {
                                None
                            }
                        },
                    }
                } else {
                    None
                }
            },
            _ => None,
        }
    } else {
        None
    }
}

/// The schema a block-shaped text denotes, if it is grammatical.
pub open spec fn parse_block_spec(s: Seq<char>) -> Option<Seq<GroupView>> {
    match lex_from(s, 0) {
        None => None,
        Some(ts) => block_of_tokens(ts),
    }
}

/// The single group an annotated-struct text denotes, if it is grammatical.
pub open spec fn parse_annotated_spec(s: Seq<char>) -> Option<GroupView> {
    match lex_from(s, 0) {
        None => None,
        Some(ts) => annotated_of_tokens(ts),
    }
}

fn parse_directives(t: &Vec<Token>, i: usize) -> (r: (Vec<String>, usize))
    requires
        i <= t@.len(),
    ensures
        r.0.deep_view() == dirs_at(tokens_view(t@), i as int).0,
        r.1 == dirs_at(tokens_view(t@), i as int).1,
        i <= r.1 <= t@.len(),
    decreases t@.len() - i,
{
    if i < t.len() {
        match &t[i] {
            Token::Directive(d) => {
                let body = d.clone();
                let rest = parse_directives(t, i + 1);
                let mut v = rest.0;
                let j = rest.1;
                v.insert(0, body);
                proof {
                    assert(v.deep_view() =~= seq![d@] + rest.0.deep_view());
                }
                (v, j)
            },
            _ => (Vec::new(), i),
        }
    } else {
        (Vec::new(), i)
    }
}

fn parse_path(t: &Vec<Token>, i: usize) -> (r: Result<(Vec<String>, usize), SchemaError>)
    requires
        i <= t@.len(),
    ensures
        match r {
            Ok((ty, j)) => path_at(tokens_view(t@), i as int) == Some(
                (ty.deep_view(), j as int),
            ) && i < j <= t@.len(),
            Err(e) => path_at(tokens_view(t@), i as int) is None && e == SchemaError::Syntax,
        },
    decreases t@.len() - i,
{
    if i < t.len() {
        match &t[i] {
            Token::Ident(seg) => {
                let seg0 = seg.clone();
                let more = if t.len() - i > 2 {
                    let sep = matches!(&t[i + 1], Token::PathSep);
                    let id2 = matches!(&t[i + 2], Token::Ident(_));
                    sep && id2
                } else {
                    false
                };
                if more {
                    let rest = parse_path(t, i + 2)?;
                    let mut v = rest.0;
                    v.insert(0, seg0);
                    proof {
                        assert(v.deep_view() =~= seq![seg@] + rest.0.deep_view());
                    }
                    Ok((v, rest.1))
                } else {
                    let mut v: Vec<String> = Vec::new();
                    v.push(seg0);
                    proof {
                        assert(v.deep_view() =~= seq![seg@]);
                    }
                    Ok((v, i + 1))
                }
            },
            _ => Err(SchemaError::Syntax),
        }
    } else {
        Err(SchemaError::Syntax)
    }
}

fn parse_field(t: &Vec<Token>, i: usize) -> (r: Result<(FieldSpec, usize), SchemaError>)
    requires
        i <= t@.len(),
    ensures
        match r {
            Ok((f, j)) => field_at(tokens_view(t@), i as int) == Some((f@, j as int)) && i < j
                <= t@.len(),
            Err(e) => field_at(tokens_view(t@), i as int) is None && e == SchemaError::Syntax,
        },
{
    let (dirs, j) = parse_directives(t, i);
    proof {
        if field_at(tokens_view(t@), i as int) is Some {
            lemma_field_at(tokens_view(t@), i as int);
        }
    }
    if t.len() - j > 1 {
        let head_ok = matches!(&t[j + 1], Token::Colon);
        match &t[j] {
            Token::Ident(dest) if head_ok => {
                let dest0 = dest.clone();
                let (ty, k) = parse_path(t, j + 2)?;
                let aliased = if t.len() - k > 1 {
                    let eqs = matches!(&t[k], Token::Equals);
                    let id2 = matches!(&t[k + 1], Token::Ident(_));
                    eqs && id2
                } else {
                    false
                };
                if aliased {
                    match &t[k + 1] {
                        Token::Ident(a) => {
                            let src = ty[ty.len() - 1].clone();
                            let f = FieldSpec {
                                dest: dest0,
                                source: src,
                                ty,
                                directives: dirs,
                                alias: Some(a.clone()),
                            };
                            Ok((f, k + 2))
                        },
                        _ => Err(SchemaError::Syntax),
                    }
                } else {
                    let src = ty[ty.len() - 1].clone();
                    let f = FieldSpec {
                        dest: dest0,
                        source: src,
                        ty,
                        directives: dirs,
                        alias: None,
                    };
                    Ok((f, k))
                }
            },
            _ => Err(SchemaError::Syntax),
        }
    } else {
        Err(SchemaError::Syntax)
    }
}

fn parse_field_list(t: &Vec<Token>, i: usize) -> (r: Result<
    (Vec<FieldSpec>, usize),
    SchemaError,
>)
    requires
        i <= t@.len(),
    ensures
        match r {
            Ok((fs, k)) => field_list_at(tokens_view(t@), i as int) == Some(
                (fields_view(fs@), k as int),
            ) && i < k <= t@.len(),
            Err(e) => field_list_at(tokens_view(t@), i as int) is None && e == SchemaError::Syntax,
        },
    decreases t@.len() - i,
{
    if i < t.len() && matches!(&t[i], Token::RBrace) {
        let v: Vec<FieldSpec> = Vec::new();
        assert(fields_view(v@) =~= Seq::<FieldView>::empty());
        return Ok((v, i + 1));
    }
    let (f, j) = parse_field(t, i)?;
    if j < t.len() && matches!(&t[j], Token::Comma) {
        let rest = parse_field_list(t, j + 1)?;
        let mut v = rest.0;
        v.insert(0, f);
        proof {
            assert(fields_view(v@) =~= seq![f@] + fields_view(rest.0@));
        }
        Ok((v, rest.1))
    } else if j < t.len() && matches!(&t[j], Token::RBrace) {
        let mut v: Vec<FieldSpec> = Vec::new();
        v.push(f);
        proof {
            assert(fields_view(v@) =~= seq![f@]);
        }
        Ok((v, j + 1))
    } else {
        Err(SchemaError::Syntax)
    }
}

fn parse_group(t: &Vec<Token>, i: usize) -> (r: Result<(GroupSpec, usize), SchemaError>)
    requires
        i <= t@.len(),
    ensures
        match r {
            Ok((g, j)) => group_at(tokens_view(t@), i as int) == Some((g@, j as int)) && i < j
                <= t@.len(),
            Err(e) => group_at(tokens_view(t@), i as int) is None && e == SchemaError::Syntax,
        },
{
    let (dirs, j) = parse_directives(t, i);
    proof {
        if group_at(tokens_view(t@), i as int) is Some {
            lemma_group_at(tokens_view(t@), i as int);
        }
    }
    if t.len() - j > 3 {
        let shape_ok = matches!(&t[j + 1], Token::Colon) && matches!(&t[j + 3], Token::LBrace);
        match (&t[j], &t[j + 2]) {
            (Token::Ident(name), Token::Ident(tn)) if shape_ok => {
                let name0 = name.clone();
                let tn0 = tn.clone();
                let (fs, k) = parse_field_list(t, j + 4)?;
                let g = GroupSpec { name: name0, ty_name: tn0, directives: dirs, fields: fs };
                if k < t.len() && matches!(&t[k], Token::Comma) {
                    Ok((g, k + 1))
                } else {
                    Ok((g, k))
                }
            },
            _ => Err(SchemaError::Syntax),
        }
    } else {
        Err(SchemaError::Syntax)
    }
}

fn parse_groups(t: &Vec<Token>, i: usize) -> (r: Result<(Vec<GroupSpec>, usize), SchemaError>)
    requires
        i <= t@.len(),
    ensures
        match r {
            Ok((gs, k)) => groups_at(tokens_view(t@), i as int) == Some(
                (groups_view(gs@), k as int),
            ),
            Err(e) => groups_at(tokens_view(t@), i as int) is None && e == SchemaError::Syntax,
        },
    decreases t@.len() - i,
{
    let (g, j) = parse_group(t, i)?;
    if j == t.len() {
        let mut v: Vec<GroupSpec> = Vec::new();
        v.push(g);
        proof {
            assert(groups_view(v@) =~= seq![g@]);
        }
        Ok((v, j))
    } else {
        let rest = parse_groups(t, j)?;
        let mut v = rest.0;
        v.insert(0, g);
        proof {
            assert(groups_view(v@) =~= seq![g@] + groups_view(rest.0@));
        }
        Ok((v, rest.1))
    }
}

fn is_kw(s: &String, kw: &str) -> (b: bool)
    ensures
        b == (s@ == kw@),
{
    let k = kw.to_owned();
    s.eq(&k)
}

/// Parse a schema-block text into its groups, or report the grammar
/// violation; nothing is produced on failure.
pub fn parse_schema_block(s: &str) -> (r: Result<Vec<GroupSpec>, SchemaError>)
    requires
        s@.len() < usize::MAX,
    ensures
        match r {
            Ok(gs) => parse_block_spec(s@) == Some(groups_view(gs@)),
            Err(e) => parse_block_spec(s@) is None && e == SchemaError::Syntax,
        },
{
    let toks = lex_schema(s)?;
    let (gs, _) = parse_groups(&toks, 0)?;
    Ok(gs)
}

/// Parse an annotated-struct text into its one group (whose name is left
/// empty for the caller to derive), or report the grammar violation.
pub fn parse_annotated(s: &str) -> (r: Result<GroupSpec, SchemaError>)
    requires
        s@.len() < usize::MAX,
    ensures
        match r {
            Ok(g) => parse_annotated_spec(s@) == Some(g@),
            Err(e) => parse_annotated_spec(s@) is None && e == SchemaError::Syntax,
        },
{
    let toks = lex_schema(s)?;
    let t = &toks;
    let (dirs, j) = parse_directives(t, 0);
    if t.len() - j > 2 {
        let brace_ok = matches!(&t[j + 2], Token::LBrace);
        match (&t[j], &t[j + 1]) {
            (Token::Ident(kw), Token::Ident(tn)) if brace_ok => {
                if is_kw(kw, "struct") {
                    let tn0 = tn.clone();
                    let (fs, k) = parse_field_list(t, j + 3)?;
                    if k == t.len() {
                        let g = GroupSpec {
                            name: String::new(),
                            ty_name: tn0,
                            directives: dirs,
                            fields: fs,
                        };
                        Ok(g)
                    } else {
                        Err(SchemaError::Syntax)
                    }
                } else {
                    Err(SchemaError::Syntax)
                }
            },
            _ => Err(SchemaError::Syntax),
        }
    } else {
        Err(SchemaError::Syntax)
    }
}

pub proof fn lemma_field_list_at_wf(t: Seq<TokenView>, i: int)
    requires
        0 <= i <= t.len(),
        field_list_at(t, i) is Some,
    ensures
        forall|j: int|
            0 <= j < field_list_at(t, i).unwrap().0.len() ==> field_wf(
                #[trigger] field_list_at(t, i).unwrap().0[j],
            ),
    decreases t.len() - i,
{
    if i < t.len() && t[i] is RBrace {
    } else {
        lemma_field_at(t, i);
        let (f, j) = field_at(t, i).unwrap();
        if j < t.len() && t[j] is Comma {
            lemma_field_list_at(t, j + 1);
            lemma_field_list_at_wf(t, j + 1);
            let rest = field_list_at(t, j + 1).unwrap().0;
            let whole = field_list_at(t, i).unwrap().0;
            assert forall|p: int| 0 <= p < whole.len() implies field_wf(whole[p]) by {
                if p > 0 {
                    assert(whole[p] == rest[p - 1]);
                }
            }
        }
    }
}

pub proof fn lemma_group_at_wf(t: Seq<TokenView>, i: int)
    requires
        0 <= i <= t.len(),
        group_at(t, i) is Some,
    ensures
        group_wf(group_at(t, i).unwrap().0),
{
    lemma_dirs_at(t, i);
    let j = dirs_at(t, i).1;
    if j + 3 < t.len() && field_list_at(t, j + 4) is Some {
        lemma_field_list_at_wf(t, j + 4);
    }
}

pub proof fn lemma_groups_at_wf(t: Seq<TokenView>, i: int)
    requires
        0 <= i <= t.len(),
        groups_at(t, i) is Some,
    ensures
        forall|k: int|
            0 <= k < groups_at(t, i).unwrap().0.len() ==> group_wf(
                #[trigger] groups_at(t, i).unwrap().0[k],
            ),
    decreases t.len() - i,
{
    lemma_group_at(t, i);
    lemma_group_at_wf(t, i);
    let (g, j) = group_at(t, i).unwrap();
    if j != t.len() {
        lemma_groups_at_wf(t, j);
        let rest = groups_at(t, j).unwrap().0;
        let whole = groups_at(t, i).unwrap().0;
        assert forall|k: int| 0 <= k < whole.len() implies group_wf(whole[k]) by {
            if k > 0 {
                assert(whole[k] == rest[k - 1]);
            }
        }
    }
}

pub proof fn lemma_annotated_wf(t: Seq<TokenView>)
    requires
        annotated_of_tokens(t) is Some,
    ensures
        group_wf(annotated_of_tokens(t).unwrap()),
{
    lemma_dirs_at(t, 0);
    let j = dirs_at(t, 0).1;
    if j + 2 < t.len() && field_list_at(t, j + 3) is Some {
        lemma_field_list_at_wf(t, j + 3);
    }
}

pub proof fn lemma_parse_annotated_wf(s: Seq<char>)
    requires
        parse_annotated_spec(s) is Some,
    ensures
        group_wf(parse_annotated_spec(s).unwrap()),
{
    match lex_from(s, 0) {
        None => {},
        Some(ts) => {
            lemma_annotated_wf(ts);
        },
    }
}

pub proof fn lemma_parse_block_wf(s: Seq<char>)
    requires
        parse_block_spec(s) is Some,
    ensures
        crate::ast::schema_wf(parse_block_spec(s).unwrap()),
{
    match lex_from(s, 0) {
        None => {},
        Some(ts) => {
            if groups_at(ts, 0) is Some {
                lemma_groups_at_wf(ts, 0);
            }
        },
    }
}

} // verus!
