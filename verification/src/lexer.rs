//! The lexical layer of the schema grammar: identifiers, punctuation, and
//! bracketed directives, with an exact mathematical tokenizer that the
//! executable one is proved against.

use vstd::prelude::*;
use crate::SchemaError;

verus! {

/// One token of the schema grammar.
pub enum Token {
    Ident(String),
    Colon,
    PathSep,
    Comma,
    Equals,
    LBrace,
    RBrace,
    /// The raw text between `#[` and its matching `]`.
    Directive(String),
}

/// Mathematical view of a `Token`.
pub ghost enum TokenView {
    Ident(Seq<char>),
    Colon,
    PathSep,
    Comma,
    Equals,
    LBrace,
    RBrace,
    Directive(Seq<char>),
}

impl View for Token {
    type V = TokenView;

    open spec fn view(&self) -> TokenView {
        match self {
            Token::Ident(s) => TokenView::Ident(s@),
            Token::Colon => TokenView::Colon,
            Token::PathSep => TokenView::PathSep,
            Token::Comma => TokenView::Comma,
            Token::Equals => TokenView::Equals,
            Token::LBrace => TokenView::LBrace,
            Token::RBrace => TokenView::RBrace,
            Token::Directive(s) => TokenView::Directive(s@),
        }
    }
}

pub open spec fn tokens_view(ts: Seq<Token>) -> Seq<TokenView> {
    ts.map_values(|t: Token| t@)
}

pub open spec fn is_ws(c: char) -> bool {
    c == ' ' || c == '\n' || c == '\t' || c == '\r'
}

pub open spec fn is_ident_start(c: char) -> bool {
    (('a' as u32) <= (c as u32) && (c as u32) <= ('z' as u32)) || (('A' as u32) <= (c as u32)
        && (c as u32) <= ('Z' as u32)) || c == '_'
}

pub open spec fn is_ident_char(c: char) -> bool {
    is_ident_start(c) || (('0' as u32) <= (c as u32) && (c as u32) <= ('9' as u32))
}

/// The end of the identifier that starts at position `i`: the first position
/// at or after `i` holding no identifier character.
pub open spec fn ident_end(s: Seq<char>, i: int) -> int
    decreases s.len() - i
        when 0 <= i <= s.len()
{
    if i < s.len() && is_ident_char(s[i]) {
        ident_end(s, i + 1)
    } else {
        i
    }
}

pub proof fn lemma_ident_end(s: Seq<char>, i: int)
    requires
        0 <= i <= s.len(),
    ensures
        i <= ident_end(s, i) <= s.len(),
    decreases s.len() - i,
{
    if i < s.len() && is_ident_char(s[i]) {
        lemma_ident_end(s, i + 1);
    }
}

/// The position of the `]` that closes a directive whose scan stands at `i`
/// with `depth` square brackets open, or `None` if the text ends first.
pub open spec fn dir_end(s: Seq<char>, i: int, depth: int) -> Option<int>
    decreases s.len() - i
        when 0 <= i <= s.len()
{
    if i >= s.len() {
        None
    } else if s[i] == ']' {
        if depth <= 1 {
            Some(i)
        } else {
            dir_end(s, i + 1, depth - 1)
        }
    } else if s[i] == '[' {
        dir_end(s, i + 1, depth + 1)
    } else {
        dir_end(s, i + 1, depth)
    }
}

pub proof fn lemma_dir_end(s: Seq<char>, i: int, depth: int)
    requires
        0 <= i <= s.len(),
        dir_end(s, i, depth) is Some,
    ensures
        i <= dir_end(s, i, depth).unwrap() < s.len(),
    decreases s.len() - i,
{
    if i < s.len() {
        if s[i] == ']' {
            if depth > 1 {
                lemma_dir_end(s, i + 1, depth - 1);
            }
        } else if s[i] == '[' {
            lemma_dir_end(s, i + 1, depth + 1);
        } else {
            lemma_dir_end(s, i + 1, depth);
        }
    }
}

pub open spec fn cons_tok(t: TokenView, rest: Option<Seq<TokenView>>) -> Option<Seq<TokenView>> {
    match rest {
        Some(r) => Some(seq![t] + r),
        None => None,
    }
}

/// The tokenization of `s` from position `i` on: `None` on a character no
/// token may start with, or on an unterminated directive.
pub open spec fn lex_from(s: Seq<char>, i: int) -> Option<Seq<TokenView>>
    decreases s.len() - i
        when 0 <= i <= s.len()
        via lex_from_dec
{
    if i >= s.len() {
        Some(Seq::empty())
    } else if is_ws(s[i]) {
        lex_from(s, i + 1)
    } else if s[i] == ':' {
        if i + 1 < s.len() && s[i + 1] == ':' {
            cons_tok(TokenView::PathSep, lex_from(s, i + 2))
        } else {
            cons_tok(TokenView::Colon, lex_from(s, i + 1))
        }
    } else if s[i] == ',' {
        cons_tok(TokenView::Comma, lex_from(s, i + 1))
    } else if s[i] == '=' {
        cons_tok(TokenView::Equals, lex_from(s, i + 1))
    } else if s[i] == '{' {
        cons_tok(TokenView::LBrace, lex_from(s, i + 1))
    } else if s[i] == '}' {
        cons_tok(TokenView::RBrace, lex_from(s, i + 1))
    } else if is_ident_start(s[i]) {
        cons_tok(TokenView::Ident(s.subrange(i, ident_end(s, i))), lex_from(s, ident_end(s, i)))
    } else if s[i] == '#' {
        if i + 1 < s.len() && s[i + 1] == '[' {
            match dir_end(s, i + 2, 1) {
                Some(k) => cons_tok(TokenView::Directive(s.subrange(i + 2, k)), lex_from(s, k + 1)),
                None => None,
            }
        } else {
            None
        }
    } else {
        None
    }
}

#[via_fn]
proof fn lex_from_dec(s: Seq<char>, i: int) {
    if 0 <= i <= s.len() && i < s.len() {
        if is_ident_start(s[i]) {
            lemma_ident_end(s, i + 1);
        }
        if s[i] == '#' && i + 1 < s.len() && s[i + 1] == '[' {
            if dir_end(s, i + 2, 1) is Some {
                lemma_dir_end(s, i + 2, 1);
            }
        }
    }
}

pub(crate) fn is_ws_exec(c: char) -> (b: bool)
    ensures
        b == is_ws(c),
{
    c == ' ' || c == '\n' || c == '\t' || c == '\r'
}

pub(crate) fn is_ident_start_exec(c: char) -> (b: bool)
    ensures
        b == is_ident_start(c),
{
    let u = c as u32;
    (97 <= u && u <= 122) || (65 <= u && u <= 90) || c == '_'
}

pub(crate) fn is_ident_char_exec(c: char) -> (b: bool)
    ensures
        b == is_ident_char(c),
{
    let u = c as u32;
    is_ident_start_exec(c) || (48 <= u && u <= 57)
}

pub(crate) fn scan_ident(s: &str, i: usize, n: usize) -> (j: usize)
    requires
        i <= n == s@.len(),
    ensures
        j == ident_end(s@, i as int),
        i <= j <= n,
    decreases n - i,
{
    if i < n && is_ident_char_exec(s.get_char(i)) {
        scan_ident(s, i + 1, n)
    } else {
        i
    }
}

fn scan_dir_end(s: &str, i: usize, depth: usize, n: usize) -> (r: Result<usize, SchemaError>)
    requires
        i <= n == s@.len(),
        n < usize::MAX,
        1 <= depth <= i + 1,
    ensures
        match r {
            Ok(k) => dir_end(s@, i as int, depth as int) == Some(k as int) && i <= k < n,
            Err(e) => dir_end(s@, i as int, depth as int) is None && e == SchemaError::Syntax,
        },
    decreases n - i,
{
    if i >= n {
        Err(SchemaError::Syntax)
    } else {
        let c = s.get_char(i);
        if c == ']' {
            if depth <= 1 {
                Ok(i)
            } else {
                scan_dir_end(s, i + 1, depth - 1, n)
            }
        } else if c == '[' {
            scan_dir_end(s, i + 1, depth + 1, n)
        } else {
            scan_dir_end(s, i + 1, depth, n)
        }
    }
}

fn lex_exec(s: &str, i: usize, n: usize) -> (r: Result<Vec<Token>, SchemaError>)
    requires
        i <= n == s@.len(),
        n < usize::MAX,
    ensures
        match r {
            Ok(v) => lex_from(s@, i as int) == Some(tokens_view(v@)),
            Err(e) => lex_from(s@, i as int) is None && e == SchemaError::Syntax,
        },
    decreases n - i,
{
    if i >= n {
        let v: Vec<Token> = Vec::new();
        assert(tokens_view(v@) =~= Seq::<TokenView>::empty());
        return Ok(v);
    }
    let c = s.get_char(i);
    if is_ws_exec(c) {
        lex_exec(s, i + 1, n)
    } else if c == ':' {
        if i + 1 < n && s.get_char(i + 1) == ':' {
            let rest = lex_exec(s, i + 2, n)?;
            Ok(push_front(Token::PathSep, rest))
        } else {
            let rest = lex_exec(s, i + 1, n)?;
            Ok(push_front(Token::Colon, rest))
        }
    } else if c == ',' {
        let rest = lex_exec(s, i + 1, n)?;
        Ok(push_front(Token::Comma, rest))
    } else if c == '=' {
        let rest = lex_exec(s, i + 1, n)?;
        Ok(push_front(Token::Equals, rest))
    } else if c == '{' {
        let rest = lex_exec(s, i + 1, n)?;
        Ok(push_front(Token::LBrace, rest))
    } else if c == '}' {
        let rest = lex_exec(s, i + 1, n)?;
        Ok(push_front(Token::RBrace, rest))
    } else if is_ident_start_exec(c) {
        proof {
            lemma_ident_end(s@, i as int + 1);
            assert(ident_end(s@, i as int) == ident_end(s@, i as int + 1));
        }
        let j = scan_ident(s, i, n);
        assert(i < j);
        let word = s.substring_char(i, j).to_owned();
        let rest = lex_exec(s, j, n)?;
        Ok(push_front(Token::Ident(word), rest))
    } else if c == '#' {
        if i + 1 < n && s.get_char(i + 1) == '[' {
            let k = scan_dir_end(s, i + 2, 1, n)?;
            let body = s.substring_char(i + 2, k).to_owned();
            let rest = lex_exec(s, k + 1, n)?;
            Ok(push_front(Token::Directive(body), rest))
        } else {
            Err(SchemaError::Syntax)
        }
    } else {
        Err(SchemaError::Syntax)
    }
}

fn push_front(t: Token, rest: Vec<Token>) -> (r: Vec<Token>)
    ensures
        tokens_view(r@) == seq![t@] + tokens_view(rest@),
{
    let mut v = rest;
    v.insert(0, t);
    proof {
        assert(tokens_view(v@) =~= seq![t@] + tokens_view(rest@));
    }
    v
}

/// Tokenize a whole schema text, or report the grammar violation.
pub fn lex_schema(s: &str) -> (r: Result<Vec<Token>, SchemaError>)
    requires
        s@.len() < usize::MAX,
    ensures
        match r {
            Ok(v) => lex_from(s@, 0) == Some(tokens_view(v@)),
            Err(e) => lex_from(s@, 0) is None && e == SchemaError::Syntax,
        },
{
    let n = s.unicode_len();
    lex_exec(s, 0, n)
}

} // verus!
