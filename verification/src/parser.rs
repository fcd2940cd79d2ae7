use vstd::prelude::*;
use crate::ids::TextRange;
use crate::grammar::{
    args_end, args_loop_end, args_loop_val, args_val, block_end, bracket_key, expr_val, field_end, name_expr_at,
    chunk_reads, local_val, block_loop_val, block_val, placed_stat_val, exprlist_val, vars_val, field_val, funcbody_val, names_val, stat_val, tag_eq, tags_eq, funcname_loop_val, funcname_val, suffix_val, suffixed_val, table_loop_val, table_val, block_loop_end, expr_end, exprlist_end, funcbody_end, funcname_end,
    funcname_loop_end, kw_at, names_end, sym_at, stat_end, suffix_end, suffixed_end, table_end, table_loop_end, trailing_end,
    vars_end,
};
use crate::lexer::{is_path_tokens, Keyword, Token, TokenKind};
use crate::syntax::{
    LuaDocTypeRef, LuaCallExpr, LuaClosureExpr, LuaDocTag, LuaExpr, LuaIndexExpr, LuaIndexKey, LuaLiteralExpr,
    LuaLiteralToken, LuaNameExpr, LuaStat, LuaTableExpr, LuaTableField,
};

verus! {

/// The expression that the first `k + 1` names of the path tokens `ts`
/// spell: the first name, indexed by each name that follows it in turn.
pub open spec fn path_expr(ts: Seq<Token>, k: nat) -> LuaExpr
    decreases k,
{
    if k == 0 {
        LuaExpr::NameExpr(LuaNameExpr { name: ts[0].kind->Name_0, position: ts[0].start })
    } else {
        LuaExpr::IndexExpr(
            LuaIndexExpr {
                prefix: Box::new(path_expr(ts, (k - 1) as nat)),
                key: LuaIndexKey::Name(ts[2 * k as int].kind->Name_0),
                colon: false,
                position: ts[2 * k as int].start,
            },
        )
    }
}

fn is_sym(ts: &Vec<Token>, pos: usize, c: char) -> (r: bool)
    requires
        ts@.len() < 0x4000_0000,
    ensures
        r == (pos < ts@.len() && ts@[pos as int].kind == TokenKind::Sym(c)),
{
    pos < ts.len() && match &ts[pos].kind {
        TokenKind::Sym(d) => *d == c,
        _ => false,
    }
}

fn is_kw(ts: &Vec<Token>, pos: usize, k: Keyword) -> (r: bool)
    requires
        ts@.len() < 0x4000_0000,
    ensures
        r == (pos < ts@.len() && ts@[pos as int].kind == TokenKind::Keyword(k)),
{
    pos < ts.len() && match &ts[pos].kind {
        TokenKind::Keyword(w) => *w == k,
        _ => false,
    }
}

/// The name at `pos`, if the token there is one.
fn name_at(ts: &Vec<Token>, pos: usize) -> (r: Option<LuaNameExpr>)
    requires
        ts@.len() < 0x4000_0000,
    ensures
        r is Some ==> pos < ts@.len(),
        match r {
            Some(n) => ts@[pos as int].kind matches TokenKind::Name(x) && n.name == x && n.position
                == ts@[pos as int].start,
            None => !(pos < ts@.len() && ts@[pos as int].kind is Name),
        },
{
    if pos >= ts.len() {
        return None;
    }
    match &ts[pos].kind {
        TokenKind::Name(n) => Some(LuaNameExpr { name: n.clone(), position: ts[pos].start }),
        _ => None,
    }
}

/// An expression starting at `pos`.
pub(crate) fn parse_expr(ts: &Vec<Token>, pos: usize, fuel: usize) -> (r: Option<(LuaExpr, usize)>)
    requires
        ts@.len() < 0x4000_0000,
    ensures
        r matches Some((e, _)) ==> expr_val(ts@, pos as int, fuel as nat, e),
        match r {
            Some((_, p)) => expr_end(ts@, pos as int, fuel as nat) == Some(p as int),
            None => expr_end(ts@, pos as int, fuel as nat) is None,
        },
        r matches Some((_, p)) ==> pos < p <= ts@.len(),
        fuel > 0 && pos < ts@.len() && ts@[pos as int].kind is Int ==> r == Some((
            LuaExpr::LiteralExpr(
                LuaLiteralExpr { literal: LuaLiteralToken::Integer(ts@[pos as int].kind->Int_0), position: ts@[pos as int].start },
            ),
            (pos + 1) as usize,
        )),
        fuel > 0 && pos < ts@.len() && ts@[pos as int].kind == TokenKind::Keyword(Keyword::Nil) ==> r == Some((
            LuaExpr::LiteralExpr(LuaLiteralExpr { literal: LuaLiteralToken::Nil, position: ts@[pos as int].start }),
            (pos + 1) as usize,
        )),
        fuel > 0 && pos < ts@.len() && ts@[pos as int].kind == TokenKind::Keyword(Keyword::True) ==> r == Some((
            LuaExpr::LiteralExpr(LuaLiteralExpr { literal: LuaLiteralToken::Bool(true), position: ts@[pos as int].start }),
            (pos + 1) as usize,
        )),
        fuel > 0 && pos < ts@.len() && ts@[pos as int].kind == TokenKind::Keyword(Keyword::False) ==> r == Some((
            LuaExpr::LiteralExpr(LuaLiteralExpr { literal: LuaLiteralToken::Bool(false), position: ts@[pos as int].start }),
            (pos + 1) as usize,
        )),
        fuel > 0 && pos < ts@.len() && ts@[pos as int].kind is Str ==> (r matches Some((LuaExpr::LiteralExpr(l), p)) && p
            == pos + 1 && l.literal == LuaLiteralToken::String(ts@[pos as int].kind->Str_0) && l.position
            == ts@[pos as int].start),
        fuel > 0 && pos < ts@.len() && (ts@[pos as int].kind is Doc || ts@[pos as int].kind == TokenKind::Keyword(
            Keyword::Local,
        ) || ts@[pos as int].kind == TokenKind::Keyword(Keyword::End) || ts@[pos as int].kind == TokenKind::Keyword(
            Keyword::Return,
        ) || (ts@[pos as int].kind is Sym && ts@[pos as int].kind != TokenKind::Sym('{') && ts@[pos as int].kind
            != TokenKind::Sym('('))) ==> r is None,
        (fuel > 1 && pos + 1 == ts@.len() && ts@[pos as int].kind is Name) ==> (r matches Some((LuaExpr::NameExpr(n), p))
            && p == pos + 1 && (ts@[pos as int].kind matches TokenKind::Name(x) && x@ == n.name@) && n.position == ts@[pos as int].start),
        fuel > 1 && pos == 0 && is_path_tokens(ts@) ==> r == Some(
            (path_expr(ts@, ((ts@.len() - 1) / 2) as nat), ts@.len() as usize),
        ),
    decreases fuel, 0nat,
{
    if fuel == 0 || pos >= ts.len() {
        return None;
    }
    let start = ts[pos].start;
    match &ts[pos].kind {
        TokenKind::Int(v) => Some(
            (
                LuaExpr::LiteralExpr(
                    LuaLiteralExpr { literal: LuaLiteralToken::Integer(*v), position: start },
                ),
                pos + 1,
            ),
        ),
        TokenKind::Str(s) => Some(
            (
                LuaExpr::LiteralExpr(
                    LuaLiteralExpr { literal: LuaLiteralToken::String(s.clone()), position: start },
                ),
                pos + 1,
            ),
        ),
        TokenKind::Keyword(Keyword::Nil) => Some(
            (LuaExpr::LiteralExpr(LuaLiteralExpr { literal: LuaLiteralToken::Nil, position: start }), pos + 1),
        ),
        TokenKind::Keyword(Keyword::True) => Some(
            (
                LuaExpr::LiteralExpr(LuaLiteralExpr { literal: LuaLiteralToken::Bool(true), position: start }),
                pos + 1,
            ),
        ),
        TokenKind::Keyword(Keyword::False) => Some(
            (
                LuaExpr::LiteralExpr(LuaLiteralExpr { literal: LuaLiteralToken::Bool(false), position: start }),
                pos + 1,
            ),
        ),
        TokenKind::Keyword(Keyword::Function) => {
            let (closure, p) = parse_funcbody(ts, pos + 1, fuel - 1, start)?;
            Some((LuaExpr::ClosureExpr(closure), p))
        },
        TokenKind::Sym('{') => {
            let (table, p) = parse_table(ts, pos, fuel - 1)?;
            Some((LuaExpr::TableExpr(table), p))
        },
        _ => parse_suffixed(ts, pos, fuel - 1),
    }
}

/// A name or parenthesized expression followed by field accesses, indexes
/// and calls.
pub(crate) fn parse_suffixed(ts: &Vec<Token>, pos: usize, fuel: usize) -> (r: Option<(LuaExpr, usize)>)
    requires
        ts@.len() < 0x4000_0000,
    ensures
        r matches Some((e, _)) ==> suffixed_val(ts@, pos as int, fuel as nat, e),
        match r {
            Some((e, p)) => suffixed_end(ts@, pos as int, fuel as nat) == Some((p as int, e is CallExpr)),
            None => suffixed_end(ts@, pos as int, fuel as nat) is None,
        },
        r matches Some((_, p)) ==> pos < p <= ts@.len(),
        fuel == 0 || pos >= ts@.len() ==> r is None,
        fuel > 0 && pos < ts@.len() && !(ts@[pos as int].kind is Name) && ts@[pos as int].kind != TokenKind::Sym('(')
            ==> r is None,
        (fuel > 0 && pos + 1 == ts@.len() && ts@[pos as int].kind is Name) ==> (r matches Some((LuaExpr::NameExpr(n), p))
            && p == pos + 1 && (ts@[pos as int].kind matches TokenKind::Name(x) && x@ == n.name@) && n.position == ts@[pos as int].start),
        fuel > 0 && pos == 0 && is_path_tokens(ts@) ==> r == Some(
            (path_expr(ts@, ((ts@.len() - 1) / 2) as nat), ts@.len() as usize),
        ),
    decreases fuel, 1nat,
{
    if fuel == 0 || pos >= ts.len() {
        return None;
    }
    let (mut e, mut p) = if let Some(n) = name_at(ts, pos) {
        assert(LuaExpr::NameExpr(n) == LuaExpr::NameExpr(name_expr_at(ts@, pos as int)));
        (LuaExpr::NameExpr(n), pos + 1)
    } else if is_sym(ts, pos, '(') {
        let (inner, q) = parse_expr(ts, pos + 1, fuel - 1)?;
        if !is_sym(ts, q, ')') {
            return None;
        }
        let pe = LuaExpr::ParenExpr(Box::new(inner));
        assert forall|fin: LuaExpr| suffix_val(ts@, q + 1, fuel as nat, pe, fin) implies suffixed_val(
            ts@,
            pos as int,
            fuel as nat,
            fin,
        ) by {
            assert(expr_val(ts@, pos + 1, (fuel - 1) as nat, inner));
        }
        (pe, q + 1)
    } else {
        return None;
    };
    loop
        invariant
            pos < p <= ts@.len(),
            ts@.len() < 0x4000_0000,
            fuel > 0,
            ts@[pos as int].kind is Name || ts@[pos as int].kind == TokenKind::Sym('('),
            (pos + 1 == ts@.len() && ts@[pos as int].kind is Name) ==> (e matches LuaExpr::NameExpr(n) && p == pos + 1
                && (ts@[pos as int].kind matches TokenKind::Name(x) && x@ == n.name@) && n.position == ts@[pos as int].start),
            pos == 0 && is_path_tokens(ts@) ==> p % 2 == 1 && e == path_expr(ts@, ((p - 1) / 2) as nat),
            suffixed_end(ts@, pos as int, fuel as nat) == suffix_end(ts@, p as int, fuel as nat, e is CallExpr),
            forall|fin: LuaExpr| #[trigger] suffix_val(ts@, p as int, fuel as nat, e, fin) ==> suffixed_val(
                ts@,
                pos as int,
                fuel as nat,
                fin,
            ),
        decreases ts@.len() - p,
    {
        let ghost e0 = e;
        let ghost p0 = p as int;
        if is_sym(ts, p, '.') {
            proof {
                if pos == 0 && is_path_tokens(ts@) {
                    assert(p < ts@.len());
                    assert((p + 1) % 2 == 0);
                    assert(p + 1 < ts@.len());
                    assert(ts@[p + 1].kind is Name);
                }
            }
            let n = name_at(ts, p + 1)?;
            let position = n.position;
            e = LuaExpr::IndexExpr(
                LuaIndexExpr { prefix: Box::new(e), key: LuaIndexKey::Name(n.name), colon: false, position },
            );
            p = p + 2;
            assert forall|fin: LuaExpr| #[trigger] suffix_val(ts@, p as int, fuel as nat, e, fin) implies suffixed_val(
                ts@,
                pos as int,
                fuel as nat,
                fin,
            ) by {
                assert(suffix_val(ts@, p0, fuel as nat, e0, fin));
            }
        } else if is_sym(ts, p, '[') {
            let position = if p + 1 < ts.len() {
                ts[p + 1].start
            } else {
                ts[p].start
            };
            let (k, q) = parse_expr(ts, p + 1, fuel - 1)?;
            if !is_sym(ts, q, ']') {
                return None;
            }
            let ghost kg = k;
            let key = match k {
                LuaExpr::LiteralExpr(LuaLiteralExpr { literal: LuaLiteralToken::String(s), position: _ }) => LuaIndexKey::String(s),
                LuaExpr::LiteralExpr(LuaLiteralExpr { literal: LuaLiteralToken::Integer(i), position: _ }) => LuaIndexKey::Integer(i),
                other => LuaIndexKey::Expr(Box::new(other)),
            };
            assert(key == bracket_key(kg));
            e = LuaExpr::IndexExpr(LuaIndexExpr { prefix: Box::new(e), key, colon: false, position });
            p = q + 1;
            assert forall|fin: LuaExpr| #[trigger] suffix_val(ts@, p as int, fuel as nat, e, fin) implies suffixed_val(
                ts@,
                pos as int,
                fuel as nat,
                fin,
            ) by {
                assert(expr_val(ts@, p0 + 1, (fuel - 1) as nat, kg));
                assert(suffix_val(ts@, p0, fuel as nat, e0, fin));
            }
        } else if is_sym(ts, p, ':') {
            let n = name_at(ts, p + 1)?;
            let position = n.position;
            let callee = LuaExpr::IndexExpr(
                LuaIndexExpr { prefix: Box::new(e), key: LuaIndexKey::Name(n.name), colon: true, position },
            );
            let (args, q) = parse_args(ts, p + 2, fuel - 1)?;
            let ghost ag = args;
            e = LuaExpr::CallExpr(LuaCallExpr { prefix: Box::new(callee), args, generic_types: None, position });
            p = q;
            assert forall|fin: LuaExpr| #[trigger] suffix_val(ts@, p as int, fuel as nat, e, fin) implies suffixed_val(
                ts@,
                pos as int,
                fuel as nat,
                fin,
            ) by {
                assert(args_val(ts@, p0 + 2, (fuel - 1) as nat, ag@));
                assert(suffix_val(ts@, p0, fuel as nat, e0, fin));
            }
        } else if is_sym(ts, p, '(') || (p < ts.len() && matches!(ts[p].kind, TokenKind::Str(_))) {
            let position = ts[p].start;
            let (args, q) = parse_args(ts, p, fuel - 1)?;
            let ghost ag = args;
            e = LuaExpr::CallExpr(LuaCallExpr { prefix: Box::new(e), args, generic_types: None, position });
            p = q;
            assert forall|fin: LuaExpr| #[trigger] suffix_val(ts@, p as int, fuel as nat, e, fin) implies suffixed_val(
                ts@,
                pos as int,
                fuel as nat,
                fin,
            ) by {
                assert(args_val(ts@, p0, (fuel - 1) as nat, ag@));
                assert(suffix_val(ts@, p0, fuel as nat, e0, fin));
            }
        } else {
            assert(suffix_val(ts@, p as int, fuel as nat, e, e));
            return Some((e, p));
        }
    }
}

/// Call arguments: `( e1, e2 )` or a single string literal.
fn parse_args(ts: &Vec<Token>, pos: usize, fuel: usize) -> (r: Option<(Vec<LuaExpr>, usize)>)
    requires
        ts@.len() < 0x4000_0000,
    ensures
        r matches Some((args, _)) ==> args_val(ts@, pos as int, fuel as nat, args@),
        match r {
            Some((_, p)) => args_end(ts@, pos as int, fuel as nat) == Some(p as int),
            None => args_end(ts@, pos as int, fuel as nat) is None,
        },
        r matches Some((_, p)) ==> pos < p <= ts@.len(),
        fuel == 0 || pos >= ts@.len() || !(ts@[pos as int].kind is Str || ts@[pos as int].kind == TokenKind::Sym('('))
            ==> r is None,
        fuel > 0 && pos < ts@.len() && ts@[pos as int].kind is Str ==> (r matches Some((args, p)) && p == pos + 1
            && args@.len() == 1 && args@[0] == LuaExpr::LiteralExpr(
            LuaLiteralExpr { literal: LuaLiteralToken::String(ts@[pos as int].kind->Str_0), position: ts@[pos as int].start },
        )),
        fuel > 0 && pos + 1 < ts@.len() && ts@[pos as int].kind == TokenKind::Sym('(') && ts@[pos + 1].kind
            == TokenKind::Sym(')') ==> (r matches Some((args, p)) && p == pos + 2 && args@.len() == 0),
        r matches Some((args, p)) ==> (p == pos + 1 && ts@[pos as int].kind is Str) || ts@[p - 1].kind == TokenKind::Sym(
            ')',
        ),
    decreases fuel, 0nat,
{
    if fuel == 0 || pos >= ts.len() {
        return None;
    }
    if let TokenKind::Str(s) = &ts[pos].kind {
        let mut args: Vec<LuaExpr> = Vec::new();
        args.push(
            LuaExpr::LiteralExpr(
                LuaLiteralExpr { literal: LuaLiteralToken::String(s.clone()), position: ts[pos].start },
            ),
        );
        return Some((args, pos + 1));
    }
    if !is_sym(ts, pos, '(') {
        return None;
    }
    let mut args: Vec<LuaExpr> = Vec::new();
    if is_sym(ts, pos + 1, ')') {
        return Some((args, pos + 2));
    }
    let mut p = pos + 1;
    loop
        invariant
            pos < p <= ts@.len(),
            ts@.len() < 0x4000_0000,
            fuel > 0,
            pos < ts@.len(),
            !(ts@[pos as int].kind is Str),
            ts@[pos as int].kind == TokenKind::Sym('('),
            !(pos + 1 < ts@.len() && ts@[pos + 1].kind == TokenKind::Sym(')')),
            args_end(ts@, pos as int, fuel as nat) == args_loop_end(ts@, p as int, fuel as nat),
            forall|fin: Seq<LuaExpr>|
                fin.len() >= args@.len() && fin.subrange(0, args@.len() as int) == args@ && #[trigger] args_loop_val(
                    ts@,
                    p as int,
                    fuel as nat,
                    fin,
                    args@.len() as int,
                ) ==> args_loop_val(ts@, pos + 1, fuel as nat, fin, 0),
        decreases ts@.len() - p,
    {
        let ghost a0 = args@;
        let ghost p0 = p as int;
        let (a, q) = parse_expr(ts, p, fuel - 1)?;
        args.push(a);
        if is_sym(ts, q, ',') {
            p = q + 1;
            assert forall|fin: Seq<LuaExpr>|
                fin.len() >= args@.len() && fin.subrange(0, args@.len() as int) == args@ && #[trigger] args_loop_val(
                    ts@,
                    p as int,
                    fuel as nat,
                    fin,
                    args@.len() as int,
                ) implies args_loop_val(ts@, pos + 1, fuel as nat, fin, 0) by {
                assert(fin[a0.len() as int] == fin.subrange(0, args@.len() as int)[a0.len() as int]);
                assert(fin.subrange(0, a0.len() as int) =~= fin.subrange(0, args@.len() as int).subrange(0, a0.len() as int));
                assert(args@.subrange(0, a0.len() as int) =~= a0);
                assert(args_loop_val(ts@, p0, fuel as nat, fin, a0.len() as int));
            }
        } else if is_sym(ts, q, ')') {
            proof {
                assert(args@.subrange(0, a0.len() as int) =~= a0);
                assert(args@.subrange(0, args@.len() as int) =~= args@);
                assert(args_loop_val(ts@, p0, fuel as nat, args@, a0.len() as int));
                assert(args_loop_val(ts@, pos + 1, fuel as nat, args@, 0));
            }
            return Some((args, q + 1));
        } else {
            return None;
        }
    }
}

/// A table literal starting at the `{` at `pos`.
fn parse_table(ts: &Vec<Token>, pos: usize, fuel: usize) -> (r: Option<(LuaTableExpr, usize)>)
    requires
        ts@.len() < 0x4000_0000,
    ensures
        r matches Some((t, _)) ==> table_val(ts@, pos as int, fuel as nat, t),
        match r {
            Some((_, p)) => table_end(ts@, pos as int, fuel as nat) == Some(p as int),
            None => table_end(ts@, pos as int, fuel as nat) is None,
        },
        r matches Some((_, p)) ==> pos < p <= ts@.len(),
        fuel == 0 || !(pos < ts@.len() && ts@[pos as int].kind == TokenKind::Sym('{')) ==> r is None,
        fuel > 0 && pos + 1 < ts@.len() && ts@[pos as int].kind == TokenKind::Sym('{') && ts@[pos + 1].kind
            == TokenKind::Sym('}') ==> (r matches Some((t, p)) && p == pos + 2 && t.fields@.len() == 0 && t.range
            == (TextRange { start: ts@[pos as int].start, end: ts@[pos + 1].end })),
        r matches Some((t, p)) ==> ts@[p - 1].kind == TokenKind::Sym('}') && t.range == (TextRange {
            start: ts@[pos as int].start,
            end: ts@[p - 1].end,
        }),
    decreases fuel, 0nat,
{
    if fuel == 0 || !is_sym(ts, pos, '{') {
        return None;
    }
    let start = ts[pos].start;
    let mut fields: Vec<LuaTableField> = Vec::new();
    let mut p = pos + 1;
    loop
        invariant
            pos < p <= ts@.len(),
            ts@.len() < 0x4000_0000,
            fuel > 0,
            start == ts@[pos as int].start,
            p == pos + 1 ==> fields@.len() == 0,
            pos < ts@.len() && ts@[pos as int].kind == TokenKind::Sym('{'),
            (pos + 1 < ts@.len() && ts@[pos + 1].kind == TokenKind::Sym('}')) ==> p == pos + 1,
            table_end(ts@, pos as int, fuel as nat) == table_loop_end(ts@, p as int, fuel as nat),
            forall|fin: Seq<LuaTableField>|
                fin.len() >= fields@.len() && fin.subrange(0, fields@.len() as int) == fields@ && #[trigger] table_loop_val(
                    ts@,
                    p as int,
                    fuel as nat,
                    fin,
                    fields@.len() as int,
                ) ==> table_loop_val(ts@, pos + 1, fuel as nat, fin, 0),
        decreases ts@.len() - p,
    {
        let ghost f0 = fields@;
        let ghost p0 = p as int;
        if is_sym(ts, p, '}') {
            let range = TextRange { start, end: ts[p].end };
            proof {
                assert(fields@.subrange(0, fields@.len() as int) =~= fields@);
                assert(table_loop_val(ts@, p as int, fuel as nat, fields@, fields@.len() as int));
            }
            return Some((LuaTableExpr { range, fields }, p + 1));
        }
        if p >= ts.len() {
            return None;
        }
        let field_pos = ts[p].start;
        let named = if is_sym(ts, p + 1, '=') {
            name_at(ts, p)
        } else {
            None
        };
        let (key, value, q) = if is_sym(ts, p, '[') {
            let (k, q1) = match parse_expr(ts, p + 1, fuel - 1) {
                Some(x) => x,
                None => {
                    assert(field_end(ts@, p as int, fuel as nat) is None);
                    return None;
                },
            };
            if !is_sym(ts, q1, ']') || !is_sym(ts, q1 + 1, '=') {
                assert(field_end(ts@, p as int, fuel as nat) is None);
                return None;
            }
            let (v, q2) = match parse_expr(ts, q1 + 2, fuel - 1) {
                Some(x) => x,
                None => {
                    assert(field_end(ts@, p as int, fuel as nat) is None);
                    return None;
                },
            };
            assert(field_end(ts@, p as int, fuel as nat) == Some(q2 as int));
            let ghost kg = k;
            let key = match k {
                LuaExpr::LiteralExpr(LuaLiteralExpr { literal: LuaLiteralToken::String(s), position: _ }) => LuaIndexKey::String(s),
                LuaExpr::LiteralExpr(LuaLiteralExpr { literal: LuaLiteralToken::Integer(i), position: _ }) => LuaIndexKey::Integer(i),
                other => LuaIndexKey::Expr(Box::new(other)),
            };
            assert(key == bracket_key(kg));
            assert(field_val(ts@, p as int, fuel as nat, LuaTableField { key: Some(key), position: field_pos, value: v }));
            (Some(key), v, q2)
        } else if let Some(n) = named {
            let (v, q2) = match parse_expr(ts, p + 2, fuel - 1) {
                Some(x) => x,
                None => {
                    assert(field_end(ts@, p as int, fuel as nat) is None);
                    return None;
                },
            };
            assert(field_end(ts@, p as int, fuel as nat) == Some(q2 as int));
            assert(field_val(
                ts@,
                p as int,
                fuel as nat,
                LuaTableField { key: Some(LuaIndexKey::Name(n.name)), position: field_pos, value: v },
            ));
            (Some(LuaIndexKey::Name(n.name)), v, q2)
        } else {
            let (v, q2) = match parse_expr(ts, p, fuel - 1) {
                Some(x) => x,
                None => {
                    assert(field_end(ts@, p as int, fuel as nat) is None);
                    return None;
                },
            };
            assert(field_end(ts@, p as int, fuel as nat) == Some(q2 as int));
            assert(field_val(ts@, p as int, fuel as nat, LuaTableField { key: None, position: field_pos, value: v }));
            (None, v, q2)
        };
        let fld = LuaTableField { key, position: field_pos, value };
        fields.push(fld);
        if is_sym(ts, q, ',') || is_sym(ts, q, ';') || is_sym(ts, q, '}') {
            if is_sym(ts, q, ',') || is_sym(ts, q, ';') {
                p = q + 1;
            } else {
                p = q;
            }
            assert forall|fin: Seq<LuaTableField>|
                fin.len() >= fields@.len() && fin.subrange(0, fields@.len() as int) == fields@ && #[trigger] table_loop_val(
                    ts@,
                    p as int,
                    fuel as nat,
                    fin,
                    fields@.len() as int,
                ) implies table_loop_val(ts@, pos + 1, fuel as nat, fin, 0) by {
                assert(fin[f0.len() as int] == fin.subrange(0, fields@.len() as int)[f0.len() as int]);
                assert(fin.subrange(0, f0.len() as int) =~= fin.subrange(0, fields@.len() as int).subrange(0, f0.len() as int));
                assert(fields@.subrange(0, f0.len() as int) =~= f0);
                assert(table_loop_val(ts@, p0, fuel as nat, fin, f0.len() as int));
            }
        } else {
            return None;
        }
    }
}

/// `( params ) block end`, starting at the `(` at `pos`.
fn parse_funcbody(ts: &Vec<Token>, pos: usize, fuel: usize, position: u32) -> (r: Option<(LuaClosureExpr, usize)>)
    requires
        ts@.len() < 0x4000_0000,
    ensures
        r matches Some((c, _)) ==> funcbody_val(ts@, pos as int, fuel as nat, position, c),
        match r {
            Some((_, p)) => funcbody_end(ts@, pos as int, fuel as nat) == Some(p as int),
            None => funcbody_end(ts@, pos as int, fuel as nat) is None,
        },
        r matches Some((_, p)) ==> pos < p <= ts@.len(),
        fuel == 0 || !(pos < ts@.len() && ts@[pos as int].kind == TokenKind::Sym('(')) ==> r is None,
        r matches Some((c, p)) ==> c.position == position && ts@[p - 1].kind == TokenKind::Keyword(Keyword::End) && c.end
            == ts@[p - 1].end,
    decreases fuel, 0nat,
{
    if fuel == 0 || !is_sym(ts, pos, '(') {
        return None;
    }
    let mut params: Vec<LuaNameExpr> = Vec::new();
    let mut p = pos + 1;
    if !is_sym(ts, p, ')') {
        loop
            invariant_except_break
                names_end(ts@, pos + 1) == names_end(ts@, p as int),
                forall|rest: Seq<LuaNameExpr>| #[trigger] names_val(ts@, p as int, rest) ==> names_val(
                    ts@,
                    pos + 1,
                    params@ + rest,
                ),
            invariant
                pos < p <= ts@.len(),
                ts@.len() < 0x4000_0000,
                fuel > 0,
                sym_at(ts@, pos as int, '('),
                !sym_at(ts@, pos + 1, ')'),
            ensures
                names_end(ts@, pos + 1) == Some(p as int),
                names_val(ts@, pos + 1, params@),
            decreases ts@.len() - p,
        {
            let ghost pr0 = params@;
            let ghost p0 = p as int;
            let n = match name_at(ts, p) {
                Some(n) => n,
                None => {
                    assert(funcbody_end(ts@, pos as int, fuel as nat) is None);
                    return None;
                },
            };
            params.push(n);
            if is_sym(ts, p + 1, ',') {
                p = p + 2;
                assert forall|rest: Seq<LuaNameExpr>| #[trigger] names_val(ts@, p as int, rest) implies names_val(
                    ts@,
                    pos + 1,
                    params@ + rest,
                ) by {
                    let r1 = seq![n] + rest;
                    assert(r1.drop_first() =~= rest);
                    assert(names_val(ts@, p0, r1));
                    assert(pr0 + r1 =~= params@ + rest);
                }
            } else {
                p = p + 1;
                proof {
                    assert(names_val(ts@, p0, seq![n]));
                    assert(pr0 + seq![n] =~= params@);
                }
                break;
            }
        }
    }
    if !is_sym(ts, p, ')') {
        assert(funcbody_end(ts@, pos as int, fuel as nat) is None);
        return None;
    }
    let (block, q) = match parse_block(ts, p + 1, fuel - 1) {
        Some(x) => x,
        None => {
            assert(funcbody_end(ts@, pos as int, fuel as nat) is None);
            return None;
        },
    };
    if !is_kw(ts, q, Keyword::End) {
        return None;
    }
    let c = LuaClosureExpr { position, params, block, end: ts[q].end };
    assert(funcbody_val(ts@, pos as int, fuel as nat, position, c));
    Some((c, q + 1))
}

/// A function name `a.b.c` or `a.b:c` starting at `pos`.
fn parse_funcname(ts: &Vec<Token>, pos: usize) -> (r: Option<(LuaExpr, usize)>)
    requires
        ts@.len() < 0x4000_0000,
    ensures
        r matches Some((e, _)) ==> funcname_val(ts@, pos as int, e),
        match r {
            Some((_, p)) => funcname_end(ts@, pos as int) == Some(p as int),
            None => funcname_end(ts@, pos as int) is None,
        },
        r matches Some((_, p)) ==> pos < p <= ts@.len(),
        !(pos < ts@.len() && ts@[pos as int].kind is Name) ==> r is None,
        (pos < ts@.len() && ts@[pos as int].kind is Name && !(pos + 1 < ts@.len() && (ts@[pos + 1].kind == TokenKind::Sym(
            '.',
        ) || ts@[pos + 1].kind == TokenKind::Sym(':')))) ==> (r matches Some((LuaExpr::NameExpr(n), p)) && p == pos + 1
            && (ts@[pos as int].kind matches TokenKind::Name(x) && x@ == n.name@) && n.position == ts@[pos as int].start),
        r matches Some((e, _)) ==> e is NameExpr || e is IndexExpr,
{
    let first = name_at(ts, pos)?;
    let ghost f = first;
    let mut e = LuaExpr::NameExpr(first);
    let mut p = pos + 1;
    loop
        invariant
            pos < p <= ts@.len(),
            ts@.len() < 0x4000_0000,
            e is NameExpr || e is IndexExpr,
            p == pos + 1 ==> e == LuaExpr::NameExpr(f),
            !(pos + 1 < ts@.len() && (ts@[pos + 1].kind == TokenKind::Sym('.') || ts@[pos + 1].kind == TokenKind::Sym(
                ':',
            ))) ==> p == pos + 1,
            (ts@[pos as int].kind matches TokenKind::Name(x) && x@ == f.name@) && f.position == ts@[pos as int].start,
            funcname_end(ts@, pos as int) == funcname_loop_end(ts@, p as int),
            forall|fin: LuaExpr| #[trigger] funcname_loop_val(ts@, p as int, e, fin) ==> funcname_val(ts@, pos as int, fin),
        decreases ts@.len() - p,
    {
        let ghost e0 = e;
        let ghost p0 = p as int;
        let colon = is_sym(ts, p, ':');
        if is_sym(ts, p, '.') || colon {
            let n = name_at(ts, p + 1)?;
            let position = n.position;
            e = LuaExpr::IndexExpr(
                LuaIndexExpr { prefix: Box::new(e), key: LuaIndexKey::Name(n.name), colon, position },
            );
            p = p + 2;
            if colon {
                assert(funcname_loop_val(ts@, p0, e0, e));
                return Some((e, p));
            }
            assert forall|fin: LuaExpr| #[trigger] funcname_loop_val(ts@, p as int, e, fin) implies funcname_val(
                ts@,
                pos as int,
                fin,
            ) by {
                assert(funcname_loop_val(ts@, p0, e0, fin));
            }
        } else {
            assert(funcname_loop_val(ts@, p as int, e, e));
            return Some((e, p));
        }
    }
}

/// A list of expressions separated by commas.
fn parse_exprlist(ts: &Vec<Token>, pos: usize, fuel: usize) -> (r: Option<(Vec<LuaExpr>, usize)>)
    requires
        ts@.len() < 0x4000_0000,
    ensures
        r matches Some((es, _)) ==> exprlist_val(ts@, pos as int, fuel as nat, es@, 0),
        match r {
            Some((_, p)) => exprlist_end(ts@, pos as int, fuel as nat) == Some(p as int),
            None => exprlist_end(ts@, pos as int, fuel as nat) is None,
        },
        r matches Some((_, p)) ==> pos < p <= ts@.len(),
        fuel == 0 || pos >= ts@.len() ==> r is None,
        r matches Some((es, _)) ==> es@.len() >= 1,
        fuel > 1 && pos < ts@.len() && ts@[pos as int].kind is Int && !(pos + 1 < ts@.len() && ts@[pos + 1].kind
            == TokenKind::Sym(',')) ==> (r matches Some((es, p)) && p == pos + 1 && es@ == seq![
            LuaExpr::LiteralExpr(
                LuaLiteralExpr { literal: LuaLiteralToken::Integer(ts@[pos as int].kind->Int_0), position: ts@[pos as int].start },
            ),
        ]),
    decreases fuel, 0nat,
{
    if fuel == 0 || pos >= ts.len() {
        if fuel > 0 {
            assert(expr_end(ts@, pos as int, (fuel - 1) as nat) is None);
            assert(exprlist_end(ts@, pos as int, fuel as nat) is None);
        }
        return None;
    }
    let mut exprs: Vec<LuaExpr> = Vec::new();
    let mut p = pos;
    loop
        invariant
            pos <= p <= ts@.len(),
            ts@.len() < 0x4000_0000,
            fuel > 0,
            p == pos ==> exprs@.len() == 0,
            p > pos ==> exprs@.len() >= 1,
            (fuel > 1 && pos < ts@.len() && ts@[pos as int].kind is Int && !(pos + 1 < ts@.len() && ts@[pos + 1].kind
                == TokenKind::Sym(','))) ==> p == pos,
            fuel > 0 && pos < ts@.len() ==> exprlist_end(ts@, pos as int, fuel as nat) == exprlist_end(ts@, p as int, fuel as nat),
            forall|fin: Seq<LuaExpr>|
                fin.len() >= exprs@.len() && fin.subrange(0, exprs@.len() as int) == exprs@ && #[trigger] exprlist_val(
                    ts@,
                    p as int,
                    fuel as nat,
                    fin,
                    exprs@.len() as int,
                ) ==> exprlist_val(ts@, pos as int, fuel as nat, fin, 0),
        decreases ts@.len() - p,
    {
        let ghost a0 = exprs@;
        let ghost p0 = p as int;
        let (e, q) = parse_expr(ts, p, fuel - 1)?;
        exprs.push(e);
        if is_sym(ts, q, ',') {
            p = q + 1;
            assert forall|fin: Seq<LuaExpr>|
                fin.len() >= exprs@.len() && fin.subrange(0, exprs@.len() as int) == exprs@ && #[trigger] exprlist_val(
                    ts@,
                    p as int,
                    fuel as nat,
                    fin,
                    exprs@.len() as int,
                ) implies exprlist_val(ts@, pos as int, fuel as nat, fin, 0) by {
                assert(fin[a0.len() as int] == fin.subrange(0, exprs@.len() as int)[a0.len() as int]);
                assert(fin.subrange(0, a0.len() as int) =~= fin.subrange(0, exprs@.len() as int).subrange(0, a0.len() as int));
                assert(exprs@.subrange(0, a0.len() as int) =~= a0);
                assert(exprlist_val(ts@, p0, fuel as nat, fin, a0.len() as int));
            }
        } else {
            proof {
                assert(exprs@.subrange(0, a0.len() as int) =~= a0);
                assert(exprs@.subrange(0, exprs@.len() as int) =~= exprs@);
                assert(exprlist_val(ts@, p0, fuel as nat, exprs@, a0.len() as int));
            }
            return Some((exprs, q));
        }
    }
}

/// A statement starting at `pos`, with `tags` the doc tags written right
/// above it.
#[verifier::rlimit(60)]
#[verifier::spinoff_prover]
fn parse_stat(ts: &Vec<Token>, pos: usize, fuel: usize, tags: Vec<LuaDocTag>) -> (r: Option<(LuaStat, usize)>)
    requires
        ts@.len() < 0x4000_0000,
    ensures
        r matches Some((st, _)) ==> forall|tg: Seq<LuaDocTag>|
            tags_eq(tags@, tg) ==> #[trigger] stat_val(ts@, pos as int, fuel as nat, tg, st),
        match r {
            Some((_, p)) => stat_end(ts@, pos as int, fuel as nat) == Some(p as int),
            None => stat_end(ts@, pos as int, fuel as nat) is None,
        },
        r matches Some((_, p)) ==> pos < p <= ts@.len(),
        fuel == 0 || pos >= ts@.len() ==> r is None,
        r matches Some((st, _)) ==> (st is LocalStat || st is LocalFuncStat) == (ts@[pos as int].kind
            == TokenKind::Keyword(Keyword::Local)),
        r matches Some((st, _)) ==> (st is FuncStat) == (ts@[pos as int].kind == TokenKind::Keyword(Keyword::Function)),
        r matches Some((st, _)) ==> (st is ReturnStat) == (ts@[pos as int].kind == TokenKind::Keyword(Keyword::Return)),
        r matches Some((LuaStat::LocalStat { names, exprs: _, tags: t }, _)) ==> t == tags && names@.len() >= 1,
        r matches Some((st, _)) ==> (st is LocalStat <==> (kw_at(ts@, pos as int, Keyword::Local) && !kw_at(
            ts@,
            pos + 1,
            Keyword::Function,
        ))),
        fuel > 0 && pos < ts@.len() && ts@[pos as int].kind == TokenKind::Keyword(Keyword::Return) && (pos + 1
            >= ts@.len() || ts@[pos + 1].kind == TokenKind::Keyword(Keyword::End) || ts@[pos + 1].kind == TokenKind::Sym(
            ';',
        )) ==> (r matches Some((LuaStat::ReturnStat(v), p)) && v@.len() == 0 && p == pos + 1),
    decreases fuel, 0nat,
{
    if fuel == 0 || pos >= ts.len() {
        return None;
    }
    if is_kw(ts, pos, Keyword::Local) {
        if is_kw(ts, pos + 1, Keyword::Function) {
            let start = ts[pos + 1].start;
            let name = name_at(ts, pos + 2)?;
            let (closure, p) = parse_funcbody(ts, pos + 3, fuel - 1, start)?;
            let st = LuaStat::LocalFuncStat { name, closure, tags };
            assert forall|tg: Seq<LuaDocTag>| tags_eq(tags@, tg) implies #[trigger] stat_val(
                ts@,
                pos as int,
                fuel as nat,
                tg,
                st,
            ) by {
                assert(name == name_expr_at(ts@, pos + 2));
            }
            return Some((st, p));
        }
        let mut names: Vec<LuaNameExpr> = Vec::new();
        let mut p = pos + 1;
        loop
            invariant_except_break
                names@.len() == 0 ==> p == pos + 1,
                names_end(ts@, pos + 1) == names_end(ts@, p as int),
                forall|rest: Seq<LuaNameExpr>| #[trigger] names_val(ts@, p as int, rest) ==> names_val(
                    ts@,
                    pos + 1,
                    names@ + rest,
                ),
            invariant
                pos < p <= ts@.len(),
                ts@.len() < 0x4000_0000,
                fuel > 0,
                pos < ts@.len(),
                ts@[pos as int].kind == TokenKind::Keyword(Keyword::Local),
                !kw_at(ts@, pos + 1, Keyword::Function),
            ensures
                names@.len() >= 1,
                names_end(ts@, pos + 1) == Some(p as int),
                names_val(ts@, pos + 1, names@),
            decreases ts@.len() - p,
        {
            let ghost pr0 = names@;
            let ghost p0 = p as int;
            let n = match name_at(ts, p) {
                Some(n) => n,
                None => {
                    assert(names_end(ts@, pos + 1) is None);
                    assert(stat_end(ts@, pos as int, fuel as nat) is None);
                    return None;
                },
            };
            names.push(n);
            if is_sym(ts, p + 1, ',') {
                p = p + 2;
                assert forall|rest: Seq<LuaNameExpr>| #[trigger] names_val(ts@, p as int, rest) implies names_val(
                    ts@,
                    pos + 1,
                    names@ + rest,
                ) by {
                    let r1 = seq![n] + rest;
                    assert(r1.drop_first() =~= rest);
                    assert(names_val(ts@, p0, r1));
                    assert(pr0 + r1 =~= names@ + rest);
                }
            } else {
                p = p + 1;
                proof {
                    assert(names_val(ts@, p0, seq![n]));
                    assert(pr0 + seq![n] =~= names@);
                }
                break;
            }
        }
        if is_sym(ts, p, '=') {
            let (exprs, q) = match parse_exprlist(ts, p + 1, fuel - 1) {
                Some(x) => x,
                None => {
                    assert(stat_end(ts@, pos as int, fuel as nat) is None);
                    return None;
                },
            };
            let st = LuaStat::LocalStat { names, exprs, tags };
            assert forall|tg: Seq<LuaDocTag>| tags_eq(tags@, tg) implies #[trigger] stat_val(
                ts@,
                pos as int,
                fuel as nat,
                tg,
                st,
            ) by {}
            return Some((st, q));
        }
        let st = LuaStat::LocalStat { names, exprs: Vec::new(), tags };
        assert forall|tg: Seq<LuaDocTag>| tags_eq(tags@, tg) implies #[trigger] stat_val(
            ts@,
            pos as int,
            fuel as nat,
            tg,
            st,
        ) by {}
        return Some((st, p));
    }
    if is_kw(ts, pos, Keyword::Function) {
        let start = ts[pos].start;
        let (name, p) = parse_funcname(ts, pos + 1)?;
        let (closure, q) = parse_funcbody(ts, p, fuel - 1, start)?;
        let st = LuaStat::FuncStat { name, closure, tags };
        assert forall|tg: Seq<LuaDocTag>| tags_eq(tags@, tg) implies #[trigger] stat_val(
            ts@,
            pos as int,
            fuel as nat,
            tg,
            st,
        ) by {}
        return Some((st, q));
    }
    if is_kw(ts, pos, Keyword::Return) {
        let p = pos + 1;
        if p >= ts.len() || is_kw(ts, p, Keyword::End) || is_sym(ts, p, ';') {
            let st = LuaStat::ReturnStat(Vec::new());
            assert forall|tg: Seq<LuaDocTag>| tags_eq(tags@, tg) implies #[trigger] stat_val(
                ts@,
                pos as int,
                fuel as nat,
                tg,
                st,
            ) by {}
            return Some((st, p));
        }
        let (exprs, q) = parse_exprlist(ts, p, fuel - 1)?;
        let st = LuaStat::ReturnStat(exprs);
        assert forall|tg: Seq<LuaDocTag>| tags_eq(tags@, tg) implies #[trigger] stat_val(
            ts@,
            pos as int,
            fuel as nat,
            tg,
            st,
        ) by {}
        return Some((st, q));
    }
    let (first, mut p) = parse_suffixed(ts, pos, fuel - 1)?;
    if is_sym(ts, p, '=') || is_sym(ts, p, ',') {
        let mut vars: Vec<LuaExpr> = Vec::new();
        let ghost p0 = p as int;
        assert(stat_end(ts@, pos as int, fuel as nat) == match vars_end(ts@, p0, fuel as nat) {
            Some(p2) => if sym_at(ts@, p2, '=') && fuel > 1 && p2 + 1 < ts@.len() {
                exprlist_end(ts@, p2 + 1, (fuel - 1) as nat)
            } else {
                None
            },
            None => None,
        });
        let ghost fg = first;
        vars.push(first);
        proof {
            assert forall|fin: Seq<LuaExpr>|
                fin.len() >= vars@.len() && fin.subrange(0, vars@.len() as int) == vars@ && #[trigger] vars_val(
                    ts@,
                    p as int,
                    fuel as nat,
                    fin,
                    vars@.len() as int,
                ) implies vars_val(ts@, p0, fuel as nat, fin, 1) by {}
        }
        while is_sym(ts, p, ',')
            invariant
                vars_end(ts@, p0, fuel as nat) == vars_end(ts@, p as int, fuel as nat),
                stat_end(ts@, pos as int, fuel as nat) == match vars_end(ts@, p0, fuel as nat) {
                    Some(p2) => if sym_at(ts@, p2, '=') && fuel > 1 && p2 + 1 < ts@.len() {
                        exprlist_end(ts@, p2 + 1, (fuel - 1) as nat)
                    } else {
                        None
                    },
                    None => None,
                },
                pos < p <= ts@.len(),
                ts@.len() < 0x4000_0000,
                fuel > 0,
                pos < ts@.len(),
                ts@[pos as int].kind is Name || ts@[pos as int].kind == TokenKind::Sym('('),
                vars@.len() >= 1,
                vars@[0] == fg,
                forall|fin: Seq<LuaExpr>|
                    fin.len() >= vars@.len() && fin.subrange(0, vars@.len() as int) == vars@ && #[trigger] vars_val(
                        ts@,
                        p as int,
                        fuel as nat,
                        fin,
                        vars@.len() as int,
                    ) ==> vars_val(ts@, p0, fuel as nat, fin, 1),
            decreases ts@.len() - p,
        {
            let ghost a0 = vars@;
            let ghost pp = p as int;
            let (v, q) = match parse_suffixed(ts, p + 1, fuel - 1) {
                Some(x) => x,
                None => {
                    assert(vars_end(ts@, p as int, fuel as nat) is None);
                    return None;
                },
            };
            vars.push(v);
            p = q;
            assert forall|fin: Seq<LuaExpr>|
                fin.len() >= vars@.len() && fin.subrange(0, vars@.len() as int) == vars@ && #[trigger] vars_val(
                    ts@,
                    p as int,
                    fuel as nat,
                    fin,
                    vars@.len() as int,
                ) implies vars_val(ts@, p0, fuel as nat, fin, 1) by {
                assert(fin[a0.len() as int] == fin.subrange(0, vars@.len() as int)[a0.len() as int]);
                assert(fin.subrange(0, a0.len() as int) =~= fin.subrange(0, vars@.len() as int).subrange(0, a0.len() as int));
                assert(vars@.subrange(0, a0.len() as int) =~= a0);
                assert(vars_val(ts@, pp, fuel as nat, fin, a0.len() as int));
            }
        }
        proof {
            assert(vars@.subrange(0, vars@.len() as int) =~= vars@);
            assert(vars_val(ts@, p as int, fuel as nat, vars@, vars@.len() as int));
        }
        assert(vars_end(ts@, p as int, fuel as nat) == Some(p as int));
        if !is_sym(ts, p, '=') {
            return None;
        }
        let (exprs, q) = match parse_exprlist(ts, p + 1, fuel - 1) {
            Some(x) => x,
            None => {
                assert(stat_end(ts@, pos as int, fuel as nat) is None);
                return None;
            },
        };
        let st = LuaStat::AssignStat { vars, exprs, tags };
        assert forall|tg: Seq<LuaDocTag>| tags_eq(tags@, tg) implies #[trigger] stat_val(
            ts@,
            pos as int,
            fuel as nat,
            tg,
            st,
        ) by {
            assert(vars@[0] == fg);
        }
        return Some((st, q));
    }
    match first {
        LuaExpr::CallExpr(_) => {
            let st = LuaStat::CallStat(first);
            assert forall|tg: Seq<LuaDocTag>| tags_eq(tags@, tg) implies #[trigger] stat_val(
                ts@,
                pos as int,
                fuel as nat,
                tg,
                st,
            ) by {}
            Some((st, p))
        },
        _ => None,
    }
}

/// A copy of the doc type `t`.
fn clone_type_ref(t: &LuaDocTypeRef) -> (r: LuaDocTypeRef)
    ensures
        r == *t,
{
    LuaDocTypeRef { name: t.name.clone(), optional: t.optional }
}

/// A copy of the doc tag `t`.
fn clone_tag(t: &LuaDocTag) -> (r: LuaDocTag)
    ensures
        tag_eq(r, *t),
{
    match t {
        LuaDocTag::Class(n, ps, ss) => {
            let mut ps2: Vec<String> = Vec::new();
            let mut i: usize = 0;
            while i < ps.len()
                invariant
                    i <= ps@.len(),
                    ps2@ == ps@.subrange(0, i as int),
                decreases ps@.len() - i,
            {
                ps2.push(ps[i].clone());
                assert(ps2@ =~= ps@.subrange(0, i + 1));
                i = i + 1;
            }
            let mut ss2: Vec<LuaDocTypeRef> = Vec::new();
            let mut j: usize = 0;
            while j < ss.len()
                invariant
                    j <= ss@.len(),
                    ss2@ == ss@.subrange(0, j as int),
                decreases ss@.len() - j,
            {
                ss2.push(clone_type_ref(&ss[j]));
                assert(ss2@ =~= ss@.subrange(0, j + 1));
                j = j + 1;
            }
            assert(ps2@ =~= ps@);
            assert(ss2@ =~= ss@);
            LuaDocTag::Class(n.clone(), ps2, ss2)
        },
        LuaDocTag::Type(x) => LuaDocTag::Type(clone_type_ref(x)),
        LuaDocTag::Field(n, at, x) => LuaDocTag::Field(n.clone(), *at, clone_type_ref(x)),
        LuaDocTag::Return(x) => LuaDocTag::Return(clone_type_ref(x)),
    }
}

/// The statements read so far, `stats`, with `pend` the doc tags not yet
/// placed, lead, read on from `p`, to a reading of the block from `pos`.
pub open spec fn block_inv(
    ts: Seq<Token>,
    pos: int,
    fuel: nat,
    p: int,
    pend: Seq<LuaDocTag>,
    last: int,
    stats: Seq<LuaStat>,
) -> bool {
    forall|fin: Seq<LuaStat>|
        fin.len() >= stats.len() && fin.subrange(0, stats.len() as int) == stats && #[trigger] block_loop_val(
            ts,
            p,
            fuel,
            pend,
            last,
            fin,
            stats.len() as int,
        ) ==> block_loop_val(ts, pos, fuel, Seq::empty(), 0, fin, 0)
}

pub open spec fn old_pending_at(s: Seq<LuaDocTag>, i: int) -> LuaDocTag {
    s[i]
}

proof fn lemma_block_step(
    ts: Seq<Token>,
    pos: int,
    fuel: nat,
    p: int,
    pend: Seq<LuaDocTag>,
    last: int,
    stats: Seq<LuaStat>,
    p2: int,
    pend2: Seq<LuaDocTag>,
    last2: int,
    stats2: Seq<LuaStat>,
)
    requires
        block_inv(ts, pos, fuel, p, pend, last, stats),
        stats2.len() >= stats.len(),
        stats2.subrange(0, stats.len() as int) == stats,
        forall|fin: Seq<LuaStat>|
            fin.len() >= stats2.len() && fin.subrange(0, stats2.len() as int) == stats2 && #[trigger] block_loop_val(
                ts,
                p2,
                fuel,
                pend2,
                last2,
                fin,
                stats2.len() as int,
            ) ==> block_loop_val(ts, p, fuel, pend, last, fin, stats.len() as int),
    ensures
        block_inv(ts, pos, fuel, p2, pend2, last2, stats2),
{
    assert forall|fin: Seq<LuaStat>|
        fin.len() >= stats2.len() && fin.subrange(0, stats2.len() as int) == stats2 && #[trigger] block_loop_val(
            ts,
            p2,
            fuel,
            pend2,
            last2,
            fin,
            stats2.len() as int,
        ) implies block_loop_val(ts, pos, fuel, Seq::empty(), 0, fin, 0) by {
        assert(fin.subrange(0, stats.len() as int) =~= fin.subrange(0, stats2.len() as int).subrange(
            0,
            stats.len() as int,
        ));
        assert(block_loop_val(ts, p, fuel, pend, last, fin, stats.len() as int));
    }
}

proof fn lemma_placed(
    ts: Seq<Token>,
    p: int,
    q: int,
    q2: int,
    fuel: nat,
    tags: Seq<LuaDocTag>,
    st0: LuaStat,
    st: LuaStat,
)
    requires
        stat_val(ts, p, fuel, tags, st0),
        0 <= p < q <= ts.len(),
        (st0 is LocalStat <==> (kw_at(ts, p, Keyword::Local) && !kw_at(ts, p + 1, Keyword::Function))),
        q2 == if st0 is LocalStat && q < ts.len() && ts[q].line == ts[q - 1].line && ts[q].kind is Doc {
            q + 1
        } else {
            q
        },
        q2 == q + 1 ==> (st0 matches LuaStat::LocalStat { names, exprs, tags: t0 } && (st matches LuaStat::LocalStat {
            names: n1,
            exprs: e1,
            tags: t1,
        } && n1 == names && e1 == exprs && t1@ == t0@.push(t1@.last()) && (ts[q].kind matches TokenKind::Doc(d)
            && tag_eq(t1@.last(), d)))),
        q2 == q ==> st == st0,
    ensures
        trailing_end(ts, p, q) == q2,
        placed_stat_val(ts, p, q, fuel, tags, st),
{
    if q2 == q + 1 {
        let t0 = st0->LocalStat_tags;
        let t1 = st->LocalStat_tags;
        assert(t1@.drop_last() =~= t0@);
        assert(tags_eq(t0@, tags));
        assert forall|i: int| 0 <= i < tags.len() implies tag_eq(#[trigger] t1@.drop_last()[i], tags[i]) by {
            assert(tag_eq(t0@[i], tags[i]));
        }
        assert(trailing_end(ts, p, q) == q + 1);
    } else {
        assert(trailing_end(ts, p, q) == q);
    }
}

/// A doc comment right after a `local` statement, on the line where the
/// statement ends (`local a --- @type T`), is one of its tags.
fn attach_trailing_doc(ts: &Vec<Token>, stat: LuaStat, q: usize) -> (r: (LuaStat, usize))
    requires
        0 < q <= ts@.len(),
    ensures
        r.1 == q + 1 ==> (stat matches LuaStat::LocalStat { names, exprs, tags: t0 } && (r.0 matches LuaStat::LocalStat {
            names: n1,
            exprs: e1,
            tags: t1,
        } && n1 == names && e1 == exprs && t1@ == t0@.push(t1@.last()) && (ts@[q as int].kind matches TokenKind::Doc(d)
            && tag_eq(t1@.last(), d)))),
        r.1 == q ==> r.0 == stat,
        q <= r.1 <= ts@.len(),
        r.1 == if stat is LocalStat && q < ts@.len() && ts@[q as int].line == ts@[q - 1].line
            && ts@[q as int].kind is Doc {
            q + 1
        } else {
            q as int
        },
{
    if q < ts.len() && ts[q].line == ts[q - 1].line {
        if let TokenKind::Doc(tag) = &ts[q].kind {
            return match stat {
                LuaStat::LocalStat { names, exprs, tags } => {
                    let mut tags = tags;
                    let c = clone_tag(tag);
                    tags.push(c);
                    (LuaStat::LocalStat { names, exprs, tags }, q + 1)
                },
                other => (other, q),
            };
        }
    }
    (stat, q)
}

/// Statements from `pos` up to an `end` keyword (not consumed) or the end
/// of the tokens. Doc comments on the line right above a statement are
/// attached to it; other doc comments stand alone, in groups of adjacent
/// lines.
pub(crate) fn parse_block(ts: &Vec<Token>, pos: usize, fuel: usize) -> (r: Option<(Vec<LuaStat>, usize)>)
    requires
        ts@.len() < 0x4000_0000,
    ensures
        r matches Some((stats, _)) ==> block_val(ts@, pos as int, fuel as nat, stats@),
        match r {
            Some((_, p)) => block_end(ts@, pos as int, fuel as nat) == Some(p as int),
            None => block_end(ts@, pos as int, fuel as nat) is None,
        },
        r matches Some((_, p)) ==> pos <= p <= ts@.len(),
        fuel == 0 || pos > ts@.len() ==> r is None,
        r matches Some((_, p)) ==> p == ts@.len() || ts@[p as int].kind == TokenKind::Keyword(Keyword::End),
        fuel > 0 && (pos == ts@.len() || (pos < ts@.len() && ts@[pos as int].kind == TokenKind::Keyword(Keyword::End)))
            ==> (r matches Some((stats, p)) && p == pos && stats@.len() == 0),
    decreases fuel, 0nat,
{
    if fuel == 0 || pos > ts.len() {
        return None;
    }
    let mut stats: Vec<LuaStat> = Vec::new();
    let mut pending: Vec<LuaDocTag> = Vec::new();
    let mut last_doc_line: u32 = 0;
    let mut p = pos;
    let ghost mut pend: Seq<LuaDocTag> = Seq::empty();
    proof {
        assert forall|fin: Seq<LuaStat>|
            fin.len() >= 0 && fin.subrange(0, 0) == stats@ && #[trigger] block_loop_val(
                ts@,
                pos as int,
                fuel as nat,
                pend,
                0,
                fin,
                0,
            ) implies block_loop_val(ts@, pos as int, fuel as nat, Seq::empty(), 0, fin, 0) by {}
    }
    loop
        invariant
            (pos == ts@.len() || (pos < ts@.len() && ts@[pos as int].kind == TokenKind::Keyword(Keyword::End))) ==> (p
                == pos && stats@.len() == 0 && pending@.len() == 0),
            pos <= p <= ts@.len(),
            ts@.len() < 0x4000_0000,
            fuel > 0,
            block_end(ts@, pos as int, fuel as nat) == block_loop_end(ts@, p as int, fuel as nat),
            tags_eq(pending@, pend),
            block_inv(ts@, pos as int, fuel as nat, p as int, pend, last_doc_line as int, stats@),
        decreases ts@.len() - p,
    {
        let ghost s0 = stats@;
        let ghost pend0 = pend;
        let ghost p0 = p as int;
        let ghost last0 = last_doc_line as int;
        if p >= ts.len() || is_kw(ts, p, Keyword::End) {
            if pending.len() > 0 {
                let ghost g = pending;
                stats.push(LuaStat::DocStat(pending));
                proof {
                    assert(stats@.subrange(0, stats@.len() as int) =~= stats@);
                    assert(stats@.subrange(0, s0.len() as int) =~= s0);
                    assert(block_loop_val(ts@, p0, fuel as nat, pend0, last0, stats@, s0.len() as int));
                }
            } else {
                proof {
                    assert(stats@.subrange(0, stats@.len() as int) =~= stats@);
                    assert(block_loop_val(ts@, p0, fuel as nat, pend0, last0, stats@, s0.len() as int));
                }
            }
            return Some((stats, p));
        }
        if is_sym(ts, p, ';') {
            p = p + 1;
            proof {
                assert(stats@.subrange(0, s0.len() as int) =~= s0);
                lemma_block_step(ts@, pos as int, fuel as nat, p0, pend0, last0, s0, p as int, pend, last0, stats@);
            }
        } else if let TokenKind::Doc(tag) = &ts[p].kind {
            let line = ts[p].line;
            if pending.len() > 0 && (last_doc_line >= u32::MAX || line != last_doc_line + 1) {
                let group = pending;
                pending = Vec::new();
                let ghost gg = group;
                stats.push(LuaStat::DocStat(group));
                let c = clone_tag(tag);
                pending.push(c);
                proof {
                    assert(stats@.subrange(0, s0.len() as int) =~= s0);
                    pend = seq![*tag];
                    assert(pending@ =~= seq![c]);
                    assert forall|fin: Seq<LuaStat>|
                        fin.len() >= stats@.len() && fin.subrange(0, stats@.len() as int) == stats@ && #[trigger] block_loop_val(
                            ts@,
                            p + 1,
                            fuel as nat,
                            pend,
                            line as int,
                            fin,
                            stats@.len() as int,
                        ) implies block_loop_val(ts@, p0, fuel as nat, pend0, last0, fin, s0.len() as int) by {
                        assert(fin[s0.len() as int] == fin.subrange(0, stats@.len() as int)[s0.len() as int]);
                    }
                    lemma_block_step(
                        ts@,
                        pos as int,
                        fuel as nat,
                        p0,
                        pend0,
                        last0,
                        s0,
                        p + 1,
                        pend,
                        line as int,
                        stats@,
                    );
                }
            } else {
                let c = clone_tag(tag);
                pending.push(c);
                proof {
                    assert(stats@.subrange(0, s0.len() as int) =~= s0);
                    pend = pend0.push(*tag);
                    assert forall|i: int| 0 <= i < pending@.len() implies tag_eq(#[trigger] pending@[i], pend[i]) by {
                        if i < pend0.len() {
                            assert(pending@[i] == old_pending_at(pending@, i));
                        }
                    }
                    lemma_block_step(
                        ts@,
                        pos as int,
                        fuel as nat,
                        p0,
                        pend0,
                        last0,
                        s0,
                        p + 1,
                        pend,
                        line as int,
                        stats@,
                    );
                }
            }
            last_doc_line = line;
            p = p + 1;
        } else {
            let line = ts[p].line;
            let attached = pending.len() > 0 && last_doc_line < u32::MAX && line == last_doc_line + 1;
            let ghost grouped = !attached && pending.len() > 0;
            let ghost used: Seq<LuaDocTag> = if attached {
                pend0
            } else {
                Seq::empty()
            };
            let tags = if attached {
                let t = pending;
                pending = Vec::new();
                t
            } else {
                if pending.len() > 0 {
                    let group = pending;
                    pending = Vec::new();
                    stats.push(LuaStat::DocStat(group));
                }
                Vec::new()
            };
            let ghost s1 = stats@;
            assert(tags_eq(tags@, used));
            let (stat, q) = match parse_stat(ts, p, fuel - 1, tags) {
                Some(x) => x,
                None => {
                    return None;
                },
            };
            let ghost st0 = stat;
            let (stat, q2) = attach_trailing_doc(ts, stat, q);
            proof {
                assert(stat_val(ts@, p0, (fuel - 1) as nat, used, st0));
                lemma_placed(ts@, p0, q as int, q2 as int, (fuel - 1) as nat, used, st0, stat);
            }
            stats.push(stat);
            p = q2;
            proof {
                pend = Seq::empty();
                assert(stats@.subrange(0, s0.len() as int) =~= s0);
                assert forall|fin: Seq<LuaStat>|
                    fin.len() >= stats@.len() && fin.subrange(0, stats@.len() as int) == stats@ && #[trigger] block_loop_val(
                        ts@,
                        p as int,
                        fuel as nat,
                        pend,
                        last0,
                        fin,
                        stats@.len() as int,
                    ) implies block_loop_val(ts@, p0, fuel as nat, pend0, last0, fin, s0.len() as int) by {
                    assert(fin[s1.len() as int] == fin.subrange(0, stats@.len() as int)[s1.len() as int]);
                    if grouped {
                        assert(fin[s0.len() as int] == fin.subrange(0, stats@.len() as int)[s0.len() as int]);
                    }
                }
                lemma_block_step(ts@, pos as int, fuel as nat, p0, pend0, last0, s0, p as int, pend, last0, stats@);
            }
        }
    }
}

/// The statements of a whole chunk of text.
pub(crate) fn parse_chunk(ts: &Vec<Token>) -> (r: Option<Vec<LuaStat>>)
    ensures
        ts@.len() == 0 ==> (r matches Some(v) && v@.len() == 0),
        ts@.len() > 0 && ts@[0].kind == TokenKind::Keyword(Keyword::End) ==> r is None,
        r is Some <==> chunk_reads(ts@),
        r matches Some(stats) ==> block_val(ts@, 0, (ts@.len() + 1) as nat, stats@),
{
    if ts.len() >= 0x4000_0000 {
        return None;
    }
    let fuel = if ts.len() < usize::MAX { ts.len() + 1 } else { ts.len() };
    let (stats, p) = parse_block(ts, 0, fuel)?;
    if p != ts.len() {
        return None;
    }
    Some(stats)
}

} // verus!
