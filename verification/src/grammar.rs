use vstd::prelude::*;
use crate::lexer::{Keyword, Token, TokenKind};
use crate::syntax::{
    LuaCallExpr, LuaClosureExpr, LuaDocTag, LuaExpr, LuaIndexExpr, LuaIndexKey, LuaLiteralExpr, LuaLiteralToken, LuaNameExpr,
    LuaStat, LuaTableExpr, LuaTableField,
};
use crate::ids::TextRange;

verus! {

// The grammar of the Lua subset, over its tokens. Each part has two
// definitions: where it ends (`None` when the tokens there do not read as
// it), and which syntax tree it reads as when it does. `fuel` bounds the
// nesting depth, as it does for the parser.
/// The token at `p` is the symbol `c`.
pub open spec fn sym_at(ts: Seq<Token>, p: int, c: char) -> bool {
    0 <= p < ts.len() && ts[p].kind == TokenKind::Sym(c)
}

/// The token at `p` is the keyword `k`.
pub open spec fn kw_at(ts: Seq<Token>, p: int, k: Keyword) -> bool {
    0 <= p < ts.len() && ts[p].kind == TokenKind::Keyword(k)
}

/// The token at `p` is a name.
pub open spec fn name_tok(ts: Seq<Token>, p: int) -> bool {
    0 <= p < ts.len() && ts[p].kind is Name
}

/// The name expression that the name token at `p` stands for.
pub open spec fn name_expr_at(ts: Seq<Token>, p: int) -> LuaNameExpr {
    LuaNameExpr { name: ts[p].kind->Name_0, position: ts[p].start }
}

/// The key that the expression `k` written in brackets gives.
pub open spec fn bracket_key(k: LuaExpr) -> LuaIndexKey {
    match k {
        LuaExpr::LiteralExpr(l) => match l.literal {
            LuaLiteralToken::String(s) => LuaIndexKey::String(s),
            LuaLiteralToken::Integer(i) => LuaIndexKey::Integer(i),
            _ => LuaIndexKey::Expr(Box::new(k)),
        },
        _ => LuaIndexKey::Expr(Box::new(k)),
    }
}

/// Where the expression at `pos` ends.
pub open spec fn expr_end(ts: Seq<Token>, pos: int, fuel: nat) -> Option<int>
    decreases fuel, 1nat, 0int,
{
    if fuel == 0 || pos < 0 || pos >= ts.len() {
        None
    } else {
        match ts[pos].kind {
            TokenKind::Int(_) => Some(pos + 1),
            TokenKind::Str(_) => Some(pos + 1),
            TokenKind::Keyword(k) => if k == Keyword::Nil || k == Keyword::True || k == Keyword::False {
                Some(pos + 1)
            } else if k == Keyword::Function {
                funcbody_end(ts, pos + 1, (fuel - 1) as nat)
            } else {
                match suffixed_end(ts, pos, (fuel - 1) as nat) {
                    Some((q, _)) => Some(q),
                    None => None,
                }
            },
            TokenKind::Sym(c) => if c == '{' {
                table_end(ts, pos, (fuel - 1) as nat)
            } else {
                match suffixed_end(ts, pos, (fuel - 1) as nat) {
                    Some((q, _)) => Some(q),
                    None => None,
                }
            },
            _ => match suffixed_end(ts, pos, (fuel - 1) as nat) {
                Some((q, _)) => Some(q),
                None => None,
            },
        }
    }
}

/// Where the name or parenthesized expression at `pos`, with its field
/// accesses, indexes and calls, ends, and whether it ends with a call.
pub open spec fn suffixed_end(ts: Seq<Token>, pos: int, fuel: nat) -> Option<(int, bool)>
    decreases fuel, 1nat, 0int,
{
    if fuel == 0 || pos < 0 || pos >= ts.len() {
        None
    } else if name_tok(ts, pos) {
        suffix_end(ts, pos + 1, fuel, false)
    } else if sym_at(ts, pos, '(') {
        match expr_end(ts, pos + 1, (fuel - 1) as nat) {
            Some(q) => if sym_at(ts, q, ')') && pos < q {
                suffix_end(ts, q + 1, fuel, false)
            } else {
                None
            },
            None => None,
        }
    } else {
        None
    }
}

/// Where the suffixes from `p` end; `call` tells whether the last one read
/// so far was a call.
pub open spec fn suffix_end(ts: Seq<Token>, p: int, fuel: nat, call: bool) -> Option<(int, bool)>
    decreases fuel, 0nat, ts.len() - p,
{
    if fuel == 0 || p < 0 || p > ts.len() {
        None
    } else if sym_at(ts, p, '.') {
        if name_tok(ts, p + 1) {
            suffix_end(ts, p + 2, fuel, false)
        } else {
            None
        }
    } else if sym_at(ts, p, '[') {
        match expr_end(ts, p + 1, (fuel - 1) as nat) {
            Some(q) => if sym_at(ts, q, ']') && p < q {
                suffix_end(ts, q + 1, fuel, false)
            } else {
                None
            },
            None => None,
        }
    } else if sym_at(ts, p, ':') {
        if name_tok(ts, p + 1) {
            match args_end(ts, p + 2, (fuel - 1) as nat) {
                Some(q) => if p < q <= ts.len() {
                    suffix_end(ts, q, fuel, true)
                } else {
                    None
                },
                None => None,
            }
        } else {
            None
        }
    } else if sym_at(ts, p, '(') || (0 <= p < ts.len() && ts[p].kind is Str) {
        match args_end(ts, p, (fuel - 1) as nat) {
            Some(q) => if p < q <= ts.len() {
                suffix_end(ts, q, fuel, true)
            } else {
                None
            },
            None => None,
        }
    } else {
        Some((p, call))
    }
}

/// Where the call arguments at `pos` end: `( e1, e2 )` or one string.
pub open spec fn args_end(ts: Seq<Token>, pos: int, fuel: nat) -> Option<int>
    decreases fuel, 1nat, 0int,
{
    if fuel == 0 || pos < 0 || pos >= ts.len() {
        None
    } else if ts[pos].kind is Str {
        Some(pos + 1)
    } else if !sym_at(ts, pos, '(') {
        None
    } else if sym_at(ts, pos + 1, ')') {
        Some(pos + 2)
    } else {
        args_loop_end(ts, pos + 1, fuel)
    }
}

/// Where the arguments from `p`, separated by `,` and closed by `)`, end.
pub open spec fn args_loop_end(ts: Seq<Token>, p: int, fuel: nat) -> Option<int>
    decreases fuel, 0nat, ts.len() - p,
{
    if fuel == 0 || p < 0 || p > ts.len() {
        None
    } else {
        match expr_end(ts, p, (fuel - 1) as nat) {
            Some(q) => if sym_at(ts, q, ',') && p < q {
                args_loop_end(ts, q + 1, fuel)
            } else if sym_at(ts, q, ')') {
                Some(q + 1)
            } else {
                None
            },
            None => None,
        }
    }
}

/// Where the field at `p` of a table literal ends: `[k] = v`, `name = v` or
/// `v`.
pub open spec fn field_end(ts: Seq<Token>, p: int, fuel: nat) -> Option<int>
    decreases fuel, 0nat, 0int,
{
    if fuel == 0 {
        None
    } else if sym_at(ts, p, '[') {
        match expr_end(ts, p + 1, (fuel - 1) as nat) {
            Some(q1) => if sym_at(ts, q1, ']') && sym_at(ts, q1 + 1, '=') {
                expr_end(ts, q1 + 2, (fuel - 1) as nat)
            } else {
                None
            },
            None => None,
        }
    } else if sym_at(ts, p + 1, '=') && name_tok(ts, p) {
        expr_end(ts, p + 2, (fuel - 1) as nat)
    } else {
        expr_end(ts, p, (fuel - 1) as nat)
    }
}

/// Where the table literal at `pos` ends.
pub open spec fn table_end(ts: Seq<Token>, pos: int, fuel: nat) -> Option<int>
    decreases fuel, 2nat, 0int,
{
    if fuel == 0 || !sym_at(ts, pos, '{') {
        None
    } else {
        table_loop_end(ts, pos + 1, fuel)
    }
}

/// Where the fields of a table literal from `p`, and its closing `}`, end.
pub open spec fn table_loop_end(ts: Seq<Token>, p: int, fuel: nat) -> Option<int>
    decreases fuel, 1nat, ts.len() - p,
{
    if fuel == 0 || p < 0 || p > ts.len() {
        None
    } else if sym_at(ts, p, '}') {
        Some(p + 1)
    } else if p >= ts.len() {
        None
    } else {
        match field_end(ts, p, fuel) {
            Some(q) => if (sym_at(ts, q, ',') || sym_at(ts, q, ';')) && p < q {
                table_loop_end(ts, q + 1, fuel)
            } else if sym_at(ts, q, '}') && p < q {
                table_loop_end(ts, q, fuel)
            } else {
                None
            },
            None => None,
        }
    }
}

/// Where the names from `p`, separated by `,`, end.
pub open spec fn names_end(ts: Seq<Token>, p: int) -> Option<int>
    decreases ts.len() - p,
{
    if !name_tok(ts, p) {
        None
    } else if sym_at(ts, p + 1, ',') {
        names_end(ts, p + 2)
    } else {
        Some(p + 1)
    }
}

/// Where the function body `( params ) block end` at `pos` ends.
pub open spec fn funcbody_end(ts: Seq<Token>, pos: int, fuel: nat) -> Option<int>
    decreases fuel, 1nat, 0int,
{
    if fuel == 0 || !sym_at(ts, pos, '(') {
        None
    } else {
        let pe = if sym_at(ts, pos + 1, ')') {
            Some(pos + 1)
        } else {
            names_end(ts, pos + 1)
        };
        match pe {
            Some(p) => if sym_at(ts, p, ')') {
                match block_end(ts, p + 1, (fuel - 1) as nat) {
                    Some(q) => if kw_at(ts, q, Keyword::End) {
                        Some(q + 1)
                    } else {
                        None
                    },
                    None => None,
                }
            } else {
                None
            },
            None => None,
        }
    }
}

/// Where the function name `a.b.c` or `a.b:c` from `p` (after its first
/// name) ends.
pub open spec fn funcname_loop_end(ts: Seq<Token>, p: int) -> Option<int>
    decreases ts.len() - p,
{
    if sym_at(ts, p, '.') || sym_at(ts, p, ':') {
        if !name_tok(ts, p + 1) {
            None
        } else if sym_at(ts, p, ':') {
            Some(p + 2)
        } else {
            funcname_loop_end(ts, p + 2)
        }
    } else {
        Some(p)
    }
}

/// Where the function name at `pos` ends.
pub open spec fn funcname_end(ts: Seq<Token>, pos: int) -> Option<int> {
    if name_tok(ts, pos) {
        funcname_loop_end(ts, pos + 1)
    } else {
        None
    }
}

/// Where the expressions from `p`, separated by `,`, end.
pub open spec fn exprlist_end(ts: Seq<Token>, p: int, fuel: nat) -> Option<int>
    decreases fuel, 0nat, ts.len() - p,
{
    if fuel == 0 || p < 0 || p > ts.len() {
        None
    } else {
        match expr_end(ts, p, (fuel - 1) as nat) {
            Some(q) => if sym_at(ts, q, ',') && p < q {
                exprlist_end(ts, q + 1, fuel)
            } else {
                Some(q)
            },
            None => None,
        }
    }
}

/// Where the assignment targets after the first, each after a `,`, end.
pub open spec fn vars_end(ts: Seq<Token>, p: int, fuel: nat) -> Option<int>
    decreases fuel, 0nat, ts.len() - p,
{
    if fuel == 0 || p < 0 || p > ts.len() {
        None
    } else if sym_at(ts, p, ',') {
        match suffixed_end(ts, p + 1, (fuel - 1) as nat) {
            Some((q, _)) => if p < q <= ts.len() {
                vars_end(ts, q, fuel)
            } else {
                None
            },
            None => None,
        }
    } else {
        Some(p)
    }
}

/// Where the statement at `pos` ends.
pub open spec fn stat_end(ts: Seq<Token>, pos: int, fuel: nat) -> Option<int>
    decreases fuel, 1nat, 0int,
{
    if fuel == 0 || pos < 0 || pos >= ts.len() {
        None
    } else if kw_at(ts, pos, Keyword::Local) {
        if kw_at(ts, pos + 1, Keyword::Function) {
            if name_tok(ts, pos + 2) {
                funcbody_end(ts, pos + 3, (fuel - 1) as nat)
            } else {
                None
            }
        } else {
            match names_end(ts, pos + 1) {
                Some(p) => if sym_at(ts, p, '=') {
                    if fuel > 1 && p + 1 < ts.len() {
                        exprlist_end(ts, p + 1, (fuel - 1) as nat)
                    } else {
                        None
                    }
                } else {
                    Some(p)
                },
                None => None,
            }
        }
    } else if kw_at(ts, pos, Keyword::Function) {
        match funcname_end(ts, pos + 1) {
            Some(p) => funcbody_end(ts, p, (fuel - 1) as nat),
            None => None,
        }
    } else if kw_at(ts, pos, Keyword::Return) {
        if pos + 1 >= ts.len() || kw_at(ts, pos + 1, Keyword::End) || sym_at(ts, pos + 1, ';') {
            Some(pos + 1)
        } else if fuel > 1 {
            exprlist_end(ts, pos + 1, (fuel - 1) as nat)
        } else {
            None
        }
    } else {
        match suffixed_end(ts, pos, (fuel - 1) as nat) {
            Some((p, call)) => if sym_at(ts, p, '=') || sym_at(ts, p, ',') {
                match vars_end(ts, p, fuel) {
                    Some(p2) => if sym_at(ts, p2, '=') && fuel > 1 && p2 + 1 < ts.len() {
                        exprlist_end(ts, p2 + 1, (fuel - 1) as nat)
                    } else {
                        None
                    },
                    None => None,
                }
            } else if call {
                Some(p)
            } else {
                None
            },
            None => None,
        }
    }
}

/// Where the statement at `p` that ends at `q` ends once a doc comment on
/// its last line is taken as one of its tags (for `local` statements only).
pub open spec fn trailing_end(ts: Seq<Token>, p: int, q: int) -> int {
    if kw_at(ts, p, Keyword::Local) && !kw_at(ts, p + 1, Keyword::Function) && 0 < q < ts.len() && ts[q].line
        == ts[q - 1].line && ts[q].kind is Doc {
        q + 1
    } else {
        q
    }
}

/// Where the statements from `pos` end: at the end of the tokens or at an
/// `end` keyword.
pub open spec fn block_end(ts: Seq<Token>, pos: int, fuel: nat) -> Option<int>
    decreases fuel, 1nat, 0int,
{
    if fuel == 0 || pos < 0 || pos > ts.len() {
        None
    } else {
        block_loop_end(ts, pos, fuel)
    }
}

/// Where the statements from `p` end (see `block_end`).
pub open spec fn block_loop_end(ts: Seq<Token>, p: int, fuel: nat) -> Option<int>
    decreases fuel, 0nat, ts.len() - p,
{
    if fuel == 0 || p < 0 || p > ts.len() {
        None
    } else if p == ts.len() || kw_at(ts, p, Keyword::End) {
        Some(p)
    } else if sym_at(ts, p, ';') || ts[p].kind is Doc {
        block_loop_end(ts, p + 1, fuel)
    } else {
        match stat_end(ts, p, (fuel - 1) as nat) {
            Some(q) => if p < q <= ts.len() && trailing_end(ts, p, q) <= ts.len() {
                block_loop_end(ts, trailing_end(ts, p, q), fuel)
            } else {
                None
            },
            None => None,
        }
    }
}

/// The token stream holds a whole chunk: it is not too long to address, and
/// its statements run to its end.
pub open spec fn chunk_reads(ts: Seq<Token>) -> bool {
    ts.len() < 0x4000_0000 && block_end(ts, 0, (ts.len() + 1) as nat) == Some(ts.len() as int)
}

/// `a` and `b` are the same doc tag: the same names and doc types, in the
/// same order.
pub open spec fn tag_eq(a: LuaDocTag, b: LuaDocTag) -> bool {
    match a {
        LuaDocTag::Class(n, ps, ss) => b matches LuaDocTag::Class(n2, ps2, ss2) && n2 == n && ps2@ == ps@ && ss2@
            == ss@,
        _ => b == a,
    }
}

/// `a` and `b` are the same doc tags, in the same order.
pub open spec fn tags_eq(a: Seq<LuaDocTag>, b: Seq<LuaDocTag>) -> bool {
    a.len() == b.len() && forall|i: int| 0 <= i < a.len() ==> tag_eq(#[trigger] a[i], b[i])
}

/// The expression at `pos` reads as `e`.
pub open spec fn expr_val(ts: Seq<Token>, pos: int, fuel: nat, e: LuaExpr) -> bool
    decreases fuel, 1nat, 0int,
{
    if fuel == 0 || pos < 0 || pos >= ts.len() {
        false
    } else {
        let start = ts[pos].start;
        match ts[pos].kind {
            TokenKind::Int(v) => e == LuaExpr::LiteralExpr(
                LuaLiteralExpr { literal: LuaLiteralToken::Integer(v), position: start },
            ),
            TokenKind::Str(v) => e == LuaExpr::LiteralExpr(
                LuaLiteralExpr { literal: LuaLiteralToken::String(v), position: start },
            ),
            TokenKind::Keyword(k) => if k == Keyword::Nil {
                e == LuaExpr::LiteralExpr(LuaLiteralExpr { literal: LuaLiteralToken::Nil, position: start })
            } else if k == Keyword::True {
                e == LuaExpr::LiteralExpr(LuaLiteralExpr { literal: LuaLiteralToken::Bool(true), position: start })
            } else if k == Keyword::False {
                e == LuaExpr::LiteralExpr(LuaLiteralExpr { literal: LuaLiteralToken::Bool(false), position: start })
            } else if k == Keyword::Function {
                e matches LuaExpr::ClosureExpr(c) && funcbody_val(ts, pos + 1, (fuel - 1) as nat, start, c)
            } else {
                suffixed_val(ts, pos, (fuel - 1) as nat, e)
            },
            TokenKind::Sym(c) => if c == '{' {
                e matches LuaExpr::TableExpr(t) && table_val(ts, pos, (fuel - 1) as nat, t)
            } else {
                suffixed_val(ts, pos, (fuel - 1) as nat, e)
            },
            _ => suffixed_val(ts, pos, (fuel - 1) as nat, e),
        }
    }
}

/// The name or parenthesized expression at `pos`, with its suffixes, reads
/// as `e`.
pub open spec fn suffixed_val(ts: Seq<Token>, pos: int, fuel: nat, e: LuaExpr) -> bool
    decreases fuel, 1nat, 0int,
{
    if fuel == 0 || pos < 0 || pos >= ts.len() {
        false
    } else if name_tok(ts, pos) {
        suffix_val(ts, pos + 1, fuel, LuaExpr::NameExpr(name_expr_at(ts, pos)), e)
    } else if sym_at(ts, pos, '(') {
        match expr_end(ts, pos + 1, (fuel - 1) as nat) {
            Some(q) => pos < q && exists|inner: LuaExpr|
                expr_val(ts, pos + 1, (fuel - 1) as nat, inner) && suffix_val(
                    ts,
                    q + 1,
                    fuel,
                    LuaExpr::ParenExpr(Box::new(inner)),
                    e,
                ),
            None => false,
        }
    } else {
        false
    }
}

/// The suffixes from `p`, applied to `cur`, give `e`.
pub open spec fn suffix_val(ts: Seq<Token>, p: int, fuel: nat, cur: LuaExpr, e: LuaExpr) -> bool
    decreases fuel, 0nat, ts.len() - p,
{
    if fuel == 0 || p < 0 || p > ts.len() {
        false
    } else if sym_at(ts, p, '.') {
        name_tok(ts, p + 1) && suffix_val(
            ts,
            p + 2,
            fuel,
            LuaExpr::IndexExpr(
                LuaIndexExpr {
                    prefix: Box::new(cur),
                    key: LuaIndexKey::Name(ts[p + 1].kind->Name_0),
                    colon: false,
                    position: ts[p + 1].start,
                },
            ),
            e,
        )
    } else if sym_at(ts, p, '[') {
        match expr_end(ts, p + 1, (fuel - 1) as nat) {
            Some(q) => sym_at(ts, q, ']') && p < q && exists|k: LuaExpr|
                expr_val(ts, p + 1, (fuel - 1) as nat, k) && suffix_val(
                    ts,
                    q + 1,
                    fuel,
                    LuaExpr::IndexExpr(
                        LuaIndexExpr {
                            prefix: Box::new(cur),
                            key: bracket_key(k),
                            colon: false,
                            position: if p + 1 < ts.len() {
                                ts[p + 1].start
                            } else {
                                ts[p].start
                            },
                        },
                    ),
                    e,
                ),
            None => false,
        }
    } else if sym_at(ts, p, ':') {
        name_tok(ts, p + 1) && match args_end(ts, p + 2, (fuel - 1) as nat) {
            Some(q) => p < q <= ts.len() && exists|args: Vec<LuaExpr>|
                args_val(ts, p + 2, (fuel - 1) as nat, args@) && suffix_val(
                    ts,
                    q,
                    fuel,
                    LuaExpr::CallExpr(
                        LuaCallExpr {
                            prefix: Box::new(
                                LuaExpr::IndexExpr(
                                    LuaIndexExpr {
                                        prefix: Box::new(cur),
                                        key: LuaIndexKey::Name(ts[p + 1].kind->Name_0),
                                        colon: true,
                                        position: ts[p + 1].start,
                                    },
                                ),
                            ),
                            args,
                            generic_types: None,
                            position: ts[p + 1].start,
                        },
                    ),
                    e,
                ),
            None => false,
        }
    } else if sym_at(ts, p, '(') || (0 <= p < ts.len() && ts[p].kind is Str) {
        match args_end(ts, p, (fuel - 1) as nat) {
            Some(q) => p < q <= ts.len() && exists|args: Vec<LuaExpr>|
                args_val(ts, p, (fuel - 1) as nat, args@) && suffix_val(
                    ts,
                    q,
                    fuel,
                    LuaExpr::CallExpr(
                        LuaCallExpr { prefix: Box::new(cur), args, generic_types: None, position: ts[p].start },
                    ),
                    e,
                ),
            None => false,
        }
    } else {
        e == cur
    }
}

/// The call arguments at `pos` read as `args`.
pub open spec fn args_val(ts: Seq<Token>, pos: int, fuel: nat, args: Seq<LuaExpr>) -> bool
    decreases fuel, 1nat, 0int,
{
    if fuel == 0 || pos < 0 || pos >= ts.len() {
        false
    } else if ts[pos].kind is Str {
        args == seq![
            LuaExpr::LiteralExpr(
                LuaLiteralExpr { literal: LuaLiteralToken::String(ts[pos].kind->Str_0), position: ts[pos].start },
            ),
        ]
    } else if !sym_at(ts, pos, '(') {
        false
    } else if sym_at(ts, pos + 1, ')') {
        args.len() == 0
    } else {
        args_loop_val(ts, pos + 1, fuel, args, 0)
    }
}

/// The arguments from `p` read as `args` from the `k`-th on.
pub open spec fn args_loop_val(ts: Seq<Token>, p: int, fuel: nat, args: Seq<LuaExpr>, k: int) -> bool
    decreases fuel, 0nat, ts.len() - p,
{
    if fuel == 0 || p < 0 || p > ts.len() {
        false
    } else {
        match expr_end(ts, p, (fuel - 1) as nat) {
            Some(q) => 0 <= k < args.len() && expr_val(ts, p, (fuel - 1) as nat, args[k]) && if sym_at(ts, q, ',')
                && p < q {
                args_loop_val(ts, q + 1, fuel, args, k + 1)
            } else if sym_at(ts, q, ')') {
                args.len() == k + 1
            } else {
                false
            },
            None => false,
        }
    }
}

/// The field of a table literal at `p` reads as `f`.
pub open spec fn field_val(ts: Seq<Token>, p: int, fuel: nat, f: LuaTableField) -> bool
    decreases fuel, 0nat, 0int,
{
    if fuel == 0 || p < 0 || p >= ts.len() {
        false
    } else {
        &&& f.position == ts[p].start
        &&& if sym_at(ts, p, '[') {
            match expr_end(ts, p + 1, (fuel - 1) as nat) {
                Some(q1) => exists|k: LuaExpr|
                    expr_val(ts, p + 1, (fuel - 1) as nat, k) && f.key == Some(bracket_key(k)) && expr_val(
                        ts,
                        q1 + 2,
                        (fuel - 1) as nat,
                        f.value,
                    ),
                None => false,
            }
        } else if sym_at(ts, p + 1, '=') && name_tok(ts, p) {
            f.key == Some(LuaIndexKey::Name(ts[p].kind->Name_0)) && expr_val(ts, p + 2, (fuel - 1) as nat, f.value)
        } else {
            f.key is None && expr_val(ts, p, (fuel - 1) as nat, f.value)
        }
    }
}

/// The table literal at `pos` reads as `t`.
pub open spec fn table_val(ts: Seq<Token>, pos: int, fuel: nat, t: LuaTableExpr) -> bool
    decreases fuel, 2nat, 0int,
{
    if fuel == 0 || !sym_at(ts, pos, '{') {
        false
    } else {
        &&& table_end(ts, pos, fuel) matches Some(q) && 0 < q <= ts.len() && t.range == (TextRange {
            start: ts[pos].start,
            end: ts[q - 1].end,
        })
        &&& table_loop_val(ts, pos + 1, fuel, t.fields@, 0)
    }
}

/// The fields of a table literal from `p` read as `fs` from the `k`-th on.
pub open spec fn table_loop_val(ts: Seq<Token>, p: int, fuel: nat, fs: Seq<LuaTableField>, k: int) -> bool
    decreases fuel, 1nat, ts.len() - p,
{
    if fuel == 0 || p < 0 || p > ts.len() {
        false
    } else if sym_at(ts, p, '}') {
        fs.len() == k
    } else if p >= ts.len() {
        false
    } else {
        match field_end(ts, p, fuel) {
            Some(q) => 0 <= k < fs.len() && field_val(ts, p, fuel, fs[k]) && if (sym_at(ts, q, ',') || sym_at(
                ts,
                q,
                ';',
            )) && p < q {
                table_loop_val(ts, q + 1, fuel, fs, k + 1)
            } else if sym_at(ts, q, '}') && p < q {
                table_loop_val(ts, q, fuel, fs, k + 1)
            } else {
                false
            },
            None => false,
        }
    }
}

/// The names from `p`, separated by `,`, read as `ns`.
pub open spec fn names_val(ts: Seq<Token>, p: int, ns: Seq<LuaNameExpr>) -> bool
    decreases ts.len() - p,
{
    if !name_tok(ts, p) {
        false
    } else {
        ns.len() >= 1 && ns[0] == name_expr_at(ts, p) && if sym_at(ts, p + 1, ',') {
            names_val(ts, p + 2, ns.drop_first())
        } else {
            ns.len() == 1
        }
    }
}

/// The function body at `pos` reads as `c`, a function written at
/// `position`.
pub open spec fn funcbody_val(ts: Seq<Token>, pos: int, fuel: nat, position: u32, c: LuaClosureExpr) -> bool
    decreases fuel, 1nat, 0int,
{
    if fuel == 0 || !sym_at(ts, pos, '(') {
        false
    } else {
        let pe = if sym_at(ts, pos + 1, ')') {
            Some(pos + 1)
        } else {
            names_end(ts, pos + 1)
        };
        match pe {
            Some(p) => {
                &&& c.position == position
                &&& if sym_at(ts, pos + 1, ')') {
                    c.params@.len() == 0
                } else {
                    names_val(ts, pos + 1, c.params@)
                }
                &&& match block_end(ts, p + 1, (fuel - 1) as nat) {
                    Some(q) => 0 <= q < ts.len() && c.end == ts[q].end && block_val(
                        ts,
                        p + 1,
                        (fuel - 1) as nat,
                        c.block@,
                    ),
                    None => false,
                }
            },
            None => false,
        }
    }
}

/// The function name from `p` (after its first name), applied to `cur`,
/// reads as `e`.
pub open spec fn funcname_loop_val(ts: Seq<Token>, p: int, cur: LuaExpr, e: LuaExpr) -> bool
    decreases ts.len() - p,
{
    if sym_at(ts, p, '.') || sym_at(ts, p, ':') {
        name_tok(ts, p + 1) && {
            let ix = LuaExpr::IndexExpr(
                LuaIndexExpr {
                    prefix: Box::new(cur),
                    key: LuaIndexKey::Name(ts[p + 1].kind->Name_0),
                    colon: sym_at(ts, p, ':'),
                    position: ts[p + 1].start,
                },
            );
            if sym_at(ts, p, ':') {
                e == ix
            } else {
                funcname_loop_val(ts, p + 2, ix, e)
            }
        }
    } else {
        e == cur
    }
}

/// The function name at `pos` reads as `e`.
pub open spec fn funcname_val(ts: Seq<Token>, pos: int, e: LuaExpr) -> bool {
    name_tok(ts, pos) && funcname_loop_val(ts, pos + 1, LuaExpr::NameExpr(name_expr_at(ts, pos)), e)
}

/// The expressions from `p` read as `es` from the `k`-th on.
pub open spec fn exprlist_val(ts: Seq<Token>, p: int, fuel: nat, es: Seq<LuaExpr>, k: int) -> bool
    decreases fuel, 0nat, ts.len() - p,
{
    if fuel == 0 || p < 0 || p > ts.len() {
        false
    } else {
        match expr_end(ts, p, (fuel - 1) as nat) {
            Some(q) => 0 <= k < es.len() && expr_val(ts, p, (fuel - 1) as nat, es[k]) && if sym_at(ts, q, ',')
                && p < q {
                exprlist_val(ts, q + 1, fuel, es, k + 1)
            } else {
                es.len() == k + 1
            },
            None => false,
        }
    }
}

/// The assignment targets after the first, from `p`, read as `vs` from the
/// `k`-th on.
pub open spec fn vars_val(ts: Seq<Token>, p: int, fuel: nat, vs: Seq<LuaExpr>, k: int) -> bool
    decreases fuel, 0nat, ts.len() - p,
{
    if fuel == 0 || p < 0 || p > ts.len() {
        false
    } else if sym_at(ts, p, ',') {
        match suffixed_end(ts, p + 1, (fuel - 1) as nat) {
            Some((q, _)) => p < q <= ts.len() && 0 <= k < vs.len() && suffixed_val(
                ts,
                p + 1,
                (fuel - 1) as nat,
                vs[k],
            ) && vars_val(ts, q, fuel, vs, k + 1),
            None => false,
        }
    } else {
        vs.len() == k
    }
}

/// The statement at `pos`, with the doc tags `tags` written above it, reads
/// as `st`.
pub open spec fn stat_val(ts: Seq<Token>, pos: int, fuel: nat, tags: Seq<LuaDocTag>, st: LuaStat) -> bool
    decreases fuel, 1nat, 0int,
{
    if fuel == 0 || pos < 0 || pos >= ts.len() {
        false
    } else if kw_at(ts, pos, Keyword::Local) {
        if kw_at(ts, pos + 1, Keyword::Function) {
            name_tok(ts, pos + 2) && (st matches LuaStat::LocalFuncStat { name, closure, tags: t } && name
                == name_expr_at(ts, pos + 2) && tags_eq(t@, tags) && funcbody_val(
                ts,
                pos + 3,
                (fuel - 1) as nat,
                ts[pos + 1].start,
                closure,
            ))
        } else {
            st matches LuaStat::LocalStat { names, exprs, tags: t } && local_val(ts, pos, fuel, names@, exprs@)
                && tags_eq(t@, tags)
        }
    } else if kw_at(ts, pos, Keyword::Function) {
        match funcname_end(ts, pos + 1) {
            Some(p) => st matches LuaStat::FuncStat { name, closure, tags: t } && funcname_val(ts, pos + 1, name)
                && tags_eq(t@, tags) && funcbody_val(ts, p, (fuel - 1) as nat, ts[pos].start, closure),
            None => false,
        }
    } else if kw_at(ts, pos, Keyword::Return) {
        st matches LuaStat::ReturnStat(v) && if pos + 1 >= ts.len() || kw_at(ts, pos + 1, Keyword::End) || sym_at(
            ts,
            pos + 1,
            ';',
        ) {
            v@.len() == 0
        } else {
            exprlist_val(ts, pos + 1, (fuel - 1) as nat, v@, 0)
        }
    } else {
        match suffixed_end(ts, pos, (fuel - 1) as nat) {
            Some((p, _)) => if sym_at(ts, p, '=') || sym_at(ts, p, ',') {
                match vars_end(ts, p, fuel) {
                    Some(p2) => st matches LuaStat::AssignStat { vars, exprs, tags: t } && vars@.len() >= 1
                        && suffixed_val(ts, pos, (fuel - 1) as nat, vars@[0]) && vars_val(ts, p, fuel, vars@, 1)
                        && exprlist_val(ts, p2 + 1, (fuel - 1) as nat, exprs@, 0) && tags_eq(t@, tags),
                    None => false,
                }
            } else {
                st matches LuaStat::CallStat(e) && suffixed_val(ts, pos, (fuel - 1) as nat, e)
            },
            None => false,
        }
    }
}

/// The `local` statement at `pos` declares the names `names`, with the
/// values `exprs`.
pub open spec fn local_val(ts: Seq<Token>, pos: int, fuel: nat, names: Seq<LuaNameExpr>, exprs: Seq<LuaExpr>) -> bool
    decreases fuel, 0nat, 0int,
{
    if fuel == 0 {
        false
    } else {
        match names_end(ts, pos + 1) {
            Some(p) => names_val(ts, pos + 1, names) && if sym_at(ts, p, '=') {
                exprlist_val(ts, p + 1, (fuel - 1) as nat, exprs, 0)
            } else {
                exprs.len() == 0
            },
            None => false,
        }
    }
}

/// The statement at `p`, which ends at `q`, with the doc tags `tags`
/// written above it, reads as `st` once a doc comment on its last line is
/// added to the tags of a `local` statement.
pub open spec fn placed_stat_val(ts: Seq<Token>, p: int, q: int, fuel: nat, tags: Seq<LuaDocTag>, st: LuaStat) -> bool
    decreases fuel, 2nat, 0int,
{
    if trailing_end(ts, p, q) == q + 1 {
        &&& st matches LuaStat::LocalStat { names, exprs, tags: t1 }
        &&& kw_at(ts, p, Keyword::Local) && !kw_at(ts, p + 1, Keyword::Function)
        &&& local_val(ts, p, fuel, names@, exprs@)
        &&& t1@.len() == tags.len() + 1
        &&& tags_eq(t1@.drop_last(), tags)
        &&& ts[q].kind matches TokenKind::Doc(d) && tag_eq(t1@.last(), d)
    } else {
        stat_val(ts, p, fuel, tags, st)
    }
}

/// The statements from `p` read as `out` from the `k`-th on, with `pend`
/// the doc tags read but not yet placed and `last` the line of the last of
/// them.
pub open spec fn block_loop_val(
    ts: Seq<Token>,
    p: int,
    fuel: nat,
    pend: Seq<LuaDocTag>,
    last: int,
    out: Seq<LuaStat>,
    k: int,
) -> bool
    decreases fuel, 0nat, ts.len() - p,
{
    if fuel == 0 || p < 0 || p > ts.len() || k < 0 {
        false
    } else if p == ts.len() || kw_at(ts, p, Keyword::End) {
        if pend.len() > 0 {
            out.len() == k + 1 && (out[k] matches LuaStat::DocStat(g) && tags_eq(g@, pend))
        } else {
            out.len() == k
        }
    } else if sym_at(ts, p, ';') {
        block_loop_val(ts, p + 1, fuel, pend, last, out, k)
    } else if ts[p].kind is Doc {
        let tag = ts[p].kind->Doc_0;
        let line = ts[p].line as int;
        if pend.len() > 0 && (last >= u32::MAX || line != last + 1) {
            k < out.len() && (out[k] matches LuaStat::DocStat(g) && tags_eq(g@, pend)) && block_loop_val(
                ts,
                p + 1,
                fuel,
                seq![tag],
                line,
                out,
                k + 1,
            )
        } else {
            block_loop_val(ts, p + 1, fuel, pend.push(tag), line, out, k)
        }
    } else {
        let line = ts[p].line as int;
        let attached = pend.len() > 0 && last < u32::MAX && line == last + 1;
        match stat_end(ts, p, (fuel - 1) as nat) {
            Some(q) => p < q <= ts.len() && trailing_end(ts, p, q) <= ts.len() && if attached {
                k < out.len() && placed_stat_val(ts, p, q, (fuel - 1) as nat, pend, out[k]) && block_loop_val(
                    ts,
                    trailing_end(ts, p, q),
                    fuel,
                    Seq::empty(),
                    last,
                    out,
                    k + 1,
                )
            } else if pend.len() > 0 {
                k + 1 < out.len() && (out[k] matches LuaStat::DocStat(g) && tags_eq(g@, pend)) && placed_stat_val(
                    ts,
                    p,
                    q,
                    (fuel - 1) as nat,
                    Seq::empty(),
                    out[k + 1],
                ) && block_loop_val(ts, trailing_end(ts, p, q), fuel, Seq::empty(), last, out, k + 2)
            } else {
                k < out.len() && placed_stat_val(ts, p, q, (fuel - 1) as nat, Seq::empty(), out[k])
                    && block_loop_val(ts, trailing_end(ts, p, q), fuel, Seq::empty(), last, out, k + 1)
            },
            None => false,
        }
    }
}

/// The statements from `pos` read as `stats`.
pub open spec fn block_val(ts: Seq<Token>, pos: int, fuel: nat, stats: Seq<LuaStat>) -> bool
    decreases fuel, 1nat, 0int,
{
    if fuel == 0 || pos < 0 || pos > ts.len() {
        false
    } else {
        block_loop_val(ts, pos, fuel, Seq::empty(), 0, stats, 0)
    }
}

} // verus!
