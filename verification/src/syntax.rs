use vstd::prelude::*;
use crate::ids::TextRange;

verus! {

/// A literal token.
#[derive(Clone, Debug, PartialEq)]
pub enum LuaLiteralToken {
    String(String),
    Integer(i64),
    /// A number with a fraction, held as the bits of the float.
    Float(u64),
    Bool(bool),
    Nil,
}

/// A name: `x`.
#[derive(Clone, Debug, PartialEq)]
pub struct LuaNameExpr {
    pub name: String,
    pub position: u32,
}

/// The key of an index expression.
#[derive(Debug, PartialEq)]
pub enum LuaIndexKey {
    /// `a.name` or `a:name`
    Name(String),
    /// `a["text"]`
    String(String),
    /// `a[1]`
    Integer(i64),
    /// `a[expr]`
    Expr(Box<LuaExpr>),
}

/// An index: `prefix.key`, `prefix:key` or `prefix[key]`.
#[derive(Debug, PartialEq)]
pub struct LuaIndexExpr {
    pub prefix: Box<LuaExpr>,
    pub key: LuaIndexKey,
    pub colon: bool,
    /// The offset of the key.
    pub position: u32,
}

/// A literal: `1`, `"a"`, `true`, `nil`.
#[derive(Clone, Debug, PartialEq)]
pub struct LuaLiteralExpr {
    pub literal: LuaLiteralToken,
    pub position: u32,
}

/// A field of a table literal: `name = value`, `[key] = value` or `value`.
#[derive(Debug, PartialEq)]
pub struct LuaTableField {
    pub key: Option<LuaIndexKey>,
    pub position: u32,
    pub value: LuaExpr,
}

/// A table literal `{ ... }` and the range it covers.
#[derive(Debug, PartialEq)]
pub struct LuaTableExpr {
    pub range: TextRange,
    pub fields: Vec<LuaTableField>,
}

/// A call: `prefix(args)`, or `prefix:name(args)` when the prefix is an index
/// with a colon.
#[derive(Debug, PartialEq)]
pub struct LuaCallExpr {
    pub prefix: Box<LuaExpr>,
    pub args: Vec<LuaExpr>,
    /// The types given explicitly to the function's templates, as in
    /// `f--[[@<string>]](x)`.
    pub generic_types: Option<Vec<LuaDocTypeRef>>,
    pub position: u32,
}

/// A function body: `function(params) block end`.
#[derive(Debug, PartialEq)]
pub struct LuaClosureExpr {
    pub position: u32,
    pub params: Vec<LuaNameExpr>,
    pub block: Vec<LuaStat>,
    pub end: u32,
}

/// An expression.
#[derive(Debug, PartialEq)]
pub enum LuaExpr {
    NameExpr(LuaNameExpr),
    IndexExpr(LuaIndexExpr),
    LiteralExpr(LuaLiteralExpr),
    TableExpr(LuaTableExpr),
    CallExpr(LuaCallExpr),
    ClosureExpr(LuaClosureExpr),
    ParenExpr(Box<LuaExpr>),
}

/// A doc type written in a comment: a name, possibly followed by `?`.
#[derive(Clone, Debug, PartialEq)]
pub struct LuaDocTypeRef {
    pub name: String,
    pub optional: bool,
}

/// A doc tag of a comment.
#[derive(Clone, Debug, PartialEq)]
pub enum LuaDocTag {
    /// `---@class Name<T, ...>: Super, ...`: the name, the names of its
    /// generic parameters and its super types.
    Class(String, Vec<String>, Vec<LuaDocTypeRef>),
    /// `---@type T`
    Type(LuaDocTypeRef),
    /// `---@field name T`
    Field(String, u32, LuaDocTypeRef),
    /// `---@return T`
    Return(LuaDocTypeRef),
}

/// A statement, with the doc tags written right above it.
#[derive(Debug, PartialEq)]
pub enum LuaStat {
    /// `local a, b = e1, e2`
    LocalStat { names: Vec<LuaNameExpr>, exprs: Vec<LuaExpr>, tags: Vec<LuaDocTag> },
    /// `v1, v2 = e1, e2`
    AssignStat { vars: Vec<LuaExpr>, exprs: Vec<LuaExpr>, tags: Vec<LuaDocTag> },
    /// `function name(...) ... end` or `function a.b:c(...) ... end`
    FuncStat { name: LuaExpr, closure: LuaClosureExpr, tags: Vec<LuaDocTag> },
    /// `local function name(...) ... end`
    LocalFuncStat { name: LuaNameExpr, closure: LuaClosureExpr, tags: Vec<LuaDocTag> },
    /// A call used as a statement.
    CallStat(LuaExpr),
    /// `return e1, e2`
    ReturnStat(Vec<LuaExpr>),
    /// Doc tags that stand alone, not right above a statement.
    DocStat(Vec<LuaDocTag>),
}

/// The part of `p` after its last `.` (all of `p` when it has none).
pub open spec fn after_last_dot(p: Seq<char>) -> int
    decreases p.len(),
{
    if p.len() == 0 {
        0
    } else if p.last() == '.' {
        p.len() as int
    } else {
        after_last_dot(p.drop_last())
    }
}

pub open spec fn last_segment(p: Seq<char>) -> Seq<char> {
    p.subrange(after_last_dot(p), p.len() as int)
}

pub proof fn lemma_after_last_dot_bounds(p: Seq<char>)
    ensures
        0 <= after_last_dot(p) <= p.len(),
    decreases p.len(),
{
    if p.len() > 0 && p.last() != '.' {
        lemma_after_last_dot_bounds(p.drop_last());
    }
}

/// The dotted access path of an expression: a name, or a path followed by a
/// name or string key. Other expressions have none.
pub open spec fn access_path(e: LuaExpr) -> Option<Seq<char>>
    decreases e,
{
    match e {
        LuaExpr::NameExpr(n) => Some(n.name@),
        LuaExpr::IndexExpr(i) => match i.key {
            LuaIndexKey::Name(k) => match access_path(*i.prefix) {
                Some(p) => Some(p + seq!['.'] + k@),
                None => None,
            },
            LuaIndexKey::String(k) => match access_path(*i.prefix) {
                Some(p) => Some(p + seq!['.'] + k@),
                None => None,
            },
            _ => None,
        },
        _ => None,
    }
}

impl LuaCallExpr {
    /// A call written `prefix:name(args)`.
    pub open spec fn spec_is_colon_call(&self) -> bool {
        (*self.prefix) matches LuaExpr::IndexExpr(ix) && ix.colon
    }

    #[verifier::when_used_as_spec(spec_is_colon_call)]
    pub fn is_colon_call(&self) -> (r: bool)
        ensures
            r == self.spec_is_colon_call(),
    {
        match &*self.prefix {
            LuaExpr::IndexExpr(ix) => ix.colon,
            _ => false,
        }
    }
}

impl LuaNameExpr {
    pub fn get_name_text(&self) -> (r: Option<String>)
        ensures
            r matches Some(n) && n@ == self.name@,
    {
        Some(self.name.clone())
    }

    pub fn get_position(&self) -> (r: u32)
        ensures
            r == self.position,
    {
        self.position
    }

    pub fn get_access_path(&self) -> (r: Option<String>)
        ensures
            r matches Some(p) && p@ == self.name@,
    {
        Some(self.name.clone())
    }
}

impl LuaIndexExpr {
    pub fn get_access_path(&self) -> (r: Option<String>)
        ensures
            match r {
                Some(p) => access_path(LuaExpr::IndexExpr(*self)) == Some(p@),
                None => access_path(LuaExpr::IndexExpr(*self)) is None,
            },
        decreases self,
    {
        let key: &str = match &self.key {
            LuaIndexKey::Name(k) => k.as_str(),
            LuaIndexKey::String(k) => k.as_str(),
            _ => return None,
        };
        let prefix = expr_access_path(&self.prefix)?;
        let mut path = prefix;
        path.append(".");
        proof {
            reveal_strlit(".");
        }
        path.append(key);
        assert(path@ =~= access_path(*self.prefix)->0 + seq!['.'] + key@);
        Some(path)
    }
}

/// The access path of `e`.
pub fn expr_access_path(e: &LuaExpr) -> (r: Option<String>)
    ensures
        match r {
            Some(p) => access_path(*e) == Some(p@),
            None => access_path(*e) is None,
        },
    decreases e,
{
    match e {
        LuaExpr::NameExpr(n) => n.get_access_path(),
        LuaExpr::IndexExpr(i) => i.get_access_path(),
        _ => None,
    }
}

/// The part of `path` after its last `.`.
pub fn str_last_segment(path: &str) -> (r: &str)
    ensures
        r@ == last_segment(path@),
{
    let n = path.unicode_len();
    let mut k: usize = n;
    let mut start: usize = 0;
    let mut found = false;
    proof {
        lemma_after_last_dot_bounds(path@);
        assert(path@.subrange(0, n as int) =~= path@);
    }
    while k > 0
        invariant
            n == path@.len(),
            k <= n,
            !found ==> after_last_dot(path@) == after_last_dot(path@.subrange(0, k as int)),
            found ==> start == after_last_dot(path@),
            found ==> k == 0,
        decreases k,
    {
        let c = path.get_char(k - 1);
        let ghost p = path@.subrange(0, k as int);
        assert(p.drop_last() =~= path@.subrange(0, k - 1));
        if c == '.' {
            start = k;
            found = true;
            k = 0;
        } else {
            k = k - 1;
        }
    }
    if !found {
        assert(path@.subrange(0, 0) =~= Seq::<char>::empty());
        start = 0;
    }
    proof {
        lemma_after_last_dot_bounds(path@);
    }
    path.substring_char(start, n)
}

} // verus!
