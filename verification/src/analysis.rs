use vstd::prelude::*;
use crate::common::{
    add_member, add_member_state, bind_state, bind_type, get_owner_id, owner_id_spec, prefix_is_doc_annotated_global,
    prefix_is_doc_annotated_global_spec, with_members,
};
use crate::db::{is_nearest_decl, last_assign, DbIndex, DbState, LuaDecl, LuaDeclKind, LuaMember, MemberState};
use crate::func_generic::as_doc_function_type;
use crate::ids::{
    FileId, GlobalId, InFiled, LuaDeclId, LuaMemberId, LuaMemberOwner, LuaSignatureId, LuaTypeDeclId,
    LuaTypeOwner, OwnerKey, TextRange,
};
use crate::syntax::{
    access_path, expr_access_path, LuaCallExpr, LuaClosureExpr, LuaDocTag, LuaDocTypeRef, LuaExpr, LuaIndexExpr,
    LuaIndexKey, LuaLiteralToken, LuaNameExpr, LuaStat, LuaTableExpr,
};
use crate::types::{
    union_of_seq, GenericParam, InferFailReason, LuaGenericType, LuaIntersectionType, LuaObjectType, LuaSignature, LuaType, LuaTypeCache,
    LuaUnionType,
};
use std::sync::Arc;

verus! {

/// How many expressions deep an inference looks.
pub const INFER_DEPTH: usize = 64;

/// A type still to be inferred from an expression and bound to an owner.
pub struct Pending {
    pub owner: LuaTypeOwner,
    pub file_id: FileId,
    pub expr: LuaExpr,
}

/// A field `[key] = value` of a table literal whose key waits for the type of
/// `key` to be inferred.
pub struct PendingField {
    pub owner: LuaMemberOwner,
    pub file_id: FileId,
    pub key: LuaExpr,
    pub position: u32,
    pub value: LuaExpr,
}

/// The first expression that a file modules: what `require` of it gives.
pub struct FileReturn {
    pub file_id: FileId,
    pub name: String,
    pub expr: Option<LuaExpr>,
}

/// The locals whose initial value is a table literal, with its range.
pub struct LocalTables {
    pub tables: Vec<(LuaDeclId, TextRange)>,
}

/// `name` is a string literal in quotes: `'text'` or `"text"`.
pub open spec fn is_quoted(name: Seq<char>) -> bool {
    name.len() >= 2 && (name[0] == '\'' || name[0] == '"') && name[name.len() - 1] == name[0]
}

/// `r` is the type that the single doc type name `name` stands for: the keys
/// of a class for `keyof X`, the literal type of a string in quotes, a
/// builtin type, or a reference to the declared type of that name.
pub open spec fn is_simple_doc_type(name: Seq<char>, r: LuaType) -> bool {
    if name.len() > 6 && name.subrange(0, 6) == "keyof "@ {
        r matches LuaType::KeyOf(id) && id.name@ == name.subrange(6, name.len() as int)
    } else if is_quoted(name) {
        r matches LuaType::StringConst(v) && v@ == name.subrange(1, name.len() - 1)
    } else if name == "string"@ {
        r == LuaType::String
    } else if name == "integer"@ {
        r == LuaType::Integer
    } else if name == "number"@ {
        r == LuaType::Number
    } else if name == "boolean"@ {
        r == LuaType::Boolean
    } else if name == "nil"@ {
        r == LuaType::Nil
    } else if name == "any"@ {
        r == LuaType::Any
    } else if name == "unknown"@ {
        r == LuaType::Unknown
    } else if name == "never"@ {
        r == LuaType::Never
    } else if name == "table"@ {
        r == LuaType::Table
    } else if name == "function"@ {
        r == LuaType::Function
    } else {
        r matches LuaType::Ref(id) && id.name@ == name
    }
}

/// The bracket depth after the character `ch`, at depth `depth`: one more
/// after `{` or `<`, one less after `}` or `>`.
pub open spec fn next_depth(ch: char, depth: nat) -> nat {
    if ch == '{' || ch == '<' {
        depth + 1
    } else if (ch == '}' || ch == '>') && depth > 0 {
        (depth - 1) as nat
    } else {
        depth
    }
}

/// The position of the first `c` in `name` outside brackets, starting at
/// bracket depth `depth`, or -1 when there is none.
pub open spec fn first_of_at(name: Seq<char>, c: char, depth: nat) -> int
    decreases name.len(),
{
    if name.len() == 0 {
        -1
    } else if name[0] == c && depth == 0 {
        0
    } else {
        let r = first_of_at(name.drop_first(), c, next_depth(name[0], depth));
        if r < 0 {
            -1
        } else {
            r + 1
        }
    }
}

/// The position of the first `c` in `name` outside `{}` and `<>`, or -1
/// when there is none.
pub open spec fn first_of(name: Seq<char>, c: char) -> int {
    first_of_at(name, c, 0)
}

/// `r` is the object type whose fields are written in `body`, separated by
/// `,`: each `key:type`, or a bare key of type `any`.
pub open spec fn is_doc_object(body: Seq<char>, r: LuaObjectType) -> bool
    decreases body.len(), 7int,
{
    if body.len() == 0 {
        r is Empty
    } else {
        let c = first_of(body, ',');
        proof {
            lemma_first_of_bounds(body, ',');
        }
        let part = if c < 0 {
            body
        } else {
            body.subrange(0, c)
        };
        let rest = if c < 0 {
            Seq::<char>::empty()
        } else {
            body.subrange(c + 1, body.len() as int)
        };
        let k = first_of(part, ':');
        proof {
            lemma_first_of_bounds(part, ':');
        }
        r matches LuaObjectType::Field(key, t, more) && (if k < 0 {
            key@ == part && t == LuaType::Any
        } else {
            key@ == part.subrange(0, k) && is_doc_type(part.subrange(k + 1, part.len() as int), t)
        }) && is_doc_object(rest, *more)
    }
}

/// `ps` are the types of the arguments written in `text`, separated by `,`.
pub open spec fn is_doc_args(text: Seq<char>, ps: Seq<LuaType>) -> bool
    decreases text.len(), 6int,
{
    if text.len() == 0 {
        ps.len() == 0
    } else {
        let c = first_of(text, ',');
        proof {
            lemma_first_of_bounds(text, ',');
        }
        ps.len() > 0 && if c < 0 {
            ps.len() == 1 && is_doc_type(text, ps[0])
        } else {
            is_doc_type(text.subrange(0, c), ps[0]) && is_doc_args(
                text.subrange(c + 1, text.len() as int),
                ps.drop_first(),
            )
        }
    }
}

/// `name` is a generic type `Base<args>`.
pub open spec fn is_generic_text(name: Seq<char>) -> bool {
    first_of(name, '<') > 0 && name.len() > 0 && name[name.len() - 1] == '>'
}

/// `r` is the type of one operand of `&` in a doc type: an object type in
/// braces, a declared type applied to arguments (`Base<A, B>`), or a single
/// doc type name.
pub open spec fn is_doc_operand(name: Seq<char>, r: LuaType) -> bool
    decreases name.len(), 1int,
{
    if name.len() >= 2 && name[0] == '{' && name[name.len() - 1] == '}' {
        r matches LuaType::Object(o) && is_doc_object(name.subrange(1, name.len() - 1), *o)
    } else if is_generic_text(name) {
        let p = first_of(name, '<');
        proof {
            lemma_first_of_bounds(name, '<');
        }
        r matches LuaType::Generic(g) && g.base.name@ == name.subrange(0, p) && is_doc_args(
            name.subrange(p + 1, name.len() - 1),
            g.params@,
        )
    } else {
        is_simple_doc_type(name, r)
    }
}

/// `i` is the intersection that the doc type `name`, made of operands
/// separated by `&`, stands for.
pub open spec fn is_doc_intersection(name: Seq<char>, i: LuaIntersectionType) -> bool
    decreases name.len(), 2int,
{
    let b = first_of(name, '&');
    if b < 0 {
        i matches LuaIntersectionType::Last(t) && is_doc_operand(name, t)
    } else {
        proof {
            lemma_first_of_bounds(name, '&');
        }
        i matches LuaIntersectionType::More(t, rest) && is_doc_operand(name.subrange(0, b), t) && is_doc_intersection(
            name.subrange(b + 1, name.len() as int),
            *rest,
        )
    }
}

/// `r` is the type of one alternative of `|` in a doc type: the
/// intersection of its operands when it has a `&`, else the one operand.
pub open spec fn is_doc_alternative(name: Seq<char>, r: LuaType) -> bool
    decreases name.len(), 3int,
{
    if first_of(name, '&') >= 0 {
        r matches LuaType::Intersection(i) && is_doc_intersection(name, *i)
    } else {
        is_doc_operand(name, r)
    }
}

/// `u` is the union that the doc type `name`, made of alternatives
/// separated by `|`, stands for.
pub open spec fn is_doc_union(name: Seq<char>, u: LuaUnionType) -> bool
    decreases name.len(), 4int,
{
    let b = first_of(name, '|');
    if b < 0 {
        u matches LuaUnionType::Last(t) && is_doc_alternative(name, t)
    } else {
        proof {
            lemma_first_of_bounds(name, '|');
        }
        u matches LuaUnionType::More(t, rest) && is_doc_alternative(name.subrange(0, b), t) && is_doc_union(
            name.subrange(b + 1, name.len() as int),
            *rest,
        )
    }
}

/// `r` is the type that the doc type `name` stands for: the union of its
/// alternatives when it has a `|`, else the one alternative. `&` binds
/// tighter than `|`, and separators inside `{}` or `<>` belong to the part
/// they stand in.
pub open spec fn is_doc_type(name: Seq<char>, r: LuaType) -> bool
    decreases name.len(), 5int,
{
    if first_of(name, '|') >= 0 {
        r matches LuaType::Union(u) && is_doc_union(name, *u)
    } else {
        is_doc_alternative(name, r)
    }
}

pub proof fn lemma_first_of_at_bounds(name: Seq<char>, c: char, depth: nat)
    ensures
        -1 <= first_of_at(name, c, depth) < name.len(),
        first_of_at(name, c, depth) >= 0 ==> name[first_of_at(name, c, depth)] == c,
    decreases name.len(),
{
    if name.len() > 0 {
        lemma_first_of_at_bounds(name.drop_first(), c, next_depth(name[0], depth));
    }
}

pub proof fn lemma_first_of_bounds(name: Seq<char>, c: char)
    ensures
        -1 <= first_of(name, c) < name.len(),
        first_of(name, c) >= 0 ==> name[first_of(name, c)] == c,
{
    lemma_first_of_at_bounds(name, c, 0);
}

/// The position of the first `c` in `text` outside brackets, if any.
fn find_char(text: &str, c: char) -> (r: Option<usize>)
    ensures
        match r {
            Some(b) => first_of(text@, c) == b,
            None => first_of(text@, c) < 0,
        },
{
    let n = text.unicode_len();
    let mut i: usize = 0;
    let mut depth: usize = 0;
    assert(text@.subrange(0, n as int) =~= text@);
    while i < n
        invariant
            n == text@.len(),
            i <= n,
            depth <= i,
            first_of(text@, c) == (if first_of_at(text@.subrange(i as int, n as int), c, depth as nat) < 0 {
                -1
            } else {
                first_of_at(text@.subrange(i as int, n as int), c, depth as nat) + i
            }),
        decreases n - i,
    {
        let ch = text.get_char(i);
        let ghost rest = text@.subrange(i as int, n as int);
        assert(rest.drop_first() =~= text@.subrange(i + 1, n as int));
        assert(rest[0] == ch);
        if ch == c && depth == 0 {
            return Some(i);
        }
        if ch == '{' || ch == '<' {
            depth = depth + 1;
        } else if (ch == '}' || ch == '>') && depth > 0 {
            depth = depth - 1;
        }
        i = i + 1;
    }
    assert(text@.subrange(n as int, n as int) =~= Seq::<char>::empty());
    None
}

/// The type of a single doc type name (see `is_simple_doc_type`).
fn simple_doc_type(name: &str) -> (r: LuaType)
    ensures
        is_simple_doc_type(name@, r),
{
    let n = name.to_string();
    let len = name.unicode_len();
    if len > 6 && name.substring_char(0, 6).to_string() == String::from_str("keyof ") {
        proof {
            reveal_strlit("keyof ");
        }
        return LuaType::KeyOf(LuaTypeDeclId { name: name.substring_char(6, len).to_string() });
    }
    if len >= 2 {
        let first = name.get_char(0);
        if (first == '\'' || first == '"') && name.get_char(len - 1) == first {
            return LuaType::StringConst(name.substring_char(1, len - 1).to_string());
        }
    }
    if n == String::from_str("string") {
        LuaType::String
    } else if n == String::from_str("integer") {
        LuaType::Integer
    } else if n == String::from_str("number") {
        LuaType::Number
    } else if n == String::from_str("boolean") {
        LuaType::Boolean
    } else if n == String::from_str("nil") {
        LuaType::Nil
    } else if n == String::from_str("any") {
        LuaType::Any
    } else if n == String::from_str("unknown") {
        LuaType::Unknown
    } else if n == String::from_str("never") {
        LuaType::Never
    } else if n == String::from_str("table") {
        LuaType::Table
    } else if n == String::from_str("function") {
        LuaType::Function
    } else {
        LuaType::Ref(LuaTypeDeclId { name: n })
    }
}

/// The object type whose fields are written in `body` (see `is_doc_object`).
fn doc_object_of(body: &str) -> (r: LuaObjectType)
    ensures
        is_doc_object(body@, r),
    decreases body@.len(), 7int,
{
    let n = body.unicode_len();
    if n == 0 {
        return LuaObjectType::Empty;
    }
    proof {
        lemma_first_of_bounds(body@, ',');
    }
    let (part, rest) = match find_char(body, ',') {
        Some(c) => (body.substring_char(0, c), body.substring_char(c + 1, n)),
        None => (body, body.substring_char(n, n)),
    };
    proof {
        lemma_first_of_bounds(part@, ':');
        assert(rest@.len() < body@.len());
    }
    let m = part.unicode_len();
    let (key, t) = match find_char(part, ':') {
        Some(k) => (part.substring_char(0, k).to_string(), doc_type_text(part.substring_char(k + 1, m))),
        None => (part.to_string(), LuaType::Any),
    };
    let more = doc_object_of(rest);
    proof {
        if first_of(body@, ',') < 0 {
            assert(rest@ =~= Seq::<char>::empty());
        }
    }
    LuaObjectType::Field(key, t, Arc::new(more))
}

/// The types of the arguments written in `text` (see `is_doc_args`).
fn doc_args_of(text: &str) -> (r: Vec<LuaType>)
    ensures
        is_doc_args(text@, r@),
    decreases text@.len(), 6int,
{
    let n = text.unicode_len();
    let mut v: Vec<LuaType> = Vec::new();
    if n == 0 {
        return v;
    }
    proof {
        lemma_first_of_bounds(text@, ',');
    }
    match find_char(text, ',') {
        None => {
            v.push(doc_type_text(text));
        },
        Some(c) => {
            v.push(doc_type_text(text.substring_char(0, c)));
            let mut rest = doc_args_of(text.substring_char(c + 1, n));
            let ghost rv = rest@;
            let ghost first = v@[0];
            v.append(&mut rest);
            assert(v@.drop_first() =~= rv);
            assert(v@[0] == first);
        },
    }
    v
}

/// The type of one operand of `&` (see `is_doc_operand`).
fn doc_operand_of(text: &str) -> (r: LuaType)
    ensures
        is_doc_operand(text@, r),
    decreases text@.len(), 1int,
{
    let n = text.unicode_len();
    if n >= 2 && text.get_char(0) == '{' && text.get_char(n - 1) == '}' {
        return LuaType::Object(Arc::new(doc_object_of(text.substring_char(1, n - 1))));
    }
    if n > 0 && text.get_char(n - 1) == '>' {
        if let Some(p) = find_char(text, '<') {
            if p > 0 {
                proof {
                    lemma_first_of_bounds(text@, '<');
                }
                let base = LuaTypeDeclId { name: text.substring_char(0, p).to_string() };
                let params = doc_args_of(text.substring_char(p + 1, n - 1));
                return LuaType::Generic(Arc::new(LuaGenericType { base, params }));
            }
        }
    }
    simple_doc_type(text)
}

/// The intersection that a doc type made of operands separated by `&`
/// stands for.
fn doc_intersection_of(text: &str) -> (r: LuaIntersectionType)
    ensures
        is_doc_intersection(text@, r),
    decreases text@.len(), 2int,
{
    match find_char(text, '&') {
        None => LuaIntersectionType::Last(doc_operand_of(text)),
        Some(b) => {
            proof {
                lemma_first_of_bounds(text@, '&');
            }
            let n = text.unicode_len();
            let head = doc_operand_of(text.substring_char(0, b));
            let rest = doc_intersection_of(text.substring_char(b + 1, n));
            LuaIntersectionType::More(head, Arc::new(rest))
        },
    }
}

/// The type of one alternative of `|` (see `is_doc_alternative`).
fn doc_alternative_of(text: &str) -> (r: LuaType)
    ensures
        is_doc_alternative(text@, r),
    decreases text@.len(), 3int,
{
    match find_char(text, '&') {
        Some(_) => LuaType::Intersection(Arc::new(doc_intersection_of(text))),
        None => doc_operand_of(text),
    }
}

/// The union that a doc type made of alternatives separated by `|` stands
/// for.
fn doc_union_of(text: &str) -> (r: LuaUnionType)
    ensures
        is_doc_union(text@, r),
    decreases text@.len(), 4int,
{
    match find_char(text, '|') {
        None => LuaUnionType::Last(doc_alternative_of(text)),
        Some(b) => {
            proof {
                lemma_first_of_bounds(text@, '|');
            }
            let n = text.unicode_len();
            let head = doc_alternative_of(text.substring_char(0, b));
            let rest = doc_union_of(text.substring_char(b + 1, n));
            LuaUnionType::More(head, Arc::new(rest))
        },
    }
}

/// The type the doc type `text` names (see `is_doc_type`).
fn doc_type_text(text: &str) -> (r: LuaType)
    ensures
        is_doc_type(text@, r),
    decreases text@.len(), 5int,
{
    match find_char(text, '|') {
        Some(_) => LuaType::Union(Arc::new(doc_union_of(text))),
        None => doc_alternative_of(text),
    }
}

/// The type a doc comment names: a builtin type, a reference to a declared
/// type, a string literal type, an object type in braces, a declared type
/// applied to arguments, or unions (`|`) and intersections (`&`) of those.
pub fn doc_type_of(t: &LuaDocTypeRef) -> (r: LuaType)
    ensures
        is_doc_type(t.name@, r),
{
    doc_type_text(t.name.as_str())
}

/// The type of a literal.
pub open spec fn literal_type(l: LuaLiteralToken) -> LuaType {
    match l {
        LuaLiteralToken::Integer(i) => LuaType::IntegerConst(i),
        LuaLiteralToken::String(v) => LuaType::StringConst(v),
        LuaLiteralToken::Float(f) => LuaType::FloatConst(f),
        LuaLiteralToken::Bool(b) => LuaType::BooleanConst(b),
        LuaLiteralToken::Nil => LuaType::Nil,
    }
}

/// The declaration that `name` at `pos` in `file` refers to: the innermost
/// one visible there, if any is.
pub open spec fn nearest_decl(s: DbState, file: FileId, name: Seq<char>, pos: u32) -> Option<LuaDeclId> {
    if exists|id: LuaDeclId| is_nearest_decl(s.decls, id, file, name, pos) {
        Some(choose|id: LuaDeclId| is_nearest_decl(s.decls, id, file, name, pos))
    } else {
        None
    }
}

/// At most one declaration is the innermost one visible at a place.
pub proof fn lemma_nearest_decl_unique(db: &DbIndex, id: LuaDeclId, file: FileId, name: Seq<char>, pos: u32)
    requires
        db.wf(),
        is_nearest_decl(db@.decls, id, file, name, pos),
    ensures
        nearest_decl(db@, file, name, pos) == Some(id),
{
    let s = db@;
    let c = choose|c: LuaDeclId| is_nearest_decl(s.decls, c, file, name, pos);
    assert(s.decls[c].id == c);
    assert(s.decls[id].id == id);
    assert(s.decls[c].id.position <= s.decls[id].id.position);
    assert(s.decls[id].id.position <= s.decls[c].id.position);
}

/// The type of the first declaration in `ids` bound to a doc type.
pub open spec fn first_doc_typed(s: DbState, ids: Seq<LuaDeclId>) -> Option<LuaType>
    decreases ids.len(),
{
    if ids.len() == 0 {
        None
    } else if s.types.contains_key(LuaTypeOwner::Decl(ids[0])) && s.types[LuaTypeOwner::Decl(ids[0])].spec_is_doc() {
        Some(s.types[LuaTypeOwner::Decl(ids[0])].spec_as_type())
    } else {
        first_doc_typed(s, ids.drop_first())
    }
}

/// The type of the first declaration in `ids` bound to any type.
pub open spec fn first_typed(s: DbState, ids: Seq<LuaDeclId>) -> Option<LuaType>
    decreases ids.len(),
{
    if ids.len() == 0 {
        None
    } else if s.types.contains_key(LuaTypeOwner::Decl(ids[0])) {
        Some(s.types[LuaTypeOwner::Decl(ids[0])].spec_as_type())
    } else {
        first_typed(s, ids.drop_first())
    }
}

/// The type of the global `name`: that of its first declaration with a doc
/// type, else of its first declaration with any type; an error naming its
/// first declaration when none has a type yet; `Unknown` when it has none.
pub open spec fn global_type_spec(s: DbState, name: Seq<char>) -> Result<LuaType, InferFailReason> {
    if !s.globals.contains_key(name) {
        Ok(LuaType::Unknown)
    } else {
        let ids = s.globals[name];
        match first_doc_typed(s, ids) {
            Some(t) => Ok(t),
            None => match first_typed(s, ids) {
                Some(t) => Ok(t),
                None => if ids.len() > 0 {
                    Err(InferFailReason::UnResolveDeclType(ids[0]))
                } else {
                    Ok(LuaType::Unknown)
                },
            },
        }
    }
}

/// The key text of an index key that names a field.
pub open spec fn key_text_spec(k: LuaIndexKey) -> Option<Seq<char>> {
    match k {
        LuaIndexKey::Name(n) => Some(n@),
        LuaIndexKey::String(v) => Some(v@),
        _ => None,
    }
}

/// The owner whose members a value of type `t` has: the class of a
/// reference, definition or generic type, or the table of a table literal
/// or an instance.
pub open spec fn lookup_owner_spec(t: LuaType) -> Option<LuaMemberOwner> {
    match t {
        LuaType::Ref(id) => Some(LuaMemberOwner::Type(id)),
        LuaType::Def(id) => Some(LuaMemberOwner::Type(id)),
        LuaType::TableConst(r) => Some(LuaMemberOwner::Element(r)),
        LuaType::Instance(inst) => Some(LuaMemberOwner::Element(inst.range)),
        LuaType::Generic(g) => Some(LuaMemberOwner::Type(g.base)),
        _ => None,
    }
}

/// The first of `ids` that is a known member with the key `key`.
pub open spec fn first_member_with_key(s: DbState, ids: Seq<LuaMemberId>, key: Seq<char>) -> Option<LuaMemberId>
    decreases ids.len(),
{
    if ids.len() == 0 {
        None
    } else if s.member.members.contains_key(ids[0]) && s.member.members[ids[0]].key@ == key {
        Some(ids[0])
    } else {
        first_member_with_key(s, ids.drop_first(), key)
    }
}

/// The type of the member `key` of `owner`: that of the first member listed
/// with that key, an error when its type is not bound yet, `Nil` when there
/// is none.
pub open spec fn member_type_spec(s: DbState, owner: LuaMemberOwner, key: Seq<char>) -> Result<LuaType, InferFailReason> {
    if !s.member.owner_members.contains_key(owner@) {
        Ok(LuaType::Nil)
    } else {
        match first_member_with_key(s, s.member.owner_members[owner@], key) {
            Some(id) => if s.types.contains_key(LuaTypeOwner::Member(id)) {
                Ok(s.types[LuaTypeOwner::Member(id)].spec_as_type())
            } else {
                Err(InferFailReason::UnResolveMemberType(id))
            },
            None => Ok(LuaType::Nil),
        }
    }
}

/// The owner whose members a value of type `t` has, for member lookup.
pub fn lookup_owner(t: &LuaType) -> (r: Option<LuaMemberOwner>)
    ensures
        r == lookup_owner_spec(*t),
{
    match t {
        LuaType::Ref(id) => Some(LuaMemberOwner::Type(id.clone())),
        LuaType::Def(id) => Some(LuaMemberOwner::Type(id.clone())),
        LuaType::TableConst(r) => Some(LuaMemberOwner::Element(*r)),
        LuaType::Instance(inst) => Some(LuaMemberOwner::Element(*inst.get_range())),
        LuaType::Generic(g) => Some(LuaMemberOwner::Type(g.base.clone())),
        _ => None,
    }
}

/// The key text of an index key that names a field.
fn key_text(k: &LuaIndexKey) -> (r: Option<String>)
    ensures
        match r {
            Some(t) => key_text_spec(*k) == Some(t@),
            None => key_text_spec(*k) is None,
        },
{
    match k {
        LuaIndexKey::Name(n) => Some(n.clone()),
        LuaIndexKey::String(s) => Some(s.clone()),
        _ => None,
    }
}

/// The type of the member `key` of `owner`: `Nil` when the owner has no such
/// member, an error when the member's type is not known yet.
pub fn member_type(db: &DbIndex, owner: &LuaMemberOwner, key: &String) -> (r: Result<LuaType, InferFailReason>)
    requires
        db.wf(),
    ensures
        r == member_type_spec(db@, *owner, key@),
{
    let ids = match db.get_member_index().get_members(owner) {
        Some(ids) => ids,
        None => return Ok(LuaType::Nil),
    };
    let mut i: usize = 0;
    assert(ids@.subrange(0, ids@.len() as int) =~= ids@);
    while i < ids.len()
        invariant
            db.wf(),
            i <= ids@.len(),
            db@.member.owner_members.contains_key(owner@),
            ids@ == db@.member.owner_members[owner@],
            first_member_with_key(db@, ids@, key@) == first_member_with_key(
                db@,
                ids@.subrange(i as int, ids@.len() as int),
                key@,
            ),
        decreases ids@.len() - i,
    {
        let id = ids[i];
        let ghost rest = ids@.subrange(i as int, ids@.len() as int);
        assert(rest.drop_first() =~= ids@.subrange(i + 1, ids@.len() as int));
        assert(rest[0] == id);
        if let Some(m) = db.get_member_index().get_member(&id) {
            if m.key == *key {
                return match db.get_type_index().get_type_cache(&LuaTypeOwner::from_member(id)) {
                    Some(c) => Ok(c.as_type().clone()),
                    None => Err(InferFailReason::UnResolveMemberType(id)),
                };
            }
        }
        i = i + 1;
    }
    Ok(LuaType::Nil)
}

/// The type of the global `name`: that of its first declaration with a doc
/// type, else of its first declaration with any type; an error when none of
/// its declarations has a type yet, and `Unknown` when it has none.
pub fn global_type(db: &DbIndex, name: &String) -> (r: Result<LuaType, InferFailReason>)
    requires
        db.wf(),
    ensures
        r == global_type_spec(db@, name@),
{
    let ids = match db.get_global_index().get_global_decl_ids(name) {
        Some(ids) => ids,
        None => return Ok(LuaType::Unknown),
    };
    let mut first: Option<LuaType> = None;
    let mut i: usize = 0;
    assert(ids@.subrange(0, ids@.len() as int) =~= ids@);
    while i < ids.len()
        invariant
            db.wf(),
            i <= ids@.len(),
            db@.globals.contains_key(name@),
            ids@ == db@.globals[name@],
            first_doc_typed(db@, ids@) == first_doc_typed(db@, ids@.subrange(i as int, ids@.len() as int)),
            match first {
                Some(t) => first_typed(db@, ids@) == Some(t),
                None => first_typed(db@, ids@) == first_typed(db@, ids@.subrange(i as int, ids@.len() as int)),
            },
        decreases ids@.len() - i,
    {
        let ghost rest = ids@.subrange(i as int, ids@.len() as int);
        assert(rest.drop_first() =~= ids@.subrange(i + 1, ids@.len() as int));
        assert(rest[0] == ids@[i as int]);
        if let Some(c) = db.get_type_index().get_type_cache(&LuaTypeOwner::from_decl(ids[i])) {
            if c.is_doc() {
                return Ok(c.as_type().clone());
            }
            if first.is_none() {
                first = Some(c.as_type().clone());
            }
        }
        i = i + 1;
    }
    match first {
        Some(t) => Ok(t),
        None => if ids.len() > 0 {
            Err(InferFailReason::UnResolveDeclType(ids[0]))
        } else {
            Ok(LuaType::Unknown)
        },
    }
}

/// `ts` without its `never` types.
pub open spec fn drop_never(ts: Seq<LuaType>) -> Seq<LuaType>
    decreases ts.len(),
{
    if ts.len() == 0 {
        ts
    } else if ts.last() is Never {
        drop_never(ts.drop_last())
    } else {
        drop_never(ts.drop_last()).push(ts.last())
    }
}

/// The type of a value that has one of the types `ts`: `never` when there
/// is none (a `never` adds nothing to a union), the type itself when there is
/// one, and their union otherwise.
pub open spec fn join_types(ts: Seq<LuaType>) -> LuaType {
    let u = drop_never(ts);
    if u.len() == 0 {
        LuaType::Never
    } else if u.len() == 1 {
        u[0]
    } else {
        LuaType::Union(Arc::new(union_of_seq(u)))
    }
}

/// The type of a value that has one of the types `ts`.
pub fn join_types_of(ts: &Vec<LuaType>) -> (r: LuaType)
    ensures
        r == join_types(ts@),
{
    let mut kept: Vec<LuaType> = Vec::new();
    let mut i: usize = 0;
    assert(ts@.subrange(0, 0) =~= Seq::<LuaType>::empty());
    while i < ts.len()
        invariant
            i <= ts@.len(),
            kept@ == drop_never(ts@.subrange(0, i as int)),
        decreases ts@.len() - i,
    {
        let ghost p = ts@.subrange(0, i + 1);
        assert(p.drop_last() =~= ts@.subrange(0, i as int));
        if !matches!(ts[i], LuaType::Never) {
            kept.push(ts[i].clone());
        }
        i = i + 1;
    }
    assert(ts@.subrange(0, ts@.len() as int) =~= ts@);
    if kept.len() == 0 {
        LuaType::Never
    } else if kept.len() == 1 {
        kept.pop().unwrap()
    } else {
        LuaType::Union(Arc::new(LuaUnionType::from_vec(kept)))
    }
}

/// The type of the member `key` of a value of type `t`: for a class, or a
/// class applied to arguments, its member as `class_member_spec` finds it;
/// otherwise that of the member of the owner `t` has, `Unknown` when `t` has
/// no owner.
pub open spec fn member_of_spec(s: DbState, t: LuaType, key: Seq<char>) -> Result<LuaType, InferFailReason> {
    match t {
        LuaType::Ref(id) => class_member_spec(s, id, Seq::empty(), key, CLASS_DEPTH as nat),
        LuaType::Def(id) => class_member_spec(s, id, Seq::empty(), key, CLASS_DEPTH as nat),
        LuaType::Generic(g) => class_member_spec(s, g.base, g.params@, key, CLASS_DEPTH as nat),
        _ => match lookup_owner_spec(t) {
            Some(o) => member_type_spec(s, o, key),
            None => Ok(LuaType::Unknown),
        },
    }
}

/// How many super types deep a member is looked for.
pub const CLASS_DEPTH: usize = 16;

/// The position of the first generic parameter named `name` in `ps`, or -1.
pub open spec fn param_index(ps: Seq<GenericParam>, name: Seq<char>) -> int
    decreases ps.len(),
{
    if ps.len() == 0 {
        -1
    } else if ps[0].name@ == name {
        0
    } else {
        let r = param_index(ps.drop_first(), name);
        if r < 0 {
            -1
        } else {
            r + 1
        }
    }
}

/// The type `x`, written in the class `id`, with the class's generic
/// parameters given the types `env`: a parameter named by `x` is replaced by
/// its type; any other type is kept.
pub open spec fn resolve_param(s: DbState, id: LuaTypeDeclId, env: Seq<LuaType>, x: LuaType) -> LuaType {
    match x {
        LuaType::Ref(r) => if s.generic_params.contains_key(id.name@) {
            let i = param_index(s.generic_params[id.name@]@, r.name@);
            if 0 <= i < env.len() {
                env[i]
            } else {
                x
            }
        } else {
            x
        },
        _ => x,
    }
}

/// The type of the member `key` of a value of the class `id` with its
/// generic parameters given the types `env`: its own member, with the
/// parameters replaced; without one, the member the first of its super types
/// that has one gives, looking at most `depth` super types deep; `nil` when
/// none has it.
pub open spec fn class_member_spec(
    s: DbState,
    id: LuaTypeDeclId,
    env: Seq<LuaType>,
    key: Seq<char>,
    depth: nat,
) -> Result<LuaType, InferFailReason>
    decreases depth, 0int, 0int,
{
    match member_type_spec(s, LuaMemberOwner::Type(id), key) {
        Err(e) => Err(e),
        Ok(x) => if !(x is Nil) {
            Ok(resolve_param(s, id, env, x))
        } else if depth == 0 || !s.supers.contains_key(id.name@) {
            Ok(LuaType::Nil)
        } else {
            supers_member_spec(s, id, env, s.supers[id.name@]@, key, (depth - 1) as nat)
        },
    }
}

/// The type of the member `key` in the first of the super types `sups` of
/// the class `id` (with its parameters given `env`) that has one: the field
/// of an object type, or the member of a class, looking `depth` deep.
pub open spec fn supers_member_spec(
    s: DbState,
    id: LuaTypeDeclId,
    env: Seq<LuaType>,
    sups: Seq<LuaType>,
    key: Seq<char>,
    depth: nat,
) -> Result<LuaType, InferFailReason>
    decreases depth, 1int, sups.len(),
{
    if sups.len() == 0 {
        Ok(LuaType::Nil)
    } else {
        let found = match resolve_param(s, id, env, sups[0]) {
            LuaType::Object(o) => Ok(
                match object_field(*o, key) {
                    Some(x) => x,
                    None => LuaType::Nil,
                },
            ),
            LuaType::Ref(b) => class_member_spec(s, b, Seq::empty(), key, depth),
            LuaType::Def(b) => class_member_spec(s, b, Seq::empty(), key, depth),
            LuaType::Generic(g) => class_member_spec(
                s,
                g.base,
                g.params@.map_values(|p: LuaType| resolve_param(s, id, env, p)),
                key,
                depth,
            ),
            _ => Ok(LuaType::Nil),
        };
        match found {
            Err(e) => Err(e),
            Ok(x) => if !(x is Nil) {
                Ok(x)
            } else {
                supers_member_spec(s, id, env, sups.drop_first(), key, depth)
            },
        }
    }
}

/// The type `x`, written in the class `id`, with its generic parameters
/// given `env` (see `resolve_param`).
fn resolve_param_of(db: &DbIndex, id: &LuaTypeDeclId, env: &Vec<LuaType>, x: &LuaType) -> (r: LuaType)
    requires
        db.wf(),
    ensures
        r == resolve_param(db@, *id, env@, *x),
{
    if let LuaType::Ref(rn) = x {
        if let Some(ps) = db.get_type_index().get_generic_params(id) {
            let mut i: usize = 0;
            assert(ps@.subrange(0, ps@.len() as int) =~= ps@);
            let ghost pi = param_index(ps@, rn.name@);
            assert(resolve_param(db@, *id, env@, *x) == (if 0 <= pi < env@.len() {
                env@[pi]
            } else {
                *x
            }));
            while i < ps.len()
                invariant
                    i <= ps@.len(),
                    pi == param_index(ps@, rn.name@),
                    resolve_param(db@, *id, env@, *x) == (if 0 <= pi < env@.len() {
                        env@[pi]
                    } else {
                        *x
                    }),
                    param_index(ps@, rn.name@) == (if param_index(ps@.subrange(i as int, ps@.len() as int), rn.name@) < 0 {
                        -1
                    } else {
                        param_index(ps@.subrange(i as int, ps@.len() as int), rn.name@) + i
                    }),
                decreases ps@.len() - i,
            {
                let ghost rest = ps@.subrange(i as int, ps@.len() as int);
                assert(rest.drop_first() =~= ps@.subrange(i + 1, ps@.len() as int));
                assert(rest[0] == ps@[i as int]);
                if ps[i].name == rn.name {
                    if i < env.len() {
                        return env[i].clone();
                    }
                    return x.clone();
                }
                i = i + 1;
            }
            assert(ps@.subrange(ps@.len() as int, ps@.len() as int) =~= Seq::<GenericParam>::empty());
        }
    }
    x.clone()
}

/// The member `key` of a value of the class `id` with its parameters given
/// `env` (see `class_member_spec`).
fn class_member(db: &DbIndex, id: &LuaTypeDeclId, env: &Vec<LuaType>, key: &String, depth: usize) -> (r: Result<
    LuaType,
    InferFailReason,
>)
    requires
        db.wf(),
    ensures
        r == class_member_spec(db@, *id, env@, key@, depth as nat),
    decreases depth,
{
    let x = member_type(db, &LuaMemberOwner::Type(id.clone()), key)?;
    if !matches!(x, LuaType::Nil) {
        return Ok(resolve_param_of(db, id, env, &x));
    }
    if depth == 0 {
        return Ok(LuaType::Nil);
    }
    let sups = match db.get_class_index().get_supers(&id.name) {
        Some(v) => v,
        None => return Ok(LuaType::Nil),
    };
    let ghost d = (depth - 1) as nat;
    let mut k: usize = 0;
    assert(sups@.subrange(0, sups@.len() as int) =~= sups@);
    assert(class_member_spec(db@, *id, env@, key@, depth as nat) == supers_member_spec(db@, *id, env@, sups@, key@, d));
    while k < sups.len()
        invariant
            db.wf(),
            depth > 0,
            d == depth - 1,
            class_member_spec(db@, *id, env@, key@, depth as nat) == supers_member_spec(db@, *id, env@, sups@, key@, d),
            k <= sups@.len(),
            supers_member_spec(db@, *id, env@, sups@, key@, d) == supers_member_spec(
                db@,
                *id,
                env@,
                sups@.subrange(k as int, sups@.len() as int),
                key@,
                d,
            ),
        decreases sups@.len() - k,
    {
        let ghost rest = sups@.subrange(k as int, sups@.len() as int);
        assert(rest.drop_first() =~= sups@.subrange(k + 1, sups@.len() as int));
        assert(rest[0] == sups@[k as int]);
        let st = resolve_param_of(db, id, env, &sups[k]);
        let found = match &st {
            LuaType::Object(o) => match object_field_of(&**o, key) {
                Some(x) => x,
                None => LuaType::Nil,
            },
            LuaType::Ref(b) => class_member(db, b, &Vec::new(), key, depth - 1)?,
            LuaType::Def(b) => class_member(db, b, &Vec::new(), key, depth - 1)?,
            LuaType::Generic(g) => {
                let mut env2: Vec<LuaType> = Vec::new();
                let mut j: usize = 0;
                while j < g.params.len()
                    invariant
                        db.wf(),
                        j <= g.params@.len(),
                        env2@ == g.params@.subrange(0, j as int).map_values(
                            |p: LuaType| resolve_param(db@, *id, env@, p),
                        ),
                    decreases g.params@.len() - j,
                {
                    env2.push(resolve_param_of(db, id, env, &g.params[j]));
                    assert(env2@ =~= g.params@.subrange(0, j + 1).map_values(
                        |p: LuaType| resolve_param(db@, *id, env@, p),
                    ));
                    j = j + 1;
                }
                assert(g.params@.subrange(0, g.params@.len() as int) =~= g.params@);
                class_member(db, &g.base, &env2, key, depth - 1)?
            },
            _ => LuaType::Nil,
        };
        if !matches!(found, LuaType::Nil) {
            return Ok(found);
        }
        k = k + 1;
    }
    Ok(LuaType::Nil)
}

/// The type of the member `key` of a value of type `t` (see
/// `member_of_spec`).
fn member_of(db: &DbIndex, t: &LuaType, key: &String) -> (r: Result<LuaType, InferFailReason>)
    requires
        db.wf(),
    ensures
        r == member_of_spec(db@, *t, key@),
{
    match t {
        LuaType::Ref(id) => class_member(db, id, &Vec::new(), key, CLASS_DEPTH),
        LuaType::Def(id) => class_member(db, id, &Vec::new(), key, CLASS_DEPTH),
        LuaType::Generic(g) => class_member(db, &g.base, &g.params, key, CLASS_DEPTH),
        _ => match lookup_owner(t) {
            Some(o) => member_type(db, &o, key),
            None => Ok(LuaType::Unknown),
        },
    }
}

/// The type of the field `key` of the object type `o`: that of its first
/// field with that key.
pub open spec fn object_field(o: LuaObjectType, key: Seq<char>) -> Option<LuaType>
    decreases o,
{
    match o {
        LuaObjectType::Empty => None,
        LuaObjectType::Field(k, t, rest) => if k@ == key {
            Some(t)
        } else {
            object_field(*rest, key)
        },
    }
}

/// `t` is a builtin type or a literal type.
pub open spec fn is_plain(t: LuaType) -> bool {
    t is Nil || t is Boolean || t is String || t is Integer || t is Number || t is Table || t is Function
        || t is BooleanConst || t is StringConst || t is IntegerConst || t is FloatConst
}

/// `a` and `b` are the same builtin or literal type, or the same class.
pub open spec fn same_plain(a: LuaType, b: LuaType) -> bool {
    match (a, b) {
        (LuaType::Nil, LuaType::Nil) => true,
        (LuaType::Boolean, LuaType::Boolean) => true,
        (LuaType::String, LuaType::String) => true,
        (LuaType::Integer, LuaType::Integer) => true,
        (LuaType::Number, LuaType::Number) => true,
        (LuaType::Table, LuaType::Table) => true,
        (LuaType::Function, LuaType::Function) => true,
        (LuaType::Never, LuaType::Never) => true,
        (LuaType::BooleanConst(x), LuaType::BooleanConst(y)) => x == y,
        (LuaType::StringConst(x), LuaType::StringConst(y)) => x@ == y@,
        (LuaType::IntegerConst(x), LuaType::IntegerConst(y)) => x == y,
        (LuaType::FloatConst(x), LuaType::FloatConst(y)) => x == y,
        (LuaType::Ref(x), LuaType::Ref(y)) => x.name@ == y.name@,
        _ => false,
    }
}

/// Every value of type `a` has type `b`, as far as builtin and literal types
/// go: the same type, `never`, `integer` in `number`, and a literal in its
/// base type.
pub open spec fn narrower(a: LuaType, b: LuaType) -> bool {
    ||| same_plain(a, b)
    ||| a is Never
    ||| a is Integer && b is Number
    ||| a is IntegerConst && (b is Integer || b is Number)
    ||| a is FloatConst && b is Number
    ||| a is StringConst && b is String
    ||| a is BooleanConst && b is Boolean
}

/// The type of a value that has both the types `a` and `b`: the other type
/// when one is `any` or `unknown`, the narrower one when one holds in the
/// other, `never` for two builtin or literal types that share no value, and
/// `a` otherwise.
pub open spec fn intersect_types(a: LuaType, b: LuaType) -> LuaType {
    if a is Any || a is Unknown {
        b
    } else if b is Any || b is Unknown {
        a
    } else if narrower(a, b) {
        a
    } else if narrower(b, a) {
        b
    } else if is_plain(a) && is_plain(b) {
        LuaType::Never
    } else {
        a
    }
}

/// The type of the member `key` of an operand `t` of an intersection: none
/// when it has no such member (or it is `nil`).
pub open spec fn operand_member_spec(s: DbState, t: LuaType, key: Seq<char>) -> Result<Option<LuaType>, InferFailReason> {
    match t {
        LuaType::Object(o) => Ok(object_field(*o, key)),
        _ => match member_of_spec(s, t, key) {
            Ok(LuaType::Nil) => Ok(None),
            Ok(x) => Ok(Some(x)),
            Err(e) => Err(e),
        },
    }
}

/// The type of the member `key` of a value of the intersection `i`: the
/// intersection of its types in the operands that have it, none when no
/// operand has it; the first error met.
pub open spec fn intersection_member_spec(s: DbState, i: LuaIntersectionType, key: Seq<char>) -> Result<
    Option<LuaType>,
    InferFailReason,
>
    decreases i,
{
    match i {
        LuaIntersectionType::Last(t) => operand_member_spec(s, t, key),
        LuaIntersectionType::More(t, rest) => match operand_member_spec(s, t, key) {
            Err(e) => Err(e),
            Ok(x) => match intersection_member_spec(s, *rest, key) {
                Err(e) => Err(e),
                Ok(y) => Ok(
                    match x {
                        None => y,
                        Some(a) => match y {
                            None => Some(a),
                            Some(b) => Some(intersect_types(a, b)),
                        },
                    },
                ),
            },
        },
    }
}

/// The type of the member `key` of a value of type `t`, not a union: the
/// field of an object type, the member of an intersection, or the member of
/// the owner of `t`; `nil` when there is none.
pub open spec fn single_member_spec(s: DbState, t: LuaType, key: Seq<char>) -> Result<LuaType, InferFailReason> {
    match t {
        LuaType::Object(o) => Ok(
            match object_field(*o, key) {
                Some(x) => x,
                None => LuaType::Nil,
            },
        ),
        LuaType::Intersection(i) => match intersection_member_spec(s, *i, key) {
            Ok(Some(x)) => Ok(x),
            Ok(None) => Ok(LuaType::Nil),
            Err(e) => Err(e),
        },
        _ => member_of_spec(s, t, key),
    }
}

/// The type of the field `key` of the object type `o`.
fn object_field_of(o: &LuaObjectType, key: &String) -> (r: Option<LuaType>)
    ensures
        r == object_field(*o, key@),
    decreases o,
{
    match o {
        LuaObjectType::Empty => None,
        LuaObjectType::Field(k, t, rest) => if *k == *key {
            Some(t.clone())
        } else {
            object_field_of(&**rest, key)
        },
    }
}

/// Whether `t` is a builtin type or a literal type.
fn plain(t: &LuaType) -> (r: bool)
    ensures
        r == is_plain(*t),
{
    match t {
        LuaType::Nil | LuaType::Boolean | LuaType::String | LuaType::Integer | LuaType::Number | LuaType::Table
        | LuaType::Function | LuaType::BooleanConst(_) | LuaType::StringConst(_) | LuaType::IntegerConst(_)
        | LuaType::FloatConst(_) => true,
        _ => false,
    }
}

/// Whether `a` and `b` are the same builtin or literal type, or the same
/// class.
fn same_plain_type(a: &LuaType, b: &LuaType) -> (r: bool)
    ensures
        r == same_plain(*a, *b),
{
    match (a, b) {
        (LuaType::Nil, LuaType::Nil) => true,
        (LuaType::Boolean, LuaType::Boolean) => true,
        (LuaType::String, LuaType::String) => true,
        (LuaType::Integer, LuaType::Integer) => true,
        (LuaType::Number, LuaType::Number) => true,
        (LuaType::Table, LuaType::Table) => true,
        (LuaType::Function, LuaType::Function) => true,
        (LuaType::Never, LuaType::Never) => true,
        (LuaType::BooleanConst(x), LuaType::BooleanConst(y)) => *x == *y,
        (LuaType::StringConst(x), LuaType::StringConst(y)) => *x == *y,
        (LuaType::IntegerConst(x), LuaType::IntegerConst(y)) => *x == *y,
        (LuaType::FloatConst(x), LuaType::FloatConst(y)) => *x == *y,
        (LuaType::Ref(x), LuaType::Ref(y)) => x.name == y.name,
        _ => false,
    }
}

/// Whether every value of type `a` has type `b` (see `narrower`).
fn is_narrower(a: &LuaType, b: &LuaType) -> (r: bool)
    ensures
        r == narrower(*a, *b),
{
    same_plain_type(a, b) || matches!(a, LuaType::Never) || (matches!(a, LuaType::Integer) && matches!(b, LuaType::Number))
        || (matches!(a, LuaType::IntegerConst(_)) && (matches!(b, LuaType::Integer) || matches!(b, LuaType::Number)))
        || (matches!(a, LuaType::FloatConst(_)) && matches!(b, LuaType::Number)) || (matches!(a, LuaType::StringConst(_))
        && matches!(b, LuaType::String)) || (matches!(a, LuaType::BooleanConst(_)) && matches!(b, LuaType::Boolean))
}

/// The type of a value that has both the types `a` and `b` (see
/// `intersect_types`).
pub fn intersect(a: &LuaType, b: &LuaType) -> (r: LuaType)
    ensures
        r == intersect_types(*a, *b),
{
    if a.is_any() || a.is_unknown() {
        b.clone()
    } else if b.is_any() || b.is_unknown() {
        a.clone()
    } else if is_narrower(a, b) {
        a.clone()
    } else if is_narrower(b, a) {
        b.clone()
    } else if plain(a) && plain(b) {
        LuaType::Never
    } else {
        a.clone()
    }
}

/// The type of the member `key` of an operand `t` of an intersection.
fn operand_member(db: &DbIndex, t: &LuaType, key: &String) -> (r: Result<Option<LuaType>, InferFailReason>)
    requires
        db.wf(),
    ensures
        r == operand_member_spec(db@, *t, key@),
{
    if let LuaType::Object(o) = t {
        return Ok(object_field_of(&**o, key));
    }
    let x = member_of(db, t, key)?;
    if let LuaType::Nil = x {
        Ok(None)
    } else {
        Ok(Some(x))
    }
}

/// The type of the member `key` of a value of the intersection `i`.
fn intersection_member(db: &DbIndex, i: &LuaIntersectionType, key: &String) -> (r: Result<Option<LuaType>, InferFailReason>)
    requires
        db.wf(),
    ensures
        r == intersection_member_spec(db@, *i, key@),
    decreases i,
{
    match i {
        LuaIntersectionType::Last(t) => operand_member(db, t, key),
        LuaIntersectionType::More(t, rest) => {
            let x = operand_member(db, t, key)?;
            let y = intersection_member(db, &**rest, key)?;
            Ok(
                match x {
                    None => y,
                    Some(a) => match y {
                        None => Some(a),
                        Some(b) => Some(intersect(&a, &b)),
                    },
                },
            )
        },
    }
}

/// The type of the member `key` of a value of type `t`, not a union.
fn single_member(db: &DbIndex, t: &LuaType, key: &String) -> (r: Result<LuaType, InferFailReason>)
    requires
        db.wf(),
    ensures
        r == single_member_spec(db@, *t, key@),
{
    match t {
        LuaType::Object(o) => Ok(
            match object_field_of(&**o, key) {
                Some(x) => x,
                None => LuaType::Nil,
            },
        ),
        LuaType::Intersection(i) => match intersection_member(db, &**i, key)? {
            Some(x) => Ok(x),
            None => Ok(LuaType::Nil),
        },
        _ => member_of(db, t, key),
    }
}

/// The types of the member `key` of each type of the union `u`, in order;
/// the first error met.
pub open spec fn union_members_spec(s: DbState, u: LuaUnionType, key: Seq<char>) -> Result<Seq<LuaType>, InferFailReason>
    decreases u,
{
    match u {
        LuaUnionType::Last(t) => match single_member_spec(s, t, key) {
            Ok(x) => Ok(seq![x]),
            Err(e) => Err(e),
        },
        LuaUnionType::More(t, rest) => match single_member_spec(s, t, key) {
            Err(e) => Err(e),
            Ok(x) => match union_members_spec(s, *rest, key) {
                Ok(xs) => Ok(seq![x] + xs),
                Err(e) => Err(e),
            },
        },
    }
}

/// The types of the member `key` of each type of the union `u`.
fn union_members(db: &DbIndex, u: &LuaUnionType, key: &String) -> (r: Result<Vec<LuaType>, InferFailReason>)
    requires
        db.wf(),
    ensures
        match r {
            Ok(ts) => union_members_spec(db@, *u, key@) == Ok::<Seq<LuaType>, InferFailReason>(ts@),
            Err(e) => union_members_spec(db@, *u, key@) == Err::<Seq<LuaType>, InferFailReason>(e),
        },
    decreases u,
{
    let (t, rest) = match u {
        LuaUnionType::Last(t) => (t, None),
        LuaUnionType::More(t, rest) => (t, Some(rest)),
    };
    let x = single_member(db, t, key)?;
    match rest {
        None => {
            let mut v: Vec<LuaType> = Vec::new();
            v.push(x);
            assert(v@ =~= seq![x]);
            Ok(v)
        },
        Some(rest) => {
            let xs = union_members(db, &**rest, key)?;
            let mut v: Vec<LuaType> = Vec::new();
            v.push(x);
            let mut i: usize = 0;
            while i < xs.len()
                invariant
                    i <= xs@.len(),
                    v@ == seq![x] + xs@.subrange(0, i as int),
                decreases xs@.len() - i,
            {
                v.push(xs[i].clone());
                assert(v@ =~= seq![x] + xs@.subrange(0, i + 1));
                i = i + 1;
            }
            assert(xs@.subrange(0, xs@.len() as int) =~= xs@);
            Ok(v)
        },
    }
}

/// The keys of the known members that `ids` lists, in order.
pub open spec fn member_keys(s: DbState, ids: Seq<LuaMemberId>) -> Seq<Seq<char>>
    decreases ids.len(),
{
    if ids.len() == 0 {
        Seq::empty()
    } else if s.member.members.contains_key(ids.last()) {
        member_keys(s, ids.drop_last()).push(s.member.members[ids.last()].key@)
    } else {
        member_keys(s, ids.drop_last())
    }
}

/// The key of a field written `[e]` with `e` of type `t`: the text of a
/// string literal type; for a value of a base type that names no field, the
/// name of the type in brackets (`[string]`); none for any other type.
pub open spec fn type_key(t: LuaType) -> Option<Seq<char>> {
    match t {
        LuaType::StringConst(v) => Some(v@),
        LuaType::String => Some("[string]"@),
        LuaType::Integer => Some("[integer]"@),
        LuaType::Number => Some("[number]"@),
        LuaType::Boolean => Some("[boolean]"@),
        _ => None,
    }
}

/// The key of a field written `[e]` with `e` of type `t`.
fn type_key_of(t: &LuaType) -> (r: Option<String>)
    ensures
        match r {
            Some(k) => type_key(*t) == Some(k@),
            None => type_key(*t) is None,
        },
{
    match t {
        LuaType::StringConst(v) => Some(v.clone()),
        LuaType::String => Some(String::from_str("[string]")),
        LuaType::Integer => Some(String::from_str("[integer]")),
        LuaType::Number => Some(String::from_str("[number]")),
        LuaType::Boolean => Some(String::from_str("[boolean]")),
        _ => None,
    }
}

/// The member keys that an index key of type `t` names: the key of each
/// member of the class `X` for `keyof X`, else the one key `type_key` gives;
/// none when it gives none.
pub open spec fn key_names_of(s: DbState, t: LuaType) -> Option<Seq<Seq<char>>> {
    match t {
        LuaType::KeyOf(id) => Some(
            if s.member.owner_members.contains_key(OwnerKey::Type(id.name@)) {
                member_keys(s, s.member.owner_members[OwnerKey::Type(id.name@)])
            } else {
                Seq::empty()
            },
        ),
        _ => match type_key(t) {
            Some(k) => Some(seq![k]),
            None => None,
        },
    }
}

/// The texts of `v`.
pub open spec fn texts(v: Seq<String>) -> Seq<Seq<char>> {
    v.map_values(|x: String| x@)
}

/// The member keys that an index key of type `t` names.
fn key_names(db: &DbIndex, t: &LuaType) -> (r: Option<Vec<String>>)
    requires
        db.wf(),
    ensures
        match r {
            Some(v) => key_names_of(db@, *t) == Some(texts(v@)),
            None => key_names_of(db@, *t) is None,
        },
{
    match t {
        LuaType::KeyOf(id) => {
            let mut keys: Vec<String> = Vec::new();
            let owner = LuaMemberOwner::Type(id.clone());
            match db.get_member_index().get_members(&owner) {
                Some(ids) => {
                    let mut i: usize = 0;
                    assert(texts(keys@) =~= member_keys(db@, ids@.subrange(0, 0)));
                    while i < ids.len()
                        invariant
                            db.wf(),
                            i <= ids@.len(),
                            texts(keys@) == member_keys(db@, ids@.subrange(0, i as int)),
                        decreases ids@.len() - i,
                    {
                        let ghost p = ids@.subrange(0, i + 1);
                        assert(p.drop_last() =~= ids@.subrange(0, i as int));
                        let ghost before = keys@;
                        if let Some(m) = db.get_member_index().get_member(&ids[i]) {
                            keys.push(m.key.clone());
                            assert(texts(keys@) =~= texts(before).push(m.key@));
                        }
                        i = i + 1;
                    }
                    assert(ids@.subrange(0, ids@.len() as int) =~= ids@);
                },
                None => {
                    assert(texts(keys@) =~= Seq::<Seq<char>>::empty());
                },
            }
            Some(keys)
        },
        _ => match type_key_of(t) {
            Some(k) => {
                let mut keys: Vec<String> = Vec::new();
                let ghost kv = k@;
                keys.push(k);
                assert(texts(keys@) =~= seq![kv]);
                Some(keys)
            },
            None => None,
        },
    }
}

/// A key written `[T]`, after the type of the expression that gave it.
pub open spec fn is_bracket_key(k: Seq<char>) -> bool {
    k.len() > 0 && k[0] == '['
}

/// The keys of the known members that `ids` lists and that were written as
/// names or strings, in order.
pub open spec fn named_member_keys(s: DbState, ids: Seq<LuaMemberId>) -> Seq<Seq<char>>
    decreases ids.len(),
{
    if ids.len() == 0 {
        Seq::empty()
    } else if s.member.members.contains_key(ids.last()) && !is_bracket_key(s.member.members[ids.last()].key@) {
        named_member_keys(s, ids.drop_last()).push(s.member.members[ids.last()].key@)
    } else {
        named_member_keys(s, ids.drop_last())
    }
}

/// The members listed under the owner of the values of type `t`.
pub open spec fn owner_ids(s: DbState, t: LuaType) -> Seq<LuaMemberId> {
    match lookup_owner_spec(t) {
        Some(o) => if s.member.owner_members.contains_key(o@) {
            s.member.owner_members[o@]
        } else {
            Seq::empty()
        },
        None => Seq::empty(),
    }
}

/// The members listed under the owner of the values of type `t`.
fn owner_member_ids(db: &DbIndex, t: &LuaType) -> (r: Vec<LuaMemberId>)
    requires
        db.wf(),
    ensures
        r@ == owner_ids(db@, *t),
{
    match lookup_owner(t) {
        Some(o) => match db.get_member_index().get_members(&o) {
            Some(ids) => crate::common::copy_member_ids(ids),
            None => Vec::new(),
        },
        None => Vec::new(),
    }
}

/// Whether one of the known members `ids` has the key `key`.
fn has_member_key(db: &DbIndex, ids: &Vec<LuaMemberId>, key: &String) -> (r: bool)
    requires
        db.wf(),
    ensures
        r == (first_member_with_key(db@, ids@, key@) is Some),
{
    let mut i: usize = 0;
    assert(ids@.subrange(0, ids@.len() as int) =~= ids@);
    while i < ids.len()
        invariant
            db.wf(),
            i <= ids@.len(),
            first_member_with_key(db@, ids@, key@) == first_member_with_key(
                db@,
                ids@.subrange(i as int, ids@.len() as int),
                key@,
            ),
        decreases ids@.len() - i,
    {
        let ghost rest = ids@.subrange(i as int, ids@.len() as int);
        assert(rest.drop_first() =~= ids@.subrange(i + 1, ids@.len() as int));
        assert(rest[0] == ids@[i as int]);
        if let Some(m) = db.get_member_index().get_member(&ids[i]) {
            if m.key == *key {
                return true;
            }
        }
        i = i + 1;
    }
    false
}

/// The keys of the known members `ids` that were written as names or
/// strings, in order.
fn named_keys(db: &DbIndex, ids: &Vec<LuaMemberId>) -> (r: Vec<String>)
    requires
        db.wf(),
    ensures
        texts(r@) == named_member_keys(db@, ids@),
{
    let mut keys: Vec<String> = Vec::new();
    let mut i: usize = 0;
    assert(texts(keys@) =~= named_member_keys(db@, ids@.subrange(0, 0)));
    while i < ids.len()
        invariant
            db.wf(),
            i <= ids@.len(),
            texts(keys@) == named_member_keys(db@, ids@.subrange(0, i as int)),
        decreases ids@.len() - i,
    {
        let ghost p = ids@.subrange(0, i + 1);
        assert(p.drop_last() =~= ids@.subrange(0, i as int));
        let ghost before = keys@;
        if let Some(m) = db.get_member_index().get_member(&ids[i]) {
            let bracket = m.key.unicode_len() > 0 && m.key.as_str().get_char(0) == '[';
            if !bracket {
                keys.push(m.key.clone());
                assert(texts(keys@) =~= texts(before).push(m.key@));
            }
        }
        i = i + 1;
    }
    assert(ids@.subrange(0, ids@.len() as int) =~= ids@);
    keys
}

/// The type of the member `key` of a value of type `t`: on a union, the
/// join of the types the member has in each type of the union.
pub open spec fn type_member_spec(s: DbState, t: LuaType, key: Seq<char>) -> Result<LuaType, InferFailReason> {
    match t {
        LuaType::Union(u) => match union_members_spec(s, *u, key) {
            Ok(ts) => Ok(join_types(ts)),
            Err(e) => Err(e),
        },
        _ => single_member_spec(s, t, key),
    }
}

/// The type of the member `key` of a value of type `t`.
fn type_member(db: &DbIndex, t: &LuaType, key: &String) -> (r: Result<LuaType, InferFailReason>)
    requires
        db.wf(),
    ensures
        r == type_member_spec(db@, *t, key@),
{
    if let LuaType::Union(u) = t {
        // A member of a union has the types of the member in each of its types.
        let ts = union_members(db, &**u, key)?;
        return Ok(join_types_of(&ts));
    }
    single_member(db, t, key)
}

/// The types of the members `keys` of a value of type `t`, in order; the
/// first error met.
pub open spec fn members_by_keys(s: DbState, t: LuaType, keys: Seq<Seq<char>>) -> Result<Seq<LuaType>, InferFailReason>
    decreases keys.len(),
{
    if keys.len() == 0 {
        Ok(Seq::empty())
    } else {
        match members_by_keys(s, t, keys.drop_last()) {
            Err(e) => Err(e),
            Ok(ts) => match type_member_spec(s, t, keys.last()) {
                Ok(x) => Ok(ts.push(x)),
                Err(e) => Err(e),
            },
        }
    }
}

/// An error met at key `i` is the error of all the keys.
proof fn lemma_members_by_keys_err(s: DbState, t: LuaType, keys: Seq<Seq<char>>, i: int, e: InferFailReason)
    requires
        0 <= i < keys.len(),
        members_by_keys(s, t, keys.subrange(0, i + 1)) == Err::<Seq<LuaType>, InferFailReason>(e),
    ensures
        members_by_keys(s, t, keys) == Err::<Seq<LuaType>, InferFailReason>(e),
    decreases keys.len() - i,
{
    if i + 1 < keys.len() {
        assert(keys.subrange(0, i + 2).drop_last() =~= keys.subrange(0, i + 1));
        lemma_members_by_keys_err(s, t, keys, i + 1, e);
    } else {
        assert(keys.subrange(0, i + 1) =~= keys);
    }
}

/// The types of the members `keys` of a value of type `t`.
fn types_by_keys(db: &DbIndex, t: &LuaType, keys: &Vec<String>) -> (r: Result<Vec<LuaType>, InferFailReason>)
    requires
        db.wf(),
    ensures
        match r {
            Ok(ts) => members_by_keys(db@, *t, texts(keys@)) == Ok::<Seq<LuaType>, InferFailReason>(ts@),
            Err(e) => members_by_keys(db@, *t, texts(keys@)) == Err::<Seq<LuaType>, InferFailReason>(e),
        },
{
    let ghost ks = texts(keys@);
    let mut ts: Vec<LuaType> = Vec::new();
    let mut i: usize = 0;
    assert(ks.subrange(0, 0) =~= Seq::<Seq<char>>::empty());
    while i < keys.len()
        invariant
            db.wf(),
            i <= keys@.len(),
            ks == texts(keys@),
            members_by_keys(db@, *t, ks.subrange(0, i as int)) == Ok::<Seq<LuaType>, InferFailReason>(ts@),
        decreases keys@.len() - i,
    {
        let ghost p = ks.subrange(0, i + 1);
        assert(p.drop_last() =~= ks.subrange(0, i as int));
        assert(p.last() == keys@[i as int]@);
        let x = match type_member(db, t, &keys[i]) {
            Ok(x) => x,
            Err(e) => {
                proof {
                    lemma_members_by_keys_err(db@, *t, ks, i as int, e);
                }
                return Err(e);
            },
        };
        ts.push(x);
        i = i + 1;
    }
    assert(ks.subrange(0, ks.len() as int) =~= ks);
    Ok(ts)
}

/// Whether `name` is the plain text `word`.
fn is_word(name: &String, word: &str) -> (r: bool)
    ensures
        r == (name@ == word@),
{
    *name == String::from_str(word)
}

/// The first of `modules` that is the file `m` (named `m` or `m.lua`).
pub open spec fn module_of(modules: Seq<FileReturn>, m: Seq<char>) -> Option<FileReturn>
    decreases modules.len(),
{
    if modules.len() == 0 {
        None
    } else if modules[0].name@ == m || modules[0].name@ == m + ".lua"@ {
        Some(modules[0])
    } else {
        module_of(modules.drop_first(), m)
    }
}

/// The module name of a call `require("m")`.
pub open spec fn required_module(c: LuaCallExpr) -> Option<Seq<char>> {
    match *c.prefix {
        LuaExpr::NameExpr(n) => if n.name@ == "require"@ && c.args@.len() == 1 {
            match c.args@[0] {
                LuaExpr::LiteralExpr(l) => match l.literal {
                    LuaLiteralToken::String(m) => Some(m@),
                    _ => None,
                },
                _ => None,
            }
        } else {
            None
        },
        _ => None,
    }
}

/// What a value of type `t` returns when called: the result of a doc
/// function or of a signature the database holds; `Unknown` otherwise.
pub open spec fn call_result(s: DbState, t: LuaType) -> LuaType {
    match t {
        LuaType::DocFunction(f) => f.ret,
        LuaType::Signature(id) => if s.signatures.contains_key(id) {
            s.signatures[id].ret
        } else {
            LuaType::Unknown
        },
        _ => LuaType::Unknown,
    }
}

/// The type a local declared with the type `decl` has once a value of type
/// `t` is assigned to it: a table value keeps the members of a declared type
/// that has members too (the intersection of the two, the value's first);
/// any other value has its own type.
pub open spec fn narrowed(decl: Option<LuaType>, t: LuaType) -> LuaType {
    match decl {
        Some(d) => if (t is TableConst || t is Object) && (lookup_owner_spec(d) is Some || d is Object) {
            LuaType::Intersection(Arc::new(LuaIntersectionType::More(t, Arc::new(LuaIntersectionType::Last(d)))))
        } else {
            t
        },
        None => t,
    }
}

/// The type a local declared with the type `decl` has once a value of type
/// `t` is assigned to it (see `narrowed`).
fn narrow(decl: Option<LuaType>, t: LuaType) -> (r: LuaType)
    ensures
        r == narrowed(decl, t),
{
    match decl {
        Some(d) => {
            let table_value = matches!(t, LuaType::TableConst(_)) || matches!(t, LuaType::Object(_));
            if table_value && (lookup_owner(&d).is_some() || matches!(d, LuaType::Object(_))) {
                LuaType::Intersection(Arc::new(LuaIntersectionType::More(t, Arc::new(LuaIntersectionType::Last(d)))))
            } else {
                t
            }
        },
        None => t,
    }
}

/// The type that `expr`, in `file`, has in the database `s`, looking at most
/// `fuel` expressions deep (an error when that is not enough).
///
/// A literal has its literal type, a table literal and a closure their own
/// types. A name has the type bound to the local it refers to (an error when
/// none is bound yet), or, once a value is assigned to that local before the
/// name, the type of the last such value as `narrowed` keeps it; a name that
/// is no local has the type of the global of that name. An index
/// has the type of the member its key names in the owner of the prefix's
/// type (`Unknown` when the key names no field or the prefix has no owner);
/// on a union, the member has the types it has in each type of the union. A
/// key `[e]` names the field that the string type of `e` holds, or each key
/// of the class `X` when `e` has the type `keyof X`, and the index then has
/// the join of their types. A key of type `string`, on a value whose owner has
/// no member keyed `[string]`, names each member written with a name or a
/// string, and the index has the join of their types and `nil`. A
/// call has the type its callee returns; `require("m")` has the type of the
/// first expression the file `m` returns.
pub open spec fn infer_expr_spec(
    s: DbState,
    modules: Seq<FileReturn>,
    file: FileId,
    expr: LuaExpr,
    fuel: nat,
) -> Result<LuaType, InferFailReason>
    decreases fuel, 1nat,
{
    if fuel == 0 {
        Err(InferFailReason::NoReason)
    } else {
        match expr {
            LuaExpr::LiteralExpr(l) => Ok(literal_type(l.literal)),
            LuaExpr::TableExpr(t) => Ok(LuaType::TableConst(InFiled { file_id: file, value: t.range })),
            LuaExpr::ClosureExpr(c) => Ok(LuaType::Signature(LuaSignatureId { file_id: file, position: c.position })),
            LuaExpr::ParenExpr(inner) => infer_expr_spec(s, modules, file, *inner, (fuel - 1) as nat),
            LuaExpr::NameExpr(n) => match nearest_decl(s, file, n.name@, n.position) {
                Some(id) => if s.decls[id].spec_is_local() || s.decls[id].spec_is_implicit_self() {
                    match last_assign(s.assigns, id, n.position) {
                        Some(v) => match infer_expr_spec(s, modules, file, v, (fuel - 1) as nat) {
                            Err(e) => Err(e),
                            Ok(t) => Ok(
                                narrowed(
                                    if s.types.contains_key(LuaTypeOwner::Decl(id)) {
                                        Some(s.types[LuaTypeOwner::Decl(id)].spec_as_type())
                                    } else {
                                        None
                                    },
                                    t,
                                ),
                            ),
                        },
                        None => if s.types.contains_key(LuaTypeOwner::Decl(id)) {
                            Ok(s.types[LuaTypeOwner::Decl(id)].spec_as_type())
                        } else {
                            Err(InferFailReason::UnResolveDeclType(id))
                        },
                    }
                } else {
                    global_type_spec(s, n.name@)
                },
                None => global_type_spec(s, n.name@),
            },
            LuaExpr::IndexExpr(ix) => match infer_expr_spec(s, modules, file, *ix.prefix, (fuel - 1) as nat) {
                Err(e) => Err(e),
                Ok(t) => match ix.key {
                    LuaIndexKey::Expr(k) => match infer_expr_spec(s, modules, file, *k, (fuel - 1) as nat) {
                        Err(e) => Err(e),
                        Ok(kt) => if kt is String && first_member_with_key(s, owner_ids(s, t), "[string]"@) is None {
                            match members_by_keys(s, t, named_member_keys(s, owner_ids(s, t))) {
                                Ok(ts) => Ok(join_types(ts.push(LuaType::Nil))),
                                Err(e) => Err(e),
                            }
                        } else {
                            match key_names_of(s, kt) {
                                None => Ok(LuaType::Unknown),
                                Some(keys) => match members_by_keys(s, t, keys) {
                                    Ok(ts) => Ok(join_types(ts)),
                                    Err(e) => Err(e),
                                },
                            }
                        },
                    },
                    _ => match key_text_spec(ix.key) {
                        None => Ok(LuaType::Unknown),
                        Some(k) => type_member_spec(s, t, k),
                    },
                },
            },
            LuaExpr::CallExpr(c) => infer_call_spec(s, modules, file, c, (fuel - 1) as nat),
        }
    }
}

/// The type the call `c` gives (see `infer_expr_spec`).
pub open spec fn infer_call_spec(
    s: DbState,
    modules: Seq<FileReturn>,
    file: FileId,
    c: LuaCallExpr,
    fuel: nat,
) -> Result<LuaType, InferFailReason>
    decreases fuel, 0nat,
{
    if fuel == 0 {
        Err(InferFailReason::NoReason)
    } else {
        match required_module(c) {
            Some(m) => match module_of(modules, m) {
                Some(fr) => match fr.expr {
                    Some(e) => infer_expr_spec(s, modules, fr.file_id, e, (fuel - 1) as nat),
                    None => Ok(LuaType::Unknown),
                },
                None => Ok(LuaType::Unknown),
            },
            None => match infer_expr_spec(s, modules, file, *c.prefix, (fuel - 1) as nat) {
                Err(e) => Err(e),
                Ok(t) => Ok(call_result(s, t)),
            },
        }
    }
}

/// Infers the type of `expr` in `file_id` from what the database holds.
pub fn infer_expr(db: &DbIndex, modules: &Vec<FileReturn>, file_id: FileId, expr: &LuaExpr, fuel: usize) -> (r: Result<LuaType, InferFailReason>)
    requires
        db.wf(),
    ensures
        r == infer_expr_spec(db@, modules@, file_id, *expr, fuel as nat),
    decreases fuel, 1nat,
{
    if fuel == 0 {
        return Err(InferFailReason::NoReason);
    }
    match expr {
        LuaExpr::LiteralExpr(l) => Ok(
            match &l.literal {
                LuaLiteralToken::Integer(i) => LuaType::IntegerConst(*i),
                LuaLiteralToken::String(v) => LuaType::StringConst(v.clone()),
                LuaLiteralToken::Float(f) => LuaType::FloatConst(*f),
                LuaLiteralToken::Bool(b) => LuaType::BooleanConst(*b),
                LuaLiteralToken::Nil => LuaType::Nil,
            },
        ),
        LuaExpr::TableExpr(t) => Ok(LuaType::TableConst(InFiled::new(file_id, t.range))),
        LuaExpr::ClosureExpr(c) => Ok(LuaType::Signature(LuaSignatureId { file_id, position: c.position })),
        LuaExpr::ParenExpr(inner) => infer_expr(db, modules, file_id, inner, fuel - 1),
        LuaExpr::NameExpr(n) => {
            match db.get_decl_index().find_local_decl(file_id, n.name.as_str(), n.position) {
                Some(d) => {
                    proof {
                        lemma_nearest_decl_unique(db, d.id, file_id, n.name@, n.position);
                    }
                    if d.is_local() || d.is_implicit_self() {
                        let declared = match db.get_type_index().get_type_cache(&LuaTypeOwner::from_decl(d.id)) {
                            Some(c) => Some(c.as_type().clone()),
                            None => None,
                        };
                        // After an assignment the name has the type of the value assigned.
                        return match db.get_flow_index().get_last_assign(d.id, n.position) {
                            Some(v) => {
                                let t = infer_expr(db, modules, file_id, v, fuel - 1)?;
                                Ok(narrow(declared, t))
                            },
                            None => match declared {
                                Some(t) => Ok(t),
                                None => Err(InferFailReason::UnResolveDeclType(d.id)),
                            },
                        };
                    }
                },
                None => {
                    proof {
                        if exists|id: LuaDeclId| is_nearest_decl(db@.decls, id, file_id, n.name@, n.position) {
                            let id = choose|id: LuaDeclId| is_nearest_decl(db@.decls, id, file_id, n.name@, n.position);
                            assert(db@.decls.contains_key(id));
                        }
                    }
                },
            }
            global_type(db, &n.name)
        },
        LuaExpr::IndexExpr(ix) => {
            let prefix_type = infer_expr(db, modules, file_id, &ix.prefix, fuel - 1)?;
            match &ix.key {
                // A key `[e]` names the members that the type of `e` names.
                LuaIndexKey::Expr(k) => {
                    let key_type = infer_expr(db, modules, file_id, k, fuel - 1)?;
                    if let LuaType::String = key_type {
                        let ids = owner_member_ids(db, &prefix_type);
                        let bracket = String::from_str("[string]");
                        proof {
                            reveal_strlit("[string]");
                        }
                        if !has_member_key(db, &ids, &bracket) {
                            // Any field written with a name or a string, or none.
                            let keys = named_keys(db, &ids);
                            let mut ts = types_by_keys(db, &prefix_type, &keys)?;
                            ts.push(LuaType::Nil);
                            return Ok(join_types_of(&ts));
                        }
                    }
                    let keys = match key_names(db, &key_type) {
                        Some(keys) => keys,
                        None => return Ok(LuaType::Unknown),
                    };
                    let ts = types_by_keys(db, &prefix_type, &keys)?;
                    Ok(join_types_of(&ts))
                },
                other => match key_text(other) {
                    Some(k) => type_member(db, &prefix_type, &k),
                    None => Ok(LuaType::Unknown),
                },
            }
        },
        LuaExpr::CallExpr(call) => infer_call(db, modules, file_id, call, fuel - 1),
    }
}

/// The type a call gives: for `require("m")` what the file `m` returns, for
/// a function what it is declared to return, and `Unknown` otherwise.
fn infer_call(db: &DbIndex, modules: &Vec<FileReturn>, file_id: FileId, call: &LuaCallExpr, fuel: usize) -> (r: Result<LuaType, InferFailReason>)
    requires
        db.wf(),
    ensures
        r == infer_call_spec(db@, modules@, file_id, *call, fuel as nat),
    decreases fuel, 0nat,
{
    if fuel == 0 {
        return Err(InferFailReason::NoReason);
    }
    if let LuaExpr::NameExpr(n) = &*call.prefix {
        if is_word(&n.name, "require") && call.args.len() == 1 {
            if let LuaExpr::LiteralExpr(l) = &call.args[0] {
                if let LuaLiteralToken::String(m) = &l.literal {
                    let with_ext = m.clone().concat(".lua");
                    let mut i: usize = 0;
                    assert(modules@.subrange(0, modules@.len() as int) =~= modules@);
                    while i < modules.len()
                        invariant
                            db.wf(),
                            i <= modules@.len(),
                            fuel > 0,
                            with_ext@ == m@ + ".lua"@,
                            required_module(*call) == Some(m@),
                            module_of(modules@, m@) == module_of(modules@.subrange(i as int, modules@.len() as int), m@),
                        decreases modules@.len() - i,
                    {
                        let ghost rest = modules@.subrange(i as int, modules@.len() as int);
                        assert(rest.drop_first() =~= modules@.subrange(i + 1, modules@.len() as int));
                        let fr = &modules[i];
                        if fr.name == *m || fr.name == with_ext {
                            return match &fr.expr {
                                Some(e) => infer_expr(db, modules, fr.file_id, e, fuel - 1),
                                None => Ok(LuaType::Unknown),
                            };
                        }
                        i = i + 1;
                    }
                    return Ok(LuaType::Unknown);
                }
            }
        }
    }
    let callee = infer_expr(db, modules, file_id, &call.prefix, fuel - 1)?;
    match as_doc_function_type(db, &callee) {
        Ok(Some(f)) => Ok(f.get_ret().clone()),
        _ => Ok(LuaType::Unknown),
    }
}

/// The name of the first `---@class` tag of `tags`.
pub open spec fn first_class_tag(tags: Seq<LuaDocTag>) -> Option<Seq<char>>
    decreases tags.len(),
{
    if tags.len() == 0 {
        None
    } else {
        match tags[0] {
            LuaDocTag::Class(name, _, _) => Some(name@),
            _ => first_class_tag(tags.drop_first()),
        }
    }
}

/// The doc type of the first `---@type` tag of `tags`.
pub open spec fn first_type_tag(tags: Seq<LuaDocTag>) -> Option<LuaDocTypeRef>
    decreases tags.len(),
{
    if tags.len() == 0 {
        None
    } else {
        match tags[0] {
            LuaDocTag::Type(t) => Some(t),
            _ => first_type_tag(tags.drop_first()),
        }
    }
}

/// The doc type of the first `---@return` tag of `tags`.
pub open spec fn first_return_tag(tags: Seq<LuaDocTag>) -> Option<LuaDocTypeRef>
    decreases tags.len(),
{
    if tags.len() == 0 {
        None
    } else {
        match tags[0] {
            LuaDocTag::Return(t) => Some(t),
            _ => first_return_tag(tags.drop_first()),
        }
    }
}

/// The type the first `---@return` tag of `tags` names; `Unknown` without one.
fn return_type_of(tags: &Vec<LuaDocTag>) -> (r: LuaType)
    ensures
        match first_return_tag(tags@) {
            Some(t) => is_doc_type(t.name@, r),
            None => r == LuaType::Unknown,
        },
{
    let mut i: usize = 0;
    assert(tags@.subrange(0, tags@.len() as int) =~= tags@);
    while i < tags.len()
        invariant
            i <= tags@.len(),
            first_return_tag(tags@) == first_return_tag(tags@.subrange(i as int, tags@.len() as int)),
        decreases tags@.len() - i,
    {
        let ghost rest = tags@.subrange(i as int, tags@.len() as int);
        assert(rest.drop_first() =~= tags@.subrange(i + 1, tags@.len() as int));
        assert(rest[0] == tags@[i as int]);
        if let LuaDocTag::Return(t) = &tags[i] {
            return doc_type_of(t);
        }
        i = i + 1;
    }
    LuaType::Unknown
}

/// The class named by the first `---@class` tag, the type of the first
/// `---@type` tag; the fields of `---@field` tags become members of the class
/// they follow.
pub fn apply_doc_tags(db: &mut DbIndex, file_id: FileId, tags: &Vec<LuaDocTag>) -> (r: (Option<String>, Option<LuaType>))
    requires
        old(db).wf(),
    ensures
        final(db).wf(),
        keys_grow(old(db)@, final(db)@),
        match r.0 {
            Some(c) => first_class_tag(tags@) == Some(c@),
            None => first_class_tag(tags@) is None,
        },
        match first_type_tag(tags@) {
            Some(t) => r.1 matches Some(x) && is_doc_type(t.name@, x),
            None => r.1 is None,
        },
{
    let mut class: Option<String> = None;
    let mut current: Option<String> = None;
    let mut typ: Option<LuaType> = None;
    let mut i: usize = 0;
    assert(tags@.subrange(0, tags@.len() as int) =~= tags@);
    while i < tags.len()
        invariant
            db.wf(),
            keys_grow(old(db)@, db@),
            i <= tags@.len(),
            match class {
                Some(c) => first_class_tag(tags@) == Some(c@),
                None => first_class_tag(tags@) == first_class_tag(tags@.subrange(i as int, tags@.len() as int)),
            },
            match typ {
                Some(x) => first_type_tag(tags@) matches Some(t) && is_doc_type(t.name@, x),
                None => first_type_tag(tags@) == first_type_tag(tags@.subrange(i as int, tags@.len() as int)),
            },
        decreases tags@.len() - i,
    {
        let ghost rest = tags@.subrange(i as int, tags@.len() as int);
        assert(rest.drop_first() =~= tags@.subrange(i + 1, tags@.len() as int));
        assert(rest[0] == tags@[i as int]);
        match &tags[i] {
            LuaDocTag::Class(name, params, supers) => {
                if class.is_none() {
                    class = Some(name.clone());
                }
                current = Some(name.clone());
                if params.len() > 0 {
                    let mut gps: Vec<GenericParam> = Vec::new();
                    let mut k: usize = 0;
                    while k < params.len()
                        invariant
                            k <= params@.len(),
                        decreases params@.len() - k,
                    {
                        gps.push(GenericParam { name: params[k].clone(), type_constraint: None });
                        k = k + 1;
                    }
                    db.type_index.add_generic_params(name.clone(), gps);
                }
                if supers.len() > 0 {
                    let mut ts: Vec<LuaType> = Vec::new();
                    let mut k: usize = 0;
                    while k < supers.len()
                        invariant
                            k <= supers@.len(),
                        decreases supers@.len() - k,
                    {
                        ts.push(doc_type_of(&supers[k]));
                        k = k + 1;
                    }
                    db.class_index.set_supers(name.clone(), ts);
                }
            },
            LuaDocTag::Type(t) => {
                if typ.is_none() {
                    typ = Some(doc_type_of(t));
                }
            },
            LuaDocTag::Field(name, position, t) => {
                if let Some(c) = &current {
                    let id = LuaMemberId { file_id, position: *position };
                    db.member_index.add_member(LuaMember { id, key: name.clone(), global_id: None });
                    let ghost s1 = db@;
                    let owner = LuaMemberOwner::Type(LuaTypeDeclId { name: c.clone() });
                    let ghost o = owner;
                    add_member(db, owner, id);
                    proof {
                        lemma_add_member_keeps_keys(s1, o, id);
                    }
                    let ghost s2 = db@;
                    let tc = LuaTypeCache::DocType(doc_type_of(t));
                    let ghost c2 = tc;
                    bind_type(db, LuaTypeOwner::from_member(id), tc);
                    proof {
                        lemma_bind_keeps_keys(s2, LuaTypeOwner::Member(id), c2);
                    }
                }
            },
            LuaDocTag::Return(_) => {},
        }
        i = i + 1;
    }
    (class, typ)
}

/// The table literal that initialized the local `id`: the last one recorded
/// for it, if any.
pub open spec fn local_table_spec(tables: Seq<(LuaDeclId, TextRange)>, id: LuaDeclId) -> Option<TextRange>
    decreases tables.len(),
{
    if tables.len() == 0 {
        None
    } else if tables.last().0 == id {
        Some(tables.last().1)
    } else {
        local_table_spec(tables.drop_last(), id)
    }
}

/// The table literal that initialized the local `id`, if one did.
fn local_table(tables: &LocalTables, id: LuaDeclId) -> (r: Option<TextRange>)
    ensures
        r == local_table_spec(tables.tables@, id),
{
    let mut found: Option<TextRange> = None;
    let mut i: usize = 0;
    assert(tables.tables@.subrange(0, 0) =~= Seq::<(LuaDeclId, TextRange)>::empty());
    while i < tables.tables.len()
        invariant
            i <= tables.tables@.len(),
            found == local_table_spec(tables.tables@.subrange(0, i as int), id),
        decreases tables.tables@.len() - i,
    {
        let ghost p = tables.tables@.subrange(0, i + 1);
        assert(p.drop_last() =~= tables.tables@.subrange(0, i as int));
        if tables.tables[i].0 == id {
            found = Some(tables.tables[i].1);
        }
        i = i + 1;
    }
    assert(tables.tables@.subrange(0, tables.tables@.len() as int) =~= tables.tables@);
    found
}

/// The first declaration in `ids` that lies in `file` and has a type.
pub open spec fn first_typed_in_file(s: DbState, file: FileId, ids: Seq<LuaDeclId>) -> Option<LuaDeclId>
    decreases ids.len(),
{
    if ids.len() == 0 {
        None
    } else if ids[0].file_id == file && s.types.contains_key(LuaTypeOwner::Decl(ids[0])) {
        Some(ids[0])
    } else {
        first_typed_in_file(s, file, ids.drop_first())
    }
}

/// The owner that the first typed declaration of the global `name` in
/// `file` resolves to.
pub open spec fn file_global_owner_spec(s: DbState, file: FileId, name: Seq<char>) -> Option<LuaMemberOwner> {
    if !s.globals.contains_key(name) {
        None
    } else {
        match first_typed_in_file(s, file, s.globals[name]) {
            Some(id) => owner_id_spec(s, LuaTypeOwner::Decl(id)),
            None => None,
        }
    }
}

/// The owner of the first declaration of the global `name` in `file_id` that
/// has a type, if that type resolves to one.
fn file_global_owner(db: &DbIndex, file_id: FileId, name: &String) -> (r: Option<LuaMemberOwner>)
    requires
        db.wf(),
    ensures
        r == file_global_owner_spec(db@, file_id, name@),
{
    let ids = match db.get_global_index().get_global_decl_ids(name) {
        Some(ids) => ids,
        None => return None,
    };
    let mut i: usize = 0;
    assert(ids@.subrange(0, ids@.len() as int) =~= ids@);
    while i < ids.len()
        invariant
            db.wf(),
            i <= ids@.len(),
            db@.globals.contains_key(name@),
            ids@ == db@.globals[name@],
            first_typed_in_file(db@, file_id, ids@) == first_typed_in_file(
                db@,
                file_id,
                ids@.subrange(i as int, ids@.len() as int),
            ),
        decreases ids@.len() - i,
    {
        let ghost rest = ids@.subrange(i as int, ids@.len() as int);
        assert(rest.drop_first() =~= ids@.subrange(i + 1, ids@.len() as int));
        assert(rest[0] == ids@[i as int]);
        let id = ids[i];
        if id.file_id == file_id {
            if db.get_type_index().get_type_cache(&LuaTypeOwner::from_decl(id)).is_some() {
                return get_owner_id(db, &LuaTypeOwner::from_decl(id));
            }
        }
        i = i + 1;
    }
    None
}

/// The key of the owner of a member written `prefix.key`, and the global
/// path that names the member when the prefix is a global (see
/// `member_owner`).
pub open spec fn member_owner_spec(
    s: DbState,
    file: FileId,
    prefix: LuaExpr,
    is_method: bool,
    self_owner: Option<LuaMemberOwner>,
    tables: Seq<(LuaDeclId, TextRange)>,
) -> (OwnerKey, Option<Seq<char>>)
    decreases prefix,
{
    match prefix {
        LuaExpr::ParenExpr(inner) => member_owner_spec(s, file, *inner, is_method, self_owner, tables),
        LuaExpr::NameExpr(n) => {
            let global = if prefix_is_doc_annotated_global_spec(s, file, prefix) && file_global_owner_spec(
                s,
                file,
                n.name@,
            ) is Some {
                (file_global_owner_spec(s, file, n.name@)->0@, Some(n.name@))
            } else {
                (OwnerKey::GlobalPath(n.name@), Some(n.name@))
            };
            match nearest_decl(s, file, n.name@, n.position) {
                Some(id) => if s.decls[id].spec_is_implicit_self() {
                    match self_owner {
                        Some(o) => (o@, None),
                        None => (OwnerKey::LocalUnresolve, None),
                    }
                } else if s.decls[id].spec_is_local() {
                    let from_table = match local_table_spec(tables, id) {
                        Some(r) => OwnerKey::Element(InFiled { file_id: file, value: r }),
                        None => OwnerKey::LocalUnresolve,
                    };
                    let typ = if s.types.contains_key(LuaTypeOwner::Decl(id)) {
                        Some(s.types[LuaTypeOwner::Decl(id)])
                    } else {
                        None
                    };
                    match typ {
                        Some(LuaTypeCache::DocType(LuaType::Def(x))) => (OwnerKey::Type(x.name@), None),
                        Some(LuaTypeCache::DocType(LuaType::Ref(x))) => if is_method {
                            (OwnerKey::Type(x.name@), None)
                        } else {
                            (from_table, None)
                        },
                        _ => (from_table, None),
                    }
                } else {
                    global
                },
                None => global,
            }
        },
        LuaExpr::IndexExpr(_) => match access_path(prefix) {
            Some(p) => (OwnerKey::GlobalPath(p), Some(p)),
            None => (OwnerKey::LocalUnresolve, None),
        },
        _ => (OwnerKey::LocalUnresolve, None),
    }
}

/// Who owns a member written as `prefix.key`, and the global path that names
/// the member when the prefix is a global.
///
/// On a local declared as a class (`---@class`), the class. On a local typed
/// with `---@type X`, the class `X` for a method definition; a plain field
/// goes to the table literal the local started as. On another local, that
/// table literal. On the implicit `self` of a method, the method's owner. On
/// a global typed with a doc comment in this file, the owner its type
/// resolves to; on any other global, the global's path. A prefix in
/// parentheses is taken as the expression inside.
pub fn member_owner(
    db: &DbIndex,
    file_id: FileId,
    prefix: &LuaExpr,
    is_method: bool,
    self_owner: &Option<LuaMemberOwner>,
    tables: &LocalTables,
) -> (r: (LuaMemberOwner, Option<String>))
    requires
        db.wf(),
    ensures
        r.0@ == member_owner_spec(db@, file_id, *prefix, is_method, *self_owner, tables.tables@).0,
        match r.1 {
            Some(p) => member_owner_spec(db@, file_id, *prefix, is_method, *self_owner, tables.tables@).1 == Some(p@),
            None => member_owner_spec(db@, file_id, *prefix, is_method, *self_owner, tables.tables@).1 is None,
        },
    decreases prefix,
{
    match prefix {
        LuaExpr::ParenExpr(inner) => member_owner(db, file_id, &**inner, is_method, self_owner, tables),
        LuaExpr::NameExpr(n) => {
            match db.get_decl_index().find_local_decl(file_id, n.name.as_str(), n.position) {
                Some(d) => {
                    proof {
                        lemma_nearest_decl_unique(db, d.id, file_id, n.name@, n.position);
                    }
                    if d.is_implicit_self() {
                        return match self_owner {
                            Some(o) => (o.clone(), None),
                            None => (LuaMemberOwner::LocalUnresolve, None),
                        };
                    }
                    if d.is_local() {
                        let from_table = match local_table(tables, d.id) {
                            Some(r) => LuaMemberOwner::Element(InFiled::new(file_id, r)),
                            None => LuaMemberOwner::LocalUnresolve,
                        };
                        return match db.get_type_index().get_type_cache(&LuaTypeOwner::from_decl(d.id)) {
                            Some(LuaTypeCache::DocType(LuaType::Def(x))) => (LuaMemberOwner::Type(x.clone()), None),
                            Some(LuaTypeCache::DocType(LuaType::Ref(x))) => if is_method {
                                (LuaMemberOwner::Type(x.clone()), None)
                            } else {
                                (from_table, None)
                            },
                            _ => (from_table, None),
                        };
                    }
                },
                None => {
                    proof {
                        if exists|id: LuaDeclId| is_nearest_decl(db@.decls, id, file_id, n.name@, n.position) {
                            let id = choose|id: LuaDeclId| is_nearest_decl(db@.decls, id, file_id, n.name@, n.position);
                            assert(db@.decls.contains_key(id));
                        }
                    }
                },
            }
            let path = n.name.clone();
            if prefix_is_doc_annotated_global(db, file_id, prefix) {
                if let Some(o) = file_global_owner(db, file_id, &n.name) {
                    return (o, Some(path));
                }
            }
            (LuaMemberOwner::GlobalPath(GlobalId { path: n.name.clone() }), Some(path))
        },
        LuaExpr::IndexExpr(_) => match expr_access_path(prefix) {
            Some(p) => (LuaMemberOwner::GlobalPath(GlobalId { path: p.clone() }), Some(p)),
            None => (LuaMemberOwner::LocalUnresolve, None),
        },
        _ => (LuaMemberOwner::LocalUnresolve, None),
    }
}

/// The declarations of global names `g` once `id` is added to those of
/// `name` (kept once).
pub open spec fn globals_with(g: Map<Seq<char>, Seq<LuaDeclId>>, name: Seq<char>, id: LuaDeclId) -> Map<
    Seq<char>,
    Seq<LuaDeclId>,
> {
    g.insert(
        name,
        if g.contains_key(name) {
            if g[name].contains(id) {
                g[name]
            } else {
                g[name].push(id)
            }
        } else {
            seq![id]
        },
    )
}

/// `t` keeps every declaration, signature and member of `s`, and adds to
/// them only.
pub open spec fn keys_grow(s: DbState, t: DbState) -> bool {
    &&& forall|id: LuaDeclId| #[trigger] s.decls.contains_key(id) ==> t.decls.contains_key(id)
    &&& forall|id: LuaSignatureId| #[trigger] s.signatures.contains_key(id) ==> t.signatures.contains_key(id)
    &&& forall|id: LuaMemberId| #[trigger] s.member.members.contains_key(id) ==> t.member.members.contains_key(id)
    &&& forall|o: LuaTypeOwner| #[trigger] s.types.contains_key(o) ==> t.types.contains_key(o)
    &&& forall|name: Seq<char>, id: LuaDeclId|
        #[trigger] global_has(s, name, id) ==> global_has(t, name, id)
}

/// `id` is one of the declarations of the global `name` in `s`.
pub open spec fn global_has(s: DbState, name: Seq<char>, id: LuaDeclId) -> bool {
    s.globals.contains_key(name) && s.globals[name].contains(id)
}

/// The position of the first of `ms` recorded for `file`, or -1.
pub open spec fn module_index(ms: Seq<FileReturn>, file: FileId) -> int
    decreases ms.len(),
{
    if ms.len() == 0 {
        -1
    } else if ms[0].file_id == file {
        0
    } else {
        let r = module_index(ms.drop_first(), file);
        if r < 0 {
            -1
        } else {
            r + 1
        }
    }
}

/// The database once the doc types of a declaration's tags are bound to
/// `id`: `Def` of its class, else the type of its `---@type` tag.
pub open spec fn doc_bound(s: DbState, id: LuaDeclId, class: Option<String>, typ: Option<LuaType>) -> DbState {
    match class {
        Some(c) => bind_state(s, LuaTypeOwner::Decl(id), LuaTypeCache::DocType(LuaType::Def(LuaTypeDeclId { name: c }))),
        None => match typ {
            Some(t) => bind_state(s, LuaTypeOwner::Decl(id), LuaTypeCache::DocType(t)),
            None => s,
        },
    }
}

/// Binding a type keeps the declarations and the signatures.
proof fn lemma_bind_keeps_keys(s: DbState, owner: LuaTypeOwner, cache: LuaTypeCache)
    ensures
        bind_state(s, owner, cache).decls == s.decls,
        bind_state(s, owner, cache).signatures == s.signatures,
        bind_state(s, owner, cache).member.members == s.member.members,
        bind_state(s, owner, cache).globals == s.globals,
        bind_state(s, owner, cache).types.contains_key(owner),
        forall|o: LuaTypeOwner| #[trigger] s.types.contains_key(o) ==> bind_state(s, owner, cache).types.contains_key(o),
{
    if !s.types.contains_key(owner) {
        crate::laws::lemma_migrate_grows(
            crate::common::with_type(s, owner, crate::common::widened_cache(s, owner, cache)),
            owner,
        );
    } else {
        crate::laws::lemma_merge_def_grows(s, s.types[owner].spec_as_type(), cache.spec_as_type(), 0);
    }
}

/// Adding a member keeps the declarations and the signatures.
proof fn lemma_add_member_keeps_keys(s: DbState, o: LuaMemberOwner, m: LuaMemberId)
    ensures
        add_member_state(s, o, m).decls == s.decls,
        add_member_state(s, o, m).signatures == s.signatures,
        add_member_state(s, o, m).member.members == s.member.members,
        add_member_state(s, o, m).types == s.types,
        add_member_state(s, o, m).globals == s.globals,
{
    crate::laws::lemma_add_member_grows(s, o, m);
}

pub proof fn lemma_grow_trans(a: DbState, b: DbState, c: DbState)
    requires
        keys_grow(a, b),
        keys_grow(b, c),
    ensures
        keys_grow(a, c),
{
}

/// The name `n` assigned to in `file` is bound in `s`: a global of that
/// name is declared at its position, or a declaration of the file at or
/// before it (the local it refers to) is there.
pub open spec fn name_bound(s: DbState, file: FileId, n: LuaNameExpr) -> bool {
    ||| global_has(s, n.name@, LuaDeclId { file_id: file, position: n.position })
    ||| exists|d: LuaDeclId| #[trigger] s.decls.contains_key(d) && d.file_id == file && d.position <= n.position
}

/// The assignment target `e` is declared in the database `s`: a name is
/// bound (`name_bound`), and a field `a.b` or `a["b"]` has the member
/// recorded at its position.
pub open spec fn target_declared(s: DbState, file: FileId, e: LuaExpr) -> bool {
    match e {
        LuaExpr::NameExpr(n) => name_bound(s, file, n),
        LuaExpr::IndexExpr(ix) => key_text_spec(ix.key) is Some ==> s.member.members.contains_key(
            LuaMemberId { file_id: file, position: ix.position },
        ),
        _ => true,
    }
}

/// What a statement declares is there in the database `s`: the names of a
/// `local` statement, the name of a `local function`, the member of each
/// field assigned to, and the member of a function defined as a field.
pub open spec fn stat_declares(s: DbState, file: FileId, stat: LuaStat) -> bool {
    match stat {
        LuaStat::AssignStat { vars, exprs: _, tags: _ } => forall|i: int|
            0 <= i < vars@.len() ==> target_declared(s, file, #[trigger] vars@[i]),
        LuaStat::FuncStat { name, closure: _, tags: _ } => target_declared(s, file, name),
        LuaStat::LocalStat { names, exprs: _, tags } => (forall|i: int|
            0 <= i < names@.len() ==> s.decls.contains_key(
                LuaDeclId { file_id: file, position: (#[trigger] names@[i]).position },
            )) && (names@.len() > 0 && (first_class_tag(tags@) is Some || first_type_tag(tags@) is Some)
            ==> s.types.contains_key(LuaTypeOwner::Decl(LuaDeclId { file_id: file, position: names@[0].position }))),
        LuaStat::LocalFuncStat { name, closure: _, tags: _ } => s.decls.contains_key(
            LuaDeclId { file_id: file, position: name.position },
        ),
        _ => true,
    }
}

pub proof fn lemma_stat_declares_grows(s: DbState, t: DbState, file: FileId, stat: LuaStat)
    requires
        stat_declares(s, file, stat),
        keys_grow(s, t),
    ensures
        stat_declares(t, file, stat),
{
    match stat {
        LuaStat::AssignStat { vars, exprs: _, tags: _ } => {
            assert forall|i: int| 0 <= i < vars@.len() implies target_declared(t, file, #[trigger] vars@[i]) by {
                assert(target_declared(s, file, vars@[i]));
            }
        },
        LuaStat::LocalStat { names, exprs: _, tags: _ } => {
            if names@.len() > 0 {
                assert(s.types.contains_key(LuaTypeOwner::Decl(LuaDeclId { file_id: file, position: names@[0].position })) ==> t.types.contains_key(LuaTypeOwner::Decl(LuaDeclId { file_id: file, position: names@[0].position })));
            }
            assert forall|i: int| 0 <= i < names@.len() implies t.decls.contains_key(
                LuaDeclId { file_id: file, position: (#[trigger] names@[i]).position },
            ) by {
                assert(s.decls.contains_key(LuaDeclId { file_id: file, position: names@[i].position }));
            }
        },
        _ => {},
    }
}

/// `r` is the expression `e` as declaring it gives it back, `fuel` levels
/// deep: a table literal without its fields, a closure without its
/// parameters and body, and the parts of parentheses, indexes and calls
/// declared in turn; anything else as it is.
pub open spec fn declared_form(e: LuaExpr, r: LuaExpr, fuel: nat) -> bool
    decreases fuel,
{
    if fuel == 0 {
        r == e
    } else {
        match e {
            LuaExpr::TableExpr(t) => r matches LuaExpr::TableExpr(u) && u.range == t.range && u.fields@.len() == 0,
            LuaExpr::ClosureExpr(c) => r matches LuaExpr::ClosureExpr(d) && d.position == c.position && d.end == c.end
                && d.params@.len() == 0 && d.block@.len() == 0,
            LuaExpr::ParenExpr(inner) => r matches LuaExpr::ParenExpr(ri) && declared_form(
                *inner,
                *ri,
                (fuel - 1) as nat,
            ),
            LuaExpr::IndexExpr(ix) => r matches LuaExpr::IndexExpr(rx) && declared_form(
                *ix.prefix,
                *rx.prefix,
                (fuel - 1) as nat,
            ) && rx.colon == ix.colon && rx.position == ix.position && match ix.key {
                LuaIndexKey::Expr(k) => rx.key matches LuaIndexKey::Expr(rk) && declared_form(
                    *k,
                    *rk,
                    (fuel - 1) as nat,
                ),
                _ => rx.key == ix.key,
            },
            LuaExpr::CallExpr(c) => r matches LuaExpr::CallExpr(rc) && declared_form(
                *c.prefix,
                *rc.prefix,
                (fuel - 1) as nat,
            ) && rc.args@.len() == c.args@.len() && (forall|i: int|
                0 <= i < c.args@.len() ==> declared_form(
                    #[trigger] c.args@[i],
                    rc.args@[i],
                    (fuel - 1) as nat,
                )) && rc.generic_types == c.generic_types && rc.position == c.position,
            _ => r == e,
        }
    }
}

/// The analysis of one workspace: the database, the types still to infer,
/// and what each file modules.
pub struct Analyzer {
    pub db: DbIndex,
    pub pending: Vec<Pending>,
    pub pending_fields: Vec<PendingField>,
    pub modules: Vec<FileReturn>,
}

impl Analyzer {
    pub open spec fn wf(&self) -> bool {
        self.db.wf()
    }

    pub fn new() -> (r: Self)
        ensures
            r.wf(),
    {
        Analyzer { db: DbIndex::new(), pending: Vec::new(), pending_fields: Vec::new(), modules: Vec::new() }
    }

    /// Records the member written as `prefix.key` at `position`, with its
    /// owner, and modules its id.
    fn declare_member(
        &mut self,
        file_id: FileId,
        prefix: &LuaExpr,
        key: String,
        position: u32,
        is_method: bool,
        self_owner: &Option<LuaMemberOwner>,
        tables: &LocalTables,
    ) -> (r: (LuaMemberId, LuaMemberOwner))
        requires
            old(self).wf(),
        ensures
            final(self).wf(),
            r.0 == (LuaMemberId { file_id, position }),
            r.1@ == member_owner_spec(old(self).db@, file_id, *prefix, is_method, *self_owner, tables.tables@).0,
            final(self).db@.member.members.contains_key(r.0),
            final(self).db@.member.members[r.0].id == r.0,
            final(self).db@.member.members[r.0].key == key,
            match member_owner_spec(old(self).db@, file_id, *prefix, is_method, *self_owner, tables.tables@).1 {
                Some(p) => final(self).db@.member.members[r.0].global_id matches Some(g) && g.path@ == p + "."@
                    + key@,
                None => final(self).db@.member.members[r.0].global_id is None,
            },
            ({
                let s1 = with_members(
                    old(self).db@,
                    MemberState {
                        members: old(self).db@.member.members.insert(r.0, final(self).db@.member.members[r.0]),
                        ..old(self).db@.member
                    },
                );
                final(self).db@ == if r.1 is LocalUnresolve {
                    s1
                } else {
                    add_member_state(s1, r.1, r.0)
                }
            }),
            final(self).pending == old(self).pending,
            final(self).pending_fields == old(self).pending_fields,
            final(self).modules == old(self).modules,
            keys_grow(old(self).db@, final(self).db@),
    {
        let (owner, path) = member_owner(&self.db, file_id, prefix, is_method, self_owner, tables);
        let global_id = match path {
            Some(p) => Some(GlobalId { path: p.concat(".").concat(key.as_str()) }),
            None => None,
        };
        let id = LuaMemberId { file_id, position };
        self.db.member_index.add_member(LuaMember { id, key, global_id });
        let ghost s1 = self.db@;
        match owner {
            LuaMemberOwner::LocalUnresolve => {},
            _ => {
                add_member(&mut self.db, owner.clone(), id);
                proof {
                    lemma_add_member_keeps_keys(s1, owner, id);
                }
            },
        }
        (id, owner)
    }

    /// Declares a new global `name` at `position` and modules its id.
    fn declare_global(&mut self, file_id: FileId, name: &String, position: u32) -> (r: LuaDeclId)
        requires
            old(self).wf(),
        ensures
            final(self).wf(),
            r == (LuaDeclId { file_id, position }),
            keys_grow(old(self).db@, final(self).db@),
            global_has(final(self).db@, name@, r),
            final(self).db@ == (DbState {
                decls: old(self).db@.decls.insert(
                    r,
                    LuaDecl { id: r, name: *name, kind: LuaDeclKind::Global, scope_end: u32::MAX },
                ),
                globals: globals_with(old(self).db@.globals, name@, r),
                ..old(self).db@
            }),
            final(self).pending == old(self).pending,
            final(self).pending_fields == old(self).pending_fields,
            final(self).modules == old(self).modules,
    {
        let id = LuaDeclId { file_id, position };
        self.db.decl_index.add_decl(LuaDecl { id, name: name.clone(), kind: LuaDeclKind::Global, scope_end: u32::MAX });
        self.db.global_index.add_global_decl(name.as_str(), id);
        proof {
            let g0 = old(self).db@.globals;
            let g1 = self.db@.globals;
            assert(g1 == globals_with(g0, name@, id));
            assert forall|nm: Seq<char>, x: LuaDeclId| #[trigger] global_has(old(self).db@, nm, x) implies global_has(
                self.db@,
                nm,
                x,
            ) by {
                if nm == name@ {
                    if !g0[nm].contains(x) {
                    } else if !g0[nm].contains(id) {
                        assert(g0[nm].push(id)[g0[nm].index_of(x)] == x);
                    }
                }
            }
            if g0.contains_key(name@) && !g0[name@].contains(id) {
                assert(g0[name@].push(id)[g0[name@].len() as int] == id);
            }
            if !g0.contains_key(name@) {
                assert(seq![id][0] == id);
            }
        }
        id
    }

    /// Binds the doc types of a declaration's tags: `Def` of its class, or the
    /// type of its `---@type` tag.
    fn bind_doc(&mut self, id: LuaDeclId, class: Option<String>, typ: Option<LuaType>)
        requires
            old(self).wf(),
        ensures
            final(self).wf(),
            final(self).db@ == doc_bound(old(self).db@, id, class, typ),
            keys_grow(old(self).db@, final(self).db@),
            (class is Some || typ is Some) ==> final(self).db@.types.contains_key(LuaTypeOwner::Decl(id)),
            final(self).pending == old(self).pending,
            final(self).pending_fields == old(self).pending_fields,
            final(self).modules == old(self).modules,
    {
        let ghost cg = class;
        let ghost tg = typ;
        proof {
            match cg {
                Some(c) => lemma_bind_keeps_keys(
                    self.db@,
                    LuaTypeOwner::Decl(id),
                    LuaTypeCache::DocType(LuaType::Def(LuaTypeDeclId { name: c })),
                ),
                None => match tg {
                    Some(t) => lemma_bind_keeps_keys(self.db@, LuaTypeOwner::Decl(id), LuaTypeCache::DocType(t)),
                    None => {},
                },
            }
        }
        match class {
            Some(c) => {
                bind_type(
                    &mut self.db,
                    LuaTypeOwner::from_decl(id),
                    LuaTypeCache::DocType(LuaType::Def(LuaTypeDeclId { name: c })),
                );
            },
            None => match typ {
                Some(t) => {
                    bind_type(&mut self.db, LuaTypeOwner::from_decl(id), LuaTypeCache::DocType(t));
                },
                None => {},
            },
        }
    }

    /// Registers what an expression declares (the fields of its table
    /// literals, its closures) and gives back the expression with those parts
    /// taken out, as inference needs it.
    fn declare_expr(
        &mut self,
        file_id: FileId,
        expr: LuaExpr,
        tables: &mut LocalTables,
        fuel: usize,
    ) -> (r: LuaExpr)
        requires
            old(self).wf(),
        ensures
            final(self).wf(),
            keys_grow(old(self).db@, final(self).db@),
            declared_form(expr, r, fuel as nat),
        decreases fuel, 1nat,
    {
        if fuel == 0 {
            return expr;
        }
        let ghost s0 = self.db@;
        match expr {
            LuaExpr::TableExpr(t) => {
                let range = t.range;
                let owner = LuaMemberOwner::Element(InFiled::new(file_id, range));
                let mut fields = t.fields;
                while fields.len() > 0
                    invariant
                        self.wf(),
                        keys_grow(s0, self.db@),
                        fuel > 0,
                    decreases fields@.len(),
                {
                    let f = fields.remove(0);
                    let value = self.declare_expr(file_id, f.value, tables, fuel - 1);
                    match f.key {
                        // A key `[e]` is named after the type of `e`, once it is known.
                        Some(LuaIndexKey::Expr(k)) => {
                            self.pending_fields.push(
                                PendingField { owner: owner.clone(), file_id, key: *k, position: f.position, value },
                            );
                        },
                        Some(k) => {
                            if let Some(k) = key_text(&k) {
                                let id = LuaMemberId { file_id, position: f.position };
                                self.db.member_index.add_member(LuaMember { id, key: k, global_id: None });
                                let ghost s1 = self.db@;
                                let o = owner.clone();
                                let ghost og = o;
                                add_member(&mut self.db, o, id);
                                proof {
                                    lemma_add_member_keeps_keys(s1, og, id);
                                }
                                self.pending.push(Pending { owner: LuaTypeOwner::from_member(id), file_id, expr: value });
                            }
                        },
                        None => {},
                    }
                }
                LuaExpr::TableExpr(LuaTableExpr { range, fields: Vec::new() })
            },
            LuaExpr::ClosureExpr(c) => {
                let position = c.position;
                let end = c.end;
                self.declare_closure(file_id, c, None, LuaType::Unknown, tables, fuel - 1);
                LuaExpr::ClosureExpr(LuaClosureExpr { position, params: Vec::new(), block: Vec::new(), end })
            },
            LuaExpr::ParenExpr(inner) => {
                let inner = self.declare_expr(file_id, *inner, tables, fuel - 1);
                LuaExpr::ParenExpr(Box::new(inner))
            },
            LuaExpr::IndexExpr(ix) => {
                let ghost key0 = ix.key;
                let prefix = self.declare_expr(file_id, *ix.prefix, tables, fuel - 1);
                let key = match ix.key {
                    LuaIndexKey::Expr(k) => LuaIndexKey::Expr(Box::new(self.declare_expr(file_id, *k, tables, fuel - 1))),
                    other => other,
                };
                LuaExpr::IndexExpr(LuaIndexExpr { prefix: Box::new(prefix), key, colon: ix.colon, position: ix.position })
            },
            LuaExpr::CallExpr(call) => {
                let ghost args0 = call.args@;
                let prefix = self.declare_expr(file_id, *call.prefix, tables, fuel - 1);
                let mut args = call.args;
                let mut out: Vec<LuaExpr> = Vec::new();
                while args.len() > 0
                    invariant
                        self.wf(),
                        keys_grow(s0, self.db@),
                        fuel > 0,
                        out@.len() + args@.len() == args0.len(),
                        args@ == args0.subrange(out@.len() as int, args0.len() as int),
                        forall|i: int|
                            0 <= i < out@.len() ==> declared_form(#[trigger] args0[i], out@[i], (fuel - 1) as nat),
                    decreases args@.len(),
                {
                    let ghost k = out@.len();
                    let a = args.remove(0);
                    assert(a == args0[k as int]);
                    out.push(self.declare_expr(file_id, a, tables, fuel - 1));
                    assert(args@ =~= args0.subrange(out@.len() as int, args0.len() as int));
                }
                LuaExpr::CallExpr(LuaCallExpr { prefix: Box::new(prefix), args: out, generic_types: call.generic_types, position: call.position })
            },
            other => other,
        }
    }

    /// Declares the parameters of a closure (and its `self`, for a method of
    /// `self_owner`), records its signature and declares its body.
    fn declare_closure(
        &mut self,
        file_id: FileId,
        closure: LuaClosureExpr,
        self_owner: Option<LuaMemberOwner>,
        ret: LuaType,
        tables: &mut LocalTables,
        fuel: usize,
    ) -> (r: LuaSignatureId)
        requires
            old(self).wf(),
        ensures
            final(self).wf(),
            keys_grow(old(self).db@, final(self).db@),
            r == (LuaSignatureId { file_id, position: closure.position }),
            fuel > 0 ==> final(self).db@.signatures.contains_key(r),
            fuel > 0 ==> forall|i: int|
                0 <= i < closure.params@.len() ==> final(self).db@.decls.contains_key(
                    LuaDeclId { file_id, position: (#[trigger] closure.params@[i]).position },
                ),
        decreases fuel, 0nat,
    {
        let sig_id = LuaSignatureId { file_id, position: closure.position };
        if fuel == 0 {
            return sig_id;
        }
        let ghost s0 = self.db@;
        let ghost ps0 = closure.params@;
        let end = closure.end;
        let mut params: Vec<(String, Option<LuaType>)> = Vec::new();
        let mut ps = closure.params;
        let ghost mut done: int = 0;
        while ps.len() > 0
            invariant
                self.wf(),
                keys_grow(s0, self.db@),
                0 <= done <= ps0.len(),
                ps@ == ps0.subrange(done, ps0.len() as int),
                forall|i: int|
                    0 <= i < done ==> self.db@.decls.contains_key(
                        LuaDeclId { file_id, position: (#[trigger] ps0[i]).position },
                    ),
            decreases ps@.len(),
        {
            let p = ps.remove(0);
            assert(p == ps0[done]);
            let id = LuaDeclId { file_id, position: p.position };
            self.db.decl_index.add_decl(LuaDecl { id, name: p.name.clone(), kind: LuaDeclKind::Param, scope_end: end });
            params.push((p.name, None));
            proof {
                done = done + 1;
            }
            assert(ps@ =~= ps0.subrange(done, ps0.len() as int));
        }
        let ghost s_params = self.db@;
        let is_method = self_owner.is_some();
        if let Some(o) = &self_owner {
            let id = LuaDeclId { file_id, position: closure.position };
            self.db.decl_index.add_decl(
                LuaDecl { id, name: String::from_str("self"), kind: LuaDeclKind::ImplicitSelf, scope_end: end },
            );
            let ghost s1 = self.db@;
            match o {
                LuaMemberOwner::Type(x) => {
                    let tc = LuaTypeCache::DocType(LuaType::Ref(x.clone()));
                    let ghost c = tc;
                    bind_type(&mut self.db, LuaTypeOwner::from_decl(id), tc);
                    proof {
                        lemma_bind_keeps_keys(s1, LuaTypeOwner::Decl(id), c);
                    }
                },
                LuaMemberOwner::Element(r) => {
                    let tc = LuaTypeCache::InferType(LuaType::TableConst(*r));
                    let ghost c = tc;
                    bind_type(&mut self.db, LuaTypeOwner::from_decl(id), tc);
                    proof {
                        lemma_bind_keeps_keys(s1, LuaTypeOwner::Decl(id), c);
                    }
                },
                _ => {},
            }
        }
        assert(keys_grow(s_params, self.db@));
        proof {
            lemma_grow_trans(s0, s_params, self.db@);
        }
        let ghost s_self = self.db@;
        self.db.signature_index.add(
            sig_id,
            LuaSignature { is_async: false, is_colon_define: is_method, params, ret },
        );
        assert(self.db@.signatures.contains_key(sig_id));
        assert(keys_grow(s_self, self.db@));
        let ghost s_sig = self.db@;
        self.declare_block(file_id, closure.block, end, &self_owner, tables, false, fuel - 1);
        proof {
            lemma_grow_trans(s0, s_self, s_sig);
            lemma_grow_trans(s0, s_sig, self.db@);
        }
        sig_id
    }

    /// Declares the statements of a block whose scope ends at `block_end`.
    pub fn declare_block(
        &mut self,
        file_id: FileId,
        stats: Vec<LuaStat>,
        block_end: u32,
        self_owner: &Option<LuaMemberOwner>,
        tables: &mut LocalTables,
        top_level: bool,
        fuel: usize,
    )
        requires
            old(self).wf(),
        ensures
            final(self).wf(),
            keys_grow(old(self).db@, final(self).db@),
            fuel > 1 ==> forall|k: int| 0 <= k < stats@.len() ==> stat_declares(final(self).db@, file_id, #[trigger] stats@[k]),
        decreases fuel, 3nat,
    {
        if fuel == 0 {
            return;
        }
        let ghost s0 = self.db@;
        let ghost st0 = stats@;
        let mut stats = stats;
        let ghost mut done: int = 0;
        while stats.len() > 0
            invariant
                self.wf(),
                fuel > 0,
                keys_grow(s0, self.db@),
                0 <= done <= st0.len(),
                stats@ == st0.subrange(done, st0.len() as int),
                fuel > 1 ==> forall|k: int| 0 <= k < done ==> stat_declares(self.db@, file_id, #[trigger] st0[k]),
            decreases stats@.len(),
        {
            let stat = stats.remove(0);
            assert(stat == st0[done]);
            let ghost before = self.db@;
            self.declare_stat(file_id, stat, block_end, self_owner, tables, top_level, fuel - 1);
            proof {
                if fuel > 1 {
                    assert forall|k: int| 0 <= k < done + 1 implies stat_declares(self.db@, file_id, #[trigger] st0[k]) by {
                        if k < done {
                            lemma_stat_declares_grows(before, self.db@, file_id, st0[k]);
                        }
                    }
                }
                done = done + 1;
            }
            assert(stats@ =~= st0.subrange(done, st0.len() as int));
        }
    }

    fn declare_stat(
        &mut self,
        file_id: FileId,
        stat: LuaStat,
        block_end: u32,
        self_owner: &Option<LuaMemberOwner>,
        tables: &mut LocalTables,
        top_level: bool,
        fuel: usize,
    )
        requires
            old(self).wf(),
        ensures
            final(self).wf(),
            keys_grow(old(self).db@, final(self).db@),
            fuel > 0 ==> stat_declares(final(self).db@, file_id, stat),
        decreases fuel, 2nat,
    {
        if fuel == 0 {
            return;
        }
        let ghost s0 = self.db@;
        let ghost stat0 = stat;
        match stat {
            LuaStat::LocalStat { names, exprs, tags } => {
                let (class, typ) = apply_doc_tags(&mut self.db, file_id, &tags);
                let ghost t1 = self.db@;
                let mut exprs = self.declare_exprs(file_id, exprs, tables, fuel - 1);
                proof {
                    lemma_grow_trans(s0, t1, self.db@);
                }
                let ghost n0 = names@;
                let mut names = names;
                let mut first = true;
                let ghost mut done: int = 0;
                while names.len() > 0
                    invariant
                        self.wf(),
                        keys_grow(s0, self.db@),
                        0 <= done <= n0.len(),
                        names@ == n0.subrange(done, n0.len() as int),
                        forall|i: int|
                            0 <= i < done ==> self.db@.decls.contains_key(
                                LuaDeclId { file_id, position: (#[trigger] n0[i]).position },
                            ),
                        first == (done == 0),
                        done > 0 && (class is Some || typ is Some) ==> self.db@.types.contains_key(
                            LuaTypeOwner::Decl(LuaDeclId { file_id, position: n0[0].position }),
                        ),
                    decreases names@.len(),
                {
                    let n = names.remove(0);
                    assert(n == n0[done]);
                    let id = LuaDeclId { file_id, position: n.position };
                    let ghost before = self.db@;
                    self.db.decl_index.add_decl(LuaDecl { id, name: n.name, kind: LuaDeclKind::Local, scope_end: block_end });
                    assert(self.db@.decls.contains_key(id));
                    assert(keys_grow(before, self.db@));
                    let ghost mid = self.db@;
                    if first {
                        self.bind_doc(id, class.clone(), clone_opt(&typ));
                        first = false;
                    }
                    proof {
                        lemma_grow_trans(before, mid, self.db@);
                        lemma_grow_trans(s0, before, self.db@);
                        if done > 0 && (class is Some || typ is Some) {
                            assert(before.types.contains_key(
                                LuaTypeOwner::Decl(LuaDeclId { file_id, position: n0[0].position }),
                            ));
                        }
                        assert forall|i: int|
                            0 <= i < done + 1 implies self.db@.decls.contains_key(
                            LuaDeclId { file_id, position: (#[trigger] n0[i]).position },
                        ) by {
                            if i < done {
                                assert(before.decls.contains_key(LuaDeclId { file_id, position: n0[i].position }));
                            } else {
                                assert(mid.decls.contains_key(id));
                            }
                        }
                        done = done + 1;
                    }
                    assert(names@ =~= n0.subrange(done, n0.len() as int));
                    if exprs.len() > 0 {
                        let value = exprs.remove(0);
                        if let LuaExpr::TableExpr(t) = &value {
                            tables.tables.push((id, t.range));
                        }
                        self.pending.push(Pending { owner: LuaTypeOwner::from_decl(id), file_id, expr: value });
                    }
                }
            },
            LuaStat::AssignStat { vars, exprs, tags } => {
                let (class, typ) = apply_doc_tags(&mut self.db, file_id, &tags);
                let ghost t1 = self.db@;
                let mut exprs = self.declare_exprs(file_id, exprs, tables, fuel - 1);
                proof {
                    lemma_grow_trans(s0, t1, self.db@);
                }
                let ghost v0 = vars@;
                let mut vars = vars;
                let mut first = true;
                let ghost mut done: int = 0;
                while vars.len() > 0
                    invariant
                        self.wf(),
                        keys_grow(s0, self.db@),
                        0 <= done <= v0.len(),
                        vars@ == v0.subrange(done, v0.len() as int),
                        forall|j: int| 0 <= j < done ==> target_declared(self.db@, file_id, #[trigger] v0[j]),
                    decreases vars@.len(),
                {
                    let ghost it0 = self.db@;
                    let var = vars.remove(0);
                    assert(var == v0[done]);
                    let value = if exprs.len() > 0 {
                        Some(exprs.remove(0))
                    } else {
                        None
                    };
                    match var {
                        LuaExpr::NameExpr(n) => {
                            let local = match self.db.get_decl_index().find_local_decl(file_id, n.name.as_str(), n.position) {
                                Some(d) => if d.is_local() || d.is_implicit_self() {
                                    Some(d.id)
                                } else {
                                    None
                                },
                                None => None,
                            };
                            proof {
                                if let Some(d) = local {
                                    assert(self.db@.decls.contains_key(d));
                                    assert(self.db@.decls[d].id == d);
                                    assert(d.file_id == file_id && d.position <= n.position);
                                }
                            }
                            match local {
                                Some(d) => {
                                    self.db.reference_index.add_decl_reference(d, true);
                                    if let Some(v) = value {
                                        self.db.flow_index.add_assign(d, n.position, v);
                                    }
                                },
                                None => {
                                    let ghost g0 = self.db@;
                                    let id = self.declare_global(file_id, &n.name, n.position);
                                    let ghost g1 = self.db@;
                                    if first {
                                        self.bind_doc(id, class.clone(), clone_opt(&typ));
                                    }
                                    proof {
                                        lemma_grow_trans(g0, g1, self.db@);
                                        lemma_grow_trans(s0, g0, self.db@);
                                    }
                                    if let Some(v) = value {
                                        self.pending.push(Pending { owner: LuaTypeOwner::from_decl(id), file_id, expr: v });
                                    }
                                },
                            }
                        },
                        LuaExpr::IndexExpr(ix) => {
                            if let Some(k) = key_text(&ix.key) {
                                let ghost g0 = self.db@;
                                let (id, _) = self.declare_member(file_id, &ix.prefix, k, ix.position, false, self_owner, tables);
                                proof {
                                    lemma_grow_trans(s0, g0, self.db@);
                                }
                                if let Some(v) = value {
                                    self.pending.push(Pending { owner: LuaTypeOwner::from_member(id), file_id, expr: v });
                                }
                            }
                        },
                        _ => {},
                    }
                    proof {
                        assert(keys_grow(it0, self.db@));
                        assert forall|j: int| 0 <= j < done + 1 implies target_declared(
                            self.db@,
                            file_id,
                            #[trigger] v0[j],
                        ) by {
                            if j < done {
                                assert(target_declared(it0, file_id, v0[j]));
                            }
                        }
                        done = done + 1;
                    }
                    assert(vars@ =~= v0.subrange(done, v0.len() as int));
                    first = false;
                }
                assert(done == v0.len());
            },
            LuaStat::FuncStat { name, closure, tags } => {
                let _ = apply_doc_tags(&mut self.db, file_id, &tags);
                let ghost t1 = self.db@;
                let ret = return_type_of(&tags);
                match name {
                    LuaExpr::NameExpr(n) => {
                        let local = match self.db.get_decl_index().find_local_decl(file_id, n.name.as_str(), n.position) {
                            Some(d) => if d.is_local() {
                                Some(d.id)
                            } else {
                                None
                            },
                            None => None,
                        };
                        proof {
                            if let Some(d) = local {
                                assert(self.db@.decls.contains_key(d));
                                assert(self.db@.decls[d].id == d);
                                assert(d.file_id == file_id && d.position <= n.position);
                            }
                        }
                        let ghost before_sig = self.db@;
                        let sig = self.declare_closure(file_id, closure, None, ret, tables, fuel - 1);
                        let ghost t2 = self.db@;
                        proof {
                            lemma_grow_trans(s0, t1, t2);
                        }
                        match local {
                            Some(d) => {
                                self.db.reference_index.add_decl_reference(d, true);
                            },
                            None => {
                                let id = self.declare_global(file_id, &n.name, n.position);
                                let ghost t3 = self.db@;
                                proof {
                                    lemma_bind_keeps_keys(self.db@, LuaTypeOwner::Decl(id), LuaTypeCache::InferType(LuaType::Signature(sig)));
                                }
                                bind_type(&mut self.db, LuaTypeOwner::from_decl(id), LuaTypeCache::InferType(LuaType::Signature(sig)));
                                proof {
                                    lemma_grow_trans(t2, t3, self.db@);
                                }
                            },
                        }
                        proof {
                            lemma_grow_trans(s0, t2, self.db@);
                            lemma_grow_trans(before_sig, t2, self.db@);
                            if let Some(d) = local {
                                assert(before_sig.decls.contains_key(d));
                                assert(self.db@.decls.contains_key(d));
                            }
                            assert(name_bound(self.db@, file_id, n));
                        }
                    },
                    LuaExpr::IndexExpr(ix) => {
                        match key_text(&ix.key) {
                            Some(k) => {
                                let (id, owner) = self.declare_member(file_id, &ix.prefix, k, ix.position, true, self_owner, tables);
                                let ghost t2 = self.db@;
                                let method_owner = if ix.colon {
                                    match owner {
                                        LuaMemberOwner::LocalUnresolve => None,
                                        o => Some(o),
                                    }
                                } else {
                                    None
                                };
                                let sig = self.declare_closure(file_id, closure, method_owner, ret, tables, fuel - 1);
                                let ghost t3 = self.db@;
                                proof {
                                    lemma_bind_keeps_keys(self.db@, LuaTypeOwner::Member(id), LuaTypeCache::InferType(LuaType::Signature(sig)));
                                }
                                bind_type(&mut self.db, LuaTypeOwner::from_member(id), LuaTypeCache::InferType(LuaType::Signature(sig)));
                                proof {
                                    lemma_grow_trans(s0, t1, t2);
                                    lemma_grow_trans(s0, t2, t3);
                                    lemma_grow_trans(s0, t3, self.db@);
                                }
                            },
                            None => {},
                        }
                    },
                    _ => {},
                }
            },
            LuaStat::LocalFuncStat { name, closure, tags } => {
                let _ = apply_doc_tags(&mut self.db, file_id, &tags);
                let ghost t1 = self.db@;
                let ret = return_type_of(&tags);
                let id = LuaDeclId { file_id, position: name.position };
                self.db.decl_index.add_decl(LuaDecl { id, name: name.name, kind: LuaDeclKind::Local, scope_end: block_end });
                let ghost t2 = self.db@;
                assert(t2.decls.contains_key(id));
                assert(keys_grow(t1, t2));
                let sig = self.declare_closure(file_id, closure, None, ret, tables, fuel - 1);
                let ghost t3 = self.db@;
                proof {
                    lemma_bind_keeps_keys(self.db@, LuaTypeOwner::Decl(id), LuaTypeCache::InferType(LuaType::Signature(sig)));
                }
                bind_type(&mut self.db, LuaTypeOwner::from_decl(id), LuaTypeCache::InferType(LuaType::Signature(sig)));
                proof {
                    lemma_grow_trans(s0, t1, t2);
                    lemma_grow_trans(s0, t2, t3);
                    lemma_grow_trans(s0, t3, self.db@);
                    assert(t3.decls.contains_key(id));
                    assert(self.db@.decls.contains_key(id));
                }
            },
            LuaStat::CallStat(e) => {
                let _ = self.declare_expr(file_id, e, tables, fuel - 1);
            },
            LuaStat::ReturnStat(exprs) => {
                let mut exprs = self.declare_exprs(file_id, exprs, tables, fuel - 1);
                if top_level && exprs.len() > 0 {
                    let first = exprs.remove(0);
                    self.set_return(file_id, first);
                }
            },
            LuaStat::DocStat(tags) => {
                let _ = apply_doc_tags(&mut self.db, file_id, &tags);
            },
        }
    }

    fn declare_exprs(&mut self, file_id: FileId, exprs: Vec<LuaExpr>, tables: &mut LocalTables, fuel: usize) -> (r: Vec<LuaExpr>)
        requires
            old(self).wf(),
        ensures
            final(self).wf(),
            keys_grow(old(self).db@, final(self).db@),
            r@.len() == exprs@.len(),
            forall|i: int| 0 <= i < exprs@.len() ==> declared_form(#[trigger] exprs@[i], r@[i], fuel as nat),
        decreases fuel, 2nat,
    {
        let ghost s0 = self.db@;
        let ghost e0 = exprs@;
        let mut exprs = exprs;
        let mut out: Vec<LuaExpr> = Vec::new();
        while exprs.len() > 0
            invariant
                self.wf(),
                keys_grow(s0, self.db@),
                out@.len() + exprs@.len() == e0.len(),
                exprs@ == e0.subrange(out@.len() as int, e0.len() as int),
                forall|i: int| 0 <= i < out@.len() ==> declared_form(#[trigger] e0[i], out@[i], fuel as nat),
            decreases exprs@.len(),
        {
            let ghost k = out@.len();
            let e = exprs.remove(0);
            assert(e == e0[k as int]);
            out.push(self.declare_expr(file_id, e, tables, fuel));
            assert(exprs@ =~= e0.subrange(out@.len() as int, e0.len() as int));
        }
        out
    }

    /// Records what the file `file_id` modules, if nothing was recorded yet.
    fn set_return(&mut self, file_id: FileId, expr: LuaExpr)
        requires
            old(self).wf(),
        ensures
            final(self).wf(),
            final(self).db == old(self).db,
            final(self).pending == old(self).pending,
            final(self).pending_fields == old(self).pending_fields,
            ({
                let ms = old(self).modules@;
                let k = module_index(ms, file_id);
                final(self).modules@ == if 0 <= k && ms[k].expr is None {
                    ms.update(k, FileReturn { file_id, name: ms[k].name, expr: Some(expr) })
                } else {
                    ms
                }
            }),
    {
        let ghost ms = self.modules@;
        assert(ms.subrange(0, ms.len() as int) =~= ms);
        let mut i: usize = 0;
        while i < self.modules.len()
            invariant
                self.wf(),
                self.modules@ == ms,
                ms == old(self).modules@,
                self.db == old(self).db,
                self.pending == old(self).pending,
                self.pending_fields == old(self).pending_fields,
                i <= self.modules@.len(),
                module_index(ms, file_id) == (if module_index(ms.subrange(i as int, ms.len() as int), file_id) < 0 {
                    -1
                } else {
                    module_index(ms.subrange(i as int, ms.len() as int), file_id) + i
                }),
            decreases self.modules@.len() - i,
        {
            let ghost rest = ms.subrange(i as int, ms.len() as int);
            assert(rest.drop_first() =~= ms.subrange(i + 1, ms.len() as int));
            assert(rest[0] == ms[i as int]);
            if self.modules[i].file_id == file_id {
                assert(module_index(rest, file_id) == 0);
                assert(module_index(ms, file_id) == i);
                if self.modules[i].expr.is_none() {
                    let name = self.modules[i].name.clone();
                    assert(name == ms[i as int].name);
                    self.modules.set(i, FileReturn { file_id, name, expr: Some(expr) });
                    assert(self.modules@ =~= ms.update(i as int, FileReturn { file_id, name: ms[i as int].name, expr: Some(expr) }));
                }
                return;
            }
            i = i + 1;
        }
        assert(ms.subrange(ms.len() as int, ms.len() as int) =~= Seq::<FileReturn>::empty());
    }

    /// Infers and binds every pending type it can, round after round, until a
    /// round binds nothing; what cannot be inferred yet stays pending.
    pub fn resolve_pending(&mut self)
        requires
            old(self).wf(),
        ensures
            final(self).wf(),
            final(self).modules == old(self).modules,
            keys_grow(old(self).db@, final(self).db@),
            forall|i: int|
                0 <= i < final(self).pending@.len() ==> infer_expr_spec(
                    final(self).db@,
                    final(self).modules@,
                    (#[trigger] final(self).pending@[i]).file_id,
                    final(self).pending@[i].expr,
                    INFER_DEPTH as nat,
                ) is Err,
            forall|i: int|
                0 <= i < final(self).pending_fields@.len() ==> infer_expr_spec(
                    final(self).db@,
                    final(self).modules@,
                    (#[trigger] final(self).pending_fields@[i]).file_id,
                    final(self).pending_fields@[i].key,
                    INFER_DEPTH as nat,
                ) is Err,
    {
        loop
            invariant
                self.wf(),
                self.modules == old(self).modules,
                keys_grow(old(self).db@, self.db@),
            decreases 2 * self.pending_fields@.len() + self.pending@.len(),
        {
            let before_fields = self.pending_fields.len();
            let before = self.pending.len();
            let mut progress = false;
            let ghost db_r = self.db@;

            // Fields whose key type is now known.
            let mut fields = Vec::new();
            std::mem::swap(&mut fields, &mut self.pending_fields);
            let mut kept_fields: Vec<PendingField> = Vec::new();
            while fields.len() > 0
                invariant
                    self.wf(),
                    self.modules == old(self).modules,
                    keys_grow(old(self).db@, self.db@),
                    self.pending_fields@.len() == 0,
                    kept_fields@.len() + fields@.len() <= before_fields,
                    self.pending@.len() + kept_fields@.len() + fields@.len() <= before + before_fields,
                    progress ==> kept_fields@.len() + fields@.len() < before_fields,
                    !progress ==> kept_fields@.len() + fields@.len() == before_fields,
                    !progress ==> self.pending@.len() == before,
                    !progress ==> self.db@ == db_r,
                    !progress ==> forall|i: int|
                        0 <= i < kept_fields@.len() ==> infer_expr_spec(
                            db_r,
                            self.modules@,
                            (#[trigger] kept_fields@[i]).file_id,
                            kept_fields@[i].key,
                            INFER_DEPTH as nat,
                        ) is Err,
                decreases fields@.len(),
            {
                let f = fields.remove(0);
                match infer_expr(&self.db, &self.modules, f.file_id, &f.key, INFER_DEPTH) {
                    Ok(t) => {
                        if let Some(k) = type_key_of(&t) {
                            let id = LuaMemberId { file_id: f.file_id, position: f.position };
                            let ghost d0 = self.db@;
                            self.db.member_index.add_member(LuaMember { id, key: k, global_id: None });
                            assert(self.db@.decls == d0.decls && self.db@.signatures == d0.signatures);
                            let ghost d1 = self.db@;
                            add_member(&mut self.db, f.owner, id);
                            proof {
                                lemma_add_member_keeps_keys(d1, f.owner, id);
                            }
                            self.pending.push(Pending { owner: LuaTypeOwner::from_member(id), file_id: f.file_id, expr: f.value });
                        }
                        progress = true;
                    },
                    Err(_) => {
                        kept_fields.push(f);
                    },
                }
            }
            self.pending_fields = kept_fields;

            // Types that can now be inferred.
            let after_fields = self.pending.len();
            let ghost kf = self.pending_fields@.len();
            let ghost pf = self.pending_fields@;
            let ghost db_i = self.db@;
            let mut items = Vec::new();
            std::mem::swap(&mut items, &mut self.pending);
            let mut kept: Vec<Pending> = Vec::new();
            let mut bound = false;
            // A bind may make a pending key known, so with keys pending the
            // round stops after one bind and the keys are looked at first.
            while items.len() > 0 && !(bound && self.pending_fields.len() > 0)
                invariant
                    self.wf(),
                    self.modules == old(self).modules,
                    keys_grow(old(self).db@, self.db@),
                    self.pending@.len() == 0,
                    kept@.len() + items@.len() <= after_fields,
                    bound ==> kept@.len() + items@.len() < after_fields,
                    self.pending_fields@.len() == kf,
                    self.pending_fields@ == pf,
                    after_fields + kf <= before + before_fields,
                    progress ==> kf < before_fields,
                    !progress ==> kf == before_fields && after_fields == before,
                    !bound ==> self.db@ == db_i,
                    !bound ==> forall|i: int|
                        0 <= i < kept@.len() ==> infer_expr_spec(
                            db_i,
                            self.modules@,
                            (#[trigger] kept@[i]).file_id,
                            kept@[i].expr,
                            INFER_DEPTH as nat,
                        ) is Err,
                decreases items@.len(),
            {
                let item = items.remove(0);
                match infer_expr(&self.db, &self.modules, item.file_id, &item.expr, INFER_DEPTH) {
                    Ok(t) => {
                        let ghost d0 = self.db@;
                        bind_type(&mut self.db, item.owner, LuaTypeCache::InferType(t));
                        proof {
                            lemma_bind_keeps_keys(d0, item.owner, LuaTypeCache::InferType(t));
                        }
                        bound = true;
                    },
                    Err(_) => {
                        kept.push(item);
                    },
                }
            }
            let ghost kept0 = kept@;
            kept.append(&mut items);
            self.pending = kept;
            if !progress && !bound {
                assert(self.pending@ =~= kept0);
                return;
            }
            assert(2 * self.pending_fields@.len() + self.pending@.len() < 2 * before_fields + before);
        }
    }
}

fn clone_opt(t: &Option<LuaType>) -> (r: Option<LuaType>)
    ensures
        r == *t,
{
    crate::types::clone_opt_type(t)
}

} // verus!
