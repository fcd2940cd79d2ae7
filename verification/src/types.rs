use vstd::prelude::*;
use std::hash::Hash;
use std::sync::Arc;
use internment::ArcIntern;
use crate::ids::{InFiled, LuaSignatureId, LuaTypeDeclId, TextRange};

verus! {

/// `internment::ArcIntern`, an interned value shared by pointer.
#[verifier::external_type_specification]
#[verifier::external_body]
#[verifier::reject_recursive_types(T)]
pub struct ExArcIntern<T: ?Sized + Eq + Hash + Send + Sync + 'static>(ArcIntern<T>);

/// The text that an interned string holds (what it dereferences to).
pub uninterp spec fn interned_text(a: ArcIntern<String>) -> Seq<char>;

/// Calls `internment::ArcIntern::new`, which hands out the shared interned copy
/// of `name`: a pointer to a stored string equal to `name`, allocated anew or
/// found among what was interned before. The contract states only the text it
/// holds; which allocation it points to is left unsaid.
#[verifier::external_body]
pub(crate) fn intern_name(name: String) -> (r: ArcIntern<String>)
    ensures
        interned_text(r) == name@,
{
    ArcIntern::new(name)
}

/// Calls `Arc::clone`, which hands out a second pointer to the same value.
#[verifier::external_body]
pub(crate) fn arc_clone<T>(a: &Arc<T>) -> (r: Arc<T>)
    ensures
        r == *a,
{
    Arc::clone(a)
}

/// The id of a generic template: a parameter of a function or of a type.
#[derive(Clone, Copy, PartialEq, Eq, Structural, Debug, Hash)]
pub enum GenericTplId {
    Func(u32),
    Type(u32),
}

impl GenericTplId {
    pub open spec fn spec_is_func(&self) -> bool {
        self is Func
    }

    #[verifier::when_used_as_spec(spec_is_func)]
    pub fn is_func(&self) -> (r: bool)
        ensures
            r == self.spec_is_func(),
    {
        matches!(self, GenericTplId::Func(_))
    }
}

/// A generic template, such as the `T` of `---@generic T`.
#[derive(Debug, PartialEq)]
pub struct GenericTpl {
    pub tpl_id: GenericTplId,
    pub name: ArcIntern<String>,
    pub constraint: Option<LuaType>,
}

impl GenericTpl {
    pub fn new(tpl_id: GenericTplId, name: ArcIntern<String>, constraint: Option<LuaType>) -> (r: Self)
        ensures
            r.tpl_id == tpl_id,
            r.name == name,
            r.constraint == constraint,
    {
        GenericTpl { tpl_id, name, constraint }
    }

    pub fn get_tpl_id(&self) -> (r: GenericTplId)
        ensures
            r == self.tpl_id,
    {
        self.tpl_id
    }
}

/// A declared type applied to arguments, such as `List<T>`.
#[derive(Debug, PartialEq)]
pub struct LuaGenericType {
    pub base: LuaTypeDeclId,
    pub params: Vec<LuaType>,
}

impl LuaGenericType {
    pub fn new(base: LuaTypeDeclId, params: Vec<LuaType>) -> (r: Self)
        ensures
            r.base == base,
            r.params == params,
    {
        LuaGenericType { base, params }
    }
}

/// A value built from a table literal whose type is `base`.
#[derive(Debug, PartialEq)]
pub struct LuaInstanceType {
    pub base: LuaType,
    pub range: InFiled<TextRange>,
}

impl LuaInstanceType {
    pub fn get_base(&self) -> (r: &LuaType)
        ensures
            *r == self.base,
    {
        &self.base
    }

    pub fn get_range(&self) -> (r: &InFiled<TextRange>)
        ensures
            *r == self.range,
    {
        &self.range
    }
}

/// A function type written in a doc comment (`fun(a: T): R`).
#[derive(Debug, PartialEq)]
pub struct LuaFunctionType {
    pub is_async: bool,
    pub is_colon_define: bool,
    pub params: Vec<(String, Option<LuaType>)>,
    pub ret: LuaType,
}

impl LuaFunctionType {
    pub fn get_params(&self) -> (r: &Vec<(String, Option<LuaType>)>)
        ensures
            *r == self.params,
    {
        &self.params
    }

    pub fn get_ret(&self) -> (r: &LuaType)
        ensures
            *r == self.ret,
    {
        &self.ret
    }

    pub fn is_colon_define(&self) -> (r: bool)
        ensures
            r == self.is_colon_define,
    {
        self.is_colon_define
    }
}

/// Several values at once: `T...` or a fixed list of types.
#[derive(Debug, PartialEq)]
pub enum VariadicType {
    Base(LuaType),
    Multi(Vec<LuaType>),
}

/// A type computed from a call argument: `UseArgName<X>` or `UseArgString<X>`,
/// with `idx` the position (from 1) of the argument and `prefix` the text put
/// before the name.
#[derive(Debug, PartialEq)]
pub struct LuaArgInferType {
    pub idx: u32,
    pub prefix: String,
}

impl LuaArgInferType {
    pub fn get_idx(&self) -> (r: u32)
        ensures
            r == self.idx,
    {
        self.idx
    }

    pub fn get_prefix(&self) -> (r: &str)
        ensures
            r@ == self.prefix@,
    {
        self.prefix.as_str()
    }
}

/// A union of types, in the order they are written: `A|B|C` is `A`
/// followed by the union `B|C`.
#[derive(Debug, PartialEq)]
pub enum LuaUnionType {
    /// The last type of the union.
    Last(LuaType),
    /// A type followed by the rest of the union.
    More(LuaType, Arc<LuaUnionType>),
}

/// The union of the types of `ts`, in order (at least one).
pub open spec fn union_of_seq(ts: Seq<LuaType>) -> LuaUnionType
    decreases ts.len(),
{
    if ts.len() <= 1 {
        LuaUnionType::Last(ts[0])
    } else {
        LuaUnionType::More(ts[0], Arc::new(union_of_seq(ts.drop_first())))
    }
}

impl LuaUnionType {
    /// The union of `types`, in order.
    pub fn from_vec(types: Vec<LuaType>) -> (r: Self)
        requires
            types@.len() > 0,
        ensures
            r == union_of_seq(types@),
    {
        let ghost all = types@;
        let mut types = types;
        let last = types.pop().unwrap();
        let mut acc = LuaUnionType::Last(last);
        assert(all.subrange(all.len() - 1, all.len() as int) =~= seq![last]);
        while types.len() > 0
            invariant
                types@ == all.subrange(0, types@.len() as int),
                types@.len() < all.len(),
                acc == union_of_seq(all.subrange(types@.len() as int, all.len() as int)),
            decreases types@.len(),
        {
            let k = types.len() - 1;
            let t = types.pop().unwrap();
            proof {
                let tail = all.subrange(k as int, all.len() as int);
                assert(tail.drop_first() =~= all.subrange(k + 1, all.len() as int));
                assert(tail[0] == t);
            }
            acc = LuaUnionType::More(t, Arc::new(acc));
        }
        assert(all.subrange(0, all.len() as int) =~= all);
        acc
    }
}

impl Clone for LuaUnionType {
    fn clone(&self) -> (r: Self)
        ensures
            r == *self,
        decreases self,
    {
        match self {
            LuaUnionType::Last(t) => LuaUnionType::Last(t.clone()),
            LuaUnionType::More(t, rest) => {
                let r: &LuaUnionType = &**rest;
                LuaUnionType::More(t.clone(), Arc::new(r.clone()))
            },
        }
    }
}

/// An object type written `{ k: T, ... }`: its fields in the order written.
#[derive(Debug, PartialEq)]
pub enum LuaObjectType {
    /// No more fields.
    Empty,
    /// A field, its type, and the fields after it.
    Field(String, LuaType, Arc<LuaObjectType>),
}

impl Clone for LuaObjectType {
    fn clone(&self) -> (r: Self)
        ensures
            r == *self,
        decreases self,
    {
        match self {
            LuaObjectType::Empty => LuaObjectType::Empty,
            LuaObjectType::Field(k, t, rest) => {
                let r: &LuaObjectType = &**rest;
                LuaObjectType::Field(k.clone(), t.clone(), Arc::new(r.clone()))
            },
        }
    }
}

/// An intersection of types, in the order they are written: `A&B&C` is `A`
/// followed by the intersection `B&C`.
#[derive(Debug, PartialEq)]
pub enum LuaIntersectionType {
    /// The last type of the intersection.
    Last(LuaType),
    /// A type followed by the rest of the intersection.
    More(LuaType, Arc<LuaIntersectionType>),
}

impl Clone for LuaIntersectionType {
    fn clone(&self) -> (r: Self)
        ensures
            r == *self,
        decreases self,
    {
        match self {
            LuaIntersectionType::Last(t) => LuaIntersectionType::Last(t.clone()),
            LuaIntersectionType::More(t, rest) => {
                let r: &LuaIntersectionType = &**rest;
                LuaIntersectionType::More(t.clone(), Arc::new(r.clone()))
            },
        }
    }
}

/// A type.
#[derive(Debug, PartialEq)]
pub enum LuaType {
    Unknown,
    Any,
    Nil,
    Never,
    Table,
    Function,
    Boolean,
    String,
    Integer,
    Number,
    SelfInfer,
    BooleanConst(bool),
    StringConst(String),
    IntegerConst(i64),
    /// A number literal, held as the bits of the float.
    FloatConst(u64),
    TableConst(InFiled<TextRange>),
    Ref(LuaTypeDeclId),
    Def(LuaTypeDeclId),
    Instance(Arc<LuaInstanceType>),
    DocFunction(Arc<LuaFunctionType>),
    Signature(LuaSignatureId),
    TplRef(Arc<GenericTpl>),
    ConstTplRef(Arc<GenericTpl>),
    StrTplRef(Arc<GenericTpl>),
    Generic(Arc<LuaGenericType>),
    Variadic(Arc<VariadicType>),
    ArgNameInfer(Arc<LuaArgInferType>),
    ArgStringInfer(Arc<LuaArgInferType>),
    Union(Arc<LuaUnionType>),
    /// `keyof X`: the keys of the members of the class `X`.
    KeyOf(LuaTypeDeclId),
    Object(Arc<LuaObjectType>),
    Intersection(Arc<LuaIntersectionType>),
}

impl Clone for LuaType {
    fn clone(&self) -> (r: Self)
        ensures
            r == *self,
    {
        match self {
            LuaType::Unknown => LuaType::Unknown,
            LuaType::Any => LuaType::Any,
            LuaType::Nil => LuaType::Nil,
            LuaType::Never => LuaType::Never,
            LuaType::Table => LuaType::Table,
            LuaType::Function => LuaType::Function,
            LuaType::Boolean => LuaType::Boolean,
            LuaType::String => LuaType::String,
            LuaType::Integer => LuaType::Integer,
            LuaType::Number => LuaType::Number,
            LuaType::SelfInfer => LuaType::SelfInfer,
            LuaType::BooleanConst(b) => LuaType::BooleanConst(*b),
            LuaType::StringConst(s) => LuaType::StringConst(s.clone()),
            LuaType::IntegerConst(i) => LuaType::IntegerConst(*i),
            LuaType::FloatConst(f) => LuaType::FloatConst(*f),
            LuaType::TableConst(r) => LuaType::TableConst(*r),
            LuaType::Ref(id) => LuaType::Ref(id.clone()),
            LuaType::Def(id) => LuaType::Def(id.clone()),
            LuaType::Instance(a) => LuaType::Instance(arc_clone(a)),
            LuaType::DocFunction(a) => LuaType::DocFunction(arc_clone(a)),
            LuaType::Signature(id) => LuaType::Signature(*id),
            LuaType::TplRef(a) => LuaType::TplRef(arc_clone(a)),
            LuaType::ConstTplRef(a) => LuaType::ConstTplRef(arc_clone(a)),
            LuaType::StrTplRef(a) => LuaType::StrTplRef(arc_clone(a)),
            LuaType::Generic(a) => LuaType::Generic(arc_clone(a)),
            LuaType::Variadic(a) => LuaType::Variadic(arc_clone(a)),
            LuaType::ArgNameInfer(a) => LuaType::ArgNameInfer(arc_clone(a)),
            LuaType::ArgStringInfer(a) => LuaType::ArgStringInfer(arc_clone(a)),
            LuaType::Union(a) => LuaType::Union(arc_clone(a)),
            LuaType::KeyOf(id) => LuaType::KeyOf(id.clone()),
            LuaType::Object(a) => LuaType::Object(arc_clone(a)),
            LuaType::Intersection(a) => LuaType::Intersection(arc_clone(a)),
        }
    }
}

impl LuaType {
    pub fn is_any(&self) -> (r: bool)
        ensures
            r == (*self is Any),
    {
        matches!(self, LuaType::Any)
    }

    pub fn is_unknown(&self) -> (r: bool)
        ensures
            r == (*self is Unknown),
    {
        matches!(self, LuaType::Unknown)
    }

    pub fn is_variadic(&self) -> (r: bool)
        ensures
            r == (*self is Variadic),
    {
        matches!(self, LuaType::Variadic(_))
    }
}

/// `opt.clone()` for an optional type, with the clone equal to `opt`.
pub fn clone_opt_type(t: &Option<LuaType>) -> (r: Option<LuaType>)
    ensures
        r == *t,
{
    match t {
        Some(t) => Some(t.clone()),
        None => None,
    }
}

/// A type bound to an owner: either written in a doc comment or inferred from
/// code.
#[derive(Debug, PartialEq)]
pub enum LuaTypeCache {
    DocType(LuaType),
    InferType(LuaType),
}

impl Clone for LuaTypeCache {
    fn clone(&self) -> (r: Self)
        ensures
            r == *self,
    {
        match self {
            LuaTypeCache::DocType(t) => LuaTypeCache::DocType(t.clone()),
            LuaTypeCache::InferType(t) => LuaTypeCache::InferType(t.clone()),
        }
    }
}

impl LuaTypeCache {
    pub open spec fn spec_as_type(&self) -> LuaType {
        match self {
            LuaTypeCache::DocType(t) => *t,
            LuaTypeCache::InferType(t) => *t,
        }
    }

    pub open spec fn spec_is_infer(&self) -> bool {
        self is InferType
    }

    pub open spec fn spec_is_doc(&self) -> bool {
        self is DocType
    }

    pub fn as_type(&self) -> (r: &LuaType)
        ensures
            *r == self.spec_as_type(),
    {
        match self {
            LuaTypeCache::DocType(t) => t,
            LuaTypeCache::InferType(t) => t,
        }
    }

    #[verifier::when_used_as_spec(spec_is_infer)]
    pub fn is_infer(&self) -> (r: bool)
        ensures
            r == self.spec_is_infer(),
    {
        matches!(self, LuaTypeCache::InferType(_))
    }

    #[verifier::when_used_as_spec(spec_is_doc)]
    pub fn is_doc(&self) -> (r: bool)
        ensures
            r == self.spec_is_doc(),
    {
        matches!(self, LuaTypeCache::DocType(_))
    }
}

/// A generic parameter of a declared type: its name and optional constraint.
#[derive(Debug, PartialEq)]
pub struct GenericParam {
    pub name: String,
    pub type_constraint: Option<LuaType>,
}

/// The signature of a function written in code.
#[derive(Debug, PartialEq)]
pub struct LuaSignature {
    pub is_async: bool,
    pub is_colon_define: bool,
    pub params: Vec<(String, Option<LuaType>)>,
    pub ret: LuaType,
}

/// A copy of a function type: the same flags, parameters and result.
pub fn clone_function(f: &LuaFunctionType) -> (r: LuaFunctionType)
    ensures
        r.is_async == f.is_async,
        r.is_colon_define == f.is_colon_define,
        r.params@ == f.params@,
        r.ret == f.ret,
{
    let mut params: Vec<(String, Option<LuaType>)> = Vec::new();
    let mut i: usize = 0;
    while i < f.params.len()
        invariant
            i <= f.params@.len(),
            params@ == f.params@.subrange(0, i as int),
        decreases f.params@.len() - i,
    {
        let (name, t) = &f.params[i];
        params.push((name.clone(), clone_opt_type(t)));
        proof {
            assert(params@ =~= f.params@.subrange(0, i + 1));
        }
        i = i + 1;
    }
    proof {
        assert(params@ =~= f.params@);
    }
    LuaFunctionType { is_async: f.is_async, is_colon_define: f.is_colon_define, params, ret: f.ret.clone() }
}

impl LuaSignature {
    /// The signature as a doc function type with the same parameters and result.
    pub fn to_doc_func_type(&self) -> (r: Arc<LuaFunctionType>)
        ensures
            r.is_async == self.is_async,
            r.is_colon_define == self.is_colon_define,
            r.params@ == self.params@,
            r.ret == self.ret,
    {
        let mut params: Vec<(String, Option<LuaType>)> = Vec::new();
        let mut i: usize = 0;
        while i < self.params.len()
            invariant
                i <= self.params@.len(),
                params@ == self.params@.subrange(0, i as int),
            decreases self.params@.len() - i,
        {
            let (name, t) = &self.params[i];
            params.push((name.clone(), clone_opt_type(t)));
            proof {
                assert(params@ =~= self.params@.subrange(0, i + 1));
            }
            i = i + 1;
        }
        proof {
            assert(params@ =~= self.params@);
        }
        Arc::new(
            LuaFunctionType {
                is_async: self.is_async,
                is_colon_define: self.is_colon_define,
                params,
                ret: self.ret.clone(),
            },
        )
    }
}


/// Why a type could not be inferred.
#[derive(Clone, Copy, PartialEq, Eq, Structural, Debug)]
pub enum InferFailReason {
    NoReason,
    FieldNotFound,
    UnResolveDeclType(crate::ids::LuaDeclId),
    UnResolveMemberType(crate::ids::LuaMemberId),
}

} // verus!
