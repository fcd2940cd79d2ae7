use vstd::prelude::*;
use std::sync::Arc;
use crate::ids::KeyEq;
use crate::tpl_set::{tpl_id_of_key, tpl_of_key, tpl_set_items, tpl_set_keys, TplSet};
use crate::types::{
    arc_clone, GenericTplId, LuaArgInferType, LuaFunctionType, LuaGenericType, LuaType, LuaUnionType, VariadicType,
};
use crate::vec_map::VecMap;

verus! {

broadcast use vstd::std_specs::vec::axiom_vec_index_decreases;

impl View for GenericTplId {
    type V = GenericTplId;

    open spec fn view(&self) -> GenericTplId {
        *self
    }
}

impl KeyEq for GenericTplId {
    fn key_eq(&self, other: &Self) -> (r: bool) {
        *self == *other
    }
}

/// What a call makes of the templates of a function: the type each template
/// stands for, the templates still to infer, the type of `self`, and the
/// types computed from call arguments.
pub struct TypeSubstitutor {
    pub tpl_replace: VecMap<GenericTplId, LuaType>,
    pub need_infer: Option<TplSet>,
    pub self_type: Option<LuaType>,
    /// `(is_string, idx, prefix, type)` for each `UseArgName`/`UseArgString`.
    pub arg_types: Vec<(bool, u32, String, LuaType)>,
}

/// The type given for the argument template `info` (a name template when
/// `!is_string`), the first one recorded.
pub open spec fn arg_type_of(s: Seq<(bool, u32, String, LuaType)>, is_string: bool, info: LuaArgInferType) -> Option<LuaType>
    decreases s.len(),
{
    if s.len() == 0 {
        None
    } else if s[0].0 == is_string && s[0].1 == info.idx && s[0].2@ == info.prefix@ {
        Some(s[0].3)
    } else {
        arg_type_of(s.drop_first(), is_string, info)
    }
}

impl TypeSubstitutor {
    pub open spec fn wf(&self) -> bool {
        self.tpl_replace.wf()
    }

    pub open spec fn replaced(&self) -> Map<GenericTplId, LuaType> {
        self.tpl_replace.map()
    }

    pub fn new() -> (r: Self)
        ensures
            r.wf(),
            r.replaced().is_empty(),
            r.need_infer is None,
            r.self_type is None,
            r.arg_types@.len() == 0,
    {
        TypeSubstitutor { tpl_replace: VecMap::new(), need_infer: None, self_type: None, arg_types: Vec::new() }
    }

    /// Records the templates that the call has to infer.
    pub fn add_need_infer_tpls(&mut self, tpls: TplSet)
        requires
            old(self).wf(),
        ensures
            final(self).wf(),
            final(self).need_infer == Some(tpls),
            final(self).tpl_replace == old(self).tpl_replace,
            final(self).self_type == old(self).self_type,
            final(self).arg_types == old(self).arg_types,
    {
        self.need_infer = Some(tpls);
    }

    /// Sets the type of template `id`; a type it already has is kept unless
    /// `replace`.
    pub fn insert_type(&mut self, id: GenericTplId, t: LuaType, replace: bool)
        requires
            old(self).wf(),
        ensures
            final(self).wf(),
            final(self).replaced() == if replace || !old(self).replaced().contains_key(id) {
                old(self).replaced().insert(id, t)
            } else {
                old(self).replaced()
            },
            final(self).need_infer == old(self).need_infer,
            final(self).self_type == old(self).self_type,
            final(self).arg_types == old(self).arg_types,
    {
        if replace || self.tpl_replace.get(&id).is_none() {
            self.tpl_replace.insert(id, t);
        }
    }

    pub fn get(&self, id: &GenericTplId) -> (r: Option<&LuaType>)
        requires
            self.wf(),
        ensures
            match r {
                Some(t) => self.replaced().contains_key(*id) && *t == self.replaced()[*id],
                None => !self.replaced().contains_key(*id),
            },
    {
        self.tpl_replace.get(id)
    }

    /// Every template the call has to infer has a type.
    pub open spec fn spec_is_infer_all_tpl(&self) -> bool {
        self.need_infer is Some ==> forall|k: u64| #[trigger]
            tpl_set_items(self.need_infer->0).contains(k) ==> self.replaced().contains_key(tpl_of_key(k))
    }

    pub fn is_infer_all_tpl(&self) -> (r: bool)
        requires
            self.wf(),
        ensures
            r == self.spec_is_infer_all_tpl(),
    {
        match &self.need_infer {
            Some(s) => {
                let keys = tpl_set_keys(s);
                let mut i: usize = 0;
                while i < keys.len()
                    invariant
                        self.wf(),
                        self.need_infer == Some(*s),
                        keys@.to_set() == tpl_set_items(*s),
                        i <= keys@.len(),
                        forall|j: int| 0 <= j < i ==> self.replaced().contains_key(tpl_of_key(#[trigger] keys@[j])),
                    decreases keys@.len() - i,
                {
                    if self.tpl_replace.get(&tpl_id_of_key(keys[i])).is_none() {
                        proof {
                            assert(keys@.to_set().contains(keys@[i as int]));
                            assert(tpl_set_items(*s).contains(keys@[i as int]));
                            assert(!self.replaced().contains_key(tpl_of_key(keys@[i as int])));
                            assert(self.need_infer->0 == *s);
                            let k0 = keys@[i as int];
                            assert(tpl_set_items(self.need_infer->0).contains(k0));
                            assert(!self.replaced().contains_key(tpl_of_key(k0)));
                            assert(!self.spec_is_infer_all_tpl());
                        }
                        return false;
                    }
                    i = i + 1;
                }
                proof {
                    assert forall|k: u64| #[trigger] tpl_set_items(*s).contains(k) implies self.replaced().contains_key(
                        tpl_of_key(k),
                    ) by {
                        assert(keys@.to_set().contains(k));
                        let j = choose|j: int| 0 <= j < keys@.len() && keys@[j] == k;
                    }
                }
                true
            },
            None => true,
        }
    }

    pub fn add_self_type(&mut self, t: LuaType)
        requires
            old(self).wf(),
        ensures
            final(self).wf(),
            final(self).self_type == Some(t),
            final(self).tpl_replace == old(self).tpl_replace,
            final(self).need_infer == old(self).need_infer,
            final(self).arg_types == old(self).arg_types,
    {
        self.self_type = Some(t);
    }

    fn add_arg_type(&mut self, is_string: bool, info: &LuaArgInferType, t: LuaType)
        requires
            old(self).wf(),
        ensures
            final(self).wf(),
            final(self).arg_types@ == old(self).arg_types@.push((is_string, info.idx, final(self).arg_types@.last().2, t)),
            final(self).arg_types@.last().2@ == info.prefix@,
            final(self).tpl_replace == old(self).tpl_replace,
            final(self).need_infer == old(self).need_infer,
            final(self).self_type == old(self).self_type,
    {
        self.arg_types.push((is_string, info.idx, info.prefix.clone(), t));
    }

    /// Records the type a `UseArgName` template resolved to.
    pub fn add_arg_name_type(&mut self, info: &LuaArgInferType, t: LuaType)
        requires
            old(self).wf(),
        ensures
            final(self).wf(),
            final(self).arg_types@ == old(self).arg_types@.push((false, info.idx, final(self).arg_types@.last().2, t)),
            final(self).arg_types@.last().2@ == info.prefix@,
            final(self).tpl_replace == old(self).tpl_replace,
            final(self).need_infer == old(self).need_infer,
            final(self).self_type == old(self).self_type,
    {
        self.add_arg_type(false, info, t)
    }

    /// Records the type a `UseArgString` template resolved to.
    pub fn add_arg_string_type(&mut self, info: &LuaArgInferType, t: LuaType)
        requires
            old(self).wf(),
        ensures
            final(self).wf(),
            final(self).arg_types@ == old(self).arg_types@.push((true, info.idx, final(self).arg_types@.last().2, t)),
            final(self).arg_types@.last().2@ == info.prefix@,
            final(self).tpl_replace == old(self).tpl_replace,
            final(self).need_infer == old(self).need_infer,
            final(self).self_type == old(self).self_type,
    {
        self.add_arg_type(true, info, t)
    }

    fn get_arg_type(&self, is_string: bool, info: &LuaArgInferType) -> (r: Option<&LuaType>)
        ensures
            match r {
                Some(t) => arg_type_of(self.arg_types@, is_string, *info) == Some(*t),
                None => arg_type_of(self.arg_types@, is_string, *info) is None,
            },
    {
        let mut i: usize = 0;
        assert(self.arg_types@.subrange(0, self.arg_types@.len() as int) =~= self.arg_types@);
        while i < self.arg_types.len()
            invariant
                i <= self.arg_types@.len(),
                arg_type_of(self.arg_types@, is_string, *info) == arg_type_of(
                    self.arg_types@.subrange(i as int, self.arg_types@.len() as int),
                    is_string,
                    *info,
                ),
            decreases self.arg_types@.len() - i,
        {
            let ghost rest = self.arg_types@.subrange(i as int, self.arg_types@.len() as int);
            assert(rest.drop_first() =~= self.arg_types@.subrange(i + 1, self.arg_types@.len() as int));
            let e = &self.arg_types[i];
            if e.0 == is_string && e.1 == info.idx && e.2 == info.prefix {
                return Some(&e.3);
            }
            i = i + 1;
        }
        None
    }
}

/// `r` is `t` with every template that `s` gives a type replaced by it:
/// templates by their type, `self` by the self type, argument templates by
/// the type recorded for them, inside function, generic and variadic types
/// too; everything else is kept.
pub open spec fn instantiated(s: TypeSubstitutor, t: LuaType, r: LuaType) -> bool
    decreases t,
{
    match t {
        LuaType::TplRef(tpl) => if s.replaced().contains_key(tpl.tpl_id) {
            r == s.replaced()[tpl.tpl_id]
        } else {
            r == t
        },
        LuaType::ConstTplRef(tpl) => if s.replaced().contains_key(tpl.tpl_id) {
            r == s.replaced()[tpl.tpl_id]
        } else {
            r == t
        },
        LuaType::StrTplRef(tpl) => if s.replaced().contains_key(tpl.tpl_id) {
            r == s.replaced()[tpl.tpl_id]
        } else {
            r == t
        },
        LuaType::SelfInfer => match s.self_type {
            Some(x) => r == x,
            None => r == t,
        },
        LuaType::ArgNameInfer(info) => match arg_type_of(s.arg_types@, false, *info) {
            Some(x) => r == x,
            None => r == t,
        },
        LuaType::ArgStringInfer(info) => match arg_type_of(s.arg_types@, true, *info) {
            Some(x) => r == x,
            None => r == t,
        },
        LuaType::DocFunction(f) => match r {
            LuaType::DocFunction(g) => {
                &&& g.is_async == f.is_async
                &&& g.is_colon_define == f.is_colon_define
                &&& g.params@.len() == f.params@.len()
                &&& instantiated(s, f.ret, g.ret)
                &&& forall|i: int|
                    #![trigger f.params@[i]]
                    0 <= i < f.params@.len() ==> g.params@[i].0 == f.params@[i].0 && match f.params@[i].1 {
                        Some(p) => match g.params@[i].1 {
                            Some(q) => instantiated(s, p, q),
                            None => false,
                        },
                        None => g.params@[i].1 is None,
                    }
            },
            _ => false,
        },
        LuaType::Generic(gen) => match r {
            LuaType::Generic(h) => {
                &&& h.base == gen.base
                &&& h.params@.len() == gen.params@.len()
                &&& forall|i: int|
                    #![trigger gen.params@[i]]
                    0 <= i < gen.params@.len() ==> instantiated(s, gen.params@[i], h.params@[i])
            },
            _ => false,
        },
        LuaType::Variadic(v) => match *v {
            VariadicType::Base(b) => match r {
                LuaType::Variadic(w) => match *w {
                    VariadicType::Base(c) => instantiated(s, b, c),
                    _ => false,
                },
                _ => false,
            },
            VariadicType::Multi(ts) => match r {
                LuaType::Variadic(w) => match *w {
                    VariadicType::Multi(us) => {
                        &&& us@.len() == ts@.len()
                        &&& forall|i: int| #![trigger ts@[i]] 0 <= i < ts@.len() ==> instantiated(s, ts@[i], us@[i])
                    },
                    _ => false,
                },
                _ => false,
            },
        },
        LuaType::Union(u) => match r {
            LuaType::Union(v) => union_instantiated(s, *u, *v),
            _ => false,
        },
        _ => r == t,
    }
}

/// `v` is the union `u` with the templates that `s` gives types replaced in
/// each of its types, in order.
pub open spec fn union_instantiated(s: TypeSubstitutor, u: LuaUnionType, v: LuaUnionType) -> bool
    decreases u,
{
    match u {
        LuaUnionType::Last(t) => v matches LuaUnionType::Last(w) && instantiated(s, t, w),
        LuaUnionType::More(t, rest) => v matches LuaUnionType::More(w, rest2) && instantiated(s, t, w)
            && union_instantiated(s, *rest, *rest2),
    }
}

/// The union `u` with the templates that `s` gives types replaced in each
/// of its types.
pub fn instantiate_union(s: &TypeSubstitutor, u: &LuaUnionType) -> (r: LuaUnionType)
    requires
        s.wf(),
    ensures
        union_instantiated(*s, *u, r),
    decreases u,
{
    match u {
        LuaUnionType::Last(t) => LuaUnionType::Last(instantiate_type(s, t)),
        LuaUnionType::More(t, rest) => {
            let w = instantiate_type(s, t);
            let rest2 = instantiate_union(s, rest);
            LuaUnionType::More(w, Arc::new(rest2))
        },
    }
}

/// `t` with the templates that `s` gives types replaced.
pub fn instantiate_type(s: &TypeSubstitutor, t: &LuaType) -> (r: LuaType)
    requires
        s.wf(),
    ensures
        instantiated(*s, *t, r),
    decreases t,
{
    match t {
        LuaType::TplRef(tpl) | LuaType::ConstTplRef(tpl) | LuaType::StrTplRef(tpl) => {
            match s.get(&tpl.tpl_id) {
                Some(x) => x.clone(),
                None => t.clone(),
            }
        },
        LuaType::SelfInfer => match &s.self_type {
            Some(x) => x.clone(),
            None => t.clone(),
        },
        LuaType::ArgNameInfer(info) => match s.get_arg_type(false, info) {
            Some(x) => x.clone(),
            None => t.clone(),
        },
        LuaType::ArgStringInfer(info) => match s.get_arg_type(true, info) {
            Some(x) => x.clone(),
            None => t.clone(),
        },
        LuaType::DocFunction(f) => LuaType::DocFunction(Arc::new(instantiate_function(s, f))),
        LuaType::Generic(gen) => {
            assert(decreases_to!(*t => gen.params));
            let mut params: Vec<LuaType> = Vec::new();
            let mut i: usize = 0;
            while i < gen.params.len()
                invariant
                    s.wf(),
                    decreases_to!(*t => gen.params),
                    i <= gen.params@.len(),
                    params@.len() == i,
                    forall|j: int| #![trigger gen.params@[j]] 0 <= j < i ==> instantiated(*s, gen.params@[j], params@[j]),
                decreases gen.params@.len() - i,
            {
                proof {
                    assert(decreases_to!(gen.params => gen.params[i as int]));

                }
                let p = instantiate_type(s, &gen.params[i]);
                params.push(p);
                i = i + 1;
            }
            LuaType::Generic(Arc::new(LuaGenericType { base: gen.base.clone(), params }))
        },
        LuaType::Variadic(v) => match &**v {
            VariadicType::Base(b) => LuaType::Variadic(Arc::new(VariadicType::Base(instantiate_type(s, b)))),
            VariadicType::Multi(ts) => {
                assert(decreases_to!(*t => *ts));
                let mut us: Vec<LuaType> = Vec::new();
                let mut i: usize = 0;
                while i < ts.len()
                    invariant
                        s.wf(),
                        decreases_to!(*t => *ts),
                        i <= ts@.len(),
                        us@.len() == i,
                        forall|j: int| #![trigger ts@[j]] 0 <= j < i ==> instantiated(*s, ts@[j], us@[j]),
                    decreases ts@.len() - i,
                {
                    proof {
                        assert(decreases_to!(*ts => ts[i as int]));

                    }
                    let u = instantiate_type(s, &ts[i]);
                    us.push(u);
                    i = i + 1;
                }
                LuaType::Variadic(Arc::new(VariadicType::Multi(us)))
            },
        },
        LuaType::Union(u) => LuaType::Union(Arc::new(instantiate_union(s, u))),
        _ => t.clone(),
    }
}

/// The function type `f` with the templates that `s` gives types replaced,
/// in its parameters and its result.
pub fn instantiate_function(s: &TypeSubstitutor, f: &LuaFunctionType) -> (r: LuaFunctionType)
    requires
        s.wf(),
    ensures
        instantiated(*s, LuaType::DocFunction(Arc::new(*f)), LuaType::DocFunction(Arc::new(r))),
    decreases f,
{
    let mut params: Vec<(String, Option<LuaType>)> = Vec::new();
    let mut i: usize = 0;
    while i < f.params.len()
        invariant
            s.wf(),
            i <= f.params@.len(),
            params@.len() == i,
            forall|j: int|
                #![trigger f.params@[j]]
                0 <= j < i ==> params@[j].0 == f.params@[j].0 && match f.params@[j].1 {
                    Some(p) => match params@[j].1 {
                        Some(q) => instantiated(*s, p, q),
                        None => false,
                    },
                    None => params@[j].1 is None,
                },
        decreases f.params@.len() - i,
    {
        let (name, t) = &f.params[i];
        let nt = match t {
            Some(t) => Some(instantiate_type(s, t)),
            None => None,
        };
        params.push((name.clone(), nt));
        i = i + 1;
    }
    let ret = instantiate_type(s, &f.ret);
    LuaFunctionType { is_async: f.is_async, is_colon_define: f.is_colon_define, params, ret }
}

} // verus!
