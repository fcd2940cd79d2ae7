use vstd::prelude::*;
use std::sync::Arc;
use crate::tpl_set::{tpl_key, tpl_key_spec, tpl_set_insert, tpl_set_items, TplSet};
use crate::types::{arc_clone, clone_function, LuaArgInferType, LuaFunctionType, LuaType, LuaUnionType, VariadicType};

verus! {

broadcast use vstd::std_specs::vec::axiom_vec_index_decreases;

/// `k` is the key of a template that `t` mentions: a plain or `const`
/// template (only one of a function, when `only_func`), or, when `with_str`,
/// a string template.
pub open spec fn mentions_tpl(t: LuaType, k: u64, only_func: bool, with_str: bool) -> bool
    decreases t,
{
    match t {
        LuaType::TplRef(tpl) => (!only_func || tpl.tpl_id is Func) && tpl_key_spec(tpl.tpl_id) == k,
        LuaType::ConstTplRef(tpl) => (!only_func || tpl.tpl_id is Func) && tpl_key_spec(tpl.tpl_id) == k,
        LuaType::StrTplRef(tpl) => with_str && tpl_key_spec(tpl.tpl_id) == k,
        LuaType::DocFunction(f) => mentions_tpl(f.ret, k, only_func, with_str) || exists|i: int|
            #![trigger f.params@[i]]
            0 <= i < f.params@.len() && f.params@[i].1 is Some && mentions_tpl(
                f.params@[i].1->0,
                k,
                only_func,
                with_str,
            ),
        LuaType::Generic(g) => exists|i: int|
            #![trigger g.params@[i]]
            0 <= i < g.params@.len() && mentions_tpl(g.params@[i], k, only_func, with_str),
        LuaType::Variadic(v) => match *v {
            VariadicType::Base(b) => mentions_tpl(b, k, only_func, with_str),
            VariadicType::Multi(ts) => exists|i: int|
                #![trigger ts@[i]]
                0 <= i < ts@.len() && mentions_tpl(ts@[i], k, only_func, with_str),
        },
        LuaType::Union(u) => union_mentions_tpl(*u, k, only_func, with_str),
        _ => false,
    }
}

/// Some type of the union `u` mentions the template `k` (see `mentions_tpl`).
pub open spec fn union_mentions_tpl(u: LuaUnionType, k: u64, only_func: bool, with_str: bool) -> bool
    decreases u,
{
    match u {
        LuaUnionType::Last(t) => mentions_tpl(t, k, only_func, with_str),
        LuaUnionType::More(t, rest) => mentions_tpl(t, k, only_func, with_str) || union_mentions_tpl(
            *rest,
            k,
            only_func,
            with_str,
        ),
    }
}

/// `t` mentions the type of `self`.
pub open spec fn mentions_self(t: LuaType) -> bool
    decreases t,
{
    match t {
        LuaType::SelfInfer => true,
        LuaType::DocFunction(f) => mentions_self(f.ret) || exists|i: int|
            #![trigger f.params@[i]]
            0 <= i < f.params@.len() && f.params@[i].1 is Some && mentions_self(f.params@[i].1->0),
        LuaType::Generic(g) => exists|i: int|
            #![trigger g.params@[i]]
            0 <= i < g.params@.len() && mentions_self(g.params@[i]),
        LuaType::Variadic(v) => match *v {
            VariadicType::Base(b) => mentions_self(b),
            VariadicType::Multi(ts) => exists|i: int| #![trigger ts@[i]] 0 <= i < ts@.len() && mentions_self(ts@[i]),
        },
        LuaType::Union(u) => union_mentions_self(*u),
        _ => false,
    }
}

/// Some type of the union `u` mentions the type of `self`.
pub open spec fn union_mentions_self(u: LuaUnionType) -> bool
    decreases u,
{
    match u {
        LuaUnionType::Last(t) => mentions_self(t),
        LuaUnionType::More(t, rest) => mentions_self(t) || union_mentions_self(*rest),
    }
}

/// What a function type uses of a call: the templates to infer, whether it
/// mentions `self`, and its argument-name and argument-string templates.
pub struct GenericUsage {
    pub tpls: TplSet,
    pub contain_self: bool,
    pub arg_names: Vec<Arc<LuaArgInferType>>,
    pub arg_strings: Vec<Arc<LuaArgInferType>>,
}

/// `t` mentions the argument template `info`: an argument-string template
/// when `is_string`, an argument-name template otherwise.
pub open spec fn mentions_arg(t: LuaType, is_string: bool, info: LuaArgInferType) -> bool
    decreases t,
{
    match t {
        LuaType::ArgNameInfer(i) => !is_string && *i == info,
        LuaType::ArgStringInfer(i) => is_string && *i == info,
        LuaType::DocFunction(f) => mentions_arg(f.ret, is_string, info) || exists|i: int|
            #![trigger f.params@[i]]
            0 <= i < f.params@.len() && f.params@[i].1 is Some && mentions_arg(f.params@[i].1->0, is_string, info),
        LuaType::Generic(g) => exists|i: int|
            #![trigger g.params@[i]]
            0 <= i < g.params@.len() && mentions_arg(g.params@[i], is_string, info),
        LuaType::Variadic(v) => match *v {
            VariadicType::Base(b) => mentions_arg(b, is_string, info),
            VariadicType::Multi(ts) => exists|i: int|
                #![trigger ts@[i]]
                0 <= i < ts@.len() && mentions_arg(ts@[i], is_string, info),
        },
        LuaType::Union(u) => union_mentions_arg(*u, is_string, info),
        _ => false,
    }
}

/// Some type of the union `u` mentions the argument template `info`.
pub open spec fn union_mentions_arg(u: LuaUnionType, is_string: bool, info: LuaArgInferType) -> bool
    decreases u,
{
    match u {
        LuaUnionType::Last(t) => mentions_arg(t, is_string, info),
        LuaUnionType::More(t, rest) => mentions_arg(t, is_string, info) || union_mentions_arg(*rest, is_string, info),
    }
}

/// `info` is one of the templates listed in `v`.
pub open spec fn arg_listed(v: Seq<Arc<LuaArgInferType>>, info: LuaArgInferType) -> bool {
    exists|j: int| 0 <= j < v.len() && *v[j] == info
}

/// `v2` starts with `v1` and lists every argument template of its kind that
/// `t` mentions.
pub open spec fn args_grown(v1: Seq<Arc<LuaArgInferType>>, v2: Seq<Arc<LuaArgInferType>>, t: LuaType, is_string: bool) -> bool {
    &&& v1.len() <= v2.len()
    &&& forall|j: int| 0 <= j < v1.len() ==> #[trigger] v2[j] == v1[j]
    &&& forall|info: LuaArgInferType| #[trigger] mentions_arg(t, is_string, info) ==> arg_listed(v2, info)
}

/// `u2` holds what `u1` holds and what `t` mentions.
pub open spec fn visited(u1: GenericUsage, u2: GenericUsage, t: LuaType, only_func: bool, with_str: bool) -> bool {
    &&& forall|k: u64| #[trigger]
        tpl_set_items(u2.tpls).contains(k) <==> (tpl_set_items(u1.tpls).contains(k) || mentions_tpl(
            t,
            k,
            only_func,
            with_str,
        ))
    &&& u2.contain_self == (u1.contain_self || mentions_self(t))
    &&& args_grown(u1.arg_names@, u2.arg_names@, t, false)
    &&& args_grown(u1.arg_strings@, u2.arg_strings@, t, true)
}

/// A template listed in a prefix is listed in the whole.
pub proof fn lemma_listed_grows(v1: Seq<Arc<LuaArgInferType>>, v2: Seq<Arc<LuaArgInferType>>, info: LuaArgInferType)
    requires
        v1.len() <= v2.len(),
        forall|j: int| 0 <= j < v1.len() ==> #[trigger] v2[j] == v1[j],
        arg_listed(v1, info),
    ensures
        arg_listed(v2, info),
{
    let j = choose|j: int| 0 <= j < v1.len() && *v1[j] == info;
    assert(v2[j] == v1[j]);
}

/// `v` starts with `v0`.
pub open spec fn starts_with(v0: Seq<Arc<LuaArgInferType>>, v: Seq<Arc<LuaArgInferType>>) -> bool {
    &&& v0.len() <= v.len()
    &&& forall|j: int| 0 <= j < v0.len() ==> #[trigger] v[j] == v0[j]
}

/// A walk that keeps what was listed before keeps what was listed at the
/// start.
proof fn lemma_args_step(v0: Seq<Arc<LuaArgInferType>>, vi: Seq<Arc<LuaArgInferType>>, v: Seq<Arc<LuaArgInferType>>)
    requires
        starts_with(v0, vi),
        starts_with(vi, v),
    ensures
        starts_with(v0, v),
        forall|info: LuaArgInferType| #[trigger] arg_listed(vi, info) ==> arg_listed(v, info),
{
    assert forall|info: LuaArgInferType| #[trigger] arg_listed(vi, info) implies arg_listed(v, info) by {
        lemma_listed_grows(vi, v, info);
    }
}

/// A variadic `T...` mentions the argument templates that `T` mentions.
proof fn lemma_variadic_base_mentions(t: LuaType, b: LuaType)
    requires
        t == LuaType::Variadic(Arc::new(VariadicType::Base(b))),
    ensures
        forall|is_string: bool, info: LuaArgInferType|
            #[trigger] mentions_arg(t, is_string, info) == mentions_arg(b, is_string, info),
{
    match t {
        LuaType::Variadic(v) => match *v {
            VariadicType::Base(c) => {
                assert(c == b);
            },
            _ => {},
        },
        _ => {},
    }
}

/// Walks `t` and records in `u` the templates, `self` and argument templates
/// it mentions.
pub fn visit_generic_usage(t: &LuaType, u: &mut GenericUsage, only_func: bool, with_str: bool)
    ensures
        visited(*old(u), *final(u), *t, only_func, with_str),
    decreases t,
{
    match t {
        LuaType::TplRef(tpl) | LuaType::ConstTplRef(tpl) => {
            if !only_func || tpl.tpl_id.is_func() {
                tpl_set_insert(&mut u.tpls, tpl_key(tpl.tpl_id));
            }
        },
        LuaType::StrTplRef(tpl) => {
            if with_str {
                tpl_set_insert(&mut u.tpls, tpl_key(tpl.tpl_id));
            }
        },
        LuaType::SelfInfer => {
            u.contain_self = true;
        },
        LuaType::ArgNameInfer(info) => {
            let ghost n = u.arg_names@.len();
            u.arg_names.push(arc_clone(info));
            proof {
                assert(*u.arg_names@[n as int] == **info);
            }
        },
        LuaType::ArgStringInfer(info) => {
            let ghost n = u.arg_strings@.len();
            u.arg_strings.push(arc_clone(info));
            proof {
                assert(*u.arg_strings@[n as int] == **info);
            }
        },
        LuaType::DocFunction(f) => {
            let ghost u0 = *u;
            let mut i: usize = 0;
            while i < f.params.len()
                invariant
                    decreases_to!(*t => f.params),
                    i <= f.params@.len(),
                    forall|k: u64| #[trigger]
                        tpl_set_items(u.tpls).contains(k) <==> (tpl_set_items(u0.tpls).contains(k) || exists|j: int|
                            #![trigger f.params@[j]]
                            0 <= j < i && f.params@[j].1 is Some && mentions_tpl(
                                f.params@[j].1->0,
                                k,
                                only_func,
                                with_str,
                            )),
                    u.contain_self == (u0.contain_self || exists|j: int|
                        #![trigger f.params@[j]]
                        0 <= j < i && f.params@[j].1 is Some && mentions_self(f.params@[j].1->0)),
                    starts_with(u0.arg_names@, u.arg_names@),
                    starts_with(u0.arg_strings@, u.arg_strings@),
                    forall|info: LuaArgInferType| #[trigger]
                        mentions_arg(*t, false, info) ==> mentions_arg(f.ret, false, info) || (exists|j: int|
                            #![trigger f.params@[j]]
                            i <= j < f.params@.len() && f.params@[j].1 is Some && mentions_arg(
                                f.params@[j].1->0,
                                false,
                                info,
                            )) || arg_listed(u.arg_names@, info),
                    forall|info: LuaArgInferType| #[trigger]
                        mentions_arg(*t, true, info) ==> mentions_arg(f.ret, true, info) || (exists|j: int|
                            #![trigger f.params@[j]]
                            i <= j < f.params@.len() && f.params@[j].1 is Some && mentions_arg(
                                f.params@[j].1->0,
                                true,
                                info,
                            )) || arg_listed(u.arg_strings@, info),
                decreases f.params@.len() - i,
            {
                let ghost ui = *u;
                if let Some(p) = &f.params[i].1 {
                    proof {
                        assert(decreases_to!(f.params => f.params[i as int]));
                    }
                    visit_generic_usage(p, u, only_func, with_str);
                    proof {
                        lemma_args_step(u0.arg_names@, ui.arg_names@, u.arg_names@);
                        lemma_args_step(u0.arg_strings@, ui.arg_strings@, u.arg_strings@);
                    }
                }
                proof {
                    assert forall|k: u64| #[trigger]
                        tpl_set_items(u.tpls).contains(k) <==> (tpl_set_items(u0.tpls).contains(k) || exists|j: int|
                            #![trigger f.params@[j]]
                            0 <= j < i + 1 && f.params@[j].1 is Some && mentions_tpl(
                                f.params@[j].1->0,
                                k,
                                only_func,
                                with_str,
                            )) by {
                        if f.params@[i as int].1 is Some && mentions_tpl(f.params@[i as int].1->0, k, only_func, with_str) {
                            assert(tpl_set_items(u.tpls).contains(k));
                        }
                    }
                    if f.params@[i as int].1 is Some && mentions_self(f.params@[i as int].1->0) {
                        assert(u.contain_self);
                    }
                    assert forall|info: LuaArgInferType| #[trigger] mentions_arg(*t, false, info) implies mentions_arg(
                        f.ret,
                        false,
                        info,
                    ) || (exists|j: int|
                        #![trigger f.params@[j]]
                        i + 1 <= j < f.params@.len() && f.params@[j].1 is Some && mentions_arg(
                            f.params@[j].1->0,
                            false,
                            info,
                        )) || arg_listed(u.arg_names@, info) by {
                        if !mentions_arg(f.ret, false, info) && !arg_listed(ui.arg_names@, info) {
                            let j = choose|j: int|
                                #![trigger f.params@[j]]
                                i <= j < f.params@.len() && f.params@[j].1 is Some && mentions_arg(
                                    f.params@[j].1->0,
                                    false,
                                    info,
                                );
                            if j > i {
                                assert(f.params@[j].1 is Some);
                            }
                        }
                    }
                    assert forall|info: LuaArgInferType| #[trigger] mentions_arg(*t, true, info) implies mentions_arg(
                        f.ret,
                        true,
                        info,
                    ) || (exists|j: int|
                        #![trigger f.params@[j]]
                        i + 1 <= j < f.params@.len() && f.params@[j].1 is Some && mentions_arg(
                            f.params@[j].1->0,
                            true,
                            info,
                        )) || arg_listed(u.arg_strings@, info) by {
                        if !mentions_arg(f.ret, true, info) && !arg_listed(ui.arg_strings@, info) {
                            let j = choose|j: int|
                                #![trigger f.params@[j]]
                                i <= j < f.params@.len() && f.params@[j].1 is Some && mentions_arg(
                                    f.params@[j].1->0,
                                    true,
                                    info,
                                );
                            if j > i {
                                assert(f.params@[j].1 is Some);
                            }
                        }
                    }
                }
                i = i + 1;
            }
            let ghost u1 = *u;
            visit_generic_usage(&f.ret, u, only_func, with_str);
            proof {
                lemma_args_step(u0.arg_names@, u1.arg_names@, u.arg_names@);
                lemma_args_step(u0.arg_strings@, u1.arg_strings@, u.arg_strings@);
                assert forall|k: u64| #[trigger]
                    tpl_set_items(u.tpls).contains(k) <==> (tpl_set_items(u0.tpls).contains(k) || mentions_tpl(
                        *t,
                        k,
                        only_func,
                        with_str,
                    )) by {
                    assert(tpl_set_items(u1.tpls).contains(k) == (tpl_set_items(u0.tpls).contains(k)
                        || exists|j: int|
                        #![trigger f.params@[j]]
                        0 <= j < f.params@.len() && f.params@[j].1 is Some && mentions_tpl(
                            f.params@[j].1->0,
                            k,
                            only_func,
                            with_str,
                        )));
                }
                assert forall|info: LuaArgInferType| #[trigger] mentions_arg(*t, false, info) implies arg_listed(
                    u.arg_names@,
                    info,
                ) by {
                    if !mentions_arg(f.ret, false, info) {
                        assert(arg_listed(u1.arg_names@, info));
                    }
                }
                assert forall|info: LuaArgInferType| #[trigger] mentions_arg(*t, true, info) implies arg_listed(
                    u.arg_strings@,
                    info,
                ) by {
                    if !mentions_arg(f.ret, true, info) {
                        assert(arg_listed(u1.arg_strings@, info));
                    }
                }
            }
        },
        LuaType::Generic(g) => {
            let ghost u0 = *u;
            let mut i: usize = 0;
            while i < g.params.len()
                invariant
                    decreases_to!(*t => g.params),
                    i <= g.params@.len(),
                    forall|k: u64| #[trigger]
                        tpl_set_items(u.tpls).contains(k) <==> (tpl_set_items(u0.tpls).contains(k) || exists|j: int|
                            #![trigger g.params@[j]]
                            0 <= j < i && mentions_tpl(g.params@[j], k, only_func, with_str)),
                    u.contain_self == (u0.contain_self || exists|j: int|
                        #![trigger g.params@[j]]
                        0 <= j < i && mentions_self(g.params@[j])),
                    starts_with(u0.arg_names@, u.arg_names@),
                    starts_with(u0.arg_strings@, u.arg_strings@),
                    forall|info: LuaArgInferType| #[trigger]
                        mentions_arg(*t, false, info) ==> (exists|j: int|
                            #![trigger g.params@[j]]
                            i <= j < g.params@.len() && mentions_arg(g.params@[j], false, info)) || arg_listed(
                            u.arg_names@,
                            info,
                        ),
                    forall|info: LuaArgInferType| #[trigger]
                        mentions_arg(*t, true, info) ==> (exists|j: int|
                            #![trigger g.params@[j]]
                            i <= j < g.params@.len() && mentions_arg(g.params@[j], true, info)) || arg_listed(
                            u.arg_strings@,
                            info,
                        ),
                decreases g.params@.len() - i,
            {
                proof {
                    assert(decreases_to!(g.params => g.params[i as int]));
                }
                let ghost ui = *u;
                visit_generic_usage(&g.params[i], u, only_func, with_str);
                proof {
                    lemma_args_step(u0.arg_names@, ui.arg_names@, u.arg_names@);
                    lemma_args_step(u0.arg_strings@, ui.arg_strings@, u.arg_strings@);
                    assert forall|info: LuaArgInferType| #[trigger] mentions_arg(*t, false, info) implies (exists|j: int|
                        #![trigger g.params@[j]]
                        i + 1 <= j < g.params@.len() && mentions_arg(g.params@[j], false, info)) || arg_listed(
                        u.arg_names@,
                        info,
                    ) by {
                        if !arg_listed(ui.arg_names@, info) {
                            let j = choose|j: int|
                                #![trigger g.params@[j]]
                                i <= j < g.params@.len() && mentions_arg(g.params@[j], false, info);
                            if j > i {
                                assert(mentions_arg(g.params@[j], false, info));
                            }
                        }
                    }
                    assert forall|info: LuaArgInferType| #[trigger] mentions_arg(*t, true, info) implies (exists|j: int|
                        #![trigger g.params@[j]]
                        i + 1 <= j < g.params@.len() && mentions_arg(g.params@[j], true, info)) || arg_listed(
                        u.arg_strings@,
                        info,
                    ) by {
                        if !arg_listed(ui.arg_strings@, info) {
                            let j = choose|j: int|
                                #![trigger g.params@[j]]
                                i <= j < g.params@.len() && mentions_arg(g.params@[j], true, info);
                            if j > i {
                                assert(mentions_arg(g.params@[j], true, info));
                            }
                        }
                    }
                    assert forall|k: u64| #[trigger]
                        tpl_set_items(u.tpls).contains(k) <==> (tpl_set_items(u0.tpls).contains(k) || exists|j: int|
                            #![trigger g.params@[j]]
                            0 <= j < i + 1 && mentions_tpl(g.params@[j], k, only_func, with_str)) by {
                        if mentions_tpl(g.params@[i as int], k, only_func, with_str) {
                            assert(tpl_set_items(u.tpls).contains(k));
                        }
                    }
                }
                i = i + 1;
            }
        },
        LuaType::Variadic(v) => match &**v {
            VariadicType::Base(b) => {
                visit_generic_usage(b, u, only_func, with_str);
                proof {
                    lemma_variadic_base_mentions(*t, *b);
                }
            },
            VariadicType::Multi(ts) => {
                let ghost u0 = *u;
                let mut i: usize = 0;
                while i < ts.len()
                    invariant
                        decreases_to!(*t => *ts),
                        i <= ts@.len(),
                        forall|k: u64| #[trigger]
                            tpl_set_items(u.tpls).contains(k) <==> (tpl_set_items(u0.tpls).contains(k)
                                || exists|j: int| #![trigger ts@[j]] 0 <= j < i && mentions_tpl(ts@[j], k, only_func, with_str)),
                        u.contain_self == (u0.contain_self || exists|j: int| #![trigger ts@[j]] 0 <= j < i && mentions_self(ts@[j])),
                        starts_with(u0.arg_names@, u.arg_names@),
                        starts_with(u0.arg_strings@, u.arg_strings@),
                        forall|info: LuaArgInferType| #[trigger]
                            mentions_arg(*t, false, info) ==> (exists|j: int|
                                #![trigger ts@[j]]
                                i <= j < ts@.len() && mentions_arg(ts@[j], false, info)) || arg_listed(u.arg_names@, info),
                        forall|info: LuaArgInferType| #[trigger]
                            mentions_arg(*t, true, info) ==> (exists|j: int|
                                #![trigger ts@[j]]
                                i <= j < ts@.len() && mentions_arg(ts@[j], true, info)) || arg_listed(u.arg_strings@, info),
                    decreases ts@.len() - i,
                {
                    proof {
                        assert(decreases_to!(*ts => ts[i as int]));
                    }
                    let ghost ui = *u;
                    visit_generic_usage(&ts[i], u, only_func, with_str);
                    proof {
                        lemma_args_step(u0.arg_names@, ui.arg_names@, u.arg_names@);
                        lemma_args_step(u0.arg_strings@, ui.arg_strings@, u.arg_strings@);
                        assert forall|info: LuaArgInferType| #[trigger] mentions_arg(*t, false, info) implies (exists|j: int|
                            #![trigger ts@[j]]
                            i + 1 <= j < ts@.len() && mentions_arg(ts@[j], false, info)) || arg_listed(u.arg_names@, info) by {
                            if !arg_listed(ui.arg_names@, info) {
                                let j = choose|j: int| #![trigger ts@[j]] i <= j < ts@.len() && mentions_arg(ts@[j], false, info);
                                if j > i {
                                    assert(mentions_arg(ts@[j], false, info));
                                }
                            }
                        }
                        assert forall|info: LuaArgInferType| #[trigger] mentions_arg(*t, true, info) implies (exists|j: int|
                            #![trigger ts@[j]]
                            i + 1 <= j < ts@.len() && mentions_arg(ts@[j], true, info)) || arg_listed(u.arg_strings@, info) by {
                            if !arg_listed(ui.arg_strings@, info) {
                                let j = choose|j: int| #![trigger ts@[j]] i <= j < ts@.len() && mentions_arg(ts@[j], true, info);
                                if j > i {
                                    assert(mentions_arg(ts@[j], true, info));
                                }
                            }
                        }
                        assert forall|k: u64| #[trigger]
                            tpl_set_items(u.tpls).contains(k) <==> (tpl_set_items(u0.tpls).contains(k)
                                || exists|j: int| #![trigger ts@[j]] 0 <= j < i + 1 && mentions_tpl(ts@[j], k, only_func, with_str)) by {
                            if mentions_tpl(ts@[i as int], k, only_func, with_str) {
                                assert(tpl_set_items(u.tpls).contains(k));
                            }
                        }
                    }
                    i = i + 1;
                }
            },
        },
        LuaType::Union(un) => {
            visit_union_usage(&**un, u, only_func, with_str);
        },
        _ => {},
    }
}

/// Walks each type of the union `un`, in order.
fn visit_union_usage(un: &LuaUnionType, u: &mut GenericUsage, only_func: bool, with_str: bool)
    ensures
        visited(*old(u), *final(u), LuaType::Union(Arc::new(*un)), only_func, with_str),
    decreases un,
{
    match un {
        LuaUnionType::Last(t) => {
            visit_generic_usage(t, u, only_func, with_str);
            proof {
                let ut = LuaType::Union(Arc::new(*un));
                assert forall|k: u64| #[trigger] mentions_tpl(ut, k, only_func, with_str) == mentions_tpl(*t, k, only_func, with_str) by {
                    assert(mentions_tpl(ut, k, only_func, with_str) == union_mentions_tpl(*un, k, only_func, with_str));
                }


                assert(mentions_self(ut) == union_mentions_self(*un));
                assert(union_mentions_self(*un) == mentions_self(*t));
                assert(u.contain_self == (old(u).contain_self || mentions_self(ut)));
                assert forall|b: bool, info: LuaArgInferType| #[trigger] mentions_arg(ut, b, info) == mentions_arg(*t, b, info) by {
                    assert(mentions_arg(ut, b, info) == union_mentions_arg(*un, b, info));
                }
                assert forall|k: u64| #[trigger]
                    tpl_set_items(u.tpls).contains(k) <==> (tpl_set_items(old(u).tpls).contains(k) || mentions_tpl(
                        ut,
                        k,
                        only_func,
                        with_str,
                    )) by {
                    assert(mentions_tpl(ut, k, only_func, with_str) == union_mentions_tpl(*un, k, only_func, with_str));
                }
            }
        },
        LuaUnionType::More(t, rest) => {
            let ghost u0 = *u;
            visit_generic_usage(t, u, only_func, with_str);
            let ghost u1 = *u;
            visit_union_usage(&**rest, u, only_func, with_str);
            proof {
                lemma_args_step(u0.arg_names@, u1.arg_names@, u.arg_names@);
                lemma_args_step(u0.arg_strings@, u1.arg_strings@, u.arg_strings@);
                let ut = LuaType::Union(Arc::new(*un));
                let rt = LuaType::Union(*rest);
                assert forall|k: u64| #[trigger] mentions_tpl(ut, k, only_func, with_str) == (mentions_tpl(
                    *t,
                    k,
                    only_func,
                    with_str,
                ) || mentions_tpl(rt, k, only_func, with_str)) by {
                    assert(mentions_tpl(ut, k, only_func, with_str) == union_mentions_tpl(*un, k, only_func, with_str));
                    assert(mentions_tpl(rt, k, only_func, with_str) == union_mentions_tpl(**rest, k, only_func, with_str));
                }
                assert(mentions_self(ut) == union_mentions_self(*un));
                assert(mentions_self(rt) == union_mentions_self(**rest));
                assert forall|b: bool, info: LuaArgInferType| #[trigger] mentions_arg(ut, b, info) == (mentions_arg(
                    *t,
                    b,
                    info,
                ) || mentions_arg(rt, b, info)) by {
                    assert(mentions_arg(ut, b, info) == union_mentions_arg(*un, b, info));
                    assert(mentions_arg(rt, b, info) == union_mentions_arg(**rest, b, info));
                }
                assert forall|k: u64| #[trigger]
                    tpl_set_items(u.tpls).contains(k) <==> (tpl_set_items(u0.tpls).contains(k) || mentions_tpl(
                        ut,
                        k,
                        only_func,
                        with_str,
                    )) by {
                    assert(tpl_set_items(u1.tpls).contains(k) <==> (tpl_set_items(u0.tpls).contains(k)
                        || mentions_tpl(*t, k, only_func, with_str)));
                }
            }
        },
    }
}

/// Walks the parameters and the result of the function type `f`.
pub fn visit_function_usage(f: &LuaFunctionType, u: &mut GenericUsage, only_func: bool, with_str: bool)
    ensures
        visited(*old(u), *final(u), LuaType::DocFunction(Arc::new(*f)), only_func, with_str),
{
    let copy = clone_function(f);
    let ghost cv = copy;
    let t = LuaType::DocFunction(Arc::new(copy));
    visit_generic_usage(&t, u, only_func, with_str);
    proof {
        let ft = LuaType::DocFunction(Arc::new(*f));
        assert forall|k: u64| mentions_tpl(t, k, only_func, with_str) == mentions_tpl(ft, k, only_func, with_str) by {
            assert(cv.params@ == f.params@);
        }
        assert(mentions_self(t) == mentions_self(ft)) by {
            assert(cv.params@ == f.params@);
        }
        assert forall|b: bool, info: LuaArgInferType| mentions_arg(t, b, info) == mentions_arg(ft, b, info) by {
            assert(cv.params@ == f.params@);
        }
    }
}

} // verus!
