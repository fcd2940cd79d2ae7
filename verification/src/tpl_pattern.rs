use vstd::prelude::*;
use crate::db::{DbIndex, DbState};
use crate::func_generic::as_doc_function_type;
use crate::substitutor::TypeSubstitutor;
use crate::types::{GenericTplId, InferFailReason, LuaType, VariadicType};

verus! {

broadcast use vstd::std_specs::vec::axiom_vec_index_decreases;

/// `new` keeps every template type of `old` and changes nothing else.
pub open spec fn extends(old: TypeSubstitutor, new: TypeSubstitutor) -> bool {
    &&& new.wf()
    &&& forall|id| #[trigger] old.replaced().contains_key(id) ==> new.replaced().contains_key(id)
        && new.replaced()[id] == old.replaced()[id]
    &&& new.need_infer == old.need_infer
    &&& new.self_type == old.self_type
    &&& new.arg_types == old.arg_types
}

pub proof fn lemma_extends_trans(a: TypeSubstitutor, b: TypeSubstitutor, c: TypeSubstitutor)
    requires
        extends(a, b),
        extends(b, c),
    ensures
        extends(a, c),
{
}

/// The base type a literal type decays to when it fills a template:
/// `1` to `integer`, `"a"` to `string`, `true` to `boolean`, a float to
/// `number`; any other type is itself.
pub open spec fn decay_spec(t: LuaType) -> LuaType {
    match t {
        LuaType::IntegerConst(_) => LuaType::Integer,
        LuaType::StringConst(_) => LuaType::String,
        LuaType::BooleanConst(_) => LuaType::Boolean,
        LuaType::FloatConst(_) => LuaType::Number,
        _ => t,
    }
}

pub fn decay(t: &LuaType) -> (r: LuaType)
    ensures
        r == decay_spec(*t),
{
    match t {
        LuaType::IntegerConst(_) => LuaType::Integer,
        LuaType::StringConst(_) => LuaType::String,
        LuaType::BooleanConst(_) => LuaType::Boolean,
        LuaType::FloatConst(_) => LuaType::Number,
        _ => t.clone(),
    }
}

/// The parameters and the result of the function that `t` names: a doc
/// function, or a signature that the database holds.
pub open spec fn fn_parts(s: DbState, t: LuaType) -> Option<(Seq<(String, Option<LuaType>)>, LuaType)> {
    match t {
        LuaType::DocFunction(f) => Some((f.params@, f.ret)),
        LuaType::Signature(id) => if s.signatures.contains_key(id) {
            Some((s.signatures[id].params@, s.signatures[id].ret))
        } else {
            None
        },
        _ => None,
    }
}

/// The smaller of two lengths.
pub open spec fn min_len(a: nat, b: nat) -> nat {
    if a < b {
        a
    } else {
        b
    }
}

/// The template types `m` once `pattern` is matched against `target`.
///
/// A bare template without a type takes the target (decayed for a plain
/// template); a function type is matched parameter by parameter, as far as
/// both functions go, then by result, against the function `target` names;
/// a generic type against one of the same base, parameter by parameter; a
/// variadic `T...` by `T`, a list of types by its first one. Templates that
/// have a type keep it, and nothing else binds anything.
pub open spec fn pattern_bind(s: DbState, m: Map<GenericTplId, LuaType>, pattern: LuaType, target: LuaType) -> Map<
    GenericTplId,
    LuaType,
>
    decreases pattern, 1nat, 0nat,
{
    match pattern {
        LuaType::TplRef(tpl) => if m.contains_key(tpl.tpl_id) {
            m
        } else {
            m.insert(tpl.tpl_id, decay_spec(target))
        },
        LuaType::ConstTplRef(tpl) => if m.contains_key(tpl.tpl_id) {
            m
        } else {
            m.insert(tpl.tpl_id, target)
        },
        LuaType::StrTplRef(tpl) => if m.contains_key(tpl.tpl_id) {
            m
        } else {
            m.insert(tpl.tpl_id, target)
        },
        LuaType::DocFunction(pf) => match fn_parts(s, target) {
            Some((tps, tret)) => {
                let m1 = bind_param_pairs(s, m, pattern, tps, min_len(pf.params@.len(), tps.len()));
                pattern_bind(s, m1, pf.ret, tret)
            },
            None => m,
        },
        LuaType::Generic(pg) => match target {
            LuaType::Generic(tg) => if pg.base.name@ == tg.base.name@ {
                bind_generic_pairs(s, m, pattern, tg.params@, min_len(pg.params@.len(), tg.params@.len()))
            } else {
                m
            },
            _ => m,
        },
        LuaType::Variadic(v) => match *v {
            VariadicType::Base(b) => pattern_bind(s, m, b, target),
            VariadicType::Multi(ts) => if ts@.len() > 0 {
                pattern_bind(s, m, ts@[0], target)
            } else {
                m
            },
        },
        _ => m,
    }
}

/// The template types `m` once the first `n` parameters of the function
/// type `parent` are matched against the parameters `tps`, each pair where
/// both have a type.
pub open spec fn bind_param_pairs(
    s: DbState,
    m: Map<GenericTplId, LuaType>,
    parent: LuaType,
    tps: Seq<(String, Option<LuaType>)>,
    n: nat,
) -> Map<GenericTplId, LuaType>
    decreases parent, 0nat, n,
{
    match parent {
        LuaType::DocFunction(pf) => if 0 < n && n <= pf.params@.len() && n <= tps.len() {
            let m1 = bind_param_pairs(s, m, parent, tps, (n - 1) as nat);
            match pf.params@[n - 1].1 {
                Some(p) => match tps[n - 1].1 {
                    Some(t) => {
                        proof {
                            assert(decreases_to!(pf.params => pf.params[n - 1]));
                        }
                        pattern_bind(s, m1, p, t)
                    },
                    None => m1,
                },
                None => m1,
            }
        } else {
            m
        },
        _ => m,
    }
}

/// The template types `m` once the first `n` parameters of the generic type
/// `parent` are matched against the types `tps`.
pub open spec fn bind_generic_pairs(
    s: DbState,
    m: Map<GenericTplId, LuaType>,
    parent: LuaType,
    tps: Seq<LuaType>,
    n: nat,
) -> Map<GenericTplId, LuaType>
    decreases parent, 0nat, n,
{
    match parent {
        LuaType::Generic(pg) => if 0 < n && n <= pg.params@.len() && n <= tps.len() {
            let m1 = bind_generic_pairs(s, m, parent, tps, (n - 1) as nat);
            proof {
                assert(decreases_to!(pg.params => pg.params[n - 1]));
            }
            pattern_bind(s, m1, pg.params@[n - 1], tps[n - 1])
        } else {
            m
        },
        _ => m,
    }
}

/// The template types `m` once each of the first `n` patterns `ps` is
/// matched against the type at its position in `ts`.
pub open spec fn bind_args(s: DbState, m: Map<GenericTplId, LuaType>, ps: Seq<LuaType>, ts: Seq<LuaType>, n: nat) -> Map<
    GenericTplId,
    LuaType,
>
    decreases n,
{
    if n == 0 {
        m
    } else {
        pattern_bind(s, bind_args(s, m, ps, ts, (n - 1) as nat), ps[n - 1], ts[n - 1])
    }
}

/// The template types `m` once each of the first `n` patterns `ps` is
/// matched against the same `target`.
pub open spec fn bind_each(s: DbState, m: Map<GenericTplId, LuaType>, ps: Seq<LuaType>, target: LuaType, n: nat) -> Map<
    GenericTplId,
    LuaType,
>
    decreases n,
{
    if n == 0 {
        m
    } else {
        pattern_bind(s, bind_each(s, m, ps, target, (n - 1) as nat), ps[n - 1], target)
    }
}

/// Matches the type `target` against `pattern` and gives each template of
/// the pattern that has no type yet the type found in its place: a bare
/// template takes the target itself; function types are matched parameter by
/// parameter and by result, generic types of the same base parameter by
/// parameter, and a variadic pattern by its element type. Templates that
/// already have a type keep it.
pub fn tpl_pattern_match(db: &DbIndex, s: &mut TypeSubstitutor, pattern: &LuaType, target: &LuaType) -> (r: Result<(), InferFailReason>)
    requires
        db.wf(),
        old(s).wf(),
    ensures
        r is Ok,
        extends(*old(s), *final(s)),
        final(s).replaced() == pattern_bind(db@, old(s).replaced(), *pattern, *target),
    decreases pattern,
{
    let ghost m0 = s.replaced();
    match pattern {
        LuaType::TplRef(tpl) => {
            s.insert_type(tpl.get_tpl_id(), decay(target), false);
        },
        LuaType::ConstTplRef(tpl) | LuaType::StrTplRef(tpl) => {
            s.insert_type(tpl.get_tpl_id(), target.clone(), false);
        },
        LuaType::DocFunction(pf) => {
            if let Ok(Some(tf)) = as_doc_function_type(db, target) {
                let ghost s0 = *s;
                let n = if pf.params.len() < tf.params.len() {
                    pf.params.len()
                } else {
                    tf.params.len()
                };
                let mut i: usize = 0;
                while i < n
                    invariant
                        db.wf(),
                        s.wf(),
                        decreases_to!(*pattern => pf.params),
                        *pattern == LuaType::DocFunction(*pf),
                        n <= pf.params@.len(),
                        n <= tf.params@.len(),
                        i <= n,
                        extends(s0, *s),
                        s.replaced() == bind_param_pairs(db@, m0, *pattern, tf.params@, i as nat),
                    decreases n - i,
                {
                    let ghost si = *s;
                    match (&pf.params[i].1, &tf.params[i].1) {
                        (Some(p), Some(t)) => {
                            proof {
                                assert(decreases_to!(pf.params => pf.params[i as int]));
                            }
                            let _ = tpl_pattern_match(db, s, p, t);
                            proof {
                                lemma_extends_trans(s0, si, *s);
                            }
                        },
                        _ => {},
                    }
                    i = i + 1;
                }
                let ghost s1 = *s;
                let _ = tpl_pattern_match(db, s, &pf.ret, &tf.ret);
                proof {
                    lemma_extends_trans(s0, s1, *s);
                }
            }
        },
        LuaType::Generic(pg) => {
            if let LuaType::Generic(tg) = target {
                if pg.base.name == tg.base.name {
                    let ghost s0 = *s;
                    let n = if pg.params.len() < tg.params.len() {
                        pg.params.len()
                    } else {
                        tg.params.len()
                    };
                    let mut i: usize = 0;
                    while i < n
                        invariant
                            db.wf(),
                            s.wf(),
                            decreases_to!(*pattern => pg.params),
                            *pattern == LuaType::Generic(*pg),
                            n <= pg.params@.len(),
                            n <= tg.params@.len(),
                            i <= n,
                            extends(s0, *s),
                            s.replaced() == bind_generic_pairs(db@, m0, *pattern, tg.params@, i as nat),
                        decreases n - i,
                    {
                        let ghost si = *s;
                        proof {
                            assert(decreases_to!(pg.params => pg.params[i as int]));
                        }
                        let _ = tpl_pattern_match(db, s, &pg.params[i], &tg.params[i]);
                        proof {
                            lemma_extends_trans(s0, si, *s);
                        }
                        i = i + 1;
                    }
                }
            }
        },
        LuaType::Variadic(v) => match &**v {
            VariadicType::Base(b) => {
                let _ = tpl_pattern_match(db, s, b, target);
            },
            VariadicType::Multi(ts) => {
                if ts.len() > 0 {
                    proof {
                        assert(decreases_to!(*ts => ts[0]));
                    }
                    let _ = tpl_pattern_match(db, s, &ts[0], target);
                }
            },
        },
        _ => {},
    }
    Ok(())
}

/// Matches each parameter pattern against the argument type at the same
/// position, as far as both lists go.
pub fn tpl_pattern_match_args(db: &DbIndex, s: &mut TypeSubstitutor, params: &Vec<LuaType>, args: &Vec<LuaType>) -> (r: Result<(), InferFailReason>)
    requires
        db.wf(),
        old(s).wf(),
    ensures
        r is Ok,
        extends(*old(s), *final(s)),
        final(s).replaced() == bind_args(
            db@,
            old(s).replaced(),
            params@,
            args@,
            min_len(params@.len(), args@.len()),
        ),
{
    let ghost s0 = *s;
    let mut i: usize = 0;
    while i < params.len() && i < args.len()
        invariant
            db.wf(),
            s.wf(),
            extends(s0, *s),
            i <= params@.len(),
            i <= args@.len(),
            s.replaced() == bind_args(db@, s0.replaced(), params@, args@, i as nat),
        decreases params@.len() - i,
    {
        let ghost si = *s;
        let _ = tpl_pattern_match(db, s, &params[i], &args[i]);
        proof {
            lemma_extends_trans(s0, si, *s);
        }
        i = i + 1;
    }
    Ok(())
}

/// Matches the result pattern of a function parameter against the type the
/// argument's function returns.
pub fn return_type_pattern_match_target_type(db: &DbIndex, s: &mut TypeSubstitutor, return_pattern: &LuaType, target: &LuaType) -> (r: Result<(), InferFailReason>)
    requires
        db.wf(),
        old(s).wf(),
    ensures
        r is Ok,
        extends(*old(s), *final(s)),
        final(s).replaced() == pattern_bind(db@, old(s).replaced(), *return_pattern, *target),
{
    tpl_pattern_match(db, s, return_pattern, target)
}

/// The template types `m` once a variadic parameter is matched against the
/// types of all the remaining arguments: `T...` against the first of them, a
/// list of types position by position.
pub open spec fn variadic_bind(s: DbState, m: Map<GenericTplId, LuaType>, variadic: VariadicType, arg_types: Seq<LuaType>) -> Map<
    GenericTplId,
    LuaType,
> {
    match variadic {
        VariadicType::Base(b) => if arg_types.len() > 0 {
            pattern_bind(s, m, b, arg_types[0])
        } else {
            m
        },
        VariadicType::Multi(ts) => bind_args(s, m, ts@, arg_types, min_len(ts@.len(), arg_types.len())),
    }
}

/// Matches a variadic parameter against the types of all the remaining
/// arguments: `T...` against the first of them, a list of types position by
/// position.
pub fn variadic_tpl_pattern_match(db: &DbIndex, s: &mut TypeSubstitutor, variadic: &VariadicType, arg_types: &Vec<LuaType>) -> (r: Result<(), InferFailReason>)
    requires
        db.wf(),
        old(s).wf(),
    ensures
        r is Ok,
        extends(*old(s), *final(s)),
        final(s).replaced() == variadic_bind(db@, old(s).replaced(), *variadic, arg_types@),
{
    match variadic {
        VariadicType::Base(b) => {
            if arg_types.len() > 0 {
                let _ = tpl_pattern_match(db, s, b, &arg_types[0]);
            }
            Ok(())
        },
        VariadicType::Multi(ts) => tpl_pattern_match_args(db, s, ts, arg_types),
    }
}

/// The template types `m` once the remaining parameters are matched against
/// an argument that gives several values: each against `T` for `T...`, or
/// position by position against a list of types.
pub open spec fn multi_return_bind(
    s: DbState,
    m: Map<GenericTplId, LuaType>,
    func_param_types: Seq<LuaType>,
    variadic: VariadicType,
) -> Map<GenericTplId, LuaType> {
    match variadic {
        VariadicType::Base(b) => bind_each(s, m, func_param_types, b, func_param_types.len()),
        VariadicType::Multi(ts) => bind_args(s, m, func_param_types, ts@, min_len(func_param_types.len(), ts@.len())),
    }
}

/// Matches the remaining parameters against the types of an argument that
/// gives several values.
pub fn multi_param_tpl_pattern_match_multi_return(db: &DbIndex, s: &mut TypeSubstitutor, func_param_types: &Vec<LuaType>, variadic: &VariadicType) -> (r: Result<(), InferFailReason>)
    requires
        db.wf(),
        old(s).wf(),
    ensures
        r is Ok,
        extends(*old(s), *final(s)),
        final(s).replaced() == multi_return_bind(db@, old(s).replaced(), func_param_types@, *variadic),
{
    match variadic {
        VariadicType::Base(b) => {
            let ghost s0 = *s;
            let mut i: usize = 0;
            while i < func_param_types.len()
                invariant
                    db.wf(),
                    s.wf(),
                    extends(s0, *s),
                    i <= func_param_types@.len(),
                    s.replaced() == bind_each(db@, s0.replaced(), func_param_types@, *b, i as nat),
                decreases func_param_types@.len() - i,
            {
                let ghost si = *s;
                let _ = tpl_pattern_match(db, s, &func_param_types[i], b);
                proof {
                    lemma_extends_trans(s0, si, *s);
                }
                i = i + 1;
            }
            Ok(())
        },
        VariadicType::Multi(ts) => tpl_pattern_match_args(db, s, func_param_types, ts),
    }
}

} // verus!
