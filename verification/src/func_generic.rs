use vstd::prelude::*;
use std::sync::Arc;
use crate::analysis::{doc_type_of, infer_expr, infer_expr_spec, is_doc_type, nearest_decl, FileReturn, INFER_DEPTH};
use crate::db::{is_nearest_decl, DbIndex, DbState};
use crate::generic_usage::{arg_listed, mentions_arg, mentions_self, mentions_tpl, visit_function_usage, GenericUsage};
use crate::ids::{FileId, LuaDeclId, LuaMemberId, LuaMemberOwner, LuaTypeDeclId, LuaTypeOwner};
use crate::substitutor::{arg_type_of, instantiate_function, instantiated, TypeSubstitutor};
use crate::syntax::{LuaCallExpr, LuaDocTypeRef, LuaNameExpr};
use crate::tpl_pattern::{
    bind_args, extends, fn_parts, lemma_extends_trans, min_len, multi_param_tpl_pattern_match_multi_return, multi_return_bind,
    pattern_bind, return_type_pattern_match_target_type, tpl_pattern_match, tpl_pattern_match_args, variadic_bind,
    variadic_tpl_pattern_match,
};
use crate::tpl_set::{tpl_of_key, tpl_set_is_empty, tpl_set_items, tpl_set_new, TplSet};
use crate::syntax::{access_path, expr_access_path, last_segment, str_last_segment, LuaExpr, LuaLiteralToken};
use crate::types::{
    arc_clone, clone_opt_type, intern_name, interned_text, GenericTpl, GenericTplId, InferFailReason, LuaArgInferType,
    LuaFunctionType, LuaGenericType, LuaType, LuaUnionType,
};

verus! {

/// The function type that `callable_type` stands for: a doc function itself,
/// the doc form of a signature, or none for any other type. A signature that
/// the index does not hold is an error.
pub fn as_doc_function_type(db: &DbIndex, callable_type: &LuaType) -> (r: Result<Option<Arc<LuaFunctionType>>, InferFailReason>)
    requires
        db.wf(),
    ensures
        match *callable_type {
            LuaType::DocFunction(f) => r == Ok::<Option<Arc<LuaFunctionType>>, InferFailReason>(Some(f)),
            LuaType::Signature(id) => if db@.signatures.contains_key(id) {
                let sig = db@.signatures[id];
                r matches Ok(Some(f)) && f.params@ == sig.params@ && f.ret == sig.ret
                    && f.is_colon_define == sig.is_colon_define && f.is_async == sig.is_async
            } else {
                r == Err::<Option<Arc<LuaFunctionType>>, InferFailReason>(InferFailReason::NoReason)
            },
            _ => r == Ok::<Option<Arc<LuaFunctionType>>, InferFailReason>(None),
        },
{
    Ok(
        match callable_type {
            LuaType::DocFunction(doc_func) => Some(arc_clone(doc_func)),
            LuaType::Signature(sig_id) => {
                let sig = match db.get_signature_index().get(sig_id) {
                    Some(sig) => sig,
                    None => return Err(InferFailReason::NoReason),
                };
                Some(sig.to_doc_func_type())
            },
            _ => None,
        },
    )
}

/// The number of parameters of `params` whose type is variadic.
pub open spec fn variadic_param_count(params: Seq<(String, Option<LuaType>)>) -> nat
    decreases params.len(),
{
    if params.len() == 0 {
        0
    } else {
        variadic_param_count(params.drop_last()) + if params.last().1 matches Some(t) && t is Variadic {
            1nat
        } else {
            0nat
        }
    }
}

/// Whether the argument given for a parameter of function type is better
/// matched after the other arguments: it is when the argument is a closure,
/// or when the parameter's function type has more than one variadic
/// parameter. A parameter that is not a function never is.
pub fn check_expr_can_later_infer(db: &DbIndex, func_param_type: &LuaType, call_arg_expr: &LuaExpr) -> (r: Result<bool, InferFailReason>)
    requires
        db.wf(),
    ensures
        r == later_infer_spec(db@, *func_param_type, *call_arg_expr),
{
    let doc_function = match as_doc_function_type(db, func_param_type) {
        Ok(Some(f)) => f,
        Ok(None) => return Ok(false),
        Err(e) => return Err(e),
    };

    if let LuaExpr::ClosureExpr(_) = call_arg_expr {
        return Ok(true);
    }

    let doc_params = doc_function.get_params();
    let mut variadic_count: usize = 0;
    let mut i: usize = 0;
    while i < doc_params.len()
        invariant
            i <= doc_params@.len(),
            variadic_count == variadic_param_count(doc_params@.subrange(0, i as int)),
            variadic_count <= i,
        decreases doc_params@.len() - i,
    {
        proof {
            let p = doc_params@.subrange(0, i + 1);
            assert(p.drop_last() =~= doc_params@.subrange(0, i as int));
        }
        if let Some(LuaType::Variadic(_)) = &doc_params[i].1 {
            variadic_count = variadic_count + 1;
        }
        i = i + 1;
    }
    assert(doc_params@.subrange(0, doc_params@.len() as int) =~= doc_params@);

    Ok(variadic_count > 1)
}

/// The type that a `UseArgName` template stands for, given the call
/// arguments: the argument at position `idx` (from 1), when it is a name or
/// an index path, gives the class named by `prefix` followed by the last
/// segment of its path.
pub open spec fn resolve_arg_name_spec(info: LuaArgInferType, args: Seq<LuaExpr>) -> Option<Seq<char>> {
    if info.idx == 0 || info.idx > args.len() {
        None
    } else {
        let arg = args[info.idx - 1];
        match arg {
            LuaExpr::NameExpr(_) => match access_path(arg) {
                Some(p) => Some(info.prefix@ + last_segment(p)),
                None => None,
            },
            LuaExpr::IndexExpr(_) => match access_path(arg) {
                Some(p) => Some(info.prefix@ + last_segment(p)),
                None => None,
            },
            _ => None,
        }
    }
}

/// Resolves a `UseArgNameX` annotation: takes the X-th call argument
/// (1-indexed), extracts the last `.`-separated segment of its access path,
/// and prepends the prefix. Returns `None` if the argument is a literal (not
/// a code name or index path).
pub fn resolve_arg_name_from_exprs(info: &LuaArgInferType, args: &[LuaExpr]) -> (r: Option<LuaType>)
    ensures
        match resolve_arg_name_spec(*info, args@) {
            Some(name) => r matches Some(LuaType::Ref(id)) && id.name@ == name,
            None => r is None,
        },
{
    let idx = match (info.get_idx() as usize).checked_sub(1) {
        Some(i) => i,
        None => return None,
    };
    if idx >= args.len() {
        return None;
    }
    let arg_expr = &args[idx];

    // Must NOT be a literal expression (string, number, bool, etc.)
    if matches!(arg_expr, LuaExpr::LiteralExpr(_)) {
        return None;
    }

    let access_path = match arg_expr {
        LuaExpr::NameExpr(e) => match e.get_access_path() {
            Some(p) => p,
            None => return None,
        },
        LuaExpr::IndexExpr(e) => match e.get_access_path() {
            Some(p) => p,
            None => return None,
        },
        _ => return None,
    };

    let last = str_last_segment(access_path.as_str());
    let result_name = String::from_str(info.get_prefix()).concat(last);
    Some(LuaType::Ref(LuaTypeDeclId::global(result_name.as_str())))
}

/// The type that a `UseArgString` template stands for: the argument at
/// position `idx` (from 1), when it is a string literal, gives the class
/// named by `prefix` followed by the string.
pub open spec fn resolve_arg_string_spec(info: LuaArgInferType, args: Seq<LuaExpr>) -> Option<Seq<char>> {
    if info.idx == 0 || info.idx > args.len() {
        None
    } else {
        match args[info.idx - 1] {
            LuaExpr::LiteralExpr(l) => match l.literal {
                LuaLiteralToken::String(v) => Some(info.prefix@ + v@),
                _ => None,
            },
            _ => None,
        }
    }
}

/// Resolves a `UseArgStringX` annotation: takes the X-th call argument
/// (1-indexed) as a string literal, and prepends the prefix.
pub fn resolve_arg_string_from_exprs(info: &LuaArgInferType, args: &[LuaExpr]) -> (r: Option<LuaType>)
    ensures
        match resolve_arg_string_spec(*info, args@) {
            Some(name) => r matches Some(LuaType::Ref(id)) && id.name@ == name,
            None => r is None,
        },
{
    let idx = match (info.get_idx() as usize).checked_sub(1) {
        Some(i) => i,
        None => return None,
    };
    if idx >= args.len() {
        return None;
    }
    let arg_expr = &args[idx];

    let literal_expr = match arg_expr {
        LuaExpr::LiteralExpr(literal_expr) => literal_expr,
        _ => return None,
    };
    let string_value = match &literal_expr.literal {
        LuaLiteralToken::String(v) => v,
        _ => return None,
    };
    let result_name = String::from_str(info.get_prefix()).concat(string_value.as_str());
    Some(LuaType::Ref(LuaTypeDeclId::global(result_name.as_str())))
}

/// The type that `self` has in a method of `self_type`: a declared type with
/// generic parameters is applied to them, each parameter given by its
/// constraint when it has one and by a template of the type otherwise; any
/// other type is itself.
pub fn build_self_type(db: &DbIndex, self_type: &LuaType) -> (r: LuaType)
    requires
        db.wf(),
    ensures
        match *self_type {
            LuaType::Def(id) => build_self_type_post(db, id, *self_type, r),
            LuaType::Ref(id) => build_self_type_post(db, id, *self_type, r),
            _ => r == *self_type,
        },
{
    match self_type {
        LuaType::Def(id) | LuaType::Ref(id) => {
            if let Some(generic) = db.get_type_index().get_generic_params(id) {
                let mut params: Vec<LuaType> = Vec::new();
                let mut i: usize = 0;
                while i < generic.len()
                    invariant
                        i <= generic@.len(),
                        params@.len() == i,
                        forall|j: int| 0 <= j < i ==> #[trigger] self_param_ok(generic@[j], j, params@[j]),
                    decreases generic@.len() - i,
                {
                    let generic_param = &generic[i];
                    match &generic_param.type_constraint {
                        Some(t) => {
                            params.push(t.clone());
                        },
                        None => {
                            #[verifier::truncate]
                            let tpl_index = i as u32;
                            params.push(
                                LuaType::TplRef(
                                    Arc::new(
                                        GenericTpl::new(
                                            GenericTplId::Type(tpl_index),
                                            intern_name(generic_param.name.clone()),
                                            None,
                                        ),
                                    ),
                                ),
                            );
                        },
                    }
                    assert(self_param_ok(generic@[i as int], i as int, params@[i as int]));
                    i = i + 1;
                }
                let generic = LuaGenericType::new(id.clone(), params);
                return LuaType::Generic(Arc::new(generic));
            }
        },
        _ => {},
    };
    self_type.clone()
}

/// `t` is what `build_self_type` puts for the generic parameter `p` at
/// position `i`: its constraint, or else a template of the type at `i`
/// named as the parameter, without a constraint.
pub open spec fn self_param_ok(p: crate::types::GenericParam, i: int, t: LuaType) -> bool {
    match p.type_constraint {
        Some(c) => t == c,
        None => t matches LuaType::TplRef(tpl) && tpl.tpl_id == GenericTplId::Type(i as u32)
            && interned_text(tpl.name) == p.name@ && tpl.constraint is None,
    }
}

/// What `build_self_type` gives for the declared type `id`.
pub open spec fn build_self_type_post(db: &DbIndex, id: LuaTypeDeclId, self_type: LuaType, r: LuaType) -> bool {
    if db@.generic_params.contains_key(id.name@) {
        let gp = db@.generic_params[id.name@]@;
        r matches LuaType::Generic(g) && g.base == id && g.params@.len() == gp.len()
            && forall|j: int| 0 <= j < gp.len() ==> #[trigger] self_param_ok(gp[j], j, g.params@[j])
    } else {
        r == self_type
    }
}


/// The function type `func` with the templates of `substitutor` replaced.
pub fn instantiate_doc_function(func: &LuaFunctionType, substitutor: &TypeSubstitutor) -> (r: LuaType)
    requires
        substitutor.wf(),
    ensures
        instantiated(*substitutor, LuaType::DocFunction(Arc::new(*func)), r),
{
    LuaType::DocFunction(Arc::new(instantiate_function(substitutor, func)))
}

/// What `callable` returns once the templates of `substitutor` are replaced.
pub fn infer_return_from_callable(db: &DbIndex, callable: &Arc<LuaFunctionType>, substitutor: &TypeSubstitutor) -> (r: LuaType)
    requires
        substitutor.wf(),
    ensures
        instantiated(*substitutor, callable.ret, r),
{
    let f: &LuaFunctionType = &*callable;
    let instantiated = instantiate_doc_function(f, substitutor);
    match instantiated {
        LuaType::DocFunction(func) => func.get_ret().clone(),
        _ => callable.get_ret().clone(),
    }
}

/// The types of `exprs`, in order, or the first error met.
pub open spec fn infer_list_spec(
    s: DbState,
    modules: Seq<FileReturn>,
    file: FileId,
    exprs: Seq<LuaExpr>,
    fuel: nat,
) -> Result<Seq<LuaType>, InferFailReason>
    decreases exprs.len(),
{
    if exprs.len() == 0 {
        Ok(Seq::empty())
    } else {
        match infer_list_spec(s, modules, file, exprs.drop_last(), fuel) {
            Err(e) => Err(e),
            Ok(ts) => match infer_expr_spec(s, modules, file, exprs.last(), fuel) {
                Ok(t) => Ok(ts.push(t)),
                Err(e) => Err(e),
            },
        }
    }
}

/// The types of `exprs`, in order; the first error when one cannot be
/// inferred.
pub fn infer_expr_list_types(
    db: &DbIndex,
    modules: &Vec<FileReturn>,
    file_id: FileId,
    exprs: &[LuaExpr],
) -> (r: Result<Vec<LuaType>, InferFailReason>)
    requires
        db.wf(),
    ensures
        match r {
            Ok(ts) => infer_list_spec(db@, modules@, file_id, exprs@, INFER_DEPTH as nat) == Ok::<
                Seq<LuaType>,
                InferFailReason,
            >(ts@),
            Err(e) => infer_list_spec(db@, modules@, file_id, exprs@, INFER_DEPTH as nat) == Err::<
                Seq<LuaType>,
                InferFailReason,
            >(e),
        },
{
    let mut types: Vec<LuaType> = Vec::new();
    let mut i: usize = 0;
    assert(exprs@.subrange(0, 0) =~= Seq::<LuaExpr>::empty());
    while i < exprs.len()
        invariant
            db.wf(),
            i <= exprs@.len(),
            infer_list_spec(db@, modules@, file_id, exprs@.subrange(0, i as int), INFER_DEPTH as nat) == Ok::<
                Seq<LuaType>,
                InferFailReason,
            >(types@),
        decreases exprs@.len() - i,
    {
        let ghost p = exprs@.subrange(0, i + 1);
        assert(p.drop_last() =~= exprs@.subrange(0, i as int));
        assert(p.last() == exprs@[i as int]);
        let t = match infer_expr(db, modules, file_id, &exprs[i], INFER_DEPTH) {
            Ok(t) => t,
            Err(e) => {
                proof {
                    lemma_infer_list_err_extends(db@, modules@, file_id, exprs@, i as int, INFER_DEPTH as nat, e);
                }
                return Err(e);
            },
        };
        types.push(t);
        i = i + 1;
    }
    assert(exprs@.subrange(0, exprs@.len() as int) =~= exprs@);
    Ok(types)
}

/// An error met at position `i` is the error of the whole list.
proof fn lemma_infer_list_err_extends(
    s: DbState,
    modules: Seq<FileReturn>,
    file: FileId,
    exprs: Seq<LuaExpr>,
    i: int,
    fuel: nat,
    e: InferFailReason,
)
    requires
        0 <= i < exprs.len(),
        infer_list_spec(s, modules, file, exprs.subrange(0, i + 1), fuel) == Err::<Seq<LuaType>, InferFailReason>(e),
    ensures
        infer_list_spec(s, modules, file, exprs, fuel) == Err::<Seq<LuaType>, InferFailReason>(e),
    decreases exprs.len() - i,
{
    if i + 1 < exprs.len() {
        let q = exprs.subrange(0, i + 2);
        assert(q.drop_last() =~= exprs.subrange(0, i + 1));
        lemma_infer_list_err_extends(s, modules, file, exprs, i + 1, fuel, e);
    } else {
        assert(exprs.subrange(0, i + 1) =~= exprs);
    }
}

/// A function with the parameters `ps` and the result `ret` mentions the
/// template `k` (plain or `const`, of a function or of a type).
pub open spec fn fn_mentions_tpl(ps: Seq<(String, Option<LuaType>)>, ret: LuaType, k: u64) -> bool {
    mentions_tpl(ret, k, false, false) || exists|i: int|
        #![trigger ps[i]]
        0 <= i < ps.len() && ps[i].1 is Some && mentions_tpl(ps[i].1->0, k, false, false)
}

/// The types of the parameters `ps`, `unknown` where none is written.
pub open spec fn param_types(ps: Seq<(String, Option<LuaType>)>) -> Seq<LuaType> {
    ps.map_values(
        |p: (String, Option<LuaType>)|
            match p.1 {
                Some(t) => t,
                None => LuaType::Unknown,
            },
    )
}

/// `r` is `t` with the templates that `m` gives a type replaced by it.
pub open spec fn instantiated_with(m: Map<GenericTplId, LuaType>, t: LuaType, r: LuaType) -> bool {
    exists|s: TypeSubstitutor|
        s.replaced() == m && s.self_type is None && s.arg_types@.len() == 0 && #[trigger] instantiated(s, t, r)
}

/// `r` is what a function of type `callable_type`, passed as an argument,
/// returns given the arguments `args` that follow it.
///
/// Nothing when no argument follows or the type is no function (an error
/// for a signature the database does not hold). The declared result when it
/// mentions no template. Otherwise the result with its templates replaced
/// by matching the parameters against the types of the following
/// arguments, position by position; with them left as they are when those
/// types cannot be inferred.
pub open spec fn callable_return_given(
    db: &DbIndex,
    modules: Seq<FileReturn>,
    file: FileId,
    callable_type: LuaType,
    args: Seq<LuaExpr>,
    r: Result<Option<LuaType>, InferFailReason>,
) -> bool {
    if args.len() == 0 || !(callable_type is DocFunction || callable_type is Signature) {
        r == Ok::<Option<LuaType>, InferFailReason>(None)
    } else {
        match fn_parts(db@, callable_type) {
            None => r == Err::<Option<LuaType>, InferFailReason>(InferFailReason::NoReason),
            Some((ps, ret)) => if forall|k: u64| !fn_mentions_tpl(ps, ret, k) {
                r == Ok::<Option<LuaType>, InferFailReason>(Some(ret))
            } else {
                match infer_list_spec(db@, modules, file, args, INFER_DEPTH as nat) {
                    Err(_) => r matches Ok(Some(t)) && instantiated_with(Map::empty(), ret, t),
                    Ok(ts) => if ts.len() == 0 {
                        r == Ok::<Option<LuaType>, InferFailReason>(None)
                    } else {
                        r matches Ok(Some(t)) && instantiated_with(
                            bind_args(db@, Map::empty(), param_types(ps), ts, min_len(ps.len(), ts.len())),
                            ret,
                            t,
                        )
                    },
                }
            },
        }
    }
}

/// What a function passed as an argument returns, given the arguments that
/// follow it (see `callable_return_given`).
pub fn infer_callable_return_from_remaining_args(
    db: &DbIndex,
    modules: &Vec<FileReturn>,
    file_id: FileId,
    callable_type: &LuaType,
    arg_exprs: &[LuaExpr],
) -> (r: Result<Option<LuaType>, InferFailReason>)
    requires
        db.wf(),
    ensures
        callable_return_given(db, modules@, file_id, *callable_type, arg_exprs@, r),
{
    if arg_exprs.len() == 0 {
        return Ok(None);
    }

    let callable = match as_doc_function_type(db, callable_type) {
        Ok(Some(c)) => c,
        Ok(None) => return Ok(None),
        Err(e) => return Err(e),
    };
    let ghost ps = callable.params@;
    assert(fn_parts(db@, *callable_type) == Some((ps, callable.ret)));

    let mut usage = GenericUsage {
        tpls: tpl_set_new(),
        contain_self: false,
        arg_names: Vec::new(),
        arg_strings: Vec::new(),
    };
    visit_function_usage(&*callable, &mut usage, false, false);
    proof {
        assert forall|k: u64| mentions_tpl(LuaType::DocFunction(Arc::new(*callable)), k, false, false) == fn_mentions_tpl(
            ps,
            callable.ret,
            k,
        ) by {}
        if forall|k: u64| !fn_mentions_tpl(ps, callable.ret, k) {
            assert forall|k: u64| !mentions_tpl(LuaType::DocFunction(Arc::new(*callable)), k, false, false) by {
                assert(!fn_mentions_tpl(ps, callable.ret, k));
            }
            assert(tpl_set_items(usage.tpls) =~= Set::<u64>::empty());
        }
    }
    if tpl_set_is_empty(&usage.tpls) {
        proof {
            if exists|k: u64| fn_mentions_tpl(ps, callable.ret, k) {
                let k = choose|k: u64| fn_mentions_tpl(ps, callable.ret, k);
                assert(tpl_set_items(usage.tpls).contains(k));
            }
        }
        return Ok(Some(callable.get_ret().clone()));
    }
    proof {
        if !exists|k: u64| tpl_set_items(usage.tpls).contains(k) {
            assert(tpl_set_items(usage.tpls) =~= Set::<u64>::empty());
        }
        let k = choose|k: u64| tpl_set_items(usage.tpls).contains(k);
        assert(fn_mentions_tpl(ps, callable.ret, k));
        let parts = fn_parts(db@, *callable_type)->0;
        assert(fn_mentions_tpl(parts.0, parts.1, k));
    }

    let mut callable_substitutor = TypeSubstitutor::new();
    callable_substitutor.add_need_infer_tpls(usage.tpls);
    let fallback_return = infer_return_from_callable(db, &callable, &callable_substitutor);
    proof {
        assert(callable_substitutor.replaced() =~= Map::<GenericTplId, LuaType>::empty());
        assert(instantiated(callable_substitutor, callable.ret, fallback_return));
    }

    proof {
        assert(instantiated_with(Map::empty(), callable.ret, fallback_return));
    }
    let call_arg_types = match infer_expr_list_types(db, modules, file_id, arg_exprs) {
        Ok(types) => types,
        Err(_) => return Ok(Some(fallback_return)),
    };
    if call_arg_types.len() == 0 {
        return Ok(None);
    }

    let mut callable_param_types: Vec<LuaType> = Vec::new();
    let mut i: usize = 0;
    assert(param_types(ps.subrange(0, 0)) =~= Seq::<LuaType>::empty());
    while i < callable.params.len()
        invariant
            i <= callable.params@.len(),
            ps == callable.params@,
            callable_param_types@ == param_types(ps.subrange(0, i as int)),
        decreases callable.params@.len() - i,
    {
        callable_param_types.push(
            match &callable.params[i].1 {
                Some(t) => t.clone(),
                None => LuaType::Unknown,
            },
        );
        assert(callable_param_types@ =~= param_types(ps.subrange(0, i + 1)));
        i = i + 1;
    }
    assert(ps.subrange(0, ps.len() as int) =~= ps);

    let ghost before = callable_substitutor;
    if tpl_pattern_match_args(db, &mut callable_substitutor, &callable_param_types, &call_arg_types).is_err() {
        return Ok(Some(fallback_return));
    }
    let t = infer_return_from_callable(db, &callable, &callable_substitutor);
    proof {
        assert(instantiated(callable_substitutor, callable.ret, t));
        assert(callable_substitutor.self_type is None);
        assert(callable_substitutor.arg_types@.len() == 0);
        assert(callable_substitutor.replaced() == bind_args(
            db@,
            Map::empty(),
            param_types(ps),
            call_arg_types@,
            min_len(ps.len(), call_arg_types@.len()),
        ));
    }
    Ok(Some(t))
}

/// `new` is `old` adjusted to how the function is called: a method defined
/// with `:` and called with `.` gets a leading `self: any`; a function
/// defined with `.` and called with `:` loses its first parameter.
pub open spec fn colon_adjusted(
    old: Seq<(String, LuaType)>,
    new: Seq<(String, LuaType)>,
    colon_define: bool,
    colon_call: bool,
) -> bool {
    if colon_define && !colon_call {
        &&& new.len() == old.len() + 1
        &&& new[0].0@ == "self"@
        &&& new[0].1 == LuaType::Any
        &&& new.subrange(1, new.len() as int) == old
    } else if !colon_define && colon_call && old.len() > 0 {
        new == old.subrange(1, old.len() as int)
    } else {
        new == old
    }
}

/// The template keys that a substitutor with `need` still has to infer.
pub open spec fn need_keys(need: Option<TplSet>) -> Option<Set<u64>> {
    match need {
        Some(t) => Some(tpl_set_items(t)),
        None => None,
    }
}

/// Every template of `need` has a type in `m`.
pub open spec fn all_inferred(need: Option<Set<u64>>, m: Map<GenericTplId, LuaType>) -> bool {
    need is Some ==> forall|k: u64| #[trigger] need->0.contains(k) ==> m.contains_key(tpl_of_key(k))
}

/// Whether the argument `a` of a parameter of type `p` is matched after the
/// other arguments (see `check_expr_can_later_infer`).
pub open spec fn later_infer_spec(s: DbState, p: LuaType, a: LuaExpr) -> Result<bool, InferFailReason> {
    match p {
        LuaType::DocFunction(f) => Ok(a is ClosureExpr || variadic_param_count(f.params@) > 1),
        LuaType::Signature(id) => if s.signatures.contains_key(id) {
            Ok(a is ClosureExpr || variadic_param_count(s.signatures[id].params@) > 1)
        } else {
            Err(InferFailReason::NoReason)
        },
        _ => Ok(false),
    }
}

/// The type an argument is matched with: its inferred type, with a field
/// that is not found taken as `nil`.
pub open spec fn arg_type_spec(s: DbState, modules: Seq<FileReturn>, file: FileId, a: LuaExpr) -> Result<
    LuaType,
    InferFailReason,
> {
    match infer_expr_spec(s, modules, file, a, INFER_DEPTH as nat) {
        Ok(t) => Ok(t),
        Err(InferFailReason::FieldNotFound) => Ok(LuaType::Nil),
        Err(e) => Err(e),
    }
}

/// `r1` is the template types `m` once the result of the function parameter
/// `p` is matched against what the argument of type `at` returns given the
/// arguments `rest` after it (`unknown` for an `any` or `unknown` argument
/// that gives nothing); `m` itself when `p` is no function.
pub open spec fn returned_bind(
    db: &DbIndex,
    modules: Seq<FileReturn>,
    file: FileId,
    m: Map<GenericTplId, LuaType>,
    p: LuaType,
    at: LuaType,
    rest: Seq<LuaExpr>,
    r1: Result<Map<GenericTplId, LuaType>, InferFailReason>,
) -> bool {
    if p is DocFunction || p is Signature {
        match fn_parts(db@, p) {
            None => r1 == Err::<Map<GenericTplId, LuaType>, InferFailReason>(InferFailReason::NoReason),
            Some((_, ret)) => exists|cr: Result<Option<LuaType>, InferFailReason>|
                #[trigger] callable_return_given(db, modules, file, at, rest, cr) && match cr {
                    Err(e) => r1 == Err::<Map<GenericTplId, LuaType>, InferFailReason>(e),
                    Ok(Some(t)) => r1 == Ok::<Map<GenericTplId, LuaType>, InferFailReason>(pattern_bind(db@, m, ret, t)),
                    Ok(None) => r1 == Ok::<Map<GenericTplId, LuaType>, InferFailReason>(
                        if at is Any || at is Unknown {
                            pattern_bind(db@, m, ret, LuaType::Unknown)
                        } else {
                            m
                        },
                    ),
                },
        }
    } else {
        r1 == Ok::<Map<GenericTplId, LuaType>, InferFailReason>(m)
    }
}

/// The template types `m` once the arguments held back are matched, in the
/// order they were met: each parameter type against its argument's type.
pub open spec fn later_bind(
    s: DbState,
    modules: Seq<FileReturn>,
    file: FileId,
    m: Map<GenericTplId, LuaType>,
    args: Seq<LuaExpr>,
    pend: Seq<(LuaType, usize)>,
) -> Result<Map<GenericTplId, LuaType>, InferFailReason>
    decreases pend.len(),
{
    if pend.len() == 0 {
        Ok(m)
    } else {
        match infer_expr_spec(s, modules, file, args[pend[0].1 as int], INFER_DEPTH as nat) {
            Err(e) => Err(e),
            Ok(t) => later_bind(s, modules, file, pattern_bind(s, m, pend[0].0, t), args, pend.drop_first()),
        }
    }
}

/// The end of the inference: the arguments held back are matched unless
/// every template already has a type.
pub open spec fn finish_bind(
    s: DbState,
    modules: Seq<FileReturn>,
    file: FileId,
    need: Option<Set<u64>>,
    m: Map<GenericTplId, LuaType>,
    args: Seq<LuaExpr>,
    pend: Seq<(LuaType, usize)>,
) -> Result<Map<GenericTplId, LuaType>, InferFailReason> {
    if all_inferred(need, m) {
        Ok(m)
    } else {
        later_bind(s, modules, file, m, args, pend)
    }
}

/// `r` is what inferring the templates from the arguments `args` makes of
/// the template types `m`, going on at parameter `i` of the parameter types
/// `ps` with the arguments `pend` held back: the template types, or the
/// first error met.
///
/// The walk stops at the end of the parameters or of the arguments, or once
/// every template of `need` has a type. A parameter that mentions no
/// template is passed over. One whose function argument is better matched
/// later (`later_infer_spec`) is held back. Otherwise the argument's type is
/// taken; for a function parameter, its result is first matched against
/// what the argument returns given the arguments after it
/// (`returned_bind`). Then a variadic parameter is matched against the
/// types of all the remaining arguments, and the remaining parameters
/// against an argument that gives several values; both end the walk. Any
/// other parameter is matched against the argument's type.
pub open spec fn call_bind(
    db: &DbIndex,
    modules: Seq<FileReturn>,
    file: FileId,
    need: Option<Set<u64>>,
    m: Map<GenericTplId, LuaType>,
    ps: Seq<LuaType>,
    args: Seq<LuaExpr>,
    i: int,
    pend: Seq<(LuaType, usize)>,
    r: Result<Map<GenericTplId, LuaType>, InferFailReason>,
) -> bool
    decreases ps.len() - i,
{
    if i < 0 || i >= ps.len() || i >= args.len() || all_inferred(need, m) {
        r == finish_bind(db@, modules, file, need, m, args, pend)
    } else if !spec_contains_tpl(ps[i]) {
        call_bind(db, modules, file, need, m, ps, args, i + 1, pend, r)
    } else {
        let p = ps[i];
        match (if p is Variadic {
            Ok(false)
        } else {
            later_infer_spec(db@, p, args[i])
        }) {
            Err(e) => r == Err::<Map<GenericTplId, LuaType>, InferFailReason>(e),
            Ok(true) => call_bind(db, modules, file, need, m, ps, args, i + 1, pend.push((p, i as usize)), r),
            Ok(false) => match arg_type_spec(db@, modules, file, args[i]) {
                Err(e) => r == Err::<Map<GenericTplId, LuaType>, InferFailReason>(e),
                Ok(at) => exists|r1: Result<Map<GenericTplId, LuaType>, InferFailReason>|
                    #[trigger] returned_bind(db, modules, file, m, p, at, args.subrange(i + 1, args.len() as int), r1)
                        && match r1 {
                        Err(e) => r == Err::<Map<GenericTplId, LuaType>, InferFailReason>(e),
                        Ok(m1) => match p {
                            LuaType::Variadic(v) => match infer_list_spec(
                                db@,
                                modules,
                                file,
                                args.subrange(i, args.len() as int),
                                INFER_DEPTH as nat,
                            ) {
                                Err(e) => r == Err::<Map<GenericTplId, LuaType>, InferFailReason>(e),
                                Ok(ts) => r == finish_bind(
                                    db@,
                                    modules,
                                    file,
                                    need,
                                    variadic_bind(db@, m1, *v, ts),
                                    args,
                                    pend,
                                ),
                            },
                            _ => match at {
                                LuaType::Variadic(v) => r == finish_bind(
                                    db@,
                                    modules,
                                    file,
                                    need,
                                    multi_return_bind(db@, m1, ps.subrange(i, ps.len() as int), *v),
                                    args,
                                    pend,
                                ),
                                _ => call_bind(db, modules, file, need, pattern_bind(db@, m1, p, at), ps, args, i + 1, pend, r),
                            },
                        },
                    },
            },
        }
    }
}

/// The types of the parameters `ps`.
pub open spec fn types_of(ps: Seq<(String, LuaType)>) -> Seq<LuaType> {
    ps.map_values(|p: (String, LuaType)| p.1)
}

/// The template types, or the error, that a call to `infer_generic_types_from_call` gives.
pub open spec fn bind_result(r: Result<(), InferFailReason>, m: Map<GenericTplId, LuaType>) -> Result<
    Map<GenericTplId, LuaType>,
    InferFailReason,
> {
    match r {
        Ok(_) => Ok(m),
        Err(e) => Err(e),
    }
}

/// Infers the templates of `func` from the arguments of `call_expr`: the
/// parameters are first adjusted to a colon call or definition; then the
/// arguments are matched against them as `call_bind` says, from the first
/// parameter on.
pub fn infer_generic_types_from_call(
    db: &DbIndex,
    modules: &Vec<FileReturn>,
    file_id: FileId,
    substitutor: &mut TypeSubstitutor,
    func: &LuaFunctionType,
    call_expr: &LuaCallExpr,
    func_params: &mut Vec<(String, LuaType)>,
    arg_exprs: &[LuaExpr],
) -> (r: Result<(), InferFailReason>)
    requires
        db.wf(),
        old(substitutor).wf(),
    ensures
        extends(*old(substitutor), *final(substitutor)),
        colon_adjusted(old(func_params)@, final(func_params)@, func.is_colon_define, call_expr.spec_is_colon_call()),
        call_bind(
            db,
            modules@,
            file_id,
            need_keys(old(substitutor).need_infer),
            old(substitutor).replaced(),
            types_of(final(func_params)@),
            arg_exprs@,
            0,
            Seq::empty(),
            bind_result(r, final(substitutor).replaced()),
        ),
{
    let ghost s0 = *substitutor;
    let colon_call = call_expr.is_colon_call();
    let colon_define = func.is_colon_define();
    let ghost p0 = func_params@;
    if colon_define && !colon_call {
        func_params.insert(0, (String::from_str("self"), LuaType::Any));
        proof {
            reveal_strlit("self");
            assert(func_params@.subrange(1, func_params@.len() as int) =~= p0);
        }
    } else if !colon_define && colon_call {
        if func_params.len() > 0 {
            func_params.remove(0);
            assert(func_params@ =~= p0.subrange(1, p0.len() as int));
        }
    }
    let ghost p1 = func_params@;
    assert(colon_adjusted(p0, p1, func.is_colon_define, call_expr.spec_is_colon_call()));

    let ghost need = need_keys(s0.need_infer);
    let ghost pts = types_of(p1);
    let ghost m0 = s0.replaced();
    let ghost args = arg_exprs@;
    let mut unresolve_tpls: Vec<(LuaType, usize)> = Vec::new();
    let mut i: usize = 0;
    loop
        invariant_except_break
            forall|res: Result<Map<GenericTplId, LuaType>, InferFailReason>|
                #[trigger] call_bind(
                    db,
                    modules@,
                    file_id,
                    need,
                    substitutor.replaced(),
                    pts,
                    args,
                    i as int,
                    unresolve_tpls@,
                    res,
                ) ==> call_bind(db, modules@, file_id, need, m0, pts, args, 0, Seq::empty(), res),
        invariant
            db.wf(),
            substitutor.wf(),
            s0 == *old(substitutor),
            p0 == old(func_params)@,
            func_params@ == p1,
            pts == types_of(p1),
            args == arg_exprs@,
            need == need_keys(s0.need_infer),
            m0 == s0.replaced(),
            colon_adjusted(p0, p1, func.is_colon_define, call_expr.spec_is_colon_call()),
            extends(s0, *substitutor),
            i <= func_params@.len(),
            forall|k: int| 0 <= k < unresolve_tpls@.len() ==> (#[trigger] unresolve_tpls@[k]).1 < arg_exprs@.len(),
        ensures
            call_bind(
                db,
                modules@,
                file_id,
                need,
                m0,
                pts,
                args,
                0,
                Seq::empty(),
                finish_bind(db@, modules@, file_id, need, substitutor.replaced(), args, unresolve_tpls@),
            ),
        decreases func_params@.len() - i,
    {
        let ghost m_i = substitutor.replaced();
        let ghost pend_i = unresolve_tpls@;
        proof {
            assert(substitutor.spec_is_infer_all_tpl() == all_inferred(need, m_i));
        }
        if i >= func_params.len() || i >= arg_exprs.len() || substitutor.is_infer_all_tpl() {
            proof {
                let fin = finish_bind(db@, modules@, file_id, need, m_i, args, pend_i);
                assert(call_bind(db, modules@, file_id, need, m_i, pts, args, i as int, pend_i, fin));
            }
            break;
        }

        let func_param_type = func_params[i].1.clone();
        let call_arg_expr = &arg_exprs[i];
        assert(func_param_type == pts[i as int]);
        if !contains_tpl(&func_param_type) {
            proof {
                assert forall|res: Result<Map<GenericTplId, LuaType>, InferFailReason>|
                    #[trigger] call_bind(db, modules@, file_id, need, m_i, pts, args, i + 1, pend_i, res) implies call_bind(
                    db,
                    modules@,
                    file_id,
                    need,
                    m0,
                    pts,
                    args,
                    0,
                    Seq::empty(),
                    res,
                ) by {
                    assert(call_bind(db, modules@, file_id, need, m_i, pts, args, i as int, pend_i, res));
                }
            }
            i = i + 1;
            continue;
        }

        if !func_param_type.is_variadic() {
            let later = match check_expr_can_later_infer(db, &func_param_type, call_arg_expr) {
                Ok(b) => b,
                Err(e) => {
                    proof {
                        let res = Err::<Map<GenericTplId, LuaType>, InferFailReason>(e);
                        assert(call_bind(db, modules@, file_id, need, m_i, pts, args, i as int, pend_i, res));
                    }
                    return Err(e);
                },
            };
            if later {
                // Matched once everything else is known.
                unresolve_tpls.push((func_param_type, i));
                proof {
                    let pend2 = unresolve_tpls@;
                    assert(pend2 == pend_i.push((pts[i as int], i)));
                    assert forall|res: Result<Map<GenericTplId, LuaType>, InferFailReason>|
                        #[trigger] call_bind(db, modules@, file_id, need, m_i, pts, args, i + 1, pend2, res) implies call_bind(
                        db,
                        modules@,
                        file_id,
                        need,
                        m0,
                        pts,
                        args,
                        0,
                        Seq::empty(),
                        res,
                    ) by {
                        assert(call_bind(db, modules@, file_id, need, m_i, pts, args, i as int, pend_i, res));
                    }
                }
                i = i + 1;
                continue;
            }
        }

        let arg_type = match infer_expr(db, modules, file_id, call_arg_expr, INFER_DEPTH) {
            Ok(t) => t,
            // A field that is not found is taken as nil, so that inference goes on.
            Err(InferFailReason::FieldNotFound) => LuaType::Nil,
            Err(e) => {
                proof {
                    let res = Err::<Map<GenericTplId, LuaType>, InferFailReason>(e);
                    assert(call_bind(db, modules@, file_id, need, m_i, pts, args, i as int, pend_i, res));
                }
                return Err(e);
            },
        };
        assert(arg_type_spec(db@, modules@, file_id, args[i as int]) == Ok::<LuaType, InferFailReason>(arg_type));

        let ghost rest_args = args.subrange(i + 1, args.len() as int);
        let param_func = match as_doc_function_type(db, &func_param_type) {
            Ok(f) => f,
            Err(e) => {
                proof {
                    let res = Err::<Map<GenericTplId, LuaType>, InferFailReason>(e);
                    assert(returned_bind(db, modules@, file_id, m_i, pts[i as int], arg_type, rest_args, res));
                    assert(call_bind(db, modules@, file_id, need, m_i, pts, args, i as int, pend_i, res));
                }
                return Err(e);
            },
        };
        if let Some(param_func) = param_func {
            let return_pattern = param_func.get_ret().clone();
            let rest = &arg_exprs[i + 1..arg_exprs.len()];
            assert(rest@ == rest_args);
            let cr = infer_callable_return_from_remaining_args(db, modules, file_id, &arg_type, rest);
            match cr {
                Err(e) => {
                    proof {
                        let res = Err::<Map<GenericTplId, LuaType>, InferFailReason>(e);
                        assert(callable_return_given(db, modules@, file_id, arg_type, rest_args, cr));
                        assert(returned_bind(db, modules@, file_id, m_i, pts[i as int], arg_type, rest_args, res));
                        assert(call_bind(db, modules@, file_id, need, m_i, pts, args, i as int, pend_i, res));
                    }
                    return Err(e);
                },
                Ok(Some(inferred_return_type)) => {
                    let ghost si = *substitutor;
                    return_type_pattern_match_target_type(db, substitutor, &return_pattern, &inferred_return_type)?;
                    proof {
                        lemma_extends_trans(s0, si, *substitutor);
                        assert(callable_return_given(db, modules@, file_id, arg_type, rest_args, cr));
                    }
                },
                Ok(None) => {
                    if arg_type.is_any() || arg_type.is_unknown() {
                        let ghost si = *substitutor;
                        return_type_pattern_match_target_type(db, substitutor, &return_pattern, &LuaType::Unknown)?;
                        proof {
                            lemma_extends_trans(s0, si, *substitutor);
                        }
                    }
                    proof {
                        assert(callable_return_given(db, modules@, file_id, arg_type, rest_args, cr));
                    }
                },
            }
        }
        let ghost m1 = substitutor.replaced();
        let ghost r1 = Ok::<Map<GenericTplId, LuaType>, InferFailReason>(m1);
        assert(returned_bind(db, modules@, file_id, m_i, pts[i as int], arg_type, rest_args, r1));

        let ghost si = *substitutor;
        match (&func_param_type, &arg_type) {
            (LuaType::Variadic(variadic), _) => {
                let arg_types = match infer_expr_list_types(db, modules, file_id, &arg_exprs[i..arg_exprs.len()]) {
                    Ok(ts) => ts,
                    Err(e) => {
                        proof {
                            let res = Err::<Map<GenericTplId, LuaType>, InferFailReason>(e);
                            assert(call_bind(db, modules@, file_id, need, m_i, pts, args, i as int, pend_i, res));
                        }
                        return Err(e);
                    },
                };
                variadic_tpl_pattern_match(db, substitutor, variadic, &arg_types)?;
                proof {
                    lemma_extends_trans(s0, si, *substitutor);
                    let fin = finish_bind(db@, modules@, file_id, need, substitutor.replaced(), args, pend_i);
                    assert(call_bind(db, modules@, file_id, need, m_i, pts, args, i as int, pend_i, fin));
                }
                break;
            },
            (_, LuaType::Variadic(variadic)) => {
                let mut func_param_types: Vec<LuaType> = Vec::new();
                let mut j = i;
                while j < func_params.len()
                    invariant
                        i <= j <= func_params@.len(),
                        func_params@ == p1,
                        pts == types_of(p1),
                        func_param_types@ == pts.subrange(i as int, j as int),
                    decreases func_params@.len() - j,
                {
                    func_param_types.push(func_params[j].1.clone());
                    assert(func_param_types@ =~= pts.subrange(i as int, j + 1));
                    j = j + 1;
                }
                multi_param_tpl_pattern_match_multi_return(db, substitutor, &func_param_types, variadic)?;
                proof {
                    lemma_extends_trans(s0, si, *substitutor);
                    let fin = finish_bind(db@, modules@, file_id, need, substitutor.replaced(), args, pend_i);
                    assert(call_bind(db, modules@, file_id, need, m_i, pts, args, i as int, pend_i, fin));
                }
                break;
            },
            _ => {
                tpl_pattern_match(db, substitutor, &func_param_type, &arg_type)?;
                proof {
                    lemma_extends_trans(s0, si, *substitutor);
                    let m2 = substitutor.replaced();
                    assert forall|res: Result<Map<GenericTplId, LuaType>, InferFailReason>|
                        #[trigger] call_bind(db, modules@, file_id, need, m2, pts, args, i + 1, pend_i, res) implies call_bind(
                        db,
                        modules@,
                        file_id,
                        need,
                        m0,
                        pts,
                        args,
                        0,
                        Seq::empty(),
                        res,
                    ) by {
                        assert(call_bind(db, modules@, file_id, need, m_i, pts, args, i as int, pend_i, res));
                    }
                }
            },
        }
        i = i + 1;
    }
    let ghost m_end = substitutor.replaced();
    let ghost pend = unresolve_tpls@;
    assert(call_bind(
        db,
        modules@,
        file_id,
        need,
        m0,
        pts,
        args,
        0,
        Seq::empty(),
        finish_bind(db@, modules@, file_id, need, m_end, args, pend),
    ));
    assert(substitutor.spec_is_infer_all_tpl() == all_inferred(need, m_end));

    if !substitutor.is_infer_all_tpl() {
        let mut k: usize = 0;
        assert(pend.subrange(0, pend.len() as int) =~= pend);
        while k < unresolve_tpls.len()
            invariant
                db.wf(),
                substitutor.wf(),
                s0 == *old(substitutor),
                p0 == old(func_params)@,
                func_params@ == p1,
                colon_adjusted(p0, p1, func.is_colon_define, call_expr.spec_is_colon_call()),
                extends(s0, *substitutor),
                args == arg_exprs@,
                pend == unresolve_tpls@,
                k <= pend.len(),
                pts == types_of(p1),
                need == need_keys(s0.need_infer),
                m0 == s0.replaced(),
                call_bind(
                    db,
                    modules@,
                    file_id,
                    need,
                    m0,
                    pts,
                    args,
                    0,
                    Seq::empty(),
                    later_bind(db@, modules@, file_id, m_end, args, pend),
                ),
                forall|m: int| 0 <= m < unresolve_tpls@.len() ==> (#[trigger] unresolve_tpls@[m]).1 < arg_exprs@.len(),
                later_bind(db@, modules@, file_id, m_end, args, pend) == later_bind(
                    db@,
                    modules@,
                    file_id,
                    substitutor.replaced(),
                    args,
                    pend.subrange(k as int, pend.len() as int),
                ),
            decreases unresolve_tpls@.len() - k,
        {
            let ghost rest = pend.subrange(k as int, pend.len() as int);
            assert(rest.drop_first() =~= pend.subrange(k + 1, pend.len() as int));
            assert(rest[0] == pend[k as int]);
            let (func_param_type, j) = &unresolve_tpls[k];
            let closure_type = match infer_expr(db, modules, file_id, &arg_exprs[*j], INFER_DEPTH) {
                Ok(t) => t,
                Err(e) => {
                    proof {
                        assert(later_bind(db@, modules@, file_id, substitutor.replaced(), args, rest) == Err::<
                            Map<GenericTplId, LuaType>,
                            InferFailReason,
                        >(e));
                    }
                    return Err(e);
                },
            };
            let ghost si = *substitutor;
            tpl_pattern_match(db, substitutor, func_param_type, &closure_type)?;
            proof {
                lemma_extends_trans(s0, si, *substitutor);
            }
            k = k + 1;
        }
    }

    Ok(())
}

/// `t` mentions a template (of any kind).
pub open spec fn spec_contains_tpl(t: LuaType) -> bool
    decreases t,
{
    match t {
        LuaType::TplRef(_) | LuaType::ConstTplRef(_) | LuaType::StrTplRef(_) => true,
        LuaType::DocFunction(f) => spec_contains_tpl(f.ret) || exists|i: int|
            #![trigger f.params@[i]]
            0 <= i < f.params@.len() && f.params@[i].1 is Some && spec_contains_tpl(f.params@[i].1->0),
        LuaType::Generic(g) => exists|i: int|
            #![trigger g.params@[i]]
            0 <= i < g.params@.len() && spec_contains_tpl(g.params@[i]),
        LuaType::Variadic(v) => match *v {
            crate::types::VariadicType::Base(b) => spec_contains_tpl(b),
            crate::types::VariadicType::Multi(ts) => exists|i: int|
                #![trigger ts@[i]]
                0 <= i < ts@.len() && spec_contains_tpl(ts@[i]),
        },
        LuaType::Union(u) => union_contains_tpl(*u),
        _ => false,
    }
}

/// Some type of the union `u` mentions a template.
pub open spec fn union_contains_tpl(u: LuaUnionType) -> bool
    decreases u,
{
    match u {
        LuaUnionType::Last(t) => spec_contains_tpl(t),
        LuaUnionType::More(t, rest) => spec_contains_tpl(t) || union_contains_tpl(*rest),
    }
}

/// Whether some type of the union `u` mentions a template.
fn union_has_tpl(u: &LuaUnionType) -> (r: bool)
    ensures
        r == union_contains_tpl(*u),
    decreases u,
{
    match u {
        LuaUnionType::Last(t) => contains_tpl(t),
        LuaUnionType::More(t, rest) => contains_tpl(t) || union_has_tpl(&**rest),
    }
}

proof fn lemma_multi_contains_tpl(t: LuaType, ts: Vec<LuaType>, i: int)
    requires
        t == LuaType::Variadic(Arc::new(crate::types::VariadicType::Multi(ts))),
        0 <= i < ts@.len(),
        spec_contains_tpl(ts@[i]),
    ensures
        spec_contains_tpl(t),
{
    match t {
        LuaType::Variadic(v) => match *v {
            crate::types::VariadicType::Multi(us) => {
                assert(us@[i] == ts@[i]);
            },
            _ => {},
        },
        _ => {},
    }
}

/// Whether `t` mentions a template.
pub fn contains_tpl(t: &LuaType) -> (r: bool)
    ensures
        r == spec_contains_tpl(*t),
    decreases t,
{
    match t {
        LuaType::TplRef(_) | LuaType::ConstTplRef(_) | LuaType::StrTplRef(_) => true,
        LuaType::Union(u) => union_has_tpl(&**u),
        LuaType::DocFunction(f) => {
            let mut i: usize = 0;
            while i < f.params.len()
                invariant
                    decreases_to!(*t => f.params),
                    *t == LuaType::DocFunction(*f),
                    i <= f.params@.len(),
                    forall|j: int|
                        #![trigger f.params@[j]]
                        0 <= j < i ==> !(f.params@[j].1 is Some && spec_contains_tpl(f.params@[j].1->0)),
                decreases f.params@.len() - i,
            {
                if let Some(p) = &f.params[i].1 {
                    proof {
                        assert(decreases_to!(f.params => f.params[i as int]));
                    }
                    if contains_tpl(p) {
                        assert(f.params@[i as int].1 is Some && spec_contains_tpl(f.params@[i as int].1->0));
                        return true;
                    }
                }
                i = i + 1;
            }
            contains_tpl(&f.ret)
        },
        LuaType::Generic(g) => {
            let mut i: usize = 0;
            while i < g.params.len()
                invariant
                    decreases_to!(*t => g.params),
                    *t == LuaType::Generic(*g),
                    i <= g.params@.len(),
                    forall|j: int| #![trigger g.params@[j]] 0 <= j < i ==> !spec_contains_tpl(g.params@[j]),
                decreases g.params@.len() - i,
            {
                proof {
                    assert(decreases_to!(g.params => g.params[i as int]));
                }
                if contains_tpl(&g.params[i]) {
                    assert(spec_contains_tpl(g.params@[i as int]));
                    assert(exists|j: int| #![trigger g.params@[j]] 0 <= j < g.params@.len() && spec_contains_tpl(g.params@[j]));
                    assert(*t is Generic);
                    assert(t->Generic_0 == *g);
                    assert(spec_contains_tpl(*t));
                    return true;
                }
                i = i + 1;
            }
            false
        },
        LuaType::Variadic(v) => match &**v {
            crate::types::VariadicType::Base(b) => contains_tpl(b),
            crate::types::VariadicType::Multi(ts) => {
                let mut i: usize = 0;
                while i < ts.len()
                    invariant
                        decreases_to!(*t => *ts),
                        *t == LuaType::Variadic(*v),
                        **v == crate::types::VariadicType::Multi(*ts),
                        i <= ts@.len(),
                        forall|j: int| #![trigger ts@[j]] 0 <= j < i ==> !spec_contains_tpl(ts@[j]),
                    decreases ts@.len() - i,
                {
                    proof {
                        assert(decreases_to!(*ts => ts[i as int]));
                    }
                    if contains_tpl(&ts[i]) {
                        assert(spec_contains_tpl(ts@[i as int]));
                        assert(exists|j: int| #![trigger ts@[j]] 0 <= j < ts@.len() && spec_contains_tpl(ts@[j]));
                        proof {
                            lemma_multi_contains_tpl(*t, *ts, i as int);
                        }
                        return true;
                    }
                    i = i + 1;
                }
                false
            },
        },
        _ => false,
    }
}

/// In `m`, the `j`-th function template has the type that `ty` names.
pub open spec fn tpl_given_at(m: Map<GenericTplId, LuaType>, ty: LuaDocTypeRef, j: int) -> bool {
    m.contains_key(GenericTplId::Func(j as u32)) && is_doc_type(ty.name@, m[GenericTplId::Func(j as u32)])
}

/// In `m`, each of the first `n` function templates has the type that the
/// written type at its index names.
pub open spec fn tpls_given(m: Map<GenericTplId, LuaType>, list: Seq<LuaDocTypeRef>, n: int) -> bool {
    forall|j: int| 0 <= j < n ==> #[trigger] tpl_given_at(m, list[j], j)
}

/// `new` has the same templates with the same types as `old`, but for the
/// function templates below `n`.
pub open spec fn unchanged_beyond(old: Map<GenericTplId, LuaType>, new: Map<GenericTplId, LuaType>, n: int) -> bool {
    forall|id: GenericTplId|
        #![trigger new.contains_key(id)]
        #![trigger old.contains_key(id)]
        !(id matches GenericTplId::Func(j) && j < n) ==> (new.contains_key(id) <==> old.contains_key(id)) && (
        old.contains_key(id) ==> new[id] == old[id])
}

/// Gives the function's templates the types written explicitly at the call,
/// the `i`-th type to the `i`-th template.
pub fn apply_call_generic_type_list(db: &DbIndex, file_id: FileId, substitutor: &mut TypeSubstitutor, type_list: &Vec<LuaDocTypeRef>)
    requires
        old(substitutor).wf(),
    ensures
        final(substitutor).wf(),
        final(substitutor).need_infer == old(substitutor).need_infer,
        final(substitutor).self_type == old(substitutor).self_type,
        final(substitutor).arg_types == old(substitutor).arg_types,
        type_list@.len() <= u32::MAX ==> tpls_given(final(substitutor).replaced(), type_list@, type_list@.len() as int),
        unchanged_beyond(old(substitutor).replaced(), final(substitutor).replaced(), type_list@.len() as int),
{
    let mut i: usize = 0;
    while i < type_list.len()
        invariant
            substitutor.wf(),
            i <= type_list@.len(),
            substitutor.need_infer == old(substitutor).need_infer,
            substitutor.self_type == old(substitutor).self_type,
            substitutor.arg_types == old(substitutor).arg_types,
            type_list@.len() <= u32::MAX ==> tpls_given(substitutor.replaced(), type_list@, i as int),
            unchanged_beyond(old(substitutor).replaced(), substitutor.replaced(), i as int),
        decreases type_list@.len() - i,
    {
        let typ = doc_type_of(&type_list[i]);
        #[verifier::truncate]
        let index = i as u32;
        let ghost before = substitutor.replaced();
        substitutor.insert_type(GenericTplId::Func(index), typ, true);
        proof {
            assert(index <= i);
            assert forall|id: GenericTplId|
                !(id matches GenericTplId::Func(j) && j < i + 1) implies (substitutor.replaced().contains_key(id)
                    <==> old(substitutor).replaced().contains_key(id)) && (old(substitutor).replaced().contains_key(id)
                    ==> substitutor.replaced()[id] == old(substitutor).replaced()[id]) by {
                assert(id != GenericTplId::Func(index));
                assert(!(id matches GenericTplId::Func(j) && j < i));
            }
        }
        proof {
            if type_list@.len() <= u32::MAX {
                assert(index == i);
                assert forall|j: int| 0 <= j < i + 1 implies #[trigger] tpl_given_at(
                    substitutor.replaced(),
                    type_list@[j],
                    j,
                ) by {
                    if j < i {
                        assert(tpl_given_at(before, type_list@[j], j));
                        assert(GenericTplId::Func(j as u32) != GenericTplId::Func(index));
                    }
                }
            }
        }
        i = i + 1;
    }
}

/// What a name refers to: a declaration or a member.
pub enum LuaSemanticDeclId {
    LuaDecl(LuaDeclId),
    Member(LuaMemberId),
}

/// What `name` in `file` refers to: the innermost local (or `self`)
/// visible there, else the first declaration of the global of that name.
pub open spec fn semantic_decl_spec(s: DbState, file: FileId, name: LuaNameExpr) -> Option<LuaSemanticDeclId> {
    match nearest_decl(s, file, name.name@, name.position) {
        Some(id) if s.decls[id].spec_is_local() || s.decls[id].spec_is_implicit_self() => Some(
            LuaSemanticDeclId::LuaDecl(id),
        ),
        _ => if s.globals.contains_key(name.name@) && s.globals[name.name@].len() > 0 {
            Some(LuaSemanticDeclId::LuaDecl(s.globals[name.name@][0]))
        } else {
            None
        },
    }
}

/// The declaration a name refers to: the innermost visible local, else the
/// first declaration of the global. A bare name always refers to a
/// declaration, never to a member of a table or class.
pub fn infer_node_semantic_decl(db: &DbIndex, file_id: FileId, name: &LuaNameExpr) -> (r: Option<LuaSemanticDeclId>)
    requires
        db.wf(),
    ensures
        r == semantic_decl_spec(db@, file_id, *name),
        !(r matches Some(LuaSemanticDeclId::Member(_))),
{
    if let Some(d) = db.get_decl_index().find_local_decl(file_id, name.name.as_str(), name.position) {
        proof {
            crate::analysis::lemma_nearest_decl_unique(db, d.id, file_id, name.name@, name.position);
        }
        if d.is_local() || d.is_implicit_self() {
            return Some(LuaSemanticDeclId::LuaDecl(d.id));
        }
    } else {
        proof {
            if exists|id: LuaDeclId| is_nearest_decl(db@.decls, id, file_id, name.name@, name.position) {
                let id = choose|id: LuaDeclId| is_nearest_decl(db@.decls, id, file_id, name.name@, name.position);
                assert(db@.decls.contains_key(id));
            }
        }
    }
    match db.get_global_index().get_global_decl_ids(&name.name) {
        Some(ids) => if ids.len() > 0 {
            Some(LuaSemanticDeclId::LuaDecl(ids[0]))
        } else {
            None
        },
        None => None,
    }
}

/// `r` is the type `self` has in a method of a value of type `t` (see
/// `build_self_type`).
pub open spec fn self_type_of(db: &DbIndex, t: LuaType, r: LuaType) -> bool {
    match t {
        LuaType::Def(id) => build_self_type_post(db, id, t, r),
        LuaType::Ref(id) => build_self_type_post(db, id, t, r),
        _ => r == t,
    }
}

/// The type of `self` in a call: for `obj:method()` or `obj.method()`, the
/// type of `obj` made generic over its parameters; for a name that refers to
/// a member of a class, that class; otherwise none. A bare name refers to a
/// declaration, never to a member, so a call of a bare name gives none.
pub fn infer_self_type(
    db: &DbIndex,
    modules: &Vec<FileReturn>,
    file_id: FileId,
    call_expr: &LuaCallExpr,
) -> (r: Option<LuaType>)
    requires
        db.wf(),
    ensures
        self_given(db, modules@, file_id, *call_expr, r),
        (*call_expr.prefix) is NameExpr ==> r is None,
{
    match &*call_expr.prefix {
        LuaExpr::IndexExpr(index) => {
            let self_type = match infer_expr(db, modules, file_id, &index.prefix, INFER_DEPTH) {
                Ok(t) => t,
                Err(_) => return None,
            };
            let self_type = build_self_type(db, &self_type);
            return Some(self_type);
        },
        LuaExpr::NameExpr(name) => {
            let semantic_decl_id = infer_node_semantic_decl(db, file_id, name)?;
            if let LuaSemanticDeclId::Member(member_id) = semantic_decl_id {
                let owner = db.get_member_index().get_current_owner(&member_id)?;
                if let LuaMemberOwner::Type(id) = owner {
                    let typ = LuaType::Ref(id.clone());
                    let self_type = build_self_type(db, &typ);
                    return Some(self_type);
                }
                return None;
            }
        },
        _ => {},
    }
    None
}

/// When the call writes the template types explicitly and `func` has
/// templates, `s` gives the `i`-th template the `i`-th written type.
pub open spec fn explicit_types_given(s: TypeSubstitutor, func: LuaFunctionType, call_expr: LuaCallExpr) -> bool {
    match call_expr.generic_types {
        Some(list) => {
            &&& forall|id: GenericTplId| #[trigger]
                s.replaced().contains_key(id) ==> (id matches GenericTplId::Func(j) && j < list@.len())
            &&& (exists|k: u64| mentions_tpl(LuaType::DocFunction(Arc::new(func)), k, true, true))
                && list@.len() <= u32::MAX ==> tpls_given(s.replaced(), list@, list@.len() as int)
        },
        None => true,
    }
}

/// `st` is the type of `self` in the call `call_expr`: for `obj:method()` or
/// `obj.method()`, the type `self` has in a method of `obj`'s type, when that
/// type can be inferred; otherwise none.
pub open spec fn self_given(
    db: &DbIndex,
    modules: Seq<FileReturn>,
    file_id: FileId,
    call_expr: LuaCallExpr,
    st: Option<LuaType>,
) -> bool {
    match *call_expr.prefix {
        LuaExpr::IndexExpr(ix) => match infer_expr_spec(db@, modules, file_id, *ix.prefix, INFER_DEPTH as nat) {
            Ok(t) => st matches Some(x) && self_type_of(db, t, x),
            Err(_) => st is None,
        },
        _ => st is None,
    }
}

/// The class name that the argument template `info` (a string template when
/// `is_string`, a name template otherwise) resolves to at a call with the
/// arguments `args`.
pub open spec fn resolve_arg_spec(is_string: bool, info: LuaArgInferType, args: Seq<LuaExpr>) -> Option<Seq<char>> {
    if is_string {
        resolve_arg_string_spec(info, args)
    } else {
        resolve_arg_name_spec(info, args)
    }
}

/// The recorded argument type `e` is the class its template resolves to.
pub open spec fn arg_entry_sound(e: (bool, u32, String, LuaType), args: Seq<LuaExpr>) -> bool {
    resolve_arg_spec(e.0, LuaArgInferType { idx: e.1, prefix: e.2 }, args) matches Some(n) && e.3 matches LuaType::Ref(
        id,
    ) && id.name@ == n
}

/// `entries` records a type for the template `info`.
pub open spec fn has_arg_entry(entries: Seq<(bool, u32, String, LuaType)>, is_string: bool, info: LuaArgInferType) -> bool {
    exists|i: int|
        0 <= i < entries.len() && (#[trigger] entries[i]).0 == is_string && entries[i].1 == info.idx && entries[i].2@
            == info.prefix@
}

/// The argument template `info` gets, from `entries`, the class it resolves
/// to at a call with the arguments `args`, and no type when it resolves to
/// none.
pub open spec fn arg_resolved(
    entries: Seq<(bool, u32, String, LuaType)>,
    is_string: bool,
    info: LuaArgInferType,
    args: Seq<LuaExpr>,
) -> bool {
    match resolve_arg_spec(is_string, info, args) {
        Some(n) => arg_type_of(entries, is_string, info) matches Some(LuaType::Ref(id)) && id.name@ == n,
        None => arg_type_of(entries, is_string, info) is None,
    }
}

/// With only sound entries, a template gets the class it resolves to as soon
/// as an entry for it is recorded, and no type while it resolves to none.
proof fn lemma_arg_resolved(
    entries: Seq<(bool, u32, String, LuaType)>,
    is_string: bool,
    info: LuaArgInferType,
    args: Seq<LuaExpr>,
)
    requires
        forall|i: int| 0 <= i < entries.len() ==> #[trigger] arg_entry_sound(entries[i], args),
        resolve_arg_spec(is_string, info, args) is Some ==> has_arg_entry(entries, is_string, info),
    ensures
        arg_resolved(entries, is_string, info, args),
    decreases entries.len(),
{
    if entries.len() > 0 {
        let rest = entries.drop_first();
        assert forall|i: int| 0 <= i < rest.len() implies #[trigger] arg_entry_sound(rest[i], args) by {
            assert(rest[i] == entries[i + 1]);
        }
        let e = entries[0];
        assert(arg_entry_sound(entries[0], args));
        if !(e.0 == is_string && e.1 == info.idx && e.2@ == info.prefix@) {
            if resolve_arg_spec(is_string, info, args) is Some {
                let i = choose|i: int|
                    0 <= i < entries.len() && (#[trigger] entries[i]).0 == is_string && entries[i].1 == info.idx
                        && entries[i].2@ == info.prefix@;
                assert(i > 0);
                assert(rest[i - 1] == entries[i]);
            }
            lemma_arg_resolved(rest, is_string, info, args);
        }
    }
}

/// The templates that the function type `t` mentions (plain, `const` or
/// string templates, of a function or of a type).
pub open spec fn tpl_keys(t: LuaType) -> Set<u64> {
    Set::new(|k: u64| mentions_tpl(t, k, true, true))
}

/// The parameter types `ts` adjusted to how the function is called: a
/// leading `any` for `self` when a method defined with `:` is called with
/// `.`, the first one dropped when a function defined with `.` is called
/// with `:`.
pub open spec fn adjusted_types(ts: Seq<LuaType>, colon_define: bool, colon_call: bool) -> Seq<LuaType> {
    if colon_define && !colon_call {
        seq![LuaType::Any] + ts
    } else if !colon_define && colon_call && ts.len() > 0 {
        ts.subrange(1, ts.len() as int)
    } else {
        ts
    }
}

/// The parameter types of `func` as the call `call` sees them.
pub open spec fn call_param_types(func: LuaFunctionType, call: LuaCallExpr) -> Seq<LuaType> {
    adjusted_types(param_types(func.params@), func.is_colon_define, call.spec_is_colon_call())
}

/// The template types `m` of an instantiation of `func` for `call`: none
/// for a function without templates; for a call that writes none, those
/// that `call_bind` infers from the arguments.
pub open spec fn inferred_given(
    db: &DbIndex,
    modules: Seq<FileReturn>,
    file: FileId,
    func: LuaFunctionType,
    call: LuaCallExpr,
    m: Map<GenericTplId, LuaType>,
) -> bool {
    let ft = LuaType::DocFunction(Arc::new(func));
    if forall|k: u64| !mentions_tpl(ft, k, true, true) {
        m == Map::<GenericTplId, LuaType>::empty()
    } else if call.generic_types is None {
        call_bind(
            db,
            modules,
            file,
            Some(tpl_keys(ft)),
            Map::empty(),
            call_param_types(func, call),
            call.args@,
            0,
            Seq::empty(),
            Ok(m),
        )
    } else {
        true
    }
}

/// Instantiates the generic function `func` for the call `call_expr`: its
/// templates get the types written at the call, or else the types inferred
/// from the arguments; `self` gets the type of the call's receiver; argument
/// templates get the classes named by the arguments. The result is `func`
/// with those replaced.
pub fn instantiate_func_generic(
    db: &DbIndex,
    modules: &Vec<FileReturn>,
    file_id: FileId,
    func: &LuaFunctionType,
    call_expr: &LuaCallExpr,
) -> (r: Result<LuaFunctionType, InferFailReason>)
    requires
        db.wf(),
    ensures
        r matches Ok(g) ==> exists|s: TypeSubstitutor|
            #[trigger] instantiated(s, LuaType::DocFunction(Arc::new(*func)), LuaType::DocFunction(Arc::new(g)))
                && s.wf() && explicit_types_given(s, *func, *call_expr) && (if mentions_self(
                LuaType::DocFunction(Arc::new(*func)),
            ) {
                self_given(db, modules@, file_id, *call_expr, s.self_type)
            } else {
                s.self_type is None
            }) && (forall|b: bool, info: LuaArgInferType|
                #[trigger] mentions_arg(LuaType::DocFunction(Arc::new(*func)), b, info) ==> arg_resolved(
                    s.arg_types@,
                    b,
                    info,
                    call_expr.args@,
                )) && inferred_given(db, modules@, file_id, *func, *call_expr, s.replaced()),
        r matches Err(e) ==> call_expr.generic_types is None && call_bind(
            db,
            modules@,
            file_id,
            Some(tpl_keys(LuaType::DocFunction(Arc::new(*func)))),
            Map::empty(),
            call_param_types(*func, *call_expr),
            call_expr.args@,
            0,
            Seq::empty(),
            Err(e),
        ),
        call_expr.generic_types is Some || (forall|k: u64|
            !mentions_tpl(LuaType::DocFunction(Arc::new(*func)), k, true, true)) ==> r is Ok,
{
    let mut usage = GenericUsage {
        tpls: tpl_set_new(),
        contain_self: false,
        arg_names: Vec::new(),
        arg_strings: Vec::new(),
    };
    visit_function_usage(func, &mut usage, true, true);
    let ghost uses = tpl_set_items(usage.tpls);
    proof {
        let ft = LuaType::DocFunction(Arc::new(*func));
        if forall|k: u64| !mentions_tpl(ft, k, true, true) {
            assert(uses =~= Set::<u64>::empty());
        }
    }

    let mut func_params: Vec<(String, LuaType)> = Vec::new();
    let mut i: usize = 0;
    while i < func.params.len()
        invariant
            i <= func.params@.len(),
            types_of(func_params@) == param_types(func.params@).subrange(0, i as int),
        decreases func.params@.len() - i,
    {
        let (name, t) = &func.params[i];
        let ghost before = func_params@;
        let ty = match t {
            Some(t) => t.clone(),
            None => LuaType::Unknown,
        };
        assert(ty == param_types(func.params@)[i as int]);
        func_params.push((name.clone(), ty));
        assert(types_of(func_params@) =~= types_of(before).push(ty));
        assert(types_of(func_params@) =~= param_types(func.params@).subrange(0, i + 1));
        i = i + 1;
    }
    assert(types_of(func_params@) =~= param_types(func.params@));
    let ghost ft = LuaType::DocFunction(Arc::new(*func));
    assert(uses =~= tpl_keys(ft));

    let arg_exprs = call_expr.args.as_slice();
    let mut substitutor = TypeSubstitutor::new();
    let generic_tpls_empty = tpl_set_is_empty(&usage.tpls);
    if !generic_tpls_empty {
        substitutor.add_need_infer_tpls(usage.tpls);

        match &call_expr.generic_types {
            // The templates were given explicitly, as in `obj:abc--[[@<string>]]("abc")`.
            Some(type_list) => {
                apply_call_generic_type_list(db, file_id, &mut substitutor, type_list);
            },
            // Otherwise they are inferred from the call's arguments.
            None => {
                let ghost s_before = substitutor;
                proof {
                    assert(s_before.replaced() =~= Map::<GenericTplId, LuaType>::empty());
                    assert(need_keys(s_before.need_infer) == Some(tpl_keys(ft)));
                    assert(arg_exprs@ == call_expr.args@);
                }
                let inferred = infer_generic_types_from_call(
                    db,
                    modules,
                    file_id,
                    &mut substitutor,
                    func,
                    call_expr,
                    &mut func_params,
                    arg_exprs,
                );
                proof {
                    assert(types_of(func_params@) =~= call_param_types(*func, *call_expr));
                }
                if let Err(e) = inferred {
                    return Err(e);
                }
                proof {
                    assert(call_bind(
                        db,
                        modules@,
                        file_id,
                        Some(tpl_keys(ft)),
                        Map::empty(),
                        call_param_types(*func, *call_expr),
                        call_expr.args@,
                        0,
                        Seq::empty(),
                        Ok(substitutor.replaced()),
                    ));
                }
            },
        }
    }
    let ghost after_tpls = substitutor;
    proof {
        let ft = LuaType::DocFunction(Arc::new(*func));
        if call_expr.generic_types is Some && (exists|k: u64| mentions_tpl(ft, k, true, true)) {
            let k = choose|k: u64| mentions_tpl(ft, k, true, true);
            assert(uses.contains(k));
            assert(!generic_tpls_empty);
        }
        assert(explicit_types_given(after_tpls, *func, *call_expr));
        if exists|k: u64| mentions_tpl(ft, k, true, true) {
            let k = choose|k: u64| mentions_tpl(ft, k, true, true);
            assert(uses.contains(k));
            assert(!generic_tpls_empty);
        } else {
            assert(after_tpls.replaced() =~= Map::<GenericTplId, LuaType>::empty());
        }
        assert(inferred_given(db, modules@, file_id, *func, *call_expr, after_tpls.replaced()));
    }

    if usage.contain_self {
        if let Some(self_type) = infer_self_type(db, modules, file_id, call_expr) {
            substitutor.add_self_type(self_type);
        }
    }
    let ghost after_self = substitutor.self_type;
    let ghost args = call_expr.args@;
    assert(arg_exprs@ == args);

    let mut k: usize = 0;
    while k < usage.arg_names.len()
        invariant
            substitutor.wf(),
            substitutor.tpl_replace == after_tpls.tpl_replace,
            substitutor.self_type == after_self,
            arg_exprs@ == args,
            forall|i: int|
                0 <= i < substitutor.arg_types@.len() ==> #[trigger] arg_entry_sound(substitutor.arg_types@[i], args),
            forall|j: int|
                0 <= j < k && resolve_arg_spec(false, *usage.arg_names@[j], args) is Some ==> has_arg_entry(
                    substitutor.arg_types@,
                    false,
                    *#[trigger] usage.arg_names@[j],
                ),
        decreases usage.arg_names@.len() - k,
    {
        let info = &usage.arg_names[k];
        if let Some(resolved) = resolve_arg_name_from_exprs(info, arg_exprs) {
            let ghost before = substitutor.arg_types@;
            substitutor.add_arg_name_type(info, resolved);
            proof {
                let n = before.len();
                assert(substitutor.arg_types@[n as int].2@ == info.prefix@);
                assert(arg_entry_sound(substitutor.arg_types@[n as int], args));
                assert forall|i: int| 0 <= i < substitutor.arg_types@.len() implies #[trigger] arg_entry_sound(
                    substitutor.arg_types@[i],
                    args,
                ) by {
                    if i < n {
                        assert(substitutor.arg_types@[i] == before[i]);
                    }
                }
                assert forall|j: int|
                    0 <= j < k + 1 && resolve_arg_spec(false, *usage.arg_names@[j], args) is Some implies has_arg_entry(
                    substitutor.arg_types@,
                    false,
                    *#[trigger] usage.arg_names@[j],
                ) by {
                    if j < k {
                        let x = *usage.arg_names@[j];
                        let i = choose|i: int|
                            0 <= i < before.len() && (#[trigger] before[i]).0 == false && before[i].1 == x.idx
                                && before[i].2@ == x.prefix@;
                        assert(substitutor.arg_types@[i] == before[i]);
                    } else {
                        assert(substitutor.arg_types@[n as int].0 == false);
                    }
                }
            }
        }
        k = k + 1;
    }
    let ghost after_names = substitutor.arg_types@;
    let mut k: usize = 0;
    while k < usage.arg_strings.len()
        invariant
            substitutor.wf(),
            substitutor.tpl_replace == after_tpls.tpl_replace,
            substitutor.self_type == after_self,
            arg_exprs@ == args,
            forall|i: int|
                0 <= i < substitutor.arg_types@.len() ==> #[trigger] arg_entry_sound(substitutor.arg_types@[i], args),
            after_names.len() <= substitutor.arg_types@.len(),
            forall|i: int| 0 <= i < after_names.len() ==> #[trigger] substitutor.arg_types@[i] == after_names[i],
            forall|j: int|
                0 <= j < k && resolve_arg_spec(true, *usage.arg_strings@[j], args) is Some ==> has_arg_entry(
                    substitutor.arg_types@,
                    true,
                    *#[trigger] usage.arg_strings@[j],
                ),
        decreases usage.arg_strings@.len() - k,
    {
        let info = &usage.arg_strings[k];
        if let Some(resolved) = resolve_arg_string_from_exprs(info, arg_exprs) {
            let ghost before = substitutor.arg_types@;
            substitutor.add_arg_string_type(info, resolved);
            proof {
                let n = before.len();
                assert(substitutor.arg_types@[n as int].2@ == info.prefix@);
                assert(arg_entry_sound(substitutor.arg_types@[n as int], args));
                assert forall|i: int| 0 <= i < substitutor.arg_types@.len() implies #[trigger] arg_entry_sound(
                    substitutor.arg_types@[i],
                    args,
                ) by {
                    if i < n {
                        assert(substitutor.arg_types@[i] == before[i]);
                    }
                }
                assert forall|i: int| 0 <= i < after_names.len() implies #[trigger] substitutor.arg_types@[i]
                    == after_names[i] by {
                    assert(substitutor.arg_types@[i] == before[i]);
                }
                assert forall|j: int|
                    0 <= j < k + 1 && resolve_arg_spec(true, *usage.arg_strings@[j], args) is Some implies has_arg_entry(
                    substitutor.arg_types@,
                    true,
                    *#[trigger] usage.arg_strings@[j],
                ) by {
                    if j < k {
                        let x = *usage.arg_strings@[j];
                        let i = choose|i: int|
                            0 <= i < before.len() && (#[trigger] before[i]).0 == true && before[i].1 == x.idx
                                && before[i].2@ == x.prefix@;
                        assert(substitutor.arg_types@[i] == before[i]);
                    } else {
                        assert(substitutor.arg_types@[n as int].0 == true);
                    }
                }
            }
        }
        k = k + 1;
    }
    proof {
        let ft = LuaType::DocFunction(Arc::new(*func));
        let entries = substitutor.arg_types@;
        assert forall|b: bool, info: LuaArgInferType| #[trigger] mentions_arg(ft, b, info) implies arg_resolved(
            entries,
            b,
            info,
            args,
        ) by {
            if resolve_arg_spec(b, info, args) is Some {
                if b {
                    assert(arg_listed(usage.arg_strings@, info));
                    let j = choose|j: int| 0 <= j < usage.arg_strings@.len() && *usage.arg_strings@[j] == info;
                    assert(has_arg_entry(entries, true, *usage.arg_strings@[j]));
                } else {
                    assert(arg_listed(usage.arg_names@, info));
                    let j = choose|j: int| 0 <= j < usage.arg_names@.len() && *usage.arg_names@[j] == info;
                    assert(has_arg_entry(after_names, false, *usage.arg_names@[j]));
                    let i = choose|i: int|
                        0 <= i < after_names.len() && (#[trigger] after_names[i]).0 == false && after_names[i].1
                            == info.idx && after_names[i].2@ == info.prefix@;
                    assert(entries[i] == after_names[i]);
                }
            }
            lemma_arg_resolved(entries, b, info, args);
        }
    }

    let result = instantiate_function(&substitutor, func);
    proof {
        assert(substitutor.replaced() == after_tpls.replaced());
        assert(explicit_types_given(substitutor, *func, *call_expr));
        assert(instantiated(substitutor, LuaType::DocFunction(Arc::new(*func)), LuaType::DocFunction(Arc::new(result))));
    }
    Ok(result)
}

} // verus!

