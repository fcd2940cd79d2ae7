use emmylua_members::analysis::FileReturn;
use emmylua_members::db::{DbIndex, LuaDecl, LuaDeclKind, LuaMember};
use emmylua_members::func_generic::{
    as_doc_function_type, build_self_type, check_expr_can_later_infer,
    infer_callable_return_from_remaining_args, infer_self_type, instantiate_func_generic,
    resolve_arg_name_from_exprs, resolve_arg_string_from_exprs,
};
use emmylua_members::common::add_member;
use emmylua_members::ids::{
    FileId, InFiled, LuaDeclId, LuaMemberId, LuaMemberOwner, LuaSignatureId, LuaTypeDeclId,
    LuaTypeOwner, TextRange,
};
use emmylua_members::syntax::{
    LuaCallExpr, LuaClosureExpr, LuaDocTypeRef, LuaExpr, LuaIndexExpr, LuaIndexKey, LuaLiteralExpr,
    LuaLiteralToken, LuaNameExpr,
};
use emmylua_members::types::{
    GenericParam, GenericTpl, GenericTplId, InferFailReason, LuaArgInferType, LuaFunctionType,
    LuaGenericType, LuaSignature, LuaType, LuaTypeCache, VariadicType,
};
use internment::ArcIntern;
use std::sync::Arc;

fn file0() -> FileId {
    FileId { id: 0 }
}

fn tpl(id: GenericTplId, name: &str) -> Arc<GenericTpl> {
    Arc::new(GenericTpl::new(id, ArcIntern::new(name.to_string()), None))
}

fn func_tpl(i: u32) -> LuaType {
    LuaType::TplRef(tpl(GenericTplId::Func(i), "T"))
}

fn doc_fn(params: Vec<(&str, Option<LuaType>)>, ret: LuaType) -> LuaFunctionType {
    LuaFunctionType {
        is_async: false,
        is_colon_define: false,
        params: params.into_iter().map(|(n, t)| (n.to_string(), t)).collect(),
        ret,
    }
}

fn name(n: &str, position: u32) -> LuaExpr {
    LuaExpr::NameExpr(LuaNameExpr { name: n.to_string(), position })
}

fn literal(l: LuaLiteralToken) -> LuaExpr {
    LuaExpr::LiteralExpr(LuaLiteralExpr { literal: l, position: 90 })
}

fn index(prefix: LuaExpr, key: LuaIndexKey, colon: bool) -> LuaExpr {
    LuaExpr::IndexExpr(LuaIndexExpr { prefix: Box::new(prefix), key, colon, position: 91 })
}

fn call(prefix: LuaExpr, args: Vec<LuaExpr>, generic_types: Option<Vec<&str>>) -> LuaCallExpr {
    LuaCallExpr {
        prefix: Box::new(prefix),
        args,
        generic_types: generic_types.map(|names| {
            names
                .into_iter()
                .map(|n| LuaDocTypeRef { name: n.to_string(), optional: false })
                .collect()
        }),
        position: 80,
    }
}

fn class(n: &str) -> LuaType {
    LuaType::Ref(LuaTypeDeclId::global(n))
}

fn no_modules() -> Vec<FileReturn> {
    Vec::new()
}

fn arg_info(idx: u32, prefix: &str) -> LuaArgInferType {
    LuaArgInferType { idx, prefix: prefix.to_string() }
}

fn add_typed_local(db: &mut DbIndex, n: &str, position: u32, t: Option<LuaType>) -> LuaDeclId {
    let id = LuaDeclId { file_id: file0(), position };
    db.decl_index.add_decl(LuaDecl { id, name: n.to_string(), kind: LuaDeclKind::Local, scope_end: 1000 });
    if let Some(t) = t {
        db.type_index.bind_type(LuaTypeOwner::Decl(id), LuaTypeCache::DocType(t));
    }
    id
}

#[test]
fn test_resolve_arg_name_takes_last_path_segment() {
    let args = vec![index(index(name("G", 5), LuaIndexKey::Name("sub".to_string()), false), LuaIndexKey::Name("Foo".to_string()), false)];
    assert_eq!(resolve_arg_name_from_exprs(&arg_info(1, "P."), &args), Some(class("P.Foo")));
    let args = vec![literal(LuaLiteralToken::Nil), name("abc", 5)];
    assert_eq!(resolve_arg_name_from_exprs(&arg_info(2, "Pre"), &args), Some(class("Preabc")));
}

#[test]
fn test_resolve_arg_name_refuses_literals_and_bad_positions() {
    let args = vec![literal(LuaLiteralToken::String("Foo".to_string())), name("abc", 5)];
    assert_eq!(resolve_arg_name_from_exprs(&arg_info(1, "P"), &args), None);
    assert_eq!(resolve_arg_name_from_exprs(&arg_info(0, "P"), &args), None);
    assert_eq!(resolve_arg_name_from_exprs(&arg_info(3, "P"), &args), None);
    let args = vec![index(name("t", 5), LuaIndexKey::Integer(1), false)];
    assert_eq!(resolve_arg_name_from_exprs(&arg_info(1, "P"), &args), None);
}

#[test]
fn test_resolve_arg_string_takes_string_literal() {
    let args = vec![name("x", 1), literal(LuaLiteralToken::String("Foo".to_string()))];
    assert_eq!(resolve_arg_string_from_exprs(&arg_info(2, "Ev."), &args), Some(class("Ev.Foo")));
    assert_eq!(resolve_arg_string_from_exprs(&arg_info(1, "Ev."), &args), None);
    assert_eq!(resolve_arg_string_from_exprs(&arg_info(0, "Ev."), &args), None);
    assert_eq!(resolve_arg_string_from_exprs(&arg_info(5, "Ev."), &args), None);
    let args = vec![literal(LuaLiteralToken::Integer(3))];
    assert_eq!(resolve_arg_string_from_exprs(&arg_info(1, "Ev."), &args), None);
}

#[test]
fn test_as_doc_function_type_of_each_callable() {
    let mut db = DbIndex::new();
    let f = Arc::new(doc_fn(vec![("a", Some(LuaType::Integer))], LuaType::String));
    assert_eq!(
        as_doc_function_type(&db, &LuaType::DocFunction(f.clone())),
        Ok(Some(f.clone()))
    );
    let sig_id = LuaSignatureId { file_id: file0(), position: 3 };
    assert_eq!(as_doc_function_type(&db, &LuaType::Signature(sig_id)), Err(InferFailReason::NoReason));
    db.signature_index.add(
        sig_id,
        LuaSignature {
            is_async: false,
            is_colon_define: true,
            params: vec![("a".to_string(), Some(LuaType::Integer))],
            ret: LuaType::String,
        },
    );
    let expected = LuaFunctionType {
        is_async: false,
        is_colon_define: true,
        params: vec![("a".to_string(), Some(LuaType::Integer))],
        ret: LuaType::String,
    };
    assert_eq!(
        as_doc_function_type(&db, &LuaType::Signature(sig_id)),
        Ok(Some(Arc::new(expected)))
    );
    assert_eq!(as_doc_function_type(&db, &LuaType::Integer), Ok(None));
}

fn variadic_any() -> Option<LuaType> {
    Some(LuaType::Variadic(Arc::new(VariadicType::Base(LuaType::Any))))
}

#[test]
fn test_check_expr_can_later_infer_cases() {
    let db = DbIndex::new();
    let arg = literal(LuaLiteralToken::Integer(1));
    let closure = LuaExpr::ClosureExpr(LuaClosureExpr { position: 4, params: vec![], block: vec![], end: 9 });
    let two = LuaType::DocFunction(Arc::new(doc_fn(vec![("a", variadic_any()), ("b", variadic_any())], LuaType::Nil)));
    let one = LuaType::DocFunction(Arc::new(doc_fn(vec![("a", variadic_any()), ("b", None)], LuaType::Nil)));
    assert_eq!(check_expr_can_later_infer(&db, &two, &arg), Ok(true));
    assert_eq!(check_expr_can_later_infer(&db, &one, &arg), Ok(false));
    assert_eq!(check_expr_can_later_infer(&db, &one, &closure), Ok(true));
    assert_eq!(check_expr_can_later_infer(&db, &LuaType::Integer, &closure), Ok(false));
    let missing = LuaType::Signature(LuaSignatureId { file_id: file0(), position: 3 });
    assert_eq!(check_expr_can_later_infer(&db, &missing, &arg), Err(InferFailReason::NoReason));
}

#[test]
fn test_build_self_type_applies_generic_params() {
    let mut db = DbIndex::new();
    db.type_index.add_generic_params(
        "Foo".to_string(),
        vec![
            GenericParam { name: "T".to_string(), type_constraint: None },
            GenericParam { name: "U".to_string(), type_constraint: Some(LuaType::String) },
        ],
    );
    let expected = LuaType::Generic(Arc::new(LuaGenericType::new(
        LuaTypeDeclId::global("Foo"),
        vec![LuaType::TplRef(tpl(GenericTplId::Type(0), "T")), LuaType::String],
    )));
    assert_eq!(build_self_type(&db, &class("Foo")), expected);
    assert_eq!(build_self_type(&db, &LuaType::Def(LuaTypeDeclId::global("Foo"))), expected);
    if let LuaType::Generic(g) = build_self_type(&db, &class("Foo")) {
        if let LuaType::TplRef(t) = &g.params[0] {
            assert_eq!(t.name.as_str(), "T");
        } else {
            panic!("expected a template");
        }
    }
    assert_eq!(build_self_type(&db, &class("Bar")), class("Bar"));
    assert_eq!(build_self_type(&db, &LuaType::Integer), LuaType::Integer);
}

#[test]
fn test_instantiate_func_generic_with_explicit_types() {
    let db = DbIndex::new();
    let f = doc_fn(vec![("x", Some(func_tpl(0)))], func_tpl(0));
    let c = call(name("id", 1), vec![literal(LuaLiteralToken::Integer(1))], Some(vec!["string"]));
    let r = instantiate_func_generic(&db, &no_modules(), file0(), &f, &c).unwrap();
    assert_eq!(r.ret, LuaType::String);
    assert_eq!(r.params[0].1, Some(LuaType::String));
    let c = call(name("id", 1), vec![], Some(vec!["Foo"]));
    let r = instantiate_func_generic(&db, &no_modules(), file0(), &f, &c).unwrap();
    assert_eq!(r.ret, class("Foo"));
}

#[test]
fn test_instantiate_func_generic_infers_from_arguments() {
    let db = DbIndex::new();
    let f = doc_fn(vec![("x", Some(func_tpl(0)))], func_tpl(0));
    let c = call(name("id", 1), vec![literal(LuaLiteralToken::Integer(1))], None);
    let r = instantiate_func_generic(&db, &no_modules(), file0(), &f, &c).unwrap();
    assert_eq!(r.ret, LuaType::Integer);

    let k = LuaType::ConstTplRef(tpl(GenericTplId::Func(0), "K"));
    let f = doc_fn(vec![("x", Some(k.clone()))], k);
    let c = call(name("id", 1), vec![literal(LuaLiteralToken::String("a".to_string()))], None);
    let r = instantiate_func_generic(&db, &no_modules(), file0(), &f, &c).unwrap();
    assert_eq!(r.ret, LuaType::StringConst("a".to_string()));
}

#[test]
fn test_instantiate_func_generic_without_templates_keeps_function() {
    let db = DbIndex::new();
    let f = doc_fn(vec![("x", Some(LuaType::Integer)), ("y", None)], LuaType::Boolean);
    let c = call(name("g", 1), vec![literal(LuaLiteralToken::Integer(1))], None);
    let r = instantiate_func_generic(&db, &no_modules(), file0(), &f, &c).unwrap();
    assert_eq!(r, f);
}

#[test]
fn test_instantiate_func_generic_colon_call_drops_self_param() {
    let db = DbIndex::new();
    // Defined with `.`, called with `:`: the receiver fills `self`, so the
    // first argument matches the second parameter.
    let f = doc_fn(vec![("self", Some(LuaType::Any)), ("x", Some(func_tpl(0)))], func_tpl(0));
    let c = call(
        index(name("obj", 1), LuaIndexKey::Name("m".to_string()), true),
        vec![literal(LuaLiteralToken::Bool(true))],
        None,
    );
    let r = instantiate_func_generic(&db, &no_modules(), file0(), &f, &c).unwrap();
    assert_eq!(r.ret, LuaType::Boolean);
}

#[test]
fn test_instantiate_func_generic_arg_name_and_string() {
    let db = DbIndex::new();
    let f = doc_fn(
        vec![("a", Some(LuaType::Any)), ("b", Some(LuaType::Any))],
        LuaType::ArgNameInfer(Arc::new(arg_info(1, "N."))),
    );
    let c = call(
        name("g", 1),
        vec![index(name("G", 2), LuaIndexKey::Name("Foo".to_string()), false), literal(LuaLiteralToken::String("Bar".to_string()))],
        None,
    );
    let r = instantiate_func_generic(&db, &no_modules(), file0(), &f, &c).unwrap();
    assert_eq!(r.ret, class("N.Foo"));
    let f = doc_fn(vec![], LuaType::ArgStringInfer(Arc::new(arg_info(2, "S."))));
    let r = instantiate_func_generic(&db, &no_modules(), file0(), &f, &c).unwrap();
    assert_eq!(r.ret, class("S.Bar"));
}

#[test]
fn test_instantiate_func_generic_self_type_of_method_call() {
    let mut db = DbIndex::new();
    db.type_index.add_generic_params(
        "List".to_string(),
        vec![GenericParam { name: "V".to_string(), type_constraint: None }],
    );
    add_typed_local(&mut db, "obj", 0, Some(class("List")));
    let c = call(index(name("obj", 50), LuaIndexKey::Name("m".to_string()), true), vec![], None);
    let expected = LuaType::Generic(Arc::new(LuaGenericType::new(
        LuaTypeDeclId::global("List"),
        vec![LuaType::TplRef(tpl(GenericTplId::Type(0), "V"))],
    )));
    assert_eq!(infer_self_type(&db, &no_modules(), file0(), &c), Some(expected.clone()));
    let f = LuaFunctionType { is_async: false, is_colon_define: true, params: vec![], ret: LuaType::SelfInfer };
    let r = instantiate_func_generic(&db, &no_modules(), file0(), &f, &c).unwrap();
    assert_eq!(r.ret, expected);
    // A plain name that is no member gives no self type.
    let c = call(name("obj", 50), vec![], None);
    assert_eq!(infer_self_type(&db, &no_modules(), file0(), &c), None);
}

#[test]
fn test_instantiate_func_generic_reports_untyped_arguments() {
    let mut db = DbIndex::new();
    let d = add_typed_local(&mut db, "a", 0, None);
    let f = doc_fn(vec![("x", Some(func_tpl(0)))], func_tpl(0));
    let c = call(name("id", 1), vec![name("a", 50)], None);
    assert_eq!(
        instantiate_func_generic(&db, &no_modules(), file0(), &f, &c),
        Err(InferFailReason::UnResolveDeclType(d))
    );

    // A field whose type is not known yet.
    let table = InFiled::new(file0(), TextRange { start: 10, end: 20 });
    add_typed_local(&mut db, "t", 1, Some(LuaType::TableConst(table)));
    let m = LuaMemberId { file_id: file0(), position: 12 };
    db.member_index.add_member(LuaMember { id: m, key: "f".to_string(), global_id: None });
    add_member(&mut db, LuaMemberOwner::Element(table), m);
    let c = call(name("id", 1), vec![index(name("t", 50), LuaIndexKey::Name("f".to_string()), false)], None);
    assert_eq!(
        instantiate_func_generic(&db, &no_modules(), file0(), &f, &c),
        Err(InferFailReason::UnResolveMemberType(m))
    );
    // Explicit types need no argument type.
    let c = call(name("id", 1), vec![name("a", 50)], Some(vec!["integer"]));
    let r = instantiate_func_generic(&db, &no_modules(), file0(), &f, &c).unwrap();
    assert_eq!(r.ret, LuaType::Integer);
}

#[test]
fn test_infer_callable_return_from_remaining_args_cases() {
    let db = DbIndex::new();
    let args = vec![literal(LuaLiteralToken::String("x".to_string()))];
    let plain = LuaType::DocFunction(Arc::new(doc_fn(vec![("a", Some(LuaType::Integer))], LuaType::Number)));
    let generic = LuaType::DocFunction(Arc::new(doc_fn(vec![("a", Some(func_tpl(0)))], func_tpl(0))));
    assert_eq!(infer_callable_return_from_remaining_args(&db, &no_modules(), file0(), &plain, &[]), Ok(None));
    assert_eq!(
        infer_callable_return_from_remaining_args(&db, &no_modules(), file0(), &LuaType::Integer, &args),
        Ok(None)
    );
    assert_eq!(
        infer_callable_return_from_remaining_args(&db, &no_modules(), file0(), &plain, &args),
        Ok(Some(LuaType::Number))
    );
    assert_eq!(
        infer_callable_return_from_remaining_args(&db, &no_modules(), file0(), &generic, &args),
        Ok(Some(LuaType::String))
    );
    let missing = LuaType::Signature(LuaSignatureId { file_id: file0(), position: 3 });
    assert_eq!(
        infer_callable_return_from_remaining_args(&db, &no_modules(), file0(), &missing, &args),
        Err(InferFailReason::NoReason)
    );
}

#[test]
fn test_generic_parameter_matched_through_callback_return() {
    let db = DbIndex::new();
    // map(f: fun(a: A): R, a: A): R, called as map(g, "s") where g returns
    // what it gets.
    let a = LuaType::TplRef(tpl(GenericTplId::Func(0), "A"));
    let r = LuaType::TplRef(tpl(GenericTplId::Func(1), "R"));
    let cb = LuaType::DocFunction(Arc::new(doc_fn(vec![("a", Some(a.clone()))], r.clone())));
    let f = doc_fn(vec![("f", Some(cb)), ("a", Some(a))], r);
    let mut db2 = db;
    let g_ret = LuaType::TplRef(tpl(GenericTplId::Func(0), "X"));
    let g = LuaType::DocFunction(Arc::new(doc_fn(vec![("x", Some(g_ret.clone()))], g_ret)));
    add_typed_local(&mut db2, "g", 0, Some(g));
    let c = call(name("map", 1), vec![name("g", 50), literal(LuaLiteralToken::String("s".to_string()))], None);
    let out = instantiate_func_generic(&db2, &no_modules(), file0(), &f, &c).unwrap();
    assert_eq!(out.ret, LuaType::String);
}

#[test]
fn test_instantiate_func_generic_unresolved_arg_template_is_kept() {
    let db = DbIndex::new();
    let info = Arc::new(arg_info(1, "N."));
    let f = doc_fn(vec![("a", Some(LuaType::Any))], LuaType::ArgNameInfer(info.clone()));
    let c = call(name("g", 1), vec![literal(LuaLiteralToken::String("Foo".to_string()))], None);
    let r = instantiate_func_generic(&db, &no_modules(), file0(), &f, &c).unwrap();
    assert_eq!(r.ret, LuaType::ArgNameInfer(info));
}

#[test]
fn test_instantiate_type_replaces_templates_inside_union() {
    let mut s = emmylua_members::substitutor::TypeSubstitutor::new();
    s.insert_type(GenericTplId::Func(0), LuaType::String, true);
    let u = LuaType::Union(Arc::new(emmylua_members::types::LuaUnionType::More(
        func_tpl(0),
        Arc::new(emmylua_members::types::LuaUnionType::Last(LuaType::Nil)),
    )));
    let r = emmylua_members::substitutor::instantiate_type(&s, &u);
    match r {
        LuaType::Union(v) => match &*v {
            emmylua_members::types::LuaUnionType::More(a, rest) => {
                assert_eq!(*a, LuaType::String);
                assert!(matches!(&**rest, emmylua_members::types::LuaUnionType::Last(LuaType::Nil)));
            },
            _ => panic!("expected a union of two types"),
        },
        _ => panic!("expected a union"),
    }
}

#[test]
fn test_explicit_generic_types_decide_whatever_the_arguments() {
    let db = DbIndex::new();
    let modules: Vec<FileReturn> = Vec::new();
    let func = doc_fn(vec![("a", Some(func_tpl(0)))], func_tpl(0));
    let call = |arg: LuaExpr| LuaCallExpr {
        prefix: Box::new(LuaExpr::NameExpr(LuaNameExpr { name: "f".to_string(), position: 0 })),
        args: vec![arg],
        generic_types: Some(vec![LuaDocTypeRef { name: "string".to_string(), optional: false }]),
        position: 0,
    };
    let int_arg = LuaExpr::LiteralExpr(LuaLiteralExpr { literal: LuaLiteralToken::Integer(1), position: 2 });
    let nil_arg = LuaExpr::LiteralExpr(LuaLiteralExpr { literal: LuaLiteralToken::Nil, position: 2 });
    let g1 = instantiate_func_generic(&db, &modules, file0(), &func, &call(int_arg)).unwrap();
    let g2 = instantiate_func_generic(&db, &modules, file0(), &func, &call(nil_arg)).unwrap();
    assert_eq!(g1.ret, LuaType::String);
    assert_eq!(g2.ret, LuaType::String);
}
