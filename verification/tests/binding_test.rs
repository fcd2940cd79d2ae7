use emmylua_members::common::{
    add_member, bind_type, get_owner_id, merge_def_type, merge_def_type_with_table,
    prefix_is_doc_annotated_global,
};
use emmylua_members::db::{DbIndex, LuaDecl, LuaDeclKind, LuaMember};
use emmylua_members::ids::{
    FileId, GlobalId, InFiled, LuaDeclId, LuaMemberId, LuaMemberOwner, LuaTypeDeclId, LuaTypeOwner,
    TextRange,
};
use emmylua_members::migrate::migrate_global_members_when_type_resolve;
use emmylua_members::syntax::{LuaExpr, LuaLiteralExpr, LuaLiteralToken, LuaNameExpr};
use emmylua_members::types::{LuaInstanceType, LuaType, LuaTypeCache};
use std::sync::Arc;

fn file(n: u32) -> FileId {
    FileId { id: n }
}

fn decl(f: u32, pos: u32) -> LuaDeclId {
    LuaDeclId { file_id: file(f), position: pos }
}

fn member(f: u32, pos: u32) -> LuaMemberId {
    LuaMemberId { file_id: file(f), position: pos }
}

fn range(f: u32, start: u32, end: u32) -> InFiled<TextRange> {
    InFiled::new(file(f), TextRange { start, end })
}

fn class(name: &str) -> LuaType {
    LuaType::Ref(LuaTypeDeclId::global(name))
}

fn class_owner(name: &str) -> LuaMemberOwner {
    LuaMemberOwner::Type(LuaTypeDeclId::global(name))
}

fn add_global(db: &mut DbIndex, name: &str, id: LuaDeclId) {
    db.decl_index.add_decl(LuaDecl {
        id,
        name: name.to_string(),
        kind: LuaDeclKind::Global,
        scope_end: u32::MAX,
    });
    db.global_index.add_global_decl(name, id);
}

fn add_local(db: &mut DbIndex, name: &str, id: LuaDeclId, scope_end: u32) {
    db.decl_index.add_decl(LuaDecl {
        id,
        name: name.to_string(),
        kind: LuaDeclKind::Local,
        scope_end,
    });
}

/// A member `key` recorded under the global path `path`.
fn add_path_member(db: &mut DbIndex, path: &str, key: &str, id: LuaMemberId) {
    db.member_index.add_member(LuaMember {
        id,
        key: key.to_string(),
        global_id: Some(GlobalId::new(&format!("{}.{}", path, key))),
    });
    add_member(db, LuaMemberOwner::GlobalPath(GlobalId::new(path)), id);
}

/// A member `key` of the table literal at `table`.
fn add_table_member(db: &mut DbIndex, table: InFiled<TextRange>, key: &str, id: LuaMemberId) {
    db.member_index.add_member(LuaMember { id, key: key.to_string(), global_id: None });
    add_member(db, LuaMemberOwner::Element(table), id);
}

fn members_of(db: &DbIndex, owner: &LuaMemberOwner) -> Vec<LuaMemberId> {
    match db.get_member_index().get_members(owner) {
        Some(ids) => ids.clone(),
        None => Vec::new(),
    }
}

fn bound(db: &DbIndex, owner: LuaTypeOwner) -> Option<LuaTypeCache> {
    db.get_type_index().get_type_cache(&owner).cloned()
}

#[test]
fn test_bind_type_keeps_first_type() {
    let mut db = DbIndex::new();
    let d = decl(0, 1);
    add_global(&mut db, "X", d);
    let owner = LuaTypeOwner::Decl(d);
    assert_eq!(bind_type(&mut db, owner, LuaTypeCache::DocType(class("X"))), Some(()));
    assert_eq!(bind_type(&mut db, owner, LuaTypeCache::InferType(LuaType::Integer)), Some(()));
    assert_eq!(bound(&db, owner), Some(LuaTypeCache::DocType(class("X"))));
}

#[test]
fn test_bind_type_widens_literals_of_reassigned_local() {
    let cases = vec![
        (LuaType::IntegerConst(1), LuaType::Integer),
        (LuaType::StringConst("a".to_string()), LuaType::String),
        (LuaType::BooleanConst(true), LuaType::Boolean),
        (LuaType::FloatConst(0x3ff8_0000_0000_0000), LuaType::Number),
    ];
    for (i, (literal, base)) in cases.into_iter().enumerate() {
        let mut db = DbIndex::new();
        let d = decl(0, i as u32);
        add_local(&mut db, "a", d, 100);
        db.reference_index.add_decl_reference(d, true);
        bind_type(&mut db, LuaTypeOwner::Decl(d), LuaTypeCache::InferType(literal));
        assert_eq!(bound(&db, LuaTypeOwner::Decl(d)), Some(LuaTypeCache::InferType(base)));
    }
}

#[test]
fn test_bind_type_keeps_literal_of_local_never_reassigned() {
    let mut db = DbIndex::new();
    let d = decl(0, 1);
    add_local(&mut db, "a", d, 100);
    db.reference_index.add_decl_reference(d, false);
    bind_type(&mut db, LuaTypeOwner::Decl(d), LuaTypeCache::InferType(LuaType::IntegerConst(7)));
    assert_eq!(
        bound(&db, LuaTypeOwner::Decl(d)),
        Some(LuaTypeCache::InferType(LuaType::IntegerConst(7)))
    );
}

#[test]
fn test_bind_type_keeps_doc_literal_of_reassigned_local() {
    let mut db = DbIndex::new();
    let d = decl(0, 1);
    add_local(&mut db, "a", d, 100);
    db.reference_index.add_decl_reference(d, true);
    bind_type(&mut db, LuaTypeOwner::Decl(d), LuaTypeCache::DocType(LuaType::IntegerConst(7)));
    assert_eq!(
        bound(&db, LuaTypeOwner::Decl(d)),
        Some(LuaTypeCache::DocType(LuaType::IntegerConst(7)))
    );
}

#[test]
fn test_bind_type_does_not_widen_member_types() {
    let mut db = DbIndex::new();
    let m = member(0, 4);
    let owner = LuaTypeOwner::Member(m);
    bind_type(&mut db, owner, LuaTypeCache::InferType(LuaType::StringConst("s".to_string())));
    assert_eq!(
        bound(&db, owner),
        Some(LuaTypeCache::InferType(LuaType::StringConst("s".to_string())))
    );
}

#[test]
fn test_add_member_is_idempotent() {
    let mut db = DbIndex::new();
    let t = range(0, 10, 20);
    let m = member(0, 12);
    add_table_member(&mut db, t, "a", m);
    assert_eq!(add_member(&mut db, class_owner("C"), m), Some(()));
    let once = members_of(&db, &class_owner("C"));
    assert_eq!(add_member(&mut db, class_owner("C"), m), Some(()));
    let twice = members_of(&db, &class_owner("C"));
    assert_eq!(once, vec![m]);
    assert_eq!(twice, vec![m]);
}

#[test]
fn test_add_member_sets_current_owner() {
    let mut db = DbIndex::new();
    let t = range(0, 10, 20);
    let m = member(0, 12);
    add_table_member(&mut db, t, "a", m);
    assert_eq!(db.get_member_index().get_current_owner(&m), Some(&LuaMemberOwner::Element(t)));
    add_member(&mut db, class_owner("C"), m);
    assert_eq!(db.get_member_index().get_current_owner(&m), Some(&class_owner("C")));
    // The table keeps listing it.
    assert_eq!(members_of(&db, &LuaMemberOwner::Element(t)), vec![m]);
}

#[test]
fn test_add_member_of_unknown_member_lists_nothing() {
    let mut db = DbIndex::new();
    let m = member(0, 12);
    add_member(&mut db, class_owner("C"), m);
    assert_eq!(members_of(&db, &class_owner("C")), Vec::<LuaMemberId>::new());
    assert_eq!(db.get_member_index().get_current_owner(&m), Some(&class_owner("C")));
}

#[test]
fn test_merge_def_type_with_table_adds_each_member() {
    let mut db = DbIndex::new();
    let t = range(0, 10, 40);
    let m1 = member(0, 12);
    let m2 = member(0, 20);
    add_table_member(&mut db, t, "a", m1);
    add_table_member(&mut db, t, "b", m2);
    let r = merge_def_type_with_table(&mut db, LuaTypeDeclId::global("C"), t);
    assert_eq!(r, Some(()));
    assert_eq!(members_of(&db, &class_owner("C")), vec![m1, m2]);
}

#[test]
fn test_merge_def_type_with_table_without_members() {
    let mut db = DbIndex::new();
    let r = merge_def_type_with_table(&mut db, LuaTypeDeclId::global("C"), range(0, 1, 2));
    assert_eq!(r, None);
    assert_eq!(members_of(&db, &class_owner("C")), Vec::<LuaMemberId>::new());
}

#[test]
fn test_second_bind_merges_table_into_declared_class() {
    let mut db = DbIndex::new();
    let d = decl(0, 1);
    add_local(&mut db, "obj", d, 100);
    let t = range(0, 10, 40);
    let m = member(0, 12);
    add_table_member(&mut db, t, "a", m);
    let owner = LuaTypeOwner::Decl(d);
    bind_type(&mut db, owner, LuaTypeCache::DocType(LuaType::Def(LuaTypeDeclId::global("C"))));
    bind_type(&mut db, owner, LuaTypeCache::InferType(LuaType::TableConst(t)));
    assert_eq!(members_of(&db, &class_owner("C")), vec![m]);
    assert_eq!(
        bound(&db, owner),
        Some(LuaTypeCache::DocType(LuaType::Def(LuaTypeDeclId::global("C"))))
    );
}

#[test]
fn test_merge_of_instance_changes_nothing() {
    let mut db = DbIndex::new();
    let t = range(0, 10, 40);
    let m = member(0, 12);
    add_table_member(&mut db, t, "a", m);
    let inst = LuaType::Instance(Arc::new(LuaInstanceType {
        base: LuaType::Def(LuaTypeDeclId::global("C")),
        range: t,
    }));
    merge_def_type(&mut db, LuaType::Def(LuaTypeDeclId::global("C")), inst, 0);
    assert_eq!(db.get_member_index().get_members(&class_owner("C")), None);
    assert_eq!(members_of(&db, &LuaMemberOwner::Element(t)), vec![m]);
}

#[test]
fn test_merge_def_type_only_for_def() {
    let mut db = DbIndex::new();
    let t = range(0, 10, 40);
    let m = member(0, 12);
    add_table_member(&mut db, t, "a", m);
    merge_def_type(&mut db, class("C"), LuaType::TableConst(t), 0);
    assert_eq!(db.get_member_index().get_members(&class_owner("C")), None);
    merge_def_type(&mut db, LuaType::Def(LuaTypeDeclId::global("C")), LuaType::TableConst(t), 2);
    assert_eq!(db.get_member_index().get_members(&class_owner("C")), None);
    merge_def_type(&mut db, LuaType::Def(LuaTypeDeclId::global("C")), LuaType::TableConst(t), 1);
    assert_eq!(members_of(&db, &class_owner("C")), vec![m]);
}

#[test]
fn test_get_owner_id_of_each_kind_of_type() {
    let mut db = DbIndex::new();
    let t = range(0, 10, 40);
    let a = LuaTypeOwner::Decl(decl(0, 1));
    let b = LuaTypeOwner::Decl(decl(0, 2));
    let c = LuaTypeOwner::Decl(decl(0, 3));
    let d = LuaTypeOwner::Decl(decl(0, 4));
    let e = LuaTypeOwner::Decl(decl(0, 5));
    db.type_index.bind_type(a, LuaTypeCache::DocType(class("C")));
    db.type_index.bind_type(b, LuaTypeCache::InferType(LuaType::TableConst(t)));
    db.type_index.bind_type(
        c,
        LuaTypeCache::InferType(LuaType::Instance(Arc::new(LuaInstanceType {
            base: class("C"),
            range: range(1, 5, 9),
        }))),
    );
    db.type_index.bind_type(d, LuaTypeCache::InferType(LuaType::Integer));
    assert_eq!(get_owner_id(&db, &a), Some(class_owner("C")));
    assert_eq!(get_owner_id(&db, &b), Some(LuaMemberOwner::Element(t)));
    assert_eq!(get_owner_id(&db, &c), Some(LuaMemberOwner::Element(range(1, 5, 9))));
    assert_eq!(get_owner_id(&db, &d), None);
    assert_eq!(get_owner_id(&db, &e), None);
}

fn name_expr(name: &str, position: u32) -> LuaExpr {
    LuaExpr::NameExpr(LuaNameExpr { name: name.to_string(), position })
}

#[test]
fn test_prefix_is_doc_annotated_global_cases() {
    let mut db = DbIndex::new();
    let g_doc = decl(0, 1);
    let g_infer = decl(0, 2);
    let g_other_file = decl(1, 3);
    add_global(&mut db, "XX", g_doc);
    add_global(&mut db, "YY", g_infer);
    add_global(&mut db, "ZZ", g_other_file);
    db.type_index.bind_type(LuaTypeOwner::Decl(g_doc), LuaTypeCache::DocType(class("XX")));
    db.type_index.bind_type(
        LuaTypeOwner::Decl(g_infer),
        LuaTypeCache::InferType(LuaType::TableConst(range(0, 5, 6))),
    );
    db.type_index.bind_type(LuaTypeOwner::Decl(g_other_file), LuaTypeCache::DocType(class("ZZ")));

    assert!(prefix_is_doc_annotated_global(&db, file(0), &name_expr("XX", 50)));
    assert!(!prefix_is_doc_annotated_global(&db, file(0), &name_expr("YY", 50)));
    // Annotated in another file only.
    assert!(!prefix_is_doc_annotated_global(&db, file(0), &name_expr("ZZ", 50)));
    assert!(prefix_is_doc_annotated_global(&db, file(1), &name_expr("ZZ", 50)));
    // Not a global at all.
    assert!(!prefix_is_doc_annotated_global(&db, file(0), &name_expr("WW", 50)));
    // Not a name.
    let literal = LuaExpr::LiteralExpr(LuaLiteralExpr { literal: LuaLiteralToken::Nil, position: 50 });
    assert!(!prefix_is_doc_annotated_global(&db, file(0), &literal));

    // A local of the same name shadows the global where it is visible.
    add_local(&mut db, "XX", decl(0, 40), 60);
    assert!(!prefix_is_doc_annotated_global(&db, file(0), &name_expr("XX", 50)));
    assert!(prefix_is_doc_annotated_global(&db, file(0), &name_expr("XX", 70)));
}

#[test]
fn test_global_path_members_move_to_class_in_either_order() {
    for class_first in [true, false] {
        let mut db = DbIndex::new();
        let d_class = decl(1, 1);
        let d_table = decl(2, 1);
        add_global(&mut db, "XX", d_class);
        add_global(&mut db, "XX", d_table);
        let m = member(2, 20);
        add_path_member(&mut db, "XX", "A1", m);
        let table = range(2, 5, 7);
        let class_cache = LuaTypeCache::DocType(class("XX"));
        let table_cache = LuaTypeCache::InferType(LuaType::TableConst(table));
        if class_first {
            bind_type(&mut db, LuaTypeOwner::Decl(d_class), class_cache);
            bind_type(&mut db, LuaTypeOwner::Decl(d_table), table_cache);
        } else {
            bind_type(&mut db, LuaTypeOwner::Decl(d_table), table_cache);
            bind_type(&mut db, LuaTypeOwner::Decl(d_class), class_cache);
        }
        assert!(members_of(&db, &class_owner("XX")).contains(&m));
        assert!(members_of(&db, &LuaMemberOwner::Element(table)).contains(&m));
    }
}

#[test]
fn test_table_members_of_other_declaration_move_to_class() {
    let mut db = DbIndex::new();
    let d_table = decl(1, 1);
    let d_class = decl(2, 1);
    add_global(&mut db, "XX", d_table);
    add_global(&mut db, "XX", d_class);
    let table = range(1, 5, 30);
    let m = member(1, 10);
    add_table_member(&mut db, table, "B", m);
    bind_type(&mut db, LuaTypeOwner::Decl(d_table), LuaTypeCache::InferType(LuaType::TableConst(table)));
    assert_eq!(db.get_member_index().get_members(&class_owner("XX")), None);
    bind_type(&mut db, LuaTypeOwner::Decl(d_class), LuaTypeCache::DocType(class("XX")));
    assert_eq!(members_of(&db, &class_owner("XX")), vec![m]);
}

#[test]
fn test_migrate_skips_local_declarations() {
    let mut db = DbIndex::new();
    let d = decl(0, 1);
    add_local(&mut db, "XX", d, 100);
    let m = member(0, 20);
    add_path_member(&mut db, "XX", "A", m);
    db.type_index.bind_type(LuaTypeOwner::Decl(d), LuaTypeCache::DocType(class("XX")));
    assert_eq!(migrate_global_members_when_type_resolve(&mut db, LuaTypeOwner::Decl(d)), Some(()));
    assert_eq!(db.get_member_index().get_members(&class_owner("XX")), None);
}

#[test]
fn test_migrate_to_member_with_global_path() {
    let mut db = DbIndex::new();
    // The member `G.sub`, itself recorded under the path `G`.
    let sub = member(0, 3);
    add_path_member(&mut db, "G", "sub", sub);
    // A member recorded under the path `G.sub`.
    let leaf = member(0, 9);
    add_path_member(&mut db, "G.sub", "leaf", leaf);
    let table = range(0, 20, 30);
    db.type_index.bind_type(LuaTypeOwner::Member(sub), LuaTypeCache::InferType(LuaType::TableConst(table)));
    assert_eq!(migrate_global_members_when_type_resolve(&mut db, LuaTypeOwner::Member(sub)), Some(()));
    assert_eq!(members_of(&db, &LuaMemberOwner::Element(table)), vec![leaf]);
    assert_eq!(db.get_member_index().get_current_owner(&leaf), Some(&LuaMemberOwner::Element(table)));
}

#[test]
fn test_migrate_of_syntax_owner_changes_nothing() {
    let mut db = DbIndex::new();
    let m = member(0, 9);
    add_path_member(&mut db, "G", "leaf", m);
    let owner = LuaTypeOwner::SyntaxId(range(0, 1, 2));
    db.type_index.bind_type(owner, LuaTypeCache::DocType(class("G")));
    assert_eq!(migrate_global_members_when_type_resolve(&mut db, owner), Some(()));
    assert_eq!(db.get_member_index().get_members(&class_owner("G")), None);
}

#[test]
fn test_bind_then_owner_stays_with_first_type() {
    let mut db = DbIndex::new();
    let d = decl(0, 1);
    add_local(&mut db, "t", d, 100);
    let owner = LuaTypeOwner::Decl(d);
    let t = range(0, 5, 9);
    bind_type(&mut db, owner, LuaTypeCache::InferType(LuaType::TableConst(t)));
    assert_eq!(get_owner_id(&db, &owner), Some(LuaMemberOwner::Element(t)));
    bind_type(&mut db, owner, LuaTypeCache::DocType(class("C")));
    assert_eq!(get_owner_id(&db, &owner), Some(LuaMemberOwner::Element(t)));
}

#[test]
fn test_prefix_is_doc_annotated_global_when_a_later_declaration_is_doc_typed() {
    let mut db = DbIndex::new();
    let first = decl(0, 1);
    let second = decl(0, 9);
    add_global(&mut db, "XX", first);
    add_global(&mut db, "XX", second);
    db.type_index.bind_type(
        LuaTypeOwner::Decl(first),
        LuaTypeCache::InferType(LuaType::TableConst(range(0, 5, 6))),
    );
    db.type_index.bind_type(LuaTypeOwner::Decl(second), LuaTypeCache::DocType(class("XX")));
    assert!(prefix_is_doc_annotated_global(&db, file(0), &name_expr("XX", 50)));
    // Only the file that holds the doc-typed declaration counts.
    assert!(!prefix_is_doc_annotated_global(&db, file(1), &name_expr("XX", 50)));
}
