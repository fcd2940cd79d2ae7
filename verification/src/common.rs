use vstd::prelude::*;
use crate::db::{add_to_owner_state, is_nearest_decl, set_owner_state, DbIndex, DbState, MemberState};
use crate::syntax::LuaExpr;
use crate::ids::{FileId, InFiled, LuaDeclId, LuaMemberId, LuaMemberOwner, LuaTypeDeclId, LuaTypeOwner, TextRange};
use crate::migrate::{migrate_global_members_when_type_resolve, migrate_state};
use crate::types::{LuaType, LuaTypeCache};

verus! {

/// The database with its member part replaced.
pub open spec fn with_members(s: DbState, m: MemberState) -> DbState {
    DbState { member: m, ..s }
}

/// The database with a type bound to one more owner.
pub open spec fn with_type(s: DbState, owner: LuaTypeOwner, cache: LuaTypeCache) -> DbState {
    DbState { types: s.types.insert(owner, cache), ..s }
}

/// `add_member`: `member_id` is owned by `owner` and listed under it.
pub open spec fn add_member_state(s: DbState, owner: LuaMemberOwner, member_id: LuaMemberId) -> DbState {
    with_members(
        s,
        add_to_owner_state(
            set_owner_state(s.member, owner, member_id.file_id, member_id),
            owner,
            member_id,
        ),
    )
}

/// `add_member` of each of `ids` in turn, to the same owner.
pub open spec fn add_members_state(s: DbState, owner: LuaMemberOwner, ids: Seq<LuaMemberId>) -> DbState
    decreases ids.len(),
{
    if ids.len() == 0 {
        s
    } else {
        add_member_state(add_members_state(s, owner, ids.drop_last()), owner, ids.last())
    }
}

/// The owner whose members a value of type `t` has, if `t` has one: the
/// class of a reference, or the table a literal or an instance is built from.
pub open spec fn owner_of_type(t: LuaType) -> Option<LuaMemberOwner> {
    match t {
        LuaType::Ref(id) => Some(LuaMemberOwner::Type(id)),
        LuaType::TableConst(range) => Some(LuaMemberOwner::Element(range)),
        LuaType::Instance(inst) => Some(LuaMemberOwner::Element(inst.range)),
        _ => None,
    }
}

/// The member owner that the type bound to `owner` resolves to.
pub open spec fn owner_id_spec(s: DbState, owner: LuaTypeOwner) -> Option<LuaMemberOwner> {
    if s.types.contains_key(owner) {
        owner_of_type(s.types[owner].spec_as_type())
    } else {
        None
    }
}

/// The literal types that an inferred type of a reassigned declaration is
/// widened from, and what each widens to.
pub open spec fn widen_literal(t: LuaType) -> Option<LuaType> {
    match t {
        LuaType::IntegerConst(_) => Some(LuaType::Integer),
        LuaType::StringConst(_) => Some(LuaType::String),
        LuaType::BooleanConst(_) => Some(LuaType::Boolean),
        LuaType::FloatConst(_) => Some(LuaType::Number),
        _ => None,
    }
}

/// The type that `bind_type` binds: an inferred literal type of a declaration
/// that is assigned again later is widened to its base type (`1` to
/// `integer`); any other type is bound as it is.
pub open spec fn widened_cache(s: DbState, owner: LuaTypeOwner, cache: LuaTypeCache) -> LuaTypeCache {
    match owner {
        LuaTypeOwner::Decl(d) => {
            if cache.spec_is_infer() && s.refs.contains_key(d) && s.refs[d].mutable
                && widen_literal(cache.spec_as_type()) is Some {
                LuaTypeCache::InferType(widen_literal(cache.spec_as_type())->0)
            } else {
                cache
            }
        },
        _ => cache,
    }
}

/// `merge_def_type_with_table`: every member of the table literal at `range`
/// is added to the class `def_id`.
pub open spec fn merge_table_state(s: DbState, def_id: LuaTypeDeclId, range: InFiled<TextRange>) -> DbState {
    let key = LuaMemberOwner::Element(range)@;
    if s.member.owner_members.contains_key(key) {
        add_members_state(s, LuaMemberOwner::Type(def_id), s.member.owner_members[key])
    } else {
        s
    }
}

/// `merge_def_type`: what merging `expr_type` into the declared `decl_type`
/// does at depth `level`.
pub open spec fn merge_def_state(s: DbState, decl_type: LuaType, expr_type: LuaType, level: int) -> DbState
    decreases 2 - level,
{
    if level > 1 {
        s
    } else {
        match decl_type {
            LuaType::Def(def) => match expr_type {
                LuaType::TableConst(range) => merge_table_state(s, def, range),
                LuaType::Instance(inst) => merge_def_state(s, inst.base, expr_type, level + 1),
                _ => s,
            },
            _ => s,
        }
    }
}

/// `bind_type`: a first type for `owner` is bound (widened where
/// `widened_cache` says) and the members waiting under its global path are
/// moved; a later one is only merged into the declared class.
pub open spec fn bind_state(s: DbState, owner: LuaTypeOwner, cache: LuaTypeCache) -> DbState {
    if !s.types.contains_key(owner) {
        migrate_state(with_type(s, owner, widened_cache(s, owner, cache)), owner)
    } else {
        merge_def_state(s, s.types[owner].spec_as_type(), cache.spec_as_type(), 0)
    }
}

/// Binds `type_cache` to `type_owner`.
///
/// When the owner has no type yet, the type is bound, with an inferred
/// literal type of a declaration that is assigned again widened to its base
/// type, and the members recorded under the owner's global path are moved to
/// the owner the new type resolves to. When it has one already, that type is
/// kept, and the members of a table literal are added to the class it
/// declares.
pub fn bind_type(db: &mut DbIndex, type_owner: LuaTypeOwner, type_cache: LuaTypeCache) -> (r: Option<()>)
    requires
        old(db).wf(),
    ensures
        final(db).wf(),
        r == Some(()),
        final(db)@ == bind_state(old(db)@, type_owner, type_cache),
{
    let ghost given = type_cache;
    let mut type_cache = type_cache;
    let decl_type_cache = db.get_type_index().get_type_cache(&type_owner);

    if decl_type_cache.is_none() {
        // type backward
        if type_cache.is_infer() {
            if let LuaTypeOwner::Decl(decl_id) = &type_owner {
                if let Some(decl_ref) = db.get_reference_index().get_decl_references(
                    &decl_id.file_id,
                    decl_id,
                ) {
                    if decl_ref.mutable {
                        match type_cache.as_type() {
                            LuaType::IntegerConst(_) => type_cache = LuaTypeCache::InferType(
                                LuaType::Integer,
                            ),
                            LuaType::StringConst(_) => type_cache = LuaTypeCache::InferType(
                                LuaType::String,
                            ),
                            LuaType::BooleanConst(_) => type_cache = LuaTypeCache::InferType(
                                LuaType::Boolean,
                            ),
                            LuaType::FloatConst(_) => type_cache = LuaTypeCache::InferType(
                                LuaType::Number,
                            ),
                            _ => {},
                        }
                    }
                }
            }
        }
        let ghost bound = type_cache;
        assert(bound == widened_cache(old(db)@, type_owner, given));
        db.type_index.bind_type(type_owner, type_cache);
        assert(db@ == with_type(old(db)@, type_owner, bound));
        migrate_global_members_when_type_resolve(db, type_owner);
    } else {
        let decl_type = decl_type_cache.unwrap().as_type().clone();
        let expr_type = type_cache.as_type().clone();
        merge_def_type(db, decl_type, expr_type, 0);
    }

    Some(())
}

/// Merges the members of a table literal `expr_type` into the class that
/// `decl_type` declares. An instance is followed one level down to its base
/// type, with the same expression type.
pub fn merge_def_type(db: &mut DbIndex, decl_type: LuaType, expr_type: LuaType, merge_level: i32)
    requires
        old(db).wf(),
    ensures
        final(db).wf(),
        final(db)@ == merge_def_state(old(db)@, decl_type, expr_type, merge_level as int),
    decreases 2 - merge_level,
{
    if merge_level > 1 {
        return;
    }

    if let LuaType::Def(def) = &decl_type {
        match &expr_type {
            LuaType::TableConst(in_filed_range) => {
                merge_def_type_with_table(db, def.clone(), *in_filed_range);
            },
            LuaType::Instance(instance) => {
                let base_ref = instance.get_base().clone();
                merge_def_type(db, base_ref, expr_type, merge_level + 1);
            },
            _ => {},
        }
    }
}

/// Adds every member of the table literal at `table_range` to the class
/// `def_id`; `None`, with nothing changed, when the literal has no members
/// listed.
pub fn merge_def_type_with_table(
    db: &mut DbIndex,
    def_id: LuaTypeDeclId,
    table_range: InFiled<TextRange>,
) -> (r: Option<()>)
    requires
        old(db).wf(),
    ensures
        final(db).wf(),
        r is Some <==> old(db)@.member.owner_members.contains_key(
            LuaMemberOwner::Element(table_range)@,
        ),
        final(db)@ == merge_table_state(old(db)@, def_id, table_range),
{
    let expr_member_owner = LuaMemberOwner::Element(table_range);
    let expr_member_ids = copy_member_ids(db.get_member_index().get_members(&expr_member_owner)?);
    let def_owner = LuaMemberOwner::Type(def_id);
    add_members(db, &def_owner, &expr_member_ids);
    Some(())
}

/// A copy of a list of member ids.
pub fn copy_member_ids(ids: &Vec<LuaMemberId>) -> (r: Vec<LuaMemberId>)
    ensures
        r@ == ids@,
{
    let mut r: Vec<LuaMemberId> = Vec::new();
    let mut i: usize = 0;
    while i < ids.len()
        invariant
            i <= ids@.len(),
            r@ == ids@.subrange(0, i as int),
        decreases ids@.len() - i,
    {
        r.push(ids[i]);
        assert(r@ =~= ids@.subrange(0, i + 1));
        i = i + 1;
    }
    assert(r@ =~= ids@);
    r
}

/// `add_member` of each of `ids`, in order, to `owner`.
pub fn add_members(db: &mut DbIndex, owner: &LuaMemberOwner, ids: &Vec<LuaMemberId>)
    requires
        old(db).wf(),
    ensures
        final(db).wf(),
        final(db)@ == add_members_state(old(db)@, *owner, ids@),
{
    let mut i: usize = 0;
    while i < ids.len()
        invariant
            db.wf(),
            i <= ids@.len(),
            db@ == add_members_state(old(db)@, *owner, ids@.subrange(0, i as int)),
        decreases ids@.len() - i,
    {
        add_member(db, owner.clone(), ids[i]);
        proof {
            let p = ids@.subrange(0, i + 1);
            assert(p.drop_last() =~= ids@.subrange(0, i as int));
            assert(p.last() == ids@[i as int]);
        }
        i = i + 1;
    }
    assert(ids@.subrange(0, ids@.len() as int) =~= ids@);
}

/// Makes `owner` the owner of `member_id` and lists the member under it.
pub fn add_member(db: &mut DbIndex, owner: LuaMemberOwner, member_id: LuaMemberId) -> (r: Option<()>)
    requires
        old(db).wf(),
    ensures
        final(db).wf(),
        r == Some(()),
        final(db)@ == add_member_state(old(db)@, owner, member_id),
{
    db.member_index.set_member_owner(owner.clone(), member_id.file_id, member_id);
    db.member_index.add_member_to_owner(owner, member_id);
    Some(())
}

/// The member owner that the type bound to `type_owner` resolves to: the
/// class of a `Ref`, or the table of a table literal or of an instance.
pub fn get_owner_id(db: &DbIndex, type_owner: &LuaTypeOwner) -> (r: Option<LuaMemberOwner>)
    requires
        db.wf(),
    ensures
        r == owner_id_spec(db@, *type_owner),
{
    let type_cache = db.get_type_index().get_type_cache(type_owner)?;
    match type_cache.as_type() {
        LuaType::Ref(type_id) => Some(LuaMemberOwner::Type(type_id.clone())),
        LuaType::TableConst(id) => Some(LuaMemberOwner::Element(*id)),
        LuaType::Instance(inst) => Some(LuaMemberOwner::Element(*inst.get_range())),
        _ => None,
    }
}


/// Some declaration in `ids` lies in `file` and has a doc type bound to it.
pub open spec fn doc_typed_in_file(s: DbState, file: FileId, ids: Seq<LuaDeclId>) -> bool {
    exists|k: int| 0 <= k < ids.len() && #[trigger] doc_typed_decl(s, file, ids[k])
}

/// `id` lies in `file` and its bound type is a doc type.
pub open spec fn doc_typed_decl(s: DbState, file: FileId, id: LuaDeclId) -> bool {
    &&& id.file_id == file
    &&& s.types.contains_key(LuaTypeOwner::Decl(id))
    &&& s.types[LuaTypeOwner::Decl(id)].spec_is_doc()
}

/// The innermost declaration of `name` visible at `pos` in `file` is a local
/// or the implicit `self`.
pub open spec fn locally_shadowed(s: DbState, file: FileId, name: Seq<char>, pos: u32) -> bool {
    exists|id: LuaDeclId|
        #[trigger] is_nearest_decl(s.decls, id, file, name, pos) && (s.decls[id].spec_is_local()
            || s.decls[id].spec_is_implicit_self())
}

/// `prefix_expr` is a name, not shadowed by a local, of a global with a
/// declaration in `file` that carries a doc type.
pub open spec fn prefix_is_doc_annotated_global_spec(s: DbState, file: FileId, prefix_expr: LuaExpr) -> bool {
    match prefix_expr {
        LuaExpr::NameExpr(n) => {
            &&& !locally_shadowed(s, file, n.name@, n.position)
            &&& s.globals.contains_key(n.name@)
            &&& doc_typed_in_file(s, file, s.globals[n.name@])
        },
        _ => false,
    }
}

/// Returns `true` when `prefix_expr` is a global variable whose type was
/// explicitly annotated with a doc comment (`---@type X`, etc.), and the
/// annotation is declared in the same file (`file_id`) as the call site.
///
/// Only same-file assignments are treated as class-extension definitions
/// (e.g. `---@type XX; XX = {}; XX.A1 = 1` in a single file). Assignments
/// from other files are treated as usage and do not extend the class.
pub fn prefix_is_doc_annotated_global(db: &DbIndex, file_id: FileId, prefix_expr: &LuaExpr) -> (r: bool)
    requires
        db.wf(),
    ensures
        r == prefix_is_doc_annotated_global_spec(db@, file_id, *prefix_expr),
{
    let name_expr = match prefix_expr {
        LuaExpr::NameExpr(name_expr) => name_expr,
        _ => return false,
    };
    let name = match name_expr.get_name_text() {
        Some(n) => n,
        None => return false,
    };
    // A locally shadowed name does not refer to the global.
    let found = db.get_decl_index().find_local_decl(file_id, name.as_str(), name_expr.get_position());
    let is_shadowed = match found {
        Some(decl) => decl.is_local() || decl.is_implicit_self(),
        None => false,
    };
    proof {
        let s = db@;
        let pos = name_expr.position;
        match found {
            Some(d) => {
                if is_shadowed {
                    assert(is_nearest_decl(s.decls, d.id, file_id, name@, pos));
                } else {
                    assert forall|id: LuaDeclId|
                        #[trigger] is_nearest_decl(s.decls, id, file_id, name@, pos) implies !(
                        s.decls[id].spec_is_local() || s.decls[id].spec_is_implicit_self()) by {
                        assert(s.decls[id].id == id);
                        assert(s.decls[d.id].id == d.id);
                        assert(s.decls[id].id.position <= s.decls[d.id].id.position);
                        assert(s.decls[d.id].id.position <= s.decls[id].id.position);
                        assert(id == d.id);
                    }
                }
            },
            None => {},
        }
    }
    if is_shadowed {
        return false;
    }
    // Check whether a global decl for this name in the CURRENT file has a
    // doc-type annotation. Cross-file assignments are considered usage, not
    // class definition.
    if let Some(decl_ids) = db.get_global_index().get_global_decl_ids(&name) {
        let mut i: usize = 0;
        while i < decl_ids.len()
            invariant
                db.wf(),
                *prefix_expr == LuaExpr::NameExpr(*name_expr),
                name@ == name_expr.name@,
                !locally_shadowed(db@, file_id, name@, name_expr.position),
                db@.globals.contains_key(name@),
                decl_ids@ == db@.globals[name@],
                i <= decl_ids@.len(),
                forall|k: int| 0 <= k < i ==> !#[trigger] doc_typed_decl(db@, file_id, decl_ids@[k]),
            decreases decl_ids@.len() - i,
        {
            let decl_id = decl_ids[i];
            if decl_id.file_id == file_id {
                if let Some(type_cache) = db.get_type_index().get_type_cache(&LuaTypeOwner::from_decl(decl_id)) {
                    if type_cache.is_doc() {
                        assert(doc_typed_decl(db@, file_id, decl_ids@[i as int]));
                        return true;
                    }
                }
            }
            i = i + 1;
        }
    }
    false
}

} // verus!
