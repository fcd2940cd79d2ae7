use vstd::prelude::*;
use crate::common::{
    add_member_state, add_members_state, bind_state, merge_def_state, merge_table_state, owner_id_spec,
    owner_of_type, widened_cache, with_type,
};
use crate::db::{add_to_owner_state, lists_known, owner_list, set_owner_state, DbState, MemberState};
use crate::ids::{InFiled, LuaDeclId, LuaMemberId, LuaMemberOwner, LuaTypeDeclId, LuaTypeOwner, OwnerKey, TextRange};
use crate::migrate::{
    add_to_owners_state, element_members, migrate_state, migrate_to_decl_state,
    migrate_to_member_state, other_global_decls, path_members_of, type_owners, without_decl,
};
use crate::func_generic::explicit_types_given;
use crate::generic_usage::mentions_tpl;
use crate::substitutor::TypeSubstitutor;
use crate::syntax::LuaCallExpr;
use crate::types::{GenericTplId, LuaFunctionType, LuaType, LuaTypeCache};
use std::sync::Arc;

verus! {

/// The base type of an instance type.
pub open spec fn instance_base(t: LuaType) -> LuaType {
    match t {
        LuaType::Instance(inst) => inst.base,
        _ => t,
    }
}

/// `t` differs from `s` only in its member ownership, and every list of `s`
/// is still in `t`.
pub open spec fn grows_members(s: DbState, t: DbState) -> bool {
    &&& t.decls == s.decls
    &&& t.globals == s.globals
    &&& t.refs == s.refs
    &&& t.types == s.types
    &&& t.generic_params == s.generic_params
    &&& t.signatures == s.signatures
    &&& t.assigns == s.assigns
    &&& t.supers == s.supers
    &&& t.member.members == s.member.members
    &&& forall|k: OwnerKey, x: LuaMemberId| #[trigger]
        owner_list(s.member, k).contains(x) ==> owner_list(t.member, k).contains(x)
}

proof fn lemma_grows_trans(a: DbState, b: DbState, c: DbState)
    requires
        grows_members(a, b),
        grows_members(b, c),
    ensures
        grows_members(a, c),
{
    assert forall|k: OwnerKey, x: LuaMemberId| #[trigger]
        owner_list(a.member, k).contains(x) implies owner_list(c.member, k).contains(x) by {
        assert(owner_list(b.member, k).contains(x));
    }
}

/// Adding a member changes only member ownership, loses no listed member,
/// and lists a known member under its new owner.
pub proof fn lemma_add_member_grows(s: DbState, o: LuaMemberOwner, m: LuaMemberId)
    ensures
        grows_members(s, add_member_state(s, o, m)),
        s.member.members.contains_key(m) ==> owner_list(add_member_state(s, o, m).member, o@).contains(m),
        add_member_state(s, o, m).member.owner_of[m] == o,
{
    let s1 = set_owner_state(s.member, o, m.file_id, m);
    let t = add_member_state(s, o, m);
    assert(owner_list(s1, o@) == owner_list(s.member, o@));
    assert forall|k: OwnerKey, x: LuaMemberId| #[trigger]
        owner_list(s.member, k).contains(x) implies owner_list(t.member, k).contains(x) by {
        assert(owner_list(s1, k) == owner_list(s.member, k));
        if s.member.members.contains_key(m) && k == o@ {
            let l = owner_list(s1, o@);
            if !l.contains(m) {
                let i = choose|i: int| 0 <= i < l.len() && l[i] == x;
                assert(l.push(m)[i] == x);
            }
        }
    }
    if s.member.members.contains_key(m) {
        let l = owner_list(s1, o@);
        if !l.contains(m) {
            assert(l.push(m)[l.len() as int] == m);
        }
    }
}

pub proof fn lemma_add_members_grows(s: DbState, o: LuaMemberOwner, ids: Seq<LuaMemberId>)
    ensures
        grows_members(s, add_members_state(s, o, ids)),
        forall|i: int|
            0 <= i < ids.len() && s.member.members.contains_key(#[trigger] ids[i]) ==> owner_list(
                add_members_state(s, o, ids).member,
                o@,
            ).contains(ids[i]),
    decreases ids.len(),
{
    if ids.len() > 0 {
        let p = add_members_state(s, o, ids.drop_last());
        lemma_add_members_grows(s, o, ids.drop_last());
        lemma_add_member_grows(p, o, ids.last());
        lemma_grows_trans(s, p, add_members_state(s, o, ids));
        assert forall|i: int|
            0 <= i < ids.len() && s.member.members.contains_key(#[trigger] ids[i]) implies owner_list(
                add_members_state(s, o, ids).member,
                o@,
            ).contains(ids[i]) by {
            if i < ids.len() - 1 {
                assert(ids.drop_last()[i] == ids[i]);
            }
        }
    }
}

pub proof fn lemma_add_to_owners_grows(s: DbState, owners: Seq<LuaMemberOwner>, ids: Seq<LuaMemberId>)
    ensures
        grows_members(s, add_to_owners_state(s, owners, ids)),
        forall|j: int, i: int|
            0 <= j < owners.len() && 0 <= i < ids.len() && s.member.members.contains_key(
                #[trigger] ids[i],
            ) ==> owner_list(add_to_owners_state(s, owners, ids).member, (#[trigger] owners[j])@).contains(
                ids[i],
            ),
    decreases owners.len(),
{
    if owners.len() > 0 {
        let p = add_to_owners_state(s, owners.drop_last(), ids);
        let t = add_to_owners_state(s, owners, ids);
        lemma_add_to_owners_grows(s, owners.drop_last(), ids);
        lemma_add_members_grows(p, owners.last(), ids);
        lemma_grows_trans(s, p, t);
        assert forall|j: int, i: int|
            0 <= j < owners.len() && 0 <= i < ids.len() && s.member.members.contains_key(
                #[trigger] ids[i],
            ) implies owner_list(t.member, (#[trigger] owners[j])@).contains(ids[i]) by {
            if j < owners.len() - 1 {
                assert(owners.drop_last()[j] == owners[j]);
                assert(owner_list(p.member, owners[j]@).contains(ids[i]));
            }
        }
    }
}

pub proof fn lemma_merge_def_grows(s: DbState, d: LuaType, e: LuaType, level: int)
    ensures
        grows_members(s, merge_def_state(s, d, e, level)),
    decreases 2 - level,
{
    if level <= 1 {
        match d {
            LuaType::Def(def) => match e {
                LuaType::TableConst(range) => {
                    let key = LuaMemberOwner::Element(range)@;
                    if s.member.owner_members.contains_key(key) {
                        lemma_add_members_grows(s, LuaMemberOwner::Type(def), s.member.owner_members[key]);
                    }
                },
                LuaType::Instance(inst) => {
                    lemma_merge_def_grows(s, instance_base(e), e, level + 1);
                },
                _ => {},
            },
            _ => {},
        }
    }
}

pub proof fn lemma_migrate_grows(s: DbState, owner: LuaTypeOwner)
    ensures
        grows_members(s, migrate_state(s, owner)),
{
    match owner {
        LuaTypeOwner::Decl(d) => {
            if s.decls.contains_key(d) && s.decls[d].spec_is_global() {
                match owner_id_spec(s, LuaTypeOwner::Decl(d)) {
                    Some(o) => {
                        let name = s.decls[d].name@;
                        let pm = path_members_of(s, name);
                        let others = other_global_decls(s, name, d);
                        let extra = if o is Type { element_members(s, others) } else { Seq::empty() };
                        let sib = if o is Element { type_owners(s, others) } else { Seq::empty() };
                        let s1 = add_members_state(s, o, pm + extra);
                        lemma_add_members_grows(s, o, pm + extra);
                        lemma_add_to_owners_grows(s1, sib, pm);
                        lemma_grows_trans(s, s1, add_to_owners_state(s1, sib, pm));
                    },
                    None => {},
                }
            }
        },
        LuaTypeOwner::Member(m) => {
            if s.member.members.contains_key(m) {
                match s.member.members[m].global_id {
                    Some(g) => match owner_id_spec(s, LuaTypeOwner::Member(m)) {
                        Some(o) => {
                            let key = OwnerKey::GlobalPath(g.path@);
                            if s.member.owner_members.contains_key(key) {
                                lemma_add_members_grows(s, o, s.member.owner_members[key]);
                            }
                        },
                        None => {},
                    },
                    None => {},
                }
            }
        },
        _ => {},
    }
}

/// Law: a type bound to an owner is never replaced. Binding a second type
/// leaves every bound type as it was; binding a first one adds exactly that
/// (possibly widened) type. No binding drops a member from any owner's list.
pub proof fn law_bind_type_keeps_first_type(s: DbState, owner: LuaTypeOwner, cache: LuaTypeCache)
    ensures
        s.types.contains_key(owner) ==> bind_state(s, owner, cache).types == s.types,
        !s.types.contains_key(owner) ==> bind_state(s, owner, cache).types == s.types.insert(
            owner,
            widened_cache(s, owner, cache),
        ),
        forall|k: OwnerKey, x: LuaMemberId| #[trigger]
            owner_list(s.member, k).contains(x) ==> owner_list(
                bind_state(s, owner, cache).member,
                k,
            ).contains(x),
{
    if s.types.contains_key(owner) {
        lemma_merge_def_grows(s, s.types[owner].spec_as_type(), cache.spec_as_type(), 0);
    } else {
        let s1 = with_type(s, owner, widened_cache(s, owner, cache));
        lemma_migrate_grows(s1, owner);
    }
}

/// Law: once a first type is bound to an owner, the member owner looked up
/// for it is the one that (possibly widened) type resolves to; a later
/// binding does not change it.
pub proof fn law_bind_then_owner(s: DbState, owner: LuaTypeOwner, cache: LuaTypeCache, later: LuaTypeCache)
    ensures
        !s.types.contains_key(owner) ==> owner_id_spec(bind_state(s, owner, cache), owner) == owner_of_type(
            widened_cache(s, owner, cache).spec_as_type(),
        ),
        owner_id_spec(bind_state(bind_state(s, owner, cache), owner, later), owner) == owner_id_spec(
            bind_state(s, owner, cache),
            owner,
        ),
{
    law_bind_type_keeps_first_type(s, owner, cache);
    let t = bind_state(s, owner, cache);
    law_bind_type_keeps_first_type(t, owner, later);
}

/// Law: adding the same member to the same owner twice is the same as
/// adding it once.
pub proof fn law_add_member_idempotent(s: DbState, owner: LuaMemberOwner, member_id: LuaMemberId)
    ensures
        add_member_state(add_member_state(s, owner, member_id), owner, member_id) == add_member_state(
            s,
            owner,
            member_id,
        ),
{
    let t = add_member_state(s, owner, member_id);
    let u = add_member_state(t, owner, member_id);
    lemma_add_member_grows(s, owner, member_id);
    let t1 = set_owner_state(t.member, owner, member_id.file_id, member_id);
    assert(t1.owner_of =~= t.member.owner_of);
    assert(t1.file_owners =~= t.member.file_owners);
    assert(t1 == t.member);
    if s.member.members.contains_key(member_id) {
        assert(owner_list(t1, owner@).contains(member_id));
        assert(t1.owner_members.insert(owner@, owner_list(t1, owner@)) =~= t1.owner_members);
    }
    assert(u.member == t.member);
}

/// Law: after `add_member`, the member is owned by `owner`, and, when the
/// member is known, `owner` lists it.
pub proof fn law_add_member_then_owner(s: DbState, owner: LuaMemberOwner, member_id: LuaMemberId)
    ensures
        add_member_state(s, owner, member_id).member.owner_of[member_id] == owner,
        s.member.members.contains_key(member_id) ==> owner_list(
            add_member_state(s, owner, member_id).member,
            owner@,
        ).contains(member_id),
{
    lemma_add_member_grows(s, owner, member_id);
}

/// Law: merging an instance into a declared class never changes the
/// database: the instance is followed to its base with the expression still
/// an instance, and the depth limit stops it before any table is merged.
pub proof fn law_merge_instance_changes_nothing(s: DbState, decl_type: LuaType, expr_type: LuaType, level: int)
    requires
        expr_type is Instance,
    ensures
        merge_def_state(s, decl_type, expr_type, level) == s,
    decreases 2 - level,
{
    if level <= 1 {
        match decl_type {
            LuaType::Def(_) => match expr_type {
                LuaType::Instance(inst) => {
                    law_merge_instance_changes_nothing(s, instance_base(expr_type), expr_type, level + 1);
                },
                _ => {},
            },
            _ => {},
        }
    }
}


/// Binding a first type to a global declaration lists every known member of
/// its global path under the owner the type resolves to, and keeps everything
/// but the new type and the member lists.
proof fn lemma_bind_global_lists_path_member(
    s: DbState,
    d: LuaDeclId,
    cache: LuaTypeCache,
    o: LuaMemberOwner,
    m: LuaMemberId,
)
    requires
        s.decls.contains_key(d),
        s.decls[d].spec_is_global(),
        !s.types.contains_key(LuaTypeOwner::Decl(d)),
        owner_of_type(cache.spec_as_type()) == Some(o),
        path_members_of(s, s.decls[d].name@).contains(m),
        s.member.members.contains_key(m),
    ensures
        owner_list(bind_state(s, LuaTypeOwner::Decl(d), cache).member, o@).contains(m),
        bind_state(s, LuaTypeOwner::Decl(d), cache).types == s.types.insert(LuaTypeOwner::Decl(d), cache),
        bind_state(s, LuaTypeOwner::Decl(d), cache).decls == s.decls,
        bind_state(s, LuaTypeOwner::Decl(d), cache).globals == s.globals,
        bind_state(s, LuaTypeOwner::Decl(d), cache).member.members == s.member.members,
        forall|k: OwnerKey, x: LuaMemberId| #[trigger]
            owner_list(s.member, k).contains(x) ==> owner_list(
                bind_state(s, LuaTypeOwner::Decl(d), cache).member,
                k,
            ).contains(x),
{
    let owner = LuaTypeOwner::Decl(d);
    assert(widened_cache(s, owner, cache) == cache);
    let w = with_type(s, owner, cache);
    assert(owner_id_spec(w, owner) == Some(o));
    let name = s.decls[d].name@;
    let pm = path_members_of(w, name);
    assert(pm == path_members_of(s, name));
    let others = other_global_decls(w, name, d);
    let extra = if o is Type { element_members(w, others) } else { Seq::empty() };
    let sib = if o is Element { type_owners(w, others) } else { Seq::empty() };
    let w1 = add_members_state(w, o, pm + extra);
    lemma_add_members_grows(w, o, pm + extra);
    let k = choose|k: int| 0 <= k < pm.len() && pm[k] == m;
    assert((pm + extra)[k] == m);
    assert(owner_list(w1.member, o@).contains(m));
    lemma_add_to_owners_grows(w1, sib, pm);
    lemma_grows_trans(w, w1, add_to_owners_state(w1, sib, pm));
    assert(migrate_state(w, owner) == add_to_owners_state(w1, sib, pm));
}

/// Law: the members recorded under a global's path end up listed both under
/// the class that one declaration of the global is annotated with
/// (`---@type X`) and under the table that another declaration assigns
/// (`XX = {}`), whichever of the two declarations gets its type first.
pub proof fn law_global_members_reach_class_in_either_order(
    s: DbState,
    d_class: LuaDeclId,
    d_table: LuaDeclId,
    class_cache: LuaTypeCache,
    table_cache: LuaTypeCache,
    class_id: LuaTypeDeclId,
    table: InFiled<TextRange>,
    m: LuaMemberId,
)
    requires
        d_class != d_table,
        s.decls.contains_key(d_class),
        s.decls.contains_key(d_table),
        s.decls[d_class].spec_is_global(),
        s.decls[d_table].spec_is_global(),
        s.decls[d_class].name@ == s.decls[d_table].name@,
        !s.types.contains_key(LuaTypeOwner::Decl(d_class)),
        !s.types.contains_key(LuaTypeOwner::Decl(d_table)),
        class_cache.spec_as_type() == LuaType::Ref(class_id),
        table_cache.spec_as_type() == LuaType::TableConst(table),
        path_members_of(s, s.decls[d_class].name@).contains(m),
        lists_known(s.member),
    ensures
        owner_list(
            bind_state(
                bind_state(s, LuaTypeOwner::Decl(d_class), class_cache),
                LuaTypeOwner::Decl(d_table),
                table_cache,
            ).member,
            OwnerKey::Type(class_id.name@),
        ).contains(m),
        owner_list(
            bind_state(
                bind_state(s, LuaTypeOwner::Decl(d_class), class_cache),
                LuaTypeOwner::Decl(d_table),
                table_cache,
            ).member,
            OwnerKey::Element(table),
        ).contains(m),
        owner_list(
            bind_state(
                bind_state(s, LuaTypeOwner::Decl(d_table), table_cache),
                LuaTypeOwner::Decl(d_class),
                class_cache,
            ).member,
            OwnerKey::Type(class_id.name@),
        ).contains(m),
        owner_list(
            bind_state(
                bind_state(s, LuaTypeOwner::Decl(d_table), table_cache),
                LuaTypeOwner::Decl(d_class),
                class_cache,
            ).member,
            OwnerKey::Element(table),
        ).contains(m),
{
    let name = s.decls[d_class].name@;
    let co = LuaMemberOwner::Type(class_id);
    let to = LuaMemberOwner::Element(table);
    let gp = OwnerKey::GlobalPath(name);
    assert(s.member.members.contains_key(m)) by {
        let j = choose|j: int| 0 <= j < path_members_of(s, name).len() && path_members_of(s, name)[j] == m;
        assert(s.member.owner_members[gp][j] == m);
    }
    // Class first, then table.
    lemma_bind_global_lists_path_member(s, d_class, class_cache, co, m);
    let a1 = bind_state(s, LuaTypeOwner::Decl(d_class), class_cache);
    assert(owner_list(a1.member, gp).contains(m)) by {
        assert(owner_list(s.member, gp).contains(m));
    }
    lemma_bind_global_lists_path_member(a1, d_table, table_cache, to, m);
    // Table first, then class.
    lemma_bind_global_lists_path_member(s, d_table, table_cache, to, m);
    let b1 = bind_state(s, LuaTypeOwner::Decl(d_table), table_cache);
    assert(owner_list(b1.member, gp).contains(m)) by {
        assert(owner_list(s.member, gp).contains(m));
    }
    lemma_bind_global_lists_path_member(b1, d_class, class_cache, co, m);
}

/// Law: when types are written at a call of a generic function, they alone
/// decide what its templates become, whatever the call's arguments: the
/// substitutions of two calls that write the same types replace the same
/// templates, each giving the `j`-th function template a type that the
/// `j`-th written type names (`tpl_given_at`).
pub proof fn law_written_types_decide_templates(
    s1: TypeSubstitutor,
    s2: TypeSubstitutor,
    func: LuaFunctionType,
    c1: LuaCallExpr,
    c2: LuaCallExpr,
)
    requires
        explicit_types_given(s1, func, c1),
        explicit_types_given(s2, func, c2),
        c1.generic_types is Some,
        c1.generic_types == c2.generic_types,
        c1.generic_types->0@.len() <= u32::MAX,
        exists|k: u64| mentions_tpl(LuaType::DocFunction(Arc::new(func)), k, true, true),
    ensures
        s1.replaced().dom() == s2.replaced().dom(),
        forall|j: int|
            0 <= j < c1.generic_types->0@.len() ==> #[trigger] crate::func_generic::tpl_given_at(
                s1.replaced(),
                c1.generic_types->0@[j],
                j,
            ) && crate::func_generic::tpl_given_at(s2.replaced(), c1.generic_types->0@[j], j),
{
    let list = c1.generic_types->0@;
    assert forall|id: GenericTplId| s1.replaced().contains_key(id) <==> s2.replaced().contains_key(id) by {
        if s1.replaced().contains_key(id) {
            let j = id->Func_0;
            assert(crate::func_generic::tpl_given_at(s2.replaced(), list[j as int], j as int));
        }
        if s2.replaced().contains_key(id) {
            let j = id->Func_0;
            assert(crate::func_generic::tpl_given_at(s1.replaced(), list[j as int], j as int));
        }
    }
    assert(s1.replaced().dom() =~= s2.replaced().dom());
    assert forall|j: int| 0 <= j < list.len() implies #[trigger] crate::func_generic::tpl_given_at(
        s1.replaced(),
        list[j],
        j,
    ) && crate::func_generic::tpl_given_at(s2.replaced(), list[j], j) by {
        assert(crate::func_generic::tpl_given_at(s1.replaced(), list[j], j));
        assert(crate::func_generic::tpl_given_at(s2.replaced(), list[j], j));
    }
}

/// Adding the members `ids` to `o` makes `o` the owner of each of them.
pub proof fn lemma_add_members_owns(s: DbState, o: LuaMemberOwner, ids: Seq<LuaMemberId>, x: LuaMemberId)
    requires
        ids.contains(x),
    ensures
        add_members_state(s, o, ids).member.owner_of[x] == o,
    decreases ids.len(),
{
    if ids.last() == x {
    } else {
        let k = choose|k: int| 0 <= k < ids.len() && ids[k] == x;
        assert(ids.drop_last()[k] == x);
        lemma_add_members_owns(s, o, ids.drop_last(), x);
    }
}

/// A declaration other than `d` among `ids` is still among them once `d` is
/// left out.
proof fn lemma_without_decl_keeps(ids: Seq<LuaDeclId>, d: LuaDeclId, other: LuaDeclId)
    requires
        ids.contains(other),
        other != d,
    ensures
        without_decl(ids, d).contains(other),
    decreases ids.len(),
{
    if ids.last() == other {
        assert(without_decl(ids, d) == without_decl(ids.drop_last(), d).push(other));
        assert(without_decl(ids, d)[without_decl(ids.drop_last(), d).len() as int] == other);
    } else {
        let k = choose|k: int| 0 <= k < ids.len() && ids[k] == other;
        assert(ids.drop_last()[k] == other);
        lemma_without_decl_keeps(ids.drop_last(), d, other);
        let w = without_decl(ids.drop_last(), d);
        let j = choose|j: int| 0 <= j < w.len() && w[j] == other;
        if ids.last() != d {
            assert(w.push(ids.last())[j] == other);
        }
    }
}

/// Every member listed under the table that one of `ids` resolves to is
/// among the collected table members of `ids`.
proof fn lemma_element_members_has(s: DbState, ids: Seq<LuaDeclId>, other: LuaDeclId, r: InFiled<TextRange>, x: LuaMemberId)
    requires
        ids.contains(other),
        owner_id_spec(s, LuaTypeOwner::Decl(other)) == Some(LuaMemberOwner::Element(r)),
        owner_list(s.member, LuaMemberOwner::Element(r)@).contains(x),
    ensures
        element_members(s, ids).contains(x),
    decreases ids.len(),
{
    let rest = element_members(s, ids.drop_last());
    if ids.last() == other {
        let l = s.member.owner_members[LuaMemberOwner::Element(r)@];
        let j = choose|j: int| 0 <= j < l.len() && l[j] == x;
        assert((rest + l)[rest.len() + j] == x);
    } else {
        let k = choose|k: int| 0 <= k < ids.len() && ids[k] == other;
        assert(ids.drop_last()[k] == other);
        lemma_element_members_has(s, ids.drop_last(), other, r, x);
        let j = choose|j: int| 0 <= j < rest.len() && rest[j] == x;
        match owner_id_spec(s, LuaTypeOwner::Decl(ids.last())) {
            Some(o) => if o is Element && s.member.owner_members.contains_key(o@) {
                assert((rest + s.member.owner_members[o@])[j] == x);
            },
            None => {},
        }
    }
}

/// Law: once a member's type resolves to an owner (a class or a table),
/// migrating that member moves every known member listed under the member's
/// global path to the owner: the owner lists it and owns it.
pub proof fn law_member_migration_moves_path_members(
    s: DbState,
    m: LuaMemberId,
    o: LuaMemberOwner,
    x: LuaMemberId,
)
    requires
        s.member.members.contains_key(m),
        s.member.members[m].global_id is Some,
        s.types.contains_key(LuaTypeOwner::Member(m)),
        owner_of_type(s.types[LuaTypeOwner::Member(m)].spec_as_type()) == Some(o),
        owner_list(s.member, OwnerKey::GlobalPath(s.member.members[m].global_id->0.path@)).contains(x),
        s.member.members.contains_key(x),
    ensures
        owner_list(migrate_state(s, LuaTypeOwner::Member(m)).member, o@).contains(x),
        migrate_state(s, LuaTypeOwner::Member(m)).member.owner_of[x] == o,
{
    let key = OwnerKey::GlobalPath(s.member.members[m].global_id->0.path@);
    let l = s.member.owner_members[key];
    let j = choose|j: int| 0 <= j < l.len() && l[j] == x;
    lemma_add_members_grows(s, o, l);
    lemma_add_members_owns(s, o, l, x);
}

/// Law: binding a first type to a member whose global path lists members
/// moves those members to the owner the bound type resolves to (a class or
/// a table): each known one is listed under that owner and owned by it.
pub proof fn law_bind_member_moves_path_members(
    s: DbState,
    m: LuaMemberId,
    cache: LuaTypeCache,
    o: LuaMemberOwner,
    x: LuaMemberId,
)
    requires
        !s.types.contains_key(LuaTypeOwner::Member(m)),
        s.member.members.contains_key(m),
        s.member.members[m].global_id is Some,
        owner_of_type(cache.spec_as_type()) == Some(o),
        owner_list(s.member, OwnerKey::GlobalPath(s.member.members[m].global_id->0.path@)).contains(x),
        s.member.members.contains_key(x),
    ensures
        owner_list(bind_state(s, LuaTypeOwner::Member(m), cache).member, o@).contains(x),
        bind_state(s, LuaTypeOwner::Member(m), cache).member.owner_of[x] == o,
{
    let s1 = with_type(s, LuaTypeOwner::Member(m), cache);
    assert(widened_cache(s, LuaTypeOwner::Member(m), cache) == cache);
    law_member_migration_moves_path_members(s1, m, o, x);
}

/// Law: merging a table literal into a declared class, at a depth that
/// still merges, lists every known member of the table under the class.
pub proof fn law_merge_table_lists_all_members(
    s: DbState,
    def: LuaTypeDeclId,
    range: InFiled<TextRange>,
    level: int,
    x: LuaMemberId,
)
    requires
        level <= 1,
        owner_list(s.member, LuaMemberOwner::Element(range)@).contains(x),
        s.member.members.contains_key(x),
    ensures
        owner_list(
            merge_def_state(s, LuaType::Def(def), LuaType::TableConst(range), level).member,
            LuaMemberOwner::Type(def)@,
        ).contains(x),
{
    let l = s.member.owner_members[LuaMemberOwner::Element(range)@];
    let j = choose|j: int| 0 <= j < l.len() && l[j] == x;
    lemma_add_members_grows(s, LuaMemberOwner::Type(def), l);
}

/// Law: binding a table literal to an owner already declared with a class
/// (its second binding) lists every known member of the table under the
/// class.
pub proof fn law_bind_table_into_class(
    s: DbState,
    owner: LuaTypeOwner,
    cache: LuaTypeCache,
    def: LuaTypeDeclId,
    range: InFiled<TextRange>,
    x: LuaMemberId,
)
    requires
        s.types.contains_key(owner),
        s.types[owner].spec_as_type() == LuaType::Def(def),
        cache.spec_as_type() == LuaType::TableConst(range),
        owner_list(s.member, LuaMemberOwner::Element(range)@).contains(x),
        s.member.members.contains_key(x),
    ensures
        owner_list(bind_state(s, owner, cache).member, LuaMemberOwner::Type(def)@).contains(x),
{
    law_merge_table_lists_all_members(s, def, range, 0, x);
}

/// Law: when a global declaration gets a class as its first type, every
/// known member listed under the table literal that any other declaration
/// of the same global resolves to is listed under the class.
pub proof fn law_class_global_gathers_sibling_tables(
    s: DbState,
    d: LuaDeclId,
    cache: LuaTypeCache,
    class_id: LuaTypeDeclId,
    other: LuaDeclId,
    r: InFiled<TextRange>,
    x: LuaMemberId,
)
    requires
        s.decls.contains_key(d),
        s.decls[d].spec_is_global(),
        !s.types.contains_key(LuaTypeOwner::Decl(d)),
        cache.spec_as_type() == LuaType::Ref(class_id),
        other != d,
        s.globals.contains_key(s.decls[d].name@),
        s.globals[s.decls[d].name@].contains(other),
        owner_id_spec(s, LuaTypeOwner::Decl(other)) == Some(LuaMemberOwner::Element(r)),
        owner_list(s.member, LuaMemberOwner::Element(r)@).contains(x),
        s.member.members.contains_key(x),
    ensures
        owner_list(
            bind_state(s, LuaTypeOwner::Decl(d), cache).member,
            LuaMemberOwner::Type(class_id)@,
        ).contains(x),
{
    let c = LuaMemberOwner::Type(class_id);
    assert(widened_cache(s, LuaTypeOwner::Decl(d), cache) == cache);
    let s1 = with_type(s, LuaTypeOwner::Decl(d), cache);
    assert(owner_id_spec(s1, LuaTypeOwner::Decl(d)) == Some(c));
    assert(owner_id_spec(s1, LuaTypeOwner::Decl(other)) == owner_id_spec(s, LuaTypeOwner::Decl(other)));
    let name = s.decls[d].name@;
    let others = other_global_decls(s1, name, d);
    lemma_without_decl_keeps(s.globals[name], d, other);
    lemma_element_members_has(s1, others, other, r, x);
    let pm = path_members_of(s1, name);
    let extra = element_members(s1, others);
    let all = pm + extra;
    let j = choose|j: int| 0 <= j < extra.len() && extra[j] == x;
    assert(all[pm.len() + j] == x);
    lemma_add_members_grows(s1, c, all);
    let s2 = add_members_state(s1, c, all);
    assert(add_to_owners_state(s2, Seq::<LuaMemberOwner>::empty(), pm) == s2);
}

/// Law: a literal type inferred for a declaration that is assigned again
/// elsewhere, local or global, is bound as its base type when it is the
/// declaration's first type: an integer literal as `integer`, a string
/// literal as `string`, a boolean literal as `boolean`, a float literal as
/// `number`.
pub proof fn law_reassigned_literal_is_widened(s: DbState, d: LuaDeclId, t: LuaType)
    requires
        !s.types.contains_key(LuaTypeOwner::Decl(d)),
        s.refs.contains_key(d),
        s.refs[d].mutable,
    ensures
        t is IntegerConst ==> bind_state(s, LuaTypeOwner::Decl(d), LuaTypeCache::InferType(t)).types[LuaTypeOwner::Decl(
            d,
        )] == LuaTypeCache::InferType(LuaType::Integer),
        t is StringConst ==> bind_state(s, LuaTypeOwner::Decl(d), LuaTypeCache::InferType(t)).types[LuaTypeOwner::Decl(
            d,
        )] == LuaTypeCache::InferType(LuaType::String),
        t is BooleanConst ==> bind_state(s, LuaTypeOwner::Decl(d), LuaTypeCache::InferType(t)).types[LuaTypeOwner::Decl(
            d,
        )] == LuaTypeCache::InferType(LuaType::Boolean),
        t is FloatConst ==> bind_state(s, LuaTypeOwner::Decl(d), LuaTypeCache::InferType(t)).types[LuaTypeOwner::Decl(
            d,
        )] == LuaTypeCache::InferType(LuaType::Number),
{
    law_bind_type_keeps_first_type(s, LuaTypeOwner::Decl(d), LuaTypeCache::InferType(t));
}

/// A class that one of `ids` resolves to is among the classes of `ids`.
proof fn lemma_type_owners_has(s: DbState, ids: Seq<LuaDeclId>, other: LuaDeclId, c: LuaTypeDeclId)
    requires
        ids.contains(other),
        owner_id_spec(s, LuaTypeOwner::Decl(other)) == Some(LuaMemberOwner::Type(c)),
    ensures
        type_owners(s, ids).contains(LuaMemberOwner::Type(c)),
    decreases ids.len(),
{
    let rest = type_owners(s, ids.drop_last());
    if ids.last() == other {
        assert(rest.push(LuaMemberOwner::Type(c))[rest.len() as int] == LuaMemberOwner::Type(c));
    } else {
        let k = choose|k: int| 0 <= k < ids.len() && ids[k] == other;
        assert(ids.drop_last()[k] == other);
        lemma_type_owners_has(s, ids.drop_last(), other, c);
        let j = choose|j: int| 0 <= j < rest.len() && rest[j] == LuaMemberOwner::Type(c);
        match owner_id_spec(s, LuaTypeOwner::Decl(ids.last())) {
            Some(o) => if o is Type {
                assert(rest.push(o)[j] == LuaMemberOwner::Type(c));
            },
            None => {},
        }
    }
}

/// Law: binding a first type to a global declaration moves every known
/// member listed under the global path of its name to the owner that type
/// resolves to (a class or a table).
pub proof fn law_bind_global_moves_path_members(
    s: DbState,
    d: LuaDeclId,
    cache: LuaTypeCache,
    o: LuaMemberOwner,
    x: LuaMemberId,
)
    requires
        s.decls.contains_key(d),
        s.decls[d].spec_is_global(),
        !s.types.contains_key(LuaTypeOwner::Decl(d)),
        owner_of_type(cache.spec_as_type()) == Some(o),
        owner_list(s.member, OwnerKey::GlobalPath(s.decls[d].name@)).contains(x),
        s.member.members.contains_key(x),
    ensures
        owner_list(bind_state(s, LuaTypeOwner::Decl(d), cache).member, o@).contains(x),
{
    assert(widened_cache(s, LuaTypeOwner::Decl(d), cache) == cache);
    let s1 = with_type(s, LuaTypeOwner::Decl(d), cache);
    let name = s.decls[d].name@;
    let pm = path_members_of(s1, name);
    let others = other_global_decls(s1, name, d);
    let extra = if o is Type {
        element_members(s1, others)
    } else {
        Seq::empty()
    };
    let sib = if o is Element {
        type_owners(s1, others)
    } else {
        Seq::empty()
    };
    let all = pm + extra;
    let j = choose|j: int| 0 <= j < pm.len() && pm[j] == x;
    assert(all[j] == x);
    lemma_add_members_grows(s1, o, all);
    let s2 = add_members_state(s1, o, all);
    lemma_add_to_owners_grows(s2, sib, pm);
}

/// Law: binding a table literal as the first type of a global declaration
/// also lists every known member under the global path of its name under
/// each class that another declaration of the same global resolves to.
pub proof fn law_bind_table_global_feeds_sibling_class(
    s: DbState,
    d: LuaDeclId,
    cache: LuaTypeCache,
    r: InFiled<TextRange>,
    other: LuaDeclId,
    c: LuaTypeDeclId,
    x: LuaMemberId,
)
    requires
        s.decls.contains_key(d),
        s.decls[d].spec_is_global(),
        !s.types.contains_key(LuaTypeOwner::Decl(d)),
        cache.spec_as_type() == LuaType::TableConst(r),
        other != d,
        s.globals.contains_key(s.decls[d].name@),
        s.globals[s.decls[d].name@].contains(other),
        owner_id_spec(s, LuaTypeOwner::Decl(other)) == Some(LuaMemberOwner::Type(c)),
        owner_list(s.member, OwnerKey::GlobalPath(s.decls[d].name@)).contains(x),
        s.member.members.contains_key(x),
    ensures
        owner_list(bind_state(s, LuaTypeOwner::Decl(d), cache).member, LuaMemberOwner::Type(c)@).contains(x),
{
    assert(widened_cache(s, LuaTypeOwner::Decl(d), cache) == cache);
    let o = LuaMemberOwner::Element(r);
    let s1 = with_type(s, LuaTypeOwner::Decl(d), cache);
    assert(owner_id_spec(s1, LuaTypeOwner::Decl(d)) == Some(o));
    assert(owner_id_spec(s1, LuaTypeOwner::Decl(other)) == owner_id_spec(s, LuaTypeOwner::Decl(other)));
    let name = s.decls[d].name@;
    let pm = path_members_of(s1, name);
    let others = other_global_decls(s1, name, d);
    lemma_without_decl_keeps(s.globals[name], d, other);
    lemma_type_owners_has(s1, others, other, c);
    let sib = type_owners(s1, others);
    let all = pm + Seq::<LuaMemberId>::empty();
    assert(all =~= pm);
    let s2 = add_members_state(s1, o, all);
    lemma_add_members_grows(s1, o, all);
    lemma_add_to_owners_grows(s2, sib, pm);
    let j = choose|j: int| 0 <= j < sib.len() && sib[j] == LuaMemberOwner::Type(c);
    let i = choose|i: int| 0 <= i < pm.len() && pm[i] == x;
    assert(s2.member.members.contains_key(pm[i]));
    assert(owner_list(add_to_owners_state(s2, sib, pm).member, sib[j]@).contains(pm[i]));
}

/// Law: a first type that is not an inferred literal of a declaration
/// assigned again is bound exactly as given: a doc type, a type bound to a
/// member, or a type of a declaration that is never reassigned.
pub proof fn law_first_type_bound_as_given(s: DbState, owner: LuaTypeOwner, cache: LuaTypeCache)
    requires
        !s.types.contains_key(owner),
        ({
            ||| cache is DocType
            ||| !(owner is Decl)
            ||| !(s.refs.contains_key(owner->Decl_0) && s.refs[owner->Decl_0].mutable)
            ||| !(cache.spec_as_type() is IntegerConst || cache.spec_as_type() is StringConst
                || cache.spec_as_type() is BooleanConst || cache.spec_as_type() is FloatConst)
        }),
    ensures
        bind_state(s, owner, cache).types[owner] == cache,
{
    law_bind_type_keeps_first_type(s, owner, cache);
}

} // verus!
