use vstd::prelude::*;
use crate::common::{add_members_state, copy_member_ids, get_owner_id, owner_id_spec};
use crate::db::{DbIndex, DbState};
use crate::ids::{GlobalId, LuaDeclId, LuaMemberId, LuaMemberOwner, LuaTypeOwner};

verus! {

/// The members listed under the global path `path` (none when nothing is).
pub open spec fn path_members_of(s: DbState, path: Seq<char>) -> Seq<LuaMemberId> {
    let key = crate::ids::OwnerKey::GlobalPath(path);
    if s.member.owner_members.contains_key(key) {
        s.member.owner_members[key]
    } else {
        Seq::empty()
    }
}

/// `ids` without `id`, in order.
pub open spec fn without_decl(ids: Seq<LuaDeclId>, id: LuaDeclId) -> Seq<LuaDeclId>
    decreases ids.len(),
{
    if ids.len() == 0 {
        ids
    } else if ids.last() == id {
        without_decl(ids.drop_last(), id)
    } else {
        without_decl(ids.drop_last(), id).push(ids.last())
    }
}

/// The other declarations of the global `name`.
pub open spec fn other_global_decls(s: DbState, name: Seq<char>, id: LuaDeclId) -> Seq<LuaDeclId> {
    if s.globals.contains_key(name) {
        without_decl(s.globals[name], id)
    } else {
        Seq::empty()
    }
}

/// The members of the table literals that the declarations `ids` resolve to,
/// declaration by declaration.
pub open spec fn element_members(s: DbState, ids: Seq<LuaDeclId>) -> Seq<LuaMemberId>
    decreases ids.len(),
{
    if ids.len() == 0 {
        Seq::empty()
    } else {
        let rest = element_members(s, ids.drop_last());
        match owner_id_spec(s, LuaTypeOwner::Decl(ids.last())) {
            Some(o) => if o is Element && s.member.owner_members.contains_key(o@) {
                rest + s.member.owner_members[o@]
            } else {
                rest
            },
            None => rest,
        }
    }
}

/// The classes that the declarations `ids` resolve to, in order.
pub open spec fn type_owners(s: DbState, ids: Seq<LuaDeclId>) -> Seq<LuaMemberOwner>
    decreases ids.len(),
{
    if ids.len() == 0 {
        Seq::empty()
    } else {
        let rest = type_owners(s, ids.drop_last());
        match owner_id_spec(s, LuaTypeOwner::Decl(ids.last())) {
            Some(o) => if o is Type {
                rest.push(o)
            } else {
                rest
            },
            None => rest,
        }
    }
}

/// `add_member` of all of `ids` to each of `owners` in turn.
pub open spec fn add_to_owners_state(s: DbState, owners: Seq<LuaMemberOwner>, ids: Seq<LuaMemberId>) -> DbState
    decreases owners.len(),
{
    if owners.len() == 0 {
        s
    } else {
        add_members_state(add_to_owners_state(s, owners.drop_last(), ids), owners.last(), ids)
    }
}

/// What moving the members of a global declaration does.
///
/// For a global declaration whose type resolves to an owner, the members
/// under the global path of its name go to that owner. When the owner is a
/// class, the members of the table literals that the other declarations of
/// the same name resolve to go there too. When the owner is a table literal,
/// the members under the global path also go to each class that another
/// declaration of the name resolves to.
pub open spec fn migrate_to_decl_state(s: DbState, decl_id: LuaDeclId) -> DbState {
    if !s.decls.contains_key(decl_id) || !s.decls[decl_id].spec_is_global() {
        s
    } else {
        match owner_id_spec(s, LuaTypeOwner::Decl(decl_id)) {
            None => s,
            Some(owner) => {
                let name = s.decls[decl_id].name@;
                let path_members = path_members_of(s, name);
                let others = other_global_decls(s, name, decl_id);
                let extra = if owner is Type {
                    element_members(s, others)
                } else {
                    Seq::empty()
                };
                let siblings = if owner is Element {
                    type_owners(s, others)
                } else {
                    Seq::empty()
                };
                add_to_owners_state(
                    add_members_state(s, owner, path_members + extra),
                    siblings,
                    path_members,
                )
            },
        }
    }
}

/// What moving the members of a member's global path does: a member that has
/// a global path and whose type resolves to an owner gets the members listed
/// under that path.
pub open spec fn migrate_to_member_state(s: DbState, member_id: LuaMemberId) -> DbState {
    if !s.member.members.contains_key(member_id) {
        s
    } else {
        match s.member.members[member_id].global_id {
            None => s,
            Some(g) => match owner_id_spec(s, LuaTypeOwner::Member(member_id)) {
                None => s,
                Some(owner) => {
                    let key = crate::ids::OwnerKey::GlobalPath(g.path@);
                    if s.member.owner_members.contains_key(key) {
                        add_members_state(s, owner, s.member.owner_members[key])
                    } else {
                        s
                    }
                },
            },
        }
    }
}

/// `member_id` is a known member with a global path, its type resolves to a
/// member owner, and members are listed under that global path: the case in
/// which its path's members are moved.
pub open spec fn migrate_to_member_applies(s: DbState, member_id: LuaMemberId) -> bool {
    &&& s.member.members.contains_key(member_id)
    &&& s.member.members[member_id].global_id matches Some(g)
    &&& owner_id_spec(s, LuaTypeOwner::Member(member_id)) is Some
    &&& s.member.owner_members.contains_key(crate::ids::OwnerKey::GlobalPath(g.path@))
}

/// What `migrate_global_members_when_type_resolve` does for `owner`.
pub open spec fn migrate_state(s: DbState, owner: LuaTypeOwner) -> DbState {
    match owner {
        LuaTypeOwner::Decl(d) => migrate_to_decl_state(s, d),
        LuaTypeOwner::Member(m) => migrate_to_member_state(s, m),
        _ => s,
    }
}

/// Once the type of `type_owner` is known, moves the members recorded under
/// its global path to the owner that type resolves to.
pub fn migrate_global_members_when_type_resolve(db: &mut DbIndex, type_owner: LuaTypeOwner) -> (r: Option<()>)
    requires
        old(db).wf(),
    ensures
        final(db).wf(),
        r == Some(()),
        final(db)@ == migrate_state(old(db)@, type_owner),
{
    match type_owner {
        LuaTypeOwner::Decl(decl_id) => {
            migrate_global_member_to_decl(db, decl_id);
        },
        LuaTypeOwner::Member(member_id) => {
            migrate_global_member_to_member(db, member_id);
        },
        _ => {},
    }
    Some(())
}

fn migrate_global_member_to_decl(db: &mut DbIndex, decl_id: LuaDeclId) -> (r: Option<()>)
    requires
        old(db).wf(),
    ensures
        final(db).wf(),
        final(db)@ == migrate_to_decl_state(old(db)@, decl_id),
        r is Some <==> (old(db)@.decls.contains_key(decl_id) && old(db)@.decls[decl_id].spec_is_global()
            && owner_id_spec(old(db)@, LuaTypeOwner::Decl(decl_id)) is Some),
{
    let ghost s = db@;
    // Phase 1: collect everything needed, reading only.
    let (owner_id, name) = {
        let decl = db.get_decl_index().get_decl(&decl_id)?;
        if !decl.is_global() {
            return None;
        }
        let owner_id = get_owner_id(db, &LuaTypeOwner::from_decl(decl_id))?;
        let name = decl.get_name().to_string();
        (owner_id, name)
    };
    let ghost name_v = name@;
    assert(name_v == s.decls[decl_id].name@);

    let global_id = GlobalId::new(name.as_str());

    // Members under GlobalPath(name): the primary migration source.
    let global_path_members: Vec<LuaMemberId> = match db.get_member_index().get_members(
        &LuaMemberOwner::GlobalPath(global_id),
    ) {
        Some(v) => copy_member_ids(v),
        None => Vec::new(),
    };
    assert(global_path_members@ == path_members_of(s, name_v));

    // The other declarations of the same global name.
    let other_global_decl_ids: Vec<LuaDeclId> = match db.get_global_index().get_global_decl_ids(&name) {
        Some(ids) => decls_without(ids, decl_id),
        None => Vec::new(),
    };
    assert(other_global_decl_ids@ == other_global_decls(s, name_v, decl_id));

    // Owner is a class (the declaration has a `---@type X`): also take the
    // members of the table literals of the other declarations.
    let extra_element_members: Vec<LuaMemberId> = if matches!(owner_id, LuaMemberOwner::Type(_)) {
        collect_element_members(db, &other_global_decl_ids)
    } else {
        Vec::new()
    };

    // Owner is a table literal (a plain `XX = {}`): the classes of the other
    // declarations receive the global-path members as well.
    let sibling_type_owners: Vec<LuaMemberOwner> = if matches!(owner_id, LuaMemberOwner::Element(_)) {
        collect_type_owners(db, &other_global_decl_ids)
    } else {
        Vec::new()
    };

    // Phase 2: mutations.
    let mut moved = copy_member_ids(&global_path_members);
    let mut i: usize = 0;
    while i < extra_element_members.len()
        invariant
            i <= extra_element_members@.len(),
            moved@ == global_path_members@ + extra_element_members@.subrange(0, i as int),
        decreases extra_element_members@.len() - i,
    {
        moved.push(extra_element_members[i]);
        assert(moved@ =~= global_path_members@ + extra_element_members@.subrange(0, i + 1));
        i = i + 1;
    }
    assert(extra_element_members@.subrange(0, extra_element_members@.len() as int)
        =~= extra_element_members@);
    crate::common::add_members(db, &owner_id, &moved);

    let ghost s1 = db@;
    let mut j: usize = 0;
    while j < sibling_type_owners.len()
        invariant
            db.wf(),
            j <= sibling_type_owners@.len(),
            db@ == add_to_owners_state(s1, sibling_type_owners@.subrange(0, j as int), global_path_members@),
        decreases sibling_type_owners@.len() - j,
    {
        crate::common::add_members(db, &sibling_type_owners[j], &global_path_members);
        proof {
            let p = sibling_type_owners@.subrange(0, j + 1);
            assert(p.drop_last() =~= sibling_type_owners@.subrange(0, j as int));
        }
        j = j + 1;
    }
    assert(sibling_type_owners@.subrange(0, sibling_type_owners@.len() as int) =~= sibling_type_owners@);

    Some(())
}

/// The ids of `ids` other than `id`, in order.
fn decls_without(ids: &Vec<LuaDeclId>, id: LuaDeclId) -> (r: Vec<LuaDeclId>)
    ensures
        r@ == without_decl(ids@, id),
{
    let mut r: Vec<LuaDeclId> = Vec::new();
    let mut i: usize = 0;
    while i < ids.len()
        invariant
            i <= ids@.len(),
            r@ == without_decl(ids@.subrange(0, i as int), id),
        decreases ids@.len() - i,
    {
        proof {
            let p = ids@.subrange(0, i + 1);
            assert(p.drop_last() =~= ids@.subrange(0, i as int));
        }
        if ids[i] != id {
            r.push(ids[i]);
        }
        i = i + 1;
    }
    assert(ids@.subrange(0, ids@.len() as int) =~= ids@);
    r
}

fn collect_element_members(db: &DbIndex, ids: &Vec<LuaDeclId>) -> (r: Vec<LuaMemberId>)
    requires
        db.wf(),
    ensures
        r@ == element_members(db@, ids@),
{
    let mut extra: Vec<LuaMemberId> = Vec::new();
    let mut i: usize = 0;
    while i < ids.len()
        invariant
            db.wf(),
            i <= ids@.len(),
            extra@ == element_members(db@, ids@.subrange(0, i as int)),
        decreases ids@.len() - i,
    {
        let other_id = ids[i];
        proof {
            let p = ids@.subrange(0, i + 1);
            assert(p.drop_last() =~= ids@.subrange(0, i as int));
            assert(p.last() == other_id);
        }
        if let Some(elem_owner) = get_owner_id(db, &LuaTypeOwner::from_decl(other_id)) {
            if matches!(elem_owner, LuaMemberOwner::Element(_)) {
                if let Some(members) = db.get_member_index().get_members(&elem_owner) {
                    let ghost before = extra@;
                    let mut k: usize = 0;
                    while k < members.len()
                        invariant
                            k <= members@.len(),
                            extra@ == before + members@.subrange(0, k as int),
                        decreases members@.len() - k,
                    {
                        extra.push(members[k]);
                        assert(extra@ =~= before + members@.subrange(0, k + 1));
                        k = k + 1;
                    }
                    assert(members@.subrange(0, members@.len() as int) =~= members@);
                }
            }
        }
        i = i + 1;
    }
    assert(ids@.subrange(0, ids@.len() as int) =~= ids@);
    extra
}

fn collect_type_owners(db: &DbIndex, ids: &Vec<LuaDeclId>) -> (r: Vec<LuaMemberOwner>)
    requires
        db.wf(),
    ensures
        r@ == type_owners(db@, ids@),
{
    let mut owners: Vec<LuaMemberOwner> = Vec::new();
    let mut i: usize = 0;
    while i < ids.len()
        invariant
            db.wf(),
            i <= ids@.len(),
            owners@ == type_owners(db@, ids@.subrange(0, i as int)),
        decreases ids@.len() - i,
    {
        let other_id = ids[i];
        proof {
            let p = ids@.subrange(0, i + 1);
            assert(p.drop_last() =~= ids@.subrange(0, i as int));
            assert(p.last() == other_id);
        }
        if let Some(o) = get_owner_id(db, &LuaTypeOwner::from_decl(other_id)) {
            if matches!(o, LuaMemberOwner::Type(_)) {
                owners.push(o);
            }
        }
        i = i + 1;
    }
    assert(ids@.subrange(0, ids@.len() as int) =~= ids@);
    owners
}

fn migrate_global_member_to_member(db: &mut DbIndex, member_id: LuaMemberId) -> (r: Option<()>)
    requires
        old(db).wf(),
    ensures
        final(db).wf(),
        final(db)@ == migrate_to_member_state(old(db)@, member_id),
        r is Some <==> migrate_to_member_applies(old(db)@, member_id),
{
    let member = db.get_member_index().get_member(&member_id)?;
    let global_id = member.get_global_id()?.clone();
    let owner_id = get_owner_id(db, &LuaTypeOwner::from_member(member_id))?;

    let members = copy_member_ids(
        db.get_member_index().get_members(&LuaMemberOwner::GlobalPath(global_id))?,
    );

    crate::common::add_members(db, &owner_id, &members);

    Some(())
}

} // verus!
