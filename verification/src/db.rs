use vstd::prelude::*;
use crate::ids::{
    FileId, GlobalId, KeyEq, LuaDeclId, LuaMemberId, LuaMemberOwner, LuaSignatureId, LuaTypeDeclId,
    LuaTypeOwner, OwnerKey,
};
use crate::syntax::LuaExpr;
use crate::types::{GenericParam, LuaSignature, LuaType, LuaTypeCache};
use crate::vec_map::{index_of_key, lemma_pairs_map_at, VecMap};

verus! {

/// What kind of name a declaration introduces.
#[derive(Clone, Copy, PartialEq, Eq, Structural, Debug, Hash)]
pub enum LuaDeclKind {
    Local,
    Param,
    ImplicitSelf,
    Global,
}

/// A declaration: a local, a parameter, the implicit `self` of a method, or
/// a global. It is visible from its position up to `scope_end`.
#[derive(Debug, PartialEq)]
pub struct LuaDecl {
    pub id: LuaDeclId,
    pub name: String,
    pub kind: LuaDeclKind,
    pub scope_end: u32,
}

impl LuaDecl {
    pub open spec fn spec_is_global(&self) -> bool {
        self.kind is Global
    }

    pub open spec fn spec_is_local(&self) -> bool {
        self.kind is Local || self.kind is Param
    }

    pub open spec fn spec_is_implicit_self(&self) -> bool {
        self.kind is ImplicitSelf
    }

    #[verifier::when_used_as_spec(spec_is_global)]
    pub fn is_global(&self) -> (r: bool)
        ensures
            r == self.spec_is_global(),
    {
        matches!(self.kind, LuaDeclKind::Global)
    }

    #[verifier::when_used_as_spec(spec_is_local)]
    pub fn is_local(&self) -> (r: bool)
        ensures
            r == self.spec_is_local(),
    {
        matches!(self.kind, LuaDeclKind::Local | LuaDeclKind::Param)
    }

    #[verifier::when_used_as_spec(spec_is_implicit_self)]
    pub fn is_implicit_self(&self) -> (r: bool)
        ensures
            r == self.spec_is_implicit_self(),
    {
        matches!(self.kind, LuaDeclKind::ImplicitSelf)
    }

    pub fn get_name(&self) -> (r: &str)
        ensures
            r@ == self.name@,
    {
        self.name.as_str()
    }

    pub fn get_id(&self) -> (r: LuaDeclId)
        ensures
            r == self.id,
    {
        self.id
    }
}

/// What the references to a declaration show: `mutable` when the declared
/// name is assigned again after its declaration.
#[derive(Clone, Copy, PartialEq, Eq, Structural, Debug)]
pub struct DeclReference {
    pub mutable: bool,
}

/// A member: a field or method with its key, and, for a member of a global
/// table, the global access path that names it (such as `G.a`).
#[derive(Debug, PartialEq)]
pub struct LuaMember {
    pub id: LuaMemberId,
    pub key: String,
    pub global_id: Option<GlobalId>,
}

impl LuaMember {
    pub fn get_id(&self) -> (r: LuaMemberId)
        ensures
            r == self.id,
    {
        self.id
    }

    pub fn get_global_id(&self) -> (r: Option<&GlobalId>)
        ensures
            match r {
                Some(g) => self.global_id == Some(*g),
                None => self.global_id is None,
            },
    {
        match &self.global_id {
            Some(g) => Some(g),
            None => None,
        }
    }
}

/// The values of a map, each taken by the view of its vector.
pub open spec fn seq_values<K, T>(m: Map<K, Vec<T>>) -> Map<K, Seq<T>> {
    Map::new(|k: K| m.contains_key(k), |k: K| m[k]@)
}

/// The members of the index, who owns each, and which members each owner lists.
pub ghost struct MemberState {
    pub members: Map<LuaMemberId, LuaMember>,
    pub owner_of: Map<LuaMemberId, LuaMemberOwner>,
    pub owner_members: Map<OwnerKey, Seq<LuaMemberId>>,
    pub file_owners: Set<(FileId, OwnerKey)>,
}

/// The members that `owner` lists (none when it lists nothing).
pub open spec fn owner_list(s: MemberState, owner: OwnerKey) -> Seq<LuaMemberId> {
    if s.owner_members.contains_key(owner) {
        s.owner_members[owner]
    } else {
        Seq::empty()
    }
}

/// Every member that some owner lists is a known member.
pub open spec fn lists_known(s: MemberState) -> bool {
    forall|k: OwnerKey, j: int|
        s.owner_members.contains_key(k) && 0 <= j < s.owner_members[k].len() ==> s.members.contains_key(
            #[trigger] s.owner_members[k][j],
        )
}

/// `set_member_owner`: `member` is now owned by `owner`, and `file` is
/// recorded as having touched `owner`.
pub open spec fn set_owner_state(
    s: MemberState,
    owner: LuaMemberOwner,
    file: FileId,
    member: LuaMemberId,
) -> MemberState {
    MemberState {
        owner_of: s.owner_of.insert(member, owner),
        file_owners: s.file_owners.insert((file, owner@)),
        ..s
    }
}

/// `add_member_to_owner`: a known member is added to the list of `owner`,
/// unless it is there already; an unknown member changes nothing.
pub open spec fn add_to_owner_state(s: MemberState, owner: LuaMemberOwner, member: LuaMemberId) -> MemberState {
    if s.members.contains_key(member) {
        let l = owner_list(s, owner@);
        MemberState {
            owner_members: s.owner_members.insert(
                owner@,
                if l.contains(member) {
                    l
                } else {
                    l.push(member)
                },
            ),
            ..s
        }
    } else {
        s
    }
}

/// All members of the workspace and their owners.
pub struct MemberIndex {
    pub members: VecMap<LuaMemberId, LuaMember>,
    pub current_owner: VecMap<LuaMemberId, LuaMemberOwner>,
    pub owner_members: VecMap<LuaMemberOwner, Vec<LuaMemberId>>,
    pub file_owners: Vec<(FileId, LuaMemberOwner)>,
}

impl MemberIndex {
    pub open spec fn wf(&self) -> bool {
        &&& self.members.wf()
        &&& self.current_owner.wf()
        &&& self.owner_members.wf()
        &&& forall|k: OwnerKey| #[trigger]
            self.owner_members.map().contains_key(k) ==> self.owner_members.map()[k]@.no_duplicates()
        &&& lists_known(self.state())
    }

    pub open spec fn state(&self) -> MemberState {
        MemberState {
            members: self.members.map(),
            owner_of: self.current_owner.map(),
            owner_members: seq_values(self.owner_members.map()),
            file_owners: Set::new(
                |p: (FileId, OwnerKey)|
                    exists|i: int|
                        0 <= i < self.file_owners@.len() && (#[trigger] self.file_owners@[i]).0
                            == p.0 && self.file_owners@[i].1@ == p.1,
            ),
        }
    }

    pub fn new() -> (r: Self)
        ensures
            r.wf(),
            r.state().members.is_empty(),
            r.state().owner_of.is_empty(),
            r.state().owner_members.is_empty(),
            r.state().file_owners.is_empty(),
    {
        let r = MemberIndex {
            members: VecMap::new(),
            current_owner: VecMap::new(),
            owner_members: VecMap::new(),
            file_owners: Vec::new(),
        };
        assert(r.state().owner_members =~= Map::empty());
        assert(r.state().file_owners =~= Set::empty());
        r
    }

    /// Records a member (replacing one with the same id).
    pub fn add_member(&mut self, member: LuaMember)
        requires
            old(self).wf(),
        ensures
            final(self).wf(),
            final(self).state() == (MemberState {
                members: old(self).state().members.insert(member.id, member),
                ..old(self).state()
            }),
    {
        let id = member.id;
        self.members.insert(id, member);
        assert(self.state().members =~= old(self).state().members.insert(id, member));
        assert(self.state().owner_members =~= old(self).state().owner_members);
        assert(self.state().file_owners =~= old(self).state().file_owners);
    }

    pub fn get_member(&self, id: &LuaMemberId) -> (r: Option<&LuaMember>)
        requires
            self.wf(),
        ensures
            match r {
                Some(m) => self.state().members.contains_key(*id) && *m == self.state().members[*id],
                None => !self.state().members.contains_key(*id),
            },
    {
        self.members.get(id)
    }

    pub fn get_current_owner(&self, id: &LuaMemberId) -> (r: Option<&LuaMemberOwner>)
        requires
            self.wf(),
        ensures
            match r {
                Some(o) => self.state().owner_of.contains_key(*id) && *o == self.state().owner_of[*id],
                None => !self.state().owner_of.contains_key(*id),
            },
    {
        self.current_owner.get(id)
    }

    /// The members listed under `owner`, if it lists any.
    pub fn get_members(&self, owner: &LuaMemberOwner) -> (r: Option<&Vec<LuaMemberId>>)
        requires
            self.wf(),
        ensures
            match r {
                Some(l) => self.state().owner_members.contains_key(owner@) && l@
                    == self.state().owner_members[owner@],
                None => !self.state().owner_members.contains_key(owner@),
            },
    {
        self.owner_members.get(owner)
    }

    pub fn set_member_owner(&mut self, owner: LuaMemberOwner, file_id: FileId, member_id: LuaMemberId)
        requires
            old(self).wf(),
        ensures
            final(self).wf(),
            final(self).state() == set_owner_state(old(self).state(), owner, file_id, member_id),
    {
        let ghost ov = owner@;
        let ghost oo = owner;
        self.current_owner.insert(member_id, owner.clone());
        let mut i: usize = 0;
        let mut seen = false;
        while i < self.file_owners.len()
            invariant
                i <= self.file_owners@.len(),
                ov == owner@,
                seen ==> exists|j: int|
                    0 <= j < i && (#[trigger] self.file_owners@[j]).0 == file_id
                        && self.file_owners@[j].1@ == ov,
            decreases self.file_owners@.len() - i,
        {
            if self.file_owners[i].0 == file_id && self.file_owners[i].1.key_eq(&owner) {
                seen = true;
                assert(self.file_owners@[i as int].1@ == ov);
            }
            i = i + 1;
        }
        let ghost before = self.file_owners@;
        if !seen {
            self.file_owners.push((file_id, owner));
        }
        proof {
            let t = set_owner_state(old(self).state(), oo, file_id, member_id);
            assert(self.state().owner_of =~= t.owner_of);
            assert(self.state().owner_members =~= t.owner_members);
            assert forall|p: (FileId, OwnerKey)| #![auto]
                self.state().file_owners.contains(p) == t.file_owners.contains(p) by {
                if !seen {
                    if p == (file_id, ov) {
                        assert(self.file_owners@[before.len() as int].0 == file_id);
                    }
                    if old(self).state().file_owners.contains(p) {
                        let j = choose|j: int|
                            0 <= j < before.len() && (#[trigger] before[j]).0 == p.0 && before[j].1@
                                == p.1;
                        assert(self.file_owners@[j] == before[j]);
                    }
                    if self.state().file_owners.contains(p) {
                        let j = choose|j: int|
                            0 <= j < self.file_owners@.len() && (
                            #[trigger] self.file_owners@[j]).0 == p.0 && self.file_owners@[j].1@
                                == p.1;
                        if j < before.len() {
                            assert(self.file_owners@[j] == before[j]);
                        }
                    }
                }
            }
            assert(self.state().file_owners =~= t.file_owners);
        }
    }

    /// Adds a known member to the list of `owner`; `None`, with nothing
    /// changed, when the member is unknown.
    pub fn add_member_to_owner(&mut self, owner: LuaMemberOwner, member_id: LuaMemberId) -> (r: Option<()>)
        requires
            old(self).wf(),
        ensures
            final(self).wf(),
            r is Some <==> old(self).state().members.contains_key(member_id),
            final(self).state() == add_to_owner_state(old(self).state(), owner, member_id),
    {
        if self.members.get(&member_id).is_none() {
            return None;
        }
        let ghost ov = owner@;
        let ghost oo = owner;
        let mut list: Vec<LuaMemberId> = Vec::new();
        match self.owner_members.get(&owner) {
            Some(l) => {
                let mut i: usize = 0;
                while i < l.len()
                    invariant
                        i <= l@.len(),
                        list@ == l@.subrange(0, i as int),
                    decreases l@.len() - i,
                {
                    list.push(l[i]);
                    assert(list@ =~= l@.subrange(0, i + 1));
                    i = i + 1;
                }
                assert(list@ =~= l@);
            },
            None => {},
        }
        assert(list@ == owner_list(old(self).state(), ov));
        let mut found = false;
        let mut i: usize = 0;
        while i < list.len()
            invariant
                i <= list@.len(),
                found <==> exists|j: int| 0 <= j < i && list@[j] == member_id,
            decreases list@.len() - i,
        {
            if list[i] == member_id {
                found = true;
            }
            i = i + 1;
        }
        let ghost before = list@;
        if !found {
            list.push(member_id);
        } else {
            assert(before.contains(member_id));
        }
        proof {
            if !found {
                assert(!before.contains(member_id));
                if old(self).owner_members.map().contains_key(ov) {
                    assert(before.no_duplicates());
                }
                assert(list@.no_duplicates());
            } else if old(self).owner_members.map().contains_key(ov) {
                assert(list@.no_duplicates());
            } else {
                assert(before.len() == 0);
            }
        }
        let ghost newlist = list@;
        self.owner_members.insert(owner, list);
        proof {
            let t = add_to_owner_state(old(self).state(), oo, member_id);
            assert(self.state().owner_members =~= t.owner_members);
            assert(self.state().file_owners =~= t.file_owners);
            assert forall|k: OwnerKey| #[trigger]
                self.owner_members.map().contains_key(k) implies self.owner_members.map()[k]@.no_duplicates() by {
                if k != ov {
                    assert(old(self).owner_members.map().contains_key(k));
                }
            }
        }
        Some(())
    }
}


/// `d` is a declaration of `name` in `file` that is visible at `pos`.
pub open spec fn visible_at(d: LuaDecl, file: FileId, name: Seq<char>, pos: u32) -> bool {
    &&& d.id.file_id == file
    &&& d.name@ == name
    &&& d.id.position <= pos
    &&& pos < d.scope_end
}

/// `id` is the innermost declaration of `name` visible at `pos` in `file`:
/// visible there, and declared after every other visible one.
pub open spec fn is_nearest_decl(
    decls: Map<LuaDeclId, LuaDecl>,
    id: LuaDeclId,
    file: FileId,
    name: Seq<char>,
    pos: u32,
) -> bool {
    &&& decls.contains_key(id)
    &&& visible_at(decls[id], file, name, pos)
    &&& forall|other: LuaDeclId| #[trigger]
        decls.contains_key(other) && visible_at(decls[other], file, name, pos)
            ==> decls[other].id.position <= decls[id].id.position
}

/// All declarations, by id.
pub struct DeclIndex {
    pub decls: VecMap<LuaDeclId, LuaDecl>,
}

impl DeclIndex {
    pub open spec fn wf(&self) -> bool {
        &&& self.decls.wf()
        &&& forall|id: LuaDeclId| #[trigger]
            self.decls.map().contains_key(id) ==> self.decls.map()[id].id == id
    }

    pub fn new() -> (r: Self)
        ensures
            r.wf(),
            r.decls.map().is_empty(),
    {
        DeclIndex { decls: VecMap::new() }
    }

    pub fn add_decl(&mut self, decl: LuaDecl)
        requires
            old(self).wf(),
        ensures
            final(self).wf(),
            final(self).decls.map() == old(self).decls.map().insert(decl.id, decl),
    {
        let id = decl.id;
        self.decls.insert(id, decl);
    }

    pub fn get_decl(&self, id: &LuaDeclId) -> (r: Option<&LuaDecl>)
        requires
            self.wf(),
        ensures
            match r {
                Some(d) => self.decls.map().contains_key(*id) && *d == self.decls.map()[*id],
                None => !self.decls.map().contains_key(*id),
            },
    {
        self.decls.get(id)
    }

    /// The innermost declaration of `name` visible at `pos` in `file`.
    pub fn find_local_decl(&self, file_id: FileId, name: &str, pos: u32) -> (r: Option<&LuaDecl>)
        requires
            self.wf(),
        ensures
            match r {
                Some(d) => is_nearest_decl(self.decls.map(), d.id, file_id, name@, pos) && *d
                    == self.decls.map()[d.id],
                None => forall|id: LuaDeclId| #[trigger]
                    self.decls.map().contains_key(id) ==> !visible_at(
                        self.decls.map()[id],
                        file_id,
                        name@,
                        pos,
                    ),
            },
    {
        let name_s = name.to_string();
        let mut best: Option<usize> = None;
        let mut i: usize = 0;
        let n = self.decls.entries.len();
        while i < n
            invariant
                self.wf(),
                n == self.decls.entries@.len(),
                i <= n,
                name_s@ == name@,
                match best {
                    Some(b) => b < i && visible_at(self.decls.entries@[b as int].1, file_id, name@, pos)
                        && forall|j: int|
                        0 <= j < i && visible_at(#[trigger] self.decls.entries@[j].1, file_id, name@, pos)
                            ==> self.decls.entries@[j].1.id.position
                            <= self.decls.entries@[b as int].1.id.position,
                    None => forall|j: int|
                        0 <= j < i ==> !visible_at(#[trigger] self.decls.entries@[j].1, file_id, name@, pos),
                },
            decreases n - i,
        {
            let d = &self.decls.entries[i].1;
            if d.id.file_id == file_id && d.name == name_s && d.id.position <= pos && pos < d.scope_end {
                match best {
                    Some(b) => {
                        if self.decls.entries[b].1.id.position <= d.id.position {
                            best = Some(i);
                        }
                    },
                    None => {
                        best = Some(i);
                    },
                }
            }
            i = i + 1;
        }
        match best {
            Some(b) => {
                proof {
                    lemma_pairs_map_at(self.decls.entries@, b as int);
                    let m = self.decls.map();
                    let bid = self.decls.entries@[b as int].0;
                    assert(m[bid] == self.decls.entries@[b as int].1);
                    assert(m[bid].id == bid);
                    assert forall|other: LuaDeclId| #[trigger]
                        m.contains_key(other) && visible_at(m[other], file_id, name@, pos)
                            implies m[other].id.position <= m[bid].id.position by {
                        let j = index_of_key(self.decls.entries@, other);
                        lemma_pairs_map_at(self.decls.entries@, j);
                    }
                }
                Some(&self.decls.entries[b].1)
            },
            None => {
                proof {
                    assert forall|id: LuaDeclId| #[trigger]
                        self.decls.map().contains_key(id) implies !visible_at(
                            self.decls.map()[id],
                            file_id,
                            name@,
                            pos,
                        ) by {
                        let j = index_of_key(self.decls.entries@, id);
                        lemma_pairs_map_at(self.decls.entries@, j);
                    }
                }
                None
            },
        }
    }
}

/// The declarations of each global name, in the order they were added.
pub struct GlobalIndex {
    pub globals: VecMap<String, Vec<LuaDeclId>>,
}

impl GlobalIndex {
    pub open spec fn wf(&self) -> bool {
        self.globals.wf()
    }

    pub open spec fn state(&self) -> Map<Seq<char>, Seq<LuaDeclId>> {
        seq_values(self.globals.map())
    }

    pub fn new() -> (r: Self)
        ensures
            r.wf(),
            r.state().is_empty(),
    {
        let r = GlobalIndex { globals: VecMap::new() };
        assert(r.state() =~= Map::empty());
        r
    }

    /// Adds `id` to the declarations of `name`, unless it is there already.
    pub fn add_global_decl(&mut self, name: &str, id: LuaDeclId)
        requires
            old(self).wf(),
        ensures
            final(self).wf(),
            final(self).state() == old(self).state().insert(
                name@,
                if old(self).state().contains_key(name@) {
                    if old(self).state()[name@].contains(id) {
                        old(self).state()[name@]
                    } else {
                        old(self).state()[name@].push(id)
                    }
                } else {
                    seq![id]
                },
            ),
    {
        let key = name.to_string();
        let mut list: Vec<LuaDeclId> = Vec::new();
        let mut present = false;
        match self.globals.get(&key) {
            Some(l) => {
                let mut i: usize = 0;
                while i < l.len()
                    invariant
                        i <= l@.len(),
                        list@ == l@.subrange(0, i as int),
                        present <==> exists|j: int| 0 <= j < i && l@[j] == id,
                    decreases l@.len() - i,
                {
                    if l[i] == id {
                        present = true;
                    }
                    list.push(l[i]);
                    assert(list@ =~= l@.subrange(0, i + 1));
                    i = i + 1;
                }
                assert(list@ =~= l@);
            },
            None => {},
        }
        if !present {
            list.push(id);
        }
        let ghost nl = list@;
        self.globals.insert(key, list);
        proof {
            if !old(self).state().contains_key(name@) {
                assert(nl =~= seq![id]);
            }
            assert(self.state() =~= old(self).state().insert(name@, nl));
        }
    }

    pub fn get_global_decl_ids(&self, name: &String) -> (r: Option<&Vec<LuaDeclId>>)
        requires
            self.wf(),
        ensures
            match r {
                Some(l) => self.state().contains_key(name@) && l@ == self.state()[name@],
                None => !self.state().contains_key(name@),
            },
    {
        self.globals.get(name)
    }
}

/// What the references to each declaration show.
pub struct ReferenceIndex {
    pub decl_refs: VecMap<LuaDeclId, DeclReference>,
}

impl ReferenceIndex {
    pub open spec fn wf(&self) -> bool {
        self.decl_refs.wf()
    }

    pub fn new() -> (r: Self)
        ensures
            r.wf(),
            r.decl_refs.map().is_empty(),
    {
        ReferenceIndex { decl_refs: VecMap::new() }
    }

    /// Records a reference to `decl_id`; `mutable` when it assigns the name.
    pub fn add_decl_reference(&mut self, decl_id: LuaDeclId, mutable: bool)
        requires
            old(self).wf(),
        ensures
            final(self).wf(),
            final(self).decl_refs.map() == old(self).decl_refs.map().insert(
                decl_id,
                DeclReference {
                    mutable: mutable || (old(self).decl_refs.map().contains_key(decl_id)
                        && old(self).decl_refs.map()[decl_id].mutable),
                },
            ),
    {
        let before = match self.decl_refs.get(&decl_id) {
            Some(r) => r.mutable,
            None => false,
        };
        self.decl_refs.insert(decl_id, DeclReference { mutable: mutable || before });
    }

    /// The references to `decl_id`, which are kept with its file.
    pub fn get_decl_references(&self, file_id: &FileId, decl_id: &LuaDeclId) -> (r: Option<&DeclReference>)
        requires
            self.wf(),
        ensures
            match r {
                Some(d) => decl_id.file_id == *file_id && self.decl_refs.map().contains_key(*decl_id)
                    && *d == self.decl_refs.map()[*decl_id],
                None => decl_id.file_id != *file_id || !self.decl_refs.map().contains_key(*decl_id),
            },
    {
        if decl_id.file_id != *file_id {
            return None;
        }
        self.decl_refs.get(decl_id)
    }
}

/// The types bound to owners, and the generic parameters of declared types.
pub struct TypeIndex {
    pub caches: VecMap<LuaTypeOwner, LuaTypeCache>,
    pub generic_params: VecMap<String, Vec<GenericParam>>,
}

impl TypeIndex {
    pub open spec fn wf(&self) -> bool {
        self.caches.wf() && self.generic_params.wf()
    }

    pub fn new() -> (r: Self)
        ensures
            r.wf(),
            r.caches.map().is_empty(),
            r.generic_params.map().is_empty(),
    {
        TypeIndex { caches: VecMap::new(), generic_params: VecMap::new() }
    }

    pub fn get_type_cache(&self, owner: &LuaTypeOwner) -> (r: Option<&LuaTypeCache>)
        requires
            self.wf(),
        ensures
            match r {
                Some(c) => self.caches.map().contains_key(*owner) && *c == self.caches.map()[*owner],
                None => !self.caches.map().contains_key(*owner),
            },
    {
        self.caches.get(owner)
    }

    /// Binds `cache` to `owner`, unless a type is bound to it already.
    pub fn bind_type(&mut self, owner: LuaTypeOwner, cache: LuaTypeCache)
        requires
            old(self).wf(),
        ensures
            final(self).wf(),
            final(self).generic_params == old(self).generic_params,
            final(self).caches.map() == if old(self).caches.map().contains_key(owner) {
                old(self).caches.map()
            } else {
                old(self).caches.map().insert(owner, cache)
            },
    {
        if self.caches.find(&owner).is_some() {
            return;
        }
        self.caches.insert(owner, cache);
    }

    pub fn add_generic_params(&mut self, name: String, params: Vec<GenericParam>)
        requires
            old(self).wf(),
        ensures
            final(self).wf(),
            final(self).caches == old(self).caches,
            final(self).generic_params.map() == old(self).generic_params.map().insert(name@, params),
    {
        self.generic_params.insert(name, params);
    }

    pub fn get_generic_params(&self, id: &LuaTypeDeclId) -> (r: Option<&Vec<GenericParam>>)
        requires
            self.wf(),
        ensures
            match r {
                Some(p) => self.generic_params.map().contains_key(id.name@) && *p
                    == self.generic_params.map()[id.name@],
                None => !self.generic_params.map().contains_key(id.name@),
            },
    {
        self.generic_params.get(&id.name)
    }
}

/// The signatures of the functions written in code.
pub struct SignatureIndex {
    pub sigs: VecMap<LuaSignatureId, LuaSignature>,
}

impl SignatureIndex {
    pub open spec fn wf(&self) -> bool {
        self.sigs.wf()
    }

    pub fn new() -> (r: Self)
        ensures
            r.wf(),
            r.sigs.map().is_empty(),
    {
        SignatureIndex { sigs: VecMap::new() }
    }

    pub fn add(&mut self, id: LuaSignatureId, sig: LuaSignature)
        requires
            old(self).wf(),
        ensures
            final(self).wf(),
            final(self).sigs.map() == old(self).sigs.map().insert(id, sig),
    {
        self.sigs.insert(id, sig);
    }

    pub fn get(&self, id: &LuaSignatureId) -> (r: Option<&LuaSignature>)
        requires
            self.wf(),
        ensures
            match r {
                Some(s) => self.sigs.map().contains_key(*id) && *s == self.sigs.map()[*id],
                None => !self.sigs.map().contains_key(*id),
            },
    {
        self.sigs.get(id)
    }
}

/// The super types each class is declared with (`---@class B: A`).
pub struct ClassIndex {
    pub supers: VecMap<String, Vec<LuaType>>,
}

impl ClassIndex {
    pub open spec fn wf(&self) -> bool {
        self.supers.wf()
    }

    pub fn new() -> (r: Self)
        ensures
            r.wf(),
            r.supers.map().is_empty(),
    {
        ClassIndex { supers: VecMap::new() }
    }

    /// Records the super types of the class `name`, in place of any recorded
    /// before.
    pub fn set_supers(&mut self, name: String, supers: Vec<LuaType>)
        requires
            old(self).wf(),
        ensures
            final(self).wf(),
            final(self).supers.map() == old(self).supers.map().insert(name@, supers),
    {
        self.supers.insert(name, supers);
    }

    /// The super types of the class `name`.
    pub fn get_supers(&self, name: &String) -> (r: Option<&Vec<LuaType>>)
        requires
            self.wf(),
        ensures
            match r {
                Some(v) => self.supers.map().contains_key(name@) && *v == self.supers.map()[name@],
                None => !self.supers.map().contains_key(name@),
            },
    {
        self.supers.get(name)
    }
}

/// The last assignment in `assigns` to the declaration `id` that stands
/// before `pos`: the value assigned.
pub open spec fn last_assign(assigns: Seq<(LuaDeclId, u32, LuaExpr)>, id: LuaDeclId, pos: u32) -> Option<LuaExpr>
    decreases assigns.len(),
{
    if assigns.len() == 0 {
        None
    } else if assigns.last().0 == id && assigns.last().1 < pos {
        Some(assigns.last().2)
    } else {
        last_assign(assigns.drop_last(), id, pos)
    }
}

/// The assignments to local declarations, in the order they were met: the
/// declaration, where the assignment stands, and the value assigned.
pub struct FlowIndex {
    pub assigns: Vec<(LuaDeclId, u32, LuaExpr)>,
}

impl FlowIndex {
    pub fn new() -> (r: Self)
        ensures
            r.assigns@.len() == 0,
    {
        FlowIndex { assigns: Vec::new() }
    }

    /// Records that `value` is assigned to `id` at `position`.
    pub fn add_assign(&mut self, id: LuaDeclId, position: u32, value: LuaExpr)
        ensures
            final(self).assigns@ == old(self).assigns@.push((id, position, value)),
    {
        self.assigns.push((id, position, value));
    }

    /// The value of the last assignment to `id` before `pos`.
    pub fn get_last_assign(&self, id: LuaDeclId, pos: u32) -> (r: Option<&LuaExpr>)
        ensures
            match r {
                Some(e) => last_assign(self.assigns@, id, pos) == Some(*e),
                None => last_assign(self.assigns@, id, pos) is None,
            },
    {
        let mut i = self.assigns.len();
        assert(self.assigns@.subrange(0, i as int) =~= self.assigns@);
        while i > 0
            invariant
                i <= self.assigns@.len(),
                last_assign(self.assigns@, id, pos) == last_assign(self.assigns@.subrange(0, i as int), id, pos),
            decreases i,
        {
            let ghost p = self.assigns@.subrange(0, i as int);
            assert(p.drop_last() =~= self.assigns@.subrange(0, i - 1));
            let a = &self.assigns[i - 1];
            if a.0 == id && a.1 < pos {
                return Some(&a.2);
            }
            i = i - 1;
        }
        None
    }
}

/// The whole database, seen as maps.
pub ghost struct DbState {
    pub decls: Map<LuaDeclId, LuaDecl>,
    pub globals: Map<Seq<char>, Seq<LuaDeclId>>,
    pub refs: Map<LuaDeclId, DeclReference>,
    pub types: Map<LuaTypeOwner, LuaTypeCache>,
    pub generic_params: Map<Seq<char>, Vec<GenericParam>>,
    pub member: MemberState,
    pub signatures: Map<LuaSignatureId, LuaSignature>,
    pub assigns: Seq<(LuaDeclId, u32, LuaExpr)>,
    pub supers: Map<Seq<char>, Vec<LuaType>>,
}

/// The analysis database: declarations, globals, references, types, members
/// and signatures.
pub struct DbIndex {
    pub decl_index: DeclIndex,
    pub global_index: GlobalIndex,
    pub reference_index: ReferenceIndex,
    pub type_index: TypeIndex,
    pub member_index: MemberIndex,
    pub signature_index: SignatureIndex,
    pub flow_index: FlowIndex,
    pub class_index: ClassIndex,
}

impl View for DbIndex {
    type V = DbState;

    open spec fn view(&self) -> DbState {
        DbState {
            decls: self.decl_index.decls.map(),
            globals: self.global_index.state(),
            refs: self.reference_index.decl_refs.map(),
            types: self.type_index.caches.map(),
            generic_params: self.type_index.generic_params.map(),
            member: self.member_index.state(),
            signatures: self.signature_index.sigs.map(),
            assigns: self.flow_index.assigns@,
            supers: self.class_index.supers.map(),
        }
    }
}

impl DbIndex {
    pub open spec fn wf(&self) -> bool {
        &&& self.decl_index.wf()
        &&& self.global_index.wf()
        &&& self.reference_index.wf()
        &&& self.type_index.wf()
        &&& self.member_index.wf()
        &&& self.signature_index.wf()
        &&& self.class_index.wf()
    }

    pub fn new() -> (r: Self)
        ensures
            r.wf(),
            r@.decls.is_empty(),
            r@.globals.is_empty(),
            r@.types.is_empty(),
            r@.member.members.is_empty(),
            r@.member.owner_of.is_empty(),
            r@.member.owner_members.is_empty(),
            r@.member.file_owners.is_empty(),
            r@.refs.is_empty(),
            r@.generic_params.is_empty(),
            r@.signatures.is_empty(),
            r@.assigns.len() == 0,
            r@.supers.is_empty(),
    {
        DbIndex {
            decl_index: DeclIndex::new(),
            global_index: GlobalIndex::new(),
            reference_index: ReferenceIndex::new(),
            type_index: TypeIndex::new(),
            member_index: MemberIndex::new(),
            signature_index: SignatureIndex::new(),
            flow_index: FlowIndex::new(),
            class_index: ClassIndex::new(),
        }
    }

    pub fn get_decl_index(&self) -> (r: &DeclIndex)
        ensures
            *r == self.decl_index,
    {
        &self.decl_index
    }

    pub fn get_global_index(&self) -> (r: &GlobalIndex)
        ensures
            *r == self.global_index,
    {
        &self.global_index
    }

    pub fn get_reference_index(&self) -> (r: &ReferenceIndex)
        ensures
            *r == self.reference_index,
    {
        &self.reference_index
    }

    pub fn get_type_index(&self) -> (r: &TypeIndex)
        ensures
            *r == self.type_index,
    {
        &self.type_index
    }

    pub fn get_member_index(&self) -> (r: &MemberIndex)
        ensures
            *r == self.member_index,
    {
        &self.member_index
    }

    pub fn get_class_index(&self) -> (r: &ClassIndex)
        ensures
            *r == self.class_index,
    {
        &self.class_index
    }

    pub fn get_flow_index(&self) -> (r: &FlowIndex)
        ensures
            *r == self.flow_index,
    {
        &self.flow_index
    }

    pub fn get_signature_index(&self) -> (r: &SignatureIndex)
        ensures
            *r == self.signature_index,
    {
        &self.signature_index
    }
}

} // verus!
