use vstd::prelude::*;

verus! {

/// A file of the workspace.
#[derive(Clone, Copy, PartialEq, Eq, Structural, Debug, Hash)]
pub struct FileId {
    pub id: u32,
}

/// A range of character offsets `[start, end)` inside one file.
#[derive(Clone, Copy, PartialEq, Eq, Structural, Debug, Hash)]
pub struct TextRange {
    pub start: u32,
    pub end: u32,
}

/// A value tagged with the file it comes from.
#[derive(Clone, Copy, PartialEq, Eq, Structural, Debug, Hash)]
pub struct InFiled<N> {
    pub file_id: FileId,
    pub value: N,
}

impl<N> InFiled<N> {
    pub fn new(file_id: FileId, value: N) -> (r: Self)
        ensures
            r.file_id == file_id,
            r.value == value,
    {
        InFiled { file_id, value }
    }
}

/// A declaration, named by the file and the offset of its name.
#[derive(Clone, Copy, PartialEq, Eq, Structural, Debug, Hash)]
pub struct LuaDeclId {
    pub file_id: FileId,
    pub position: u32,
}

/// A member (a field or method), named by the file and the offset of its key.
#[derive(Clone, Copy, PartialEq, Eq, Structural, Debug, Hash)]
pub struct LuaMemberId {
    pub file_id: FileId,
    pub position: u32,
}

/// A function signature, named by the file and the offset of its closure.
#[derive(Clone, Copy, PartialEq, Eq, Structural, Debug, Hash)]
pub struct LuaSignatureId {
    pub file_id: FileId,
    pub position: u32,
}

/// Anything a type can be bound to.
#[derive(Clone, Copy, PartialEq, Eq, Structural, Debug, Hash)]
pub enum LuaTypeOwner {
    Decl(LuaDeclId),
    Member(LuaMemberId),
    SyntaxId(InFiled<TextRange>),
}

impl LuaTypeOwner {
    pub fn from_decl(id: LuaDeclId) -> (r: Self)
        ensures
            r == LuaTypeOwner::Decl(id),
    {
        LuaTypeOwner::Decl(id)
    }

    pub fn from_member(id: LuaMemberId) -> (r: Self)
        ensures
            r == LuaTypeOwner::Member(id),
    {
        LuaTypeOwner::Member(id)
    }
}

/// The name of a declared type (a class, alias or enum).
#[derive(Debug, Hash, PartialEq, Eq)]
pub struct LuaTypeDeclId {
    pub name: String,
}

impl Clone for LuaTypeDeclId {
    fn clone(&self) -> (r: Self)
        ensures
            r == *self,
    {
        LuaTypeDeclId { name: self.name.clone() }
    }
}

impl LuaTypeDeclId {
    /// The type declared globally under `name`.
    pub fn global(name: &str) -> (r: Self)
        ensures
            r.name@ == name@,
    {
        LuaTypeDeclId { name: name.to_string() }
    }

    pub fn get_name(&self) -> (r: &str)
        ensures
            r@ == self.name@,
    {
        self.name.as_str()
    }
}

/// The dotted access path of a global, such as `G` or `G.a`.
#[derive(Debug, Hash, PartialEq, Eq)]
pub struct GlobalId {
    pub path: String,
}

impl Clone for GlobalId {
    fn clone(&self) -> (r: Self)
        ensures
            r == *self,
    {
        GlobalId { path: self.path.clone() }
    }
}

impl GlobalId {
    pub fn new(path: &str) -> (r: Self)
        ensures
            r.path@ == path@,
    {
        GlobalId { path: path.to_string() }
    }
}

/// Who owns a member.
#[derive(Debug, Hash, PartialEq, Eq)]
pub enum LuaMemberOwner {
    /// Not resolved yet.
    LocalUnresolve,
    /// A declared type (class).
    Type(LuaTypeDeclId),
    /// A table literal, named by its range.
    Element(InFiled<TextRange>),
    /// A global access path whose type is not known yet.
    GlobalPath(GlobalId),
}

/// What identifies a member owner: two owners with the same key are the same
/// owner.
pub enum OwnerKey {
    LocalUnresolve,
    Type(Seq<char>),
    Element(InFiled<TextRange>),
    GlobalPath(Seq<char>),
}

impl View for LuaMemberOwner {
    type V = OwnerKey;

    open spec fn view(&self) -> OwnerKey {
        match self {
            LuaMemberOwner::LocalUnresolve => OwnerKey::LocalUnresolve,
            LuaMemberOwner::Type(id) => OwnerKey::Type(id.name@),
            LuaMemberOwner::Element(r) => OwnerKey::Element(*r),
            LuaMemberOwner::GlobalPath(g) => OwnerKey::GlobalPath(g.path@),
        }
    }
}

impl Clone for LuaMemberOwner {
    fn clone(&self) -> (r: Self)
        ensures
            r == *self,
    {
        match self {
            LuaMemberOwner::LocalUnresolve => LuaMemberOwner::LocalUnresolve,
            LuaMemberOwner::Type(id) => LuaMemberOwner::Type(id.clone()),
            LuaMemberOwner::Element(r) => LuaMemberOwner::Element(*r),
            LuaMemberOwner::GlobalPath(g) => LuaMemberOwner::GlobalPath(g.clone()),
        }
    }
}

/// Equality of keys, decided in executable code.
pub trait KeyEq: View + Sized {
    fn key_eq(&self, other: &Self) -> (r: bool)
        ensures
            r == (self@ == other@),
    ;
}

impl KeyEq for LuaMemberOwner {
    fn key_eq(&self, other: &Self) -> (r: bool) {
        match (self, other) {
            (LuaMemberOwner::LocalUnresolve, LuaMemberOwner::LocalUnresolve) => true,
            (LuaMemberOwner::Type(a), LuaMemberOwner::Type(b)) => a.name == b.name,
            (LuaMemberOwner::Element(a), LuaMemberOwner::Element(b)) => *a == *b,
            (LuaMemberOwner::GlobalPath(a), LuaMemberOwner::GlobalPath(b)) => a.path == b.path,
            _ => false,
        }
    }
}

impl KeyEq for String {
    fn key_eq(&self, other: &Self) -> (r: bool) {
        *self == *other
    }
}

impl View for LuaDeclId {
    type V = LuaDeclId;

    open spec fn view(&self) -> LuaDeclId {
        *self
    }
}

impl KeyEq for LuaDeclId {
    fn key_eq(&self, other: &Self) -> (r: bool) {
        *self == *other
    }
}

impl View for LuaMemberId {
    type V = LuaMemberId;

    open spec fn view(&self) -> LuaMemberId {
        *self
    }
}

impl KeyEq for LuaMemberId {
    fn key_eq(&self, other: &Self) -> (r: bool) {
        *self == *other
    }
}

impl View for LuaSignatureId {
    type V = LuaSignatureId;

    open spec fn view(&self) -> LuaSignatureId {
        *self
    }
}

impl KeyEq for LuaSignatureId {
    fn key_eq(&self, other: &Self) -> (r: bool) {
        *self == *other
    }
}

impl View for LuaTypeOwner {
    type V = LuaTypeOwner;

    open spec fn view(&self) -> LuaTypeOwner {
        *self
    }
}

impl KeyEq for LuaTypeOwner {
    fn key_eq(&self, other: &Self) -> (r: bool) {
        *self == *other
    }
}

} // verus!
