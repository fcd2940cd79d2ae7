use emmylua_members::analysis::intersect;
use emmylua_members::types::{LuaType, LuaUnionType};
use emmylua_members::workspace::VirtualWorkspace;

#[test]
fn test_object_return_field() {
    let mut ws = VirtualWorkspace::new();
    ws.def(
        r#"
        ---@return { a: string, b: integer }
        local function make() end

        A = make().a
        B = make().b
        C = make().c
        "#,
    );
    assert_eq!(ws.expr_ty("A"), LuaType::String);
    assert_eq!(ws.expr_ty("B"), LuaType::Integer);
    assert_eq!(ws.expr_ty("C"), LuaType::Nil);
}

#[test]
fn test_intersection_member_narrows() {
    let mut ws = VirtualWorkspace::new();
    ws.def(
        r#"
        ---@return {a: integer} & {a: number, b: string}
        local function make() end

        A = make().a
        B = make().b
        "#,
    );
    assert_eq!(ws.expr_ty("A"), LuaType::Integer);
    assert_eq!(ws.expr_ty("B"), LuaType::String);
}

#[test]
fn test_intersection_with_class() {
    let mut ws = VirtualWorkspace::new();
    ws.def(
        r#"
        ---@class P
        ---@field x number
        ---@field y string

        ---@return P & {x: integer}
        local function make() end

        X = make().x
        Y = make().y
        "#,
    );
    assert_eq!(ws.expr_ty("X"), LuaType::Integer);
    assert_eq!(ws.expr_ty("Y"), LuaType::String);
}

#[test]
fn test_union_of_objects() {
    let mut ws = VirtualWorkspace::new();
    ws.def(
        r#"
        ---@return {a: string} | {a: integer}
        local function make() end

        A = make().a
        "#,
    );
    let expected =
        LuaType::Union(LuaUnionType::from_vec(vec![LuaType::String, LuaType::Integer]).into());
    assert_eq!(ws.expr_ty("A"), expected);
}

#[test]
fn test_intersect_rules() {
    assert_eq!(intersect(&LuaType::Number, &LuaType::String), LuaType::Never);
    assert_eq!(intersect(&LuaType::Number, &LuaType::Integer), LuaType::Integer);
    assert_eq!(intersect(&LuaType::Any, &LuaType::String), LuaType::String);
    assert_eq!(intersect(&LuaType::Boolean, &LuaType::Unknown), LuaType::Boolean);
    assert_eq!(
        intersect(&LuaType::StringConst("a".to_string()), &LuaType::String),
        LuaType::StringConst("a".to_string())
    );
    assert_eq!(
        intersect(&LuaType::IntegerConst(1), &LuaType::IntegerConst(2)),
        LuaType::Never
    );
}

#[test]
fn test_class_super_member() {
    let mut ws = VirtualWorkspace::new();
    ws.def(
        r#"
        ---@class Animal
        ---@field name string

        ---@class Dog: Animal
        ---@field bark integer

        ---@type Dog
        local d

        A = d.name
        B = d.bark
        C = d.tail
        "#,
    );
    assert_eq!(ws.expr_ty("A"), LuaType::String);
    assert_eq!(ws.expr_ty("B"), LuaType::Integer);
    assert_eq!(ws.expr_ty("C"), LuaType::Nil);
}

#[test]
fn test_generic_field_takes_argument() {
    let mut ws = VirtualWorkspace::new();
    ws.def(
        r#"
        ---@class Box<T>
        ---@field value T
        ---@field size integer

        ---@type Box<string>
        local b

        V = b.value
        S = b.size
        "#,
    );
    assert_eq!(ws.expr_ty("V"), LuaType::String);
    assert_eq!(ws.expr_ty("S"), LuaType::Integer);
}

#[test]
fn test_object_field_with_union_type() {
    let mut ws = VirtualWorkspace::new();
    ws.def(
        r#"
        ---@return { a: string|integer, b: Box<integer> }
        local function make() end

        A = make().a
        "#,
    );
    let expected =
        LuaType::Union(LuaUnionType::from_vec(vec![LuaType::String, LuaType::Integer]).into());
    assert_eq!(ws.expr_ty("A"), expected);
}
