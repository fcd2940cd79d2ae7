# emmylua_members

Type binding, member ownership and generic-function instantiation for an
EmmyLua-style analysis of Lua code, written in Verus and proved against its
specifications.

## Layout

- `ids`, `types`, `vec_map`, `db`: identifiers, the type language and the
  analysis database (declarations, globals, references, bound types, members,
  signatures), each index viewed as maps (`DbState`).
- `common`: binding a type to a declaration or member (`bind_type`), merging
  table literals into declared classes, adding members, and the doc-annotated
  global test used when members are declared.
- `migrate`: moving the members recorded under a global access path to the
  owner that the global's type resolves to, once that type is known.
- `laws`: proof functions stating properties that span several operations
  (a bound type is never replaced, adding a member is idempotent, global
  members reach the class whichever declaration is typed first, ...).
- `func_generic`, `substitutor`, `tpl_pattern`, `generic_usage`, `tpl_set`:
  instantiation of generic doc functions at a call site: explicit template
  types, inference from the arguments, `self`, and argument-name/string
  templates.
- `syntax`, `lexer`, `parser`, `analysis`, `workspace`: a small Lua subset with
  EmmyLua doc comments, the declaration and inference passes built on the
  library, and an in-memory workspace used by the scenario tests.

The outside crates are `hashbrown` (the set of templates to infer) and
`internment` (interned template names), each reached through a small trusted
wrapper whose contract is stated in `tpl_set` and `types`.
