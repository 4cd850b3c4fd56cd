//! Lowering of case-clause guards to F# `when` clauses, one test per
//! guard shape, each checking the full rendered module text.

use fscodegen::ast::ArgNames;
use fscodegen::ast::Assignment;
use fscodegen::ast::ClauseGuard;
use fscodegen::ast::Constant;
use fscodegen::ast::CustomType;
use fscodegen::ast::Definition;
use fscodegen::ast::Deprecation;
use fscodegen::ast::FunctionDef;
use fscodegen::ast::Module;
use fscodegen::ast::ModuleConstant;
use fscodegen::ast::Pattern;
use fscodegen::ast::Publicity;
use fscodegen::ast::RecordConstructor;
use fscodegen::ast::RecordConstructorArg;
use fscodegen::ast::Statement;
use fscodegen::ast::Type;
use fscodegen::ast::TypedArg;
use fscodegen::ast::TypedClause;
use fscodegen::ast::TypedExpr;
use fscodegen::ast::ValueKind;
use fscodegen::ast::FieldMap;
use fscodegen::ast::FieldMapEntry;
use fscodegen::fsharp::Generator;

fn s(x: &str) -> String {
    x.to_string()
}

fn named(n: &str) -> Type {
    Type::Named { name: s(n), args: vec![] }
}

fn tuple_t(elems: Vec<Type>) -> Type {
    Type::Tuple { elems }
}

fn list_t(e: Type) -> Type {
    Type::Named { name: s("List"), args: vec![e] }
}

fn arg(n: &str, t: Type) -> TypedArg {
    TypedArg { names: ArgNames::Named { name: s(n) }, typ: t }
}

fn var(n: &str) -> TypedExpr {
    TypedExpr::Var { name: s(n), constructor: ValueKind::Other }
}

fn int_e(v: &str) -> TypedExpr {
    TypedExpr::IntLit { value: s(v) }
}

fn str_e(v: &str) -> TypedExpr {
    TypedExpr::StringLit { value: s(v) }
}

fn gv(n: &str) -> ClauseGuard {
    ClauseGuard::Var { name: s(n) }
}

fn geq(l: ClauseGuard, r: ClauseGuard) -> ClauseGuard {
    ClauseGuard::Equals { left: Box::new(l), right: Box::new(r) }
}

fn gne(l: ClauseGuard, r: ClauseGuard) -> ClauseGuard {
    ClauseGuard::NotEquals { left: Box::new(l), right: Box::new(r) }
}

fn gcint(v: &str) -> ClauseGuard {
    ClauseGuard::Constant(Constant::IntLit { value: s(v) })
}

fn pvar(n: &str) -> Pattern {
    Pattern::Variable { name: s(n) }
}

fn pint(v: &str) -> Pattern {
    Pattern::IntLit { value: s(v) }
}

fn pdis() -> Pattern {
    Pattern::Discard { name: s("_") }
}

fn ptuple(elems: Vec<Pattern>) -> Pattern {
    Pattern::Tuple { elems }
}

fn plist(elements: Vec<Pattern>) -> Pattern {
    Pattern::List { elements, tail: None }
}

fn clause(
    pats: Vec<Pattern>,
    alts: Vec<Vec<Pattern>>,
    guard: Option<ClauseGuard>,
    then: TypedExpr,
) -> TypedClause {
    TypedClause { pattern: pats, alternative_patterns: alts, guard, consequence: then }
}

fn case_e(subjects: Vec<TypedExpr>, clauses: Vec<TypedClause>) -> TypedExpr {
    TypedExpr::Case { subjects, clauses }
}

fn assign(p: Pattern, value: TypedExpr) -> Statement {
    Statement::Assignment(Assignment { pattern: p, value: Box::new(value) })
}

fn function(
    name: &str,
    publicity: Publicity,
    args: Vec<TypedArg>,
    body: Vec<Statement>,
    ret: Type,
) -> Definition {
    Definition::FunctionDefn(FunctionDef {
        name: Some(s(name)),
        arguments: args,
        body,
        return_type: ret,
        publicity,
        documentation: None,
        deprecation: Deprecation::NotDeprecated,
        external_fsharp: None,
    })
}

fn go_fn(args: Vec<TypedArg>, body: Vec<Statement>, ret: Type) -> Definition {
    function("go", Publicity::Public, args, body, ret)
}

fn modl(defs: Vec<Definition>) -> Module {
    Module { name: s("my/pkg"), definitions: defs, values: vec![] }
}

fn render(m: Module) -> String {
    let mut generator = Generator::new(m);
    generator.render().unwrap()
}

fn import(name: &str) -> Definition {
    Definition::Import { module: s(name) }
}

fn int_const(name: &str, value: &str) -> Definition {
    Definition::ModuleConstantDef(ModuleConstant {
        name: s(name),
        publicity: Publicity::Public,
        value: Box::new(Constant::IntLit { value: s(value) }),
    })
}

fn record_type_def(name: &str, fields: Vec<(&str, Type)>) -> Definition {
    Definition::CustomTypeDef(CustomType {
        name: s(name),
        publicity: Publicity::Public,
        opaque: false,
        typed_parameters: vec![],
        constructors: vec![RecordConstructor {
            name: s(name),
            arguments: fields
                .into_iter()
                .map(|(l, t)| RecordConstructorArg { label: Some(s(l)), typ: t })
                .collect(),
        }],
    })
}

#[test]
fn referencing_pattern_var() {
    let m = modl(vec![go_fn(
        vec![arg("xs", tuple_t(vec![named("Bool")]))],
        vec![Statement::Expression(case_e(
            vec![var("xs")],
            vec![
                clause(vec![ptuple(vec![pvar("x")])], vec![], Some(gv("x")), int_e("1")),
                clause(vec![pdis()], vec![], None, int_e("0")),
            ],
        ))],
        named("Int"),
    )]);
    assert_eq!(
        render(m),
        "module rec my.pkg\nlet go (xs: (bool)) = begin\n    match xs with\n    | (x) when x ->\n        1\n    | _ ->\n        0\nend"
    );
}

#[test]
fn rebound_var() {
    let m = modl(vec![go_fn(
        vec![],
        vec![
            assign(pvar("x"), var("False")),
            assign(pvar("x"), var("True")),
            Statement::Expression(case_e(
                vec![var("x")],
                vec![
                    clause(vec![pdis()], vec![], Some(gv("x")), int_e("1")),
                    clause(vec![pdis()], vec![], None, int_e("0")),
                ],
            )),
        ],
        named("Int"),
    )]);
    assert_eq!(
        render(m),
        "module rec my.pkg\nlet go () = begin\n    let x = false\n    let x = true\n    match x with\n    | _ when x ->\n        1\n    | _ ->\n        0\nend"
    );
}

#[test]
fn keyword_var() {
    let m = modl(vec![
        int_const("function", "5"),
        int_const("do", "10"),
        go_fn(
            vec![],
            vec![
                assign(pvar("class"), int_e("5")),
                assign(pvar("while"), int_e("10")),
                assign(pvar("var"), int_e("7")),
                Statement::Expression(case_e(
                    vec![var("var")],
                    vec![
                        clause(vec![pdis()], vec![], Some(geq(gv("class"), gv("while"))), var("True")),
                        clause(
                            vec![pdis()],
                            vec![],
                            Some(geq(
                                ClauseGuard::Constant(Constant::List {
                                    elements: vec![Constant::Var { module: None, name: s("class") }],
                                }),
                                ClauseGuard::Constant(Constant::List {
                                    elements: vec![Constant::IntLit { value: s("5") }],
                                }),
                            )),
                            var("True"),
                        ),
                        clause(
                            vec![pvar("function")],
                            vec![],
                            Some(geq(
                                ClauseGuard::Constant(Constant::Tuple {
                                    elements: vec![Constant::Var { module: None, name: s("function") }],
                                }),
                                ClauseGuard::Constant(Constant::Tuple {
                                    elements: vec![Constant::IntLit { value: s("5") }],
                                }),
                            )),
                            var("False"),
                        ),
                        clause(vec![pdis()], vec![], Some(geq(gv("do"), gv("function"))), var("True")),
                        clause(
                            vec![pvar("while")],
                            vec![],
                            Some(ClauseGuard::GtInt {
                                left: Box::new(gv("while")),
                                right: Box::new(gcint("5")),
                            }),
                            var("False"),
                        ),
                        clause(vec![pvar("class")], vec![], None, var("False")),
                    ],
                )),
            ],
            named("Bool"),
        ),
    ]);
    assert_eq!(
        render(m),
        "module rec my.pkg\n[<Literal>]\nlet function = 5\n[<Literal>]\nlet do = 10\nlet go () = begin\n    let class = 5\n    let while = 10\n    let var = 7\n    match var with\n    | _ when class = while ->\n        true\n    | _ when [``class``] = [5] ->\n        true\n    | function when (``function``) = (5) ->\n        false\n    | _ when do = function ->\n        true\n    | while when while > 5 ->\n        false\n    | class ->\n        false\nend"
    );
}

#[test]
fn operator_wrapping_right() {
    let m = modl(vec![go_fn(
        vec![
            arg("xs", tuple_t(vec![named("Bool")])),
            arg("y", named("Bool")),
            arg("z", named("Bool")),
        ],
        vec![Statement::Expression(case_e(
            vec![var("xs")],
            vec![
                clause(
                    vec![ptuple(vec![pvar("x")])],
                    vec![],
                    Some(geq(gv("x"), geq(gv("y"), gv("z")))),
                    int_e("1"),
                ),
                clause(vec![pdis()], vec![], None, int_e("0")),
            ],
        ))],
        named("Int"),
    )]);
    assert_eq!(
        render(m),
        "module rec my.pkg\nlet go (xs: (bool)) (y: bool) (z: bool) = begin\n    match xs with\n    | (x) when x = (y = z) ->\n        1\n    | _ ->\n        0\nend"
    );
}

#[test]
fn operator_wrapping_left() {
    let m = modl(vec![go_fn(
        vec![
            arg("xs", tuple_t(vec![named("Bool")])),
            arg("y", named("Bool")),
            arg("z", named("Bool")),
        ],
        vec![Statement::Expression(case_e(
            vec![var("xs")],
            vec![
                clause(
                    vec![ptuple(vec![pvar("x")])],
                    vec![],
                    Some(geq(geq(gv("x"), gv("y")), gv("z"))),
                    int_e("1"),
                ),
                clause(vec![pdis()], vec![], None, int_e("0")),
            ],
        ))],
        named("Int"),
    )]);
    assert_eq!(
        render(m),
        "module rec my.pkg\nlet go (xs: (bool)) (y: bool) (z: bool) = begin\n    match xs with\n    | (x) when (x = y) = z ->\n        1\n    | _ ->\n        0\nend"
    );
}

#[test]
fn eq_scalar() {
    let m = modl(vec![go_fn(
        vec![arg("xs", tuple_t(vec![named("Int")])), arg("y", named("Int"))],
        vec![Statement::Expression(case_e(
            vec![var("xs")],
            vec![
                clause(vec![ptuple(vec![pvar("x")])], vec![], Some(geq(gv("x"), gv("y"))), int_e("1")),
                clause(vec![pdis()], vec![], None, int_e("0")),
            ],
        ))],
        named("Int"),
    )]);
    assert_eq!(
        render(m),
        "module rec my.pkg\nlet go (xs: (int)) (y: int) = begin\n    match xs with\n    | (x) when x = y ->\n        1\n    | _ ->\n        0\nend"
    );
}

#[test]
fn not_eq_scalar() {
    let m = modl(vec![go_fn(
        vec![arg("xs", tuple_t(vec![named("Int")])), arg("y", named("Int"))],
        vec![Statement::Expression(case_e(
            vec![var("xs")],
            vec![
                clause(vec![ptuple(vec![pvar("x")])], vec![], Some(gne(gv("x"), gv("y"))), int_e("1")),
                clause(vec![pdis()], vec![], None, int_e("0")),
            ],
        ))],
        named("Int"),
    )]);
    assert_eq!(
        render(m),
        "module rec my.pkg\nlet go (xs: (int)) (y: int) = begin\n    match xs with\n    | (x) when x <> y ->\n        1\n    | _ ->\n        0\nend"
    );
}

#[test]
fn tuple_index() {
    let m = modl(vec![go_fn(
        vec![
            arg("x", Type::Unbound { id: 0 }),
            arg("xs", tuple_t(vec![named("Bool"), named("Bool"), named("Bool")])),
        ],
        vec![Statement::Expression(case_e(
            vec![var("x")],
            vec![
                clause(
                    vec![pdis()],
                    vec![],
                    Some(ClauseGuard::TupleIndex { tuple: Box::new(gv("xs")), index: 2 }),
                    int_e("1"),
                ),
                clause(vec![pdis()], vec![], None, int_e("0")),
            ],
        ))],
        named("Int"),
    )]);
    assert_eq!(
        render(m),
        "module rec my.pkg\nlet go (x: 'u0) (xs: (bool; bool; bool)) = begin\n    match x with\n    | _ when // TODO: Implement other guard types ->\n        1\n    | _ ->\n        0\nend"
    );
}

#[test]
fn not_eq_complex() {
    let m = modl(vec![go_fn(
        vec![
            arg("xs", tuple_t(vec![named("Int")])),
            arg("y", tuple_t(vec![named("Int")])),
        ],
        vec![Statement::Expression(case_e(
            vec![var("xs")],
            vec![
                clause(vec![ptuple(vec![pvar("x")])], vec![], Some(gne(gv("xs"), gv("y"))), var("x")),
                clause(vec![pdis()], vec![], None, int_e("0")),
            ],
        ))],
        named("Int"),
    )]);
    assert_eq!(
        render(m),
        "module rec my.pkg\nlet go (xs: (int)) (y: (int)) = begin\n    match xs with\n    | (x) when xs <> y ->\n        x\n    | _ ->\n        0\nend"
    );
}

#[test]
fn eq_complex() {
    let m = modl(vec![go_fn(
        vec![
            arg("xs", tuple_t(vec![named("Int")])),
            arg("y", tuple_t(vec![named("Int")])),
        ],
        vec![Statement::Expression(case_e(
            vec![var("xs")],
            vec![
                clause(vec![ptuple(vec![pvar("x")])], vec![], Some(geq(gv("xs"), gv("y"))), var("x")),
                clause(vec![pdis()], vec![], None, int_e("0")),
            ],
        ))],
        named("Int"),
    )]);
    assert_eq!(
        render(m),
        "module rec my.pkg\nlet go (xs: (int)) (y: (int)) = begin\n    match xs with\n    | (x) when xs = y ->\n        x\n    | _ ->\n        0\nend"
    );
}

#[test]
fn constant() {
    let m = modl(vec![go_fn(
        vec![arg("xs", tuple_t(vec![named("Int")]))],
        vec![Statement::Expression(case_e(
            vec![var("xs")],
            vec![
                clause(vec![ptuple(vec![pvar("x")])], vec![], Some(geq(gv("x"), gcint("1"))), var("x")),
                clause(vec![pdis()], vec![], None, int_e("0")),
            ],
        ))],
        named("Int"),
    )]);
    assert_eq!(
        render(m),
        "module rec my.pkg\nlet go (xs: (int)) = begin\n    match xs with\n    | (x) when x = 1 ->\n        x\n    | _ ->\n        0\nend"
    );
}

#[test]
fn alternative_patterns() {
    let m = modl(vec![go_fn(
        vec![arg("xs", named("Int"))],
        vec![Statement::Expression(case_e(
            vec![var("xs")],
            vec![
                clause(vec![pint("1")], vec![vec![pint("2")]], None, int_e("0")),
                clause(vec![pdis()], vec![], None, int_e("1")),
            ],
        ))],
        named("Int"),
    )]);
    assert_eq!(
        render(m),
        "module rec my.pkg\nlet go (xs: int) = begin\n    match xs with\n    | 1 | 2 ->\n        0\n    | _ ->\n        1\nend"
    );
}

#[test]
fn alternative_patterns_list() {
    let m = modl(vec![go_fn(
        vec![arg("xs", list_t(named("Int")))],
        vec![Statement::Expression(case_e(
            vec![var("xs")],
            vec![
                clause(
                    vec![plist(vec![pint("1")])],
                    vec![vec![plist(vec![pint("1"), pint("2")])]],
                    None,
                    int_e("0"),
                ),
                clause(vec![pdis()], vec![], None, int_e("1")),
            ],
        ))],
        named("Int"),
    )]);
    assert_eq!(
        render(m),
        "module rec my.pkg\nlet go (xs: list<int>) = begin\n    match xs with\n    | [1] | [1; 2] ->\n        0\n    | _ ->\n        1\nend"
    );
}

#[test]
fn alternative_patterns_assignment() {
    let m = modl(vec![go_fn(
        vec![arg("xs", list_t(named("Int")))],
        vec![Statement::Expression(case_e(
            vec![var("xs")],
            vec![
                clause(
                    vec![plist(vec![pvar("x")])],
                    vec![vec![plist(vec![pdis(), pvar("x")])]],
                    None,
                    var("x"),
                ),
                clause(vec![pdis()], vec![], None, int_e("1")),
            ],
        ))],
        named("Int"),
    )]);
    assert_eq!(
        render(m),
        "module rec my.pkg\nlet go (xs: list<int>) = begin\n    match xs with\n    | [x] | [_; x] ->\n        x\n    | _ ->\n        1\nend"
    );
}

#[test]
fn alternative_patterns_guard() {
    let m = modl(vec![go_fn(
        vec![arg("xs", list_t(named("Int")))],
        vec![Statement::Expression(case_e(
            vec![var("xs")],
            vec![
                clause(
                    vec![plist(vec![pvar("x")])],
                    vec![vec![plist(vec![pdis(), pvar("x")])]],
                    Some(geq(gv("x"), gcint("1"))),
                    var("x"),
                ),
                clause(vec![pdis()], vec![], None, int_e("0")),
            ],
        ))],
        named("Int"),
    )]);
    assert_eq!(
        render(m),
        "module rec my.pkg\nlet go (xs: list<int>) = begin\n    match xs with\n    | [x] | [_; x] when x = 1 ->\n        x\n    | _ ->\n        0\nend"
    );
}

#[test]
fn field_access() {
    let person_fm = FieldMap {
        fields: vec![
            FieldMapEntry { label: s("username"), position: 0 },
            FieldMapEntry { label: s("name"), position: 1 },
            FieldMapEntry { label: s("age"), position: 2 },
        ],
    };
    let person_ctor = TypedExpr::Var {
        name: s("Person"),
        constructor: ValueKind::RecordConstructor {
            name: s("Person"),
            arity: 3,
            field_map: Some(person_fm),
            constructors_count: 1,
        },
    };
    let m = modl(vec![
        record_type_def(
            "Person",
            vec![("username", named("String")), ("name", named("String")), ("age", named("Int"))],
        ),
        go_fn(
            vec![],
            vec![
                assign(pvar("given_name"), str_e("jack")),
                assign(
                    pvar("raiden"),
                    TypedExpr::Call {
                        fun: Box::new(person_ctor),
                        args: vec![
                            fscodegen::ast::CallArgExpr { label: None, value: str_e("raiden") },
                            fscodegen::ast::CallArgExpr { label: None, value: str_e("jack") },
                            fscodegen::ast::CallArgExpr { label: None, value: int_e("31") },
                        ],
                    },
                ),
                Statement::Expression(case_e(
                    vec![var("given_name")],
                    vec![
                        clause(
                            vec![pvar("name")],
                            vec![],
                            Some(geq(
                                gv("name"),
                                ClauseGuard::FieldAccess {
                                    container: Box::new(gv("raiden")),
                                    label: s("name"),
                                },
                            )),
                            str_e("It's jack"),
                        ),
                        clause(vec![pdis()], vec![], None, str_e("It's not jack")),
                    ],
                )),
            ],
            named("String"),
        ),
    ]);
    assert_eq!(
        render(m),
        "module rec my.pkg\ntype Person = { username: string; name: string; age: int }\nlet go () = begin\n    let given_name = \"jack\"\n    let raiden = { username = \"raiden\"; name = \"jack\"; age = 31 }\n    match given_name with\n    | name when name = // TODO: Implement other guard types ->\n        \"It's jack\"\n    | _ ->\n        \"It's not jack\"\nend"
    );
}

#[test]
fn nested_record_access() {
    let m = modl(vec![
        record_type_def("A", vec![("b", named("B"))]),
        record_type_def("B", vec![("c", named("C"))]),
        record_type_def("C", vec![("d", named("Bool"))]),
        function(
            "a",
            Publicity::Public,
            vec![arg("a", named("A"))],
            vec![Statement::Expression(case_e(
                vec![var("a")],
                vec![
                    clause(
                        vec![pdis()],
                        vec![],
                        Some(ClauseGuard::FieldAccess {
                            container: Box::new(ClauseGuard::FieldAccess {
                                container: Box::new(ClauseGuard::FieldAccess {
                                    container: Box::new(gv("a")),
                                    label: s("b"),
                                }),
                                label: s("c"),
                            }),
                            label: s("d"),
                        }),
                        int_e("1"),
                    ),
                    clause(vec![pdis()], vec![], None, int_e("0")),
                ],
            ))],
            named("Int"),
        ),
    ]);
    assert_eq!(
        render(m),
        "module rec my.pkg\ntype A = { b: B }\ntype B = { c: C }\ntype C = { d: bool }\nlet a (a: A) = begin\n    match a with\n    | _ when // TODO: Implement other guard types ->\n        1\n    | _ ->\n        0\nend"
    );
}

fn module_select_guard(module: &str, label: &str) -> ClauseGuard {
    ClauseGuard::ModuleSelect { module_name: s(module), label: s(label) }
}

fn guard_todo_module_test(guard: ClauseGuard, binding: &str, value: TypedExpr) -> String {
    let m = modl(vec![
        import("hero"),
        go_fn(
            vec![],
            vec![
                assign(pvar(binding), value),
                Statement::Expression(case_e(
                    vec![var(binding)],
                    vec![
                        clause(vec![pvar("n")], vec![], Some(geq(gv("n"), guard)), var("True")),
                        clause(vec![pdis()], vec![], None, var("False")),
                    ],
                )),
            ],
            named("Bool"),
        ),
    ]);
    render(m)
}

#[test]
fn module_string_access() {
    let out = guard_todo_module_test(module_select_guard("hero", "ironman"), "name", str_e("Tony Stark"));
    assert_eq!(
        out,
        "module rec my.pkg\n// TODO: Implement imports\nlet go () = begin\n    let name = \"Tony Stark\"\n    match name with\n    | n when n = // TODO: Implement other guard types ->\n        true\n    | _ ->\n        false\nend"
    );
}

#[test]
fn module_list_access() {
    let out = guard_todo_module_test(
        module_select_guard("hero", "heroes"),
        "names",
        TypedExpr::List { elements: vec![str_e("Tony Stark"), str_e("Bruce Wayne")] },
    );
    assert_eq!(
        out,
        "module rec my.pkg\n// TODO: Implement imports\nlet go () = begin\n    let names = [\"Tony Stark\"; \"Bruce Wayne\"]\n    match names with\n    | n when n = // TODO: Implement other guard types ->\n        true\n    | _ ->\n        false\nend"
    );
}

#[test]
fn module_tuple_access() {
    let out = guard_todo_module_test(
        ClauseGuard::TupleIndex {
            tuple: Box::new(module_select_guard("hero", "hero")),
            index: 1,
        },
        "name",
        str_e("Tony Stark"),
    );
    assert_eq!(
        out,
        "module rec my.pkg\n// TODO: Implement imports\nlet go () = begin\n    let name = \"Tony Stark\"\n    match name with\n    | n when n = // TODO: Implement other guard types ->\n        true\n    | _ ->\n        false\nend"
    );
}

#[test]
fn module_access() {
    let out = guard_todo_module_test(
        ClauseGuard::FieldAccess {
            container: Box::new(module_select_guard("hero", "ironman")),
            label: s("name"),
        },
        "name",
        str_e("Tony Stark"),
    );
    assert_eq!(
        out,
        "module rec my.pkg\n// TODO: Implement imports\nlet go () = begin\n    let name = \"Tony Stark\"\n    match name with\n    | n when n = // TODO: Implement other guard types ->\n        true\n    | _ ->\n        false\nend"
    );
}

#[test]
fn module_access_submodule() {
    let m = modl(vec![
        import("hero/submodule"),
        go_fn(
            vec![],
            vec![
                assign(pvar("name"), str_e("Tony Stark")),
                Statement::Expression(case_e(
                    vec![var("name")],
                    vec![
                        clause(
                            vec![pvar("n")],
                            vec![],
                            Some(geq(
                                gv("n"),
                                ClauseGuard::FieldAccess {
                                    container: Box::new(module_select_guard("hero/submodule", "ironman")),
                                    label: s("name"),
                                },
                            )),
                            var("True"),
                        ),
                        clause(vec![pdis()], vec![], None, var("False")),
                    ],
                )),
            ],
            named("Bool"),
        ),
    ]);
    assert_eq!(
        render(m),
        "module rec my.pkg\n// TODO: Implement imports\nlet go () = begin\n    let name = \"Tony Stark\"\n    match name with\n    | n when n = // TODO: Implement other guard types ->\n        true\n    | _ ->\n        false\nend"
    );
}

#[test]
fn module_access_aliased() {
    let m = modl(vec![
        import("hero/submodule"),
        go_fn(
            vec![],
            vec![
                assign(pvar("name"), str_e("Tony Stark")),
                Statement::Expression(case_e(
                    vec![var("name")],
                    vec![
                        clause(
                            vec![pvar("n")],
                            vec![],
                            Some(geq(
                                gv("n"),
                                ClauseGuard::FieldAccess {
                                    container: Box::new(module_select_guard("myhero", "ironman")),
                                    label: s("name"),
                                },
                            )),
                            var("True"),
                        ),
                        clause(vec![pdis()], vec![], None, var("False")),
                    ],
                )),
            ],
            named("Bool"),
        ),
    ]);
    assert_eq!(
        render(m),
        "module rec my.pkg\n// TODO: Implement imports\nlet go () = begin\n    let name = \"Tony Stark\"\n    match name with\n    | n when n = // TODO: Implement other guard types ->\n        true\n    | _ ->\n        false\nend"
    );
}

#[test]
fn module_nested_access() {
    let out = guard_todo_module_test(
        ClauseGuard::FieldAccess {
            container: Box::new(ClauseGuard::FieldAccess {
                container: Box::new(module_select_guard("hero", "batman")),
                label: s("secret_identity"),
            }),
            label: s("name"),
        },
        "name",
        str_e("Bruce Wayne"),
    );
    assert_eq!(
        out,
        "module rec my.pkg\n// TODO: Implement imports\nlet go () = begin\n    let name = \"Bruce Wayne\"\n    match name with\n    | n when n = // TODO: Implement other guard types ->\n        true\n    | _ ->\n        false\nend"
    );
}

#[test]
fn not() {
    let m = modl(vec![go_fn(
        vec![arg("x", Type::Unbound { id: 0 }), arg("y", named("Bool"))],
        vec![Statement::Expression(case_e(
            vec![var("x")],
            vec![
                clause(
                    vec![pdis()],
                    vec![],
                    Some(ClauseGuard::Not { expression: Box::new(gv("y")) }),
                    int_e("0"),
                ),
                clause(vec![pdis()], vec![], None, int_e("1")),
            ],
        ))],
        named("Int"),
    )]);
    assert_eq!(
        render(m),
        "module rec my.pkg\nlet go (x: 'u0) (y: bool) = begin\n    match x with\n    | _ when not y ->\n        0\n    | _ ->\n        1\nend"
    );
}

#[test]
fn not_two() {
    let m = modl(vec![go_fn(
        vec![arg("x", named("Bool")), arg("y", named("Bool"))],
        vec![Statement::Expression(case_e(
            vec![var("x")],
            vec![
                clause(
                    vec![pdis()],
                    vec![],
                    Some(ClauseGuard::And {
                        left: Box::new(ClauseGuard::Not { expression: Box::new(gv("y")) }),
                        right: Box::new(ClauseGuard::Not { expression: Box::new(gv("x")) }),
                    }),
                    int_e("0"),
                ),
                clause(vec![pdis()], vec![], None, int_e("1")),
            ],
        ))],
        named("Int"),
    )]);
    assert_eq!(
        render(m),
        "module rec my.pkg\nlet go (x: bool) (y: bool) = begin\n    match x with\n    | _ when not y && not x ->\n        0\n    | _ ->\n        1\nend"
    );
}

fn union_single_ctor(tyname: &str, ctor: &str) -> Definition {
    Definition::CustomTypeDef(CustomType {
        name: s(tyname),
        publicity: Publicity::Public,
        opaque: false,
        typed_parameters: vec![],
        constructors: vec![RecordConstructor { name: s(ctor), arguments: vec![] }],
    })
}

#[test]
fn custom_type_constructor_imported_and_aliased() {
    let m = modl(vec![
        import("other_module"),
        function(
            "func",
            Publicity::Private,
            vec![],
            vec![Statement::Expression(case_e(
                vec![var("B")],
                vec![
                    clause(
                        vec![pvar("x")],
                        vec![],
                        Some(geq(
                            gv("x"),
                            ClauseGuard::Constant(Constant::Record {
                                module: Some(s("other_module")),
                                name: s("B"),
                                args: vec![],
                                tag: s("A"),
                                typ: named("T"),
                                field_map: None,
                            }),
                        )),
                        var("True"),
                    ),
                    clause(vec![pdis()], vec![], None, var("False")),
                ],
            ))],
            named("Bool"),
        ),
    ]);
    assert_eq!(
        render(m),
        "module rec my.pkg\n// TODO: Implement imports\nlet private func () = begin\n    match B with\n    | x when x = A ->\n        true\n    | _ ->\n        false\nend"
    );
}

#[test]
fn imported_aliased_ok() {
    let result_ctor_type = Type::Fun {
        args: vec![Type::Unbound { id: 1 }],
        ret: Box::new(Type::Named { name: s("Result"), args: vec![] }),
    };
    let m = modl(vec![
        import("gleam"),
        union_single_ctor("X", "Ok"),
        function(
            "func",
            Publicity::Private,
            vec![],
            vec![Statement::Expression(case_e(
                vec![var("Y")],
                vec![
                    clause(
                        vec![pvar("y")],
                        vec![],
                        Some(geq(
                            gv("y"),
                            ClauseGuard::Constant(Constant::Record {
                                module: Some(s("gleam")),
                                name: s("Ok"),
                                args: vec![],
                                tag: s("Ok"),
                                typ: result_ctor_type,
                                field_map: None,
                            }),
                        )),
                        var("True"),
                    ),
                    clause(vec![pdis()], vec![], None, var("False")),
                ],
            ))],
            named("Bool"),
        ),
    ]);
    assert_eq!(
        render(m),
        "module rec my.pkg\n// TODO: Implement imports\ntype X =\n| Ok\n    \nlet private func () = begin\n    match Y with\n    | y when y = fun (var0) -> begin Ok(var0) end ->\n        true\n    | _ ->\n        false\nend"
    );
}

#[test]
fn imported_ok() {
    let result_ctor_type = Type::Fun {
        args: vec![Type::Unbound { id: 1 }],
        ret: Box::new(Type::Named { name: s("Result"), args: vec![] }),
    };
    let m = modl(vec![
        import("gleam"),
        union_single_ctor("X", "Ok"),
        function(
            "func",
            Publicity::Private,
            vec![arg("x", Type::Unbound { id: 0 })],
            vec![Statement::Expression(case_e(
                vec![TypedExpr::ModuleSelect { module_name: s("gleam"), label: s("Ok") }],
                vec![
                    clause(
                        vec![pdis()],
                        vec![],
                        Some(geq(
                            ClauseGuard::Constant(Constant::List { elements: vec![] }),
                            ClauseGuard::Constant(Constant::List {
                                elements: vec![Constant::Record {
                                    module: Some(s("gleam")),
                                    name: s("Ok"),
                                    args: vec![],
                                    tag: s("Ok"),
                                    typ: result_ctor_type,
                                    field_map: None,
                                }],
                            }),
                        )),
                        var("True"),
                    ),
                    clause(vec![pdis()], vec![], None, var("False")),
                ],
            ))],
            named("Bool"),
        ),
    ]);
    assert_eq!(
        render(m),
        "module rec my.pkg\n// TODO: Implement imports\ntype X =\n| Ok\n    \nlet private func (x: 'u0) = begin\n    match // TODO: TypedExpr::ModuleSelect with\n    | _ when [] = [fun (var0) -> begin Ok(var0) end] ->\n        true\n    | _ ->\n        false\nend"
    );
}
