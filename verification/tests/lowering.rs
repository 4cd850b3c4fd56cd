//! Expression, statement and declaration lowering on concrete typed trees:
//! the edge cases the lowering rules call out, each checked against the
//! exact rendered text.

use fscodegen::ast::ArgNames;
use fscodegen::ast::Assignment;
use fscodegen::ast::AssignName;
use fscodegen::ast::Constant;
use fscodegen::ast::ConstantArg;
use fscodegen::ast::CustomType;
use fscodegen::ast::Definition;
use fscodegen::ast::Deprecation;
use fscodegen::ast::FieldMap;
use fscodegen::ast::FieldMapEntry;
use fscodegen::ast::FunctionDef;
use fscodegen::ast::Module;
use fscodegen::ast::ModuleConstant;
use fscodegen::ast::ModuleValue;
use fscodegen::ast::Pattern;
use fscodegen::ast::Publicity;
use fscodegen::ast::RecordConstructor;
use fscodegen::ast::RecordConstructorArg;
use fscodegen::ast::RecordUpdateArg;
use fscodegen::ast::Statement;
use fscodegen::ast::Type;
use fscodegen::ast::TypeAlias;
use fscodegen::ast::TypedArg;
use fscodegen::ast::TypedClause;
use fscodegen::ast::TypedExpr;
use fscodegen::ast::ValueKind;
use fscodegen::fsharp::Generator;

fn s(x: &str) -> String {
    x.to_string()
}

fn named(n: &str) -> Type {
    Type::Named { name: s(n), args: vec![] }
}

fn arg(n: &str, t: Type) -> TypedArg {
    TypedArg { names: ArgNames::Named { name: s(n) }, typ: t }
}

fn var(n: &str) -> TypedExpr {
    TypedExpr::Var { name: s(n), constructor: ValueKind::Other }
}

fn int_e(v: &str) -> TypedExpr {
    TypedExpr::IntLit { value: s(v) }
}

fn fun_def(name: &str, args: Vec<TypedArg>, body: Vec<Statement>, ret: Type) -> Definition {
    Definition::FunctionDefn(FunctionDef {
        name: Some(s(name)),
        arguments: args,
        body,
        return_type: ret,
        publicity: Publicity::Public,
        documentation: None,
        deprecation: Deprecation::NotDeprecated,
        external_fsharp: None,
    })
}

fn render_module(m: Module) -> String {
    let mut generator = Generator::new(m);
    generator.render().unwrap()
}

fn render_defs(defs: Vec<Definition>) -> String {
    render_module(Module { name: s("my/pkg"), definitions: defs, values: vec![] })
}

#[test]
fn double_negation_parenthesized() {
    // A negation of a negation keeps explicit parentheses around the inner
    // negation, so the target lexer cannot merge the two signs.
    let e = TypedExpr::NegateInt {
        value: Box::new(TypedExpr::NegateInt { value: Box::new(int_e("1")) }),
    };
    let out = render_defs(vec![fun_def("go", vec![], vec![Statement::Expression(e)], named("Int"))]);
    assert_eq!(out, "module rec my.pkg\nlet go () = begin\n    -(-1)\nend");
}

#[test]
fn string_prefix_pattern_uses_runtime_helper() {
    let prefix_pattern = Pattern::StringPrefix {
        left_side_string: s("pre"),
        right_side_assignment: AssignName::Variable(s("rest")),
        left_side_assignment: None,
    };
    let case = TypedExpr::Case {
        subjects: vec![var("x")],
        clauses: vec![
            TypedClause {
                pattern: vec![prefix_pattern],
                alternative_patterns: vec![],
                guard: None,
                consequence: var("rest"),
            },
            TypedClause {
                pattern: vec![Pattern::Discard { name: s("_") }],
                alternative_patterns: vec![],
                guard: None,
                consequence: var("x"),
            },
        ],
    };
    let out = render_defs(vec![fun_def(
        "go",
        vec![arg("x", named("String"))],
        vec![Statement::Expression(case)],
        named("String"),
    )]);
    assert_eq!(
        out,
        "module rec my.pkg\nlet go (x: string) = begin\n    match x with\n    | Gleam__codegen__prefix \"pre\" rest ->\n        rest\n    | _ ->\n        x\nend"
    );
}

#[test]
fn string_prefix_pattern_binding_the_prefix_too() {
    let prefix_pattern = Pattern::StringPrefix {
        left_side_string: s("pre"),
        right_side_assignment: AssignName::Variable(s("rest")),
        left_side_assignment: Some(s("p")),
    };
    let case = TypedExpr::Case {
        subjects: vec![var("x")],
        clauses: vec![
            TypedClause {
                pattern: vec![prefix_pattern],
                alternative_patterns: vec![],
                guard: None,
                consequence: var("p"),
            },
            TypedClause {
                pattern: vec![Pattern::Discard { name: s("_") }],
                alternative_patterns: vec![],
                guard: None,
                consequence: var("x"),
            },
        ],
    };
    let out = render_defs(vec![fun_def(
        "go",
        vec![arg("x", named("String"))],
        vec![Statement::Expression(case)],
        named("String"),
    )]);
    assert_eq!(
        out,
        "module rec my.pkg\nlet go (x: string) = begin\n    match x with\n    | Gleam_codegen_string_parts \"pre\" (p, rest) ->\n        p\n    | _ ->\n        x\nend"
    );
}

#[test]
fn string_prefix_assignment_destructures_in_place() {
    let assignment = Statement::Assignment(Assignment {
        pattern: Pattern::StringPrefix {
            left_side_string: s("pre"),
            right_side_assignment: AssignName::Variable(s("rest")),
            left_side_assignment: None,
        },
        value: Box::new(var("x")),
    });
    let out = render_defs(vec![fun_def(
        "go",
        vec![arg("x", named("String"))],
        vec![assignment],
        named("String"),
    )]);
    assert_eq!(
        out,
        "module rec my.pkg\nlet go (x: string) = begin\n    let (Gleam_codegen_string_parts \"pre\" (_, rest)) = x\n    rest\nend"
    );
}

#[test]
fn record_update_uses_with_syntax() {
    let update = TypedExpr::RecordUpdate {
        spread: Box::new(var("base")),
        args: vec![RecordUpdateArg { label: s("age"), value: int_e("1") }],
    };
    let out = render_defs(vec![fun_def(
        "go",
        vec![arg("base", named("Person"))],
        vec![Statement::Expression(update)],
        named("Person"),
    )]);
    assert_eq!(
        out,
        "module rec my.pkg\nlet go (base: Person) = begin\n    { base with age = 1 }\nend"
    );
}

#[test]
fn todo_and_panic_lower_to_failwith() {
    let todo_fn = fun_def(
        "t",
        vec![],
        vec![Statement::Expression(TypedExpr::Todo { message: None })],
        named("Int"),
    );
    let panic_fn = fun_def(
        "p",
        vec![],
        vec![Statement::Expression(TypedExpr::Panic {
            message: Some(Box::new(TypedExpr::StringLit { value: s("boom") })),
        })],
        named("Int"),
    );
    let out = render_defs(vec![todo_fn, panic_fn]);
    assert_eq!(
        out,
        "module rec my.pkg\nlet t () = begin\n    failwith \"Not implemented\"\nend\nlet p () = begin\n    failwith (\"boom\")\nend"
    );
}

#[test]
fn aliases_opacity_and_type_parameters() {
    let alias = Definition::TypeAliasDef(TypeAlias {
        alias: s("Age"),
        publicity: Publicity::Public,
        typ: named("Int"),
    });
    let opaque = Definition::CustomTypeDef(CustomType {
        name: s("Counter"),
        publicity: Publicity::Public,
        opaque: true,
        typed_parameters: vec![],
        constructors: vec![RecordConstructor {
            name: s("Counter"),
            arguments: vec![RecordConstructorArg { label: Some(s("count")), typ: named("Int") }],
        }],
    });
    let generic = Definition::CustomTypeDef(CustomType {
        name: s("Package"),
        publicity: Publicity::Public,
        opaque: false,
        typed_parameters: vec![Type::Generic { id: 7 }],
        constructors: vec![RecordConstructor {
            name: s("Package"),
            arguments: vec![RecordConstructorArg {
                label: Some(s("value")),
                typ: Type::Generic { id: 7 },
            }],
        }],
    });
    let out = render_defs(vec![alias, opaque, generic]);
    assert_eq!(
        out,
        "module rec my.pkg\ntype Age = int\ntype Counter = \n    private \n        { count: int }\ntype Package<'t7> = { value: 't7 }"
    );
}

#[test]
fn documentation_and_deprecation_precede_declaration() {
    let f = Definition::FunctionDefn(FunctionDef {
        name: Some(s("go")),
        arguments: vec![],
        body: vec![Statement::Expression(int_e("0"))],
        return_type: named("Int"),
        publicity: Publicity::Public,
        documentation: Some(s("Says hello\nworld\n")),
        deprecation: Deprecation::Deprecated { message: s("use run") },
        external_fsharp: None,
    });
    let out = render_defs(vec![f]);
    assert_eq!(
        out,
        "module rec my.pkg\n///Says hello\n///world\n[<System.Obsolete(\"use run\")>]\nlet go () = begin\n    0\nend"
    );
}

#[test]
fn anonymous_function_in_expression_position() {
    let lambda = TypedExpr::Fun {
        args: vec![arg("x", named("Int"))],
        body: vec![Statement::Expression(var("x"))],
    };
    let out = render_defs(vec![fun_def(
        "go",
        vec![],
        vec![Statement::Expression(lambda)],
        Type::Fun { args: vec![named("Int")], ret: Box::new(named("Int")) },
    )]);
    assert_eq!(
        out,
        "module rec my.pkg\nlet go () = begin\n    fun(x: int) -> begin x end\nend"
    );
}

#[test]
fn pattern_reference_to_module_constant_inlines_its_literal() {
    let case = TypedExpr::Case {
        subjects: vec![var("x")],
        clauses: vec![
            TypedClause {
                pattern: vec![Pattern::VarUsage {
                    name: s("five"),
                    constructor: Some(ValueKind::ModuleConstant {
                        literal: Constant::IntLit { value: s("5") },
                    }),
                }],
                alternative_patterns: vec![],
                guard: None,
                consequence: int_e("1"),
            },
            TypedClause {
                pattern: vec![Pattern::Discard { name: s("_") }],
                alternative_patterns: vec![],
                guard: None,
                consequence: int_e("0"),
            },
        ],
    };
    let out = render_defs(vec![fun_def(
        "go",
        vec![arg("x", named("Int"))],
        vec![Statement::Expression(case)],
        named("Int"),
    )]);
    assert_eq!(
        out,
        "module rec my.pkg\nlet go (x: int) = begin\n    match x with\n    | 5 ->\n        1\n    | _ ->\n        0\nend"
    );
}

#[test]
fn record_constant_lowered_through_value_table() {
    // The constant is built with the sole, fully labeled constructor of a
    // record type: the value table says so, and the constant lowers to
    // record-literal syntax with labels recovered from the field map.
    let person_value = ModuleValue {
        name: s("Person"),
        value: ValueKind::RecordConstructor {
            name: s("Person"),
            arity: 2,
            field_map: Some(person_field_map()),
            constructors_count: 1,
        },
    };
    let ironman = Definition::ModuleConstantDef(ModuleConstant {
        name: s("ironman"),
        publicity: Publicity::Public,
        value: Box::new(Constant::Record {
            module: None,
            name: s("Person"),
            args: vec![
                ConstantArg { value: Constant::StringLit { value: s("Tony") } },
                ConstantArg { value: Constant::IntLit { value: s("3") } },
            ],
            tag: s("Person"),
            typ: named("Person"),
            field_map: Some(person_field_map()),
        }),
    });
    let pair = Definition::ModuleConstantDef(ModuleConstant {
        name: s("pair"),
        publicity: Publicity::Public,
        value: Box::new(Constant::Tuple {
            elements: vec![
                Constant::IntLit { value: s("1") },
                Constant::StringLit { value: s("a") },
            ],
        }),
    });
    let out = render_module(Module {
        name: s("my/pkg"),
        definitions: vec![ironman, pair],
        values: vec![person_value],
    });
    assert_eq!(
        out,
        "module rec my.pkg\nlet ironman = { name = \"Tony\"; age = 3 }\nlet pair = (1, \"a\")"
    );
}

fn person_field_map() -> FieldMap {
    FieldMap {
        fields: vec![
            FieldMapEntry { label: s("name"), position: 0 },
            FieldMapEntry { label: s("age"), position: 1 },
        ],
    }
}
