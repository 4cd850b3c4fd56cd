//! The document engine, the type-shape classifier, the escape rewrite and
//! the backend orchestrators, on concrete values.

use fscodegen::ast::ArgNames;
use fscodegen::ast::Assignment;
use fscodegen::ast::CustomType;
use fscodegen::ast::Definition;
use fscodegen::ast::Deprecation;
use fscodegen::ast::FunctionDef;
use fscodegen::ast::Module;
use fscodegen::ast::Pattern;
use fscodegen::ast::Publicity;
use fscodegen::ast::RecordConstructor;
use fscodegen::ast::RecordConstructorArg;
use fscodegen::ast::Statement;
use fscodegen::ast::Type;
use fscodegen::ast::TypedExpr;
use fscodegen::ast::ValueKind;
use fscodegen::codegen::Erlang;
use fscodegen::codegen::ErlangApp;
use fscodegen::codegen::ErlangAppCodegenConfiguration;
use fscodegen::codegen::ErlangModule;
use fscodegen::codegen::FSharpApp;
use fscodegen::codegen::JavaScript;
use fscodegen::codegen::JsModule;
use fscodegen::codegen::NameOverride;
use fscodegen::codegen::PackageConfig;
use fscodegen::codegen::RecordHeader;
use fscodegen::codegen::TargetSupport;
use fscodegen::codegen::TypeScriptDeclarations;
use fscodegen::codegen::sort_strings;
use fscodegen::codegen::replace_separator;
use fscodegen::doc::Doc;
use fscodegen::doc::join;
use fscodegen::doc::u64_to_string;
use fscodegen::fsharp::Error;
use fscodegen::fsharp::Generator;
use fscodegen::fsharp::is_reserved_word;
use fscodegen::fsharp::split_char;
use fscodegen::fsharp::string;
use fscodegen::shape::Accessor;
use fscodegen::shape::TypeShape;
use fscodegen::shape::classify;
use fscodegen::shape::sorted_ctor_indices;
use fscodegen::shape::synthesize_accessors;
use fscodegen::shape::str_lt;
use fscodegen::shape::type_eq;

fn s(x: &str) -> String {
    x.to_string()
}

fn named(n: &str) -> Type {
    Type::Named { name: s(n), args: vec![] }
}

fn labeled(l: &str, t: Type) -> RecordConstructorArg {
    RecordConstructorArg { label: Some(s(l)), typ: t }
}

fn custom(name: &str, ctors: Vec<RecordConstructor>) -> CustomType {
    CustomType {
        name: s(name),
        publicity: Publicity::Public,
        opaque: false,
        typed_parameters: vec![],
        constructors: ctors,
    }
}

fn person() -> CustomType {
    custom("Person", vec![RecordConstructor {
        name: s("Person"),
        arguments: vec![labeled("name", named("String")), labeled("age", named("Int"))],
    }])
}

fn shape_union() -> CustomType {
    custom("Shape", vec![
        RecordConstructor {
            name: s("Circle"),
            arguments: vec![labeled("radius", named("Float")), labeled("label", named("String"))],
        },
        RecordConstructor {
            name: s("Square"),
            arguments: vec![labeled("side", named("Float")), labeled("label", named("String"))],
        },
    ])
}

fn render_defs(defs: Vec<Definition>) -> String {
    let mut generator = Generator::new(Module {
        name: s("my/pkg"),
        definitions: defs,
        values: vec![],
    });
    generator.render().unwrap()
}

#[test]
fn classify_record_and_union() {
    assert_eq!(classify(&person()), TypeShape::Record);
    assert_eq!(classify(&shape_union()), TypeShape::Union);
    // Re-classifying a reallocated but identical declaration agrees.
    assert_eq!(classify(&person()), classify(&person()));
    // A single constructor that does not match the type name is a union.
    let mismatched = custom("X", vec![RecordConstructor {
        name: s("Ok"),
        arguments: vec![labeled("value", named("Int"))],
    }]);
    assert_eq!(classify(&mismatched), TypeShape::Union);
    // A single matching constructor without arguments is a union.
    let empty = custom("X", vec![RecordConstructor { name: s("X"), arguments: vec![] }]);
    assert_eq!(classify(&empty), TypeShape::Union);
    // An unlabeled argument makes it a union.
    let unlabeled = custom("X", vec![RecordConstructor {
        name: s("X"),
        arguments: vec![RecordConstructorArg { label: None, typ: named("Int") }],
    }]);
    assert_eq!(classify(&unlabeled), TypeShape::Union);
}

#[test]
fn person_renders_as_record() {
    let out = render_defs(vec![Definition::CustomTypeDef(person())]);
    assert_eq!(out, "module rec my.pkg\ntype Person = { name: string; age: int }");
}

#[test]
fn shape_union_shares_only_label() {
    // Both cases carry `label: String` at position 1; `radius` and `side`
    // appear in one case each, so only `label` earns an accessor.
    let out = render_defs(vec![Definition::CustomTypeDef(shape_union())]);
    assert_eq!(
        out,
        "module rec my.pkg\ntype Shape =\n| Circle of radius: float * label: string\n| Square of side: float * label: string\n    member this.label = \n        match this with\n        | Shape.Circle (_, label) -> label\n        | Shape.Square (_, label) -> label"
    );
}

#[test]
fn no_accessor_for_distinct_labels() {
    // `Circle(r: Float)` and `Square(s: Float)` share no label: two cases,
    // no accessor members at all.
    let t = custom("Shape", vec![
        RecordConstructor { name: s("Circle"), arguments: vec![labeled("r", named("Float"))] },
        RecordConstructor { name: s("Square"), arguments: vec![labeled("s", named("Float"))] },
    ]);
    let idx = sorted_ctor_indices(&t.constructors);
    let accessors: Vec<Accessor> = synthesize_accessors(&t, &idx);
    assert_eq!(accessors.len(), 0);
}

#[test]
fn accessor_records_common_position() {
    let t = shape_union();
    let idx = sorted_ctor_indices(&t.constructors);
    assert_eq!(idx, vec![0, 1]);
    let accessors = synthesize_accessors(&t, &idx);
    assert_eq!(accessors.len(), 1);
    assert_eq!(accessors[0].label, "label");
    assert_eq!(accessors[0].cases.len(), 2);
    assert_eq!(accessors[0].cases[0].ctor, 0);
    assert_eq!(accessors[0].cases[0].position, 1);
    assert_eq!(accessors[0].cases[1].ctor, 1);
    assert_eq!(accessors[0].cases[1].position, 1);
}

#[test]
fn accessor_needs_same_position() {
    // `label` sits at position 1 in one case and position 0 in the other:
    // the same-position test fails, so no accessor is generated.
    let t = custom("Shape", vec![
        RecordConstructor {
            name: s("Circle"),
            arguments: vec![labeled("radius", named("Float")), labeled("label", named("String"))],
        },
        RecordConstructor {
            name: s("Square"),
            arguments: vec![labeled("label", named("String")), labeled("side", named("Float"))],
        },
    ]);
    let idx = sorted_ctor_indices(&t.constructors);
    assert_eq!(synthesize_accessors(&t, &idx).len(), 0);
}

#[test]
fn accessor_needs_same_type() {
    let t = custom("Shape", vec![
        RecordConstructor {
            name: s("Circle"),
            arguments: vec![labeled("label", named("String"))],
        },
        RecordConstructor {
            name: s("Square"),
            arguments: vec![labeled("label", named("Int"))],
        },
    ]);
    let idx = sorted_ctor_indices(&t.constructors);
    assert_eq!(synthesize_accessors(&t, &idx).len(), 0);
}

#[test]
fn block_trailing_binding_appended_for_value_context() {
    // A body ending in a binding, under a non-unit return type, appends the
    // bound name as the block's value.
    let body = vec![Statement::Assignment(Assignment {
        pattern: Pattern::Variable { name: s("x") },
        value: Box::new(TypedExpr::IntLit { value: s("1") }),
    })];
    let out = render_defs(vec![Definition::FunctionDefn(FunctionDef {
        name: Some(s("go")),
        arguments: vec![],
        body,
        return_type: named("Int"),
        publicity: Publicity::Public,
        documentation: None,
        deprecation: Deprecation::NotDeprecated,
        external_fsharp: None,
    })]);
    assert_eq!(out, "module rec my.pkg\nlet go () = begin\n    let x = 1\n    x\nend");
}

#[test]
fn block_trailing_binding_dropped_for_unit_context() {
    let body = vec![Statement::Assignment(Assignment {
        pattern: Pattern::Variable { name: s("x") },
        value: Box::new(TypedExpr::IntLit { value: s("1") }),
    })];
    let out = render_defs(vec![Definition::FunctionDefn(FunctionDef {
        name: Some(s("go")),
        arguments: vec![],
        body,
        return_type: named("Nil"),
        publicity: Publicity::Public,
        documentation: None,
        deprecation: Deprecation::NotDeprecated,
        external_fsharp: None,
    })]);
    assert_eq!(out, "module rec my.pkg\nlet go () = begin\n    let x = 1\nend");
}

#[test]
fn entry_point_main_named_argument() {
    let out = render_defs(vec![Definition::FunctionDefn(FunctionDef {
        name: Some(s("main")),
        arguments: vec![main_arg("args")],
        body: vec![Statement::Expression(TypedExpr::IntLit { value: s("0") })],
        return_type: named("Int"),
        publicity: Publicity::Public,
        documentation: None,
        deprecation: Deprecation::NotDeprecated,
        external_fsharp: None,
    })]);
    assert_eq!(
        out,
        "module rec my.pkg\n[<EntryPoint>]\nlet main (args: string[]) = begin\n    0\nend"
    );
}

fn main_arg(n: &str) -> fscodegen::ast::TypedArg {
    fscodegen::ast::TypedArg {
        names: ArgNames::Named { name: s(n) },
        typ: Type::Named { name: s("List"), args: vec![named("String")] },
    }
}

#[test]
fn external_function_records_path_reference() {
    let external = Definition::FunctionDefn(FunctionDef {
        name: Some(s("now")),
        arguments: vec![],
        body: vec![],
        return_type: named("Int"),
        publicity: Publicity::Public,
        documentation: None,
        deprecation: Deprecation::NotDeprecated,
        external_fsharp: Some((s("ffi/clock.fs"), s("now"))),
    });
    let mut generator = Generator::new(Module {
        name: s("my/pkg"),
        definitions: vec![external],
        values: vec![],
    });
    let out = generator.render().unwrap();
    // The file-path reference is called unqualified and recorded.
    assert_eq!(out, "module rec my.pkg\nlet now () = now ()");
    assert_eq!(generator.external_files, vec![s("ffi/clock.fs")]);
}

#[test]
fn external_function_module_reference_is_qualified() {
    let external = Definition::FunctionDefn(FunctionDef {
        name: Some(s("now")),
        arguments: vec![],
        body: vec![],
        return_type: named("Int"),
        publicity: Publicity::Public,
        documentation: None,
        deprecation: Deprecation::NotDeprecated,
        external_fsharp: Some((s("System.DateTime"), s("get_Now"))),
    });
    let mut generator = Generator::new(Module {
        name: s("my/pkg"),
        definitions: vec![external],
        values: vec![],
    });
    let out = generator.render().unwrap();
    assert_eq!(out, "module rec my.pkg\nlet now () = System.DateTime.get_Now ()");
    assert_eq!(generator.external_files.len(), 0);
}

#[test]
fn reserved_words() {
    assert!(is_reserved_word("type"));
    assert!(is_reserved_word("yield"));
    assert!(is_reserved_word("asr"));
    assert!(!is_reserved_word("gleam"));
    assert!(!is_reserved_word("Type"));
}

#[test]
fn reserved_module_segments_are_escaped_everywhere() {
    let out = render_defs(vec![]);
    assert_eq!(out, "module rec my.pkg\n");
    let mut generator = Generator::new(Module {
        name: s("do/type"),
        definitions: vec![],
        values: vec![],
    });
    assert_eq!(generator.render().unwrap(), "module rec ``do``.``type``\n");
}

#[test]
fn string_escape_odd_backslashes_converted() {
    // One backslash before the escape: rewritten to the native spelling.
    let doc = string("a\\u{1F600}b");
    assert_eq!(doc.to_pretty_string(120), "\"a\\u1F600b\"");
}

#[test]
fn string_escape_even_backslashes_kept() {
    // Two backslashes: the user escaped it, and re-lowering the already
    // escaped text does not alter it further.
    let doc = string("a\\\\u{12}b");
    assert_eq!(doc.to_pretty_string(120), "\"a\\\\u{12}b\"");
    let again = string("a\\\\u{12}b");
    assert_eq!(again.to_pretty_string(120), "\"a\\\\u{12}b\"");
}

#[test]
fn unsupported_error_carries_feature_and_location() {
    let e = Error::Unsupported {
        feature: s("bit arrays"),
        location: fscodegen::ast::SrcSpan { start: 10, end: 14 },
    };
    match e {
        Error::Unsupported { feature, location } => {
            assert_eq!(feature, "bit arrays");
            assert_eq!(location.start, 10);
            assert_eq!(location.end, 14);
        }
    }
}

#[test]
fn typescript_declarations_modes_differ() {
    assert_eq!(TypeScriptDeclarations::Emit, TypeScriptDeclarations::Emit);
    assert!(TypeScriptDeclarations::Omit != TypeScriptDeclarations::Emit);
}

#[test]
fn sorting_and_ordering_helpers() {
    assert!(str_lt("abc", "abd"));
    assert!(!str_lt("abd", "abc"));
    assert!(str_lt("ab", "abc"));
    assert!(!str_lt("abc", "abc"));
    let sorted = sort_strings(vec![s("pear"), s("apple"), s("plum"), s("apple")]);
    assert_eq!(sorted, vec![s("apple"), s("apple"), s("pear"), s("plum")]);
}

#[test]
fn helpers_split_replace_and_digits() {
    assert_eq!(split_char("a/b/c", '/'), vec![s("a"), s("b"), s("c")]);
    assert_eq!(split_char("abc", '/'), vec![s("abc")]);
    assert_eq!(split_char("a//b", '/'), vec![s("a"), s(""), s("b")]);
    assert_eq!(replace_separator("my/mod", "@"), s("my@mod"));
    assert_eq!(replace_separator("my/sub/mod", "\\"), s("my\\sub\\mod"));
    assert_eq!(u64_to_string(0), s("0"));
    assert_eq!(u64_to_string(120), s("120"));
    assert!(type_eq(&named("Int"), &named("Int")));
    assert!(!type_eq(&named("Int"), &named("Float")));
    let d = join(vec![Doc::Str("a"), Doc::Str("b")], &Doc::Str(", "));
    assert_eq!(d.to_pretty_string(80), "a, b");
}

#[test]
fn group_breaks_only_when_too_wide() {
    let wide = Doc::Str("alpha")
        .append(Doc::Break { broken: "", unbroken: " " })
        .append(Doc::Str("beta"))
        .group();
    assert_eq!(wide.to_pretty_string(80), "alpha beta");
    let narrow = Doc::Str("alpha")
        .append(Doc::Break { broken: "", unbroken: " " })
        .append(Doc::Str("beta"))
        .group();
    assert_eq!(narrow.to_pretty_string(6), "alpha\nbeta");
    let nested = Doc::Str("head")
        .append(
            Doc::HardLine
                .append(Doc::Str("tail"))
                .nest(4),
        );
    assert_eq!(nested.to_pretty_string(80), "head\n    tail");
}

#[test]
fn erlang_outputs_module_and_headers() {
    let erlang = Erlang::new(s("build"), s("inc"));
    let files = erlang.render(&vec![ErlangModule {
        name: s("my/mod"),
        text: s("-module(my@mod).\n"),
        headers: vec![RecordHeader { name: s("person"), text: s("-record(person, {}).\n") }],
    }]);
    assert_eq!(files.len(), 2);
    assert_eq!(files[0].path, "build/my@mod.erl");
    assert_eq!(files[0].text, "-module(my@mod).\n");
    assert_eq!(files[1].path, "inc/my@mod_person.hrl");
    assert_eq!(files[1].text, "-record(person, {}).\n");
}

fn sample_config() -> PackageConfig {
    PackageConfig {
        name: s("sample"),
        version: s("1.2.3"),
        description: s("a sample"),
        dependencies: vec![s("zlib"), s("alpha")],
        dev_dependencies: vec![s("mocks")],
        erlang_application_start_module: Some(s("my/mod")),
        erlang_extra_applications: vec![s("crypto")],
        fsharp_target_framework: s("net8.0"),
    }
}

#[test]
fn erlang_app_manifest_is_sorted() {
    let app = ErlangApp::new(s("out"), ErlangAppCodegenConfiguration {
        include_dev_deps: true,
        package_name_overrides: vec![NameOverride { name: s("zlib"), replacement: s("zlib_ng") }],
    });
    // Module names arrive unsorted; emission must not depend on that order.
    let files = app.render(&sample_config(), &vec![s("my/zz"), s("my/aa")]);
    assert_eq!(files.len(), 1);
    assert_eq!(files[0].path, "out/sample.app");
    assert_eq!(
        files[0].text,
        "{application, sample, [\n    {mod, {'my@mod', []}},\n    {vsn, \"1.2.3\"},\n    {applications, [alpha,\n                    crypto,\n                    mocks,\n                    zlib_ng]},\n    {description, \"a sample\"},\n    {modules, [my@aa,\n               my@zz]},\n    {registered, []}\n]}.\n"
    );
}

#[test]
fn erlang_app_manifest_without_dev_deps() {
    let app = ErlangApp::new(s("out"), ErlangAppCodegenConfiguration {
        include_dev_deps: false,
        package_name_overrides: vec![],
    });
    let mut config = sample_config();
    config.erlang_application_start_module = None;
    let files = app.render(&config, &vec![s("m")]);
    assert_eq!(
        files[0].text,
        "{application, sample, [\n    {vsn, \"1.2.3\"},\n    {applications, [alpha,\n                    crypto,\n                    zlib]},\n    {description, \"a sample\"},\n    {modules, [m]},\n    {registered, []}\n]}.\n"
    );
}

#[test]
fn fsharp_project_lists_every_module() {
    let app = FSharpApp::new(s("build"));
    let files = app.render(&sample_config(), &vec![s("my/mod"), s("other")]);
    assert_eq!(files.len(), 3);
    assert_eq!(files[0].path, "build/sample.fsproj");
    assert_eq!(
        files[0].text,
        "<Project Sdk=\"Microsoft.NET.Sdk\">\n  <PropertyGroup>\n    <TargetFramework>net8.0</TargetFramework>\n    <RootNamespace>sample</RootNamespace>\n  </PropertyGroup>\n\n  <ItemGroup>\n    <Compile Include=\"my\\mod.fs\" />\n    <Compile Include=\"other.fs\" />\n  </ItemGroup>\n\n  <ItemGroup>\n<!-- TODO: Add package references -->\n  </ItemGroup>\n</Project>"
    );
    assert_eq!(files[1].path, "build/my\\mod.fs");
    assert_eq!(files[1].text, "module my\\mod\n");
    assert_eq!(files[2].path, "build/other.fs");
    assert_eq!(files[2].text, "module other\n");
}

fn js_module() -> JsModule {
    JsModule {
        name: s("my/mod"),
        js_text: s("export const a = 1;\n"),
        ts_text: s("export const a: number;\n"),
    }
}

#[test]
fn javascript_emits_modules_and_prelude() {
    let js = JavaScript::new(s("out"), TypeScriptDeclarations::Emit, s("../prelude.mjs"), TargetSupport::Enforced);
    let files = js.render(&vec![js_module()], &vec![]);
    assert_eq!(files.len(), 4);
    assert_eq!(files[0].path, "out/my/mod.d.mts");
    assert_eq!(files[0].text, "export const a: number;\n");
    assert_eq!(files[1].path, "out/my/mod.mjs");
    assert_eq!(files[1].text, "export const a = 1;\n");
    assert_eq!(files[2].path, "out/gleam.mjs");
    assert_eq!(files[2].text, "export * from \"../prelude.mjs\";\n");
    assert_eq!(files[3].path, "out/gleam.d.mts");
    assert_eq!(files[3].text, "export * from \"../prelude.d.mts\";\n");
}

#[test]
fn prelude_debounce_skips_existing_stub() {
    // A second invocation against the same output location observes the
    // stub already exists and performs no prelude write.
    let js = JavaScript::new(s("out"), TypeScriptDeclarations::Emit, s("../prelude.mjs"), TargetSupport::Enforced);
    let first = js.render(&vec![js_module()], &vec![]);
    let written: Vec<String> = first.iter().map(|f| f.path.clone()).collect();
    let second = js.render(&vec![js_module()], &written);
    assert_eq!(second.len(), 2);
    assert!(second.iter().all(|f| f.path != "out/gleam.mjs" && f.path != "out/gleam.d.mts"));
    // Without declarations, only the plain stub is considered.
    let js_plain = JavaScript::new(s("out"), TypeScriptDeclarations::Omit, s("../prelude.mjs"), TargetSupport::NotEnforced);
    let plain = js_plain.render(&vec![], &vec![s("out/gleam.mjs")]);
    assert_eq!(plain.len(), 0);
}

#[test]
fn pipeline_lowered_to_scoped_bindings() {
    let pipeline = TypedExpr::Pipeline {
        assignments: vec![Assignment {
            pattern: Pattern::Variable { name: s("_pipe") },
            value: Box::new(TypedExpr::IntLit { value: s("1") }),
        }],
        finally: Box::new(TypedExpr::Call {
            fun: Box::new(TypedExpr::Var { name: s("inc"), constructor: ValueKind::Other }),
            args: vec![fscodegen::ast::CallArgExpr {
                label: None,
                value: TypedExpr::Var { name: s("_pipe"), constructor: ValueKind::Other },
            }],
        }),
    };
    let out = render_defs(vec![Definition::FunctionDefn(FunctionDef {
        name: Some(s("go")),
        arguments: vec![],
        body: vec![Statement::Expression(pipeline)],
        return_type: named("Int"),
        publicity: Publicity::Public,
        documentation: None,
        deprecation: Deprecation::NotDeprecated,
        external_fsharp: None,
    })]);
    assert_eq!(
        out,
        "module rec my.pkg\nlet go () = begin\n    begin\n        let _pipe = 1\n        (inc (_pipe))\n    end\nend"
    );
}
