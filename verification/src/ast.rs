//! The typed-tree data model this layer consumes: modules, declarations,
//! expressions, patterns, guards and constants, exactly as earlier compiler
//! stages hand them over. The trees are ground truth here; the
//! well-formedness predicates below state the invariants those stages
//! guarantee (states the type checker makes unreachable).

use vstd::prelude::*;
use vstd::string::StringExecFns;

verus! {

/// A half-open byte range into the original source text.
#[derive(Clone, Copy, PartialEq, Eq, Structural, Debug)]
pub struct SrcSpan {
    pub start: u64,
    pub end: u64,
}

pub enum Publicity {
    Public,
    Internal,
    Private,
}

/// A fully resolved type. Type-variable links are already collapsed by the
/// type checker, so a variable is only ever unbound or generic.
pub enum Type {
    Named { name: String, args: Vec<Type> },
    Fun { args: Vec<Type>, ret: Box<Type> },
    Tuple { elems: Vec<Type> },
    Unbound { id: u64 },
    Generic { id: u64 },
}

impl Type {
    pub open spec fn spec_is_nil(&self) -> bool {
        match self {
            Type::Named { name, .. } => name@ == "Nil"@,
            _ => false,
        }
    }

    pub open spec fn spec_is_bool(&self) -> bool {
        match self {
            Type::Named { name, .. } => name@ == "Bool"@,
            _ => false,
        }
    }

    pub open spec fn spec_is_fun(&self) -> bool {
        self is Fun
    }

    pub open spec fn spec_fn_arity(&self) -> Option<nat> {
        match self {
            Type::Fun { args, .. } => Some(args@.len()),
            _ => Option::None,
        }
    }

    pub fn is_nil(&self) -> (r: bool)
        ensures r == self.spec_is_nil(),
    {
        match self {
            Type::Named { name, .. } => str_eq_str(name.as_str(), "Nil"),
            _ => false,
        }
    }

    pub fn is_bool(&self) -> (r: bool)
        ensures r == self.spec_is_bool(),
    {
        match self {
            Type::Named { name, .. } => str_eq_str(name.as_str(), "Bool"),
            _ => false,
        }
    }

    pub fn is_fun(&self) -> (r: bool)
        ensures r == self.spec_is_fun(),
    {
        matches!(self, Type::Fun { .. })
    }
}

/// Whether two string slices hold the same characters.
pub fn str_eq_str(a: &str, b: &str) -> (r: bool)
    ensures r == (a@ == b@),
{
    let owned_a: String = a.to_owned();
    let owned_b: String = b.to_owned();
    owned_a == owned_b
}

/// One labeled-or-unlabeled typed constructor argument.
pub struct RecordConstructorArg {
    pub label: Option<String>,
    pub typ: Type,
}

/// A constructor: a name and its ordered argument list.
pub struct RecordConstructor {
    pub name: String,
    pub arguments: Vec<RecordConstructorArg>,
}

/// A declared tagged type.
pub struct CustomType {
    pub name: String,
    pub publicity: Publicity,
    pub opaque: bool,
    pub typed_parameters: Vec<Type>,
    pub constructors: Vec<RecordConstructor>,
}

pub struct TypeAlias {
    pub alias: String,
    pub publicity: Publicity,
    pub typ: Type,
}

/// How a function parameter is named at the definition site.
pub enum ArgNames {
    Named { name: String },
    Discard { name: String },
    LabelledDiscard { label: String, name: String },
    NamedLabelled { label: String, name: String },
}

impl ArgNames {
    pub open spec fn spec_variable_name(&self) -> Option<String> {
        match self {
            ArgNames::Named { name } => Some(*name),
            ArgNames::NamedLabelled { name, .. } => Some(*name),
            _ => Option::None,
        }
    }

    pub fn get_variable_name(&self) -> (r: Option<&String>)
        ensures
            r is Some <==> self.spec_variable_name() is Some,
            r is Some ==> *r->0 == self.spec_variable_name()->0,
    {
        match self {
            ArgNames::Named { name } => Some(name),
            ArgNames::NamedLabelled { name, .. } => Some(name),
            _ => Option::None,
        }
    }
}

pub struct TypedArg {
    pub names: ArgNames,
    pub typ: Type,
}

pub enum Deprecation {
    NotDeprecated,
    Deprecated { message: String },
}

/// The label-to-position map of a constructor with labeled arguments.
pub struct FieldMapEntry {
    pub label: String,
    pub position: u64,
}

pub struct FieldMap {
    pub fields: Vec<FieldMapEntry>,
}

/// The first entry at `position`, scanning left to right.
pub open spec fn fm_at(entries: Seq<FieldMapEntry>, position: int) -> Option<FieldMapEntry>
    decreases entries.len(),
{
    if entries.len() == 0 {
        Option::None
    } else if entries[0].position == position {
        Some(entries[0])
    } else {
        fm_at(entries.drop_first(), position)
    }
}

impl FieldMap {
    /// Bijective between labels and the positions `0 .. fields.len()`:
    /// no two entries share a position or a label, and every position below
    /// the arity is claimed. A collision is a typed-tree invariant violation
    /// and unreachable by construction upstream.
    pub open spec fn wf(&self) -> bool {
        &&& forall|i: int| 0 <= i < self.fields@.len()
            ==> (#[trigger] self.fields@[i]).position < self.fields@.len()
        &&& forall|i: int, j: int| 0 <= i < j < self.fields@.len()
            ==> (#[trigger] self.fields@[i]).position != (#[trigger] self.fields@[j]).position
        &&& forall|i: int, j: int| 0 <= i < j < self.fields@.len()
            ==> (#[trigger] self.fields@[i]).label@ != (#[trigger] self.fields@[j]).label@
        &&& forall|p: int| 0 <= p < self.fields@.len() ==> #[trigger] self.covers(p)
    }

    /// Some entry claims position `p`.
    pub open spec fn covers(&self, p: int) -> bool {
        exists|i: int| 0 <= i < self.fields@.len()
            && (#[trigger] self.fields@[i]).position == p
    }

    /// The label at `position`, inverted from the label-to-position entries.
    pub fn label_at(&self, position: u64) -> (r: Option<&String>)
        ensures
            r is Some <==> fm_at(self.fields@, position as int) is Some,
            r is Some ==> *r->0 == fm_at(self.fields@, position as int)->0.label,
    {
        let mut i: usize = 0;
        proof {
            assert(self.fields@.skip(0) =~= self.fields@);
        }
        while i < self.fields.len()
            invariant
                i <= self.fields@.len(),
                fm_at(self.fields@, position as int)
                    == fm_at(self.fields@.skip(i as int), position as int),
            decreases self.fields@.len() - i,
        {
            proof {
                assert(self.fields@.skip(i as int).drop_first()
                    =~= self.fields@.skip(i as int + 1));
                assert(self.fields@.skip(i as int)[0] == self.fields@[i as int]);
            }
            if self.fields[i].position == position {
                return Some(&self.fields[i].label);
            }
            i = i + 1;
        }
        Option::None
    }
}

/// Under well-formedness every position below the arity has a label.
pub proof fn lemma_fm_at_total(fm: FieldMap, position: int)
    requires
        fm.wf(),
        0 <= position < fm.fields@.len(),
    ensures
        fm_at(fm.fields@, position) is Some,
        fm_at(fm.fields@, position)->0.position == position,
{
    assert(fm.covers(position));
    let i = choose|i: int| 0 <= i < fm.fields@.len()
        && (#[trigger] fm.fields@[i]).position == position;
    lemma_fm_at_finds(fm.fields@, position, i);
}

proof fn lemma_fm_at_finds(entries: Seq<FieldMapEntry>, position: int, i: int)
    requires
        0 <= i < entries.len(),
        entries[i].position == position,
    ensures
        fm_at(entries, position) is Some,
        fm_at(entries, position)->0.position == position,
    decreases entries.len(),
{
    if entries[0].position != position {
        lemma_fm_at_finds(entries.drop_first(), position, i - 1);
    }
}

/// What a resolved value name stands for, as the type checker recorded it.
pub enum ValueKind {
    RecordConstructor {
        name: String,
        arity: u64,
        field_map: Option<FieldMap>,
        constructors_count: u64,
    },
    ModuleConstant { literal: Constant },
    Other,
}

/// One entry of a module's value table.
pub struct ModuleValue {
    pub name: String,
    pub value: ValueKind,
}

/// The first table entry for `name`, scanning left to right.
pub open spec fn mv_at(values: Seq<ModuleValue>, name: Seq<char>) -> Option<ValueKind>
    decreases values.len(),
{
    if values.len() == 0 {
        Option::None
    } else if values[0].name@ == name {
        Some(values[0].value)
    } else {
        mv_at(values.drop_first(), name)
    }
}

/// Looks a name up in a module's value table.
#[verifier::loop_isolation(false)]
pub fn lookup_value<'a>(values: &'a Vec<ModuleValue>, name: &String) -> (r: Option<&'a ValueKind>)
    ensures
        r is Some <==> mv_at(values@, name@) is Some,
        r is Some ==> *r->0 == mv_at(values@, name@)->0,
{
    let mut i: usize = 0;
    proof {
        assert(values@.skip(0) =~= values@);
    }
    while i < values.len()
        invariant
            i <= values@.len(),
            mv_at(values@, name@) == mv_at(values@.skip(i as int), name@),
        decreases values@.len() - i,
    {
        proof {
            assert(values@.skip(i as int).drop_first() =~= values@.skip(i as int + 1));
            assert(values@.skip(i as int)[0] == values@[i as int]);
        }
        if values[i].name == *name {
            proof {
                assert(mv_at(values@.skip(i as int), name@)
                    == Some(values@[i as int].value));
            }
            return Some(&values[i].value);
        }
        i = i + 1;
    }
    Option::None
}

pub enum AssignName {
    Variable(String),
    Discard(String),
}

pub enum BinOp {
    And,
    Or,
    Eq,
    NotEq,
    LtInt,
    LtEqInt,
    LtFloat,
    LtEqFloat,
    GtEqInt,
    GtInt,
    GtEqFloat,
    GtFloat,
    AddInt,
    AddFloat,
    SubInt,
    SubFloat,
    MultInt,
    MultFloat,
    DivInt,
    DivFloat,
    RemainderInt,
    Concatenate,
}

/// A structural pattern. Numeric literals keep their source spelling.
pub enum Pattern {
    IntLit { value: String },
    FloatLit { value: String },
    StringLit { value: String },
    Variable { name: String },
    /// A reference to a previously defined value inside a pattern.
    VarUsage { name: String, constructor: Option<ValueKind> },
    Discard { name: String },
    List { elements: Vec<Pattern>, tail: Option<Box<Pattern>> },
    Tuple { elems: Vec<Pattern> },
    /// `"prefix" <> rest`, optionally also binding the prefix itself.
    StringPrefix {
        left_side_string: String,
        right_side_assignment: AssignName,
        left_side_assignment: Option<String>,
    },
    /// A sequence of binary segments; each element is a segment's value.
    BitArray { segments: Vec<Pattern> },
    Assign { name: String, pattern: Box<Pattern> },
    Constructor {
        name: String,
        arguments: Vec<CallArgPat>,
        field_map: Option<FieldMap>,
        spread: bool,
        typ: Type,
    },
    Invalid,
}

pub struct CallArgPat {
    pub label: Option<String>,
    pub value: Pattern,
}

/// A typed expression.
pub enum TypedExpr {
    IntLit { value: String },
    FloatLit { value: String },
    StringLit { value: String },
    Block { statements: Vec<Statement> },
    Pipeline { assignments: Vec<Assignment>, finally: Box<TypedExpr> },
    Var { name: String, constructor: ValueKind },
    Fun { args: Vec<TypedArg>, body: Vec<Statement> },
    List { elements: Vec<TypedExpr> },
    Call { fun: Box<TypedExpr>, args: Vec<CallArgExpr> },
    BinOpExpr { name: BinOp, left: Box<TypedExpr>, right: Box<TypedExpr> },
    Case { subjects: Vec<TypedExpr>, clauses: Vec<TypedClause> },
    Tuple { elems: Vec<TypedExpr> },
    TupleIndex { tuple: Box<TypedExpr>, index: u64 },
    Todo { message: Option<Box<TypedExpr>> },
    Panic { message: Option<Box<TypedExpr>> },
    BitArray,
    RecordAccess { record: Box<TypedExpr>, label: String },
    RecordUpdate { spread: Box<TypedExpr>, args: Vec<RecordUpdateArg> },
    ModuleSelect { module_name: String, label: String },
    NegateBool { value: Box<TypedExpr> },
    NegateInt { value: Box<TypedExpr> },
    Invalid,
}

pub struct CallArgExpr {
    pub label: Option<String>,
    pub value: TypedExpr,
}

pub struct RecordUpdateArg {
    pub label: String,
    pub value: TypedExpr,
}

pub struct Assignment {
    pub pattern: Pattern,
    pub value: Box<TypedExpr>,
}

pub enum Statement {
    Expression(TypedExpr),
    Assignment(Assignment),
    Use,
}

/// One arm of a case expression.
pub struct TypedClause {
    pub pattern: Vec<Pattern>,
    pub alternative_patterns: Vec<Vec<Pattern>>,
    pub guard: Option<ClauseGuard>,
    pub consequence: TypedExpr,
}

/// A boolean expression attached to a pattern-match arm.
pub enum ClauseGuard {
    Equals { left: Box<ClauseGuard>, right: Box<ClauseGuard> },
    NotEquals { left: Box<ClauseGuard>, right: Box<ClauseGuard> },
    GtInt { left: Box<ClauseGuard>, right: Box<ClauseGuard> },
    GtEqInt { left: Box<ClauseGuard>, right: Box<ClauseGuard> },
    LtInt { left: Box<ClauseGuard>, right: Box<ClauseGuard> },
    LtEqInt { left: Box<ClauseGuard>, right: Box<ClauseGuard> },
    GtFloat { left: Box<ClauseGuard>, right: Box<ClauseGuard> },
    GtEqFloat { left: Box<ClauseGuard>, right: Box<ClauseGuard> },
    LtFloat { left: Box<ClauseGuard>, right: Box<ClauseGuard> },
    LtEqFloat { left: Box<ClauseGuard>, right: Box<ClauseGuard> },
    AddInt { left: Box<ClauseGuard>, right: Box<ClauseGuard> },
    AddFloat { left: Box<ClauseGuard>, right: Box<ClauseGuard> },
    SubInt { left: Box<ClauseGuard>, right: Box<ClauseGuard> },
    SubFloat { left: Box<ClauseGuard>, right: Box<ClauseGuard> },
    MultInt { left: Box<ClauseGuard>, right: Box<ClauseGuard> },
    MultFloat { left: Box<ClauseGuard>, right: Box<ClauseGuard> },
    DivInt { left: Box<ClauseGuard>, right: Box<ClauseGuard> },
    DivFloat { left: Box<ClauseGuard>, right: Box<ClauseGuard> },
    RemainderInt { left: Box<ClauseGuard>, right: Box<ClauseGuard> },
    Or { left: Box<ClauseGuard>, right: Box<ClauseGuard> },
    And { left: Box<ClauseGuard>, right: Box<ClauseGuard> },
    Not { expression: Box<ClauseGuard> },
    Var { name: String },
    TupleIndex { tuple: Box<ClauseGuard>, index: u64 },
    FieldAccess { container: Box<ClauseGuard>, label: String },
    ModuleSelect { module_name: String, label: String },
    Constant(Constant),
}

/// A compile-time constant.
pub enum Constant {
    IntLit { value: String },
    FloatLit { value: String },
    StringLit { value: String },
    Tuple { elements: Vec<Constant> },
    List { elements: Vec<Constant> },
    Record {
        module: Option<String>,
        name: String,
        args: Vec<ConstantArg>,
        tag: String,
        typ: Type,
        field_map: Option<FieldMap>,
    },
    BitArray,
    Var { module: Option<String>, name: String },
    StringConcatenation { left: Box<Constant>, right: Box<Constant> },
    Invalid,
}

pub struct ConstantArg {
    pub value: Constant,
}

/// A module-level constant declaration.
pub struct ModuleConstant {
    pub name: String,
    pub publicity: Publicity,
    pub value: Box<Constant>,
}

/// A function declaration. `external_fsharp` names a foreign implementation
/// the body is bound to, if any.
pub struct FunctionDef {
    pub name: Option<String>,
    pub arguments: Vec<TypedArg>,
    pub body: Vec<Statement>,
    pub return_type: Type,
    pub publicity: Publicity,
    pub documentation: Option<String>,
    pub deprecation: Deprecation,
    pub external_fsharp: Option<(String, String)>,
}

pub enum Definition {
    CustomTypeDef(CustomType),
    TypeAliasDef(TypeAlias),
    ModuleConstantDef(ModuleConstant),
    FunctionDefn(FunctionDef),
    Import { module: String },
}

/// A fully typed module: its hierarchical name, declarations, and the
/// type checker's table of resolved value constructors.
pub struct Module {
    pub name: String,
    pub definitions: Vec<Definition>,
    pub values: Vec<ModuleValue>,
}

/// The field map of `tyname` when the module's value table records it as
/// a genuine record constructor: a single constructor, named as the type,
/// whose arity its field map covers completely.
pub open spec fn record_shape_of(values: Seq<ModuleValue>, tyname: Seq<char>) -> Option<FieldMap> {
    match mv_at(values, tyname) {
        Some(ValueKind::RecordConstructor { name, arity, field_map, constructors_count }) => {
            match field_map {
                Some(fm) => if constructors_count == 1 && name@ == tyname
                    && arity as nat == fm.fields@.len() {
                    Some(fm)
                } else {
                    Option::None
                },
                Option::None => Option::None,
            }
        }
        _ => Option::None,
    }
}

/// Whether a call through this resolved value lowers to record-literal
/// syntax: the sole constructor of its type, fully labeled.
pub open spec fn is_record_call(k: ValueKind) -> bool {
    match k {
        ValueKind::RecordConstructor { arity, field_map, constructors_count, .. } => {
            constructors_count == 1
            && field_map is Some
            && arity as nat == field_map->0.fields@.len()
        }
        _ => false,
    }
}

/// Typed-tree invariants of a constant, as the earlier stages guarantee
/// them: no invalid node survives to code generation, and a constant built
/// with a record constructor is saturated within the constructor's arity.
pub open spec fn const_wf(c: Constant, values: Seq<ModuleValue>) -> bool
    decreases c,
{
    match c {
        Constant::Tuple { elements } => forall|i: int| 0 <= i < elements@.len()
            ==> const_wf(#[trigger] elements@[i], values),
        Constant::List { elements } => forall|i: int| 0 <= i < elements@.len()
            ==> const_wf(#[trigger] elements@[i], values),
        Constant::Record { name, args, .. } => {
            &&& forall|i: int| 0 <= i < args@.len()
                ==> const_wf((#[trigger] args@[i]).value, values)
            &&& match record_shape_of(values, name@) {
                Some(fm) => fm.wf() && args@.len() <= fm.fields@.len(),
                Option::None => true,
            }
        },
        Constant::StringConcatenation { left, right } =>
            const_wf(*left, values) && const_wf(*right, values),
        Constant::Invalid => false,
        _ => true,
    }
}

/// Typed-tree invariants of a pattern: no invalid pattern reaches this
/// layer, and a value reference was resolved by the type checker.
pub open spec fn pattern_wf(p: Pattern, values: Seq<ModuleValue>) -> bool
    decreases p,
{
    match p {
        Pattern::VarUsage { constructor, .. } => match constructor {
            Some(ValueKind::ModuleConstant { literal }) => const_wf(literal, values),
            Some(_) => true,
            Option::None => false,
        },
        Pattern::List { elements, tail } => {
            &&& forall|i: int| 0 <= i < elements@.len()
                ==> pattern_wf(#[trigger] elements@[i], values)
            &&& match tail {
                Some(t) => pattern_wf(*t, values),
                Option::None => true,
            }
        },
        Pattern::Tuple { elems } => forall|i: int| 0 <= i < elems@.len()
            ==> pattern_wf(#[trigger] elems@[i], values),
        Pattern::BitArray { segments } => forall|i: int| 0 <= i < segments@.len()
            ==> pattern_wf(#[trigger] segments@[i], values),
        Pattern::Assign { pattern, .. } => pattern_wf(*pattern, values),
        Pattern::Constructor { arguments, field_map, .. } => {
            &&& forall|i: int| 0 <= i < arguments@.len()
                ==> pattern_wf((#[trigger] arguments@[i]).value, values)
            &&& match field_map {
                Some(fm) => fm.wf(),
                Option::None => true,
            }
        },
        Pattern::Invalid => false,
        _ => true,
    }
}

pub open spec fn guard_wf(g: ClauseGuard, values: Seq<ModuleValue>) -> bool
    decreases g,
{
    match g {
        ClauseGuard::Equals { left, right } => guard_wf(*left, values) && guard_wf(*right, values),
        ClauseGuard::NotEquals { left, right } => guard_wf(*left, values) && guard_wf(*right, values),
        ClauseGuard::GtInt { left, right } => guard_wf(*left, values) && guard_wf(*right, values),
        ClauseGuard::GtEqInt { left, right } => guard_wf(*left, values) && guard_wf(*right, values),
        ClauseGuard::LtInt { left, right } => guard_wf(*left, values) && guard_wf(*right, values),
        ClauseGuard::LtEqInt { left, right } => guard_wf(*left, values) && guard_wf(*right, values),
        ClauseGuard::GtFloat { left, right } => guard_wf(*left, values) && guard_wf(*right, values),
        ClauseGuard::GtEqFloat { left, right } => guard_wf(*left, values) && guard_wf(*right, values),
        ClauseGuard::LtFloat { left, right } => guard_wf(*left, values) && guard_wf(*right, values),
        ClauseGuard::LtEqFloat { left, right } => guard_wf(*left, values) && guard_wf(*right, values),
        ClauseGuard::AddInt { left, right } => guard_wf(*left, values) && guard_wf(*right, values),
        ClauseGuard::AddFloat { left, right } => guard_wf(*left, values) && guard_wf(*right, values),
        ClauseGuard::SubInt { left, right } => guard_wf(*left, values) && guard_wf(*right, values),
        ClauseGuard::SubFloat { left, right } => guard_wf(*left, values) && guard_wf(*right, values),
        ClauseGuard::MultInt { left, right } => guard_wf(*left, values) && guard_wf(*right, values),
        ClauseGuard::MultFloat { left, right } => guard_wf(*left, values) && guard_wf(*right, values),
        ClauseGuard::DivInt { left, right } => guard_wf(*left, values) && guard_wf(*right, values),
        ClauseGuard::DivFloat { left, right } => guard_wf(*left, values) && guard_wf(*right, values),
        ClauseGuard::RemainderInt { left, right } => guard_wf(*left, values) && guard_wf(*right, values),
        ClauseGuard::Or { left, right } => guard_wf(*left, values) && guard_wf(*right, values),
        ClauseGuard::And { left, right } => guard_wf(*left, values) && guard_wf(*right, values),
        ClauseGuard::Not { expression } => guard_wf(*expression, values),
        ClauseGuard::Constant(c) => const_wf(c, values),
        _ => true,
    }
}

pub open spec fn expr_wf(e: TypedExpr, values: Seq<ModuleValue>) -> bool
    decreases e,
{
    match e {
        TypedExpr::Block { statements } => forall|i: int| 0 <= i < statements@.len()
            ==> stmt_wf(#[trigger] statements@[i], values),
        TypedExpr::Pipeline { assignments, finally } => {
            &&& forall|i: int| 0 <= i < assignments@.len()
                ==> assignment_wf(#[trigger] assignments@[i], values)
            &&& expr_wf(*finally, values)
        },
        TypedExpr::Fun { body, .. } => forall|i: int| 0 <= i < body@.len()
            ==> stmt_wf(#[trigger] body@[i], values),
        TypedExpr::List { elements } => forall|i: int| 0 <= i < elements@.len()
            ==> expr_wf(#[trigger] elements@[i], values),
        TypedExpr::Call { fun, args } => {
            &&& expr_wf(*fun, values)
            &&& forall|i: int| 0 <= i < args@.len()
                ==> expr_wf((#[trigger] args@[i]).value, values)
            &&& match *fun {
                TypedExpr::Var { constructor, .. } => if is_record_call(constructor) {
                    constructor->RecordConstructor_field_map->0.wf()
                    && args@.len() <= constructor->RecordConstructor_field_map->0.fields@.len()
                } else {
                    true
                },
                _ => true,
            }
        },
        TypedExpr::BinOpExpr { left, right, .. } => expr_wf(*left, values) && expr_wf(*right, values),
        TypedExpr::Case { subjects, clauses } => {
            &&& forall|i: int| 0 <= i < subjects@.len()
                ==> expr_wf(#[trigger] subjects@[i], values)
            &&& forall|i: int| 0 <= i < clauses@.len()
                ==> clause_wf(#[trigger] clauses@[i], values)
        },
        TypedExpr::Tuple { elems } => forall|i: int| 0 <= i < elems@.len()
            ==> expr_wf(#[trigger] elems@[i], values),
        TypedExpr::TupleIndex { tuple, index } => expr_wf(*tuple, values) && index < u64::MAX,
        TypedExpr::Todo { message } => match message {
            Some(m) => expr_wf(*m, values),
            Option::None => true,
        },
        TypedExpr::Panic { message } => match message {
            Some(m) => expr_wf(*m, values),
            Option::None => true,
        },
        TypedExpr::RecordAccess { record, .. } => expr_wf(*record, values),
        TypedExpr::RecordUpdate { spread, args } => {
            &&& expr_wf(*spread, values)
            &&& forall|i: int| 0 <= i < args@.len()
                ==> expr_wf((#[trigger] args@[i]).value, values)
        },
        TypedExpr::NegateInt { value } => expr_wf(*value, values),
        _ => true,
    }
}

pub open spec fn assignment_wf(a: Assignment, values: Seq<ModuleValue>) -> bool
    decreases a,
{
    pattern_wf(a.pattern, values) && expr_wf(*a.value, values)
}

pub open spec fn stmt_wf(s: Statement, values: Seq<ModuleValue>) -> bool
    decreases s,
{
    match s {
        Statement::Expression(e) => expr_wf(e, values),
        Statement::Assignment(a) => assignment_wf(a, values),
        Statement::Use => true,
    }
}

pub open spec fn clause_wf(c: TypedClause, values: Seq<ModuleValue>) -> bool
    decreases c,
{
    &&& forall|i: int| 0 <= i < c.pattern@.len()
        ==> pattern_wf(#[trigger] c.pattern@[i], values)
    &&& forall|i: int, j: int| 0 <= i < c.alternative_patterns@.len()
            && 0 <= j < c.alternative_patterns@[i]@.len()
        ==> pattern_wf(#[trigger] c.alternative_patterns@[i]@[j], values)
    &&& match c.guard {
        Some(g) => guard_wf(g, values),
        Option::None => true,
    }
    &&& expr_wf(c.consequence, values)
}

pub open spec fn function_wf(f: FunctionDef, values: Seq<ModuleValue>) -> bool {
    forall|i: int| 0 <= i < f.body@.len() ==> stmt_wf(#[trigger] f.body@[i], values)
}

pub open spec fn definition_wf(d: Definition, values: Seq<ModuleValue>) -> bool {
    match d {
        Definition::ModuleConstantDef(c) => const_wf(*c.value, values),
        Definition::FunctionDefn(f) => function_wf(f, values),
        _ => true,
    }
}

impl Module {
    /// The invariants earlier compiler stages guarantee of a typed module.
    pub open spec fn wf(&self) -> bool {
        &&& forall|i: int| 0 <= i < self.definitions@.len()
            ==> definition_wf(#[trigger] self.definitions@[i], self.values@)
        &&& forall|i: int| 0 <= i < self.values@.len()
            ==> vk_wf((#[trigger] self.values@[i]).value)
    }
}

/// Field maps recorded in the value table are well formed.
pub open spec fn vk_wf(k: ValueKind) -> bool {
    match k {
        ValueKind::RecordConstructor { field_map, .. } => match field_map {
            Some(fm) => fm.wf(),
            Option::None => true,
        },
        _ => true,
    }
}

} // verus!
