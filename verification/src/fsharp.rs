//! The F#-target generator: lowers a fully typed module into F# source
//! text. Every lowering function is specified by a mirror function that
//! gives the exact document it produces; rendering that document at width
//! 120 gives the emitted text.

use vstd::prelude::*;
use vstd::string::StrSliceExecFns;
use vstd::string::StringExecFns;
use crate::ast::ArgNames;
use crate::ast::Assignment;
use crate::ast::AssignName;
use crate::ast::BinOp;
use crate::ast::CallArgExpr;
use crate::ast::CallArgPat;
use crate::ast::ClauseGuard;
use crate::ast::Constant;
use crate::ast::ConstantArg;
use crate::ast::CustomType;
use crate::ast::Definition;
use crate::ast::Deprecation;
use crate::ast::FieldMap;
use crate::ast::FunctionDef;
use crate::ast::Module;
use crate::ast::ModuleConstant;
use crate::ast::ModuleValue;
use crate::ast::Pattern;
use crate::ast::Publicity;
use crate::ast::RecordConstructor;
use crate::ast::RecordConstructorArg;
use crate::ast::RecordUpdateArg;
use crate::ast::SrcSpan;
use crate::ast::Statement;
use crate::ast::Type;
use crate::ast::TypeAlias;
use crate::ast::TypedArg;
use crate::ast::TypedClause;
use crate::ast::TypedExpr;
use crate::ast::ValueKind;
use crate::ast::fm_at;
use crate::ast::mv_at;
use crate::ast::record_shape_of;
use crate::ast::is_record_call;
use crate::ast::str_eq_str;
use crate::shape::sort_ctors_spec;
use crate::doc::Doc;
use crate::doc::SDoc;
use crate::doc::dec_digits;
use crate::doc::join;
use crate::doc::pretty;
use crate::doc::sapp;
use crate::doc::sforce;
use crate::doc::sgroup;
use crate::doc::sjoin;
use crate::doc::snest;
use crate::doc::ssurround;
use crate::doc::stext;
use crate::doc::u64_to_string;

verus! {

/// Indentation used throughout the generated F# text.
pub const INDENT: usize = 4;

/// A construct that is valid in the typed tree but has no lowering defined
/// for this target.
#[derive(Clone, PartialEq, Eq, Debug)]
pub enum Error {
    Unsupported { feature: String, location: SrcSpan },
}

/// The runtime helper that splits a scrutinee on a literal string prefix.
pub const STRING_PATTERN_PREFIX: &'static str = "Gleam__codegen__prefix";

/// The helper variant that also hands the prefix back as part of a pair.
pub const STRING_PATTERN_PARTS: &'static str = "Gleam_codegen_string_parts";

/// The F# reserved words and contextual keywords that must never appear as
/// bare identifiers in generated output.
pub open spec fn reserved_spec(s: Seq<char>) -> bool {
    ||| s == "asr"@ ||| s == "land"@ ||| s == "lor"@ ||| s == "lsl"@
    ||| s == "lsr"@ ||| s == "lxor"@ ||| s == "mod"@ ||| s == "sig"@
    ||| s == "break"@ ||| s == "checked"@ ||| s == "component"@ ||| s == "const"@
    ||| s == "constraint"@ ||| s == "continue"@ ||| s == "event"@ ||| s == "external"@
    ||| s == "include"@ ||| s == "mixin"@ ||| s == "parallel"@ ||| s == "process"@
    ||| s == "protected"@ ||| s == "pure"@ ||| s == "sealed"@ ||| s == "tailcall"@
    ||| s == "trait"@ ||| s == "virtual"@ ||| s == "abstract"@ ||| s == "and"@
    ||| s == "as"@ ||| s == "assert"@ ||| s == "base"@ ||| s == "begin"@
    ||| s == "class"@ ||| s == "default"@ ||| s == "delegate"@ ||| s == "do"@
    ||| s == "done"@ ||| s == "downcast"@ ||| s == "downto"@ ||| s == "elif"@
    ||| s == "else"@ ||| s == "end"@ ||| s == "exception"@ ||| s == "extern"@
    ||| s == "false"@ ||| s == "finally"@ ||| s == "fixed"@ ||| s == "for"@
    ||| s == "fun"@ ||| s == "function"@ ||| s == "global"@ ||| s == "if"@
    ||| s == "in"@ ||| s == "inherit"@ ||| s == "inline"@ ||| s == "interface"@
    ||| s == "internal"@ ||| s == "lazy"@ ||| s == "let"@ ||| s == "match"@
    ||| s == "member"@ ||| s == "module"@ ||| s == "mutable"@ ||| s == "namespace"@
    ||| s == "new"@ ||| s == "not"@ ||| s == "null"@ ||| s == "of"@
    ||| s == "open"@ ||| s == "or"@ ||| s == "override"@ ||| s == "private"@
    ||| s == "public"@ ||| s == "rec"@ ||| s == "return"@ ||| s == "select"@
    ||| s == "static"@ ||| s == "struct"@ ||| s == "then"@ ||| s == "to"@
    ||| s == "true"@ ||| s == "try"@ ||| s == "type"@ ||| s == "upcast"@
    ||| s == "use"@ ||| s == "val"@ ||| s == "void"@ ||| s == "when"@
    ||| s == "while"@ ||| s == "with"@ ||| s == "yield"@
}

/// Whether `name` is a reserved word of the target, to be wrapped in the
/// target's verbatim-identifier escape syntax.
pub fn is_reserved_word(name: &str) -> (r: bool)
    ensures r == reserved_spec(name@),
{
    str_eq_str(name, "asr") || str_eq_str(name, "land") || str_eq_str(name, "lor")
    || str_eq_str(name, "lsl") || str_eq_str(name, "lsr") || str_eq_str(name, "lxor")
    || str_eq_str(name, "mod") || str_eq_str(name, "sig") || str_eq_str(name, "break")
    || str_eq_str(name, "checked") || str_eq_str(name, "component") || str_eq_str(name, "const")
    || str_eq_str(name, "constraint") || str_eq_str(name, "continue") || str_eq_str(name, "event")
    || str_eq_str(name, "external") || str_eq_str(name, "include") || str_eq_str(name, "mixin")
    || str_eq_str(name, "parallel") || str_eq_str(name, "process") || str_eq_str(name, "protected")
    || str_eq_str(name, "pure") || str_eq_str(name, "sealed") || str_eq_str(name, "tailcall")
    || str_eq_str(name, "trait") || str_eq_str(name, "virtual") || str_eq_str(name, "abstract")
    || str_eq_str(name, "and") || str_eq_str(name, "as") || str_eq_str(name, "assert")
    || str_eq_str(name, "base") || str_eq_str(name, "begin") || str_eq_str(name, "class")
    || str_eq_str(name, "default") || str_eq_str(name, "delegate") || str_eq_str(name, "do")
    || str_eq_str(name, "done") || str_eq_str(name, "downcast") || str_eq_str(name, "downto")
    || str_eq_str(name, "elif") || str_eq_str(name, "else") || str_eq_str(name, "end")
    || str_eq_str(name, "exception") || str_eq_str(name, "extern") || str_eq_str(name, "false")
    || str_eq_str(name, "finally") || str_eq_str(name, "fixed") || str_eq_str(name, "for")
    || str_eq_str(name, "fun") || str_eq_str(name, "function") || str_eq_str(name, "global")
    || str_eq_str(name, "if") || str_eq_str(name, "in") || str_eq_str(name, "inherit")
    || str_eq_str(name, "inline") || str_eq_str(name, "interface") || str_eq_str(name, "internal")
    || str_eq_str(name, "lazy") || str_eq_str(name, "let") || str_eq_str(name, "match")
    || str_eq_str(name, "member") || str_eq_str(name, "module") || str_eq_str(name, "mutable")
    || str_eq_str(name, "namespace") || str_eq_str(name, "new") || str_eq_str(name, "not")
    || str_eq_str(name, "null") || str_eq_str(name, "of") || str_eq_str(name, "open")
    || str_eq_str(name, "or") || str_eq_str(name, "override") || str_eq_str(name, "private")
    || str_eq_str(name, "public") || str_eq_str(name, "rec") || str_eq_str(name, "return")
    || str_eq_str(name, "select") || str_eq_str(name, "static") || str_eq_str(name, "struct")
    || str_eq_str(name, "then") || str_eq_str(name, "to") || str_eq_str(name, "true")
    || str_eq_str(name, "try") || str_eq_str(name, "type") || str_eq_str(name, "upcast")
    || str_eq_str(name, "use") || str_eq_str(name, "val") || str_eq_str(name, "void")
    || str_eq_str(name, "when") || str_eq_str(name, "while") || str_eq_str(name, "with")
    || str_eq_str(name, "yield")
}

/// The index of the first `c` in `s`, or the length when absent.
pub open spec fn idx_of(s: Seq<char>, c: char) -> nat
    decreases s.len(),
{
    if s.len() == 0 {
        0
    } else if s[0] == c {
        0
    } else {
        1 + idx_of(s.drop_first(), c)
    }
}

pub proof fn lemma_idx_of(s: Seq<char>, c: char)
    ensures
        idx_of(s, c) <= s.len(),
        forall|j: int| 0 <= j < idx_of(s, c) ==> s[j] != c,
        idx_of(s, c) < s.len() ==> s[idx_of(s, c) as int] == c,
    decreases s.len(),
{
    if s.len() > 0 && s[0] != c {
        lemma_idx_of(s.drop_first(), c);
        assert forall|j: int| 0 <= j < idx_of(s, c) implies s[j] != c by {
            if j > 0 {
                assert(s.drop_first()[j - 1] == s[j]);
            }
        }
        if idx_of(s, c) < s.len() {
            assert(s.drop_first()[idx_of(s, c) - 1] == s[idx_of(s, c) as int]);
        }
    }
}

/// The segments of `s` split on `c`; separators are dropped and empty
/// segments kept.
pub open spec fn split_on(s: Seq<char>, c: char) -> Seq<Seq<char>>
    decreases s.len(),
{
    let i = idx_of(s, c);
    if i >= s.len() {
        seq![s]
    } else {
        seq![s.take(i as int)] + split_on(s.skip(i as int + 1), c)
    }
}

/// Splits a string on a separator character.
#[verifier::loop_isolation(false)]
pub fn split_char(s: &str, c: char) -> (r: Vec<String>)
    ensures
        r@.len() == split_on(s@, c).len(),
        forall|i: int| 0 <= i < r@.len() ==> (#[trigger] r@[i])@ == split_on(s@, c)[i],
    decreases s@.len(),
{
    let len = s.unicode_len();
    let mut i: usize = 0;
    proof {
        lemma_idx_of(s@, c);
        assert(s@.skip(0) =~= s@);
    }
    while i < len && s.get_char(i) != c
        invariant
            i <= s@.len(),
            forall|j: int| 0 <= j < i ==> s@[j] != c,
        decreases s@.len() - i,
    {
        i = i + 1;
    }
    proof {
        assert(i as nat == idx_of(s@, c)) by {
            lemma_idx_of(s@, c);
            if i < len {
                assert(s@[i as int] == c);
                if idx_of(s@, c) < i {
                    assert(s@[idx_of(s@, c) as int] == c);
                }
            } else {
                if idx_of(s@, c) < s@.len() {
                    assert(s@[idx_of(s@, c) as int] == c);
                }
            }
        }
    }
    if i >= len {
        let mut out: Vec<String> = Vec::new();
        out.push(s.to_owned());
        proof {
            assert(split_on(s@, c) =~= seq![s@]);
        }
        out
    } else {
        let head = s.substring_char(0, i);
        let rest = s.substring_char(i + 1, len);
        proof {
            assert(head@ =~= s@.take(i as int));
            assert(rest@ =~= s@.skip(i as int + 1));
        }
        let mut out: Vec<String> = Vec::new();
        out.push(head.to_owned());
        let mut tail_segments = split_char(rest, c);
        let ghost tail0 = tail_segments@;
        let mut k: usize = 0;
        while k < tail_segments.len()
            invariant
                k <= tail_segments@.len(),
                tail_segments@ == tail0,
                out@.len() == k + 1,
                out@[0]@ == s@.take(i as int),
                forall|j: int| 1 <= j < k + 1 ==> (#[trigger] out@[j])@ == tail0[j - 1]@,
            decreases tail_segments@.len() - k,
        {
            let seg = tail_segments[k].clone();
            out.push(seg);
            k = k + 1;
        }
        proof {
            let parts = split_on(s@, c);
            assert(parts == seq![s@.take(i as int)] + split_on(s@.skip(i as int + 1), c));
            assert forall|j: int| 0 <= j < out@.len() implies (#[trigger] out@[j])@ == parts[j] by {
                if j > 0 {
                    assert(out@[j]@ == tail0[j - 1]@);
                    assert(tail0[j - 1]@ == split_on(rest@, c)[j - 1]);
                }
            }
        }
        out
    }
}

/// The document for one module-path segment: reserved words are wrapped in
/// the target's verbatim-identifier syntax.
pub open spec fn segment_spec(s: Seq<char>) -> SDoc {
    if reserved_spec(s) {
        ssurround(stext(s), stext("``"@), stext("``"@))
    } else {
        stext(s)
    }
}

/// A hierarchical name, split on `/`, each reserved segment escaped, joined
/// with the target's namespace separator.
pub open spec fn sanitize_spec(name: Seq<char>) -> SDoc {
    sjoin(
        Seq::new(split_on(name, '/').len(), |i: int| segment_spec(split_on(name, '/')[i])),
        stext("."@),
    )
}

/// Escapes reserved-word segments of a hierarchical name.
#[verifier::loop_isolation(false)]
pub fn sanitize_name(name: &str) -> (r: Doc)
    ensures r.sdoc() == sanitize_spec(name@),
{
    let segments = split_char(name, '/');
    let mut docs: Vec<Doc> = Vec::new();
    let mut i: usize = 0;
    while i < segments.len()
        invariant
            i <= segments@.len(),
            docs@.len() == i as int,
            forall|j: int| 0 <= j < i
                ==> (#[trigger] docs@[j]).sdoc() == segment_spec(split_on(name@, '/')[j]),
        decreases segments@.len() - i,
    {
        let seg = segments[i].clone();
        if is_reserved_word(seg.as_str()) {
            docs.push(Doc::Text(seg).surround(Doc::Str("``"), Doc::Str("``")));
        } else {
            docs.push(Doc::Text(seg));
        }
        i = i + 1;
    }
    let r = join(docs, &Doc::Str("."));
    proof {
        assert(Seq::new(docs@.len(), |j: int| docs@[j].sdoc())
            =~= Seq::new(split_on(name@, '/').len(), |j: int| segment_spec(split_on(name@, '/')[j])));
    }
    r
}

/// What the escape-sequence rewrite of a string literal returns: a function
/// of the characters alone.
pub uninterp spec fn escape_rewritten(s: Seq<char>) -> Seq<char>;

/// The replacement for one matched escape: a unicode escape behind an odd
/// number of backslashes becomes the target's native `\uXXXX` spelling; an
/// even number means the user escaped it, and it stays as written.
pub open spec fn escape_piece_spec(slashes: Seq<char>, unicode: Seq<char>) -> Seq<char> {
    if slashes.len() % 2 == 0 {
        slashes + "u{"@ + unicode + "}"@
    } else {
        slashes + "u"@ + unicode
    }
}

/// Rewrites one matched escape sequence.
pub fn escape_piece(slashes: &str, unicode: &str) -> (r: String)
    ensures r@ == escape_piece_spec(slashes@, unicode@),
{
    let n = slashes.unicode_len();
    let mut out = slashes.to_owned();
    if n % 2 == 0 {
        out.append("u{");
        out.append(unicode);
        out.append("}");
        proof {
            assert(slashes@ + "u{"@ + unicode@ + "}"@
                =~= escape_piece_spec(slashes@, unicode@));
        }
    } else {
        out.append("u");
        out.append(unicode);
        proof {
            assert(slashes@ + "u"@ + unicode@ =~= escape_piece_spec(slashes@, unicode@));
        }
    }
    out
}

/// Relies on regex's `Regex::replace_all` with the fixed pattern
/// `(\\+)(u)\{(\S+)\}`: every non-overlapping match, left to right, is
/// replaced by what `escape_piece` returns for its captured groups, and the
/// rest of the text is kept; the result depends on the characters alone.
/// A text without a backslash has no match and comes back unchanged.
#[verifier::external_body]
fn rewrite_unicode_escapes(value: &str) -> (r: String)
    ensures
        r@ == escape_rewritten(value@),
        !value@.contains('\\') ==> r@ == value@,
        value@.len() == 0 ==> r@.len() == 0,
{
    let pattern = regex::Regex::new(r#"(\\+)(u)\{(\S+)\}"#)
        .expect("unicode escape sequence regex is valid");
    let replaced = pattern.replace_all(value, |caps: &regex::Captures<'_>| {
        let slashes = caps.get(1).map_or("", |m| m.as_str());
        let unicode = caps.get(3).map_or("", |m| m.as_str());
        escape_piece(slashes, unicode)
    });
    replaced.into_owned()
}

/// The inner text of a string literal, unicode escapes normalized.
pub open spec fn string_inner_spec(value: Seq<char>) -> SDoc {
    stext(escape_rewritten(value))
}

/// A quoted string literal, unicode escapes normalized.
pub open spec fn string_spec(value: Seq<char>) -> SDoc {
    ssurround(string_inner_spec(value), stext("\""@), stext("\""@))
}

pub fn string_inner(value: &str) -> (r: Doc)
    ensures r.sdoc() == string_inner_spec(value@),
{
    Doc::Text(rewrite_unicode_escapes(value))
}

pub fn string(value: &str) -> (r: Doc)
    ensures r.sdoc() == string_spec(value@),
{
    string_inner(value).surround(Doc::Str("\""), Doc::Str("\""))
}

pub open spec fn publicity_spec(p: Publicity) -> SDoc {
    match p {
        Publicity::Public => SDoc::Nil,
        Publicity::Internal => stext("internal "@),
        Publicity::Private => stext("private "@),
    }
}

pub fn map_publicity(p: &Publicity) -> (r: Doc)
    ensures r.sdoc() == publicity_spec(*p),
{
    match p {
        Publicity::Public => Doc::Nil,
        Publicity::Internal => Doc::Str("internal "),
        Publicity::Private => Doc::Str("private "),
    }
}

/// The F# spelling of a resolved type.
pub open spec fn type_spec(t: Type) -> SDoc
    decreases t,
{
    if t.spec_is_nil() {
        stext("unit"@)
    } else {
        match t {
            Type::Named { name, args } => {
                let base = if name@ == "Int"@ || name@ == "int"@ { stext("int"@) }
                    else if name@ == "Float"@ || name@ == "float"@ { stext("float"@) }
                    else if name@ == "String"@ || name@ == "string"@ { stext("string"@) }
                    else if name@ == "Bool"@ || name@ == "bool"@ { stext("bool"@) }
                    else if name@ == "Nil"@ { stext("unit"@) }
                    else if name@ == "List"@ { stext("list"@) }
                    else { stext(name@) };
                if args@.len() == 0 {
                    base
                } else {
                    sapp(sapp(sapp(base, stext("<"@)),
                        sjoin(types_docs(args@), stext(", "@))), stext(">"@))
                }
            },
            Type::Fun { args, ret } => {
                let arg_types = if args@.len() == 0 {
                    stext("unit"@)
                } else {
                    sjoin(types_docs(args@), stext(" -> "@))
                };
                sapp(sapp(arg_types, stext(" -> "@)), type_spec(*ret))
            },
            Type::Tuple { elems } => ssurround(
                sjoin(types_docs(elems@), stext("; "@)),
                stext("("@), stext(")"@)),
            Type::Unbound { id } => stext("'u"@ + dec_digits(id as nat)),
            Type::Generic { id } => stext("'t"@ + dec_digits(id as nat)),
        }
    }
}

pub open spec fn types_docs(ts: Seq<Type>) -> Seq<SDoc>
    decreases ts,
{
    if ts.len() == 0 {
        Seq::empty()
    } else {
        seq![type_spec(ts[0])] + types_docs(ts.drop_first())
    }
}

pub proof fn lemma_types_docs(ts: Seq<Type>)
    ensures
        types_docs(ts).len() == ts.len(),
        forall|i: int| 0 <= i < ts.len() ==> types_docs(ts)[i] == type_spec(ts[i]),
    decreases ts.len(),
{
    if ts.len() > 0 {
        lemma_types_docs(ts.drop_first());
    }
}

/// Writes out a resolved type in F# syntax.
#[verifier::loop_isolation(false)]
pub fn type_to_fsharp(t: &Type) -> (r: Doc)
    ensures r.sdoc() == type_spec(*t),
    decreases *t,
{
    if t.is_nil() {
        return Doc::Str("unit");
    }
    match t {
        Type::Named { name, args } => {
            let base = if str_eq_str(name.as_str(), "Int") || str_eq_str(name.as_str(), "int") {
                Doc::Str("int")
            } else if str_eq_str(name.as_str(), "Float") || str_eq_str(name.as_str(), "float") {
                Doc::Str("float")
            } else if str_eq_str(name.as_str(), "String") || str_eq_str(name.as_str(), "string") {
                Doc::Str("string")
            } else if str_eq_str(name.as_str(), "Bool") || str_eq_str(name.as_str(), "bool") {
                Doc::Str("bool")
            } else if str_eq_str(name.as_str(), "Nil") {
                Doc::Str("unit")
            } else if str_eq_str(name.as_str(), "List") {
                Doc::Str("list")
            } else {
                Doc::Text(name.clone())
            };
            if args.len() == 0 {
                base
            } else {
                let ds = types_to_docs(args);
                base.append(Doc::Str("<"))
                    .append(join(ds, &Doc::Str(", ")))
                    .append(Doc::Str(">"))
            }
        }
        Type::Fun { args, ret } => {
            let arg_types = if args.len() == 0 {
                Doc::Str("unit")
            } else {
                join(types_to_docs(args), &Doc::Str(" -> "))
            };
            arg_types.append(Doc::Str(" -> ")).append(type_to_fsharp(ret))
        }
        Type::Tuple { elems } => join(types_to_docs(elems), &Doc::Str("; "))
            .surround(Doc::Str("("), Doc::Str(")")),
        Type::Unbound { id } => {
            let mut s: String = "'u".to_owned();
            s.append(u64_to_string(*id).as_str());
            Doc::Text(s)
        }
        Type::Generic { id } => {
            let mut s: String = "'t".to_owned();
            s.append(u64_to_string(*id).as_str());
            Doc::Text(s)
        }
    }
}

#[verifier::loop_isolation(false)]
fn types_to_docs(ts: &Vec<Type>) -> (r: Vec<Doc>)
    ensures Seq::new(r@.len(), |i: int| r@[i].sdoc()) == types_docs(ts@),
    decreases ts@,
{
    let mut docs: Vec<Doc> = Vec::new();
    let mut i: usize = 0;
    while i < ts.len()
        invariant
            i <= ts@.len(),
            docs@.len() == i as int,
            forall|j: int| 0 <= j < i ==> (#[trigger] docs@[j]).sdoc() == type_spec(ts@[j]),
        decreases ts@.len() - i,
    {
        proof {
            assert(decreases_to!(ts@ => ts@[i as int]));
        }
        docs.push(type_to_fsharp(&ts[i]));
        i = i + 1;
    }
    proof {
        lemma_types_docs(ts@);
        assert(Seq::new(docs@.len(), |i: int| docs@[i].sdoc()) =~= types_docs(ts@));
    }
    docs
}

/// A parenthesized, comma-separated tuple.
pub open spec fn stuple(ds: Seq<SDoc>) -> SDoc {
    ssurround(sjoin(ds, stext(", "@)), stext("("@), stext(")"@))
}

/// A bracketed, semicolon-separated list.
pub open spec fn slist(ds: Seq<SDoc>) -> SDoc {
    ssurround(sgroup(sjoin(ds, stext("; "@))), stext("["@), stext("]"@))
}

/// Call arguments wrapped in parentheses, breaking as a unit.
pub open spec fn swrap_args(ds: Seq<SDoc>) -> SDoc {
    sgroup(ssurround(
        sapp(
            snest(4, sapp(crate::doc::sbrk(""@, ""@), sjoin(ds, crate::doc::sbrk(","@, ", "@)))),
            crate::doc::sbrk(""@, ""@),
        ),
        stext("("@),
        stext(")"@),
    ))
}

/// An optionally module-qualified constructor application.
pub open spec fn sconstruct_type(module: Option<Seq<char>>, name: Seq<char>, args: Seq<SDoc>) -> SDoc {
    let name_doc = match module {
        Some(m) => sapp(sapp(stext(m), stext("."@)), stext(name)),
        Option::None => stext(name),
    };
    if args.len() > 0 {
        sgroup(sapp(sapp(sapp(sapp(name_doc, stext("("@)),
            snest(4, sapp(crate::doc::sbrk(""@, ""@), sjoin(args, crate::doc::sbrk(","@, ", "@))))),
            crate::doc::sbrk(","@, ""@)), stext(")"@)))
    } else {
        sapp(name_doc, stext("()"@))
    }
}

/// The fresh argument names of an eta-expanded constructor reference.
pub open spec fn svars(arity: nat) -> Seq<SDoc> {
    Seq::new(arity, |i: int| stext("var"@ + dec_digits(i as nat)))
}

/// A reference to a constructor used as a value: booleans and nil lower to
/// native literals, a zero-arity constructor to a call, and anything else
/// to an anonymous function applying it.
pub open spec fn stype_constructor(typ: Type, qualifier: Option<Seq<char>>, name: Seq<char>, arity: nat) -> SDoc {
    if typ.spec_is_bool() && name == "True"@ {
        stext("true"@)
    } else if typ.spec_is_bool() {
        stext("false"@)
    } else if typ.spec_is_nil() {
        stext("undefined"@)
    } else if arity == 0 {
        match qualifier {
            Some(m) => sapp(sapp(sapp(stext(m), stext("."@)), stext(name)), stext("()"@)),
            Option::None => sapp(stext(name), stext("()"@)),
        }
    } else {
        let body = sconstruct_type(qualifier, name, svars(arity));
        sapp(
            sgroup(sapp(
                snest(4, sapp(sapp(sapp(sapp(stext("fun "@), swrap_args(svars(arity))),
                    stext(" -> begin"@)), crate::doc::sbrk(""@, " "@)), body)),
                crate::doc::sbrk(""@, " "@),
            )),
            stext("end"@),
        )
    }
}

/// The lowered form of a compile-time constant.
pub open spec fn const_spec(c: Constant, values: Seq<ModuleValue>) -> SDoc
    decreases c, 0int,
{
    match c {
        Constant::IntLit { value } => stext(value@),
        Constant::FloatLit { value } => stext(value@),
        Constant::StringLit { value } => string_spec(value@),
        Constant::Tuple { elements } => stuple(consts_docs(elements@, values)),
        Constant::List { elements } => slist(consts_docs(elements@, values)),
        Constant::Record { module, name, args, tag, typ, field_map } => {
            if typ.spec_is_bool() && name@ == "True"@ {
                stext("true"@)
            } else if typ.spec_is_bool() && name@ == "False"@ {
                stext("false"@)
            } else if typ.spec_is_nil() {
                stext("()"@)
            } else if record_shape_of(values, name@) is Some {
                let fm = record_shape_of(values, name@)->0;
                ssurround(
                    sgroup(sjoin(const_record_fields(args@, fm, 0, values), stext("; "@))),
                    stext("{ "@),
                    stext(" }"@),
                )
            } else if typ.spec_fn_arity() is Some && args@.len() == 0 && typ.spec_fn_arity()->0 != 0 {
                stype_constructor(typ, Option::None, name@, typ.spec_fn_arity()->0)
            } else if field_map is None && args@.len() == 0 {
                stext(tag@)
            } else {
                sconstruct_type(
                    match module { Some(m) => Some(m@), Option::None => Option::None },
                    name@,
                    const_args_docs(args@, values),
                )
            }
        },
        Constant::BitArray => stext("//TODO: Constant::BitArray"@),
        Constant::Var { module, name } => match module {
            Option::None => sanitize_spec(name@),
            Some(m) => sapp(sapp(stext(m@), stext("."@)), sanitize_spec(name@)),
        },
        Constant::StringConcatenation { left, right } => sapp(
            sapp(const_spec(*left, values), stext(" + "@)),
            const_spec(*right, values),
        ),
        Constant::Invalid => vstd::pervasive::arbitrary(),
    }
}

pub open spec fn consts_docs(es: Seq<Constant>, values: Seq<ModuleValue>) -> Seq<SDoc>
    decreases es, 0int,
{
    if es.len() == 0 {
        Seq::empty()
    } else {
        seq![const_spec(es[0], values)] + consts_docs(es.drop_first(), values)
    }
}

pub proof fn lemma_consts_docs(es: Seq<Constant>, values: Seq<ModuleValue>)
    ensures
        consts_docs(es, values).len() == es.len(),
        forall|i: int| 0 <= i < es.len() ==> consts_docs(es, values)[i] == const_spec(es[i], values),
    decreases es.len(),
{
    if es.len() > 0 {
        lemma_consts_docs(es.drop_first(), values);
    }
}

pub open spec fn const_args_docs(args: Seq<ConstantArg>, values: Seq<ModuleValue>) -> Seq<SDoc>
    decreases args, 0int,
{
    if args.len() == 0 {
        Seq::empty()
    } else {
        seq![const_spec(args[0].value, values)] + const_args_docs(args.drop_first(), values)
    }
}

pub proof fn lemma_const_args_docs(args: Seq<ConstantArg>, values: Seq<ModuleValue>)
    ensures
        const_args_docs(args, values).len() == args.len(),
        forall|i: int| 0 <= i < args.len()
            ==> const_args_docs(args, values)[i] == const_spec(args[i].value, values),
    decreases args.len(),
{
    if args.len() > 0 {
        lemma_const_args_docs(args.drop_first(), values);
    }
}

/// The labeled fields of a record constant, in argument order, each label
/// recovered from the inverted field map.
pub open spec fn const_record_fields(args: Seq<ConstantArg>, fm: FieldMap, i: int, values: Seq<ModuleValue>) -> Seq<SDoc>
    decreases args, args.len() - i,
{
    if i < 0 || i >= args.len() {
        Seq::empty()
    } else {
        seq![sapp(sapp(stext(fm_at(fm.fields@, i)->0.label@), stext(" = "@)),
            const_spec(args[i].value, values))]
            + const_record_fields(args, fm, i + 1, values)
    }
}

pub proof fn lemma_const_record_fields(args: Seq<ConstantArg>, fm: FieldMap, i: int, values: Seq<ModuleValue>)
    requires 0 <= i <= args.len(),
    ensures
        const_record_fields(args, fm, i, values).len() == args.len() - i,
        forall|k: int| 0 <= k < args.len() - i
            ==> const_record_fields(args, fm, i, values)[k]
                == sapp(sapp(stext(fm_at(fm.fields@, i + k)->0.label@), stext(" = "@)),
                    const_spec(args[i + k].value, values)),
    decreases args.len() - i,
{
    if i < args.len() {
        lemma_const_record_fields(args, fm, i + 1, values);
    }
}

/// The sequence of documents a loop over `ds` denotes.
pub open spec fn sdocs(ds: Seq<Doc>) -> Seq<SDoc> {
    Seq::new(ds.len(), |i: int| ds[i].sdoc())
}

/// A parenthesized, comma-separated tuple.
pub fn tuple_of(ds: Vec<Doc>) -> (r: Doc)
    ensures r.sdoc() == stuple(sdocs(ds@)),
{
    join(ds, &Doc::Str(", ")).surround(Doc::Str("("), Doc::Str(")"))
}

/// A bracketed, semicolon-separated list.
pub fn list_of(ds: Vec<Doc>) -> (r: Doc)
    ensures r.sdoc() == slist(sdocs(ds@)),
{
    join(ds, &Doc::Str("; ")).group().surround(Doc::Str("["), Doc::Str("]"))
}

/// Wraps call arguments in parentheses that break as a unit.
pub fn wrap_args(ds: Vec<Doc>) -> (r: Doc)
    ensures r.sdoc() == swrap_args(sdocs(ds@)),
{
    let joined = join(ds, &Doc::Break { broken: ",", unbroken: ", " });
    Doc::Break { broken: "", unbroken: "" }
        .append(joined)
        .nest(INDENT)
        .append(Doc::Break { broken: "", unbroken: "" })
        .surround(Doc::Str("("), Doc::Str(")"))
        .group()
}

/// An optionally module-qualified constructor application.
pub fn construct_type(module: Option<&String>, name: &String, args: Vec<Doc>) -> (r: Doc)
    ensures r.sdoc() == sconstruct_type(
        match module { Some(m) => Some(m@), Option::None => Option::None },
        name@,
        sdocs(args@),
    ),
{
    let name_doc = match module {
        Some(m) => Doc::Text(m.clone()).append(Doc::Str(".")).append(Doc::Text(name.clone())),
        Option::None => Doc::Text(name.clone()),
    };
    if args.len() > 0 {
        let joined = join(args, &Doc::Break { broken: ",", unbroken: ", " });
        name_doc
            .append(Doc::Str("("))
            .append(Doc::Break { broken: "", unbroken: "" }.append(joined).nest(INDENT))
            .append(Doc::Break { broken: ",", unbroken: "" })
            .append(Doc::Str(")"))
            .group()
    } else {
        name_doc.append(Doc::Str("()"))
    }
}

/// A constructor used as a value.
#[verifier::loop_isolation(false)]
pub fn type_constructor(typ: &Type, qualifier: Option<&String>, name: &String, arity: u64) -> (r: Doc)
    ensures r.sdoc() == stype_constructor(
        *typ,
        match qualifier { Some(m) => Some(m@), Option::None => Option::None },
        name@,
        arity as nat,
    ),
{
    if typ.is_bool() && str_eq_str(name.as_str(), "True") {
        Doc::Str("true")
    } else if typ.is_bool() {
        Doc::Str("false")
    } else if typ.is_nil() {
        Doc::Str("undefined")
    } else if arity == 0 {
        match qualifier {
            Some(m) => Doc::Text(m.clone())
                .append(Doc::Str("."))
                .append(Doc::Text(name.clone()))
                .append(Doc::Str("()")),
            Option::None => Doc::Text(name.clone()).append(Doc::Str("()")),
        }
    } else {
        let mut vars_a: Vec<Doc> = Vec::new();
        let mut vars_b: Vec<Doc> = Vec::new();
        let mut i: u64 = 0;
        while i < arity
            invariant
                i <= arity,
                vars_a@.len() == i as int,
                vars_b@.len() == i as int,
                forall|j: int| 0 <= j < i
                    ==> (#[trigger] vars_a@[j]).sdoc() == stext("var"@ + dec_digits(j as nat)),
                forall|j: int| 0 <= j < i
                    ==> (#[trigger] vars_b@[j]).sdoc() == stext("var"@ + dec_digits(j as nat)),
            decreases arity - i,
        {
            let mut text_a: String = "var".to_owned();
            text_a.append(u64_to_string(i).as_str());
            let mut text_b: String = "var".to_owned();
            text_b.append(u64_to_string(i).as_str());
            vars_a.push(Doc::Text(text_a));
            vars_b.push(Doc::Text(text_b));
            i = i + 1;
        }
        proof {
            assert(sdocs(vars_a@) =~= svars(arity as nat));
            assert(sdocs(vars_b@) =~= svars(arity as nat));
        }
        let body = construct_type(qualifier, name, vars_b);
        Doc::Str("fun ")
            .append(wrap_args(vars_a))
            .append(Doc::Str(" -> begin"))
            .append(Doc::Break { broken: "", unbroken: " " })
            .append(body)
            .nest(INDENT)
            .append(Doc::Break { broken: "", unbroken: " " })
            .group()
            .append(Doc::Str("end"))
    }
}

/// Looks up whether `name` resolves to a genuine record constructor.
fn record_shape_lookup<'a>(values: &'a Vec<ModuleValue>, name: &String) -> (r: Option<&'a FieldMap>)
    ensures
        r is Some <==> record_shape_of(values@, name@) is Some,
        r is Some ==> *r->0 == record_shape_of(values@, name@)->0,
{
    match crate::ast::lookup_value(values, name) {
        Some(k) => match k {
            ValueKind::RecordConstructor { name: ctor_name, arity, field_map, constructors_count } => {
                match field_map {
                    Some(fm) => {
                        if *constructors_count == 1
                            && *ctor_name == *name
                            && *arity == fm.fields.len() as u64
                        {
                            Some(fm)
                        } else {
                            Option::None
                        }
                    }
                    Option::None => Option::None,
                }
            }
            _ => Option::None,
        },
        Option::None => Option::None,
    }
}

/// Writes out a compile-time constant.
#[verifier::loop_isolation(false)]
pub fn constant_expression(c: &Constant, values: &Vec<ModuleValue>) -> (r: Doc)
    requires crate::ast::const_wf(*c, values@),
    ensures r.sdoc() == const_spec(*c, values@),
    decreases *c, 0int,
{
    match c {
        Constant::IntLit { value } => Doc::Text(value.clone()),
        Constant::FloatLit { value } => Doc::Text(value.clone()),
        Constant::StringLit { value } => string(value.as_str()),
        Constant::Tuple { elements } => {
            let mut docs: Vec<Doc> = Vec::new();
            let mut i: usize = 0;
            while i < elements.len()
                invariant
                    i <= elements@.len(),
                    docs@.len() == i as int,
                    forall|j: int| 0 <= j < i
                        ==> (#[trigger] docs@[j]).sdoc() == const_spec(elements@[j], values@),
                decreases elements@.len() - i,
            {
                proof {
                    assert(decreases_to!(*c => c->Tuple_elements));
                    assert(decreases_to!(*elements => elements@));
                    assert(decreases_to!(elements@ => elements@[i as int]));
                }
                docs.push(constant_expression(&elements[i], values));
                i = i + 1;
            }
            let r = tuple_of(docs);
            proof {
                lemma_consts_docs(elements@, values@);
                assert(sdocs(docs@) =~= consts_docs(elements@, values@));
            }
            r
        }
        Constant::List { elements } => {
            let mut docs: Vec<Doc> = Vec::new();
            let mut i: usize = 0;
            while i < elements.len()
                invariant
                    i <= elements@.len(),
                    docs@.len() == i as int,
                    forall|j: int| 0 <= j < i
                        ==> (#[trigger] docs@[j]).sdoc() == const_spec(elements@[j], values@),
                decreases elements@.len() - i,
            {
                proof {
                    assert(decreases_to!(*c => c->List_elements));
                    assert(decreases_to!(*elements => elements@));
                    assert(decreases_to!(elements@ => elements@[i as int]));
                }
                docs.push(constant_expression(&elements[i], values));
                i = i + 1;
            }
            let r = list_of(docs);
            proof {
                lemma_consts_docs(elements@, values@);
                assert(sdocs(docs@) =~= consts_docs(elements@, values@));
            }
            r
        }
        Constant::Record { module, name, args, tag, typ, field_map } => {
            if typ.is_bool() && str_eq_str(name.as_str(), "True") {
                Doc::Str("true")
            } else if typ.is_bool() && str_eq_str(name.as_str(), "False") {
                Doc::Str("false")
            } else if typ.is_nil() {
                Doc::Str("()")
            } else {
                match record_shape_lookup(values, name) {
                    Some(fm) => {
                        let ghost gfm = record_shape_of(values@, name@)->0;
                        let mut docs: Vec<Doc> = Vec::new();
                        let mut i: usize = 0;
                        while i < args.len()
                            invariant
                                i <= args@.len(),
                                docs@.len() == i as int,
                                forall|j: int| 0 <= j < i
                                    ==> (#[trigger] docs@[j]).sdoc()
                                        == sapp(sapp(stext(fm_at(gfm.fields@, j)->0.label@), stext(" = "@)),
                                            const_spec(args@[j].value, values@)),
                            decreases args@.len() - i,
                        {
                            proof {
                                crate::ast::lemma_fm_at_total(gfm, i as int);
                            }
                            let label = match fm.label_at(i as u64) {
                                Some(l) => l.clone(),
                                Option::None => {
                                    proof {
                                        assert(false);
                                    }
                                    String::new()
                                }
                            };
                            proof {
                                assert(decreases_to!(*c => c->Record_args));
                                assert(decreases_to!(*args => args@));
                                assert(decreases_to!(args@ => args@[i as int]));
                                assert(decreases_to!(args@[i as int] => args@[i as int].value));
                            }
                            let inner = constant_expression(&args[i].value, values);
                            docs.push(Doc::Text(label).append(Doc::Str(" = ")).append(inner));
                            i = i + 1;
                        }
                        let r = join(docs, &Doc::Str("; "))
                            .group()
                            .surround(Doc::Str("{ "), Doc::Str(" }"));
                        proof {
                            lemma_const_record_fields(args@, gfm, 0, values@);
                            assert(sdocs(docs@) =~= const_record_fields(args@, gfm, 0, values@));
                        }
                        r
                    }
                    Option::None => {
                        let is_fun_nonzero = match typ {
                            Type::Fun { args: targs, .. } => targs.len() != 0,
                            _ => false,
                        };
                        if is_fun_nonzero && args.len() == 0 {
                            let arity: usize = match typ {
                                Type::Fun { args: targs, .. } => targs.len(),
                                _ => 0,
                            };
                            type_constructor(typ, Option::None, name, arity as u64)
                        } else if field_map.is_none() && args.len() == 0 {
                            Doc::Text(tag.clone())
                        } else {
                            let mut docs: Vec<Doc> = Vec::new();
                            let mut i: usize = 0;
                            while i < args.len()
                                invariant
                                    i <= args@.len(),
                                    docs@.len() == i as int,
                                    forall|j: int| 0 <= j < i
                                        ==> (#[trigger] docs@[j]).sdoc()
                                            == const_spec(args@[j].value, values@),
                                decreases args@.len() - i,
                            {
                                proof {
                                    assert(decreases_to!(*c => c->Record_args));
                                    assert(decreases_to!(*args => args@));
                                    assert(decreases_to!(args@ => args@[i as int]));
                                    assert(decreases_to!(args@[i as int] => args@[i as int].value));
                                }
                                docs.push(constant_expression(&args[i].value, values));
                                i = i + 1;
                            }
                            let r = construct_type(module.as_ref(), name, docs);
                            proof {
                                lemma_const_args_docs(args@, values@);
                                assert(sdocs(docs@) =~= const_args_docs(args@, values@));
                            }
                            r
                        }
                    }
                }
            }
        }
        Constant::BitArray => Doc::Str("//TODO: Constant::BitArray"),
        Constant::Var { module, name } => match module {
            Option::None => sanitize_name(name.as_str()),
            Some(m) => Doc::Text(m.clone())
                .append(Doc::Str("."))
                .append(sanitize_name(name.as_str())),
        },
        Constant::StringConcatenation { left, right } => {
            let l = constant_expression(left, values);
            let r = constant_expression(right, values);
            l.append(Doc::Str(" + ")).append(r)
        }
        Constant::Invalid => {
            proof {
                assert(false);
            }
            Doc::Nil
        }
    }
}

/// The operator a binary guard renders with, spaces included.
pub open spec fn guard_op(g: ClauseGuard) -> Option<Seq<char>> {
    match g {
        ClauseGuard::Or { .. } => Some(" || "@),
        ClauseGuard::And { .. } => Some(" && "@),
        ClauseGuard::Equals { .. } => Some(" = "@),
        ClauseGuard::NotEquals { .. } => Some(" <> "@),
        ClauseGuard::GtInt { .. } | ClauseGuard::GtFloat { .. } => Some(" > "@),
        ClauseGuard::GtEqInt { .. } | ClauseGuard::GtEqFloat { .. } => Some(" >= "@),
        ClauseGuard::LtInt { .. } | ClauseGuard::LtFloat { .. } => Some(" < "@),
        ClauseGuard::LtEqInt { .. } | ClauseGuard::LtEqFloat { .. } => Some(" =< "@),
        ClauseGuard::AddInt { .. } | ClauseGuard::AddFloat { .. } => Some(" + "@),
        ClauseGuard::SubInt { .. } | ClauseGuard::SubFloat { .. } => Some(" - "@),
        ClauseGuard::MultInt { .. } | ClauseGuard::MultFloat { .. } => Some(" * "@),
        ClauseGuard::DivInt { .. } | ClauseGuard::DivFloat { .. } => Some(" / "@),
        ClauseGuard::RemainderInt { .. } => Some(" % "@),
        _ => Option::None,
    }
}

/// Whether the guard is itself a binary or boolean operator, the forms that
/// must be parenthesized when used as an operand of another operator.
pub open spec fn guard_is_operator(g: ClauseGuard) -> bool {
    guard_op(g) is Some
}

/// A guard as an operand: operators are wrapped in explicit parentheses to
/// preserve the source's precedence; leaf forms are left bare.
pub open spec fn clause_guard_spec(g: ClauseGuard, values: Seq<ModuleValue>) -> SDoc
    decreases g, 1int,
{
    if guard_is_operator(g) {
        sapp(sapp(stext("("@), bare_guard_spec(g, values)), stext(")"@))
    } else {
        bare_guard_spec(g, values)
    }
}

/// A guard written out without outer parentheses.
pub open spec fn bare_guard_spec(g: ClauseGuard, values: Seq<ModuleValue>) -> SDoc
    decreases g, 0int,
{
    match g {
        ClauseGuard::Not { expression } => sapp(stext("not "@), bare_guard_spec(*expression, values)),
        ClauseGuard::Or { left, right } => sapp(sapp(clause_guard_spec(*left, values), stext(" || "@)), clause_guard_spec(*right, values)),
        ClauseGuard::And { left, right } => sapp(sapp(clause_guard_spec(*left, values), stext(" && "@)), clause_guard_spec(*right, values)),
        ClauseGuard::Equals { left, right } => sapp(sapp(clause_guard_spec(*left, values), stext(" = "@)), clause_guard_spec(*right, values)),
        ClauseGuard::NotEquals { left, right } => sapp(sapp(clause_guard_spec(*left, values), stext(" <> "@)), clause_guard_spec(*right, values)),
        ClauseGuard::GtInt { left, right } => sapp(sapp(clause_guard_spec(*left, values), stext(" > "@)), clause_guard_spec(*right, values)),
        ClauseGuard::GtFloat { left, right } => sapp(sapp(clause_guard_spec(*left, values), stext(" > "@)), clause_guard_spec(*right, values)),
        ClauseGuard::GtEqInt { left, right } => sapp(sapp(clause_guard_spec(*left, values), stext(" >= "@)), clause_guard_spec(*right, values)),
        ClauseGuard::GtEqFloat { left, right } => sapp(sapp(clause_guard_spec(*left, values), stext(" >= "@)), clause_guard_spec(*right, values)),
        ClauseGuard::LtInt { left, right } => sapp(sapp(clause_guard_spec(*left, values), stext(" < "@)), clause_guard_spec(*right, values)),
        ClauseGuard::LtFloat { left, right } => sapp(sapp(clause_guard_spec(*left, values), stext(" < "@)), clause_guard_spec(*right, values)),
        ClauseGuard::LtEqInt { left, right } => sapp(sapp(clause_guard_spec(*left, values), stext(" =< "@)), clause_guard_spec(*right, values)),
        ClauseGuard::LtEqFloat { left, right } => sapp(sapp(clause_guard_spec(*left, values), stext(" =< "@)), clause_guard_spec(*right, values)),
        ClauseGuard::AddInt { left, right } => sapp(sapp(clause_guard_spec(*left, values), stext(" + "@)), clause_guard_spec(*right, values)),
        ClauseGuard::AddFloat { left, right } => sapp(sapp(clause_guard_spec(*left, values), stext(" + "@)), clause_guard_spec(*right, values)),
        ClauseGuard::SubInt { left, right } => sapp(sapp(clause_guard_spec(*left, values), stext(" - "@)), clause_guard_spec(*right, values)),
        ClauseGuard::SubFloat { left, right } => sapp(sapp(clause_guard_spec(*left, values), stext(" - "@)), clause_guard_spec(*right, values)),
        ClauseGuard::MultInt { left, right } => sapp(sapp(clause_guard_spec(*left, values), stext(" * "@)), clause_guard_spec(*right, values)),
        ClauseGuard::MultFloat { left, right } => sapp(sapp(clause_guard_spec(*left, values), stext(" * "@)), clause_guard_spec(*right, values)),
        ClauseGuard::DivInt { left, right } => sapp(sapp(clause_guard_spec(*left, values), stext(" / "@)), clause_guard_spec(*right, values)),
        ClauseGuard::DivFloat { left, right } => sapp(sapp(clause_guard_spec(*left, values), stext(" / "@)), clause_guard_spec(*right, values)),
        ClauseGuard::RemainderInt { left, right } => sapp(sapp(clause_guard_spec(*left, values), stext(" % "@)), clause_guard_spec(*right, values)),
        ClauseGuard::Var { name } => stext(name@),
        ClauseGuard::Constant(c) => const_spec(c, values),
        _ => stext("// TODO: Implement other guard types"@),
    }
}

/// A clause's `when` part: every guard is parenthesized when several are
/// combined with `&&`, whatever its own precedence.
pub open spec fn opt_guard_spec(guard: Option<ClauseGuard>, additional: Seq<SDoc>, values: Seq<ModuleValue>) -> SDoc {
    let all = additional + (match guard {
        Some(g) => seq![bare_guard_spec(g, values)],
        Option::None => Seq::empty(),
    });
    let wrapped = if all.len() > 1 {
        Seq::new(all.len(), |i: int| ssurround(all[i], stext("("@), stext(")"@)))
    } else {
        all
    };
    let joined = sjoin(wrapped, stext(" && "@));
    if all.len() == 0 {
        joined
    } else {
        sapp(stext(" when "@), joined)
    }
}

/// Writes a guard out as an operand, parenthesized when it is an operator.
pub fn clause_guard(g: &ClauseGuard, values: &Vec<ModuleValue>) -> (r: Doc)
    requires crate::ast::guard_wf(*g, values@),
    ensures r.sdoc() == clause_guard_spec(*g, values@),
    decreases *g, 1int,
{
    let is_operator = matches!(g,
        ClauseGuard::Or { .. } | ClauseGuard::And { .. }
        | ClauseGuard::Equals { .. } | ClauseGuard::NotEquals { .. }
        | ClauseGuard::GtInt { .. } | ClauseGuard::GtEqInt { .. }
        | ClauseGuard::LtInt { .. } | ClauseGuard::LtEqInt { .. }
        | ClauseGuard::GtFloat { .. } | ClauseGuard::GtEqFloat { .. }
        | ClauseGuard::LtFloat { .. } | ClauseGuard::LtEqFloat { .. }
        | ClauseGuard::AddInt { .. } | ClauseGuard::AddFloat { .. }
        | ClauseGuard::SubInt { .. } | ClauseGuard::SubFloat { .. }
        | ClauseGuard::MultInt { .. } | ClauseGuard::MultFloat { .. }
        | ClauseGuard::DivInt { .. } | ClauseGuard::DivFloat { .. }
        | ClauseGuard::RemainderInt { .. });
    if is_operator {
        Doc::Str("(").append(bare_clause_guard(g, values)).append(Doc::Str(")"))
    } else {
        bare_clause_guard(g, values)
    }
}

/// Writes a guard out without outer parentheses.
pub fn bare_clause_guard(g: &ClauseGuard, values: &Vec<ModuleValue>) -> (r: Doc)
    requires crate::ast::guard_wf(*g, values@),
    ensures r.sdoc() == bare_guard_spec(*g, values@),
    decreases *g, 0int,
{
    match g {
        ClauseGuard::Not { expression } => Doc::Str("not ").append(bare_clause_guard(expression, values)),
        ClauseGuard::Or { left, right } => clause_guard(left, values).append(Doc::Str(" || ")).append(clause_guard(right, values)),
        ClauseGuard::And { left, right } => clause_guard(left, values).append(Doc::Str(" && ")).append(clause_guard(right, values)),
        ClauseGuard::Equals { left, right } => clause_guard(left, values).append(Doc::Str(" = ")).append(clause_guard(right, values)),
        ClauseGuard::NotEquals { left, right } => clause_guard(left, values).append(Doc::Str(" <> ")).append(clause_guard(right, values)),
        ClauseGuard::GtInt { left, right } | ClauseGuard::GtFloat { left, right } => clause_guard(left, values).append(Doc::Str(" > ")).append(clause_guard(right, values)),
        ClauseGuard::GtEqInt { left, right } | ClauseGuard::GtEqFloat { left, right } => clause_guard(left, values).append(Doc::Str(" >= ")).append(clause_guard(right, values)),
        ClauseGuard::LtInt { left, right } | ClauseGuard::LtFloat { left, right } => clause_guard(left, values).append(Doc::Str(" < ")).append(clause_guard(right, values)),
        ClauseGuard::LtEqInt { left, right } | ClauseGuard::LtEqFloat { left, right } => clause_guard(left, values).append(Doc::Str(" =< ")).append(clause_guard(right, values)),
        ClauseGuard::AddInt { left, right } | ClauseGuard::AddFloat { left, right } => clause_guard(left, values).append(Doc::Str(" + ")).append(clause_guard(right, values)),
        ClauseGuard::SubInt { left, right } | ClauseGuard::SubFloat { left, right } => clause_guard(left, values).append(Doc::Str(" - ")).append(clause_guard(right, values)),
        ClauseGuard::MultInt { left, right } | ClauseGuard::MultFloat { left, right } => clause_guard(left, values).append(Doc::Str(" * ")).append(clause_guard(right, values)),
        ClauseGuard::DivInt { left, right } | ClauseGuard::DivFloat { left, right } => clause_guard(left, values).append(Doc::Str(" / ")).append(clause_guard(right, values)),
        ClauseGuard::RemainderInt { left, right } => clause_guard(left, values).append(Doc::Str(" % ")).append(clause_guard(right, values)),
        ClauseGuard::Var { name } => Doc::Text(name.clone()),
        ClauseGuard::Constant(c) => constant_expression(c, values),
        _ => Doc::Str("// TODO: Implement other guard types"),
    }
}

/// Combines a clause's guards into its `when` part.
pub fn optional_clause_guard(guard: &Option<ClauseGuard>, additional_guards: Vec<Doc>, values: &Vec<ModuleValue>) -> (r: Doc)
    requires match *guard {
        Some(g) => crate::ast::guard_wf(g, values@),
        Option::None => true,
    },
    ensures r.sdoc() == opt_guard_spec(*guard, sdocs(additional_guards@), values@),
{
    let ghost addl = sdocs(additional_guards@);
    let mut all: Vec<Doc> = additional_guards;
    match guard {
        Some(g) => {
            let d = bare_clause_guard(g, values);
            all.push(d);
        }
        Option::None => {}
    }
    let ghost all_spec = addl + (match guard {
        Some(g) => seq![bare_guard_spec(*g, values@)],
        Option::None => Seq::<SDoc>::empty(),
    });
    proof {
        assert(sdocs(all@) =~= all_spec);
    }
    let count = all.len();
    if count == 0 {
        let r = join(all, &Doc::Str(" && "));
        proof {
            assert(sdocs(all@) =~= Seq::<SDoc>::empty());
        }
        r
    } else if count == 1 {
        let joined = join(all, &Doc::Str(" && "));
        Doc::Str(" when ").append(joined)
    } else {
        let mut wrapped: Vec<Doc> = Vec::new();
        let mut all = all;
        let ghost n = all@.len();
        while all.len() > 0
            invariant
                all_spec.len() == n > 1,
                wrapped@.len() + all@.len() == n,
                forall|j: int| 0 <= j < wrapped@.len()
                    ==> (#[trigger] wrapped@[j]).sdoc()
                        == ssurround(all_spec[j], stext("("@), stext(")"@)),
                forall|j: int| 0 <= j < all@.len()
                    ==> (#[trigger] all@[j]).sdoc() == all_spec[wrapped@.len() + j],
            decreases all@.len(),
        {
            let d = all.remove(0);
            wrapped.push(d.surround(Doc::Str("("), Doc::Str(")")));
        }
        let joined = join(wrapped, &Doc::Str(" && "));
        proof {
            assert(sdocs(wrapped@) =~= Seq::new(all_spec.len(),
                |i: int| ssurround(all_spec[i], stext("("@), stext(")"@))));
        }
        Doc::Str(" when ").append(joined)
    }
}

/// The lowered form of a structural pattern.
pub open spec fn pattern_spec(p: Pattern, values: Seq<ModuleValue>) -> SDoc
    decreases p, 1int,
{
    match p {
        Pattern::IntLit { value } => stext(value@),
        Pattern::FloatLit { value } => stext(value@),
        Pattern::StringLit { value } => string_spec(value@),
        Pattern::Variable { name } => stext(name@),
        Pattern::Discard { name } => stext(name@),
        Pattern::List { elements, tail } => {
            let head = ssurround(sjoin(patterns_docs(elements@, values), stext("; "@)),
                stext("["@), stext("]"@));
            match tail {
                Some(t) => sapp(sapp(head, stext("::"@)), pattern_spec(*t, values)),
                Option::None => head,
            }
        },
        Pattern::Tuple { elems } => stuple(patterns_docs(elems@, values)),
        Pattern::StringPrefix { left_side_string, right_side_assignment, left_side_assignment } => {
            let suffix = match right_side_assignment {
                AssignName::Variable(right) => stext(right@),
                AssignName::Discard(_) => stext("_"@),
            };
            match left_side_assignment {
                Option::None => sapp(sapp(sapp(sapp(
                    stext("Gleam__codegen__prefix"@), stext(" "@)),
                    string_spec(left_side_string@)), stext(" "@)), suffix),
                Some(label) => sapp(sapp(sapp(sapp(sapp(sapp(sapp(
                    stext("Gleam_codegen_string_parts"@), stext(" "@)),
                    string_spec(left_side_string@)), stext(" ("@)),
                    stext(label@)), stext(", "@)), suffix), stext(")"@)),
            }
        },
        Pattern::BitArray { segments } => ssurround(
            sjoin(patterns_docs(segments@, values), stext("; "@)),
            stext("[|"@), stext("|]"@)),
        Pattern::VarUsage { name, constructor } => match constructor {
            Some(ValueKind::ModuleConstant { literal }) => const_spec(literal, values),
            Some(_) => stext(name@),
            Option::None => vstd::pervasive::arbitrary(),
        },
        Pattern::Invalid => vstd::pervasive::arbitrary(),
        Pattern::Assign { name, pattern } => sapp(sapp(
            pattern_spec(*pattern, values), stext(" as "@)), stext(name@)),
        Pattern::Constructor { name, arguments, field_map, spread, typ } => {
            if field_map is Some && arguments@.len() == field_map->0.fields@.len() {
                ssurround(
                    sgroup(sjoin(
                        ctor_pat_fields(arguments@, field_map->0, spread, 0, values),
                        stext("; "@))),
                    stext("{ "@), stext(" }"@))
            } else if typ.spec_is_bool() && name@ == "True"@ {
                stext("true"@)
            } else if typ.spec_is_bool() && name@ == "False"@ {
                stext("false"@)
            } else if typ.spec_is_nil() {
                stext("()"@)
            } else {
                let args_doc = if arguments@.len() == 0 {
                    stext("()"@)
                } else {
                    stuple(pat_args_docs(arguments@, values))
                };
                ssurround(sapp(stext(name@), args_doc), stext("("@), stext(")"@))
            }
        },
    }
}

pub open spec fn patterns_docs(ps: Seq<Pattern>, values: Seq<ModuleValue>) -> Seq<SDoc>
    decreases ps, 0int,
{
    if ps.len() == 0 {
        Seq::empty()
    } else {
        seq![pattern_spec(ps[0], values)] + patterns_docs(ps.drop_first(), values)
    }
}

pub proof fn lemma_patterns_docs(ps: Seq<Pattern>, values: Seq<ModuleValue>)
    ensures
        patterns_docs(ps, values).len() == ps.len(),
        forall|i: int| 0 <= i < ps.len()
            ==> patterns_docs(ps, values)[i] == pattern_spec(ps[i], values),
    decreases ps.len(),
{
    if ps.len() > 0 {
        lemma_patterns_docs(ps.drop_first(), values);
    }
}

pub open spec fn pat_args_docs(args: Seq<CallArgPat>, values: Seq<ModuleValue>) -> Seq<SDoc>
    decreases args, 0int,
{
    if args.len() == 0 {
        Seq::empty()
    } else {
        seq![pattern_spec(args[0].value, values)] + pat_args_docs(args.drop_first(), values)
    }
}

pub proof fn lemma_pat_args_docs(args: Seq<CallArgPat>, values: Seq<ModuleValue>)
    ensures
        pat_args_docs(args, values).len() == args.len(),
        forall|i: int| 0 <= i < args.len()
            ==> pat_args_docs(args, values)[i] == pattern_spec(args[i].value, values),
    decreases args.len(),
{
    if args.len() > 0 {
        lemma_pat_args_docs(args.drop_first(), values);
    }
}

/// The label a constructor-pattern argument is emitted under, if any: the
/// arm's own label, else the field map's label for the position.
pub open spec fn pat_field_label(arg: CallArgPat, fm: FieldMap, i: int) -> Option<Seq<char>> {
    match arg.label {
        Some(l) => Some(l@),
        Option::None => match fm_at(fm.fields@, i) {
            Some(e) => Some(e.label@),
            Option::None => Option::None,
        },
    }
}

/// The emitted fields of a labeled constructor pattern, from position `i`
/// on: with a spread, fields bound to a pure wildcard are omitted entirely,
/// and a field without a recoverable label contributes nothing.
pub open spec fn ctor_pat_fields(args: Seq<CallArgPat>, fm: FieldMap, spread: bool, i: int, values: Seq<ModuleValue>) -> Seq<SDoc>
    decreases args, args.len() - i,
{
    if i < 0 || i >= args.len() {
        Seq::empty()
    } else {
        let rest = ctor_pat_fields(args, fm, spread, i + 1, values);
        if spread && args[i].value is Discard {
            rest
        } else {
            match pat_field_label(args[i], fm, i) {
                Some(l) => seq![sapp(sapp(stext(l), stext(" = "@)),
                    pattern_spec(args[i].value, values))] + rest,
                Option::None => rest,
            }
        }
    }
}

/// Writes out a structural pattern.
#[verifier::loop_isolation(false)]
pub fn pattern(p: &Pattern, values: &Vec<ModuleValue>) -> (r: Doc)
    requires crate::ast::pattern_wf(*p, values@),
    ensures r.sdoc() == pattern_spec(*p, values@),
    decreases *p, 1int,
{
    match p {
        Pattern::IntLit { value } => Doc::Text(value.clone()),
        Pattern::FloatLit { value } => Doc::Text(value.clone()),
        Pattern::StringLit { value } => string(value.as_str()),
        Pattern::Variable { name } => Doc::Text(name.clone()),
        Pattern::Discard { name } => Doc::Text(name.clone()),
        Pattern::List { elements, tail } => {
            let mut docs: Vec<Doc> = Vec::new();
            let mut i: usize = 0;
            while i < elements.len()
                invariant
                    i <= elements@.len(),
                    docs@.len() == i as int,
                    forall|j: int| 0 <= j < i
                        ==> (#[trigger] docs@[j]).sdoc() == pattern_spec(elements@[j], values@),
                decreases elements@.len() - i,
            {
                proof {
                    assert(decreases_to!(*p => p->List_elements));
                    assert(decreases_to!(*elements => elements@));
                    assert(decreases_to!(elements@ => elements@[i as int]));
                }
                docs.push(pattern(&elements[i], values));
                i = i + 1;
            }
            let head = join(docs, &Doc::Str("; ")).surround(Doc::Str("["), Doc::Str("]"));
            proof {
                lemma_patterns_docs(elements@, values@);
                assert(sdocs(docs@) =~= patterns_docs(elements@, values@));
            }
            match tail {
                Some(t) => head.append(Doc::Str("::")).append(pattern(t, values)),
                Option::None => head,
            }
        }
        Pattern::Tuple { elems } => {
            let mut docs: Vec<Doc> = Vec::new();
            let mut i: usize = 0;
            while i < elems.len()
                invariant
                    i <= elems@.len(),
                    docs@.len() == i as int,
                    forall|j: int| 0 <= j < i
                        ==> (#[trigger] docs@[j]).sdoc() == pattern_spec(elems@[j], values@),
                decreases elems@.len() - i,
            {
                proof {
                    assert(decreases_to!(*p => p->Tuple_elems));
                    assert(decreases_to!(*elems => elems@));
                    assert(decreases_to!(elems@ => elems@[i as int]));
                }
                docs.push(pattern(&elems[i], values));
                i = i + 1;
            }
            let r = tuple_of(docs);
            proof {
                lemma_patterns_docs(elems@, values@);
                assert(sdocs(docs@) =~= patterns_docs(elems@, values@));
            }
            r
        }
        Pattern::StringPrefix { left_side_string, right_side_assignment, left_side_assignment } => {
            let suffix = match right_side_assignment {
                AssignName::Variable(right) => Doc::Text(right.clone()),
                AssignName::Discard(_) => Doc::Str("_"),
            };
            match left_side_assignment {
                Option::None => Doc::Str("Gleam__codegen__prefix")
                    .append(Doc::Str(" "))
                    .append(string(left_side_string.as_str()))
                    .append(Doc::Str(" "))
                    .append(suffix),
                Some(label) => Doc::Str("Gleam_codegen_string_parts")
                    .append(Doc::Str(" "))
                    .append(string(left_side_string.as_str()))
                    .append(Doc::Str(" ("))
                    .append(Doc::Text(label.clone()))
                    .append(Doc::Str(", "))
                    .append(suffix)
                    .append(Doc::Str(")")),
            }
        }
        Pattern::BitArray { segments } => {
            let mut docs: Vec<Doc> = Vec::new();
            let mut i: usize = 0;
            while i < segments.len()
                invariant
                    i <= segments@.len(),
                    docs@.len() == i as int,
                    forall|j: int| 0 <= j < i
                        ==> (#[trigger] docs@[j]).sdoc() == pattern_spec(segments@[j], values@),
                decreases segments@.len() - i,
            {
                proof {
                    assert(decreases_to!(*p => p->BitArray_segments));
                    assert(decreases_to!(*segments => segments@));
                    assert(decreases_to!(segments@ => segments@[i as int]));
                }
                docs.push(pattern(&segments[i], values));
                i = i + 1;
            }
            let r = join(docs, &Doc::Str("; ")).surround(Doc::Str("[|"), Doc::Str("|]"));
            proof {
                lemma_patterns_docs(segments@, values@);
                assert(sdocs(docs@) =~= patterns_docs(segments@, values@));
            }
            r
        }
        Pattern::VarUsage { name, constructor } => match constructor {
            Some(k) => match k {
                ValueKind::ModuleConstant { literal } => constant_expression(literal, values),
                _ => Doc::Text(name.clone()),
            },
            Option::None => {
                proof {
                    assert(false);
                }
                Doc::Nil
            }
        },
        Pattern::Invalid => {
            proof {
                assert(false);
            }
            Doc::Nil
        }
        Pattern::Assign { name, pattern: inner } => {
            pattern(inner, values).append(Doc::Str(" as ")).append(Doc::Text(name.clone()))
        }
        Pattern::Constructor { name, arguments, field_map, spread, typ } => {
            let is_record_pattern = match field_map {
                Some(fm) => arguments.len() == fm.fields.len(),
                Option::None => false,
            };
            if is_record_pattern {
                let fm = match field_map {
                    Some(fm) => fm,
                    Option::None => {
                        proof {
                            assert(false);
                        }
                        unreached()
                    }
                };
                let mut docs: Vec<Doc> = Vec::new();
                let mut i: usize = 0;
                while i < arguments.len()
                    invariant
                        i <= arguments@.len(),
                        sdocs(docs@) == ctor_fields_upto(arguments@, *fm, *spread, i as int, values@),
                    decreases arguments@.len() - i,
                {
                    proof {
                        assert(decreases_to!(*p => p->Constructor_arguments));
                        assert(decreases_to!(*arguments => arguments@));
                        assert(decreases_to!(arguments@ => arguments@[i as int]));
                        assert(decreases_to!(arguments@[i as int] => arguments@[i as int].value));
                    }
                    let arg = &arguments[i];
                    let skip_field = *spread && matches!(&arg.value, Pattern::Discard { .. });
                    if !skip_field {
                        let label: Option<String> = match &arg.label {
                            Some(l) => Some(l.clone()),
                            Option::None => match fm.label_at(i as u64) {
                                Some(l) => Some(l.clone()),
                                Option::None => Option::None,
                            },
                        };
                        match label {
                            Some(l) => {
                                let inner = pattern(&arg.value, values);
                                docs.push(Doc::Text(l).append(Doc::Str(" = ")).append(inner));
                                proof {
                                    lemma_ctor_fields_step(arguments@, *fm, *spread, i as int, values@);
                                }
                            }
                            Option::None => {
                                proof {
                                    lemma_ctor_fields_step(arguments@, *fm, *spread, i as int, values@);
                                }
                            }
                        }
                    } else {
                        proof {
                            lemma_ctor_fields_step(arguments@, *fm, *spread, i as int, values@);
                        }
                    }
                    i = i + 1;
                }
                let r = join(docs, &Doc::Str("; "))
                    .group()
                    .surround(Doc::Str("{ "), Doc::Str(" }"));
                proof {
                    lemma_ctor_fields_full(arguments@, *fm, *spread, values@);
                }
                r
            } else if typ.is_bool() && str_eq_str(name.as_str(), "True") {
                Doc::Str("true")
            } else if typ.is_bool() && str_eq_str(name.as_str(), "False") {
                Doc::Str("false")
            } else if typ.is_nil() {
                Doc::Str("()")
            } else {
                let args_doc = if arguments.len() == 0 {
                    Doc::Str("()")
                } else {
                    let mut docs: Vec<Doc> = Vec::new();
                    let mut i: usize = 0;
                    while i < arguments.len()
                        invariant
                            i <= arguments@.len(),
                            docs@.len() == i as int,
                            forall|j: int| 0 <= j < i
                                ==> (#[trigger] docs@[j]).sdoc()
                                    == pattern_spec(arguments@[j].value, values@),
                        decreases arguments@.len() - i,
                    {
                        proof {
                            assert(decreases_to!(*p => p->Constructor_arguments));
                            assert(decreases_to!(*arguments => arguments@));
                            assert(decreases_to!(arguments@ => arguments@[i as int]));
                            assert(decreases_to!(arguments@[i as int] => arguments@[i as int].value));
                        }
                        docs.push(pattern(&arguments[i].value, values));
                        i = i + 1;
                    }
                    let r = tuple_of(docs);
                    proof {
                        lemma_pat_args_docs(arguments@, values@);
                        assert(sdocs(docs@) =~= pat_args_docs(arguments@, values@));
                    }
                    r
                };
                Doc::Text(name.clone())
                    .append(args_doc)
                    .surround(Doc::Str("("), Doc::Str(")"))
            }
        }
    }
}

/// The fields emitted for positions strictly below `i`.
pub open spec fn ctor_fields_upto(args: Seq<CallArgPat>, fm: FieldMap, spread: bool, i: int, values: Seq<ModuleValue>) -> Seq<SDoc>
    decreases i,
{
    if i <= 0 {
        Seq::empty()
    } else {
        let rest = ctor_fields_upto(args, fm, spread, i - 1, values);
        if spread && args[i - 1].value is Discard {
            rest
        } else {
            match pat_field_label(args[i - 1], fm, i - 1) {
                Some(l) => rest + seq![sapp(sapp(stext(l), stext(" = "@)),
                    pattern_spec(args[i - 1].value, values))],
                Option::None => rest,
            }
        }
    }
}

proof fn lemma_ctor_fields_step(args: Seq<CallArgPat>, fm: FieldMap, spread: bool, i: int, values: Seq<ModuleValue>)
    requires 0 <= i < args.len(),
    ensures ctor_fields_upto(args, fm, spread, i + 1, values)
        == if spread && args[i].value is Discard {
            ctor_fields_upto(args, fm, spread, i, values)
        } else {
            match pat_field_label(args[i], fm, i) {
                Some(l) => ctor_fields_upto(args, fm, spread, i, values)
                    + seq![sapp(sapp(stext(l), stext(" = "@)), pattern_spec(args[i].value, values))],
                Option::None => ctor_fields_upto(args, fm, spread, i, values),
            }
        },
{
}

proof fn lemma_ctor_fields_concat(args: Seq<CallArgPat>, fm: FieldMap, spread: bool, i: int, values: Seq<ModuleValue>)
    requires 0 <= i <= args.len(),
    ensures ctor_fields_upto(args, fm, spread, args.len() as int, values)
        == ctor_fields_upto(args, fm, spread, i, values)
            + ctor_pat_fields(args, fm, spread, i, values),
    decreases args.len() - i,
{
    if i == args.len() {
        assert(ctor_fields_upto(args, fm, spread, i, values)
            + Seq::<SDoc>::empty()
            =~= ctor_fields_upto(args, fm, spread, i, values));
    } else {
        lemma_ctor_fields_concat(args, fm, spread, i + 1, values);
        lemma_ctor_fields_step(args, fm, spread, i, values);
        if spread && args[i].value is Discard {
        } else {
            match pat_field_label(args[i], fm, i) {
                Some(l) => {
                    assert(ctor_fields_upto(args, fm, spread, i, values)
                        + (seq![sapp(sapp(stext(l), stext(" = "@)), pattern_spec(args[i].value, values))]
                            + ctor_pat_fields(args, fm, spread, i + 1, values))
                        =~= (ctor_fields_upto(args, fm, spread, i, values)
                            + seq![sapp(sapp(stext(l), stext(" = "@)), pattern_spec(args[i].value, values))])
                            + ctor_pat_fields(args, fm, spread, i + 1, values));
                }
                Option::None => {}
            }
        }
    }
}

proof fn lemma_ctor_fields_full(args: Seq<CallArgPat>, fm: FieldMap, spread: bool, values: Seq<ModuleValue>)
    ensures ctor_fields_upto(args, fm, spread, args.len() as int, values)
        == ctor_pat_fields(args, fm, spread, 0, values),
{
    lemma_ctor_fields_concat(args, fm, spread, 0, values);
    assert(Seq::<SDoc>::empty() + ctor_pat_fields(args, fm, spread, 0, values)
        =~= ctor_pat_fields(args, fm, spread, 0, values));
}

/// The variable name a function parameter binds, or a discard.
pub open spec fn sarg_name(arg: TypedArg) -> SDoc {
    match arg.names.spec_variable_name() {
        Some(n) => stext(n@),
        Option::None => stext("_"@),
    }
}

/// Definition-site function arguments: `(name: type)` pairs.
pub open spec fn sfun_args(args: Seq<TypedArg>) -> SDoc {
    if args.len() == 0 {
        stext("()"@)
    } else {
        sgroup(sjoin(
            Seq::new(args.len(), |i: int| ssurround(
                sapp(sapp(sarg_name(args[i]), stext(": "@)), type_spec(args[i].typ)),
                stext("("@), stext(")"@))),
            stext(" "@)))
    }
}

/// The operator text of a binary expression.
pub open spec fn binop_text(name: BinOp) -> Seq<char> {
    match name {
        BinOp::And => "&&"@,
        BinOp::Or => "||"@,
        BinOp::Eq => "="@,
        BinOp::NotEq => "<>"@,
        BinOp::LtInt | BinOp::LtFloat => "<"@,
        BinOp::LtEqInt | BinOp::LtEqFloat => "<="@,
        BinOp::GtInt | BinOp::GtFloat => ">"@,
        BinOp::GtEqInt | BinOp::GtEqFloat => ">="@,
        BinOp::AddInt | BinOp::AddFloat => "+"@,
        BinOp::SubInt | BinOp::SubFloat => "-"@,
        BinOp::MultInt | BinOp::MultFloat => "*"@,
        BinOp::DivInt | BinOp::DivFloat => "/"@,
        BinOp::RemainderInt => "%"@,
        BinOp::Concatenate => "+"@,
    }
}

/// The lowered form of a typed expression.
pub open spec fn expr_spec(e: TypedExpr, values: Seq<ModuleValue>) -> SDoc
    decreases e, 1int,
{
    match e {
        TypedExpr::IntLit { value } => stext(value@),
        TypedExpr::FloatLit { value } => stext(value@),
        TypedExpr::StringLit { value } => string_spec(value@),
        TypedExpr::Block { statements } => block_spec(statements@, values),
        TypedExpr::Pipeline { .. } => pipeline_spec(e, values),
        TypedExpr::Var { name, .. } => {
            if name@ == "Nil"@ { stext("()"@) }
            else if name@ == "True"@ { stext("true"@) }
            else if name@ == "False"@ { stext("false"@) }
            else { stext(name@) }
        },
        TypedExpr::Fun { args, body } => sfun(args@, body@, values),
        TypedExpr::List { elements } => ssurround(
            sjoin(exprs_docs(elements@, values), stext("; "@)),
            stext("["@), stext("]"@)),
        TypedExpr::Call { .. } => {
            let fun = *e->Call_fun;
            let record = match fun {
                TypedExpr::Var { constructor, .. } => is_record_call(constructor),
                _ => false,
            };
            if record {
                record_instantiation_spec(e, values)
            } else {
                function_call_spec(e, values)
            }
        },
        TypedExpr::BinOpExpr { .. } => binop_spec(e, values),
        TypedExpr::Case { .. } => case_spec(e, values),
        TypedExpr::Tuple { elems } => stuple(exprs_docs(elems@, values)),
        TypedExpr::TupleIndex { tuple, index } => tuple_index_spec(*tuple, index as nat, values),
        TypedExpr::Todo { message } => todo_spec(message, values),
        TypedExpr::Panic { message } => panic_spec(message, values),
        TypedExpr::BitArray => stext("// TODO: TypedExpr::BitArray"@),
        TypedExpr::RecordAccess { record, label } => sapp(sapp(
            expr_spec(*record, values), stext("."@)), stext(label@)),
        TypedExpr::RecordUpdate { .. } => record_update_spec(e, values),
        TypedExpr::ModuleSelect { .. } => stext("// TODO: TypedExpr::ModuleSelect"@),
        TypedExpr::NegateBool { .. } => stext("// TODO: TypedExpr::NegateBool"@),
        TypedExpr::NegateInt { value } => {
            if *value is NegateInt {
                sapp(stext("-"@), ssurround(expr_spec(*value, values), stext("("@), stext(")"@)))
            } else {
                sapp(stext("-"@), expr_spec(*value, values))
            }
        },
        TypedExpr::Invalid => stext("// TODO: TypedExpr::Invalid"@),
    }
}

pub open spec fn exprs_docs(es: Seq<TypedExpr>, values: Seq<ModuleValue>) -> Seq<SDoc>
    decreases es, 0int,
{
    if es.len() == 0 {
        Seq::empty()
    } else {
        seq![expr_spec(es[0], values)] + exprs_docs(es.drop_first(), values)
    }
}

pub proof fn lemma_exprs_docs(es: Seq<TypedExpr>, values: Seq<ModuleValue>)
    ensures
        exprs_docs(es, values).len() == es.len(),
        forall|i: int| 0 <= i < es.len() ==> exprs_docs(es, values)[i] == expr_spec(es[i], values),
    decreases es.len(),
{
    if es.len() > 0 {
        lemma_exprs_docs(es.drop_first(), values);
    }
}

/// Expression `.Item` access; tuple positions are one-based in the target.
pub open spec fn tuple_index_spec(tuple: TypedExpr, index: nat, values: Seq<ModuleValue>) -> SDoc
    decreases tuple, 2int,
{
    sapp(sapp(expr_spec(tuple, values), stext(".Item"@)), stext(dec_digits(index + 1)))
}

/// `failwith` with an optional message.
pub open spec fn todo_spec(message: Option<Box<TypedExpr>>, values: Seq<ModuleValue>) -> SDoc
    decreases message, 2int,
{
    match message {
        Some(m) => sapp(stext("failwith "@),
            ssurround(expr_spec(*m, values), stext("("@), stext(")"@))),
        Option::None => stext("failwith \"Not implemented\""@),
    }
}

pub open spec fn panic_spec(message: Option<Box<TypedExpr>>, values: Seq<ModuleValue>) -> SDoc
    decreases message, 2int,
{
    match message {
        Some(m) => sapp(stext("failwith "@),
            ssurround(expr_spec(*m, values), stext("("@), stext(")"@))),
        Option::None => stext("failwith \"Panic encountered\""@),
    }
}

/// A binary operation, spelled with the target's operator.
pub open spec fn binop_spec(e: TypedExpr, values: Seq<ModuleValue>) -> SDoc
    decreases e, 0int,
{
    match e {
        TypedExpr::BinOpExpr { name, left, right } => sapp(sapp(sapp(sapp(
            expr_spec(*left, values), stext(" "@)), stext(binop_text(name))), stext(" "@)),
            expr_spec(*right, values)),
        _ => vstd::pervasive::arbitrary(),
    }
}

/// A call whose callee is the sole, fully labeled constructor of a record
/// type: record-literal syntax keyed by the inverted field map.
pub open spec fn record_instantiation_spec(e: TypedExpr, values: Seq<ModuleValue>) -> SDoc
    decreases e, 0int,
{
    match e {
        TypedExpr::Call { fun, args } => {
            let fm = match *fun {
                TypedExpr::Var { constructor, .. } => constructor->RecordConstructor_field_map->0,
                _ => vstd::pervasive::arbitrary(),
            };
            ssurround(sgroup(sjoin(rec_inst_fields(args@, fm, 0, values), stext("; "@))),
                stext("{ "@), stext(" }"@))
        },
        _ => vstd::pervasive::arbitrary(),
    }
}

pub open spec fn rec_inst_fields(args: Seq<CallArgExpr>, fm: FieldMap, i: int, values: Seq<ModuleValue>) -> Seq<SDoc>
    decreases args, args.len() - i,
{
    if i < 0 || i >= args.len() {
        Seq::empty()
    } else {
        seq![sapp(sapp(sanitize_spec(fm_at(fm.fields@, i)->0.label@), stext(" = "@)),
            expr_spec(args[i].value, values))]
            + rec_inst_fields(args, fm, i + 1, values)
    }
}

pub proof fn lemma_rec_inst_fields(args: Seq<CallArgExpr>, fm: FieldMap, i: int, values: Seq<ModuleValue>)
    requires 0 <= i <= args.len(),
    ensures
        rec_inst_fields(args, fm, i, values).len() == args.len() - i,
        forall|k: int| 0 <= k < args.len() - i
            ==> rec_inst_fields(args, fm, i, values)[k]
                == sapp(sapp(sanitize_spec(fm_at(fm.fields@, i + k)->0.label@), stext(" = "@)),
                    expr_spec(args[i + k].value, values)),
    decreases args.len() - i,
{
    if i < args.len() {
        lemma_rec_inst_fields(args, fm, i + 1, values);
    }
}

/// An ordinary application: the callee, then each argument parenthesized.
pub open spec fn function_call_spec(e: TypedExpr, values: Seq<ModuleValue>) -> SDoc
    decreases e, 0int,
{
    match e {
        TypedExpr::Call { fun, args } => {
            let args_doc = if args@.len() == 0 {
                stext("()"@)
            } else {
                sapp(stext(" "@), sgroup(sjoin(call_args_parens_docs(args@, values), stext(" "@))))
            };
            let fun_expr = expr_spec(*fun, values);
            let fun_expr = match *fun {
                TypedExpr::Fun { .. } => ssurround(fun_expr, stext("("@), stext(")"@)),
                _ => fun_expr,
            };
            sgroup(sapp(fun_expr, args_doc))
        },
        _ => vstd::pervasive::arbitrary(),
    }
}

pub open spec fn call_args_parens_docs(args: Seq<CallArgExpr>, values: Seq<ModuleValue>) -> Seq<SDoc>
    decreases args, 0int,
{
    if args.len() == 0 {
        Seq::empty()
    } else {
        seq![ssurround(expr_spec(args[0].value, values), stext("("@), stext(")"@))]
            + call_args_parens_docs(args.drop_first(), values)
    }
}

pub proof fn lemma_call_args_parens_docs(args: Seq<CallArgExpr>, values: Seq<ModuleValue>)
    ensures
        call_args_parens_docs(args, values).len() == args.len(),
        forall|i: int| 0 <= i < args.len()
            ==> call_args_parens_docs(args, values)[i]
                == ssurround(expr_spec(args[i].value, values), stext("("@), stext(")"@)),
    decreases args.len(),
{
    if args.len() > 0 {
        lemma_call_args_parens_docs(args.drop_first(), values);
    }
}

/// Functional record update. A pipeline base is parenthesized first, and a
/// pipeline field value is nested one extra column past the `with` keyword.
pub open spec fn record_update_spec(e: TypedExpr, values: Seq<ModuleValue>) -> SDoc
    decreases e, 0int,
{
    match e {
        TypedExpr::RecordUpdate { spread, args } => {
            let old_var = match *spread {
                TypedExpr::Pipeline { .. } => ssurround(expr_spec(*spread, values),
                    stext("("@), stext(")"@)),
                _ => expr_spec(*spread, values),
            };
            sapp(sapp(sapp(sapp(stext("{ "@), old_var), stext(" with "@)),
                sforce(sjoin(rupdate_args_docs(args@, values), stext("; "@)))),
                stext(" }"@))
        },
        _ => vstd::pervasive::arbitrary(),
    }
}

pub open spec fn rupdate_args_docs(args: Seq<RecordUpdateArg>, values: Seq<ModuleValue>) -> Seq<SDoc>
    decreases args, 0int,
{
    if args.len() == 0 {
        Seq::empty()
    } else {
        let child = match args[0].value {
            TypedExpr::Pipeline { .. } => snest(1, expr_spec(args[0].value, values)),
            _ => expr_spec(args[0].value, values),
        };
        seq![sgroup(sapp(sapp(stext(args[0].label@), stext(" = "@)), child))]
            + rupdate_args_docs(args.drop_first(), values)
    }
}

pub proof fn lemma_rupdate_args_docs(args: Seq<RecordUpdateArg>, values: Seq<ModuleValue>)
    ensures
        rupdate_args_docs(args, values).len() == args.len(),
        forall|i: int| 0 <= i < args.len()
            ==> rupdate_args_docs(args, values)[i]
                == sgroup(sapp(sapp(stext(args[i].label@), stext(" = "@)),
                    match args[i].value {
                        TypedExpr::Pipeline { .. } => snest(1, expr_spec(args[i].value, values)),
                        _ => expr_spec(args[i].value, values),
                    })),
    decreases args.len(),
{
    if args.len() > 0 {
        lemma_rupdate_args_docs(args.drop_first(), values);
    }
}

/// An anonymous function.
pub open spec fn sfun(args: Seq<TypedArg>, body: Seq<Statement>, values: Seq<ModuleValue>) -> SDoc
    decreases body, 2int,
{
    sgroup(sapp(sapp(sapp(sapp(sapp(
        stext("fun"@), sfun_args(args)), stext(" -> begin "@)),
        snest(4, statements_spec(body, Option::None, values))),
        crate::doc::sbrk(""@, " "@)), stext("end"@)))
}

/// A block, wrapped in `begin`/`end`.
pub open spec fn block_spec(statements: Seq<Statement>, values: Seq<ModuleValue>) -> SDoc
    decreases statements, 2int,
{
    sapp(sapp(snest(4, sapp(stext("begin"@), SDoc::HardLine)),
        sgroup(snest(4, statements_spec(statements, Option::None, values)))),
        sapp(SDoc::HardLine, stext("end"@)))
}

pub open spec fn swrap_in_begin_end(d: SDoc) -> SDoc {
    sapp(sapp(snest(4, sapp(stext("begin"@), SDoc::HardLine)), sgroup(snest(4, d))),
        sapp(SDoc::HardLine, stext("end"@)))
}

/// A pipeline: one intermediate binding per stage, then the final
/// expression, all scoped inside `begin`/`end` so the names cannot leak.
pub open spec fn pipeline_spec(e: TypedExpr, values: Seq<ModuleValue>) -> SDoc
    decreases e, 0int,
{
    match e {
        TypedExpr::Pipeline { assignments, finally } => {
            let entries = pipe_docs(assignments@, values)
                + seq![ssurround(expr_spec(*finally, values), stext("("@), stext(")"@))];
            swrap_in_begin_end(sjoin(entries, SDoc::Nil))
        },
        _ => vstd::pervasive::arbitrary(),
    }
}

pub open spec fn pipe_docs(assignments: Seq<Assignment>, values: Seq<ModuleValue>) -> Seq<SDoc>
    decreases assignments, 0int,
{
    if assignments.len() == 0 {
        Seq::empty()
    } else {
        let a = assignments[0];
        seq![
            sapp(sapp(sapp(stext("let "@), pattern_spec(a.pattern, values)), stext(" = "@)),
                expr_spec(*a.value, values)),
            SDoc::HardLine,
        ] + pipe_docs(assignments.drop_first(), values)
    }
}

/// One statement's document, and the binding it leaves for the
/// block-trailing-value rule.
pub open spec fn stmt_spec(s: Statement, values: Seq<ModuleValue>) -> (SDoc, Option<SDoc>)
    decreases s, 1int,
{
    match s {
        Statement::Expression(expr) => (expr_spec(expr, values), Option::None),
        Statement::Assignment(a) => {
            if a.pattern is StringPrefix {
                let prefix = a.pattern->StringPrefix_left_side_string;
                let maybe_label = a.pattern->StringPrefix_left_side_assignment;
                let (suffix, last_var) = match a.pattern->StringPrefix_right_side_assignment {
                    AssignName::Variable(right) => (stext(right@), stext(right@)),
                    AssignName::Discard(_) => (stext("_"@), expr_spec(*a.value, values)),
                };
                let label_part = match maybe_label {
                    Some(label) => sapp(stext(label@), stext(", "@)),
                    Option::None => stext("_, "@),
                };
                let doc = sapp(sapp(sapp(sapp(sapp(sapp(sapp(sapp(
                    stext("let ("@), stext("Gleam_codegen_string_parts"@)), stext(" "@)),
                    string_spec(prefix@)), stext(" ("@)),
                    label_part), suffix), stext(")) = "@)),
                    expr_spec(*a.value, values));
                (doc, Some(last_var))
            } else {
                let name = pattern_spec(a.pattern, values);
                let value = expr_spec(*a.value, values);
                let doc = if *a.value is Case {
                    sapp(sapp(sapp(sapp(stext("let "@), name), stext(" = "@)),
                        snest(4, SDoc::HardLine)), snest(4, sgroup(value)))
                } else {
                    sapp(sapp(sapp(stext("let "@), name), stext(" = "@)), value)
                };
                (doc, Some(name))
            }
        },
        Statement::Use => (stext("// TODO: Implement use statements"@), Option::None),
    }
}

/// The statements' documents in order, and the last statement's binding.
pub open spec fn stmts_fold(ss: Seq<Statement>, values: Seq<ModuleValue>) -> (Seq<SDoc>, Option<SDoc>)
    decreases ss, 0int,
{
    if ss.len() == 0 {
        (Seq::empty(), Option::None)
    } else {
        let (d, v) = stmt_spec(ss[0], values);
        let (ds, lv) = stmts_fold(ss.drop_first(), values);
        (seq![d] + ds, if ss.len() == 1 { v } else { lv })
    }
}

/// Whether the bound name must be appended as the block's trailing value:
/// always inside an expression position, and in a function body whenever
/// the declared return type is not unit.
pub open spec fn pushes_trailing(ret: Option<Type>) -> bool {
    match ret {
        Some(t) => !t.spec_is_nil(),
        Option::None => true,
    }
}

/// A statement sequence: when it ends in a binding and the context's type
/// is not unit, the bound name is appended as the trailing expression.
pub open spec fn statements_spec(ss: Seq<Statement>, ret: Option<Type>, values: Seq<ModuleValue>) -> SDoc
    decreases ss, 1int,
{
    let (ds, lv) = stmts_fold(ss, values);
    let ds2 = match lv {
        Some(v) => if pushes_trailing(ret) { ds.push(v) } else { ds },
        Option::None => ds,
    };
    sgroup(sjoin(ds2, SDoc::HardLine))
}

/// A clause consequence: a block becomes a statement sequence.
pub open spec fn clause_consequence_spec(consequence: TypedExpr, values: Seq<ModuleValue>) -> SDoc
    decreases consequence, 2int,
{
    match consequence {
        TypedExpr::Block { statements } => statement_sequence_spec(statements@, values),
        _ => expr_spec(consequence, values),
    }
}

pub open spec fn stmt_group_docs(ss: Seq<Statement>, values: Seq<ModuleValue>) -> Seq<SDoc>
    decreases ss, 0int,
{
    if ss.len() == 0 {
        Seq::empty()
    } else {
        seq![sgroup(stmt_spec(ss[0], values).0)] + stmt_group_docs(ss.drop_first(), values)
    }
}

pub proof fn lemma_stmt_group_docs(ss: Seq<Statement>, values: Seq<ModuleValue>)
    ensures
        stmt_group_docs(ss, values).len() == ss.len(),
        forall|i: int| 0 <= i < ss.len()
            ==> stmt_group_docs(ss, values)[i] == sgroup(stmt_spec(ss[i], values).0),
    decreases ss.len(),
{
    if ss.len() > 0 {
        lemma_stmt_group_docs(ss.drop_first(), values);
    }
}

pub open spec fn statement_sequence_spec(ss: Seq<Statement>, values: Seq<ModuleValue>) -> SDoc
    decreases ss, 1int,
{
    let documents = sjoin(stmt_group_docs(ss, values), SDoc::HardLine);
    if ss.len() == 1 {
        documents
    } else {
        sforce(documents)
    }
}

/// One pattern list of a clause: a bare pattern, or a tuple of them.
pub open spec fn multi_pat_doc(ps: Seq<Pattern>, values: Seq<ModuleValue>) -> SDoc {
    if ps.len() == 1 {
        pattern_spec(ps[0], values)
    } else {
        stuple(patterns_docs(ps, values))
    }
}

pub open spec fn alt_pats_docs(aps: Seq<Vec<Pattern>>, values: Seq<ModuleValue>) -> Seq<SDoc>
    decreases aps,
{
    if aps.len() == 0 {
        Seq::empty()
    } else {
        seq![multi_pat_doc(aps[0]@, values)] + alt_pats_docs(aps.drop_first(), values)
    }
}

pub proof fn lemma_alt_pats_docs(aps: Seq<Vec<Pattern>>, values: Seq<ModuleValue>)
    ensures
        alt_pats_docs(aps, values).len() == aps.len(),
        forall|i: int| 0 <= i < aps.len()
            ==> alt_pats_docs(aps, values)[i] == multi_pat_doc(aps[i]@, values),
    decreases aps.len(),
{
    if aps.len() > 0 {
        lemma_alt_pats_docs(aps.drop_first(), values);
    }
}

/// One match arm: its patterns and alternatives joined with `|`, the guard,
/// and the consequence on its own indented line.
pub open spec fn clause_spec(c: TypedClause, values: Seq<ModuleValue>) -> SDoc
    decreases c, 0int,
{
    let patterns_doc = sjoin(
        seq![multi_pat_doc(c.pattern@, values)] + alt_pats_docs(c.alternative_patterns@, values),
        stext(" | "@));
    let guard = opt_guard_spec(c.guard, Seq::empty(), values);
    sapp(patterns_doc, sapp(sapp(guard, stext(" ->"@)),
        sgroup(snest(4, sapp(SDoc::HardLine, clause_consequence_spec(c.consequence, values))))))
}

pub open spec fn clause_entry_docs(cs: Seq<TypedClause>, values: Seq<ModuleValue>) -> Seq<SDoc>
    decreases cs, 0int,
{
    if cs.len() == 0 {
        Seq::empty()
    } else {
        seq![sapp(stext("| "@), sgroup(clause_spec(cs[0], values)))]
            + clause_entry_docs(cs.drop_first(), values)
    }
}

pub proof fn lemma_clause_entry_docs(cs: Seq<TypedClause>, values: Seq<ModuleValue>)
    ensures
        clause_entry_docs(cs, values).len() == cs.len(),
        forall|i: int| 0 <= i < cs.len()
            ==> clause_entry_docs(cs, values)[i] == sapp(stext("| "@), sgroup(clause_spec(cs[i], values))),
    decreases cs.len(),
{
    if cs.len() > 0 {
        lemma_clause_entry_docs(cs.drop_first(), values);
    }
}

/// A case expression: `match ... with` and one arm per clause.
pub open spec fn case_spec(e: TypedExpr, values: Seq<ModuleValue>) -> SDoc
    decreases e, 0int,
{
    match e {
        TypedExpr::Case { subjects, clauses } => {
            let subjects_doc = if subjects@.len() == 1 {
                expr_spec(subjects@[0], values)
            } else {
                stuple(exprs_docs(subjects@, values))
            };
            let clauses_doc = sgroup(sjoin(clause_entry_docs(clauses@, values), SDoc::HardLine));
            sgroup(sapp(sapp(
                sgroup(sapp(sapp(stext("match "@), subjects_doc), stext(" with"@))),
                SDoc::HardLine), clauses_doc))
        },
        _ => vstd::pervasive::arbitrary(),
    }
}

pub proof fn lemma_stmts_fold(ss: Seq<Statement>, values: Seq<ModuleValue>)
    ensures
        stmts_fold(ss, values).0.len() == ss.len(),
        forall|i: int| 0 <= i < ss.len()
            ==> stmts_fold(ss, values).0[i] == stmt_spec(ss[i], values).0,
        ss.len() > 0 ==> stmts_fold(ss, values).1 == stmt_spec(ss.last(), values).1,
        ss.len() == 0 ==> stmts_fold(ss, values).1 is None,
    decreases ss.len(),
{
    if ss.len() > 0 {
        lemma_stmts_fold(ss.drop_first(), values);
        if ss.len() > 1 {
            assert(ss.drop_first().last() == ss.last());
        }
    }
}

pub proof fn lemma_pipe_docs(assignments: Seq<Assignment>, values: Seq<ModuleValue>)
    ensures
        pipe_docs(assignments, values).len() == 2 * assignments.len(),
        forall|i: int| 0 <= i < assignments.len()
            ==> pipe_docs(assignments, values)[2 * i]
                == sapp(sapp(sapp(stext("let "@), pattern_spec(assignments[i].pattern, values)),
                    stext(" = "@)), expr_spec(*assignments[i].value, values)),
        forall|i: int| 0 <= i < assignments.len()
            ==> #[trigger] pipe_docs(assignments, values)[2 * i + 1] == SDoc::HardLine,
    decreases assignments.len(),
{
    if assignments.len() > 0 {
        lemma_pipe_docs(assignments.drop_first(), values);
        assert forall|i: int| 0 <= i < assignments.len()
            implies pipe_docs(assignments, values)[2 * i]
                == sapp(sapp(sapp(stext("let "@), pattern_spec(assignments[i].pattern, values)),
                    stext(" = "@)), expr_spec(*assignments[i].value, values)) by {
            if i > 0 {
                assert(assignments.drop_first()[i - 1] == assignments[i]);
                assert(pipe_docs(assignments, values)[2 * i]
                    == pipe_docs(assignments.drop_first(), values)[2 * (i - 1)]);
            }
        }
        assert forall|i: int| 0 <= i < assignments.len()
            implies #[trigger] pipe_docs(assignments, values)[2 * i + 1] == SDoc::HardLine by {
            if i > 0 {
                assert(assignments.drop_first()[i - 1] == assignments[i]);
                assert(pipe_docs(assignments, values)[2 * i + 1]
                    == pipe_docs(assignments.drop_first(), values)[2 * (i - 1) + 1]);
            }
        }
    }
}

/// Writes out a function parameter's bound name, or a discard.
pub fn arg_name(arg: &TypedArg) -> (r: Doc)
    ensures r.sdoc() == sarg_name(*arg),
{
    match arg.names.get_variable_name() {
        Some(n) => Doc::Text(n.clone()),
        Option::None => Doc::Str("_"),
    }
}

/// Writes out definition-site function arguments.
#[verifier::loop_isolation(false)]
pub fn fun_args(arguments: &Vec<TypedArg>) -> (r: Doc)
    ensures r.sdoc() == sfun_args(arguments@),
{
    if arguments.len() == 0 {
        Doc::Str("()")
    } else {
        let mut docs: Vec<Doc> = Vec::new();
        let mut i: usize = 0;
        while i < arguments.len()
            invariant
                i <= arguments@.len(),
                docs@.len() == i as int,
                forall|j: int| 0 <= j < i
                    ==> (#[trigger] docs@[j]).sdoc() == ssurround(
                        sapp(sapp(sarg_name(arguments@[j]), stext(": "@)), type_spec(arguments@[j].typ)),
                        stext("("@), stext(")"@)),
            decreases arguments@.len() - i,
        {
            let d = arg_name(&arguments[i])
                .append(Doc::Str(": "))
                .append(type_to_fsharp(&arguments[i].typ))
                .surround(Doc::Str("("), Doc::Str(")"));
            docs.push(d);
            i = i + 1;
        }
        let r = join(docs, &Doc::Str(" ")).group();
        proof {
            assert(sdocs(docs@) =~= Seq::new(arguments@.len(), |j: int| ssurround(
                sapp(sapp(sarg_name(arguments@[j]), stext(": "@)), type_spec(arguments@[j].typ)),
                stext("("@), stext(")"@))));
        }
        r
    }
}

/// Wraps an expression in a fresh `begin`/`end` scope.
pub fn wrap_in_begin_end(expr: Doc) -> (r: Doc)
    ensures r.sdoc() == swrap_in_begin_end(expr.sdoc()),
{
    Doc::Str("begin")
        .append(Doc::HardLine)
        .nest(INDENT)
        .append(expr.nest(INDENT).group())
        .append(Doc::HardLine.append(Doc::Str("end")))
}

/// Writes out a typed expression.
#[verifier::loop_isolation(false)]
pub fn expression(e: &TypedExpr, values: &Vec<ModuleValue>) -> (r: Doc)
    requires crate::ast::expr_wf(*e, values@),
    ensures r.sdoc() == expr_spec(*e, values@),
    decreases *e, 1int,
{
    match e {
        TypedExpr::IntLit { value } => Doc::Text(value.clone()),
        TypedExpr::FloatLit { value } => Doc::Text(value.clone()),
        TypedExpr::StringLit { value } => string(value.as_str()),
        TypedExpr::Block { statements: ss } => {
            proof {
                assert(decreases_to!(*e => e->Block_statements));
                assert(decreases_to!(e->Block_statements => ss@));
            }
            block(ss, values)
        }
        TypedExpr::Pipeline { .. } => pipeline(e, values),
        TypedExpr::Var { name, .. } => {
            if str_eq_str(name.as_str(), "Nil") {
                Doc::Str("()")
            } else if str_eq_str(name.as_str(), "True") {
                Doc::Str("true")
            } else if str_eq_str(name.as_str(), "False") {
                Doc::Str("false")
            } else {
                Doc::Text(name.clone())
            }
        }
        TypedExpr::Fun { args, body } => {
            proof {
                assert(decreases_to!(*e => e->Fun_body));
                assert(decreases_to!(e->Fun_body => body@));
            }
            fun(args, body, values)
        }
        TypedExpr::List { elements } => {
            let mut docs: Vec<Doc> = Vec::new();
            let mut i: usize = 0;
            while i < elements.len()
                invariant
                    i <= elements@.len(),
                    docs@.len() == i as int,
                    forall|j: int| 0 <= j < i
                        ==> (#[trigger] docs@[j]).sdoc() == expr_spec(elements@[j], values@),
                decreases elements@.len() - i,
            {
                proof {
                    assert(decreases_to!(*e => e->List_elements));
                    assert(decreases_to!(*elements => elements@));
                    assert(decreases_to!(elements@ => elements@[i as int]));
                }
                docs.push(expression(&elements[i], values));
                i = i + 1;
            }
            let r = join(docs, &Doc::Str("; ")).surround(Doc::Str("["), Doc::Str("]"));
            proof {
                lemma_exprs_docs(elements@, values@);
                assert(sdocs(docs@) =~= exprs_docs(elements@, values@));
            }
            r
        }
        TypedExpr::Call { fun: callee, .. } => {
            let record = match &**callee {
                TypedExpr::Var { constructor, .. } => match constructor {
                    ValueKind::RecordConstructor { arity, field_map, constructors_count, .. } => {
                        match field_map {
                            Some(fm) => *constructors_count == 1 && *arity == fm.fields.len() as u64,
                            Option::None => false,
                        }
                    }
                    _ => false,
                },
                _ => false,
            };
            if record {
                record_instantiation(e, values)
            } else {
                function_call(e, values)
            }
        }
        TypedExpr::BinOpExpr { .. } => binop(e, values),
        TypedExpr::Case { .. } => case(e, values),
        TypedExpr::Tuple { elems } => {
            let mut docs: Vec<Doc> = Vec::new();
            let mut i: usize = 0;
            while i < elems.len()
                invariant
                    i <= elems@.len(),
                    docs@.len() == i as int,
                    forall|j: int| 0 <= j < i
                        ==> (#[trigger] docs@[j]).sdoc() == expr_spec(elems@[j], values@),
                decreases elems@.len() - i,
            {
                proof {
                    assert(decreases_to!(*e => e->Tuple_elems));
                    assert(decreases_to!(*elems => elems@));
                    assert(decreases_to!(elems@ => elems@[i as int]));
                }
                docs.push(expression(&elems[i], values));
                i = i + 1;
            }
            let r = tuple_of(docs);
            proof {
                lemma_exprs_docs(elems@, values@);
                assert(sdocs(docs@) =~= exprs_docs(elems@, values@));
            }
            r
        }
        TypedExpr::TupleIndex { tuple, index } => tuple_index(tuple, *index, values),
        TypedExpr::Todo { message } => todo(message, values),
        TypedExpr::Panic { message } => panic_(message, values),
        TypedExpr::BitArray => Doc::Str("// TODO: TypedExpr::BitArray"),
        TypedExpr::RecordAccess { record, label } => {
            let record_expr = expression(record, values);
            record_expr.append(Doc::Str(".")).append(Doc::Text(label.clone()))
        }
        TypedExpr::RecordUpdate { .. } => record_update(e, values),
        TypedExpr::ModuleSelect { .. } => Doc::Str("// TODO: TypedExpr::ModuleSelect"),
        TypedExpr::NegateBool { .. } => Doc::Str("// TODO: TypedExpr::NegateBool"),
        TypedExpr::NegateInt { value } => {
            if matches!(&**value, TypedExpr::NegateInt { .. }) {
                Doc::Str("-").append(expression(value, values).surround(Doc::Str("("), Doc::Str(")")))
            } else {
                Doc::Str("-").append(expression(value, values))
            }
        }
        TypedExpr::Invalid => Doc::Str("// TODO: TypedExpr::Invalid"),
    }
}

/// Writes out one-based `.Item` access into a tuple.
fn tuple_index(tuple: &TypedExpr, index: u64, values: &Vec<ModuleValue>) -> (r: Doc)
    requires
        crate::ast::expr_wf(*tuple, values@),
        index < u64::MAX,
    ensures r.sdoc() == tuple_index_spec(*tuple, index as nat, values@),
    decreases *tuple, 2int,
{
    expression(tuple, values)
        .append(Doc::Str(".Item"))
        .append(Doc::Text(u64_to_string(index + 1)))
}

/// `failwith`, with the optional message.
fn todo(message: &Option<Box<TypedExpr>>, values: &Vec<ModuleValue>) -> (r: Doc)
    requires match *message {
        Some(m) => crate::ast::expr_wf(*m, values@),
        Option::None => true,
    },
    ensures r.sdoc() == todo_spec(*message, values@),
    decreases *message, 2int,
{
    match message {
        Some(m) => Doc::Str("failwith ")
            .append(expression(m, values).surround(Doc::Str("("), Doc::Str(")"))),
        Option::None => Doc::Str("failwith \"Not implemented\""),
    }
}

fn panic_(message: &Option<Box<TypedExpr>>, values: &Vec<ModuleValue>) -> (r: Doc)
    requires match *message {
        Some(m) => crate::ast::expr_wf(*m, values@),
        Option::None => true,
    },
    ensures r.sdoc() == panic_spec(*message, values@),
    decreases *message, 2int,
{
    match message {
        Some(m) => Doc::Str("failwith ")
            .append(expression(m, values).surround(Doc::Str("("), Doc::Str(")"))),
        Option::None => Doc::Str("failwith \"Panic encountered\""),
    }
}

/// Writes out a binary operation.
fn binop(e: &TypedExpr, values: &Vec<ModuleValue>) -> (r: Doc)
    requires
        e is BinOpExpr,
        crate::ast::expr_wf(*e, values@),
    ensures r.sdoc() == binop_spec(*e, values@),
    decreases *e, 0int,
{
    match e {
        TypedExpr::BinOpExpr { name, left, right } => {
            let operand: &'static str = match name {
                BinOp::And => "&&",
                BinOp::Or => "||",
                BinOp::Eq => "=",
                BinOp::NotEq => "<>",
                BinOp::LtInt | BinOp::LtFloat => "<",
                BinOp::LtEqInt | BinOp::LtEqFloat => "<=",
                BinOp::GtInt | BinOp::GtFloat => ">",
                BinOp::GtEqInt | BinOp::GtEqFloat => ">=",
                BinOp::AddInt | BinOp::AddFloat => "+",
                BinOp::SubInt | BinOp::SubFloat => "-",
                BinOp::MultInt | BinOp::MultFloat => "*",
                BinOp::DivInt | BinOp::DivFloat => "/",
                BinOp::RemainderInt => "%",
                BinOp::Concatenate => "+",
            };
            expression(left, values)
                .append(Doc::Str(" "))
                .append(Doc::Str(operand))
                .append(Doc::Str(" "))
                .append(expression(right, values))
        }
        _ => {
            proof {
                assert(false);
            }
            Doc::Nil
        }
    }
}

/// Writes a record-constructor call as a record literal.
#[verifier::loop_isolation(false)]
fn record_instantiation(e: &TypedExpr, values: &Vec<ModuleValue>) -> (r: Doc)
    requires
        crate::ast::expr_wf(*e, values@),
        e is Call,
        *e->Call_fun is Var,
        is_record_call((*e->Call_fun)->Var_constructor),
    ensures r.sdoc() == record_instantiation_spec(*e, values@),
    decreases *e, 0int,
{
    match e {
        TypedExpr::Call { fun: callee, args } => {
            let fm: &FieldMap = match &**callee {
                TypedExpr::Var { constructor, .. } => match constructor {
                    ValueKind::RecordConstructor { field_map, .. } => match field_map {
                        Some(fm) => fm,
                        Option::None => {
                            proof {
                                assert(false);
                            }
                            unreached()
                        }
                    },
                    _ => {
                        proof {
                            assert(false);
                        }
                        unreached()
                    }
                },
                _ => {
                    proof {
                        assert(false);
                    }
                    unreached()
                }
            };
            let mut docs: Vec<Doc> = Vec::new();
            let mut i: usize = 0;
            while i < args.len()
                invariant
                    i <= args@.len(),
                    docs@.len() == i as int,
                    forall|j: int| 0 <= j < i
                        ==> (#[trigger] docs@[j]).sdoc()
                            == sapp(sapp(sanitize_spec(fm_at(fm.fields@, j)->0.label@), stext(" = "@)),
                                expr_spec(args@[j].value, values@)),
                decreases args@.len() - i,
            {
                proof {
                    crate::ast::lemma_fm_at_total(*fm, i as int);
                }
                let label = match fm.label_at(i as u64) {
                    Some(l) => l.clone(),
                    Option::None => {
                        proof {
                            assert(false);
                        }
                        String::new()
                    }
                };
                proof {
                    assert(decreases_to!(*e => e->Call_args));
                    assert(decreases_to!(*args => args@));
                    assert(decreases_to!(args@ => args@[i as int]));
                    assert(decreases_to!(args@[i as int] => args@[i as int].value));
                }
                let inner = expression(&args[i].value, values);
                docs.push(sanitize_name(label.as_str()).append(Doc::Str(" = ")).append(inner));
                i = i + 1;
            }
            let r = join(docs, &Doc::Str("; "))
                .group()
                .surround(Doc::Str("{ "), Doc::Str(" }"));
            proof {
                lemma_rec_inst_fields(args@, *fm, 0, values@);
                assert(sdocs(docs@) =~= rec_inst_fields(args@, *fm, 0, values@));
            }
            r
        }
        _ => {
            proof {
                assert(false);
            }
            unreached()
        }
    }
}

/// Writes out an ordinary application.
#[verifier::loop_isolation(false)]
fn function_call(e: &TypedExpr, values: &Vec<ModuleValue>) -> (r: Doc)
    requires
        crate::ast::expr_wf(*e, values@),
        e is Call,
    ensures r.sdoc() == function_call_spec(*e, values@),
    decreases *e, 0int,
{
    match e {
        TypedExpr::Call { fun: callee, args } => {
            let args_doc = if args.len() == 0 {
                Doc::Str("()")
            } else {
                let mut docs: Vec<Doc> = Vec::new();
                let mut i: usize = 0;
                while i < args.len()
                    invariant
                        i <= args@.len(),
                        docs@.len() == i as int,
                        forall|j: int| 0 <= j < i
                            ==> (#[trigger] docs@[j]).sdoc()
                                == ssurround(expr_spec(args@[j].value, values@), stext("("@), stext(")"@)),
                    decreases args@.len() - i,
                {
                    proof {
                        assert(decreases_to!(*e => e->Call_args));
                        assert(decreases_to!(*args => args@));
                        assert(decreases_to!(args@ => args@[i as int]));
                        assert(decreases_to!(args@[i as int] => args@[i as int].value));
                    }
                    let d = expression(&args[i].value, values)
                        .surround(Doc::Str("("), Doc::Str(")"));
                    docs.push(d);
                    i = i + 1;
                }
                let joined = join(docs, &Doc::Str(" ")).group();
                proof {
                    lemma_call_args_parens_docs(args@, values@);
                    assert(sdocs(docs@) =~= call_args_parens_docs(args@, values@));
                }
                Doc::Str(" ").append(joined)
            };
            let fun_expr = expression(callee, values);
            let fun_expr = if matches!(&**callee, TypedExpr::Fun { .. }) {
                fun_expr.surround(Doc::Str("("), Doc::Str(")"))
            } else {
                fun_expr
            };
            fun_expr.append(args_doc).group()
        }
        _ => {
            proof {
                assert(false);
            }
            unreached()
        }
    }
}

/// Writes out a functional record update.
#[verifier::loop_isolation(false)]
fn record_update(e: &TypedExpr, values: &Vec<ModuleValue>) -> (r: Doc)
    requires
        crate::ast::expr_wf(*e, values@),
        e is RecordUpdate,
    ensures r.sdoc() == record_update_spec(*e, values@),
    decreases *e, 0int,
{
    match e {
        TypedExpr::RecordUpdate { spread, args } => {
            let base = expression(spread, values);
            let old_var = if matches!(&**spread, TypedExpr::Pipeline { .. }) {
                base.surround(Doc::Str("("), Doc::Str(")"))
            } else {
                base
            };
            let mut docs: Vec<Doc> = Vec::new();
            let mut i: usize = 0;
            while i < args.len()
                invariant
                    i <= args@.len(),
                    docs@.len() == i as int,
                    forall|j: int| 0 <= j < i
                        ==> (#[trigger] docs@[j]).sdoc()
                            == sgroup(sapp(sapp(stext(args@[j].label@), stext(" = "@)),
                                match args@[j].value {
                                    TypedExpr::Pipeline { .. } => snest(1, expr_spec(args@[j].value, values@)),
                                    _ => expr_spec(args@[j].value, values@),
                                })),
                decreases args@.len() - i,
            {
                proof {
                    assert(decreases_to!(*e => e->RecordUpdate_args));
                    assert(decreases_to!(*args => args@));
                    assert(decreases_to!(args@ => args@[i as int]));
                    assert(decreases_to!(args@[i as int] => args@[i as int].value));
                }
                let inner = expression(&args[i].value, values);
                let child = if matches!(&args[i].value, TypedExpr::Pipeline { .. }) {
                    inner.nest(1)
                } else {
                    inner
                };
                let d = Doc::Text(args[i].label.clone())
                    .append(Doc::Str(" = "))
                    .append(child)
                    .group();
                docs.push(d);
                i = i + 1;
            }
            let joined = join(docs, &Doc::Str("; ")).force_break();
            proof {
                lemma_rupdate_args_docs(args@, values@);
                assert(sdocs(docs@) =~= rupdate_args_docs(args@, values@));
            }
            Doc::Str("{ ")
                .append(old_var)
                .append(Doc::Str(" with "))
                .append(joined)
                .append(Doc::Str(" }"))
        }
        _ => {
            proof {
                assert(false);
            }
            unreached()
        }
    }
}

/// Writes out an anonymous function.
fn fun(args: &Vec<TypedArg>, body: &Vec<Statement>, values: &Vec<ModuleValue>) -> (r: Doc)
    requires forall|i: int| 0 <= i < body@.len()
        ==> crate::ast::stmt_wf(#[trigger] body@[i], values@),
    ensures r.sdoc() == sfun(args@, body@, values@),
    decreases body@, 2int,
{
    Doc::Str("fun")
        .append(fun_args(args))
        .append(Doc::Str(" -> begin "))
        .append(statements(body, Option::None, values).nest(INDENT))
        .append(Doc::Break { broken: "", unbroken: " " })
        .append(Doc::Str("end"))
        .group()
}

/// Writes out a block, in its own `begin`/`end` scope.
fn block(ss: &Vec<Statement>, values: &Vec<ModuleValue>) -> (r: Doc)
    requires forall|i: int| 0 <= i < ss@.len()
        ==> crate::ast::stmt_wf(#[trigger] ss@[i], values@),
    ensures r.sdoc() == block_spec(ss@, values@),
    decreases ss@, 2int,
{
    Doc::Str("begin")
        .append(Doc::HardLine)
        .nest(INDENT)
        .append(statements(ss, Option::None, values).nest(INDENT).group())
        .append(Doc::HardLine.append(Doc::Str("end")))
}

/// Writes out a pipeline as scoped intermediate bindings.
#[verifier::loop_isolation(false)]
fn pipeline(e: &TypedExpr, values: &Vec<ModuleValue>) -> (r: Doc)
    requires
        crate::ast::expr_wf(*e, values@),
        e is Pipeline,
    ensures r.sdoc() == pipeline_spec(*e, values@),
    decreases *e, 0int,
{
    match e {
        TypedExpr::Pipeline { assignments, finally } => {
            let mut documents: Vec<Doc> = Vec::new();
            let mut i: usize = 0;
            while i < assignments.len()
                invariant
                    i <= assignments@.len(),
                    documents@.len() == 2 * i,
                    forall|j: int| 0 <= j < i
                        ==> (#[trigger] documents@[2 * j]).sdoc()
                            == sapp(sapp(sapp(stext("let "@),
                                pattern_spec(assignments@[j].pattern, values@)), stext(" = "@)),
                                expr_spec(*assignments@[j].value, values@)),
                    forall|j: int| 0 <= j < i
                        ==> (#[trigger] documents@[2 * j + 1]).sdoc() == SDoc::HardLine,
                decreases assignments@.len() - i,
            {
                proof {
                    assert(decreases_to!(*e => e->Pipeline_assignments));
                    assert(decreases_to!(*assignments => assignments@));
                    assert(decreases_to!(assignments@ => assignments@[i as int]));
                    assert(decreases_to!(assignments@[i as int] => assignments@[i as int].value));
                }
                let a = &assignments[i];
                proof {
                    assert(crate::ast::assignment_wf(assignments@[i as int], values@));
                }
                let name = pattern(&a.pattern, values);
                let value = expression(&a.value, values);
                documents.push(Doc::Str("let ").append(name).append(Doc::Str(" = ")).append(value));
                documents.push(Doc::HardLine);
                i = i + 1;
            }
            let last = expression(finally, values).surround(Doc::Str("("), Doc::Str(")"));
            documents.push(last);
            let joined = join(documents, &Doc::Nil);
            proof {
                lemma_pipe_docs(assignments@, values@);
                let target = pipe_docs(assignments@, values@)
                    + seq![ssurround(expr_spec(*e->Pipeline_finally, values@), stext("("@), stext(")"@))];
                assert forall|k: int| 0 <= k < documents@.len()
                    implies (#[trigger] documents@[k]).sdoc() == target[k] by {
                    let n = assignments@.len() as int;
                    if k < 2 * n {
                        let j = k / 2;
                        if k == 2 * j {
                            assert(documents@[2 * j].sdoc() == target[2 * j]);
                        } else {
                            assert(k == 2 * j + 1);
                            assert(documents@[2 * j + 1].sdoc() == SDoc::HardLine);
                            assert(target[2 * j + 1] == SDoc::HardLine);
                        }
                    }
                }
                assert(sdocs(documents@) =~= target);
            }
            wrap_in_begin_end(joined)
        }
        _ => {
            proof {
                assert(false);
            }
            unreached()
        }
    }
}

/// Writes out one statement and hands back the binding it leaves, for the
/// block-trailing-value rule.
fn statement(s: &Statement, values: &Vec<ModuleValue>) -> (r: (Doc, Option<Doc>))
    requires crate::ast::stmt_wf(*s, values@),
    ensures
        r.0.sdoc() == stmt_spec(*s, values@).0,
        r.1 is Some <==> stmt_spec(*s, values@).1 is Some,
        r.1 is Some ==> r.1->0.sdoc() == stmt_spec(*s, values@).1->0,
    decreases *s, 1int,
{
    match s {
        Statement::Expression(expr) => (expression(expr, values), Option::None),
        Statement::Assignment(a) => {
            match &a.pattern {
                Pattern::StringPrefix { left_side_string, right_side_assignment, left_side_assignment } => {
                    let value_doc = expression(&a.value, values);
                    let (suffix, last_var): (Doc, Doc) = match right_side_assignment {
                        AssignName::Variable(right) => (Doc::Text(right.clone()), Doc::Text(right.clone())),
                        AssignName::Discard(_) => (Doc::Str("_"), value_doc.duplicate()),
                    };
                    let label_part = match left_side_assignment {
                        Some(label) => Doc::Text(label.clone()).append(Doc::Str(", ")),
                        Option::None => Doc::Str("_, "),
                    };
                    let doc = Doc::Str("let (")
                        .append(Doc::Str("Gleam_codegen_string_parts"))
                        .append(Doc::Str(" "))
                        .append(string(left_side_string.as_str()))
                        .append(Doc::Str(" ("))
                        .append(label_part)
                        .append(suffix)
                        .append(Doc::Str(")) = "))
                        .append(value_doc);
                    (doc, Some(last_var))
                }
                _ => {
                    let name = pattern(&a.pattern, values);
                    let last_var = name.duplicate();
                    let value = expression(&a.value, values);
                    let doc = if matches!(&*a.value, TypedExpr::Case { .. }) {
                        Doc::Str("let ")
                            .append(name)
                            .append(Doc::Str(" = "))
                            .append(Doc::HardLine.nest(INDENT))
                            .append(value.group().nest(INDENT))
                    } else {
                        Doc::Str("let ").append(name).append(Doc::Str(" = ")).append(value)
                    };
                    (doc, Some(last_var))
                }
            }
        }
        Statement::Use => (Doc::Str("// TODO: Implement use statements"), Option::None),
    }
}

/// Writes out a statement sequence, appending the trailing bound name when
/// the context's type calls for it.
#[verifier::loop_isolation(false)]
pub fn statements(ss: &Vec<Statement>, return_type: Option<&Type>, values: &Vec<ModuleValue>) -> (r: Doc)
    requires forall|i: int| 0 <= i < ss@.len()
        ==> crate::ast::stmt_wf(#[trigger] ss@[i], values@),
    ensures r.sdoc() == statements_spec(
        ss@,
        match return_type { Some(t) => Some(*t), Option::None => Option::None },
        values@,
    ),
    decreases ss@, 1int,
{
    let ghost ret = match return_type { Some(t) => Some(*t), Option::None => Option::<Type>::None };
    let mut docs: Vec<Doc> = Vec::new();
    let mut last_var: Option<Doc> = Option::None;
    let mut i: usize = 0;
    while i < ss.len()
        invariant
            i <= ss@.len(),
            docs@.len() == i as int,
            forall|j: int| 0 <= j < i
                ==> (#[trigger] docs@[j]).sdoc() == stmt_spec(ss@[j], values@).0,
            i > 0 ==> (last_var is Some <==> stmt_spec(ss@[i - 1], values@).1 is Some),
            i > 0 && last_var is Some ==> last_var->0.sdoc() == stmt_spec(ss@[i - 1], values@).1->0,
            i == 0 ==> last_var is None,
        decreases ss@.len() - i,
    {
        proof {
            assert(decreases_to!(ss@ => ss@[i as int]));
        }
        let (d, v) = statement(&ss[i], values);
        docs.push(d);
        last_var = v;
        i = i + 1;
    }
    let push_trailing = match return_type {
        Some(t) => !t.is_nil(),
        Option::None => true,
    };
    let ghost folded = stmts_fold(ss@, values@);
    proof {
        lemma_stmts_fold(ss@, values@);
    }
    match last_var {
        Some(v) => {
            if push_trailing {
                docs.push(v);
                proof {
                    assert(sdocs(docs@) =~= folded.0.push(folded.1->0));
                }
            } else {
                proof {
                    assert(sdocs(docs@) =~= folded.0);
                }
            }
        }
        Option::None => {
            proof {
                assert(sdocs(docs@) =~= folded.0);
            }
        }
    }
    join(docs, &Doc::HardLine).group()
}

/// Writes out a clause consequence.
fn clause_consequence(consequence: &TypedExpr, values: &Vec<ModuleValue>) -> (r: Doc)
    requires crate::ast::expr_wf(*consequence, values@),
    ensures r.sdoc() == clause_consequence_spec(*consequence, values@),
    decreases *consequence, 2int,
{
    match consequence {
        TypedExpr::Block { statements: ss } => {
            proof {
                assert(decreases_to!(*consequence => consequence->Block_statements));
                assert(decreases_to!(consequence->Block_statements => ss@));
            }
            statement_sequence(ss, values)
        }
        _ => expression(consequence, values),
    }
}

/// Writes out the statements of a clause body, forced vertical when there
/// is more than one.
#[verifier::loop_isolation(false)]
fn statement_sequence(ss: &Vec<Statement>, values: &Vec<ModuleValue>) -> (r: Doc)
    requires forall|i: int| 0 <= i < ss@.len()
        ==> crate::ast::stmt_wf(#[trigger] ss@[i], values@),
    ensures r.sdoc() == statement_sequence_spec(ss@, values@),
    decreases ss@, 1int,
{
    let mut docs: Vec<Doc> = Vec::new();
    let mut i: usize = 0;
    while i < ss.len()
        invariant
            i <= ss@.len(),
            docs@.len() == i as int,
            forall|j: int| 0 <= j < i
                ==> (#[trigger] docs@[j]).sdoc() == sgroup(stmt_spec(ss@[j], values@).0),
        decreases ss@.len() - i,
    {
        proof {
            assert(decreases_to!(ss@ => ss@[i as int]));
        }
        let (d, _) = statement(&ss[i], values);
        docs.push(d.group());
        i = i + 1;
    }
    let documents = join(docs, &Doc::HardLine);
    proof {
        lemma_stmt_group_docs(ss@, values@);
        assert(sdocs(docs@) =~= stmt_group_docs(ss@, values@));
    }
    if ss.len() == 1 {
        documents
    } else {
        documents.force_break()
    }
}

/// Writes out one pattern list of a clause.
#[verifier::loop_isolation(false)]
fn multi_pattern(ps: &Vec<Pattern>, values: &Vec<ModuleValue>) -> (r: Doc)
    requires forall|i: int| 0 <= i < ps@.len()
        ==> crate::ast::pattern_wf(#[trigger] ps@[i], values@),
    ensures r.sdoc() == multi_pat_doc(ps@, values@),
{
    if ps.len() == 1 {
        pattern(&ps[0], values)
    } else {
        let mut docs: Vec<Doc> = Vec::new();
        let mut i: usize = 0;
        while i < ps.len()
            invariant
                i <= ps@.len(),
                docs@.len() == i as int,
                forall|j: int| 0 <= j < i
                    ==> (#[trigger] docs@[j]).sdoc() == pattern_spec(ps@[j], values@),
            decreases ps@.len() - i,
        {
            docs.push(pattern(&ps[i], values));
            i = i + 1;
        }
        let r = tuple_of(docs);
        proof {
            lemma_patterns_docs(ps@, values@);
            assert(sdocs(docs@) =~= patterns_docs(ps@, values@));
        }
        r
    }
}

/// Writes out one match arm.
#[verifier::loop_isolation(false)]
fn clause(c: &TypedClause, values: &Vec<ModuleValue>) -> (r: Doc)
    requires crate::ast::clause_wf(*c, values@),
    ensures r.sdoc() == clause_spec(*c, values@),
    decreases *c, 0int,
{
    let mut pat_docs: Vec<Doc> = Vec::new();
    pat_docs.push(multi_pattern(&c.pattern, values));
    let mut i: usize = 0;
    while i < c.alternative_patterns.len()
        invariant
            i <= c.alternative_patterns@.len(),
            pat_docs@.len() == i + 1,
            pat_docs@[0].sdoc() == multi_pat_doc(c.pattern@, values@),
            forall|j: int| 1 <= j < i + 1
                ==> (#[trigger] pat_docs@[j]).sdoc()
                    == multi_pat_doc(c.alternative_patterns@[j - 1]@, values@),
        decreases c.alternative_patterns@.len() - i,
    {
        pat_docs.push(multi_pattern(&c.alternative_patterns[i], values));
        i = i + 1;
    }
    let patterns_doc = join(pat_docs, &Doc::Str(" | "));
    proof {
        lemma_alt_pats_docs(c.alternative_patterns@, values@);
        assert(sdocs(pat_docs@) =~= seq![multi_pat_doc(c.pattern@, values@)]
            + alt_pats_docs(c.alternative_patterns@, values@));
    }
    let guard = optional_clause_guard(&c.guard, Vec::new(), values);
    proof {
        assert(sdocs(Seq::<Doc>::empty()) =~= Seq::<SDoc>::empty());
    }
    let consequence_doc = clause_consequence(&c.consequence, values);
    patterns_doc.append(
        guard.append(Doc::Str(" ->"))
            .append(Doc::HardLine.append(consequence_doc).nest(INDENT).group()),
    )
}

/// Writes out a case expression.
#[verifier::loop_isolation(false)]
fn case(e: &TypedExpr, values: &Vec<ModuleValue>) -> (r: Doc)
    requires
        crate::ast::expr_wf(*e, values@),
        e is Case,
    ensures r.sdoc() == case_spec(*e, values@),
    decreases *e, 0int,
{
    match e {
        TypedExpr::Case { subjects, clauses } => {
            let subjects_doc = if subjects.len() == 1 {
                proof {
                    assert(decreases_to!(*e => e->Case_subjects));
                    assert(decreases_to!(*subjects => subjects@));
                    assert(decreases_to!(subjects@ => subjects@[0]));
                }
                expression(&subjects[0], values)
            } else {
                let mut docs: Vec<Doc> = Vec::new();
                let mut i: usize = 0;
                while i < subjects.len()
                    invariant
                        i <= subjects@.len(),
                        docs@.len() == i as int,
                        forall|j: int| 0 <= j < i
                            ==> (#[trigger] docs@[j]).sdoc() == expr_spec(subjects@[j], values@),
                    decreases subjects@.len() - i,
                {
                    proof {
                        assert(decreases_to!(*e => e->Case_subjects));
                        assert(decreases_to!(*subjects => subjects@));
                        assert(decreases_to!(subjects@ => subjects@[i as int]));
                    }
                    docs.push(expression(&subjects[i], values));
                    i = i + 1;
                }
                let r = tuple_of(docs);
                proof {
                    lemma_exprs_docs(subjects@, values@);
                    assert(sdocs(docs@) =~= exprs_docs(subjects@, values@));
                }
                r
            };
            let mut entry_docs: Vec<Doc> = Vec::new();
            let mut i: usize = 0;
            while i < clauses.len()
                invariant
                    i <= clauses@.len(),
                    entry_docs@.len() == i as int,
                    forall|j: int| 0 <= j < i
                        ==> (#[trigger] entry_docs@[j]).sdoc()
                            == sapp(stext("| "@), sgroup(clause_spec(clauses@[j], values@))),
                decreases clauses@.len() - i,
            {
                proof {
                    assert(decreases_to!(*e => e->Case_clauses));
                    assert(decreases_to!(*clauses => clauses@));
                    assert(decreases_to!(clauses@ => clauses@[i as int]));
                }
                let d = Doc::Str("| ").append(clause(&clauses[i], values).group());
                entry_docs.push(d);
                i = i + 1;
            }
            let clauses_doc = join(entry_docs, &Doc::HardLine).group();
            proof {
                lemma_clause_entry_docs(clauses@, values@);
                assert(sdocs(entry_docs@) =~= clause_entry_docs(clauses@, values@));
            }
            Doc::Str("match ")
                .append(subjects_doc)
                .append(Doc::Str(" with"))
                .group()
                .append(Doc::HardLine)
                .append(clauses_doc)
                .group()
        }
        _ => {
            proof {
                assert(false);
            }
            unreached()
        }
    }
}

/// Whether `c` occurs in `s`.
pub fn contains_char(s: &str, c: char) -> (r: bool)
    ensures r == s@.contains(c),
{
    let len = s.unicode_len();
    let mut i: usize = 0;
    while i < len
        invariant
            i <= s@.len(),
            len == s@.len(),
            forall|j: int| 0 <= j < i ==> s@[j] != c,
        decreases s@.len() - i,
    {
        if s.get_char(i) == c {
            proof {
                assert(s@.contains(c));
            }
            return true;
        }
        i = i + 1;
    }
    proof {
        assert(!s@.contains(c));
    }
    false
}

/// The type parameter list of a declared type, when it has one.
pub open spec fn type_params_spec(t: CustomType) -> SDoc {
    if t.typed_parameters@.len() == 0 {
        SDoc::Nil
    } else {
        ssurround(
            sjoin(Seq::new(t.typed_parameters@.len(), |i: int| type_spec(t.typed_parameters@[i])),
                stext(", "@)),
            stext("<"@), stext(">"@))
    }
}

#[verifier::loop_isolation(false)]
pub fn type_params(t: &CustomType) -> (r: Doc)
    ensures r.sdoc() == type_params_spec(*t),
{
    if t.typed_parameters.len() == 0 {
        Doc::Nil
    } else {
        let mut docs: Vec<Doc> = Vec::new();
        let mut i: usize = 0;
        while i < t.typed_parameters.len()
            invariant
                i <= t.typed_parameters@.len(),
                docs@.len() == i as int,
                forall|j: int| 0 <= j < i
                    ==> (#[trigger] docs@[j]).sdoc() == type_spec(t.typed_parameters@[j]),
            decreases t.typed_parameters@.len() - i,
        {
            docs.push(type_to_fsharp(&t.typed_parameters[i]));
            i = i + 1;
        }
        let r = join(docs, &Doc::Str(", ")).surround(Doc::Str("<"), Doc::Str(">"));
        proof {
            assert(sdocs(docs@) =~= Seq::new(t.typed_parameters@.len(),
                |i: int| type_spec(t.typed_parameters@[i])));
        }
        r
    }
}

/// One field of a record-shape type declaration; labels are escaped.
pub open spec fn record_field_doc(arg: RecordConstructorArg) -> SDoc {
    match arg.label {
        Some(l) => sapp(sapp(sanitize_spec(l@), stext(": "@)), type_spec(arg.typ)),
        Option::None => type_spec(arg.typ),
    }
}

/// A single-constructor, fully labeled type as a plain labeled record.
pub open spec fn record_type_spec(t: CustomType) -> SDoc {
    let ctor = t.constructors@[0];
    let fields = Seq::new(ctor.arguments@.len(), |i: int| record_field_doc(ctor.arguments@[i]));
    let opacity = if t.opaque {
        sapp(sapp(snest(4, SDoc::HardLine), stext("private "@)), snest(8, SDoc::HardLine))
    } else {
        SDoc::Nil
    };
    sapp(sapp(sapp(sapp(sapp(sapp(
        stext("type "@), publicity_spec(t.publicity)), stext(t.name@)), type_params_spec(t)),
        stext(" = "@)), opacity),
        snest(4, sgroup(ssurround(sjoin(fields, stext("; "@)), stext("{ "@), stext(" }"@)))))
}

/// Writes out a record-shape declaration.
#[verifier::loop_isolation(false)]
pub fn record_type(t: &CustomType) -> (r: Doc)
    requires crate::shape::classify_spec(*t) is Record,
    ensures r.sdoc() == record_type_spec(*t),
{
    let constructor = &t.constructors[0];
    let mut fields: Vec<Doc> = Vec::new();
    let mut i: usize = 0;
    while i < constructor.arguments.len()
        invariant
            i <= constructor.arguments@.len(),
            fields@.len() == i as int,
            constructor == &t.constructors@[0],
            forall|j: int| 0 <= j < i
                ==> (#[trigger] fields@[j]).sdoc() == record_field_doc(constructor.arguments@[j]),
        decreases constructor.arguments@.len() - i,
    {
        let arg = &constructor.arguments[i];
        let type_doc = type_to_fsharp(&arg.typ);
        let d = match &arg.label {
            Some(label) => sanitize_name(label.as_str())
                .append(Doc::Str(": "))
                .append(type_doc),
            Option::None => type_doc,
        };
        fields.push(d);
        i = i + 1;
    }
    let opacity = if t.opaque {
        Doc::HardLine.nest(INDENT)
            .append(Doc::Str("private "))
            .append(Doc::HardLine.nest(INDENT * 2))
    } else {
        Doc::Nil
    };
    let fields_doc = join(fields, &Doc::Str("; "))
        .surround(Doc::Str("{ "), Doc::Str(" }"))
        .group()
        .nest(INDENT);
    proof {
        assert(sdocs(fields@) =~= Seq::new(t.constructors@[0].arguments@.len(),
            |j: int| record_field_doc(t.constructors@[0].arguments@[j])));
    }
    Doc::Str("type ")
        .append(map_publicity(&t.publicity))
        .append(Doc::Text(t.name.clone()))
        .append(type_params(t))
        .append(Doc::Str(" = "))
        .append(opacity)
        .append(fields_doc)
}

/// One union constructor, its fields separated by `*`; function-typed
/// fields are parenthesized.
pub open spec fn du_ctor_field_doc(arg: RecordConstructorArg) -> SDoc {
    let t = type_spec(arg.typ);
    let type_doc = if arg.typ.spec_is_fun() { ssurround(t, stext("("@), stext(")"@)) } else { t };
    match arg.label {
        Some(l) => sapp(sapp(stext(l@), stext(": "@)), type_doc),
        Option::None => type_doc,
    }
}

pub open spec fn du_ctor_doc(c: RecordConstructor) -> SDoc {
    let fields = Seq::new(c.arguments@.len(), |i: int| du_ctor_field_doc(c.arguments@[i]));
    if fields.len() == 0 {
        stext(c.name@)
    } else {
        sapp(sapp(stext(c.name@), stext(" of "@)), sjoin(fields, stext(" * "@)))
    }
}

/// One arm of a synthesized accessor: destructures only the recorded
/// position, every other argument a wildcard, and projects the bound value.
pub open spec fn du_case_doc(tyname: Seq<char>, label: Seq<char>, c: crate::shape::AccessorCase, scs: Seq<RecordConstructor>) -> SDoc {
    let ctor = scs[c.ctor as int];
    let discards = Seq::new(ctor.arguments@.len(),
        |q: int| if q == c.position as int { stext(label) } else { stext("_"@) });
    let discards_doc = sgroup(ssurround(sjoin(discards, stext(", "@)), stext("("@), stext(")"@)));
    sapp(sapp(sapp(sapp(sapp(sapp(sapp(
        stext("| "@), stext(tyname)), stext("."@)), stext(ctor.name@)), stext(" "@)),
        discards_doc), stext(" -> "@)), stext(label))
}

/// One synthesized accessor member.
pub open spec fn du_member_doc(tyname: Seq<char>, g: crate::shape::GAccessor, scs: Seq<RecordConstructor>) -> SDoc {
    let cases = Seq::new(g.cases.len(), |k: int| du_case_doc(tyname, g.label, g.cases[k], scs));
    snest(4, sgroup(sapp(sapp(sapp(sapp(sapp(sapp(
        stext("member this."@), stext(g.label)), stext(" = "@)), SDoc::HardLine),
        stext("match this with"@)), SDoc::HardLine), sjoin(cases, SDoc::HardLine))))
}

/// A multi-shape type as a discriminated union: constructors in a stable
/// sort by name, plus one accessor member per label that every constructor
/// carries at the same position with the same type.
pub open spec fn du_spec(t: CustomType) -> SDoc {
    let scs = sort_ctors_spec(t.constructors@);
    let ctor_entries = Seq::new(scs.len(), |i: int| sapp(stext("| "@), du_ctor_doc(scs[i])));
    let groups = crate::shape::accessors_spec(t.constructors@);
    let members = Seq::new(groups.len(), |gi: int| du_member_doc(t.name@, groups[gi], scs));
    let member_declarations_doc = snest(4, sjoin(members, SDoc::HardLine));
    let opacity = if t.opaque {
        sapp(sapp(snest(4, SDoc::HardLine), stext("private "@)), snest(4, SDoc::HardLine))
    } else {
        SDoc::HardLine
    };
    let case_indent: nat = if t.opaque { 4 } else { 0 };
    sapp(sapp(sapp(sapp(sapp(sapp(sapp(sapp(
        stext("type "@), publicity_spec(t.publicity)), stext(t.name@)), type_params_spec(t)),
        stext(" ="@)), opacity),
        snest(case_indent, sgroup(sjoin(ctor_entries, SDoc::HardLine)))),
        snest(4, SDoc::HardLine)), member_declarations_doc)
}

/// Writes out a discriminated union with its accessor members.
#[verifier::loop_isolation(false)]
pub fn discriminated_union(t: &CustomType) -> (r: Doc)
    ensures r.sdoc() == du_spec(*t),
{
    let ghost scs = sort_ctors_spec(t.constructors@);
    let idx = crate::shape::sorted_ctor_indices(&t.constructors);
    proof {
        crate::shape::lemma_sort_ctors_len(t.constructors@);
        assert(scs.len() == idx@.len());
    }

    let mut ctor_entries: Vec<Doc> = Vec::new();
    let mut k: usize = 0;
    while k < idx.len()
        invariant
            k <= idx@.len(),
            ctor_entries@.len() == k as int,
            forall|j: int| 0 <= j < k
                ==> (#[trigger] ctor_entries@[j]).sdoc() == sapp(stext("| "@), du_ctor_doc(scs[j])),
        decreases idx@.len() - k,
    {
        let c = &t.constructors[idx[k]];
        proof {
            assert(scs[k as int] == t.constructors@[idx@[k as int] as int]);
        }
        let mut fields: Vec<Doc> = Vec::new();
        let mut j: usize = 0;
        while j < c.arguments.len()
            invariant
                j <= c.arguments@.len(),
                fields@.len() == j as int,
                k < idx@.len(),
                c == &t.constructors@[idx@[k as int] as int],
                c == &scs[k as int],
                forall|q: int| 0 <= q < j
                    ==> (#[trigger] fields@[q]).sdoc() == du_ctor_field_doc(c.arguments@[q]),
            decreases c.arguments@.len() - j,
        {
            let arg = &c.arguments[j];
            let base = type_to_fsharp(&arg.typ);
            let type_doc = if arg.typ.is_fun() {
                base.surround(Doc::Str("("), Doc::Str(")"))
            } else {
                base
            };
            let d = match &arg.label {
                Some(label) => Doc::Text(label.clone()).append(Doc::Str(": ")).append(type_doc),
                Option::None => type_doc,
            };
            fields.push(d);
            j = j + 1;
        }
        let name_doc = Doc::Text(c.name.clone());
        let entry = if c.arguments.len() == 0 {
            name_doc
        } else {
            let fields_doc = join(fields, &Doc::Str(" * "));
            proof {
                assert(sdocs(fields@) =~= Seq::new(scs[k as int].arguments@.len(),
                    |q: int| du_ctor_field_doc(scs[k as int].arguments@[q])));
            }
            name_doc.append(Doc::Str(" of ")).append(fields_doc)
        };
        proof {
            if c.arguments.len() == 0 {
                assert(Seq::new(scs[k as int].arguments@.len(),
                    |q: int| du_ctor_field_doc(scs[k as int].arguments@[q])).len() == 0);
            }
        }
        ctor_entries.push(Doc::Str("| ").append(entry));
        k = k + 1;
    }

    let groups = crate::shape::synthesize_accessors(t, &idx);
    let mut members: Vec<Doc> = Vec::new();
    let ghost ggroups = crate::shape::accessors_spec(t.constructors@);
    proof {
        crate::shape::lemma_retain_groups_all(
            crate::shape::sort_groups_spec(crate::shape::collect_groups(scs, scs.len() as int)),
            scs, t.constructors@.len());
    }
    let mut gi: usize = 0;
    while gi < groups.len()
        invariant
            gi <= groups@.len(),
            members@.len() == gi as int,
            crate::shape::gviews(groups@) == ggroups,
            ggroups == crate::shape::accessors_spec(t.constructors@),
            scs == sort_ctors_spec(t.constructors@),
            scs.len() == idx@.len(),
            forall|q: int| 0 <= q < idx@.len() ==> (#[trigger] idx@[q]) < t.constructors@.len(),
            crate::shape::map_idx(t.constructors@, idx@) == scs,
            forall|q: int| 0 <= q < ggroups.len()
                ==> crate::shape::retained(#[trigger] ggroups[q], scs, t.constructors@.len()),
            forall|j: int| 0 <= j < gi
                ==> (#[trigger] members@[j]).sdoc() == du_member_doc(t.name@, ggroups[j], scs),
        decreases groups@.len() - gi,
    {
        let g = &groups[gi];
        proof {
            assert(g@ == ggroups[gi as int]);
            assert(crate::shape::retained(ggroups[gi as int], scs, t.constructors@.len()));
        }
        let mut cases: Vec<Doc> = Vec::new();
        let mut ci: usize = 0;
        while ci < g.cases.len()
            invariant
                ci <= g.cases@.len(),
                cases@.len() == ci as int,
                gi < groups@.len(),
                g == &groups@[gi as int],
                g@ == ggroups[gi as int],
                crate::shape::retained(g@, scs, t.constructors@.len()),
                scs.len() == idx@.len(),
                forall|q: int| 0 <= q < idx@.len() ==> (#[trigger] idx@[q]) < t.constructors@.len(),
                crate::shape::map_idx(t.constructors@, idx@) == scs,
                forall|j: int| 0 <= j < ci
                    ==> (#[trigger] cases@[j]).sdoc()
                        == du_case_doc(t.name@, g@.label, g.cases@[j], scs),
            decreases g.cases@.len() - ci,
        {
            let c = g.cases[ci];
            proof {
                assert(crate::shape::case_ok(g.cases@[ci as int], scs));
                assert(scs[c.ctor as int] == t.constructors@[idx@[c.ctor as int] as int]);
            }
            let ctor = &t.constructors[idx[c.ctor]];
            let mut discards: Vec<Doc> = Vec::new();
            let mut q: usize = 0;
            while q < ctor.arguments.len()
                invariant
                    q <= ctor.arguments@.len(),
                    discards@.len() == q as int,
                    ci < g.cases@.len(),
                    c == g.cases@[ci as int],
                    g == &groups@[gi as int],
                    gi < groups@.len(),
                    g@ == ggroups[gi as int],
                    c.ctor < idx@.len(),
                    ctor == &t.constructors@[idx@[c.ctor as int] as int],
                    ctor == &scs[c.ctor as int],
                    forall|x: int| 0 <= x < q
                        ==> (#[trigger] discards@[x]).sdoc()
                            == if x == c.position as int { stext(g@.label) } else { stext("_"@) },
                decreases ctor.arguments@.len() - q,
            {
                if q == c.position {
                    discards.push(Doc::Text(g.label.clone()));
                } else {
                    discards.push(Doc::Str("_"));
                }
                q = q + 1;
            }
            let discards_doc = join(discards, &Doc::Str(", "))
                .surround(Doc::Str("("), Doc::Str(")"))
                .group();
            proof {
                assert(sdocs(discards@) =~= Seq::new(scs[c.ctor as int].arguments@.len(),
                    |x: int| if x == c.position as int { stext(g@.label) } else { stext("_"@) }));
            }
            let case_doc = Doc::Str("| ")
                .append(Doc::Text(t.name.clone()))
                .append(Doc::Str("."))
                .append(Doc::Text(ctor.name.clone()))
                .append(Doc::Str(" "))
                .append(discards_doc)
                .append(Doc::Str(" -> "))
                .append(Doc::Text(g.label.clone()));
            cases.push(case_doc);
            ci = ci + 1;
        }
        let cases_doc = join(cases, &Doc::HardLine);
        proof {
            assert(sdocs(cases@) =~= Seq::new(ggroups[gi as int].cases.len(),
                |k2: int| du_case_doc(t.name@, ggroups[gi as int].label, ggroups[gi as int].cases[k2], scs)));
        }
        let member = Doc::Str("member this.")
            .append(Doc::Text(g.label.clone()))
            .append(Doc::Str(" = "))
            .append(Doc::HardLine)
            .append(Doc::Str("match this with"))
            .append(Doc::HardLine)
            .append(cases_doc)
            .group()
            .nest(INDENT);
        members.push(member);
        gi = gi + 1;
    }

    let member_declarations_doc = join(members, &Doc::HardLine).nest(INDENT);
    proof {
        assert(sdocs(members@) =~= Seq::new(ggroups.len(),
            |j: int| du_member_doc(t.name@, ggroups[j], scs)));
        assert(sdocs(ctor_entries@) =~= Seq::new(scs.len(),
            |j: int| sapp(stext("| "@), du_ctor_doc(scs[j]))));
    }
    let opacity = if t.opaque {
        Doc::HardLine.nest(INDENT)
            .append(Doc::Str("private "))
            .append(Doc::HardLine.nest(INDENT))
    } else {
        Doc::HardLine
    };
    let case_indent: usize = if t.opaque { INDENT } else { 0 };
    Doc::Str("type ")
        .append(map_publicity(&t.publicity))
        .append(Doc::Text(t.name.clone()))
        .append(type_params(t))
        .append(Doc::Str(" ="))
        .append(opacity)
        .append(join(ctor_entries, &Doc::HardLine).group().nest(case_indent))
        .append(Doc::HardLine.nest(INDENT))
        .append(member_declarations_doc)
}

/// A declared tagged type, lowered by its shape.
pub open spec fn custom_type_spec(t: CustomType) -> SDoc {
    if crate::shape::classify_spec(t) is Union {
        du_spec(t)
    } else {
        record_type_spec(t)
    }
}

/// Lowers a declared tagged type by its shape.
pub fn custom_type(t: &CustomType) -> (r: Doc)
    ensures r.sdoc() == custom_type_spec(*t),
{
    match crate::shape::classify(t) {
        crate::shape::TypeShape::Union => discriminated_union(t),
        crate::shape::TypeShape::Record => record_type(t),
    }
}

pub open spec fn type_alias_spec(t: TypeAlias) -> SDoc {
    sapp(sapp(sapp(sapp(stext("type "@), publicity_spec(t.publicity)), stext(t.alias@)),
        stext(" = "@)), type_spec(t.typ))
}

pub fn type_alias(t: &TypeAlias) -> (r: Doc)
    ensures r.sdoc() == type_alias_spec(*t),
{
    Doc::Str("type ")
        .append(map_publicity(&t.publicity))
        .append(Doc::Text(t.alias.clone()))
        .append(Doc::Str(" = "))
        .append(type_to_fsharp(&t.typ))
}

/// A module-level constant; literal scalars carry the `[<Literal>]`
/// attribute.
pub open spec fn module_constant_spec(c: ModuleConstant, values: Seq<ModuleValue>) -> SDoc {
    let tail = sapp(sapp(sapp(sapp(stext("let "@), publicity_spec(c.publicity)), stext(c.name@)),
        stext(" = "@)), const_spec(*c.value, values));
    match *c.value {
        Constant::IntLit { .. } | Constant::FloatLit { .. } | Constant::StringLit { .. } =>
            sapp(sapp(stext("[<Literal>]"@), SDoc::HardLine), tail),
        _ => tail,
    }
}

pub fn module_constant(c: &ModuleConstant, values: &Vec<ModuleValue>) -> (r: Doc)
    requires crate::ast::const_wf(*c.value, values@),
    ensures r.sdoc() == module_constant_spec(*c, values@),
{
    let tail = Doc::Str("let ")
        .append(map_publicity(&c.publicity))
        .append(Doc::Text(c.name.clone()))
        .append(Doc::Str(" = "))
        .append(constant_expression(&c.value, values));
    if matches!(&*c.value, Constant::IntLit { .. } | Constant::FloatLit { .. } | Constant::StringLit { .. }) {
        Doc::Str("[<Literal>]").append(Doc::HardLine).append(tail)
    } else {
        tail
    }
}

/// A documentation comment: one `///` line per source line, any trailing
/// empty line dropped.
pub open spec fn doc_comment_spec(documentation: Option<String>) -> SDoc {
    match documentation {
        Some(doc) => {
            let segs = split_on(doc@, '\n');
            let kept = if segs.len() > 0 && segs.last().len() == 0 { segs.drop_last() } else { segs };
            sapp(sjoin(Seq::new(kept.len(), |i: int| sapp(stext("///"@), stext(kept[i]))),
                SDoc::HardLine), SDoc::HardLine)
        }
        Option::None => SDoc::Nil,
    }
}

#[verifier::loop_isolation(false)]
fn doc_comment(documentation: &Option<String>) -> (r: Doc)
    ensures r.sdoc() == doc_comment_spec(*documentation),
{
    match documentation {
        Some(doc) => {
            let mut lines = split_char(doc.as_str(), '\n');
            let pop_last = match lines.last() {
                Some(l) => l.as_str().unicode_len() == 0,
                Option::None => false,
            };
            if pop_last {
                let _ = lines.pop();
            }
            let ghost segs = split_on(doc@, '\n');
            let ghost kept = if segs.len() > 0 && segs.last().len() == 0 { segs.drop_last() } else { segs };
            let mut docs: Vec<Doc> = Vec::new();
            let mut i: usize = 0;
            while i < lines.len()
                invariant
                    i <= lines@.len(),
                    docs@.len() == i as int,
                    lines@.len() == kept.len(),
                    forall|j: int| 0 <= j < lines@.len() ==> (#[trigger] lines@[j])@ == kept[j],
                    forall|j: int| 0 <= j < i
                        ==> (#[trigger] docs@[j]).sdoc() == sapp(stext("///"@), stext(kept[j])),
                decreases lines@.len() - i,
            {
                docs.push(Doc::Str("///").append(Doc::Text(lines[i].clone())));
                i = i + 1;
            }
            let r = join(docs, &Doc::HardLine).append(Doc::HardLine);
            proof {
                assert(sdocs(docs@) =~= Seq::new(kept.len(),
                    |j: int| sapp(stext("///"@), stext(kept[j]))));
            }
            r
        }
        Option::None => Doc::Nil,
    }
}

pub open spec fn deprecation_spec(d: Deprecation) -> SDoc {
    match d {
        Deprecation::Deprecated { message } => sapp(sapp(sapp(
            stext("[<System.Obsolete("@), string_spec(message@)), stext(")>]"@)), SDoc::HardLine),
        Deprecation::NotDeprecated => SDoc::Nil,
    }
}

fn deprecation_doc(d: &Deprecation) -> (r: Doc)
    ensures r.sdoc() == deprecation_spec(*d),
{
    match d {
        Deprecation::Deprecated { message } => Doc::Str("[<System.Obsolete(")
            .append(string(message.as_str()))
            .append(Doc::Str(")>]"))
            .append(Doc::HardLine),
        Deprecation::NotDeprecated => Doc::Nil,
    }
}

/// The name a function is declared under.
pub open spec fn fname_of(f: FunctionDef) -> Seq<char> {
    match f.name {
        Some(n) => n@,
        Option::None => "_"@,
    }
}

/// The process entry point: a function literally named `main` with zero
/// arguments, one discarded argument, or one named argument is annotated
/// and its parameter signature coerced to the command-line-arguments type.
pub open spec fn entry_point_spec(f: FunctionDef) -> (SDoc, SDoc) {
    let default_args = sfun_args(f.arguments@);
    if fname_of(f) == "main"@ {
        if f.arguments@.len() == 1 && f.arguments@[0].names is Named {
            (sapp(stext("[<EntryPoint>]"@), SDoc::HardLine),
                stext("("@ + f.arguments@[0].names->Named_name@ + ": string[])"@))
        } else if f.arguments@.len() == 0
            || (f.arguments@.len() == 1 && f.arguments@[0].names is Discard) {
            (sapp(stext("[<EntryPoint>]"@), SDoc::HardLine), stext("(_: string[])"@))
        } else {
            (SDoc::Nil, default_args)
        }
    } else {
        (SDoc::Nil, default_args)
    }
}

/// Whether a foreign-module reference is a file path rather than a module.
pub open spec fn is_path_ref(m: Seq<char>) -> bool {
    m.contains('/') || m.contains('\\')
}

/// The body of a function bound to a foreign implementation: a direct call
/// of the foreign symbol, qualified unless the reference is a file path.
pub open spec fn external_body_spec(f: FunctionDef, module_name: Seq<char>, fn_name: Seq<char>) -> SDoc {
    let calling_args = if f.arguments@.len() == 0 {
        stext("()"@)
    } else {
        sjoin(Seq::new(f.arguments@.len(), |i: int| sarg_name(f.arguments@[i])), stext(" "@))
    };
    let qualifier = if is_path_ref(module_name) {
        SDoc::Nil
    } else {
        sapp(stext(module_name), stext("."@))
    };
    sapp(sapp(sapp(qualifier, stext(fn_name)), stext(" "@)), calling_args)
}

/// The file a function declaration asks the orchestrator to include
/// separately: a foreign binding whose module reference is a file path.
pub open spec fn function_ext_file(f: FunctionDef) -> Option<Seq<char>> {
    match f.external_fsharp {
        Some((m, _)) => if is_path_ref(m@) { Some(m@) } else { Option::None },
        Option::None => Option::None,
    }
}

/// A function declaration.
pub open spec fn function_spec(f: FunctionDef, values: Seq<ModuleValue>) -> SDoc {
    let body = match f.external_fsharp {
        Some((module_name, fn_name)) => external_body_spec(f, module_name@, fn_name@),
        Option::None => sapp(sapp(sapp(
            stext("begin"@),
            sgroup(snest(4, sapp(SDoc::HardLine,
                statements_spec(f.body@, Some(f.return_type), values))))),
            SDoc::HardLine), stext("end"@)),
    };
    let (entry_annotation, args) = entry_point_spec(f);
    sapp(sapp(sapp(sapp(sapp(sapp(sapp(sapp(sapp(
        doc_comment_spec(f.documentation), deprecation_spec(f.deprecation)),
        entry_annotation), stext("let "@)), publicity_spec(f.publicity)),
        stext(fname_of(f))), stext(" "@)), args), stext(" = "@)), body)
}

/// Writes out a function declaration; also reports the foreign file to
/// record for separate inclusion, if the body is bound to one.
#[verifier::loop_isolation(false)]
pub fn function(f: &FunctionDef, values: &Vec<ModuleValue>) -> (r: (Doc, Option<String>))
    requires crate::ast::function_wf(*f, values@),
    ensures
        r.0.sdoc() == function_spec(*f, values@),
        r.1 is Some <==> function_ext_file(*f) is Some,
        r.1 is Some ==> r.1->0@ == function_ext_file(*f)->0,
{
    let mut ext_file: Option<String> = Option::None;
    let body = match &f.external_fsharp {
        Some(pair) => {
            let module_name = &pair.0;
            let fn_name = &pair.1;
            let calling_args = if f.arguments.len() == 0 {
                Doc::Str("()")
            } else {
                let mut docs: Vec<Doc> = Vec::new();
                let mut i: usize = 0;
                while i < f.arguments.len()
                    invariant
                        i <= f.arguments@.len(),
                        docs@.len() == i as int,
                        forall|j: int| 0 <= j < i
                            ==> (#[trigger] docs@[j]).sdoc() == sarg_name(f.arguments@[j]),
                    decreases f.arguments@.len() - i,
                {
                    docs.push(arg_name(&f.arguments[i]));
                    i = i + 1;
                }
                let r = join(docs, &Doc::Str(" "));
                proof {
                    assert(sdocs(docs@) =~= Seq::new(f.arguments@.len(),
                        |i: int| sarg_name(f.arguments@[i])));
                }
                r
            };
            let path_ref = contains_char(module_name.as_str(), '/')
                || contains_char(module_name.as_str(), '\\');
            let qualifier = if path_ref {
                ext_file = Some(module_name.clone());
                Doc::Nil
            } else {
                Doc::Text(module_name.clone()).append(Doc::Str("."))
            };
            qualifier.append(Doc::Text(fn_name.clone()))
                .append(Doc::Str(" "))
                .append(calling_args)
        }
        Option::None => Doc::Str("begin")
            .append(Doc::HardLine
                .append(statements(&f.body, Some(&f.return_type), values))
                .nest(INDENT)
                .group())
            .append(Doc::HardLine)
            .append(Doc::Str("end")),
    };
    let name: String = match &f.name {
        Some(n) => n.clone(),
        Option::None => "_".to_owned(),
    };
    let default_args = fun_args(&f.arguments);
    let is_main = str_eq_str(name.as_str(), "main");
    let one_named: Option<&String> = if f.arguments.len() == 1 {
        match &f.arguments[0].names {
            ArgNames::Named { name: n } => Some(n),
            _ => Option::None,
        }
    } else {
        Option::None
    };
    let zero_or_discard = f.arguments.len() == 0
        || (f.arguments.len() == 1 && matches!(&f.arguments[0].names, ArgNames::Discard { .. }));
    let (entry_annotation, args): (Doc, Doc) = if is_main {
        match one_named {
            Some(n) => {
                let mut text: String = "(".to_owned();
                text.append(n.as_str());
                text.append(": string[])");
                (Doc::Str("[<EntryPoint>]").append(Doc::HardLine), Doc::Text(text))
            }
            Option::None => {
                if zero_or_discard {
                    (Doc::Str("[<EntryPoint>]").append(Doc::HardLine), Doc::Str("(_: string[])"))
                } else {
                    (Doc::Nil, default_args)
                }
            }
        }
    } else {
        (Doc::Nil, default_args)
    };
    let doc = doc_comment(&f.documentation)
        .append(deprecation_doc(&f.deprecation))
        .append(entry_annotation)
        .append(Doc::Str("let "))
        .append(map_publicity(&f.publicity))
        .append(Doc::Text(name))
        .append(Doc::Str(" "))
        .append(args)
        .append(Doc::Str(" = "))
        .append(body);
    (doc, ext_file)
}

/// One declaration's document, plus the foreign file it records.
pub open spec fn def_spec(d: Definition, values: Seq<ModuleValue>) -> (SDoc, Option<Seq<char>>) {
    match d {
        Definition::CustomTypeDef(t) => (custom_type_spec(t), Option::None),
        Definition::TypeAliasDef(t) => (type_alias_spec(t), Option::None),
        Definition::ModuleConstantDef(c) => (module_constant_spec(c, values), Option::None),
        Definition::FunctionDefn(f) => (function_spec(f, values), function_ext_file(f)),
        Definition::Import { .. } => (stext("// TODO: Implement imports"@), Option::None),
    }
}

/// Appends a newly seen foreign file, keeping the listing duplicate-free.
pub open spec fn insert_unique(acc: Seq<Seq<char>>, m: Seq<char>) -> Seq<Seq<char>> {
    if acc.contains(m) {
        acc
    } else {
        acc.push(m)
    }
}

/// The declarations' documents in order, and the accumulated foreign files.
pub open spec fn defs_fold(defs: Seq<Definition>, values: Seq<ModuleValue>, acc: Seq<Seq<char>>) -> (Seq<SDoc>, Seq<Seq<char>>)
    decreases defs.len(),
{
    if defs.len() == 0 {
        (Seq::empty(), acc)
    } else {
        let (d, ext) = def_spec(defs[0], values);
        let acc2 = match ext {
            Some(m) => insert_unique(acc, m),
            Option::None => acc,
        };
        let (ds, acc_n) = defs_fold(defs.drop_first(), values, acc2);
        (seq![d] + ds, acc_n)
    }
}

/// The views of a string listing.
pub open spec fn strs_view(v: Seq<String>) -> Seq<Seq<char>> {
    Seq::new(v.len(), |i: int| v[i]@)
}

/// The module text: the recursive module declaration, then the lowered
/// declarations, joined by line breaks and rendered at width 120.
pub open spec fn module_doc(m: Module) -> SDoc {
    sjoin(
        seq![
            sapp(stext("module rec "@), sanitize_spec(m.name@)),
            sjoin(defs_fold(m.definitions@, m.values@, Seq::empty()).0, SDoc::HardLine),
        ],
        SDoc::HardLine,
    )
}

pub open spec fn module_text(m: Module) -> Seq<char> {
    pretty(module_doc(m), 120)
}

/// The declaration documents do not depend on the foreign files already
/// seen; only the accumulated listing does.
pub proof fn lemma_defs_fold_docs(defs: Seq<Definition>, values: Seq<ModuleValue>, acc1: Seq<Seq<char>>, acc2: Seq<Seq<char>>)
    ensures defs_fold(defs, values, acc1).0 == defs_fold(defs, values, acc2).0,
    decreases defs.len(),
{
    if defs.len() > 0 {
        let (d, ext) = def_spec(defs[0], values);
        let n1 = match ext { Some(m) => insert_unique(acc1, m), Option::None => acc1 };
        let n2 = match ext { Some(m) => insert_unique(acc2, m), Option::None => acc2 };
        lemma_defs_fold_docs(defs.drop_first(), values, n1, n2);
    }
}

/// Whether the listing already holds `m`.
#[verifier::loop_isolation(false)]
fn listing_contains(acc: &Vec<String>, m: &String) -> (r: bool)
    ensures r == strs_view(acc@).contains(m@),
{
    let mut i: usize = 0;
    while i < acc.len()
        invariant
            i <= acc@.len(),
            forall|j: int| 0 <= j < i ==> strs_view(acc@)[j] != m@,
        decreases acc@.len() - i,
    {
        if acc[i] == *m {
            proof {
                assert(strs_view(acc@)[i as int] == m@);
            }
            return true;
        }
        i = i + 1;
    }
    proof {
        assert forall|j: int| 0 <= j < strs_view(acc@).len()
            implies strs_view(acc@)[j] != m@ by {}
    }
    false
}

/// Lowers every declaration of a module, threading the foreign files that
/// external bindings record for separate inclusion.
#[verifier::loop_isolation(false)]
fn module_contents(defs: &Vec<Definition>, values: &Vec<ModuleValue>, ext: Vec<String>) -> (r: (Doc, Vec<String>))
    requires forall|i: int| 0 <= i < defs@.len()
        ==> crate::ast::definition_wf(#[trigger] defs@[i], values@),
    ensures ({
        let folded = defs_fold(defs@, values@, strs_view(ext@));
        r.0.sdoc() == sjoin(folded.0, SDoc::HardLine) && strs_view(r.1@) == folded.1
    }),
{
    let ghost acc0 = strs_view(ext@);
    let ghost target = defs_fold(defs@, values@, acc0);
    let mut docs: Vec<Doc> = Vec::new();
    let mut ext = ext;
    let mut i: usize = 0;
    proof {
        assert(defs@.skip(0) =~= defs@);
    }
    while i < defs.len()
        invariant
            i <= defs@.len(),
            docs@.len() == i as int,
            target == defs_fold(defs@, values@, acc0),
            sdocs(docs@) + defs_fold(defs@.skip(i as int), values@, strs_view(ext@)).0 == target.0,
            defs_fold(defs@.skip(i as int), values@, strs_view(ext@)).1 == target.1,
        decreases defs@.len() - i,
    {
        let ghost pre_ext = strs_view(ext@);
        let ghost suffix = defs@.skip(i as int);
        proof {
            assert(suffix[0] == defs@[i as int]);
            assert(suffix.drop_first() =~= defs@.skip(i as int + 1));
        }
        let d: Doc;
        let mut found: Option<String> = Option::None;
        match &defs[i] {
            Definition::CustomTypeDef(t) => {
                d = custom_type(t);
            }
            Definition::TypeAliasDef(t) => {
                d = type_alias(t);
            }
            Definition::ModuleConstantDef(c) => {
                d = module_constant(c, values);
            }
            Definition::FunctionDefn(f) => {
                let (fd, ext_file) = function(f, values);
                d = fd;
                found = ext_file;
            }
            Definition::Import { .. } => {
                d = Doc::Str("// TODO: Implement imports");
            }
        }
        match found {
            Some(m) => {
                if !listing_contains(&ext, &m) {
                    let ghost before = strs_view(ext@);
                    ext.push(m);
                    proof {
                        assert(strs_view(ext@) =~= before.push(m@));
                    }
                } else {
                    proof {
                        assert(strs_view(ext@) =~= insert_unique(pre_ext, m@));
                    }
                }
            }
            Option::None => {}
        }
        let ghost d0 = sdocs(docs@);
        docs.push(d);
        proof {
            assert(sdocs(docs@) =~= d0.push(d.sdoc()));
            assert(d0.push(d.sdoc()) + defs_fold(defs@.skip(i as int + 1), values@, strs_view(ext@)).0
                =~= d0 + (seq![d.sdoc()] + defs_fold(defs@.skip(i as int + 1), values@, strs_view(ext@)).0));
        }
        i = i + 1;
    }
    proof {
        assert(defs@.skip(defs@.len() as int).len() == 0);
        assert(sdocs(docs@) + Seq::<SDoc>::empty() =~= sdocs(docs@));
    }
    let joined = join(docs, &Doc::HardLine);
    proof {
        assert(sdocs(docs@) =~= target.0);
    }
    (joined, ext)
}

/// The F# generator for one module: renders the module's declarations and
/// collects the foreign files its external bindings reference.
pub struct Generator {
    pub external_files: Vec<String>,
    pub module: Module,
}

impl Generator {
    pub fn new(module: Module) -> (g: Generator)
        ensures
            g.module == module,
            g.external_files@.len() == 0,
    {
        Generator { external_files: Vec::new(), module }
    }

    /// Renders the module held by this generator to F# source text.
    pub fn render(&mut self) -> (r: Result<String, Error>)
        requires old(self).module.wf(),
        ensures
            r is Ok,
            r->Ok_0@ == module_text(old(self).module),
            final(self).module == old(self).module,
            strs_view(final(self).external_files@) == defs_fold(
                old(self).module.definitions@,
                old(self).module.values@,
                strs_view(old(self).external_files@),
            ).1,
    {
        let declaration = Doc::Str("module rec ").append(sanitize_name(self.module.name.as_str()));
        let mut previous: Vec<String> = Vec::new();
        let mut i: usize = 0;
        while i < self.external_files.len()
            invariant
                i <= self.external_files@.len(),
                previous@.len() == i as int,
                forall|j: int| 0 <= j < i ==> previous@[j] == self.external_files@[j],
                self == old(self),
            decreases self.external_files@.len() - i,
        {
            previous.push(self.external_files[i].clone());
            i = i + 1;
        }
        proof {
            assert(previous@ =~= self.external_files@);
        }
        let (contents, ext) = module_contents(&self.module.definitions, &self.module.values, previous);
        self.external_files = ext;
        let mut parts: Vec<Doc> = Vec::new();
        parts.push(declaration);
        parts.push(contents);
        let document = join(parts, &Doc::HardLine);
        proof {
            lemma_defs_fold_docs(self.module.definitions@, self.module.values@,
                strs_view(old(self).external_files@), Seq::empty());
            assert(sdocs(parts@) =~= seq![
                sapp(stext("module rec "@), sanitize_spec(self.module.name@)),
                sjoin(defs_fold(self.module.definitions@, self.module.values@, Seq::empty()).0,
                    SDoc::HardLine),
            ]);
        }
        Ok(document.to_pretty_string(120))
    }

    /// Updates the currently referenced module and renders it.
    pub fn render_module(&mut self, new_module: Module) -> (r: Result<String, Error>)
        requires new_module.wf(),
        ensures
            r is Ok,
            r->Ok_0@ == module_text(new_module),
            final(self).module == new_module,
            strs_view(final(self).external_files@) == defs_fold(
                new_module.definitions@,
                new_module.values@,
                strs_view(old(self).external_files@),
            ).1,
    {
        self.module = new_module;
        self.render()
    }
}

/// Every arm of a synthesized accessor destructures only the recorded
/// position: the label is bound exactly there, every other argument is a
/// wildcard, and the arm's consequence is the bound label itself.
pub proof fn lemma_accessor_arm_projects(tyname: Seq<char>, label: Seq<char>, c: crate::shape::AccessorCase, scs: Seq<RecordConstructor>)
    requires crate::shape::case_ok(c, scs),
    ensures ({
        let ctor = scs[c.ctor as int];
        let discards = Seq::new(ctor.arguments@.len(),
            |q: int| if q == c.position as int { stext(label) } else { stext("_"@) });
        &&& discards[c.position as int] == stext(label)
        &&& forall|q: int| 0 <= q < ctor.arguments@.len() && q != c.position as int
            ==> discards[q] == stext("_"@)
        &&& du_case_doc(tyname, label, c, scs) == sapp(sapp(sapp(sapp(sapp(sapp(sapp(
            stext("| "@), stext(tyname)), stext("."@)), stext(ctor.name@)), stext(" "@)),
            sgroup(ssurround(sjoin(discards, stext(", "@)), stext("("@), stext(")"@)))),
            stext(" -> "@)), stext(label))
    }),
{
}

/// Guard parenthesization: a guard that is itself a binary or boolean
/// operator is wrapped in explicit parentheses when used as an operand;
/// a leaf form never is.
pub proof fn lemma_guard_operand_parens(g: ClauseGuard, values: Seq<ModuleValue>)
    ensures
        guard_is_operator(g) ==> clause_guard_spec(g, values)
            == ssurround(bare_guard_spec(g, values), stext("("@), stext(")"@)),
        !guard_is_operator(g) ==> clause_guard_spec(g, values) == bare_guard_spec(g, values),
{
}

/// When more than one guard is combined on one arm, every individual guard
/// is parenthesized, whatever its own precedence.
pub proof fn lemma_combined_guards_parenthesized(guard: Option<ClauseGuard>, additional: Seq<SDoc>, values: Seq<ModuleValue>)
    requires additional.len() + (match guard { Some(_) => 1int, Option::None => 0int }) > 1,
    ensures ({
        let all = additional + (match guard {
            Some(g) => seq![bare_guard_spec(g, values)],
            Option::None => Seq::empty(),
        });
        opt_guard_spec(guard, additional, values) == sapp(stext(" when "@), sjoin(
            Seq::new(all.len(), |i: int| ssurround(all[i], stext("("@), stext(")"@))),
            stext(" && "@)))
    }),
{
}

/// The block trailing-value rule: a statement sequence that ends in a
/// binding appends the bound name as the block's value exactly when the
/// context's declared type is not unit; under a unit type it does not.
pub proof fn lemma_block_trailing_value(ss: Seq<Statement>, ret: Type, values: Seq<ModuleValue>)
    requires stmts_fold(ss, values).1 is Some,
    ensures
        !ret.spec_is_nil() ==> statements_spec(ss, Some(ret), values)
            == sgroup(sjoin(stmts_fold(ss, values).0.push(stmts_fold(ss, values).1->0), SDoc::HardLine)),
        ret.spec_is_nil() ==> statements_spec(ss, Some(ret), values)
            == sgroup(sjoin(stmts_fold(ss, values).0, SDoc::HardLine)),
{
}

/// Reserved-word escaping: every hierarchical-name segment equal to a
/// reserved word is wrapped in the verbatim-identifier syntax, in every
/// position it appears, and no other segment is changed.
pub proof fn lemma_reserved_segments_escaped(name: Seq<char>)
    ensures sanitize_spec(name) == sjoin(
        Seq::new(split_on(name, '/').len(), |i: int| {
            let seg = split_on(name, '/')[i];
            if reserved_spec(seg) {
                ssurround(stext(seg), stext("``"@), stext("``"@))
            } else {
                stext(seg)
            }
        }),
        stext("."@)),
{
    assert(Seq::new(split_on(name, '/').len(), |i: int| segment_spec(split_on(name, '/')[i]))
        =~= Seq::new(split_on(name, '/').len(), |i: int| {
            let seg = split_on(name, '/')[i];
            if reserved_spec(seg) {
                ssurround(stext(seg), stext("``"@), stext("``"@))
            } else {
                stext(seg)
            }
        }));
}

/// The escape-sequence replacement: behind an even number of backslashes
/// the user escaped it and the text is reproduced as written; behind an
/// odd number it converts to the target's native spelling.
pub proof fn lemma_escape_piece_cases(slashes: Seq<char>, unicode: Seq<char>)
    ensures
        slashes.len() % 2 == 0 ==> escape_piece_spec(slashes, unicode)
            == slashes + "u{"@ + unicode + "}"@,
        slashes.len() % 2 == 1 ==> escape_piece_spec(slashes, unicode)
            == slashes + "u"@ + unicode,
{
}

} // verus!
