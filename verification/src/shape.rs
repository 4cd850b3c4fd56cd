//! The type-shape classifier: decides whether a declared tagged type is a
//! single-shape labeled record or a multi-shape tagged union, and, for
//! unions, which labels may carry a safe cross-variant accessor.

use vstd::prelude::*;
use crate::ast::CustomType;
use crate::ast::RecordConstructor;
use crate::ast::Type;
use vstd::string::StrSliceExecFns;
use vstd::string::StringExecFns;

verus! {

#[derive(Clone, Copy, PartialEq, Eq, Structural, Debug)]
pub enum TypeShape {
    Record,
    Union,
}

/// Record iff: exactly one constructor, named as the type, with at least one
/// argument, every argument labeled. Anything else is a union. A pure
/// function of the declaration's shape alone.
pub open spec fn classify_spec(t: CustomType) -> TypeShape {
    if t.constructors@.len() == 1
        && t.constructors@[0].name@ == t.name@
        && t.constructors@[0].arguments@.len() > 0
        && (forall|i: int| 0 <= i < t.constructors@[0].arguments@.len()
            ==> (#[trigger] t.constructors@[0].arguments@[i]).label is Some)
    {
        TypeShape::Record
    } else {
        TypeShape::Union
    }
}

/// Classifies a declared tagged type by its shape alone.
pub fn classify(t: &CustomType) -> (r: TypeShape)
    ensures r == classify_spec(*t),
{
    if t.constructors.len() != 1 {
        return TypeShape::Union;
    }
    let c = &t.constructors[0];
    if !crate::ast::str_eq_str(c.name.as_str(), t.name.as_str()) {
        return TypeShape::Union;
    }
    if c.arguments.len() == 0 {
        return TypeShape::Union;
    }
    let mut i: usize = 0;
    while i < c.arguments.len()
        invariant
            i <= c.arguments@.len(),
            t.constructors@.len() == 1,
            c == &t.constructors@[0],
            forall|j: int| 0 <= j < i ==> (#[trigger] c.arguments@[j]).label is Some,
        decreases c.arguments@.len() - i,
    {
        if c.arguments[i].label.is_none() {
            return TypeShape::Union;
        }
        i = i + 1;
    }
    TypeShape::Record
}

/// Classification is idempotent: it depends on the declaration's shape
/// alone, so re-invoking it on an identical (if reallocated) declaration
/// yields the same result.
pub proof fn lemma_classify_pure(a: CustomType, b: CustomType)
    requires a == b,
    ensures classify_spec(a) == classify_spec(b),
{
}

/// Structural equality of two resolved types.
pub open spec fn type_deep_eq(a: Type, b: Type) -> bool
    decreases a,
{
    match a {
        Type::Named { name: n1, args: a1 } => match b {
            Type::Named { name: n2, args: a2 } => n1@ == n2@ && a1@.len() == a2@.len()
                && forall|i: int| 0 <= i < a1@.len()
                    ==> type_deep_eq(#[trigger] a1@[i], a2@[i]),
            _ => false,
        },
        Type::Fun { args: a1, ret: r1 } => match b {
            Type::Fun { args: a2, ret: r2 } => a1@.len() == a2@.len()
                && (forall|i: int| 0 <= i < a1@.len()
                    ==> type_deep_eq(#[trigger] a1@[i], a2@[i]))
                && type_deep_eq(*r1, *r2),
            _ => false,
        },
        Type::Tuple { elems: e1 } => match b {
            Type::Tuple { elems: e2 } => e1@.len() == e2@.len()
                && forall|i: int| 0 <= i < e1@.len()
                    ==> type_deep_eq(#[trigger] e1@[i], e2@[i]),
            _ => false,
        },
        Type::Unbound { id: i1 } => match b {
            Type::Unbound { id: i2 } => i1 == i2,
            _ => false,
        },
        Type::Generic { id: i1 } => match b {
            Type::Generic { id: i2 } => i1 == i2,
            _ => false,
        },
    }
}

pub fn type_eq(a: &Type, b: &Type) -> (r: bool)
    ensures r == type_deep_eq(*a, *b),
    decreases *a,
{
    match a {
        Type::Named { name: n1, args: a1 } => match b {
            Type::Named { name: n2, args: a2 } => {
                if !crate::ast::str_eq_str(n1.as_str(), n2.as_str()) {
                    return false;
                }
                types_eq(a1, a2)
            }
            _ => false,
        },
        Type::Fun { args: a1, ret: r1 } => match b {
            Type::Fun { args: a2, ret: r2 } => {
                if !types_eq(a1, a2) {
                    return false;
                }
                type_eq(r1, r2)
            }
            _ => false,
        },
        Type::Tuple { elems: e1 } => match b {
            Type::Tuple { elems: e2 } => types_eq(e1, e2),
            _ => false,
        },
        Type::Unbound { id: i1 } => match b {
            Type::Unbound { id: i2 } => i1 == i2,
            _ => false,
        },
        Type::Generic { id: i1 } => match b {
            Type::Generic { id: i2 } => i1 == i2,
            _ => false,
        },
    }
}

fn types_eq(a: &Vec<Type>, b: &Vec<Type>) -> (r: bool)
    ensures r == (a@.len() == b@.len()
        && forall|i: int| 0 <= i < a@.len() ==> type_deep_eq(#[trigger] a@[i], b@[i])),
    decreases a@,
{
    if a.len() != b.len() {
        return false;
    }
    let mut i: usize = 0;
    while i < a.len()
        invariant
            i <= a@.len(),
            a@.len() == b@.len(),
            forall|j: int| 0 <= j < i ==> type_deep_eq(#[trigger] a@[j], b@[j]),
        decreases a@.len() - i,
    {
        proof {
            assert(decreases_to!(a@ => a@[i as int]));
        }
        if !type_eq(&a[i], &b[i]) {
            return false;
        }
        i = i + 1;
    }
    true
}

/// Strict lexicographic order on character sequences, the order every
/// deterministic listing in this layer sorts by.
pub open spec fn seq_char_lt(a: Seq<char>, b: Seq<char>) -> bool
    decreases a.len(),
{
    if b.len() == 0 {
        false
    } else if a.len() == 0 {
        true
    } else if a[0] != b[0] {
        (a[0] as int) < (b[0] as int)
    } else {
        seq_char_lt(a.drop_first(), b.drop_first())
    }
}

/// Whether `a` sorts strictly before `b`.
pub fn str_lt(a: &str, b: &str) -> (r: bool)
    ensures r == seq_char_lt(a@, b@),
{
    let alen = a.unicode_len();
    let blen = b.unicode_len();
    let mut i: usize = 0;
    proof {
        assert(a@.skip(0) =~= a@);
        assert(b@.skip(0) =~= b@);
    }
    while i < alen && i < blen
        invariant
            i <= a@.len(),
            i <= b@.len(),
            alen == a@.len(),
            blen == b@.len(),
            seq_char_lt(a@, b@) == seq_char_lt(a@.skip(i as int), b@.skip(i as int)),
        decreases a@.len() - i,
    {
        let ca = a.get_char(i);
        let cb = b.get_char(i);
        proof {
            assert(a@.skip(i as int).drop_first() =~= a@.skip(i as int + 1));
            assert(b@.skip(i as int).drop_first() =~= b@.skip(i as int + 1));
            assert(a@.skip(i as int)[0] == a@[i as int]);
            assert(b@.skip(i as int)[0] == b@[i as int]);
        }
        if ca != cb {
            return (ca as u32) < (cb as u32);
        }
        i = i + 1;
    }
    proof {
        assert(a@.skip(i as int).len() == a@.len() - i);
        assert(b@.skip(i as int).len() == b@.len() - i);
    }
    i < blen
}

/// Insertion into a name-sorted constructor listing, before the first
/// element that does not sort strictly below the inserted one.
pub open spec fn insert_ctor_spec(c: RecordConstructor, s: Seq<RecordConstructor>) -> Seq<RecordConstructor>
    decreases s.len(),
{
    if s.len() == 0 {
        seq![c]
    } else if seq_char_lt(s[0].name@, c.name@) {
        seq![s[0]] + insert_ctor_spec(c, s.drop_first())
    } else {
        seq![c] + s
    }
}

/// The constructors in a stable sort by name: the deterministic
/// normalization applied before a union is emitted.
pub open spec fn sort_ctors_spec(s: Seq<RecordConstructor>) -> Seq<RecordConstructor>
    decreases s.len(),
{
    if s.len() == 0 {
        s
    } else {
        insert_ctor_spec(s[0], sort_ctors_spec(s.drop_first()))
    }
}


pub proof fn lemma_insert_ctor_len(c: RecordConstructor, s: Seq<RecordConstructor>)
    ensures insert_ctor_spec(c, s).len() == s.len() + 1,
    decreases s.len(),
{
    if s.len() > 0 && seq_char_lt(s[0].name@, c.name@) {
        lemma_insert_ctor_len(c, s.drop_first());
    }
}

/// Sorting keeps the number of constructors.
pub proof fn lemma_sort_ctors_len(s: Seq<RecordConstructor>)
    ensures sort_ctors_spec(s).len() == s.len(),
    decreases s.len(),
{
    if s.len() > 0 {
        lemma_sort_ctors_len(s.drop_first());
        lemma_insert_ctor_len(s[0], sort_ctors_spec(s.drop_first()));
    }
}

/// The constructors a sorted index permutation selects.
pub open spec fn map_idx(cs: Seq<RecordConstructor>, idxs: Seq<usize>) -> Seq<RecordConstructor> {
    Seq::new(idxs.len(), |k: int| cs[idxs[k] as int])
}

fn insert_idx(cs: &Vec<RecordConstructor>, i: usize, v: Vec<usize>) -> (r: Vec<usize>)
    requires
        i < cs@.len(),
        forall|k: int| 0 <= k < v@.len() ==> (#[trigger] v@[k]) < cs@.len(),
    ensures
        forall|k: int| 0 <= k < r@.len() ==> (#[trigger] r@[k]) < cs@.len(),
        map_idx(cs@, r@) == insert_ctor_spec(cs@[i as int], map_idx(cs@, v@)),
    decreases v@.len(),
{
    let ghost v0 = v@;
    if v.len() == 0 {
        let mut out: Vec<usize> = Vec::new();
        out.push(i);
        proof {
            assert(map_idx(cs@, out@) =~= seq![cs@[i as int]]);
        }
        out
    } else if str_lt(cs[v[0]].name.as_str(), cs[i].name.as_str()) {
        let mut v2 = v;
        let head = v2.remove(0);
        proof {
            assert(v2@ =~= v0.drop_first());
            assert(map_idx(cs@, v2@) =~= map_idx(cs@, v0).drop_first());
            assert(map_idx(cs@, v0)[0] == cs@[v0[0] as int]);
        }
        let mut rest = insert_idx(cs, i, v2);
        let ghost r0 = rest@;
        rest.insert(0, head);
        proof {
            assert(rest@ =~= seq![head] + r0);
            assert(map_idx(cs@, rest@) =~= seq![cs@[v0[0] as int]] + map_idx(cs@, r0));
            assert(map_idx(cs@, v0).drop_first() =~= map_idx(cs@, v0.drop_first()));
        }
        rest
    } else {
        let mut v2 = v;
        v2.insert(0, i);
        proof {
            assert(v2@ =~= seq![i] + v0);
            assert(map_idx(cs@, v2@) =~= seq![cs@[i as int]] + map_idx(cs@, v0));
            assert(map_idx(cs@, v0)[0] == cs@[v0[0] as int]);
        }
        v2
    }
}

fn sorted_idx_from(cs: &Vec<RecordConstructor>, start: usize) -> (r: Vec<usize>)
    requires start <= cs@.len(),
    ensures
        forall|k: int| 0 <= k < r@.len() ==> (#[trigger] r@[k]) < cs@.len(),
        map_idx(cs@, r@) == sort_ctors_spec(cs@.skip(start as int)),
    decreases cs@.len() - start,
{
    if start >= cs.len() {
        let out: Vec<usize> = Vec::new();
        proof {
            assert(map_idx(cs@, out@) =~= sort_ctors_spec(cs@.skip(start as int)));
        }
        out
    } else {
        let rest = sorted_idx_from(cs, start + 1);
        let r = insert_idx(cs, start, rest);
        proof {
            assert(cs@.skip(start as int).drop_first() =~= cs@.skip(start as int + 1));
            assert(cs@.skip(start as int)[0] == cs@[start as int]);
        }
        r
    }
}

/// The index permutation that lists the constructors name-sorted.
pub fn sorted_ctor_indices(cs: &Vec<RecordConstructor>) -> (r: Vec<usize>)
    ensures
        forall|k: int| 0 <= k < r@.len() ==> (#[trigger] r@[k]) < cs@.len(),
        map_idx(cs@, r@) == sort_ctors_spec(cs@),
{
    let r = sorted_idx_from(cs, 0);
    proof {
        assert(cs@.skip(0) =~= cs@);
    }
    r
}

/// One case of a synthesized cross-variant accessor: the constructor (an
/// index into the name-sorted constructor list) and the argument position
/// the accessor projects.
#[derive(Clone, Copy)]
pub struct AccessorCase {
    pub ctor: usize,
    pub position: usize,
}

/// A synthesized cross-variant accessor for one label.
pub struct Accessor {
    pub label: String,
    pub cases: Vec<AccessorCase>,
}

/// The mathematical shape of an accessor.
pub struct GAccessor {
    pub label: Seq<char>,
    pub cases: Seq<AccessorCase>,
}

impl View for Accessor {
    type V = GAccessor;

    open spec fn view(&self) -> GAccessor {
        GAccessor { label: self.label@, cases: self.cases@ }
    }
}

pub open spec fn gviews(s: Seq<Accessor>) -> Seq<GAccessor> {
    Seq::new(s.len(), |i: int| s[i]@)
}

/// Appends a case to its label's group, keeping first-appearance order of
/// labels and appending cases in collection order.
pub open spec fn add_case(groups: Seq<GAccessor>, label: Seq<char>, case: AccessorCase) -> Seq<GAccessor>
    decreases groups.len(),
{
    if groups.len() == 0 {
        seq![GAccessor { label: label, cases: seq![case] }]
    } else if groups[0].label == label {
        seq![GAccessor { label: groups[0].label, cases: groups[0].cases.push(case) }]
            + groups.drop_first()
    } else {
        seq![groups[0]] + add_case(groups.drop_first(), label, case)
    }
}

/// Collects the labeled arguments of constructor `k` (the first `upto` of
/// them) into the label groups.
pub open spec fn add_ctor_labels(groups: Seq<GAccessor>, c: RecordConstructor, k: usize, upto: int) -> Seq<GAccessor>
    decreases upto,
{
    if upto <= 0 {
        groups
    } else {
        let g2 = add_ctor_labels(groups, c, k, upto - 1);
        match c.arguments@[upto - 1].label {
            Some(l) => add_case(g2, l@, AccessorCase { ctor: k, position: (upto - 1) as usize }),
            Option::None => g2,
        }
    }
}

/// The label groups of the first `upto` constructors of the sorted list.
pub open spec fn collect_groups(scs: Seq<RecordConstructor>, upto: int) -> Seq<GAccessor>
    decreases upto,
{
    if upto <= 0 {
        Seq::empty()
    } else {
        add_ctor_labels(
            collect_groups(scs, upto - 1),
            scs[upto - 1],
            (upto - 1) as usize,
            scs[upto - 1].arguments@.len() as int,
        )
    }
}

pub open spec fn insert_group_spec(g: GAccessor, gs: Seq<GAccessor>) -> Seq<GAccessor>
    decreases gs.len(),
{
    if gs.len() == 0 {
        seq![g]
    } else if seq_char_lt(gs[0].label, g.label) {
        seq![gs[0]] + insert_group_spec(g, gs.drop_first())
    } else {
        seq![g] + gs
    }
}

/// The groups sorted by label, so output is reproducible however the
/// labels were first encountered.
pub open spec fn sort_groups_spec(gs: Seq<GAccessor>) -> Seq<GAccessor>
    decreases gs.len(),
{
    if gs.len() == 0 {
        gs
    } else {
        insert_group_spec(gs[0], sort_groups_spec(gs.drop_first()))
    }
}

/// Whether this case names a real argument position.
pub open spec fn case_ok(c: AccessorCase, scs: Seq<RecordConstructor>) -> bool {
    c.ctor < scs.len() && (c.position as nat) < scs[c.ctor as int].arguments@.len()
}

pub open spec fn case_type(c: AccessorCase, scs: Seq<RecordConstructor>) -> Type {
    scs[c.ctor as int].arguments@[c.position as int].typ
}

/// A label earns an accessor only when it appears in every constructor of
/// the type, always at the same position and with the same type.
pub open spec fn retained(g: GAccessor, scs: Seq<RecordConstructor>, total: nat) -> bool {
    &&& g.cases.len() == total
    &&& g.cases.len() > 0
    &&& forall|i: int| 0 <= i < g.cases.len() ==> case_ok(#[trigger] g.cases[i], scs)
    &&& forall|i: int| 0 <= i < g.cases.len()
        ==> (#[trigger] g.cases[i]).position == g.cases[0].position
    &&& forall|i: int| 0 <= i < g.cases.len()
        ==> type_deep_eq(case_type(#[trigger] g.cases[i], scs), case_type(g.cases[0], scs))
}

pub open spec fn retain_groups(gs: Seq<GAccessor>, scs: Seq<RecordConstructor>, total: nat) -> Seq<GAccessor>
    decreases gs.len(),
{
    if gs.len() == 0 {
        gs
    } else if retained(gs[0], scs, total) {
        seq![gs[0]] + retain_groups(gs.drop_first(), scs, total)
    } else {
        retain_groups(gs.drop_first(), scs, total)
    }
}

/// The synthesized cross-variant accessors of a union type, sorted by
/// label, each case keyed to the name-sorted constructor list.
pub open spec fn accessors_spec(cs: Seq<RecordConstructor>) -> Seq<GAccessor> {
    let scs = sort_ctors_spec(cs);
    retain_groups(sort_groups_spec(collect_groups(scs, scs.len() as int)), scs, cs.len())
}

fn add_case_exec(groups: Vec<Accessor>, label: String, case: AccessorCase) -> (r: Vec<Accessor>)
    ensures gviews(r@) == add_case(gviews(groups@), label@, case),
    decreases groups@.len(),
{
    let ghost g0 = gviews(groups@);
    if groups.len() == 0 {
        let mut cases: Vec<AccessorCase> = Vec::new();
        cases.push(case);
        let mut out: Vec<Accessor> = Vec::new();
        out.push(Accessor { label, cases });
        proof {
            assert(gviews(out@) =~= add_case(g0, label@, case));
        }
        out
    } else if groups[0].label == label {
        let mut gs = groups;
        let mut head = gs.remove(0);
        head.cases.push(case);
        gs.insert(0, head);
        proof {
            assert(gviews(gs@) =~= add_case(g0, label@, case));
        }
        gs
    } else {
        let mut gs = groups;
        let head = gs.remove(0);
        proof {
            assert(gviews(gs@) =~= g0.drop_first());
        }
        let mut rest = add_case_exec(gs, label, case);
        let ghost r0 = gviews(rest@);
        rest.insert(0, head);
        proof {
            assert(gviews(rest@) =~= seq![g0[0]] + r0);
        }
        rest
    }
}

fn insert_group_exec(g: Accessor, gs: Vec<Accessor>) -> (r: Vec<Accessor>)
    ensures gviews(r@) == insert_group_spec(g@, gviews(gs@)),
    decreases gs@.len(),
{
    let ghost g0 = gviews(gs@);
    if gs.len() == 0 {
        let mut out: Vec<Accessor> = Vec::new();
        out.push(g);
        proof {
            assert(gviews(out@) =~= insert_group_spec(g@, g0));
        }
        out
    } else if str_lt(gs[0].label.as_str(), g.label.as_str()) {
        let mut v2 = gs;
        let head = v2.remove(0);
        proof {
            assert(gviews(v2@) =~= g0.drop_first());
        }
        let mut rest = insert_group_exec(g, v2);
        let ghost r0 = gviews(rest@);
        rest.insert(0, head);
        proof {
            assert(gviews(rest@) =~= seq![g0[0]] + r0);
        }
        rest
    } else {
        let mut v2 = gs;
        v2.insert(0, g);
        proof {
            assert(gviews(v2@) =~= seq![g@] + g0);
        }
        v2
    }
}

fn sort_groups_exec(gs: Vec<Accessor>) -> (r: Vec<Accessor>)
    ensures gviews(r@) == sort_groups_spec(gviews(gs@)),
    decreases gs@.len(),
{
    let ghost g0 = gviews(gs@);
    if gs.len() == 0 {
        gs
    } else {
        let mut v2 = gs;
        let head = v2.remove(0);
        proof {
            assert(gviews(v2@) =~= g0.drop_first());
        }
        let sorted = sort_groups_exec(v2);
        insert_group_exec(head, sorted)
    }
}

#[verifier::loop_isolation(false)]
fn group_retained(g: &Accessor, t: &CustomType, idx: &Vec<usize>) -> (r: bool)
    requires
        forall|k: int| 0 <= k < idx@.len() ==> (#[trigger] idx@[k]) < t.constructors@.len(),
        map_idx(t.constructors@, idx@) == sort_ctors_spec(t.constructors@),
        idx@.len() == t.constructors@.len(),
    ensures r == retained(g@, sort_ctors_spec(t.constructors@), t.constructors@.len()),
{
    let ghost scs = sort_ctors_spec(t.constructors@);
    if g.cases.len() != t.constructors.len() || g.cases.len() == 0 {
        return false;
    }
    let first = g.cases[0];
    if first.ctor >= idx.len() {
        return false;
    }
    let first_ctor = &t.constructors[idx[first.ctor]];
    if first.position >= first_ctor.arguments.len() {
        return false;
    }
    let mut i: usize = 0;
    while i < g.cases.len()
        invariant
            i <= g.cases@.len(),
            g.cases@.len() == t.constructors@.len() > 0,
            forall|k: int| 0 <= k < idx@.len() ==> (#[trigger] idx@[k]) < t.constructors@.len(),
            map_idx(t.constructors@, idx@) == scs,
            scs == sort_ctors_spec(t.constructors@),
            idx@.len() == t.constructors@.len(),
            case_ok(g.cases@[0], scs),
            forall|j: int| 0 <= j < i ==> case_ok(#[trigger] g.cases@[j], scs),
            forall|j: int| 0 <= j < i
                ==> (#[trigger] g.cases@[j]).position == g.cases@[0].position,
            forall|j: int| 0 <= j < i
                ==> type_deep_eq(case_type(#[trigger] g.cases@[j], scs), case_type(g.cases@[0], scs)),
        decreases g.cases@.len() - i,
    {
        let c = g.cases[i];
        if c.ctor >= idx.len() {
            proof {
                assert(!case_ok(g.cases@[i as int], scs));
            }
            return false;
        }
        let ctor = &t.constructors[idx[c.ctor]];
        proof {
            assert(scs[c.ctor as int] == t.constructors@[idx@[c.ctor as int] as int]);
        }
        if c.position >= ctor.arguments.len() {
            proof {
                assert(!case_ok(g.cases@[i as int], scs));
            }
            return false;
        }
        if c.position != first.position {
            return false;
        }
        proof {
            assert(scs[first.ctor as int] == t.constructors@[idx@[first.ctor as int] as int]);
        }
        if !type_eq(&ctor.arguments[c.position].typ, &first_ctor.arguments[first.position].typ) {
            return false;
        }
        i = i + 1;
    }
    true
}

/// Synthesizes the cross-variant accessors of a union type: one per label
/// that every constructor carries at the same position with the same type.
#[verifier::loop_isolation(false)]
pub fn synthesize_accessors(t: &CustomType, idx: &Vec<usize>) -> (r: Vec<Accessor>)
    requires
        forall|k: int| 0 <= k < idx@.len() ==> (#[trigger] idx@[k]) < t.constructors@.len(),
        map_idx(t.constructors@, idx@) == sort_ctors_spec(t.constructors@),
        idx@.len() == t.constructors@.len(),
    ensures gviews(r@) == accessors_spec(t.constructors@),
{
    let ghost scs = sort_ctors_spec(t.constructors@);
    let mut groups: Vec<Accessor> = Vec::new();
    proof {
        assert(gviews(groups@) =~= collect_groups(scs, 0));
    }
    let mut k: usize = 0;
    while k < idx.len()
        invariant
            k <= idx@.len(),
            forall|q: int| 0 <= q < idx@.len() ==> (#[trigger] idx@[q]) < t.constructors@.len(),
            map_idx(t.constructors@, idx@) == scs,
            scs == sort_ctors_spec(t.constructors@),
            idx@.len() == t.constructors@.len(),
            scs.len() == idx@.len(),
            gviews(groups@) == collect_groups(scs, k as int),
        decreases idx@.len() - k,
    {
        let c = &t.constructors[idx[k]];
        proof {
            assert(scs[k as int] == t.constructors@[idx@[k as int] as int]);
        }
        let mut j: usize = 0;
        while j < c.arguments.len()
            invariant
                j <= c.arguments@.len(),
                k < idx@.len(),
                forall|q: int| 0 <= q < idx@.len() ==> (#[trigger] idx@[q]) < t.constructors@.len(),
                idx@.len() == t.constructors@.len(),
                c == &t.constructors@[idx@[k as int] as int],
                c == &scs[k as int],
                gviews(groups@) == add_ctor_labels(collect_groups(scs, k as int), scs[k as int], k, j as int),
            decreases c.arguments@.len() - j,
        {
            match &c.arguments[j].label {
                Some(l) => {
                    groups = add_case_exec(groups, l.clone(), AccessorCase { ctor: k, position: j });
                }
                Option::None => {}
            }
            j = j + 1;
        }
        k = k + 1;
    }
    let sorted = sort_groups_exec(groups);
    let mut out: Vec<Accessor> = Vec::new();
    let ghost all = gviews(sorted@);
    proof {
        assert(all.skip(0) =~= all);
    }
    let mut i: usize = 0;
    let mut kept: Vec<Accessor> = Vec::new();
    let ghost target = retain_groups(all, scs, t.constructors@.len());
    let mut sorted = sorted;
    while sorted.len() > 0
        invariant
            forall|q: int| 0 <= q < idx@.len() ==> (#[trigger] idx@[q]) < t.constructors@.len(),
            map_idx(t.constructors@, idx@) == scs,
            scs == sort_ctors_spec(t.constructors@),
            idx@.len() == t.constructors@.len(),
            target == retain_groups(all, scs, t.constructors@.len()),
            gviews(kept@) + retain_groups(gviews(sorted@), scs, t.constructors@.len()) == target,
        decreases sorted@.len(),
    {
        let ghost s0 = gviews(sorted@);
        let g = sorted.remove(0);
        proof {
            assert(gviews(sorted@) =~= s0.drop_first());
        }
        if group_retained(&g, t, idx) {
            let ghost k0 = gviews(kept@);
            kept.push(g);
            proof {
                assert(gviews(kept@) =~= k0.push(g@));
                assert(k0.push(g@) + retain_groups(s0.drop_first(), scs, t.constructors@.len())
                    =~= k0 + (seq![g@] + retain_groups(s0.drop_first(), scs, t.constructors@.len())));
            }
        }
    }
    proof {
        assert(gviews(sorted@).len() == 0);
        assert(retain_groups(gviews(sorted@), scs, t.constructors@.len()) =~= Seq::<GAccessor>::empty());
        assert(gviews(kept@) + Seq::<GAccessor>::empty() =~= gviews(kept@));
    }
    kept
}

/// Every group the retention filter keeps satisfies the retention test.
pub proof fn lemma_retain_groups_all(gs: Seq<GAccessor>, scs: Seq<RecordConstructor>, total: nat)
    ensures forall|i: int| 0 <= i < retain_groups(gs, scs, total).len()
        ==> retained(#[trigger] retain_groups(gs, scs, total)[i], scs, total),
    decreases gs.len(),
{
    if gs.len() > 0 {
        lemma_retain_groups_all(gs.drop_first(), scs, total);
        let r = retain_groups(gs, scs, total);
        let rr = retain_groups(gs.drop_first(), scs, total);
        if retained(gs[0], scs, total) {
            assert forall|i: int| 0 <= i < r.len()
                implies retained(#[trigger] r[i], scs, total) by {
                if i > 0 {
                    assert(r[i] == rr[i - 1]);
                }
            }
        }
    }
}


/// Accessor soundness: every synthesized accessor covers every constructor
/// of the type — as many cases as constructors, each naming a real argument
/// position — and all cases agree on one position and one type. A label
/// that fails that test earns no accessor: only retained groups survive.
pub proof fn lemma_accessor_soundness(cs: Seq<RecordConstructor>)
    ensures forall|i: int| 0 <= i < accessors_spec(cs).len()
        ==> retained(#[trigger] accessors_spec(cs)[i], sort_ctors_spec(cs), cs.len()),
{
    lemma_retain_groups_all(
        sort_groups_spec(collect_groups(sort_ctors_spec(cs), sort_ctors_spec(cs).len() as int)),
        sort_ctors_spec(cs), cs.len());
}


/// The constructor listing is in name order.
pub open spec fn ctors_sorted(s: Seq<RecordConstructor>) -> bool {
    forall|i: int, j: int| 0 <= i < j < s.len()
        ==> !seq_char_lt((#[trigger] s[j]).name@, (#[trigger] s[i]).name@)
}

/// Lexicographic order is asymmetric.
pub proof fn lemma_seq_char_lt_asym(a: Seq<char>, b: Seq<char>)
    requires seq_char_lt(a, b),
    ensures !seq_char_lt(b, a),
    decreases a.len(),
{
    if b.len() > 0 && a.len() > 0 && a[0] == b[0] {
        lemma_seq_char_lt_asym(a.drop_first(), b.drop_first());
    }
}

/// `is not above` is transitive.
pub proof fn lemma_seq_char_le_trans(a: Seq<char>, b: Seq<char>, c: Seq<char>)
    requires
        !seq_char_lt(b, a),
        !seq_char_lt(c, b),
    ensures !seq_char_lt(c, a),
    decreases a.len(),
{
    if a.len() > 0 && b.len() > 0 && c.len() > 0 && a[0] == b[0] && b[0] == c[0] {
        lemma_seq_char_le_trans(a.drop_first(), b.drop_first(), c.drop_first());
    }
}

proof fn lemma_insert_ctor_lower_bound(c: RecordConstructor, s: Seq<RecordConstructor>, b: Seq<char>)
    requires
        !seq_char_lt(c.name@, b),
        forall|i: int| 0 <= i < s.len() ==> !seq_char_lt((#[trigger] s[i]).name@, b),
    ensures forall|i: int| 0 <= i < insert_ctor_spec(c, s).len()
        ==> !seq_char_lt((#[trigger] insert_ctor_spec(c, s)[i]).name@, b),
    decreases s.len(),
{
    if s.len() > 0 && seq_char_lt(s[0].name@, c.name@) {
        assert forall|i: int| 0 <= i < s.drop_first().len()
            implies !seq_char_lt((#[trigger] s.drop_first()[i]).name@, b) by {
            assert(s.drop_first()[i] == s[i + 1]);
        }
        lemma_insert_ctor_lower_bound(c, s.drop_first(), b);
        let r = insert_ctor_spec(c, s);
        let rr = insert_ctor_spec(c, s.drop_first());
        assert forall|i: int| 0 <= i < r.len()
            implies !seq_char_lt((#[trigger] r[i]).name@, b) by {
            if i > 0 {
                assert(r[i] == rr[i - 1]);
            }
        }
    }
}

proof fn lemma_insert_ctor_sorted(c: RecordConstructor, s: Seq<RecordConstructor>)
    requires ctors_sorted(s),
    ensures ctors_sorted(insert_ctor_spec(c, s)),
    decreases s.len(),
{
    if s.len() == 0 {
    } else if seq_char_lt(s[0].name@, c.name@) {
        let rest = s.drop_first();
        assert forall|i: int, j: int| 0 <= i < j < rest.len()
            implies !seq_char_lt((#[trigger] rest[j]).name@, (#[trigger] rest[i]).name@) by {
            assert(rest[i] == s[i + 1]);
            assert(rest[j] == s[j + 1]);
        }
        lemma_insert_ctor_sorted(c, rest);
        lemma_seq_char_lt_asym(s[0].name@, c.name@);
        assert forall|i: int| 0 <= i < rest.len()
            implies !seq_char_lt((#[trigger] rest[i]).name@, s[0].name@) by {
            assert(rest[i] == s[i + 1]);
        }
        lemma_insert_ctor_lower_bound(c, rest, s[0].name@);
        let r = insert_ctor_spec(c, s);
        let rr = insert_ctor_spec(c, rest);
        assert forall|i: int, j: int| 0 <= i < j < r.len()
            implies !seq_char_lt((#[trigger] r[j]).name@, (#[trigger] r[i]).name@) by {
            if i > 0 {
                assert(r[i] == rr[i - 1]);
                assert(r[j] == rr[j - 1]);
            } else {
                assert(r[j] == rr[j - 1]);
            }
        }
    } else {
        let r = insert_ctor_spec(c, s);
        assert forall|i: int, j: int| 0 <= i < j < r.len()
            implies !seq_char_lt((#[trigger] r[j]).name@, (#[trigger] r[i]).name@) by {
            if i == 0 {
                assert(r[j] == s[j - 1]);
                if j > 1 {
                    lemma_seq_char_le_trans(c.name@, s[0].name@, s[j - 1].name@);
                }
            } else {
                assert(r[i] == s[i - 1]);
                assert(r[j] == s[j - 1]);
            }
        }
    }
}

/// The normalization a union's emission rests on: the sorted constructor
/// listing really is in name order, whatever order the typed tree kept.
pub proof fn lemma_sort_ctors_sorted(s: Seq<RecordConstructor>)
    ensures ctors_sorted(sort_ctors_spec(s)),
    decreases s.len(),
{
    if s.len() > 0 {
        lemma_sort_ctors_sorted(s.drop_first());
        lemma_insert_ctor_sorted(s[0], sort_ctors_spec(s.drop_first()));
    }
}

} // verus!