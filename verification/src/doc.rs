//! The document engine: a target-agnostic pretty-printing combinator layer.
//! Documents are immutable trees of printing primitives, built bottom-up and
//! rendered once by a width-bounded one-pass greedy layout: a group is
//! flattened exactly when its flattened width still fits on the current line.

use vstd::prelude::*;
use vstd::string::StrSliceExecFns;
use vstd::string::StringExecFns;

verus! {

/// A renderable tree of printing primitives.
pub enum Doc {
    /// Literal text.
    Str(&'static str),
    /// Dynamically built text.
    Text(String),
    /// The empty document.
    Nil,
    /// Two documents, one after the other.
    Append(Box<Doc>, Box<Doc>),
    /// A soft line break: `unbroken` when its group is flattened, else
    /// `broken` followed by a newline and the current indentation.
    Break { broken: &'static str, unbroken: &'static str },
    /// An unconditional newline plus the current indentation.
    HardLine,
    /// Adds columns of indentation to the breaks inside the document.
    Nest(usize, Box<Doc>),
    /// Rendered on a single line when it fits in the remaining width.
    Group(Box<Doc>),
    /// Never flattened, and keeps every enclosing group from flattening.
    ForceBroken(Box<Doc>),
}

/// The mathematical shape of a document: what a `Doc` denotes.
pub enum SDoc {
    Text(Seq<char>),
    Nil,
    Append(Box<SDoc>, Box<SDoc>),
    Break { broken: Seq<char>, unbroken: Seq<char> },
    HardLine,
    Nest(nat, Box<SDoc>),
    Group(Box<SDoc>),
    ForceBroken(Box<SDoc>),
}

/// The decimal digits of `n`, most significant first.
pub open spec fn dec_digits(n: nat) -> Seq<char>
    decreases n,
{
    let d = seq![digit_char((n % 10) as nat)];
    if n < 10 {
        d
    } else {
        dec_digits((n / 10) as nat) + d
    }
}

pub open spec fn digit_char(d: nat) -> char {
    if d == 0 { '0' }
    else if d == 1 { '1' }
    else if d == 2 { '2' }
    else if d == 3 { '3' }
    else if d == 4 { '4' }
    else if d == 5 { '5' }
    else if d == 6 { '6' }
    else if d == 7 { '7' }
    else if d == 8 { '8' }
    else { '9' }
}

/// Shorthand for an `SDoc` pair, used by the lowering specifications.
#[verifier::inline]
pub open spec fn sapp(a: SDoc, b: SDoc) -> SDoc {
    SDoc::Append(Box::new(a), Box::new(b))
}

#[verifier::inline]
pub open spec fn stext(s: Seq<char>) -> SDoc {
    SDoc::Text(s)
}

#[verifier::inline]
pub open spec fn sbrk(broken: Seq<char>, unbroken: Seq<char>) -> SDoc {
    SDoc::Break { broken: broken, unbroken: unbroken }
}

#[verifier::inline]
pub open spec fn sgroup(d: SDoc) -> SDoc {
    SDoc::Group(Box::new(d))
}

#[verifier::inline]
pub open spec fn snest(n: nat, d: SDoc) -> SDoc {
    SDoc::Nest(n, Box::new(d))
}

#[verifier::inline]
pub open spec fn sforce(d: SDoc) -> SDoc {
    SDoc::ForceBroken(Box::new(d))
}

/// `open`, then `d`, then `close`.
#[verifier::inline]
pub open spec fn ssurround(d: SDoc, open: SDoc, close: SDoc) -> SDoc {
    sapp(sapp(open, d), close)
}

/// Documents joined with a separator between neighbours.
pub open spec fn sjoin(ds: Seq<SDoc>, sep: SDoc) -> SDoc
    decreases ds.len(),
{
    if ds.len() == 0 {
        SDoc::Nil
    } else if ds.len() == 1 {
        ds[0]
    } else {
        sapp(sapp(ds[0], sep), sjoin(ds.drop_first(), sep))
    }
}

impl Doc {
    /// The shape this document denotes.
    pub open spec fn sdoc(&self) -> SDoc
        decreases self,
    {
        match self {
            Doc::Str(s) => SDoc::Text(s@),
            Doc::Text(s) => SDoc::Text(s@),
            Doc::Nil => SDoc::Nil,
            Doc::Append(a, b) => SDoc::Append(Box::new(a.sdoc()), Box::new(b.sdoc())),
            Doc::Break { broken, unbroken } => SDoc::Break { broken: broken@, unbroken: unbroken@ },
            Doc::HardLine => SDoc::HardLine,
            Doc::Nest(n, d) => SDoc::Nest(*n as nat, Box::new(d.sdoc())),
            Doc::Group(d) => SDoc::Group(Box::new(d.sdoc())),
            Doc::ForceBroken(d) => SDoc::ForceBroken(Box::new(d.sdoc())),
        }
    }

    /// A structurally equal copy.
    pub fn duplicate(&self) -> (r: Doc)
        ensures r == *self,
        decreases self,
    {
        match self {
            Doc::Str(s) => Doc::Str(s),
            Doc::Text(s) => Doc::Text(s.clone()),
            Doc::Nil => Doc::Nil,
            Doc::Append(a, b) => Doc::Append(Box::new(a.duplicate()), Box::new(b.duplicate())),
            Doc::Break { broken, unbroken } => Doc::Break { broken: broken, unbroken: unbroken },
            Doc::HardLine => Doc::HardLine,
            Doc::Nest(n, d) => Doc::Nest(*n, Box::new(d.duplicate())),
            Doc::Group(d) => Doc::Group(Box::new(d.duplicate())),
            Doc::ForceBroken(d) => Doc::ForceBroken(Box::new(d.duplicate())),
        }
    }

    /// This document, then `other`.
    pub fn append(self, other: Doc) -> (r: Doc)
        ensures r.sdoc() == sapp(self.sdoc(), other.sdoc()),
    {
        Doc::Append(Box::new(self), Box::new(other))
    }

    /// Adds `n` columns of indentation to the breaks inside this document.
    pub fn nest(self, n: usize) -> (r: Doc)
        ensures r.sdoc() == snest(n as nat, self.sdoc()),
    {
        Doc::Nest(n, Box::new(self))
    }

    /// Tries to render this document on one line.
    pub fn group(self) -> (r: Doc)
        ensures r.sdoc() == sgroup(self.sdoc()),
    {
        Doc::Group(Box::new(self))
    }

    /// Keeps this document, and every group around it, broken.
    pub fn force_break(self) -> (r: Doc)
        ensures r.sdoc() == sforce(self.sdoc()),
    {
        Doc::ForceBroken(Box::new(self))
    }

    /// `open`, then this document, then `close`.
    pub fn surround(self, open: Doc, close: Doc) -> (r: Doc)
        ensures r.sdoc() == ssurround(self.sdoc(), open.sdoc(), close.sdoc()),
    {
        proof {
            reveal_with_fuel(Doc::sdoc, 3);
        }
        let first = Doc::Append(Box::new(open), Box::new(self));
        Doc::Append(Box::new(first), Box::new(close))
    }
}

/// Joins documents with a separator between neighbours.
pub fn join(ds: Vec<Doc>, sep: &Doc) -> (r: Doc)
    ensures r.sdoc() == sjoin(Seq::new(ds@.len(), |i: int| ds@[i].sdoc()), sep.sdoc()),
{
    let ghost full = Seq::new(ds@.len(), |i: int| ds@[i].sdoc());
    let mut ds = ds;
    match ds.pop() {
        None => {
            proof {
                assert(full.len() == 0);
            }
            Doc::Nil
        }
        Some(last) => {
            let mut r = last;
            proof {
                assert(full.skip(ds@.len() as int) =~= seq![r.sdoc()]);
            }
            while ds.len() > 0
                invariant
                    ds@.len() < full.len(),
                    forall|j: int| 0 <= j < ds@.len() ==> full[j] == ds@[j].sdoc(),
                    r.sdoc() == sjoin(full.skip(ds@.len() as int), sep.sdoc()),
                decreases ds.len(),
            {
                let ghost n = ds@.len() as int;
                let ghost r0 = r;
                let d = ds.pop().unwrap();
                let s = sep.duplicate();
                let inner = Doc::Append(Box::new(d), Box::new(s));
                r = Doc::Append(Box::new(inner), Box::new(r));
                proof {
                    reveal_with_fuel(Doc::sdoc, 3);
                    assert(d.sdoc() == full[n - 1]);
                    assert(r0.sdoc() == sjoin(full.skip(n), sep.sdoc()));
                    assert(r.sdoc() == sapp(sapp(full[n - 1], sep.sdoc()), sjoin(full.skip(n), sep.sdoc())));
                    assert(full.skip(n - 1).len() >= 2);
                    assert(full.skip(n - 1).drop_first() =~= full.skip(n));
                    assert(full.skip(n - 1)[0] == full[n - 1]);
                }
            }
            proof {
                assert(full.skip(0) =~= full);
            }
            r
        }
    }
}

/// Saturating addition, the arithmetic of the layout bookkeeping: column
/// positions beyond `usize::MAX` are clamped, which never changes a layout
/// decision since every usable width is far below the clamp.
pub open spec fn sat_add(a: nat, b: nat) -> nat {
    if a + b <= usize::MAX as nat {
        a + b
    } else {
        usize::MAX as nat
    }
}

pub fn sat_add_usize(a: usize, b: usize) -> (r: usize)
    ensures r as nat == sat_add(a as nat, b as nat),
{
    if a <= usize::MAX - b {
        a + b
    } else {
        usize::MAX
    }
}

/// The remaining budget after rendering `d` flattened into `budget` columns,
/// or `None` when `d` does not fit on one line (or may never be flattened).
pub open spec fn sfits(d: SDoc, budget: int) -> Option<int>
    decreases d,
{
    match d {
        SDoc::Text(s) => if s.len() <= budget { Some(budget - s.len()) } else { None },
        SDoc::Nil => Some(budget),
        SDoc::Append(a, b) => match sfits(*a, budget) {
            Some(left) => sfits(*b, left),
            None => None,
        },
        SDoc::Break { unbroken, .. } => if unbroken.len() <= budget {
            Some(budget - unbroken.len())
        } else {
            None
        },
        SDoc::HardLine => None,
        SDoc::Nest(_, d) => sfits(*d, budget),
        SDoc::Group(d) => sfits(*d, budget),
        SDoc::ForceBroken(_) => None,
    }
}

/// A newline followed by the current indentation.
pub open spec fn newline_indent(ind: nat) -> Seq<char> {
    seq!['\n'] + Seq::new(ind, |i: int| ' ')
}

/// One-pass greedy layout: everything the rendering of a document is.
/// `flat` tells whether an enclosing group was flattened; the result is the
/// produced text and the new column position.
pub open spec fn srender(d: SDoc, flat: bool, ind: nat, col: nat, limit: nat) -> (Seq<char>, nat)
    decreases d,
{
    match d {
        SDoc::Text(s) => (s, sat_add(col, s.len())),
        SDoc::Nil => (Seq::empty(), col),
        SDoc::Append(a, b) => {
            let (s1, c1) = srender(*a, flat, ind, col, limit);
            let (s2, c2) = srender(*b, flat, ind, c1, limit);
            (s1 + s2, c2)
        },
        SDoc::Break { broken, unbroken } => if flat {
            (unbroken, sat_add(col, unbroken.len()))
        } else {
            (broken + newline_indent(ind), ind)
        },
        SDoc::HardLine => (newline_indent(ind), ind),
        SDoc::Nest(n, d) => srender(*d, flat, sat_add(ind, n), col, limit),
        SDoc::Group(d) => if flat {
            srender(*d, true, ind, col, limit)
        } else {
            let fl = col <= limit && sfits(*d, limit - col).is_some();
            srender(*d, fl, ind, col, limit)
        },
        SDoc::ForceBroken(d) => srender(*d, flat, ind, col, limit),
    }
}

/// The text a document renders to at the given line width.
pub open spec fn pretty(d: SDoc, limit: nat) -> Seq<char> {
    srender(d, false, 0, 0, limit).0
}

fn push_digit(out: &mut String, d: u64)
    requires d < 10,
    ensures final(out)@ == old(out)@ + seq![digit_char(d as nat)],
{
    let s: &'static str = if d == 0 { "0" }
        else if d == 1 { "1" }
        else if d == 2 { "2" }
        else if d == 3 { "3" }
        else if d == 4 { "4" }
        else if d == 5 { "5" }
        else if d == 6 { "6" }
        else if d == 7 { "7" }
        else if d == 8 { "8" }
        else { "9" };
    proof {
        reveal_strlit("0");
        reveal_strlit("1");
        reveal_strlit("2");
        reveal_strlit("3");
        reveal_strlit("4");
        reveal_strlit("5");
        reveal_strlit("6");
        reveal_strlit("7");
        reveal_strlit("8");
        reveal_strlit("9");
        assert(s@ =~= seq![digit_char(d as nat)]);
    }
    out.append(s);
}

fn push_dec(out: &mut String, n: u64)
    ensures final(out)@ == old(out)@ + dec_digits(n as nat),
    decreases n,
{
    let ghost start = out@;
    if n >= 10 {
        push_dec(out, n / 10);
    }
    push_digit(out, n % 10);
    proof {
        if n >= 10 {
            assert(start + dec_digits((n / 10) as nat) + seq![digit_char((n % 10) as nat)]
                =~= start + dec_digits(n as nat));
        } else {
            assert(start + seq![digit_char((n % 10) as nat)] =~= start + dec_digits(n as nat));
        }
    }
}

/// `n` written out in decimal.
pub fn u64_to_string(n: u64) -> (r: String)
    ensures r@ == dec_digits(n as nat),
{
    let mut s = String::new();
    push_dec(&mut s, n);
    proof {
        assert(Seq::<char>::empty() + dec_digits(n as nat) =~= dec_digits(n as nat));
    }
    s
}

fn push_spaces(out: &mut String, n: usize)
    ensures final(out)@ == old(out)@ + Seq::new(n as nat, |i: int| ' '),
{
    let ghost start = out@;
    let mut i: usize = 0;
    proof {
        reveal_strlit(" ");
        assert(start + Seq::new(0nat, |j: int| ' ') =~= start);
    }
    while i < n
        invariant
            i <= n,
            out@ == start + Seq::new(i as nat, |j: int| ' '),
        decreases n - i,
    {
        out.append(" ");
        i = i + 1;
        proof {
            reveal_strlit(" ");
            assert(" "@ =~= seq![' ']);
            assert(start + Seq::new((i - 1) as nat, |j: int| ' ') + " "@
                =~= start + Seq::new(i as nat, |j: int| ' '));
        }
    }
}

/// Whether flattening `d` leaves room inside `budget` columns, and how much.
fn fits(d: &Doc, budget: usize) -> (r: Option<usize>)
    ensures
        r is Some <==> sfits(d.sdoc(), budget as int) is Some,
        r is Some ==> sfits(d.sdoc(), budget as int) == Some(r->0 as int),
    decreases *d,
{
    match d {
        Doc::Str(s) => {
            let w = s.unicode_len();
            if w <= budget { Some(budget - w) } else { None }
        }
        Doc::Text(s) => {
            let w = s.as_str().unicode_len();
            if w <= budget { Some(budget - w) } else { None }
        }
        Doc::Nil => Some(budget),
        Doc::Append(a, b) => match fits(a, budget) {
            Some(left) => fits(b, left),
            None => None,
        },
        Doc::Break { broken: _, unbroken } => {
            let w = unbroken.unicode_len();
            if w <= budget { Some(budget - w) } else { None }
        }
        Doc::HardLine => None,
        Doc::Nest(_, inner) => fits(inner, budget),
        Doc::Group(inner) => fits(inner, budget),
        Doc::ForceBroken(_) => None,
    }
}

fn push_break(out: &mut String, ind: usize)
    ensures final(out)@ == old(out)@ + newline_indent(ind as nat),
{
    let ghost start = out@;
    out.append("\n");
    push_spaces(out, ind);
    proof {
        reveal_strlit("\n");
        assert("\n"@ =~= seq!['\n']);
        assert(start + "\n"@ + Seq::new(ind as nat, |i: int| ' ')
            =~= start + newline_indent(ind as nat));
    }
}

fn render_onto(d: &Doc, flat: bool, ind: usize, col: usize, limit: usize, out: &mut String) -> (c: usize)
    ensures
        final(out)@ == old(out)@ + srender(d.sdoc(), flat, ind as nat, col as nat, limit as nat).0,
        c as nat == srender(d.sdoc(), flat, ind as nat, col as nat, limit as nat).1,
    decreases *d,
{
    let ghost start = out@;
    match d {
        Doc::Str(s) => {
            let w = s.unicode_len();
            out.append(s);
            sat_add_usize(col, w)
        }
        Doc::Text(s) => {
            let w = s.as_str().unicode_len();
            out.append(s.as_str());
            sat_add_usize(col, w)
        }
        Doc::Nil => {
            proof {
                assert(start + Seq::<char>::empty() =~= start);
            }
            col
        }
        Doc::Append(a, b) => {
            let c1 = render_onto(a, flat, ind, col, limit, out);
            let c2 = render_onto(b, flat, ind, c1, limit, out);
            proof {
                let s1 = srender(a.sdoc(), flat, ind as nat, col as nat, limit as nat).0;
                let s2 = srender(b.sdoc(), flat, ind as nat, c1 as nat, limit as nat).0;
                assert(start + s1 + s2 =~= start + (s1 + s2));
            }
            c2
        }
        Doc::Break { broken, unbroken } => {
            if flat {
                let w = unbroken.unicode_len();
                out.append(unbroken);
                sat_add_usize(col, w)
            } else {
                out.append(broken);
                push_break(out, ind);
                proof {
                    assert(start + broken@ + newline_indent(ind as nat)
                        =~= start + (broken@ + newline_indent(ind as nat)));
                }
                ind
            }
        }
        Doc::HardLine => {
            push_break(out, ind);
            ind
        }
        Doc::Nest(n, inner) => render_onto(inner, flat, sat_add_usize(ind, *n), col, limit, out),
        Doc::Group(inner) => {
            if flat {
                render_onto(inner, true, ind, col, limit, out)
            } else {
                let fl = col <= limit && fits(inner, limit - col).is_some();
                render_onto(inner, fl, ind, col, limit, out)
            }
        }
        Doc::ForceBroken(inner) => render_onto(inner, flat, ind, col, limit, out),
    }
}

impl Doc {
    /// Renders this document within the given line width.
    pub fn to_pretty_string(&self, limit: usize) -> (r: String)
        ensures r@ == pretty(self.sdoc(), limit as nat),
    {
        let mut out = String::new();
        let _ = render_onto(self, false, 0, 0, limit, &mut out);
        proof {
            assert(Seq::<char>::empty() + pretty(self.sdoc(), limit as nat)
                =~= pretty(self.sdoc(), limit as nat));
        }
        out
    }
}

} // verus!
