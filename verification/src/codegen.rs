//! The backend orchestrators: given the modules of a compiled unit and the
//! package metadata, each `render` computes the exact set of output files
//! for its target. Writing the files is the caller's job; computing their
//! paths and contents, with every listing deterministically sorted and the
//! shared prelude stub debounced, is what is specified here.

use vstd::prelude::*;
use vstd::string::StrSliceExecFns;
use vstd::string::StringExecFns;
use crate::shape::seq_char_lt;
use crate::fsharp::split_on;
use crate::fsharp::split_char;

verus! {

/// One file a backend asks the file-system collaborator to write.
pub struct OutputFile {
    pub path: String,
    pub text: String,
}

/// The mathematical shape of an output file.
pub struct GFile {
    pub path: Seq<char>,
    pub text: Seq<char>,
}

impl View for OutputFile {
    type V = GFile;

    open spec fn view(&self) -> GFile {
        GFile { path: self.path@, text: self.text@ }
    }
}

pub open spec fn files_view(fs: Seq<OutputFile>) -> Seq<GFile> {
    Seq::new(fs.len(), |i: int| fs[i]@)
}

/// Relies on camino's `Utf8Path::join`: adjoining a relative path appends
/// it behind one separator, `/` on this platform.
#[verifier::external_body]
fn join_path(dir: &str, name: &str) -> (r: String)
    ensures
        dir@.len() > 0 && dir@.last() != '/' && name@.len() > 0 && name@[0] != '/'
            ==> r@ == dir@ + seq!['/'] + name@,
{
    camino::Utf8Path::new(dir).join(name).into_string()
}

/// `parts` joined with `sep` between neighbours.
pub open spec fn join_seqs(parts: Seq<Seq<char>>, sep: Seq<char>) -> Seq<char>
    decreases parts.len(),
{
    if parts.len() == 0 {
        Seq::empty()
    } else if parts.len() == 1 {
        parts[0]
    } else {
        parts[0] + sep + join_seqs(parts.drop_first(), sep)
    }
}

/// Joins strings with a separator.
#[verifier::loop_isolation(false)]
pub fn join_strings(parts: &Vec<String>, sep: &str) -> (r: String)
    ensures r@ == join_seqs(strings_view(parts@), sep@),
{
    let mut out = String::new();
    let ghost views = strings_view(parts@);
    let mut i: usize = 0;
    proof {
        assert(Seq::<char>::empty() + Seq::<char>::empty() =~= Seq::<char>::empty());
    }
    while i < parts.len()
        invariant
            i <= parts@.len(),
            views == strings_view(parts@),
            out@ == join_prefix(views, sep@, i as int),
        decreases parts@.len() - i,
    {
        if i > 0 {
            out.append(sep);
        }
        out.append(parts[i].as_str());
        i = i + 1;
    }
    proof {
        lemma_join_prefix_full(views, sep@);
    }
    out
}

/// The text after joining the first `i` parts.
pub open spec fn join_prefix(parts: Seq<Seq<char>>, sep: Seq<char>, i: int) -> Seq<char>
    decreases i,
{
    if i <= 0 {
        Seq::empty()
    } else if i == 1 {
        parts[0]
    } else {
        join_prefix(parts, sep, i - 1) + sep + parts[i - 1]
    }
}

proof fn lemma_join_prefix_full(parts: Seq<Seq<char>>, sep: Seq<char>)
    ensures join_prefix(parts, sep, parts.len() as int) == join_seqs(parts, sep),
    decreases parts.len(),
{
    lemma_join_split(parts, sep, parts.len() as int);
    assert(parts.take(parts.len() as int) =~= parts);
}

proof fn lemma_join_split(parts: Seq<Seq<char>>, sep: Seq<char>, i: int)
    requires 0 <= i <= parts.len(),
    ensures join_prefix(parts, sep, i) == join_seqs(parts.take(i), sep),
    decreases i,
{
    if i > 0 {
        lemma_join_split(parts, sep, i - 1);
        lemma_join_take_step(parts.take(i), sep);
        assert(parts.take(i).drop_last() =~= parts.take(i - 1));
        assert(parts.take(i).last() == parts[i - 1]);
    }
}

proof fn lemma_join_take_step(parts: Seq<Seq<char>>, sep: Seq<char>)
    requires parts.len() >= 1,
    ensures join_seqs(parts, sep) == if parts.len() == 1 {
        parts[0]
    } else {
        join_seqs(parts.drop_last(), sep) + sep + parts.last()
    },
    decreases parts.len(),
{
    if parts.len() > 1 {
        lemma_join_take_step(parts.drop_first(), sep);
        assert(parts.drop_first().drop_last() =~= parts.drop_last().drop_first());
        if parts.len() == 2 {
            assert(parts.drop_last() =~= seq![parts[0]]);
        } else {
            assert(parts.drop_last()[0] == parts[0]);
            assert(join_seqs(parts.drop_last(), sep)
                == parts[0] + sep + join_seqs(parts.drop_last().drop_first(), sep));
            assert((parts[0] + sep + join_seqs(parts.drop_first().drop_last(), sep)) + sep
                + parts.last()
                =~= parts[0] + sep + (join_seqs(parts.drop_first().drop_last(), sep) + sep
                    + parts.last()));
        }
    }
}

pub open spec fn strings_view(v: Seq<String>) -> Seq<Seq<char>> {
    Seq::new(v.len(), |i: int| v[i]@)
}

/// A hierarchical module name with its separators replaced: the segments
/// split on `/`, joined with the target's separator.
pub open spec fn replace_sep(name: Seq<char>, sep: Seq<char>) -> Seq<char> {
    join_seqs(split_on(name, '/'), sep)
}

/// Replaces the `/` separators of a module name.
#[verifier::loop_isolation(false)]
pub fn replace_separator(name: &str, sep: &str) -> (r: String)
    ensures r@ == replace_sep(name@, sep@),
{
    let segments = split_char(name, '/');
    proof {
        assert(strings_view(segments@) =~= split_on(name@, '/'));
    }
    join_strings(&segments, sep)
}

/// Insertion into a lexicographically sorted listing.
pub open spec fn insert_view_spec(x: Seq<char>, s: Seq<Seq<char>>) -> Seq<Seq<char>>
    decreases s.len(),
{
    if s.len() == 0 {
        seq![x]
    } else if seq_char_lt(s[0], x) {
        seq![s[0]] + insert_view_spec(x, s.drop_first())
    } else {
        seq![x] + s
    }
}

/// The listing in a stable lexicographic sort: the deterministic order
/// every manifest listing is emitted in, whatever order the input came in.
pub open spec fn sort_views_spec(s: Seq<Seq<char>>) -> Seq<Seq<char>>
    decreases s.len(),
{
    if s.len() == 0 {
        s
    } else {
        insert_view_spec(s[0], sort_views_spec(s.drop_first()))
    }
}

/// Lexicographic order is asymmetric.
pub proof fn lemma_char_lt_asym(a: Seq<char>, b: Seq<char>)
    requires seq_char_lt(a, b),
    ensures !seq_char_lt(b, a),
    decreases a.len(),
{
    if b.len() > 0 && a.len() > 0 && a[0] == b[0] {
        lemma_char_lt_asym(a.drop_first(), b.drop_first());
    }
}

/// `is not above` is transitive.
pub proof fn lemma_char_le_trans(a: Seq<char>, b: Seq<char>, c: Seq<char>)
    requires
        !seq_char_lt(b, a),
        !seq_char_lt(c, b),
    ensures !seq_char_lt(c, a),
    decreases a.len(),
{
    if a.len() > 0 && b.len() > 0 && c.len() > 0 && a[0] == b[0] && b[0] == c[0] {
        lemma_char_le_trans(a.drop_first(), b.drop_first(), c.drop_first());
    }
}

/// The listing is in lexicographic order.
pub open spec fn views_sorted(s: Seq<Seq<char>>) -> bool {
    forall|i: int, j: int| 0 <= i < j < s.len() ==> !seq_char_lt(#[trigger] s[j], #[trigger] s[i])
}

proof fn lemma_insert_view_lower_bound(x: Seq<char>, s: Seq<Seq<char>>, b: Seq<char>)
    requires
        !seq_char_lt(x, b),
        forall|i: int| 0 <= i < s.len() ==> !seq_char_lt(#[trigger] s[i], b),
    ensures forall|i: int| 0 <= i < insert_view_spec(x, s).len()
        ==> !seq_char_lt(#[trigger] insert_view_spec(x, s)[i], b),
    decreases s.len(),
{
    if s.len() > 0 && seq_char_lt(s[0], x) {
        assert forall|i: int| 0 <= i < s.drop_first().len()
            implies !seq_char_lt(#[trigger] s.drop_first()[i], b) by {
            assert(s.drop_first()[i] == s[i + 1]);
        }
        lemma_insert_view_lower_bound(x, s.drop_first(), b);
        let r = insert_view_spec(x, s);
        let rr = insert_view_spec(x, s.drop_first());
        assert forall|i: int| 0 <= i < r.len() implies !seq_char_lt(#[trigger] r[i], b) by {
            if i > 0 {
                assert(r[i] == rr[i - 1]);
            }
        }
    }
}

proof fn lemma_insert_view_sorted(x: Seq<char>, s: Seq<Seq<char>>)
    requires views_sorted(s),
    ensures views_sorted(insert_view_spec(x, s)),
    decreases s.len(),
{
    if s.len() == 0 {
    } else if seq_char_lt(s[0], x) {
        let rest = s.drop_first();
        assert forall|i: int, j: int| 0 <= i < j < rest.len()
            implies !seq_char_lt(#[trigger] rest[j], #[trigger] rest[i]) by {
            assert(rest[i] == s[i + 1]);
            assert(rest[j] == s[j + 1]);
        }
        lemma_insert_view_sorted(x, rest);
        lemma_char_lt_asym(s[0], x);
        assert forall|i: int| 0 <= i < rest.len()
            implies !seq_char_lt(#[trigger] rest[i], s[0]) by {
            assert(rest[i] == s[i + 1]);
        }
        lemma_insert_view_lower_bound(x, rest, s[0]);
        let r = insert_view_spec(x, s);
        let rr = insert_view_spec(x, rest);
        assert forall|i: int, j: int| 0 <= i < j < r.len()
            implies !seq_char_lt(#[trigger] r[j], #[trigger] r[i]) by {
            if i > 0 {
                assert(r[i] == rr[i - 1]);
                assert(r[j] == rr[j - 1]);
            } else {
                assert(r[j] == rr[j - 1]);
            }
        }
    } else {
        let r = insert_view_spec(x, s);
        assert forall|i: int, j: int| 0 <= i < j < r.len()
            implies !seq_char_lt(#[trigger] r[j], #[trigger] r[i]) by {
            if i == 0 {
                assert(r[j] == s[j - 1]);
                if j > 1 {
                    lemma_char_le_trans(x, s[0], s[j - 1]);
                }
            } else {
                assert(r[i] == s[i - 1]);
                assert(r[j] == s[j - 1]);
            }
        }
    }
}

/// Manifest determinism: a sorted listing really is in lexicographic
/// order, whatever order the input arrived in.
pub proof fn lemma_sort_views_sorted(s: Seq<Seq<char>>)
    ensures views_sorted(sort_views_spec(s)),
    decreases s.len(),
{
    if s.len() > 0 {
        lemma_sort_views_sorted(s.drop_first());
        lemma_insert_view_sorted(s[0], sort_views_spec(s.drop_first()));
    }
}

fn insert_string(x: String, v: Vec<String>) -> (r: Vec<String>)
    ensures strings_view(r@) == insert_view_spec(x@, strings_view(v@)),
    decreases v@.len(),
{
    let ghost v0 = strings_view(v@);
    if v.len() == 0 {
        let mut out: Vec<String> = Vec::new();
        out.push(x);
        proof {
            assert(strings_view(out@) =~= insert_view_spec(x@, v0));
        }
        out
    } else if crate::shape::str_lt(v[0].as_str(), x.as_str()) {
        let mut v2 = v;
        let head = v2.remove(0);
        proof {
            assert(strings_view(v2@) =~= v0.drop_first());
        }
        let mut rest = insert_string(x, v2);
        let ghost r0 = strings_view(rest@);
        rest.insert(0, head);
        proof {
            assert(strings_view(rest@) =~= seq![v0[0]] + r0);
        }
        rest
    } else {
        let mut v2 = v;
        v2.insert(0, x);
        proof {
            assert(strings_view(v2@) =~= seq![x@] + v0);
        }
        v2
    }
}

/// Sorts a string listing lexicographically.
pub fn sort_strings(v: Vec<String>) -> (r: Vec<String>)
    ensures strings_view(r@) == sort_views_spec(strings_view(v@)),
    decreases v@.len(),
{
    let ghost v0 = strings_view(v@);
    if v.len() == 0 {
        v
    } else {
        let mut v2 = v;
        let head = v2.remove(0);
        proof {
            assert(strings_view(v2@) =~= v0.drop_first());
        }
        let sorted = sort_strings(v2);
        let r = insert_string(head, sorted);
        proof {
            assert(strings_view(r@) == insert_view_spec(v0[0], sort_views_spec(v0.drop_first())));
        }
        r
    }
}

/// Whether a path listing already holds `p`.
#[verifier::loop_isolation(false)]
pub fn paths_contain(paths: &Vec<String>, p: &str) -> (r: bool)
    ensures r == strings_view(paths@).contains(p@),
{
    let mut i: usize = 0;
    while i < paths.len()
        invariant
            i <= paths@.len(),
            forall|j: int| 0 <= j < i ==> strings_view(paths@)[j] != p@,
        decreases paths@.len() - i,
    {
        if crate::ast::str_eq_str(paths[i].as_str(), p) {
            proof {
                assert(strings_view(paths@)[i as int] == p@);
            }
            return true;
        }
        i = i + 1;
    }
    proof {
        assert forall|j: int| 0 <= j < strings_view(paths@).len()
            implies strings_view(paths@)[j] != p@ by {}
    }
    false
}

/// A directory path this layer may adjoin file names to.
pub open spec fn dir_ok(d: Seq<char>) -> bool {
    d.len() > 0 && d.last() != '/'
}

/// A module or package name as earlier stages produce them: never empty,
/// never an absolute path.
pub open spec fn name_ok(n: Seq<char>) -> bool {
    n.len() > 0 && n[0] != '/'
}

pub open spec fn path_join(dir: Seq<char>, name: Seq<char>) -> Seq<char> {
    dir + seq!['/'] + name
}

/// Replacing separators keeps the first character of a well-formed name.
pub proof fn lemma_replace_sep_head(name: Seq<char>, sep: Seq<char>)
    requires name.len() > 0, name[0] != '/',
    ensures
        replace_sep(name, sep).len() > 0,
        replace_sep(name, sep)[0] == name[0],
{
    crate::fsharp::lemma_idx_of(name, '/');
    let parts = split_on(name, '/');
    let i = crate::fsharp::idx_of(name, '/');
    assert(i >= 1) by {
        if i == 0 {
            assert(name[0] == '/');
        }
    }
    assert(parts[0] == name.take(i as int));
    assert(parts[0].len() >= 1);
    assert(parts[0][0] == name[0]);
    if parts.len() == 1 {
        assert(join_seqs(parts, sep) == parts[0]);
    } else {
        assert(join_seqs(parts, sep) == parts[0] + sep + join_seqs(parts.drop_first(), sep));
        assert((parts[0] + sep + join_seqs(parts.drop_first(), sep))[0] == parts[0][0]);
    }
}

/// First match in the first-in-wins pattern of a string find.
pub open spec fn find_sub(s: Seq<char>, pat: Seq<char>) -> Option<nat>
    decreases s.len(),
{
    if s.len() < pat.len() {
        Option::None
    } else if s.take(pat.len() as int) == pat {
        Some(0)
    } else if s.len() == 0 {
        Option::None
    } else {
        match find_sub(s.drop_first(), pat) {
            Some(i) => Some((i + 1) as nat),
            Option::None => Option::None,
        }
    }
}

pub proof fn lemma_find_sub(s: Seq<char>, pat: Seq<char>)
    ensures match find_sub(s, pat) {
        Some(i) => i + pat.len() <= s.len(),
        Option::None => true,
    },
    decreases s.len(),
{
    if s.len() >= pat.len() && s.take(pat.len() as int) != pat && s.len() > 0 {
        lemma_find_sub(s.drop_first(), pat);
    }
}

/// All non-overlapping matches of `pat` replaced with `rep`, left to right.
pub open spec fn replace_all(s: Seq<char>, pat: Seq<char>, rep: Seq<char>) -> Seq<char>
    decreases s.len(),
    when pat.len() > 0 via replace_all_dec
{
    if pat.len() == 0 {
        s
    } else {
        match find_sub(s, pat) {
            Option::None => s,
            Some(i) => s.take(i as int) + rep
                + replace_all(s.skip(i + pat.len() as int), pat, rep),
        }
    }
}

#[via_fn]
proof fn replace_all_dec(s: Seq<char>, pat: Seq<char>, rep: Seq<char>) {
    lemma_find_sub(s, pat);
}

/// Relies on `str::replace`: every non-overlapping match of the pattern,
/// left to right, is replaced with the replacement.
#[verifier::external_body]
fn str_replace(s: &str, pat: &str, rep: &str) -> (r: String)
    requires pat@.len() > 0,
    ensures r@ == replace_all(s@, pat@, rep@),
{
    s.replace(pat, rep)
}

#[derive(Clone, Copy, PartialEq, Eq, Structural, Debug)]
pub enum TypeScriptDeclarations {
    Omit,
    Emit,
}

#[derive(Clone, Copy, PartialEq, Eq, Structural, Debug)]
pub enum TargetSupport {
    Enforced,
    NotEnforced,
}

/// What the Erlang generator collaborator hands over per module: the
/// module's hierarchical name, its rendered text, and one record header
/// per declared record-like type.
pub struct ErlangModule {
    pub name: String,
    pub text: String,
    pub headers: Vec<RecordHeader>,
}

pub struct RecordHeader {
    pub name: String,
    pub text: String,
}

/// What the JavaScript generator collaborator hands over per module.
pub struct JsModule {
    pub name: String,
    pub js_text: String,
    pub ts_text: String,
}

/// Package metadata, as configuration loading produced it. Dependency
/// listings come in no guaranteed order.
pub struct PackageConfig {
    pub name: String,
    pub version: String,
    pub description: String,
    pub dependencies: Vec<String>,
    pub dev_dependencies: Vec<String>,
    pub erlang_application_start_module: Option<String>,
    pub erlang_extra_applications: Vec<String>,
    pub fsharp_target_framework: String,
}

pub struct NameOverride {
    pub name: String,
    pub replacement: String,
}

pub struct ErlangAppCodegenConfiguration {
    pub include_dev_deps: bool,
    pub package_name_overrides: Vec<NameOverride>,
}

/// A code generator that creates one Erlang module file and record header
/// files for each module in the package.
pub struct Erlang {
    pub build_directory: String,
    pub include_directory: String,
}

pub open spec fn header_files(inc_dir: Seq<char>, erl: Seq<char>, hs: Seq<RecordHeader>) -> Seq<GFile>
    decreases hs.len(),
{
    if hs.len() == 0 {
        Seq::empty()
    } else {
        seq![GFile {
            path: path_join(inc_dir, erl + "_"@ + hs[0].name@ + ".hrl"@),
            text: hs[0].text@,
        }] + header_files(inc_dir, erl, hs.drop_first())
    }
}

pub open spec fn erlang_files(build: Seq<char>, inc_dir: Seq<char>, ms: Seq<ErlangModule>) -> Seq<GFile>
    decreases ms.len(),
{
    if ms.len() == 0 {
        Seq::empty()
    } else {
        let erl = replace_sep(ms[0].name@, "@"@);
        seq![GFile { path: path_join(build, erl + ".erl"@), text: ms[0].text@ }]
            + header_files(inc_dir, erl, ms[0].headers@)
            + erlang_files(build, inc_dir, ms.drop_first())
    }
}

impl Erlang {
    pub fn new(build_directory: String, include_directory: String) -> (r: Self)
        ensures
            r.build_directory == build_directory,
            r.include_directory == include_directory,
    {
        Self { build_directory, include_directory }
    }

    /// Computes the `.erl` file and the `.hrl` record headers of every
    /// module, each path keyed by the module name with `/` turned to `@`.
    #[verifier::loop_isolation(false)]
    pub fn render(&self, modules: &Vec<ErlangModule>) -> (r: Vec<OutputFile>)
        requires
            dir_ok(self.build_directory@),
            dir_ok(self.include_directory@),
            forall|i: int| 0 <= i < modules@.len() ==> name_ok((#[trigger] modules@[i]).name@),
        ensures files_view(r@) == erlang_files(self.build_directory@, self.include_directory@, modules@),
    {
        let ghost build = self.build_directory@;
        let ghost inc_dir = self.include_directory@;
        let ghost target = erlang_files(build, inc_dir, modules@);
        let mut out: Vec<OutputFile> = Vec::new();
        let mut k: usize = 0;
        proof {
            assert(modules@.skip(0) =~= modules@);
            assert(files_view(out@) + erlang_files(build, inc_dir, modules@) =~= target);
        }
        while k < modules.len()
            invariant
                k <= modules@.len(),
                target == erlang_files(build, inc_dir, modules@),
                files_view(out@) + erlang_files(build, inc_dir, modules@.skip(k as int)) == target,
            decreases modules@.len() - k,
        {
            let m = &modules[k];
            let ghost suffix = modules@.skip(k as int);
            proof {
                assert(suffix[0] == modules@[k as int]);
                assert(suffix.drop_first() =~= modules@.skip(k as int + 1));
            }
            let erl_name = replace_separator(m.name.as_str(), "@");
            proof {
                lemma_replace_sep_head(m.name@, "@"@);
            }
            let mut file_name = erl_name.clone();
            file_name.append(".erl");
            let path = join_path(self.build_directory.as_str(), file_name.as_str());
            let ghost before = files_view(out@);
            out.push(OutputFile { path, text: m.text.clone() });
            proof {
                assert(files_view(out@) =~= before.push(GFile {
                    path: path_join(build, replace_sep(modules@[k as int].name@, "@"@) + ".erl"@),
                    text: modules@[k as int].text@,
                }));
            }
            let ghost erl = replace_sep(modules@[k as int].name@, "@"@);
            let ghost modfile = GFile { path: path_join(build, erl + ".erl"@), text: modules@[k as int].text@ };
            proof {
                assert(m.headers@.skip(0) =~= m.headers@);
                assert(erlang_files(build, inc_dir, suffix)
                    == seq![modfile] + header_files(inc_dir, erl, m.headers@)
                        + erlang_files(build, inc_dir, suffix.drop_first()));
                assert(before.push(modfile) + header_files(inc_dir, erl, m.headers@)
                    + erlang_files(build, inc_dir, modules@.skip(k as int + 1))
                    =~= before + erlang_files(build, inc_dir, suffix));
            }
            let mut j: usize = 0;
            while j < m.headers.len()
                invariant
                    j <= m.headers@.len(),
                    k < modules@.len(),
                    m == &modules@[k as int],
                    erl == replace_sep(modules@[k as int].name@, "@"@),
                    erl.len() > 0 && erl[0] != '/',
                    erl_name@ == erl,
                    target == erlang_files(build, inc_dir, modules@),
                    files_view(out@) + header_files(inc_dir, erl, m.headers@.skip(j as int))
                        + erlang_files(build, inc_dir, modules@.skip(k as int + 1)) == target,
                decreases m.headers@.len() - j,
            {
                let h = &m.headers[j];
                let ghost hsuffix = m.headers@.skip(j as int);
                proof {
                    assert(hsuffix[0] == m.headers@[j as int]);
                    assert(hsuffix.drop_first() =~= m.headers@.skip(j as int + 1));
                }
                let mut hname = erl_name.clone();
                hname.append("_");
                hname.append(h.name.as_str());
                hname.append(".hrl");
                let hpath = join_path(self.include_directory.as_str(), hname.as_str());
                let ghost before = files_view(out@);
                out.push(OutputFile { path: hpath, text: h.text.clone() });
                proof {
                    assert(files_view(out@) =~= before.push(GFile {
                        path: path_join(inc_dir, erl + "_"@ + m.headers@[j as int].name@ + ".hrl"@),
                        text: m.headers@[j as int].text@,
                    }));
                    assert(files_view(out@) + header_files(inc_dir, erl, m.headers@.skip(j as int + 1))
                        + erlang_files(build, inc_dir, modules@.skip(k as int + 1))
                        =~= before + header_files(inc_dir, erl, m.headers@.skip(j as int))
                            + erlang_files(build, inc_dir, modules@.skip(k as int + 1)));
                }
                j = j + 1;
            }
            proof {
                assert(m.headers@.skip(m.headers@.len() as int).len() == 0);
                assert(files_view(out@) + Seq::<GFile>::empty()
                    + erlang_files(build, inc_dir, modules@.skip(k as int + 1))
                    =~= files_view(out@) + erlang_files(build, inc_dir, modules@.skip(k as int + 1)));
                assert(files_view(out@) + erlang_files(build, inc_dir, modules@.skip(k as int + 1))
                    =~= target) by {
                    assert(erlang_files(build, inc_dir, suffix)
                        =~= seq![GFile { path: path_join(build, erl + ".erl"@), text: modules@[k as int].text@ }]
                            + header_files(inc_dir, erl, modules@[k as int].headers@)
                            + erlang_files(build, inc_dir, suffix.drop_first()));
                }
            }
            k = k + 1;
        }
        proof {
            assert(modules@.skip(modules@.len() as int).len() == 0);
            assert(files_view(out@) + Seq::<GFile>::empty() =~= files_view(out@));
        }
        out
    }
}

/// The first override recorded for `name`, if any.
pub open spec fn ov_at(ovs: Seq<NameOverride>, name: Seq<char>) -> Option<Seq<char>>
    decreases ovs.len(),
{
    if ovs.len() == 0 {
        Option::None
    } else if ovs[0].name@ == name {
        Some(ovs[0].replacement@)
    } else {
        ov_at(ovs.drop_first(), name)
    }
}

/// The application name a dependency is listed under: its override when the
/// configuration names one, else the dependency name itself.
pub open spec fn override_view(ovs: Seq<NameOverride>, name: Seq<char>) -> Seq<char> {
    match ov_at(ovs, name) {
        Some(r) => r,
        Option::None => name,
    }
}

#[verifier::loop_isolation(false)]
fn override_name(ovs: &Vec<NameOverride>, name: &String) -> (r: String)
    ensures r@ == override_view(ovs@, name@),
{
    let mut i: usize = 0;
    proof {
        assert(ovs@.skip(0) =~= ovs@);
    }
    while i < ovs.len()
        invariant
            i <= ovs@.len(),
            ov_at(ovs@, name@) == ov_at(ovs@.skip(i as int), name@),
        decreases ovs@.len() - i,
    {
        proof {
            assert(ovs@.skip(i as int).drop_first() =~= ovs@.skip(i as int + 1));
            assert(ovs@.skip(i as int)[0] == ovs@[i as int]);
        }
        if ovs[i].name == *name {
            return ovs[i].replacement.clone();
        }
        i = i + 1;
    }
    name.clone()
}

pub open spec fn tuple_entry(key: Seq<char>, value: Seq<char>) -> Seq<char> {
    "    {"@ + key + ", "@ + value + "},\n"@
}

/// The applications listed in the manifest: the required dependencies, the
/// development ones when configured in, each through its name override,
/// plus the extra runtime applications — sorted.
pub open spec fn app_applications(config: PackageConfig, cfg: ErlangAppCodegenConfiguration) -> Seq<Seq<char>> {
    let base = strings_view(config.dependencies@)
        + if cfg.include_dev_deps { strings_view(config.dev_dependencies@) } else { Seq::empty() };
    let mapped = Seq::new(base.len(), |i: int| override_view(cfg.package_name_overrides@, base[i]));
    sort_views_spec(mapped + strings_view(config.erlang_extra_applications@))
}

/// The `.app` manifest text, with the optional start-module tuple, the
/// version, the sorted application list, the description and the sorted
/// module list, in this exact order.
pub open spec fn app_text(config: PackageConfig, cfg: ErlangAppCodegenConfiguration, module_names: Seq<Seq<char>>) -> Seq<char> {
    let start_module = match config.erlang_application_start_module {
        Some(m) => tuple_entry("mod"@, "{'"@ + replace_sep(m@, "@"@) + "', []}"@),
        Option::None => Seq::empty(),
    };
    let modules = join_seqs(
        sort_views_spec(Seq::new(module_names.len(), |i: int| replace_sep(module_names[i], "@"@))),
        ",\n               "@);
    let applications = join_seqs(app_applications(config, cfg), ",\n                    "@);
    "{application, "@ + config.name@ + ", [\n"@
        + start_module
        + "    {vsn, \""@ + config.version@ + "\"},\n    {applications, ["@
        + applications
        + "]},\n    {description, \""@ + config.description@
        + "\"},\n    {modules, ["@ + modules
        + "]},\n    {registered, []}\n]}.\n"@
}

/// A code generator that creates the `.app` Erlang application manifest for
/// the package.
pub struct ErlangApp {
    pub output_directory: String,
    pub config: ErlangAppCodegenConfiguration,
}

impl ErlangApp {
    pub fn new(output_directory: String, config: ErlangAppCodegenConfiguration) -> (r: Self)
        ensures
            r.output_directory == output_directory,
            r.config == config,
    {
        Self { output_directory, config }
    }

    /// Computes the application manifest. The module and dependency
    /// listings are sorted before they are joined: input iteration order is
    /// not guaranteed stable, and unsorted emission breaks reproducibility.
    #[verifier::loop_isolation(false)]
    pub fn render(&self, config: &PackageConfig, module_names: &Vec<String>) -> (r: Vec<OutputFile>)
        requires
            dir_ok(self.output_directory@),
            name_ok(config.name@),
        ensures files_view(r@) == seq![GFile {
            path: path_join(self.output_directory@, config.name@ + ".app"@),
            text: app_text(*config, self.config, strings_view(module_names@)),
        }],
    {
        let start_module: String = match &config.erlang_application_start_module {
            Some(m) => {
                let mut value: String = "{'".to_owned();
                value.append(replace_separator(m.as_str(), "@").as_str());
                value.append("', []}");
                let mut entry: String = "    {".to_owned();
                entry.append("mod");
                entry.append(", ");
                entry.append(value.as_str());
                entry.append("},\n");
                proof {
                    assert(entry@ =~= tuple_entry("mod"@,
                        "{'"@ + replace_sep(config.erlang_application_start_module->0@, "@"@) + "', []}"@));
                }
                entry
            }
            Option::None => String::new(),
        };

        let mut replaced: Vec<String> = Vec::new();
        let mut i: usize = 0;
        while i < module_names.len()
            invariant
                i <= module_names@.len(),
                replaced@.len() == i as int,
                forall|j: int| 0 <= j < i
                    ==> (#[trigger] replaced@[j])@ == replace_sep(strings_view(module_names@)[j], "@"@),
            decreases module_names@.len() - i,
        {
            replaced.push(replace_separator(module_names[i].as_str(), "@"));
            i = i + 1;
        }
        let sorted_modules = sort_strings(replaced);
        proof {
            assert(strings_view(replaced@) =~= Seq::new(strings_view(module_names@).len(),
                |j: int| replace_sep(strings_view(module_names@)[j], "@"@)));
        }
        let modules = join_strings(&sorted_modules, ",\n               ");

        let mut apps: Vec<String> = Vec::new();
        let mut i: usize = 0;
        let ghost base = strings_view(config.dependencies@)
            + if self.config.include_dev_deps {
                strings_view(config.dev_dependencies@)
            } else {
                Seq::empty()
            };
        while i < config.dependencies.len()
            invariant
                i <= config.dependencies@.len(),
                apps@.len() == i as int,
                forall|j: int| 0 <= j < i
                    ==> (#[trigger] apps@[j])@ == override_view(self.config.package_name_overrides@, base[j]),
            decreases config.dependencies@.len() - i,
        {
            apps.push(override_name(&self.config.package_name_overrides, &config.dependencies[i]));
            i = i + 1;
        }
        if self.config.include_dev_deps {
            let mut i: usize = 0;
            let deps_len = config.dependencies.len();
            while i < config.dev_dependencies.len()
                invariant
                    i <= config.dev_dependencies@.len(),
                    apps@.len() == deps_len + i,
                    deps_len == config.dependencies@.len(),
                    forall|j: int| 0 <= j < deps_len + i
                        ==> (#[trigger] apps@[j])@ == override_view(self.config.package_name_overrides@, base[j]),
                decreases config.dev_dependencies@.len() - i,
            {
                apps.push(override_name(&self.config.package_name_overrides, &config.dev_dependencies[i]));
                i = i + 1;
            }
        }
        let ghost mapped = Seq::new(base.len(),
            |j: int| override_view(self.config.package_name_overrides@, base[j]));
        proof {
            assert(strings_view(apps@) =~= mapped);
        }
        let mut i: usize = 0;
        let mapped_len = apps.len();
        while i < config.erlang_extra_applications.len()
            invariant
                i <= config.erlang_extra_applications@.len(),
                apps@.len() == mapped_len + i,
                mapped_len == mapped.len(),
                strings_view(apps@.take(mapped_len as int)) =~= mapped,
                forall|j: int| 0 <= j < i
                    ==> (#[trigger] apps@[mapped_len + j])@ == strings_view(config.erlang_extra_applications@)[j],
            decreases config.erlang_extra_applications@.len() - i,
        {
            apps.push(config.erlang_extra_applications[i].clone());
            i = i + 1;
        }
        proof {
            let extra = strings_view(config.erlang_extra_applications@);
            assert forall|j: int| 0 <= j < apps@.len()
                implies strings_view(apps@)[j] == (mapped + extra)[j] by {
                if j < mapped_len {
                    assert(strings_view(apps@.take(mapped_len as int))[j] == apps@[j]@);
                } else {
                    assert(apps@[mapped_len + (j - mapped_len)]@ == extra[j - mapped_len]);
                }
            }
            assert(strings_view(apps@) =~= mapped + extra);
        }
        let sorted_apps = sort_strings(apps);
        let applications = join_strings(&sorted_apps, ",\n                    ");

        let mut text: String = "{application, ".to_owned();
        text.append(config.name.as_str());
        text.append(", [\n");
        text.append(start_module.as_str());
        text.append("    {vsn, \"");
        text.append(config.version.as_str());
        text.append("\"},\n    {applications, [");
        text.append(applications.as_str());
        text.append("]},\n    {description, \"");
        text.append(config.description.as_str());
        text.append("\"},\n    {modules, [");
        text.append(modules.as_str());
        text.append("]},\n    {registered, []}\n]}.\n");
        proof {
            assert(text@ =~= app_text(*config, self.config, strings_view(module_names@)));
        }

        let mut file_name = config.name.clone();
        file_name.append(".app");
        let path = join_path(self.output_directory.as_str(), file_name.as_str());
        let mut out: Vec<OutputFile> = Vec::new();
        out.push(OutputFile { path, text });
        proof {
            assert(files_view(out@) =~= seq![GFile {
                path: path_join(self.output_directory@, config.name@ + ".app"@),
                text: app_text(*config, self.config, strings_view(module_names@)),
            }]);
        }
        out
    }
}

/// The stub content of one compiled F# module file.
pub open spec fn fsharp_module_stub(name: Seq<char>) -> Seq<char> {
    "module "@ + replace_sep(name, "\\"@) + "\n"@
}

/// The `<Compile>` items of the project file, one per module, in module
/// order.
pub open spec fn compile_items(names: Seq<Seq<char>>) -> Seq<Seq<char>> {
    Seq::new(names.len(),
        |i: int| "    <Compile Include=\""@ + replace_sep(names[i], "\\"@) + ".fs\" />"@)
}

/// The project manifest referencing every module's compiled file.
pub open spec fn fsproj_text(config: PackageConfig, names: Seq<Seq<char>>) -> Seq<char> {
    "<Project Sdk=\"Microsoft.NET.Sdk\">\n  <PropertyGroup>\n    <TargetFramework>"@
        + config.fsharp_target_framework@
        + "</TargetFramework>\n    <RootNamespace>"@
        + config.name@
        + "</RootNamespace>\n  </PropertyGroup>\n\n  <ItemGroup>\n"@
        + join_seqs(compile_items(names), "\n"@)
        + "\n  </ItemGroup>\n\n  <ItemGroup>\n"@
        + "<!-- TODO: Add package references -->"@
        + "\n  </ItemGroup>\n</Project>"@
}

pub open spec fn fsharp_module_files(build: Seq<char>, names: Seq<Seq<char>>) -> Seq<GFile>
    decreases names.len(),
{
    if names.len() == 0 {
        Seq::empty()
    } else {
        seq![GFile {
            path: path_join(build, replace_sep(names[0], "\\"@) + ".fs"@),
            text: fsharp_module_stub(names[0]),
        }] + fsharp_module_files(build, names.drop_first())
    }
}

pub open spec fn fsharp_files(build: Seq<char>, config: PackageConfig, names: Seq<Seq<char>>) -> Seq<GFile> {
    seq![GFile {
        path: path_join(build, config.name@ + ".fsproj"@),
        text: fsproj_text(config, names),
    }] + fsharp_module_files(build, names)
}

/// A code generator that creates the F# project manifest and one module
/// file per module.
pub struct FSharpApp {
    pub build_dir: String,
}

impl FSharpApp {
    pub fn new(build_dir: String) -> (r: Self)
        ensures r.build_dir == build_dir,
    {
        Self { build_dir }
    }

    fn module_stub(&self, name: &str) -> (r: String)
        ensures r@ == fsharp_module_stub(name@),
    {
        let mut text: String = "module ".to_owned();
        text.append(replace_separator(name, "\\").as_str());
        text.append("\n");
        proof {
            assert(text@ =~= fsharp_module_stub(name@));
        }
        text
    }

    /// Computes the project file, then one `.fs` file per module, the path
    /// separators turned into the target's namespace separator.
    #[verifier::loop_isolation(false)]
    pub fn render(&self, config: &PackageConfig, module_names: &Vec<String>) -> (r: Vec<OutputFile>)
        requires
            dir_ok(self.build_dir@),
            name_ok(config.name@),
            forall|i: int| 0 <= i < module_names@.len() ==> name_ok((#[trigger] module_names@[i])@),
        ensures files_view(r@) == fsharp_files(self.build_dir@, *config, strings_view(module_names@)),
    {
        let ghost names = strings_view(module_names@);
        let mut items: Vec<String> = Vec::new();
        let mut i: usize = 0;
        while i < module_names.len()
            invariant
                i <= module_names@.len(),
                items@.len() == i as int,
                forall|j: int| 0 <= j < i
                    ==> (#[trigger] items@[j])@ == compile_items(names)[j],
            decreases module_names@.len() - i,
        {
            let mut item: String = "    <Compile Include=\"".to_owned();
            item.append(replace_separator(module_names[i].as_str(), "\\").as_str());
            item.append(".fs\" />");
            proof {
                assert(item@ =~= compile_items(names)[i as int]);
            }
            items.push(item);
            i = i + 1;
        }
        let joined_items = join_strings(&items, "\n");
        proof {
            assert(strings_view(items@) =~= compile_items(names));
        }
        let mut text: String = "<Project Sdk=\"Microsoft.NET.Sdk\">\n  <PropertyGroup>\n    <TargetFramework>".to_owned();
        text.append(config.fsharp_target_framework.as_str());
        text.append("</TargetFramework>\n    <RootNamespace>");
        text.append(config.name.as_str());
        text.append("</RootNamespace>\n  </PropertyGroup>\n\n  <ItemGroup>\n");
        text.append(joined_items.as_str());
        text.append("\n  </ItemGroup>\n\n  <ItemGroup>\n");
        text.append("<!-- TODO: Add package references -->");
        text.append("\n  </ItemGroup>\n</Project>");
        proof {
            assert(text@ =~= fsproj_text(*config, names));
        }
        let mut proj_name = config.name.clone();
        proj_name.append(".fsproj");
        let path = join_path(self.build_dir.as_str(), proj_name.as_str());
        let mut out: Vec<OutputFile> = Vec::new();
        out.push(OutputFile { path, text });
        let ghost target = fsharp_files(self.build_dir@, *config, names);
        proof {
            assert(names.skip(0) =~= names);
            assert(files_view(out@) + fsharp_module_files(self.build_dir@, names) =~= target);
        }
        let mut k: usize = 0;
        while k < module_names.len()
            invariant
                k <= module_names@.len(),
                target == fsharp_files(self.build_dir@, *config, names),
                names == strings_view(module_names@),
                files_view(out@) + fsharp_module_files(self.build_dir@, names.skip(k as int)) == target,
            decreases module_names@.len() - k,
        {
            let ghost suffix = names.skip(k as int);
            proof {
                assert(suffix[0] == names[k as int]);
                assert(suffix.drop_first() =~= names.skip(k as int + 1));
                lemma_replace_sep_head(names[k as int], "\\"@);
            }
            let mut file_name = replace_separator(module_names[k].as_str(), "\\");
            file_name.append(".fs");
            let fpath = join_path(self.build_dir.as_str(), file_name.as_str());
            let stub = self.module_stub(module_names[k].as_str());
            let ghost before = files_view(out@);
            out.push(OutputFile { path: fpath, text: stub });
            proof {
                let g = GFile {
                    path: path_join(self.build_dir@, replace_sep(names[k as int], "\\"@) + ".fs"@),
                    text: fsharp_module_stub(names[k as int]),
                };
                assert(files_view(out@) =~= before.push(g));
                assert(before.push(g) + fsharp_module_files(self.build_dir@, names.skip(k as int + 1))
                    =~= before + fsharp_module_files(self.build_dir@, suffix));
            }
            k = k + 1;
        }
        proof {
            assert(names.skip(names.len() as int).len() == 0);
            assert(files_view(out@) + Seq::<GFile>::empty() =~= files_view(out@));
        }
        out
    }
}

/// The re-export line of the shared prelude stub.
pub open spec fn prelude_rexport(prelude_location: Seq<char>) -> Seq<char> {
    "export * from \""@ + prelude_location + "\";\n"@
}

/// The once-per-run prelude stub files: each is emitted only when not
/// already present, a deliberate debounce that keeps file watchers quiet.
pub open spec fn prelude_files(out_dir: Seq<char>, prelude_location: Seq<char>, ts: TypeScriptDeclarations, existing: Seq<Seq<char>>) -> Seq<GFile> {
    let rexport = prelude_rexport(prelude_location);
    let stub_path = path_join(out_dir, "gleam.mjs"@);
    let first = if !existing.contains(stub_path) {
        seq![GFile { path: stub_path, text: rexport }]
    } else {
        Seq::empty()
    };
    let decl_path = path_join(out_dir, "gleam.d.mts"@);
    let second = if ts is Emit && !existing.contains(decl_path) {
        seq![GFile { path: decl_path, text: replace_all(rexport, ".mjs"@, ".d.mts"@) }]
    } else {
        Seq::empty()
    };
    first + second
}

pub open spec fn js_module_files(out_dir: Seq<char>, ts: TypeScriptDeclarations, ms: Seq<JsModule>) -> Seq<GFile>
    decreases ms.len(),
{
    if ms.len() == 0 {
        Seq::empty()
    } else {
        (if ts is Emit {
            seq![GFile { path: path_join(out_dir, ms[0].name@ + ".d.mts"@), text: ms[0].ts_text@ }]
        } else {
            Seq::empty()
        }) + seq![GFile { path: path_join(out_dir, ms[0].name@ + ".mjs"@), text: ms[0].js_text@ }]
            + js_module_files(out_dir, ts, ms.drop_first())
    }
}

/// Everything one JavaScript generation run writes: the per-module files,
/// then the shared prelude stub unless it already exists.
pub open spec fn javascript_files(out_dir: Seq<char>, prelude_location: Seq<char>, ts: TypeScriptDeclarations, ms: Seq<JsModule>, existing: Seq<Seq<char>>) -> Seq<GFile> {
    js_module_files(out_dir, ts, ms) + prelude_files(out_dir, prelude_location, ts, existing)
}

/// A code generator that creates one `.mjs` file (and optionally a
/// TypeScript declaration) per module, plus a shared prelude re-export.
pub struct JavaScript {
    pub output_directory: String,
    pub prelude_location: String,
    pub typescript: TypeScriptDeclarations,
    pub target_support: TargetSupport,
}

impl JavaScript {
    pub fn new(output_directory: String, typescript: TypeScriptDeclarations, prelude_location: String, target_support: TargetSupport) -> (r: Self)
        ensures
            r.output_directory == output_directory,
            r.typescript == typescript,
            r.prelude_location == prelude_location,
            r.target_support == target_support,
    {
        Self { prelude_location, output_directory, target_support, typescript }
    }

    /// Computes every file of one generation run. `existing` answers the
    /// file-system collaborator's existence checks: the prelude stub is
    /// emitted only when not already present.
    #[verifier::loop_isolation(false)]
    pub fn render(&self, modules: &Vec<JsModule>, existing: &Vec<String>) -> (r: Vec<OutputFile>)
        requires
            dir_ok(self.output_directory@),
            forall|i: int| 0 <= i < modules@.len() ==> name_ok((#[trigger] modules@[i]).name@),
        ensures files_view(r@) == javascript_files(
            self.output_directory@,
            self.prelude_location@,
            self.typescript,
            modules@,
            strings_view(existing@),
        ),
    {
        let ghost out_dir = self.output_directory@;
        let ghost target = javascript_files(out_dir, self.prelude_location@, self.typescript,
            modules@, strings_view(existing@));
        let mut out: Vec<OutputFile> = Vec::new();
        let mut k: usize = 0;
        proof {
            assert(modules@.skip(0) =~= modules@);
            assert(files_view(out@) + js_module_files(out_dir, self.typescript, modules@)
                =~= js_module_files(out_dir, self.typescript, modules@));
        }
        while k < modules.len()
            invariant
                k <= modules@.len(),
                files_view(out@) + js_module_files(out_dir, self.typescript, modules@.skip(k as int))
                    == js_module_files(out_dir, self.typescript, modules@),
            decreases modules@.len() - k,
        {
            let m = &modules[k];
            let ghost suffix = modules@.skip(k as int);
            proof {
                assert(suffix[0] == modules@[k as int]);
                assert(suffix.drop_first() =~= modules@.skip(k as int + 1));
            }
            let ghost before = files_view(out@);
            if matches!(self.typescript, TypeScriptDeclarations::Emit) {
                let mut dname = m.name.clone();
                dname.append(".d.mts");
                let dpath = join_path(self.output_directory.as_str(), dname.as_str());
                out.push(OutputFile { path: dpath, text: m.ts_text.clone() });
                proof {
                    assert(files_view(out@) =~= before.push(GFile {
                        path: path_join(out_dir, modules@[k as int].name@ + ".d.mts"@),
                        text: modules@[k as int].ts_text@,
                    }));
                }
            }
            let ghost mid = files_view(out@);
            let mut jname = m.name.clone();
            jname.append(".mjs");
            let jpath = join_path(self.output_directory.as_str(), jname.as_str());
            out.push(OutputFile { path: jpath, text: m.js_text.clone() });
            proof {
                let jsfile = GFile {
                    path: path_join(out_dir, modules@[k as int].name@ + ".mjs"@),
                    text: modules@[k as int].js_text@,
                };
                assert(files_view(out@) =~= mid.push(jsfile));
                assert(files_view(out@) + js_module_files(out_dir, self.typescript, suffix.drop_first())
                    =~= before + js_module_files(out_dir, self.typescript, suffix));
            }
            k = k + 1;
        }
        proof {
            assert(modules@.skip(modules@.len() as int).len() == 0);
            assert(files_view(out@) + Seq::<GFile>::empty() =~= files_view(out@));
            assert(files_view(out@) == js_module_files(out_dir, self.typescript, modules@));
        }

        let mut rexport: String = "export * from \"".to_owned();
        rexport.append(self.prelude_location.as_str());
        rexport.append("\";\n");
        proof {
            assert(rexport@ =~= prelude_rexport(self.prelude_location@));
        }
        let stub_path = join_path(self.output_directory.as_str(), "gleam.mjs");
        proof {
            reveal_strlit("gleam.mjs");
        }
        let ghost before_prelude = files_view(out@);
        if !paths_contain(existing, stub_path.as_str()) {
            out.push(OutputFile { path: stub_path, text: rexport.clone() });
        }
        let ghost mid_prelude = files_view(out@);
        if matches!(self.typescript, TypeScriptDeclarations::Emit) {
            proof {
                reveal_strlit("gleam.d.mts");
                reveal_strlit(".mjs");
            }
            let decl_rexport = str_replace(rexport.as_str(), ".mjs", ".d.mts");
            let decl_path = join_path(self.output_directory.as_str(), "gleam.d.mts");
            if !paths_contain(existing, decl_path.as_str()) {
                out.push(OutputFile { path: decl_path, text: decl_rexport });
            }
        }
        proof {
            let pf = prelude_files(out_dir, self.prelude_location@, self.typescript,
                strings_view(existing@));
            assert(files_view(out@) =~= before_prelude + pf);
        }
        out
    }
}

/// The prelude debounce: when the stub (and, with declarations on, its
/// twin) already exists at the output location — as after a first run has
/// written it — a later run performs no prelude write at all.
pub proof fn lemma_prelude_debounce(out_dir: Seq<char>, prelude_location: Seq<char>, ts: TypeScriptDeclarations, ms: Seq<JsModule>, existing: Seq<Seq<char>>)
    requires
        existing.contains(path_join(out_dir, "gleam.mjs"@)),
        ts is Emit ==> existing.contains(path_join(out_dir, "gleam.d.mts"@)),
    ensures javascript_files(out_dir, prelude_location, ts, ms, existing)
        == js_module_files(out_dir, ts, ms),
{
    assert(prelude_files(out_dir, prelude_location, ts, existing) =~= Seq::<GFile>::empty());
    assert(js_module_files(out_dir, ts, ms) + Seq::<GFile>::empty()
        =~= js_module_files(out_dir, ts, ms));
}

/// A fresh location receives the stub exactly once: it is the first file
/// after the module files, and no other output carries its path when no
/// module is named like the prelude stub.
pub proof fn lemma_prelude_written_when_absent(out_dir: Seq<char>, prelude_location: Seq<char>, ts: TypeScriptDeclarations, ms: Seq<JsModule>, existing: Seq<Seq<char>>)
    requires !existing.contains(path_join(out_dir, "gleam.mjs"@)),
    ensures ({
        let files = javascript_files(out_dir, prelude_location, ts, ms, existing);
        let n = js_module_files(out_dir, ts, ms).len();
        n < files.len()
            && files[n as int] == GFile {
                path: path_join(out_dir, "gleam.mjs"@),
                text: prelude_rexport(prelude_location),
            }
    }),
{
}

} // verus!
