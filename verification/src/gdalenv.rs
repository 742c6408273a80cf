//! Locating the GDAL toolchain and describing how its command-line tools are run: the
//! directories searched, the environment every tool gets, the `gdal2tiles` launcher,
//! progress read from tool output, and the report of a failed command.

use vstd::prelude::*;
use crate::errors::TilerError;
use crate::paths::{joined, path_exists, path_join, path_parent, plain_name};
use crate::text::{
    opt_view, all_digits, chars_of, concat2, digits_value, digits_value_capped, is_digit, is_digit_exec,
    join_strings, join_with, push_arg, push_owned, string_views, trail_count,
    lemma_trail_count_unique,
};

verus! {

/// A resolved GDAL installation: where its tools live and the environment they need.
pub struct GdalEnv {
    /// Directory containing `gdalinfo`, `gdalwarp`, ... (the GDAL `bin`).
    pub bin_dir: String,
    /// Resolved `gdal2tiles` launcher (an `.exe`, a `.py`, or a bare name).
    pub gdal2tiles: String,
    /// A Python interpreter for running `gdal2tiles` as `python -m osgeo_utils.gdal2tiles`.
    pub python: Option<String>,
    /// Extra environment variables every GDAL command needs, each name once.
    pub env: Vec<(String, String)>,
    /// The platform's executable suffix (`.exe` on Windows, empty elsewhere).
    pub exe_suffix: String,
}

/// The executable suffixes of the supported platforms.
pub open spec fn exe_suffix_ok(s: Seq<char>) -> bool {
    s == Seq::<char>::empty() || s == ".exe"@
}

/// The executable suffix of a platform.
pub open spec fn platform_exe_suffix(windows: bool) -> Seq<char> {
    if windows {
        ".exe"@
    } else {
        Seq::<char>::empty()
    }
}

/// A plain tool name stays a plain name with an executable suffix appended.
proof fn lemma_exe_plain(name: Seq<char>, suffix: Seq<char>)
    requires
        plain_name(name),
        exe_suffix_ok(suffix),
    ensures
        plain_name(name + suffix),
{
    reveal_strlit(".exe");
    let n = name + suffix;
    assert forall|i: int| 0 <= i < n.len() implies #[trigger] n[i] != '/' && n[i] != '\\' && n[i]
        != ':' by {
        if i < name.len() {
            assert(n[i] == name[i]);
        } else {
            assert(n[i] == suffix[i - name.len()]);
        }
    }
}

/// The executable suffix of a platform.
fn exe_suffix_for(windows: bool) -> (r: String)
    ensures
        r@ == platform_exe_suffix(windows),
        exe_suffix_ok(r@),
{
    if windows {
        proof {
            reveal_strlit(".exe");
        }
        ".exe".to_string()
    } else {
        String::new()
    }
}

impl GdalEnv {
    /// Path of a GDAL `bin` tool (with the platform executable suffix).
    pub fn tool(&self, name: &str) -> (r: String)
        requires
            plain_name(name@),
            exe_suffix_ok(self.exe_suffix@),
        ensures
            joined(r@, self.bin_dir@, name@ + self.exe_suffix@),
    {
        let full = concat2(name, self.exe_suffix.as_str());
        proof {
            lemma_exe_plain(name@, self.exe_suffix@);
        }
        path_join(self.bin_dir.as_str(), full.as_str())
    }

    /// The command and leading arguments that run `gdal2tiles`: the Python interpreter
    /// with `-m osgeo_utils.gdal2tiles` when there is one, else the launcher.
    pub fn gdal2tiles_invocation(&self) -> (r: (String, Vec<String>))
        ensures
            match self.python {
                Some(py) => r.0@ == py@ && string_views(r.1@) == seq![
                    "-m"@,
                    "osgeo_utils.gdal2tiles"@,
                ],
                None => r.0@ == self.gdal2tiles@ && r.1@.len() == 0,
            },
    {
        match &self.python {
            Some(py) => {
                let mut args: Vec<String> = Vec::new();
                push_arg(&mut args, "-m");
                push_arg(&mut args, "osgeo_utils.gdal2tiles");
                assert(string_views(args@) =~= seq!["-m"@, "osgeo_utils.gdal2tiles"@]);
                (py.clone(), args)
            },
            None => (self.gdal2tiles.clone(), Vec::new()),
        }
    }
}

// ---------------------------------------------------------------------------
// discovery
// ---------------------------------------------------------------------------

/// What the process environment says about where GDAL may be.
pub struct GdalSearch {
    /// Running on Windows.
    pub windows: bool,
    /// `MARTIN_GDAL_BIN`.
    pub gdal_bin: Option<String>,
    /// `MARTIN_GDAL_PREFIX`.
    pub gdal_prefix: Option<String>,
    /// The directories of `PATH`, in order.
    pub path_dirs: Vec<String>,
    /// `PATH` itself (empty when unset).
    pub path_var: String,
    /// `GDAL_DATA`.
    pub gdal_data: Option<String>,
    /// `PROJ_LIB`.
    pub proj_lib: Option<String>,
    /// `PROJ_DATA`.
    pub proj_data: Option<String>,
    /// `MARTIN_GDAL_PYTHON`.
    pub python: Option<String>,
    /// `PYTHONHOME`.
    pub pythonhome: Option<String>,
}

/// Well-known GDAL install locations of a platform.
pub open spec fn known_bin_dirs(windows: bool) -> Seq<Seq<char>> {
    if windows {
        seq![
            "C:\\OSGeo4W\\bin"@,
            "C:\\OSGeo4W64\\bin"@,
            "C:\\Program Files\\GDAL"@,
            "C:\\Program Files\\QGIS\\bin"@,
        ]
    } else {
        seq!["/usr/bin"@, "/usr/local/bin"@, "/opt/homebrew/bin"@, "/opt/local/bin"@]
    }
}

/// Candidate GDAL `bin` directories, most specific first: `MARTIN_GDAL_BIN`, then
/// `MARTIN_GDAL_PREFIX/bin`, then every `PATH` entry, then the well-known locations.
pub fn candidate_bin_dirs(s: &GdalSearch) -> (r: Vec<String>)
    ensures
        ({
            let k0: int = if s.gdal_bin is Some { 1 } else { 0 };
            let k1: int = k0 + if s.gdal_prefix is Some { 1int } else { 0int };
            let pd = string_views(s.path_dirs@);
            let kn = known_bin_dirs(s.windows);
            &&& r@.len() == k1 + pd.len() + kn.len()
            &&& s.gdal_bin matches Some(b) ==> r@[0]@ == b@
            &&& s.gdal_prefix matches Some(p) ==> joined(r@[k0]@, p@, "bin"@)
            &&& string_views(r@).subrange(k1, k1 + pd.len()) == pd
            &&& string_views(r@).skip(k1 + pd.len()) == kn
        }),
{
    let mut dirs: Vec<String> = Vec::new();
    if let Some(b) = &s.gdal_bin {
        dirs.push(b.clone());
    }
    if let Some(p) = &s.gdal_prefix {
        proof {
            reveal_strlit("bin");
        }
        dirs.push(path_join(p.as_str(), "bin"));
    }
    let ghost k1 = dirs@.len() as int;
    let ghost head = string_views(dirs@);
    let ghost k0: int = if s.gdal_bin is Some { 1 } else { 0 };
    assert(s.gdal_bin matches Some(b) ==> head[0] == b@);
    assert(s.gdal_prefix matches Some(p) ==> joined(head[k0], p@, "bin"@));
    let mut i: usize = 0;
    while i < s.path_dirs.len()
        invariant
            i <= s.path_dirs@.len(),
            dirs@.len() == k1 + i,
            string_views(dirs@) == head + string_views(s.path_dirs@).take(i as int),
        decreases s.path_dirs.len() - i,
    {
        let ghost before = string_views(dirs@);
        dirs.push(s.path_dirs[i].clone());
        assert(string_views(dirs@) =~= before.push(s.path_dirs@[i as int]@));
        assert(string_views(s.path_dirs@).take(i + 1) =~= string_views(s.path_dirs@).take(
            i as int,
        ).push(s.path_dirs@[i as int]@));
        i = i + 1;
    }
    assert(string_views(s.path_dirs@).take(i as int) =~= string_views(s.path_dirs@));
    let ghost mid = string_views(dirs@);
    if s.windows {
        push_arg(&mut dirs, "C:\\OSGeo4W\\bin");
        push_arg(&mut dirs, "C:\\OSGeo4W64\\bin");
        push_arg(&mut dirs, "C:\\Program Files\\GDAL");
        push_arg(&mut dirs, "C:\\Program Files\\QGIS\\bin");
    } else {
        push_arg(&mut dirs, "/usr/bin");
        push_arg(&mut dirs, "/usr/local/bin");
        push_arg(&mut dirs, "/opt/homebrew/bin");
        push_arg(&mut dirs, "/opt/local/bin");
    }
    assert(string_views(dirs@) =~= mid + known_bin_dirs(s.windows));
    assert(s.gdal_bin is Some ==> string_views(dirs@)[0] == head[0]);
    assert(s.gdal_prefix is Some ==> string_views(dirs@)[k0] == head[k0]);
    assert(string_views(dirs@).subrange(k1, k1 + s.path_dirs@.len()) =~= string_views(
        s.path_dirs@,
    ));
    assert(string_views(dirs@).skip(k1 + s.path_dirs@.len()) =~= known_bin_dirs(s.windows));
    dirs
}

/// The index of the first `true` among the probe answers `present`, if any.
pub open spec fn first_true(present: Seq<bool>) -> Option<int>
    decreases present.len(),
{
    if present.len() == 0 {
        None
    } else if present[0] {
        Some(0)
    } else {
        match first_true(present.drop_first()) {
            Some(i) => Some(i + 1),
            None => None,
        }
    }
}

/// `first_true` finds the first `true`, and only when there is one.
pub proof fn lemma_first_true(present: Seq<bool>)
    ensures
        first_true(present) is None <==> forall|j: int| 0 <= j < present.len() ==> !present[j],
        first_true(present) matches Some(i) ==> 0 <= i < present.len() && present[i] && forall|
            j: int,
        | 0 <= j < i ==> !present[j],
    decreases present.len(),
{
    if present.len() > 0 && !present[0] {
        let rest = present.drop_first();
        lemma_first_true(rest);
        assert forall|j: int| 1 <= j < present.len() implies present[j] == rest[j - 1] by {}
        if first_true(rest) is None {
            assert forall|j: int| 0 <= j < present.len() implies !present[j] by {
                if j > 0 {
                    assert(!rest[j - 1]);
                }
            }
        }
    }
}

/// The candidate picked from probe answers: the first one answered yes, if any.
pub open spec fn pick_first(cands: Seq<Seq<char>>, answers: Seq<bool>) -> Option<Seq<char>> {
    match first_true(answers) {
        Some(i) => Some(cands[i]),
        None => None,
    }
}

/// The answers of probing `n` candidates in order until one answers yes: no more than
/// `n`, every answer but the last one no, and short of `n` only when the last one is yes.
pub open spec fn lazy_answers(answers: Seq<bool>, n: int) -> bool {
    &&& answers.len() <= n
    &&& forall|i: int| 0 <= i < answers.len() - 1 ==> !#[trigger] answers[i]
    &&& answers.len() < n ==> answers.len() > 0 && answers.last()
}

/// Whether each of `paths` exists, asked in order until one does (the file system
/// answers each probe).
pub fn probe_in_order(paths: &Vec<String>) -> (r: Vec<bool>)
    ensures
        lazy_answers(r@, paths@.len() as int),
{
    let mut answers: Vec<bool> = Vec::new();
    let mut i: usize = 0;
    while i < paths.len()
        invariant
            i <= paths@.len(),
            answers@.len() == i,
            forall|j: int| 0 <= j < answers@.len() ==> !#[trigger] answers@[j],
        decreases paths.len() - i,
    {
        let found = path_exists(paths[i].as_str());
        answers.push(found);
        i = i + 1;
        if found {
            return answers;
        }
    }
    answers
}

/// The candidate picked from the probe answers `present` (the answers for the first
/// candidates, in order): the first one answered present, if any.
pub fn first_present(cands: &Vec<String>, present: &Vec<bool>) -> (r: Option<String>)
    requires
        present@.len() <= cands@.len(),
    ensures
        opt_view(r) == pick_first(string_views(cands@), present@),
        match first_true(present@) {
            Some(i) => r matches Some(c) && c@ == cands@[i]@,
            None => r is None,
        },
{
    proof {
        lemma_first_true(present@);
    }
    let mut i: usize = 0;
    while i < present.len()
        invariant
            i <= present@.len(),
            present@.len() <= cands@.len(),
            forall|j: int| 0 <= j < i ==> !present@[j],
            first_true(present@) is None <==> forall|j: int|
                0 <= j < present@.len() ==> !present@[j],
            first_true(present@) matches Some(k) ==> 0 <= k < present@.len() && present@[k]
                && forall|j: int| 0 <= j < k ==> !present@[j],
        decreases present.len() - i,
    {
        if present[i] {
            assert(first_true(present@) == Some(i as int));
            assert(string_views(cands@)[i as int] == cands@[i as int]@);
            return Some(cands[i].clone());
        }
        i = i + 1;
    }
    None
}

/// What the `bin` directory search answers on the probe answers `present`: the first
/// candidate answered present; when none was, a refusal listing every candidate.
pub open spec fn bin_dir_outcome(cands: Seq<Seq<char>>, present: Seq<bool>, r: Result<String, TilerError>) -> bool {
    match first_true(present) {
        Some(i) => r matches Ok(d) && d@ == cands[i],
        None => r matches Err(TilerError::GdalNotFound(t)) && t@ == join_with(cands, ", "@),
    }
}

/// The GDAL `bin` directory picked from the probe answers `present` (whether each of the
/// first candidates holds `gdalinfo`, in order): the first candidate answered present;
/// when none was, the refusal lists every candidate.
pub fn bin_dir_verdict(cands: &Vec<String>, present: &Vec<bool>) -> (r: Result<String, TilerError>)
    requires
        present@.len() <= cands@.len(),
    ensures
        bin_dir_outcome(string_views(cands@), present@, r),
{
    proof {
        lemma_first_true(present@);
    }
    match first_present(cands, present) {
        Some(d) => {
            proof {
                let k = first_true(present@)->0;
                assert(string_views(cands@)[k] == cands@[k]@);
            }
            Ok(d)
        },
        None => Err(TilerError::GdalNotFound(join_strings(cands, ", "))),
    }
}

/// The file probed in each candidate `bin` directory: the directory joined with
/// `gdalinfo` and the platform's executable suffix.
pub fn gdalinfo_probes(cands: &Vec<String>, exe_suffix: &str) -> (r: Vec<String>)
    requires
        exe_suffix_ok(exe_suffix@),
    ensures
        r@.len() == cands@.len(),
        forall|i: int| 0 <= i < r@.len() ==> joined(#[trigger] r@[i]@, cands@[i]@, "gdalinfo"@ + exe_suffix@),
{
    let gdalinfo = concat2("gdalinfo", exe_suffix);
    proof {
        reveal_strlit("gdalinfo");
        lemma_exe_plain("gdalinfo"@, exe_suffix@);
    }
    let mut out: Vec<String> = Vec::new();
    let mut i: usize = 0;
    while i < cands.len()
        invariant
            i <= cands@.len(),
            out@.len() == i,
            plain_name(gdalinfo@),
            gdalinfo@ == "gdalinfo"@ + exe_suffix@,
            forall|j: int| 0 <= j < i ==> joined(#[trigger] out@[j]@, cands@[j]@, gdalinfo@),
        decreases cands.len() - i,
    {
        out.push(path_join(cands[i].as_str(), gdalinfo.as_str()));
        i = i + 1;
    }
    out
}

/// Pick the GDAL `bin` directory: each candidate's `gdalinfo` (`gdalinfo_probes`) is
/// probed in order until one exists (the file system answers each probe), and
/// `bin_dir_verdict` decides from the answers: the first that holds it, else a refusal
/// listing every candidate.
pub fn find_bin_dir(cands: &Vec<String>, exe_suffix: &str) -> (r: Result<String, TilerError>)
    requires
        exe_suffix_ok(exe_suffix@),
    ensures
        exists|present: Seq<bool>|
            lazy_answers(present, cands@.len() as int) && bin_dir_outcome(
                string_views(cands@),
                present,
                r,
            ),
        match r {
            Ok(d) => string_views(cands@).contains(d@),
            Err(e) => e matches TilerError::GdalNotFound(t) && t@ == join_with(
                string_views(cands@),
                ", "@,
            ),
        },
{
    let probes = gdalinfo_probes(cands, exe_suffix);
    let present = probe_in_order(&probes);
    let r = bin_dir_verdict(cands, &present);
    proof {
        lemma_first_true(present@);
        if r is Ok {
            let k = first_true(present@)->0;
            assert(string_views(cands@)[k] == cands@[k]@);
        }
    }
    r
}

/// The first path of `cands` that exists now, if any: the candidates are probed in order
/// until one exists (the file system answers each probe), and `first_present` picks.
pub fn first_existing(cands: &Vec<String>) -> (r: Option<String>)
    ensures
        exists|present: Seq<bool>|
            lazy_answers(present, cands@.len() as int) && opt_view(r) == pick_first(
                string_views(cands@),
                present,
            ),
        r matches Some(c) ==> string_views(cands@).contains(c@),
{
    let present = probe_in_order(cands);
    let r = first_present(cands, &present);
    proof {
        lemma_first_true(present@);
        if r is Some {
            let k = first_true(present@)->0;
            assert(string_views(cands@)[k] == cands@[k]@);
        }
    }
    r
}

/// `base` joined with the plain names `a`, then `b`, then `c` (when given).
fn join3(base: &str, a: &str, b: &str, c: &str) -> (r: String)
    requires
        plain_name(a@),
        plain_name(b@),
        plain_name(c@),
    ensures
        path3(r@, base@, a@, b@, c@),
{
    let x = path_join(base, a);
    let y = path_join(x.as_str(), b);
    path_join(y.as_str(), c)
}

/// A `(name, value)` environment entry.
fn entry(name: &str, value: String) -> (r: (String, String))
    ensures
        r.0@ == name@,
        r.1@ == value@,
{
    (name.to_string(), value)
}

/// The character views of environment entries.
pub open spec fn env_views(env: Seq<(String, String)>) -> Seq<(Seq<char>, Seq<char>)> {
    env.map_values(|e: (String, String)| (e.0@, e.1@))
}

/// The `PATH` child processes get: the GDAL `bin` first, then the inherited `PATH`.
pub open spec fn child_path(bin_dir: Seq<char>, path_var: Seq<char>, windows: bool) -> Seq<char> {
    bin_dir + (if windows {
        ";"@
    } else {
        ":"@
    }) + path_var
}

/// The environment entries that do not depend on what is on disk.
pub open spec fn fixed_env(bin_dir: Seq<char>, path_var: Seq<char>, windows: bool) -> Seq<
    (Seq<char>, Seq<char>),
> {
    seq![
        ("USE_PATH_FOR_GDAL_PYTHON"@, "YES"@),
        ("PROJ_NETWORK"@, "OFF"@),
        ("PATH"@, child_path(bin_dir, path_var, windows)),
    ]
}

/// An optional environment entry.
pub open spec fn opt_entry(name: Seq<char>, value: Option<Seq<char>>) -> Seq<(Seq<char>, Seq<char>)> {
    match value {
        Some(v) => seq![(name, v)],
        None => Seq::empty(),
    }
}

/// Push an optional entry onto the environment.
fn push_opt_entry(env: &mut Vec<(String, String)>, name: &str, value: Option<String>)
    ensures
        env_views(final(env)@) == env_views(old(env)@) + opt_entry(
            name@,
            crate::text::opt_view(value),
        ),
{
    let ghost before = env_views(env@);
    match value {
        Some(v) => {
            let ghost vv = v@;
            env.push(entry(name, v));
            assert(env_views(env@) =~= before + seq![(name@, vv)]);
        },
        None => {
            assert(env_views(env@) =~= before + Seq::<(Seq<char>, Seq<char>)>::empty());
        },
    }
}

/// `r` is `base` joined with `a`, then `b`.
pub open spec fn path2(r: Seq<char>, base: Seq<char>, a: Seq<char>, b: Seq<char>) -> bool {
    exists|x: Seq<char>| joined(x, base, a) && joined(r, x, b)
}

/// `r` is `base` joined with `a`, `b`, then `c`.
pub open spec fn path3(r: Seq<char>, base: Seq<char>, a: Seq<char>, b: Seq<char>, c: Seq<char>) -> bool {
    exists|x: Seq<char>| joined(x, base, a) && path2(r, x, b, c)
}

/// `r` is `base` joined with `a`, `b`, `c`, then `d`.
pub open spec fn path4(r: Seq<char>, base: Seq<char>, a: Seq<char>, b: Seq<char>, c: Seq<char>, d: Seq<char>) -> bool {
    exists|x: Seq<char>| joined(x, base, a) && path3(r, x, b, c, d)
}

/// `q` is `p` or a proper prefix of it (what `Path::parent` gives, or the path itself).
pub open spec fn parent_or_self(q: Seq<char>, p: Seq<char>) -> bool {
    q == p || (q.len() < p.len() && p.take(q.len() as int) == q)
}

/// The `GDAL_DATA` candidates, in the order they are tried: the configured directory, then
/// `<prefix>/apps/gdal/share/gdal`, `<prefix>/share/gdal` (listed twice) and
/// `<bin>/../share/gdal`.
pub open spec fn data_cands(s: GdalSearch, prefix: Seq<char>, bin: Seq<char>, c: Seq<Seq<char>>) -> bool {
    let k: int = if s.gdal_data is Some { 1 } else { 0 };
    &&& c.len() == k + 4
    &&& (s.gdal_data matches Some(g) ==> c[0] == g@)
    &&& path4(c[k], prefix, "apps"@, "gdal"@, "share"@, "gdal"@)
    &&& exists|sh: Seq<char>|
        joined(sh, prefix, "share"@) && joined(c[k + 1], sh, "gdal"@) && joined(c[k + 2], sh, "gdal"@)
    &&& path3(c[k + 3], bin, ".."@, "share"@, "gdal"@)
}

/// The configured `PROJ_LIB` candidates, in order: `PROJ_LIB`, then `PROJ_DATA`, each when set.
pub open spec fn proj_configured(s: GdalSearch) -> Seq<Seq<char>> {
    (match s.proj_lib {
        Some(l) => seq![l@],
        None => Seq::empty(),
    }) + (match s.proj_data {
        Some(d) => seq![d@],
        None => Seq::empty(),
    })
}

/// The `PROJ_LIB` candidates, in the order they are tried: the configured ones, then
/// `<prefix>/share/proj`, `<prefix>/apps/proj/share/proj` and `<bin>/../share/proj`.
pub open spec fn proj_cands(s: GdalSearch, prefix: Seq<char>, bin: Seq<char>, c: Seq<Seq<char>>) -> bool {
    let k: int = proj_configured(s).len() as int;
    &&& c.len() == k + 3
    &&& c.take(k) == proj_configured(s)
    &&& path2(c[k], prefix, "share"@, "proj"@)
    &&& path4(c[k + 1], prefix, "apps"@, "proj"@, "share"@, "proj"@)
    &&& path3(c[k + 2], bin, ".."@, "share"@, "proj"@)
}

/// What is probed for each `PROJ_LIB` candidate: `proj.db` inside a configured one, a
/// derived one itself.
pub open spec fn proj_probes(c: Seq<Seq<char>>, k: int, q: Seq<Seq<char>>) -> bool {
    &&& q.len() == c.len()
    &&& forall|i: int| 0 <= i < k ==> joined(#[trigger] q[i], c[i], "proj.db"@)
    &&& forall|i: int| k <= i < c.len() ==> #[trigger] q[i] == c[i]
}

/// The interpreter candidates (homes `h`, interpreters `e`), in the order they are tried:
/// the configured interpreter (its home is its directory); on Windows each `apps/Python*`
/// directory's `python.exe`; `<root>/python/python[.exe]` where `root` is the prefix's
/// parent, when it has one; the `python[.exe]` of `PYTHONHOME`.
pub open spec fn python_cands(s: GdalSearch, prefix: Seq<char>, dirs: Seq<Seq<char>>, h: Seq<Seq<char>>, e: Seq<Seq<char>>) -> bool {
    let name = "python"@ + platform_exe_suffix(s.windows);
    let c: int = if s.python is Some { 1 } else { 0 };
    let w: int = if s.windows { dirs.len() as int } else { 0 };
    let p: int = if s.pythonhome is Some { 1 } else { 0 };
    &&& h.len() == e.len()
    &&& (h.len() == c + w + p || h.len() == c + w + 1 + p)
    &&& (s.python matches Some(q) ==> e[0] == q@ && parent_or_self(h[0], q@))
    &&& forall|i: int| 0 <= i < w ==> h[c + i] == #[trigger] dirs[i] && joined(e[c + i], dirs[i], name)
    &&& (h.len() == c + w + 1 + p ==> exists|root: Seq<char>|
        root.len() < prefix.len() && prefix.take(root.len() as int) == root && joined(
            h[c + w],
            root,
            "python"@,
        ) && joined(e[c + w], h[c + w], name))
    &&& (s.pythonhome matches Some(ph) ==> h[h.len() - 1] == ph@ && joined(
        e[e.len() - 1],
        ph@,
        name,
    ))
}

/// The `gdal2tiles` launcher candidates, in the order they are tried: on Windows each
/// `apps/Python*/Scripts/gdal2tiles.exe`, then `<bin>/gdal2tiles[.exe]`,
/// `<bin>/gdal2tiles.py` and `<bin>/gdal2tiles`.
pub open spec fn g2t_cands(windows: bool, dirs: Seq<Seq<char>>, bin: Seq<char>, g: Seq<Seq<char>>) -> bool {
    let name = "gdal2tiles"@ + platform_exe_suffix(windows);
    let w: int = if windows { dirs.len() as int } else { 0 };
    &&& g.len() == w + 3
    &&& forall|i: int| 0 <= i < w ==> path2(#[trigger] g[i], dirs[i], "Scripts"@, name)
    &&& joined(g[w], bin, name)
    &&& joined(g[w + 1], bin, "gdal2tiles.py"@)
    &&& joined(g[w + 2], bin, "gdal2tiles"@)
}

/// The launcher used when no `gdal2tiles` file was found: the bare name the platform's
/// shell resolves.
pub open spec fn bare_gdal2tiles(windows: bool) -> Seq<char> {
    if windows {
        "gdal2tiles.py"@
    } else {
        "gdal2tiles"@
    }
}

/// The `GDAL_DATA` candidates of an install (`data_cands`).
pub fn data_candidates(s: &GdalSearch, prefix: &str, bin_dir: &str) -> (r: Vec<String>)
    ensures
        data_cands(*s, prefix@, bin_dir@, string_views(r@)),
{
    proof {
        reveal_strlit("apps");
        reveal_strlit("gdal");
        reveal_strlit("share");
        reveal_strlit("..");
    }
    let mut c: Vec<String> = Vec::new();
    if let Some(d) = &s.gdal_data {
        c.push(d.clone());
    }
    let ghost k: int = c@.len() as int;
    let apps = path_join(prefix, "apps");
    let c0 = join3(apps.as_str(), "gdal", "share", "gdal");
    let sh = path_join(prefix, "share");
    let c1 = path_join(sh.as_str(), "gdal");
    let c2 = path_join(sh.as_str(), "gdal");
    let c3 = join3(bin_dir, "..", "share", "gdal");
    assert(path4(c0@, prefix@, "apps"@, "gdal"@, "share"@, "gdal"@));
    c.push(c0);
    c.push(c1);
    c.push(c2);
    c.push(c3);
    let ghost v = string_views(c@);
    assert(v[k] == c0@ && v[k + 1] == c1@ && v[k + 2] == c2@ && v[k + 3] == c3@);
    assert(s.gdal_data is Some ==> v[0] == c@[0]@);
    c
}

/// The `PROJ_LIB` candidates of an install (`proj_cands`) and what is probed for each
/// (`proj_probes`).
pub fn proj_candidates(s: &GdalSearch, prefix: &str, bin_dir: &str) -> (r: (Vec<String>, Vec<String>))
    ensures
        proj_cands(*s, prefix@, bin_dir@, string_views(r.0@)),
        proj_probes(string_views(r.0@), proj_configured(*s).len() as int, string_views(r.1@)),
{
    proof {
        reveal_strlit("apps");
        reveal_strlit("proj");
        reveal_strlit("share");
        reveal_strlit("..");
        reveal_strlit("proj.db");
    }
    let mut c: Vec<String> = Vec::new();
    let mut q: Vec<String> = Vec::new();
    if let Some(d) = &s.proj_lib {
        c.push(d.clone());
        q.push(path_join(d.as_str(), "proj.db"));
    }
    if let Some(d) = &s.proj_data {
        c.push(d.clone());
        q.push(path_join(d.as_str(), "proj.db"));
    }
    let ghost k: int = c@.len() as int;
    proof {
        assert(string_views(c@) =~= proj_configured(*s));
        assert forall|i: int| 0 <= i < k implies joined(#[trigger] string_views(q@)[i], string_views(c@)[i], "proj.db"@) by {
            if s.proj_lib is Some && i == 0 {
            } else {
                assert(c@[i]@ == s.proj_data->0@);
            }
        }
    }
    let ghost c_conf = c@;
    let ghost q_conf = q@;
    let sh = path_join(prefix, "share");
    let d0 = path_join(sh.as_str(), "proj");
    let apps = path_join(prefix, "apps");
    let d1 = join3(apps.as_str(), "proj", "share", "proj");
    let d2 = join3(bin_dir, "..", "share", "proj");
    assert(path2(d0@, prefix@, "share"@, "proj"@));
    assert(path4(d1@, prefix@, "apps"@, "proj"@, "share"@, "proj"@));
    c.push(d0.clone());
    c.push(d1.clone());
    c.push(d2.clone());
    q.push(d0);
    q.push(d1);
    q.push(d2);
    proof {
        let v = string_views(c@);
        let w = string_views(q@);
        assert(v.take(k as int) =~= string_views(c_conf));
        assert(v[k] == d0@ && v[k + 1] == d1@ && v[k + 2] == d2@);
        assert forall|i: int| 0 <= i < k implies joined(#[trigger] w[i], v[i], "proj.db"@) by {
            assert(w[i] == string_views(q_conf)[i] && v[i] == string_views(c_conf)[i]);
        }
        assert forall|i: int| k <= i < v.len() implies #[trigger] w[i] == v[i] by {}
    }
    (c, q)
}

/// The interpreter candidates of an install (`python_cands`).
pub fn python_candidates(s: &GdalSearch, prefix: &str, apps_python_dirs: &Vec<String>) -> (r: (Vec<String>, Vec<String>))
    ensures
        python_cands(*s, prefix@, string_views(apps_python_dirs@), string_views(r.0@), string_views(r.1@)),
{
    proof {
        reveal_strlit("python");
    }
    let suffix = exe_suffix_for(s.windows);
    let name = concat2("python", suffix.as_str());
    proof {
        lemma_exe_plain("python"@, suffix@);
    }
    let ghost dirs = string_views(apps_python_dirs@);
    let mut h: Vec<String> = Vec::new();
    let mut e: Vec<String> = Vec::new();
    if let Some(p) = &s.python {
        let home = match path_parent(p.as_str()) {
            Some(q) => q,
            None => p.clone(),
        };
        h.push(home);
        e.push(p.clone());
    }
    let ghost c = h@.len() as int;
    let ghost h0 = h@;
    let ghost e0 = e@;
    if s.windows {
        let mut i: usize = 0;
        while i < apps_python_dirs.len()
            invariant
                i <= apps_python_dirs@.len(),
                s.windows,
                plain_name(name@),
                name@ == "python"@ + platform_exe_suffix(s.windows),
                dirs == string_views(apps_python_dirs@),
                0 <= c <= 1,
                h@.len() == e@.len() == c + i,
                h@.take(c) == h0,
                e@.take(c) == e0,
                forall|j: int| 0 <= j < i ==> h@[c + j]@ == #[trigger] dirs[j] && joined(
                    e@[c + j]@,
                    dirs[j],
                    name@,
                ),
            decreases apps_python_dirs.len() - i,
        {
            let cand = path_join(apps_python_dirs[i].as_str(), name.as_str());
            proof {
                assert(dirs[i as int] == apps_python_dirs@[i as int]@);
            }
            let ghost hb = h@;
            let ghost eb = e@;
            h.push(apps_python_dirs[i].clone());
            e.push(cand);
            proof {
                assert(h@.take(c) =~= hb.take(c));
                assert(e@.take(c) =~= eb.take(c));
                assert forall|j: int| 0 <= j < i implies h@[c + j]@ == #[trigger] dirs[j] && joined(
                    e@[c + j]@,
                    dirs[j],
                    name@,
                ) by {
                    assert(h@[c + j] == hb[c + j] && e@[c + j] == eb[c + j]);
                }
            }
            i = i + 1;
        }
    }
    let ghost w: int = h@.len() as int - c;
    let ghost h1 = h@;
    let ghost e1 = e@;
    if let Some(root) = path_parent(prefix) {
        let home = path_join(root.as_str(), "python");
        let cand = path_join(home.as_str(), name.as_str());
        h.push(home);
        e.push(cand);
    }
    let ghost h2 = h@;
    let ghost e2 = e@;
    if let Some(ph) = &s.pythonhome {
        let cand = path_join(ph.as_str(), name.as_str());
        h.push(ph.clone());
        e.push(cand);
    }
    proof {
        let hv = string_views(h@);
        let ev = string_views(e@);
        assert(w == (if s.windows { dirs.len() as int } else { 0 }));
        assert forall|j: int| 0 <= j < h1.len() implies h@[j] == h1[j] && e@[j] == e1[j] by {
            assert(h2[j] == h1[j] && e2[j] == e1[j]);
        }
        if s.python is Some {
            assert(h1[0] == h0[0] && e1[0] == e0[0]);
            assert(hv[0] == h@[0]@ && ev[0] == e@[0]@);
        }
        assert forall|j: int| 0 <= j < w implies hv[c + j] == #[trigger] dirs[j] && joined(
            ev[c + j],
            dirs[j],
            name@,
        ) by {
            assert(hv[c + j] == h@[c + j]@ && ev[c + j] == e@[c + j]@);
            assert(h@[c + j] == h1[c + j]);
        }
        if h@.len() == c + w + 1 + (if s.pythonhome is Some { 1int } else { 0 }) {
            assert(hv[c + w] == h2[c + w]@ && ev[c + w] == e2[c + w]@);
        }
    }
    (h, e)
}

/// The `gdal2tiles` launcher candidates of an install (`g2t_cands`).
pub fn g2t_candidates(windows: bool, apps_python_dirs: &Vec<String>, bin_dir: &str) -> (r: Vec<String>)
    ensures
        g2t_cands(windows, string_views(apps_python_dirs@), bin_dir@, string_views(r@)),
{
    proof {
        reveal_strlit("gdal2tiles");
        reveal_strlit("gdal2tiles.py");
        reveal_strlit("Scripts");
    }
    let suffix = exe_suffix_for(windows);
    let name = concat2("gdal2tiles", suffix.as_str());
    proof {
        lemma_exe_plain("gdal2tiles"@, suffix@);
    }
    let ghost dirs = string_views(apps_python_dirs@);
    let mut g: Vec<String> = Vec::new();
    if windows {
        let mut i: usize = 0;
        while i < apps_python_dirs.len()
            invariant
                i <= apps_python_dirs@.len(),
                plain_name(name@),
                name@ == "gdal2tiles"@ + platform_exe_suffix(windows),
                dirs == string_views(apps_python_dirs@),
                g@.len() == i,
                forall|j: int| 0 <= j < i ==> path2(#[trigger] g@[j]@, dirs[j], "Scripts"@, name@),
            decreases apps_python_dirs.len() - i,
        {
            proof {
                reveal_strlit("Scripts");
                assert(dirs[i as int] == apps_python_dirs@[i as int]@);
            }
            let sc = path_join(apps_python_dirs[i].as_str(), "Scripts");
            g.push(path_join(sc.as_str(), name.as_str()));
            i = i + 1;
        }
    }
    let ghost w = g@.len() as int;
    g.push(path_join(bin_dir, name.as_str()));
    g.push(path_join(bin_dir, "gdal2tiles.py"));
    g.push(path_join(bin_dir, "gdal2tiles"));
    proof {
        let v = string_views(g@);
        assert forall|j: int| 0 <= j < w implies path2(#[trigger] v[j], dirs[j], "Scripts"@, name@) by {
            assert(v[j] == g@[j]@);
        }
        assert(v[w] == g@[w]@ && v[w + 1] == g@[w + 1]@ && v[w + 2] == g@[w + 2]@);
    }
    g
}

/// Complete the description of a GDAL install found at `bin_dir`. `apps_python_dirs`
/// are the `Python*` directories under `<prefix>/apps` (consulted on Windows); the prefix
/// is `bin_dir`'s parent, or `bin_dir` itself. Each search lists its candidates in a fixed
/// order (`data_cands`, `proj_cands`, `python_cands`, `g2t_cands`), probes them in that
/// order until one answers yes (the file system answers), and takes the first one
/// answered yes: `GDAL_DATA`, `PROJ_LIB` and `PYTHONHOME` are set from those picks, then
/// the fixed entries; the launcher falls back to the bare `gdal2tiles` name.
#[verifier::rlimit(40)]
pub fn discover_with(s: &GdalSearch, bin_dir: String, apps_python_dirs: &Vec<String>) -> (r: GdalEnv)
    ensures
        r.bin_dir@ == bin_dir@,
        r.exe_suffix@ == platform_exe_suffix(s.windows),
        exists|prefix: Seq<char>| {
            &&& parent_or_self(prefix, bin_dir@)
            &&& exists|dc: Seq<Seq<char>>, da: Seq<bool>, pc: Seq<Seq<char>>, pa: Seq<bool>|
                {
                    &&& data_cands(*s, prefix, bin_dir@, dc)
                    &&& lazy_answers(da, dc.len() as int)
                    &&& proj_cands(*s, prefix, bin_dir@, pc)
                    &&& lazy_answers(pa, pc.len() as int)
                    &&& exists|ph: Seq<Seq<char>>, pe: Seq<Seq<char>>, pya: Seq<bool>|
                        {
                            &&& python_cands(*s, prefix, string_views(apps_python_dirs@), ph, pe)
                            &&& lazy_answers(pya, pe.len() as int)
                            &&& opt_view(r.python) == pick_first(pe, pya)
                            &&& env_views(r.env@) == opt_entry("GDAL_DATA"@, pick_first(dc, da))
                                + opt_entry("PROJ_LIB"@, pick_first(pc, pa)) + opt_entry(
                                "PYTHONHOME"@,
                                pick_first(ph, pya),
                            ) + fixed_env(bin_dir@, s.path_var@, s.windows)
                        }
                }
        },
        exists|gc: Seq<Seq<char>>, ga: Seq<bool>|
            {
                &&& g2t_cands(s.windows, string_views(apps_python_dirs@), bin_dir@, gc)
                &&& lazy_answers(ga, gc.len() as int)
                &&& r.gdal2tiles@ == match pick_first(gc, ga) {
                    Some(x) => x,
                    None => bare_gdal2tiles(s.windows),
                }
            },
{
    let suffix = exe_suffix_for(s.windows);
    let prefix = match path_parent(bin_dir.as_str()) {
        Some(p) => p,
        None => bin_dir.clone(),
    };
    // GDAL_DATA: the configured directory when it exists, else one derived from the prefix.
    let dc = data_candidates(s, prefix.as_str(), bin_dir.as_str());
    let da = probe_in_order(&dc);
    let gdal_data = first_present(&dc, &da);
    // PROJ_LIB: the first of PROJ_LIB / PROJ_DATA holding proj.db, else from the prefix.
    let (pc, pq) = proj_candidates(s, prefix.as_str(), bin_dir.as_str());
    let pa = probe_in_order(&pq);
    let proj_lib = first_present(&pc, &pa);
    // A Python interpreter for gdal2tiles, and its home.
    let (ph, pe) = python_candidates(s, prefix.as_str(), apps_python_dirs);
    let pya = probe_in_order(&pe);
    let home = first_present(&ph, &pya);
    let python = first_present(&pe, &pya);
    // The gdal2tiles launcher, used only when no interpreter was found.
    let gc = g2t_candidates(s.windows, apps_python_dirs, bin_dir.as_str());
    let ga = probe_in_order(&gc);
    let picked = first_present(&gc, &ga);
    proof {
        reveal_strlit("gdal2tiles");
        reveal_strlit("gdal2tiles.py");
    }
    let gdal2tiles = match picked {
        Some(x) => x,
        None => if s.windows {
            "gdal2tiles.py".to_string()
        } else {
            "gdal2tiles".to_string()
        },
    };
    let ghost data_v = opt_view(gdal_data);
    let ghost proj_v = opt_view(proj_lib);
    let ghost home_v = opt_view(home);
    let mut env: Vec<(String, String)> = Vec::new();
    push_opt_entry(&mut env, "GDAL_DATA", gdal_data);
    push_opt_entry(&mut env, "PROJ_LIB", proj_lib);
    push_opt_entry(&mut env, "PYTHONHOME", home);
    let ghost before = env_views(env@);
    env.push(entry("USE_PATH_FOR_GDAL_PYTHON", "YES".to_string()));
    env.push(entry("PROJ_NETWORK", "OFF".to_string()));
    let sep = if s.windows {
        ";"
    } else {
        ":"
    };
    let with_sep = concat2(bin_dir.as_str(), sep);
    let path = concat2(with_sep.as_str(), s.path_var.as_str());
    env.push(entry("PATH", path));
    proof {
        reveal_strlit("YES");
        reveal_strlit("OFF");
        reveal_strlit(";");
        reveal_strlit(":");
        assert(env_views(env@) =~= before + fixed_env(bin_dir@, s.path_var@, s.windows));
        assert(parent_or_self(prefix@, bin_dir@));
        assert(string_views(pc@).len() == string_views(pq@).len());
    }
    GdalEnv { bin_dir, gdal2tiles, python, env, exe_suffix: suffix }
}

// ---------------------------------------------------------------------------
// running tools
// ---------------------------------------------------------------------------

/// The predicate "is an ASCII digit".
pub open spec fn digit_pred() -> spec_fn(char) -> bool {
    |c: char| is_digit(c)
}

/// The predicate "is not an ASCII digit".
pub open spec fn non_digit_pred() -> spec_fn(char) -> bool {
    |c: char| !is_digit(c)
}

/// The value of the last run of ASCII digits in `s` that is at most 100: GDAL prints its
/// progress as `0...10...20...` and the last such number is the current percentage.
pub open spec fn last_percent(s: Seq<char>) -> Option<nat>
    decreases s.len(),
{
    let t = s.take(s.len() - trail_count(s, non_digit_pred()));
    let run = trail_count(t, digit_pred());
    if trail_count(s, non_digit_pred()) > s.len() || run == 0 || run > t.len() {
        None
    } else if digits_value(t.skip(t.len() - run)) <= 100 {
        Some(digits_value(t.skip(t.len() - run)))
    } else {
        last_percent(t.take(t.len() - run))
    }
}

/// Best-effort parse of the trailing GDAL dotted-progress percentage of a line.
pub fn parse_progress_percent(line: &str) -> (r: Option<u32>)
    ensures
        r is None <==> last_percent(line@) is None,
        r matches Some(v) ==> last_percent(line@) == Some(v as nat),
{
    let s = chars_of(line);
    let mut i = s.len();
    assert(s@.take(i as int) =~= s@);
    loop
        invariant
            i <= s@.len(),
            s@ == line@,
            last_percent(line@) == last_percent(s@.take(i as int)),
        decreases i,
    {
        let ghost u = s@.take(i as int);
        let mut k = i;
        while k > 0 && !is_digit_exec(s[k - 1])
            invariant
                k <= i <= s@.len(),
                forall|j: int| k <= j < i ==> !is_digit(#[trigger] s@[j]),
            decreases k,
        {
            k = k - 1;
        }
        proof {
            assert forall|j: int| k <= j < u.len() implies #[trigger] non_digit_pred()(u[j]) by {
                assert(u[j] == s@[j]);
            }
            if k > 0 {
                assert(u[k - 1] == s@[k - 1]);
            }
            lemma_trail_count_unique(u, non_digit_pred(), k as int);
        }
        let ghost t = u.take(k as int);
        assert(t =~= s@.take(k as int));
        if k == 0 {
            assert(trail_count(t, digit_pred()) == 0);
            return None;
        }
        let mut j = k;
        while j > 0 && is_digit_exec(s[j - 1])
            invariant
                j <= k <= s@.len(),
                forall|m: int| j <= m < k ==> is_digit(#[trigger] s@[m]),
            decreases j,
        {
            j = j - 1;
        }
        proof {
            assert forall|m: int| j <= m < t.len() implies #[trigger] digit_pred()(t[m]) by {
                assert(t[m] == s@[m]);
            }
            if j > 0 {
                assert(t[j - 1] == s@[j - 1]);
            }
            assert(t[k - 1] == s@[k - 1]);
            lemma_trail_count_unique(t, digit_pred(), j as int);
            assert(t.skip(j as int) =~= s@.subrange(j as int, k as int));
            assert(t.take(j as int) =~= s@.take(j as int));
            assert(all_digits(s@.subrange(j as int, k as int))) by {
                assert forall|m: int| 0 <= m < k - j implies is_digit(
                    #[trigger] s@.subrange(j as int, k as int)[m],
                ) by {
                    assert(s@.subrange(j as int, k as int)[m] == s@[j + m]);
                }
            }
        }
        let v = digits_value_capped(&s, j, k, 101);
        if v <= 100 {
            return Some(v as u32);
        }
        i = j;
    }
}

/// The most output lines a failed command reports.
pub const TAIL_LINES: usize = 40;

/// The last `n` items of `s` (all of them when there are fewer).
pub open spec fn keep_last<A>(s: Seq<A>, n: nat) -> Seq<A> {
    if s.len() > n {
        s.skip(s.len() - n)
    } else {
        s
    }
}

/// The tail of a command's output kept for its error report.
pub struct OutputTail {
    pub lines: Vec<String>,
}

impl OutputTail {
    /// An empty tail.
    pub fn new() -> (r: Self)
        ensures
            r.lines@.len() == 0,
    {
        OutputTail { lines: Vec::new() }
    }

    /// Record one more output line, dropping the oldest beyond the last 40.
    pub fn push(&mut self, line: String)
        requires
            old(self).lines@.len() <= TAIL_LINES,
        ensures
            final(self).lines@.len() <= TAIL_LINES,
            string_views(final(self).lines@) == keep_last(
                string_views(old(self).lines@).push(line@),
                TAIL_LINES as nat,
            ),
    {
        let ghost before = string_views(self.lines@);
        let ghost lv = line@;
        if self.lines.len() >= TAIL_LINES {
            self.lines.remove(0);
        }
        push_owned(&mut self.lines, line);
        assert(string_views(self.lines@) =~= keep_last(before.push(lv), TAIL_LINES as nat));
    }
}

/// Law: a tail that kept the last 40 of the lines so far keeps, after one more line, the
/// last 40 of all the lines.
pub proof fn tail_keeps_last_lines(seen: Seq<Seq<char>>, line: Seq<char>)
    ensures
        keep_last(keep_last(seen, TAIL_LINES as nat).push(line), TAIL_LINES as nat) == keep_last(
            seen.push(line),
            TAIL_LINES as nat,
        ),
{
    let n = TAIL_LINES as nat;
    let k = keep_last(seen, n);
    assert(keep_last(k.push(line), n) =~= keep_last(seen.push(line), n));
}

/// The failure of a command: the command line, its exit status, and its output.
pub fn command_failed(program: &str, args: &Vec<String>, status: String, output: String) -> (r: TilerError)
    ensures
        r matches TilerError::CommandFailed { cmd, status: st, stderr } && cmd@ == program@
            + " "@ + join_with(string_views(args@), " "@) && st@ == status@ && stderr@ == output@,
{
    let joined_args = join_strings(args, " ");
    let with_space = concat2(program, " ");
    let cmd = concat2(with_space.as_str(), joined_args.as_str());
    proof {
        reveal_strlit(" ");
    }
    TilerError::CommandFailed { cmd, status, stderr: output }
}

// ---------------------------------------------------------------------------
// a GDAL bundled with the app
// ---------------------------------------------------------------------------

/// What the settings of a bundled GDAL say: the `bin` and prefix directories
/// (`<dir>/gdal/bin`, `<dir>/gdal`), then, when `r` has three entries, the interpreter
/// `<dir>/python/python[.exe]`.
pub open spec fn bundled_settings_shape(r: Seq<(String, String)>, exe_dir: Seq<char>, windows: bool) -> bool {
    &&& r.len() >= 2 ==> {
        &&& r[0].0@ == "MARTIN_GDAL_BIN"@
        &&& r[1].0@ == "MARTIN_GDAL_PREFIX"@
        &&& joined(r[1].1@, exe_dir, "gdal"@)
        &&& joined(r[0].1@, r[1].1@, "bin"@)
    }
    &&& r.len() == 3 ==> r[2].0@ == "MARTIN_GDAL_PYTHON"@ && exists|py: Seq<char>|
        joined(py, exe_dir, "python"@) && joined(r[2].1@, py, "python"@ + platform_exe_suffix(windows))
}

/// The settings that point discovery at a GDAL bundled beside the executable in
/// `exe_dir`, given whether the bundle's `gdalinfo` was found and whether its interpreter
/// was: none without `gdalinfo`; the `bin` and prefix directories, then the interpreter
/// when it was found.
pub fn bundled_settings_for(exe_dir: &str, windows: bool, gdal_found: bool, python_found: bool) -> (r: Vec<(String, String)>)
    ensures
        r@.len() == (if !gdal_found { 0int } else if python_found { 3int } else { 2int }),
        bundled_settings_shape(r@, exe_dir@, windows),
{
    proof {
        reveal_strlit("gdal");
        reveal_strlit("bin");
        reveal_strlit("python");
    }
    let mut out: Vec<(String, String)> = Vec::new();
    if !gdal_found {
        return out;
    }
    let suffix = exe_suffix_for(windows);
    proof {
        lemma_exe_plain("python"@, suffix@);
    }
    let prefix = path_join(exe_dir, "gdal");
    let bin = path_join(prefix.as_str(), "bin");
    out.push(entry("MARTIN_GDAL_BIN", bin));
    out.push(entry("MARTIN_GDAL_PREFIX", prefix));
    if python_found {
        let pd = path_join(exe_dir, "python");
        let pn = concat2("python", suffix.as_str());
        let py = path_join(pd.as_str(), pn.as_str());
        assert(joined(pd@, exe_dir@, "python"@) && joined(py@, pd@, "python"@ + suffix@));
        out.push(entry("MARTIN_GDAL_PYTHON", py));
    }
    out
}

/// The settings that point discovery at a GDAL bundled beside the executable: the
/// bundle's `gdalinfo` (`<dir>/gdal/bin/gdalinfo[.exe]`) is probed, then, when it exists,
/// the interpreter (`<dir>/python/python[.exe]`); the file system answers each probe and
/// `bundled_settings_for` turns the answers into settings.
pub fn bundled_gdal_settings(exe_dir: &str, windows: bool) -> (r: Vec<(String, String)>)
    ensures
        r@.len() == 0 || r@.len() == 2 || r@.len() == 3,
        bundled_settings_shape(r@, exe_dir@, windows),
{
    proof {
        reveal_strlit("gdal");
        reveal_strlit("bin");
        reveal_strlit("python");
        reveal_strlit("gdalinfo");
    }
    let suffix = exe_suffix_for(windows);
    let prefix = path_join(exe_dir, "gdal");
    let bin = path_join(prefix.as_str(), "bin");
    let gi = concat2("gdalinfo", suffix.as_str());
    proof {
        lemma_exe_plain("gdalinfo"@, suffix@);
        lemma_exe_plain("python"@, suffix@);
    }
    let probe = path_join(bin.as_str(), gi.as_str());
    if !path_exists(probe.as_str()) {
        return bundled_settings_for(exe_dir, windows, false, false);
    }
    let pd = path_join(exe_dir, "python");
    let pn = concat2("python", suffix.as_str());
    let py = path_join(pd.as_str(), pn.as_str());
    let python_found = path_exists(py.as_str());
    bundled_settings_for(exe_dir, windows, true, python_found)
}

} // verus!
