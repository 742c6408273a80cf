//! Lifecycle of the app's bundled PostgreSQL + PostGIS cluster: where its files are,
//! the command lines of `initdb`, `pg_ctl`, `psql` and `createdb`, the configuration
//! appended once, and the decisions of bringing the cluster online, written as steps
//! that the caller runs one at a time (it runs each command and reports the outcome).

use vstd::prelude::*;
use crate::crs::{to_lowercase, unicode_lowercase};
use crate::paths::{joined, normal_name, path_is_file, path_join, plain_abs_dir, plain_name, sibling_path};
use crate::pgconfig::{ConnFields, PgConnection};
use crate::pgsql::sql_lit_spec;
use crate::text::{
    chars_of, concat2, contains_seq, contains_str, decimal, push_arg, push_decimal, push_owned,
    push_str, starts_with, starts_with_str, string_of, string_views, trim_ws, trim_ws_vec,
};

verus! {

/// Resolved paths of the bundled cluster.
pub struct PgEmbed {
    /// The portable PostgreSQL install (`bin`, `lib`, `share`).
    pub root: String,
    /// Its `bin` directory.
    pub bin: String,
    /// The data cluster directory (created by `initdb`).
    pub data: String,
    /// PROJ search directory (holds `proj.db`) so `ST_Transform` can reproject.
    pub proj_lib: String,
}

/// A directory of the extension directory that may hold PostGIS's PROJ data: a plain name
/// starting with `postgis-`.
pub open spec fn postgis_dir(n: Seq<char>) -> bool {
    starts_with(n, "postgis-"@) && plain_name(n)
}

/// What a PROJ directory picked among `ext_dirs` under `ext_root` may be: `<d>/proj` of
/// some `postgis-*` directory `d`, or `postgis-3.6/proj`.
pub open spec fn proj_lib_shape(r: Seq<char>, ext_root: Seq<char>, ext_dirs: Seq<String>) -> bool {
    (exists|i: int, d: Seq<char>|
        0 <= i < ext_dirs.len() && starts_with(ext_dirs[i]@, "postgis-"@) && joined(
            d,
            ext_root,
            ext_dirs[i]@,
        ) && joined(r, d, "proj"@)) || exists|d: Seq<char>|
        joined(d, ext_root, "postgis-3.6"@) && joined(r, d, "proj"@)
}

/// The PROJ directory picked from the answers `holds` (whether each of the first
/// directories holds `proj/proj.db`): `<d>/proj` of the first directory answered yes,
/// else `postgis-3.6/proj`.
pub open spec fn proj_lib_outcome(ext_root: Seq<char>, dirs: Seq<Seq<char>>, holds: Seq<bool>, r: Seq<char>) -> bool {
    match crate::gdalenv::first_true(holds) {
        Some(i) => exists|d: Seq<char>| joined(d, ext_root, dirs[i]) && joined(r, d, "proj"@),
        None => exists|d: Seq<char>| joined(d, ext_root, "postgis-3.6"@) && joined(r, d, "proj"@),
    }
}

/// The PROJ directory picked from the answers `holds` (whether `<d>/proj/proj.db` is a file,
/// for the first directories `d` of `ext_dirs`, in order; only `postgis-*` directories are
/// asked): that of the first directory answered yes, else `postgis-3.6/proj`.
pub fn proj_lib_choice(ext_root: &str, ext_dirs: &Vec<String>, holds: &Vec<bool>) -> (r: String)
    requires
        holds@.len() <= ext_dirs@.len(),
        forall|i: int| 0 <= i < holds@.len() && #[trigger] holds@[i] ==> postgis_dir(ext_dirs@[i]@),
    ensures
        proj_lib_outcome(ext_root@, string_views(ext_dirs@), holds@, r@),
{
    proof {
        reveal_strlit("proj");
        reveal_strlit("postgis-3.6");
        crate::gdalenv::lemma_first_true(holds@);
    }
    match crate::gdalenv::first_present(ext_dirs, holds) {
        Some(name) => {
            let ghost k = crate::gdalenv::first_true(holds@)->0;
            assert(postgis_dir(ext_dirs@[k]@));
            assert(string_views(ext_dirs@)[k] == ext_dirs@[k]@);
            let d = path_join(ext_root, name.as_str());
            path_join(d.as_str(), "proj")
        },
        None => {
            let d = path_join(ext_root, "postgis-3.6");
            path_join(d.as_str(), "proj")
        },
    }
}

/// The PROJ directory of the PostGIS install under `ext_root` (the install's `share`
/// extension directory): each `postgis-*` directory among `ext_dirs` is asked in turn
/// whether its `proj` holds `proj.db` (the file system answers), and `proj_lib_choice`
/// picks from the answers.
pub fn find_proj_lib(ext_root: &str, ext_dirs: &Vec<String>) -> (r: String)
    ensures
        exists|holds: Seq<bool>|
            crate::gdalenv::lazy_answers(holds, ext_dirs@.len() as int) && (forall|i: int|
                0 <= i < holds.len() && #[trigger] holds[i] ==> postgis_dir(ext_dirs@[i]@))
                && proj_lib_outcome(ext_root@, string_views(ext_dirs@), holds, r@),
        proj_lib_shape(r@, ext_root@, ext_dirs@),
{
    proof {
        reveal_strlit("proj");
        reveal_strlit("proj.db");
        reveal_strlit("postgis-");
    }
    let mut holds: Vec<bool> = Vec::new();
    let mut i: usize = 0;
    while i < ext_dirs.len()
        invariant_except_break
            forall|j: int| 0 <= j < holds@.len() ==> !#[trigger] holds@[j],
        invariant
            i <= ext_dirs@.len(),
            holds@.len() == i,
            forall|j: int| 0 <= j < holds@.len() && #[trigger] holds@[j] ==> postgis_dir(
                ext_dirs@[j]@,
            ),
        ensures
            crate::gdalenv::lazy_answers(holds@, ext_dirs@.len() as int),
        decreases ext_dirs.len() - i,
    {
        let name = ext_dirs[i].as_str();
        let nv = chars_of(name);
        proof {
            reveal_strlit("proj");
            reveal_strlit("proj.db");
            reveal_strlit("postgis-");
        }
        let mut found = false;
        if starts_with_str(&nv, "postgis-") && is_plain(name) {
            let d = path_join(ext_root, name);
            let proj = path_join(d.as_str(), "proj");
            let db = path_join(proj.as_str(), "proj.db");
            found = path_is_file(db.as_str());
        }
        let ghost before = holds@;
        holds.push(found);
        i = i + 1;
        if found {
            proof {
                assert forall|j: int| 0 <= j < holds@.len() - 1 implies !#[trigger] holds@[j] by {
                    assert(holds@[j] == before[j]);
                }
            }
            break;
        }
    }
    let r = proj_lib_choice(ext_root, ext_dirs, &holds);
    proof {
        crate::gdalenv::lemma_first_true(holds@);
        if let Some(k) = crate::gdalenv::first_true(holds@) {
            assert(postgis_dir(ext_dirs@[k]@));
        }
    }
    r
}

/// Whether a directory entry's name is a plain name (no separator or drive colon).
fn is_plain(name: &str) -> (r: bool)
    ensures
        r == plain_name(name@),
{
    let v = chars_of(name);
    let mut i: usize = 0;
    while i < v.len()
        invariant
            i <= v@.len(),
            v@ == name@,
            forall|k: int| 0 <= k < i ==> #[trigger] v@[k] != '/' && v@[k] != '\\' && v@[k] != ':',
        decreases v.len() - i,
    {
        if v[i] == '/' || v[i] == '\\' || v[i] == ':' {
            assert(!plain_name(name@)) by {
                assert(name@[i as int] == v@[i as int]);
            }
            return false;
        }
        i = i + 1;
    }
    v.len() > 0
}

impl PgEmbed {
    /// Resolve the paths from the portable install root, the data directory, and the
    /// install's `share` extension directory with the directories in it: the PROJ
    /// directory is the `proj` of the first `postgis-*` directory whose `proj/proj.db` is a
    /// file (asked in order, as `find_proj_lib` does), else `postgis-3.6/proj`.
    pub fn new(root: String, data: String, ext_root: &str, ext_dirs: &Vec<String>) -> (r: Self)
        ensures
            r.root == root,
            r.data == data,
            joined(r.bin@, root@, "bin"@),
            exists|holds: Seq<bool>|
                crate::gdalenv::lazy_answers(holds, ext_dirs@.len() as int) && (forall|i: int|
                    0 <= i < holds.len() && #[trigger] holds[i] ==> postgis_dir(ext_dirs@[i]@))
                    && proj_lib_outcome(ext_root@, string_views(ext_dirs@), holds, r.proj_lib@),
            proj_lib_shape(r.proj_lib@, ext_root@, ext_dirs@),
    {
        proof {
            reveal_strlit("bin");
        }
        let bin = path_join(root.as_str(), "bin");
        let proj_lib = find_proj_lib(ext_root, ext_dirs);
        PgEmbed { root, bin, data, proj_lib }
    }

    /// The files that show the bundled binaries are present, in the order they are
    /// asked: `bin/postgres.exe`, then `bin/postgres`.
    pub fn postgres_binaries(&self) -> (r: Vec<String>)
        ensures
            r@.len() == 2,
            joined(r@[0]@, self.bin@, "postgres.exe"@),
            joined(r@[1]@, self.bin@, "postgres"@),
    {
        proof {
            reveal_strlit("postgres.exe");
            reveal_strlit("postgres");
        }
        let mut v: Vec<String> = Vec::new();
        v.push(path_join(self.bin.as_str(), "postgres.exe"));
        v.push(path_join(self.bin.as_str(), "postgres"));
        v
    }

    /// The file that shows the data cluster has been initialised: `data/PG_VERSION`.
    pub fn pg_version_file(&self) -> (r: String)
        ensures
            joined(r@, self.data@, "PG_VERSION"@),
    {
        proof {
            reveal_strlit("PG_VERSION");
        }
        path_join(self.data.as_str(), "PG_VERSION")
    }

    /// Whether the bundled binaries are present: the files of `postgres_binaries` are
    /// asked in order whether they are regular files (the file system answers), and the
    /// answer is yes when one of them is.
    pub fn binaries_present(&self) -> (r: bool)
        ensures
            exists|answers: Seq<bool>|
                crate::gdalenv::lazy_answers(answers, 2) && r == (crate::gdalenv::first_true(
                    answers,
                ) is Some),
    {
        let files = self.postgres_binaries();
        let answers = files_in_order(&files);
        any_yes(&answers)
    }

    /// Whether the data cluster has been initialised: whether `pg_version_file` is a
    /// regular file (the file system answers).
    pub fn is_initialized(&self) -> (r: bool)
        ensures
            exists|answers: Seq<bool>|
                crate::gdalenv::lazy_answers(answers, 1) && r == (crate::gdalenv::first_true(
                    answers,
                ) is Some),
    {
        let mut files: Vec<String> = Vec::new();
        files.push(self.pg_version_file());
        let answers = files_in_order(&files);
        any_yes(&answers)
    }
}

/// Whether each of `paths` is a regular file, asked in order until one is (the file
/// system answers each probe).
pub fn files_in_order(paths: &Vec<String>) -> (r: Vec<bool>)
    ensures
        crate::gdalenv::lazy_answers(r@, paths@.len() as int),
{
    let mut answers: Vec<bool> = Vec::new();
    let mut i: usize = 0;
    while i < paths.len()
        invariant
            i <= paths@.len(),
            answers@.len() == i,
            forall|j: int| 0 <= j < answers@.len() ==> !#[trigger] answers@[j],
        decreases paths.len() - i,
    {
        let found = path_is_file(paths[i].as_str());
        answers.push(found);
        i = i + 1;
        if found {
            return answers;
        }
    }
    answers
}

/// Whether some answer is yes.
pub fn any_yes(answers: &Vec<bool>) -> (r: bool)
    ensures
        r == (crate::gdalenv::first_true(answers@) is Some),
{
    proof {
        crate::gdalenv::lemma_first_true(answers@);
    }
    let mut i: usize = 0;
    while i < answers.len()
        invariant
            i <= answers@.len(),
            forall|j: int| 0 <= j < i ==> !answers@[j],
            crate::gdalenv::first_true(answers@) is None <==> forall|j: int|
                0 <= j < answers@.len() ==> !answers@[j],
        decreases answers.len() - i,
    {
        if answers[i] {
            assert(answers@[i as int]);
            return true;
        }
        i = i + 1;
    }
    false
}

/// The data directory beside the maps directory: `<parent of maps>/pgdata`.
pub fn default_data_dir(maps_dir: &str) -> (r: String)
    ensures
        exists|d: Seq<char>|
            (d == maps_dir@ || (d.len() < maps_dir@.len() && maps_dir@.take(d.len() as int) == d))
                && joined(r@, d, "pgdata"@),
        maps_dir@ == seq!['/'] ==> r@ == seq!['/'] + "pgdata"@,
        (maps_dir@.len() >= 2 && maps_dir@[0] == '/' && normal_name(maps_dir@.skip(1))) ==> r@
            == seq!['/'] + "pgdata"@,
        forall|k: int|
            0 < k < maps_dir@.len() && #[trigger] maps_dir@[k] == '/' && plain_abs_dir(
                maps_dir@.take(k),
            ) && normal_name(maps_dir@.skip(k + 1)) ==> joined(r@, maps_dir@.take(k), "pgdata"@),
{
    proof {
        reveal_strlit("pgdata");
    }
    sibling_path(maps_dir, "pgdata")
}

// ---------------------------------------------------------------------------
// configuration
// ---------------------------------------------------------------------------

/// The marker of the settings the app appends to `postgresql.conf`.
pub open spec fn conf_marker() -> Seq<char> {
    "# map-tile-studio"@
}

/// The settings appended to `postgresql.conf`: port, loopback only, 50 connections.
pub open spec fn conf_extra(port: u16) -> Seq<char> {
    "\n# map-tile-studio\nport = "@ + decimal(port as nat)
        + "\nlisten_addresses = '127.0.0.1'\nmax_connections = 50\n"@
}

/// The new `postgresql.conf` text, or `None` when the settings are there already (the
/// settings are appended once).
pub fn configured_conf(body: &str, port: u16) -> (r: Option<String>)
    ensures
        contains_seq(body@, conf_marker()) ==> r is None,
        !contains_seq(body@, conf_marker()) ==> (r matches Some(t) && t@ == body@ + conf_extra(port)),
{
    let bv = chars_of(body);
    if contains_str(&bv, "# map-tile-studio") {
        return None;
    }
    let mut v = bv;
    push_str(&mut v, "\n# map-tile-studio\nport = ");
    push_decimal(&mut v, port as u64);
    push_str(&mut v, "\nlisten_addresses = '127.0.0.1'\nmax_connections = 50\n");
    proof {
        reveal_strlit("\n# map-tile-studio\nport = ");
        reveal_strlit("\nlisten_addresses = '127.0.0.1'\nmax_connections = 50\n");
    }
    Some(string_of(&v))
}

/// Law: configuring twice appends the settings once: the configured text already
/// carries the marker.
pub proof fn configure_is_idempotent(body: Seq<char>, port: u16)
    requires
        !contains_seq(body, conf_marker()),
    ensures
        contains_seq(body + conf_extra(port), conf_marker()),
{
    reveal_strlit("# map-tile-studio");
    reveal_strlit("\n# map-tile-studio\nport = ");
    let t = body + conf_extra(port);
    let m = conf_marker();
    let lo: int = body.len() as int + 1;
    assert(t.subrange(lo, lo + m.len()) =~= m);
    assert(crate::text::occurs_at(t, m, lo));
}

// ---------------------------------------------------------------------------
// command lines
// ---------------------------------------------------------------------------

/// `initdb` of a fresh cluster: scram authentication, the superuser password read from
/// `pwfile`, UTF-8, locale C.
pub open spec fn initdb_args_spec(data: Seq<char>, user: Seq<char>, pwfile: Seq<char>) -> Seq<
    Seq<char>,
> {
    seq![
        "-D"@,
        data,
        "-U"@,
        user,
        "-A"@,
        "scram-sha-256"@,
        "--pwfile="@ + pwfile,
        "-E"@,
        "UTF8"@,
        "--locale=C"@,
    ]
}

/// The `initdb` arguments.
pub fn initdb_args(data: &str, user: &str, pwfile: &str) -> (r: Vec<String>)
    ensures
        string_views(r@) == initdb_args_spec(data@, user@, pwfile@),
{
    let mut a: Vec<String> = Vec::new();
    push_arg(&mut a, "-D");
    push_arg(&mut a, data);
    push_arg(&mut a, "-U");
    push_arg(&mut a, user);
    push_arg(&mut a, "-A");
    push_arg(&mut a, "scram-sha-256");
    push_owned(&mut a, concat2("--pwfile=", pwfile));
    push_arg(&mut a, "-E");
    push_arg(&mut a, "UTF8");
    push_arg(&mut a, "--locale=C");
    assert(string_views(a@) =~= initdb_args_spec(data@, user@, pwfile@));
    a
}

/// The `icacls` arguments that grant the local Users group (`*S-1-5-32-545`) full,
/// inherited control of the data directory (Windows), so a cluster created by the desktop
/// user or by a system service works for both.
pub open spec fn grant_access_args_spec(data: Seq<char>) -> Seq<Seq<char>> {
    seq![data, "/grant"@, "*S-1-5-32-545:(OI)(CI)F"@, "/T"@, "/Q"@]
}

/// The `icacls` arguments of the data directory's access grant.
pub fn grant_access_args(data: &str) -> (r: Vec<String>)
    ensures
        string_views(r@) == grant_access_args_spec(data@),
{
    let mut a: Vec<String> = Vec::new();
    push_arg(&mut a, data);
    push_arg(&mut a, "/grant");
    push_arg(&mut a, "*S-1-5-32-545:(OI)(CI)F");
    push_arg(&mut a, "/T");
    push_arg(&mut a, "/Q");
    assert(string_views(a@) =~= grant_access_args_spec(data@));
    a
}

/// `pg_ctl start`, waiting until the server accepts connections, logging to `log`.
pub open spec fn start_args_spec(data: Seq<char>, log: Seq<char>, port: u16) -> Seq<Seq<char>> {
    seq!["-D"@, data, "-l"@, log, "-o"@, "-p "@ + decimal(port as nat), "-w"@, "start"@]
}

/// The `pg_ctl start` arguments.
pub fn start_args(data: &str, log: &str, port: u16) -> (r: Vec<String>)
    ensures
        string_views(r@) == start_args_spec(data@, log@, port),
{
    let mut a: Vec<String> = Vec::new();
    push_arg(&mut a, "-D");
    push_arg(&mut a, data);
    push_arg(&mut a, "-l");
    push_arg(&mut a, log);
    push_arg(&mut a, "-o");
    let mut p = chars_of("-p ");
    push_decimal(&mut p, port as u64);
    proof {
        reveal_strlit("-p ");
    }
    push_owned(&mut a, string_of(&p));
    push_arg(&mut a, "-w");
    push_arg(&mut a, "start");
    assert(string_views(a@) =~= start_args_spec(data@, log@, port));
    a
}

/// `pg_ctl stop` with a fast shutdown.
pub open spec fn stop_args_spec(data: Seq<char>) -> Seq<Seq<char>> {
    seq!["-D"@, data, "-m"@, "fast"@, "-w"@, "stop"@]
}

/// The `pg_ctl stop` arguments.
pub fn stop_args(data: &str) -> (r: Vec<String>)
    ensures
        string_views(r@) == stop_args_spec(data@),
{
    let mut a: Vec<String> = Vec::new();
    push_arg(&mut a, "-D");
    push_arg(&mut a, data);
    push_arg(&mut a, "-m");
    push_arg(&mut a, "fast");
    push_arg(&mut a, "-w");
    push_arg(&mut a, "stop");
    assert(string_views(a@) =~= stop_args_spec(data@));
    a
}

/// `psql` against the loopback cluster: tuples only, unaligned, one command.
pub open spec fn psql_args_spec(port: u16, user: Seq<char>, db: Seq<char>, sql: Seq<char>) -> Seq<
    Seq<char>,
> {
    seq!["-h"@, "127.0.0.1"@, "-p"@, decimal(port as nat), "-U"@, user, "-d"@, db, "-tAc"@, sql]
}

/// The `psql` arguments of one command.
pub fn psql_args(port: u16, user: &str, db: &str, sql: &str) -> (r: Vec<String>)
    ensures
        string_views(r@) == psql_args_spec(port, user@, db@, sql@),
{
    let mut a: Vec<String> = Vec::new();
    push_arg(&mut a, "-h");
    push_arg(&mut a, "127.0.0.1");
    push_arg(&mut a, "-p");
    push_owned(&mut a, crate::text::decimal_string(port as u64));
    push_arg(&mut a, "-U");
    push_arg(&mut a, user);
    push_arg(&mut a, "-d");
    push_arg(&mut a, db);
    push_arg(&mut a, "-tAc");
    push_arg(&mut a, sql);
    assert(string_views(a@) =~= psql_args_spec(port, user@, db@, sql@));
    a
}

/// `createdb` of the target database on the loopback cluster.
pub open spec fn createdb_args_spec(port: u16, user: Seq<char>, db: Seq<char>) -> Seq<Seq<char>> {
    seq!["-h"@, "127.0.0.1"@, "-p"@, decimal(port as nat), "-U"@, user, db]
}

/// The `createdb` arguments.
pub fn createdb_args(port: u16, user: &str, db: &str) -> (r: Vec<String>)
    ensures
        string_views(r@) == createdb_args_spec(port, user@, db@),
{
    let mut a: Vec<String> = Vec::new();
    push_arg(&mut a, "-h");
    push_arg(&mut a, "127.0.0.1");
    push_arg(&mut a, "-p");
    push_owned(&mut a, crate::text::decimal_string(port as u64));
    push_arg(&mut a, "-U");
    push_arg(&mut a, user);
    push_arg(&mut a, db);
    assert(string_views(a@) =~= createdb_args_spec(port, user@, db@));
    a
}

// ---------------------------------------------------------------------------
// the data directory check
// ---------------------------------------------------------------------------

/// A path as compared with the one PostgreSQL reports: backslashes as slashes, trailing
/// slashes dropped, lower-cased.
pub open spec fn normalized_dir(s: Seq<char>) -> Seq<char> {
    unicode_lowercase(
        crate::text::trim_end_by(
            s.map_values(|c: char| if c == '\\' { '/' } else { c }),
            |c: char| c == '/',
        ),
    )
}

/// Whether two directory paths name the same directory by their text (used when they
/// cannot be resolved on disk).
pub fn same_dir_text(a: &str, b: &str) -> (r: bool)
    ensures
        r == (normalized_dir(a@) == normalized_dir(b@)),
{
    let na = normalize_dir(a);
    let nb = normalize_dir(b);
    na == nb
}

/// The normalised text of a directory path.
fn normalize_dir(s: &str) -> (r: String)
    ensures
        r@ == normalized_dir(s@),
{
    let v = chars_of(s);
    let mut m: Vec<char> = Vec::new();
    let mut i: usize = 0;
    while i < v.len()
        invariant
            i <= v@.len(),
            m@ == v@.take(i as int).map_values(|c: char| if c == '\\' { '/' } else { c }),
        decreases v.len() - i,
    {
        let c = if v[i] == '\\' {
            '/'
        } else {
            v[i]
        };
        m.push(c);
        i = i + 1;
        assert(m@ =~= v@.take(i as int).map_values(|c: char| if c == '\\' { '/' } else { c }));
    }
    assert(v@.take(i as int) =~= v@);
    let ghost mv = m@;
    let mut hi = m.len();
    while hi > 0 && m[hi - 1] == '/'
        invariant
            hi <= m@.len(),
            m@ == mv,
            forall|k: int| hi <= k < m@.len() ==> #[trigger] m@[k] == '/',
        decreases hi,
    {
        hi = hi - 1;
    }
    proof {
        if hi > 0 {
            assert(m@[hi - 1] != '/');
        }
        crate::text::lemma_trail_count_unique(m@, |c: char| c == '/', hi as int);
    }
    let t = crate::text::string_of_range(&m, 0, hi);
    assert(m@.subrange(0, hi as int) =~= crate::text::trim_end_by(mv, |c: char| c == '/'));
    to_lowercase(t.as_str())
}

// ---------------------------------------------------------------------------
// bringing the cluster online
// ---------------------------------------------------------------------------

/// What `ensure_running` does, given what was found.
pub enum RunPlan {
    /// Refuse, with this message.
    Fail(String),
    /// The server is up: only make sure the database exists.
    EnsureDatabase,
    /// Initialised but down: configure, start, then make sure the database exists.
    ConfigureStartEnsure,
    /// New: `initdb`, configure, start, then make sure the database exists.
    InitConfigureStartEnsure,
}

/// The refusal when the bundled binaries are missing.
pub open spec fn binaries_missing(root: Seq<char>) -> Seq<char> {
    "bundled PostgreSQL not found at "@ + root
}

/// The refusal when the data directory is half initialised.
pub open spec fn broken_data_dir(data: Seq<char>) -> Seq<char> {
    "the PostgreSQL data directory looks broken (no PG_VERSION but not empty): "@ + data
        + ". Delete that folder and restart the app to recreate the database."@
}

/// How to bring the bundled cluster online: refused without binaries; when something
/// already listens on the port only the database is ensured; an initialised cluster is
/// configured and started; a new one is created first, unless its data directory is
/// not empty (a half-initialised cluster, refused with an actionable message).
pub fn run_plan(
    root: &str,
    data: &str,
    binaries_present: bool,
    running: bool,
    initialized: bool,
    data_non_empty: bool,
) -> (r: RunPlan)
    ensures
        !binaries_present ==> (r matches RunPlan::Fail(m) && m@ == binaries_missing(root@)),
        binaries_present && running ==> r is EnsureDatabase,
        binaries_present && !running && initialized ==> r is ConfigureStartEnsure,
        binaries_present && !running && !initialized && data_non_empty ==> (r matches RunPlan::Fail(
            m,
        ) && m@ == broken_data_dir(data@)),
        binaries_present && !running && !initialized && !data_non_empty
            ==> r is InitConfigureStartEnsure,
{
    if !binaries_present {
        proof {
            reveal_strlit("bundled PostgreSQL not found at ");
        }
        return RunPlan::Fail(concat2("bundled PostgreSQL not found at ", root));
    }
    if running {
        return RunPlan::EnsureDatabase;
    }
    if initialized {
        return RunPlan::ConfigureStartEnsure;
    }
    if data_non_empty {
        let mut v = chars_of(
            "the PostgreSQL data directory looks broken (no PG_VERSION but not empty): ",
        );
        push_str(&mut v, data);
        push_str(&mut v, ". Delete that folder and restart the app to recreate the database.");
        proof {
            reveal_strlit(
                "the PostgreSQL data directory looks broken (no PG_VERSION but not empty): ",
            );
            reveal_strlit(". Delete that folder and restart the app to recreate the database.");
        }
        return RunPlan::Fail(string_of(&v));
    }
    RunPlan::InitConfigureStartEnsure
}

/// What a finished command reported.
pub struct CmdOutcome {
    pub success: bool,
    pub stdout: String,
    pub stderr: String,
}

/// Where `ensure_database` stands.
pub enum DbPhase {
    /// Nothing asked yet.
    Start,
    /// Asked the server for its data directory.
    AskedDataDir,
    /// Asked whether the database exists.
    AskedExists,
    /// Ran `createdb`.
    RanCreatedb,
    /// Ran `CREATE EXTENSION postgis`.
    RanExtension,
}

/// What `ensure_database` does next.
pub enum DbAction {
    /// Run `psql` on this database with this command.
    Psql { db: String, sql: String },
    /// Run `createdb` for the target database.
    Createdb,
    /// Stop: done, or refused with a message.
    Finish(Result<(), String>),
}

/// The command asking whether the target database exists.
pub open spec fn exists_sql(db: Seq<char>) -> Seq<char> {
    "SELECT 1 FROM pg_database WHERE datname="@ + sql_lit_spec(db)
}

/// The refusal when the server cannot be reached.
pub open spec fn unreachable_error(port: u16, stderr: Seq<char>) -> Seq<char> {
    "could not reach the bundled PostgreSQL on port "@ + decimal(port as nat) + ": "@ + trim_ws(
        stderr,
    )
}

/// The refusal when another PostgreSQL answers on the port.
pub open spec fn foreign_server_error(port: u16, server_dir: Seq<char>) -> Seq<char> {
    "port "@ + decimal(port as nat) + " is in use by a different PostgreSQL (data dir: "@
        + server_dir
        + "). The bundled cluster was not started; change its port in connections.json or stop the other server."@
}

/// The command that enables PostGIS.
pub open spec fn postgis_sql() -> Seq<char> {
    "CREATE EXTENSION IF NOT EXISTS postgis"@
}

/// The next step of `ensure_database`: confirm that the server on the port is this
/// cluster (its data directory), create the target database when it is missing, then
/// enable PostGIS. `outcome` is what the previous command reported and `same_dir` whether
/// the data directory the server reported (its trimmed output) is this cluster's.
pub fn db_step(conn: &PgConnection, phase: DbPhase, outcome: Option<CmdOutcome>, same_dir: bool) -> (r: (DbPhase, DbAction))
    requires
        !(phase is Start) ==> outcome is Some,
    ensures
        match phase {
            DbPhase::Start => {
                &&& r.0 is AskedDataDir
                &&& r.1 matches DbAction::Psql { db, sql } && db@ == "postgres"@ && sql@
                    == "SHOW data_directory"@
            },
            DbPhase::AskedDataDir => {
                let o = outcome->0;
                if !o.success {
                    r.1 matches DbAction::Finish(Err(m)) && m@ == unreachable_error(conn.port, o.stderr@)
                } else if !same_dir {
                    r.1 matches DbAction::Finish(Err(m)) && m@ == foreign_server_error(
                        conn.port,
                        trim_ws(o.stdout@),
                    )
                } else {
                    &&& r.0 is AskedExists
                    &&& r.1 matches DbAction::Psql { db, sql } && db@ == "postgres"@ && sql@
                        == exists_sql(conn.dbname@)
                }
            },
            DbPhase::AskedExists => {
                let o = outcome->0;
                if trim_ws(o.stdout@) == "1"@ {
                    &&& r.0 is RanExtension
                    &&& r.1 matches DbAction::Psql { db, sql } && db@ == conn.dbname@ && sql@
                        == postgis_sql()
                } else {
                    &&& r.0 is RanCreatedb
                    &&& r.1 is Createdb
                }
            },
            DbPhase::RanCreatedb => {
                let o = outcome->0;
                if !o.success {
                    r.1 matches DbAction::Finish(Err(m)) && m@ == "createdb "@ + conn.dbname@
                        + " failed: "@ + trim_ws(o.stderr@)
                } else {
                    &&& r.0 is RanExtension
                    &&& r.1 matches DbAction::Psql { db, sql } && db@ == conn.dbname@ && sql@
                        == postgis_sql()
                }
            },
            DbPhase::RanExtension => {
                let o = outcome->0;
                if !o.success {
                    r.1 matches DbAction::Finish(Err(m)) && m@ == "enabling postgis failed: "@
                        + trim_ws(o.stderr@)
                } else {
                    r.1 matches DbAction::Finish(Ok(()))
                }
            },
        },
{
    proof {
        reveal_strlit("postgres");
        reveal_strlit("SHOW data_directory");
        reveal_strlit("1");
        reveal_strlit("CREATE EXTENSION IF NOT EXISTS postgis");
    }
    match phase {
        DbPhase::Start => (
            DbPhase::AskedDataDir,
            DbAction::Psql { db: "postgres".to_string(), sql: "SHOW data_directory".to_string() },
        ),
        DbPhase::AskedDataDir => {
            let o = outcome.unwrap();
            if !o.success {
                let mut v = chars_of("could not reach the bundled PostgreSQL on port ");
                push_decimal(&mut v, conn.port as u64);
                push_str(&mut v, ": ");
                crate::text::push_all(&mut v, &trim_ws_vec(&chars_of(o.stderr.as_str())));
                proof {
                    reveal_strlit("could not reach the bundled PostgreSQL on port ");
                    reveal_strlit(": ");
                }
                (DbPhase::AskedDataDir, DbAction::Finish(Err(string_of(&v))))
            } else if !same_dir {
                let mut v = chars_of("port ");
                push_decimal(&mut v, conn.port as u64);
                push_str(&mut v, " is in use by a different PostgreSQL (data dir: ");
                crate::text::push_all(&mut v, &trim_ws_vec(&chars_of(o.stdout.as_str())));
                push_str(
                    &mut v,
                    "). The bundled cluster was not started; change its port in connections.json or stop the other server.",
                );
                proof {
                    reveal_strlit("port ");
                    reveal_strlit(" is in use by a different PostgreSQL (data dir: ");
                    reveal_strlit(
                        "). The bundled cluster was not started; change its port in connections.json or stop the other server.",
                    );
                }
                (DbPhase::AskedDataDir, DbAction::Finish(Err(string_of(&v))))
            } else {
                let lit = crate::pgsql::sql_lit(conn.dbname.as_str());
                let mut v = chars_of("SELECT 1 FROM pg_database WHERE datname=");
                push_str(&mut v, lit.as_str());
                proof {
                    reveal_strlit("SELECT 1 FROM pg_database WHERE datname=");
                }
                (
                    DbPhase::AskedExists,
                    DbAction::Psql { db: "postgres".to_string(), sql: string_of(&v) },
                )
            }
        },
        DbPhase::AskedExists => {
            let o = outcome.unwrap();
            let t = trim_ws_vec(&chars_of(o.stdout.as_str()));
            if crate::decimal::eq_chars(&t, &chars_of("1")) {
                (
                    DbPhase::RanExtension,
                    DbAction::Psql {
                        db: conn.dbname.clone(),
                        sql: "CREATE EXTENSION IF NOT EXISTS postgis".to_string(),
                    },
                )
            } else {
                (DbPhase::RanCreatedb, DbAction::Createdb)
            }
        },
        DbPhase::RanCreatedb => {
            let o = outcome.unwrap();
            if !o.success {
                let mut v = chars_of("createdb ");
                push_str(&mut v, conn.dbname.as_str());
                push_str(&mut v, " failed: ");
                crate::text::push_all(&mut v, &trim_ws_vec(&chars_of(o.stderr.as_str())));
                proof {
                    reveal_strlit("createdb ");
                    reveal_strlit(" failed: ");
                }
                (DbPhase::RanCreatedb, DbAction::Finish(Err(string_of(&v))))
            } else {
                (
                    DbPhase::RanExtension,
                    DbAction::Psql {
                        db: conn.dbname.clone(),
                        sql: "CREATE EXTENSION IF NOT EXISTS postgis".to_string(),
                    },
                )
            }
        },
        DbPhase::RanExtension => {
            let o = outcome.unwrap();
            if !o.success {
                let mut v = chars_of("enabling postgis failed: ");
                crate::text::push_all(&mut v, &trim_ws_vec(&chars_of(o.stderr.as_str())));
                proof {
                    reveal_strlit("enabling postgis failed: ");
                }
                (DbPhase::RanExtension, DbAction::Finish(Err(string_of(&v))))
            } else {
                (DbPhase::RanExtension, DbAction::Finish(Ok(())))
            }
        },
    }
}

} // verus!
