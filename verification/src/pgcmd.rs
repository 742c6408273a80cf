//! The decisions behind the PostGIS catalog commands: connection editing and removal,
//! connection tests, vector imports through `ogr2ogr`, and the catalog rows.

use vstd::prelude::*;
use crate::crs::with_bd_datum_shift;
use crate::decimal::eq_chars;
use crate::paths::stem_ext;
use crate::pgconfig::{
    conn_views, libpq_quote, push_libpq_quoted, ConnFields, PgConfig, PgConnection,
};
use crate::text::{
    chars_of, decimal, is_alnum, is_alnum_exec, is_ws, lower, lower_exec, push_decimal, push_str,
    string_of, trim_by, trim_ws, trim_ws_vec, lead_count, trail_count, lemma_lead_count,
    lemma_trail_count, lemma_lead_count_unique, lemma_trail_count_unique, trim_start_by,
    trim_end_by,
};

verus! {

// ---------------------------------------------------------------------------
// slugs
// ---------------------------------------------------------------------------

/// A character of a table slug: ASCII alphanumerics and `_` (lower-cased) stay, anything
/// else becomes `_`.
pub open spec fn table_slug_char(c: char) -> char {
    if is_alnum(c) || c == '_' {
        lower(c)
    } else {
        '_'
    }
}

/// The predicate "is `_`".
pub open spec fn underscore_pred() -> spec_fn(char) -> bool {
    |c: char| c == '_'
}

/// The slug of a name used for imported tables and connection ids: mapped characters with
/// leading and trailing `_` removed, `layer` when nothing is left.
pub open spec fn table_slug(s: Seq<char>) -> Seq<char> {
    let t = trim_by(s.map_values(|c: char| table_slug_char(c)), underscore_pred());
    if t.len() == 0 {
        "layer"@
    } else {
        t
    }
}

/// A character a slug is made of: a lower-case ASCII letter, a digit or `_`.
pub open spec fn slug_char(c: char) -> bool {
    ('a' <= c <= 'z') || crate::text::is_digit(c) || c == '_'
}

/// Slug characters are exactly the characters the slug mapping leaves alone, and every
/// mapped character is one.
proof fn lemma_slug_char(c: char)
    ensures
        slug_char(table_slug_char(c)),
        slug_char(c) ==> table_slug_char(c) == c,
{
    if 'A' <= c <= 'Z' {
        assert(97 <= (c as u32) + 32 <= 122);
        let d = ((c as u32) + 32) as char;
        assert(d as u32 == (c as u32) + 32);
        assert('a' <= d <= 'z');
    }
}

/// A sequence of slug characters with no `_` at either end is its own slug.
proof fn lemma_slug_fixed(r: Seq<char>)
    requires
        r.len() > 0,
        r[0] != '_',
        r.last() != '_',
        forall|i: int| 0 <= i < r.len() ==> slug_char(#[trigger] r[i]),
    ensures
        table_slug(r) == r,
{
    let m = r.map_values(|c: char| table_slug_char(c));
    assert forall|i: int| 0 <= i < r.len() implies m[i] == r[i] by {
        lemma_slug_char(r[i]);
    }
    assert(m =~= r);
    let p = underscore_pred();
    lemma_lead_count_unique(r, p, 0);
    assert(trim_start_by(r, p) =~= r);
    lemma_trail_count_unique(r, p, r.len() as int);
    assert(trim_end_by(r, p) =~= r);
}

/// A slug is never empty, is made of lower-case ASCII letters, digits and `_`, neither
/// starts nor ends with `_`, and is its own slug (slugging twice changes nothing).
pub proof fn slug_is_canonical(s: Seq<char>)
    ensures
        table_slug(s).len() > 0,
        table_slug(s)[0] != '_',
        table_slug(s).last() != '_',
        forall|i: int| 0 <= i < table_slug(s).len() ==> slug_char(#[trigger] table_slug(s)[i]),
        table_slug(table_slug(s)) == table_slug(s),
{
    let p = underscore_pred();
    let m = s.map_values(|c: char| table_slug_char(c));
    let u = trim_start_by(m, p);
    let t = trim_by(m, p);
    let r = table_slug(s);
    if t.len() == 0 {
        reveal_strlit("layer");
        assert(r == "layer"@);
        assert forall|i: int| 0 <= i < r.len() implies slug_char(#[trigger] r[i]) by {}
    } else {
        lemma_lead_count(m, p);
        lemma_trail_count(u, p);
        let lc = lead_count(m, p) as int;
        let tc = trail_count(u, p) as int;
        assert(t =~= m.subrange(lc, m.len() - tc));
        assert(u =~= m.skip(lc));
        assert(t[0] == u[0]);
        assert(t.last() == u[u.len() - tc - 1]);
        assert forall|i: int| 0 <= i < t.len() implies slug_char(#[trigger] t[i]) by {
            assert(t[i] == m[lc + i]);
            lemma_slug_char(s[lc + i]);
        }
    }
    lemma_slug_fixed(r);
}

/// Trim `_` from both ends of a character vector.
pub fn trim_underscores(s: &Vec<char>) -> (r: Vec<char>)
    ensures
        r@ == trim_by(s@, underscore_pred()),
{
    let ghost p = underscore_pred();
    let n = s.len();
    let mut lo: usize = 0;
    while lo < n && s[lo] == '_'
        invariant
            lo <= n == s@.len(),
            forall|i: int| 0 <= i < lo ==> #[trigger] s@[i] == '_',
        decreases n - lo,
    {
        lo = lo + 1;
    }
    proof {
        lemma_lead_count_unique(s@, p, lo as int);
    }
    let ghost u = trim_start_by(s@, p);
    assert(u =~= s@.skip(lo as int));
    let mut hi = n;
    while hi > lo && s[hi - 1] == '_'
        invariant
            lo <= hi <= n == s@.len(),
            forall|i: int| hi <= i < n ==> #[trigger] s@[i] == '_',
        decreases hi - lo,
    {
        hi = hi - 1;
    }
    proof {
        assert forall|i: int| hi - lo <= i < u.len() implies p(#[trigger] u[i]) by {
            assert(u[i] == s@[lo + i]);
        }
        if hi > lo {
            assert(u[hi - lo - 1] == s@[hi - 1]);
        }
        lemma_trail_count_unique(u, p, hi - lo);
        assert(trim_end_by(u, p) =~= s@.subrange(lo as int, hi as int));
    }
    crate::text::slice_of(s, lo, hi)
}

/// Turn a name into a table slug (`[a-z0-9_]`, no leading/trailing `_`, `layer` if empty).
pub fn slugify(s: &str) -> (r: String)
    ensures
        r@ == table_slug(s@),
{
    let cs = chars_of(s);
    let mut m: Vec<char> = Vec::new();
    let mut i: usize = 0;
    while i < cs.len()
        invariant
            i <= cs@.len(),
            m@ == cs@.take(i as int).map_values(|c: char| table_slug_char(c)),
        decreases cs.len() - i,
    {
        let c = cs[i];
        let d = if is_alnum_exec(c) || c == '_' {
            lower_exec(c)
        } else {
            '_'
        };
        m.push(d);
        i = i + 1;
        assert(m@ =~= cs@.take(i as int).map_values(|c: char| table_slug_char(c)));
    }
    assert(cs@.take(i as int) =~= cs@);
    let t = trim_underscores(&m);
    if t.len() == 0 {
        proof {
            reveal_strlit("layer");
        }
        "layer".to_string()
    } else {
        string_of(&t)
    }
}

// ---------------------------------------------------------------------------
// catalog rows
// ---------------------------------------------------------------------------

/// Per-connection health, surfaced to the catalog UI.
pub struct ConnState {
    pub id: String,
    pub label: String,
    pub bundled: bool,
    pub ok: bool,
    pub message: String,
    pub table_count: usize,
}

/// One connection row of the catalog.
pub struct PgConnDto {
    pub id: String,
    pub label: String,
    pub host: String,
    pub port: u16,
    pub dbname: String,
    pub user: String,
    pub sslmode: String,
    pub enabled: bool,
    pub bundled: bool,
    pub ok: bool,
    pub message: String,
    pub table_count: usize,
}

/// Index of the first state whose id is `id`.
pub open spec fn first_state_with_id(states: Seq<ConnState>, id: Seq<char>) -> Option<int> {
    if exists|i: int| 0 <= i < states.len() && (#[trigger] states[i]).id@ == id {
        Some(
            choose|i: int|
                0 <= i < states.len() && (#[trigger] states[i]).id@ == id && forall|j: int|
                    0 <= j < i ==> states[j].id@ != id,
        )
    } else {
        None
    }
}

/// Find the first state with the given id.
fn find_state(states: &Vec<ConnState>, id: &String) -> (r: Option<usize>)
    ensures
        r is None <==> first_state_with_id(states@, id@) is None,
        r matches Some(i) ==> first_state_with_id(states@, id@) == Some(i as int) && i
            < states@.len(),
{
    let mut i: usize = 0;
    while i < states.len()
        invariant
            i <= states@.len(),
            forall|j: int| 0 <= j < i ==> states@[j].id@ != id@,
        decreases states.len() - i,
    {
        if states[i].id == *id {
            let ghost k = first_state_with_id(states@, id@)->0;
            assert(k == i) by {
                if k < i {
                    assert(states@[k].id@ != id@);
                }
                if i < k {
                    assert(!(states@[i as int].id@ != id@));
                }
            }
            return Some(i);
        }
        i = i + 1;
    }
    None
}

/// The catalog row of a connection, with the health of its first matching state (not ok,
/// no message and no tables when there is none).
pub fn conn_dto(c: &PgConnection, states: &Vec<ConnState>) -> (r: PgConnDto)
    ensures
        r.id@ == c.id@,
        r.label@ == c.label@,
        r.host@ == c.host@,
        r.port == c.port,
        r.dbname@ == c.dbname@,
        r.user@ == c.user@,
        r.sslmode@ == c.sslmode@,
        r.enabled == c.enabled,
        r.bundled == c.bundled,
        match first_state_with_id(states@, c.id@) {
            None => !r.ok && r.message@ == Seq::<char>::empty() && r.table_count == 0,
            Some(i) => r.ok == states@[i].ok && r.message@ == states@[i].message@
                && r.table_count == states@[i].table_count,
        },
{
    let (ok, message, table_count) = match find_state(states, &c.id) {
        Some(i) => (states[i].ok, states[i].message.clone(), states[i].table_count),
        None => (false, String::new(), 0),
    };
    PgConnDto {
        id: c.id.clone(),
        label: c.label.clone(),
        host: c.host.clone(),
        port: c.port,
        dbname: c.dbname.clone(),
        user: c.user.clone(),
        sslmode: c.sslmode.clone(),
        enabled: c.enabled,
        bundled: c.bundled,
        ok,
        message,
        table_count,
    }
}

/// The bundled cluster is reported running when a bundled connection state is ok.
pub fn bundled_running(states: &Vec<ConnState>) -> (r: bool)
    ensures
        r == exists|i: int| 0 <= i < states@.len() && (#[trigger] states@[i]).bundled && states@[i].ok,
{
    let mut i: usize = 0;
    while i < states.len()
        invariant
            i <= states@.len(),
            forall|j: int| 0 <= j < i ==> !((#[trigger] states@[j]).bundled && states@[j].ok),
        decreases states.len() - i,
    {
        if states[i].bundled && states[i].ok {
            return true;
        }
        i = i + 1;
    }
    false
}

// ---------------------------------------------------------------------------
// connection tests
// ---------------------------------------------------------------------------

/// Result of testing a connection without saving it.
pub struct PgTestResult {
    pub ok: bool,
    pub message: String,
    pub table_count: usize,
}

/// What happened when a connection was tried.
pub enum TestOutcome {
    /// Connected; discovery found this many spatial tables.
    Tables(usize),
    /// Connected, but discovery failed with this message.
    DiscoveryFailed(String),
    /// Could not connect; the connection error's message.
    ConnectFailed(String),
}

/// The report of a connection test.
pub fn pg_test_result(outcome: TestOutcome) -> (r: PgTestResult)
    ensures
        match outcome {
            TestOutcome::Tables(n) => r.ok && r.table_count == n && r.message@ == "Connected — "@
                + decimal(n as nat) + " spatial table(s) found."@,
            TestOutcome::DiscoveryFailed(e) => !r.ok && r.table_count == 0 && r.message@
                == "Connected, but discovery failed: "@ + e@,
            TestOutcome::ConnectFailed(e) => !r.ok && r.table_count == 0 && r.message@ == e@,
        },
{
    match outcome {
        TestOutcome::Tables(n) => {
            let mut v = chars_of("Connected — ");
            push_decimal(&mut v, n as u64);
            push_str(&mut v, " spatial table(s) found.");
            PgTestResult { ok: true, message: string_of(&v), table_count: n }
        },
        TestOutcome::DiscoveryFailed(e) => {
            let mut v = chars_of("Connected, but discovery failed: ");
            push_str(&mut v, e.as_str());
            PgTestResult { ok: false, message: string_of(&v), table_count: 0 }
        },
        TestOutcome::ConnectFailed(e) => PgTestResult { ok: false, message: e, table_count: 0 },
    }
}

// ---------------------------------------------------------------------------
// editing and removing connections
// ---------------------------------------------------------------------------

/// Index of the first connection with the given id.
pub open spec fn first_conn_with_id(cs: Seq<ConnFields>, id: Seq<char>) -> Option<int> {
    if exists|i: int| 0 <= i < cs.len() && (#[trigger] cs[i]).id == id {
        Some(
            choose|i: int|
                0 <= i < cs.len() && (#[trigger] cs[i]).id == id && forall|j: int|
                    0 <= j < i ==> cs[j].id != id,
        )
    } else {
        None
    }
}

/// The index `first_conn_with_id` gives is in range and holds the id, and no earlier
/// connection has it.
pub proof fn lemma_first_conn_with_id(cs: Seq<ConnFields>, id: Seq<char>)
    ensures
        first_conn_with_id(cs, id) matches Some(i) ==> 0 <= i < cs.len() && cs[i].id == id
            && forall|j: int| 0 <= j < i ==> cs[j].id != id,
        first_conn_with_id(cs, id) is None ==> forall|j: int|
            0 <= j < cs.len() ==> (#[trigger] cs[j]).id != id,
{
    if exists|i: int| 0 <= i < cs.len() && (#[trigger] cs[i]).id == id {
        let w = choose|i: int| 0 <= i < cs.len() && (#[trigger] cs[i]).id == id;
        lemma_least_index(cs, id, w);
    }
}

/// Below a known index with the id there is a least one.
proof fn lemma_least_index(cs: Seq<ConnFields>, id: Seq<char>, w: int)
    requires
        0 <= w < cs.len(),
        cs[w].id == id,
    ensures
        exists|i: int|
            0 <= i < cs.len() && (#[trigger] cs[i]).id == id && forall|j: int|
                0 <= j < i ==> cs[j].id != id,
    decreases w,
{
    if exists|j: int| 0 <= j < w && (#[trigger] cs[j]).id == id {
        let v = choose|j: int| 0 <= j < w && (#[trigger] cs[j]).id == id;
        lemma_least_index(cs, id, v);
    } else {
        assert(forall|j: int| 0 <= j < w ==> cs[j].id != id);
    }
}

/// Find the first connection with the given id.
pub fn find_conn(cs: &Vec<PgConnection>, id: &str) -> (r: Option<usize>)
    ensures
        r is None <==> first_conn_with_id(conn_views(cs@), id@) is None,
        r matches Some(i) ==> first_conn_with_id(conn_views(cs@), id@) == Some(i as int) && i
            < cs@.len(),
{
    let ghost vs = conn_views(cs@);
    let idv = chars_of(id);
    let mut i: usize = 0;
    while i < cs.len()
        invariant
            i <= cs@.len(),
            vs == conn_views(cs@),
            idv@ == id@,
            forall|j: int| 0 <= j < i ==> vs[j].id != id@,
        decreases cs.len() - i,
    {
        let cv = chars_of(cs[i].id.as_str());
        if eq_chars(&cv, &idv) {
            assert(vs[i as int].id == id@);
            let ghost k = first_conn_with_id(vs, id@)->0;
            assert(k == i) by {
                if k < i {
                    assert(vs[k].id != id@);
                }
                if i < k {
                    assert(!(vs[i as int].id != id@));
                }
            }
            return Some(i);
        }
        i = i + 1;
    }
    assert(!exists|j: int| 0 <= j < vs.len() && (#[trigger] vs[j]).id == id@);
    None
}

/// Apply a new password to a role on the cluster `existing` points at, authenticating
/// with its current credentials.
pub struct PasswordChange {
    pub existing: PgConnection,
    pub new_password: String,
}

/// Outcome of saving an edited or new connection: the configuration to write, and the
/// password change to apply to the running bundled cluster before writing it.
pub struct SavePlan {
    pub config: PgConfig,
    pub alter_password: Option<PasswordChange>,
}

/// The id a saved connection gets: its own, or the slug of its label when blank.
pub open spec fn saved_id(conn: ConnFields) -> Seq<char> {
    if trim_ws(conn.id).len() == 0 {
        table_slug(conn.label)
    } else {
        conn.id
    }
}

/// The stored password after an edit: a blank password keeps the current one.
pub open spec fn kept_password(new: Seq<char>, old: Seq<char>) -> Seq<char> {
    if new.len() == 0 {
        old
    } else {
        new
    }
}

/// The connection that replaces `existing` after an edit with `conn`: the bundled
/// cluster keeps its host, port, database, user and id; other connections take every
/// edited field but their id and bundled flag.
pub open spec fn edited_conn(existing: ConnFields, conn: ConnFields) -> ConnFields {
    if existing.bundled {
        ConnFields {
            label: conn.label,
            sslmode: conn.sslmode,
            enabled: conn.enabled,
            password: kept_password(conn.password, existing.password),
            ..existing
        }
    } else {
        ConnFields {
            label: conn.label,
            host: conn.host,
            port: conn.port,
            dbname: conn.dbname,
            user: conn.user,
            sslmode: conn.sslmode,
            enabled: conn.enabled,
            password: kept_password(conn.password, existing.password),
            ..existing
        }
    }
}

/// The connections after saving `conn`.
pub open spec fn saved_conns(cs: Seq<ConnFields>, conn: ConnFields) -> Seq<ConnFields> {
    let id = saved_id(conn);
    match first_conn_with_id(cs, id) {
        Some(i) => cs.update(i, edited_conn(cs[i], conn)),
        None => cs.push(ConnFields { id: id, bundled: false, ..conn }),
    }
}

/// A real password change is needed on the running bundled role.
pub open spec fn needs_password_change(cs: Seq<ConnFields>, conn: ConnFields) -> bool {
    match first_conn_with_id(cs, saved_id(conn)) {
        Some(i) => cs[i].bundled && conn.password.len() > 0 && conn.password != cs[i].password,
        None => false,
    }
}

/// Plan the save of an added or edited connection. A blank id becomes the slug of the
/// label; an existing id is edited in place (a blank password keeps the stored one, and
/// the bundled cluster's host, port, database and user are fixed); an unknown id is
/// appended as an external (non-bundled) connection. A real password change of the
/// bundled connection is returned so it can be applied to the running role first.
pub fn plan_save_connection(cfg: PgConfig, conn: PgConnection) -> (r: SavePlan)
    ensures
        r.config.refresh_seconds == cfg.refresh_seconds,
        conn_views(r.config.connections@) == saved_conns(conn_views(cfg.connections@), conn@),
        match r.alter_password {
            Some(ch) => needs_password_change(conn_views(cfg.connections@), conn@)
                && ch.existing@ == conn_views(cfg.connections@)[first_conn_with_id(
                conn_views(cfg.connections@),
                saved_id(conn@),
            )->0] && ch.new_password@ == conn@.password,
            None => !needs_password_change(conn_views(cfg.connections@), conn@),
        },
{
    let mut cfg = cfg;
    let mut conn = conn;
    let ghost cs = conn_views(cfg.connections@);
    let ghost c0 = conn@;
    let idv = chars_of(conn.id.as_str());
    let trimmed = trim_ws_vec(&idv);
    if trimmed.len() == 0 {
        conn.id = slugify(conn.label.as_str());
    }
    assert(conn.id@ == saved_id(c0));
    proof {
        lemma_first_conn_with_id(cs, saved_id(c0));
    }
    match find_conn(&cfg.connections, conn.id.as_str()) {
        Some(i) => {
            let existing = cfg.connections[i].copy();
            assert(existing@ == cs[i as int]);
            let alter = password_change(&existing, &conn);
            let slot = edited(&existing, conn);
            cfg.connections.set(i, slot);
            assert(conn_views(cfg.connections@) =~= cs.update(i as int, edited_conn(cs[i as int], c0)));
            SavePlan { config: cfg, alter_password: alter }
        },
        None => {
            conn.bundled = false;
            let ghost added = conn@;
            cfg.connections.push(conn);
            assert(conn_views(cfg.connections@) =~= cs.push(added));
            assert(added == ConnFields { id: saved_id(c0), bundled: false, ..c0 });
            SavePlan { config: cfg, alter_password: None }
        },
    }
}

/// The password change an edit of `existing` by `conn` calls for: only for the bundled
/// connection, and only when a new, different password was given.
fn password_change(existing: &PgConnection, conn: &PgConnection) -> (r: Option<PasswordChange>)
    ensures
        match r {
            Some(ch) => existing.bundled && conn@.password.len() > 0 && conn@.password
                != existing@.password && ch.existing@ == existing@ && ch.new_password@
                == conn@.password,
            None => !(existing.bundled && conn@.password.len() > 0 && conn@.password
                != existing@.password),
        },
{
    let changing = !conn.password.as_str().is_empty() && !(conn.password == existing.password);
    if existing.bundled && changing {
        Some(PasswordChange { existing: existing.copy(), new_password: conn.password.clone() })
    } else {
        None
    }
}

/// The connection that replaces `existing` after it is edited by `conn`.
fn edited(existing: &PgConnection, conn: PgConnection) -> (r: PgConnection)
    ensures
        r@ == edited_conn(existing@, conn@),
{
    let kept = if conn.password.as_str().is_empty() {
        existing.password.clone()
    } else {
        conn.password
    };
    let mut slot = existing.copy();
    slot.label = conn.label;
    slot.sslmode = conn.sslmode;
    slot.enabled = conn.enabled;
    slot.password = kept;
    if !existing.bundled {
        slot.host = conn.host;
        slot.port = conn.port;
        slot.dbname = conn.dbname;
        slot.user = conn.user;
    }
    slot
}

/// Law: saving never turns a connection into, or out of, the bundled one; the bundled
/// connection keeps its id, host, port, database and user; a blank password keeps the
/// stored password; and the number of connections grows by at most one.
pub proof fn save_keeps_bundled_fixed(cs: Seq<ConnFields>, conn: ConnFields)
    ensures
        saved_conns(cs, conn).len() == cs.len() || saved_conns(cs, conn).len() == cs.len() + 1,
        forall|i: int|
            0 <= i < cs.len() ==> (#[trigger] saved_conns(cs, conn)[i]).bundled == cs[i].bundled
                && saved_conns(cs, conn)[i].id == cs[i].id,
        forall|i: int|
            0 <= i < cs.len() && cs[i].bundled ==> (#[trigger] saved_conns(cs, conn)[i]).host
                == cs[i].host && saved_conns(cs, conn)[i].port == cs[i].port && saved_conns(
                cs,
                conn,
            )[i].dbname == cs[i].dbname && saved_conns(cs, conn)[i].user == cs[i].user,
        conn.password.len() == 0 ==> forall|i: int|
            0 <= i < cs.len() ==> (#[trigger] saved_conns(cs, conn)[i]).password == cs[i].password,
        saved_conns(cs, conn).len() == cs.len() + 1 ==> !saved_conns(cs, conn)[cs.len() as int].bundled,
{
    lemma_first_conn_with_id(cs, saved_id(conn));
}

/// Refusal to remove the bundled connection.
pub open spec fn bundled_removal_error() -> Seq<char> {
    "The bundled PostGIS connection cannot be removed."@
}

/// Some bundled connection has the id `id`.
pub open spec fn bundled_has_id(cs: Seq<ConnFields>, id: Seq<char>) -> bool {
    exists|i: int| 0 <= i < cs.len() && (#[trigger] cs[i]).id == id && cs[i].bundled
}

/// Remove the connections with id `id`; refused when a bundled connection has that id.
pub fn delete_connection(cfg: PgConfig, id: &str) -> (r: Result<PgConfig, String>)
    ensures
        match r {
            Err(e) => bundled_has_id(conn_views(cfg.connections@), id@) && e@
                == bundled_removal_error(),
            Ok(c) => !bundled_has_id(conn_views(cfg.connections@), id@) && c.refresh_seconds
                == cfg.refresh_seconds && conn_views(c.connections@) == conn_views(
                cfg.connections@,
            ).filter(|c: ConnFields| c.id != id@),
        },
{
    let ghost cs = conn_views(cfg.connections@);
    let idv = chars_of(id);
    let mut i: usize = 0;
    while i < cfg.connections.len()
        invariant
            i <= cfg.connections@.len(),
            cs == conn_views(cfg.connections@),
            idv@ == id@,
            forall|j: int| 0 <= j < i ==> !((#[trigger] cs[j]).id == id@ && cs[j].bundled),
        decreases cfg.connections.len() - i,
    {
        let cv = chars_of(cfg.connections[i].id.as_str());
        if cfg.connections[i].bundled && eq_chars(&cv, &idv) {
            assert(cs[i as int].id == id@ && cs[i as int].bundled);
            proof {
                reveal_strlit("The bundled PostGIS connection cannot be removed.");
            }
            return Err("The bundled PostGIS connection cannot be removed.".to_string());
        }
        i = i + 1;
    }
    let mut kept: Vec<PgConnection> = Vec::new();
    let mut k: usize = 0;
    let ghost pred = |c: ConnFields| c.id != id@;
    let old_conns = cfg.connections;
    assert(cs.take(0).filter(pred) =~= Seq::<ConnFields>::empty()) by {
        reveal(Seq::filter);
    }
    while k < old_conns.len()
        invariant
            k <= old_conns@.len(),
            cs == conn_views(old_conns@),
            idv@ == id@,
            pred == (|c: ConnFields| c.id != id@),
            conn_views(kept@) == cs.take(k as int).filter(pred),
        decreases old_conns.len() - k,
    {
        let cv = chars_of(old_conns[k].id.as_str());
        let keep = !eq_chars(&cv, &idv);
        proof {
            reveal(Seq::filter);
            assert(cs.take(k + 1).drop_last() =~= cs.take(k as int));
            assert(cs.take(k + 1).last() == cs[k as int]);
        }
        if keep {
            kept.push(old_conns[k].copy());
            assert(conn_views(kept@) =~= cs.take(k as int).filter(pred).push(cs[k as int]));
        }
        k = k + 1;
    }
    assert(cs.take(k as int) =~= cs);
    Ok(PgConfig { refresh_seconds: cfg.refresh_seconds, connections: kept })
}

/// Law: removing a connection never removes a bundled one.
pub proof fn delete_keeps_bundled(cs: Seq<ConnFields>, id: Seq<char>)
    requires
        !bundled_has_id(cs, id),
    ensures
        forall|i: int|
            0 <= i < cs.len() && cs[i].bundled ==> cs.filter(|c: ConnFields| c.id != id).contains(
                #[trigger] cs[i],
            ),
{
    assert forall|i: int| 0 <= i < cs.len() && cs[i].bundled implies cs.filter(
        |c: ConnFields| c.id != id,
    ).contains(#[trigger] cs[i]) by {
        assert(cs[i].id != id);
        cs.lemma_filter_contains(|c: ConnFields| c.id != id, i);
    }
}

// ---------------------------------------------------------------------------
// dropping an imported table and changing the bundled password
// ---------------------------------------------------------------------------

/// The refusals of dropping a source.
pub open spec fn no_postgis_error() -> Seq<char> {
    "PostGIS is not available."@
}

/// The refusal of dropping an unknown source.
pub open spec fn unknown_source_error() -> Seq<char> {
    "Unknown source."@
}

/// The refusal of dropping a source whose connection is gone.
pub open spec fn connection_not_found_error() -> Seq<char> {
    "Connection not found."@
}

/// Index of the first source with the given id.
pub open spec fn first_source_with_id(sources: Seq<crate::registry::PgSourceEntry>, id: Seq<char>) -> Option<int> {
    if exists|i: int| 0 <= i < sources.len() && (#[trigger] sources[i]).id@ == id {
        Some(
            choose|i: int|
                0 <= i < sources.len() && (#[trigger] sources[i]).id@ == id && forall|j: int|
                    0 <= j < i ==> sources[j].id@ != id,
        )
    } else {
        None
    }
}

/// What dropping a source runs: on the connection the source came from, the
/// `DROP TABLE IF EXISTS` of its table. Refused when PostGIS is not available, when no
/// source has the id, or when its connection is no longer configured.
pub fn drop_source_plan(
    available: bool,
    sources: &Vec<crate::registry::PgSourceEntry>,
    cfg: &PgConfig,
    source_id: &str,
) -> (r: Result<(PgConnection, String), String>)
    ensures
        !available ==> (r matches Err(e) && e@ == no_postgis_error()),
        available && first_source_with_id(sources@, source_id@) is None ==> (r matches Err(e)
            && e@ == unknown_source_error()),
        available ==> (first_source_with_id(sources@, source_id@) matches Some(i) ==> {
            let src = sources@[i];
            match first_conn_with_id(conn_views(cfg.connections@), src.conn_id@) {
                None => r matches Err(e) && e@ == connection_not_found_error(),
                Some(k) => r matches Ok((c, sql)) && c@ == conn_views(cfg.connections@)[k] && sql@
                    == "DROP TABLE IF EXISTS "@ + crate::pgsql::sql_ident_spec(src.schema@) + "."@
                    + crate::pgsql::sql_ident_spec(src.table@),
            }
        }),
{
    proof {
        reveal_strlit("PostGIS is not available.");
        reveal_strlit("Unknown source.");
        reveal_strlit("Connection not found.");
    }
    if !available {
        return Err("PostGIS is not available.".to_string());
    }
    let idv = chars_of(source_id);
    let mut i: usize = 0;
    while i < sources.len()
        invariant
            i <= sources@.len(),
            available,
            idv@ == source_id@,
            forall|j: int| 0 <= j < i ==> sources@[j].id@ != source_id@,
        decreases sources.len() - i,
    {
        let sv = chars_of(sources[i].id.as_str());
        if eq_chars(&sv, &idv) {
            let ghost k = first_source_with_id(sources@, source_id@)->0;
            assert(k == i) by {
                if k < i {
                    assert(sources@[k].id@ != source_id@);
                }
                if i < k {
                    assert(!(sources@[i as int].id@ != source_id@));
                }
            }
            let src = &sources[i];
            return match find_conn(&cfg.connections, src.conn_id.as_str()) {
                Some(c) => Ok(
                    (
                        cfg.connections[c].copy(),
                        crate::pgsql::drop_table_sql(src.schema.as_str(), src.table.as_str()),
                    ),
                ),
                None => Err("Connection not found.".to_string()),
            };
        }
        i = i + 1;
    }
    Err("Unknown source.".to_string())
}

/// The error of a failed drop.
pub fn drop_failed(e: &str) -> (r: String)
    ensures
        r@ == "Drop failed: "@ + e@,
{
    proof {
        reveal_strlit("Drop failed: ");
    }
    crate::text::concat2("Drop failed: ", e)
}

/// The error of a password change that could not connect with the old credentials.
pub fn password_connect_failed(e: &str) -> (r: String)
    ensures
        r@ == "Could not connect to change the password: "@ + e@,
{
    proof {
        reveal_strlit("Could not connect to change the password: ");
    }
    crate::text::concat2("Could not connect to change the password: ", e)
}

/// The error of a password change the server refused.
pub fn password_change_failed(e: &str) -> (r: String)
    ensures
        r@ == "Changing the password failed: "@ + e@,
{
    proof {
        reveal_strlit("Changing the password failed: ");
    }
    crate::text::concat2("Changing the password failed: ", e)
}

} // verus!
