//! The decisions of the live PostGIS registry: which connections are served, the ids
//! given to discovered tables (unique, and never shadowing a file source of the maps
//! folder), the health reported per connection, and the order sources are listed in.

use vstd::prelude::*;
use vstd::set_lib::{lemma_int_range, lemma_len_subset, lemma_map_size, set_int_range};
use crate::ordering::{seq_lt, sorted_unique, strictly_sorted};
use crate::paths::stem_ext;
use crate::pgcmd::ConnState;
use crate::pgconfig::{conn_views, ConnFields, PgConfig, PgConnection};
use crate::pgsql::{mvt_sql_spec, PgTable};
use crate::text::{
    chars_of, concat2, decimal, digit_char, digit_value, digits_value, is_alnum, is_alnum_exec,
    lemma_decimal_digits, lemma_digits_value_push, lower, lower_exec, lower_seq, lower_vec,
    push_decimal, push_str, string_of, string_views,
};

verus! {

// ---------------------------------------------------------------------------
// source ids
// ---------------------------------------------------------------------------

/// A character of a source id: ASCII alphanumerics, `_` and `-` (lower-cased) stay,
/// anything else becomes `_`.
pub open spec fn id_char(c: char) -> char {
    if is_alnum(c) || c == '_' || c == '-' {
        lower(c)
    } else {
        '_'
    }
}

/// The id a table name maps to: its characters mapped, `layer` when it is empty.
pub open spec fn id_slug(s: Seq<char>) -> Seq<char> {
    if s.len() == 0 {
        "layer"@
    } else {
        s.map_values(|c: char| id_char(c))
    }
}

/// Map a name to a source id.
pub fn slugify_id(s: &str) -> (r: String)
    ensures
        r@ == id_slug(s@),
{
    let cs = chars_of(s);
    if cs.len() == 0 {
        proof {
            reveal_strlit("layer");
        }
        return "layer".to_string();
    }
    let mut m: Vec<char> = Vec::new();
    let mut i: usize = 0;
    while i < cs.len()
        invariant
            i <= cs@.len(),
            m@ == cs@.take(i as int).map_values(|c: char| id_char(c)),
        decreases cs.len() - i,
    {
        let c = cs[i];
        let d = if is_alnum_exec(c) || c == '_' || c == '-' {
            lower_exec(c)
        } else {
            '_'
        };
        m.push(d);
        i = i + 1;
        assert(m@ =~= cs@.take(i as int).map_values(|c: char| id_char(c)));
    }
    assert(cs@.take(i as int) =~= cs@);
    string_of(&m)
}

/// The `k`-th candidate id for `base`: `base` itself, then `base_2`, `base_3`, ...
pub open spec fn slug_candidate(base: Seq<char>, k: nat) -> Seq<char> {
    if k < 2 {
        base
    } else {
        base + "_"@ + decimal(k)
    }
}

proof fn lemma_digit_value_of_char(d: nat)
    requires
        d < 10,
    ensures
        digit_value(digit_char(d)) == d,
{
}

/// The value of a number's decimal digits is the number.
pub proof fn lemma_decimal_value(n: nat)
    ensures
        digits_value(decimal(n)) == n,
    decreases n,
{
    if n < 10 {
        lemma_digit_value_of_char(n);
        lemma_digits_value_push(Seq::<char>::empty(), digit_char(n));
        assert(Seq::<char>::empty().push(digit_char(n)) =~= seq![digit_char(n)]);
        assert(digits_value(Seq::<char>::empty()) == 0);
    } else {
        lemma_decimal_value(n / 10);
        lemma_digits_value_push(decimal(n / 10), digit_char(n % 10));
        lemma_digit_value_of_char(n % 10);
        assert((n / 10) * 10 + n % 10 == n) by (nonlinear_arith);
    }
}

/// Different numbers give different candidates.
proof fn lemma_candidate_injective(base: Seq<char>, a: nat, b: nat)
    requires
        a >= 2,
        b >= 2,
        slug_candidate(base, a) == slug_candidate(base, b),
    ensures
        a == b,
{
    reveal_strlit("_");
    let ca = slug_candidate(base, a);
    let cb = slug_candidate(base, b);
    let k = base.len() + 1;
    assert(ca.skip(k as int) =~= decimal(a));
    assert(cb.skip(k as int) =~= decimal(b));
    lemma_decimal_value(a);
    lemma_decimal_value(b);
}

/// Among the first `n + 1` numbered candidates, one is not among `n` used ids.
proof fn lemma_free_candidate(base: Seq<char>, used: Seq<Seq<char>>)
    ensures
        exists|k: nat| 2 <= k <= used.len() + 2 && !used.contains(#[trigger] slug_candidate(base, k)),
{
    if forall|k: nat| 2 <= k <= used.len() + 2 ==> used.contains(#[trigger] slug_candidate(base, k)) {
        let n = used.len();
        let dom = set_int_range(2, n as int + 3);
        let f = |k: int| slug_candidate(base, k as nat);
        lemma_int_range(2, n as int + 3);
        assert(vstd::relations::injective_on(f, dom)) by {
            assert forall|x: int, y: int| dom.contains(x) && dom.contains(y) && #[trigger] f(x)
                == #[trigger] f(y) implies x == y by {
                lemma_candidate_injective(base, x as nat, y as nat);
            }
        }
        let img = dom.map(f);
        lemma_map_size(dom, img, f);
        assert(img.subset_of(used.to_set())) by {
            assert forall|s: Seq<char>| img.contains(s) implies used.to_set().contains(s) by {
                let k = choose|k: int| dom.contains(k) && f(k) == s;
                assert(used.contains(slug_candidate(base, k as nat)));
            }
        }
        used.lemma_cardinality_of_set();
        lemma_len_subset(img, used.to_set());
        assert(false);
    }
}

/// Whether `x` is among the strings.
fn contains_string(v: &Vec<String>, x: &String) -> (r: bool)
    ensures
        r == string_views(v@).contains(x@),
{
    let mut i: usize = 0;
    while i < v.len()
        invariant
            i <= v@.len(),
            forall|k: int| 0 <= k < i ==> v@[k]@ != x@,
        decreases v.len() - i,
    {
        if v[i] == *x {
            assert(string_views(v@)[i as int] == x@);
            return true;
        }
        i = i + 1;
    }
    assert(!string_views(v@).contains(x@)) by {
        if string_views(v@).contains(x@) {
            let k = choose|k: int| 0 <= k < string_views(v@).len() && string_views(v@)[k] == x@;
            assert(v@[k]@ == x@);
        }
    }
    false
}

/// The id given to a table named `name` when the ids in `used` are taken: its slug when
/// free, else the first free `slug_k` for `k = 2, 3, ...`.
pub open spec fn unique_slug_ok(name: Seq<char>, used: Seq<Seq<char>>, r: Seq<char>) -> bool {
    let base = id_slug(name);
    if !used.contains(base) {
        r == base
    } else {
        exists|k: nat|
            k >= 2 && r == slug_candidate(base, k) && !used.contains(r) && forall|j: nat|
                2 <= j < k ==> used.contains(#[trigger] slug_candidate(base, j))
    }
}

/// Give a table a fresh id and mark it used.
pub fn unique_slug(name: &str, used: &mut Vec<String>) -> (r: String)
    requires
        old(used)@.len() < u64::MAX - 2,
    ensures
        unique_slug_ok(name@, string_views(old(used)@), r@),
        !string_views(old(used)@).contains(r@),
        string_views(final(used)@) == string_views(old(used)@).push(r@),
{
    let ghost u0 = string_views(used@);
    let base = slugify_id(name);
    if !contains_string(used, &base) {
        let ghost bv = base@;
        used.push(base.clone());
        assert(string_views(used@) =~= u0.push(bv));
        return base;
    }
    proof {
        lemma_free_candidate(base@, u0);
        reveal_strlit("_");
    }
    let n = used.len() as u64;
    let mut i: u64 = 2;
    loop
        invariant
            2 <= i <= n + 2,
            n == u0.len(),
            u0 == string_views(used@),
            u0 == string_views(old(used)@),
            n < u64::MAX - 2,
            base@ == id_slug(name@),
            u0.contains(base@),
            forall|j: nat| 2 <= j < i ==> u0.contains(#[trigger] slug_candidate(base@, j)),
            exists|k: nat| 2 <= k <= n + 2 && !u0.contains(#[trigger] slug_candidate(base@, k)),
        decreases n + 2 - i,
    {
        let mut v = chars_of(base.as_str());
        push_str(&mut v, "_");
        push_decimal(&mut v, i);
        let cand = string_of(&v);
        assert(cand@ == slug_candidate(base@, i as nat));
        if !contains_string(used, &cand) {
            let ghost cv = cand@;
            assert(!u0.contains(cv));
            assert(unique_slug_ok(name@, u0, cv)) by {
                assert(cv == slug_candidate(base@, i as nat));
            }
            used.push(cand.clone());
            assert(string_views(used@) =~= u0.push(cv));
            return cand;
        }
        proof {
            if i == n + 2 {
                let k = choose|k: nat| 2 <= k <= n + 2 && !u0.contains(#[trigger] slug_candidate(base@, k));
                if k < i {
                    assert(u0.contains(slug_candidate(base@, k)));
                }
            }
        }
        i = i + 1;
    }
}

/// Law: an id given out is not one already taken, so no two sources of a refresh (and
/// no file source of the maps folder) share an id.
pub proof fn unique_slug_is_fresh(name: Seq<char>, used: Seq<Seq<char>>, r: Seq<char>)
    requires
        unique_slug_ok(name, used, r),
    ensures
        !used.contains(r),
{
}

/// Law: ids handed out one after the other, each fresh against the ids taken before it
/// (the file sources of the maps folder, then the earlier tables), are all new: none was
/// taken beforehand and no two are equal.
pub proof fn registered_ids_are_fresh(
    used: Seq<Seq<char>>,
    names: Seq<Seq<char>>,
    ids: Seq<Seq<char>>,
)
    requires
        names.len() == ids.len(),
        forall|k: int|
            0 <= k < ids.len() ==> unique_slug_ok(names[k], used + ids.take(k), #[trigger] ids[k]),
    ensures
        forall|k: int| 0 <= k < ids.len() ==> !used.contains(#[trigger] ids[k]),
        forall|j: int, k: int| 0 <= j < k < ids.len() ==> ids[j] != ids[k],
{
    assert forall|k: int| 0 <= k < ids.len() implies !used.contains(#[trigger] ids[k]) by {
        unique_slug_is_fresh(names[k], used + ids.take(k), ids[k]);
        if used.contains(ids[k]) {
            let i = choose|i: int| 0 <= i < used.len() && used[i] == ids[k];
            assert((used + ids.take(k))[i] == ids[k]);
        }
    }
    assert forall|j: int, k: int| 0 <= j < k < ids.len() implies ids[j] != ids[k] by {
        unique_slug_is_fresh(names[k], used + ids.take(k), ids[k]);
        assert((used + ids.take(k))[used.len() + j] == ids[j]);
    }
}

/// The id a file of the maps folder is served under, when it is a file source: the slug
/// of its stem when its extension is `mbtiles`, `tif` or `tiff` (ASCII case ignored).
pub open spec fn file_source_stem(name: Seq<char>) -> Option<Seq<char>> {
    match stem_ext(name).1 {
        Some(e) => if lower_seq(e) == "mbtiles"@ || lower_seq(e) == "tif"@ || lower_seq(e)
            == "tiff"@ {
            Some(stem_ext(name).0)
        } else {
            None
        },
        None => None,
    }
}

/// The stem of a file name when it is a tile source (`.mbtiles`, `.tif`, `.tiff`).
pub fn source_file_stem(name: &str) -> (r: Option<String>)
    ensures
        opt_eq(r, file_source_stem(name@)),
{
    let (stem, ext) = crate::paths::split_stem_ext(name);
    match ext {
        Some(e) => {
            let l = lower_vec(&chars_of(e.as_str()));
            proof {
                reveal_strlit("mbtiles");
                reveal_strlit("tif");
                reveal_strlit("tiff");
            }
            if crate::decimal::eq_chars(&l, &chars_of("mbtiles")) || crate::decimal::eq_chars(
                &l,
                &chars_of("tif"),
            ) || crate::decimal::eq_chars(&l, &chars_of("tiff")) {
                Some(stem)
            } else {
                None
            }
        },
        None => None,
    }
}

/// An optional string has the given view.
pub open spec fn opt_eq(r: Option<String>, v: Option<Seq<char>>) -> bool {
    match v {
        Some(x) => r matches Some(s) && s@ == x,
        None => r is None,
    }
}

/// The ids the file sources among the names reserve, in order.
pub open spec fn file_ids(names: Seq<Seq<char>>) -> Seq<Seq<char>>
    decreases names.len(),
{
    if names.len() == 0 {
        Seq::empty()
    } else {
        match file_source_stem(names.last()) {
            Some(s) => file_ids(names.drop_last()).push(id_slug(s)),
            None => file_ids(names.drop_last()),
        }
    }
}

/// The ids reserved by the file sources of the maps folder, from its file names.
pub fn file_source_ids(names: &Vec<String>) -> (r: Vec<String>)
    ensures
        string_views(r@) == file_ids(string_views(names@)),
{
    let ghost nv = string_views(names@);
    let mut out: Vec<String> = Vec::new();
    let mut i: usize = 0;
    while i < names.len()
        invariant
            i <= names@.len(),
            nv == string_views(names@),
            string_views(out@) == file_ids(nv.take(i as int)),
        decreases names.len() - i,
    {
        assert(nv.take(i + 1).drop_last() =~= nv.take(i as int));
        assert(nv.take(i + 1).last() == names@[i as int]@);
        if let Some(stem) = source_file_stem(names[i].as_str()) {
            let id = slugify_id(stem.as_str());
            let ghost before = string_views(out@);
            let ghost iv = id@;
            out.push(id);
            assert(string_views(out@) =~= before.push(iv));
        }
        i = i + 1;
    }
    assert(nv.take(i as int) =~= nv);
    out
}

/// The stems of the file sources among the names, in order.
pub open spec fn file_stems(names: Seq<Seq<char>>) -> Seq<Seq<char>>
    decreases names.len(),
{
    if names.len() == 0 {
        Seq::empty()
    } else {
        match file_source_stem(names.last()) {
            Some(s) => file_stems(names.drop_last()).push(s),
            None => file_stems(names.drop_last()),
        }
    }
}

/// The sources the tile server lists, from the file names of the maps folder: the stems
/// of its `.mbtiles`, `.tif` and `.tiff` files, sorted, each once.
pub fn servable_sources(names: &Vec<String>) -> (r: Vec<String>)
    ensures
        strictly_sorted(string_views(r@)),
        string_views(r@).to_set() == file_stems(string_views(names@)).to_set(),
{
    let ghost nv = string_views(names@);
    let mut out: Vec<String> = Vec::new();
    let mut i: usize = 0;
    while i < names.len()
        invariant
            i <= names@.len(),
            nv == string_views(names@),
            string_views(out@) == file_stems(nv.take(i as int)),
        decreases names.len() - i,
    {
        assert(nv.take(i + 1).drop_last() =~= nv.take(i as int));
        assert(nv.take(i + 1).last() == names@[i as int]@);
        if let Some(stem) = source_file_stem(names[i].as_str()) {
            let ghost before = string_views(out@);
            let ghost sv = stem@;
            out.push(stem);
            assert(string_views(out@) =~= before.push(sv));
        }
        i = i + 1;
    }
    assert(nv.take(i as int) =~= nv);
    sorted_unique(out)
}

// ---------------------------------------------------------------------------
// refresh decisions
// ---------------------------------------------------------------------------

/// Zoom range advertised for every PostGIS source.
pub const DEFAULT_MINZOOM: u8 = 0;

/// Zoom range advertised for every PostGIS source.
pub const DEFAULT_MAXZOOM: u8 = 18;

/// A servable PostGIS vector source (one table); its WGS84 bounds are kept beside it.
pub struct PgSourceEntry {
    /// URL-safe id used as `{source}` in the tile path.
    pub id: String,
    pub conn_id: String,
    pub conn_label: String,
    pub schema: String,
    pub table: String,
    pub geom_type: String,
    pub srid: i32,
    /// `(name, pg_type)` of every emitted feature property.
    pub fields: Vec<(String, String)>,
    pub minzoom: u8,
    pub maxzoom: u8,
    /// Cached `ST_AsMVT` query (`$1=z, $2=x, $3=y`).
    pub sql: String,
}

/// The connections a refresh serves: the enabled ones, in order.
pub fn enabled_connections(cfg: &PgConfig) -> (r: Vec<PgConnection>)
    ensures
        conn_views(r@) == conn_views(cfg.connections@).filter(|c: ConnFields| c.enabled),
{
    let ghost cs = conn_views(cfg.connections@);
    let ghost pred = |c: ConnFields| c.enabled;
    let mut out: Vec<PgConnection> = Vec::new();
    let mut i: usize = 0;
    proof {
        reveal(Seq::filter);
    }
    assert(cs.take(0).filter(pred) =~= Seq::<ConnFields>::empty());
    while i < cfg.connections.len()
        invariant
            i <= cfg.connections@.len(),
            cs == conn_views(cfg.connections@),
            pred == (|c: ConnFields| c.enabled),
            conn_views(out@) == cs.take(i as int).filter(pred),
        decreases cfg.connections.len() - i,
    {
        proof {
            reveal(Seq::filter);
            assert(cs.take(i + 1).drop_last() =~= cs.take(i as int));
            assert(cs.take(i + 1).last() == cs[i as int]);
        }
        if cfg.connections[i].enabled {
            let ghost before = conn_views(out@);
            out.push(cfg.connections[i].copy());
            assert(conn_views(out@) =~= before.push(cs[i as int]));
        }
        i = i + 1;
    }
    assert(cs.take(i as int) =~= cs);
    out
}

/// The health of a connection before it is tried: not ok, no message, no tables.
pub fn initial_state(c: &PgConnection) -> (r: ConnState)
    ensures
        r.id@ == c.id@,
        r.label@ == c.label@,
        r.bundled == c.bundled,
        !r.ok,
        r.message@ == Seq::<char>::empty(),
        r.table_count == 0,
{
    ConnState {
        id: c.id.clone(),
        label: c.label.clone(),
        bundled: c.bundled,
        ok: false,
        message: String::new(),
        table_count: 0,
    }
}

/// The health of a connection that could not connect.
pub fn connect_failed(st: ConnState, error: &str) -> (r: ConnState)
    ensures
        r.id == st.id,
        r.label == st.label,
        r.bundled == st.bundled,
        !r.ok,
        r.message@ == "connect failed: "@ + error@,
        r.table_count == st.table_count,
{
    proof {
        reveal_strlit("connect failed: ");
    }
    ConnState { ok: false, message: concat2("connect failed: ", error), ..st }
}

/// The health of a connection whose table discovery failed.
pub fn discovery_failed(st: ConnState, error: String) -> (r: ConnState)
    ensures
        r.id == st.id,
        r.label == st.label,
        r.bundled == st.bundled,
        !r.ok,
        r.message == error,
        r.table_count == st.table_count,
{
    ConnState { ok: false, message: error, ..st }
}

/// What became of one connection during a refresh.
pub enum ConnOutcome {
    /// It could not connect.
    ConnectFailed(String),
    /// It connected, but its tables could not be discovered.
    DiscoveryFailed(String),
    /// Its tables were discovered; `supports_margin` says whether its PostGIS takes the
    /// `ST_TileEnvelope` margin.
    Discovered { tables: Vec<PgTable>, supports_margin: bool },
}

/// What a refresh has decided so far: the ids taken (the file sources' first, then every
/// registered table's) and the health of each connection handled.
pub struct RefreshState {
    /// Ids taken: the `file_count` file-source ids, then the ids of registered tables.
    pub used: Vec<String>,
    /// How many of `used` are file-source ids.
    pub file_count: usize,
    /// The health of the connections handled, in order.
    pub states: Vec<ConnState>,
}

/// The ids a refresh has given to tables so far.
pub open spec fn table_ids(rs: RefreshState) -> Seq<Seq<char>> {
    string_views(rs.used@).skip(rs.file_count as int)
}

/// The ids of the file sources a refresh started from.
pub open spec fn reserved_ids(rs: RefreshState) -> Seq<Seq<char>> {
    string_views(rs.used@).take(rs.file_count as int)
}

/// Law of a refresh: no two tables share an id, and no table takes a file source's id.
pub open spec fn refresh_ids_fresh(rs: RefreshState) -> bool {
    &&& rs.file_count <= rs.used@.len()
    &&& forall|j: int, k: int|
        0 <= j < k < table_ids(rs).len() ==> #[trigger] table_ids(rs)[j] != #[trigger] table_ids(rs)[k]
    &&& forall|k: int|
        0 <= k < table_ids(rs).len() ==> !reserved_ids(rs).contains(#[trigger] table_ids(rs)[k])
}

/// A refresh begins with the ids of the file sources of the maps folder taken, no table
/// registered and no connection handled.
pub fn refresh_start(file_names: &Vec<String>) -> (r: RefreshState)
    ensures
        reserved_ids(r) == file_ids(string_views(file_names@)),
        table_ids(r) == Seq::<Seq<char>>::empty(),
        r.states@.len() == 0,
        refresh_ids_fresh(r),
{
    let used = file_source_ids(file_names);
    let n = used.len();
    let r = RefreshState { used, file_count: n, states: Vec::new() };
    assert(string_views(r.used@).take(n as int) =~= string_views(r.used@));
    assert(table_ids(r) =~= Seq::<Seq<char>>::empty());
    r
}

/// Fold what became of connection `conn` into a refresh: a failed connection or discovery
/// is reported with its error and registers nothing; discovered tables are registered
/// under fresh ids (returned, in table order) and the connection is reported ok with its
/// table count. Every table keeps the refresh's law.
pub fn refresh_step(rs: &mut RefreshState, conn: &PgConnection, outcome: ConnOutcome) -> (r: Vec<PgSourceEntry>)
    requires
        refresh_ids_fresh(*old(rs)),
        outcome matches ConnOutcome::Discovered { tables, .. } ==> old(rs).used@.len() + tables@.len()
            < u64::MAX - 2,
    ensures
        refresh_ids_fresh(*final(rs)),
        reserved_ids(*final(rs)) == reserved_ids(*old(rs)),
        table_ids(*final(rs)) == table_ids(*old(rs)) + r@.map_values(|e: PgSourceEntry| e.id@),
        final(rs).states@.len() == old(rs).states@.len() + 1,
        final(rs).states@.take(old(rs).states@.len() as int) == old(rs).states@,
        ({
            let st = final(rs).states@.last();
            &&& st.id@ == conn.id@
            &&& st.label@ == conn.label@
            &&& st.bundled == conn.bundled
            &&& match outcome {
                ConnOutcome::ConnectFailed(e) => !st.ok && st.message@ == "connect failed: "@ + e@
                    && st.table_count == 0 && r@.len() == 0,
                ConnOutcome::DiscoveryFailed(e) => !st.ok && st.message == e && st.table_count == 0
                    && r@.len() == 0,
                ConnOutcome::Discovered { tables, .. } => st.ok && st.table_count == tables@.len()
                    && r@.len() == tables@.len(),
            }
        }),
        forall|k: int|
            0 <= k < r@.len() ==> (#[trigger] r@[k]).conn_id@ == conn.id@ && r@[k].minzoom
                == DEFAULT_MINZOOM && r@[k].maxzoom == DEFAULT_MAXZOOM,
{
    let st = initial_state(conn);
    let ghost u0 = string_views(rs.used@);
    let ghost fc = rs.file_count as int;
    let ghost s0 = rs.states@;
    let ghost r0 = *rs;
    match outcome {
        ConnOutcome::ConnectFailed(e) => {
            rs.states.push(connect_failed(st, e.as_str()));
            assert(table_ids(*rs) == table_ids(r0) && reserved_ids(*rs) == reserved_ids(r0));
            let r: Vec<PgSourceEntry> = Vec::new();
            assert(table_ids(*rs) =~= table_ids(*rs) + r@.map_values(|e: PgSourceEntry| e.id@));
            assert(rs.states@.take(s0.len() as int) =~= s0);
            r
        },
        ConnOutcome::DiscoveryFailed(e) => {
            rs.states.push(discovery_failed(st, e));
            assert(table_ids(*rs) == table_ids(r0) && reserved_ids(*rs) == reserved_ids(r0));
            let r: Vec<PgSourceEntry> = Vec::new();
            assert(table_ids(*rs) =~= table_ids(*rs) + r@.map_values(|e: PgSourceEntry| e.id@));
            assert(rs.states@.take(s0.len() as int) =~= s0);
            r
        },
        ConnOutcome::Discovered { tables, supports_margin } => {
            let ghost ts = tables@;
            let count = tables.len();
            assert(st.table_count + count <= usize::MAX);
            let (entries, st2) = register_tables(conn, st, tables, supports_margin, &mut rs.used);
            rs.states.push(st2);
            proof {
                let ids = entries@.map_values(|e: PgSourceEntry| e.id@);
                let uf = string_views(rs.used@);
                assert(uf == u0 + ids);
                assert(uf.take(fc) =~= u0.take(fc));
                assert(uf.skip(fc) =~= u0.skip(fc) + ids);
                assert(rs.states@.take(s0.len() as int) =~= s0);
                let old_ids = u0.skip(fc);
                let all = uf.skip(fc);
                // each new id is fresh against everything taken before it
                assert forall|k: int| 0 <= k < ids.len() implies !(u0 + ids.take(k)).contains(
                    #[trigger] ids[k],
                ) by {
                    assert(entries@.take(k).map_values(|e: PgSourceEntry| e.id@) =~= ids.take(k));
                    unique_slug_is_fresh(ts[k].table@, u0 + ids.take(k), ids[k]);
                }
                assert forall|k: int| 0 <= k < all.len() implies !uf.take(fc).contains(
                    #[trigger] all[k],
                ) by {
                    if k >= old_ids.len() {
                        let m = k - old_ids.len();
                        assert(all[k] == ids[m]);
                        if uf.take(fc).contains(all[k]) {
                            let i = choose|i: int| 0 <= i < fc && uf.take(fc)[i] == all[k];
                            assert((u0 + ids.take(m))[i] == u0[i]);
                            assert((u0 + ids.take(m)).contains(ids[m]));
                        }
                    } else {
                        assert(all[k] == old_ids[k]);
                    }
                }
                assert forall|j: int, k: int| 0 <= j < k < all.len() implies #[trigger] all[j]
                    != #[trigger] all[k] by {
                    if k >= old_ids.len() {
                        let m = k - old_ids.len();
                        assert(all[k] == ids[m]);
                        if j >= old_ids.len() {
                            assert(all[j] == ids[j - old_ids.len()]);
                            assert((u0 + ids.take(m))[u0.len() + (j - old_ids.len())] == all[j]);
                        } else {
                            assert(all[j] == u0[fc + j]);
                            assert((u0 + ids.take(m))[fc + j] == all[j]);
                        }
                    } else {
                        assert(all[j] == old_ids[j] && all[k] == old_ids[k]);
                    }
                }
            }
            entries
        },
    }
}

/// The ids of batches of sources, in order.
pub open spec fn batch_ids(b: Seq<Vec<PgSourceEntry>>) -> Seq<Seq<char>>
    decreases b.len(),
{
    if b.len() == 0 {
        Seq::empty()
    } else {
        batch_ids(b.drop_last()) + b.last()@.map_values(|e: PgSourceEntry| e.id@)
    }
}

/// What a whole refresh decides, from the file names of the maps folder, the enabled
/// connections and what became of each (in the same order): one batch of sources and one
/// health entry per connection. A discovered connection registers its tables under fresh
/// ids and is reported ok with its table count; one whose tables would overflow the id
/// counters is reported as failed with `too many tables`. No two sources share an id,
/// and none takes the id of a file source.
pub fn refresh_all(file_names: &Vec<String>, conns: &Vec<PgConnection>, outcomes: Vec<ConnOutcome>) -> (r: (Vec<Vec<PgSourceEntry>>, Vec<ConnState>))
    requires
        outcomes@.len() == conns@.len(),
    ensures
        r.0@.len() == conns@.len(),
        r.1@.len() == conns@.len(),
        forall|i: int|
            0 <= i < conns@.len() ==> {
                let st = #[trigger] r.1@[i];
                &&& st.id@ == conns@[i].id@
                &&& st.label@ == conns@[i].label@
                &&& st.bundled == conns@[i].bundled
                &&& st.table_count == r.0@[i]@.len()
                &&& (st.ok ==> (outcomes@[i] matches ConnOutcome::Discovered { tables, .. }
                    && r.0@[i]@.len() == tables@.len()))
                &&& (outcomes@[i] is Discovered ==> (st.ok || (st.message@ == "too many tables"@
                    && r.0@[i]@.len() == 0)))
                &&& (!(outcomes@[i] is Discovered) ==> !st.ok && r.0@[i]@.len() == 0)
                &&& forall|k: int|
                    0 <= k < r.0@[i]@.len() ==> (#[trigger] r.0@[i]@[k]).conn_id@ == conns@[i].id@
                        && r.0@[i]@[k].minzoom == DEFAULT_MINZOOM && r.0@[i]@[k].maxzoom
                        == DEFAULT_MAXZOOM
            },
        forall|j: int, k: int|
            0 <= j < k < batch_ids(r.0@).len() ==> #[trigger] batch_ids(r.0@)[j]
                != #[trigger] batch_ids(r.0@)[k],
        forall|k: int|
            0 <= k < batch_ids(r.0@).len() ==> !file_ids(string_views(file_names@)).contains(
                #[trigger] batch_ids(r.0@)[k],
            ),
{
    let mut rs = refresh_start(file_names);
    let ghost outs = outcomes@;
    let mut rest = outcomes;
    let mut batches: Vec<Vec<PgSourceEntry>> = Vec::new();
    let mut i: usize = 0;
    assert(rest@ =~= outs.skip(0));
    assert(batch_ids(batches@) =~= table_ids(rs));
    while i < conns.len()
        invariant
            i <= conns@.len() == outs.len(),
            rest@ == outs.skip(i as int),
            batches@.len() == i,
            rs.states@.len() == i,
            refresh_ids_fresh(rs),
            reserved_ids(rs) == file_ids(string_views(file_names@)),
            table_ids(rs) == batch_ids(batches@),
            forall|j: int|
                0 <= j < i ==> {
                    let st = #[trigger] rs.states@[j];
                    &&& st.id@ == conns@[j].id@
                    &&& st.label@ == conns@[j].label@
                    &&& st.bundled == conns@[j].bundled
                    &&& st.table_count == batches@[j]@.len()
                    &&& (st.ok ==> (outs[j] matches ConnOutcome::Discovered { tables, .. }
                        && batches@[j]@.len() == tables@.len()))
                    &&& (outs[j] is Discovered ==> (st.ok || (st.message@ == "too many tables"@
                        && batches@[j]@.len() == 0)))
                    &&& (!(outs[j] is Discovered) ==> !st.ok && batches@[j]@.len() == 0)
                    &&& forall|k: int|
                        0 <= k < batches@[j]@.len() ==> (#[trigger] batches@[j]@[k]).conn_id@
                            == conns@[j].id@ && batches@[j]@[k].minzoom == DEFAULT_MINZOOM
                            && batches@[j]@[k].maxzoom == DEFAULT_MAXZOOM
                },
        decreases conns.len() - i,
    {
        let out = rest.remove(0);
        assert(out == outs[i as int]);
        assert(rest@ =~= outs.skip(i + 1));
        let ghost before_states = rs.states@;
        let ghost before_batches = batches@;
        let too_many = match &out {
            ConnOutcome::Discovered { tables, .. } => {
                let n = tables.len();
                (rs.used.len() as u128) + (n as u128) >= 0xffff_ffff_ffff_fffdu128
            },
            _ => false,
        };
        let step = if too_many {
            proof {
                reveal_strlit("too many tables");
            }
            ConnOutcome::DiscoveryFailed("too many tables".to_string())
        } else {
            out
        };
        let ghost step_v = step;
        let entries = refresh_step(&mut rs, &conns[i], step);
        let ghost ev = entries@;
        proof {
            let st = rs.states@.last();
            if too_many {
                assert(outs[i as int] is Discovered);
                assert(!st.ok && st.message@ == "too many tables"@ && ev.len() == 0);
            } else {
                assert(step_v == outs[i as int]);
            }
        }
        batches.push(entries);
        proof {
            assert(batches@[i as int]@ == ev);
            assert forall|k: int| 0 <= k < batches@[i as int]@.len() implies (#[trigger] batches@[i as int]@[k]).conn_id@
                == conns@[i as int].id@ && batches@[i as int]@[k].minzoom == DEFAULT_MINZOOM
                && batches@[i as int]@[k].maxzoom == DEFAULT_MAXZOOM by {
                assert(batches@[i as int]@[k] == ev[k]);
            }
            assert(batches@.drop_last() =~= before_batches);
            assert(rs.states@.take(i as int) =~= before_states);
            assert forall|j: int| 0 <= j < i implies #[trigger] rs.states@[j] == before_states[j] && batches@[j] == before_batches[j] by {
                assert(rs.states@.take(i as int)[j] == rs.states@[j]);
            }
            let st = rs.states@[i as int];
            assert(st == rs.states@.last());
            assert(batches@[i as int] == batches@.last());
            assert(batches@[i as int] == entries);
        }
        i = i + 1;
    }
    let states = rs.states;
    proof {
        assert(reserved_ids(rs) == file_ids(string_views(file_names@)));
    }
    (batches, states)
}

/// A live pool is reused only when its connection string is unchanged.
pub fn reuse_pool(existing: &Option<String>, conn_str: &String) -> (r: bool)
    ensures
        r == (existing matches Some(s) && s@ == conn_str@),
{
    match existing {
        Some(s) => *s == *conn_str,
        None => false,
    }
}

/// The bundled cluster is (re)started when its pool is missing or it is not running.
pub fn needs_bundled_start(have_pool: bool, running: bool) -> (r: bool)
    ensures
        r == (!have_pool || !running),
{
    !have_pool || !running
}

/// Seconds until the next automatic refresh: the configured interval, or `None` when it is
/// zero, which turns automatic refresh off (only an explicit refresh or reconnect runs).
pub fn refresh_interval(seconds: u64) -> (r: Option<u64>)
    ensures
        seconds == 0 ==> r is None,
        seconds != 0 ==> r == Some(seconds),
{
    if seconds == 0 {
        None
    } else {
        Some(seconds)
    }
}

/// Register the discovered tables of a connection: each gets a fresh id and its tile
/// query, and the connection is reported ok with its table count.
pub fn register_tables(
    conn: &PgConnection,
    st: ConnState,
    tables: Vec<PgTable>,
    supports_margin: bool,
    used: &mut Vec<String>,
) -> (r: (Vec<PgSourceEntry>, ConnState))
    requires
        old(used)@.len() + tables@.len() < u64::MAX - 2,
        st.table_count + tables@.len() <= usize::MAX,
    ensures
        r.0@.len() == tables@.len(),
        string_views(final(used)@) == string_views(old(used)@) + r.0@.map_values(
            |e: PgSourceEntry| e.id@,
        ),
        forall|k: int|
            0 <= k < r.0@.len() ==> {
                let e = #[trigger] r.0@[k];
                let t = tables@[k];
                &&& unique_slug_ok(
                    t.table@,
                    string_views(old(used)@) + r.0@.take(k).map_values(|e: PgSourceEntry| e.id@),
                    e.id@,
                )
                &&& e.conn_id@ == conn.id@
                &&& e.conn_label@ == conn.label@
                &&& e.schema@ == t.schema@
                &&& e.table@ == t.table@
                &&& e.geom_type@ == t.geom_type@
                &&& e.srid == t.srid
                &&& e.fields@ == t.properties@
                &&& e.minzoom == DEFAULT_MINZOOM
                &&& e.maxzoom == DEFAULT_MAXZOOM
                &&& e.sql@ == mvt_sql_spec(t, supports_margin)
            },
        r.1.id == st.id,
        r.1.label == st.label,
        r.1.bundled == st.bundled,
        r.1.ok,
        r.1.message == st.message,
        r.1.table_count == st.table_count + tables@.len(),
{
    let ghost u0 = string_views(used@);
    let ghost ts = tables@;
    let mut out: Vec<PgSourceEntry> = Vec::new();
    let mut count = st.table_count;
    let mut rest = tables;
    let mut k: usize = 0;
    assert(rest@ =~= ts.skip(0));
    while rest.len() > 0
        invariant
            k + rest@.len() == ts.len(),
            rest@ == ts.skip(k as int),
            out@.len() == k,
            count == st.table_count + k,
            u0.len() + ts.len() < u64::MAX - 2,
            st.table_count + ts.len() <= usize::MAX,
            string_views(used@) == u0 + out@.map_values(|e: PgSourceEntry| e.id@),
            forall|j: int|
                0 <= j < k ==> {
                    let e = #[trigger] out@[j];
                    let t = ts[j];
                    &&& unique_slug_ok(
                        t.table@,
                        u0 + out@.take(j).map_values(|e: PgSourceEntry| e.id@),
                        e.id@,
                    )
                    &&& e.conn_id@ == conn.id@
                    &&& e.conn_label@ == conn.label@
                    &&& e.schema@ == t.schema@
                    &&& e.table@ == t.table@
                    &&& e.geom_type@ == t.geom_type@
                    &&& e.srid == t.srid
                    &&& e.fields@ == t.properties@
                    &&& e.minzoom == DEFAULT_MINZOOM
                    &&& e.maxzoom == DEFAULT_MAXZOOM
                    &&& e.sql@ == mvt_sql_spec(t, supports_margin)
                },
        decreases rest@.len(),
    {
        let t = rest.remove(0);
        assert(t == ts[k as int]);
        assert(rest@ =~= ts.skip(k + 1));
        let ghost before_ids = string_views(used@);
        assert(used@.len() == before_ids.len());
        assert(before_ids.len() == u0.len() + k);
        let id = unique_slug(t.table.as_str(), used);
        let sql = t.build_mvt_sql(supports_margin);
        let ghost tv = t;
        let e = PgSourceEntry {
            id,
            conn_id: conn.id.clone(),
            conn_label: conn.label.clone(),
            schema: t.schema,
            table: t.table,
            geom_type: t.geom_type,
            srid: t.srid,
            fields: t.properties,
            minzoom: DEFAULT_MINZOOM,
            maxzoom: DEFAULT_MAXZOOM,
            sql,
        };
        let ghost prev = out@;
        out.push(e);
        assert(out@.take(k as int) =~= prev);
        assert(out@.map_values(|e: PgSourceEntry| e.id@) =~= prev.map_values(
            |e: PgSourceEntry| e.id@,
        ).push(out@[k as int].id@));
        assert(before_ids == u0 + out@.take(k as int).map_values(|e: PgSourceEntry| e.id@));
        assert forall|j: int| 0 <= j < k implies out@.take(j) =~= prev.take(j) by {}
        count = count + 1;
        k = k + 1;
    }
    (out, ConnState { ok: true, table_count: count, ..st })
}

/// A tile's coordinates as the `i32` query parameters, when they fit.
pub fn tile_params(z: u32, x: u32, y: u32) -> (r: Option<(i32, i32, i32)>)
    ensures
        r is Some <==> (z <= i32::MAX && x <= i32::MAX && y <= i32::MAX),
        r matches Some((a, b, c)) ==> a == z && b == x && c == y,
{
    if z <= 0x7fff_ffff && x <= 0x7fff_ffff && y <= 0x7fff_ffff {
        Some((z as i32, x as i32, y as i32))
    } else {
        None
    }
}

/// The ids of the sources, sorted, each once (the listing order of the catalog).
pub fn sorted_source_ids(sources: &Vec<PgSourceEntry>) -> (r: Vec<String>)
    ensures
        strictly_sorted(string_views(r@)),
        string_views(r@).to_set() == sources@.map_values(|e: PgSourceEntry| e.id@).to_set(),
{
    let mut ids: Vec<String> = Vec::new();
    let mut i: usize = 0;
    while i < sources.len()
        invariant
            i <= sources@.len(),
            string_views(ids@) == sources@.take(i as int).map_values(|e: PgSourceEntry| e.id@),
        decreases sources.len() - i,
    {
        let ghost before = string_views(ids@);
        let ghost x = sources@[i as int].id@;
        ids.push(sources[i].id.clone());
        assert(string_views(ids@) =~= before.push(x));
        assert(sources@.take(i + 1) =~= sources@.take(i as int).push(sources@[i as int]));
        assert(sources@.take(i + 1).map_values(|e: PgSourceEntry| e.id@) =~= sources@.take(
            i as int,
        ).map_values(|e: PgSourceEntry| e.id@).push(x));
        i = i + 1;
    }
    assert(sources@.take(i as int) =~= sources@);
    sorted_unique(ids)
}

} // verus!
