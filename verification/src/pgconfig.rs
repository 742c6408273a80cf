//! The PostGIS connection registry model (persisted as `connections.json`): connections,
//! the bundled-cluster default, and libpq keyword/value connection strings.

use vstd::prelude::*;
use crate::paths::{joined, normal_name, plain_abs_dir, plain_name, sibling_path};
use crate::text::{chars_of, decimal, push_all, push_decimal, push_str, string_of};

verus! {

/// Loopback port the bundled PostgreSQL listens on.
pub const BUNDLED_PORT: u16 = 5433;

/// Default superuser of the bundled cluster.
pub const BUNDLED_USER: &'static str = "postgres";

/// Default database created inside the bundled cluster.
pub const BUNDLED_DB: &'static str = "gis";

/// Default password of the bundled cluster (loopback only, editable).
pub const BUNDLED_PASSWORD: &'static str = "mapstudio";

/// Stable id of the bundled connection.
pub const BUNDLED_ID: &'static str = "bundled";

/// Default re-discovery period in seconds.
pub const DEFAULT_REFRESH_SECONDS: u64 = 30;

/// A single PostgreSQL/PostGIS connection the app discovers and serves from.
pub struct PgConnection {
    /// Stable, URL-safe id (`bundled`, or a user-chosen slug).
    pub id: String,
    /// Human label shown in the catalog.
    pub label: String,
    pub host: String,
    pub port: u16,
    pub dbname: String,
    pub user: String,
    pub password: String,
    /// libpq sslmode (`disable` | `prefer` | `require` | ...).
    pub sslmode: String,
    pub enabled: bool,
    /// True only for the app's managed, embedded cluster.
    pub bundled: bool,
}

/// The field values of a connection.
pub struct ConnFields {
    pub id: Seq<char>,
    pub label: Seq<char>,
    pub host: Seq<char>,
    pub port: u16,
    pub dbname: Seq<char>,
    pub user: Seq<char>,
    pub password: Seq<char>,
    pub sslmode: Seq<char>,
    pub enabled: bool,
    pub bundled: bool,
}

impl View for PgConnection {
    type V = ConnFields;

    open spec fn view(&self) -> ConnFields {
        ConnFields {
            id: self.id@,
            label: self.label@,
            host: self.host@,
            port: self.port,
            dbname: self.dbname@,
            user: self.user@,
            password: self.password@,
            sslmode: self.sslmode@,
            enabled: self.enabled,
            bundled: self.bundled,
        }
    }
}

/// The built-in embedded PostGIS connection.
pub open spec fn bundled_default_spec() -> ConnFields {
    ConnFields {
        id: "bundled"@,
        label: "Bundled PostGIS"@,
        host: "127.0.0.1"@,
        port: BUNDLED_PORT,
        dbname: "gis"@,
        user: "postgres"@,
        password: "mapstudio"@,
        sslmode: "disable"@,
        enabled: true,
        bundled: true,
    }
}

/// One character of a libpq value: a backslash or single quote is preceded by a backslash.
pub open spec fn libpq_escape_char(c: char) -> Seq<char> {
    if c == '\\' {
        seq!['\\', '\\']
    } else if c == '\'' {
        seq!['\\', '\'']
    } else {
        seq![c]
    }
}

/// `v` with every backslash and single quote escaped by a backslash.
pub open spec fn libpq_escape(v: Seq<char>) -> Seq<char>
    decreases v.len(),
{
    if v.len() == 0 {
        Seq::empty()
    } else {
        libpq_escape(v.drop_last()) + libpq_escape_char(v.last())
    }
}

proof fn lemma_escape_one(c: char)
    ensures
        libpq_escape(seq![c]) == libpq_escape_char(c),
{
    assert(seq![c].drop_last() =~= Seq::<char>::empty());
    assert(libpq_escape(Seq::<char>::empty()) == Seq::<char>::empty());
    assert(Seq::<char>::empty() + libpq_escape_char(c) =~= libpq_escape_char(c));
}

/// A libpq connection-string value: single-quoted, with `\` and `'` escaped.
pub open spec fn libpq_quote(v: Seq<char>) -> Seq<char> {
    seq!['\''] + libpq_escape(v) + seq!['\'']
}

/// The libpq keyword/value connection string of a connection.
pub open spec fn conn_string_spec(c: ConnFields) -> Seq<char> {
    "host="@ + libpq_quote(c.host) + " port="@ + decimal(c.port as nat) + " dbname="@
        + libpq_quote(c.dbname) + " user="@ + libpq_quote(c.user) + " password="@ + libpq_quote(
        c.password,
    ) + " sslmode="@ + libpq_quote(c.sslmode)
}

/// Appends `libpq_quote(v)` to `out`.
pub fn push_libpq_quoted(out: &mut Vec<char>, v: &str)
    ensures
        final(out)@ == old(out)@ + libpq_quote(v@),
{
    let cs = chars_of(v);
    let ghost start = out@;
    out.push('\'');
    let mut i: usize = 0;
    assert(cs@.take(0) =~= Seq::<char>::empty());
    while i < cs.len()
        invariant
            i <= cs@.len(),
            cs@ == v@,
            out@ == start + seq!['\''] + libpq_escape(cs@.take(i as int)),
        decreases cs.len() - i,
    {
        let c = cs[i];
        if c == '\\' {
            out.push('\\');
            out.push('\\');
        } else if c == '\'' {
            out.push('\\');
            out.push('\'');
        } else {
            out.push(c);
        }
        proof {
            let t = cs@.take(i + 1);
            assert(t.drop_last() =~= cs@.take(i as int));
            assert(t.last() == c);
        }
        i = i + 1;
        assert(out@ =~= start + seq!['\''] + libpq_escape(cs@.take(i as int)));
    }
    out.push('\'');
    assert(cs@.take(i as int) =~= cs@);
    assert(out@ =~= start + libpq_quote(v@));
}

/// Reading back a libpq-quoted value: `\` escapes the next character.
pub open spec fn libpq_unescape(v: Seq<char>) -> Seq<char>
    decreases v.len(),
{
    if v.len() == 0 {
        Seq::empty()
    } else if v[0] == '\\' && v.len() >= 2 {
        seq![v[1]] + libpq_unescape(v.skip(2))
    } else {
        seq![v[0]] + libpq_unescape(v.drop_first())
    }
}

proof fn lemma_libpq_unescape_append(a: Seq<char>, c: char)
    ensures
        libpq_unescape(libpq_escape(a) + libpq_escape(seq![c])) == libpq_unescape(libpq_escape(a))
            + seq![c],
    decreases a.len(),
{
    let tail = libpq_escape(seq![c]);
    lemma_escape_one(c);
    if a.len() == 0 {
        assert(libpq_escape(a) =~= Seq::<char>::empty());
        assert(libpq_escape(a) + tail =~= tail);
        if c == '\\' || c == '\'' {
            assert(tail.skip(2) =~= Seq::<char>::empty());
        } else {
            assert(tail.drop_first() =~= Seq::<char>::empty());
        }
    } else {
        let h = a[0];
        let rest = a.drop_first();
        lemma_escape_prefix(a);
        lemma_libpq_unescape_append(rest, c);
        let eh = libpq_escape(seq![h]);
        assert(libpq_escape(a) == eh + libpq_escape(rest));
        assert(eh + libpq_escape(rest) + tail =~= eh + (libpq_escape(rest) + tail));
        lemma_unescape_head(h, libpq_escape(rest) + tail);
        lemma_unescape_head(h, libpq_escape(rest));
        assert(seq![h] + (libpq_unescape(libpq_escape(rest)) + seq![c]) =~= seq![h]
            + libpq_unescape(libpq_escape(rest)) + seq![c]);
    }
}

/// `libpq_escape` distributes over a leading character.
proof fn lemma_escape_prefix(a: Seq<char>)
    requires
        a.len() > 0,
    ensures
        libpq_escape(a) == libpq_escape(seq![a[0]]) + libpq_escape(a.drop_first()),
    decreases a.len(),
{
    lemma_escape_one(a[0]);
    if a.len() == 1 {
        assert(a.drop_first() =~= Seq::<char>::empty());
        assert(a =~= seq![a[0]]);
    } else {
        let b = a.drop_last();
        lemma_escape_prefix(b);
        assert(b[0] == a[0]);
        assert(b.drop_first() =~= a.drop_first().drop_last());
        assert(a.drop_first().last() == a.last());
    }
}

/// Unescaping the escape of one character followed by `rest`.
proof fn lemma_unescape_head(h: char, rest: Seq<char>)
    ensures
        libpq_unescape(libpq_escape(seq![h]) + rest) == seq![h] + libpq_unescape(rest),
{
    let e = libpq_escape(seq![h]);
    lemma_escape_one(h);
    if h == '\\' || h == '\'' {
        assert((e + rest).skip(2) =~= rest);
        assert((e + rest)[1] == h);
    } else {
        assert((e + rest).drop_first() =~= rest);
        assert((e + rest)[0] == h);
    }
}

/// Reading back an escaped value gives the value.
pub proof fn lemma_libpq_roundtrip(v: Seq<char>)
    ensures
        libpq_unescape(libpq_escape(v)) == v,
    decreases v.len(),
{
    if v.len() == 0 {
        assert(libpq_escape(v) =~= Seq::<char>::empty());
    } else {
        let a = v.drop_last();
        let c = v.last();
        lemma_libpq_roundtrip(a);
        lemma_escape_one(c);
        assert(libpq_escape(v) == libpq_escape(a) + libpq_escape(seq![c]));
        lemma_libpq_unescape_append(a, c);
        assert(a + seq![c] =~= v);
    }
}

/// Law: a libpq-quoted connection value reads back as exactly the original value, so
/// spaces, quotes or backslashes in a password cannot break the connection string.
pub proof fn libpq_quote_reads_back(v: Seq<char>)
    ensures
        libpq_unescape(libpq_quote(v).subrange(1, libpq_quote(v).len() - 1)) == v,
{
    assert(libpq_quote(v).subrange(1, libpq_quote(v).len() - 1) =~= libpq_escape(v));
    lemma_libpq_roundtrip(v);
}

impl PgConnection {
    /// A copy of this connection.
    pub fn copy(&self) -> (r: Self)
        ensures
            r@ == self@,
    {
        PgConnection {
            id: self.id.clone(),
            label: self.label.clone(),
            host: self.host.clone(),
            port: self.port,
            dbname: self.dbname.clone(),
            user: self.user.clone(),
            password: self.password.clone(),
            sslmode: self.sslmode.clone(),
            enabled: self.enabled,
            bundled: self.bundled,
        }
    }

    /// The built-in embedded PostGIS connection.
    pub fn bundled_default() -> (r: Self)
        ensures
            r@ == bundled_default_spec(),
    {
        proof {
            reveal_strlit("bundled");
            reveal_strlit("Bundled PostGIS");
            reveal_strlit("127.0.0.1");
            reveal_strlit("gis");
            reveal_strlit("postgres");
            reveal_strlit("mapstudio");
            reveal_strlit("disable");
        }
        PgConnection {
            id: BUNDLED_ID.to_string(),
            label: "Bundled PostGIS".to_string(),
            host: "127.0.0.1".to_string(),
            port: BUNDLED_PORT,
            dbname: BUNDLED_DB.to_string(),
            user: BUNDLED_USER.to_string(),
            password: BUNDLED_PASSWORD.to_string(),
            sslmode: "disable".to_string(),
            enabled: true,
            bundled: true,
        }
    }

    /// libpq-style keyword/value connection string: every value is single-quoted with
    /// embedded quotes and backslashes escaped.
    pub fn conn_string(&self) -> (r: String)
        ensures
            r@ == conn_string_spec(self@),
    {
        let mut v = chars_of("host=");
        push_libpq_quoted(&mut v, self.host.as_str());
        push_str(&mut v, " port=");
        push_decimal(&mut v, self.port as u64);
        push_str(&mut v, " dbname=");
        push_libpq_quoted(&mut v, self.dbname.as_str());
        push_str(&mut v, " user=");
        push_libpq_quoted(&mut v, self.user.as_str());
        push_str(&mut v, " password=");
        push_libpq_quoted(&mut v, self.password.as_str());
        push_str(&mut v, " sslmode=");
        push_libpq_quoted(&mut v, self.sslmode.as_str());
        assert(v@ =~= conn_string_spec(self@));
        string_of(&v)
    }

    /// Connection string against the cluster's default `postgres` database (bootstrap).
    pub fn maintenance_conn_string(&self) -> (r: String)
        ensures
            r@ == conn_string_spec(ConnFields { dbname: "postgres"@, ..self@ }),
    {
        let mut c = self.copy();
        c.dbname = "postgres".to_string();
        proof {
            reveal_strlit("postgres");
        }
        c.conn_string()
    }
}

/// Whole registry: a refresh cadence plus the list of connections.
pub struct PgConfig {
    /// How often (seconds) to re-discover tables; 0 disables auto-refresh.
    pub refresh_seconds: u64,
    pub connections: Vec<PgConnection>,
}

/// Field values of the connections of a configuration.
pub open spec fn conn_views(cs: Seq<PgConnection>) -> Seq<ConnFields> {
    cs.map_values(|c: PgConnection| c@)
}

/// Some connection is the bundled one.
pub open spec fn has_bundled(cs: Seq<ConnFields>) -> bool {
    exists|i: int| 0 <= i < cs.len() && (#[trigger] cs[i]).bundled
}

/// The connections of `with_bundled`: unchanged when one is bundled, else the bundled
/// default first.
pub open spec fn with_bundled_spec(cs: Seq<ConnFields>) -> Seq<ConnFields> {
    if has_bundled(cs) {
        cs
    } else {
        seq![bundled_default_spec()] + cs
    }
}

/// Law: adding the bundled connection is idempotent, and afterwards one is present.
pub proof fn with_bundled_idempotent(cs: Seq<ConnFields>)
    ensures
        has_bundled(with_bundled_spec(cs)),
        with_bundled_spec(with_bundled_spec(cs)) == with_bundled_spec(cs),
{
    if !has_bundled(cs) {
        let r = seq![bundled_default_spec()] + cs;
        assert(r[0].bundled);
    }
}

/// Index of the first bundled connection, if any.
pub open spec fn first_bundled(cs: Seq<ConnFields>) -> Option<int> {
    if has_bundled(cs) {
        Some(
            choose|i: int|
                0 <= i < cs.len() && (#[trigger] cs[i]).bundled && forall|j: int|
                    0 <= j < i ==> !cs[j].bundled,
        )
    } else {
        None
    }
}

/// The index `first_bundled` gives is in range and marks a bundled connection, and no
/// earlier connection is bundled; it gives none exactly when no connection is bundled.
pub proof fn lemma_first_bundled(cs: Seq<ConnFields>)
    ensures
        first_bundled(cs) matches Some(i) ==> 0 <= i < cs.len() && cs[i].bundled && forall|j: int|
            0 <= j < i ==> !cs[j].bundled,
        first_bundled(cs) is None ==> forall|j: int| 0 <= j < cs.len() ==> !(#[trigger] cs[j]).bundled,
{
    if has_bundled(cs) {
        let w = choose|i: int| 0 <= i < cs.len() && (#[trigger] cs[i]).bundled;
        lemma_least_bundled(cs, w);
    }
}

/// Below a known bundled connection there is a least one.
proof fn lemma_least_bundled(cs: Seq<ConnFields>, w: int)
    requires
        0 <= w < cs.len(),
        cs[w].bundled,
    ensures
        exists|i: int|
            0 <= i < cs.len() && (#[trigger] cs[i]).bundled && forall|j: int|
                0 <= j < i ==> !cs[j].bundled,
    decreases w,
{
    if exists|j: int| 0 <= j < w && (#[trigger] cs[j]).bundled {
        let v = choose|j: int| 0 <= j < w && (#[trigger] cs[j]).bundled;
        lemma_least_bundled(cs, v);
    } else {
        assert(forall|j: int| 0 <= j < w ==> !cs[j].bundled);
    }
}

impl PgConfig {
    /// The default configuration: the bundled connection only, refreshed every 30 s.
    pub fn default_config() -> (r: Self)
        ensures
            r.refresh_seconds == DEFAULT_REFRESH_SECONDS,
            conn_views(r.connections@) == seq![bundled_default_spec()],
    {
        let mut v: Vec<PgConnection> = Vec::new();
        v.push(PgConnection::bundled_default());
        assert(conn_views(v@) =~= seq![bundled_default_spec()]);
        PgConfig { refresh_seconds: DEFAULT_REFRESH_SECONDS, connections: v }
    }

    /// Position of the first bundled connection.
    fn bundled_index(&self) -> (r: Option<usize>)
        ensures
            match r {
                Some(i) => i < self.connections@.len() && self.connections@[i as int].bundled
                    && forall|j: int| 0 <= j < i ==> !self.connections@[j].bundled,
                None => forall|j: int|
                    0 <= j < self.connections@.len() ==> !self.connections@[j].bundled,
            },
    {
        let mut i: usize = 0;
        while i < self.connections.len()
            invariant
                i <= self.connections@.len(),
                forall|j: int| 0 <= j < i ==> !self.connections@[j].bundled,
            decreases self.connections.len() - i,
        {
            if self.connections[i].bundled {
                return Some(i);
            }
            i = i + 1;
        }
        None
    }

    /// Guarantee a bundled connection is present (so the embedded database is always
    /// served): when none is, the bundled default is inserted first.
    pub fn with_bundled(self) -> (r: Self)
        ensures
            r.refresh_seconds == self.refresh_seconds,
            conn_views(r.connections@) == with_bundled_spec(conn_views(self.connections@)),
    {
        let mut me = self;
        let ghost before = conn_views(me.connections@);
        let found = me.bundled_index();
        match found {
            Some(i) => {
                assert(before[i as int].bundled);
                me
            },
            None => {
                assert(!has_bundled(before)) by {
                    assert forall|i: int| 0 <= i < before.len() implies !(
                    #[trigger] before[i]).bundled by {
                        assert(!me.connections@[i].bundled);
                    }
                }
                me.connections.insert(0, PgConnection::bundled_default());
                assert(conn_views(me.connections@) =~= seq![bundled_default_spec()] + before);
                me
            },
        }
    }

    /// The bundled connection, if any (the first one marked bundled).
    pub fn bundled(&self) -> (r: Option<&PgConnection>)
        ensures
            match first_bundled(conn_views(self.connections@)) {
                Some(i) => r matches Some(c) && c@ == conn_views(self.connections@)[i],
                None => r is None,
            },
    {
        let ghost cs = conn_views(self.connections@);
        proof {
            lemma_first_bundled(cs);
        }
        match self.bundled_index() {
            Some(i) => {
                assert(cs[i as int].bundled);
                assert(has_bundled(cs));
                let ghost k = first_bundled(cs)->0;
                assert(k == i) by {
                    if k < i {
                        assert(!self.connections@[k].bundled);
                    }
                    if i < k {
                        assert(!cs[i as int].bundled);
                    }
                }
                Some(&self.connections[i])
            },
            None => {
                assert(!has_bundled(cs)) by {
                    assert forall|i: int| 0 <= i < cs.len() implies !(#[trigger] cs[i]).bundled by {
                        assert(!self.connections@[i].bundled);
                    }
                }
                None
            },
        }
    }
}

/// Standard location of `connections.json` given the maps directory: next to the maps
/// directory (in its parent).
pub fn config_path_for(maps_dir: &str) -> (r: String)
    ensures
        exists|d: Seq<char>|
            (d == maps_dir@ || (d.len() < maps_dir@.len() && maps_dir@.take(d.len() as int) == d))
                && joined(r@, d, "connections.json"@),
        maps_dir@ == seq!['/'] ==> r@ == seq!['/'] + "connections.json"@,
        (maps_dir@.len() >= 2 && maps_dir@[0] == '/' && normal_name(maps_dir@.skip(1))) ==> r@
            == seq!['/'] + "connections.json"@,
        forall|k: int|
            0 < k < maps_dir@.len() && #[trigger] maps_dir@[k] == '/' && plain_abs_dir(
                maps_dir@.take(k),
            ) && normal_name(maps_dir@.skip(k + 1)) ==> joined(r@, maps_dir@.take(k), "connections.json"@),
{
    proof {
        reveal_strlit("connections.json");
    }
    sibling_path(maps_dir, "connections.json")
}

} // verus!
