//! SQL text for PostGIS: identifier and literal quoting, the cacheable `ST_AsMVT` tile
//! query of a discovered table, and the maintenance statements the app issues.

use vstd::prelude::*;
use crate::text::{chars_of, decimal, push_decimal, push_str, string_of};

verus! {

/// MVT tile extent (coordinate resolution inside a tile).
pub const EXTENT: u32 = 4096;

/// MVT buffer around a tile, in tile coordinates.
pub const BUFFER: u32 = 64;

/// `s` with every occurrence of `q` doubled.
pub open spec fn double_char(s: Seq<char>, q: char) -> Seq<char>
    decreases s.len(),
{
    if s.len() == 0 {
        Seq::empty()
    } else {
        double_char(s.drop_last(), q) + if s.last() == q {
            seq![q, q]
        } else {
            seq![s.last()]
        }
    }
}

/// A quoted SQL identifier: double-quoted, embedded double quotes doubled.
pub open spec fn sql_ident_spec(s: Seq<char>) -> Seq<char> {
    seq!['"'] + double_char(s, '"') + seq!['"']
}

/// A quoted SQL string literal: single-quoted, embedded single quotes doubled.
pub open spec fn sql_lit_spec(s: Seq<char>) -> Seq<char> {
    seq!['\''] + double_char(s, '\'') + seq!['\'']
}

/// Appends `double_char(s, q)` to `out`.
pub fn push_doubled(out: &mut Vec<char>, s: &str, q: char)
    ensures
        final(out)@ == old(out)@ + double_char(s@, q),
{
    let cs = chars_of(s);
    let ghost start = out@;
    let mut i: usize = 0;
    assert(cs@.take(0) =~= Seq::<char>::empty());
    while i < cs.len()
        invariant
            i <= cs@.len(),
            cs@ == s@,
            out@ == start + double_char(cs@.take(i as int), q),
        decreases cs.len() - i,
    {
        let c = cs[i];
        out.push(c);
        if c == q {
            out.push(q);
        }
        proof {
            let t = cs@.take(i + 1);
            assert(t.drop_last() =~= cs@.take(i as int));
            assert(t.last() == c);
        }
        i = i + 1;
        assert(out@ =~= start + double_char(cs@.take(i as int), q));
    }
    assert(cs@.take(i as int) =~= cs@);
}

/// Quote a SQL identifier (double-quote, double any embedded quote).
pub fn sql_ident(s: &str) -> (r: String)
    ensures
        r@ == sql_ident_spec(s@),
{
    let mut v: Vec<char> = Vec::new();
    v.push('"');
    push_doubled(&mut v, s, '"');
    v.push('"');
    assert(v@ =~= sql_ident_spec(s@));
    string_of(&v)
}

/// Quote a SQL string literal (single-quote, double any embedded quote).
pub fn sql_lit(s: &str) -> (r: String)
    ensures
        r@ == sql_lit_spec(s@),
{
    let mut v: Vec<char> = Vec::new();
    v.push('\'');
    push_doubled(&mut v, s, '\'');
    v.push('\'');
    assert(v@ =~= sql_lit_spec(s@));
    string_of(&v)
}

/// How SQL reads the body of a quoted token: a doubled quote stands for one quote.
pub open spec fn undouble(s: Seq<char>, q: char) -> Seq<char>
    decreases s.len(),
{
    if s.len() == 0 {
        Seq::empty()
    } else if s[0] == q && s.len() >= 2 && s[1] == q {
        seq![q] + undouble(s.skip(2), q)
    } else {
        seq![s[0]] + undouble(s.drop_first(), q)
    }
}

/// Inside a doubled body every quote is immediately followed by a second one.
pub open spec fn quotes_paired(s: Seq<char>, q: char) -> bool
    decreases s.len(),
{
    if s.len() == 0 {
        true
    } else if s[0] == q {
        s.len() >= 2 && s[1] == q && quotes_paired(s.skip(2), q)
    } else {
        quotes_paired(s.drop_first(), q)
    }
}

proof fn lemma_double_one(c: char, q: char)
    ensures
        double_char(seq![c], q) == (if c == q {
            seq![q, q]
        } else {
            seq![c]
        }),
{
    assert(seq![c].drop_last() =~= Seq::<char>::empty());
    assert(double_char(Seq::<char>::empty(), q) == Seq::<char>::empty());
    assert(Seq::<char>::empty() + (if c == q {
        seq![q, q]
    } else {
        seq![c]
    }) =~= (if c == q {
        seq![q, q]
    } else {
        seq![c]
    }));
}

proof fn lemma_double_prefix(a: Seq<char>, q: char)
    requires
        a.len() > 0,
    ensures
        double_char(a, q) == double_char(seq![a[0]], q) + double_char(a.drop_first(), q),
    decreases a.len(),
{
    lemma_double_one(a[0], q);
    if a.len() == 1 {
        assert(a.drop_first() =~= Seq::<char>::empty());
        assert(a =~= seq![a[0]]);
    } else {
        let b = a.drop_last();
        lemma_double_prefix(b, q);
        assert(b[0] == a[0]);
        assert(b.drop_first() =~= a.drop_first().drop_last());
        assert(a.drop_first().last() == a.last());
    }
}

/// Law: a quoted SQL identifier or literal reads back as exactly the original text, and
/// its body holds no lone quote that could end the token early.
pub proof fn sql_quote_reads_back(s: Seq<char>, q: char)
    ensures
        undouble(double_char(s, q), q) == s,
        quotes_paired(double_char(s, q), q),
    decreases s.len(),
{
    if s.len() == 0 {
        assert(double_char(s, q) =~= Seq::<char>::empty());
    } else {
        let h = s[0];
        let rest = s.drop_first();
        sql_quote_reads_back(rest, q);
        lemma_double_prefix(s, q);
        lemma_double_one(h, q);
        let d = double_char(s, q);
        let dr = double_char(rest, q);
        if h == q {
            assert(d.skip(2) =~= dr);
            assert(d[0] == q && d[1] == q);
        } else {
            assert(d.drop_first() =~= dr);
            assert(d[0] == h);
        }
        assert(seq![h] + rest =~= s);
    }
}

/// Decimal text of a signed integer (`Display` of `i32`).
pub open spec fn int_text(i: int) -> Seq<char> {
    if i < 0 {
        seq!['-'] + decimal((-i) as nat)
    } else {
        decimal(i as nat)
    }
}

/// Appends `int_text(i)` to `out`.
pub fn push_i32(out: &mut Vec<char>, i: i32)
    ensures
        final(out)@ == old(out)@ + int_text(i as int),
{
    if i < 0 {
        out.push('-');
        let m: u64 = (0i64 - (i as i64)) as u64;
        push_decimal(out, m);
        assert(out@ =~= old(out)@ + int_text(i as int));
    } else {
        push_decimal(out, i as u64);
    }
}

/// `BUFFER / EXTENT` as printed by `f64` `Display` (exactly 64/4096).
pub open spec fn margin_text() -> Seq<char> {
    "0.015625"@
}

/// The margin text is the exact decimal value of `BUFFER / EXTENT`.
pub proof fn margin_text_is_exact()
    ensures
        15625 * EXTENT == BUFFER * 1000000,
{
}

/// A discovered spatial table and what is needed to serve it.
pub struct PgTable {
    pub schema: String,
    pub table: String,
    pub geom: String,
    pub srid: i32,
    /// PostGIS geometry type string, e.g. `MULTIPOLYGON`.
    pub geom_type: String,
    /// Non-geometry columns as `(name, pg_type)`, emitted as MVT feature properties.
    pub properties: Vec<(String, String)>,
}

/// The spatial filter of the tile query.
pub open spec fn mvt_bbox_spec(srid: i32, supports_margin: bool) -> Seq<char> {
    if supports_margin && srid == 3857 {
        "ST_Transform(ST_TileEnvelope($1, $2, $3, margin => "@ + margin_text() + "), "@
            + int_text(srid as int) + ")"@
    } else if srid == 4326 {
        "ST_Expand(ST_Transform(ST_TileEnvelope($1, $2, $3), "@ + int_text(srid as int) + "), ("@
            + margin_text() + " * 360) / 2^$1)"@
    } else {
        "ST_Transform(ST_TileEnvelope($1, $2, $3), "@ + int_text(srid as int) + ")"@
    }
}

/// `, "name"` for every property, in order.
pub open spec fn mvt_props_spec(props: Seq<(String, String)>) -> Seq<char>
    decreases props.len(),
{
    if props.len() == 0 {
        Seq::empty()
    } else {
        mvt_props_spec(props.drop_last()) + ", "@ + sql_ident_spec(props.last().0@)
    }
}

/// The cacheable `ST_AsMVT` query of a table (`$1=z, $2=x, $3=y`).
pub open spec fn mvt_sql_spec(t: PgTable, supports_margin: bool) -> Seq<char> {
    "SELECT ST_AsMVT(tile, "@ + sql_lit_spec(t.table@) + ", 4096, 'geom') FROM ("@
        + "SELECT ST_AsMVTGeom("@ + "ST_Transform(ST_CurveToLine("@ + sql_ident_spec(t.geom@)
        + "::geometry), 3857), "@ + "ST_TileEnvelope($1, $2, $3), 4096, 64, true) AS geom"@
        + mvt_props_spec(t.properties@) + " FROM "@ + sql_ident_spec(t.schema@) + "."@
        + sql_ident_spec(t.table@) + " WHERE "@ + sql_ident_spec(t.geom@) + " && "@
        + mvt_bbox_spec(t.srid, supports_margin) + ") AS tile"@
}

/// The select-list item of one property column: `, ` and its quoted name.
pub open spec fn property_column(p: (String, String)) -> Seq<char> {
    ", "@ + sql_ident_spec(p.0@)
}

/// The tile query up to the property columns.
spec fn mvt_head(t: PgTable) -> Seq<char> {
    "SELECT ST_AsMVT(tile, "@ + sql_lit_spec(t.table@) + ", 4096, 'geom') FROM ("@
        + "SELECT ST_AsMVTGeom("@ + "ST_Transform(ST_CurveToLine("@ + sql_ident_spec(t.geom@)
        + "::geometry), 3857), "@ + "ST_TileEnvelope($1, $2, $3), 4096, 64, true) AS geom"@
}

/// The tile query after the property columns.
spec fn mvt_tail(t: PgTable, supports_margin: bool) -> Seq<char> {
    " FROM "@ + sql_ident_spec(t.schema@) + "."@ + sql_ident_spec(t.table@) + " WHERE "@
        + sql_ident_spec(t.geom@) + " && "@ + mvt_bbox_spec(t.srid, supports_margin)
        + ") AS tile"@
}

/// The property columns of two runs of properties are those of the first, then those of
/// the second.
proof fn lemma_props_append(a: Seq<(String, String)>, b: Seq<(String, String)>)
    ensures
        mvt_props_spec(a + b) == mvt_props_spec(a) + mvt_props_spec(b),
    decreases b.len(),
{
    if b.len() == 0 {
        assert(a + b =~= a);
        assert(mvt_props_spec(a) + mvt_props_spec(b) =~= mvt_props_spec(a));
    } else {
        assert((a + b).drop_last() =~= a + b.drop_last());
        assert((a + b).last() == b.last());
        lemma_props_append(a, b.drop_last());
        assert(mvt_props_spec(a + b) =~= mvt_props_spec(a) + mvt_props_spec(b));
    }
}

/// The columns of the properties split around the `i`-th.
proof fn lemma_props_split(ps: Seq<(String, String)>, i: int)
    requires
        0 <= i < ps.len(),
    ensures
        mvt_props_spec(ps) == mvt_props_spec(ps.take(i)) + property_column(ps[i])
            + mvt_props_spec(ps.skip(i + 1)),
{
    let one = seq![ps[i]];
    assert(one.drop_last() =~= Seq::<(String, String)>::empty());
    assert(mvt_props_spec(one.drop_last()) =~= Seq::<char>::empty());
    assert(one.last() == ps[i]);
    assert(mvt_props_spec(one) =~= property_column(ps[i]));
    assert(ps =~= ps.take(i) + one + ps.skip(i + 1));
    lemma_props_append(ps.take(i) + one, ps.skip(i + 1));
    lemma_props_append(ps.take(i), one);
}

/// Each property adds at least two characters, so a longer prefix of properties gives
/// strictly longer columns.
proof fn lemma_props_prefix_grows(ps: Seq<(String, String)>, i: int, j: int)
    requires
        0 <= i < j <= ps.len(),
    ensures
        mvt_props_spec(ps.take(i)).len() < mvt_props_spec(ps.take(j)).len(),
{
    reveal_strlit(", ");
    let mid = ps.subrange(i, j);
    assert(ps.take(j) =~= ps.take(i) + mid);
    lemma_props_append(ps.take(i), mid);
    assert(mvt_props_spec(mid).len() >= 2);
}

/// Where the `i`-th property column stands in the tile query.
proof fn lemma_column_at(t: PgTable, supports_margin: bool, i: int)
    requires
        0 <= i < t.properties@.len(),
    ensures
        crate::text::occurs_at(
            mvt_sql_spec(t, supports_margin),
            property_column(t.properties@[i]),
            (mvt_head(t).len() + mvt_props_spec(t.properties@.take(i)).len()) as int,
        ),
{
    let ps = t.properties@;
    let head = mvt_head(t);
    let x = mvt_props_spec(ps);
    let u = mvt_props_spec(ps.take(i));
    let c = property_column(ps[i]);
    let w = mvt_props_spec(ps.skip(i + 1));
    let sql = mvt_sql_spec(t, supports_margin);
    lemma_props_split(ps, i);
    assert(sql =~= head + x + mvt_tail(t, supports_margin));
    assert(x == u + c + w);
    let k: int = (head.len() + u.len()) as int;
    assert(sql.subrange(k, k + c.len()) =~= c);
}

/// `first` occurs in `sql` at a position before one at which `second` occurs.
pub open spec fn occurs_before(sql: Seq<char>, first: Seq<char>, second: Seq<char>) -> bool {
    exists|a: int, b: int|
        a < b && crate::text::occurs_at(sql, first, a) && crate::text::occurs_at(sql, second, b)
}

/// Law: every property column of a table is selected into its vector tiles, quoted as an
/// identifier, and in the order the properties are given: the columns of two properties
/// both occur in the tile query, the earlier property's first.
pub proof fn tile_query_selects_every_property(t: PgTable, supports_margin: bool)
    ensures
        forall|i: int|
            0 <= i < t.properties@.len() ==> crate::text::contains_seq(
                mvt_sql_spec(t, supports_margin),
                property_column(#[trigger] t.properties@[i]),
            ),
        forall|i: int, j: int|
            0 <= i < j < t.properties@.len() ==> occurs_before(
                mvt_sql_spec(t, supports_margin),
                property_column(#[trigger] t.properties@[i]),
                property_column(#[trigger] t.properties@[j]),
            ),
{
    let sql = mvt_sql_spec(t, supports_margin);
    let ps = t.properties@;
    let h = mvt_head(t).len();
    assert forall|i: int| 0 <= i < ps.len() implies crate::text::contains_seq(
        sql,
        property_column(#[trigger] ps[i]),
    ) by {
        lemma_column_at(t, supports_margin, i);
    }
    assert forall|i: int, j: int| 0 <= i < j < ps.len() implies occurs_before(
        sql,
        property_column(#[trigger] ps[i]),
        property_column(#[trigger] ps[j]),
    ) by {
        lemma_column_at(t, supports_margin, i);
        lemma_column_at(t, supports_margin, j);
        lemma_props_prefix_grows(ps, i, j);
        let a: int = (h + mvt_props_spec(ps.take(i)).len()) as int;
        let b: int = (h + mvt_props_spec(ps.take(j)).len()) as int;
        assert(crate::text::occurs_at(sql, property_column(ps[i]), a));
        assert(crate::text::occurs_at(sql, property_column(ps[j]), b));
    }
}

/// `martin_tile_utils::EARTH_CIRCUMFERENCE_DEGREES`: degrees around the equator.
#[verifier::external_body]
fn earth_circumference_degrees() -> (r: u32)
    ensures
        r == 360,
{
    martin_tile_utils::EARTH_CIRCUMFERENCE_DEGREES
}

/// Appends the spatial filter of the tile query to `out`.
fn push_mvt_bbox(out: &mut Vec<char>, srid: i32, supports_margin: bool)
    ensures
        final(out)@ == old(out)@ + mvt_bbox_spec(srid, supports_margin),
{
    let ghost start = out@;
    if supports_margin && srid == 3857 {
        push_str(out, "ST_Transform(ST_TileEnvelope($1, $2, $3, margin => ");
        push_str(out, "0.015625");
        push_str(out, "), ");
        push_i32(out, srid);
        push_str(out, ")");
    } else if srid == 4326 {
        push_str(out, "ST_Expand(ST_Transform(ST_TileEnvelope($1, $2, $3), ");
        push_i32(out, srid);
        push_str(out, "), (");
        push_str(out, "0.015625");
        push_str(out, " * ");
        let deg = earth_circumference_degrees();
        push_decimal(out, deg as u64);
        push_str(out, ") / 2^$1)");
        proof {
            reveal_strlit(" * ");
            reveal_strlit(") / 2^$1)");
            reveal_strlit(" * 360) / 2^$1)");
            assert(decimal(360) =~= seq!['3', '6', '0']) by {
                assert(decimal(36) =~= seq!['3', '6']) by {
                    assert(decimal(3) =~= seq!['3']);
                }
            }
            assert(" * "@ + decimal(360) + ") / 2^$1)"@ =~= " * 360) / 2^$1)"@);
        }
    } else {
        push_str(out, "ST_Transform(ST_TileEnvelope($1, $2, $3), ");
        push_i32(out, srid);
        push_str(out, ")");
    }
    assert(out@ =~= start + mvt_bbox_spec(srid, supports_margin));
}

impl PgTable {
    /// Build the cacheable `ST_AsMVT` query (`$1=z, $2=x, $3=y`) for this table.
    ///
    /// `supports_margin` reflects PostGIS >= 3.1, so SRID-3857 tables use the
    /// `ST_TileEnvelope` margin; 4326 uses `ST_Expand` in degrees; other SRIDs use a plain
    /// transformed envelope. Every geometry is transformed to Web Mercator at query time.
    pub fn build_mvt_sql(&self, supports_margin: bool) -> (r: String)
        ensures
            r@ == mvt_sql_spec(*self, supports_margin),
    {
        let mut v = chars_of("SELECT ST_AsMVT(tile, ");
        let layer = sql_lit(self.table.as_str());
        push_str(&mut v, layer.as_str());
        push_str(&mut v, ", ");
        push_decimal(&mut v, EXTENT as u64);
        push_str(&mut v, ", 'geom') FROM (");
        push_str(&mut v, "SELECT ST_AsMVTGeom(");
        push_str(&mut v, "ST_Transform(ST_CurveToLine(");
        let geom = sql_ident(self.geom.as_str());
        push_str(&mut v, geom.as_str());
        push_str(&mut v, "::geometry), 3857), ");
        push_str(&mut v, "ST_TileEnvelope($1, $2, $3), ");
        push_decimal(&mut v, EXTENT as u64);
        push_str(&mut v, ", ");
        push_decimal(&mut v, BUFFER as u64);
        push_str(&mut v, ", true) AS geom");
        let ghost before_props = v@;
        let mut i: usize = 0;
        assert(self.properties@.take(0) =~= Seq::<(String, String)>::empty());
        while i < self.properties.len()
            invariant
                i <= self.properties@.len(),
                v@ == before_props + mvt_props_spec(self.properties@.take(i as int)),
            decreases self.properties.len() - i,
        {
            push_str(&mut v, ", ");
            let id = sql_ident(self.properties[i].0.as_str());
            push_str(&mut v, id.as_str());
            proof {
                let t = self.properties@.take(i + 1);
                assert(t.drop_last() =~= self.properties@.take(i as int));
                assert(t.last() == self.properties@[i as int]);
            }
            i = i + 1;
            assert(v@ =~= before_props + mvt_props_spec(self.properties@.take(i as int)));
        }
        assert(self.properties@.take(i as int) =~= self.properties@);
        push_str(&mut v, " FROM ");
        let schema = sql_ident(self.schema.as_str());
        push_str(&mut v, schema.as_str());
        push_str(&mut v, ".");
        let table = sql_ident(self.table.as_str());
        push_str(&mut v, table.as_str());
        push_str(&mut v, " WHERE ");
        push_str(&mut v, geom.as_str());
        push_str(&mut v, " && ");
        push_mvt_bbox(&mut v, self.srid, supports_margin);
        push_str(&mut v, ") AS tile");
        proof {
            reveal_strlit(", ");
            reveal_strlit(", 'geom') FROM (");
            reveal_strlit(", 4096, 'geom') FROM (");
            reveal_strlit("ST_TileEnvelope($1, $2, $3), ");
            reveal_strlit(", true) AS geom");
            reveal_strlit("ST_TileEnvelope($1, $2, $3), 4096, 64, true) AS geom");
            assert(decimal(4096) =~= seq!['4', '0', '9', '6']) by {
                assert(decimal(409) =~= seq!['4', '0', '9']) by {
                    assert(decimal(40) =~= seq!['4', '0']) by {
                        assert(decimal(4) =~= seq!['4']);
                    }
                }
            }
            assert(decimal(64) =~= seq!['6', '4']) by {
                assert(decimal(6) =~= seq!['6']);
            }
        }
        assert(v@ =~= mvt_sql_spec(*self, supports_margin));
        string_of(&v)
    }
}

/// `ALTER ROLE "user" WITH PASSWORD 'new'`: apply a new password to a role.
pub fn alter_role_sql(user: &str, new_password: &str) -> (r: String)
    ensures
        r@ == "ALTER ROLE "@ + sql_ident_spec(user@) + " WITH PASSWORD "@ + sql_lit_spec(
            new_password@,
        ),
{
    let mut v = chars_of("ALTER ROLE ");
    let u = sql_ident(user);
    push_str(&mut v, u.as_str());
    push_str(&mut v, " WITH PASSWORD ");
    let p = sql_lit(new_password);
    push_str(&mut v, p.as_str());
    string_of(&v)
}

/// `ANALYZE "public"."table"`, so estimated bounds work right after an import.
pub fn analyze_sql(table: &str) -> (r: String)
    ensures
        r@ == "ANALYZE \"public\"."@ + sql_ident_spec(table@),
{
    let mut v = chars_of("ANALYZE \"public\".");
    let t = sql_ident(table);
    push_str(&mut v, t.as_str());
    string_of(&v)
}

/// `DROP TABLE IF EXISTS "schema"."table"`.
pub fn drop_table_sql(schema: &str, table: &str) -> (r: String)
    ensures
        r@ == "DROP TABLE IF EXISTS "@ + sql_ident_spec(schema@) + "."@ + sql_ident_spec(table@),
{
    let mut v = chars_of("DROP TABLE IF EXISTS ");
    let s = sql_ident(schema);
    push_str(&mut v, s.as_str());
    push_str(&mut v, ".");
    let t = sql_ident(table);
    push_str(&mut v, t.as_str());
    string_of(&v)
}

/// `SELECT 1 FROM pg_database WHERE datname='db'` (the database-exists probe).
pub fn database_exists_sql(dbname: &str) -> (r: String)
    ensures
        r@ == "SELECT 1 FROM pg_database WHERE datname="@ + sql_lit_spec(dbname@),
{
    let mut v = chars_of("SELECT 1 FROM pg_database WHERE datname=");
    let d = sql_lit(dbname);
    push_str(&mut v, d.as_str());
    string_of(&v)
}

/// The fast bounds query of a table (`$1` schema, `$2` table, `$3` geometry column,
/// `$4` SRID): its estimated extent in WGS84, null until the table is analysed.
pub const ESTIMATED_EXTENT_SQL: &'static str = "SELECT ST_XMin(b), ST_YMin(b), ST_XMax(b), ST_YMax(b) FROM (SELECT ST_Transform(ST_SetSRID(ST_EstimatedExtent($1,$2,$3)::geometry, $4), 4326) AS b) s WHERE b IS NOT NULL";

/// Opens the transaction that time-boxes the exact bounds query (reset when it ends).
pub const EXTENT_TIMEOUT_SQL: &'static str = "BEGIN; SET LOCAL statement_timeout = '8s'";

/// The exact bounds query of a table: the extent of its geometries in WGS84.
pub open spec fn exact_extent_sql_spec(t: PgTable) -> Seq<char> {
    "SELECT ST_XMin(b), ST_YMin(b), ST_XMax(b), ST_YMax(b) FROM (SELECT ST_Transform(ST_SetSRID(ST_Extent("@
        + sql_ident_spec(t.geom@) + "::geometry), "@ + int_text(t.srid as int)
        + "), 4326) AS b FROM "@ + sql_ident_spec(t.schema@) + "."@ + sql_ident_spec(t.table@)
        + ") s WHERE b IS NOT NULL"@
}

impl PgTable {
    /// The exact (slow) bounds query of the table.
    pub fn exact_extent_sql(&self) -> (r: String)
        ensures
            r@ == exact_extent_sql_spec(*self),
    {
        let mut v = chars_of(
            "SELECT ST_XMin(b), ST_YMin(b), ST_XMax(b), ST_YMax(b) FROM (SELECT ST_Transform(ST_SetSRID(ST_Extent(",
        );
        let g = sql_ident(self.geom.as_str());
        push_str(&mut v, g.as_str());
        push_str(&mut v, "::geometry), ");
        push_i32(&mut v, self.srid);
        push_str(&mut v, "), 4326) AS b FROM ");
        let sc = sql_ident(self.schema.as_str());
        push_str(&mut v, sc.as_str());
        push_str(&mut v, ".");
        let tb = sql_ident(self.table.as_str());
        push_str(&mut v, tb.as_str());
        push_str(&mut v, ") s WHERE b IS NOT NULL");
        string_of(&v)
    }
}

/// The keys of `(name, type)` pairs.
pub open spec fn pair_keys(p: Seq<(String, String)>) -> Seq<Seq<char>> {
    p.map_values(|x: (String, String)| x.0@)
}

/// The property list of a discovered table, sorted by column name (a stable sort, as
/// `sort_by` on the names).
pub fn sort_props(props: &Vec<(String, String)>) -> (r: Vec<(String, String)>)
    ensures
        r@.len() == props@.len(),
        exists|order: Seq<usize>|
            crate::ordering::is_permutation(order, props@.len()) && crate::ordering::stably_sorted_by(
                order,
                pair_keys(props@),
            ) && forall|i: int|
                0 <= i < r@.len() ==> (#[trigger] r@[i]).0@ == props@[order[i] as int].0@
                    && r@[i].1@ == props@[order[i] as int].1@,
{
    let mut keys: Vec<String> = Vec::new();
    let mut i: usize = 0;
    while i < props.len()
        invariant
            i <= props@.len(),
            crate::text::string_views(keys@) == pair_keys(props@.take(i as int)),
        decreases props.len() - i,
    {
        let ghost b = crate::text::string_views(keys@);
        crate::text::push_owned(&mut keys, props[i].0.clone());
        assert(pair_keys(props@.take(i + 1)) =~= pair_keys(props@.take(i as int)).push(
            props@[i as int].0@,
        ));
        i = i + 1;
    }
    assert(props@.take(i as int) =~= props@);
    let order = crate::ordering::stable_order_by_str(&keys);
    let mut out: Vec<(String, String)> = Vec::new();
    let mut k: usize = 0;
    while k < order.len()
        invariant
            k <= order@.len(),
            crate::ordering::is_permutation(order@, props@.len()),
            out@.len() == k,
            forall|j: int|
                0 <= j < k ==> (#[trigger] out@[j]).0@ == props@[order@[j] as int].0@ && out@[j].1@
                    == props@[order@[j] as int].1@,
        decreases order.len() - k,
    {
        let o = order[k];
        out.push((props[o].0.clone(), props[o].1.clone()));
        k = k + 1;
    }
    out
}

/// Name for what `serde_json` reads from a text: when the text is a JSON object, its
/// entries in the order of `serde_json`'s map, each key with its value when that value is
/// a JSON string; nothing when the text is not a JSON object.
pub uninterp spec fn json_object_entries(text: Seq<char>) -> Option<Seq<(Seq<char>, Option<Seq<char>>)>>;

/// The views of JSON object entries.
pub open spec fn entry_views(v: Seq<(String, Option<String>)>) -> Seq<(Seq<char>, Option<Seq<char>>)> {
    v.map_values(|e: (String, Option<String>)| (e.0@, crate::text::opt_view(e.1)))
}

/// `serde_json::from_str::<Value>` on `text`: the entries of the object it reads (string
/// values kept, other values dropped to `None`), named `json_object_entries`.
#[verifier::external_body]
fn json_object(text: &str) -> (r: Option<Vec<(String, Option<String>)>>)
    ensures
        match r {
            Some(v) => json_object_entries(text@) == Some(entry_views(v@)),
            None => json_object_entries(text@) is None,
        },
{
    match serde_json::from_str::<serde_json::Value>(text) {
        Ok(serde_json::Value::Object(m)) => Some(
            m.into_iter().map(|(k, v)| (k, match v {
                serde_json::Value::String(s) => Some(s),
                _ => None,
            })).collect(),
        ),
        _ => None,
    }
}

/// The `(name, type)` pairs of a table's property object: each key with its string value
/// (empty when the value is not a string); none when the text is not a JSON object.
pub open spec fn props_from(e: Option<Seq<(Seq<char>, Option<Seq<char>>)>>) -> Seq<(Seq<char>, Seq<char>)> {
    match e {
        Some(v) => v.map_values(
            |x: (Seq<char>, Option<Seq<char>>)|
                (
                    x.0,
                    match x.1 {
                        Some(t) => t,
                        None => Seq::empty(),
                    },
                ),
        ),
        None => Seq::empty(),
    }
}

/// The views of `(name, type)` pairs.
pub open spec fn pair_views(p: Seq<(String, String)>) -> Seq<(Seq<char>, Seq<char>)> {
    p.map_values(|x: (String, String)| (x.0@, x.1@))
}

/// The properties of a discovered table from its `{"col":"type",...}` JSON object:
/// `(name, type)` pairs (a non-string type reads as empty; a text that is not an object
/// gives none), stably sorted by name.
pub fn parse_props(json: &str) -> (r: Vec<(String, String)>)
    ensures
        ({
            let p = props_from(json_object_entries(json@));
            &&& r@.len() == p.len()
            &&& exists|order: Seq<usize>|
                crate::ordering::is_permutation(order, p.len()) && crate::ordering::stably_sorted_by(
                    order,
                    p.map_values(|x: (Seq<char>, Seq<char>)| x.0),
                ) && forall|i: int|
                    0 <= i < r@.len() ==> (#[trigger] r@[i]).0@ == p[order[i] as int].0 && r@[i].1@
                        == p[order[i] as int].1
        }),
{
    let mut pairs: Vec<(String, String)> = Vec::new();
    match json_object(json) {
        Some(entries) => {
            let ghost ev = entry_views(entries@);
            let mut i: usize = 0;
            while i < entries.len()
                invariant
                    i <= entries@.len(),
                    ev == entry_views(entries@),
                    pair_views(pairs@) == props_from(Some(ev)).take(i as int),
                decreases entries.len() - i,
            {
                let (k, v) = (&entries[i].0, &entries[i].1);
                let t = match v {
                    Some(x) => x.clone(),
                    None => String::new(),
                };
                let ghost before = pair_views(pairs@);
                pairs.push((k.clone(), t));
                proof {
                    assert(ev[i as int] == (entries@[i as int].0@, crate::text::opt_view(entries@[i as int].1)));
                    assert(pair_views(pairs@) =~= before.push(props_from(Some(ev))[i as int]));
                    assert(props_from(Some(ev)).take(i + 1) =~= props_from(Some(ev)).take(i as int).push(
                        props_from(Some(ev))[i as int],
                    ));
                }
                i = i + 1;
            }
            assert(props_from(Some(ev)).take(i as int) =~= props_from(Some(ev)));
        },
        None => {
            assert(pair_views(pairs@) =~= props_from(None));
        },
    }
    let r = sort_props(&pairs);
    proof {
        let p = props_from(json_object_entries(json@));
        assert(pair_views(pairs@) == p);
        assert(pair_keys(pairs@) =~= p.map_values(|x: (Seq<char>, Seq<char>)| x.0));
        assert forall|j: int| 0 <= j < pairs@.len() implies #[trigger] pairs@[j].0@ == p[j].0 && pairs@[j].1@ == p[j].1 by {
            assert(pair_views(pairs@)[j] == p[j]);
        }
    }
    r
}

/// The `i`-th dot-separated part of a version string read as a `u32` (0 when it is
/// missing or not a number).
pub open spec fn version_part(v: Seq<char>, i: int) -> nat {
    let parts = crate::tokens::split_char(v, '.');
    if 0 <= i < parts.len() {
        match crate::text::parse_uint(parts[i], u32::MAX as nat) {
            Some(n) => n,
            None => 0,
        }
    } else {
        0
    }
}

/// A PostGIS version whose `ST_TileEnvelope` takes a `margin`: 3.1 or later.
pub open spec fn margin_supported_spec(v: Seq<char>) -> bool {
    version_part(v, 0) > 3 || (version_part(v, 0) == 3 && version_part(v, 1) >= 1)
}

/// A number part of a version string: its value, or 0 when it is not a number.
fn version_number(s: &Vec<char>, lo: usize, hi: usize) -> (r: u64)
    requires
        lo <= hi <= s@.len(),
    ensures
        r == match crate::text::parse_uint(s@.subrange(lo as int, hi as int), u32::MAX as nat) {
            Some(n) => n,
            None => 0,
        },
{
    match crate::text::parse_uint_range(s, lo, hi, 0xffff_ffff) {
        Some(n) => n,
        None => 0,
    }
}

/// Whether a PostGIS library version (`postgis_lib_version()`) is 3.1 or later, so its
/// `ST_TileEnvelope` takes a `margin`.
pub fn tile_margin_supported(version: &str) -> (r: bool)
    ensures
        r == margin_supported_spec(version@),
{
    let s = chars_of(version);
    let e0 = crate::tokens::next_sep(&s, 0, '.');
    assert(s@.skip(0) =~= s@);
    let major = version_number(&s, 0, e0);
    let mut minor: u64 = 0;
    if e0 < s.len() {
        let e1 = crate::tokens::next_sep(&s, e0 + 1, '.');
        minor = version_number(&s, e0 + 1, e1);
        proof {
            let rest = crate::tokens::split_char(s@.skip(e0 + 1), '.');
            if e1 == s.len() {
                assert(s@.subrange(e0 + 1, e1 as int) =~= s@.skip(e0 + 1));
            }
            assert(rest[0] == s@.subrange(e0 + 1, e1 as int));
            assert(crate::tokens::split_char(version@, '.')[1] == rest[0]);
        }
    } else {
        proof {
            assert(s@.subrange(0, e0 as int) =~= s@.skip(0));
        }
    }
    proof {
        assert(crate::tokens::split_char(version@, '.')[0] == s@.subrange(0, e0 as int)) by {
            if e0 == s.len() {
                assert(s@.subrange(0, e0 as int) =~= s@);
            }
        }
    }
    major > 3 || (major == 3 && minor >= 1)
}

} // verus!
