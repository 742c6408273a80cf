//! Validating a generated tile map: the structural checks run against an MBTiles
//! archive and the verdict drawn from them. The database is queried by the caller; what
//! each query returned is judged here.

use vstd::prelude::*;
use crate::model::{CheckStatus, ValidationCheck};
use crate::pgsql::int_text;
use crate::text::{
    chars_of, concat2, decimal, join_strings, join_with, lower_seq, lower_vec, push_decimal,
    push_str, string_of, string_views,
};

verus! {

/// What the validation queries returned for an archive that could be opened.
pub struct MbtilesProbe {
    /// `PRAGMA integrity_check`: its answer, or the query's error.
    pub integrity: Result<String, String>,
    /// `SELECT COUNT(*) FROM tiles`, when it ran.
    pub tile_count: Option<i64>,
    /// `SELECT DISTINCT zoom_level ... ORDER BY zoom_level`: each row's zoom when it read.
    pub zoom_levels: Vec<Option<i64>>,
    /// `zoom_level, COUNT(*) ... GROUP BY zoom_level`: each row when it read.
    pub zoom_counts: Vec<Option<(i64, i64)>>,
    /// The number of tiles under 120 bytes, when the query ran.
    pub tiny_count: Option<i64>,
    /// The metadata values of `format`, `minzoom`, `maxzoom` and `bounds`, in that order:
    /// the value, none when missing, or the lookup's error.
    pub metadata: Vec<Result<Option<String>, String>>,
}

/// The verdict on an archive.
pub struct ValidationSummary {
    /// True only if no check failed.
    pub ok: bool,
    pub checks: Vec<ValidationCheck>,
    pub tiles_total: u64,
    pub min_zoom: Option<u8>,
    pub max_zoom: Option<u8>,
}

/// The view of a check: name, status, detail.
pub open spec fn check_view(c: ValidationCheck) -> (Seq<char>, CheckStatus, Seq<char>) {
    (c.name@, c.status, c.detail@)
}

/// The views of checks.
pub open spec fn check_views(cs: Seq<ValidationCheck>) -> Seq<(Seq<char>, CheckStatus, Seq<char>)> {
    cs.map_values(|c: ValidationCheck| check_view(c))
}

/// No check failed.
pub open spec fn none_failed(cs: Seq<(Seq<char>, CheckStatus, Seq<char>)>) -> bool {
    forall|i: int| 0 <= i < cs.len() ==> (#[trigger] cs[i]).1 != CheckStatus::Fail
}

/// Push a check.
fn push_check(checks: &mut Vec<ValidationCheck>, name: &str, status: CheckStatus, detail: String)
    ensures
        check_views(final(checks)@) == check_views(old(checks)@).push((name@, status, detail@)),
{
    let ghost before = check_views(checks@);
    let ghost dv = detail@;
    checks.push(ValidationCheck { name: name.to_string(), status, detail });
    assert(check_views(checks@) =~= before.push((name@, status, dv)));
}

/// Whether any check failed.
fn any_failed(checks: &Vec<ValidationCheck>) -> (r: bool)
    ensures
        r == !none_failed(check_views(checks@)),
{
    let ghost cv = check_views(checks@);
    let mut i: usize = 0;
    while i < checks.len()
        invariant
            i <= checks@.len(),
            cv == check_views(checks@),
            forall|k: int| 0 <= k < i ==> (#[trigger] cv[k]).1 != CheckStatus::Fail,
        decreases checks.len() - i,
    {
        assert(cv[i as int] == check_view(checks@[i as int]));
        if checks[i].status == CheckStatus::Fail {
            return true;
        }
        i = i + 1;
    }
    false
}

/// The verdict on an archive that does not exist: one failed check.
pub fn missing_archive(path: &str) -> (r: ValidationSummary)
    ensures
        check_views(r.checks@) == seq![("file exists"@, CheckStatus::Fail, path@ + " not found"@)],
        !r.ok,
        r.tiles_total == 0,
        r.min_zoom is None,
        r.max_zoom is None,
{
    let mut checks: Vec<ValidationCheck> = Vec::new();
    push_check(&mut checks, "file exists", CheckStatus::Fail, concat2(path, " not found"));
    assert(check_views(checks@)[0].1 == CheckStatus::Fail);
    ValidationSummary { ok: false, checks, tiles_total: 0, min_zoom: None, max_zoom: None }
}

/// The zooms that read, each cut to 8 bits.
pub open spec fn read_zooms(rows: Seq<Option<i64>>) -> Seq<u8>
    decreases rows.len(),
{
    if rows.len() == 0 {
        Seq::empty()
    } else {
        match rows.last() {
            Some(z) => read_zooms(rows.drop_last()).push(z as u8),
            None => read_zooms(rows.drop_last()),
        }
    }
}

/// `lo..=hi` as a sequence (empty when `lo > hi`).
pub open spec fn zoom_span_seq(lo: u8, hi: u8) -> Seq<u8> {
    if lo <= hi {
        Seq::new((hi - lo + 1) as nat, |i: int| (lo + i) as u8)
    } else {
        Seq::empty()
    }
}

/// `{:?}` of a list of zooms: `[a, b, c]`.
pub open spec fn zooms_debug(zs: Seq<u8>) -> Seq<char> {
    "["@ + join_with(zs.map_values(|z: u8| decimal(z as nat)), ", "@) + "]"@
}

/// The per-zoom summary of the sparse-storage check: `z{z}:{count}` for every row that
/// read, comma-separated.
pub open spec fn zoom_count_texts(rows: Seq<Option<(i64, i64)>>) -> Seq<Seq<char>>
    decreases rows.len(),
{
    if rows.len() == 0 {
        Seq::empty()
    } else {
        match rows.last() {
            Some((z, c)) => zoom_count_texts(rows.drop_last()).push(
                "z"@ + int_text(z as int) + ":"@ + int_text(c as int),
            ),
            None => zoom_count_texts(rows.drop_last()),
        }
    }
}

/// The names of the required metadata keys, in order.
pub open spec fn metadata_keys() -> Seq<Seq<char>> {
    seq!["format"@, "minzoom"@, "maxzoom"@, "bounds"@]
}

/// The check of one required metadata value.
pub open spec fn metadata_check(key: Seq<char>, v: Result<Option<String>, String>) -> (
    Seq<char>,
    CheckStatus,
    Seq<char>,
) {
    let name = "metadata `"@ + key + "`"@;
    match v {
        Ok(Some(x)) => (name, CheckStatus::Pass, x@),
        Ok(None) => (name, CheckStatus::Warn, "missing"@),
        Err(e) => (name, CheckStatus::Warn, e@),
    }
}

/// The integrity check.
pub open spec fn integrity_check(integrity: Result<String, String>) -> (Seq<char>, CheckStatus, Seq<char>) {
    match integrity {
        Ok(s) => if lower_seq(s@) == lower_seq("ok"@) {
            ("sqlite integrity"@, CheckStatus::Pass, "integrity_check = ok"@)
        } else {
            ("sqlite integrity"@, CheckStatus::Fail, s@)
        },
        Err(e) => ("sqlite integrity"@, CheckStatus::Warn, e@),
    }
}

/// The tiles-present check.
pub open spec fn tiles_check(total: u64) -> (Seq<char>, CheckStatus, Seq<char>) {
    if total > 0 {
        ("has tiles"@, CheckStatus::Pass, decimal(total as nat) + " tiles stored"@)
    } else {
        ("has tiles"@, CheckStatus::Fail, "no tiles in the archive"@)
    }
}

/// The zoom-continuity check, present when some zoom was read.
pub open spec fn continuity_checks(zs: Seq<u8>) -> Seq<(Seq<char>, CheckStatus, Seq<char>)> {
    if zs.len() > 0 {
        let lo = zs[0];
        let hi = zs.last();
        seq![
            if zs == zoom_span_seq(lo, hi) {
                (
                    "zoom continuity"@,
                    CheckStatus::Pass,
                    "contiguous z"@ + decimal(lo as nat) + "..z"@ + decimal(hi as nat),
                )
            } else {
                (
                    "zoom continuity"@,
                    CheckStatus::Warn,
                    "present zooms "@ + zooms_debug(zs) + " are not contiguous over z"@ + decimal(
                        lo as nat,
                    ) + "..z"@ + decimal(hi as nat),
                )
            },
        ]
    } else {
        Seq::empty()
    }
}

/// The sparse-storage check.
pub open spec fn sparse_check(rows: Seq<Option<(i64, i64)>>) -> (Seq<char>, CheckStatus, Seq<char>) {
    (
        "sparse storage"@,
        CheckStatus::Pass,
        "only non-empty tiles are stored ("@ + join_with(zoom_count_texts(rows), ", "@) + ")"@,
    )
}

/// The blank-tile check.
pub open spec fn blank_check(tiny: i64) -> (Seq<char>, CheckStatus, Seq<char>) {
    if tiny == 0 {
        ("no blank tiles"@, CheckStatus::Pass, "no suspiciously tiny (likely-blank) tiles"@)
    } else {
        (
            "no blank tiles"@,
            CheckStatus::Warn,
            int_text(tiny as int) + " very small tiles (<120 bytes) — may be near-empty"@,
        )
    }
}

/// The checks of an archive that opened, from what its queries returned, in order:
/// opening, SQLite integrity, tiles present, zoom continuity (when any zoom was read),
/// sparse storage, blank tiles, and the four required metadata values.
pub open spec fn probe_checks(p: MbtilesProbe) -> Seq<(Seq<char>, CheckStatus, Seq<char>)> {
    seq![
        ("opens as MBTiles"@, CheckStatus::Pass, "SQLite database opened"@),
        integrity_check(p.integrity),
        tiles_check(tiles_total_of(p.tile_count)),
    ] + continuity_checks(read_zooms(p.zoom_levels@)) + seq![
        sparse_check(p.zoom_counts@),
        blank_check(
            match p.tiny_count {
                Some(t) => t,
                None => 0,
            },
        ),
    ] + Seq::new(4, |i: int| metadata_check(metadata_keys()[i], p.metadata@[i]))
}

/// The tiles counted (a failed or negative count reads as 0).
pub open spec fn tiles_total_of(c: Option<i64>) -> u64 {
    match c {
        Some(t) => if t > 0 {
            t as u64
        } else {
            0
        },
        None => 0,
    }
}

/// Appends `int_text(i)` to `out`.
fn push_i64(out: &mut Vec<char>, i: i64)
    ensures
        final(out)@ == old(out)@ + int_text(i as int),
{
    if i < 0 {
        out.push('-');
        let m: u64 = (0i128 - (i as i128)) as u64;
        push_decimal(out, m);
        assert(out@ =~= old(out)@ + int_text(i as int));
    } else {
        push_decimal(out, i as u64);
    }
}

/// The zooms that read.
fn zooms_read(rows: &Vec<Option<i64>>) -> (r: Vec<u8>)
    ensures
        r@ == read_zooms(rows@),
{
    let mut out: Vec<u8> = Vec::new();
    let mut i: usize = 0;
    while i < rows.len()
        invariant
            i <= rows@.len(),
            out@ == read_zooms(rows@.take(i as int)),
        decreases rows.len() - i,
    {
        assert(rows@.take(i + 1).drop_last() =~= rows@.take(i as int));
        if let Some(z) = rows[i] {
            out.push(z as u8);
        }
        i = i + 1;
    }
    assert(rows@.take(i as int) =~= rows@);
    out
}

/// The zoom-continuity check.
fn continuity_check(zs: &Vec<u8>) -> (r: (CheckStatus, String))
    requires
        zs@.len() > 0,
    ensures
        ({
            let lo = zs@[0];
            let hi = zs@.last();
            if zs@ == zoom_span_seq(lo, hi) {
                r.0 == CheckStatus::Pass && r.1@ == "contiguous z"@ + decimal(lo as nat) + "..z"@
                    + decimal(hi as nat)
            } else {
                r.0 == CheckStatus::Warn && r.1@ == "present zooms "@ + zooms_debug(zs@)
                    + " are not contiguous over z"@ + decimal(lo as nat) + "..z"@ + decimal(
                    hi as nat,
                )
            }
        }),
{
    let lo = zs[0];
    let hi = zs[zs.len() - 1];
    let mut contiguous = lo <= hi && (zs.len() as u64) == (hi - lo) as u64 + 1;
    let mut i: usize = 0;
    while contiguous && i < zs.len()
        invariant
            i <= zs@.len(),
            contiguous ==> lo <= hi && zs@.len() == hi - lo + 1,
            contiguous ==> forall|k: int| 0 <= k < i ==> zs@[k] == lo + k,
            !contiguous ==> zs@ != zoom_span_seq(lo, hi),
        decreases zs.len() - i,
    {
        if (zs[i] as u64) != (lo as u64) + (i as u64) {
            contiguous = false;
            assert(zoom_span_seq(lo, hi)[i as int] == (lo + i) as u8);
        }
        i = i + 1;
    }
    proof {
        reveal_strlit("contiguous z");
        reveal_strlit("..z");
        reveal_strlit("present zooms ");
        reveal_strlit(" are not contiguous over z");
        reveal_strlit("[");
        reveal_strlit(", ");
        reveal_strlit("]");
        if contiguous {
            assert(zs@ =~= zoom_span_seq(lo, hi));
        }
    }
    if contiguous {
        let mut v = chars_of("contiguous z");
        push_decimal(&mut v, lo as u64);
        push_str(&mut v, "..z");
        push_decimal(&mut v, hi as u64);
        (CheckStatus::Pass, string_of(&v))
    } else {
        let mut texts: Vec<String> = Vec::new();
        let mut j: usize = 0;
        while j < zs.len()
            invariant
                j <= zs@.len(),
                string_views(texts@) == zs@.take(j as int).map_values(|z: u8| decimal(z as nat)),
            decreases zs.len() - j,
        {
            let ghost before = string_views(texts@);
            texts.push(crate::text::decimal_string(zs[j] as u64));
            assert(string_views(texts@) =~= before.push(decimal(zs@[j as int] as nat)));
            assert(zs@.take(j + 1) =~= zs@.take(j as int).push(zs@[j as int]));
            assert(zs@.take(j + 1).map_values(|z: u8| decimal(z as nat)) =~= zs@.take(
                j as int,
            ).map_values(|z: u8| decimal(z as nat)).push(decimal(zs@[j as int] as nat)));
            j = j + 1;
        }
        assert(zs@.take(j as int) =~= zs@);
        let mut v = chars_of("present zooms ");
        push_str(&mut v, "[");
        let joined = join_strings(&texts, ", ");
        push_str(&mut v, joined.as_str());
        push_str(&mut v, "]");
        push_str(&mut v, " are not contiguous over z");
        push_decimal(&mut v, lo as u64);
        push_str(&mut v, "..z");
        push_decimal(&mut v, hi as u64);
        (CheckStatus::Warn, string_of(&v))
    }
}

/// The texts of the per-zoom counts that read.
fn zoom_counts_read(rows: &Vec<Option<(i64, i64)>>) -> (r: Vec<String>)
    ensures
        string_views(r@) == zoom_count_texts(rows@),
{
    let mut out: Vec<String> = Vec::new();
    let mut i: usize = 0;
    proof {
        reveal_strlit("z");
        reveal_strlit(":");
    }
    while i < rows.len()
        invariant
            i <= rows@.len(),
            string_views(out@) == zoom_count_texts(rows@.take(i as int)),
        decreases rows.len() - i,
    {
        assert(rows@.take(i + 1).drop_last() =~= rows@.take(i as int));
        if let Some((z, c)) = rows[i] {
            let mut v = chars_of("z");
            push_i64(&mut v, z);
            push_str(&mut v, ":");
            push_i64(&mut v, c);
            let ghost before = string_views(out@);
            out.push(string_of(&v));
            assert(string_views(out@) =~= before.push("z"@ + int_text(z as int) + ":"@ + int_text(c as int)));
        }
        i = i + 1;
    }
    assert(rows@.take(i as int) =~= rows@);
    out
}

/// The verdict on an archive that opened, from what its queries returned. It passes
/// exactly when no check failed.
pub fn judge_archive(p: &MbtilesProbe) -> (r: ValidationSummary)
    requires
        p.metadata@.len() == 4,
    ensures
        check_views(r.checks@) == probe_checks(*p),
        r.ok == none_failed(probe_checks(*p)),
        r.tiles_total == tiles_total_of(p.tile_count),
        r.min_zoom == (if read_zooms(p.zoom_levels@).len() > 0 {
            Some(read_zooms(p.zoom_levels@)[0])
        } else {
            None::<u8>
        }),
        r.max_zoom == (if read_zooms(p.zoom_levels@).len() > 0 {
            Some(read_zooms(p.zoom_levels@).last())
        } else {
            None::<u8>
        }),
{
    proof {
        reveal_strlit("ok");
        reveal_strlit("integrity_check = ok");
        reveal_strlit(" tiles stored");
        reveal_strlit("only non-empty tiles are stored (");
        reveal_strlit(")");
        reveal_strlit(" very small tiles (<120 bytes) — may be near-empty");
        reveal_strlit("metadata `");
        reveal_strlit("`");
        reveal_strlit("missing");
        reveal_strlit("format");
        reveal_strlit("minzoom");
        reveal_strlit("maxzoom");
        reveal_strlit("bounds");
    }
    let mut checks: Vec<ValidationCheck> = Vec::new();
    push_check(&mut checks, "opens as MBTiles", CheckStatus::Pass, "SQLite database opened".to_string());
    match &p.integrity {
        Ok(s) => {
            let l = lower_vec(&chars_of(s.as_str()));
            let ok = lower_vec(&chars_of("ok"));
            if crate::decimal::eq_chars(&l, &ok) {
                push_check(&mut checks, "sqlite integrity", CheckStatus::Pass, "integrity_check = ok".to_string());
            } else {
                push_check(&mut checks, "sqlite integrity", CheckStatus::Fail, s.clone());
            }
        },
        Err(e) => {
            push_check(&mut checks, "sqlite integrity", CheckStatus::Warn, e.clone());
        },
    }
    let tiles_total: u64 = match p.tile_count {
        Some(t) => if t > 0 {
            t as u64
        } else {
            0
        },
        None => 0,
    };
    if tiles_total > 0 {
        let mut v = chars_of("");
        push_decimal(&mut v, tiles_total);
        push_str(&mut v, " tiles stored");
        proof {
            reveal_strlit("");
        }
        push_check(&mut checks, "has tiles", CheckStatus::Pass, string_of(&v));
    } else {
        push_check(&mut checks, "has tiles", CheckStatus::Fail, "no tiles in the archive".to_string());
    }
    assert(check_views(checks@) =~= seq![
        ("opens as MBTiles"@, CheckStatus::Pass, "SQLite database opened"@),
        integrity_check(p.integrity),
        tiles_check(tiles_total_of(p.tile_count)),
    ]);
    let zs = zooms_read(&p.zoom_levels);
    let (min_zoom, max_zoom) = if zs.len() > 0 {
        (Some(zs[0]), Some(zs[zs.len() - 1]))
    } else {
        (None, None)
    };
    let ghost head = check_views(checks@);
    if zs.len() > 0 {
        let (st, detail) = continuity_check(&zs);
        push_check(&mut checks, "zoom continuity", st, detail);
    }
    assert(check_views(checks@) =~= head + continuity_checks(zs@));
    let texts = zoom_counts_read(&p.zoom_counts);
    let mut v = chars_of("only non-empty tiles are stored (");
    let joined = join_strings(&texts, ", ");
    push_str(&mut v, joined.as_str());
    push_str(&mut v, ")");
    proof {
        reveal_strlit(", ");
    }
    assert(v@ =~= sparse_check(p.zoom_counts@).2);
    push_check(&mut checks, "sparse storage", CheckStatus::Pass, string_of(&v));
    assert(check_views(checks@) =~= head + continuity_checks(zs@) + seq![
        sparse_check(p.zoom_counts@),
    ]);
    let ghost mid = check_views(checks@);
    let tiny: i64 = match p.tiny_count {
        Some(t) => t,
        None => 0,
    };
    if tiny == 0 {
        push_check(&mut checks, "no blank tiles", CheckStatus::Pass, "no suspiciously tiny (likely-blank) tiles".to_string());
    } else {
        let mut w: Vec<char> = Vec::new();
        push_i64(&mut w, tiny);
        push_str(&mut w, " very small tiles (<120 bytes) — may be near-empty");
        assert(w@ =~= blank_check(tiny).2);
        push_check(&mut checks, "no blank tiles", CheckStatus::Warn, string_of(&w));
    }
    assert(check_views(checks@) =~= mid.push(blank_check(tiny)));
    let ghost before_meta = check_views(checks@);
    assert(before_meta =~= head + continuity_checks(zs@) + seq![
        sparse_check(p.zoom_counts@),
        blank_check(tiny),
    ]);
    let mut k: usize = 0;
    while k < 4
        invariant
            k <= 4,
            p.metadata@.len() == 4,
            check_views(checks@) == before_meta + Seq::new(
                k as nat,
                |i: int| metadata_check(metadata_keys()[i], p.metadata@[i]),
            ),
        decreases 4 - k,
    {
        let key = if k == 0 {
            "format"
        } else if k == 1 {
            "minzoom"
        } else if k == 2 {
            "maxzoom"
        } else {
            "bounds"
        };
        assert(key@ == metadata_keys()[k as int]);
        let mut nm = chars_of("metadata `");
        push_str(&mut nm, key);
        push_str(&mut nm, "`");
        let name = string_of(&nm);
        let ghost prev = check_views(checks@);
        match &p.metadata[k] {
            Ok(Some(x)) => push_check(&mut checks, name.as_str(), CheckStatus::Pass, x.clone()),
            Ok(None) => push_check(&mut checks, name.as_str(), CheckStatus::Warn, "missing".to_string()),
            Err(e) => push_check(&mut checks, name.as_str(), CheckStatus::Warn, e.clone()),
        }
        assert(check_views(checks@) =~= before_meta + Seq::new(
            (k + 1) as nat,
            |i: int| metadata_check(metadata_keys()[i], p.metadata@[i]),
        ));
        k = k + 1;
    }
    assert(check_views(checks@) =~= probe_checks(*p));
    let failed = any_failed(&checks);
    ValidationSummary { ok: !failed, checks, tiles_total, min_zoom, max_zoom }
}

/// Law: an archive passes validation exactly when none of its checks failed, so a
/// failed integrity check or an archive without tiles always fails it.
pub proof fn validation_fails_on_failed_check(p: MbtilesProbe)
    requires
        p.metadata@.len() == 4,
    ensures
        tiles_total_of(p.tile_count) == 0 ==> !none_failed(probe_checks(p)),
        (p.integrity matches Ok(s) && lower_seq(s@) != lower_seq("ok"@)) ==> !none_failed(
            probe_checks(p),
        ),
{
    let cs = probe_checks(p);
    assert(cs[1] == integrity_check(p.integrity));
    assert(cs[2] == tiles_check(tiles_total_of(p.tile_count)));
}

/// The SQLite integrity check answered, and its answer was not `ok`.
pub open spec fn integrity_reports_damage(integrity: Result<String, String>) -> bool {
    integrity matches Ok(s) && lower_seq(s@) != lower_seq("ok"@)
}

/// Law: small (likely blank) tiles only ever warn. An archive passes validation exactly
/// when it holds tiles and SQLite reported no damage, whatever the count of tiny tiles,
/// and two probes that differ only in that count get the same verdict.
pub proof fn blank_tiles_never_fail_validation(p: MbtilesProbe, q: MbtilesProbe)
    requires
        p.metadata@.len() == 4,
        q.integrity == p.integrity,
        q.tile_count == p.tile_count,
        q.zoom_levels@ == p.zoom_levels@,
        q.zoom_counts@ == p.zoom_counts@,
        q.metadata@ == p.metadata@,
    ensures
        none_failed(probe_checks(p)) <==> (tiles_total_of(p.tile_count) > 0
            && !integrity_reports_damage(p.integrity)),
        none_failed(probe_checks(q)) == none_failed(probe_checks(p)),
{
    lemma_verdict(p);
    lemma_verdict(q);
}

/// Only the integrity and tiles-present checks can fail.
proof fn lemma_verdict(p: MbtilesProbe)
    requires
        p.metadata@.len() == 4,
    ensures
        none_failed(probe_checks(p)) <==> (tiles_total_of(p.tile_count) > 0
            && !integrity_reports_damage(p.integrity)),
{
    let cs = probe_checks(p);
    let cont = continuity_checks(read_zooms(p.zoom_levels@));
    let n = 3 + cont.len();
    assert(cs[1] == integrity_check(p.integrity));
    assert(cs[2] == tiles_check(tiles_total_of(p.tile_count)));
    if tiles_total_of(p.tile_count) > 0 && !integrity_reports_damage(p.integrity) {
        assert forall|i: int| 0 <= i < cs.len() implies (#[trigger] cs[i]).1 != CheckStatus::Fail by {
            if 3 <= i < n {
                assert(cs[i] == cont[i - 3]);
            } else if i == n {
                assert(cs[i] == sparse_check(p.zoom_counts@));
            } else if i == n + 1 {
                assert(cs[i] == blank_check(
                    match p.tiny_count {
                        Some(t) => t,
                        None => 0,
                    },
                ));
            } else if i > n + 1 {
                assert(cs[i] == metadata_check(metadata_keys()[i - n - 2], p.metadata@[i - n - 2]));
            }
        }
    }
}

} // verus!
