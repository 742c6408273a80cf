//! The text of the `martin-tiler` command line: the grids it asks for, the lines it
//! prints for stages, rasters and validation checks, and its verdict on a validation.

use vstd::prelude::*;
use crate::errors::TilerError;
use crate::model::{grid_slug, CheckStatus, TileGrid, ValidationCheck};
use crate::pipeline::StageStep;
use crate::text::{chars_of, decimal, push_decimal, push_str, string_of};

verus! {

/// The grids of `martin-tiler generate`: the `--grid` values, then one custom grid per
/// `--epsg` code.
pub fn cli_grids(grids: &Vec<TileGrid>, epsgs: &Vec<u32>) -> (r: Vec<TileGrid>)
    ensures
        r@ == grids@ + epsgs@.map_values(|e: u32| TileGrid::Custom(e)),
{
    let mut out: Vec<TileGrid> = Vec::new();
    let mut i: usize = 0;
    while i < grids.len()
        invariant
            i <= grids@.len(),
            out@ == grids@.take(i as int),
        decreases grids.len() - i,
    {
        out.push(grids[i]);
        i = i + 1;
        assert(out@ =~= grids@.take(i as int));
    }
    assert(grids@.take(i as int) =~= grids@);
    let mut k: usize = 0;
    while k < epsgs.len()
        invariant
            k <= epsgs@.len(),
            out@ == grids@ + epsgs@.take(k as int).map_values(|e: u32| TileGrid::Custom(e)),
        decreases epsgs.len() - k,
    {
        out.push(TileGrid::Custom(epsgs[k]));
        k = k + 1;
        assert(out@ =~= grids@ + epsgs@.take(k as int).map_values(|e: u32| TileGrid::Custom(e)));
    }
    assert(epsgs@.take(k as int) =~= epsgs@);
    out
}

/// The banner of a stage: `──▶ stage {index}/{total}: {stage}`, with ` [{grid}]` for a
/// grid stage.
pub open spec fn stage_banner_spec(s: StageStep) -> Seq<char> {
    "──▶ stage "@ + decimal(s.index as nat) + "/"@ + decimal(s.total as nat) + ": "@ + s.stage@
        + match s.grid {
        Some(g) => " ["@ + grid_slug(g) + "]"@,
        None => Seq::empty(),
    }
}

/// The banner printed when a stage starts.
pub fn stage_banner(s: &StageStep) -> (r: String)
    ensures
        r@ == stage_banner_spec(*s),
{
    let mut v = chars_of("──▶ stage ");
    push_decimal(&mut v, s.index as u64);
    push_str(&mut v, "/");
    push_decimal(&mut v, s.total as u64);
    push_str(&mut v, ": ");
    push_str(&mut v, s.stage.as_str());
    proof {
        reveal_strlit("──▶ stage ");
        reveal_strlit("/");
        reveal_strlit(": ");
        reveal_strlit(" [");
        reveal_strlit("]");
    }
    match s.grid {
        Some(g) => {
            push_str(&mut v, " [");
            let slug = g.slug();
            push_str(&mut v, slug.as_str());
            push_str(&mut v, "]");
        },
        None => {},
    }
    string_of(&v)
}

/// The mark of a check status.
pub open spec fn mark_spec(s: CheckStatus) -> Seq<char> {
    match s {
        CheckStatus::Pass => "✔"@,
        CheckStatus::Warn => "⚠"@,
        CheckStatus::Fail => "✘"@,
    }
}

/// `name` left-aligned in a field of `width` characters (`{:<width}`).
pub open spec fn pad_right(name: Seq<char>, width: nat) -> Seq<char> {
    if name.len() >= width {
        name
    } else {
        name + Seq::new((width - name.len()) as nat, |i: int| ' ')
    }
}

/// The line of one validation check: `  {mark} {name:<20} {detail}`.
pub open spec fn check_line_spec(c: ValidationCheck) -> Seq<char> {
    "  "@ + mark_spec(c.status) + " "@ + pad_right(c.name@, 20) + " "@ + c.detail@
}

/// The line printed for a validation check.
pub fn check_line(c: &ValidationCheck) -> (r: String)
    ensures
        r@ == check_line_spec(*c),
{
    let mark = match c.status {
        CheckStatus::Pass => "✔",
        CheckStatus::Warn => "⚠",
        CheckStatus::Fail => "✘",
    };
    proof {
        reveal_strlit("✔");
        reveal_strlit("⚠");
        reveal_strlit("✘");
        reveal_strlit("  ");
        reveal_strlit(" ");
    }
    let mut v = chars_of("  ");
    push_str(&mut v, mark);
    push_str(&mut v, " ");
    let n = chars_of(c.name.as_str());
    let ghost start = v@;
    crate::text::push_all(&mut v, &n);
    let mut k = n.len();
    while k < 20
        invariant
            n.len() <= k <= 20 || (k == n.len() && k >= 20),
            v@ == start + n@ + Seq::new((k - n.len()) as nat, |i: int| ' '),
        decreases 20 - k,
    {
        v.push(' ');
        k = k + 1;
        assert(v@ =~= start + n@ + Seq::new((k - n.len()) as nat, |i: int| ' '));
    }
    proof {
        if n@.len() >= 20 {
            assert(Seq::new((k - n.len()) as nat, |i: int| ' ') =~= Seq::<char>::empty());
        }
        assert(start + n@ + Seq::new((k - n.len()) as nat, |i: int| ' ') =~= start + pad_right(
            c.name@,
            20,
        ));
    }
    push_str(&mut v, " ");
    push_str(&mut v, c.detail.as_str());
    string_of(&v)
}

/// The verdict of `martin-tiler validate`: `PASS` or `FAIL`, and a failure of the command
/// when the archive did not pass.
pub fn validation_verdict(ok: bool) -> (r: (String, Result<(), TilerError>))
    ensures
        r.0@ == (if ok {
            "\nResult: PASS"@
        } else {
            "\nResult: FAIL"@
        }),
        ok ==> r.1 is Ok,
        !ok ==> (r.1 matches Err(TilerError::Other(m)) && m@ == "validation failed"@),
{
    proof {
        reveal_strlit("\nResult: PASS");
        reveal_strlit("\nResult: FAIL");
        reveal_strlit("validation failed");
    }
    if ok {
        ("\nResult: PASS".to_string(), Ok(()))
    } else {
        ("\nResult: FAIL".to_string(), Err(TilerError::Other("validation failed".to_string())))
    }
}

/// The size line of an inspected raster.
pub open spec fn size_line_spec(width: u32, height: u32, bands: u32, alpha: bool) -> Seq<char> {
    "    size       : "@ + decimal(width as nat) + " x "@ + decimal(height as nat) + " px, "@
        + decimal(bands as nat) + " band(s)"@ + if alpha {
        " +alpha"@
    } else {
        Seq::empty()
    }
}

/// The size line printed for an inspected raster.
pub fn size_line(width: u32, height: u32, bands: u32, alpha: bool) -> (r: String)
    ensures
        r@ == size_line_spec(width, height, bands, alpha),
{
    let mut v = chars_of("    size       : ");
    push_decimal(&mut v, width as u64);
    push_str(&mut v, " x ");
    push_decimal(&mut v, height as u64);
    push_str(&mut v, " px, ");
    push_decimal(&mut v, bands as u64);
    push_str(&mut v, " band(s)");
    if alpha {
        push_str(&mut v, " +alpha");
    }
    proof {
        reveal_strlit("    size       : ");
        reveal_strlit(" x ");
        reveal_strlit(" px, ");
        reveal_strlit(" band(s)");
        reveal_strlit(" +alpha");
    }
    string_of(&v)
}

/// The CRS line of an inspected raster: its name (`?` when unknown) and EPSG code.
pub open spec fn crs_line_spec(name: Option<Seq<char>>, epsg: Option<u32>) -> Seq<char> {
    "    CRS        : "@ + match name {
        Some(n) => n,
        None => "?"@,
    } + match epsg {
        Some(e) => " (EPSG:"@ + decimal(e as nat) + ")"@,
        None => Seq::empty(),
    }
}

/// The CRS line printed for an inspected raster.
pub fn crs_line(name: &Option<String>, epsg: Option<u32>) -> (r: String)
    ensures
        r@ == crs_line_spec(crate::text::opt_view(*name), epsg),
{
    let mut v = chars_of("    CRS        : ");
    match name {
        Some(n) => push_str(&mut v, n.as_str()),
        None => push_str(&mut v, "?"),
    }
    match epsg {
        Some(e) => {
            push_str(&mut v, " (EPSG:");
            push_decimal(&mut v, e as u64);
            push_str(&mut v, ")");
        },
        None => {},
    }
    proof {
        reveal_strlit("    CRS        : ");
        reveal_strlit("?");
        reveal_strlit(" (EPSG:");
        reveal_strlit(")");
    }
    string_of(&v)
}

} // verus!
