//! The decisions of the Tile Map Studio HTTP API: uploaded file names, destinations that
//! never overwrite, inputs confined to the data directory, the grids a generation
//! request asks for, job ids, and how a job folds its progress events.

use vstd::prelude::*;
use crate::model::{grid_slug, TileGrid};
use crate::paths::{joined, path_exists, path_join, plain_name};
use crate::pipeline::{ProgressEvent, StageStep};
use crate::gdalenv::{first_true, lazy_answers, lemma_first_true};
use crate::text::{
    chars_of, concat2, decimal, decimal_padded, ends_with, is_alnum, is_alnum_exec, lower_seq,
    lower_vec, parse_uint, push_decimal, push_decimal_padded, push_str, string_of, string_views,
    trim_by, trim_ws, trim_ws_vec, starts_with,
};

verus! {

// ---------------------------------------------------------------------------
// uploads
// ---------------------------------------------------------------------------

/// The last component of a client-supplied name: the text after its last `/` or `\`.
pub open spec fn last_component(raw: Seq<char>) -> Seq<char>
    decreases raw.len(),
{
    if raw.len() == 0 {
        raw
    } else if raw.last() == '/' || raw.last() == '\\' {
        Seq::empty()
    } else {
        last_component(raw.drop_last()).push(raw.last())
    }
}

/// A character of an upload name: ASCII alphanumerics, `.`, `_` and `-` stay, anything
/// else becomes `_`.
pub open spec fn upload_char(c: char) -> char {
    if is_alnum(c) || c == '.' || c == '_' || c == '-' {
        c
    } else {
        '_'
    }
}

/// The predicate "is `.`, `_` or `-`".
pub open spec fn punct_pred() -> spec_fn(char) -> bool {
    |c: char| c == '.' || c == '_' || c == '-'
}

/// The refusal of a name that is empty, `.`, `..`, or nothing but punctuation.
pub open spec fn invalid_filename() -> Seq<char> {
    "invalid filename"@
}

/// The refusal of a name that is not a GeoTIFF.
pub open spec fn only_tiff() -> Seq<char> {
    "only .tif/.tiff files are accepted"@
}

/// The safe, flat file name of an upload: the trimmed last component must be a real
/// name ending in `.tif` or `.tiff` (ASCII case ignored); its characters are then
/// restricted to `[A-Za-z0-9._-]`, and it must hold something besides punctuation.
pub open spec fn upload_name_spec(raw: Seq<char>) -> Result<Seq<char>, Seq<char>> {
    let base = trim_ws(last_component(raw));
    let cleaned = base.map_values(|c: char| upload_char(c));
    if base.len() == 0 || base == "."@ || base == ".."@ {
        Err(invalid_filename())
    } else if !(ends_with(lower_seq(base), ".tif"@) || ends_with(lower_seq(base), ".tiff"@)) {
        Err(only_tiff())
    } else if trim_by(cleaned, punct_pred()).len() == 0 {
        Err(invalid_filename())
    } else {
        Ok(cleaned)
    }
}

/// Sanitize a client-supplied upload filename into a safe, flat `.tif`/`.tiff` name.
pub fn sanitize_upload_name(raw: &str) -> (r: Result<String, String>)
    ensures
        match upload_name_spec(raw@) {
            Ok(n) => r matches Ok(x) && x@ == n,
            Err(e) => r matches Err(x) && x@ == e,
        },
{
    let v = chars_of(raw);
    // The last component.
    let mut start = v.len();
    assert(v@.take(start as int) =~= v@);
    assert(v@.subrange(start as int, v@.len() as int) =~= Seq::<char>::empty());
    while start > 0 && v[start - 1] != '/' && v[start - 1] != '\\'
        invariant
            start <= v@.len(),
            v@ == raw@,
            last_component(raw@) == last_component(v@.take(start as int)) + v@.subrange(
                start as int,
                v@.len() as int,
            ),
        decreases start,
    {
        let ghost t = v@.take(start as int);
        assert(t.drop_last() =~= v@.take(start - 1));
        assert(t.last() == v@[start - 1]);
        assert(v@.subrange(start - 1, v@.len() as int) =~= seq![v@[start - 1]] + v@.subrange(
            start as int,
            v@.len() as int,
        ));
        start = start - 1;
    }
    proof {
        let t = v@.take(start as int);
        if start > 0 {
            assert(t.last() == v@[start - 1]);
        } else {
            assert(t =~= Seq::<char>::empty());
        }
        assert(last_component(t) =~= Seq::<char>::empty());
    }
    let comp = crate::text::slice_of(&v, start, v.len());
    assert(comp@ =~= last_component(raw@));
    let base = trim_ws_vec(&comp);
    proof {
        reveal_strlit(".");
        reveal_strlit("..");
        reveal_strlit(".tif");
        reveal_strlit(".tiff");
        reveal_strlit("invalid filename");
        reveal_strlit("only .tif/.tiff files are accepted");
    }
    if base.len() == 0 || crate::decimal::eq_chars(&base, &chars_of(".")) || crate::decimal::eq_chars(
        &base,
        &chars_of(".."),
    ) {
        return Err("invalid filename".to_string());
    }
    let lower = lower_vec(&base);
    if !(crate::text::ends_with_str(&lower, ".tif") || crate::text::ends_with_str(&lower, ".tiff")) {
        return Err("only .tif/.tiff files are accepted".to_string());
    }
    let mut cleaned: Vec<char> = Vec::new();
    let mut i: usize = 0;
    while i < base.len()
        invariant
            i <= base@.len(),
            cleaned@ == base@.take(i as int).map_values(|c: char| upload_char(c)),
        decreases base.len() - i,
    {
        let c = base[i];
        let d = if is_alnum_exec(c) || c == '.' || c == '_' || c == '-' {
            c
        } else {
            '_'
        };
        cleaned.push(d);
        i = i + 1;
        assert(cleaned@ =~= base@.take(i as int).map_values(|c: char| upload_char(c)));
    }
    assert(base@.take(i as int) =~= base@);
    // Is anything left besides punctuation?
    let mut k: usize = 0;
    while k < cleaned.len() && (cleaned[k] == '.' || cleaned[k] == '_' || cleaned[k] == '-')
        invariant
            k <= cleaned@.len(),
            forall|j: int| 0 <= j < k ==> #[trigger] punct_pred()(cleaned@[j]),
        decreases cleaned.len() - k,
    {
        k = k + 1;
    }
    proof {
        crate::text::lemma_lead_count_unique(cleaned@, punct_pred(), k as int);
        crate::text::lemma_trail_count(cleaned@.skip(k as int), punct_pred());
        if k < cleaned@.len() {
            let u = cleaned@.skip(k as int);
            assert(u[0] == cleaned@[k as int]);
            assert(!punct_pred()(u[0]));
            if crate::text::trail_count(u, punct_pred()) == u.len() {
                assert(punct_pred()(u[0]));
            }
        }
    }
    if k == cleaned.len() {
        return Err("invalid filename".to_string());
    }
    Ok(string_of(&cleaned))
}

/// The `(stem, extension)` of a file name split at its last `.` (`rsplit_once`), the
/// extension keeping its dot; a name without a dot has no extension.
pub open spec fn split_last_dot(name: Seq<char>) -> (Seq<char>, Seq<char>) {
    match crate::paths::last_dot(name) {
        Some(i) => (name.take(i), name.skip(i)),
        None => (name, Seq::empty()),
    }
}

/// The `n`-th alternative name: `{stem}-{n}{ext}`.
pub open spec fn numbered_name(name: Seq<char>, n: nat) -> Seq<char> {
    split_last_dot(name).0 + "-"@ + decimal(n) + split_last_dot(name).1
}

/// The stem and the extension (with its dot) of `name`, split at its last dot.
fn split_name(name: &str) -> (r: (String, String))
    ensures
        r.0@ == split_last_dot(name@).0,
        r.1@ == split_last_dot(name@).1,
{
    let v = chars_of(name);
    match crate::paths::last_dot_exec(&v) {
        Some(i) => {
            let s = crate::text::string_of_range(&v, 0, i);
            let e = crate::text::string_of_range(&v, i, v.len());
            assert(v@.subrange(0, i as int) =~= v@.take(i as int));
            assert(v@.subrange(i as int, v@.len() as int) =~= v@.skip(i as int));
            (s, e)
        },
        None => (name.to_string(), String::new()),
    }
}

/// The `n`-th alternative of `name` inside `dir`, from the name's stem and extension.
fn numbered_dest(dir: &str, name: &str, stem: &String, ext: &String, n: u32) -> (r: String)
    requires
        plain_name(name@),
        stem@ == split_last_dot(name@).0,
        ext@ == split_last_dot(name@).1,
    ensures
        joined(r@, dir@, numbered_name(name@, n as nat)),
{
    let mut c = chars_of(stem.as_str());
    push_str(&mut c, "-");
    push_decimal(&mut c, n as u64);
    push_str(&mut c, ext.as_str());
    proof {
        reveal_strlit("-");
        lemma_numbered_plain(name@, n as nat);
    }
    let cand_name = string_of(&c);
    assert(cand_name@ == numbered_name(name@, n as nat));
    path_join(dir, cand_name.as_str())
}

/// Where `name` goes inside `dir` given the answers `taken` (whether the name itself,
/// then `{stem}-1{ext}`, `{stem}-2{ext}`, ..., exist): the first one answered free, the
/// name itself when none was.
pub open spec fn dest_outcome(dir: Seq<char>, name: Seq<char>, taken: Seq<bool>, r: Seq<char>) -> bool {
    match first_true(taken.map_values(|b: bool| !b)) {
        Some(i) => if i == 0 {
            joined(r, dir, name)
        } else {
            joined(r, dir, numbered_name(name, i as nat))
        },
        None => joined(r, dir, name),
    }
}

/// The destination picked for `name` inside `dir` from the answers `taken` (whether the
/// name itself, then `{stem}-1{ext}`, `{stem}-2{ext}`, ... exist, in order): the first one
/// answered free; the name itself when none was.
pub fn dest_choice(dir: &str, name: &str, taken: &Vec<bool>) -> (r: String)
    requires
        plain_name(name@),
        taken@.len() <= 0xffff_ffff,
    ensures
        dest_outcome(dir@, name@, taken@, r@),
{
    let ghost free = taken@.map_values(|b: bool| !b);
    proof {
        lemma_first_true(free);
    }
    let (stem, ext) = split_name(name);
    let mut i: usize = 0;
    while i < taken.len()
        invariant
            i <= taken@.len(),
            taken@.len() <= 0xffff_ffff,
            plain_name(name@),
            stem@ == split_last_dot(name@).0,
            ext@ == split_last_dot(name@).1,
            free == taken@.map_values(|b: bool| !b),
            forall|j: int| 0 <= j < i ==> !free[j],
            first_true(free) is None <==> forall|j: int| 0 <= j < free.len() ==> !free[j],
            first_true(free) matches Some(k) ==> 0 <= k < free.len() && free[k] && forall|j: int|
                0 <= j < k ==> !free[j],
        decreases taken.len() - i,
    {
        if !taken[i] {
            assert(free[i as int]);
            assert(first_true(free) == Some(i as int));
            if i == 0 {
                return path_join(dir, name);
            }
            return numbered_dest(dir, name, &stem, &ext, i as u32);
        }
        assert(!free[i as int]);
        i = i + 1;
    }
    path_join(dir, name)
}

/// Pick a destination for `name` inside `dir` that does not exist yet: the name itself,
/// then `{stem}-{n}{ext}` for `n = 1, 2, ...`, are probed until one is free (the file
/// system answers each probe), and `dest_choice` picks from the answers.
pub fn unique_dest(dir: &str, name: &str) -> (r: String)
    requires
        plain_name(name@),
    ensures
        exists|taken: Seq<bool>|
            lazy_answers(taken.map_values(|b: bool| !b), 0xffff_ffff) && dest_outcome(
                dir@,
                name@,
                taken,
                r@,
            ),
        joined(r@, dir@, name@) || exists|n: nat| n >= 1 && joined(r@, dir@, numbered_name(name@, n)),
{
    let mut taken: Vec<bool> = Vec::new();
    let first = path_join(dir, name);
    let t0 = path_exists(first.as_str());
    taken.push(t0);
    if t0 {
        let (stem, ext) = split_name(name);
        let mut n: u32 = 1;
        while n < 0xffff_ffff
            invariant_except_break
                forall|j: int| 0 <= j < taken@.len() ==> #[trigger] taken@[j],
            invariant
                1 <= n <= 0xffff_ffff,
                taken@.len() == n,
                plain_name(name@),
                stem@ == split_last_dot(name@).0,
                ext@ == split_last_dot(name@).1,
            ensures
                lazy_answers(taken@.map_values(|b: bool| !b), 0xffff_ffff),
            decreases 0xffff_ffffu32 - n,
        {
            let cand = numbered_dest(dir, name, &stem, &ext, n);
            let ghost before = taken@;
            let t = path_exists(cand.as_str());
            taken.push(t);
            n = n + 1;
            if !t {
                proof {
                    let f = taken@.map_values(|b: bool| !b);
                    assert forall|j: int| 0 <= j < f.len() - 1 implies !#[trigger] f[j] by {
                        assert(taken@[j] == before[j]);
                    }
                }
                break;
            }
        }
    }
    proof {
        if !t0 {
            assert(lazy_answers(taken@.map_values(|b: bool| !b), 0xffff_ffff));
        }
    }
    let r = dest_choice(dir, name, &taken);
    proof {
        lemma_first_true(taken@.map_values(|b: bool| !b));
    }
    r
}

/// The last dot is a position of the name.
proof fn lemma_last_dot_range(s: Seq<char>)
    ensures
        crate::paths::last_dot(s) matches Some(k) ==> 0 <= k < s.len() && s[k] == '.',
    decreases s.len(),
{
    if s.len() > 0 && s.last() != '.' {
        lemma_last_dot_range(s.drop_last());
    }
}

/// A numbered alternative of a plain name is a plain name.
proof fn lemma_numbered_plain(name: Seq<char>, n: nat)
    requires
        plain_name(name),
    ensures
        plain_name(numbered_name(name, n)),
{
    reveal_strlit("-");
    let (s, e) = split_last_dot(name);
    crate::text::lemma_decimal_digits(n);
    lemma_last_dot_range(name);
    let m = numbered_name(name, n);
    let d = decimal(n);
    assert forall|i: int| 0 <= i < m.len() implies #[trigger] m[i] != '/' && m[i] != '\\' && m[i]
        != ':' by {
        if i < s.len() {
            assert(m[i] == name[i]);
        } else if i == s.len() {
            assert(m[i] == '-');
        } else if i < s.len() + 1 + d.len() {
            assert(m[i] == d[i - s.len() - 1]);
            assert(crate::text::is_digit(d[i - s.len() - 1]));
        } else {
            let j = i - s.len() - 1 - d.len();
            assert(m[i] == e[j]);
            match crate::paths::last_dot(name) {
                Some(k) => {
                    assert(e[j] == name[k + j]);
                },
                None => {},
            }
        }
    }
}

/// The largest upload accepted by default: 2 GiB.
pub const DEFAULT_MAX_UPLOAD: usize = 2147483648;

/// The upload size limit: `MARTIN_STUDIO_MAX_UPLOAD_BYTES` when it parses as a size,
/// else 2 GiB.
pub fn max_upload_bytes(setting: Option<String>) -> (r: usize)
    ensures
        match setting {
            Some(s) => match parse_uint(s@, usize::MAX as nat) {
                Some(v) => r == v,
                None => r == DEFAULT_MAX_UPLOAD,
            },
            None => r == DEFAULT_MAX_UPLOAD,
        },
{
    match setting {
        Some(s) => {
            let v = chars_of(s.as_str());
            match crate::text::parse_u64_vec(&v) {
                Some(n) => if n <= usize::MAX as u64 {
                    n as usize
                } else {
                    DEFAULT_MAX_UPLOAD
                },
                None => DEFAULT_MAX_UPLOAD,
            }
        },
        None => DEFAULT_MAX_UPLOAD,
    }
}

/// What an upload of `len` bytes named `raw` is answered with before anything is written:
/// its sanitized file name, or the HTTP status and message of its refusal (a bad name,
/// an empty body, or a body over the size limit, checked in that order).
pub fn upload_verdict(raw: &str, len: usize, limit: usize) -> (r: Result<String, (u16, String)>)
    ensures
        match upload_name_spec(raw@) {
            Err(e) => r matches Err((status, m)) && status == 400 && m@ == e,
            Ok(n) => if len == 0 {
                r matches Err((status, m)) && status == 400 && m@ == "empty upload"@
            } else if len > limit {
                r matches Err((status, m)) && status == 413 && m@
                    == "file exceeds the upload size limit"@
            } else {
                r matches Ok(x) && x@ == n
            },
        },
{
    let name = match sanitize_upload_name(raw) {
        Ok(n) => n,
        Err(e) => return Err((400, e)),
    };
    if len == 0 {
        proof {
            reveal_strlit("empty upload");
        }
        return Err((400, "empty upload".to_string()));
    }
    if len > limit {
        proof {
            reveal_strlit("file exceeds the upload size limit");
        }
        return Err((413, "file exceeds the upload size limit".to_string()));
    }
    Ok(name)
}

// ---------------------------------------------------------------------------
// inputs
// ---------------------------------------------------------------------------

/// The Windows verbatim prefix `\\?\` that `canonicalize` adds, removed (`\\?\UNC\`
/// becomes `\\`), since the GDAL tools cannot open such paths. Other platforms keep the
/// path as it is.
pub open spec fn strip_verbatim_spec(p: Seq<char>, windows: bool) -> Seq<char> {
    if windows && starts_with(p, "\\\\?\\UNC\\"@) {
        "\\\\"@ + p.skip(8)
    } else if windows && starts_with(p, "\\\\?\\"@) {
        p.skip(4)
    } else {
        p
    }
}

/// Strip the Windows verbatim prefix of a canonical path.
pub fn strip_verbatim_prefix(p: String, windows: bool) -> (r: String)
    ensures
        r@ == strip_verbatim_spec(p@, windows),
{
    if !windows {
        return p;
    }
    let v = chars_of(p.as_str());
    proof {
        reveal_strlit("\\\\?\\UNC\\");
        reveal_strlit("\\\\?\\");
        reveal_strlit("\\\\");
    }
    if crate::text::starts_with_str(&v, "\\\\?\\UNC\\") {
        let mut out = chars_of("\\\\");
        crate::text::push_range(&mut out, &v, 8, v.len());
        assert(v@.subrange(8, v@.len() as int) =~= v@.skip(8));
        return string_of(&out);
    }
    if crate::text::starts_with_str(&v, "\\\\?\\") {
        assert(v@.subrange(4, v@.len() as int) =~= v@.skip(4));
        return crate::text::string_of_range(&v, 4, v.len());
    }
    p
}

/// `Path::starts_with`: whether `base` is a leading run of whole components of `p`. A
/// path starts with itself; which other texts count as the same components depends on the
/// platform and is left unsaid.
#[verifier::external_body]
fn path_starts_with(p: &str, base: &str) -> (r: bool)
    ensures
        p@ == base@ ==> r,
{
    std::path::Path::new(p).starts_with(base)
}

/// The refusal of an input that resolves outside the data directory.
pub open spec fn escapes_error(rel: Seq<char>) -> Seq<char> {
    rel + ": path escapes the data directory"@
}

/// The refusal of an input that is not a file.
pub open spec fn not_a_file_error(rel: Seq<char>) -> Seq<char> {
    rel + ": not a file"@
}

/// The verdict on one client-supplied input `rel`, given its canonical path (or why it
/// could not be resolved), whether that path lies inside the canonical data directory
/// (`inside`) and whether it is a file (`is_file`): refused unless resolved, inside and a
/// file; else its path without a Windows verbatim prefix.
pub fn input_verdict(rel: &str, canon: Result<String, String>, inside: bool, is_file: bool, windows: bool) -> (r: Result<String, String>)
    ensures
        canon matches Err(e) ==> (r matches Err(x) && x@ == rel@ + ": "@ + e@),
        canon is Ok && !inside ==> (r matches Err(x) && x@ == escapes_error(rel@)),
        canon is Ok && inside && !is_file ==> (r matches Err(x) && x@ == not_a_file_error(rel@)),
        canon matches Ok(c) ==> (inside && is_file ==> (r matches Ok(x) && x@
            == strip_verbatim_spec(c@, windows))),
{
    proof {
        reveal_strlit(": ");
        reveal_strlit(": path escapes the data directory");
        reveal_strlit(": not a file");
    }
    match canon {
        Err(e) => {
            let mut v = chars_of(rel);
            push_str(&mut v, ": ");
            push_str(&mut v, e.as_str());
            Err(string_of(&v))
        },
        Ok(c) => {
            if !inside {
                return Err(concat2(rel, ": path escapes the data directory"));
            }
            if !is_file {
                return Err(concat2(rel, ": not a file"));
            }
            Ok(strip_verbatim_prefix(c, windows))
        },
    }
}

/// Check one client-supplied input `rel` against the canonical data directory `base`,
/// given its canonical path (or why it could not be resolved): whether the path lies inside
/// `base` (`Path::starts_with`) and then whether it is a file are asked of std and the
/// file system, and `input_verdict` decides from the answers.
pub fn check_input(rel: &str, canon: Result<String, String>, base: &str, windows: bool) -> (r: Result<String, String>)
    ensures
        canon matches Err(e) ==> (r matches Err(x) && x@ == rel@ + ": "@ + e@),
        canon matches Ok(c) ==> match r {
            Ok(x) => x@ == strip_verbatim_spec(c@, windows),
            Err(x) => x@ == escapes_error(rel@) || x@ == not_a_file_error(rel@),
        },
        canon matches Ok(c) ==> (c@ == base@ ==> match r {
            Ok(x) => x@ == strip_verbatim_spec(c@, windows),
            Err(x) => x@ == not_a_file_error(rel@),
        }),
{
    let (inside, is_file) = match &canon {
        Err(_) => (false, false),
        Ok(c) => {
            let inside = path_starts_with(c.as_str(), base);
            let is_file = inside && crate::paths::path_is_file(c.as_str());
            (inside, is_file)
        },
    };
    input_verdict(rel, canon, inside, is_file, windows)
}

/// A browsed file is a GeoTIFF when its extension is `tif` or `tiff` (ASCII case
/// ignored).
pub open spec fn is_tiff_name(name: Seq<char>) -> bool {
    match crate::paths::stem_ext(name).1 {
        Some(e) => lower_seq(e) == "tif"@ || lower_seq(e) == "tiff"@,
        None => false,
    }
}

/// Whether a file name is a GeoTIFF's.
pub fn is_tiff(name: &str) -> (r: bool)
    ensures
        r == is_tiff_name(name@),
{
    let (_stem, ext) = crate::paths::split_stem_ext(name);
    proof {
        reveal_strlit("tif");
        reveal_strlit("tiff");
    }
    match ext {
        Some(e) => {
            let l = lower_vec(&chars_of(e.as_str()));
            crate::decimal::eq_chars(&l, &chars_of("tif")) || crate::decimal::eq_chars(
                &l,
                &chars_of("tiff"),
            )
        },
        None => false,
    }
}

/// A relative path as the client gets it back: backslashes as slashes.
pub fn client_rel_path(rel: &str) -> (r: String)
    ensures
        r@ == rel@.map_values(|c: char| if c == '\\' { '/' } else { c }),
{
    let v = chars_of(rel);
    let mut m: Vec<char> = Vec::new();
    let mut i: usize = 0;
    while i < v.len()
        invariant
            i <= v@.len(),
            v@ == rel@,
            m@ == v@.take(i as int).map_values(|c: char| if c == '\\' { '/' } else { c }),
        decreases v.len() - i,
    {
        let c = if v[i] == '\\' {
            '/'
        } else {
            v[i]
        };
        m.push(c);
        i = i + 1;
        assert(m@ =~= v@.take(i as int).map_values(|c: char| if c == '\\' { '/' } else { c }));
    }
    assert(v@.take(i as int) =~= v@);
    string_of(&m)
}

/// The directories of the studio: `MARTIN_STUDIO_DATA_DIR` (default `data`) and
/// `MARTIN_STUDIO_OUTPUT_DIR` (default `studio-maps`).
pub fn studio_dirs(data_dir: Option<String>, output_dir: Option<String>) -> (r: (String, String))
    ensures
        r.0@ == match data_dir {
            Some(d) => d@,
            None => "data"@,
        },
        r.1@ == match output_dir {
            Some(d) => d@,
            None => "studio-maps"@,
        },
{
    proof {
        reveal_strlit("data");
        reveal_strlit("studio-maps");
    }
    let d = match data_dir {
        Some(d) => d,
        None => "data".to_string(),
    };
    let o = match output_dir {
        Some(o) => o,
        None => "studio-maps".to_string(),
    };
    (d, o)
}

/// The error shown when GDAL is not available: the discovery error, else a generic one.
pub fn gdal_unavailable(error: &Option<String>) -> (r: String)
    ensures
        r@ == match error {
            Some(e) => e@,
            None => "GDAL not available"@,
        },
{
    proof {
        reveal_strlit("GDAL not available");
    }
    match error {
        Some(e) => e.clone(),
        None => "GDAL not available".to_string(),
    }
}

// ---------------------------------------------------------------------------
// jobs
// ---------------------------------------------------------------------------

/// The id of the `n`-th job: `job-` and `n` zero-padded to four digits.
pub fn job_id(n: u64) -> (r: String)
    ensures
        r@ == "job-"@ + decimal_padded(n as nat, 4),
{
    let mut v = chars_of("job-");
    push_decimal_padded(&mut v, n, 4);
    proof {
        reveal_strlit("job-");
    }
    string_of(&v)
}

/// Leading zeros do not change the value of a digit string.
proof fn lemma_leading_zeros(z: Seq<char>, d: Seq<char>)
    requires
        forall|i: int| 0 <= i < z.len() ==> #[trigger] z[i] == '0',
    ensures
        crate::text::digits_value(z + d) == crate::text::digits_value(d),
    decreases z.len() + d.len(),
{
    if d.len() == 0 {
        assert(z + d =~= z);
        if z.len() > 0 {
            lemma_leading_zeros(z.drop_last(), d);
            assert(z.drop_last() + d =~= z.drop_last());
            assert(z.last() == '0');
            assert(crate::text::digit_value('0') == 0);
        }
    } else {
        lemma_leading_zeros(z, d.drop_last());
        assert((z + d).drop_last() =~= z + d.drop_last());
        assert((z + d).last() == d.last());
    }
}

/// The value of `n` zero-padded is `n`.
proof fn lemma_padded_value(n: nat, width: nat)
    ensures
        crate::text::digits_value(decimal_padded(n, width)) == n,
{
    crate::registry::lemma_decimal_value(n);
    let d = decimal(n);
    if d.len() < width {
        let z = Seq::new((width - d.len()) as nat, |i: int| '0');
        lemma_leading_zeros(z, d);
    }
}

/// Job ids of different counter values differ: a counter that only grows never hands out
/// an id twice.
pub proof fn job_ids_distinct(a: u64, b: u64)
    requires
        a != b,
    ensures
        "job-"@ + decimal_padded(a as nat, 4) != "job-"@ + decimal_padded(b as nat, 4),
{
    reveal_strlit("job-");
    let x = "job-"@ + decimal_padded(a as nat, 4);
    let y = "job-"@ + decimal_padded(b as nat, 4);
    if x == y {
        assert(x.skip(4) =~= decimal_padded(a as nat, 4));
        assert(y.skip(4) =~= decimal_padded(b as nat, 4));
        lemma_padded_value(a as nat, 4);
        lemma_padded_value(b as nat, 4);
    }
}

/// The grids a generation request asks for: the requested grids (Web Mercator when
/// nothing at all is requested: no grids, no custom EPSG codes and no COG), then one
/// custom grid per EPSG code.
pub open spec fn requested_grids_spec(grids: Seq<TileGrid>, epsgs: Seq<u32>, cog: bool) -> Seq<TileGrid> {
    (if grids.len() == 0 && epsgs.len() == 0 && !cog {
        seq![TileGrid::WebMercator]
    } else {
        grids
    }) + epsgs.map_values(|e: u32| TileGrid::Custom(e))
}

/// The grids of a generation request.
pub fn requested_grids(grids: &Vec<TileGrid>, epsgs: &Vec<u32>, cog: bool) -> (r: Vec<TileGrid>)
    ensures
        r@ == requested_grids_spec(grids@, epsgs@, cog),
{
    let mut out: Vec<TileGrid> = Vec::new();
    if grids.len() == 0 && epsgs.len() == 0 && !cog {
        out.push(TileGrid::WebMercator);
    } else {
        let mut i: usize = 0;
        while i < grids.len()
            invariant
                i <= grids@.len(),
                out@ == grids@.take(i as int),
            decreases grids.len() - i,
        {
            out.push(grids[i]);
            i = i + 1;
            assert(out@ =~= grids@.take(i as int));
        }
        assert(grids@.take(i as int) =~= grids@);
    }
    let ghost head = out@;
    let mut k: usize = 0;
    while k < epsgs.len()
        invariant
            k <= epsgs@.len(),
            out@ == head + epsgs@.take(k as int).map_values(|e: u32| TileGrid::Custom(e)),
        decreases epsgs.len() - k,
    {
        out.push(TileGrid::Custom(epsgs[k]));
        k = k + 1;
        assert(out@ =~= head + epsgs@.take(k as int).map_values(|e: u32| TileGrid::Custom(e)));
    }
    assert(epsgs@.take(k as int) =~= epsgs@);
    out
}

/// Status of a generation job.
#[derive(Clone, Copy, Debug, PartialEq, Eq, Structural)]
pub enum JobStatus {
    Running,
    Done,
    Failed,
}

/// A generation job's progress: status, log, stage counters, latest percentage and
/// error. (Its final report is kept beside it.)
pub struct Job {
    pub id: String,
    pub name: String,
    pub status: JobStatus,
    /// Human-readable progress log lines.
    pub log: Vec<String>,
    /// Current stage (1-based) and total, for a progress bar.
    pub stage_index: u32,
    pub stage_total: u32,
    /// Latest within-stage percentage (0..=100), if known.
    pub percent: Option<u32>,
    /// Error message if the job failed.
    pub error: Option<String>,
}

/// The most log lines a job keeps after a log event.
pub const MAX_LOG_LINES: usize = 500;

/// A new, running job.
pub fn new_job(id: String, name: String) -> (r: Job)
    ensures
        r.id == id,
        r.name == name,
        r.status == JobStatus::Running,
        r.log@.len() == 0,
        r.stage_index == 0,
        r.stage_total == 0,
        r.percent is None,
        r.error is None,
{
    Job {
        id,
        name,
        status: JobStatus::Running,
        log: Vec::new(),
        stage_index: 0,
        stage_total: 0,
        percent: None,
        error: None,
    }
}

/// The log line of a stage: `▶ stage {index}/{total}: {stage}` and ` [{grid}]` for a
/// grid stage.
pub open spec fn stage_log_line(s: StageStep) -> Seq<char> {
    "▶ stage "@ + decimal(s.index as nat) + "/"@ + decimal(s.total as nat) + ": "@ + s.stage@
        + match s.grid {
        Some(g) => " ["@ + grid_slug(g) + "]"@,
        None => Seq::empty(),
    }
}

/// The log line of a stage.
pub fn stage_line(s: &StageStep) -> (r: String)
    ensures
        r@ == stage_log_line(*s),
{
    let mut v = chars_of("▶ stage ");
    push_decimal(&mut v, s.index as u64);
    push_str(&mut v, "/");
    push_decimal(&mut v, s.total as u64);
    push_str(&mut v, ": ");
    push_str(&mut v, s.stage.as_str());
    proof {
        reveal_strlit("▶ stage ");
        reveal_strlit("/");
        reveal_strlit(": ");
        reveal_strlit(" [");
        reveal_strlit("]");
    }
    match s.grid {
        Some(g) => {
            push_str(&mut v, " [");
            let slug = g.slug();
            push_str(&mut v, slug.as_str());
            push_str(&mut v, "]");
        },
        None => {},
    }
    string_of(&v)
}

/// Fold a progress event into a job: a stage sets the counters, clears the percentage
/// and logs the stage; a percentage is recorded; a log line is appended and the log then
/// cut to its last 500 lines.
pub fn apply_event(job: &mut Job, ev: &ProgressEvent)
    ensures
        final(job).id == old(job).id,
        final(job).name == old(job).name,
        final(job).status == old(job).status,
        final(job).error == old(job).error,
        match ev {
            ProgressEvent::Stage(s) => {
                &&& final(job).stage_index == s.index
                &&& final(job).stage_total == s.total
                &&& final(job).percent is None
                &&& string_views(final(job).log@) == string_views(old(job).log@).push(
                    stage_log_line(*s),
                )
            },
            ProgressEvent::Percent { percent, .. } => {
                &&& final(job).percent == Some(*percent)
                &&& final(job).log == old(job).log
                &&& final(job).stage_index == old(job).stage_index
                &&& final(job).stage_total == old(job).stage_total
            },
            ProgressEvent::Log { message } => {
                &&& string_views(final(job).log@) == crate::gdalenv::keep_last(
                    string_views(old(job).log@).push(message@),
                    MAX_LOG_LINES as nat,
                )
                &&& final(job).percent == old(job).percent
                &&& final(job).stage_index == old(job).stage_index
                &&& final(job).stage_total == old(job).stage_total
            },
        },
{
    match ev {
        ProgressEvent::Stage(s) => {
            job.stage_index = s.index;
            job.stage_total = s.total;
            job.percent = None;
            let line = stage_line(s);
            crate::text::push_owned(&mut job.log, line);
        },
        ProgressEvent::Percent { percent, .. } => {
            job.percent = Some(*percent);
        },
        ProgressEvent::Log { message } => {
            let ghost before = string_views(job.log@).push(message@);
            crate::text::push_owned(&mut job.log, message.clone());
            if job.log.len() > MAX_LOG_LINES {
                let drop = job.log.len() - MAX_LOG_LINES;
                let mut kept: Vec<String> = Vec::new();
                let mut i = drop;
                while i < job.log.len()
                    invariant
                        drop <= i <= job.log@.len(),
                        string_views(kept@) == string_views(job.log@).subrange(
                            drop as int,
                            i as int,
                        ),
                    decreases job.log.len() - i,
                {
                    let ghost b = string_views(kept@);
                    crate::text::push_owned(&mut kept, job.log[i].clone());
                    assert(string_views(kept@) =~= string_views(job.log@).subrange(
                        drop as int,
                        i + 1,
                    ));
                    i = i + 1;
                }
                assert(string_views(job.log@).subrange(drop as int, job.log@.len() as int)
                    =~= string_views(job.log@).skip(drop as int));
                job.log = kept;
            }
            assert(string_views(job.log@) =~= crate::gdalenv::keep_last(
                before,
                MAX_LOG_LINES as nat,
            ));
        },
    }
}

/// Law: after a log event the job keeps at most 500 log lines, the newest last.
pub proof fn log_stays_bounded(old_log: Seq<Seq<char>>, message: Seq<char>)
    ensures
        crate::gdalenv::keep_last(old_log.push(message), MAX_LOG_LINES as nat).len()
            <= MAX_LOG_LINES,
        crate::gdalenv::keep_last(old_log.push(message), MAX_LOG_LINES as nat).last() == message,
{
}

/// Record how a job ended: done, or failed with the error (also logged as
/// `error: {message}`).
pub fn finish_job(job: &mut Job, outcome: Result<(), String>)
    ensures
        final(job).id == old(job).id,
        final(job).stage_index == old(job).stage_index,
        final(job).stage_total == old(job).stage_total,
        final(job).percent == old(job).percent,
        match outcome {
            Ok(()) => final(job).status == JobStatus::Done && final(job).log == old(job).log
                && final(job).error == old(job).error,
            Err(e) => final(job).status == JobStatus::Failed && final(job).error == Some(e)
                && string_views(final(job).log@) == string_views(old(job).log@).push(
                "error: "@ + e@,
            ),
        },
{
    match outcome {
        Ok(()) => {
            job.status = JobStatus::Done;
        },
        Err(e) => {
            job.status = JobStatus::Failed;
            proof {
                reveal_strlit("error: ");
            }
            let line = concat2("error: ", e.as_str());
            job.error = Some(e);
            crate::text::push_owned(&mut job.log, line);
        },
    }
}

} // verus!
