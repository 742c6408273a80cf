//! File-system paths held as strings. Joining and taking the parent go through
//! `std::path`, whose separator and prefix rules depend on the platform; what holds on
//! every platform is stated for each operation.

use vstd::prelude::*;

verus! {

/// A plain file or directory name: non-empty, with no path separator or drive colon.
pub open spec fn plain_name(s: Seq<char>) -> bool {
    s.len() > 0 && forall|i: int| 0 <= i < s.len() ==> #[trigger] s[i] != '/' && s[i] != '\\'
        && s[i] != ':'
}

/// Whether a name is a plain file or directory name.
pub fn is_plain_name(s: &str) -> (r: bool)
    ensures
        r == plain_name(s@),
{
    let v = crate::text::chars_of(s);
    if v.len() == 0 {
        return false;
    }
    let mut i: usize = 0;
    while i < v.len()
        invariant
            0 < v@.len(),
            v@ == s@,
            i <= v@.len(),
            forall|k: int| 0 <= k < i ==> #[trigger] v@[k] != '/' && v@[k] != '\\' && v@[k] != ':',
        decreases v.len() - i,
    {
        if v[i] == '/' || v[i] == '\\' || v[i] == ':' {
            return false;
        }
        i = i + 1;
    }
    true
}

/// The separators `Path::push` may insert between a directory and a plain name.
pub open spec fn join_sep(sep: Seq<char>) -> bool {
    sep == Seq::<char>::empty() || sep == seq!['/'] || sep == seq!['\\']
}

/// The separator `Path::push` puts after `base`, as far as every platform agrees: none after
/// an empty base or one ending in `/`, exactly one after a base ending in a character that
/// is neither a separator nor a drive colon.
pub open spec fn sep_for(base: Seq<char>, sep: Seq<char>) -> bool {
    &&& join_sep(sep)
    &&& (base.len() == 0 || base.last() == '/') ==> sep.len() == 0
    &&& (base.len() > 0 && base.last() != '/' && base.last() != '\\' && base.last() != ':')
        ==> sep.len() == 1
}

/// A Windows verbatim path (`\\?\...`): std rebuilds such a path from its components when
/// something is pushed onto it, so what the result looks like is not stated.
pub open spec fn verbatim(b: Seq<char>) -> bool {
    b.len() >= 4 && b[0] == '\\' && b[1] == '\\' && b[2] == '?' && b[3] == '\\'
}

/// `r` is `base` joined with the plain name `name`: `base`, the separator `Path::push`
/// puts there, then `name`; nothing is said when `base` is a verbatim path.
pub open spec fn joined(r: Seq<char>, base: Seq<char>, name: Seq<char>) -> bool {
    verbatim(base) || exists|sep: Seq<char>| sep_for(base, sep) && r == base + sep + name
}

/// `Path::new(base).join(name)` for a plain `name`: on every platform the name is appended
/// to `base` after the separator `Path::push` puts there (unless `base` is a verbatim path,
/// which std normalises).
#[verifier::external_body]
pub fn path_join(base: &str, name: &str) -> (r: String)
    requires
        plain_name(name@),
    ensures
        joined(r@, base@, name@),
{
    std::path::Path::new(base).join(name).to_string_lossy().into_owned()
}

/// A name that `Path` reads as a normal component: a plain name other than `.` and `..`.
pub open spec fn normal_name(n: Seq<char>) -> bool {
    plain_name(n) && n != "."@ && n != ".."@
}

/// Position `j` of `d` starts a `.` or `..` component.
pub open spec fn dot_component_at(d: Seq<char>, j: int) -> bool {
    ||| j < d.len() && d[j] == '.' && (j + 1 == d.len() || d[j + 1] == '/')
    ||| j + 1 < d.len() && d[j] == '.' && d[j + 1] == '.' && (j + 2 == d.len() || d[j + 2] == '/')
}

/// A plain absolute directory: `/` followed by normal names separated by single `/`
/// (no trailing separator, no `.` or `..` component, no backslash or drive colon).
pub open spec fn plain_abs_dir(d: Seq<char>) -> bool {
    &&& d.len() >= 2
    &&& d[0] == '/'
    &&& d.last() != '/'
    &&& forall|i: int| 0 <= i < d.len() ==> #[trigger] d[i] != '\\' && d[i] != ':'
    &&& forall|i: int| 0 <= i < d.len() && #[trigger] d[i] == '/' ==> i + 1 < d.len() && d[i + 1]
        != '/' && !dot_component_at(d, i + 1)
}

/// `Path::new(p).parent()`: when there is a parent, it is a proper prefix of `p`. The root
/// `/` has none; the parent of `/name` is `/`, and that of `d/name` is `d` for a plain
/// absolute directory `d` and a normal name.
#[verifier::external_body]
pub fn path_parent(p: &str) -> (r: Option<String>)
    ensures
        r matches Some(q) ==> q@.len() < p@.len() && p@.take(q@.len() as int) == q@,
        p@ == seq!['/'] ==> r is None,
        (p@.len() >= 2 && p@[0] == '/' && normal_name(p@.skip(1))) ==> crate::text::opt_view(r)
            == Some(seq!['/']),
        parent_of_plain(p@, r),
{
    std::path::Path::new(p).parent().map(|q| q.to_string_lossy().into_owned())
}

/// Wherever `p` is a plain absolute directory `d`, `/`, and a normal name, `r` is `d`.
pub open spec fn parent_of_plain(p: Seq<char>, r: Option<String>) -> bool {
    forall|k: int|
        0 < k < p.len() && #[trigger] p[k] == '/' && plain_abs_dir(p.take(k)) && normal_name(
            p.skip(k + 1),
        ) ==> (r matches Some(q) && q@ == p.take(k))
}

/// `Path::new(p).is_file()`: whether a regular file exists at `p` right now.
#[verifier::external_body]
pub fn path_is_file(p: &str) -> (r: bool) {
    std::path::Path::new(p).is_file()
}

/// `Path::new(p).exists()`: whether anything exists at `p` right now.
#[verifier::external_body]
pub fn path_exists(p: &str) -> (r: bool) {
    std::path::Path::new(p).exists()
}

/// `path.parent().unwrap_or(path).join(name)`: `name` placed beside `path`'s last component.
/// Beside `/name` is `/` joined with `name`, beside `d/name` is `d` joined with `name` (for
/// a plain absolute directory `d`), and `/` has no parent, so `name` goes into it.
pub fn sibling_path(path: &str, name: &str) -> (r: String)
    requires
        plain_name(name@),
    ensures
        exists|d: Seq<char>|
            (d == path@ || (d.len() < path@.len() && path@.take(d.len() as int) == d)) && joined(
                r@,
                d,
                name@,
            ),
        path@ == seq!['/'] ==> r@ == seq!['/'] + name@,
        (path@.len() >= 2 && path@[0] == '/' && normal_name(path@.skip(1))) ==> r@ == seq!['/']
            + name@,
        forall|k: int|
            0 < k < path@.len() && #[trigger] path@[k] == '/' && plain_abs_dir(path@.take(k))
                && normal_name(path@.skip(k + 1)) ==> joined(r@, path@.take(k), name@),
{
    match path_parent(path) {
        Some(p) => {
            let r = path_join(p.as_str(), name);
            proof {
                if path@.len() >= 2 && path@[0] == '/' && normal_name(path@.skip(1)) {
                    assert(p@ == seq!['/']);
                    let sep = choose|sep: Seq<char>| sep_for(p@, sep) && r@ == p@ + sep + name@;
                    assert(sep.len() == 0);
                    assert(r@ =~= seq!['/'] + name@);
                }
                assert forall|k: int|
                    0 < k < path@.len() && #[trigger] path@[k] == '/' && plain_abs_dir(
                        path@.take(k),
                    ) && normal_name(path@.skip(k + 1)) implies joined(r@, path@.take(k), name@) by {
                    assert(p@ == path@.take(k));
                }
            }
            r
        },
        None => {
            let r = path_join(path, name);
            proof {
                if path@ == seq!['/'] {
                    assert(!verbatim(path@));
                    let sep = choose|sep: Seq<char>| sep_for(path@, sep) && r@ == path@ + sep + name@;
                    assert(sep.len() == 0);
                    assert(r@ =~= seq!['/'] + name@);
                }
            }
            r
        },
    }
}

/// Index of the last `.` in `s`, if any.
pub open spec fn last_dot(s: Seq<char>) -> Option<int>
    decreases s.len(),
{
    if s.len() == 0 {
        None
    } else if s.last() == '.' {
        Some(s.len() - 1)
    } else {
        last_dot(s.drop_last())
    }
}

/// `(file_stem, extension)` of a file name, by the rules of `Path::file_stem` and
/// `Path::extension`: `..` and names without a dot (or whose only dot leads) have no
/// extension; otherwise the name splits at its last dot.
pub open spec fn stem_ext(name: Seq<char>) -> (Seq<char>, Option<Seq<char>>) {
    if name == ".."@ {
        (name, None)
    } else {
        match last_dot(name) {
            None => (name, None),
            Some(i) => if i == 0 {
                (name, None)
            } else {
                (name.take(i), Some(name.skip(i + 1)))
            },
        }
    }
}

/// Position of the last `.` of a character vector.
pub fn last_dot_exec(s: &Vec<char>) -> (r: Option<usize>)
    ensures
        r is None <==> last_dot(s@) is None,
        r matches Some(i) ==> last_dot(s@) == Some(i as int) && i < s@.len() && s@[i as int]
            == '.',
{
    let mut k = s.len();
    assert(s@.take(s@.len() as int) =~= s@);
    while k > 0 && s[k - 1] != '.'
        invariant
            k <= s@.len(),
            last_dot(s@) == last_dot(s@.take(k as int)),
        decreases k,
    {
        assert(s@.take(k as int).drop_last() =~= s@.take(k - 1));
        k = k - 1;
    }
    assert(s@.take(s@.len() as int) =~= s@);
    if k == 0 {
        assert(s@.take(0) =~= Seq::<char>::empty());
        None
    } else {
        assert(s@.take(k as int).last() == s@[k - 1]);
        Some(k - 1)
    }
}

/// `Path::file_stem` and `Path::extension` of a file name.
pub fn split_stem_ext(name: &str) -> (r: (String, Option<String>))
    ensures
        r.0@ == stem_ext(name@).0,
        match stem_ext(name@).1 {
            None => r.1 is None,
            Some(e) => r.1 matches Some(x) && x@ == e,
        },
{
    let v = crate::text::chars_of(name);
    let dd = crate::text::chars_of("..");
    proof {
        reveal_strlit("..");
    }
    let whole = crate::text::string_of(&v);
    if crate::decimal::eq_chars(&v, &dd) {
        return (whole, None);
    }
    assert(name@ != ".."@);
    let ld = last_dot_exec(&v);
    match ld {
        None => {
            assert(last_dot(name@) is None);
            assert(stem_ext(name@) == (name@, None::<Seq<char>>));
            (whole, None)
        },
        Some(i) => {
            assert(last_dot(name@) == Some(i as int));
            if i == 0 {
                assert(stem_ext(name@) == (name@, None::<Seq<char>>));
                (whole, None)
            } else {
                let stem = crate::text::string_of_range(&v, 0, i);
                let ext = crate::text::string_of_range(&v, i + 1, v.len());
                assert(v@.subrange(0, i as int) =~= v@.take(i as int));
                assert(v@.subrange(i + 1, v@.len() as int) =~= v@.skip(i + 1));
                (stem, Some(ext))
            }
        },
    }
}

} // verus!
