//! Pure path mapping: re-rooting a content-tree path under the output tree
//! and rewriting its extension. Paths are plain strings whose segments are
//! separated by `'/'`.

use vstd::prelude::*;

use crate::text::{
    find_char, find_first, find_last, lemma_find_first, lemma_find_first_is, lemma_find_last,
    rfind_char, str_eq,
};

verus! {

/// `s` with its leading run of separators removed.
pub open spec fn skip_slashes(s: Seq<char>) -> Seq<char>
    decreases s.len(),
{
    if s.len() > 0 && s[0] == '/' {
        skip_slashes(s.drop_first())
    } else {
        s
    }
}

pub proof fn lemma_skip_slashes_is(t: Seq<char>, k: int)
    requires
        0 <= k <= t.len(),
        forall|m: int| 0 <= m < k ==> t[m] == '/',
        k == t.len() || t[k] != '/',
    ensures
        skip_slashes(t) == t.subrange(k, t.len() as int),
    decreases k,
{
    if k == 0 {
        assert(t.subrange(0, t.len() as int) =~= t);
    } else {
        assert(t[0] == '/');
        let u = t.drop_first();
        assert(forall|m: int| 0 <= m < k - 1 ==> u[m] == t[m + 1]);
        if k - 1 < u.len() {
            assert(u[k - 1] == t[k]);
        }
        lemma_skip_slashes_is(u, k - 1);
        assert(u.subrange(k - 1, u.len() as int) =~= t.subrange(k, t.len() as int));
    }
}

proof fn lemma_skip_slashes_head(t: Seq<char>)
    ensures
        skip_slashes(t).len() == 0 || skip_slashes(t)[0] != '/',
    decreases t.len(),
{
    if t.len() > 0 && t[0] == '/' {
        lemma_skip_slashes_head(t.drop_first());
    }
}

/// `s` with its leading segment (the top-level content-tree directory, or
/// an absolute path's root) removed: everything up to and through the
/// first run of separators goes. A path without a parent segment is left
/// as it is, so the result never begins with a separator.
pub open spec fn strip_first_segment(s: Seq<char>) -> Seq<char> {
    match find_first(s, '/') {
        None => s,
        Some(i) => skip_slashes(s.subrange(i + 1, s.len() as int)),
    }
}

/// The index at which the file name of `s` begins: right after the last
/// `'/'`, or 0 when there is none.
pub open spec fn file_name_start(s: Seq<char>) -> int {
    match find_last(s, '/') {
        None => 0,
        Some(i) => i + 1,
    }
}

/// The extension of `s`: what follows the last dot of its file name, when
/// that dot stands strictly after the name's first character (so a name
/// that is nothing but `.something` has no extension).
pub open spec fn extension_of(s: Seq<char>) -> Option<Seq<char>> {
    match find_last(s, '.') {
        Some(d) => if d > file_name_start(s) {
            Some(s.subrange(d + 1, s.len() as int))
        } else {
            None
        },
        None => None,
    }
}

/// `s` with its extension replaced by `.ext`, or extended with `.ext` when
/// it has none.
pub open spec fn with_extension(s: Seq<char>, ext: Seq<char>) -> Seq<char> {
    let stem_end = match find_last(s, '.') {
        Some(d) => if d > file_name_start(s) {
            d
        } else {
            s.len() as int
        },
        None => s.len() as int,
    };
    s.subrange(0, stem_end) + seq!['.'] + ext
}

/// Where a source path lands relative to the output tree: its leading
/// segment is stripped and, when a new extension is given, the extension
/// is rewritten.
pub open spec fn map_destination(s: Seq<char>, new_ext: Option<Seq<char>>) -> Seq<char> {
    let stripped = strip_first_segment(s);
    match new_ext {
        None => stripped,
        Some(e) => with_extension(stripped, e),
    }
}

/// `rel` under the directory `base`.
pub open spec fn join_spec(base: Seq<char>, rel: Seq<char>) -> Seq<char> {
    base + seq!['/'] + rel
}

/// Whether the path names a markdown source: its extension is exactly `md`.
pub open spec fn is_markdown(s: Seq<char>) -> bool {
    extension_of(s) == Some("md"@)
}

/// Law (path mapping): for any relative path made of a first segment
/// holding no `'/'`, a `'/'`, and a rest that does not begin with a
/// separator, the mapped destination strips exactly that first segment
/// and, when a new extension is given, rewrites the extension of what
/// remains.
pub proof fn lemma_map_destination_strips_first(first: Seq<char>, rest: Seq<char>, new_ext: Option<
    Seq<char>,
>)
    requires
        find_first(first, '/') is None,
        rest.len() == 0 || rest[0] != '/',
    ensures
        strip_first_segment(first + seq!['/'] + rest) == rest,
        map_destination(first + seq!['/'] + rest, new_ext) == (match new_ext {
            None => rest,
            Some(e) => with_extension(rest, e),
        }),
{
    let s = first + seq!['/'] + rest;
    lemma_find_first(first, '/');
    assert(forall|j: int| 0 <= j < first.len() ==> s[j] == first[j]);
    lemma_find_first_is(s, '/', first.len() as int);
    assert(s.subrange(first.len() as int + 1, s.len() as int) =~= rest);
    lemma_skip_slashes_is(rest, 0);
    assert(rest.subrange(0, rest.len() as int) =~= rest);
}

/// Law (relative output): whatever path comes in, the mapped destination
/// never begins with a separator: a leading root is stripped along with
/// the first segment, and an empty segment never leaves an absolute path
/// behind.
pub proof fn lemma_map_destination_relative(s: Seq<char>, new_ext: Option<Seq<char>>)
    ensures
        ({
            let r = map_destination(s, new_ext);
            r.len() > 0 ==> r[0] != '/'
        }),
{
    let stripped = strip_first_segment(s);
    lemma_find_first(s, '/');
    match find_first(s, '/') {
        None => {},
        Some(i) => {
            lemma_skip_slashes_head(s.subrange(i + 1, s.len() as int));
        },
    }
    assert(stripped.len() > 0 ==> stripped[0] != '/');
    match new_ext {
        None => {},
        Some(e) => {
            lemma_find_last(stripped, '.');
            let stem_end = match find_last(stripped, '.') {
                Some(d) => if d > file_name_start(stripped) {
                    d
                } else {
                    stripped.len() as int
                },
                None => stripped.len() as int,
            };
            let r = with_extension(stripped, e);
            if stem_end > 0 {
                assert(r[0] == stripped[0]);
            } else {
                assert(r[0] == '.');
            }
        },
    }
}

/// The executable path mapper: removes the leading path segment and, when
/// `maybe_ext` is given, rewrites the file extension.
pub fn pop_parent_replace_ext(path: &str, maybe_ext: Option<&str>) -> (r: String)
    ensures
        r@ == map_destination(
            path@,
            match maybe_ext {
                Some(e) => Some(e@),
                None => None,
            },
        ),
        r@.len() > 0 ==> r@[0] != '/',
{
    let n = path.unicode_len();
    let stripped: &str = match find_char(path, '/') {
        Some(i) => {
            proof {
                lemma_find_first(path@, '/');
            }
            let mut j = i + 1;
            while j < n && path.get_char(j) == '/'
                invariant
                    i as int + 1 <= j <= n,
                    n as nat == path@.len(),
                    i < n,
                    find_first(path@, '/') == Some(i as int),
                    forall|m: int| i + 1 <= m < j ==> path@[m] == '/',
                decreases n - j,
            {
                j += 1;
            }
            proof {
                let t = path@.subrange(i as int + 1, n as int);
                assert(forall|m: int| 0 <= m < j - i - 1 ==> t[m] == path@[m + i + 1]);
                lemma_skip_slashes_is(t, j - i - 1);
                assert(t.subrange(j - i - 1, t.len() as int) =~= path@.subrange(
                    j as int,
                    n as int,
                ));
            }
            path.substring_char(j, n)
        },
        None => path,
    };
    let out = match maybe_ext {
        None => stripped.to_owned(),
        Some(e) => set_extension(stripped, e),
    };
    proof {
        lemma_map_destination_relative(
            path@,
            match maybe_ext {
                Some(e) => Some(e@),
                None => None,
            },
        );
    }
    out
}

/// `s` with its extension replaced by (or extended with) `.ext`.
pub fn set_extension(s: &str, ext: &str) -> (r: String)
    ensures
        r@ == with_extension(s@, ext@),
{
    let n = s.unicode_len();
    proof {
        lemma_find_last(s@, '/');
        lemma_find_last(s@, '.');
    }
    let name_start: usize = match rfind_char(s, '/') {
        Some(i) => i + 1,
        None => 0,
    };
    let stem_end: usize = match rfind_char(s, '.') {
        Some(d) => if d > name_start {
            d
        } else {
            n
        },
        None => n,
    };
    let mut out = s.substring_char(0, stem_end).to_owned();
    out.append(".");
    out.append(ext);
    proof {
        reveal_strlit(".");
        assert("."@ =~= seq!['.']);
        assert(out@ =~= with_extension(s@, ext@));
    }
    out
}

/// `rel` under the directory `base`, separated by one `'/'`.
pub fn join_path(base: &str, rel: &str) -> (r: String)
    ensures
        r@ == join_spec(base@, rel@),
{
    let mut out = base.to_owned();
    out.append("/");
    out.append(rel);
    proof {
        reveal_strlit("/");
        assert("/"@ =~= seq!['/']);
        assert(out@ =~= join_spec(base@, rel@));
    }
    out
}

/// Whether the path's extension marks it as a markdown source.
pub fn has_markdown_extension(path: &str) -> (r: bool)
    ensures
        r == is_markdown(path@),
{
    let n = path.unicode_len();
    proof {
        lemma_find_last(path@, '/');
        lemma_find_last(path@, '.');
    }
    let name_start: usize = match rfind_char(path, '/') {
        Some(i) => i + 1,
        None => 0,
    };
    match rfind_char(path, '.') {
        Some(d) => {
            if d > name_start {
                let ext = path.substring_char(d + 1, n);
                str_eq(ext, "md")
            } else {
                false
            }
        },
        None => false,
    }
}

} // verus!
