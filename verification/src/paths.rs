//! Where the cache lives, and whether the data folder is the portable one.

use vstd::prelude::*;
use crate::ext::opt_text;
use crate::text::{ascii_lower, chars_of};

verus! {

/// A path that the Unix and the Windows rules of `std::path` read alike: it
/// holds no `\\` and no `:` (so no Windows prefix or second separator) and
/// does not start with two `/` (which Windows reads as a network share).
pub open spec fn plain_path(p: Seq<char>) -> bool {
    &&& !p.contains('\\')
    &&& !p.contains(':')
    &&& !(p.len() >= 2 && p[0] == '/' && p[1] == '/')
}

/// A relative file name that both rules read alike.
pub open spec fn plain_name(n: Seq<char>) -> bool {
    plain_path(n) && n.len() > 0 && n[0] != '/'
}

/// `Path::join` of a relative file name onto a directory, with `sep` the
/// platform's separator: the name alone onto an empty path, else `sep`
/// between them unless the directory already ends with `/`.
pub open spec fn joined(dir: Seq<char>, name: Seq<char>, sep: char) -> Seq<char> {
    if dir.len() == 0 {
        name
    } else if dir.last() == '/' {
        dir + name
    } else {
        dir + seq![sep] + name
    }
}

/// The path of the cache database in a data folder. Where the folder's path
/// reads alike on every platform, the name is joined with the platform's
/// separator (`/` on Unix, `\\` on Windows).
pub fn db_path(data_dir: &str) -> (r: String)
    ensures
        plain_path(data_dir@) ==> (r@ == joined(data_dir@, "cache.sqlite3"@, '/') || r@ == joined(
            data_dir@,
            "cache.sqlite3"@,
            '\\',
        )),
{
    proof {
        reveal_strlit("cache.sqlite3");
        assert("cache.sqlite3"@[0] == 'c');
    }
    crate::ext::path_join(data_dir, "cache.sqlite3")
}

/// The components of `p[..j]` that `Path::components` yields as names or
/// `..`, last one first: `/`-separated pieces other than empty ones and `.`.
pub open spec fn last_component(p: Seq<char>, j: int) -> Option<Seq<char>>
    decreases j,
{
    if j <= 0 || j > p.len() {
        None
    } else {
        let i = crate::text::back_while(p, j, crate::text::not_in(seq!['/']));
        proof {
            crate::text::lemma_back_while_bounds(p, j, crate::text::not_in(seq!['/']));
        }
        let piece = p.subrange(i, j);
        if piece.len() == 0 || piece == seq!['.'] {
            if i == 0 {
                None
            } else {
                last_component(p, i - 1)
            }
        } else {
            Some(piece)
        }
    }
}

/// `Path::file_name` on a plain path: the last component where it is a name, `None`
/// where the path ends in `..` or has no component.
pub open spec fn file_name(p: Seq<char>) -> Option<Seq<char>> {
    match last_component(p, p.len() as int) {
        Some(c) => if c == seq!['.', '.'] {
            None
        } else {
            Some(c)
        },
        None => None,
    }
}

/// `str::eq_ignore_ascii_case`.
pub open spec fn eq_ignore_ascii_case(a: Seq<char>, b: Seq<char>) -> bool {
    a.len() == b.len() && forall|i: int| 0 <= i < a.len() ==> ascii_lower(#[trigger] a[i]) == ascii_lower(b[i])
}

/// The data folder is the portable one where it is named `data` (any ASCII case).
pub open spec fn portable_dir(p: Seq<char>) -> bool {
    file_name(p) matches Some(n) && eq_ignore_ascii_case(n, "data"@)
}

fn ascii_lower_char(c: char) -> (r: char)
    ensures
        r == ascii_lower(c),
{
    if 'A' <= c && c <= 'Z' {
        ((c as u32) + 32) as u8 as char
    } else {
        c
    }
}

/// Whether a folder name is `data` in any ASCII case (`None`: no name).
pub fn is_data_folder_name(name: Option<String>) -> (r: bool)
    ensures
        r == (opt_text(name) matches Some(n) && eq_ignore_ascii_case(n, "data"@)),
{
    match &name {
        None => false,
        Some(n) => {
            let v = chars_of(n.as_str());
            let d = chars_of("data");
            if v.len() != d.len() {
                return false;
            }
            let mut i: usize = 0;
            while i < v.len()
                invariant
                    i <= v.len(),
                    v.len() == d.len(),
                    d@ == "data"@,
                    v@ == n@,
                    opt_text(name) == Some(v@),
                    forall|k: int| 0 <= k < i ==> ascii_lower(#[trigger] v@[k]) == ascii_lower(d@[k]),
                decreases v.len() - i,
            {
                if ascii_lower_char(v[i]) != ascii_lower_char(d[i]) {
                    assert(!eq_ignore_ascii_case(n@, "data"@));
                    return false;
                }
                i = i + 1;
            }
            true
        },
    }
}

/// Whether a data folder is the portable one: its last component, as
/// `Path::file_name` reads it on the running platform, is `data` in any
/// ASCII case. Where the path reads alike on every platform, that is
/// `portable_dir`.
pub fn is_portable_dir(data_dir: &str) -> (r: bool)
    ensures
        plain_path(data_dir@) ==> r == portable_dir(data_dir@),
{
    is_data_folder_name(crate::ext::path_file_name(data_dir))
}

} // verus!
