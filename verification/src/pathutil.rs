//! The library's model of file paths: text with `/` between components,
//! read as `std::path::Path` reads it. Trailing separators and trailing `.`
//! components do not count. A path's file name is its last component (none
//! when that is empty, `.` or `..`); its extension is what follows the last
//! `.` of the file name, unless that dot opens the name; its parent is what
//! precedes its last component, read the same way. Joining puts one `/`
//! between a non-empty base and a relative name, and an absolute name
//! replaces the base.

use vstd::prelude::*;
use crate::textutil::{find_last, last_index_of, lemma_last_index_of, push_all, slice_chars};

verus! {

/// `path` without trailing separators and trailing `.` components; the
/// root `/` stays.
pub open spec fn trim_tail(path: Seq<char>) -> Seq<char>
    decreases path.len(),
{
    if path.len() > 1 && (path.last() == '/' || (path.last() == '.' && path[path.len() - 2] == '/')) {
        trim_tail(path.drop_last())
    } else {
        path
    }
}

/// The final component of `path`, when it is a name.
pub open spec fn file_name_of(path: Seq<char>) -> Option<Seq<char>> {
    let t = trim_tail(path);
    let name = t.subrange(last_index_of(t, '/') + 1, t.len() as int);
    if name.len() == 0 || name == seq!['.'] || name == seq!['.', '.'] {
        None
    } else {
        Some(name)
    }
}

/// A file name split at its last dot: the stem, and the extension when the
/// dot does not open the name.
pub open spec fn split_extension(name: Seq<char>) -> (Seq<char>, Option<Seq<char>>) {
    let d = last_index_of(name, '.');
    if d <= 0 {
        (name, None)
    } else {
        (name.subrange(0, d), Some(name.subrange(d + 1, name.len() as int)))
    }
}

/// The extension of the file name of `path`.
pub open spec fn extension_of(path: Seq<char>) -> Option<Seq<char>> {
    match file_name_of(path) {
        Some(name) => split_extension(name).1,
        None => None,
    }
}

/// The file name of `path` without its extension.
pub open spec fn stem_of(path: Seq<char>) -> Option<Seq<char>> {
    match file_name_of(path) {
        Some(name) => Some(split_extension(name).0),
        None => None,
    }
}

/// The directory that holds `path`: `None` for the empty path and for `/`,
/// the empty path for a single relative component.
pub open spec fn parent_of(path: Seq<char>) -> Option<Seq<char>> {
    let t = trim_tail(path);
    if t.len() == 0 || t == seq!['/'] {
        None
    } else {
        Some(trim_tail(t.subrange(0, last_index_of(t, '/') + 1)))
    }
}

/// `name` appended to `base`, with one `/` between them where needed.
pub open spec fn join_path(base: Seq<char>, name: Seq<char>) -> Seq<char> {
    if name.len() > 0 && name[0] == '/' {
        name
    } else if base.len() == 0 {
        name
    } else if base.last() == '/' {
        base + name
    } else {
        base + seq!['/'] + name
    }
}

/// Computes `trim_tail`.
pub fn trim_tail_chars(path: &Vec<char>) -> (r: Vec<char>)
    ensures
        r@ == trim_tail(path@),
{
    let mut n: usize = path.len();
    assert(path@.subrange(0, n as int) =~= path@);
    while n > 1 && (path[n - 1] == '/' || (path[n - 1] == '.' && path[n - 2] == '/'))
        invariant
            n <= path.len(),
            trim_tail(path@.subrange(0, n as int)) == trim_tail(path@),
        decreases n,
    {
        proof {
            let q = path@.subrange(0, n as int);
            assert(q.last() == path@[n - 1]);
            assert(q[q.len() - 2] == path@[n - 2]);
            assert(q.drop_last() =~= path@.subrange(0, n - 1));
        }
        n = n - 1;
    }
    proof {
        let q = path@.subrange(0, n as int);
        if n > 1 {
            assert(q.last() == path@[n - 1]);
            assert(q[q.len() - 2] == path@[n - 2]);
        }
        if n == path.len() {
            assert(q =~= path@);
        }
    }
    slice_chars(path, 0, n)
}

/// Computes `file_name_of`.
pub fn file_name_chars(path: &Vec<char>) -> (r: Option<Vec<char>>)
    ensures
        match r {
            Some(name) => file_name_of(path@) == Some(name@),
            None => file_name_of(path@) is None,
        },
{
    let t = trim_tail_chars(path);
    let start = match find_last(&t, '/') {
        Some(i) => i + 1,
        None => 0,
    };
    proof {
        lemma_last_index_of(t@, '/');
    }
    let name = slice_chars(&t, start, t.len());
    let n = name.len();
    if n == 0 || (n == 1 && name[0] == '.') || (n == 2 && name[0] == '.' && name[1] == '.') {
        proof {
            if n == 1 {
                assert(name@ =~= seq!['.']);
            }
            if n == 2 {
                assert(name@ =~= seq!['.', '.']);
            }
        }
        None
    } else {
        proof {
            if name@ == seq!['.'] {
                assert(name@[0] == '.');
            }
            if name@ == seq!['.', '.'] {
                assert(name@[0] == '.' && name@[1] == '.');
            }
        }
        Some(name)
    }
}

/// Computes `split_extension`.
pub fn split_extension_chars(name: &Vec<char>) -> (r: (Vec<char>, Option<Vec<char>>))
    ensures
        r.0@ == split_extension(name@).0,
        match r.1 {
            Some(e) => split_extension(name@).1 == Some(e@),
            None => split_extension(name@).1 is None,
        },
{
    proof {
        lemma_last_index_of(name@, '.');
    }
    match find_last(name, '.') {
        Some(d) => {
            if d == 0 {
                (slice_chars(name, 0, name.len()), None)
            } else {
                (slice_chars(name, 0, d), Some(slice_chars(name, d + 1, name.len())))
            }
        },
        None => (slice_chars(name, 0, name.len()), None),
    }
}

/// Computes `extension_of`.
pub fn extension_chars(path: &Vec<char>) -> (r: Option<Vec<char>>)
    ensures
        match r {
            Some(e) => extension_of(path@) == Some(e@),
            None => extension_of(path@) is None,
        },
{
    match file_name_chars(path) {
        Some(name) => split_extension_chars(&name).1,
        None => None,
    }
}

/// Computes `stem_of`.
pub fn stem_chars(path: &Vec<char>) -> (r: Option<Vec<char>>)
    ensures
        match r {
            Some(s) => stem_of(path@) == Some(s@),
            None => stem_of(path@) is None,
        },
{
    match file_name_chars(path) {
        Some(name) => Some(split_extension_chars(&name).0),
        None => None,
    }
}

/// Computes `parent_of`.
pub fn parent_chars(path: &Vec<char>) -> (r: Option<Vec<char>>)
    ensures
        match r {
            Some(p) => parent_of(path@) == Some(p@),
            None => parent_of(path@) is None,
        },
{
    let t = trim_tail_chars(path);
    if t.len() == 0 || (t.len() == 1 && t[0] == '/') {
        proof {
            if t.len() == 1 {
                assert(t@ =~= seq!['/']);
            }
        }
        return None;
    }
    proof {
        lemma_last_index_of(t@, '/');
        if t@ == seq!['/'] {
            assert(t@[0] == '/');
        }
    }
    let end = match find_last(&t, '/') {
        Some(i) => i + 1,
        None => 0,
    };
    let base = slice_chars(&t, 0, end);
    Some(trim_tail_chars(&base))
}

/// Computes `join_path`.
pub fn join_chars(base: &Vec<char>, name: &Vec<char>) -> (r: Vec<char>)
    ensures
        r@ == join_path(base@, name@),
{
    if name.len() > 0 && name[0] == '/' {
        return slice_chars(name, 0, name.len());
    }
    let mut out = slice_chars(base, 0, base.len());
    if base.len() > 0 && base[base.len() - 1] != '/' {
        out.push('/');
    }
    push_all(&mut out, name);
    proof {
        if base.len() > 0 {
            assert(base@.last() == base@[base.len() - 1]);
        }
    }
    out
}

} // verus!
