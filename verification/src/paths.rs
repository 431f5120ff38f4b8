//! File paths as `/`-separated strings: joining, file names, stems and extensions.
use vstd::prelude::*;
use crate::text::{extend_chars, split_chars, split_on, string_from, chars_of};

verus! {

pub open spec fn is_dot(c: Seq<char>) -> bool {
    c == seq!['.']
}

pub open spec fn is_dot_dot(c: Seq<char>) -> bool {
    c == seq!['.', '.']
}

/// Scanning `parts[..n]` from the back past empty and `.` pieces, the last component.
pub open spec fn last_component(parts: Seq<Seq<char>>, n: int) -> Option<Seq<char>>
    decreases n,
{
    if n <= 0 || n > parts.len() {
        None
    } else if parts[n - 1].len() == 0 || is_dot(parts[n - 1]) {
        last_component(parts, n - 1)
    } else {
        Some(parts[n - 1])
    }
}

/// The final component of `p` unless that is `..` (`Path::file_name`).
pub open spec fn file_name(p: Seq<char>) -> Option<Seq<char>> {
    match last_component(split_on(p, '/'), split_on(p, '/').len() as int) {
        Some(c) => if is_dot_dot(c) {
            None
        } else {
            Some(c)
        },
        None => None,
    }
}

/// Position of the last `.` in `f`, if any.
pub open spec fn last_dot(f: Seq<char>, n: int) -> Option<int>
    decreases n,
{
    if n <= 0 || n > f.len() {
        None
    } else if f[n - 1] == '.' {
        Some(n - 1)
    } else {
        last_dot(f, n - 1)
    }
}

/// Splits a file name at its last dot, unless the name is `..` or the dot is the first
/// character: (stem, extension).
pub open spec fn split_extension(f: Seq<char>) -> (Seq<char>, Option<Seq<char>>) {
    if is_dot_dot(f) {
        (f, None)
    } else {
        match last_dot(f, f.len() as int) {
            Some(d) => if d == 0 {
                (f, None)
            } else {
                (f.take(d), Some(f.skip(d + 1)))
            },
            None => (f, None),
        }
    }
}

/// `Path::extension`.
pub open spec fn extension(p: Seq<char>) -> Option<Seq<char>> {
    match file_name(p) {
        Some(f) => split_extension(f).1,
        None => None,
    }
}

/// `Path::file_stem`.
pub open spec fn file_stem(p: Seq<char>) -> Option<Seq<char>> {
    match file_name(p) {
        Some(f) => Some(split_extension(f).0),
        None => None,
    }
}

/// `Path::join` on `/`-separated paths: an absolute `rel` replaces `base`, otherwise one
/// separator is put between them when `base` does not end with one.
pub open spec fn join(base: Seq<char>, rel: Seq<char>) -> Seq<char> {
    if rel.len() > 0 && rel[0] == '/' {
        rel
    } else if base.len() == 0 || base.last() == '/' {
        base + rel
    } else {
        base.push('/') + rel
    }
}

pub fn join_chars(base: &[char], rel: &[char]) -> (r: Vec<char>)
    ensures
        r@ == join(base@, rel@),
{
    let mut r: Vec<char> = Vec::new();
    if rel.len() > 0 && rel[0] == '/' {
        extend_chars(&mut r, rel);
        assert(r@ == rel@);
        return r;
    }
    extend_chars(&mut r, base);
    if base.len() > 0 && base[base.len() - 1] != '/' {
        r.push('/');
    }
    extend_chars(&mut r, rel);
    r
}

/// `base` joined with `rel`, as a string.
pub fn join_path(base: &str, rel: &str) -> (r: String)
    ensures
        r@ == join(base@, rel@),
{
    let b = chars_of(base);
    let c = chars_of(rel);
    let j = join_chars(b.as_slice(), c.as_slice());
    string_from(j.as_slice())
}

pub fn file_name_chars(p: &[char]) -> (r: Option<Vec<char>>)
    ensures
        r matches Some(v) ==> file_name(p@) == Some(v@),
        r is None ==> file_name(p@) is None,
{
    let parts = split_chars(p, '/');
    let ghost sp = split_on(p@, '/');
    let mut n = parts.len();
    while n > 0
        invariant
            n <= parts@.len(),
            sp == split_on(p@, '/'),
            parts@.len() == sp.len(),
            forall|k: int| 0 <= k < parts@.len() ==> (#[trigger] parts@[k])@ == sp[k],
            last_component(sp, sp.len() as int) == last_component(sp, n as int),
        decreases n,
    {
        let c = &parts[n - 1];
        assert(parts@[n - 1]@ == sp[n - 1]);
        if c.len() == 0 || (c.len() == 1 && c[0] == '.') {
            assert(c.len() == 1 && c[0] == '.' ==> c@ =~= seq!['.']);
            n = n - 1;
        } else {
            assert(c@ != seq!['.']) by {
                if c@ == seq!['.'] {
                    assert(c@.len() == 1);
                }
            }
            let is_parent = c.len() == 2 && c[0] == '.' && c[1] == '.';
            assert(is_parent == is_dot_dot(c@)) by {
                if is_parent {
                    assert(c@ =~= seq!['.', '.']);
                }
                if c@ == seq!['.', '.'] {
                    assert(c@.len() == 2);
                }
            }
            if is_parent {
                return None;
            }
            let mut out: Vec<char> = Vec::new();
            extend_chars(&mut out, c.as_slice());
            assert(out@ == c@);
            return Some(out);
        }
    }
    None
}

fn last_dot_index(f: &[char]) -> (r: Option<usize>)
    ensures
        r matches Some(d) ==> last_dot(f@, f@.len() as int) == Some(d as int) && d < f.len(),
        r is None ==> last_dot(f@, f@.len() as int) is None,
{
    let mut n = f.len();
    while n > 0
        invariant
            n <= f.len(),
            last_dot(f@, f@.len() as int) == last_dot(f@, n as int),
        decreases n,
    {
        if f[n - 1] == '.' {
            return Some(n - 1);
        }
        n = n - 1;
    }
    None
}

/// (stem, extension) of a file name.
pub fn split_extension_chars(f: &[char]) -> (r: (Vec<char>, Option<Vec<char>>))
    ensures
        r.0@ == split_extension(f@).0,
        r.1 matches Some(e) ==> split_extension(f@).1 == Some(e@),
        r.1 is None ==> split_extension(f@).1 is None,
{
    let mut whole: Vec<char> = Vec::new();
    extend_chars(&mut whole, f);
    assert(whole@ == f@);
    if f.len() == 2 && f[0] == '.' && f[1] == '.' {
        assert(f@ =~= seq!['.', '.']);
        return (whole, None);
    }
    assert(!is_dot_dot(f@)) by {
        if f@ == seq!['.', '.'] {
            assert(f@.len() == 2);
        }
    }
    match last_dot_index(f) {
        Some(d) => {
            if d == 0 {
                (whole, None)
            } else {
                let mut stem: Vec<char> = Vec::new();
                let mut ext: Vec<char> = Vec::new();
                let mut i: usize = 0;
                while i < d
                    invariant
                        i <= d < f.len(),
                        stem@ == f@.take(i as int),
                    decreases d - i,
                {
                    stem.push(f[i]);
                    i = i + 1;
                    assert(f@.take(i as int) == f@.take(i - 1).push(f@[i - 1]));
                }
                let mut j: usize = d + 1;
                while j < f.len()
                    invariant
                        d + 1 <= j <= f.len(),
                        ext@ == f@.subrange(d + 1, j as int),
                    decreases f.len() - j,
                {
                    ext.push(f[j]);
                    j = j + 1;
                    assert(f@.subrange(d + 1, j as int) == f@.subrange(d + 1, j - 1).push(f@[j - 1]));
                }
                assert(f@.skip(d + 1) == f@.subrange(d + 1, f@.len() as int));
                (stem, Some(ext))
            }
        },
        None => (whole, None),
    }
}

pub fn extension_chars(p: &[char]) -> (r: Option<Vec<char>>)
    ensures
        r matches Some(v) ==> extension(p@) == Some(v@),
        r is None ==> extension(p@) is None,
{
    match file_name_chars(p) {
        Some(f) => split_extension_chars(f.as_slice()).1,
        None => None,
    }
}

pub fn file_stem_chars(p: &[char]) -> (r: Option<Vec<char>>)
    ensures
        r matches Some(v) ==> file_stem(p@) == Some(v@),
        r is None ==> file_stem(p@) is None,
{
    match file_name_chars(p) {
        Some(f) => Some(split_extension_chars(f.as_slice()).0),
        None => None,
    }
}

} // verus!
