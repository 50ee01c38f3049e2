//! Path strings, modelled as character sequences: the final component after
//! the last slash, its extension after the last dot, and its stem. A dot that
//! begins the final component (as in `".profile"`) starts no extension.

use vstd::prelude::*;

use crate::text::{last_occ, lemma_last_occ_found, lemma_last_occ_none};

verus! {

/// Index where the final path component begins: just after the last `'/'`,
/// or 0 when the path has none.
pub open spec fn file_part_start(s: Seq<char>) -> int {
    last_occ(s, '/') + 1
}

/// The final path component.
pub open spec fn file_part(s: Seq<char>) -> Seq<char> {
    s.subrange(file_part_start(s), s.len() as int)
}

/// The extension: the characters of the final component after its last dot,
/// provided that dot is not the component's first character.
pub open spec fn extension_of(s: Seq<char>) -> Option<Seq<char>> {
    let f = file_part(s);
    let d = last_occ(f, '.');
    if d > 0 {
        Some(f.subrange(d + 1, f.len() as int))
    } else {
        None
    }
}

/// The stem: the final component without its extension.
pub open spec fn stem_of(s: Seq<char>) -> Seq<char> {
    let f = file_part(s);
    let d = last_occ(f, '.');
    if d > 0 {
        f.subrange(0, d)
    } else {
        f
    }
}

/// Character span `(start, end)` of the final path component, in one scan.
pub fn file_part_span(path: &str) -> (r: (usize, usize))
    ensures
        r.0 <= r.1,
        r.0 == file_part_start(path@),
        r.1 == path@.len(),
{
    let n = path.unicode_len();
    let mut i: usize = 0;
    let mut has_slash = false;
    let mut ls: usize = 0;
    while i < n
        invariant
            i <= n,
            n == path@.len(),
            !has_slash ==> forall|j: int| 0 <= j < i ==> path@[j] != '/',
            has_slash ==> ls < i && path@[ls as int] == '/' && forall|j: int|
                ls < j < i ==> path@[j] != '/',
        decreases n - i,
    {
        let c = path.get_char(i);
        if c as u32 == 47 {
            proof {
                assert(c == '/') by {
                    assert(c as u32 == '/' as u32);
                }
            }
            has_slash = true;
            ls = i;
        } else {
            proof {
                assert(c != '/') by {
                    assert('/' as u32 == 47);
                }
            }
        }
        i = i + 1;
    }
    if has_slash {
        proof {
            lemma_last_occ_found(path@, '/', ls as int);
        }
        (ls + 1, n)
    } else {
        proof {
            lemma_last_occ_none(path@, '/');
        }
        (0, n)
    }
}

/// Character span of the extension, or `None` when the path has none. A
/// returned span always runs to the end of the path.
pub fn extension_span(path: &str) -> (r: Option<(usize, usize)>)
    ensures
        match r {
            Some(ab) => {
                &&& ab.0 <= ab.1 == path@.len()
                &&& extension_of(path@) == Some(path@.subrange(ab.0 as int, ab.1 as int))
            },
            None => extension_of(path@) is None,
        },
{
    let (fp, n) = file_part_span(path);
    let ghost f = file_part(path@);
    let mut i: usize = fp;
    let mut has_dot = false;
    let mut ld: usize = 0;
    while i < n
        invariant
            fp <= i <= n,
            n == path@.len(),
            fp == file_part_start(path@),
            !has_dot ==> forall|j: int| fp <= j < i ==> path@[j] != '.',
            has_dot ==> fp <= ld < i && path@[ld as int] == '.' && forall|j: int|
                ld < j < i ==> path@[j] != '.',
        decreases n - i,
    {
        let c = path.get_char(i);
        if c as u32 == 46 {
            proof {
                assert(c == '.') by {
                    assert(c as u32 == '.' as u32);
                }
            }
            has_dot = true;
            ld = i;
        } else {
            proof {
                assert(c != '.') by {
                    assert('.' as u32 == 46);
                }
            }
        }
        i = i + 1;
    }
    proof {
        assert(forall|k: int| 0 <= k < f.len() ==> f[k] == path@[k + fp]);
    }
    if has_dot && ld > fp {
        proof {
            assert(f[ld - fp] == '.');
            lemma_last_occ_found(f, '.', ld - fp);
            assert(f.subrange(ld - fp + 1, f.len() as int) =~= path@.subrange(
                ld + 1,
                path@.len() as int,
            ));
        }
        Some((ld + 1, n))
    } else if has_dot {
        proof {
            assert(ld == fp);
            assert(f.len() > 0 && f[0] == '.');
            lemma_last_occ_found(f, '.', 0);
        }
        None
    } else {
        proof {
            lemma_last_occ_none(f, '.');
        }
        None
    }
}

} // verus!
