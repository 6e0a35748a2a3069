//! Request validation: the traversal and size checks that run before any
//! filesystem work.

use vstd::prelude::*;
use crate::text::{contains_chars, contains_sub, is_sub_at, str_to_chars};

verus! {

/// A module name must not contain a parent-directory marker or a path
/// separator of either flavour.
pub open spec fn valid_module_name(s: Seq<char>) -> bool {
    !contains_sub(s, seq!['.', '.']) && !s.contains('/') && !s.contains('\\')
}

pub fn is_valid_module_name(name: &str) -> (r: bool)
    ensures
        r == valid_module_name(name@),
{
    let cs = str_to_chars(name);
    let dotdot: Vec<char> = vec!['.', '.'];
    let slash: Vec<char> = vec!['/'];
    let backslash: Vec<char> = vec!['\\'];
    proof {
        assert(dotdot@ =~= seq!['.', '.']);
        assert(slash@ =~= seq!['/']);
        assert(backslash@ =~= seq!['\\']);
        single_char_sub(cs@, '/');
        single_char_sub(cs@, '\\');
    }
    !contains_chars(&cs, &dotdot) && !contains_chars(&cs, &slash) && !contains_chars(
        &cs,
        &backslash,
    )
}

/// A filename must not contain a parent-directory marker or an empty path
/// segment.
pub open spec fn valid_filename(s: Seq<char>) -> bool {
    !contains_sub(s, seq!['.', '.']) && !contains_sub(s, seq!['/', '/'])
}

pub fn is_valid_filename(filename: &str) -> (r: bool)
    ensures
        r == valid_filename(filename@),
{
    let cs = str_to_chars(filename);
    let dotdot: Vec<char> = vec!['.', '.'];
    let slashslash: Vec<char> = vec!['/', '/'];
    proof {
        assert(dotdot@ =~= seq!['.', '.']);
        assert(slashslash@ =~= seq!['/', '/']);
    }
    !contains_chars(&cs, &dotdot) && !contains_chars(&cs, &slashslash)
}

/// A relative path is held to the same rule as a filename.
pub open spec fn valid_path(s: Seq<char>) -> bool {
    valid_filename(s)
}

pub fn is_valid_path(path: &str) -> (r: bool)
    ensures
        r == valid_path(path@),
{
    is_valid_filename(path)
}

/// A declared size passes when it does not exceed the configured maximum.
pub fn is_valid_file_size(size: u64, max_size: u64) -> (r: bool)
    ensures
        r == (size <= max_size),
{
    size <= max_size
}

/// A chunk index must lie below the declared total.
pub fn is_valid_chunk_params(chunk_number: usize, total_chunks: usize) -> (r: bool)
    ensures
        r == (chunk_number < total_chunks),
{
    chunk_number < total_chunks
}

/// An ASCII whitespace character; a path segment made only of these is
/// treated as blank.
pub open spec fn is_space(c: char) -> bool {
    c == ' ' || c == '\t' || c == '\n' || c == '\r'
}

/// `[i, j)` is one `/`-separated segment of `s`: it runs from a start of
/// string or a separator to an end of string or a separator, with no
/// separator inside.
pub open spec fn is_seg_boundary(s: Seq<char>, i: int, j: int) -> bool {
    0 <= i <= j <= s.len() && (i == 0 || s[i - 1] == '/') && (j == s.len() || s[j] == '/')
        && (forall|k: int| i <= k < j ==> s[k] != '/')
}

/// A segment passes when it is not blank and is not the lone `.`.
pub open spec fn seg_ok(s: Seq<char>, i: int, j: int) -> bool {
    !(forall|k: int| i <= k < j ==> is_space(#[trigger] s[k])) && !(j - i == 1 && s[i] == '.')
}

/// A module path may use `/` to name submodules, but must be non-empty,
/// relative, free of parent-directory markers and backslashes, and made of
/// segments that are neither blank nor `.`.
pub open spec fn valid_module_path(s: Seq<char>) -> bool {
    &&& s.len() > 0
    &&& !contains_sub(s, seq!['.', '.'])
    &&& s[0] != '/'
    &&& !s.contains('\\')
    &&& forall|i: int, j: int| is_seg_boundary(s, i, j) ==> #[trigger] seg_ok(s, i, j)
}

/// Checks the segment `[start, end)` of `cs`.
fn check_segment(cs: &Vec<char>, start: usize, end: usize) -> (r: bool)
    requires
        start <= end <= cs@.len(),
    ensures
        r == seg_ok(cs@, start as int, end as int),
{
    let mut all_space = true;
    let mut k: usize = start;
    while k < end
        invariant
            start <= k <= end <= cs@.len(),
            all_space == (forall|x: int| start <= x < k ==> is_space(#[trigger] cs@[x])),
        decreases end - k,
    {
        let c = cs[k];
        if !(c == ' ' || c == '\t' || c == '\n' || c == '\r') {
            all_space = false;
            proof {
                assert(!is_space(cs@[k as int]));
            }
            k = end;
        } else {
            k = k + 1;
        }
    }
    if all_space {
        return false;
    }
    if end - start == 1 && cs[start] == '.' {
        return false;
    }
    true
}

pub fn is_valid_module_path(path: &str) -> (r: bool)
    ensures
        r == valid_module_path(path@),
{
    let cs = str_to_chars(path);
    if cs.len() == 0 {
        return false;
    }
    let dotdot: Vec<char> = vec!['.', '.'];
    proof {
        assert(dotdot@ =~= seq!['.', '.']);
    }
    if contains_chars(&cs, &dotdot) {
        return false;
    }
    if cs[0] == '/' {
        return false;
    }
    let backslash: Vec<char> = vec!['\\'];
    proof {
        assert(backslash@ =~= seq!['\\']);
        single_char_sub(cs@, '\\');
    }
    if contains_chars(&cs, &backslash) {
        return false;
    }
    let n = cs.len();
    let mut start: usize = 0;
    let mut p: usize = 0;
    loop
        invariant
            cs@ == path@,
            n == cs@.len(),
            start <= p <= n,
            start == 0 || cs@[start - 1] == '/',
            forall|k: int| start <= k < p ==> cs@[k] != '/',
            forall|i: int, j: int| (is_seg_boundary(cs@, i, j) && j < p) ==> #[trigger] seg_ok(
                cs@,
                i,
                j,
            ),
        ensures
            forall|i: int, j: int| is_seg_boundary(cs@, i, j) ==> #[trigger] seg_ok(cs@, i, j),
        decreases 2 * n - 2 * p + 1,
    {
        if p == n || cs[p] == '/' {
            proof {
                assert forall|i: int| is_seg_boundary(cs@, i, p as int) implies i
                    == start as int by {
                    if i < start {
                        assert(cs@[start - 1] == '/');
                    }
                    if i > start {
                        assert(cs@[i - 1] != '/');
                    }
                }
            }
            if !check_segment(&cs, start, p) {
                proof {
                    assert(is_seg_boundary(cs@, start as int, p as int));
                }
                return false;
            }
            if p == n {
                proof {
                    assert forall|i: int, j: int| is_seg_boundary(cs@, i, j) implies #[trigger] seg_ok(
                        cs@,
                        i,
                        j,
                    ) by {
                        if j < p {
                        } else {
                            assert(j == p);
                        }
                    }
                }
                break;
            }
            start = p + 1;
            p = p + 1;
        } else {
            p = p + 1;
        }
    }
    true
}

/// Occurrence of a one-character needle is the same as membership.
proof fn single_char_sub(s: Seq<char>, c: char)
    ensures
        contains_sub(s, seq![c]) == s.contains(c),
{
    if contains_sub(s, seq![c]) {
        let i = choose|i: int| is_sub_at(s, seq![c], i);
        assert(s.subrange(i, i + 1)[0] == s[i]);
        assert(s[i] == c);
    }
    if s.contains(c) {
        let i = choose|i: int| 0 <= i < s.len() && s[i] == c;
        assert(s.subrange(i, i + 1) =~= seq![c]);
        assert(is_sub_at(s, seq![c], i));
    }
}

} // verus!
