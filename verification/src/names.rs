//! Filename dissection and collision-free renaming. The rules here are the
//! crate's own, stated exactly: the base name is what follows the last `/`;
//! the extension is what follows the last `.` of the base name, provided
//! that dot is not its first character.

use vstd::prelude::*;
use crate::filetype::{lower_seq, to_lowercase_ascii};
use crate::text::{
    dec_digits, lemma_dec_digits_injective, lemma_tail_run_len_char, str_eq, str_to_chars,
    suffix_after_last, tail_run_len, tail_run_start, u64_to_dec,
};

verus! {

/// The component of a path after its last `/`.
pub open spec fn basename_spec(s: Seq<char>) -> Seq<char> {
    suffix_after_last(s, '/')
}

/// A sanitized base name: the component after the last `/`, refused when it
/// is empty or a current- or parent-directory marker.
pub open spec fn basename_opt(s: Seq<char>) -> Option<Seq<char>> {
    let b = basename_spec(s);
    if b.len() == 0 || b == seq!['.'] || b == seq!['.', '.'] {
        None
    } else {
        Some(b)
    }
}

/// The extension of a filename: what follows the last `.` of its base name,
/// provided that dot is not the base name's first character; empty
/// otherwise.
pub open spec fn extension_spec(s: Seq<char>) -> Seq<char> {
    let b = basename_spec(s);
    let t = tail_run_len(b, '.');
    if t + 1 < b.len() {
        b.subrange(b.len() - t, b.len() as int)
    } else {
        Seq::empty()
    }
}

/// The stem of a filename: its base name with the extension and its dot
/// removed; the whole base name when there is no extension.
pub open spec fn stem_spec(s: Seq<char>) -> Seq<char> {
    let b = basename_spec(s);
    let t = tail_run_len(b, '.');
    if t + 1 < b.len() {
        b.subrange(0, b.len() - t - 1)
    } else {
        b
    }
}

/// Extracts the sanitized base name of a path, if it has one.
pub fn basename_of(name: &str) -> (r: Option<String>)
    ensures
        match r {
            Some(b) => basename_opt(name@) == Some(b@),
            None => basename_opt(name@) is None,
        },
{
    let cs = str_to_chars(name);
    let n = cs.len();
    let ss = tail_run_start(&cs, '/');
    proof {
        assert(basename_spec(name@) =~= cs@.subrange(ss as int, n as int));
    }
    let blen = n - ss;
    if blen == 0 {
        return None;
    }
    if blen == 1 && cs[ss] == '.' {
        proof {
            assert(basename_spec(name@) =~= seq!['.']);
        }
        return None;
    }
    if blen == 2 && cs[ss] == '.' && cs[ss + 1] == '.' {
        proof {
            assert(basename_spec(name@) =~= seq!['.', '.']);
        }
        return None;
    }
    proof {
        if basename_spec(name@) == seq!['.'] {
            assert(basename_spec(name@).len() == 1);
            assert(cs@[ss as int] == basename_spec(name@)[0]);
        }
        if basename_spec(name@) == seq!['.', '.'] {
            assert(basename_spec(name@).len() == 2);
            assert(cs@[ss as int] == basename_spec(name@)[0]);
            assert(cs@[ss + 1] == basename_spec(name@)[1]);
        }
    }
    Some(name.substring_char(ss, n).to_owned())
}

/// Finds the length of the run of non-dot characters at the end of
/// `cs[ss..]`.
fn dot_run_of_basename(cs: &Vec<char>, ss: usize) -> (d: usize)
    requires
        ss <= cs@.len(),
    ensures
        d <= cs@.len() - ss,
        d == tail_run_len(cs@.subrange(ss as int, cs@.len() as int), '.'),
{
    let n = cs.len();
    let blen = n - ss;
    let ghost b = cs@.subrange(ss as int, n as int);
    let mut d: usize = 0;
    while d < blen && cs[n - 1 - d] != '.'
        invariant
            n == cs@.len(),
            ss <= n,
            blen == n - ss,
            d <= blen,
            forall|k: int| n - d <= k < n ==> (#[trigger] cs@[k]) != '.',
        decreases blen - d,
    {
        d = d + 1;
    }
    proof {
        assert(b.len() == blen);
        assert forall|k: int| b.len() - d <= k < b.len() implies (#[trigger] b[k]) != '.' by {
            assert(b[k] == cs@[ss + k]);
        }
        if d < blen {
            assert(b[b.len() - d - 1] == cs@[n - d - 1]);
        }
        lemma_tail_run_len_char(b, '.', d as nat);
    }
    d
}

/// Extracts the extension of a filename, lower-cased by the caller if
/// needed; empty when there is none.
pub fn extension_of(name: &str) -> (r: String)
    ensures
        r@ == extension_spec(name@),
{
    let cs = str_to_chars(name);
    let n = cs.len();
    let ss = tail_run_start(&cs, '/');
    let d = dot_run_of_basename(&cs, ss);
    proof {
        assert(basename_spec(name@) =~= cs@.subrange(ss as int, n as int));
    }
    let blen = n - ss;
    if blen - d > 1 {
        let r = name.substring_char(n - d, n).to_owned();
        proof {
            let b = basename_spec(name@);
            assert(r@ =~= b.subrange(b.len() - d, b.len() as int));
        }
        r
    } else {
        String::new()
    }
}

/// Extracts the stem of a filename.
pub fn stem_of(name: &str) -> (r: String)
    ensures
        r@ == stem_spec(name@),
{
    let cs = str_to_chars(name);
    let n = cs.len();
    let ss = tail_run_start(&cs, '/');
    let d = dot_run_of_basename(&cs, ss);
    let blen = n - ss;
    proof {
        assert(basename_spec(name@) =~= cs@.subrange(ss as int, n as int));
    }
    if blen - d > 1 {
        let r = name.substring_char(ss, n - d - 1).to_owned();
        proof {
            let b = basename_spec(name@);
            assert(r@ =~= b.subrange(0, b.len() - d - 1));
        }
        r
    } else {
        let r = name.substring_char(ss, n).to_owned();
        proof {
            let b = basename_spec(name@);
            assert(r@ =~= b);
        }
        r
    }
}

/// Whether some existing path holds exactly these characters.
pub open spec fn taken_contains(taken: Seq<String>, v: Seq<char>) -> bool {
    exists|i: int| 0 <= i < taken.len() && taken[i]@ == v
}

fn in_taken(taken: &Vec<String>, v: &str) -> (r: bool)
    ensures
        r == taken_contains(taken@, v@),
{
    let mut i: usize = 0;
    while i < taken.len()
        invariant
            i <= taken@.len(),
            forall|j: int| 0 <= j < i ==> (#[trigger] taken@[j])@ != v@,
        decreases taken@.len() - i,
    {
        if str_eq(taken[i].as_str(), v) {
            return true;
        }
        i = i + 1;
    }
    false
}

/// The directory part of a path: everything up to and including its last
/// `/`.
pub open spec fn dir_prefix_spec(filepath: Seq<char>) -> Seq<char> {
    filepath.subrange(0, filepath.len() - tail_run_len(filepath, '/'))
}

/// The stem used when renaming, falling back to `file` for a filename with
/// no usable stem.
pub open spec fn rename_stem(original: Seq<char>) -> Seq<char> {
    if stem_spec(original).len() == 0 {
        "file"@
    } else {
        stem_spec(original)
    }
}

/// The `k`-th renaming candidate for a file: the stem, an underscore and a
/// counter, keeping the (lower-cased) extension and the directory.
pub open spec fn unique_candidate(filepath: Seq<char>, original: Seq<char>, k: nat) -> Seq<char> {
    let ext = lower_seq(extension_spec(original));
    if ext.len() == 0 {
        dir_prefix_spec(filepath) + rename_stem(original) + seq!['_'] + dec_digits(k)
    } else {
        dir_prefix_spec(filepath) + rename_stem(original) + seq!['_'] + dec_digits(k) + seq!['.']
            + ext
    }
}

/// Different counters give different candidate paths.
proof fn lemma_candidate_injective(filepath: Seq<char>, original: Seq<char>, j1: nat, j2: nat)
    requires
        unique_candidate(filepath, original, j1) == unique_candidate(filepath, original, j2),
    ensures
        j1 == j2,
{
    let ext = lower_seq(extension_spec(original));
    let a = dir_prefix_spec(filepath) + rename_stem(original) + seq!['_'];
    let b = if ext.len() == 0 {
        Seq::<char>::empty()
    } else {
        seq!['.'] + ext
    };
    let d1 = dec_digits(j1);
    let d2 = dec_digits(j2);
    assert(unique_candidate(filepath, original, j1) =~= a + d1 + b);
    assert(unique_candidate(filepath, original, j2) =~= a + d2 + b);
    assert(d1.len() == d2.len());
    assert forall|i: int| 0 <= i < d1.len() implies d1[i] == d2[i] by {
        assert((a + d1 + b)[a.len() + i] == d1[i]);
        assert((a + d2 + b)[a.len() + i] == d2[i]);
    }
    assert(d1 =~= d2);
    lemma_dec_digits_injective(j1, j2);
}

/// No more distinct strings can all occur among some paths than there are
/// paths.
proof fn lemma_distinct_in_bound(vals: Seq<Seq<char>>, taken: Seq<String>)
    requires
        forall|a: int, b: int| 0 <= a < b < vals.len() ==> vals[a] != vals[b],
        forall|a: int| 0 <= a < vals.len() ==> taken_contains(taken, #[trigger] vals[a]),
    ensures
        vals.len() <= taken.len(),
    decreases vals.len(),
{
    if vals.len() > 0 {
        let v = vals.last();
        let idx = choose|i: int| 0 <= i < taken.len() && taken[i]@ == v;
        let taken2 = taken.remove(idx);
        let vals2 = vals.drop_last();
        assert forall|a: int| 0 <= a < vals2.len() implies taken_contains(
            taken2,
            #[trigger] vals2[a],
        ) by {
            assert(vals2[a] == vals[a]);
            assert(vals[a] != v);
            let j = choose|j: int| 0 <= j < taken.len() && taken[j]@ == vals[a];
            if j < idx {
                assert(taken2[j]@ == vals[a]);
            } else {
                assert(j > idx);
                assert(taken2[j - 1]@ == vals[a]);
            }
        }
        lemma_distinct_in_bound(vals2, taken2);
    }
}

/// Picks a path not yet in use: the given path itself when free, else the
/// first candidate `stem_k[.ext]` (k counting up from one) whose full path
/// is not among the existing ones.
pub fn generate_unique_filename(original_filename: &str, filepath: &str, taken: &Vec<String>) -> (r:
    String)
    requires
        taken@.len() < usize::MAX,
    ensures
        !taken_contains(taken@, r@),
        !taken_contains(taken@, filepath@) ==> r@ == filepath@,
        taken_contains(taken@, filepath@) ==> exists|k: nat|
            1 <= k && r@ == #[trigger] unique_candidate(filepath@, original_filename@, k)
                && (forall|j: nat|
                1 <= j < k ==> taken_contains(
                    taken@,
                    unique_candidate(filepath@, original_filename@, j),
                )),
{
    if !in_taken(taken, filepath) {
        return filepath.to_owned();
    }
    let fp_chars = str_to_chars(filepath);
    let prefix_end = tail_run_start(&fp_chars, '/');
    let prefix = filepath.substring_char(0, prefix_end);
    proof {
        assert(prefix@ =~= dir_prefix_spec(filepath@));
    }
    let stem0 = stem_of(original_filename);
    let stem = if stem0.as_str().is_empty() {
        "file".to_owned()
    } else {
        stem0
    };
    proof {
        assert(stem@ == rename_stem(original_filename@));
    }
    let ext = to_lowercase_ascii(extension_of(original_filename).as_str());
    let n_taken = taken.len();
    let mut tried: usize = 0;
    loop
        invariant
            taken@.len() < usize::MAX,
            n_taken == taken@.len(),
            tried <= n_taken + 1,
            taken_contains(taken@, filepath@),
            prefix@ == dir_prefix_spec(filepath@),
            stem@ == rename_stem(original_filename@),
            ext@ == lower_seq(extension_spec(original_filename@)),
            forall|j: nat|
                1 <= j <= tried ==> taken_contains(
                    taken@,
                    #[trigger] unique_candidate(filepath@, original_filename@, j),
                ),
        decreases n_taken + 1 - tried,
    {
        if tried > n_taken {
            proof {
                let vals = Seq::new((n_taken + 1) as nat, |i: int| unique_candidate(
                    filepath@,
                    original_filename@,
                    (i + 1) as nat,
                ));
                assert forall|a: int, b: int| 0 <= a < b < vals.len() implies vals[a]
                    != vals[b] by {
                    if vals[a] == vals[b] {
                        lemma_candidate_injective(
                            filepath@,
                            original_filename@,
                            (a + 1) as nat,
                            (b + 1) as nat,
                        );
                    }
                }
                assert forall|a: int| 0 <= a < vals.len() implies taken_contains(
                    taken@,
                    #[trigger] vals[a],
                ) by {
                    assert(vals[a] == unique_candidate(
                        filepath@,
                        original_filename@,
                        (a + 1) as nat,
                    ));
                }
                lemma_distinct_in_bound(vals, taken@);
                assert(false);
            }
            return filepath.to_owned();
        }
        let k = tried + 1;
        let mut cand = String::new();
        cand.append(prefix);
        cand.append(stem.as_str());
        cand.append("_");
        let dk = u64_to_dec(k as u64);
        cand.append(dk.as_str());
        if !ext.as_str().is_empty() {
            cand.append(".");
            cand.append(ext.as_str());
        }
        proof {
            reveal_strlit("_");
            reveal_strlit(".");
            assert("_"@ =~= seq!['_']);
            assert("."@ =~= seq!['.']);
            assert(cand@ =~= unique_candidate(filepath@, original_filename@, k as nat));
        }
        if !in_taken(taken, cand.as_str()) {
            proof {
                assert forall|j: nat|
                    1 <= j < k as nat implies taken_contains(
                    taken@,
                    unique_candidate(filepath@, original_filename@, j),
                ) by {
                    assert(taken_contains(
                        taken@,
                        unique_candidate(filepath@, original_filename@, j),
                    ));
                }
            }
            return cand;
        }
        tried = k;
    }
}

/// Where a freshly uploaded file should land: the destination path for its
/// module and relative path, renamed past any occupied path. `taken` lists
/// the paths already present in the destination directory.
pub fn build_file_path(
    module: &str,
    original_filename: &str,
    relative_path: &Option<String>,
    taken: &Vec<String>,
) -> (r: String)
    requires
        taken@.len() < usize::MAX,
    ensures
        !taken_contains(taken@, r@),
        !taken_contains(
            taken@,
            crate::paths::final_path(module@, original_filename@, crate::paths::spec_rel(relative_path)),
        ) ==> r@ == crate::paths::final_path(
            module@,
            original_filename@,
            crate::paths::spec_rel(relative_path),
        ),
{
    let initial = crate::paths::final_file_path(module, original_filename, relative_path);
    generate_unique_filename(original_filename, initial.as_str(), taken)
}

} // verus!
