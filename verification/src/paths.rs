//! Deterministic names and locations: where a chunk's part file lives, where
//! the final artifact goes, and how a part file's chunk index is read back out
//! of its name.

use vstd::prelude::*;
use crate::text::{
    dec_digits, dec_value, digit_value, is_digit, str_to_chars, u64_to_dec,
    lemma_dec_digits_are_digits, lemma_dec_digits_len, lemma_dec_value_of_digits,
};

verus! {

/// The marker that separates a part file's base name from its chunk index.
pub open spec fn part_marker() -> Seq<char> {
    seq!['.', 'p', 'a', 'r', 't']
}

/// A path separator flattened into the temp file's flat namespace.
pub open spec fn flat_char(c: char) -> char {
    if c == '/' || c == '\\' {
        '_'
    } else {
        c
    }
}

/// A relative path with every separator replaced, so a temp name never
/// creates nested directories.
pub open spec fn flat_path(s: Seq<char>) -> Seq<char> {
    Seq::new(s.len(), |i: int| flat_char(s[i]))
}

/// Replaces every `/` and `\` with `_`.
pub fn flatten_path(s: &str) -> (r: String)
    ensures
        r@ == flat_path(s@),
{
    let cs = str_to_chars(s);
    let mut out: Vec<char> = Vec::new();
    let mut i: usize = 0;
    while i < cs.len()
        invariant
            cs@ == s@,
            i <= cs@.len(),
            out@ == flat_path(s@).subrange(0, i as int),
        decreases cs@.len() - i,
    {
        let c = cs[i];
        if c == '/' || c == '\\' {
            out.push('_');
        } else {
            out.push(c);
        }
        proof {
            assert(out@ =~= flat_path(s@).subrange(0, i + 1));
        }
        i = i + 1;
    }
    proof {
        assert(out@ =~= flat_path(s@));
    }
    crate::text::chars_to_string(&out)
}

/// The name of the part file holding chunk `index` of a logical file.
pub open spec fn part_name(filename: Seq<char>, relative_path: Option<Seq<char>>, index: nat) -> Seq<
    char,
> {
    match relative_path {
        Some(rel) => flat_path(rel) + seq!['_'] + filename + part_marker() + dec_digits(index),
        None => filename + part_marker() + dec_digits(index),
    }
}

/// Computes the deterministic part-file name for one chunk.
pub fn part_file_name(filename: &str, relative_path: &Option<String>, index: usize) -> (r: String)
    ensures
        r@ == part_name(filename@, spec_rel(relative_path), index as nat),
{
    proof {
        reveal_strlit("_");
        reveal_strlit(".part");
    }
    let mut r: String;
    match relative_path {
        Some(rel) => {
            r = flatten_path(rel.as_str());
            r.append("_");
            r.append(filename);
        },
        None => {
            r = String::new();
            r.append(filename);
        },
    }
    r.append(".part");
    let digits = u64_to_dec(index as u64);
    r.append(digits.as_str());
    proof {
        assert("_"@ =~= seq!['_']);
        assert(".part"@ =~= part_marker());
        assert(r@ =~= part_name(filename@, spec_rel(relative_path), index as nat));
    }
    r
}

/// The view of an optional relative path.
pub open spec fn spec_rel(relative_path: &Option<String>) -> Option<Seq<char>> {
    match relative_path {
        Some(rel) => Some(rel@),
        None => None,
    }
}

/// The temp directory holding a module's in-flight part files.
pub fn temp_dir_for(module: &str) -> (r: String)
    ensures
        r@ == "./temp/"@ + module@,
{
    let mut r = String::new();
    r.append("./temp/");
    r.append(module);
    r
}

/// The directory holding a module's finished artifacts.
pub fn module_dir_for(module: &str) -> (r: String)
    ensures
        r@ == "./uploads/"@ + module@,
{
    let mut r = String::new();
    r.append("./uploads/");
    r.append(module);
    r
}

/// The destination path of a logical file's final artifact.
pub open spec fn final_path(module: Seq<char>, filename: Seq<char>, relative_path: Option<
    Seq<char>,
>) -> Seq<char> {
    match relative_path {
        Some(rel) => "./uploads/"@ + module + seq!['/'] + rel + seq!['/'] + filename,
        None => "./uploads/"@ + module + seq!['/'] + filename,
    }
}

/// Computes the destination path of the final artifact.
pub fn final_file_path(module: &str, filename: &str, relative_path: &Option<String>) -> (r: String)
    ensures
        r@ == final_path(module@, filename@, spec_rel(relative_path)),
{
    proof {
        reveal_strlit("/");
    }
    let mut r = module_dir_for(module);
    r.append("/");
    if let Some(rel) = relative_path {
        r.append(rel.as_str());
        r.append("/");
    }
    r.append(filename);
    proof {
        assert("/"@ =~= seq!['/']);
        assert(r@ =~= final_path(module@, filename@, spec_rel(relative_path)));
    }
    r
}

/// The URL under which a finished artifact is served.
pub open spec fn upload_url_spec(module: Seq<char>, filename: Seq<char>, relative_path: Option<
    Seq<char>,
>) -> Seq<char> {
    match relative_path {
        Some(rel) => "/uploads/"@ + module + seq!['/'] + rel + seq!['/'] + filename,
        None => "/uploads/"@ + module + seq!['/'] + filename,
    }
}

/// Computes the URL of a finished artifact.
pub fn upload_url(module: &str, filename: &str, relative_path: &Option<String>) -> (r: String)
    ensures
        r@ == upload_url_spec(module@, filename@, spec_rel(relative_path)),
{
    proof {
        reveal_strlit("/");
        reveal_strlit("/uploads/");
    }
    let mut r = String::new();
    r.append("/uploads/");
    r.append(module);
    r.append("/");
    if let Some(rel) = relative_path {
        r.append(rel.as_str());
        r.append("/");
    }
    r.append(filename);
    proof {
        assert("/"@ =~= seq!['/']);
        assert(r@ =~= upload_url_spec(module@, filename@, spec_rel(relative_path)));
    }
    r
}

/// The key under which a logical file's lock and progress entries are kept.
pub open spec fn file_key(module: Seq<char>, filename: Seq<char>) -> Seq<char> {
    module + seq!['_'] + filename
}

/// Computes the lock/progress key of a logical file.
pub fn lock_key(module: &str, filename: &str) -> (r: String)
    ensures
        r@ == file_key(module@, filename@),
{
    proof {
        reveal_strlit("_");
    }
    let mut r = String::new();
    r.append(module);
    r.append("_");
    r.append(filename);
    proof {
        assert("_"@ =~= seq!['_']);
        assert(r@ =~= file_key(module@, filename@));
    }
    r
}

/// The marker that sets a merge scratch file apart from finished artifacts.
pub open spec fn tmp_marker() -> Seq<char> {
    seq!['.', 't', 'm', 'p', '.']
}

/// The scratch name a merge writes before its atomic rename.
pub open spec fn merge_temp_spec(final_path: Seq<char>, token: Seq<char>) -> Seq<char> {
    final_path + tmp_marker() + token
}

/// Computes the merge scratch path from the destination path and a token.
pub fn merge_temp_name(final_path: &str, token: &str) -> (r: String)
    ensures
        r@ == merge_temp_spec(final_path@, token@),
        r@.len() > final_path@.len(),
{
    proof {
        reveal_strlit(".tmp.");
    }
    let mut r = String::new();
    r.append(final_path);
    r.append(".tmp.");
    r.append(token);
    proof {
        assert(".tmp."@ =~= tmp_marker());
        assert(r@ =~= merge_temp_spec(final_path@, token@));
    }
    r
}

/// The length of the run of digit characters at the end of `s`.
pub open spec fn digit_suffix_len(s: Seq<char>) -> nat
    decreases s.len(),
{
    if s.len() == 0 || !is_digit(s.last()) {
        0
    } else {
        1 + digit_suffix_len(s.drop_last())
    }
}

/// `s` ends in `.part{N}` for some run of digits `N`: there is at least one
/// trailing digit and the five characters before the trailing digit run spell
/// the part marker.
pub open spec fn has_part_suffix(s: Seq<char>) -> bool {
    let d = digit_suffix_len(s);
    d >= 1 && s.len() >= d + 5 && s.subrange(s.len() - d - 5, s.len() - d) == part_marker()
}

/// The chunk index encoded in a part file's name: the value of its maximal
/// trailing digit run.
pub open spec fn part_suffix_value(s: Seq<char>) -> nat {
    dec_value(s.subrange(s.len() - digit_suffix_len(s), s.len() as int))
}

fn is_digit_char(c: char) -> (r: bool)
    ensures
        r == is_digit(c),
{
    c >= '0' && c <= '9'
}

/// The trailing digit run is `d` long exactly when the last `d` characters
/// are digits and the one before them (if any) is not.
proof fn lemma_digit_suffix_len_char(s: Seq<char>, d: nat)
    requires
        d <= s.len(),
        forall|k: int| s.len() - d <= k < s.len() ==> is_digit(#[trigger] s[k]),
        d == s.len() || !is_digit(s[s.len() - d - 1]),
    ensures
        digit_suffix_len(s) == d,
    decreases d,
{
    if d == 0 {
        if s.len() > 0 {
            assert(!is_digit(s.last()));
        }
    } else {
        assert(is_digit(s.last()));
        let t = s.drop_last();
        assert forall|k: int| t.len() - (d - 1) <= k < t.len() implies is_digit(
            #[trigger] t[k],
        ) by {
            assert(t[k] == s[k]);
        }
        if d - 1 < t.len() {
            assert(t[t.len() - (d - 1) - 1] == s[s.len() - d - 1]);
        }
        lemma_digit_suffix_len_char(t, (d - 1) as nat);
    }
}

/// A digit run's value only grows as more digits are appended.
proof fn lemma_dec_value_prefix_le(t: Seq<char>, m: int)
    requires
        0 <= m <= t.len(),
    ensures
        dec_value(t.subrange(0, m)) <= dec_value(t),
    decreases t.len() - m,
{
    if m == t.len() {
        assert(t.subrange(0, m) =~= t);
    } else {
        assert(t.subrange(0, m) =~= t.drop_last().subrange(0, m));
        lemma_dec_value_prefix_le(t.drop_last(), m);
    }
}

/// Reads the chunk index out of a part file's name: the value of the maximal
/// trailing digit run, provided the five characters before it spell `.part`
/// and the value fits in `usize`.
pub fn part_index_of(name: &str) -> (r: Option<usize>)
    ensures
        match r {
            Some(i) => has_part_suffix(name@) && i as nat == part_suffix_value(name@),
            None => !has_part_suffix(name@) || part_suffix_value(name@) > usize::MAX,
        },
{
    let cs = str_to_chars(name);
    let n = cs.len();
    let mut d: usize = 0;
    while d < n && is_digit_char(cs[n - 1 - d])
        invariant
            cs@ == name@,
            n == cs@.len(),
            d <= n,
            forall|k: int| n - d <= k < n ==> is_digit(#[trigger] cs@[k]),
        decreases n - d,
    {
        d = d + 1;
    }
    proof {
        lemma_digit_suffix_len_char(name@, d as nat);
    }
    if d == 0 {
        return None;
    }
    if n - d < 5 {
        return None;
    }
    let p = n - d - 5;
    if !(cs[p] == '.' && cs[p + 1] == 'p' && cs[p + 2] == 'a' && cs[p + 3] == 'r' && cs[p + 4]
        == 't') {
        proof {
            let sub = name@.subrange(p as int, p + 5);
            if sub == part_marker() {
                assert(sub[0] == name@[p as int]);
                assert(sub[1] == name@[p + 1]);
                assert(sub[2] == name@[p + 2]);
                assert(sub[3] == name@[p + 3]);
                assert(sub[4] == name@[p + 4]);
            }
        }
        return None;
    }
    proof {
        assert(name@.subrange(p as int, p + 5) =~= part_marker());
        assert(has_part_suffix(name@));
    }
    let ghost t = name@.subrange(n - d, n as int);
    let mut val: usize = 0;
    let mut j: usize = 0;
    while j < d
        invariant
            cs@ == name@,
            n == cs@.len(),
            1 <= d <= n,
            j <= d,
            t == name@.subrange(n - d, n as int),
            digit_suffix_len(name@) == d,
            forall|k: int| n - d <= k < n ==> is_digit(#[trigger] cs@[k]),
            val as nat == dec_value(t.subrange(0, j as int)),
        decreases d - j,
    {
        let c = cs[n - d + j];
        let dv: usize = ((c as u32) - ('0' as u32)) as usize;
        proof {
            assert(is_digit(cs@[n - d + j]));
            assert(dv as nat == digit_value(t[j as int]));
        }
        let wide: u128 = (val as u128) * 10 + (dv as u128);
        if wide > (usize::MAX as u128) {
            proof {
                assert(t.subrange(0, j + 1).drop_last() =~= t.subrange(0, j as int));
                assert(t.subrange(0, j + 1).last() == t[j as int]);
                assert(dec_value(t.subrange(0, j + 1)) > usize::MAX);
                lemma_dec_value_prefix_le(t, j + 1);
                assert(part_suffix_value(name@) > usize::MAX);
            }
            return None;
        }
        val = wide as usize;
        proof {
            assert(t.subrange(0, j + 1).drop_last() =~= t.subrange(0, j as int));
            assert(t.subrange(0, j + 1).last() == t[j as int]);
        }
        j = j + 1;
    }
    proof {
        assert(t.subrange(0, d as int) =~= t);
        assert(val as nat == part_suffix_value(name@));
    }
    Some(val)
}

/// A part file's name always reads back as the index it was written for: the
/// rendered index is the maximal trailing digit run, and the part marker
/// stands right before it.
pub proof fn lemma_part_name_round_trip(
    filename: Seq<char>,
    relative_path: Option<Seq<char>>,
    index: nat,
)
    ensures
        has_part_suffix(part_name(filename, relative_path, index)),
        part_suffix_value(part_name(filename, relative_path, index)) == index,
{
    let s = part_name(filename, relative_path, index);
    let ds = dec_digits(index);
    let l = ds.len();
    lemma_dec_digits_len(index);
    lemma_dec_digits_are_digits(index);
    assert(s.len() >= l + 5);
    assert forall|k: int| s.len() - l <= k < s.len() implies is_digit(#[trigger] s[k]) by {
        assert(s[k] == ds[k - (s.len() - l)]);
    }
    assert(s[s.len() - l - 1] == 't');
    lemma_digit_suffix_len_char(s, l);
    assert(s.subrange(s.len() - l - 5, s.len() - l) =~= part_marker());
    assert(s.subrange(s.len() - l, s.len() as int) =~= ds);
    lemma_dec_value_of_digits(index);
}

} // verus!
