//! The resume advisor: given what is on disk, decide whether a file can be
//! skipped outright (same size already present) or which chunk indices are
//! already uploaded.

use vstd::prelude::*;
use vstd::multiset::Multiset;
use crate::paths::{has_part_suffix, part_suffix_value, part_index_of};
use crate::text::{contains_chars, contains_sub, str_to_chars};

verus! {

/// A temp-directory entry counts for this file when it embeds the filename
/// and carries a readable `.part{N}` suffix whose index fits the machine.
pub open spec fn matches_part(name: Seq<char>, filename: Seq<char>) -> bool {
    contains_sub(name, filename) && has_part_suffix(name) && part_suffix_value(name) <= usize::MAX
}

/// The chunk indices read off a listing, in listing order.
pub open spec fn extracted_indices(names: Seq<String>, filename: Seq<char>) -> Seq<usize>
    decreases names.len(),
{
    if names.len() == 0 {
        Seq::empty()
    } else {
        extracted_indices(names.drop_last(), filename) + (if matches_part(
            names.last()@,
            filename,
        ) {
            seq![part_suffix_value(names.last()@) as usize]
        } else {
            Seq::empty()
        })
    }
}

/// The indices are in ascending order.
pub open spec fn sorted_indices(s: Seq<usize>) -> bool {
    forall|i: int, j: int| 0 <= i < j < s.len() ==> s[i] <= s[j]
}

/// Reads the already-uploaded chunk indices out of a temp-directory listing:
/// every entry naming this file with a readable part suffix contributes its
/// index, and the result comes back in ascending order.
pub fn scan_part_indices(names: &Vec<String>, filename: &str) -> (r: Vec<usize>)
    ensures
        sorted_indices(r@),
        r@.to_multiset() == extracted_indices(names@, filename@).to_multiset(),
{
    broadcast use vstd::seq_lib::group_to_multiset_ensures, vstd::multiset::group_multiset_axioms;

    let fchars = str_to_chars(filename);
    let mut vals: Vec<usize> = Vec::new();
    let mut i: usize = 0;
    while i < names.len()
        invariant
            fchars@ == filename@,
            i <= names@.len(),
            vals@ == extracted_indices(names@.subrange(0, i as int), filename@),
        decreases names@.len() - i,
    {
        let ghost prefix = names@.subrange(0, i as int);
        let name = &names[i];
        let nchars = str_to_chars(name.as_str());
        let mut hit = false;
        if contains_chars(&nchars, &fchars) {
            match part_index_of(name.as_str()) {
                Some(v) => {
                    vals.push(v);
                    hit = true;
                },
                None => {},
            }
        }
        proof {
            assert(names@.subrange(0, i + 1).drop_last() =~= prefix);
            assert(names@.subrange(0, i + 1).last() == names@[i as int]);
            if !hit {
                assert(vals@ =~= extracted_indices(names@.subrange(0, i + 1), filename@));
            }
        }
        i = i + 1;
    }
    proof {
        assert(names@.subrange(0, names@.len() as int) =~= names@);
    }
    let mut out: Vec<usize> = Vec::new();
    proof {
        assert(out@.to_multiset().len() == 0);
        assert(out@.to_multiset() =~= Multiset::<usize>::empty());
        assert(out@.to_multiset().add(vals@.to_multiset()) =~= vals@.to_multiset());
    }
    while vals.len() > 0
        invariant
            sorted_indices(out@),
            out@.to_multiset().add(vals@.to_multiset()) == extracted_indices(
                names@,
                filename@,
            ).to_multiset(),
            forall|a: int, b: int|
                0 <= a < out@.len() && 0 <= b < vals@.len() ==> out@[a] <= vals@[b],
        decreases vals@.len(),
    {
        let mut mi: usize = 0;
        let mut j: usize = 1;
        while j < vals.len()
            invariant
                1 <= vals@.len(),
                mi < j <= vals@.len(),
                forall|t: int| 0 <= t < j ==> (#[trigger] vals@[t]) >= vals@[mi as int],
            decreases vals@.len() - j,
        {
            if vals[j] < vals[mi] {
                mi = j;
            }
            j = j + 1;
        }
        let ghost vals_before = vals@;
        let ghost out_before = out@;
        let v = vals.remove(mi);
        out.push(v);
        proof {
            vals_before.to_multiset_ensures();
            out_before.to_multiset_ensures();
            assert(vals@.to_multiset() == vals_before.remove(mi as int).to_multiset());
            assert(vals@.to_multiset() == vals_before.to_multiset().remove(v));
            assert(out@.to_multiset() == out_before.push(v).to_multiset());
            assert(out@.to_multiset() == out_before.to_multiset().insert(v));
            assert(vals_before.contains(v));
            assert(vals_before.to_multiset().count(v) > 0);
            assert(out@.to_multiset().add(vals@.to_multiset()) =~= out_before.to_multiset().add(
                vals_before.to_multiset(),
            ));
        }
    }
    proof {
        assert(vals@.to_multiset().len() == 0);
        assert(vals@.to_multiset() =~= Multiset::<usize>::empty());
        assert(out@.to_multiset() =~= out@.to_multiset().add(vals@.to_multiset()));
    }
    out
}

/// What the advisor reports for one candidate file.
#[derive(Debug)]
pub struct FileExistsResult {
    pub exists: bool,
    pub size: Option<u64>,
    pub can_instant_upload: bool,
    pub uploaded_chunks: Vec<usize>,
    pub can_resume: bool,
}

/// Decides whether an upload can be skipped or resumed. `artifact_size` is
/// the size of the artifact already at the destination, if one exists;
/// `temp_names` lists the module's temp directory. A destination file of
/// exactly the declared size means an instant upload; otherwise the part
/// files already present determine the resumable chunk indices.
pub fn check_file_exists(
    artifact_size: Option<u64>,
    declared_total_size: u64,
    temp_names: &Vec<String>,
    filename: &str,
) -> (r: FileExistsResult)
    ensures
        r.exists == r.can_instant_upload,
        match artifact_size {
            Some(sz) => r.can_instant_upload == (sz == declared_total_size),
            None => !r.can_instant_upload,
        },
        r.can_instant_upload ==> r.size == artifact_size && r.uploaded_chunks@.len() == 0
            && !r.can_resume,
        !r.can_instant_upload ==> {
            &&& r.size is None
            &&& sorted_indices(r.uploaded_chunks@)
            &&& r.uploaded_chunks@.to_multiset() == extracted_indices(
                temp_names@,
                filename@,
            ).to_multiset()
            &&& r.can_resume == (r.uploaded_chunks@.len() > 0)
        },
{
    if let Some(sz) = artifact_size {
        if sz == declared_total_size {
            return FileExistsResult {
                exists: true,
                size: Some(sz),
                can_instant_upload: true,
                uploaded_chunks: Vec::new(),
                can_resume: false,
            };
        }
    }
    let uploaded_chunks = scan_part_indices(temp_names, filename);
    let can_resume = uploaded_chunks.len() > 0;
    FileExistsResult { exists: false, size: None, can_instant_upload: false, uploaded_chunks, can_resume }
}

} // verus!
