//! The chunk store and merge engine, modelled over the two on-disk areas the
//! service owns: the temp area holding in-flight part files and the uploads
//! area holding finished artifacts. Part writes are idempotent, and a merge
//! either installs the complete artifact or leaves the uploads area untouched.

use vstd::prelude::*;
use crate::paths::{final_path, part_file_name, part_name, spec_rel};
use crate::text::{dec_digits, str_eq, u64_to_dec};

verus! {

/// Why a merge was refused.
#[derive(Debug, Clone, Copy, PartialEq, Eq, Structural)]
pub enum MergeError {
    /// The part file for this chunk index was absent.
    MissingChunk(usize),
}

impl MergeError {
    /// A human-readable description naming the missing index.
    pub fn message(&self) -> (r: String)
        ensures
            match self {
                MergeError::MissingChunk(i) => r@ == "missing chunk "@ + dec_digits(*i as nat),
            },
    {
        match self {
            MergeError::MissingChunk(i) => {
                let mut r = String::new();
                r.append("missing chunk ");
                let digits = u64_to_dec(*i as u64);
                r.append(digits.as_str());
                r
            },
        }
    }
}

/// No two entries share a key.
pub open spec fn unique_keys(s: Seq<(String, Vec<u8>)>) -> bool {
    forall|i: int, j: int| 0 <= i < j < s.len() ==> s[i].0@ != s[j].0@
}

/// The association list read as a map from names to byte contents.
pub open spec fn map_of(s: Seq<(String, Vec<u8>)>) -> Map<Seq<char>, Seq<u8>>
    decreases s.len(),
{
    if s.len() == 0 {
        Map::empty()
    } else {
        map_of(s.drop_last()).insert(s.last().0@, s.last().1@)
    }
}

proof fn lemma_map_of_contains(s: Seq<(String, Vec<u8>)>, k: Seq<char>)
    ensures
        map_of(s).contains_key(k) == exists|i: int| 0 <= i < s.len() && #[trigger] s[i].0@ == k,
    decreases s.len(),
{
    if s.len() > 0 {
        lemma_map_of_contains(s.drop_last(), k);
        if map_of(s).contains_key(k) && s.last().0@ != k {
            let i = choose|i: int| 0 <= i < s.drop_last().len() && #[trigger] s.drop_last()[i].0@
                == k;
            assert(s[i].0@ == k);
        }
        if exists|i: int| 0 <= i < s.len() && #[trigger] s[i].0@ == k {
            let i = choose|i: int| 0 <= i < s.len() && #[trigger] s[i].0@ == k;
            if i < s.len() - 1 {
                assert(s.drop_last()[i].0@ == k);
            }
        }
    }
}

proof fn lemma_map_of_get(s: Seq<(String, Vec<u8>)>, i: int)
    requires
        unique_keys(s),
        0 <= i < s.len(),
    ensures
        map_of(s).contains_key(s[i].0@),
        map_of(s)[s[i].0@] == s[i].1@,
    decreases s.len(),
{
    if i == s.len() - 1 {
    } else {
        assert(s.drop_last()[i] == s[i]);
        lemma_map_of_get(s.drop_last(), i);
        assert(s[i].0@ != s.last().0@);
    }
}

proof fn lemma_unique_remove(s: Seq<(String, Vec<u8>)>, i: int)
    requires
        unique_keys(s),
        0 <= i < s.len(),
    ensures
        unique_keys(s.remove(i)),
{
    assert forall|x: int, y: int| 0 <= x < y < s.remove(i).len() implies s.remove(i)[x].0@
        != s.remove(i)[y].0@ by {
        let x0 = if x < i {
            x
        } else {
            x + 1
        };
        let y0 = if y < i {
            y
        } else {
            y + 1
        };
        assert(s.remove(i)[x] == s[x0]);
        assert(s.remove(i)[y] == s[y0]);
    }
}

proof fn lemma_map_of_remove(s: Seq<(String, Vec<u8>)>, i: int)
    requires
        unique_keys(s),
        0 <= i < s.len(),
    ensures
        map_of(s.remove(i)) =~= map_of(s).remove(s[i].0@),
    decreases s.len(),
{
    lemma_map_of_contains(s.drop_last(), s[i].0@);
    if i == s.len() - 1 {
        assert(s.remove(i) =~= s.drop_last());
        assert(!map_of(s.drop_last()).contains_key(s[i].0@));
        assert(map_of(s.drop_last()) =~= map_of(s.drop_last()).insert(s.last().0@,
            s.last().1@,
        ).remove(s.last().0@));
    } else {
        assert(s.remove(i) =~= s.drop_last().remove(i).push(s.last()));
        assert(s.remove(i).drop_last() =~= s.drop_last().remove(i));
        lemma_map_of_remove(s.drop_last(), i);
        assert(s.drop_last()[i] == s[i]);
        assert(s[i].0@ != s.last().0@);
    }
}

/// Finds the entry holding `key`, if any.
fn find_entry(v: &Vec<(String, Vec<u8>)>, key: &str) -> (r: Option<usize>)
    ensures
        match r {
            Some(i) => i < v@.len() && v@[i as int].0@ == key@,
            None => forall|j: int| 0 <= j < v@.len() ==> (#[trigger] v@[j].0@) != key@,
        },
{
    let mut j: usize = 0;
    while j < v.len()
        invariant
            j <= v@.len(),
            forall|k: int| 0 <= k < j ==> (#[trigger] v@[k].0@) != key@,
        decreases v@.len() - j,
    {
        if str_eq(v[j].0.as_str(), key) {
            return Some(j);
        }
        j = j + 1;
    }
    None
}

/// What the parts map looks like after one chunk write: untouched if the name
/// was already taken (idempotent retry), extended otherwise.
pub open spec fn written_parts(
    m: Map<Seq<char>, Seq<u8>>,
    name: Seq<char>,
    bytes: Seq<u8>,
) -> Map<Seq<char>, Seq<u8>> {
    if m.contains_key(name) {
        m
    } else {
        m.insert(name, bytes)
    }
}

/// The ordered concatenation of the chunks `0 .. total` of a logical file, as
/// found in the parts map.
pub open spec fn merged_bytes(
    m: Map<Seq<char>, Seq<u8>>,
    filename: Seq<char>,
    relative_path: Option<Seq<char>>,
    total: nat,
) -> Seq<u8>
    decreases total,
{
    if total == 0 {
        Seq::empty()
    } else {
        merged_bytes(m, filename, relative_path, (total - 1) as nat) + m[part_name(
            filename,
            relative_path,
            (total - 1) as nat,
        )]
    }
}

/// Every chunk index below `total` has its part present.
pub open spec fn all_parts_present(
    m: Map<Seq<char>, Seq<u8>>,
    filename: Seq<char>,
    relative_path: Option<Seq<char>>,
    total: nat,
) -> bool {
    forall|i: int| 0 <= i < total ==> m.contains_key(
        #[trigger] part_name(filename, relative_path, i as nat),
    )
}

/// The parts map with the chunks `0 .. upto` consumed.
pub open spec fn consumed_parts(
    m: Map<Seq<char>, Seq<u8>>,
    filename: Seq<char>,
    relative_path: Option<Seq<char>>,
    upto: nat,
) -> Map<Seq<char>, Seq<u8>>
    decreases upto,
{
    if upto == 0 {
        m
    } else {
        consumed_parts(m, filename, relative_path, (upto - 1) as nat).remove(part_name(
            filename,
            relative_path,
            (upto - 1) as nat,
        ))
    }
}

/// Distinct chunk indices always get distinct part names.
pub proof fn lemma_part_name_injective(
    filename: Seq<char>,
    relative_path: Option<Seq<char>>,
    i: nat,
    j: nat,
)
    requires
        i != j,
    ensures
        part_name(filename, relative_path, i) != part_name(filename, relative_path, j),
{
    crate::paths::lemma_part_name_round_trip(filename, relative_path, i);
    crate::paths::lemma_part_name_round_trip(filename, relative_path, j);
}

/// Consuming the first `upto` chunks leaves every later chunk's entry alone.
proof fn lemma_consumed_other(
    m: Map<Seq<char>, Seq<u8>>,
    filename: Seq<char>,
    relative_path: Option<Seq<char>>,
    upto: nat,
    i: nat,
)
    requires
        i >= upto,
    ensures
        consumed_parts(m, filename, relative_path, upto).contains_key(
            part_name(filename, relative_path, i),
        ) == m.contains_key(part_name(filename, relative_path, i)),
        m.contains_key(part_name(filename, relative_path, i)) ==> consumed_parts(
            m,
            filename,
            relative_path,
            upto,
        )[part_name(filename, relative_path, i)] == m[part_name(filename, relative_path, i)],
    decreases upto,
{
    if upto > 0 {
        lemma_consumed_other(m, filename, relative_path, (upto - 1) as nat, i);
        lemma_part_name_injective(filename, relative_path, (upto - 1) as nat, i);
    }
}

/// The in-memory model of the service's file areas: in-flight part files and
/// finished artifacts, each a write-once name-to-bytes association.
pub struct ChunkStore {
    parts: Vec<(String, Vec<u8>)>,
    artifacts: Vec<(String, Vec<u8>)>,
}

impl ChunkStore {
    /// Both areas keep at most one entry per name.
    pub closed spec fn wf(&self) -> bool {
        unique_keys(self.parts@) && unique_keys(self.artifacts@)
    }

    /// The temp area: part-file name to byte contents.
    pub closed spec fn parts_map(&self) -> Map<Seq<char>, Seq<u8>> {
        map_of(self.parts@)
    }

    /// The uploads area: final path to byte contents.
    pub closed spec fn artifacts_map(&self) -> Map<Seq<char>, Seq<u8>> {
        map_of(self.artifacts@)
    }

    pub fn new() -> (r: ChunkStore)
        ensures
            r.wf(),
            r.parts_map() == Map::<Seq<char>, Seq<u8>>::empty(),
            r.artifacts_map() == Map::<Seq<char>, Seq<u8>>::empty(),
    {
        ChunkStore { parts: Vec::new(), artifacts: Vec::new() }
    }

    /// Whether the part file of this name is present.
    pub fn has_part(&self, name: &str) -> (r: bool)
        ensures
            r == self.parts_map().contains_key(name@),
    {
        proof {
            lemma_map_of_contains(self.parts@, name@);
        }
        find_entry(&self.parts, name).is_some()
    }

    /// The byte contents of the part file of this name, if present.
    pub fn part_contents(&self, name: &str) -> (r: Option<&Vec<u8>>)
        requires
            self.wf(),
        ensures
            match r {
                Some(b) => self.parts_map().contains_key(name@) && b@ == self.parts_map()[name@],
                None => !self.parts_map().contains_key(name@),
            },
    {
        proof {
            lemma_map_of_contains(self.parts@, name@);
        }
        match find_entry(&self.parts, name) {
            Some(i) => {
                proof {
                    lemma_map_of_get(self.parts@, i as int);
                }
                Some(&self.parts[i].1)
            },
            None => None,
        }
    }

    /// The byte contents of the finished artifact at this path, if present.
    pub fn artifact_contents(&self, path: &str) -> (r: Option<&Vec<u8>>)
        requires
            self.wf(),
        ensures
            match r {
                Some(b) => self.artifacts_map().contains_key(path@) && b@ == self.artifacts_map()[
                    path@
                ],
                None => !self.artifacts_map().contains_key(path@),
            },
    {
        proof {
            lemma_map_of_contains(self.artifacts@, path@);
        }
        match find_entry(&self.artifacts, path) {
            Some(i) => {
                proof {
                    lemma_map_of_get(self.artifacts@, i as int);
                }
                Some(&self.artifacts[i].1)
            },
            None => None,
        }
    }

    /// Receives one chunk: stores the bytes under the part name unless a part
    /// file already stands there, in which case the retry is a no-op success.
    pub fn write_part(&mut self, name: &str, bytes: Vec<u8>) -> (fresh: bool)
        requires
            old(self).wf(),
        ensures
            final(self).wf(),
            fresh == !old(self).parts_map().contains_key(name@),
            final(self).parts_map() == written_parts(old(self).parts_map(), name@, bytes@),
            final(self).artifacts_map() == old(self).artifacts_map(),
    {
        proof {
            lemma_map_of_contains(self.parts@, name@);
        }
        match find_entry(&self.parts, name) {
            Some(_) => false,
            None => {
                let owned = name.to_owned();
                self.parts.push((owned, bytes));
                proof {
                    assert(self.parts@.drop_last() =~= old(self).parts@);
                }
                true
            },
        }
    }

    /// Assembles the artifact for a logical file from its chunks `0 ..
    /// total_chunks`, in index order, consuming each part as it goes. On
    /// success the complete artifact appears at the destination path in one
    /// step; a missing chunk aborts the merge with its index, leaving the
    /// uploads area untouched and the parts before it already consumed.
    pub fn merge_chunk_files(
        &mut self,
        module: &str,
        filename: &str,
        relative_path: &Option<String>,
        total_chunks: usize,
    ) -> (r: Result<usize, MergeError>)
        requires
            old(self).wf(),
        ensures
            final(self).wf(),
            match r {
                Ok(size) => {
                    &&& all_parts_present(
                        old(self).parts_map(),
                        filename@,
                        spec_rel(relative_path),
                        total_chunks as nat,
                    )
                    &&& final(self).artifacts_map() == old(self).artifacts_map().insert(
                        final_path(module@, filename@, spec_rel(relative_path)),
                        merged_bytes(
                            old(self).parts_map(),
                            filename@,
                            spec_rel(relative_path),
                            total_chunks as nat,
                        ),
                    )
                    &&& final(self).parts_map() == consumed_parts(
                        old(self).parts_map(),
                        filename@,
                        spec_rel(relative_path),
                        total_chunks as nat,
                    )
                    &&& size == merged_bytes(
                        old(self).parts_map(),
                        filename@,
                        spec_rel(relative_path),
                        total_chunks as nat,
                    ).len()
                },
                Err(MergeError::MissingChunk(i)) => {
                    &&& i < total_chunks
                    &&& !old(self).parts_map().contains_key(
                        part_name(filename@, spec_rel(relative_path), i as nat),
                    )
                    &&& forall|j: int| 0 <= j < i ==> old(self).parts_map().contains_key(
                        #[trigger] part_name(filename@, spec_rel(relative_path), j as nat),
                    )
                    &&& final(self).artifacts_map() == old(self).artifacts_map()
                    &&& final(self).parts_map() == consumed_parts(
                        old(self).parts_map(),
                        filename@,
                        spec_rel(relative_path),
                        i as nat,
                    )
                },
            },
    {
        let ghost m0 = old(self).parts_map();
        let ghost f = filename@;
        let ghost rp = spec_rel(relative_path);
        let mut merged: Vec<u8> = Vec::new();
        let mut i: usize = 0;
        while i < total_chunks
            invariant
                self.wf(),
                i <= total_chunks,
                m0 == old(self).parts_map(),
                f == filename@,
                rp == spec_rel(relative_path),
                self.artifacts@ == old(self).artifacts@,
                self.parts_map() == consumed_parts(m0, f, rp, i as nat),
                merged@ == merged_bytes(m0, f, rp, i as nat),
                forall|j: int| 0 <= j < i ==> m0.contains_key(
                    #[trigger] part_name(f, rp, j as nat),
                ),
            decreases total_chunks - i,
        {
            let name = part_file_name(filename, relative_path, i);
            proof {
                lemma_consumed_other(m0, f, rp, i as nat, i as nat);
                lemma_map_of_contains(self.parts@, name@);
            }
            match find_entry(&self.parts, name.as_str()) {
                None => {
                    return Err(MergeError::MissingChunk(i));
                },
                Some(idx) => {
                    proof {
                        lemma_map_of_get(self.parts@, idx as int);
                        lemma_map_of_remove(self.parts@, idx as int);
                        lemma_unique_remove(self.parts@, idx as int);
                    }
                    let entry = self.parts.remove(idx);
                    let mut bytes = entry.1;
                    merged.append(&mut bytes);
                },
            }
            i = i + 1;
        }
        let size = merged.len();
        let fpath = crate::paths::final_file_path(module, filename, relative_path);
        proof {
            lemma_map_of_contains(self.artifacts@, fpath@);
        }
        match find_entry(&self.artifacts, fpath.as_str()) {
            Some(idx) => {
                proof {
                    lemma_map_of_remove(self.artifacts@, idx as int);
                    lemma_unique_remove(self.artifacts@, idx as int);
                    lemma_map_of_contains(self.artifacts@.remove(idx as int), fpath@);
                }
                let _ = self.artifacts.remove(idx);
                self.artifacts.push((fpath, merged));
                proof {
                    assert(self.artifacts@.drop_last() =~= old(self).artifacts@.remove(idx as int));
                    assert(self.artifacts_map() =~= old(self).artifacts_map().insert(
                        final_path(module@, f, rp),
                        merged_bytes(m0, f, rp, total_chunks as nat),
                    ));
                }
            },
            None => {
                self.artifacts.push((fpath, merged));
                proof {
                    assert(self.artifacts@.drop_last() =~= old(self).artifacts@);
                }
            },
        }
        Ok(size)
    }
}

/// A chunk retry never changes what was first written: submitting the same
/// part name twice leaves exactly the state the first submission left.
pub proof fn lemma_chunk_write_idempotent(
    m: Map<Seq<char>, Seq<u8>>,
    name: Seq<char>,
    first: Seq<u8>,
    second: Seq<u8>,
)
    ensures
        written_parts(written_parts(m, name, first), name, second) == written_parts(m, name, first),
{
}

/// The order chunks arrive in does not matter: writing two different part
/// names in either order leaves the same parts map, so a later merge reads
/// the same bytes.
pub proof fn lemma_chunk_write_commutes(
    m: Map<Seq<char>, Seq<u8>>,
    name1: Seq<char>,
    bytes1: Seq<u8>,
    name2: Seq<char>,
    bytes2: Seq<u8>,
)
    requires
        name1 != name2,
    ensures
        written_parts(written_parts(m, name1, bytes1), name2, bytes2) == written_parts(
            written_parts(m, name2, bytes2),
            name1,
            bytes1,
        ),
{
    assert(written_parts(written_parts(m, name1, bytes1), name2, bytes2) =~= written_parts(
        written_parts(m, name2, bytes2),
        name1,
        bytes1,
    ));
}

} // verus!
