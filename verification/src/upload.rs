//! The chunk receiver's decisions and the metadata built for finished
//! uploads: what to reject before any filesystem work, where a chunk's part
//! file goes, what to answer the client, and the `FileInfo` describing a
//! finished artifact.

use vstd::prelude::*;
use crate::models::{ChunkUploadResponse, FileInfo, UploadProgress};
use crate::filetype::{file_type_of, get_file_type, lower_seq};
use crate::names::extension_spec;
use crate::paths::{part_file_name, part_name, spec_rel, upload_url, upload_url_spec};
use crate::validation::{is_valid_filename, valid_filename};

verus! {

/// Why a chunk submission was refused before any filesystem work.
#[derive(Debug, Clone, Copy, PartialEq, Eq, Structural)]
pub enum ChunkRejection {
    /// The filename carries a traversal marker or an empty segment.
    InvalidFilename,
    /// The relative path carries a traversal marker or an empty segment.
    InvalidRelativePath,
    /// The declared total size exceeds the configured maximum.
    FileTooLarge,
}

/// Where one chunk is to be written.
#[derive(Debug)]
pub struct ChunkPlan {
    /// The module's temp directory.
    pub temp_dir: String,
    /// The part file's name inside the temp directory.
    pub part_name: String,
    /// The part file's full path.
    pub part_path: String,
}

/// The index the client should send next, if any chunk is left.
pub open spec fn next_chunk_spec(chunk_number: nat, total_chunks: nat) -> Option<usize> {
    if chunk_number + 1 < total_chunks {
        Some((chunk_number + 1) as usize)
    } else {
        None
    }
}

/// Validates one chunk submission and computes where its part file goes.
/// The filename is checked against traversal first; then the declared total
/// size, when one was sent, is checked against the configured maximum.
/// Nothing is planned for a rejected chunk.
pub fn plan_chunk_upload(
    module: &str,
    filename: &str,
    relative_path: &Option<String>,
    chunk_number: usize,
    declared_total_size: Option<u64>,
    max_file_size: u64,
) -> (r: Result<ChunkPlan, ChunkRejection>)
    ensures
        match r {
            Err(ChunkRejection::InvalidFilename) => !valid_filename(filename@),
            Err(ChunkRejection::InvalidRelativePath) => valid_filename(filename@) && match spec_rel(
                relative_path,
            ) {
                Some(rel) => !crate::validation::valid_path(rel),
                None => false,
            },
            Err(ChunkRejection::FileTooLarge) => {
                &&& valid_filename(filename@)
                &&& match spec_rel(relative_path) {
                    Some(rel) => crate::validation::valid_path(rel),
                    None => true,
                }
                &&& match declared_total_size {
                    Some(sz) => sz > max_file_size,
                    None => false,
                }
            },
            Ok(plan) => {
                &&& valid_filename(filename@)
                &&& match spec_rel(relative_path) {
                    Some(rel) => crate::validation::valid_path(rel),
                    None => true,
                }
                &&& match declared_total_size {
                    Some(sz) => sz <= max_file_size,
                    None => true,
                }
                &&& plan.temp_dir@ == "./temp/"@ + module@
                &&& plan.part_name@ == part_name(
                    filename@,
                    spec_rel(relative_path),
                    chunk_number as nat,
                )
                &&& plan.part_path@ == "./temp/"@ + module@ + seq!['/'] + part_name(
                    filename@,
                    spec_rel(relative_path),
                    chunk_number as nat,
                )
            },
        },
{
    if !is_valid_filename(filename) {
        return Err(ChunkRejection::InvalidFilename);
    }
    if let Some(rel) = relative_path {
        if !crate::validation::is_valid_path(rel.as_str()) {
            return Err(ChunkRejection::InvalidRelativePath);
        }
    }
    if let Some(sz) = declared_total_size {
        if sz > max_file_size {
            return Err(ChunkRejection::FileTooLarge);
        }
    }
    let temp_dir = crate::paths::temp_dir_for(module);
    let pname = part_file_name(filename, relative_path, chunk_number);
    let mut part_path = temp_dir.clone();
    part_path.append("/");
    part_path.append(pname.as_str());
    proof {
        reveal_strlit("/");
        assert("/"@ =~= seq!['/']);
        assert(part_path@ =~= "./temp/"@ + module@ + seq!['/'] + part_name(
            filename@,
            spec_rel(relative_path),
            chunk_number as nat,
        ));
    }
    Ok(ChunkPlan { temp_dir, part_name: pname, part_path })
}

/// The answer when the part file already stands on disk: a no-op success
/// that simply points the client at the next index.
pub fn chunk_exists_response(filename: &str, chunk_number: usize, total_chunks: usize) -> (r:
    ChunkUploadResponse)
    requires
        chunk_number < usize::MAX,
    ensures
        r.success,
        r.message@ == "chunk already exists"@,
        r.chunk_number == chunk_number,
        r.total_chunks == total_chunks,
        r.filename@ == filename@,
        r.next_chunk == Some((chunk_number + 1) as usize),
{
    ChunkUploadResponse {
        success: true,
        message: "chunk already exists".to_owned(),
        chunk_number,
        total_chunks,
        filename: filename.to_owned(),
        next_chunk: Some(chunk_number + 1),
    }
}

/// The answer after a chunk was newly written: success, with the next index
/// to send, or none when this was the last chunk.
pub fn chunk_written_response(filename: &str, chunk_number: usize, total_chunks: usize) -> (r:
    ChunkUploadResponse)
    requires
        chunk_number < usize::MAX,
    ensures
        r.success,
        r.message@ == "chunk uploaded"@,
        r.chunk_number == chunk_number,
        r.total_chunks == total_chunks,
        r.filename@ == filename@,
        r.next_chunk == next_chunk_spec(chunk_number as nat, total_chunks as nat),
{
    let next = if chunk_number < total_chunks && total_chunks - chunk_number > 1 {
        Some(chunk_number + 1)
    } else {
        None
    };
    ChunkUploadResponse {
        success: true,
        message: "chunk uploaded".to_owned(),
        chunk_number,
        total_chunks,
        filename: filename.to_owned(),
        next_chunk: next,
    }
}

/// Builds the metadata of a finished artifact: its serving URL, its size,
/// and its category derived from the filename's extension.
pub fn make_file_info(
    module: &str,
    filename: &str,
    relative_path: &Option<String>,
    size: u64,
    upload_time: String,
    file_hash: Option<String>,
) -> (r: FileInfo)
    ensures
        r.filename@ == filename@,
        r.url@ == upload_url_spec(module@, filename@, spec_rel(relative_path)),
        r.module@ == module@,
        r.upload_time == upload_time,
        r.size == size,
        r.file_type@ == file_type_of(lower_seq(extension_spec(filename@))),
        spec_rel(&r.relative_path) == spec_rel(relative_path),
        r.file_hash == file_hash,
{
    let url = upload_url(module, filename, relative_path);
    let ext = crate::names::extension_of(filename);
    let file_type = get_file_type(ext.as_str());
    let relative_path_copy = match relative_path {
        Some(s) => Some(s.clone()),
        None => None,
    };
    FileInfo {
        filename: filename.to_owned(),
        url,
        module: module.to_owned(),
        upload_time,
        size,
        file_type,
        relative_path: relative_path_copy,
        file_hash,
    }
}

/// A sum that stops at the ceiling instead of wrapping.
pub open spec fn sat_add_u64(a: u64, b: u64) -> u64 {
    if a + b <= u64::MAX {
        (a + b) as u64
    } else {
        u64::MAX
    }
}

/// A count bumped by one, stopping at the ceiling.
pub open spec fn sat_inc_usize(a: usize) -> usize {
    if a < usize::MAX {
        (a + 1) as usize
    } else {
        usize::MAX
    }
}

/// The progress snapshot after one more chunk landed: counts and sizes
/// accumulate from the previous snapshot (or start fresh), the rate is the
/// bytes uploaded over the seconds elapsed (at least one), and the estimate
/// is the bytes still missing over that rate.
pub fn progress_after_chunk(
    prev: Option<&UploadProgress>,
    module: &str,
    filename: &str,
    total_chunks: usize,
    total_size: u64,
    chunk_bytes: u64,
    elapsed_secs: u64,
) -> (r: UploadProgress)
    ensures
        r.filename@ == filename@,
        r.module@ == module@,
        r.total_chunks == total_chunks,
        r.total_size == total_size,
        r.uploaded_chunks == match prev {
            Some(p) => sat_inc_usize(p.uploaded_chunks),
            None => 1usize,
        },
        r.uploaded_size == match prev {
            Some(p) => sat_add_u64(p.uploaded_size, chunk_bytes),
            None => chunk_bytes,
        },
        r.speed == r.uploaded_size / (if elapsed_secs == 0 {
            1u64
        } else {
            elapsed_secs
        }),
        r.estimated_time == (if r.speed == 0 {
            0u64
        } else {
            (if r.uploaded_size <= total_size {
                ((total_size - r.uploaded_size) as u64) / r.speed
            } else {
                0u64
            })
        }),
{
    let uploaded_chunks: usize = match prev {
        Some(p) => {
            if p.uploaded_chunks < usize::MAX {
                p.uploaded_chunks + 1
            } else {
                usize::MAX
            }
        },
        None => 1,
    };
    let uploaded_size: u64 = match prev {
        Some(p) => {
            if p.uploaded_size <= u64::MAX - chunk_bytes {
                p.uploaded_size + chunk_bytes
            } else {
                u64::MAX
            }
        },
        None => chunk_bytes,
    };
    let divisor = if elapsed_secs == 0 {
        1
    } else {
        elapsed_secs
    };
    let speed = uploaded_size / divisor;
    let estimated_time = if speed == 0 {
        0
    } else if uploaded_size <= total_size {
        (total_size - uploaded_size) / speed
    } else {
        0
    };
    UploadProgress {
        filename: filename.to_owned(),
        module: module.to_owned(),
        uploaded_chunks,
        total_chunks,
        total_size,
        uploaded_size,
        speed,
        estimated_time,
    }
}

/// The outcome of one whole-file upload: its metadata, or nothing for an
/// empty body, which the service skips.
pub fn file_upload_outcome(
    module: &str,
    filename: &str,
    relative_path: &Option<String>,
    size: u64,
    upload_time: String,
    file_hash: Option<String>,
) -> (r: Option<FileInfo>)
    ensures
        (r is None) == (size == 0),
        match r {
            Some(info) => {
                &&& info.filename@ == filename@
                &&& info.url@ == upload_url_spec(module@, filename@, spec_rel(relative_path))
                &&& info.module@ == module@
                &&& info.upload_time == upload_time
                &&& info.size == size
                &&& info.file_type@ == file_type_of(lower_seq(extension_spec(filename@)))
                &&& spec_rel(&info.relative_path) == spec_rel(relative_path)
                &&& info.file_hash == file_hash
            },
            None => true,
        },
{
    if size == 0 {
        None
    } else {
        Some(make_file_info(module, filename, relative_path, size, upload_time, file_hash))
    }
}

} // verus!
