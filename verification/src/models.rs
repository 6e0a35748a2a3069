//! The data carried across the upload API: requests, responses, and the
//! metadata of finished artifacts. Transfer rates and time estimates are
//! kept as whole numbers (bytes per second, whole seconds).

use vstd::prelude::*;

verus! {

/// A module: one top-level namespace of uploaded files.
#[derive(Debug, Clone)]
pub struct Module {
    pub name: String,
}

/// The uniform envelope every endpoint answers with.
#[derive(Debug)]
pub struct ApiResponse<T> {
    pub success: bool,
    pub message: String,
    pub data: Option<T>,
}

/// Metadata of one finished artifact.
#[derive(Debug, Clone)]
pub struct FileInfo {
    pub filename: String,
    pub url: String,
    pub module: String,
    pub upload_time: String,
    pub size: u64,
    pub file_type: String,
    pub relative_path: Option<String>,
    pub file_hash: Option<String>,
}

/// Summary of one module's contents.
#[derive(Debug, Clone)]
pub struct ModuleInfo {
    pub name: String,
    pub file_count: usize,
    pub created_time: String,
    pub total_size: u64,
}

/// A request to merge the chunks of one logical file.
#[derive(Debug, Clone)]
pub struct ChunkUploadRequest {
    pub chunk_number: usize,
    pub total_chunks: usize,
    pub filename: String,
    pub module: String,
    pub chunk_size: usize,
    pub relative_path: Option<String>,
    pub file_hash: Option<String>,
    pub chunk_hash: Option<String>,
}

/// The answer to one chunk submission.
#[derive(Debug, Clone)]
pub struct ChunkUploadResponse {
    pub success: bool,
    pub message: String,
    pub chunk_number: usize,
    pub total_chunks: usize,
    pub filename: String,
    pub next_chunk: Option<usize>,
}

/// A request to upload a whole folder.
#[derive(Debug, Clone)]
pub struct FolderUploadRequest {
    pub module: String,
    pub folder_name: String,
    pub files: Vec<FolderFileInfo>,
}

/// One file inside a folder upload.
#[derive(Debug, Clone)]
pub struct FolderFileInfo {
    pub filename: String,
    pub relative_path: String,
    pub size: u64,
    pub file_type: String,
    pub file_hash: Option<String>,
}

/// A snapshot of one in-flight transfer.
#[derive(Debug, Clone)]
pub struct UploadProgress {
    pub filename: String,
    pub module: String,
    pub uploaded_chunks: usize,
    pub total_chunks: usize,
    pub total_size: u64,
    pub uploaded_size: u64,
    /// Transfer rate in bytes per second.
    pub speed: u64,
    /// Estimated remaining time in whole seconds.
    pub estimated_time: u64,
}

/// A request asking whether a file can be skipped or resumed.
#[derive(Debug, Clone)]
pub struct ResumeUploadRequest {
    pub filename: String,
    pub module: String,
    pub file_hash: String,
    pub total_size: u64,
}

/// A request to create a submodule directory.
#[derive(Debug, Clone)]
pub struct CreateSubmoduleRequest {
    pub name: String,
}

} // verus!
