//! The two places the engine leans on outside crates: reading the clock and
//! drawing a fresh token. Everything computed from their results is verified
//! against the results as arguments.

use vstd::prelude::*;
use crate::models::FileInfo;
use crate::paths::{merge_temp_name, merge_temp_spec, spec_rel, upload_url_spec};
use crate::filetype::{file_type_of, lower_seq};
use crate::names::extension_spec;

verus! {

/// Relies on chrono's `Utc::now` and its `format`: the current UTC wall
/// time rendered as `YYYY-MM-DD HH:MM:SS`. The result depends on the clock,
/// so nothing is promised of it.
#[verifier::external_body]
pub(crate) fn now_timestamp() -> (r: String) {
    chrono::Utc::now().format("%Y-%m-%d %H:%M:%S").to_string()
}

/// Relies on `uuid::Uuid::new_v4` and its `Display`: a fresh random token
/// in the 36-character hyphenated form, made of hex digits and hyphens
/// only.
#[verifier::external_body]
pub(crate) fn fresh_token() -> (r: String)
    ensures
        r@.len() == 36,
        !r@.contains('/'),
        !r@.contains('\\'),
    {
    uuid::Uuid::new_v4().to_string()
}

/// Names the scratch file for a merge: the destination path, the scratch
/// marker, and a fresh 36-character token. The scratch name is never the
/// destination path itself.
pub fn fresh_merge_temp_name(final_path: &str) -> (r: String)
    ensures
        r@.len() == final_path@.len() + 41,
        r@.subrange(0, final_path@.len() as int) == final_path@,
        exists|token: Seq<char>|
            token.len() == 36 && r@ == #[trigger] merge_temp_spec(final_path@, token),
{
    let token = fresh_token();
    let r = merge_temp_name(final_path, token.as_str());
    proof {
        assert(r@.subrange(0, final_path@.len() as int) =~= final_path@);
        assert(r@ == merge_temp_spec(final_path@, token@));
    }
    r
}

/// Builds the metadata of a finished artifact stamped with the current
/// time: everything but the timestamp is pinned down.
pub fn file_info_now(
    module: &str,
    filename: &str,
    relative_path: &Option<String>,
    size: u64,
    file_hash: Option<String>,
) -> (r: FileInfo)
    ensures
        r.filename@ == filename@,
        r.url@ == upload_url_spec(module@, filename@, spec_rel(relative_path)),
        r.module@ == module@,
        r.size == size,
        r.file_type@ == file_type_of(lower_seq(extension_spec(filename@))),
        spec_rel(&r.relative_path) == spec_rel(relative_path),
        r.file_hash == file_hash,
{
    let upload_time = now_timestamp();
    crate::upload::make_file_info(module, filename, relative_path, size, upload_time, file_hash)
}

} // verus!
