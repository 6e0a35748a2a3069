//! Classification of uploads by filename extension. Extensions are lowered
//! letter by letter (ASCII) before they are compared against the accepted
//! set.

use vstd::prelude::*;
use crate::text::{chars_to_string, str_eq, str_to_chars};

verus! {

/// An ASCII capital letter lowered; any other character kept.
pub open spec fn lower_char(c: char) -> char {
    if c == 'A' {
        'a'
    } else if c == 'B' {
        'b'
    } else if c == 'C' {
        'c'
    } else if c == 'D' {
        'd'
    } else if c == 'E' {
        'e'
    } else if c == 'F' {
        'f'
    } else if c == 'G' {
        'g'
    } else if c == 'H' {
        'h'
    } else if c == 'I' {
        'i'
    } else if c == 'J' {
        'j'
    } else if c == 'K' {
        'k'
    } else if c == 'L' {
        'l'
    } else if c == 'M' {
        'm'
    } else if c == 'N' {
        'n'
    } else if c == 'O' {
        'o'
    } else if c == 'P' {
        'p'
    } else if c == 'Q' {
        'q'
    } else if c == 'R' {
        'r'
    } else if c == 'S' {
        's'
    } else if c == 'T' {
        't'
    } else if c == 'U' {
        'u'
    } else if c == 'V' {
        'v'
    } else if c == 'W' {
        'w'
    } else if c == 'X' {
        'x'
    } else if c == 'Y' {
        'y'
    } else if c == 'Z' {
        'z'
    } else {
        c
    }
}

/// The string lowered character by character.
pub open spec fn lower_seq(s: Seq<char>) -> Seq<char> {
    Seq::new(s.len(), |i: int| lower_char(s[i]))
}

fn lower_char_of(c: char) -> (r: char)
    ensures
        r == lower_char(c),
{
    match c {
        'A' => 'a',
        'B' => 'b',
        'C' => 'c',
        'D' => 'd',
        'E' => 'e',
        'F' => 'f',
        'G' => 'g',
        'H' => 'h',
        'I' => 'i',
        'J' => 'j',
        'K' => 'k',
        'L' => 'l',
        'M' => 'm',
        'N' => 'n',
        'O' => 'o',
        'P' => 'p',
        'Q' => 'q',
        'R' => 'r',
        'S' => 's',
        'T' => 't',
        'U' => 'u',
        'V' => 'v',
        'W' => 'w',
        'X' => 'x',
        'Y' => 'y',
        'Z' => 'z',
        _ => c,
    }
}

/// Lowers ASCII capitals, leaving every other character alone.
pub fn to_lowercase_ascii(s: &str) -> (r: String)
    ensures
        r@ == lower_seq(s@),
{
    let cs = str_to_chars(s);
    let mut out: Vec<char> = Vec::new();
    let mut i: usize = 0;
    while i < cs.len()
        invariant
            cs@ == s@,
            i <= cs@.len(),
            out@ == lower_seq(s@).subrange(0, i as int),
        decreases cs@.len() - i,
    {
        out.push(lower_char_of(cs[i]));
        proof {
            assert(out@ =~= lower_seq(s@).subrange(0, i + 1));
        }
        i = i + 1;
    }
    proof {
        assert(out@ =~= lower_seq(s@));
    }
    chars_to_string(&out)
}

/// Extensions classified as images.
pub open spec fn image_ext(s: Seq<char>) -> bool {
    ||| s == "jpg"@
    ||| s == "jpeg"@
    ||| s == "png"@
    ||| s == "gif"@
    ||| s == "webp"@
    ||| s == "bmp"@
    ||| s == "svg"@
    ||| s == "ico"@
}

/// Extensions classified as archives.
pub open spec fn archive_ext(s: Seq<char>) -> bool {
    ||| s == "zip"@
    ||| s == "rar"@
    ||| s == "7z"@
    ||| s == "tar"@
    ||| s == "gz"@
}

/// Extensions classified as documents.
pub open spec fn document_ext(s: Seq<char>) -> bool {
    ||| s == "pdf"@
    ||| s == "doc"@
    ||| s == "docx"@
    ||| s == "txt"@
    ||| s == "md"@
    ||| s == "json"@
    ||| s == "xml"@
    ||| s == "csv"@
    ||| s == "xls"@
    ||| s == "xlsx"@
    ||| s == "ppt"@
    ||| s == "pptx"@
}

/// Extensions classified as videos.
pub open spec fn video_ext(s: Seq<char>) -> bool {
    ||| s == "mp4"@
    ||| s == "avi"@
    ||| s == "mov"@
    ||| s == "wmv"@
    ||| s == "flv"@
    ||| s == "mkv"@
}

/// Extensions classified as audio.
pub open spec fn audio_ext(s: Seq<char>) -> bool {
    ||| s == "mp3"@
    ||| s == "wav"@
    ||| s == "ogg"@
    ||| s == "flac"@
}

/// The extensions the service accepts at all.
pub open spec fn accepted_ext(s: Seq<char>) -> bool {
    image_ext(s) || archive_ext(s) || document_ext(s) || video_ext(s) || audio_ext(s)
}

/// The category name an extension is filed under.
pub open spec fn file_type_of(s: Seq<char>) -> Seq<char> {
    if image_ext(s) {
        "image"@
    } else if archive_ext(s) {
        "archive"@
    } else if document_ext(s) {
        "document"@
    } else if video_ext(s) {
        "video"@
    } else if audio_ext(s) {
        "audio"@
    } else {
        "other"@
    }
}

fn is_image(low: &str) -> (r: bool)
    ensures
        r == image_ext(low@),
{
    str_eq(low, "jpg") || str_eq(low, "jpeg") || str_eq(low, "png") || str_eq(low, "gif")
        || str_eq(low, "webp") || str_eq(low, "bmp") || str_eq(low, "svg") || str_eq(low, "ico")
}

fn is_archive(low: &str) -> (r: bool)
    ensures
        r == archive_ext(low@),
{
    str_eq(low, "zip") || str_eq(low, "rar") || str_eq(low, "7z") || str_eq(low, "tar") || str_eq(
        low,
        "gz",
    )
}

fn is_document(low: &str) -> (r: bool)
    ensures
        r == document_ext(low@),
{
    str_eq(low, "pdf") || str_eq(low, "doc") || str_eq(low, "docx") || str_eq(low, "txt")
        || str_eq(low, "md") || str_eq(low, "json") || str_eq(low, "xml") || str_eq(low, "csv")
        || str_eq(low, "xls") || str_eq(low, "xlsx") || str_eq(low, "ppt") || str_eq(low, "pptx")
}

fn is_video(low: &str) -> (r: bool)
    ensures
        r == video_ext(low@),
{
    str_eq(low, "mp4") || str_eq(low, "avi") || str_eq(low, "mov") || str_eq(low, "wmv") || str_eq(
        low,
        "flv",
    ) || str_eq(low, "mkv")
}

fn is_audio(low: &str) -> (r: bool)
    ensures
        r == audio_ext(low@),
{
    str_eq(low, "mp3") || str_eq(low, "wav") || str_eq(low, "ogg") || str_eq(low, "flac")
}

/// Whether an upload with this extension is accepted at all.
pub fn is_valid_file_extension(ext: &str) -> (r: bool)
    ensures
        r == accepted_ext(lower_seq(ext@)),
{
    let low = to_lowercase_ascii(ext);
    is_image(low.as_str()) || is_archive(low.as_str()) || is_document(low.as_str()) || is_video(
        low.as_str(),
    ) || is_audio(low.as_str())
}

/// The category name for an extension: `image`, `archive`, `document`,
/// `video`, `audio`, or `other`.
pub fn get_file_type(ext: &str) -> (r: String)
    ensures
        r@ == file_type_of(lower_seq(ext@)),
{
    let low = to_lowercase_ascii(ext);
    if is_image(low.as_str()) {
        "image".to_owned()
    } else if is_archive(low.as_str()) {
        "archive".to_owned()
    } else if is_document(low.as_str()) {
        "document".to_owned()
    } else if is_video(low.as_str()) {
        "video".to_owned()
    } else if is_audio(low.as_str()) {
        "audio".to_owned()
    } else {
        "other".to_owned()
    }
}

} // verus!
