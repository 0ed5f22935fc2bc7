//! The static file-extension to content-type lookup table, keyed by the
//! ASCII-lowercased suffix after the last dot of a file name.

use vstd::prelude::*;

use crate::bytes::{lower_bytes, to_ascii_lower, DOT};
use vstd::string::StringExecFns;
use vstd::string::StringSliceAdditionalSpecFns;

verus! {

/// Index of the last `.` in a name, or -1.
pub open spec fn rfind_dot(s: Seq<u8>) -> int
    decreases s.len(),
{
    if s.len() == 0 {
        -1
    } else if s.last() == DOT {
        s.len() - 1
    } else {
        rfind_dot(s.drop_last())
    }
}

/// The extension of a file name: what follows the last `.`, or the whole name
/// when there is none.
pub open spec fn ext_of(s: Seq<u8>) -> Seq<u8> {
    let d = rfind_dot(s);
    if d < 0 {
        s
    } else {
        s.subrange(d + 1, s.len() as int)
    }
}

pub proof fn lemma_rfind_dot_at(s: Seq<u8>, k: int)
    requires
        0 <= k < s.len(),
        s[k] == DOT,
        forall|j: int| k < j < s.len() ==> s[j] != DOT,
    ensures
        rfind_dot(s) == k,
    decreases s.len(),
{
    if k < s.len() - 1 {
        assert(s.last() != DOT);
        assert(forall|j: int| k < j < s.drop_last().len() ==> s.drop_last()[j] != DOT);
        lemma_rfind_dot_at(s.drop_last(), k);
    }
}

pub proof fn lemma_rfind_dot_none(s: Seq<u8>)
    requires
        forall|j: int| 0 <= j < s.len() ==> s[j] != DOT,
    ensures
        rfind_dot(s) == -1,
    decreases s.len(),
{
    if s.len() > 0 {
        lemma_rfind_dot_none(s.drop_last());
    }
}

/// The extension of a file name, ASCII-lowercased.
pub fn file_extension(name: &[u8]) -> (r: Vec<u8>)
    ensures
        r@ == lower_bytes(ext_of(name@)),
{
    let mut i: usize = name.len();
    while i > 0
        invariant
            i <= name@.len(),
            forall|j: int| i <= j < name@.len() ==> name@[j] != DOT,
        decreases i,
    {
        if name[i - 1] == DOT {
            proof {
                lemma_rfind_dot_at(name@, i - 1);
            }
            let ext = vstd::slice::slice_subrange(name, i, name.len());
            return to_ascii_lower(ext);
        }
        i -= 1;
    }
    proof {
        lemma_rfind_dot_none(name@);
    }
    to_ascii_lower(name)
}

/// The MIME type for a lowercased extension, `application/octet-stream` for
/// an unknown one.
pub open spec fn content_type_of(ext: Seq<u8>) -> Seq<char> {
    if ext == "html".spec_bytes() || ext == "htm".spec_bytes() {
        "text/html; charset=utf-8"@
    } else if ext == "txt".spec_bytes() {
        "text/plain; charset=utf-8"@
    } else if ext == "js".spec_bytes() {
        "application/javascript; charset=utf-8"@
    } else if ext == "css".spec_bytes() {
        "text/css; charset=utf-8"@
    } else if ext == "xml".spec_bytes() {
        "text/xml; charset=utf-8"@
    } else if ext == "csv".spec_bytes() {
        "text/csv; charset=utf-8"@
    } else if ext == "json".spec_bytes() {
        "application/json; charset=utf-8"@
    } else if ext == "png".spec_bytes() {
        "image/png"@
    } else if ext == "jpg".spec_bytes() || ext == "jpeg".spec_bytes() {
        "image/jpeg"@
    } else if ext == "gif".spec_bytes() {
        "image/gif"@
    } else if ext == "oga".spec_bytes() {
        "audio/ogg"@
    } else if ext == "ogv".spec_bytes() {
        "video/ogg"@
    } else if ext == "ogg".spec_bytes() || ext == "ogx".spec_bytes() {
        "application/ogg"@
    } else if ext == "pdf".spec_bytes() {
        "application/pdf"@
    } else if ext == "zip".spec_bytes() {
        "application/zip"@
    } else if ext == "mpeg".spec_bytes() {
        "video/mpeg"@
    } else if ext == "mp4".spec_bytes() {
        "video/mp4"@
    } else if ext == "wav".spec_bytes() {
        "audio/wav"@
    } else if ext == "weba".spec_bytes() {
        "audio/webm"@
    } else if ext == "webp".spec_bytes() {
        "image/webp"@
    } else if ext == "webm".spec_bytes() {
        "video/webm"@
    } else if ext == "aac".spec_bytes() {
        "audio/aac"@
    } else if ext == "abw".spec_bytes() {
        "application/x-abiword"@
    } else if ext == "arc".spec_bytes() {
        "application/x-freearc"@
    } else if ext == "7z".spec_bytes() {
        "application/x-7z-compressed"@
    } else if ext == "3g2".spec_bytes() {
        "video/3gpp2"@
    } else if ext == "3gp".spec_bytes() {
        "video/3gpp"@
    } else if ext == "xul".spec_bytes() {
        "application/vnd.mozilla.xul+xml"@
    } else if ext == "xlsx".spec_bytes() {
        "application/vnd.openxmlformats-officedocument.spreadsheetml.sheet"@
    } else if ext == "xls".spec_bytes() {
        "application/vnd.ms-excel"@
    } else if ext == "xhtml".spec_bytes() {
        "application/xhtml+xml"@
    } else if ext == "woff2".spec_bytes() {
        "font/woff2"@
    } else if ext == "woff".spec_bytes() {
        "font/woff"@
    } else if ext == "tar".spec_bytes() {
        "application/x-tar"@
    } else if ext == "tif".spec_bytes() || ext == "tiff".spec_bytes() {
        "image/tiff"@
    } else if ext == "ts".spec_bytes() {
        "video/mp2t"@
    } else if ext == "ttf".spec_bytes() {
        "font/ttf"@
    } else if ext == "php".spec_bytes() {
        "application/x-httpd-php"@
    } else if ext == "ppt".spec_bytes() {
        "application/vnd.ms-powerpoint"@
    } else if ext == "pptx".spec_bytes() {
        "application/vnd.openxmlformats-officedocument.presentationml.presentation"@
    } else if ext == "rar".spec_bytes() {
        "application/vnd.rar"@
    } else if ext == "rtf".spec_bytes() {
        "application/rtf"@
    } else if ext == "sh".spec_bytes() {
        "application/x-sh"@
    } else if ext == "svg".spec_bytes() {
        "image/svg+xml"@
    } else if ext == "vsd".spec_bytes() {
        "application/vnd.visio"@
    } else if ext == "mpkg".spec_bytes() {
        "application/vnd.apple.installer+xml"@
    } else if ext == "odp".spec_bytes() {
        "application/vnd.oasis.opendocument.presentation"@
    } else if ext == "ods".spec_bytes() {
        "application/vnd.oasis.opendocument.spreadsheet"@
    } else if ext == "odt".spec_bytes() {
        "application/vnd.oasis.opendocument.text"@
    } else if ext == "opus".spec_bytes() {
        "audio/opus"@
    } else if ext == "otf".spec_bytes() {
        "font/otf"@
    } else if ext == "jsonld".spec_bytes() {
        "application/ld+json"@
    } else if ext == "mid".spec_bytes() || ext == "midi".spec_bytes() {
        "audio/midi"@
    } else if ext == "mjs".spec_bytes() {
        "text/javascript"@
    } else if ext == "mp3".spec_bytes() {
        "audio/mpeg"@
    } else if ext == "doc".spec_bytes() {
        "application/msword"@
    } else if ext == "docx".spec_bytes() {
        "application/vnd.openxmlformats-officedocument.wordprocessingml.document"@
    } else if ext == "eot".spec_bytes() {
        "application/vnd.ms-fontobject"@
    } else if ext == "epub".spec_bytes() {
        "application/epub+zip"@
    } else if ext == "gz".spec_bytes() {
        "application/gzip"@
    } else if ext == "bmp".spec_bytes() {
        "image/bmp"@
    } else if ext == "bz".spec_bytes() {
        "application/x-bzip"@
    } else if ext == "bz2".spec_bytes() {
        "application/x-bzip2"@
    } else if ext == "cda".spec_bytes() {
        "application/x-cdf"@
    } else if ext == "csh".spec_bytes() {
        "application/x-csh"@
    } else if ext == "avif".spec_bytes() {
        "image/avif"@
    } else if ext == "avi".spec_bytes() {
        "video/x-msvideo"@
    } else if ext == "azw".spec_bytes() {
        "application/vnd.amazon.ebook"@
    } else {
        "application/octet-stream"@
    }
}

/// Look a lowercased extension up in the table.
#[verifier::rlimit(50)]
pub fn content_type_for(ext: &[u8]) -> (r: &'static str)
    ensures
        r@ == content_type_of(ext@),
{
    if crate::bytes::bytes_eq(ext, "html".as_bytes()) || crate::bytes::bytes_eq(
        ext,
        "htm".as_bytes(),
    ) {
        "text/html; charset=utf-8"
    } else if crate::bytes::bytes_eq(ext, "txt".as_bytes()) {
        "text/plain; charset=utf-8"
    } else if crate::bytes::bytes_eq(ext, "js".as_bytes()) {
        "application/javascript; charset=utf-8"
    } else if crate::bytes::bytes_eq(ext, "css".as_bytes()) {
        "text/css; charset=utf-8"
    } else if crate::bytes::bytes_eq(ext, "xml".as_bytes()) {
        "text/xml; charset=utf-8"
    } else if crate::bytes::bytes_eq(ext, "csv".as_bytes()) {
        "text/csv; charset=utf-8"
    } else if crate::bytes::bytes_eq(ext, "json".as_bytes()) {
        "application/json; charset=utf-8"
    } else if crate::bytes::bytes_eq(ext, "png".as_bytes()) {
        "image/png"
    } else if crate::bytes::bytes_eq(ext, "jpg".as_bytes()) || crate::bytes::bytes_eq(
        ext,
        "jpeg".as_bytes(),
    ) {
        "image/jpeg"
    } else if crate::bytes::bytes_eq(ext, "gif".as_bytes()) {
        "image/gif"
    } else if crate::bytes::bytes_eq(ext, "oga".as_bytes()) {
        "audio/ogg"
    } else if crate::bytes::bytes_eq(ext, "ogv".as_bytes()) {
        "video/ogg"
    } else if crate::bytes::bytes_eq(ext, "ogg".as_bytes()) || crate::bytes::bytes_eq(
        ext,
        "ogx".as_bytes(),
    ) {
        "application/ogg"
    } else if crate::bytes::bytes_eq(ext, "pdf".as_bytes()) {
        "application/pdf"
    } else if crate::bytes::bytes_eq(ext, "zip".as_bytes()) {
        "application/zip"
    } else if crate::bytes::bytes_eq(ext, "mpeg".as_bytes()) {
        "video/mpeg"
    } else if crate::bytes::bytes_eq(ext, "mp4".as_bytes()) {
        "video/mp4"
    } else if crate::bytes::bytes_eq(ext, "wav".as_bytes()) {
        "audio/wav"
    } else if crate::bytes::bytes_eq(ext, "weba".as_bytes()) {
        "audio/webm"
    } else if crate::bytes::bytes_eq(ext, "webp".as_bytes()) {
        "image/webp"
    } else if crate::bytes::bytes_eq(ext, "webm".as_bytes()) {
        "video/webm"
    } else if crate::bytes::bytes_eq(ext, "aac".as_bytes()) {
        "audio/aac"
    } else if crate::bytes::bytes_eq(ext, "abw".as_bytes()) {
        "application/x-abiword"
    } else if crate::bytes::bytes_eq(ext, "arc".as_bytes()) {
        "application/x-freearc"
    } else if crate::bytes::bytes_eq(ext, "7z".as_bytes()) {
        "application/x-7z-compressed"
    } else if crate::bytes::bytes_eq(ext, "3g2".as_bytes()) {
        "video/3gpp2"
    } else if crate::bytes::bytes_eq(ext, "3gp".as_bytes()) {
        "video/3gpp"
    } else if crate::bytes::bytes_eq(ext, "xul".as_bytes()) {
        "application/vnd.mozilla.xul+xml"
    } else if crate::bytes::bytes_eq(ext, "xlsx".as_bytes()) {
        "application/vnd.openxmlformats-officedocument.spreadsheetml.sheet"
    } else if crate::bytes::bytes_eq(ext, "xls".as_bytes()) {
        "application/vnd.ms-excel"
    } else if crate::bytes::bytes_eq(ext, "xhtml".as_bytes()) {
        "application/xhtml+xml"
    } else if crate::bytes::bytes_eq(ext, "woff2".as_bytes()) {
        "font/woff2"
    } else if crate::bytes::bytes_eq(ext, "woff".as_bytes()) {
        "font/woff"
    } else if crate::bytes::bytes_eq(ext, "tar".as_bytes()) {
        "application/x-tar"
    } else if crate::bytes::bytes_eq(ext, "tif".as_bytes()) || crate::bytes::bytes_eq(
        ext,
        "tiff".as_bytes(),
    ) {
        "image/tiff"
    } else if crate::bytes::bytes_eq(ext, "ts".as_bytes()) {
        "video/mp2t"
    } else if crate::bytes::bytes_eq(ext, "ttf".as_bytes()) {
        "font/ttf"
    } else if crate::bytes::bytes_eq(ext, "php".as_bytes()) {
        "application/x-httpd-php"
    } else if crate::bytes::bytes_eq(ext, "ppt".as_bytes()) {
        "application/vnd.ms-powerpoint"
    } else if crate::bytes::bytes_eq(ext, "pptx".as_bytes()) {
        "application/vnd.openxmlformats-officedocument.presentationml.presentation"
    } else if crate::bytes::bytes_eq(ext, "rar".as_bytes()) {
        "application/vnd.rar"
    } else if crate::bytes::bytes_eq(ext, "rtf".as_bytes()) {
        "application/rtf"
    } else if crate::bytes::bytes_eq(ext, "sh".as_bytes()) {
        "application/x-sh"
    } else if crate::bytes::bytes_eq(ext, "svg".as_bytes()) {
        "image/svg+xml"
    } else if crate::bytes::bytes_eq(ext, "vsd".as_bytes()) {
        "application/vnd.visio"
    } else if crate::bytes::bytes_eq(ext, "mpkg".as_bytes()) {
        "application/vnd.apple.installer+xml"
    } else if crate::bytes::bytes_eq(ext, "odp".as_bytes()) {
        "application/vnd.oasis.opendocument.presentation"
    } else if crate::bytes::bytes_eq(ext, "ods".as_bytes()) {
        "application/vnd.oasis.opendocument.spreadsheet"
    } else if crate::bytes::bytes_eq(ext, "odt".as_bytes()) {
        "application/vnd.oasis.opendocument.text"
    } else if crate::bytes::bytes_eq(ext, "opus".as_bytes()) {
        "audio/opus"
    } else if crate::bytes::bytes_eq(ext, "otf".as_bytes()) {
        "font/otf"
    } else if crate::bytes::bytes_eq(ext, "jsonld".as_bytes()) {
        "application/ld+json"
    } else if crate::bytes::bytes_eq(ext, "mid".as_bytes()) || crate::bytes::bytes_eq(
        ext,
        "midi".as_bytes(),
    ) {
        "audio/midi"
    } else if crate::bytes::bytes_eq(ext, "mjs".as_bytes()) {
        "text/javascript"
    } else if crate::bytes::bytes_eq(ext, "mp3".as_bytes()) {
        "audio/mpeg"
    } else if crate::bytes::bytes_eq(ext, "doc".as_bytes()) {
        "application/msword"
    } else if crate::bytes::bytes_eq(ext, "docx".as_bytes()) {
        "application/vnd.openxmlformats-officedocument.wordprocessingml.document"
    } else if crate::bytes::bytes_eq(ext, "eot".as_bytes()) {
        "application/vnd.ms-fontobject"
    } else if crate::bytes::bytes_eq(ext, "epub".as_bytes()) {
        "application/epub+zip"
    } else if crate::bytes::bytes_eq(ext, "gz".as_bytes()) {
        "application/gzip"
    } else if crate::bytes::bytes_eq(ext, "bmp".as_bytes()) {
        "image/bmp"
    } else if crate::bytes::bytes_eq(ext, "bz".as_bytes()) {
        "application/x-bzip"
    } else if crate::bytes::bytes_eq(ext, "bz2".as_bytes()) {
        "application/x-bzip2"
    } else if crate::bytes::bytes_eq(ext, "cda".as_bytes()) {
        "application/x-cdf"
    } else if crate::bytes::bytes_eq(ext, "csh".as_bytes()) {
        "application/x-csh"
    } else if crate::bytes::bytes_eq(ext, "avif".as_bytes()) {
        "image/avif"
    } else if crate::bytes::bytes_eq(ext, "avi".as_bytes()) {
        "video/x-msvideo"
    } else if crate::bytes::bytes_eq(ext, "azw".as_bytes()) {
        "application/vnd.amazon.ebook"
    } else {
        "application/octet-stream"
    }
}

/// The content type for a file name: the table entry for its lowercased
/// extension.
pub fn file_content_type(filename: &str) -> (r: String)
    ensures
        r@ == content_type_of(lower_bytes(ext_of(filename.spec_bytes()))),
{
    let ext = file_extension(filename.as_bytes());
    String::from_str(content_type_for(ext.as_slice()))
}

} // verus!
