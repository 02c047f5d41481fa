use crate::strutil::{ascii_lowercase, lower_ascii, str_eq};
use vstd::prelude::*;

verus! {

/// The presentation icon for a file extension, chosen case-insensitively.
pub open spec fn icon_of(ext: Seq<char>) -> Seq<char> {
    let e = lower_ascii(ext);
    if e == "pdf"@ {
        "📄"@
    } else if e == "doc"@ || e == "docx"@ {
        "📝"@
    } else if e == "txt"@ {
        "📃"@
    } else if e == "jpg"@ || e == "jpeg"@ || e == "png"@ || e == "gif"@ || e == "bmp"@ || e
        == "svg"@ {
        "🖼️"@
    } else if e == "mp4"@ || e == "avi"@ || e == "mov"@ || e == "mkv"@ || e == "flv"@ {
        "🎬"@
    } else if e == "mp3"@ || e == "wav"@ || e == "flac"@ || e == "m4a"@ {
        "🎵"@
    } else if e == "zip"@ || e == "rar"@ || e == "7z"@ || e == "tar"@ || e == "gz"@ {
        "📦"@
    } else if e == "exe"@ || e == "msi"@ {
        "⚙️"@
    } else if e == "html"@ || e == "css"@ || e == "js"@ || e == "json"@ {
        "💻"@
    } else if e == "ppt"@ || e == "pptx"@ {
        "📊"@
    } else if e == "xls"@ || e == "xlsx"@ {
        "📈"@
    } else {
        "📁"@
    }
}

/// The icon shown beside a vaulted file, from its extension field.
pub fn get_file_icon(extension: &str) -> (r: &'static str)
    ensures
        r@ == icon_of(extension@),
{
    let low = ascii_lowercase(extension);
    let e = low.as_str();
    if str_eq(e, "pdf") {
        "📄"
    } else if str_eq(e, "doc") || str_eq(e, "docx") {
        "📝"
    } else if str_eq(e, "txt") {
        "📃"
    } else if str_eq(e, "jpg") || str_eq(e, "jpeg") || str_eq(e, "png") || str_eq(e, "gif")
        || str_eq(e, "bmp") || str_eq(e, "svg") {
        "🖼️"
    } else if str_eq(e, "mp4") || str_eq(e, "avi") || str_eq(e, "mov") || str_eq(e, "mkv")
        || str_eq(e, "flv") {
        "🎬"
    } else if str_eq(e, "mp3") || str_eq(e, "wav") || str_eq(e, "flac") || str_eq(e, "m4a") {
        "🎵"
    } else if str_eq(e, "zip") || str_eq(e, "rar") || str_eq(e, "7z") || str_eq(e, "tar")
        || str_eq(e, "gz") {
        "📦"
    } else if str_eq(e, "exe") || str_eq(e, "msi") {
        "⚙️"
    } else if str_eq(e, "html") || str_eq(e, "css") || str_eq(e, "js") || str_eq(e, "json") {
        "💻"
    } else if str_eq(e, "ppt") || str_eq(e, "pptx") {
        "📊"
    } else if str_eq(e, "xls") || str_eq(e, "xlsx") {
        "📈"
    } else {
        "📁"
    }
}

} // verus!
