//! What a message's media is called, how large it is and of what kind.

use vstd::prelude::*;

use super::models::{
    Document, DocumentAttribute, DocumentData, Message, MessageData, MessageMedia, PageData, Photo,
    PhotoSize, WebPage,
};
use crate::text::{
    all_ascii, ascii_lower, begins_with, blank_text, chars_of, copy_opt, find_char, is_blank,
    joined, joined3, last_pos, lemma_last_pos, lemma_second_part, lower_text, opt_str, opt_text,
    pos_of, same_text, second_part, signed_decimal, signed_text, starts_with_text, text_of,
};

verus! {

// ------------------------------------------------------------ file extensions

/// The extension that a MIME subtype stands for, where the whole type is not known.
pub open spec fn subtype_ext(sub: Seq<char>) -> Seq<char> {
    if sub == "mp4"@ {
        ".mp4"@
    } else if sub == "mpeg"@ {
        ".mpeg"@
    } else if sub == "ogg"@ {
        ".ogg"@
    } else if sub == "webm"@ {
        ".webm"@
    } else if sub == "flac"@ {
        ".flac"@
    } else if sub == "wav"@ {
        ".wav"@
    } else if sub == "jpeg"@ {
        ".jpg"@
    } else if sub == "png"@ {
        ".png"@
    } else if sub == "gif"@ {
        ".gif"@
    } else {
        ""@
    }
}

/// The extension that a MIME type stands for; empty where none is known.
pub open spec fn mime_ext(mime: Seq<char>) -> Seq<char> {
    if mime == "video/mp4"@ {
        ".mp4"@
    } else if mime == "video/x-matroska"@ {
        ".mkv"@
    } else if mime == "video/webm"@ {
        ".webm"@
    } else if mime == "video/quicktime"@ {
        ".mov"@
    } else if mime == "video/x-msvideo"@ {
        ".avi"@
    } else if mime == "video/mpeg"@ {
        ".mpeg"@
    } else if mime == "video/3gpp"@ {
        ".3gp"@
    } else if mime == "video/x-flv"@ {
        ".flv"@
    } else if mime == "audio/mpeg"@ || mime == "audio/mp3"@ {
        ".mp3"@
    } else if mime == "audio/ogg"@ {
        ".ogg"@
    } else if mime == "audio/x-opus+ogg"@ {
        ".opus"@
    } else if mime == "audio/flac"@ || mime == "audio/x-flac"@ {
        ".flac"@
    } else if mime == "audio/x-wav"@ || mime == "audio/wav"@ {
        ".wav"@
    } else if mime == "audio/aac"@ || mime == "audio/x-aac"@ {
        ".aac"@
    } else if mime == "audio/mp4"@ || mime == "audio/x-m4a"@ {
        ".m4a"@
    } else if mime == "audio/x-ms-wma"@ {
        ".wma"@
    } else if mime == "image/jpeg"@ {
        ".jpg"@
    } else if mime == "image/png"@ {
        ".png"@
    } else if mime == "image/gif"@ {
        ".gif"@
    } else if mime == "image/webp"@ {
        ".webp"@
    } else if mime == "image/bmp"@ {
        ".bmp"@
    } else if mime == "image/svg+xml"@ {
        ".svg"@
    } else if mime == "image/tiff"@ {
        ".tiff"@
    } else if mime == "application/pdf"@ {
        ".pdf"@
    } else if mime == "application/zip"@ {
        ".zip"@
    } else if mime == "application/x-rar-compressed"@ || mime == "application/vnd.rar"@ {
        ".rar"@
    } else if mime == "application/x-7z-compressed"@ {
        ".7z"@
    } else if mime == "application/gzip"@ || mime == "application/x-gzip"@ {
        ".gz"@
    } else if mime == "application/x-tar"@ {
        ".tar"@
    } else if mime == "application/json"@ {
        ".json"@
    } else if mime == "application/xml"@ || mime == "text/xml"@ {
        ".xml"@
    } else if mime == "text/plain"@ {
        ".txt"@
    } else if mime == "text/html"@ {
        ".html"@
    } else if mime == "text/csv"@ {
        ".csv"@
    } else if mime == "application/vnd.openxmlformats-officedocument.wordprocessingml.document"@ {
        ".docx"@
    } else if mime == "application/vnd.openxmlformats-officedocument.spreadsheetml.sheet"@ {
        ".xlsx"@
    } else if mime == "application/vnd.openxmlformats-officedocument.presentationml.presentation"@ {
        ".pptx"@
    } else if mime == "application/msword"@ {
        ".doc"@
    } else if mime == "application/vnd.ms-excel"@ {
        ".xls"@
    } else if mime == "application/vnd.ms-powerpoint"@ {
        ".ppt"@
    } else if mime == "application/x-python-script"@ || mime == "text/x-python"@ {
        ".py"@
    } else if mime == "application/javascript"@ || mime == "text/javascript"@ {
        ".js"@
    } else {
        match second_part(mime, '/') {
            Some(sub) => subtype_ext(sub),
            None => ""@,
        }
    }
}

fn subtype_to_ext(sub: &str) -> (r: &'static str)
    ensures
        r@ == subtype_ext(sub@),
{
    if same_text(sub, "mp4") {
        return ".mp4";
    }
    if same_text(sub, "mpeg") {
        return ".mpeg";
    }
    if same_text(sub, "ogg") {
        return ".ogg";
    }
    if same_text(sub, "webm") {
        return ".webm";
    }
    if same_text(sub, "flac") {
        return ".flac";
    }
    if same_text(sub, "wav") {
        return ".wav";
    }
    if same_text(sub, "jpeg") {
        return ".jpg";
    }
    if same_text(sub, "png") {
        return ".png";
    }
    if same_text(sub, "gif") {
        return ".gif";
    }
    ""
}

/// The extension for a MIME type, with its dot.
pub fn mime_to_ext(mime: &str) -> (r: &'static str)
    ensures
        r@ == mime_ext(mime@),
{
    if same_text(mime, "video/mp4") {
        return ".mp4";
    }
    if same_text(mime, "video/x-matroska") {
        return ".mkv";
    }
    if same_text(mime, "video/webm") {
        return ".webm";
    }
    if same_text(mime, "video/quicktime") {
        return ".mov";
    }
    if same_text(mime, "video/x-msvideo") {
        return ".avi";
    }
    if same_text(mime, "video/mpeg") {
        return ".mpeg";
    }
    if same_text(mime, "video/3gpp") {
        return ".3gp";
    }
    if same_text(mime, "video/x-flv") {
        return ".flv";
    }
    if same_text(mime, "audio/mpeg") || same_text(mime, "audio/mp3") {
        return ".mp3";
    }
    if same_text(mime, "audio/ogg") {
        return ".ogg";
    }
    if same_text(mime, "audio/x-opus+ogg") {
        return ".opus";
    }
    if same_text(mime, "audio/flac") || same_text(mime, "audio/x-flac") {
        return ".flac";
    }
    if same_text(mime, "audio/x-wav") || same_text(mime, "audio/wav") {
        return ".wav";
    }
    if same_text(mime, "audio/aac") || same_text(mime, "audio/x-aac") {
        return ".aac";
    }
    if same_text(mime, "audio/mp4") || same_text(mime, "audio/x-m4a") {
        return ".m4a";
    }
    if same_text(mime, "audio/x-ms-wma") {
        return ".wma";
    }
    if same_text(mime, "image/jpeg") {
        return ".jpg";
    }
    if same_text(mime, "image/png") {
        return ".png";
    }
    if same_text(mime, "image/gif") {
        return ".gif";
    }
    if same_text(mime, "image/webp") {
        return ".webp";
    }
    if same_text(mime, "image/bmp") {
        return ".bmp";
    }
    if same_text(mime, "image/svg+xml") {
        return ".svg";
    }
    if same_text(mime, "image/tiff") {
        return ".tiff";
    }
    if same_text(mime, "application/pdf") {
        return ".pdf";
    }
    if same_text(mime, "application/zip") {
        return ".zip";
    }
    if same_text(mime, "application/x-rar-compressed") || same_text(mime, "application/vnd.rar") {
        return ".rar";
    }
    if same_text(mime, "application/x-7z-compressed") {
        return ".7z";
    }
    if same_text(mime, "application/gzip") || same_text(mime, "application/x-gzip") {
        return ".gz";
    }
    if same_text(mime, "application/x-tar") {
        return ".tar";
    }
    if same_text(mime, "application/json") {
        return ".json";
    }
    if same_text(mime, "application/xml") || same_text(mime, "text/xml") {
        return ".xml";
    }
    if same_text(mime, "text/plain") {
        return ".txt";
    }
    if same_text(mime, "text/html") {
        return ".html";
    }
    if same_text(mime, "text/csv") {
        return ".csv";
    }
    if same_text(mime, "application/vnd.openxmlformats-officedocument.wordprocessingml.document") {
        return ".docx";
    }
    if same_text(mime, "application/vnd.openxmlformats-officedocument.spreadsheetml.sheet") {
        return ".xlsx";
    }
    if same_text(mime, "application/vnd.openxmlformats-officedocument.presentationml.presentation") {
        return ".pptx";
    }
    if same_text(mime, "application/msword") {
        return ".doc";
    }
    if same_text(mime, "application/vnd.ms-excel") {
        return ".xls";
    }
    if same_text(mime, "application/vnd.ms-powerpoint") {
        return ".ppt";
    }
    if same_text(mime, "application/x-python-script") || same_text(mime, "text/x-python") {
        return ".py";
    }
    if same_text(mime, "application/javascript") || same_text(mime, "text/javascript") {
        return ".js";
    }
    let cs = chars_of(mime);
    let first = find_char(&cs, 0, '/');
    proof {
        assert(cs@.skip(0) =~= mime@);
    }
    if first == cs.len() {
        return "";
    }
    let second = find_char(&cs, first + 1, '/');
    let sub = text_of(&cs, first + 1, second);
    proof {
        let rest = mime@.skip(first + 1);
        assert(sub@ =~= rest.take(pos_of(rest, '/')));
    }
    subtype_to_ext(sub.as_str())
}

/// An extension, in lower case, that a file keeps whatever its MIME type says.
pub open spec fn is_known_ext(ext: Seq<char>) -> bool {
    ||| ext == "mp4"@
    ||| ext == "mkv"@
    ||| ext == "webm"@
    ||| ext == "mov"@
    ||| ext == "avi"@
    ||| ext == "mpeg"@
    ||| ext == "3gp"@
    ||| ext == "flv"@
    ||| ext == "mp3"@
    ||| ext == "ogg"@
    ||| ext == "opus"@
    ||| ext == "flac"@
    ||| ext == "wav"@
    ||| ext == "aac"@
    ||| ext == "m4a"@
    ||| ext == "wma"@
    ||| ext == "jpg"@
    ||| ext == "jpeg"@
    ||| ext == "png"@
    ||| ext == "gif"@
    ||| ext == "webp"@
    ||| ext == "bmp"@
    ||| ext == "svg"@
    ||| ext == "tiff"@
    ||| ext == "pdf"@
    ||| ext == "zip"@
    ||| ext == "rar"@
    ||| ext == "7z"@
    ||| ext == "gz"@
    ||| ext == "tar"@
    ||| ext == "json"@
    ||| ext == "xml"@
    ||| ext == "txt"@
    ||| ext == "html"@
    ||| ext == "csv"@
    ||| ext == "doc"@
    ||| ext == "docx"@
    ||| ext == "xls"@
    ||| ext == "xlsx"@
    ||| ext == "ppt"@
    ||| ext == "pptx"@
    ||| ext == "py"@
    ||| ext == "js"@
    ||| ext == "ts"@
    ||| ext == "rs"@
    ||| ext == "go"@
    ||| ext == "c"@
    ||| ext == "cpp"@
    ||| ext == "h"@
}

fn known_ext(ext: &str) -> (r: bool)
    ensures
        r == is_known_ext(ext@),
{
    let video = same_text(ext, "mp4") || same_text(ext, "mkv") || same_text(ext, "webm")
        || same_text(ext, "mov") || same_text(ext, "avi") || same_text(ext, "mpeg")
        || same_text(ext, "3gp") || same_text(ext, "flv");
    let audio = same_text(ext, "mp3") || same_text(ext, "ogg") || same_text(ext, "opus")
        || same_text(ext, "flac") || same_text(ext, "wav") || same_text(ext, "aac")
        || same_text(ext, "m4a") || same_text(ext, "wma");
    let image = same_text(ext, "jpg") || same_text(ext, "jpeg") || same_text(ext, "png")
        || same_text(ext, "gif") || same_text(ext, "webp") || same_text(ext, "bmp")
        || same_text(ext, "svg") || same_text(ext, "tiff");
    let archive = same_text(ext, "pdf") || same_text(ext, "zip") || same_text(ext, "rar")
        || same_text(ext, "7z") || same_text(ext, "gz") || same_text(ext, "tar");
    let data = same_text(ext, "json") || same_text(ext, "xml") || same_text(ext, "txt")
        || same_text(ext, "html") || same_text(ext, "csv");
    let office = same_text(ext, "doc") || same_text(ext, "docx") || same_text(ext, "xls")
        || same_text(ext, "xlsx") || same_text(ext, "ppt") || same_text(ext, "pptx");
    let source = same_text(ext, "py") || same_text(ext, "js") || same_text(ext, "ts")
        || same_text(ext, "rs") || same_text(ext, "go") || same_text(ext, "c")
        || same_text(ext, "cpp") || same_text(ext, "h");
    video || audio || image || archive || data || office || source
}

/// How a platform takes a path apart: `/` alone separates its components, or `\` does,
/// too, with or without a drive in front of it.
pub enum PathRules {
    Slash,
    Backslash,
    Drive,
}

pub open spec fn is_separator(c: char) -> bool {
    c == '/' || c == '\\'
}

pub open spec fn separates(rules: PathRules, c: char) -> bool {
    c == '/' || (c == '\\' && !(rules is Slash))
}

/// The position of the last character that separates components, or -1 where there is
/// none.
pub open spec fn last_separator(s: Seq<char>, rules: PathRules) -> int
    decreases s.len(),
{
    if s.len() == 0 {
        -1
    } else if separates(rules, s.last()) {
        s.len() - 1
    } else {
        last_separator(s.drop_last(), rules)
    }
}

/// The last component of a path. A separator at its end, and a `.` that is not its first
/// component, do not count.
pub open spec fn last_component(path: Seq<char>, rules: PathRules) -> Seq<char>
    decreases path.len(),
{
    let at = last_separator(path, rules);
    if 0 <= at < path.len() {
        let last = path.skip(at + 1);
        if last.len() == 0 || last == "."@ {
            last_component(path.take(at), rules)
        } else {
            last
        }
    } else {
        path
    }
}

/// The extension of a path component: what follows its last dot, unless the component
/// is `..` or that dot is its first character.
pub open spec fn component_extension(name: Seq<char>) -> Option<Seq<char>> {
    let dot = last_pos(name, '.');
    if dot <= 0 || name == ".."@ {
        None
    } else {
        Some(name.skip(dot + 1))
    }
}

/// A path without the drive in front of it.
pub open spec fn behind_drive(path: Seq<char>, rules: PathRules) -> Seq<char> {
    if rules is Drive && path.len() >= 2 && path[1] == ':' {
        path.skip(2)
    } else {
        path
    }
}

/// What a platform with these rules calls the extension of a path.
pub open spec fn extension_under(rules: PathRules, path: Seq<char>) -> Option<Seq<char>> {
    component_extension(last_component(behind_drive(path, rules), rules))
}

/// A path that on some platforms begins with a server.
pub open spec fn may_name_server(path: Seq<char>) -> bool {
    path.len() >= 2 && is_separator(path[0]) && is_separator(path[1])
}

/// A path that on some platforms is not taken apart at every separator.
pub open spec fn may_be_verbatim(path: Seq<char>) -> bool {
    may_name_server(path) && path.len() >= 3 && path[2] == '?'
}

/// The position of the first separator of any platform, or the length without one.
pub open spec fn first_separator(s: Seq<char>) -> int
    decreases s.len(),
{
    if s.len() == 0 || is_separator(s[0]) {
        0
    } else {
        1 + first_separator(s.drop_first())
    }
}

/// What follows a server and one of its shares, where a path names both.
pub open spec fn within_share(path: Seq<char>) -> Option<Seq<char>> {
    let server = path.skip(2);
    let one = first_separator(server);
    let share = server.skip(one + 1);
    let two = first_separator(share);
    if may_name_server(path) && 0 < one < server.len() && 0 < two {
        Some(
            if two < share.len() {
                share.skip(two + 1)
            } else {
                Seq::empty()
            },
        )
    } else {
        None
    }
}

/// No file with an extension lies within the share that a path names.
pub open spec fn may_end_in_share(path: Seq<char>) -> bool {
    within_share(path) matches Some(rest) && component_extension(
        last_component(rest, PathRules::Backslash),
    ) is None
}

/// What a platform may call the extension of a path: what the rules of one of them make
/// of it, or nothing where a server and a share may take up the whole path.
pub open spec fn may_be_extension(path: Seq<char>, ext: Option<Seq<char>>) -> bool {
    ||| may_be_verbatim(path)
    ||| may_end_in_share(path) && ext is None
    ||| exists|rules: PathRules| ext == #[trigger] extension_under(rules, path)
}

/// `Path::extension` of a path given as text: what follows the last dot of the last
/// component. Unix and Windows differ in whether `\` separates components, whether a
/// letter and a colon in front are a drive, and whether two separators in front name a
/// server; the result follows one of these rules. Nothing is said of paths that begin with
/// two separators and `?`, which Windows may not take apart at every separator.
#[verifier::external_body]
fn path_extension(name: &str) -> (r: Option<String>)
    ensures
        may_be_extension(name@, opt_text(r)),
{
    std::path::Path::new(name).extension().map(|e| e.to_string_lossy().into_owned())
}

/// A file name with the extension that its MIME type stands for, given the lower-case
/// form of the extension that it has.
pub open spec fn name_with_ext(
    name: Seq<char>,
    ext_lower: Option<Seq<char>>,
    mime: Seq<char>,
) -> Seq<char> {
    if ext_lower is Some && is_known_ext(ext_lower->0) {
        name
    } else {
        name + mime_ext(mime)
    }
}

/// Adds the extension for a MIME type to a name whose own extension, given in lower
/// case, is not a known one.
pub fn add_extension(name: &str, ext_lower: Option<&str>, mime_type: &str) -> (r: String)
    ensures
        r@ == name_with_ext(name@, opt_str(ext_lower), mime_type@),
{
    if let Some(ext) = ext_lower {
        if known_ext(ext) {
            return name.to_owned();
        }
    }
    joined(name, mime_to_ext(mime_type))
}

/// The lower-case form of an ASCII text differs from it in the letters only.
pub open spec fn lowers_letters(text: Seq<char>) -> bool {
    all_ascii(text) ==> lower_text(text) == text.map_values(|c: char| ascii_lower(c))
}

/// A name with the extension that its MIME type stands for, on a platform that calls
/// `ext` its extension.
pub open spec fn fixed_name(name: Seq<char>, ext: Option<Seq<char>>, mime: Seq<char>) -> Seq<char> {
    match ext {
        Some(e) => name_with_ext(name, Some(lower_text(e)), mime),
        None => name_with_ext(name, None, mime),
    }
}

/// A name that `ensure_extension` may return.
pub open spec fn is_fixed_name(name: Seq<char>, mime: Seq<char>, out: Seq<char>) -> bool {
    exists|ext: Option<Seq<char>>| #[trigger]
        may_be_extension(name, ext) && (ext matches Some(e) ==> lowers_letters(e)) && out
            == fixed_name(name, ext, mime)
}

/// Makes sure that a file name ends in an extension that says what the file holds.
pub fn ensure_extension(name: &str, mime_type: &str) -> (r: String)
    ensures
        is_fixed_name(name@, mime_type@, r@),
{
    let ext = path_extension(name);
    proof {
        assert(may_be_extension(name@, opt_text(ext)));
    }
    match ext {
        Some(e) => {
            let lower = e.as_str().to_lowercase();
            proof {
                assert(lowers_letters(e@));
            }
            add_extension(name, Some(lower.as_str()), mime_type)
        },
        None => add_extension(name, None, mime_type),
    }
}

// ------------------------------------------------------------ laws of extensions

/// An extension with its dot: one that a file keeps, in lower-case letters and digits.
pub open spec fn is_given_ext(ext: Seq<char>) -> bool {
    &&& ext.len() > 1
    &&& ext[0] == '.'
    &&& forall|i: int|
        1 <= i < ext.len() ==> ('a' <= #[trigger] ext[i] <= 'z' || '0' <= ext[i] <= '9')
    &&& is_known_ext(ext.skip(1))
}

proof fn lemma_film_exts()
    ensures
        is_given_ext(".mp4"@),
        is_given_ext(".mkv"@),
        is_given_ext(".webm"@),
        is_given_ext(".mov"@),
        is_given_ext(".avi"@),
        is_given_ext(".mpeg"@),
        is_given_ext(".3gp"@),
        is_given_ext(".flv"@),
{
    reveal_strlit(".mp4");
    reveal_strlit("mp4");
    assert(".mp4"@.skip(1) =~= "mp4"@);
    reveal_strlit(".mkv");
    reveal_strlit("mkv");
    assert(".mkv"@.skip(1) =~= "mkv"@);
    reveal_strlit(".webm");
    reveal_strlit("webm");
    assert(".webm"@.skip(1) =~= "webm"@);
    reveal_strlit(".mov");
    reveal_strlit("mov");
    assert(".mov"@.skip(1) =~= "mov"@);
    reveal_strlit(".avi");
    reveal_strlit("avi");
    assert(".avi"@.skip(1) =~= "avi"@);
    reveal_strlit(".mpeg");
    reveal_strlit("mpeg");
    assert(".mpeg"@.skip(1) =~= "mpeg"@);
    reveal_strlit(".3gp");
    reveal_strlit("3gp");
    assert(".3gp"@.skip(1) =~= "3gp"@);
    reveal_strlit(".flv");
    reveal_strlit("flv");
    assert(".flv"@.skip(1) =~= "flv"@);
}

proof fn lemma_sound_exts()
    ensures
        is_given_ext(".mp3"@),
        is_given_ext(".ogg"@),
        is_given_ext(".opus"@),
        is_given_ext(".flac"@),
        is_given_ext(".wav"@),
        is_given_ext(".aac"@),
        is_given_ext(".m4a"@),
        is_given_ext(".wma"@),
{
    reveal_strlit(".mp3");
    reveal_strlit("mp3");
    assert(".mp3"@.skip(1) =~= "mp3"@);
    reveal_strlit(".ogg");
    reveal_strlit("ogg");
    assert(".ogg"@.skip(1) =~= "ogg"@);
    reveal_strlit(".opus");
    reveal_strlit("opus");
    assert(".opus"@.skip(1) =~= "opus"@);
    reveal_strlit(".flac");
    reveal_strlit("flac");
    assert(".flac"@.skip(1) =~= "flac"@);
    reveal_strlit(".wav");
    reveal_strlit("wav");
    assert(".wav"@.skip(1) =~= "wav"@);
    reveal_strlit(".aac");
    reveal_strlit("aac");
    assert(".aac"@.skip(1) =~= "aac"@);
    reveal_strlit(".m4a");
    reveal_strlit("m4a");
    assert(".m4a"@.skip(1) =~= "m4a"@);
    reveal_strlit(".wma");
    reveal_strlit("wma");
    assert(".wma"@.skip(1) =~= "wma"@);
}

proof fn lemma_image_exts()
    ensures
        is_given_ext(".jpg"@),
        is_given_ext(".png"@),
        is_given_ext(".gif"@),
        is_given_ext(".webp"@),
        is_given_ext(".bmp"@),
        is_given_ext(".svg"@),
        is_given_ext(".tiff"@),
{
    reveal_strlit(".jpg");
    reveal_strlit("jpg");
    assert(".jpg"@.skip(1) =~= "jpg"@);
    reveal_strlit(".png");
    reveal_strlit("png");
    assert(".png"@.skip(1) =~= "png"@);
    reveal_strlit(".gif");
    reveal_strlit("gif");
    assert(".gif"@.skip(1) =~= "gif"@);
    reveal_strlit(".webp");
    reveal_strlit("webp");
    assert(".webp"@.skip(1) =~= "webp"@);
    reveal_strlit(".bmp");
    reveal_strlit("bmp");
    assert(".bmp"@.skip(1) =~= "bmp"@);
    reveal_strlit(".svg");
    reveal_strlit("svg");
    assert(".svg"@.skip(1) =~= "svg"@);
    reveal_strlit(".tiff");
    reveal_strlit("tiff");
    assert(".tiff"@.skip(1) =~= "tiff"@);
}

proof fn lemma_data_exts()
    ensures
        is_given_ext(".pdf"@),
        is_given_ext(".zip"@),
        is_given_ext(".rar"@),
        is_given_ext(".7z"@),
        is_given_ext(".gz"@),
        is_given_ext(".tar"@),
        is_given_ext(".json"@),
        is_given_ext(".xml"@),
        is_given_ext(".txt"@),
        is_given_ext(".html"@),
        is_given_ext(".csv"@),
{
    reveal_strlit(".pdf");
    reveal_strlit("pdf");
    assert(".pdf"@.skip(1) =~= "pdf"@);
    reveal_strlit(".zip");
    reveal_strlit("zip");
    assert(".zip"@.skip(1) =~= "zip"@);
    reveal_strlit(".rar");
    reveal_strlit("rar");
    assert(".rar"@.skip(1) =~= "rar"@);
    reveal_strlit(".7z");
    reveal_strlit("7z");
    assert(".7z"@.skip(1) =~= "7z"@);
    reveal_strlit(".gz");
    reveal_strlit("gz");
    assert(".gz"@.skip(1) =~= "gz"@);
    reveal_strlit(".tar");
    reveal_strlit("tar");
    assert(".tar"@.skip(1) =~= "tar"@);
    reveal_strlit(".json");
    reveal_strlit("json");
    assert(".json"@.skip(1) =~= "json"@);
    reveal_strlit(".xml");
    reveal_strlit("xml");
    assert(".xml"@.skip(1) =~= "xml"@);
    reveal_strlit(".txt");
    reveal_strlit("txt");
    assert(".txt"@.skip(1) =~= "txt"@);
    reveal_strlit(".html");
    reveal_strlit("html");
    assert(".html"@.skip(1) =~= "html"@);
    reveal_strlit(".csv");
    reveal_strlit("csv");
    assert(".csv"@.skip(1) =~= "csv"@);
}

proof fn lemma_office_exts()
    ensures
        is_given_ext(".docx"@),
        is_given_ext(".xlsx"@),
        is_given_ext(".pptx"@),
        is_given_ext(".doc"@),
        is_given_ext(".xls"@),
        is_given_ext(".ppt"@),
        is_given_ext(".py"@),
        is_given_ext(".js"@),
{
    reveal_strlit(".docx");
    reveal_strlit("docx");
    assert(".docx"@.skip(1) =~= "docx"@);
    reveal_strlit(".xlsx");
    reveal_strlit("xlsx");
    assert(".xlsx"@.skip(1) =~= "xlsx"@);
    reveal_strlit(".pptx");
    reveal_strlit("pptx");
    assert(".pptx"@.skip(1) =~= "pptx"@);
    reveal_strlit(".doc");
    reveal_strlit("doc");
    assert(".doc"@.skip(1) =~= "doc"@);
    reveal_strlit(".xls");
    reveal_strlit("xls");
    assert(".xls"@.skip(1) =~= "xls"@);
    reveal_strlit(".ppt");
    reveal_strlit("ppt");
    assert(".ppt"@.skip(1) =~= "ppt"@);
    reveal_strlit(".py");
    reveal_strlit("py");
    assert(".py"@.skip(1) =~= "py"@);
    reveal_strlit(".js");
    reveal_strlit("js");
    assert(".js"@.skip(1) =~= "js"@);
}

/// Every extension that is given for a MIME type is one that a file keeps: a dot, then
/// lower-case letters and digits.
pub proof fn lemma_given_extension_is_known(mime: Seq<char>)
    ensures
        mime_ext(mime).len() == 0 || is_given_ext(mime_ext(mime)),
{
    lemma_film_exts();
    lemma_sound_exts();
    lemma_image_exts();
    lemma_data_exts();
    lemma_office_exts();
    reveal_strlit("");
}

/// A name is either kept or extended by what its MIME type stands for.
pub proof fn lemma_fixed_name_extends(name: Seq<char>, mime: Seq<char>, out: Seq<char>)
    requires
        is_fixed_name(name, mime, out),
    ensures
        out == name || out == name + mime_ext(mime),
{
}

proof fn lemma_last_pos_is(s: Seq<char>, c: char, at: int)
    requires
        0 <= at < s.len(),
        s[at] == c,
        forall|i: int| at < i < s.len() ==> #[trigger] s[i] != c,
    ensures
        last_pos(s, c) == at,
{
    lemma_last_pos(s, c);
}

proof fn lemma_last_separator(s: Seq<char>, rules: PathRules)
    ensures
        -1 <= last_separator(s, rules) < s.len(),
        last_separator(s, rules) >= 0 ==> separates(rules, s[last_separator(s, rules)]),
    decreases s.len(),
{
    if s.len() > 0 && !separates(rules, s.last()) {
        lemma_last_separator(s.drop_last(), rules);
    }
}

proof fn lemma_extension_behind(front: Seq<char>, tail: Seq<char>)
    requires
        component_extension(tail) is Some,
    ensures
        component_extension(front + tail) == component_extension(tail),
{
    let name = front + tail;
    let more = front.len() as int;
    let dot = last_pos(tail, '.');
    lemma_last_pos(tail, '.');
    assert forall|i: int| more + dot < i < name.len() implies #[trigger] name[i] != '.' by {
        assert(name[i] == tail[i - more]);
    }
    assert(name[more + dot] == tail[dot]);
    lemma_last_pos_is(name, '.', more + dot);
    assert(name != ".."@) by {
        reveal_strlit("..");
        if name == ".."@ {
            assert(tail =~= ".."@);
        }
    }
    assert(name.skip(more + dot + 1) =~= tail.skip(dot + 1));
}

#[verifier::spinoff_prover]
proof fn lemma_extension_of_tail(front: Seq<char>, tail: Seq<char>, rules: PathRules)
    requires
        forall|i: int| 0 <= i < tail.len() ==> !is_separator(#[trigger] tail[i]),
        component_extension(tail) is Some,
    ensures
        component_extension(last_component(front + tail, rules)) == component_extension(tail),
{
    let path = front + tail;
    let at = last_separator(path, rules);
    lemma_last_separator(path, rules);
    if at >= front.len() {
        assert(path[at] == tail[at - front.len()]);
    }
    let last = path.skip(at + 1);
    assert(path.skip(0) =~= path);
    assert(last =~= front.skip(at + 1) + tail);
    lemma_last_pos(tail, '.');
    assert(last != "."@) by {
        reveal_strlit(".");
    }
    assert(last_component(path, rules) == last);
    lemma_extension_behind(front.skip(at + 1), tail);
}

proof fn lemma_same_last_component(path: Seq<char>, rules: PathRules)
    requires
        forall|i: int| 0 <= i < path.len() ==> #[trigger] path[i] != '\\',
    ensures
        last_separator(path, rules) == last_separator(path, PathRules::Slash),
        last_component(path, rules) == last_component(path, PathRules::Slash),
    decreases path.len(),
{
    if path.len() > 0 {
        let front = path.drop_last();
        assert forall|i: int| 0 <= i < front.len() implies #[trigger] front[i] != '\\' by {
            assert(front[i] == path[i]);
        }
        lemma_same_last_component(front, rules);
        let at = last_separator(path, rules);
        lemma_last_separator(path, rules);
        if at >= 0 {
            let before = path.take(at);
            assert forall|i: int| 0 <= i < before.len() implies #[trigger] before[i] != '\\' by {
                assert(before[i] == path[i]);
            }
            lemma_same_last_component(before, rules);
        }
    }
}

/// A path that every platform takes apart alike: without `\`, a drive or a server.
pub open spec fn is_portable_path(path: Seq<char>) -> bool {
    &&& forall|i: int| 0 <= i < path.len() ==> #[trigger] path[i] != '\\'
    &&& !(path.len() >= 2 && path[0] == '/' && path[1] == '/')
    &&& !(path.len() >= 2 && path[1] == ':')
}

/// The position of the last `/`, `\` or `:`, or -1 where there is none.
pub open spec fn last_mark(s: Seq<char>) -> int
    decreases s.len(),
{
    if s.len() == 0 {
        -1
    } else if is_separator(s.last()) || s.last() == ':' {
        s.len() - 1
    } else {
        last_mark(s.drop_last())
    }
}

proof fn lemma_last_mark(s: Seq<char>)
    ensures
        -1 <= last_mark(s) < s.len(),
        forall|i: int|
            last_mark(s) < i < s.len() ==> !is_separator(#[trigger] s[i]) && s[i] != ':',
    decreases s.len(),
{
    if s.len() > 0 && !is_separator(s.last()) && s.last() != ':' {
        let front = s.drop_last();
        lemma_last_mark(front);
        assert forall|i: int| last_mark(s) < i < s.len() implies !is_separator(#[trigger] s[i])
            && s[i] != ':' by {
            if i < front.len() {
                assert(front[i] == s[i]);
            }
        }
    }
}

/// What stands behind the last `/`, `\` or `:` of a path.
pub open spec fn plain_tail(path: Seq<char>) -> Seq<char> {
    path.skip(last_mark(path) + 1)
}

/// All platforms agree on the extension of a portable path, and on one that stands behind
/// every separator and colon of a path that names no server.
pub proof fn lemma_platforms_agree(path: Seq<char>, ext: Option<Seq<char>>)
    requires
        may_be_extension(path, ext),
    ensures
        is_portable_path(path) ==> ext == extension_under(PathRules::Slash, path),
        !may_name_server(path) && component_extension(plain_tail(path)) is Some ==> ext
            == component_extension(plain_tail(path)),
{
    if is_portable_path(path) {
        assert(!may_name_server(path));
        let rules = choose|rules: PathRules| ext == #[trigger] extension_under(rules, path);
        lemma_same_last_component(path, rules);
    }
    if !may_name_server(path) && component_extension(plain_tail(path)) is Some {
        let rules = choose|rules: PathRules| ext == #[trigger] extension_under(rules, path);
        let tail = plain_tail(path);
        lemma_last_mark(path);
        let base = behind_drive(path, rules);
        let front = base.take(base.len() - tail.len());
        assert(front + tail =~= base);
        assert forall|i: int| 0 <= i < tail.len() implies !is_separator(#[trigger] tail[i]) by {
            assert(tail[i] == path[last_mark(path) + 1 + i]);
        }
        lemma_extension_of_tail(front, tail, rules);
    }
}

/// Whatever the platform, the extension of a path is the same.
pub open spec fn has_settled_extension(path: Seq<char>) -> bool {
    forall|a: Option<Seq<char>>, b: Option<Seq<char>>|
        #![trigger may_be_extension(path, a), may_be_extension(path, b)]
        may_be_extension(path, a) && may_be_extension(path, b) ==> a == b
}

/// Portable paths have a settled extension, and so have paths with an extension behind
/// every separator and colon.
pub proof fn lemma_settled_extensions(path: Seq<char>)
    ensures
        is_portable_path(path) ==> has_settled_extension(path),
        !may_name_server(path) && component_extension(plain_tail(path)) is Some
            ==> has_settled_extension(path),
{
    assert forall|a: Option<Seq<char>>, b: Option<Seq<char>>|
        #![trigger may_be_extension(path, a), may_be_extension(path, b)]
        may_be_extension(path, a) && may_be_extension(path, b) && (is_portable_path(path) || (
        !may_name_server(path) && component_extension(plain_tail(path)) is Some)) implies a
        == b by {
        lemma_platforms_agree(path, a);
        lemma_platforms_agree(path, b);
    }
}

/// A name that an extension can be added to, whatever the platform: it ends in a component
/// that is neither a drive nor a share.
pub open spec fn can_take_extension(name: Seq<char>) -> bool {
    &&& name.len() > 0
    &&& !is_separator(name.last())
    &&& !(name.len() == 2 && name[1] == ':')
    &&& !may_be_verbatim(name)
    &&& within_share(name) matches Some(rest) ==> rest.len() > 0
}

proof fn lemma_no_separator(s: Seq<char>)
    requires
        forall|i: int| 0 <= i < s.len() ==> !is_separator(#[trigger] s[i]),
    ensures
        first_separator(s) == s.len(),
    decreases s.len(),
{
    if s.len() > 0 {
        let rest = s.drop_first();
        assert forall|i: int| 0 <= i < rest.len() implies !is_separator(#[trigger] rest[i]) by {
            assert(rest[i] == s[i + 1]);
        }
        lemma_no_separator(rest);
    }
}

proof fn lemma_first_separator(s: Seq<char>, more: Seq<char>)
    requires
        forall|i: int| 0 <= i < more.len() ==> !is_separator(#[trigger] more[i]),
    ensures
        0 <= first_separator(s) <= s.len(),
        first_separator(s + more) == if first_separator(s) < s.len() {
            first_separator(s)
        } else {
            (s + more).len() as int
        },
    decreases s.len(),
{
    if s.len() == 0 {
        assert(s + more =~= more);
        lemma_no_separator(more);
    } else if !is_separator(s[0]) {
        lemma_first_separator(s.drop_first(), more);
        assert((s + more).drop_first() =~= s.drop_first() + more);
    }
}

proof fn lemma_at_separator(s: Seq<char>)
    ensures
        0 <= first_separator(s) <= s.len(),
        first_separator(s) < s.len() ==> is_separator(s[first_separator(s)]),
    decreases s.len(),
{
    if s.len() > 0 && !is_separator(s[0]) {
        lemma_at_separator(s.drop_first());
    }
}

#[verifier::spinoff_prover]
proof fn lemma_extended_share(name: Seq<char>, tail: Seq<char>)
    requires
        can_take_extension(name),
        tail.len() > 0,
        tail[0] == name.last(),
        forall|i: int| 0 <= i < tail.len() ==> !is_separator(#[trigger] tail[i]),
        component_extension(tail) is Some,
        may_name_server(name),
    ensures
        !may_end_in_share(name.drop_last() + tail),
{
    let ext = tail.drop_first();
    let whole = name.drop_last() + tail;
    assert(whole =~= name + ext);
    assert forall|i: int| 0 <= i < ext.len() implies !is_separator(#[trigger] ext[i]) by {
        assert(ext[i] == tail[i + 1]);
    }
    let server = name.skip(2);
    let one = first_separator(server);
    lemma_first_separator(server, ext);
    assert(whole.skip(2) =~= server + ext);
    if 0 < one < server.len() {
        let share = server.skip(one + 1);
        let two = first_separator(share);
        lemma_first_separator(share, ext);
        assert((server + ext).skip(one + 1) =~= share + ext);
        if share.len() == 0 {
            assert(is_separator(server[one])) by {
                lemma_at_separator(server);
            }
            assert(server[one] == name.last());
        }
        if 0 < two {
            let rest = share.skip(two + 1);
            assert((share + ext).skip(two + 1) =~= rest + ext);
            assert(rest.last() == name.last());
            assert(rest.drop_last() + tail =~= rest + ext);
            lemma_extension_of_tail(rest.drop_last(), tail, PathRules::Backslash);
        }
    }
}

#[verifier::spinoff_prover]
proof fn lemma_extension_of_extended(name: Seq<char>, ext: Seq<char>, found: Option<Seq<char>>)
    requires
        can_take_extension(name),
        is_given_ext(ext),
        may_be_extension(name + ext, found),
    ensures
        found == Some(ext.skip(1)),
{
    let whole = name + ext;
    let tail = seq![name.last()] + ext;
    assert(tail.skip(1) =~= ext);
    assert forall|i: int| 1 < i < tail.len() implies #[trigger] tail[i] != '.' by {
        assert(tail[i] == ext[i - 1]);
    }
    assert(tail[1] == ext[0]);
    lemma_last_pos_is(tail, '.', 1);
    assert(tail != ".."@) by {
        reveal_strlit("..");
        assert(tail.last() == ext.last());
    }
    assert(tail.skip(2) =~= ext.skip(1));
    assert forall|i: int| 0 <= i < tail.len() implies !is_separator(#[trigger] tail[i]) by {
        if i > 0 {
            assert(tail[i] == ext[i - 1]);
        }
    }
    if name.len() == 1 {
        assert(whole[1] == ext[0]);
    }
    assert(name.drop_last() + tail =~= whole);
    if may_name_server(whole) {
        lemma_extended_share(name, tail);
        if name.len() == 2 {
            assert(whole[2] == ext[0]);
        } else {
            assert(whole[2] == name[2]);
        }
    }
    let rules = choose|rules: PathRules| found == #[trigger] extension_under(rules, whole);
    let base = behind_drive(whole, rules);
    let front = base.take(base.len() - tail.len());
    assert(front + tail =~= base);
    lemma_extension_of_tail(front, tail, rules);
}

proof fn lemma_given_extension_stays_lower(ext: Seq<char>)
    requires
        is_given_ext(ext),
        lowers_letters(ext.skip(1)),
    ensures
        lower_text(ext.skip(1)) == ext.skip(1),
{
    let e = ext.skip(1);
    assert forall|i: int| 0 <= i < e.len() implies (#[trigger] e[i] as u32) < 128 && ascii_lower(
        e[i],
    ) == e[i] by {
        assert(e[i] == ext[i + 1]);
    }
    assert(e.map_values(|c: char| ascii_lower(c)) =~= e);
}

/// A name that ends in an extension that was given for a MIME type is kept, whatever
/// MIME type comes with it.
pub proof fn lemma_given_extension_is_kept(
    name: Seq<char>,
    mime: Seq<char>,
    other: Seq<char>,
    out: Seq<char>,
)
    requires
        can_take_extension(name),
        mime_ext(mime).len() > 0,
        is_fixed_name(name + mime_ext(mime), other, out),
    ensures
        out == name + mime_ext(mime),
{
    let ext = mime_ext(mime);
    let whole = name + ext;
    lemma_given_extension_is_known(mime);
    let found = choose|found: Option<Seq<char>>| #[trigger]
        may_be_extension(whole, found) && (found matches Some(e) ==> lowers_letters(e)) && out
            == fixed_name(whole, found, other);
    lemma_extension_of_extended(name, ext, found);
    lemma_given_extension_stays_lower(ext);
}

/// To fix a name twice adds nothing more, even where the second platform is another one
/// than the first. A name to which an extension is added must be able to take one, and of
/// a name that is kept the platforms must not disagree.
pub proof fn lemma_fixing_twice_adds_nothing(
    name: Seq<char>,
    mime: Seq<char>,
    out: Seq<char>,
    again: Seq<char>,
)
    requires
        is_fixed_name(name, mime, out),
        is_fixed_name(out, mime, again),
        out == name ==> has_settled_extension(name),
        out != name ==> can_take_extension(name),
    ensures
        again == out,
{
    if out != name {
        lemma_fixed_name_extends(name, mime, out);
        if mime_ext(mime).len() == 0 {
            assert(name + mime_ext(mime) =~= name);
        }
        lemma_given_extension_is_kept(name, mime, mime, again);
    }
}

/// On one platform, which calls `extension(path)` the extension of a path, to fix a name
/// twice adds nothing more, whatever name is kept.
pub proof fn lemma_fixing_twice_on_one_platform(
    name: Seq<char>,
    mime: Seq<char>,
    extension: spec_fn(Seq<char>) -> Option<Seq<char>>,
)
    requires
        forall|path: Seq<char>| may_be_extension(path, #[trigger] extension(path)),
        mime_ext(mime).len() > 0 ==> lowers_letters(mime_ext(mime).skip(1)),
        fixed_name(name, extension(name), mime) != name ==> can_take_extension(name),
    ensures
        ({
            let out = fixed_name(name, extension(name), mime);
            fixed_name(out, extension(out), mime) == out
        }),
{
    let out = fixed_name(name, extension(name), mime);
    let ext = mime_ext(mime);
    if out != name {
        if ext.len() == 0 {
            assert(name + ext =~= name);
        }
        lemma_given_extension_is_known(mime);
        lemma_extension_of_extended(name, ext, extension(out));
        lemma_given_extension_stays_lower(ext);
    }
}

// ------------------------------------------------------------ media of a message

/// A page that a message links to.
#[derive(Debug, Clone)]
pub struct TelegramWebpageInfo {
    pub url: String,
    pub site_name: Option<String>,
    pub title: Option<String>,
    pub description: Option<String>,
    pub embed_url: Option<String>,
    pub embed_type: Option<String>,
    pub duration_sec: Option<i32>,
}

/// One downloadable thing of a chat.
#[derive(Debug, Clone)]
pub struct TelegramMediaItem {
    pub message_id: i32,
    pub file_name: String,
    pub file_size: u64,
    pub media_type: String,
    pub date: i64,
    pub webpage: Option<TelegramWebpageInfo>,
    pub caption: Option<String>,
    pub grouped_id: Option<i64>,
}

/// A signed number read as an unsigned one of 64 bits.
pub open spec fn as_unsigned(n: int) -> int {
    if n >= 0 {
        n
    } else {
        n + 0x1_0000_0000_0000_0000
    }
}

/// Reinterprets the bits of a signed number.
pub fn unsigned_bits(n: i64) -> (r: u64)
    ensures
        r == as_unsigned(n as int),
{
    proof {
        assert(n >= 0 ==> n as u64 == n) by (bit_vector);
        assert(n < 0 ==> n as u64 == n + 0x1_0000_0000_0000_0000) by (bit_vector);
    }
    n as u64
}

pub open spec fn page_info(p: PageData) -> TelegramWebpageInfo {
    TelegramWebpageInfo {
        url: p.url,
        site_name: p.site_name,
        title: p.title,
        description: p.description,
        embed_url: p.embed_url,
        embed_type: p.page_type,
        duration_sec: p.duration,
    }
}

/// The page that media is a link to.
pub open spec fn linked_page(media: MessageMedia) -> Option<PageData> {
    match media {
        MessageMedia::WebPage(WebPage::Page(p)) => Some(p),
        _ => None,
    }
}

/// Reads a linked page out of a message's media.
pub fn extract_webpage_info_raw(media: &MessageMedia) -> (r: Option<TelegramWebpageInfo>)
    ensures
        match linked_page(*media) {
            Some(p) => r == Some(page_info(p)),
            None => r is None,
        },
{
    match media {
        MessageMedia::WebPage(WebPage::Page(p)) => Some(
            TelegramWebpageInfo {
                url: p.url.clone(),
                site_name: copy_opt(&p.site_name),
                title: copy_opt(&p.title),
                description: copy_opt(&p.description),
                embed_url: copy_opt(&p.embed_url),
                embed_type: copy_opt(&p.page_type),
                duration_sec: p.duration,
            },
        ),
        _ => None,
    }
}

/// Which messages a search asks for.
#[derive(Debug, Clone, Copy, PartialEq, Eq, Structural)]
pub enum MessagesFilter {
    Empty,
    Photos,
    Video,
    Document,
    Music,
    Url,
    Gif,
    RoundVideo,
    RoundVoice,
    PhotoVideo,
    ChatPhotos,
}

pub open spec fn filter_for(kind: Option<Seq<char>>) -> MessagesFilter {
    match kind {
        None => MessagesFilter::Empty,
        Some(k) => if k == "photo"@ {
            MessagesFilter::Photos
        } else if k == "video"@ {
            MessagesFilter::Video
        } else if k == "document"@ {
            MessagesFilter::Document
        } else if k == "audio"@ {
            MessagesFilter::Music
        } else if k == "webpage"@ {
            MessagesFilter::Url
        } else if k == "gif"@ {
            MessagesFilter::Gif
        } else if k == "round_video"@ {
            MessagesFilter::RoundVideo
        } else if k == "round_voice"@ {
            MessagesFilter::RoundVoice
        } else if k == "photo_video"@ {
            MessagesFilter::PhotoVideo
        } else if k == "chat_photos"@ {
            MessagesFilter::ChatPhotos
        } else {
            MessagesFilter::Empty
        },
    }
}

/// The search filter for a kind of media.
pub fn media_filter(media_type: Option<&str>) -> (r: MessagesFilter)
    ensures
        r == filter_for(opt_str(media_type)),
{
    let kind = match media_type {
        Some(k) => k,
        None => return MessagesFilter::Empty,
    };
    if same_text(kind, "photo") {
        MessagesFilter::Photos
    } else if same_text(kind, "video") {
        MessagesFilter::Video
    } else if same_text(kind, "document") {
        MessagesFilter::Document
    } else if same_text(kind, "audio") {
        MessagesFilter::Music
    } else if same_text(kind, "webpage") {
        MessagesFilter::Url
    } else if same_text(kind, "gif") {
        MessagesFilter::Gif
    } else if same_text(kind, "round_video") {
        MessagesFilter::RoundVideo
    } else if same_text(kind, "round_voice") {
        MessagesFilter::RoundVoice
    } else if same_text(kind, "photo_video") {
        MessagesFilter::PhotoVideo
    } else if same_text(kind, "chat_photos") {
        MessagesFilter::ChatPhotos
    } else {
        MessagesFilter::Empty
    }
}

/// The greatest size among those that a photo has, read as unsigned; 0 without any.
pub open spec fn largest_size(sizes: Seq<PhotoSize>) -> int
    decreases sizes.len(),
{
    if sizes.len() == 0 {
        0
    } else {
        let before = largest_size(sizes.drop_last());
        match sizes.last() {
            PhotoSize::Size { size, .. } => if as_unsigned(size as int) > before {
                as_unsigned(size as int)
            } else {
                before
            },
            PhotoSize::Other => before,
        }
    }
}

fn largest_photo_size(sizes: &Vec<PhotoSize>) -> (r: u64)
    ensures
        r == largest_size(sizes@),
{
    let mut best: u64 = 0;
    let mut i: usize = 0;
    while i < sizes.len()
        invariant
            i <= sizes@.len(),
            best == largest_size(sizes@.take(i as int)),
        decreases sizes@.len() - i,
    {
        proof {
            assert(sizes@.take(i + 1).drop_last() =~= sizes@.take(i as int));
        }
        if let PhotoSize::Size { size, .. } = &sizes[i] {
            let bytes = unsigned_bits(*size as i64);
            if bytes > best {
                best = bytes;
            }
        }
        i = i + 1;
    }
    proof {
        assert(sizes@.take(i as int) =~= sizes@);
    }
    best
}

/// The first file name among a document's attributes.
pub open spec fn given_name(attrs: Seq<DocumentAttribute>) -> Option<String>
    decreases attrs.len(),
{
    if attrs.len() == 0 {
        None
    } else {
        match attrs[0] {
            DocumentAttribute::Filename(name) => Some(name),
            _ => given_name(attrs.drop_first()),
        }
    }
}

fn first_file_name(attrs: &Vec<DocumentAttribute>) -> (r: Option<String>)
    ensures
        r == given_name(attrs@),
{
    let mut i: usize = 0;
    proof {
        assert(attrs@.skip(0) =~= attrs@);
    }
    while i < attrs.len()
        invariant
            i <= attrs@.len(),
            given_name(attrs@) == given_name(attrs@.skip(i as int)),
        decreases attrs@.len() - i,
    {
        proof {
            assert(attrs@.skip(i as int).drop_first() =~= attrs@.skip(i + 1));
        }
        if let DocumentAttribute::Filename(name) = &attrs[i] {
            return Some(name.clone());
        }
        i = i + 1;
    }
    None
}

pub open spec fn is_voice(a: DocumentAttribute) -> bool {
    a matches DocumentAttribute::Audio { voice } && voice
}

pub open spec fn is_round(a: DocumentAttribute) -> bool {
    a matches DocumentAttribute::Video { round_message } && round_message
}

/// What kind of media a document is.
pub open spec fn document_kind(attrs: Seq<DocumentAttribute>, mime: Seq<char>) -> Seq<char> {
    if exists|i: int| 0 <= i < attrs.len() && is_voice(#[trigger] attrs[i]) {
        "voice"@
    } else if exists|i: int| 0 <= i < attrs.len() && is_round(#[trigger] attrs[i]) {
        "round_video"@
    } else if exists|i: int| 0 <= i < attrs.len() && #[trigger] attrs[i] is Animated {
        "gif"@
    } else if begins_with(mime, "video/"@) {
        "video"@
    } else if begins_with(mime, "audio/"@) {
        "audio"@
    } else if begins_with(mime, "image/"@) {
        "photo"@
    } else {
        "document"@
    }
}

fn kind_of_document(doc: &DocumentData) -> (r: String)
    ensures
        r@ == document_kind(doc.attributes@, doc.mime_type@),
{
    let mut voice = false;
    let mut round = false;
    let mut animated = false;
    let mut i: usize = 0;
    let attrs = &doc.attributes;
    while i < attrs.len()
        invariant
            i <= attrs@.len(),
            voice == exists|j: int| 0 <= j < i && is_voice(#[trigger] attrs@[j]),
            round == exists|j: int| 0 <= j < i && is_round(#[trigger] attrs@[j]),
            animated == exists|j: int| 0 <= j < i && #[trigger] attrs@[j] is Animated,
        decreases attrs@.len() - i,
    {
        match &attrs[i] {
            DocumentAttribute::Audio { voice: v } => if *v {
                voice = true;
            },
            DocumentAttribute::Video { round_message } => if *round_message {
                round = true;
            },
            DocumentAttribute::Animated => {
                animated = true;
            },
            _ => {},
        }
        i = i + 1;
    }
    let mime = doc.mime_type.as_str();
    let kind = if voice {
        "voice"
    } else if round {
        "round_video"
    } else if animated {
        "gif"
    } else if starts_with_text(mime, "video/") {
        "video"
    } else if starts_with_text(mime, "audio/") {
        "audio"
    } else if starts_with_text(mime, "image/") {
        "photo"
    } else {
        "document"
    };
    kind.to_owned()
}

/// The name of a document before its extension is looked at.
pub open spec fn document_name(doc: DocumentData) -> Seq<char> {
    match given_name(doc.attributes@) {
        Some(name) => name@,
        None => if mime_ext(doc.mime_type@).len() == 0 {
            "file_"@ + signed_decimal(doc.id as int)
        } else {
            signed_decimal(doc.id as int) + mime_ext(doc.mime_type@)
        },
    }
}

fn name_of_document(doc: &DocumentData) -> (r: String)
    ensures
        r@ == document_name(*doc),
{
    if let Some(name) = first_file_name(&doc.attributes) {
        return name;
    }
    let ext = mime_to_ext(doc.mime_type.as_str());
    let id = signed_text(doc.id);
    if ext.unicode_len() == 0 {
        joined("file_", id.as_str())
    } else {
        joined(id.as_str(), ext)
    }
}

/// Media that can be downloaded.
pub open spec fn is_downloadable(media: MessageMedia) -> bool {
    match media {
        MessageMedia::Photo(Some(Photo::Photo(_))) => true,
        MessageMedia::Document(Some(Document::Document(_))) => true,
        _ => false,
    }
}

/// The name, size and kind of downloadable media.
pub open spec fn media_info_matches(
    media: MessageMedia,
    fix_extensions: bool,
    name: Seq<char>,
    size: u64,
    kind: Seq<char>,
) -> bool {
    match media {
        MessageMedia::Photo(Some(Photo::Photo(p))) => {
            &&& name == "photo_"@ + signed_decimal(p.id as int) + ".jpg"@
            &&& size == largest_size(p.sizes@)
            &&& kind == "photo"@
        },
        MessageMedia::Document(Some(Document::Document(d))) => {
            &&& if fix_extensions {
                is_fixed_name(document_name(d), d.mime_type@, name)
            } else {
                name == document_name(d)
            }
            &&& size == as_unsigned(d.size as int)
            &&& kind == document_kind(d.attributes@, d.mime_type@)
        },
        _ => false,
    }
}

/// The name, size and kind of a message's media, where it can be downloaded.
pub fn extract_raw_media_info(media: &MessageMedia, fix_extensions: bool) -> (r: Option<
    (String, u64, String),
>)
    ensures
        r is Some <==> is_downloadable(*media),
        r matches Some((name, size, kind)) ==> media_info_matches(
            *media,
            fix_extensions,
            name@,
            size,
            kind@,
        ),
{
    match media {
        MessageMedia::Photo(Some(Photo::Photo(p))) => {
            let id = signed_text(p.id);
            let name = joined3("photo_", id.as_str(), ".jpg");
            Some((name, largest_photo_size(&p.sizes), "photo".to_owned()))
        },
        MessageMedia::Document(Some(Document::Document(d))) => {
            let raw_name = name_of_document(d);
            let name = if fix_extensions {
                ensure_extension(raw_name.as_str(), d.mime_type.as_str())
            } else {
                raw_name
            };
            Some((name, unsigned_bits(d.size), kind_of_document(d)))
        },
        _ => None,
    }
}

// ------------------------------------------------------------ media items

/// A message's text as a caption: none where it is blank.
pub open spec fn caption_of(text: Seq<char>) -> Option<Seq<char>> {
    if is_blank(text) {
        None
    } else {
        Some(text)
    }
}

/// What a linked page is called: its title, else its site, else its address.
pub open spec fn display_name(p: PageData) -> Seq<char> {
    match (p.title, p.site_name) {
        (Some(title), _) => title@,
        (None, Some(site)) => site@,
        (None, None) => p.url@,
    }
}

/// A message with something to list: a linked page, or media to download.
pub open spec fn has_item(msg: MessageData) -> bool {
    msg.media matches Some(media) && (linked_page(media) is Some || is_downloadable(media))
}

/// `item` is what a message is listed as.
pub open spec fn item_matches(msg: MessageData, fix_extensions: bool, item: TelegramMediaItem) -> bool {
    &&& item.message_id == msg.id
    &&& item.date == msg.date
    &&& item.grouped_id == msg.grouped_id
    &&& opt_text(item.caption) == caption_of(msg.text@)
    &&& msg.media is Some
    &&& match linked_page(msg.media->0) {
        Some(p) => {
            &&& item.file_name@ == display_name(p)
            &&& item.file_size == 0
            &&& item.media_type@ == "webpage"@
            &&& item.webpage == Some(page_info(p))
        },
        None => {
            &&& item.webpage is None
            &&& media_info_matches(
                msg.media->0,
                fix_extensions,
                item.file_name@,
                item.file_size,
                item.media_type@,
            )
        },
    }
}

/// What a message is listed as, if it has anything to list.
pub fn media_item(msg: &MessageData, fix_extensions: bool) -> (r: Option<TelegramMediaItem>)
    ensures
        r is Some <==> has_item(*msg),
        r matches Some(item) ==> item_matches(*msg, fix_extensions, item),
{
    let media = match &msg.media {
        Some(m) => m,
        None => return None,
    };
    let caption = if blank_text(msg.text.as_str()) {
        None
    } else {
        Some(msg.text.clone())
    };
    if let Some(page) = extract_webpage_info_raw(media) {
        let display = match (&page.title, &page.site_name) {
            (Some(title), _) => title.clone(),
            (None, Some(site)) => site.clone(),
            (None, None) => page.url.clone(),
        };
        return Some(
            TelegramMediaItem {
                message_id: msg.id,
                file_name: display,
                file_size: 0,
                media_type: "webpage".to_owned(),
                date: msg.date as i64,
                webpage: Some(page),
                caption,
                grouped_id: msg.grouped_id,
            },
        );
    }
    match extract_raw_media_info(media, fix_extensions) {
        Some((file_name, file_size, media_type)) => Some(
            TelegramMediaItem {
                message_id: msg.id,
                file_name,
                file_size,
                media_type,
                date: msg.date as i64,
                webpage: None,
                caption,
                grouped_id: msg.grouped_id,
            },
        ),
        None => None,
    }
}

/// The messages of a reply that have something to list, in their order.
pub open spec fn listed_messages(messages: Seq<Message>) -> Seq<MessageData>
    decreases messages.len(),
{
    if messages.len() == 0 {
        Seq::empty()
    } else {
        let before = listed_messages(messages.drop_last());
        match messages.last() {
            Message::Message(m) => if has_item(m) {
                before.push(m)
            } else {
                before
            },
            _ => before,
        }
    }
}

/// `items` list `msgs`, one item for each message.
pub open spec fn items_match(
    msgs: Seq<MessageData>,
    fix_extensions: bool,
    items: Seq<TelegramMediaItem>,
) -> bool {
    &&& items.len() == msgs.len()
    &&& forall|i: int|
        0 <= i < items.len() ==> item_matches(msgs[i], fix_extensions, #[trigger] items[i])
}

/// Two items say the same, but perhaps for the name.
pub open spec fn same_but_name(a: TelegramMediaItem, b: TelegramMediaItem) -> bool {
    &&& a.message_id == b.message_id
    &&& a.file_size == b.file_size
    &&& a.media_type@ == b.media_type@
    &&& a.date == b.date
    &&& a.webpage == b.webpage
    &&& opt_text(a.caption) == opt_text(b.caption)
    &&& a.grouped_id == b.grouped_id
}

/// The name under which a message is listed is the same on every platform.
pub open spec fn has_settled_name(msg: MessageData, fix_extensions: bool) -> bool {
    msg.media matches Some(MessageMedia::Document(Some(Document::Document(d)))) ==> !fix_extensions
        || has_settled_extension(document_name(d))
}

/// `item` has the name that a platform gives it which calls `extension(path)` the extension
/// of a path.
pub open spec fn is_named_on(
    msg: MessageData,
    fix_extensions: bool,
    extension: spec_fn(Seq<char>) -> Option<Seq<char>>,
    item: TelegramMediaItem,
) -> bool {
    msg.media matches Some(MessageMedia::Document(Some(Document::Document(d)))) ==> fix_extensions
        ==> item.file_name@ == fixed_name(
        document_name(d),
        extension(document_name(d)),
        d.mime_type@,
    )
}

/// A message is listed as one item only: two items for it say the same, and have the
/// same name where they were named on one platform or all platforms agree on it.
pub proof fn lemma_one_item_for_a_message(
    msg: MessageData,
    fix_extensions: bool,
    extension: spec_fn(Seq<char>) -> Option<Seq<char>>,
    a: TelegramMediaItem,
    b: TelegramMediaItem,
)
    requires
        item_matches(msg, fix_extensions, a),
        item_matches(msg, fix_extensions, b),
    ensures
        same_but_name(a, b),
        has_settled_name(msg, fix_extensions) ==> a.file_name@ == b.file_name@,
        is_named_on(msg, fix_extensions, extension, a) && is_named_on(
            msg,
            fix_extensions,
            extension,
            b,
        ) ==> a.file_name@ == b.file_name@,
{
}

/// Lists the media of a reply's messages.
pub fn media_items(messages: &Vec<Message>, fix_extensions: bool) -> (r: Vec<TelegramMediaItem>)
    ensures
        items_match(listed_messages(messages@), fix_extensions, r@),
{
    let mut items: Vec<TelegramMediaItem> = Vec::new();
    let mut i: usize = 0;
    while i < messages.len()
        invariant
            i <= messages@.len(),
            items_match(listed_messages(messages@.take(i as int)), fix_extensions, items@),
        decreases messages@.len() - i,
    {
        proof {
            assert(messages@.take(i + 1).drop_last() =~= messages@.take(i as int));
        }
        if let Message::Message(msg) = &messages[i] {
            if let Some(item) = media_item(msg, fix_extensions) {
                items.push(item);
            }
        }
        i = i + 1;
    }
    proof {
        assert(messages@.take(i as int) =~= messages@);
    }
    items
}

// ------------------------------------------------------------ previews

pub open spec fn preview_label(media: Option<MessageMedia>) -> Seq<char> {
    match media {
        Some(MessageMedia::Photo(_)) => "📷 Photo"@,
        Some(MessageMedia::Document(_)) => "📎 File"@,
        Some(MessageMedia::WebPage(_)) => "🔗 Link"@,
        Some(MessageMedia::Geo) => "📍 Location"@,
        Some(MessageMedia::Contact) => "👤 Contact"@,
        Some(MessageMedia::Poll) => "📊 Poll"@,
        Some(MessageMedia::Game) => "🎮 Game"@,
        Some(MessageMedia::Venue) => "📍 Venue"@,
        Some(MessageMedia::Other) => "📦 Media"@,
        None => ""@,
    }
}

/// What stands for media in the preview of a message without text.
pub fn media_preview_label(media: &Option<MessageMedia>) -> (r: &'static str)
    ensures
        r@ == preview_label(*media),
{
    match media {
        Some(MessageMedia::Photo(_)) => "📷 Photo",
        Some(MessageMedia::Document(_)) => "📎 File",
        Some(MessageMedia::WebPage(_)) => "🔗 Link",
        Some(MessageMedia::Geo) => "📍 Location",
        Some(MessageMedia::Contact) => "👤 Contact",
        Some(MessageMedia::Poll) => "📊 Poll",
        Some(MessageMedia::Game) => "🎮 Game",
        Some(MessageMedia::Venue) => "📍 Venue",
        Some(MessageMedia::Other) => "📦 Media",
        None => "",
    }
}

// ------------------------------------------------------------ laws of lists of media

/// Each kind of media has a filter of its own, and what is no such kind has none.
pub proof fn lemma_filters_of_kinds(kind: Seq<char>)
    ensures
        filter_for(Some(kind)) is Photos <==> kind == "photo"@,
        filter_for(Some(kind)) is Video <==> kind == "video"@,
        filter_for(Some(kind)) is Document <==> kind == "document"@,
        filter_for(Some(kind)) is Music <==> kind == "audio"@,
        filter_for(Some(kind)) is Url <==> kind == "webpage"@,
        filter_for(Some(kind)) is Gif <==> kind == "gif"@,
        filter_for(Some(kind)) is RoundVideo <==> kind == "round_video"@,
        filter_for(Some(kind)) is RoundVoice <==> kind == "round_voice"@,
        filter_for(Some(kind)) is PhotoVideo <==> kind == "photo_video"@,
        filter_for(Some(kind)) is ChatPhotos <==> kind == "chat_photos"@,
        filter_for(None) is Empty,
{
    reveal_strlit("photo");
    reveal_strlit("video");
    reveal_strlit("document");
    reveal_strlit("audio");
    reveal_strlit("webpage");
    reveal_strlit("gif");
    reveal_strlit("round_video");
    reveal_strlit("round_voice");
    reveal_strlit("photo_video");
    reveal_strlit("chat_photos");
    assert("photo"@[0] == 'p' && "video"@[0] == 'v' && "audio"@[0] == 'a');
    assert("round_video"@[8] == 'd' && "round_voice"@[8] == 'i');
    assert("round_video"@[0] == 'r' && "photo_video"@[0] == 'p' && "chat_photos"@[0] == 'c');
    assert("round_voice"@[0] == 'r');
    assert("photo"@.len() == 5 && "video"@.len() == 5 && "audio"@.len() == 5);
    assert("document"@.len() == 8 && "webpage"@.len() == 7 && "gif"@.len() == 3);
    assert("round_video"@.len() == 11 && "round_voice"@.len() == 11);
    assert("photo_video"@.len() == 11 && "chat_photos"@.len() == 11);
}

/// The size of a photo is the largest of its sizes, and 0 only where all of them are.
pub proof fn lemma_largest_size(sizes: Seq<PhotoSize>)
    ensures
        forall|i: int|
            0 <= i < sizes.len() ==> (#[trigger] sizes[i] matches PhotoSize::Size { size, .. }
                ==> size >= 0 ==> size <= largest_size(sizes)),
        largest_size(sizes) == 0 || exists|k: int|
            0 <= k < sizes.len() && (#[trigger] sizes[k] matches PhotoSize::Size { size, .. }
                && as_unsigned(size as int) == largest_size(sizes)),
        0 <= largest_size(sizes),
    decreases sizes.len(),
{
    if sizes.len() > 0 {
        let front = sizes.drop_last();
        lemma_largest_size(front);
        assert forall|i: int| 0 <= i < sizes.len() implies (
        #[trigger] sizes[i] matches PhotoSize::Size { size, .. } ==> size >= 0 ==> size
            <= largest_size(sizes)) by {
            if i < front.len() {
                assert(front[i] == sizes[i]);
            }
        }
        if largest_size(sizes) != 0 {
            if largest_size(sizes) == largest_size(front) {
                let k = choose|k: int|
                    0 <= k < front.len() && (#[trigger] front[k] matches PhotoSize::Size {
                        size,
                        ..
                    } && as_unsigned(size as int) == largest_size(front));
                assert(sizes[k] == front[k]);
            } else {
                assert(sizes[sizes.len() - 1] == sizes.last());
            }
        }
    }
}

/// A document goes by the first name that it was given.
pub proof fn lemma_given_name(attrs: Seq<DocumentAttribute>, k: int)
    requires
        0 <= k < attrs.len(),
        attrs[k] is Filename,
        forall|i: int| 0 <= i < k ==> !(#[trigger] attrs[i] is Filename),
    ensures
        attrs[k] matches DocumentAttribute::Filename(name) && given_name(attrs) == Some(name),
    decreases k,
{
    if k > 0 {
        let rest = attrs.drop_first();
        assert(!(attrs[0] is Filename));
        assert forall|i: int| 0 <= i < k - 1 implies !(#[trigger] rest[i] is Filename) by {
            assert(rest[i] == attrs[i + 1]);
        }
        lemma_given_name(rest, k - 1);
    }
}

/// A document that was given no name has none.
pub proof fn lemma_no_given_name(attrs: Seq<DocumentAttribute>)
    requires
        forall|i: int| 0 <= i < attrs.len() ==> !(#[trigger] attrs[i] is Filename),
    ensures
        given_name(attrs) is None,
    decreases attrs.len(),
{
    if attrs.len() > 0 {
        let rest = attrs.drop_first();
        assert(!(attrs[0] is Filename));
        assert forall|i: int| 0 <= i < rest.len() implies !(#[trigger] rest[i] is Filename) by {
            assert(rest[i] == attrs[i + 1]);
        }
        lemma_no_given_name(rest);
    }
}

/// A message that is listed: one that carries a photo, a document or a web page.
pub open spec fn carries_media(m: MessageData) -> bool {
    ||| m.media matches Some(MessageMedia::Photo(Some(Photo::Photo(_))))
    ||| m.media matches Some(MessageMedia::Document(Some(Document::Document(_))))
    ||| m.media matches Some(MessageMedia::WebPage(WebPage::Page(_)))
}

/// The messages of two runs are listed one after the other; a message is listed exactly
/// where it carries a photo, a document or a web page.
pub proof fn lemma_listed_messages_add_up(a: Seq<Message>, b: Seq<Message>, m: Message)
    ensures
        listed_messages(a + b) == listed_messages(a) + listed_messages(b),
        listed_messages(seq![m]) == (match m {
            Message::Message(d) => if carries_media(d) {
                seq![d]
            } else {
                Seq::empty()
            },
            _ => Seq::empty(),
        }),
    decreases b.len(),
{
    let none = Seq::<Message>::empty();
    assert(seq![m].drop_last() =~= none);
    assert(listed_messages(none) =~= Seq::<MessageData>::empty());
    assert(m matches Message::Message(d) ==> has_item(d) == carries_media(d));
    if m is Message && carries_media(m->Message_0) {
        assert(listed_messages(seq![m]) =~= seq![m->Message_0]);
    }
    if b.len() == 0 {
        assert(a + b =~= a);
        assert(listed_messages(a + b) =~= listed_messages(a) + listed_messages(b));
    } else {
        lemma_listed_messages_add_up(a, b.drop_last(), m);
        assert((a + b).drop_last() =~= a + b.drop_last());
        assert(listed_messages(a + b) =~= listed_messages(a) + listed_messages(b));
    }
}

/// What an item says of its message: its number and date, its album and caption, and the
/// name, size and kind of what it carries.
pub open spec fn tells_of(item: TelegramMediaItem, m: MessageData) -> bool {
    &&& item.message_id == m.id
    &&& item.date == m.date
    &&& item.grouped_id == m.grouped_id
    &&& item.caption is Some <==> !is_blank(m.text@)
    &&& item.caption matches Some(c) ==> c@ == m.text@
    &&& match m.media {
        Some(MessageMedia::Photo(Some(Photo::Photo(p)))) => {
            &&& item.media_type@ == "photo"@
            &&& item.webpage is None
            &&& item.file_name@ == "photo_"@ + signed_decimal(p.id as int) + ".jpg"@
            &&& forall|i: int|
                0 <= i < p.sizes@.len() ==> (#[trigger] p.sizes@[i] matches PhotoSize::Size {
                    size,
                    ..
                } ==> size >= 0 ==> size <= item.file_size)
        },
        Some(MessageMedia::Document(Some(Document::Document(d)))) => {
            &&& item.webpage is None
            &&& d.size >= 0 ==> item.file_size == d.size
            &&& item.media_type@ == document_kind(d.attributes@, d.mime_type@)
        },
        Some(MessageMedia::WebPage(WebPage::Page(p))) => {
            &&& item.media_type@ == "webpage"@
            &&& item.file_size == 0
            &&& item.webpage matches Some(w) && w.url == p.url && w.title == p.title
                && w.embed_url == p.embed_url && w.site_name == p.site_name && w.description
                == p.description
            &&& p.title matches Some(title) ==> item.file_name@ == title@
            &&& p.title is None && p.site_name is None ==> item.file_name@ == p.url@
        },
        _ => false,
    }
}

/// An item tells of its message.
pub proof fn lemma_item_tells_of_its_message(
    m: MessageData,
    fix_extensions: bool,
    item: TelegramMediaItem,
)
    requires
        item_matches(m, fix_extensions, item),
    ensures
        tells_of(item, m),
{
    if let Some(MessageMedia::Photo(Some(Photo::Photo(p)))) = m.media {
        lemma_largest_size(p.sizes@);
    }
}

pub(crate) proof fn lemma_listed_place(messages: Seq<Message>, k: int)
    requires
        0 <= k < messages.len(),
        messages[k] matches Message::Message(m) && carries_media(m),
    ensures
        ({
            let at = listed_messages(messages.take(k)).len() as int;
            at < listed_messages(messages).len() && listed_messages(messages)[at]
                == messages[k]->Message_0
        }),
{
    let head = messages.take(k);
    let rest = messages.skip(k + 1);
    let one = seq![messages[k]];
    assert(head + one + rest =~= messages);
    lemma_listed_messages_add_up(head, one, messages[k]);
    lemma_listed_messages_add_up(head + one, rest, messages[k]);
}

/// Every message of a reply that carries media is listed, behind the items of the messages
/// before it.
pub proof fn lemma_every_media_is_listed(
    messages: Seq<Message>,
    fix_extensions: bool,
    items: Seq<TelegramMediaItem>,
    k: int,
)
    requires
        items_match(listed_messages(messages), fix_extensions, items),
        0 <= k < messages.len(),
        messages[k] matches Message::Message(m) && carries_media(m),
    ensures
        ({
            let at = listed_messages(messages.take(k)).len() as int;
            at < items.len() && tells_of(items[at], messages[k]->Message_0)
        }),
{
    lemma_listed_place(messages, k);
    let at = listed_messages(messages.take(k)).len() as int;
    assert(item_matches(listed_messages(messages)[at], fix_extensions, items[at]));
    lemma_item_tells_of_its_message(messages[k]->Message_0, fix_extensions, items[at]);
}

proof fn lemma_listed_is_one(messages: Seq<Message>, i: int)
    requires
        0 <= i < listed_messages(messages).len(),
    ensures
        exists|k: int|
            0 <= k < messages.len() && #[trigger] messages[k] == Message::Message(
                listed_messages(messages)[i],
            ),
        carries_media(listed_messages(messages)[i]),
    decreases messages.len(),
{
    let front = messages.drop_last();
    let before = listed_messages(front);
    let d = listed_messages(messages)[i];
    if i < before.len() {
        assert(before[i] == d);
        lemma_listed_is_one(front, i);
        let k = choose|k: int| 0 <= k < front.len() && #[trigger] front[k] == Message::Message(d);
        assert(messages[k] == Message::Message(d));
    } else {
        assert(messages[messages.len() - 1] == Message::Message(d));
    }
}

/// Every item that is listed tells of a message of the reply that carries media.
pub proof fn lemma_every_item_has_a_message(
    messages: Seq<Message>,
    fix_extensions: bool,
    items: Seq<TelegramMediaItem>,
    i: int,
)
    requires
        items_match(listed_messages(messages), fix_extensions, items),
        0 <= i < items.len(),
    ensures
        exists|k: int|
            0 <= k < messages.len() && (#[trigger] messages[k] matches Message::Message(m)
                && carries_media(m) && tells_of(items[i], m)),
{
    lemma_listed_is_one(messages, i);
    let d = listed_messages(messages)[i];
    let k = choose|k: int| 0 <= k < messages.len() && #[trigger] messages[k] == Message::Message(d);
    assert(item_matches(d, fix_extensions, items[i]));
    lemma_item_tells_of_its_message(d, fix_extensions, items[i]);
    assert(messages[k] == Message::Message(d));
}

/// A document without marks of its own is of the kind that its MIME type says, and marks
/// count before it: voice before round, round before animated.
pub proof fn lemma_document_kinds(attrs: Seq<DocumentAttribute>, mime: Seq<char>)
    ensures
        ({
            let voice = exists|i: int|
                0 <= i < attrs.len() && (#[trigger] attrs[i] matches DocumentAttribute::Audio {
                    voice,
                } && voice);
            let round = exists|i: int|
                0 <= i < attrs.len() && (#[trigger] attrs[i] matches DocumentAttribute::Video {
                    round_message,
                } && round_message);
            let animated = exists|i: int| 0 <= i < attrs.len() && #[trigger] attrs[i] is Animated;
            let kind = document_kind(attrs, mime);
            &&& voice ==> kind == "voice"@
            &&& !voice && round ==> kind == "round_video"@
            &&& !voice && !round && animated ==> kind == "gif"@
            &&& !voice && !round && !animated ==> {
                &&& begins_with(mime, "video/"@) ==> kind == "video"@
                &&& begins_with(mime, "audio/"@) && !begins_with(mime, "video/"@) ==> kind
                    == "audio"@
                &&& begins_with(mime, "image/"@) && !begins_with(mime, "video/"@) && !begins_with(
                    mime,
                    "audio/"@,
                ) ==> kind == "photo"@
                &&& !begins_with(mime, "video/"@) && !begins_with(mime, "audio/"@) && !begins_with(
                    mime,
                    "image/"@,
                ) ==> kind == "document"@
            }
        }),
{
    let voice = exists|i: int|
        0 <= i < attrs.len() && (#[trigger] attrs[i] matches DocumentAttribute::Audio { voice }
            && voice);
    let round = exists|i: int|
        0 <= i < attrs.len() && (#[trigger] attrs[i] matches DocumentAttribute::Video {
            round_message,
        } && round_message);
    if voice {
        let i = choose|i: int|
            0 <= i < attrs.len() && (#[trigger] attrs[i] matches DocumentAttribute::Audio { voice }
                && voice);
        assert(is_voice(attrs[i]));
    }
    if round {
        let i = choose|i: int|
            0 <= i < attrs.len() && (#[trigger] attrs[i] matches DocumentAttribute::Video {
                round_message,
            } && round_message);
        assert(is_round(attrs[i]));
    }
}

/// A name that was given to a document is its name; without one its number stands for it.
pub proof fn lemma_document_names(d: DocumentData)
    ensures
        given_name(d.attributes@) matches Some(name) ==> document_name(d) == name@,
        given_name(d.attributes@) is None ==> {
            let number = signed_decimal(d.id as int);
            let ext = mime_ext(d.mime_type@);
            &&& ext.len() > 0 ==> document_name(d) == number + ext
            &&& ext.len() == 0 ==> document_name(d) == "file_"@ + number
        },
{
}

/// A name with a known extension, in whatever letters, is kept; any other gets the
/// extension of its type behind it.
pub proof fn lemma_names_are_extended(name: Seq<char>, ext: Option<Seq<char>>, mime: Seq<char>)
    ensures
        ext matches Some(e) ==> is_known_ext(lower_text(e)) ==> fixed_name(name, ext, mime) == name,
        ext matches Some(e) ==> !is_known_ext(lower_text(e)) ==> fixed_name(name, ext, mime) == name
            + mime_ext(mime),
        ext is None ==> fixed_name(name, ext, mime) == name + mime_ext(mime),
{
}

/// A document is listed under its own name, unless extensions are mended; and then under
/// this name, or with an extension behind it.
pub proof fn lemma_document_item_name(m: MessageData, fix_extensions: bool, item: TelegramMediaItem)
    requires
        item_matches(m, fix_extensions, item),
    ensures
        m.media matches Some(MessageMedia::Document(Some(Document::Document(d)))) ==> {
            &&& !fix_extensions ==> item.file_name@ == document_name(d)
            &&& fix_extensions ==> item.file_name@ == document_name(d) || item.file_name@
                == document_name(d) + mime_ext(d.mime_type@)
        },
{
    if let Some(MessageMedia::Document(Some(Document::Document(d)))) = m.media {
        if fix_extensions {
            lemma_fixed_name_extends(document_name(d), d.mime_type@, item.file_name@);
        }
    }
}

/// Media always leaves a mark in a preview, and nothing else does.
pub proof fn lemma_preview_labels(media: Option<MessageMedia>)
    ensures
        preview_label(media).len() == 0 <==> media is None,
{
    reveal_strlit("📷 Photo");
    reveal_strlit("📎 File");
    reveal_strlit("🔗 Link");
    reveal_strlit("📍 Location");
    reveal_strlit("👤 Contact");
    reveal_strlit("📊 Poll");
    reveal_strlit("🎮 Game");
    reveal_strlit("📍 Venue");
    reveal_strlit("📦 Media");
    reveal_strlit("");
}

/// Sizes keep their value, and negative ones that of their bits.
pub proof fn lemma_unsigned_bits(n: i64)
    ensures
        n >= 0 ==> as_unsigned(n as int) == n,
        0 <= as_unsigned(n as int) <= u64::MAX,
        as_unsigned(n as int) % 0x1_0000_0000_0000_0000 == n as int % 0x1_0000_0000_0000_0000,
{
}

/// A type that is not known goes by the name behind its slash, if that is an extension.
pub proof fn lemma_names_of_types(sub: Seq<char>)
    ensures
        subtype_ext(sub).len() == 0 || subtype_ext(sub) == "."@ + sub || (sub == "jpeg"@
            && subtype_ext(sub) == ".jpg"@),
{
    reveal_strlit(".");
    reveal_strlit("mp4");
    reveal_strlit(".mp4");
    reveal_strlit("mpeg");
    reveal_strlit(".mpeg");
    reveal_strlit("ogg");
    reveal_strlit(".ogg");
    reveal_strlit("webm");
    reveal_strlit(".webm");
    reveal_strlit("flac");
    reveal_strlit(".flac");
    reveal_strlit("wav");
    reveal_strlit(".wav");
    reveal_strlit("png");
    reveal_strlit(".png");
    reveal_strlit("gif");
    reveal_strlit(".gif");
    reveal_strlit("");
    assert(".mp4"@ =~= "."@ + "mp4"@);
    assert(".mpeg"@ =~= "."@ + "mpeg"@);
    assert(".ogg"@ =~= "."@ + "ogg"@);
    assert(".webm"@ =~= "."@ + "webm"@);
    assert(".flac"@ =~= "."@ + "flac"@);
    assert(".wav"@ =~= "."@ + "wav"@);
    assert(".png"@ =~= "."@ + "png"@);
    assert(".gif"@ =~= "."@ + "gif"@);
}

/// These extensions belong to the types named here and to no other.
pub proof fn lemma_types_of_an_extension(mime: Seq<char>)
    ensures
        mime_ext(mime) == ".mkv"@ <==> mime == "video/x-matroska"@,
        mime_ext(mime) == ".mov"@ <==> mime == "video/quicktime"@,
        mime_ext(mime) == ".avi"@ <==> mime == "video/x-msvideo"@,
        mime_ext(mime) == ".3gp"@ <==> mime == "video/3gpp"@,
        mime_ext(mime) == ".flv"@ <==> mime == "video/x-flv"@,
        mime_ext(mime) == ".mp3"@ <==> (mime == "audio/mpeg"@ || mime == "audio/mp3"@),
        mime_ext(mime) == ".opus"@ <==> mime == "audio/x-opus+ogg"@,
        mime_ext(mime) == ".aac"@ <==> (mime == "audio/aac"@ || mime == "audio/x-aac"@),
        mime_ext(mime) == ".m4a"@ <==> (mime == "audio/mp4"@ || mime == "audio/x-m4a"@),
        mime_ext(mime) == ".wma"@ <==> mime == "audio/x-ms-wma"@,
        mime_ext(mime) == ".webp"@ <==> mime == "image/webp"@,
        mime_ext(mime) == ".bmp"@ <==> mime == "image/bmp"@,
        mime_ext(mime) == ".svg"@ <==> mime == "image/svg+xml"@,
        mime_ext(mime) == ".tiff"@ <==> mime == "image/tiff"@,
        mime_ext(mime) == ".pdf"@ <==> mime == "application/pdf"@,
        mime_ext(mime) == ".zip"@ <==> mime == "application/zip"@,
        mime_ext(mime) == ".rar"@ <==> (mime == "application/x-rar-compressed"@ || mime == "application/vnd.rar"@),
        mime_ext(mime) == ".7z"@ <==> mime == "application/x-7z-compressed"@,
        mime_ext(mime) == ".gz"@ <==> (mime == "application/gzip"@ || mime == "application/x-gzip"@),
        mime_ext(mime) == ".tar"@ <==> mime == "application/x-tar"@,
        mime_ext(mime) == ".json"@ <==> mime == "application/json"@,
        mime_ext(mime) == ".xml"@ <==> (mime == "application/xml"@ || mime == "text/xml"@),
        mime_ext(mime) == ".txt"@ <==> mime == "text/plain"@,
        mime_ext(mime) == ".html"@ <==> mime == "text/html"@,
        mime_ext(mime) == ".csv"@ <==> mime == "text/csv"@,
        mime_ext(mime) == ".docx"@ <==> mime == "application/vnd.openxmlformats-officedocument.wordprocessingml.document"@,
        mime_ext(mime) == ".xlsx"@ <==> mime == "application/vnd.openxmlformats-officedocument.spreadsheetml.sheet"@,
        mime_ext(mime) == ".pptx"@ <==> mime == "application/vnd.openxmlformats-officedocument.presentationml.presentation"@,
        mime_ext(mime) == ".doc"@ <==> mime == "application/msword"@,
        mime_ext(mime) == ".xls"@ <==> mime == "application/vnd.ms-excel"@,
        mime_ext(mime) == ".ppt"@ <==> mime == "application/vnd.ms-powerpoint"@,
        mime_ext(mime) == ".py"@ <==> (mime == "application/x-python-script"@ || mime == "text/x-python"@),
        mime_ext(mime) == ".js"@ <==> (mime == "application/javascript"@ || mime == "text/javascript"@),
{
    reveal_strlit("");
    assert(""@.len() == 0);
    reveal_strlit(".mkv");
    reveal_strlit(".mov");
    reveal_strlit(".avi");
    reveal_strlit(".3gp");
    reveal_strlit(".flv");
    reveal_strlit(".mp3");
    reveal_strlit(".opus");
    reveal_strlit(".aac");
    reveal_strlit(".m4a");
    reveal_strlit(".wma");
    reveal_strlit(".webp");
    reveal_strlit(".bmp");
    reveal_strlit(".svg");
    reveal_strlit(".tiff");
    reveal_strlit(".pdf");
    reveal_strlit(".zip");
    reveal_strlit(".rar");
    reveal_strlit(".7z");
    reveal_strlit(".gz");
    reveal_strlit(".tar");
    reveal_strlit(".json");
    reveal_strlit(".xml");
    reveal_strlit(".txt");
    reveal_strlit(".html");
    reveal_strlit(".csv");
    reveal_strlit(".docx");
    reveal_strlit(".xlsx");
    reveal_strlit(".pptx");
    reveal_strlit(".doc");
    reveal_strlit(".xls");
    reveal_strlit(".ppt");
    reveal_strlit(".py");
    reveal_strlit(".js");
    reveal_strlit(".mp4");
    reveal_strlit(".mpeg");
    reveal_strlit(".ogg");
    reveal_strlit(".webm");
    reveal_strlit(".flac");
    reveal_strlit(".wav");
    reveal_strlit(".jpg");
    reveal_strlit(".png");
    reveal_strlit(".gif");
    reveal_strlit("video/x-matroska");
    reveal_strlit("video/quicktime");
    reveal_strlit("video/x-msvideo");
    reveal_strlit("video/3gpp");
    reveal_strlit("video/x-flv");
    reveal_strlit("audio/mpeg");
    reveal_strlit("audio/mp3");
    reveal_strlit("audio/x-opus+ogg");
    reveal_strlit("audio/aac");
    reveal_strlit("audio/x-aac");
    reveal_strlit("audio/mp4");
    reveal_strlit("audio/x-m4a");
    reveal_strlit("audio/x-ms-wma");
    reveal_strlit("image/webp");
    reveal_strlit("image/bmp");
    reveal_strlit("image/svg+xml");
    reveal_strlit("image/tiff");
    reveal_strlit("application/pdf");
    reveal_strlit("application/zip");
    reveal_strlit("application/x-rar-compressed");
    reveal_strlit("application/vnd.rar");
    reveal_strlit("application/x-7z-compressed");
    reveal_strlit("application/gzip");
    reveal_strlit("application/x-gzip");
    reveal_strlit("application/x-tar");
    reveal_strlit("application/json");
    reveal_strlit("application/xml");
    reveal_strlit("text/xml");
    reveal_strlit("text/plain");
    reveal_strlit("text/html");
    reveal_strlit("text/csv");
    reveal_strlit("application/vnd.openxmlformats-officedocument.wordprocessingml.document");
    reveal_strlit("application/vnd.openxmlformats-officedocument.spreadsheetml.sheet");
    reveal_strlit("application/vnd.openxmlformats-officedocument.presentationml.presentation");
    reveal_strlit("application/msword");
    reveal_strlit("application/vnd.ms-excel");
    reveal_strlit("application/vnd.ms-powerpoint");
    reveal_strlit("application/x-python-script");
    reveal_strlit("text/x-python");
    reveal_strlit("application/javascript");
    reveal_strlit("text/javascript");
    reveal_strlit("video/mp4");
    reveal_strlit("video/webm");
    reveal_strlit("video/mpeg");
    reveal_strlit("audio/ogg");
    reveal_strlit("audio/flac");
    reveal_strlit("audio/x-flac");
    reveal_strlit("audio/x-wav");
    reveal_strlit("audio/wav");
    reveal_strlit("image/jpeg");
    reveal_strlit("image/png");
    reveal_strlit("image/gif");
    assert(".mkv"@.len() == 4 && ".mkv"@[2] == 'k' && ".mkv"@[3] == 'v');
    assert(".mov"@.len() == 4 && ".mov"@[2] == 'o' && ".mov"@[3] == 'v');
    assert(".avi"@.len() == 4 && ".avi"@[2] == 'v' && ".avi"@[3] == 'i');
    assert(".3gp"@.len() == 4 && ".3gp"@[2] == 'g' && ".3gp"@[3] == 'p');
    assert(".flv"@.len() == 4 && ".flv"@[2] == 'l' && ".flv"@[3] == 'v');
    assert(".mp3"@.len() == 4 && ".mp3"@[2] == 'p' && ".mp3"@[3] == '3');
    assert(".opus"@.len() == 5 && ".opus"@[4] == 's');
    assert(".aac"@.len() == 4 && ".aac"@[2] == 'a' && ".aac"@[3] == 'c');
    assert(".m4a"@.len() == 4 && ".m4a"@[2] == '4' && ".m4a"@[3] == 'a');
    assert(".wma"@.len() == 4 && ".wma"@[2] == 'm' && ".wma"@[3] == 'a');
    assert(".webp"@.len() == 5 && ".webp"@[4] == 'p');
    assert(".bmp"@.len() == 4 && ".bmp"@[2] == 'm' && ".bmp"@[3] == 'p');
    assert(".svg"@.len() == 4 && ".svg"@[2] == 'v' && ".svg"@[3] == 'g');
    assert(".tiff"@.len() == 5 && ".tiff"@[4] == 'f');
    assert(".pdf"@.len() == 4 && ".pdf"@[2] == 'd' && ".pdf"@[3] == 'f');
    assert(".zip"@.len() == 4 && ".zip"@[2] == 'i' && ".zip"@[3] == 'p');
    assert(".rar"@.len() == 4 && ".rar"@[1] == 'r' && ".rar"@[2] == 'a' && ".rar"@[3] == 'r');
    assert(".7z"@.len() == 3 && ".7z"@[1] == '7');
    assert(".gz"@.len() == 3 && ".gz"@[1] == 'g');
    assert(".tar"@.len() == 4 && ".tar"@[1] == 't' && ".tar"@[2] == 'a' && ".tar"@[3] == 'r');
    assert(".json"@.len() == 5 && ".json"@[4] == 'n');
    assert(".xml"@.len() == 4 && ".xml"@[2] == 'm' && ".xml"@[3] == 'l');
    assert(".txt"@.len() == 4 && ".txt"@[2] == 'x' && ".txt"@[3] == 't');
    assert(".html"@.len() == 5 && ".html"@[4] == 'l');
    assert(".csv"@.len() == 4 && ".csv"@[2] == 's' && ".csv"@[3] == 'v');
    assert(".docx"@.len() == 5 && ".docx"@[3] == 'c' && ".docx"@[4] == 'x');
    assert(".xlsx"@.len() == 5 && ".xlsx"@[3] == 's' && ".xlsx"@[4] == 'x');
    assert(".pptx"@.len() == 5 && ".pptx"@[3] == 't' && ".pptx"@[4] == 'x');
    assert(".doc"@.len() == 4 && ".doc"@[2] == 'o' && ".doc"@[3] == 'c');
    assert(".xls"@.len() == 4 && ".xls"@[2] == 'l' && ".xls"@[3] == 's');
    assert(".ppt"@.len() == 4 && ".ppt"@[2] == 'p' && ".ppt"@[3] == 't');
    assert(".py"@.len() == 3 && ".py"@[1] == 'p');
    assert(".js"@.len() == 3 && ".js"@[1] == 'j');
    assert(".mp4"@.len() == 4 && ".mp4"@[2] == 'p' && ".mp4"@[3] == '4');
    assert(".mpeg"@.len() == 5 && ".mpeg"@[4] == 'g');
    assert(".ogg"@.len() == 4 && ".ogg"@[2] == 'g' && ".ogg"@[3] == 'g');
    assert(".webm"@.len() == 5 && ".webm"@[4] == 'm');
    assert(".flac"@.len() == 5 && ".flac"@[4] == 'c');
    assert(".wav"@.len() == 4 && ".wav"@[2] == 'a' && ".wav"@[3] == 'v');
    assert(".jpg"@.len() == 4 && ".jpg"@[2] == 'p' && ".jpg"@[3] == 'g');
    assert(".png"@.len() == 4 && ".png"@[2] == 'n' && ".png"@[3] == 'g');
    assert(".gif"@.len() == 4 && ".gif"@[2] == 'i' && ".gif"@[3] == 'f');
    assert("video/x-matroska"@.len() == 16 && "video/x-matroska"@[15] == 'a');
    assert("video/quicktime"@.len() == 15 && "video/quicktime"@[14] == 'e');
    assert("video/x-msvideo"@.len() == 15 && "video/x-msvideo"@[14] == 'o');
    assert("video/3gpp"@.len() == 10 && "video/3gpp"@[8] == 'p' && "video/3gpp"@[9] == 'p');
    assert("video/x-flv"@.len() == 11 && "video/x-flv"@[9] == 'l' && "video/x-flv"@[10] == 'v');
    assert("audio/mpeg"@.len() == 10 && "audio/mpeg"@[3] == 'i' && "audio/mpeg"@[9] == 'g');
    assert("audio/mp3"@.len() == 9 && "audio/mp3"@[8] == '3');
    assert("audio/x-opus+ogg"@.len() == 16 && "audio/x-opus+ogg"@[15] == 'g');
    assert("audio/aac"@.len() == 9 && "audio/aac"@[8] == 'c');
    assert("audio/x-aac"@.len() == 11 && "audio/x-aac"@[10] == 'c');
    assert("audio/mp4"@.len() == 9 && "audio/mp4"@[3] == 'i' && "audio/mp4"@[8] == '4');
    assert("audio/x-m4a"@.len() == 11 && "audio/x-m4a"@[10] == 'a');
    assert("audio/x-ms-wma"@.len() == 14);
    assert("image/webp"@.len() == 10 && "image/webp"@[8] == 'b' && "image/webp"@[9] == 'p');
    assert("image/bmp"@.len() == 9 && "image/bmp"@[8] == 'p');
    assert("image/svg+xml"@.len() == 13 && "image/svg+xml"@[12] == 'l');
    assert("image/tiff"@.len() == 10 && "image/tiff"@[9] == 'f');
    assert("application/pdf"@.len() == 15 && "application/pdf"@[14] == 'f');
    assert("application/zip"@.len() == 15 && "application/zip"@[14] == 'p');
    assert("application/x-rar-compressed"@.len() == 28);
    assert("application/vnd.rar"@.len() == 19);
    assert("application/x-7z-compressed"@.len() == 27 && "application/x-7z-compressed"@[26] == 'd');
    assert("application/gzip"@.len() == 16 && "application/gzip"@[15] == 'p');
    assert("application/x-gzip"@.len() == 18 && "application/x-gzip"@[17] == 'p');
    assert("application/x-tar"@.len() == 17);
    assert("application/json"@.len() == 16 && "application/json"@[15] == 'n');
    assert("application/xml"@.len() == 15 && "application/xml"@[14] == 'l');
    assert("text/xml"@.len() == 8 && "text/xml"@[7] == 'l');
    assert("text/plain"@.len() == 10 && "text/plain"@[9] == 'n');
    assert("text/html"@.len() == 9 && "text/html"@[8] == 'l');
    assert("text/csv"@.len() == 8 && "text/csv"@[7] == 'v');
    assert("application/vnd.openxmlformats-officedocument.wordprocessingml.document"@.len() == 71);
    assert("application/vnd.openxmlformats-officedocument.spreadsheetml.sheet"@.len() == 65);
    assert("application/vnd.openxmlformats-officedocument.presentationml.presentation"@.len() == 73);
    assert("application/msword"@.len() == 18 && "application/msword"@[17] == 'd');
    assert("application/vnd.ms-excel"@.len() == 24);
    assert("application/vnd.ms-powerpoint"@.len() == 29);
    assert("application/x-python-script"@.len() == 27 && "application/x-python-script"@[26] == 't');
    assert("text/x-python"@.len() == 13 && "text/x-python"@[12] == 'n');
    assert("application/javascript"@.len() == 22);
    assert("text/javascript"@.len() == 15 && "text/javascript"@[14] == 't');
    assert("video/mp4"@.len() == 9 && "video/mp4"@[3] == 'e' && "video/mp4"@[8] == '4');
    assert("video/webm"@.len() == 10 && "video/webm"@[9] == 'm');
    assert("video/mpeg"@.len() == 10 && "video/mpeg"@[3] == 'e' && "video/mpeg"@[9] == 'g');
    assert("audio/ogg"@.len() == 9 && "audio/ogg"@[7] == 'g' && "audio/ogg"@[8] == 'g');
    assert("audio/flac"@.len() == 10 && "audio/flac"@[9] == 'c');
    assert("audio/x-flac"@.len() == 12);
    assert("audio/x-wav"@.len() == 11 && "audio/x-wav"@[9] == 'a' && "audio/x-wav"@[10] == 'v');
    assert("audio/wav"@.len() == 9 && "audio/wav"@[8] == 'v');
    assert("image/jpeg"@.len() == 10 && "image/jpeg"@[3] == 'g' && "image/jpeg"@[9] == 'g');
    assert("image/png"@.len() == 9 && "image/png"@[7] == 'n' && "image/png"@[8] == 'g');
    assert("image/gif"@.len() == 9 && "image/gif"@[8] == 'f');
}

/// Of a type that is not known by its full name, the name behind the slash counts, whatever
/// stands before it.
pub proof fn lemma_any_type_of_a_name(main: Seq<char>)
    requires
        forall|i: int| 0 <= i < main.len() ==> #[trigger] main[i] != '/',
    ensures
        mime_ext(main.push('/') + "ogg"@) == ".ogg"@,
        mime_ext(main.push('/') + "webm"@) == ".webm"@,
        mime_ext(main.push('/') + "flac"@) == ".flac"@,
        mime_ext(main.push('/') + "wav"@) == ".wav"@,
        mime_ext(main.push('/') + "png"@) == ".png"@,
        mime_ext(main.push('/') + "gif"@) == ".gif"@,
        mime_ext(main.push('/') + "jpeg"@) == ".jpg"@,
        main != "audio"@ ==> mime_ext(main.push('/') + "mp4"@) == ".mp4"@,
        main != "audio"@ ==> mime_ext(main.push('/') + "mpeg"@) == ".mpeg"@,
        mime_ext(main).len() == 0,
{
    reveal_strlit("");
    assert(""@.len() == 0);
    reveal_strlit("audio");
    reveal_strlit("video/x-matroska");
    reveal_strlit("video/quicktime");
    reveal_strlit("video/x-msvideo");
    reveal_strlit("video/3gpp");
    reveal_strlit("video/x-flv");
    reveal_strlit("audio/mpeg");
    reveal_strlit("audio/mp3");
    reveal_strlit("audio/x-opus+ogg");
    reveal_strlit("audio/aac");
    reveal_strlit("audio/x-aac");
    reveal_strlit("audio/mp4");
    reveal_strlit("audio/x-m4a");
    reveal_strlit("audio/x-ms-wma");
    reveal_strlit("image/webp");
    reveal_strlit("image/bmp");
    reveal_strlit("image/svg+xml");
    reveal_strlit("image/tiff");
    reveal_strlit("application/pdf");
    reveal_strlit("application/zip");
    reveal_strlit("application/x-rar-compressed");
    reveal_strlit("application/vnd.rar");
    reveal_strlit("application/x-7z-compressed");
    reveal_strlit("application/gzip");
    reveal_strlit("application/x-gzip");
    reveal_strlit("application/x-tar");
    reveal_strlit("application/json");
    reveal_strlit("application/xml");
    reveal_strlit("text/xml");
    reveal_strlit("text/plain");
    reveal_strlit("text/html");
    reveal_strlit("text/csv");
    reveal_strlit("application/vnd.openxmlformats-officedocument.wordprocessingml.document");
    reveal_strlit("application/vnd.openxmlformats-officedocument.spreadsheetml.sheet");
    reveal_strlit("application/vnd.openxmlformats-officedocument.presentationml.presentation");
    reveal_strlit("application/msword");
    reveal_strlit("application/vnd.ms-excel");
    reveal_strlit("application/vnd.ms-powerpoint");
    reveal_strlit("application/x-python-script");
    reveal_strlit("text/x-python");
    reveal_strlit("application/javascript");
    reveal_strlit("text/javascript");
    reveal_strlit("video/mp4");
    reveal_strlit("video/webm");
    reveal_strlit("video/mpeg");
    reveal_strlit("audio/ogg");
    reveal_strlit("audio/flac");
    reveal_strlit("audio/x-flac");
    reveal_strlit("audio/x-wav");
    reveal_strlit("audio/wav");
    reveal_strlit("image/jpeg");
    reveal_strlit("image/png");
    reveal_strlit("image/gif");
    assert("video/x-matroska"@.len() == 16 && "video/x-matroska"@[15] == 'a' && "video/x-matroska"@[5] == '/');
    assert("video/quicktime"@.len() == 15 && "video/quicktime"@[14] == 'e' && "video/quicktime"@[5] == '/');
    assert("video/x-msvideo"@.len() == 15 && "video/x-msvideo"@[14] == 'o' && "video/x-msvideo"@[5] == '/');
    assert("video/3gpp"@.len() == 10 && "video/3gpp"@[9] == 'p' && "video/3gpp"@[5] == '/');
    assert("video/x-flv"@.len() == 11 && "video/x-flv"@[10] == 'v' && "video/x-flv"@[9] == 'l' && "video/x-flv"@[5] == '/');
    assert("audio/mpeg"@.len() == 10 && "audio/mpeg"@[8] == 'e' && "audio/mpeg"@[6] == 'm' && "audio/mpeg"@[5] == '/');
    assert("audio/mp3"@.len() == 9 && "audio/mp3"@[8] == '3' && "audio/mp3"@[5] == '/');
    assert("audio/x-opus+ogg"@.len() == 16 && "audio/x-opus+ogg"@[12] == '+' && "audio/x-opus+ogg"@[5] == '/');
    assert("audio/aac"@.len() == 9 && "audio/aac"@[8] == 'c' && "audio/aac"@[6] == 'a' && "audio/aac"@[5] == '/');
    assert("audio/x-aac"@.len() == 11 && "audio/x-aac"@[10] == 'c' && "audio/x-aac"@[8] == 'a' && "audio/x-aac"@[5] == '/');
    assert("audio/mp4"@.len() == 9 && "audio/mp4"@[8] == '4' && "audio/mp4"@[5] == '/');
    assert("audio/x-m4a"@.len() == 11 && "audio/x-m4a"@[10] == 'a' && "audio/x-m4a"@[5] == '/');
    assert("audio/x-ms-wma"@.len() == 14 && "audio/x-ms-wma"@[13] == 'a' && "audio/x-ms-wma"@[5] == '/');
    assert("image/webp"@.len() == 10 && "image/webp"@[9] == 'p' && "image/webp"@[5] == '/');
    assert("image/bmp"@.len() == 9 && "image/bmp"@[8] == 'p' && "image/bmp"@[5] == '/');
    assert("image/svg+xml"@.len() == 13 && "image/svg+xml"@[12] == 'l' && "image/svg+xml"@[5] == '/');
    assert("image/tiff"@.len() == 10 && "image/tiff"@[9] == 'f' && "image/tiff"@[8] == 'f' && "image/tiff"@[5] == '/');
    assert("application/pdf"@.len() == 15 && "application/pdf"@[14] == 'f' && "application/pdf"@[13] == 'd' && "application/pdf"@[11] == '/');
    assert("application/zip"@.len() == 15 && "application/zip"@[14] == 'p' && "application/zip"@[11] == '/');
    assert("application/x-rar-compressed"@.len() == 28 && "application/x-rar-compressed"@[27] == 'd' && "application/x-rar-compressed"@[11] == '/');
    assert("application/vnd.rar"@.len() == 19 && "application/vnd.rar"@[18] == 'r' && "application/vnd.rar"@[11] == '/');
    assert("application/x-7z-compressed"@.len() == 27 && "application/x-7z-compressed"@[26] == 'd' && "application/x-7z-compressed"@[11] == '/');
    assert("application/gzip"@.len() == 16 && "application/gzip"@[15] == 'p' && "application/gzip"@[11] == '/');
    assert("application/x-gzip"@.len() == 18 && "application/x-gzip"@[17] == 'p' && "application/x-gzip"@[11] == '/');
    assert("application/x-tar"@.len() == 17 && "application/x-tar"@[16] == 'r' && "application/x-tar"@[11] == '/');
    assert("application/json"@.len() == 16 && "application/json"@[15] == 'n' && "application/json"@[11] == '/');
    assert("application/xml"@.len() == 15 && "application/xml"@[14] == 'l' && "application/xml"@[11] == '/');
    assert("text/xml"@.len() == 8 && "text/xml"@[7] == 'l' && "text/xml"@[4] == '/');
    assert("text/plain"@.len() == 10 && "text/plain"@[9] == 'n' && "text/plain"@[4] == '/');
    assert("text/html"@.len() == 9 && "text/html"@[8] == 'l' && "text/html"@[4] == '/');
    assert("text/csv"@.len() == 8 && "text/csv"@[7] == 'v' && "text/csv"@[6] == 's' && "text/csv"@[4] == '/');
    assert("application/vnd.openxmlformats-officedocument.wordprocessingml.document"@.len() == 71 && "application/vnd.openxmlformats-officedocument.wordprocessingml.document"@[70] == 't' && "application/vnd.openxmlformats-officedocument.wordprocessingml.document"@[11] == '/');
    assert("application/vnd.openxmlformats-officedocument.spreadsheetml.sheet"@.len() == 65 && "application/vnd.openxmlformats-officedocument.spreadsheetml.sheet"@[64] == 't' && "application/vnd.openxmlformats-officedocument.spreadsheetml.sheet"@[11] == '/');
    assert("application/vnd.openxmlformats-officedocument.presentationml.presentation"@.len() == 73 && "application/vnd.openxmlformats-officedocument.presentationml.presentation"@[72] == 'n' && "application/vnd.openxmlformats-officedocument.presentationml.presentation"@[11] == '/');
    assert("application/msword"@.len() == 18 && "application/msword"@[17] == 'd' && "application/msword"@[11] == '/');
    assert("application/vnd.ms-excel"@.len() == 24 && "application/vnd.ms-excel"@[23] == 'l' && "application/vnd.ms-excel"@[11] == '/');
    assert("application/vnd.ms-powerpoint"@.len() == 29 && "application/vnd.ms-powerpoint"@[28] == 't' && "application/vnd.ms-powerpoint"@[11] == '/');
    assert("application/x-python-script"@.len() == 27 && "application/x-python-script"@[26] == 't' && "application/x-python-script"@[11] == '/');
    assert("text/x-python"@.len() == 13 && "text/x-python"@[12] == 'n' && "text/x-python"@[4] == '/');
    assert("application/javascript"@.len() == 22 && "application/javascript"@[21] == 't' && "application/javascript"@[11] == '/');
    assert("text/javascript"@.len() == 15 && "text/javascript"@[14] == 't' && "text/javascript"@[4] == '/');
    assert("video/mp4"@.len() == 9 && "video/mp4"@[8] == '4' && "video/mp4"@[5] == '/');
    assert("video/webm"@.len() == 10 && "video/webm"@[9] == 'm' && "video/webm"@[5] == '/');
    assert("video/mpeg"@.len() == 10 && "video/mpeg"@[8] == 'e' && "video/mpeg"@[6] == 'm' && "video/mpeg"@[5] == '/');
    assert("audio/ogg"@.len() == 9 && "audio/ogg"@[8] == 'g' && "audio/ogg"@[7] == 'g' && "audio/ogg"@[5] == '/');
    assert("audio/flac"@.len() == 10 && "audio/flac"@[9] == 'c' && "audio/flac"@[5] == '/');
    assert("audio/x-flac"@.len() == 12 && "audio/x-flac"@[11] == 'c' && "audio/x-flac"@[7] == '-' && "audio/x-flac"@[5] == '/');
    assert("audio/x-wav"@.len() == 11 && "audio/x-wav"@[10] == 'v' && "audio/x-wav"@[7] == '-' && "audio/x-wav"@[5] == '/');
    assert("audio/wav"@.len() == 9 && "audio/wav"@[8] == 'v' && "audio/wav"@[5] == '/');
    assert("image/jpeg"@.len() == 10 && "image/jpeg"@[8] == 'e' && "image/jpeg"@[6] == 'j' && "image/jpeg"@[5] == '/');
    assert("image/png"@.len() == 9 && "image/png"@[7] == 'n' && "image/png"@[5] == '/');
    assert("image/gif"@.len() == 9 && "image/gif"@[8] == 'f' && "image/gif"@[5] == '/');
    reveal_strlit("ogg");
    let ogg = main.push('/') + "ogg"@;
    lemma_second_part(main, '/', "ogg"@, ""@);
    assert(ogg.len() == main.len() + 4 && ogg[ogg.len() - 1] == 'g' && ogg[ogg.len() - 2] == 'g' && ogg[ogg.len() - 3] == 'o' && ogg[ogg.len() - 4] == '/');
    reveal_strlit("webm");
    let webm = main.push('/') + "webm"@;
    lemma_second_part(main, '/', "webm"@, ""@);
    assert(webm.len() == main.len() + 5 && webm[webm.len() - 1] == 'm' && webm[webm.len() - 2] == 'b' && webm[webm.len() - 3] == 'e' && webm[webm.len() - 4] == 'w' && webm[webm.len() - 5] == '/');
    reveal_strlit("flac");
    let flac = main.push('/') + "flac"@;
    lemma_second_part(main, '/', "flac"@, ""@);
    assert(flac.len() == main.len() + 5 && flac[flac.len() - 1] == 'c' && flac[flac.len() - 2] == 'a' && flac[flac.len() - 3] == 'l' && flac[flac.len() - 4] == 'f' && flac[flac.len() - 5] == '/');
    reveal_strlit("wav");
    let wav = main.push('/') + "wav"@;
    lemma_second_part(main, '/', "wav"@, ""@);
    assert(wav.len() == main.len() + 4 && wav[wav.len() - 1] == 'v' && wav[wav.len() - 2] == 'a' && wav[wav.len() - 3] == 'w' && wav[wav.len() - 4] == '/');
    reveal_strlit("png");
    let png = main.push('/') + "png"@;
    lemma_second_part(main, '/', "png"@, ""@);
    assert(png.len() == main.len() + 4 && png[png.len() - 1] == 'g' && png[png.len() - 2] == 'n' && png[png.len() - 3] == 'p' && png[png.len() - 4] == '/');
    reveal_strlit("gif");
    let gif = main.push('/') + "gif"@;
    lemma_second_part(main, '/', "gif"@, ""@);
    assert(gif.len() == main.len() + 4 && gif[gif.len() - 1] == 'f' && gif[gif.len() - 2] == 'i' && gif[gif.len() - 3] == 'g' && gif[gif.len() - 4] == '/');
    reveal_strlit("jpeg");
    let jpeg = main.push('/') + "jpeg"@;
    lemma_second_part(main, '/', "jpeg"@, ""@);
    assert(jpeg.len() == main.len() + 5 && jpeg[jpeg.len() - 1] == 'g' && jpeg[jpeg.len() - 2] == 'e' && jpeg[jpeg.len() - 3] == 'p' && jpeg[jpeg.len() - 4] == 'j' && jpeg[jpeg.len() - 5] == '/');
    reveal_strlit("mp4");
    let mp4 = main.push('/') + "mp4"@;
    lemma_second_part(main, '/', "mp4"@, ""@);
    assert(mp4.len() == main.len() + 4 && mp4[mp4.len() - 1] == '4' && mp4[mp4.len() - 2] == 'p' && mp4[mp4.len() - 3] == 'm' && mp4[mp4.len() - 4] == '/');
    if mp4 == "audio/mp4"@ {
        assert(main =~= mp4.take(5));
        assert(main =~= "audio"@);
    }
    reveal_strlit("mpeg");
    let mpeg = main.push('/') + "mpeg"@;
    lemma_second_part(main, '/', "mpeg"@, ""@);
    assert(mpeg.len() == main.len() + 5 && mpeg[mpeg.len() - 1] == 'g' && mpeg[mpeg.len() - 2] == 'e' && mpeg[mpeg.len() - 3] == 'p' && mpeg[mpeg.len() - 4] == 'm' && mpeg[mpeg.len() - 5] == '/');
    if mpeg == "audio/mpeg"@ {
        assert(main =~= mpeg.take(5));
        assert(main =~= "audio"@);
    }
}

} // verus!
