//! The data model: indexed entries, their categories, and the
//! extension-based classification rules.

use vstd::prelude::*;
use vstd::string::StringExecFns;
use crate::text::chars_eq_str;
use crate::text::lower;
use crate::text::lower_of;
use crate::text::to_chars;

verus! {

/// The closed set of kinds an indexed entry can have.  Classification is
/// derived from the file extension alone, except for applications, which
/// come only from start-menu style roots.
#[derive(Clone, Copy, PartialEq, Eq, Structural, Debug)]
pub enum Category {
    Application,
    Document,
    Image,
    Video,
    Audio,
    Code,
    Archive,
    GenericFile,
}

impl Category {
    /// The label the host shell shows and serializes for this kind.
    pub open spec fn label_spec(self) -> Seq<char> {
        match self {
            Category::Application => "app"@,
            Category::Document => "document"@,
            Category::Image => "image"@,
            Category::Video => "video"@,
            Category::Audio => "audio"@,
            Category::Code => "code"@,
            Category::Archive => "archive"@,
            Category::GenericFile => "file"@,
        }
    }

    /// Returns the label of this kind.
    pub fn label(&self) -> (r: String)
        ensures
            r@ == self.label_spec(),
    {
        match self {
            Category::Application => String::from_str("app"),
            Category::Document => String::from_str("document"),
            Category::Image => String::from_str("image"),
            Category::Video => String::from_str("video"),
            Category::Audio => String::from_str("audio"),
            Category::Code => String::from_str("code"),
            Category::Archive => String::from_str("archive"),
            Category::GenericFile => String::from_str("file"),
        }
    }
}

/// One indexed object: an application shortcut or a user file.
pub struct SearchResult {
    /// Display name, the file name without its extension.
    pub name: String,
    /// Absolute filesystem path, the launch target.
    pub path: String,
    /// Classification of the entry.
    pub kind: Category,
}

impl Clone for SearchResult {
    fn clone(&self) -> (r: Self)
        ensures
            r == *self,
    {
        SearchResult { name: self.name.clone(), path: self.path.clone(), kind: self.kind }
    }
}

/// Which kind of root a file was found under during a build.
#[derive(Clone, Copy, PartialEq, Eq, Structural, Debug)]
pub enum SourceRoot {
    /// A system or user start-menu style directory: shortcut and executable
    /// files under it become application entries.
    StartMenu,
    /// A well-known user content directory (documents, downloads, desktop,
    /// pictures, videos, audio).
    UserDir,
}

/// Extensions classified as documents.
pub open spec fn is_document_ext(e: Seq<char>) -> bool {
    ||| e == "txt"@
    ||| e == "pdf"@
    ||| e == "doc"@
    ||| e == "docx"@
    ||| e == "xls"@
    ||| e == "xlsx"@
    ||| e == "ppt"@
    ||| e == "pptx"@
    ||| e == "odt"@
    ||| e == "rtf"@
}

/// Extensions classified as images.
pub open spec fn is_image_ext(e: Seq<char>) -> bool {
    ||| e == "jpg"@
    ||| e == "jpeg"@
    ||| e == "png"@
    ||| e == "gif"@
    ||| e == "bmp"@
    ||| e == "svg"@
    ||| e == "webp"@
    ||| e == "ico"@
}

/// Extensions classified as videos.
pub open spec fn is_video_ext(e: Seq<char>) -> bool {
    ||| e == "mp4"@
    ||| e == "avi"@
    ||| e == "mkv"@
    ||| e == "mov"@
    ||| e == "wmv"@
    ||| e == "flv"@
    ||| e == "webm"@
}

/// Extensions classified as audio.
pub open spec fn is_audio_ext(e: Seq<char>) -> bool {
    ||| e == "mp3"@
    ||| e == "wav"@
    ||| e == "flac"@
    ||| e == "aac"@
    ||| e == "ogg"@
    ||| e == "wma"@
    ||| e == "m4a"@
}

/// Extensions classified as code.
pub open spec fn is_code_ext(e: Seq<char>) -> bool {
    ||| e == "rs"@
    ||| e == "js"@
    ||| e == "ts"@
    ||| e == "py"@
    ||| e == "java"@
    ||| e == "c"@
    ||| e == "cpp"@
    ||| e == "h"@
    ||| e == "cs"@
    ||| e == "go"@
    ||| e == "html"@
    ||| e == "css"@
    ||| e == "json"@
    ||| e == "xml"@
    ||| e == "yaml"@
    ||| e == "toml"@
}

/// Extensions classified as archives.
pub open spec fn is_archive_ext(e: Seq<char>) -> bool {
    ||| e == "zip"@
    ||| e == "rar"@
    ||| e == "7z"@
    ||| e == "tar"@
    ||| e == "gz"@
    ||| e == "bz2"@
}

/// Extensions that make a file under a start-menu root an application entry:
/// shortcut files and executables.
pub open spec fn is_app_ext(e: Seq<char>) -> bool {
    e == "lnk"@ || e == "exe"@
}

/// A user file with one of these extensions is indexed; any other extension
/// is skipped entirely.
pub open spec fn is_indexable_ext(e: Seq<char>) -> bool {
    ||| is_document_ext(e)
    ||| is_image_ext(e)
    ||| is_video_ext(e)
    ||| is_audio_ext(e)
    ||| is_code_ext(e)
    ||| is_archive_ext(e)
}

/// The kind a user file with the given lowercased extension gets.
pub open spec fn kind_of(e: Seq<char>) -> Category {
    if is_document_ext(e) {
        Category::Document
    } else if is_image_ext(e) {
        Category::Image
    } else if is_video_ext(e) {
        Category::Video
    } else if is_audio_ext(e) {
        Category::Audio
    } else if is_code_ext(e) {
        Category::Code
    } else if is_archive_ext(e) {
        Category::Archive
    } else {
        Category::GenericFile
    }
}

/// The kind an entry found under the given root with the given lowercased
/// extension gets, or `None` when such a file is not indexed at all.
pub open spec fn classify_spec(root: SourceRoot, ext_lower: Seq<char>) -> Option<Category> {
    match root {
        SourceRoot::StartMenu => if is_app_ext(ext_lower) {
            Some(Category::Application)
        } else {
            None
        },
        SourceRoot::UserDir => if is_indexable_ext(ext_lower) {
            Some(kind_of(ext_lower))
        } else {
            None
        },
    }
}

fn is_document(e: &Vec<char>) -> (r: bool)
    ensures
        r == is_document_ext(e@),
{
    chars_eq_str(e, "txt") || chars_eq_str(e, "pdf") || chars_eq_str(e, "doc") || chars_eq_str(
        e,
        "docx",
    ) || chars_eq_str(e, "xls") || chars_eq_str(e, "xlsx") || chars_eq_str(e, "ppt")
        || chars_eq_str(e, "pptx") || chars_eq_str(e, "odt") || chars_eq_str(e, "rtf")
}

fn is_image(e: &Vec<char>) -> (r: bool)
    ensures
        r == is_image_ext(e@),
{
    chars_eq_str(e, "jpg") || chars_eq_str(e, "jpeg") || chars_eq_str(e, "png") || chars_eq_str(
        e,
        "gif",
    ) || chars_eq_str(e, "bmp") || chars_eq_str(e, "svg") || chars_eq_str(e, "webp")
        || chars_eq_str(e, "ico")
}

fn is_video(e: &Vec<char>) -> (r: bool)
    ensures
        r == is_video_ext(e@),
{
    chars_eq_str(e, "mp4") || chars_eq_str(e, "avi") || chars_eq_str(e, "mkv") || chars_eq_str(
        e,
        "mov",
    ) || chars_eq_str(e, "wmv") || chars_eq_str(e, "flv") || chars_eq_str(e, "webm")
}

fn is_audio(e: &Vec<char>) -> (r: bool)
    ensures
        r == is_audio_ext(e@),
{
    chars_eq_str(e, "mp3") || chars_eq_str(e, "wav") || chars_eq_str(e, "flac") || chars_eq_str(
        e,
        "aac",
    ) || chars_eq_str(e, "ogg") || chars_eq_str(e, "wma") || chars_eq_str(e, "m4a")
}

fn is_code(e: &Vec<char>) -> (r: bool)
    ensures
        r == is_code_ext(e@),
{
    chars_eq_str(e, "rs") || chars_eq_str(e, "js") || chars_eq_str(e, "ts") || chars_eq_str(
        e,
        "py",
    ) || chars_eq_str(e, "java") || chars_eq_str(e, "c") || chars_eq_str(e, "cpp") || chars_eq_str(
        e,
        "h",
    ) || chars_eq_str(e, "cs") || chars_eq_str(e, "go") || chars_eq_str(e, "html") || chars_eq_str(
        e,
        "css",
    ) || chars_eq_str(e, "json") || chars_eq_str(e, "xml") || chars_eq_str(e, "yaml")
        || chars_eq_str(e, "toml")
}

fn is_archive(e: &Vec<char>) -> (r: bool)
    ensures
        r == is_archive_ext(e@),
{
    chars_eq_str(e, "zip") || chars_eq_str(e, "rar") || chars_eq_str(e, "7z") || chars_eq_str(
        e,
        "tar",
    ) || chars_eq_str(e, "gz") || chars_eq_str(e, "bz2")
}

/// Classifies a user file by its extension, case-insensitively; an
/// unrecognized extension yields the generic kind (which the index build
/// never records: see `is_indexable_ext`).
pub fn get_file_kind(extension: &str) -> (r: Category)
    ensures
        r == kind_of(lower_of(extension@)),
{
    let low = lower(extension);
    let e = to_chars(low.as_str());
    if is_document(&e) {
        Category::Document
    } else if is_image(&e) {
        Category::Image
    } else if is_video(&e) {
        Category::Video
    } else if is_audio(&e) {
        Category::Audio
    } else if is_code(&e) {
        Category::Code
    } else if is_archive(&e) {
        Category::Archive
    } else {
        Category::GenericFile
    }
}

/// Whether a user file with this extension is indexed at all,
/// case-insensitively.
pub fn should_index_file(extension: &str) -> (r: bool)
    ensures
        r == is_indexable_ext(lower_of(extension@)),
{
    let low = lower(extension);
    let e = to_chars(low.as_str());
    is_document(&e) || is_image(&e) || is_video(&e) || is_audio(&e) || is_code(&e) || is_archive(&e)
}

/// Classifies a file found under the given root, case-insensitively on the
/// extension; `None` means the file is not indexed.
pub fn classify_file(root: SourceRoot, extension: &str) -> (r: Option<Category>)
    ensures
        r == classify_spec(root, lower_of(extension@)),
{
    match root {
        SourceRoot::StartMenu => {
            let low = lower(extension);
            let e = to_chars(low.as_str());
            if chars_eq_str(&e, "lnk") || chars_eq_str(&e, "exe") {
                Some(Category::Application)
            } else {
                None
            }
        },
        SourceRoot::UserDir => {
            if should_index_file(extension) {
                Some(get_file_kind(extension))
            } else {
                None
            }
        },
    }
}

} // verus!
