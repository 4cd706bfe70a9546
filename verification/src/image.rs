//! Image records and the rule that tells image files from other files by
//! their names.
use vstd::prelude::*;

verus! {

/// One image file as a scan found it.
#[derive(Debug, PartialEq, Eq)]
pub struct ImageInfo {
    /// Absolute path of the file.
    pub path: String,
    /// Base name of the file, extension and all.
    pub name: String,
    /// Length of the file in bytes.
    pub size: u64,
    /// Last modification, in whole seconds since the Unix epoch.
    pub modified: u64,
    /// Extension of the file in lower case, without the dot.
    pub extension: String,
}

/// The mathematical value of an [`ImageInfo`].
pub ghost struct ImageRecord {
    pub path: Seq<char>,
    pub name: Seq<char>,
    pub size: u64,
    pub modified: u64,
    pub extension: Seq<char>,
}

impl View for ImageInfo {
    type V = ImageRecord;

    open spec fn view(&self) -> ImageRecord {
        ImageRecord {
            path: self.path@,
            name: self.name@,
            size: self.size,
            modified: self.modified,
            extension: self.extension@,
        }
    }
}

impl DeepView for ImageInfo {
    type V = ImageRecord;

    open spec fn deep_view(&self) -> ImageRecord {
        self@
    }
}

impl Clone for ImageInfo {
    fn clone(&self) -> (copy: Self)
        ensures
            copy@ == self@,
    {
        ImageInfo {
            path: self.path.clone(),
            name: self.name.clone(),
            size: self.size,
            modified: self.modified,
            extension: self.extension.clone(),
        }
    }
}

/// A listing of images: the records, how many there are over all folders,
/// and the folders that were scanned to the end.
#[derive(Debug, PartialEq, Eq)]
pub struct ImageListResult {
    /// The records, most recently modified first.
    pub images: Vec<ImageInfo>,
    /// Number of images over all folders, whatever part `images` holds.
    pub total: usize,
    /// The configured folders whose scan succeeded, in configured order.
    pub folders: Vec<String>,
}

/// The mathematical value of an [`ImageListResult`].
pub ghost struct ListingView {
    pub images: Seq<ImageRecord>,
    pub total: nat,
    pub folders: Seq<Seq<char>>,
}

impl View for ImageListResult {
    type V = ListingView;

    open spec fn view(&self) -> ListingView {
        ListingView {
            images: self.images.deep_view(),
            total: self.total as nat,
            folders: self.folders.deep_view(),
        }
    }
}

/// The lower-case form of an ASCII capital; any other character is itself.
pub open spec fn ascii_lower(c: char) -> char {
    if 'A' <= c && c <= 'Z' {
        ((c as u8) + 32) as char
    } else {
        c
    }
}

/// `name` is a non-empty stem, a dot, and `ext` in any mix of ASCII cases.
/// `ext` is expected in lower case and without a dot, which makes that dot
/// the last one of the name.
pub open spec fn has_extension(name: Seq<char>, ext: Seq<char>) -> bool {
    &&& name.len() > ext.len() + 1
    &&& name[name.len() - ext.len() - 1] == '.'
    &&& forall|j: int|
        0 <= j < ext.len() ==> ascii_lower(name[name.len() - ext.len() + j]) == #[trigger] ext[j]
}

/// The extension under which a file of this name counts as an image, in
/// lower case; `None` for every other name. The name alone decides: what the
/// file holds is never looked at.
pub open spec fn image_extension(name: Seq<char>) -> Option<Seq<char>> {
    if has_extension(name, "jpg"@) {
        Some("jpg"@)
    } else if has_extension(name, "jpeg"@) {
        Some("jpeg"@)
    } else if has_extension(name, "png"@) {
        Some("png"@)
    } else if has_extension(name, "gif"@) {
        Some("gif"@)
    } else if has_extension(name, "webp"@) {
        Some("webp"@)
    } else if has_extension(name, "bmp"@) {
        Some("bmp"@)
    } else {
        None
    }
}

/// Whether a file of this name counts as an image.
pub open spec fn is_image_name(name: Seq<char>) -> bool {
    image_extension(name) is Some
}

fn lower(c: char) -> (l: char)
    ensures
        l == ascii_lower(c),
{
    if 'A' <= c && c <= 'Z' {
        ((c as u8) + 32) as char
    } else {
        c
    }
}

fn chars_of(s: &str) -> (chars: Vec<char>)
    ensures
        chars@ == s@,
{
    let mut chars: Vec<char> = Vec::new();
    for c in it: s.chars()
        invariant
            it.seq() == s@,
            chars@ == s@.take(it.index()),
    {
        chars.push(c);
    }
    chars
}

fn ends_with_extension(name: &Vec<char>, ext: &str) -> (found: bool)
    ensures
        found == has_extension(name@, ext@),
{
    let n = name.len();
    let m = ext.unicode_len();
    if m >= n || n - m < 2 {
        return false;
    }
    let start = n - m;
    if name[start - 1] != '.' {
        return false;
    }
    let mut j: usize = 0;
    while j < m
        invariant
            n == name@.len(),
            m == ext@.len(),
            start == n - m,
            start >= 2,
            j <= m,
            forall|k: int| 0 <= k < j ==> ascii_lower(name@[start + k]) == #[trigger] ext@[k],
        decreases m - j,
    {
        if lower(name[start + j]) != ext.get_char(j) {
            return false;
        }
        j += 1;
    }
    true
}

/// The extension under which a file of this name counts as an image, in
/// lower case, or `None` where it does not count as one.
pub fn image_extension_of(name: &str) -> (ext: Option<String>)
    ensures
        match ext {
            Some(ext) => image_extension(name@) == Some(ext@),
            None => image_extension(name@) is None,
        },
{
    let chars = chars_of(name);
    if ends_with_extension(&chars, "jpg") {
        Some("jpg".to_owned())
    } else if ends_with_extension(&chars, "jpeg") {
        Some("jpeg".to_owned())
    } else if ends_with_extension(&chars, "png") {
        Some("png".to_owned())
    } else if ends_with_extension(&chars, "gif") {
        Some("gif".to_owned())
    } else if ends_with_extension(&chars, "webp") {
        Some("webp".to_owned())
    } else if ends_with_extension(&chars, "bmp") {
        Some("bmp".to_owned())
    } else {
        None
    }
}

/// Whether a file of this name counts as an image: its name ends in a dot
/// and one of `jpg`, `jpeg`, `png`, `gif`, `webp`, `bmp`, in any mix of
/// cases, after a stem that is not empty.
pub fn is_image_file(name: &str) -> (image: bool)
    ensures
        image == is_image_name(name@),
{
    image_extension_of(name).is_some()
}

/// What was observed of the path of one file.
#[derive(Clone, Copy, Debug, PartialEq, Eq, Structural)]
pub struct FileProbe {
    /// Something exists at the path.
    pub exists: bool,
    /// It is a regular file.
    pub is_file: bool,
}

/// Whether a single path names an image: something exists there, it is a
/// regular file, and its base name `name` is that of an image.
pub fn validate_image_path(name: &str, probe: FileProbe) -> (valid: bool)
    ensures
        valid == (probe.exists && probe.is_file && is_image_name(name@)),
{
    probe.exists && probe.is_file && is_image_file(name)
}

} // verus!
