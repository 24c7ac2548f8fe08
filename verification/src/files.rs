//! Source files, and the rule that says which directory entries are images.
//!
//! An entry is eligible when it is a regular file and the extension of its
//! name is `png`, `jpg` or `jpeg`, in any mix of upper and lower case. The
//! name is the last component of the entry's path. The extension is what
//! follows the last `.` of the name; a name without a `.`, or whose only `.`
//! is its first character, has none.

use crate::paths::{file_name_of, path_file_name};
use vstd::prelude::*;
use vstd::string::*;

verus! {

/// What a directory listing says of one entry.
#[derive(Clone, Debug, PartialEq, Eq)]
pub struct DirectoryEntry {
    /// The entry's path, as the listing gave it.
    pub path: String,
    /// Whether the entry is a regular file.
    pub is_file: bool,
}

/// A source image: an eligible directory entry.
pub struct ImageFile {
    path: String,
    base_name: String,
    extension: String,
}

/// The mathematical content of an [`ImageFile`].
pub struct ImageFileView {
    /// The file's path.
    pub path: Seq<char>,
    /// The last component of the path.
    pub base_name: Seq<char>,
    /// What follows the last `.` of the base name.
    pub extension: Seq<char>,
}

/// The ASCII lower-case form of a character; characters outside `A`-`Z` stay
/// as they are.
pub open spec fn ascii_lower(c: char) -> char {
    if 'A' <= c && c <= 'Z' {
        ((c as u8) + 32) as char
    } else {
        c
    }
}

/// The ASCII lower-case form of a string.
pub open spec fn ascii_lowered(s: Seq<char>) -> Seq<char> {
    Seq::new(s.len(), |i: int| ascii_lower(s[i]))
}

/// The position of the last `.` of `name`, or `-1` when it has none.
pub open spec fn last_dot(name: Seq<char>) -> int
    decreases name.len(),
{
    if name.len() == 0 {
        -1
    } else if name.last() == '.' {
        name.len() - 1
    } else {
        last_dot(name.drop_last())
    }
}

/// The extension of a file name: what follows its last `.`, and nothing when
/// the name has no `.` beyond its first character.
pub open spec fn extension_of(name: Seq<char>) -> Seq<char> {
    if last_dot(name) > 0 {
        name.subrange(last_dot(name) + 1, name.len() as int)
    } else {
        Seq::empty()
    }
}

/// Whether `ext` is one of the image extensions, case ignored.
pub open spec fn is_image_extension(ext: Seq<char>) -> bool {
    let folded = ascii_lowered(ext);
    folded == "png"@ || folded == "jpg"@ || folded == "jpeg"@
}

/// Whether a file with this name is an image, by its extension.
pub open spec fn is_image_name(file_name: Seq<char>) -> bool {
    is_image_extension(extension_of(file_name))
}

/// Whether a directory entry with this path is a source image: a regular
/// file whose path has a last component, and that an image's name.
pub open spec fn is_eligible(path: Seq<char>, is_file: bool) -> bool {
    &&& is_file
    &&& path_file_name(path) is Some
    &&& is_image_name(path_file_name(path).unwrap())
}

/// The source images among `entries`, in the order of the listing.
pub open spec fn eligible_files(entries: Seq<DirectoryEntry>) -> Seq<ImageFileView>
    decreases entries.len(),
{
    if entries.len() == 0 {
        Seq::empty()
    } else {
        let front = eligible_files(entries.drop_last());
        let entry = entries.last();
        if is_eligible(entry.path@, entry.is_file) {
            front.push(
                ImageFileView {
                    path: entry.path@,
                    base_name: path_file_name(entry.path@).unwrap(),
                    extension: extension_of(path_file_name(entry.path@).unwrap()),
                },
            )
        } else {
            front
        }
    }
}

/// The contents of a list of source images.
pub open spec fn file_views(files: Seq<ImageFile>) -> Seq<ImageFileView> {
    Seq::new(files.len(), |i: int| files[i]@)
}

/// `last_dot` is the position of a `.` after which no `.` follows, and `-1`
/// exactly when the name holds no `.` at all.
pub proof fn lemma_last_dot(name: Seq<char>)
    ensures
        -1 <= last_dot(name) < name.len(),
        last_dot(name) >= 0 ==> name[last_dot(name)] == '.',
        forall|j: int| last_dot(name) < j < name.len() ==> name[j] != '.',
    decreases name.len(),
{
    if name.len() > 0 && name.last() != '.' {
        lemma_last_dot(name.drop_last());
        assert forall|j: int| last_dot(name) < j < name.len() implies name[j] != '.' by {
            if j < name.len() - 1 {
                assert(name.drop_last()[j] == name[j]);
            }
        }
        if last_dot(name) >= 0 {
            assert(name.drop_last()[last_dot(name)] == name[last_dot(name)]);
        }
    }
}

/// Lower-cases one character.
fn lower_char(c: char) -> (out: char)
    ensures
        out == ascii_lower(c),
{
    if 'A' <= c && c <= 'Z' {
        ((c as u8) + 32) as char
    } else {
        c
    }
}

/// Lower-cases the letters `A`-`Z` of a string.
pub fn lowered(s: &str) -> (out: String)
    ensures
        out@ == ascii_lowered(s@),
{
    let mut out = String::new();
    for c in it: s.chars()
        invariant
            it.seq() == s@,
            out@ == ascii_lowered(s@.subrange(0, it.index() as int)),
    {
        out.push(lower_char(c));
        assert(out@ =~= ascii_lowered(s@.subrange(0, it.index() + 1)));
    }
    assert(s@.subrange(0, s@.len() as int) =~= s@);
    out
}

/// The extension of a file name; empty when the name has none.
pub fn file_extension(name: &str) -> (ext: String)
    ensures
        ext@ == extension_of(name@),
{
    let len = name.unicode_len();
    let mut dot: Option<usize> = None;
    let mut at: usize = 0;
    for c in it: name.chars()
        invariant
            it.seq() == name@,
            len == name@.len(),
            at == it.index(),
            at <= len,
            match dot {
                Some(p) => p == last_dot(name@.subrange(0, at as int)),
                None => last_dot(name@.subrange(0, at as int)) == -1,
            },
    {
        let ghost head = name@.subrange(0, at as int);
        let ghost next = name@.subrange(0, at + 1);
        assert(next.drop_last() =~= head);
        assert(next.last() == c);
        if c == '.' {
            dot = Some(at);
        }
        at = at + 1;
    }
    assert(name@.subrange(0, len as int) =~= name@);
    match dot {
        Some(p) => {
            proof {
                lemma_last_dot(name@);
            }
            if p > 0 {
                name.substring_char(p + 1, len).to_owned()
            } else {
                String::new()
            }
        },
        None => String::new(),
    }
}

/// Whether `ext` is one of the image extensions `png`, `jpg` and `jpeg`,
/// case ignored.
pub fn is_allowed_extension(ext: &str) -> (ok: bool)
    ensures
        ok == is_image_extension(ext@),
{
    let folded = lowered(ext);
    let png = "png".to_owned();
    let jpg = "jpg".to_owned();
    let jpeg = "jpeg".to_owned();
    folded == png || folded == jpg || folded == jpeg
}

impl View for ImageFile {
    type V = ImageFileView;

    closed spec fn view(&self) -> ImageFileView {
        ImageFileView {
            path: self.path@,
            base_name: self.base_name@,
            extension: self.extension@,
        }
    }
}

impl ImageFile {
    /// What holds of every source image: its extension is that of its name,
    /// and it is an image extension.
    pub open spec fn wf(&self) -> bool {
        &&& self@.extension == extension_of(self@.base_name)
        &&& is_image_extension(self@.extension)
    }

    /// The source image that a directory entry stands for, if it is
    /// eligible. The image's name is the last component of the entry's path.
    pub fn from_entry(entry: &DirectoryEntry) -> (file: Option<ImageFile>)
        ensures
            file is Some <==> is_eligible(entry.path@, entry.is_file),
            file matches Some(f) ==> f.wf() && f@.path == entry.path@ && Some(f@.base_name)
                == path_file_name(entry.path@),
    {
        if !entry.is_file {
            return None;
        }
        match file_name_of(entry.path.as_str()) {
            Some(file_name) => ImageFile::named(entry.path.as_str(), file_name.as_str()),
            None => None,
        }
    }

    /// The source image at `path` whose name is `file_name`, if that is an
    /// image's name.
    pub fn named(path: &str, file_name: &str) -> (file: Option<ImageFile>)
        ensures
            file is Some <==> is_image_name(file_name@),
            file matches Some(f) ==> f.wf() && f@.path == path@ && f@.base_name == file_name@,
    {
        let extension = file_extension(file_name);
        if !is_allowed_extension(extension.as_str()) {
            return None;
        }
        Some(ImageFile { path: path.to_owned(), base_name: file_name.to_owned(), extension })
    }

    /// A second value with the same content.
    pub fn duplicate(&self) -> (copy: ImageFile)
        ensures
            copy@ == self@,
    {
        ImageFile {
            path: self.path.clone(),
            base_name: self.base_name.clone(),
            extension: self.extension.clone(),
        }
    }

    /// The file's path.
    pub fn path(&self) -> (path: &str)
        ensures
            path@ == self@.path,
    {
        self.path.as_str()
    }

    /// The last component of the file's path: the name that is announced to
    /// the server.
    pub fn base_name(&self) -> (name: &str)
        ensures
            name@ == self@.base_name,
    {
        self.base_name.as_str()
    }

    /// The file's extension, as it stands in the name.
    pub fn extension(&self) -> (ext: &str)
        ensures
            ext@ == self@.extension,
    {
        self.extension.as_str()
    }
}

/// Keeps the source images among the entries of a directory listing, in the
/// order of the listing.
pub fn select_eligible(entries: &Vec<DirectoryEntry>) -> (files: Vec<ImageFile>)
    ensures
        file_views(files@) == eligible_files(entries@),
        forall|i: int| 0 <= i < files@.len() ==> (#[trigger] files@[i]).wf(),
{
    let mut files: Vec<ImageFile> = Vec::new();
    let mut i: usize = 0;
    while i < entries.len()
        invariant
            i <= entries.len(),
            file_views(files@) == eligible_files(entries@.subrange(0, i as int)),
            forall|k: int| 0 <= k < files@.len() ==> (#[trigger] files@[k]).wf(),
        decreases entries.len() - i,
    {
        let ghost head = entries@.subrange(0, i as int);
        let ghost next = entries@.subrange(0, i + 1);
        let ghost before = files@;
        assert(next.drop_last() =~= head);
        assert(next.last() == entries@[i as int]);
        match ImageFile::from_entry(&entries[i]) {
            Some(file) => {
                files.push(file);
                assert(file_views(files@) =~= file_views(before).push(file@));
            },
            None => {},
        }
        i = i + 1;
    }
    assert(entries@.subrange(0, entries@.len() as int) =~= entries@);
    files
}

} // verus!
