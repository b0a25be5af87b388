//! What goes into the new book: the entries of the old one, and the pictures.

use crate::download::{DownloadError, DownloadedFile};
use crate::embed_images::{package_markup, progress, rewrite_package, rewrite_page, PageError};
use crate::image_optimizer::{
    infer_mime, mime_of, optimization_settings, settings_for, ImageOptimizationSettings,
    OptimizeImageError,
};
use crate::images::{has_url, typed, url_at, ImageTable};
use crate::location::{compute_download_path, download_path};
use crate::xml::document;
use vstd::prelude::*;

verus! {

/// Whether a text ends with another one.
pub open spec fn has_suffix(text: Seq<char>, suffix: Seq<char>) -> bool {
    suffix.len() <= text.len() && text.skip(text.len() - suffix.len()) == suffix
}

/// Tells whether a text ends with another one.
pub fn ends_with(text: &str, suffix: &str) -> (ends: bool)
    ensures
        ends == has_suffix(text@, suffix@),
{
    let text_len: usize = text.unicode_len();
    let suffix_len: usize = suffix.unicode_len();
    if suffix_len > text_len {
        return false;
    }
    let start: usize = text_len - suffix_len;
    let ghost end = text@.skip(start as int);
    let mut at: usize = 0;
    while at < suffix_len
        invariant
            at <= suffix_len,
            suffix_len == suffix@.len(),
            text_len == text@.len(),
            start + suffix_len == text_len,
            end == text@.skip(start as int),
            forall|i: int| 0 <= i < at ==> (#[trigger] end[i]) == suffix@[i],
        decreases suffix_len - at,
    {
        assert(end[at as int] == text@[start + at]);
        if text.get_char(start + at) != suffix.get_char(at) {
            return false;
        }
        at += 1;
    }
    assert(end =~= suffix@);
    true
}

/// What an entry of a book is.
#[derive(Clone, Copy, Debug, PartialEq, Eq, Structural)]
pub enum EntryKind {
    /// A page, which may show pictures.
    Page,
    /// The package file, which lists the files of the book.
    Package,
    /// Any other file.
    Other,
}

/// What an entry of that name is.
pub open spec fn kind_of(name: Seq<char>) -> EntryKind {
    if has_suffix(name, ".html"@) {
        EntryKind::Page
    } else if has_suffix(name, ".opf"@) {
        EntryKind::Package
    } else {
        EntryKind::Other
    }
}

/// Tells what an entry of that name is.
pub fn entry_kind(name: &str) -> (kind: EntryKind)
    ensures
        kind == kind_of(name@),
{
    if ends_with(name, ".html") {
        EntryKind::Page
    } else if ends_with(name, ".opf") {
        EntryKind::Package
    } else {
        EntryKind::Other
    }
}

/// The texts of some names.
pub open spec fn texts(names: Seq<String>) -> Seq<Seq<char>> {
    names.map_values(|name: String| name@)
}

/// Finds the first package file among the entries of a book.
pub fn find_package(names: &Vec<String>) -> (found: Option<usize>)
    ensures
        match found {
            Some(at) => {
                &&& at < names@.len()
                &&& has_suffix(names@[at as int]@, ".opf"@)
                &&& forall|i: int|
                    0 <= i < at ==> !has_suffix((#[trigger] names@[i])@, ".opf"@)
            },
            None => forall|i: int|
                0 <= i < names@.len() ==> !has_suffix((#[trigger] names@[i])@, ".opf"@),
        },
{
    let mut at: usize = 0;
    while at < names.len()
        invariant
            at <= names@.len(),
            forall|i: int| 0 <= i < at ==> !has_suffix((#[trigger] names@[i])@, ".opf"@),
        decreases names@.len() - at,
    {
        if ends_with(names[at].as_str(), ".opf") {
            return Some(at);
        }
        at += 1;
    }
    None
}

/// A file of the new book.
pub enum FileToZip {
    NewFile { name: String, contents: Vec<u8>, compressed: bool },
    /// A file that is taken over from the old book.
    ExistingFile { name: String },
}

/// The value of a [`FileToZip`].
pub enum FileToZipView {
    NewFile { name: Seq<char>, contents: Seq<u8>, compressed: bool },
    ExistingFile { name: Seq<char> },
}

impl View for FileToZip {
    type V = FileToZipView;

    open spec fn view(&self) -> FileToZipView {
        match *self {
            FileToZip::NewFile { name, contents, compressed } => FileToZipView::NewFile {
                name: name@,
                contents: contents@,
                compressed: compressed,
            },
            FileToZip::ExistingFile { name } => FileToZipView::ExistingFile { name: name@ },
        }
    }
}

/// A page of the new book and what it needs.
pub struct EmbeddedPage {
    pub file: FileToZip,
    /// The addresses that are to be downloaded for it.
    pub downloads: Vec<String>,
}

/// Takes over a page, so that its images are those of the book. A page is
/// compressed.
pub fn embed_page(images: &mut ImageTable, name: &str, html: &[u8]) -> (outcome: Result<
    EmbeddedPage,
    PageError,
>)
    requires
        old(images).wf(),
    ensures
        final(images).wf(),
        ({
            let read = document(html@);
            let reached = progress(read.events, name@, old(images)@);
            &&& final(images)@ == reached.images
            &&& match outcome {
                Ok(page) => {
                    &&& reached.error is None
                    &&& read.error is None
                    &&& page.file@ == (FileToZipView::NewFile {
                        name: name@,
                        contents: reached.page.markup,
                        compressed: true,
                    })
                    &&& texts(page.downloads@) == reached.page.downloads
                },
                Err(PageError::Tag(error)) => reached.error == Some(error),
                Err(PageError::Markup(error)) => reached.error is None && read.error == Some(error),
            }
        }),
{
    match rewrite_page(images, name, html) {
        Ok(page) => {
            assert(texts(page.downloads@) =~= page@.downloads);
            Ok(
                EmbeddedPage {
                    file: FileToZip::NewFile {
                        name: name.to_owned(),
                        contents: page.markup,
                        compressed: true,
                    },
                    downloads: page.downloads,
                },
            )
        },
        Err(error) => Err(error),
    }
}

/// Takes over the package file, so that it lists the pictures. It is compressed.
pub fn embed_package(images: &ImageTable, name: &str, package: &[u8]) -> (outcome: Result<
    FileToZip,
    quick_xml::Error,
>)
    ensures
        match outcome {
            Ok(file) => document(package@).error is None && file@ == (FileToZipView::NewFile {
                name: name@,
                contents: package_markup(document(package@).events, images@),
                compressed: true,
            }),
            Err(error) => document(package@).error == Some(error),
        },
{
    match rewrite_package(images, package) {
        Ok(markup) => Ok(
            FileToZip::NewFile { name: name.to_owned(), contents: markup, compressed: true },
        ),
        Err(error) => Err(error),
    }
}

/// The contents that a download gives to a picture: none where it failed.
pub open spec fn contents_or_empty(result: Result<DownloadedFile, DownloadError>) -> Seq<u8> {
    match result {
        Ok(file) => file@.contents,
        Err(_) => Seq::empty(),
    }
}

/// Takes the contents of a picture from its download.
pub fn downloaded_contents(result: Result<DownloadedFile, DownloadError>) -> (contents: Vec<u8>)
    ensures
        contents@ == contents_or_empty(result),
{
    match result {
        Ok(file) => file.contents,
        Err(_) => Vec::new(),
    }
}

/// Notes the media type of a downloaded picture. Gives the settings by which it
/// is made smaller; what tells it from others is its path in the book.
pub fn prepare_image(images: &mut ImageTable, url: &str, contents: &[u8]) -> (settings:
    ImageOptimizationSettings)
    requires
        old(images).wf(),
        has_url(old(images)@, url@),
    ensures
        final(images).wf(),
        final(images)@ == typed(old(images)@, url@, mime_of(contents@)),
        settings@ == settings_for(
            download_path(url@),
            old(images)@[url_at(old(images)@, url@)].displayed_width,
        ),
{
    let path = compute_download_path(url);
    let width = images.set_mimetype(url, infer_mime(contents));
    optimization_settings(path.as_str(), width)
}

/// How many bytes the pictures have before and after they are made smaller. The
/// sums start over at zero after the largest number.
#[derive(Clone, Copy, Debug, PartialEq, Eq, Structural)]
pub struct ImageSizes {
    pub original: usize,
    pub optimized: usize,
}

/// A sum of sizes after a size has been added to it.
pub open spec fn enlarged(sum: usize, size: int) -> usize {
    if sum + size <= usize::MAX {
        (sum + size) as usize
    } else {
        (sum + size - usize::MAX - 1) as usize
    }
}

impl ImageSizes {
    /// The sizes when there are no pictures yet.
    pub fn new() -> (sizes: Self)
        ensures
            sizes == (ImageSizes { original: 0, optimized: 0 }),
    {
        ImageSizes { original: 0, optimized: 0 }
    }
}

/// Whether an error leaves a picture as it was.
pub open spec fn is_unsupported(error: OptimizeImageError) -> bool {
    error is UnsupportedImageFormat
}

/// Puts a picture into the book, without compression: the smaller one, or the one
/// that was downloaded where its format does not allow to make it smaller. Only
/// what was made smaller counts among the smaller sizes.
pub fn embed_image(
    sizes: &mut ImageSizes,
    url: &str,
    contents: Vec<u8>,
    result: Result<Vec<u8>, OptimizeImageError>,
) -> (outcome: Result<FileToZip, OptimizeImageError>)
    ensures
        final(sizes).original == enlarged(old(sizes).original, contents@.len() as int),
        match result {
            Ok(optimized) => {
                &&& final(sizes).optimized == enlarged(
                    old(sizes).optimized,
                    optimized@.len() as int,
                )
                &&& outcome matches Ok(file) && file@ == (FileToZipView::NewFile {
                    name: download_path(url@),
                    contents: optimized@,
                    compressed: false,
                })
            },
            Err(error) => {
                &&& final(sizes).optimized == old(sizes).optimized
                &&& if is_unsupported(error) {
                    outcome matches Ok(file) && file@ == (FileToZipView::NewFile {
                        name: download_path(url@),
                        contents: contents@,
                        compressed: false,
                    })
                } else {
                    outcome == Err::<FileToZip, OptimizeImageError>(error)
                }
            },
        },
{
    sizes.original = sizes.original.wrapping_add(contents.len());
    let path = compute_download_path(url);
    match result {
        Ok(optimized) => {
            sizes.optimized = sizes.optimized.wrapping_add(optimized.len());
            Ok(FileToZip::NewFile { name: path, contents: optimized, compressed: false })
        },
        Err(OptimizeImageError::UnsupportedImageFormat(_)) => Ok(
            FileToZip::NewFile { name: path, contents: contents, compressed: false },
        ),
        Err(error) => Err(error),
    }
}

/// The number of threads for pages and pictures, given how many the machine can
/// run: two serve the downloads, and more than three are of no use.
pub fn pool_size(parallelism: Option<usize>) -> (threads: usize)
    requires
        parallelism matches Some(parallelism) ==> parallelism >= 2,
    ensures
        threads == (match parallelism {
            Some(parallelism) => if parallelism < 3 {
                parallelism - 2
            } else {
                1
            },
            None => 1,
        }),
{
    match parallelism {
        Some(parallelism) => if parallelism < 3 {
            parallelism - 2
        } else {
            1
        },
        None => 1,
    }
}

/// No page is a package file.
pub proof fn law_pages_are_no_packages(name: Seq<char>)
    ensures
        !(has_suffix(name, ".html"@) && has_suffix(name, ".opf"@)),
{
    reveal_strlit(".html");
    reveal_strlit(".opf");
    if has_suffix(name, ".html"@) && has_suffix(name, ".opf"@) {
        let last = name.len() - 1;
        assert(name.skip(name.len() - 5)[4] == name[last]);
        assert(name.skip(name.len() - 4)[3] == name[last]);
    }
}

/// A text ends with another one exactly where something before that one makes it.
#[verifier::rlimit(3)]
pub proof fn law_suffix_completes_a_text(text: Seq<char>, front: Seq<char>, suffix: Seq<char>)
    ensures
        has_suffix(front + suffix, suffix),
        has_suffix(text, suffix) ==> text.take(text.len() - suffix.len()) + suffix == text,
{
    let whole = front + suffix;
    assert(whole.skip(whole.len() - suffix.len()) =~= suffix);
    if has_suffix(text, suffix) {
        assert(text.take(text.len() - suffix.len()) + suffix =~= text);
    }
}

/// A page is what has `.html` for its last characters, a package file what has
/// `.opf`, and every other entry is neither.
#[verifier::rlimit(5)]
pub proof fn law_entries_go_by_their_last_characters(name: Seq<char>)
    ensures
        ({
            let n = name.len() as int;
            let page = n >= 5 && name[n - 5] == '.' && name[n - 4] == 'h' && name[n - 3] == 't'
                && name[n - 2] == 'm' && name[n - 1] == 'l';
            let package = n >= 4 && name[n - 4] == '.' && name[n - 3] == 'o' && name[n - 2] == 'p'
                && name[n - 1] == 'f';
            &&& page ==> kind_of(name) is Page
            &&& package ==> kind_of(name) is Package
            &&& !page && !package ==> kind_of(name) is Other
        }),
{
    reveal_strlit(".html");
    reveal_strlit(".opf");
    let n = name.len() as int;
    if n >= 5 {
        let end = name.skip(n - 5);
        assert(end[0] == name[n - 5] && end[1] == name[n - 4] && end[2] == name[n - 3] && end[3]
            == name[n - 2] && end[4] == name[n - 1]);
        if name[n - 5] == '.' && name[n - 4] == 'h' && name[n - 3] == 't' && name[n - 2] == 'm'
            && name[n - 1] == 'l' {
            assert(end =~= ".html"@);
        }
    }
    if n >= 4 {
        let end = name.skip(n - 4);
        assert(end[0] == name[n - 4] && end[1] == name[n - 3] && end[2] == name[n - 2] && end[3]
            == name[n - 1]);
        if name[n - 4] == '.' && name[n - 3] == 'o' && name[n - 2] == 'p' && name[n - 1] == 'f' {
            assert(end =~= ".opf"@);
        }
    }
}

/// Sizes add up as long as the sum is not too large, and by then as many are missing
/// as there are numbers.
#[verifier::rlimit(3)]
pub proof fn law_sizes_add_up(sum: usize, size: usize)
    ensures
        sum + size <= usize::MAX ==> enlarged(sum, size as int) == sum + size,
        sum + size > usize::MAX ==> enlarged(sum, size as int) + usize::MAX + 1 == sum + size,
{
}

/// A download that brought a file gives its very contents to the picture, and a
/// failed one gives nothing.
#[verifier::rlimit(3)]
pub proof fn law_picture_has_the_downloaded_contents(
    file: DownloadedFile,
    error: DownloadError,
)
    ensures
        contents_or_empty(Ok(file)) == file.contents@,
        contents_or_empty(Err(error)).len() == 0,
{
}

/// Only a foreign format leaves a picture as it was: every other error stops the
/// book.
#[verifier::rlimit(3)]
pub proof fn law_only_foreign_formats_are_kept(error: OptimizeImageError)
    ensures
        match error {
            OptimizeImageError::UnsupportedImageFormat(_) => is_unsupported(error),
            _ => !is_unsupported(error),
        },
{
}

} // verus!
