use epub_image_embedder::book::{
    downloaded_contents, embed_image, ends_with, entry_kind, find_package, pool_size,
    prepare_image, EntryKind, FileToZip, ImageSizes,
};
use epub_image_embedder::download::{DownloadError, DownloadedFile};
use epub_image_embedder::image_optimizer::OptimizeImageError;
use epub_image_embedder::images::ImageTable;
use epub_image_embedder::location::compute_download_path;

const URL: &str = "http://a.example/x.png";

fn parts(file: FileToZip) -> (String, Vec<u8>, bool) {
    match file {
        FileToZip::NewFile { name, contents, compressed } => (name, contents, compressed),
        FileToZip::ExistingFile { .. } => panic!("not new"),
    }
}

#[test]
fn entries_go_by_their_names() {
    assert_eq!(entry_kind("text/one.html"), EntryKind::Page);
    assert_eq!(entry_kind(".html"), EntryKind::Page);
    assert_eq!(entry_kind("content.opf"), EntryKind::Package);
    assert_eq!(entry_kind("one.xhtml"), EntryKind::Other);
    assert_eq!(entry_kind("one.HTML"), EntryKind::Other);
    assert_eq!(entry_kind("one.html.bak"), EntryKind::Other);
    assert_eq!(entry_kind(""), EntryKind::Other);
}

#[test]
fn suffixes_are_counted_in_characters() {
    assert!(ends_with("caf\u{e9}", "\u{e9}"));
    assert!(!ends_with("caf\u{e9}", "e"));
    assert!(ends_with("abc", ""));
    assert!(!ends_with("c", "bc"));
}

#[test]
fn first_package_is_found() {
    let names = |list: &[&str]| list.iter().map(|name| name.to_string()).collect::<Vec<String>>();
    assert_eq!(find_package(&names(&["mimetype", "a.opf", "b.opf"])), Some(1));
    assert_eq!(find_package(&names(&["mimetype", "a.html"])), None);
    assert_eq!(find_package(&names(&[])), None);
}

#[test]
fn pages_are_no_packages() {
    for name in ["a.html", "a.opf", "a.opf.html", "a.html.opf"] {
        assert!(!(ends_with(name, ".html") && ends_with(name, ".opf")));
    }
}

#[test]
fn failed_download_has_no_contents() {
    let file = DownloadedFile { contents: vec![1, 2], was_cached: true };
    assert_eq!(downloaded_contents(Ok(file)), vec![1, 2]);
    assert_eq!(downloaded_contents(Err(DownloadError::HeaderParse)), Vec::<u8>::new());
}

#[test]
fn image_is_prepared_by_its_page() {
    let mut images = ImageTable::new();
    images.insert(URL, Some(300));
    let png = b"\x89PNG\r\n\x1a\n";
    let settings = prepare_image(&mut images, URL, png);
    assert_eq!(settings.key, compute_download_path(URL));
    assert_eq!(settings.max_width, Some(300));
    assert!(settings.is_grayscale);
    assert_eq!(images.image(0).info.mimetype, Some("image/png".to_string()));
    assert_eq!(images.image(0).info.displayed_width, Some(300));
    prepare_image(&mut images, URL, b"");
    assert_eq!(images.image(0).info.mimetype, None);
}

#[test]
fn smaller_image_goes_into_the_book() {
    let mut sizes = ImageSizes::new();
    let file = embed_image(&mut sizes, URL, vec![1, 2, 3], Ok(vec![4])).unwrap();
    assert_eq!(parts(file), (compute_download_path(URL), vec![4], false));
    assert_eq!(sizes, ImageSizes { original: 3, optimized: 1 });
}

#[test]
fn unsupported_image_goes_into_the_book_as_it_is() {
    let mut sizes = ImageSizes { original: 10, optimized: 5 };
    let error = OptimizeImageError::UnsupportedImageFormat("image/gif".to_string());
    let file = embed_image(&mut sizes, URL, vec![1, 2, 3], Err(error)).unwrap();
    assert_eq!(parts(file), (compute_download_path(URL), vec![1, 2, 3], false));
    assert_eq!(sizes, ImageSizes { original: 13, optimized: 5 });
}

#[test]
fn other_errors_keep_an_image_out() {
    let mut sizes = ImageSizes::new();
    let outcome = embed_image(&mut sizes, URL, vec![1], Err(OptimizeImageError::Unknown));
    assert!(matches!(outcome, Err(OptimizeImageError::Unknown)));
    assert_eq!(sizes, ImageSizes { original: 1, optimized: 0 });
}

#[test]
fn sizes_start_over_after_the_largest_number() {
    let mut sizes = ImageSizes { original: usize::MAX, optimized: usize::MAX };
    embed_image(&mut sizes, URL, vec![1, 2], Ok(vec![4])).unwrap();
    assert_eq!(sizes, ImageSizes { original: 1, optimized: 0 });
}

#[test]
fn threads_for_pages_and_pictures() {
    assert_eq!(pool_size(Some(2)), 0);
    assert_eq!(pool_size(Some(3)), 1);
    assert_eq!(pool_size(Some(64)), 1);
    assert_eq!(pool_size(None), 1);
}
