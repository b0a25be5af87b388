use epub_image_embedder::bytes::{append, bytes_equal, copy, starts_with};
use epub_image_embedder::images::ImageTable;
use epub_image_embedder::location::{compute_download_path, path_of_digest, relative_reference};

#[test]
fn path_is_the_digest_of_the_address() {
    assert_eq!(
        compute_download_path("http://a.example/x.png"),
        "_embedded/bc1c0211265cc706d9f9298d6e0e0b6724ab4c2f261b616055ea2b32cf03490c"
    );
    assert_eq!(
        compute_download_path("https://b.example/y.jpg"),
        "_embedded/f03ea3aa68e35c35975585d88df60ee736a91b581e57997a70cfd7fa02370dea"
    );
}

#[test]
fn digests_are_written_in_hexadecimal() {
    assert_eq!(path_of_digest(&[0x00, 0x9f, 0xa0, 0xff]), "_embedded/009fa0ff");
    assert_eq!(path_of_digest(&[]), "_embedded/");
}

#[test]
fn digests_that_differ_have_different_paths() {
    assert_ne!(path_of_digest(&[1, 2]), path_of_digest(&[1, 3]));
    assert_ne!(path_of_digest(&[1]), path_of_digest(&[1, 0]));
}

#[test]
fn paths_are_plain() {
    let path = compute_download_path("http://a.example/\u{e9}");
    assert_eq!(path.len(), 74);
    let digits = path.strip_prefix("_embedded/").unwrap();
    assert!(digits.chars().all(|c| c.is_ascii_lowercase() || c.is_ascii_digit()));
}

#[test]
fn references_lead_from_the_page_to_the_file() {
    let reference = |page: &str| relative_reference(page, "_embedded/0a");
    assert_eq!(reference("one.html"), Some("_embedded/0a".to_string()));
    assert_eq!(reference("text/one.html"), Some("../_embedded/0a".to_string()));
    assert_eq!(reference("a/b/one.html"), Some("../../_embedded/0a".to_string()));
    assert_eq!(reference("_embedded/one.html"), Some("0a".to_string()));
    assert_eq!(reference(""), None);
    assert_eq!(reference("/text/one.html"), None);
}

#[test]
fn last_entry_of_an_address_counts() {
    let mut images = ImageTable::new();
    assert!(!images.contains("a"));
    assert!(images.insert("a", Some(10)));
    assert!(images.insert("b", None));
    assert_eq!(images.set_mimetype("a", Some("image/png".to_string())), Some(10));
    assert_eq!(images.image(0).info.mimetype, Some("image/png".to_string()));
    assert!(!images.insert("a", Some(20)));
    assert_eq!(images.len(), 2);
    assert!(images.contains("a"));
    assert_eq!(images.image(0).url, "a");
    assert_eq!(images.image(0).info.displayed_width, Some(20));
    assert_eq!(images.image(0).info.mimetype, None);
}

#[test]
fn other_addresses_stay() {
    let mut images = ImageTable::new();
    images.insert("a", Some(10));
    images.insert("b", Some(30));
    images.insert("a", Some(20));
    images.set_mimetype("a", None);
    assert_eq!(images.image(1).url, "b");
    assert_eq!(images.image(1).info.displayed_width, Some(30));
}

#[test]
fn bytes_are_compared_and_copied() {
    assert!(bytes_equal(b"ab", b"ab"));
    assert!(!bytes_equal(b"ab", b"aB"));
    assert!(!bytes_equal(b"ab", b"abc"));
    assert!(starts_with(b"https", b"http"));
    assert!(!starts_with(b"htt", b"http"));
    assert!(!starts_with(b"xhttp", b"http"));
    let mut out = copy(b"ab");
    append(&mut out, b"cd");
    assert_eq!(out, b"abcd".to_vec());
}
