//! Addresses of pictures, and where a picture is kept in the book. Paths are made
//! of parts between slashes, as they are in an archive and on Unix.

use sha2::{Digest, Sha256};
use std::path::Path;
use vstd::prelude::*;
use vstd::utf8::{decode_utf8, encode_utf8, valid_utf8};

verus! {

/// The text that bytes are read as when every part that is not UTF-8 becomes a
/// replacement character.
pub uninterp spec fn lossy_text(bytes: Seq<u8>) -> Seq<char>;

/// Calls `String::from_utf8_lossy`. What is UTF-8 is decoded as it stands.
#[verifier::external_body]
pub(crate) fn decode_lossy(bytes: &[u8]) -> (text: String)
    ensures
        text@ == lossy_text(bytes@),
        valid_utf8(bytes@) ==> text@ == decode_utf8(bytes@),
{
    String::from_utf8_lossy(bytes).into_owned()
}

/// The address that a text stands for, in the normal form of `Url`, or `None`
/// where the text is no absolute address.
pub uninterp spec fn url_of(text: Seq<char>) -> Option<Seq<char>>;

/// Calls `Url::parse` and takes the address as text.
#[verifier::external_body]
pub(crate) fn parse_url(text: &str) -> (url: Option<String>)
    ensures
        match url {
            Some(url) => url_of(text@) == Some(url@),
            None => url_of(text@) is None,
        },
{
    reqwest::Url::parse(text).ok().map(|url| url.as_str().to_string())
}

/// The SHA-256 digest of bytes.
pub uninterp spec fn sha256(bytes: Seq<u8>) -> Seq<u8>;

/// Calls `Sha256::digest`. A digest has 32 bytes.
#[verifier::external_body]
fn sha256_digest(bytes: &[u8]) -> (digest: Vec<u8>)
    ensures
        digest@ == sha256(bytes@),
        digest@.len() == 32,
{
    Sha256::digest(bytes).to_vec()
}

/// The hexadecimal digit for a number below 16, in lower case.
pub open spec fn hex_digit(value: u8) -> char {
    if value < 10 {
        (0x30 + value) as char
    } else {
        (0x57 + value) as char
    }
}

/// Bytes in hexadecimal notation: two digits for each, the higher one first.
pub open spec fn hex_text(bytes: Seq<u8>) -> Seq<char> {
    Seq::new(
        bytes.len() * 2,
        |i: int|
            hex_digit(
                if i % 2 == 0 {
                    bytes[i / 2] / 16
                } else {
                    bytes[i / 2] % 16
                },
            ),
    )
}

/// Calls `hex::encode`.
#[verifier::external_body]
fn encode_hex(bytes: &[u8]) -> (text: String)
    ensures
        text@ == hex_text(bytes@),
{
    hex::encode(bytes)
}

/// Where a picture is kept in the book, given the digest of its address.
pub open spec fn embedded_path(digest: Seq<u8>) -> Seq<char> {
    "_embedded/"@ + hex_text(digest)
}

/// Where the picture of an address is kept in the book.
pub open spec fn download_path(url: Seq<char>) -> Seq<char> {
    embedded_path(sha256(encode_utf8(url)))
}

/// The path that goes with the digest of an address.
pub fn path_of_digest(digest: &[u8]) -> (path: String)
    ensures
        path@ == embedded_path(digest@),
{
    let digits = encode_hex(digest);
    let mut path: String = String::new();
    path.append("_embedded/");
    path.append(digits.as_str());
    assert(path@ =~= embedded_path(digest@));
    path
}

/// Where the picture of an address is kept in the book: in a directory of its
/// own, under the digest of the address.
pub fn compute_download_path(url: &str) -> (path: String)
    ensures
        path@ == download_path(url@),
        path@.len() == 74,
{
    let digest = sha256_digest(url.as_bytes());
    let path = path_of_digest(&digest);
    proof {
        reveal_strlit("_embedded/");
    }
    path
}

/// The directory of a file, `None` where the path has no last part.
pub uninterp spec fn parent_of(path: Seq<char>) -> Option<Seq<char>>;

/// Calls `Path::parent` on a path of Unix. The parent of a text is text.
#[verifier::external_body]
fn parent_directory(path: &str) -> (parent: Option<String>)
    ensures
        match parent {
            Some(parent) => parent_of(path@) == Some(parent@),
            None => parent_of(path@) is None,
        },
{
    Path::new(path).parent().and_then(|parent| parent.to_str()).map(|parent| parent.to_string())
}

/// The path that leads from a directory to a file, `None` where there is no such
/// path.
pub uninterp spec fn path_difference(path: Seq<char>, base: Seq<char>) -> Option<Seq<char>>;

/// Calls `pathdiff::diff_paths` on paths of Unix. What it makes of two texts is
/// text.
#[verifier::external_body]
fn diff_paths(path: &str, base: &str) -> (difference: Option<String>)
    ensures
        match difference {
            Some(difference) => path_difference(path@, base@) == Some(difference@),
            None => path_difference(path@, base@) is None,
        },
{
    pathdiff::diff_paths(path, base).and_then(|path| path.to_str().map(|path| path.to_string()))
}

/// How a page refers to a file of the book: the path that leads there from the
/// directory of the page.
pub open spec fn reference(page: Seq<char>, path: Seq<char>) -> Option<Seq<char>> {
    match parent_of(page) {
        Some(directory) => path_difference(path, directory),
        None => None,
    }
}

/// How a page refers to a file of the book.
pub fn relative_reference(page: &str, path: &str) -> (found: Option<String>)
    ensures
        match found {
            Some(found) => reference(page@, path@) == Some(found@),
            None => reference(page@, path@) is None,
        },
{
    match parent_directory(page) {
        Some(directory) => diff_paths(path, directory.as_str()),
        None => None,
    }
}

/// Different digests have different paths, so two pictures share a path only
/// where their addresses share a digest.
pub proof fn law_paths_tell_digests_apart(left: Seq<u8>, right: Seq<u8>)
    requires
        embedded_path(left) == embedded_path(right),
    ensures
        left == right,
{
    reveal_strlit("_embedded/");
    let prefix = "_embedded/"@;
    assert(embedded_path(left).skip(prefix.len() as int) =~= hex_text(left));
    assert(embedded_path(right).skip(prefix.len() as int) =~= hex_text(right));
    let hex = hex_text(left);
    assert(hex.len() == left.len() * 2);
    assert forall|i: int| 0 <= i < left.len() implies left[i] == right[i] by {
        assert(hex[i * 2] == hex_digit(left[i] / 16));
        assert(hex[i * 2 + 1] == hex_digit(left[i] % 16));
        assert(hex_text(right)[i * 2] == hex_digit(right[i] / 16));
        assert(hex_text(right)[i * 2 + 1] == hex_digit(right[i] % 16));
    }
    assert(left =~= right);
}

/// A path in the book is made of lower-case letters, digits, one slash and one
/// underscore: it means the same in markup, in an address and in a file system.
pub proof fn law_paths_are_plain(digest: Seq<u8>, at: int)
    requires
        0 <= at < embedded_path(digest).len(),
    ensures
        ({
            let c = embedded_path(digest)[at];
            'a' <= c <= 'z' || '0' <= c <= '9' || (at == 0 && c == '_') || (at == 9 && c == '/')
        }),
{
    reveal_strlit("_embedded/");
    if at >= 10 {
        let i = at - 10;
        assert(embedded_path(digest)[at] == hex_text(digest)[i]);
    }
}

/// The path of an address shows the digest of the whole address: each byte of it by
/// two characters, behind the name of the directory.
pub proof fn law_path_shows_the_digest_of_the_whole_address(url: Seq<char>)
    ensures
        ({
            let digest = sha256(encode_utf8(url));
            let path = download_path(url);
            &&& path.len() == 10 + 2 * digest.len()
            &&& path.take(10) == seq!['_', 'e', 'm', 'b', 'e', 'd', 'd', 'e', 'd', '/']
            &&& forall|i: int|
                #![trigger digest[i]]
                0 <= i < digest.len() ==> {
                    let high = path[10 + 2 * i] as int;
                    let low = path[11 + 2 * i] as int;
                    &&& 0x30 <= high <= 0x39 || 0x61 <= high <= 0x66
                    &&& 0x30 <= low <= 0x39 || 0x61 <= low <= 0x66
                    &&& digest[i] == 16 * (if high <= 0x39 {
                        high - 0x30
                    } else {
                        high - 0x57
                    }) + (if low <= 0x39 {
                        low - 0x30
                    } else {
                        low - 0x57
                    })
                }
        }),
{
    reveal_strlit("_embedded/");
    let digest = sha256(encode_utf8(url));
    let path = download_path(url);
    assert(path =~= "_embedded/"@ + hex_text(digest));
    assert(path.take(10) =~= seq!['_', 'e', 'm', 'b', 'e', 'd', 'd', 'e', 'd', '/']);
    assert forall|i: int| #![trigger digest[i]] 0 <= i < digest.len() implies {
        let high = path[10 + 2 * i] as int;
        let low = path[11 + 2 * i] as int;
        &&& 0x30 <= high <= 0x39 || 0x61 <= high <= 0x66
        &&& 0x30 <= low <= 0x39 || 0x61 <= low <= 0x66
        &&& digest[i] == 16 * (if high <= 0x39 {
            high - 0x30
        } else {
            high - 0x57
        }) + (if low <= 0x39 {
            low - 0x30
        } else {
            low - 0x57
        })
    } by {
        assert(path[10 + 2 * i] == hex_text(digest)[2 * i]);
        assert(path[11 + 2 * i] == hex_text(digest)[2 * i + 1]);
    }
}

/// Where the digests of two different addresses differ, so do their paths: no two
/// addresses share a place in the book.
pub proof fn law_addresses_have_their_own_paths(left: Seq<char>, right: Seq<char>)
    requires
        encode_utf8(left) != encode_utf8(right) ==> sha256(encode_utf8(left)) != sha256(
            encode_utf8(right),
        ),
        download_path(left) == download_path(right),
    ensures
        left == right,
{
    law_paths_tell_digests_apart(sha256(encode_utf8(left)), sha256(encode_utf8(right)));
    vstd::utf8::encode_utf8_decode_utf8(left);
    vstd::utf8::encode_utf8_decode_utf8(right);
}

/// A page refers to a file by the path that leads there from the page's directory,
/// and has no reference where it has no directory. So two pages of one directory
/// refer to a file alike.
pub proof fn law_references_start_at_the_directory(
    page: Seq<char>,
    other: Seq<char>,
    path: Seq<char>,
)
    ensures
        parent_of(page) is None ==> reference(page, path) is None,
        parent_of(page) matches Some(directory) ==> reference(page, path) == path_difference(
            path,
            directory,
        ),
        parent_of(page) == parent_of(other) ==> reference(page, path) == reference(other, path),
{
}

} // verus!
