use epub_image_embedder::book::{embed_package, embed_page, FileToZip};
use epub_image_embedder::embed_images::{
    choose_link, displayed_width, place_image, rewrite_package, rewrite_page, rewrite_src, Link,
    Page, PageError, TagError,
};
use epub_image_embedder::images::ImageTable;
use epub_image_embedder::xml::{Attribute, Lookup, Markup, Tag, XmlEvent};

const X_DIGEST: &str = "bc1c0211265cc706d9f9298d6e0e0b6724ab4c2f261b616055ea2b32cf03490c";
const LARGE_DIGEST: &str = "54d70144a3ddebcfb3c829b71ab0695864b96c34e32f88372da09f8571b25b8a";

fn rewritten(images: &mut ImageTable, name: &str, html: &str) -> (String, Vec<String>) {
    let page = rewrite_page(images, name, html.as_bytes()).unwrap();
    (String::from_utf8(page.markup).unwrap(), page.downloads)
}

fn rewritten_alone(html: &str) -> (String, Vec<String>) {
    rewritten(&mut ImageTable::new(), "text/one.html", html)
}

fn tag_error(name: &str, html: &str) -> TagError {
    match rewrite_page(&mut ImageTable::new(), name, html.as_bytes()) {
        Err(PageError::Tag(error)) => error,
        Err(PageError::Markup(error)) => panic!("{:?}", error),
        Ok(_) => panic!("no error"),
    }
}

fn attribute(key: &str, value: &str) -> Option<Attribute> {
    Some(Attribute { key: key.as_bytes().to_vec(), value: value.as_bytes().to_vec() })
}

#[test]
fn other_markup_stays() {
    let html = "<?xml version=\"1.0\"?><!DOCTYPE html><?go on?><html lang='en'><!-- c -->\
                <p>Hi &amp; bye</p><![CDATA[x<y]]></html>";
    assert_eq!(rewritten_alone(html), (html.to_string(), vec![]));
}

#[test]
fn space_around_text_is_left_out() {
    assert_eq!(rewritten_alone("<p>  a b </p>\n").0, "<p>a b</p>");
}

#[test]
fn empty_page_stays_empty() {
    assert_eq!(rewritten_alone(""), (String::new(), vec![]));
}

#[test]
fn other_self_closing_tags_are_left_out() {
    assert_eq!(rewritten_alone("<p>a<br/>b</p>").0, "<p>ab</p>");
}

#[test]
fn remote_image_moves_into_the_book() {
    let html = "<p><img alt=\"A\" src=\"http://a.example/x.png\" width=\"300\"/></p>";
    let (markup, downloads) = rewritten_alone(html);
    assert_eq!(
        markup,
        format!("<p><img alt=\"A\" src=\"../_embedded/{}\" width=\"300\"/></p>", X_DIGEST)
    );
    assert_eq!(downloads, vec!["http://a.example/x.png".to_string()]);
}

#[test]
fn page_at_the_top_refers_downwards() {
    let mut images = ImageTable::new();
    let (markup, _) = rewritten(&mut images, "one.html", "<img src='http://a.example/x.png'/>");
    assert_eq!(markup, format!("<img src=\"_embedded/{}\"/>", X_DIGEST));
}

#[test]
fn addresses_are_brought_into_normal_form() {
    let (_, downloads) = rewritten_alone("<img src=\"http://A.EXAMPLE:80/a/../x.png\"/>");
    assert_eq!(downloads, vec!["http://a.example/x.png".to_string()]);
}

#[test]
fn largest_of_the_srcset_is_taken() {
    let html = "<img src=\"http://a.example/x.png\" \
                srcset=\"http://a.example/small.png 320w, http://a.example/large.png 1280w, \
                http://a.example/medium.png 640w\" alt=\"A\"/>";
    let (markup, downloads) = rewritten_alone(html);
    assert_eq!(markup, format!("<img src=\"../_embedded/{}\" alt=\"A\"/>", LARGE_DIGEST));
    assert_eq!(downloads, vec!["http://a.example/large.png".to_string()]);
}

#[test]
fn srcset_goes_without_a_src() {
    let (markup, downloads) = rewritten_alone("<img srcset=\"http://a.example/large.png 2x\"/>");
    assert_eq!(markup, "<img/>");
    assert_eq!(downloads, vec!["http://a.example/large.png".to_string()]);
}

#[test]
fn image_with_an_empty_srcset_is_left_out() {
    let html = "<p><img srcset=\"\" src=\"http://a.example/x.png\"/></p>";
    assert_eq!(rewritten_alone(html), ("<p></p>".to_string(), vec![]));
}

#[test]
fn image_of_the_book_is_left_out() {
    assert_eq!(rewritten_alone("<p><img src=\"cover.png\"/></p>"), ("<p></p>".to_string(), vec![]));
}

#[test]
fn image_without_address_stays() {
    assert_eq!(rewritten_alone("<img alt='A'/>"), ("<img alt='A'/>".to_string(), vec![]));
}

#[test]
fn known_address_is_not_downloaded_again() {
    let html = "<img src=\"http://a.example/x.png\" width=\"10\"/>\
                <img src=\"http://a.example/x.png\" width=\"20\"/>";
    let mut images = ImageTable::new();
    let (markup, downloads) = rewritten(&mut images, "text/one.html", html);
    assert_eq!(
        markup,
        format!(
            "<img src=\"../_embedded/{}\" width=\"10\"/>\
             <img src=\"http://a.example/x.png\" width=\"20\"/>",
            X_DIGEST
        )
    );
    assert_eq!(downloads, vec!["http://a.example/x.png".to_string()]);
    assert_eq!(images.len(), 1);
    assert_eq!(images.image(0).info.displayed_width, Some(20));
}

#[test]
fn pages_share_no_download() {
    let mut images = ImageTable::new();
    let one = "<img src=\"http://a.example/x.png\"/><img src=\"http://a.example/large.png\"/>";
    let two = "<img src=\"http://a.example/x.png\"/><img src=\"http://a.example/other.png\"/>";
    let (_, first) = rewritten(&mut images, "one.html", one);
    let (_, second) = rewritten(&mut images, "two.html", two);
    assert_eq!(first, vec!["http://a.example/x.png", "http://a.example/large.png"]);
    assert_eq!(second, vec!["http://a.example/other.png"]);
    let three = "<img src=\"http://a.example/other.png\"/><img src=\"http://a.example/last.png\"/>\
                 <img src=\"http://a.example/x.png\"/>";
    let (_, third) = rewritten(&mut images, "three.html", three);
    assert_eq!(third, vec!["http://a.example/last.png"]);
    assert_eq!(images.len(), 4);
}

#[test]
fn bytes_that_are_no_text_are_replaced_in_addresses() {
    let mut html = b"<img src=\"http://a.example/".to_vec();
    html.push(0xff);
    html.extend_from_slice(b"\"/>");
    let page = rewrite_page(&mut ImageTable::new(), "one.html", &html).unwrap();
    assert_eq!(page.downloads, vec!["http://a.example/%EF%BF%BD".to_string()]);
}

#[test]
fn width_that_is_no_number_is_an_error() {
    let html = "<img src=\"http://a.example/x.png\" width=\"50%\"/>";
    assert_eq!(tag_error("one.html", html), TagError::Width);
    let html = "<img src=\"http://a.example/x.png\" =/>";
    assert_eq!(tag_error("one.html", html), TagError::Width);
}

#[test]
fn address_that_is_none_is_an_error() {
    assert_eq!(tag_error("one.html", "<img src=\"http://\"/>"), TagError::Url);
    assert_eq!(tag_error("one.html", "<img srcset=\"x.png 2x\"/>"), TagError::Url);
}

#[test]
fn page_without_directory_is_an_error() {
    assert_eq!(tag_error("", "<img src=\"http://a.example/x.png\"/>"), TagError::Location);
}

#[test]
fn attribute_that_stands_there_twice_is_an_error() {
    let html = "<img src=\"http://a.example/x.png\" alt=\"A\" alt=\"B\"/>";
    assert_eq!(tag_error("one.html", html), TagError::Attributes);
}

#[test]
fn malformed_page_is_an_error() {
    let outcome = rewrite_page(&mut ImageTable::new(), "one.html", b"<a></b>");
    assert!(matches!(outcome, Err(PageError::Markup(_))));
}

#[test]
fn events_come_one_after_the_other() {
    let mut markup = Markup::open(b"<a b='1' c=\"2\"> t <img/></a>");
    match markup.next_event() {
        Ok(Some(XmlEvent::Start(tag))) => {
            assert_eq!(tag.name, b"a".to_vec());
            assert_eq!(tag.content, b"a b='1' c=\"2\"".to_vec());
            assert_eq!(tag.attributes.len(), 2);
            assert!(matches!(tag.attribute("b"), Lookup::Found(value) if value == b"1"));
            assert!(matches!(tag.attribute("c"), Lookup::Found(value) if value == b"2"));
            assert!(matches!(tag.attribute("d"), Lookup::Absent));
        }
        _ => panic!("no start tag"),
    }
    assert!(matches!(markup.next_event(), Ok(Some(XmlEvent::Text(text))) if text == b"t"));
    assert!(matches!(markup.next_event(), Ok(Some(XmlEvent::Empty(tag))) if tag.name == b"img"));
    assert!(matches!(markup.next_event(), Ok(Some(XmlEvent::End(name))) if name == b"a"));
    assert!(matches!(markup.next_event(), Ok(None)));
    assert!(matches!(markup.next_event(), Ok(None)));
}

#[test]
fn search_stops_at_a_malformed_attribute() {
    let tag = Tag {
        name: b"img".to_vec(),
        content: b"img".to_vec(),
        attributes: vec![attribute("a", "1"), None, attribute("b", "2")],
    };
    assert!(matches!(tag.attribute("a"), Lookup::Found(value) if value == b"1"));
    assert!(matches!(tag.attribute("b"), Lookup::Malformed));
    assert!(matches!(displayed_width(&tag), Err(TagError::Width)));
    assert!(rewrite_src(&tag, "x").is_none());
}

#[test]
fn rewritten_tag_refers_to_the_new_src() {
    let tag = Tag {
        name: b"img".to_vec(),
        content: b"img".to_vec(),
        attributes: vec![
            attribute("alt", "A"),
            attribute("src", "old"),
            attribute("srcset", "old 2x"),
            attribute("width", "7"),
        ],
    };
    let content = rewrite_src(&tag, "new").unwrap();
    assert_eq!(content, b"img alt=\"A\" src=\"new\" width=\"7\"".to_vec());
    assert!(matches!(displayed_width(&tag), Ok(Some(7))));
}

#[test]
fn later_rewriting_counts() {
    let tag = |attributes| Tag { name: b"img".to_vec(), content: Vec::new(), attributes };
    let once = || {
        tag(vec![attribute("srcset", "a"), attribute("src", "b"), attribute("id", "c")])
    };
    let rewritten = || tag(vec![attribute("src", "new"), attribute("id", "c")]);
    assert_eq!(rewrite_src(&once(), "new").unwrap(), b"img src=\"new\" id=\"c\"".to_vec());
    assert_eq!(rewrite_src(&rewritten(), "new").unwrap(), rewrite_src(&once(), "new").unwrap());
    assert_eq!(rewrite_src(&rewritten(), "last").unwrap(), rewrite_src(&once(), "last").unwrap());
}

#[test]
fn links_prefer_the_srcset() {
    let http = b"http://a.example/x.png".to_vec();
    let local = b"x.png".to_vec();
    let none = Vec::new();
    assert!(matches!(choose_link(Some(&none), Some(&http)), Link::Nothing));
    assert!(matches!(choose_link(None, Some(&http)), Link::Source));
    assert!(matches!(choose_link(None, Some(&local)), Link::Nothing));
    assert!(matches!(choose_link(None, None), Link::Unknown));
}

#[test]
fn image_without_place_is_refused_only_when_it_is_new() {
    let tag = Tag { name: b"img".to_vec(), content: b"img a".to_vec(), attributes: Vec::new() };
    let mut images = ImageTable::new();
    let mut page = Page::new();
    let outcome = place_image(&mut page, &mut images, &tag, "u".to_string(), None, None);
    assert_eq!(outcome, Err(TagError::Location));
    assert_eq!(images.len(), 0);
    assert!(images.insert("u", Some(1)));
    let outcome = place_image(&mut page, &mut images, &tag, "u".to_string(), Some(2), None);
    assert_eq!(outcome, Ok(()));
    assert_eq!(page.markup, b"<img a/>".to_vec());
    assert_eq!(page.downloads.len(), 0);
    assert_eq!(images.image(0).info.displayed_width, Some(2));
}

#[test]
fn package_lists_the_images() {
    let mut images = ImageTable::new();
    assert!(images.insert("http://a.example/x.png", None));
    assert!(images.insert("http://a.example/large.png", None));
    images.set_mimetype("http://a.example/x.png", Some("image/png".to_string()));
    let package = b"<package><manifest id=\"m\"><item id=\"a\"/></manifest></package>";
    let markup = rewrite_package(&images, package).unwrap();
    let x = format!("_embedded/{}", X_DIGEST);
    let large = format!("_embedded/{}", LARGE_DIGEST);
    assert_eq!(
        String::from_utf8(markup).unwrap(),
        format!(
            "<package><manifest id=\"m\">\
             <item id=\"{}\" href=\"{}\" media-type=\"image/png\"/>\
             <item id=\"{}\" href=\"{}\" media-type=\"application/octet-stream\"/>\
             <item id=\"a\"/></manifest></package>",
            x, x, large, large
        )
    );
}

#[test]
fn package_without_images_stays() {
    let package = b"<package><manifest><item id=\"a\"/></manifest></package>";
    assert_eq!(rewrite_package(&ImageTable::new(), package).unwrap(), package.to_vec());
}

#[test]
fn malformed_package_is_an_error() {
    assert!(rewrite_package(&ImageTable::new(), b"<package></manifest>").is_err());
    assert!(embed_package(&ImageTable::new(), "p.opf", b"<package></manifest>").is_err());
}

#[test]
fn pages_and_packages_are_compressed() {
    let mut images = ImageTable::new();
    let html = b"<img src=\"http://a.example/x.png\"/>";
    let page = embed_page(&mut images, "text/one.html", html).unwrap();
    assert_eq!(page.downloads, vec!["http://a.example/x.png".to_string()]);
    match page.file {
        FileToZip::NewFile { name, contents, compressed } => {
            assert_eq!(name, "text/one.html");
            assert_eq!(contents, format!("<img src=\"../_embedded/{}\"/>", X_DIGEST).into_bytes());
            assert!(compressed);
        }
        FileToZip::ExistingFile { .. } => panic!("not new"),
    }
    match embed_package(&ImageTable::new(), "p.opf", b"<package/>").unwrap() {
        FileToZip::NewFile { name, contents, compressed } => {
            assert_eq!(name, "p.opf");
            assert_eq!(contents, b"<package/>".to_vec());
            assert!(compressed);
        }
        FileToZip::ExistingFile { .. } => panic!("not new"),
    }
    assert!(embed_page(&mut images, "text/two.html", b"<a></b>").is_err());
}
