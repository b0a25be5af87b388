//! Pages whose images move into the book, and the package file that lists the
//! images.

use crate::bytes::{bytes_equal, copy, lemma_ascii_bytes, starts_with};
use crate::candidates::{
    candidates_view, largest, largest_candidate, parse_srcset, parse_width, srcset_candidates,
    width_of, Candidate, CandidateView,
};
use crate::images::{are_distinct, has_url, inserted, url_at, urls, Image, ImageTable, ImageView};
use crate::location::{
    compute_download_path, decode_lossy, download_path, lossy_text, parse_url, reference,
    relative_reference, url_of,
};
use crate::xml::{
    are_others, attribute_markup, attributes_markup, breaks_before, document, empty_markup,
    events_markup, has_first, items_view, law_attributes_are_written_unchanged,
    law_search_finds_the_first, lookup, markup_of, push_attribute, write_empty, write_event, Attribute, Lookup, Markup, Tag, TagView,
    XmlEvent, XmlEventView,
};
use vstd::prelude::*;
use vstd::utf8::encode_utf8;

verus! {

/// Why the image of a tag cannot be moved into the book.
#[derive(Clone, Copy, Debug, PartialEq, Eq, Structural)]
pub enum TagError {
    /// The width cannot be read.
    Width,
    /// The address is none.
    Url,
    /// No path leads from the page to the image.
    Location,
    /// An attribute is malformed or stands there twice.
    Attributes,
}

/// The name of an attribute that is not malformed.
pub open spec fn key_of(attribute: Option<(Seq<u8>, Seq<u8>)>) -> Seq<u8> {
    match attribute {
        Some((key, _)) => key,
        None => Seq::empty(),
    }
}

/// Whether attributes can be written anew: none is malformed, and no two have
/// the same name.
pub open spec fn are_sound(attributes: Seq<Option<(Seq<u8>, Seq<u8>)>>) -> bool {
    &&& forall|i: int| 0 <= i < attributes.len() ==> (#[trigger] attributes[i]) is Some
    &&& forall|i: int, j: int|
        0 <= i < j < attributes.len() ==> key_of(#[trigger] attributes[i]) != key_of(
            #[trigger] attributes[j],
        )
}

/// Sound attributes.
pub open spec fn sound_attributes(
    attributes: Seq<Option<(Seq<u8>, Seq<u8>)>>,
) -> Seq<(Seq<u8>, Seq<u8>)> {
    attributes.map_values(|attribute: Option<(Seq<u8>, Seq<u8>)>| attribute->0)
}

/// The attributes of an image that refers to `src` alone: the `srcset` is
/// gone, the `src` is the new one, and the others are as they were.
pub open spec fn with_src(attributes: Seq<(Seq<u8>, Seq<u8>)>, src: Seq<u8>) -> Seq<
    (Seq<u8>, Seq<u8>),
>
    decreases attributes.len(),
{
    if attributes.len() == 0 {
        Seq::empty()
    } else {
        let front = with_src(attributes.drop_last(), src);
        let (key, value) = attributes.last();
        if key == encode_utf8("src"@) {
            front.push((key, src))
        } else if key == encode_utf8("srcset"@) {
            front
        } else {
            front.push((key, value))
        }
    }
}

/// The text of a tag whose image is at `src`, `None` where its attributes
/// are not sound.
pub open spec fn rewritten(tag: TagView, src: Seq<u8>) -> Option<Seq<u8>> {
    if are_sound(tag.attributes) {
        Some(tag.name + attributes_markup(with_src(sound_attributes(tag.attributes), src)))
    } else {
        None
    }
}

/// Whether the attributes of a tag can be written anew.
fn attributes_are_sound(attributes: &Vec<Option<Attribute>>) -> (sound: bool)
    ensures
        sound == are_sound(items_view(attributes@)),
{
    let ghost views = items_view(attributes@);
    let mut at: usize = 0;
    while at < attributes.len()
        invariant
            views == items_view(attributes@),
            at <= attributes.len(),
            forall|i: int| 0 <= i < at ==> (#[trigger] views[i]) is Some,
            forall|i: int, j: int|
                0 <= i < j < at ==> key_of(#[trigger] views[i]) != key_of(#[trigger] views[j]),
        decreases attributes.len() - at,
    {
        assert(views[at as int] == match attributes@[at as int] {
            Some(attribute) => Some(attribute@),
            None => None,
        });
        let attribute = match &attributes[at] {
            Some(attribute) => attribute,
            None => return false,
        };
        let mut other: usize = 0;
        while other < at
            invariant
                views == items_view(attributes@),
                other <= at < attributes.len(),
                views[at as int] == Some(attribute@),
                forall|i: int| 0 <= i < at ==> (#[trigger] views[i]) is Some,
                forall|i: int|
                    0 <= i < other ==> key_of(#[trigger] views[i]) != key_of(views[at as int]),
            decreases at - other,
        {
            assert(views[other as int] == match attributes@[other as int] {
                Some(attribute) => Some(attribute@),
                None => None,
            });
            if let Some(earlier) = &attributes[other] {
                if bytes_equal(&earlier.key, &attribute.key) {
                    return false;
                }
            }
            other += 1;
        }
        at += 1;
    }
    true
}

/// Writes the tag of an image anew, with a new `src` and without a `srcset`.
pub fn rewrite_src(element: &Tag, src: &str) -> (content: Option<Vec<u8>>)
    ensures
        match content {
            Some(content) => rewritten(element@, encode_utf8(src@)) == Some(content@),
            None => rewritten(element@, encode_utf8(src@)) is None,
        },
{
    if !attributes_are_sound(&element.attributes) {
        return None;
    }
    let new_src = src.as_bytes();
    let src_key = "src".as_bytes();
    let srcset_key = "srcset".as_bytes();
    let ghost all = sound_attributes(element@.attributes);
    let mut content: Vec<u8> = copy(&element.name);
    let mut at: usize = 0;
    assert(content@ =~= element.name@ + attributes_markup(with_src(all.take(0), new_src@)));
    while at < element.attributes.len()
        invariant
            at <= element.attributes.len(),
            are_sound(element@.attributes),
            all == sound_attributes(element@.attributes),
            src_key@ == encode_utf8("src"@),
            srcset_key@ == encode_utf8("srcset"@),
            content@ == element.name@ + attributes_markup(with_src(all.take(at as int), new_src@)),
        decreases element.attributes.len() - at,
    {
        let ghost front = with_src(all.take(at as int), new_src@);
        assert(element@.attributes[at as int] is Some);
        assert(all.take(at + 1).drop_last() =~= all.take(at as int));
        if let Some(attribute) = &element.attributes[at] {
            assert(all.take(at + 1).last() == attribute@);
            if bytes_equal(&attribute.key, src_key) {
                push_attribute(&mut content, src_key, new_src);
                assert(front.push((src_key@, new_src@)).drop_last() =~= front);
            } else if bytes_equal(&attribute.key, srcset_key) {
            } else {
                push_attribute(&mut content, &attribute.key, &attribute.value);
                assert(front.push(attribute@).drop_last() =~= front);
            }
        }
        at += 1;
        assert(content@ =~= element.name@ + attributes_markup(
            with_src(all.take(at as int), new_src@),
        ));
    }
    assert(all.take(at as int) =~= all);
    Some(content)
}

/// What an image tag refers to.
pub enum Link<T> {
    /// The picture at the address that a `srcset` offers.
    Candidate(T),
    /// The picture at the address in the `src`.
    Source,
    /// Nothing that could be downloaded, so the tag is left out.
    Nothing,
    /// Neither attribute is there to be read, so the tag stays.
    Unknown,
}

/// What an image tag refers to, given the candidates of its `srcset` and the
/// value of its `src`, as far as these can be read. A `srcset` goes before a
/// `src`.
pub open spec fn link_of(
    candidates: Option<Seq<CandidateView>>,
    src: Option<Seq<u8>>,
) -> Link<Seq<char>> {
    match (candidates, src) {
        (Some(candidates), _) => match largest(candidates) {
            Some(candidate) => Link::Candidate(candidate.url),
            None => Link::Nothing,
        },
        (None, Some(src)) => if encode_utf8("http"@).is_prefix_of(src) {
            Link::Source
        } else {
            Link::Nothing
        },
        (None, None) => Link::Unknown,
    }
}

/// Finds what an image tag refers to.
pub fn choose_link(candidates: Option<&Vec<Candidate>>, src: Option<&Vec<u8>>) -> (link: Link<
    String,
>)
    ensures
        ({
            let candidates = match candidates {
                Some(candidates) => Some(candidates_view(candidates@)),
                None => None,
            };
            let src = match src {
                Some(src) => Some(src@),
                None => None,
            };
            match link {
                Link::Candidate(url) => link_of(candidates, src) == Link::Candidate(url@),
                Link::Source => link_of(candidates, src) is Source,
                Link::Nothing => link_of(candidates, src) is Nothing,
                Link::Unknown => link_of(candidates, src) is Unknown,
            }
        }),
{
    match candidates {
        Some(candidates) => match largest_candidate(candidates) {
            Some(candidate) => Link::Candidate(candidate.url.clone()),
            None => Link::Nothing,
        },
        None => match src {
            Some(src) => if starts_with(src, "http".as_bytes()) {
                Link::Source
            } else {
                Link::Nothing
            },
            None => Link::Unknown,
        },
    }
}

/// The value that a search has found.
pub open spec fn found<T>(lookup: Lookup<T>) -> Option<T> {
    match lookup {
        Lookup::Found(value) => Some(value),
        _ => None,
    }
}

/// The value of an attribute of a tag, `None` where it is missing or cannot be
/// read.
pub open spec fn value_of(tag: TagView, key: Seq<char>) -> Option<Seq<u8>> {
    found(lookup(tag.attributes, encode_utf8(key)))
}

/// What a tag refers to.
pub open spec fn tag_link(tag: TagView) -> Link<Seq<char>> {
    link_of(
        match value_of(tag, "srcset"@) {
            Some(srcset) => Some(srcset_candidates(lossy_text(srcset))),
            None => None,
        },
        value_of(tag, "src"@),
    )
}

/// The width that a tag asks for: `Some(None)` where it asks for none, and
/// `None` where the width cannot be read.
pub open spec fn tag_width(tag: TagView) -> Option<Option<u32>> {
    match lookup(tag.attributes, encode_utf8("width"@)) {
        Lookup::Found(value) => match width_of(value) {
            Some(width) => Some(Some(width)),
            None => None,
        },
        Lookup::Absent => Some(None),
        Lookup::Malformed => None,
    }
}

/// Reads the width that a tag asks for.
pub fn displayed_width(tag: &Tag) -> (width: Result<Option<u32>, TagError>)
    ensures
        width == (match tag_width(tag@) {
            Some(width) => Ok::<Option<u32>, TagError>(width),
            None => Err(TagError::Width),
        }),
{
    match tag.attribute("width") {
        Lookup::Found(value) => match parse_width(value) {
            Some(width) => Ok(Some(width)),
            None => Err(TagError::Width),
        },
        Lookup::Absent => Ok(None),
        Lookup::Malformed => Err(TagError::Width),
    }
}

/// A page of the book on its way into the new one.
pub struct Page {
    /// The text of the page so far.
    pub markup: Vec<u8>,
    /// The addresses that the page is the first to refer to.
    pub downloads: Vec<String>,
}

/// The value of a [`Page`].
pub struct PageView {
    pub markup: Seq<u8>,
    pub downloads: Seq<Seq<char>>,
}

impl View for Page {
    type V = PageView;

    open spec fn view(&self) -> PageView {
        PageView {
            markup: self.markup@,
            downloads: self.downloads@.map_values(|url: String| url@),
        }
    }
}

impl Page {
    /// A page without text.
    pub fn new() -> (page: Self)
        ensures
            page@ == (PageView { markup: Seq::empty(), downloads: Seq::empty() }),
    {
        let page = Page { markup: Vec::new(), downloads: Vec::new() };
        assert(page@.downloads =~= Seq::empty());
        page
    }
}

/// A page and the pictures known after an image has been dealt with, or why it
/// could not be.
///
/// An address that turns up for the first time is to be downloaded, and its tag
/// refers to `src`. Where the address is known already the tag stays as it was.
/// Either way the width that the tag asks for is what is known from then on.
pub open spec fn placed(
    page: PageView,
    images: Seq<ImageView>,
    tag: TagView,
    url: Seq<char>,
    width: Option<u32>,
    src: Option<Seq<char>>,
) -> Result<(PageView, Seq<ImageView>), TagError> {
    let image = ImageView { url: url, mimetype: None, displayed_width: width };
    if has_url(images, url) {
        Ok(
            (
                PageView { markup: page.markup + empty_markup(tag.content), ..page },
                inserted(images, image),
            ),
        )
    } else {
        match src {
            None => Err(TagError::Location),
            Some(src) => match rewritten(tag, encode_utf8(src)) {
                None => Err(TagError::Attributes),
                Some(content) => Ok(
                    (
                        PageView {
                            markup: page.markup + empty_markup(content),
                            downloads: page.downloads.push(url),
                        },
                        inserted(images, image),
                    ),
                ),
            },
        }
    }
}

/// Deals with the tag of an image whose address, width and place are known.
pub fn place_image(
    page: &mut Page,
    images: &mut ImageTable,
    tag: &Tag,
    url: String,
    width: Option<u32>,
    src: Option<String>,
) -> (outcome: Result<(), TagError>)
    requires
        old(images).wf(),
    ensures
        final(images).wf(),
        ({
            let src = match src {
                Some(src) => Some(src@),
                None => None,
            };
            match placed(old(page)@, old(images)@, tag@, url@, width, src) {
                Ok(after) => outcome is Ok && final(page)@ == after.0 && final(images)@ == after.1,
                Err(error) => outcome == Err::<(), TagError>(error) && final(page)@ == old(page)@
                    && final(images)@ == old(images)@,
            }
        }),
{
    if images.contains(url.as_str()) {
        write_empty(&mut page.markup, &tag.content);
        let _ = images.insert(url.as_str(), width);
        return Ok(());
    }
    let src = match src {
        Some(src) => src,
        None => return Err(TagError::Location),
    };
    let content = match rewrite_src(tag, src.as_str()) {
        Some(content) => content,
        None => return Err(TagError::Attributes),
    };
    write_empty(&mut page.markup, &content);
    let _ = images.insert(url.as_str(), width);
    let ghost downloads = page@.downloads;
    page.downloads.push(url);
    assert(page@.downloads =~= downloads.push(url@));
    Ok(())
}

/// A page and the pictures known after a self-closing tag of the page called
/// `page_name`, or why the tag cannot be dealt with. Of the self-closing tags
/// only those of images are kept.
pub open spec fn after_tag(
    page: PageView,
    images: Seq<ImageView>,
    page_name: Seq<char>,
    tag: TagView,
) -> Result<(PageView, Seq<ImageView>), TagError> {
    if tag.name != encode_utf8("img"@) {
        Ok((page, images))
    } else {
        match tag_link(tag) {
            Link::Candidate(text) => after_link(page, images, page_name, tag, text),
            Link::Source => after_link(
                page,
                images,
                page_name,
                tag,
                lossy_text(value_of(tag, "src"@)->0),
            ),
            Link::Nothing => Ok((page, images)),
            Link::Unknown => Ok(
                (PageView { markup: page.markup + empty_markup(tag.content), ..page }, images),
            ),
        }
    }
}

/// A page and the pictures known after the tag of an image whose address is
/// written as `text`.
pub open spec fn after_link(
    page: PageView,
    images: Seq<ImageView>,
    page_name: Seq<char>,
    tag: TagView,
    text: Seq<char>,
) -> Result<(PageView, Seq<ImageView>), TagError> {
    match tag_width(tag) {
        None => Err(TagError::Width),
        Some(width) => match url_of(text) {
            None => Err(TagError::Url),
            Some(url) => placed(
                page,
                images,
                tag,
                url,
                width,
                reference(page_name, download_path(url)),
            ),
        },
    }
}

/// A page and the pictures known after an event of the page called `page_name`.
/// What is no self-closing tag is taken over as it is.
pub open spec fn after_event(
    page: PageView,
    images: Seq<ImageView>,
    page_name: Seq<char>,
    event: XmlEventView,
) -> Result<(PageView, Seq<ImageView>), TagError> {
    match event {
        XmlEventView::Empty(tag) => after_tag(page, images, page_name, tag),
        _ => Ok((PageView { markup: page.markup + markup_of(event), ..page }, images)),
    }
}

/// Deals with the tag of an image whose address is written as `text`.
fn embed_link(
    page: &mut Page,
    images: &mut ImageTable,
    page_name: &str,
    tag: &Tag,
    text: &str,
) -> (outcome: Result<(), TagError>)
    requires
        old(images).wf(),
    ensures
        final(images).wf(),
        match after_link(old(page)@, old(images)@, page_name@, tag@, text@) {
            Ok(after) => outcome is Ok && final(page)@ == after.0 && final(images)@ == after.1,
            Err(error) => outcome == Err::<(), TagError>(error) && final(page)@ == old(page)@
                && final(images)@ == old(images)@,
        },
{
    let width = match displayed_width(tag) {
        Ok(width) => width,
        Err(error) => return Err(error),
    };
    let url = match parse_url(text) {
        Some(url) => url,
        None => return Err(TagError::Url),
    };
    let path = compute_download_path(url.as_str());
    let src = relative_reference(page_name, path.as_str());
    place_image(page, images, tag, url, width, src)
}

/// Deals with a self-closing tag of a page.
pub fn embed_tag(
    page: &mut Page,
    images: &mut ImageTable,
    page_name: &str,
    tag: &Tag,
) -> (outcome: Result<(), TagError>)
    requires
        old(images).wf(),
    ensures
        final(images).wf(),
        match after_tag(old(page)@, old(images)@, page_name@, tag@) {
            Ok(after) => outcome is Ok && final(page)@ == after.0 && final(images)@ == after.1,
            Err(error) => outcome == Err::<(), TagError>(error) && final(page)@ == old(page)@
                && final(images)@ == old(images)@,
        },
{
    if !bytes_equal(&tag.name, "img".as_bytes()) {
        return Ok(());
    }
    let srcset = match tag.attribute("srcset") {
        Lookup::Found(value) => Some(parse_srcset(decode_lossy(value).as_str())),
        _ => None,
    };
    let src = match tag.attribute("src") {
        Lookup::Found(value) => Some(value),
        _ => None,
    };
    let candidates = match &srcset {
        Some(candidates) => Some(candidates),
        None => None,
    };
    match choose_link(candidates, src) {
        Link::Candidate(text) => embed_link(page, images, page_name, tag, text.as_str()),
        Link::Source => match src {
            Some(src) => {
                let text = decode_lossy(src);
                embed_link(page, images, page_name, tag, text.as_str())
            },
            None => Ok(()),
        },
        Link::Nothing => Ok(()),
        Link::Unknown => {
            write_empty(&mut page.markup, &tag.content);
            Ok(())
        },
    }
}

/// Deals with an event of a page.
pub fn embed_event(
    page: &mut Page,
    images: &mut ImageTable,
    page_name: &str,
    event: &XmlEvent,
) -> (outcome: Result<(), TagError>)
    requires
        old(images).wf(),
    ensures
        final(images).wf(),
        match after_event(old(page)@, old(images)@, page_name@, event@) {
            Ok(after) => outcome is Ok && final(page)@ == after.0 && final(images)@ == after.1,
            Err(error) => outcome == Err::<(), TagError>(error) && final(page)@ == old(page)@
                && final(images)@ == old(images)@,
        },
{
    match event {
        XmlEvent::Empty(tag) => embed_tag(page, images, page_name, tag),
        _ => {
            write_event(&mut page.markup, event);
            Ok(())
        },
    }
}

/// How far a page has come.
pub struct Progress {
    pub page: PageView,
    pub images: Seq<ImageView>,
    pub error: Option<TagError>,
}

/// How far a page comes with its first events: up to the last of them, or up to
/// the first that cannot be dealt with.
pub open spec fn progress(
    events: Seq<XmlEventView>,
    page_name: Seq<char>,
    images: Seq<ImageView>,
) -> Progress
    decreases events.len(),
{
    if events.len() == 0 {
        Progress {
            page: PageView { markup: Seq::empty(), downloads: Seq::empty() },
            images: images,
            error: None,
        }
    } else {
        let before = progress(events.drop_last(), page_name, images);
        if before.error is Some {
            before
        } else {
            match after_event(before.page, before.images, page_name, events.last()) {
                Ok((page, images)) => Progress { page: page, images: images, error: None },
                Err(error) => Progress { error: Some(error), ..before },
            }
        }
    }
}

/// Why a page cannot be rewritten.
#[derive(Debug)]
pub enum PageError {
    /// The page is not well-formed.
    Markup(quick_xml::Error),
    /// A tag of the page cannot be dealt with.
    Tag(TagError),
}

proof fn lemma_error_is_final(
    events: Seq<XmlEventView>,
    page_name: Seq<char>,
    images: Seq<ImageView>,
    count: int,
)
    requires
        0 <= count <= events.len(),
        progress(events.take(count), page_name, images).error is Some,
    ensures
        progress(events, page_name, images) == progress(events.take(count), page_name, images),
    decreases events.len(),
{
    if count < events.len() {
        assert(events.drop_last().take(count) =~= events.take(count));
        lemma_error_is_final(events.drop_last(), page_name, images, count);
    } else {
        assert(events.take(count) =~= events);
    }
}

/// Rewrites the page called `page_name`, so that its images are those of the
/// book, and enters the images.
pub fn rewrite_page(images: &mut ImageTable, page_name: &str, html: &[u8]) -> (outcome: Result<
    Page,
    PageError,
>)
    requires
        old(images).wf(),
    ensures
        final(images).wf(),
        ({
            let read = document(html@);
            let reached = progress(read.events, page_name@, old(images)@);
            &&& final(images)@ == reached.images
            &&& match outcome {
                Ok(page) => reached.error is None && read.error is None && page@
                    == reached.page,
                Err(PageError::Tag(error)) => reached.error == Some(error),
                Err(PageError::Markup(error)) => reached.error is None && read.error == Some(error),
            }
        }),
{
    let mut markup = Markup::open(html);
    let mut page = Page::new();
    let ghost events = document(html@).events;
    let ghost failure = document(html@).error;
    let ghost before = images@;
    let ghost mut count: int = 0;
    assert(events.skip(0) =~= events);
    loop
        invariant
            images.wf(),
            before == old(images)@,
            events == document(html@).events,
            failure == document(html@).error,
            0 <= count <= events.len(),
            markup.rest().events == events.skip(count),
            markup.rest().error == failure,
            progress(events.take(count), page_name@, before) == (Progress {
                page: page@,
                images: images@,
                error: None,
            }),
        decreases events.len() - count,
    {
        let next = match markup.next_event() {
            Ok(next) => next,
            Err(error) => {
                assert(events.take(count) =~= events);
                return Err(PageError::Markup(error));
            },
        };
        match next {
            None => {
                assert(events.take(count) =~= events);
                return Ok(page);
            },
            Some(event) => {
                assert(event@ == events[count]);
                assert(events.skip(count).drop_first() =~= events.skip(count + 1));
                assert(events.take(count + 1).drop_last() =~= events.take(count));
                assert(events.take(count + 1).last() == event@);
                let outcome = embed_event(&mut page, images, page_name, &event);
                if let Err(error) = outcome {
                    proof {
                        lemma_error_is_final(events, page_name@, before, count + 1);
                    }
                    return Err(PageError::Tag(error));
                }
                proof {
                    count = count + 1;
                }
            },
        }
    }
}

/// The media type of a picture in the package file.
pub open spec fn media_type(image: ImageView) -> Seq<char> {
    match image.mimetype {
        Some(mimetype) => mimetype,
        None => "application/octet-stream"@,
    }
}

/// The text of the tag that lists a file in the package file.
pub open spec fn item_content(path: Seq<char>, media_type: Seq<char>) -> Seq<u8> {
    encode_utf8("item"@) + attribute_markup(encode_utf8("id"@), encode_utf8(path))
        + attribute_markup(encode_utf8("href"@), encode_utf8(path)) + attribute_markup(
        encode_utf8("media-type"@),
        encode_utf8(media_type),
    )
}

/// The tags that list pictures in the package file.
pub open spec fn items_markup(images: Seq<ImageView>) -> Seq<u8>
    decreases images.len(),
{
    if images.len() == 0 {
        Seq::empty()
    } else {
        let image = images.last();
        items_markup(images.drop_last()) + empty_markup(
            item_content(download_path(image.url), media_type(image)),
        )
    }
}

/// What becomes of an event of the package file: pictures are listed at the
/// beginning of the manifest, and all else is taken over as it is.
pub open spec fn package_event_markup(event: XmlEventView, images: Seq<ImageView>) -> Seq<u8> {
    match event {
        XmlEventView::Start(tag) => if tag.name == encode_utf8("manifest"@) {
            markup_of(event) + items_markup(images)
        } else {
            markup_of(event)
        },
        _ => markup_of(event),
    }
}

/// What becomes of the package file.
pub open spec fn package_markup(events: Seq<XmlEventView>, images: Seq<ImageView>) -> Seq<u8>
    decreases events.len(),
{
    if events.len() == 0 {
        Seq::empty()
    } else {
        package_markup(events.drop_last(), images) + package_event_markup(events.last(), images)
    }
}

/// Lists a file in the package file.
pub fn write_item(out: &mut Vec<u8>, path: &str, media_type: &str)
    ensures
        final(out)@ == old(out)@ + empty_markup(item_content(path@, media_type@)),
{
    let mut content: Vec<u8> = copy("item".as_bytes());
    push_attribute(&mut content, "id".as_bytes(), path.as_bytes());
    push_attribute(&mut content, "href".as_bytes(), path.as_bytes());
    push_attribute(&mut content, "media-type".as_bytes(), media_type.as_bytes());
    write_empty(out, &content);
}

/// Lists a picture in the package file.
fn write_image(out: &mut Vec<u8>, image: &Image)
    ensures
        final(out)@ == old(out)@ + empty_markup(
            item_content(download_path(image@.url), media_type(image@)),
        ),
{
    let path = compute_download_path(image.url.as_str());
    match &image.info.mimetype {
        Some(mimetype) => write_item(out, path.as_str(), mimetype.as_str()),
        None => write_item(out, path.as_str(), "application/octet-stream"),
    }
}

/// Takes over an event of the package file.
pub fn embed_package_event(out: &mut Vec<u8>, images: &ImageTable, event: &XmlEvent)
    ensures
        final(out)@ == old(out)@ + package_event_markup(event@, images@),
{
    let ghost before = out@;
    write_event(out, event);
    if let XmlEvent::Start(tag) = event {
        if bytes_equal(&tag.name, "manifest".as_bytes()) {
            let mut at: usize = 0;
            assert(out@ =~= before + markup_of(event@) + items_markup(images@.take(0)));
            while at < images.len()
                invariant
                    at <= images@.len(),
                    out@ == before + markup_of(event@) + items_markup(images@.take(at as int)),
                decreases images@.len() - at,
            {
                let image = images.image(at);
                write_image(out, image);
                at += 1;
                assert(images@.take(at as int).drop_last() =~= images@.take(at - 1));
                assert(out@ =~= before + markup_of(event@) + items_markup(
                    images@.take(at as int),
                ));
            }
            assert(images@.take(at as int) =~= images@);
            assert(out@ =~= before + (markup_of(event@) + items_markup(images@)));
        }
    }
}

/// Rewrites the package file, so that it lists the pictures.
pub fn rewrite_package(images: &ImageTable, package: &[u8]) -> (outcome: Result<
    Vec<u8>,
    quick_xml::Error,
>)
    ensures
        match outcome {
            Ok(markup) => document(package@).error is None && markup@ == package_markup(
                document(package@).events,
                images@,
            ),
            Err(error) => document(package@).error == Some(error),
        },
{
    let mut markup = Markup::open(package);
    let mut out: Vec<u8> = Vec::new();
    let ghost events = document(package@).events;
    let ghost failure = document(package@).error;
    let ghost mut count: int = 0;
    assert(events.skip(0) =~= events);
    loop
        invariant
            events == document(package@).events,
            failure == document(package@).error,
            0 <= count <= events.len(),
            markup.rest().events == events.skip(count),
            markup.rest().error == failure,
            out@ == package_markup(events.take(count), images@),
        decreases events.len() - count,
    {
        let next = match markup.next_event() {
            Ok(next) => next,
            Err(error) => return Err(error),
        };
        match next {
            None => {
                assert(events.take(count) =~= events);
                return Ok(out);
            },
            Some(event) => {
                assert(events.skip(count).drop_first() =~= events.skip(count + 1));
                assert(events.take(count + 1).drop_last() =~= events.take(count));
                assert(events.take(count + 1).last() == event@);
                embed_package_event(&mut out, images, &event);
                proof {
                    count = count + 1;
                }
            },
        }
    }
}

/// The attributes that say nothing of where an image is.
pub open spec fn other_attributes(attributes: Seq<(Seq<u8>, Seq<u8>)>) -> Seq<(Seq<u8>, Seq<u8>)> {
    attributes.filter(
        |attribute: (Seq<u8>, Seq<u8>)|
            attribute.0 != encode_utf8("src"@) && attribute.0 != encode_utf8("srcset"@),
    )
}

/// Whether an attribute has that name.
pub open spec fn has_key(attributes: Seq<(Seq<u8>, Seq<u8>)>, key: Seq<char>) -> bool {
    exists|i: int| 0 <= i < attributes.len() && (#[trigger] attributes[i]).0 == encode_utf8(key)
}

/// A rewritten tag has no `srcset`, it has a `src` where the tag before had one,
/// every `src` in it is the new one, and the other attributes are those of the
/// tag before, in their order.
pub proof fn law_rewritten_tag_refers_to_src(
    attributes: Seq<(Seq<u8>, Seq<u8>)>,
    src: Seq<u8>,
)
    ensures
        forall|i: int|
            0 <= i < with_src(attributes, src).len() ==> (#[trigger] with_src(attributes, src)[i]).0
                != encode_utf8("srcset"@),
        forall|i: int|
            0 <= i < with_src(attributes, src).len() && (#[trigger] with_src(
                attributes,
                src,
            )[i]).0 == encode_utf8("src"@) ==> with_src(attributes, src)[i].1 == src,
        has_key(with_src(attributes, src), "src"@) == has_key(attributes, "src"@),
        other_attributes(with_src(attributes, src)) == other_attributes(attributes),
    decreases attributes.len(),
{
    lemma_image_keys_differ();
    reveal(Seq::filter);
    if attributes.len() > 0 {
        let front = attributes.drop_last();
        law_rewritten_tag_refers_to_src(front, src);
        let after = with_src(attributes, src);
        let before = with_src(front, src);
        if after.len() > before.len() {
            assert(after.drop_last() =~= before);
        }
        let key = encode_utf8("src"@);
        if attributes.last().0 == key {
            assert(after[after.len() - 1].0 == key);
            assert(attributes[attributes.len() - 1].0 == key);
        } else {
            if has_key(attributes, "src"@) {
                let i = choose|i: int|
                    0 <= i < attributes.len() && (#[trigger] attributes[i]).0 == key;
                assert(front[i].0 == key);
                let j = choose|j: int| 0 <= j < before.len() && (#[trigger] before[j]).0 == key;
                assert(after[j].0 == key);
            }
            if has_key(after, "src"@) {
                let j = choose|j: int| 0 <= j < after.len() && (#[trigger] after[j]).0 == key;
                assert(before[j].0 == key);
                let i = choose|i: int| 0 <= i < front.len() && (#[trigger] front[i]).0 == key;
                assert(attributes[i].0 == key);
            }
        }
    }
}

proof fn lemma_image_keys_differ()
    ensures
        encode_utf8("src"@) != encode_utf8("srcset"@),
{
    reveal_strlit("src");
    reveal_strlit("srcset");
    vstd::utf8::encode_utf8_decode_utf8("src"@);
    vstd::utf8::encode_utf8_decode_utf8("srcset"@);
    assert("src"@.len() != "srcset"@.len());
}

/// Of two rewritings the later counts, as if the earlier had never been: so
/// rewriting to the same `src` again changes nothing.
pub proof fn law_later_rewriting_counts(
    attributes: Seq<(Seq<u8>, Seq<u8>)>,
    earlier: Seq<u8>,
    later: Seq<u8>,
)
    ensures
        with_src(with_src(attributes, earlier), later) == with_src(attributes, later),
    decreases attributes.len(),
{
    lemma_image_keys_differ();
    if attributes.len() > 0 {
        let front = attributes.drop_last();
        law_later_rewriting_counts(front, earlier, later);
        let after = with_src(attributes, earlier);
        if after.len() > with_src(front, earlier).len() {
            assert(after.drop_last() =~= with_src(front, earlier));
        }
    }
}

/// An image whose address turns up for the first time is downloaded, and its tag
/// refers to the place in the book where it is kept.
pub proof fn law_new_image_is_embedded(
    page: PageView,
    images: Seq<ImageView>,
    page_name: Seq<char>,
    tag: TagView,
    text: Seq<char>,
)
    requires
        tag_width(tag) is Some,
        url_of(text) is Some,
        !has_url(images, url_of(text)->0),
        reference(page_name, download_path(url_of(text)->0)) is Some,
        are_sound(tag.attributes),
    ensures
        ({
            let url = url_of(text)->0;
            let src = encode_utf8(reference(page_name, download_path(url))->0);
            let attributes = with_src(sound_attributes(tag.attributes), src);
            after_link(page, images, page_name, tag, text) == Ok::<
                (PageView, Seq<ImageView>),
                TagError,
            >(
                (
                    PageView {
                        markup: page.markup + empty_markup(
                            tag.name + attributes_markup(attributes),
                        ),
                        downloads: page.downloads.push(url),
                    },
                    images.push(
                        ImageView {
                            url: url,
                            mimetype: None,
                            displayed_width: tag_width(tag)->0,
                        },
                    ),
                ),
            )
        }),
{
}

/// However far a page comes, the addresses known afterwards are those known
/// before and then those to be downloaded, and all of them differ. So a page
/// asks for no address twice and for none that was known.
pub proof fn law_downloads_are_the_new_images(
    events: Seq<XmlEventView>,
    page_name: Seq<char>,
    images: Seq<ImageView>,
)
    requires
        are_distinct(images),
    ensures
        are_distinct(progress(events, page_name, images).images),
        urls(progress(events, page_name, images).images) == urls(images) + progress(
            events,
            page_name,
            images,
        ).page.downloads,
    decreases events.len(),
{
    let reached = progress(events, page_name, images);
    if events.len() == 0 {
        assert(urls(reached.images) =~= urls(images) + reached.page.downloads);
    } else {
        law_downloads_are_the_new_images(events.drop_last(), page_name, images);
        let before = progress(events.drop_last(), page_name, images);
        if before.error is None {
            match after_event(before.page, before.images, page_name, events.last()) {
                Ok((page, after)) => {
                    if after != before.images {
                        lemma_insertion_keeps_urls(before.images, after);
                    }
                    assert(urls(after) =~= urls(images) + page.downloads);
                },
                Err(_) => {},
            }
        }
    }
}

proof fn lemma_insertion_keeps_urls(images: Seq<ImageView>, after: Seq<ImageView>)
    requires
        are_distinct(images),
    ensures
        forall|image: ImageView| #[trigger]
            inserted(images, image) == after ==> are_distinct(after) && urls(after) == (if has_url(
                images,
                image.url,
            ) {
                urls(images)
            } else {
                urls(images).push(image.url)
            }),
{
    assert forall|image: ImageView| #[trigger] inserted(images, image) == after implies
        are_distinct(after) && urls(after) == (if has_url(images, image.url) {
            urls(images)
        } else {
            urls(images).push(image.url)
        }) by {
        crate::images::law_last_entry_counts(images, image);
        if has_url(images, image.url) {
            let at = url_at(images, image.url);
            assert(0 <= at < images.len() && images[at].url == image.url);
            assert(urls(after) =~= urls(images));
        } else {
            assert(urls(after) =~= urls(images).push(image.url));
        }
    }
}

/// A page before it is rewritten.
pub struct SourcePage {
    pub name: Seq<char>,
    pub events: Seq<XmlEventView>,
}

/// The pictures known after some pages, one after the other.
pub open spec fn images_after(pages: Seq<SourcePage>, images: Seq<ImageView>) -> Seq<ImageView>
    decreases pages.len(),
{
    if pages.len() == 0 {
        images
    } else {
        let before = images_after(pages.drop_last(), images);
        progress(pages.last().events, pages.last().name, before).images
    }
}

/// How far a page comes after the pages before it.
pub open spec fn page_progress(
    pages: Seq<SourcePage>,
    images: Seq<ImageView>,
    at: int,
) -> Progress {
    progress(pages[at].events, pages[at].name, images_after(pages.take(at), images))
}

/// The addresses that some pages, one after the other, ask for.
pub open spec fn downloads_after(
    pages: Seq<SourcePage>,
    images: Seq<ImageView>,
) -> Seq<Seq<char>>
    decreases pages.len(),
{
    if pages.len() == 0 {
        Seq::empty()
    } else {
        downloads_after(pages.drop_last(), images) + page_progress(
            pages,
            images,
            pages.len() - 1,
        ).page.downloads
    }
}

/// However many pages follow one another, no address is asked for twice, and what
/// is asked for is what was not known before and is known afterwards.
pub proof fn law_pages_share_no_download(pages: Seq<SourcePage>, images: Seq<ImageView>)
    requires
        are_distinct(images),
    ensures
        are_distinct(images_after(pages, images)),
        urls(images_after(pages, images)) == urls(images) + downloads_after(pages, images),
        downloads_after(pages, images).no_duplicates(),
        forall|url: Seq<char>| #[trigger]
            downloads_after(pages, images).contains(url) <==> has_url(
                images_after(pages, images),
                url,
            ) && !has_url(images, url),
    decreases pages.len(),
{
    lemma_pages_enter_downloads(pages, images);
    let after = images_after(pages, images);
    let downloads = downloads_after(pages, images);
    let known = images.len() as int;
    assert(urls(after).len() == after.len() && urls(images).len() == known);
    assert forall|i: int| 0 <= i < downloads.len() implies after[known + i].url
        == #[trigger] downloads[i] by {
        assert(urls(after)[known + i] == downloads[i]);
    }
    assert forall|i: int| 0 <= i < known implies (#[trigger] after[i]).url == images[i].url by {
        assert(urls(after)[i] == urls(images)[i]);
    }
    assert forall|i: int, j: int|
        0 <= i < downloads.len() && 0 <= j < downloads.len() && i != j implies downloads[i]
        != downloads[j] by {
        assert(after[known + i].url != after[known + j].url);
    }
    assert forall|url: Seq<char>| #[trigger] downloads.contains(url) implies has_url(after, url)
        && !has_url(images, url) by {
        let i = downloads.index_of(url);
        assert(after[known + i].url == url);
        if has_url(images, url) {
            let j = url_at(images, url);
            assert(images[j].url == url);
            assert(after[j].url == url);
        }
    }
    assert forall|url: Seq<char>| has_url(after, url) && !has_url(images, url) implies
        #[trigger] downloads.contains(url) by {
        let i = url_at(after, url);
        assert(after[i].url == url);
        if i < known {
            assert(images[i].url == url);
        }
        assert(downloads[i - known] == url);
    }
}

proof fn lemma_pages_enter_downloads(pages: Seq<SourcePage>, images: Seq<ImageView>)
    requires
        are_distinct(images),
    ensures
        are_distinct(images_after(pages, images)),
        urls(images_after(pages, images)) == urls(images) + downloads_after(pages, images),
    decreases pages.len(),
{
    if pages.len() == 0 {
        assert(urls(images) + downloads_after(pages, images) =~= urls(images));
    } else {
        let front = pages.drop_last();
        lemma_pages_enter_downloads(front, images);
        assert(pages.take(pages.len() - 1) =~= front);
        let page = pages.last();
        law_downloads_are_the_new_images(page.events, page.name, images_after(front, images));
        assert(urls(images) + downloads_after(pages, images) =~= urls(images) + downloads_after(
            front,
            images,
        ) + page_progress(pages, images, pages.len() - 1).page.downloads);
    }
}

/// The address of the picture that a self-closing tag stands for, `None` where it
/// stands for none.
pub open spec fn chosen_url(tag: TagView) -> Option<Seq<char>> {
    if tag.name != encode_utf8("img"@) {
        None
    } else {
        match tag_link(tag) {
            Link::Candidate(text) => url_of(text),
            Link::Source => url_of(lossy_text(value_of(tag, "src"@)->0)),
            _ => None,
        }
    }
}

proof fn lemma_known_address_stays(images: Seq<ImageView>, image: ImageView, url: Seq<char>)
    requires
        has_url(images, url),
    ensures
        has_url(inserted(images, image), url),
{
    let i = url_at(images, url);
    assert(0 <= i < images.len() && images[i].url == url);
    let after = inserted(images, image);
    if has_url(images, image.url) {
        let at = url_at(images, image.url);
        assert(0 <= at < images.len() && images[at].url == image.url);
    }
    assert(after[i].url == url);
}

proof fn lemma_chosen_address_is_known(
    events: Seq<XmlEventView>,
    page_name: Seq<char>,
    images: Seq<ImageView>,
    at: int,
    tag: TagView,
)
    requires
        are_distinct(images),
        progress(events, page_name, images).error is None,
        0 <= at < events.len(),
        events[at] == XmlEventView::Empty(tag),
        chosen_url(tag) is Some,
    ensures
        has_url(progress(events, page_name, images).images, chosen_url(tag)->0),
    decreases events.len(),
{
    let front = events.drop_last();
    let before = progress(front, page_name, images);
    let after = progress(events, page_name, images);
    let url = chosen_url(tag)->0;
    law_downloads_are_the_new_images(front, page_name, images);
    if at == front.len() {
        let image = ImageView {
            url: url,
            mimetype: None,
            displayed_width: tag_width(tag)->0,
        };
        assert(after.images == inserted(before.images, image));
        crate::images::law_last_entry_counts(before.images, image);
    } else {
        lemma_chosen_address_is_known(front, page_name, images, at, tag);
        if after.images != before.images {
            let last = events.last()->Empty_0;
            let image = ImageView {
                url: chosen_url(last)->0,
                mimetype: None,
                displayed_width: tag_width(last)->0,
            };
            assert(after.images == inserted(before.images, image));
            lemma_known_address_stays(before.images, image, url);
        }
    }
}

proof fn lemma_known_address_stays_on_pages(
    pages: Seq<SourcePage>,
    images: Seq<ImageView>,
    count: int,
    url: Seq<char>,
)
    requires
        are_distinct(images),
        0 <= count <= pages.len(),
        has_url(images_after(pages.take(count), images), url),
    ensures
        has_url(images_after(pages, images), url),
    decreases pages.len(),
{
    if count == pages.len() {
        assert(pages.take(count) =~= pages);
    } else {
        let front = pages.drop_last();
        assert(front.take(count) =~= pages.take(count));
        assert(pages.take(pages.len() - 1) =~= front);
        lemma_known_address_stays_on_pages(front, images, count, url);
        lemma_pages_enter_downloads(front, images);
        let before = images_after(front, images);
        let after = images_after(pages, images);
        law_downloads_are_the_new_images(pages.last().events, pages.last().name, before);
        let i = url_at(before, url);
        assert(before[i].url == url);
        assert(urls(before).len() == before.len() && urls(after).len() == after.len());
        assert(urls(after)[i] == urls(before)[i]);
        assert(after[i].url == url);
    }
}

/// Where a tag of a page stands for a picture whose address was not known before
/// the first page, that address is asked for exactly once.
pub proof fn law_chosen_address_is_asked_for_once(
    pages: Seq<SourcePage>,
    images: Seq<ImageView>,
    page: int,
    at: int,
    tag: TagView,
)
    requires
        are_distinct(images),
        0 <= page < pages.len(),
        page_progress(pages, images, page).error is None,
        0 <= at < pages[page].events.len(),
        pages[page].events[at] == XmlEventView::Empty(tag),
        chosen_url(tag) is Some,
        !has_url(images, chosen_url(tag)->0),
    ensures
        exists|i: int|
            {
                &&& 0 <= i < downloads_after(pages, images).len()
                &&& #[trigger] downloads_after(pages, images)[i] == chosen_url(tag)->0
                &&& forall|j: int|
                    0 <= j < downloads_after(pages, images).len() && #[trigger] downloads_after(
                        pages,
                        images,
                    )[j] == chosen_url(tag)->0 ==> j == i
            },
{
    let url = chosen_url(tag)->0;
    let downloads = downloads_after(pages, images);
    let before = pages.take(page);
    lemma_pages_enter_downloads(before, images);
    lemma_chosen_address_is_known(
        pages[page].events,
        pages[page].name,
        images_after(before, images),
        at,
        tag,
    );
    let with_page = pages.take(page + 1);
    assert(with_page.take(page) =~= before);
    assert(with_page.take(with_page.len() - 1) =~= before);
    lemma_known_address_stays_on_pages(pages, images, page + 1, url);
    law_pages_share_no_download(pages, images);
    assert(downloads.contains(url));
    let i = downloads.index_of(url);
    assert(downloads[i] == url);
}

/// A page without self-closing tags is taken over as it is, and changes
/// nothing in what is known of pictures.
pub proof fn law_page_without_images_stays(
    events: Seq<XmlEventView>,
    page_name: Seq<char>,
    images: Seq<ImageView>,
)
    requires
        forall|i: int| 0 <= i < events.len() ==> !((#[trigger] events[i]) is Empty),
    ensures
        progress(events, page_name, images).error is None,
        progress(events, page_name, images).images == images,
        progress(events, page_name, images).page.downloads.len() == 0,
        progress(events, page_name, images).page.markup == events_markup(events),
    decreases events.len(),
{
    if events.len() > 0 {
        let front = events.drop_last();
        assert(forall|i: int| 0 <= i < front.len() ==> front[i] == events[i]);
        law_page_without_images_stays(front, page_name, images);
        assert(!(events[events.len() - 1] is Empty));
    }
}

/// What is no self-closing tag is taken over at its place, after all that comes
/// before it.
pub proof fn law_other_markup_stays(
    events: Seq<XmlEventView>,
    event: XmlEventView,
    page_name: Seq<char>,
    images: Seq<ImageView>,
)
    requires
        progress(events, page_name, images).error is None,
        !(event is Empty),
    ensures
        ({
            let before = progress(events, page_name, images);
            progress(events.push(event), page_name, images) == Progress {
                page: PageView {
                    markup: before.page.markup + markup_of(event),
                    ..before.page
                },
                ..before
            }
        }),
{
    assert(events.push(event).drop_last() =~= events);
}

/// The package file lists every picture, under the path at which it is kept.
pub proof fn law_package_lists_every_image(images: Seq<ImageView>, at: int)
    requires
        0 <= at < images.len(),
    ensures
        exists|rest: Seq<u8>| #[trigger]
            (items_markup(images.take(at)) + empty_markup(
                item_content(download_path(images[at].url), media_type(images[at])),
            ) + rest) == items_markup(images),
    decreases images.len(),
{
    let front = images.drop_last();
    let item = empty_markup(
        item_content(download_path(images[at].url), media_type(images[at])),
    );
    if at == images.len() - 1 {
        assert(images.take(at) =~= front);
        assert(items_markup(images.take(at)) + item + Seq::<u8>::empty() =~= items_markup(images));
    } else {
        law_package_lists_every_image(front, at);
        assert(front.take(at) =~= images.take(at));
        let rest = choose|rest: Seq<u8>| #[trigger]
            (items_markup(images.take(at)) + item + rest) == items_markup(front);
        let last = empty_markup(
            item_content(download_path(images.last().url), media_type(images.last())),
        );
        assert(items_markup(images.take(at)) + item + (rest + last) =~= items_markup(images));
    }
}

/// Where there are no pictures the package file is taken over as it is.
pub proof fn law_package_without_images_stays(events: Seq<XmlEventView>)
    ensures
        package_markup(events, Seq::empty()) == events_markup(events),
    decreases events.len(),
{
    if events.len() > 0 {
        law_package_without_images_stays(events.drop_last());
        assert(markup_of(events.last()) + items_markup(Seq::empty()) =~= markup_of(events.last()));
    }
}

#[verifier::rlimit(5)]
proof fn lemma_name_bytes()
    ensures
        encode_utf8("img"@) == seq![0x69u8, 0x6d, 0x67],
        encode_utf8("src"@) == seq![0x73u8, 0x72, 0x63],
        encode_utf8("srcset"@) == seq![0x73u8, 0x72, 0x63, 0x73, 0x65, 0x74],
        encode_utf8("width"@) == seq![0x77u8, 0x69, 0x64, 0x74, 0x68],
        encode_utf8("http"@) == seq![0x68u8, 0x74, 0x74, 0x70],
        encode_utf8("manifest"@) == seq![0x6du8, 0x61, 0x6e, 0x69, 0x66, 0x65, 0x73, 0x74],
{
    reveal_strlit("img");
    reveal_strlit("src");
    reveal_strlit("srcset");
    reveal_strlit("width");
    reveal_strlit("http");
    reveal_strlit("manifest");
    lemma_ascii_bytes("img"@, seq![0x69u8, 0x6d, 0x67]);
    lemma_ascii_bytes("src"@, seq![0x73u8, 0x72, 0x63]);
    lemma_ascii_bytes("srcset"@, seq![0x73u8, 0x72, 0x63, 0x73, 0x65, 0x74]);
    lemma_ascii_bytes("width"@, seq![0x77u8, 0x69, 0x64, 0x74, 0x68]);
    lemma_ascii_bytes("http"@, seq![0x68u8, 0x74, 0x74, 0x70]);
    lemma_ascii_bytes("manifest"@, seq![0x6du8, 0x61, 0x6e, 0x69, 0x66, 0x65, 0x73, 0x74]);
}

/// Whether bytes begin with the letters h, t, t and p, as those of an address with
/// `http:` and of one with `https:` do.
pub open spec fn begins_with_http(bytes: Seq<u8>) -> bool {
    bytes.len() >= 4 && bytes[0] == 0x68 && bytes[1] == 0x74 && bytes[2] == 0x74 && bytes[3]
        == 0x70
}

/// The name in what is there of an attribute.
pub open spec fn name_of(attribute: Option<(Seq<u8>, Seq<u8>)>) -> Option<Seq<u8>> {
    match attribute {
        Some((name, _)) => Some(name),
        None => None,
    }
}

/// Whether no value of the name can be read: none is there, or a malformed attribute
/// stands before it.
pub open spec fn has_no_value(tag: TagView, key: Seq<u8>) -> bool {
    are_others(tag.attributes, key) || breaks_before(tag.attributes, key)
}

/// Whether a tag asks for that width: by its attribute `width`, or for none, where it
/// has no such attribute.
pub open spec fn asks_for_width(tag: TagView, width: Option<u32>) -> bool {
    let key = seq![0x77u8, 0x69, 0x64, 0x74, 0x68];
    match width {
        Some(width) => exists|value: Seq<u8>| #[trigger]
            has_first(tag.attributes, key, value) && width_of(value) == Some(width),
        None => are_others(tag.attributes, key),
    }
}

/// Whether attributes are all well-formed, with different names, and these.
pub open spec fn are_attributes(
    attributes: Seq<Option<(Seq<u8>, Seq<u8>)>>,
    plain: Seq<(Seq<u8>, Seq<u8>)>,
) -> bool {
    &&& attributes.len() == plain.len()
    &&& forall|i: int| 0 <= i < plain.len() ==> (#[trigger] attributes[i]) == Some(plain[i])
    &&& forall|i: int, j: int|
        0 <= i < j < plain.len() ==> (#[trigger] plain[i]).0 != (#[trigger] plain[j]).0
}

/// Whether no picture is known by the address.
pub open spec fn is_unknown(images: Seq<ImageView>, url: Seq<char>) -> bool {
    forall|i: int| 0 <= i < images.len() ==> (#[trigger] images[i]).url != url
}

/// Whether a tag can be written anew for a picture of that address: its attributes are
/// those, and a path leads from the page to the picture.
pub open spec fn is_writable(
    page_name: Seq<char>,
    tag: TagView,
    plain: Seq<(Seq<u8>, Seq<u8>)>,
    url: Seq<char>,
) -> bool {
    are_attributes(tag.attributes, plain) && reference(page_name, download_path(url)) is Some
}

/// Whether a page has gone on past the tag of an image at that address. The address
/// is known, with that width. Where it was known before, the tag stays as it was, and
/// nothing is downloaded. Where it is new, it is downloaded, and the tag has its
/// attributes, but for the `srcset`, with a `src` that leads from the page to the
/// place of the picture in the book.
pub open spec fn is_past_image(
    before: Progress,
    after: Progress,
    page_name: Seq<char>,
    tag: TagView,
    plain: Seq<(Seq<u8>, Seq<u8>)>,
    url: Seq<char>,
    width: Option<u32>,
) -> bool {
    let image = ImageView { url: url, mimetype: None, displayed_width: width };
    &&& after.error is None
    &&& after.images.contains(image)
    &&& after.images == inserted(before.images, image)
    &&& if exists|i: int| 0 <= i < before.images.len() && (#[trigger] before.images[i]).url == url {
        &&& after.page.downloads == before.page.downloads
        &&& after.page.markup == before.page.markup + (seq![0x3cu8] + tag.content + seq![
            0x2fu8,
            0x3e,
        ])
    } else {
        let src = reference(page_name, download_path(url))->0;
        &&& after.page.downloads == before.page.downloads.push(url)
        &&& after.page.markup == before.page.markup + (seq![0x3cu8] + (seq![0x69u8, 0x6d, 0x67]
            + attributes_markup(with_src(plain, encode_utf8(src)))) + seq![0x2fu8, 0x3e])
    }
}

#[verifier::rlimit(5)]
proof fn lemma_width_of_tag(tag: TagView, width: Option<u32>)
    requires
        asks_for_width(tag, width),
    ensures
        tag_width(tag) == Some(width),
{
    lemma_name_bytes();
    let key = seq![0x77u8, 0x69, 0x64, 0x74, 0x68];
    match width {
        Some(number) => {
            let value = choose|value: Seq<u8>| #[trigger]
                has_first(tag.attributes, key, value) && width_of(value) == Some(number);
            law_search_finds_the_first(tag.attributes, key, value);
        },
        None => {
            law_search_finds_the_first(tag.attributes, key, Seq::empty());
        },
    }
}

#[verifier::rlimit(5)]
proof fn lemma_rewritten_from_plain(
    tag: TagView,
    plain: Seq<(Seq<u8>, Seq<u8>)>,
    src: Seq<u8>,
)
    requires
        are_attributes(tag.attributes, plain),
    ensures
        are_sound(tag.attributes),
        sound_attributes(tag.attributes) == plain,
        rewritten(tag, src) == Some(tag.name + attributes_markup(with_src(plain, src))),
{
    assert(sound_attributes(tag.attributes) =~= plain);
    assert forall|i: int, j: int| 0 <= i < j < tag.attributes.len() implies key_of(
        #[trigger] tag.attributes[i],
    ) != key_of(#[trigger] tag.attributes[j]) by {
        assert(plain[i].0 != plain[j].0);
    }
}

#[verifier::rlimit(10)]
proof fn lemma_past_link(
    before: Progress,
    page_name: Seq<char>,
    tag: TagView,
    plain: Seq<(Seq<u8>, Seq<u8>)>,
    text: Seq<char>,
    url: Seq<char>,
    width: Option<u32>,
)
    requires
        are_distinct(before.images),
        before.error is None,
        tag.name == seq![0x69u8, 0x6d, 0x67],
        asks_for_width(tag, width),
        url_of(text) == Some(url),
        is_unknown(before.images, url) ==> is_writable(page_name, tag, plain, url),
    ensures
        after_link(before.page, before.images, page_name, tag, text) matches Ok((page, images))
            && is_past_image(
            before,
            Progress { page: page, images: images, error: None },
            page_name,
            tag,
            plain,
            url,
            width,
        ),
{
    lemma_width_of_tag(tag, width);
    let src = encode_utf8(reference(page_name, download_path(url))->0);
    if is_unknown(before.images, url) {
        lemma_rewritten_from_plain(tag, plain, src);
    }
    let image = ImageView { url: url, mimetype: None, displayed_width: width };
    crate::images::law_last_entry_counts(before.images, image);
    let after = inserted(before.images, image);
    let at = url_at(after, url);
    assert(0 <= at < after.len() && after[at].url == url);
    assert(after[at] == image);
    law_attributes_are_written_unchanged(tag.content, Seq::empty(), Seq::empty(), Seq::empty());
    law_attributes_are_written_unchanged(
        tag.name + attributes_markup(with_src(plain, src)),
        Seq::empty(),
        Seq::empty(),
        Seq::empty(),
    );
}

#[verifier::rlimit(5)]
proof fn lemma_progress_of_push(
    events: Seq<XmlEventView>,
    event: XmlEventView,
    page_name: Seq<char>,
    images: Seq<ImageView>,
)
    ensures
        ({
            let before = progress(events, page_name, images);
            progress(events.push(event), page_name, images) == (if before.error is Some {
                before
            } else {
                match after_event(before.page, before.images, page_name, event) {
                    Ok((page, images)) => Progress { page: page, images: images, error: None },
                    Err(error) => Progress { error: Some(error), ..before },
                }
            })
        }),
{
    assert(events.push(event).drop_last() =~= events);
}

/// An image without a readable `srcset`, whose `src` begins with the letters h, t, t
/// and p and is an address, with or without a width, becomes one of the book.
#[verifier::rlimit(10)]
pub proof fn law_remote_image_is_embedded(
    events: Seq<XmlEventView>,
    page_name: Seq<char>,
    images: Seq<ImageView>,
    tag: TagView,
    plain: Seq<(Seq<u8>, Seq<u8>)>,
    src: Seq<u8>,
    url: Seq<char>,
    width: Option<u32>,
)
    requires
        are_distinct(images),
        progress(events, page_name, images).error is None,
        tag.name == seq![0x69u8, 0x6d, 0x67],
        has_no_value(tag, seq![0x73u8, 0x72, 0x63, 0x73, 0x65, 0x74]),
        has_first(tag.attributes, seq![0x73u8, 0x72, 0x63], src),
        begins_with_http(src),
        url_of(lossy_text(src)) == Some(url),
        asks_for_width(tag, width),
        is_unknown(progress(events, page_name, images).images, url) ==> is_writable(
            page_name,
            tag,
            plain,
            url,
        ),
    ensures
        is_past_image(
            progress(events, page_name, images),
            progress(events.push(XmlEventView::Empty(tag)), page_name, images),
            page_name,
            tag,
            plain,
            url,
            width,
        ),
{
    let before = progress(events, page_name, images);
    law_downloads_are_the_new_images(events, page_name, images);
    lemma_progress_of_push(events, XmlEventView::Empty(tag), page_name, images);
    lemma_name_bytes();
    law_search_finds_the_first(
        tag.attributes,
        seq![0x73u8, 0x72, 0x63, 0x73, 0x65, 0x74],
        Seq::empty(),
    );
    law_search_finds_the_first(tag.attributes, seq![0x73u8, 0x72, 0x63], src);
    let http = seq![0x68u8, 0x74, 0x74, 0x70];
    assert(http =~= src.subrange(0, http.len() as int));
    assert(tag_link(tag) is Source);
    lemma_past_link(before, page_name, tag, plain, lossy_text(src), url, width);
}

/// An image with a readable `srcset` becomes one of the book, at the address of the
/// chosen candidate, whatever its `src` is.
#[verifier::rlimit(10)]
pub proof fn law_candidate_is_embedded(
    events: Seq<XmlEventView>,
    page_name: Seq<char>,
    images: Seq<ImageView>,
    tag: TagView,
    plain: Seq<(Seq<u8>, Seq<u8>)>,
    srcset: Seq<u8>,
    url: Seq<char>,
    width: Option<u32>,
)
    requires
        are_distinct(images),
        progress(events, page_name, images).error is None,
        tag.name == seq![0x69u8, 0x6d, 0x67],
        has_first(tag.attributes, seq![0x73u8, 0x72, 0x63, 0x73, 0x65, 0x74], srcset),
        largest(srcset_candidates(lossy_text(srcset))) is Some,
        url_of(largest(srcset_candidates(lossy_text(srcset)))->0.url) == Some(url),
        asks_for_width(tag, width),
        is_unknown(progress(events, page_name, images).images, url) ==> is_writable(
            page_name,
            tag,
            plain,
            url,
        ),
    ensures
        is_past_image(
            progress(events, page_name, images),
            progress(events.push(XmlEventView::Empty(tag)), page_name, images),
            page_name,
            tag,
            plain,
            url,
            width,
        ),
{
    let before = progress(events, page_name, images);
    law_downloads_are_the_new_images(events, page_name, images);
    lemma_progress_of_push(events, XmlEventView::Empty(tag), page_name, images);
    lemma_name_bytes();
    law_search_finds_the_first(
        tag.attributes,
        seq![0x73u8, 0x72, 0x63, 0x73, 0x65, 0x74],
        srcset,
    );
    let text = largest(srcset_candidates(lossy_text(srcset)))->0.url;
    assert(tag_link(tag) == Link::Candidate(text));
    lemma_past_link(before, page_name, tag, plain, text, url, width);
}

/// Of all self-closing tags these leave a page, and change nothing else: those of
/// other elements, those of images whose `srcset` offers no candidate, and those of
/// images without a readable `srcset` whose `src` does not begin with the letters h,
/// t, t and p. The tag of an image of which neither can be read stays as it was.
#[verifier::rlimit(10)]
pub proof fn law_other_images_are_not_downloaded(
    events: Seq<XmlEventView>,
    page_name: Seq<char>,
    images: Seq<ImageView>,
    tag: TagView,
    value: Seq<u8>,
)
    requires
        progress(events, page_name, images).error is None,
    ensures
        ({
            let srcset_key = seq![0x73u8, 0x72, 0x63, 0x73, 0x65, 0x74];
            let src_key = seq![0x73u8, 0x72, 0x63];
            let before = progress(events, page_name, images);
            let after = progress(events.push(XmlEventView::Empty(tag)), page_name, images);
            &&& tag.name != seq![0x69u8, 0x6d, 0x67] ==> after == before
            &&& has_first(tag.attributes, srcset_key, value) && srcset_candidates(
                lossy_text(value),
            ).len() == 0 ==> after == before
            &&& has_no_value(tag, srcset_key) && has_first(tag.attributes, src_key, value)
                && !begins_with_http(value) ==> after == before
            &&& tag.name == seq![0x69u8, 0x6d, 0x67] && has_no_value(tag, srcset_key)
                && has_no_value(tag, src_key) ==> after == Progress {
                page: PageView {
                    markup: before.page.markup + (seq![0x3cu8] + tag.content + seq![
                        0x2fu8,
                        0x3e,
                    ]),
                    downloads: before.page.downloads,
                },
                images: before.images,
                error: None,
            }
        }),
{
    let srcset_key = seq![0x73u8, 0x72, 0x63, 0x73, 0x65, 0x74];
    let src_key = seq![0x73u8, 0x72, 0x63];
    lemma_progress_of_push(events, XmlEventView::Empty(tag), page_name, images);
    lemma_name_bytes();
    law_search_finds_the_first(tag.attributes, srcset_key, value);
    law_search_finds_the_first(tag.attributes, src_key, value);
    law_attributes_are_written_unchanged(tag.content, Seq::empty(), Seq::empty(), Seq::empty());
    let http = seq![0x68u8, 0x74, 0x74, 0x70];
    if http.is_prefix_of(value) {
        assert(value[0] == http[0] && value[1] == http[1] && value[2] == http[2] && value[3]
            == http[3]) by {
            assert(value.subrange(0, 4) =~= http);
            assert(value.subrange(0, 4)[0] == value[0]);
            assert(value.subrange(0, 4)[1] == value[1]);
            assert(value.subrange(0, 4)[2] == value[2]);
            assert(value.subrange(0, 4)[3] == value[3]);
        }
        assert(begins_with_http(value));
    }
}

/// Whether attributes are well-formed and have different names.
pub open spec fn have_own_names(attributes: Seq<Option<(Seq<u8>, Seq<u8>)>>) -> bool {
    &&& forall|i: int| 0 <= i < attributes.len() ==> (#[trigger] attributes[i]) is Some
    &&& forall|i: int, j: int|
        0 <= i < j < attributes.len() ==> name_of(#[trigger] attributes[i]) != name_of(
            #[trigger] attributes[j],
        )
}

#[verifier::rlimit(5)]
proof fn lemma_own_names(attributes: Seq<Option<(Seq<u8>, Seq<u8>)>>)
    ensures
        are_sound(attributes) == have_own_names(attributes),
{
    if are_sound(attributes) {
        assert forall|i: int, j: int| 0 <= i < j < attributes.len() implies name_of(
            #[trigger] attributes[i],
        ) != name_of(#[trigger] attributes[j]) by {
            assert(key_of(attributes[i]) != key_of(attributes[j]));
        }
    }
    if have_own_names(attributes) {
        assert forall|i: int, j: int| 0 <= i < j < attributes.len() implies key_of(
            #[trigger] attributes[i],
        ) != key_of(#[trigger] attributes[j]) by {
            assert(name_of(attributes[i]) != name_of(attributes[j]));
        }
    }
}

#[verifier::rlimit(5)]
proof fn lemma_unreadable_width(tag: TagView, width: Seq<u8>)
    ensures
        ({
            let key = seq![0x77u8, 0x69, 0x64, 0x74, 0x68];
            &&& breaks_before(tag.attributes, key) ==> tag_width(tag) is None
            &&& has_first(tag.attributes, key, width) ==> (tag_width(tag) is None <==> width_of(
                width,
            ) is None)
            &&& are_others(tag.attributes, key) ==> tag_width(tag) is Some
        }),
{
    lemma_name_bytes();
    law_search_finds_the_first(tag.attributes, seq![0x77u8, 0x69, 0x64, 0x74, 0x68], width);
}

/// Whether a value of a tag gives that address: its `srcset` by the chosen candidate,
/// or, where no `srcset` can be read, its `src`, where that begins with the letters h,
/// t, t and p.
pub open spec fn gives_address(tag: TagView, value: Seq<u8>, text: Seq<char>) -> bool {
    let key = seq![0x73u8, 0x72, 0x63, 0x73, 0x65, 0x74];
    if has_first(tag.attributes, key, value) {
        &&& largest(srcset_candidates(lossy_text(value))) is Some
        &&& text == largest(srcset_candidates(lossy_text(value)))->0.url
    } else {
        &&& has_no_value(tag, key)
        &&& has_first(tag.attributes, seq![0x73u8, 0x72, 0x63], value)
        &&& begins_with_http(value)
        &&& text == lossy_text(value)
    }
}

#[verifier::rlimit(5)]
proof fn lemma_address_is_followed(
    page: PageView,
    images: Seq<ImageView>,
    page_name: Seq<char>,
    tag: TagView,
    value: Seq<u8>,
    text: Seq<char>,
)
    requires
        tag.name == seq![0x69u8, 0x6d, 0x67],
        gives_address(tag, value, text),
    ensures
        after_event(page, images, page_name, XmlEventView::Empty(tag)) == after_link(
            page,
            images,
            page_name,
            tag,
            text,
        ),
{
    lemma_name_bytes();
    let key = seq![0x73u8, 0x72, 0x63, 0x73, 0x65, 0x74];
    law_search_finds_the_first(tag.attributes, key, value);
    if has_first(tag.attributes, key, value) {
        assert(tag_link(tag) == Link::Candidate(text));
    } else {
        law_search_finds_the_first(tag.attributes, seq![0x73u8, 0x72, 0x63], value);
        let http = seq![0x68u8, 0x74, 0x74, 0x70];
        assert(http =~= value.subrange(0, http.len() as int));
        assert(value_of(tag, "src"@) == Some(value));
        assert(tag_link(tag) is Source);
    }
}

/// An image with an address stops its page exactly where something of it is wrong:
/// its width cannot be read, its address is none, no path leads from the page to its
/// place, or its attributes cannot be written anew. The last two matter only where
/// the address is new. A page that has stopped changes no more.
#[verifier::rlimit(5)]
pub proof fn law_faulty_image_stops_its_page(
    events: Seq<XmlEventView>,
    page_name: Seq<char>,
    images: Seq<ImageView>,
    tag: TagView,
    value: Seq<u8>,
    text: Seq<char>,
    width: Seq<u8>,
    later: XmlEventView,
)
    requires
        progress(events, page_name, images).error is None,
        tag.name == seq![0x69u8, 0x6d, 0x67],
        gives_address(tag, value, text),
    ensures
        ({
            let key = seq![0x77u8, 0x69, 0x64, 0x74, 0x68];
            let before = progress(events, page_name, images);
            let with_tag = events.push(XmlEventView::Empty(tag));
            let after = progress(with_tag, page_name, images);
            let bad_width = breaks_before(tag.attributes, key) || (has_first(
                tag.attributes,
                key,
                width,
            ) && width_of(width) is None);
            let good_width = are_others(tag.attributes, key) || (has_first(
                tag.attributes,
                key,
                width,
            ) && width_of(width) is Some);
            &&& bad_width ==> after.error == Some(TagError::Width)
            &&& good_width && url_of(text) is None ==> after.error == Some(TagError::Url)
            &&& good_width && url_of(text) is Some ==> {
                let url = url_of(text)->0;
                after.error == (if !is_unknown(before.images, url) {
                    None
                } else if reference(page_name, download_path(url)) is None {
                    Some(TagError::Location)
                } else if !have_own_names(tag.attributes) {
                    Some(TagError::Attributes)
                } else {
                    None
                })
            }
            &&& after.error is Some ==> after.page == before.page && after.images == before.images
                && progress(with_tag.push(later), page_name, images) == after
        }),
{
    let before = progress(events, page_name, images);
    let with_tag = events.push(XmlEventView::Empty(tag));
    lemma_progress_of_push(events, XmlEventView::Empty(tag), page_name, images);
    lemma_progress_of_push(with_tag, later, page_name, images);
    lemma_address_is_followed(before.page, before.images, page_name, tag, value, text);
    lemma_unreadable_width(tag, width);
    lemma_own_names(tag.attributes);
}

/// A page begins empty, and whatever is no self-closing tag is written behind what
/// is there, with its bytes unchanged.
#[verifier::rlimit(5)]
pub proof fn law_page_is_written_in_order(
    events: Seq<XmlEventView>,
    event: XmlEventView,
    page_name: Seq<char>,
    images: Seq<ImageView>,
)
    requires
        progress(events, page_name, images).error is None,
        !(event is Empty),
    ensures
        ({
            let start = progress(Seq::empty(), page_name, images);
            let before = progress(events, page_name, images);
            let after = progress(events.push(event), page_name, images);
            &&& start.page.markup.len() == 0
            &&& start.page.downloads.len() == 0
            &&& start.images == images
            &&& start.error is None
            &&& after.error is None
            &&& after.images == before.images
            &&& after.page.downloads == before.page.downloads
            &&& after.page.markup == before.page.markup + markup_of(event)
        }),
{
    lemma_progress_of_push(events, event, page_name, images);
}

/// Attributes are rewritten one by one: a `src` gets the new value, a `srcset` goes,
/// and any other stays.
#[verifier::rlimit(5)]
pub proof fn law_attributes_are_rewritten_one_by_one(
    attributes: Seq<(Seq<u8>, Seq<u8>)>,
    key: Seq<u8>,
    value: Seq<u8>,
    src: Seq<u8>,
)
    ensures
        with_src(Seq::empty(), src) == Seq::<(Seq<u8>, Seq<u8>)>::empty(),
        key == seq![0x73u8, 0x72, 0x63] ==> with_src(attributes.push((key, value)), src)
            == with_src(attributes, src).push((key, src)),
        key == seq![0x73u8, 0x72, 0x63, 0x73, 0x65, 0x74] ==> with_src(
            attributes.push((key, value)),
            src,
        ) == with_src(attributes, src),
        key != seq![0x73u8, 0x72, 0x63] && key != seq![0x73u8, 0x72, 0x63, 0x73, 0x65, 0x74]
            ==> with_src(attributes.push((key, value)), src) == with_src(attributes, src).push(
            (key, value),
        ),
{
    lemma_name_bytes();
    let all = attributes.push((key, value));
    assert(all.drop_last() =~= attributes);
    assert(seq![0x73u8, 0x72, 0x63].len() != seq![0x73u8, 0x72, 0x63, 0x73, 0x65, 0x74].len());
}

/// A tag is rewritten exactly where its attributes are well-formed and have different
/// names. Its element and the order of its attributes stay.
#[verifier::rlimit(5)]
pub proof fn law_sound_tags_are_rewritten(
    tag: TagView,
    plain: Seq<(Seq<u8>, Seq<u8>)>,
    src: Seq<u8>,
    left: int,
    right: int,
)
    ensures
        are_attributes(tag.attributes, plain) ==> rewritten(tag, src) == Some(
            tag.name + attributes_markup(with_src(plain, src)),
        ),
        0 <= left < tag.attributes.len() && tag.attributes[left] is None ==> rewritten(
            tag,
            src,
        ) is None,
        0 <= left < right < tag.attributes.len() && tag.attributes[left] is Some
            && tag.attributes[right] is Some && name_of(tag.attributes[left]) == name_of(
            tag.attributes[right],
        ) ==> rewritten(tag, src) is None,
{
    if are_attributes(tag.attributes, plain) {
        lemma_rewritten_from_plain(tag, plain, src);
    }
    if 0 <= left < right < tag.attributes.len() && are_sound(tag.attributes) {
        assert(key_of(tag.attributes[left]) != key_of(tag.attributes[right]));
    }
}

/// A picture is listed by its path in the book, as its name and as its place, and by
/// its media type, or as bytes of no known type. Pictures are listed one after the
/// other.
#[verifier::rlimit(5)]
pub proof fn law_pictures_are_listed_one_by_one(images: Seq<ImageView>, image: ImageView)
    ensures
        items_markup(Seq::empty()) == Seq::<u8>::empty(),
        ({
            let path = encode_utf8(download_path(image.url));
            let kind = match image.mimetype {
                Some(mimetype) => encode_utf8(mimetype),
                None => encode_utf8("application/octet-stream"@),
            };
            let start = seq![0x3du8, 0x22];
            items_markup(images.push(image)) == items_markup(images) + (seq![0x3cu8] + (
            encode_utf8("item"@) + (seq![0x20u8] + encode_utf8("id"@) + start + path + seq![0x22u8])
                + (seq![0x20u8] + encode_utf8("href"@) + start + path + seq![0x22u8]) + (seq![0x20u8]
                + encode_utf8("media-type"@) + start + kind + seq![0x22u8])) + seq![0x2fu8, 0x3e])
        }),
{
    let all = images.push(image);
    assert(all.drop_last() =~= images);
    let path = encode_utf8(download_path(image.url));
    let kind = encode_utf8(media_type(image));
    let content = item_content(download_path(image.url), media_type(image));
    law_attributes_are_written_unchanged(content, Seq::empty(), encode_utf8("id"@), path);
    law_attributes_are_written_unchanged(content, Seq::empty(), encode_utf8("href"@), path);
    law_attributes_are_written_unchanged(content, Seq::empty(), encode_utf8("media-type"@), kind);
}

/// A package file is taken over event by event, with its bytes unchanged. Behind the
/// start tag of a manifest, and nowhere else, the pictures are listed.
#[verifier::rlimit(5)]
pub proof fn law_package_is_written_in_order(
    events: Seq<XmlEventView>,
    event: XmlEventView,
    images: Seq<ImageView>,
)
    ensures
        package_markup(Seq::empty(), images) == Seq::<u8>::empty(),
        package_markup(events.push(event), images) == package_markup(events, images) + markup_of(
            event,
        ) + (if event is Start && event->Start_0.name == seq![
            0x6du8,
            0x61,
            0x6e,
            0x69,
            0x66,
            0x65,
            0x73,
            0x74,
        ] {
            items_markup(images)
        } else {
            Seq::empty()
        }),
{
    lemma_name_bytes();
    let all = events.push(event);
    assert(all.drop_last() =~= events);
    assert(package_markup(all, images) =~= package_markup(events, images) + markup_of(event) + (
    if event is Start && event->Start_0.name == seq![
        0x6du8,
        0x61,
        0x6e,
        0x69,
        0x66,
        0x65,
        0x73,
        0x74,
    ] {
        items_markup(images)
    } else {
        Seq::empty()
    }));
}

} // verus!
