//! The pictures that the pages of a book refer to.

use vstd::prelude::*;

verus! {

/// What is known of a picture.
pub struct ImageInfo {
    /// The media type of the downloaded file, once it is there and known.
    pub mimetype: Option<String>,
    /// The width that the page asks for, in pixels.
    pub displayed_width: Option<u32>,
}

/// A picture, found by its address.
pub struct Image {
    pub url: String,
    pub info: ImageInfo,
}

/// The value of an [`Image`].
pub struct ImageView {
    pub url: Seq<char>,
    pub mimetype: Option<Seq<char>>,
    pub displayed_width: Option<u32>,
}

/// The characters of a text that may be missing.
pub open spec fn text_view(text: Option<String>) -> Option<Seq<char>> {
    match text {
        Some(text) => Some(text@),
        None => None,
    }
}

impl View for Image {
    type V = ImageView;

    open spec fn view(&self) -> ImageView {
        ImageView {
            url: self.url@,
            mimetype: text_view(self.info.mimetype),
            displayed_width: self.info.displayed_width,
        }
    }
}

/// The addresses of pictures.
pub open spec fn urls(images: Seq<ImageView>) -> Seq<Seq<char>> {
    images.map_values(|image: ImageView| image.url)
}

/// Whether there is a picture of that address.
pub open spec fn has_url(images: Seq<ImageView>, url: Seq<char>) -> bool {
    exists|i: int| 0 <= i < images.len() && (#[trigger] images[i]).url == url
}

/// Where the picture of that address stands.
pub open spec fn url_at(images: Seq<ImageView>, url: Seq<char>) -> int {
    choose|i: int| 0 <= i < images.len() && (#[trigger] images[i]).url == url
}

/// Pictures after one has been entered: it takes the place of the one with the
/// same address, or comes last.
pub open spec fn inserted(images: Seq<ImageView>, image: ImageView) -> Seq<ImageView> {
    if has_url(images, image.url) {
        images.update(url_at(images, image.url), image)
    } else {
        images.push(image)
    }
}

/// Pictures after the media type of one of them has become known.
pub open spec fn typed(
    images: Seq<ImageView>,
    url: Seq<char>,
    mimetype: Option<Seq<char>>,
) -> Seq<ImageView> {
    let at = url_at(images, url);
    images.update(at, ImageView { mimetype: mimetype, ..images[at] })
}

/// Whether no address stands for two pictures.
pub open spec fn are_distinct(images: Seq<ImageView>) -> bool {
    forall|i: int, j: int|
        0 <= i < j < images.len() ==> (#[trigger] images[i]).url != (#[trigger] images[j]).url
}

/// The pictures of a book, each address once, in the order in which the
/// addresses turned up.
pub struct ImageTable {
    images: Vec<Image>,
}

impl View for ImageTable {
    type V = Seq<ImageView>;

    closed spec fn view(&self) -> Seq<ImageView> {
        self.images@.map_values(|image: Image| image@)
    }
}

impl ImageTable {
    /// No address stands for two pictures.
    pub open spec fn wf(&self) -> bool {
        are_distinct(self@)
    }

    /// A table without pictures.
    pub fn new() -> (table: Self)
        ensures
            table.wf(),
            table@ == Seq::<ImageView>::empty(),
    {
        let table = ImageTable { images: Vec::new() };
        assert(table@ =~= Seq::<ImageView>::empty());
        table
    }

    /// The number of pictures.
    pub fn len(&self) -> (count: usize)
        ensures
            count == self@.len(),
    {
        self.images.len()
    }

    /// The picture at a place in the table.
    pub fn image(&self, at: usize) -> (image: &Image)
        requires
            at < self@.len(),
        ensures
            image@ == self@[at as int],
    {
        &self.images[at]
    }

    /// Where the picture of an address stands.
    fn position(&self, url: &str) -> (found: Option<usize>)
        requires
            self.wf(),
        ensures
            match found {
                Some(at) => at < self@.len() && self@[at as int].url == url@ && has_url(self@, url@)
                    && at == url_at(self@, url@),
                None => !has_url(self@, url@),
            },
    {
        let mut at: usize = 0;
        let wanted = url.to_owned();
        while at < self.images.len()
            invariant
                self.wf(),
                wanted@ == url@,
                at <= self.images.len(),
                forall|i: int| 0 <= i < at ==> (#[trigger] self@[i]).url != url@,
            decreases self.images.len() - at,
        {
            assert(self@[at as int] == self.images@[at as int]@);
            if self.images[at].url == wanted {
                proof {
                    let chosen = url_at(self@, url@);
                    assert(0 <= chosen < self@.len() && self@[chosen].url == url@);
                    assert(chosen == at);
                }
                return Some(at);
            }
            at += 1;
        }
        None
    }

    /// Whether there is a picture of that address.
    pub fn contains(&self, url: &str) -> (found: bool)
        requires
            self.wf(),
        ensures
            found == has_url(self@, url@),
    {
        self.position(url).is_some()
    }

    /// Enters a picture of which the type is not known yet. Tells whether its
    /// address is new.
    pub fn insert(&mut self, url: &str, displayed_width: Option<u32>) -> (is_new: bool)
        requires
            old(self).wf(),
        ensures
            final(self).wf(),
            is_new == !has_url(old(self)@, url@),
            final(self)@ == inserted(
                old(self)@,
                (ImageView { url: url@, mimetype: None, displayed_width: displayed_width }),
            ),
    {
        let image = Image {
            url: url.to_owned(),
            info: ImageInfo { mimetype: None, displayed_width: displayed_width },
        };
        let ghost before = self@;
        match self.position(url) {
            Some(at) => {
                self.images.set(at, image);
                assert(self@ =~= before.update(at as int, image@));
                false
            },
            None => {
                self.images.push(image);
                assert(self@ =~= before.push(image@));
                assert(forall|i: int| 0 <= i < before.len() ==> (#[trigger] before[i]).url != url@);
                true
            },
        }
    }

    /// Records the media type of a downloaded picture. Gives back the width
    /// that the page asks for.
    pub fn set_mimetype(&mut self, url: &str, mimetype: Option<String>) -> (width: Option<u32>)
        requires
            old(self).wf(),
            has_url(old(self)@, url@),
        ensures
            final(self).wf(),
            final(self)@ == typed(old(self)@, url@, text_view(mimetype)),
            width == old(self)@[url_at(old(self)@, url@)].displayed_width,
    {
        let ghost before = self@;
        match self.position(url) {
            Some(at) => {
                let width = self.images[at].info.displayed_width;
                let image = Image {
                    url: url.to_owned(),
                    info: ImageInfo { mimetype: mimetype, displayed_width: width },
                };
                assert(before[at as int] == self.images@[at as int]@);
                self.images.set(at, image);
                assert(self@ =~= typed(before, url@, text_view(mimetype)));
                width
            },
            None => None,
        }
    }
}

/// What the table says of an address is what was last entered for it.
pub proof fn law_last_entry_counts(images: Seq<ImageView>, image: ImageView)
    requires
        are_distinct(images),
    ensures
        are_distinct(inserted(images, image)),
        has_url(inserted(images, image), image.url),
        inserted(images, image)[url_at(inserted(images, image), image.url)] == image,
{
    let after = inserted(images, image);
    let at = if has_url(images, image.url) {
        url_at(images, image.url)
    } else {
        images.len() as int
    };
    assert(after[at] == image);
    let chosen = url_at(after, image.url);
    assert(0 <= chosen < after.len() && after[chosen].url == image.url);
    assert(are_distinct(after));
    assert(chosen == at);
}

/// Entering a picture leaves what is known of every other address alone.
pub proof fn law_other_entries_stay(images: Seq<ImageView>, image: ImageView, at: int)
    requires
        are_distinct(images),
        0 <= at < images.len(),
        images[at].url != image.url,
    ensures
        inserted(images, image)[at] == images[at],
        inserted(images, image).len() <= images.len() + 1,
{
}

/// An address that was not there comes last, and the others keep their places. One
/// that was there keeps its place.
pub proof fn law_addresses_keep_their_places(images: Seq<ImageView>, image: ImageView, at: int)
    requires
        are_distinct(images),
        0 <= at < images.len(),
    ensures
        inserted(images, image)[at].url == images[at].url,
        (forall|i: int| 0 <= i < images.len() ==> (#[trigger] images[i]).url != image.url)
            ==> inserted(images, image).len() == images.len() + 1 && inserted(
            images,
            image,
        )[images.len() as int] == image && inserted(images, image)[at] == images[at],
        images[at].url == image.url ==> inserted(images, image).len() == images.len() && inserted(
            images,
            image,
        )[at] == image,
{
    if has_url(images, image.url) {
        let chosen = url_at(images, image.url);
        assert(0 <= chosen < images.len() && images[chosen].url == image.url);
    }
}

/// The media type of a picture becomes known at its place, and nothing else changes.
pub proof fn law_only_the_type_becomes_known(
    images: Seq<ImageView>,
    url: Seq<char>,
    mimetype: Option<Seq<char>>,
    at: int,
)
    requires
        are_distinct(images),
        0 <= at < images.len(),
        has_url(images, url),
    ensures
        ({
            let after = typed(images, url, mimetype);
            &&& after.len() == images.len()
            &&& after[at].url == images[at].url
            &&& after[at].displayed_width == images[at].displayed_width
            &&& images[at].url == url ==> after[at].mimetype == mimetype
            &&& images[at].url != url ==> after[at].mimetype == images[at].mimetype
        }),
{
    let chosen = url_at(images, url);
    assert(0 <= chosen < images.len() && images[chosen].url == url);
}

} // verus!
