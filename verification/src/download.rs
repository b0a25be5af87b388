//! Downloads through two caches: one that remembers under which key the file of
//! an address is kept, and one that keeps the files.

use crate::disk_cache::DiskCacheError;
use cache_control::CacheControl;
use reqwest::header::HeaderValue;
use vstd::prelude::*;

verus! {

#[verifier::external_type_specification]
#[verifier::external_body]
pub struct ExHttpError(reqwest::Error);

/// A downloaded file.
pub struct DownloadedFile {
    pub contents: Vec<u8>,
    /// Whether the file was in the cache.
    pub was_cached: bool,
}

/// The value of a [`DownloadedFile`].
pub struct DownloadedFileView {
    pub contents: Seq<u8>,
    pub was_cached: bool,
}

impl View for DownloadedFile {
    type V = DownloadedFileView;

    open spec fn view(&self) -> DownloadedFileView {
        DownloadedFileView { contents: self.contents@, was_cached: self.was_cached }
    }
}

/// Why a download failed.
#[derive(Debug)]
pub enum DownloadError {
    /// The request or the answer failed.
    Http(reqwest::Error),
    /// A cache failed.
    DiskCache(DiskCacheError),
    /// A header of the answer is not text.
    HeaderParse,
}

/// What is read of the head of an answer.
pub struct ResponseHead {
    /// The address that answered.
    pub url: String,
    pub etag: Option<Vec<u8>>,
    pub last_modified: Option<Vec<u8>>,
    pub cache_control: Option<Vec<u8>>,
}

/// The value of a [`ResponseHead`].
pub struct ResponseHeadView {
    pub url: Seq<char>,
    pub etag: Option<Seq<u8>>,
    pub last_modified: Option<Seq<u8>>,
    pub cache_control: Option<Seq<u8>>,
}

/// The bytes of a header that may be missing.
pub open spec fn bytes_view(bytes: Option<Vec<u8>>) -> Option<Seq<u8>> {
    match bytes {
        Some(bytes) => Some(bytes@),
        None => None,
    }
}

impl View for ResponseHead {
    type V = ResponseHeadView;

    open spec fn view(&self) -> ResponseHeadView {
        ResponseHeadView {
            url: self.url@,
            etag: bytes_view(self.etag),
            last_modified: bytes_view(self.last_modified),
            cache_control: bytes_view(self.cache_control),
        }
    }
}

/// Whether the bytes of a header are text: visible ASCII characters, blanks and
/// tabs.
pub open spec fn is_text(bytes: Seq<u8>) -> bool {
    forall|i: int| 0 <= i < bytes.len() ==> 32 <= #[trigger] bytes[i] < 127 || bytes[i] == 9
}

/// The text of a header.
pub open spec fn text_of(bytes: Seq<u8>) -> Seq<char> {
    bytes.map_values(|byte: u8| byte as char)
}

/// Calls `HeaderValue::to_str`.
#[verifier::external_body]
fn header_text(bytes: &[u8]) -> (text: Option<String>)
    ensures
        match text {
            Some(text) => is_text(bytes@) && text@ == text_of(bytes@),
            None => !is_text(bytes@),
        },
{
    HeaderValue::from_bytes(bytes)
        .ok()
        .and_then(|value| value.to_str().ok().map(|text| text.to_string()))
}

/// For how many seconds the value of a `Cache-Control` header lets an answer
/// be kept, `None` where it does not say or cannot be read.
pub uninterp spec fn max_age_of(value: Seq<char>) -> Option<u64>;

/// Calls `CacheControl::from_value` and picks the maximum age.
#[verifier::external_body]
fn parse_max_age(value: &str) -> (seconds: Option<u64>)
    ensures
        seconds == max_age_of(value@),
{
    CacheControl::from_value(value).and_then(|control| control.max_age).map(|age| age.as_secs())
}

/// The key under which a file is kept: the tag that the server gave it, or its
/// address with its date, or its address. `None` where the header that decides
/// is not text.
pub open spec fn cache_key(head: ResponseHeadView) -> Option<Seq<char>> {
    match (head.etag, head.last_modified) {
        (Some(etag), _) => if is_text(etag) {
            Some(text_of(etag))
        } else {
            None
        },
        (None, Some(date)) => if is_text(date) {
            Some("url:"@ + head.url + ",last_modified:"@ + text_of(date))
        } else {
            None
        },
        (None, None) => Some(head.url),
    }
}

/// Finds the key under which a file is kept.
pub fn cache_key_from_response(head: &ResponseHead) -> (key: Result<String, DownloadError>)
    ensures
        match key {
            Ok(key) => cache_key(head@) == Some(key@),
            Err(error) => error is HeaderParse && cache_key(head@) is None,
        },
{
    match &head.etag {
        Some(etag) => match header_text(etag) {
            Some(etag) => Ok(etag),
            None => Err(DownloadError::HeaderParse),
        },
        None => match &head.last_modified {
            Some(date) => match header_text(date) {
                Some(date) => {
                    let mut key: String = String::new();
                    key.append("url:");
                    key.append(head.url.as_str());
                    key.append(",last_modified:");
                    key.append(date.as_str());
                    assert(key@ =~= "url:"@ + head.url@ + ",last_modified:"@ + date@);
                    Ok(key)
                },
                None => Err(DownloadError::HeaderParse),
            },
            None => Ok(head.url.clone()),
        },
    }
}

/// Whether the directives for caches, where there are some, are text.
pub open spec fn has_readable_directives(head: ResponseHeadView) -> bool {
    match head.cache_control {
        Some(value) => is_text(value),
        None => true,
    }
}

/// For how many seconds the address of an answer stands for its key, `None`
/// where that is not to be remembered.
pub open spec fn max_age(head: ResponseHeadView) -> Option<u64> {
    match head.cache_control {
        Some(value) => max_age_of(text_of(value)),
        None => None,
    }
}

/// Tells whether the directives for caches can be read.
pub fn directives_are_readable(head: &ResponseHead) -> (readable: bool)
    ensures
        readable == has_readable_directives(head@),
{
    match &head.cache_control {
        Some(value) => header_text(value).is_some(),
        None => true,
    }
}

/// Finds for how long the address of an answer stands for its key.
pub fn head_max_age(head: &ResponseHead) -> (seconds: Option<u64>)
    requires
        has_readable_directives(head@),
    ensures
        seconds == max_age(head@),
{
    match &head.cache_control {
        Some(value) => match header_text(value) {
            Some(value) => parse_max_age(value.as_str()),
            None => None,
        },
        None => None,
    }
}

/// How long a file stays in its cache, in seconds. The file under a key does
/// not change.
pub const FILE_LIFETIME: u64 = 1000000000000;

/// How far a download has come, which is what has to be done next.
pub enum DownloadState {
    /// Look up the key of the address.
    ReadUrl { url: String },
    /// Look up the file under the key that is known of the address.
    ReadKnownFile { url: String, key: String },
    /// Ask for the address.
    Request { url: String },
    /// Remember the key of the address for some seconds.
    WriteUrl { url: String, key: String, max_age: u64 },
    /// Look up the file under the key that the answer gives. It may still be
    /// there, although the key of the address is no longer known.
    ReadFile { key: String },
    /// Take the file from the answer.
    ReadBody { key: String },
    /// Keep the file under its key.
    WriteFile { key: String, contents: Vec<u8> },
    /// Nothing more.
    Done(Result<DownloadedFile, DownloadError>),
}

/// The value of a [`DownloadState`].
pub enum DownloadStateView {
    ReadUrl { url: Seq<char> },
    ReadKnownFile { url: Seq<char>, key: Seq<char> },
    Request { url: Seq<char> },
    WriteUrl { url: Seq<char>, key: Seq<char>, max_age: u64 },
    ReadFile { key: Seq<char> },
    ReadBody { key: Seq<char> },
    WriteFile { key: Seq<char>, contents: Seq<u8> },
    Done(Result<DownloadedFileView, DownloadError>),
}

impl View for DownloadState {
    type V = DownloadStateView;

    open spec fn view(&self) -> DownloadStateView {
        match *self {
            DownloadState::ReadUrl { url } => DownloadStateView::ReadUrl { url: url@ },
            DownloadState::ReadKnownFile { url, key } => DownloadStateView::ReadKnownFile {
                url: url@,
                key: key@,
            },
            DownloadState::Request { url } => DownloadStateView::Request { url: url@ },
            DownloadState::WriteUrl { url, key, max_age } => DownloadStateView::WriteUrl {
                url: url@,
                key: key@,
                max_age: max_age,
            },
            DownloadState::ReadFile { key } => DownloadStateView::ReadFile { key: key@ },
            DownloadState::ReadBody { key } => DownloadStateView::ReadBody { key: key@ },
            DownloadState::WriteFile { key, contents } => DownloadStateView::WriteFile {
                key: key@,
                contents: contents@,
            },
            DownloadState::Done(Ok(file)) => DownloadStateView::Done(Ok(file@)),
            DownloadState::Done(Err(error)) => DownloadStateView::Done(Err(error)),
        }
    }
}

/// What came of the last thing that a download had to do.
pub enum DownloadEvent {
    /// What the cache of keys says.
    Url(Result<Option<String>, DiskCacheError>),
    /// What the cache of files says.
    File(Result<Option<Vec<u8>>, DiskCacheError>),
    /// The answer to a request. An answer with the status of an error is one.
    Response(Result<ResponseHead, reqwest::Error>),
    /// Whether a cache was written.
    Written(Result<(), DiskCacheError>),
    /// The file in the answer.
    Body(Result<Vec<u8>, reqwest::Error>),
}

/// The value of a [`DownloadEvent`].
pub enum DownloadEventView {
    Url(Result<Option<Seq<char>>, DiskCacheError>),
    File(Result<Option<Seq<u8>>, DiskCacheError>),
    Response(Result<ResponseHeadView, reqwest::Error>),
    Written(Result<(), DiskCacheError>),
    Body(Result<Seq<u8>, reqwest::Error>),
}

impl View for DownloadEvent {
    type V = DownloadEventView;

    open spec fn view(&self) -> DownloadEventView {
        match *self {
            DownloadEvent::Url(Ok(Some(key))) => DownloadEventView::Url(Ok(Some(key@))),
            DownloadEvent::Url(Ok(None)) => DownloadEventView::Url(Ok(None)),
            DownloadEvent::Url(Err(error)) => DownloadEventView::Url(Err(error)),
            DownloadEvent::File(Ok(Some(file))) => DownloadEventView::File(Ok(Some(file@))),
            DownloadEvent::File(Ok(None)) => DownloadEventView::File(Ok(None)),
            DownloadEvent::File(Err(error)) => DownloadEventView::File(Err(error)),
            DownloadEvent::Response(Ok(head)) => DownloadEventView::Response(Ok(head@)),
            DownloadEvent::Response(Err(error)) => DownloadEventView::Response(Err(error)),
            DownloadEvent::Written(result) => DownloadEventView::Written(result),
            DownloadEvent::Body(Ok(bytes)) => DownloadEventView::Body(Ok(bytes@)),
            DownloadEvent::Body(Err(error)) => DownloadEventView::Body(Err(error)),
        }
    }
}

/// Whether an event answers what a state asks for. The directives for caches in
/// the head of an answer must be readable where the answer gives a key.
pub open spec fn answers(state: DownloadStateView, event: DownloadEventView) -> bool {
    match state {
        DownloadStateView::ReadUrl { .. } => event is Url,
        DownloadStateView::ReadKnownFile { .. } => event is File,
        DownloadStateView::Request { .. } => match event {
            DownloadEventView::Response(Ok(head)) => cache_key(head) is Some
                ==> has_readable_directives(head),
            DownloadEventView::Response(Err(_)) => true,
            _ => false,
        },
        DownloadStateView::WriteUrl { .. } => event is Written,
        DownloadStateView::ReadFile { .. } => event is File,
        DownloadStateView::ReadBody { .. } => event is Body,
        DownloadStateView::WriteFile { .. } => event is Written,
        DownloadStateView::Done(_) => false,
    }
}

/// A download that ends with a file.
pub open spec fn delivered(contents: Seq<u8>, was_cached: bool) -> DownloadStateView {
    DownloadStateView::Done(
        Ok(DownloadedFileView { contents: contents, was_cached: was_cached }),
    )
}

/// How a download goes on once the head of the answer is there and says for how
/// long the address stands for its key.
pub open spec fn after_head(head: ResponseHeadView, max_age: Option<u64>) -> DownloadStateView {
    match (cache_key(head), max_age) {
        (None, _) => DownloadStateView::Done(Err(DownloadError::HeaderParse)),
        (Some(key), Some(max_age)) => DownloadStateView::WriteUrl {
            url: head.url,
            key: key,
            max_age: max_age,
        },
        (Some(key), None) => DownloadStateView::ReadFile { key: key },
    }
}

/// How a download goes on after an event that answers its state.
pub open spec fn next_state(
    state: DownloadStateView,
    event: DownloadEventView,
) -> DownloadStateView {
    match (state, event) {
        (_, DownloadEventView::Url(Err(error))) => DownloadStateView::Done(
            Err(DownloadError::DiskCache(error)),
        ),
        (_, DownloadEventView::File(Err(error))) => DownloadStateView::Done(
            Err(DownloadError::DiskCache(error)),
        ),
        (_, DownloadEventView::Written(Err(error))) => DownloadStateView::Done(
            Err(DownloadError::DiskCache(error)),
        ),
        (_, DownloadEventView::Response(Err(error))) => DownloadStateView::Done(
            Err(DownloadError::Http(error)),
        ),
        (_, DownloadEventView::Body(Err(error))) => DownloadStateView::Done(
            Err(DownloadError::Http(error)),
        ),
        (DownloadStateView::ReadUrl { url }, DownloadEventView::Url(Ok(Some(key)))) =>
            DownloadStateView::ReadKnownFile { url: url, key: key },
        (DownloadStateView::ReadUrl { url }, _) => DownloadStateView::Request { url: url },
        (_, DownloadEventView::File(Ok(Some(file)))) => delivered(file, true),
        (DownloadStateView::ReadKnownFile { url, .. }, _) => DownloadStateView::Request {
            url: url,
        },
        (_, DownloadEventView::Response(Ok(head))) => after_head(head, max_age(head)),
        (DownloadStateView::WriteUrl { key, .. }, _) => DownloadStateView::ReadFile { key: key },
        (DownloadStateView::ReadFile { key }, _) => DownloadStateView::ReadBody { key: key },
        (DownloadStateView::ReadBody { key }, DownloadEventView::Body(Ok(bytes))) =>
            DownloadStateView::WriteFile { key: key, contents: bytes },
        (DownloadStateView::WriteFile { contents, .. }, _) => delivered(contents, false),
        _ => state,
    }
}

/// Goes on with a download once the head of the answer is there and says for
/// how long the address stands for its key.
pub fn accept_head(head: ResponseHead, max_age: Option<u64>) -> (state: DownloadState)
    ensures
        state@ == after_head(head@, max_age),
{
    match cache_key_from_response(&head) {
        Ok(key) => match max_age {
            Some(max_age) => DownloadState::WriteUrl { url: head.url, key: key, max_age: max_age },
            None => DownloadState::ReadFile { key: key },
        },
        Err(error) => DownloadState::Done(Err(error)),
    }
}

/// Goes on with a download once the head of the answer is there: the key of the
/// file is remembered for its address, where the answer says for how long.
pub fn update_url_etag_cache(head: ResponseHead) -> (state: DownloadState)
    requires
        cache_key(head@) is Some ==> has_readable_directives(head@),
    ensures
        state@ == after_head(head@, max_age(head@)),
{
    if let Err(error) = cache_key_from_response(&head) {
        return DownloadState::Done(Err(error));
    }
    let max_age = head_max_age(&head);
    accept_head(head, max_age)
}

impl DownloadState {
    /// The beginning of a download.
    pub fn start(url: &str) -> (state: Self)
        ensures
            state@ == (DownloadStateView::ReadUrl { url: url@ }),
    {
        DownloadState::ReadUrl { url: url.to_owned() }
    }

    /// Goes on with a download after an event.
    pub fn step(self, event: DownloadEvent) -> (next: Self)
        requires
            answers(self@, event@),
        ensures
            next@ == next_state(self@, event@),
    {
        match (self, event) {
            (_, DownloadEvent::Url(Err(error))) => DownloadState::Done(
                Err(DownloadError::DiskCache(error)),
            ),
            (_, DownloadEvent::File(Err(error))) => DownloadState::Done(
                Err(DownloadError::DiskCache(error)),
            ),
            (_, DownloadEvent::Written(Err(error))) => DownloadState::Done(
                Err(DownloadError::DiskCache(error)),
            ),
            (_, DownloadEvent::Response(Err(error))) => DownloadState::Done(
                Err(DownloadError::Http(error)),
            ),
            (_, DownloadEvent::Body(Err(error))) => DownloadState::Done(
                Err(DownloadError::Http(error)),
            ),
            (DownloadState::ReadUrl { url }, DownloadEvent::Url(Ok(Some(key)))) =>
                DownloadState::ReadKnownFile { url: url, key: key },
            (DownloadState::ReadUrl { url }, _) => DownloadState::Request { url: url },
            (_, DownloadEvent::File(Ok(Some(file)))) => DownloadState::Done(
                Ok(DownloadedFile { contents: file, was_cached: true }),
            ),
            (DownloadState::ReadKnownFile { url, .. }, _) => DownloadState::Request { url: url },
            (_, DownloadEvent::Response(Ok(head))) => update_url_etag_cache(head),
            (DownloadState::WriteUrl { key, .. }, _) => DownloadState::ReadFile { key: key },
            (DownloadState::ReadFile { key }, _) => DownloadState::ReadBody { key: key },
            (DownloadState::ReadBody { key }, DownloadEvent::Body(Ok(bytes))) =>
                DownloadState::WriteFile { key: key, contents: bytes },
            (DownloadState::WriteFile { contents, .. }, _) => DownloadState::Done(
                Ok(DownloadedFile { contents: contents, was_cached: false }),
            ),
            (state, _) => state,
        }
    }
}

/// The rows of both caches that still count.
pub struct Caches {
    pub keys: Map<Seq<char>, Seq<char>>,
    pub files: Map<Seq<char>, Seq<u8>>,
}

/// What a server answers to a request.
pub struct Answer {
    pub head: ResponseHeadView,
    pub body: Seq<u8>,
}

/// What comes of the thing that a download has to do, where neither the caches
/// nor the server fail.
pub open spec fn reply(
    state: DownloadStateView,
    caches: Caches,
    answer: Answer,
) -> DownloadEventView {
    match state {
        DownloadStateView::ReadUrl { url } => DownloadEventView::Url(
            Ok(
                if caches.keys.contains_key(url) {
                    Some(caches.keys[url])
                } else {
                    None
                },
            ),
        ),
        DownloadStateView::ReadKnownFile { key, .. } => DownloadEventView::File(
            Ok(file_under(caches, key)),
        ),
        DownloadStateView::Request { .. } => DownloadEventView::Response(Ok(answer.head)),
        DownloadStateView::ReadFile { key } => DownloadEventView::File(Ok(file_under(caches, key))),
        DownloadStateView::ReadBody { .. } => DownloadEventView::Body(Ok(answer.body)),
        _ => DownloadEventView::Written(Ok(())),
    }
}

/// The file under a key.
pub open spec fn file_under(caches: Caches, key: Seq<char>) -> Option<Seq<u8>> {
    if caches.files.contains_key(key) {
        Some(caches.files[key])
    } else {
        None
    }
}

/// The caches after the thing that a download has to do has been done.
pub open spec fn caches_after(state: DownloadStateView, caches: Caches) -> Caches {
    match state {
        DownloadStateView::WriteUrl { url, key, .. } => Caches {
            keys: caches.keys.insert(url, key),
            ..caches
        },
        DownloadStateView::WriteFile { key, contents } => Caches {
            files: caches.files.insert(key, contents),
            ..caches
        },
        _ => caches,
    }
}

/// A download and the caches after some steps, where neither the caches nor the
/// server fail.
pub open spec fn after_steps(
    state: DownloadStateView,
    caches: Caches,
    answer: Answer,
    steps: nat,
) -> (DownloadStateView, Caches)
    decreases steps,
{
    if steps == 0 || state is Done {
        (state, caches)
    } else {
        after_steps(
            next_state(state, reply(state, caches, answer)),
            caches_after(state, caches),
            answer,
            (steps - 1) as nat,
        )
    }
}

/// The end of a download from its beginning, and the caches then.
pub open spec fn download(url: Seq<char>, caches: Caches, answer: Answer) -> (
    DownloadStateView,
    Caches,
) {
    let start = DownloadStateView::ReadUrl { url: url };
    after_steps(start, caches, answer, steps_left(start))
}

/// Where neither the caches nor the server fail, and the answer has a key, a
/// download ends with a file: the one under the key that is known of the
/// address, else the one under the key of the answer, else the one in the
/// answer. Only the last is no file of the cache, and it is one from then on.
pub proof fn law_download_delivers(url: Seq<char>, caches: Caches, answer: Answer)
    requires
        cache_key(answer.head) is Some,
    ensures
        ({
            let (end, after) = download(url, caches, answer);
            let key = cache_key(answer.head)->0;
            if caches.keys.contains_key(url) && caches.files.contains_key(caches.keys[url]) {
                end == delivered(caches.files[caches.keys[url]], true) && after == caches
            } else if caches.files.contains_key(key) {
                end == delivered(caches.files[key], true) && after.files == caches.files
            } else {
                end == delivered(answer.body, false) && after.files == caches.files.insert(
                    key,
                    answer.body,
                )
            }
        }),
{
    reveal_with_fuel(after_steps, 8);
}

/// A download that follows another one of the same address is answered from the
/// cache, with the same file, as long as the rows count and the server's answer
/// stays the same.
pub proof fn law_second_download_is_cached(url: Seq<char>, caches: Caches, answer: Answer)
    requires
        cache_key(answer.head) is Some,
    ensures
        ({
            let (first, between) = download(url, caches, answer);
            let (second, _) = download(url, between, answer);
            first matches DownloadStateView::Done(Ok(file)) && second == delivered(
                file.contents,
                true,
            )
        }),
{
    reveal_with_fuel(after_steps, 8);
}

/// Where an address is remembered together with its file, a download of it asks
/// no server: whatever a server would answer, the download ends the same way.
pub proof fn law_known_file_needs_no_request(
    url: Seq<char>,
    caches: Caches,
    answer: Answer,
    other: Answer,
)
    requires
        caches.keys.contains_key(url),
        caches.files.contains_key(caches.keys[url]),
    ensures
        download(url, caches, answer) == download(url, caches, other),
{
    reveal_with_fuel(after_steps, 8);
}

/// Whatever comes of what it has to do, a download never asks for anything
/// twice: each step takes it nearer to its end.
pub proof fn law_downloads_come_to_an_end(state: DownloadStateView, event: DownloadEventView)
    requires
        answers(state, event),
    ensures
        steps_left(next_state(state, event)) < steps_left(state),
{
}

/// The most steps that a download still takes.
pub open spec fn steps_left(state: DownloadStateView) -> nat {
    match state {
        DownloadStateView::ReadUrl { .. } => 7,
        DownloadStateView::ReadKnownFile { .. } => 6,
        DownloadStateView::Request { .. } => 5,
        DownloadStateView::WriteUrl { .. } => 4,
        DownloadStateView::ReadFile { .. } => 3,
        DownloadStateView::ReadBody { .. } => 2,
        DownloadStateView::WriteFile { .. } => 1,
        DownloadStateView::Done(_) => 0,
    }
}

/// Whether characters are those of the bytes of a header, one for each.
pub open spec fn are_chars_of(chars: Seq<char>, bytes: Seq<u8>) -> bool {
    &&& chars.len() == bytes.len()
    &&& forall|i: int| 0 <= i < bytes.len() ==> (#[trigger] chars[i]) as int == bytes[i] as int
}

/// Whether every byte of a header is a visible ASCII character, a blank or a tab.
pub open spec fn are_visible(bytes: Seq<u8>) -> bool {
    forall|i: int| 0 <= i < bytes.len() ==> (0x20 <= #[trigger] bytes[i] <= 0x7e || bytes[i] == 9)
}

#[verifier::rlimit(3)]
proof fn lemma_chars_of(bytes: Seq<u8>)
    ensures
        are_chars_of(text_of(bytes), bytes),
        is_text(bytes) == are_visible(bytes),
        forall|chars: Seq<char>| #[trigger]
            are_chars_of(chars, bytes) ==> chars == text_of(bytes),
{
    if is_text(bytes) {
        assert(are_visible(bytes));
    }
    if are_visible(bytes) {
        assert(is_text(bytes));
    }
    assert forall|chars: Seq<char>| #[trigger] are_chars_of(chars, bytes) implies chars
        == text_of(bytes) by {
        assert(chars =~= text_of(bytes));
    }
}

/// With a tag of the server the key of a file is the whole tag, character by
/// character, whatever else the answer says. A tag that is no text gives no key.
#[verifier::rlimit(3)]
pub proof fn law_key_is_the_whole_tag(head: ResponseHeadView)
    requires
        head.etag is Some,
    ensures
        are_visible(head.etag->0) ==> (cache_key(head) matches Some(key) && are_chars_of(
            key,
            head.etag->0,
        )),
        !are_visible(head.etag->0) ==> cache_key(head) is None,
{
    lemma_chars_of(head.etag->0);
}

/// Files with different tags have different keys, so none is taken for another.
#[verifier::rlimit(3)]
pub proof fn law_tags_tell_files_apart(left: ResponseHeadView, right: ResponseHeadView)
    requires
        left.etag is Some,
        right.etag is Some,
        left.etag->0 != right.etag->0,
        are_visible(left.etag->0),
        are_visible(right.etag->0),
    ensures
        cache_key(left) is Some,
        cache_key(right) is Some,
        cache_key(left) != cache_key(right),
{
    law_key_is_the_whole_tag(left);
    law_key_is_the_whole_tag(right);
    if cache_key(left) == cache_key(right) {
        let key = cache_key(left)->0;
        let bytes = left.etag->0;
        let others = right.etag->0;
        assert forall|i: int| 0 <= i < bytes.len() implies bytes[i] == others[i] by {
            assert(key[i] as int == bytes[i] as int);
            assert(key[i] as int == others[i] as int);
        }
        assert(bytes =~= others);
    }
}

/// Without a tag the key of a file is its address with its date, where the answer
/// gives a date, and its address alone where it does not. A date that is no text
/// gives no key.
#[verifier::rlimit(3)]
pub proof fn law_key_without_a_tag(head: ResponseHeadView, date: Seq<char>)
    requires
        head.etag is None,
        head.last_modified matches Some(bytes) ==> are_chars_of(date, bytes),
    ensures
        head.last_modified is None ==> cache_key(head) == Some(head.url),
        head.last_modified matches Some(bytes) ==> (if are_visible(bytes) {
            cache_key(head) == Some(
                seq!['u', 'r', 'l', ':'] + head.url + seq![
                    ',',
                    'l',
                    'a',
                    's',
                    't',
                    '_',
                    'm',
                    'o',
                    'd',
                    'i',
                    'f',
                    'i',
                    'e',
                    'd',
                    ':',
                ] + date,
            )
        } else {
            cache_key(head) is None
        }),
{
    reveal_strlit("url:");
    reveal_strlit(",last_modified:");
    assert("url:"@ =~= seq!['u', 'r', 'l', ':']);
    assert(",last_modified:"@ =~= seq![
        ',',
        'l',
        'a',
        's',
        't',
        '_',
        'm',
        'o',
        'd',
        'i',
        'f',
        'i',
        'e',
        'd',
        ':',
    ]);
    if let Some(bytes) = head.last_modified {
        lemma_chars_of(bytes);
    }
}

/// An answer that gives a key is remembered for its own address, for as many
/// seconds as its directives say. Where they say nothing, or there are none, nothing
/// is remembered, and the file is looked up at once. An answer without a key ends
/// the download.
#[verifier::rlimit(3)]
pub proof fn law_answers_are_remembered_as_they_say(
    url: Seq<char>,
    head: ResponseHeadView,
    directives: Seq<char>,
)
    requires
        head.cache_control matches Some(bytes) ==> are_chars_of(directives, bytes),
    ensures
        ({
            let next = next_state(
                DownloadStateView::Request { url: url },
                DownloadEventView::Response(Ok(head)),
            );
            match cache_key(head) {
                None => next == DownloadStateView::Done(Err(DownloadError::HeaderParse)),
                Some(key) => if head.cache_control is Some && max_age_of(directives) is Some {
                    next == (DownloadStateView::WriteUrl {
                        url: head.url,
                        key: key,
                        max_age: max_age_of(directives)->0,
                    })
                } else {
                    next == (DownloadStateView::ReadFile { key: key })
                },
            }
        }),
        has_readable_directives(head) == (head.cache_control matches Some(bytes) ==> are_visible(
            bytes,
        )),
{
    if let Some(bytes) = head.cache_control {
        lemma_chars_of(bytes);
    }
}

/// Whatever fails ends the download, with that very error.
#[verifier::rlimit(3)]
pub proof fn law_failures_end_a_download(state: DownloadStateView, event: DownloadEventView)
    requires
        answers(state, event),
    ensures
        ({
            let next = next_state(state, event);
            &&& event matches DownloadEventView::Url(Err(error)) ==> next
                == DownloadStateView::Done(Err(DownloadError::DiskCache(error)))
            &&& event matches DownloadEventView::File(Err(error)) ==> next
                == DownloadStateView::Done(Err(DownloadError::DiskCache(error)))
            &&& event matches DownloadEventView::Written(Err(error)) ==> next
                == DownloadStateView::Done(Err(DownloadError::DiskCache(error)))
            &&& event matches DownloadEventView::Response(Err(error)) ==> next
                == DownloadStateView::Done(Err(DownloadError::Http(error)))
            &&& event matches DownloadEventView::Body(Err(error)) ==> next
                == DownloadStateView::Done(Err(DownloadError::Http(error)))
        }),
{
}

/// A download delivers nothing but a file that the cache gave, as one of the cache,
/// or the file that it has just kept, as one that was not there.
#[verifier::rlimit(3)]
pub proof fn law_nothing_else_is_delivered(
    state: DownloadStateView,
    event: DownloadEventView,
    file: DownloadedFileView,
)
    requires
        answers(state, event),
        next_state(state, event) == DownloadStateView::Done(Ok(file)),
    ensures
        if file.was_cached {
            event == DownloadEventView::File(Ok(Some(file.contents)))
        } else {
            (state matches DownloadStateView::WriteFile { contents, .. } && contents
                == file.contents) && (event matches DownloadEventView::Written(Ok(_)))
        },
{
}

/// What a download that goes well leaves in the cache of keys: the key of the answer
/// for the address that answered, where a server was asked and its directives say
/// for how long, and nothing new otherwise.
#[verifier::rlimit(5)]
pub proof fn law_download_remembers_the_address(
    url: Seq<char>,
    caches: Caches,
    answer: Answer,
    directives: Seq<char>,
)
    requires
        cache_key(answer.head) is Some,
        answer.head.cache_control matches Some(bytes) ==> are_chars_of(directives, bytes),
    ensures
        ({
            let after = download(url, caches, answer).1;
            let known = caches.keys.contains_key(url) && caches.files.contains_key(
                caches.keys[url],
            );
            after.keys == if !known && answer.head.cache_control is Some && max_age_of(
                directives,
            ) is Some {
                caches.keys.insert(answer.head.url, cache_key(answer.head)->0)
            } else {
                caches.keys
            }
        }),
{
    reveal_with_fuel(after_steps, 8);
    if let Some(bytes) = answer.head.cache_control {
        lemma_chars_of(bytes);
    }
}

/// A download asks the server for its own address, looks up and keeps its file under
/// the key that it has learnt, and keeps the file as it came.
#[verifier::rlimit(3)]
pub proof fn law_steps_hand_on_what_they_know(
    url: Seq<char>,
    key: Seq<char>,
    max_age: u64,
    contents: Seq<u8>,
)
    ensures
        next_state(
            DownloadStateView::ReadUrl { url: url },
            DownloadEventView::Url(Ok(Some(key))),
        ) == (DownloadStateView::ReadKnownFile { url: url, key: key }),
        next_state(DownloadStateView::ReadUrl { url: url }, DownloadEventView::Url(Ok(None))) == (
        DownloadStateView::Request { url: url }),
        next_state(
            DownloadStateView::ReadKnownFile { url: url, key: key },
            DownloadEventView::File(Ok(None)),
        ) == (DownloadStateView::Request { url: url }),
        next_state(
            DownloadStateView::WriteUrl { url: url, key: key, max_age: max_age },
            DownloadEventView::Written(Ok(())),
        ) == (DownloadStateView::ReadFile { key: key }),
        next_state(DownloadStateView::ReadFile { key: key }, DownloadEventView::File(Ok(None)))
            == (DownloadStateView::ReadBody { key: key }),
        next_state(DownloadStateView::ReadBody { key: key }, DownloadEventView::Body(Ok(contents)))
            == (DownloadStateView::WriteFile { key: key, contents: contents }),
{
}

/// A download takes every reply of its caches and of the network, failures included.
/// Of an answer it asks only that what it says to caches, if anything, is text. A
/// download that has ended takes nothing more.
#[verifier::rlimit(5)]
pub proof fn law_every_reply_is_taken(
    url: Seq<char>,
    key: Seq<char>,
    max_age: u64,
    contents: Seq<u8>,
    known: Result<Option<Seq<char>>, DiskCacheError>,
    file: Result<Option<Seq<u8>>, DiskCacheError>,
    response: Result<ResponseHeadView, reqwest::Error>,
    written: Result<(), DiskCacheError>,
    body: Result<Seq<u8>, reqwest::Error>,
    result: Result<DownloadedFileView, DownloadError>,
    event: DownloadEventView,
)
    ensures
        answers(DownloadStateView::ReadUrl { url: url }, DownloadEventView::Url(known)),
        answers(
            DownloadStateView::ReadKnownFile { url: url, key: key },
            DownloadEventView::File(file),
        ),
        match response {
            Ok(head) => match head.cache_control {
                Some(value) => are_visible(value),
                None => true,
            },
            Err(_) => true,
        } ==> answers(
            DownloadStateView::Request { url: url },
            DownloadEventView::Response(response),
        ),
        answers(
            DownloadStateView::WriteUrl { url: url, key: key, max_age: max_age },
            DownloadEventView::Written(written),
        ),
        answers(DownloadStateView::ReadFile { key: key }, DownloadEventView::File(file)),
        answers(DownloadStateView::ReadBody { key: key }, DownloadEventView::Body(body)),
        answers(
            DownloadStateView::WriteFile { key: key, contents: contents },
            DownloadEventView::Written(written),
        ),
        !answers(DownloadStateView::Done(result), event),
{
    if let Ok(head) = response {
        if let Some(value) = head.cache_control {
            lemma_chars_of(value);
        }
    }
}

} // verus!
