use epub_image_embedder::disk_cache::DiskCacheError;
use epub_image_embedder::download::{
    accept_head, cache_key_from_response, directives_are_readable, head_max_age,
    update_url_etag_cache, DownloadError, DownloadEvent, DownloadState, ResponseHead,
    FILE_LIFETIME,
};
use epub_image_embedder::downloader::{DownloadCounters, DownloadManagerStats};
use std::collections::HashMap;
use std::time::Instant;

fn head(
    etag: Option<&[u8]>,
    last_modified: Option<&[u8]>,
    cache_control: Option<&[u8]>,
) -> ResponseHead {
    ResponseHead {
        url: "http://a.example/x.png".to_string(),
        etag: etag.map(|bytes| bytes.to_vec()),
        last_modified: last_modified.map(|bytes| bytes.to_vec()),
        cache_control: cache_control.map(|bytes| bytes.to_vec()),
    }
}

fn cache_error() -> DiskCacheError {
    DiskCacheError::Io(std::io::Error::from(std::io::ErrorKind::Other))
}

fn http_error() -> reqwest::Error {
    reqwest::Client::new().get("no address").build().unwrap_err()
}

/// Both caches and a server, none of which fails.
struct World {
    keys: HashMap<String, String>,
    files: HashMap<String, Vec<u8>>,
    requests: usize,
    counters: DownloadCounters,
}

impl World {
    fn new() -> World {
        World {
            keys: HashMap::new(),
            files: HashMap::new(),
            requests: 0,
            counters: DownloadCounters::new(),
        }
    }

    fn download(&mut self, cache_control: Option<&[u8]>) -> (Vec<u8>, bool) {
        let mut state = DownloadState::start("http://a.example/x.png");
        for _ in 0..8 {
            let event = match &state {
                DownloadState::ReadUrl { url } => DownloadEvent::Url(Ok(self.keys.get(url).cloned())),
                DownloadState::ReadKnownFile { key, .. } | DownloadState::ReadFile { key } => {
                    DownloadEvent::File(Ok(self.files.get(key).cloned()))
                }
                DownloadState::Request { .. } => {
                    self.requests += 1;
                    DownloadEvent::Response(Ok(head(Some(b"tag"), None, cache_control)))
                }
                DownloadState::WriteUrl { url, key, .. } => {
                    self.keys.insert(url.clone(), key.clone());
                    DownloadEvent::Written(Ok(()))
                }
                DownloadState::ReadBody { .. } => DownloadEvent::Body(Ok(vec![1, 2, 3])),
                DownloadState::WriteFile { key, contents } => {
                    self.files.insert(key.clone(), contents.clone());
                    DownloadEvent::Written(Ok(()))
                }
                DownloadState::Done(_) => break,
            };
            self.counters.record(&state, &event);
            state = state.step(event);
        }
        match state {
            DownloadState::Done(Ok(file)) => (file.contents, file.was_cached),
            _ => panic!("no file"),
        }
    }
}

#[test]
fn tag_of_the_server_is_the_key() {
    let head = head(Some(b"\"abc\""), Some(b"Mon"), None);
    assert_eq!(cache_key_from_response(&head).unwrap(), "\"abc\"");
}

#[test]
fn address_and_date_are_the_key_without_a_tag() {
    let head = head(None, Some(b"Mon, 01 Jan 2024"), None);
    assert_eq!(
        cache_key_from_response(&head).unwrap(),
        "url:http://a.example/x.png,last_modified:Mon, 01 Jan 2024"
    );
}

#[test]
fn address_is_the_key_without_a_date() {
    assert_eq!(cache_key_from_response(&head(None, None, None)).unwrap(), "http://a.example/x.png");
}

#[test]
fn header_that_is_no_text_gives_no_key() {
    let outcome = cache_key_from_response(&head(Some(&[0xe9]), None, None));
    assert!(matches!(outcome, Err(DownloadError::HeaderParse)));
    let outcome = cache_key_from_response(&head(None, Some(&[0x7f]), None));
    assert!(matches!(outcome, Err(DownloadError::HeaderParse)));
    assert_eq!(cache_key_from_response(&head(Some(b"a\tb"), Some(&[0xe9]), None)).unwrap(), "a\tb");
}

#[test]
fn age_comes_from_the_directives() {
    assert_eq!(head_max_age(&head(None, None, Some(b"public, max-age=60"))), Some(60));
    assert_eq!(head_max_age(&head(None, None, Some(b"no-store"))), None);
    assert_eq!(head_max_age(&head(None, None, None)), None);
    assert!(directives_are_readable(&head(None, None, Some(b"max-age=1"))));
    assert!(directives_are_readable(&head(None, None, None)));
    assert!(!directives_are_readable(&head(None, None, Some(&[0xff]))));
}

#[test]
fn address_is_remembered_only_with_an_age() {
    match update_url_etag_cache(head(Some(b"tag"), None, Some(b"max-age=60"))) {
        DownloadState::WriteUrl { url, key, max_age } => {
            assert_eq!(url, "http://a.example/x.png");
            assert_eq!(key, "tag");
            assert_eq!(max_age, 60);
        }
        _ => panic!("not remembered"),
    }
    let state = update_url_etag_cache(head(Some(b"tag"), None, Some(b"no-cache")));
    assert!(matches!(state, DownloadState::ReadFile { key } if key == "tag"));
    let state = update_url_etag_cache(head(Some(&[0xff]), None, Some(&[0xff])));
    assert!(matches!(state, DownloadState::Done(Err(DownloadError::HeaderParse))));
    let state = accept_head(head(Some(b"tag"), None, None), Some(5));
    assert!(matches!(state, DownloadState::WriteUrl { max_age: 5, .. }));
}

#[test]
fn second_download_is_cached() {
    let mut world = World::new();
    assert_eq!(world.download(None), (vec![1, 2, 3], false));
    assert_eq!(world.download(None), (vec![1, 2, 3], true));
    assert_eq!(world.requests, 2);
    assert_eq!(world.keys.len(), 0);
}

#[test]
fn known_file_needs_no_request() {
    let mut world = World::new();
    assert_eq!(world.download(Some(b"max-age=60")), (vec![1, 2, 3], false));
    assert_eq!(world.download(Some(b"max-age=60")), (vec![1, 2, 3], true));
    assert_eq!(world.requests, 1);
    assert_eq!(world.keys["http://a.example/x.png"], "tag");
}

#[test]
fn known_key_without_file_leads_to_a_request() {
    let mut world = World::new();
    world.keys.insert("http://a.example/x.png".to_string(), "gone".to_string());
    assert_eq!(world.download(None), (vec![1, 2, 3], false));
    assert_eq!(world.requests, 1);
}

#[test]
fn each_file_counts_once() {
    let mut world = World::new();
    world.download(Some(b"max-age=60"));
    world.download(Some(b"max-age=60"));
    world.download(Some(b"max-age=60"));
    assert_eq!(
        world.counters,
        DownloadCounters { downloaded_bytes: 0, downloaded_files: 1, cached_files: 2, http_errors: 0 }
    );
}

#[test]
fn figures_of_many_downloads_add_up() {
    let mut counters = DownloadCounters::new();
    let step = |counters: &mut DownloadCounters, state: DownloadState, event: DownloadEvent| {
        counters.record(&state, &event);
        state.step(event)
    };
    let start = || DownloadState::start("http://a.example/x.png");

    // Three downloads side by side: the first is cached, the second is refused, and
    // the third brings a file in two pieces.
    let one = step(&mut counters, start(), DownloadEvent::Url(Ok(Some("k".to_string()))));
    let two = step(&mut counters, start(), DownloadEvent::Url(Ok(None)));
    let three = step(&mut counters, start(), DownloadEvent::Url(Ok(None)));
    assert_eq!(counters, DownloadCounters::new());
    let three = step(
        &mut counters,
        three,
        DownloadEvent::Response(Ok(head(Some(b"tag"), None, None))),
    );
    let two = step(&mut counters, two, DownloadEvent::Response(Err(http_error())));
    assert!(matches!(two, DownloadState::Done(Err(DownloadError::Http(_)))));
    let three = step(&mut counters, three, DownloadEvent::File(Ok(None)));
    let mut file = Vec::new();
    counters.append_chunk(&mut file, &[1, 2]);
    let one = step(&mut counters, one, DownloadEvent::File(Ok(Some(vec![9]))));
    assert!(matches!(one, DownloadState::Done(Ok(file)) if file.was_cached));
    counters.append_chunk(&mut file, &[3]);
    let three = step(&mut counters, three, DownloadEvent::Body(Ok(file)));
    let stats = counters.stats(1, Instant::now());
    assert_eq!((stats.in_flight_requests, stats.cached_files, stats.downloaded_files), (1, 1, 0));
    let three = step(&mut counters, three, DownloadEvent::Written(Ok(())));
    assert!(matches!(three, DownloadState::Done(Ok(file)) if !file.was_cached));
    let stats = counters.stats(0, Instant::now());
    assert_eq!(stats.cached_files + stats.downloaded_files, 2);
    assert_eq!(stats.http_errors, 1);
    assert_eq!(stats.downloaded_bytes, 3);
}

#[test]
fn errors_of_a_cache_end_a_download() {
    let state = DownloadState::start("u").step(DownloadEvent::Url(Err(cache_error())));
    assert!(matches!(state, DownloadState::Done(Err(DownloadError::DiskCache(_)))));
    let state = DownloadState::ReadFile { key: "k".to_string() };
    let state = state.step(DownloadEvent::File(Err(cache_error())));
    assert!(matches!(state, DownloadState::Done(Err(DownloadError::DiskCache(_)))));
    let state = DownloadState::WriteFile { key: "k".to_string(), contents: vec![1] };
    let state = state.step(DownloadEvent::Written(Err(cache_error())));
    assert!(matches!(state, DownloadState::Done(Err(DownloadError::DiskCache(_)))));
}

#[test]
fn errors_of_the_server_end_a_download() {
    let state = DownloadState::Request { url: "u".to_string() };
    let event = DownloadEvent::Response(Err(http_error()));
    let mut counters = DownloadCounters::new();
    counters.record(&state, &event);
    assert_eq!(counters.http_errors, 1);
    assert!(matches!(state.step(event), DownloadState::Done(Err(DownloadError::Http(_)))));
    let state = DownloadState::ReadBody { key: "k".to_string() };
    let state = state.step(DownloadEvent::Body(Err(http_error())));
    assert!(matches!(state, DownloadState::Done(Err(DownloadError::Http(_)))));
}

#[test]
fn files_stay_in_the_cache_for_long() {
    assert_eq!(FILE_LIFETIME, 1_000_000_000_000);
}

#[test]
fn chunks_make_a_file() {
    let mut counters = DownloadCounters::new();
    let mut file = Vec::new();
    counters.append_chunk(&mut file, &[1, 2]);
    counters.append_chunk(&mut file, &[]);
    counters.append_chunk(&mut file, &[3]);
    assert_eq!(file, vec![1, 2, 3]);
    assert_eq!(counters.downloaded_bytes, 3);
    counters.downloaded_bytes = u64::MAX;
    counters.append_chunk(&mut file, &[4, 5]);
    assert_eq!(counters.downloaded_bytes, 1);
}

#[test]
fn stats_are_the_figures_of_a_moment() {
    let counters = DownloadCounters {
        downloaded_bytes: 10,
        downloaded_files: 2,
        cached_files: 3,
        http_errors: 4,
    };
    let at = Instant::now();
    let stats = counters.stats(5, at);
    assert_eq!(stats.in_flight_requests, 5);
    assert_eq!(stats.downloaded_bytes, 10);
    assert_eq!(stats.downloaded_files, 2);
    assert_eq!(stats.cached_files, 3);
    assert_eq!(stats.http_errors, 4);
    assert_eq!(stats.at, at);
    let last = DownloadManagerStats { downloaded_bytes: 4, ..stats };
    assert_eq!(stats.bytes_since(&last), 6);
    assert_eq!(stats.bytes_since(&stats), 0);
}
