//! Figures of the downloads so far.

use crate::bytes::append;
use crate::download::{
    answers, next_state, DownloadError, DownloadEvent, DownloadEventView, DownloadState,
    DownloadStateView,
};
use vstd::prelude::*;

verus! {

#[verifier::external_type_specification]
#[verifier::external_body]
pub struct ExInstant(std::time::Instant);

/// What has been counted up to a moment.
#[derive(Clone, Copy, Debug)]
pub struct DownloadManagerStats {
    pub in_flight_requests: u64,
    pub downloaded_bytes: u64,
    pub downloaded_files: u64,
    pub cached_files: u64,
    pub http_errors: u64,
    pub at: std::time::Instant,
}

impl DownloadManagerStats {
    /// The number of bytes downloaded since an earlier moment.
    pub fn bytes_since(&self, last_stats: &DownloadManagerStats) -> (bytes: u64)
        requires
            last_stats.downloaded_bytes <= self.downloaded_bytes,
        ensures
            bytes == self.downloaded_bytes - last_stats.downloaded_bytes,
    {
        self.downloaded_bytes - last_stats.downloaded_bytes
    }
}

/// The figures of the downloads so far. They start over at zero after the
/// largest number of 64 bits.
#[derive(Clone, Copy, Debug, PartialEq, Eq, Structural)]
pub struct DownloadCounters {
    pub downloaded_bytes: u64,
    pub downloaded_files: u64,
    pub cached_files: u64,
    pub http_errors: u64,
}

/// A figure after something has been added to it.
pub open spec fn raised(figure: u64, by: int) -> u64 {
    ((figure + by) % 0x1_0000_0000_0000_0000) as u64
}

/// The figures after a step of a download: a file of the cache, an answer with
/// the status of an error, and a file that was not in the cache count one each.
pub open spec fn counted(
    counters: DownloadCounters,
    state: DownloadStateView,
    event: DownloadEventView,
) -> DownloadCounters {
    match (state, event) {
        (_, DownloadEventView::File(Ok(Some(_)))) => DownloadCounters {
            cached_files: raised(counters.cached_files, 1),
            ..counters
        },
        (_, DownloadEventView::Response(Err(_))) => DownloadCounters {
            http_errors: raised(counters.http_errors, 1),
            ..counters
        },
        (DownloadStateView::WriteFile { .. }, DownloadEventView::Written(Ok(_))) =>
            DownloadCounters {
            downloaded_files: raised(counters.downloaded_files, 1),
            ..counters
        },
        _ => counters,
    }
}

/// The figures after a piece of a file has come in.
pub open spec fn counted_chunk(counters: DownloadCounters, size: nat) -> DownloadCounters {
    DownloadCounters {
        downloaded_bytes: raised(counters.downloaded_bytes, size as int),
        ..counters
    }
}

/// The figures at a moment, while some downloads are under way.
pub open spec fn stats_at(
    counters: DownloadCounters,
    in_flight: usize,
    at: std::time::Instant,
) -> DownloadManagerStats {
    DownloadManagerStats {
        in_flight_requests: in_flight as u64,
        downloaded_bytes: counters.downloaded_bytes,
        downloaded_files: counters.downloaded_files,
        cached_files: counters.cached_files,
        http_errors: counters.http_errors,
        at: at,
    }
}

impl DownloadCounters {
    /// The figures at the beginning.
    pub fn new() -> (counters: Self)
        ensures
            counters == (DownloadCounters {
                downloaded_bytes: 0,
                downloaded_files: 0,
                cached_files: 0,
                http_errors: 0,
            }),
    {
        DownloadCounters {
            downloaded_bytes: 0,
            downloaded_files: 0,
            cached_files: 0,
            http_errors: 0,
        }
    }

    /// Counts a step of a download.
    pub fn record(&mut self, state: &DownloadState, event: &DownloadEvent)
        ensures
            *final(self) == counted(*old(self), state@, event@),
    {
        match (state, event) {
            (_, DownloadEvent::File(Ok(Some(_)))) => {
                self.cached_files = self.cached_files.wrapping_add(1);
            },
            (_, DownloadEvent::Response(Err(_))) => {
                self.http_errors = self.http_errors.wrapping_add(1);
            },
            (DownloadState::WriteFile { .. }, DownloadEvent::Written(Ok(_))) => {
                self.downloaded_files = self.downloaded_files.wrapping_add(1);
            },
            _ => {},
        }
    }

    /// Takes over a piece of a file and counts its bytes.
    pub fn append_chunk(&mut self, file: &mut Vec<u8>, chunk: &[u8])
        ensures
            final(file)@ == old(file)@ + chunk@,
            *final(self) == counted_chunk(*old(self), chunk@.len()),
    {
        self.downloaded_bytes = self.downloaded_bytes.wrapping_add(chunk.len() as u64);
        append(file, chunk);
    }

    /// The figures at a moment, while some downloads are under way.
    pub fn stats(&self, in_flight: usize, at: std::time::Instant) -> (stats: DownloadManagerStats)
        ensures
            stats == stats_at(*self, in_flight, at),
    {
        DownloadManagerStats {
            in_flight_requests: in_flight as u64,
            downloaded_bytes: self.downloaded_bytes,
            downloaded_files: self.downloaded_files,
            cached_files: self.cached_files,
            http_errors: self.http_errors,
            at: at,
        }
    }
}

/// A download from its beginning to where it has come.
pub struct DownloadRun {
    pub state: DownloadStateView,
    /// What has come in of the file.
    pub received: Seq<u8>,
    /// Whether the request was refused.
    pub refused: bool,
    /// Whether the file broke off.
    pub broken: bool,
}

/// What a download goes through.
pub enum DownloadPart {
    /// A piece of the file comes in.
    Chunk(Seq<u8>),
    /// What it had to do is done.
    Event(DownloadEventView),
}

/// The beginning of a download.
pub open spec fn run_start(url: Seq<char>) -> DownloadRun {
    DownloadRun {
        state: DownloadStateView::ReadUrl { url: url },
        received: Seq::empty(),
        refused: false,
        broken: false,
    }
}

/// Whether a download can go through that: pieces come while the file is read,
/// and the file is made of its pieces.
pub open spec fn part_fits(run: DownloadRun, part: DownloadPart) -> bool {
    match part {
        DownloadPart::Chunk(_) => run.state is ReadBody,
        DownloadPart::Event(event) => answers(run.state, event) && (
        event matches DownloadEventView::Body(Ok(file)) ==> file == run.received),
    }
}

/// A download after what it went through.
pub open spec fn run_after(run: DownloadRun, part: DownloadPart) -> DownloadRun {
    match part {
        DownloadPart::Chunk(chunk) => DownloadRun { received: run.received + chunk, ..run },
        DownloadPart::Event(event) => DownloadRun {
            state: next_state(run.state, event),
            received: run.received,
            refused: run.refused || event matches DownloadEventView::Response(Err(_)),
            broken: run.broken || event matches DownloadEventView::Body(Err(_)),
        },
    }
}

/// The figures after what a download went through.
pub open spec fn counted_part(
    counters: DownloadCounters,
    run: DownloadRun,
    part: DownloadPart,
) -> DownloadCounters {
    match part {
        DownloadPart::Chunk(chunk) => counted_chunk(counters, chunk.len()),
        DownloadPart::Event(event) => counted(counters, run.state, event),
    }
}

/// A download after all that it went through.
pub open spec fn run_of(url: Seq<char>, parts: Seq<DownloadPart>) -> DownloadRun
    decreases parts.len(),
{
    if parts.len() == 0 {
        run_start(url)
    } else {
        run_after(run_of(url, parts.drop_last()), parts.last())
    }
}

/// Whether a download can go through all that.
pub open spec fn parts_fit(url: Seq<char>, parts: Seq<DownloadPart>) -> bool
    decreases parts.len(),
{
    parts.len() == 0 || (parts_fit(url, parts.drop_last()) && part_fits(
        run_of(url, parts.drop_last()),
        parts.last(),
    ))
}

/// The figures after all that a download went through.
pub open spec fn counted_parts(
    counters: DownloadCounters,
    url: Seq<char>,
    parts: Seq<DownloadPart>,
) -> DownloadCounters
    decreases parts.len(),
{
    if parts.len() == 0 {
        counters
    } else {
        counted_part(
            counted_parts(counters, url, parts.drop_last()),
            run_of(url, parts.drop_last()),
            parts.last(),
        )
    }
}

/// One for what is so, nothing for what is not.
pub open spec fn one_if(holds: bool) -> int {
    if holds {
        1
    } else {
        0
    }
}

/// One where a download has ended with a file of the cache.
pub open spec fn cached_of(run: DownloadRun) -> int {
    one_if(run.state matches DownloadStateView::Done(Ok(file)) && file.was_cached)
}

/// One where a download has ended with a file that was not in the cache.
pub open spec fn downloaded_of(run: DownloadRun) -> int {
    one_if(run.state matches DownloadStateView::Done(Ok(file)) && !file.was_cached)
}

/// One where a download has ended with a file.
pub open spec fn success_of(run: DownloadRun) -> int {
    one_if(run.state matches DownloadStateView::Done(Ok(_)))
}

/// One where the request of a download was refused.
pub open spec fn refused_of(run: DownloadRun) -> int {
    one_if(run.refused)
}

/// One where a download has ended with an error of the request or the answer.
pub open spec fn http_error_of(run: DownloadRun) -> int {
    one_if(run.state matches DownloadStateView::Done(Err(DownloadError::Http(_))))
}

/// One where a download is still under way.
pub open spec fn under_way_of(run: DownloadRun) -> int {
    one_if(!(run.state is Done))
}

/// One where a download has ended.
pub open spec fn ended_of(run: DownloadRun) -> int {
    one_if(run.state is Done)
}

/// The number of bytes that have come in for a download.
pub open spec fn bytes_of(run: DownloadRun) -> int {
    run.received.len() as int
}

/// Whether what a download has received goes with where it has come.
pub open spec fn is_consistent(run: DownloadRun) -> bool {
    &&& match run.state {
        DownloadStateView::ReadBody { .. } => true,
        DownloadStateView::WriteFile { contents, .. } => contents == run.received,
        DownloadStateView::Done(Ok(file)) => if file.was_cached {
            run.received.len() == 0
        } else {
            file.contents == run.received
        },
        DownloadStateView::Done(Err(_)) => true,
        _ => run.received.len() == 0,
    }
    &&& (run.state matches DownloadStateView::Done(Err(DownloadError::Http(_)))) == (run.refused
        || run.broken)
    &&& !(run.refused && run.broken)
}

proof fn lemma_raised_twice(figure: u64, first: int, second: int)
    ensures
        raised(raised(figure, first), second) == raised(figure, first + second),
{
}

/// The figures after something has been added to each.
pub open spec fn raised_by(
    counters: DownloadCounters,
    bytes: int,
    downloaded: int,
    cached: int,
    errors: int,
) -> DownloadCounters {
    DownloadCounters {
        downloaded_bytes: raised(counters.downloaded_bytes, bytes),
        downloaded_files: raised(counters.downloaded_files, downloaded),
        cached_files: raised(counters.cached_files, cached),
        http_errors: raised(counters.http_errors, errors),
    }
}

proof fn lemma_raised_by_twice(
    counters: DownloadCounters,
    first: (int, int, int, int),
    second: (int, int, int, int),
)
    ensures
        raised_by(
            raised_by(counters, first.0, first.1, first.2, first.3),
            second.0,
            second.1,
            second.2,
            second.3,
        ) == raised_by(
            counters,
            first.0 + second.0,
            first.1 + second.1,
            first.2 + second.2,
            first.3 + second.3,
        ),
{
    lemma_raised_twice(counters.downloaded_bytes, first.0, second.0);
    lemma_raised_twice(counters.downloaded_files, first.1, second.1);
    lemma_raised_twice(counters.cached_files, first.2, second.2);
    lemma_raised_twice(counters.http_errors, first.3, second.3);
}

proof fn lemma_part_counts(counters: DownloadCounters, run: DownloadRun, part: DownloadPart)
    requires
        is_consistent(run),
        part_fits(run, part),
    ensures
        ({
            let next = run_after(run, part);
            &&& is_consistent(next)
            &&& counted_part(counters, run, part) == raised_by(
                counters,
                bytes_of(next) - bytes_of(run),
                downloaded_of(next) - downloaded_of(run),
                cached_of(next) - cached_of(run),
                refused_of(next) - refused_of(run),
            )
        }),
{
}

/// Whatever a download goes through, it counts once: as a file of the cache, as a
/// file that was not there, with the bytes of the file, or as a refused request.
/// Until then, and where it ends otherwise, only the bytes count that came in.
pub proof fn law_each_file_counts_once(
    counters: DownloadCounters,
    url: Seq<char>,
    parts: Seq<DownloadPart>,
)
    requires
        parts_fit(url, parts),
    ensures
        ({
            let run = run_of(url, parts);
            &&& is_consistent(run)
            &&& counted_parts(counters, url, parts) == raised_by(
                counters,
                bytes_of(run),
                downloaded_of(run),
                cached_of(run),
                refused_of(run),
            )
        }),
    decreases parts.len(),
{
    if parts.len() > 0 {
        let front = parts.drop_last();
        law_each_file_counts_once(counters, url, front);
        let run = run_of(url, front);
        let next = run_of(url, parts);
        lemma_part_counts(counted_parts(counters, url, front), run, parts.last());
        lemma_raised_by_twice(
            counters,
            (bytes_of(run), downloaded_of(run), cached_of(run), refused_of(run)),
            (
                bytes_of(next) - bytes_of(run),
                downloaded_of(next) - downloaded_of(run),
                cached_of(next) - cached_of(run),
                refused_of(next) - refused_of(run),
            ),
        );
    }
}

/// What happens to downloads that run side by side.
pub enum DownloadAction {
    /// A download of an address begins.
    Queue(Seq<char>),
    /// The download at a place goes through something.
    Part(int, DownloadPart),
}

/// Downloads that run side by side, in the order in which they began, and their
/// figures.
pub struct Downloads {
    pub runs: Seq<DownloadRun>,
    pub counters: DownloadCounters,
}

/// Whether that can happen to downloads.
pub open spec fn action_fits(downloads: Downloads, action: DownloadAction) -> bool {
    match action {
        DownloadAction::Queue(_) => true,
        DownloadAction::Part(at, part) => 0 <= at < downloads.runs.len() && part_fits(
            downloads.runs[at],
            part,
        ),
    }
}

/// Downloads after something happened.
pub open spec fn downloads_after(downloads: Downloads, action: DownloadAction) -> Downloads {
    match action {
        DownloadAction::Queue(url) => Downloads {
            runs: downloads.runs.push(run_start(url)),
            ..downloads
        },
        DownloadAction::Part(at, part) => Downloads {
            runs: downloads.runs.update(at, run_after(downloads.runs[at], part)),
            counters: counted_part(downloads.counters, downloads.runs[at], part),
        },
    }
}

/// Downloads after all that happened, from the first one on.
pub open spec fn downloads_of(actions: Seq<DownloadAction>) -> Downloads
    decreases actions.len(),
{
    if actions.len() == 0 {
        Downloads {
            runs: Seq::empty(),
            counters: DownloadCounters {
                downloaded_bytes: 0,
                downloaded_files: 0,
                cached_files: 0,
                http_errors: 0,
            },
        }
    } else {
        downloads_after(downloads_of(actions.drop_last()), actions.last())
    }
}

/// Whether all that can happen.
pub open spec fn actions_fit(actions: Seq<DownloadAction>) -> bool
    decreases actions.len(),
{
    actions.len() == 0 || (actions_fit(actions.drop_last()) && action_fits(
        downloads_of(actions.drop_last()),
        actions.last(),
    ))
}

/// How many downloads began.
pub open spec fn queued(actions: Seq<DownloadAction>) -> nat
    decreases actions.len(),
{
    if actions.len() == 0 {
        0
    } else {
        queued(actions.drop_last()) + if actions.last() is Queue {
            1nat
        } else {
            0
        }
    }
}

/// The sum of a figure of each download.
pub open spec fn total(runs: Seq<DownloadRun>, figure: spec_fn(DownloadRun) -> int) -> int
    decreases runs.len(),
{
    if runs.len() == 0 {
        0
    } else {
        total(runs.drop_last(), figure) + figure(runs.last())
    }
}

proof fn lemma_total_of_push(
    runs: Seq<DownloadRun>,
    run: DownloadRun,
    figure: spec_fn(DownloadRun) -> int,
)
    ensures
        total(runs.push(run), figure) == total(runs, figure) + figure(run),
{
    assert(runs.push(run).drop_last() =~= runs);
}

proof fn lemma_total_of_update(
    runs: Seq<DownloadRun>,
    at: int,
    run: DownloadRun,
    figure: spec_fn(DownloadRun) -> int,
)
    requires
        0 <= at < runs.len(),
    ensures
        total(runs.update(at, run), figure) == total(runs, figure) - figure(runs[at]) + figure(run),
    decreases runs.len(),
{
    let front = runs.drop_last();
    if at == front.len() {
        assert(runs.update(at, run).drop_last() =~= front);
    } else {
        lemma_total_of_update(front, at, run, figure);
        assert(runs.update(at, run).drop_last() =~= front.update(at, run));
    }
}

/// However downloads run side by side, their figures are the sums over all of
/// them: of the bytes that came in, of the files that were not in the cache, of
/// those that were, and of the refused requests.
pub proof fn law_figures_are_sums(actions: Seq<DownloadAction>)
    requires
        actions_fit(actions),
    ensures
        ({
            let runs = downloads_of(actions).runs;
            &&& runs.len() == queued(actions)
            &&& forall|i: int| 0 <= i < runs.len() ==> is_consistent(#[trigger] runs[i])
            &&& downloads_of(actions).counters == raised_by(
                downloads_of(Seq::empty()).counters,
                total(runs, |run: DownloadRun| bytes_of(run)),
                total(runs, |run: DownloadRun| downloaded_of(run)),
                total(runs, |run: DownloadRun| cached_of(run)),
                total(runs, |run: DownloadRun| refused_of(run)),
            )
        }),
    decreases actions.len(),
{
    let bytes = |run: DownloadRun| bytes_of(run);
    let downloaded = |run: DownloadRun| downloaded_of(run);
    let cached = |run: DownloadRun| cached_of(run);
    let refused = |run: DownloadRun| refused_of(run);
    if actions.len() > 0 {
        let front = actions.drop_last();
        law_figures_are_sums(front);
        let before = downloads_of(front);
        match actions.last() {
            DownloadAction::Queue(url) => {
                lemma_total_of_push(before.runs, run_start(url), bytes);
                lemma_total_of_push(before.runs, run_start(url), downloaded);
                lemma_total_of_push(before.runs, run_start(url), cached);
                lemma_total_of_push(before.runs, run_start(url), refused);
            },
            DownloadAction::Part(at, part) => {
                let run = before.runs[at];
                let next = run_after(run, part);
                lemma_part_counts(before.counters, run, part);
                lemma_total_of_update(before.runs, at, next, bytes);
                lemma_total_of_update(before.runs, at, next, downloaded);
                lemma_total_of_update(before.runs, at, next, cached);
                lemma_total_of_update(before.runs, at, next, refused);
                lemma_raised_by_twice(
                    downloads_of(Seq::empty()).counters,
                    (
                        total(before.runs, bytes),
                        total(before.runs, downloaded),
                        total(before.runs, cached),
                        total(before.runs, refused),
                    ),
                    (
                        bytes_of(next) - bytes_of(run),
                        downloaded_of(next) - downloaded_of(run),
                        cached_of(next) - cached_of(run),
                        refused_of(next) - refused_of(run),
                    ),
                );
            },
        }
    }
}

proof fn lemma_totals(runs: Seq<DownloadRun>)
    requires
        forall|i: int| 0 <= i < runs.len() ==> is_consistent(#[trigger] runs[i]),
        forall|i: int| 0 <= i < runs.len() ==> !(#[trigger] runs[i]).broken,
    ensures
        total(runs, |run: DownloadRun| under_way_of(run)) + total(
            runs,
            |run: DownloadRun| ended_of(run),
        ) == runs.len(),
        total(runs, |run: DownloadRun| cached_of(run)) + total(
            runs,
            |run: DownloadRun| downloaded_of(run),
        ) == total(runs, |run: DownloadRun| success_of(run)),
        total(runs, |run: DownloadRun| refused_of(run)) == total(
            runs,
            |run: DownloadRun| http_error_of(run),
        ),
        0 <= total(runs, |run: DownloadRun| cached_of(run)),
        0 <= total(runs, |run: DownloadRun| downloaded_of(run)),
        0 <= total(runs, |run: DownloadRun| success_of(run)) <= runs.len(),
        0 <= total(runs, |run: DownloadRun| http_error_of(run)) <= runs.len(),
    decreases runs.len(),
{
    if runs.len() > 0 {
        let front = runs.drop_last();
        assert(forall|i: int| 0 <= i < front.len() ==> front[i] == runs[i]);
        lemma_totals(front);
        assert(is_consistent(runs[runs.len() - 1]));
    }
}

/// At every moment the figures tell what has come of the downloads, as long as
/// their number has 64 bits and no file broke off: those under way are those that
/// began and have not ended, the files are those with which downloads ended, and
/// the errors those with which requests were refused.
pub proof fn law_stats_add_up(
    actions: Seq<DownloadAction>,
    in_flight: usize,
    at: std::time::Instant,
)
    requires
        actions_fit(actions),
        queued(actions) <= u64::MAX,
        forall|i: int|
            0 <= i < downloads_of(actions).runs.len() ==> !(#[trigger] downloads_of(
                actions,
            ).runs[i]).broken,
        in_flight == total(downloads_of(actions).runs, |run: DownloadRun| under_way_of(run)),
    ensures
        ({
            let runs = downloads_of(actions).runs;
            let stats = stats_at(downloads_of(actions).counters, in_flight, at);
            &&& stats.in_flight_requests == queued(actions) - total(
                runs,
                |run: DownloadRun| ended_of(run),
            )
            &&& stats.cached_files + stats.downloaded_files == total(
                runs,
                |run: DownloadRun| success_of(run),
            )
            &&& stats.http_errors == total(runs, |run: DownloadRun| http_error_of(run))
            &&& total(runs, |run: DownloadRun| bytes_of(run)) <= u64::MAX
                ==> stats.downloaded_bytes == total(runs, |run: DownloadRun| bytes_of(run))
        }),
{
    let runs = downloads_of(actions).runs;
    law_figures_are_sums(actions);
    lemma_totals(runs);
    lemma_bytes_are_positive(runs);
}

proof fn lemma_bytes_are_positive(runs: Seq<DownloadRun>)
    ensures
        0 <= total(runs, |run: DownloadRun| bytes_of(run)),
    decreases runs.len(),
{
    if runs.len() > 0 {
        lemma_bytes_are_positive(runs.drop_last());
    }
}

/// A figure differs from the true number by a multiple of the count of all numbers
/// of 64 bits, and is the true number where that has 64 bits.
#[verifier::rlimit(3)]
pub proof fn law_figures_are_true_up_to_their_size(figure: u64, by: int)
    ensures
        0 <= figure + by <= u64::MAX ==> raised(figure, by) == figure + by,
        (figure + by - raised(figure, by)) % 0x1_0000_0000_0000_0000 == 0,
{
}

/// The figures of a moment are those that were counted, each in its place.
#[verifier::rlimit(3)]
pub proof fn law_stats_show_each_figure(
    counters: DownloadCounters,
    in_flight: usize,
    at: std::time::Instant,
)
    ensures
        ({
            let stats = stats_at(counters, in_flight, at);
            &&& stats.in_flight_requests == in_flight
            &&& stats.downloaded_bytes == counters.downloaded_bytes
            &&& stats.downloaded_files == counters.downloaded_files
            &&& stats.cached_files == counters.cached_files
            &&& stats.http_errors == counters.http_errors
            &&& stats.at == at
        }),
{
}

} // verus!
