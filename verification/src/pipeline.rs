//! The run as a whole: the stages and their worker pools, what the progress
//! lines say, and what a run against a recorded listing downloads.

use crate::date::{Date, DateWindow};
use crate::error::PipelineError;
use crate::archive::{
    lemma_paths_tell_archives, target_directory_of, target_path_of, temp_path_of, ArchiveRef,
    ArchiveView,
};
use crate::klines::{
    archives_of_pages, download_klines, fetch_urls, job_for, lemma_archives_of_pages_in_window,
    pages_follow_grammar, pages_seen, views, DownloadJob, ExtractionReceipt, JobView,
};
use crate::symbols::{discovered_symbols, pages_name_symbols, pattern_accepted};
use crate::text::{contains_text, decimal_text, push_decimal, str_equal};
use crate::types::{texts, KlineResult, SymbolResult};
use vstd::prelude::*;
use vstd::string::*;

verus! {

/// The stages of a run, in the order the data flows through them.
#[derive(Clone, Copy, Debug, PartialEq, Eq, Structural)]
pub enum Stage {
    /// Symbol discovery: one worker, since each page depends on the one
    /// before.
    Symbols,
    /// Archive discovery, per symbol.
    Urls,
    /// Download of the archives.
    Downloads,
    /// Unpacking of the staged archives.
    Extractions,
}

impl Stage {
    /// The size of the worker pool of each stage.
    pub open spec fn pool_size(self) -> nat {
        match self {
            Stage::Symbols => 1,
            Stage::Urls => 10,
            Stage::Downloads => 250,
            Stage::Extractions => 5,
        }
    }

    /// What the progress line of the stage says before its first item.
    pub open spec fn waiting_text(self) -> Seq<char> {
        match self {
            Stage::Symbols => "Fetching symbols"@,
            Stage::Urls => "Waiting for symbols..."@,
            Stage::Downloads => "Waiting for kline urls..."@,
            Stage::Extractions => "Waiting for kline archives..."@,
        }
    }

    /// What the progress line of the stage says while it works, with
    /// `queued` items waiting in its input queue.
    pub open spec fn busy_text(self, queued: nat) -> Seq<char> {
        match self {
            Stage::Symbols => "Fetching symbols"@,
            Stage::Urls => "Fetching kline urls ("@ + decimal_text(self.pool_size())
                + " workers, "@ + decimal_text(queued) + " symbols in queue)"@,
            Stage::Downloads => "Downloading kline archives ("@ + decimal_text(self.pool_size())
                + " workers, "@ + decimal_text(queued) + " urls in queue)"@,
            Stage::Extractions => "Extracting klines ("@ + decimal_text(self.pool_size())
                + " workers, "@ + decimal_text(queued) + " in queue)"@,
        }
    }

    /// What the progress line of the stage says once its workers are done.
    pub open spec fn done_text(self) -> Seq<char> {
        match self {
            Stage::Symbols => "Fetching symbols: done"@,
            Stage::Urls => "Fetching kline urls: done"@,
            Stage::Downloads => "Downloading klines: done"@,
            Stage::Extractions => "Extracting klines: done"@,
        }
    }

    /// The stage that consumes what this one produces, if there is one.
    pub open spec fn downstream(self) -> Option<Stage> {
        match self {
            Stage::Symbols => Some(Stage::Urls),
            Stage::Urls => Some(Stage::Downloads),
            Stage::Downloads => Some(Stage::Extractions),
            Stage::Extractions => None,
        }
    }

    /// The number of workers the stage runs.
    pub fn workers(&self) -> (count: usize)
        ensures
            count == self.pool_size(),
    {
        match self {
            Stage::Symbols => 1,
            Stage::Urls => 10,
            Stage::Downloads => 250,
            Stage::Extractions => 5,
        }
    }

    /// The stage that consumes what this one produces, if there is one.
    pub fn next(&self) -> (stage: Option<Stage>)
        ensures
            stage == self.downstream(),
    {
        match self {
            Stage::Symbols => Some(Stage::Urls),
            Stage::Urls => Some(Stage::Downloads),
            Stage::Downloads => Some(Stage::Extractions),
            Stage::Extractions => None,
        }
    }

    /// The progress line of the stage before its first item.
    pub fn waiting_message(&self) -> (message: String)
        ensures
            message@ == self.waiting_text(),
    {
        match self {
            Stage::Symbols => "Fetching symbols".to_owned(),
            Stage::Urls => "Waiting for symbols...".to_owned(),
            Stage::Downloads => "Waiting for kline urls...".to_owned(),
            Stage::Extractions => "Waiting for kline archives...".to_owned(),
        }
    }

    /// The progress line of the stage while it works, with `queued` items
    /// waiting in its input queue.
    pub fn busy_message(&self, queued: usize) -> (message: String)
        ensures
            message@ == self.busy_text(queued as nat),
    {
        let (front, back) = match self {
            Stage::Symbols => {
                return "Fetching symbols".to_owned();
            },
            Stage::Urls => ("Fetching kline urls (", " symbols in queue)"),
            Stage::Downloads => ("Downloading kline archives (", " urls in queue)"),
            Stage::Extractions => ("Extracting klines (", " in queue)"),
        };
        let mut message = front.to_owned();
        push_decimal(&mut message, self.workers() as u64);
        message.append(" workers, ");
        push_decimal(&mut message, queued as u64);
        message.append(back);
        message
    }

    /// The progress line of the stage once its workers are done.
    pub fn done_message(&self) -> (message: String)
        ensures
            message@ == self.done_text(),
    {
        match self {
            Stage::Symbols => "Fetching symbols: done".to_owned(),
            Stage::Urls => "Fetching kline urls: done".to_owned(),
            Stage::Downloads => "Downloading klines: done".to_owned(),
            Stage::Extractions => "Extracting klines: done".to_owned(),
        }
    }
}

/// What the summary line says after `count` archives were unpacked.
pub open spec fn extracted_text(count: nat) -> Seq<char> {
    decimal_text(count) + " kline archives extracted"@
}

/// The count of the archives unpacked so far in a run.
#[derive(Clone, Copy, Debug, PartialEq, Eq, Structural)]
pub struct ReceiptTally {
    pub extracted: u64,
}

impl ReceiptTally {
    /// The tally of a run that has unpacked nothing yet.
    pub fn new() -> (tally: ReceiptTally)
        ensures
            tally.extracted == 0,
    {
        ReceiptTally { extracted: 0 }
    }

    /// Counts the archive of `receipt` as unpacked and gives the new summary
    /// line. The count stops at the largest number it can hold.
    pub fn record(&mut self, receipt: ExtractionReceipt) -> (message: String)
        ensures
            final(self).extracted == (if old(self).extracted < u64::MAX {
                old(self).extracted + 1
            } else {
                u64::MAX as int
            }),
            message@ == extracted_text(final(self).extracted as nat),
    {
        if self.extracted < u64::MAX {
            self.extracted = self.extracted + 1;
        }
        self.message()
    }

    /// The summary line for the count so far.
    pub fn message(&self) -> (message: String)
        ensures
            message@ == extracted_text(self.extracted as nat),
    {
        let mut message = String::new();
        push_decimal(&mut message, self.extracted);
        message.append(" kline archives extracted");
        message
    }
}

/// The jobs held in a vector, as what they say.
pub open spec fn job_views(jobs: Seq<DownloadJob>) -> Seq<JobView> {
    jobs.map_values(|job: DownloadJob| job@)
}

/// The test whether an archive still has to be downloaded: the file that
/// unpacking it leaves behind is not among the `existing` ones.
pub open spec fn missing(data_dir: Seq<char>, existing: Seq<Seq<char>>) -> spec_fn(
    ArchiveView,
) -> bool {
    |archive: ArchiveView| !existing.contains(target_path_of(data_dir, archive))
}

/// The archives that have to be downloaded, in order.
pub open spec fn outstanding(
    archives: Seq<ArchiveView>,
    data_dir: Seq<char>,
    existing: Seq<Seq<char>>,
) -> Seq<ArchiveView> {
    archives.filter(missing(data_dir, existing))
}

/// The jobs for `archives`.
pub open spec fn jobs_for(archives: Seq<ArchiveView>, data_dir: Seq<char>, temp_dir: Seq<char>) -> Seq<
    JobView,
> {
    archives.map_values(|archive: ArchiveView| job_for(archive, data_dir, temp_dir))
}

/// The files that unpacking `archives` leaves behind.
pub open spec fn target_paths(archives: Seq<ArchiveView>, data_dir: Seq<char>) -> Seq<Seq<char>> {
    archives.map_values(|archive: ArchiveView| target_path_of(data_dir, archive))
}

/// The download stage against a recorded state of the output directory:
/// one job for each archive whose unpacked file is not among `existing`, in
/// the order of `archives`.
pub fn plan_downloads(
    archives: &Vec<ArchiveRef>,
    data_dir: &str,
    temp_dir: &str,
    existing: &Vec<String>,
) -> (jobs: Vec<DownloadJob>)
    ensures
        job_views(jobs@) == jobs_for(
            outstanding(views(archives@), data_dir@, texts(existing@)),
            data_dir@,
            temp_dir@,
        ),
{
    let ghost all = views(archives@);
    let ghost test = missing(data_dir@, texts(existing@));
    let mut jobs: Vec<DownloadJob> = Vec::new();
    let mut i: usize = 0;
    proof {
        reveal(Seq::filter);
        assert(all.take(0) =~= Seq::<ArchiveView>::empty());
        assert(job_views(jobs@) =~= jobs_for(all.take(0).filter(test), data_dir@, temp_dir@));
    }
    while i < archives.len()
        invariant
            i <= archives.len(),
            all == views(archives@),
            test == missing(data_dir@, texts(existing@)),
            job_views(jobs@) == jobs_for(all.take(i as int).filter(test), data_dir@, temp_dir@),
        decreases archives.len() - i,
    {
        let target = archives[i].target_path(data_dir);
        let found = contains_text(existing, target.as_str());
        let ghost before = jobs@;
        proof {
            reveal(Seq::filter);
            let next = all.take(i + 1);
            assert(next.drop_last() =~= all.take(i as int));
            assert(next.last() == archives[i as int]@);
            assert(test(archives[i as int]@) == !found);
        }
        match download_klines(&archives[i], data_dir, temp_dir, found) {
            Some(job) => {
                jobs.push(job);
                proof {
                    let kept = all.take(i as int).filter(test);
                    assert(job_views(jobs@) =~= job_views(before).push(job@));
                    assert(jobs_for(kept.push(archives[i as int]@), data_dir@, temp_dir@)
                        =~= jobs_for(kept, data_dir@, temp_dir@).push(job@));
                }
            },
            None => {},
        }
        i += 1;
    }
    assert(all.take(i as int) =~= all);
    jobs
}

/// A filter whose test fails on every item leaves nothing.
pub proof fn lemma_filter_none<A>(items: Seq<A>, test: spec_fn(A) -> bool)
    requires
        forall|i: int| 0 <= i < items.len() ==> !test(#[trigger] items[i]),
    ensures
        items.filter(test).len() == 0,
    decreases items.len(),
{
    reveal(Seq::filter);
    if items.len() > 0 {
        lemma_filter_none(items.drop_last(), test);
    }
}

/// A second run downloads nothing: once the files of the outstanding
/// archives of a run are there, beside those that were there before, no
/// archive of the same listing is outstanding.
pub proof fn lemma_second_run_downloads_nothing(
    archives: Seq<ArchiveView>,
    data_dir: Seq<char>,
    existing: Seq<Seq<char>>,
)
    ensures
        outstanding(
            archives,
            data_dir,
            existing + target_paths(outstanding(archives, data_dir, existing), data_dir),
        ).len() == 0,
{
    let first = outstanding(archives, data_dir, existing);
    let produced = target_paths(first, data_dir);
    let after = existing + produced;
    assert forall|i: int| 0 <= i < archives.len() implies !missing(data_dir, after)(
        #[trigger] archives[i],
    ) by {
        let path = target_path_of(data_dir, archives[i]);
        if existing.contains(path) {
            let j = choose|j: int| 0 <= j < existing.len() && existing[j] == path;
            assert(after[j] == path);
        } else {
            assert(missing(data_dir, existing)(archives[i]));
            archives.lemma_filter_contains(missing(data_dir, existing), i);
            let j = choose|j: int| 0 <= j < first.len() && first[j] == archives[i];
            assert(produced[j] == path);
            assert(after[existing.len() + j] == path);
        }
    }
    lemma_filter_none(archives, missing(data_dir, after));
}

/// The test whether a path is another one than `deleted`.
pub open spec fn other_than(deleted: Seq<char>) -> spec_fn(Seq<char>) -> bool {
    |path: Seq<char>| path != deleted
}

/// After one file is deleted, a run downloads the archive of that file and
/// no other: where the files of all archives of a listing were there and the
/// file `deleted` is taken away, an archive of the listing is outstanding if
/// and only if `deleted` is its file.
pub proof fn lemma_rerun_after_deletion(
    archives: Seq<ArchiveView>,
    data_dir: Seq<char>,
    existing: Seq<Seq<char>>,
    deleted: Seq<char>,
    i: int,
)
    requires
        outstanding(archives, data_dir, existing).len() == 0,
        0 <= i < archives.len(),
    ensures
        outstanding(archives, data_dir, existing.filter(other_than(deleted))).contains(
            archives[i],
        ) <==> target_path_of(data_dir, archives[i]) == deleted,
{
    let left = existing.filter(other_than(deleted));
    let path = target_path_of(data_dir, archives[i]);
    let again = outstanding(archives, data_dir, left);
    // the file of every archive was there
    if missing(data_dir, existing)(archives[i]) {
        archives.lemma_filter_contains(missing(data_dir, existing), i);
    }
    assert(existing.contains(path));
    if path == deleted {
        if left.contains(path) {
            let j = choose|j: int| 0 <= j < left.len() && left[j] == path;
            existing.lemma_filter_pred(other_than(deleted), j);
        }
        archives.lemma_filter_contains(missing(data_dir, left), i);
    } else {
        let j = choose|j: int| 0 <= j < existing.len() && existing[j] == path;
        existing.lemma_filter_contains(other_than(deleted), j);
        if again.contains(archives[i]) {
            let k = choose|k: int| 0 <= k < again.len() && again[k] == archives[i];
            archives.lemma_filter_pred(missing(data_dir, left), k);
        }
    }
}

/// After the file of one archive is deleted, a run downloads that archive
/// again and no other: where the files of all archives of a listing were
/// there and the file of archive `k` is taken away, archive `i` is
/// outstanding if and only if it is archive `k` over again, with the same
/// symbol, interval and date.
pub proof fn lemma_rerun_fetches_the_deleted_archive_only(
    archives: Seq<ArchiveView>,
    data_dir: Seq<char>,
    existing: Seq<Seq<char>>,
    k: int,
    i: int,
)
    requires
        outstanding(archives, data_dir, existing).len() == 0,
        0 <= k < archives.len(),
        0 <= i < archives.len(),
        archives[k].well_formed(),
        archives[i].well_formed(),
    ensures
        outstanding(
            archives,
            data_dir,
            existing.filter(other_than(target_path_of(data_dir, archives[k]))),
        ).contains(archives[i]) <==> (archives[i].symbol == archives[k].symbol
            && archives[i].interval == archives[k].interval && archives[i].date
            == archives[k].date),
{
    lemma_rerun_after_deletion(
        archives,
        data_dir,
        existing,
        target_path_of(data_dir, archives[k]),
        i,
    );
    if archives[i].symbol != archives[k].symbol || archives[i].interval != archives[k].interval
        || archives[i].date != archives[k].date {
        lemma_paths_tell_archives(archives[i], archives[k], data_dir);
    }
}

/// The recorded listing of the archives of one symbol.
#[derive(Debug)]
pub struct SymbolListing {
    pub symbol: String,
    pub pages: Vec<KlineResult>,
}

/// A recorded state of the remote store: the pages of the listing of the
/// root prefix, and the listing of each symbol's archives at the interval of
/// the run.
#[derive(Debug)]
pub struct RecordedListing {
    pub symbol_pages: Vec<SymbolResult>,
    pub archives: Vec<SymbolListing>,
}

/// The index of the first listing for `symbol` at or behind `from`, or the
/// number of listings where there is none.
pub open spec fn listing_index_from(listings: Seq<SymbolListing>, symbol: Seq<char>, from: int) -> int
    decreases listings.len() - from,
{
    if from >= listings.len() {
        listings.len() as int
    } else if listings[from].symbol@ == symbol {
        from
    } else {
        listing_index_from(listings, symbol, from + 1)
    }
}

/// The pages recorded for `symbol`: those of the first listing for it, and
/// none where no listing is for it.
pub open spec fn pages_for(listings: Seq<SymbolListing>, symbol: Seq<char>) -> Seq<KlineResult> {
    let index = listing_index_from(listings, symbol, 0);
    if 0 <= index < listings.len() {
        listings[index].pages@
    } else {
        Seq::empty()
    }
}

/// Whether every archive key that the crawls for `symbols` read follows the
/// grammar.
pub open spec fn listings_follow_grammar(
    listings: Seq<SymbolListing>,
    symbols: Seq<Seq<char>>,
) -> bool {
    forall|i: int|
        0 <= i < symbols.len() ==> pages_follow_grammar(
            pages_seen(pages_for(listings, #[trigger] symbols[i])),
        )
}

/// The archives a run discovers for `symbols` under `window`, symbol after
/// symbol.
pub open spec fn run_archives(
    listings: Seq<SymbolListing>,
    symbols: Seq<Seq<char>>,
    window: DateWindow,
) -> Seq<ArchiveView>
    decreases symbols.len(),
{
    if symbols.len() == 0 {
        Seq::empty()
    } else {
        run_archives(listings, symbols.drop_last(), window) + archives_of_pages(
            pages_seen(pages_for(listings, symbols.last())),
            window,
        )
    }
}

/// A run finds no archive outside the window: every archive it discovers is
/// well formed and has a date that is not before the start of the window nor
/// after its end.
pub proof fn lemma_run_archives_in_window(
    listings: Seq<SymbolListing>,
    symbols: Seq<Seq<char>>,
    window: DateWindow,
    i: int,
)
    requires
        0 <= i < run_archives(listings, symbols, window).len(),
    ensures
        window.admits(run_archives(listings, symbols, window)[i].date),
        run_archives(listings, symbols, window)[i].well_formed(),
    decreases symbols.len(),
{
    if symbols.len() > 0 {
        let front = run_archives(listings, symbols.drop_last(), window);
        if i < front.len() {
            lemma_run_archives_in_window(listings, symbols.drop_last(), window, i);
        } else {
            lemma_archives_of_pages_in_window(
                pages_seen(pages_for(listings, symbols.last())),
                window,
                i - front.len(),
            );
        }
    }
}

/// A run downloads what is asked for and is not there, and nothing else:
/// every job of a run is for a discovered archive whose date lies in the
/// window and whose unpacked file is not among the existing ones; it stages
/// the archive in `<temp_dir>/<stem>.zip` and unpacks it into
/// `<data_dir>/<YYYY>/<MM>/<DD>/`.
pub proof fn lemma_run_jobs_in_window(
    listings: Seq<SymbolListing>,
    symbols: Seq<Seq<char>>,
    window: DateWindow,
    data_dir: Seq<char>,
    temp_dir: Seq<char>,
    existing: Seq<Seq<char>>,
    j: int,
)
    requires
        0 <= j < jobs_for(
            outstanding(run_archives(listings, symbols, window), data_dir, existing),
            data_dir,
            temp_dir,
        ).len(),
    ensures
        ({
            let job = jobs_for(
                outstanding(run_archives(listings, symbols, window), data_dir, existing),
                data_dir,
                temp_dir,
            )[j];
            &&& run_archives(listings, symbols, window).contains(job.archive)
            &&& window.admits(job.archive.date)
            &&& job.archive.well_formed()
            &&& !existing.contains(target_path_of(data_dir, job.archive))
            &&& job.temp_path == temp_path_of(temp_dir, job.archive)
            &&& job.target_directory == target_directory_of(data_dir, job.archive.date)
        }),
{
    let found = run_archives(listings, symbols, window);
    let left = outstanding(found, data_dir, existing);
    found.lemma_filter_pred(missing(data_dir, existing), j);
    assert(left.contains(left[j]));
    found.lemma_filter_contains_rev(missing(data_dir, existing), left[j]);
    let i = choose|i: int| 0 <= i < found.len() && found[i] == left[j];
    lemma_run_archives_in_window(listings, symbols, window, i);
}

/// What a run does: the symbols it discovers, the archives it finds for
/// them, and the jobs for the archives that are not unpacked yet.
#[derive(Debug)]
pub struct RunPlan {
    pub symbols: Vec<String>,
    pub archives: Vec<ArchiveRef>,
    pub jobs: Vec<DownloadJob>,
}

/// Whether `plan` is what a run for `symbols` does against `listings` and
/// the `existing` files.
pub open spec fn plan_is(
    plan: RunPlan,
    symbols: Seq<Seq<char>>,
    window: DateWindow,
    data_dir: Seq<char>,
    temp_dir: Seq<char>,
    listings: Seq<SymbolListing>,
    existing: Seq<Seq<char>>,
) -> bool {
    &&& texts(plan.symbols@) == symbols
    &&& views(plan.archives@) == run_archives(listings, symbols, window)
    &&& job_views(plan.jobs@) == jobs_for(
        outstanding(run_archives(listings, symbols, window), data_dir, existing),
        data_dir,
        temp_dir,
    )
}

/// The index of the first listing for `symbol`, if there is one.
fn find_listing(listings: &Vec<SymbolListing>, symbol: &str) -> (index: Option<usize>)
    ensures
        match index {
            Some(i) => i < listings.len() && i == listing_index_from(listings@, symbol@, 0),
            None => listing_index_from(listings@, symbol@, 0) == listings.len(),
        },
{
    let mut i: usize = 0;
    while i < listings.len()
        invariant
            i <= listings.len(),
            listing_index_from(listings@, symbol@, 0) == listing_index_from(
                listings@,
                symbol@,
                i as int,
            ),
        decreases listings.len() - i,
    {
        if str_equal(listings[i].symbol.as_str(), symbol) {
            return Some(i);
        }
        i += 1;
    }
    None
}

/// The stages behind symbol discovery against a recorded state: archive
/// discovery for each of `symbols` in turn, then the download stage against
/// the `existing` files.
///
/// An archive key that does not follow the file name grammar, on a page that
/// a crawl reads, is a malformed listing. With no symbols, nothing is
/// discovered and nothing is downloaded.
pub fn plan_run(
    symbols: Vec<String>,
    interval: &str,
    window: &DateWindow,
    data_dir: &str,
    temp_dir: &str,
    listings: &Vec<SymbolListing>,
    existing: &Vec<String>,
) -> (run: Result<RunPlan, PipelineError>)
    ensures
        !listings_follow_grammar(listings@, texts(symbols@)) ==> (run matches Err(error) && error
            == PipelineError::MalformedKey),
        listings_follow_grammar(listings@, texts(symbols@)) ==> (run matches Ok(plan) && plan_is(
            plan,
            texts(symbols@),
            *window,
            data_dir@,
            temp_dir@,
            listings@,
            texts(existing@),
        )),
        symbols.len() == 0 ==> (run matches Ok(plan) && plan.archives.len() == 0
            && plan.jobs.len() == 0),
{
    let ghost names = texts(symbols@);
    let none: Vec<KlineResult> = Vec::new();
    let mut archives: Vec<ArchiveRef> = Vec::new();
    let mut i: usize = 0;
    proof {
        assert(names.take(0) =~= Seq::<Seq<char>>::empty());
        assert(views(archives@) =~= run_archives(listings@, names.take(0), *window));
    }
    while i < symbols.len()
        invariant
            i <= symbols.len(),
            names == texts(symbols@),
            none@.len() == 0,
            listings_follow_grammar(listings@, names.take(i as int)),
            views(archives@) == run_archives(listings@, names.take(i as int), *window),
        decreases symbols.len() - i,
    {
        let symbol = symbols[i].as_str();
        let pages = match find_listing(listings, symbol) {
            Some(index) => &listings[index].pages,
            None => &none,
        };
        proof {
            let next = names.take(i + 1);
            assert(next.drop_last() =~= names.take(i as int));
            assert(next.last() == symbol@);
            assert(names[i as int] == symbol@);
            assert(pages@ =~= pages_for(listings@, symbol@));
        }
        match fetch_urls(symbol, interval, pages, window.start, window.end) {
            Ok(found) => {
                let mut found = found;
                let ghost before = archives@;
                let ghost added = found.archives@;
                archives.append(&mut found.archives);
                proof {
                    assert(views(archives@) =~= views(before) + views(added));
                    let next = names.take(i + 1);
                    assert forall|k: int| 0 <= k < next.len() implies pages_follow_grammar(
                        pages_seen(pages_for(listings@, #[trigger] next[k])),
                    ) by {
                        if k < i {
                            assert(next[k] == names.take(i as int)[k]);
                        }
                    }
                }
            },
            Err(_) => {
                assert(!pages_follow_grammar(pages_seen(pages_for(listings@, names[i as int]))));
                return Err(PipelineError::MalformedKey);
            },
        }
        i += 1;
    }
    assert(names.take(i as int) =~= names);
    let jobs = plan_downloads(&archives, data_dir, temp_dir, existing);
    proof {
        if symbols.len() == 0 {
            reveal(Seq::filter);
            assert(views(archives@).len() == 0);
            assert(job_views(jobs@).len() == 0);
        }
    }
    Ok(RunPlan { symbols, archives, jobs })
}

/// A run against a recorded state of the remote store and of the output
/// directory: symbol discovery with the filter `symbol`, archive discovery
/// for each symbol at `interval` between `start_date` and `end_date`, and the
/// download stage for the files that are not among `existing`.
///
/// A prefix that names no symbol, on a page that is read, is a malformed
/// listing. Else a filter that cannot be used is an invalid pattern. Else an
/// archive key that does not follow its grammar, on a page that is read for
/// a discovered symbol, is a malformed listing. Every other run succeeds.
pub fn fetch(
    interval: &str,
    symbol: &str,
    start_date: Option<Date>,
    end_date: Option<Date>,
    path: &str,
    temp_dir: &str,
    remote: &RecordedListing,
    existing: &Vec<String>,
) -> (run: Result<RunPlan, PipelineError>)
    ensures
        !pages_name_symbols(crate::symbols::pages_seen(remote.symbol_pages@)) ==> (
        run matches Err(error) && error == PipelineError::MalformedPrefix),
        pages_name_symbols(crate::symbols::pages_seen(remote.symbol_pages@))
            && !pattern_accepted(symbol@) ==> (run matches Err(error) && error
            == PipelineError::InvalidPattern),
        pages_name_symbols(crate::symbols::pages_seen(remote.symbol_pages@)) && pattern_accepted(
            symbol@,
        ) && !listings_follow_grammar(
            remote.archives@,
            discovered_symbols(remote.symbol_pages@, symbol@),
        ) ==> (run matches Err(error) && error == PipelineError::MalformedKey),
        pages_name_symbols(crate::symbols::pages_seen(remote.symbol_pages@)) && pattern_accepted(
            symbol@,
        ) && listings_follow_grammar(
            remote.archives@,
            discovered_symbols(remote.symbol_pages@, symbol@),
        ) ==> (run matches Ok(plan) && plan_is(
            plan,
            discovered_symbols(remote.symbol_pages@, symbol@),
            DateWindow { start: start_date, end: end_date },
            path@,
            temp_dir@,
            remote.archives@,
            texts(existing@),
        )),
        run matches Ok(plan) ==> (plan.symbols.len() == 0 ==> plan.archives.len() == 0
            && plan.jobs.len() == 0),
{
    let window = DateWindow::new(start_date, end_date);
    match crate::symbols::fetch(&remote.symbol_pages, symbol) {
        Err(error) => Err(error),
        Ok(found) => {
            let run = plan_run(
                found.symbols,
                interval,
                &window,
                path,
                temp_dir,
                &remote.archives,
                existing,
            );
            run
        },
    }
}

/// What a worker learns when it looks at its input queue.
#[derive(Clone, Copy, Debug, PartialEq, Eq, Structural)]
pub enum QueueSignal {
    /// An item is buffered: take it.
    Item,
    /// Nothing is buffered, but a sender may still send: wait.
    Wait,
    /// Nothing is buffered and no sender is left: no item will arrive.
    Closed,
}

/// What a queue with `buffered` items and `senders` sending workers tells a
/// receiver. Buffered items are drained before the queue counts as closed.
pub open spec fn signal_of(buffered: nat, senders: nat) -> QueueSignal {
    if buffered > 0 {
        QueueSignal::Item
    } else if senders == 0 {
        QueueSignal::Closed
    } else {
        QueueSignal::Wait
    }
}

/// The state of the sending side of a stage's output queue.
pub struct LatchView {
    pub stage: Stage,
    pub remaining: nat,
}

/// The latch of `stage` after `released` of its workers have returned.
pub open spec fn latch_after(stage: Stage, released: nat) -> LatchView {
    LatchView {
        stage,
        remaining: if released >= stage.pool_size() {
            0
        } else {
            (stage.pool_size() - released) as nat
        },
    }
}

/// The latch after one more worker has returned.
pub open spec fn released_once(latch: LatchView) -> LatchView {
    LatchView {
        stage: latch.stage,
        remaining: if latch.remaining > 0 {
            (latch.remaining - 1) as nat
        } else {
            0
        },
    }
}

/// A stage's output queue stays open as long as one of its workers is at
/// work, and is closed once the last has returned: after `released`
/// returns the latch is closed if and only if `released` is at least the size
/// of the pool, and one more return takes one more worker off.
pub proof fn lemma_latch_closes_with_last_worker(stage: Stage, released: nat)
    ensures
        latch_after(stage, released).remaining == 0 <==> released >= stage.pool_size(),
        released_once(latch_after(stage, released)) == latch_after(stage, released + 1),
        latch_after(stage, 0).remaining == stage.pool_size(),
{
}

/// Counts the workers of a stage that still hold the sending side of its
/// output queue. The queue is closed when none is left.
#[derive(Debug)]
pub struct StageLatch {
    stage: Stage,
    remaining: usize,
}

impl View for StageLatch {
    type V = LatchView;

    closed spec fn view(&self) -> LatchView {
        LatchView { stage: self.stage, remaining: self.remaining as nat }
    }
}

impl StageLatch {
    /// The latch of `stage` with all its workers at work.
    pub fn new(stage: Stage) -> (latch: StageLatch)
        ensures
            latch@ == latch_after(stage, 0),
    {
        StageLatch { stage, remaining: stage.workers() }
    }

    /// Takes note that one worker has returned, and says whether the queue
    /// is closed now.
    pub fn release(&mut self) -> (closed: bool)
        ensures
            final(self)@ == released_once(old(self)@),
            closed == (final(self)@.remaining == 0),
    {
        if self.remaining > 0 {
            self.remaining = self.remaining - 1;
        }
        self.remaining == 0
    }

    /// Whether every worker has returned.
    pub fn is_closed(&self) -> (closed: bool)
        ensures
            closed == (self@.remaining == 0),
    {
        self.remaining == 0
    }

    /// What the queue tells a receiver that finds `buffered` items in it.
    pub fn observe(&self, buffered: usize) -> (signal: QueueSignal)
        ensures
            signal == signal_of(buffered as nat, self@.remaining),
    {
        if buffered > 0 {
            QueueSignal::Item
        } else if self.remaining == 0 {
            QueueSignal::Closed
        } else {
            QueueSignal::Wait
        }
    }
}

} // verus!
