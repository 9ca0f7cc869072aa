//! Archive discovery and the download decision: the archives of a listing
//! that fall in the date window, and the job for each archive that is not
//! unpacked yet.

use crate::archive::{
    content_host, is_archive, is_archive_key, lemma_parse_key_well_formed, lemma_same_front,
    parse_key, target_directory_of,
    temp_path_of, ArchiveRef, ArchiveView,
};
use crate::date::{Date, DateWindow};
use crate::error::PipelineError;
use crate::paginator::{
    archive_prefix, build_archive_prefix, crawl_requests, cursor_texts, lemma_pages_read_bounds,
    pages_read, ListingPaginator,
};
use crate::types::{marker_text, texts, KlineResult};
use vstd::prelude::*;

verus! {

/// The archives held in a vector, as what their keys said.
pub open spec fn views(archives: Seq<ArchiveRef>) -> Seq<ArchiveView> {
    archives.map_values(|archive: ArchiveRef| archive@)
}

/// The test whether a key is emitted under `window`: it is an archive key,
/// it follows the grammar, and its date lies in the window.
pub open spec fn emitted(window: DateWindow) -> spec_fn(Seq<char>) -> bool {
    |key: Seq<char>| is_archive_key(key) && parse_key(key) is Some && window.admits(
        parse_key(key)->0.date,
    )
}

/// Whether every archive key among `keys` follows the grammar.
pub open spec fn keys_follow_grammar(keys: Seq<Seq<char>>) -> bool {
    forall|i: int|
        0 <= i < keys.len() && is_archive_key(#[trigger] keys[i]) ==> parse_key(keys[i]) is Some
}

/// What the keys say, key by key.
pub open spec fn archives_of(keys: Seq<Seq<char>>) -> Seq<ArchiveView> {
    keys.map_values(|key: Seq<char>| parse_key(key)->0)
}

/// The archives that a page with `keys` contributes under `window`: those of
/// its archive keys whose date lies in the window, in order. Keys without
/// the archive suffix are passed over.
pub open spec fn page_archives(keys: Seq<Seq<char>>, window: DateWindow) -> Seq<ArchiveView> {
    archives_of(keys.filter(emitted(window)))
}

/// The archives that `page` contributes under `window` (see
/// [`page_archives`]). An archive key that does not follow the grammar makes
/// the page malformed, whether or not its date would have been asked for.
pub fn archives_on_page(page: &KlineResult, window: &DateWindow) -> (found: Result<
    Vec<ArchiveRef>,
    PipelineError,
>)
    ensures
        keys_follow_grammar(page.keys()) ==> (found matches Ok(archives) && views(archives@)
            == page_archives(page.keys(), *window)),
        !keys_follow_grammar(page.keys()) ==> (found matches Err(error) && error
            == PipelineError::MalformedKey),
{
    let ghost keys = page.keys();
    let mut archives: Vec<ArchiveRef> = Vec::new();
    match &page.contents {
        None => {
            reveal(Seq::filter);
            assert(views(archives@) =~= page_archives(keys, *window));
            Ok(archives)
        },
        Some(contents) => {
            let mut i: usize = 0;
            proof {
                reveal(Seq::filter);
                assert(keys.take(0) =~= Seq::<Seq<char>>::empty());
                assert(views(archives@) =~= page_archives(keys.take(0), *window));
            }
            while i < contents.len()
                invariant
                    i <= contents.len() == keys.len(),
                    keys == page.keys(),
                    page.contents == Some(*contents),
                    keys_follow_grammar(keys.take(i as int)),
                    views(archives@) == page_archives(keys.take(i as int), *window),
                decreases contents.len() - i,
            {
                let key = contents[i].key.as_str();
                proof {
                    reveal(Seq::filter);
                    let next = keys.take(i + 1);
                    assert(next.drop_last() =~= keys.take(i as int));
                    assert(next.last() == key@);
                    assert(keys[i as int] == key@);
                }
                let ghost before = archives@;
                if is_archive(key) {
                    match ArchiveRef::from_key(key) {
                        Err(_) => {
                            return Err(PipelineError::MalformedKey);
                        },
                        Ok(archive) => {
                            if window.contains(&archive.date()) {
                                archives.push(archive);
                                assert(views(archives@) =~= views(before).push(archive@));
                            }
                        },
                    }
                }
                proof {
                    let next = keys.take(i + 1);
                    let kept = keys.take(i as int).filter(emitted(*window));
                    if emitted(*window)(key@) {
                        assert(next.filter(emitted(*window)) == kept.push(key@));
                        assert(archives_of(kept.push(key@)) =~= archives_of(kept).push(
                            parse_key(key@)->0,
                        ));
                    } else {
                        assert(next.filter(emitted(*window)) == kept);
                    }
                    assert forall|k: int|
                        0 <= k < next.len() && is_archive_key(
                            #[trigger] next[k],
                        ) implies parse_key(next[k]) is Some by {
                        if k < i {
                            assert(next[k] == keys.take(i as int)[k]);
                        }
                    }
                }
                i += 1;
            }
            assert(keys.take(i as int) =~= keys);
            Ok(archives)
        },
    }
}

/// The cursors the pages of a recorded listing came with.
pub open spec fn page_cursors(pages: Seq<KlineResult>) -> Seq<Option<Seq<char>>> {
    pages.map_values(|page: KlineResult| page.cursor())
}

/// The pages of a recorded listing that a crawl reads: up to and with the
/// first page without a cursor.
pub open spec fn pages_seen(pages: Seq<KlineResult>) -> Seq<KlineResult> {
    pages.take(pages_read(page_cursors(pages)))
}

/// Whether every archive key of every page follows the grammar.
pub open spec fn pages_follow_grammar(pages: Seq<KlineResult>) -> bool {
    forall|i: int| 0 <= i < pages.len() ==> keys_follow_grammar(#[trigger] pages[i].keys())
}

/// The archives that the pages contribute under `window`, page after page.
pub open spec fn archives_of_pages(pages: Seq<KlineResult>, window: DateWindow) -> Seq<
    ArchiveView,
>
    decreases pages.len(),
{
    if pages.len() == 0 {
        Seq::empty()
    } else {
        archives_of_pages(pages.drop_last(), window) + page_archives(pages.last().keys(), window)
    }
}

/// The outcome of archive discovery on the recorded listing of one symbol.
#[derive(Debug)]
pub struct ArchiveCrawl {
    /// The listing requests made, one per page read.
    pub requests: Vec<String>,
    /// The archives to download, in the order of the listing.
    pub archives: Vec<ArchiveRef>,
}

/// The cursors of the pages, copied out.
fn cursors_of(pages: &Vec<KlineResult>) -> (cursors: Vec<Option<String>>)
    ensures
        cursor_texts(cursors@) == page_cursors(pages@),
{
    let mut cursors: Vec<Option<String>> = Vec::new();
    let mut i: usize = 0;
    while i < pages.len()
        invariant
            i <= pages.len(),
            cursors.len() == i,
            forall|k: int|
                0 <= k < i ==> marker_text(#[trigger] cursors[k]) == pages[k].cursor(),
        decreases pages.len() - i,
    {
        let cursor = match &pages[i].next_marker {
            Some(marker) => Some(marker.clone()),
            None => None,
        };
        cursors.push(cursor);
        i += 1;
    }
    assert(cursor_texts(cursors@) =~= page_cursors(pages@));
    cursors
}

/// Archive discovery for `symbol` at `interval` against the recorded listing
/// of their prefix: walks the pages as a crawl does, up to and with the first
/// page without a cursor, and gives the archives whose date is not before
/// `start_date` and not after `end_date`, where those are given.
///
/// An archive key that does not follow the file name grammar, on a page that
/// is read, is a malformed listing, whether or not its date would have been
/// asked for.
pub fn fetch_urls(
    symbol: &str,
    interval: &str,
    pages: &Vec<KlineResult>,
    start_date: Option<Date>,
    end_date: Option<Date>,
) -> (crawl: Result<ArchiveCrawl, PipelineError>)
    ensures
        !pages_follow_grammar(pages_seen(pages@)) ==> (crawl matches Err(error) && error
            == PipelineError::MalformedKey),
        pages_follow_grammar(pages_seen(pages@)) ==> (crawl matches Ok(found) && texts(
            found.requests@,
        ) == crawl_requests(archive_prefix(symbol@, interval@), page_cursors(pages@)) && views(
            found.archives@,
        ) == archives_of_pages(
            pages_seen(pages@),
            DateWindow { start: start_date, end: end_date },
        )),
{
    let window = DateWindow::new(start_date, end_date);
    let prefix = build_archive_prefix(symbol, interval);
    let cursors = cursors_of(pages);
    let requests = ListingPaginator::crawl(prefix.as_str(), &cursors);
    let count = requests.len();
    let ghost seen = pages_seen(pages@);
    proof {
        assert(texts(requests@).len() == requests@.len());
        lemma_pages_read_bounds(page_cursors(pages@), 0);
    }
    let mut archives: Vec<ArchiveRef> = Vec::new();
    let mut i: usize = 0;
    assert(seen.take(0) =~= Seq::<KlineResult>::empty());
    assert(views(archives@) =~= Seq::<ArchiveView>::empty());
    while i < count
        invariant
            i <= count == seen.len() <= pages.len(),
            seen == pages@.take(count as int),
            seen == pages_seen(pages@),
            pages_follow_grammar(seen.take(i as int)),
            views(archives@) == archives_of_pages(seen.take(i as int), window),
        decreases count - i,
    {
        proof {
            let next = seen.take(i + 1);
            assert(next.drop_last() =~= seen.take(i as int));
            assert(next.last() == pages[i as int]);
            assert(seen[i as int] == pages[i as int]);
        }
        match archives_on_page(&pages[i], &window) {
            Ok(found) => {
                let mut found = found;
                let ghost before = archives@;
                let ghost added = found@;
                archives.append(&mut found);
                assert(views(archives@) =~= views(before) + views(added));
            },
            Err(_) => {
                assert(!keys_follow_grammar(seen[i as int].keys()));
                return Err(PipelineError::MalformedKey);
            },
        }
        proof {
            let next = seen.take(i + 1);
            assert forall|k: int| 0 <= k < next.len() implies keys_follow_grammar(
                #[trigger] next[k].keys(),
            ) by {
                if k < i {
                    assert(next[k] == seen.take(i as int)[k]);
                }
            }
        }
        i += 1;
    }
    assert(seen.take(count as int) =~= seen);
    Ok(ArchiveCrawl { requests, archives })
}

/// What a download job says: the archive it is for, the file the archive is
/// staged in, and the directory it is unpacked into.
pub struct JobView {
    pub archive: ArchiveView,
    pub temp_path: Seq<char>,
    pub target_directory: Seq<char>,
}

/// The job for `archive` under the two directories.
pub open spec fn job_for(archive: ArchiveView, data_dir: Seq<char>, temp_dir: Seq<char>) -> JobView {
    JobView {
        archive,
        temp_path: temp_path_of(temp_dir, archive),
        target_directory: target_directory_of(data_dir, archive.date),
    }
}

/// An archive that has to be downloaded and unpacked.
#[derive(Debug)]
pub struct DownloadJob {
    /// The archive to fetch.
    pub archive: ArchiveRef,
    /// The file the archive is staged in.
    pub temp_path: String,
    /// The directory the archive is unpacked into.
    pub target_directory: String,
}

/// The sign that one archive has been unpacked. It is made from the job of
/// the archive and counted by the summary line; it says nothing else.
#[derive(Debug, PartialEq, Eq)]
pub struct ExtractionReceipt {
    unit: (),
}

impl DownloadJob {
    /// The receipt for the job, once its archive has been unpacked.
    pub fn receipt(self) -> ExtractionReceipt {
        ExtractionReceipt { unit: () }
    }
}

impl View for DownloadJob {
    type V = JobView;

    open spec fn view(&self) -> JobView {
        JobView {
            archive: self.archive@,
            temp_path: self.temp_path@,
            target_directory: self.target_directory@,
        }
    }
}

/// Decides what is done for `archive`: nothing where the file that unpacking
/// it leaves behind (see [`target_path_of`]) is there already, else a job
/// that stages it under `temp_dir` and unpacks it under `data_dir`. The
/// caller looks for the file and says what it found in `already_extracted`.
pub fn download_klines(
    archive: &ArchiveRef,
    data_dir: &str,
    temp_dir: &str,
    already_extracted: bool,
) -> (job: Option<DownloadJob>)
    ensures
        already_extracted ==> job is None,
        !already_extracted ==> (job matches Some(planned) && planned@ == job_for(
            archive@,
            data_dir@,
            temp_dir@,
        )),
{
    if already_extracted {
        None
    } else {
        Some(
            DownloadJob {
                archive: archive.clone(),
                temp_path: archive.temp_path(temp_dir),
                target_directory: archive.target_directory(data_dir),
            },
        )
    }
}

/// An archive of a page is emitted if and only if its date lies in the
/// window: where key `i` is an archive key that follows the grammar, what it
/// says is among the archives of the page exactly when its date is not
/// before the start of the window, if there is one, and not after its end,
/// if there is one.
pub proof fn lemma_emitted_iff_in_window(keys: Seq<Seq<char>>, window: DateWindow, i: int)
    requires
        0 <= i < keys.len(),
        is_archive_key(keys[i]),
        parse_key(keys[i]) is Some,
    ensures
        page_archives(keys, window).contains(parse_key(keys[i])->0) <==> window.admits(
            parse_key(keys[i])->0.date,
        ),
        window.admits(parse_key(keys[i])->0.date) <==> ((window.start is None
            || !parse_key(keys[i])->0.date.precedes(window.start->0)) && (window.end is None
            || !window.end->0.precedes(parse_key(keys[i])->0.date))),
{
    let archive = parse_key(keys[i])->0;
    let kept = keys.filter(emitted(window));
    let out = page_archives(keys, window);
    if window.admits(archive.date) {
        assert(emitted(window)(keys[i]));
        keys.lemma_filter_contains(emitted(window), i);
        let j = choose|j: int| 0 <= j < kept.len() && kept[j] == keys[i];
        assert(out[j] == archive);
    }
    if out.contains(archive) {
        let j = choose|j: int| 0 <= j < out.len() && out[j] == archive;
        keys.lemma_filter_pred(emitted(window), j);
        assert(emitted(window)(kept[j]));
        assert(parse_key(kept[j])->0.source_url == archive.source_url);
        lemma_same_front(content_host(), kept[j], keys[i]);
    }
}

/// No archive of a page lies outside the window: every archive that a page
/// contributes is well formed, comes from an archive key of the page, and has
/// a date that is not before the start of the window nor after its end.
pub proof fn lemma_page_archives_in_window(keys: Seq<Seq<char>>, window: DateWindow, i: int)
    requires
        0 <= i < page_archives(keys, window).len(),
    ensures
        window.admits(page_archives(keys, window)[i].date),
        page_archives(keys, window)[i].well_formed(),
        exists|k: int|
            0 <= k < keys.len() && is_archive_key(#[trigger] keys[k]) && parse_key(keys[k])
                == Some(page_archives(keys, window)[i]),
{
    let kept = keys.filter(emitted(window));
    keys.lemma_filter_pred(emitted(window), i);
    assert(emitted(window)(kept[i]));
    lemma_parse_key_well_formed(kept[i]);
    assert(kept.contains(kept[i]));
    keys.lemma_filter_contains_rev(emitted(window), kept[i]);
    let k = choose|k: int| 0 <= k < keys.len() && keys[k] == kept[i];
    assert(is_archive_key(keys[k]) && parse_key(keys[k]) == Some(page_archives(keys, window)[i]));
}

/// No archive of a crawl lies outside the window: every archive that the
/// pages contribute is well formed and has a date in the window.
pub proof fn lemma_archives_of_pages_in_window(
    pages: Seq<KlineResult>,
    window: DateWindow,
    i: int,
)
    requires
        0 <= i < archives_of_pages(pages, window).len(),
    ensures
        window.admits(archives_of_pages(pages, window)[i].date),
        archives_of_pages(pages, window)[i].well_formed(),
    decreases pages.len(),
{
    if pages.len() > 0 {
        let front = archives_of_pages(pages.drop_last(), window);
        if i < front.len() {
            lemma_archives_of_pages_in_window(pages.drop_last(), window, i);
        } else {
            lemma_page_archives_in_window(pages.last().keys(), window, i - front.len());
        }
    }
}

} // verus!
