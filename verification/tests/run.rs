use kline_ingest::date::{Date, DateWindow};
use kline_ingest::error::{
    exit_is_failure, react, ErrorKind, PipelineError, Reaction,
};
use kline_ingest::archive::ArchiveRef;
use kline_ingest::klines::{download_klines, ExtractionReceipt};
use kline_ingest::pipeline::{
    fetch, plan_downloads, plan_run, QueueSignal, ReceiptTally, RecordedListing, Stage,
    StageLatch, SymbolListing,
};
use kline_ingest::types::{CommonPrefixes, Contents, KlineResult, SymbolResult};

fn key_for(symbol: &str, day: u32) -> String {
    format!("data/spot/daily/klines/{symbol}/1m/{symbol}-1m-2021-01-{day:02}.zip")
}

fn listing(symbol: &str, days: &[u32]) -> SymbolListing {
    SymbolListing {
        symbol: symbol.to_string(),
        pages: vec![KlineResult {
            next_marker: None,
            contents: Some(days.iter().map(|day| Contents { key: key_for(symbol, *day) }).collect()),
        }],
    }
}

fn symbols_page(symbols: &[&str]) -> SymbolResult {
    SymbolResult {
        name: "data.binance.vision".to_string(),
        next_marker: None,
        common_prefixes: symbols
            .iter()
            .map(|symbol| CommonPrefixes { prefix: format!("data/spot/daily/klines/{symbol}/") })
            .collect(),
    }
}

fn remote() -> RecordedListing {
    RecordedListing {
        symbol_pages: vec![symbols_page(&["BTCUSDT", "ETHUSDT"])],
        archives: vec![listing("BTCUSDT", &[1, 2, 3, 4]), listing("ETHUSDT", &[2, 3])],
    }
}

fn archives(symbol: &str, days: &[u32]) -> Vec<ArchiveRef> {
    days.iter().map(|day| ArchiveRef::from_key(&key_for(symbol, *day)).unwrap()).collect()
}

fn january(day: u32) -> Option<Date> {
    Date::from_ymd(2021, 1, day)
}

#[test]
fn three_days_of_one_symbol_give_three_files() {
    let run = fetch("1m", "BTCUSDT", january(1), january(3), "out", "/tmp", &remote(), &Vec::new())
        .unwrap();
    assert_eq!(run.symbols, vec!["BTCUSDT".to_string()]);
    let files: Vec<String> = run.jobs.iter().map(|job| job.archive.target_path("out")).collect();
    assert_eq!(
        files,
        vec![
            "out/2021/01/01/BTCUSDT-1m-2021-01-01.csv".to_string(),
            "out/2021/01/02/BTCUSDT-1m-2021-01-02.csv".to_string(),
            "out/2021/01/03/BTCUSDT-1m-2021-01-03.csv".to_string(),
        ]
    );
    assert!(files.iter().all(|file| !file.contains("2021-01-04")));
    let staged: Vec<&str> = run.jobs.iter().map(|job| job.temp_path.as_str()).collect();
    assert_eq!(
        staged,
        vec![
            "/tmp/BTCUSDT-1m-2021-01-01.zip",
            "/tmp/BTCUSDT-1m-2021-01-02.zip",
            "/tmp/BTCUSDT-1m-2021-01-03.zip",
        ]
    );
    let directories: Vec<&str> =
        run.jobs.iter().map(|job| job.target_directory.as_str()).collect();
    assert_eq!(directories, vec!["out/2021/01/01/", "out/2021/01/02/", "out/2021/01/03/"]);
}

#[test]
fn second_run_downloads_nothing() {
    let first =
        fetch("1m", ".*", january(1), january(3), "out", "/tmp", &remote(), &Vec::new()).unwrap();
    assert_eq!(first.jobs.len(), 5);
    let existing: Vec<String> =
        first.jobs.iter().map(|job| job.archive.target_path("out")).collect();
    let second =
        fetch("1m", ".*", january(1), january(3), "out", "/tmp", &remote(), &existing).unwrap();
    assert_eq!(second.archives.len(), 5);
    assert!(second.jobs.is_empty());
}

#[test]
fn run_after_deleting_one_file_downloads_that_file_only() {
    let first = fetch("1m", ".*", None, None, "out", "/tmp", &remote(), &Vec::new()).unwrap();
    assert_eq!(first.jobs.len(), 6);
    let mut existing: Vec<String> =
        first.jobs.iter().map(|job| job.archive.target_path("out")).collect();
    existing.retain(|file| file != "out/2021/01/02/ETHUSDT-1m-2021-01-02.csv");
    let again = fetch("1m", ".*", None, None, "out", "/tmp", &remote(), &existing).unwrap();
    assert_eq!(again.jobs.len(), 1);
    assert_eq!(again.jobs[0].archive.symbol(), "ETHUSDT");
    assert_eq!(again.jobs[0].archive.date(), Date { year: 2021, month: 1, day: 2 });
    assert_eq!(again.jobs[0].temp_path, "/tmp/ETHUSDT-1m-2021-01-02.zip");
}

#[test]
fn pattern_that_matches_nothing_gives_an_empty_run() {
    let run = fetch("1m", "NOTHING", None, None, "out", "/tmp", &remote(), &Vec::new()).unwrap();
    assert!(run.symbols.is_empty());
    assert!(run.archives.is_empty());
    assert!(run.jobs.is_empty());
}

#[test]
fn run_reports_the_errors_of_its_stages() {
    let mut broken = remote();
    broken.archives[1].pages[0].contents.as_mut().unwrap().push(Contents {
        key: "data/spot/daily/klines/ETHUSDT/1m/ETHUSDT-latest.zip".to_string(),
    });
    assert!(matches!(
        fetch("1m", ".*", None, None, "out", "/tmp", &broken, &Vec::new()),
        Err(PipelineError::MalformedKey)
    ));
    assert!(fetch("1m", "BTC.*", None, None, "out", "/tmp", &broken, &Vec::new()).is_ok());
    assert!(matches!(
        fetch("1m", "(", None, None, "out", "/tmp", &broken, &Vec::new()),
        Err(PipelineError::InvalidPattern)
    ));
    broken.symbol_pages[0].common_prefixes.push(CommonPrefixes { prefix: "loose".to_string() });
    assert!(matches!(
        fetch("1m", "BTC.*", None, None, "out", "/tmp", &broken, &Vec::new()),
        Err(PipelineError::MalformedPrefix)
    ));
}

#[test]
fn plan_run_takes_the_first_listing_of_a_symbol() {
    let listings = vec![listing("A", &[1]), listing("B", &[2]), listing("A", &[3, 4])];
    let symbols = vec!["B".to_string(), "A".to_string(), "C".to_string()];
    let run = plan_run(
        symbols.clone(),
        "1m",
        &DateWindow::unbounded(),
        "out",
        "/tmp",
        &listings,
        &Vec::new(),
    )
    .unwrap();
    assert_eq!(run.symbols, symbols);
    let found: Vec<(String, u32)> = run
        .archives
        .iter()
        .map(|archive| (archive.symbol().to_string(), archive.date().day))
        .collect();
    assert_eq!(found, vec![("B".to_string(), 2), ("A".to_string(), 1)]);
    assert_eq!(run.jobs.len(), 2);
}

#[test]
fn plan_run_without_symbols_does_nothing() {
    let run = plan_run(
        Vec::new(),
        "1m",
        &DateWindow::unbounded(),
        "out",
        "/tmp",
        &vec![listing("A", &[1])],
        &Vec::new(),
    )
    .unwrap();
    assert!(run.archives.is_empty());
    assert!(run.jobs.is_empty());
}

#[test]
fn plan_downloads_skips_the_files_that_are_there() {
    let found = archives("BTCUSDT", &[1, 2, 3]);
    let existing = vec![
        "out/2021/01/02/BTCUSDT-1m-2021-01-02.csv".to_string(),
        "elsewhere/2021/01/03/BTCUSDT-1m-2021-01-03.csv".to_string(),
    ];
    let jobs = plan_downloads(&found, "out", "/tmp", &existing);
    let days: Vec<u32> = jobs.iter().map(|job| job.archive.date().day).collect();
    assert_eq!(days, vec![1, 3]);
    assert!(plan_downloads(&Vec::new(), "out", "/tmp", &existing).is_empty());
}

#[test]
fn pools_have_their_sizes() {
    assert_eq!(Stage::Symbols.workers(), 1);
    assert_eq!(Stage::Urls.workers(), 10);
    assert_eq!(Stage::Downloads.workers(), 250);
    assert_eq!(Stage::Extractions.workers(), 5);
}

#[test]
fn stages_follow_each_other() {
    assert_eq!(Stage::Symbols.next(), Some(Stage::Urls));
    assert_eq!(Stage::Urls.next(), Some(Stage::Downloads));
    assert_eq!(Stage::Downloads.next(), Some(Stage::Extractions));
    assert_eq!(Stage::Extractions.next(), None);
}

#[test]
fn progress_lines_name_workers_and_queue() {
    assert_eq!(Stage::Symbols.waiting_message(), "Fetching symbols");
    assert_eq!(Stage::Urls.waiting_message(), "Waiting for symbols...");
    assert_eq!(Stage::Downloads.waiting_message(), "Waiting for kline urls...");
    assert_eq!(Stage::Extractions.waiting_message(), "Waiting for kline archives...");
    assert_eq!(Stage::Symbols.busy_message(3), "Fetching symbols");
    assert_eq!(Stage::Urls.busy_message(0), "Fetching kline urls (10 workers, 0 symbols in queue)");
    assert_eq!(
        Stage::Downloads.busy_message(1234),
        "Downloading kline archives (250 workers, 1234 urls in queue)"
    );
    assert_eq!(Stage::Extractions.busy_message(17), "Extracting klines (5 workers, 17 in queue)");
    assert_eq!(Stage::Symbols.done_message(), "Fetching symbols: done");
    assert_eq!(Stage::Urls.done_message(), "Fetching kline urls: done");
    assert_eq!(Stage::Downloads.done_message(), "Downloading klines: done");
    assert_eq!(Stage::Extractions.done_message(), "Extracting klines: done");
}

fn receipt(day: u32) -> ExtractionReceipt {
    let archive = ArchiveRef::from_key(&key_for("BTCUSDT", day)).unwrap();
    download_klines(&archive, "out", "/tmp", false).expect("a job").receipt()
}

#[test]
fn tally_counts_receipts() {
    let mut tally = ReceiptTally::new();
    assert_eq!(tally.message(), "0 kline archives extracted");
    assert_eq!(tally.record(receipt(1)), "1 kline archives extracted");
    assert_eq!(tally.record(receipt(2)), "2 kline archives extracted");
    assert_eq!(tally.extracted, 2);
    let mut full = ReceiptTally { extracted: u64::MAX };
    assert_eq!(full.record(receipt(3)), "18446744073709551615 kline archives extracted");
    assert_eq!(full.extracted, u64::MAX);
}

#[test]
fn only_network_failures_are_retryable() {
    assert!(ErrorKind::Network.retryable());
    assert!(!ErrorKind::ContractViolation.retryable());
    assert!(!ErrorKind::LocalIo.retryable());
    assert!(!ErrorKind::InvalidParameter.retryable());
}

#[test]
fn latch_closes_with_the_last_worker() {
    let mut latch = StageLatch::new(Stage::Extractions);
    assert!(!latch.is_closed());
    for _ in 0..4 {
        assert!(!latch.release());
    }
    assert!(latch.release());
    assert!(latch.is_closed());
    assert!(latch.release());
}

#[test]
fn queue_is_drained_before_it_counts_as_closed() {
    let mut latch = StageLatch::new(Stage::Symbols);
    assert_eq!(latch.observe(2), QueueSignal::Item);
    assert_eq!(latch.observe(0), QueueSignal::Wait);
    latch.release();
    assert_eq!(latch.observe(2), QueueSignal::Item);
    assert_eq!(latch.observe(0), QueueSignal::Closed);
}

#[test]
fn downstream_queues_close_without_any_item() {
    for stage in [Stage::Symbols, Stage::Urls, Stage::Downloads, Stage::Extractions] {
        let mut latch = StageLatch::new(stage);
        for _ in 0..stage.workers() {
            assert_eq!(latch.observe(0), QueueSignal::Wait);
            latch.release();
        }
        assert_eq!(latch.observe(0), QueueSignal::Closed);
    }
}

#[test]
fn contract_violations_always_abort() {
    assert_eq!(react(ErrorKind::ContractViolation, true), Reaction::Abort);
    assert_eq!(react(ErrorKind::ContractViolation, false), Reaction::Abort);
    assert_eq!(react(ErrorKind::InvalidParameter, true), Reaction::Abort);
    assert_eq!(react(ErrorKind::InvalidParameter, false), Reaction::Abort);
}

#[test]
fn other_failures_follow_the_policy() {
    assert_eq!(react(ErrorKind::Network, true), Reaction::Skip);
    assert_eq!(react(ErrorKind::Network, false), Reaction::Abort);
    assert_eq!(react(ErrorKind::LocalIo, true), Reaction::Skip);
    assert_eq!(react(ErrorKind::LocalIo, false), Reaction::Abort);
}

#[test]
fn exit_status_follows_the_failures() {
    assert!(!exit_is_failure(&Vec::new(), true));
    assert!(!exit_is_failure(&Vec::new(), false));
    assert!(!exit_is_failure(&vec![ErrorKind::Network, ErrorKind::LocalIo], true));
    assert!(exit_is_failure(&vec![ErrorKind::Network], false));
    assert!(exit_is_failure(&vec![ErrorKind::Network, ErrorKind::ContractViolation], true));
    assert!(exit_is_failure(&vec![ErrorKind::InvalidParameter], true));
}

#[test]
fn errors_have_kinds_and_messages() {
    assert_eq!(PipelineError::MalformedPrefix.kind(), ErrorKind::ContractViolation);
    assert_eq!(PipelineError::MalformedKey.kind(), ErrorKind::ContractViolation);
    assert_eq!(PipelineError::InvalidPattern.kind(), ErrorKind::InvalidParameter);
    assert_eq!(PipelineError::MalformedPrefix.message(), "listed prefix names no symbol");
    assert_eq!(
        PipelineError::MalformedKey.message(),
        "archive key does not follow the file name grammar"
    );
    assert_eq!(
        PipelineError::InvalidPattern.message(),
        "symbol filter is not a regular expression"
    );
}
